use sima::codegen::{
    build_basic_type, build_body, build_function_type, build_module, kind_of, parse_decimal,
    CodegenUnit, ErrorKind, Instr, IrType, Value,
};
use sima::source_ast::{CompileError, Expression, Function, Module, SimaType};

fn basic(id: &str) -> SimaType {
    SimaType::Basic { id: id.to_string() }
}

fn fn_type(args: usize, rets: usize) -> SimaType {
    SimaType::Function {
        args: (0..args).map(|_| basic("i32")).collect(),
        ret: (0..rets).map(|_| basic("i32")).collect(),
    }
}

fn num(text: &str) -> Expression {
    Expression::Number(text.to_string())
}

fn ident(id: &str) -> Expression {
    Expression::Identifier { id: id.to_string(), in_ariety: 0, out_ariety: 0 }
}

fn concat(left: Expression, right: Expression) -> Expression {
    Expression::Concat { left: Box::new(left), right: Box::new(right) }
}

fn sidecat(left: Expression, right: Expression) -> Expression {
    Expression::Sidecat { left: Box::new(left), right: Box::new(right) }
}

fn arities(e: &Expression) -> (usize, usize) {
    (e.in_ariety(), e.out_ariety())
}

fn body_of(m: &Module, name: &str) -> Expression {
    let k = m.find(&name.to_string()).unwrap();
    copy(m.functions[k].1.expr.as_ref().unwrap())
}

fn copy(e: &Expression) -> Expression {
    match e {
        Expression::Concat { left, right } => concat(copy(left), copy(right)),
        Expression::Sidecat { left, right } => sidecat(copy(left), copy(right)),
        Expression::Block { inner } => Expression::Block { inner: Box::new(copy(inner)) },
        Expression::StringLiteral(s) => Expression::StringLiteral(s.clone()),
        Expression::Number(s) => Expression::Number(s.clone()),
        Expression::Identifier { id, in_ariety, out_ariety } => Expression::Identifier {
            id: id.clone(),
            in_ariety: *in_ariety,
            out_ariety: *out_ariety,
        },
        Expression::Duplicate => Expression::Duplicate,
        Expression::Discard => Expression::Discard,
        Expression::Exchange => Expression::Exchange,
        Expression::Keep => Expression::Keep,
    }
}

fn kind(r: &Result<(), CompileError>) -> ErrorKind {
    kind_of(r.as_ref().unwrap_err())
}

#[test]
fn leaf_arities() {
    assert_eq!(arities(&Expression::StringLiteral("hi".to_string())), (0, 1));
    assert_eq!(arities(&num("7")), (0, 1));
    assert_eq!(arities(&Expression::Block { inner: Box::new(Expression::Keep) }), (0, 1));
    assert_eq!(arities(&Expression::Discard), (1, 0));
    assert_eq!(arities(&Expression::Duplicate), (1, 2));
    assert_eq!(arities(&Expression::Exchange), (2, 2));
    assert_eq!(arities(&Expression::Keep), (1, 1));
}

#[test]
fn concat_full_absorption() {
    // left.out = right.in: the composite consumes what the left does, yields what the right does
    assert_eq!(arities(&concat(num("1"), Expression::Discard)), (0, 0));
    assert_eq!(arities(&concat(Expression::Duplicate, Expression::Exchange)), (1, 2));
}

#[test]
fn concat_pure_addition() {
    // left.out = 0 and right.in = 0: arities add
    assert_eq!(arities(&concat(Expression::Discard, num("1"))), (1, 1));
}

#[test]
fn concat_general_formula() {
    // in = 2 + 1 - max(1, 2) = 1; out = 2 + 0 - max(2, 1) = 0
    assert_eq!(arities(&concat(Expression::Exchange, Expression::Discard)), (1, 0));
}

#[test]
fn sidecat_adds() {
    assert_eq!(arities(&sidecat(Expression::Duplicate, Expression::Exchange)), (3, 4));
    assert_eq!(arities(&sidecat(num("1"), num("2"))), (0, 2));
}

#[test]
fn checked_arity_rejects_negative() {
    // in = 0 + 0 - max(0, 1) = -1
    let e = concat(num("1"), num("2"));
    assert_eq!(e.checked_arity(), None);
    assert_eq!(concat(Expression::Exchange, Expression::Discard).checked_arity(), Some((1, 0)));
}

#[test]
fn function_arities() {
    let f = Function { typ: fn_type(3, 2), expr: None };
    assert_eq!((f.in_ariety(), f.out_ariety()), (3, 2));
    let v = Function { typ: basic("i8"), expr: None };
    assert_eq!((v.in_ariety(), v.out_ariety()), (1, 1));
}

#[test]
fn resolution_fills_identifier_arities() {
    let mut m = Module::new("m");
    m.add_declaration("g", fn_type(2, 1)).unwrap();
    m.add_declaration("h", fn_type(0, 0)).unwrap();
    m.add_definition("h", concat(ident("g"), ident("h"))).unwrap();
    m.calc_arieties().unwrap();
    match body_of(&m, "h") {
        Expression::Concat { left, right } => {
            assert_eq!(arities(&left), (2, 1));
            assert_eq!(arities(&right), (0, 0));
        }
        _ => panic!("body changed shape"),
    }
}

#[test]
fn resolution_is_idempotent() {
    let mut m = Module::new("m");
    m.add_declaration("g", fn_type(2, 1)).unwrap();
    m.add_definition("g", concat(Expression::Exchange, ident("g"))).unwrap();
    m.calc_arieties().unwrap();
    let once = format!("{:?}", m);
    m.calc_arieties().unwrap();
    assert_eq!(format!("{:?}", m), once);
}

#[test]
fn calc_ariety_on_expression() {
    let mut m = Module::new("m");
    m.add_declaration("g", fn_type(2, 1)).unwrap();
    let e = sidecat(ident("g"), num("3")).calc_ariety(&m).unwrap();
    assert_eq!(arities(&e), (2, 2));
}

#[test]
fn unbound_identifier_in_resolution() {
    let mut m = Module::new("mod1");
    m.add_declaration("f", fn_type(0, 1)).unwrap();
    m.add_definition("f", ident("missing")).unwrap();
    let r = m.calc_arieties();
    match r {
        Err(CompileError::UnboundIdentifier { name, module }) => {
            assert_eq!(name, "missing");
            assert_eq!(module, "mod1");
        }
        other => panic!("unexpected {:?}", other),
    }
}

#[test]
fn duplicate_declaration_rejected() {
    let mut m = Module::new("m");
    m.add_declaration("f", fn_type(0, 1)).unwrap();
    let r = m.add_declaration("f", fn_type(2, 0));
    assert_eq!(kind(&r), ErrorKind::DuplicateDeclaration);
    assert_eq!(m.functions.len(), 1);
    assert_eq!(m.functions[0].1.in_ariety(), 0);
}

#[test]
fn definition_errors() {
    let mut m = Module::new("m");
    assert_eq!(kind(&m.add_definition("f", Expression::Keep)), ErrorKind::UndeclaredDefinition);
    m.add_declaration("f", fn_type(1, 1)).unwrap();
    m.add_definition("f", Expression::Keep).unwrap();
    assert_eq!(kind(&m.add_definition("f", Expression::Keep)), ErrorKind::DuplicateDefinition);
}

#[test]
fn number_then_duplicate_returns_five() {
    let mut m = Module::new("m");
    let two = SimaType::Function { args: vec![], ret: vec![basic("i32"), basic("i32")] };
    m.add_declaration("f", two).unwrap();
    m.add_definition("f", concat(num("5"), Expression::Duplicate)).unwrap();
    let out = build_module(m).unwrap();
    let body = out.functions[0].body.as_ref().unwrap();
    assert_eq!(body.len(), 2);
    assert!(matches!(body[0], Instr::IntConst { value: 5 }));
    assert!(matches!(body[1], Instr::Return { result: Some(Value::Inst(0)) }));
    assert!(matches!(out.functions[0].typ.ret, Some(IrType::Int { width: 32 })));
}

#[test]
fn exchange_then_call_swaps_arguments() {
    let mut m = Module::new("m");
    m.add_declaration("g", fn_type(2, 1)).unwrap();
    m.add_definition("g", concat(Expression::Exchange, ident("g"))).unwrap();
    let out = build_module(m).unwrap();
    let body = out.functions[0].body.as_ref().unwrap();
    match &body[0] {
        Instr::Call { callee, args, has_result } => {
            assert_eq!(callee, "g");
            assert_eq!(args, &vec![Value::Param(1), Value::Param(0)]);
            assert!(*has_result);
        }
        other => panic!("unexpected {:?}", other),
    }
    assert!(matches!(body[1], Instr::Return { result: Some(Value::Inst(0)) }));
}

#[test]
fn absent_function_emits_nothing() {
    let mut m = Module::new("m");
    m.add_declaration("f", fn_type(0, 1)).unwrap();
    m.add_definition("f", ident("nowhere")).unwrap();
    let r = build_module(m);
    assert_eq!(kind_of(&r.unwrap_err()), ErrorKind::UnboundIdentifier);

    let empty = Module::new("e");
    let mut cgu = CodegenUnit::new();
    let r = cgu.build_expression(&empty, &ident("nowhere"), 0);
    assert_eq!(kind(&r), ErrorKind::UnboundIdentifier);
    assert!(cgu.code.is_empty());
    assert!(cgu.stack.is_empty());
}

#[test]
fn duplicate_declaration_before_codegen() {
    let mut m = Module::new("m");
    m.add_declaration("f", fn_type(0, 1)).unwrap();
    assert_eq!(kind(&m.add_declaration("f", fn_type(1, 1))), ErrorKind::DuplicateDeclaration);
}

#[test]
fn sidecat_of_two_literals() {
    let e = sidecat(num("1"), num("2"));
    assert_eq!(e.out_ariety(), 2);
    let m = Module::new("m");
    let mut cgu = CodegenUnit::new();
    cgu.build_expression(&m, &e, 0).unwrap();
    assert_eq!(cgu.stack, vec![Value::Inst(0), Value::Inst(1)]);
    assert!(matches!(cgu.code[0], Instr::IntConst { value: 1 }));
    assert!(matches!(cgu.code[1], Instr::IntConst { value: 2 }));
}

#[test]
fn sidecat_reserves_room_for_right_operand() {
    // left runs at depth 1 (the right's in-arity), so its value lands below the parameter
    let m = Module::new("m");
    let e = sidecat(num("9"), Expression::Discard);
    let code = build_body(&m, &e, 1).unwrap();
    assert!(matches!(code[0], Instr::IntConst { value: 9 }));
    assert!(matches!(code[1], Instr::Return { result: Some(Value::Inst(0)) }));
}

#[test]
fn string_literal_and_void_return() {
    let mut m = Module::new("m");
    m.add_declaration("p", fn_type(1, 0)).unwrap();
    m.add_declaration("main", fn_type(0, 0)).unwrap();
    m.add_definition("main", concat(Expression::StringLiteral("hi".to_string()), ident("p")))
        .unwrap();
    let out = build_module(m).unwrap();
    assert!(out.functions[0].body.is_none());
    let body = out.functions[1].body.as_ref().unwrap();
    match &body[0] {
        Instr::StringConst { text } => assert_eq!(text, "hi"),
        other => panic!("unexpected {:?}", other),
    }
    match &body[1] {
        Instr::Call { args, has_result, .. } => {
            assert_eq!(args, &vec![Value::Inst(0)]);
            assert!(!*has_result);
        }
        other => panic!("unexpected {:?}", other),
    }
    assert!(matches!(body[2], Instr::Return { result: None }));
    assert!(out.functions[1].typ.ret.is_none());
}

#[test]
fn discard_and_exchange_at_depth() {
    let m = Module::new("m");
    let mut cgu = CodegenUnit::new();
    cgu.put(Value::Param(0), 0);
    cgu.put(Value::Param(1), 0);
    cgu.put(Value::Param(2), 0);
    cgu.build_expression(&m, &Expression::Exchange, 1).unwrap();
    assert_eq!(cgu.stack, vec![Value::Param(1), Value::Param(0), Value::Param(2)]);
    cgu.build_expression(&m, &Expression::Discard, 2).unwrap();
    assert_eq!(cgu.stack, vec![Value::Param(0), Value::Param(2)]);
    cgu.build_expression(&m, &Expression::Duplicate, 1).unwrap();
    assert_eq!(cgu.stack, vec![Value::Param(0), Value::Param(0), Value::Param(2)]);
    assert_eq!(cgu.take(0), Value::Param(2));
}

#[test]
fn block_is_unsupported() {
    let mut m = Module::new("m");
    m.add_declaration("f", fn_type(0, 1)).unwrap();
    m.add_definition("f", Expression::Block { inner: Box::new(num("1")) }).unwrap();
    assert_eq!(kind_of(&build_module(m).unwrap_err()), ErrorKind::UnsupportedConstruct);
}

#[test]
fn invalid_number_is_rejected() {
    let m = Module::new("m");
    let mut cgu = CodegenUnit::new();
    assert_eq!(kind(&cgu.build_expression(&m, &num("12a"), 0)), ErrorKind::InvalidNumber);
}

#[test]
fn stack_underflow_is_reported() {
    let m = Module::new("m");
    let mut cgu = CodegenUnit::new();
    assert_eq!(kind(&cgu.build_expression(&m, &Expression::Discard, 0)), ErrorKind::StackUnderflow);
    assert_eq!(kind(&cgu.build_expression(&m, &num("1"), 1)), ErrorKind::StackUnderflow);
}

#[test]
fn negative_arity_is_reported() {
    let m = Module::new("m");
    let mut cgu = CodegenUnit::new();
    let e = sidecat(Expression::Keep, concat(num("1"), num("2")));
    assert_eq!(kind(&cgu.build_expression(&m, &e, 0)), ErrorKind::ArityOutOfRange);
}

#[test]
fn malformed_types_are_rejected() {
    let mut m = Module::new("m");
    m.add_declaration("f", fn_type(0, 1)).unwrap();
    m.add_declaration("v", basic("i32")).unwrap();
    assert_eq!(kind_of(&build_module(m).unwrap_err()), ErrorKind::MalformedType);

    let owner = "t".to_string();
    assert!(build_basic_type(&basic("i"), &owner).is_err());
    assert!(build_basic_type(&basic("i0"), &owner).is_err());
    assert!(build_basic_type(&basic("ix"), &owner).is_err());
    let to_fn = SimaType::Pointer { target: Box::new(fn_type(0, 0)) };
    match build_basic_type(&to_fn, &owner) {
        Err(CompileError::MalformedType { name }) => assert_eq!(name, "t"),
        other => panic!("unexpected {:?}", other),
    }
    assert!(build_function_type(&basic("i8"), &owner).is_err());
}

#[test]
fn types_lower() {
    let owner = "t".to_string();
    assert_eq!(build_basic_type(&basic("i32"), &owner).unwrap(), IrType::Int { width: 32 });
    let p = SimaType::Pointer { target: Box::new(basic("u8")) };
    assert_eq!(
        build_basic_type(&p, &owner).unwrap(),
        IrType::Pointer { target: Box::new(IrType::Int { width: 8 }) }
    );
    assert_eq!(build_basic_type(&SimaType::Opaque, &owner).unwrap(), IrType::Opaque);
    let f = SimaType::Function { args: vec![basic("i1"), SimaType::Opaque], ret: vec![] };
    let t = build_function_type(&f, &owner).unwrap();
    assert_eq!(t.args, vec![IrType::Int { width: 1 }, IrType::Opaque]);
    assert!(t.ret.is_none());
}

#[test]
fn decimal_parsing() {
    assert_eq!(parse_decimal("42", 0), Some(42));
    assert_eq!(parse_decimal("i64", 1), Some(64));
    assert_eq!(parse_decimal("18446744073709551615", 0), Some(u64::MAX));
    assert_eq!(parse_decimal("18446744073709551616", 0), None);
    assert_eq!(parse_decimal("", 0), None);
    assert_eq!(parse_decimal("-1", 0), None);
}
