use vstd::prelude::*;
use vstd::string::*;
use crate::source_ast::{
    CompileError, Expression, Function, Module, SimaType, arity_ok, bodies_bound, in_ar, lookup, out_ar,
    resolve_entries, resolved, same_signatures,
};

verus! {

/// Backend types that declared types lower to.
#[derive(Debug, PartialEq, Eq)]
pub enum IrType {
    /// An integer of the given bit width.
    Int { width: u32 },
    /// A pointer to the target type.
    Pointer { target: Box<IrType> },
    /// The module's one shared incomplete aggregate.
    Opaque,
}

/// A callable signature: parameter types and an optional return type (none means void).
#[derive(Debug)]
pub struct IrFnType {
    pub args: Vec<IrType>,
    pub ret: Option<IrType>,
}

pub open spec fn is_digit(c: char) -> bool {
    '0' <= c && c <= '9'
}

pub open spec fn digit_value(c: char) -> nat {
    (c as nat - '0' as nat) as nat
}

/// The number that a string of decimal digits denotes.
pub open spec fn decimal_value(s: Seq<char>) -> nat
    decreases s.len(),
{
    if s.len() == 0 {
        0
    } else {
        decimal_value(s.drop_last()) * 10 + digit_value(s.last())
    }
}

/// `s` is non-empty decimal text.
pub open spec fn is_decimal(s: Seq<char>) -> bool {
    s.len() > 0 && forall|i: int| 0 <= i < s.len() ==> is_digit(#[trigger] s[i])
}

/// The 64-bit value of decimal text, if it is decimal text and fits.
pub open spec fn decimal_of(s: Seq<char>) -> Option<u64> {
    if is_decimal(s) && decimal_value(s) <= u64::MAX {
        Some(decimal_value(s) as u64)
    } else {
        None
    }
}

/// The bit width of a basic type tag: the decimal text after its first character,
/// positive and fitting in 32 bits.
pub open spec fn basic_width(id: Seq<char>) -> Option<u32> {
    if id.len() >= 1 {
        match decimal_of(id.subrange(1, id.len() as int)) {
            Some(v) => if 1 <= v <= u32::MAX {
                Some(v as u32)
            } else {
                None
            },
            None => None,
        }
    } else {
        None
    }
}

/// The backend type of a declared value type; `None` where it has none (a function type,
/// or a basic type with a malformed width).
pub open spec fn lower_type(t: SimaType) -> Option<IrType>
    decreases t,
{
    match t {
        SimaType::Function { .. } => None,
        SimaType::Pointer { target } => match lower_type(*target) {
            Some(u) => Some(IrType::Pointer { target: Box::new(u) }),
            None => None,
        },
        SimaType::Basic { id } => match basic_width(id@) {
            Some(w) => Some(IrType::Int { width: w }),
            None => None,
        },
        SimaType::Opaque => Some(IrType::Opaque),
    }
}

/// Every type of `ts` has a backend type.
pub open spec fn all_lower(ts: Seq<SimaType>) -> bool {
    forall|k: int| 0 <= k < ts.len() ==> (#[trigger] lower_type(ts[k])) is Some
}

/// A declared function type lowers when it is a function type whose arguments and first
/// return element (if any) lower; further return elements are not represented.
pub open spec fn fn_type_lowers(t: SimaType) -> bool {
    match t {
        SimaType::Function { args, ret } => all_lower(args@) && (ret@.len() == 0 || lower_type(
            ret@[0],
        ) is Some),
        _ => false,
    }
}

/// `r` is the lowering of the declared function type `t`.
pub open spec fn lowers_to(t: SimaType, r: IrFnType) -> bool {
    match t {
        SimaType::Function { args, ret } => {
            &&& r.args@.len() == args@.len()
            &&& forall|k: int| 0 <= k < args@.len() ==> Some(#[trigger] r.args@[k]) == lower_type(args@[k])
            &&& if ret@.len() == 0 {
                r.ret is None
            } else {
                r.ret == lower_type(ret@[0])
            }
        },
        _ => false,
    }
}

pub proof fn lemma_decimal_prefix_grows(s: Seq<char>, j: int)
    requires
        0 <= j <= s.len(),
    ensures
        decimal_value(s.subrange(0, j)) <= decimal_value(s),
    decreases s.len(),
{
    if j < s.len() {
        lemma_decimal_prefix_grows(s.drop_last(), j);
        assert(s.drop_last().subrange(0, j) =~= s.subrange(0, j));
    } else {
        assert(s.subrange(0, j) =~= s);
    }
}

/// The value of the decimal text `s[start..]`, if it is decimal text that fits in 64 bits.
pub fn parse_decimal(s: &str, start: usize) -> (r: Option<u64>)
    requires
        start <= s@.len(),
    ensures
        r == decimal_of(s@.subrange(start as int, s@.len() as int)),
{
    let n = s.unicode_len();
    let ghost t = s@.subrange(start as int, s@.len() as int);
    if start >= n {
        return None;
    }
    let mut acc: u64 = 0;
    let mut i: usize = start;
    while i < n
        invariant
            start <= i <= n,
            n == s@.len(),
            t == s@.subrange(start as int, n as int),
            forall|k: int| 0 <= k < i - start ==> is_digit(#[trigger] t[k]),
            acc == decimal_value(t.subrange(0, i - start)),
        decreases n - i,
    {
        let c = s.get_char(i);
        if c < '0' || c > '9' {
            assert(t[i - start] == c);
            return None;
        }
        let d = (c as u32 - '0' as u32) as u64;
        let ghost p = t.subrange(0, i - start + 1);
        assert(p.drop_last() =~= t.subrange(0, i - start));
        assert(p.last() == c);
        if acc > (u64::MAX - d) / 10 {
            proof {
                lemma_decimal_prefix_grows(t, i - start + 1);
            }
            return None;
        }
        acc = acc * 10 + d;
        i += 1;
    }
    assert(t.subrange(0, n - start) =~= t);
    Some(acc)
}

/// The backend type of a declared value type.
/// Fails with `MalformedType` (naming `owner`) exactly where `lower_type` has none.
pub fn build_basic_type(typ: &SimaType, owner: &String) -> (r: Result<IrType, CompileError>)
    ensures
        match lower_type(*typ) {
            Some(u) => r == Ok::<IrType, CompileError>(u),
            None => r matches Err(CompileError::MalformedType { name }) && name@ == owner@,
        },
    decreases typ,
{
    match typ {
        SimaType::Function { .. } => Err(CompileError::MalformedType { name: owner.clone() }),
        SimaType::Pointer { target } => match build_basic_type(target, owner) {
            Ok(u) => Ok(IrType::Pointer { target: Box::new(u) }),
            Err(e) => Err(e),
        },
        SimaType::Basic { id } => {
            let s = id.as_str();
            if s.unicode_len() < 1 {
                return Err(CompileError::MalformedType { name: owner.clone() });
            }
            match parse_decimal(s, 1) {
                Some(v) => if 1 <= v && v <= u32::MAX as u64 {
                    Ok(IrType::Int { width: v as u32 })
                } else {
                    Err(CompileError::MalformedType { name: owner.clone() })
                },
                None => Err(CompileError::MalformedType { name: owner.clone() }),
            }
        },
        SimaType::Opaque => Ok(IrType::Opaque),
    }
}

/// The callable signature of a declared function type: the lowered argument types, and
/// the lowered first return element, or void when nothing is returned.
/// Fails with `MalformedType` (naming `owner`) exactly when the type does not lower.
pub fn build_function_type(typ: &SimaType, owner: &String) -> (r: Result<IrFnType, CompileError>)
    ensures
        r is Ok <==> fn_type_lowers(*typ),
        r matches Ok(t) ==> lowers_to(*typ, t),
        r matches Err(err) ==> (err matches CompileError::MalformedType { name } && name@ == owner@),
{
    match typ {
        SimaType::Function { args, ret } => {
            let mut lowered: Vec<IrType> = Vec::new();
            let mut k: usize = 0;
            while k < args.len()
                invariant
                    k <= args@.len(),
                    *typ == (SimaType::Function { args: *args, ret: *ret }),
                    lowered@.len() == k,
                    forall|j: int| 0 <= j < k ==> Some(#[trigger] lowered@[j]) == lower_type(args@[j]),
                decreases args@.len() - k,
            {
                match build_basic_type(&args[k], owner) {
                    Ok(u) => lowered.push(u),
                    Err(e) => {
                        assert(lower_type(args@[k as int]) is None);
                        assert(!all_lower(args@));
                        assert(!fn_type_lowers(*typ));
                        return Err(e);
                    },
                }
                k += 1;
            }
            assert forall|j: int| 0 <= j < args@.len() implies (#[trigger] lower_type(args@[j])) is Some by {
                assert(Some(lowered@[j]) == lower_type(args@[j]));
            }
            assert(all_lower(args@));
            if ret.len() == 0 {
                return Ok(IrFnType { args: lowered, ret: None });
            }
            match build_basic_type(&ret[0], owner) {
                Ok(u) => Ok(IrFnType { args: lowered, ret: Some(u) }),
                Err(e) => Err(e),
            }
        },
        _ => Err(CompileError::MalformedType { name: owner.clone() }),
    }
}

/// An SSA value: a formal parameter of the function, or the result of an instruction,
/// both by position.
#[derive(Debug, Clone, Copy, PartialEq, Eq, Structural)]
pub enum Value {
    Param(usize),
    Inst(usize),
}

/// One instruction of a lowered function body.
#[derive(Debug)]
pub enum Instr {
    /// A constant byte string; its value is a pointer to the first byte.
    StringConst { text: String },
    /// A constant integer.
    IntConst { value: u64 },
    /// A call; its value is the callee's result when `has_result` holds.
    Call { callee: String, args: Vec<Value>, has_result: bool },
    /// Returns from the function, with a value or void.
    Return { result: Option<Value> },
}

/// The abstract form of an instruction.
pub enum InstrView {
    StringConst { text: Seq<char> },
    IntConst { value: u64 },
    Call { callee: Seq<char>, args: Seq<Value>, has_result: bool },
    Return { result: Option<Value> },
}

impl View for Instr {
    type V = InstrView;

    open spec fn view(&self) -> InstrView {
        match self {
            Instr::StringConst { text } => InstrView::StringConst { text: text@ },
            Instr::IntConst { value } => InstrView::IntConst { value: *value },
            Instr::Call { callee, args, has_result } => InstrView::Call {
                callee: callee@,
                args: args@,
                has_result: *has_result,
            },
            Instr::Return { result } => InstrView::Return { result: *result },
        }
    }
}

pub open spec fn code_view(code: Seq<Instr>) -> Seq<InstrView> {
    code.map_values(|i: Instr| i@)
}

/// The generator's abstract state: the logical value stack (top last) and the code so far.
pub struct GenState {
    pub stack: Seq<Value>,
    pub code: Seq<InstrView>,
}

/// The kind of a compilation error, without its names.
#[derive(Debug, Clone, Copy, PartialEq, Eq, Structural)]
pub enum ErrorKind {
    UnboundIdentifier,
    DuplicateDeclaration,
    DuplicateDefinition,
    UndeclaredDefinition,
    MalformedType,
    UnsupportedConstruct,
    InvalidNumber,
    StackUnderflow,
    ArityOutOfRange,
}

pub open spec fn error_kind(e: CompileError) -> ErrorKind {
    match e {
        CompileError::UnboundIdentifier { .. } => ErrorKind::UnboundIdentifier,
        CompileError::DuplicateDeclaration { .. } => ErrorKind::DuplicateDeclaration,
        CompileError::DuplicateDefinition { .. } => ErrorKind::DuplicateDefinition,
        CompileError::UndeclaredDefinition { .. } => ErrorKind::UndeclaredDefinition,
        CompileError::MalformedType { .. } => ErrorKind::MalformedType,
        CompileError::UnsupportedConstruct => ErrorKind::UnsupportedConstruct,
        CompileError::InvalidNumber { .. } => ErrorKind::InvalidNumber,
        CompileError::StackUnderflow => ErrorKind::StackUnderflow,
        CompileError::ArityOutOfRange => ErrorKind::ArityOutOfRange,
    }
}

/// The kind of `e`.
pub fn kind_of(e: &CompileError) -> (r: ErrorKind)
    ensures
        r == error_kind(*e),
{
    match e {
        CompileError::UnboundIdentifier { .. } => ErrorKind::UnboundIdentifier,
        CompileError::DuplicateDeclaration { .. } => ErrorKind::DuplicateDeclaration,
        CompileError::DuplicateDefinition { .. } => ErrorKind::DuplicateDefinition,
        CompileError::UndeclaredDefinition { .. } => ErrorKind::UndeclaredDefinition,
        CompileError::MalformedType { .. } => ErrorKind::MalformedType,
        CompileError::UnsupportedConstruct => ErrorKind::UnsupportedConstruct,
        CompileError::InvalidNumber { .. } => ErrorKind::InvalidNumber,
        CompileError::StackUnderflow => ErrorKind::StackUnderflow,
        CompileError::ArityOutOfRange => ErrorKind::ArityOutOfRange,
    }
}

/// `s` with `v` inserted `d` slots below the top.
pub open spec fn put_at(s: Seq<Value>, v: Value, d: int) -> Seq<Value> {
    s.insert(s.len() - d, v)
}

/// The result of lowering `e` at `depth` from state `st`, against the entries `fs`.
pub open spec fn gen(fs: Seq<(String, Function)>, e: Expression, depth: int, st: GenState) -> Result<GenState, ErrorKind>
    decreases e,
{
    let s = st.stack;
    let n = s.len() as int;
    let fresh = Value::Inst(st.code.len() as usize);
    match e {
        Expression::Concat { left, right } => match gen(fs, *left, depth, st) {
            Ok(st1) => gen(fs, *right, depth, st1),
            Err(k) => Err(k),
        },
        Expression::Sidecat { left, right } => if !arity_ok(*right) {
            Err(ErrorKind::ArityOutOfRange)
        } else if depth + in_ar(*right) > usize::MAX {
            Err(ErrorKind::StackUnderflow)
        } else {
            match gen(fs, *left, depth + in_ar(*right), st) {
                Ok(st1) => gen(fs, *right, depth, st1),
                Err(k) => Err(k),
            }
        },
        Expression::Block { .. } => Err(ErrorKind::UnsupportedConstruct),
        Expression::StringLiteral(t) => if depth > n {
            Err(ErrorKind::StackUnderflow)
        } else {
            Ok(GenState { stack: put_at(s, fresh, depth), code: st.code.push(InstrView::StringConst { text: t@ }) })
        },
        Expression::Number(t) => match decimal_of(t@) {
            None => Err(ErrorKind::InvalidNumber),
            Some(v) => if depth > n {
                Err(ErrorKind::StackUnderflow)
            } else {
                Ok(GenState { stack: put_at(s, fresh, depth), code: st.code.push(InstrView::IntConst { value: v }) })
            },
        },
        Expression::Identifier { id, in_ariety, .. } => match lookup(fs, id@) {
            None => Err(ErrorKind::UnboundIdentifier),
            Some(k) => if depth + in_ariety > n {
                Err(ErrorKind::StackUnderflow)
            } else {
                let top = n - depth;
                let lo = top - in_ariety;
                let rest = s.subrange(0, lo) + s.subrange(top, n);
                let has = fs[k].1.out_spec() > 0;
                Ok(GenState {
                    stack: if has { rest.insert(lo, fresh) } else { rest },
                    code: st.code.push(InstrView::Call { callee: id@, args: s.subrange(lo, top), has_result: has }),
                })
            },
        },
        Expression::Duplicate => if depth >= n {
            Err(ErrorKind::StackUnderflow)
        } else {
            Ok(GenState { stack: s.insert(n - depth, s[n - depth - 1]), code: st.code })
        },
        Expression::Discard => if depth >= n {
            Err(ErrorKind::StackUnderflow)
        } else {
            Ok(GenState { stack: s.remove(n - depth - 1), code: st.code })
        },
        Expression::Keep => Ok(st),
        Expression::Exchange => if depth + 2 > n {
            Err(ErrorKind::StackUnderflow)
        } else {
            Ok(GenState {
                stack: s.update(n - depth - 2, s[n - depth - 1]).update(n - depth - 1, s[n - depth - 2]),
                code: st.code,
            })
        },
    }
}

/// `r` is the outcome that `g` describes.
pub open spec fn matches_gen(g: Result<GenState, ErrorKind>, r: Result<(), CompileError>, after: GenState) -> bool {
    match g {
        Ok(st) => r is Ok && after == st,
        Err(k) => r matches Err(e) && error_kind(e) == k,
    }
}

/// The value stack and instruction list of one function body being lowered.
pub struct CodegenUnit {
    pub stack: Vec<Value>,
    pub code: Vec<Instr>,
}

impl CodegenUnit {
    pub open spec fn state(&self) -> GenState {
        GenState { stack: self.stack@, code: code_view(self.code@) }
    }

    /// A unit with an empty stack and no code.
    pub fn new() -> (r: CodegenUnit)
        ensures
            r.stack@.len() == 0,
            r.code@.len() == 0,
    {
        CodegenUnit { stack: Vec::new(), code: Vec::new() }
    }

    /// Inserts `value` `depth` slots below the top of the stack.
    pub fn put(&mut self, value: Value, depth: usize)
        requires
            depth <= old(self).stack@.len(),
        ensures
            final(self).stack@ == put_at(old(self).stack@, value, depth as int),
            final(self).code == old(self).code,
    {
        let index = self.stack.len() - depth;
        self.stack.insert(index, value);
    }

    /// Removes and returns the value just below the `depth` topmost slots.
    pub fn take(&mut self, depth: usize) -> (r: Value)
        requires
            depth < old(self).stack@.len(),
        ensures
            r == old(self).stack@[old(self).stack@.len() - depth - 1],
            final(self).stack@ == old(self).stack@.remove(old(self).stack@.len() - depth - 1),
            final(self).code == old(self).code,
    {
        let index = self.stack.len() - depth - 1;
        self.stack.remove(index)
    }

    /// Appends an instruction and returns its position.
    fn emit(&mut self, i: Instr) -> (r: usize)
        ensures
            r == old(self).code@.len(),
            final(self).code@ == old(self).code@.push(i),
            final(self).stack == old(self).stack,
            code_view(final(self).code@) == code_view(old(self).code@).push(i@),
    {
        let at = self.code.len();
        self.code.push(i);
        proof {
            assert(code_view(self.code@) =~= code_view(old(self).code@).push(i@));
        }
        at
    }

    /// Lowers `expr` so that its effect lands `depth` slots below the top of the stack.
    pub fn build_expression(&mut self, module: &Module, expr: &Expression, depth: usize) -> (r: Result<(), CompileError>)
        ensures
            matches_gen(gen(module.functions@, *expr, depth as int, old(self).state()), r, final(self).state()),
        decreases expr,
    {
        let ghost st = self.state();
        match expr {
            Expression::Concat { left, right } => {
                match self.build_expression(module, left, depth) {
                    Ok(()) => {},
                    Err(e) => return Err(e),
                }
                self.build_expression(module, right, depth)
            },
            Expression::Sidecat { left, right } => {
                let below = match right.checked_arity() {
                    Some((i, _)) => i,
                    None => return Err(CompileError::ArityOutOfRange),
                };
                if below > usize::MAX - depth {
                    return Err(CompileError::StackUnderflow);
                }
                match self.build_expression(module, left, depth + below) {
                    Ok(()) => {},
                    Err(e) => return Err(e),
                }
                self.build_expression(module, right, depth)
            },
            Expression::Block { .. } => Err(CompileError::UnsupportedConstruct),
            Expression::StringLiteral(t) => {
                if depth > self.stack.len() {
                    return Err(CompileError::StackUnderflow);
                }
                let at = self.emit(Instr::StringConst { text: t.clone() });
                self.put(Value::Inst(at), depth);
                Ok(())
            },
            Expression::Number(t) => {
                let v = match parse_decimal(t.as_str(), 0) {
                    Some(v) => v,
                    None => {
                        assert(t@.subrange(0, t@.len() as int) =~= t@);
                        return Err(CompileError::InvalidNumber { text: t.clone() });
                    },
                };
                assert(t@.subrange(0, t@.len() as int) =~= t@);
                if depth > self.stack.len() {
                    return Err(CompileError::StackUnderflow);
                }
                let at = self.emit(Instr::IntConst { value: v });
                self.put(Value::Inst(at), depth);
                Ok(())
            },
            Expression::Identifier { id, in_ariety, .. } => {
                let k = match module.find(id) {
                    Some(k) => k,
                    None => return Err(CompileError::UnboundIdentifier { name: id.clone(), module: module.id.clone() }),
                };
                let n = *in_ariety;
                if depth > self.stack.len() || n > self.stack.len() - depth {
                    return Err(CompileError::StackUnderflow);
                }
                let lo = self.stack.len() - depth - n;
                let ghost s0 = self.stack@;
                let mut args: Vec<Value> = Vec::new();
                let mut j: usize = 0;
                while j < n
                    invariant
                        j <= n,
                        lo + n + depth == s0.len(),
                        self.stack@ == s0.subrange(0, lo as int) + s0.subrange(lo + j, s0.len() as int),
                        args@ == s0.subrange(lo as int, lo + j),
                        self.code == old(self).code,
                    decreases n - j,
                {
                    let v = self.stack.remove(lo);
                    args.push(v);
                    proof {
                        assert(self.stack@ =~= s0.subrange(0, lo as int) + s0.subrange(lo + j + 1, s0.len() as int));
                        assert(args@ =~= s0.subrange(lo as int, lo + j + 1));
                    }
                    j += 1;
                }
                let has = module.functions[k].1.out_ariety() > 0;
                let at = self.emit(Instr::Call { callee: id.clone(), args, has_result: has });
                if has {
                    self.stack.insert(lo, Value::Inst(at));
                }
                Ok(())
            },
            Expression::Duplicate => {
                if depth >= self.stack.len() {
                    return Err(CompileError::StackUnderflow);
                }
                let v = self.take(depth);
                self.put(v, depth);
                self.put(v, depth);
                assert(self.stack@ =~= st.stack.insert(st.stack.len() - depth, st.stack[st.stack.len() - depth - 1]));
                Ok(())
            },
            Expression::Discard => {
                if depth >= self.stack.len() {
                    return Err(CompileError::StackUnderflow);
                }
                self.take(depth);
                Ok(())
            },
            Expression::Keep => Ok(()),
            Expression::Exchange => {
                if depth > self.stack.len() || 2 > self.stack.len() - depth {
                    return Err(CompileError::StackUnderflow);
                }
                let first = self.take(depth);
                let second = self.take(depth);
                self.put(first, depth);
                self.put(second, depth);
                let ghost n = st.stack.len();
                assert(self.stack@ =~= st.stack.update(n - depth - 2, st.stack[n - depth - 1]).update(
                    n - depth - 1,
                    st.stack[n - depth - 2],
                ));
                Ok(())
            },
        }
    }
}

/// The formal parameters `0..n`, in declaration order.
pub open spec fn params(n: nat) -> Seq<Value> {
    Seq::new(n, |i: int| Value::Param(i as usize))
}

/// The code of a lowered body followed by its return: void on an empty stack, else the top value.
pub open spec fn finish(st: GenState) -> Seq<InstrView> {
    st.code.push(
        InstrView::Return { result: if st.stack.len() == 0 { None } else { Some(st.stack.last()) } },
    )
}

/// The code of a function with `nparams` parameters and body `e`.
pub open spec fn lower_body(fs: Seq<(String, Function)>, e: Expression, nparams: nat) -> Result<Seq<InstrView>, ErrorKind> {
    match gen(fs, e, 0, GenState { stack: params(nparams), code: Seq::empty() }) {
        Ok(st) => Ok(finish(st)),
        Err(k) => Err(k),
    }
}

/// Lowers one function body: the parameters are pushed in declaration order, the body is
/// lowered at depth zero, and the topmost value (if any) is returned.
pub fn build_body(module: &Module, expr: &Expression, nparams: usize) -> (r: Result<Vec<Instr>, CompileError>)
    ensures
        match lower_body(module.functions@, *expr, nparams as nat) {
            Ok(c) => r matches Ok(v) && code_view(v@) == c,
            Err(k) => r matches Err(e) && error_kind(e) == k,
        },
{
    let mut cgu = CodegenUnit::new();
    let mut i: usize = 0;
    while i < nparams
        invariant
            i <= nparams,
            cgu.stack@ == params(i as nat),
            cgu.code@.len() == 0,
        decreases nparams - i,
    {
        cgu.put(Value::Param(i), 0);
        assert(cgu.stack@ =~= params((i + 1) as nat));
        i += 1;
    }
    assert(code_view(cgu.code@) =~= Seq::<InstrView>::empty());
    match cgu.build_expression(module, expr, 0) {
        Ok(()) => {},
        Err(e) => return Err(e),
    }
    let result = cgu.stack.pop();
    cgu.emit(Instr::Return { result });
    Ok(cgu.code)
}

/// A function of the lowered module: its name, signature and, if defined, its code.
#[derive(Debug)]
pub struct IrFunction {
    pub name: String,
    pub typ: IrFnType,
    pub body: Option<Vec<Instr>>,
}

/// A lowered module: one entry per function, in the order of the source module.
#[derive(Debug)]
pub struct IrModule {
    pub id: String,
    pub functions: Vec<IrFunction>,
}

/// Every declared type of `fs` lowers to a signature.
pub open spec fn types_lower(fs: Seq<(String, Function)>) -> bool {
    forall|k: int| 0 <= k < fs.len() ==> fn_type_lowers(#[trigger] fs[k].1.typ)
}

/// The code of the body of entry `k`, lowered against the resolved entries.
pub open spec fn lowered_entry(fs: Seq<(String, Function)>, k: int) -> Result<Seq<InstrView>, ErrorKind> {
    let r = resolve_entries(fs);
    match r[k].1.expr {
        Some(e) => lower_body(r, e, fs[k].1.in_spec()),
        None => Ok(Seq::empty()),
    }
}

/// Every defined body of `fs` lowers.
pub open spec fn bodies_lower(fs: Seq<(String, Function)>) -> bool {
    forall|k: int| 0 <= k < fs.len() ==> (#[trigger] lowered_entry(fs, k)) is Ok
}

/// The module compiles: identifiers resolve, types lower, bodies lower.
pub open spec fn compiles(fs: Seq<(String, Function)>) -> bool {
    bodies_bound(fs) && types_lower(fs) && bodies_lower(fs)
}

/// `f` is the lowering of entry `k` of `fs`.
pub open spec fn entry_matches(fs: Seq<(String, Function)>, k: int, f: IrFunction) -> bool {
    &&& f.name@ == fs[k].0@
    &&& lowers_to(fs[k].1.typ, f.typ)
    &&& match fs[k].1.expr {
        None => f.body is None,
        Some(_) => f.body matches Some(b) && lowered_entry(fs, k) == Ok::<Seq<InstrView>, ErrorKind>(code_view(b@)),
    }
}

/// Why a module of entries `fs` fails with an error of kind `kind`: resolution is checked
/// first, then every type, then the bodies.
pub open spec fn failure_explained(fs: Seq<(String, Function)>, kind: ErrorKind) -> bool {
    if !bodies_bound(fs) {
        kind == ErrorKind::UnboundIdentifier
    } else if !types_lower(fs) {
        kind == ErrorKind::MalformedType
    } else {
        exists|k: int| 0 <= k < fs.len() && #[trigger] lowered_entry(fs, k) == Err::<Seq<InstrView>, ErrorKind>(kind)
    }
}

/// Compiles a module: resolves all arities, lowers every declared type, then lowers every
/// defined body. Produces the whole module or the first error, nothing partial.
pub fn build_module(module: Module) -> (r: Result<IrModule, CompileError>)
    requires
        module.wf(),
    ensures
        r is Ok <==> compiles(module.functions@),
        r matches Ok(m) ==> m.id@ == module.id@ && m.functions@.len() == module.functions@.len()
            && forall|k: int| 0 <= k < module.functions@.len() ==> entry_matches(module.functions@, k, #[trigger] m.functions@[k]),
        r matches Err(e) ==> failure_explained(module.functions@, error_kind(e)),
{
    let ghost orig = module.functions@;
    let mut work = module;
    match work.calc_arieties() {
        Ok(()) => {},
        Err(e) => return Err(e),
    }
    let n = work.functions.len();
    let mut k: usize = 0;
    while k < n
        invariant
            n == work.functions@.len(),
            k <= n,
            orig == module.functions@,
            same_signatures(work.functions@, orig),
            bodies_bound(orig),
            forall|j: int| 0 <= j < k ==> fn_type_lowers(#[trigger] orig[j].1.typ),
        decreases n - k,
    {
        match build_function_type(&work.functions[k].1.typ, &work.functions[k].0) {
            Ok(_) => {},
            Err(e) => {
                assert(!types_lower(orig));
                return Err(e);
            },
        }
        k += 1;
    }
    let mut out: Vec<IrFunction> = Vec::new();
    k = 0;
    while k < n
        invariant
            n == work.functions@.len(),
            k <= n,
            orig == module.functions@,
            work.functions@ == resolve_entries(orig),
            work.wf(),
            types_lower(orig),
            bodies_bound(orig),
            out@.len() == k,
            forall|j: int| 0 <= j < k ==> entry_matches(orig, j, #[trigger] out@[j]),
            forall|j: int| 0 <= j < k ==> (#[trigger] lowered_entry(orig, j)) is Ok,
        decreases n - k,
    {
        let name = work.functions[k].0.clone();
        let typ = match build_function_type(&work.functions[k].1.typ, &work.functions[k].0) {
            Ok(t) => t,
            Err(e) => {
                assert(fn_type_lowers(orig[k as int].1.typ));
                return Err(e);
            },
        };
        let body = match &work.functions[k].1.expr {
            None => None,
            Some(e) => match build_body(&work, e, work.functions[k].1.in_ariety()) {
                Ok(b) => Some(b),
                Err(err) => {
                    assert(lowered_entry(orig, k as int) == Err::<Seq<InstrView>, ErrorKind>(error_kind(err)));
                    return Err(err);
                },
            },
        };
        out.push(IrFunction { name, typ, body });
        k += 1;
    }
    Ok(IrModule { id: work.id, functions: out })
}

/// `e` is a literal that lowering pushes as one new value: a string, or a number that fits.
pub open spec fn is_pushing_literal(e: Expression) -> bool {
    match e {
        Expression::StringLiteral(_) => true,
        Expression::Number(t) => decimal_of(t@) is Some,
        _ => false,
    }
}

/// Parallel composition of two literals consumes nothing and produces two values; at
/// depth zero it pushes the left literal's value and then, above it, the right one's.
pub proof fn lemma_sidecat_literals(fs: Seq<(String, Function)>, left: Expression, right: Expression, st: GenState)
    requires
        is_pushing_literal(left),
        is_pushing_literal(right),
        st.code.len() + 2 <= usize::MAX,
    ensures
        ({
            let e = Expression::Sidecat { left: Box::new(left), right: Box::new(right) };
            let c = st.code.len();
            &&& in_ar(e) == 0
            &&& out_ar(e) == 2
            &&& gen(fs, e, 0, st) matches Ok(after) && after.stack == st.stack.push(Value::Inst(c as usize)).push(
                Value::Inst((c + 1) as usize),
            ) && after.code.len() == c + 2
        }),
{
    let e = Expression::Sidecat { left: Box::new(left), right: Box::new(right) };
    let g1 = gen(fs, left, 0, st);
    assert(g1 is Ok);
    let st1 = g1->Ok_0;
    assert(st1.stack =~= st.stack.push(Value::Inst(st.code.len() as usize)));
    let g2 = gen(fs, right, 0, st1);
    assert(g2 is Ok);
    assert(g2->Ok_0.stack =~= st1.stack.push(Value::Inst((st.code.len() + 1) as usize)));
    assert(arity_ok(right) && in_ar(right) == 0);
    assert(gen(fs, e, 0, st) == g2);
    assert(left is StringLiteral || left is Number);
    assert(right is StringLiteral || right is Number);
    assert(in_ar(left) == 0 && out_ar(left) == 1);
    assert(in_ar(right) == 0 && out_ar(right) == 1);
    assert(g2->Ok_0.code.len() == st.code.len() + 2);
}

/// An identifier that names no entry fails to lower with `UnboundIdentifier`, at any depth
/// and from any state, so no instruction is emitted for it.
pub proof fn lemma_absent_identifier_fails(
    fs: Seq<(String, Function)>,
    id: String,
    in_ariety: usize,
    out_ariety: usize,
    depth: int,
    st: GenState,
)
    requires
        lookup(fs, id@) is None,
    ensures
        gen(fs, Expression::Identifier { id, in_ariety, out_ariety }, depth, st) == Err::<GenState, ErrorKind>(
            ErrorKind::UnboundIdentifier,
        ),
{
}

} // verus!
