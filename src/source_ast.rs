use vstd::prelude::*;
use vstd::string::*;

verus! {

/// A fatal condition that aborts the compilation of a module.
#[derive(Debug)]
pub enum CompileError {
    /// An identifier names no function of the module.
    UnboundIdentifier { name: String, module: String },
    /// A function was declared more than once.
    DuplicateDeclaration { name: String },
    /// A function was given a body more than once.
    DuplicateDefinition { name: String },
    /// A body was attached to a function that was never declared.
    UndeclaredDefinition { name: String },
    /// A declared type cannot be represented (bad width, or a type in an invalid position).
    MalformedType { name: String },
    /// A construct that the generator does not lower (`Block`).
    UnsupportedConstruct,
    /// A numeric literal that is not decimal text fitting in 64 bits.
    InvalidNumber { text: String },
    /// An operation reached below the bottom of the value stack.
    StackUnderflow,
    /// A composite arity that is negative or does not fit in `usize`.
    ArityOutOfRange,
}

/// Declared types of the source language.
#[derive(Debug)]
pub enum SimaType {
    Function { args: Vec<SimaType>, ret: Vec<SimaType> },
    Pointer { target: Box<SimaType> },
    Basic { id: String },
    Opaque,
}

/// A combinator expression.
#[derive(Debug)]
pub enum Expression {
    Concat { left: Box<Expression>, right: Box<Expression> },
    Sidecat { left: Box<Expression>, right: Box<Expression> },
    Block { inner: Box<Expression> },
    StringLiteral(String),
    Number(String),
    /// A reference to a function; the two arities are filled in by resolution.
    Identifier { id: String, in_ariety: usize, out_ariety: usize },
    Duplicate,
    Discard,
    Exchange,
    Keep,
}

/// A function entry of a module: its declared type and, once defined, its body.
#[derive(Debug)]
pub struct Function {
    pub typ: SimaType,
    pub expr: Option<Expression>,
}

pub open spec fn max_int(a: int, b: int) -> int {
    if a >= b { a } else { b }
}

/// Values an expression consumes, by the arity calculus.
pub open spec fn in_ar(e: Expression) -> int
    decreases e,
{
    match e {
        Expression::Concat { left, right } =>
            in_ar(*left) + in_ar(*right) - max_int(in_ar(*right), out_ar(*left)),
        Expression::Sidecat { left, right } => in_ar(*left) + in_ar(*right),
        Expression::Identifier { in_ariety, .. } => in_ariety as int,
        Expression::Block { .. } | Expression::StringLiteral(_) | Expression::Number(_) => 0,
        Expression::Duplicate | Expression::Discard | Expression::Keep => 1,
        Expression::Exchange => 2,
    }
}

/// Values an expression produces, by the arity calculus.
pub open spec fn out_ar(e: Expression) -> int
    decreases e,
{
    match e {
        Expression::Concat { left, right } =>
            out_ar(*left) + out_ar(*right) - max_int(out_ar(*left), in_ar(*right)),
        Expression::Sidecat { left, right } => out_ar(*left) + out_ar(*right),
        Expression::Identifier { out_ariety, .. } => out_ariety as int,
        Expression::Discard => 0,
        Expression::Block { .. } | Expression::StringLiteral(_) | Expression::Number(_)
        | Expression::Keep => 1,
        Expression::Duplicate | Expression::Exchange => 2,
    }
}

pub open spec fn fits_usize(x: int) -> bool {
    0 <= x <= usize::MAX
}

/// Every composite node of `e` has arities that are non-negative and fit in `usize`.
pub open spec fn arity_ok(e: Expression) -> bool
    decreases e,
{
    match e {
        Expression::Concat { left, right } | Expression::Sidecat { left, right } =>
            arity_ok(*left) && arity_ok(*right) && fits_usize(in_ar(e)) && fits_usize(out_ar(e)),
        _ => true,
    }
}

impl Function {
    pub open spec fn in_spec(&self) -> nat {
        match self.typ {
            SimaType::Function { args, .. } => args@.len(),
            _ => 1,
        }
    }

    pub open spec fn out_spec(&self) -> nat {
        match self.typ {
            SimaType::Function { ret, .. } => ret@.len(),
            _ => 1,
        }
    }

    /// Values a call consumes: the argument count of a function type, one otherwise.
    pub fn in_ariety(&self) -> (r: usize)
        ensures
            r == self.in_spec(),
    {
        match &self.typ {
            SimaType::Function { args, .. } => args.len(),
            _ => 1,
        }
    }

    /// Values a call produces: the return count of a function type, one otherwise.
    pub fn out_ariety(&self) -> (r: usize)
        ensures
            r == self.out_spec(),
    {
        match &self.typ {
            SimaType::Function { ret, .. } => ret.len(),
            _ => 1,
        }
    }
}

impl Expression {
    /// Values this expression consumes from the ambient stack.
    pub fn in_ariety(&self) -> (r: usize)
        requires
            arity_ok(*self),
        ensures
            r == in_ar(*self),
        decreases self,
    {
        match self {
            Expression::Concat { left, right } => {
                let l = left.in_ariety();
                let r = right.in_ariety();
                let lo = left.out_ariety();
                if r >= lo {
                    l
                } else {
                    l - (lo - r)
                }
            },
            Expression::Sidecat { left, right } => left.in_ariety() + right.in_ariety(),
            Expression::Identifier { in_ariety, .. } => *in_ariety,
            Expression::Block { .. } | Expression::StringLiteral(_) | Expression::Number(_) => 0,
            Expression::Duplicate | Expression::Discard | Expression::Keep => 1,
            Expression::Exchange => 2,
        }
    }

    /// Values this expression leaves on the ambient stack.
    pub fn out_ariety(&self) -> (r: usize)
        requires
            arity_ok(*self),
        ensures
            r == out_ar(*self),
        decreases self,
    {
        match self {
            Expression::Concat { left, right } => {
                let lo = left.out_ariety();
                let ro = right.out_ariety();
                let ri = right.in_ariety();
                if lo >= ri {
                    ro
                } else {
                    ro - (ri - lo)
                }
            },
            Expression::Sidecat { left, right } => left.out_ariety() + right.out_ariety(),
            Expression::Identifier { out_ariety, .. } => *out_ariety,
            Expression::Discard => 0,
            Expression::Block { .. } | Expression::StringLiteral(_) | Expression::Number(_)
            | Expression::Keep => 1,
            Expression::Duplicate | Expression::Exchange => 2,
        }
    }

    /// Both arities, or `None` where some node's arity is negative or exceeds `usize`.
    pub fn checked_arity(&self) -> (r: Option<(usize, usize)>)
        ensures
            r.is_some() == arity_ok(*self),
            r.is_some() ==> r.unwrap().0 == in_ar(*self) && r.unwrap().1 == out_ar(*self),
        decreases self,
    {
        match self {
            Expression::Concat { left, right } => {
                let (li, lo) = match left.checked_arity() {
                    Some(p) => p,
                    None => return None,
                };
                let (ri, ro) = match right.checked_arity() {
                    Some(p) => p,
                    None => return None,
                };
                let i = if ri >= lo {
                    li
                } else if lo - ri <= li {
                    li - (lo - ri)
                } else {
                    return None;
                };
                let o = if lo >= ri {
                    ro
                } else if ri - lo <= ro {
                    ro - (ri - lo)
                } else {
                    return None;
                };
                Some((i, o))
            },
            Expression::Sidecat { left, right } => {
                let (li, lo) = match left.checked_arity() {
                    Some(p) => p,
                    None => return None,
                };
                let (ri, ro) = match right.checked_arity() {
                    Some(p) => p,
                    None => return None,
                };
                if li > usize::MAX - ri || lo > usize::MAX - ro {
                    return None;
                }
                Some((li + ri, lo + ro))
            },
            _ => Some((self.in_ariety(), self.out_ariety())),
        }
    }
}


/// A compilation unit: an id and its function entries, keyed by name.
#[derive(Debug)]
pub struct Module {
    pub id: String,
    pub functions: Vec<(String, Function)>,
}

/// Position of the first entry named `name` at or after `i`.
pub open spec fn find_from(fs: Seq<(String, Function)>, name: Seq<char>, i: int) -> Option<int>
    decreases fs.len() - i,
{
    if i < 0 || i >= fs.len() {
        None
    } else if fs[i].0@ == name {
        Some(i)
    } else {
        find_from(fs, name, i + 1)
    }
}

pub open spec fn lookup(fs: Seq<(String, Function)>, name: Seq<char>) -> Option<int> {
    find_from(fs, name, 0)
}

/// No two entries share a name.
pub open spec fn names_unique(fs: Seq<(String, Function)>) -> bool {
    forall|i: int, j: int| 0 <= i < fs.len() && 0 <= j < fs.len() && i != j ==> fs[i].0@ != fs[j].0@
}

/// Two entry lists with the same names and declared types, position by position.
pub open spec fn same_signatures(a: Seq<(String, Function)>, b: Seq<(String, Function)>) -> bool {
    &&& a.len() == b.len()
    &&& forall|k: int| 0 <= k < a.len() ==> a[k].0@ == b[k].0@ && a[k].1.typ == b[k].1.typ
}

/// The expression with every identifier's arities taken from the function it names.
/// Block bodies are left as they are.
pub open spec fn resolved(e: Expression, fs: Seq<(String, Function)>) -> Expression
    decreases e,
{
    match e {
        Expression::Identifier { id, in_ariety, out_ariety } => match lookup(fs, id@) {
            Some(k) => Expression::Identifier {
                id,
                in_ariety: fs[k].1.in_spec() as usize,
                out_ariety: fs[k].1.out_spec() as usize,
            },
            None => e,
        },
        Expression::Concat { left, right } => Expression::Concat {
            left: Box::new(resolved(*left, fs)),
            right: Box::new(resolved(*right, fs)),
        },
        Expression::Sidecat { left, right } => Expression::Sidecat {
            left: Box::new(resolved(*left, fs)),
            right: Box::new(resolved(*right, fs)),
        },
        _ => e,
    }
}

/// Every identifier that resolution visits names an entry of `fs`.
pub open spec fn all_bound(e: Expression, fs: Seq<(String, Function)>) -> bool
    decreases e,
{
    match e {
        Expression::Identifier { id, .. } => lookup(fs, id@).is_some(),
        Expression::Concat { left, right } | Expression::Sidecat { left, right } =>
            all_bound(*left, fs) && all_bound(*right, fs),
        _ => true,
    }
}

/// The entry list with every body resolved against the list itself.
pub open spec fn resolve_entries(fs: Seq<(String, Function)>) -> Seq<(String, Function)> {
    Seq::new(
        fs.len(),
        |k: int|
            (
                fs[k].0,
                Function {
                    typ: fs[k].1.typ,
                    expr: match fs[k].1.expr {
                        Some(e) => Some(resolved(e, fs)),
                        None => None,
                    },
                },
            ),
    )
}

/// Every body of `fs` has only bound identifiers.
pub open spec fn bodies_bound(fs: Seq<(String, Function)>) -> bool {
    forall|k: int|
        0 <= k < fs.len() ==> match #[trigger] fs[k].1.expr {
            Some(e) => all_bound(e, fs),
            None => true,
        }
}

pub proof fn lemma_find_from_same_signatures(
    a: Seq<(String, Function)>,
    b: Seq<(String, Function)>,
    name: Seq<char>,
    i: int,
)
    requires
        same_signatures(a, b),
    ensures
        find_from(a, name, i) == find_from(b, name, i),
    decreases a.len() - i,
{
    if 0 <= i < a.len() {
        lemma_find_from_same_signatures(a, b, name, i + 1);
    }
}

pub proof fn lemma_lookup_same_signatures(a: Seq<(String, Function)>, b: Seq<(String, Function)>)
    requires
        same_signatures(a, b),
    ensures
        forall|name: Seq<char>| #[trigger] lookup(a, name) == lookup(b, name),
{
    assert forall|name: Seq<char>| #[trigger] lookup(a, name) == lookup(b, name) by {
        lemma_find_from_same_signatures(a, b, name, 0);
    }
}

pub proof fn lemma_resolved_same_signatures(
    e: Expression,
    a: Seq<(String, Function)>,
    b: Seq<(String, Function)>,
)
    requires
        same_signatures(a, b),
    ensures
        resolved(e, a) == resolved(e, b),
        all_bound(e, a) == all_bound(e, b),
    decreases e,
{
    match e {
        Expression::Identifier { id, .. } => {
            lemma_find_from_same_signatures(a, b, id@, 0);
            lemma_find_from_bounds(a, id@, 0);
        },
        Expression::Concat { left, right } | Expression::Sidecat { left, right } => {
            lemma_resolved_same_signatures(*left, a, b);
            lemma_resolved_same_signatures(*right, a, b);
        },
        _ => {},
    }
}

pub proof fn lemma_find_from_bounds(fs: Seq<(String, Function)>, name: Seq<char>, i: int)
    ensures
        match find_from(fs, name, i) {
            Some(k) => 0 <= i <= k < fs.len() && fs[k].0@ == name,
            None => forall|k: int| 0 <= i <= k < fs.len() ==> fs[k].0@ != name,
        },
    decreases fs.len() - i,
{
    if 0 <= i < fs.len() {
        lemma_find_from_bounds(fs, name, i + 1);
    }
}

/// Resolving an already resolved expression against the same entries changes nothing.
pub proof fn lemma_resolved_idempotent(e: Expression, fs: Seq<(String, Function)>)
    ensures
        resolved(resolved(e, fs), fs) == resolved(e, fs),
        all_bound(resolved(e, fs), fs) == all_bound(e, fs),
    decreases e,
{
    match e {
        Expression::Concat { left, right } | Expression::Sidecat { left, right } => {
            lemma_resolved_idempotent(*left, fs);
            lemma_resolved_idempotent(*right, fs);
        },
        _ => {},
    }
}

/// Resolving a module twice yields the same entries, and the same cached arities,
/// as resolving it once; and a module whose bodies resolve still resolves afterwards.
pub proof fn lemma_resolve_entries_idempotent(fs: Seq<(String, Function)>)
    ensures
        resolve_entries(resolve_entries(fs)) == resolve_entries(fs),
        bodies_bound(resolve_entries(fs)) == bodies_bound(fs),
{
    let r = resolve_entries(fs);
    assert(same_signatures(r, fs));
    assert forall|k: int| 0 <= k < fs.len() implies match #[trigger] fs[k].1.expr {
        Some(e) => resolved(resolved(e, fs), r) == resolved(e, fs)
            && all_bound(resolved(e, fs), r) == all_bound(e, fs),
        None => true,
    } by {
        if let Some(e) = fs[k].1.expr {
            lemma_resolved_same_signatures(resolved(e, fs), r, fs);
            lemma_resolved_idempotent(e, fs);
        }
    }
    assert(resolve_entries(r) =~= r);
    if bodies_bound(fs) {
        assert forall|k: int| 0 <= k < r.len() implies match #[trigger] r[k].1.expr {
            Some(e) => all_bound(e, r),
            None => true,
        } by {
            assert(fs[k].1.expr is Some ==> all_bound(fs[k].1.expr.unwrap(), fs));
        }
    }
    if bodies_bound(r) {
        assert forall|k: int| 0 <= k < fs.len() implies match #[trigger] fs[k].1.expr {
            Some(e) => all_bound(e, fs),
            None => true,
        } by {
            assert(r[k].1.expr is Some ==> all_bound(r[k].1.expr.unwrap(), r));
        }
    }
}

/// `err` reports an identifier that names no entry of `fs`, in the module named `module_id`.
pub open spec fn is_unbound_error(err: CompileError, fs: Seq<(String, Function)>, module_id: Seq<char>) -> bool {
    match err {
        CompileError::UnboundIdentifier { name, module } => module@ == module_id && lookup(fs, name@) is None,
        _ => false,
    }
}

impl Expression {
    /// A node-for-node copy of the tree.
    fn copy_tree(&self) -> (r: Expression)
        ensures
            r == *self,
        decreases self,
    {
        match self {
            Expression::Concat { left, right } => Expression::Concat {
                left: Box::new(left.copy_tree()),
                right: Box::new(right.copy_tree()),
            },
            Expression::Sidecat { left, right } => Expression::Sidecat {
                left: Box::new(left.copy_tree()),
                right: Box::new(right.copy_tree()),
            },
            Expression::Block { inner } => Expression::Block { inner: Box::new(inner.copy_tree()) },
            Expression::StringLiteral(s) => Expression::StringLiteral(s.clone()),
            Expression::Number(s) => Expression::Number(s.clone()),
            Expression::Identifier { id, in_ariety, out_ariety } => Expression::Identifier {
                id: id.clone(),
                in_ariety: *in_ariety,
                out_ariety: *out_ariety,
            },
            Expression::Duplicate => Expression::Duplicate,
            Expression::Discard => Expression::Discard,
            Expression::Exchange => Expression::Exchange,
            Expression::Keep => Expression::Keep,
        }
    }

    /// This expression with every identifier's arities looked up in `module`.
    /// Fails with `UnboundIdentifier` exactly when an identifier names no function.
    pub fn calc_ariety(&self, module: &Module) -> (r: Result<Expression, CompileError>)
        ensures
            r is Ok <==> all_bound(*self, module.functions@),
            r matches Ok(e) ==> e == resolved(*self, module.functions@),
            r matches Err(err) ==> is_unbound_error(err, module.functions@, module.id@),
        decreases self,
    {
        match self {
            Expression::Identifier { id, .. } => match module.find(id) {
                Some(k) => {
                    let f = &module.functions[k].1;
                    Ok(Expression::Identifier {
                        id: id.clone(),
                        in_ariety: f.in_ariety(),
                        out_ariety: f.out_ariety(),
                    })
                },
                None => Err(CompileError::UnboundIdentifier { name: id.clone(), module: module.id.clone() }),
            },
            Expression::Concat { left, right } => {
                let l = match left.calc_ariety(module) {
                    Ok(l) => l,
                    Err(err) => return Err(err),
                };
                let r = match right.calc_ariety(module) {
                    Ok(r) => r,
                    Err(err) => return Err(err),
                };
                Ok(Expression::Concat { left: Box::new(l), right: Box::new(r) })
            },
            Expression::Sidecat { left, right } => {
                let l = match left.calc_ariety(module) {
                    Ok(l) => l,
                    Err(err) => return Err(err),
                };
                let r = match right.calc_ariety(module) {
                    Ok(r) => r,
                    Err(err) => return Err(err),
                };
                Ok(Expression::Sidecat { left: Box::new(l), right: Box::new(r) })
            },
            _ => Ok(self.copy_tree()),
        }
    }
}

impl Module {
    /// Entry names are unique.
    pub open spec fn wf(&self) -> bool {
        names_unique(self.functions@)
    }

    /// An empty module named `id`.
    pub fn new(id: &str) -> (r: Module)
        ensures
            r.id@ == id@,
            r.functions@.len() == 0,
            r.wf(),
    {
        Module { id: String::from_str(id), functions: Vec::new() }
    }

    /// Position of the entry named `name`.
    pub fn find(&self, name: &String) -> (r: Option<usize>)
        ensures
            match r {
                Some(i) => lookup(self.functions@, name@) == Some(i as int) && i < self.functions@.len()
                    && self.functions@[i as int].0@ == name@,
                None => lookup(self.functions@, name@) is None,
            },
    {
        let mut i: usize = 0;
        while i < self.functions.len()
            invariant
                i <= self.functions@.len(),
                lookup(self.functions@, name@) == find_from(self.functions@, name@, i as int),
            decreases self.functions@.len() - i,
        {
            if self.functions[i].0 == *name {
                return Some(i);
            }
            i += 1;
        }
        None
    }

    /// Declares a function. Fails with `DuplicateDeclaration`, leaving the module as it
    /// was, exactly when `id` is already declared.
    pub fn add_declaration(&mut self, id: &str, typ: SimaType) -> (r: Result<(), CompileError>)
        requires
            old(self).wf(),
        ensures
            final(self).wf(),
            final(self).id == old(self).id,
            r is Err <==> lookup(old(self).functions@, id@) is Some,
            r matches Err(err) ==> *final(self) == *old(self) && (err matches CompileError::DuplicateDeclaration { name } && name@ == id@),
            r is Ok ==> final(self).functions@.len() == old(self).functions@.len() + 1
                && final(self).functions@.drop_last() == old(self).functions@
                && final(self).functions@.last().0@ == id@
                && final(self).functions@.last().1 == (Function { typ, expr: None }),
    {
        let name = String::from_str(id);
        match self.find(&name) {
            Some(_) => Err(CompileError::DuplicateDeclaration { name }),
            None => {
                proof {
                    lemma_find_from_bounds(self.functions@, id@, 0);
                }
                let ghost before = self.functions@;
                self.functions.push((name, Function { typ, expr: None }));
                assert(self.functions@.drop_last() =~= before);
                Ok(())
            },
        }
    }

    /// Attaches a body to a declared function. Fails with `UndeclaredDefinition` when
    /// `id` is not declared and with `DuplicateDefinition` when it already has a body;
    /// the module is then left as it was.
    pub fn add_definition(&mut self, id: &str, expr: Expression) -> (r: Result<(), CompileError>)
        requires
            old(self).wf(),
        ensures
            final(self).wf(),
            final(self).id == old(self).id,
            match lookup(old(self).functions@, id@) {
                None => *final(self) == *old(self)
                    && (r matches Err(CompileError::UndeclaredDefinition { name }) && name@ == id@),
                Some(k) => if old(self).functions@[k].1.expr is Some {
                    *final(self) == *old(self)
                        && (r matches Err(CompileError::DuplicateDefinition { name }) && name@ == id@)
                } else {
                    r is Ok && final(self).functions@ == old(self).functions@.update(
                        k,
                        (old(self).functions@[k].0, Function { typ: old(self).functions@[k].1.typ, expr: Some(expr) }),
                    )
                },
            },
    {
        let name = String::from_str(id);
        match self.find(&name) {
            None => Err(CompileError::UndeclaredDefinition { name }),
            Some(k) => {
                if self.functions[k].1.expr.is_some() {
                    return Err(CompileError::DuplicateDefinition { name });
                }
                let ghost before = self.functions@;
                let (key, f) = self.functions.remove(k);
                self.functions.insert(k, (key, Function { typ: f.typ, expr: Some(expr) }));
                assert(self.functions@ =~= before.update(
                    k as int,
                    (before[k as int].0, Function { typ: before[k as int].1.typ, expr: Some(expr) }),
                ));
                Ok(())
            },
        }
    }

    /// Resolves the arities of every identifier in every body, in place.
    /// Fails with `UnboundIdentifier` exactly when some body names an absent function.
    pub fn calc_arieties(&mut self) -> (r: Result<(), CompileError>)
        requires
            old(self).wf(),
        ensures
            final(self).wf(),
            final(self).id == old(self).id,
            same_signatures(final(self).functions@, old(self).functions@),
            r is Ok <==> bodies_bound(old(self).functions@),
            r is Ok ==> final(self).functions@ == resolve_entries(old(self).functions@),
            r matches Err(err) ==> is_unbound_error(err, old(self).functions@, old(self).id@),
    {
        let ghost orig = self.functions@;
        let n = self.functions.len();
        let mut i: usize = 0;
        while i < n
            invariant
                n == orig.len(),
                i <= n,
                self.id == old(self).id,
                orig == old(self).functions@,
                names_unique(orig),
                same_signatures(self.functions@, orig),
                forall|k: int| 0 <= k < i ==> self.functions@[k] == #[trigger] resolve_entries(orig)[k],
                forall|k: int| i <= k < n ==> self.functions@[k] == orig[k],
                forall|k: int|
                    0 <= k < i ==> match #[trigger] orig[k].1.expr {
                        Some(e) => all_bound(e, orig),
                        None => true,
                    },
            decreases n - i,
        {
            let body = match &self.functions[i].1.expr {
                Some(e) => {
                    proof {
                        lemma_resolved_same_signatures(*e, self.functions@, orig);
                        lemma_find_from_same_signatures(self.functions@, orig, self.id@, 0);
                    }
                    match e.calc_ariety(self) {
                        Ok(re) => Some(re),
                        Err(err) => {
                            proof {
                                lemma_lookup_same_signatures(self.functions@, orig);
                            }
                            return Err(err);
                        },
                    }
                },
                None => None,
            };
            if let Some(re) = body {
                let ghost before = self.functions@;
                let (key, f) = self.functions.remove(i);
                self.functions.insert(i, (key, Function { typ: f.typ, expr: Some(re) }));
                assert(self.functions@ =~= before.update(i as int, resolve_entries(orig)[i as int]));
            }
            i += 1;
        }
        assert(self.functions@ =~= resolve_entries(orig));
        Ok(())
    }
}

/// Literal leaves (and the reserved block) consume nothing and produce one value;
/// `Discard` is (1, 0), `Duplicate` (1, 2), `Exchange` (2, 2) and `Keep` (1, 1).
pub proof fn lemma_leaf_arities(e: Expression)
    ensures
        (e is StringLiteral || e is Number || e is Block) ==> in_ar(e) == 0 && out_ar(e) == 1,
        e is Discard ==> in_ar(e) == 1 && out_ar(e) == 0,
        e is Duplicate ==> in_ar(e) == 1 && out_ar(e) == 2,
        e is Exchange ==> in_ar(e) == 2 && out_ar(e) == 2,
        e is Keep ==> in_ar(e) == 1 && out_ar(e) == 1,
{
}

/// Sequential composition subtracts the values passed between the operands once per side;
/// parallel composition adds. With nothing passed (`left.out = 0 = right.in`) sequential
/// composition adds too; with everything passed (`left.out = right.in`) it consumes what
/// the left consumes and produces what the right produces.
pub proof fn lemma_composition_arities(left: Expression, right: Expression)
    ensures
        ({
            let c = Expression::Concat { left: Box::new(left), right: Box::new(right) };
            &&& in_ar(c) == in_ar(left) + in_ar(right) - max_int(in_ar(right), out_ar(left))
            &&& out_ar(c) == out_ar(left) + out_ar(right) - max_int(out_ar(left), in_ar(right))
            &&& (out_ar(left) == 0 && in_ar(right) == 0) ==> in_ar(c) == in_ar(left) + in_ar(right)
                && out_ar(c) == out_ar(left) + out_ar(right)
            &&& out_ar(left) == in_ar(right) ==> in_ar(c) == in_ar(left) && out_ar(c) == out_ar(right)
        }),
        ({
            let p = Expression::Sidecat { left: Box::new(left), right: Box::new(right) };
            &&& in_ar(p) == in_ar(left) + in_ar(right)
            &&& out_ar(p) == out_ar(left) + out_ar(right)
        }),
{
}

} // verus!
