//! The syntax tree: types, expressions, statements and programs, each with
//! a mathematical view that the contracts speak of.
use vstd::prelude::*;
use crate::text::{copy_string, same_text, str_is};

verus! {

broadcast use vstd::std_specs::vec::group_vec_axioms, vstd::seq::group_seq_axioms;

/// A source-level type.
#[derive(Debug)]
pub enum Type {
    Named(String),
    Ptr(Box<Type>),
    Arr(Box<Type>),
    Const(Box<Type>),
}

/// The view of a [`Type`].
pub enum TypeV {
    Named(Seq<char>),
    Ptr(Box<TypeV>),
    Arr(Box<TypeV>),
    Const(Box<TypeV>),
}

impl View for Type {
    type V = TypeV;

    open spec fn view(&self) -> TypeV
        decreases self,
    {
        match self {
            Type::Named(n) => TypeV::Named(n@),
            Type::Ptr(t) => TypeV::Ptr(Box::new((**t).view())),
            Type::Arr(t) => TypeV::Arr(Box::new((**t).view())),
            Type::Const(t) => TypeV::Const(Box::new((**t).view())),
        }
    }
}

/// The views of a sequence of types.
pub open spec fn types_view(ts: Seq<Type>) -> Seq<TypeV> {
    ts.map_values(|t: Type| t@)
}

/// Names of the integer primitives, signed and unsigned, and the bare `int`
/// that integer literals are given.
pub open spec fn is_int_name(n: Seq<char>) -> bool {
    n == "int"@ || n == "int8"@ || n == "int16"@ || n == "int32"@ || n == "int64"@
        || n == "uint8"@ || n == "uint16"@ || n == "uint32"@ || n == "uint64"@
}

/// The family of a named type: `int` for every integer, a float's own width,
/// and any other name unchanged.
pub open spec fn family_name(n: Seq<char>) -> Seq<char> {
    if is_int_name(n) {
        "int"@
    } else if n == "float32"@ {
        "f32"@
    } else if n == "float64"@ {
        "f64"@
    } else {
        n
    }
}

/// The family of a type: what overload resolution compares.
pub open spec fn family_of(t: TypeV) -> TypeV
    decreases t,
{
    match t {
        TypeV::Named(n) => TypeV::Named(family_name(n)),
        TypeV::Ptr(i) => TypeV::Ptr(Box::new(family_of(*i))),
        TypeV::Arr(i) => TypeV::Arr(Box::new(family_of(*i))),
        TypeV::Const(i) => TypeV::Const(Box::new(family_of(*i))),
    }
}

/// Element-wise families of a sequence of types.
pub open spec fn families(ts: Seq<TypeV>) -> Seq<TypeV> {
    ts.map_values(|t: TypeV| family_of(t))
}

impl Type {
    /// A copy with the same view.
    pub fn copy(&self) -> (r: Type)
        ensures
            r@ == self@,
        decreases self,
    {
        match self {
            Type::Named(n) => Type::Named(copy_string(n)),
            Type::Ptr(t) => Type::Ptr(Box::new((**t).copy())),
            Type::Arr(t) => Type::Arr(Box::new((**t).copy())),
            Type::Const(t) => Type::Const(Box::new((**t).copy())),
        }
    }

    /// Structural equality.
    pub fn same(&self, o: &Type) -> (r: bool)
        ensures
            r == (self@ == o@),
        decreases self,
    {
        match (self, o) {
            (Type::Named(a), Type::Named(b)) => same_text(a, b),
            (Type::Ptr(a), Type::Ptr(b)) => (**a).same(&**b),
            (Type::Arr(a), Type::Arr(b)) => (**a).same(&**b),
            (Type::Const(a), Type::Const(b)) => (**a).same(&**b),
            _ => false,
        }
    }

    /// The type's family (see [`family_of`]).
    pub fn family(&self) -> (r: Type)
        ensures
            r@ == family_of(self@),
        decreases self,
    {
        match self {
            Type::Named(n) => {
                let s = n.as_str();
                if str_is(s, "int") || str_is(s, "int8") || str_is(s, "int16") || str_is(s, "int32")
                    || str_is(s, "int64") || str_is(s, "uint8") || str_is(s, "uint16")
                    || str_is(s, "uint32") || str_is(s, "uint64") {
                    Type::Named(String::from_str("int"))
                } else if str_is(s, "float32") {
                    Type::Named(String::from_str("f32"))
                } else if str_is(s, "float64") {
                    Type::Named(String::from_str("f64"))
                } else {
                    Type::Named(copy_string(n))
                }
            },
            Type::Ptr(t) => Type::Ptr(Box::new((**t).family())),
            Type::Arr(t) => Type::Arr(Box::new((**t).family())),
            Type::Const(t) => Type::Const(Box::new((**t).family())),
        }
    }
}

impl PartialEq for Type {
    fn eq(&self, o: &Type) -> (r: bool) {
        self.same(o)
    }
}

impl vstd::std_specs::cmp::PartialEqSpecImpl for Type {
    open spec fn obeys_eq_spec() -> bool {
        true
    }

    open spec fn eq_spec(&self, o: &Type) -> bool {
        self@ == o@
    }
}

/// Copies of a sequence of types.
pub fn copy_types(ts: &Vec<Type>) -> (r: Vec<Type>)
    ensures
        types_view(r@) == types_view(ts@),
{
    let mut r: Vec<Type> = Vec::new();
    let mut i: usize = 0;
    while i < ts.len()
        invariant
            i <= ts.len(),
            r.len() == i,
            forall|k: int| 0 <= k < i ==> (#[trigger] r@[k])@ == ts@[k]@,
        decreases ts.len() - i,
    {
        r.push(ts[i].copy());
        i = i + 1;
    }
    assert(types_view(r@) =~= types_view(ts@));
    r
}

/// Whether two sequences of types agree element-wise by family.
pub fn same_families(a: &Vec<Type>, b: &Vec<Type>) -> (r: bool)
    ensures
        r == (families(types_view(a@)) == families(types_view(b@))),
{
    if a.len() != b.len() {
        proof {
            assert(families(types_view(a@)).len() != families(types_view(b@)).len());
        }
        return false;
    }
    let mut i: usize = 0;
    while i < a.len()
        invariant
            a.len() == b.len(),
            i <= a.len(),
            forall|k: int| 0 <= k < i ==> family_of(#[trigger] a@[k]@) == family_of(b@[k]@),
        decreases a.len() - i,
    {
        let fa = a[i].family();
        let fb = b[i].family();
        if !fa.same(&fb) {
            proof {
                assert(families(types_view(a@))[i as int] != families(types_view(b@))[i as int]);
            }
            return false;
        }
        i = i + 1;
    }
    assert(families(types_view(a@)) =~= families(types_view(b@)));
    true
}

/// Whether two sequences of types are equal element-wise.
pub fn same_types(a: &Vec<Type>, b: &Vec<Type>) -> (r: bool)
    ensures
        r == (types_view(a@) == types_view(b@)),
{
    if a.len() != b.len() {
        proof {
            assert(types_view(a@).len() != types_view(b@).len());
        }
        return false;
    }
    let mut i: usize = 0;
    while i < a.len()
        invariant
            a.len() == b.len(),
            i <= a.len(),
            forall|k: int| 0 <= k < i ==> (#[trigger] a@[k])@ == b@[k]@,
        decreases a.len() - i,
    {
        if !a[i].same(&b[i]) {
            proof {
                assert(types_view(a@)[i as int] != types_view(b@)[i as int]);
            }
            return false;
        }
        i = i + 1;
    }
    assert(types_view(a@) =~= types_view(b@));
    true
}

/// Visibility of a function across imports.
#[derive(Debug, Clone, Copy, PartialEq, Eq, Structural)]
pub enum Linkage {
    Public,
    Private,
    External,
}

/// An arithmetic operator.
#[derive(Debug, Clone, Copy, PartialEq, Eq, Structural)]
pub enum Operation {
    Add,
    Sub,
    Mult,
    Div,
    Mod,
}

/// A comparison operator.
#[derive(Debug, Clone, Copy, PartialEq, Eq, Structural)]
pub enum Comparison {
    EQ,
    NEQ,
    LT,
    LTE,
    GT,
    GTE,
}

/// An expression.
#[derive(Debug)]
#[allow(inconsistent_fields)]
pub enum Expr {
    Number(i64),
    Ident(String),
    Str(String),
    BiOp { lhs: Box<Expr>, op: Operation, rhs: Box<Expr> },
    Comp { lhs: Box<Expr>, comp: Comparison, rhs: Box<Expr> },
    Call { name: String, args: Vec<Expr> },
}

/// The view of an [`Expr`].
pub enum ExprV {
    Number(i64),
    Ident(Seq<char>),
    Str(Seq<char>),
    BiOp(Box<ExprV>, Operation, Box<ExprV>),
    Comp(Box<ExprV>, Comparison, Box<ExprV>),
    Call(Seq<char>, Seq<ExprV>),
}

pub open spec fn expr_view(e: Expr) -> ExprV
    decreases e,
{
    match e {
        Expr::Number(n) => ExprV::Number(n),
        Expr::Ident(s) => ExprV::Ident(s@),
        Expr::Str(s) => ExprV::Str(s@),
        Expr::BiOp { lhs, op, rhs } => ExprV::BiOp(
            Box::new(expr_view(*lhs)),
            op,
            Box::new(expr_view(*rhs)),
        ),
        Expr::Comp { lhs, comp, rhs } => ExprV::Comp(
            Box::new(expr_view(*lhs)),
            comp,
            Box::new(expr_view(*rhs)),
        ),
        Expr::Call { name, args } => ExprV::Call(name@, exprs_view(args@)),
    }
}

pub open spec fn exprs_view(s: Seq<Expr>) -> Seq<ExprV>
    decreases s,
{
    if s.len() == 0 {
        Seq::empty()
    } else {
        exprs_view(s.drop_last()).push(expr_view(s.last()))
    }
}

impl View for Expr {
    type V = ExprV;

    open spec fn view(&self) -> ExprV {
        expr_view(*self)
    }
}


impl Expr {
    /// A copy with the same view.
    pub fn copy(&self) -> (r: Expr)
        ensures
            r@ == self@,
        decreases self,
    {
        match self {
            Expr::Number(n) => Expr::Number(*n),
            Expr::Ident(s) => Expr::Ident(copy_string(s)),
            Expr::Str(s) => Expr::Str(copy_string(s)),
            Expr::BiOp { lhs, op, rhs } => Expr::BiOp {
                lhs: Box::new((**lhs).copy()),
                op: *op,
                rhs: Box::new((**rhs).copy()),
            },
            Expr::Comp { lhs, comp, rhs } => Expr::Comp {
                lhs: Box::new((**lhs).copy()),
                comp: *comp,
                rhs: Box::new((**rhs).copy()),
            },
            Expr::Call { name, args } => {
                let mut r: Vec<Expr> = Vec::new();
                let mut i: usize = 0;
                while i < args.len()
                    invariant
                        *self == (Expr::Call { name: *name, args: *args }),
                        i <= args.len(),
                        r.len() == i,
                        forall|k: int| 0 <= k < i ==> (#[trigger] r@[k])@ == args@[k]@,
                    decreases args.len() - i,
                {
                    proof {
                        assert(decreases_to!(*self => self->Call_args));
                        assert(decreases_to!(*args => args@));
                        assert(decreases_to!(args@ => args@[i as int]));
                    }
                    r.push(args[i].copy());
                    i = i + 1;
                }
                proof {
                    lemma_exprs_view_ext(r@, args@);
                }
                Expr::Call { name: copy_string(name), args: r }
            },
        }
    }
}

pub proof fn lemma_exprs_view_len(s: Seq<Expr>)
    ensures
        exprs_view(s).len() == s.len(),
    decreases s.len(),
{
    if s.len() > 0 {
        lemma_exprs_view_len(s.drop_last());
    }
}

pub proof fn lemma_exprs_view_index(s: Seq<Expr>, k: int)
    requires
        0 <= k < s.len(),
    ensures
        exprs_view(s)[k] == s[k]@,
    decreases s.len(),
{
    lemma_exprs_view_len(s.drop_last());
    if k < s.len() - 1 {
        lemma_exprs_view_index(s.drop_last(), k);
    }
}

/// Two sequences of expressions with equal views element-wise have equal views.
pub proof fn lemma_exprs_view_ext(a: Seq<Expr>, b: Seq<Expr>)
    requires
        a.len() == b.len(),
        forall|k: int| 0 <= k < a.len() ==> (#[trigger] a[k])@ == b[k]@,
    ensures
        exprs_view(a) == exprs_view(b),
{
    lemma_exprs_view_len(a);
    lemma_exprs_view_len(b);
    assert forall|k: int| 0 <= k < a.len() implies exprs_view(a)[k] == exprs_view(b)[k] by {
        lemma_exprs_view_index(a, k);
        lemma_exprs_view_index(b, k);
    }
    assert(exprs_view(a) =~= exprs_view(b));
}

/// The source line of a statement and its text rebuilt from the tokens, for
/// `-g` output and diagnostics.
#[derive(Debug)]
pub struct DebugSym {
    pub val: String,
    pub lineno: usize,
}

impl DebugSym {
    pub fn new(val: String, lineno: usize) -> (r: DebugSym)
        ensures
            r.val@ == val@,
            r.lineno == lineno,
    {
        DebugSym { val, lineno }
    }

    pub fn copy(&self) -> (r: DebugSym)
        ensures
            r.val@ == self.val@,
            r.lineno == self.lineno,
    {
        DebugSym { val: copy_string(&self.val), lineno: self.lineno }
    }
}

/// A statement.
#[derive(Debug)]
#[allow(inconsistent_fields)]
pub enum Node {
    VarDefine { typ: Type, ident: String, expr: Option<Expr> },
    VarAssign { ident: String, expr: Expr },
    Function {
        ret_type: Type,
        name: String,
        args: Vec<(Type, String)>,
        body: Program,
        linkage: Linkage,
    },
    Extern { name: String, args: Vec<(Type, String)>, ret_type: Type },
    FuncCall { name: String, args: Vec<Expr> },
    If { cond: Expr, body: Program },
    While { cond: Expr, body: Program },
    Return(Option<Expr>),
    Import(Vec<String>),
    InlineURCL(String),
}

/// An ordered sequence of statements, each with its debug symbol.
#[derive(Debug)]
pub struct Program {
    pub statements: Vec<(DebugSym, Node)>,
}

impl Program {
    pub fn new() -> (r: Program)
        ensures
            r.statements@.len() == 0,
    {
        Program { statements: Vec::new() }
    }
}

/// The view of a parameter list.
pub open spec fn params_view(ps: Seq<(Type, String)>) -> Seq<(TypeV, Seq<char>)> {
    ps.map_values(|p: (Type, String)| (p.0@, p.1@))
}

/// The view of an optional expression.
pub open spec fn opt_expr_view(e: Option<Expr>) -> Option<ExprV> {
    match e {
        Some(x) => Some(x@),
        None => None,
    }
}

/// The view of a statement.
pub enum NodeV {
    VarDefine(TypeV, Seq<char>, Option<ExprV>),
    VarAssign(Seq<char>, ExprV),
    Function(TypeV, Seq<char>, Seq<(TypeV, Seq<char>)>, Seq<StmtV>, Linkage),
    Extern(Seq<char>, Seq<(TypeV, Seq<char>)>, TypeV),
    FuncCall(Seq<char>, Seq<ExprV>),
    If(ExprV, Seq<StmtV>),
    While(ExprV, Seq<StmtV>),
    Return(Option<ExprV>),
    Import(Seq<Seq<char>>),
    InlineURCL(Seq<char>),
}

/// A statement's view together with its source line and debug text.
pub struct StmtV {
    pub line: nat,
    pub text: Seq<char>,
    pub node: NodeV,
}

pub open spec fn node_view(n: Node) -> NodeV
    decreases n,
{
    match n {
        Node::VarDefine { typ, ident, expr } => NodeV::VarDefine(typ@, ident@, opt_expr_view(expr)),
        Node::VarAssign { ident, expr } => NodeV::VarAssign(ident@, expr@),
        Node::Function { ret_type, name, args, body, linkage } => NodeV::Function(
            ret_type@,
            name@,
            params_view(args@),
            stmts_view(body.statements@),
            linkage,
        ),
        Node::Extern { name, args, ret_type } => NodeV::Extern(name@, params_view(args@), ret_type@),
        Node::FuncCall { name, args } => NodeV::FuncCall(name@, exprs_view(args@)),
        Node::If { cond, body } => NodeV::If(cond@, stmts_view(body.statements@)),
        Node::While { cond, body } => NodeV::While(cond@, stmts_view(body.statements@)),
        Node::Return(e) => NodeV::Return(opt_expr_view(e)),
        Node::Import(p) => NodeV::Import(p@.map_values(|x: String| x@)),
        Node::InlineURCL(t) => NodeV::InlineURCL(t@),
    }
}

pub open spec fn stmts_view(s: Seq<(DebugSym, Node)>) -> Seq<StmtV>
    decreases s,
{
    if s.len() == 0 {
        Seq::empty()
    } else {
        stmts_view(s.drop_last()).push(
            StmtV { line: s.last().0.lineno as nat, text: s.last().0.val@, node: node_view(s.last().1) },
        )
    }
}

impl View for Node {
    type V = NodeV;

    open spec fn view(&self) -> NodeV {
        node_view(*self)
    }
}

impl View for Program {
    type V = Seq<StmtV>;

    open spec fn view(&self) -> Seq<StmtV> {
        stmts_view(self.statements@)
    }
}

pub proof fn lemma_stmts_view_len(s: Seq<(DebugSym, Node)>)
    ensures
        stmts_view(s).len() == s.len(),
    decreases s.len(),
{
    if s.len() > 0 {
        lemma_stmts_view_len(s.drop_last());
    }
}

pub proof fn lemma_stmts_view_index(s: Seq<(DebugSym, Node)>, k: int)
    requires
        0 <= k < s.len(),
    ensures
        stmts_view(s)[k] == (StmtV { line: s[k].0.lineno as nat, text: s[k].0.val@, node: node_view(s[k].1) }),
    decreases s.len(),
{
    lemma_stmts_view_len(s.drop_last());
    if k < s.len() - 1 {
        lemma_stmts_view_index(s.drop_last(), k);
    }
}

/// `stmts_view` of a sequence extended by one statement.
pub proof fn lemma_stmts_view_push(s: Seq<(DebugSym, Node)>, x: (DebugSym, Node))
    ensures
        stmts_view(s.push(x)) == stmts_view(s).push(
            StmtV { line: x.0.lineno as nat, text: x.0.val@, node: node_view(x.1) },
        ),
{
    assert(s.push(x).drop_last() =~= s);
}

/// `exprs_view` of a sequence extended by one expression.
pub proof fn lemma_exprs_view_push(s: Seq<Expr>, x: Expr)
    ensures
        exprs_view(s.push(x)) == exprs_view(s).push(x@),
{
    assert(s.push(x).drop_last() =~= s);
}


/// Copies of a parameter list.
pub fn copy_params(ps: &Vec<(Type, String)>) -> (r: Vec<(Type, String)>)
    ensures
        params_view(r@) == params_view(ps@),
{
    let mut r: Vec<(Type, String)> = Vec::new();
    let mut i: usize = 0;
    while i < ps.len()
        invariant
            i <= ps.len(),
            r.len() == i,
            forall|k: int| 0 <= k < i ==> (#[trigger] r@[k]).0@ == ps@[k].0@ && r@[k].1@ == ps@[k].1@,
        decreases ps.len() - i,
    {
        r.push((ps[i].0.copy(), copy_string(&ps[i].1)));
        i = i + 1;
    }
    assert(params_view(r@) =~= params_view(ps@));
    r
}

/// Copies of a sequence of strings.
pub fn copy_strings(ps: &Vec<String>) -> (r: Vec<String>)
    ensures
        r@.map_values(|x: String| x@) == ps@.map_values(|x: String| x@),
{
    let mut r: Vec<String> = Vec::new();
    let mut i: usize = 0;
    while i < ps.len()
        invariant
            i <= ps.len(),
            r.len() == i,
            forall|k: int| 0 <= k < i ==> (#[trigger] r@[k])@ == ps@[k]@,
        decreases ps.len() - i,
    {
        r.push(copy_string(&ps[i]));
        i = i + 1;
    }
    assert(r@.map_values(|x: String| x@) =~= ps@.map_values(|x: String| x@));
    r
}

} // verus!
