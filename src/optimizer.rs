//! Constant folding.
use vstd::prelude::*;
use crate::diag::{CompileError, ErrorKind};
use crate::nodes::{
    copy_params, copy_strings, exprs_view, lemma_exprs_view_push, lemma_stmts_view_push,
    opt_expr_view, stmts_view, DebugSym, Expr, ExprV, Node, NodeV, Operation, Program,
    StmtV,
};
use crate::text::{copy_string, dec_int, push_int, push_str};

verus! {

broadcast use vstd::std_specs::vec::group_vec_axioms, vstd::seq::group_seq_axioms;

/// Why folding failed.
#[derive(Debug, Clone, Copy, PartialEq, Eq, Structural)]
pub enum FoldError {
    DivisionByZero,
    Concat,
}

/// Signed 64-bit truncating division, wrapping on overflow; `b` is not zero.
pub open spec fn div_wrap(a: i64, b: i64) -> i64 {
    match a.checked_div(b) {
        Some(q) => q,
        None => i64::MIN,
    }
}

/// Signed 64-bit remainder, wrapping on overflow; `b` is not zero.
pub open spec fn rem_wrap(a: i64, b: i64) -> i64 {
    match a.checked_rem(b) {
        Some(q) => q,
        None => 0,
    }
}

/// One operator applied to two folded operands.
pub open spec fn fold_binop(l: ExprV, op: Operation, r: ExprV) -> Result<ExprV, FoldError> {
    if l is Number && r is Number {
        let a = l->Number_0;
        let b = r->Number_0;
        match op {
            Operation::Add => Ok(ExprV::Number(a.wrapping_add(b))),
            Operation::Sub => Ok(ExprV::Number(a.wrapping_sub(b))),
            Operation::Mult => Ok(ExprV::Number(a.wrapping_mul(b))),
            Operation::Div => if b == 0 {
                Err(FoldError::DivisionByZero)
            } else {
                Ok(ExprV::Number(div_wrap(a, b)))
            },
            Operation::Mod => if b == 0 {
                Err(FoldError::DivisionByZero)
            } else {
                Ok(ExprV::Number(rem_wrap(a, b)))
            },
        }
    } else if l is Str && op == Operation::Add {
        match r {
            ExprV::Number(n) => Ok(ExprV::Str(l->Str_0 + dec_int(n as int))),
            ExprV::Str(t) => Ok(ExprV::Str(l->Str_0 + t)),
            _ => Err(FoldError::Concat),
        }
    } else {
        Ok(ExprV::BiOp(Box::new(l), op, Box::new(r)))
    }
}

/// Constant folding of an expression: operator nodes are folded bottom-up,
/// left operand first; every other kind of expression stays as it is.
pub open spec fn fold(e: ExprV) -> Result<ExprV, FoldError>
    decreases e,
{
    match e {
        ExprV::BiOp(l, op, r) => match fold(*l) {
            Ok(l2) => match fold(*r) {
                Ok(r2) => fold_binop(l2, op, r2),
                Err(x) => Err(x),
            },
            Err(x) => Err(x),
        },
        _ => Ok(e),
    }
}

/// Folding of an optional expression.
pub open spec fn fold_opt(e: Option<ExprV>) -> Result<Option<ExprV>, FoldError> {
    match e {
        Some(x) => match fold(x) {
            Ok(y) => Ok(Some(y)),
            Err(k) => Err(k),
        },
        None => Ok(None),
    }
}

/// Folding of a list of expressions, left to right.
pub open spec fn fold_exprs(s: Seq<ExprV>) -> Result<Seq<ExprV>, FoldError>
    decreases s.len(),
{
    if s.len() == 0 {
        Ok(Seq::empty())
    } else {
        match fold_exprs(s.drop_last()) {
            Ok(p) => match fold(s.last()) {
                Ok(x) => Ok(p.push(x)),
                Err(k) => Err(k),
            },
            Err(k) => Err(k),
        }
    }
}

/// Attaches a line to a folding error.
pub open spec fn at_line<T>(r: Result<T, FoldError>, line: nat) -> Result<T, (FoldError, nat)> {
    match r {
        Ok(x) => Ok(x),
        Err(k) => Err((k, line)),
    }
}

/// Folding of one statement on source line `line`: every expression it holds,
/// and the statements of a function, `if` or `while` body, each keyed to its
/// own line.
pub open spec fn fold_node(n: NodeV, line: nat) -> Result<NodeV, (FoldError, nat)>
    decreases n,
{
    match n {
        NodeV::VarDefine(t, id, e) => match fold_opt(e) {
            Ok(e2) => Ok(NodeV::VarDefine(t, id, e2)),
            Err(k) => Err((k, line)),
        },
        NodeV::VarAssign(id, e) => match fold(e) {
            Ok(e2) => Ok(NodeV::VarAssign(id, e2)),
            Err(k) => Err((k, line)),
        },
        NodeV::Function(t, name, ps, body, l) => match fold_stmts(body) {
            Ok(b2) => Ok(NodeV::Function(t, name, ps, b2, l)),
            Err(x) => Err(x),
        },
        NodeV::FuncCall(name, args) => match fold_exprs(args) {
            Ok(a2) => Ok(NodeV::FuncCall(name, a2)),
            Err(k) => Err((k, line)),
        },
        NodeV::If(c, body) => match fold(c) {
            Ok(c2) => match fold_stmts(body) {
                Ok(b2) => Ok(NodeV::If(c2, b2)),
                Err(x) => Err(x),
            },
            Err(k) => Err((k, line)),
        },
        NodeV::While(c, body) => match fold(c) {
            Ok(c2) => match fold_stmts(body) {
                Ok(b2) => Ok(NodeV::While(c2, b2)),
                Err(x) => Err(x),
            },
            Err(k) => Err((k, line)),
        },
        NodeV::Return(e) => match fold_opt(e) {
            Ok(e2) => Ok(NodeV::Return(e2)),
            Err(k) => Err((k, line)),
        },
        _ => Ok(n),
    }
}

/// Folding of a statement list, first statement first; the first error ends it.
pub open spec fn fold_stmts(s: Seq<StmtV>) -> Result<Seq<StmtV>, (FoldError, nat)>
    decreases s,
{
    if s.len() == 0 {
        Ok(Seq::empty())
    } else {
        match fold_stmts(s.drop_last()) {
            Ok(p) => match fold_node(s.last().node, s.last().line) {
                Ok(n2) => Ok(p.push(StmtV { line: s.last().line, text: s.last().text, node: n2 })),
                Err(x) => Err(x),
            },
            Err(x) => Err(x),
        }
    }
}

/// `n` passes of folding over a program.
pub open spec fn fold_passes(s: Seq<StmtV>, n: nat) -> Result<Seq<StmtV>, (FoldError, nat)>
    decreases n,
{
    if n == 0 {
        Ok(s)
    } else {
        match fold_passes(s, (n - 1) as nat) {
            Ok(p) => fold_stmts(p),
            Err(x) => Err(x),
        }
    }
}

/// The diagnostic text for a folding error.
pub open spec fn fold_message(k: FoldError) -> Seq<char> {
    match k {
        FoldError::DivisionByZero => "Division by 0 after constant folding"@,
        FoldError::Concat => "Cannot perform string concatenation"@,
    }
}

/// What a diagnostic says of a folding error on line `line`.
pub open spec fn is_fold_error(e: CompileError, k: FoldError, line: nat) -> bool {
    &&& e.kind == ErrorKind::Fold
    &&& e.message@ == fold_message(k)
    &&& e.lineno == line
}

fn fold_error(k: FoldError, sym: &DebugSym) -> (r: CompileError)
    ensures
        is_fold_error(r, k, sym.lineno as nat),
{
    let mut msg = String::new();
    match k {
        FoldError::DivisionByZero => push_str(&mut msg, "Division by 0 after constant folding"),
        FoldError::Concat => push_str(&mut msg, "Cannot perform string concatenation"),
    }
    CompileError::new(ErrorKind::Fold, msg, sym.lineno, 0, 0)
}

/// One operator applied to two folded operands (see [`fold_binop`]).
pub fn fold_binop_exec(l: Expr, op: Operation, r: Expr) -> (res: Result<Expr, FoldError>)
    ensures
        match res {
            Ok(x) => fold_binop(l@, op, r@) == Ok::<ExprV, FoldError>(x@),
            Err(k) => fold_binop(l@, op, r@) == Err::<ExprV, FoldError>(k),
        },
{
    match (&l, &r) {
        (Expr::Number(a), Expr::Number(b)) => {
            let a = *a;
            let b = *b;
            match op {
                Operation::Add => Ok(Expr::Number(a.wrapping_add(b))),
                Operation::Sub => Ok(Expr::Number(a.wrapping_sub(b))),
                Operation::Mult => Ok(Expr::Number(a.wrapping_mul(b))),
                Operation::Div => {
                    if b == 0 {
                        Err(FoldError::DivisionByZero)
                    } else {
                        match a.checked_div(b) {
                            Some(q) => Ok(Expr::Number(q)),
                            None => Ok(Expr::Number(i64::MIN)),
                        }
                    }
                },
                Operation::Mod => {
                    if b == 0 {
                        Err(FoldError::DivisionByZero)
                    } else {
                        match a.checked_rem(b) {
                            Some(q) => Ok(Expr::Number(q)),
                            None => Ok(Expr::Number(0)),
                        }
                    }
                },
            }
        },
        (Expr::Str(s), _) => {
            if op == Operation::Add {
                match &r {
                    Expr::Number(n) => {
                        let mut t = copy_string(s);
                        push_int(&mut t, *n);
                        Ok(Expr::Str(t))
                    },
                    Expr::Str(u) => {
                        let mut t = copy_string(s);
                        push_str(&mut t, u.as_str());
                        Ok(Expr::Str(t))
                    },
                    _ => Err(FoldError::Concat),
                }
            } else {
                Ok(Expr::BiOp { lhs: Box::new(l), op, rhs: Box::new(r) })
            }
        },
        _ => Ok(Expr::BiOp { lhs: Box::new(l), op, rhs: Box::new(r) }),
    }
}

/// Constant folding of an expression (see [`fold`]).
pub fn fold_expr(e: &Expr) -> (res: Result<Expr, FoldError>)
    ensures
        match res {
            Ok(x) => fold(e@) == Ok::<ExprV, FoldError>(x@),
            Err(k) => fold(e@) == Err::<ExprV, FoldError>(k),
        },
    decreases e,
{
    match e {
        Expr::BiOp { lhs, op, rhs } => {
            let l2 = match fold_expr(&**lhs) {
                Ok(x) => x,
                Err(k) => return Err(k),
            };
            let r2 = match fold_expr(&**rhs) {
                Ok(x) => x,
                Err(k) => return Err(k),
            };
            fold_binop_exec(l2, *op, r2)
        },
        _ => Ok(e.copy()),
    }
}

/// Folds an expression of the statement `sym`, reporting an error against it.
pub fn optimize_expr(sym: &DebugSym, e: &Expr) -> (res: Result<Expr, CompileError>)
    ensures
        match res {
            Ok(x) => fold(e@) == Ok::<ExprV, FoldError>(x@),
            Err(err) => fold(e@) is Err && is_fold_error(err, fold(e@)->Err_0, sym.lineno as nat),
        },
{
    match fold_expr(e) {
        Ok(x) => Ok(x),
        Err(k) => Err(fold_error(k, sym)),
    }
}

fn optimize_opt(sym: &DebugSym, e: &Option<Expr>) -> (res: Result<Option<Expr>, CompileError>)
    ensures
        match res {
            Ok(x) => fold_opt(opt_expr_view(*e)) == Ok::<Option<ExprV>, FoldError>(opt_expr_view(x)),
            Err(err) => fold_opt(opt_expr_view(*e)) is Err && is_fold_error(
                err,
                fold_opt(opt_expr_view(*e))->Err_0,
                sym.lineno as nat,
            ),
        },
{
    match e {
        Some(x) => match optimize_expr(sym, x) {
            Ok(y) => Ok(Some(y)),
            Err(err) => Err(err),
        },
        None => Ok(None),
    }
}

proof fn lemma_fold_exprs_err_extends(s: Seq<ExprV>, i: int)
    requires
        0 <= i <= s.len(),
        fold_exprs(s.subrange(0, i)) is Err,
    ensures
        fold_exprs(s) == fold_exprs(s.subrange(0, i)),
    decreases s.len() - i,
{
    if i < s.len() {
        assert(s.subrange(0, i + 1).drop_last() =~= s.subrange(0, i));
        lemma_fold_exprs_err_extends(s, i + 1);
    } else {
        assert(s.subrange(0, i) =~= s);
    }
}

fn optimize_args(sym: &DebugSym, args: &Vec<Expr>) -> (res: Result<Vec<Expr>, CompileError>)
    ensures
        match res {
            Ok(x) => fold_exprs(exprs_view(args@)) == Ok::<Seq<ExprV>, FoldError>(exprs_view(x@)),
            Err(err) => fold_exprs(exprs_view(args@)) is Err && is_fold_error(
                err,
                fold_exprs(exprs_view(args@))->Err_0,
                sym.lineno as nat,
            ),
        },
{
    let ghost sv = exprs_view(args@);
    proof {
        crate::nodes::lemma_exprs_view_len(args@);
    }
    let mut out: Vec<Expr> = Vec::new();
    let mut i: usize = 0;
    while i < args.len()
        invariant
            i <= args.len(),
            sv == exprs_view(args@),
            sv.len() == args.len(),
            fold_exprs(sv.subrange(0, i as int)) == Ok::<Seq<ExprV>, FoldError>(exprs_view(out@)),
        decreases args.len() - i,
    {
        proof {
            crate::nodes::lemma_exprs_view_index(args@, i as int);
            assert(sv.subrange(0, i + 1).drop_last() =~= sv.subrange(0, i as int));
        }
        match optimize_expr(sym, &args[i]) {
            Ok(x) => {
                proof {
                    lemma_exprs_view_push(out@, x);
                }
                out.push(x);
            },
            Err(err) => {
                proof {
                    lemma_fold_exprs_err_extends(sv, i + 1);
                }
                return Err(err);
            },
        }
        i = i + 1;
    }
    assert(sv.subrange(0, args.len() as int) =~= sv);
    Ok(out)
}

proof fn lemma_fold_stmts_err_extends(s: Seq<StmtV>, i: int)
    requires
        0 <= i <= s.len(),
        fold_stmts(s.subrange(0, i)) is Err,
    ensures
        fold_stmts(s) == fold_stmts(s.subrange(0, i)),
    decreases s.len() - i,
{
    if i < s.len() {
        assert(s.subrange(0, i + 1).drop_last() =~= s.subrange(0, i));
        lemma_fold_stmts_err_extends(s, i + 1);
    } else {
        assert(s.subrange(0, i) =~= s);
    }
}

/// Folds one statement (see [`fold_node`]).
fn optimize_node(sym: &DebugSym, n: &Node) -> (res: Result<Node, CompileError>)
    ensures
        match res {
            Ok(x) => fold_node(n@, sym.lineno as nat) == Ok::<NodeV, (FoldError, nat)>(x@),
            Err(err) => fold_node(n@, sym.lineno as nat) is Err && is_fold_error(
                err,
                fold_node(n@, sym.lineno as nat)->Err_0.0,
                fold_node(n@, sym.lineno as nat)->Err_0.1,
            ),
        },
    decreases n,
{
    match n {
        Node::VarDefine { typ, ident, expr } => {
            let e2 = optimize_opt(sym, expr)?;
            Ok(Node::VarDefine { typ: typ.copy(), ident: copy_string(ident), expr: e2 })
        },
        Node::VarAssign { ident, expr } => {
            let e2 = optimize_expr(sym, expr)?;
            Ok(Node::VarAssign { ident: copy_string(ident), expr: e2 })
        },
        Node::Function { ret_type, name, args, body, linkage } => {
            proof {
                assert(decreases_to!(*n => n->Function_body));
            }
            let b2 = optimize_stmts(&body.statements)?;
            Ok(
                Node::Function {
                    ret_type: ret_type.copy(),
                    name: copy_string(name),
                    args: copy_params(args),
                    body: Program { statements: b2 },
                    linkage: *linkage,
                },
            )
        },
        Node::FuncCall { name, args } => {
            let a2 = optimize_args(sym, args)?;
            Ok(Node::FuncCall { name: copy_string(name), args: a2 })
        },
        Node::If { cond, body } => {
            let c2 = optimize_expr(sym, cond)?;
            proof {
                assert(decreases_to!(*n => n->If_body));
            }
            let b2 = optimize_stmts(&body.statements)?;
            Ok(Node::If { cond: c2, body: Program { statements: b2 } })
        },
        Node::While { cond, body } => {
            let c2 = optimize_expr(sym, cond)?;
            proof {
                assert(decreases_to!(*n => n->While_body));
            }
            let b2 = optimize_stmts(&body.statements)?;
            Ok(Node::While { cond: c2, body: Program { statements: b2 } })
        },
        Node::Return(e) => {
            let e2 = optimize_opt(sym, e)?;
            Ok(Node::Return(e2))
        },
        Node::Extern { name, args, ret_type } => Ok(
            Node::Extern { name: copy_string(name), args: copy_params(args), ret_type: ret_type.copy() },
        ),
        Node::Import(p) => Ok(Node::Import(copy_strings(p))),
        Node::InlineURCL(t) => Ok(Node::InlineURCL(copy_string(t))),
    }
}

/// Folds a statement list (see [`fold_stmts`]).
fn optimize_stmts(stmts: &Vec<(DebugSym, Node)>) -> (res: Result<Vec<(DebugSym, Node)>, CompileError>)
    ensures
        match res {
            Ok(x) => fold_stmts(stmts_view(stmts@)) == Ok::<Seq<StmtV>, (FoldError, nat)>(stmts_view(x@)),
            Err(err) => fold_stmts(stmts_view(stmts@)) is Err && is_fold_error(
                err,
                fold_stmts(stmts_view(stmts@))->Err_0.0,
                fold_stmts(stmts_view(stmts@))->Err_0.1,
            ),
        },
    decreases stmts,
{
    let ghost sv = stmts_view(stmts@);
    proof {
        crate::nodes::lemma_stmts_view_len(stmts@);
    }
    let mut out: Vec<(DebugSym, Node)> = Vec::new();
    let mut i: usize = 0;
    while i < stmts.len()
        invariant
            i <= stmts.len(),
            sv == stmts_view(stmts@),
            sv.len() == stmts.len(),
            fold_stmts(sv.subrange(0, i as int)) == Ok::<Seq<StmtV>, (FoldError, nat)>(stmts_view(out@)),
        decreases stmts.len() - i,
    {
        proof {
            crate::nodes::lemma_stmts_view_index(stmts@, i as int);
            assert(sv.subrange(0, i + 1).drop_last() =~= sv.subrange(0, i as int));
            assert(decreases_to!(*stmts => stmts@));
            assert(decreases_to!(stmts@ => stmts@[i as int]));
            assert(decreases_to!(stmts@[i as int] => stmts@[i as int].1));
        }
        let sym = &stmts[i].0;
        match optimize_node(sym, &stmts[i].1) {
            Ok(x) => {
                let item = (sym.copy(), x);
                proof {
                    lemma_stmts_view_push(out@, item);
                }
                out.push(item);
            },
            Err(err) => {
                proof {
                    lemma_fold_stmts_err_extends(sv, i + 1);
                }
                return Err(err);
            },
        }
        i = i + 1;
    }
    assert(sv.subrange(0, stmts.len() as int) =~= sv);
    Ok(out)
}

/// One folding pass over a program. On success the program is replaced by
/// its folded form; on failure it is left as it was and the error names the
/// line of the statement that failed.
pub fn optimize(prog: &mut Program) -> (res: Result<(), CompileError>)
    ensures
        match res {
            Ok(()) => fold_stmts(old(prog)@) == Ok::<Seq<StmtV>, (FoldError, nat)>(final(prog)@),
            Err(err) => fold_stmts(old(prog)@) is Err && is_fold_error(
                err,
                fold_stmts(old(prog)@)->Err_0.0,
                fold_stmts(old(prog)@)->Err_0.1,
            ) && final(prog)@ == old(prog)@,
        },
{
    let s = optimize_stmts(&prog.statements)?;
    prog.statements = s;
    Ok(())
}

/// `passes` folding passes over a program, as `-O <passes>` asks.
pub fn optimize_passes(prog: &mut Program, passes: u32) -> (res: Result<(), CompileError>)
    ensures
        match res {
            Ok(()) => fold_passes(old(prog)@, passes as nat) == Ok::<Seq<StmtV>, (FoldError, nat)>(
                final(prog)@,
            ),
            Err(err) => fold_passes(old(prog)@, passes as nat) is Err && is_fold_error(
                err,
                fold_passes(old(prog)@, passes as nat)->Err_0.0,
                fold_passes(old(prog)@, passes as nat)->Err_0.1,
            ),
        },
{
    let ghost orig = prog@;
    let mut i: u32 = 0;
    while i < passes
        invariant
            i <= passes,
            orig == old(prog)@,
            fold_passes(orig, i as nat) == Ok::<Seq<StmtV>, (FoldError, nat)>(prog@),
        decreases passes - i,
    {
        match optimize(prog) {
            Ok(()) => {},
            Err(err) => {
                proof {
                    lemma_fold_passes_err_persists(orig, (i + 1) as nat, passes as nat);
                }
                return Err(err);
            },
        }
        i = i + 1;
    }
    Ok(())
}

proof fn lemma_fold_passes_err_persists(s: Seq<StmtV>, n: nat, m: nat)
    requires
        n <= m,
        fold_passes(s, n) is Err,
    ensures
        fold_passes(s, m) == fold_passes(s, n),
    decreases m - n,
{
    if n < m {
        lemma_fold_passes_err_persists(s, (n + 1) as nat, m);
    }
}


/// Folding is idempotent on expressions: folding a folded expression gives it back.
pub proof fn lemma_fold_idempotent(e: ExprV)
    requires
        fold(e) is Ok,
    ensures
        fold(fold(e)->Ok_0) == fold(e),
    decreases e,
{
    if let ExprV::BiOp(l, op, r) = e {
        lemma_fold_idempotent(*l);
        lemma_fold_idempotent(*r);
    }
}

proof fn lemma_fold_exprs_idempotent(s: Seq<ExprV>)
    requires
        fold_exprs(s) is Ok,
    ensures
        fold_exprs(fold_exprs(s)->Ok_0) == fold_exprs(s),
    decreases s.len(),
{
    if s.len() > 0 {
        lemma_fold_exprs_idempotent(s.drop_last());
        lemma_fold_idempotent(s.last());
        let p = fold_exprs(s.drop_last())->Ok_0;
        let x = fold(s.last())->Ok_0;
        assert(p.push(x).drop_last() =~= p);
    }
}

proof fn lemma_fold_opt_idempotent(e: Option<ExprV>)
    requires
        fold_opt(e) is Ok,
    ensures
        fold_opt(fold_opt(e)->Ok_0) == fold_opt(e),
{
    if let Some(x) = e {
        lemma_fold_idempotent(x);
    }
}

proof fn lemma_fold_node_idempotent(n: NodeV, line: nat)
    requires
        fold_node(n, line) is Ok,
    ensures
        fold_node(fold_node(n, line)->Ok_0, line) == fold_node(n, line),
    decreases n,
{
    match n {
        NodeV::VarDefine(t, id, e) => lemma_fold_opt_idempotent(e),
        NodeV::VarAssign(id, e) => lemma_fold_idempotent(e),
        NodeV::Function(t, name, ps, body, l) => lemma_fold_stmts_idempotent(body),
        NodeV::FuncCall(name, args) => lemma_fold_exprs_idempotent(args),
        NodeV::If(c, body) => {
            lemma_fold_idempotent(c);
            lemma_fold_stmts_idempotent(body);
        },
        NodeV::While(c, body) => {
            lemma_fold_idempotent(c);
            lemma_fold_stmts_idempotent(body);
        },
        NodeV::Return(e) => lemma_fold_opt_idempotent(e),
        _ => {},
    }
}

proof fn lemma_fold_stmts_idempotent(s: Seq<StmtV>)
    requires
        fold_stmts(s) is Ok,
    ensures
        fold_stmts(fold_stmts(s)->Ok_0) == fold_stmts(s),
    decreases s,
{
    if s.len() > 0 {
        lemma_fold_stmts_idempotent(s.drop_last());
        lemma_fold_node_idempotent(s.last().node, s.last().line);
        let p = fold_stmts(s.drop_last())->Ok_0;
        let x = StmtV {
            line: s.last().line,
            text: s.last().text,
            node: fold_node(s.last().node, s.last().line)->Ok_0,
        };
        assert(p.push(x).drop_last() =~= p);
    }
}

/// Folding is idempotent on programs: when a pass over `p` succeeds, a
/// second pass over its result succeeds and changes nothing.
pub proof fn law_optimize_idempotent(p: Seq<StmtV>)
    requires
        fold_stmts(p) is Ok,
    ensures
        fold_stmts(fold_stmts(p)->Ok_0) == fold_stmts(p),
{
    lemma_fold_stmts_idempotent(p);
}

} // verus!
