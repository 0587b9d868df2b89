//! The URCL code emitter: statements and expressions to assembly text, with
//! functions registered in the [`Linker`] as they are compiled.
use vstd::prelude::*;
use crate::diag::{CompileError, ErrorKind};
use crate::linker::{add_result, lookup, sig_of, Linker, LinkerFunc, LinkerFuncV};
use crate::nodes::{
    lemma_stmts_view_index, lemma_stmts_view_len, DebugSym, Expr, ExprV, Linkage, Node, NodeV, Program,
    StmtV, Type, TypeV, types_view,
};
use crate::text::{copy_string, dec_nat, push_char, push_nat, push_str, same_text};

verus! {

broadcast use vstd::std_specs::vec::group_vec_axioms, vstd::seq::group_seq_axioms;

/// How a program is compiled.
#[derive(Debug, Clone, Copy, PartialEq, Eq, Structural)]
pub struct AstCompileArgs {
    /// Emit `// <line>: <text>` comments.
    pub debug_symbols: bool,
    /// Leave out the program prologue and the function blocks.
    pub standalone: bool,
    /// Release the program's own locals at its end.
    pub pop_frame: bool,
    /// Constant-folding passes that were asked for.
    pub opt_level: u32,
}

/// A local variable: its name and type.
#[derive(Debug)]
pub struct Variable {
    pub name: String,
    pub typ: Type,
}

/// The locals in scope, innermost last, and the marks where each open
/// frame began. Local `k` (from 0) lives at `R1 - (k + 1)`.
#[derive(Debug)]
pub struct VarStack {
    vars: Vec<Variable>,
    marks: Vec<usize>,
}

/// A local's view: name and type.
pub type LocalV = (Seq<char>, TypeV);

/// A parameter's view: type and name.
pub type ParamV = (TypeV, Seq<char>);

/// The index of the innermost local called `name`.
pub open spec fn local_index(vs: Seq<LocalV>, name: Seq<char>) -> Option<int>
    decreases vs.len(),
{
    if vs.len() == 0 {
        None
    } else if vs.last().0 == name {
        Some(vs.len() - 1)
    } else {
        local_index(vs.drop_last(), name)
    }
}

/// The index of the last parameter called `name`.
pub open spec fn param_index(ps: Seq<ParamV>, name: Seq<char>) -> Option<int>
    decreases ps.len(),
{
    if ps.len() == 0 {
        None
    } else if ps.last().1 == name {
        Some(ps.len() - 1)
    } else {
        param_index(ps.drop_last(), name)
    }
}

proof fn lemma_local_index(vs: Seq<LocalV>, name: Seq<char>)
    ensures
        local_index(vs, name) is Some ==> 0 <= local_index(vs, name)->Some_0 < vs.len()
            && vs[local_index(vs, name)->Some_0].0 == name,
    decreases vs.len(),
{
    if vs.len() > 0 {
        lemma_local_index(vs.drop_last(), name);
    }
}

proof fn lemma_param_index(ps: Seq<ParamV>, name: Seq<char>)
    ensures
        param_index(ps, name) is Some ==> 0 <= param_index(ps, name)->Some_0 < ps.len()
            && ps[param_index(ps, name)->Some_0].1 == name,
    decreases ps.len(),
{
    if ps.len() > 0 {
        lemma_param_index(ps.drop_last(), name);
    }
}

impl VarStack {
    pub closed spec fn locals(&self) -> Seq<LocalV> {
        self.vars@.map_values(|v: Variable| (v.name@, v.typ@))
    }

    pub closed spec fn marks(&self) -> Seq<nat> {
        self.marks@.map_values(|m: usize| m as nat)
    }

    /// Marks are in order and within the locals.
    pub open spec fn wf(&self) -> bool {
        &&& forall|i: int| 0 <= i < self.marks().len() ==> #[trigger] self.marks()[i] <= self.locals().len()
        &&& forall|i: int, j: int| 0 <= i <= j < self.marks().len() ==> #[trigger] self.marks()[i] <= #[trigger] self.marks()[j]
    }

    pub fn new() -> (r: VarStack)
        ensures
            r.locals() == Seq::<LocalV>::empty(),
            r.marks() == Seq::<nat>::empty(),
            r.wf(),
    {
        let r = VarStack { vars: Vec::new(), marks: Vec::new() };
        assert(r.locals() =~= Seq::<LocalV>::empty());
        assert(r.marks() =~= Seq::<nat>::empty());
        r
    }

    /// How many locals are in scope.
    pub fn len(&self) -> (r: usize)
        ensures
            r == self.locals().len(),
    {
        self.vars.len()
    }

    /// Adds a local in the innermost frame.
    pub fn push(&mut self, name: String, typ: &Type)
        requires
            old(self).wf(),
        ensures
            final(self).wf(),
            final(self).locals() == old(self).locals().push((name@, typ@)),
            final(self).marks() == old(self).marks(),
    {
        self.vars.push(Variable { name, typ: typ.copy() });
        assert(self.locals() =~= old(self).locals().push((name@, typ@)));
        assert(self.marks() =~= old(self).marks());
        assert forall|i: int| 0 <= i < self.marks().len() implies #[trigger] self.marks()[i] <= self.locals().len() by {
            assert(old(self).marks()[i] <= old(self).locals().len());
        }
    }

    /// Opens a frame.
    pub fn push_frame(&mut self)
        requires
            old(self).wf(),
        ensures
            final(self).wf(),
            final(self).locals() == old(self).locals(),
            final(self).marks() == old(self).marks().push(old(self).locals().len()),
    {
        let l = self.vars.len();
        self.marks.push(l);
        assert(self.marks() =~= old(self).marks().push(old(self).locals().len()));
    }

    /// Closes the innermost frame, dropping its locals; returns how many
    /// there were.
    pub fn pop_frame(&mut self) -> (r: usize)
        requires
            old(self).wf(),
            old(self).marks().len() > 0,
        ensures
            final(self).wf(),
            r == old(self).locals().len() - old(self).marks().last(),
            final(self).locals() == old(self).locals().subrange(0, old(self).marks().last() as int),
            final(self).marks() == old(self).marks().drop_last(),
    {
        let m = self.marks.pop().unwrap();
        let l = self.vars.len();
        assert(old(self).marks().last() == m);
        self.vars.truncate(m);
        assert(self.locals() =~= old(self).locals().subrange(0, m as int));
        assert(self.marks() =~= old(self).marks().drop_last());
        l - m
    }

    /// The offset of the innermost local called `name`, counting from 1.
    pub fn get_offset(&self, name: &String) -> (r: Option<usize>)
        ensures
            match local_index(self.locals(), name@) {
                Some(i) => r is Some && r->Some_0 == i + 1,
                None => r is None,
            },
    {
        let mut i: usize = self.vars.len();
        assert(self.locals().subrange(0, i as int) =~= self.locals());
        while i > 0
            invariant
                i <= self.vars.len(),
                local_index(self.locals(), name@) == local_index(self.locals().subrange(0, i as int), name@),
            decreases i,
        {
            proof {
                assert(self.locals().subrange(0, i as int).drop_last() =~= self.locals().subrange(0, i - 1));
            }
            if same_text(&self.vars[i - 1].name, name) {
                return Some(i);
            }
            i = i - 1;
        }
        None
    }

    /// The type of the innermost local called `name`.
    pub fn get_type(&self, name: &String) -> (r: Option<Type>)
        ensures
            match local_index(self.locals(), name@) {
                Some(i) => r is Some && r->Some_0@ == self.locals()[i].1,
                None => r is None,
            },
    {
        let mut i: usize = self.vars.len();
        assert(self.locals().subrange(0, i as int) =~= self.locals());
        while i > 0
            invariant
                i <= self.vars.len(),
                local_index(self.locals(), name@) == local_index(self.locals().subrange(0, i as int), name@),
            decreases i,
        {
            proof {
                assert(self.locals().subrange(0, i as int).drop_last() =~= self.locals().subrange(0, i - 1));
            }
            if same_text(&self.vars[i - 1].name, name) {
                return Some(self.vars[i - 1].typ.copy());
            }
            i = i - 1;
        }
        None
    }
}

/// Why lowering an expression failed: the kind and the message.
pub type ExprErr = (ErrorKind, Seq<char>);

/// An immediate operand: the value modulo 2^32.
pub open spec fn imm(n: i64) -> nat {
    ((n as int) % 4294967296) as nat
}

/// Register `k`.
pub open spec fn reg(k: nat) -> Seq<char> {
    seq!['R'] + dec_nat(k)
}

pub open spec fn undefined_variable(name: Seq<char>) -> ExprErr {
    (ErrorKind::Name, "Undefined variable "@ + name)
}

/// The instruction that loads variable `name` into register `k`: a local at
/// `R1 - offset`, else a parameter above the saved `R1` and return address.
pub open spec fn load_var(k: nat, locals: Seq<LocalV>, params: Option<Seq<ParamV>>, name: Seq<char>) -> Option<
    Seq<char>,
> {
    match local_index(locals, name) {
        Some(i) => Some("LLOD "@ + reg(k) + " R1 -"@ + dec_nat((i + 1) as nat) + "\n"@),
        None => match params {
            Some(ps) => match param_index(ps, name) {
                Some(i) => Some("LLOD "@ + reg(k) + " R1 "@ + dec_nat((ps.len() + 1 - i) as nat) + "\n"@),
                None => None,
            },
            None => None,
        },
    }
}

/// The store of register `R2` into variable `name`.
pub open spec fn store_var(locals: Seq<LocalV>, params: Option<Seq<ParamV>>, name: Seq<char>) -> Option<Seq<char>> {
    match local_index(locals, name) {
        Some(i) => Some("LSTR R1 -"@ + dec_nat((i + 1) as nat) + " R2\n"@),
        None => match params {
            Some(ps) => match param_index(ps, name) {
                Some(i) => Some("LSTR R1 "@ + dec_nat((ps.len() + 1 - i) as nat) + " R2\n"@),
                None => None,
            },
            None => None,
        },
    }
}

pub open spec fn op_code(op: crate::nodes::Operation) -> Seq<char> {
    match op {
        crate::nodes::Operation::Add => "ADD"@,
        crate::nodes::Operation::Sub => "SUB"@,
        crate::nodes::Operation::Mult => "MLT"@,
        crate::nodes::Operation::Div => "DIV"@,
        crate::nodes::Operation::Mod => "MOD"@,
    }
}

pub open spec fn comp_code(c: crate::nodes::Comparison) -> Seq<char> {
    match c {
        crate::nodes::Comparison::EQ => "SETE"@,
        crate::nodes::Comparison::NEQ => "SETNE"@,
        crate::nodes::Comparison::LT => "SETL"@,
        crate::nodes::Comparison::LTE => "SETLE"@,
        crate::nodes::Comparison::GT => "SETG"@,
        crate::nodes::Comparison::GTE => "SETGE"@,
    }
}

pub open spec fn too_deep() -> ExprErr {
    (ErrorKind::Unsupported, "Expression too deep"@)
}

pub open spec fn no_strings() -> ExprErr {
    (ErrorKind::Unsupported, "String literals are not supported by the URCL backend"@)
}

pub open spec fn no_calls() -> ExprErr {
    (ErrorKind::Unsupported, "Calls inside expressions are not supported by the URCL backend"@)
}

/// One operand of an operator whose destination register is the last one
/// claimed, `c`: the instructions it queues, its text in the operator's line,
/// and the last register claimed after it. A number is an immediate; a
/// variable is loaded into a fresh register; a nested operator is computed
/// into a fresh register after its own operands.
pub open spec fn operand(x: ExprV, c: nat, locals: Seq<LocalV>, params: Option<Seq<ParamV>>) -> Result<
    (Seq<char>, Seq<char>, nat),
    ExprErr,
>
    decreases x, 1nat,
{
    match x {
        ExprV::Number(n) => Ok((Seq::empty(), dec_nat(imm(n)), c)),
        ExprV::Ident(name) => if c + 1 > u64::MAX {
            Err(too_deep())
        } else {
            match load_var((c + 1) as nat, locals, params, name) {
                Some(t) => Ok((t, reg((c + 1) as nat), (c + 1) as nat)),
                None => Err(undefined_variable(name)),
            }
        },
        ExprV::BiOp(_, _, _) | ExprV::Comp(_, _, _) => if c + 1 > u64::MAX {
            Err(too_deep())
        } else {
            match lower(x, (c + 1) as nat, locals, params) {
                Ok((q, l)) => Ok((q + l, reg((c + 1) as nat), (c + 1) as nat)),
                Err(e) => Err(e),
            }
        },
        ExprV::Str(_) => Err(no_strings()),
        ExprV::Call(_, _) => Err(no_calls()),
    }
}

/// An operator node with destination register `k`: the queued instructions
/// that compute its operands, in order, and its own instruction.
pub open spec fn lower(e: ExprV, k: nat, locals: Seq<LocalV>, params: Option<Seq<ParamV>>) -> Result<
    (Seq<char>, Seq<char>),
    ExprErr,
>
    decreases e, 0nat,
{
    match e {
        ExprV::BiOp(l, op, r) => match operand(*l, k, locals, params) {
            Ok((q1, t1, c1)) => match operand(*r, c1, locals, params) {
                Ok((q2, t2, c2)) => Ok(
                    (q1 + q2, op_code(op) + " "@ + reg(k) + " "@ + t1 + " "@ + t2 + "\n"@),
                ),
                Err(x) => Err(x),
            },
            Err(x) => Err(x),
        },
        ExprV::Comp(l, cmp, r) => match operand(*l, k, locals, params) {
            Ok((q1, t1, c1)) => match operand(*r, c1, locals, params) {
                Ok((q2, t2, c2)) => Ok(
                    (
                        q1 + q2,
                        comp_code(cmp) + " "@ + reg(k) + " "@ + t1 + " "@ + t2 + "\n"@ + "AND "@ + reg(k)
                            + " "@ + reg(k) + " 1\n"@,
                    ),
                ),
                Err(x) => Err(x),
            },
            Err(x) => Err(x),
        },
        _ => Err(no_calls()),
    }
}

/// The code that evaluates `e` and pushes its value on the operand stack.
pub open spec fn expr_code(e: ExprV, locals: Seq<LocalV>, params: Option<Seq<ParamV>>) -> Result<Seq<char>, ExprErr> {
    match e {
        ExprV::Number(n) => Ok("PSH "@ + dec_nat(imm(n)) + "\n\n"@),
        ExprV::Ident(name) => match load_var(2, locals, params, name) {
            Some(t) => Ok(t + "PSH R2\n"@),
            None => Err(undefined_variable(name)),
        },
        ExprV::BiOp(_, _, _) | ExprV::Comp(_, _, _) => match lower(e, 2, locals, params) {
            Ok((q, l)) => Ok(q + l + "AND R2 R2 0xffffffff\n"@ + "PSH R2\n\n"@),
            Err(x) => Err(x),
        },
        ExprV::Str(_) => Err(no_strings()),
        ExprV::Call(_, _) => Err(no_calls()),
    }
}


/// The view of an optional parameter list.
pub open spec fn params_opt(p: Option<&Vec<(Type, String)>>) -> Option<Seq<ParamV>> {
    match p {
        Some(v) => Some(crate::nodes::params_view(v@)),
        None => None,
    }
}

/// The view of an exec lowering error.
pub open spec fn err_view(e: (ErrorKind, String)) -> ExprErr {
    (e.0, e.1@)
}

fn find_param(ps: &Vec<(Type, String)>, name: &String) -> (r: Option<usize>)
    ensures
        match param_index(crate::nodes::params_view(ps@), name@) {
            Some(i) => r is Some && r->Some_0 == i,
            None => r is None,
        },
{
    let ghost pv = crate::nodes::params_view(ps@);
    let mut i: usize = ps.len();
    assert(pv.subrange(0, i as int) =~= pv);
    while i > 0
        invariant
            i <= ps.len(),
            pv == crate::nodes::params_view(ps@),
            param_index(pv, name@) == param_index(pv.subrange(0, i as int), name@),
        decreases i,
    {
        proof {
            assert(pv.subrange(0, i as int).drop_last() =~= pv.subrange(0, i - 1));
        }
        if same_text(&ps[i - 1].1, name) {
            return Some(i - 1);
        }
        i = i - 1;
    }
    None
}

fn push_reg(out: &mut String, k: u64)
    ensures
        final(out)@ == old(out)@ + reg(k as nat),
{
    push_char(out, 'R');
    push_nat(out, k as u128);
    assert(final(out)@ =~= old(out)@ + reg(k as nat));
}

fn push_imm(out: &mut String, n: i64)
    ensures
        final(out)@ == old(out)@ + dec_nat(imm(n)),
{
    let m = n.checked_rem_euclid(4294967296i64).unwrap();
    push_nat(out, m as u128);
}

/// Appends the load of `name` into register `k` (see [`load_var`]).
fn push_load(
    out: &mut String,
    k: u64,
    vars: &VarStack,
    params: Option<&Vec<(Type, String)>>,
    name: &String,
) -> (ok: bool)
    ensures
        match load_var(k as nat, vars.locals(), params_opt(params), name@) {
            Some(t) => ok && final(out)@ == old(out)@ + t,
            None => !ok && final(out)@ == old(out)@,
        },
{
    proof {
        lemma_local_index(vars.locals(), name@);
        assert(vars.locals().len() == vars.vars@.len());
    }
    match vars.get_offset(name) {
        Some(o) => {
            push_str(out, "LLOD ");
            push_reg(out, k);
            push_str(out, " R1 -");
            push_nat(out, o as u128);
            push_str(out, "\n");
            assert(final(out)@ =~= old(out)@ + load_var(k as nat, vars.locals(), params_opt(params), name@)->Some_0);
            true
        },
        None => match params {
            Some(ps) => {
                proof {
                    lemma_param_index(crate::nodes::params_view(ps@), name@);
                }
                match find_param(ps, name) {
                    Some(i) => {
                        push_str(out, "LLOD ");
                        push_reg(out, k);
                        push_str(out, " R1 ");
                        push_nat(out, ps.len() as u128 + 1 - i as u128);
                        push_str(out, "\n");
                        assert(final(out)@ =~= old(out)@ + load_var(k as nat, vars.locals(), params_opt(params), name@)->Some_0);
                        true
                    },
                    None => false,
                }
            },
            None => false,
        },
    }
}

/// Appends the store of `R2` into `name` (see [`store_var`]).
fn push_store(out: &mut String, vars: &VarStack, params: Option<&Vec<(Type, String)>>, name: &String) -> (ok: bool)
    ensures
        match store_var(vars.locals(), params_opt(params), name@) {
            Some(t) => ok && final(out)@ == old(out)@ + t,
            None => !ok && final(out)@ == old(out)@,
        },
{
    proof {
        lemma_local_index(vars.locals(), name@);
        assert(vars.locals().len() == vars.vars@.len());
    }
    match vars.get_offset(name) {
        Some(o) => {
            push_str(out, "LSTR R1 -");
            push_nat(out, o as u128);
            push_str(out, " R2\n");
            assert(final(out)@ =~= old(out)@ + store_var(vars.locals(), params_opt(params), name@)->Some_0);
            true
        },
        None => match params {
            Some(ps) => {
                proof {
                    lemma_param_index(crate::nodes::params_view(ps@), name@);
                }
                match find_param(ps, name) {
                    Some(i) => {
                        push_str(out, "LSTR R1 ");
                        push_nat(out, ps.len() as u128 + 1 - i as u128);
                        push_str(out, " R2\n");
                        assert(final(out)@ =~= old(out)@ + store_var(vars.locals(), params_opt(params), name@)->Some_0);
                        true
                    },
                    None => false,
                }
            },
            None => false,
        },
    }
}

fn undefined_variable_err(name: &String) -> (r: (ErrorKind, String))
    ensures
        err_view(r) == undefined_variable(name@),
{
    let mut m = String::from_str("Undefined variable ");
    push_str(&mut m, name.as_str());
    (ErrorKind::Name, m)
}

fn too_deep_err() -> (r: (ErrorKind, String))
    ensures
        err_view(r) == too_deep(),
{
    (ErrorKind::Unsupported, String::from_str("Expression too deep"))
}

fn no_strings_err() -> (r: (ErrorKind, String))
    ensures
        err_view(r) == no_strings(),
{
    (ErrorKind::Unsupported, String::from_str("String literals are not supported by the URCL backend"))
}

fn no_calls_err() -> (r: (ErrorKind, String))
    ensures
        err_view(r) == no_calls(),
{
    (ErrorKind::Unsupported, String::from_str("Calls inside expressions are not supported by the URCL backend"))
}

/// One operand (see [`operand`]): queued instructions go to `queue`, the
/// operand's text to `text`; returns the last register claimed.
fn operand_exec(
    x: &Expr,
    c: u64,
    vars: &VarStack,
    params: Option<&Vec<(Type, String)>>,
    queue: &mut String,
    text: &mut String,
) -> (res: Result<u64, (ErrorKind, String)>)
    ensures
        match operand(x@, c as nat, vars.locals(), params_opt(params)) {
            Ok((q, t, c2)) => res == Ok::<u64, (ErrorKind, String)>(c2 as u64) && c2 <= u64::MAX
                && final(queue)@ == old(queue)@ + q && final(text)@ == old(text)@ + t,
            Err(e) => res is Err && err_view(res->Err_0) == e,
        },
    decreases x, 2nat,
{
    match x {
        Expr::Number(n) => {
            push_imm(text, *n);
            Ok(c)
        },
        Expr::Ident(name) => {
            if c == u64::MAX {
                return Err(too_deep_err());
            }
            if !push_load(queue, c + 1, vars, params, name) {
                return Err(undefined_variable_err(name));
            }
            push_reg(text, c + 1);
            Ok(c + 1)
        },
        Expr::BiOp { .. } | Expr::Comp { .. } => {
            if c == u64::MAX {
                return Err(too_deep_err());
            }
            let mut line = String::new();
            lower_exec(x, c + 1, vars, params, queue, &mut line)?;
            push_str(queue, line.as_str());
            push_reg(text, c + 1);
            Ok(c + 1)
        },
        Expr::Str(_) => Err(no_strings_err()),
        Expr::Call { .. } => Err(no_calls_err()),
    }
}

/// The two operands of an operator whose destination is register `k`:
/// their texts go to `line`, separated by a space.
fn operands_exec(
    parent: Ghost<Expr>,
    lhs: &Expr,
    rhs: &Expr,
    k: u64,
    vars: &VarStack,
    params: Option<&Vec<(Type, String)>>,
    queue: &mut String,
    line: &mut String,
) -> (res: Result<(), (ErrorKind, String)>)
    requires
        decreases_to!(parent@ => *lhs),
        decreases_to!(parent@ => *rhs),
    ensures
        match operand(lhs@, k as nat, vars.locals(), params_opt(params)) {
            Ok((q1, t1, c1)) => match operand(rhs@, c1, vars.locals(), params_opt(params)) {
                Ok((q2, t2, c2)) => res is Ok && final(queue)@ == old(queue)@ + (q1 + q2) && final(line)@
                    == old(line)@ + (t1 + " "@ + t2),
                Err(x) => res is Err && err_view(res->Err_0) == x,
            },
            Err(x) => res is Err && err_view(res->Err_0) == x,
        },
    decreases parent@, 0nat,
{
    let c1 = operand_exec(lhs, k, vars, params, queue, line)?;
    push_str(line, " ");
    let c2 = operand_exec(rhs, c1, vars, params, queue, line)?;
    proof {
        let (oq1, ot1, oc1) = operand(lhs@, k as nat, vars.locals(), params_opt(params))->Ok_0;
        let (oq2, ot2, oc2) = operand(rhs@, oc1, vars.locals(), params_opt(params))->Ok_0;
        assert(final(queue)@ =~= old(queue)@ + (oq1 + oq2));
        assert(final(line)@ =~= old(line)@ + (ot1 + " "@ + ot2));
    }
    Ok(())
}

/// An operator node with destination register `k` (see [`lower`]): the
/// operands' instructions go to `queue`, the node's own to `line`.
#[verifier::rlimit(100)]
fn lower_exec(
    e: &Expr,
    k: u64,
    vars: &VarStack,
    params: Option<&Vec<(Type, String)>>,
    queue: &mut String,
    line: &mut String,
) -> (res: Result<(), (ErrorKind, String)>)
    ensures
        match lower(e@, k as nat, vars.locals(), params_opt(params)) {
            Ok((q, l)) => res is Ok && final(queue)@ == old(queue)@ + q && final(line)@ == old(line)@ + l,
            Err(x) => res is Err && err_view(res->Err_0) == x,
        },
    decreases e, 1nat,
{
    match e {
        Expr::BiOp { lhs, op, rhs } => {
            let code = match op {
                crate::nodes::Operation::Add => "ADD",
                crate::nodes::Operation::Sub => "SUB",
                crate::nodes::Operation::Mult => "MLT",
                crate::nodes::Operation::Div => "DIV",
                crate::nodes::Operation::Mod => "MOD",
            };
            let ghost l0 = line@;
            push_str(line, code);
            push_str(line, " ");
            push_reg(line, k);
            push_str(line, " ");
            operands_exec(Ghost(*e), &**lhs, &**rhs, k, vars, params, queue, line)?;
            push_str(line, "\n");
            proof {
                let (oq1, ot1, oc1) = operand(lhs@, k as nat, vars.locals(), params_opt(params))->Ok_0;
                let (oq2, ot2, oc2) = operand(rhs@, oc1, vars.locals(), params_opt(params))->Ok_0;
                assert(final(line)@ =~= l0 + (op_code(*op) + " "@ + reg(k as nat) + " "@ + ot1 + " "@ + ot2 + "\n"@));
            }
            Ok(())
        },
        Expr::Comp { lhs, comp, rhs } => {
            let code = match comp {
                crate::nodes::Comparison::EQ => "SETE",
                crate::nodes::Comparison::NEQ => "SETNE",
                crate::nodes::Comparison::LT => "SETL",
                crate::nodes::Comparison::LTE => "SETLE",
                crate::nodes::Comparison::GT => "SETG",
                crate::nodes::Comparison::GTE => "SETGE",
            };
            let ghost l0 = line@;
            push_str(line, code);
            push_str(line, " ");
            push_reg(line, k);
            push_str(line, " ");
            operands_exec(Ghost(*e), &**lhs, &**rhs, k, vars, params, queue, line)?;
            push_str(line, "\n");
            push_str(line, "AND ");
            push_reg(line, k);
            push_str(line, " ");
            push_reg(line, k);
            push_str(line, " 1\n");
            proof {
                let (oq1, ot1, oc1) = operand(lhs@, k as nat, vars.locals(), params_opt(params))->Ok_0;
                let (oq2, ot2, oc2) = operand(rhs@, oc1, vars.locals(), params_opt(params))->Ok_0;
                assert(final(line)@ =~= l0 + (comp_code(*comp) + " "@ + reg(k as nat) + " "@ + ot1 + " "@ + ot2 + "\n"@
                    + "AND "@ + reg(k as nat) + " "@ + reg(k as nat) + " 1\n"@));
            }
            Ok(())
        },
        _ => Err(no_calls_err()),
    }
}

/// Appends the code that evaluates `e` and pushes its value (see [`expr_code`]).
pub fn compile_expr(
    e: &Expr,
    vars: &VarStack,
    params: Option<&Vec<(Type, String)>>,
    out: &mut String,
) -> (res: Result<(), (ErrorKind, String)>)
    ensures
        match expr_code(e@, vars.locals(), params_opt(params)) {
            Ok(t) => res is Ok && final(out)@ == old(out)@ + t,
            Err(x) => res is Err && err_view(res->Err_0) == x,
        },
{
    match e {
        Expr::Number(n) => {
            push_str(out, "PSH ");
            push_imm(out, *n);
            push_str(out, "\n\n");
            assert(final(out)@ =~= old(out)@ + expr_code(e@, vars.locals(), params_opt(params))->Ok_0);
            Ok(())
        },
        Expr::Ident(name) => {
            if !push_load(out, 2, vars, params, name) {
                return Err(undefined_variable_err(name));
            }
            push_str(out, "PSH R2\n");
            assert(final(out)@ =~= old(out)@ + expr_code(e@, vars.locals(), params_opt(params))->Ok_0);
            Ok(())
        },
        Expr::BiOp { .. } | Expr::Comp { .. } => {
            let mut queue = String::new();
            let mut line = String::new();
            lower_exec(e, 2, vars, params, &mut queue, &mut line)?;
            push_str(out, queue.as_str());
            push_str(out, line.as_str());
            push_str(out, "AND R2 R2 0xffffffff\n");
            push_str(out, "PSH R2\n\n");
            assert(final(out)@ =~= old(out)@ + expr_code(e@, vars.locals(), params_opt(params))->Ok_0);
            Ok(())
        },
        Expr::Str(_) => Err(no_strings_err()),
        Expr::Call { .. } => Err(no_calls_err()),
    }
}


/// What the emitter tracks from one statement to the next: the locals in
/// scope, the registered functions, and the next unused label number.
pub struct EmitState {
    pub locals: Seq<LocalV>,
    pub funcs: Seq<LinkerFuncV>,
    pub label: nat,
}

/// A failed emission: kind, message and source line.
pub struct EmitErr {
    pub kind: ErrorKind,
    pub message: Seq<char>,
    pub line: nat,
}

pub open spec fn at(e: ExprErr, line: nat) -> EmitErr {
    EmitErr { kind: e.0, message: e.1, line }
}

/// Whether a diagnostic is the emission error `e`.
pub open spec fn is_emit_error(c: CompileError, e: EmitErr) -> bool {
    c.kind == e.kind && c.message@ == e.message && c.lineno == e.line
}

/// The `-g` comment before a statement.
pub open spec fn debug_line(dbg: bool, st: StmtV) -> Seq<char> {
    if dbg {
        "// "@ + dec_nat(st.line) + ": "@ + st.text + "\n"@
    } else {
        Seq::empty()
    }
}

/// The instruction that releases `n` stack slots, if there are any.
pub open spec fn release(n: nat) -> Seq<char> {
    if n > 0 {
        "ADD SP SP "@ + dec_nat(n) + "\n"@
    } else {
        Seq::empty()
    }
}

/// The function exit sequence.
pub open spec fn exit_seq() -> Seq<char> {
    "MOV SP R1\n"@ + "POP R1\n\n"@ + "RET\n"@
}

pub open spec fn undefined_function(name: Seq<char>) -> ExprErr {
    (ErrorKind::Name, "Undefined function "@ + name)
}

pub open spec fn too_many_labels() -> ExprErr {
    (ErrorKind::Unsupported, "Too many labels"@)
}

pub open spec fn untyped_argument() -> ExprErr {
    (ErrorKind::Unsupported, "Cannot infer the type of this argument"@)
}

/// The type a call argument is taken to have: `int` for a number, the
/// declared type of a variable.
pub open spec fn arg_type(e: ExprV, locals: Seq<LocalV>, params: Option<Seq<ParamV>>) -> Result<TypeV, ExprErr> {
    match e {
        ExprV::Number(_) => Ok(TypeV::Named("int"@)),
        ExprV::Ident(name) => match local_index(locals, name) {
            Some(i) => Ok(locals[i].1),
            None => match params {
                Some(ps) => match param_index(ps, name) {
                    Some(i) => Ok(ps[i].0),
                    None => Err(undefined_variable(name)),
                },
                None => Err(undefined_variable(name)),
            },
        },
        _ => Err(untyped_argument()),
    }
}

pub open spec fn arg_types(args: Seq<ExprV>, locals: Seq<LocalV>, params: Option<Seq<ParamV>>) -> Result<Seq<TypeV>, ExprErr>
    decreases args.len(),
{
    if args.len() == 0 {
        Ok(Seq::empty())
    } else {
        match arg_types(args.drop_last(), locals, params) {
            Ok(ts) => match arg_type(args.last(), locals, params) {
                Ok(t) => Ok(ts.push(t)),
                Err(x) => Err(x),
            },
            Err(x) => Err(x),
        }
    }
}

/// The code that pushes each argument, first to last.
pub open spec fn args_code(args: Seq<ExprV>, locals: Seq<LocalV>, params: Option<Seq<ParamV>>) -> Result<Seq<char>, ExprErr>
    decreases args.len(),
{
    if args.len() == 0 {
        Ok(Seq::empty())
    } else {
        match args_code(args.drop_last(), locals, params) {
            Ok(c) => match expr_code(args.last(), locals, params) {
                Ok(d) => Ok(c + d),
                Err(x) => Err(x),
            },
            Err(x) => Err(x),
        }
    }
}

/// The parameter types of a parameter list.
pub open spec fn param_types(ps: Seq<ParamV>) -> Seq<TypeV> {
    ps.map_values(|p: ParamV| p.0)
}

/// Emission of one statement from state `s`, inside a function with
/// parameters `params` (if any).
#[verifier::opaque]
pub open spec fn emit_stmt(st: StmtV, dbg: bool, params: Option<Seq<ParamV>>, s: EmitState) -> Result<
    (Seq<char>, EmitState),
    EmitErr,
>
    decreases st, 1nat,
{
    let pre = debug_line(dbg, st);
    match st.node {
        NodeV::VarDefine(t, id, init) => {
            let s2 = EmitState { locals: s.locals.push((id, t)), funcs: s.funcs, label: s.label };
            match init {
                Some(e) => match expr_code(e, s.locals, params) {
                    Ok(c) => Ok((pre + c, s2)),
                    Err(x) => Err(at(x, st.line)),
                },
                None => Ok((pre + "DEC SP SP\n\n"@, s2)),
            }
        },
        NodeV::VarAssign(id, e) => match expr_code(e, s.locals, params) {
            Ok(c) => match store_var(s.locals, params, id) {
                Some(t) => Ok((pre + c + "POP R2\n"@ + t, s)),
                None => Err(at(undefined_variable(id), st.line)),
            },
            Err(x) => Err(at(x, st.line)),
        },
        NodeV::Function(ret, name, ps, body, link) => match emit_stmts(
            body,
            dbg,
            Some(ps),
            EmitState { locals: Seq::empty(), funcs: s.funcs, label: s.label },
        ) {
            Ok((code, s2)) => match add_result(
                s2.funcs,
                LinkerFuncV { ret, name, args: param_types(ps), linkage: link, code },
                false,
            ) {
                Ok(fs) => Ok((Seq::empty(), EmitState { locals: s.locals, funcs: fs, label: s2.label })),
                Err(m) => Err(EmitErr { kind: ErrorKind::Overload, message: m, line: st.line }),
            },
            Err(x) => Err(x),
        },
        NodeV::Extern(name, ps, ret) => match add_result(
            s.funcs,
            LinkerFuncV { ret, name, args: param_types(ps), linkage: Linkage::External, code: Seq::empty() },
            false,
        ) {
            Ok(fs) => Ok((Seq::empty(), EmitState { locals: s.locals, funcs: fs, label: s.label })),
            Err(m) => Err(EmitErr { kind: ErrorKind::Overload, message: m, line: st.line }),
        },
        NodeV::FuncCall(name, args) => match arg_types(args, s.locals, params) {
            Ok(ts) => match lookup(s.funcs, name, ts) {
                Some(i) => match args_code(args, s.locals, params) {
                    Ok(c) => Ok((pre + c + "CAL ."@ + sig_of(s.funcs[i]) + "\n"@ + release(args.len()), s)),
                    Err(x) => Err(at(x, st.line)),
                },
                None => Err(at(undefined_function(name), st.line)),
            },
            Err(x) => Err(at(x, st.line)),
        },
        NodeV::If(_, _) => emit_if(st, dbg, params, s),
        NodeV::While(_, _) => emit_while(st, dbg, params, s),
        NodeV::Return(e) => match e {
            Some(x) => match expr_code(x, s.locals, params) {
                Ok(c) => Ok((c + exit_seq(), s)),
                Err(x) => Err(at(x, st.line)),
            },
            None => Ok((exit_seq(), s)),
        },
        NodeV::Import(_) => Ok((Seq::empty(), s)),
        NodeV::InlineURCL(t) => Ok(
            (
                (if dbg {
                    "// Inline URCL @ line "@ + dec_nat(st.line) + "\n"@
                } else {
                    Seq::empty()
                }) + t + "\n\n"@,
                s,
            ),
        ),
    }
}

/// Emission of an `if` statement: the condition, a branch past the body when
/// it is zero, the body in a frame of its own.
#[verifier::opaque]
pub open spec fn emit_if(st: StmtV, dbg: bool, params: Option<Seq<ParamV>>, s: EmitState) -> Result<
    (Seq<char>, EmitState),
    EmitErr,
>
    decreases st, 0nat,
{
    let pre = debug_line(dbg, st);
    match st.node {
        NodeV::If(cond, body) => if s.label >= u64::MAX {
        Err(at(too_many_labels(), st.line))
    } else {
        match expr_code(cond, s.locals, params) {
            Ok(c) => match emit_stmts(
                body,
                dbg,
                params,
                EmitState { locals: s.locals, funcs: s.funcs, label: s.label + 1 },
            ) {
                Ok((b, s2)) => Ok(
                    (
                        pre + c + "POP R2\n"@ + "BRZ .if_end_"@ + dec_nat(s.label) + " R2\n"@ + b + release(
                            (s2.locals.len() - s.locals.len()) as nat,
                        ) + ".if_end_"@ + dec_nat(s.label) + "\n"@,
                        EmitState { locals: s.locals, funcs: s2.funcs, label: s2.label },
                    ),
                ),
                Err(x) => Err(x),
            },
            Err(x) => Err(at(x, st.line)),
        }
    },
        _ => Err(at(too_many_labels(), st.line)),
    }
}

/// Emission of an `while` statement: the condition, a branch past the body when
/// it is zero, the body in a frame of its own, and a jump back.
#[verifier::opaque]
pub open spec fn emit_while(st: StmtV, dbg: bool, params: Option<Seq<ParamV>>, s: EmitState) -> Result<
    (Seq<char>, EmitState),
    EmitErr,
>
    decreases st, 0nat,
{
    let pre = debug_line(dbg, st);
    match st.node {
        NodeV::While(cond, body) => if s.label >= u64::MAX {
        Err(at(too_many_labels(), st.line))
    } else {
        match expr_code(cond, s.locals, params) {
            Ok(c) => match emit_stmts(
                body,
                dbg,
                params,
                EmitState { locals: s.locals, funcs: s.funcs, label: s.label + 1 },
            ) {
                Ok((b, s2)) => Ok(
                    (
                        pre + while_head(s.label) + c + while_branch(s.label) + b + while_tail(
                            (s2.locals.len() - s.locals.len()) as nat,
                            s.label,
                        ),
                        EmitState { locals: s.locals, funcs: s2.funcs, label: s2.label },
                    ),
                ),
                Err(x) => Err(x),
            },
            Err(x) => Err(at(x, st.line)),
        }
    },
        _ => Err(at(too_many_labels(), st.line)),
    }
}

proof fn lemma_emit_stmt_if(st: StmtV, dbg: bool, params: Option<Seq<ParamV>>, s: EmitState)
    requires
        st.node is If,
    ensures
        emit_stmt(st, dbg, params, s) == emit_if(st, dbg, params, s),
{
    reveal(emit_stmt);
    reveal(emit_if);
    reveal(emit_while);
}

proof fn lemma_emit_stmt_while(st: StmtV, dbg: bool, params: Option<Seq<ParamV>>, s: EmitState)
    requires
        st.node is While,
    ensures
        emit_stmt(st, dbg, params, s) == emit_while(st, dbg, params, s),
{
    reveal(emit_stmt);
    reveal(emit_if);
    reveal(emit_while);
}

/// The label that starts a loop.
pub open spec fn while_head(k: nat) -> Seq<char> {
    ".while_start_"@ + dec_nat(k) + "\n"@
}

/// The test that leaves a loop when its condition is zero.
pub open spec fn while_branch(k: nat) -> Seq<char> {
    "POP R2\n"@ + "BRZ .while_end_"@ + dec_nat(k) + " R2\n"@
}

/// The end of a loop: release the body's locals, jump back, and the exit label.
pub open spec fn while_tail(n: nat, k: nat) -> Seq<char> {
    release(n) + "JMP .while_start_"@ + dec_nat(k) + "\n"@ + ".while_end_"@ + dec_nat(k) + "\n"@
}

fn push_while_head(out: &mut String, k: u64)
    ensures
        final(out)@ == old(out)@ + while_head(k as nat),
{
    push_str(out, ".while_start_");
    push_nat(out, k as u128);
    push_str(out, "\n");
    assert(final(out)@ =~= old(out)@ + while_head(k as nat));
}

fn push_while_branch(out: &mut String, k: u64)
    ensures
        final(out)@ == old(out)@ + while_branch(k as nat),
{
    push_str(out, "POP R2\n");
    push_str(out, "BRZ .while_end_");
    push_nat(out, k as u128);
    push_str(out, " R2\n");
    assert(final(out)@ =~= old(out)@ + while_branch(k as nat));
}

fn push_while_tail(out: &mut String, n: usize, k: u64)
    ensures
        final(out)@ == old(out)@ + while_tail(n as nat, k as nat),
{
    push_release(out, n);
    push_str(out, "JMP .while_start_");
    push_nat(out, k as u128);
    push_str(out, "\n");
    push_str(out, ".while_end_");
    push_nat(out, k as u128);
    push_str(out, "\n");
    assert(final(out)@ =~= old(out)@ + while_tail(n as nat, k as nat));
}

/// Emission of a statement list, first to last; the first error ends it.
pub open spec fn emit_stmts(ss: Seq<StmtV>, dbg: bool, params: Option<Seq<ParamV>>, s: EmitState) -> Result<
    (Seq<char>, EmitState),
    EmitErr,
>
    decreases ss, 0nat,
{
    if ss.len() == 0 {
        Ok((Seq::empty(), s))
    } else {
        match emit_stmts(ss.drop_last(), dbg, params, s) {
            Ok((c1, s1)) => match emit_stmt(ss.last(), dbg, params, s1) {
                Ok((c2, s2)) => Ok((c1 + c2, s2)),
                Err(x) => Err(x),
            },
            Err(x) => Err(x),
        }
    }
}

/// The program prologue: machine directives, then a call of the entry point.
pub open spec fn prologue() -> Seq<char> {
    "BITS == 32\n"@ + "MINHEAP 4096\n"@ + "MINSTACK 1024\n"@ + "CAL .main\n"@ + "HLT\n\n"@
}

/// One function's block: its label, the entry sequence, its code and the
/// exit sequence.
pub open spec fn func_block(f: LinkerFuncV) -> Seq<char> {
    "."@ + sig_of(f) + "\n"@ + "PSH R1\n"@ + "MOV R1 SP\n\n"@ + f.code + "\n"@ + exit_seq()
}

/// The blocks of every function with a body, in registration order.
pub open spec fn func_blocks(fs: Seq<LinkerFuncV>) -> Seq<char>
    decreases fs.len(),
{
    if fs.len() == 0 {
        Seq::empty()
    } else if fs.last().linkage == Linkage::External {
        func_blocks(fs.drop_last())
    } else {
        func_blocks(fs.drop_last()) + func_block(fs.last())
    }
}

/// Compilation of a whole program against the registered functions `fs`:
/// the text, and the functions registered afterwards.
pub open spec fn emit_program(ss: Seq<StmtV>, args: AstCompileArgs, fs: Seq<LinkerFuncV>) -> Result<
    (Seq<char>, Seq<LinkerFuncV>),
    EmitErr,
> {
    match emit_stmts(ss, args.debug_symbols, None, EmitState { locals: Seq::empty(), funcs: fs, label: 0 }) {
        Ok((body, s)) => {
            let tail = if args.pop_frame {
                release(s.locals.len())
            } else {
                Seq::empty()
            };
            if args.standalone {
                Ok((body + tail, s.funcs))
            } else {
                Ok((prologue() + body + tail + func_blocks(s.funcs), s.funcs))
            }
        },
        Err(x) => Err(x),
    }
}


/// A statement's locals only ever extend the locals before it.
proof fn lemma_stmt_extends(st: StmtV, dbg: bool, params: Option<Seq<ParamV>>, s: EmitState)
    requires
        emit_stmt(st, dbg, params, s) is Ok,
    ensures
        emit_stmt(st, dbg, params, s)->Ok_0.1.locals.len() >= s.locals.len(),
        emit_stmt(st, dbg, params, s)->Ok_0.1.locals.subrange(0, s.locals.len() as int) == s.locals,
    decreases st, 1nat,
{
    reveal(emit_stmt);
    reveal(emit_if);
    reveal(emit_while);
    let s2 = emit_stmt(st, dbg, params, s)->Ok_0.1;
    match st.node {
        NodeV::VarDefine(t, id, init) => {
            assert(s2.locals.subrange(0, s.locals.len() as int) =~= s.locals);
        },
        _ => {
            assert(s2.locals.subrange(0, s.locals.len() as int) =~= s.locals);
        },
    }
}

/// One step of [`emit_stmts`].
proof fn lemma_emit_stmts_step(ss: Seq<StmtV>, dbg: bool, params: Option<Seq<ParamV>>, s: EmitState)
    requires
        ss.len() > 0,
    ensures
        emit_stmts(ss, dbg, params, s) == (match emit_stmts(ss.drop_last(), dbg, params, s) {
            Ok((c1, s1)) => match emit_stmt(ss.last(), dbg, params, s1) {
                Ok((c2, s2)) => Ok((c1 + c2, s2)),
                Err(x) => Err(x),
            },
            Err(x) => Err(x),
        }),
{
    reveal(emit_stmt);
    reveal(emit_if);
    reveal(emit_while);
    reveal_with_fuel(emit_stmts, 2);
}

proof fn lemma_stmts_extends(ss: Seq<StmtV>, dbg: bool, params: Option<Seq<ParamV>>, s: EmitState)
    requires
        emit_stmts(ss, dbg, params, s) is Ok,
    ensures
        emit_stmts(ss, dbg, params, s)->Ok_0.1.locals.len() >= s.locals.len(),
        emit_stmts(ss, dbg, params, s)->Ok_0.1.locals.subrange(0, s.locals.len() as int) == s.locals,
    decreases ss, 0nat,
{
    if ss.len() > 0 {
        lemma_emit_stmts_step(ss, dbg, params, s);
        let p = emit_stmts(ss.drop_last(), dbg, params, s);
        assert(p is Ok);
        lemma_stmts_extends(ss.drop_last(), dbg, params, s);
        let s1 = p->Ok_0.1;
        assert(emit_stmt(ss.last(), dbg, params, s1) is Ok);
        lemma_stmt_extends(ss.last(), dbg, params, s1);
        let s2 = emit_stmts(ss, dbg, params, s)->Ok_0.1;
        assert(s2.locals.subrange(0, s.locals.len() as int) =~= s1.locals.subrange(0, s.locals.len() as int));
    }
}

proof fn lemma_emit_stmts_err_extends(ss: Seq<StmtV>, i: int, dbg: bool, params: Option<Seq<ParamV>>, s: EmitState)
    requires
        0 <= i <= ss.len(),
        emit_stmts(ss.subrange(0, i), dbg, params, s) is Err,
    ensures
        emit_stmts(ss, dbg, params, s) == emit_stmts(ss.subrange(0, i), dbg, params, s),
    decreases ss.len() - i,
{
    if i < ss.len() {
        assert(ss.subrange(0, i + 1).drop_last() =~= ss.subrange(0, i));
        lemma_emit_stmts_err_extends(ss, i + 1, dbg, params, s);
    } else {
        assert(ss.subrange(0, i) =~= ss);
    }
}

proof fn lemma_arg_types_err_extends(a: Seq<ExprV>, i: int, locals: Seq<LocalV>, params: Option<Seq<ParamV>>)
    requires
        0 <= i <= a.len(),
        arg_types(a.subrange(0, i), locals, params) is Err,
    ensures
        arg_types(a, locals, params) == arg_types(a.subrange(0, i), locals, params),
    decreases a.len() - i,
{
    if i < a.len() {
        assert(a.subrange(0, i + 1).drop_last() =~= a.subrange(0, i));
        lemma_arg_types_err_extends(a, i + 1, locals, params);
    } else {
        assert(a.subrange(0, i) =~= a);
    }
}

proof fn lemma_args_code_err_extends(a: Seq<ExprV>, i: int, locals: Seq<LocalV>, params: Option<Seq<ParamV>>)
    requires
        0 <= i <= a.len(),
        args_code(a.subrange(0, i), locals, params) is Err,
    ensures
        args_code(a, locals, params) == args_code(a.subrange(0, i), locals, params),
    decreases a.len() - i,
{
    if i < a.len() {
        assert(a.subrange(0, i + 1).drop_last() =~= a.subrange(0, i));
        lemma_args_code_err_extends(a, i + 1, locals, params);
    } else {
        assert(a.subrange(0, i) =~= a);
    }
}

fn untyped_argument_err() -> (r: (ErrorKind, String))
    ensures
        err_view(r) == untyped_argument(),
{
    (ErrorKind::Unsupported, String::from_str("Cannot infer the type of this argument"))
}

fn to_compile_error(e: (ErrorKind, String), sym: &DebugSym) -> (r: CompileError)
    ensures
        is_emit_error(r, at(err_view(e), sym.lineno as nat)),
{
    CompileError::new(e.0, e.1, sym.lineno, 0, 0)
}

/// The type of one call argument (see [`arg_type`]).
fn arg_type_exec(e: &Expr, vars: &VarStack, params: Option<&Vec<(Type, String)>>) -> (res: Result<Type, (ErrorKind, String)>)
    ensures
        match arg_type(e@, vars.locals(), params_opt(params)) {
            Ok(t) => res is Ok && res->Ok_0@ == t,
            Err(x) => res is Err && err_view(res->Err_0) == x,
        },
{
    match e {
        Expr::Number(_) => {
            let t = Type::Named(String::from_str("int"));
            assert(t@ == TypeV::Named("int"@));
            assert(arg_type(e@, vars.locals(), params_opt(params)) == Ok::<TypeV, ExprErr>(t@));
            Ok(t)
        },
        Expr::Ident(name) => match vars.get_type(name) {
            Some(t) => {
                assert(e@ == ExprV::Ident(name@));
                assert(arg_type(e@, vars.locals(), params_opt(params)) == Ok::<TypeV, ExprErr>(t@));
                Ok(t)
            },
            None => match params {
                Some(ps) => {
                    proof {
                        lemma_param_index(crate::nodes::params_view(ps@), name@);
                    }
                    match find_param(ps, name) {
                        Some(i) => {
                            assert(e@ == ExprV::Ident(name@));
                            assert(crate::nodes::params_view(ps@)[i as int].0 == ps@[i as int].0@);
                            let t = ps[i].0.copy();
                            assert(arg_type(e@, vars.locals(), params_opt(params)) == Ok::<TypeV, ExprErr>(t@));
                            Ok(t)
                        },
                        None => Err(undefined_variable_err(name)),
                    }
                },
                None => Err(undefined_variable_err(name)),
            },
        },
        Expr::Str(_) => Err(untyped_argument_err()),
        Expr::BiOp { .. } => Err(untyped_argument_err()),
        Expr::Comp { .. } => Err(untyped_argument_err()),
        Expr::Call { .. } => Err(untyped_argument_err()),
    }
}

fn arg_types_exec(args: &Vec<Expr>, vars: &VarStack, params: Option<&Vec<(Type, String)>>) -> (res: Result<Vec<Type>, (ErrorKind, String)>)
    ensures
        match arg_types(crate::nodes::exprs_view(args@), vars.locals(), params_opt(params)) {
            Ok(ts) => res is Ok && types_view(res->Ok_0@) == ts,
            Err(x) => res is Err && err_view(res->Err_0) == x,
        },
{
    let ghost av = crate::nodes::exprs_view(args@);
    proof {
        crate::nodes::lemma_exprs_view_len(args@);
    }
    let mut out: Vec<Type> = Vec::new();
    let mut i: usize = 0;
    assert(types_view(out@) =~= Seq::<TypeV>::empty());
    while i < args.len()
        invariant
            i <= args.len(),
            av == crate::nodes::exprs_view(args@),
            av.len() == args.len(),
            arg_types(av.subrange(0, i as int), vars.locals(), params_opt(params)) == Ok::<Seq<TypeV>, ExprErr>(types_view(out@)),
        decreases args.len() - i,
    {
        proof {
            crate::nodes::lemma_exprs_view_index(args@, i as int);
            assert(av.subrange(0, i + 1).drop_last() =~= av.subrange(0, i as int));
        }
        match arg_type_exec(&args[i], vars, params) {
            Ok(t) => {
                let ghost before = out@;
                out.push(t);
                assert(types_view(out@) =~= types_view(before).push(
                    arg_type(av[i as int], vars.locals(), params_opt(params))->Ok_0,
                ));
            },
            Err(x) => {
                proof {
                    lemma_arg_types_err_extends(av, i as int + 1, vars.locals(), params_opt(params));
                }
                return Err(x);
            },
        }
        i = i + 1;
    }
    assert(av.subrange(0, args.len() as int) =~= av);
    Ok(out)
}


fn args_code_exec(args: &Vec<Expr>, vars: &VarStack, params: Option<&Vec<(Type, String)>>, out: &mut String) -> (res: Result<(), (ErrorKind, String)>)
    ensures
        match args_code(crate::nodes::exprs_view(args@), vars.locals(), params_opt(params)) {
            Ok(c) => res is Ok && final(out)@ == old(out)@ + c,
            Err(x) => res is Err && err_view(res->Err_0) == x,
        },
{
    let ghost av = crate::nodes::exprs_view(args@);
    let ghost base = out@;
    proof {
        crate::nodes::lemma_exprs_view_len(args@);
    }
    let mut i: usize = 0;
    assert(out@ =~= base + Seq::<char>::empty());
    while i < args.len()
        invariant
            i <= args.len(),
            av == crate::nodes::exprs_view(args@),
            av.len() == args.len(),
            args_code(av.subrange(0, i as int), vars.locals(), params_opt(params)) is Ok,
            out@ == base + args_code(av.subrange(0, i as int), vars.locals(), params_opt(params))->Ok_0,
        decreases args.len() - i,
    {
        proof {
            crate::nodes::lemma_exprs_view_index(args@, i as int);
            assert(av.subrange(0, i + 1).drop_last() =~= av.subrange(0, i as int));
        }
        let ghost before = out@;
        match compile_expr(&args[i], vars, params, out) {
            Ok(()) => {
                assert(out@ =~= base + args_code(av.subrange(0, i + 1), vars.locals(), params_opt(params))->Ok_0);
            },
            Err(x) => {
                proof {
                    lemma_args_code_err_extends(av, i + 1, vars.locals(), params_opt(params));
                }
                return Err(x);
            },
        }
        i = i + 1;
    }
    assert(av.subrange(0, args.len() as int) =~= av);
    Ok(())
}

fn param_types_exec(ps: &Vec<(Type, String)>) -> (r: Vec<Type>)
    ensures
        types_view(r@) == param_types(crate::nodes::params_view(ps@)),
{
    let mut r: Vec<Type> = Vec::new();
    let mut i: usize = 0;
    while i < ps.len()
        invariant
            i <= ps.len(),
            r.len() == i,
            forall|k: int| 0 <= k < i ==> (#[trigger] r@[k])@ == ps@[k].0@,
        decreases ps.len() - i,
    {
        r.push(ps[i].0.copy());
        i = i + 1;
    }
    assert(types_view(r@) =~= param_types(crate::nodes::params_view(ps@)));
    r
}

fn push_debug(out: &mut String, dbg: bool, sym: &DebugSym, node: &Node)
    ensures
        final(out)@ == old(out)@ + debug_line(dbg, StmtV { line: sym.lineno as nat, text: sym.val@, node: node@ }),
{
    if dbg {
        push_str(out, "// ");
        push_nat(out, sym.lineno as u128);
        push_str(out, ": ");
        push_str(out, sym.val.as_str());
        push_str(out, "\n");
    }
    assert(final(out)@ =~= old(out)@ + debug_line(dbg, StmtV { line: sym.lineno as nat, text: sym.val@, node: node@ }));
}

fn push_release(out: &mut String, n: usize)
    ensures
        final(out)@ == old(out)@ + release(n as nat),
{
    if n > 0 {
        push_str(out, "ADD SP SP ");
        push_nat(out, n as u128);
        push_str(out, "\n");
    }
    assert(final(out)@ =~= old(out)@ + release(n as nat));
}

fn push_exit(out: &mut String)
    ensures
        final(out)@ == old(out)@ + exit_seq(),
{
    push_str(out, "MOV SP R1\n");
    push_str(out, "POP R1\n\n");
    push_str(out, "RET\n");
    assert(final(out)@ =~= old(out)@ + exit_seq());
}

/// The view of a statement with its debug symbol.
pub open spec fn stmt_of(sym: DebugSym, node: Node) -> StmtV {
    StmtV { line: sym.lineno as nat, text: sym.val@, node: node@ }
}

/// The state the emitter starts a statement in.
pub open spec fn state_of(vars: VarStack, linker: Linker, label: u64) -> EmitState {
    EmitState { locals: vars.locals(), funcs: linker@, label: label as nat }
}

/// Registers a function, reporting a refusal against the statement `sym`.
fn register(linker: &mut Linker, f: &LinkerFunc, sym: &DebugSym) -> (res: Result<(), CompileError>)
    requires
        old(linker).wf(),
    ensures
        final(linker).wf(),
        match add_result(old(linker)@, f@, false) {
            Ok(fs) => res is Ok && final(linker)@ == fs,
            Err(m) => res is Err && is_emit_error(
                res->Err_0,
                EmitErr { kind: ErrorKind::Overload, message: m, line: sym.lineno as nat },
            ),
        },
{
    match linker.add_func(f, false) {
        Ok(()) => Ok(()),
        Err(e) => Err(CompileError::new(e.kind, e.message, sym.lineno, 0, 0)),
    }
}

/// Compiles a variable definition.
#[verifier::rlimit(50)]
fn compile_var_define(
    sym: &DebugSym,
    node: &Node,
    dbg: bool,
    params: Option<&Vec<(Type, String)>>,
    vars: &mut VarStack,
    linker: &mut Linker,
    label: &mut u64,
    out: &mut String,
) -> (res: Result<(), CompileError>)
    requires
        old(vars).wf(),
        old(linker).wf(),
        node is VarDefine,
    ensures
        final(vars).wf(),
        final(linker).wf(),
        match emit_stmt(stmt_of(*sym, *node), dbg, params_opt(params), state_of(*old(vars), *old(linker), *old(label))) {
            Ok((code, s2)) => res is Ok && final(out)@ == old(out)@ + code && final(vars).locals() == s2.locals
                && final(vars).marks() == old(vars).marks() && final(linker)@ == s2.funcs && *final(label) as nat
                == s2.label,
            Err(x) => res is Err && is_emit_error(res->Err_0, x),
        },
    decreases node, 1nat,
{
    reveal(emit_stmt);
    let ghost st = stmt_of(*sym, *node);
    let ghost s0 = state_of(*vars, *linker, *label);
    match node {
        Node::VarDefine { typ, ident, expr } => {
            push_debug(out, dbg, sym, node);
            match expr {
                Some(e) => {
                    if let Err(x) = compile_expr(e, vars, params, out) {
                        return Err(to_compile_error(x, sym));
                    }
                },
                None => push_str(out, "DEC SP SP\n\n"),
            }
            vars.push(copy_string(ident), typ);
            assert(out@ =~= old(out)@ + emit_stmt(st, dbg, params_opt(params), s0)->Ok_0.0);
            Ok(())
        },
        _ => {
            assert(false);
            Ok(())
        },
    }
}

/// Compiles an assignment.
#[verifier::rlimit(50)]
fn compile_var_assign(
    sym: &DebugSym,
    node: &Node,
    dbg: bool,
    params: Option<&Vec<(Type, String)>>,
    vars: &mut VarStack,
    linker: &mut Linker,
    label: &mut u64,
    out: &mut String,
) -> (res: Result<(), CompileError>)
    requires
        old(vars).wf(),
        old(linker).wf(),
        node is VarAssign,
    ensures
        final(vars).wf(),
        final(linker).wf(),
        match emit_stmt(stmt_of(*sym, *node), dbg, params_opt(params), state_of(*old(vars), *old(linker), *old(label))) {
            Ok((code, s2)) => res is Ok && final(out)@ == old(out)@ + code && final(vars).locals() == s2.locals
                && final(vars).marks() == old(vars).marks() && final(linker)@ == s2.funcs && *final(label) as nat
                == s2.label,
            Err(x) => res is Err && is_emit_error(res->Err_0, x),
        },
    decreases node, 1nat,
{
    reveal(emit_stmt);
    let ghost st = stmt_of(*sym, *node);
    let ghost s0 = state_of(*vars, *linker, *label);
    match node {
        Node::VarAssign { ident, expr } => {
            push_debug(out, dbg, sym, node);
            if let Err(x) = compile_expr(expr, vars, params, out) {
                return Err(to_compile_error(x, sym));
            }
            push_str(out, "POP R2\n");
            if !push_store(out, vars, params, ident) {
                return Err(to_compile_error(undefined_variable_err(ident), sym));
            }
            assert(out@ =~= old(out)@ + emit_stmt(st, dbg, params_opt(params), s0)->Ok_0.0);
            Ok(())
        },
        _ => {
            assert(false);
            Ok(())
        },
    }
}

/// Compiles a return.
#[verifier::rlimit(50)]
fn compile_return(
    sym: &DebugSym,
    node: &Node,
    dbg: bool,
    params: Option<&Vec<(Type, String)>>,
    vars: &mut VarStack,
    linker: &mut Linker,
    label: &mut u64,
    out: &mut String,
) -> (res: Result<(), CompileError>)
    requires
        old(vars).wf(),
        old(linker).wf(),
        node is Return,
    ensures
        final(vars).wf(),
        final(linker).wf(),
        match emit_stmt(stmt_of(*sym, *node), dbg, params_opt(params), state_of(*old(vars), *old(linker), *old(label))) {
            Ok((code, s2)) => res is Ok && final(out)@ == old(out)@ + code && final(vars).locals() == s2.locals
                && final(vars).marks() == old(vars).marks() && final(linker)@ == s2.funcs && *final(label) as nat
                == s2.label,
            Err(x) => res is Err && is_emit_error(res->Err_0, x),
        },
    decreases node, 1nat,
{
    reveal(emit_stmt);
    let ghost st = stmt_of(*sym, *node);
    let ghost s0 = state_of(*vars, *linker, *label);
    match node {
        Node::Return(e) => {
            match e {
                Some(x) => {
                    if let Err(y) = compile_expr(x, vars, params, out) {
                        return Err(to_compile_error(y, sym));
                    }
                },
                None => {},
            }
            push_exit(out);
            assert(out@ =~= old(out)@ + emit_stmt(st, dbg, params_opt(params), s0)->Ok_0.0);
            Ok(())
        },
        _ => {
            assert(false);
            Ok(())
        },
    }
}

/// Compiles an import, which emits nothing: imports are resolved before emission.
#[verifier::rlimit(50)]
fn compile_import(
    sym: &DebugSym,
    node: &Node,
    dbg: bool,
    params: Option<&Vec<(Type, String)>>,
    vars: &mut VarStack,
    linker: &mut Linker,
    label: &mut u64,
    out: &mut String,
) -> (res: Result<(), CompileError>)
    requires
        old(vars).wf(),
        old(linker).wf(),
        node is Import,
    ensures
        final(vars).wf(),
        final(linker).wf(),
        match emit_stmt(stmt_of(*sym, *node), dbg, params_opt(params), state_of(*old(vars), *old(linker), *old(label))) {
            Ok((code, s2)) => res is Ok && final(out)@ == old(out)@ + code && final(vars).locals() == s2.locals
                && final(vars).marks() == old(vars).marks() && final(linker)@ == s2.funcs && *final(label) as nat
                == s2.label,
            Err(x) => res is Err && is_emit_error(res->Err_0, x),
        },
    decreases node, 1nat,
{
    reveal(emit_stmt);
    let ghost st = stmt_of(*sym, *node);
    let ghost s0 = state_of(*vars, *linker, *label);
    match node {
        Node::Import(_) => {
            assert(out@ =~= old(out)@ + Seq::<char>::empty());
            Ok(())
        },
        _ => {
            assert(false);
            Ok(())
        },
    }
}

/// Compiles an inline URCL block.
#[verifier::rlimit(50)]
fn compile_inline(
    sym: &DebugSym,
    node: &Node,
    dbg: bool,
    params: Option<&Vec<(Type, String)>>,
    vars: &mut VarStack,
    linker: &mut Linker,
    label: &mut u64,
    out: &mut String,
) -> (res: Result<(), CompileError>)
    requires
        old(vars).wf(),
        old(linker).wf(),
        node is InlineURCL,
    ensures
        final(vars).wf(),
        final(linker).wf(),
        match emit_stmt(stmt_of(*sym, *node), dbg, params_opt(params), state_of(*old(vars), *old(linker), *old(label))) {
            Ok((code, s2)) => res is Ok && final(out)@ == old(out)@ + code && final(vars).locals() == s2.locals
                && final(vars).marks() == old(vars).marks() && final(linker)@ == s2.funcs && *final(label) as nat
                == s2.label,
            Err(x) => res is Err && is_emit_error(res->Err_0, x),
        },
    decreases node, 1nat,
{
    reveal(emit_stmt);
    let ghost st = stmt_of(*sym, *node);
    let ghost s0 = state_of(*vars, *linker, *label);
    match node {
        Node::InlineURCL(t) => {
            if dbg {
                push_str(out, "// Inline URCL @ line ");
                push_nat(out, sym.lineno as u128);
                push_str(out, "\n");
            }
            push_str(out, t.as_str());
            push_str(out, "\n\n");
            assert(out@ =~= old(out)@ + emit_stmt(st, dbg, params_opt(params), s0)->Ok_0.0);
            Ok(())
        },
        _ => {
            assert(false);
            Ok(())
        },
    }
}

/// Compiles an extern declaration, registering it.
#[verifier::rlimit(50)]
fn compile_extern(
    sym: &DebugSym,
    node: &Node,
    dbg: bool,
    params: Option<&Vec<(Type, String)>>,
    vars: &mut VarStack,
    linker: &mut Linker,
    label: &mut u64,
    out: &mut String,
) -> (res: Result<(), CompileError>)
    requires
        old(vars).wf(),
        old(linker).wf(),
        node is Extern,
    ensures
        final(vars).wf(),
        final(linker).wf(),
        match emit_stmt(stmt_of(*sym, *node), dbg, params_opt(params), state_of(*old(vars), *old(linker), *old(label))) {
            Ok((code, s2)) => res is Ok && final(out)@ == old(out)@ + code && final(vars).locals() == s2.locals
                && final(vars).marks() == old(vars).marks() && final(linker)@ == s2.funcs && *final(label) as nat
                == s2.label,
            Err(x) => res is Err && is_emit_error(res->Err_0, x),
        },
    decreases node, 1nat,
{
    reveal(emit_stmt);
    let ghost st = stmt_of(*sym, *node);
    let ghost s0 = state_of(*vars, *linker, *label);
    match node {
        Node::Extern { name, args, ret_type } => {
            let types = param_types_exec(args);
            let empty = String::new();
            let f = LinkerFunc::new(ret_type, name.as_str(), &types, Linkage::External, empty.as_str());
            register(linker, &f, sym)?;
            assert(out@ =~= old(out)@ + Seq::<char>::empty());
            Ok(())
        },
        _ => {
            assert(false);
            Ok(())
        },
    }
}

/// Compiles a call statement.
#[verifier::rlimit(100)]
fn compile_call(
    sym: &DebugSym,
    node: &Node,
    dbg: bool,
    params: Option<&Vec<(Type, String)>>,
    vars: &mut VarStack,
    linker: &mut Linker,
    label: &mut u64,
    out: &mut String,
) -> (res: Result<(), CompileError>)
    requires
        old(vars).wf(),
        old(linker).wf(),
        node is FuncCall,
    ensures
        final(vars).wf(),
        final(linker).wf(),
        match emit_stmt(stmt_of(*sym, *node), dbg, params_opt(params), state_of(*old(vars), *old(linker), *old(label))) {
            Ok((code, s2)) => res is Ok && final(out)@ == old(out)@ + code && final(vars).locals() == s2.locals
                && final(vars).marks() == old(vars).marks() && final(linker)@ == s2.funcs && *final(label) as nat
                == s2.label,
            Err(x) => res is Err && is_emit_error(res->Err_0, x),
        },
    decreases node, 1nat,
{
    reveal(emit_stmt);
    let ghost st = stmt_of(*sym, *node);
    let ghost s0 = state_of(*vars, *linker, *label);
    match node {
        Node::FuncCall { name, args } => {
            push_debug(out, dbg, sym, node);
            let types = match arg_types_exec(args, vars, params) {
                Ok(t) => t,
                Err(x) => return Err(to_compile_error(x, sym)),
            };
            match linker.get_func(name, &types) {
                Some(f) => {
                    if let Err(x) = args_code_exec(args, vars, params, out) {
                        return Err(to_compile_error(x, sym));
                    }
                    push_str(out, "CAL .");
                    let sig = f.get_signature();
                    push_str(out, sig.as_str());
                    push_str(out, "\n");
                    proof {
                        crate::nodes::lemma_exprs_view_len(args@);
                    }
                    push_release(out, args.len());
                    assert(out@ =~= old(out)@ + emit_stmt(st, dbg, params_opt(params), s0)->Ok_0.0);
                    Ok(())
                },
                None => {
                    let mut m = String::from_str("Undefined function ");
                    push_str(&mut m, name.as_str());
                    Err(CompileError::new(ErrorKind::Name, m, sym.lineno, 0, 0))
                },
            }
        },
        _ => {
            assert(false);
            Ok(())
        },
    }
}

/// Compiles a function definition, registering it.
#[verifier::rlimit(100)]
fn compile_function(
    sym: &DebugSym,
    node: &Node,
    dbg: bool,
    params: Option<&Vec<(Type, String)>>,
    vars: &mut VarStack,
    linker: &mut Linker,
    label: &mut u64,
    out: &mut String,
) -> (res: Result<(), CompileError>)
    requires
        old(vars).wf(),
        old(linker).wf(),
        node is Function,
    ensures
        final(vars).wf(),
        final(linker).wf(),
        match emit_stmt(stmt_of(*sym, *node), dbg, params_opt(params), state_of(*old(vars), *old(linker), *old(label))) {
            Ok((code, s2)) => res is Ok && final(out)@ == old(out)@ + code && final(vars).locals() == s2.locals
                && final(vars).marks() == old(vars).marks() && final(linker)@ == s2.funcs && *final(label) as nat
                == s2.label,
            Err(x) => res is Err && is_emit_error(res->Err_0, x),
        },
    decreases node, 1nat,
{
    reveal(emit_stmt);
    let ghost st = stmt_of(*sym, *node);
    let ghost s0 = state_of(*vars, *linker, *label);
    match node {
        Node::Function { ret_type, name, args, body, linkage } => {
            let mut bvars = VarStack::new();
            let mut code = String::new();
            proof {
                assert(decreases_to!(*node => node->Function_body));
            }
            compile_stmts(&body.statements, dbg, Some(args), &mut bvars, linker, label, &mut code)?;
            let types = param_types_exec(args);
            let f = LinkerFunc::new(ret_type, name.as_str(), &types, *linkage, code.as_str());
            register(linker, &f, sym)?;
            assert(out@ =~= old(out)@ + Seq::<char>::empty());
            Ok(())
        },
        _ => {
            assert(false);
            Ok(())
        },
    }
}

/// Compiles an `if` statement.
#[verifier::rlimit(100)]
fn compile_if(
    sym: &DebugSym,
    node: &Node,
    dbg: bool,
    params: Option<&Vec<(Type, String)>>,
    vars: &mut VarStack,
    linker: &mut Linker,
    label: &mut u64,
    out: &mut String,
) -> (res: Result<(), CompileError>)
    requires
        old(vars).wf(),
        old(linker).wf(),
        node is If,
    ensures
        final(vars).wf(),
        final(linker).wf(),
        match emit_stmt(stmt_of(*sym, *node), dbg, params_opt(params), state_of(*old(vars), *old(linker), *old(label))) {
            Ok((code, s2)) => res is Ok && final(out)@ == old(out)@ + code && final(vars).locals() == s2.locals
                && final(vars).marks() == old(vars).marks() && final(linker)@ == s2.funcs && *final(label) as nat
                == s2.label,
            Err(x) => res is Err && is_emit_error(res->Err_0, x),
        },
    decreases node, 1nat,
{
    proof {
        lemma_emit_stmt_if(stmt_of(*sym, *node), dbg, params_opt(params), state_of(*vars, *linker, *label));
    }
    reveal(emit_if);
    let ghost st = stmt_of(*sym, *node);
    let ghost s0 = state_of(*vars, *linker, *label);
    match node {
        Node::If { cond, body } => {
            if *label == u64::MAX {
                return Err(CompileError::new(ErrorKind::Unsupported, String::from_str("Too many labels"), sym.lineno, 0, 0));
            }
            let k = *label;
            push_debug(out, dbg, sym, node);
            if let Err(x) = compile_expr(cond, vars, params, out) {
                return Err(to_compile_error(x, sym));
            }
            push_str(out, "POP R2\n");
            push_str(out, "BRZ .if_end_");
            push_nat(out, k as u128);
            push_str(out, " R2\n");
            *label = k + 1;
            let ghost mid = out@;
            vars.push_frame();
            proof {
                assert(decreases_to!(*node => node->If_body));
            }
            compile_stmts(&body.statements, dbg, params, vars, linker, label, out)?;
            proof {
                lemma_stmts_extends(stmts_view_of(*body), dbg, params_opt(params), EmitState { locals: s0.locals, funcs: s0.funcs, label: s0.label + 1 });
            }
            let n = vars.pop_frame();
            push_release(out, n);
            push_str(out, ".if_end_");
            push_nat(out, k as u128);
            push_str(out, "\n");
            assert(out@ =~= old(out)@ + emit_stmt(st, dbg, params_opt(params), s0)->Ok_0.0);
            Ok(())
        },
        _ => {
            assert(false);
            Ok(())
        },
    }
}

/// Compiles a `while` statement.
#[verifier::rlimit(100)]
fn compile_while(
    sym: &DebugSym,
    node: &Node,
    dbg: bool,
    params: Option<&Vec<(Type, String)>>,
    vars: &mut VarStack,
    linker: &mut Linker,
    label: &mut u64,
    out: &mut String,
) -> (res: Result<(), CompileError>)
    requires
        old(vars).wf(),
        old(linker).wf(),
        node is While,
    ensures
        final(vars).wf(),
        final(linker).wf(),
        match emit_stmt(stmt_of(*sym, *node), dbg, params_opt(params), state_of(*old(vars), *old(linker), *old(label))) {
            Ok((code, s2)) => res is Ok && final(out)@ == old(out)@ + code && final(vars).locals() == s2.locals
                && final(vars).marks() == old(vars).marks() && final(linker)@ == s2.funcs && *final(label) as nat
                == s2.label,
            Err(x) => res is Err && is_emit_error(res->Err_0, x),
        },
    decreases node, 1nat,
{
    proof {
        lemma_emit_stmt_while(stmt_of(*sym, *node), dbg, params_opt(params), state_of(*vars, *linker, *label));
    }
    reveal(emit_while);
    let ghost st = stmt_of(*sym, *node);
    let ghost s0 = state_of(*vars, *linker, *label);
    match node {
        Node::While { cond, body } => {
            if *label == u64::MAX {
                return Err(CompileError::new(ErrorKind::Unsupported, String::from_str("Too many labels"), sym.lineno, 0, 0));
            }
            let k = *label;
            push_debug(out, dbg, sym, node);
            push_while_head(out, k);
            let ghost o1 = out@;
            if let Err(x) = compile_expr(cond, vars, params, out) {
                return Err(to_compile_error(x, sym));
            }
            let ghost o2 = out@;
            push_while_branch(out, k);
            let ghost o3 = out@;
            *label = k + 1;
            vars.push_frame();
            proof {
                assert(decreases_to!(*node => node->While_body));
            }
            compile_stmts(&body.statements, dbg, params, vars, linker, label, out)?;
            proof {
                lemma_stmts_extends(stmts_view_of(*body), dbg, params_opt(params), EmitState { locals: s0.locals, funcs: s0.funcs, label: s0.label + 1 });
            }
            let ghost o4 = out@;
            let n = vars.pop_frame();
            push_while_tail(out, n, k);
            proof {
                let b = o4.subrange(o3.len() as int, o4.len() as int);
                assert(o4 =~= o3 + b);
                assert(out@ =~= old(out)@ + emit_stmt(st, dbg, params_opt(params), s0)->Ok_0.0);
            }
            Ok(())
        },
        _ => {
            assert(false);
            Ok(())
        },
    }
}

/// Compiles one statement (see [`emit_stmt`]).
fn compile_stmt(
    sym: &DebugSym,
    node: &Node,
    dbg: bool,
    params: Option<&Vec<(Type, String)>>,
    vars: &mut VarStack,
    linker: &mut Linker,
    label: &mut u64,
    out: &mut String,
) -> (res: Result<(), CompileError>)
    requires
        old(vars).wf(),
        old(linker).wf(),
            ensures
        final(vars).wf(),
        final(linker).wf(),
        match emit_stmt(stmt_of(*sym, *node), dbg, params_opt(params), state_of(*old(vars), *old(linker), *old(label))) {
            Ok((code, s2)) => res is Ok && final(out)@ == old(out)@ + code && final(vars).locals() == s2.locals
                && final(vars).marks() == old(vars).marks() && final(linker)@ == s2.funcs && *final(label) as nat
                == s2.label,
            Err(x) => res is Err && is_emit_error(res->Err_0, x),
        },
    decreases node, 2nat,
{
    match node {
        Node::VarDefine { .. } => compile_var_define(sym, node, dbg, params, vars, linker, label, out),
        Node::VarAssign { .. } => compile_var_assign(sym, node, dbg, params, vars, linker, label, out),
        Node::Function { .. } => compile_function(sym, node, dbg, params, vars, linker, label, out),
        Node::Extern { .. } => compile_extern(sym, node, dbg, params, vars, linker, label, out),
        Node::FuncCall { .. } => compile_call(sym, node, dbg, params, vars, linker, label, out),
        Node::If { .. } => compile_if(sym, node, dbg, params, vars, linker, label, out),
        Node::While { .. } => compile_while(sym, node, dbg, params, vars, linker, label, out),
        Node::Return(..) => compile_return(sym, node, dbg, params, vars, linker, label, out),
        Node::Import(..) => compile_import(sym, node, dbg, params, vars, linker, label, out),
        Node::InlineURCL(..) => compile_inline(sym, node, dbg, params, vars, linker, label, out),
    }
}

/// The view of a program body.
pub open spec fn stmts_view_of(p: Program) -> Seq<StmtV> {
    crate::nodes::stmts_view(p.statements@)
}

/// Compiles a statement list (see [`emit_stmts`]).
fn compile_stmts(
    stmts: &Vec<(DebugSym, Node)>,
    dbg: bool,
    params: Option<&Vec<(Type, String)>>,
    vars: &mut VarStack,
    linker: &mut Linker,
    label: &mut u64,
    out: &mut String,
) -> (res: Result<(), CompileError>)
    requires
        old(vars).wf(),
        old(linker).wf(),
    ensures
        final(vars).wf(),
        final(linker).wf(),
        match emit_stmts(crate::nodes::stmts_view(stmts@), dbg, params_opt(params), state_of(*old(vars), *old(linker), *old(label))) {
            Ok((code, s2)) => res is Ok && final(out)@ == old(out)@ + code && final(vars).locals() == s2.locals
                && final(vars).marks() == old(vars).marks() && final(linker)@ == s2.funcs && *final(label) as nat
                == s2.label,
            Err(x) => res is Err && is_emit_error(res->Err_0, x),
        },
    decreases stmts, 0nat,
{
    let ghost sv = crate::nodes::stmts_view(stmts@);
    let ghost s0 = state_of(*vars, *linker, *label);
    let ghost base = out@;
    let ghost marks0 = vars.marks();
    proof {
        lemma_stmts_view_len(stmts@);
    }
    let mut i: usize = 0;
    assert(out@ =~= base + Seq::<char>::empty());
    while i < stmts.len()
        invariant
            i <= stmts.len(),
            sv == crate::nodes::stmts_view(stmts@),
            sv.len() == stmts.len(),
            vars.wf(),
            linker.wf(),
            vars.marks() == marks0,
            marks0 == old(vars).marks(),
            s0 == state_of(*old(vars), *old(linker), *old(label)),
            base == old(out)@,
            emit_stmts(sv.subrange(0, i as int), dbg, params_opt(params), s0) is Ok,
            out@ == base + emit_stmts(sv.subrange(0, i as int), dbg, params_opt(params), s0)->Ok_0.0,
            state_of(*vars, *linker, *label) == emit_stmts(sv.subrange(0, i as int), dbg, params_opt(params), s0)->Ok_0.1,
        decreases stmts.len() - i,
    {
        proof {
            lemma_stmts_view_index(stmts@, i as int);
            assert(sv.subrange(0, i + 1).drop_last() =~= sv.subrange(0, i as int));
            assert(decreases_to!(*stmts => stmts@));
            assert(decreases_to!(stmts@ => stmts@[i as int]));
            assert(decreases_to!(stmts@[i as int] => stmts@[i as int].1));
        }
        match compile_stmt(&stmts[i].0, &stmts[i].1, dbg, params, vars, linker, label, out) {
            Ok(()) => {
                proof {
                    let pre = sv.subrange(0, i + 1);
                    lemma_emit_stmts_step(pre, dbg, params_opt(params), s0);
                    assert(pre.last() == sv[i as int]);
                    assert(sv[i as int] == stmt_of(stmts@[i as int].0, stmts@[i as int].1));
                }
                assert(out@ =~= base + emit_stmts(sv.subrange(0, i + 1), dbg, params_opt(params), s0)->Ok_0.0);
            },
            Err(x) => {
                proof {
                    assert(sv[i as int] == stmt_of(stmts@[i as int].0, stmts@[i as int].1));
                    assert(sv.subrange(0, i + 1).last() == sv[i as int]);
                    lemma_emit_stmts_step(sv.subrange(0, i + 1), dbg, params_opt(params), s0);
                    assert(emit_stmts(sv.subrange(0, i + 1), dbg, params_opt(params), s0) is Err);
                    lemma_emit_stmts_err_extends(sv, i + 1, dbg, params_opt(params), s0);
                }
                return Err(x);
            },
        }
        i = i + 1;
    }
    assert(sv.subrange(0, stmts.len() as int) =~= sv);
    Ok(())
}

fn push_prologue(out: &mut String)
    ensures
        final(out)@ == old(out)@ + prologue(),
{
    push_str(out, "BITS == 32\n");
    push_str(out, "MINHEAP 4096\n");
    push_str(out, "MINSTACK 1024\n");
    push_str(out, "CAL .main\n");
    push_str(out, "HLT\n\n");
    assert(final(out)@ =~= old(out)@ + prologue());
}

/// Appends the block of every function with a body (see [`func_blocks`]).
pub fn push_func_blocks(out: &mut String, linker: &Linker)
    ensures
        final(out)@ == old(out)@ + func_blocks(linker@),
{
    let funcs = linker.get_funcs();
    let ghost fv = linker@;
    let ghost base = out@;
    let mut i: usize = 0;
    assert(out@ =~= base + func_blocks(fv.subrange(0, 0)));
    while i < funcs.len()
        invariant
            i <= funcs.len(),
            funcs@.map_values(|f: LinkerFunc| f@) == fv,
            out@ == base + func_blocks(fv.subrange(0, i as int)),
        decreases funcs.len() - i,
    {
        let f = &funcs[i];
        proof {
            assert(fv.subrange(0, i + 1).drop_last() =~= fv.subrange(0, i as int));
            assert(fv[i as int] == f@);
        }
        if f.linkage() != Linkage::External {
            push_str(out, ".");
            let sig = f.get_signature();
            push_str(out, sig.as_str());
            push_str(out, "\n");
            push_str(out, "PSH R1\n");
            push_str(out, "MOV R1 SP\n\n");
            push_str(out, f.code().as_str());
            push_str(out, "\n");
            push_exit(out);
            assert(out@ =~= base + func_blocks(fv.subrange(0, i + 1)));
        }
        i = i + 1;
    }
    assert(fv.subrange(0, funcs.len() as int) =~= fv);
}

/// Compiles a program (see [`emit_program`]). Functions it defines are
/// registered in `linker`; unless `standalone` is set, the text holds the
/// program prologue, the program's own code, and then the block of every
/// registered function with a body.
pub fn compile_ast(prog: &Program, args: AstCompileArgs, linker: &mut Linker) -> (res: Result<String, CompileError>)
    requires
        old(linker).wf(),
    ensures
        final(linker).wf(),
        match emit_program(prog@, args, old(linker)@) {
            Ok((code, fs)) => res is Ok && res->Ok_0@ == code && final(linker)@ == fs,
            Err(x) => res is Err && is_emit_error(res->Err_0, x),
        },
{
    let mut vars = VarStack::new();
    let mut label: u64 = 0;
    let mut body = String::new();
    compile_stmts(&prog.statements, args.debug_symbols, None, &mut vars, linker, &mut label, &mut body)?;
    let mut out = String::new();
    if !args.standalone {
        push_prologue(&mut out);
    }
    push_str(&mut out, body.as_str());
    if args.pop_frame {
        let n = vars.len();
        push_release(&mut out, n);
    }
    if !args.standalone {
        push_func_blocks(&mut out, linker);
    }
    assert(out@ =~= emit_program(prog@, args, old(linker)@)->Ok_0.0);
    Ok(out)
}


/// A function with an empty body emits nothing where it is defined and
/// registers empty code, so its block is the label, the entry sequence and
/// straight away the exit sequence, with nothing pushed or popped between.
pub proof fn law_empty_function(st: StmtV, dbg: bool, params: Option<Seq<ParamV>>, s: EmitState)
    requires
        st.node is Function,
        st.node->Function_3.len() == 0,
        emit_stmt(st, dbg, params, s) is Ok,
    ensures
        emit_stmt(st, dbg, params, s)->Ok_0.0 == Seq::<char>::empty(),
        ({
            let f = LinkerFuncV {
                ret: st.node->Function_0,
                name: st.node->Function_1,
                args: param_types(st.node->Function_2),
                linkage: st.node->Function_4,
                code: Seq::empty(),
            };
            &&& add_result(s.funcs, f, false) is Ok
            &&& emit_stmt(st, dbg, params, s)->Ok_0.1.funcs == add_result(s.funcs, f, false)->Ok_0
            &&& func_block(f) == "."@ + sig_of(f) + "\n"@ + "PSH R1\n"@ + "MOV R1 SP\n\n"@ + "\n"@ + exit_seq()
        }),
{
    reveal(emit_stmt);
    let body = st.node->Function_3;
    assert(emit_stmts(body, dbg, Some(st.node->Function_2), EmitState { locals: Seq::empty(), funcs: s.funcs, label: s.label })
        == Ok::<(Seq<char>, EmitState), EmitErr>((Seq::empty(), EmitState { locals: Seq::empty(), funcs: s.funcs, label: s.label })));
    let f = LinkerFuncV {
        ret: st.node->Function_0,
        name: st.node->Function_1,
        args: param_types(st.node->Function_2),
        linkage: st.node->Function_4,
        code: Seq::empty(),
    };
    assert(func_block(f) =~= "."@ + sig_of(f) + "\n"@ + "PSH R1\n"@ + "MOV R1 SP\n\n"@ + "\n"@ + exit_seq());
}

} // verus!
