//! The meaning of the instruction queue that expression lowering emits:
//! a structured form of the instructions, the text each renders to, and an
//! in-order evaluation over a register file.
use vstd::prelude::*;
use crate::emitter::{comp_code, expr_code, imm, load_var, lower, op_code, operand, reg, LocalV, ParamV};
use crate::nodes::{Comparison, ExprV, Operation};
use crate::text::dec_nat;

verus! {

/// An operand: an immediate or a register.
pub enum Src {
    Imm(nat),
    Reg(nat),
}

/// One queued instruction.
pub enum Instr {
    /// Load a variable into a register.
    Load(nat, Seq<char>),
    /// An arithmetic operator into a register.
    Arith(Operation, nat, Src, Src),
    /// A comparison into a register, then masked to 0 or 1.
    Compare(Comparison, nat, Src, Src),
}

pub open spec fn src_text(s: Src) -> Seq<char> {
    match s {
        Src::Imm(n) => dec_nat(n),
        Src::Reg(k) => reg(k),
    }
}

/// The text of one instruction.
pub open spec fn render_instr(i: Instr, locals: Seq<LocalV>, params: Option<Seq<ParamV>>) -> Seq<char> {
    match i {
        Instr::Load(k, name) => match load_var(k, locals, params, name) {
            Some(t) => t,
            None => Seq::empty(),
        },
        Instr::Arith(op, k, a, b) => op_code(op) + " "@ + reg(k) + " "@ + src_text(a) + " "@ + src_text(b) + "\n"@,
        Instr::Compare(c, k, a, b) => comp_code(c) + " "@ + reg(k) + " "@ + src_text(a) + " "@ + src_text(b) + "\n"@
            + "AND "@ + reg(k) + " "@ + reg(k) + " 1\n"@,
    }
}

/// The text of a sequence of instructions, in order.
pub open spec fn render(is: Seq<Instr>, locals: Seq<LocalV>, params: Option<Seq<ParamV>>) -> Seq<char>
    decreases is.len(),
{
    if is.len() == 0 {
        Seq::empty()
    } else {
        render(is.drop_last(), locals, params) + render_instr(is.last(), locals, params)
    }
}

/// An operand's instructions, its source, and the last register claimed
/// (see `operand`).
pub open spec fn ir_operand(x: ExprV, c: nat, locals: Seq<LocalV>, params: Option<Seq<ParamV>>) -> Option<
    (Seq<Instr>, Src, nat),
>
    decreases x, 1nat,
{
    match x {
        ExprV::Number(n) => Some((Seq::empty(), Src::Imm(imm(n)), c)),
        ExprV::Ident(name) => if c + 1 > u64::MAX || load_var((c + 1) as nat, locals, params, name) is None {
            None
        } else {
            Some((seq![Instr::Load((c + 1) as nat, name)], Src::Reg((c + 1) as nat), (c + 1) as nat))
        },
        ExprV::BiOp(_, _, _) | ExprV::Comp(_, _, _) => if c + 1 > u64::MAX {
            None
        } else {
            match ir_lower(x, (c + 1) as nat, locals, params) {
                Some((q, root)) => Some((q.push(root), Src::Reg((c + 1) as nat), (c + 1) as nat)),
                None => None,
            }
        },
        _ => None,
    }
}

/// An operator node's queued instructions and its own instruction (see `lower`).
pub open spec fn ir_lower(e: ExprV, k: nat, locals: Seq<LocalV>, params: Option<Seq<ParamV>>) -> Option<
    (Seq<Instr>, Instr),
>
    decreases e, 0nat,
{
    match e {
        ExprV::BiOp(l, op, r) => match ir_operand(*l, k, locals, params) {
            Some((q1, s1, c1)) => match ir_operand(*r, c1, locals, params) {
                Some((q2, s2, c2)) => Some((q1 + q2, Instr::Arith(op, k, s1, s2))),
                None => None,
            },
            None => None,
        },
        ExprV::Comp(l, cmp, r) => match ir_operand(*l, k, locals, params) {
            Some((q1, s1, c1)) => match ir_operand(*r, c1, locals, params) {
                Some((q2, s2, c2)) => Some((q1 + q2, Instr::Compare(cmp, k, s1, s2))),
                None => None,
            },
            None => None,
        },
        _ => None,
    }
}

/// A 32-bit arithmetic operation; division and remainder by zero give zero.
pub open spec fn alu(op: Operation, a: int, b: int) -> int {
    match op {
        Operation::Add => (a + b) % 4294967296,
        Operation::Sub => (a - b) % 4294967296,
        Operation::Mult => (a * b) % 4294967296,
        Operation::Div => if b == 0 {
            0
        } else {
            a / b
        },
        Operation::Mod => if b == 0 {
            0
        } else {
            a % b
        },
    }
}

/// A comparison: 1 when it holds, else 0.
pub open spec fn cmp(c: Comparison, a: int, b: int) -> int {
    let t = match c {
        Comparison::EQ => a == b,
        Comparison::NEQ => a != b,
        Comparison::LT => a < b,
        Comparison::LTE => a <= b,
        Comparison::GT => a > b,
        Comparison::GTE => a >= b,
    };
    if t {
        1
    } else {
        0
    }
}

/// The value of an expression, with variables read from `env`, computed
/// with the same operations the machine performs.
pub open spec fn value(e: ExprV, env: spec_fn(Seq<char>) -> int) -> int
    decreases e,
{
    match e {
        ExprV::Number(n) => imm(n) as int,
        ExprV::Ident(name) => env(name),
        ExprV::BiOp(l, op, r) => alu(op, value(*l, env), value(*r, env)),
        ExprV::Comp(l, c, r) => cmp(c, value(*l, env), value(*r, env)),
        _ => 0,
    }
}

pub open spec fn src_value(s: Src, regs: spec_fn(nat) -> int) -> int {
    match s {
        Src::Imm(n) => n as int,
        Src::Reg(k) => regs(k),
    }
}

pub open spec fn set(regs: spec_fn(nat) -> int, k: nat, v: int) -> spec_fn(nat) -> int {
    |j: nat| if j == k { v } else { regs(j) }
}

/// One instruction executed on the register file.
pub open spec fn step(regs: spec_fn(nat) -> int, i: Instr, env: spec_fn(Seq<char>) -> int) -> spec_fn(nat) -> int {
    match i {
        Instr::Load(k, name) => set(regs, k, env(name)),
        Instr::Arith(op, k, a, b) => set(regs, k, alu(op, src_value(a, regs), src_value(b, regs))),
        Instr::Compare(c, k, a, b) => set(regs, k, cmp(c, src_value(a, regs), src_value(b, regs))),
    }
}

/// A sequence of instructions executed in order.
pub open spec fn run(regs: spec_fn(nat) -> int, is: Seq<Instr>, env: spec_fn(Seq<char>) -> int) -> spec_fn(nat) -> int
    decreases is.len(),
{
    if is.len() == 0 {
        regs
    } else {
        step(run(regs, is.drop_last(), env), is.last(), env)
    }
}

proof fn lemma_render_append(a: Seq<Instr>, b: Seq<Instr>, locals: Seq<LocalV>, params: Option<Seq<ParamV>>)
    ensures
        render(a + b, locals, params) == render(a, locals, params) + render(b, locals, params),
    decreases b.len(),
{
    if b.len() == 0 {
        assert(a + b =~= a);
        assert(render(a, locals, params) + render(b, locals, params) =~= render(a, locals, params));
    } else {
        assert((a + b).drop_last() =~= a + b.drop_last());
        lemma_render_append(a, b.drop_last(), locals, params);
        assert(render(a + b, locals, params) =~= render(a, locals, params) + render(b, locals, params));
    }
}

proof fn lemma_run_append(regs: spec_fn(nat) -> int, a: Seq<Instr>, b: Seq<Instr>, env: spec_fn(Seq<char>) -> int)
    ensures
        run(regs, a + b, env) == run(run(regs, a, env), b, env),
    decreases b.len(),
{
    if b.len() == 0 {
        assert(a + b =~= a);
    } else {
        assert((a + b).drop_last() =~= a + b.drop_last());
        lemma_run_append(regs, a, b.drop_last(), env);
    }
}

/// The structured form renders to exactly the emitted text, and exists
/// whenever lowering succeeds.
proof fn lemma_operand_render(x: ExprV, c: nat, locals: Seq<LocalV>, params: Option<Seq<ParamV>>)
    requires
        operand(x, c, locals, params) is Ok,
    ensures
        ir_operand(x, c, locals, params) is Some,
        render(ir_operand(x, c, locals, params)->Some_0.0, locals, params) == operand(x, c, locals, params)->Ok_0.0,
        src_text(ir_operand(x, c, locals, params)->Some_0.1) == operand(x, c, locals, params)->Ok_0.1,
        ir_operand(x, c, locals, params)->Some_0.2 == operand(x, c, locals, params)->Ok_0.2,
    decreases x, 1nat,
{
    match x {
        ExprV::Number(n) => {},
        ExprV::Ident(name) => {
            let is = seq![Instr::Load((c + 1) as nat, name)];
            assert(is.drop_last() =~= Seq::<Instr>::empty());
            assert(is.last() == Instr::Load((c + 1) as nat, name));
            assert(render(is.drop_last(), locals, params) =~= Seq::<char>::empty());
            assert(render(is, locals, params) =~= load_var((c + 1) as nat, locals, params, name)->Some_0);
        },
        ExprV::BiOp(_, _, _) | ExprV::Comp(_, _, _) => {
            lemma_lower_render(x, (c + 1) as nat, locals, params);
            let (q, root) = ir_lower(x, (c + 1) as nat, locals, params)->Some_0;
            assert(q.push(root).drop_last() =~= q);
        },
        _ => {},
    }
}

proof fn lemma_lower_render(e: ExprV, k: nat, locals: Seq<LocalV>, params: Option<Seq<ParamV>>)
    requires
        lower(e, k, locals, params) is Ok,
    ensures
        ir_lower(e, k, locals, params) is Some,
        render(ir_lower(e, k, locals, params)->Some_0.0, locals, params) == lower(e, k, locals, params)->Ok_0.0,
        render_instr(ir_lower(e, k, locals, params)->Some_0.1, locals, params) == lower(e, k, locals, params)->Ok_0.1,
    decreases e, 0nat,
{
    match e {
        ExprV::BiOp(l, op, r) => {
            lemma_operand_render(*l, k, locals, params);
            let c1 = operand(*l, k, locals, params)->Ok_0.2;
            lemma_operand_render(*r, c1, locals, params);
            let q1 = ir_operand(*l, k, locals, params)->Some_0.0;
            let q2 = ir_operand(*r, c1, locals, params)->Some_0.0;
            lemma_render_append(q1, q2, locals, params);
        },
        ExprV::Comp(l, c, r) => {
            lemma_operand_render(*l, k, locals, params);
            let c1 = operand(*l, k, locals, params)->Ok_0.2;
            lemma_operand_render(*r, c1, locals, params);
            let q1 = ir_operand(*l, k, locals, params)->Some_0.0;
            let q2 = ir_operand(*r, c1, locals, params)->Some_0.0;
            lemma_render_append(q1, q2, locals, params);
        },
        _ => {},
    }
}

/// Running an operand's instructions leaves every register up to `c`
/// untouched and the operand's value in its source.
proof fn lemma_operand_eval(
    x: ExprV,
    c: nat,
    locals: Seq<LocalV>,
    params: Option<Seq<ParamV>>,
    regs: spec_fn(nat) -> int,
    env: spec_fn(Seq<char>) -> int,
)
    requires
        ir_operand(x, c, locals, params) is Some,
    ensures
        ({
            let (is, s, c2) = ir_operand(x, c, locals, params)->Some_0;
            &&& c2 >= c
            &&& (forall|j: nat| j <= c ==> #[trigger] run(regs, is, env)(j) == regs(j))
            &&& src_value(s, run(regs, is, env)) == value(x, env)
            &&& (s is Reg ==> s->Reg_0 <= c2)
        }),
    decreases x, 1nat,
{
    match x {
        ExprV::Number(n) => {
            assert(run(regs, Seq::<Instr>::empty(), env) == regs);
        },
        ExprV::Ident(name) => {
            let is = seq![Instr::Load((c + 1) as nat, name)];
            assert(is.drop_last() =~= Seq::<Instr>::empty());
            assert(is.last() == Instr::Load((c + 1) as nat, name));
            assert(run(regs, is.drop_last(), env) == regs);
            let after = run(regs, is, env);
            assert(after == set(regs, (c + 1) as nat, env(name)));
            assert(after((c + 1) as nat) == env(name));
            assert forall|j: nat| j <= c implies #[trigger] run(regs, is, env)(j) == regs(j) by {
                assert(after(j) == regs(j));
            }
        },
        ExprV::BiOp(_, _, _) | ExprV::Comp(_, _, _) => {
            let (q, root) = ir_lower(x, (c + 1) as nat, locals, params)->Some_0;
            lemma_lower_eval(x, (c + 1) as nat, locals, params, regs, env);
            assert(q.push(root).drop_last() =~= q);
            let after = run(regs, q.push(root), env);
            assert forall|j: nat| j <= c implies #[trigger] run(regs, q.push(root), env)(j) == regs(j) by {
                assert(j < c + 1);
            }
        },
        _ => {},
    }
}

/// Running a node's queue and then its own instruction leaves its value in
/// register `k` and every register below `k` untouched.
proof fn lemma_lower_eval(
    e: ExprV,
    k: nat,
    locals: Seq<LocalV>,
    params: Option<Seq<ParamV>>,
    regs: spec_fn(nat) -> int,
    env: spec_fn(Seq<char>) -> int,
)
    requires
        ir_lower(e, k, locals, params) is Some,
    ensures
        ({
            let (q, root) = ir_lower(e, k, locals, params)->Some_0;
            let after = run(regs, q.push(root), env);
            &&& after(k) == value(e, env)
            &&& forall|j: nat| j < k ==> #[trigger] after(j) == regs(j)
        }),
    decreases e, 0nat,
{
    let (q, root) = ir_lower(e, k, locals, params)->Some_0;
    assert(q.push(root).drop_last() =~= q);
    match e {
        ExprV::BiOp(l, _, r) | ExprV::Comp(l, _, r) => {
            let (q1, s1, c1) = ir_operand(*l, k, locals, params)->Some_0;
            let (q2, s2, c2) = ir_operand(*r, c1, locals, params)->Some_0;
            lemma_operand_eval(*l, k, locals, params, regs, env);
            let r1 = run(regs, q1, env);
            lemma_operand_eval(*r, c1, locals, params, r1, env);
            lemma_run_append(regs, q1, q2, env);
            let r2 = run(r1, q2, env);
            assert(src_value(s1, r2) == src_value(s1, r1));
        },
        _ => {},
    }
}

/// The instruction queue emitted for an expression is correct in order, at
/// any depth: whenever lowering an operator expression into register `R2`
/// succeeds, its text is the rendering of a sequence of instructions which,
/// run one after another from any register file, leave the expression's
/// value in `R2` (the register that is then masked and pushed).
pub proof fn law_queue_in_order(
    e: ExprV,
    locals: Seq<LocalV>,
    params: Option<Seq<ParamV>>,
    regs: spec_fn(nat) -> int,
    env: spec_fn(Seq<char>) -> int,
)
    requires
        lower(e, 2, locals, params) is Ok,
    ensures
        exists|is: Seq<Instr>|
            #[trigger] render(is, locals, params) == lower(e, 2, locals, params)->Ok_0.0
                + lower(e, 2, locals, params)->Ok_0.1 && run(regs, is, env)(2) == value(e, env),
{
    lemma_lower_render(e, 2, locals, params);
    lemma_lower_eval(e, 2, locals, params, regs, env);
    let (q, root) = ir_lower(e, 2, locals, params)->Some_0;
    let is = q.push(root);
    assert(is.drop_last() =~= q);
    assert(render(is, locals, params) == lower(e, 2, locals, params)->Ok_0.0 + lower(e, 2, locals, params)->Ok_0.1);
}


/// What `compile_expr` emits for an operator expression, at any depth, is
/// an instruction queue that, run in order from any register file, leaves
/// the expression's value in `R2`, followed by the mask of `R2` to 32 bits
/// and its push.
pub proof fn law_emitted_expression_in_order(
    e: ExprV,
    locals: Seq<LocalV>,
    params: Option<Seq<ParamV>>,
    regs: spec_fn(nat) -> int,
    env: spec_fn(Seq<char>) -> int,
)
    requires
        e is BiOp || e is Comp,
        expr_code(e, locals, params) is Ok,
    ensures
        exists|is: Seq<Instr>|
            #[trigger] render(is, locals, params) + "AND R2 R2 0xffffffff\n"@ + "PSH R2\n\n"@ == expr_code(
                e,
                locals,
                params,
            )->Ok_0 && run(regs, is, env)(2) == value(e, env),
{
    law_queue_in_order(e, locals, params, regs, env);
    let is = choose|is: Seq<Instr>|
        #[trigger] render(is, locals, params) == lower(e, 2, locals, params)->Ok_0.0 + lower(e, 2, locals, params)->Ok_0.1
            && run(regs, is, env)(2) == value(e, env);
    assert(render(is, locals, params) + "AND R2 R2 0xffffffff\n"@ + "PSH R2\n\n"@ == expr_code(e, locals, params)->Ok_0);
}

} // verus!
