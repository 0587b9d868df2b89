//! The recursive-descent parser: tokens to a program.
use vstd::prelude::*;
use crate::diag::{CompileError, ErrorKind};
use crate::lexer::{tok_view, toks_view, Token, TokenType, TokenV};
use crate::emitter::ParamV;
use crate::nodes::{
    exprs_view, lemma_exprs_view_push, Comparison, DebugSym, Expr, ExprV, Linkage, Node, NodeV, Operation, Program,
    StmtV, Type, TypeV,
};
use crate::text::{copy_string, push_char, push_str};

verus! {

broadcast use vstd::std_specs::vec::group_vec_axioms, vstd::seq::group_seq_axioms;

/// A string literal's text with the escapes the lexer understands put back.
pub open spec fn escape_text(s: Seq<char>) -> Seq<char>
    decreases s.len(),
{
    if s.len() == 0 {
        Seq::empty()
    } else {
        let c = s.last();
        escape_text(s.drop_last()) + (if c == '\n' {
            seq!['\\', 'n']
        } else if c == '\t' {
            seq!['\\', 't']
        } else if c == '"' {
            seq!['\\', '"']
        } else if c == '\\' {
            seq!['\\', '\\']
        } else {
            seq![c]
        })
    }
}

/// How a token is written back: a string literal quoted and escaped, any
/// other token as its text.
pub open spec fn spell(t: TokenV) -> Seq<char> {
    if t.kind == TokenType::Str {
        seq!['"'] + escape_text(t.val) + seq!['"']
    } else {
        t.val
    }
}

/// The tokens `a..b` written back, separated by single spaces.
pub open spec fn spell_range(ts: Seq<TokenV>, a: int, b: int) -> Seq<char>
    decreases b - a,
{
    if b <= a {
        Seq::empty()
    } else if b == a + 1 {
        spell(ts[a])
    } else {
        spell_range(ts, a, b - 1) + seq![' '] + spell(ts[b - 1])
    }
}

fn push_spelling(out: &mut String, t: &Token)
    ensures
        final(out)@ == old(out)@ + spell(tok_view(*t)),
{
    let ghost o = out@;
    if t.tok_type == TokenType::Str {
        push_char(out, '"');
        let chars = crate::text::chars_of(t.val.as_str());
        let ghost base = out@;
        let mut i: usize = 0;
        while i < chars.len()
            invariant
                chars@ == t.val@,
                i <= chars.len(),
                out@ == base + escape_text(chars@.subrange(0, i as int)),
            decreases chars.len() - i,
        {
            let c = chars[i];
            proof {
                assert(chars@.subrange(0, i + 1).drop_last() =~= chars@.subrange(0, i as int));
            }
            if c == '\n' {
                push_char(out, '\\');
                push_char(out, 'n');
            } else if c == '\t' {
                push_char(out, '\\');
                push_char(out, 't');
            } else if c == '"' {
                push_char(out, '\\');
                push_char(out, '"');
            } else if c == '\\' {
                push_char(out, '\\');
                push_char(out, '\\');
            } else {
                push_char(out, c);
            }
            i = i + 1;
            assert(out@ =~= base + escape_text(chars@.subrange(0, i as int)));
        }
        assert(chars@.subrange(0, chars.len() as int) =~= chars@);
        push_char(out, '"');
        assert(out@ =~= o + spell(tok_view(*t)));
    } else {
        push_str(out, t.val.as_str());
    }
}

/// The tokens `a..b` written back (see [`spell_range`]).
pub fn spell_tokens(toks: &Vec<Token>, a: usize, b: usize) -> (r: String)
    requires
        a <= b <= toks.len(),
    ensures
        r@ == spell_range(toks_view(toks@), a as int, b as int),
{
    let mut r = String::new();
    if a == b {
        return r;
    }
    push_spelling(&mut r, &toks[a]);
    let mut i: usize = a + 1;
    while i < b
        invariant
            a < i <= b <= toks.len(),
            r@ == spell_range(toks_view(toks@), a as int, i as int),
        decreases b - i,
    {
        push_char(&mut r, ' ');
        push_spelling(&mut r, &toks[i]);
        i = i + 1;
    }
    r
}


/// The comparison a token stands for.
pub open spec fn comparison_kind(k: TokenType) -> Option<Comparison> {
    if k == TokenType::EQ {
        Some(Comparison::EQ)
    } else if k == TokenType::NEQ {
        Some(Comparison::NEQ)
    } else if k == TokenType::LT {
        Some(Comparison::LT)
    } else if k == TokenType::LTE {
        Some(Comparison::LTE)
    } else if k == TokenType::GT {
        Some(Comparison::GT)
    } else if k == TokenType::GTE {
        Some(Comparison::GTE)
    } else {
        None
    }
}

/// `+` or `-`.
pub open spec fn add_kind(k: TokenType) -> Option<Operation> {
    if k == TokenType::Plus {
        Some(Operation::Add)
    } else if k == TokenType::Minus {
        Some(Operation::Sub)
    } else {
        None
    }
}

/// `*`, `/` or `%`.
pub open spec fn mul_kind(k: TokenType) -> Option<Operation> {
    if k == TokenType::Mult {
        Some(Operation::Mult)
    } else if k == TokenType::Div {
        Some(Operation::Div)
    } else if k == TokenType::Mod {
        Some(Operation::Mod)
    } else {
        None
    }
}

/// The value of a run of decimal digits.
pub open spec fn digits_value(s: Seq<char>) -> int
    decreases s.len(),
{
    if s.len() == 0 {
        0
    } else {
        digits_value(s.drop_last()) * 10 + (s.last() as int - '0' as int)
    }
}

/// The value of a number token's text: all decimal digits, fitting in 64
/// signed bits.
pub open spec fn num_value(s: Seq<char>) -> Option<i64> {
    if s.len() > 0 && (forall|i: int| 0 <= i < s.len() ==> '0' <= #[trigger] s[i] <= '9') && digits_value(s)
        <= i64::MAX {
        Some(digits_value(s) as i64)
    } else {
        None
    }
}

/// A parse error: its message and its line.
pub type ParseErr = (Seq<char>, nat);

/// The line an error at token `p` is reported on: that token's, or the last
/// token's past the end.
pub open spec fn line_at(ts: Seq<TokenV>, p: int) -> nat {
    if 0 <= p < ts.len() {
        ts[p].line
    } else if ts.len() > 0 {
        ts[ts.len() - 1].line
    } else {
        0
    }
}

/// The error `msg` at token `p`.
pub open spec fn err_at<T>(ts: Seq<TokenV>, msg: Seq<char>, p: int) -> Result<T, ParseErr> {
    Err((msg, line_at(ts, p)))
}

/// Token `p` must be of kind `k`; the position after it, or the error `msg`.
pub open spec fn g_expect(ts: Seq<TokenV>, p: int, k: TokenType, msg: Seq<char>) -> Result<int, ParseErr> {
    if 0 <= p < ts.len() && ts[p].kind == k {
        Ok(p + 1)
    } else {
        err_at(ts, msg, p)
    }
}

/// `comparison ::= expr (cmp expr)*` from `pos`: the expression and the
/// position after it, or the first error.
pub open spec fn g_comparison(ts: Seq<TokenV>, pos: int) -> Result<(ExprV, int), ParseErr>
    decreases ts.len() - pos, 5nat,
{
    if pos < 0 || pos > ts.len() {
        err_at(ts, "Expected number or identifier or string or open paren"@, pos)
    } else {
        match g_expr(ts, pos) {
            Ok((e, q)) => if pos < q <= ts.len() {
                g_comparison_rest(ts, e, q)
            } else {
                err_at(ts, "Unexpected token"@, q)
            },
            Err(x) => Err(x),
        }
    }
}

pub open spec fn g_comparison_rest(ts: Seq<TokenV>, acc: ExprV, p: int) -> Result<(ExprV, int), ParseErr>
    decreases ts.len() - p, 4nat,
{
    if 0 <= p < ts.len() && comparison_kind(ts[p].kind) is Some {
        match g_expr(ts, p + 1) {
            Ok((r, q)) => if p < q <= ts.len() {
                g_comparison_rest(ts, ExprV::Comp(Box::new(acc), comparison_kind(ts[p].kind)->Some_0, Box::new(r)), q)
            } else {
                err_at(ts, "Unexpected token"@, q)
            },
            Err(x) => Err(x),
        }
    } else {
        Ok((acc, p))
    }
}

/// `expr ::= term (('+' | '-') term)*`.
pub open spec fn g_expr(ts: Seq<TokenV>, pos: int) -> Result<(ExprV, int), ParseErr>
    decreases ts.len() - pos, 3nat,
{
    if pos < 0 || pos > ts.len() {
        err_at(ts, "Expected number or identifier or string or open paren"@, pos)
    } else {
        match g_term(ts, pos) {
            Ok((e, q)) => if pos < q <= ts.len() {
                g_expr_rest(ts, e, q)
            } else {
                err_at(ts, "Unexpected token"@, q)
            },
            Err(x) => Err(x),
        }
    }
}

pub open spec fn g_expr_rest(ts: Seq<TokenV>, acc: ExprV, p: int) -> Result<(ExprV, int), ParseErr>
    decreases ts.len() - p, 2nat,
{
    if 0 <= p < ts.len() && add_kind(ts[p].kind) is Some {
        match g_term(ts, p + 1) {
            Ok((r, q)) => if p < q <= ts.len() {
                g_expr_rest(ts, ExprV::BiOp(Box::new(acc), add_kind(ts[p].kind)->Some_0, Box::new(r)), q)
            } else {
                err_at(ts, "Unexpected token"@, q)
            },
            Err(x) => Err(x),
        }
    } else {
        Ok((acc, p))
    }
}

/// `term ::= factor (('*' | '/' | '%') factor)*`.
pub open spec fn g_term(ts: Seq<TokenV>, pos: int) -> Result<(ExprV, int), ParseErr>
    decreases ts.len() - pos, 1nat,
{
    if pos < 0 || pos > ts.len() {
        err_at(ts, "Expected number or identifier or string or open paren"@, pos)
    } else {
        match g_factor(ts, pos) {
            Ok((e, q)) => if pos < q <= ts.len() {
                g_term_rest(ts, e, q)
            } else {
                err_at(ts, "Unexpected token"@, q)
            },
            Err(x) => Err(x),
        }
    }
}

pub open spec fn g_term_rest(ts: Seq<TokenV>, acc: ExprV, p: int) -> Result<(ExprV, int), ParseErr>
    decreases ts.len() - p, 0nat,
{
    if 0 <= p < ts.len() && mul_kind(ts[p].kind) is Some {
        match g_factor(ts, p + 1) {
            Ok((r, q)) => if p < q <= ts.len() {
                g_term_rest(ts, ExprV::BiOp(Box::new(acc), mul_kind(ts[p].kind)->Some_0, Box::new(r)), q)
            } else {
                err_at(ts, "Unexpected token"@, q)
            },
            Err(x) => Err(x),
        }
    } else {
        Ok((acc, p))
    }
}

/// `factor ::= Num | Str | '(' comparison ')' | Ident | Ident '(' args ')'`.
pub open spec fn g_factor(ts: Seq<TokenV>, pos: int) -> Result<(ExprV, int), ParseErr>
    decreases ts.len() - pos, 0nat,
{
    if pos < 0 || pos >= ts.len() {
        err_at(ts, "Expected number or identifier or string or open paren"@, pos)
    } else {
        let t = ts[pos];
        if t.kind == TokenType::Num {
            match num_value(t.val) {
                Some(n) => Ok((ExprV::Number(n), pos + 1)),
                None => err_at(ts, "Number literal out of range"@, pos),
            }
        } else if t.kind == TokenType::Str {
            Ok((ExprV::Str(t.val), pos + 1))
        } else if t.kind == TokenType::Identifier {
            if pos + 1 < ts.len() && ts[pos + 1].kind == TokenType::OpenParen {
                match g_args(ts, pos + 2) {
                    Ok((a, q)) => Ok((ExprV::Call(t.val, a), q)),
                    Err(x) => Err(x),
                }
            } else {
                Ok((ExprV::Ident(t.val), pos + 1))
            }
        } else if t.kind == TokenType::OpenParen {
            match g_comparison(ts, pos + 1) {
                Ok((e, q)) => match g_expect(ts, q, TokenType::CloseParen, "Missing closing ')'"@) {
                    Ok(q2) => Ok((e, q2)),
                    Err(x) => Err(x),
                },
                Err(x) => Err(x),
            }
        } else {
            err_at(ts, "Expected number or identifier or string or open paren"@, pos)
        }
    }
}

/// `args ::= ε | comparison (',' comparison)*` and the closing `)`, from
/// just past the `(`.
pub open spec fn g_args(ts: Seq<TokenV>, pos: int) -> Result<(Seq<ExprV>, int), ParseErr>
    decreases ts.len() - pos, 7nat,
{
    if pos < 0 || pos > ts.len() {
        err_at(ts, "Expected number or identifier or string or open paren"@, pos)
    } else if pos < ts.len() && ts[pos].kind == TokenType::CloseParen {
        Ok((Seq::empty(), pos + 1))
    } else {
        g_args_from(ts, Seq::empty(), pos)
    }
}

/// The arguments from `p` on, after those in `acc`.
pub open spec fn g_args_from(ts: Seq<TokenV>, acc: Seq<ExprV>, p: int) -> Result<(Seq<ExprV>, int), ParseErr>
    decreases ts.len() - p, 6nat,
{
    if p < 0 || p > ts.len() {
        err_at(ts, "Expected number or identifier or string or open paren"@, p)
    } else {
        match g_comparison(ts, p) {
            Ok((e, q)) => if p < q <= ts.len() {
                if q < ts.len() && ts[q].kind == TokenType::Comma {
                    g_args_from(ts, acc.push(e), q + 1)
                } else {
                    match g_expect(ts, q, TokenType::CloseParen, "Expected ',' or ')' after argument expression"@) {
                        Ok(q2) => Ok((acc.push(e), q2)),
                        Err(x) => Err(x),
                    }
                }
            } else {
                err_at(ts, "Unexpected token"@, q)
            },
            Err(x) => Err(x),
        }
    }
}

/// A type from `pos`: a type name, then a pointer for each `*`.
pub open spec fn g_type(ts: Seq<TokenV>, pos: int) -> Result<(TypeV, int), ParseErr> {
    if 0 <= pos < ts.len() && is_type_kind(ts[pos].kind) {
        Ok(g_ptrs(ts, TypeV::Named(ts[pos].val), pos + 1))
    } else {
        err_at(ts, "Expected a type"@, pos)
    }
}

pub open spec fn g_ptrs(ts: Seq<TokenV>, t: TypeV, p: int) -> (TypeV, int)
    decreases ts.len() - p,
{
    if 0 <= p < ts.len() && ts[p].kind == TokenType::Mult {
        g_ptrs(ts, TypeV::Ptr(Box::new(t)), p + 1)
    } else {
        (t, p)
    }
}

/// A parameter list and its `)`, from just past the `(`.
pub open spec fn g_params(ts: Seq<TokenV>, pos: int) -> Result<(Seq<ParamV>, int), ParseErr> {
    if 0 <= pos < ts.len() && ts[pos].kind == TokenType::CloseParen {
        Ok((Seq::empty(), pos + 1))
    } else {
        g_params_from(ts, Seq::empty(), pos)
    }
}

pub open spec fn g_params_from(ts: Seq<TokenV>, acc: Seq<ParamV>, p: int) -> Result<(Seq<ParamV>, int), ParseErr>
    decreases ts.len() - p,
{
    if p < 0 {
        err_at(ts, "Expected a type"@, p)
    } else {
        match g_type(ts, p) {
            Ok((t, q)) => match g_expect(ts, q, TokenType::Identifier, "Expected identifier after type"@) {
                Ok(q2) => if p < q < q2 <= ts.len() {
                    let acc2 = acc.push((t, ts[q].val));
                    if q2 < ts.len() && ts[q2].kind == TokenType::Comma {
                        g_params_from(ts, acc2, q2 + 1)
                    } else {
                        match g_expect(ts, q2, TokenType::CloseParen, "Expected ')' or ',' after identifier"@) {
                            Ok(end) => Ok((acc2, end)),
                            Err(x) => Err(x),
                        }
                    }
                } else {
                    err_at(ts, "Unexpected token"@, q)
                },
                Err(x) => Err(x),
            },
            Err(x) => Err(x),
        }
    }
}

/// The index of the `}` that closes a body scanned from `p` at nesting
/// `depth`, or the error met first.
pub open spec fn brace_end(ts: Seq<TokenV>, p: int, depth: nat) -> Result<int, ParseErr>
    decreases ts.len() - p,
{
    if p < 0 || p >= ts.len() {
        err_at(ts, "Expected '}' for body"@, p)
    } else if ts[p].kind == TokenType::CloseBrace && depth == 0 {
        Ok(p)
    } else if ts[p].kind == TokenType::CloseBrace {
        brace_end(ts, p + 1, (depth - 1) as nat)
    } else if ts[p].kind == TokenType::OpenBrace {
        if depth == usize::MAX {
            err_at(ts, "Blocks nested too deeply"@, p)
        } else {
            brace_end(ts, p + 1, depth + 1)
        }
    } else {
        brace_end(ts, p + 1, depth)
    }
}

/// The statement `node` spelled by tokens `a..b`.
pub open spec fn stmt_at(ts: Seq<TokenV>, a: int, b: int, node: NodeV) -> StmtV {
    StmtV { line: ts[a].line, text: spell_range(ts, a, b), node }
}

/// The path segments of an import from `p`, after those in `acc`, and the
/// position past the `;`.
pub open spec fn g_import(ts: Seq<TokenV>, acc: Seq<Seq<char>>, p: int) -> Result<(Seq<Seq<char>>, int), ParseErr>
    decreases ts.len() - p,
{
    if 0 <= p < ts.len() && ts[p].kind == TokenType::Identifier {
        let acc2 = acc.push(ts[p].val);
        if p + 1 < ts.len() && ts[p + 1].kind == TokenType::Semicolon {
            Ok((acc2, p + 2))
        } else if p + 1 < ts.len() && (ts[p + 1].kind == TokenType::Dot || ts[p + 1].kind == TokenType::Colon) {
            g_import(ts, acc2, p + 2)
        } else {
            err_at(ts, "Expected '.' or ':' or ';' after module name"@, p + 1)
        }
    } else {
        err_at(ts, "Expected module name"@, p)
    }
}

/// A braced body at `pos`: its statements and the position past its `}`.
/// Errors inside the body are reported on the body's own tokens.
pub open spec fn g_body(ts: Seq<TokenV>, pos: int) -> Result<(Seq<StmtV>, int), ParseErr>
    decreases ts.len(), 0nat, 0int,
{
    if 0 <= pos < ts.len() && ts[pos].kind == TokenType::OpenBrace {
        match brace_end(ts, pos + 1, 0) {
            Ok(q) => if pos + 1 <= q < ts.len() {
                match g_program(ts.subrange(pos + 1, q)) {
                    Ok(b) => Ok((b, q + 1)),
                    Err(x) => Err(x),
                }
            } else {
                err_at(ts, "Expected '}' for body"@, q)
            },
            Err(x) => Err(x),
        }
    } else {
        err_at(ts, "Expected '{' for body"@, pos)
    }
}

/// A variable definition, declaration or function definition after its type
/// (`t`, ending at `q`), where `p` is the type's first token.
pub open spec fn g_typed(ts: Seq<TokenV>, pos: int, p: int, t: TypeV, q: int, link: Linkage) -> Result<(Option<StmtV>, int), ParseErr>
    decreases ts.len(), 0nat, 1int,
{
    let is_void = p < ts.len() && ts[p].kind == TokenType::Void;
    match g_expect(ts, q, TokenType::Identifier, "Expected identifier after type"@) {
        Ok(q2) => if 0 <= q < ts.len() && pos < q2 {
            let name = ts[q].val;
            if q2 < ts.len() && ts[q2].kind == TokenType::Assign {
                if is_void {
                    err_at(ts, "Cannot have void for variable type"@, p)
                } else {
                    match g_comparison(ts, q2 + 1) {
                        Ok((e, r)) => match g_expect(ts, r, TokenType::Semicolon, "Expected ';' after expression"@) {
                            Ok(end) => if pos < end <= ts.len() {
                                Ok((Some(stmt_at(ts, pos, end, NodeV::VarDefine(t, name, Some(e)))), end))
                            } else {
                                err_at(ts, "Unexpected token"@, r)
                            },
                            Err(x) => Err(x),
                        },
                        Err(x) => Err(x),
                    }
                }
            } else if q2 < ts.len() && ts[q2].kind == TokenType::Semicolon {
                if is_void {
                    err_at(ts, "Cannot have void for variable type"@, p)
                } else {
                    Ok((Some(stmt_at(ts, pos, q2 + 1, NodeV::VarDefine(t, name, None))), q2 + 1))
                }
            } else if q2 < ts.len() && ts[q2].kind == TokenType::OpenParen {
                match g_params(ts, q2 + 1) {
                    Ok((ps, r)) => match g_body(ts, r) {
                        Ok((b, end)) => Ok((Some(stmt_at(ts, pos, r, NodeV::Function(t, name, ps, b, link))), end)),
                        Err(x) => Err(x),
                    },
                    Err(x) => Err(x),
                }
            } else {
                err_at(ts, "Expected '=' or '(' or ';' after identifier"@, q2)
            }
        } else {
            err_at(ts, "Unexpected token"@, q)
        },
        Err(x) => Err(x),
    }
}

/// One statement at `pos` (nothing for a stray `;`) and the position after
/// it, or the first error.
pub open spec fn g_statement(ts: Seq<TokenV>, pos: int) -> Result<(Option<StmtV>, int), ParseErr>
    decreases ts.len(), 0nat, 2int,
{
    if pos < 0 || pos >= ts.len() {
        err_at(ts, "Unexpected token"@, pos)
    } else {
        let k = ts[pos].kind;
        if is_type_kind(k) || k == TokenType::Pub {
            let p = if k == TokenType::Pub { pos + 1 } else { pos };
            let link = if k == TokenType::Pub { Linkage::Public } else { Linkage::Private };
            match g_type(ts, p) {
                Ok((t, q)) => g_typed(ts, pos, p, t, q, link),
                Err(x) => Err(x),
            }
        } else if k == TokenType::Extern {
            match g_type(ts, pos + 1) {
                Ok((t, q)) => match g_expect(ts, q, TokenType::Identifier, "Expected identifier after type"@) {
                    Ok(q2) => match g_expect(ts, q2, TokenType::OpenParen, "Expected '(' after extern name"@) {
                        Ok(q3) => match g_params(ts, q3) {
                            Ok((ps, r)) => match g_expect(ts, r, TokenType::Semicolon, "Expected ';' after extern declaration"@) {
                                Ok(end) => if 0 <= q < ts.len() && pos < end <= ts.len() {
                                    Ok((Some(stmt_at(ts, pos, end, NodeV::Extern(ts[q].val, ps, t))), end))
                                } else {
                                    err_at(ts, "Unexpected token"@, r)
                                },
                                Err(x) => Err(x),
                            },
                            Err(x) => Err(x),
                        },
                        Err(x) => Err(x),
                    },
                    Err(x) => Err(x),
                },
                Err(x) => Err(x),
            }
        } else if k == TokenType::If || k == TokenType::While {
            match g_expect(ts, pos + 1, TokenType::OpenParen, "Expected '(' before condition"@) {
                Ok(q) => match g_comparison(ts, q) {
                    Ok((c, r)) => match g_expect(ts, r, TokenType::CloseParen, "Expected ')' after condition"@) {
                        Ok(r2) => match g_body(ts, r2) {
                            Ok((b, end)) => Ok(
                                (
                                    Some(
                                        stmt_at(
                                            ts,
                                            pos,
                                            r2,
                                            if k == TokenType::If {
                                                NodeV::If(c, b)
                                            } else {
                                                NodeV::While(c, b)
                                            },
                                        ),
                                    ),
                                    end,
                                ),
                            ),
                            Err(x) => Err(x),
                        },
                        Err(x) => Err(x),
                    },
                    Err(x) => Err(x),
                },
                Err(x) => Err(x),
            }
        } else if k == TokenType::Return {
            if pos + 1 < ts.len() && ts[pos + 1].kind == TokenType::Semicolon {
                Ok((Some(stmt_at(ts, pos, pos + 2, NodeV::Return(None))), pos + 2))
            } else {
                match g_comparison(ts, pos + 1) {
                    Ok((e, r)) => match g_expect(ts, r, TokenType::Semicolon, "Expected ';' after return expression"@) {
                        Ok(end) => Ok((Some(stmt_at(ts, pos, end, NodeV::Return(Some(e)))), end)),
                        Err(x) => Err(x),
                    },
                    Err(x) => Err(x),
                }
            }
        } else if k == TokenType::Import {
            match g_import(ts, Seq::empty(), pos + 1) {
                Ok((segs, end)) => Ok((Some(stmt_at(ts, pos, end, NodeV::Import(segs))), end)),
                Err(x) => Err(x),
            }
        } else if k == TokenType::URCLBlock {
            match g_expect(ts, pos + 1, TokenType::Str, "Expected URCL code in string after keyword"@) {
                Ok(q) => match g_expect(ts, q, TokenType::Semicolon, "Expected ';' after URCL block string"@) {
                    Ok(end) => Ok((Some(stmt_at(ts, pos, end, NodeV::InlineURCL(ts[pos + 1].val))), end)),
                    Err(x) => Err(x),
                },
                Err(x) => Err(x),
            }
        } else if k == TokenType::Identifier {
            let name = ts[pos].val;
            if pos + 1 < ts.len() && ts[pos + 1].kind == TokenType::Assign {
                match g_comparison(ts, pos + 2) {
                    Ok((e, r)) => match g_expect(ts, r, TokenType::Semicolon, "Expected ';' after variable assignment"@) {
                        Ok(end) => Ok((Some(stmt_at(ts, pos, end, NodeV::VarAssign(name, e))), end)),
                        Err(x) => Err(x),
                    },
                    Err(x) => Err(x),
                }
            } else if pos + 1 < ts.len() && ts[pos + 1].kind == TokenType::OpenParen {
                match g_args(ts, pos + 2) {
                    Ok((a, r)) => match g_expect(ts, r, TokenType::Semicolon, "Expected ';' after function call"@) {
                        Ok(end) => Ok((Some(stmt_at(ts, pos, end, NodeV::FuncCall(name, a))), end)),
                        Err(x) => Err(x),
                    },
                    Err(x) => Err(x),
                }
            } else {
                err_at(ts, "Expected '=' or '(' after identifier"@, pos + 1)
            }
        } else if k == TokenType::Semicolon {
            Ok((None, pos + 1))
        } else {
            err_at(ts, "Unexpected token"@, pos)
        }
    }
}

/// The statements from `pos` on, after those in `acc`.
pub open spec fn g_program_from(ts: Seq<TokenV>, pos: int, acc: Seq<StmtV>) -> Result<Seq<StmtV>, ParseErr>
    decreases ts.len(), 1nat, ts.len() - pos,
{
    if pos < 0 {
        err_at(ts, "Unexpected token"@, pos)
    } else if pos >= ts.len() {
        Ok(acc)
    } else {
        match g_statement(ts, pos) {
            Ok((o, q)) => if pos < q <= ts.len() {
                g_program_from(
                    ts,
                    q,
                    match o {
                        Some(st) => acc.push(st),
                        None => acc,
                    },
                )
            } else {
                err_at(ts, "Unexpected token"@, q)
            },
            Err(x) => Err(x),
        }
    }
}

/// A program: its statements in order, or the first error.
pub open spec fn g_program(ts: Seq<TokenV>) -> Result<Seq<StmtV>, ParseErr>
    decreases ts.len(), 2nat, 0int,
{
    g_program_from(ts, 0, Seq::empty())
}

/// Whether a diagnostic is the parse error `x`.
pub open spec fn is_parse_error(e: CompileError, x: ParseErr) -> bool {
    e.kind == ErrorKind::Parse && e.message@ == x.0 && e.lineno as nat == x.1
}

/// What a parse function returns, against the grammar's answer.
pub open spec fn parsed_as(r: Result<(Expr, usize), CompileError>, g: Result<(ExprV, int), ParseErr>) -> bool {
    match r {
        Ok((e, p)) => g == Ok::<(ExprV, int), ParseErr>((e@, p as int)),
        Err(err) => g is Err && is_parse_error(err, g->Err_0),
    }
}

/// A cursor over a token list.
pub struct TokenBuffer {
    toks: Vec<Token>,
    pos: usize,
}

impl TokenBuffer {
    pub closed spec fn tokens(&self) -> Seq<Token> {
        self.toks@
    }

    pub closed spec fn position(&self) -> nat {
        self.pos as nat
    }

    pub fn new(toks: Vec<Token>) -> (r: TokenBuffer)
        ensures
            r.tokens() == toks@,
            r.position() == 0,
    {
        TokenBuffer { toks, pos: 0 }
    }

    pub fn in_bounds(&self) -> (r: bool)
        ensures
            r == (self.position() < self.tokens().len()),
    {
        self.pos < self.toks.len()
    }

    pub fn advance(&mut self)
        requires
            old(self).position() < old(self).tokens().len(),
        ensures
            final(self).tokens() == old(self).tokens(),
            final(self).position() == old(self).position() + 1,
    {
        assert(self.toks@.len() == self.toks.len());
        self.pos = self.pos + 1;
    }

    /// The token under the cursor, if any.
    pub fn current(&self) -> (r: Option<&Token>)
        ensures
            self.position() < self.tokens().len() ==> r == Some(&self.tokens()[self.position() as int]),
            self.position() >= self.tokens().len() ==> r is None,
    {
        if self.pos < self.toks.len() {
            Some(&self.toks[self.pos])
        } else {
            None
        }
    }

    /// Advances, then gives the token under the cursor, if any.
    pub fn next(&mut self) -> (r: Option<&Token>)
        requires
            old(self).position() < old(self).tokens().len(),
        ensures
            final(self).tokens() == old(self).tokens(),
            final(self).position() == old(self).position() + 1,
            final(self).position() < final(self).tokens().len() ==> r == Some(
                &final(self).tokens()[final(self).position() as int],
            ),
            final(self).position() >= final(self).tokens().len() ==> r is None,
    {
        self.advance();
        self.current()
    }
}

/// The kind of the token at `pos`, if there is one.
pub open spec fn kind_at(toks: Seq<TokenV>, pos: int) -> Option<TokenType> {
    if 0 <= pos < toks.len() {
        Some(toks[pos].kind)
    } else {
        None
    }
}

fn kind_of(toks: &Vec<Token>, pos: usize) -> (r: Option<TokenType>)
    ensures
        r == kind_at(toks_view(toks@), pos as int),
{
    if pos < toks.len() {
        Some(toks[pos].tok_type)
    } else {
        None
    }
}

/// A parse error at the token `pos`, or at the last token past the end.
fn parse_err(msg: &str, toks: &Vec<Token>, pos: usize) -> (r: CompileError)
    ensures
        r.kind == ErrorKind::Parse,
        r.message@ == msg@,
        r.lineno as nat == line_at(toks_view(toks@), pos as int),
{
    let m = String::from_str(msg);
    if pos < toks.len() {
        CompileError::new(ErrorKind::Parse, m, toks[pos].lineno, toks[pos].start, toks[pos].end)
    } else if toks.len() > 0 {
        let t = &toks[toks.len() - 1];
        CompileError::new(ErrorKind::Parse, m, t.lineno, t.start, t.end)
    } else {
        CompileError::new(ErrorKind::Parse, m, 0, 0, 0)
    }
}

/// Consumes a token of kind `k`, or fails with `msg`.
fn expect(toks: &Vec<Token>, pos: usize, k: TokenType, msg: &str) -> (r: Result<usize, CompileError>)
    ensures
        match r {
            Ok(p) => p == pos + 1 && kind_at(toks_view(toks@), pos as int) == Some(k) && g_expect(
                toks_view(toks@),
                pos as int,
                k,
                msg@,
            ) == Ok::<int, ParseErr>(p as int),
            Err(e) => e.kind == ErrorKind::Parse && kind_at(toks_view(toks@), pos as int) != Some(k) && g_expect(
                toks_view(toks@),
                pos as int,
                k,
                msg@,
            ) is Err && is_parse_error(e, g_expect(toks_view(toks@), pos as int, k, msg@)->Err_0),
        },
{
    if pos < toks.len() && toks[pos].tok_type == k {
        Ok(pos + 1)
    } else {
        Err(parse_err(msg, toks, pos))
    }
}

/// Whether a token names a type.
pub open spec fn is_type_kind(k: TokenType) -> bool {
    k == TokenType::Void || k == TokenType::Int || k == TokenType::Uint || k == TokenType::Float
        || k == TokenType::String || k == TokenType::Character
}

pub fn is_datatype(tok: &Token) -> (r: bool)
    ensures
        r == is_type_kind(tok.tok_type),
{
    let k = tok.tok_type;
    k == TokenType::Void || k == TokenType::Int || k == TokenType::Uint || k == TokenType::Float
        || k == TokenType::String || k == TokenType::Character
}

/// A type: a type name followed by any number of `*`, each making a pointer.
pub fn make_type(toks: &Vec<Token>, pos: usize) -> (r: Result<(Type, usize), CompileError>)
    ensures
        match r {
            Ok((t, p)) => pos < p <= toks.len() && g_type(toks_view(toks@), pos as int) == Ok::<(TypeV, int), ParseErr>((t@, p as int)),
            Err(e) => g_type(toks_view(toks@), pos as int) is Err && is_parse_error(e, g_type(toks_view(toks@), pos as int)->Err_0),
        },
{
    if pos >= toks.len() || !is_datatype(&toks[pos]) {
        return Err(parse_err("Expected a type", toks, pos));
    }
    let mut t = Type::Named(copy_string(&toks[pos].val));
    let mut p = pos + 1;
    while p < toks.len() && toks[p].tok_type == TokenType::Mult
        invariant
            pos < p <= toks.len(),
            g_type(toks_view(toks@), pos as int) == Ok::<(TypeV, int), ParseErr>(g_ptrs(toks_view(toks@), t@, p as int)),
        decreases toks.len() - p,
    {
        t = Type::Ptr(Box::new(t));
        p = p + 1;
    }
    Ok((t, p))
}

fn comparison_of(k: TokenType) -> (r: Option<Comparison>)
    ensures
        r == comparison_kind(k),
{
    match k {
        TokenType::EQ => Some(Comparison::EQ),
        TokenType::NEQ => Some(Comparison::NEQ),
        TokenType::LT => Some(Comparison::LT),
        TokenType::LTE => Some(Comparison::LTE),
        TokenType::GT => Some(Comparison::GT),
        TokenType::GTE => Some(Comparison::GTE),
        _ => None,
    }
}

/// `comparison ::= expr (cmp expr)*`, left-associative: the relational
/// level sits below `+` and `-` (see [`g_comparison`]).
pub fn parse_comparison(toks: &Vec<Token>, pos: usize) -> (r: Result<(Expr, usize), CompileError>)
    ensures
        parsed_as(r, g_comparison(toks_view(toks@), pos as int)),
        match r {
            Ok((e, p)) => pos < p <= toks.len(),
            Err(e) => e.kind == ErrorKind::Parse,
        },
    decreases toks.len() - pos, 5nat,
{
    let (mut node, mut p) = parse_expr(toks, pos)?;
    while p < toks.len() && comparison_of(toks[p].tok_type).is_some()
        invariant
            pos < p <= toks.len(),
            g_comparison(toks_view(toks@), pos as int) == g_comparison_rest(toks_view(toks@), node@, p as int),
        decreases toks.len() - p,
    {
        let c = comparison_of(toks[p].tok_type).unwrap();
        let (rhs, q) = parse_expr(toks, p + 1)?;
        node = Expr::Comp { lhs: Box::new(node), comp: c, rhs: Box::new(rhs) };
        p = q;
    }
    Ok((node, p))
}

/// `expr ::= term (('+' | '-') term)*`, left-associative (see [`g_expr`]).
pub fn parse_expr(toks: &Vec<Token>, pos: usize) -> (r: Result<(Expr, usize), CompileError>)
    ensures
        parsed_as(r, g_expr(toks_view(toks@), pos as int)),
        match r {
            Ok((e, p)) => pos < p <= toks.len(),
            Err(e) => e.kind == ErrorKind::Parse,
        },
    decreases toks.len() - pos, 3nat,
{
    let (mut node, mut p) = parse_term(toks, pos)?;
    while p < toks.len() && (toks[p].tok_type == TokenType::Plus || toks[p].tok_type == TokenType::Minus)
        invariant
            pos < p <= toks.len(),
            g_expr(toks_view(toks@), pos as int) == g_expr_rest(toks_view(toks@), node@, p as int),
        decreases toks.len() - p,
    {
        let op = if toks[p].tok_type == TokenType::Plus {
            Operation::Add
        } else {
            Operation::Sub
        };
        let (rhs, q) = parse_term(toks, p + 1)?;
        node = Expr::BiOp { lhs: Box::new(node), op, rhs: Box::new(rhs) };
        p = q;
    }
    Ok((node, p))
}

/// `term ::= factor (('*' | '/' | '%') factor)*`, left-associative (see
/// [`g_term`]).
pub fn parse_term(toks: &Vec<Token>, pos: usize) -> (r: Result<(Expr, usize), CompileError>)
    ensures
        parsed_as(r, g_term(toks_view(toks@), pos as int)),
        match r {
            Ok((e, p)) => pos < p <= toks.len(),
            Err(e) => e.kind == ErrorKind::Parse,
        },
    decreases toks.len() - pos, 1nat,
{
    let (mut node, mut p) = parse_factor(toks, pos)?;
    while p < toks.len() && (toks[p].tok_type == TokenType::Mult || toks[p].tok_type == TokenType::Div
        || toks[p].tok_type == TokenType::Mod)
        invariant
            pos < p <= toks.len(),
            g_term(toks_view(toks@), pos as int) == g_term_rest(toks_view(toks@), node@, p as int),
        decreases toks.len() - p,
    {
        let op = if toks[p].tok_type == TokenType::Mult {
            Operation::Mult
        } else if toks[p].tok_type == TokenType::Div {
            Operation::Div
        } else {
            Operation::Mod
        };
        let (rhs, q) = parse_factor(toks, p + 1)?;
        node = Expr::BiOp { lhs: Box::new(node), op, rhs: Box::new(rhs) };
        p = q;
    }
    Ok((node, p))
}

proof fn lemma_digits_nonneg(s: Seq<char>)
    requires
        forall|i: int| 0 <= i < s.len() ==> '0' <= #[trigger] s[i] <= '9',
    ensures
        digits_value(s) >= 0,
    decreases s.len(),
{
    if s.len() > 0 {
        lemma_digits_nonneg(s.drop_last());
    }
}

proof fn lemma_digits_monotone(s: Seq<char>, k: int)
    requires
        0 <= k <= s.len(),
        forall|i: int| 0 <= i < s.len() ==> '0' <= #[trigger] s[i] <= '9',
    ensures
        digits_value(s) >= digits_value(s.subrange(0, k)),
    decreases s.len() - k,
{
    if k < s.len() {
        let a = s.subrange(0, k);
        let b = s.subrange(0, k + 1);
        assert(b.drop_last() =~= a);
        lemma_digits_nonneg(a);
        lemma_digits_monotone(s, k + 1);
    } else {
        assert(s.subrange(0, k) =~= s);
    }
}

/// The value of a number token's text (see [`num_value`]).
pub fn parse_number(s: &str) -> (r: Option<i64>)
    ensures
        r == num_value(s@),
{
    let chars = crate::text::chars_of(s);
    if chars.len() == 0 {
        return None;
    }
    let mut v: i64 = 0;
    let mut i: usize = 0;
    while i < chars.len()
        invariant
            i <= chars.len(),
            chars@ == s@,
            forall|k: int| 0 <= k < i ==> '0' <= #[trigger] s@[k] <= '9',
            v == digits_value(s@.subrange(0, i as int)),
        decreases chars.len() - i,
    {
        let c = chars[i];
        proof {
            assert(s@.subrange(0, i + 1).drop_last() =~= s@.subrange(0, i as int));
        }
        if !('0' <= c && c <= '9') {
            return None;
        }
        let d = (c as u32 - '0' as u32) as i64;
        assert(d == c as int - '0' as int);
        proof {
            lemma_digits_nonneg(s@.subrange(0, i as int));
            let pre = s@.subrange(0, i + 1);
            assert(pre.last() == c);
            assert(pre.drop_last() =~= s@.subrange(0, i as int));
            assert(digits_value(pre) == v * 10 + d);
        }
        let m = match v.checked_mul(10) {
            Some(m) => m,
            None => {
                proof {
                    if num_value(s@) is Some {
                        lemma_digits_monotone(s@, i + 1);
                    }
                }
                return None;
            },
        };
        match m.checked_add(d) {
            Some(w) => v = w,
            None => {
                proof {
                    if num_value(s@) is Some {
                        lemma_digits_monotone(s@, i + 1);
                    }
                }
                return None;
            },
        }
        i = i + 1;
    }
    assert(s@.subrange(0, chars.len() as int) =~= s@);
    Some(v)
}

/// `factor ::= Num | Str | '(' comparison ')' | Ident | Ident '(' args ')'`.
pub fn parse_factor(toks: &Vec<Token>, pos: usize) -> (r: Result<(Expr, usize), CompileError>)
    ensures
        parsed_as(r, g_factor(toks_view(toks@), pos as int)),
        match r {
            Ok((e, p)) => pos < p <= toks.len(),
            Err(e) => e.kind == ErrorKind::Parse,
        },
    decreases toks.len() - pos, 0nat,
{
    if pos >= toks.len() {
        return Err(parse_err("Expected number or identifier or string or open paren", toks, pos));
    }
    let t = &toks[pos];
    match t.tok_type {
        TokenType::Num => match parse_number(t.val.as_str()) {
            Some(n) => Ok((Expr::Number(n), pos + 1)),
            None => Err(parse_err("Number literal out of range", toks, pos)),
        },
        TokenType::Str => Ok((Expr::Str(copy_string(&t.val)), pos + 1)),
        TokenType::Identifier => {
            if pos + 1 < toks.len() && toks[pos + 1].tok_type == TokenType::OpenParen {
                let (args, p) = args_parser(toks, pos + 2)?;
                Ok((Expr::Call { name: copy_string(&t.val), args }, p))
            } else {
                Ok((Expr::Ident(copy_string(&t.val)), pos + 1))
            }
        },
        TokenType::OpenParen => {
            let (e, p) = parse_comparison(toks, pos + 1)?;
            let q = expect(toks, p, TokenType::CloseParen, "Missing closing ')'")?;
            Ok((e, q))
        },
        _ => Err(parse_err("Expected number or identifier or string or open paren", toks, pos)),
    }
}

/// `args ::= ε | comparison (',' comparison)*`, then `)`; `pos` is just past
/// the opening parenthesis.
pub fn args_parser(toks: &Vec<Token>, pos: usize) -> (r: Result<(Vec<Expr>, usize), CompileError>)
    ensures
        match r {
            Ok((a, p)) => pos < p <= toks.len() && g_args(toks_view(toks@), pos as int) == Ok::<(Seq<ExprV>, int), ParseErr>((exprs_view(a@), p as int)),
            Err(e) => g_args(toks_view(toks@), pos as int) is Err && is_parse_error(e, g_args(toks_view(toks@), pos as int)->Err_0),
        },
    decreases toks.len() - pos, 7nat,
{
    let mut args: Vec<Expr> = Vec::new();
    if pos > toks.len() {
        return Err(parse_err("Expected number or identifier or string or open paren", toks, pos));
    }
    if pos < toks.len() && toks[pos].tok_type == TokenType::CloseParen {
        return Ok((args, pos + 1));
    }
    let mut p = pos;
    assert(exprs_view(args@) =~= Seq::<ExprV>::empty());
    loop
        invariant
            pos <= p <= toks.len(),
            g_args(toks_view(toks@), pos as int) == g_args_from(toks_view(toks@), exprs_view(args@), p as int),
        decreases toks.len() - p,
    {
        let (e, q) = parse_comparison(toks, p)?;
        proof {
            lemma_exprs_view_push(args@, e);
        }
        args.push(e);
        if q < toks.len() && toks[q].tok_type == TokenType::Comma {
            p = q + 1;
        } else {
            let end = expect(toks, q, TokenType::CloseParen, "Expected ',' or ')' after argument expression")?;
            return Ok((args, end));
        }
    }
}


/// Whether `sym` holds a run of the tokens written back, with the line of the
/// first of them.
pub open spec fn spelled_from(toks: Seq<TokenV>, sym: DebugSym) -> bool {
    exists|a: int, b: int|
        0 <= a < b <= toks.len() && #[trigger] spell_range(toks, a, b) == sym.val@ && sym.lineno
            == toks[a].line
}

fn debug_sym(toks: &Vec<Token>, a: usize, b: usize) -> (r: DebugSym)
    requires
        a < b <= toks.len(),
    ensures
        spelled_from(toks_view(toks@), r),
        r.val@ == spell_range(toks_view(toks@), a as int, b as int),
        r.lineno == toks@[a as int].lineno,
{
    let text = spell_tokens(toks, a, b);
    let r = DebugSym::new(text, toks[a].lineno);
    assert(spell_range(toks_view(toks@), a as int, b as int) == r.val@);
    r
}

/// A parameter list `type ident (',' type ident)*` and its `)`; `pos` is
/// just past the `(` (see [`g_params`]).
fn parse_params(toks: &Vec<Token>, pos: usize) -> (r: Result<(Vec<(Type, String)>, usize), CompileError>)
    ensures
        match r {
            Ok((ps, p)) => pos < p <= toks.len() && g_params(toks_view(toks@), pos as int) == Ok::<(Seq<ParamV>, int), ParseErr>(
                (crate::nodes::params_view(ps@), p as int),
            ),
            Err(e) => g_params(toks_view(toks@), pos as int) is Err && is_parse_error(e, g_params(toks_view(toks@), pos as int)->Err_0),
        },
{
    let ghost tv = toks_view(toks@);
    let mut ps: Vec<(Type, String)> = Vec::new();
    if pos < toks.len() && toks[pos].tok_type == TokenType::CloseParen {
        assert(crate::nodes::params_view(ps@) =~= Seq::<ParamV>::empty());
        return Ok((ps, pos + 1));
    }
    let mut p = pos;
    assert(crate::nodes::params_view(ps@) =~= Seq::<ParamV>::empty());
    loop
        invariant
            pos <= p,
            tv == toks_view(toks@),
            g_params(tv, pos as int) == g_params_from(tv, crate::nodes::params_view(ps@), p as int),
        decreases toks.len() - p,
    {
        let (t, q) = make_type(toks, p)?;
        let q2 = expect(toks, q, TokenType::Identifier, "Expected identifier after type")?;
        let ghost before = ps@;
        let ghost tt = t@;
        ps.push((t, copy_string(&toks[q].val)));
        assert(crate::nodes::params_view(ps@) =~= crate::nodes::params_view(before).push((tt, tv[q as int].val)));
        if q2 < toks.len() && toks[q2].tok_type == TokenType::Comma {
            p = q2 + 1;
        } else {
            let end = expect(toks, q2, TokenType::CloseParen, "Expected ')' or ',' after identifier")?;
            return Ok((ps, end));
        }
    }
}

/// A braced body starting at `pos`: the statements up to the matching `}`,
/// parsed on their own, and the position after it (see [`g_body`]).
pub fn sub_program(toks: &Vec<Token>, pos: usize) -> (r: Result<(Program, usize), CompileError>)
    ensures
        match r {
            Ok((b, p)) => pos < p <= toks.len() && g_body(toks_view(toks@), pos as int) == Ok::<(Seq<StmtV>, int), ParseErr>((b@, p as int)),
            Err(e) => g_body(toks_view(toks@), pos as int) is Err && is_parse_error(e, g_body(toks_view(toks@), pos as int)->Err_0),
        },
    decreases toks.len(), 0nat, 0int,
{
    let ghost tv = toks_view(toks@);
    let start = expect(toks, pos, TokenType::OpenBrace, "Expected '{' for body")?;
    let mut body: Vec<Token> = Vec::new();
    let mut depth: usize = 0;
    let mut p = start;
    assert(toks_view(body@) =~= tv.subrange(start as int, p as int));
    while p < toks.len() && !(toks[p].tok_type == TokenType::CloseBrace && depth == 0)
        invariant
            start <= p <= toks.len(),
            start == pos + 1,
            pos < toks.len(),
            tv == toks_view(toks@),
            tv[pos as int].kind == TokenType::OpenBrace,
            body.len() == p - start,
            toks_view(body@) == tv.subrange(start as int, p as int),
            brace_end(tv, start as int, 0) == brace_end(tv, p as int, depth as nat),
        decreases toks.len() - p,
    {
        let k = toks[p].tok_type;
        if k == TokenType::CloseBrace {
            depth = depth - 1;
        } else if k == TokenType::OpenBrace {
            if depth == usize::MAX {
                proof {
                    assert(brace_end(tv, p as int, depth as nat) == err_at::<int>(tv, "Blocks nested too deeply"@, p as int));
                    assert(g_body(tv, pos as int) == err_at::<(Seq<StmtV>, int)>(tv, "Blocks nested too deeply"@, p as int));
                }
                return Err(parse_err("Blocks nested too deeply", toks, p));
            }
            depth = depth + 1;
        }
        let ghost before = body@;
        body.push(toks[p].copy());
        assert(toks_view(body@) =~= tv.subrange(start as int, p + 1));
        p = p + 1;
    }
    let end = expect(toks, p, TokenType::CloseBrace, "Expected '}' for body")?;
    let prog = make_ast(&body)?;
    Ok((prog, end))
}

/// The view of a parsed statement, if any.
pub open spec fn opt_stmt_view(o: Option<(DebugSym, Node)>) -> Option<StmtV> {
    match o {
        Some(st) => Some(StmtV { line: st.0.lineno as nat, text: st.0.val@, node: st.1@ }),
        None => None,
    }
}

/// One statement at `pos`, or nothing for a stray `;`; and the position
/// after it.
#[verifier::rlimit(100)]
fn parse_statement(toks: &Vec<Token>, pos: usize) -> (r: Result<(Option<(DebugSym, Node)>, usize), CompileError>)
    requires
        pos < toks.len(),
    ensures
        match r {
            Ok((o, p)) => pos < p <= toks.len() && (o is Some ==> spelled_from(toks_view(toks@), o->Some_0.0))
                && g_statement(toks_view(toks@), pos as int) == Ok::<(Option<StmtV>, int), ParseErr>((opt_stmt_view(o), p as int)),
            Err(e) => g_statement(toks_view(toks@), pos as int) is Err && is_parse_error(e, g_statement(toks_view(toks@), pos as int)->Err_0),
        },
    decreases toks.len(), 0nat, 2int,
{
    let ghost tv = toks_view(toks@);
    let k = toks[pos].tok_type;
    if is_type_kind_exec(k) || k == TokenType::Pub {
        let mut p = pos;
        let mut linkage = Linkage::Private;
        if k == TokenType::Pub {
            linkage = Linkage::Public;
            p = p + 1;
        }
        let is_void = p < toks.len() && toks[p].tok_type == TokenType::Void;
        let (typ, q) = make_type(toks, p)?;
        let q2 = expect(toks, q, TokenType::Identifier, "Expected identifier after type")?;
        let name = copy_string(&toks[q].val);
        match kind_of(toks, q2) {
            Some(TokenType::Assign) => {
                if is_void {
                    return Err(parse_err("Cannot have void for variable type", toks, p));
                }
                let (e, r) = parse_comparison(toks, q2 + 1)?;
                let end = expect(toks, r, TokenType::Semicolon, "Expected ';' after expression")?;
                let sym = debug_sym(toks, pos, end);
                Ok((Some((sym, Node::VarDefine { typ, ident: name, expr: Some(e) })), end))
            },
            Some(TokenType::Semicolon) => {
                if is_void {
                    return Err(parse_err("Cannot have void for variable type", toks, p));
                }
                let sym = debug_sym(toks, pos, q2 + 1);
                Ok((Some((sym, Node::VarDefine { typ, ident: name, expr: None })), q2 + 1))
            },
            Some(TokenType::OpenParen) => {
                let (args, r) = parse_params(toks, q2 + 1)?;
                let sym = debug_sym(toks, pos, r);
                let (body, end) = sub_program(toks, r)?;
                Ok((Some((sym, Node::Function { ret_type: typ, name, args, body, linkage })), end))
            },
            _ => Err(parse_err("Expected '=' or '(' or ';' after identifier", toks, q2)),
        }
    } else if k == TokenType::Extern {
        let (ret_type, q) = make_type(toks, pos + 1)?;
        let q2 = expect(toks, q, TokenType::Identifier, "Expected identifier after type")?;
        let name = copy_string(&toks[q].val);
        let q3 = expect(toks, q2, TokenType::OpenParen, "Expected '(' after extern name")?;
        let (args, r) = parse_params(toks, q3)?;
        let end = expect(toks, r, TokenType::Semicolon, "Expected ';' after extern declaration")?;
        let sym = debug_sym(toks, pos, end);
        Ok((Some((sym, Node::Extern { name, args, ret_type })), end))
    } else if k == TokenType::If || k == TokenType::While {
        let q = expect(toks, pos + 1, TokenType::OpenParen, "Expected '(' before condition")?;
        let (cond, r) = parse_comparison(toks, q)?;
        let r2 = expect(toks, r, TokenType::CloseParen, "Expected ')' after condition")?;
        let sym = debug_sym(toks, pos, r2);
        let (body, end) = sub_program(toks, r2)?;
        if k == TokenType::If {
            Ok((Some((sym, Node::If { cond, body })), end))
        } else {
            Ok((Some((sym, Node::While { cond, body })), end))
        }
    } else if k == TokenType::Return {
        if pos + 1 < toks.len() && toks[pos + 1].tok_type == TokenType::Semicolon {
            let sym = debug_sym(toks, pos, pos + 2);
            Ok((Some((sym, Node::Return(None))), pos + 2))
        } else {
            let (e, r) = parse_comparison(toks, pos + 1)?;
            let end = expect(toks, r, TokenType::Semicolon, "Expected ';' after return expression")?;
            let sym = debug_sym(toks, pos, end);
            Ok((Some((sym, Node::Return(Some(e)))), end))
        }
    } else if k == TokenType::Import {
        let mut segs: Vec<String> = Vec::new();
        let mut p = pos + 1;
        assert(segs@.map_values(|x: String| x@) =~= Seq::<Seq<char>>::empty());
        loop
            invariant
                pos < p,
                pos < toks.len(),
                tv == toks_view(toks@),
                tv[pos as int].kind == TokenType::Import,
                g_import(tv, Seq::empty(), pos + 1) == g_import(tv, segs@.map_values(|x: String| x@), p as int),
            decreases toks.len() - p,
        {
            let q = expect(toks, p, TokenType::Identifier, "Expected module name")?;
            let ghost before = segs@;
            segs.push(copy_string(&toks[p].val));
            assert(segs@.map_values(|x: String| x@) =~= before.map_values(|x: String| x@).push(tv[p as int].val));
            match kind_of(toks, q) {
                Some(TokenType::Semicolon) => {
                    let sym = debug_sym(toks, pos, q + 1);
                    return Ok((Some((sym, Node::Import(segs))), q + 1));
                },
                Some(TokenType::Dot) | Some(TokenType::Colon) => {
                    p = q + 1;
                },
                _ => {
                    return Err(parse_err("Expected '.' or ':' or ';' after module name", toks, q));
                },
            }
        }
    } else if k == TokenType::URCLBlock {
        let q = expect(toks, pos + 1, TokenType::Str, "Expected URCL code in string after keyword")?;
        let end = expect(toks, q, TokenType::Semicolon, "Expected ';' after URCL block string")?;
        let text = copy_string(&toks[pos + 1].val);
        let sym = debug_sym(toks, pos, end);
        Ok((Some((sym, Node::InlineURCL(text))), end))
    } else if k == TokenType::Identifier {
        let name = copy_string(&toks[pos].val);
        match kind_of(toks, pos + 1) {
            Some(TokenType::Assign) => {
                let (e, r) = parse_comparison(toks, pos + 2)?;
                let end = expect(toks, r, TokenType::Semicolon, "Expected ';' after variable assignment")?;
                let sym = debug_sym(toks, pos, end);
                Ok((Some((sym, Node::VarAssign { ident: name, expr: e })), end))
            },
            Some(TokenType::OpenParen) => {
                let (args, r) = args_parser(toks, pos + 2)?;
                let end = expect(toks, r, TokenType::Semicolon, "Expected ';' after function call")?;
                let sym = debug_sym(toks, pos, end);
                Ok((Some((sym, Node::FuncCall { name, args })), end))
            },
            _ => Err(parse_err("Expected '=' or '(' after identifier", toks, pos + 1)),
        }
    } else if k == TokenType::Semicolon {
        Ok((None, pos + 1))
    } else {
        Err(parse_err("Unexpected token", toks, pos))
    }
}

fn is_type_kind_exec(k: TokenType) -> (r: bool)
    ensures
        r == is_type_kind(k),
{
    k == TokenType::Void || k == TokenType::Int || k == TokenType::Uint || k == TokenType::Float
        || k == TokenType::String || k == TokenType::Character
}

/// Parses a token list into a program. Every statement's debug symbol holds
/// its tokens written back (up to the body for a function, `if` or
/// `while`) and the line of its first token.
pub fn make_ast(toks: &Vec<Token>) -> (r: Result<Program, CompileError>)
    ensures
        match r {
            Ok(p) => g_program(toks_view(toks@)) == Ok::<Seq<StmtV>, ParseErr>(p@) && forall|i: int|
                0 <= i < p.statements@.len() ==> spelled_from(toks_view(toks@), #[trigger] p.statements@[i].0),
            Err(e) => g_program(toks_view(toks@)) is Err && is_parse_error(e, g_program(toks_view(toks@))->Err_0),
        },
    decreases toks.len(), 2nat, 0int,
{
    let ghost tv = toks_view(toks@);
    let mut prog = Program::new();
    let mut pos: usize = 0;
    assert(prog@ =~= Seq::<StmtV>::empty());
    while pos < toks.len()
        invariant
            pos <= toks.len(),
            tv == toks_view(toks@),
            g_program(tv) == g_program_from(tv, pos as int, prog@),
            forall|i: int| 0 <= i < prog.statements@.len() ==> spelled_from(toks_view(toks@), #[trigger] prog.statements@[i].0),
        decreases toks.len() - pos,
    {
        let (o, p) = parse_statement(toks, pos)?;
        if let Some(st) = o {
            proof {
                crate::nodes::lemma_stmts_view_push(prog.statements@, st);
            }
            prog.statements.push(st);
        }
        pos = p;
    }
    Ok(prog)
}

} // verus!
