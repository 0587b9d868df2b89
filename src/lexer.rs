//! The lexer: source text to tokens with line and column spans.
use vstd::prelude::*;
use crate::diag::{CompileError, ErrorKind};
use crate::text::{chars_of, push_char, push_nat, str_is};

verus! {

broadcast use vstd::std_specs::vec::group_vec_axioms, vstd::seq::group_seq_axioms;

/// The kind of a token.
#[derive(Debug, Clone, Copy, PartialEq, Eq, Structural)]
pub enum TokenType {
    Void,
    Int,
    Uint,
    Float,
    String,
    Character,
    Identifier,
    Assign,
    Num,
    Flt,
    Str,
    Char,
    OpenParen,
    CloseParen,
    Comma,
    Semicolon,
    Plus,
    Minus,
    Mult,
    Div,
    Mod,
    OpenBrace,
    CloseBrace,
    If,
    Else,
    While,
    EQ,
    NEQ,
    GT,
    GTE,
    LT,
    LTE,
    Import,
    Dot,
    Colon,
    URCLBlock,
    Return,
    Extern,
    Pub,
}

/// A token: its kind, its text, and where it stands. Columns count from 1;
/// the span `start..end` is half-open.
#[derive(Debug)]
pub struct Token {
    pub lineno: usize,
    pub tok_type: TokenType,
    pub val: String,
    pub start: usize,
    pub end: usize,
}

impl Token {
    /// A copy with the same fields.
    pub fn copy(&self) -> (r: Token)
        ensures
            r.lineno == self.lineno,
            r.tok_type == self.tok_type,
            r.val@ == self.val@,
            r.start == self.start,
            r.end == self.end,
    {
        Token {
            lineno: self.lineno,
            tok_type: self.tok_type,
            val: crate::text::copy_string(&self.val),
            start: self.start,
            end: self.end,
        }
    }
}

/// Whether `a` ends before `b` starts: on an earlier line, or on the same line
/// at or before `b`'s first column.
pub open spec fn precedes(a: Token, b: Token) -> bool {
    a.lineno < b.lineno || (a.lineno == b.lineno && a.end <= b.start)
}

/// Token spans are non-empty, do not overlap and
/// come in source order.
pub open spec fn spans_ordered(ts: Seq<Token>) -> bool {
    &&& forall|i: int| 0 <= i < ts.len() ==> 1 <= (#[trigger] ts[i]).start < ts[i].end
    &&& forall|i: int, j: int| 0 <= i < j < ts.len() ==> precedes(#[trigger] ts[i], #[trigger] ts[j])
}

/// The kind of a word: a keyword's own kind, or `Identifier`.
pub open spec fn word_kind(w: Seq<char>) -> TokenType {
    if w == "int8"@ || w == "int16"@ || w == "int32"@ || w == "int64"@ {
        TokenType::Int
    } else if w == "uint8"@ || w == "uint16"@ || w == "uint32"@ || w == "uint64"@ {
        TokenType::Uint
    } else if w == "float32"@ || w == "float64"@ {
        TokenType::Float
    } else if w == "void"@ {
        TokenType::Void
    } else if w == "string"@ {
        TokenType::String
    } else if w == "char"@ {
        TokenType::Character
    } else if w == "if"@ {
        TokenType::If
    } else if w == "else"@ {
        TokenType::Else
    } else if w == "while"@ {
        TokenType::While
    } else if w == "import"@ {
        TokenType::Import
    } else if w == "urcl"@ {
        TokenType::URCLBlock
    } else if w == "return"@ {
        TokenType::Return
    } else if w == "extern"@ {
        TokenType::Extern
    } else if w == "pub"@ {
        TokenType::Pub
    } else {
        TokenType::Identifier
    }
}

/// Classifies a word against the keyword table (see [`word_kind`]).
pub fn classify_word(w: &str) -> (r: TokenType)
    ensures
        r == word_kind(w@),
{
    if str_is(w, "int8") || str_is(w, "int16") || str_is(w, "int32") || str_is(w, "int64") {
        TokenType::Int
    } else if str_is(w, "uint8") || str_is(w, "uint16") || str_is(w, "uint32") || str_is(w, "uint64") {
        TokenType::Uint
    } else if str_is(w, "float32") || str_is(w, "float64") {
        TokenType::Float
    } else if str_is(w, "void") {
        TokenType::Void
    } else if str_is(w, "string") {
        TokenType::String
    } else if str_is(w, "char") {
        TokenType::Character
    } else if str_is(w, "if") {
        TokenType::If
    } else if str_is(w, "else") {
        TokenType::Else
    } else if str_is(w, "while") {
        TokenType::While
    } else if str_is(w, "import") {
        TokenType::Import
    } else if str_is(w, "urcl") {
        TokenType::URCLBlock
    } else if str_is(w, "return") {
        TokenType::Return
    } else if str_is(w, "extern") {
        TokenType::Extern
    } else if str_is(w, "pub") {
        TokenType::Pub
    } else {
        TokenType::Identifier
    }
}

/// What `char::is_alphabetic` answers for `c`.
pub uninterp spec fn alphabetic(c: char) -> bool;

/// What `char::is_alphanumeric` answers for `c`.
pub uninterp spec fn alphanumeric(c: char) -> bool;

/// Relies on `char::is_alphabetic`: the Unicode `Alphabetic` property of `c`.
#[verifier::external_body]
fn is_alphabetic(c: char) -> (r: bool)
    ensures
        r == alphabetic(c),
{
    c.is_alphabetic()
}

/// Relies on `char::is_alphanumeric`: `Alphabetic` or `Numeric` of `c`.
#[verifier::external_body]
fn is_alphanumeric(c: char) -> (r: bool)
    ensures
        r == alphanumeric(c),
{
    c.is_alphanumeric()
}

/// What `char::is_alphabetic` answers for each character of `cs`.
pub open spec fn alpha_classes(cs: Seq<char>) -> Seq<bool> {
    cs.map_values(|c: char| alphabetic(c))
}

/// What `char::is_alphanumeric` answers for each character of `cs`.
pub open spec fn alnum_classes(cs: Seq<char>) -> Seq<bool> {
    cs.map_values(|c: char| alphanumeric(c))
}

/// The kind of a one-character punctuator.
pub open spec fn punct_kind(c: char) -> Option<TokenType> {
    if c == ';' {
        Some(TokenType::Semicolon)
    } else if c == '+' {
        Some(TokenType::Plus)
    } else if c == '-' {
        Some(TokenType::Minus)
    } else if c == '*' {
        Some(TokenType::Mult)
    } else if c == '/' {
        Some(TokenType::Div)
    } else if c == '%' {
        Some(TokenType::Mod)
    } else if c == '(' {
        Some(TokenType::OpenParen)
    } else if c == ')' {
        Some(TokenType::CloseParen)
    } else if c == ',' {
        Some(TokenType::Comma)
    } else if c == '{' {
        Some(TokenType::OpenBrace)
    } else if c == '}' {
        Some(TokenType::CloseBrace)
    } else if c == '.' {
        Some(TokenType::Dot)
    } else if c == ':' {
        Some(TokenType::Colon)
    } else {
        None
    }
}

fn punct_kind_of(c: char) -> (r: Option<TokenType>)
    ensures
        r == punct_kind(c),
{
    if c == ';' {
        Some(TokenType::Semicolon)
    } else if c == '+' {
        Some(TokenType::Plus)
    } else if c == '-' {
        Some(TokenType::Minus)
    } else if c == '*' {
        Some(TokenType::Mult)
    } else if c == '/' {
        Some(TokenType::Div)
    } else if c == '%' {
        Some(TokenType::Mod)
    } else if c == '(' {
        Some(TokenType::OpenParen)
    } else if c == ')' {
        Some(TokenType::CloseParen)
    } else if c == ',' {
        Some(TokenType::Comma)
    } else if c == '{' {
        Some(TokenType::OpenBrace)
    } else if c == '}' {
        Some(TokenType::CloseBrace)
    } else if c == '.' {
        Some(TokenType::Dot)
    } else if c == ':' {
        Some(TokenType::Colon)
    } else {
        None
    }
}

/// The character an escape `\e` stands for, in string and character literals.
pub open spec fn escape_of(e: char) -> Option<char> {
    if e == 'n' {
        Some('\n')
    } else if e == 't' {
        Some('\t')
    } else if e == '\'' {
        Some('\'')
    } else if e == '"' {
        Some('"')
    } else if e == '\\' {
        Some('\\')
    } else {
        None
    }
}

fn escape(e: char) -> (r: Option<char>)
    ensures
        r == escape_of(e),
{
    if e == 'n' {
        Some('\n')
    } else if e == 't' {
        Some('\t')
    } else if e == '\'' {
        Some('\'')
    } else if e == '"' {
        Some('"')
    } else if e == '\\' {
        Some('\\')
    } else {
        None
    }
}

/// A cursor over the characters of the source.
pub struct Buffer {
    data: Vec<char>,
    index: usize,
}

impl Buffer {
    pub closed spec fn chars(&self) -> Seq<char> {
        self.data@
    }

    pub closed spec fn index(&self) -> nat {
        self.index as nat
    }

    pub fn new(src: &str) -> (r: Buffer)
        ensures
            r.chars() == src@,
            r.index() == 0,
    {
        Buffer { data: chars_of(src), index: 0 }
    }

    pub fn in_bounds(&self) -> (r: bool)
        ensures
            r == (self.index() < self.chars().len()),
    {
        self.index < self.data.len()
    }

    pub fn advance(&mut self)
        requires
            old(self).index() < old(self).chars().len(),
        ensures
            final(self).chars() == old(self).chars(),
            final(self).index() == old(self).index() + 1,
    {
        assert(self.data@.len() == self.data.len());
        self.index = self.index + 1;
    }

    /// The character under the cursor, if any.
    pub fn current(&self) -> (r: Option<char>)
        ensures
            self.index() < self.chars().len() ==> r == Some(self.chars()[self.index() as int]),
            self.index() >= self.chars().len() ==> r is None,
    {
        if self.index < self.data.len() {
            Some(self.data[self.index])
        } else {
            None
        }
    }

    /// Advances, then gives the character under the cursor, if any.
    pub fn next(&mut self) -> (r: Option<char>)
        requires
            old(self).index() < old(self).chars().len(),
        ensures
            final(self).chars() == old(self).chars(),
            final(self).index() == old(self).index() + 1,
            final(self).index() < final(self).chars().len() ==> r == Some(
                final(self).chars()[final(self).index() as int],
            ),
            final(self).index() >= final(self).chars().len() ==> r is None,
    {
        self.advance();
        self.current()
    }

    pub fn pos(&self) -> (r: usize)
        ensures
            r == self.index(),
    {
        self.index
    }

    /// The column of the cursor on a line whose first character is at
    /// `line_start`, counting from 1.
    pub fn line_pos(&self, line_start: usize) -> (r: usize)
        requires
            line_start <= self.index() <= self.chars().len(),
            self.chars().len() < usize::MAX,
        ensures
            r == self.index() - line_start + 1,
    {
        assert(self.data@.len() == self.data.len());
        self.index - line_start + 1
    }
}

/// Whether token `t` ends at or before column `col` of line `line`.
pub open spec fn before_pos(t: Token, line: nat, col: nat) -> bool {
    t.lineno < line || (t.lineno == line && t.end <= col)
}

fn lex_error(msg: &str, line: usize, start: usize, end: usize) -> (r: CompileError)
    ensures
        r.kind == ErrorKind::Lex,
        r.message@ == msg@,
        r.lineno == line,
{
    CompileError::new(ErrorKind::Lex, String::from_str(msg), line, start, end)
}

/// A token's view.
pub struct TokenV {
    pub line: nat,
    pub kind: TokenType,
    pub val: Seq<char>,
    pub start: nat,
    pub end: nat,
}

pub open spec fn tok_view(t: Token) -> TokenV {
    TokenV { line: t.lineno as nat, kind: t.tok_type, val: t.val@, start: t.start as nat, end: t.end as nat }
}

pub open spec fn toks_view(ts: Seq<Token>) -> Seq<TokenV> {
    ts.map_values(|t: Token| tok_view(t))
}

/// Where an identifier that continues at `j` ends, where `an` tells which
/// characters are alphanumeric (`_` also continues one).
pub open spec fn word_end(cs: Seq<char>, an: Seq<bool>, j: int) -> int
    decreases cs.len() - j,
{
    if 0 <= j < cs.len() && ((j < an.len() && an[j]) || cs[j] == '_') {
        word_end(cs, an, j + 1)
    } else {
        j
    }
}

/// Where a run of decimal digits that continues at `j` ends.
pub open spec fn digits_end(cs: Seq<char>, j: int) -> int
    decreases cs.len() - j,
{
    if 0 <= j < cs.len() && '0' <= cs[j] <= '9' {
        digits_end(cs, j + 1)
    } else {
        j
    }
}

/// The body of a string literal from `j` (just past the opening quote): its
/// text with escapes replaced, and the index of the closing quote; or the
/// message for a newline, an invalid escape or the end of input met first.
pub open spec fn str_scan(cs: Seq<char>, j: int) -> Result<(Seq<char>, int), Seq<char>>
    decreases cs.len() - j,
{
    if j < 0 || j >= cs.len() {
        Err("Unterminated string"@)
    } else if cs[j] == '"' {
        Ok((Seq::empty(), j))
    } else if cs[j] == '\n' {
        Err("Unterminated string"@)
    } else if cs[j] == '\\' {
        if j + 1 >= cs.len() {
            Err("Unterminated string"@)
        } else if escape_of(cs[j + 1]) is None {
            Err("Invalid escape character"@)
        } else {
            match str_scan(cs, j + 2) {
                Ok((t, k)) => Ok((seq![escape_of(cs[j + 1])->Some_0] + t, k)),
                Err(m) => Err(m),
            }
        }
    } else {
        match str_scan(cs, j + 1) {
            Ok((t, k)) => Ok((seq![cs[j]] + t, k)),
            Err(m) => Err(m),
        }
    }
}

/// A character literal from `j` (just past the opening quote): the
/// character and the index just past the closing quote; or the message for
/// what is wrong with it.
pub open spec fn char_lit(cs: Seq<char>, j: int) -> Result<(char, int), Seq<char>> {
    if j < 0 || j >= cs.len() || cs[j] == '\n' {
        Err("Expected character after '"@)
    } else if cs[j] == '\\' {
        if j + 1 >= cs.len() {
            Err("Expected escape character after \\"@)
        } else if escape_of(cs[j + 1]) is None {
            Err("Invalid escape character"@)
        } else if j + 2 < cs.len() && cs[j + 2] == '\'' {
            Ok((escape_of(cs[j + 1])->Some_0, j + 3))
        } else {
            Err("Expected closing ' for character literal"@)
        }
    } else if j + 1 < cs.len() && cs[j + 1] == '\'' {
        Ok((cs[j], j + 2))
    } else {
        Err("Expected closing ' for character literal"@)
    }
}

/// A lexical error: its message and its line.
pub type LexErr = (Seq<char>, nat);

/// A token in front of the rest of the tokens, if the rest lexes.
pub open spec fn prepend(t: TokenV, r: Result<Seq<TokenV>, LexErr>) -> Result<Seq<TokenV>, LexErr> {
    match r {
        Ok(x) => Ok(seq![t] + x),
        Err(e) => Err(e),
    }
}

/// The kind of `=`, `<`, `>` or `!` followed by `=`.
pub open spec fn two_char_kind(c: char) -> TokenType {
    if c == '=' {
        TokenType::EQ
    } else if c == '<' {
        TokenType::LTE
    } else if c == '>' {
        TokenType::GTE
    } else {
        TokenType::NEQ
    }
}

/// The kind of `=`, `<` or `>` alone.
pub open spec fn one_char_kind(c: char) -> TokenType {
    if c == '=' {
        TokenType::Assign
    } else if c == '<' {
        TokenType::LT
    } else {
        TokenType::GT
    }
}

/// The tokens of `cs` from index `i`, on line `line` whose first character
/// is at `ls`, where `al` and `an` tell which characters are alphabetic and
/// alphanumeric; or the first lexical error. An identifier starts with an
/// alphabetic character or `_` and continues with alphanumeric ones or `_`.
pub open spec fn lex_classes(cs: Seq<char>, al: Seq<bool>, an: Seq<bool>, i: int, line: nat, ls: int) -> Result<Seq<TokenV>, LexErr>
    decreases cs.len() - i,
{
    if i < 0 || i >= cs.len() {
        Ok(Seq::empty())
    } else {
        let c = cs[i];
        let col = (i - ls + 1) as nat;
        if c == ' ' || c == '\t' || c == '\r' {
            lex_classes(cs, al, an, i + 1, line, ls)
        } else if c == '\n' {
            lex_classes(cs, al, an, i + 1, line + 1, i + 1)
        } else if punct_kind(c) is Some {
            prepend(
                TokenV { line, kind: punct_kind(c)->Some_0, val: seq![c], start: col, end: col + 1 },
                lex_classes(cs, al, an, i + 1, line, ls),
            )
        } else if c == '=' || c == '<' || c == '>' || c == '!' {
            if i + 1 < cs.len() && cs[i + 1] == '=' {
                prepend(
                    TokenV { line, kind: two_char_kind(c), val: seq![c, '='], start: col, end: col + 2 },
                    lex_classes(cs, al, an, i + 2, line, ls),
                )
            } else if c == '!' {
                Err(("Unexpected character '!'"@, line))
            } else {
                prepend(
                    TokenV { line, kind: one_char_kind(c), val: seq![c], start: col, end: col + 1 },
                    lex_classes(cs, al, an, i + 1, line, ls),
                )
            }
        } else if c == '\'' {
            match char_lit(cs, i + 1) {
                Ok((ch, k)) => prepend(
                    TokenV {
                        line,
                        kind: TokenType::Num,
                        val: crate::text::dec_nat(ch as u32 as nat),
                        start: col,
                        end: (k - ls + 1) as nat,
                    },
                    lex_classes(cs, al, an, k, line, ls),
                ),
                Err(m) => Err((m, line)),
            }
        } else if c == '"' {
            match str_scan(cs, i + 1) {
                Ok((t, k)) => if i < k < cs.len() {
                    prepend(
                        TokenV { line, kind: TokenType::Str, val: t, start: col, end: (k + 1 - ls + 1) as nat },
                        lex_classes(cs, al, an, k + 1, line, ls),
                    )
                } else {
                    Err(("Unterminated string"@, line))
                },
                Err(m) => Err((m, line)),
            }
        } else if (i < al.len() && al[i]) || c == '_' {
            let e = word_end(cs, an, i + 1);
            if i < e <= cs.len() {
                let w = cs.subrange(i, e);
                prepend(
                    TokenV { line, kind: word_kind(w), val: w, start: col, end: (e - ls + 1) as nat },
                    lex_classes(cs, al, an, e, line, ls),
                )
            } else {
                Err(("Unexpected character"@, line))
            }
        } else if '0' <= c <= '9' {
            let e = digits_end(cs, i + 1);
            if i < e <= cs.len() {
                prepend(
                    TokenV { line, kind: TokenType::Num, val: cs.subrange(i, e), start: col, end: (e - ls + 1) as nat },
                    lex_classes(cs, al, an, e, line, ls),
                )
            } else {
                Err(("Unexpected character"@, line))
            }
        } else {
            Err(("Unexpected character"@, line))
        }
    }
}

/// The tokens of `cs` from index `i`, with the character classes that
/// `char::is_alphabetic` and `char::is_alphanumeric` give.
pub open spec fn lex(cs: Seq<char>, i: int, line: nat, ls: int) -> Result<Seq<TokenV>, LexErr> {
    lex_classes(cs, alpha_classes(cs), alnum_classes(cs), i, line, ls)
}

/// The tokens so far in front of the rest.
pub open spec fn after(a: Seq<TokenV>, r: Result<Seq<TokenV>, LexErr>) -> Result<Seq<TokenV>, LexErr> {
    match r {
        Ok(x) => Ok(a + x),
        Err(e) => Err(e),
    }
}

proof fn lemma_after_prepend(a: Seq<TokenV>, t: TokenV, r: Result<Seq<TokenV>, LexErr>)
    ensures
        after(a, prepend(t, r)) == after(a.push(t), r),
{
    if let Ok(x) = r {
        assert(a + (seq![t] + x) =~= a.push(t) + x);
    }
}

proof fn lemma_word_end(cs: Seq<char>, an: Seq<bool>, j: int)
    requires
        0 <= j <= cs.len(),
    ensures
        j <= word_end(cs, an, j) <= cs.len(),
    decreases cs.len() - j,
{
    if j < cs.len() && ((j < an.len() && an[j]) || cs[j] == '_') {
        lemma_word_end(cs, an, j + 1);
    }
}

proof fn lemma_digits_end(cs: Seq<char>, j: int)
    requires
        0 <= j <= cs.len(),
    ensures
        j <= digits_end(cs, j) <= cs.len(),
    decreases cs.len() - j,
{
    if j < cs.len() && '0' <= cs[j] <= '9' {
        lemma_digits_end(cs, j + 1);
    }
}

proof fn lemma_str_scan(cs: Seq<char>, j: int)
    requires
        0 <= j,
        str_scan(cs, j) is Ok,
    ensures
        j <= str_scan(cs, j)->Ok_0.1 < cs.len(),
        cs[str_scan(cs, j)->Ok_0.1] == '"',
    decreases cs.len() - j,
{
    if cs[j] == '\\' {
        lemma_str_scan(cs, j + 2);
    } else if cs[j] != '"' {
        lemma_str_scan(cs, j + 1);
    }
}

/// Splits source text into tokens (see [`lex_classes`]), where `alpha[i]`
/// and `alnum[i]` tell whether character `i` is alphabetic and alphanumeric
/// (missing entries count as no). Lines count from 0 at the start of the
/// text; a newline starts the next one. Whitespace (space, tab,
/// carriage return) is skipped and a newline starts the next line. Operators
/// take the longest match; words are classified against the keyword table; a
/// character literal becomes a `Num` token holding its code. An unterminated
/// string, an invalid escape or a character that starts no token is a
/// lexical error. Token spans do not overlap and come in source order.
#[verifier::rlimit(100)]
pub fn tokenize_classified(src: &str, alpha: &Vec<bool>, alnum: &Vec<bool>) -> (res: Result<Vec<Token>, CompileError>)
    requires
        src@.len() < usize::MAX,
    ensures
        match res {
            Ok(ts) => lex_classes(src@, alpha@, alnum@, 0, 0, 0) == Ok::<Seq<TokenV>, LexErr>(toks_view(ts@)) && spans_ordered(ts@),
            Err(e) => lex_classes(src@, alpha@, alnum@, 0, 0, 0) == Err::<Seq<TokenV>, LexErr>((e.message@, e.lineno as nat))
                && e.kind == ErrorKind::Lex,
        },
{
    let mut buf = Buffer::new(src);
    let n = buf.data.len();
    let ghost cs = src@;
    let mut res: Vec<Token> = Vec::new();
    let mut line: usize = 0;
    let mut line_start: usize = 0;
    assert(toks_view(res@) =~= Seq::<TokenV>::empty());
    while buf.index < n
        invariant
            n == buf.data.len(),
            n < usize::MAX,
            buf.data@ == cs,
            cs == src@,
            line_start <= buf.index <= n,
            line <= buf.index,
            spans_ordered(res@),
            forall|k: int|
                0 <= k < res@.len() ==> before_pos(
                    #[trigger] res@[k],
                    line as nat,
                    (buf.index - line_start + 1) as nat,
                ),
            lex_classes(cs, alpha@, alnum@, 0, 0, 0) == after(toks_view(res@), lex_classes(cs, alpha@, alnum@, buf.index as int, line as nat, line_start as int)),
        decreases n - buf.index,
    {
        let c = buf.data[buf.index];
        let start = buf.line_pos(line_start);
        let tok_start = buf.index;
        let mut kind = TokenType::Semicolon;
        let mut val = String::new();
        let ghost old_line = line;
        let ghost old_ls = line_start;
        if c == ' ' || c == '\t' || c == '\r' {
            buf.advance();
            continue;
        } else if c == '\n' {
            buf.advance();
            line = line + 1;
            line_start = buf.index;
            continue;
        } else if let Some(k) = punct_kind_of(c) {
            kind = k;
            push_char(&mut val, c);
            buf.advance();
            assert(val@ =~= seq![c]);
        } else if c == '=' || c == '<' || c == '>' || c == '!' {
            push_char(&mut val, c);
            buf.advance();
            let two = buf.index < n && buf.data[buf.index] == '=';
            if two {
                push_char(&mut val, '=');
                buf.advance();
                assert(val@ =~= seq![c, '=']);
                kind = if c == '=' {
                    TokenType::EQ
                } else if c == '<' {
                    TokenType::LTE
                } else if c == '>' {
                    TokenType::GTE
                } else {
                    TokenType::NEQ
                };
            } else if c == '!' {
                return Err(lex_error("Unexpected character '!'", line, start, start + 1));
            } else {
                assert(val@ =~= seq![c]);
                kind = if c == '=' {
                    TokenType::Assign
                } else if c == '<' {
                    TokenType::LT
                } else {
                    TokenType::GT
                };
            }
        } else if c == '\'' {
            buf.advance();
            if buf.index >= n || buf.data[buf.index] == '\n' {
                return Err(lex_error("Expected character after '", line, start, start + 1));
            }
            let mut ch = buf.data[buf.index];
            if ch == '\\' {
                buf.advance();
                if buf.index >= n {
                    return Err(lex_error("Expected escape character after \\", line, start, start + 1));
                }
                match escape(buf.data[buf.index]) {
                    Some(e) => ch = e,
                    None => return Err(lex_error("Invalid escape character", line, start, start + 1)),
                }
            }
            buf.advance();
            if buf.index >= n || buf.data[buf.index] != '\'' {
                return Err(lex_error("Expected closing ' for character literal", line, start, start + 1));
            }
            buf.advance();
            kind = TokenType::Num;
            let code: u32 = ch as u32;
            push_nat(&mut val, code as u128);
            assert(val@ =~= crate::text::dec_nat(ch as u32 as nat));
        } else if c == '"' {
            buf.advance();
            loop
                invariant
                    n == buf.data.len(),
                    n < usize::MAX,
                    buf.data@ == cs,
                    tok_start < buf.index <= n,
                    line_start <= tok_start,
                    start == tok_start - line_start + 1,
                    cs == src@,
                    cs.len() == n,
                    cs[tok_start as int] == '"',
                    lex_classes(cs, alpha@, alnum@, 0, 0, 0) == after(toks_view(res@), lex_classes(cs, alpha@, alnum@, tok_start as int, line as nat, line_start as int)),
                    str_scan(cs, tok_start + 1) == (match str_scan(cs, buf.index as int) {
                        Ok((t, k)) => Ok((val@ + t, k)),
                        Err(m) => Err(m),
                    }),
                ensures
                    tok_start < buf.index < n,
                    cs[buf.index as int] == '"',
                    str_scan(cs, tok_start + 1) == Ok::<(Seq<char>, int), Seq<char>>((val@, buf.index as int)),
                decreases n - buf.index,
            {
                if buf.index >= n {
                    proof {
                        assert(str_scan(cs, buf.index as int) == Err::<(Seq<char>, int), Seq<char>>("Unterminated string"@));
                    }
                    return Err(lex_error("Unterminated string", line, start, start + 1));
                }
                let d = buf.data[buf.index];
                if d == '"' {
                    assert(val@ + Seq::<char>::empty() =~= val@);
                    break;
                } else if d == '\n' {
                    proof {
                        assert(str_scan(cs, buf.index as int) == Err::<(Seq<char>, int), Seq<char>>("Unterminated string"@));
                    }
                    return Err(lex_error("Unterminated string", line, start, start + 1));
                } else if d == '\\' {
                    if buf.index + 1 >= n {
                        proof {
                            assert(str_scan(cs, buf.index as int) == Err::<(Seq<char>, int), Seq<char>>("Unterminated string"@));
                        }
                        return Err(lex_error("Unterminated string", line, start, start + 1));
                    }
                    match escape(buf.data[buf.index + 1]) {
                        Some(e) => {
                            let ghost v0 = val@;
                            push_char(&mut val, e);
                            proof {
                                if let Ok((t, k)) = str_scan(cs, buf.index + 2) {
                                    assert(v0 + (seq![e] + t) =~= val@ + t);
                                }
                            }
                        },
                        None => return Err(lex_error("Invalid escape character", line, start, start + 1)),
                    }
                    buf.advance();
                } else {
                    let ghost v0 = val@;
                    push_char(&mut val, d);
                    proof {
                        if let Ok((t, k)) = str_scan(cs, buf.index + 1) {
                            assert(v0 + (seq![d] + t) =~= val@ + t);
                        }
                    }
                }
                buf.advance();
            }
            buf.advance();
            kind = TokenType::Str;
        } else if (buf.index < alpha.len() && alpha[buf.index]) || c == '_' {
            push_char(&mut val, c);
            buf.advance();
            proof {
                lemma_word_end(cs, alnum@, buf.index as int);
                assert(val@ =~= cs.subrange(tok_start as int, buf.index as int));
            }
            loop
                invariant
                    n == buf.data.len(),
                    n < usize::MAX,
                    buf.data@ == cs,
                    tok_start < buf.index <= n,
                    line_start <= tok_start,
                    val@ == cs.subrange(tok_start as int, buf.index as int),
                    word_end(cs, alnum@, tok_start + 1) == word_end(cs, alnum@, buf.index as int),
                ensures
                    tok_start < buf.index <= n,
                    val@ == cs.subrange(tok_start as int, buf.index as int),
                    buf.index == word_end(cs, alnum@, tok_start + 1),
                decreases n - buf.index,
            {
                if buf.index >= n {
                    break;
                }
                let d = buf.data[buf.index];
                if !((buf.index < alnum.len() && alnum[buf.index]) || d == '_') {
                    break;
                }
                push_char(&mut val, d);
                buf.advance();
                assert(val@ =~= cs.subrange(tok_start as int, buf.index as int));
            }
            kind = classify_word(val.as_str());
        } else if '0' <= c && c <= '9' {
            push_char(&mut val, c);
            buf.advance();
            proof {
                lemma_digits_end(cs, buf.index as int);
                assert(val@ =~= cs.subrange(tok_start as int, buf.index as int));
            }
            loop
                invariant
                    n == buf.data.len(),
                    n < usize::MAX,
                    buf.data@ == cs,
                    tok_start < buf.index <= n,
                    line_start <= tok_start,
                    val@ == cs.subrange(tok_start as int, buf.index as int),
                    digits_end(cs, tok_start + 1) == digits_end(cs, buf.index as int),
                ensures
                    tok_start < buf.index <= n,
                    val@ == cs.subrange(tok_start as int, buf.index as int),
                    buf.index == digits_end(cs, tok_start + 1),
                decreases n - buf.index,
            {
                if buf.index >= n {
                    break;
                }
                let d = buf.data[buf.index];
                if !('0' <= d && d <= '9') {
                    break;
                }
                push_char(&mut val, d);
                buf.advance();
                assert(val@ =~= cs.subrange(tok_start as int, buf.index as int));
            }
            kind = TokenType::Num;
        } else {
            return Err(lex_error("Unexpected character", line, start, start + 1));
        }
        let end = buf.line_pos(line_start);
        let tok = Token { lineno: line, tok_type: kind, val, start, end };
        proof {
            assert forall|k: int| 0 <= k < res@.len() implies precedes(#[trigger] res@[k], tok) by {
                assert(before_pos(res@[k], line as nat, (tok_start - line_start + 1) as nat));
            }
            lemma_after_prepend(toks_view(res@), tok_view(tok), lex_classes(cs, alpha@, alnum@, buf.index as int, line as nat, line_start as int));
            assert(toks_view(res@).push(tok_view(tok)) =~= toks_view(res@.push(tok)));
        }
        res.push(tok);
        proof {
            assert forall|i: int, j: int| 0 <= i < j < res@.len() implies precedes(
                #[trigger] res@[i],
                #[trigger] res@[j],
            ) by {
                if j == res@.len() - 1 {
                    assert(res@[j] == tok);
                }
            }
        }
    }
    Ok(res)
}

/// Splits source text into tokens (see [`lex`]): the character classes
/// come from `char::is_alphabetic` and `char::is_alphanumeric`. Lines count
/// from 0 at the start of the text, so a text that starts with a newline
/// numbers its lines from 1.
pub fn tokenize(src: &str) -> (res: Result<Vec<Token>, CompileError>)
    requires
        src@.len() < usize::MAX,
    ensures
        match res {
            Ok(ts) => lex(src@, 0, 0, 0) == Ok::<Seq<TokenV>, LexErr>(toks_view(ts@)) && spans_ordered(ts@),
            Err(e) => lex(src@, 0, 0, 0) == Err::<Seq<TokenV>, LexErr>((e.message@, e.lineno as nat))
                && e.kind == ErrorKind::Lex,
        },
{
    let chars = chars_of(src);
    let mut alpha: Vec<bool> = Vec::new();
    let mut alnum: Vec<bool> = Vec::new();
    let mut i: usize = 0;
    while i < chars.len()
        invariant
            chars@ == src@,
            i <= chars.len(),
            alpha@ == alpha_classes(src@).subrange(0, i as int),
            alnum@ == alnum_classes(src@).subrange(0, i as int),
        decreases chars.len() - i,
    {
        let c = chars[i];
        alpha.push(is_alphabetic(c));
        alnum.push(is_alphanumeric(c));
        i = i + 1;
        assert(alpha@ =~= alpha_classes(src@).subrange(0, i as int));
        assert(alnum@ =~= alnum_classes(src@).subrange(0, i as int));
    }
    assert(alpha@ =~= alpha_classes(src@));
    assert(alnum@ =~= alnum_classes(src@));
    tokenize_classified(src, &alpha, &alnum)
}

} // verus!
