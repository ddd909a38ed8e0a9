use vstd::prelude::*;

use crate::text::{chars_of, owned, push_char, slice_range, string_of};

verus! {

// ---------------------------------------------------------------------------
// Tokens
// ---------------------------------------------------------------------------

/// A number literal: the text of a decimal literal (digits, with an optional
/// fraction), or the value of a hexadecimal or binary one.
pub enum NumLit {
    Dec(String),
    Int(u64),
}

pub enum Token {
    Number(NumLit),
    Ident(String),
    Let,
    Plus,
    Minus,
    Star,
    Slash,
    Percent,
    Caret,
    Equal,
    LParen,
    RParen,
    Eof,
}

/// A number literal as plain values.
pub enum Lit {
    Dec(Seq<char>),
    Int(u64),
}

/// A token as plain values.
pub enum Tok {
    Num(Lit),
    Ident(Seq<char>),
    Let,
    Plus,
    Minus,
    Star,
    Slash,
    Percent,
    Caret,
    Equal,
    LParen,
    RParen,
    Eof,
}

pub open spec fn tok_view(t: Token) -> Tok {
    match t {
        Token::Number(NumLit::Dec(s)) => Tok::Num(Lit::Dec(s@)),
        Token::Number(NumLit::Int(v)) => Tok::Num(Lit::Int(v)),
        Token::Ident(s) => Tok::Ident(s@),
        Token::Let => Tok::Let,
        Token::Plus => Tok::Plus,
        Token::Minus => Tok::Minus,
        Token::Star => Tok::Star,
        Token::Slash => Tok::Slash,
        Token::Percent => Tok::Percent,
        Token::Caret => Tok::Caret,
        Token::Equal => Tok::Equal,
        Token::LParen => Tok::LParen,
        Token::RParen => Tok::RParen,
        Token::Eof => Tok::Eof,
    }
}

pub open spec fn tok_views(ts: Seq<Token>) -> Seq<Tok> {
    ts.map_values(|t: Token| tok_view(t))
}

// ---------------------------------------------------------------------------
// Character classes and runs
// ---------------------------------------------------------------------------

/// The classes of characters that literals and names are made of.
pub enum CharClass {
    Digit,
    Hex,
    Bin,
    Word,
}

pub open spec fn is_dig(c: char) -> bool {
    '0' <= c <= '9'
}

pub open spec fn in_class(c: char, k: CharClass) -> bool {
    match k {
        CharClass::Digit => is_dig(c),
        CharClass::Hex => is_dig(c) || ('a' <= c <= 'f') || ('A' <= c <= 'F'),
        CharClass::Bin => c == '0' || c == '1',
        CharClass::Word => is_dig(c) || ('a' <= c <= 'z') || ('A' <= c <= 'Z') || c == '_',
    }
}

fn in_class_exec(c: char, k: &CharClass) -> (r: bool)
    ensures
        r == in_class(c, *k),
{
    match k {
        CharClass::Digit => '0' <= c && c <= '9',
        CharClass::Hex => ('0' <= c && c <= '9') || ('a' <= c && c <= 'f') || ('A' <= c && c <= 'F'),
        CharClass::Bin => c == '0' || c == '1',
        CharClass::Word => ('0' <= c && c <= '9') || ('a' <= c && c <= 'z') || ('A' <= c && c <= 'Z') || c == '_',
    }
}

/// Where the run of characters of class `k` that starts at `i` ends.
pub open spec fn run_end(s: Seq<char>, i: int, k: CharClass) -> int
    decreases s.len() - i,
{
    if 0 <= i < s.len() && in_class(s[i], k) {
        run_end(s, i + 1, k)
    } else {
        i
    }
}

pub proof fn lemma_run_end(s: Seq<char>, i: int, k: CharClass)
    requires
        0 <= i <= s.len(),
    ensures
        i <= run_end(s, i, k) <= s.len(),
        i < s.len() && in_class(s[i], k) ==> i < run_end(s, i, k),
    decreases s.len() - i,
{
    if i < s.len() && in_class(s[i], k) {
        lemma_run_end(s, i + 1, k);
    }
}

fn run_end_exec(s: &[char], i: usize, k: &CharClass) -> (r: usize)
    requires
        i <= s@.len(),
    ensures
        r == run_end(s@, i as int, *k),
{
    let mut j = i;
    while j < s.len() && in_class_exec(s[j], k)
        invariant
            i <= j <= s@.len(),
            run_end(s@, i as int, *k) == run_end(s@, j as int, *k),
        decreases s.len() - j,
    {
        j = j + 1;
    }
    j
}

/// The value of a digit of base 16 (or less).
pub open spec fn digit_val(c: char) -> nat {
    if is_dig(c) {
        (c as nat - '0' as nat) as nat
    } else if 'a' <= c <= 'f' {
        (c as nat - 'a' as nat + 10) as nat
    } else {
        (c as nat - 'A' as nat + 10) as nat
    }
}

/// The value of digits in base `b`, most significant first.
pub open spec fn radix_value(d: Seq<char>, b: nat) -> nat
    decreases d.len(),
{
    if d.len() == 0 {
        0
    } else {
        radix_value(d.drop_last(), b) * b + digit_val(d.last())
    }
}

proof fn lemma_radix_monotone(d: Seq<char>, b: nat, j: int)
    requires
        b >= 1,
        0 <= j <= d.len(),
    ensures
        radix_value(d.take(j), b) <= radix_value(d, b),
    decreases d.len(),
{
    if j < d.len() {
        assert(d.drop_last().take(j) =~= d.take(j));
        lemma_radix_monotone(d.drop_last(), b, j);
        assert(radix_value(d.drop_last(), b) <= radix_value(d.drop_last(), b) * b) by (nonlinear_arith)
            requires
                b >= 1,
        ;
    } else {
        assert(d.take(j) =~= d);
    }
}

/// The value of base-`b` digits, `None` where it does not fit in a `u64`.
fn radix_exec(d: &[char], b: u64) -> (r: Option<u64>)
    requires
        b == 2 || b == 16,
        forall|k: int| 0 <= k < d@.len() ==> in_class(#[trigger] d@[k], CharClass::Hex),
        b == 2 ==> forall|k: int| 0 <= k < d@.len() ==> in_class(#[trigger] d@[k], CharClass::Bin),
    ensures
        radix_value(d@, b as nat) <= u64::MAX ==> r == Some(radix_value(d@, b as nat) as u64),
        radix_value(d@, b as nat) > u64::MAX ==> r is None,
{
    let mut v: u64 = 0;
    let mut i: usize = 0;
    assert(d@.take(0) =~= Seq::<char>::empty());
    while i < d.len()
        invariant
            i <= d@.len(),
            b == 2 || b == 16,
            forall|k: int| 0 <= k < d@.len() ==> in_class(#[trigger] d@[k], CharClass::Hex),
            b == 2 ==> forall|k: int| 0 <= k < d@.len() ==> in_class(#[trigger] d@[k], CharClass::Bin),
            v == radix_value(d@.take(i as int), b as nat),
        decreases d.len() - i,
    {
        let c = d[i];
        assert(in_class(d@[i as int], CharClass::Hex));
        let dv: u64 = if '0' <= c && c <= '9' {
            (c as u64) - ('0' as u64)
        } else if 'a' <= c && c <= 'f' {
            (c as u64) - ('a' as u64) + 10
        } else {
            (c as u64) - ('A' as u64) + 10
        };
        assert(dv == digit_val(d@[i as int]));
        assert(d@.take(i + 1).drop_last() =~= d@.take(i as int));
        let next = match v.checked_mul(b) {
            Some(m) => m.checked_add(dv),
            None => None,
        };
        match next {
            Some(n) => v = n,
            None => {
                proof {
                    lemma_radix_monotone(d@, b as nat, i + 1);
                }
                return None;
            },
        }
        i = i + 1;
    }
    assert(d@.take(i as int) =~= d@);
    Some(v)
}

// ---------------------------------------------------------------------------
// The lexer
// ---------------------------------------------------------------------------

/// The number literal that starts at `i` and where it ends: `0x` or `0X`
/// and hexadecimal digits, `0b` or `0B` and binary digits (each must fit in
/// a `u64`), else decimal digits with an optional `.` and fraction.
pub open spec fn number_at(s: Seq<char>, i: int) -> Result<(Lit, int), Seq<char>> {
    if s[i] == '0' && i + 1 < s.len() && (s[i + 1] == 'x' || s[i + 1] == 'X') {
        let e = run_end(s, i + 2, CharClass::Hex);
        let d = s.subrange(i + 2, e);
        if d.len() == 0 {
            Err("expected hex digits"@)
        } else if radix_value(d, 16) > u64::MAX {
            Err("hex literal too large"@)
        } else {
            Ok((Lit::Int(radix_value(d, 16) as u64), e))
        }
    } else if s[i] == '0' && i + 1 < s.len() && (s[i + 1] == 'b' || s[i + 1] == 'B') {
        let e = run_end(s, i + 2, CharClass::Bin);
        let d = s.subrange(i + 2, e);
        if d.len() == 0 {
            Err("expected binary digits"@)
        } else if radix_value(d, 2) > u64::MAX {
            Err("binary literal too large"@)
        } else {
            Ok((Lit::Int(radix_value(d, 2) as u64), e))
        }
    } else {
        let e1 = run_end(s, i, CharClass::Digit);
        if e1 < s.len() && s[e1] == '.' {
            let e2 = run_end(s, e1 + 1, CharClass::Digit);
            Ok((Lit::Dec(s.subrange(i, e2)), e2))
        } else {
            Ok((Lit::Dec(s.subrange(i, e1)), e1))
        }
    }
}

/// Whether a number literal starts at `i`: a digit, or a `.` before one.
pub open spec fn starts_number(s: Seq<char>, i: int) -> bool {
    is_dig(s[i]) || (s[i] == '.' && i + 1 < s.len() && is_dig(s[i + 1]))
}

pub proof fn lemma_number_at_advances(s: Seq<char>, i: int)
    requires
        0 <= i < s.len(),
        starts_number(s, i),
    ensures
        number_at(s, i) matches Ok((_, e)) ==> i < e <= s.len(),
{
    lemma_run_end(s, i, CharClass::Digit);
    if i + 2 <= s.len() {
        lemma_run_end(s, i + 2, CharClass::Hex);
        lemma_run_end(s, i + 2, CharClass::Bin);
    }
    let e1 = run_end(s, i, CharClass::Digit);
    if e1 < s.len() && s[e1] == '.' {
        lemma_run_end(s, e1 + 1, CharClass::Digit);
        if s[i] == '.' {
            assert(in_class(s[i + 1], CharClass::Digit));
        }
    }
}

/// The token of a character that is a token by itself.
pub open spec fn single_tok(c: char) -> Option<Tok> {
    if c == '+' {
        Some(Tok::Plus)
    } else if c == '-' {
        Some(Tok::Minus)
    } else if c == '*' {
        Some(Tok::Star)
    } else if c == '/' {
        Some(Tok::Slash)
    } else if c == '%' {
        Some(Tok::Percent)
    } else if c == '^' {
        Some(Tok::Caret)
    } else if c == '=' {
        Some(Tok::Equal)
    } else if c == '(' {
        Some(Tok::LParen)
    } else if c == ')' {
        Some(Tok::RParen)
    } else {
        None
    }
}

/// The tokens of `s` from `i` on, after the tokens `acc`: blanks are passed
/// over, numbers, names and operators read, `let` is a keyword, and the end
/// is marked by `Eof`.
pub open spec fn lex_from(s: Seq<char>, i: int, acc: Seq<Tok>) -> Result<Seq<Tok>, Seq<char>>
    decreases s.len() - i,
{
    if i < 0 || i >= s.len() {
        Ok(acc.push(Tok::Eof))
    } else {
        let c = s[i];
        if c == ' ' || c == '\t' || c == '\r' || c == '\n' {
            lex_from(s, i + 1, acc)
        } else if single_tok(c) is Some {
            lex_from(s, i + 1, acc.push(single_tok(c)->0))
        } else if starts_number(s, i) {
            match number_at(s, i) {
                Err(m) => Err(m),
                Ok((lit, e)) => {
                    proof {
                        lemma_number_at_advances(s, i);
                    }
                    lex_from(s, e, acc.push(Tok::Num(lit)))
                },
            }
        } else if ('a' <= c <= 'z') || ('A' <= c <= 'Z') || c == '_' {
            let e = run_end(s, i, CharClass::Word);
            let w = s.subrange(i, e);
            proof {
                lemma_run_end(s, i, CharClass::Word);
            }
            lex_from(s, e, acc.push(if w == "let"@ { Tok::Let } else { Tok::Ident(w) }))
        } else {
            Err("unexpected character: "@ + seq![c])
        }
    }
}

fn single_token(c: char) -> (r: Option<Token>)
    ensures
        match single_tok(c) {
            Some(t) => r matches Some(x) && tok_view(x) == t,
            None => r is None,
        },
{
    if c == '+' {
        Some(Token::Plus)
    } else if c == '-' {
        Some(Token::Minus)
    } else if c == '*' {
        Some(Token::Star)
    } else if c == '/' {
        Some(Token::Slash)
    } else if c == '%' {
        Some(Token::Percent)
    } else if c == '^' {
        Some(Token::Caret)
    } else if c == '=' {
        Some(Token::Equal)
    } else if c == '(' {
        Some(Token::LParen)
    } else if c == ')' {
        Some(Token::RParen)
    } else {
        None
    }
}

/// Reads the number literal at `i`.
pub fn lex_number(s: &[char], i: usize) -> (r: Result<(NumLit, usize), String>)
    requires
        i < s@.len(),
        starts_number(s@, i as int),
    ensures
        match number_at(s@, i as int) {
            Ok((lit, e)) => r matches Ok((x, ee)) && tok_view(Token::Number(x)) == Tok::Num(lit) && ee == e,
            Err(m) => r matches Err(x) && x@ == m,
        },
{
    let n = s.len();
    if s[i] == '0' && i + 1 < n && (s[i + 1] == 'x' || s[i + 1] == 'X') {
        let e = run_end_exec(s, i + 2, &CharClass::Hex);
        proof {
            lemma_run_end(s@, i + 2, CharClass::Hex);
        }
        let d = slice_range(s, i + 2, e);
        if d.len() == 0 {
            return Err(owned("expected hex digits"));
        }
        proof {
            assert forall|k: int| 0 <= k < d@.len() implies in_class(#[trigger] d@[k], CharClass::Hex) by {
                lemma_run_class(s@, i + 2, CharClass::Hex, i + 2 + k);
            }
        }
        return match radix_exec(d, 16) {
            Some(v) => Ok((NumLit::Int(v), e)),
            None => Err(owned("hex literal too large")),
        };
    }
    if s[i] == '0' && i + 1 < n && (s[i + 1] == 'b' || s[i + 1] == 'B') {
        let e = run_end_exec(s, i + 2, &CharClass::Bin);
        proof {
            lemma_run_end(s@, i + 2, CharClass::Bin);
        }
        let d = slice_range(s, i + 2, e);
        if d.len() == 0 {
            return Err(owned("expected binary digits"));
        }
        proof {
            assert forall|k: int| 0 <= k < d@.len() implies in_class(#[trigger] d@[k], CharClass::Bin) by {
                lemma_run_class(s@, i + 2, CharClass::Bin, i + 2 + k);
            }
            assert forall|k: int| 0 <= k < d@.len() implies in_class(#[trigger] d@[k], CharClass::Hex) by {
                lemma_run_class(s@, i + 2, CharClass::Bin, i + 2 + k);
            }
        }
        return match radix_exec(d, 2) {
            Some(v) => Ok((NumLit::Int(v), e)),
            None => Err(owned("binary literal too large")),
        };
    }
    let e1 = run_end_exec(s, i, &CharClass::Digit);
    proof {
        lemma_run_end(s@, i as int, CharClass::Digit);
    }
    if e1 < n && s[e1] == '.' {
        let e2 = run_end_exec(s, e1 + 1, &CharClass::Digit);
        proof {
            lemma_run_end(s@, e1 + 1, CharClass::Digit);
        }
        Ok((NumLit::Dec(string_of(slice_range(s, i, e2))), e2))
    } else {
        Ok((NumLit::Dec(string_of(slice_range(s, i, e1))), e1))
    }
}

proof fn lemma_run_class(s: Seq<char>, i: int, k: CharClass, j: int)
    requires
        0 <= i <= j < run_end(s, i, k),
        i <= s.len(),
    ensures
        j < s.len() && in_class(s[j], k),
    decreases s.len() - i,
{
    lemma_run_end(s, i, k);
    if i < j {
        lemma_run_class(s, i + 1, k, j);
    }
}

/// Splits an expression into tokens.
pub fn lex(input: &str) -> (r: Result<Vec<Token>, String>)
    ensures
        match lex_from(input@, 0, seq![]) {
            Ok(ts) => r matches Ok(v) && tok_views(v@) == ts,
            Err(m) => r matches Err(e) && e@ == m,
        },
{
    let s = chars_of(input);
    let n = s.len();
    let mut tokens: Vec<Token> = Vec::new();
    let mut i: usize = 0;
    assert(tok_views(tokens@) =~= Seq::<Tok>::empty());
    while i < n
        invariant
            n == s@.len(),
            s@ == input@,
            i <= n,
            lex_from(input@, 0, seq![]) == lex_from(s@, i as int, tok_views(tokens@)),
        decreases n - i,
    {
        let c = s[i];
        let ghost before = tokens@;
        if c == ' ' || c == '\t' || c == '\r' || c == '\n' {
            i = i + 1;
        } else if let Some(t) = single_token(c) {
            tokens.push(t);
            assert(tok_views(tokens@) =~= tok_views(before).push(single_tok(c)->0));
            i = i + 1;
        } else if ('0' <= c && c <= '9') || (c == '.' && i + 1 < n && '0' <= s[i + 1] && s[i + 1] <= '9') {
            let (lit, e) = lex_number(s.as_slice(), i)?;
            proof {
                lemma_number_at_advances(s@, i as int);
            }
            let t = Token::Number(lit);
            let ghost tv = tok_view(t);
            tokens.push(t);
            assert(tok_views(tokens@) =~= tok_views(before).push(tv));
            i = e;
        } else if ('a' <= c && c <= 'z') || ('A' <= c && c <= 'Z') || c == '_' {
            let e = run_end_exec(s.as_slice(), i, &CharClass::Word);
            proof {
                lemma_run_end(s@, i as int, CharClass::Word);
            }
            let w = slice_range(s.as_slice(), i, e);
            let t = if crate::text::eq_lit(w, "let") {
                Token::Let
            } else {
                Token::Ident(string_of(w))
            };
            let ghost tv = tok_view(t);
            tokens.push(t);
            assert(tok_views(tokens@) =~= tok_views(before).push(tv));
            i = e;
        } else {
            let mut m = owned("unexpected character: ");
            push_char(&mut m, c);
            return Err(m);
        }
    }
    let ghost before = tokens@;
    tokens.push(Token::Eof);
    assert(tok_views(tokens@) =~= tok_views(before).push(Tok::Eof));
    Ok(tokens)
}

} // verus!
verus! {

// ---------------------------------------------------------------------------
// The parser: from tokens to the steps of an evaluation
// ---------------------------------------------------------------------------

/// A binary operator.
#[derive(Clone, Copy, PartialEq, Eq, Structural)]
pub enum Op {
    Add,
    Sub,
    Mul,
    Div,
    Rem,
    Pow,
}

/// A step of the evaluation of an expression, on a stack of numbers: push
/// a literal or a variable's value, negate the top, or combine the top two.
/// The steps come in the order in which the expression is read, which is
/// the order in which its parts are evaluated.
pub enum Instr {
    Num(NumLit),
    Var(String),
    Neg,
    Bin(Op),
}

pub enum InstrV {
    Num(Lit),
    Var(Seq<char>),
    Neg,
    Bin(Op),
}

pub open spec fn instr_view(i: Instr) -> InstrV {
    match i {
        Instr::Num(NumLit::Dec(s)) => InstrV::Num(Lit::Dec(s@)),
        Instr::Num(NumLit::Int(v)) => InstrV::Num(Lit::Int(v)),
        Instr::Var(s) => InstrV::Var(s@),
        Instr::Neg => InstrV::Neg,
        Instr::Bin(op) => InstrV::Bin(op),
    }
}

pub open spec fn instr_views(c: Seq<Instr>) -> Seq<InstrV> {
    c.map_values(|i: Instr| instr_view(i))
}

/// A syntax error: what was expected, and the token found in its place.
pub struct SyntaxError {
    pub expected: String,
    pub found: Token,
}

/// What parsing reads: the steps taken before it stops, where it stops,
/// or the syntax error that stops it. `Stuck` is never reached when there
/// is room for enough steps.
pub enum PExpr {
    Done(Seq<InstrV>, int),
    Fail(Seq<InstrV>, Seq<char>, Tok),
    Stuck,
}

/// The token at `pos`; past the end, `Eof`.
pub open spec fn peek(ts: Seq<Tok>, pos: int) -> Tok {
    if 0 <= pos < ts.len() {
        ts[pos]
    } else {
        Tok::Eof
    }
}

/// The left and right binding power and the operator of an infix token:
/// `+ -` bind weakest, then `* / %`, then `^`, which groups to the right;
/// a prefix `-` binds between `* / %` and `^`.
pub open spec fn binop(t: Tok) -> Option<(u8, u8, Op)> {
    match t {
        Tok::Plus => Some((3u8, 4u8, Op::Add)),
        Tok::Minus => Some((3u8, 4u8, Op::Sub)),
        Tok::Star => Some((5u8, 6u8, Op::Mul)),
        Tok::Slash => Some((5u8, 6u8, Op::Div)),
        Tok::Percent => Some((5u8, 6u8, Op::Rem)),
        Tok::Caret => Some((8u8, 7u8, Op::Pow)),
        _ => None,
    }
}

/// Reads an expression at `pos` whose operators bind at least `min_bp`,
/// after the steps `code`.
pub open spec fn parse_expr(ts: Seq<Tok>, pos: int, min_bp: u8, code: Seq<InstrV>, fuel: nat) -> PExpr
    decreases fuel,
{
    if fuel == 0 {
        PExpr::Stuck
    } else {
        let f = (fuel - 1) as nat;
        match peek(ts, pos) {
            Tok::Num(l) => parse_infix(ts, pos + 1, min_bp, code.push(InstrV::Num(l)), f),
            Tok::Ident(n) => parse_infix(ts, pos + 1, min_bp, code.push(InstrV::Var(n)), f),
            Tok::Minus => match parse_expr(ts, pos + 1, 7, code, f) {
                PExpr::Done(c, p) => parse_infix(ts, p, min_bp, c.push(InstrV::Neg), f),
                other => other,
            },
            Tok::LParen => match parse_expr(ts, pos + 1, 0, code, f) {
                PExpr::Done(c, p) => if peek(ts, p) == Tok::RParen {
                    parse_infix(ts, p + 1, min_bp, c, f)
                } else {
                    PExpr::Fail(c, ")"@, peek(ts, p))
                },
                other => other,
            },
            other => PExpr::Fail(code, "expression"@, other),
        }
    }
}

/// Reads the operators at `pos` that bind at least `min_bp`, each with its
/// right operand.
pub open spec fn parse_infix(ts: Seq<Tok>, pos: int, min_bp: u8, code: Seq<InstrV>, fuel: nat) -> PExpr
    decreases fuel,
{
    if fuel == 0 {
        PExpr::Stuck
    } else {
        let f = (fuel - 1) as nat;
        match binop(peek(ts, pos)) {
            None => PExpr::Done(code, pos),
            Some((l, r, op)) => if l < min_bp {
                PExpr::Done(code, pos)
            } else {
                match parse_expr(ts, pos + 1, r, code, f) {
                    PExpr::Done(c, p) => parse_infix(ts, p, min_bp, c.push(InstrV::Bin(op)), f),
                    other => other,
                }
            },
        }
    }
}

pub proof fn lemma_parse_expr_ends(ts: Seq<Tok>, pos: int, min_bp: u8, code: Seq<InstrV>, fuel: nat)
    requires
        0 <= pos,
        fuel >= 1,
        fuel >= 2 * (ts.len() + 1 - pos) + 1,
    ensures
        !(parse_expr(ts, pos, min_bp, code, fuel) is Stuck),
        parse_expr(ts, pos, min_bp, code, fuel) matches PExpr::Done(_, p) ==> pos < p,
    decreases fuel,
{
    let f = (fuel - 1) as nat;
    match peek(ts, pos) {
        Tok::Num(l) => lemma_parse_infix_ends(ts, pos + 1, min_bp, code.push(InstrV::Num(l)), f),
        Tok::Ident(n) => lemma_parse_infix_ends(ts, pos + 1, min_bp, code.push(InstrV::Var(n)), f),
        Tok::Minus => {
            lemma_parse_expr_ends(ts, pos + 1, 7, code, f);
            if let PExpr::Done(c, p) = parse_expr(ts, pos + 1, 7, code, f) {
                lemma_parse_infix_ends(ts, p, min_bp, c.push(InstrV::Neg), f);
            }
        },
        Tok::LParen => {
            lemma_parse_expr_ends(ts, pos + 1, 0, code, f);
            if let PExpr::Done(c, p) = parse_expr(ts, pos + 1, 0, code, f) {
                lemma_parse_infix_ends(ts, p + 1, min_bp, c, f);
            }
        },
        _ => {},
    }
}

pub proof fn lemma_parse_infix_ends(ts: Seq<Tok>, pos: int, min_bp: u8, code: Seq<InstrV>, fuel: nat)
    requires
        0 <= pos,
        fuel >= 1,
        fuel >= 2 * (ts.len() + 1 - pos) + 1,
    ensures
        !(parse_infix(ts, pos, min_bp, code, fuel) is Stuck),
        parse_infix(ts, pos, min_bp, code, fuel) matches PExpr::Done(_, p) ==> pos <= p,
    decreases fuel,
{
    let f = (fuel - 1) as nat;
    if let Some((l, r, op)) = binop(peek(ts, pos)) {
        if l >= min_bp {
            lemma_parse_expr_ends(ts, pos + 1, r, code, f);
            if let PExpr::Done(c, p) = parse_expr(ts, pos + 1, r, code, f) {
                lemma_parse_infix_ends(ts, p, min_bp, c.push(InstrV::Bin(op)), f);
            }
        }
    }
}


/// The step that pushes an operand token: a literal or a variable.
pub open spec fn operand_step(t: Tok) -> Option<InstrV> {
    match t {
        Tok::Num(l) => Some(InstrV::Num(l)),
        Tok::Ident(n) => Some(InstrV::Var(n)),
        _ => None,
    }
}

/// The precedence level of an infix operator token: `+ -` lowest, then
/// `* / %`, then `^`; 0 for any other token.
pub open spec fn level(t: Tok) -> int {
    match t {
        Tok::Plus | Tok::Minus => 1,
        Tok::Star | Tok::Slash | Tok::Percent => 2,
        Tok::Caret => 3,
        _ => 0,
    }
}

/// The operator that an infix operator token stands for.
pub open spec fn op_of(t: Tok) -> Op {
    match t {
        Tok::Plus => Op::Add,
        Tok::Minus => Op::Sub,
        Tok::Star => Op::Mul,
        Tok::Slash => Op::Div,
        Tok::Percent => Op::Rem,
        _ => Op::Pow,
    }
}

/// How `a o1 b o2 c` groups. It is `(a o1 b) o2 c`, evaluated as `a`, `b`,
/// `o1`, `c`, `o2`, where `o1` binds tighter than `o2`, or as tight and is
/// not `^`: so `10 - 3 - 2` is `(10 - 3) - 2`. Otherwise it is
/// `a o1 (b o2 c)`, evaluated as `a`, `b`, `c`, `o2`, `o1`: so `1 + 2 * 3`
/// multiplies first and `2 ^ 3 ^ 2` is `2 ^ (3 ^ 2)`.
pub proof fn law_operator_grouping(a: Tok, o1: Tok, b: Tok, o2: Tok, c: Tok)
    requires
        operand_step(a) is Some,
        operand_step(b) is Some,
        operand_step(c) is Some,
        level(o1) > 0,
        level(o2) > 0,
    ensures
        ({
            let ia = operand_step(a)->0;
            let ib = operand_step(b)->0;
            let ic = operand_step(c)->0;
            let left = level(o1) > level(o2) || (level(o1) == level(o2) && o1 != Tok::Caret);
            line_program(seq![a, o1, b, o2, c]) == if left {
                (
                    None::<Seq<char>>,
                    seq![ia, ib, InstrV::Bin(op_of(o1)), ic, InstrV::Bin(op_of(o2))],
                    None::<(Seq<char>, Tok)>,
                )
            } else {
                (
                    None::<Seq<char>>,
                    seq![ia, ib, ic, InstrV::Bin(op_of(o2)), InstrV::Bin(op_of(o1))],
                    None::<(Seq<char>, Tok)>,
                )
            }
        }),
{
    let ts = seq![a, o1, b, o2, c];
    let ia = operand_step(a)->0;
    let ib = operand_step(b)->0;
    let ic = operand_step(c)->0;
    let (l1, r1, op1) = binop(o1)->0;
    let (l2, r2, op2) = binop(o2)->0;
    assert(peek(ts, 0) == a);
    assert(peek(ts, 1) == o1);
    assert(peek(ts, 2) == b);
    assert(peek(ts, 3) == o2);
    assert(peek(ts, 4) == c);
    assert(peek(ts, 5) == Tok::Eof);
    assert(op1 == op_of(o1));
    assert(op2 == op_of(o2));
    let c0: Seq<InstrV> = seq![];
    let ca = c0.push(ia);
    let cab = ca.push(ib);
    assert(parse_expr(ts, 0, 0, c0, 13) == parse_infix(ts, 1, 0, ca, 12));
    assert(parse_expr(ts, 2, r1, ca, 11) == parse_infix(ts, 3, r1, cab, 10));
    if l2 < r1 {
        let c1 = cab.push(InstrV::Bin(op1));
        let c2 = c1.push(ic);
        let c3 = c2.push(InstrV::Bin(op2));
        assert(parse_infix(ts, 3, r1, cab, 10) == PExpr::Done(cab, 3));
        assert(parse_infix(ts, 1, 0, ca, 12) == parse_infix(ts, 3, 0, c1, 11));
        assert(parse_infix(ts, 5, r2, c2, 9) == PExpr::Done(c2, 5));
        assert(parse_expr(ts, 4, r2, c1, 10) == PExpr::Done(c2, 5));
        assert(parse_infix(ts, 5, 0, c3, 10) == PExpr::Done(c3, 5));
        assert(parse_infix(ts, 3, 0, c1, 11) == PExpr::Done(c3, 5));
        assert(c3 =~= seq![ia, ib, InstrV::Bin(op_of(o1)), ic, InstrV::Bin(op_of(o2))]);
    } else {
        let c2 = cab.push(ic);
        let c3 = c2.push(InstrV::Bin(op2));
        let c4 = c3.push(InstrV::Bin(op1));
        assert(parse_infix(ts, 5, r2, c2, 8) == PExpr::Done(c2, 5));
        assert(parse_expr(ts, 4, r2, cab, 9) == PExpr::Done(c2, 5));
        assert(parse_infix(ts, 5, r1, c3, 9) == PExpr::Done(c3, 5));
        assert(parse_infix(ts, 3, r1, cab, 10) == PExpr::Done(c3, 5));
        assert(parse_infix(ts, 5, 0, c4, 11) == PExpr::Done(c4, 5));
        assert(parse_infix(ts, 1, 0, ca, 12) == PExpr::Done(c4, 5));
        assert(c4 =~= seq![ia, ib, ic, InstrV::Bin(op_of(o2)), InstrV::Bin(op_of(o1))]);
    }
}


/// A prefix `-` binds tighter than `+ - * / %` and looser than `^`: `- a o b`
/// negates `a` before applying `o`, except that `- a ^ b` is `-(a ^ b)`.
pub proof fn law_prefix_minus(a: Tok, o: Tok, b: Tok)
    requires
        operand_step(a) is Some,
        operand_step(b) is Some,
        level(o) > 0,
    ensures
        ({
            let ia = operand_step(a)->0;
            let ib = operand_step(b)->0;
            line_program(seq![Tok::Minus, a, o, b]) == if o == Tok::Caret {
                (None::<Seq<char>>, seq![ia, ib, InstrV::Bin(Op::Pow), InstrV::Neg], None::<(Seq<char>, Tok)>)
            } else {
                (None::<Seq<char>>, seq![ia, InstrV::Neg, ib, InstrV::Bin(op_of(o))], None::<(Seq<char>, Tok)>)
            }
        }),
{
    let ts = seq![Tok::Minus, a, o, b];
    let ia = operand_step(a)->0;
    let ib = operand_step(b)->0;
    let (l, r, op) = binop(o)->0;
    assert(peek(ts, 0) == Tok::Minus);
    assert(peek(ts, 1) == a);
    assert(peek(ts, 2) == o);
    assert(peek(ts, 3) == b);
    assert(peek(ts, 4) == Tok::Eof);
    assert(op == op_of(o));
    let c0: Seq<InstrV> = seq![];
    let ca = c0.push(ia);
    assert(parse_expr(ts, 1, 7, c0, 10) == parse_infix(ts, 2, 7, ca, 9));
    if o == Tok::Caret {
        let cb = ca.push(ib);
        let c1 = cb.push(InstrV::Bin(Op::Pow));
        let c2 = c1.push(InstrV::Neg);
        assert(parse_infix(ts, 4, 7, cb, 7) == PExpr::Done(cb, 4));
        assert(parse_expr(ts, 3, 7, ca, 8) == PExpr::Done(cb, 4));
        assert(parse_infix(ts, 4, 7, c1, 8) == PExpr::Done(c1, 4));
        assert(parse_infix(ts, 2, 7, ca, 9) == PExpr::Done(c1, 4));
        assert(parse_infix(ts, 4, 0, c2, 10) == PExpr::Done(c2, 4));
        assert(parse_expr(ts, 0, 0, c0, 11) == PExpr::Done(c2, 4));
        assert(c2 =~= seq![ia, ib, InstrV::Bin(Op::Pow), InstrV::Neg]);
    } else {
        let cn = ca.push(InstrV::Neg);
        let cb = cn.push(ib);
        let c1 = cb.push(InstrV::Bin(op));
        assert(parse_infix(ts, 2, 7, ca, 9) == PExpr::Done(ca, 2));
        assert(parse_infix(ts, 4, r, cb, 8) == PExpr::Done(cb, 4));
        assert(parse_expr(ts, 3, r, cn, 9) == PExpr::Done(cb, 4));
        assert(parse_infix(ts, 4, 0, c1, 9) == PExpr::Done(c1, 4));
        assert(parse_infix(ts, 2, 0, cn, 10) == PExpr::Done(c1, 4));
        assert(parse_expr(ts, 0, 0, c0, 11) == PExpr::Done(c1, 4));
        assert(c1 =~= seq![ia, InstrV::Neg, ib, InstrV::Bin(op_of(o))]);
    }
}
} // verus!
verus! {

/// A copy of a token.
pub fn copy_token(t: &Token) -> (r: Token)
    ensures
        tok_view(r) == tok_view(*t),
{
    match t {
        Token::Number(NumLit::Dec(s)) => Token::Number(NumLit::Dec(s.clone())),
        Token::Number(NumLit::Int(v)) => Token::Number(NumLit::Int(*v)),
        Token::Ident(s) => Token::Ident(s.clone()),
        Token::Let => Token::Let,
        Token::Plus => Token::Plus,
        Token::Minus => Token::Minus,
        Token::Star => Token::Star,
        Token::Slash => Token::Slash,
        Token::Percent => Token::Percent,
        Token::Caret => Token::Caret,
        Token::Equal => Token::Equal,
        Token::LParen => Token::LParen,
        Token::RParen => Token::RParen,
        Token::Eof => Token::Eof,
    }
}

/// The token at `pos`, `Eof` past the end.
fn tok_at(ts: &[Token], pos: usize) -> (r: Token)
    ensures
        tok_view(r) == peek(tok_views(ts@), pos as int),
{
    if pos < ts.len() {
        copy_token(&ts[pos])
    } else {
        Token::Eof
    }
}

fn binop_exec(t: &Token) -> (r: Option<(u8, u8, Op)>)
    ensures
        r == binop(tok_view(*t)),
{
    match t {
        Token::Plus => Some((3, 4, Op::Add)),
        Token::Minus => Some((3, 4, Op::Sub)),
        Token::Star => Some((5, 6, Op::Mul)),
        Token::Slash => Some((5, 6, Op::Div)),
        Token::Percent => Some((5, 6, Op::Rem)),
        Token::Caret => Some((8, 7, Op::Pow)),
        _ => None,
    }
}

fn push_instr(code: &mut Vec<Instr>, i: Instr)
    ensures
        instr_views(final(code)@) == instr_views(old(code)@).push(instr_view(i)),
{
    code.push(i);
    assert(instr_views(code@) =~= instr_views(old(code)@).push(instr_view(i)));
}

fn parse_expr_exec(ts: &[Token], pos: usize, min_bp: u8, code: &mut Vec<Instr>, fuel: usize) -> (r: Result<usize, SyntaxError>)
    requires
        pos <= ts@.len(),
        !(parse_expr(tok_views(ts@), pos as int, min_bp, instr_views(old(code)@), fuel as nat) is Stuck),
    ensures
        match parse_expr(tok_views(ts@), pos as int, min_bp, instr_views(old(code)@), fuel as nat) {
            PExpr::Done(c, p) => 0 <= p <= ts@.len() && r == Ok::<usize, SyntaxError>(p as usize) && instr_views(final(code)@) == c,
            PExpr::Fail(c, e, f) => r matches Err(se) && se.expected@ == e && tok_view(se.found) == f
                && instr_views(final(code)@) == c,
            PExpr::Stuck => false,
        },
    decreases fuel,
{
    let ghost tv = tok_views(ts@);
    let t = tok_at(ts, pos);
    if pos < ts.len() {
        assert(tv[pos as int] == tok_view(ts@[pos as int]));
    }
    match t {
        Token::Number(lit) => {
            push_instr(code, Instr::Num(lit));
            parse_infix_exec(ts, pos + 1, min_bp, code, fuel - 1)
        },
        Token::Ident(name) => {
            push_instr(code, Instr::Var(name));
            parse_infix_exec(ts, pos + 1, min_bp, code, fuel - 1)
        },
        Token::Minus => {
            let p = parse_expr_exec(ts, pos + 1, 7, code, fuel - 1)?;
            push_instr(code, Instr::Neg);
            parse_infix_exec(ts, p, min_bp, code, fuel - 1)
        },
        Token::LParen => {
            let p = parse_expr_exec(ts, pos + 1, 0, code, fuel - 1)?;
            let close = tok_at(ts, p);
            match close {
                Token::RParen => {
                    assert(p < ts@.len());
                    parse_infix_exec(ts, p + 1, min_bp, code, fuel - 1)
                },
                other => Err(SyntaxError { expected: owned(")"), found: other }),
            }
        },
        other => Err(SyntaxError { expected: owned("expression"), found: other }),
    }
}

fn parse_infix_exec(ts: &[Token], pos: usize, min_bp: u8, code: &mut Vec<Instr>, fuel: usize) -> (r: Result<usize, SyntaxError>)
    requires
        pos <= ts@.len(),
        !(parse_infix(tok_views(ts@), pos as int, min_bp, instr_views(old(code)@), fuel as nat) is Stuck),
    ensures
        match parse_infix(tok_views(ts@), pos as int, min_bp, instr_views(old(code)@), fuel as nat) {
            PExpr::Done(c, p) => 0 <= p <= ts@.len() && r == Ok::<usize, SyntaxError>(p as usize) && instr_views(final(code)@) == c,
            PExpr::Fail(c, e, f) => r matches Err(se) && se.expected@ == e && tok_view(se.found) == f
                && instr_views(final(code)@) == c,
            PExpr::Stuck => false,
        },
    decreases fuel,
{
    let ghost tv = tok_views(ts@);
    let t = tok_at(ts, pos);
    if pos < ts.len() {
        assert(tv[pos as int] == tok_view(ts@[pos as int]));
    }
    match binop_exec(&t) {
        None => Ok(pos),
        Some((l, r, op)) => {
            if l < min_bp {
                return Ok(pos);
            }
            assert(pos < ts@.len());
            let p = parse_expr_exec(ts, pos + 1, r, code, fuel - 1)?;
            push_instr(code, Instr::Bin(op));
            parse_infix_exec(ts, p, min_bp, code, fuel - 1)
        },
    }
}

/// What a line is read as: the variable that `let` binds, the steps of the
/// evaluation, and the syntax error that ends them, if any.
pub struct Program {
    pub let_name: Option<String>,
    pub code: Vec<Instr>,
    pub error: Option<SyntaxError>,
}

/// What a parse gives once the expression must be all that is left.
pub open spec fn finish(ts: Seq<Tok>, name: Option<Seq<char>>, r: PExpr) -> (Option<Seq<char>>, Seq<InstrV>, Option<(Seq<char>, Tok)>) {
    match r {
        PExpr::Done(c, p) => if peek(ts, p) == Tok::Eof {
            (name, c, None)
        } else {
            (name, c, Some(("end of input"@, peek(ts, p))))
        },
        PExpr::Fail(c, e, f) => (name, c, Some((e, f))),
        PExpr::Stuck => (name, seq![], None),
    }
}

/// How a line of tokens is read: `let <name> = <expression>` binds a
/// variable, anything else is an expression; nothing may follow.
pub open spec fn line_program(ts: Seq<Tok>) -> (Option<Seq<char>>, Seq<InstrV>, Option<(Seq<char>, Tok)>) {
    let fuel = (2 * ts.len() + 3) as nat;
    if peek(ts, 0) == Tok::Let {
        match peek(ts, 1) {
            Tok::Ident(name) => if peek(ts, 2) == Tok::Equal {
                finish(ts, Some(name), parse_expr(ts, 3, 0, seq![], fuel))
            } else {
                (Some(name), seq![], Some(("="@, peek(ts, 2))))
            },
            other => (None, seq![], Some(("variable name"@, other))),
        }
    } else {
        finish(ts, None, parse_expr(ts, 0, 0, seq![], fuel))
    }
}

pub open spec fn program_view(p: Program) -> (Option<Seq<char>>, Seq<InstrV>, Option<(Seq<char>, Tok)>) {
    (
        match p.let_name {
            Some(n) => Some(n@),
            None => None,
        },
        instr_views(p.code@),
        match p.error {
            Some(e) => Some((e.expected@, tok_view(e.found))),
            None => None,
        },
    )
}

/// Reads a line of tokens.
pub fn parse_line(ts: &[Token]) -> (r: Program)
    requires
        ts@.len() <= usize::MAX / 4,
    ensures
        program_view(r) == line_program(tok_views(ts@)),
{
    let ghost tv = tok_views(ts@);
    let fuel = 2 * ts.len() + 3;
    let mut code: Vec<Instr> = Vec::new();
    assert(instr_views(code@) =~= Seq::<InstrV>::empty());
    let first = tok_at(ts, 0);
    let (name, start): (Option<String>, usize) = match first {
        Token::Let => {
            match tok_at(ts, 1) {
                Token::Ident(n) => match tok_at(ts, 2) {
                    Token::Equal => (Some(n), 3),
                    other => {
                        return Program {
                            let_name: Some(n),
                            code,
                            error: Some(SyntaxError { expected: owned("="), found: other }),
                        };
                    },
                },
                other => {
                    return Program {
                        let_name: None,
                        code,
                        error: Some(SyntaxError { expected: owned("variable name"), found: other }),
                    };
                },
            }
        },
        _ => (None, 0),
    };
    if start == 3 {
        if ts.len() < 3 {
            assert(peek(tv, 0) == Tok::Eof);
        }
    }
    proof {
        lemma_parse_expr_ends(tv, start as int, 0, seq![], fuel as nat);
    }
    let error = match parse_expr_exec(ts, start, 0, &mut code, fuel) {
        Ok(p) => {
            let last = tok_at(ts, p);
            match last {
                Token::Eof => None,
                other => Some(SyntaxError { expected: owned("end of input"), found: other }),
            }
        },
        Err(e) => Some(e),
    };
    Program { let_name: name, code, error }
}

/// What the interactive loop does with a line it read.
pub enum ReplAction {
    /// `:quit` or `:q`: stop.
    Quit,
    /// A blank line: ask again.
    Skip,
    /// Evaluate the trimmed line.
    Eval(String),
}

/// Decides what a line typed at the prompt asks for.
pub fn repl_action(line: &str) -> (r: ReplAction)
    ensures
        ({
            let t = crate::text::trim(line@);
            &&& (t == ":quit"@ || t == ":q"@) ==> r is Quit
            &&& !(t == ":quit"@ || t == ":q"@) && t.len() == 0 ==> r is Skip
            &&& !(t == ":quit"@ || t == ":q"@) && t.len() > 0 ==> (r matches ReplAction::Eval(x) && x@ == t)
        }),
{
    let cs = chars_of(line);
    let t = crate::text::trim_exec(cs.as_slice());
    if crate::text::eq_lit(t.as_slice(), ":quit") || crate::text::eq_lit(t.as_slice(), ":q") {
        ReplAction::Quit
    } else if t.len() == 0 {
        ReplAction::Skip
    } else {
        ReplAction::Eval(string_of(t.as_slice()))
    }
}

} // verus!
