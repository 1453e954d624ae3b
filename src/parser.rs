use vstd::prelude::*;
use vstd::string::StrSliceExecFns;
use crate::ident::Ident;
use crate::ast::{LiaExpr, LiaFn, LiaOp, LiaStmt};
use crate::lexer::{lex, Keyword, LexError, Token, TokenKind};

verus! {

/// Why source text could not be parsed. Positions are token positions,
/// except in `Lex`, where the lexer's character position stands.
#[derive(PartialEq, Eq, Structural, Clone, Copy, Debug)]
pub enum ParseError {
    Lex(LexError),
    /// The token at this position does not fit the grammar.
    Unexpected(usize),
    /// The input ended inside a construct.
    UnexpectedEnd,
    /// An integer literal at this position does not fit in 32 bits.
    IntTooLarge(usize),
    /// Constructs are nested deeper than `MAX_NESTING`.
    TooDeep,
}

/// How deeply parse steps may nest.
pub const MAX_NESTING: usize = 4096;

/// The result of a parse step: a value and the position just after it.
pub type Parsed<T> = Result<(T, usize), ParseError>;

pub open spec fn advanced<T>(r: Parsed<T>, pos: usize, n: nat) -> bool {
    r matches Ok((_, p)) ==> pos < p <= n
}

/// The characters of `src`, in order.
pub fn chars_of(src: &str) -> (r: Vec<char>)
    ensures
        r@ == src@,
{
    let n = src.unicode_len();
    let mut out: Vec<char> = Vec::new();
    let mut i: usize = 0;
    while i < n
        invariant
            i <= n == src@.len(),
            out@ == src@.subrange(0, i as int),
        decreases n - i,
    {
        out.push(src.get_char(i));
        i = i + 1;
        assert(out@ =~= src@.subrange(0, i as int));
    }
    assert(out@ =~= src@);
    out
}

fn kind_at(toks: &Vec<Token>, pos: usize) -> (r: Option<TokenKind>)
    ensures
        pos < toks@.len() ==> r == Some(toks@[pos as int].kind),
        pos >= toks@.len() ==> r is None,
{
    if pos < toks.len() {
        Some(toks[pos].kind)
    } else {
        None
    }
}

fn unexpected(toks: &Vec<Token>, pos: usize) -> ParseError {
    if pos < toks.len() {
        ParseError::Unexpected(pos)
    } else {
        ParseError::UnexpectedEnd
    }
}

/// Consumes one token of kind `k`.
fn expect(toks: &Vec<Token>, pos: usize, k: TokenKind) -> (r: Result<usize, ParseError>)
    ensures
        r matches Ok(p) ==> p == pos + 1 && p <= toks@.len() && toks@[pos as int].kind == k,
        pos < toks@.len() && toks@[pos as int].kind == k ==> r == Ok::<usize, ParseError>(
            (pos + 1) as usize,
        ),
{
    if pos < toks.len() && toks[pos].kind == k {
        Ok(pos + 1)
    } else {
        Err(unexpected(toks, pos))
    }
}

/// The source text that a token spans.
fn token_text<'a>(src: &'a str, t: Token) -> (r: Result<&'a str, ParseError>)
    ensures
        r matches Ok(s) ==> s@ == src@.subrange(t.start as int, t.end as int),
        t.start <= t.end <= src@.len() ==> r is Ok,
{
    if t.start <= t.end && t.end <= src.unicode_len() {
        Ok(src.substring_char(t.start, t.end))
    } else {
        Err(ParseError::UnexpectedEnd)
    }
}

fn parse_name(src: &str, toks: &Vec<Token>, pos: usize) -> (r: Parsed<Ident>)
    requires
        pos <= toks@.len() < usize::MAX,
    ensures
        advanced(r, pos, toks@.len()),
        r matches Ok((id, p)) ==> p == pos + 1 && toks@[pos as int].kind == TokenKind::Ident
            && id@ == src@.subrange(toks@[pos as int].start as int, toks@[pos as int].end as int),
        pos < toks@.len() && toks@[pos as int].kind == TokenKind::Ident && toks@[pos as int].start
            <= toks@[pos as int].end <= src@.len() ==> r is Ok,
{
    if pos < toks.len() && toks[pos].kind == TokenKind::Ident {
        let text = token_text(src, toks[pos])?;
        Ok((Ident::new(text), pos + 1))
    } else {
        Err(unexpected(toks, pos))
    }
}

pub open spec fn all_digits(s: Seq<char>) -> bool {
    forall|i: int| 0 <= i < s.len() ==> '0' <= #[trigger] s[i] <= '9'
}

/// The number that a run of decimal digits spells.
pub open spec fn digits_value(s: Seq<char>) -> int
    decreases s.len(),
{
    if s.len() == 0 {
        0
    } else {
        digits_value(s.drop_last()) * 10 + (s.last() as int - '0' as int)
    }
}

proof fn lemma_digits_grow(s: Seq<char>, i: int)
    requires
        all_digits(s),
        0 <= i <= s.len(),
    ensures
        0 <= digits_value(s.subrange(0, i)) <= digits_value(s),
    decreases s.len() - i,
{
    if i < s.len() {
        lemma_digits_grow(s, i + 1);
        assert(s.subrange(0, i + 1).drop_last() =~= s.subrange(0, i));
    } else {
        assert(s.subrange(0, i) =~= s);
    }
    lemma_digits_nonneg(s.subrange(0, i));
}

proof fn lemma_digits_nonneg(s: Seq<char>)
    requires
        all_digits(s),
    ensures
        digits_value(s) >= 0,
    decreases s.len(),
{
    if s.len() > 0 {
        assert(all_digits(s.drop_last()));
        lemma_digits_nonneg(s.drop_last());
    }
}

/// The value of a run of decimal digits, if it fits in an `i32`.
fn int_value(text: &str) -> (r: Option<i32>)
    ensures
        r == (if all_digits(text@) && digits_value(text@) <= i32::MAX {
            Some(digits_value(text@) as i32)
        } else {
            None::<i32>
        }),
{
    let n = text.unicode_len();
    let mut v: i64 = 0;
    let mut i: usize = 0;
    while i < n
        invariant
            i <= n == text@.len(),
            0 <= v <= i32::MAX,
            v == digits_value(text@.subrange(0, i as int)),
            all_digits(text@.subrange(0, i as int)),
        decreases n - i,
    {
        let c = text.get_char(i);
        assert(text@.subrange(0, i + 1).drop_last() =~= text@.subrange(0, i as int));
        if c < '0' || c > '9' {
            return None;
        }
        let d = (c as u32 - '0' as u32) as i64;
        v = v * 10 + d;
        assert(all_digits(text@.subrange(0, i + 1)));
        if v > i32::MAX as i64 {
            proof {
                let k = (i + 1) as int;
                if all_digits(text@) {
                    lemma_digits_grow(text@, k);
                }
            }
            return None;
        }
        i = i + 1;
    }
    assert(text@.subrange(0, n as int) =~= text@);
    Some(v as i32)
}

/// Identifiers separated by commas, up to a closing parenthesis, which is
/// consumed.
#[verifier::loop_isolation(false)]
fn parse_params(src: &str, toks: &Vec<Token>, pos: usize) -> (r: Parsed<Vec<Ident>>)
    requires
        pos <= toks@.len() < usize::MAX,
    ensures
        advanced(r, pos, toks@.len()),
        pos < toks@.len() && toks@[pos as int].kind == TokenKind::RParen ==> (r matches Ok((ps, p))
            && ps@.len() == 0 && p == pos + 1),
{
    let mut ps: Vec<Ident> = Vec::new();
    if kind_at(toks, pos) == Some(TokenKind::RParen) {
        return Ok((ps, pos + 1));
    }
    let mut p = pos;
    loop
        invariant
            pos <= p <= toks@.len(),
        decreases toks@.len() - p,
    {
        let (id, at2) = parse_name(src, toks, p)?;
        ps.push(id);
        if kind_at(toks, at2) == Some(TokenKind::Comma) {
            p = at2 + 1;
        } else {
            let at3 = expect(toks, at2, TokenKind::RParen)?;
            return Ok((ps, at3));
        }
    }
}

/// Expressions separated by commas, up to the closing token `close`, which
/// is consumed.
#[verifier::loop_isolation(false)]
fn parse_list(src: &str, toks: &Vec<Token>, pos: usize, close: TokenKind, depth: usize) -> (r: Parsed<Vec<LiaExpr>>)
    requires
        pos <= toks@.len() < usize::MAX,
    ensures
        advanced(r, pos, toks@.len()),
    decreases depth, 0usize,
{
    let mut es: Vec<LiaExpr> = Vec::new();
    if kind_at(toks, pos) == Some(close) {
        return Ok((es, pos + 1));
    }
    if depth == 0 {
        return Err(ParseError::TooDeep);
    }
    let mut p = pos;
    loop
        invariant
            pos <= p <= toks@.len(),
            depth > 0,
        decreases toks@.len() - p,
    {
        let (e, at2) = parse_expr(src, toks, p, depth - 1)?;
        es.push(e);
        if kind_at(toks, at2) == Some(TokenKind::Comma) {
            p = at2 + 1;
        } else {
            let at3 = expect(toks, at2, close)?;
            return Ok((es, at3));
        }
    }
}

fn binary_op(level: u8, k: TokenKind) -> (r: Option<LiaOp>)
    ensures
        r is Some ==> ends_operand(k),
{
    match (level, k) {
        (0, TokenKind::EqEq) => Some(LiaOp::Eq),
        (0, TokenKind::Lt) => Some(LiaOp::Lt),
        (0, TokenKind::Gt) => Some(LiaOp::Gt),
        (1, TokenKind::Plus) => Some(LiaOp::Add),
        (1, TokenKind::Minus) => Some(LiaOp::Sub),
        (2, TokenKind::Star) => Some(LiaOp::Mul),
        (2, TokenKind::Slash) => Some(LiaOp::Div),
        _ => None,
    }
}

/// At `pos` stands an integer literal that fits in an `i32` and is not
/// followed by an operator, a call, an index or a field access.
pub open spec fn plain_int_at(src: Seq<char>, toks: Seq<Token>, pos: int) -> bool {
    &&& 0 <= pos < toks.len()
    &&& toks[pos].kind == TokenKind::Int
    &&& toks[pos].start <= toks[pos].end <= src.len()
    &&& all_digits(src.subrange(toks[pos].start as int, toks[pos].end as int))
    &&& digits_value(src.subrange(toks[pos].start as int, toks[pos].end as int)) <= i32::MAX
    &&& pos + 1 < toks.len() ==> !ends_operand(toks[pos + 1].kind)
}

/// Tokens that continue an expression after an operand.
pub open spec fn ends_operand(k: TokenKind) -> bool {
    k == TokenKind::LParen || k == TokenKind::LBracket || k == TokenKind::Dot || k
        == TokenKind::EqEq || k == TokenKind::Lt || k == TokenKind::Gt || k == TokenKind::Plus || k
        == TokenKind::Minus || k == TokenKind::Star || k == TokenKind::Slash
}

/// The value of the integer literal at `pos`.
pub open spec fn int_at(src: Seq<char>, toks: Seq<Token>, pos: int) -> i32 {
    digits_value(src.subrange(toks[pos].start as int, toks[pos].end as int)) as i32
}

/// An expression: comparisons bind loosest, then `+ -`, then `* /`; each
/// level associates to the left.
pub fn parse_expr(src: &str, toks: &Vec<Token>, pos: usize, depth: usize) -> (r: Parsed<LiaExpr>)
    requires
        pos <= toks@.len() < usize::MAX,
    ensures
        advanced(r, pos, toks@.len()),
        depth > 4 && plain_int_at(src@, toks@, pos as int) ==> r == Ok::<(LiaExpr, usize), ParseError>(
            (LiaExpr::Integer(int_at(src@, toks@, pos as int)), (pos + 1) as usize),
        ),
    decreases depth, 3usize,
{
    parse_level(src, toks, pos, 0, depth)
}

#[verifier::loop_isolation(false)]
fn parse_level(src: &str, toks: &Vec<Token>, pos: usize, level: u8, depth: usize) -> (r: Parsed<LiaExpr>)
    requires
        pos <= toks@.len() < usize::MAX,
    ensures
        advanced(r, pos, toks@.len()),
        depth > 4 - level && level <= 2 && plain_int_at(src@, toks@, pos as int) ==> r == Ok::<
            (LiaExpr, usize),
            ParseError,
        >((LiaExpr::Integer(int_at(src@, toks@, pos as int)), (pos + 1) as usize)),
    decreases depth, 2usize,
{
    if depth == 0 {
        return Err(ParseError::TooDeep);
    }
    let (mut lhs, mut p) = if level >= 2 {
        parse_postfix(src, toks, pos, depth - 1)?
    } else {
        parse_level(src, toks, pos, level + 1, depth - 1)?
    };
    loop
        invariant
            pos < p <= toks@.len(),
            depth > 0,
            depth > 4 - level && level <= 2 && plain_int_at(src@, toks@, pos as int) ==> p == pos + 1
                && lhs == LiaExpr::Integer(int_at(src@, toks@, pos as int)),
        decreases toks@.len() - p,
    {
        let op = match kind_at(toks, p) {
            Some(k) => binary_op(level, k),
            None => None,
        };
        match op {
            Some(op) => {
                let (rhs, at2) = if level >= 2 {
                    parse_postfix(src, toks, p + 1, depth - 1)?
                } else {
                    parse_level(src, toks, p + 1, level + 1, depth - 1)?
                };
                lhs = LiaExpr::BinOp(op, Box::new(lhs), Box::new(rhs));
                p = at2;
            },
            None => {
                return Ok((lhs, p));
            },
        }
    }
}

/// A primary expression followed by calls `(...)`, indexing `[...]` and
/// field access `.name`.
#[verifier::loop_isolation(false)]
fn parse_postfix(src: &str, toks: &Vec<Token>, pos: usize, depth: usize) -> (r: Parsed<LiaExpr>)
    requires
        pos <= toks@.len() < usize::MAX,
    ensures
        advanced(r, pos, toks@.len()),
        depth > 1 && plain_int_at(src@, toks@, pos as int) ==> r == Ok::<(LiaExpr, usize), ParseError>(
            (LiaExpr::Integer(int_at(src@, toks@, pos as int)), (pos + 1) as usize),
        ),
    decreases depth, 1usize,
{
    if depth == 0 {
        return Err(ParseError::TooDeep);
    }
    let (mut e, mut p) = parse_primary(src, toks, pos, depth - 1)?;
    loop
        invariant
            pos < p <= toks@.len(),
            depth > 0,
            depth > 1 && plain_int_at(src@, toks@, pos as int) ==> p == pos + 1 && e
                == LiaExpr::Integer(int_at(src@, toks@, pos as int)),
        decreases toks@.len() - p,
    {
        match kind_at(toks, p) {
            Some(TokenKind::LParen) => {
                let (args, at2) = parse_list(src, toks, p + 1, TokenKind::RParen, depth - 1)?;
                e = LiaExpr::Call(Box::new(e), args);
                p = at2;
            },
            Some(TokenKind::LBracket) => {
                let (k, at2) = parse_expr(src, toks, p + 1, depth - 1)?;
                let at3 = expect(toks, at2, TokenKind::RBracket)?;
                e = LiaExpr::Index(Box::new(e), Box::new(k));
                p = at3;
            },
            Some(TokenKind::Dot) => {
                let (name, at2) = parse_name(src, toks, p + 1)?;
                e = LiaExpr::Index(Box::new(e), Box::new(LiaExpr::String(name.name)));
                p = at2;
            },
            _ => {
                return Ok((e, p));
            },
        }
    }
}

/// The entries of an object literal after its `{`, through its `}`. A key is
/// a string or a bare name; both become string keys.
#[verifier::loop_isolation(false)]
fn parse_object(src: &str, toks: &Vec<Token>, pos: usize, depth: usize) -> (r: Parsed<Vec<(LiaExpr, LiaExpr)>>)
    requires
        pos <= toks@.len() < usize::MAX,
    ensures
        advanced(r, pos, toks@.len()),
    decreases depth, 0usize,
{
    let mut entries: Vec<(LiaExpr, LiaExpr)> = Vec::new();
    if kind_at(toks, pos) == Some(TokenKind::RBrace) {
        return Ok((entries, pos + 1));
    }
    if depth == 0 {
        return Err(ParseError::TooDeep);
    }
    let mut p = pos;
    loop
        invariant
            pos <= p <= toks@.len(),
            depth > 0,
        decreases toks@.len() - p,
    {
        let key = match kind_at(toks, p) {
            Some(TokenKind::Str) => token_text(src, toks[p])?,
            Some(TokenKind::Ident) => token_text(src, toks[p])?,
            _ => {
                return Err(unexpected(toks, p));
            },
        };
        let at2 = expect(toks, p + 1, TokenKind::Colon)?;
        let (v, at3) = parse_expr(src, toks, at2, depth - 1)?;
        entries.push((LiaExpr::String(String::from_str(key)), v));
        if kind_at(toks, at3) == Some(TokenKind::Comma) {
            p = at3 + 1;
        } else {
            let at4 = expect(toks, at3, TokenKind::RBrace)?;
            return Ok((entries, at4));
        }
    }
}

fn parse_primary(src: &str, toks: &Vec<Token>, pos: usize, depth: usize) -> (r: Parsed<LiaExpr>)
    requires
        pos <= toks@.len() < usize::MAX,
    ensures
        advanced(r, pos, toks@.len()),
        depth > 0 && plain_int_at(src@, toks@, pos as int) ==> r == Ok::<(LiaExpr, usize), ParseError>(
            (LiaExpr::Integer(int_at(src@, toks@, pos as int)), (pos + 1) as usize),
        ),
    decreases depth, 0usize,
{
    if pos >= toks.len() {
        return Err(ParseError::UnexpectedEnd);
    }
    if depth == 0 {
        return Err(ParseError::TooDeep);
    }
    let t = toks[pos];
    match t.kind {
        TokenKind::Int => {
            let text = token_text(src, t)?;
            match int_value(text) {
                Some(n) => Ok((LiaExpr::Integer(n), pos + 1)),
                None => Err(ParseError::IntTooLarge(pos)),
            }
        },
        TokenKind::Str => {
            let text = token_text(src, t)?;
            Ok((LiaExpr::String(String::from_str(text)), pos + 1))
        },
        TokenKind::Ident => {
            let text = token_text(src, t)?;
            let s = String::from_str(text);
            if s == String::from_str("true") {
                Ok((LiaExpr::Bool(true), pos + 1))
            } else if s == String::from_str("false") {
                Ok((LiaExpr::Bool(false), pos + 1))
            } else {
                Ok((LiaExpr::Var(Ident { name: s }), pos + 1))
            }
        },
        TokenKind::Extern => {
            let text = token_text(src, t)?;
            Ok((LiaExpr::RsVar(vec![Ident::new(text)]), pos + 1))
        },
        TokenKind::LParen => {
            let (e, p) = parse_expr(src, toks, pos + 1, depth - 1)?;
            let at2 = expect(toks, p, TokenKind::RParen)?;
            Ok((e, at2))
        },
        TokenKind::Keyword(Keyword::Function) => {
            let p = expect(toks, pos + 1, TokenKind::LParen)?;
            let (ps, at2) = parse_params(src, toks, p)?;
            let (body, at3) = parse_block(src, toks, at2, depth - 1)?;
            Ok((LiaExpr::Closure(ps, body), at3))
        },
        TokenKind::LBrace => {
            let (entries, p) = parse_object(src, toks, pos + 1, depth - 1)?;
            Ok((LiaExpr::Object(entries), p))
        },
        TokenKind::LBracket => {
            let (items, p) = parse_list(src, toks, pos + 1, TokenKind::RBracket, depth - 1)?;
            Ok((LiaExpr::Array(items), p))
        },
        _ => Err(ParseError::Unexpected(pos)),
    }
}

/// `{ statements }`.
#[verifier::loop_isolation(false)]
pub fn parse_block(src: &str, toks: &Vec<Token>, pos: usize, depth: usize) -> (r: Parsed<Vec<LiaStmt>>)
    requires
        pos <= toks@.len() < usize::MAX,
    ensures
        advanced(r, pos, toks@.len()),
        depth > 0 && pos + 1 < toks@.len() && toks@[pos as int].kind == TokenKind::LBrace
            && toks@[pos + 1].kind == TokenKind::RBrace ==> (r matches Ok((b, p)) && b@.len() == 0
            && p == pos + 2),
    decreases depth, 3usize,
{
    if depth == 0 {
        return Err(ParseError::TooDeep);
    }
    let mut p = expect(toks, pos, TokenKind::LBrace)?;
    let mut out: Vec<LiaStmt> = Vec::new();
    loop
        invariant
            pos < p <= toks@.len(),
            pos + 1 < toks@.len() && toks@[pos as int].kind == TokenKind::LBrace && toks@[pos
                + 1].kind == TokenKind::RBrace ==> p == pos + 1 && out@.len() == 0,
            depth > 0,
        decreases toks@.len() - p,
    {
        match kind_at(toks, p) {
            Some(TokenKind::RBrace) => {
                return Ok((out, p + 1));
            },
            Some(_) => {
                let (stmts, at2) = parse_stmt(src, toks, p, depth - 1)?;
                let mut more = stmts;
                out.append(&mut more);
                p = at2;
            },
            None => {
                return Err(ParseError::UnexpectedEnd);
            },
        }
    }
}

/// `var x`, `var x = e`, `target = e` or a bare expression, without the
/// closing `;`.
fn parse_simple(src: &str, toks: &Vec<Token>, pos: usize, depth: usize) -> (r: Parsed<Vec<LiaStmt>>)
    requires
        pos <= toks@.len() < usize::MAX,
    ensures
        advanced(r, pos, toks@.len()),
    decreases depth, 1usize,
{
    if depth == 0 {
        return Err(ParseError::TooDeep);
    }
    let mut out: Vec<LiaStmt> = Vec::new();
    if kind_at(toks, pos) == Some(TokenKind::Keyword(Keyword::Var)) {
        let (id, p) = parse_name(src, toks, pos + 1)?;
        let target = LiaExpr::Var(id.duplicate());
        out.push(LiaStmt::Declare(id));
        if kind_at(toks, p) == Some(TokenKind::Assign) {
            let (e, at2) = parse_expr(src, toks, p + 1, depth - 1)?;
            out.push(LiaStmt::Assign(target, e));
            return Ok((out, at2));
        }
        return Ok((out, p));
    }
    let (e, p) = parse_expr(src, toks, pos, depth - 1)?;
    if kind_at(toks, p) == Some(TokenKind::Assign) {
        let (v, at2) = parse_expr(src, toks, p + 1, depth - 1)?;
        out.push(LiaStmt::Assign(e, v));
        Ok((out, at2))
    } else {
        out.push(LiaStmt::Expr(e));
        Ok((out, p))
    }
}

/// One statement. A declaration with an initial value gives two: the
/// declaration and the assignment. `for (init; guard; step) body` gives
/// `init` followed by a loop over `body` then `step`.
pub fn parse_stmt(src: &str, toks: &Vec<Token>, pos: usize, depth: usize) -> (r: Parsed<Vec<LiaStmt>>)
    requires
        pos <= toks@.len() < usize::MAX,
    ensures
        advanced(r, pos, toks@.len()),
    decreases depth, 2usize,
{
    if depth == 0 {
        return Err(ParseError::TooDeep);
    }
    let d = depth - 1;
    match kind_at(toks, pos) {
        Some(TokenKind::Keyword(Keyword::Return)) => {
            let (e, p) = parse_expr(src, toks, pos + 1, d)?;
            let at2 = expect(toks, p, TokenKind::Semi)?;
            Ok((vec![LiaStmt::Return(e)], at2))
        },
        Some(TokenKind::Keyword(Keyword::If)) => {
            let p = expect(toks, pos + 1, TokenKind::LParen)?;
            let (g, at2) = parse_expr(src, toks, p, d)?;
            let at3 = expect(toks, at2, TokenKind::RParen)?;
            let (then_, at4) = parse_block(src, toks, at3, d)?;
            if kind_at(toks, at4) == Some(TokenKind::Keyword(Keyword::Else)) {
                let (else_, at5) = if kind_at(toks, at4 + 1) == Some(TokenKind::Keyword(Keyword::If)) {
                    parse_stmt(src, toks, at4 + 1, d)?
                } else {
                    parse_block(src, toks, at4 + 1, d)?
                };
                Ok((vec![LiaStmt::If(g, then_, Some(else_))], at5))
            } else {
                Ok((vec![LiaStmt::If(g, then_, None)], at4))
            }
        },
        Some(TokenKind::Keyword(Keyword::While)) => {
            let p = expect(toks, pos + 1, TokenKind::LParen)?;
            let (g, at2) = parse_expr(src, toks, p, d)?;
            let at3 = expect(toks, at2, TokenKind::RParen)?;
            let (body, at4) = parse_block(src, toks, at3, d)?;
            Ok((vec![LiaStmt::While(g, body)], at4))
        },
        Some(TokenKind::Keyword(Keyword::For)) => {
            let p = expect(toks, pos + 1, TokenKind::LParen)?;
            if kind_at(toks, p) == Some(TokenKind::Keyword(Keyword::Var)) && kind_at(toks, p + 2)
                == Some(TokenKind::Colon) {
                let (id, at2) = parse_name(src, toks, p + 1)?;
                let (obj, at3) = parse_expr(src, toks, at2 + 1, d)?;
                let at4 = expect(toks, at3, TokenKind::RParen)?;
                let (body, at5) = parse_block(src, toks, at4, d)?;
                return Ok((vec![LiaStmt::ForObj(id, obj, body)], at5));
            }
            let (init, at2) = parse_simple(src, toks, p, d)?;
            let at3 = expect(toks, at2, TokenKind::Semi)?;
            let (g, at4) = parse_expr(src, toks, at3, d)?;
            let at5 = expect(toks, at4, TokenKind::Semi)?;
            let (step, at6) = parse_simple(src, toks, at5, d)?;
            let at7 = expect(toks, at6, TokenKind::RParen)?;
            let (body, at8) = parse_block(src, toks, at7, d)?;
            let mut body = body;
            let mut step = step;
            body.append(&mut step);
            let mut out = init;
            out.push(LiaStmt::While(g, body));
            Ok((out, at8))
        },
        _ => {
            let (out, p) = parse_simple(src, toks, pos, d)?;
            let at2 = expect(toks, p, TokenKind::Semi)?;
            Ok((out, at2))
        },
    }
}

/// The tokens from `pos` on begin `function name() {}`, the name's span
/// lying within the source.
pub open spec fn empty_function_at(src: Seq<char>, toks: Seq<Token>, pos: int) -> bool {
    &&& 0 <= pos
    &&& pos + 6 <= toks.len()
    &&& toks[pos].kind == TokenKind::Keyword(Keyword::Function)
    &&& toks[pos + 1].kind == TokenKind::Ident
    &&& toks[pos + 1].start <= toks[pos + 1].end <= src.len()
    &&& toks[pos + 2].kind == TokenKind::LParen
    &&& toks[pos + 3].kind == TokenKind::RParen
    &&& toks[pos + 4].kind == TokenKind::LBrace
    &&& toks[pos + 5].kind == TokenKind::RBrace
}

/// `function name(params) { body }`.
pub fn parse_function(src: &str, toks: &Vec<Token>, pos: usize) -> (r: Parsed<LiaFn>)
    requires
        pos <= toks@.len() < usize::MAX,
    ensures
        advanced(r, pos, toks@.len()),
        r matches Ok((f, _)) ==> toks@[pos as int].kind == TokenKind::Keyword(Keyword::Function)
            && f.name@ == src@.subrange(
            toks@[pos + 1].start as int,
            toks@[pos + 1].end as int,
        ),
        empty_function_at(src@, toks@, pos as int) ==> (r matches Ok((f, p)) && p == pos + 6
            && f.args@.len() == 0 && f.body@.len() == 0),
{
    let p = expect(toks, pos, TokenKind::Keyword(Keyword::Function))?;
    let (name, at2) = parse_name(src, toks, p)?;
    let at3 = expect(toks, at2, TokenKind::LParen)?;
    let (args, at4) = parse_params(src, toks, at3)?;
    let (body, at5) = parse_block(src, toks, at4, MAX_NESTING)?;
    Ok((LiaFn { name, args, body }, at5))
}

/// The function definitions of a source text, in order.
pub fn parse_program(src: &str) -> (r: Result<Vec<LiaFn>, ParseError>)
    requires
        src@.len() < usize::MAX,
    ensures
        crate::lexer::tokens_of(src@) matches Err(e) ==> r == Err::<Vec<LiaFn>, ParseError>(
            ParseError::Lex(e),
        ),
        r is Ok ==> crate::lexer::tokens_of(src@) is Ok,
        match crate::lexer::tokens_of(src@) {
            Ok(ts) => {
                &&& ts.len() == 0 ==> (r matches Ok(fns) && fns@.len() == 0)
                &&& ts.len() == 6 && empty_function_at(src@, ts, 0) ==> (r matches Ok(fns)
                    && fns@.len() == 1 && fns@[0].args@.len() == 0 && fns@[0].body@.len() == 0
                    && fns@[0].name@ == src@.subrange(ts[1].start as int, ts[1].end as int))
            },
            Err(_) => true,
        },
{
    let chars = chars_of(src);
    let toks = match lex(&chars) {
        Ok(t) => t,
        Err(e) => {
            return Err(ParseError::Lex(e));
        },
    };
    assert(crate::lexer::tokens_of(src@) == Ok::<Seq<Token>, LexError>(toks@));
    if toks.len() == usize::MAX {
        return Err(ParseError::UnexpectedEnd);
    }
    let mut fns: Vec<LiaFn> = Vec::new();
    let mut p: usize = 0;
    while p < toks.len()
        invariant
            toks@.len() == 6 && empty_function_at(src@, toks@, 0) ==> (p == 0 || (p == 6
                && fns@.len() == 1 && fns@[0].args@.len() == 0 && fns@[0].body@.len() == 0
                && fns@[0].name@ == src@.subrange(toks@[1].start as int, toks@[1].end as int))),
            p == 0 ==> fns@.len() == 0,
            p <= toks@.len() < usize::MAX,
            crate::lexer::tokens_of(src@) == Ok::<Seq<Token>, LexError>(toks@),
        decreases toks@.len() - p,
    {
        let (f, at2) = parse_function(src, &toks, p)?;
        fns.push(f);
        p = at2;
    }
    Ok(fns)
}

} // verus!
