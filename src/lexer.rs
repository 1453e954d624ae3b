use vstd::prelude::*;
use vstd::string::StrSliceExecFns;

verus! {

#[derive(PartialEq, Eq, Structural, Clone, Copy, Debug)]
pub enum Keyword {
    Function,
    Var,
    Return,
    If,
    Else,
    While,
    For,
}

#[derive(PartialEq, Eq, Structural, Clone, Copy, Debug)]
pub enum TokenKind {
    /// A run of decimal digits.
    Int,
    /// A double-quoted string; the span holds the text between the quotes.
    Str,
    Ident,
    Keyword(Keyword),
    /// `@name`; the span holds the name.
    Extern,
    LBrace,
    RBrace,
    LParen,
    RParen,
    LBracket,
    RBracket,
    Comma,
    Colon,
    Semi,
    Dot,
    Plus,
    Minus,
    Star,
    Slash,
    EqEq,
    Lt,
    Gt,
    Assign,
}

/// A token and the span `start..end` of the source that it was read from.
#[derive(PartialEq, Eq, Structural, Clone, Copy, Debug)]
pub struct Token {
    pub kind: TokenKind,
    pub start: usize,
    pub end: usize,
}

/// Why the source could not be read, and at which position.
#[derive(PartialEq, Eq, Structural, Clone, Copy, Debug)]
pub enum LexError {
    InvalidChar(usize),
    UnterminatedString(usize),
}

/// Where the scanner is within a token.
#[derive(PartialEq, Eq, Structural, Clone, Copy, Debug)]
pub enum ScanState {
    Between,
    InIdent(usize),
    InInt(usize),
    InStr(usize),
    InExtern(usize),
    AfterEq(usize),
}

pub open spec fn is_digit(c: char) -> bool {
    '0' <= c <= '9'
}

pub open spec fn is_ident_start(c: char) -> bool {
    ('a' <= c <= 'z') || ('A' <= c <= 'Z') || c == '_'
}

pub open spec fn is_ident_char(c: char) -> bool {
    is_ident_start(c) || is_digit(c)
}

pub open spec fn is_space(c: char) -> bool {
    c == ' ' || c == '\n' || c == '\t' || c == '\r'
}

/// The token that a character forms by itself, if it does.
pub open spec fn single_kind(c: char) -> Option<TokenKind> {
    if c == '{' {
        Some(TokenKind::LBrace)
    } else if c == '}' {
        Some(TokenKind::RBrace)
    } else if c == '(' {
        Some(TokenKind::LParen)
    } else if c == ')' {
        Some(TokenKind::RParen)
    } else if c == '[' {
        Some(TokenKind::LBracket)
    } else if c == ']' {
        Some(TokenKind::RBracket)
    } else if c == ',' {
        Some(TokenKind::Comma)
    } else if c == ':' {
        Some(TokenKind::Colon)
    } else if c == ';' {
        Some(TokenKind::Semi)
    } else if c == '.' {
        Some(TokenKind::Dot)
    } else if c == '+' {
        Some(TokenKind::Plus)
    } else if c == '-' {
        Some(TokenKind::Minus)
    } else if c == '*' {
        Some(TokenKind::Star)
    } else if c == '/' {
        Some(TokenKind::Slash)
    } else if c == '<' {
        Some(TokenKind::Lt)
    } else if c == '>' {
        Some(TokenKind::Gt)
    } else {
        None
    }
}

pub open spec fn keyword_of(w: Seq<char>) -> Option<Keyword> {
    if w == "function"@ {
        Some(Keyword::Function)
    } else if w == "var"@ {
        Some(Keyword::Var)
    } else if w == "return"@ {
        Some(Keyword::Return)
    } else if w == "if"@ {
        Some(Keyword::If)
    } else if w == "else"@ {
        Some(Keyword::Else)
    } else if w == "while"@ {
        Some(Keyword::While)
    } else if w == "for"@ {
        Some(Keyword::For)
    } else {
        None
    }
}

/// The word in `s[st..en]`: a keyword or an identifier.
pub open spec fn word_token(s: Seq<char>, st: usize, en: usize) -> Token {
    match keyword_of(s.subrange(st as int, en as int)) {
        Some(k) => Token { kind: TokenKind::Keyword(k), start: st, end: en },
        None => Token { kind: TokenKind::Ident, start: st, end: en },
    }
}

/// Reading character `c` at position `i` between tokens.
pub open spec fn step_between(c: char, i: usize, acc: Seq<Token>) -> Result<(ScanState, Seq<Token>), LexError> {
    if is_space(c) {
        Ok((ScanState::Between, acc))
    } else if is_ident_start(c) {
        Ok((ScanState::InIdent(i), acc))
    } else if is_digit(c) {
        Ok((ScanState::InInt(i), acc))
    } else if c == '"' {
        Ok((ScanState::InStr((i + 1) as usize), acc))
    } else if c == '@' {
        Ok((ScanState::InExtern((i + 1) as usize), acc))
    } else if c == '=' {
        Ok((ScanState::AfterEq(i), acc))
    } else {
        match single_kind(c) {
            Some(k) => Ok((ScanState::Between, acc.push(Token { kind: k, start: i, end: (i + 1) as usize }))),
            None => Err(LexError::InvalidChar(i)),
        }
    }
}

/// Reading the character at position `i` in state `q`, with the tokens
/// `acc` read so far.
pub open spec fn step(s: Seq<char>, i: usize, q: ScanState, acc: Seq<Token>) -> Result<(ScanState, Seq<Token>), LexError> {
    let c = s[i as int];
    match q {
        ScanState::Between => step_between(c, i, acc),
        ScanState::InIdent(st) => if is_ident_char(c) {
            Ok((q, acc))
        } else {
            step_between(c, i, acc.push(word_token(s, st, i)))
        },
        ScanState::InInt(st) => if is_digit(c) {
            Ok((q, acc))
        } else {
            step_between(c, i, acc.push(Token { kind: TokenKind::Int, start: st, end: i }))
        },
        ScanState::InStr(st) => if c == '"' {
            Ok((ScanState::Between, acc.push(Token { kind: TokenKind::Str, start: st, end: i })))
        } else {
            Ok((q, acc))
        },
        ScanState::InExtern(st) => if is_ident_char(c) {
            Ok((q, acc))
        } else if i == st {
            Err(LexError::InvalidChar(i))
        } else {
            step_between(c, i, acc.push(Token { kind: TokenKind::Extern, start: st, end: i }))
        },
        ScanState::AfterEq(p) => if c == '=' {
            Ok((ScanState::Between, acc.push(Token { kind: TokenKind::EqEq, start: p, end: (i + 1) as usize })))
        } else {
            step_between(c, i, acc.push(Token { kind: TokenKind::Assign, start: p, end: (p + 1) as usize }))
        },
    }
}

/// The end of input at position `n` in state `q`.
pub open spec fn finish(n: usize, q: ScanState, acc: Seq<Token>, s: Seq<char>) -> Result<Seq<Token>, LexError> {
    match q {
        ScanState::Between => Ok(acc),
        ScanState::InIdent(st) => Ok(acc.push(word_token(s, st, n))),
        ScanState::InInt(st) => Ok(acc.push(Token { kind: TokenKind::Int, start: st, end: n })),
        ScanState::InStr(st) => Err(LexError::UnterminatedString((st - 1) as usize)),
        ScanState::InExtern(st) => if st == n {
            Err(LexError::InvalidChar(n))
        } else {
            Ok(acc.push(Token { kind: TokenKind::Extern, start: st, end: n }))
        },
        ScanState::AfterEq(p) => Ok(acc.push(Token { kind: TokenKind::Assign, start: p, end: (p + 1) as usize })),
    }
}

/// The tokens of `s` from position `i` on, in state `q` with `acc` read.
pub open spec fn scan(s: Seq<char>, i: nat, q: ScanState, acc: Seq<Token>) -> Result<Seq<Token>, LexError>
    decreases s.len() - i,
{
    if i >= s.len() {
        finish(s.len() as usize, q, acc, s)
    } else {
        match step(s, i as usize, q, acc) {
            Ok((q2, acc2)) => scan(s, i + 1, q2, acc2),
            Err(e) => Err(e),
        }
    }
}

/// The tokens of a whole source text.
pub open spec fn tokens_of(s: Seq<char>) -> Result<Seq<Token>, LexError> {
    scan(s, 0, ScanState::Between, Seq::empty())
}

fn is_space_exec(c: char) -> (r: bool)
    ensures
        r == is_space(c),
{
    c == ' ' || c == '\n' || c == '\t' || c == '\r'
}

fn is_digit_exec(c: char) -> (r: bool)
    ensures
        r == is_digit(c),
{
    '0' <= c && c <= '9'
}

fn is_ident_start_exec(c: char) -> (r: bool)
    ensures
        r == is_ident_start(c),
{
    ('a' <= c && c <= 'z') || ('A' <= c && c <= 'Z') || c == '_'
}

fn is_ident_char_exec(c: char) -> (r: bool)
    ensures
        r == is_ident_char(c),
{
    is_ident_start_exec(c) || is_digit_exec(c)
}

fn single_kind_exec(c: char) -> (r: Option<TokenKind>)
    ensures
        r == single_kind(c),
{
    match c {
        '{' => Some(TokenKind::LBrace),
        '}' => Some(TokenKind::RBrace),
        '(' => Some(TokenKind::LParen),
        ')' => Some(TokenKind::RParen),
        '[' => Some(TokenKind::LBracket),
        ']' => Some(TokenKind::RBracket),
        ',' => Some(TokenKind::Comma),
        ':' => Some(TokenKind::Colon),
        ';' => Some(TokenKind::Semi),
        '.' => Some(TokenKind::Dot),
        '+' => Some(TokenKind::Plus),
        '-' => Some(TokenKind::Minus),
        '*' => Some(TokenKind::Star),
        '/' => Some(TokenKind::Slash),
        '<' => Some(TokenKind::Lt),
        '>' => Some(TokenKind::Gt),
        _ => None,
    }
}

/// Whether `s[st..en]` spells `w`.
fn spells(s: &Vec<char>, st: usize, en: usize, w: &str) -> (r: bool)
    requires
        st <= en <= s@.len(),
    ensures
        r == (s@.subrange(st as int, en as int) == w@),
{
    let n = w.unicode_len();
    if en - st != n {
        return false;
    }
    let mut j: usize = 0;
    while j < n
        invariant
            j <= n,
            n == w@.len(),
            en - st == n,
            st <= en <= s@.len(),
            forall|k: int| 0 <= k < j ==> s@[st + k] == w@[k],
        decreases n - j,
    {
        if s[st + j] != w.get_char(j) {
            assert(s@.subrange(st as int, en as int)[j as int] != w@[j as int]);
            return false;
        }
        j = j + 1;
    }
    assert(s@.subrange(st as int, en as int) =~= w@);
    true
}

fn word_token_exec(s: &Vec<char>, st: usize, en: usize) -> (r: Token)
    requires
        st <= en <= s@.len(),
    ensures
        r == word_token(s@, st, en),
{
    let kind = if spells(s, st, en, "function") {
        TokenKind::Keyword(Keyword::Function)
    } else if spells(s, st, en, "var") {
        TokenKind::Keyword(Keyword::Var)
    } else if spells(s, st, en, "return") {
        TokenKind::Keyword(Keyword::Return)
    } else if spells(s, st, en, "if") {
        TokenKind::Keyword(Keyword::If)
    } else if spells(s, st, en, "else") {
        TokenKind::Keyword(Keyword::Else)
    } else if spells(s, st, en, "while") {
        TokenKind::Keyword(Keyword::While)
    } else if spells(s, st, en, "for") {
        TokenKind::Keyword(Keyword::For)
    } else {
        TokenKind::Ident
    };
    Token { kind, start: st, end: en }
}

fn step_between_exec(c: char, i: usize, acc: &mut Vec<Token>) -> (r: Result<ScanState, LexError>)
    requires
        i < usize::MAX,
    ensures
        match step_between(c, i, old(acc)@) {
            Ok((q, a)) => r == Ok::<ScanState, LexError>(q) && final(acc)@ == a,
            Err(e) => r == Err::<ScanState, LexError>(e),
        },
{
    if is_space_exec(c) {
        Ok(ScanState::Between)
    } else if is_ident_start_exec(c) {
        Ok(ScanState::InIdent(i))
    } else if is_digit_exec(c) {
        Ok(ScanState::InInt(i))
    } else if c == '"' {
        Ok(ScanState::InStr(i + 1))
    } else if c == '@' {
        Ok(ScanState::InExtern(i + 1))
    } else if c == '=' {
        Ok(ScanState::AfterEq(i))
    } else {
        match single_kind_exec(c) {
            Some(k) => {
                acc.push(Token { kind: k, start: i, end: i + 1 });
                Ok(ScanState::Between)
            },
            None => Err(LexError::InvalidChar(i)),
        }
    }
}

/// Splits source text into tokens.
pub fn lex(s: &Vec<char>) -> (r: Result<Vec<Token>, LexError>)
    requires
        s@.len() < usize::MAX,
    ensures
        match tokens_of(s@) {
            Ok(ts) => r matches Ok(v) && v@ == ts,
            Err(e) => r == Err::<Vec<Token>, LexError>(e),
        },
{
    let mut acc: Vec<Token> = Vec::new();
    let mut q = ScanState::Between;
    let mut i: usize = 0;
    while i < s.len()
        invariant
            i <= s@.len() < usize::MAX,
            scan(s@, i as nat, q, acc@) == tokens_of(s@),
            match q {
                ScanState::InIdent(st) => st <= i,
                ScanState::InInt(st) => st <= i,
                ScanState::InStr(st) => 1 <= st <= i,
                ScanState::InExtern(st) => st <= i,
                ScanState::AfterEq(p) => p < i,
                ScanState::Between => true,
            },
        decreases s@.len() - i,
    {
        let c = s[i];
        let ghost a0 = acc@;
        let res: Result<ScanState, LexError> = match q {
            ScanState::Between => step_between_exec(c, i, &mut acc),
            ScanState::InIdent(st) => {
                if is_ident_char_exec(c) {
                    Ok(q)
                } else {
                    acc.push(word_token_exec(s, st, i));
                    step_between_exec(c, i, &mut acc)
                }
            },
            ScanState::InInt(st) => {
                if is_digit_exec(c) {
                    Ok(q)
                } else {
                    acc.push(Token { kind: TokenKind::Int, start: st, end: i });
                    step_between_exec(c, i, &mut acc)
                }
            },
            ScanState::InStr(st) => {
                if c == '"' {
                    acc.push(Token { kind: TokenKind::Str, start: st, end: i });
                    Ok(ScanState::Between)
                } else {
                    Ok(q)
                }
            },
            ScanState::InExtern(st) => {
                if is_ident_char_exec(c) {
                    Ok(q)
                } else if i == st {
                    Err(LexError::InvalidChar(i))
                } else {
                    acc.push(Token { kind: TokenKind::Extern, start: st, end: i });
                    step_between_exec(c, i, &mut acc)
                }
            },
            ScanState::AfterEq(p) => {
                if c == '=' {
                    acc.push(Token { kind: TokenKind::EqEq, start: p, end: i + 1 });
                    Ok(ScanState::Between)
                } else {
                    acc.push(Token { kind: TokenKind::Assign, start: p, end: p + 1 });
                    step_between_exec(c, i, &mut acc)
                }
            },
        };
        match res {
            Ok(q2) => {
                q = q2;
            },
            Err(e) => {
                return Err(e);
            },
        }
        i = i + 1;
    }
    let n = s.len();
    match q {
        ScanState::Between => {},
        ScanState::InIdent(st) => acc.push(word_token_exec(s, st, n)),
        ScanState::InInt(st) => acc.push(Token { kind: TokenKind::Int, start: st, end: n }),
        ScanState::InStr(st) => {
            return Err(LexError::UnterminatedString(st - 1));
        },
        ScanState::InExtern(st) => {
            if st == n {
                return Err(LexError::InvalidChar(n));
            }
            acc.push(Token { kind: TokenKind::Extern, start: st, end: n });
        },
        ScanState::AfterEq(p) => acc.push(Token { kind: TokenKind::Assign, start: p, end: p + 1 }),
    }
    Ok(acc)
}

} // verus!
