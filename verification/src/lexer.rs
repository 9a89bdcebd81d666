//! Lexical analysis of SysY source text.
//!
//! Separators are white space, `//` comments to the end of the line and
//! `/* */` comments.  Tokens are the keywords `int`, `void`, `const`,
//! `return`, identifiers, integer literals (decimal, octal with a leading
//! `0`, hexadecimal with `0x` or `0X`) of at most `i32::MAX`, and the
//! punctuation `( ) { } ; , = == != ! < <= > >= + - * / % && ||`.
//! Words and numbers are as long as possible.
use vstd::prelude::*;

verus! {

/// A token.
#[derive(Debug)]
pub enum Token {
    Int,
    Void,
    Const,
    Return,
    Ident(String),
    Number(i32),
    LParen,
    RParen,
    LBrace,
    RBrace,
    Semi,
    Comma,
    Assign,
    EqEq,
    NotEq,
    Not,
    Lt,
    Le,
    Gt,
    Ge,
    Plus,
    Minus,
    Star,
    Slash,
    Percent,
    AndAnd,
    OrOr,
}

/// The mathematical view of a token: identifiers as character sequences.
pub enum Tok {
    Int,
    Void,
    Const,
    Return,
    Ident(Seq<char>),
    Number(i32),
    LParen,
    RParen,
    LBrace,
    RBrace,
    Semi,
    Comma,
    Assign,
    EqEq,
    NotEq,
    Not,
    Lt,
    Le,
    Gt,
    Ge,
    Plus,
    Minus,
    Star,
    Slash,
    Percent,
    AndAnd,
    OrOr,
}

impl View for Token {
    type V = Tok;

    open spec fn view(&self) -> Tok {
        match self {
            Token::Int => Tok::Int,
            Token::Void => Tok::Void,
            Token::Const => Tok::Const,
            Token::Return => Tok::Return,
            Token::Ident(s) => Tok::Ident(s@),
            Token::Number(n) => Tok::Number(*n),
            Token::LParen => Tok::LParen,
            Token::RParen => Tok::RParen,
            Token::LBrace => Tok::LBrace,
            Token::RBrace => Tok::RBrace,
            Token::Semi => Tok::Semi,
            Token::Comma => Tok::Comma,
            Token::Assign => Tok::Assign,
            Token::EqEq => Tok::EqEq,
            Token::NotEq => Tok::NotEq,
            Token::Not => Tok::Not,
            Token::Lt => Tok::Lt,
            Token::Le => Tok::Le,
            Token::Gt => Tok::Gt,
            Token::Ge => Tok::Ge,
            Token::Plus => Tok::Plus,
            Token::Minus => Tok::Minus,
            Token::Star => Tok::Star,
            Token::Slash => Tok::Slash,
            Token::Percent => Tok::Percent,
            Token::AndAnd => Tok::AndAnd,
            Token::OrOr => Tok::OrOr,
        }
    }
}

/// The tokens of a sequence, by their views.
pub open spec fn toks(ts: Seq<Token>) -> Seq<Tok> {
    ts.map_values(|t: Token| t@)
}

/// Why source text has no tokens.
#[derive(Debug, Clone, Copy, PartialEq, Eq, Structural)]
pub enum LexError {
    /// A character that begins no token.
    UnexpectedChar(char),
    /// A `/*` comment that is not closed.
    UnterminatedComment,
    /// An integer literal above `i32::MAX`.
    NumberTooLarge,
    /// `0x` with no hexadecimal digit after it.
    MissingHexDigits,
}

/// Where the lexer is between two characters.
pub enum Lex {
    /// Between tokens.
    Start,
    /// After a `/`.
    Slash,
    /// Inside a `//` comment.
    LineComment,
    /// Inside a `/*` comment.
    BlockComment,
    /// Inside a `/*` comment, after a `*`.
    BlockStar,
    /// After `=`, `!`, `<`, `>`, `&` or `|`: the first character of a
    /// token that may have two.
    Pending(char),
    /// Inside a word.
    Word(Seq<char>),
    /// After a leading `0`.
    Zero,
    /// After `0x` or `0X`.
    HexStart,
    /// Inside a number in base `base`, with value `v` so far.
    Num(int, int),
}

pub open spec fn is_space(c: char) -> bool {
    c == ' ' || c == '\t' || c == '\n' || c == '\r'
}

pub open spec fn is_word_start(c: char) -> bool {
    ('a' <= c && c <= 'z') || ('A' <= c && c <= 'Z') || c == '_'
}

pub open spec fn is_dec_digit(c: char) -> bool {
    '0' <= c && c <= '9'
}

pub open spec fn is_word_char(c: char) -> bool {
    is_word_start(c) || is_dec_digit(c)
}

/// The value of `c` as a digit in base `base`, if it is one.
pub open spec fn digit_value(c: char, base: int) -> Option<int> {
    if '0' <= c && c <= '9' && (c as int) - ('0' as int) < base {
        Some((c as int) - ('0' as int))
    } else if base == 16 && 'a' <= c && c <= 'f' {
        Some((c as int) - ('a' as int) + 10)
    } else if base == 16 && 'A' <= c && c <= 'F' {
        Some((c as int) - ('A' as int) + 10)
    } else {
        None
    }
}

/// The token of a word: a keyword or an identifier.
pub open spec fn word_tok(w: Seq<char>) -> Tok {
    if w == seq!['i', 'n', 't'] {
        Tok::Int
    } else if w == seq!['v', 'o', 'i', 'd'] {
        Tok::Void
    } else if w == seq!['c', 'o', 'n', 's', 't'] {
        Tok::Const
    } else if w == seq!['r', 'e', 't', 'u', 'r', 'n'] {
        Tok::Return
    } else {
        Tok::Ident(w)
    }
}

/// The token of a one-character punctuation mark.
pub open spec fn single_tok(c: char) -> Option<Tok> {
    if c == '(' {
        Some(Tok::LParen)
    } else if c == ')' {
        Some(Tok::RParen)
    } else if c == '{' {
        Some(Tok::LBrace)
    } else if c == '}' {
        Some(Tok::RBrace)
    } else if c == ';' {
        Some(Tok::Semi)
    } else if c == ',' {
        Some(Tok::Comma)
    } else if c == '+' {
        Some(Tok::Plus)
    } else if c == '-' {
        Some(Tok::Minus)
    } else if c == '*' {
        Some(Tok::Star)
    } else if c == '%' {
        Some(Tok::Percent)
    } else {
        None
    }
}

/// The first character of a token that may have two characters.
pub open spec fn is_pending_start(c: char) -> bool {
    c == '=' || c == '!' || c == '<' || c == '>' || c == '&' || c == '|'
}

/// The token of a pending first character `p` followed by `c`: the
/// two-character token when `c` completes one, with `true` when `c` is
/// taken; `&` and `|` must be doubled.
pub open spec fn pair_tok(p: char, c: char) -> Option<(Tok, bool)> {
    if c == '=' && p == '=' {
        Some((Tok::EqEq, true))
    } else if c == '=' && p == '!' {
        Some((Tok::NotEq, true))
    } else if c == '=' && p == '<' {
        Some((Tok::Le, true))
    } else if c == '=' && p == '>' {
        Some((Tok::Ge, true))
    } else if c == '&' && p == '&' {
        Some((Tok::AndAnd, true))
    } else if c == '|' && p == '|' {
        Some((Tok::OrOr, true))
    } else if p == '=' {
        Some((Tok::Assign, false))
    } else if p == '!' {
        Some((Tok::Not, false))
    } else if p == '<' {
        Some((Tok::Lt, false))
    } else if p == '>' {
        Some((Tok::Gt, false))
    } else {
        None
    }
}

/// The token that ends when the pending character `p` is the last one.
pub open spec fn pending_alone(p: char) -> Option<Tok> {
    if p == '=' {
        Some(Tok::Assign)
    } else if p == '!' {
        Some(Tok::Not)
    } else if p == '<' {
        Some(Tok::Lt)
    } else if p == '>' {
        Some(Tok::Gt)
    } else {
        None
    }
}

/// Processing character `c` in state `st` from the start: a character
/// between tokens.
pub open spec fn start_step(c: char) -> Result<(Lex, Seq<Tok>), LexError> {
    if is_space(c) {
        Ok((Lex::Start, Seq::empty()))
    } else if c == '/' {
        Ok((Lex::Slash, Seq::empty()))
    } else if is_word_start(c) {
        Ok((Lex::Word(seq![c]), Seq::empty()))
    } else if c == '0' {
        Ok((Lex::Zero, Seq::empty()))
    } else if is_dec_digit(c) {
        Ok((Lex::Num(10, (c as int) - ('0' as int)), Seq::empty()))
    } else if is_pending_start(c) {
        Ok((Lex::Pending(c), Seq::empty()))
    } else {
        match single_tok(c) {
            Some(t) => Ok((Lex::Start, seq![t])),
            None => Err(LexError::UnexpectedChar(c)),
        }
    }
}

/// `t` followed by the processing of `c` from the start.
pub open spec fn then_start(t: Tok, c: char) -> Result<(Lex, Seq<Tok>), LexError> {
    match start_step(c) {
        Ok((st, ts)) => Ok((st, seq![t] + ts)),
        Err(e) => Err(e),
    }
}

/// Processing one character `c` in state `st`: the next state and the
/// tokens completed.
pub open spec fn step(st: Lex, c: char) -> Result<(Lex, Seq<Tok>), LexError> {
    match st {
        Lex::Start => start_step(c),
        Lex::Slash => if c == '/' {
            Ok((Lex::LineComment, Seq::empty()))
        } else if c == '*' {
            Ok((Lex::BlockComment, Seq::empty()))
        } else {
            then_start(Tok::Slash, c)
        },
        Lex::LineComment => if c == '\n' {
            Ok((Lex::Start, Seq::empty()))
        } else {
            Ok((Lex::LineComment, Seq::empty()))
        },
        Lex::BlockComment => if c == '*' {
            Ok((Lex::BlockStar, Seq::empty()))
        } else {
            Ok((Lex::BlockComment, Seq::empty()))
        },
        Lex::BlockStar => if c == '/' {
            Ok((Lex::Start, Seq::empty()))
        } else if c == '*' {
            Ok((Lex::BlockStar, Seq::empty()))
        } else {
            Ok((Lex::BlockComment, Seq::empty()))
        },
        Lex::Pending(p) => match pair_tok(p, c) {
            Some((t, true)) => Ok((Lex::Start, seq![t])),
            Some((t, false)) => then_start(t, c),
            None => Err(LexError::UnexpectedChar(p)),
        },
        Lex::Word(w) => if is_word_char(c) {
            Ok((Lex::Word(w.push(c)), Seq::empty()))
        } else {
            then_start(word_tok(w), c)
        },
        Lex::Zero => if c == 'x' || c == 'X' {
            Ok((Lex::HexStart, Seq::empty()))
        } else {
            match digit_value(c, 8) {
                Some(d) => Ok((Lex::Num(8, d), Seq::empty())),
                None => then_start(Tok::Number(0), c),
            }
        },
        Lex::HexStart => match digit_value(c, 16) {
            Some(d) => Ok((Lex::Num(16, d), Seq::empty())),
            None => Err(LexError::MissingHexDigits),
        },
        Lex::Num(base, v) => match digit_value(c, base) {
            Some(d) => if v * base + d > i32::MAX {
                Err(LexError::NumberTooLarge)
            } else {
                Ok((Lex::Num(base, v * base + d), Seq::empty()))
            },
            None => then_start(Tok::Number(v as i32), c),
        },
    }
}

/// The tokens completed at the end of the text in state `st`.
pub open spec fn finish(st: Lex) -> Result<Seq<Tok>, LexError> {
    match st {
        Lex::Start => Ok(Seq::empty()),
        Lex::Slash => Ok(seq![Tok::Slash]),
        Lex::LineComment => Ok(Seq::empty()),
        Lex::BlockComment => Err(LexError::UnterminatedComment),
        Lex::BlockStar => Err(LexError::UnterminatedComment),
        Lex::Pending(p) => match pending_alone(p) {
            Some(t) => Ok(seq![t]),
            None => Err(LexError::UnexpectedChar(p)),
        },
        Lex::Word(w) => Ok(seq![word_tok(w)]),
        Lex::Zero => Ok(seq![Tok::Number(0)]),
        Lex::HexStart => Err(LexError::MissingHexDigits),
        Lex::Num(_, v) => Ok(seq![Tok::Number(v as i32)]),
    }
}

/// The tokens of `s` from position `i` in state `st`, after the tokens
/// `acc`.
pub open spec fn lex_from(s: Seq<char>, i: int, st: Lex, acc: Seq<Tok>) -> Result<Seq<Tok>, LexError>
    decreases s.len() - i,
{
    if i >= s.len() {
        match finish(st) {
            Ok(ts) => Ok(acc + ts),
            Err(e) => Err(e),
        }
    } else {
        match step(st, s[i]) {
            Ok((st2, ts)) => lex_from(s, i + 1, st2, acc + ts),
            Err(e) => Err(e),
        }
    }
}

/// The tokens of the text `s`.
pub open spec fn lex_spec(s: Seq<char>) -> Result<Seq<Tok>, LexError> {
    lex_from(s, 0, Lex::Start, Seq::empty())
}

/// The state of the lexer between two characters.
pub enum LexState {
    Start,
    Slash,
    LineComment,
    BlockComment,
    BlockStar,
    Pending(char),
    Word(Vec<char>),
    Zero,
    HexStart,
    Num(u32, u32),
}

impl View for LexState {
    type V = Lex;

    open spec fn view(&self) -> Lex {
        match self {
            LexState::Start => Lex::Start,
            LexState::Slash => Lex::Slash,
            LexState::LineComment => Lex::LineComment,
            LexState::BlockComment => Lex::BlockComment,
            LexState::BlockStar => Lex::BlockStar,
            LexState::Pending(c) => Lex::Pending(*c),
            LexState::Word(w) => Lex::Word(w@),
            LexState::Zero => Lex::Zero,
            LexState::HexStart => Lex::HexStart,
            LexState::Num(b, v) => Lex::Num(*b as int, *v as int),
        }
    }
}

/// The lexer state is one that the lexer reaches: numbers are in base 8,
/// 10 or 16 and within `i32`.
pub open spec fn state_ok(st: &LexState) -> bool {
    match st {
        LexState::Num(b, v) => (*b == 8 || *b == 10 || *b == 16) && *v <= i32::MAX,
        _ => true,
    }
}

/// Appends a character to a string by std's `String::push`, which, as its
/// documentation says, appends `c` to the end of the string: the contract
/// claims that the characters afterwards are those before followed by `c`.
#[verifier::external_body]
fn push_char(s: &mut String, c: char)
    ensures
        final(s)@ == old(s)@.push(c),
{
    s.push(c);
}

/// The string of the characters `w`.
fn string_of(w: &Vec<char>) -> (s: String)
    ensures
        s@ == w@,
{
    let mut s = String::new();
    let mut i: usize = 0;
    while i < w.len()
        invariant
            i <= w@.len(),
            s@ == w@.take(i as int),
        decreases w@.len() - i,
    {
        push_char(&mut s, w[i]);
        assert(w@.take(i + 1) =~= w@.take(i as int).push(w@[i as int]));
        i = i + 1;
    }
    assert(w@.take(i as int) =~= w@);
    s
}

/// The token of a word.
fn word_token(w: &Vec<char>) -> (t: Token)
    ensures
        t@ == word_tok(w@),
{
    let n = w.len();
    if n == 3 && w[0] == 'i' && w[1] == 'n' && w[2] == 't' {
        assert(w@ =~= seq!['i', 'n', 't']);
        Token::Int
    } else if n == 4 && w[0] == 'v' && w[1] == 'o' && w[2] == 'i' && w[3] == 'd' {
        assert(w@ =~= seq!['v', 'o', 'i', 'd']);
        Token::Void
    } else if n == 5 && w[0] == 'c' && w[1] == 'o' && w[2] == 'n' && w[3] == 's' && w[4] == 't' {
        assert(w@ =~= seq!['c', 'o', 'n', 's', 't']);
        Token::Const
    } else if n == 6 && w[0] == 'r' && w[1] == 'e' && w[2] == 't' && w[3] == 'u' && w[4] == 'r' && w[5] == 'n' {
        assert(w@ =~= seq!['r', 'e', 't', 'u', 'r', 'n']);
        Token::Return
    } else {
        proof {
            if w@ == seq!['i', 'n', 't'] {
                assert(w@[0] == 'i' && w@[1] == 'n' && w@[2] == 't');
            }
            if w@ == seq!['v', 'o', 'i', 'd'] {
                assert(w@[0] == 'v' && w@[1] == 'o' && w@[2] == 'i' && w@[3] == 'd');
            }
            if w@ == seq!['c', 'o', 'n', 's', 't'] {
                assert(w@[0] == 'c' && w@[1] == 'o' && w@[2] == 'n' && w@[3] == 's' && w@[4] == 't');
            }
            if w@ == seq!['r', 'e', 't', 'u', 'r', 'n'] {
                assert(w@[0] == 'r' && w@[1] == 'e' && w@[2] == 't' && w@[3] == 'u' && w@[4] == 'r' && w@[5] == 'n');
            }
        }
        Token::Ident(string_of(w))
    }
}

/// The value of `c` as a digit in base `base`, if it is one.
fn digit_of(c: char, base: u32) -> (r: Option<u32>)
    requires
        base == 8 || base == 10 || base == 16,
    ensures
        match digit_value(c, base as int) {
            Some(d) => r == Some(d as u32),
            None => r is None,
        },
        r matches Some(d) ==> d < base,
{
    if '0' <= c && c <= '9' && (c as u32) - ('0' as u32) < base {
        Some((c as u32) - ('0' as u32))
    } else if base == 16 && 'a' <= c && c <= 'f' {
        Some((c as u32) - ('a' as u32) + 10)
    } else if base == 16 && 'A' <= c && c <= 'F' {
        Some((c as u32) - ('A' as u32) + 10)
    } else {
        None
    }
}

/// The token of a one-character punctuation mark.
fn single_token(c: char) -> (r: Option<Token>)
    ensures
        match single_tok(c) {
            Some(t) => r matches Some(x) && x@ == t,
            None => r is None,
        },
{
    if c == '(' {
        Some(Token::LParen)
    } else if c == ')' {
        Some(Token::RParen)
    } else if c == '{' {
        Some(Token::LBrace)
    } else if c == '}' {
        Some(Token::RBrace)
    } else if c == ';' {
        Some(Token::Semi)
    } else if c == ',' {
        Some(Token::Comma)
    } else if c == '+' {
        Some(Token::Plus)
    } else if c == '-' {
        Some(Token::Minus)
    } else if c == '*' {
        Some(Token::Star)
    } else if c == '%' {
        Some(Token::Percent)
    } else {
        None
    }
}

/// Appends a token to the output.
fn emit_token(out: &mut Vec<Token>, t: Token)
    ensures
        toks(final(out)@) == toks(old(out)@) + seq![t@],
{
    out.push(t);
    assert(toks(out@) =~= toks(old(out)@) + seq![t@]);
}

/// Processes `c` between tokens.
fn start_char(c: char, out: &mut Vec<Token>) -> (r: Result<LexState, LexError>)
    ensures
        match start_step(c) {
            Ok((st, ts)) => r matches Ok(s2) && s2@ == st && state_ok(&s2) && toks(final(out)@) == toks(old(out)@) + ts,
            Err(e) => r == Err::<LexState, LexError>(e),
        },
{
    if c == ' ' || c == '\t' || c == '\n' || c == '\r' {
        assert(toks(out@) =~= toks(old(out)@) + Seq::<Tok>::empty());
        Ok(LexState::Start)
    } else if c == '/' {
        assert(toks(out@) =~= toks(old(out)@) + Seq::<Tok>::empty());
        Ok(LexState::Slash)
    } else if ('a' <= c && c <= 'z') || ('A' <= c && c <= 'Z') || c == '_' {
        let mut w: Vec<char> = Vec::new();
        w.push(c);
        assert(w@ =~= seq![c]);
        assert(toks(out@) =~= toks(old(out)@) + Seq::<Tok>::empty());
        Ok(LexState::Word(w))
    } else if c == '0' {
        assert(toks(out@) =~= toks(old(out)@) + Seq::<Tok>::empty());
        Ok(LexState::Zero)
    } else if '0' <= c && c <= '9' {
        assert(toks(out@) =~= toks(old(out)@) + Seq::<Tok>::empty());
        Ok(LexState::Num(10, (c as u32) - ('0' as u32)))
    } else if c == '=' || c == '!' || c == '<' || c == '>' || c == '&' || c == '|' {
        assert(toks(out@) =~= toks(old(out)@) + Seq::<Tok>::empty());
        Ok(LexState::Pending(c))
    } else {
        match single_token(c) {
            Some(t) => {
                emit_token(out, t);
                Ok(LexState::Start)
            },
            None => Err(LexError::UnexpectedChar(c)),
        }
    }
}

/// Emits `t`, then processes `c` between tokens.
fn then_start_char(t: Token, c: char, out: &mut Vec<Token>) -> (r: Result<LexState, LexError>)
    ensures
        match then_start(t@, c) {
            Ok((st, ts)) => r matches Ok(s2) && s2@ == st && state_ok(&s2) && toks(final(out)@) == toks(old(out)@) + ts,
            Err(e) => r == Err::<LexState, LexError>(e),
        },
{
    let ghost tv = t@;
    emit_token(out, t);
    let ghost mid = toks(out@);
    let r = start_char(c, out);
    proof {
        if let Ok((st, ts)) = start_step(c) {
            assert(toks(out@) =~= toks(old(out)@) + (seq![tv] + ts));
        }
    }
    r
}

/// Processes the character `c` in state `st`.
fn step_char(st: LexState, c: char, out: &mut Vec<Token>) -> (r: Result<LexState, LexError>)
    requires
        state_ok(&st),
    ensures
        match step(st@, c) {
            Ok((st2, ts)) => r matches Ok(s2) && s2@ == st2 && state_ok(&s2) && toks(final(out)@) == toks(old(out)@) + ts,
            Err(e) => r == Err::<LexState, LexError>(e),
        },
{
    proof {
        assert(toks(out@) =~= toks(out@) + Seq::<Tok>::empty());
    }
    match st {
        LexState::Start => start_char(c, out),
        LexState::Slash => {
            if c == '/' {
                Ok(LexState::LineComment)
            } else if c == '*' {
                Ok(LexState::BlockComment)
            } else {
                then_start_char(Token::Slash, c, out)
            }
        },
        LexState::LineComment => {
            if c == '\n' {
                Ok(LexState::Start)
            } else {
                Ok(LexState::LineComment)
            }
        },
        LexState::BlockComment => {
            if c == '*' {
                Ok(LexState::BlockStar)
            } else {
                Ok(LexState::BlockComment)
            }
        },
        LexState::BlockStar => {
            if c == '/' {
                Ok(LexState::Start)
            } else if c == '*' {
                Ok(LexState::BlockStar)
            } else {
                Ok(LexState::BlockComment)
            }
        },
        LexState::Pending(p) => {
            if c == '=' && p == '=' {
                emit_token(out, Token::EqEq);
                Ok(LexState::Start)
            } else if c == '=' && p == '!' {
                emit_token(out, Token::NotEq);
                Ok(LexState::Start)
            } else if c == '=' && p == '<' {
                emit_token(out, Token::Le);
                Ok(LexState::Start)
            } else if c == '=' && p == '>' {
                emit_token(out, Token::Ge);
                Ok(LexState::Start)
            } else if c == '&' && p == '&' {
                emit_token(out, Token::AndAnd);
                Ok(LexState::Start)
            } else if c == '|' && p == '|' {
                emit_token(out, Token::OrOr);
                Ok(LexState::Start)
            } else if p == '=' {
                then_start_char(Token::Assign, c, out)
            } else if p == '!' {
                then_start_char(Token::Not, c, out)
            } else if p == '<' {
                then_start_char(Token::Lt, c, out)
            } else if p == '>' {
                then_start_char(Token::Gt, c, out)
            } else {
                Err(LexError::UnexpectedChar(p))
            }
        },
        LexState::Word(w) => {
            if ('a' <= c && c <= 'z') || ('A' <= c && c <= 'Z') || c == '_' || ('0' <= c && c <= '9') {
                let mut w2 = w;
                w2.push(c);
                Ok(LexState::Word(w2))
            } else {
                let t = word_token(&w);
                then_start_char(t, c, out)
            }
        },
        LexState::Zero => {
            if c == 'x' || c == 'X' {
                Ok(LexState::HexStart)
            } else {
                match digit_of(c, 8) {
                    Some(d) => Ok(LexState::Num(8, d)),
                    None => then_start_char(Token::Number(0), c, out),
                }
            }
        },
        LexState::HexStart => {
            match digit_of(c, 16) {
                Some(d) => Ok(LexState::Num(16, d)),
                None => Err(LexError::MissingHexDigits),
            }
        },
        LexState::Num(base, v) => {
            match digit_of(c, base) {
                Some(d) => {
                    assert((v as u64) * (base as u64) <= 2147483647u64 * 16u64) by (nonlinear_arith)
                        requires
                            v <= 2147483647u32,
                            base <= 16u32,
                    ;
                    let big: u64 = (v as u64) * (base as u64) + (d as u64);
                    if big > 2147483647u64 {
                        Err(LexError::NumberTooLarge)
                    } else {
                        Ok(LexState::Num(base, big as u32))
                    }
                },
                None => then_start_char(Token::Number(v as i32), c, out),
            }
        },
    }
}

/// Completes the tokens at the end of the text.
fn finish_state(st: LexState, out: &mut Vec<Token>) -> (r: Result<(), LexError>)
    requires
        state_ok(&st),
    ensures
        match finish(st@) {
            Ok(ts) => r is Ok && toks(final(out)@) == toks(old(out)@) + ts,
            Err(e) => r == Err::<(), LexError>(e),
        },
{
    proof {
        assert(toks(out@) =~= toks(out@) + Seq::<Tok>::empty());
    }
    match st {
        LexState::Start => Ok(()),
        LexState::Slash => {
            emit_token(out, Token::Slash);
            Ok(())
        },
        LexState::LineComment => Ok(()),
        LexState::BlockComment => Err(LexError::UnterminatedComment),
        LexState::BlockStar => Err(LexError::UnterminatedComment),
        LexState::Pending(p) => {
            if p == '=' {
                emit_token(out, Token::Assign);
                Ok(())
            } else if p == '!' {
                emit_token(out, Token::Not);
                Ok(())
            } else if p == '<' {
                emit_token(out, Token::Lt);
                Ok(())
            } else if p == '>' {
                emit_token(out, Token::Gt);
                Ok(())
            } else {
                Err(LexError::UnexpectedChar(p))
            }
        },
        LexState::Word(w) => {
            emit_token(out, word_token(&w));
            Ok(())
        },
        LexState::Zero => {
            emit_token(out, Token::Number(0));
            Ok(())
        },
        LexState::HexStart => Err(LexError::MissingHexDigits),
        LexState::Num(_, v) => {
            emit_token(out, Token::Number(v as i32));
            Ok(())
        },
    }
}

/// The tokens of the text `src`.
pub fn lex(src: &Vec<char>) -> (r: Result<Vec<Token>, LexError>)
    ensures
        match lex_spec(src@) {
            Ok(ts) => r matches Ok(v) && toks(v@) == ts,
            Err(e) => r matches Err(x) && x == e,
        },
{
    let mut out: Vec<Token> = Vec::new();
    let mut st = LexState::Start;
    let mut i: usize = 0;
    assert(toks(out@) =~= Seq::<Tok>::empty());
    while i < src.len()
        invariant
            i <= src@.len(),
            state_ok(&st),
            lex_spec(src@) == lex_from(src@, i as int, st@, toks(out@)),
        decreases src@.len() - i,
    {
        st = match step_char(st, src[i], &mut out) {
            Ok(s2) => s2,
            Err(e) => return Err(e),
        };
        i = i + 1;
    }
    match finish_state(st, &mut out) {
        Ok(()) => Ok(out),
        Err(e) => Err(e),
    }
}

} // verus!
