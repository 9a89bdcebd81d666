//! What the lexer does with white space and identifiers, stated apart from
//! the lexer's own definitions.
use vstd::prelude::*;

use crate::lexer::{finish, lex_from, lex_spec, step, word_tok, Lex, LexError, Tok};
use crate::text_laws::{decimal_digits, decimal_value};

verus! {

/// A tab, a carriage return or a space in any state of the lexer does what
/// a space does.
proof fn lemma_blank_steps_like_space(st: Lex, c: char)
    requires
        c == ' ' || c == '\t' || c == '\r',
    ensures
        step(st, c) == step(st, ' '),
{
}

/// A line feed does what a space does in any state but inside a `//`
/// comment, which it ends.
pub proof fn law_line_feed_steps_like_space(st: Lex)
    requires
        !(st is LineComment),
    ensures
        step(st, '\n') == step(st, ' '),
{
}

/// Lexing from position `i` gives the same result on two texts that differ
/// from `i` on only where one has a tab or a carriage return and the other
/// a space.
proof fn lemma_lex_from_blanks(s: Seq<char>, t: Seq<char>, i: int, st: Lex, acc: Seq<Tok>)
    requires
        s.len() == t.len(),
        0 <= i,
        forall|j: int| i <= j < s.len() ==> #[trigger] s[j] == t[j] || ((s[j] == '\t' || s[j] == '\r') && t[j] == ' '),
    ensures
        lex_from(s, i, st, acc) == lex_from(t, i, st, acc),
    decreases s.len() - i,
{
    if i < s.len() {
        if s[i] != t[i] {
            lemma_blank_steps_like_space(st, s[i]);
        }
        assert(step(st, s[i]) == step(st, t[i]));
        if let Ok((st2, ts)) = step(st, s[i]) {
            lemma_lex_from_blanks(s, t, i + 1, st2, acc + ts);
        }
    }
}

/// White space separates tokens whatever its kind: where a tab, a carriage
/// return or a space stands between two pieces of text, a space gives the
/// same tokens (or the same error).
pub proof fn law_white_space_separates_like_a_space(s1: Seq<char>, c: char, s2: Seq<char>)
    requires
        c == ' ' || c == '\t' || c == '\r',
    ensures
        lex_spec(s1 + seq![c] + s2) == lex_spec(s1 + seq![' '] + s2),
{
    let s = s1 + seq![c] + s2;
    let t = s1 + seq![' '] + s2;
    assert forall|j: int| 0 <= j < s.len() implies #[trigger] s[j] == t[j] || ((s[j] == '\t' || s[j] == '\r') && t[j] == ' ') by {
        if j < s1.len() {
            assert(s[j] == s1[j] && t[j] == s1[j]);
        } else if j == s1.len() {
            assert(s[j] == c && t[j] == ' ');
        } else {
            assert(s[j] == s2[j - s1.len() - 1] && t[j] == s2[j - s1.len() - 1]);
        }
    }
    lemma_lex_from_blanks(s, t, 0, Lex::Start, Seq::empty());
}

/// Whether `c` may begin an identifier of SysY: a letter or `_`.
pub open spec fn identifier_start(c: char) -> bool {
    ('a' <= c && c <= 'z') || ('A' <= c && c <= 'Z') || c == '_'
}

/// Whether `c` may stand in an identifier of SysY after its first
/// character: a letter, a digit or `_`.
pub open spec fn identifier_char(c: char) -> bool {
    identifier_start(c) || ('0' <= c && c <= '9')
}

/// Whether `w` is one of SysY's keywords `int`, `void`, `const`, `return`.
pub open spec fn keyword(w: Seq<char>) -> bool {
    w == seq!['i', 'n', 't'] || w == seq!['v', 'o', 'i', 'd'] || w == seq!['c', 'o', 'n', 's', 't'] || w == seq![
        'r',
        'e',
        't',
        'u',
        'r',
        'n',
    ]
}

proof fn lemma_word_continues(w: Seq<char>, i: int)
    requires
        1 <= i <= w.len(),
        forall|j: int| 0 <= j < w.len() ==> identifier_char(#[trigger] w[j]),
    ensures
        lex_from(w, i, Lex::Word(w.take(i)), Seq::empty()) == Ok::<Seq<Tok>, crate::lexer::LexError>(seq![word_tok(w)]),
    decreases w.len() - i,
{
    if i < w.len() {
        assert(identifier_char(w[i]));
        assert(w.take(i).push(w[i]) =~= w.take(i + 1));
        assert(Seq::<Tok>::empty() + Seq::<Tok>::empty() =~= Seq::<Tok>::empty());
        lemma_word_continues(w, i + 1);
    } else {
        assert(w.take(i) =~= w);
        assert(Seq::<Tok>::empty() + seq![word_tok(w)] =~= seq![word_tok(w)]);
    }
}

/// Every identifier of SysY (a letter or `_`, then letters, digits and
/// `_`) that is not a keyword is lexed as the one identifier token it
/// spells.
pub proof fn law_identifier_is_one_token(w: Seq<char>)
    requires
        w.len() > 0,
        identifier_start(w[0]),
        forall|j: int| 0 <= j < w.len() ==> identifier_char(#[trigger] w[j]),
        !keyword(w),
    ensures
        lex_spec(w) == Ok::<Seq<Tok>, crate::lexer::LexError>(seq![Tok::Ident(w)]),
{
    assert(seq![w[0]] =~= w.take(1));
    assert(Seq::<Tok>::empty() + Seq::<Tok>::empty() =~= Seq::<Tok>::empty());
    lemma_word_continues(w, 1);
}

/// The value a string of decimal digits spells is not negative.
proof fn lemma_decimal_value_nonnegative(w: Seq<char>)
    requires
        decimal_digits(w),
    ensures
        decimal_value(w) >= 0,
    decreases w.len(),
{
    if w.len() > 0 {
        assert(decimal_digits(w.drop_last()));
        lemma_decimal_value_nonnegative(w.drop_last());
        assert(w.last() == w[w.len() - 1]);
    }
}

/// A prefix of a string of decimal digits spells at most what the whole
/// string spells.
proof fn lemma_decimal_prefix_at_most(w: Seq<char>, k: int)
    requires
        decimal_digits(w),
        0 <= k <= w.len(),
    ensures
        decimal_value(w.take(k)) <= decimal_value(w),
    decreases w.len(),
{
    if k == w.len() {
        assert(w.take(k) =~= w);
    } else {
        let d = w.drop_last();
        assert(decimal_digits(d));
        assert(w.take(k) =~= d.take(k));
        lemma_decimal_prefix_at_most(d, k);
        lemma_decimal_value_nonnegative(d);
        assert(w.last() == w[w.len() - 1]);
    }
}

proof fn lemma_number_continues(w: Seq<char>, i: int)
    requires
        1 <= i <= w.len(),
        decimal_digits(w),
        decimal_value(w) <= i32::MAX,
    ensures
        lex_from(w, i, Lex::Num(10, decimal_value(w.take(i))), Seq::empty()) == Ok::<Seq<Tok>, LexError>(
            seq![Tok::Number(decimal_value(w) as i32)],
        ),
    decreases w.len() - i,
{
    if i < w.len() {
        let t = w.take(i + 1);
        assert(t.drop_last() =~= w.take(i));
        assert(t.last() == w[i]);
        assert('0' <= w[i] && w[i] <= '9');
        lemma_decimal_prefix_at_most(w, i + 1);
        assert(Seq::<Tok>::empty() + Seq::<Tok>::empty() =~= Seq::<Tok>::empty());
        lemma_number_continues(w, i + 1);
    } else {
        assert(w.take(i) =~= w);
        assert(Seq::<Tok>::empty() + seq![Tok::Number(decimal_value(w) as i32)] =~= seq![Tok::Number(decimal_value(w) as i32)]);
    }
}

/// Every decimal numeral (digits, the first of them not `0`) whose value
/// is at most `i32::MAX` is lexed as the one number token of that value.
pub proof fn law_decimal_number_is_one_token(w: Seq<char>)
    requires
        w.len() > 0,
        decimal_digits(w),
        w[0] != '0',
        decimal_value(w) <= i32::MAX,
    ensures
        lex_spec(w) == Ok::<Seq<Tok>, LexError>(seq![Tok::Number(decimal_value(w) as i32)]),
{
    let t = w.take(1);
    assert(t.drop_last() =~= Seq::<char>::empty());
    assert(decimal_value(Seq::<char>::empty()) == 0);
    assert(t.last() == w[0]);
    assert('0' <= w[0] && w[0] <= '9');
    assert(Seq::<Tok>::empty() + Seq::<Tok>::empty() =~= Seq::<Tok>::empty());
    lemma_number_continues(w, 1);
}

/// The operator or punctuation token that the text `s` is, if it is one:
/// `( ) { } ; , = == ! != < <= > >= + - * / % && ||`.
pub open spec fn operator_token(s: Seq<char>) -> Option<Tok> {
    if s == seq!['('] {
        Some(Tok::LParen)
    } else if s == seq![')'] {
        Some(Tok::RParen)
    } else if s == seq!['{'] {
        Some(Tok::LBrace)
    } else if s == seq!['}'] {
        Some(Tok::RBrace)
    } else if s == seq![';'] {
        Some(Tok::Semi)
    } else if s == seq![','] {
        Some(Tok::Comma)
    } else if s == seq!['='] {
        Some(Tok::Assign)
    } else if s == seq!['=', '='] {
        Some(Tok::EqEq)
    } else if s == seq!['!'] {
        Some(Tok::Not)
    } else if s == seq!['!', '='] {
        Some(Tok::NotEq)
    } else if s == seq!['<'] {
        Some(Tok::Lt)
    } else if s == seq!['<', '='] {
        Some(Tok::Le)
    } else if s == seq!['>'] {
        Some(Tok::Gt)
    } else if s == seq!['>', '='] {
        Some(Tok::Ge)
    } else if s == seq!['+'] {
        Some(Tok::Plus)
    } else if s == seq!['-'] {
        Some(Tok::Minus)
    } else if s == seq!['*'] {
        Some(Tok::Star)
    } else if s == seq!['/'] {
        Some(Tok::Slash)
    } else if s == seq!['%'] {
        Some(Tok::Percent)
    } else if s == seq!['&', '&'] {
        Some(Tok::AndAnd)
    } else if s == seq!['|', '|'] {
        Some(Tok::OrOr)
    } else {
        None
    }
}

/// Every operator and punctuation mark of SysY is lexed as its one token.
pub proof fn law_operator_is_one_token(s: Seq<char>)
    requires
        operator_token(s) is Some,
    ensures
        lex_spec(s) == Ok::<Seq<Tok>, LexError>(seq![operator_token(s)->0]),
{
    reveal_with_fuel(lex_from, 4);
    assert(Seq::<Tok>::empty() + Seq::<Tok>::empty() =~= Seq::<Tok>::empty());
    let t = operator_token(s)->0;
    assert(Seq::<Tok>::empty() + seq![t] =~= seq![t]);
    assert(seq![t] + Seq::<Tok>::empty() =~= seq![t]);
    assert(Seq::<Tok>::empty() + seq![t] + Seq::<Tok>::empty() =~= seq![t]);
}

/// What is lexed after tokens `acc` is `acc` followed by what is lexed
/// after none.
proof fn lemma_lex_from_acc(s: Seq<char>, i: int, st: Lex, acc: Seq<Tok>)
    ensures
        lex_from(s, i, st, acc) == match lex_from(s, i, st, Seq::empty()) {
            Ok(x) => Ok(acc + x),
            Err(e) => Err::<Seq<Tok>, LexError>(e),
        },
    decreases s.len() - i,
{
    if i >= s.len() {
        if let Ok(ts) = finish(st) {
            assert(Seq::<Tok>::empty() + ts =~= ts);
        }
    } else {
        if let Ok((st2, ts)) = step(st, s[i]) {
            lemma_lex_from_acc(s, i + 1, st2, acc + ts);
            lemma_lex_from_acc(s, i + 1, st2, Seq::<Tok>::empty() + ts);
            assert(Seq::<Tok>::empty() + ts =~= ts);
            if let Ok(x) = lex_from(s, i + 1, st2, Seq::empty()) {
                assert(acc + ts + x =~= acc + (ts + x));
            }
        }
    }
}

/// Lexing the part `b` of `p + b` from its position `j` on is lexing `b`
/// from `j`.
proof fn lemma_lex_from_shift(p: Seq<char>, b: Seq<char>, j: int, st: Lex, acc: Seq<Tok>)
    requires
        0 <= j,
    ensures
        lex_from(p + b, p.len() + j, st, acc) == lex_from(b, j, st, acc),
    decreases b.len() - j,
{
    if j < b.len() {
        assert((p + b)[p.len() + j] == b[j]);
        if let Ok((st2, ts)) = step(st, b[j]) {
            lemma_lex_from_shift(p, b, j + 1, st2, acc + ts);
        }
    }
}

/// A state of the lexer outside comments and not after a `/`.
pub open spec fn outside_comments(st: Lex) -> bool {
    !(st is Slash || st is LineComment || st is BlockComment || st is BlockStar)
}

/// A character other than `/` keeps the lexer outside comments.
proof fn lemma_step_outside_comments(st: Lex, c: char)
    requires
        outside_comments(st),
        c != '/',
    ensures
        step(st, c) matches Ok((st2, _)) ==> outside_comments(st2),
{
}

/// A space outside comments ends what is pending as the end of the text
/// would, and goes back to the start.
proof fn lemma_space_ends_pending(st: Lex)
    requires
        !(st is LineComment || st is BlockComment || st is BlockStar),
    ensures
        step(st, ' ') == match finish(st) {
            Ok(ts) => Ok((Lex::Start, ts)),
            Err(e) => Err::<(Lex, Seq<Tok>), LexError>(e),
        },
{
    if let Lex::Word(w) = st {
        assert(seq![crate::lexer::word_tok(w)] + Seq::<Tok>::empty() =~= seq![crate::lexer::word_tok(w)]);
    }
    if let Lex::Pending(q) = st {
        if let Some(t) = crate::lexer::pending_alone(q) {
            assert(seq![t] + Seq::<Tok>::empty() =~= seq![t]);
        }
    }
    if let Lex::Zero = st {
        assert(seq![Tok::Number(0)] + Seq::<Tok>::empty() =~= seq![Tok::Number(0)]);
    }
    if let Lex::Num(_, v) = st {
        assert(seq![Tok::Number(v as i32)] + Seq::<Tok>::empty() =~= seq![Tok::Number(v as i32)]);
    }
    if let Lex::Slash = st {
        assert(seq![Tok::Slash] + Seq::<Tok>::empty() =~= seq![Tok::Slash]);
    }
}

proof fn lemma_lex_from_separated(a: Seq<char>, b: Seq<char>, i: int, st: Lex, acc: Seq<Tok>)
    requires
        0 <= i <= a.len(),
        outside_comments(st),
        forall|k: int| i <= k < a.len() ==> #[trigger] a[k] != '/',
    ensures
        lex_from(a + seq![' '] + b, i, st, acc) == match lex_from(a, i, st, acc) {
            Err(e) => Err::<Seq<Tok>, LexError>(e),
            Ok(x) => match lex_spec(b) {
                Err(e) => Err::<Seq<Tok>, LexError>(e),
                Ok(y) => Ok(x + y),
            },
        },
    decreases a.len() - i,
{
    let s = a + seq![' '] + b;
    if i < a.len() {
        assert(s[i] == a[i]);
        lemma_step_outside_comments(st, a[i]);
        if let Ok((st2, ts)) = step(st, a[i]) {
            lemma_lex_from_separated(a, b, i + 1, st2, acc + ts);
        }
    } else {
        assert(s[i] == ' ');
        lemma_space_ends_pending(st);
        if let Ok(ts) = finish(st) {
            assert(s == (a + seq![' ']) + b);
            lemma_lex_from_shift(a + seq![' '], b, 0, Lex::Start, acc + ts);
            lemma_lex_from_acc(b, 0, Lex::Start, acc + ts);
        }
    }
}

/// Text that holds no `/` (so no comment), a space, then more text: the
/// tokens are those of the first text followed by those of the second, and
/// an error in either is the error of the whole.
pub proof fn law_space_separated_texts(a: Seq<char>, b: Seq<char>)
    requires
        !a.contains('/'),
    ensures
        lex_spec(a + seq![' '] + b) == match lex_spec(a) {
            Err(e) => Err::<Seq<Tok>, LexError>(e),
            Ok(x) => match lex_spec(b) {
                Err(e) => Err::<Seq<Tok>, LexError>(e),
                Ok(y) => Ok(x + y),
            },
        },
{
    assert forall|k: int| 0 <= k < a.len() implies #[trigger] a[k] != '/' by {
        if a[k] == '/' {
            assert(a.contains('/'));
        }
    }
    lemma_lex_from_separated(a, b, 0, Lex::Start, Seq::empty());
}

} // verus!
