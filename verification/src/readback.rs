//! Every spelling of a phrase of the grammar is read back whole: the
//! parser, started at a spelling that is followed by a token that cannot
//! continue it, stops right after it.
use vstd::prelude::*;

use crate::ast::{
    AddExp, Block, BlockItem, CompUnit, ConstDef, ConstInitVal, Decl, EqExp, Exp, LAndExp, LOrExp, MulExp, PrimaryExp,
    RelExp, Stmt, UnaryExp, VarDef,
};
use crate::lexer::Tok;
use crate::parser::{
    block_in_grammar, decl_in_grammar, exp_spelling, func_type_tok, item_in_grammar, items_in_grammar,
    lemma_items_in_grammar, print_add, print_block, print_const_def, print_const_defs, print_decl, print_eq, print_exp,
    print_item, print_items, print_land, print_lor, print_mul, print_primary, print_rel, print_stmt, print_unary,
    print_unit, print_var_def, print_var_defs, stmt_in_grammar, unary_op_tok, unit_in_grammar,
};
use crate::recognizer::{
    add_loop, const_defs_loop, cont_add, cont_eq, cont_land, cont_lor, cont_mul, cont_rel, end_add, end_block,
    end_const_def, end_const_defs, end_decl, end_eq, end_exp, end_item, end_land, end_lor, end_mul, end_primary,
    end_rel, end_stmt, end_unary, end_var_def, end_var_defs, eq_loop, is_tok, items_loop, land_loop, lor_loop,
    mul_loop, rel_loop, unfold_add_loop, unfold_const_defs_loop, unfold_end_add, unfold_end_block,
    unfold_end_const_def, unfold_end_const_defs, unfold_end_decl, unfold_end_eq, unfold_end_exp, unfold_end_item,
    unfold_end_land, unfold_end_lor, unfold_end_mul, unfold_end_primary, unfold_end_rel, unfold_end_stmt,
    unfold_end_unary, unfold_end_var_def, unfold_end_var_defs, unfold_eq_loop, unfold_items_loop, unfold_land_loop,
    unfold_lor_loop, unfold_mul_loop, unfold_rel_loop, unfold_var_defs_loop, var_defs_loop,
};

verus! {

// ---------------------------------------------------------------------------
// Every spelling of an expression is read back whole.
// ---------------------------------------------------------------------------

/// Splits a spelling `a x b` found in `t` between `pos` and `q`.
proof fn lemma_split3(t: Seq<Tok>, pos: int, q: int, a: Seq<Tok>, x: Tok, b: Seq<Tok>)
    requires
        0 <= pos <= q <= t.len(),
        t.subrange(pos, q) == a + seq![x] + b,
    ensures
        q == pos + a.len() + 1 + b.len(),
        t.subrange(pos, pos + a.len()) == a,
        t[pos + a.len()] == x,
        t.subrange(pos + a.len() + 1, q) == b,
{
    let m = pos + a.len();
    let full = a + seq![x] + b;
    assert(full.len() == a.len() + 1 + b.len());
    assert(t.subrange(pos, q).len() == q - pos);
    assert(t.subrange(pos, m) =~= a) by {
        assert forall|i: int| 0 <= i < a.len() implies t.subrange(pos, m)[i] == a[i] by {
            assert(t.subrange(pos, q)[i] == full[i]);
            assert(t.subrange(pos, q)[i] == t[pos + i]);
        }
    }
    assert(t[m] == x) by {
        assert(t.subrange(pos, q)[a.len() as int] == full[a.len() as int]);
        assert(t.subrange(pos, q)[a.len() as int] == t[m]);
    }
    assert(t.subrange(m + 1, q) =~= b) by {
        assert forall|i: int| 0 <= i < b.len() implies t.subrange(m + 1, q)[i] == b[i] by {
            let k = a.len() + 1 + i;
            assert(t.subrange(pos, q)[k] == full[k]);
            assert(t.subrange(pos, q)[k] == t[pos + k]);
            assert(full[k] == b[i]);
        }
    }
}

/// Splits a spelling `( inner )` found in `t` between `pos` and `q`.
proof fn lemma_split_paren(t: Seq<Tok>, pos: int, q: int, inner: Seq<Tok>)
    requires
        0 <= pos <= q <= t.len(),
        t.subrange(pos, q) == seq![Tok::LParen] + inner + seq![Tok::RParen],
    ensures
        q == pos + inner.len() + 2,
        t[pos] == Tok::LParen,
        t.subrange(pos + 1, q - 1) == inner,
        t[q - 1] == Tok::RParen,
{
    lemma_split3(t, pos, q, seq![Tok::LParen] + inner, Tok::RParen, Seq::empty());
    assert(seq![Tok::LParen] + inner + seq![Tok::RParen] + Seq::<Tok>::empty() =~= seq![Tok::LParen] + inner + seq![Tok::RParen]);
    lemma_split3(t, pos, q - 1, Seq::empty(), Tok::LParen, inner);
    assert(Seq::<Tok>::empty() + seq![Tok::LParen] + inner =~= seq![Tok::LParen] + inner);
}

/// Splits a spelling `x b` found in `t` between `pos` and `q`.
proof fn lemma_split_first(t: Seq<Tok>, pos: int, q: int, x: Tok, b: Seq<Tok>)
    requires
        0 <= pos <= q <= t.len(),
        t.subrange(pos, q) == seq![x] + b,
    ensures
        q == pos + 1 + b.len(),
        t[pos] == x,
        t.subrange(pos + 1, q) == b,
{
    lemma_split3(t, pos, q, Seq::empty(), x, b);
    assert(Seq::<Tok>::empty() + seq![x] + b =~= seq![x] + b);
}

#[verifier::rlimit(60)]
pub(crate) proof fn lemma_primary_complete(e: &PrimaryExp, t: Seq<Tok>, pos: int, q: int)
    requires
        0 <= pos <= q <= t.len(),
        t.subrange(pos, q) == print_primary(e),
    ensures
        end_primary(t, pos) == Some(q),
        pos < q,
    decreases e, 0int,
{
    unfold_end_primary(t, pos);
    match e {
        PrimaryExp::Exp(x) => {
            let inner = print_exp(x);
            assert(print_primary(e) == seq![Tok::LParen] + inner + seq![Tok::RParen]);
            lemma_split_paren(t, pos, q, inner);
            lemma_exp_complete(x, t, pos + 1, q - 1);
        },
        PrimaryExp::LVal(l) => {
            assert(print_primary(e) == seq![Tok::Ident(l.ident@)]);
            assert(t.subrange(pos, q)[0] == t[pos]);
            assert(t.subrange(pos, q).len() == 1);
        },
        PrimaryExp::Number(n) => {
            assert(print_primary(e) == seq![Tok::Number(*n)]);
            assert(t.subrange(pos, q)[0] == t[pos]);
            assert(t.subrange(pos, q).len() == 1);
        },
    }
}

pub(crate) proof fn lemma_unary_complete(e: &UnaryExp, t: Seq<Tok>, pos: int, q: int)
    requires
        0 <= pos <= q <= t.len(),
        t.subrange(pos, q) == print_unary(e),
    ensures
        end_unary(t, pos) == Some(q),
        pos < q,
    decreases e, 0int,
{
    unfold_end_unary(t, pos);
    match e {
        UnaryExp::Primary(p) => {
            lemma_primary_complete(p, t, pos, q);
            assert(print_unary(e) == print_primary(p));
            assert(t.subrange(pos, q)[0] == t[pos]);
            match p {
                PrimaryExp::Exp(x) => {
                    assert(print_primary(p) == seq![Tok::LParen] + print_exp(x) + seq![Tok::RParen]);
                    assert(t.subrange(pos, q)[0] == Tok::LParen);
                },
                PrimaryExp::LVal(l) => {
                    assert(print_primary(p) == seq![Tok::Ident(l.ident@)]);
                },
                PrimaryExp::Number(n) => {
                    assert(print_primary(p) == seq![Tok::Number(*n)]);
                },
            }
        },
        UnaryExp::Unary(op, x) => {
            lemma_split_first(t, pos, q, unary_op_tok(*op), print_unary(x));
            lemma_unary_complete(x, t, pos + 1, q);
        },
    }
}

/// The operator token of a binary node of a multiplicative expression, and
/// its operands.
pub open spec fn mul_parts(e: &MulExp) -> (MulExp, Tok, UnaryExp) {
    match e {
        MulExp::Mul(l, r) => (**l, Tok::Star, *r),
        MulExp::Div(l, r) => (**l, Tok::Slash, *r),
        MulExp::Mod(l, r) => (**l, Tok::Percent, *r),
        MulExp::Unary(u) => (*e, Tok::Star, *u),
    }
}

pub(crate) proof fn lemma_mul_spine(e: &MulExp, t: Seq<Tok>, pos: int, q: int)
    requires
        0 <= pos <= q <= t.len(),
        t.subrange(pos, q) == print_mul(e),
    ensures
        end_mul(t, pos) == mul_loop(t, q),
        pos < q,
    decreases e, 0int,
{
    unfold_end_mul(t, pos);
    match e {
        MulExp::Unary(u) => {
            lemma_unary_complete(u, t, pos, q);
            lemma_unary_nonempty(u);
        },
        _ => {
            let (l, op, r) = mul_parts(e);
            assert(print_mul(e) == print_mul(&l) + seq![op] + print_unary(&r));
            lemma_split3(t, pos, q, print_mul(&l), op, print_unary(&r));
            let q1 = pos + print_mul(&l).len();
            lemma_mul_spine(&l, t, pos, q1);
            lemma_unary_complete(&r, t, q1 + 1, q);
            lemma_unary_nonempty(&r);
            unfold_mul_loop(t, q1);
        },
    }
}

proof fn lemma_unary_nonempty(e: &UnaryExp)
    ensures
        print_unary(e).len() > 0,
    decreases e,
{
    match e {
        UnaryExp::Primary(p) => {
            assert(print_unary(e) == print_primary(p));
            match p {
                PrimaryExp::Exp(x) => {
                    assert(print_primary(p) == seq![Tok::LParen] + print_exp(x) + seq![Tok::RParen]);
                },
                PrimaryExp::LVal(l) => {
                    assert(print_primary(p) == seq![Tok::Ident(l.ident@)]);
                },
                PrimaryExp::Number(n) => {
                    assert(print_primary(p) == seq![Tok::Number(*n)]);
                },
            }
        },
        UnaryExp::Unary(op, x) => {
            assert(print_unary(e) == seq![unary_op_tok(*op)] + print_unary(x));
        },
    }
}

pub(crate) proof fn lemma_mul_complete(e: &MulExp, t: Seq<Tok>, pos: int, q: int)
    requires
        0 <= pos <= q <= t.len(),
        t.subrange(pos, q) == print_mul(e),
        !cont_mul(t, q),
    ensures
        end_mul(t, pos) == Some(q),
        pos < q,
    decreases e, 1int,
{
    lemma_mul_spine(e, t, pos, q);
    unfold_mul_loop(t, q);
}

/// The operator token of a binary node of `e`, and its operands.
pub open spec fn add_parts(e: &AddExp) -> (AddExp, Tok, MulExp) {
    match e {
        AddExp::Add(l, r) => (**l, Tok::Plus, *r),
        AddExp::Sub(l, r) => (**l, Tok::Minus, *r),
        AddExp::Mul(u) => (*e, Tok::Plus, *u),
    }
}

pub(crate) proof fn lemma_add_spine(e: &AddExp, t: Seq<Tok>, pos: int, q: int)
    requires
        0 <= pos <= q <= t.len(),
        t.subrange(pos, q) == print_add(e),
        !cont_mul(t, q),
    ensures
        end_add(t, pos) == add_loop(t, q),
        pos < q,
    decreases e, 0int,
{
    unfold_end_add(t, pos);
    match e {
        AddExp::Mul(u) => {
            lemma_mul_complete(u, t, pos, q);
        },
        _ => {
            let (l, op, r) = add_parts(e);
            assert(print_add(e) == print_add(&l) + seq![op] + print_mul(&r));
            lemma_split3(t, pos, q, print_add(&l), op, print_mul(&r));
            let q1 = pos + print_add(&l).len();
            lemma_add_spine(&l, t, pos, q1);
            lemma_mul_complete(&r, t, q1 + 1, q);
            unfold_add_loop(t, q1);
        },
    }
}

pub(crate) proof fn lemma_add_complete(e: &AddExp, t: Seq<Tok>, pos: int, q: int)
    requires
        0 <= pos <= q <= t.len(),
        t.subrange(pos, q) == print_add(e),
        !cont_add(t, q),
    ensures
        end_add(t, pos) == Some(q),
        pos < q,
    decreases e, 1int,
{
    lemma_add_spine(e, t, pos, q);
    unfold_add_loop(t, q);
}

/// The operator token of a binary node of `e`, and its operands.
pub open spec fn rel_parts(e: &RelExp) -> (RelExp, Tok, AddExp) {
    match e {
        RelExp::Lt(l, r) => (**l, Tok::Lt, *r),
        RelExp::Gt(l, r) => (**l, Tok::Gt, *r),
        RelExp::Le(l, r) => (**l, Tok::Le, *r),
        RelExp::Ge(l, r) => (**l, Tok::Ge, *r),
        RelExp::Add(u) => (*e, Tok::Lt, *u),
    }
}

pub(crate) proof fn lemma_rel_spine(e: &RelExp, t: Seq<Tok>, pos: int, q: int)
    requires
        0 <= pos <= q <= t.len(),
        t.subrange(pos, q) == print_rel(e),
        !cont_add(t, q),
    ensures
        end_rel(t, pos) == rel_loop(t, q),
        pos < q,
    decreases e, 0int,
{
    unfold_end_rel(t, pos);
    match e {
        RelExp::Add(u) => {
            lemma_add_complete(u, t, pos, q);
        },
        _ => {
            let (l, op, r) = rel_parts(e);
            assert(print_rel(e) == print_rel(&l) + seq![op] + print_add(&r));
            lemma_split3(t, pos, q, print_rel(&l), op, print_add(&r));
            let q1 = pos + print_rel(&l).len();
            lemma_rel_spine(&l, t, pos, q1);
            lemma_add_complete(&r, t, q1 + 1, q);
            unfold_rel_loop(t, q1);
        },
    }
}

pub(crate) proof fn lemma_rel_complete(e: &RelExp, t: Seq<Tok>, pos: int, q: int)
    requires
        0 <= pos <= q <= t.len(),
        t.subrange(pos, q) == print_rel(e),
        !cont_rel(t, q),
    ensures
        end_rel(t, pos) == Some(q),
        pos < q,
    decreases e, 1int,
{
    lemma_rel_spine(e, t, pos, q);
    unfold_rel_loop(t, q);
}

/// The operator token of a binary node of `e`, and its operands.
pub open spec fn eq_parts(e: &EqExp) -> (EqExp, Tok, RelExp) {
    match e {
        EqExp::Eq(l, r) => (**l, Tok::EqEq, *r),
        EqExp::Ne(l, r) => (**l, Tok::NotEq, *r),
        EqExp::Rel(u) => (*e, Tok::EqEq, *u),
    }
}

pub(crate) proof fn lemma_eq_spine(e: &EqExp, t: Seq<Tok>, pos: int, q: int)
    requires
        0 <= pos <= q <= t.len(),
        t.subrange(pos, q) == print_eq(e),
        !cont_rel(t, q),
    ensures
        end_eq(t, pos) == eq_loop(t, q),
        pos < q,
    decreases e, 0int,
{
    unfold_end_eq(t, pos);
    match e {
        EqExp::Rel(u) => {
            lemma_rel_complete(u, t, pos, q);
        },
        _ => {
            let (l, op, r) = eq_parts(e);
            assert(print_eq(e) == print_eq(&l) + seq![op] + print_rel(&r));
            lemma_split3(t, pos, q, print_eq(&l), op, print_rel(&r));
            let q1 = pos + print_eq(&l).len();
            lemma_eq_spine(&l, t, pos, q1);
            lemma_rel_complete(&r, t, q1 + 1, q);
            unfold_eq_loop(t, q1);
        },
    }
}

pub(crate) proof fn lemma_eq_complete(e: &EqExp, t: Seq<Tok>, pos: int, q: int)
    requires
        0 <= pos <= q <= t.len(),
        t.subrange(pos, q) == print_eq(e),
        !cont_eq(t, q),
    ensures
        end_eq(t, pos) == Some(q),
        pos < q,
    decreases e, 1int,
{
    lemma_eq_spine(e, t, pos, q);
    unfold_eq_loop(t, q);
}

/// The operator token of a binary node of `e`, and its operands.
pub open spec fn land_parts(e: &LAndExp) -> (LAndExp, Tok, EqExp) {
    match e {
        LAndExp::And(l, r) => (**l, Tok::AndAnd, *r),
        LAndExp::Eq(u) => (*e, Tok::AndAnd, *u),
    }
}

pub(crate) proof fn lemma_land_spine(e: &LAndExp, t: Seq<Tok>, pos: int, q: int)
    requires
        0 <= pos <= q <= t.len(),
        t.subrange(pos, q) == print_land(e),
        !cont_eq(t, q),
    ensures
        end_land(t, pos) == land_loop(t, q),
        pos < q,
    decreases e, 0int,
{
    unfold_end_land(t, pos);
    match e {
        LAndExp::Eq(u) => {
            lemma_eq_complete(u, t, pos, q);
        },
        _ => {
            let (l, op, r) = land_parts(e);
            assert(print_land(e) == print_land(&l) + seq![op] + print_eq(&r));
            lemma_split3(t, pos, q, print_land(&l), op, print_eq(&r));
            let q1 = pos + print_land(&l).len();
            lemma_land_spine(&l, t, pos, q1);
            lemma_eq_complete(&r, t, q1 + 1, q);
            unfold_land_loop(t, q1);
        },
    }
}

pub(crate) proof fn lemma_land_complete(e: &LAndExp, t: Seq<Tok>, pos: int, q: int)
    requires
        0 <= pos <= q <= t.len(),
        t.subrange(pos, q) == print_land(e),
        !cont_land(t, q),
    ensures
        end_land(t, pos) == Some(q),
        pos < q,
    decreases e, 1int,
{
    lemma_land_spine(e, t, pos, q);
    unfold_land_loop(t, q);
}

/// The operator token of a binary node of `e`, and its operands.
pub open spec fn lor_parts(e: &LOrExp) -> (LOrExp, Tok, LAndExp) {
    match e {
        LOrExp::Or(l, r) => (**l, Tok::OrOr, *r),
        LOrExp::And(u) => (*e, Tok::OrOr, *u),
    }
}

pub(crate) proof fn lemma_lor_spine(e: &LOrExp, t: Seq<Tok>, pos: int, q: int)
    requires
        0 <= pos <= q <= t.len(),
        t.subrange(pos, q) == print_lor(e),
        !cont_land(t, q),
    ensures
        end_lor(t, pos) == lor_loop(t, q),
        pos < q,
    decreases e, 0int,
{
    unfold_end_lor(t, pos);
    match e {
        LOrExp::And(u) => {
            lemma_land_complete(u, t, pos, q);
        },
        _ => {
            let (l, op, r) = lor_parts(e);
            assert(print_lor(e) == print_lor(&l) + seq![op] + print_land(&r));
            lemma_split3(t, pos, q, print_lor(&l), op, print_land(&r));
            let q1 = pos + print_lor(&l).len();
            lemma_lor_spine(&l, t, pos, q1);
            lemma_land_complete(&r, t, q1 + 1, q);
            unfold_lor_loop(t, q1);
        },
    }
}

pub(crate) proof fn lemma_lor_complete(e: &LOrExp, t: Seq<Tok>, pos: int, q: int)
    requires
        0 <= pos <= q <= t.len(),
        t.subrange(pos, q) == print_lor(e),
        !cont_lor(t, q),
    ensures
        end_lor(t, pos) == Some(q),
        pos < q,
    decreases e, 1int,
{
    lemma_lor_spine(e, t, pos, q);
    unfold_lor_loop(t, q);
}

pub(crate) proof fn lemma_exp_complete(e: &Exp, t: Seq<Tok>, pos: int, q: int)
    requires
        0 <= pos <= q <= t.len(),
        t.subrange(pos, q) == print_exp(e),
        !cont_lor(t, q),
    ensures
        end_exp(t, pos) == Some(q),
        pos < q,
    decreases e, 0int,
{
    unfold_end_exp(t, pos);
    lemma_lor_complete(&e.lorexp, t, pos, q);
}

// ---------------------------------------------------------------------------
// The tokens of expressions.
// ---------------------------------------------------------------------------

/// A token that can appear in an expression.
pub open spec fn exp_token(x: Tok) -> bool {
    x is LParen || x is RParen || x is Ident || x is Number || x is Plus || x is Minus || x is Not || x is Star
        || x is Slash || x is Percent || x is Lt || x is Gt || x is Le || x is Ge || x is EqEq || x is NotEq
        || x is AndAnd || x is OrOr
}

/// A token that can begin an expression.
pub open spec fn exp_start(x: Tok) -> bool {
    x is LParen || x is Ident || x is Number || x is Plus || x is Minus || x is Not
}

/// The tokens of an expression: at least one, the first able to begin one.
pub open spec fn exp_toks(s: Seq<Tok>) -> bool {
    &&& s.len() > 0
    &&& exp_start(s[0])
    &&& forall|i: int| 0 <= i < s.len() ==> exp_token(#[trigger] s[i])
}

proof fn lemma_exp_toks_cat(a: Seq<Tok>, x: Tok, b: Seq<Tok>)
    requires
        exp_toks(a),
        exp_token(x),
        exp_toks(b),
    ensures
        exp_toks(a + seq![x] + b),
{
    let s = a + seq![x] + b;
    assert(s[0] == a[0]);
    assert forall|i: int| 0 <= i < s.len() implies exp_token(#[trigger] s[i]) by {
        if i < a.len() {
            assert(s[i] == a[i]);
        } else if i == a.len() {
            assert(s[i] == x);
        } else {
            assert(s[i] == b[i - a.len() - 1]);
        }
    }
}

proof fn lemma_exp_toks_prefix(x: Tok, b: Seq<Tok>)
    requires
        exp_start(x),
        exp_toks(b),
    ensures
        exp_toks(seq![x] + b),
{
    let s = seq![x] + b;
    assert forall|i: int| 0 <= i < s.len() implies exp_token(#[trigger] s[i]) by {
        if i > 0 {
            assert(s[i] == b[i - 1]);
        }
    }
}

proof fn lemma_exp_toks_paren(b: Seq<Tok>)
    requires
        exp_toks(b),
    ensures
        exp_toks(seq![Tok::LParen] + b + seq![Tok::RParen]),
{
    let s = seq![Tok::LParen] + b + seq![Tok::RParen];
    assert forall|i: int| 0 <= i < s.len() implies exp_token(#[trigger] s[i]) by {
        if 0 < i <= b.len() {
            assert(s[i] == b[i - 1]);
        }
    }
}

pub(crate) proof fn lemma_primary_toks(e: &PrimaryExp)
    ensures
        exp_toks(print_primary(e)),
    decreases e, 0int,
{
    match e {
        PrimaryExp::Exp(x) => {
            assert(print_primary(e) == seq![Tok::LParen] + print_exp(x) + seq![Tok::RParen]);
            lemma_exp_toks(x);
            lemma_exp_toks_paren(print_exp(x));
        },
        PrimaryExp::LVal(l) => {
            assert(print_primary(e) == seq![Tok::Ident(l.ident@)]);
        },
        PrimaryExp::Number(n) => {
            assert(print_primary(e) == seq![Tok::Number(*n)]);
        },
    }
}

pub(crate) proof fn lemma_unary_toks(e: &UnaryExp)
    ensures
        exp_toks(print_unary(e)),
    decreases e, 0int,
{
    match e {
        UnaryExp::Primary(p) => {
            assert(print_unary(e) == print_primary(p));
            lemma_primary_toks(p);
        },
        UnaryExp::Unary(op, x) => {
            assert(print_unary(e) == seq![unary_op_tok(*op)] + print_unary(x));
            lemma_unary_toks(x);
            lemma_exp_toks_prefix(unary_op_tok(*op), print_unary(x));
        },
    }
}

pub(crate) proof fn lemma_mul_toks(e: &MulExp)
    ensures
        exp_toks(print_mul(e)),
    decreases e, 0int,
{
    match e {
        MulExp::Unary(u) => {
            assert(print_mul(e) == print_unary(u));
            lemma_unary_toks(u);
        },
        _ => {
            let (l, op, r) = mul_parts(e);
            assert(print_mul(e) == print_mul(&l) + seq![op] + print_unary(&r));
            lemma_mul_toks(&l);
            lemma_unary_toks(&r);
            lemma_exp_toks_cat(print_mul(&l), op, print_unary(&r));
        },
    }
}

pub(crate) proof fn lemma_add_toks(e: &AddExp)
    ensures
        exp_toks(print_add(e)),
    decreases e, 0int,
{
    match e {
        AddExp::Mul(u) => {
            assert(print_add(e) == print_mul(u));
            lemma_mul_toks(u);
        },
        _ => {
            let (l, op, r) = add_parts(e);
            assert(print_add(e) == print_add(&l) + seq![op] + print_mul(&r));
            lemma_add_toks(&l);
            lemma_mul_toks(&r);
            lemma_exp_toks_cat(print_add(&l), op, print_mul(&r));
        },
    }
}

pub(crate) proof fn lemma_rel_toks(e: &RelExp)
    ensures
        exp_toks(print_rel(e)),
    decreases e, 0int,
{
    match e {
        RelExp::Add(u) => {
            assert(print_rel(e) == print_add(u));
            lemma_add_toks(u);
        },
        _ => {
            let (l, op, r) = rel_parts(e);
            assert(print_rel(e) == print_rel(&l) + seq![op] + print_add(&r));
            lemma_rel_toks(&l);
            lemma_add_toks(&r);
            lemma_exp_toks_cat(print_rel(&l), op, print_add(&r));
        },
    }
}

pub(crate) proof fn lemma_eq_toks(e: &EqExp)
    ensures
        exp_toks(print_eq(e)),
    decreases e, 0int,
{
    match e {
        EqExp::Rel(u) => {
            assert(print_eq(e) == print_rel(u));
            lemma_rel_toks(u);
        },
        _ => {
            let (l, op, r) = eq_parts(e);
            assert(print_eq(e) == print_eq(&l) + seq![op] + print_rel(&r));
            lemma_eq_toks(&l);
            lemma_rel_toks(&r);
            lemma_exp_toks_cat(print_eq(&l), op, print_rel(&r));
        },
    }
}

pub(crate) proof fn lemma_land_toks(e: &LAndExp)
    ensures
        exp_toks(print_land(e)),
    decreases e, 0int,
{
    match e {
        LAndExp::Eq(u) => {
            assert(print_land(e) == print_eq(u));
            lemma_eq_toks(u);
        },
        _ => {
            let (l, op, r) = land_parts(e);
            assert(print_land(e) == print_land(&l) + seq![op] + print_eq(&r));
            lemma_land_toks(&l);
            lemma_eq_toks(&r);
            lemma_exp_toks_cat(print_land(&l), op, print_eq(&r));
        },
    }
}

pub(crate) proof fn lemma_lor_toks(e: &LOrExp)
    ensures
        exp_toks(print_lor(e)),
    decreases e, 0int,
{
    match e {
        LOrExp::And(u) => {
            assert(print_lor(e) == print_land(u));
            lemma_land_toks(u);
        },
        _ => {
            let (l, op, r) = lor_parts(e);
            assert(print_lor(e) == print_lor(&l) + seq![op] + print_land(&r));
            lemma_lor_toks(&l);
            lemma_land_toks(&r);
            lemma_exp_toks_cat(print_lor(&l), op, print_land(&r));
        },
    }
}

pub(crate) proof fn lemma_exp_toks(e: &Exp)
    ensures
        exp_toks(print_exp(e)),
    decreases e, 0int,
{
    lemma_lor_toks(&e.lorexp);
}

// ---------------------------------------------------------------------------
// Every spelling of a declaration, statement, block and unit is read back
// whole.
// ---------------------------------------------------------------------------

/// Splits a spelling `a b` found in `t` between `pos` and `q`.
proof fn lemma_split2(t: Seq<Tok>, pos: int, q: int, a: Seq<Tok>, b: Seq<Tok>)
    requires
        0 <= pos <= q <= t.len(),
        t.subrange(pos, q) == a + b,
    ensures
        q == pos + a.len() + b.len(),
        t.subrange(pos, pos + a.len()) == a,
        t.subrange(pos + a.len(), q) == b,
{
    let m = pos + a.len();
    assert(t.subrange(pos, q).len() == q - pos);
    assert(t.subrange(pos, m) =~= a) by {
        assert forall|i: int| 0 <= i < a.len() implies t.subrange(pos, m)[i] == a[i] by {
            assert(t.subrange(pos, q)[i] == (a + b)[i]);
        }
    }
    assert(t.subrange(m, q) =~= b) by {
        assert forall|i: int| 0 <= i < b.len() implies t.subrange(m, q)[i] == b[i] by {
            let k = a.len() + i;
            assert(t.subrange(pos, q)[k] == (a + b)[k]);
            assert(t.subrange(pos, q)[k] == t[pos + k]);
            assert(t.subrange(m, q)[i] == t[m + i]);
            assert((a + b)[k] == b[i]);
        }
    }
}

/// Splits a spelling `x inner y` found in `t` between `pos` and `q`.
proof fn lemma_split_wrap(t: Seq<Tok>, pos: int, q: int, x: Tok, inner: Seq<Tok>, y: Tok)
    requires
        0 <= pos <= q <= t.len(),
        t.subrange(pos, q) == seq![x] + inner + seq![y],
    ensures
        q == pos + inner.len() + 2,
        t[pos] == x,
        t.subrange(pos + 1, q - 1) == inner,
        t[q - 1] == y,
{
    lemma_split3(t, pos, q, seq![x] + inner, y, Seq::empty());
    assert(seq![x] + inner + seq![y] + Seq::<Tok>::empty() =~= seq![x] + inner + seq![y]);
    lemma_split3(t, pos, q - 1, Seq::empty(), x, inner);
    assert(Seq::<Tok>::empty() + seq![x] + inner =~= seq![x] + inner);
}

/// A token that may follow a definition.
pub open spec fn def_follow(t: Seq<Tok>, q: int) -> bool {
    is_tok(t, q, Tok::Comma) || is_tok(t, q, Tok::Semi)
}

#[verifier::spinoff_prover]
#[verifier::rlimit(80)]
proof fn lemma_const_def_complete(d: &ConstDef, t: Seq<Tok>, pos: int, q: int)
    requires
        0 <= pos <= q <= t.len(),
        t.subrange(pos, q) == print_const_def(d),
        def_follow(t, q),
    ensures
        end_const_def(t, pos) == Some(q),
        pos < q,
{
    reveal(exp_spelling);
    unfold_end_const_def(t, pos);
    match &d.init_val {
        ConstInitVal::Exp(ce) => {
            let x = print_exp(&ce.exp);
            assert(print_const_def(d) == seq![Tok::Ident(d.ident@), Tok::Assign] + x);
            assert(seq![Tok::Ident(d.ident@), Tok::Assign] + x =~= seq![Tok::Ident(d.ident@)] + (seq![Tok::Assign] + x));
            lemma_split_first(t, pos, q, Tok::Ident(d.ident@), seq![Tok::Assign] + x);
            lemma_split_first(t, pos + 1, q, Tok::Assign, x);
            lemma_exp_complete(&ce.exp, t, pos + 2, q);
        },
    }
}

#[verifier::spinoff_prover]
#[verifier::rlimit(80)]
proof fn lemma_var_def_complete(d: &VarDef, t: Seq<Tok>, pos: int, q: int)
    requires
        0 <= pos <= q <= t.len(),
        t.subrange(pos, q) == print_var_def(d),
        def_follow(t, q),
    ensures
        end_var_def(t, pos) == Some(q),
        pos < q,
{
    reveal(exp_spelling);
    unfold_end_var_def(t, pos);
    match d {
        VarDef::IDENT(n) => {
            assert(print_var_def(d) == seq![Tok::Ident(n@)]);
            assert(seq![Tok::Ident(n@)] =~= seq![Tok::Ident(n@)] + Seq::<Tok>::empty());
            lemma_split_first(t, pos, q, Tok::Ident(n@), Seq::empty());
        },
        VarDef::IDENTInitVal(n, init) => {
            let x = print_exp(&init.exp);
            assert(print_var_def(d) == seq![Tok::Ident(n@), Tok::Assign] + x);
            assert(seq![Tok::Ident(n@), Tok::Assign] + x =~= seq![Tok::Ident(n@)] + (seq![Tok::Assign] + x));
            lemma_split_first(t, pos, q, Tok::Ident(n@), seq![Tok::Assign] + x);
            lemma_split_first(t, pos + 1, q, Tok::Assign, x);
            lemma_exp_complete(&init.exp, t, pos + 2, q);
        },
    }
}

proof fn lemma_const_defs_spine(defs: Seq<ConstDef>, t: Seq<Tok>, pos: int, q: int)
    requires
        defs.len() >= 1,
        0 <= pos <= q <= t.len(),
        t.subrange(pos, q) == print_const_defs(defs),
        def_follow(t, q),
    ensures
        end_const_defs(t, pos) == const_defs_loop(t, q),
        pos < q,
    decreases defs.len(),
{
    unfold_end_const_defs(t, pos);
    if defs.len() == 1 {
        assert(print_const_defs(defs) == print_const_def(&defs[0]));
        lemma_const_def_complete(&defs[0], t, pos, q);
    } else {
        let a = print_const_defs(defs.drop_last());
        let b = print_const_def(&defs.last());
        assert(print_const_defs(defs) == a + seq![Tok::Comma] + b);
        lemma_split3(t, pos, q, a, Tok::Comma, b);
        let q1 = pos + a.len();
        lemma_const_defs_spine(defs.drop_last(), t, pos, q1);
        lemma_const_def_complete(&defs.last(), t, q1 + 1, q);
        unfold_const_defs_loop(t, q1);
    }
}

proof fn lemma_var_defs_spine(defs: Seq<VarDef>, t: Seq<Tok>, pos: int, q: int)
    requires
        defs.len() >= 1,
        0 <= pos <= q <= t.len(),
        t.subrange(pos, q) == print_var_defs(defs),
        def_follow(t, q),
    ensures
        end_var_defs(t, pos) == var_defs_loop(t, q),
        pos < q,
    decreases defs.len(),
{
    unfold_end_var_defs(t, pos);
    if defs.len() == 1 {
        assert(print_var_defs(defs) == print_var_def(&defs[0]));
        lemma_var_def_complete(&defs[0], t, pos, q);
    } else {
        let a = print_var_defs(defs.drop_last());
        let b = print_var_def(&defs.last());
        assert(print_var_defs(defs) == a + seq![Tok::Comma] + b);
        lemma_split3(t, pos, q, a, Tok::Comma, b);
        let q1 = pos + a.len();
        lemma_var_defs_spine(defs.drop_last(), t, pos, q1);
        lemma_var_def_complete(&defs.last(), t, q1 + 1, q);
        unfold_var_defs_loop(t, q1);
    }
}

proof fn lemma_decl_complete(d: &Decl, t: Seq<Tok>, pos: int, q: int)
    requires
        decl_in_grammar(d),
        0 <= pos <= q <= t.len(),
        t.subrange(pos, q) == print_decl(d),
    ensures
        end_decl(t, pos) == Some(q),
        pos < q,
        is_tok(t, pos, Tok::Const) || is_tok(t, pos, Tok::Int),
{
    unfold_end_decl(t, pos);
    match d {
        Decl::ConstDecl(cd) => {
            let dp = print_const_defs(cd.defs@);
            assert(print_decl(d) == seq![Tok::Const, Tok::Int] + dp + seq![Tok::Semi]);
            assert(seq![Tok::Const, Tok::Int] + dp + seq![Tok::Semi] =~= seq![Tok::Const] + (seq![Tok::Int] + dp) + seq![Tok::Semi]);
            lemma_split_wrap(t, pos, q, Tok::Const, seq![Tok::Int] + dp, Tok::Semi);
            lemma_split_first(t, pos + 1, q - 1, Tok::Int, dp);
            lemma_const_defs_spine(cd.defs@, t, pos + 2, q - 1);
            unfold_const_defs_loop(t, q - 1);
        },
        Decl::VarDecl(vd) => {
            let dp = print_var_defs(vd.defs@);
            assert(print_decl(d) == seq![Tok::Int] + dp + seq![Tok::Semi]);
            lemma_split_wrap(t, pos, q, Tok::Int, dp, Tok::Semi);
            lemma_var_defs_spine(vd.defs@, t, pos + 1, q - 1);
            unfold_var_defs_loop(t, q - 1);
        },
    }
}

/// What a statement's first token is not.
pub open spec fn not_decl_or_end(t: Seq<Tok>, pos: int) -> bool {
    !(is_tok(t, pos, Tok::Const) || is_tok(t, pos, Tok::Int) || is_tok(t, pos, Tok::RBrace))
}

proof fn lemma_return_complete(e: &Exp, t: Seq<Tok>, pos: int, q: int)
    requires
        0 <= pos <= q <= t.len(),
        t.subrange(pos, q) == seq![Tok::Return] + print_exp(e) + seq![Tok::Semi],
    ensures
        end_stmt(t, pos) == Some(q),
        pos < q,
        not_decl_or_end(t, pos),
{
    unfold_end_stmt(t, pos);
    lemma_split_wrap(t, pos, q, Tok::Return, print_exp(e), Tok::Semi);
    lemma_exp_complete(e, t, pos + 1, q - 1);
}

#[verifier::rlimit(40)]
proof fn lemma_assign_complete(name: Seq<char>, e: &Exp, t: Seq<Tok>, pos: int, q: int)
    requires
        0 <= pos <= q <= t.len(),
        t.subrange(pos, q) == seq![Tok::Ident(name), Tok::Assign] + print_exp(e) + seq![Tok::Semi],
    ensures
        end_stmt(t, pos) == Some(q),
        pos < q,
        not_decl_or_end(t, pos),
{
    unfold_end_stmt(t, pos);
    let x = print_exp(e);
    assert(seq![Tok::Ident(name), Tok::Assign] + x + seq![Tok::Semi] =~= seq![Tok::Ident(name)] + (seq![Tok::Assign] + x) + seq![Tok::Semi]);
    lemma_split_wrap(t, pos, q, Tok::Ident(name), seq![Tok::Assign] + x, Tok::Semi);
    lemma_split_first(t, pos + 1, q - 1, Tok::Assign, x);
    lemma_exp_complete(e, t, pos + 2, q - 1);
}

#[verifier::rlimit(40)]
proof fn lemma_exp_stmt_complete(e: &Exp, t: Seq<Tok>, pos: int, q: int)
    requires
        0 <= pos <= q <= t.len(),
        t.subrange(pos, q) == print_exp(e) + seq![Tok::Semi],
    ensures
        end_stmt(t, pos) == Some(q),
        pos < q,
        not_decl_or_end(t, pos),
{
    unfold_end_stmt(t, pos);
    let x = print_exp(e);
    lemma_split3(t, pos, q, x, Tok::Semi, Seq::empty());
    assert(x + seq![Tok::Semi] + Seq::<Tok>::empty() =~= x + seq![Tok::Semi]);
    lemma_exp_toks(e);
    lemma_exp_complete(e, t, pos, q - 1);
    assert(t[pos] == x[0]) by {
        assert(t.subrange(pos, pos + x.len())[0] == t[pos]);
    }
    if x.len() > 1 {
        assert(t[pos + 1] == x[1]) by {
            assert(t.subrange(pos, pos + x.len())[1] == t[pos + 1]);
        }
        assert(exp_token(x[1]));
    }
}

pub(crate) proof fn lemma_stmt_complete(s: &Stmt, t: Seq<Tok>, pos: int, q: int)
    requires
        stmt_in_grammar(s),
        0 <= pos <= q <= t.len(),
        t.subrange(pos, q) == print_stmt(s),
    ensures
        end_stmt(t, pos) == Some(q),
        pos < q,
        not_decl_or_end(t, pos),
    decreases s, 0int,
{
    reveal(exp_spelling);
    match s {
        Stmt::Return(e) => {
            assert(print_stmt(s) == seq![Tok::Return] + print_exp(e) + seq![Tok::Semi]);
            lemma_return_complete(e, t, pos, q);
        },
        Stmt::Assign(l, e) => {
            assert(print_stmt(s) == seq![Tok::Ident(l.ident@), Tok::Assign] + print_exp(e) + seq![Tok::Semi]);
            lemma_assign_complete(l.ident@, e, t, pos, q);
        },
        Stmt::ExprStmt(opt) => match opt {
            Some(e) => {
                assert(print_stmt(s) == print_exp(e) + seq![Tok::Semi]);
                lemma_exp_stmt_complete(e, t, pos, q);
            },
            None => {
                unfold_end_stmt(t, pos);
                assert(print_stmt(s) == seq![Tok::Semi]);
                assert(t.subrange(pos, q)[0] == t[pos]);
            },
        },
        Stmt::Block(b) => {
            assert(print_stmt(s) == print_block(b));
            unfold_end_stmt(t, pos);
            lemma_block_complete(b, t, pos, q);
        },
    }
}

pub(crate) proof fn lemma_block_complete(b: &Block, t: Seq<Tok>, pos: int, q: int)
    requires
        block_in_grammar(b),
        0 <= pos <= q <= t.len(),
        t.subrange(pos, q) == print_block(b),
    ensures
        end_block(t, pos) == Some(q),
        pos < q,
        is_tok(t, pos, Tok::LBrace),
    decreases b, 0int,
{
    unfold_end_block(t, pos);
    let x = print_items(b.items@);
    assert(print_block(b) == seq![Tok::LBrace] + x + seq![Tok::RBrace]);
    lemma_split_wrap(t, pos, q, Tok::LBrace, x, Tok::RBrace);
    lemma_items_spine(b.items@, t, pos + 1, q - 1);
    unfold_items_loop(t, q - 1);
}

proof fn lemma_items_spine(items: Seq<BlockItem>, t: Seq<Tok>, p: int, q: int)
    requires
        items_in_grammar(items),
        0 <= p <= q <= t.len(),
        t.subrange(p, q) == print_items(items),
    ensures
        items_loop(t, p) == items_loop(t, q),
    decreases items, 0int,
{
    if items.len() == 0 {
        assert(t.subrange(p, q).len() == 0);
    } else {
        lemma_items_in_grammar(items);
        lemma_items_in_grammar(items.drop_last());
        assert forall|i: int| 0 <= i < items.drop_last().len() implies item_in_grammar(#[trigger] &items.drop_last()[i]) by {
            assert(items.drop_last()[i] == items[i]);
        }
        assert(item_in_grammar(&items[items.len() - 1]));
        let a = print_items(items.drop_last());
        let b = print_item(&items.last());
        assert(print_items(items) == a + b);
        lemma_split2(t, p, q, a, b);
        let q1 = p + a.len();
        lemma_items_spine(items.drop_last(), t, p, q1);
        lemma_item_complete(&items.last(), t, q1, q);
        unfold_items_loop(t, q1);
    }
}

proof fn lemma_item_complete(it: &BlockItem, t: Seq<Tok>, pos: int, q: int)
    requires
        item_in_grammar(it),
        0 <= pos <= q <= t.len(),
        t.subrange(pos, q) == print_item(it),
    ensures
        end_item(t, pos) == Some(q),
        pos < q,
        !is_tok(t, pos, Tok::RBrace),
    decreases it, 0int,
{
    unfold_end_item(t, pos);
    match it {
        BlockItem::Decl(d) => {
            assert(print_item(it) == print_decl(d));
            lemma_decl_complete(d, t, pos, q);
        },
        BlockItem::Stmt(s) => {
            assert(print_item(it) == print_stmt(s));
            lemma_stmt_complete(s, t, pos, q);
        },
    }
}

/// The spelling of a unit of the grammar: its header, then a block that
/// runs to the end.
pub(crate) proof fn lemma_unit_complete(u: &CompUnit, t: Seq<Tok>)
    requires
        unit_in_grammar(u),
        t == print_unit(u),
    ensures
        t.len() >= 4,
        t[0] is Int || t[0] is Void,
        t[1] == Tok::Ident(u.func_def.ident@),
        t[2] == Tok::LParen,
        t[3] == Tok::RParen,
        end_block(t, 4) == Some(t.len() as int),
{
    let head = seq![func_type_tok(u.func_def.func_type), Tok::Ident(u.func_def.ident@), Tok::LParen, Tok::RParen];
    let bp = print_block(&u.func_def.block);
    assert(t == head + bp);
    assert(t.subrange(0, t.len() as int) =~= t);
    lemma_split2(t, 0, t.len() as int, head, bp);
    assert(t[0] == head[0]);
    assert(t[1] == head[1]);
    assert(t[2] == head[2]);
    assert(t[3] == head[3]);
    lemma_block_complete(&u.func_def.block, t, 4, t.len() as int);
}

} // verus!
