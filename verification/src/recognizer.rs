//! Where the parser stops: for each phrase of the grammar, the position
//! after the phrase that the parser reads from a position, if it reads one.
use vstd::prelude::*;

use crate::lexer::Tok;

verus! {

/// Whether the token at `p` is `x`.
pub open spec fn is_tok(t: Seq<Tok>, p: int, x: Tok) -> bool {
    0 <= p < t.len() && t[p] == x
}

/// The end position of a parse result.
pub open spec fn end_of<T>(r: Option<(T, usize)>) -> Option<int> {
    match r {
        Some((_, p)) => Some(p as int),
        None => None,
    }
}

pub open spec fn mul_op(x: Tok) -> bool {
    x is Star || x is Slash || x is Percent
}

pub open spec fn add_op(x: Tok) -> bool {
    x is Plus || x is Minus
}

pub open spec fn rel_op(x: Tok) -> bool {
    x is Lt || x is Gt || x is Le || x is Ge
}

pub open spec fn eq_op(x: Tok) -> bool {
    x is EqEq || x is NotEq
}

/// Whether the token at `q` continues a multiplicative expression.
pub open spec fn cont_mul(t: Seq<Tok>, q: int) -> bool {
    0 <= q < t.len() && mul_op(t[q])
}

pub open spec fn cont_add(t: Seq<Tok>, q: int) -> bool {
    cont_mul(t, q) || (0 <= q < t.len() && add_op(t[q]))
}

pub open spec fn cont_rel(t: Seq<Tok>, q: int) -> bool {
    cont_add(t, q) || (0 <= q < t.len() && rel_op(t[q]))
}

pub open spec fn cont_eq(t: Seq<Tok>, q: int) -> bool {
    cont_rel(t, q) || (0 <= q < t.len() && eq_op(t[q]))
}

pub open spec fn cont_land(t: Seq<Tok>, q: int) -> bool {
    cont_eq(t, q) || is_tok(t, q, Tok::AndAnd)
}

pub open spec fn cont_lor(t: Seq<Tok>, q: int) -> bool {
    cont_land(t, q) || is_tok(t, q, Tok::OrOr)
}

pub closed spec fn end_primary(t: Seq<Tok>, pos: int) -> Option<int>
    decreases t.len() - pos, 1int,
{
    if pos < 0 || pos >= t.len() {
        None
    } else {
        match t[pos] {
            Tok::LParen => match end_exp(t, pos + 1) {
                Some(p1) => if is_tok(t, p1, Tok::RParen) { Some(p1 + 1) } else { None },
                None => None,
            },
            Tok::Ident(_) => Some(pos + 1),
            Tok::Number(_) => Some(pos + 1),
            _ => None,
        }
    }
}

pub closed spec fn end_unary(t: Seq<Tok>, pos: int) -> Option<int>
    decreases t.len() - pos, 2int,
{
    if pos < 0 || pos >= t.len() {
        None
    } else if t[pos] is Plus || t[pos] is Minus || t[pos] is Not {
        end_unary(t, pos + 1)
    } else {
        end_primary(t, pos)
    }
}

pub closed spec fn mul_loop(t: Seq<Tok>, p: int) -> Option<int>
    decreases t.len() - p, 3int,
{
    if 0 <= p < t.len() && mul_op(t[p]) {
        match end_unary(t, p + 1) {
            Some(p2) => if p < p2 <= t.len() { mul_loop(t, p2) } else { None },
            None => None,
        }
    } else {
        Some(p)
    }
}

pub closed spec fn end_mul(t: Seq<Tok>, pos: int) -> Option<int>
    decreases t.len() - pos, 3int,
{
    match end_unary(t, pos) {
        Some(p0) => if pos < p0 <= t.len() { mul_loop(t, p0) } else { None },
        None => None,
    }
}

pub closed spec fn add_loop(t: Seq<Tok>, p: int) -> Option<int>
    decreases t.len() - p, 4int,
{
    if 0 <= p < t.len() && add_op(t[p]) {
        match end_mul(t, p + 1) {
            Some(p2) => if p < p2 <= t.len() { add_loop(t, p2) } else { None },
            None => None,
        }
    } else {
        Some(p)
    }
}

pub closed spec fn end_add(t: Seq<Tok>, pos: int) -> Option<int>
    decreases t.len() - pos, 4int,
{
    match end_mul(t, pos) {
        Some(p0) => if pos < p0 <= t.len() { add_loop(t, p0) } else { None },
        None => None,
    }
}

pub closed spec fn rel_loop(t: Seq<Tok>, p: int) -> Option<int>
    decreases t.len() - p, 5int,
{
    if 0 <= p < t.len() && rel_op(t[p]) {
        match end_add(t, p + 1) {
            Some(p2) => if p < p2 <= t.len() { rel_loop(t, p2) } else { None },
            None => None,
        }
    } else {
        Some(p)
    }
}

pub closed spec fn end_rel(t: Seq<Tok>, pos: int) -> Option<int>
    decreases t.len() - pos, 5int,
{
    match end_add(t, pos) {
        Some(p0) => if pos < p0 <= t.len() { rel_loop(t, p0) } else { None },
        None => None,
    }
}

pub closed spec fn eq_loop(t: Seq<Tok>, p: int) -> Option<int>
    decreases t.len() - p, 6int,
{
    if 0 <= p < t.len() && eq_op(t[p]) {
        match end_rel(t, p + 1) {
            Some(p2) => if p < p2 <= t.len() { eq_loop(t, p2) } else { None },
            None => None,
        }
    } else {
        Some(p)
    }
}

pub closed spec fn end_eq(t: Seq<Tok>, pos: int) -> Option<int>
    decreases t.len() - pos, 6int,
{
    match end_rel(t, pos) {
        Some(p0) => if pos < p0 <= t.len() { eq_loop(t, p0) } else { None },
        None => None,
    }
}

pub closed spec fn land_loop(t: Seq<Tok>, p: int) -> Option<int>
    decreases t.len() - p, 7int,
{
    if is_tok(t, p, Tok::AndAnd) {
        match end_eq(t, p + 1) {
            Some(p2) => if p < p2 <= t.len() { land_loop(t, p2) } else { None },
            None => None,
        }
    } else {
        Some(p)
    }
}

pub closed spec fn end_land(t: Seq<Tok>, pos: int) -> Option<int>
    decreases t.len() - pos, 7int,
{
    match end_eq(t, pos) {
        Some(p0) => if pos < p0 <= t.len() { land_loop(t, p0) } else { None },
        None => None,
    }
}

pub closed spec fn lor_loop(t: Seq<Tok>, p: int) -> Option<int>
    decreases t.len() - p, 8int,
{
    if is_tok(t, p, Tok::OrOr) {
        match end_land(t, p + 1) {
            Some(p2) => if p < p2 <= t.len() { lor_loop(t, p2) } else { None },
            None => None,
        }
    } else {
        Some(p)
    }
}

pub closed spec fn end_lor(t: Seq<Tok>, pos: int) -> Option<int>
    decreases t.len() - pos, 8int,
{
    match end_land(t, pos) {
        Some(p0) => if pos < p0 <= t.len() { lor_loop(t, p0) } else { None },
        None => None,
    }
}

pub closed spec fn end_exp(t: Seq<Tok>, pos: int) -> Option<int>
    decreases t.len() - pos, 9int,
{
    end_lor(t, pos)
}

pub closed spec fn end_const_def(t: Seq<Tok>, pos: int) -> Option<int>
    decreases t.len() - pos, 11int,
{
    if 0 <= pos < t.len() && t[pos] is Ident && is_tok(t, pos + 1, Tok::Assign) {
        end_exp(t, pos + 2)
    } else {
        None
    }
}

pub closed spec fn end_var_def(t: Seq<Tok>, pos: int) -> Option<int>
    decreases t.len() - pos, 11int,
{
    if 0 <= pos < t.len() && t[pos] is Ident {
        if is_tok(t, pos + 1, Tok::Assign) {
            end_exp(t, pos + 2)
        } else {
            Some(pos + 1)
        }
    } else {
        None
    }
}

pub closed spec fn const_defs_loop(t: Seq<Tok>, p: int) -> Option<int>
    decreases t.len() - p, 12int,
{
    if is_tok(t, p, Tok::Comma) {
        match end_const_def(t, p + 1) {
            Some(p2) => if p < p2 <= t.len() { const_defs_loop(t, p2) } else { None },
            None => None,
        }
    } else {
        Some(p)
    }
}

pub closed spec fn end_const_defs(t: Seq<Tok>, pos: int) -> Option<int>
    decreases t.len() - pos, 12int,
{
    match end_const_def(t, pos) {
        Some(p0) => if pos < p0 <= t.len() { const_defs_loop(t, p0) } else { None },
        None => None,
    }
}

pub closed spec fn var_defs_loop(t: Seq<Tok>, p: int) -> Option<int>
    decreases t.len() - p, 12int,
{
    if is_tok(t, p, Tok::Comma) {
        match end_var_def(t, p + 1) {
            Some(p2) => if p < p2 <= t.len() { var_defs_loop(t, p2) } else { None },
            None => None,
        }
    } else {
        Some(p)
    }
}

pub closed spec fn end_var_defs(t: Seq<Tok>, pos: int) -> Option<int>
    decreases t.len() - pos, 12int,
{
    match end_var_def(t, pos) {
        Some(p0) => if pos < p0 <= t.len() { var_defs_loop(t, p0) } else { None },
        None => None,
    }
}

/// The position after a `;` at `p`.
pub open spec fn after_semi(t: Seq<Tok>, p: Option<int>) -> Option<int> {
    match p {
        Some(p1) => if is_tok(t, p1, Tok::Semi) { Some(p1 + 1) } else { None },
        None => None,
    }
}

pub closed spec fn end_decl(t: Seq<Tok>, pos: int) -> Option<int>
    decreases t.len() - pos, 13int,
{
    if is_tok(t, pos, Tok::Const) {
        if is_tok(t, pos + 1, Tok::Int) {
            after_semi(t, end_const_defs(t, pos + 2))
        } else {
            None
        }
    } else if is_tok(t, pos, Tok::Int) {
        after_semi(t, end_var_defs(t, pos + 1))
    } else {
        None
    }
}

pub closed spec fn end_stmt(t: Seq<Tok>, pos: int) -> Option<int>
    decreases t.len() - pos, 15int,
{
    if is_tok(t, pos, Tok::Return) {
        after_semi(t, end_exp(t, pos + 1))
    } else if is_tok(t, pos, Tok::LBrace) {
        end_block(t, pos)
    } else if is_tok(t, pos, Tok::Semi) {
        Some(pos + 1)
    } else if 0 <= pos < t.len() && t[pos] is Ident && is_tok(t, pos + 1, Tok::Assign) {
        after_semi(t, end_exp(t, pos + 2))
    } else {
        after_semi(t, end_exp(t, pos))
    }
}

pub closed spec fn end_item(t: Seq<Tok>, pos: int) -> Option<int>
    decreases t.len() - pos, 16int,
{
    if is_tok(t, pos, Tok::Const) || is_tok(t, pos, Tok::Int) {
        end_decl(t, pos)
    } else {
        end_stmt(t, pos)
    }
}

pub closed spec fn items_loop(t: Seq<Tok>, p: int) -> Option<int>
    decreases t.len() - p, 17int,
{
    if p < 0 || p >= t.len() {
        None
    } else if is_tok(t, p, Tok::RBrace) {
        Some(p + 1)
    } else {
        match end_item(t, p) {
            Some(p2) => if p < p2 <= t.len() { items_loop(t, p2) } else { None },
            None => None,
        }
    }
}

pub closed spec fn end_block(t: Seq<Tok>, pos: int) -> Option<int>
    decreases t.len() - pos, 14int,
{
    if is_tok(t, pos, Tok::LBrace) {
        items_loop(t, pos + 1)
    } else {
        None
    }
}

pub(crate) proof fn unfold_end_primary(t: Seq<Tok>, pos: int)
    ensures
        end_primary(t, pos) == ({
            if pos < 0 || pos >= t.len() {
                None
            } else {
                match t[pos] {
                    Tok::LParen => match end_exp(t, pos + 1) {
                        Some(p1) => if is_tok(t, p1, Tok::RParen) { Some(p1 + 1) } else { None },
                        None => None,
                    },
                    Tok::Ident(_) => Some(pos + 1),
                    Tok::Number(_) => Some(pos + 1),
                    _ => None,
                }
            }
        }),
{
}

pub(crate) proof fn unfold_end_unary(t: Seq<Tok>, pos: int)
    ensures
        end_unary(t, pos) == ({
            if pos < 0 || pos >= t.len() {
                None
            } else if t[pos] is Plus || t[pos] is Minus || t[pos] is Not {
                end_unary(t, pos + 1)
            } else {
                end_primary(t, pos)
            }
        }),
{
}

pub(crate) proof fn unfold_mul_loop(t: Seq<Tok>, p: int)
    ensures
        mul_loop(t, p) == ({
            if 0 <= p < t.len() && mul_op(t[p]) {
                match end_unary(t, p + 1) {
                    Some(p2) => if p < p2 <= t.len() { mul_loop(t, p2) } else { None },
                    None => None,
                }
            } else {
                Some(p)
            }
        }),
{
}

pub(crate) proof fn unfold_end_mul(t: Seq<Tok>, pos: int)
    ensures
        end_mul(t, pos) == ({
            match end_unary(t, pos) {
                Some(p0) => if pos < p0 <= t.len() { mul_loop(t, p0) } else { None },
                None => None,
            }
        }),
{
}

pub(crate) proof fn unfold_add_loop(t: Seq<Tok>, p: int)
    ensures
        add_loop(t, p) == ({
            if 0 <= p < t.len() && add_op(t[p]) {
                match end_mul(t, p + 1) {
                    Some(p2) => if p < p2 <= t.len() { add_loop(t, p2) } else { None },
                    None => None,
                }
            } else {
                Some(p)
            }
        }),
{
}

pub(crate) proof fn unfold_end_add(t: Seq<Tok>, pos: int)
    ensures
        end_add(t, pos) == ({
            match end_mul(t, pos) {
                Some(p0) => if pos < p0 <= t.len() { add_loop(t, p0) } else { None },
                None => None,
            }
        }),
{
}

pub(crate) proof fn unfold_rel_loop(t: Seq<Tok>, p: int)
    ensures
        rel_loop(t, p) == ({
            if 0 <= p < t.len() && rel_op(t[p]) {
                match end_add(t, p + 1) {
                    Some(p2) => if p < p2 <= t.len() { rel_loop(t, p2) } else { None },
                    None => None,
                }
            } else {
                Some(p)
            }
        }),
{
}

pub(crate) proof fn unfold_end_rel(t: Seq<Tok>, pos: int)
    ensures
        end_rel(t, pos) == ({
            match end_add(t, pos) {
                Some(p0) => if pos < p0 <= t.len() { rel_loop(t, p0) } else { None },
                None => None,
            }
        }),
{
}

pub(crate) proof fn unfold_eq_loop(t: Seq<Tok>, p: int)
    ensures
        eq_loop(t, p) == ({
            if 0 <= p < t.len() && eq_op(t[p]) {
                match end_rel(t, p + 1) {
                    Some(p2) => if p < p2 <= t.len() { eq_loop(t, p2) } else { None },
                    None => None,
                }
            } else {
                Some(p)
            }
        }),
{
}

pub(crate) proof fn unfold_end_eq(t: Seq<Tok>, pos: int)
    ensures
        end_eq(t, pos) == ({
            match end_rel(t, pos) {
                Some(p0) => if pos < p0 <= t.len() { eq_loop(t, p0) } else { None },
                None => None,
            }
        }),
{
}

pub(crate) proof fn unfold_land_loop(t: Seq<Tok>, p: int)
    ensures
        land_loop(t, p) == ({
            if is_tok(t, p, Tok::AndAnd) {
                match end_eq(t, p + 1) {
                    Some(p2) => if p < p2 <= t.len() { land_loop(t, p2) } else { None },
                    None => None,
                }
            } else {
                Some(p)
            }
        }),
{
}

pub(crate) proof fn unfold_end_land(t: Seq<Tok>, pos: int)
    ensures
        end_land(t, pos) == ({
            match end_eq(t, pos) {
                Some(p0) => if pos < p0 <= t.len() { land_loop(t, p0) } else { None },
                None => None,
            }
        }),
{
}

pub(crate) proof fn unfold_lor_loop(t: Seq<Tok>, p: int)
    ensures
        lor_loop(t, p) == ({
            if is_tok(t, p, Tok::OrOr) {
                match end_land(t, p + 1) {
                    Some(p2) => if p < p2 <= t.len() { lor_loop(t, p2) } else { None },
                    None => None,
                }
            } else {
                Some(p)
            }
        }),
{
}

pub(crate) proof fn unfold_end_lor(t: Seq<Tok>, pos: int)
    ensures
        end_lor(t, pos) == ({
            match end_land(t, pos) {
                Some(p0) => if pos < p0 <= t.len() { lor_loop(t, p0) } else { None },
                None => None,
            }
        }),
{
}

pub(crate) proof fn unfold_end_exp(t: Seq<Tok>, pos: int)
    ensures
        end_exp(t, pos) == ({
            end_lor(t, pos)
        }),
{
}

pub(crate) proof fn unfold_end_const_def(t: Seq<Tok>, pos: int)
    ensures
        end_const_def(t, pos) == ({
            if 0 <= pos < t.len() && t[pos] is Ident && is_tok(t, pos + 1, Tok::Assign) {
                end_exp(t, pos + 2)
            } else {
                None
            }
        }),
{
}

pub(crate) proof fn unfold_end_var_def(t: Seq<Tok>, pos: int)
    ensures
        end_var_def(t, pos) == ({
            if 0 <= pos < t.len() && t[pos] is Ident {
                if is_tok(t, pos + 1, Tok::Assign) {
                    end_exp(t, pos + 2)
                } else {
                    Some(pos + 1)
                }
            } else {
                None
            }
        }),
{
}

pub(crate) proof fn unfold_const_defs_loop(t: Seq<Tok>, p: int)
    ensures
        const_defs_loop(t, p) == ({
            if is_tok(t, p, Tok::Comma) {
                match end_const_def(t, p + 1) {
                    Some(p2) => if p < p2 <= t.len() { const_defs_loop(t, p2) } else { None },
                    None => None,
                }
            } else {
                Some(p)
            }
        }),
{
}

pub(crate) proof fn unfold_end_const_defs(t: Seq<Tok>, pos: int)
    ensures
        end_const_defs(t, pos) == ({
            match end_const_def(t, pos) {
                Some(p0) => if pos < p0 <= t.len() { const_defs_loop(t, p0) } else { None },
                None => None,
            }
        }),
{
}

pub(crate) proof fn unfold_var_defs_loop(t: Seq<Tok>, p: int)
    ensures
        var_defs_loop(t, p) == ({
            if is_tok(t, p, Tok::Comma) {
                match end_var_def(t, p + 1) {
                    Some(p2) => if p < p2 <= t.len() { var_defs_loop(t, p2) } else { None },
                    None => None,
                }
            } else {
                Some(p)
            }
        }),
{
}

pub(crate) proof fn unfold_end_var_defs(t: Seq<Tok>, pos: int)
    ensures
        end_var_defs(t, pos) == ({
            match end_var_def(t, pos) {
                Some(p0) => if pos < p0 <= t.len() { var_defs_loop(t, p0) } else { None },
                None => None,
            }
        }),
{
}

pub(crate) proof fn unfold_end_decl(t: Seq<Tok>, pos: int)
    ensures
        end_decl(t, pos) == ({
            if is_tok(t, pos, Tok::Const) {
                if is_tok(t, pos + 1, Tok::Int) {
                    after_semi(t, end_const_defs(t, pos + 2))
                } else {
                    None
                }
            } else if is_tok(t, pos, Tok::Int) {
                after_semi(t, end_var_defs(t, pos + 1))
            } else {
                None
            }
        }),
{
}

pub(crate) proof fn unfold_end_stmt(t: Seq<Tok>, pos: int)
    ensures
        end_stmt(t, pos) == ({
            if is_tok(t, pos, Tok::Return) {
                after_semi(t, end_exp(t, pos + 1))
            } else if is_tok(t, pos, Tok::LBrace) {
                end_block(t, pos)
            } else if is_tok(t, pos, Tok::Semi) {
                Some(pos + 1)
            } else if 0 <= pos < t.len() && t[pos] is Ident && is_tok(t, pos + 1, Tok::Assign) {
                after_semi(t, end_exp(t, pos + 2))
            } else {
                after_semi(t, end_exp(t, pos))
            }
        }),
{
}

pub(crate) proof fn unfold_end_item(t: Seq<Tok>, pos: int)
    ensures
        end_item(t, pos) == ({
            if is_tok(t, pos, Tok::Const) || is_tok(t, pos, Tok::Int) {
                end_decl(t, pos)
            } else {
                end_stmt(t, pos)
            }
        }),
{
}

pub(crate) proof fn unfold_items_loop(t: Seq<Tok>, p: int)
    ensures
        items_loop(t, p) == ({
            if p < 0 || p >= t.len() {
                None
            } else if is_tok(t, p, Tok::RBrace) {
                Some(p + 1)
            } else {
                match end_item(t, p) {
                    Some(p2) => if p < p2 <= t.len() { items_loop(t, p2) } else { None },
                    None => None,
                }
            }
        }),
{
}

pub(crate) proof fn unfold_end_block(t: Seq<Tok>, pos: int)
    ensures
        end_block(t, pos) == ({
            if is_tok(t, pos, Tok::LBrace) {
                items_loop(t, pos + 1)
            } else {
                None
            }
        }),
{
}

} // verus!
