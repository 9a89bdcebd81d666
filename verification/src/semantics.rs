//! What programs compute: the value of a source expression at run time, the
//! value of an IR value, and the law that ties the code generated for an
//! expression to the expression's value.
use vstd::prelude::*;

use crate::ast::{checked, eval, fold_binary, fold_unary, trunc_div, trunc_rem, truth, Exp, ExpOp, Expr, LVal, Stmt, UnaryOp};
use crate::error::Fault;
use crate::ir::{BinaryOp, Value, ValueKind};
use crate::irgen::{add_inst, binary_step, conv, conv_stmt, exp_code, exp_value, ir_op, unary_step, Emit, Gen};
use crate::symtable::{lookup, ScopeEntry};

verus! {

/// The value of a computation that may fail, when it does not.
pub open spec fn ok_value(r: Result<i32, Fault>) -> Option<i32> {
    match r {
        Ok(v) => Some(v),
        Err(_) => None,
    }
}

/// The value of the IR operation `op` on `a` and `b`.  Arithmetic is that
/// of the integers and has a value when the result is an `i32` and no
/// division by zero occurs; division rounds toward zero and the remainder
/// has the sign of the dividend.  Comparisons give `1` or `0`; `and`, `or`
/// and `xor` work bit by bit.  The shifts, which IR generation never emits,
/// are given no value here.
pub open spec fn ir_binary(op: BinaryOp, a: i32, b: i32) -> Option<i32> {
    match op {
        BinaryOp::Add => ok_value(checked(a + b)),
        BinaryOp::Sub => ok_value(checked(a - b)),
        BinaryOp::Mul => ok_value(checked(a * b)),
        BinaryOp::Div => if b == 0 { None } else { ok_value(checked(trunc_div(a as int, b as int))) },
        BinaryOp::Mod => if b == 0 || (a == i32::MIN && b == -1) {
            None
        } else {
            Some(trunc_rem(a as int, b as int) as i32)
        },
        BinaryOp::Eq => Some(truth(a == b)),
        BinaryOp::NotEq => Some(truth(a != b)),
        BinaryOp::Lt => Some(truth(a < b)),
        BinaryOp::Gt => Some(truth(a > b)),
        BinaryOp::Le => Some(truth(a <= b)),
        BinaryOp::Ge => Some(truth(a >= b)),
        BinaryOp::And => Some(a & b),
        BinaryOp::Or => Some(a | b),
        BinaryOp::Xor => Some(a ^ b),
        _ => None,
    }
}

/// The value that IR value `v` of the data-flow graph `vals` holds when the
/// memory holds `mem` (allocation handle to content): a constant is itself,
/// a load reads the memory, a binary operation applies to its operands'
/// values.  Values that hold no integer, and reads of memory that holds
/// nothing, have no value.
pub open spec fn ir_value(vals: Seq<ValueKind>, v: Value, mem: Map<Value, i32>) -> Option<i32>
    decreases v,
{
    if v >= vals.len() {
        None
    } else {
        match vals[v as int] {
            ValueKind::Integer(n) => Some(n),
            ValueKind::Load(a) => if mem.contains_key(a) { Some(mem[a]) } else { None },
            ValueKind::Binary(op, l, r) => if l < v && r < v {
                match (ir_value(vals, l, mem), ir_value(vals, r, mem)) {
                    (Some(x), Some(y)) => ir_binary(op, x, y),
                    _ => None,
                }
            } else {
                None
            },
            _ => None,
        }
    }
}

/// The value of source expression `e` at run time, with the names of
/// `scopes` and the memory `mem`: a constant's value, a variable's content,
/// and operators applied to both operands' values (those of `&&` and `||`
/// too: an expression has a value only when all its parts have one).  An
/// expression that reads a variable holding nothing, or whose computation
/// leaves the range of `i32` or divides by zero, has no value.
pub open spec fn exp_result(e: Expr, scopes: Seq<Map<Seq<char>, ScopeEntry>>, mem: Map<Value, i32>) -> Option<i32>
    decreases e,
{
    match e {
        Expr::Num(n) => Some(n),
        Expr::Name(name) => match lookup(scopes, name) {
            Some(ScopeEntry::Const(c)) => Some(c),
            Some(ScopeEntry::Var(a)) => if mem.contains_key(a) { Some(mem[a]) } else { None },
            None => None,
        },
        Expr::Unary(op, x) => match exp_result(*x, scopes, mem) {
            Some(v) => ok_value(fold_unary(op, v)),
            None => None,
        },
        Expr::Binary(op, l, r) => match (exp_result(*l, scopes, mem), exp_result(*r, scopes, mem)) {
            (Some(a), Some(b)) => ok_value(fold_binary(op, a, b)),
            _ => None,
        },
    }
}

/// Every value known at compile time is what the memory holds.
pub open spec fn cache_agrees(cache: Map<Value, i32>, mem: Map<Value, i32>) -> bool {
    forall|a: Value| #[trigger] cache.contains_key(a) ==> mem.contains_key(a) && mem[a] == cache[a]
}

/// A run-time value that is `0` or `1`, or none.
pub open spec fn boolean(o: Option<i32>) -> bool {
    o matches Some(v) ==> v == 0 || v == 1
}

/// What folding computes is what the expression computes at run time, when
/// the known values are those of the memory.
pub(crate) proof fn lemma_fold_is_run_time_value(
    e: Expr,
    scopes: Seq<Map<Seq<char>, ScopeEntry>>,
    cache: Map<Value, i32>,
    mem: Map<Value, i32>,
)
    requires
        cache_agrees(cache, mem),
    ensures
        eval(e, scopes, cache) matches Ok(Some(n)) ==> exp_result(e, scopes, mem) == Some(n),
    decreases e,
{
    match e {
        Expr::Num(_) => {},
        Expr::Name(name) => {
            if let Some(ScopeEntry::Var(a)) = lookup(scopes, name) {
                if cache.contains_key(a) {
                    assert(mem.contains_key(a) && mem[a] == cache[a]);
                }
            }
        },
        Expr::Unary(_, x) => {
            lemma_fold_is_run_time_value(*x, scopes, cache, mem);
        },
        Expr::Binary(_, l, r) => {
            lemma_fold_is_run_time_value(*l, scopes, cache, mem);
            lemma_fold_is_run_time_value(*r, scopes, cache, mem);
        },
    }
}

proof fn lemma_prefix_trans(a: Seq<ValueKind>, b: Seq<ValueKind>, c: Seq<ValueKind>)
    requires
        a.is_prefix_of(b),
        b.is_prefix_of(c),
    ensures
        a.is_prefix_of(c),
{
    assert forall|i: int| 0 <= i < a.len() implies a[i] == c[i] by {
        assert(a[i] == b.subrange(0, a.len() as int)[i]);
        assert(b[i] == c.subrange(0, b.len() as int)[i]);
    }
    assert(a =~= c.subrange(0, a.len() as int));
}

/// The value of an IR value depends only on the values made before it.
pub(crate) proof fn lemma_ir_value_prefix(vals: Seq<ValueKind>, more: Seq<ValueKind>, v: Value, mem: Map<Value, i32>)
    requires
        vals.is_prefix_of(more),
        v < vals.len(),
    ensures
        ir_value(more, v, mem) == ir_value(vals, v, mem),
    decreases v,
{
    assert(more[v as int] == vals[v as int]);
    if let ValueKind::Binary(_, l, r) = vals[v as int] {
        if l < v && r < v {
            lemma_ir_value_prefix(vals, more, l, mem);
            lemma_ir_value_prefix(vals, more, r, mem);
        }
    }
}

/// `&&` and `||` on `0` and `1` agree with `and` and `or` bit by bit.
proof fn lemma_logic_bits(a: i32, b: i32)
    requires
        a == 0 || a == 1,
        b == 0 || b == 1,
    ensures
        (a & b) == truth(a != 0 && b != 0),
        (a | b) == truth(a != 0 || b != 0),
{
    assert((a == 0 || a == 1) && (b == 0 || b == 1) ==> (a & b) == (if a != 0 && b != 0 { 1i32 } else { 0i32 })) by (bit_vector);
    assert((a == 0 || a == 1) && (b == 0 || b == 1) ==> (a | b) == (if a != 0 || b != 0 { 1i32 } else { 0i32 })) by (bit_vector);
}

/// An IR binary operation computes what its source operator computes, for
/// `&&` and `||` on operands that are `0` or `1`.
pub(crate) proof fn lemma_ir_op_computes(op: ExpOp, a: i32, b: i32)
    requires
        (op == ExpOp::And || op == ExpOp::Or) ==> (a == 0 || a == 1) && (b == 0 || b == 1),
    ensures
        ir_binary(ir_op(op), a, b) == ok_value(fold_binary(op, a, b)),
{
    if op == ExpOp::And || op == ExpOp::Or {
        lemma_logic_bits(a, b);
    }
}

/// The code of a unary operator applied to a value computes the operator.
proof fn lemma_unary_code(op: UnaryOp, em1: Emit, val: Value, m: i32, mem: Map<Value, i32>)
    requires
        val < em1.values.len(),
        op != UnaryOp::Pos ==> em1.values.len() + 2 <= usize::MAX,
        ir_value(em1.values, val, mem) == Some(m),
    ensures
        em1.values.is_prefix_of(unary_step(op, em1, val).0.values),
        unary_step(op, em1, val).1 < unary_step(op, em1, val).0.values.len(),
        ir_value(unary_step(op, em1, val).0.values, unary_step(op, em1, val).1, mem) == ok_value(fold_unary(op, m)),
{
    let n = em1.values.len();
    if op == UnaryOp::Pos {
        assert(em1.values =~= em1.values.subrange(0, n as int));
    } else {
        let zero = n as Value;
        let k = if op == UnaryOp::Neg {
            ValueKind::Binary(BinaryOp::Sub, zero, val)
        } else {
            ValueKind::Binary(BinaryOp::Eq, val, zero)
        };
        let vs = em1.values.push(ValueKind::Integer(0)).push(k);
        assert(unary_step(op, em1, val).0.values == vs);
        assert(unary_step(op, em1, val).1 == zero + 1);
        assert(em1.values =~= vs.subrange(0, n as int));
        lemma_ir_value_prefix(em1.values, vs, val, mem);
        assert(vs[zero as int] == ValueKind::Integer(0));
        assert(ir_value(vs, zero, mem) == Some(0i32));
        assert(vs[zero + 1] == k);
    }
}

/// The code of a binary operator extends the values made before it.
pub(crate) proof fn lemma_binary_step_extends(op: ExpOp, em2: Emit, lv: Value, rv: Value)
    ensures
        em2.values.is_prefix_of(binary_step(op, em2, lv, rv).0.values),
{
    let n = em2.values.len();
    let vs = binary_step(op, em2, lv, rv).0.values;
    assert(em2.values =~= vs.subrange(0, n as int));
}

/// The code of a binary operator applied to two values computes the
/// operator.
proof fn lemma_binary_code(op: ExpOp, em2: Emit, lv: Value, rv: Value, a: i32, b: i32, mem: Map<Value, i32>)
    requires
        lv < em2.values.len(),
        rv < em2.values.len(),
        binary_step(op, em2, lv, rv).0.values.len() <= usize::MAX,
        ir_value(em2.values, lv, mem) == Some(a),
        ir_value(em2.values, rv, mem) == Some(b),
    ensures
        em2.values.is_prefix_of(binary_step(op, em2, lv, rv).0.values),
        binary_step(op, em2, lv, rv).1 < binary_step(op, em2, lv, rv).0.values.len(),
        ir_value(binary_step(op, em2, lv, rv).0.values, binary_step(op, em2, lv, rv).1, mem)
            == ok_value(fold_binary(op, a, b)),
{
    let n = em2.values.len();
    let vs = binary_step(op, em2, lv, rv).0.values;
    if op == ExpOp::And || op == ExpOp::Or {
        let zero = n as Value;
        let ln = (n + 1) as Value;
        let rn = (n + 2) as Value;
        assert(vs == em2.values.push(ValueKind::Integer(0)).push(ValueKind::Binary(BinaryOp::NotEq, lv, zero)).push(
            ValueKind::Binary(BinaryOp::NotEq, rv, zero),
        ).push(ValueKind::Binary(ir_op(op), ln, rn)));
        assert(binary_step(op, em2, lv, rv).1 == n + 3);
        assert(em2.values =~= vs.subrange(0, n as int));
        lemma_ir_value_prefix(em2.values, vs, lv, mem);
        lemma_ir_value_prefix(em2.values, vs, rv, mem);
        assert(vs[zero as int] == ValueKind::Integer(0));
        assert(ir_value(vs, zero, mem) == Some(0i32));
        assert(vs[ln as int] == ValueKind::Binary(BinaryOp::NotEq, lv, zero));
        assert(ir_value(vs, ln, mem) == Some(truth(a != 0)));
        assert(vs[rn as int] == ValueKind::Binary(BinaryOp::NotEq, rv, zero));
        assert(ir_value(vs, rn, mem) == Some(truth(b != 0)));
        assert(vs[n + 3int] == ValueKind::Binary(ir_op(op), ln, rn));
        lemma_logic_bits(truth(a != 0), truth(b != 0));
    } else {
        let k = ValueKind::Binary(ir_op(op), lv, rv);
        assert(vs == em2.values.push(k));
        assert(em2.values =~= vs.subrange(0, n as int));
        lemma_ir_value_prefix(em2.values, vs, lv, mem);
        lemma_ir_value_prefix(em2.values, vs, rv, mem);
        assert(vs[n as int] == k);
        lemma_ir_op_computes(op, a, b);
    }
}

/// The code generated for an expression computes the expression: when the
/// known values are what the memory holds, and the expression has a value
/// at run time, the value that holds its result has that value (for code
/// whose handles fit in a `usize`, as those of a function do).
pub proof fn law_expression_code_computes_its_value(
    e: Expr,
    em: Emit,
    scopes: Seq<Map<Seq<char>, ScopeEntry>>,
    cache: Map<Value, i32>,
    mem: Map<Value, i32>,
)
    requires
        cache_agrees(cache, mem),
    ensures
        conv(e, em, scopes, cache) matches Ok((em2, v)) ==> {
            &&& em.values.is_prefix_of(em2.values)
            &&& v < em2.values.len()
            &&& em2.values.len() <= usize::MAX ==> (exp_result(e, scopes, mem) matches Some(n)
                ==> ir_value(em2.values, v, mem) == Some(n))
        },
    decreases e,
{
    lemma_fold_is_run_time_value(e, scopes, cache, mem);
    let n0 = em.values.len();
    match eval(e, scopes, cache) {
        Err(_) => {},
        Ok(Some(n)) => {
            let vs = em.values.push(ValueKind::Integer(n));
            assert(em.values =~= vs.subrange(0, n0 as int));
            assert(vs[n0 as int] == ValueKind::Integer(n));
        },
        Ok(None) => match e {
            Expr::Num(n) => {},
            Expr::Name(name) => match lookup(scopes, name) {
                Some(ScopeEntry::Var(a)) => {
                    let vs = em.values.push(ValueKind::Load(a));
                    assert(em.values =~= vs.subrange(0, n0 as int));
                    assert(vs[n0 as int] == ValueKind::Load(a));
                },
                Some(ScopeEntry::Const(c)) => {},
                None => {},
            },
            Expr::Unary(op, x) => {
                law_expression_code_computes_its_value(*x, em, scopes, cache, mem);
                if let Ok((em1, val)) = conv(*x, em, scopes, cache) {
                    assert(conv(e, em, scopes, cache) == Ok::<(Emit, Value), Fault>(unary_step(op, em1, val)));
                    let len3 = unary_step(op, em1, val).0.values.len();
                    if exp_result(*x, scopes, mem) is Some && len3 <= usize::MAX {
                        let m = exp_result(*x, scopes, mem)->0;
                        assert(len3 == em1.values.len() || len3 == em1.values.len() + 2);
                        lemma_unary_code(op, em1, val, m, mem);
                        lemma_prefix_trans(em.values, em1.values, unary_step(op, em1, val).0.values);
                    } else {
                        let vs = unary_step(op, em1, val).0.values;
                        if op == UnaryOp::Pos {
                            assert(em1.values =~= em1.values.subrange(0, em1.values.len() as int));
                        } else {
                            assert(em1.values =~= vs.subrange(0, em1.values.len() as int));
                        }
                        lemma_prefix_trans(em.values, em1.values, vs);
                    }
                }
            },
            Expr::Binary(op, l, r) => {
                law_expression_code_computes_its_value(*l, em, scopes, cache, mem);
                if let Ok((em1, lv)) = conv(*l, em, scopes, cache) {
                    law_expression_code_computes_its_value(*r, em1, scopes, cache, mem);
                    if let Ok((em2, rv)) = conv(*r, em1, scopes, cache) {
                        let em3 = binary_step(op, em2, lv, rv).0;
                        assert(conv(e, em, scopes, cache) == Ok::<(Emit, Value), Fault>(binary_step(op, em2, lv, rv)));
                        lemma_binary_step_extends(op, em2, lv, rv);
                        lemma_prefix_trans(em1.values, em2.values, em3.values);
                        lemma_prefix_trans(em.values, em1.values, em3.values);
                        if let (Some(a), Some(b)) = (exp_result(*l, scopes, mem), exp_result(*r, scopes, mem)) {
                            if em3.values.len() <= usize::MAX {
                                lemma_ir_value_prefix(em1.values, em2.values, lv, mem);
                                lemma_binary_code(op, em2, lv, rv, a, b, mem);
                            }
                        }
                    }
                }
            },
        },
    }
}

/// A return statement's code ends with a `ret` of a value that holds the
/// value of its expression, and changes no known value.
pub proof fn law_return_code_returns_its_value(exp: Exp, g: Gen, mem: Map<Value, i32>, n: i32)
    requires
        cache_agrees(g.cache, mem),
        exp_result(exp.to_expr(), g.scopes, mem) == Some(n),
    ensures
        conv_stmt(&Stmt::Return(exp), g) matches Ok(g2) ==> {
            &&& g2.scopes == g.scopes
            &&& g2.cache == g.cache
            &&& g2.em.values.len() <= usize::MAX ==> {
                &&& g2.em.insts.last() == g2.em.values.len() - 1
                &&& g2.em.values.last() matches ValueKind::Return(Some(v)) && ir_value(g2.em.values, v, mem) == Some(n)
            }
        },
{
    reveal(exp_code);
    law_expression_code_computes_its_value(exp.to_expr(), g.em, g.scopes, g.cache, mem);
    if let Ok((em1, v)) = exp_code(&exp, g) {
        let em2 = add_inst(em1, ValueKind::Return(Some(v))).0;
        if em2.values.len() <= usize::MAX {
            assert(em1.values =~= em2.values.subrange(0, em1.values.len() as int));
            lemma_ir_value_prefix(em1.values, em2.values, v, mem);
        }
    }
}

/// An assignment's code ends with a store, into the variable's allocation,
/// of a value that holds the value of the expression.  The value it records
/// as the variable's known value is the value stored (none, when the
/// expression does not fold), and the other known values stay what memory
/// holds: after the store, every known value is what memory holds.
pub proof fn law_assignment_stores_its_value(lval: LVal, exp: Exp, g: Gen, mem: Map<Value, i32>, a: Value, n: i32)
    requires
        cache_agrees(g.cache, mem),
        lookup(g.scopes, lval.ident@) == Some(ScopeEntry::Var(a)),
        exp_result(exp.to_expr(), g.scopes, mem) == Some(n),
    ensures
        conv_stmt(&Stmt::Assign(lval, exp), g) matches Ok(g2) ==> {
            &&& g2.scopes == g.scopes
            &&& g2.em.values.len() <= usize::MAX ==> {
                &&& g2.em.insts.last() == g2.em.values.len() - 1
                &&& g2.em.values.last() matches ValueKind::Store(v, dest) && dest == a
                    && ir_value(g2.em.values, v, mem) == Some(n)
            }
            &&& g2.cache == (match exp_value(&exp, g.scopes, g.cache) {
                Ok(Some(m)) => g.cache.insert(a, m),
                _ => g.cache.remove(a),
            })
            &&& cache_agrees(g2.cache, mem.insert(a, n))
        },
{
    let s = Stmt::Assign(lval, exp);
    law_expression_code_computes_its_value(exp.to_expr(), g.em, g.scopes, g.cache, mem);
    lemma_fold_is_run_time_value(exp.to_expr(), g.scopes, g.cache, mem);
    assert(exp_code(&exp, g) == conv(exp.to_expr(), g.em, g.scopes, g.cache)) by {
        reveal(exp_code);
    }
    assert(exp_value(&exp, g.scopes, g.cache) == eval(exp.to_expr(), g.scopes, g.cache)) by {
        reveal(exp_value);
    }
    if let Ok((em1, v)) = exp_code(&exp, g) {
        let em2 = add_inst(em1, ValueKind::Store(v, a)).0;
        if em2.values.len() <= usize::MAX {
            assert(em1.values =~= em2.values.subrange(0, em1.values.len() as int));
            lemma_ir_value_prefix(em1.values, em2.values, v, mem);
        }
        if let Ok(n2) = exp_value(&exp, g.scopes, g.cache) {
            let cache2 = match n2 {
                Some(m) => g.cache.insert(a, m),
                None => g.cache.remove(a),
            };
            assert(conv_stmt(&s, g) == Ok::<Gen, Fault>(Gen { em: em2, scopes: g.scopes, cache: cache2 }));
            let mem2 = mem.insert(a, n);
            assert forall|k: Value| #[trigger] cache2.contains_key(k) implies mem2.contains_key(k) && mem2[k] == cache2[k] by {
                if k != a {
                    assert(g.cache.contains_key(k));
                }
            }
        }
    }
}

} // verus!
