//! Running code: the execution of the instructions of a block of IR, the
//! execution of a source block, and the law that the code generated for a
//! block does what the block does.
use vstd::prelude::*;

use crate::ast::{eval, fold_binary, fold_unary, Block, BlockItem, ConstDef, Decl, Exp, ExpOp, Expr, FuncDef, Stmt, UnaryOp, VarDef};
use crate::error::Fault;
use crate::ir::{BinaryOp, FunctionData, Value, ValueKind};
use crate::irgen::{
    add_inst, binary_step, const_init_exp, conv, conv_block, conv_item, conv_items, conv_stmt, conv_var_defs, exp_code, exp_value, ir_op,
    unary_step, var_def_name, emit_of, empty_emit, func_gen, is_function_of, Emit, Gen,
};
use crate::semantics::{cache_agrees, exp_result, ir_binary, ok_value};
use crate::symtable::{bind, bound_in_innermost, lookup, ScopeEntry};

verus! {

/// The state of a running function: the content of each allocation, and the
/// value computed by each instruction that has run.
#[verifier::ext_equal]
pub struct Machine {
    pub mem: Map<Value, i32>,
    pub env: Map<Value, i32>,
}

/// Where the run of some instructions ends.
pub enum Outcome {
    /// All of them ran.
    Running(Machine),
    /// One of them returned, with this result.
    Returned(Option<i32>),
    /// One of them could not run: it read memory that holds nothing, or an
    /// operation had no value.
    Stuck,
}

/// The value of operand `x`: an integer constant, or what instruction `x`
/// computed.
pub open spec fn operand(vals: Seq<ValueKind>, env: Map<Value, i32>, x: Value) -> Option<i32> {
    if x < vals.len() && vals[x as int] is Integer {
        match vals[x as int] {
            ValueKind::Integer(n) => Some(n),
            _ => None,
        }
    } else if env.contains_key(x) {
        Some(env[x])
    } else {
        None
    }
}

/// Runs instruction `v` of the data-flow graph `vals`.
pub open spec fn exec_inst(vals: Seq<ValueKind>, v: Value, m: Machine) -> Outcome {
    if v >= vals.len() {
        Outcome::Stuck
    } else {
        match vals[v as int] {
            ValueKind::Integer(n) => Outcome::Running(Machine { mem: m.mem, env: m.env.insert(v, n) }),
            ValueKind::Alloc => Outcome::Running(m),
            ValueKind::Load(a) => if m.mem.contains_key(a) {
                Outcome::Running(Machine { mem: m.mem, env: m.env.insert(v, m.mem[a]) })
            } else {
                Outcome::Stuck
            },
            ValueKind::Store(x, a) => match operand(vals, m.env, x) {
                Some(n) => Outcome::Running(Machine { mem: m.mem.insert(a, n), env: m.env }),
                None => Outcome::Stuck,
            },
            ValueKind::Binary(op, l, r) => match (operand(vals, m.env, l), operand(vals, m.env, r)) {
                (Some(a), Some(b)) => match ir_binary(op, a, b) {
                    Some(n) => Outcome::Running(Machine { mem: m.mem, env: m.env.insert(v, n) }),
                    None => Outcome::Stuck,
                },
                _ => Outcome::Stuck,
            },
            ValueKind::Return(r) => match r {
                None => Outcome::Returned(None),
                Some(x) => match operand(vals, m.env, x) {
                    Some(n) => Outcome::Returned(Some(n)),
                    None => Outcome::Stuck,
                },
            },
        }
    }
}

/// Runs the instructions `insts` in order, until one returns or cannot run.
pub open spec fn exec_insts(vals: Seq<ValueKind>, insts: Seq<Value>, m: Machine) -> Outcome
    decreases insts.len(),
{
    if insts.len() == 0 {
        Outcome::Running(m)
    } else {
        match exec_inst(vals, insts[0], m) {
            Outcome::Running(m1) => exec_insts(vals, insts.drop_first(), m1),
            other => other,
        }
    }
}

/// Runs `insts` after an outcome: only if the earlier ones all ran.
pub open spec fn exec_after(vals: Seq<ValueKind>, o: Outcome, insts: Seq<Value>) -> Outcome {
    match o {
        Outcome::Running(m) => exec_insts(vals, insts, m),
        other => other,
    }
}

proof fn lemma_exec_concat(vals: Seq<ValueKind>, a: Seq<Value>, b: Seq<Value>, m: Machine)
    ensures
        exec_insts(vals, a + b, m) == exec_after(vals, exec_insts(vals, a, m), b),
    decreases a.len(),
{
    if a.len() == 0 {
        assert(a + b =~= b);
    } else {
        assert((a + b)[0] == a[0]);
        assert((a + b).drop_first() =~= a.drop_first() + b);
        if let Outcome::Running(m1) = exec_inst(vals, a[0], m) {
            lemma_exec_concat(vals, a.drop_first(), b, m1);
        }
    }
}

/// `e2` keeps every computed value of `e1` below handle `bound`.
pub open spec fn env_kept_below(e1: Map<Value, i32>, e2: Map<Value, i32>, bound: nat) -> bool {
    forall|k: Value| k < bound && #[trigger] e1.contains_key(k) ==> e2.contains_key(k) && e2[k] == e1[k]
}

/// The instructions added from `em` to `em2`.
pub open spec fn new_insts(em: Emit, em2: Emit) -> Seq<Value> {
    em2.insts.skip(em.insts.len() as int)
}

proof fn lemma_prefix_trans<A>(a: Seq<A>, b: Seq<A>, c: Seq<A>)
    requires
        a.is_prefix_of(b),
        b.is_prefix_of(c),
    ensures
        a.is_prefix_of(c),
{
    assert forall|i: int| 0 <= i < a.len() implies a[i] == c[i] by {
        assert(a[i] == b.subrange(0, a.len() as int)[i]);
        assert(b[i] == c.subrange(0, b.len() as int)[i]);
    }
    assert(a =~= c.subrange(0, a.len() as int));
}

proof fn lemma_new_insts_split(em: Emit, em1: Emit, em2: Emit)
    requires
        em.insts.is_prefix_of(em1.insts),
        em1.insts.is_prefix_of(em2.insts),
    ensures
        new_insts(em, em2) == new_insts(em, em1) + new_insts(em1, em2),
{
    assert(em1.insts == em2.insts.subrange(0, em1.insts.len() as int));
    assert(new_insts(em, em2) =~= new_insts(em, em1) + new_insts(em1, em2));
}

proof fn lemma_exec_one(vals: Seq<ValueKind>, v: Value, m: Machine)
    ensures
        exec_insts(vals, seq![v], m) == exec_after(vals, exec_inst(vals, v, m), Seq::<Value>::empty()),
{
    assert(seq![v].drop_first() =~= Seq::<Value>::empty());
}

/// The code of a unary operator applied to a value that holds `x` runs and
/// computes the operator's value.
proof fn lemma_unary_runs(op: UnaryOp, em1: Emit, val: Value, vals: Seq<ValueKind>, m1: Machine, x: i32)
    requires
        val < em1.values.len(),
        unary_step(op, em1, val).0.values.is_prefix_of(vals),
        vals.len() <= usize::MAX,
        operand(vals, m1.env, val) == Some(x),
        fold_unary(op, x) is Ok,
    ensures
        em1.values.is_prefix_of(unary_step(op, em1, val).0.values),
        em1.insts.is_prefix_of(unary_step(op, em1, val).0.insts),
        unary_step(op, em1, val).1 < unary_step(op, em1, val).0.values.len(),
        val == unary_step(op, em1, val).1 || em1.values.len() <= unary_step(op, em1, val).1,
        exec_insts(vals, new_insts(em1, unary_step(op, em1, val).0), m1) matches Outcome::Running(m2) && {
            &&& m2.mem == m1.mem
            &&& env_kept_below(m1.env, m2.env, em1.values.len())
            &&& operand(vals, m2.env, unary_step(op, em1, val).1) == ok_value(fold_unary(op, x))
        },
{
    let (em2, v) = unary_step(op, em1, val);
    if op == UnaryOp::Pos {
        assert(em1.values =~= em1.values.subrange(0, em1.values.len() as int));
        assert(em1.insts =~= em1.insts.subrange(0, em1.insts.len() as int));
        assert(new_insts(em1, em2) =~= Seq::<Value>::empty());
    } else {
        let zero = em1.values.len() as Value;
        let k = if op == UnaryOp::Neg {
            ValueKind::Binary(BinaryOp::Sub, zero, val)
        } else {
            ValueKind::Binary(BinaryOp::Eq, val, zero)
        };
        assert(em2.values == em1.values.push(ValueKind::Integer(0)).push(k));
        assert(em2.insts == em1.insts.push(v));
        assert(em1.values =~= em2.values.subrange(0, em1.values.len() as int));
        assert(em1.insts =~= em2.insts.subrange(0, em1.insts.len() as int));
        assert(new_insts(em1, em2) =~= seq![v]);
        lemma_exec_one(vals, v, m1);
        assert(vals[v as int] == em2.values[v as int]);
        assert(vals[zero as int] == em2.values[zero as int]);
        assert(vals[val as int] == em2.values[val as int]);
    }
}

/// The code of a binary operator applied to values that hold `a` and `b`
/// runs and computes the operator's value.
#[verifier::rlimit(30)]
proof fn lemma_binary_runs(op: ExpOp, em2: Emit, lv: Value, rv: Value, vals: Seq<ValueKind>, m2: Machine, a: i32, b: i32)
    requires
        lv < em2.values.len(),
        rv < em2.values.len(),
        binary_step(op, em2, lv, rv).0.values.is_prefix_of(vals),
        vals.len() <= usize::MAX,
        operand(vals, m2.env, lv) == Some(a),
        operand(vals, m2.env, rv) == Some(b),
        fold_binary(op, a, b) is Ok,
    ensures
        em2.values.is_prefix_of(binary_step(op, em2, lv, rv).0.values),
        em2.insts.is_prefix_of(binary_step(op, em2, lv, rv).0.insts),
        exec_insts(vals, new_insts(em2, binary_step(op, em2, lv, rv).0), m2) matches Outcome::Running(m3) && {
            &&& m3.mem == m2.mem
            &&& env_kept_below(m2.env, m3.env, em2.values.len())
            &&& operand(vals, m3.env, binary_step(op, em2, lv, rv).1) == ok_value(fold_binary(op, a, b))
        },
{
    let (em3, v) = binary_step(op, em2, lv, rv);
    let n = em2.values.len();
    if op == ExpOp::And || op == ExpOp::Or {
        let zero = n as Value;
        let ln = (n + 1) as Value;
        let rn = (n + 2) as Value;
        let kl = ValueKind::Binary(BinaryOp::NotEq, lv, zero);
        let kr = ValueKind::Binary(BinaryOp::NotEq, rv, zero);
        let kv = ValueKind::Binary(ir_op(op), ln, rn);
        assert(em3.values == em2.values.push(ValueKind::Integer(0)).push(kl).push(kr).push(kv));
        assert(em3.insts == em2.insts.push(ln).push(rn).push(v));
        assert(v == n + 3);
        assert(em2.values =~= em3.values.subrange(0, n as int));
        assert(em2.insts =~= em3.insts.subrange(0, em2.insts.len() as int));
        assert(new_insts(em2, em3) =~= seq![ln, rn, v]);
        assert(vals[zero as int] == em3.values[zero as int]);
        assert(vals[ln as int] == em3.values[ln as int]);
        assert(vals[rn as int] == em3.values[rn as int]);
        assert(vals[v as int] == em3.values[v as int]);
        assert(operand(vals, m2.env, zero) == Some(0i32));
        let ta = crate::ast::truth(a != 0);
        let tb = crate::ast::truth(b != 0);
        let ma = Machine { mem: m2.mem, env: m2.env.insert(ln, ta) };
        assert(exec_inst(vals, ln, m2) == Outcome::Running(ma));
        assert(operand(vals, ma.env, rv) == Some(b));
        assert(operand(vals, ma.env, zero) == Some(0i32));
        let mb = Machine { mem: m2.mem, env: ma.env.insert(rn, tb) };
        assert(exec_inst(vals, rn, ma) == Outcome::Running(mb));
        assert(operand(vals, mb.env, ln) == Some(ta));
        assert(operand(vals, mb.env, rn) == Some(tb));
        crate::semantics::lemma_ir_op_computes(op, ta, tb);
        let r = ok_value(fold_binary(op, a, b))->Some_0;
        assert(ir_binary(ir_op(op), ta, tb) == Some(r));
        let mc = Machine { mem: m2.mem, env: mb.env.insert(v, r) };
        assert(exec_inst(vals, v, mb) == Outcome::Running(mc));
        lemma_exec_one(vals, v, mb);
        lemma_exec_two(vals, rn, v, ma);
        lemma_exec_one(vals, ln, m2);
        assert(seq![ln] + seq![rn, v] =~= seq![ln, rn, v]);
        lemma_exec_concat(vals, seq![ln], seq![rn, v], m2);
        assert(operand(vals, mc.env, v) == Some(r));
    } else {
        let k = ValueKind::Binary(ir_op(op), lv, rv);
        assert(em3.values == em2.values.push(k));
        assert(em3.insts == em2.insts.push(v));
        assert(em2.values =~= em3.values.subrange(0, em2.values.len() as int));
        assert(em2.insts =~= em3.insts.subrange(0, em2.insts.len() as int));
        assert(new_insts(em2, em3) =~= seq![v]);
        lemma_exec_one(vals, v, m2);
        assert(vals[v as int] == em3.values[v as int]);
        crate::semantics::lemma_ir_op_computes(op, a, b);
    }
}

/// The code of a binary operator only appends, and allocates nothing.
proof fn lemma_binary_step_grows(op: ExpOp, em2: Emit, lv: Value, rv: Value)
    ensures
        grows(em2, binary_step(op, em2, lv, rv).0),
        no_alloc_between(
            binary_step(op, em2, lv, rv).0.values,
            em2.values.len() as int,
            binary_step(op, em2, lv, rv).0.values.len() as int,
        ),
{
    let em3 = binary_step(op, em2, lv, rv).0;
    assert(em2.values =~= em3.values.subrange(0, em2.values.len() as int));
    assert(em2.insts =~= em3.insts.subrange(0, em2.insts.len() as int));
}

/// A value below `bound` keeps its operand value when the computed values
/// below `bound` are kept.
proof fn lemma_operand_kept(vals: Seq<ValueKind>, e1: Map<Value, i32>, e2: Map<Value, i32>, bound: nat, x: Value)
    requires
        env_kept_below(e1, e2, bound),
        x < bound,
        operand(vals, e1, x) is Some,
    ensures
        operand(vals, e2, x) == operand(vals, e1, x),
{
}

proof fn lemma_kept_trans(e1: Map<Value, i32>, e2: Map<Value, i32>, e3: Map<Value, i32>, b1: nat, b2: nat)
    requires
        env_kept_below(e1, e2, b1),
        env_kept_below(e2, e3, b2),
        b1 <= b2,
    ensures
        env_kept_below(e1, e3, b1),
{
}

/// Running the code generated for an expression, from a machine whose
/// memory holds the known values and in which the expression has a value,
/// leaves the memory as it was, keeps the values computed before, and
/// computes the expression's value into the value that holds its result.
/// (`vals` is the data-flow graph of the whole function, which extends the
/// one of the expression's code.)
pub proof fn lemma_expression_runs(
    e: Expr,
    em: Emit,
    scopes: Seq<Map<Seq<char>, ScopeEntry>>,
    cache: Map<Value, i32>,
    vals: Seq<ValueKind>,
    m: Machine,
)
    requires
        cache_agrees(cache, m.mem),
        exp_result(e, scopes, m.mem) is Some,
        vals.len() <= usize::MAX,
        conv(e, em, scopes, cache) matches Ok((em2, _)) && em2.values.is_prefix_of(vals),
    ensures
        conv(e, em, scopes, cache) matches Ok((em2, v)) && {
            &&& em.values.is_prefix_of(em2.values)
            &&& em.insts.is_prefix_of(em2.insts)
            &&& em.values.len() <= v < em2.values.len()
            &&& exec_insts(vals, new_insts(em, em2), m) matches Outcome::Running(m2) && {
                &&& m2.mem == m.mem
                &&& env_kept_below(m.env, m2.env, em.values.len())
                &&& operand(vals, m2.env, v) == exp_result(e, scopes, m.mem)
            }
        },
    decreases e,
{
    crate::semantics::lemma_fold_is_run_time_value(e, scopes, cache, m.mem);
    let n0 = em.values.len();
    let (em2, v) = conv(e, em, scopes, cache)->Ok_0;
    match eval(e, scopes, cache) {
        Err(_) => {},
        Ok(Some(n)) => {
            assert(em.values =~= em2.values.subrange(0, n0 as int));
            assert(em.insts =~= em2.insts.subrange(0, em.insts.len() as int));
            assert(new_insts(em, em2) =~= Seq::<Value>::empty());
            assert(vals[v as int] == em2.values[v as int]);
        },
        Ok(None) => match e {
            Expr::Num(n) => {},
            Expr::Name(name) => match lookup(scopes, name) {
                Some(ScopeEntry::Var(a)) => {
                    assert(em.values =~= em2.values.subrange(0, n0 as int));
                    assert(em.insts =~= em2.insts.subrange(0, em.insts.len() as int));
                    assert(new_insts(em, em2) =~= seq![v]);
                    assert(vals[v as int] == em2.values[v as int]);
                    lemma_exec_one(vals, v, m);
                },
                _ => {},
            },
            Expr::Unary(op, x) => {
                let (em1, val) = conv(*x, em, scopes, cache)->Ok_0;
                assert(conv(e, em, scopes, cache) == Ok::<(Emit, Value), Fault>(unary_step(op, em1, val)));
                let mx = exp_result(*x, scopes, m.mem)->Some_0;
                if op != UnaryOp::Pos {
                    assert(em1.values.is_prefix_of(em2.values)) by {
                        assert(em1.values =~= em2.values.subrange(0, em1.values.len() as int));
                    }
                    lemma_prefix_trans(em1.values, em2.values, vals);
                }
                lemma_expression_runs(*x, em, scopes, cache, vals, m);
                let m1 = exec_insts(vals, new_insts(em, em1), m)->Running_0;
                lemma_unary_runs(op, em1, val, vals, m1, mx);
                let m2 = exec_insts(vals, new_insts(em1, em2), m1)->Running_0;
                lemma_prefix_trans(em.values, em1.values, em2.values);
                lemma_prefix_trans(em.insts, em1.insts, em2.insts);
                lemma_new_insts_split(em, em1, em2);
                lemma_exec_concat(vals, new_insts(em, em1), new_insts(em1, em2), m);
                lemma_kept_trans(m.env, m1.env, m2.env, n0, em1.values.len());
            },
            Expr::Binary(op, l, r) => {
                let (em1, lv) = conv(*l, em, scopes, cache)->Ok_0;
                let (em1b, rv) = conv(*r, em1, scopes, cache)->Ok_0;
                assert(conv(e, em, scopes, cache) == Ok::<(Emit, Value), Fault>(binary_step(op, em1b, lv, rv)));
                lemma_binary_step_grows(op, em1b, lv, rv);
                lemma_prefix_trans(em1b.values, em2.values, vals);
                let a = exp_result(*l, scopes, m.mem)->Some_0;
                let b = exp_result(*r, scopes, m.mem)->Some_0;
                lemma_expression_runs(*r, em1, scopes, cache, vals, m);
                lemma_prefix_trans(em1.values, em1b.values, vals);
                lemma_expression_runs(*l, em, scopes, cache, vals, m);
                let m1 = exec_insts(vals, new_insts(em, em1), m)->Running_0;
                lemma_expression_runs(*r, em1, scopes, cache, vals, m1);
                let m2 = exec_insts(vals, new_insts(em1, em1b), m1)->Running_0;
                lemma_operand_kept(vals, m1.env, m2.env, em1.values.len(), lv);
                lemma_binary_runs(op, em1b, lv, rv, vals, m2, a, b);
                let m3 = exec_insts(vals, new_insts(em1b, em2), m2)->Running_0;
                lemma_prefix_trans(em.values, em1.values, em1b.values);
                lemma_prefix_trans(em.values, em1b.values, em2.values);
                lemma_prefix_trans(em.insts, em1.insts, em1b.insts);
                lemma_prefix_trans(em.insts, em1b.insts, em2.insts);
                lemma_new_insts_split(em, em1, em1b);
                lemma_new_insts_split(em, em1b, em2);
                lemma_exec_concat(vals, new_insts(em, em1), new_insts(em1, em1b), m);
                lemma_exec_concat(vals, new_insts(em, em1b), new_insts(em1b, em2), m);
                lemma_kept_trans(m.env, m1.env, m2.env, n0, em1.values.len());
                lemma_kept_trans(m.env, m2.env, m3.env, n0, em1b.values.len());
            },
        },
    }
}

/// The run-time value of expression `e`.
#[verifier::opaque]
pub open spec fn exp_run(e: &Exp, scopes: Seq<Map<Seq<char>, ScopeEntry>>, mem: Map<Value, i32>) -> Option<i32> {
    exp_result(e.to_expr(), scopes, mem)
}

// ---------------------------------------------------------------------------
// Running source code.
// ---------------------------------------------------------------------------

/// The state of a running source block: the names in scope, the content of
/// each variable's location, and the locations that the variables still to
/// be declared will get, in order.
#[verifier::ext_equal]
pub struct SrcState {
    pub scopes: Seq<Map<Seq<char>, ScopeEntry>>,
    pub mem: Map<Value, i32>,
    pub locs: Seq<Value>,
}

/// Where the run of source code ends.
pub enum SrcRun {
    /// It ran to its end.
    Going(SrcState),
    /// A `return` ran, with this value.
    Returned(i32),
    /// Something could not run: a name that is not declared or is declared
    /// twice in one scope, an assignment to a constant, an expression
    /// without value, or no location left for a variable.
    Stuck,
}

/// `st` with other names in scope.
pub open spec fn with_scopes(st: SrcState, scopes: Seq<Map<Seq<char>, ScopeEntry>>) -> SrcState {
    SrcState { scopes: scopes, mem: st.mem, locs: st.locs }
}

/// Constant definitions, in order: each name gets the value of its
/// initializer.
pub open spec fn run_const_defs(defs: Seq<ConstDef>, st: SrcState) -> SrcRun
    decreases defs.len(),
{
    if defs.len() == 0 {
        SrcRun::Going(st)
    } else {
        let d = defs[0];
        match exp_run(const_init_exp(&d.init_val), st.scopes, st.mem) {
            None => SrcRun::Stuck,
            Some(v) => if bound_in_innermost(st.scopes, d.ident@) {
                SrcRun::Stuck
            } else {
                run_const_defs(defs.drop_first(), with_scopes(st, bind(st.scopes, d.ident@, ScopeEntry::Const(v))))
            },
        }
    }
}

/// Variable definitions, in order: each variable gets the next location,
/// which holds the value of its initializer when it has one.
pub open spec fn run_var_defs(defs: Seq<VarDef>, st: SrcState) -> SrcRun
    decreases defs.len(),
{
    if defs.len() == 0 {
        SrcRun::Going(st)
    } else if st.locs.len() == 0 {
        SrcRun::Stuck
    } else {
        let d = defs[0];
        let name = var_def_name(d);
        let loc = st.locs[0];
        let scopes2 = bind(st.scopes, name, ScopeEntry::Var(loc));
        if bound_in_innermost(st.scopes, name) {
            SrcRun::Stuck
        } else {
            match d {
                VarDef::IDENT(_) => run_var_defs(
                    defs.drop_first(),
                    SrcState { scopes: scopes2, mem: st.mem, locs: st.locs.drop_first() },
                ),
                VarDef::IDENTInitVal(_, init) => match exp_run(&init.exp, st.scopes, st.mem) {
                    None => SrcRun::Stuck,
                    Some(v) => run_var_defs(
                        defs.drop_first(),
                        SrcState { scopes: scopes2, mem: st.mem.insert(loc, v), locs: st.locs.drop_first() },
                    ),
                },
            }
        }
    }
}

/// A statement.
pub open spec fn run_stmt(s: &Stmt, st: SrcState) -> SrcRun
    decreases s,
{
    match s {
        Stmt::Assign(lval, exp) => match lookup(st.scopes, lval.ident@) {
            Some(ScopeEntry::Var(a)) => match exp_run(exp, st.scopes, st.mem) {
                Some(n) => SrcRun::Going(SrcState { scopes: st.scopes, mem: st.mem.insert(a, n), locs: st.locs }),
                None => SrcRun::Stuck,
            },
            _ => SrcRun::Stuck,
        },
        Stmt::Return(exp) => match exp_run(exp, st.scopes, st.mem) {
            Some(n) => SrcRun::Returned(n),
            None => SrcRun::Stuck,
        },
        Stmt::ExprStmt(opt) => match opt {
            Some(exp) => match exp_run(exp, st.scopes, st.mem) {
                Some(_) => SrcRun::Going(st),
                None => SrcRun::Stuck,
            },
            None => SrcRun::Going(st),
        },
        Stmt::Block(b) => run_block(b, st),
    }
}

/// A block item.
pub open spec fn run_item(it: &BlockItem, st: SrcState) -> SrcRun
    decreases it,
{
    match it {
        BlockItem::Decl(d) => match d {
            Decl::ConstDecl(cd) => run_const_defs(cd.defs@, st),
            Decl::VarDecl(vd) => run_var_defs(vd.defs@, st),
        },
        BlockItem::Stmt(s) => run_stmt(s, st),
    }
}

/// Block items, in order, until one returns.
pub open spec fn run_items(items: Seq<BlockItem>, st: SrcState) -> SrcRun
    decreases items,
{
    if items.len() == 0 {
        SrcRun::Going(st)
    } else {
        match run_item(&items[0], st) {
            SrcRun::Going(st1) => run_items(items.drop_first(), st1),
            other => other,
        }
    }
}

/// A block: its items in a new innermost scope, which is closed afterwards.
pub open spec fn run_block(b: &Block, st: SrcState) -> SrcRun
    decreases b,
{
    match run_items(b.items@, with_scopes(st, st.scopes.push(Map::<Seq<char>, ScopeEntry>::empty()))) {
        SrcRun::Going(st2) => SrcRun::Going(
            with_scopes(st2, if st2.scopes.len() == 0 { st2.scopes } else { st2.scopes.drop_last() }),
        ),
        other => other,
    }
}

// ---------------------------------------------------------------------------
// Generation only appends, and only declarations allocate.
// ---------------------------------------------------------------------------

/// `b` is `a` followed by more values and instructions.
pub open spec fn grows(a: Emit, b: Emit) -> bool {
    &&& a.values.is_prefix_of(b.values)
    &&& a.insts.is_prefix_of(b.insts)
}

/// No value from `i` to `j` is an allocation.
pub open spec fn no_alloc_between(vals: Seq<ValueKind>, i: int, j: int) -> bool {
    forall|k: int| i <= k < j ==> !(#[trigger] vals[k] is Alloc)
}

proof fn lemma_grows_refl(a: Emit)
    ensures
        grows(a, a),
{
    assert(a.values =~= a.values.subrange(0, a.values.len() as int));
    assert(a.insts =~= a.insts.subrange(0, a.insts.len() as int));
}

proof fn lemma_grows_trans(a: Emit, b: Emit, c: Emit)
    requires
        grows(a, b),
        grows(b, c),
    ensures
        grows(a, c),
{
    lemma_prefix_trans(a.values, b.values, c.values);
    lemma_prefix_trans(a.insts, b.insts, c.insts);
}

proof fn lemma_grows_push(a: Emit, k: ValueKind)
    ensures
        grows(a, add_inst(a, k).0),
        grows(a, crate::irgen::add_value(a, k).0),
{
    let b = add_inst(a, k).0;
    let c = crate::irgen::add_value(a, k).0;
    assert(a.values =~= b.values.subrange(0, a.values.len() as int));
    assert(a.insts =~= b.insts.subrange(0, a.insts.len() as int));
    assert(a.values =~= c.values.subrange(0, a.values.len() as int));
    assert(a.insts =~= c.insts.subrange(0, a.insts.len() as int));
}

/// The code of an expression only appends, and allocates nothing.
pub(crate) proof fn lemma_exp_grows(e: Expr, em: Emit, scopes: Seq<Map<Seq<char>, ScopeEntry>>, cache: Map<Value, i32>)
    ensures
        conv(e, em, scopes, cache) matches Ok((em2, _)) ==> grows(em, em2)
            && no_alloc_between(em2.values, em.values.len() as int, em2.values.len() as int),
    decreases e,
{
    match eval(e, scopes, cache) {
        Err(_) => {},
        Ok(Some(n)) => {
            lemma_grows_push(em, ValueKind::Integer(n));
        },
        Ok(None) => match e {
            Expr::Num(n) => {},
            Expr::Name(name) => match lookup(scopes, name) {
                Some(ScopeEntry::Var(a)) => lemma_grows_push(em, ValueKind::Load(a)),
                Some(ScopeEntry::Const(c)) => lemma_grows_push(em, ValueKind::Integer(c)),
                None => {},
            },
            Expr::Unary(op, x) => {
                lemma_exp_grows(*x, em, scopes, cache);
                if let Ok((em1, val)) = conv(*x, em, scopes, cache) {
                    let em3 = unary_step(op, em1, val).0;
                    if op == UnaryOp::Pos {
                    } else {
                        let zero = em1.values.len() as Value;
                        let k = if op == UnaryOp::Neg {
                            ValueKind::Binary(BinaryOp::Sub, zero, val)
                        } else {
                            ValueKind::Binary(BinaryOp::Eq, val, zero)
                        };
                        let em2 = crate::irgen::add_value(em1, ValueKind::Integer(0)).0;
                        lemma_grows_push(em1, ValueKind::Integer(0));
                        lemma_grows_push(em2, k);
                        lemma_grows_trans(em1, em2, em3);
                    }
                    lemma_grows_trans(em, em1, em3);
                    assert forall|i: int| em.values.len() <= i < em3.values.len() implies !(#[trigger] em3.values[i] is Alloc) by {
                        if i < em1.values.len() {
                            assert(em3.values[i] == em1.values[i]) by {
                                assert(em1.values == em3.values.subrange(0, em1.values.len() as int));
                            }
                        }
                    }
                }
            },
            Expr::Binary(op, l, r) => {
                lemma_exp_grows(*l, em, scopes, cache);
                if let Ok((em1, lv)) = conv(*l, em, scopes, cache) {
                    lemma_exp_grows(*r, em1, scopes, cache);
                    if let Ok((em2, rv)) = conv(*r, em1, scopes, cache) {
                        let em3 = binary_step(op, em2, lv, rv).0;
                        lemma_binary_step_grows(op, em2, lv, rv);
                        lemma_grows_trans(em1, em2, em3);
                        lemma_grows_trans(em, em1, em3);
                        assert forall|i: int| em.values.len() <= i < em3.values.len() implies !(#[trigger] em3.values[i] is Alloc) by {
                            if i < em1.values.len() {
                                assert(em3.values[i] == em1.values[i]) by {
                                    assert(em1.values == em3.values.subrange(0, em1.values.len() as int));
                                }
                            } else if i < em2.values.len() {
                                assert(em3.values[i] == em2.values[i]) by {
                                    assert(em2.values == em3.values.subrange(0, em2.values.len() as int));
                                }
                            }
                        }
                    }
                }
            },
        },
    }
}

/// The handles of the allocations among `vals` from position `i` on, in
/// order.
pub open spec fn allocs_from(vals: Seq<ValueKind>, i: int) -> Seq<Value>
    decreases vals.len() - i,
{
    if i < 0 || i >= vals.len() {
        Seq::empty()
    } else if vals[i] is Alloc {
        seq![i as Value] + allocs_from(vals, i + 1)
    } else {
        allocs_from(vals, i + 1)
    }
}

proof fn lemma_allocs_skip(vals: Seq<ValueKind>, i: int, j: int)
    requires
        0 <= i <= j <= vals.len(),
        no_alloc_between(vals, i, j),
    ensures
        allocs_from(vals, i) == allocs_from(vals, j),
    decreases j - i,
{
    if i < j {
        assert(!(vals[i] is Alloc));
        lemma_allocs_skip(vals, i + 1, j);
    }
}

proof fn lemma_var_defs_grow(defs: Seq<VarDef>, g: Gen)
    ensures
        conv_var_defs(defs, g) matches Ok(g2) ==> grows(g.em, g2.em),
    decreases defs.len(),
{
    if defs.len() == 0 {
        lemma_grows_refl(g.em);
    } else {
        let d = defs[0];
        let name = var_def_name(d);
        let (em1, alloc) = add_inst(g.em, ValueKind::Alloc);
        lemma_grows_push(g.em, ValueKind::Alloc);
        match d {
            VarDef::IDENT(_) => {
                let g1 = Gen { em: em1, scopes: bind(g.scopes, name, ScopeEntry::Var(alloc)), cache: g.cache };
                lemma_var_defs_grow(defs.drop_first(), g1);
                if let Ok(g2) = conv_var_defs(defs.drop_first(), g1) {
                    lemma_grows_trans(g.em, em1, g2.em);
                }
            },
            VarDef::IDENTInitVal(_, init) => {
                if let Ok(Some(v)) = exp_value(&init.exp, g.scopes, g.cache) {
                    let (em2, value) = crate::irgen::add_value(em1, ValueKind::Integer(v));
                    let (em3, _) = add_inst(em2, ValueKind::Store(value, alloc));
                    lemma_grows_push(em1, ValueKind::Integer(v));
                    lemma_grows_push(em2, ValueKind::Store(value, alloc));
                    let g1 = Gen { em: em3, scopes: bind(g.scopes, name, ScopeEntry::Var(alloc)), cache: g.cache.insert(alloc, v) };
                    lemma_var_defs_grow(defs.drop_first(), g1);
                    if let Ok(g2) = conv_var_defs(defs.drop_first(), g1) {
                        lemma_grows_trans(g.em, em1, em2);
                        lemma_grows_trans(g.em, em2, em3);
                        lemma_grows_trans(g.em, em3, g2.em);
                    }
                }
            },
        }
    }
}

/// The code of an expression, in state `g`.
pub(crate) proof fn lemma_exp_code(e: &Exp, g: Gen)
    ensures
        exp_code(e, g) == conv(e.to_expr(), g.em, g.scopes, g.cache),
{
    reveal(exp_code);
}

#[verifier::rlimit(40)]
proof fn lemma_stmt_grows(s: &Stmt, g: Gen)
    ensures
        conv_stmt(s, g) matches Ok(g2) ==> grows(g.em, g2.em),
    decreases s, 0int,
{
    match s {
        Stmt::Assign(lval, exp) => {
            lemma_exp_code(exp, g);
            lemma_exp_grows(exp.to_expr(), g.em, g.scopes, g.cache);
            if let Ok((em1, v)) = exp_code(exp, g) {
                if let Some(ScopeEntry::Var(a)) = lookup(g.scopes, lval.ident@) {
                    let em2 = add_inst(em1, ValueKind::Store(v, a)).0;
                    lemma_grows_push(em1, ValueKind::Store(v, a));
                    lemma_grows_trans(g.em, em1, em2);
                    if let Ok(g2) = conv_stmt(s, g) {
                        assert(g2.em == em2);
                    }
                }
            }
        },
        Stmt::Return(exp) => {
            lemma_exp_code(exp, g);
            lemma_exp_grows(exp.to_expr(), g.em, g.scopes, g.cache);
            if let Ok((em1, v)) = exp_code(exp, g) {
                lemma_grows_push(em1, ValueKind::Return(Some(v)));
                lemma_grows_trans(g.em, em1, add_inst(em1, ValueKind::Return(Some(v))).0);
            }
        },
        Stmt::ExprStmt(opt) => match opt {
            Some(exp) => {
                lemma_exp_code(exp, g);
                lemma_exp_grows(exp.to_expr(), g.em, g.scopes, g.cache);
            },
            None => lemma_grows_refl(g.em),
        },
        Stmt::Block(b) => lemma_block_grows(b, g),
    }
}

proof fn lemma_item_grows(it: &BlockItem, g: Gen)
    ensures
        conv_item(it, g) matches Ok(g2) ==> grows(g.em, g2.em),
    decreases it, 0int,
{
    match it {
        BlockItem::Decl(d) => match d {
            Decl::ConstDecl(_) => lemma_grows_refl(g.em),
            Decl::VarDecl(vd) => lemma_var_defs_grow(vd.defs@, g),
        },
        BlockItem::Stmt(s) => lemma_stmt_grows(s, g),
    }
}

pub(crate) proof fn lemma_items_grow(items: Seq<BlockItem>, g: Gen)
    ensures
        conv_items(items, g) matches Ok(g2) ==> grows(g.em, g2.em),
    decreases items, 0int,
{
    if items.len() == 0 {
        lemma_grows_refl(g.em);
    } else {
        lemma_item_grows(&items[0], g);
        if let Ok(g1) = conv_item(&items[0], g) {
            lemma_items_grow(items.drop_first(), g1);
            if let Ok(g2) = conv_items(items.drop_first(), g1) {
                lemma_grows_trans(g.em, g1.em, g2.em);
            }
        }
    }
}

proof fn lemma_block_grows(b: &Block, g: Gen)
    ensures
        conv_block(b, g) matches Ok(g2) ==> grows(g.em, g2.em),
    decreases b, 1int,
{
    let g1 = Gen { em: g.em, scopes: g.scopes.push(Map::<Seq<char>, ScopeEntry>::empty()), cache: g.cache };
    lemma_items_grow(b.items@, g1);
}

// ---------------------------------------------------------------------------
// The generated code does what the source does.
// ---------------------------------------------------------------------------

/// The generator in state `g`, the source in state `st` and the machine `m`
/// running the function's data-flow graph `vals` agree: the same names, the
/// same memory, known values that the memory holds, and the allocations
/// still to come are the locations the source has left.
pub open spec fn sim(g: Gen, st: SrcState, m: Machine, vals: Seq<ValueKind>) -> bool {
    &&& st.scopes == g.scopes
    &&& st.mem == m.mem
    &&& cache_agrees(g.cache, m.mem)
    &&& g.em.values.is_prefix_of(vals)
    &&& vals.len() <= usize::MAX
    &&& st.locs == allocs_from(vals, g.em.values.len() as int)
}

/// Running the code generated from `g` to `g2` does what the source run `r`
/// did: it ends in an agreeing state when the source went on, and returns
/// the same value when the source returned.
pub open spec fn runs_as(g: Gen, g2: Gen, r: SrcRun, m: Machine, vals: Seq<ValueKind>) -> bool {
    match r {
        SrcRun::Going(st2) => exec_insts(vals, new_insts(g.em, g2.em), m) matches Outcome::Running(m2) && sim(
            g2,
            st2,
            m2,
            vals,
        ),
        SrcRun::Returned(n) => exec_insts(vals, new_insts(g.em, g2.em), m) == Outcome::Returned(Some(n)),
        SrcRun::Stuck => true,
    }
}

proof fn lemma_no_new_insts(em: Emit)
    ensures
        new_insts(em, em) == Seq::<Value>::empty(),
{
    assert(new_insts(em, em) =~= Seq::<Value>::empty());
}

proof fn lemma_exec_two(vals: Seq<ValueKind>, a: Value, b: Value, m: Machine)
    ensures
        exec_insts(vals, seq![a, b], m) == exec_after(vals, exec_inst(vals, a, m), seq![b]),
{
    assert(seq![a, b].drop_first() =~= seq![b]);
}

/// Folding gives what running gives, when the known values are what the
/// memory holds.
proof fn lemma_exp_fold(e: &Exp, scopes: Seq<Map<Seq<char>, ScopeEntry>>, cache: Map<Value, i32>, mem: Map<Value, i32>)
    requires
        cache_agrees(cache, mem),
    ensures
        exp_value(e, scopes, cache) matches Ok(Some(n)) ==> exp_run(e, scopes, mem) == Some(n),
{
    reveal(exp_value);
    reveal(exp_run);
    crate::semantics::lemma_fold_is_run_time_value(e.to_expr(), scopes, cache, mem);
}

proof fn lemma_const_defs_run(defs: Seq<ConstDef>, scopes: Seq<Map<Seq<char>, ScopeEntry>>, cache: Map<Value, i32>, st: SrcState)
    requires
        st.scopes == scopes,
        cache_agrees(cache, st.mem),
    ensures
        crate::irgen::conv_const_defs(defs, scopes, cache) matches Ok(scopes2) ==> run_const_defs(defs, st)
            === SrcRun::Going(with_scopes(st, scopes2)),
    decreases defs.len(),
{
    if defs.len() > 0 {
        let d = defs[0];
        let e = const_init_exp(&d.init_val);
        lemma_exp_fold(e, scopes, cache, st.mem);
        if let Ok(Some(v)) = exp_value(e, scopes, cache) {
            let scopes1 = bind(scopes, d.ident@, ScopeEntry::Const(v));
            lemma_const_defs_run(defs.drop_first(), scopes1, cache, with_scopes(st, scopes1));
        }
    }
}

#[verifier::rlimit(40)]
proof fn lemma_var_defs_run(defs: Seq<VarDef>, g: Gen, st: SrcState, m: Machine, vals: Seq<ValueKind>)
    requires
        sim(g, st, m, vals),
        conv_var_defs(defs, g) matches Ok(g2) && g2.em.values.is_prefix_of(vals),
    ensures
        conv_var_defs(defs, g) matches Ok(g2) && runs_as(g, g2, run_var_defs(defs, st), m, vals),
    decreases defs.len(),
{
    let g2 = conv_var_defs(defs, g)->Ok_0;
    if defs.len() == 0 {
        lemma_no_new_insts(g.em);
    } else {
        let d = defs[0];
        let name = var_def_name(d);
        let i: int = g.em.values.len() as int;
        let (em1, alloc) = add_inst(g.em, ValueKind::Alloc);
        lemma_grows_push(g.em, ValueKind::Alloc);
        assert(alloc == i);
        let scopes1 = bind(g.scopes, name, ScopeEntry::Var(alloc));
        match d {
            VarDef::IDENT(_) => {
                let g1 = Gen { em: em1, scopes: scopes1, cache: g.cache };
                lemma_var_defs_grow(defs.drop_first(), g1);
                lemma_prefix_trans(em1.values, g2.em.values, vals);
                assert(vals[i] == em1.values[i]);
                assert(st.locs == seq![alloc] + allocs_from(vals, i + 1));
                let st1 = SrcState { scopes: scopes1, mem: st.mem, locs: st.locs.drop_first() };
                assert(st1.locs =~= allocs_from(vals, i + 1));
                assert(run_var_defs(defs, st) === run_var_defs(defs.drop_first(), st1));
                lemma_var_defs_run(defs.drop_first(), g1, st1, m, vals);
                assert(new_insts(g.em, em1) =~= seq![alloc]);
                lemma_exec_one(vals, alloc, m);
                lemma_new_insts_split(g.em, em1, g2.em);
                lemma_exec_concat(vals, new_insts(g.em, em1), new_insts(em1, g2.em), m);
            },
            VarDef::IDENTInitVal(_, init) => {
                lemma_exp_fold(&init.exp, g.scopes, g.cache, m.mem);
                let v = exp_value(&init.exp, g.scopes, g.cache)->Ok_0->Some_0;
                let (em2, value) = crate::irgen::add_value(em1, ValueKind::Integer(v));
                let (em3, store) = add_inst(em2, ValueKind::Store(value, alloc));
                lemma_grows_push(em1, ValueKind::Integer(v));
                lemma_grows_push(em2, ValueKind::Store(value, alloc));
                lemma_grows_trans(em1, em2, em3);
                let g1 = Gen { em: em3, scopes: scopes1, cache: g.cache.insert(alloc, v) };
                lemma_var_defs_grow(defs.drop_first(), g1);
                lemma_prefix_trans(em3.values, g2.em.values, vals);
                assert(vals[i] == em3.values[i]);
                assert(vals[i + 1] == em3.values[i + 1]);
                assert(vals[i + 2] == em3.values[i + 2]);
                assert(st.locs == seq![alloc] + allocs_from(vals, i + 1));
                lemma_allocs_skip(vals, i + 1, i + 3);
                let st1 = SrcState { scopes: scopes1, mem: st.mem.insert(alloc, v), locs: st.locs.drop_first() };
                assert(st1.locs =~= allocs_from(vals, i + 3));
                assert(run_var_defs(defs, st) === run_var_defs(defs.drop_first(), st1));
                let m1 = Machine { mem: m.mem.insert(alloc, v), env: m.env };
                assert(cache_agrees(g1.cache, m1.mem));
                lemma_var_defs_run(defs.drop_first(), g1, st1, m1, vals);
                assert(new_insts(g.em, em3) =~= seq![alloc, store]);
                lemma_exec_two(vals, alloc, store, m);
                lemma_exec_one(vals, store, m);
                lemma_new_insts_split(g.em, em3, g2.em);
                lemma_exec_concat(vals, new_insts(g.em, em3), new_insts(em3, g2.em), m);
            },
        }
    }
}

/// Running the code of an expression: see `lemma_expression_runs`.
proof fn lemma_exp_code_runs(e: &Exp, g: Gen, vals: Seq<ValueKind>, m: Machine)
    requires
        cache_agrees(g.cache, m.mem),
        exp_run(e, g.scopes, m.mem) is Some,
        vals.len() <= usize::MAX,
        exp_code(e, g) matches Ok((em2, _)) && em2.values.is_prefix_of(vals),
    ensures
        exp_code(e, g) matches Ok((em2, v)) && {
            &&& grows(g.em, em2)
            &&& no_alloc_between(em2.values, g.em.values.len() as int, em2.values.len() as int)
            &&& exec_insts(vals, new_insts(g.em, em2), m) matches Outcome::Running(m2) && {
                &&& m2.mem == m.mem
                &&& operand(vals, m2.env, v) == exp_run(e, g.scopes, m.mem)
            }
        },
{
    reveal(exp_run);
    lemma_exp_code(e, g);
    lemma_expression_runs(e.to_expr(), g.em, g.scopes, g.cache, vals, m);
    lemma_exp_grows(e.to_expr(), g.em, g.scopes, g.cache);
}

/// No value from `i` to `j` of `vals` is an allocation, when `vals`
/// extends `vs` and none of those of `vs` is.
proof fn lemma_no_alloc_prefix(vs: Seq<ValueKind>, vals: Seq<ValueKind>, i: int, j: int)
    requires
        vs.is_prefix_of(vals),
        no_alloc_between(vs, i, j),
        0 <= i,
        j <= vs.len(),
    ensures
        no_alloc_between(vals, i, j),
{
    assert forall|k: int| i <= k < j implies !(#[trigger] vals[k] is Alloc) by {
        assert(vals[k] == vs[k]) by {
            assert(vs == vals.subrange(0, vs.len() as int));
        }
    }
}

#[verifier::rlimit(60)]
proof fn lemma_stmt_runs(s: &Stmt, g: Gen, st: SrcState, m: Machine, vals: Seq<ValueKind>)
    requires
        sim(g, st, m, vals),
        conv_stmt(s, g) matches Ok(g2) && g2.em.values.is_prefix_of(vals),
    ensures
        conv_stmt(s, g) matches Ok(g2) && runs_as(g, g2, run_stmt(s, st), m, vals),
    decreases s, 0int,
{
    let g2 = conv_stmt(s, g)->Ok_0;
    let i = g.em.values.len() as int;
    match s {
        Stmt::Assign(lval, exp) => {
            if let Some(n) = exp_run(exp, st.scopes, st.mem) {
                if let Some(ScopeEntry::Var(a)) = lookup(g.scopes, lval.ident@) {
                    let (em1, v) = exp_code(exp, g)->Ok_0;
                    let (em2, store) = add_inst(em1, ValueKind::Store(v, a));
                    lemma_grows_push(em1, ValueKind::Store(v, a));
                    assert(g2.em == em2);
                    lemma_prefix_trans(em1.values, em2.values, vals);
                    lemma_exp_code_runs(exp, g, vals, m);
                    lemma_exp_fold(exp, g.scopes, g.cache, m.mem);
                    let m1 = exec_insts(vals, new_insts(g.em, em1), m)->Running_0;
                    assert(new_insts(em1, em2) =~= seq![store]);
                    lemma_exec_one(vals, store, m1);
                    assert(vals[store as int] == em2.values[store as int]);
                    lemma_new_insts_split(g.em, em1, em2);
                    lemma_exec_concat(vals, new_insts(g.em, em1), new_insts(em1, em2), m);
                    let mem2 = m.mem.insert(a, n);
                    assert forall|k: Value| #[trigger] g2.cache.contains_key(k) implies mem2.contains_key(k) && mem2[k] == g2.cache[k] by {
                        if k != a {
                            assert(g.cache.contains_key(k));
                        }
                    }
                    assert(no_alloc_between(em2.values, i, em2.values.len() as int)) by {
                        assert forall|k: int| i <= k < em2.values.len() implies !(#[trigger] em2.values[k] is Alloc) by {
                            if k < em1.values.len() {
                                assert(em2.values[k] == em1.values[k]);
                            }
                        }
                    }
                    lemma_no_alloc_prefix(em2.values, vals, i, em2.values.len() as int);
                    lemma_allocs_skip(vals, i, em2.values.len() as int);
                }
            }
        },
        Stmt::Return(exp) => {
            if let Some(n) = exp_run(exp, st.scopes, st.mem) {
                let (em1, v) = exp_code(exp, g)->Ok_0;
                let (em2, ret) = add_inst(em1, ValueKind::Return(Some(v)));
                lemma_grows_push(em1, ValueKind::Return(Some(v)));
                assert(g2.em == em2);
                lemma_prefix_trans(em1.values, em2.values, vals);
                lemma_exp_code_runs(exp, g, vals, m);
                let m1 = exec_insts(vals, new_insts(g.em, em1), m)->Running_0;
                assert(new_insts(em1, em2) =~= seq![ret]);
                lemma_exec_one(vals, ret, m1);
                assert(vals[ret as int] == em2.values[ret as int]);
                lemma_new_insts_split(g.em, em1, em2);
                lemma_exec_concat(vals, new_insts(g.em, em1), new_insts(em1, em2), m);
            }
        },
        Stmt::ExprStmt(opt) => match opt {
            Some(exp) => {
                if exp_run(exp, st.scopes, st.mem) is Some {
                    let (em1, v) = exp_code(exp, g)->Ok_0;
                    assert(g2.em == em1);
                    lemma_exp_code_runs(exp, g, vals, m);
                    lemma_no_alloc_prefix(em1.values, vals, i, em1.values.len() as int);
                    lemma_allocs_skip(vals, i, em1.values.len() as int);
                }
            },
            None => {
                lemma_no_new_insts(g.em);
            },
        },
        Stmt::Block(b) => {
            lemma_block_runs(b, g, st, m, vals);
        },
    }
}

proof fn lemma_item_runs(it: &BlockItem, g: Gen, st: SrcState, m: Machine, vals: Seq<ValueKind>)
    requires
        sim(g, st, m, vals),
        conv_item(it, g) matches Ok(g2) && g2.em.values.is_prefix_of(vals),
    ensures
        conv_item(it, g) matches Ok(g2) && runs_as(g, g2, run_item(it, st), m, vals),
    decreases it, 0int,
{
    match it {
        BlockItem::Decl(d) => match d {
            Decl::ConstDecl(cd) => {
                lemma_const_defs_run(cd.defs@, g.scopes, g.cache, st);
                lemma_no_new_insts(g.em);
            },
            Decl::VarDecl(vd) => {
                lemma_var_defs_run(vd.defs@, g, st, m, vals);
            },
        },
        BlockItem::Stmt(s) => {
            lemma_stmt_runs(s, g, st, m, vals);
        },
    }
}

proof fn lemma_items_run(items: Seq<BlockItem>, g: Gen, st: SrcState, m: Machine, vals: Seq<ValueKind>)
    requires
        sim(g, st, m, vals),
        conv_items(items, g) matches Ok(g2) && g2.em.values.is_prefix_of(vals),
    ensures
        conv_items(items, g) matches Ok(g2) && runs_as(g, g2, run_items(items, st), m, vals),
    decreases items, 0int,
{
    let g2 = conv_items(items, g)->Ok_0;
    if items.len() == 0 {
        lemma_no_new_insts(g.em);
    } else {
        let g1 = conv_item(&items[0], g)->Ok_0;
        lemma_items_grow(items.drop_first(), g1);
        lemma_item_grows(&items[0], g);
        lemma_prefix_trans(g1.em.values, g2.em.values, vals);
        lemma_item_runs(&items[0], g, st, m, vals);
        lemma_new_insts_split(g.em, g1.em, g2.em);
        lemma_exec_concat(vals, new_insts(g.em, g1.em), new_insts(g1.em, g2.em), m);
        if let SrcRun::Going(st1) = run_item(&items[0], st) {
            let m1 = exec_insts(vals, new_insts(g.em, g1.em), m)->Running_0;
            lemma_items_run(items.drop_first(), g1, st1, m1, vals);
        }
    }
}

proof fn lemma_block_runs(b: &Block, g: Gen, st: SrcState, m: Machine, vals: Seq<ValueKind>)
    requires
        sim(g, st, m, vals),
        conv_block(b, g) matches Ok(g2) && g2.em.values.is_prefix_of(vals),
    ensures
        conv_block(b, g) matches Ok(g2) && runs_as(g, g2, run_block(b, st), m, vals),
    decreases b, 1int,
{
    let g1 = Gen { em: g.em, scopes: g.scopes.push(Map::<Seq<char>, ScopeEntry>::empty()), cache: g.cache };
    let st1 = with_scopes(st, st.scopes.push(Map::<Seq<char>, ScopeEntry>::empty()));
    lemma_items_run(b.items@, g1, st1, m, vals);
}

/// The state in which generation of the function `fd` starts.
pub open spec fn gen_start(fd: &FuncDef) -> Gen {
    Gen { em: empty_emit(), scopes: fd.symtable.scopes(), cache: fd.symtable.cache() }
}

/// The state in which the body of `fd` starts running with memory `mem`,
/// its variables living at the allocations of `vals`, in order.
pub open spec fn src_start(fd: &FuncDef, vals: Seq<ValueKind>, mem: Map<Value, i32>) -> SrcState {
    SrcState { scopes: fd.symtable.scopes(), mem: mem, locs: allocs_from(vals, 0) }
}

/// The function generated for a definition does what the definition's body
/// does.  Run its entry block from a memory that holds the values known at
/// the start: when the body returns a value, so does the block, the same
/// one; when the body runs to its end, so does the block, with the same
/// memory.  The body's variables live at the allocations of the generated
/// function, in order.
pub proof fn law_generated_function_does_what_its_body_does(fd: &FuncDef, f: &FunctionData, mem: Map<Value, i32>)
    requires
        func_gen(fd) matches Ok(g) && is_function_of(f, fd.ident@, g),
        cache_agrees(fd.symtable.cache(), mem),
    ensures
        match run_block(&fd.block, src_start(fd, f.values@, mem)) {
            SrcRun::Returned(n) => exec_insts(f.values@, f.bbs@[0].insts@, Machine { mem: mem, env: Map::empty() })
                == Outcome::Returned(Some(n)),
            SrcRun::Going(st2) => exec_insts(f.values@, f.bbs@[0].insts@, Machine { mem: mem, env: Map::empty() })
                matches Outcome::Running(m2) && m2.mem == st2.mem,
            SrcRun::Stuck => true,
        },
{
    let g = func_gen(fd)->Ok_0;
    let vals = f.values@;
    let m0 = Machine { mem: mem, env: Map::empty() };
    let g0 = gen_start(fd);
    assert(f.values.len() == vals.len());
    assert(emit_of(f, 0) == g.em);
    assert(g.em.values =~= vals.subrange(0, vals.len() as int));
    assert(empty_emit().values =~= vals.subrange(0, 0));
    assert(sim(g0, src_start(fd, vals, mem), m0, vals));
    lemma_block_runs(&fd.block, g0, src_start(fd, vals, mem), m0, vals);
    assert(new_insts(g0.em, g.em) =~= f.bbs@[0].insts@);
}

} // verus!
