//! The whole compiler: the assembly generated for a function returns what
//! the function's body returns.
use vstd::prelude::*;

use crate::ast::{eval, Block, BlockItem, Decl, ExpOp, Expr, FuncDef, Stmt, UnaryOp, VarDef};
use crate::execution::{
    exec_inst, exec_insts, gen_start, law_generated_function_does_what_its_body_does, lemma_exp_code, operand,
    run_block, src_start, Machine, Outcome, SrcRun,
};
use crate::ir::{BinaryOp, FunctionData, Value, ValueKind};
use crate::irgen::{
    add_inst, add_value, binary_step, conv, conv_block, conv_item, conv_items, conv_stmt, conv_var_defs, emit_of, empty_emit, exp_code,
    exp_value, func_gen, ir_op, is_function_of, var_def_name, Emit, Gen,
};
use crate::machine::{asm_run, first_return, law_block_code_returns_its_value, ops_supported, pure_value, AsmRun, Regs};
use crate::riscv::{block_start, insts_code, operand_reg, value_code, AsmState};
use crate::semantics::{boolean, cache_agrees, ir_binary};
use crate::symtable::{bind, lookup, ScopeEntry};

verus! {

/// Whether IR value `v` is computed from constants alone, without reading
/// memory.
pub open spec fn load_free(vals: Seq<ValueKind>, v: Value) -> bool
    decreases v,
{
    if v >= vals.len() {
        false
    } else {
        match vals[v as int] {
            ValueKind::Integer(_) => true,
            ValueKind::Binary(_, l, r) => l < v && r < v && load_free(vals, l) && load_free(vals, r),
            _ => false,
        }
    }
}

/// Every computed value that does not read memory is its meaning.
pub open spec fn env_pure(vals: Seq<ValueKind>, env: Map<Value, i32>) -> bool {
    forall|k: Value| #[trigger] env.contains_key(k) && load_free(vals, k) ==> pure_value(vals, k) == Some(env[k])
}

/// The operand value of a value that does not read memory is its meaning.
proof fn lemma_operand_pure(vals: Seq<ValueKind>, env: Map<Value, i32>, x: Value)
    requires
        env_pure(vals, env),
        load_free(vals, x),
        operand(vals, env, x) is Some,
    ensures
        pure_value(vals, x) == operand(vals, env, x),
{
    assert(x < vals.len());
    if let ValueKind::Integer(n) = vals[x as int] {
        assert(pure_value(vals, x) == Some(n));
    }
}

/// Running an instruction keeps the computed values that do not read
/// memory equal to their meaning.
proof fn lemma_exec_inst_pure(vals: Seq<ValueKind>, v: Value, m: Machine)
    requires
        env_pure(vals, m.env),
    ensures
        exec_inst(vals, v, m) matches Outcome::Running(m1) ==> env_pure(vals, m1.env),
{
    if let Outcome::Running(m1) = exec_inst(vals, v, m) {
        assert forall|k: Value| #[trigger] m1.env.contains_key(k) && load_free(vals, k) implies pure_value(vals, k)
            == Some(m1.env[k]) by {
            if k == v {
                match vals[v as int] {
                    ValueKind::Binary(op, l, r) => {
                        lemma_operand_pure(vals, m.env, l);
                        lemma_operand_pure(vals, m.env, r);
                        assert(pure_value(vals, v) == ir_binary(op, pure_value(vals, l)->Some_0, pure_value(vals, r)->Some_0));
                    },
                    _ => {},
                }
            } else {
                assert(m.env.contains_key(k));
            }
        }
    }
}

/// A run of instructions that returns does so at the first return among
/// them, with the meaning of its operand when that does not read memory.
proof fn lemma_exec_returns_first(vals: Seq<ValueKind>, insts: Seq<Value>, m: Machine)
    requires
        env_pure(vals, m.env),
    ensures
        exec_insts(vals, insts, m) matches Outcome::Returned(r) ==> first_return(vals, insts) matches Some(ret) && match ret {
            Some(x) => load_free(vals, x) ==> r is Some && pure_value(vals, x) == r,
            None => r is None,
        },
    decreases insts.len(),
{
    if insts.len() > 0 {
        let v = insts[0];
        lemma_exec_inst_pure(vals, v, m);
        match exec_inst(vals, v, m) {
            Outcome::Running(m1) => {
                lemma_exec_returns_first(vals, insts.drop_first(), m1);
                if v < vals.len() {
                    assert(!(vals[v as int] is Return));
                }
            },
            Outcome::Returned(r) => {
                if let ValueKind::Return(Some(x)) = vals[v as int] {
                    if load_free(vals, x) {
                        lemma_operand_pure(vals, m.env, x);
                    }
                }
            },
            Outcome::Stuck => {},
        }
    }
}

/// Every value that has a register is computed without reading memory.
pub open spec fn regs_load_free(vals: Seq<ValueKind>, st: AsmState) -> bool {
    forall|v: Value| #[trigger] st.regs.contains_key(v) ==> load_free(vals, v)
}

/// Generating the code of a value gives registers only to values computed
/// without reading memory.
proof fn lemma_value_code_load_free(vals: Seq<ValueKind>, v: Value, st: AsmState)
    requires
        regs_load_free(vals, st),
    ensures
        value_code(vals, v, st) matches Ok(st1) ==> regs_load_free(vals, st1),
    decreases v, 0int,
{
    if v < vals.len() {
        match vals[v as int] {
            ValueKind::Binary(op, l, r) => {
                if l < v && r < v {
                    lemma_operand_load_free(vals, l, st);
                    if let Ok((st1, lr)) = operand_reg(vals, l, st) {
                        lemma_operand_load_free(vals, r, st1);
                    }
                }
            },
            ValueKind::Return(Some(x)) => {
                if x < v {
                    lemma_operand_load_free(vals, x, st);
                }
            },
            _ => {},
        }
    }
}

/// An operand that gets a register is computed without reading memory.
proof fn lemma_operand_load_free(vals: Seq<ValueKind>, u: Value, st: AsmState)
    requires
        regs_load_free(vals, st),
    ensures
        operand_reg(vals, u, st) matches Ok((st1, _)) ==> regs_load_free(vals, st1) && load_free(vals, u),
    decreases u, 1int,
{
    if !st.regs.contains_key(u) && !(u < vals.len() && vals[u as int] == ValueKind::Integer(0)) {
        lemma_value_code_load_free(vals, u, st);
    }
}

/// The first return of instructions whose code is generated returns a value
/// computed without reading memory.
proof fn lemma_insts_return_load_free(vals: Seq<ValueKind>, insts: Seq<Value>, st: AsmState)
    requires
        regs_load_free(vals, st),
    ensures
        insts_code(vals, insts, st) is Ok ==> (first_return(vals, insts) matches Some(Some(x)) ==> load_free(vals, x)),
    decreases insts.len(),
{
    if insts.len() > 0 {
        let v = insts[0];
        lemma_value_code_load_free(vals, v, st);
        if let Ok(st1) = value_code(vals, v, st) {
            if v < vals.len() && vals[v as int] is Return {
                if let ValueKind::Return(Some(x)) = vals[v as int] {
                    lemma_operand_load_free(vals, x, st);
                }
            } else {
                lemma_insts_return_load_free(vals, insts.drop_first(), st1);
            }
        }
    }
}

/// Whether value `l` of `vals` compares with `!=`, and so is `0` or `1`.
pub open spec fn is_ne(vals: Seq<ValueKind>, l: Value) -> bool {
    &&& l < vals.len()
    &&& vals[l as int] matches ValueKind::Binary(op, _, _) && op == BinaryOp::NotEq
}

/// A value among `vals` of the kinds IR generation makes: not an `xor`, and,
/// for an `and` or an `or`, operands that compare with `!=`.
pub open spec fn op_as_generated(vals: Seq<ValueKind>, k: ValueKind) -> bool {
    match k {
        ValueKind::Binary(op, l, r) => op != BinaryOp::Xor && ((op == BinaryOp::And || op == BinaryOp::Or) ==> is_ne(
            vals,
            l,
        ) && is_ne(vals, r)),
        _ => true,
    }
}

/// Every value of `vals` is of the kinds IR generation makes.
pub open spec fn ops_as_generated(vals: Seq<ValueKind>) -> bool {
    forall|i: int| 0 <= i < vals.len() ==> op_as_generated(vals, #[trigger] vals[i])
}

/// A comparison with `!=` means `0` or `1`.
proof fn lemma_ne_boolean(vals: Seq<ValueKind>, l: Value)
    requires
        is_ne(vals, l),
    ensures
        boolean(pure_value(vals, l)),
{
}

proof fn lemma_ops_push(vals: Seq<ValueKind>, k: ValueKind)
    requires
        ops_as_generated(vals),
        op_as_generated(vals, k),
    ensures
        ops_as_generated(vals.push(k)),
{
    let vs = vals.push(k);
    assert forall|i: int| 0 <= i < vs.len() implies op_as_generated(vs, #[trigger] vs[i]) by {
        let ki = if i < vals.len() { vals[i] } else { k };
        assert(vs[i] == ki);
        assert(op_as_generated(vals, ki));
        if let ValueKind::Binary(op, l, r) = ki {
            if op == BinaryOp::And || op == BinaryOp::Or {
                assert(vs[l as int] == vals[l as int]);
                assert(vs[r as int] == vals[r as int]);
            }
        }
    }
}

/// The code of an expression adds only values of the kinds IR generation
/// makes (for code whose handles fit in a `usize`).
proof fn lemma_exp_ops(e: Expr, em: Emit, scopes: Seq<Map<Seq<char>, ScopeEntry>>, cache: Map<Value, i32>)
    requires
        ops_as_generated(em.values),
    ensures
        conv(e, em, scopes, cache) matches Ok((em2, _)) ==> (em2.values.len() <= usize::MAX ==> ops_as_generated(
            em2.values,
        )),
    decreases e,
{
    match eval(e, scopes, cache) {
        Err(_) => {},
        Ok(Some(n)) => lemma_ops_push(em.values, ValueKind::Integer(n)),
        Ok(None) => match e {
            Expr::Num(n) => {},
            Expr::Name(name) => match lookup(scopes, name) {
                Some(ScopeEntry::Var(a)) => lemma_ops_push(em.values, ValueKind::Load(a)),
                Some(ScopeEntry::Const(c)) => lemma_ops_push(em.values, ValueKind::Integer(c)),
                None => {},
            },
            Expr::Unary(op, x) => {
                lemma_exp_ops(*x, em, scopes, cache);
                if let Ok((em1, val)) = conv(*x, em, scopes, cache) {
                    if op != UnaryOp::Pos && em1.values.len() + 2 <= usize::MAX {
                        let zero = em1.values.len() as Value;
                        let k = if op == UnaryOp::Neg {
                            ValueKind::Binary(BinaryOp::Sub, zero, val)
                        } else {
                            ValueKind::Binary(BinaryOp::Eq, val, zero)
                        };
                        lemma_ops_push(em1.values, ValueKind::Integer(0));
                        lemma_ops_push(em1.values.push(ValueKind::Integer(0)), k);
                    }
                }
            },
            Expr::Binary(op, l, r) => {
                lemma_exp_ops(*l, em, scopes, cache);
                if let Ok((em1, lv)) = conv(*l, em, scopes, cache) {
                    if let Ok((em2, rv)) = conv(*r, em1, scopes, cache) {
                        let em3 = binary_step(op, em2, lv, rv).0;
                        crate::semantics::lemma_binary_step_extends(op, em2, lv, rv);
                        crate::execution::lemma_exp_grows(*r, em1, scopes, cache);
                        if em3.values.len() <= usize::MAX {
                            lemma_exp_ops(*r, em1, scopes, cache);
                            lemma_binary_step_ops(op, em2, lv, rv);
                        }
                    }
                }
            },
        },
    }
}

/// The code of a binary operator adds only values of the kinds IR
/// generation makes.
proof fn lemma_binary_step_ops(op: ExpOp, em2: Emit, lv: Value, rv: Value)
    requires
        ops_as_generated(em2.values),
        binary_step(op, em2, lv, rv).0.values.len() <= usize::MAX,
    ensures
        ops_as_generated(binary_step(op, em2, lv, rv).0.values),
{
    let n = em2.values.len();
    if op == ExpOp::And || op == ExpOp::Or {
        let zero = n as Value;
        let v0 = em2.values.push(ValueKind::Integer(0));
        let v1 = v0.push(ValueKind::Binary(BinaryOp::NotEq, lv, zero));
        let v2 = v1.push(ValueKind::Binary(BinaryOp::NotEq, rv, zero));
        lemma_ops_push(em2.values, ValueKind::Integer(0));
        lemma_ops_push(v0, ValueKind::Binary(BinaryOp::NotEq, lv, zero));
        lemma_ops_push(v1, ValueKind::Binary(BinaryOp::NotEq, rv, zero));
        assert(is_ne(v2, (n + 1) as Value));
        assert(is_ne(v2, (n + 2) as Value));
        lemma_ops_push(v2, ValueKind::Binary(ir_op(op), (n + 1) as Value, (n + 2) as Value));
        assert(binary_step(op, em2, lv, rv).0.values == v2.push(
            ValueKind::Binary(ir_op(op), (n + 1) as Value, (n + 2) as Value),
        ));
    } else {
        lemma_ops_push(em2.values, ValueKind::Binary(ir_op(op), lv, rv));
    }
}

proof fn lemma_var_defs_ops(defs: Seq<VarDef>, g: Gen)
    requires
        ops_as_generated(g.em.values),
    ensures
        conv_var_defs(defs, g) matches Ok(g2) ==> ops_as_generated(g2.em.values),
    decreases defs.len(),
{
    if defs.len() > 0 {
        let d = defs[0];
        let name = var_def_name(d);
        let (em1, alloc) = add_inst(g.em, ValueKind::Alloc);
        lemma_ops_push(g.em.values, ValueKind::Alloc);
        match d {
            VarDef::IDENT(_) => {
                lemma_var_defs_ops(
                    defs.drop_first(),
                    Gen { em: em1, scopes: bind(g.scopes, name, ScopeEntry::Var(alloc)), cache: g.cache },
                );
            },
            VarDef::IDENTInitVal(_, init) => {
                if let Ok(Some(v)) = exp_value(&init.exp, g.scopes, g.cache) {
                    let (em2, value) = add_value(em1, ValueKind::Integer(v));
                    let (em3, _) = add_inst(em2, ValueKind::Store(value, alloc));
                    lemma_ops_push(em1.values, ValueKind::Integer(v));
                    lemma_ops_push(em2.values, ValueKind::Store(value, alloc));
                    lemma_var_defs_ops(
                        defs.drop_first(),
                        Gen { em: em3, scopes: bind(g.scopes, name, ScopeEntry::Var(alloc)), cache: g.cache.insert(alloc, v) },
                    );
                }
            },
        }
    }
}

#[verifier::rlimit(60)]
proof fn lemma_stmt_ops(s: &Stmt, g: Gen)
    requires
        ops_as_generated(g.em.values),
    ensures
        conv_stmt(s, g) matches Ok(g2) ==> (g2.em.values.len() <= usize::MAX ==> ops_as_generated(g2.em.values)),
    decreases s, 0int,
{
    match s {
        Stmt::Assign(lval, exp) => {
            lemma_exp_code(exp, g);
            lemma_exp_ops(exp.to_expr(), g.em, g.scopes, g.cache);
            if let Ok((em1, v)) = exp_code(exp, g) {
                if let Some(ScopeEntry::Var(a)) = lookup(g.scopes, lval.ident@) {
                    if let Ok(g2) = conv_stmt(s, g) {
                        assert(g2.em == add_inst(em1, ValueKind::Store(v, a)).0);
                        if g2.em.values.len() <= usize::MAX {
                            lemma_ops_push(em1.values, ValueKind::Store(v, a));
                        }
                    }
                }
            }
        },
        Stmt::Return(exp) => {
            lemma_exp_code(exp, g);
            lemma_exp_ops(exp.to_expr(), g.em, g.scopes, g.cache);
            if let Ok((em1, v)) = exp_code(exp, g) {
                if em1.values.len() < usize::MAX {
                    lemma_ops_push(em1.values, ValueKind::Return(Some(v)));
                }
            }
        },
        Stmt::ExprStmt(opt) => match opt {
            Some(exp) => {
                lemma_exp_code(exp, g);
                lemma_exp_ops(exp.to_expr(), g.em, g.scopes, g.cache);
            },
            None => {},
        },
        Stmt::Block(b) => lemma_block_ops(b, g),
    }
}

proof fn lemma_item_ops(it: &BlockItem, g: Gen)
    requires
        ops_as_generated(g.em.values),
    ensures
        conv_item(it, g) matches Ok(g2) ==> (g2.em.values.len() <= usize::MAX ==> ops_as_generated(g2.em.values)),
    decreases it, 0int,
{
    match it {
        BlockItem::Decl(d) => match d {
            Decl::ConstDecl(_) => {},
            Decl::VarDecl(vd) => lemma_var_defs_ops(vd.defs@, g),
        },
        BlockItem::Stmt(s) => lemma_stmt_ops(s, g),
    }
}

proof fn lemma_items_ops(items: Seq<BlockItem>, g: Gen)
    requires
        ops_as_generated(g.em.values),
    ensures
        conv_items(items, g) matches Ok(g2) ==> (g2.em.values.len() <= usize::MAX ==> ops_as_generated(g2.em.values)),
    decreases items, 0int,
{
    if items.len() > 0 {
        lemma_item_ops(&items[0], g);
        if let Ok(g1) = conv_item(&items[0], g) {
            crate::execution::lemma_items_grow(items.drop_first(), g1);
            if let Ok(g2) = conv_items(items.drop_first(), g1) {
                if g2.em.values.len() <= usize::MAX {
                    lemma_items_ops(items.drop_first(), g1);
                }
            }
        }
    }
}

proof fn lemma_block_ops(b: &Block, g: Gen)
    requires
        ops_as_generated(g.em.values),
    ensures
        conv_block(b, g) matches Ok(g2) ==> (g2.em.values.len() <= usize::MAX ==> ops_as_generated(g2.em.values)),
    decreases b, 1int,
{
    let g1 = Gen { em: g.em, scopes: g.scopes.push(Map::<Seq<char>, ScopeEntry>::empty()), cache: g.cache };
    lemma_items_ops(b.items@, g1);
}

/// The compiler is correct: when the body of a function definition returns
/// a value, the RISC-V code generated for the function's entry block,
/// started from any registers and a memory that holds the values known at
/// the start, returns the same value.
pub proof fn law_compiled_function_returns_what_its_body_returns(
    fd: &FuncDef,
    f: &FunctionData,
    mem: Map<Value, i32>,
    regs: Regs,
    n: i32,
)
    requires
        func_gen(fd) matches Ok(g) && is_function_of(f, fd.ident@, g),
        cache_agrees(fd.symtable.cache(), mem),
        run_block(&fd.block, src_start(fd, f.values@, mem)) == SrcRun::Returned(n),
    ensures
        insts_code(f.values@, f.bbs@[0].insts@, block_start()) matches Ok(st) ==> asm_run(st.out, regs)
            == AsmRun::Returned(n),
{
    let vals = f.values@;
    let insts = f.bbs@[0].insts@;
    law_generated_function_does_what_its_body_does(fd, f, mem);
    let m0 = Machine { mem: mem, env: Map::empty() };
    assert(exec_insts(vals, insts, m0) == Outcome::Returned(Some(n)));
    lemma_exec_returns_first(vals, insts, m0);
    assert(f.wf());
    assert(crate::ir::values_wf(vals) && crate::ir::insts_wf(vals, insts)) by {
        reveal(FunctionData::wf);
    }
    assert(ops_as_generated(empty_emit().values));
    lemma_block_ops(&fd.block, gen_start(fd));
    assert(emit_of(f, 0) == func_gen(fd)->Ok_0.em);
    assert(vals.len() == f.values.len());
    assert(ops_as_generated(vals));
    assert(ops_supported(vals)) by {
        assert forall|v: int| 0 <= v < vals.len() implies match #[trigger] vals[v] {
            ValueKind::Binary(op, l, r) => {
                &&& op != BinaryOp::Xor
                &&& (op == BinaryOp::And || op == BinaryOp::Or) ==> boolean(pure_value(vals, l)) && boolean(pure_value(vals, r))
            },
            _ => true,
        } by {
            assert(op_as_generated(vals, vals[v]));
            if let ValueKind::Binary(op, l, r) = vals[v] {
                if op == BinaryOp::And || op == BinaryOp::Or {
                    lemma_ne_boolean(vals, l);
                    lemma_ne_boolean(vals, r);
                }
            }
        }
    }
    law_block_code_returns_its_value(vals, insts, regs);
    lemma_insts_return_load_free(vals, insts, block_start());
}

} // verus!
