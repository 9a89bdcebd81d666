//! Register allocation within a basic block: the register map stays sound
//! while code is generated; and the code of a return.
use vstd::prelude::*;

use crate::ir::{BinaryOp, Value, ValueKind};
use crate::riscv::{binary_code, emit, operand_reg, take_reg, take_temp, value_code, AsmInst, AsmState, A0, NUM_REGS};

verus! {

/// The register map of `st` is sound: the next free register comes after
/// `x0` and is at most one past the last register; every mapped value has a
/// register taken before the next free one, never `x0`; and no two values
/// share a register.
pub open spec fn reg_map_ok(st: AsmState) -> bool {
    &&& 1 <= st.next <= NUM_REGS
    &&& forall|u: Value| #[trigger] st.regs.contains_key(u) ==> 1 <= st.regs[u] < st.next
    &&& forall|u: Value, w: Value|
        #![trigger st.regs[u], st.regs[w]]
        st.regs.contains_key(u) && st.regs.contains_key(w) && u != w ==> st.regs[u] != st.regs[w]
}

/// `st1` follows `st`: the code only grows and the next free register never
/// goes back.
pub open spec fn advances(st: AsmState, st1: AsmState) -> bool {
    &&& st.next <= st1.next
    &&& st.out.is_prefix_of(st1.out)
}

/// Every value mapped in `st`, except `v`, keeps its register in `st1`.
pub open spec fn keeps_regs_except(st: AsmState, st1: AsmState, v: Value) -> bool {
    forall|u: Value| #[trigger] st.regs.contains_key(u) && u != v ==> st1.regs.contains_key(u) && st1.regs[u] == st.regs[u]
}

/// Every value mapped in `st` keeps its register in `st1`.
pub open spec fn keeps_regs(st: AsmState, st1: AsmState) -> bool {
    forall|u: Value| #[trigger] st.regs.contains_key(u) ==> st1.regs.contains_key(u) && st1.regs[u] == st.regs[u]
}

/// Every value that `st1` maps and `st` does not has a fresh register: one
/// taken at or after `st`'s next free register.
pub open spec fn new_regs_fresh(st: AsmState, st1: AsmState) -> bool {
    forall|u: Value| #[trigger] st1.regs.contains_key(u) && !st.regs.contains_key(u) ==> st.next <= st1.regs[u]
}

proof fn lemma_advances_trans(a: AsmState, b: AsmState, c: AsmState)
    requires
        advances(a, b),
        advances(b, c),
    ensures
        advances(a, c),
{
    assert(a.out =~= c.out.subrange(0, a.out.len() as int)) by {
        assert forall|i: int| 0 <= i < a.out.len() implies a.out[i] == c.out[i] by {
            assert(a.out[i] == b.out.subrange(0, a.out.len() as int)[i]);
            assert(b.out[i] == c.out.subrange(0, b.out.len() as int)[i]);
        }
    }
}

proof fn lemma_emit_advances(st: AsmState, insts: Seq<AsmInst>)
    ensures
        advances(st, emit(st, insts)),
        emit(st, insts).regs == st.regs,
        emit(st, insts).next == st.next,
{
    assert(st.out =~= emit(st, insts).out.subrange(0, st.out.len() as int));
}

/// Taking a register for `v` keeps the map sound, maps `v` and keeps the
/// others.
proof fn lemma_take_reg(st: AsmState, v: Value)
    requires
        reg_map_ok(st),
    ensures
        take_reg(st, v) matches Ok((st1, rd)) ==> {
            &&& reg_map_ok(st1)
            &&& advances(st, st1)
            &&& keeps_regs_except(st, st1, v)
            &&& st1.regs.contains_key(v)
            &&& st1.regs[v] == rd
            &&& rd == st.next
            &&& st1.out == st.out
        },
{
    if let Ok((st1, rd)) = take_reg(st, v) {
        assert(st.out =~= st1.out.subrange(0, st.out.len() as int));
        assert forall|u: Value, w: Value|
            #![trigger st1.regs[u], st1.regs[w]]
            st1.regs.contains_key(u) && st1.regs.contains_key(w) && u != w implies st1.regs[u] != st1.regs[w] by {
            if u != v && w != v {
                assert(st.regs.contains_key(u) && st.regs.contains_key(w));
                assert(st.regs[u] != st.regs[w]);
            } else if u == v {
                assert(st.regs.contains_key(w));
            } else {
                assert(st.regs.contains_key(u));
            }
        }
        assert forall|u: Value| #[trigger] st1.regs.contains_key(u) implies 1 <= st1.regs[u] < st1.next by {
            if u != v {
                assert(st.regs.contains_key(u));
            }
        }
    }
}

/// Taking a scratch register keeps the map sound and every mapping.
proof fn lemma_take_temp(st: AsmState)
    requires
        reg_map_ok(st),
    ensures
        take_temp(st) matches Ok((st1, _)) ==> reg_map_ok(st1) && advances(st, st1) && keeps_regs(st, st1)
            && st1.regs == st.regs,
{
    if let Ok((st1, _)) = take_temp(st) {
        assert(st.out =~= st1.out.subrange(0, st.out.len() as int));
    }
}

/// Generating the code of value `v` keeps the register map sound, keeps
/// the register of every other value, never gives a register back, and
/// only appends code; an integer or a binary operation ends with a
/// register of its own, a fresh one: taken at or after the next free
/// register that generation started from.
pub proof fn law_value_code_keeps_register_map(vals: Seq<ValueKind>, v: Value, st: AsmState)
    requires
        reg_map_ok(st),
    ensures
        value_code(vals, v, st) matches Ok(st1) ==> {
            &&& reg_map_ok(st1)
            &&& advances(st, st1)
            &&& keeps_regs_except(st, st1, v)
            &&& new_regs_fresh(st, st1)
            &&& (v < vals.len() && (vals[v as int] is Integer || vals[v as int] is Binary)) ==> {
                &&& st1.regs.contains_key(v)
                &&& st.next <= st1.regs[v] < st1.next
            }
        },
    decreases v, 0int,
{
    if let Ok(st_end) = value_code(vals, v, st) {
        if v < vals.len() {
            match vals[v as int] {
                ValueKind::Integer(i) => {
                    lemma_take_reg(st, v);
                    let (st1, rd) = take_reg(st, v)->Ok_0;
                    lemma_emit_advances(st1, seq![AsmInst::Li(rd, i)]);
                    lemma_advances_trans(st, st1, st_end);
                },
                ValueKind::Binary(op, l, r) => {
                    law_operand_reg_keeps_register_map(vals, l, st);
                    let (st1, lr) = operand_reg(vals, l, st)->Ok_0;
                    law_operand_reg_keeps_register_map(vals, r, st1);
                    let (st2, rr) = operand_reg(vals, r, st1)->Ok_0;
                    lemma_take_reg(st2, v);
                    let (st3, rd) = take_reg(st2, v)->Ok_0;
                    lemma_advances_trans(st, st1, st2);
                    lemma_advances_trans(st, st2, st3);
                    if op == BinaryOp::And {
                        lemma_take_temp(st3);
                        let (st4, lb) = take_temp(st3)->Ok_0;
                        let st5 = emit(st4, seq![AsmInst::Test(crate::riscv::RvTest::Snez, lb, lr)]);
                        lemma_emit_advances(st4, seq![AsmInst::Test(crate::riscv::RvTest::Snez, lb, lr)]);
                        lemma_take_temp(st5);
                        let (st6, rb) = take_temp(st5)->Ok_0;
                        let tail = seq![
                            AsmInst::Test(crate::riscv::RvTest::Snez, rb, rr),
                            AsmInst::Op(crate::riscv::RvOp::And, rd, lb, rb),
                        ];
                        lemma_emit_advances(st6, tail);
                        assert(st_end == emit(st6, tail));
                        lemma_advances_trans(st3, st4, st5);
                        lemma_advances_trans(st3, st5, st6);
                        lemma_advances_trans(st3, st6, st_end);
                        lemma_advances_trans(st, st3, st_end);
                    } else {
                        lemma_emit_advances(st3, binary_code(op, rd, lr, rr));
                        lemma_advances_trans(st, st3, st_end);
                    }
                },
                ValueKind::Return(ret) => {
                    if let Some(x) = ret {
                        law_operand_reg_keeps_register_map(vals, x, st);
                        let (st1, rr) = operand_reg(vals, x, st)->Ok_0;
                        let code = if rr != crate::riscv::A0 {
                            seq![AsmInst::Mv(crate::riscv::A0, rr), AsmInst::Ret]
                        } else {
                            seq![AsmInst::Ret]
                        };
                        lemma_emit_advances(st1, code);
                        lemma_advances_trans(st, st1, st_end);
                    } else {
                        lemma_emit_advances(st, seq![AsmInst::Ret]);
                    }
                },
                _ => {
                    assert(st.out =~= st.out.subrange(0, st.out.len() as int));
                },
            }
        } else {
            assert(st.out =~= st.out.subrange(0, st.out.len() as int));
        }
    }
}

/// Getting the register of operand `u` keeps the register map sound, keeps
/// every register already mapped, never gives a register back, and only
/// appends code.  The register given is `x0` only for the integer `0`, and
/// otherwise the one that `u` is mapped to; for an operand that had no
/// register, a fresh one.
pub proof fn law_operand_reg_keeps_register_map(vals: Seq<ValueKind>, u: Value, st: AsmState)
    requires
        reg_map_ok(st),
    ensures
        operand_reg(vals, u, st) matches Ok((st1, r)) ==> {
            &&& reg_map_ok(st1)
            &&& advances(st, st1)
            &&& keeps_regs(st, st1)
            &&& new_regs_fresh(st, st1)
            &&& r < st1.next
            &&& if r == 0 {
                u < vals.len() && vals[u as int] == ValueKind::Integer(0)
            } else {
                st1.regs.contains_key(u) && st1.regs[u] == r
            }
            &&& !st.regs.contains_key(u) && r != 0 ==> st.next <= r
        },
    decreases u, 1int,
{
    if st.regs.contains_key(u) {
        assert(st.out =~= st.out.subrange(0, st.out.len() as int));
    } else if u < vals.len() && vals[u as int] == ValueKind::Integer(0) {
        assert(st.out =~= st.out.subrange(0, st.out.len() as int));
    } else {
        law_value_code_keeps_register_map(vals, u, st);
    }
}

/// The code of a return of operand `x` is the code that gives `x` its
/// register `rr`, then `mv a0, rr` unless `rr` is `a0`, then `ret`; the
/// register map and the next free register are those that getting `x`'s
/// register leaves.  A return without an operand is `ret` alone.
pub proof fn law_return_code(vals: Seq<ValueKind>, v: Value, st: AsmState)
    requires
        v < vals.len(),
        vals[v as int] is Return,
    ensures
        vals[v as int] matches ValueKind::Return(Some(x)) ==> (x < v ==> value_code(vals, v, st) == match operand_reg(
            vals,
            x,
            st,
        ) {
            Err(f) => Err(f),
            Ok((st1, rr)) => Ok(
                AsmState {
                    regs: st1.regs,
                    next: st1.next,
                    out: st1.out + (if rr != A0 { seq![AsmInst::Mv(A0, rr), AsmInst::Ret] } else { seq![AsmInst::Ret] }),
                },
            ),
        }),
        vals[v as int] == ValueKind::Return(None) ==> value_code(vals, v, st) == Ok::<AsmState, crate::error::Fault>(
            AsmState { regs: st.regs, next: st.next, out: st.out.push(AsmInst::Ret) },
        ),
{
    if vals[v as int] == ValueKind::Return(None) {
        assert(st.out + seq![AsmInst::Ret] =~= st.out.push(AsmInst::Ret));
    }
}

} // verus!
