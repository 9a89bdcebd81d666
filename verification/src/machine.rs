//! Running RISC-V code, and the law that the code generated for a basic
//! block returns the value of the block's return.
use vstd::prelude::*;

use crate::ast::{trunc_div, trunc_rem, truth};
use crate::ir::{BinaryOp, Value, ValueKind};
use crate::riscv::{AsmInst, AsmState, Reg, RvOp, RvTest, A0};
use crate::semantics::{boolean, ir_binary, ir_value};

verus! {

/// The contents of the registers, by index; a register that the map does
/// not hold reads as `0`, and so does `x0` always.
pub type Regs = Map<Reg, i32>;

/// The content of register `r`.
pub open spec fn read(regs: Regs, r: Reg) -> i32 {
    if r != 0 && regs.contains_key(r) {
        regs[r]
    } else {
        0
    }
}

/// `regs` with `v` written to `r`; a write to `x0` is lost.
pub open spec fn write(regs: Regs, r: Reg, v: i32) -> Regs {
    if r == 0 {
        regs
    } else {
        regs.insert(r, v)
    }
}

/// `x` reduced to 32 bits, two's complement.
pub open spec fn wrap(x: int) -> i32 {
    let m = x % 0x1_0000_0000;
    (if m >= 0x8000_0000 { m - 0x1_0000_0000 } else { m }) as i32
}

/// The result of a three-register operation: arithmetic wraps around;
/// division by zero gives `-1` and its remainder the dividend; the one
/// quotient that overflows gives the dividend and remainder `0`.
pub open spec fn rv_op(op: RvOp, a: i32, b: i32) -> i32 {
    match op {
        RvOp::Add => wrap(a + b),
        RvOp::Sub => wrap(a - b),
        RvOp::Mul => wrap(a * b),
        RvOp::Div => if b == 0 {
            -1i32
        } else if a == i32::MIN && b == -1 {
            i32::MIN
        } else {
            trunc_div(a as int, b as int) as i32
        },
        RvOp::Rem => if b == 0 {
            a
        } else if a == i32::MIN && b == -1 {
            0
        } else {
            trunc_rem(a as int, b as int) as i32
        },
        RvOp::Xor => a ^ b,
        RvOp::Slt => truth(a < b),
        RvOp::And => a & b,
        RvOp::Or => a | b,
    }
}

/// Runs one instruction: the new registers, or none for `ret`.
pub open spec fn asm_step(i: AsmInst, regs: Regs) -> Option<Regs> {
    match i {
        AsmInst::Li(rd, imm) => Some(write(regs, rd, imm)),
        AsmInst::Op(op, rd, a, b) => Some(write(regs, rd, rv_op(op, read(regs, a), read(regs, b)))),
        AsmInst::Test(t, rd, a) => Some(write(
            regs,
            rd,
            match t {
                RvTest::Seqz => truth(read(regs, a) == 0),
                RvTest::Snez => truth(read(regs, a) != 0),
            },
        )),
        AsmInst::Xori(rd, a, imm) => Some(write(regs, rd, read(regs, a) ^ imm)),
        AsmInst::Mv(rd, a) => Some(write(regs, rd, read(regs, a))),
        AsmInst::Ret => None,
    }
}

/// Where running some code ends.
pub enum AsmRun {
    /// At its end, with these registers.
    Running(Regs),
    /// At a `ret`, with this value in `a0`.
    Returned(i32),
}

/// Runs `code` from the registers `regs`, until a `ret`.
pub open spec fn asm_run(code: Seq<AsmInst>, regs: Regs) -> AsmRun
    decreases code.len(),
{
    if code.len() == 0 {
        AsmRun::Running(regs)
    } else {
        match asm_step(code[0], regs) {
            Some(r1) => asm_run(code.drop_first(), r1),
            None => AsmRun::Returned(read(regs, A0)),
        }
    }
}

/// The value of IR value `v`, when it does not depend on memory.
pub open spec fn pure_value(vals: Seq<ValueKind>, v: Value) -> Option<i32> {
    ir_value(vals, v, Map::empty())
}

/// The operations whose code computes their IR meaning: no `xor` (for which
/// no code is emitted), and `and` and `or` on operands `0` or `1` (whose
/// code computes them as logical operators, while the IR's meaning is bit
/// by bit).
pub open spec fn ops_supported(vals: Seq<ValueKind>) -> bool {
    forall|v: int| 0 <= v < vals.len() ==> match #[trigger] vals[v] {
        ValueKind::Binary(op, l, r) => {
            &&& op != BinaryOp::Xor
            &&& (op == BinaryOp::And || op == BinaryOp::Or) ==> boolean(pure_value(vals, l)) && boolean(
                pure_value(vals, r),
            )
        },
        _ => true,
    }
}

proof fn lemma_wrap_in_range(x: int)
    requires
        i32::MIN <= x <= i32::MAX,
    ensures
        wrap(x) == x,
{
    if x >= 0 {
        assert(x % 0x1_0000_0000 == x);
    } else {
        assert(x % 0x1_0000_0000 == x + 0x1_0000_0000);
    }
}

proof fn lemma_bits(a: i32, b: i32)
    ensures
        (a ^ b == 0) == (a == b),
        (a == 0 || a == 1) && (b == 0 || b == 1) ==> (a & b) == truth(a != 0 && b != 0),
        (a == 0 || a == 1) && (b == 0 || b == 1) ==> (a | b) == truth(a != 0 || b != 0),
        truth(a != 0) & truth(b != 0) == truth(a != 0 && b != 0),
        truth(a < b) ^ 1 == truth(a >= b),
{
    assert((a ^ b == 0) == (a == b)) by (bit_vector);
    assert((a == 0 || a == 1) && (b == 0 || b == 1) ==> (a & b) == (if a != 0 && b != 0 { 1i32 } else { 0i32 })) by (bit_vector);
    assert((a == 0 || a == 1) && (b == 0 || b == 1) ==> (a | b) == (if a != 0 || b != 0 { 1i32 } else { 0i32 })) by (bit_vector);
    assert((if a != 0 { 1i32 } else { 0i32 }) & (if b != 0 { 1i32 } else { 0i32 }) == (if a != 0 && b != 0 { 1i32 } else { 0i32 })) by (bit_vector);
    assert((if a < b { 1i32 } else { 0i32 }) ^ 1i32 == (if a >= b { 1i32 } else { 0i32 })) by (bit_vector);
}

/// Runs `code` after a run that may have returned already.
pub open spec fn asm_after(r: AsmRun, code: Seq<AsmInst>) -> AsmRun {
    match r {
        AsmRun::Running(regs) => asm_run(code, regs),
        AsmRun::Returned(n) => AsmRun::Returned(n),
    }
}

proof fn lemma_asm_concat(a: Seq<AsmInst>, b: Seq<AsmInst>, regs: Regs)
    ensures
        asm_run(a + b, regs) == asm_after(asm_run(a, regs), b),
    decreases a.len(),
{
    if a.len() == 0 {
        assert(a + b =~= b);
    } else {
        assert((a + b)[0] == a[0]);
        assert((a + b).drop_first() =~= a.drop_first() + b);
        if let Some(r1) = asm_step(a[0], regs) {
            lemma_asm_concat(a.drop_first(), b, r1);
        }
    }
}

proof fn lemma_asm_one(i: AsmInst, regs: Regs)
    ensures
        asm_run(seq![i], regs) == (match asm_step(i, regs) {
            Some(r1) => AsmRun::Running(r1),
            None => AsmRun::Returned(read(regs, A0)),
        }),
{
    assert(seq![i].drop_first() =~= Seq::<AsmInst>::empty());
    if let Some(r1) = asm_step(i, regs) {
        assert(asm_run(Seq::<AsmInst>::empty(), r1) == AsmRun::Running(r1));
    }
}

proof fn lemma_asm_two(i: AsmInst, j: AsmInst, regs: Regs)
    ensures
        asm_run(seq![i, j], regs) == (match asm_step(i, regs) {
            Some(r1) => asm_run(seq![j], r1),
            None => AsmRun::Returned(read(regs, A0)),
        }),
{
    assert(seq![i, j].drop_first() =~= seq![j]);
}

/// `r2` holds what `r1` holds in every register except `rd`.
pub open spec fn same_except(r1: Regs, r2: Regs, rd: Reg) -> bool {
    forall|k: Reg| k != rd ==> #[trigger] read(r2, k) == read(r1, k)
}

/// `r2` holds what `r1` holds in every register below `n`.
pub open spec fn same_below(r1: Regs, r2: Regs, n: nat) -> bool {
    forall|k: Reg| k < n ==> #[trigger] read(r2, k) == read(r1, k)
}

/// The code of a binary operation other than `and` changes only its
/// result register, and leaves there the operation's IR value when it has
/// one (for `or`, on operands `0` or `1`; `xor` has no code).
proof fn lemma_binary_code_runs(op: BinaryOp, rd: Reg, l: Reg, r: Reg, regs: Regs)
    requires
        op != BinaryOp::And,
        op != BinaryOp::Xor,
        rd != 0,
    ensures
        asm_run(crate::riscv::binary_code(op, rd, l, r), regs) matches AsmRun::Running(r2) && {
            &&& same_except(regs, r2, rd)
            &&& (op == BinaryOp::Or ==> boolean(Some(read(regs, l))) && boolean(Some(read(regs, r)))) ==> (ir_binary(
                op,
                read(regs, l),
                read(regs, r),
            ) matches Some(n) ==> read(r2, rd) == n)
        },
{
    let a = read(regs, l);
    let b = read(regs, r);
    let code = crate::riscv::binary_code(op, rd, l, r);
    lemma_bits(a, b);
    lemma_bits(b, a);
    match op {
        BinaryOp::Add => {
            lemma_asm_one(code[0], regs);
            assert(code =~= seq![code[0]]);
            if i32::MIN <= a + b <= i32::MAX { lemma_wrap_in_range(a + b); }
        },
        BinaryOp::Sub => {
            lemma_asm_one(code[0], regs);
            assert(code =~= seq![code[0]]);
            if i32::MIN <= a - b <= i32::MAX { lemma_wrap_in_range(a - b); }
        },
        BinaryOp::Mul => {
            lemma_asm_one(code[0], regs);
            assert(code =~= seq![code[0]]);
            if i32::MIN <= a * b <= i32::MAX { lemma_wrap_in_range(a * b); }
        },
        BinaryOp::Div | BinaryOp::Mod | BinaryOp::Lt | BinaryOp::Gt => {
            lemma_asm_one(code[0], regs);
            assert(code =~= seq![code[0]]);
        },
        BinaryOp::Eq | BinaryOp::NotEq | BinaryOp::Le | BinaryOp::Ge | BinaryOp::Or => {
            lemma_asm_two(code[0], code[1], regs);
            assert(code =~= seq![code[0], code[1]]);
            let r1 = asm_step(code[0], regs)->Some_0;
            lemma_asm_one(code[1], r1);
            let x = read(r1, rd);
            lemma_bits(x, 0);
            assert((x | 0i32) == x) by (bit_vector);
        },
        _ => {
            assert(code =~= Seq::<AsmInst>::empty());
        },
    }
}

/// The code of `and` changes only its result register and the two scratch
/// registers after the current ones, and leaves there the logical `and` of
/// its operands.
proof fn lemma_and_code_runs(st3: AsmState, rd: Reg, l: Reg, r: Reg, regs: Regs)
    requires
        rd != 0,
        l < st3.next,
        r < st3.next,
    ensures
        crate::riscv::and_code(st3, rd, l, r) matches Ok(st4) && {
            &&& st4.regs == st3.regs
            &&& st4.next == st3.next + 2
            &&& st3.out.is_prefix_of(st4.out)
            &&& asm_run(st4.out.skip(st3.out.len() as int), regs) matches AsmRun::Running(r2) && {
                &&& forall|k: Reg| k < st3.next && k != rd ==> #[trigger] read(r2, k) == read(regs, k)
                &&& read(r2, rd) == truth(read(regs, l) != 0 && read(regs, r) != 0)
            }
        } || crate::riscv::and_code(st3, rd, l, r) is Err,
{
    if let Ok(st4) = crate::riscv::and_code(st3, rd, l, r) {
        let lb = st3.next as Reg;
        let rb = (st3.next + 1) as Reg;
        let i1 = AsmInst::Test(RvTest::Snez, lb, l);
        let i2 = AsmInst::Test(RvTest::Snez, rb, r);
        let i3 = AsmInst::Op(RvOp::And, rd, lb, rb);
        assert(st4.out == st3.out + seq![i1] + seq![i2, i3]);
        assert(st4.out.skip(st3.out.len() as int) =~= seq![i1] + seq![i2, i3]);
        assert(st3.out =~= st4.out.subrange(0, st3.out.len() as int));
        lemma_asm_concat(seq![i1], seq![i2, i3], regs);
        lemma_asm_one(i1, regs);
        let r1 = asm_step(i1, regs)->Some_0;
        lemma_asm_two(i2, i3, r1);
        let r2 = asm_step(i2, r1)->Some_0;
        lemma_asm_one(i3, r2);
        lemma_bits(read(regs, l), read(regs, r));
    }
}

/// The code generated for the IR's `and` and `or` computes the logical
/// operators, whatever its operands hold: the result register ends with `1`
/// when both operands (for `or`, either of them) are nonzero, and `0`
/// otherwise.  (Its scratch registers for `and` are the two after `st`'s.)
pub proof fn law_and_or_code_is_logical(st: AsmState, rd: Reg, l: Reg, r: Reg, regs: Regs)
    requires
        rd != 0,
        l < st.next,
        r < st.next,
    ensures
        asm_run(crate::riscv::binary_code(BinaryOp::Or, rd, l, r), regs) matches AsmRun::Running(r2)
            && read(r2, rd) == truth(read(regs, l) != 0 || read(regs, r) != 0),
        crate::riscv::and_code(st, rd, l, r) matches Ok(st4) ==> (asm_run(st4.out.skip(st.out.len() as int), regs)
            matches AsmRun::Running(r2) && read(r2, rd) == truth(read(regs, l) != 0 && read(regs, r) != 0)),
{
    let a = read(regs, l);
    let b = read(regs, r);
    let code = crate::riscv::binary_code(BinaryOp::Or, rd, l, r);
    lemma_asm_two(code[0], code[1], regs);
    assert(code =~= seq![code[0], code[1]]);
    let r1 = asm_step(code[0], regs)->Some_0;
    lemma_asm_one(code[1], r1);
    assert(read(r1, rd) == a | b);
    assert(((a | b) != 0) == (a != 0 || b != 0)) by (bit_vector);
    lemma_and_code_runs(st, rd, l, r, regs);
}

/// The value on 32-bit machine integers of the IR's binary operation `op`,
/// as RV32 computes it: `+`, `-` and `*` wrap around; division and
/// remainder are RV32's (a division by zero gives `-1` and its remainder the
/// dividend; the one quotient that overflows gives the dividend and
/// remainder `0`); comparisons give `1` or `0`; `and` and `or` are the
/// logical operators.  The operations that have no code give `0`.
pub open spec fn machine_binary(op: BinaryOp, a: i32, b: i32) -> i32 {
    match op {
        BinaryOp::Add => wrap(a + b),
        BinaryOp::Sub => wrap(a - b),
        BinaryOp::Mul => wrap(a * b),
        BinaryOp::Div => rv_op(RvOp::Div, a, b),
        BinaryOp::Mod => rv_op(RvOp::Rem, a, b),
        BinaryOp::Eq => truth(a == b),
        BinaryOp::NotEq => truth(a != b),
        BinaryOp::Lt => truth(a < b),
        BinaryOp::Gt => truth(a > b),
        BinaryOp::Le => truth(a <= b),
        BinaryOp::Ge => truth(a >= b),
        BinaryOp::And => truth(a != 0 && b != 0),
        BinaryOp::Or => truth(a != 0 || b != 0),
        _ => 0,
    }
}

/// The code generated for a binary operation leaves in its result register
/// the operation's value on 32-bit machine integers (`machine_binary`),
/// whatever its operands hold, arithmetic that leaves the range of `i32`
/// included.  The code of an operation other than `and` changes no other
/// register; that of `and` uses the two scratch registers after `st`'s.
/// Where the IR gives the operation a value, other than for `and` and `or`,
/// it is that value.
pub proof fn law_binary_code_computes_wrapping(st: AsmState, op: BinaryOp, rd: Reg, l: Reg, r: Reg, regs: Regs)
    requires
        rd != 0,
        op != BinaryOp::Xor && op != BinaryOp::Shl && op != BinaryOp::Shr && op != BinaryOp::Sar,
        op == BinaryOp::And ==> l < st.next && r < st.next,
    ensures
        op != BinaryOp::And ==> (asm_run(crate::riscv::binary_code(op, rd, l, r), regs) matches AsmRun::Running(r2)
            && read(r2, rd) == machine_binary(op, read(regs, l), read(regs, r)) && same_except(regs, r2, rd)),
        op == BinaryOp::And ==> (crate::riscv::and_code(st, rd, l, r) matches Ok(st4) ==> (asm_run(
            st4.out.skip(st.out.len() as int),
            regs,
        ) matches AsmRun::Running(r2) && read(r2, rd) == machine_binary(op, read(regs, l), read(regs, r)))),
        op != BinaryOp::And && op != BinaryOp::Or ==> (ir_binary(op, read(regs, l), read(regs, r)) matches Some(n)
            ==> machine_binary(op, read(regs, l), read(regs, r)) == n),
{
    let a = read(regs, l);
    let b = read(regs, r);
    if op == BinaryOp::And {
        lemma_and_code_runs(st, rd, l, r, regs);
    } else {
        let code = crate::riscv::binary_code(op, rd, l, r);
        lemma_bits(a, b);
        lemma_bits(b, a);
        if i32::MIN <= a + b <= i32::MAX { lemma_wrap_in_range(a + b); }
        if i32::MIN <= a - b <= i32::MAX { lemma_wrap_in_range(a - b); }
        if i32::MIN <= a * b <= i32::MAX { lemma_wrap_in_range(a * b); }
        if op == BinaryOp::Div && b != 0 && !(a == i32::MIN && b == -1) {
            assert(ir_binary(op, a, b) matches Some(n) ==> n == trunc_div(a as int, b as int) as i32);
        }
        match op {
            BinaryOp::Add | BinaryOp::Sub | BinaryOp::Mul | BinaryOp::Div | BinaryOp::Mod | BinaryOp::Lt | BinaryOp::Gt => {
                lemma_asm_one(code[0], regs);
                assert(code =~= seq![code[0]]);
            },
            _ => {
                lemma_asm_two(code[0], code[1], regs);
                assert(code =~= seq![code[0], code[1]]);
                let r1 = asm_step(code[0], regs)->Some_0;
                lemma_asm_one(code[1], r1);
                let x = read(r1, rd);
                lemma_bits(x, 0);
                assert((x | 0i32) == x) by (bit_vector);
                assert(((a | b) != 0) == (a != 0 || b != 0)) by (bit_vector);
            },
        }
    }
}

/// The registers of `st` hold the values they were taken for: every value
/// with a register has one of the taken registers, which holds the value
/// when it has one.
pub open spec fn regs_hold(vals: Seq<ValueKind>, st: AsmState, regs: Regs) -> bool {
    &&& 1 <= st.next <= crate::riscv::NUM_REGS
    &&& forall|v: Value| #[trigger] st.regs.contains_key(v) ==> {
        &&& 1 <= st.regs[v] < st.next
        &&& pure_value(vals, v) matches Some(x) ==> read(regs, st.regs[v]) == x
    }
}

/// The code added from `st` to `st1`.
pub open spec fn new_code(st: AsmState, st1: AsmState) -> Seq<AsmInst> {
    st1.out.skip(st.out.len() as int)
}

proof fn lemma_code_split(a: AsmState, b: AsmState, c: AsmState)
    requires
        a.out.is_prefix_of(b.out),
        b.out.is_prefix_of(c.out),
    ensures
        a.out.is_prefix_of(c.out),
        new_code(a, c) == new_code(a, b) + new_code(b, c),
{
    assert forall|i: int| 0 <= i < a.out.len() implies a.out[i] == c.out[i] by {
        assert(a.out[i] == b.out.subrange(0, a.out.len() as int)[i]);
        assert(b.out[i] == c.out.subrange(0, b.out.len() as int)[i]);
    }
    assert(a.out =~= c.out.subrange(0, a.out.len() as int));
    assert(new_code(a, c) =~= new_code(a, b) + new_code(b, c));
}

proof fn lemma_no_code(a: AsmState)
    ensures
        a.out.is_prefix_of(a.out),
        new_code(a, a) == Seq::<AsmInst>::empty(),
{
    assert(a.out =~= a.out.subrange(0, a.out.len() as int));
    assert(new_code(a, a) =~= Seq::<AsmInst>::empty());
}

/// The code of a value that is not a return runs to its end, keeps the
/// registers already taken, and leaves the value in the register it takes:
/// started from registers that hold the values already placed, the code of
/// an integer or a binary operation ends with the value's meaning (its IR
/// value, computed from constants) in the value's register, for operations
/// whose code computes their IR meaning (see `ops_supported`).
pub proof fn law_value_code_computes_its_value(vals: Seq<ValueKind>, v: Value, st: AsmState, regs: Regs)
    requires
        crate::ir::values_wf(vals),
        ops_supported(vals),
        v < vals.len(),
        !(vals[v as int] is Return),
        regs_hold(vals, st, regs),
    ensures
        crate::riscv::value_code(vals, v, st) matches Ok(st1) ==> {
            &&& st.out.is_prefix_of(st1.out)
            &&& st.next <= st1.next
            &&& (vals[v as int] is Integer || vals[v as int] is Binary) ==> st1.regs.contains_key(v)
            &&& asm_run(new_code(st, st1), regs) matches AsmRun::Running(r1) && {
                &&& regs_hold(vals, st1, r1)
                &&& same_below(regs, r1, st.next)
            }
        },
    decreases v, 0int,
{
    assert(crate::ir::kind_wf(vals, v as int, vals[v as int]));
    match vals[v as int] {
        ValueKind::Integer(i) => {
            if st.next < crate::riscv::NUM_REGS {
                let rd = st.next as Reg;
                let st1 = crate::riscv::value_code(vals, v, st)->Ok_0;
                assert(st1.out == st.out + seq![AsmInst::Li(rd, i)]);
                assert(new_code(st, st1) =~= seq![AsmInst::Li(rd, i)]);
                assert(st.out =~= st1.out.subrange(0, st.out.len() as int));
                lemma_asm_one(AsmInst::Li(rd, i), regs);
                let r1 = asm_step(AsmInst::Li(rd, i), regs)->Some_0;
                assert forall|w: Value| #[trigger] st1.regs.contains_key(w) implies {
                    &&& 1 <= st1.regs[w] < st1.next
                    &&& pure_value(vals, w) matches Some(x) ==> read(r1, st1.regs[w]) == x
                } by {
                    if w != v {
                        assert(st.regs.contains_key(w));
                    }
                }
            }
        },
        ValueKind::Binary(op, l, r) => {
            if let Ok(st4) = crate::riscv::value_code(vals, v, st) {
                lemma_operand_runs(vals, l, st, regs);
                let (st1, lr) = crate::riscv::operand_reg(vals, l, st)->Ok_0;
                let r1 = asm_run(new_code(st, st1), regs)->Running_0;
                lemma_operand_runs(vals, r, st1, r1);
                let (st2, rr) = crate::riscv::operand_reg(vals, r, st1)->Ok_0;
                let r2 = asm_run(new_code(st1, st2), r1)->Running_0;
                let rd = st2.next as Reg;
                let st3 = AsmState { regs: st2.regs.insert(v, rd), next: st2.next + 1, out: st2.out };
                assert(read(r2, lr) == read(r1, lr));
                lemma_code_split(st, st1, st2);
                lemma_asm_concat(new_code(st, st1), new_code(st1, st2), regs);
                let a = read(r2, lr);
                let b = read(r2, rr);
                assert(pure_value(vals, v) == (match (pure_value(vals, l), pure_value(vals, r)) {
                    (Some(x), Some(y)) => ir_binary(op, x, y),
                    _ => None,
                }));
                if op == BinaryOp::And {
                    lemma_and_code_runs(st3, rd, lr, rr, r2);
                    let r3 = asm_run(new_code(st3, st4), r2)->Running_0;
                    assert(new_code(st2, st4) == new_code(st3, st4));
                    lemma_code_split(st, st2, st4);
                    lemma_asm_concat(new_code(st, st2), new_code(st2, st4), regs);
                    lemma_bits(a, b);
                    assert forall|w: Value| #[trigger] st4.regs.contains_key(w) implies {
                        &&& 1 <= st4.regs[w] < st4.next
                        &&& pure_value(vals, w) matches Some(x) ==> read(r3, st4.regs[w]) == x
                    } by {
                        if w != v {
                            assert(st2.regs.contains_key(w));
                        }
                    }
                } else {
                    let code = crate::riscv::binary_code(op, rd, lr, rr);
                    assert(st4 == crate::riscv::emit(st3, code));
                    assert(new_code(st2, st4) =~= code);
                    assert(st2.out =~= st4.out.subrange(0, st2.out.len() as int));
                    assert(vals[v as int] == ValueKind::Binary(op, l, r));
                    lemma_binary_code_runs(op, rd, lr, rr, r2);
                    let r3 = asm_run(code, r2)->Running_0;
                    lemma_code_split(st, st2, st4);
                    lemma_asm_concat(new_code(st, st2), new_code(st2, st4), regs);
                    assert forall|w: Value| #[trigger] st4.regs.contains_key(w) implies {
                        &&& 1 <= st4.regs[w] < st4.next
                        &&& pure_value(vals, w) matches Some(x) ==> read(r3, st4.regs[w]) == x
                    } by {
                        if w != v {
                            assert(st2.regs.contains_key(w));
                        }
                    }
                }
            }
        },
        _ => {
            if let Ok(st1) = crate::riscv::value_code(vals, v, st) {
                lemma_no_code(st);
                assert(asm_run(Seq::<AsmInst>::empty(), regs) == AsmRun::Running(regs));
            }
        },
    }
}

/// Getting the register of an operand runs to its end, keeps the registers
/// already taken, and gives a register that holds the operand's value.
proof fn lemma_operand_runs(vals: Seq<ValueKind>, u: Value, st: AsmState, regs: Regs)
    requires
        crate::ir::values_wf(vals),
        ops_supported(vals),
        crate::ir::is_i32_value(vals, u),
        regs_hold(vals, st, regs),
    ensures
        crate::riscv::operand_reg(vals, u, st) matches Ok((st1, reg)) ==> {
            &&& st.out.is_prefix_of(st1.out)
            &&& st.next <= st1.next
            &&& reg < st1.next
            &&& asm_run(new_code(st, st1), regs) matches AsmRun::Running(r1) && {
                &&& regs_hold(vals, st1, r1)
                &&& same_below(regs, r1, st.next)
                &&& pure_value(vals, u) matches Some(x) ==> read(r1, reg) == x
            }
        },
    decreases u, 1int,
{
    if st.regs.contains_key(u) {
        lemma_no_code(st);
        assert(asm_run(Seq::<AsmInst>::empty(), regs) == AsmRun::Running(regs));
    } else if vals[u as int] == ValueKind::Integer(0) {
        lemma_no_code(st);
        assert(asm_run(Seq::<AsmInst>::empty(), regs) == AsmRun::Running(regs));
    } else {
        law_value_code_computes_its_value(vals, u, st, regs);
    }
}

/// The operand of the first return among the instructions `insts`: none
/// when no instruction returns.
pub open spec fn first_return(vals: Seq<ValueKind>, insts: Seq<Value>) -> Option<Option<Value>>
    decreases insts.len(),
{
    if insts.len() == 0 {
        None
    } else if insts[0] < vals.len() && vals[insts[0] as int] is Return {
        Some(
            match vals[insts[0] as int] {
                ValueKind::Return(r) => r,
                _ => None,
            },
        )
    } else {
        first_return(vals, insts.drop_first())
    }
}

/// The code of a return leaves the returned value in `a0` and returns.
proof fn lemma_return_runs(vals: Seq<ValueKind>, v: Value, st: AsmState, regs: Regs)
    requires
        crate::ir::values_wf(vals),
        ops_supported(vals),
        v < vals.len(),
        vals[v as int] is Return,
        regs_hold(vals, st, regs),
    ensures
        crate::riscv::value_code(vals, v, st) matches Ok(st1) ==> {
            &&& st.out.is_prefix_of(st1.out)
            &&& asm_run(new_code(st, st1), regs) matches AsmRun::Returned(n) && (match vals[v as int] {
                ValueKind::Return(Some(x)) => pure_value(vals, x) matches Some(y) ==> n == y,
                _ => true,
            })
            &&& exists|r1: Regs| regs_hold(vals, st1, r1)
        },
{
    assert(crate::ir::kind_wf(vals, v as int, vals[v as int]));
    if let Ok(st2) = crate::riscv::value_code(vals, v, st) {
        match vals[v as int] {
            ValueKind::Return(Some(x)) => {
                lemma_operand_runs(vals, x, st, regs);
                let (st1, rr) = crate::riscv::operand_reg(vals, x, st)->Ok_0;
                let r1 = asm_run(new_code(st, st1), regs)->Running_0;
                let tail = if rr != A0 { seq![AsmInst::Mv(A0, rr), AsmInst::Ret] } else { seq![AsmInst::Ret] };
                assert(st2 == crate::riscv::emit(st1, tail));
                assert(new_code(st1, st2) =~= tail);
                assert(st1.out =~= st2.out.subrange(0, st1.out.len() as int));
                lemma_code_split(st, st1, st2);
                lemma_asm_concat(new_code(st, st1), tail, regs);
                if rr != A0 {
                    lemma_asm_two(AsmInst::Mv(A0, rr), AsmInst::Ret, r1);
                    let r2 = asm_step(AsmInst::Mv(A0, rr), r1)->Some_0;
                    lemma_asm_one(AsmInst::Ret, r2);
                } else {
                    lemma_asm_one(AsmInst::Ret, r1);
                }
                assert(regs_hold(vals, st2, r1));
            },
            _ => {
                let tail = seq![AsmInst::Ret];
                assert(st2 == crate::riscv::emit(st, tail));
                assert(new_code(st, st2) =~= tail);
                assert(st.out =~= st2.out.subrange(0, st.out.len() as int));
                lemma_asm_one(AsmInst::Ret, regs);
                assert(regs_hold(vals, st2, regs));
            },
        }
    }
}

/// The code of instructions runs to its end when none of them returns, and
/// otherwise returns, at the code of the first return, the value that it
/// returns.
proof fn lemma_insts_run(vals: Seq<ValueKind>, insts: Seq<Value>, st: AsmState, regs: Regs)
    requires
        crate::ir::values_wf(vals),
        ops_supported(vals),
        crate::ir::insts_wf(vals, insts),
        regs_hold(vals, st, regs),
    ensures
        crate::riscv::insts_code(vals, insts, st) matches Ok(st1) ==> {
            &&& st.out.is_prefix_of(st1.out)
            &&& match first_return(vals, insts) {
                None => asm_run(new_code(st, st1), regs) is Running,
                Some(r) => asm_run(new_code(st, st1), regs) matches AsmRun::Returned(n) && (r matches Some(x)
                    ==> (pure_value(vals, x) matches Some(y) ==> n == y)),
            }
        },
    decreases insts.len(),
{
    if insts.len() == 0 {
        if let Ok(st1) = crate::riscv::insts_code(vals, insts, st) {
            lemma_no_code(st);
            assert(asm_run(Seq::<AsmInst>::empty(), regs) == AsmRun::Running(regs));
        }
    } else {
        let v = insts[0];
        assert(v < vals.len());
        let rest = insts.drop_first();
        assert(crate::ir::insts_wf(vals, rest)) by {
            assert forall|j: int| 0 <= j < rest.len() implies #[trigger] rest[j] < vals.len() by {
                assert(rest[j] == insts[j + 1]);
            }
        }
        if let Ok(st2) = crate::riscv::insts_code(vals, insts, st) {
            let st1 = crate::riscv::value_code(vals, v, st)->Ok_0;
            if vals[v as int] is Return {
                lemma_return_runs(vals, v, st, regs);
                let r1 = choose|r1: Regs| regs_hold(vals, st1, r1);
                lemma_insts_run(vals, rest, st1, r1);
            } else {
                law_value_code_computes_its_value(vals, v, st, regs);
                let r1 = asm_run(new_code(st, st1), regs)->Running_0;
                lemma_insts_run(vals, rest, st1, r1);
            }
            lemma_code_split(st, st1, st2);
            lemma_asm_concat(new_code(st, st1), new_code(st1, st2), regs);
        }
    }
}

/// The code generated for a basic block returns, at its first `ret`, the
/// value of the block's first return instruction, whatever the registers
/// held before; when no instruction returns, it runs to its end.  The
/// values of the block are taken by their meaning in the IR that does not
/// read memory (the generator gives loads no register).  This holds of
/// functions without `xor`, for which no code is emitted, and whose `and`
/// and `or` have operands `0` or `1`: their code computes the logical
/// operators, the IR's `and` and `or` work bit by bit.
pub proof fn law_block_code_returns_its_value(vals: Seq<ValueKind>, insts: Seq<Value>, regs: Regs)
    requires
        crate::ir::values_wf(vals),
        crate::ir::insts_wf(vals, insts),
        ops_supported(vals),
    ensures
        crate::riscv::insts_code(vals, insts, crate::riscv::block_start()) matches Ok(st) ==> match first_return(
            vals,
            insts,
        ) {
            None => asm_run(st.out, regs) is Running,
            Some(r) => asm_run(st.out, regs) matches AsmRun::Returned(n) && (r matches Some(x) ==> (pure_value(
                vals,
                x,
            ) matches Some(y) ==> n == y)),
        },
{
    let st0 = crate::riscv::block_start();
    assert(regs_hold(vals, st0, regs));
    lemma_insts_run(vals, insts, st0, regs);
    if let Ok(st) = crate::riscv::insts_code(vals, insts, st0) {
        assert(new_code(st0, st) =~= st.out);
    }
}

} // verus!
