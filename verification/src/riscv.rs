//! RISC-V code generation from the IR.
//!
//! Registers are handed out in order within each basic block: `t0`..`t6`,
//! then `a0`..`a7`; the integer `0` is read from `x0`.
use std::collections::HashMap;
use vstd::prelude::*;

use crate::error::{CompileError, Fault, rview};
use crate::ir::{BasicBlockData, BinaryOp, FunctionData, Program, Value, ValueKind, values_wf};

verus! {

broadcast use vstd::std_specs::hash::group_hash_axioms;

/// A register, by its index in `x0, t0..t6, a0..a7`.
pub type Reg = usize;

/// The number of registers.
pub const NUM_REGS: usize = 16;

/// The register `a0`, which holds a function's result.
pub const A0: Reg = 8;

/// The three-register operations that the generator emits.
#[derive(Clone, Copy, PartialEq, Eq, Structural, Debug)]
pub enum RvOp {
    Add,
    Sub,
    Mul,
    Div,
    Rem,
    Xor,
    Slt,
    And,
    Or,
}

/// The two-register tests that the generator emits.
#[derive(Clone, Copy, PartialEq, Eq, Structural, Debug)]
pub enum RvTest {
    Seqz,
    Snez,
}

/// An emitted instruction.
#[derive(Clone, Copy, PartialEq, Eq, Structural, Debug)]
pub enum AsmInst {
    /// `li rd, imm`
    Li(Reg, i32),
    /// `op rd, rs1, rs2`
    Op(RvOp, Reg, Reg, Reg),
    /// `seqz rd, rs` or `snez rd, rs`
    Test(RvTest, Reg, Reg),
    /// `xori rd, rs, imm`
    Xori(Reg, Reg, i32),
    /// `mv rd, rs`
    Mv(Reg, Reg),
    /// `ret`
    Ret,
}

/// The state of register allocation within a basic block: the register of
/// each value generated so far, the next free register, and the code.
#[verifier::ext_equal]
pub struct AsmState {
    pub regs: Map<Value, Reg>,
    pub next: nat,
    pub out: Seq<AsmInst>,
}

/// Takes the next free register for value `v`.
pub open spec fn take_reg(st: AsmState, v: Value) -> Result<(AsmState, Reg), Fault> {
    if st.next >= NUM_REGS {
        Err(Fault::RegisterExhausted)
    } else {
        Ok((AsmState { regs: st.regs.insert(v, st.next as Reg), next: st.next + 1, out: st.out }, st.next as Reg))
    }
}

/// Takes the next free register as a scratch register.
pub open spec fn take_temp(st: AsmState) -> Result<(AsmState, Reg), Fault> {
    if st.next >= NUM_REGS {
        Err(Fault::RegisterExhausted)
    } else {
        Ok((AsmState { regs: st.regs, next: st.next + 1, out: st.out }, st.next as Reg))
    }
}

/// `st` with `insts` appended to its code.
pub open spec fn emit(st: AsmState, insts: Seq<AsmInst>) -> AsmState {
    AsmState { regs: st.regs, next: st.next, out: st.out + insts }
}

/// The code of a binary operation with result register `rd` and operand
/// registers `l`, `r`; `t1`, `t2` are scratch registers for `&&`.
pub open spec fn binary_code(op: BinaryOp, rd: Reg, l: Reg, r: Reg) -> Seq<AsmInst> {
    match op {
        BinaryOp::Add => seq![AsmInst::Op(RvOp::Add, rd, l, r)],
        BinaryOp::Sub => seq![AsmInst::Op(RvOp::Sub, rd, l, r)],
        BinaryOp::Mul => seq![AsmInst::Op(RvOp::Mul, rd, l, r)],
        BinaryOp::Div => seq![AsmInst::Op(RvOp::Div, rd, l, r)],
        BinaryOp::Mod => seq![AsmInst::Op(RvOp::Rem, rd, l, r)],
        BinaryOp::Eq => seq![AsmInst::Op(RvOp::Xor, rd, l, r), AsmInst::Test(RvTest::Seqz, rd, rd)],
        BinaryOp::NotEq => seq![AsmInst::Op(RvOp::Xor, rd, l, r), AsmInst::Test(RvTest::Snez, rd, rd)],
        BinaryOp::Lt => seq![AsmInst::Op(RvOp::Slt, rd, l, r)],
        BinaryOp::Gt => seq![AsmInst::Op(RvOp::Slt, rd, r, l)],
        BinaryOp::Le => seq![AsmInst::Op(RvOp::Slt, rd, r, l), AsmInst::Xori(rd, rd, 1)],
        BinaryOp::Ge => seq![AsmInst::Op(RvOp::Slt, rd, l, r), AsmInst::Xori(rd, rd, 1)],
        BinaryOp::Or => seq![AsmInst::Op(RvOp::Or, rd, l, r), AsmInst::Test(RvTest::Snez, rd, rd)],
        _ => seq![],
    }
}

/// The code of `&&`: both operands turned into booleans in scratch
/// registers, then combined.
pub open spec fn and_code(st: AsmState, rd: Reg, l: Reg, r: Reg) -> Result<AsmState, Fault> {
    match take_temp(st) {
        Err(f) => Err(f),
        Ok((st1, lb)) => match take_temp(emit(st1, seq![AsmInst::Test(RvTest::Snez, lb, l)])) {
            Err(f) => Err(f),
            Ok((st2, rb)) => Ok(emit(st2, seq![AsmInst::Test(RvTest::Snez, rb, r), AsmInst::Op(RvOp::And, rd, lb, rb)])),
        },
    }
}

/// The code of value `v` of a function whose values are `vals`.  An
/// integer is loaded into a new register; a binary operation first makes
/// sure that its operands have registers, left first, then takes a
/// register for its result; a return moves its value into `a0` when it is
/// not there already.  Other values have no code.
pub open spec fn value_code(vals: Seq<ValueKind>, v: Value, st: AsmState) -> Result<AsmState, Fault>
    decreases v, 0int,
{
    if v >= vals.len() {
        Ok(st)
    } else {
        match vals[v as int] {
            ValueKind::Integer(i) => match take_reg(st, v) {
                Err(f) => Err(f),
                Ok((st1, rd)) => Ok(emit(st1, seq![AsmInst::Li(rd, i)])),
            },
            ValueKind::Binary(op, l, r) => if l < v && r < v {
                match operand_reg(vals, l, st) {
                    Err(f) => Err(f),
                    Ok((st1, lr)) => match operand_reg(vals, r, st1) {
                        Err(f) => Err(f),
                        Ok((st2, rr)) => match take_reg(st2, v) {
                            Err(f) => Err(f),
                            Ok((st3, rd)) => if op == BinaryOp::And {
                                and_code(st3, rd, lr, rr)
                            } else {
                                Ok(emit(st3, binary_code(op, rd, lr, rr)))
                            },
                        },
                    },
                }
            } else {
                Err(Fault::NoRegister)
            },
            ValueKind::Return(ret) => match ret {
                Some(x) => if x < v {
                    match operand_reg(vals, x, st) {
                        Err(f) => Err(f),
                        Ok((st1, rr)) => Ok(emit(
                            st1,
                            if rr != A0 { seq![AsmInst::Mv(A0, rr), AsmInst::Ret] } else { seq![AsmInst::Ret] },
                        )),
                    }
                } else {
                    Err(Fault::NoRegister)
                },
                None => Ok(emit(st, seq![AsmInst::Ret])),
            },
            _ => Ok(st),
        }
    }
}

/// The register that holds value `u`, generating its code if it has none
/// yet; the integer `0` is `x0`.
pub open spec fn operand_reg(vals: Seq<ValueKind>, u: Value, st: AsmState) -> Result<(AsmState, Reg), Fault>
    decreases u, 1int,
{
    if st.regs.contains_key(u) {
        Ok((st, st.regs[u]))
    } else if u < vals.len() && vals[u as int] == ValueKind::Integer(0) {
        Ok((st, 0))
    } else {
        match value_code(vals, u, st) {
            Err(f) => Err(f),
            Ok(st1) => if st1.regs.contains_key(u) {
                Ok((st1, st1.regs[u]))
            } else {
                Err(Fault::NoRegister)
            },
        }
    }
}

/// Whether a register index names a register.
pub open spec fn is_reg(r: Reg) -> bool {
    r < NUM_REGS
}

/// Whether every register of an instruction names a register.
pub open spec fn inst_ok(i: AsmInst) -> bool {
    match i {
        AsmInst::Li(rd, _) => is_reg(rd),
        AsmInst::Op(_, rd, a, b) => is_reg(rd) && is_reg(a) && is_reg(b),
        AsmInst::Test(_, rd, a) => is_reg(rd) && is_reg(a),
        AsmInst::Xori(rd, a, _) => is_reg(rd) && is_reg(a),
        AsmInst::Mv(rd, a) => is_reg(rd) && is_reg(a),
        AsmInst::Ret => true,
    }
}

/// The allocation state is sane: the next register is at most one past the
/// last, every allocated register exists, and so does every register of
/// the code.
pub open spec fn state_ok(st: AsmState) -> bool {
    &&& st.next <= NUM_REGS
    &&& forall|k: Value| #[trigger] st.regs.contains_key(k) ==> is_reg(st.regs[k])
    &&& forall|j: int| 0 <= j < st.out.len() ==> inst_ok(#[trigger] st.out[j])
}

/// The name of a register.
pub open spec fn reg_text(r: Reg) -> Seq<char> {
    match r {
        0 => "x0"@,
        1 => "t0"@,
        2 => "t1"@,
        3 => "t2"@,
        4 => "t3"@,
        5 => "t4"@,
        6 => "t5"@,
        7 => "t6"@,
        8 => "a0"@,
        9 => "a1"@,
        10 => "a2"@,
        11 => "a3"@,
        12 => "a4"@,
        13 => "a5"@,
        14 => "a6"@,
        _ => "a7"@,
    }
}

/// The name of a register.
pub fn reg_name(r: Reg) -> (s: &'static str)
    requires
        is_reg(r),
    ensures
        s@ == reg_text(r),
{
    match r {
        0 => "x0",
        1 => "t0",
        2 => "t1",
        3 => "t2",
        4 => "t3",
        5 => "t4",
        6 => "t5",
        7 => "t6",
        8 => "a0",
        9 => "a1",
        10 => "a2",
        11 => "a3",
        12 => "a4",
        13 => "a5",
        14 => "a6",
        _ => "a7",
    }
}

/// The character of a decimal digit.
pub open spec fn digit_text(d: nat) -> Seq<char> {
    if d == 0 {
        "0"@
    } else if d == 1 {
        "1"@
    } else if d == 2 {
        "2"@
    } else if d == 3 {
        "3"@
    } else if d == 4 {
        "4"@
    } else if d == 5 {
        "5"@
    } else if d == 6 {
        "6"@
    } else if d == 7 {
        "7"@
    } else if d == 8 {
        "8"@
    } else {
        "9"@
    }
}

/// The decimal digits of `n`, most significant first, without leading
/// zeros.
pub open spec fn nat_text(n: nat) -> Seq<char>
    decreases n,
{
    if n < 10 {
        digit_text(n)
    } else {
        nat_text(n / 10) + digit_text(n % 10)
    }
}

/// The decimal text of an integer, with a leading `-` when negative.
pub open spec fn int_text(i: i32) -> Seq<char> {
    if i < 0 {
        "-"@ + nat_text((-i) as nat)
    } else {
        nat_text(i as nat)
    }
}

fn digit_str(d: u32) -> (s: &'static str)
    requires
        d < 10,
    ensures
        s@ == digit_text(d as nat),
{
    match d {
        0 => "0",
        1 => "1",
        2 => "2",
        3 => "3",
        4 => "4",
        5 => "5",
        6 => "6",
        7 => "7",
        8 => "8",
        _ => "9",
    }
}

/// Appends the decimal digits of `n`.
fn push_nat(n: u32, buf: &mut String)
    ensures
        final(buf)@ == old(buf)@ + nat_text(n as nat),
    decreases n,
{
    if n >= 10 {
        push_nat(n / 10, buf);
    }
    buf.append(digit_str(n % 10));
    assert(final(buf)@ =~= old(buf)@ + nat_text(n as nat));
}

/// Appends the decimal text of `i`.
pub fn push_int(i: i32, buf: &mut String)
    ensures
        final(buf)@ == old(buf)@ + int_text(i),
{
    if i < 0 {
        buf.append("-");
        let m: u32 = if i == i32::MIN { 2147483648u32 } else { (-i) as u32 };
        push_nat(m, buf);
        assert(final(buf)@ =~= old(buf)@ + int_text(i));
    } else {
        push_nat(i as u32, buf);
    }
}

/// The mnemonic of a three-register operation.
pub open spec fn op_text(op: RvOp) -> Seq<char> {
    match op {
        RvOp::Add => "add"@,
        RvOp::Sub => "sub"@,
        RvOp::Mul => "mul"@,
        RvOp::Div => "div"@,
        RvOp::Rem => "rem"@,
        RvOp::Xor => "xor"@,
        RvOp::Slt => "slt"@,
        RvOp::And => "and"@,
        RvOp::Or => "or"@,
    }
}

fn op_name(op: RvOp) -> (s: &'static str)
    ensures
        s@ == op_text(op),
{
    match op {
        RvOp::Add => "add",
        RvOp::Sub => "sub",
        RvOp::Mul => "mul",
        RvOp::Div => "div",
        RvOp::Rem => "rem",
        RvOp::Xor => "xor",
        RvOp::Slt => "slt",
        RvOp::And => "and",
        RvOp::Or => "or",
    }
}

/// The line of assembly of an instruction.
pub open spec fn inst_text(i: AsmInst) -> Seq<char> {
    match i {
        AsmInst::Li(rd, imm) => "  li "@ + reg_text(rd) + ", "@ + int_text(imm) + "\n"@,
        AsmInst::Op(op, rd, a, b) => "  "@ + op_text(op) + " "@ + reg_text(rd) + ", "@ + reg_text(a) + ", "@
            + reg_text(b) + "\n"@,
        AsmInst::Test(t, rd, a) => (match t {
            RvTest::Seqz => "  seqz "@,
            RvTest::Snez => "  snez "@,
        }) + reg_text(rd) + ", "@ + reg_text(a) + "\n"@,
        AsmInst::Xori(rd, a, imm) => "  xori "@ + reg_text(rd) + ", "@ + reg_text(a) + ", "@ + int_text(imm) + "\n"@,
        AsmInst::Mv(rd, a) => "  mv "@ + reg_text(rd) + ", "@ + reg_text(a) + "\n"@,
        AsmInst::Ret => "  ret\n"@,
    }
}

/// The text of a sequence of instructions, one line each.
pub open spec fn render(out: Seq<AsmInst>) -> Seq<char>
    decreases out.len(),
{
    if out.len() == 0 {
        Seq::empty()
    } else {
        render(out.drop_last()) + inst_text(out.last())
    }
}

/// Appends the line of an instruction.
fn render_inst(i: AsmInst, buf: &mut String)
    requires
        inst_ok(i),
    ensures
        final(buf)@ == old(buf)@ + inst_text(i),
{
    match i {
        AsmInst::Li(rd, imm) => {
            buf.append("  li ");
            buf.append(reg_name(rd));
            buf.append(", ");
            push_int(imm, buf);
            buf.append("\n");
        },
        AsmInst::Op(op, rd, a, b) => {
            buf.append("  ");
            buf.append(op_name(op));
            buf.append(" ");
            buf.append(reg_name(rd));
            buf.append(", ");
            buf.append(reg_name(a));
            buf.append(", ");
            buf.append(reg_name(b));
            buf.append("\n");
        },
        AsmInst::Test(t, rd, a) => {
            match t {
                RvTest::Seqz => buf.append("  seqz "),
                RvTest::Snez => buf.append("  snez "),
            }
            buf.append(reg_name(rd));
            buf.append(", ");
            buf.append(reg_name(a));
            buf.append("\n");
        },
        AsmInst::Xori(rd, a, imm) => {
            buf.append("  xori ");
            buf.append(reg_name(rd));
            buf.append(", ");
            buf.append(reg_name(a));
            buf.append(", ");
            push_int(imm, buf);
            buf.append("\n");
        },
        AsmInst::Mv(rd, a) => {
            buf.append("  mv ");
            buf.append(reg_name(rd));
            buf.append(", ");
            buf.append(reg_name(a));
            buf.append("\n");
        },
        AsmInst::Ret => buf.append("  ret\n"),
    }
    assert(final(buf)@ =~= old(buf)@ + inst_text(i));
}

/// Appends the lines of a sequence of instructions.
pub fn render_insts(out: &Vec<AsmInst>, buf: &mut String)
    requires
        forall|j: int| 0 <= j < out@.len() ==> inst_ok(#[trigger] out@[j]),
    ensures
        final(buf)@ == old(buf)@ + render(out@),
{
    let mut i: usize = 0;
    assert(out@.take(0) =~= Seq::<AsmInst>::empty());
    while i < out.len()
        invariant
            i <= out@.len(),
            forall|j: int| 0 <= j < out@.len() ==> inst_ok(#[trigger] out@[j]),
            buf@ == old(buf)@ + render(out@.take(i as int)),
        decreases out@.len() - i,
    {
        render_inst(out[i], buf);
        assert(out@.take(i + 1).drop_last() =~= out@.take(i as int));
        assert(buf@ =~= old(buf)@ + render(out@.take(i + 1)));
        i = i + 1;
    }
    assert(out@.take(i as int) =~= out@);
}

/// The allocation state held by the generator's variables.
pub open spec fn state_of(reg_map: &HashMap<Value, Reg>, next_reg: usize, out: &Vec<AsmInst>) -> AsmState {
    AsmState { regs: reg_map@, next: next_reg as nat, out: out@ }
}

/// Takes the next free register as a scratch register.  When every
/// register is taken, the generator stops with `RegisterExhausted`
/// ("register exhausted: need more than 15 regs"), and the counter stays.
fn new_temp(next_reg: &mut usize) -> (r: Result<Reg, CompileError>)
    requires
        *old(next_reg) <= NUM_REGS,
    ensures
        r is Err ==> *final(next_reg) == *old(next_reg),
        match take_temp(AsmState { regs: Map::empty(), next: *old(next_reg) as nat, out: Seq::empty() }) {
            Ok((st, reg)) => r == Ok::<Reg, CompileError>(reg) && *final(next_reg) == st.next && is_reg(reg),
            Err(f) => rview(r) == Err::<Reg, Fault>(f),
        },
{
    if *next_reg >= NUM_REGS {
        return Err(CompileError::RegisterExhausted);
    }
    let reg = *next_reg;
    *next_reg = *next_reg + 1;
    Ok(reg)
}

/// Takes the next free register for `value`.  When every register is
/// taken, the generator stops with `RegisterExhausted` ("register
/// exhausted: need more than 15 regs"), and the map and the counter stay.
fn alloc_reg(value: Value, reg_map: &mut HashMap<Value, Reg>, next_reg: &mut usize) -> (r: Result<Reg, CompileError>)
    requires
        *old(next_reg) <= NUM_REGS,
    ensures
        r is Err ==> final(reg_map)@ == old(reg_map)@ && *final(next_reg) == *old(next_reg),
        match take_reg(AsmState { regs: old(reg_map)@, next: *old(next_reg) as nat, out: Seq::empty() }, value) {
            Ok((st, reg)) => r == Ok::<Reg, CompileError>(reg) && *final(next_reg) == st.next && final(reg_map)@ == st.regs
                && is_reg(reg),
            Err(f) => rview(r) == Err::<Reg, Fault>(f),
        },
{
    if *next_reg >= NUM_REGS {
        return Err(CompileError::RegisterExhausted);
    }
    let reg = *next_reg;
    *next_reg = *next_reg + 1;
    reg_map.insert(value, reg);
    Ok(reg)
}

/// Appends `i` to the code.
fn put(out: &mut Vec<AsmInst>, i: AsmInst)
    ensures
        final(out)@ == old(out)@ + seq![i],
{
    out.push(i);
    assert(out@ =~= old(out)@ + seq![i]);
}

/// The register that holds `value`, generating its code first if needed.
/// A value whose code gives it no register (an allocation, a load that the
/// generator does not place, a store) cannot be an operand: the generator
/// stops with `NoRegister` ("operand has no register"), and for an
/// allocation, a load or a store that has no register yet nothing is
/// generated.
fn ensure_reg(
    value: Value,
    func: &FunctionData,
    out: &mut Vec<AsmInst>,
    reg_map: &mut HashMap<Value, Reg>,
    next_reg: &mut usize,
) -> (r: Result<Reg, CompileError>)
    requires
        values_wf(func.values@),
        value < func.values@.len(),
        state_ok(state_of(old(reg_map), *old(next_reg), old(out))),
    ensures
        match operand_reg(func.values@, value, state_of(old(reg_map), *old(next_reg), old(out))) {
            Ok((st, reg)) => r == Ok::<Reg, CompileError>(reg) && state_of(final(reg_map), *final(next_reg), final(out)) == st
                && state_ok(st) && is_reg(reg),
            Err(f) => rview(r) == Err::<Reg, Fault>(f),
        },
        !old(reg_map)@.contains_key(value) && (func.values@[value as int] is Alloc || func.values@[value as int] is Load
            || func.values@[value as int] is Store) ==> rview(r) == Err::<Reg, Fault>(Fault::NoRegister) && state_of(
            final(reg_map),
            *final(next_reg),
            final(out),
        ) == state_of(old(reg_map), *old(next_reg), old(out)),
    decreases value, 1int,
{
    match reg_map.get(&value) {
        Some(reg) => return Ok(*reg),
        None => {},
    }
    match func.values[value] {
        ValueKind::Integer(i) => {
            if i == 0 {
                return Ok(0);
            }
        },
        _ => {},
    }
    match generate_value(value, func, out, reg_map, next_reg) {
        Err(e) => return Err(e),
        Ok(()) => {},
    }
    match reg_map.get(&value) {
        Some(reg) => Ok(*reg),
        None => Err(CompileError::NoRegister),
    }
}

/// Generates the code of `value`.
fn generate_value(
    value: Value,
    func: &FunctionData,
    out: &mut Vec<AsmInst>,
    reg_map: &mut HashMap<Value, Reg>,
    next_reg: &mut usize,
) -> (r: Result<(), CompileError>)
    requires
        values_wf(func.values@),
        value < func.values@.len(),
        state_ok(state_of(old(reg_map), *old(next_reg), old(out))),
    ensures
        match value_code(func.values@, value, state_of(old(reg_map), *old(next_reg), old(out))) {
            Ok(st) => r is Ok && state_of(final(reg_map), *final(next_reg), final(out)) == st && state_ok(st),
            Err(f) => rview(r) == Err::<(), Fault>(f),
        },
    decreases value, 0int,
{
    assert(crate::ir::kind_wf(func.values@, value as int, func.values@[value as int]));
    match func.values[value] {
        ValueKind::Integer(i) => {
            let reg = match alloc_reg(value, reg_map, next_reg) {
                Ok(reg) => reg,
                Err(e) => return Err(e),
            };
            put(out, AsmInst::Li(reg, i));
            Ok(())
        },
        ValueKind::Binary(op, lhs, rhs) => {
            let lhs_reg = match ensure_reg(lhs, func, out, reg_map, next_reg) {
                Ok(reg) => reg,
                Err(e) => return Err(e),
            };
            let rhs_reg = match ensure_reg(rhs, func, out, reg_map, next_reg) {
                Ok(reg) => reg,
                Err(e) => return Err(e),
            };
            let reg = match alloc_reg(value, reg_map, next_reg) {
                Ok(reg) => reg,
                Err(e) => return Err(e),
            };
            match op {
                BinaryOp::Add => put(out, AsmInst::Op(RvOp::Add, reg, lhs_reg, rhs_reg)),
                BinaryOp::Sub => put(out, AsmInst::Op(RvOp::Sub, reg, lhs_reg, rhs_reg)),
                BinaryOp::Mul => put(out, AsmInst::Op(RvOp::Mul, reg, lhs_reg, rhs_reg)),
                BinaryOp::Div => put(out, AsmInst::Op(RvOp::Div, reg, lhs_reg, rhs_reg)),
                BinaryOp::Mod => put(out, AsmInst::Op(RvOp::Rem, reg, lhs_reg, rhs_reg)),
                BinaryOp::Eq => {
                    put(out, AsmInst::Op(RvOp::Xor, reg, lhs_reg, rhs_reg));
                    put(out, AsmInst::Test(RvTest::Seqz, reg, reg));
                },
                BinaryOp::NotEq => {
                    put(out, AsmInst::Op(RvOp::Xor, reg, lhs_reg, rhs_reg));
                    put(out, AsmInst::Test(RvTest::Snez, reg, reg));
                },
                BinaryOp::Lt => put(out, AsmInst::Op(RvOp::Slt, reg, lhs_reg, rhs_reg)),
                BinaryOp::Gt => put(out, AsmInst::Op(RvOp::Slt, reg, rhs_reg, lhs_reg)),
                BinaryOp::Le => {
                    put(out, AsmInst::Op(RvOp::Slt, reg, rhs_reg, lhs_reg));
                    put(out, AsmInst::Xori(reg, reg, 1));
                },
                BinaryOp::Ge => {
                    put(out, AsmInst::Op(RvOp::Slt, reg, lhs_reg, rhs_reg));
                    put(out, AsmInst::Xori(reg, reg, 1));
                },
                BinaryOp::And => {
                    let lhs_bool = match new_temp(next_reg) {
                        Ok(r) => r,
                        Err(e) => return Err(e),
                    };
                    put(out, AsmInst::Test(RvTest::Snez, lhs_bool, lhs_reg));
                    let rhs_bool = match new_temp(next_reg) {
                        Ok(r) => r,
                        Err(e) => return Err(e),
                    };
                    put(out, AsmInst::Test(RvTest::Snez, rhs_bool, rhs_reg));
                    put(out, AsmInst::Op(RvOp::And, reg, lhs_bool, rhs_bool));
                },
                BinaryOp::Or => {
                    put(out, AsmInst::Op(RvOp::Or, reg, lhs_reg, rhs_reg));
                    put(out, AsmInst::Test(RvTest::Snez, reg, reg));
                },
                _ => {},
            }
            Ok(())
        },
        ValueKind::Return(ret) => {
            match ret {
                Some(ret_value) => {
                    let ret_reg = match ensure_reg(ret_value, func, out, reg_map, next_reg) {
                        Ok(reg) => reg,
                        Err(e) => return Err(e),
                    };
                    if ret_reg != A0 {
                        put(out, AsmInst::Mv(A0, ret_reg));
                    }
                },
                None => {},
            }
            put(out, AsmInst::Ret);
            Ok(())
        },
        _ => Ok(()),
    }
}

/// The code of the instructions `insts`, in order.
pub open spec fn insts_code(vals: Seq<ValueKind>, insts: Seq<Value>, st: AsmState) -> Result<AsmState, Fault>
    decreases insts.len(),
{
    if insts.len() == 0 {
        Ok(st)
    } else {
        match value_code(vals, insts[0], st) {
            Err(f) => Err(f),
            Ok(st1) => insts_code(vals, insts.drop_first(), st1),
        }
    }
}

/// The allocation state at the start of a basic block: no register taken
/// but `x0`.
pub open spec fn block_start() -> AsmState {
    AsmState { regs: Map::empty(), next: 1, out: Seq::empty() }
}

/// The code of the basic blocks `bbs`, in layout order.
pub open spec fn blocks_text(vals: Seq<ValueKind>, bbs: Seq<BasicBlockData>) -> Result<Seq<char>, Fault>
    decreases bbs.len(),
{
    if bbs.len() == 0 {
        Ok(Seq::empty())
    } else {
        match insts_code(vals, bbs[0].insts@, block_start()) {
            Err(f) => Err(f),
            Ok(st) => match blocks_text(vals, bbs.drop_first()) {
                Err(f) => Err(f),
                Ok(t) => Ok(render(st.out) + t),
            },
        }
    }
}

/// The assembly of a function: its symbol, made global, then its blocks.
pub open spec fn function_text(f: &FunctionData) -> Result<Seq<char>, Fault> {
    let sym = f.name@.subrange(1, f.name@.len() as int);
    match blocks_text(f.values@, f.bbs@) {
        Err(e) => Err(e),
        Ok(t) => Ok(" .global "@ + sym + "\n"@ + sym + ":\n"@ + t),
    }
}

/// The assembly of functions, in layout order.
pub open spec fn functions_text(fs: Seq<FunctionData>) -> Result<Seq<char>, Fault>
    decreases fs.len(),
{
    if fs.len() == 0 {
        Ok(Seq::empty())
    } else {
        match function_text(&fs[0]) {
            Err(e) => Err(e),
            Ok(t) => match functions_text(fs.drop_first()) {
                Err(e) => Err(e),
                Ok(rest) => Ok(t + rest),
            },
        }
    }
}

/// Generates RISC-V assembly from the in-memory IR.
pub trait GenerateAsm {
    /// Whether the IR can be read.
    spec fn asm_ready(&self) -> bool;

    /// The assembly text, or why there is none.
    spec fn asm_text(&self) -> Result<Seq<char>, Fault>;

    /// Appends the assembly text to `buf`.
    fn generate(&self, buf: &mut String) -> (r: Result<(), CompileError>)
        requires
            self.asm_ready(),
        ensures
            match self.asm_text() {
                Ok(t) => r is Ok && final(buf)@ == old(buf)@ + t,
                Err(f) => rview(r) == Err::<(), Fault>(f),
            },
    ;
}

/// Generates the code of the instructions of one basic block.
fn generate_block(func: &FunctionData, insts: &Vec<Value>) -> (r: Result<Vec<AsmInst>, CompileError>)
    requires
        values_wf(func.values@),
        crate::ir::insts_wf(func.values@, insts@),
    ensures
        match insts_code(func.values@, insts@, block_start()) {
            Ok(st) => r matches Ok(out) && out@ == st.out && state_ok(st),
            Err(f) => rview(r) == Err::<Vec<AsmInst>, Fault>(f),
        },
{
    let mut reg_map: HashMap<Value, Reg> = HashMap::new();
    let mut next_reg: usize = 1;
    let mut out: Vec<AsmInst> = Vec::new();
    let mut i: usize = 0;
    assert(insts@.skip(0) =~= insts@);
    assert(state_of(&reg_map, next_reg, &out) =~= block_start());
    while i < insts.len()
        invariant
            i <= insts@.len(),
            values_wf(func.values@),
            crate::ir::insts_wf(func.values@, insts@),
            state_ok(state_of(&reg_map, next_reg, &out)),
            insts_code(func.values@, insts@, block_start())
                == insts_code(func.values@, insts@.skip(i as int), state_of(&reg_map, next_reg, &out)),
        decreases insts@.len() - i,
    {
        let value = insts[i];
        assert(insts@.skip(i as int)[0] == value);
        assert(insts@.skip(i as int).drop_first() =~= insts@.skip(i + 1));
        match generate_value(value, func, &mut out, &mut reg_map, &mut next_reg) {
            Err(e) => return Err(e),
            Ok(()) => {},
        }
        i = i + 1;
    }
    assert(insts@.skip(i as int).len() == 0);
    Ok(out)
}

impl GenerateAsm for FunctionData {
    open spec fn asm_ready(&self) -> bool {
        self.wf()
    }

    open spec fn asm_text(&self) -> Result<Seq<char>, Fault> {
        function_text(self)
    }

    fn generate(&self, buf: &mut String) -> (r: Result<(), CompileError>) {
        proof { reveal(FunctionData::wf); }
        buf.append(" .global ");
        let n = self.name.as_str().unicode_len();
        let fun_name = self.name.as_str().substring_char(1, n);
        buf.append(fun_name);
        buf.append("\n");
        buf.append(fun_name);
        buf.append(":\n");
        let ghost head = buf@;
        let mut b: usize = 0;
        assert(self.bbs@.skip(0) =~= self.bbs@);
        assert(buf@ =~= old(buf)@ + (" .global "@ + fun_name@ + "\n"@ + fun_name@ + ":\n"@));
        while b < self.bbs.len()
            invariant
                b <= self.bbs@.len(),
                self.wf(),
                values_wf(self.values@),
                forall|k: int| 0 <= k < self.bbs@.len() ==> crate::ir::insts_wf(self.values@, #[trigger] self.bbs@[k].insts@),
                blocks_text(self.values@, self.bbs@) matches Ok(t) ==> (blocks_text(self.values@, self.bbs@.skip(b as int)) matches Ok(t2) && head + t == buf@ + t2),
                blocks_text(self.values@, self.bbs@) is Err ==> blocks_text(self.values@, self.bbs@.skip(b as int)) == blocks_text(self.values@, self.bbs@),
                blocks_text(self.values@, self.bbs@) is Ok ==> blocks_text(self.values@, self.bbs@.skip(b as int)) is Ok,
            decreases self.bbs@.len() - b,
        {
            let ghost rest = self.bbs@.skip(b as int);
            assert(rest[0] == self.bbs@[b as int]);
            assert(rest.drop_first() =~= self.bbs@.skip(b + 1));
            let out = match generate_block(self, &self.bbs[b].insts) {
                Ok(out) => out,
                Err(e) => return Err(e),
            };
            render_insts(&out, buf);
            b = b + 1;
        }
        assert(self.bbs@.skip(b as int).len() == 0);
        Ok(())
    }
}

impl GenerateAsm for Program {
    open spec fn asm_ready(&self) -> bool {
        self.wf()
    }

    open spec fn asm_text(&self) -> Result<Seq<char>, Fault> {
        match functions_text(self.funcs@) {
            Err(e) => Err(e),
            Ok(t) => Ok(" .text\n"@ + t),
        }
    }

    fn generate(&self, buf: &mut String) -> (r: Result<(), CompileError>) {
        buf.append(" .text\n");
        let ghost head = buf@;
        let mut i: usize = 0;
        assert(self.funcs@.skip(0) =~= self.funcs@);
        while i < self.funcs.len()
            invariant
                i <= self.funcs@.len(),
                self.wf(),
                head == old(buf)@ + " .text\n"@,
                functions_text(self.funcs@) matches Ok(t) ==> (functions_text(self.funcs@.skip(i as int)) matches Ok(t2) && head + t == buf@ + t2),
                functions_text(self.funcs@) is Err ==> functions_text(self.funcs@.skip(i as int)) == functions_text(self.funcs@),
                functions_text(self.funcs@) is Ok ==> functions_text(self.funcs@.skip(i as int)) is Ok,
            decreases self.funcs@.len() - i,
        {
            let ghost rest = self.funcs@.skip(i as int);
            assert(rest[0] == self.funcs@[i as int]);
            assert(rest.drop_first() =~= self.funcs@.skip(i + 1));
            match self.funcs[i].generate(buf) {
                Err(e) => return Err(e),
                Ok(()) => {},
            }
            i = i + 1;
        }
        assert(self.funcs@.skip(i as int).len() == 0);
        Ok(())
    }
}

} // verus!
