use sysy_compiler::error::CompileError;
use sysy_compiler::ir::{BinaryOp, FunctionData, Program, ValueKind};
use sysy_compiler::parser::parse;
use sysy_compiler::riscv::{push_int, reg_name, GenerateAsm};

/// A function `@f` with the given values and one block of the given
/// instructions.
fn function(name: &str, values: Vec<ValueKind>, insts: Vec<usize>) -> FunctionData {
    let mut f = FunctionData::new(String::from(name));
    let bb = f.new_bb(Some(String::from("%entry")));
    f.values = values;
    for v in insts {
        f.push_inst(bb, v);
    }
    f
}

fn asm_of(f: FunctionData) -> Result<String, CompileError> {
    let p = Program { funcs: vec![f] };
    let mut buf = String::new();
    p.generate(&mut buf).map(|_| buf)
}

/// The code of `7 OP 3` returned from `@f`, without the header.
fn binary_body(op: BinaryOp) -> String {
    let f = function(
        "@f",
        vec![
            ValueKind::Integer(7),
            ValueKind::Integer(3),
            ValueKind::Binary(op, 0, 1),
            ValueKind::Return(Some(2)),
        ],
        vec![2, 3],
    );
    let text = asm_of(f).unwrap();
    let head = " .text\n .global f\nf:\n  li t0, 7\n  li t1, 3\n";
    assert!(text.starts_with(head), "{}", text);
    let tail = "  mv a0, t2\n  ret\n";
    assert!(text.ends_with(tail), "{}", text);
    text[head.len()..text.len() - tail.len()].to_string()
}

#[test]
fn riscv_compiled_constant_return() {
    let chars: Vec<char> = "int main() { return 1 + 2 * 3; }".chars().collect();
    let mut unit = parse(&chars).unwrap();
    let p = unit.convert_to_koopa_ir().unwrap();
    let mut buf = String::new();
    p.generate(&mut buf).unwrap();
    assert_eq!(buf, " .text\n .global main\nmain:\n  li t0, 7\n  mv a0, t0\n  ret\n");
}

#[test]
fn riscv_add_of_two_constants() {
    let f = function(
        "@f",
        vec![
            ValueKind::Integer(1),
            ValueKind::Integer(2),
            ValueKind::Binary(BinaryOp::Add, 0, 1),
            ValueKind::Return(Some(2)),
        ],
        vec![2, 3],
    );
    assert_eq!(
        asm_of(f).unwrap(),
        " .text\n .global f\nf:\n  li t0, 1\n  li t1, 2\n  add t2, t0, t1\n  mv a0, t2\n  ret\n"
    );
}

#[test]
fn riscv_zero_is_read_from_x0() {
    let f = function(
        "@f",
        vec![
            ValueKind::Integer(0),
            ValueKind::Integer(5),
            ValueKind::Binary(BinaryOp::Sub, 0, 1),
            ValueKind::Return(Some(2)),
        ],
        vec![2, 3],
    );
    assert_eq!(
        asm_of(f).unwrap(),
        " .text\n .global f\nf:\n  li t0, 5\n  sub t1, x0, t0\n  mv a0, t1\n  ret\n"
    );
    let f = function("@g", vec![ValueKind::Integer(0), ValueKind::Return(Some(0))], vec![1]);
    assert_eq!(asm_of(f).unwrap(), " .text\n .global g\ng:\n  mv a0, x0\n  ret\n");
}

#[test]
fn riscv_negative_immediate() {
    let f = function("@f", vec![ValueKind::Integer(-5), ValueKind::Return(Some(0))], vec![1]);
    assert_eq!(asm_of(f).unwrap(), " .text\n .global f\nf:\n  li t0, -5\n  mv a0, t0\n  ret\n");
    let f = function("@f", vec![ValueKind::Integer(i32::MIN), ValueKind::Return(Some(0))], vec![1]);
    assert_eq!(
        asm_of(f).unwrap(),
        " .text\n .global f\nf:\n  li t0, -2147483648\n  mv a0, t0\n  ret\n"
    );
}

#[test]
fn riscv_return_without_value() {
    let f = function("@f", vec![ValueKind::Return(None)], vec![0]);
    assert_eq!(asm_of(f).unwrap(), " .text\n .global f\nf:\n  ret\n");
}

#[test]
fn riscv_binary_operator_code() {
    assert_eq!(binary_body(BinaryOp::Add), "  add t2, t0, t1\n");
    assert_eq!(binary_body(BinaryOp::Sub), "  sub t2, t0, t1\n");
    assert_eq!(binary_body(BinaryOp::Mul), "  mul t2, t0, t1\n");
    assert_eq!(binary_body(BinaryOp::Div), "  div t2, t0, t1\n");
    assert_eq!(binary_body(BinaryOp::Mod), "  rem t2, t0, t1\n");
    assert_eq!(binary_body(BinaryOp::Eq), "  xor t2, t0, t1\n  seqz t2, t2\n");
    assert_eq!(binary_body(BinaryOp::NotEq), "  xor t2, t0, t1\n  snez t2, t2\n");
    assert_eq!(binary_body(BinaryOp::Lt), "  slt t2, t0, t1\n");
    assert_eq!(binary_body(BinaryOp::Gt), "  slt t2, t1, t0\n");
    assert_eq!(binary_body(BinaryOp::Le), "  slt t2, t1, t0\n  xori t2, t2, 1\n");
    assert_eq!(binary_body(BinaryOp::Ge), "  slt t2, t0, t1\n  xori t2, t2, 1\n");
    assert_eq!(binary_body(BinaryOp::Or), "  or t2, t0, t1\n  snez t2, t2\n");
    assert_eq!(binary_body(BinaryOp::Xor), "");
    assert_eq!(binary_body(BinaryOp::Shl), "");
}

#[test]
fn riscv_logical_and_uses_two_scratch_registers() {
    assert_eq!(binary_body(BinaryOp::And), "  snez t3, t0\n  snez t4, t1\n  and t2, t3, t4\n");
}

#[test]
fn riscv_shared_operand_is_generated_once() {
    let f = function(
        "@f",
        vec![
            ValueKind::Integer(4),
            ValueKind::Binary(BinaryOp::Mul, 0, 0),
            ValueKind::Return(Some(1)),
        ],
        vec![1, 2],
    );
    assert_eq!(
        asm_of(f).unwrap(),
        " .text\n .global f\nf:\n  li t0, 4\n  mul t1, t0, t0\n  mv a0, t1\n  ret\n"
    );
}

#[test]
fn riscv_registers_restart_in_each_block() {
    let mut f = FunctionData::new(String::from("@f"));
    let b0 = f.new_bb(Some(String::from("%entry")));
    let b1 = f.new_bb(Some(String::from("%next")));
    let one = f.new_integer(1);
    let r0 = f.new_ret(Some(one));
    let two = f.new_integer(2);
    let r1 = f.new_ret(Some(two));
    f.push_inst(b0, r0);
    f.push_inst(b1, r1);
    assert_eq!(
        asm_of(f).unwrap(),
        " .text\n .global f\nf:\n  li t0, 1\n  mv a0, t0\n  ret\n  li t0, 2\n  mv a0, t0\n  ret\n"
    );
}

#[test]
fn riscv_two_functions_in_order() {
    let f = function("@f", vec![ValueKind::Integer(1), ValueKind::Return(Some(0))], vec![1]);
    let g = function("@g", vec![ValueKind::Integer(2), ValueKind::Return(Some(0))], vec![1]);
    let p = Program { funcs: vec![f, g] };
    let mut buf = String::new();
    p.generate(&mut buf).unwrap();
    assert_eq!(
        buf,
        " .text\n .global f\nf:\n  li t0, 1\n  mv a0, t0\n  ret\n .global g\ng:\n  li t0, 2\n  mv a0, t0\n  ret\n"
    );
}

#[test]
fn riscv_register_exhaustion() {
    // A chain ((((1 + 1) + 1) + ...) with eight additions needs sixteen
    // registers; fifteen exist.
    let mut values = vec![ValueKind::Integer(1)];
    let mut insts = Vec::new();
    let mut acc = 0;
    for _ in 0..8 {
        values.push(ValueKind::Integer(1));
        let one = values.len() - 1;
        values.push(ValueKind::Binary(BinaryOp::Add, acc, one));
        acc = values.len() - 1;
        insts.push(acc);
    }
    values.push(ValueKind::Return(Some(acc)));
    insts.push(values.len() - 1);
    let f = function("@f", values, insts);
    assert!(matches!(asm_of(f), Err(CompileError::RegisterExhausted)));
}

#[test]
fn riscv_seven_additions_fit() {
    let mut values = vec![ValueKind::Integer(1)];
    let mut insts = Vec::new();
    let mut acc = 0;
    for _ in 0..7 {
        values.push(ValueKind::Integer(1));
        let one = values.len() - 1;
        values.push(ValueKind::Binary(BinaryOp::Add, acc, one));
        acc = values.len() - 1;
        insts.push(acc);
    }
    values.push(ValueKind::Return(Some(acc)));
    insts.push(values.len() - 1);
    let f = function("@f", values, insts);
    let text = asm_of(f).unwrap();
    assert!(text.ends_with("  add a7, a5, a6\n  mv a0, a7\n  ret\n"), "{}", text);
}

#[test]
fn riscv_loaded_operand_has_no_register() {
    let chars: Vec<char> = "int main() { int x; return x + 1; }".chars().collect();
    let mut unit = parse(&chars).unwrap();
    let p = unit.convert_to_koopa_ir().unwrap();
    let mut buf = String::new();
    let r = p.generate(&mut buf);
    assert!(matches!(r, Err(CompileError::NoRegister)));
    assert_eq!(
        CompileError::RegisterExhausted.message(),
        "register exhausted: need more than 15 regs"
    );
}

#[test]
fn riscv_register_names() {
    assert_eq!(reg_name(0), "x0");
    assert_eq!(reg_name(1), "t0");
    assert_eq!(reg_name(7), "t6");
    assert_eq!(reg_name(8), "a0");
    assert_eq!(reg_name(15), "a7");
}

#[test]
fn riscv_push_int_text() {
    let mut s = String::from("x=");
    push_int(0, &mut s);
    push_int(-12, &mut s);
    push_int(305, &mut s);
    assert_eq!(s, "x=0-12305");
    let mut s = String::new();
    push_int(i32::MAX, &mut s);
    assert_eq!(s, "2147483647");
}

/// Runs assembly text of one function: the value of `a0` at the first
/// `ret`, starting from registers that all hold `junk`.
fn run_asm(text: &str, junk: i32) -> Option<i32> {
    let names = [
        "x0", "t0", "t1", "t2", "t3", "t4", "t5", "t6", "a0", "a1", "a2", "a3", "a4", "a5", "a6", "a7",
    ];
    let reg = |n: &str| names.iter().position(|x| *x == n).unwrap();
    let mut r = [junk; 16];
    r[0] = 0;
    for line in text.lines() {
        let line = line.trim();
        if line.is_empty() || line.starts_with('.') || line.ends_with(':') {
            continue;
        }
        let (op, rest) = line.split_once(' ').unwrap_or((line, ""));
        let args: Vec<&str> = rest.split(", ").filter(|a| !a.is_empty()).collect();
        let get = |r: &[i32; 16], a: &str| r[reg(a)];
        let v = match op {
            "ret" => return Some(r[8]),
            "li" => args[1].parse::<i32>().unwrap(),
            "mv" => get(&r, args[1]),
            "seqz" => (get(&r, args[1]) == 0) as i32,
            "snez" => (get(&r, args[1]) != 0) as i32,
            "xori" => get(&r, args[1]) ^ args[2].parse::<i32>().unwrap(),
            _ => {
                let a = get(&r, args[1]);
                let b = get(&r, args[2]);
                match op {
                    "add" => a.wrapping_add(b),
                    "sub" => a.wrapping_sub(b),
                    "mul" => a.wrapping_mul(b),
                    "div" => if b == 0 { -1 } else { a.wrapping_div(b) },
                    "rem" => if b == 0 { a } else { a.wrapping_rem(b) },
                    "xor" => a ^ b,
                    "slt" => (a < b) as i32,
                    "and" => a & b,
                    "or" => a | b,
                    _ => panic!("unknown instruction {}", op),
                }
            }
        };
        let d = reg(args[0]);
        if d != 0 {
            r[d] = v;
        }
    }
    None
}

#[test]
fn riscv_code_returns_the_value_of_the_block() {
    // (7 - 3) * (2 + 5) <= 28 && 1, computed by the generated code.
    let f = function(
        "@f",
        vec![
            ValueKind::Integer(7),
            ValueKind::Integer(3),
            ValueKind::Binary(BinaryOp::Sub, 0, 1),
            ValueKind::Integer(2),
            ValueKind::Integer(5),
            ValueKind::Binary(BinaryOp::Add, 3, 4),
            ValueKind::Binary(BinaryOp::Mul, 2, 5),
            ValueKind::Integer(28),
            ValueKind::Binary(BinaryOp::Le, 6, 7),
            ValueKind::Integer(1),
            ValueKind::Binary(BinaryOp::And, 8, 9),
            ValueKind::Return(Some(10)),
        ],
        vec![2, 5, 6, 8, 10, 11],
    );
    let text = asm_of(f).unwrap();
    assert_eq!(run_asm(&text, 99), Some(1));
    let f = function(
        "@g",
        vec![
            ValueKind::Integer(-9),
            ValueKind::Integer(4),
            ValueKind::Binary(BinaryOp::Div, 0, 1),
            ValueKind::Binary(BinaryOp::Mod, 0, 1),
            ValueKind::Binary(BinaryOp::Sub, 2, 3),
            ValueKind::Return(Some(4)),
        ],
        vec![4, 5],
    );
    let text = asm_of(f).unwrap();
    assert_eq!(run_asm(&text, -5), Some(-1));
}

#[test]
fn riscv_compiled_program_returns_what_the_source_returns() {
    let src = "int main() { const int a = 3; int b = a * 4; { int a = b - 2; b = a / 3; } return b + a; }";
    let chars: Vec<char> = src.chars().collect();
    let mut unit = parse(&chars).unwrap();
    let p = unit.convert_to_koopa_ir().unwrap();
    let mut buf = String::new();
    p.generate(&mut buf).unwrap();
    assert_eq!(run_asm(&buf, 7), Some(6));
}

#[test]
fn riscv_and_or_code_is_logical_on_any_operands() {
    // 2 && 4 and 2 || 0 are 1, although 2 & 4 is 0 and 2 | 0 is 2.
    for (op, a, b, expected) in [
        (BinaryOp::And, 2, 4, 1),
        (BinaryOp::And, 2, 0, 0),
        (BinaryOp::Or, 2, 0, 1),
        (BinaryOp::Or, 0, 0, 0),
        (BinaryOp::Or, -3, 5, 1),
    ] {
        let f = function(
            "@f",
            vec![
                ValueKind::Integer(a),
                ValueKind::Integer(b),
                ValueKind::Binary(op, 0, 1),
                ValueKind::Return(Some(2)),
            ],
            vec![2, 3],
        );
        let text = asm_of(f).unwrap();
        assert_eq!(run_asm(&text, 77), Some(expected), "{:?} {} {}", op, a, b);
    }
}

#[test]
fn riscv_registers_are_never_shared() {
    // Every value gets a register of its own, in order; a value used twice
    // keeps its register.
    let f = function(
        "@f",
        vec![
            ValueKind::Integer(5),
            ValueKind::Integer(6),
            ValueKind::Binary(BinaryOp::Add, 0, 1),
            ValueKind::Binary(BinaryOp::Mul, 2, 0),
            ValueKind::Return(Some(3)),
        ],
        vec![2, 3, 4],
    );
    let text = asm_of(f).unwrap();
    assert_eq!(
        text,
        " .text\n .global f\nf:\n  li t0, 5\n  li t1, 6\n  add t2, t0, t1\n  mul t3, t2, t0\n  mv a0, t3\n  ret\n"
    );
    assert_eq!(run_asm(&text, 1), Some(55));
}

#[test]
fn riscv_compiled_logic_on_unknown_values() {
    // The IR of `x || y` compares each operand with 0 before the `or`.
    let chars: Vec<char> = "int main() { int x; int y; return x || y; }".chars().collect();
    let mut unit = parse(&chars).unwrap();
    let p = unit.convert_to_koopa_ir().unwrap();
    let f = &p.funcs[0];
    assert_eq!(f.values[7], ValueKind::Binary(BinaryOp::Or, 5, 6));
    assert_eq!(f.values[5], ValueKind::Binary(BinaryOp::NotEq, 2, 4));
    assert_eq!(f.values[6], ValueKind::Binary(BinaryOp::NotEq, 3, 4));
}

#[test]
fn riscv_arithmetic_wraps_like_the_machine() {
    for (op, a, b, expected) in [
        (BinaryOp::Add, i32::MAX, 1, i32::MIN),
        (BinaryOp::Sub, i32::MIN, 1, i32::MAX),
        (BinaryOp::Mul, 65536, 65536, 0),
        (BinaryOp::Div, 7, 0, -1),
        (BinaryOp::Mod, 7, 0, 7),
        (BinaryOp::Div, i32::MIN, -1, i32::MIN),
        (BinaryOp::Le, 3, 3, 1),
        (BinaryOp::Gt, -1, 2, 0),
    ] {
        let f = function(
            "@f",
            vec![
                ValueKind::Integer(a),
                ValueKind::Integer(b),
                ValueKind::Binary(op, 0, 1),
                ValueKind::Return(Some(2)),
            ],
            vec![2, 3],
        );
        let text = asm_of(f).unwrap();
        assert_eq!(run_asm(&text, 13), Some(expected), "{:?} {} {}", op, a, b);
    }
}
