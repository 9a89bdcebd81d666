use std::collections::HashMap;

use sysy_compiler::ir::{BinaryOp, FunctionData, ValueKind};
use sysy_compiler::parser::parse;

/// Runs the entry block of `f`: `None` when an instruction cannot run,
/// otherwise the result of the first `ret` (or `Some(None)` when the block
/// ends without one).
fn run(f: &FunctionData) -> Option<Option<i32>> {
    run_from(f, HashMap::new())
}

/// Runs the entry block of `f` from memory `mem` (allocation handle to
/// content), as `run` does.
fn run_from(f: &FunctionData, mem: HashMap<usize, i32>) -> Option<Option<i32>> {
    let mut mem = mem;
    let mut env: HashMap<usize, i32> = HashMap::new();
    let operand = |env: &HashMap<usize, i32>, x: usize| -> Option<i32> {
        match f.values[x] {
            ValueKind::Integer(n) => Some(n),
            _ => env.get(&x).copied(),
        }
    };
    for &v in &f.bbs[0].insts {
        match f.values[v] {
            ValueKind::Integer(n) => {
                env.insert(v, n);
            }
            ValueKind::Alloc => {}
            ValueKind::Load(a) => {
                let x = *mem.get(&a)?;
                env.insert(v, x);
            }
            ValueKind::Store(x, a) => {
                let n = operand(&env, x)?;
                mem.insert(a, n);
            }
            ValueKind::Binary(op, l, r) => {
                let a = operand(&env, l)?;
                let b = operand(&env, r)?;
                let n = match op {
                    BinaryOp::Add => a.checked_add(b)?,
                    BinaryOp::Sub => a.checked_sub(b)?,
                    BinaryOp::Mul => a.checked_mul(b)?,
                    BinaryOp::Div => a.checked_div(b)?,
                    BinaryOp::Mod => a.checked_rem(b)?,
                    BinaryOp::Eq => (a == b) as i32,
                    BinaryOp::NotEq => (a != b) as i32,
                    BinaryOp::Lt => (a < b) as i32,
                    BinaryOp::Gt => (a > b) as i32,
                    BinaryOp::Le => (a <= b) as i32,
                    BinaryOp::Ge => (a >= b) as i32,
                    BinaryOp::And => a & b,
                    BinaryOp::Or => a | b,
                    BinaryOp::Xor => a ^ b,
                    _ => return None,
                };
                env.insert(v, n);
            }
            ValueKind::Return(r) => {
                return Some(match r {
                    Some(x) => Some(operand(&env, x)?),
                    None => None,
                });
            }
        }
    }
    Some(None)
}

fn run_source(src: &str) -> Option<Option<i32>> {
    run_source_from(src, &[])
}

/// Compiles `src` and runs it from a memory in which allocation `a` holds
/// `n` for each `(a, n)` of `mem`.
fn run_source_from(src: &str, mem: &[(usize, i32)]) -> Option<Option<i32>> {
    let chars: Vec<char> = src.chars().collect();
    let mut unit = parse(&chars).unwrap();
    let p = unit.convert_to_koopa_ir().unwrap();
    run_from(&p.funcs[0], mem.iter().copied().collect())
}

#[test]
fn execution_returns_the_value_of_the_body() {
    assert_eq!(
        run_source("int main() { int a = 3; { int a = 4; a = a + 1; } return a * 2; }"),
        Some(Some(6))
    );
}

#[test]
fn execution_stops_at_the_first_return() {
    assert_eq!(run_source("int main() { return 1; return 2; }"), Some(Some(1)));
}

#[test]
fn execution_of_assignments_and_declarations() {
    assert_eq!(
        run_source("int main() { int x; x = 7; int y = x - 2, z; z = y * y % 4; return z + !x; }"),
        Some(Some(1))
    );
}

#[test]
fn execution_of_logic_and_comparisons() {
    assert_eq!(
        run_source("int main() { const int t = 3 < 4; int f = t == 0; return t && !f || f; }"),
        Some(Some(1))
    );
}

#[test]
fn execution_without_return_runs_to_the_end() {
    assert_eq!(run_source("int main() { int x = 1; x = 2; }"), Some(None));
}

#[test]
fn execution_reading_an_unset_variable_cannot_run() {
    assert_eq!(run_source("int main() { int x; return x; }"), None);
}

#[test]
fn execution_ir_and_is_bitwise() {
    let mut f = FunctionData::new(String::from("@f"));
    let bb = f.new_bb(None);
    let two = f.new_integer(2);
    let one = f.new_integer(1);
    let and = f.new_binary(BinaryOp::And, two, one);
    let ret = f.new_ret(Some(and));
    f.push_inst(bb, and);
    f.push_inst(bb, ret);
    assert_eq!(run(&f), Some(Some(0)));
}

#[test]
fn execution_of_logic_on_unknown_values_is_logical() {
    // `x` is allocation 0 and holds a value that is not known at compile time.
    assert_eq!(run_source_from("int main() { int x; return x && 2; }", &[(0, 1)]), Some(Some(1)));
    assert_eq!(run_source_from("int main() { int x; return x && 2; }", &[(0, 0)]), Some(Some(0)));
    assert_eq!(run_source_from("int main() { int x; return x || 0; }", &[(0, 2)]), Some(Some(1)));
    assert_eq!(run_source_from("int main() { int x; return x || 0; }", &[(0, 0)]), Some(Some(0)));
    assert_eq!(run_source_from("int main() { int x; return 4 && x; }", &[(0, -3)]), Some(Some(1)));
}

#[test]
fn execution_after_assignment_of_unknown_value_reads_memory() {
    // `y` is allocation 3; once `x = y` runs, `x` holds what `y` holds.
    assert_eq!(
        run_source_from("int main() { int x = 1; int y; x = y; return x; }", &[(3, 7)]),
        Some(Some(7))
    );
}
