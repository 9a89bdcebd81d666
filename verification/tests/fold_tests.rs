use sysy_compiler::ast::{fold_binary_exec, fold_unary_exec, BlockItem, ExpOp, Stmt, UnaryOp};
use sysy_compiler::error::CompileError;
use sysy_compiler::parser::parse;
use sysy_compiler::symtable::{ScopeEntry, SymTable};

/// The folded value of the expression of the last statement of `src`, a
/// `return`, under the fresh table that parsing gives.
fn fold_of(src: &str) -> Result<Option<i32>, CompileError> {
    let chars: Vec<char> = src.chars().collect();
    let unit = parse(&chars).expect("parses");
    let items = &unit.func_def.block.items;
    match items.last() {
        Some(BlockItem::Stmt(Stmt::Return(e))) => e.evaluate(&unit.func_def.symtable),
        _ => panic!("no return statement"),
    }
}

#[test]
fn fold_arithmetic_precedence() {
    assert_eq!(fold_of("int main() { return 1 + 2 * 3; }").unwrap(), Some(7));
    assert_eq!(fold_of("int main() { return (1 + 2) * 3; }").unwrap(), Some(9));
    assert_eq!(fold_of("int main() { return 10 - 4 - 3; }").unwrap(), Some(3));
}

#[test]
fn fold_division_truncates_toward_zero() {
    assert_eq!(fold_of("int main() { return 7 / 2; }").unwrap(), Some(3));
    assert_eq!(fold_of("int main() { return -7 / 2; }").unwrap(), Some(-3));
    assert_eq!(fold_of("int main() { return 7 / -2; }").unwrap(), Some(-3));
}

#[test]
fn fold_remainder_has_sign_of_dividend() {
    assert_eq!(fold_of("int main() { return -7 % 2; }").unwrap(), Some(-1));
    assert_eq!(fold_of("int main() { return 7 % -2; }").unwrap(), Some(1));
}

#[test]
fn fold_unary_operators() {
    assert_eq!(fold_of("int main() { return -5; }").unwrap(), Some(-5));
    assert_eq!(fold_of("int main() { return +5; }").unwrap(), Some(5));
    assert_eq!(fold_of("int main() { return !0; }").unwrap(), Some(1));
    assert_eq!(fold_of("int main() { return !5; }").unwrap(), Some(0));
    assert_eq!(fold_of("int main() { return - -3; }").unwrap(), Some(3));
}

#[test]
fn fold_comparisons_give_zero_or_one() {
    assert_eq!(fold_of("int main() { return 3 < 5; }").unwrap(), Some(1));
    assert_eq!(fold_of("int main() { return 3 > 5; }").unwrap(), Some(0));
    assert_eq!(fold_of("int main() { return 5 <= 5; }").unwrap(), Some(1));
    assert_eq!(fold_of("int main() { return 4 >= 5; }").unwrap(), Some(0));
    assert_eq!(fold_of("int main() { return 2 == 2; }").unwrap(), Some(1));
    assert_eq!(fold_of("int main() { return 2 != 2; }").unwrap(), Some(0));
}

#[test]
fn fold_logical_operators_are_boolean() {
    assert_eq!(fold_of("int main() { return 2 && 3; }").unwrap(), Some(1));
    assert_eq!(fold_of("int main() { return 2 && 0; }").unwrap(), Some(0));
    assert_eq!(fold_of("int main() { return 0 || 0; }").unwrap(), Some(0));
    assert_eq!(fold_of("int main() { return 0 || 7; }").unwrap(), Some(1));
}

/// The folded value of `return EXPR;` under a table that `setup` filled.
fn fold_with(src: &str, setup: fn(&mut SymTable)) -> Result<Option<i32>, CompileError> {
    let chars: Vec<char> = src.chars().collect();
    let mut unit = parse(&chars).expect("parses");
    setup(&mut unit.func_def.symtable);
    match unit.func_def.block.items.last() {
        Some(BlockItem::Stmt(Stmt::Return(e))) => e.evaluate(&unit.func_def.symtable),
        _ => panic!("no return statement"),
    }
}

#[test]
fn fold_reads_constants_of_the_table() {
    let r = fold_with("int main() { return a + b; }", |st| {
        st.insert(String::from("a"), ScopeEntry::Const(4));
        st.push_scope();
        st.insert(String::from("b"), ScopeEntry::Const(8));
    });
    assert_eq!(r.unwrap(), Some(12));
}

#[test]
fn fold_variable_without_known_value_has_no_value() {
    let r = fold_with("int main() { return x + 1; }", |st| {
        st.insert(String::from("x"), ScopeEntry::Var(0));
    });
    assert_eq!(r.unwrap(), None);
}

#[test]
fn fold_variable_with_known_value_folds() {
    let r = fold_with("int main() { return x + 1; }", |st| {
        st.insert(String::from("x"), ScopeEntry::Var(0));
        st.value_cache.insert(0, 5);
    });
    assert_eq!(r.unwrap(), Some(6));
}

#[test]
fn fold_stops_at_first_operand_without_value() {
    // The right operand would divide by zero, but folding stops at `x`.
    let r = fold_with("int main() { return x + 1 / 0; }", |st| {
        st.insert(String::from("x"), ScopeEntry::Var(0));
    });
    assert_eq!(r.unwrap(), None);
}

#[test]
fn fold_undeclared_name_is_an_error() {
    let r = fold_with("int main() { return y; }", |_st| {});
    assert!(matches!(r, Err(CompileError::UndefinedVariable(ref s)) if s == "y"));
}

#[test]
fn fold_division_by_zero_is_an_error() {
    assert!(matches!(fold_of("int main() { return 1 / 0; }"), Err(CompileError::DivideByZero)));
    assert!(matches!(fold_of("int main() { return 1 % 0; }"), Err(CompileError::DivideByZero)));
}

#[test]
fn fold_overflow_is_an_error() {
    assert!(matches!(fold_of("int main() { return 2147483647 + 1; }"), Err(CompileError::Overflow)));
    assert!(matches!(fold_of("int main() { return -2147483647 - 2; }"), Err(CompileError::Overflow)));
    assert!(matches!(fold_of("int main() { return 65536 * 65536; }"), Err(CompileError::Overflow)));
    assert!(matches!(fold_of("int main() { return -(-2147483647 - 1); }"), Err(CompileError::Overflow)));
    assert!(matches!(fold_of("int main() { return (-2147483647 - 1) / -1; }"), Err(CompileError::Overflow)));
    assert!(matches!(fold_of("int main() { return (-2147483647 - 1) % -1; }"), Err(CompileError::Overflow)));
}

#[test]
fn fold_smallest_integer_is_reachable() {
    assert_eq!(fold_of("int main() { return -2147483647 - 1; }").unwrap(), Some(i32::MIN));
}

#[test]
fn fold_unary_exec_values() {
    assert_eq!(fold_unary_exec(UnaryOp::Neg, 4).unwrap(), -4);
    assert_eq!(fold_unary_exec(UnaryOp::Pos, 4).unwrap(), 4);
    assert_eq!(fold_unary_exec(UnaryOp::Not, 4).unwrap(), 0);
    assert_eq!(fold_unary_exec(UnaryOp::Not, 0).unwrap(), 1);
    assert!(matches!(fold_unary_exec(UnaryOp::Neg, i32::MIN), Err(CompileError::Overflow)));
}

#[test]
fn fold_binary_exec_values() {
    assert_eq!(fold_binary_exec(ExpOp::Add, 2, 3).unwrap(), 5);
    assert_eq!(fold_binary_exec(ExpOp::Sub, 2, 3).unwrap(), -1);
    assert_eq!(fold_binary_exec(ExpOp::Mul, -4, 3).unwrap(), -12);
    assert_eq!(fold_binary_exec(ExpOp::Div, -9, 4).unwrap(), -2);
    assert_eq!(fold_binary_exec(ExpOp::Mod, -9, 4).unwrap(), -1);
    assert_eq!(fold_binary_exec(ExpOp::Lt, 1, 2).unwrap(), 1);
    assert_eq!(fold_binary_exec(ExpOp::Gt, 1, 2).unwrap(), 0);
    assert_eq!(fold_binary_exec(ExpOp::Le, 2, 2).unwrap(), 1);
    assert_eq!(fold_binary_exec(ExpOp::Ge, 1, 2).unwrap(), 0);
    assert_eq!(fold_binary_exec(ExpOp::Eq, 1, 1).unwrap(), 1);
    assert_eq!(fold_binary_exec(ExpOp::Ne, 1, 1).unwrap(), 0);
    assert_eq!(fold_binary_exec(ExpOp::And, 5, 6).unwrap(), 1);
    assert_eq!(fold_binary_exec(ExpOp::Or, 0, 0).unwrap(), 0);
    assert!(matches!(fold_binary_exec(ExpOp::Div, 1, 0), Err(CompileError::DivideByZero)));
    assert!(matches!(fold_binary_exec(ExpOp::Mul, i32::MAX, 2), Err(CompileError::Overflow)));
}
