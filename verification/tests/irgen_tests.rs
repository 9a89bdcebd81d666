use sysy_compiler::error::CompileError;
use sysy_compiler::ir::{BinaryOp, Program, ValueKind};
use sysy_compiler::parser::parse;

fn compile(src: &str) -> Result<Program, CompileError> {
    let chars: Vec<char> = src.chars().collect();
    let mut unit = parse(&chars).expect("parses");
    unit.convert_to_koopa_ir()
}

#[test]
fn irgen_constant_return_is_folded() {
    let p = compile("int main() { return 1 + 2 * 3; }").unwrap();
    assert_eq!(p.funcs.len(), 1);
    let f = &p.funcs[0];
    assert_eq!(f.name, "@main");
    assert_eq!(f.bbs.len(), 1);
    assert_eq!(f.bbs[0].name, Some(String::from("%entry")));
    assert_eq!(f.values, vec![ValueKind::Integer(7), ValueKind::Return(Some(0))]);
    assert_eq!(f.bbs[0].insts, vec![1]);
}

#[test]
fn irgen_function_name_gets_at_sign() {
    let p = compile("int answer() { return 42; }").unwrap();
    assert_eq!(p.funcs[0].name, "@answer");
}

#[test]
fn irgen_initialized_variable_is_stored_and_folded() {
    let p = compile("int main() { int x = 5; x = x + 1; return x; }").unwrap();
    let f = &p.funcs[0];
    assert_eq!(
        f.values,
        vec![
            ValueKind::Alloc,
            ValueKind::Integer(5),
            ValueKind::Store(1, 0),
            ValueKind::Integer(6),
            ValueKind::Store(3, 0),
            ValueKind::Integer(6),
            ValueKind::Return(Some(5)),
        ]
    );
    assert_eq!(f.bbs[0].insts, vec![0, 2, 4, 6]);
}

#[test]
fn irgen_unknown_variable_is_loaded() {
    let p = compile("int main() { int x; return x + 1; }").unwrap();
    let f = &p.funcs[0];
    assert_eq!(
        f.values,
        vec![
            ValueKind::Alloc,
            ValueKind::Load(0),
            ValueKind::Integer(1),
            ValueKind::Binary(BinaryOp::Add, 1, 2),
            ValueKind::Return(Some(3)),
        ]
    );
    assert_eq!(f.bbs[0].insts, vec![0, 1, 3, 4]);
}

#[test]
fn irgen_negation_and_not_of_unknown_value() {
    let p = compile("int main() { int x; return -x; }").unwrap();
    let f = &p.funcs[0];
    assert_eq!(
        f.values,
        vec![
            ValueKind::Alloc,
            ValueKind::Load(0),
            ValueKind::Integer(0),
            ValueKind::Binary(BinaryOp::Sub, 2, 1),
            ValueKind::Return(Some(3)),
        ]
    );
    let p = compile("int main() { int x; return !x; }").unwrap();
    let f = &p.funcs[0];
    assert_eq!(f.values[3], ValueKind::Binary(BinaryOp::Eq, 1, 2));
    let p = compile("int main() { int x; return +x; }").unwrap();
    let f = &p.funcs[0];
    assert_eq!(f.values, vec![ValueKind::Alloc, ValueKind::Load(0), ValueKind::Return(Some(1))]);
}

#[test]
fn irgen_operators_map_to_ir_operators() {
    let cases = [
        ("-", BinaryOp::Sub),
        ("*", BinaryOp::Mul),
        ("/", BinaryOp::Div),
        ("%", BinaryOp::Mod),
        ("<", BinaryOp::Lt),
        (">", BinaryOp::Gt),
        ("<=", BinaryOp::Le),
        (">=", BinaryOp::Ge),
        ("==", BinaryOp::Eq),
        ("!=", BinaryOp::NotEq),
    ];
    for (text, op) in cases {
        let src = format!("int main() {{ int x; int y; return x {} y; }}", text);
        let p = compile(&src).unwrap();
        let f = &p.funcs[0];
        assert_eq!(f.values[4], ValueKind::Binary(op, 2, 3), "operator {}", text);
    }
}

#[test]
fn irgen_logic_operators_compare_operands_with_zero() {
    for (text, op) in [("&&", BinaryOp::And), ("||", BinaryOp::Or)] {
        let src = format!("int main() {{ int x; int y; return x {} y; }}", text);
        let p = compile(&src).unwrap();
        let f = &p.funcs[0];
        assert_eq!(
            f.values,
            vec![
                ValueKind::Alloc,
                ValueKind::Alloc,
                ValueKind::Load(0),
                ValueKind::Load(1),
                ValueKind::Integer(0),
                ValueKind::Binary(BinaryOp::NotEq, 2, 4),
                ValueKind::Binary(BinaryOp::NotEq, 3, 4),
                ValueKind::Binary(op, 5, 6),
                ValueKind::Return(Some(7)),
            ],
            "operator {}",
            text
        );
        assert_eq!(f.bbs[0].insts, vec![0, 1, 2, 3, 5, 6, 7, 8]);
    }
}

#[test]
fn irgen_assignment_of_unknown_value_keeps_no_constant() {
    let p = compile("int main() { int x; int y; y = x; return y; }").unwrap();
    let f = &p.funcs[0];
    assert_eq!(
        f.values,
        vec![
            ValueKind::Alloc,
            ValueKind::Alloc,
            ValueKind::Load(0),
            ValueKind::Store(2, 1),
            ValueKind::Load(1),
            ValueKind::Return(Some(4)),
        ]
    );
    assert_eq!(f.bbs[0].insts, vec![0, 1, 2, 3, 4, 5]);
}

#[test]
fn irgen_constants_emit_no_instruction() {
    let p = compile("int main() { const int a = 2, b = a + 1; return a * b; }").unwrap();
    let f = &p.funcs[0];
    assert_eq!(f.values, vec![ValueKind::Integer(6), ValueKind::Return(Some(0))]);
    assert_eq!(f.bbs[0].insts, vec![1]);
}

#[test]
fn irgen_inner_block_shadows_and_restores() {
    let p = compile("int main() { const int a = 1; { const int a = 2; } return a; }").unwrap();
    let f = &p.funcs[0];
    assert_eq!(f.values, vec![ValueKind::Integer(1), ValueKind::Return(Some(0))]);
}

#[test]
fn irgen_expression_statements_emit_code() {
    let p = compile("int main() { int x; x + 1; ; return 0; }").unwrap();
    let f = &p.funcs[0];
    assert_eq!(
        f.values,
        vec![
            ValueKind::Alloc,
            ValueKind::Load(0),
            ValueKind::Integer(1),
            ValueKind::Binary(BinaryOp::Add, 1, 2),
            ValueKind::Integer(0),
            ValueKind::Return(Some(4)),
        ]
    );
    assert_eq!(f.bbs[0].insts, vec![0, 1, 3, 5]);
}

#[test]
fn irgen_code_after_return_is_still_generated() {
    let p = compile("int main() { return 1; return 2; }").unwrap();
    let f = &p.funcs[0];
    assert_eq!(
        f.values,
        vec![
            ValueKind::Integer(1),
            ValueKind::Return(Some(0)),
            ValueKind::Integer(2),
            ValueKind::Return(Some(2)),
        ]
    );
    assert_eq!(f.bbs[0].insts, vec![1, 3]);
}

#[test]
fn irgen_undefined_variable_error() {
    let r = compile("int main() { return a; }");
    assert!(matches!(r, Err(CompileError::UndefinedVariable(ref s)) if s == "a"));
    let r = compile("int main() { b = 1; return 0; }");
    assert!(matches!(r, Err(CompileError::UndefinedVariable(ref s)) if s == "b"));
}

#[test]
fn irgen_redefined_symbol_error() {
    let r = compile("int main() { int a; int a; return 0; }");
    assert!(matches!(r, Err(CompileError::RedefinedSymbol(ref s)) if s == "a"));
    let r = compile("int main() { const int c = 1, c = 2; return 0; }");
    assert!(matches!(r, Err(CompileError::RedefinedSymbol(ref s)) if s == "c"));
}

#[test]
fn irgen_assign_to_const_error() {
    let r = compile("int main() { const int a = 1; a = 2; return a; }");
    assert!(matches!(r, Err(CompileError::AssignToConst(ref s)) if s == "a"));
}

#[test]
fn irgen_non_constant_initializer_error() {
    let r = compile("int main() { int x; const int c = x; return c; }");
    assert!(matches!(r, Err(CompileError::NonConstantInit(ref s)) if s == "c"));
    let r = compile("int main() { int x; int y = x; return y; }");
    assert!(matches!(r, Err(CompileError::NonConstantInit(ref s)) if s == "y"));
}

#[test]
fn irgen_folding_errors() {
    assert!(matches!(compile("int main() { return 1 / 0; }"), Err(CompileError::DivideByZero)));
    assert!(matches!(compile("int main() { return 2147483647 + 1; }"), Err(CompileError::Overflow)));
}

#[test]
fn irgen_error_messages() {
    let e = compile("int main() { return a; }").unwrap_err();
    assert_eq!(e.message(), "undefined variable: a");
    let e = compile("int main() { int a; int a; return 0; }").unwrap_err();
    assert_eq!(e.message(), "redefined symbol: a");
    let e = compile("int main() { const int a = 1; a = 2; return a; }").unwrap_err();
    assert_eq!(e.message(), "should not assign to const");
}

#[test]
fn irgen_assignment_of_unknown_value_forgets_known_value() {
    // Once `x` is assigned the unknown `y`, its value 5 is no longer known:
    // `return x` reads memory.
    let p = compile("int main() { int x = 5; int y; x = y; return x; }").unwrap();
    let f = &p.funcs[0];
    assert_eq!(
        f.values,
        vec![
            ValueKind::Alloc,
            ValueKind::Integer(5),
            ValueKind::Store(1, 0),
            ValueKind::Alloc,
            ValueKind::Load(3),
            ValueKind::Store(4, 0),
            ValueKind::Load(0),
            ValueKind::Return(Some(6)),
        ]
    );
    assert_eq!(f.bbs[0].insts, vec![0, 2, 3, 4, 5, 6, 7]);
}

#[test]
fn irgen_assignment_of_folded_value_updates_known_value() {
    let p = compile("int main() { int x; x = 3; return x * 2; }").unwrap();
    let f = &p.funcs[0];
    assert_eq!(
        f.values,
        vec![
            ValueKind::Alloc,
            ValueKind::Integer(3),
            ValueKind::Store(1, 0),
            ValueKind::Integer(6),
            ValueKind::Return(Some(3)),
        ]
    );
}

#[test]
fn irgen_partly_folded_expression() {
    // `2 * 3` folds, `x` is loaded, and only the addition is emitted.
    let p = compile("int main() { int x; return x + 2 * 3; }").unwrap();
    let f = &p.funcs[0];
    assert_eq!(
        f.values,
        vec![
            ValueKind::Alloc,
            ValueKind::Load(0),
            ValueKind::Integer(6),
            ValueKind::Binary(BinaryOp::Add, 1, 2),
            ValueKind::Return(Some(3)),
        ]
    );
}

#[test]
fn irgen_later_statements_only_append() {
    let a = compile("int main() { int x; return x * 2; }").unwrap();
    let b = compile("int main() { int x; return x * 2; return x - 1; }").unwrap();
    let (fa, fb) = (&a.funcs[0], &b.funcs[0]);
    assert!(fb.values.len() > fa.values.len());
    assert_eq!(&fb.values[..fa.values.len()], &fa.values[..]);
    assert_eq!(&fb.bbs[0].insts[..fa.bbs[0].insts.len()], &fa.bbs[0].insts[..]);
}

#[test]
fn irgen_declared_variable_without_initializer_is_read_from_memory() {
    // `x` has the known value 5; `y`, declared after it without an
    // initializer, has none and is loaded.
    let p = compile("int main() { int x = 5; int y; return x + y; }").unwrap();
    let f = &p.funcs[0];
    assert_eq!(
        f.values,
        vec![
            ValueKind::Alloc,
            ValueKind::Integer(5),
            ValueKind::Store(1, 0),
            ValueKind::Alloc,
            ValueKind::Integer(5),
            ValueKind::Load(3),
            ValueKind::Binary(BinaryOp::Add, 4, 5),
            ValueKind::Return(Some(6)),
        ]
    );
}

#[test]
fn irgen_constant_with_unknown_initializer_is_refused() {
    let e = compile("int main() { int y; const int a = 1, b = y; return a; }").unwrap_err();
    assert_eq!(e.message(), "initializer is not a compile-time constant: b");
}
