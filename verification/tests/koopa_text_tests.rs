use sysy_compiler::ir::{BasicBlockData, FunctionData, Program, ValueKind};
use sysy_compiler::koopa_text::koopa_text;
use sysy_compiler::parser::parse;

fn text_of(src: &str) -> Option<String> {
    let chars: Vec<char> = src.chars().collect();
    let mut unit = parse(&chars).unwrap();
    let p = unit.convert_to_koopa_ir().unwrap();
    koopa_text(&p)
}

#[test]
fn koopa_text_of_a_constant_return() {
    assert_eq!(
        text_of("int main() { return 1 + 2 * 3; }").unwrap(),
        "fun @main(): i32 {\n%entry:\n  ret 7\n}\n"
    );
}

#[test]
fn koopa_text_of_memory_and_operations() {
    assert_eq!(
        text_of("int main() { int x; return x + 1; }").unwrap(),
        "fun @main(): i32 {\n%entry:\n  %0 = alloc i32\n  %1 = load %0\n  %2 = add %1, 1\n  ret %2\n}\n"
    );
}

#[test]
fn koopa_text_refuses_a_constant_among_instructions() {
    let mut f = FunctionData::new(String::from("@f"));
    let bb = f.new_bb(Some(String::from("%entry")));
    let one = f.new_integer(1);
    f.push_inst(bb, one);
    let p = Program { funcs: vec![f] };
    assert_eq!(koopa_text(&p), None);
}

#[test]
fn koopa_text_refuses_a_bad_block_name() {
    let f = FunctionData {
        name: String::from("@f"),
        values: vec![ValueKind::Return(None)],
        bbs: vec![BasicBlockData { name: Some(String::from("entry")), insts: vec![0] }],
    };
    let p = Program { funcs: vec![f] };
    assert_eq!(koopa_text(&p), None);
    let f = FunctionData {
        name: String::from("@f"),
        values: vec![ValueKind::Return(None)],
        bbs: vec![BasicBlockData { name: Some(String::from("%b")), insts: vec![0] }],
    };
    let p = Program { funcs: vec![f] };
    assert_eq!(koopa_text(&p).unwrap(), "fun @f(): i32 {\n%b:\n  ret\n}\n");
}

#[test]
fn koopa_text_refuses_a_bad_function_name() {
    let f = FunctionData { name: String::from("@"), values: vec![], bbs: vec![] };
    let p = Program { funcs: vec![f] };
    assert_eq!(koopa_text(&p), None);
}
