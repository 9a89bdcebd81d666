use sysy_compiler::basic_riscv::GenerateBasicAsm;
use sysy_compiler::ir::{FunctionData, Program};
use sysy_compiler::parser::parse;

fn compile(src: &str) -> Program {
    let chars: Vec<char> = src.chars().collect();
    let mut unit = parse(&chars).unwrap();
    unit.convert_to_koopa_ir().unwrap()
}

#[test]
fn basic_asm_of_constant_return() {
    let p = compile("int main() { return 3; }");
    let mut buf = String::new();
    p.generate(&mut buf);
    assert_eq!(buf, " .text\n .global main\nmain:\n li a0, 3\n ret\n");
}

#[test]
fn basic_asm_of_folded_return() {
    let p = compile("int main() { const int a = -4; return a * 5; }");
    let mut buf = String::new();
    p.generate(&mut buf);
    assert_eq!(buf, " .text\n .global main\nmain:\n li a0, -20\n ret\n");
}

#[test]
fn basic_asm_ignores_other_instructions() {
    let p = compile("int main() { int x = 1; x = 2; return x; }");
    let mut buf = String::new();
    p.generate(&mut buf);
    assert_eq!(buf, " .text\n .global main\nmain:\n li a0, 2\n ret\n");
}

#[test]
fn basic_asm_of_non_constant_return_has_empty_operand() {
    let p = compile("int main() { int x; return x; }");
    let mut buf = String::new();
    p.generate(&mut buf);
    assert_eq!(buf, " .text\n .global main\nmain:\n li a0, \n ret\n");
}

#[test]
fn basic_asm_of_return_without_value() {
    let mut f = FunctionData::new(String::from("@f"));
    let bb = f.new_bb(None);
    let r = f.new_ret(None);
    f.push_inst(bb, r);
    let mut buf = String::from("#");
    f.generate(&mut buf);
    assert_eq!(buf, "# .global f\nf:\n ret\n");
}

#[test]
fn basic_asm_of_every_return() {
    let p = compile("int main() { return 1; return 2; }");
    let mut buf = String::new();
    p.generate(&mut buf);
    assert_eq!(buf, " .text\n .global main\nmain:\n li a0, 1\n ret\n li a0, 2\n ret\n");
}
