use sysy_compiler::ir::{BinaryOp, FunctionData, Program, ValueKind};

#[test]
fn ir_handles_are_creation_order() {
    let mut f = FunctionData::new(String::from("@f"));
    let a = f.new_alloc();
    let one = f.new_integer(1);
    let st = f.new_store(one, a);
    let ld = f.new_load(a);
    let add = f.new_binary(BinaryOp::Add, ld, one);
    let ret = f.new_ret(Some(add));
    assert_eq!((a, one, st, ld, add, ret), (0, 1, 2, 3, 4, 5));
    assert_eq!(
        f.values,
        vec![
            ValueKind::Alloc,
            ValueKind::Integer(1),
            ValueKind::Store(1, 0),
            ValueKind::Load(0),
            ValueKind::Binary(BinaryOp::Add, 3, 1),
            ValueKind::Return(Some(4)),
        ]
    );
    assert!(f.bbs.is_empty());
}

#[test]
fn ir_blocks_and_instructions() {
    let mut f = FunctionData::new(String::from("@f"));
    let b0 = f.new_bb(Some(String::from("%entry")));
    let b1 = f.new_bb(None);
    assert_eq!((b0, b1), (0, 1));
    let v = f.new_integer(3);
    let r = f.new_ret(Some(v));
    f.push_inst(b1, r);
    f.push_inst(b1, v);
    assert!(f.bbs[0].insts.is_empty());
    assert_eq!(f.bbs[1].insts, vec![1, 0]);
    assert_eq!(f.bbs[0].name, Some(String::from("%entry")));
    assert_eq!(f.bbs[1].name, None);
}

#[test]
fn ir_new_program_is_empty() {
    let p = Program::new();
    assert!(p.funcs.is_empty());
}
