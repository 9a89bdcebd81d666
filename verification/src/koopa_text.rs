//! The text form of a program in Koopa IR, as koopa's generator writes it.
use koopa::ir::builder_traits::{BasicBlockBuilder, LocalInstBuilder, ValueBuilder};
use koopa::ir::BinaryOp as K;
use vstd::prelude::*;

use crate::ir::{
    is_alloc_value, is_i32_kind, is_i32_value, is_ir_name, kind_wf, values_wf, insts_wf, BasicBlockData, BinaryOp, FunctionData, Program, Value,
    ValueKind,
};

verus! {

/// The handles of `s` without repeats, each at its first place.
pub open spec fn first_occurrences(s: Seq<Value>) -> Seq<Value>
    decreases s.len(),
{
    if s.len() == 0 {
        s
    } else {
        let p = first_occurrences(s.drop_last());
        if p.contains(s.last()) {
            p
        } else {
            p.push(s.last())
        }
    }
}

/// Every handle that `first_occurrences(s)` keeps is one of `s`.
proof fn lemma_first_occurrences_from(s: Seq<Value>)
    ensures
        forall|j: int| 0 <= j < first_occurrences(s).len() ==> s.contains(#[trigger] first_occurrences(s)[j]),
    decreases s.len(),
{
    if s.len() > 0 {
        let d = s.drop_last();
        lemma_first_occurrences_from(d);
        let p = first_occurrences(d);
        assert forall|j: int| 0 <= j < first_occurrences(s).len() implies s.contains(#[trigger] first_occurrences(s)[j]) by {
            if j < p.len() {
                assert(d.contains(p[j]));
                let k = choose|k: int| 0 <= k < d.len() && d[k] == p[j];
                assert(s[k] == d[k]);
            } else {
                assert(s[s.len() - 1] == s.last());
            }
        }
    }
}

/// A basic block as plain values: its name and its instructions, each once
/// (koopa keeps an instruction once in a block).
pub open spec fn block_plain(bb: BasicBlockData) -> (Option<Seq<char>>, Seq<Value>) {
    (
        match bb.name {
            Some(n) => Some(n@),
            None => None,
        },
        first_occurrences(bb.insts@),
    )
}

/// A function as plain values: its name, its values and its blocks.
pub open spec fn function_plain(f: FunctionData) -> (Seq<char>, Seq<ValueKind>, Seq<(Option<Seq<char>>, Seq<Value>)>) {
    (f.name@, f.values@, f.bbs@.map_values(|bb: BasicBlockData| block_plain(bb)))
}

/// A program as plain values: its functions, in order.
pub open spec fn program_plain(p: &Program) -> Seq<(Seq<char>, Seq<ValueKind>, Seq<(Option<Seq<char>>, Seq<Value>)>)> {
    p.funcs@.map_values(|f: FunctionData| function_plain(f))
}

/// The Koopa IR text that koopa's `KoopaGenerator` writes for the program
/// whose functions are `funcs` (each a function `() -> i32` with its name,
/// its values, and its blocks with their names and instructions).
pub uninterp spec fn koopa_text_of(
    funcs: Seq<(Seq<char>, Seq<ValueKind>, Seq<(Option<Seq<char>>, Seq<Value>)>)>,
) -> Seq<char>;

/// Whether koopa takes block `bb` of a function with values `values`: its
/// name, when it has one, is `%` or `@` followed by at least one more
/// character, and it holds instructions only, no integer constant.
pub open spec fn block_accepted(values: Seq<ValueKind>, bb: BasicBlockData) -> bool {
    &&& bb.name matches Some(n) ==> is_ir_name(n@)
    &&& forall|j: int| 0 <= j < bb.insts@.len() ==> !(values[#[trigger] bb.insts@[j] as int] is Integer)
}

/// Whether koopa takes function `f`: it is well formed and koopa takes each
/// of its blocks.
pub open spec fn function_accepted(f: FunctionData) -> bool {
    &&& f.wf()
    &&& forall|b: int| 0 <= b < f.bbs@.len() ==> block_accepted(f.values@, #[trigger] f.bbs@[b])
}

/// Whether koopa takes `p`: it takes each of its functions.  On any other
/// program koopa's builders or its generator panic.
pub open spec fn program_accepted(p: &Program) -> bool {
    forall|i: int| 0 <= i < p.funcs@.len() ==> function_accepted(#[trigger] p.funcs@[i])
}

/// Whether `name` is `@` or `%` followed by at least one more character.
fn ir_name_ok(name: &String) -> (b: bool)
    ensures
        b == is_ir_name(name@),
{
    let s = name.as_str();
    if s.unicode_len() < 2 {
        return false;
    }
    let c = s.get_char(0);
    c == '@' || c == '%'
}

/// Whether `v` names an `i32` value among `values`.
fn i32_value_ok(values: &Vec<ValueKind>, v: Value) -> (b: bool)
    ensures
        b == is_i32_value(values@, v),
{
    v < values.len() && match values[v] {
        ValueKind::Integer(_) | ValueKind::Load(_) | ValueKind::Binary(..) => true,
        _ => false,
    }
}

/// Whether `v` names an allocation among `values`.
fn alloc_value_ok(values: &Vec<ValueKind>, v: Value) -> (b: bool)
    ensures
        b == is_alloc_value(values@, v),
{
    v < values.len() && match values[v] {
        ValueKind::Alloc => true,
        _ => false,
    }
}

/// Whether value `i` of `values` is well typed.
fn kind_ok(values: &Vec<ValueKind>, i: usize) -> (b: bool)
    requires
        i < values.len(),
    ensures
        b == kind_wf(values@, i as int, values@[i as int]),
{
    match values[i] {
        ValueKind::Integer(_) => true,
        ValueKind::Alloc => true,
        ValueKind::Load(src) => src < i && alloc_value_ok(values, src),
        ValueKind::Store(v, dest) => v < i && dest < i && i32_value_ok(values, v) && alloc_value_ok(values, dest),
        ValueKind::Binary(_, l, r) => l < i && r < i && i32_value_ok(values, l) && i32_value_ok(values, r),
        ValueKind::Return(r) => match r {
            Some(v) => v < i && i32_value_ok(values, v),
            None => true,
        },
    }
}

/// Whether every value of `values` is well typed.
fn values_ok(values: &Vec<ValueKind>) -> (b: bool)
    ensures
        b == values_wf(values@),
{
    let mut i: usize = 0;
    while i < values.len()
        invariant
            i <= values.len(),
            forall|j: int| 0 <= j < i ==> #[trigger] kind_wf(values@, j, values@[j]),
        decreases values.len() - i,
    {
        if !kind_ok(values, i) {
            return false;
        }
        i = i + 1;
    }
    true
}

/// Whether the instructions of `bb` name values among `values`, and koopa
/// takes `bb`.
fn block_ok(values: &Vec<ValueKind>, bb: &BasicBlockData) -> (b: bool)
    ensures
        b == (insts_wf(values@, bb.insts@) && block_accepted(values@, *bb)),
{
    match &bb.name {
        Some(n) => if !ir_name_ok(n) {
            return false;
        },
        None => {},
    }
    let mut j: usize = 0;
    while j < bb.insts.len()
        invariant
            j <= bb.insts@.len(),
            forall|k: int| 0 <= k < j ==> #[trigger] bb.insts@[k] < values@.len() && !(values@[bb.insts@[k] as int] is Integer),
        decreases bb.insts@.len() - j,
    {
        let v = bb.insts[j];
        if v >= values.len() {
            return false;
        }
        if let ValueKind::Integer(_) = values[v] {
            return false;
        }
        j = j + 1;
    }
    true
}

/// Whether koopa takes function `f`.
fn function_ok(f: &FunctionData) -> (b: bool)
    ensures
        b == function_accepted(*f),
{
    reveal(FunctionData::wf);
    if !ir_name_ok(&f.name) {
        assert(!f.wf());
        return false;
    }
    if !values_ok(&f.values) {
        assert(!f.wf());
        return false;
    }
    let mut b: usize = 0;
    while b < f.bbs.len()
        invariant
            b <= f.bbs@.len(),
            is_ir_name(f.name@),
            values_wf(f.values@),
            forall|k: int| 0 <= k < b ==> insts_wf(f.values@, (#[trigger] f.bbs@[k]).insts@) && block_accepted(f.values@, f.bbs@[k]),
        decreases f.bbs@.len() - b,
    {
        if !block_ok(&f.values, &f.bbs[b]) {
            let ghost k = b as int;
            assert(!(insts_wf(f.values@, f.bbs@[k].insts@) && block_accepted(f.values@, f.bbs@[k])));
            proof {
                reveal(FunctionData::wf);
            }
            return false;
        }
        b = b + 1;
    }
    assert(f.wf());
    true
}

/// A koopa program being built, with the handles of the last function,
/// of that function's values in the order they were made, and of its last
/// block.
#[verifier::external_body]
pub struct KoopaBuild {
    kp: koopa::ir::Program,
    func: Option<koopa::ir::Function>,
    values: Vec<koopa::ir::Value>,
    block: Option<koopa::ir::BasicBlock>,
}

/// The functions of the koopa program that `kb` builds, in layout order, as
/// plain values: each function's name, its values in the order they were
/// made (an operand given by the position of its value in that order), and
/// its basic blocks in layout order with their names and instructions.
pub uninterp spec fn koopa_funcs(kb: KoopaBuild) -> Seq<(Seq<char>, Seq<ValueKind>, Seq<(Option<Seq<char>>, Seq<Value>)>)>;

/// `fs` with its last function's values followed by `k`.
pub open spec fn with_value(
    fs: Seq<(Seq<char>, Seq<ValueKind>, Seq<(Option<Seq<char>>, Seq<Value>)>)>,
    k: ValueKind,
) -> Seq<(Seq<char>, Seq<ValueKind>, Seq<(Option<Seq<char>>, Seq<Value>)>)> {
    let last = fs.last();
    fs.update(fs.len() - 1, (last.0, last.1.push(k), last.2))
}

/// The values of the last function of `kb`.
pub open spec fn last_values(kb: KoopaBuild) -> Seq<ValueKind> {
    koopa_funcs(kb).last().1
}

/// A builder with no function yet (`koopa::ir::Program::new`).
#[verifier::external_body]
fn koopa_new() -> (kb: KoopaBuild)
    ensures
        koopa_funcs(kb) == Seq::<(Seq<char>, Seq<ValueKind>, Seq<(Option<Seq<char>>, Seq<Value>)>)>::empty(),
{
    KoopaBuild { kp: koopa::ir::Program::new(), func: None, values: Vec::new(), block: None }
}

/// Adds a function definition `() -> i32` named `name`, with no value and
/// no block, last in the layout (`Program::new_func_def`, which panics on a
/// name that is not `@` or `%` followed by a character).
#[verifier::external_body]
fn koopa_new_func(kb: &mut KoopaBuild, name: String)
    requires
        is_ir_name(name@),
    ensures
        koopa_funcs(*final(kb)) == koopa_funcs(*old(kb)).push((name@, Seq::empty(), Seq::empty())),
{
    kb.func = Some(kb.kp.new_func_def(name, Vec::new(), koopa::ir::Type::get_i32()));
    kb.values = Vec::new();
    kb.block = None;
}

/// Makes the integer constant `n` in the last function
/// (`LocalBuilder::integer`).
#[verifier::external_body]
fn koopa_integer(kb: &mut KoopaBuild, n: i32)
    requires
        koopa_funcs(*old(kb)).len() > 0,
    ensures
        koopa_funcs(*final(kb)) == with_value(koopa_funcs(*old(kb)), ValueKind::Integer(n)),
{
    let v = kb.kp.func_mut(kb.func.unwrap()).dfg_mut().new_value().integer(n);
    kb.values.push(v);
}

/// Makes an allocation of an `i32` in the last function
/// (`LocalInstBuilder::alloc`).
#[verifier::external_body]
fn koopa_alloc(kb: &mut KoopaBuild)
    requires
        koopa_funcs(*old(kb)).len() > 0,
    ensures
        koopa_funcs(*final(kb)) == with_value(koopa_funcs(*old(kb)), ValueKind::Alloc),
{
    let v = kb.kp.func_mut(kb.func.unwrap()).dfg_mut().new_value().alloc(koopa::ir::Type::get_i32());
    kb.values.push(v);
}

/// Makes a load from value `a` of the last function
/// (`LocalInstBuilder::load`, which panics unless its source is a pointer:
/// here an allocation).
#[verifier::external_body]
fn koopa_load(kb: &mut KoopaBuild, a: usize)
    requires
        koopa_funcs(*old(kb)).len() > 0,
        a < last_values(*old(kb)).len(),
        last_values(*old(kb))[a as int] is Alloc,
    ensures
        koopa_funcs(*final(kb)) == with_value(koopa_funcs(*old(kb)), ValueKind::Load(a)),
{
    let v = kb.kp.func_mut(kb.func.unwrap()).dfg_mut().new_value().load(kb.values[a]);
    kb.values.push(v);
}

/// Makes a store of value `x` into value `d` of the last function
/// (`LocalInstBuilder::store`, which panics unless `d` points to values of
/// `x`'s type: here `x` is an `i32` and `d` an allocation).
#[verifier::external_body]
fn koopa_store(kb: &mut KoopaBuild, x: usize, d: usize)
    requires
        koopa_funcs(*old(kb)).len() > 0,
        x < last_values(*old(kb)).len(),
        d < last_values(*old(kb)).len(),
        is_i32_kind(last_values(*old(kb))[x as int]),
        last_values(*old(kb))[d as int] is Alloc,
    ensures
        koopa_funcs(*final(kb)) == with_value(koopa_funcs(*old(kb)), ValueKind::Store(x, d)),
{
    let v = kb.kp.func_mut(kb.func.unwrap()).dfg_mut().new_value().store(kb.values[x], kb.values[d]);
    kb.values.push(v);
}

/// Makes the binary operation `op` on values `l` and `r` of the last
/// function (`LocalInstBuilder::binary`, which panics unless both are
/// `i32`s); koopa's operator of each name for the IR's.
#[verifier::external_body]
fn koopa_binary(kb: &mut KoopaBuild, op: BinaryOp, l: usize, r: usize)
    requires
        koopa_funcs(*old(kb)).len() > 0,
        l < last_values(*old(kb)).len(),
        r < last_values(*old(kb)).len(),
        is_i32_kind(last_values(*old(kb))[l as int]),
        is_i32_kind(last_values(*old(kb))[r as int]),
    ensures
        koopa_funcs(*final(kb)) == with_value(koopa_funcs(*old(kb)), ValueKind::Binary(op, l, r)),
{
    let kop = match op {
        BinaryOp::NotEq => K::NotEq, BinaryOp::Eq => K::Eq, BinaryOp::Gt => K::Gt, BinaryOp::Lt => K::Lt,
        BinaryOp::Ge => K::Ge, BinaryOp::Le => K::Le, BinaryOp::Add => K::Add, BinaryOp::Sub => K::Sub,
        BinaryOp::Mul => K::Mul, BinaryOp::Div => K::Div, BinaryOp::Mod => K::Mod, BinaryOp::And => K::And,
        BinaryOp::Or => K::Or, BinaryOp::Xor => K::Xor, BinaryOp::Shl => K::Shl, BinaryOp::Shr => K::Shr,
        BinaryOp::Sar => K::Sar,
    };
    let v = kb.kp.func_mut(kb.func.unwrap()).dfg_mut().new_value().binary(kop, kb.values[l], kb.values[r]);
    kb.values.push(v);
}

/// Makes a return, of value `x` of the last function when given
/// (`LocalInstBuilder::ret`, which panics when that value has no type: here
/// it is an `i32`).
#[verifier::external_body]
fn koopa_ret(kb: &mut KoopaBuild, x: Option<usize>)
    requires
        koopa_funcs(*old(kb)).len() > 0,
        x matches Some(v) ==> v < last_values(*old(kb)).len() && is_i32_kind(last_values(*old(kb))[v as int]),
    ensures
        koopa_funcs(*final(kb)) == with_value(koopa_funcs(*old(kb)), ValueKind::Return(x)),
{
    let h = x.map(|v| kb.values[v]);
    let v = kb.kp.func_mut(kb.func.unwrap()).dfg_mut().new_value().ret(h);
    kb.values.push(v);
}

/// Makes a basic block named `name` (when given) and puts it last in the
/// layout of the last function (`BlockBuilder::basic_block`, which panics on
/// a name that is not `%` or `@` followed by a character, then
/// `push_key_back` into the layout, which takes a block not there yet).
#[verifier::external_body]
fn koopa_block(kb: &mut KoopaBuild, name: Option<String>)
    requires
        koopa_funcs(*old(kb)).len() > 0,
        name matches Some(n) ==> is_ir_name(n@),
    ensures
        ({
            let fs = koopa_funcs(*old(kb));
            let last = fs.last();
            let nv = match name {
                Some(n) => Some(n@),
                None => None,
            };
            koopa_funcs(*final(kb)) == fs.update(fs.len() - 1, (last.0, last.1, last.2.push((nv, Seq::<Value>::empty()))))
        }),
{
    let fd = kb.kp.func_mut(kb.func.unwrap());
    let b = fd.dfg_mut().new_bb().basic_block(name);
    let _ = fd.layout_mut().bbs_mut().push_key_back(b);
    kb.block = Some(b);
}

/// Puts value `v` of the last function last among the instructions of its
/// last block (`push_key_back` into the block's list, which leaves the list
/// as it is when `v` is in it already).
#[verifier::external_body]
fn koopa_push_inst(kb: &mut KoopaBuild, v: usize)
    requires
        koopa_funcs(*old(kb)).len() > 0,
        koopa_funcs(*old(kb)).last().2.len() > 0,
        v < last_values(*old(kb)).len(),
    ensures
        ({
            let fs = koopa_funcs(*old(kb));
            let last = fs.last();
            let bb = last.2.last();
            let insts = if bb.1.contains(v) { bb.1 } else { bb.1.push(v) };
            koopa_funcs(*final(kb)) == fs.update(fs.len() - 1, (last.0, last.1, last.2.update(last.2.len() - 1, (bb.0, insts))))
        }),
{
    let fd = kb.kp.func_mut(kb.func.unwrap());
    let _ = fd.layout_mut().bb_mut(kb.block.unwrap()).insts_mut().push_key_back(kb.values[v]);
}

/// The text that koopa's `KoopaGenerator::generate_on` writes for the
/// program `kb` built, as a `String` (writing into memory does not fail,
/// and the text is UTF-8).  The generator panics on a block that holds an
/// integer constant; here every block holds instructions only.
#[verifier::external_body]
fn koopa_generate(kb: &KoopaBuild) -> (r: String)
    requires
        forall|i: int, b: int, j: int|
            0 <= i < koopa_funcs(*kb).len() && 0 <= b < koopa_funcs(*kb)[i].2.len() && 0 <= j
                < koopa_funcs(*kb)[i].2[b].1.len() ==> ({
                let vals = koopa_funcs(*kb)[i].1;
                let x = #[trigger] koopa_funcs(*kb)[i].2[b].1[j];
                x < vals.len() && !(vals[x as int] is Integer)
            }),
    ensures
        r@ == koopa_text_of(koopa_funcs(*kb)),
{
    let mut g = koopa::back::KoopaGenerator::new(Vec::new());
    g.generate_on(&kb.kp).unwrap();
    String::from_utf8(g.writer()).unwrap()
}

/// Builds in `kb` the koopa function that `f` describes: one koopa value
/// for each of its values, in order, then its blocks with their
/// instructions.
fn build_function(kb: &mut KoopaBuild, f: &FunctionData)
    requires
        function_accepted(*f),
    ensures
        koopa_funcs(*final(kb)) == koopa_funcs(*old(kb)).push(function_plain(*f)),
{
    proof {
        reveal(FunctionData::wf);
    }
    let ghost fs0 = koopa_funcs(*kb);
    koopa_new_func(kb, f.name.clone());
    let mut i: usize = 0;
    assert(f.values@.take(0) =~= Seq::<ValueKind>::empty());
    while i < f.values.len()
        invariant
            i <= f.values@.len(),
            values_wf(f.values@),
            koopa_funcs(*kb) == fs0.push((f.name@, f.values@.take(i as int), Seq::<(Option<Seq<char>>, Seq<Value>)>::empty())),
        decreases f.values@.len() - i,
    {
        let ghost vals = f.values@;
        assert(kind_wf(vals, i as int, vals[i as int]));
        assert(last_values(*kb) == vals.take(i as int));
        match f.values[i] {
            ValueKind::Integer(n) => koopa_integer(kb, n),
            ValueKind::Alloc => koopa_alloc(kb),
            ValueKind::Load(a) => koopa_load(kb, a),
            ValueKind::Store(x, d) => koopa_store(kb, x, d),
            ValueKind::Binary(op, l, r) => koopa_binary(kb, op, l, r),
            ValueKind::Return(x) => koopa_ret(kb, x),
        }
        assert(vals.take(i + 1) =~= vals.take(i as int).push(vals[i as int]));
        i = i + 1;
    }
    assert(f.values@.take(i as int) =~= f.values@);
    let ghost bps = f.bbs@.map_values(|bb: BasicBlockData| block_plain(bb));
    let mut b: usize = 0;
    assert(bps.take(0) =~= Seq::<(Option<Seq<char>>, Seq<Value>)>::empty());
    while b < f.bbs.len()
        invariant
            b <= f.bbs@.len(),
            bps == f.bbs@.map_values(|bb: BasicBlockData| block_plain(bb)),
            forall|k: int| 0 <= k < f.bbs@.len() ==> insts_wf(f.values@, (#[trigger] f.bbs@[k]).insts@) && block_accepted(f.values@, f.bbs@[k]),
            koopa_funcs(*kb) == fs0.push((f.name@, f.values@, bps.take(b as int))),
        decreases f.bbs@.len() - b,
    {
        let bb = &f.bbs[b];
        assert(insts_wf(f.values@, bb.insts@) && block_accepted(f.values@, *bb));
        let name = match &bb.name {
            Some(n) => Some(n.clone()),
            None => None,
        };
        koopa_block(kb, name);
        let ghost nv = block_plain(*bb).0;
        let mut j: usize = 0;
        assert(bb.insts@.take(0) =~= Seq::<Value>::empty());
        while j < bb.insts.len()
            invariant
                j <= bb.insts@.len(),
                insts_wf(f.values@, bb.insts@),
                koopa_funcs(*kb) == fs0.push((f.name@, f.values@, bps.take(b as int).push((nv, first_occurrences(bb.insts@.take(j as int)))))),
            decreases bb.insts@.len() - j,
        {
            let ghost t = bb.insts@.take(j + 1);
            assert(t.drop_last() =~= bb.insts@.take(j as int));
            assert(t.last() == bb.insts@[j as int]);
            let ghost pre = bps.take(b as int);
            let ghost before = fs0.push((f.name@, f.values@, pre.push((nv, first_occurrences(bb.insts@.take(j as int))))));
            let ghost after = fs0.push((f.name@, f.values@, pre.push((nv, first_occurrences(t)))));
            koopa_push_inst(kb, bb.insts[j]);
            assert(before.last() == (f.name@, f.values@, pre.push((nv, first_occurrences(bb.insts@.take(j as int))))));
            assert(koopa_funcs(*kb) =~= after) by {
                let last = before.last();
                assert(last.2.update(last.2.len() - 1, (nv, first_occurrences(t))) =~= pre.push((nv, first_occurrences(t))));
            }
            j = j + 1;
        }
        assert(bb.insts@.take(j as int) =~= bb.insts@);
        assert(bps.take(b + 1) =~= bps.take(b as int).push(block_plain(*bb)));
        b = b + 1;
    }
    assert(bps.take(b as int) =~= bps);
}

/// The text of `program` in Koopa IR, as koopa's generator writes it; `None`
/// for a program that koopa does not take (on which koopa would panic).
pub fn koopa_text(program: &Program) -> (r: Option<String>)
    ensures
        r is Some <==> program_accepted(program),
        r matches Some(t) ==> t@ == koopa_text_of(program_plain(program)),
{
    let mut i: usize = 0;
    while i < program.funcs.len()
        invariant
            i <= program.funcs@.len(),
            forall|k: int| 0 <= k < i ==> function_accepted(#[trigger] program.funcs@[k]),
        decreases program.funcs@.len() - i,
    {
        if !function_ok(&program.funcs[i]) {
            return None;
        }
        i = i + 1;
    }
    let ghost plain = program_plain(program);
    let mut kb = koopa_new();
    let mut i: usize = 0;
    assert(plain.take(0) =~= Seq::<(Seq<char>, Seq<ValueKind>, Seq<(Option<Seq<char>>, Seq<Value>)>)>::empty());
    while i < program.funcs.len()
        invariant
            i <= program.funcs@.len(),
            program_accepted(program),
            plain == program_plain(program),
            koopa_funcs(kb) == plain.take(i as int),
        decreases program.funcs@.len() - i,
    {
        build_function(&mut kb, &program.funcs[i]);
        assert(plain.take(i + 1) =~= plain.take(i as int).push(function_plain(program.funcs@[i as int])));
        i = i + 1;
    }
    assert(plain.take(i as int) =~= plain);
    proof {
        lemma_plain_generates(program);
    }
    Some(koopa_generate(&kb))
}

/// Every instruction of a block of a program that koopa takes is a value of
/// its function that is not an integer constant.
proof fn lemma_plain_generates(program: &Program)
    requires
        program_accepted(program),
    ensures
        ({
            let fs = program_plain(program);
            forall|i: int, b: int, j: int|
                0 <= i < fs.len() && 0 <= b < fs[i].2.len() && 0 <= j < fs[i].2[b].1.len() ==> ({
                    let vals = fs[i].1;
                    let x = #[trigger] fs[i].2[b].1[j];
                    x < vals.len() && !(vals[x as int] is Integer)
                })
        }),
{
    let fs = program_plain(program);
    assert forall|i: int, b: int, j: int|
        0 <= i < fs.len() && 0 <= b < fs[i].2.len() && 0 <= j < fs[i].2[b].1.len() implies ({
            let vals = fs[i].1;
            let x = #[trigger] fs[i].2[b].1[j];
            x < vals.len() && !(vals[x as int] is Integer)
        }) by {
        let f = program.funcs@[i];
        assert(function_accepted(f));
        reveal(FunctionData::wf);
        let bb = f.bbs@[b];
        assert(insts_wf(f.values@, bb.insts@) && block_accepted(f.values@, bb));
        lemma_first_occurrences_from(bb.insts@);
        let x = first_occurrences(bb.insts@)[j];
        assert(bb.insts@.contains(x));
        let k = choose|k: int| 0 <= k < bb.insts@.len() && bb.insts@[k] == x;
        assert(bb.insts@[k] < f.values@.len());
        assert(!(f.values@[bb.insts@[k] as int] is Integer));
    }
}

} // verus!
