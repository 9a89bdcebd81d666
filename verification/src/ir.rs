//! In-memory intermediate representation, shaped after Koopa IR.
//!
//! A function owns a data-flow graph (`values`, indexed by the `Value`
//! handle) and a layout (`bbs`, each basic block listing the handles of its
//! instructions in order).  Handles are plain indices: the `n`-th value
//! created in a function gets handle `n`.
use vstd::prelude::*;

verus! {

/// Handle of a value inside a function: its index in the data-flow graph.
pub type Value = usize;

/// Handle of a basic block inside a function: its index in the layout.
pub type BasicBlock = usize;

/// Binary operators of the IR.
#[derive(Clone, Copy, PartialEq, Eq, Structural, Debug)]
pub enum BinaryOp {
    NotEq,
    Eq,
    Gt,
    Lt,
    Ge,
    Le,
    Add,
    Sub,
    Mul,
    Div,
    Mod,
    And,
    Or,
    Xor,
    Shl,
    Shr,
    Sar,
}

/// What a value is.  `Integer`, `Load` and `Binary` values have type `i32`,
/// `Alloc` values have type `*i32`, `Store` and `Return` have the unit type.
#[derive(Clone, Copy, PartialEq, Eq, Structural, Debug)]
pub enum ValueKind {
    Integer(i32),
    Alloc,
    Load(Value),
    Store(Value, Value),
    Binary(BinaryOp, Value, Value),
    Return(Option<Value>),
}

/// A basic block of the layout: an optional name and its instructions.
#[derive(Debug)]
pub struct BasicBlockData {
    pub name: Option<String>,
    pub insts: Vec<Value>,
}

/// A function definition with signature `() -> i32`.
#[derive(Debug)]
pub struct FunctionData {
    pub name: String,
    pub values: Vec<ValueKind>,
    pub bbs: Vec<BasicBlockData>,
}

/// A program: its functions, in layout order.
#[derive(Debug)]
pub struct Program {
    pub funcs: Vec<FunctionData>,
}

/// The value kinds that produce an `i32`.
pub open spec fn is_i32_kind(k: ValueKind) -> bool {
    k is Integer || k is Load || k is Binary
}

/// Whether handle `v` names an `i32` value among `values`.
pub open spec fn is_i32_value(values: Seq<ValueKind>, v: Value) -> bool {
    v < values.len() && is_i32_kind(values[v as int])
}

/// Whether handle `v` names a memory allocation among `values`.
pub open spec fn is_alloc_value(values: Seq<ValueKind>, v: Value) -> bool {
    v < values.len() && values[v as int] is Alloc
}

/// A value kind is well typed at position `i` when its operands are earlier
/// values of the types that Koopa IR asks for.
pub open spec fn kind_wf(values: Seq<ValueKind>, i: int, k: ValueKind) -> bool {
    match k {
        ValueKind::Integer(_) => true,
        ValueKind::Alloc => true,
        ValueKind::Load(src) => src < i && is_alloc_value(values, src),
        ValueKind::Store(v, dest) => v < i && dest < i && is_i32_value(values, v)
            && is_alloc_value(values, dest),
        ValueKind::Binary(_, l, r) => l < i && r < i && is_i32_value(values, l)
            && is_i32_value(values, r),
        ValueKind::Return(r) => match r {
            Some(v) => v < i && is_i32_value(values, v),
            None => true,
        },
    }
}

/// Every value of the data-flow graph is well typed.
pub open spec fn values_wf(values: Seq<ValueKind>) -> bool {
    forall|i: int| 0 <= i < values.len() ==> #[trigger] kind_wf(values, i, values[i])
}

/// Every instruction handle of a block names an existing value.
pub open spec fn insts_wf(values: Seq<ValueKind>, insts: Seq<Value>) -> bool {
    forall|j: int| 0 <= j < insts.len() ==> #[trigger] insts[j] < values.len()
}

/// Whether a function name is acceptable to Koopa IR: `@` or `%` followed by
/// at least one more character.
pub open spec fn is_ir_name(name: Seq<char>) -> bool {
    name.len() > 1 && (name[0] == '@' || name[0] == '%')
}

impl FunctionData {
    /// The function's well-formedness.
    #[verifier::opaque]
    pub open spec fn wf(&self) -> bool {
        &&& is_ir_name(self.name@)
        &&& values_wf(self.values@)
        &&& forall|b: int| 0 <= b < self.bbs@.len() ==> insts_wf(self.values@, #[trigger] self.bbs@[b].insts@)
    }

    /// The instructions of block `bb`.
    pub open spec fn insts_of(&self, bb: int) -> Seq<Value> {
        self.bbs@[bb].insts@
    }

    /// Whether the layout is the same as `other`'s except for the
    /// instructions of block `bb`.
    #[verifier::opaque]
    pub open spec fn same_layout_except(&self, other: &FunctionData, bb: int) -> bool {
        &&& self.name@ == other.name@
        &&& self.bbs@.len() == other.bbs@.len()
        &&& forall|b: int| 0 <= b < self.bbs@.len() && b != bb ==> #[trigger] self.bbs@[b].insts@
            == other.bbs@[b].insts@
        &&& forall|b: int| 0 <= b < self.bbs@.len() ==> #[trigger] self.bbs@[b].name
            == other.bbs@[b].name
    }

    /// Creates a function definition with no parameters returning `i32`.
    pub fn new(name: String) -> (f: FunctionData)
        requires
            is_ir_name(name@),
        ensures
            f.wf(),
            f.name@ == name@,
            f.values@ == Seq::<ValueKind>::empty(),
            f.bbs@.len() == 0,
    {
        reveal(FunctionData::wf);
        reveal(FunctionData::same_layout_except);
        FunctionData { name, values: Vec::new(), bbs: Vec::new() }
    }

    /// Adds a value to the data-flow graph and returns its handle.
    fn insert_value(&mut self, k: ValueKind) -> (v: Value)
        requires
            old(self).wf(),
            kind_wf(old(self).values@, old(self).values@.len() as int, k),
        ensures
            final(self).wf(),
            v == old(self).values@.len(),
            final(self).values@ == old(self).values@.push(k),
            final(self).bbs@ == old(self).bbs@,
            final(self).name@ == old(self).name@,
    {
        reveal(FunctionData::wf);
        reveal(FunctionData::same_layout_except);
        let v = self.values.len();
        let ghost vals = self.values@;
        self.values.push(k);
        proof {
            let nv = self.values@;
            assert forall|i: int| 0 <= i < nv.len() implies #[trigger] kind_wf(nv, i, nv[i]) by {
                if i < vals.len() {
                    assert(kind_wf(vals, i, vals[i]));
                }
            }
            assert forall|b: int| 0 <= b < self.bbs@.len() implies insts_wf(nv, #[trigger] self.bbs@[b].insts@) by {
                assert(insts_wf(vals, self.bbs@[b].insts@));
            }
        }
        v
    }

    /// Creates an integer constant.
    pub fn new_integer(&mut self, n: i32) -> (v: Value)
        requires
            old(self).wf(),
        ensures
            final(self).wf(),
            v == old(self).values@.len(),
            final(self).values@ == old(self).values@.push(ValueKind::Integer(n)),
            final(self).bbs@ == old(self).bbs@,
            final(self).name@ == old(self).name@,
    {
        self.insert_value(ValueKind::Integer(n))
    }

    /// Creates a local allocation of one `i32`.
    pub fn new_alloc(&mut self) -> (v: Value)
        requires
            old(self).wf(),
        ensures
            final(self).wf(),
            v == old(self).values@.len(),
            final(self).values@ == old(self).values@.push(ValueKind::Alloc),
            final(self).bbs@ == old(self).bbs@,
            final(self).name@ == old(self).name@,
    {
        self.insert_value(ValueKind::Alloc)
    }

    /// Creates a load from an allocation.
    pub fn new_load(&mut self, src: Value) -> (v: Value)
        requires
            old(self).wf(),
            is_alloc_value(old(self).values@, src),
        ensures
            final(self).wf(),
            v == old(self).values@.len(),
            final(self).values@ == old(self).values@.push(ValueKind::Load(src)),
            final(self).bbs@ == old(self).bbs@,
            final(self).name@ == old(self).name@,
    {
        self.insert_value(ValueKind::Load(src))
    }

    /// Creates a store of an `i32` value into an allocation.
    pub fn new_store(&mut self, value: Value, dest: Value) -> (v: Value)
        requires
            old(self).wf(),
            is_i32_value(old(self).values@, value),
            is_alloc_value(old(self).values@, dest),
        ensures
            final(self).wf(),
            v == old(self).values@.len(),
            final(self).values@ == old(self).values@.push(ValueKind::Store(value, dest)),
            final(self).bbs@ == old(self).bbs@,
            final(self).name@ == old(self).name@,
    {
        self.insert_value(ValueKind::Store(value, dest))
    }

    /// Creates a binary operation on two `i32` values.
    pub fn new_binary(&mut self, op: BinaryOp, lhs: Value, rhs: Value) -> (v: Value)
        requires
            old(self).wf(),
            is_i32_value(old(self).values@, lhs),
            is_i32_value(old(self).values@, rhs),
        ensures
            final(self).wf(),
            v == old(self).values@.len(),
            final(self).values@ == old(self).values@.push(ValueKind::Binary(op, lhs, rhs)),
            final(self).bbs@ == old(self).bbs@,
            final(self).name@ == old(self).name@,
    {
        self.insert_value(ValueKind::Binary(op, lhs, rhs))
    }

    /// Creates a return, with or without an `i32` result.
    pub fn new_ret(&mut self, value: Option<Value>) -> (v: Value)
        requires
            old(self).wf(),
            value matches Some(r) ==> is_i32_value(old(self).values@, r),
        ensures
            final(self).wf(),
            v == old(self).values@.len(),
            final(self).values@ == old(self).values@.push(ValueKind::Return(value)),
            final(self).bbs@ == old(self).bbs@,
            final(self).name@ == old(self).name@,
    {
        self.insert_value(ValueKind::Return(value))
    }

    /// Appends an empty basic block to the layout and returns its handle.
    pub fn new_bb(&mut self, name: Option<String>) -> (bb: BasicBlock)
        requires
            old(self).wf(),
        ensures
            final(self).wf(),
            bb == old(self).bbs@.len(),
            final(self).bbs@.len() == old(self).bbs@.len() + 1,
            forall|b: int| 0 <= b < old(self).bbs@.len() ==> #[trigger] final(self).bbs@[b] == old(self).bbs@[b],
            final(self).bbs@[bb as int].insts@ == Seq::<Value>::empty(),
            final(self).bbs@[bb as int].name == name,
            final(self).values@ == old(self).values@,
            final(self).name@ == old(self).name@,
    {
        reveal(FunctionData::wf);
        reveal(FunctionData::same_layout_except);
        let bb = self.bbs.len();
        let ghost old_bbs = self.bbs@;
        self.bbs.push(BasicBlockData { name, insts: Vec::new() });
        proof {
            assert forall|b: int| 0 <= b < self.bbs@.len() implies insts_wf(self.values@, #[trigger] self.bbs@[b].insts@) by {
                if b < old_bbs.len() {
                    assert(insts_wf(self.values@, old_bbs[b].insts@));
                }
            }
        }
        bb
    }

    /// Appends the instruction `v` at the end of block `bb`.
    pub fn push_inst(&mut self, bb: BasicBlock, v: Value)
        requires
            old(self).wf(),
            bb < old(self).bbs@.len(),
            v < old(self).values@.len(),
        ensures
            final(self).wf(),
            final(self).values@ == old(self).values@,
            final(self).insts_of(bb as int) == old(self).insts_of(bb as int).push(v),
            final(self).same_layout_except(old(self), bb as int),
    {
        reveal(FunctionData::wf);
        reveal(FunctionData::same_layout_except);
        let ghost old_bbs = self.bbs@;
        let mut data = self.bbs.remove(bb);
        data.insts.push(v);
        self.bbs.insert(bb, data);
        proof {
            assert forall|b: int| 0 <= b < self.bbs@.len() implies insts_wf(self.values@, #[trigger] self.bbs@[b].insts@) by {
                if b != bb {
                    assert(self.bbs@[b] == old_bbs[b]);
                    assert(insts_wf(self.values@, old_bbs[b].insts@));
                } else {
                    assert(insts_wf(self.values@, old_bbs[b].insts@));
                }
            }
            assert forall|b: int| 0 <= b < self.bbs@.len() && b != bb implies #[trigger] self.bbs@[b].insts@
                == old_bbs[b].insts@ by {
                assert(self.bbs@[b] == old_bbs[b]);
            }
            assert forall|b: int| 0 <= b < self.bbs@.len() implies #[trigger] self.bbs@[b].name
                == old_bbs[b].name by {
                if b != bb {
                    assert(self.bbs@[b] == old_bbs[b]);
                }
            }
        }
    }
}

impl Program {
    /// Creates an empty program.
    pub fn new() -> (p: Program)
        ensures
            p.funcs@.len() == 0,
    {
        Program { funcs: Vec::new() }
    }

    /// Every function of the program is well formed.
    pub open spec fn wf(&self) -> bool {
        forall|i: int| 0 <= i < self.funcs@.len() ==> (#[trigger] self.funcs@[i]).wf()
    }
}

} // verus!
