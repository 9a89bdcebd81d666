//! The compiler driver's RISC-V output: every return becomes a load of its
//! integer result into `a0` followed by `ret`; no other value has code.
use vstd::prelude::*;

use crate::ir::{FunctionData, Program, ValueKind};
use crate::riscv::{int_text, push_int};

verus! {

/// The code of value `v`.
pub open spec fn value_text(vals: Seq<ValueKind>, v: int) -> Seq<char> {
    match vals[v] {
        ValueKind::Return(ret) => match ret {
            Some(x) => " li a0, "@ + (if 0 <= x < vals.len() {
                match vals[x as int] {
                    ValueKind::Integer(i) => int_text(i),
                    _ => Seq::empty(),
                }
            } else {
                Seq::empty()
            }) + "\n"@ + " ret\n"@,
            None => " ret\n"@,
        },
        _ => Seq::empty(),
    }
}

/// The code of the instructions `insts`, in order.
pub open spec fn insts_text(vals: Seq<ValueKind>, insts: Seq<usize>) -> Seq<char>
    decreases insts.len(),
{
    if insts.len() == 0 {
        Seq::empty()
    } else {
        insts_text(vals, insts.drop_last()) + value_text(vals, insts.last() as int)
    }
}

/// The code of the basic blocks `bbs`, in layout order.
pub open spec fn blocks_text(vals: Seq<ValueKind>, bbs: Seq<crate::ir::BasicBlockData>) -> Seq<char>
    decreases bbs.len(),
{
    if bbs.len() == 0 {
        Seq::empty()
    } else {
        blocks_text(vals, bbs.drop_last()) + insts_text(vals, bbs.last().insts@)
    }
}

/// The assembly of a function: its symbol, made global, then its blocks.
pub open spec fn function_text(f: &FunctionData) -> Seq<char> {
    let sym = f.name@.subrange(1, f.name@.len() as int);
    " .global "@ + sym + "\n"@ + sym + ":\n"@ + blocks_text(f.values@, f.bbs@)
}

/// The assembly of functions, in layout order.
pub open spec fn functions_text(fs: Seq<FunctionData>) -> Seq<char>
    decreases fs.len(),
{
    if fs.len() == 0 {
        Seq::empty()
    } else {
        functions_text(fs.drop_last()) + function_text(&fs.last())
    }
}

/// Generates the driver's RISC-V assembly from the in-memory IR.
pub trait GenerateBasicAsm {
    /// Whether the IR can be read.
    spec fn basic_ready(&self) -> bool;

    /// The assembly text.
    spec fn basic_text(&self) -> Seq<char>;

    /// Appends the assembly text to `buf`.
    fn generate(&self, buf: &mut String)
        requires
            self.basic_ready(),
        ensures
            final(buf)@ == old(buf)@ + self.basic_text(),
    ;
}

/// Appends the code of value `value`.
fn generate_value(value: usize, func: &FunctionData, buf: &mut String)
    requires
        value < func.values@.len(),
    ensures
        final(buf)@ == old(buf)@ + value_text(func.values@, value as int),
{
    match func.values[value] {
        ValueKind::Return(ret) => {
            match ret {
                Some(ret_value) => {
                    buf.append(" li a0, ");
                    if ret_value < func.values.len() {
                        match func.values[ret_value] {
                            ValueKind::Integer(i) => push_int(i, buf),
                            _ => {},
                        }
                    }
                    buf.append("\n");
                },
                None => {},
            }
            buf.append(" ret\n");
        },
        _ => {},
    }
    assert(final(buf)@ =~= old(buf)@ + value_text(func.values@, value as int));
}

impl GenerateBasicAsm for FunctionData {
    open spec fn basic_ready(&self) -> bool {
        self.wf()
    }

    open spec fn basic_text(&self) -> Seq<char> {
        function_text(self)
    }

    fn generate(&self, buf: &mut String) {
        proof { reveal(FunctionData::wf); }
        buf.append(" .global ");
        let n = self.name.as_str().unicode_len();
        let fun_name = self.name.as_str().substring_char(1, n);
        buf.append(fun_name);
        buf.append("\n");
        buf.append(fun_name);
        buf.append(":\n");
        let ghost head = buf@;
        assert(self.bbs@.take(0) =~= Seq::<crate::ir::BasicBlockData>::empty());
        let mut b: usize = 0;
        while b < self.bbs.len()
            invariant
                b <= self.bbs@.len(),
                self.wf(),
                forall|k: int| 0 <= k < self.bbs@.len() ==> crate::ir::insts_wf(self.values@, #[trigger] self.bbs@[k].insts@),
                buf@ == head + blocks_text(self.values@, self.bbs@.take(b as int)),
            decreases self.bbs@.len() - b,
        {
            let insts = &self.bbs[b].insts;
            let ghost start = buf@;
            let mut i: usize = 0;
            assert(insts@.take(0) =~= Seq::<usize>::empty());
            assert(crate::ir::insts_wf(self.values@, insts@));
            while i < insts.len()
                invariant
                    i <= insts@.len(),
                    crate::ir::insts_wf(self.values@, insts@),
                    buf@ == start + insts_text(self.values@, insts@.take(i as int)),
                decreases insts@.len() - i,
            {
                generate_value(insts[i], self, buf);
                assert(insts@.take(i + 1).drop_last() =~= insts@.take(i as int));
                assert(buf@ =~= start + insts_text(self.values@, insts@.take(i + 1)));
                i = i + 1;
            }
            assert(insts@.take(i as int) =~= insts@);
            assert(self.bbs@.take(b + 1).drop_last() =~= self.bbs@.take(b as int));
            assert(buf@ =~= head + blocks_text(self.values@, self.bbs@.take(b + 1)));
            b = b + 1;
        }
        assert(self.bbs@.take(b as int) =~= self.bbs@);
        assert(buf@ =~= old(buf)@ + function_text(self));
    }
}

impl GenerateBasicAsm for Program {
    open spec fn basic_ready(&self) -> bool {
        self.wf()
    }

    open spec fn basic_text(&self) -> Seq<char> {
        " .text\n"@ + functions_text(self.funcs@)
    }

    fn generate(&self, buf: &mut String) {
        buf.append(" .text\n");
        let ghost head = buf@;
        let mut i: usize = 0;
        assert(self.funcs@.take(0) =~= Seq::<FunctionData>::empty());
        while i < self.funcs.len()
            invariant
                i <= self.funcs@.len(),
                self.wf(),
                buf@ == head + functions_text(self.funcs@.take(i as int)),
            decreases self.funcs@.len() - i,
        {
            self.funcs[i].generate(buf);
            assert(self.funcs@.take(i + 1).drop_last() =~= self.funcs@.take(i as int));
            assert(buf@ =~= head + functions_text(self.funcs@.take(i + 1)));
            i = i + 1;
        }
        assert(self.funcs@.take(i as int) =~= self.funcs@);
        assert(buf@ =~= old(buf)@ + self.basic_text());
    }
}

} // verus!
