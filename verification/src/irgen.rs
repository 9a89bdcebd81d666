//! Generation of IR from the abstract syntax.
//!
//! Every expression is first folded; an expression with a compile-time value
//! becomes an integer constant, and only the others emit instructions into the
//! entry block.
use vstd::prelude::*;

use crate::ast::{
    AddExp, Block, LVal, ConstDef, ConstInitVal, BlockItem, CompUnit, ConstDecl, Decl, EqExp, Exp, ExpOp, Expr, FuncDef, LAndExp,
    LOrExp, MulExp, PrimaryExp, RelExp, Stmt, UnaryExp, UnaryOp, VarDecl, VarDef, eval,
};
use crate::error::{CompileError, Fault, rview};
use crate::ir::{
    BasicBlock, BinaryOp, FunctionData, Program, Value, ValueKind, is_alloc_value, is_i32_kind, is_i32_value,
};
use crate::symtable::{bind, bound_in_innermost, lookup, ScopeEntry, SymTable};

verus! {

/// The part of a function that IR generation changes: its values and the
/// instructions of its entry block.
#[verifier::ext_equal]
pub struct Emit {
    pub values: Seq<ValueKind>,
    pub insts: Seq<Value>,
}

/// The values and the instructions of block `bb` of `f`.
pub open spec fn emit_of(f: &FunctionData, bb: int) -> Emit {
    Emit { values: f.values@, insts: f.insts_of(bb) }
}

/// Adds a value that is not an instruction (a constant).
pub open spec fn add_value(em: Emit, k: ValueKind) -> (Emit, Value) {
    (Emit { values: em.values.push(k), insts: em.insts }, em.values.len() as Value)
}

/// Adds a value and appends it to the instructions.
pub open spec fn add_inst(em: Emit, k: ValueKind) -> (Emit, Value) {
    let v = em.values.len() as Value;
    (Emit { values: em.values.push(k), insts: em.insts.push(v) }, v)
}

/// The IR operator of a source operator.
pub open spec fn ir_op(op: ExpOp) -> BinaryOp {
    match op {
        ExpOp::Add => BinaryOp::Add,
        ExpOp::Sub => BinaryOp::Sub,
        ExpOp::Mul => BinaryOp::Mul,
        ExpOp::Div => BinaryOp::Div,
        ExpOp::Mod => BinaryOp::Mod,
        ExpOp::Lt => BinaryOp::Lt,
        ExpOp::Gt => BinaryOp::Gt,
        ExpOp::Le => BinaryOp::Le,
        ExpOp::Ge => BinaryOp::Ge,
        ExpOp::Eq => BinaryOp::Eq,
        ExpOp::Ne => BinaryOp::NotEq,
        ExpOp::And => BinaryOp::And,
        ExpOp::Or => BinaryOp::Or,
    }
}

/// The IR operator of a source operator.
pub fn ir_op_exec(op: ExpOp) -> (r: BinaryOp)
    ensures
        r == ir_op(op),
{
    match op {
        ExpOp::Add => BinaryOp::Add,
        ExpOp::Sub => BinaryOp::Sub,
        ExpOp::Mul => BinaryOp::Mul,
        ExpOp::Div => BinaryOp::Div,
        ExpOp::Mod => BinaryOp::Mod,
        ExpOp::Lt => BinaryOp::Lt,
        ExpOp::Gt => BinaryOp::Gt,
        ExpOp::Le => BinaryOp::Le,
        ExpOp::Ge => BinaryOp::Ge,
        ExpOp::Eq => BinaryOp::Eq,
        ExpOp::Ne => BinaryOp::NotEq,
        ExpOp::And => BinaryOp::And,
        ExpOp::Or => BinaryOp::Or,
    }
}

/// The code of a unary operator applied to `val`: nothing for `+`,
/// `0 - val` for `-`, and `val == 0` for `!`.
pub open spec fn unary_step(op: UnaryOp, em: Emit, val: Value) -> (Emit, Value) {
    match op {
        UnaryOp::Pos => (em, val),
        UnaryOp::Neg => {
            let (em2, zero) = add_value(em, ValueKind::Integer(0));
            add_inst(em2, ValueKind::Binary(BinaryOp::Sub, zero, val))
        },
        UnaryOp::Not => {
            let (em2, zero) = add_value(em, ValueKind::Integer(0));
            add_inst(em2, ValueKind::Binary(BinaryOp::Eq, val, zero))
        },
    }
}

/// The code of a binary operator applied to `lv` and `rv`: the IR operation
/// itself, except for `&&` and `||`, whose operands are first compared with
/// `0` (`lv != 0`, `rv != 0`), so that the IR's `and` and `or`, which work
/// bit by bit, see only `0` and `1` and give the logical result.
pub open spec fn binary_step(op: ExpOp, em: Emit, lv: Value, rv: Value) -> (Emit, Value) {
    if op == ExpOp::And || op == ExpOp::Or {
        let (em1, zero) = add_value(em, ValueKind::Integer(0));
        let (em2, ln) = add_inst(em1, ValueKind::Binary(BinaryOp::NotEq, lv, zero));
        let (em3, rn) = add_inst(em2, ValueKind::Binary(BinaryOp::NotEq, rv, zero));
        add_inst(em3, ValueKind::Binary(ir_op(op), ln, rn))
    } else {
        add_inst(em, ValueKind::Binary(ir_op(op), lv, rv))
    }
}

/// The IR of expression `e`: the extended function and the value that
/// holds the result.  A foldable expression becomes one integer constant;
/// otherwise a variable becomes a load, `-x` becomes `0 - x`, `!x` becomes
/// `x == 0`, `+x` is `x`, and a binary expression becomes its operands'
/// code, left first, followed by the operation (see `binary_step`).
pub open spec fn conv(e: Expr, em: Emit, scopes: Seq<Map<Seq<char>, ScopeEntry>>, cache: Map<Value, i32>) -> Result<(Emit, Value), Fault>
    decreases e,
{
    match eval(e, scopes, cache) {
        Err(f) => Err(f),
        Ok(Some(n)) => Ok(add_value(em, ValueKind::Integer(n))),
        Ok(None) => match e {
            Expr::Num(n) => Ok(add_value(em, ValueKind::Integer(n))),
            Expr::Name(name) => match lookup(scopes, name) {
                Some(ScopeEntry::Var(a)) => Ok(add_inst(em, ValueKind::Load(a))),
                Some(ScopeEntry::Const(c)) => Ok(add_value(em, ValueKind::Integer(c))),
                None => Err(Fault::UndefinedVariable(name)),
            },
            Expr::Unary(op, x) => match conv(*x, em, scopes, cache) {
                Err(f) => Err(f),
                Ok((em1, val)) => Ok(unary_step(op, em1, val)),
            },
            Expr::Binary(op, l, r) => match conv(*l, em, scopes, cache) {
                Err(f) => Err(f),
                Ok((em1, lv)) => match conv(*r, em1, scopes, cache) {
                    Err(f) => Err(f),
                    Ok((em2, rv)) => Ok(binary_step(op, em2, lv, rv)),
                },
            },
        },
    }
}

/// The IR of `e` generated into block `bb` of `f` under the table `st`.
pub open spec fn conv_in(e: Expr, f: &FunctionData, bb: int, st: &SymTable) -> Result<(Emit, Value), Fault> {
    conv(e, emit_of(f, bb), st.scopes(), st.cache())
}

/// Every variable that `scopes` binds is an allocation among `values`.
#[verifier::opaque]
pub open spec fn vars_are_allocs(scopes: Seq<Map<Seq<char>, ScopeEntry>>, values: Seq<ValueKind>) -> bool {
    forall|i: int, name: Seq<char>|
        0 <= i < scopes.len() && #[trigger] scopes[i].contains_key(name) ==> match scopes[i][name] {
            ScopeEntry::Var(a) => is_alloc_value(values, a),
            ScopeEntry::Const(_) => true,
        }
}

/// `new` keeps the values of `old` and may add more.
#[verifier::opaque]
pub open spec fn extends(new: Seq<ValueKind>, old: Seq<ValueKind>) -> bool {
    old.len() <= new.len() && forall|i: int| 0 <= i < old.len() ==> #[trigger] new[i] == old[i]
}

/// Every handle with a known value names a value already made (one of the
/// first `n`).
pub open spec fn cache_keys_below(cache: Map<Value, i32>, n: nat) -> bool {
    forall|k: Value| #[trigger] cache.contains_key(k) ==> k < n
}

/// The preconditions of IR generation into block `entry`: among them, the
/// known values are of values already made, so a value made later (such as
/// the allocation of a new variable) has none.
pub open spec fn gen_ready(f: &FunctionData, entry: usize, st: &SymTable) -> bool {
    &&& f.wf()
    &&& entry < f.bbs@.len()
    &&& vars_are_allocs(st.scopes(), f.values@)
    &&& cache_keys_below(st.cache(), f.values@.len())
}

/// No instruction of `insts` is an integer constant among `values`: the
/// block holds instructions only.
pub open spec fn insts_not_constant(values: Seq<ValueKind>, insts: Seq<Value>) -> bool {
    forall|j: int| 0 <= j < insts.len() ==> !(values[#[trigger] insts[j] as int] is Integer)
}

/// What every IR generation step keeps: well-formedness, the other blocks,
/// the values already made, and a block `entry` of instructions only (a
/// constant is made as a value, never appended to the block).
pub open spec fn gen_keeps(new: &FunctionData, old: &FunctionData, entry: usize) -> bool {
    &&& new.wf()
    &&& new.bbs@.len() == old.bbs@.len()
    &&& new.same_layout_except(old, entry as int)
    &&& extends(new.values@, old.values@)
    &&& entry < old.bbs@.len() && insts_not_constant(old.values@, old.insts_of(entry as int)) ==> insts_not_constant(
        new.values@,
        new.insts_of(entry as int),
    )
}

pub proof fn lemma_lookup_var_is_alloc(scopes: Seq<Map<Seq<char>, ScopeEntry>>, values: Seq<ValueKind>, name: Seq<char>)
    requires
        vars_are_allocs(scopes, values),
    ensures
        lookup(scopes, name) matches Some(ScopeEntry::Var(a)) ==> is_alloc_value(values, a),
    decreases scopes.len(),
{
    reveal(vars_are_allocs);
    if scopes.len() > 0 {
        let last = scopes.len() - 1;
        if scopes[last].contains_key(name) {
            assert(scopes.last() == scopes[last]);
        } else {
            let s2 = scopes.drop_last();
            assert forall|i: int, n: Seq<char>| 0 <= i < s2.len() && #[trigger] s2[i].contains_key(n) implies match s2[i][n] {
                ScopeEntry::Var(a) => is_alloc_value(values, a),
                ScopeEntry::Const(_) => true,
            } by {
                assert(s2[i] == scopes[i]);
            }
            lemma_lookup_var_is_alloc(s2, values, name);
        }
    }
}

pub proof fn lemma_vars_are_allocs_extend(scopes: Seq<Map<Seq<char>, ScopeEntry>>, new: Seq<ValueKind>, old: Seq<ValueKind>)
    requires
        vars_are_allocs(scopes, old),
        extends(new, old),
    ensures
        vars_are_allocs(scopes, new),
{
    reveal(vars_are_allocs);
    reveal(extends);
    assert forall|i: int, n: Seq<char>| 0 <= i < scopes.len() && #[trigger] scopes[i].contains_key(n) implies match scopes[i][n] {
        ScopeEntry::Var(a) => is_alloc_value(new, a),
        ScopeEntry::Const(_) => true,
    } by {
        match scopes[i][n] {
            ScopeEntry::Var(a) => {
                assert(is_alloc_value(old, a));
                assert(new[a as int] == old[a as int]);
            },
            ScopeEntry::Const(_) => {},
        }
    }
}

/// Generation steps compose.
pub proof fn lemma_keeps_trans(a: &FunctionData, b: &FunctionData, c: &FunctionData, entry: usize)
    requires
        gen_keeps(a, b, entry),
        gen_keeps(b, c, entry),
    ensures
        gen_keeps(a, c, entry),
{
    reveal(extends);
    reveal(FunctionData::same_layout_except);
}

/// After a generation step, the values made before keep their kinds.
pub proof fn lemma_keeps_value(a: &FunctionData, b: &FunctionData, entry: usize, v: Value)
    requires
        gen_keeps(a, b, entry),
        v < b.values@.len(),
    ensures
        v < a.values@.len(),
        a.values@[v as int] == b.values@[v as int],
{
    reveal(extends);
}

/// After a generation step, the preconditions of the next one hold.
pub proof fn lemma_keeps_ready(a: &FunctionData, b: &FunctionData, entry: usize, st: &SymTable)
    requires
        gen_keeps(a, b, entry),
        gen_ready(b, entry, st),
    ensures
        gen_ready(a, entry, st),
{
    lemma_vars_are_allocs_extend(st.scopes(), a.values@, b.values@);
    reveal(extends);
}

/// The effect of a builder call that adds one value and changes no block.
proof fn lemma_keeps_push_value(a: &FunctionData, b: &FunctionData, entry: usize)
    requires
        a.wf(),
        b.wf(),
        a.values@.len() == b.values@.len() + 1,
        forall|i: int| 0 <= i < b.values@.len() ==> a.values@[i] == b.values@[i],
        a.bbs@ == b.bbs@,
        a.name@ == b.name@,
    ensures
        gen_keeps(a, b, entry),
{
    reveal(extends);
    reveal(FunctionData::same_layout_except);
    reveal(FunctionData::wf);
    if entry < b.bbs@.len() && insts_not_constant(b.values@, b.insts_of(entry as int)) {
        let insts = a.insts_of(entry as int);
        assert(insts == b.insts_of(entry as int));
        assert(crate::ir::insts_wf(b.values@, b.bbs@[entry as int].insts@));
        assert forall|j: int| 0 <= j < insts.len() implies !(a.values@[#[trigger] insts[j] as int] is Integer) by {
            assert(insts[j] < b.values@.len());
            assert(a.values@[insts[j] as int] == b.values@[insts[j] as int]);
        }
    }
}

/// Emits an integer constant.
fn emit_integer(func_data: &mut FunctionData, entry: BasicBlock, n: i32) -> (v: Value)
    requires
        old(func_data).wf(),
    ensures
        gen_keeps(final(func_data), old(func_data), entry),
        (emit_of(final(func_data), entry as int), v) == add_value(emit_of(old(func_data), entry as int), ValueKind::Integer(n)),
        is_i32_value(final(func_data).values@, v),
        v == old(func_data).values@.len(),
        final(func_data).values@ == old(func_data).values@.push(ValueKind::Integer(n)),
{
    let v = func_data.new_integer(n);
    proof { lemma_keeps_push_value(func_data, old(func_data), entry); }
    v
}

/// Emits an instruction: a new value appended to block `entry`.
fn emit_inst(func_data: &mut FunctionData, entry: BasicBlock, k: ValueKind) -> (v: Value)
    requires
        old(func_data).wf(),
        entry < old(func_data).bbs@.len(),
        match k {
            ValueKind::Load(a) => is_alloc_value(old(func_data).values@, a),
            ValueKind::Binary(_, l, r) => is_i32_value(old(func_data).values@, l) && is_i32_value(old(func_data).values@, r),
            ValueKind::Store(x, d) => is_i32_value(old(func_data).values@, x) && is_alloc_value(old(func_data).values@, d),
            ValueKind::Return(x) => x matches Some(r) ==> is_i32_value(old(func_data).values@, r),
            _ => true,
        },
        !(k is Integer),
    ensures
        gen_keeps(final(func_data), old(func_data), entry),
        (emit_of(final(func_data), entry as int), v) == add_inst(emit_of(old(func_data), entry as int), k),
        is_i32_kind(k) ==> is_i32_value(final(func_data).values@, v),
        v == old(func_data).values@.len(),
        final(func_data).values@ == old(func_data).values@.push(k),
{
    let v = match k {
        ValueKind::Integer(n) => func_data.new_integer(n),
        ValueKind::Alloc => func_data.new_alloc(),
        ValueKind::Load(a) => func_data.new_load(a),
        ValueKind::Store(x, d) => func_data.new_store(x, d),
        ValueKind::Binary(op, l, r) => func_data.new_binary(op, l, r),
        ValueKind::Return(x) => func_data.new_ret(x),
    };
    let ghost mid = *func_data;
    proof { lemma_keeps_push_value(&mid, old(func_data), entry); }
    func_data.push_inst(entry, v);
    proof {
        reveal(extends);
        reveal(FunctionData::same_layout_except);
    }
    v
}

impl Exp {
    /// Generates the IR of the expression into block `entry`; returns the
    /// value that holds its result.
    fn convert_to_koopa_ir(&self, func_data: &mut FunctionData, entry: BasicBlock, symtable: &mut SymTable) -> (r: Result<Value, CompileError>)
        requires
            gen_ready(old(func_data), entry, old(symtable)),
        ensures
            gen_keeps(final(func_data), old(func_data), entry),
            final(symtable).scopes() == old(symtable).scopes(),
            final(symtable).cache() == old(symtable).cache(),
            match conv_in(self.to_expr(), old(func_data), entry as int, old(symtable)) {
                Ok((em, v)) => r == Ok::<Value, CompileError>(v) && emit_of(final(func_data), entry as int) == em
                    && is_i32_value(em.values, v),
                Err(f) => rview(r) == Err::<Value, Fault>(f),
            },
        decreases self,
    {
        self.lorexp.convert_to_koopa_ir(func_data, entry, symtable)
    }
}

/// The IR of a name read without folding it first.
pub open spec fn conv_lval(name: Seq<char>, em: Emit, scopes: Seq<Map<Seq<char>, ScopeEntry>>, cache: Map<Value, i32>) -> Result<(Emit, Map<Value, i32>, Value), Fault> {
    match lookup(scopes, name) {
        None => Err(Fault::UndefinedVariable(name)),
        Some(ScopeEntry::Const(c)) => {
            let (em1, v) = add_value(em, ValueKind::Integer(c));
            Ok((em1, cache.insert(v, c), v))
        },
        Some(ScopeEntry::Var(a)) => if cache.contains_key(a) {
            let (em1, v) = add_value(em, ValueKind::Integer(cache[a]));
            Ok((em1, cache.insert(v, cache[a]), v))
        } else {
            let (em1, v) = add_inst(em, ValueKind::Load(a));
            Ok((em1, cache, v))
        },
    }
}

/// The IR of a primary expression when it is generated without folding it
/// first: a number or a constant becomes an integer constant whose value is
/// recorded in the cache, and so does a variable whose value is known; any
/// other variable becomes a load.
pub open spec fn conv_primary(p: &PrimaryExp, em: Emit, scopes: Seq<Map<Seq<char>, ScopeEntry>>, cache: Map<Value, i32>) -> Result<(Emit, Map<Value, i32>, Value), Fault> {
    match p {
        PrimaryExp::Exp(e) => match conv(e.to_expr(), em, scopes, cache) {
            Ok((em1, v)) => Ok((em1, cache, v)),
            Err(f) => Err(f),
        },
        PrimaryExp::LVal(l) => conv_lval(l.ident@, em, scopes, cache),
        PrimaryExp::Number(n) => {
            let (em1, v) = add_value(em, ValueKind::Integer(*n));
            Ok((em1, cache.insert(v, *n), v))
        },
    }
}

/// Generates the read of a variable or constant.
fn convert_lval(lval: &LVal, func_data: &mut FunctionData, entry: BasicBlock, symtable: &mut SymTable) -> (r: Result<Value, CompileError>)
    requires
        gen_ready(old(func_data), entry, old(symtable)),
    ensures
        gen_keeps(final(func_data), old(func_data), entry),
        lookup(old(symtable).scopes(), lval.ident@) is None ==> *final(func_data) == *old(func_data) && *final(symtable)
            == *old(symtable),
        final(symtable).scopes() == old(symtable).scopes(),
        match conv_lval(lval.ident@, emit_of(old(func_data), entry as int), old(symtable).scopes(), old(symtable).cache()) {
            Ok((em, cache, v)) => r == Ok::<Value, CompileError>(v) && emit_of(final(func_data), entry as int) == em
                && is_i32_value(em.values, v) && final(symtable).cache() == cache,
            Err(f) => rview(r) == Err::<Value, Fault>(f) && final(symtable).cache() == old(symtable).cache(),
        },
{
    proof { lemma_keeps_refl(func_data, entry); }
    let found = match symtable.get(lval.ident.as_str()) {
        None => return Err(CompileError::UndefinedVariable(lval.ident.clone())),
        Some(e) => *e,
    };
    match found {
        ScopeEntry::Const(c) => {
            let v = emit_integer(func_data, entry, c);
            symtable.cache_insert(v, c);
            Ok(v)
        },
        ScopeEntry::Var(alloc) => {
            match symtable.cache_get(alloc) {
                Some(cached) => {
                    let v = emit_integer(func_data, entry, cached);
                    symtable.cache_insert(v, cached);
                    Ok(v)
                },
                None => {
                    proof { lemma_lookup_var_is_alloc(symtable.scopes(), func_data.values@, lval.ident@); }
                    Ok(emit_inst(func_data, entry, ValueKind::Load(alloc)))
                },
            }
        },
    }
}

impl PrimaryExp {
    /// Generates the IR of the expression into block `entry` without
    /// folding it first; returns the value that holds its result.  Reading
    /// an undeclared name stops generation with `UndefinedVariable`
    /// ("undefined variable: NAME"), and nothing is generated.
    fn convert_to_koopa_ir(&self, func_data: &mut FunctionData, entry: BasicBlock, symtable: &mut SymTable) -> (r: Result<Value, CompileError>)
        requires
            gen_ready(old(func_data), entry, old(symtable)),
        ensures
            gen_keeps(final(func_data), old(func_data), entry),
            self matches PrimaryExp::LVal(l) ==> (lookup(old(symtable).scopes(), l.ident@) is None ==> *final(func_data)
                == *old(func_data) && *final(symtable) == *old(symtable)),
            final(symtable).scopes() == old(symtable).scopes(),
            match conv_primary(self, emit_of(old(func_data), entry as int), old(symtable).scopes(), old(symtable).cache()) {
                Ok((em, cache, v)) => r == Ok::<Value, CompileError>(v) && emit_of(final(func_data), entry as int) == em
                    && is_i32_value(em.values, v) && final(symtable).cache() == cache,
                Err(f) => rview(r) == Err::<Value, Fault>(f) && final(symtable).cache() == old(symtable).cache(),
            },
        decreases self,
    {
        match self {
            PrimaryExp::Exp(exp) => exp.convert_to_koopa_ir(func_data, entry, symtable),
            PrimaryExp::LVal(lval) => convert_lval(lval, func_data, entry, symtable),
            PrimaryExp::Number(n) => {
                let v = emit_integer(func_data, entry, *n);
                symtable.cache_insert(v, *n);
                Ok(v)
            },
        }
    }
}

/// Read without folding first, a primary expression that does not fold
/// gives the same IR as its folding generation, and leaves the cache alone.
#[verifier::rlimit(30)]
proof fn lemma_primary_conv(p: &PrimaryExp, em: Emit, scopes: Seq<Map<Seq<char>, ScopeEntry>>, cache: Map<Value, i32>)
    requires
        eval(p.to_expr(), scopes, cache) == Ok::<Option<i32>, Fault>(None),
    ensures
        conv_primary(p, em, scopes, cache) == (match conv(p.to_expr(), em, scopes, cache) {
            Ok((em1, v)) => Ok((em1, cache, v)),
            Err(f) => Err::<(Emit, Map<Value, i32>, Value), Fault>(f),
        }),
{
}

/// Emits the operation of a unary operator applied to `val`.
fn apply_unary(op: UnaryOp, val: Value, func_data: &mut FunctionData, entry: BasicBlock) -> (r: Result<Value, CompileError>)
    requires
        old(func_data).wf(),
        entry < old(func_data).bbs@.len(),
        is_i32_value(old(func_data).values@, val),
    ensures
        gen_keeps(final(func_data), old(func_data), entry),
        r == Ok::<Value, CompileError>(unary_step(op, emit_of(old(func_data), entry as int), val).1),
        emit_of(final(func_data), entry as int) == unary_step(op, emit_of(old(func_data), entry as int), val).0,
        is_i32_value(final(func_data).values@, unary_step(op, emit_of(old(func_data), entry as int), val).1),
{
    let ghost f0 = *func_data;
    match op {
        UnaryOp::Pos => {
            proof { lemma_keeps_refl(func_data, entry); }
            Ok(val)
        },
        UnaryOp::Neg => {
            let zero = emit_integer(func_data, entry, 0);
            let ghost f1 = *func_data;
            proof { lemma_keeps_value(&f1, &f0, entry, val); }
            let sub = emit_inst(func_data, entry, ValueKind::Binary(BinaryOp::Sub, zero, val));
            proof { lemma_keeps_trans(func_data, &f1, &f0, entry); }
            Ok(sub)
        },
        UnaryOp::Not => {
            let zero = emit_integer(func_data, entry, 0);
            let ghost f1 = *func_data;
            proof { lemma_keeps_value(&f1, &f0, entry, val); }
            let eq = emit_inst(func_data, entry, ValueKind::Binary(BinaryOp::Eq, val, zero));
            proof { lemma_keeps_trans(func_data, &f1, &f0, entry); }
            Ok(eq)
        },
    }
}

/// Emits the code of `&&` or `||` applied to `lv` and `rv`: both operands
/// compared with `0`, then the IR's `and` or `or` of the two results.
fn apply_logic(op: ExpOp, lv: Value, rv: Value, func_data: &mut FunctionData, entry: BasicBlock) -> (r: Value)
    requires
        op == ExpOp::And || op == ExpOp::Or,
        old(func_data).wf(),
        entry < old(func_data).bbs@.len(),
        is_i32_value(old(func_data).values@, lv),
        is_i32_value(old(func_data).values@, rv),
    ensures
        gen_keeps(final(func_data), old(func_data), entry),
        r == binary_step(op, emit_of(old(func_data), entry as int), lv, rv).1,
        emit_of(final(func_data), entry as int) == binary_step(op, emit_of(old(func_data), entry as int), lv, rv).0,
        is_i32_value(final(func_data).values@, r),
{
    let ghost f0 = *func_data;
    let zero = emit_integer(func_data, entry, 0);
    let ghost f1 = *func_data;
    proof {
        lemma_keeps_value(&f1, &f0, entry, lv);
        lemma_keeps_value(&f1, &f0, entry, rv);
    }
    let ln = emit_inst(func_data, entry, ValueKind::Binary(BinaryOp::NotEq, lv, zero));
    let ghost f2 = *func_data;
    proof {
        lemma_keeps_trans(&f2, &f1, &f0, entry);
        lemma_keeps_value(&f2, &f1, entry, rv);
        lemma_keeps_value(&f2, &f1, entry, zero);
    }
    let rn = emit_inst(func_data, entry, ValueKind::Binary(BinaryOp::NotEq, rv, zero));
    let ghost f3 = *func_data;
    proof {
        lemma_keeps_trans(&f3, &f2, &f0, entry);
        lemma_keeps_value(&f3, &f2, entry, ln);
    }
    let res = emit_inst(func_data, entry, ValueKind::Binary(ir_op_exec(op), ln, rn));
    proof { lemma_keeps_trans(func_data, &f3, &f0, entry); }
    res
}

/// A step that changes nothing keeps everything.
pub proof fn lemma_keeps_refl(a: &FunctionData, entry: usize)
    requires
        a.wf(),
    ensures
        gen_keeps(a, a, entry),
{
    reveal(extends);
    reveal(FunctionData::same_layout_except);
}

impl UnaryExp {
    /// Generates the IR of the expression into block `entry`; returns the
    /// value that holds its result.
    #[verifier::rlimit(30)]
    fn convert_to_koopa_ir(&self, func_data: &mut FunctionData, entry: BasicBlock, symtable: &mut SymTable) -> (r: Result<Value, CompileError>)
        requires
            gen_ready(old(func_data), entry, old(symtable)),
        ensures
            gen_keeps(final(func_data), old(func_data), entry),
            final(symtable).scopes() == old(symtable).scopes(),
            final(symtable).cache() == old(symtable).cache(),
            match conv_in(self.to_expr(), old(func_data), entry as int, old(symtable)) {
                Ok((em, v)) => r == Ok::<Value, CompileError>(v) && emit_of(final(func_data), entry as int) == em
                    && is_i32_value(em.values, v),
                Err(f) => rview(r) == Err::<Value, Fault>(f),
            },
        decreases self,
    {
        proof { lemma_keeps_refl(func_data, entry); }
        match self.evaluate(symtable) {
            Err(e) => return Err(e),
            Ok(Some(val)) => return Ok(emit_integer(func_data, entry, val)),
            Ok(None) => {},
        }
        match self {
            UnaryExp::Primary(primary) => {
                proof {
                    lemma_primary_conv(primary, emit_of(func_data, entry as int), symtable.scopes(), symtable.cache());
                }
                primary.convert_to_koopa_ir(func_data, entry, symtable)
            },
            UnaryExp::Unary(op, unary) => {
                let ghost f0 = *func_data;
                let val = match unary.convert_to_koopa_ir(func_data, entry, symtable) {
                    Ok(v) => v,
                    Err(e) => return Err(e),
                };
                let ghost f1 = *func_data;
                let r = apply_unary(*op, val, func_data, entry);
                proof { lemma_keeps_trans(func_data, &f1, &f0, entry); }
                r
            },
        }
    }
}

impl LOrExp {
    /// Generates the IR of the expression into block `entry`; returns the
    /// value that holds its result.
    fn convert_to_koopa_ir(&self, func_data: &mut FunctionData, entry: BasicBlock, symtable: &mut SymTable) -> (r: Result<Value, CompileError>)
        requires
            gen_ready(old(func_data), entry, old(symtable)),
        ensures
            gen_keeps(final(func_data), old(func_data), entry),
            final(symtable).scopes() == old(symtable).scopes(),
            final(symtable).cache() == old(symtable).cache(),
            match conv_in(self.to_expr(), old(func_data), entry as int, old(symtable)) {
                Ok((em, v)) => r == Ok::<Value, CompileError>(v) && emit_of(final(func_data), entry as int) == em
                    && is_i32_value(em.values, v),
                Err(f) => rview(r) == Err::<Value, Fault>(f),
            },
        decreases self,
    {
        proof { lemma_keeps_refl(func_data, entry); }
        match self.evaluate(symtable) {
            Err(e) => return Err(e),
            Ok(Some(val)) => return Ok(emit_integer(func_data, entry, val)),
            Ok(None) => {},
        }
        match self {
            LOrExp::And(inner) => inner.convert_to_koopa_ir(func_data, entry, symtable),
            LOrExp::Or(lhs, rhs) => {
                let ghost f0 = *func_data;
                let lv = match lhs.convert_to_koopa_ir(func_data, entry, symtable) {
                    Ok(lv) => lv,
                    Err(e) => return Err(e),
                };
                let ghost f1 = *func_data;
                proof { lemma_keeps_ready(&f1, &f0, entry, symtable); }
                let rv = match rhs.convert_to_koopa_ir(func_data, entry, symtable) {
                    Ok(rv) => rv,
                    Err(e) => {
                        proof { lemma_keeps_trans(func_data, &f1, &f0, entry); }
                        return Err(e);
                    },
                };
                let ghost f2 = *func_data;
                proof {
                    lemma_keeps_value(&f2, &f1, entry, lv);
                    lemma_keeps_trans(&f2, &f1, &f0, entry);
                }
                let v = apply_logic(ExpOp::Or, lv, rv, func_data, entry);
                proof { lemma_keeps_trans(func_data, &f2, &f0, entry); }
                Ok(v)
            },
        }
    }
}

impl LAndExp {
    /// Generates the IR of the expression into block `entry`; returns the
    /// value that holds its result.
    fn convert_to_koopa_ir(&self, func_data: &mut FunctionData, entry: BasicBlock, symtable: &mut SymTable) -> (r: Result<Value, CompileError>)
        requires
            gen_ready(old(func_data), entry, old(symtable)),
        ensures
            gen_keeps(final(func_data), old(func_data), entry),
            final(symtable).scopes() == old(symtable).scopes(),
            final(symtable).cache() == old(symtable).cache(),
            match conv_in(self.to_expr(), old(func_data), entry as int, old(symtable)) {
                Ok((em, v)) => r == Ok::<Value, CompileError>(v) && emit_of(final(func_data), entry as int) == em
                    && is_i32_value(em.values, v),
                Err(f) => rview(r) == Err::<Value, Fault>(f),
            },
        decreases self,
    {
        proof { lemma_keeps_refl(func_data, entry); }
        match self.evaluate(symtable) {
            Err(e) => return Err(e),
            Ok(Some(val)) => return Ok(emit_integer(func_data, entry, val)),
            Ok(None) => {},
        }
        match self {
            LAndExp::Eq(inner) => inner.convert_to_koopa_ir(func_data, entry, symtable),
            LAndExp::And(lhs, rhs) => {
                let ghost f0 = *func_data;
                let lv = match lhs.convert_to_koopa_ir(func_data, entry, symtable) {
                    Ok(lv) => lv,
                    Err(e) => return Err(e),
                };
                let ghost f1 = *func_data;
                proof { lemma_keeps_ready(&f1, &f0, entry, symtable); }
                let rv = match rhs.convert_to_koopa_ir(func_data, entry, symtable) {
                    Ok(rv) => rv,
                    Err(e) => {
                        proof { lemma_keeps_trans(func_data, &f1, &f0, entry); }
                        return Err(e);
                    },
                };
                let ghost f2 = *func_data;
                proof {
                    lemma_keeps_value(&f2, &f1, entry, lv);
                    lemma_keeps_trans(&f2, &f1, &f0, entry);
                }
                let v = apply_logic(ExpOp::And, lv, rv, func_data, entry);
                proof { lemma_keeps_trans(func_data, &f2, &f0, entry); }
                Ok(v)
            },
        }
    }
}

impl EqExp {
    /// Generates the IR of the expression into block `entry`; returns the
    /// value that holds its result.
    fn convert_to_koopa_ir(&self, func_data: &mut FunctionData, entry: BasicBlock, symtable: &mut SymTable) -> (r: Result<Value, CompileError>)
        requires
            gen_ready(old(func_data), entry, old(symtable)),
        ensures
            gen_keeps(final(func_data), old(func_data), entry),
            final(symtable).scopes() == old(symtable).scopes(),
            final(symtable).cache() == old(symtable).cache(),
            match conv_in(self.to_expr(), old(func_data), entry as int, old(symtable)) {
                Ok((em, v)) => r == Ok::<Value, CompileError>(v) && emit_of(final(func_data), entry as int) == em
                    && is_i32_value(em.values, v),
                Err(f) => rview(r) == Err::<Value, Fault>(f),
            },
        decreases self,
    {
        proof { lemma_keeps_refl(func_data, entry); }
        match self.evaluate(symtable) {
            Err(e) => return Err(e),
            Ok(Some(val)) => return Ok(emit_integer(func_data, entry, val)),
            Ok(None) => {},
        }
        match self {
            EqExp::Rel(inner) => inner.convert_to_koopa_ir(func_data, entry, symtable),
            EqExp::Eq(lhs, rhs) => {
                let ghost f0 = *func_data;
                let lv = match lhs.convert_to_koopa_ir(func_data, entry, symtable) {
                    Ok(lv) => lv,
                    Err(e) => return Err(e),
                };
                let ghost f1 = *func_data;
                proof { lemma_keeps_ready(&f1, &f0, entry, symtable); }
                let rv = match rhs.convert_to_koopa_ir(func_data, entry, symtable) {
                    Ok(rv) => rv,
                    Err(e) => {
                        proof { lemma_keeps_trans(func_data, &f1, &f0, entry); }
                        return Err(e);
                    },
                };
                let ghost f2 = *func_data;
                proof {
                    lemma_keeps_value(&f2, &f1, entry, lv);
                    lemma_keeps_trans(&f2, &f1, &f0, entry);
                }
                let v = emit_inst(func_data, entry, ValueKind::Binary(BinaryOp::Eq, lv, rv));
                proof { lemma_keeps_trans(func_data, &f2, &f0, entry); }
                Ok(v)
            },
            EqExp::Ne(lhs, rhs) => {
                let ghost f0 = *func_data;
                let lv = match lhs.convert_to_koopa_ir(func_data, entry, symtable) {
                    Ok(lv) => lv,
                    Err(e) => return Err(e),
                };
                let ghost f1 = *func_data;
                proof { lemma_keeps_ready(&f1, &f0, entry, symtable); }
                let rv = match rhs.convert_to_koopa_ir(func_data, entry, symtable) {
                    Ok(rv) => rv,
                    Err(e) => {
                        proof { lemma_keeps_trans(func_data, &f1, &f0, entry); }
                        return Err(e);
                    },
                };
                let ghost f2 = *func_data;
                proof {
                    lemma_keeps_value(&f2, &f1, entry, lv);
                    lemma_keeps_trans(&f2, &f1, &f0, entry);
                }
                let v = emit_inst(func_data, entry, ValueKind::Binary(BinaryOp::NotEq, lv, rv));
                proof { lemma_keeps_trans(func_data, &f2, &f0, entry); }
                Ok(v)
            },
        }
    }
}

impl RelExp {
    /// Generates the IR of the expression into block `entry`; returns the
    /// value that holds its result.
    fn convert_to_koopa_ir(&self, func_data: &mut FunctionData, entry: BasicBlock, symtable: &mut SymTable) -> (r: Result<Value, CompileError>)
        requires
            gen_ready(old(func_data), entry, old(symtable)),
        ensures
            gen_keeps(final(func_data), old(func_data), entry),
            final(symtable).scopes() == old(symtable).scopes(),
            final(symtable).cache() == old(symtable).cache(),
            match conv_in(self.to_expr(), old(func_data), entry as int, old(symtable)) {
                Ok((em, v)) => r == Ok::<Value, CompileError>(v) && emit_of(final(func_data), entry as int) == em
                    && is_i32_value(em.values, v),
                Err(f) => rview(r) == Err::<Value, Fault>(f),
            },
        decreases self,
    {
        proof { lemma_keeps_refl(func_data, entry); }
        match self.evaluate(symtable) {
            Err(e) => return Err(e),
            Ok(Some(val)) => return Ok(emit_integer(func_data, entry, val)),
            Ok(None) => {},
        }
        match self {
            RelExp::Add(inner) => inner.convert_to_koopa_ir(func_data, entry, symtable),
            RelExp::Lt(lhs, rhs) => {
                let ghost f0 = *func_data;
                let lv = match lhs.convert_to_koopa_ir(func_data, entry, symtable) {
                    Ok(lv) => lv,
                    Err(e) => return Err(e),
                };
                let ghost f1 = *func_data;
                proof { lemma_keeps_ready(&f1, &f0, entry, symtable); }
                let rv = match rhs.convert_to_koopa_ir(func_data, entry, symtable) {
                    Ok(rv) => rv,
                    Err(e) => {
                        proof { lemma_keeps_trans(func_data, &f1, &f0, entry); }
                        return Err(e);
                    },
                };
                let ghost f2 = *func_data;
                proof {
                    lemma_keeps_value(&f2, &f1, entry, lv);
                    lemma_keeps_trans(&f2, &f1, &f0, entry);
                }
                let v = emit_inst(func_data, entry, ValueKind::Binary(BinaryOp::Lt, lv, rv));
                proof { lemma_keeps_trans(func_data, &f2, &f0, entry); }
                Ok(v)
            },
            RelExp::Gt(lhs, rhs) => {
                let ghost f0 = *func_data;
                let lv = match lhs.convert_to_koopa_ir(func_data, entry, symtable) {
                    Ok(lv) => lv,
                    Err(e) => return Err(e),
                };
                let ghost f1 = *func_data;
                proof { lemma_keeps_ready(&f1, &f0, entry, symtable); }
                let rv = match rhs.convert_to_koopa_ir(func_data, entry, symtable) {
                    Ok(rv) => rv,
                    Err(e) => {
                        proof { lemma_keeps_trans(func_data, &f1, &f0, entry); }
                        return Err(e);
                    },
                };
                let ghost f2 = *func_data;
                proof {
                    lemma_keeps_value(&f2, &f1, entry, lv);
                    lemma_keeps_trans(&f2, &f1, &f0, entry);
                }
                let v = emit_inst(func_data, entry, ValueKind::Binary(BinaryOp::Gt, lv, rv));
                proof { lemma_keeps_trans(func_data, &f2, &f0, entry); }
                Ok(v)
            },
            RelExp::Le(lhs, rhs) => {
                let ghost f0 = *func_data;
                let lv = match lhs.convert_to_koopa_ir(func_data, entry, symtable) {
                    Ok(lv) => lv,
                    Err(e) => return Err(e),
                };
                let ghost f1 = *func_data;
                proof { lemma_keeps_ready(&f1, &f0, entry, symtable); }
                let rv = match rhs.convert_to_koopa_ir(func_data, entry, symtable) {
                    Ok(rv) => rv,
                    Err(e) => {
                        proof { lemma_keeps_trans(func_data, &f1, &f0, entry); }
                        return Err(e);
                    },
                };
                let ghost f2 = *func_data;
                proof {
                    lemma_keeps_value(&f2, &f1, entry, lv);
                    lemma_keeps_trans(&f2, &f1, &f0, entry);
                }
                let v = emit_inst(func_data, entry, ValueKind::Binary(BinaryOp::Le, lv, rv));
                proof { lemma_keeps_trans(func_data, &f2, &f0, entry); }
                Ok(v)
            },
            RelExp::Ge(lhs, rhs) => {
                let ghost f0 = *func_data;
                let lv = match lhs.convert_to_koopa_ir(func_data, entry, symtable) {
                    Ok(lv) => lv,
                    Err(e) => return Err(e),
                };
                let ghost f1 = *func_data;
                proof { lemma_keeps_ready(&f1, &f0, entry, symtable); }
                let rv = match rhs.convert_to_koopa_ir(func_data, entry, symtable) {
                    Ok(rv) => rv,
                    Err(e) => {
                        proof { lemma_keeps_trans(func_data, &f1, &f0, entry); }
                        return Err(e);
                    },
                };
                let ghost f2 = *func_data;
                proof {
                    lemma_keeps_value(&f2, &f1, entry, lv);
                    lemma_keeps_trans(&f2, &f1, &f0, entry);
                }
                let v = emit_inst(func_data, entry, ValueKind::Binary(BinaryOp::Ge, lv, rv));
                proof { lemma_keeps_trans(func_data, &f2, &f0, entry); }
                Ok(v)
            },
        }
    }
}

impl AddExp {
    /// Generates the IR of the expression into block `entry`; returns the
    /// value that holds its result.
    fn convert_to_koopa_ir(&self, func_data: &mut FunctionData, entry: BasicBlock, symtable: &mut SymTable) -> (r: Result<Value, CompileError>)
        requires
            gen_ready(old(func_data), entry, old(symtable)),
        ensures
            gen_keeps(final(func_data), old(func_data), entry),
            final(symtable).scopes() == old(symtable).scopes(),
            final(symtable).cache() == old(symtable).cache(),
            match conv_in(self.to_expr(), old(func_data), entry as int, old(symtable)) {
                Ok((em, v)) => r == Ok::<Value, CompileError>(v) && emit_of(final(func_data), entry as int) == em
                    && is_i32_value(em.values, v),
                Err(f) => rview(r) == Err::<Value, Fault>(f),
            },
        decreases self,
    {
        proof { lemma_keeps_refl(func_data, entry); }
        match self.evaluate(symtable) {
            Err(e) => return Err(e),
            Ok(Some(val)) => return Ok(emit_integer(func_data, entry, val)),
            Ok(None) => {},
        }
        match self {
            AddExp::Mul(inner) => inner.convert_to_koopa_ir(func_data, entry, symtable),
            AddExp::Add(lhs, rhs) => {
                let ghost f0 = *func_data;
                let lv = match lhs.convert_to_koopa_ir(func_data, entry, symtable) {
                    Ok(lv) => lv,
                    Err(e) => return Err(e),
                };
                let ghost f1 = *func_data;
                proof { lemma_keeps_ready(&f1, &f0, entry, symtable); }
                let rv = match rhs.convert_to_koopa_ir(func_data, entry, symtable) {
                    Ok(rv) => rv,
                    Err(e) => {
                        proof { lemma_keeps_trans(func_data, &f1, &f0, entry); }
                        return Err(e);
                    },
                };
                let ghost f2 = *func_data;
                proof {
                    lemma_keeps_value(&f2, &f1, entry, lv);
                    lemma_keeps_trans(&f2, &f1, &f0, entry);
                }
                let v = emit_inst(func_data, entry, ValueKind::Binary(BinaryOp::Add, lv, rv));
                proof { lemma_keeps_trans(func_data, &f2, &f0, entry); }
                Ok(v)
            },
            AddExp::Sub(lhs, rhs) => {
                let ghost f0 = *func_data;
                let lv = match lhs.convert_to_koopa_ir(func_data, entry, symtable) {
                    Ok(lv) => lv,
                    Err(e) => return Err(e),
                };
                let ghost f1 = *func_data;
                proof { lemma_keeps_ready(&f1, &f0, entry, symtable); }
                let rv = match rhs.convert_to_koopa_ir(func_data, entry, symtable) {
                    Ok(rv) => rv,
                    Err(e) => {
                        proof { lemma_keeps_trans(func_data, &f1, &f0, entry); }
                        return Err(e);
                    },
                };
                let ghost f2 = *func_data;
                proof {
                    lemma_keeps_value(&f2, &f1, entry, lv);
                    lemma_keeps_trans(&f2, &f1, &f0, entry);
                }
                let v = emit_inst(func_data, entry, ValueKind::Binary(BinaryOp::Sub, lv, rv));
                proof { lemma_keeps_trans(func_data, &f2, &f0, entry); }
                Ok(v)
            },
        }
    }
}

impl MulExp {
    /// Generates the IR of the expression into block `entry`; returns the
    /// value that holds its result.
    fn convert_to_koopa_ir(&self, func_data: &mut FunctionData, entry: BasicBlock, symtable: &mut SymTable) -> (r: Result<Value, CompileError>)
        requires
            gen_ready(old(func_data), entry, old(symtable)),
        ensures
            gen_keeps(final(func_data), old(func_data), entry),
            final(symtable).scopes() == old(symtable).scopes(),
            final(symtable).cache() == old(symtable).cache(),
            match conv_in(self.to_expr(), old(func_data), entry as int, old(symtable)) {
                Ok((em, v)) => r == Ok::<Value, CompileError>(v) && emit_of(final(func_data), entry as int) == em
                    && is_i32_value(em.values, v),
                Err(f) => rview(r) == Err::<Value, Fault>(f),
            },
        decreases self,
    {
        proof { lemma_keeps_refl(func_data, entry); }
        match self.evaluate(symtable) {
            Err(e) => return Err(e),
            Ok(Some(val)) => return Ok(emit_integer(func_data, entry, val)),
            Ok(None) => {},
        }
        match self {
            MulExp::Unary(inner) => inner.convert_to_koopa_ir(func_data, entry, symtable),
            MulExp::Mul(lhs, rhs) => {
                let ghost f0 = *func_data;
                let lv = match lhs.convert_to_koopa_ir(func_data, entry, symtable) {
                    Ok(lv) => lv,
                    Err(e) => return Err(e),
                };
                let ghost f1 = *func_data;
                proof { lemma_keeps_ready(&f1, &f0, entry, symtable); }
                let rv = match rhs.convert_to_koopa_ir(func_data, entry, symtable) {
                    Ok(rv) => rv,
                    Err(e) => {
                        proof { lemma_keeps_trans(func_data, &f1, &f0, entry); }
                        return Err(e);
                    },
                };
                let ghost f2 = *func_data;
                proof {
                    lemma_keeps_value(&f2, &f1, entry, lv);
                    lemma_keeps_trans(&f2, &f1, &f0, entry);
                }
                let v = emit_inst(func_data, entry, ValueKind::Binary(BinaryOp::Mul, lv, rv));
                proof { lemma_keeps_trans(func_data, &f2, &f0, entry); }
                Ok(v)
            },
            MulExp::Div(lhs, rhs) => {
                let ghost f0 = *func_data;
                let lv = match lhs.convert_to_koopa_ir(func_data, entry, symtable) {
                    Ok(lv) => lv,
                    Err(e) => return Err(e),
                };
                let ghost f1 = *func_data;
                proof { lemma_keeps_ready(&f1, &f0, entry, symtable); }
                let rv = match rhs.convert_to_koopa_ir(func_data, entry, symtable) {
                    Ok(rv) => rv,
                    Err(e) => {
                        proof { lemma_keeps_trans(func_data, &f1, &f0, entry); }
                        return Err(e);
                    },
                };
                let ghost f2 = *func_data;
                proof {
                    lemma_keeps_value(&f2, &f1, entry, lv);
                    lemma_keeps_trans(&f2, &f1, &f0, entry);
                }
                let v = emit_inst(func_data, entry, ValueKind::Binary(BinaryOp::Div, lv, rv));
                proof { lemma_keeps_trans(func_data, &f2, &f0, entry); }
                Ok(v)
            },
            MulExp::Mod(lhs, rhs) => {
                let ghost f0 = *func_data;
                let lv = match lhs.convert_to_koopa_ir(func_data, entry, symtable) {
                    Ok(lv) => lv,
                    Err(e) => return Err(e),
                };
                let ghost f1 = *func_data;
                proof { lemma_keeps_ready(&f1, &f0, entry, symtable); }
                let rv = match rhs.convert_to_koopa_ir(func_data, entry, symtable) {
                    Ok(rv) => rv,
                    Err(e) => {
                        proof { lemma_keeps_trans(func_data, &f1, &f0, entry); }
                        return Err(e);
                    },
                };
                let ghost f2 = *func_data;
                proof {
                    lemma_keeps_value(&f2, &f1, entry, lv);
                    lemma_keeps_trans(&f2, &f1, &f0, entry);
                }
                let v = emit_inst(func_data, entry, ValueKind::Binary(BinaryOp::Mod, lv, rv));
                proof { lemma_keeps_trans(func_data, &f2, &f0, entry); }
                Ok(v)
            },
        }
    }
}

// ---------------------------------------------------------------------------
// Declarations, statements and blocks.
// ---------------------------------------------------------------------------

/// The whole state of IR generation: the emitted code, the scopes and the
/// known values.
#[verifier::ext_equal]
pub struct Gen {
    pub em: Emit,
    pub scopes: Seq<Map<Seq<char>, ScopeEntry>>,
    pub cache: Map<Value, i32>,
}

/// The generation state of block `bb` of `f` with table `st`.
pub open spec fn gen_of(f: &FunctionData, bb: int, st: &SymTable) -> Gen {
    Gen { em: emit_of(f, bb), scopes: st.scopes(), cache: st.cache() }
}

/// `g` with its code replaced by `em`.
pub open spec fn with_em(g: Gen, em: Emit) -> Gen {
    Gen { em: em, scopes: g.scopes, cache: g.cache }
}

/// The compile-time value of expression `e` in state `g`.
#[verifier::opaque]
pub open spec fn exp_value(e: &Exp, scopes: Seq<Map<Seq<char>, ScopeEntry>>, cache: Map<Value, i32>) -> Result<Option<i32>, Fault> {
    eval(e.to_expr(), scopes, cache)
}

/// The code of expression `e` in state `g`, and the value holding its result.
#[verifier::opaque]
pub open spec fn exp_code(e: &Exp, g: Gen) -> Result<(Emit, Value), Fault> {
    conv(e.to_expr(), g.em, g.scopes, g.cache)
}

/// The expression of a constant initializer.
pub open spec fn const_init_exp(c: &ConstInitVal) -> &Exp {
    match c {
        ConstInitVal::Exp(ce) => &ce.exp,
    }
}

/// Folds an expression.
fn fold_exp(e: &Exp, symtable: &SymTable) -> (r: Result<Option<i32>, CompileError>)
    ensures
        rview(r) == exp_value(e, symtable.scopes(), symtable.cache()),
{
    reveal(exp_value);
    e.evaluate(symtable)
}

/// Generates an expression.
fn gen_exp(e: &Exp, func_data: &mut FunctionData, entry: BasicBlock, symtable: &mut SymTable) -> (r: Result<Value, CompileError>)
    requires
        gen_ready(old(func_data), entry, old(symtable)),
    ensures
        gen_keeps(final(func_data), old(func_data), entry),
        final(symtable).scopes() == old(symtable).scopes(),
        final(symtable).cache() == old(symtable).cache(),
        match exp_code(e, gen_of(old(func_data), entry as int, old(symtable))) {
            Ok((em, v)) => r == Ok::<Value, CompileError>(v) && emit_of(final(func_data), entry as int) == em
                && is_i32_value(em.values, v),
            Err(f) => rview(r) == Err::<Value, Fault>(f),
        },
{
    reveal(exp_code);
    e.convert_to_koopa_ir(func_data, entry, symtable)
}

/// Constant definitions, in order: each initializer must fold, and its value
/// is bound to the name in the innermost scope.  Returns the new scopes.
pub open spec fn conv_const_defs(defs: Seq<ConstDef>, scopes: Seq<Map<Seq<char>, ScopeEntry>>, cache: Map<Value, i32>) -> Result<Seq<Map<Seq<char>, ScopeEntry>>, Fault>
    decreases defs.len(),
{
    if defs.len() == 0 {
        Ok(scopes)
    } else {
        let d = defs[0];
        match exp_value(const_init_exp(&d.init_val), scopes, cache) {
            Err(f) => Err(f),
            Ok(None) => Err(Fault::NonConstantInit(d.ident@)),
            Ok(Some(v)) => if bound_in_innermost(scopes, d.ident@) {
                Err(Fault::RedefinedSymbol(d.ident@))
            } else {
                conv_const_defs(defs.drop_first(), bind(scopes, d.ident@, ScopeEntry::Const(v)), cache)
            },
        }
    }
}

/// The scopes with the constants of `defs` bound in order, up to the first
/// one that fails (its initializer does not fold, or the innermost scope
/// already binds its name): what generation leaves, whether it succeeds or
/// stops at that constant.
pub open spec fn const_defs_reached(defs: Seq<ConstDef>, scopes: Seq<Map<Seq<char>, ScopeEntry>>, cache: Map<Value, i32>) -> Seq<Map<Seq<char>, ScopeEntry>>
    decreases defs.len(),
{
    if defs.len() == 0 {
        scopes
    } else {
        let d = defs[0];
        match exp_value(const_init_exp(&d.init_val), scopes, cache) {
            Ok(Some(v)) => if bound_in_innermost(scopes, d.ident@) {
                scopes
            } else {
                const_defs_reached(defs.drop_first(), bind(scopes, d.ident@, ScopeEntry::Const(v)), cache)
            },
            _ => scopes,
        }
    }
}

/// The name a variable definition declares.
pub open spec fn var_def_name(d: VarDef) -> Seq<char> {
    match d {
        VarDef::IDENT(name) => name@,
        VarDef::IDENTInitVal(name, _) => name@,
    }
}

/// Variable definitions, in order: each gets an allocation; an initializer
/// must fold, and its value is stored and recorded as the variable's known
/// value; the name is bound to the allocation in the innermost scope.
pub open spec fn conv_var_defs(defs: Seq<VarDef>, g: Gen) -> Result<Gen, Fault>
    decreases defs.len(),
{
    if defs.len() == 0 {
        Ok(g)
    } else {
        let d = defs[0];
        let name = var_def_name(d);
        let (em1, alloc) = add_inst(g.em, ValueKind::Alloc);
        match d {
            VarDef::IDENT(_) => if bound_in_innermost(g.scopes, name) {
                Err(Fault::RedefinedSymbol(name))
            } else {
                conv_var_defs(
                    defs.drop_first(),
                    Gen { em: em1, scopes: bind(g.scopes, name, ScopeEntry::Var(alloc)), cache: g.cache },
                )
            },
            VarDef::IDENTInitVal(_, init) => match exp_value(&init.exp, g.scopes, g.cache) {
                Err(f) => Err(f),
                Ok(None) => Err(Fault::NonConstantInit(name)),
                Ok(Some(v)) => {
                    let (em2, value) = add_value(em1, ValueKind::Integer(v));
                    let (em3, _) = add_inst(em2, ValueKind::Store(value, alloc));
                    if bound_in_innermost(g.scopes, name) {
                        Err(Fault::RedefinedSymbol(name))
                    } else {
                        conv_var_defs(
                            defs.drop_first(),
                            Gen {
                                em: em3,
                                scopes: bind(g.scopes, name, ScopeEntry::Var(alloc)),
                                cache: g.cache.insert(alloc, v),
                            },
                        )
                    }
                },
            },
        }
    }
}

/// A declaration.
pub open spec fn conv_decl(d: &Decl, g: Gen) -> Result<Gen, Fault> {
    match d {
        Decl::ConstDecl(cd) => match conv_const_defs(cd.defs@, g.scopes, g.cache) {
            Err(f) => Err(f),
            Ok(scopes) => Ok(Gen { em: g.em, scopes: scopes, cache: g.cache }),
        },
        Decl::VarDecl(vd) => conv_var_defs(vd.defs@, g),
    }
}

/// A statement.  An assignment stores the value of its expression into the
/// variable, and records that value as known when the expression folds (and
/// as unknown when it does not); a
/// return emits `ret`; an expression statement emits its expression's code;
/// a block is generated in a scope of its own.
pub open spec fn conv_stmt(s: &Stmt, g: Gen) -> Result<Gen, Fault>
    decreases s,
{
    match s {
        Stmt::Assign(lval, exp) => match lookup(g.scopes, lval.ident@) {
            None => Err(Fault::UndefinedVariable(lval.ident@)),
            Some(ScopeEntry::Const(_)) => Err(Fault::AssignToConst(lval.ident@)),
            Some(ScopeEntry::Var(alloc)) => match exp_code(exp, g) {
                Err(f) => Err(f),
                Ok((em1, v)) => {
                    let (em2, _) = add_inst(em1, ValueKind::Store(v, alloc));
                    match exp_value(exp, g.scopes, g.cache) {
                        Err(f) => Err(f),
                        Ok(Some(n)) => Ok(Gen { em: em2, scopes: g.scopes, cache: g.cache.insert(alloc, n) }),
                        Ok(None) => Ok(Gen { em: em2, scopes: g.scopes, cache: g.cache.remove(alloc) }),
                    }
                },
            },
        },
        Stmt::Return(exp) => match exp_code(exp, g) {
            Err(f) => Err(f),
            Ok((em1, v)) => Ok(with_em(g, add_inst(em1, ValueKind::Return(Some(v))).0)),
        },
        Stmt::ExprStmt(opt) => match opt {
            Some(exp) => match exp_code(exp, g) {
                Err(f) => Err(f),
                Ok((em1, _)) => Ok(with_em(g, em1)),
            },
            None => Ok(g),
        },
        Stmt::Block(b) => conv_block(b, g),
    }
}

/// A block item.
pub open spec fn conv_item(it: &BlockItem, g: Gen) -> Result<Gen, Fault>
    decreases it,
{
    match it {
        BlockItem::Decl(d) => conv_decl(d, g),
        BlockItem::Stmt(s) => conv_stmt(s, g),
    }
}

/// Block items, in order.
pub open spec fn conv_items(items: Seq<BlockItem>, g: Gen) -> Result<Gen, Fault>
    decreases items,
{
    if items.len() == 0 {
        Ok(g)
    } else {
        match conv_item(&items[0], g) {
            Err(f) => Err(f),
            Ok(g1) => conv_items(items.drop_first(), g1),
        }
    }
}

/// A block: its items in a new innermost scope, which is closed afterwards.
pub open spec fn conv_block(b: &Block, g: Gen) -> Result<Gen, Fault>
    decreases b,
{
    let g1 = Gen { em: g.em, scopes: g.scopes.push(Map::<Seq<char>, ScopeEntry>::empty()), cache: g.cache };
    match conv_items(b.items@, g1) {
        Err(f) => Err(f),
        Ok(g2) => Ok(Gen {
            em: g2.em,
            scopes: if g2.scopes.len() == 0 { g2.scopes } else { g2.scopes.drop_last() },
            cache: g2.cache,
        }),
    }
}

pub proof fn lemma_vars_push_scope(scopes: Seq<Map<Seq<char>, ScopeEntry>>, values: Seq<ValueKind>)
    requires
        vars_are_allocs(scopes, values),
    ensures
        vars_are_allocs(scopes.push(Map::<Seq<char>, ScopeEntry>::empty()), values),
{
    reveal(vars_are_allocs);
    let s2 = scopes.push(Map::<Seq<char>, ScopeEntry>::empty());
    assert forall|i: int, n: Seq<char>| 0 <= i < s2.len() && #[trigger] s2[i].contains_key(n) implies match s2[i][n] {
        ScopeEntry::Var(a) => is_alloc_value(values, a),
        ScopeEntry::Const(_) => true,
    } by {
        assert(i < scopes.len());
        assert(s2[i] == scopes[i]);
    }
}

pub proof fn lemma_vars_drop_last(scopes: Seq<Map<Seq<char>, ScopeEntry>>, values: Seq<ValueKind>)
    requires
        vars_are_allocs(scopes, values),
        scopes.len() > 0,
    ensures
        vars_are_allocs(scopes.drop_last(), values),
{
    reveal(vars_are_allocs);
    let s2 = scopes.drop_last();
    assert forall|i: int, n: Seq<char>| 0 <= i < s2.len() && #[trigger] s2[i].contains_key(n) implies match s2[i][n] {
        ScopeEntry::Var(a) => is_alloc_value(values, a),
        ScopeEntry::Const(_) => true,
    } by {
        assert(s2[i] == scopes[i]);
    }
}

pub proof fn lemma_vars_bind(scopes: Seq<Map<Seq<char>, ScopeEntry>>, values: Seq<ValueKind>, name: Seq<char>, e: ScopeEntry)
    requires
        vars_are_allocs(scopes, values),
        scopes.len() > 0,
        e matches ScopeEntry::Var(a) ==> is_alloc_value(values, a),
    ensures
        vars_are_allocs(bind(scopes, name, e), values),
{
    reveal(vars_are_allocs);
    let s2 = bind(scopes, name, e);
    assert forall|i: int, n: Seq<char>| 0 <= i < s2.len() && #[trigger] s2[i].contains_key(n) implies match s2[i][n] {
        ScopeEntry::Var(a) => is_alloc_value(values, a),
        ScopeEntry::Const(_) => true,
    } by {
        if i == scopes.len() - 1 {
            if n != name {
                assert(scopes[i].contains_key(n));
            }
        } else {
            assert(s2[i] == scopes[i]);
        }
    }
}

/// Constant definitions keep the scopes' shape and the variables' allocations.
pub proof fn lemma_const_defs_keep(defs: Seq<ConstDef>, scopes: Seq<Map<Seq<char>, ScopeEntry>>, cache: Map<Value, i32>, values: Seq<ValueKind>)
    requires
        vars_are_allocs(scopes, values),
        scopes.len() > 0,
    ensures
        conv_const_defs(defs, scopes, cache) matches Ok(sc) ==> sc.len() == scopes.len() && vars_are_allocs(sc, values),
    decreases defs.len(),
{
    if defs.len() > 0 {
        let d = defs[0];
        if let Ok(Some(v)) = exp_value(const_init_exp(&d.init_val), scopes, cache) {
            if !bound_in_innermost(scopes, d.ident@) {
                lemma_vars_bind(scopes, values, d.ident@, ScopeEntry::Const(v));
                lemma_const_defs_keep(defs.drop_first(), bind(scopes, d.ident@, ScopeEntry::Const(v)), cache, values);
            }
        }
    }
}

impl ConstDecl {
    /// Binds each constant to its folded value in the innermost scope.  An
    /// initializer that does not fold (it reads a variable whose value is not
    /// known) stops generation with `NonConstantInit`, one that reads an
    /// undeclared name with `UndefinedVariable`; the constants before it stay
    /// bound.
    fn convert_to_koopa_ir(&self, symtable: &mut SymTable) -> (r: Result<(), CompileError>)
        requires
            old(symtable).scopes().len() > 0,
        ensures
            final(symtable).cache() == old(symtable).cache(),
            match conv_const_defs(self.defs@, old(symtable).scopes(), old(symtable).cache()) {
                Ok(sc) => r is Ok && final(symtable).scopes() == sc,
                Err(f) => rview(r) == Err::<(), Fault>(f),
            },
            final(symtable).scopes() == const_defs_reached(self.defs@, old(symtable).scopes(), old(symtable).cache()),
    {
        let mut i: usize = 0;
        assert(self.defs@.skip(0) =~= self.defs@);
        while i < self.defs.len()
            invariant
                i <= self.defs@.len(),
                symtable.scopes().len() == old(symtable).scopes().len(),
                symtable.scopes().len() > 0,
                symtable.cache() == old(symtable).cache(),
                conv_const_defs(self.defs@, old(symtable).scopes(), old(symtable).cache())
                    == conv_const_defs(self.defs@.skip(i as int), symtable.scopes(), symtable.cache()),
                const_defs_reached(self.defs@, old(symtable).scopes(), old(symtable).cache())
                    == const_defs_reached(self.defs@.skip(i as int), symtable.scopes(), symtable.cache()),
            decreases self.defs@.len() - i,
        {
            let def = &self.defs[i];
            assert(self.defs@.skip(i as int)[0] == *def);
            assert(self.defs@.skip(i as int).drop_first() =~= self.defs@.skip(i + 1));
            let init_exp = match &def.init_val {
                ConstInitVal::Exp(ce) => &ce.exp,
            };
            let val = match fold_exp(init_exp, symtable) {
                Err(e) => return Err(e),
                Ok(None) => return Err(CompileError::NonConstantInit(def.ident.clone())),
                Ok(Some(v)) => v,
            };
            if symtable.defined_in_current(def.ident.as_str()) {
                return Err(CompileError::RedefinedSymbol(def.ident.clone()));
            }
            symtable.insert(def.ident.clone(), ScopeEntry::Const(val));
            i = i + 1;
        }
        Ok(())
    }
}

impl VarDecl {
    /// Allocates each variable, stores its folded initializer, and binds it
    /// in the innermost scope.
    fn convert_to_koopa_ir(&self, func_data: &mut FunctionData, entry: BasicBlock, symtable: &mut SymTable) -> (r: Result<(), CompileError>)
        requires
            gen_ready(old(func_data), entry, old(symtable)),
            old(symtable).scopes().len() > 0,
        ensures
            gen_keeps(final(func_data), old(func_data), entry),
            match conv_var_defs(self.defs@, gen_of(old(func_data), entry as int, old(symtable))) {
                Ok(g) => r is Ok && gen_of(final(func_data), entry as int, final(symtable)) == g
                    && gen_ready(final(func_data), entry, final(symtable))
                    && final(symtable).scopes().len() == old(symtable).scopes().len(),
                Err(f) => rview(r) == Err::<(), Fault>(f),
            },
    {
        let mut i: usize = 0;
        assert(self.defs@.skip(0) =~= self.defs@);
        proof { lemma_keeps_refl(func_data, entry); }
        while i < self.defs.len()
            invariant
                i <= self.defs@.len(),
                gen_ready(func_data, entry, symtable),
                gen_keeps(func_data, old(func_data), entry),
                symtable.scopes().len() == old(symtable).scopes().len(),
                symtable.scopes().len() > 0,
                conv_var_defs(self.defs@, gen_of(old(func_data), entry as int, old(symtable)))
                    == conv_var_defs(self.defs@.skip(i as int), gen_of(func_data, entry as int, symtable)),
            decreases self.defs@.len() - i,
        {
            let def = &self.defs[i];
            assert(self.defs@.skip(i as int)[0] == *def);
            assert(self.defs@.skip(i as int).drop_first() =~= self.defs@.skip(i + 1));
            let ghost f0 = *func_data;
            let alloc = emit_inst(func_data, entry, ValueKind::Alloc);
            assert(is_alloc_value(func_data.values@, alloc));
            proof {
                lemma_keeps_trans(func_data, &f0, old(func_data), entry);
                lemma_keeps_ready(func_data, &f0, entry, symtable);
            }
            match def {
                VarDef::IDENT(name) => {
                    if symtable.defined_in_current(name.as_str()) {
                        return Err(CompileError::RedefinedSymbol(name.clone()));
                    }
                    proof { lemma_vars_bind(symtable.scopes(), func_data.values@, name@, ScopeEntry::Var(alloc)); }
                    symtable.insert(name.clone(), ScopeEntry::Var(alloc));
                },
                VarDef::IDENTInitVal(name, initval) => {
                    let val = match fold_exp(&initval.exp, symtable) {
                        Err(e) => return Err(e),
                        Ok(None) => return Err(CompileError::NonConstantInit(name.clone())),
                        Ok(Some(v)) => v,
                    };
                    let ghost f1 = *func_data;
                    let value = emit_integer(func_data, entry, val);
                    let ghost f2 = *func_data;
                    proof { lemma_keeps_value(&f2, &f1, entry, alloc); }
                    let _store = emit_inst(func_data, entry, ValueKind::Store(value, alloc));
                    proof {
                        lemma_keeps_trans(func_data, &f2, &f1, entry);
                        lemma_keeps_trans(func_data, &f1, old(func_data), entry);
                        lemma_keeps_ready(func_data, &f1, entry, symtable);
                        lemma_keeps_value(func_data, &f1, entry, alloc);
                    }
                    if symtable.defined_in_current(name.as_str()) {
                        return Err(CompileError::RedefinedSymbol(name.clone()));
                    }
                    proof { lemma_vars_bind(symtable.scopes(), func_data.values@, name@, ScopeEntry::Var(alloc)); }
                    symtable.insert(name.clone(), ScopeEntry::Var(alloc));
                    symtable.cache_insert(alloc, val);
                },
            }
            i = i + 1;
        }
        Ok(())
    }
}

impl Decl {
    /// Generates the declaration into block `entry`.
    fn convert_to_koopa_ir(&self, func_data: &mut FunctionData, entry: BasicBlock, symtable: &mut SymTable) -> (r: Result<(), CompileError>)
        requires
            gen_ready(old(func_data), entry, old(symtable)),
            old(symtable).scopes().len() > 0,
        ensures
            gen_keeps(final(func_data), old(func_data), entry),
            match conv_decl(self, gen_of(old(func_data), entry as int, old(symtable))) {
                Ok(g) => r is Ok && gen_of(final(func_data), entry as int, final(symtable)) == g
                    && gen_ready(final(func_data), entry, final(symtable))
                    && final(symtable).scopes().len() == old(symtable).scopes().len(),
                Err(f) => rview(r) == Err::<(), Fault>(f),
            },
    {
        proof { lemma_keeps_refl(func_data, entry); }
        match self {
            Decl::ConstDecl(cd) => {
                proof { lemma_const_defs_keep(cd.defs@, symtable.scopes(), symtable.cache(), func_data.values@); }
                cd.convert_to_koopa_ir(symtable)
            },
            Decl::VarDecl(vd) => vd.convert_to_koopa_ir(func_data, entry, symtable),
        }
    }
}

impl Stmt {
    /// Generates the statement into block `entry`.  Assigning to a constant
    /// stops generation with `AssignToConst` ("should not assign to const"),
    /// and to an undeclared name with `UndefinedVariable`; then nothing is
    /// generated and the table is unchanged.
    fn convert_to_koopa_ir(&self, func_data: &mut FunctionData, entry: BasicBlock, symtable: &mut SymTable) -> (r: Result<(), CompileError>)
        requires
            gen_ready(old(func_data), entry, old(symtable)),
        ensures
            gen_keeps(final(func_data), old(func_data), entry),
            self matches Stmt::Assign(lval, _) ==> (!(lookup(old(symtable).scopes(), lval.ident@) matches Some(
                ScopeEntry::Var(_),
            )) ==> *final(func_data) == *old(func_data) && *final(symtable) == *old(symtable)),
            match conv_stmt(self, gen_of(old(func_data), entry as int, old(symtable))) {
                Ok(g) => r is Ok && gen_of(final(func_data), entry as int, final(symtable)) == g
                    && gen_ready(final(func_data), entry, final(symtable))
                    && final(symtable).scopes().len() == old(symtable).scopes().len(),
                Err(f) => rview(r) == Err::<(), Fault>(f),
            },
        decreases self,
    {
        proof { lemma_keeps_refl(func_data, entry); }
        match self {
            Stmt::Assign(lval, exp) => {
                let alloc = match symtable.get(lval.ident.as_str()) {
                    None => return Err(CompileError::UndefinedVariable(lval.ident.clone())),
                    Some(ScopeEntry::Const(_)) => return Err(CompileError::AssignToConst(lval.ident.clone())),
                    Some(ScopeEntry::Var(v)) => *v,
                };
                proof { lemma_lookup_var_is_alloc(symtable.scopes(), func_data.values@, lval.ident@); }
                let ghost f0 = *func_data;
                let expval = match gen_exp(exp, func_data, entry, symtable) {
                    Ok(v) => v,
                    Err(e) => return Err(e),
                };
                let ghost f1 = *func_data;
                proof { lemma_keeps_value(&f1, &f0, entry, alloc); }
                let _store = emit_inst(func_data, entry, ValueKind::Store(expval, alloc));
                proof {
                    lemma_keeps_trans(func_data, &f1, &f0, entry);
                    lemma_keeps_ready(func_data, &f0, entry, symtable);
                }
                match fold_exp(exp, symtable) {
                    Err(e) => return Err(e),
                    Ok(Some(newval)) => symtable.cache_insert(alloc, newval),
                    Ok(None) => symtable.cache_remove(alloc),
                }
                Ok(())
            },
            Stmt::Return(exp) => {
                let ghost f0 = *func_data;
                let value = match gen_exp(exp, func_data, entry, symtable) {
                    Ok(v) => v,
                    Err(e) => return Err(e),
                };
                let ghost f1 = *func_data;
                let _ret = emit_inst(func_data, entry, ValueKind::Return(Some(value)));
                proof {
                    lemma_keeps_trans(func_data, &f1, &f0, entry);
                    lemma_keeps_ready(func_data, &f0, entry, symtable);
                }
                Ok(())
            },
            Stmt::ExprStmt(exp_opt) => {
                match exp_opt {
                    Some(exp) => {
                        let ghost f0 = *func_data;
                        match gen_exp(exp, func_data, entry, symtable) {
                            Ok(_) => {},
                            Err(e) => return Err(e),
                        }
                        proof { lemma_keeps_ready(func_data, &f0, entry, symtable); }
                        Ok(())
                    },
                    None => Ok(()),
                }
            },
            Stmt::Block(block) => block.convert_to_koopa_ir(func_data, entry, symtable),
        }
    }
}

impl Block {
    /// Generates the block into block `entry`, in a scope of its own.
    fn convert_to_koopa_ir(&self, func_data: &mut FunctionData, entry: BasicBlock, symtable: &mut SymTable) -> (r: Result<(), CompileError>)
        requires
            gen_ready(old(func_data), entry, old(symtable)),
        ensures
            gen_keeps(final(func_data), old(func_data), entry),
            match conv_block(self, gen_of(old(func_data), entry as int, old(symtable))) {
                Ok(g) => r is Ok && gen_of(final(func_data), entry as int, final(symtable)) == g
                    && gen_ready(final(func_data), entry, final(symtable))
                    && final(symtable).scopes().len() == old(symtable).scopes().len(),
                Err(f) => rview(r) == Err::<(), Fault>(f),
            },
        decreases self,
    {
        proof {
            lemma_keeps_refl(func_data, entry);
            lemma_vars_push_scope(symtable.scopes(), func_data.values@);
        }
        symtable.push_scope();
        let ghost g1 = gen_of(func_data, entry as int, symtable);
        let mut i: usize = 0;
        assert(self.items@.skip(0) =~= self.items@);
        while i < self.items.len()
            invariant
                i <= self.items@.len(),
                gen_ready(func_data, entry, symtable),
                gen_keeps(func_data, old(func_data), entry),
                symtable.scopes().len() == old(symtable).scopes().len() + 1,
                g1 == (Gen {
                    em: emit_of(old(func_data), entry as int),
                    scopes: old(symtable).scopes().push(Map::<Seq<char>, ScopeEntry>::empty()),
                    cache: old(symtable).cache(),
                }),
                conv_items(self.items@, g1) == conv_items(self.items@.skip(i as int), gen_of(func_data, entry as int, symtable)),
            decreases self.items@.len() - i,
        {
            let item = &self.items[i];
            assert(self.items@.skip(i as int)[0] == *item);
            assert(self.items@.skip(i as int).drop_first() =~= self.items@.skip(i + 1));
            let ghost fprev = *func_data;
            let ghost gprev = gen_of(func_data, entry as int, symtable);
            proof {
                let rest = self.items@.skip(i as int);
                assert(rest.len() > 0);
                assert(conv_items(rest, gprev) == match conv_item(&rest[0], gprev) {
                    Err(f) => Err(f),
                    Ok(g2) => conv_items(rest.drop_first(), g2),
                });
            }
            let res = match item {
                BlockItem::Decl(decl) => decl.convert_to_koopa_ir(func_data, entry, symtable),
                BlockItem::Stmt(stmt) => stmt.convert_to_koopa_ir(func_data, entry, symtable),
            };
            proof { lemma_keeps_trans(func_data, &fprev, old(func_data), entry); }
            match res {
                Err(e) => return Err(e),
                Ok(()) => {},
            }
            i = i + 1;
        }
        proof {
            lemma_vars_drop_last(symtable.scopes(), func_data.values@);
            assert(self.items@.skip(i as int).len() == 0);
        }
        symtable.pop_scope();
        Ok(())
    }
}

/// Whether `scopes` binds only constants.
pub open spec fn binds_no_variable(scopes: Seq<Map<Seq<char>, ScopeEntry>>) -> bool {
    forall|i: int, n: Seq<char>| 0 <= i < scopes.len() && #[trigger] scopes[i].contains_key(n) ==> scopes[i][n] is Const
}

proof fn lemma_no_variable_allocs(scopes: Seq<Map<Seq<char>, ScopeEntry>>, values: Seq<ValueKind>)
    requires
        binds_no_variable(scopes),
    ensures
        vars_are_allocs(scopes, values),
{
    reveal(vars_are_allocs);
}

/// No code yet.
pub open spec fn empty_emit() -> Emit {
    Emit { values: Seq::empty(), insts: Seq::empty() }
}

/// The generation of a function definition: its body, as a block, from
/// empty code and the definition's own table.
pub open spec fn func_gen(fd: &FuncDef) -> Result<Gen, Fault> {
    conv_block(&fd.block, Gen { em: empty_emit(), scopes: fd.symtable.scopes(), cache: fd.symtable.cache() })
}

/// `f` is the function generated for the definition named `ident` whose
/// generation ended in `g`: it is named `@ident`, has the one block
/// `%entry`, and holds the code of `g`.
pub open spec fn is_function_of(f: &FunctionData, ident: Seq<char>, g: Gen) -> bool {
    &&& f.wf()
    &&& f.name@ == seq!['@'] + ident
    &&& f.bbs@.len() == 1
    &&& f.bbs@[0].name matches Some(n) && n@ == seq!['%', 'e', 'n', 't', 'r', 'y']
    &&& emit_of(f, 0) == g.em
}

impl FuncDef {
    /// Generates the function `@ident`, whose body goes into its one block
    /// `%entry`, and adds it to `program`.
    fn convert_to_koopa_ir(&mut self, program: &mut Program) -> (r: Result<(), CompileError>)
        requires
            old(self).ident@.len() > 0,
            binds_no_variable(old(self).symtable.scopes()),
            old(self).symtable.cache() == Map::<Value, i32>::empty(),
        ensures
            match func_gen(old(self)) {
                Ok(g) => r is Ok && final(program).funcs@.len() == old(program).funcs@.len() + 1
                    && final(program).funcs@.drop_last() == old(program).funcs@
                    && is_function_of(&final(program).funcs@.last(), old(self).ident@, g)
                    && crate::koopa_text::function_accepted(final(program).funcs@.last())
                    && final(self).symtable.scopes() == g.scopes && final(self).symtable.cache() == g.cache,
                Err(f) => rview(r) == Err::<(), Fault>(f),
            },
            final(self).ident == old(self).ident,
            final(self).func_type == old(self).func_type,
            final(self).block == old(self).block,
    {
        let mut name = String::from_str("@");
        proof { reveal_strlit("@"); }
        name.append(self.ident.as_str());
        assert(name@ =~= seq!['@'] + self.ident@);
        let mut func = FunctionData::new(name);
        let bb_name = String::from_str("%entry");
        proof { reveal_strlit("%entry"); }
        assert(bb_name@ =~= seq!['%', 'e', 'n', 't', 'r', 'y']);
        let entry = func.new_bb(Some(bb_name));
        proof {
            lemma_no_variable_allocs(self.symtable.scopes(), func.values@);
            assert(emit_of(&func, 0) =~= empty_emit());
        }
        let ghost f0 = func;
        let ghost g0 = Gen { em: empty_emit(), scopes: self.symtable.scopes(), cache: self.symtable.cache() };
        assert(gen_of(&func, entry as int, &self.symtable) == g0);
        assert(func_gen(old(self)) == conv_block(&self.block, g0));
        let res = self.block.convert_to_koopa_ir(&mut func, entry, &mut self.symtable);
        match res {
            Err(e) => Err(e),
            Ok(()) => {
                proof {
                    reveal(FunctionData::same_layout_except);
                    assert(func.bbs@[0].name == f0.bbs@[0].name);
                    assert(insts_not_constant(f0.values@, f0.insts_of(0)));
                    assert(insts_not_constant(func.values@, func.insts_of(0)));
                    assert(crate::ir::is_ir_name(seq!['%', 'e', 'n', 't', 'r', 'y']));
                    assert(crate::koopa_text::block_accepted(func.values@, func.bbs@[0]));
                }
                program.funcs.push(func);
                assert(program.funcs@.drop_last() =~= old(program).funcs@);
                Ok(())
            },
        }
    }
}

impl CompUnit {
    /// Compiles the unit into a program with one function.  The function's
    /// name must be non-empty (Koopa IR refuses the name `@`), and its table
    /// must start with constants only and no known values: the handles of
    /// the function's values are numbered from `0`, so a known value left
    /// in the table would be taken for one of them.  `parse` gives a table
    /// of that kind.
    pub fn convert_to_koopa_ir(&mut self) -> (r: Result<Program, CompileError>)
        requires
            old(self).func_def.ident@.len() > 0,
            binds_no_variable(old(self).func_def.symtable.scopes()),
            old(self).func_def.symtable.cache() == Map::<Value, i32>::empty(),
        ensures
            match func_gen(&old(self).func_def) {
                Ok(g) => r matches Ok(p) && p.funcs@.len() == 1
                    && is_function_of(&p.funcs@[0], old(self).func_def.ident@, g)
                    && crate::koopa_text::program_accepted(&p)
                    && final(self).func_def.symtable.scopes() == g.scopes
                    && final(self).func_def.symtable.cache() == g.cache,
                Err(f) => rview(r) == Err::<Program, Fault>(f),
            },
            final(self).func_def.ident == old(self).func_def.ident,
            final(self).func_def.func_type == old(self).func_def.func_type,
            final(self).func_def.block == old(self).func_def.block,
    {
        let mut program = Program::new();
        match self.func_def.convert_to_koopa_ir(&mut program) {
            Ok(()) => Ok(program),
            Err(e) => Err(e),
        }
    }
}

} // verus!
