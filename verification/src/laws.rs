//! Properties of IR generation that hold across its functions.
use vstd::prelude::*;

use crate::ast::{Block, BlockItem, Decl, ConstDef, Expr, Stmt, VarDef, eval};
use crate::error::Fault;
use crate::ir::{Value, ValueKind};
use crate::irgen::{
    Emit, Gen, add_inst, add_value, binary_step, conv, conv_block, conv_const_defs, conv_item,
    conv_items, conv_stmt, conv_var_defs, exp_value, unary_step, var_def_name,
};
use crate::symtable::{bind, lookup, ScopeEntry};

verus! {

/// `b` is `a` followed by more: code generation only appends.
pub open spec fn appends(a: Emit, b: Emit) -> bool {
    &&& a.values.is_prefix_of(b.values)
    &&& a.insts.is_prefix_of(b.insts)
}

proof fn lemma_appends_trans(a: Emit, b: Emit, c: Emit)
    requires
        appends(a, b),
        appends(b, c),
    ensures
        appends(a, c),
{
    assert(a.values.is_prefix_of(c.values)) by {
        assert forall|i: int| 0 <= i < a.values.len() implies a.values[i] == c.values[i] by {
            assert(a.values[i] == b.values[i]);
        }
    }
    assert(a.insts.is_prefix_of(c.insts)) by {
        assert forall|i: int| 0 <= i < a.insts.len() implies a.insts[i] == c.insts[i] by {
            assert(a.insts[i] == b.insts[i]);
        }
    }
}

proof fn lemma_add_value_appends(em: Emit, k: ValueKind)
    ensures
        appends(em, add_value(em, k).0),
{
}

proof fn lemma_add_inst_appends(em: Emit, k: ValueKind)
    ensures
        appends(em, add_inst(em, k).0),
{
}

/// An expression that folds to `n` becomes the one integer constant `n`,
/// and no instruction.
pub proof fn law_folded_expression_is_constant(
    e: Expr,
    em: Emit,
    scopes: Seq<Map<Seq<char>, ScopeEntry>>,
    cache: Map<Value, i32>,
    n: i32,
)
    requires
        eval(e, scopes, cache) == Ok::<Option<i32>, Fault>(Some(n)),
    ensures
        conv(e, em, scopes, cache) == Ok::<(Emit, Value), Fault>(add_value(em, ValueKind::Integer(n))),
        conv(e, em, scopes, cache) matches Ok((em2, _)) ==> em2.insts == em.insts,
{
}

/// Generating an expression only appends values and instructions: what was
/// generated before stays as it was.
pub proof fn law_expression_code_appends(e: Expr, em: Emit, scopes: Seq<Map<Seq<char>, ScopeEntry>>, cache: Map<Value, i32>)
    ensures
        conv(e, em, scopes, cache) matches Ok((em2, _)) ==> appends(em, em2),
    decreases e,
{
    match eval(e, scopes, cache) {
        Err(_) => {},
        Ok(Some(n)) => {},
        Ok(None) => match e {
            Expr::Num(_) => {},
            Expr::Name(_) => {},
            Expr::Unary(op, x) => {
                law_expression_code_appends(*x, em, scopes, cache);
                if let Ok((em1, val)) = conv(*x, em, scopes, cache) {
                    let (em2, zero) = add_value(em1, ValueKind::Integer(0));
                    lemma_add_value_appends(em1, ValueKind::Integer(0));
                    let k = if op == crate::ast::UnaryOp::Neg {
                        ValueKind::Binary(crate::ir::BinaryOp::Sub, zero, val)
                    } else {
                        ValueKind::Binary(crate::ir::BinaryOp::Eq, val, zero)
                    };
                    lemma_add_inst_appends(em2, k);
                    lemma_appends_trans(em1, em2, add_inst(em2, k).0);
                    lemma_appends_trans(em, em1, unary_step(op, em1, val).0);
                }
            },
            Expr::Binary(op, l, r) => {
                law_expression_code_appends(*l, em, scopes, cache);
                if let Ok((em1, lv)) = conv(*l, em, scopes, cache) {
                    law_expression_code_appends(*r, em1, scopes, cache);
                    if let Ok((em2, rv)) = conv(*r, em1, scopes, cache) {
                        crate::semantics::lemma_binary_step_extends(op, em2, lv, rv);
                        let em3 = binary_step(op, em2, lv, rv).0;
                        assert(em2.insts.is_prefix_of(em3.insts)) by {
                            assert(em2.insts =~= em3.insts.subrange(0, em2.insts.len() as int));
                        }
                        lemma_appends_trans(em1, em2, em3);
                        lemma_appends_trans(em, em1, em3);
                    }
                }
            },
        },
    }
}

/// Whether `b` has the scopes of `a` with only the innermost one changed.
pub open spec fn same_outer_scopes(a: Seq<Map<Seq<char>, ScopeEntry>>, b: Seq<Map<Seq<char>, ScopeEntry>>) -> bool {
    &&& a.len() == b.len()
    &&& a.len() > 0
    &&& a.drop_last() == b.drop_last()
}

proof fn lemma_bind_same_outer(scopes: Seq<Map<Seq<char>, ScopeEntry>>, name: Seq<char>, e: ScopeEntry)
    requires
        scopes.len() > 0,
    ensures
        same_outer_scopes(scopes, bind(scopes, name, e)),
{
    assert(scopes.drop_last() =~= bind(scopes, name, e).drop_last());
}

proof fn lemma_same_outer_trans(a: Seq<Map<Seq<char>, ScopeEntry>>, b: Seq<Map<Seq<char>, ScopeEntry>>, c: Seq<Map<Seq<char>, ScopeEntry>>)
    requires
        same_outer_scopes(a, b),
        same_outer_scopes(b, c),
    ensures
        same_outer_scopes(a, c),
{
}

proof fn lemma_const_defs_outer(defs: Seq<ConstDef>, scopes: Seq<Map<Seq<char>, ScopeEntry>>, cache: Map<Value, i32>)
    requires
        scopes.len() > 0,
    ensures
        conv_const_defs(defs, scopes, cache) matches Ok(s2) ==> same_outer_scopes(scopes, s2),
    decreases defs.len(),
{
    if defs.len() > 0 {
        let d = defs[0];
        if let Ok(Some(v)) = crate::irgen::exp_value(crate::irgen::const_init_exp(&d.init_val), scopes, cache) {
            let s1 = bind(scopes, d.ident@, ScopeEntry::Const(v));
            lemma_bind_same_outer(scopes, d.ident@, ScopeEntry::Const(v));
            lemma_const_defs_outer(defs.drop_first(), s1, cache);
        }
    }
}

proof fn lemma_var_defs_outer(defs: Seq<VarDef>, g: Gen)
    requires
        g.scopes.len() > 0,
    ensures
        conv_var_defs(defs, g) matches Ok(g2) ==> same_outer_scopes(g.scopes, g2.scopes),
    decreases defs.len(),
{
    if defs.len() > 0 {
        let d = defs[0];
        let name = var_def_name(d);
        let (em1, alloc) = add_inst(g.em, ValueKind::Alloc);
        let s1 = bind(g.scopes, name, ScopeEntry::Var(alloc));
        lemma_bind_same_outer(g.scopes, name, ScopeEntry::Var(alloc));
        match d {
            VarDef::IDENT(_) => {
                lemma_var_defs_outer(defs.drop_first(), Gen { em: em1, scopes: s1, cache: g.cache });
            },
            VarDef::IDENTInitVal(_, init) => {
                if let Ok(Some(v)) = crate::irgen::exp_value(&init.exp, g.scopes, g.cache) {
                    let (em2, value) = add_value(em1, ValueKind::Integer(v));
                    let (em3, _) = add_inst(em2, ValueKind::Store(value, alloc));
                    lemma_var_defs_outer(defs.drop_first(), Gen { em: em3, scopes: s1, cache: g.cache.insert(alloc, v) });
                }
            },
        }
    }
}

/// A statement changes at most the innermost scope.
proof fn lemma_stmt_outer(s: &Stmt, g: Gen)
    requires
        g.scopes.len() > 0,
    ensures
        conv_stmt(s, g) matches Ok(g2) ==> same_outer_scopes(g.scopes, g2.scopes),
    decreases s, 0int,
{
    match s {
        Stmt::Block(b) => {
            law_block_restores_scopes(b, g);
        },
        _ => {},
    }
}

/// A block item changes at most the innermost scope.
proof fn lemma_item_outer(it: &BlockItem, g: Gen)
    requires
        g.scopes.len() > 0,
    ensures
        conv_item(it, g) matches Ok(g2) ==> same_outer_scopes(g.scopes, g2.scopes),
    decreases it, 0int,
{
    match it {
        BlockItem::Decl(d) => match d {
            Decl::ConstDecl(cd) => lemma_const_defs_outer(cd.defs@, g.scopes, g.cache),
            Decl::VarDecl(vd) => lemma_var_defs_outer(vd.defs@, g),
        },
        BlockItem::Stmt(s) => lemma_stmt_outer(s, g),
    }
}

/// Block items change at most the innermost scope.
proof fn lemma_items_outer(items: Seq<BlockItem>, g: Gen)
    requires
        g.scopes.len() > 0,
    ensures
        conv_items(items, g) matches Ok(g2) ==> same_outer_scopes(g.scopes, g2.scopes),
    decreases items, 0int,
{
    if items.len() > 0 {
        lemma_item_outer(&items[0], g);
        if let Ok(g1) = conv_item(&items[0], g) {
            lemma_items_outer(items.drop_first(), g1);
            if let Ok(g2) = conv_items(items.drop_first(), g1) {
                lemma_same_outer_trans(g.scopes, g1.scopes, g2.scopes);
            }
        }
    }
}

/// A block leaves the enclosing scopes exactly as they were: what it
/// declares is forgotten when it ends.
pub proof fn law_block_restores_scopes(b: &Block, g: Gen)
    ensures
        conv_block(b, g) matches Ok(g2) ==> g2.scopes == g.scopes,
    decreases b, 1int,
{
    let g1 = Gen { em: g.em, scopes: g.scopes.push(Map::<Seq<char>, ScopeEntry>::empty()), cache: g.cache };
    lemma_items_outer(b.items@, g1);
    if let Ok(g2) = conv_items(b.items@, g1) {
        assert(g1.scopes.drop_last() =~= g.scopes);
    }
}

/// A variable declared without an initializer has no known value: its
/// allocation is a value made after every value whose value is known.  A
/// variable declared with an initializer has that value as its known one.
pub proof fn law_declared_variable_value(d: VarDef, g: Gen)
    requires
        g.scopes.len() > 0,
        crate::irgen::cache_keys_below(g.cache, g.em.values.len()),
        g.em.values.len() < usize::MAX,
    ensures
        conv_var_defs(seq![d], g) matches Ok(g2) ==> lookup(g2.scopes, var_def_name(d)) == Some(
            ScopeEntry::Var(g.em.values.len() as Value),
        ) && match d {
            VarDef::IDENT(_) => !g2.cache.contains_key(g.em.values.len() as Value),
            VarDef::IDENTInitVal(_, init) => exp_value(&init.exp, g.scopes, g.cache) matches Ok(Some(v))
                && g2.cache.contains_key(g.em.values.len() as Value) && g2.cache[g.em.values.len() as Value] == v,
        },
{
    let defs = seq![d];
    assert(defs[0] == d);
    assert(defs.drop_first() =~= Seq::<VarDef>::empty());
    let name = var_def_name(d);
    let (em1, alloc) = add_inst(g.em, ValueKind::Alloc);
    let scopes1 = bind(g.scopes, name, ScopeEntry::Var(alloc));
    crate::symtable::law_lookup_after_bind(g.scopes, name, ScopeEntry::Var(alloc));
    match d {
        VarDef::IDENT(_) => {
            let g1 = Gen { em: em1, scopes: scopes1, cache: g.cache };
            assert(conv_var_defs(Seq::<VarDef>::empty(), g1) == Ok::<Gen, Fault>(g1));
        },
        VarDef::IDENTInitVal(_, init) => {
            if let Ok(Some(v)) = exp_value(&init.exp, g.scopes, g.cache) {
                let (em2, value) = add_value(em1, ValueKind::Integer(v));
                let (em3, _) = add_inst(em2, ValueKind::Store(value, alloc));
                let g1 = Gen { em: em3, scopes: scopes1, cache: g.cache.insert(alloc, v) };
                assert(conv_var_defs(Seq::<VarDef>::empty(), g1) == Ok::<Gen, Fault>(g1));
            }
        },
    }
}

} // verus!
