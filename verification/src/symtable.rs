//! Scoped symbol table of the IR generator.
use std::collections::HashMap;
use vstd::hash_map::StringHashMap;
use vstd::prelude::*;

use crate::ir::Value;

verus! {

broadcast use vstd::std_specs::hash::group_hash_axioms;

/// What a name stands for: a compile-time constant, or a run-time variable
/// (the handle of its allocation).
#[derive(Clone, Copy, PartialEq, Eq, Structural, Debug)]
pub enum ScopeEntry {
    Const(i32),
    Var(Value),
}

/// A stack of scopes, innermost last, with a map from value handles to the
/// compile-time values known for them.
///
/// - `scopes`: name to entry, one map per open block; decides which names
///   are visible.
/// - `value_cache`: handle to known value; independent of scopes, since a
///   handle is unique within its function.
pub struct SymTable {
    scopes: Vec<StringHashMap<ScopeEntry>>,
    pub value_cache: HashMap<Value, i32>,
}

/// The binding that `name` has in `scopes`: the one of the innermost scope
/// that binds it.
pub open spec fn lookup(scopes: Seq<Map<Seq<char>, ScopeEntry>>, name: Seq<char>) -> Option<ScopeEntry>
    decreases scopes.len(),
{
    if scopes.len() == 0 {
        None
    } else if scopes.last().contains_key(name) {
        Some(scopes.last()[name])
    } else {
        lookup(scopes.drop_last(), name)
    }
}

/// `scopes` with `name` bound to `entry` in the innermost scope.
pub open spec fn bind(scopes: Seq<Map<Seq<char>, ScopeEntry>>, name: Seq<char>, entry: ScopeEntry) -> Seq<
    Map<Seq<char>, ScopeEntry>,
> {
    scopes.update(scopes.len() - 1, scopes.last().insert(name, entry))
}

/// Whether the innermost scope of `scopes` binds `name`.
pub open spec fn bound_in_innermost(scopes: Seq<Map<Seq<char>, ScopeEntry>>, name: Seq<char>) -> bool {
    scopes.len() > 0 && scopes.last().contains_key(name)
}

impl SymTable {
    /// The scopes, outermost first.
    pub closed spec fn scopes(&self) -> Seq<Map<Seq<char>, ScopeEntry>> {
        self.scopes@.map_values(|m: StringHashMap<ScopeEntry>| m@)
    }

    /// The known compile-time values, by handle.
    pub closed spec fn cache(&self) -> Map<Value, i32> {
        self.value_cache@
    }

    /// A table with one empty scope and no known values.
    pub fn new() -> (st: SymTable)
        ensures
            st.scopes() == seq![Map::<Seq<char>, ScopeEntry>::empty()],
            st.cache() == Map::<Value, i32>::empty(),
    {
        let mut scopes: Vec<StringHashMap<ScopeEntry>> = Vec::new();
        scopes.push(StringHashMap::new());
        let st = SymTable { scopes, value_cache: HashMap::new() };
        assert(st.scopes() =~= seq![Map::<Seq<char>, ScopeEntry>::empty()]);
        st
    }

    /// Opens a new innermost scope; called on entering a block.
    pub fn push_scope(&mut self)
        ensures
            final(self).scopes() == old(self).scopes().push(Map::<Seq<char>, ScopeEntry>::empty()),
            final(self).cache() == old(self).cache(),
    {
        self.scopes.push(StringHashMap::new());
        assert(self.scopes() =~= old(self).scopes().push(Map::<Seq<char>, ScopeEntry>::empty()));
    }

    /// Closes the innermost scope, if any; called on leaving a block.
    pub fn pop_scope(&mut self)
        ensures
            final(self).scopes() == (if old(self).scopes().len() == 0 {
                old(self).scopes()
            } else {
                old(self).scopes().drop_last()
            }),
            final(self).cache() == old(self).cache(),
    {
        let n = self.scopes.len();
        let _ = self.scopes.pop();
        if n == 0 {
            assert(self.scopes() =~= old(self).scopes());
        } else {
            assert(self.scopes() =~= old(self).scopes().drop_last());
        }
    }

    /// Whether the innermost scope binds `key`.
    pub(crate) fn defined_in_current(&self, key: &str) -> (b: bool)
        ensures
            b == bound_in_innermost(self.scopes(), key@),
    {
        let n = self.scopes.len();
        if n == 0 {
            false
        } else {
            self.scopes[n - 1].contains_key(key)
        }
    }

    /// Binds `key` to `entry` in the innermost scope.  There must be an open
    /// scope, and the name must not be bound in it yet.
    pub fn insert(&mut self, key: String, entry: ScopeEntry)
        requires
            old(self).scopes().len() > 0,
            !old(self).scopes().last().contains_key(key@),
        ensures
            final(self).scopes() == bind(old(self).scopes(), key@, entry),
            final(self).cache() == old(self).cache(),
    {
        let n = self.scopes.len();
        let mut cur = self.scopes.remove(n - 1);
        cur.insert(key, entry);
        self.scopes.push(cur);
        assert(self.scopes() =~= bind(old(self).scopes(), key@, entry));
    }

    /// Looks `key` up, from the innermost scope outwards.
    pub fn get(&self, key: &str) -> (r: Option<&ScopeEntry>)
        ensures
            r matches Some(e) ==> lookup(self.scopes(), key@) == Some(*e),
            r is None ==> lookup(self.scopes(), key@) is None,
    {
        let mut i = self.scopes.len();
        assert(self.scopes().take(i as int) =~= self.scopes());
        while i > 0
            invariant
                i <= self.scopes@.len(),
                lookup(self.scopes(), key@) == lookup(self.scopes().take(i as int), key@),
            decreases i,
        {
            i = i - 1;
            let ghost pre = self.scopes().take(i + 1);
            assert(pre.drop_last() =~= self.scopes().take(i as int));
            if let Some(v) = self.scopes[i].get(key) {
                return Some(v);
            }
        }
        None
    }

    /// Records `n` as the known compile-time value of handle `v`.
    pub(crate) fn cache_insert(&mut self, v: Value, n: i32)
        ensures
            final(self).scopes() == old(self).scopes(),
            final(self).cache() == old(self).cache().insert(v, n),
    {
        self.value_cache.insert(v, n);
    }

    /// Forgets the compile-time value of handle `v`: its value is no longer known.
    pub(crate) fn cache_remove(&mut self, v: Value)
        ensures
            final(self).scopes() == old(self).scopes(),
            final(self).cache() == old(self).cache().remove(v),
    {
        self.value_cache.remove(&v);
    }

    /// The known compile-time value of handle `v`, if any.
    pub(crate) fn cache_get(&self, v: Value) -> (r: Option<i32>)
        ensures
            r == (if self.cache().contains_key(v) { Some(self.cache()[v]) } else { None::<i32> }),
    {
        match self.value_cache.get(&v) {
            Some(n) => Some(*n),
            None => None,
        }
    }
}

/// A binding made in the innermost scope is what a lookup of that name finds.
pub proof fn law_lookup_after_bind(scopes: Seq<Map<Seq<char>, ScopeEntry>>, name: Seq<char>, entry: ScopeEntry)
    requires
        scopes.len() > 0,
    ensures
        lookup(bind(scopes, name, entry), name) == Some(entry),
{
}

/// Binding a name leaves the lookup of every other name unchanged.
pub proof fn law_bind_keeps_other_names(
    scopes: Seq<Map<Seq<char>, ScopeEntry>>,
    name: Seq<char>,
    entry: ScopeEntry,
    other: Seq<char>,
)
    requires
        scopes.len() > 0,
        other != name,
    ensures
        lookup(bind(scopes, name, entry), other) == lookup(scopes, other),
{
    let s2 = bind(scopes, name, entry);
    assert(s2.drop_last() =~= scopes.drop_last());
}

/// Opening an empty scope changes no lookup.
pub proof fn law_push_scope_keeps_lookup(scopes: Seq<Map<Seq<char>, ScopeEntry>>, name: Seq<char>)
    ensures
        lookup(scopes.push(Map::<Seq<char>, ScopeEntry>::empty()), name) == lookup(scopes, name),
{
    assert(scopes.push(Map::<Seq<char>, ScopeEntry>::empty()).drop_last() =~= scopes);
}

/// A name bound in an inner scope hides its bindings in outer scopes.
pub proof fn law_inner_scope_shadows(
    scopes: Seq<Map<Seq<char>, ScopeEntry>>,
    inner: Map<Seq<char>, ScopeEntry>,
    name: Seq<char>,
)
    requires
        inner.contains_key(name),
    ensures
        lookup(scopes.push(inner), name) == Some(inner[name]),
{
}

/// Closing a scope that was opened restores every lookup: what the closed
/// scope bound is forgotten, and outer bindings are visible again.
pub proof fn law_pop_restores_lookup(
    scopes: Seq<Map<Seq<char>, ScopeEntry>>,
    inner: Map<Seq<char>, ScopeEntry>,
    name: Seq<char>,
)
    ensures
        lookup(scopes.push(inner).drop_last(), name) == lookup(scopes, name),
{
    assert(scopes.push(inner).drop_last() =~= scopes);
}

/// A change to a symbol table: `push_scope`, `pop_scope`, or `insert` of a
/// name with its entry.
pub enum TableOp {
    Push,
    Pop,
    Insert(Seq<char>, ScopeEntry),
}

/// The scopes of a table made by `SymTable::new` and then changed by `ops`,
/// in order, as the contracts of those operations give them.
pub open spec fn table_after(ops: Seq<TableOp>) -> Seq<Map<Seq<char>, ScopeEntry>>
    decreases ops.len(),
{
    if ops.len() == 0 {
        seq![Map::<Seq<char>, ScopeEntry>::empty()]
    } else {
        let s = table_after(ops.drop_last());
        match ops.last() {
            TableOp::Push => s.push(Map::<Seq<char>, ScopeEntry>::empty()),
            TableOp::Pop => if s.len() == 0 {
                s
            } else {
                s.drop_last()
            },
            TableOp::Insert(n, e) => bind(s, n, e),
        }
    }
}

/// Whether each `insert` of `ops` meets the requirement of `SymTable::insert`:
/// a scope is open and the name is not bound in the innermost one yet.
pub open spec fn ops_allowed(ops: Seq<TableOp>) -> bool
    decreases ops.len(),
{
    ops.len() == 0 || {
        &&& ops_allowed(ops.drop_last())
        &&& ops.last() matches TableOp::Insert(n, _) ==> table_after(ops.drop_last()).len() > 0
            && !table_after(ops.drop_last()).last().contains_key(n)
    }
}

/// The entry of the most recent `insert` of `name` among `ops` that is in a
/// scope still open, reading `ops` from the last one back and skipping the
/// inserts of `depth` scopes closed by a `pop_scope` read already: a
/// `pop_scope` closes one more scope, a `push_scope` opens the one it
/// closed (or, when none is closed, leaves the current scope for the one
/// around it, whose bindings are visible too).
pub open spec fn visible_insert(ops: Seq<TableOp>, name: Seq<char>, depth: nat) -> Option<ScopeEntry>
    decreases ops.len(),
{
    if ops.len() == 0 {
        None
    } else {
        match ops.last() {
            TableOp::Insert(n, e) => if depth == 0 && n == name {
                Some(e)
            } else {
                visible_insert(ops.drop_last(), name, depth)
            },
            TableOp::Push => if depth == 0 {
                visible_insert(ops.drop_last(), name, 0)
            } else {
                visible_insert(ops.drop_last(), name, (depth - 1) as nat)
            },
            TableOp::Pop => visible_insert(ops.drop_last(), name, depth + 1),
        }
    }
}

proof fn lemma_lookup_after_operations(ops: Seq<TableOp>, name: Seq<char>, depth: nat)
    requires
        ops_allowed(ops),
    ensures
        ({
            let s = table_after(ops);
            &&& depth < s.len() ==> lookup(s.take(s.len() - depth), name) == visible_insert(ops, name, depth)
            &&& depth >= s.len() ==> visible_insert(ops, name, depth) is None
        }),
    decreases ops.len(),
{
    let s = table_after(ops);
    if ops.len() == 0 {
        assert(s.take(s.len() as int) =~= s);
        assert(s.drop_last() =~= Seq::<Map<Seq<char>, ScopeEntry>>::empty());
        assert(lookup(Seq::<Map<Seq<char>, ScopeEntry>>::empty(), name) is None);
        assert(lookup(s, name) is None);
    } else {
        let init = ops.drop_last();
        let s0 = table_after(init);
        match ops.last() {
            TableOp::Insert(n, e) => {
                lemma_lookup_after_operations(init, name, depth);
                if depth == 0 {
                    assert(s.take(s.len() as int) =~= s);
                    assert(s0.take(s0.len() as int) =~= s0);
                    if n != name {
                        law_bind_keeps_other_names(s0, n, e, name);
                    } else {
                        law_lookup_after_bind(s0, n, e);
                    }
                } else if depth < s.len() {
                    assert(s.take(s.len() - depth) =~= s0.take(s0.len() - depth));
                }
            },
            TableOp::Push => {
                assert(s == s0.push(Map::<Seq<char>, ScopeEntry>::empty()));
                if depth == 0 {
                    lemma_lookup_after_operations(init, name, 0);
                    assert(s.take(s.len() as int) =~= s);
                    assert(s0.take(s0.len() as int) =~= s0);
                    law_push_scope_keeps_lookup(s0, name);
                } else {
                    lemma_lookup_after_operations(init, name, (depth - 1) as nat);
                    if depth < s.len() {
                        assert(s.take(s.len() - depth) =~= s0.take(s0.len() - (depth - 1)));
                    }
                }
            },
            TableOp::Pop => {
                lemma_lookup_after_operations(init, name, depth + 1);
                if s0.len() > 0 && depth < s.len() {
                    assert(s.take(s.len() - depth) =~= s0.take(s0.len() - (depth + 1)));
                }
            },
        }
    }
}

/// A lookup in a table made by `SymTable::new` and then changed by
/// `push_scope`, `pop_scope` and `insert` (each `insert` where it is
/// allowed) finds the entry of the most recent `insert` of the name whose
/// scope is still open, and nothing when there is none.
pub proof fn law_lookup_after_operations(ops: Seq<TableOp>, name: Seq<char>)
    requires
        ops_allowed(ops),
    ensures
        lookup(table_after(ops), name) == visible_insert(ops, name, 0),
{
    lemma_lookup_after_operations(ops, name, 0);
    let s = table_after(ops);
    assert(s.take(s.len() as int) =~= s);
    if s.len() == 0 {
    }
}

} // verus!
