//! Variable storage: an ordered stack of name-to-value scopes with
//! lexical-with-rebinding semantics.
//!
//! The stack is never empty — the bottom scope is the permanent global scope.
//! Writing a variable updates the innermost scope that already holds the
//! name; only when no scope holds it is a new binding created in the
//! innermost scope.  There is no block-local shadowing for reassignment,
//! only for first introduction.

use vstd::prelude::*;
use vstd::pervasive::VecAdditionalExecFns;

use crate::types::{VasoType, VasoV};

verus! {

broadcast use vstd::std_specs::vec::group_vec_axioms, vstd::seq::group_seq_axioms;

/// The mapping a single scope holds: later entries of the association list
/// override earlier ones (the well-formed stack keeps its keys unique, so
/// the order never matters).
pub open spec fn scope_map(scope: Seq<(String, VasoType)>) -> Map<Seq<char>, VasoV>
    decreases scope.len(),
{
    if scope.len() == 0 {
        Map::empty()
    } else {
        scope_map(scope.drop_last()).insert(scope.last().0@, scope.last().1@)
    }
}

/// Every name appears at most once in the scope.
pub open spec fn scope_keys_unique(scope: Seq<(String, VasoType)>) -> bool {
    forall|i: int, j: int| 0 <= i < j < scope.len() ==> scope[i].0@ != scope[j].0@
}

/// A name is in the scope's mapping exactly when some entry carries it.
proof fn lemma_scope_map_contains(scope: Seq<(String, VasoType)>, name: Seq<char>)
    ensures
        scope_map(scope).contains_key(name) <==> exists|i: int|
            0 <= i < scope.len() && #[trigger] scope[i].0@ == name,
    decreases scope.len(),
{
    if scope.len() > 0 {
        lemma_scope_map_contains(scope.drop_last(), name);
        if scope.last().0@ == name {
            assert(scope[scope.len() - 1].0@ == name);
        } else if scope_map(scope).contains_key(name) {
            let i = choose|i: int|
                0 <= i < scope.drop_last().len() && #[trigger] scope.drop_last()[i].0@ == name;
            assert(scope[i].0@ == name);
        } else {
            assert forall|i: int| 0 <= i < scope.len() implies #[trigger] scope[i].0@ != name by {
                if i < scope.len() - 1 {
                    assert(scope.drop_last()[i].0@ == scope[i].0@);
                }
            }
        }
    }
}

/// With unique keys, the entry that carries a name decides its value.
proof fn lemma_scope_map_index(scope: Seq<(String, VasoType)>, i: int)
    requires
        scope_keys_unique(scope),
        0 <= i < scope.len(),
    ensures
        scope_map(scope).contains_key(scope[i].0@),
        scope_map(scope)[scope[i].0@] == scope[i].1@,
    decreases scope.len(),
{
    if i < scope.len() - 1 {
        lemma_scope_map_index(scope.drop_last(), i);
        assert(scope.drop_last()[i] == scope[i]);
    }
}

/// Appending a fresh entry inserts its binding.
proof fn lemma_scope_map_push(scope: Seq<(String, VasoType)>, entry: (String, VasoType))
    ensures
        scope_map(scope.push(entry)) == scope_map(scope).insert(entry.0@, entry.1@),
{
    assert(scope.push(entry).drop_last() =~= scope);
    assert(scope.push(entry).last() == entry);
}

/// Overwriting the entry that carries a name updates just that binding.
proof fn lemma_scope_map_update(scope: Seq<(String, VasoType)>, i: int, entry: (String, VasoType))
    requires
        scope_keys_unique(scope),
        0 <= i < scope.len(),
        scope[i].0@ == entry.0@,
    ensures
        scope_map(scope.update(i, entry)) == scope_map(scope).insert(entry.0@, entry.1@),
    decreases scope.len(),
{
    let updated = scope.update(i, entry);
    if i == scope.len() - 1 {
        assert(updated.drop_last() =~= scope.drop_last());
        assert(scope_map(updated) == scope_map(scope.drop_last()).insert(entry.0@, entry.1@));
        assert(scope_map(scope.drop_last()).insert(entry.0@, entry.1@) =~= scope_map(
            scope,
        ).insert(entry.0@, entry.1@));
    } else {
        assert(updated.drop_last() =~= scope.drop_last().update(i, entry));
        assert(scope.drop_last()[i] == scope[i]);
        lemma_scope_map_update(scope.drop_last(), i, entry);
        assert(updated.last() == scope.last());
        assert(scope.last().0@ != entry.0@);
        assert(scope_map(scope.drop_last()).insert(entry.0@, entry.1@).insert(
            scope.last().0@,
            scope.last().1@,
        ) =~= scope_map(scope.drop_last()).insert(scope.last().0@, scope.last().1@).insert(
            entry.0@,
            entry.1@,
        ));
    }
}

/// Looks a name up through the scope stack, innermost first.
pub open spec fn spec_lookup(stack: Seq<Map<Seq<char>, VasoV>>, name: Seq<char>) -> Option<VasoV>
    decreases stack.len(),
{
    if stack.len() == 0 {
        None
    } else if stack.last().contains_key(name) {
        Some(stack.last()[name])
    } else {
        spec_lookup(stack.drop_last(), name)
    }
}

/// Whether any scope of the stack holds the name.
pub open spec fn stack_contains(stack: Seq<Map<Seq<char>, VasoV>>, name: Seq<char>) -> bool {
    exists|i: int| 0 <= i < stack.len() && #[trigger] stack[i].contains_key(name)
}

/// The write rule: the innermost scope that already holds the name is
/// updated in place; only when no scope holds it is the binding created in
/// the innermost scope.
pub open spec fn spec_set(
    stack: Seq<Map<Seq<char>, VasoV>>,
    name: Seq<char>,
    v: VasoV,
) -> Seq<Map<Seq<char>, VasoV>>
    decreases stack.len(),
{
    if stack.len() == 0 {
        stack
    } else if stack.last().contains_key(name) {
        stack.update(stack.len() - 1, stack.last().insert(name, v))
    } else if stack_contains(stack.drop_last(), name) {
        spec_set(stack.drop_last(), name, v).push(stack.last())
    } else {
        stack.update(stack.len() - 1, stack.last().insert(name, v))
    }
}

/// Finds the entry of a scope that carries a name, if any.
fn scope_find(scope: &Vec<(String, VasoType)>, name: &str) -> (r: Option<usize>)
    ensures
        match r {
            Some(k) => k < scope@.len() && scope@[k as int].0@ == name@,
            None => forall|i: int| 0 <= i < scope@.len() ==> (#[trigger] scope@[i]).0@ != name@,
        },
{
    let mut k: usize = 0;
    while k < scope.len()
        invariant
            k <= scope@.len(),
            forall|i: int| 0 <= i < k ==> (#[trigger] scope@[i]).0@ != name@,
        decreases scope@.len() - k,
    {
        if str_equal(scope[k].0.as_str(), name) {
            return Some(k);
        }
        k += 1;
    }
    None
}

/// When no scope above `j` holds the name, the lookup result is decided by
/// the prefix of the stack below `j`.
proof fn lemma_lookup_prefix(stack: Seq<Map<Seq<char>, VasoV>>, name: Seq<char>, j: int)
    requires
        0 <= j <= stack.len(),
        forall|k: int| j <= k < stack.len() ==> !(#[trigger] stack[k]).contains_key(name),
    ensures
        spec_lookup(stack, name) == spec_lookup(stack.take(j), name),
    decreases stack.len(),
{
    if j == stack.len() {
        assert(stack.take(j) =~= stack);
    } else {
        assert(stack.drop_last() =~= stack.take(stack.len() - 1));
        lemma_lookup_prefix(stack.take(stack.len() - 1), name, j);
        assert(stack.take(stack.len() - 1).take(j) =~= stack.take(j));
    }
}

/// Mutation scoping law: when the innermost scope that holds the name is
/// scope `j`, the write rule updates exactly that scope — a variable
/// introduced in an outer scope and reassigned from an inner one updates
/// the outer binding, never a shadow, so the change stays visible after
/// the inner scopes are popped.
pub proof fn lemma_spec_set_found(stack: Seq<Map<Seq<char>, VasoV>>, name: Seq<char>, v: VasoV, j: int)
    requires
        0 <= j < stack.len(),
        stack[j].contains_key(name),
        forall|k: int| j < k < stack.len() ==> !(#[trigger] stack[k]).contains_key(name),
    ensures
        spec_set(stack, name, v) == stack.update(j, stack[j].insert(name, v)),
    decreases stack.len(),
{
    if j == stack.len() - 1 {
        assert(stack.last() == stack[j]);
    } else {
        assert(!stack.last().contains_key(name));
        assert(stack.drop_last()[j] == stack[j]);
        assert(stack_contains(stack.drop_last(), name));
        assert forall|k: int| j < k < stack.drop_last().len() implies !(
        #[trigger] stack.drop_last()[k]).contains_key(name) by {
            assert(stack.drop_last()[k] == stack[k]);
        }
        lemma_spec_set_found(stack.drop_last(), name, v, j);
        assert(spec_set(stack, name, v) == stack.drop_last().update(
            j,
            stack[j].insert(name, v),
        ).push(stack.last()));
        assert(stack.drop_last().update(j, stack[j].insert(name, v)).push(stack.last())
            =~= stack.update(j, stack[j].insert(name, v)));
    }
}

/// Mutation survives the return: after a write to a name whose innermost
/// holder is scope `j`, popping every scope above `j` still reads the new
/// value back — a reassignment made inside a call is visible to the caller.
pub proof fn lemma_outer_write_survives_pop(
    stack: Seq<Map<Seq<char>, VasoV>>,
    name: Seq<char>,
    v: VasoV,
    j: int,
)
    requires
        0 <= j < stack.len(),
        stack[j].contains_key(name),
        forall|k: int| j < k < stack.len() ==> !(#[trigger] stack[k]).contains_key(name),
    ensures
        spec_lookup(spec_set(stack, name, v).take(j + 1), name) == Some(v),
{
    lemma_spec_set_found(stack, name, v, j);
    let after = spec_set(stack, name, v);
    assert(after.take(j + 1).last() == after[j]);
    assert(after[j] == stack[j].insert(name, v));
}

/// When no scope holds the name, the write rule creates the binding in the
/// innermost scope.
pub proof fn lemma_spec_set_new(stack: Seq<Map<Seq<char>, VasoV>>, name: Seq<char>, v: VasoV)
    requires
        stack.len() >= 1,
        forall|k: int| 0 <= k < stack.len() ==> !(#[trigger] stack[k]).contains_key(name),
    ensures
        spec_set(stack, name, v) == stack.update(
            stack.len() - 1,
            stack.last().insert(name, v),
        ),
{
    assert(!stack.last().contains_key(name));
    assert forall|i: int| 0 <= i < stack.drop_last().len() implies !(
    #[trigger] stack.drop_last()[i]).contains_key(name) by {
        assert(stack.drop_last()[i] == stack[i]);
    }
    assert(!stack_contains(stack.drop_last(), name));
}

/// Relies on `str` equality: strings compare character for character.
#[verifier::external_body]
pub(crate) fn str_equal(a: &str, b: &str) -> (r: bool)
    ensures
        r == (a@ == b@),
{
    a == b
}

/// The ordered stack of scopes the engine owns.
#[derive(Debug)]
pub struct MemoryStack {
    scopes: Vec<Vec<(String, VasoType)>>,
}

impl View for MemoryStack {
    type V = Seq<Map<Seq<char>, VasoV>>;

    closed spec fn view(&self) -> Seq<Map<Seq<char>, VasoV>> {
        Seq::new(self.scopes@.len(), |i: int| scope_map(self.scopes@[i]@))
    }
}

impl MemoryStack {
    /// Well-formed: never empty, and no scope carries a name twice.
    pub closed spec fn wf(&self) -> bool {
        &&& self.scopes@.len() >= 1
        &&& forall|i: int| 0 <= i < self.scopes@.len() ==> scope_keys_unique(
            #[trigger] self.scopes@[i]@,
        )
    }

    /// A well-formed stack is never empty.
    pub proof fn lemma_wf_nonempty(&self)
        requires
            self.wf(),
        ensures
            self@.len() >= 1,
    {
    }

    /// A fresh stack: one empty global scope.
    pub fn new() -> (r: MemoryStack)
        ensures
            r.wf(),
            r@.len() == 1,
            r@[0] == Map::<Seq<char>, VasoV>::empty(),
    {
        let mut scopes: Vec<Vec<(String, VasoType)>> = Vec::new();
        scopes.push(Vec::new());
        MemoryStack { scopes }
    }

    /// Opens a fresh innermost scope, on function entry.
    pub fn push_scope(&mut self)
        requires
            old(self).wf(),
        ensures
            final(self).wf(),
            final(self)@ == old(self)@.push(Map::<Seq<char>, VasoV>::empty()),
    {
        self.scopes.push(Vec::new());
        proof {
            assert(final(self)@ =~= old(self)@.push(Map::<Seq<char>, VasoV>::empty()));
        }
    }

    /// Writes a variable: the innermost scope that already holds the name is
    /// updated in place, so a variable introduced in an outer scope and
    /// reassigned from inside a call updates the outer binding; only a name
    /// no scope holds becomes a new binding in the innermost scope.
    pub fn set(&mut self, name: String, val: VasoType)
        requires
            old(self).wf(),
        ensures
            final(self).wf(),
            final(self)@ == spec_set(old(self)@, name@, val@),
    {
        let ghost stack = self@;
        let n = self.scopes.len();
        let mut j = n;
        while j > 0
            invariant
                self == old(self),
                stack == self@,
                self.wf(),
                n == self.scopes@.len(),
                j <= n,
                forall|k: int| j <= k < n ==> !(#[trigger] stack[k]).contains_key(name@),
            decreases j,
        {
            j -= 1;
            proof {
                lemma_scope_map_contains(self.scopes@[j as int]@, name@);
            }
            if let Some(k) = scope_find(&self.scopes[j], name.as_str()) {
                let ghost old_scope = self.scopes@[j as int]@;
                let mut scope: Vec<(String, VasoType)> = Vec::new();
                self.scopes.set_and_swap(j, &mut scope);
                let ghost nm = name@;
                let ghost vv = val@;
                scope.set(k, (name, val));
                proof {
                    assert(scope@ =~= old_scope.update(k as int, scope@[k as int]));
                    assert(scope@[k as int].0@ == nm && scope@[k as int].1@ == vv);
                    assert forall|a: int, b: int| 0 <= a < b < scope@.len() implies scope@[a].0@
                        != scope@[b].0@ by {
                        assert(old_scope[a].0@ == scope@[a].0@ || a == k);
                        assert(old_scope[b].0@ == scope@[b].0@ || b == k);
                    }
                    lemma_scope_map_update(old_scope, k as int, scope@[k as int]);
                }
                self.scopes.set(j, scope);
                proof {
                    assert(self@ =~= stack.update(j as int, stack[j as int].insert(nm, vv)));
                    lemma_spec_set_found(stack, nm, vv, j as int);
                }
                return;
            }
        }
        let ghost nm = name@;
        let ghost vv = val@;
        let ghost old_scope = self.scopes@[n - 1]@;
        let mut scope: Vec<(String, VasoType)> = Vec::new();
        self.scopes.set_and_swap(n - 1, &mut scope);
        scope.push((name, val));
        proof {
            assert(stack[n - 1] == scope_map(old_scope));
            assert(!stack[n - 1].contains_key(nm));
            lemma_scope_map_contains(old_scope, nm);
            assert forall|a: int, b: int| 0 <= a < b < scope@.len() implies scope@[a].0@
                != scope@[b].0@ by {
                assert(scope@.drop_last() =~= old_scope);
                if b == scope@.len() - 1 {
                    assert(old_scope[a].0@ != nm);
                }
            }
            lemma_scope_map_push(old_scope, scope@.last());
        }
        self.scopes.set(n - 1, scope);
        proof {
            assert(self@ =~= stack.update(n - 1, stack[n - 1].insert(nm, vv)));
            lemma_spec_set_new(stack, nm, vv);
        }
    }

    /// Writes a binding straight into the global scope, creating or
    /// replacing it there.
    pub fn set_global(&mut self, name: String, val: VasoType)
        requires
            old(self).wf(),
        ensures
            final(self).wf(),
            final(self)@ == old(self)@.update(0, old(self)@[0].insert(name@, val@)),
    {
        let ghost stack = self@;
        let ghost nm = name@;
        let ghost vv = val@;
        let ghost old_scope = self.scopes@[0]@;
        proof {
            lemma_scope_map_contains(old_scope, nm);
        }
        let mut scope: Vec<(String, VasoType)> = Vec::new();
        self.scopes.set_and_swap(0, &mut scope);
        if let Some(k) = scope_find(&scope, name.as_str()) {
            scope.set(k, (name, val));
            proof {
                assert(scope@ =~= old_scope.update(k as int, scope@[k as int]));
                assert(scope@[k as int].0@ == nm && scope@[k as int].1@ == vv);
                assert forall|a: int, b: int| 0 <= a < b < scope@.len() implies scope@[a].0@
                    != scope@[b].0@ by {
                    assert(old_scope[a].0@ == scope@[a].0@ || a == k);
                    assert(old_scope[b].0@ == scope@[b].0@ || b == k);
                }
                lemma_scope_map_update(old_scope, k as int, scope@[k as int]);
            }
        } else {
            scope.push((name, val));
            proof {
                assert forall|a: int, b: int| 0 <= a < b < scope@.len() implies scope@[a].0@
                    != scope@[b].0@ by {
                    assert(scope@.drop_last() =~= old_scope);
                    if b == scope@.len() - 1 {
                        assert(old_scope[a].0@ != nm);
                    }
                }
                lemma_scope_map_push(old_scope, scope@.last());
            }
        }
        self.scopes.set(0, scope);
        proof {
            assert(self@ =~= stack.update(0, stack[0].insert(nm, vv)));
        }
    }

    /// Reads a variable, searching from the innermost scope outward.
    pub fn get(&self, name: &str) -> (r: Option<&VasoType>)
        requires
            self.wf(),
        ensures
            match r {
                Some(v) => spec_lookup(self@, name@) == Some(v@),
                None => spec_lookup(self@, name@) is None,
            },
    {
        let ghost stack = self@;
        let mut j = self.scopes.len();
        while j > 0
            invariant
                stack == self@,
                self.wf(),
                j <= self.scopes@.len(),
                forall|k: int| j <= k < self.scopes@.len() ==> !(#[trigger] stack[k]).contains_key(
                    name@,
                ),
            decreases j,
        {
            j -= 1;
            proof {
                lemma_scope_map_contains(self.scopes@[j as int]@, name@);
            }
            if let Some(k) = scope_find(&self.scopes[j], name) {
                proof {
                    lemma_scope_map_index(self.scopes@[j as int]@, k as int);
                    lemma_lookup_prefix(stack, name@, j as int + 1);
                    assert(stack.take(j as int + 1).last() == stack[j as int]);
                }
                return Some(&self.scopes[j][k].1);
            }
        }
        proof {
            lemma_lookup_prefix(stack, name@, 0);
            assert(stack.take(0) =~= Seq::<Map<Seq<char>, VasoV>>::empty());
        }
        None
    }

    /// Discards the innermost scope, on function return; the global scope
    /// itself is never discarded.
    pub fn pop_scope(&mut self)
        requires
            old(self).wf(),
        ensures
            final(self).wf(),
            old(self)@.len() > 1 ==> final(self)@ == old(self)@.drop_last(),
            old(self)@.len() == 1 ==> final(self)@ == old(self)@,
    {
        if self.scopes.len() > 1 {
            self.scopes.pop();
            proof {
                assert(final(self)@ =~= old(self)@.drop_last());
            }
        } else {
            proof {
                assert(final(self)@ =~= old(self)@);
            }
        }
    }
}

} // verus!
