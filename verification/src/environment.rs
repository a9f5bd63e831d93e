use vstd::prelude::*;
use crate::expr::{LiteralValue, SValue};

verus! {

/// One lexical scope: its bindings in insertion order, with unique names,
/// and the handle of the enclosing scope, if any.
pub struct Scope {
    entries: Vec<(String, LiteralValue)>,
    enclosing: Option<usize>,
}

/// The mathematical shape of a scope: a finite map of bindings and the
/// enclosing handle.
pub struct SScope {
    pub table: Map<Seq<char>, SValue>,
    pub parent: Option<int>,
}

/// The map that an ordered list of bindings denotes: later entries win.
pub open spec fn entries_map(es: Seq<(String, LiteralValue)>) -> Map<Seq<char>, SValue>
    decreases es.len(),
{
    if es.len() == 0 {
        Map::<Seq<char>, SValue>::empty()
    } else {
        entries_map(es.drop_last()).insert(es.last().0@, es.last().1@)
    }
}

/// The names in a binding list are pairwise distinct.
pub open spec fn unique_names(es: Seq<(String, LiteralValue)>) -> bool {
    forall|i: int, j: int| 0 <= i < j < es.len() ==> es[i].0@ != es[j].0@
}

/// Every bound value is well-formed.
pub open spec fn entries_wf(es: Seq<(String, LiteralValue)>) -> bool {
    forall|i: int| 0 <= i < es.len() ==> (#[trigger] es[i].1)@.wf()
}

impl View for Scope {
    type V = SScope;

    closed spec fn view(&self) -> SScope {
        SScope {
            table: entries_map(self.entries@),
            parent: match self.enclosing {
                Some(h) => Some(h as int),
                None => None,
            },
        }
    }
}

/// An entry of the list carries its own key and value in the map.
proof fn lemma_entries_map_index(es: Seq<(String, LiteralValue)>, i: int)
    requires
        unique_names(es),
        0 <= i < es.len(),
    ensures
        entries_map(es).contains_key(es[i].0@),
        entries_map(es)[es[i].0@] == es[i].1@,
    decreases es.len(),
{
    if i < es.len() - 1 {
        assert(es.drop_last()[i] == es[i]);
        lemma_entries_map_index(es.drop_last(), i);
        assert(es[i].0@ != es[es.len() - 1].0@);
    }
}

/// A name that no entry carries is not in the map.
proof fn lemma_entries_map_absent(es: Seq<(String, LiteralValue)>, k: Seq<char>)
    requires
        forall|i: int| 0 <= i < es.len() ==> (#[trigger] es[i].0)@ != k,
    ensures
        !entries_map(es).contains_key(k),
    decreases es.len(),
{
    if es.len() > 0 {
        assert(forall|i: int|
            0 <= i < es.drop_last().len() ==> (#[trigger] es.drop_last()[i].0)@ == es[i].0@);
        lemma_entries_map_absent(es.drop_last(), k);
    }
}

/// Updating the entry that carries a key updates exactly that key.
proof fn lemma_entries_map_update(
    es: Seq<(String, LiteralValue)>,
    i: int,
    nm: String,
    v: LiteralValue,
)
    requires
        unique_names(es),
        0 <= i < es.len(),
        nm@ == es[i].0@,
    ensures
        entries_map(es.update(i, (nm, v))) =~= entries_map(es).insert(es[i].0@, v@),
    decreases es.len(),
{
    let es2 = es.update(i, (nm, v));
    if i == es.len() - 1 {
        assert(es2.drop_last() =~= es.drop_last());
    } else {
        assert(es2.drop_last() =~= es.drop_last().update(i, (nm, v)));
        assert(es.drop_last()[i] == es[i]);
        lemma_entries_map_update(es.drop_last(), i, nm, v);
        assert(es[i].0@ != es[es.len() - 1].0@);
    }
}

impl Scope {
    /// Unique names and well-formed values.
    pub open spec fn wf(self) -> bool {
        unique_names(self.entries_seq()) && entries_wf(self.entries_seq())
    }

    pub closed spec fn entries_seq(self) -> Seq<(String, LiteralValue)> {
        self.entries@
    }

    /// An empty scope under the given enclosing handle.
    pub fn empty(enclosing: Option<usize>) -> (r: Scope)
        ensures
            r.wf(),
            r@.table =~= Map::<Seq<char>, SValue>::empty(),
            r@.parent == match enclosing {
                Some(h) => Some(h as int),
                None => None::<int>,
            },
    {
        Scope { entries: Vec::new(), enclosing }
    }

    pub fn parent_handle(&self) -> (r: Option<usize>)
        ensures
            r matches Some(h) ==> self@.parent == Some(h as int),
            r is None ==> self@.parent is None,
    {
        self.enclosing
    }

    /// The value bound to the name in this scope alone, if any.
    pub fn find(&self, name: &String) -> (r: Option<LiteralValue>)
        requires
            self.wf(),
        ensures
            match r {
                Some(v) => self@.table.contains_key(name@) && v@ == self@.table[name@] && v@.wf(),
                None => !self@.table.contains_key(name@),
            },
    {
        let n = self.entries.len();
        let mut k: usize = 0;
        while k < n
            invariant
                self.wf(),
                k <= n == self.entries_seq().len(),
                forall|j: int| 0 <= j < k ==> (#[trigger] self.entries_seq()[j].0)@ != name@,
            decreases n - k,
        {
            if self.entries[k].0 == *name {
                proof {
                    lemma_entries_map_index(self.entries_seq(), k as int);
                }
                let v = crate::expr::clone_value(&self.entries[k].1);
                return Some(v);
            }
            k += 1;
        }
        proof {
            lemma_entries_map_absent(self.entries_seq(), name@);
        }
        None
    }

    /// Binds the name in this scope, overwriting an existing binding.
    pub fn set(&mut self, name: String, value: LiteralValue)
        requires
            old(self).wf(),
            value@.wf(),
        ensures
            final(self).wf(),
            final(self)@.table =~= old(self)@.table.insert(name@, value@),
            final(self)@.parent == old(self)@.parent,
    {
        let n = self.entries.len();
        let mut k: usize = 0;
        while k < n
            invariant
                self == old(self),
                self.wf(),
                value@.wf(),
                k <= n == self.entries_seq().len(),
                forall|j: int| 0 <= j < k ==> (#[trigger] self.entries_seq()[j].0)@ != name@,
            decreases n - k,
        {
            if self.entries[k].0 == name {
                let ghost pre = self.entries_seq();
                proof {
                    lemma_entries_map_update(pre, k as int, name, value);
                }
                self.entries[k] = (name, value);
                proof {
                    assert(self.entries_seq() =~= pre.update(k as int, (name, value)));
                    assert(self.entries_seq()[k as int].0@ == pre[k as int].0@);
                    assert(forall|i: int|
                        0 <= i < pre.len() && i != k ==> self.entries_seq()[i] == pre[i]);
                    assert(unique_names(self.entries_seq()));
                    assert(entries_wf(self.entries_seq()));
                }
                return ;
            }
            k += 1;
        }
        let ghost pre = self.entries_seq();
        self.entries.push((name, value));
        proof {
            assert(self.entries_seq().drop_last() =~= pre);
            assert(forall|i: int| 0 <= i < pre.len() ==> self.entries_seq()[i] == pre[i]);
            assert(self.entries_seq().last() == (name, value));
            assert(unique_names(self.entries_seq()));
            assert(entries_wf(self.entries_seq()));
            assert(entries_map(self.entries_seq()) =~= entries_map(pre).insert(name@, value@));
        }
    }
}

/// The whole scope arena and the handle of the active scope.
pub struct Environment {
    scopes: Vec<Scope>,
    active: usize,
}

/// The mathematical shape of the environment.
pub struct SEnv {
    pub scopes: Seq<SScope>,
    pub active: int,
}

impl View for Environment {
    type V = SEnv;

    closed spec fn view(&self) -> SEnv {
        SEnv { scopes: self.scopes@.map_values(|s: Scope| s@), active: self.active as int }
    }
}

/// Every scope's enclosing handle refers to an earlier slot of the arena,
/// so chains are finite and never cyclic.
pub open spec fn senv_wf(e: SEnv) -> bool {
    &&& 0 <= e.active < e.scopes.len()
    &&& forall|i: int|
        0 <= i < e.scopes.len() ==> match (#[trigger] e.scopes[i]).parent {
            Some(p) => 0 <= p < i,
            None => true,
        }
    &&& forall|i: int, k: Seq<char>|
        0 <= i < e.scopes.len() && #[trigger] e.scopes[i].table.contains_key(k)
            ==> e.scopes[i].table[k].wf()
}

/// The value bound to a name, searching from the scope `h` outward.
pub open spec fn lookup_chain(scopes: Seq<SScope>, h: int, name: Seq<char>) -> Option<SValue>
    decreases h,
{
    if !(0 <= h < scopes.len()) {
        None
    } else if scopes[h].table.contains_key(name) {
        Some(scopes[h].table[name])
    } else {
        match scopes[h].parent {
            Some(p) => if 0 <= p < h {
                lookup_chain(scopes, p, name)
            } else {
                None
            },
            None => None,
        }
    }
}

/// The arena after overwriting the nearest binding of a name from the
/// scope `h` outward; `None` when no scope in the chain binds it.
pub open spec fn assign_chain(
    scopes: Seq<SScope>,
    h: int,
    name: Seq<char>,
    v: SValue,
) -> Option<Seq<SScope>>
    decreases h,
{
    if !(0 <= h < scopes.len()) {
        None
    } else if scopes[h].table.contains_key(name) {
        Some(
            scopes.update(
                h,
                SScope { table: scopes[h].table.insert(name, v), parent: scopes[h].parent },
            ),
        )
    } else {
        match scopes[h].parent {
            Some(p) => if 0 <= p < h {
                assign_chain(scopes, p, name, v)
            } else {
                None
            },
            None => None,
        }
    }
}

impl Environment {
    /// All scopes well-formed, with well-founded enclosing handles.
    pub open spec fn wf(self) -> bool {
        senv_wf(self@) && self.scopes_wf()
    }

    pub closed spec fn scopes_wf(self) -> bool {
        forall|i: int| 0 <= i < self.scopes@.len() ==> (#[trigger] self.scopes@[i]).wf()
    }

    /// A fresh environment: one root scope with no enclosing scope.
    pub fn new() -> (r: Environment)
        ensures
            r.wf(),
            r@.scopes.len() == 1,
            r@.active == 0,
            r@.scopes[0].table =~= Map::<Seq<char>, SValue>::empty(),
            r@.scopes[0].parent is None,
    {
        let mut scopes: Vec<Scope> = Vec::new();
        scopes.push(Scope::empty(None));
        Environment { scopes, active: 0 }
    }

    /// The handle of the active scope.
    pub fn active_handle(&self) -> (r: usize)
        ensures
            r as int == self@.active,
    {
        self.active
    }

    /// Binds the name in the active scope alone, overwriting a binding
    /// there; enclosing scopes are never touched.
    pub fn define(&mut self, name: String, value: LiteralValue)
        requires
            old(self).wf(),
            value@.wf(),
        ensures
            final(self).wf(),
            final(self)@.active == old(self)@.active,
            final(self)@.scopes =~= old(self)@.scopes.update(
                old(self)@.active,
                SScope {
                    table: old(self)@.scopes[old(self)@.active].table.insert(name@, value@),
                    parent: old(self)@.scopes[old(self)@.active].parent,
                },
            ),
    {
        let h = self.active;
        let ghost pre = self@;
        let scope = &mut self.scopes[h];
        scope.set(name, value);
        proof {
            assert(self@.scopes =~= pre.scopes.update(
                pre.active,
                SScope {
                    table: pre.scopes[pre.active].table.insert(name@, value@),
                    parent: pre.scopes[pre.active].parent,
                },
            ));
        }
    }

    /// The value bound to the name, searching the active scope and then
    /// each enclosing scope outward.
    pub fn get(&self, name: &String) -> (r: Option<LiteralValue>)
        requires
            self.wf(),
        ensures
            match r {
                Some(v) => lookup_chain(self@.scopes, self@.active, name@) == Some(v@) && v@.wf(),
                None => lookup_chain(self@.scopes, self@.active, name@) is None,
            },
    {
        let mut h = self.active;
        loop
            invariant
                self.wf(),
                0 <= h < self@.scopes.len(),
                lookup_chain(self@.scopes, self@.active, name@) == lookup_chain(
                    self@.scopes,
                    h as int,
                    name@,
                ),
            decreases h,
        {
            match self.scopes[h].find(name) {
                Some(v) => {
                    return Some(v);
                },
                None => {
                    match self.scopes[h].parent_handle() {
                        Some(p) => {
                            h = p;
                        },
                        None => {
                            return None;
                        },
                    }
                },
            }
        }
    }

    /// Overwrites the nearest binding of the name, searching the active
    /// scope and then each enclosing scope outward; false when no scope
    /// in the chain binds it, with nothing changed.
    pub fn assign(&mut self, name: &String, value: LiteralValue) -> (r: bool)
        requires
            old(self).wf(),
            value@.wf(),
        ensures
            final(self).wf(),
            final(self)@.active == old(self)@.active,
            match assign_chain(old(self)@.scopes, old(self)@.active, name@, value@) {
                Some(ns) => r && final(self)@.scopes =~= ns,
                None => !r && final(self)@.scopes =~= old(self)@.scopes,
            },
    {
        let mut h = self.active;
        loop
            invariant
                self.wf(),
                self@ == old(self)@,
                value@.wf(),
                0 <= h < self@.scopes.len(),
                assign_chain(self@.scopes, self@.active, name@, value@) == assign_chain(
                    self@.scopes,
                    h as int,
                    name@,
                    value@,
                ),
            decreases h,
        {
            let found = {
                let s = &self.scopes[h];
                match s.find(name) {
                    Some(_) => true,
                    None => false,
                }
            };
            if found {
                let ghost pre = self@;
                let scope = &mut self.scopes[h];
                scope.set(name.clone(), value);
                proof {
                    assert(self@.scopes =~= pre.scopes.update(
                        h as int,
                        SScope {
                            table: pre.scopes[h as int].table.insert(name@, value@),
                            parent: pre.scopes[h as int].parent,
                        },
                    ));
                }
                return true;
            }
            match self.scopes[h].parent_handle() {
                Some(p) => {
                    h = p;
                },
                None => {
                    return false;
                },
            }
        }
    }

    /// Enters a block: a new scope whose enclosing scope is the active
    /// one becomes active.
    pub fn push_scope(&mut self)
        requires
            old(self).wf(),
        ensures
            final(self).wf(),
            final(self)@.scopes =~= old(self)@.scopes.push(
                SScope {
                    table: Map::<Seq<char>, SValue>::empty(),
                    parent: Some(old(self)@.active),
                },
            ),
            final(self)@.active == old(self)@.scopes.len(),
    {
        let h = self.active;
        let ghost pre = self@;
        let n = self.scopes.len();
        self.scopes.push(Scope::empty(Some(h)));
        self.active = n;
        proof {
            assert(self@.scopes =~= pre.scopes.push(
                SScope { table: Map::<Seq<char>, SValue>::empty(), parent: Some(pre.active) },
            ));
        }
    }

    /// Leaves a block: the previously active scope becomes active again.
    pub fn restore(&mut self, h: usize)
        requires
            old(self).wf(),
            0 <= h < old(self)@.scopes.len(),
        ensures
            final(self).wf(),
            final(self)@.scopes =~= old(self)@.scopes,
            final(self)@.active == h as int,
    {
        self.active = h;
    }
}

} // verus!
