use vstd::prelude::*;

verus! {

/// The bindings that a list of entries makes, later entries shadowing
/// earlier ones.
pub open spec fn bindings<V>(entries: Seq<(String, V)>) -> Map<Seq<char>, V>
    decreases entries.len(),
{
    if entries.len() == 0 {
        Map::empty()
    } else {
        bindings(entries.drop_last()).insert(entries.last().0@, entries.last().1)
    }
}

proof fn lemma_bindings_update<V>(entries: Seq<(String, V)>, k: int, entry: (String, V))
    requires
        0 <= k < entries.len(),
        entries[k].0@ == entry.0@,
        forall|j: int| k < j < entries.len() ==> entries[j].0@ != entry.0@,
    ensures
        bindings(entries.update(k, entry)) == bindings(entries).insert(entry.0@, entry.1),
    decreases entries.len(),
{
    let u = entries.update(k, entry);
    if k == entries.len() - 1 {
        assert(u.drop_last() =~= entries.drop_last());
        assert(bindings(u) =~= bindings(entries).insert(entry.0@, entry.1));
    } else {
        assert(u.drop_last() =~= entries.drop_last().update(k, entry));
        lemma_bindings_update(entries.drop_last(), k, entry);
        assert(bindings(u) =~= bindings(entries).insert(entry.0@, entry.1));
    }
}

proof fn lemma_bindings_absent<V>(entries: Seq<(String, V)>, name: Seq<char>)
    requires
        forall|j: int| 0 <= j < entries.len() ==> entries[j].0@ != name,
    ensures
        !bindings(entries).contains_key(name),
    decreases entries.len(),
{
    if entries.len() > 0 {
        lemma_bindings_absent(entries.drop_last(), name);
    }
}

proof fn lemma_bindings_found<V>(entries: Seq<(String, V)>, k: int, name: Seq<char>)
    requires
        0 <= k < entries.len(),
        entries[k].0@ == name,
        forall|j: int| k < j < entries.len() ==> entries[j].0@ != name,
    ensures
        bindings(entries).contains_key(name),
        bindings(entries)[name] == entries[k].1,
    decreases entries.len(),
{
    if k < entries.len() - 1 {
        lemma_bindings_found(entries.drop_last(), k, name);
    }
}

/// One scope: its entries and the scope that encloses it, if any.
pub struct Scope<V> {
    entries: Vec<(String, V)>,
    parent: Option<usize>,
}

/// Lexically nested scopes kept in an arena and named by index. Scope 0 is
/// the global scope; each other scope encloses to one created before it, so
/// a scope stays usable for as long as anything holds its index (a
/// function value holds the scope it was declared in).
pub struct Environments<V> {
    scopes: Vec<Scope<V>>,
}

impl<V> Environments<V> {
    /// The number of scopes.
    pub closed spec fn count(&self) -> int {
        self.scopes@.len() as int
    }

    /// The names bound directly in scope `id`.
    pub closed spec fn local(&self, id: int) -> Map<Seq<char>, V> {
        bindings(self.scopes@[id].entries@)
    }

    /// The scope that encloses scope `id`.
    pub closed spec fn parent(&self, id: int) -> Option<usize> {
        self.scopes@[id].parent
    }

    /// Every scope encloses to an older one, and the global scope exists.
    pub open spec fn well_formed(&self) -> bool {
        &&& 0 < self.count()
        &&& forall|i: int| 0 <= i < self.count() ==> match #[trigger] self.parent(i) {
            Some(p) => p < i,
            None => true,
        }
    }

    /// The nearest scope, from `id` outward, that binds `name`.
    pub open spec fn holder(&self, id: int, name: Seq<char>) -> Option<int>
        decreases id,
    {
        if id < 0 || id >= self.count() {
            None
        } else if self.local(id).contains_key(name) {
            Some(id)
        } else {
            match self.parent(id) {
                Some(p) => if 0 <= p < id {
                    self.holder(p as int, name)
                } else {
                    None
                },
                None => None,
            }
        }
    }

    /// The value of `name` seen from scope `id`: that of its nearest binding.
    pub open spec fn resolve(&self, id: int, name: Seq<char>) -> Option<V> {
        match self.holder(id, name) {
            Some(h) => Some(self.local(h)[name]),
            None => None,
        }
    }

    /// A fresh arena holding only the empty global scope.
    pub fn new() -> (r: Self)
        ensures
            r.well_formed(),
            r.count() == 1,
            r.parent(0) is None,
            r.local(0) == Map::<Seq<char>, V>::empty(),
    {
        let mut scopes = Vec::new();
        scopes.push(Scope { entries: Vec::new(), parent: None });
        Environments { scopes }
    }

    /// Opens a new empty scope enclosed by `parent` and returns its index.
    pub fn push_scope(&mut self, parent: usize) -> (id: usize)
        requires
            old(self).well_formed(),
            parent < old(self).count(),
            old(self).count() < usize::MAX,
        ensures
            final(self).well_formed(),
            id == old(self).count(),
            final(self).count() == old(self).count() + 1,
            final(self).parent(id as int) == Some(parent),
            final(self).local(id as int) == Map::<Seq<char>, V>::empty(),
            forall|i: int|
                0 <= i < old(self).count() ==> final(self).local(i) == old(self).local(i)
                    && final(self).parent(i) == old(self).parent(i),
    {
        let id = self.scopes.len();
        self.scopes.push(Scope { entries: Vec::new(), parent: Some(parent) });
        proof {
            assert forall|i: int| 0 <= i < self.count() implies match #[trigger] self.parent(i) {
                Some(p) => p < i,
                None => true,
            } by {
                if i < id {
                    assert(self.parent(i) == old(self).parent(i));
                }
            }
        }
        id
    }

    /// Binds `name` to `value` in scope `id`, replacing a binding of the
    /// same name there; enclosing scopes are untouched.
    pub fn define(&mut self, id: usize, name: String, value: V)
        requires
            old(self).well_formed(),
            id < old(self).count(),
        ensures
            final(self).well_formed(),
            final(self).count() == old(self).count(),
            final(self).local(id as int) == old(self).local(id as int).insert(name@, value),
            forall|i: int|
                0 <= i < old(self).count() ==> final(self).parent(i) == old(self).parent(i),
            forall|i: int|
                0 <= i < old(self).count() && i != id ==> final(self).local(i) == old(
                    self,
                ).local(i),
    {
        proof {
            let e = self.scopes@[id as int].entries@;
            assert(e.push((name, value)).drop_last() =~= e);
        }
        self.scopes[id].entries.push((name, value));
        proof {
            assert forall|i: int| 0 <= i < self.count() implies match #[trigger] self.parent(i) {
                Some(p) => p < i,
                None => true,
            } by {
                assert(self.parent(i) == old(self).parent(i));
            }
            assert(forall|i: int|
                0 <= i < old(self).count() && i != id ==> self.scopes@[i] == old(self).scopes@[i]);
        }
    }
}

fn find_local<V>(entries: &Vec<(String, V)>, name: &String) -> (r: Option<usize>)
    ensures
        match r {
            Some(k) => k < entries@.len() && entries@[k as int].0@ == name@ && forall|j: int|
                k < j < entries@.len() ==> entries@[j].0@ != name@,
            None => forall|j: int| 0 <= j < entries@.len() ==> entries@[j].0@ != name@,
        },
{
    let mut k = entries.len();
    while k > 0
        invariant
            k <= entries@.len(),
            forall|j: int| k <= j < entries@.len() ==> entries@[j].0@ != name@,
        decreases k,
    {
        k = k - 1;
        if entries[k].0 == *name {
            return Some(k);
        }
    }
    None
}

impl<V> Environments<V> {
    /// The nearest scope, from `id` outward, that binds `name`, and the
    /// entry there that does.
    fn locate(&self, id: usize, name: &String) -> (r: Option<(usize, usize)>)
        requires
            self.well_formed(),
            id < self.count(),
        ensures
            match r {
                Some((h, k)) => self.holder(id as int, name@) == Some(h as int) && h < self.count()
                    && k < self.scopes@[h as int].entries@.len() && self.scopes@[h as int].entries@[k as int].0@
                    == name@ && forall|j: int|
                    k < j < self.scopes@[h as int].entries@.len() ==> self.scopes@[h as int].entries@[j].0@
                    != name@,
                None => self.holder(id as int, name@) is None,
            },
    {
        let mut cur = id;
        loop
            invariant
                self.well_formed(),
                cur < self.count(),
                self.holder(id as int, name@) == self.holder(cur as int, name@),
            decreases cur,
        {
            match find_local(&self.scopes[cur].entries, name) {
                Some(k) => {
                    proof {
                        lemma_bindings_found(self.scopes@[cur as int].entries@, k as int, name@);
                    }
                    return Some((cur, k));
                },
                None => {
                    proof {
                        lemma_bindings_absent(self.scopes@[cur as int].entries@, name@);
                    }
                    assert(match self.parent(cur as int) {
                        Some(p) => p < cur,
                        None => true,
                    });
                    match self.scopes[cur].parent {
                        Some(p) => {
                            cur = p;
                        },
                        None => {
                            return None;
                        },
                    }
                },
            }
        }
    }

    /// The value of `name` seen from scope `id`, looking outward from it.
    pub fn get(&self, id: usize, name: &String) -> (r: Option<&V>)
        requires
            self.well_formed(),
            id < self.count(),
        ensures
            match r {
                Some(v) => self.resolve(id as int, name@) == Some(*v),
                None => self.resolve(id as int, name@) is None,
            },
    {
        match self.locate(id, name) {
            Some((h, k)) => {
                proof {
                    lemma_bindings_found(self.scopes@[h as int].entries@, k as int, name@);
                }
                Some(&self.scopes[h].entries[k].1)
            },
            None => None,
        }
    }

    /// Gives `name` the new value `value` in the nearest scope, from `id`
    /// outward, that binds it; no binding is created. Returns whether there
    /// was such a scope; where there was none nothing changes.
    pub fn assign(&mut self, id: usize, name: &String, value: V) -> (ok: bool)
        requires
            old(self).well_formed(),
            id < old(self).count(),
        ensures
            final(self).well_formed(),
            final(self).count() == old(self).count(),
            ok == old(self).holder(id as int, name@) is Some,
            forall|i: int|
                0 <= i < old(self).count() ==> final(self).parent(i) == old(self).parent(i),
            forall|i: int|
                0 <= i < old(self).count() && Some(i) != old(self).holder(id as int, name@)
                    ==> final(self).local(i) == old(self).local(i),
            match old(self).holder(id as int, name@) {
                Some(h) => final(self).local(h) == old(self).local(h).insert(name@, value),
                None => true,
            },
    {
        match self.locate(id, name) {
            Some((h, k)) => {
                let key = name.clone();
                proof {
                    lemma_bindings_update(self.scopes@[h as int].entries@, k as int, (key, value));
                }
                self.scopes[h].entries[k] = (key, value);
                proof {
                    assert forall|i: int| 0 <= i < self.count() implies match #[trigger] self.parent(i) {
                        Some(p) => p < i,
                        None => true,
                    } by {
                        assert(self.parent(i) == old(self).parent(i));
                    }
                    assert(forall|i: int|
                        0 <= i < old(self).count() && i != h ==> self.scopes@[i] == old(self).scopes@[i]);
                }
                true
            },
            None => false,
        }
    }
}

} // verus!
