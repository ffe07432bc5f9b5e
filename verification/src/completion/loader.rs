//! In-memory index of loaded completion specs, keyed by command name.
use crate::completion::spec::{strs_view, Spec};
use crate::text::str_eq;
use vstd::prelude::*;

verus! {

broadcast use vstd::seq_lib::group_seq_properties;

/// Specs in load order, and each known command name with the index of its spec.
/// A later spec that shares a name replaces the earlier one under that name.
pub struct SpecStore {
    specs: Vec<Spec>,
    entries: Vec<(String, usize)>,
}

/// Position of the first entry named `name`.
pub open spec fn find_name(entries: Seq<(String, usize)>, name: Seq<char>, i: int) -> Option<int>
    decreases entries.len() - i,
{
    if i < 0 || i >= entries.len() {
        None
    } else if entries[i].0@ == name {
        Some(i)
    } else {
        find_name(entries, name, i + 1)
    }
}

pub open spec fn entry_names(entries: Seq<(String, usize)>) -> Seq<Seq<char>> {
    entries.map_values(|e: (String, usize)| e.0@)
}

proof fn lemma_find_name_found(entries: Seq<(String, usize)>, name: Seq<char>, i: int)
    requires
        0 <= i,
    ensures
        find_name(entries, name, i) matches Some(k) ==> i <= k < entries.len() && entries[k].0@
            == name,
        find_name(entries, name, i) is None ==> forall|k: int|
            i <= k < entries.len() ==> entries[k].0@ != name,
    decreases entries.len() - i,
{
    if i < entries.len() && entries[i].0@ != name {
        lemma_find_name_found(entries, name, i + 1);
    }
}

impl SpecStore {
    #[verifier::type_invariant]
    spec fn well_formed(self) -> bool {
        &&& forall|k: int| 0 <= k < self.entries@.len() ==> #[trigger] self.entries@[k].1 < self.specs@.len()
        &&& entry_names(self.entries@).no_duplicates()
    }

    /// The spec known under `name`, if any.
    pub closed spec fn spec_get(&self, name: Seq<char>) -> Option<Spec> {
        match find_name(self.entries@, name, 0) {
            Some(k) => Some(self.specs@[self.entries@[k].1 as int]),
            None => None,
        }
    }

    /// All known command names, each once.
    pub closed spec fn commands(&self) -> Seq<Seq<char>> {
        entry_names(self.entries@)
    }

    pub fn new() -> (r: Self)
        ensures
            forall|n: Seq<char>| r.spec_get(n) is None,
            r.commands().len() == 0,
    {
        let r = SpecStore { specs: Vec::new(), entries: Vec::new() };
        assert(entry_names(r.entries@) =~= Seq::<Seq<char>>::empty());
        r
    }

    /// Adds a spec under each of its names, replacing what those names stood for.
    pub fn insert(&mut self, spec: Spec)
        requires
            old(self).commands().len() + spec.name.names().len() <= usize::MAX,
        ensures
            forall|n: Seq<char>| #[trigger]
                final(self).spec_get(n) == if spec.name.names().contains(n) {
                    Some(spec)
                } else {
                    old(self).spec_get(n)
                },
            forall|n: Seq<char>|
                #[trigger] final(self).commands().contains(n) <==> (old(self).commands().contains(n)
                    || spec.name.names().contains(n)),
    {
        proof {
            use_type_invariant(&*self);
        }
        let names = spec.name.iter();
        let ghost new_names = spec.name.names();
        let ghost old_self_entries = self.entries@;
        let ghost old_specs = self.specs@;
        let k = self.specs.len();
        let mut entries = Vec::new();
        std::mem::swap(&mut entries, &mut self.entries);
        let mut i: usize = 0;
        while i < names.len()
            invariant
                i <= names@.len(),
                strs_view(names@) == new_names,
                k == old_specs.len(),
                forall|j: int| 0 <= j < old_self_entries.len() ==> #[trigger] old_self_entries[j].1 < k,
                entry_names(old_self_entries).no_duplicates(),
                old_self_entries.len() + new_names.len() <= usize::MAX,
                entries@.len() <= old_self_entries.len() + i,
                forall|j: int| 0 <= j < entries@.len() ==> #[trigger] entries@[j].1 <= k,
                entry_names(entries@).no_duplicates(),
                forall|n: Seq<char>|
                    #[trigger] find_name(entries@, n, 0) matches Some(j) ==> entries@[j].1 == if new_names.subrange(0, i as int).contains(n) {
                        k
                    } else {
                        old_self_entries[find_name(old_self_entries, n, 0).unwrap()].1
                    },
                forall|n: Seq<char>|
                    #[trigger] find_name(entries@, n, 0) is Some <==> (find_name(old_self_entries, n, 0) is Some
                        || new_names.subrange(0, i as int).contains(n)),
                forall|n: Seq<char>|
                    #[trigger] entry_names(entries@).contains(n) <==> (entry_names(old_self_entries).contains(n)
                        || new_names.subrange(0, i as int).contains(n)),
            decreases names@.len() - i,
        {
            let name = names[i];
            let ghost prev = entries@;
            let mut j: usize = 0;
            while j < entries.len() && !str_eq(entries[j].0.as_str(), name)
                invariant
                    j <= entries@.len(),
                    find_name(entries@, name@, j as int) == find_name(entries@, name@, 0),
                decreases entries@.len() - j,
            {
                j = j + 1;
            }
            proof {
                lemma_find_name_found(prev, name@, 0);
            }
            assert(new_names.subrange(0, i as int + 1) =~= new_names.subrange(0, i as int).push(name@));
            if j < entries.len() {
                let owned = entries[j].0.clone();
                entries.set(j, (owned, k));
                proof {
                    assert(entry_names(entries@) =~= entry_names(prev));
                    assert forall|n: Seq<char>| #[trigger] find_name(entries@, n, 0) == find_name(prev, n, 0) by {
                        lemma_find_name_same(prev, entries@, n, 0);
                    }
                    assert(find_name(prev, name@, 0) == Some(j as int));
                    assert(entry_names(prev)[j as int] == name@);
                    assert forall|n: Seq<char>| #[trigger] find_name(entries@, n, 0) is Some implies entries@[find_name(entries@, n, 0).unwrap()].1 == if new_names.subrange(0, i as int + 1).contains(n) {
                        k
                    } else {
                        old_self_entries[find_name(old_self_entries, n, 0).unwrap()].1
                    } by {
                        let jj = find_name(entries@, n, 0).unwrap();
                        lemma_find_name_found(prev, n, 0);
                        if jj == j {
                            assert(n == name@);
                        } else {
                            assert(entries@[jj] == prev[jj]);
                            assert(n != name@);
                        }
                    }
                }
            } else {
                let owned = crate::text::string_from_chars(&crate::text::chars_of(name));
                entries.push((owned, k));
                proof {
                    assert(entry_names(entries@) =~= entry_names(prev).push(name@));
                    assert(!entry_names(prev).contains(name@)) by {
                        if entry_names(prev).contains(name@) {
                            let w = choose|w: int| 0 <= w < entry_names(prev).len() && entry_names(prev)[w] == name@;
                            assert(prev[w].0@ == name@);
                        }
                    }
                    assert forall|n: Seq<char>| n != name@ implies #[trigger] find_name(entries@, n, 0) == find_name(prev, n, 0) by {
                        lemma_find_name_push(prev, (owned, k), n, 0);
                    }
                    lemma_find_name_push(prev, (owned, k), name@, 0);
                    lemma_find_name_found(entries@, name@, 0);
                    assert(find_name(prev, name@, 0) is None);
                    assert forall|n: Seq<char>| #[trigger] find_name(entries@, n, 0) is Some implies entries@[find_name(entries@, n, 0).unwrap()].1 == if new_names.subrange(0, i as int + 1).contains(n) {
                        k
                    } else {
                        old_self_entries[find_name(old_self_entries, n, 0).unwrap()].1
                    } by {
                        let jj = find_name(entries@, n, 0).unwrap();
                        if n == name@ {
                            assert(jj == prev.len());
                        } else {
                            assert(find_name(prev, n, 0) == Some(jj));
                            lemma_find_name_found(prev, n, 0);
                            assert(entries@[jj] == prev[jj]);
                        }
                    }
                }
            }
            i = i + 1;
        }
        let mut specs = Vec::new();
        std::mem::swap(&mut specs, &mut self.specs);
        let ghost sp = spec;
        specs.push(spec);
        proof {
            assert(new_names.subrange(0, names@.len() as int) =~= new_names);
            assert(specs@[k as int] == sp);
            assert forall|n: Seq<char>| #[trigger] find_name(entries@, n, 0) is Some implies specs@[entries@[find_name(entries@, n, 0).unwrap()].1 as int]
                == if new_names.contains(n) { sp } else { old_specs[old_self_entries[find_name(old_self_entries, n, 0).unwrap()].1 as int] } by {
                if !new_names.contains(n) {
                    lemma_find_name_found(old_self_entries, n, 0);
                    let w = find_name(old_self_entries, n, 0).unwrap();
                    assert(old_self_entries[w].1 < k);
                }
            }
        }
        *self = SpecStore { specs, entries };
    }

    /// Look up a spec by command name.
    pub fn get(&self, command: &str) -> (r: Option<&Spec>)
        ensures
            r matches Some(s) ==> self.spec_get(command@) == Some(*s),
            r is None ==> self.spec_get(command@) is None,
    {
        proof {
            use_type_invariant(self);
        }
        let mut j: usize = 0;
        while j < self.entries.len() && !str_eq(self.entries[j].0.as_str(), command)
            invariant
                j <= self.entries@.len(),
                find_name(self.entries@, command@, j as int) == find_name(self.entries@, command@, 0),
            decreases self.entries@.len() - j,
        {
            j = j + 1;
        }
        if j < self.entries.len() {
            Some(&self.specs[self.entries[j].1])
        } else {
            None
        }
    }

    /// Number of unique command names (including aliases).
    pub fn len(&self) -> (r: usize)
        ensures
            r == self.commands().len(),
    {
        self.entries.len()
    }

    pub fn is_empty(&self) -> (r: bool)
        ensures
            r == (self.commands().len() == 0),
    {
        self.entries.len() == 0
    }

    /// All known command names, each once.
    pub fn iter_commands(&self) -> (r: Vec<&str>)
        ensures
            strs_view(r@) == self.commands(),
            self.commands().no_duplicates(),
            forall|n: Seq<char>| #[trigger] self.commands().contains(n) <==> self.spec_get(n) is Some,
    {
        proof {
            use_type_invariant(self);
            assert forall|n: Seq<char>| #[trigger] self.commands().contains(n) <==> self.spec_get(n) is Some by {
                lemma_find_name_found(self.entries@, n, 0);
                if self.commands().contains(n) {
                    let w = choose|w: int| 0 <= w < self.commands().len() && self.commands()[w] == n;
                    assert(self.entries@[w].0@ == n);
                }
                if self.spec_get(n) is Some {
                    let w = find_name(self.entries@, n, 0).unwrap();
                    assert(self.commands()[w] == n);
                }
            }
        }
        let mut r: Vec<&str> = Vec::new();
        let mut i: usize = 0;
        while i < self.entries.len()
            invariant
                i <= self.entries@.len(),
                strs_view(r@) == entry_names(self.entries@).subrange(0, i as int),
            decreases self.entries@.len() - i,
        {
            let ghost old_r = r@;
            let s = self.entries[i].0.as_str();
            r.push(s);
            assert(strs_view(r@) =~= strs_view(old_r).push(s@));
            i = i + 1;
            assert(strs_view(r@) =~= entry_names(self.entries@).subrange(0, i as int));
        }
        assert(entry_names(self.entries@).subrange(0, i as int) =~= entry_names(self.entries@));
        r
    }
}

proof fn lemma_find_name_same(a: Seq<(String, usize)>, b: Seq<(String, usize)>, n: Seq<char>, i: int)
    requires
        entry_names(a) == entry_names(b),
        0 <= i,
    ensures
        find_name(a, n, i) == find_name(b, n, i),
    decreases a.len() - i,
{
    assert(a.len() == entry_names(a).len());
    assert(b.len() == entry_names(b).len());
    if i < a.len() {
        assert(entry_names(a)[i] == a[i].0@);
        assert(entry_names(b)[i] == b[i].0@);
        lemma_find_name_same(a, b, n, i + 1);
    }
}

proof fn lemma_find_name_push(a: Seq<(String, usize)>, e: (String, usize), n: Seq<char>, i: int)
    requires
        0 <= i <= a.len(),
    ensures
        find_name(a.push(e), n, i) == match find_name(a, n, i) {
            Some(k) => Some(k),
            None => if e.0@ == n {
                Some(a.len() as int)
            } else {
                None
            },
        },
    decreases a.len() - i,
{
    if i < a.len() {
        assert(a.push(e)[i] == a[i]);
        lemma_find_name_push(a, e, n, i + 1);
    } else {
        assert(a.push(e)[i] == e);
        assert(find_name(a.push(e), n, i + 1) is None);
    }
}

impl Default for SpecStore {
    fn default() -> (r: Self)
        ensures
            forall|n: Seq<char>| r.spec_get(n) is None,
            r.commands().len() == 0,
    {
        Self::new()
    }
}

} // verus!
