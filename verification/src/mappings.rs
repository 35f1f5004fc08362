//! The project's folder mappings: local folders paired with Roblox paths.
//!
//! Entries are kept in the order in which they were first inserted, and no
//! local folder occurs twice. Lookups that scan the entries take the first
//! one that fits.

use vstd::prelude::*;

verus! {

/// Below any index at which `p` holds there is a least such index.
pub proof fn lemma_least_witness(p: spec_fn(int) -> bool, i0: int)
    requires
        0 <= i0,
        p(i0),
    ensures
        exists|i: int| 0 <= i <= i0 && #[trigger] p(i) && forall|j: int| 0 <= j < i ==> !#[trigger] p(j),
    decreases i0,
{
    if exists|j: int| 0 <= j < i0 && #[trigger] p(j) {
        let j0 = choose|j: int| 0 <= j < i0 && #[trigger] p(j);
        lemma_least_witness(p, j0);
    } else {
        assert(0 <= i0 <= i0 && p(i0) && forall|j: int| 0 <= j < i0 ==> !#[trigger] p(j));
    }
}

/// No local folder occurs twice.
pub open spec fn keys_distinct(entries: Seq<(Seq<char>, Seq<char>)>) -> bool {
    forall|i: int, j: int|
        0 <= i < entries.len() && 0 <= j < entries.len() && i != j ==> #[trigger] entries[i].0
            != #[trigger] entries[j].0
}

/// The index of the first entry for the local folder `key`.
pub open spec fn key_index(entries: Seq<(Seq<char>, Seq<char>)>, key: Seq<char>) -> Option<int> {
    if exists|i: int| 0 <= i < entries.len() && #[trigger] entries[i].0 == key {
        Some(
            choose|i: int|
                0 <= i < entries.len() && #[trigger] entries[i].0 == key && forall|j: int|
                    0 <= j < i ==> #[trigger] entries[j].0 != key,
        )
    } else {
        None
    }
}

/// The Roblox path mapped to the local folder `key`.
pub open spec fn lookup(entries: Seq<(Seq<char>, Seq<char>)>, key: Seq<char>) -> Option<Seq<char>> {
    match key_index(entries, key) {
        Some(i) => Some(entries[i].1),
        None => None,
    }
}

/// The entries after mapping `key` to `value`: an existing entry for `key`
/// keeps its place and takes the new value, a new key goes at the end.
pub open spec fn insert_entry(
    entries: Seq<(Seq<char>, Seq<char>)>,
    key: Seq<char>,
    value: Seq<char>,
) -> Seq<(Seq<char>, Seq<char>)> {
    match key_index(entries, key) {
        Some(i) => entries.update(i, (key, value)),
        None => entries.push((key, value)),
    }
}

/// What `key_index` finds: the first entry for `key`, or none at all.
pub proof fn lemma_key_index(entries: Seq<(Seq<char>, Seq<char>)>, key: Seq<char>)
    ensures
        key_index(entries, key) matches Some(i) ==> 0 <= i < entries.len() && entries[i].0 == key
            && forall|j: int| 0 <= j < i ==> #[trigger] entries[j].0 != key,
        key_index(entries, key) is None ==> forall|j: int|
            0 <= j < entries.len() ==> #[trigger] entries[j].0 != key,
{
    if exists|i: int| 0 <= i < entries.len() && #[trigger] entries[i].0 == key {
        let i0 = choose|i: int| 0 <= i < entries.len() && #[trigger] entries[i].0 == key;
        let p = |i: int| 0 <= i < entries.len() && entries[i].0 == key;
        assert(p(i0));
        lemma_least_witness(p, i0);
        let w = choose|i: int| 0 <= i <= i0 && #[trigger] p(i) && forall|j: int| 0 <= j < i ==> !#[trigger] p(j);
        assert forall|j: int| 0 <= j < w implies #[trigger] entries[j].0 != key by {
            assert(!p(j));
        }
        assert(0 <= w < entries.len() && entries[w].0 == key);
    }
}

/// An entry for `key` with none before it is the first one.
pub proof fn lemma_key_index_found(entries: Seq<(Seq<char>, Seq<char>)>, key: Seq<char>, i: int)
    requires
        0 <= i < entries.len(),
        entries[i].0 == key,
        forall|j: int| 0 <= j < i ==> #[trigger] entries[j].0 != key,
    ensures
        key_index(entries, key) == Some(i),
{
    lemma_key_index(entries, key);
    let k = key_index(entries, key)->0;
    if k < i {
        assert(entries[k].0 != key);
    } else if k > i {
        assert(entries[i].0 != key);
    }
}

/// The entries of a vector of string pairs, as character sequences.
pub open spec fn pairs_view(v: Seq<(String, String)>) -> Seq<(Seq<char>, Seq<char>)> {
    v.map_values(|e: (String, String)| (e.0@, e.1@))
}

/// Local folders (relative to the project root) mapped to Roblox paths.
#[derive(Debug)]
pub struct Mappings {
    entries: Vec<(String, String)>,
}

impl View for Mappings {
    type V = Seq<(Seq<char>, Seq<char>)>;

    closed spec fn view(&self) -> Seq<(Seq<char>, Seq<char>)> {
        pairs_view(self.entries@)
    }
}

impl Clone for Mappings {
    fn clone(&self) -> (m: Self)
        ensures
            m@ == self@,
    {
        self.duplicate()
    }
}

impl Mappings {
    #[verifier::type_invariant]
    spec fn well_formed(&self) -> bool {
        keys_distinct(self@)
    }

    /// Mappings with no entry.
    pub fn new() -> (m: Self)
        ensures
            m@ == Seq::<(Seq<char>, Seq<char>)>::empty(),
            keys_distinct(m@),
    {
        let m = Mappings { entries: Vec::new() };
        assert(m@ =~= Seq::<(Seq<char>, Seq<char>)>::empty());
        m
    }

    /// A copy of these mappings.
    pub fn duplicate(&self) -> (m: Self)
        ensures
            m@ == self@,
    {
        proof {
            use_type_invariant(self);
        }
        let mut entries: Vec<(String, String)> = Vec::new();
        let mut i: usize = 0;
        while i < self.entries.len()
            invariant
                i <= self.entries@.len(),
                entries@.len() == i,
                pairs_view(entries@) =~= self@.take(i as int),
                self@.len() == self.entries@.len(),
            decreases self.entries@.len() - i,
        {
            let pair = &self.entries[i];
            let copy = (pair.0.clone(), pair.1.clone());
            assert((copy.0@, copy.1@) == self@[i as int]);
            let ghost before = entries@;
            entries.push(copy);
            assert(entries@ == before.push(copy));
            assert(before.len() == i);
            assert(pairs_view(entries@).len() == i + 1);
            assert(pairs_view(entries@)[i as int] == (copy.0@, copy.1@));
            assert forall|k: int| 0 <= k < i implies #[trigger] pairs_view(entries@)[k] == pairs_view(before)[k] by {
                assert(entries@[k] == before[k]);
            }
            i = i + 1;
            assert(pairs_view(entries@) =~= self@.take(i as int));
        }
        assert(self@.take(i as int) =~= self@);
        Mappings { entries }
    }

    /// The number of entries.
    pub fn len(&self) -> (n: usize)
        ensures
            n == self@.len(),
            keys_distinct(self@),
    {
        proof {
            use_type_invariant(self);
        }
        self.entries.len()
    }

    /// The local folder and the Roblox path of entry `i`.
    pub fn entry(&self, i: usize) -> (e: (&String, &String))
        requires
            i < self@.len(),
        ensures
            e.0@ == self@[i as int].0,
            e.1@ == self@[i as int].1,
    {
        let pair = &self.entries[i];
        (&pair.0, &pair.1)
    }

    /// The index of the entry for the local folder `key`.
    pub fn position(&self, key: &str) -> (r: Option<usize>)
        ensures
            r matches Some(i) ==> key_index(self@, key@) == Some(i as int) && i < self@.len(),
            r is None ==> key_index(self@, key@) is None,
    {
        let wanted = key.to_owned();
        let mut i: usize = 0;
        while i < self.entries.len()
            invariant
                i <= self@.len(),
                self@.len() == self.entries@.len(),
                wanted@ == key@,
                forall|j: int| 0 <= j < i ==> #[trigger] self@[j].0 != key@,
            decreases self@.len() - i,
        {
            if self.entries[i].0 == wanted {
                proof {
                    lemma_key_index_found(self@, key@, i as int);
                }
                return Some(i);
            }
            i = i + 1;
        }
        proof {
            lemma_key_index(self@, key@);
            if key_index(self@, key@) is Some {
                let k = key_index(self@, key@)->0;
                assert(self@[k].0 != key@);
            }
        }
        None
    }

    /// The Roblox path mapped to the local folder `key` (`HashMap::get`).
    pub fn get(&self, key: &str) -> (r: Option<&String>)
        ensures
            r matches Some(v) ==> lookup(self@, key@) == Some(v@),
            r is None ==> lookup(self@, key@) is None,
    {
        match self.position(key) {
            Some(i) => {
                assert(self@[i as int].1 == self.entries@[i as int].1@);
                Some(&self.entries[i].1)
            },
            None => None,
        }
    }

    /// Maps the local folder `key` to `value` and returns the value it was
    /// mapped to before, if any (`HashMap::insert`).
    pub fn insert(&mut self, key: String, value: String) -> (r: Option<String>)
        ensures
            final(self)@ == insert_entry(old(self)@, key@, value@),
            keys_distinct(final(self)@),
            r matches Some(v) ==> lookup(old(self)@, key@) == Some(v@),
            r is None ==> lookup(old(self)@, key@) is None,
    {
        proof {
            use_type_invariant(&*self);
        }
        let ghost before = self@;
        match self.position(key.as_str()) {
            Some(i) => {
                let mut entries = Vec::new();
                std::mem::swap(&mut entries, &mut self.entries);
                let previous = entries[i].1.clone();
                entries.set(i, (key, value));
                proof {
                    let after = pairs_view(entries@);
                    assert(after =~= before.update(i as int, (key@, value@)));
                    assert forall|a: int, b: int|
                        0 <= a < after.len() && 0 <= b < after.len() && a != b implies #[trigger] after[a].0
                        != #[trigger] after[b].0 by {
                        if a != i && b != i {
                            assert(before[a].0 != before[b].0);
                        } else if a == i {
                            assert(before[a].0 != before[b].0);
                        } else {
                            assert(before[a].0 != before[b].0);
                        }
                    }
                }
                self.entries = entries;
                Some(previous)
            },
            None => {
                let mut entries = Vec::new();
                std::mem::swap(&mut entries, &mut self.entries);
                entries.push((key, value));
                proof {
                    let after = pairs_view(entries@);
                    assert(after =~= before.push((key@, value@)));
                    assert forall|a: int, b: int|
                        0 <= a < after.len() && 0 <= b < after.len() && a != b implies #[trigger] after[a].0
                        != #[trigger] after[b].0 by {
                        let p = |j: int| before[j].0 == key@;
                        if a == before.len() {
                            if after[b].0 == key@ {
                                assert(p(b));
                            }
                        } else if b == before.len() {
                            if after[a].0 == key@ {
                                assert(p(a));
                            }
                        } else {
                            assert(before[a].0 != before[b].0);
                        }
                    }
                }
                self.entries = entries;
                None
            },
        }
    }
}

/// After `insert(key, value)`, `key` maps to `value`, every other key maps to
/// what it mapped to before, and no local folder occurs twice.
pub proof fn law_lookup_after_insert(
    entries: Seq<(Seq<char>, Seq<char>)>,
    key: Seq<char>,
    value: Seq<char>,
    other: Seq<char>,
)
    requires
        keys_distinct(entries),
    ensures
        lookup(insert_entry(entries, key, value), key) == Some(value),
        other != key ==> lookup(insert_entry(entries, key, value), other) == lookup(entries, other),
        keys_distinct(insert_entry(entries, key, value)),
{
    let after = insert_entry(entries, key, value);
    lemma_key_index(entries, key);
    lemma_key_index(entries, other);
    let n = entries.len() as int;
    // `at` is where `key` sits after the insertion.
    let at = match key_index(entries, key) {
        Some(i) => i,
        None => n,
    };
    assert(0 <= at < after.len() && after[at] == (key, value));
    assert forall|j: int| 0 <= j < after.len() && j != at implies after[j] == entries[j] by {}
    assert forall|j: int| 0 <= j < after.len() && j != at implies #[trigger] after[j].0 != key by {
        if at < n {
            assert(entries[j].0 != entries[at].0);
        } else {
            assert(entries[j].0 != key);
        }
    }
    lemma_key_index_found(after, key, at);
    if other != key {
        match key_index(entries, other) {
            Some(k) => {
                assert(k != at);
                assert forall|j: int| 0 <= j < k implies #[trigger] after[j].0 != other by {
                    assert(entries[j].0 != other);
                }
                lemma_key_index_found(after, other, k);
            },
            None => {
                assert forall|j: int| 0 <= j < after.len() implies #[trigger] after[j].0 != other by {
                    if j != at {
                        assert(entries[j].0 != other);
                    }
                }
                lemma_key_index(after, other);
                if key_index(after, other) is Some {
                    let m = key_index(after, other)->0;
                    assert(after[m].0 != other);
                }
            },
        }
    }
    assert forall|a: int, b: int|
        0 <= a < after.len() && 0 <= b < after.len() && a != b implies #[trigger] after[a].0
        != #[trigger] after[b].0 by {
        if a == at {
            assert(after[b].0 != key);
        } else if b == at {
            assert(after[a].0 != key);
        } else {
            assert(entries[a].0 != entries[b].0);
        }
    }
}

} // verus!
