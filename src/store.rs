use vstd::prelude::*;

verus! {

/// A committed entry: key characters and value characters.
pub type Entry = (Seq<char>, Seq<char>);

/// True when some entry of `s` has the key `k`.
pub open spec fn has_key(s: Seq<Entry>, k: Seq<char>) -> bool {
    exists|i: int| 0 <= i < s.len() && (#[trigger] s[i]).0 == k
}

/// No two entries of `s` share a key.
pub open spec fn keys_unique(s: Seq<Entry>) -> bool {
    forall|i: int, j: int|
        0 <= i < s.len() && 0 <= j < s.len() && (#[trigger] s[i]).0 == (#[trigger] s[j]).0 ==> i
            == j
}

/// The position of the entry with key `k` (meaningful when `has_key(s, k)`).
pub open spec fn key_position(s: Seq<Entry>, k: Seq<char>) -> int {
    choose|i: int| 0 <= i < s.len() && (#[trigger] s[i]).0 == k
}

/// Insertion with last-write-wins: an existing key keeps its position and
/// takes the new value; a new key is appended at the end.
pub open spec fn store_insert(s: Seq<Entry>, k: Seq<char>, v: Seq<char>) -> Seq<Entry> {
    if has_key(s, k) {
        s.update(key_position(s, k), (k, v))
    } else {
        s.push((k, v))
    }
}

/// The mapping from key to value that the entries describe.
pub open spec fn as_map(s: Seq<Entry>) -> Map<Seq<char>, Seq<char>> {
    Map::new(|k: Seq<char>| has_key(s, k), |k: Seq<char>| s[key_position(s, k)].1)
}

/// With unique keys, the entry found at a position carrying `k` is the one
/// that `key_position` names.
pub proof fn lemma_position_unique(s: Seq<Entry>, k: Seq<char>, i: int)
    requires
        keys_unique(s),
        0 <= i < s.len(),
        s[i].0 == k,
    ensures
        has_key(s, k),
        key_position(s, k) == i,
{
    assert(has_key(s, k));
    let p = key_position(s, k);
    assert(s[p].0 == s[i].0);
}

/// Inserting keeps the keys unique.
pub proof fn lemma_insert_keeps_unique(s: Seq<Entry>, k: Seq<char>, v: Seq<char>)
    requires
        keys_unique(s),
    ensures
        keys_unique(store_insert(s, k, v)),
        has_key(store_insert(s, k, v), k),
{
    let t = store_insert(s, k, v);
    if has_key(s, k) {
        let p = key_position(s, k);
        assert(t[p].0 == k);
        assert forall|i: int, j: int|
            0 <= i < t.len() && 0 <= j < t.len() && (#[trigger] t[i]).0 == (#[trigger] t[j]).0
                implies i == j by {
            assert(t[i].0 == s[i].0);
            assert(t[j].0 == s[j].0);
        }
    } else {
        assert(t[s.len() as int].0 == k);
        assert forall|i: int, j: int|
            0 <= i < t.len() && 0 <= j < t.len() && (#[trigger] t[i]).0 == (#[trigger] t[j]).0
                implies i == j by {
            if i < s.len() && j < s.len() {
                assert(t[i] == s[i]);
                assert(t[j] == s[j]);
            } else if i < s.len() {
                assert(t[i] == s[i]);
            } else if j < s.len() {
                assert(t[j] == s[j]);
            }
        }
    }
}

/// Inserting the same key twice leaves one entry for it, holding the second
/// value, exactly as if only the second insertion had happened.
pub proof fn lemma_insert_overwrites(s: Seq<Entry>, k: Seq<char>, v1: Seq<char>, v2: Seq<char>)
    requires
        keys_unique(s),
    ensures
        store_insert(store_insert(s, k, v1), k, v2) == store_insert(s, k, v2),
        as_map(store_insert(store_insert(s, k, v1), k, v2)) == as_map(s).insert(k, v2),
{
    let t = store_insert(s, k, v1);
    lemma_insert_keeps_unique(s, k, v1);
    if has_key(s, k) {
        let p = key_position(s, k);
        assert(t[p].0 == k);
        lemma_position_unique(t, k, p);
        assert(store_insert(t, k, v2) =~= store_insert(s, k, v2));
    } else {
        let p = s.len() as int;
        assert(t[p].0 == k);
        lemma_position_unique(t, k, p);
        assert(store_insert(t, k, v2) =~= store_insert(s, k, v2));
    }
    lemma_insert_map(s, k, v2);
}

/// Inserting into the entries inserts into the mapping they describe.
pub proof fn lemma_insert_map(s: Seq<Entry>, k: Seq<char>, v: Seq<char>)
    requires
        keys_unique(s),
    ensures
        as_map(store_insert(s, k, v)) == as_map(s).insert(k, v),
{
    let t = store_insert(s, k, v);
    lemma_insert_keeps_unique(s, k, v);
    assert forall|q: Seq<char>| has_key(t, q) == (has_key(s, q) || q == k) by {
        if has_key(t, q) {
            let i = key_position(t, q);
            if i < s.len() && q != k {
                assert(s[i].0 == q);
            }
        }
        if has_key(s, q) && q != k {
            let i = key_position(s, q);
            assert(t[i].0 == q);
        }
        if q == k {
            if has_key(s, k) {
                assert(t[key_position(s, k)].0 == k);
            } else {
                assert(t[s.len() as int].0 == k);
            }
        }
    }
    assert forall|q: Seq<char>| #[trigger] has_key(t, q) implies t[key_position(t, q)].1 == (if q
        == k {
        v
    } else {
        s[key_position(s, q)].1
    }) by {
        let i = key_position(t, q);
        if q == k {
            if has_key(s, k) {
                lemma_position_unique(t, k, key_position(s, k));
            } else {
                lemma_position_unique(t, k, s.len() as int);
            }
        } else {
            let j = key_position(s, q);
            assert(t[j].0 == q);
            lemma_position_unique(t, q, j);
        }
    }
    assert(as_map(t) =~= as_map(s).insert(k, v));
}

/// The committed entries in insertion order, keys unique.
pub struct PairStore {
    entries: Vec<(Vec<char>, Vec<char>)>,
}

/// Copies a character vector.
pub fn copy_chars(v: &Vec<char>) -> (r: Vec<char>)
    ensures
        r@ == v@,
{
    let mut r: Vec<char> = Vec::new();
    let mut i: usize = 0;
    while i < v.len()
        invariant
            i <= v.len(),
            r@ == v@.subrange(0, i as int),
        decreases v.len() - i,
    {
        r.push(v[i]);
        i = i + 1;
    }
    assert(r@ =~= v@);
    r
}

/// Character-wise equality of two vectors.
pub fn chars_equal(a: &Vec<char>, b: &Vec<char>) -> (r: bool)
    ensures
        r == (a@ == b@),
{
    if a.len() != b.len() {
        return false;
    }
    let mut i: usize = 0;
    while i < a.len()
        invariant
            i <= a.len(),
            a.len() == b.len(),
            a@.subrange(0, i as int) == b@.subrange(0, i as int),
        decreases a.len() - i,
    {
        if a[i] != b[i] {
            assert(a@[i as int] != b@[i as int]);
            return false;
        }
        assert(a@.subrange(0, i + 1) =~= a@.subrange(0, i as int).push(a@[i as int]));
        assert(b@.subrange(0, i + 1) =~= b@.subrange(0, i as int).push(b@[i as int]));
        i = i + 1;
    }
    assert(a@ =~= a@.subrange(0, a.len() as int));
    assert(b@ =~= b@.subrange(0, b.len() as int));
    true
}

impl PairStore {
    /// The entries as sequences of characters.
    pub closed spec fn view(&self) -> Seq<Entry> {
        Seq::new(self.entries@.len(), |i: int| (self.entries@[i].0@, self.entries@[i].1@))
    }

    /// The store's invariant: keys are unique.
    pub open spec fn wf(&self) -> bool {
        keys_unique(self.view())
    }

    /// An empty store.
    pub fn new() -> (r: PairStore)
        ensures
            r.wf(),
            r.view() == Seq::<Entry>::empty(),
    {
        let r = PairStore { entries: Vec::new() };
        assert(r.view() =~= Seq::<Entry>::empty());
        r
    }

    /// The number of entries.
    pub fn len(&self) -> (r: usize)
        ensures
            r == self.view().len(),
    {
        self.entries.len()
    }

    /// The key of the entry at position `i`.
    pub fn key_at(&self, i: usize) -> (r: &Vec<char>)
        requires
            i < self.view().len(),
        ensures
            r@ == self.view()[i as int].0,
    {
        &self.entries[i].0
    }

    /// The value of the entry at position `i`.
    pub fn value_at(&self, i: usize) -> (r: &Vec<char>)
        requires
            i < self.view().len(),
        ensures
            r@ == self.view()[i as int].1,
    {
        &self.entries[i].1
    }

    /// The position of the entry with key `k`, if any.
    pub fn find(&self, k: &Vec<char>) -> (r: Option<usize>)
        requires
            self.wf(),
        ensures
            r.is_none() <==> !has_key(self.view(), k@),
            r.is_some() ==> r.unwrap() == key_position(self.view(), k@),
    {
        let mut i: usize = 0;
        while i < self.entries.len()
            invariant
                i <= self.entries.len(),
                self.wf(),
                forall|j: int| 0 <= j < i ==> (#[trigger] self.view()[j]).0 != k@,
            decreases self.entries.len() - i,
        {
            if chars_equal(&self.entries[i].0, k) {
                assert(self.view()[i as int].0 == k@);
                proof {
                    lemma_position_unique(self.view(), k@, i as int);
                }
                return Some(i);
            }
            assert(self.view()[i as int].0 != k@);
            i = i + 1;
        }
        None
    }

    /// The value stored under `k`, if any.
    pub fn get(&self, k: &Vec<char>) -> (r: Option<&Vec<char>>)
        requires
            self.wf(),
        ensures
            r.is_none() <==> !as_map(self.view()).contains_key(k@),
            r.is_some() ==> r.unwrap()@ == as_map(self.view())[k@],
    {
        match self.find(k) {
            Some(i) => Some(&self.entries[i].1),
            None => None,
        }
    }

    /// Stores `v` under `k`: overwrites the value of an existing key in place,
    /// otherwise appends a new entry.
    pub fn insert(&mut self, k: Vec<char>, v: Vec<char>)
        requires
            old(self).wf(),
        ensures
            final(self).wf(),
            final(self).view() == store_insert(old(self).view(), k@, v@),
    {
        proof {
            lemma_insert_keeps_unique(self.view(), k@, v@);
        }
        match self.find(&k) {
            Some(i) => {
                self.entries.set(i, (k, v));
            },
            None => {
                self.entries.push((k, v));
            },
        }
        assert(self.view() =~= store_insert(old(self).view(), k@, v@));
    }
}

} // verus!
