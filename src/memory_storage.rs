use vstd::prelude::*;

verus! {

/// One stored entry, as seen by specifications: the key and its bytes.
pub type EntryView = (Seq<char>, Seq<u8>);

/// No key occurs twice.
pub open spec fn unique_keys(s: Seq<EntryView>) -> bool {
    forall|i: int, j: int| 0 <= i < s.len() && 0 <= j < s.len() && i != j ==> s[i].0 != s[j].0
}

/// Whether `k` is stored in `s`.
pub open spec fn has_key(s: Seq<EntryView>, k: Seq<char>) -> bool {
    exists|i: int| 0 <= i < s.len() && s[i].0 == k
}

/// Where `k` stands in `s`, or -1 where it is absent.
pub open spec fn position_of(s: Seq<EntryView>, k: Seq<char>) -> int {
    if has_key(s, k) {
        choose|i: int| 0 <= i < s.len() && s[i].0 == k
    } else {
        -1
    }
}

/// The bytes stored under `k`, if any.
pub open spec fn read_entry(s: Seq<EntryView>, k: Seq<char>) -> Option<Seq<u8>> {
    if has_key(s, k) {
        Some(s[position_of(s, k)].1)
    } else {
        None
    }
}

/// `s` after writing `v` under `k`: a present key keeps its place, a new one goes last.
pub open spec fn write_entry(s: Seq<EntryView>, k: Seq<char>, v: Seq<u8>) -> Seq<EntryView> {
    if has_key(s, k) {
        s.update(position_of(s, k), (k, v))
    } else {
        s.push((k, v))
    }
}

/// `s` without the entry of `k`; unchanged where `k` is absent.
pub open spec fn delete_entry(s: Seq<EntryView>, k: Seq<char>) -> Seq<EntryView> {
    if has_key(s, k) {
        s.remove(position_of(s, k))
    } else {
        s
    }
}

/// The bytes held by an optional buffer.
pub open spec fn opt_bytes(r: Option<Vec<u8>>) -> Option<Seq<u8>> {
    match r {
        Some(v) => Some(v@),
        None => None,
    }
}

/// The keys of `s`, in order.
pub open spec fn keys_of(s: Seq<EntryView>) -> Seq<Seq<char>> {
    s.map_values(|e: EntryView| e.0)
}

/// The values of `s`, in order.
pub open spec fn values_of(s: Seq<EntryView>) -> Seq<Seq<u8>> {
    s.map_values(|e: EntryView| e.1)
}

/// Under unique keys, the position of a key is the index that holds it.
pub proof fn lemma_position_unique(s: Seq<EntryView>, k: Seq<char>, i: int)
    requires
        unique_keys(s),
        0 <= i < s.len(),
        s[i].0 == k,
    ensures
        has_key(s, k),
        position_of(s, k) == i,
{
    assert(has_key(s, k));
    let p = position_of(s, k);
    assert(0 <= p < s.len() && s[p].0 == k);
}

/// Writing keeps the keys unique.
pub proof fn lemma_write_unique(s: Seq<EntryView>, k: Seq<char>, v: Seq<u8>)
    requires
        unique_keys(s),
    ensures
        unique_keys(write_entry(s, k, v)),
{
    if has_key(s, k) {
        let p = position_of(s, k);
        let t = write_entry(s, k, v);
        assert forall|i: int, j: int| 0 <= i < t.len() && 0 <= j < t.len() && i != j implies t[i].0 != t[j].0 by {
            assert(t[i].0 == s[i].0);
            assert(t[j].0 == s[j].0);
        }
    } else {
        let t = write_entry(s, k, v);
        assert forall|i: int, j: int| 0 <= i < t.len() && 0 <= j < t.len() && i != j implies t[i].0 != t[j].0 by {
            if i < s.len() && j < s.len() {
                assert(t[i] == s[i] && t[j] == s[j]);
            }
        }
    }
}

/// Deleting keeps the keys unique.
pub proof fn lemma_delete_unique(s: Seq<EntryView>, k: Seq<char>)
    requires
        unique_keys(s),
    ensures
        unique_keys(delete_entry(s, k)),
{
    if has_key(s, k) {
        let p = position_of(s, k);
        let t = delete_entry(s, k);
        assert forall|i: int, j: int| 0 <= i < t.len() && 0 <= j < t.len() && i != j implies t[i].0 != t[j].0 by {
            let i2 = if i < p { i } else { i + 1 };
            let j2 = if j < p { j } else { j + 1 };
            assert(t[i] == s[i2] && t[j] == s[j2]);
        }
    }
}

/// After `write(k, v)`, reading `k` gives `v`.
pub proof fn lemma_write_then_read(s: Seq<EntryView>, k: Seq<char>, v: Seq<u8>)
    requires
        unique_keys(s),
    ensures
        read_entry(write_entry(s, k, v), k) == Some(v),
{
    lemma_write_unique(s, k, v);
    let t = write_entry(s, k, v);
    if has_key(s, k) {
        lemma_position_unique(t, k, position_of(s, k));
    } else {
        lemma_position_unique(t, k, s.len() as int);
    }
}

/// After `delete(k)`, reading `k` gives nothing.
pub proof fn lemma_delete_then_read(s: Seq<EntryView>, k: Seq<char>)
    requires
        unique_keys(s),
    ensures
        read_entry(delete_entry(s, k), k) is None,
{
    let t = delete_entry(s, k);
    if has_key(s, k) {
        let p = position_of(s, k);
        if has_key(t, k) {
            let i = choose|i: int| 0 <= i < t.len() && t[i].0 == k;
            let i2 = if i < p { i } else { i + 1 };
            assert(t[i] == s[i2]);
        }
    }
}

/// Deleting an absent key leaves the entries, and so their order, as they were.
pub proof fn lemma_delete_absent(s: Seq<EntryView>, k: Seq<char>)
    requires
        !has_key(s, k),
    ensures
        delete_entry(s, k) == s,
        read_entry(s, k) is None,
{
}

/// Writing a key that is already stored keeps every key in its place.
pub proof fn lemma_rewrite_keeps_order(s: Seq<EntryView>, k: Seq<char>, v: Seq<u8>)
    requires
        unique_keys(s),
        has_key(s, k),
    ensures
        keys_of(write_entry(s, k, v)) == keys_of(s),
{
    let p = position_of(s, k);
    assert(keys_of(write_entry(s, k, v)) =~= keys_of(s));
}

/// Values come out in the order in which their keys were first written.
pub proof fn lemma_insertion_order(
    a: Seq<char>,
    b: Seq<char>,
    c: Seq<char>,
    va: Seq<u8>,
    vb: Seq<u8>,
    vc: Seq<u8>,
)
    requires
        a != b,
        b != c,
        a != c,
    ensures
        values_of(write_entry(write_entry(write_entry(Seq::empty(), a, va), b, vb), c, vc)) == seq![
            va,
            vb,
            vc,
        ],
{
    let s0 = Seq::<EntryView>::empty();
    let s1 = write_entry(s0, a, va);
    assert(!has_key(s0, a));
    assert(s1 == seq![(a, va)]);
    assert(!has_key(s1, b)) by {
        if has_key(s1, b) {
            let i = choose|i: int| 0 <= i < s1.len() && s1[i].0 == b;
            assert(s1[i].0 == a);
        }
    }
    let s2 = write_entry(s1, b, vb);
    assert(s2 =~= seq![(a, va), (b, vb)]);
    assert(!has_key(s2, c)) by {
        if has_key(s2, c) {
            let i = choose|i: int| 0 <= i < s2.len() && s2[i].0 == c;
            assert(s2[i].0 == a || s2[i].0 == b);
        }
    }
    let s3 = write_entry(s2, c, vc);
    assert(s3 =~= seq![(a, va), (b, vb), (c, vc)]);
    assert(values_of(s3) =~= seq![va, vb, vc]);
}

/// An in-memory store of byte blobs under string keys that keeps the order
/// in which keys were first written.
pub struct MemoryStorage {
    entries: Vec<(String, Vec<u8>)>,
}

impl View for MemoryStorage {
    type V = Seq<EntryView>;

    closed spec fn view(&self) -> Seq<EntryView> {
        self.entries@.map_values(|e: (String, Vec<u8>)| (e.0@, e.1@))
    }
}

impl MemoryStorage {
    /// The store's invariant: each key is held once.
    pub open spec fn wf(&self) -> bool {
        unique_keys(self@)
    }

    /// An empty store.
    pub fn new() -> (r: Self)
        ensures
            r.wf(),
            r@ == Seq::<EntryView>::empty(),
    {
        let r = MemoryStorage { entries: Vec::new() };
        assert(r@ =~= Seq::<EntryView>::empty());
        r
    }

    /// Finds the index of `key`, if it is stored.
    fn find(&self, key: &String) -> (r: Option<usize>)
        requires
            self.wf(),
        ensures
            match r {
                Some(i) => i < self@.len() && i == position_of(self@, key@),
                None => !has_key(self@, key@),
            },
    {
        let mut i: usize = 0;
        while i < self.entries.len()
            invariant
                i <= self.entries@.len(),
                self@.len() == self.entries@.len(),
                forall|j: int| 0 <= j < i ==> self@[j].0 != key@,
                self.wf(),
            decreases self.entries@.len() - i,
        {
            if self.entries[i].0 == *key {
                assert(self@[i as int].0 == key@);
                assert(has_key(self@, key@));
                proof {
                    let p = position_of(self@, key@);
                    assert(0 <= p < self@.len() && self@[p].0 == key@);
                    assert(unique_keys(self@));
                    assert(p == i as int);
                }
                return Some(i);
            }
            i = i + 1;
        }
        None
    }
    /// Stores `data` under `key`. A new key goes to the end of the order;
    /// an existing one keeps its place and takes the new value.
    pub fn write(&mut self, key: String, data: Vec<u8>)
        requires
            old(self).wf(),
        ensures
            final(self).wf(),
            final(self)@ == write_entry(old(self)@, key@, data@),
    {
        proof {
            lemma_write_unique(self@, key@, data@);
        }
        match self.find(&key) {
            Some(i) => {
                let ghost k = key@;
                let ghost v = data@;
                self.entries[i] = (key, data);
                assert(self@ =~= write_entry(old(self)@, k, v));
            },
            None => {
                let ghost k = key@;
                let ghost v = data@;
                self.entries.push((key, data));
                assert(self@ =~= write_entry(old(self)@, k, v));
            },
        }
    }

    /// A copy of the bytes stored under `key`, if any.
    pub fn read(&self, key: String) -> (r: Option<Vec<u8>>)
        requires
            self.wf(),
        ensures
            opt_bytes(r) == read_entry(self@, key@),
    {
        match self.find(&key) {
            Some(i) => {
                let v = self.entries[i].1.clone();
                assert(v@ =~= self@[i as int].1);
                Some(v)
            },
            None => None,
        }
    }

    /// Removes `key` and returns the bytes it held; absent keys change nothing.
    pub fn delete(&mut self, key: String) -> (r: Option<Vec<u8>>)
        requires
            old(self).wf(),
        ensures
            final(self).wf(),
            final(self)@ == delete_entry(old(self)@, key@),
            opt_bytes(r) == read_entry(old(self)@, key@),
    {
        proof {
            lemma_delete_unique(self@, key@);
        }
        match self.find(&key) {
            Some(i) => {
                let e = self.entries.remove(i);
                assert(self@ =~= delete_entry(old(self)@, key@));
                Some(e.1)
            },
            None => None,
        }
    }

    /// Copies of all stored values, in the order their keys were first written.
    pub fn list(&self) -> (r: Vec<Vec<u8>>)
        ensures
            r@.map_values(|v: Vec<u8>| v@) == values_of(self@),
    {
        let mut out: Vec<Vec<u8>> = Vec::new();
        let mut i: usize = 0;
        while i < self.entries.len()
            invariant
                i <= self.entries@.len(),
                self@.len() == self.entries@.len(),
                out@.len() == i,
                forall|j: int| 0 <= j < i ==> out@[j]@ == self@[j].1,
            decreases self.entries@.len() - i,
        {
            let v = self.entries[i].1.clone();
            assert(v@ =~= self@[i as int].1);
            out.push(v);
            i = i + 1;
        }
        assert(out@.map_values(|v: Vec<u8>| v@) =~= values_of(self@));
        out
    }
}

} // verus!
