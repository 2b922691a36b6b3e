//! A bounded least-recently-used cache that coalesces the writes made to one
//! key. The entry that leaves to make room waits in a list until the owner
//! takes it out and hands it to a sorter.

use vstd::prelude::*;

verus! {

/// The side of a posting: a document leaving or joining a posting list.
#[derive(Debug, Clone, Copy, PartialEq, Eq, Structural)]
pub enum Side {
    Del,
    Add,
}

/// A key with the documents that leave (`del`) and join (`add`) its posting list.
pub struct KeyDocids {
    pub key: Vec<u8>,
    pub del: Vec<u32>,
    pub add: Vec<u32>,
}

/// `e` records the posting `(key, side, docid)`.
pub open spec fn entry_holds(e: KeyDocids, key: Seq<u8>, side: Side, docid: u32) -> bool {
    &&& e.key@ == key
    &&& match side {
        Side::Del => e.del@.contains(docid),
        Side::Add => e.add@.contains(docid),
    }
}

/// The postings that one entry records.
pub open spec fn entry_postings(e: KeyDocids) -> Set<(Seq<u8>, Side, u32)> {
    Set::new(|p: (Seq<u8>, Side, u32)| entry_holds(e, p.0, p.1, p.2))
}

/// The postings that a sequence of entries records: the union of the entries'
/// postings, whatever their order and however often a key repeats.
pub open spec fn entries_postings(s: Seq<KeyDocids>) -> Set<(Seq<u8>, Side, u32)> {
    Set::new(
        |p: (Seq<u8>, Side, u32)| exists|i: int| 0 <= i < s.len() && entry_holds(s[i], p.0, p.1, p.2),
    )
}

/// Appending an entry adds its postings.
pub proof fn lemma_entries_push(s: Seq<KeyDocids>, e: KeyDocids)
    ensures
        entries_postings(s.push(e)) == entries_postings(s).union(entry_postings(e)),
{
    let t = s.push(e);
    assert forall|p: (Seq<u8>, Side, u32)|
        entries_postings(t).contains(p) <==> entries_postings(s).union(
            entry_postings(e),
        ).contains(p) by {
        if entries_postings(t).contains(p) {
            let i = choose|i: int| 0 <= i < t.len() && entry_holds(t[i], p.0, p.1, p.2);
            if i < s.len() {
                assert(entry_holds(s[i], p.0, p.1, p.2));
            }
        }
        if entries_postings(s).contains(p) {
            let i = choose|i: int| 0 <= i < s.len() && entry_holds(s[i], p.0, p.1, p.2);
            assert(t[i] == s[i]);
        }
        if entry_postings(e).contains(p) {
            assert(t[s.len() as int] == e);
        }
    }
    assert(entries_postings(t) =~= entries_postings(s).union(entry_postings(e)));
}

/// Taking an entry out leaves the postings of the others.
pub proof fn lemma_entries_remove(s: Seq<KeyDocids>, i: int)
    requires
        0 <= i < s.len(),
    ensures
        entries_postings(s) == entries_postings(s.remove(i)).union(entry_postings(s[i])),
{
    let t = s.remove(i);
    assert forall|p: (Seq<u8>, Side, u32)|
        entries_postings(s).contains(p) <==> entries_postings(t).union(
            entry_postings(s[i]),
        ).contains(p) by {
        if entries_postings(s).contains(p) {
            let j = choose|j: int| 0 <= j < s.len() && entry_holds(s[j], p.0, p.1, p.2);
            if j < i {
                assert(t[j] == s[j]);
            } else if j > i {
                assert(t[j - 1] == s[j]);
            }
        }
        if entries_postings(t).contains(p) {
            let j = choose|j: int| 0 <= j < t.len() && entry_holds(t[j], p.0, p.1, p.2);
            if j < i {
                assert(t[j] == s[j]);
            } else {
                assert(t[j] == s[j + 1]);
            }
        }
    }
    assert(entries_postings(s) =~= entries_postings(t).union(entry_postings(s[i])));
}

/// Merging two runs of values gives the union of their postings, so the
/// values of several workers can be merged in any grouping and order.
pub proof fn lemma_entries_concat(a: Seq<KeyDocids>, b: Seq<KeyDocids>)
    ensures
        entries_postings(a + b) == entries_postings(a).union(entries_postings(b)),
    decreases b.len(),
{
    if b.len() == 0 {
        assert(a + b =~= a);
        assert(entries_postings(a).union(entries_postings(b)) =~= entries_postings(a));
    } else {
        let c = b.drop_last();
        lemma_entries_concat(a, c);
        assert(a + b =~= (a + c).push(b.last()));
        assert(b =~= c.push(b.last()));
        lemma_entries_push(a + c, b.last());
        lemma_entries_push(c, b.last());
        assert(entries_postings(a + b) =~= entries_postings(a).union(entries_postings(b)));
    }
}

/// Adds `docid` to the set of documents `ids`.
fn add_docid(ids: &mut Vec<u32>, docid: u32)
    ensures
        forall|x: u32| final(ids)@.contains(x) <==> (old(ids)@.contains(x) || x == docid),
{
    let mut i: usize = 0;
    while i < ids.len()
        invariant
            i <= ids@.len(),
            forall|j: int| 0 <= j < i ==> ids@[j] != docid,
        decreases ids.len() - i,
    {
        if ids[i] == docid {
            return;
        }
        i = i + 1;
    }
    ids.push(docid);
    proof {
        assert forall|x: u32| ids@.contains(x) <==> (old(ids)@.contains(x) || x == docid) by {
            if old(ids)@.contains(x) {
                let j = choose|j: int| 0 <= j < old(ids)@.len() && old(ids)@[j] == x;
                assert(ids@[j] == x);
            }
            if ids@.contains(x) {
                let j = choose|j: int| 0 <= j < ids@.len() && ids@[j] == x;
                if j < old(ids)@.len() {
                    assert(old(ids)@[j] == x);
                }
            }
            assert(ids@[old(ids)@.len() as int] == docid);
        }
    }
}

/// Whether two byte strings are equal.
fn bytes_eq(a: &[u8], b: &[u8]) -> (r: bool)
    ensures
        r == (a@ == b@),
{
    if a.len() != b.len() {
        return false;
    }
    let mut i: usize = 0;
    while i < a.len()
        invariant
            a@.len() == b@.len(),
            i <= a@.len(),
            forall|j: int| 0 <= j < i ==> a@[j] == b@[j],
        decreases a.len() - i,
    {
        if a[i] != b[i] {
            return false;
        }
        i = i + 1;
    }
    assert(a@ =~= b@);
    true
}

/// A cache of at most `capacity` entries. Entries are kept from least to
/// most recently used; the entry that must leave to make room goes to
/// `spilled`, until `take_spilled` hands it out; `taken` is what was handed
/// out so far.
pub struct CboCachedSorter {
    capacity: usize,
    cache: Vec<KeyDocids>,
    spilled: Vec<KeyDocids>,
    taken: Ghost<Set<(Seq<u8>, Side, u32)>>,
}

impl CboCachedSorter {
    /// Every posting written so far, cached, spilled or handed out.
    pub closed spec fn postings(&self) -> Set<(Seq<u8>, Side, u32)> {
        entries_postings(self.cache@).union(entries_postings(self.spilled@)).union(self.taken@)
    }

    /// The postings handed out by `take_spilled` so far.
    pub closed spec fn taken(&self) -> Set<(Seq<u8>, Side, u32)> {
        self.taken@
    }

    /// The entries that left the cache and wait to be handed out.
    pub closed spec fn pending(&self) -> Seq<KeyDocids> {
        self.spilled@
    }

    /// The number of entries in the cache.
    pub closed spec fn cached_len(&self) -> nat {
        self.cache@.len()
    }

    /// Whether the cache holds an entry for `key`.
    pub closed spec fn is_cached(&self, key: Seq<u8>) -> bool {
        exists|i: int| 0 <= i < self.cache@.len() && self.cache@[i].key@ == key
    }

    /// The largest number of entries that the cache holds.
    pub closed spec fn capacity(&self) -> nat {
        self.capacity as nat
    }

    /// At most `capacity` entries are cached, one per key.
    pub closed spec fn wf(&self) -> bool {
        &&& 0 < self.capacity
        &&& self.cache@.len() <= self.capacity
        &&& forall|i: int, j: int|
            0 <= i < j < self.cache@.len() ==> self.cache@[i].key@ != self.cache@[j].key@
    }

    /// An empty cache of `capacity` entries.
    pub fn new(capacity: usize) -> (r: Self)
        requires
            capacity > 0,
        ensures
            r.wf(),
            r.capacity() == capacity,
            r.postings() == Set::<(Seq<u8>, Side, u32)>::empty(),
            r.taken() == Set::<(Seq<u8>, Side, u32)>::empty(),
            r.pending() == Seq::<KeyDocids>::empty(),
            r.cached_len() == 0,
    {
        let r = CboCachedSorter {
            capacity,
            cache: Vec::new(),
            spilled: Vec::new(),
            taken: Ghost(Set::empty()),
        };
        assert(r.postings() =~= Set::<(Seq<u8>, Side, u32)>::empty());
        r
    }

    /// Records `docid` on the given side of `key`.
    pub fn insert(&mut self, key: &[u8], side: Side, docid: u32)
        requires
            old(self).wf(),
        ensures
            final(self).wf(),
            final(self).capacity() == old(self).capacity(),
            final(self).taken() == old(self).taken(),
            final(self).postings() == old(self).postings().insert((key@, side, docid)),
            final(self).is_cached(key@),
            old(self).is_cached(key@) ==> final(self).pending() == old(self).pending(),
            old(self).cached_len() < old(self).capacity() ==> final(self).pending() == old(self).pending(),
            final(self).pending().len() <= old(self).pending().len() + 1,
    {
        let mut i: usize = 0;
        while i < self.cache.len()
            invariant
                i <= self.cache@.len(),
                old(self).wf(),
                forall|j: int| 0 <= j < i ==> self.cache@[j].key@ != key@,
                self.cache@ == old(self).cache@,
                self.spilled@ == old(self).spilled@,
                self.taken == old(self).taken,
                self.capacity == old(self).capacity,
            decreases self.cache.len() - i,
        {
            if bytes_eq(self.cache[i].key.as_slice(), key) {
                let mut e = self.cache.remove(i);
                proof {
                    lemma_entries_remove(old(self).cache@, i as int);
                }
                let ghost e0 = e;
                match side {
                    Side::Del => add_docid(&mut e.del, docid),
                    Side::Add => add_docid(&mut e.add, docid),
                }
                assert(e0.key@ == key@);
                assert forall|q: (Seq<u8>, Side, u32)|
                    entry_postings(e).contains(q) <==> entry_postings(e0).insert((key@, side, docid)).contains(q) by {
                    assert(e.key@ == e0.key@);
                    if side == Side::Del {
                        assert(e.add@ == e0.add@);
                        assert(e.del@.contains(q.2) <==> (e0.del@.contains(q.2) || q.2 == docid));
                    } else {
                        assert(e.del@ == e0.del@);
                        assert(e.add@.contains(q.2) <==> (e0.add@.contains(q.2) || q.2 == docid));
                    }
                    assert((q == (key@, side, docid)) <==> (q.0 == key@ && q.1 == side && q.2 == docid));
                    if q.1 == Side::Del {
                        assert(entry_holds(e, q.0, q.1, q.2) <==> (e.key@ == q.0 && e.del@.contains(q.2)));
                        assert(entry_holds(e0, q.0, q.1, q.2) <==> (e0.key@ == q.0 && e0.del@.contains(q.2)));
                    } else {
                        assert(entry_holds(e, q.0, q.1, q.2) <==> (e.key@ == q.0 && e.add@.contains(q.2)));
                        assert(entry_holds(e0, q.0, q.1, q.2) <==> (e0.key@ == q.0 && e0.add@.contains(q.2)));
                    }
                }
                assert(entry_postings(e) =~= entry_postings(e0).insert((key@, side, docid)));
                let ghost mid = self.cache@;
                self.cache.push(e);
                proof {
                    assert forall|a: int, b: int| 0 <= a < b < self.cache@.len() implies self.cache@[a].key@
                        != self.cache@[b].key@ by {
                        let oa = if a < i { a } else { a + 1 };
                        if b < self.cache@.len() - 1 {
                            let ob = if b < i { b } else { b + 1 };
                            assert(self.cache@[a] == old(self).cache@[oa]);
                            assert(self.cache@[b] == old(self).cache@[ob]);
                        } else {
                            assert(self.cache@[a] == old(self).cache@[oa]);
                        }
                    }
                    lemma_entries_push(mid, e);
                    assert(self.postings() =~= old(self).postings().insert((key@, side, docid)));
                    assert(self.cache@[self.cache@.len() - 1].key@ == key@);
                }
                return;
            }
            i = i + 1;
        }
        if self.cache.len() == self.capacity {
            let lru = self.cache.remove(0);
            proof {
                lemma_entries_remove(old(self).cache@, 0);
                lemma_entries_push(old(self).spilled@, lru);
            }
            self.spilled.push(lru);
        }
        assert(self.postings() =~= old(self).postings());
        let mut k: Vec<u8> = Vec::new();
        k.extend_from_slice(key);
        assert(k@ =~= key@);
        let mut del: Vec<u32> = Vec::new();
        let mut add: Vec<u32> = Vec::new();
        match side {
            Side::Del => del.push(docid),
            Side::Add => add.push(docid),
        }
        let e = KeyDocids { key: k, del, add };
        assert(entry_postings(e) =~= set![(key@, side, docid)]) by {
            assert(del@.len() <= 1 && add@.len() <= 1);
            if side == Side::Del {
                assert(del@[0] == docid);
            } else {
                assert(add@[0] == docid);
            }
        }
        let ghost mid = self.cache@;
        self.cache.push(e);
        proof {
            lemma_entries_push(mid, e);
            assert(self.postings() =~= old(self).postings().insert((key@, side, docid)));
            assert(self.cache@[self.cache@.len() - 1].key@ == key@);
        }
    }

    /// Records `docid` on the del side of `key`.
    pub fn insert_del_u32(&mut self, key: &[u8], docid: u32)
        requires
            old(self).wf(),
        ensures
            final(self).wf(),
            final(self).capacity() == old(self).capacity(),
            final(self).taken() == old(self).taken(),
            final(self).postings() == old(self).postings().insert((key@, Side::Del, docid)),
            final(self).is_cached(key@),
            old(self).is_cached(key@) ==> final(self).pending() == old(self).pending(),
            old(self).cached_len() < old(self).capacity() ==> final(self).pending() == old(self).pending(),
            final(self).pending().len() <= old(self).pending().len() + 1,
    {
        self.insert(key, Side::Del, docid)
    }

    /// Records `docid` on the add side of `key`.
    pub fn insert_add_u32(&mut self, key: &[u8], docid: u32)
        requires
            old(self).wf(),
        ensures
            final(self).wf(),
            final(self).capacity() == old(self).capacity(),
            final(self).taken() == old(self).taken(),
            final(self).postings() == old(self).postings().insert((key@, Side::Add, docid)),
            final(self).is_cached(key@),
            old(self).is_cached(key@) ==> final(self).pending() == old(self).pending(),
            old(self).cached_len() < old(self).capacity() ==> final(self).pending() == old(self).pending(),
            final(self).pending().len() <= old(self).pending().len() + 1,
    {
        self.insert(key, Side::Add, docid)
    }

    /// Hands out the entries that left the cache; the cache keeps the others.
    pub fn take_spilled(&mut self) -> (r: Vec<KeyDocids>)
        requires
            old(self).wf(),
        ensures
            final(self).wf(),
            final(self).capacity() == old(self).capacity(),
            final(self).postings() == old(self).postings(),
            final(self).taken() == old(self).taken().union(entries_postings(r@)),
            r@ == old(self).pending(),
            final(self).pending() == Seq::<KeyDocids>::empty(),
            final(self).cached_len() == old(self).cached_len(),
    {
        let mut out: Vec<KeyDocids> = Vec::new();
        out.append(&mut self.spilled);
        assert(out@ =~= old(self).spilled@);
        self.taken = Ghost(self.taken@.union(entries_postings(out@)));
        assert(self.spilled@ =~= Seq::<KeyDocids>::empty());
        assert(entries_postings(self.spilled@) =~= Set::<(Seq<u8>, Side, u32)>::empty());
        assert(self.postings() =~= old(self).postings());
        out
    }

    /// Flushes the cache: every value not handed out yet, spilled ones first.
    pub fn into_sorter(self) -> (r: Vec<KeyDocids>)
        ensures
            entries_postings(r@).union(self.taken()) == self.postings(),
    {
        let mut out = self.spilled;
        let mut rest = self.cache;
        let ghost a = out@;
        let ghost b = rest@;
        out.append(&mut rest);
        proof {
            lemma_entries_concat(a, b);
            assert(out@ =~= a + b);
            assert(self.postings() =~= entries_postings(a + b).union(self.taken@));
        }
        out
    }
}

} // verus!
