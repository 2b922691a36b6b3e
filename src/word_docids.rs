//! Extraction of the word posting streams from document changes.

use std::collections::HashMap;

use vstd::prelude::*;
use vstd::std_specs::iter::IteratorSpec;

use crate::cache::{entries_postings, CboCachedSorter, KeyDocids, Side};
use crate::keys::{
    contained_in, fid_count_key, lemma_fid_count_key_injective, spec_contained_in, word_u16_key, write_fid_count_key,
    write_word_u16_key,
};
use crate::position::{bucketed_position, spec_bucketed_position};
use crate::{DocumentId, FieldId};

verus! {

broadcast use vstd::std_specs::hash::group_hash_axioms;

/// Fields holding more words than this are not counted.
pub const MAX_COUNTED_WORDS: usize = 30;

/// The five posting streams.
#[derive(Debug, Clone, Copy, PartialEq, Eq, Structural)]
pub enum Stream {
    WordDocids,
    ExactWordDocids,
    WordFidDocids,
    WordPositionDocids,
    FidWordCountDocids,
}

/// One token of a document, as the tokenizer hands it out.
pub struct DocumentToken {
    pub field_name: Vec<u8>,
    pub field_id: FieldId,
    pub position: u16,
    pub word: Vec<u8>,
}

/// A change of one document, with the tokens of its versions: `current` is
/// the version stored before the change, `new` the one after it.
pub enum DocumentChange {
    Deletion { docid: DocumentId, current: Vec<DocumentToken> },
    Update { docid: DocumentId, current: Vec<DocumentToken>, new: Vec<DocumentToken> },
    Insertion { docid: DocumentId, new: Vec<DocumentToken> },
}

impl DocumentChange {
    pub open spec fn spec_docid(&self) -> DocumentId {
        match self {
            DocumentChange::Deletion { docid, .. } => *docid,
            DocumentChange::Update { docid, .. } => *docid,
            DocumentChange::Insertion { docid, .. } => *docid,
        }
    }

    /// The tokens of the version that the change removes.
    pub open spec fn old_tokens(&self) -> Seq<DocumentToken> {
        match self {
            DocumentChange::Deletion { current, .. } => current@,
            DocumentChange::Update { current, .. } => current@,
            DocumentChange::Insertion { .. } => Seq::empty(),
        }
    }

    /// The tokens of the version that the change brings.
    pub open spec fn new_tokens(&self) -> Seq<DocumentToken> {
        match self {
            DocumentChange::Deletion { .. } => Seq::empty(),
            DocumentChange::Update { new, .. } => new@,
            DocumentChange::Insertion { new, .. } => new@,
        }
    }
}

/// A field name is exact when it is, or is nested under, an exact attribute.
pub open spec fn is_exact(field_name: Seq<u8>, exact_attributes: Seq<Vec<u8>>) -> bool {
    exists|i: int| 0 <= i < exact_attributes.len() && spec_contained_in(field_name, exact_attributes[i]@)
}

/// The key that a word of field `fid` at `position` writes into `stream`, if any.
pub open spec fn key_for(stream: Stream, word: Seq<u8>, fid: FieldId, position: u16, exact: bool) -> Option<Seq<u8>> {
    match stream {
        Stream::WordDocids => if exact { None } else { Some(word) },
        Stream::ExactWordDocids => if exact { Some(word) } else { None },
        Stream::WordFidDocids => Some(word_u16_key(word, fid)),
        Stream::WordPositionDocids => Some(word_u16_key(word, spec_bucketed_position(position))),
        Stream::FidWordCountDocids => None,
    }
}

/// The key that token `t` writes into `stream`, if any.
pub open spec fn token_key(t: DocumentToken, stream: Stream, exact_attributes: Seq<Vec<u8>>) -> Option<Seq<u8>> {
    key_for(stream, t.word@, t.field_id, t.position, is_exact(t.field_name@, exact_attributes))
}

/// The posting of an optional key.
pub open spec fn key_posting(key: Option<Seq<u8>>, side: Side, docid: DocumentId) -> Set<(Seq<u8>, Side, u32)> {
    match key {
        Some(k) => set![(k, side, docid)],
        None => Set::empty(),
    }
}

/// The postings that the tokens `s` of document `docid` write into `stream` on `side`.
pub open spec fn tokens_postings(
    s: Seq<DocumentToken>,
    stream: Stream,
    side: Side,
    docid: DocumentId,
    exact_attributes: Seq<Vec<u8>>,
) -> Set<(Seq<u8>, Side, u32)>
    decreases s.len(),
{
    if s.len() == 0 {
        Set::empty()
    } else {
        tokens_postings(s.drop_last(), stream, side, docid, exact_attributes).union(
            key_posting(token_key(s.last(), stream, exact_attributes), side, docid),
        )
    }
}

/// The count of a side in a `(del, add)` pair of word counts.
pub open spec fn side_count(counts: (usize, usize), side: Side) -> usize {
    match side {
        Side::Del => counts.0,
        Side::Add => counts.1,
    }
}

/// The tally after one more word of field `fid` on `side`.
pub open spec fn bump(t: Map<FieldId, (usize, usize)>, fid: FieldId, side: Side) -> Map<FieldId, (usize, usize)> {
    let c = if t.contains_key(fid) { t[fid] } else { (0usize, 0usize) };
    match side {
        Side::Del => t.insert(fid, ((c.0 + 1) as usize, c.1)),
        Side::Add => t.insert(fid, (c.0, (c.1 + 1) as usize)),
    }
}

/// The tally after the words of the tokens `s` on `side`.
pub open spec fn add_counts(t: Map<FieldId, (usize, usize)>, s: Seq<DocumentToken>, side: Side) -> Map<FieldId, (usize, usize)>
    decreases s.len(),
{
    if s.len() == 0 {
        t
    } else {
        bump(add_counts(t, s.drop_last(), side), s.last().field_id, side)
    }
}

/// The word counts of a document change: per field, the words of the old
/// version and the words of the new one.
pub open spec fn change_tally(change: DocumentChange) -> Map<FieldId, (usize, usize)> {
    add_counts(add_counts(Map::empty(), change.old_tokens(), Side::Del), change.new_tokens(), Side::Add)
}

/// The count postings of one field: when its word count changed, the old
/// count leaves and the new one joins, each only if it is at most 30.
pub open spec fn fid_postings(fid: FieldId, counts: (usize, usize), docid: DocumentId) -> Set<(Seq<u8>, Side, u32)> {
    Set::new(
        |p: (Seq<u8>, Side, u32)|
            counts.0 != counts.1 && ((counts.0 <= MAX_COUNTED_WORDS && p == (
                fid_count_key(fid, counts.0 as nat),
                Side::Del,
                docid,
            )) || (counts.1 <= MAX_COUNTED_WORDS && p == (
                fid_count_key(fid, counts.1 as nat),
                Side::Add,
                docid,
            ))),
    )
}

/// The count postings of a whole tally of document `docid`.
pub open spec fn tally_postings(t: Map<FieldId, (usize, usize)>, docid: DocumentId) -> Set<(Seq<u8>, Side, u32)> {
    Set::new(
        |p: (Seq<u8>, Side, u32)|
            exists|f: FieldId| t.contains_key(f) && #[trigger] fid_postings(f, t[f], docid).contains(p),
    )
}

/// The postings that a document change writes into `stream`.
pub open spec fn change_postings(change: DocumentChange, stream: Stream, exact_attributes: Seq<Vec<u8>>) -> Set<(Seq<u8>, Side, u32)> {
    if stream == Stream::FidWordCountDocids {
        tally_postings(change_tally(change), change.spec_docid())
    } else {
        tokens_postings(change.old_tokens(), stream, Side::Del, change.spec_docid(), exact_attributes).union(
            tokens_postings(change.new_tokens(), stream, Side::Add, change.spec_docid(), exact_attributes),
        )
    }
}

/// The postings that a sequence of document changes writes into `stream`.
pub open spec fn changes_postings(changes: Seq<DocumentChange>, stream: Stream, exact_attributes: Seq<Vec<u8>>) -> Set<(Seq<u8>, Side, u32)>
    decreases changes.len(),
{
    if changes.len() == 0 {
        Set::empty()
    } else {
        changes_postings(changes.drop_last(), stream, exact_attributes).union(
            change_postings(changes.last(), stream, exact_attributes),
        )
    }
}

/// A count key holds a field id and a count of at most 30.
pub open spec fn count_key_in_range(k: Seq<u8>) -> bool {
    k.len() == 3 && k[2] <= MAX_COUNTED_WORDS
}

proof fn lemma_tally_postings_empty(docid: DocumentId)
    ensures
        tally_postings(Map::empty(), docid) == Set::<(Seq<u8>, Side, u32)>::empty(),
{
    assert(tally_postings(Map::empty(), docid) =~= Set::<(Seq<u8>, Side, u32)>::empty());
}

/// The side that is not `side`.
pub open spec fn other_side(side: Side) -> Side {
    match side {
        Side::Del => Side::Add,
        Side::Add => Side::Del,
    }
}

proof fn lemma_add_counts(t: Map<FieldId, (usize, usize)>, s: Seq<DocumentToken>, side: Side)
    requires
        s.len() <= usize::MAX,
        forall|f: FieldId| t.contains_key(f) ==> side_count(t[f], side) == 0,
    ensures
        forall|f: FieldId| #[trigger] add_counts(t, s, side).contains_key(f) ==> {
            &&& side_count(add_counts(t, s, side)[f], side) <= s.len()
            &&& side_count(add_counts(t, s, side)[f], other_side(side)) == if t.contains_key(f) {
                side_count(t[f], other_side(side))
            } else {
                0
            }
        },
        forall|f: FieldId| t.contains_key(f) ==> #[trigger] add_counts(t, s, side).contains_key(f),
    decreases s.len(),
{
    if s.len() > 0 {
        let r = add_counts(t, s.drop_last(), side);
        lemma_add_counts(t, s.drop_last(), side);
        let f0 = s.last().field_id;
        assert(add_counts(t, s, side) == bump(r, f0, side));
        assert forall|f: FieldId| #[trigger] add_counts(t, s, side).contains_key(f) implies {
            &&& side_count(add_counts(t, s, side)[f], side) <= s.len()
            &&& side_count(add_counts(t, s, side)[f], other_side(side)) == if t.contains_key(f) {
                side_count(t[f], other_side(side))
            } else {
                0
            }
        } by {
            if f != f0 {
                assert(r.contains_key(f));
            } else if !r.contains_key(f) {
                assert(!t.contains_key(f));
            }
        }
        assert forall|f: FieldId| t.contains_key(f) implies #[trigger] add_counts(t, s, side).contains_key(f) by {
            assert(r.contains_key(f));
        }
    }
}

/// The number of tokens of `s` in field `fid`.
pub open spec fn count_fid(s: Seq<DocumentToken>, fid: FieldId) -> nat
    decreases s.len(),
{
    if s.len() == 0 {
        0
    } else {
        count_fid(s.drop_last(), fid) + if s.last().field_id == fid { 1nat } else { 0nat }
    }
}

/// The count postings of document `docid` whose old version has the tokens
/// `old` and whose new version has the tokens `new`.
pub open spec fn counts_postings(old: Seq<DocumentToken>, new: Seq<DocumentToken>, docid: DocumentId) -> Set<(Seq<u8>, Side, u32)> {
    Set::new(
        |p: (Seq<u8>, Side, u32)|
            exists|f: FieldId|
                #[trigger] fid_postings(f, (count_fid(old, f) as usize, count_fid(new, f) as usize), docid).contains(p),
    )
}

proof fn lemma_add_counts_count(t: Map<FieldId, (usize, usize)>, s: Seq<DocumentToken>, side: Side)
    requires
        s.len() <= usize::MAX,
        forall|f: FieldId| t.contains_key(f) ==> side_count(t[f], side) == 0,
    ensures
        forall|f: FieldId| #[trigger] count_fid(s, f) <= s.len(),
        forall|f: FieldId|
            #[trigger] add_counts(t, s, side).contains_key(f) <==> (t.contains_key(f) || count_fid(s, f) > 0),
        forall|f: FieldId|
            #[trigger] add_counts(t, s, side).contains_key(f) ==> side_count(add_counts(t, s, side)[f], side)
                == count_fid(s, f),
    decreases s.len(),
{
    lemma_add_counts(t, s, side);
    if s.len() > 0 {
        let s0 = s.drop_last();
        let r0 = add_counts(t, s0, side);
        lemma_add_counts_count(t, s0, side);
        lemma_add_counts(t, s0, side);
        assert forall|f: FieldId| #[trigger] count_fid(s, f) <= s.len() by {
            assert(count_fid(s0, f) <= s0.len());
        }
        assert forall|f: FieldId|
            #[trigger] add_counts(t, s, side).contains_key(f) <==> (t.contains_key(f) || count_fid(s, f) > 0) by {
            assert(r0.contains_key(f) <==> (t.contains_key(f) || count_fid(s0, f) > 0));
        }
    }
}

/// The word counts of a change are, per field, the number of tokens of the
/// old version and of the new version in that field.
pub proof fn lemma_change_tally(change: DocumentChange, fid: FieldId)
    requires
        change.old_tokens().len() <= usize::MAX,
        change.new_tokens().len() <= usize::MAX,
    ensures
        change_tally(change).contains_key(fid) <==> (count_fid(change.old_tokens(), fid) > 0 || count_fid(
            change.new_tokens(),
            fid,
        ) > 0),
        change_tally(change).contains_key(fid) ==> change_tally(change)[fid] == (
            count_fid(change.old_tokens(), fid) as usize,
            count_fid(change.new_tokens(), fid) as usize,
        ),
{
    let empty = Map::<FieldId, (usize, usize)>::empty();
    let t1 = add_counts(empty, change.old_tokens(), Side::Del);
    lemma_add_counts(empty, change.old_tokens(), Side::Del);
    lemma_add_counts_count(empty, change.old_tokens(), Side::Del);
    lemma_add_counts(t1, change.new_tokens(), Side::Add);
    lemma_add_counts_count(t1, change.new_tokens(), Side::Add);
}

/// Every count posting of a tally of document `docid` is for `docid`.
pub proof fn lemma_tally_postings_docid(t: Map<FieldId, (usize, usize)>, docid: DocumentId, p: (Seq<u8>, Side, u32))
    requires
        tally_postings(t, docid).contains(p),
    ensures
        p.2 == docid,
{
    let f = choose|f: FieldId| t.contains_key(f) && #[trigger] fid_postings(f, t[f], docid).contains(p);
}

/// Whether the field `field_name` is, or is nested under, an exact attribute.
pub fn is_exact_attribute(field_name: &[u8], exact_attributes: &Vec<Vec<u8>>) -> (r: bool)
    ensures
        r == is_exact(field_name@, exact_attributes@),
{
    let mut i: usize = 0;
    while i < exact_attributes.len()
        invariant
            i <= exact_attributes@.len(),
            forall|j: int| 0 <= j < i ==> !spec_contained_in(field_name@, #[trigger] exact_attributes@[j]@),
        decreases exact_attributes.len() - i,
    {
        if contained_in(field_name, exact_attributes[i].as_slice()) {
            return true;
        }
        i = i + 1;
    }
    false
}

/// The five cached sorters of one worker, with the word counts per field of
/// the document being processed.
pub struct WordDocidsCachedSorters {
    word_fid_docids: CboCachedSorter,
    word_docids: CboCachedSorter,
    exact_word_docids: CboCachedSorter,
    word_position_docids: CboCachedSorter,
    fid_word_count_docids: CboCachedSorter,
    fid_word_count: HashMap<FieldId, (usize, usize)>,
    current_docid: Option<DocumentId>,
    max_memory: Option<usize>,
}

impl WordDocidsCachedSorters {
    /// The postings written so far into `stream`.
    pub closed spec fn postings_of(&self, stream: Stream) -> Set<(Seq<u8>, Side, u32)> {
        match stream {
            Stream::WordDocids => self.word_docids.postings(),
            Stream::ExactWordDocids => self.exact_word_docids.postings(),
            Stream::WordFidDocids => self.word_fid_docids.postings(),
            Stream::WordPositionDocids => self.word_position_docids.postings(),
            Stream::FidWordCountDocids => self.fid_word_count_docids.postings(),
        }
    }

    /// The word counts per field, `(old version, new version)`, of the current document.
    pub closed spec fn tally(&self) -> Map<FieldId, (usize, usize)> {
        self.fid_word_count@
    }

    /// The document whose tokens were written last.
    pub closed spec fn current(&self) -> Option<DocumentId> {
        self.current_docid
    }

    /// The memory budget of each sorter.
    pub closed spec fn sorter_memory(&self) -> Option<usize> {
        self.max_memory
    }

    /// The postings of `stream` handed out by `take_spilled` so far.
    pub closed spec fn taken_of(&self, stream: Stream) -> Set<(Seq<u8>, Side, u32)> {
        match stream {
            Stream::WordDocids => self.word_docids.taken(),
            Stream::ExactWordDocids => self.exact_word_docids.taken(),
            Stream::WordFidDocids => self.word_fid_docids.taken(),
            Stream::WordPositionDocids => self.word_position_docids.taken(),
            Stream::FidWordCountDocids => self.fid_word_count_docids.taken(),
        }
    }

    /// The entries of `stream` that left its cache and wait to be handed out.
    pub closed spec fn pending_of(&self, stream: Stream) -> Seq<KeyDocids> {
        match stream {
            Stream::WordDocids => self.word_docids.pending(),
            Stream::ExactWordDocids => self.exact_word_docids.pending(),
            Stream::WordFidDocids => self.word_fid_docids.pending(),
            Stream::WordPositionDocids => self.word_position_docids.pending(),
            Stream::FidWordCountDocids => self.fid_word_count_docids.pending(),
        }
    }

    /// The number of entries that the cache of `stream` holds at most.
    pub closed spec fn capacity_of(&self, stream: Stream) -> nat {
        match stream {
            Stream::WordDocids => self.word_docids.capacity(),
            Stream::ExactWordDocids => self.exact_word_docids.capacity(),
            Stream::WordFidDocids => self.word_fid_docids.capacity(),
            Stream::WordPositionDocids => self.word_position_docids.capacity(),
            Stream::FidWordCountDocids => self.fid_word_count_docids.capacity(),
        }
    }

    /// The views of each stream are those of its cache.
    proof fn lemma_stream_views(&self)
        ensures
            self.postings_of(Stream::WordDocids) == self.word_docids.postings(),
            self.postings_of(Stream::ExactWordDocids) == self.exact_word_docids.postings(),
            self.postings_of(Stream::WordFidDocids) == self.word_fid_docids.postings(),
            self.postings_of(Stream::WordPositionDocids) == self.word_position_docids.postings(),
            self.capacity_of(Stream::WordDocids) == self.word_docids.capacity(),
            self.capacity_of(Stream::ExactWordDocids) == self.exact_word_docids.capacity(),
            self.capacity_of(Stream::WordFidDocids) == self.word_fid_docids.capacity(),
            self.capacity_of(Stream::WordPositionDocids) == self.word_position_docids.capacity(),
            self.capacity_of(Stream::FidWordCountDocids) == self.fid_word_count_docids.capacity(),
            self.taken_of(Stream::WordDocids) == self.word_docids.taken(),
            self.taken_of(Stream::ExactWordDocids) == self.exact_word_docids.taken(),
            self.taken_of(Stream::WordFidDocids) == self.word_fid_docids.taken(),
            self.taken_of(Stream::WordPositionDocids) == self.word_position_docids.taken(),
            self.taken_of(Stream::FidWordCountDocids) == self.fid_word_count_docids.taken(),
    {
    }

    pub closed spec fn wf(&self) -> bool {
        &&& self.word_fid_docids.wf()
        &&& self.word_docids.wf()
        &&& self.exact_word_docids.wf()
        &&& self.word_position_docids.wf()
        &&& self.fid_word_count_docids.wf()
        &&& forall|f: FieldId| self.fid_word_count@.contains_key(f) ==> self.current_docid is Some
        &&& forall|p: (Seq<u8>, Side, u32)|
            self.fid_word_count_docids.postings().contains(p) ==> count_key_in_range(p.0)
    }

    /// Empty caches of `capacity` entries each; each sorter behind them gets a
    /// quarter of `max_memory`.
    pub fn new(max_memory: Option<usize>, capacity: usize) -> (r: Self)
        requires
            capacity > 0,
        ensures
            r.wf(),
            forall|s: Stream| r.postings_of(s) == Set::<(Seq<u8>, Side, u32)>::empty(),
            r.tally() == Map::<FieldId, (usize, usize)>::empty(),
            r.current() is None,
            forall|s: Stream| #[trigger] r.capacity_of(s) == capacity,
            forall|s: Stream| #[trigger] r.taken_of(s) == Set::<(Seq<u8>, Side, u32)>::empty(),
            r.sorter_memory() == match max_memory {
                Some(m) => Some((m / 4) as usize),
                None => None,
            },
    {
        let max_memory = match max_memory {
            Some(m) => Some(m / 4),
            None => None,
        };
        let r = WordDocidsCachedSorters {
            word_fid_docids: CboCachedSorter::new(capacity),
            word_docids: CboCachedSorter::new(capacity),
            exact_word_docids: CboCachedSorter::new(capacity),
            word_position_docids: CboCachedSorter::new(capacity),
            fid_word_count_docids: CboCachedSorter::new(capacity),
            fid_word_count: HashMap::new(),
            current_docid: None,
            max_memory,
        };
        assert(r.fid_word_count@ =~= Map::<FieldId, (usize, usize)>::empty());
        r
    }
    /// Writes one token of document `docid` on `side` into the four word
    /// streams, then counts it in the tally of its field. A token of another
    /// document than the current one first flushes the tally.
    fn insert_token(
        &mut self,
        field_id: FieldId,
        position: u16,
        word: &[u8],
        exact: bool,
        docid: DocumentId,
        side: Side,
        buffer: &mut Vec<u8>,
    )
        requires
            old(self).wf(),
            old(self).tally().contains_key(field_id) ==> side_count(old(self).tally()[field_id], side)
                < usize::MAX,
        ensures
            final(self).wf(),
            final(self).sorter_memory() == old(self).sorter_memory(),
            forall|s: Stream| #[trigger] final(self).capacity_of(s) == old(self).capacity_of(s),
            forall|s: Stream| #[trigger] final(self).taken_of(s) == old(self).taken_of(s),
            forall|s: Stream|
                s != Stream::FidWordCountDocids ==> #[trigger] final(self).postings_of(s)
                    == old(self).postings_of(s).union(
                    key_posting(key_for(s, word@, field_id, position, exact), side, docid),
                ),
            final(self).current() == Some(docid),
            ({
                let switched = old(self).current() is Some && old(self).current() != Some(docid);
                &&& final(self).postings_of(Stream::FidWordCountDocids) == if switched {
                    old(self).postings_of(Stream::FidWordCountDocids).union(
                        tally_postings(old(self).tally(), old(self).current()->0),
                    )
                } else {
                    old(self).postings_of(Stream::FidWordCountDocids)
                }
                &&& final(self).tally() == bump(
                    if switched { Map::empty() } else { old(self).tally() },
                    field_id,
                    side,
                )
            }),
    {
        let ghost w = word@;
        if exact {
            self.exact_word_docids.insert(word, side, docid);
        } else {
            self.word_docids.insert(word, side, docid);
        }
        write_word_u16_key(buffer, word, field_id);
        self.word_fid_docids.insert(buffer.as_slice(), side, docid);
        let bucket = bucketed_position(position);
        write_word_u16_key(buffer, word, bucket);
        self.word_position_docids.insert(buffer.as_slice(), side, docid);

        let switched = match self.current_docid {
            Some(id) => id != docid,
            None => false,
        };
        if switched {
            self.flush_fid_word_count(buffer);
            proof {
                self.lemma_stream_views();
            }
        }
        let counts = match self.fid_word_count.get(&field_id) {
            Some(c) => *c,
            None => (0, 0),
        };
        let (current_count, new_count) = counts;
        match side {
            Side::Del => {
                self.fid_word_count.insert(field_id, (current_count + 1, new_count));
            },
            Side::Add => {
                self.fid_word_count.insert(field_id, (current_count, new_count + 1));
            },
        }
        self.current_docid = Some(docid);
        proof {
            if exact {
                assert(key_posting(key_for(Stream::WordDocids, w, field_id, position, exact), side, docid) =~= Set::empty());
                assert(key_posting(key_for(Stream::ExactWordDocids, w, field_id, position, exact), side, docid) =~= set![(w, side, docid)]);
            } else {
                assert(key_posting(key_for(Stream::ExactWordDocids, w, field_id, position, exact), side, docid) =~= Set::empty());
                assert(key_posting(key_for(Stream::WordDocids, w, field_id, position, exact), side, docid) =~= set![(w, side, docid)]);
            }
            assert(self.postings_of(Stream::WordDocids) =~= old(self).postings_of(Stream::WordDocids).union(
                key_posting(key_for(Stream::WordDocids, w, field_id, position, exact), side, docid)));
            assert(self.postings_of(Stream::ExactWordDocids) =~= old(self).postings_of(Stream::ExactWordDocids).union(
                key_posting(key_for(Stream::ExactWordDocids, w, field_id, position, exact), side, docid)));
            assert(self.postings_of(Stream::WordFidDocids) =~= old(self).postings_of(Stream::WordFidDocids).union(
                key_posting(key_for(Stream::WordFidDocids, w, field_id, position, exact), side, docid)));
            assert(self.postings_of(Stream::WordPositionDocids) =~= old(self).postings_of(Stream::WordPositionDocids).union(
                key_posting(key_for(Stream::WordPositionDocids, w, field_id, position, exact), side, docid)));
        }
    }

    /// Records one token of document `docid` being added.
    pub fn insert_add_u32(
        &mut self,
        field_id: FieldId,
        position: u16,
        word: &[u8],
        exact: bool,
        docid: DocumentId,
        buffer: &mut Vec<u8>,
    )
        requires
            old(self).wf(),
            old(self).tally().contains_key(field_id) ==> old(self).tally()[field_id].1 < usize::MAX,
        ensures
            final(self).wf(),
            final(self).sorter_memory() == old(self).sorter_memory(),
            forall|s: Stream| #[trigger] final(self).capacity_of(s) == old(self).capacity_of(s),
            forall|s: Stream| #[trigger] final(self).taken_of(s) == old(self).taken_of(s),
            forall|s: Stream|
                s != Stream::FidWordCountDocids ==> #[trigger] final(self).postings_of(s)
                    == old(self).postings_of(s).union(
                    key_posting(key_for(s, word@, field_id, position, exact), Side::Add, docid),
                ),
            final(self).current() == Some(docid),
            ({
                let switched = old(self).current() is Some && old(self).current() != Some(docid);
                &&& final(self).postings_of(Stream::FidWordCountDocids) == if switched {
                    old(self).postings_of(Stream::FidWordCountDocids).union(
                        tally_postings(old(self).tally(), old(self).current()->0),
                    )
                } else {
                    old(self).postings_of(Stream::FidWordCountDocids)
                }
                &&& final(self).tally() == bump(
                    if switched { Map::empty() } else { old(self).tally() },
                    field_id,
                    Side::Add,
                )
            }),
    {
        self.insert_token(field_id, position, word, exact, docid, Side::Add, buffer)
    }

    /// Records one token of document `docid` being removed.
    pub fn insert_del_u32(
        &mut self,
        field_id: FieldId,
        position: u16,
        word: &[u8],
        exact: bool,
        docid: DocumentId,
        buffer: &mut Vec<u8>,
    )
        requires
            old(self).wf(),
            old(self).tally().contains_key(field_id) ==> old(self).tally()[field_id].0 < usize::MAX,
        ensures
            final(self).wf(),
            final(self).sorter_memory() == old(self).sorter_memory(),
            forall|s: Stream| #[trigger] final(self).capacity_of(s) == old(self).capacity_of(s),
            forall|s: Stream| #[trigger] final(self).taken_of(s) == old(self).taken_of(s),
            forall|s: Stream|
                s != Stream::FidWordCountDocids ==> #[trigger] final(self).postings_of(s)
                    == old(self).postings_of(s).union(
                    key_posting(key_for(s, word@, field_id, position, exact), Side::Del, docid),
                ),
            final(self).current() == Some(docid),
            ({
                let switched = old(self).current() is Some && old(self).current() != Some(docid);
                &&& final(self).postings_of(Stream::FidWordCountDocids) == if switched {
                    old(self).postings_of(Stream::FidWordCountDocids).union(
                        tally_postings(old(self).tally(), old(self).current()->0),
                    )
                } else {
                    old(self).postings_of(Stream::FidWordCountDocids)
                }
                &&& final(self).tally() == bump(
                    if switched { Map::empty() } else { old(self).tally() },
                    field_id,
                    Side::Del,
                )
            }),
    {
        self.insert_token(field_id, position, word, exact, docid, Side::Del, buffer)
    }

    /// Writes the tokens of one version of document `docid` on `side`.
    fn insert_tokens(
        &mut self,
        tokens: &Vec<DocumentToken>,
        side: Side,
        docid: DocumentId,
        exact_attributes: &Vec<Vec<u8>>,
        buffer: &mut Vec<u8>,
    )
        requires
            old(self).wf(),
            old(self).current() == Some(docid) || old(self).tally() == Map::<FieldId, (usize, usize)>::empty(),
            forall|f: FieldId| old(self).tally().contains_key(f) ==> side_count(old(self).tally()[f], side) == 0,
        ensures
            final(self).wf(),
            final(self).sorter_memory() == old(self).sorter_memory(),
            forall|s: Stream| #[trigger] final(self).capacity_of(s) == old(self).capacity_of(s),
            forall|s: Stream| #[trigger] final(self).taken_of(s) == old(self).taken_of(s),
            final(self).current() == Some(docid) || final(self).tally() == Map::<FieldId, (usize, usize)>::empty(),
            final(self).tally() == add_counts(old(self).tally(), tokens@, side),
            final(self).postings_of(Stream::FidWordCountDocids) == old(self).postings_of(Stream::FidWordCountDocids),
            forall|s: Stream|
                s != Stream::FidWordCountDocids ==> #[trigger] final(self).postings_of(s)
                    == old(self).postings_of(s).union(tokens_postings(tokens@, s, side, docid, exact_attributes@)),
    {
        let ghost t0 = old(self).tally();
        let mut i: usize = 0;
        while i < tokens.len()
            invariant
                self.wf(),
                i <= tokens@.len(),
                forall|f: FieldId| t0.contains_key(f) ==> side_count(t0[f], side) == 0,
                self.sorter_memory() == old(self).sorter_memory(),
                forall|s: Stream| #[trigger] self.capacity_of(s) == old(self).capacity_of(s),
                forall|s: Stream| #[trigger] self.taken_of(s) == old(self).taken_of(s),
                self.current() == Some(docid) || self.tally() == Map::<FieldId, (usize, usize)>::empty(),
                self.tally() == add_counts(t0, tokens@.take(i as int), side),
                self.postings_of(Stream::FidWordCountDocids) == old(self).postings_of(Stream::FidWordCountDocids),
                forall|s: Stream|
                    s != Stream::FidWordCountDocids ==> #[trigger] self.postings_of(s)
                        == old(self).postings_of(s).union(tokens_postings(tokens@.take(i as int), s, side, docid, exact_attributes@)),
            decreases tokens.len() - i,
        {
            let token = &tokens[i];
            let exact = is_exact_attribute(token.field_name.as_slice(), exact_attributes);
            proof {
                lemma_add_counts(t0, tokens@.take(i as int), side);
                if self.current() != Some(docid) {
                    lemma_tally_postings_empty(self.current()->0);
                }
            }
            let ghost pre = *self;
            self.insert_token(token.field_id, token.position, token.word.as_slice(), exact, docid, side, buffer);
            proof {
                let ghost longer = tokens@.take(i as int + 1);
                assert(longer.drop_last() =~= tokens@.take(i as int));
                assert(longer.last() == tokens@[i as int]);
                assert forall|s: Stream|
                    s != Stream::FidWordCountDocids implies #[trigger] self.postings_of(s)
                        == old(self).postings_of(s).union(tokens_postings(longer, s, side, docid, exact_attributes@)) by {
                    assert(self.postings_of(s) == pre.postings_of(s).union(
                        key_posting(key_for(s, token.word@, token.field_id, token.position, exact), side, docid)));
                    assert(self.postings_of(s) =~= old(self).postings_of(s).union(tokens_postings(longer, s, side, docid, exact_attributes@)));
                }
                assert(self.postings_of(Stream::FidWordCountDocids) =~= old(self).postings_of(Stream::FidWordCountDocids));
            }
            i = i + 1;
        }
        assert(tokens@.take(tokens@.len() as int) =~= tokens@);
    }

    /// Writes the word counts of the current document into the count stream
    /// and empties the tally.
    pub fn flush_fid_word_count(&mut self, buffer: &mut Vec<u8>)
        requires
            old(self).wf(),
        ensures
            final(self).wf(),
            final(self).tally() == Map::<FieldId, (usize, usize)>::empty(),
            final(self).current() == old(self).current(),
            final(self).sorter_memory() == old(self).sorter_memory(),
            forall|s: Stream| #[trigger] final(self).capacity_of(s) == old(self).capacity_of(s),
            forall|s: Stream| #[trigger] final(self).taken_of(s) == old(self).taken_of(s),
            forall|s: Stream|
                s != Stream::FidWordCountDocids ==> #[trigger] final(self).postings_of(s)
                    == old(self).postings_of(s),
            final(self).postings_of(Stream::FidWordCountDocids) == match old(self).current() {
                Some(d) => old(self).postings_of(Stream::FidWordCountDocids).union(
                    tally_postings(old(self).tally(), d),
                ),
                None => old(self).postings_of(Stream::FidWordCountDocids),
            },
    {
        let docid = match self.current_docid {
            Some(d) => d,
            None => {
                assert(self.fid_word_count@ =~= Map::<FieldId, (usize, usize)>::empty());
                return;
            },
        };
        let ghost t = self.fid_word_count@;
        let ghost ks = self.fid_word_count.keys().remaining().unref();
        let mut fids: Vec<FieldId> = Vec::new();
        for fid in it: self.fid_word_count.keys()
            invariant
                it.seq().unref() == ks,
                ks.to_set() == t.dom(),
                fids@ == ks.take(it.index()),
        {
            fids.push(*fid);
        }
        assert(ks.take(ks.len() as int) =~= ks);
        let mut j: usize = 0;
        while j < fids.len()
            invariant
                self.wf(),
                j <= fids@.len(),
                fids@.to_set() == t.dom(),
                self.fid_word_count@ == t,
                self.current_docid == Some(docid),
                self.max_memory == old(self).max_memory,
                self.fid_word_count_docids.capacity() == old(self).fid_word_count_docids.capacity(),
                self.fid_word_count_docids.taken() == old(self).fid_word_count_docids.taken(),
                self.word_fid_docids == old(self).word_fid_docids,
                self.word_docids == old(self).word_docids,
                self.exact_word_docids == old(self).exact_word_docids,
                self.word_position_docids == old(self).word_position_docids,
                self.fid_word_count_docids.postings() == old(self).fid_word_count_docids.postings().union(
                    Set::new(
                        |p: (Seq<u8>, Side, u32)|
                            exists|k: int| 0 <= k < j && #[trigger] fid_postings(fids@[k], t[fids@[k]], docid).contains(p),
                    ),
                ),
            decreases fids.len() - j,
        {
            let fid = fids[j];
            assert(fids@.to_set().contains(fid));
            let counts = match self.fid_word_count.get(&fid) {
                Some(c) => *c,
                None => {
                    assert(false);
                    (0, 0)
                },
            };
            let ghost before = self.fid_word_count_docids.postings();
            let (current_count, new_count) = counts;
            if current_count != new_count {
                if current_count <= MAX_COUNTED_WORDS {
                    write_fid_count_key(buffer, fid, current_count as u8);
                    self.fid_word_count_docids.insert_del_u32(buffer.as_slice(), docid);
                }
                if new_count <= MAX_COUNTED_WORDS {
                    write_fid_count_key(buffer, fid, new_count as u8);
                    self.fid_word_count_docids.insert_add_u32(buffer.as_slice(), docid);
                }
            }
            proof {
                assert(self.fid_word_count_docids.postings() =~= before.union(fid_postings(fid, counts, docid)));
                assert forall|p: (Seq<u8>, Side, u32)|
                    self.fid_word_count_docids.postings().contains(p) implies count_key_in_range(p.0) by {
                    if !before.contains(p) {
                        assert(fid_count_key(fid, current_count as nat).len() == 3);
                        assert(fid_count_key(fid, new_count as nat).len() == 3);
                    }
                }
                let ghost prev = Set::new(
                    |p: (Seq<u8>, Side, u32)|
                        exists|k: int| 0 <= k < j && #[trigger] fid_postings(fids@[k], t[fids@[k]], docid).contains(p),
                );
                let ghost next = Set::new(
                    |p: (Seq<u8>, Side, u32)|
                        exists|k: int| 0 <= k < j + 1 && #[trigger] fid_postings(fids@[k], t[fids@[k]], docid).contains(p),
                );
                assert forall|p: (Seq<u8>, Side, u32)| next.contains(p) <==> prev.union(fid_postings(fid, counts, docid)).contains(p) by {
                    if next.contains(p) {
                        let k = choose|k: int| 0 <= k < j + 1 && #[trigger] fid_postings(fids@[k], t[fids@[k]], docid).contains(p);
                        if k < j {
                            assert(prev.contains(p));
                        }
                    }
                    if fid_postings(fid, counts, docid).contains(p) {
                        assert(fid_postings(fids@[j as int], t[fids@[j as int]], docid).contains(p));
                    }
                }
                assert(next =~= prev.union(fid_postings(fid, counts, docid)));
            }
            j = j + 1;
        }
        proof {
            let ghost all = Set::new(
                |p: (Seq<u8>, Side, u32)|
                    exists|k: int| 0 <= k < fids@.len() && #[trigger] fid_postings(fids@[k], t[fids@[k]], docid).contains(p),
            );
            assert forall|p: (Seq<u8>, Side, u32)| all.contains(p) <==> tally_postings(t, docid).contains(p) by {
                if all.contains(p) {
                    let k = choose|k: int| 0 <= k < fids@.len() && #[trigger] fid_postings(fids@[k], t[fids@[k]], docid).contains(p);
                    assert(fids@.to_set().contains(fids@[k]));
                }
                if tally_postings(t, docid).contains(p) {
                    let f = choose|f: FieldId| t.contains_key(f) && #[trigger] fid_postings(f, t[f], docid).contains(p);
                    assert(fids@.to_set().contains(f));
                    let k = choose|k: int| 0 <= k < fids@.len() && fids@[k] == f;
                    assert(fid_postings(fids@[k], t[fids@[k]], docid).contains(p));
                }
            }
            assert(all =~= tally_postings(t, docid));
        }
        self.fid_word_count.clear();
        assert(self.fid_word_count@ =~= Map::<FieldId, (usize, usize)>::empty());
    }
}

} // verus!

verus! {

/// The extraction of the word posting streams.
pub struct WordDocidsExtractors;

impl WordDocidsExtractors {
    /// Writes the postings of one document change: the tokens of the old
    /// version on the del side, those of the new version on the add side,
    /// and the change of its word counts per field.
    pub fn extract_document_change(
        cached_sorter: &mut WordDocidsCachedSorters,
        exact_attributes: &Vec<Vec<u8>>,
        document_change: &DocumentChange,
    )
        requires
            old(cached_sorter).wf(),
            old(cached_sorter).tally() == Map::<FieldId, (usize, usize)>::empty(),
        ensures
            final(cached_sorter).wf(),
            final(cached_sorter).tally() == Map::<FieldId, (usize, usize)>::empty(),
            final(cached_sorter).sorter_memory() == old(cached_sorter).sorter_memory(),
            forall|s: Stream| #[trigger] final(cached_sorter).capacity_of(s) == old(cached_sorter).capacity_of(s),
            forall|s: Stream| #[trigger] final(cached_sorter).taken_of(s) == old(cached_sorter).taken_of(s),
            forall|s: Stream|
                #[trigger] final(cached_sorter).postings_of(s) == old(cached_sorter).postings_of(s).union(
                    change_postings(*document_change, s, exact_attributes@),
                ),
    {
        let mut buffer: Vec<u8> = Vec::new();
        let ghost empty = Map::<FieldId, (usize, usize)>::empty();
        let ghost none = Seq::<DocumentToken>::empty();
        let docid = match document_change {
            DocumentChange::Deletion { docid, current } => {
                cached_sorter.insert_tokens(current, Side::Del, *docid, exact_attributes, &mut buffer);
                *docid
            },
            DocumentChange::Update { docid, current, new } => {
                cached_sorter.insert_tokens(current, Side::Del, *docid, exact_attributes, &mut buffer);
                let n = current.len();
                proof {
                    assert(current@.len() == n);
                    lemma_add_counts(empty, current@, Side::Del);
                }
                cached_sorter.insert_tokens(new, Side::Add, *docid, exact_attributes, &mut buffer);
                *docid
            },
            DocumentChange::Insertion { docid, new } => {
                cached_sorter.insert_tokens(new, Side::Add, *docid, exact_attributes, &mut buffer);
                *docid
            },
        };
        proof {
            let c = *document_change;
            assert(add_counts(empty, none, Side::Del) == empty);
            assert(cached_sorter.tally() == change_tally(c));
            assert forall|s: Stream| s != Stream::FidWordCountDocids implies #[trigger] cached_sorter.postings_of(s)
                == old(cached_sorter).postings_of(s).union(change_postings(c, s, exact_attributes@)) by {
                assert(tokens_postings(none, s, Side::Del, docid, exact_attributes@) == Set::<(Seq<u8>, Side, u32)>::empty());
                assert(tokens_postings(none, s, Side::Add, docid, exact_attributes@) == Set::<(Seq<u8>, Side, u32)>::empty());
                assert(cached_sorter.postings_of(s) =~= old(cached_sorter).postings_of(s).union(change_postings(c, s, exact_attributes@)));
            }
            lemma_tally_postings_empty(docid);
            if let Some(cur) = cached_sorter.current() {
                lemma_tally_postings_empty(cur);
            }
        }
        let ghost pre = *cached_sorter;
        cached_sorter.flush_fid_word_count(&mut buffer);
        proof {
            let c = *document_change;
            assert(cached_sorter.postings_of(Stream::FidWordCountDocids) =~= old(cached_sorter).postings_of(
                Stream::FidWordCountDocids).union(change_postings(c, Stream::FidWordCountDocids, exact_attributes@)));
            assert forall|s: Stream| s != Stream::FidWordCountDocids implies #[trigger] cached_sorter.postings_of(s)
                == old(cached_sorter).postings_of(s).union(change_postings(c, s, exact_attributes@)) by {
                assert(cached_sorter.postings_of(s) == pre.postings_of(s));
            }
        }
    }
}

} // verus!

verus! {

/// What a worker hands to its sorters: the values of each stream.
pub struct WordDocidsSorterEntries {
    pub word_fid_docids: Vec<KeyDocids>,
    pub word_docids: Vec<KeyDocids>,
    pub exact_word_docids: Vec<KeyDocids>,
    pub word_position_docids: Vec<KeyDocids>,
    pub fid_word_count_docids: Vec<KeyDocids>,
}

impl WordDocidsSorterEntries {
    /// The values of `stream`.
    pub open spec fn entries_of(&self, stream: Stream) -> Seq<KeyDocids> {
        match stream {
            Stream::WordDocids => self.word_docids@,
            Stream::ExactWordDocids => self.exact_word_docids@,
            Stream::WordFidDocids => self.word_fid_docids@,
            Stream::WordPositionDocids => self.word_position_docids@,
            Stream::FidWordCountDocids => self.fid_word_count_docids@,
        }
    }
}

impl WordDocidsCachedSorters {
    /// Hands out the entries that left the five caches, so that their
    /// sorters can take them while the pass goes on.
    pub fn take_spilled(&mut self) -> (r: WordDocidsSorterEntries)
        requires
            old(self).wf(),
        ensures
            final(self).wf(),
            final(self).tally() == old(self).tally(),
            final(self).current() == old(self).current(),
            final(self).sorter_memory() == old(self).sorter_memory(),
            forall|s: Stream| #[trigger] final(self).capacity_of(s) == old(self).capacity_of(s),
            forall|s: Stream| #[trigger] final(self).postings_of(s) == old(self).postings_of(s),
            forall|s: Stream|
                #[trigger] final(self).taken_of(s) == old(self).taken_of(s).union(
                    entries_postings(r.entries_of(s)),
                ),
            forall|s: Stream| #[trigger] r.entries_of(s) == old(self).pending_of(s),
            forall|s: Stream| #[trigger] final(self).pending_of(s) == Seq::<KeyDocids>::empty(),
    {
        WordDocidsSorterEntries {
            word_fid_docids: self.word_fid_docids.take_spilled(),
            word_docids: self.word_docids.take_spilled(),
            exact_word_docids: self.exact_word_docids.take_spilled(),
            word_position_docids: self.word_position_docids.take_spilled(),
            fid_word_count_docids: self.fid_word_count_docids.take_spilled(),
        }
    }

    /// The memory budget of each sorter.
    pub fn sorter_memory_budget(&self) -> (r: Option<usize>)
        ensures
            r == self.sorter_memory(),
    {
        self.max_memory
    }

    /// Flushes the five caches, handing out every value not handed out yet.
    pub fn into_sorters(self) -> (r: WordDocidsSorterEntries)
        ensures
            forall|s: Stream|
                entries_postings(#[trigger] r.entries_of(s)).union(self.taken_of(s)) == self.postings_of(s),
    {
        WordDocidsSorterEntries {
            word_fid_docids: self.word_fid_docids.into_sorter(),
            word_docids: self.word_docids.into_sorter(),
            exact_word_docids: self.exact_word_docids.into_sorter(),
            word_position_docids: self.word_position_docids.into_sorter(),
            fid_word_count_docids: self.fid_word_count_docids.into_sorter(),
        }
    }
}

/// The settings that every worker of an extraction pass shares.
pub struct WordDocidsExtractorData {
    pub exact_attributes: Vec<Vec<u8>>,
    pub max_memory: Option<usize>,
}

/// The number of entries of each cache of a worker.
pub const CACHE_CAPACITY: usize = 200_000;

impl WordDocidsExtractorData {
    /// The empty sorters of a new worker.
    pub fn init_data(&self) -> (r: WordDocidsCachedSorters)
        ensures
            r.wf(),
            forall|s: Stream| r.postings_of(s) == Set::<(Seq<u8>, Side, u32)>::empty(),
            r.tally() == Map::<FieldId, (usize, usize)>::empty(),
            r.current() is None,
            forall|s: Stream| #[trigger] r.capacity_of(s) == CACHE_CAPACITY,
            forall|s: Stream| #[trigger] r.taken_of(s) == Set::<(Seq<u8>, Side, u32)>::empty(),
            r.sorter_memory() == match self.max_memory {
                Some(m) => Some((m / 4) as usize),
                None => None,
            },
    {
        WordDocidsCachedSorters::new(self.max_memory, CACHE_CAPACITY)
    }

    /// Writes the postings of a sequence of document changes, one after the other.
    pub fn process(&self, changes: &Vec<DocumentChange>, data: &mut WordDocidsCachedSorters)
        requires
            old(data).wf(),
            old(data).tally() == Map::<FieldId, (usize, usize)>::empty(),
        ensures
            final(data).wf(),
            final(data).tally() == Map::<FieldId, (usize, usize)>::empty(),
            final(data).sorter_memory() == old(data).sorter_memory(),
            forall|s: Stream| #[trigger] final(data).capacity_of(s) == old(data).capacity_of(s),
            forall|s: Stream| #[trigger] final(data).taken_of(s) == old(data).taken_of(s),
            forall|s: Stream|
                #[trigger] final(data).postings_of(s) == old(data).postings_of(s).union(
                    changes_postings(changes@, s, self.exact_attributes@),
                ),
    {
        let mut i: usize = 0;
        while i < changes.len()
            invariant
                i <= changes@.len(),
                data.wf(),
                data.tally() == Map::<FieldId, (usize, usize)>::empty(),
                data.sorter_memory() == old(data).sorter_memory(),
                forall|s: Stream| #[trigger] data.capacity_of(s) == old(data).capacity_of(s),
                forall|s: Stream| #[trigger] data.taken_of(s) == old(data).taken_of(s),
                forall|s: Stream|
                    #[trigger] data.postings_of(s) == old(data).postings_of(s).union(
                        changes_postings(changes@.take(i as int), s, self.exact_attributes@),
                    ),
            decreases changes.len() - i,
        {
            let ghost pre = *data;
            WordDocidsExtractors::extract_document_change(data, &self.exact_attributes, &changes[i]);
            proof {
                let longer = changes@.take(i as int + 1);
                assert(longer.drop_last() =~= changes@.take(i as int));
                assert forall|s: Stream| #[trigger] data.postings_of(s) == old(data).postings_of(s).union(
                        changes_postings(longer, s, self.exact_attributes@)) by {
                    assert(data.postings_of(s) == pre.postings_of(s).union(
                        change_postings(changes@[i as int], s, self.exact_attributes@)));
                    assert(data.postings_of(s) =~= old(data).postings_of(s).union(
                        changes_postings(longer, s, self.exact_attributes@)));
                }
            }
            i = i + 1;
        }
        assert(changes@.take(changes@.len() as int) =~= changes@);
    }
}

} // verus!

verus! {

/// A token list writes `(key, side, docid)` into `stream` exactly when one of
/// its tokens has that key there: the postings of a version are the keys of
/// its tokens, and nothing else.
pub proof fn lemma_tokens_postings(
    s: Seq<DocumentToken>,
    stream: Stream,
    side: Side,
    docid: DocumentId,
    exact_attributes: Seq<Vec<u8>>,
    p: (Seq<u8>, Side, u32),
)
    ensures
        tokens_postings(s, stream, side, docid, exact_attributes).contains(p) <==> (p.1 == side && p.2
            == docid && exists|i: int|
            0 <= i < s.len() && #[trigger] token_key(s[i], stream, exact_attributes) == Some(p.0)),
    decreases s.len(),
{
    if s.len() > 0 {
        let s0 = s.drop_last();
        lemma_tokens_postings(s0, stream, side, docid, exact_attributes, p);
        if exists|i: int| 0 <= i < s.len() && #[trigger] token_key(s[i], stream, exact_attributes) == Some(p.0) {
            let i = choose|i: int| 0 <= i < s.len() && #[trigger] token_key(s[i], stream, exact_attributes) == Some(p.0);
            if i < s0.len() {
                assert(token_key(s0[i], stream, exact_attributes) == Some(p.0));
            }
        }
        if exists|i: int| 0 <= i < s0.len() && #[trigger] token_key(s0[i], stream, exact_attributes) == Some(p.0) {
            let i = choose|i: int| 0 <= i < s0.len() && #[trigger] token_key(s0[i], stream, exact_attributes) == Some(p.0);
            assert(token_key(s[i], stream, exact_attributes) == Some(p.0));
        }
    }
}

/// For every word stream, a change adds document `d` to the add side of a
/// key exactly when `d` is the changed document and a token of its new
/// version has that key, and to the del side exactly when `d` is the changed
/// document and a token of its old version has that key.
pub proof fn lemma_delta_correctness(
    change: DocumentChange,
    stream: Stream,
    exact_attributes: Seq<Vec<u8>>,
    key: Seq<u8>,
    d: DocumentId,
)
    requires
        stream != Stream::FidWordCountDocids,
    ensures
        change_postings(change, stream, exact_attributes).contains((key, Side::Add, d)) <==> (d
            == change.spec_docid() && exists|i: int|
            0 <= i < change.new_tokens().len() && #[trigger] token_key(
                change.new_tokens()[i],
                stream,
                exact_attributes,
            ) == Some(key)),
        change_postings(change, stream, exact_attributes).contains((key, Side::Del, d)) <==> (d
            == change.spec_docid() && exists|i: int|
            0 <= i < change.old_tokens().len() && #[trigger] token_key(
                change.old_tokens()[i],
                stream,
                exact_attributes,
            ) == Some(key)),
{
    let docid = change.spec_docid();
    lemma_tokens_postings(change.old_tokens(), stream, Side::Del, docid, exact_attributes, (key, Side::Add, d));
    lemma_tokens_postings(change.new_tokens(), stream, Side::Add, docid, exact_attributes, (key, Side::Add, d));
    lemma_tokens_postings(change.old_tokens(), stream, Side::Del, docid, exact_attributes, (key, Side::Del, d));
    lemma_tokens_postings(change.new_tokens(), stream, Side::Add, docid, exact_attributes, (key, Side::Del, d));
}

/// On every word stream, an update writes what a deletion of the old
/// version followed by an insertion of the new one writes.
pub proof fn lemma_update_is_deletion_then_insertion(
    docid: DocumentId,
    current: Vec<DocumentToken>,
    new: Vec<DocumentToken>,
    stream: Stream,
    exact_attributes: Seq<Vec<u8>>,
)
    requires
        stream != Stream::FidWordCountDocids,
    ensures
        change_postings(DocumentChange::Update { docid, current, new }, stream, exact_attributes)
            == changes_postings(
            seq![DocumentChange::Deletion { docid, current }, DocumentChange::Insertion { docid, new }],
            stream,
            exact_attributes,
        ),
{
    let del = DocumentChange::Deletion { docid, current };
    let ins = DocumentChange::Insertion { docid, new };
    let both = seq![del, ins];
    assert(both.drop_last() =~= seq![del]);
    assert(seq![del].drop_last() =~= Seq::<DocumentChange>::empty());
    let none = Seq::<DocumentToken>::empty();
    assert(tokens_postings(none, stream, Side::Del, docid, exact_attributes) == Set::<(Seq<u8>, Side, u32)>::empty());
    assert(tokens_postings(none, stream, Side::Add, docid, exact_attributes) == Set::<(Seq<u8>, Side, u32)>::empty());
    assert(both.last() == ins);
    assert(seq![del].last() == del);
    assert(changes_postings(Seq::<DocumentChange>::empty(), stream, exact_attributes) == Set::<(Seq<u8>, Side, u32)>::empty());
    assert(changes_postings(seq![del], stream, exact_attributes) =~= change_postings(del, stream, exact_attributes));
    assert(changes_postings(both, stream, exact_attributes) == changes_postings(seq![del], stream, exact_attributes).union(
        change_postings(ins, stream, exact_attributes)));
    assert(change_postings(DocumentChange::Update { docid, current, new }, stream, exact_attributes)
        =~= changes_postings(both, stream, exact_attributes));
}

/// The count postings of a change belong to the changed document and are
/// computed from its own tokens alone: for each field whose number of tokens
/// differs between the old and the new version, the old number leaves and
/// the new one joins, each only if it is at most 30.
pub proof fn lemma_count_postings_own_document(change: DocumentChange, exact_attributes: Seq<Vec<u8>>)
    requires
        change.old_tokens().len() <= usize::MAX,
        change.new_tokens().len() <= usize::MAX,
    ensures
        change_postings(change, Stream::FidWordCountDocids, exact_attributes) == counts_postings(
            change.old_tokens(),
            change.new_tokens(),
            change.spec_docid(),
        ),
        forall|p: (Seq<u8>, Side, u32)|
            change_postings(change, Stream::FidWordCountDocids, exact_attributes).contains(p) ==> p.2
                == change.spec_docid(),
{
    let d = change.spec_docid();
    let t = change_tally(change);
    let target = counts_postings(change.old_tokens(), change.new_tokens(), d);
    assert forall|p: (Seq<u8>, Side, u32)| tally_postings(t, d).contains(p) <==> target.contains(p) by {
        if tally_postings(t, d).contains(p) {
            let f = choose|f: FieldId| t.contains_key(f) && #[trigger] fid_postings(f, t[f], d).contains(p);
            lemma_change_tally(change, f);
            assert(fid_postings(
                f,
                (count_fid(change.old_tokens(), f) as usize, count_fid(change.new_tokens(), f) as usize),
                d,
            ).contains(p));
        }
        if target.contains(p) {
            let f = choose|f: FieldId|
                #[trigger] fid_postings(
                    f,
                    (count_fid(change.old_tokens(), f) as usize, count_fid(change.new_tokens(), f) as usize),
                    d,
                ).contains(p);
            lemma_change_tally(change, f);
            assert(t.contains_key(f));
            assert(fid_postings(f, t[f], d).contains(p));
        }
    }
    assert(tally_postings(t, d) =~= target);
    assert forall|p: (Seq<u8>, Side, u32)|
        change_postings(change, Stream::FidWordCountDocids, exact_attributes).contains(p) implies p.2 == d by {
        lemma_tally_postings_docid(t, d, p);
    }
}

proof fn lemma_count_fid_bound(s: Seq<DocumentToken>, f: FieldId)
    ensures
        count_fid(s, f) <= s.len(),
    decreases s.len(),
{
    if s.len() > 0 {
        lemma_count_fid_bound(s.drop_last(), f);
    }
}

/// A count key of field `f` and count `c` is written for `docid` on the add
/// side exactly when the field's number of tokens changed and is `c` in the
/// new version, and on the del side exactly when it changed and is `c` in the
/// old version.
pub proof fn lemma_counts_postings_membership(
    old: Seq<DocumentToken>,
    new: Seq<DocumentToken>,
    docid: DocumentId,
    f: FieldId,
    c: nat,
)
    requires
        old.len() <= usize::MAX,
        new.len() <= usize::MAX,
        c <= MAX_COUNTED_WORDS,
    ensures
        counts_postings(old, new, docid).contains((fid_count_key(f, c), Side::Add, docid)) <==> (
        count_fid(old, f) != count_fid(new, f) && count_fid(new, f) == c),
        counts_postings(old, new, docid).contains((fid_count_key(f, c), Side::Del, docid)) <==> (
        count_fid(old, f) != count_fid(new, f) && count_fid(old, f) == c),
{
    lemma_count_fid_bound(old, f);
    lemma_count_fid_bound(new, f);
    let cs = counts_postings(old, new, docid);
    assert forall|side: Side| #![auto] cs.contains((fid_count_key(f, c), side, docid)) implies (
        count_fid(old, f) != count_fid(new, f) && (if side == Side::Add { count_fid(new, f) } else {
            count_fid(old, f)
        }) == c) by {
        let p = (fid_count_key(f, c), side, docid);
        let g = choose|g: FieldId|
            #[trigger] fid_postings(g, (count_fid(old, g) as usize, count_fid(new, g) as usize), docid).contains(p);
        lemma_count_fid_bound(old, g);
        lemma_count_fid_bound(new, g);
        if side == Side::Add {
            lemma_fid_count_key_injective(f, c, g, count_fid(new, g));
        } else {
            lemma_fid_count_key_injective(f, c, g, count_fid(old, g));
        }
    }
    if count_fid(old, f) != count_fid(new, f) && count_fid(new, f) == c {
        assert(fid_postings(f, (count_fid(old, f) as usize, count_fid(new, f) as usize), docid).contains(
            (fid_count_key(f, c), Side::Add, docid),
        ));
    }
    if count_fid(old, f) != count_fid(new, f) && count_fid(old, f) == c {
        assert(fid_postings(f, (count_fid(old, f) as usize, count_fid(new, f) as usize), docid).contains(
            (fid_count_key(f, c), Side::Del, docid),
        ));
    }
}

/// Every count posting names a field and a count of at most 30.
pub proof fn lemma_counts_postings_keys(
    old: Seq<DocumentToken>,
    new: Seq<DocumentToken>,
    docid: DocumentId,
    p: (Seq<u8>, Side, u32),
)
    requires
        old.len() <= usize::MAX,
        new.len() <= usize::MAX,
        counts_postings(old, new, docid).contains(p),
    ensures
        p.2 == docid,
        exists|f: FieldId, c: nat| c <= MAX_COUNTED_WORDS && p.0 == #[trigger] fid_count_key(f, c),
{
    let g = choose|g: FieldId|
        #[trigger] fid_postings(g, (count_fid(old, g) as usize, count_fid(new, g) as usize), docid).contains(p);
    lemma_count_fid_bound(old, g);
    lemma_count_fid_bound(new, g);
    if p.1 == Side::Add {
        assert(p.0 == fid_count_key(g, count_fid(new, g)));
    } else {
        assert(p.0 == fid_count_key(g, count_fid(old, g)));
    }
}

/// On the count stream an update and a deletion followed by an insertion
/// have the same net effect on every key: the document ends up only added,
/// or only removed, under the same keys. (They are not equal as sets: the
/// pair may write a key on both sides where the update writes nothing.)
pub proof fn lemma_update_count_net_effect(
    docid: DocumentId,
    current: Vec<DocumentToken>,
    new: Vec<DocumentToken>,
    exact_attributes: Seq<Vec<u8>>,
    key: Seq<u8>,
)
    requires
        current@.len() <= usize::MAX,
        new@.len() <= usize::MAX,
    ensures
        ({
            let u = change_postings(
                DocumentChange::Update { docid, current, new },
                Stream::FidWordCountDocids,
                exact_attributes,
            );
            let di = changes_postings(
                seq![DocumentChange::Deletion { docid, current }, DocumentChange::Insertion { docid, new }],
                Stream::FidWordCountDocids,
                exact_attributes,
            );
            &&& (u.contains((key, Side::Add, docid)) && !u.contains((key, Side::Del, docid))) <==> (di.contains(
                (key, Side::Add, docid),
            ) && !di.contains((key, Side::Del, docid)))
            &&& (u.contains((key, Side::Del, docid)) && !u.contains((key, Side::Add, docid))) <==> (di.contains(
                (key, Side::Del, docid),
            ) && !di.contains((key, Side::Add, docid)))
        }),
{
    let upd = DocumentChange::Update { docid, current, new };
    let del = DocumentChange::Deletion { docid, current };
    let ins = DocumentChange::Insertion { docid, new };
    let both = seq![del, ins];
    let none = Seq::<DocumentToken>::empty();
    let st = Stream::FidWordCountDocids;
    assert(both.drop_last() =~= seq![del]);
    assert(seq![del].drop_last() =~= Seq::<DocumentChange>::empty());
    assert(both.last() == ins);
    assert(seq![del].last() == del);
    assert(changes_postings(Seq::<DocumentChange>::empty(), st, exact_attributes) == Set::<(Seq<u8>, Side, u32)>::empty());
    assert(changes_postings(seq![del], st, exact_attributes) =~= change_postings(del, st, exact_attributes));
    lemma_count_postings_own_document(upd, exact_attributes);
    lemma_count_postings_own_document(del, exact_attributes);
    lemma_count_postings_own_document(ins, exact_attributes);
    let cu = counts_postings(current@, new@, docid);
    let cd = counts_postings(current@, none, docid);
    let ci = counts_postings(none, new@, docid);
    let di = changes_postings(both, st, exact_attributes);
    assert(di == cd.union(ci));
    if exists|f: FieldId, c: nat| c <= MAX_COUNTED_WORDS && key == #[trigger] fid_count_key(f, c) {
        let (f, c) = choose|f: FieldId, c: nat| c <= MAX_COUNTED_WORDS && key == #[trigger] fid_count_key(f, c);
        assert(count_fid(none, f) == 0);
        lemma_counts_postings_membership(current@, new@, docid, f, c);
        lemma_counts_postings_membership(current@, none, docid, f, c);
        lemma_counts_postings_membership(none, new@, docid, f, c);
    } else {
        assert forall|sd: Side| !cu.contains((key, sd, docid)) && !cd.contains((key, sd, docid)) && !ci.contains(
            (key, sd, docid),
        ) by {
            if cu.contains((key, sd, docid)) {
                lemma_counts_postings_keys(current@, new@, docid, (key, sd, docid));
            }
            if cd.contains((key, sd, docid)) {
                lemma_counts_postings_keys(current@, none, docid, (key, sd, docid));
            }
            if ci.contains((key, sd, docid)) {
                lemma_counts_postings_keys(none, new@, docid, (key, sd, docid));
            }
        }
    }
}

/// No key of the count stream holds a count over 30.
pub proof fn lemma_count_ceiling(sorters: WordDocidsCachedSorters, p: (Seq<u8>, Side, u32))
    requires
        sorters.wf(),
        sorters.postings_of(Stream::FidWordCountDocids).contains(p),
    ensures
        p.0.len() == 3,
        p.0[2] <= MAX_COUNTED_WORDS,
{
}

/// Splitting a sequence of changes in two and merging what each part writes
/// gives what the whole sequence writes, whichever part comes first.
pub proof fn lemma_partition(
    a: Seq<DocumentChange>,
    b: Seq<DocumentChange>,
    stream: Stream,
    exact_attributes: Seq<Vec<u8>>,
)
    ensures
        changes_postings(a + b, stream, exact_attributes) == changes_postings(a, stream, exact_attributes).union(
            changes_postings(b, stream, exact_attributes),
        ),
        changes_postings(a + b, stream, exact_attributes) == changes_postings(b + a, stream, exact_attributes),
    decreases b.len(),
{
    lemma_concat(a, b, stream, exact_attributes);
    lemma_concat(b, a, stream, exact_attributes);
    assert(changes_postings(a, stream, exact_attributes).union(changes_postings(b, stream, exact_attributes))
        =~= changes_postings(b, stream, exact_attributes).union(changes_postings(a, stream, exact_attributes)));
}

proof fn lemma_concat(
    a: Seq<DocumentChange>,
    b: Seq<DocumentChange>,
    stream: Stream,
    exact_attributes: Seq<Vec<u8>>,
)
    ensures
        changes_postings(a + b, stream, exact_attributes) == changes_postings(a, stream, exact_attributes).union(
            changes_postings(b, stream, exact_attributes),
        ),
    decreases b.len(),
{
    if b.len() == 0 {
        assert(a + b =~= a);
        assert(changes_postings(a, stream, exact_attributes).union(changes_postings(b, stream, exact_attributes))
            =~= changes_postings(a, stream, exact_attributes));
    } else {
        lemma_concat(a, b.drop_last(), stream, exact_attributes);
        assert((a + b).drop_last() =~= a + b.drop_last());
        assert((a + b).last() == b.last());
        assert(changes_postings(a + b, stream, exact_attributes) =~= changes_postings(a, stream, exact_attributes).union(
            changes_postings(b, stream, exact_attributes)));
    }
}

/// A token goes to the exact word stream exactly when its field is, or is
/// nested under, an exact attribute, and to the plain word stream otherwise;
/// never to both.
pub proof fn lemma_exact_routing(t: DocumentToken, exact_attributes: Seq<Vec<u8>>)
    ensures
        token_key(t, Stream::ExactWordDocids, exact_attributes) is Some <==> is_exact(t.field_name@, exact_attributes),
        token_key(t, Stream::WordDocids, exact_attributes) is Some <==> !is_exact(t.field_name@, exact_attributes),
        token_key(t, Stream::ExactWordDocids, exact_attributes) is Some ==> token_key(t, Stream::ExactWordDocids, exact_attributes) == Some(t.word@),
        token_key(t, Stream::WordDocids, exact_attributes) is Some ==> token_key(t, Stream::WordDocids, exact_attributes) == Some(t.word@),
{
}

} // verus!

verus! {

/// A single write goes to the exact word stream when it is flagged exact, to
/// the plain word stream otherwise, and never to both.
pub proof fn lemma_write_routing(word: Seq<u8>, fid: FieldId, position: u16, exact: bool)
    ensures
        key_for(Stream::ExactWordDocids, word, fid, position, exact) == if exact {
            Some(word)
        } else {
            None
        },
        key_for(Stream::WordDocids, word, fid, position, exact) == if exact {
            None
        } else {
            Some(word)
        },
{
}

/// After a switch to another document the tally holds only the new token:
/// `(0, 1)` for an added one, `(1, 0)` for a removed one.
pub proof fn lemma_fresh_tally(fid: FieldId)
    ensures
        bump(Map::empty(), fid, Side::Add) == map![fid => (0usize, 1usize)],
        bump(Map::empty(), fid, Side::Del) == map![fid => (1usize, 0usize)],
{
    assert(bump(Map::empty(), fid, Side::Add) =~= map![fid => (0usize, 1usize)]);
    assert(bump(Map::empty(), fid, Side::Del) =~= map![fid => (1usize, 0usize)]);
}

} // verus!
