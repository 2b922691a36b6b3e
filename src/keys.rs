//! Layout of the keys of the posting streams.

use vstd::prelude::*;

verus! {

/// The separator between a field path and a nested key (`.`).
pub const PATH_SEPARATOR: u8 = 46;

/// Big-endian bytes of a 16-bit integer.
pub open spec fn be_u16(x: u16) -> Seq<u8> {
    seq![(x / 256) as u8, (x % 256) as u8]
}

/// `word ‖ 0x00 ‖ be(x)`: the key of a word in a field or at a position.
pub open spec fn word_u16_key(word: Seq<u8>, x: u16) -> Seq<u8> {
    word + seq![0u8] + be_u16(x)
}

/// `be(fid) ‖ u8(count)`: the key of a field holding `count` words.
pub open spec fn fid_count_key(fid: u16, count: nat) -> Seq<u8> {
    be_u16(fid).push(count as u8)
}

/// `selector` is `key` itself or a path nested under `key`.
pub open spec fn spec_contained_in(selector: Seq<u8>, key: Seq<u8>) -> bool {
    &&& key.len() <= selector.len()
    &&& selector.subrange(0, key.len() as int) == key
    &&& (selector.len() == key.len() || selector[key.len() as int] == PATH_SEPARATOR)
}

/// `a` comes strictly before `b` in byte-wise lexicographic order.
pub open spec fn lex_lt(a: Seq<u8>, b: Seq<u8>) -> bool {
    exists|i: int|
        0 <= i <= a.len() && i <= b.len() && a.take(i) == b.take(i) && ((i == a.len() && i
            < b.len()) || (i < a.len() && i < b.len() && a[i] < b[i]))
}

/// The bytes hold no `0x00`.
pub open spec fn no_nul(w: Seq<u8>) -> bool {
    forall|i: int| 0 <= i < w.len() ==> w[i] != 0
}

/// Writes `word ‖ 0x00 ‖ be(x)` into `buffer`, replacing what it held.
pub fn write_word_u16_key(buffer: &mut Vec<u8>, word: &[u8], x: u16)
    ensures
        final(buffer)@ == word_u16_key(word@, x),
{
    buffer.clear();
    buffer.extend_from_slice(word);
    buffer.push(0);
    buffer.push((x / 256) as u8);
    buffer.push((x % 256) as u8);
    assert(buffer@ =~= word_u16_key(word@, x));
}

/// Writes `be(fid) ‖ u8(count)` into `buffer`, replacing what it held.
pub fn write_fid_count_key(buffer: &mut Vec<u8>, fid: u16, count: u8)
    ensures
        final(buffer)@ == fid_count_key(fid, count as nat),
{
    buffer.clear();
    buffer.push((fid / 256) as u8);
    buffer.push((fid % 256) as u8);
    buffer.push(count);
    assert(buffer@ =~= fid_count_key(fid, count as nat));
}

/// Whether the field path `selector` is `key` or nested under it.
pub fn contained_in(selector: &[u8], key: &[u8]) -> (r: bool)
    ensures
        r == spec_contained_in(selector@, key@),
{
    if key.len() > selector.len() {
        return false;
    }
    let mut i: usize = 0;
    while i < key.len()
        invariant
            key@.len() <= selector@.len(),
            i <= key@.len(),
            selector@.subrange(0, i as int) == key@.subrange(0, i as int),
        decreases key.len() - i,
    {
        if selector[i] != key[i] {
            assert(selector@.subrange(0, key@.len() as int)[i as int] != key@[i as int]);
            return false;
        }
        i = i + 1;
        assert(selector@.subrange(0, i as int) =~= key@.subrange(0, i as int));
    }
    assert(key@.subrange(0, key@.len() as int) =~= key@);
    selector.len() == key.len() || selector[key.len()] == PATH_SEPARATOR
}

/// Appending `0x00` and a 16-bit integer to words keeps their order, as long
/// as the larger word holds no `0x00`.
pub proof fn lemma_word_u16_key_order(w1: Seq<u8>, w2: Seq<u8>, x1: u16, x2: u16)
    requires
        lex_lt(w1, w2),
        no_nul(w2),
    ensures
        lex_lt(word_u16_key(w1, x1), word_u16_key(w2, x2)),
{
    let i = choose|i: int|
        0 <= i <= w1.len() && i <= w2.len() && w1.take(i) == w2.take(i) && ((i == w1.len() && i
            < w2.len()) || (i < w1.len() && i < w2.len() && w1[i] < w2[i]));
    let k1 = word_u16_key(w1, x1);
    let k2 = word_u16_key(w2, x2);
    assert(k1.take(i) =~= w1.take(i));
    assert(k2.take(i) =~= w2.take(i));
    if i == w1.len() {
        assert(k1[i] == 0);
        assert(k2[i] == w2[i]);
    } else {
        assert(k1[i] == w1[i]);
        assert(k2[i] == w2[i]);
    }
}

/// The keys of one word are ordered by their 16-bit integers.
pub proof fn lemma_same_word_key_order(w: Seq<u8>, x1: u16, x2: u16)
    requires
        x1 < x2,
    ensures
        lex_lt(word_u16_key(w, x1), word_u16_key(w, x2)),
{
    let k1 = word_u16_key(w, x1);
    let k2 = word_u16_key(w, x2);
    let n = w.len() as int;
    if x1 / 256 < x2 / 256 {
        assert(k1.take(n + 1) =~= k2.take(n + 1));
        assert(k1[n + 1] == (x1 / 256) as u8);
        assert(k2[n + 1] == (x2 / 256) as u8);
    } else {
        assert(x1 / 256 == x2 / 256);
        assert(x1 % 256 < x2 % 256);
        assert(k1.take(n + 2) =~= k2.take(n + 2));
        assert(k1[n + 2] == (x1 % 256) as u8);
        assert(k2[n + 2] == (x2 % 256) as u8);
    }
}
/// Count keys with counts under 256 name their field and count uniquely.
pub proof fn lemma_fid_count_key_injective(f1: u16, c1: nat, f2: u16, c2: nat)
    requires
        c1 < 256,
        c2 < 256,
        fid_count_key(f1, c1) == fid_count_key(f2, c2),
    ensures
        f1 == f2,
        c1 == c2,
{
    let k1 = fid_count_key(f1, c1);
    let k2 = fid_count_key(f2, c2);
    assert(k1[0] == k2[0] && k1[1] == k2[1] && k1[2] == k2[2]);
    assert(f1 / 256 == f2 / 256);
    assert(f1 % 256 == f2 % 256);
}
} // verus!
