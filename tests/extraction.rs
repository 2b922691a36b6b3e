use std::collections::BTreeSet;

use milli::{
    bucketed_position, contained_in, is_exact_attribute, write_fid_count_key, write_word_u16_key,
    CboCachedSorter, DocumentChange, DocumentToken, KeyDocids, Side, WordDocidsExtractorData,
    WordDocidsExtractors, WordDocidsSorterEntries,
};

type Postings = BTreeSet<(Vec<u8>, bool, u32)>;

fn postings(entries: &[KeyDocids]) -> Postings {
    let mut out = BTreeSet::new();
    for e in entries {
        for d in &e.del {
            out.insert((e.key.clone(), false, *d));
        }
        for d in &e.add {
            out.insert((e.key.clone(), true, *d));
        }
    }
    out
}

struct Streams {
    word_docids: Postings,
    exact_word_docids: Postings,
    word_fid_docids: Postings,
    word_position_docids: Postings,
    fid_word_count_docids: Postings,
}

fn streams(e: &WordDocidsSorterEntries) -> Streams {
    Streams {
        word_docids: postings(&e.word_docids),
        exact_word_docids: postings(&e.exact_word_docids),
        word_fid_docids: postings(&e.word_fid_docids),
        word_position_docids: postings(&e.word_position_docids),
        fid_word_count_docids: postings(&e.fid_word_count_docids),
    }
}

fn tok(field: &str, fid: u16, pos: u16, word: &str) -> DocumentToken {
    DocumentToken {
        field_name: field.as_bytes().to_vec(),
        field_id: fid,
        position: pos,
        word: word.as_bytes().to_vec(),
    }
}

fn field_tokens(field: &str, fid: u16, text: &str) -> Vec<DocumentToken> {
    text.split(' ').enumerate().map(|(i, w)| tok(field, fid, i as u16, w)).collect()
}

fn run(exact: &[&str], changes: Vec<DocumentChange>) -> Streams {
    let data = WordDocidsExtractorData {
        exact_attributes: exact.iter().map(|a| a.as_bytes().to_vec()).collect(),
        max_memory: None,
    };
    let mut sorters = data.init_data();
    data.process(&changes, &mut sorters);
    streams(&sorters.into_sorters())
}

fn p(key: &[u8], add: bool, d: u32) -> (Vec<u8>, bool, u32) {
    (key.to_vec(), add, d)
}

fn set(items: Vec<(Vec<u8>, bool, u32)>) -> Postings {
    items.into_iter().collect()
}

#[test]
fn single_insertion() {
    let s = run(&[], vec![DocumentChange::Insertion { docid: 1, new: field_tokens("title", 0, "hello world") }]);
    assert_eq!(s.word_docids, set(vec![p(b"hello", true, 1), p(b"world", true, 1)]));
    assert_eq!(
        s.word_fid_docids,
        set(vec![p(b"hello\x00\x00\x00", true, 1), p(b"world\x00\x00\x00", true, 1)])
    );
    assert_eq!(
        s.word_position_docids,
        set(vec![p(b"hello\x00\x00\x00", true, 1), p(b"world\x00\x00\x01", true, 1)])
    );
    // The old version held no word: the count 0 leaves, the count 2 joins.
    assert_eq!(s.fid_word_count_docids, set(vec![p(b"\x00\x00\x00", false, 1), p(b"\x00\x00\x02", true, 1)]));
    assert!(s.exact_word_docids.is_empty());
}

#[test]
fn single_deletion() {
    let s = run(&[], vec![DocumentChange::Deletion { docid: 1, current: field_tokens("title", 0, "hello world") }]);
    assert_eq!(s.word_docids, set(vec![p(b"hello", false, 1), p(b"world", false, 1)]));
    assert_eq!(
        s.word_fid_docids,
        set(vec![p(b"hello\x00\x00\x00", false, 1), p(b"world\x00\x00\x00", false, 1)])
    );
    assert_eq!(
        s.word_position_docids,
        set(vec![p(b"hello\x00\x00\x00", false, 1), p(b"world\x00\x00\x01", false, 1)])
    );
    assert_eq!(s.fid_word_count_docids, set(vec![p(b"\x00\x00\x02", false, 1), p(b"\x00\x00\x00", true, 1)]));
    assert!(s.exact_word_docids.is_empty());
}

#[test]
fn update_with_word_removal() {
    let s = run(
        &[],
        vec![DocumentChange::Update {
            docid: 1,
            current: field_tokens("title", 0, "a b c"),
            new: field_tokens("title", 0, "a c"),
        }],
    );
    assert_eq!(
        s.word_docids,
        set(vec![
            p(b"a", false, 1),
            p(b"a", true, 1),
            p(b"b", false, 1),
            p(b"c", false, 1),
            p(b"c", true, 1),
        ])
    );
    assert_eq!(s.fid_word_count_docids, set(vec![p(b"\x00\x00\x03", false, 1), p(b"\x00\x00\x02", true, 1)]));
}

#[test]
fn exact_and_plain_fields() {
    let mut tokens = field_tokens("name", 0, "foo");
    tokens.extend(field_tokens("desc", 1, "foo"));
    let s = run(&["name"], vec![DocumentChange::Insertion { docid: 7, new: tokens }]);
    assert_eq!(s.exact_word_docids, set(vec![p(b"foo", true, 7)]));
    assert_eq!(s.word_docids, set(vec![p(b"foo", true, 7)]));
    assert_eq!(
        s.word_fid_docids,
        set(vec![p(b"foo\x00\x00\x00", true, 7), p(b"foo\x00\x00\x01", true, 7)])
    );
}

#[test]
fn nested_field_is_exact() {
    let s = run(&["name"], vec![DocumentChange::Insertion { docid: 3, new: vec![tok("name.first", 2, 0, "ann")] }]);
    assert_eq!(s.exact_word_docids, set(vec![p(b"ann", true, 3)]));
    assert!(s.word_docids.is_empty());
    let s = run(&["name"], vec![DocumentChange::Insertion { docid: 3, new: vec![tok("names", 2, 0, "ann")] }]);
    assert_eq!(s.word_docids, set(vec![p(b"ann", true, 3)]));
    assert!(s.exact_word_docids.is_empty());
}

#[test]
fn count_ceiling() {
    let words: Vec<String> = (0..31).map(|i| format!("w{i}")).collect();
    let s = run(&[], vec![DocumentChange::Insertion { docid: 5, new: field_tokens("title", 0, &words.join(" ")) }]);
    assert!(s.fid_word_count_docids.iter().all(|(k, _, _)| k[2] <= 30));
    assert_eq!(s.fid_word_count_docids, set(vec![p(b"\x00\x00\x00", false, 5)]));
    let s = run(&[], vec![DocumentChange::Insertion { docid: 5, new: field_tokens("title", 0, &words[..30].join(" ")) }]);
    assert_eq!(s.fid_word_count_docids, set(vec![p(b"\x00\x00\x00", false, 5), p(b"\x00\x00\x1e", true, 5)]));
}

#[test]
fn unchanged_word_count_is_silent() {
    let s = run(
        &[],
        vec![DocumentChange::Update {
            docid: 2,
            current: field_tokens("title", 0, "a b"),
            new: field_tokens("title", 0, "c d"),
        }],
    );
    assert!(s.fid_word_count_docids.is_empty());
    assert_eq!(s.word_docids.len(), 4);
}

fn batch() -> Vec<DocumentChange> {
    let mut changes = Vec::new();
    for d in 0..16u32 {
        let text = format!("common w{} x{}", d, d % 3);
        if d % 3 == 0 {
            changes.push(DocumentChange::Deletion { docid: d, current: field_tokens("title", 0, &text) });
        } else if d % 3 == 1 {
            changes.push(DocumentChange::Insertion { docid: d, new: field_tokens("title", 1, &text) });
        } else {
            changes.push(DocumentChange::Update {
                docid: d,
                current: field_tokens("title", 0, &text),
                new: field_tokens("body", 1, "common"),
            });
        }
    }
    changes
}

fn union(a: Streams, b: Streams) -> Streams {
    Streams {
        word_docids: a.word_docids.union(&b.word_docids).cloned().collect(),
        exact_word_docids: a.exact_word_docids.union(&b.exact_word_docids).cloned().collect(),
        word_fid_docids: a.word_fid_docids.union(&b.word_fid_docids).cloned().collect(),
        word_position_docids: a.word_position_docids.union(&b.word_position_docids).cloned().collect(),
        fid_word_count_docids: a.fid_word_count_docids.union(&b.fid_word_count_docids).cloned().collect(),
    }
}

#[test]
fn parallel_determinism() {
    let one = run(&["body"], batch());
    let mut parts: Vec<Vec<DocumentChange>> = (0..8).map(|_| Vec::new()).collect();
    for (i, c) in batch().into_iter().rev().enumerate() {
        parts[i % 8].push(c);
    }
    let mut merged = run(&["body"], Vec::new());
    for part in parts {
        merged = union(merged, run(&["body"], part));
    }
    assert_eq!(one.word_docids, merged.word_docids);
    assert_eq!(one.exact_word_docids, merged.exact_word_docids);
    assert_eq!(one.word_fid_docids, merged.word_fid_docids);
    assert_eq!(one.word_position_docids, merged.word_position_docids);
    assert_eq!(one.fid_word_count_docids, merged.fid_word_count_docids);
    assert!(!one.exact_word_docids.is_empty());
}

#[test]
fn update_equals_deletion_then_insertion_on_word_streams() {
    let old = field_tokens("title", 0, "a b c");
    let new = field_tokens("title", 0, "b d");
    let copy = |v: &Vec<DocumentToken>| {
        v.iter()
            .map(|t| DocumentToken {
                field_name: t.field_name.clone(),
                field_id: t.field_id,
                position: t.position,
                word: t.word.clone(),
            })
            .collect::<Vec<_>>()
    };
    let u = run(&[], vec![DocumentChange::Update { docid: 4, current: copy(&old), new: copy(&new) }]);
    let di = run(
        &[],
        vec![
            DocumentChange::Deletion { docid: 4, current: copy(&old) },
            DocumentChange::Insertion { docid: 4, new: copy(&new) },
        ],
    );
    assert_eq!(u.word_docids, di.word_docids);
    assert_eq!(u.word_fid_docids, di.word_fid_docids);
    assert_eq!(u.word_position_docids, di.word_position_docids);
    assert_eq!(u.exact_word_docids, di.exact_word_docids);
}

#[test]
fn direct_inserts_flush_on_document_switch() {
    let data = WordDocidsExtractorData { exact_attributes: Vec::new(), max_memory: Some(400) };
    let mut sorters = data.init_data();
    let mut buffer = Vec::new();
    sorters.insert_add_u32(3, 0, b"x", false, 10, &mut buffer);
    sorters.insert_add_u32(3, 1, b"y", false, 10, &mut buffer);
    sorters.insert_add_u32(3, 0, b"z", false, 11, &mut buffer);
    sorters.flush_fid_word_count(&mut buffer);
    let s = streams(&sorters.into_sorters());
    assert_eq!(
        s.fid_word_count_docids,
        set(vec![
            p(b"\x00\x03\x00", false, 10),
            p(b"\x00\x03\x02", true, 10),
            p(b"\x00\x03\x00", false, 11),
            p(b"\x00\x03\x01", true, 11),
        ])
    );
}

#[test]
fn direct_delete_inserts() {
    let mut sorters = WordDocidsExtractorData { exact_attributes: Vec::new(), max_memory: None }.init_data();
    let mut buffer = Vec::new();
    sorters.insert_del_u32(1, 20, b"w", true, 9, &mut buffer);
    sorters.flush_fid_word_count(&mut buffer);
    WordDocidsExtractors::extract_document_change(
        &mut sorters,
        &Vec::new(),
        &DocumentChange::Insertion { docid: 8, new: Vec::new() },
    );
    let s = streams(&sorters.into_sorters());
    assert_eq!(s.exact_word_docids, set(vec![p(b"w", false, 9)]));
    assert!(s.word_docids.is_empty());
    assert_eq!(s.word_fid_docids, set(vec![p(b"w\x00\x00\x01", false, 9)]));
    assert_eq!(s.word_position_docids, set(vec![p(b"w\x00\x00\x18", false, 9)]));
    assert_eq!(s.fid_word_count_docids, set(vec![p(b"\x00\x01\x01", false, 9), p(b"\x00\x01\x00", true, 9)]));
}

#[test]
fn counts_of_one_document_ignore_the_others() {
    let alone = run(&[], vec![DocumentChange::Insertion { docid: 2, new: field_tokens("title", 0, "x y z") }]);
    let after = run(
        &[],
        vec![
            DocumentChange::Insertion { docid: 1, new: field_tokens("title", 0, "a b c d e") },
            DocumentChange::Insertion { docid: 2, new: field_tokens("title", 0, "x y z") },
        ],
    );
    let of_two: Postings = after.fid_word_count_docids.into_iter().filter(|(_, _, d)| *d == 2).collect();
    assert_eq!(of_two, alone.fid_word_count_docids);
    assert_eq!(of_two, set(vec![p(b"\x00\x00\x00", false, 2), p(b"\x00\x00\x03", true, 2)]));
}

#[test]
fn cache_eviction_keeps_every_docid() {
    let mut c = CboCachedSorter::new(1);
    c.insert_add_u32(b"a", 1);
    c.insert_add_u32(b"b", 2);
    c.insert_del_u32(b"a", 3);
    c.insert_add_u32(b"a", 1);
    c.insert(b"b", Side::Del, 4);
    let entries = c.into_sorter();
    assert!(entries.len() >= 3);
    assert_eq!(
        postings(&entries),
        set(vec![p(b"a", true, 1), p(b"b", true, 2), p(b"a", false, 3), p(b"b", false, 4)])
    );
}

#[test]
fn cache_coalesces_one_key() {
    let mut c = CboCachedSorter::new(4);
    c.insert_add_u32(b"a", 1);
    c.insert_add_u32(b"a", 2);
    c.insert_add_u32(b"a", 2);
    c.insert_del_u32(b"a", 1);
    let entries = c.into_sorter();
    assert_eq!(entries.len(), 1);
    assert_eq!(entries[0].key, b"a".to_vec());
    assert_eq!(entries[0].add, vec![1, 2]);
    assert_eq!(entries[0].del, vec![1]);
}

#[test]
fn bucketed_positions() {
    assert_eq!(bucketed_position(0), 0);
    assert_eq!(bucketed_position(1), 1);
    assert_eq!(bucketed_position(15), 15);
    assert_eq!(bucketed_position(16), 24);
    assert_eq!(bucketed_position(23), 24);
    assert_eq!(bucketed_position(24), 32);
    assert_eq!(bucketed_position(32), 32);
    assert_eq!(bucketed_position(33), 64);
    assert_eq!(bucketed_position(1000), 1024);
    assert_eq!(bucketed_position(32768), 32768);
    assert_eq!(bucketed_position(32769), 65535);
    assert_eq!(bucketed_position(65535), 65535);
}

#[test]
fn field_path_containment() {
    assert!(contained_in(b"a", b"a"));
    assert!(contained_in(b"a.b", b"a"));
    assert!(!contained_in(b"ab", b"a"));
    assert!(!contained_in(b"a", b"a.b"));
    assert!(is_exact_attribute(b"x.y", &vec![b"q".to_vec(), b"x".to_vec()]));
    assert!(!is_exact_attribute(b"x", &Vec::new()));
}

#[test]
fn key_layouts() {
    let mut buffer = vec![9, 9];
    write_word_u16_key(&mut buffer, b"ab", 0x0102);
    assert_eq!(buffer, vec![b'a', b'b', 0, 1, 2]);
    write_fid_count_key(&mut buffer, 0x0304, 7);
    assert_eq!(buffer, vec![3, 4, 7]);
}

#[test]
fn key_order_follows_word_order() {
    let mut k1 = Vec::new();
    let mut k2 = Vec::new();
    write_word_u16_key(&mut k1, b"ab", 0xffff);
    write_word_u16_key(&mut k2, b"abc", 0);
    assert!(k1 < k2);
    write_word_u16_key(&mut k1, b"abd", 0xffff);
    assert!(k2 < k1);
}

#[test]
fn spilled_entries_are_handed_out_once() {
    let mut c = CboCachedSorter::new(1);
    c.insert_add_u32(b"a", 1);
    c.insert_add_u32(b"b", 2);
    let taken = c.take_spilled();
    assert_eq!(postings(&taken), set(vec![p(b"a", true, 1)]));
    assert!(c.take_spilled().is_empty());
    let rest = c.into_sorter();
    assert_eq!(postings(&rest), set(vec![p(b"b", true, 2)]));
}

#[test]
fn small_caches_lose_nothing() {
    let mut sorters = milli::WordDocidsCachedSorters::new(Some(400), 1);
    assert_eq!(sorters.sorter_memory_budget(), Some(100));
    let change = DocumentChange::Insertion { docid: 1, new: field_tokens("title", 0, "hello world") };
    WordDocidsExtractors::extract_document_change(&mut sorters, &Vec::new(), &change);
    let taken = streams(&sorters.take_spilled());
    let rest = streams(&sorters.into_sorters());
    let all = union(taken, rest);
    assert_eq!(all.word_docids, set(vec![p(b"hello", true, 1), p(b"world", true, 1)]));
    assert_eq!(
        all.word_position_docids,
        set(vec![p(b"hello\x00\x00\x00", true, 1), p(b"world\x00\x00\x01", true, 1)])
    );
    assert_eq!(all.fid_word_count_docids, set(vec![p(b"\x00\x00\x00", false, 1), p(b"\x00\x00\x02", true, 1)]));
}

fn net(s: &Postings, add: bool) -> BTreeSet<(Vec<u8>, u32)> {
    s.iter()
        .filter(|(k, a, d)| *a == add && !s.contains(&(k.clone(), !add, *d)))
        .map(|(k, _, d)| (k.clone(), *d))
        .collect()
}

#[test]
fn update_and_deletion_then_insertion_agree_on_net_counts() {
    for (old, new) in [("a b c", "a c"), ("a b", "c d"), ("a", "a b c d")] {
        let u = run(
            &[],
            vec![DocumentChange::Update { docid: 6, current: field_tokens("t", 4, old), new: field_tokens("t", 4, new) }],
        );
        let di = run(
            &[],
            vec![
                DocumentChange::Deletion { docid: 6, current: field_tokens("t", 4, old) },
                DocumentChange::Insertion { docid: 6, new: field_tokens("t", 4, new) },
            ],
        );
        assert_eq!(net(&u.fid_word_count_docids, true), net(&di.fid_word_count_docids, true));
        assert_eq!(net(&u.fid_word_count_docids, false), net(&di.fid_word_count_docids, false));
    }
}

#[test]
fn least_recently_used_entry_leaves_first() {
    let mut c = CboCachedSorter::new(2);
    c.insert_add_u32(b"a", 1);
    c.insert_add_u32(b"b", 2);
    c.insert_del_u32(b"a", 3);
    assert!(c.take_spilled().is_empty());
    c.insert_add_u32(b"c", 4);
    let taken = c.take_spilled();
    assert_eq!(postings(&taken), set(vec![p(b"b", true, 2)]));
    c.insert_add_u32(b"c", 5);
    assert!(c.take_spilled().is_empty());
    assert_eq!(
        postings(&c.into_sorter()),
        set(vec![p(b"a", true, 1), p(b"a", false, 3), p(b"c", true, 4), p(b"c", true, 5)])
    );
}
