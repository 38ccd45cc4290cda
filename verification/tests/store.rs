use memex::index::{fingerprint_of, QueryOptions, SearchIndex};
use memex::ingest::{append_embeddings, plan_batches, scan_is_stale};
use memex::types::{Record, RecordInput, SourceFilter, SourceKind};
use memex::vector::{VectorStore, VectorStoreError};

fn entry(session: &str, turn: u64, ts: u64, role: &str, text: &str) -> RecordInput {
    RecordInput {
        session_id: String::from(session),
        turn_id: turn,
        ts,
        source: SourceKind::Chat,
        source_path: String::from("/tmp/chat/session.jsonl"),
        project: String::from("demo"),
        role: String::from(role),
        text: String::from(text),
    }
}

fn codex_entry(session: &str, turn: u64, ts: u64, text: &str) -> RecordInput {
    RecordInput {
        session_id: String::from(session),
        turn_id: turn,
        ts,
        source: SourceKind::CodexSession,
        source_path: String::from("/tmp/codex/session.jsonl"),
        project: String::from("demo"),
        role: String::from("user"),
        text: String::from(text),
    }
}

fn options(query: &str) -> QueryOptions {
    QueryOptions {
        query: String::from(query),
        project: None,
        role: None,
        tool: None,
        session_id: None,
        source: None,
        since: None,
        until: None,
        limit: 20,
    }
}

#[test]
fn doc_ids_strictly_increase() {
    let mut index = SearchIndex::new();
    let mut last: Option<u64> = None;
    for turn in 0..5u64 {
        let id = index.add(entry("s1", turn, 1000 + turn, "user", "hello there"));
        if let Some(prev) = last {
            assert!(id > prev);
        }
        last = Some(id);
    }
    assert_eq!(index.next_doc_id(), 5);
}

#[test]
fn commit_makes_records_visible() {
    let mut index = SearchIndex::new();
    index.add(entry("s1", 0, 10, "user", "the cat sat on the mat"));
    assert_eq!(index.doc_count(), 0);
    index.commit();
    assert_eq!(index.doc_count(), 1);
    let recs = index.records_by_session_id("s1");
    assert_eq!(recs.len(), 1);
    assert_eq!(recs[0].text, "the cat sat on the mat");
    assert!(index.records_by_session_id("missing").is_empty());
}

#[test]
fn recent_records_ts_non_increasing() {
    let mut index = SearchIndex::new();
    let stamps = [50u64, 10, 90, 70, 30];
    for (turn, ts) in stamps.iter().enumerate() {
        index.add(entry("s1", turn as u64, *ts, "user", "text"));
    }
    index.commit();
    let recent = index.recent_records(3);
    assert_eq!(recent.len(), 3);
    for w in recent.windows(2) {
        assert!(w[0].ts >= w[1].ts);
    }
    assert_eq!(recent[0].ts, 90);
    assert_eq!(recent[2].ts, 50);
}

#[test]
fn search_finds_lexical_matches() {
    let mut index = SearchIndex::new();
    index.add(entry("a", 0, 10, "user", "the cat sat on the mat"));
    index.add(entry("b", 0, 20, "user", "dogs are loyal"));
    index.add(entry("c", 0, 30, "user", "a cat is sitting on a mat"));
    index.commit();
    let results = index.search(&options("cat"));
    assert_eq!(results.len(), 2);
    for (score, rec) in &results {
        assert!(*score > 0);
        assert!(rec.session_id == "a" || rec.session_id == "c");
    }
}

#[test]
fn search_empty_query_matches_nothing() {
    let mut index = SearchIndex::new();
    index.add(entry("a", 0, 10, "user", "anything at all"));
    index.commit();
    assert!(index.search(&options("")).is_empty());
    assert!(index.search(&options("zebra")).is_empty());
}

#[test]
fn search_source_filter_narrows_without_reordering() {
    let mut index = SearchIndex::new();
    index.add(entry("a", 0, 10, "user", "cat one"));
    index.add(codex_entry("b", 0, 20, "cat two"));
    index.add(entry("c", 0, 30, "user", "cat three"));
    index.commit();
    let all = index.search(&options("cat"));
    let mut narrowed = options("cat");
    narrowed.source = Some(SourceFilter::Chat);
    let filtered = index.search(&narrowed);
    assert!(filtered.len() <= all.len());
    for (_, rec) in &filtered {
        assert!(matches!(rec.source, SourceKind::Chat));
    }
    // survivors keep their relative order from the full result
    let all_ids: Vec<u64> = all
        .iter()
        .filter(|(_, r)| matches!(r.source, SourceKind::Chat))
        .map(|(_, r)| r.doc_id)
        .collect();
    let filtered_ids: Vec<u64> = filtered.iter().map(|(_, r)| r.doc_id).collect();
    assert_eq!(all_ids, filtered_ids);
}

#[test]
fn search_role_and_time_filters() {
    let mut index = SearchIndex::new();
    index.add(entry("a", 0, 10, "user", "cat early"));
    index.add(entry("a", 1, 50, "tool_result", "cat tool"));
    index.add(entry("a", 2, 90, "user", "cat late"));
    index.commit();
    let mut o = options("cat");
    o.tool = Some(false);
    assert_eq!(index.search(&o).len(), 2);
    let mut o = options("cat");
    o.since = Some(40);
    o.until = Some(60);
    let mid = index.search(&o);
    assert_eq!(mid.len(), 1);
    assert_eq!(mid[0].1.ts, 50);
    let mut o = options("cat");
    o.role = Some(String::from("tool"));
    assert_eq!(index.search(&o).len(), 1);
}

#[test]
fn ingest_dedup_is_idempotent() {
    let mut index = SearchIndex::new();
    let batch = vec![
        entry("s1", 0, 10, "user", "first message"),
        entry("s1", 1, 20, "assistant", "second message"),
        entry("s2", 0, 30, "user", "third message"),
    ];
    let added = index.ingest_entries(&batch);
    assert_eq!(added, 3);
    index.commit();
    let count = index.doc_count();
    let again = index.ingest_entries(&batch);
    assert_eq!(again, 0);
    index.commit();
    assert_eq!(index.doc_count(), count);
}

#[test]
fn ingest_dedup_within_batch() {
    let mut index = SearchIndex::new();
    let batch = vec![
        entry("s1", 0, 10, "user", "same"),
        entry("s1", 0, 10, "user", "same"),
        entry("s1", 0, 10, "user", "different text"),
    ];
    let added = index.ingest_entries(&batch);
    assert_eq!(added, 2);
}

#[test]
fn fingerprint_depends_on_fields() {
    let a = fingerprint_of(&entry("s1", 0, 10, "user", "hello"));
    let b = fingerprint_of(&entry("s1", 0, 10, "assistant", "hello"));
    let c = fingerprint_of(&entry("s1", 0, 10, "user", "hello!"));
    assert_eq!(a, b); // the role is not part of the fingerprint
    assert_ne!(a, c);
}

#[test]
fn scan_gate_is_ttl_bound() {
    assert!(scan_is_stale(None, 0, 3600));
    let t0 = 1_000_000u64;
    assert!(!scan_is_stale(Some(t0), t0 + 10_000, 3600));
    assert!(scan_is_stale(Some(t0), t0 + 3_600_000, 3600));
    assert!(!scan_is_stale(Some(t0), t0 + 3_599_999, 3600));
}

#[test]
fn vector_store_append_checks() {
    let mut store = VectorStore::new(3, String::from("potion"));
    assert_eq!(store.append(1, vec![1, 2, 3], "potion"), Ok(()));
    assert_eq!(
        store.append(2, vec![1, 2], "potion"),
        Err(VectorStoreError::DimensionMismatch)
    );
    assert_eq!(
        store.append(2, vec![1, 2, 3], "minilm"),
        Err(VectorStoreError::ModelMismatch)
    );
    assert_eq!(
        store.append(1, vec![4, 5, 6], "potion"),
        Err(VectorStoreError::OutOfOrder)
    );
    assert_eq!(store.append(7, vec![4, 5, 6], "potion"), Ok(()));
    assert_eq!(store.count(), 2);
    assert_eq!(store.dims(), 3);
    assert_eq!(store.doc_id_at(1), 7);
    assert_eq!(store.row_at(0), &vec![1, 2, 3]);
}

#[test]
fn embeddings_keep_vector_text_parity() {
    let mut index = SearchIndex::new();
    let batch = vec![
        entry("s1", 0, 10, "user", "first"),
        entry("s1", 1, 20, "user", "second"),
    ];
    index.ingest_entries(&batch);
    index.commit();
    let committed = index.recent_records(10);
    let ids: Vec<u64> = {
        let mut v: Vec<u64> = committed.iter().map(|r| r.doc_id).collect();
        v.sort();
        v
    };
    let rows: Vec<Vec<u32>> = vec![vec![1, 2], vec![3, 4]];
    let mut store = VectorStore::new(2, String::from("potion"));
    let n = append_embeddings(&index, &mut store, &ids, rows, "potion").expect("append");
    assert_eq!(n, 2);
    // every stored doc id has a committed record behind it
    for i in 0..store.count() {
        let id = store.doc_id_at(i);
        assert!(committed.iter().any(|r| r.doc_id == id));
    }
}

#[test]
fn batch_plan_respects_budget() {
    let lens = vec![3usize, 4, 5];
    let plan = plan_batches(&lens, 7);
    assert_eq!(plan, vec![(0, 2), (2, 3)]);
    let lens = vec![100usize];
    assert_eq!(plan_batches(&lens, 7), vec![(0, 1)]);
    let empty: Vec<usize> = Vec::new();
    assert!(plan_batches(&empty, 7).is_empty());
}

#[test]
fn hybrid_rank_fuses_and_orders() {
    let rec = |id: u64, ts: u64| Record {
        doc_id: id,
        session_id: String::from("s"),
        turn_id: 0,
        ts,
        source: SourceKind::Chat,
        source_path: String::new(),
        project: String::new(),
        role: String::from("user"),
        text: String::new(),
    };
    let lexical = vec![(1u64, rec(1, 10)), (3u64, rec(2, 20))];
    let sims = vec![(1u64, 500_000u64)];
    let ranked = memex::engine::hybrid_rank(lexical, &sims, 10);
    assert_eq!(ranked.len(), 2);
    // doc 2: normalized 1.0, no similarity -> 500000; doc 1: normalized 0, sim 0.5 -> 250000
    assert_eq!(ranked[0].1.doc_id, 2);
    assert_eq!(ranked[0].0, 500_000);
    assert_eq!(ranked[1].1.doc_id, 1);
    assert_eq!(ranked[1].0, 250_000);
    let lexical = vec![(2u64, rec(1, 10)), (2u64, rec(2, 20))];
    let ranked = memex::engine::hybrid_rank(lexical, &Vec::new(), 1);
    assert_eq!(ranked.len(), 1);
    // equal scores normalize to full scale; ties break on recency
    assert_eq!(ranked[0].1.doc_id, 2);
    assert_eq!(ranked[0].0, 500_000);
}
