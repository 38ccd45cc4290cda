use memex::index::SearchIndex;
use memex::preview::{build_preview, session_playback, PreviewItem, PreviewMode};
use memex::session::{
    add_record_to_session, collect_projects, filter_projects, sessions_from_query,
    sessions_from_recent, SessionSummary,
};
use memex::types::{Record, RecordInput, SourceFilter, SourceKind};

fn rec_in(session: &str, turn: u64, ts: u64, role: &str, text: &str) -> RecordInput {
    RecordInput {
        session_id: String::from(session),
        turn_id: turn,
        ts,
        source: SourceKind::Chat,
        source_path: String::from("/tmp/chat/log.jsonl"),
        project: String::from("demo"),
        role: String::from(role),
        text: String::from(text),
    }
}

fn record(session: &str, id: u64, turn: u64, ts: u64, role: &str, text: &str) -> Record {
    Record {
        doc_id: id,
        session_id: String::from(session),
        turn_id: turn,
        ts,
        source: SourceKind::Chat,
        source_path: String::from("/tmp/chat/log.jsonl"),
        project: String::from("demo"),
        role: String::from(role),
        text: String::from(text),
    }
}

fn summary_for(session: &str) -> SessionSummary {
    SessionSummary {
        session_id: String::from(session),
        project: String::from("demo"),
        source: SourceKind::Chat,
        last_ts: 0,
        hit_count: 0,
        top_score: 0,
        snippet: String::new(),
        source_path: String::from("/tmp/chat/log.jsonl"),
    }
}

#[test]
fn recent_sessions_group_and_order() {
    // five records across two sessions; the empty query takes the recent path
    let mut index = SearchIndex::new();
    index.ingest_entries(&vec![
        rec_in("old", 0, 100, "user", "one"),
        rec_in("old", 1, 200, "assistant", "two"),
        rec_in("new", 0, 500, "user", "three"),
        rec_in("new", 1, 600, "assistant", "four"),
        rec_in("new", 2, 700, "user", "five"),
    ]);
    index.commit();
    let sessions = sessions_from_recent(&index, None, None);
    assert_eq!(sessions.len(), 2);
    assert_eq!(sessions[0].session_id, "new");
    assert_eq!(sessions[0].hit_count, 3);
    assert_eq!(sessions[0].last_ts, 700);
    assert_eq!(sessions[1].session_id, "old");
    assert_eq!(sessions[1].hit_count, 2);
    assert_eq!(sessions[1].last_ts, 200);
}

#[test]
fn recent_sessions_apply_filters() {
    let mut index = SearchIndex::new();
    let mut codex = rec_in("c", 0, 900, "user", "codex text");
    codex.source = SourceKind::CodexSession;
    index.ingest_entries(&vec![rec_in("a", 0, 100, "user", "chat text"), codex]);
    index.commit();
    let chat_only = sessions_from_recent(&index, Some(SourceFilter::Chat), None);
    assert_eq!(chat_only.len(), 1);
    assert_eq!(chat_only[0].session_id, "a");
    let by_project = sessions_from_recent(&index, None, Some("nope"));
    assert!(by_project.is_empty());
}

#[test]
fn query_sessions_rank_by_score() {
    let mut index = SearchIndex::new();
    index.ingest_entries(&vec![
        rec_in("a", 0, 10, "user", "the cat sat on the mat"),
        rec_in("b", 0, 20, "user", "dogs are loyal"),
        rec_in("c", 0, 30, "user", "a cat is sitting on a mat"),
    ]);
    index.commit();
    let sessions = sessions_from_query(&index, String::from("cat"), None, None, 200);
    assert_eq!(sessions.len(), 2);
    for s in &sessions {
        assert!(s.session_id == "a" || s.session_id == "c");
        assert!(s.top_score > 0);
        assert_eq!(s.hit_count, 1);
    }
}

#[test]
fn aggregator_tracks_best_record() {
    let mut sessions: Vec<SessionSummary> = Vec::new();
    add_record_to_session(&mut sessions, 10, record("s", 1, 0, 100, "user", "first text"));
    add_record_to_session(&mut sessions, 30, record("s", 2, 1, 50, "user", "better text"));
    add_record_to_session(&mut sessions, 20, record("s", 3, 2, 300, "user", "later text"));
    assert_eq!(sessions.len(), 1);
    let s = &sessions[0];
    assert_eq!(s.hit_count, 3);
    assert_eq!(s.last_ts, 300);
    assert_eq!(s.top_score, 30);
    assert_eq!(s.snippet, "better text");
}

#[test]
fn playback_order_is_deterministic() {
    let a = record("s", 1, 2, 10, "user", "one");
    let b = record("s", 2, 1, 99, "user", "two");
    let c = record("s", 3, 1, 5, "user", "three");
    let sorted1 = session_playback(vec![a.clone(), b.clone(), c.clone()]);
    let sorted2 = session_playback(vec![c, a, b]);
    let ids1: Vec<u64> = sorted1.iter().map(|r| r.doc_id).collect();
    let ids2: Vec<u64> = sorted2.iter().map(|r| r.doc_id).collect();
    assert_eq!(ids1, ids2);
    // turn first, then timestamp, then id
    assert_eq!(ids1, vec![3, 2, 1]);
}

fn messages(items: &[PreviewItem]) -> Vec<(String, bool)> {
    items
        .iter()
        .filter_map(|i| match i {
            PreviewItem::Message { role, highlight, .. } => Some((role.clone(), *highlight)),
            _ => None,
        })
        .collect()
}

fn notes(items: &[PreviewItem]) -> Vec<String> {
    items
        .iter()
        .filter_map(|i| match i {
            PreviewItem::Note { text } => Some(text.clone()),
            _ => None,
        })
        .collect()
}

fn ten_records(tool_text: &str, user_text: &str) -> Vec<Record> {
    let mut recs = Vec::new();
    for turn in 0..10u64 {
        let role = if turn == 3 { "tool_result" } else { "user" };
        let text = if turn == 3 {
            tool_text
        } else if turn == 6 {
            user_text
        } else {
            "filler words here"
        };
        recs.push(record("s", turn + 1, turn, 1000 + turn, role, text));
    }
    recs
}

#[test]
fn preview_matches_emit_user_hit_with_context() {
    // the query term sits in a tool record and in a user record; with
    // tools hidden the user record shows with a neighbour either side and
    // no guidance line appears
    let recs = session_playback(ten_records("needle in tool", "needle in user"));
    let items =
        build_preview(&recs, &summary_for("s"), PreviewMode::Matches, "needle", false).unwrap();
    assert!(notes(&items).is_empty());
    let msgs = messages(&items);
    assert_eq!(msgs.len(), 3);
    assert!(msgs.iter().all(|(role, hl)| role == "user" && *hl));
}

#[test]
fn preview_matches_only_in_tools_guidance() {
    let recs = session_playback(ten_records("needle in tool", "nothing here"));
    let items =
        build_preview(&recs, &summary_for("s"), PreviewMode::Matches, "needle", false).unwrap();
    assert!(messages(&items).is_empty());
    assert_eq!(notes(&items), vec![String::from(
        "matches only in tool messages (press t to show)",
    )]);
}

#[test]
fn preview_no_literal_match_guidance() {
    let recs = session_playback(ten_records("nothing", "nothing"));
    let items =
        build_preview(&recs, &summary_for("s"), PreviewMode::Matches, "needle", false).unwrap();
    assert_eq!(notes(&items), vec![String::from(
        "no literal matches (search matched via tokenizer)",
    )]);
}

#[test]
fn preview_overlapping_windows_dedup() {
    // matches at adjacent turns produce overlapping context windows;
    // each record still appears exactly once
    let mut recs = Vec::new();
    for turn in 0..6u64 {
        let text = if turn == 2 || turn == 3 { "needle here" } else { "filler words" };
        recs.push(record("s", turn + 1, turn, 1000 + turn, "user", text));
    }
    let sorted = session_playback(recs);
    let items =
        build_preview(&sorted, &summary_for("s"), PreviewMode::Matches, "needle", false).unwrap();
    // windows around turns 2 and 3 cover turns 1..=4, once each
    assert_eq!(messages(&items).len(), 4);
    assert!(notes(&items).is_empty());
}

#[test]
fn preview_history_hides_tools_by_default() {
    let recs = session_playback(ten_records("tool text", "user text"));
    let hidden =
        build_preview(&recs, &summary_for("s"), PreviewMode::History, "", false).unwrap();
    assert_eq!(messages(&hidden).len(), 9);
    let shown = build_preview(&recs, &summary_for("s"), PreviewMode::History, "", true).unwrap();
    assert_eq!(messages(&shown).len(), 10);
}

#[test]
fn preview_empty_query_shows_tail() {
    let recs = session_playback(ten_records("tool text", "user text"));
    let items = build_preview(&recs, &summary_for("s"), PreviewMode::Matches, "  ", false)
        .unwrap();
    // without a query the last ten records appear, tools included
    assert_eq!(messages(&items).len(), 10);
}

#[test]
fn preview_empty_session_notes_it() {
    let items = build_preview(
        &Vec::new(),
        &summary_for("s"),
        PreviewMode::History,
        "",
        false,
    )
    .unwrap();
    assert_eq!(notes(&items), vec![String::from("no records in session")]);
}

#[test]
fn projects_collected_sorted_distinct() {
    let mut index = SearchIndex::new();
    let mut r1 = rec_in("a", 0, 10, "user", "x");
    r1.project = String::from("zeta");
    let mut r2 = rec_in("b", 0, 20, "user", "y");
    r2.project = String::from("alpha");
    let mut r3 = rec_in("c", 0, 30, "user", "z");
    r3.project = String::from("zeta");
    let mut r4 = rec_in("d", 0, 40, "user", "w");
    r4.project = String::new();
    index.ingest_entries(&vec![r1, r2, r3, r4]);
    index.commit();
    let projects = collect_projects(&index, None);
    assert_eq!(projects, vec![String::from("alpha"), String::from("zeta")]);
}

#[test]
fn project_filter_is_case_insensitive() {
    let all = vec![String::from("Memex"), String::from("other"), String::from("MEMEX-ui")];
    let hits = filter_projects(&all, "memex");
    assert_eq!(hits, vec![String::from("Memex"), String::from("MEMEX-ui")]);
    let everything = filter_projects(&all, "");
    assert_eq!(everything.len(), 3);
}
