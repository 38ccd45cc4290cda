use memex::config::{Paths, UserConfig};
use memex::model::{resolve_model, ModelChoice};
use memex::error::MemexError;
use memex::text::{format_ts, summarize};
use memex::tokens::{matches_any, query_terms};
use memex::types::is_tool_role;
use memex::ui::{
    default_resume_template, expand_resume_template, step_index, Focus, Key, KeyInput, SourceChoice,
    UiAction, UiState,
};
use memex::preview::PreviewMode;
use memex::session::SessionSummary;
use memex::types::SourceKind;

#[test]
fn test_parse_potion_model() {
    let choice = ModelChoice::parse("potion").expect("parse potion");
    assert!(matches!(choice, ModelChoice::Potion));
    let choice = ModelChoice::parse("potion-base-8m").expect("parse potion-base-8m");
    assert!(matches!(choice, ModelChoice::Potion));
    let choice = ModelChoice::parse("model2vec").expect("parse model2vec");
    assert!(matches!(choice, ModelChoice::Potion));
}

#[test]
fn parse_model_tags_case_insensitive() {
    assert!(matches!(ModelChoice::parse("MiniLM"), Ok(ModelChoice::MiniLM)));
    assert!(matches!(ModelChoice::parse("BGE-SMALL"), Ok(ModelChoice::BGESmall)));
    assert!(matches!(ModelChoice::parse("nomic"), Ok(ModelChoice::Nomic)));
    assert!(matches!(ModelChoice::parse("default"), Ok(ModelChoice::Gemma)));
}

#[test]
fn parse_model_unknown_tag_is_config_invalid() {
    match ModelChoice::parse("bogus") {
        Err(MemexError::ConfigInvalid(msg)) => {
            assert!(msg.contains("bogus"));
        }
        other => panic!("expected ConfigInvalid, got {:?}", other),
    }
}

#[test]
fn resolve_model_precedence() {
    assert!(matches!(
        resolve_model(Some("minilm"), Some("nomic"), Some("potion")),
        Ok(ModelChoice::MiniLM)
    ));
    assert!(matches!(
        resolve_model(None, Some("nomic"), Some("potion")),
        Ok(ModelChoice::Nomic)
    ));
    assert!(matches!(resolve_model(None, None, Some("potion")), Ok(ModelChoice::Potion)));
    assert!(matches!(resolve_model(None, None, None), Ok(ModelChoice::Gemma)));
}

#[test]
fn model_fixed_dims() {
    assert_eq!(ModelChoice::MiniLM.fixed_dims(), Some(384));
    assert_eq!(ModelChoice::BGESmall.fixed_dims(), Some(384));
    assert_eq!(ModelChoice::Nomic.fixed_dims(), Some(768));
    assert_eq!(ModelChoice::Gemma.fixed_dims(), Some(768));
    assert_eq!(ModelChoice::Potion.fixed_dims(), None);
}

#[test]
fn paths_layout_under_root() {
    let p = Paths::from_root(String::from("/tmp/memex-root"));
    assert_eq!(p.root, "/tmp/memex-root");
    assert_eq!(p.index, "/tmp/memex-root/index");
    assert_eq!(p.vectors, "/tmp/memex-root/vectors");
    assert_eq!(p.state, "/tmp/memex-root/state");
}

#[test]
fn config_defaults_apply() {
    let c = UserConfig::default();
    assert!(c.embeddings_default());
    assert!(c.auto_index_on_search_default());
    assert_eq!(c.model(), Some("potion"));
    assert_eq!(c.scan_cache_ttl(), 3600);
    assert!(!c.index_service_watch_default());
    assert_eq!(c.index_service_interval(), 3600);
    assert_eq!(c.index_service_watch_interval(), 30);
}

#[test]
fn config_set_values_win() {
    let mut c = UserConfig::default();
    c.embeddings = Some(false);
    c.scan_cache_ttl = Some(60);
    c.model = Some(String::from("minilm"));
    assert!(!c.embeddings_default());
    assert_eq!(c.scan_cache_ttl(), 60);
    assert_eq!(c.model(), Some("minilm"));
}

#[test]
fn tool_roles_recognized() {
    assert!(is_tool_role("tool_use"));
    assert!(is_tool_role("tool_result"));
    assert!(!is_tool_role("user"));
    assert!(!is_tool_role(""));
}

#[test]
fn summarize_fits_without_change() {
    assert_eq!(summarize("hello world", 20), "hello world");
}

#[test]
fn summarize_collapses_whitespace() {
    assert_eq!(summarize("a  b\n\tc", 20), "a b c");
    assert_eq!(summarize("   leading", 20), "leading");
}

#[test]
fn summarize_truncates_with_ellipsis() {
    let s = summarize("abcdefghij", 5);
    assert_eq!(s, "ab...");
    assert!(s.chars().count() <= 5);
}

#[test]
fn summarize_edge_maxima() {
    assert_eq!(summarize("anything", 0), "");
    // too small for an ellipsis: plain cut
    assert_eq!(summarize("abcdefghij", 2), "ab");
    let s = summarize("word another word", 10);
    assert!(s.chars().count() <= 10);
    assert!(s.ends_with("..."));
}

#[test]
fn summarize_keeps_word_boundary() {
    // the cut would land inside "another": it backs up to the last word
    assert_eq!(summarize("word another word", 10), "word...");
    // a single long word has no boundary to keep
    assert_eq!(summarize("abcdefghij", 5), "ab...");
}

#[test]
fn query_terms_clean_and_dedup() {
    let terms = query_terms("CAT cat");
    assert_eq!(terms, vec![String::from("cat")]);
    let terms = query_terms("!!cat!! dog, a");
    assert_eq!(terms, vec![String::from("cat"), String::from("dog")]);
    let terms = query_terms("   ");
    assert!(terms.is_empty());
}

#[test]
fn matches_any_is_case_insensitive() {
    let terms = vec![String::from("cat")];
    assert_eq!(matches_any(&terms, "the CAT sat"), Some(true));
    assert_eq!(matches_any(&terms, "dogs are loyal"), Some(false));
    let none: Vec<String> = Vec::new();
    assert_eq!(matches_any(&none, "anything"), Some(false));
}

#[test]
fn format_ts_renders_rfc3339() {
    assert_eq!(format_ts(0), "-");
    assert_eq!(format_ts(947638923004), "2000-01-12T01:02:03Z");
}

#[test]
fn resume_templates() {
    assert_eq!(
        default_resume_template("chat").as_deref(),
        Some("chat --resume {session_id}")
    );
    assert_eq!(default_resume_template("codex").as_deref(), Some("codex resume {session_id}"));
    assert_eq!(default_resume_template("vim"), None);

    let summary = SessionSummary {
        session_id: String::from("abc-123"),
        project: String::from("proj"),
        source: SourceKind::Chat,
        last_ts: 5,
        hit_count: 1,
        top_score: 0,
        snippet: String::new(),
        source_path: String::from("/p/file.jsonl"),
    };
    let cmd = expand_resume_template("run {source} {session_id} in {project}", &summary);
    assert_eq!(cmd, "run chat abc-123 in proj");
}

fn blank_state() -> UiState {
    UiState {
        focus: Focus::List,
        query: String::new(),
        project: String::new(),
        find_query: String::new(),
        source: SourceChoice::All,
        preview_mode: PreviewMode::Matches,
        show_tools: false,
        results_len: 0,
        selected: None,
        all_projects: Vec::new(),
        project_source: SourceChoice::All,
        project_options: Vec::new(),
        project_selected: 0,
        detail_len: 0,
        detail_scroll: 0,
    }
}

#[test]
fn key_escape_from_list_quits() {
    let mut st = blank_state();
    let action = memex::ui::step_key(&mut st, KeyInput { key: Key::Esc, ctrl: false });
    assert!(matches!(action, UiAction::Quit));
}

#[test]
fn key_typing_edits_query() {
    let mut st = blank_state();
    st.focus = Focus::Query;
    memex::ui::step_key(&mut st, KeyInput { key: Key::Char('h'), ctrl: false });
    memex::ui::step_key(&mut st, KeyInput { key: Key::Char('i'), ctrl: false });
    assert_eq!(st.query, "hi");
    memex::ui::step_key(&mut st, KeyInput { key: Key::Backspace, ctrl: false });
    assert_eq!(st.query, "h");
    let action = memex::ui::step_key(&mut st, KeyInput { key: Key::Enter, ctrl: false });
    assert!(matches!(action, UiAction::Search));
    assert!(matches!(st.focus, Focus::List));
}

#[test]
fn key_source_cycles_and_searches() {
    let mut st = blank_state();
    let action = memex::ui::step_key(&mut st, KeyInput { key: Key::Char('s'), ctrl: false });
    assert!(matches!(action, UiAction::Search));
    assert!(matches!(st.source, SourceChoice::Chat));
    memex::ui::step_key(&mut st, KeyInput { key: Key::Char('s'), ctrl: false });
    assert!(matches!(st.source, SourceChoice::Codex));
    memex::ui::step_key(&mut st, KeyInput { key: Key::Char('s'), ctrl: false });
    assert!(matches!(st.source, SourceChoice::All));
}

#[test]
fn key_project_enter_picks_option() {
    let mut st = blank_state();
    st.focus = Focus::Project;
    st.project_options = vec![String::from("alpha"), String::from("beta")];
    st.project_selected = 1;
    let action = memex::ui::step_key(&mut st, KeyInput { key: Key::Enter, ctrl: false });
    assert!(matches!(action, UiAction::Search));
    assert_eq!(st.project, "beta");
    assert!(matches!(st.focus, Focus::List));
}

#[test]
fn step_index_clamps() {
    assert_eq!(step_index(0, true, 1, 5), 0);
    assert_eq!(step_index(4, false, 1, 5), 4);
    assert_eq!(step_index(2, false, 1, 5), 3);
    assert_eq!(step_index(2, true, 1, 5), 1);
}

#[test]
fn source_choice_filters() {
    assert_eq!(SourceChoice::All.as_filter(), None);
    assert!(SourceChoice::All.cycle().as_filter().is_some());
    assert_eq!(SourceChoice::All.label(), "all");
    assert_eq!(SourceChoice::Chat.label(), "chat");
    assert_eq!(SourceChoice::Codex.label(), "codex");
}
