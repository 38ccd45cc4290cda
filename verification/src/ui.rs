//! The interactive front end's decisions: focus handling, key dispatch,
//! pane geometry, and resume-command templates.
//!
//! Terminal input and drawing happen outside the library; events arrive
//! here as plain values and leave as a new state plus one action to
//! perform.

use vstd::prelude::*;
use crate::preview::PreviewMode;
use crate::session::filter_projects;
use crate::strutil::{seq_contains_at, str_eq, str_to_chars, window_eq};
use crate::types::{SourceFilter, SourceKind};

verus! {

broadcast use vstd::string::group_string_axioms;

/// Which pane keyboard input goes to.
#[derive(Clone, Copy, Debug, PartialEq, Eq, Structural)]
pub enum Focus {
    Query,
    Project,
    List,
    Preview,
    Find,
}

/// Which family of sources the UI is restricted to.
#[derive(Clone, Copy, Debug, PartialEq, Eq, Structural)]
pub enum SourceChoice {
    All,
    Chat,
    Codex,
}

impl SourceChoice {
    /// The next restriction in the cycle all, chat, codex.
    pub fn cycle(self) -> (r: Self)
        ensures
            self is All ==> r is Chat,
            self is Chat ==> r is Codex,
            self is Codex ==> r is All,
    {
        match self {
            SourceChoice::All => SourceChoice::Chat,
            SourceChoice::Chat => SourceChoice::Codex,
            SourceChoice::Codex => SourceChoice::All,
        }
    }

    /// The query filter this choice stands for; `All` filters nothing.
    pub fn as_filter(self) -> (r: Option<SourceFilter>)
        ensures
            self is All ==> r is None,
            self is Chat ==> r == Some(SourceFilter::Chat),
            self is Codex ==> r == Some(SourceFilter::Codex),
    {
        match self {
            SourceChoice::All => None,
            SourceChoice::Chat => Some(SourceFilter::Chat),
            SourceChoice::Codex => Some(SourceFilter::Codex),
        }
    }

    /// The tag shown in the header.
    pub fn label(self) -> (r: &'static str)
        ensures
            self is All ==> r@ == "all"@,
            self is Chat ==> r@ == "chat"@,
            self is Codex ==> r@ == "codex"@,
    {
        match self {
            SourceChoice::All => "all",
            SourceChoice::Chat => "chat",
            SourceChoice::Codex => "codex",
        }
    }
}

/// A rectangle of the terminal grid.
#[derive(Clone, Copy, Debug, PartialEq, Eq, Structural)]
pub struct Rect {
    pub x: u16,
    pub y: u16,
    pub width: u16,
    pub height: u16,
}

impl Rect {
    /// Whether the cell at column `px`, row `py` lies inside.
    pub fn contains(self, px: u16, py: u16) -> (r: bool)
        ensures
            r == (self.x <= px < self.x + self.width && self.y <= py < self.y + self.height),
    {
        self.x <= px && (px as u32) < self.x as u32 + self.width as u32 && self.y <= py && (
        py as u32) < self.y as u32 + self.height as u32
    }
}

/// The sessions list sits left of the preview; the left pane is at least
/// this wide.
pub const MIN_LEFT_WIDTH: u16 = 20;

/// The preview pane is at least this wide.
pub const MIN_RIGHT_WIDTH: u16 = 24;

/// Whether a click at column `x` lands on the divider between the list
/// and the preview, within one cell.
pub fn near_divider(x: u16, body: Rect, list: Rect) -> (r: bool)
    ensures
        body.width == 0 ==> r == false,
        body.width > 0 ==> ({
            let divider = if list.x + list.width > u16::MAX {
                u16::MAX as int
            } else {
                list.x + list.width
            };
            let lo = if divider > 0 {
                divider - 1
            } else {
                0
            };
            let hi = if divider + 1 > u16::MAX {
                u16::MAX as int
            } else {
                divider + 1
            };
            r == (lo <= x <= hi)
        }),
{
    if body.width == 0 {
        return false;
    }
    let divider_x = if list.x as u32 + list.width as u32 > u16::MAX as u32 {
        u16::MAX
    } else {
        list.x + list.width
    };
    let min_x = if divider_x > 0 {
        divider_x - 1
    } else {
        0
    };
    let max_x = if divider_x < u16::MAX {
        divider_x + 1
    } else {
        u16::MAX
    };
    x >= min_x && x <= max_x
}

/// The left-pane width after dragging the divider to column `x`: clamped
/// so both panes keep their minimum width.
pub fn drag_left_width(x: u16, body: Rect) -> (r: u16)
    ensures
        ({
            let total = if body.width >= MIN_LEFT_WIDTH + MIN_RIGHT_WIDTH {
                body.width as int
            } else {
                (MIN_LEFT_WIDTH + MIN_RIGHT_WIDTH) as int
            };
            let raw = if x >= body.x {
                x - body.x
            } else {
                0
            };
            let lo = if raw < MIN_LEFT_WIDTH {
                MIN_LEFT_WIDTH as int
            } else {
                raw
            };
            r == (if lo > total - MIN_RIGHT_WIDTH {
                total - MIN_RIGHT_WIDTH
            } else {
                lo
            })
        }),
{
    let min_both = MIN_LEFT_WIDTH + MIN_RIGHT_WIDTH;
    let total = if body.width >= min_both {
        body.width
    } else {
        min_both
    };
    let mut left = if x >= body.x {
        x - body.x
    } else {
        0
    };
    if left < MIN_LEFT_WIDTH {
        left = MIN_LEFT_WIDTH;
    }
    if left > total - MIN_RIGHT_WIDTH {
        left = total - MIN_RIGHT_WIDTH;
    }
    left
}

/// The left-pane width to draw with: the saved width if any, else 45% of
/// the total, clamped so both panes keep their minimum width.
pub fn initial_left_width(body_width: u16, saved: Option<u16>) -> (r: u16)
    ensures
        ({
            let total = if body_width >= MIN_LEFT_WIDTH + MIN_RIGHT_WIDTH {
                body_width as int
            } else {
                (MIN_LEFT_WIDTH + MIN_RIGHT_WIDTH) as int
            };
            let base = match saved {
                Some(w) => w as int,
                None => (if total * 45 > u16::MAX {
                    u16::MAX as int
                } else {
                    total * 45
                }) / 100,
            };
            let lo = if base < MIN_LEFT_WIDTH {
                MIN_LEFT_WIDTH as int
            } else {
                base
            };
            r == (if lo > total - MIN_RIGHT_WIDTH {
                total - MIN_RIGHT_WIDTH
            } else {
                lo
            })
        }),
{
    let min_both = MIN_LEFT_WIDTH + MIN_RIGHT_WIDTH;
    let total = if body_width >= min_both {
        body_width
    } else {
        min_both
    };
    let mut left: u16;
    match saved {
        Some(w) => {
            left = w;
        },
        None => {
            let prod: u32 = total as u32 * 45;
            let sat: u32 = if prod > u16::MAX as u32 {
                u16::MAX as u32
            } else {
                prod
            };
            left = (sat / 100) as u16;
        },
    }
    if left < MIN_LEFT_WIDTH {
        left = MIN_LEFT_WIDTH;
    }
    if left > total - MIN_RIGHT_WIDTH {
        left = total - MIN_RIGHT_WIDTH;
    }
    left
}

/// The list row a click at `(px, py)` selects, if it lands on one of the
/// `len` entries inside the bordered area.
pub fn list_index_from_mouse(px: u16, py: u16, area: Rect, len: usize) -> (r: Option<usize>)
    ensures
        len == 0 ==> r is None,
        ({
            let content_y = if area.y + 1 > u16::MAX {
                u16::MAX as int
            } else {
                area.y + 1
            };
            let content_h = if area.height >= 2 {
                area.height - 2
            } else {
                0
            };
            &&& (len > 0 && content_y <= py < content_y + content_h && py - content_y < len
                ==> r == Some((py - content_y) as usize))
            &&& (!(content_y <= py < content_y + content_h) ==> r is None)
            &&& (content_y <= py && py - content_y >= len ==> r is None)
        }),
        r matches Some(i) ==> i < len,
{
    if len == 0 {
        return None;
    }
    let content_y = if area.y < u16::MAX {
        area.y + 1
    } else {
        u16::MAX
    };
    let content_h = if area.height >= 2 {
        area.height - 2
    } else {
        0
    };
    if py < content_y {
        return None;
    }
    if (py as u32) >= content_y as u32 + content_h as u32 {
        return None;
    }
    let row = (py - content_y) as usize;
    if row < len {
        Some(row)
    } else {
        None
    }
}

/// The selection after moving `amount` rows up or down in a list of
/// `len` entries, clamped to the ends.
pub fn step_index(cur: usize, up: bool, amount: usize, len: usize) -> (r: usize)
    requires
        cur < len,
    ensures
        up ==> r == (if cur >= amount {
            cur - amount
        } else {
            0
        }),
        !up ==> r == (if len - 1 - cur <= amount {
            len - 1
        } else {
            cur + amount
        }),
{
    if up {
        if cur >= amount {
            cur - amount
        } else {
            0
        }
    } else {
        if len - 1 - cur <= amount {
            len - 1
        } else {
            cur + amount
        }
    }
}

/// Replacement of every non-overlapping occurrence of `from`, left to
/// right, as `str::replace` does it.
pub open spec fn spec_replace(s: Seq<char>, from: Seq<char>, to: Seq<char>) -> Seq<char>
    decreases s.len(),
{
    if from.len() == 0 || s.len() < from.len() {
        s
    } else if s.take(from.len() as int) == from {
        to + spec_replace(s.skip(from.len() as int), from, to)
    } else {
        seq![s[0]] + spec_replace(s.drop_first(), from, to)
    }
}

/// Replaces every occurrence of the literal `from` by `to`.
pub fn replace_literal(s: &str, from: &str, to: &str) -> (r: String)
    requires
        from@.len() > 0,
    ensures
        r@ == spec_replace(s@, from@, to@),
{
    let sc = str_to_chars(s);
    let fc = str_to_chars(from);
    let tc = str_to_chars(to);
    let n = sc.len();
    let flen = fc.len();
    let mut out: Vec<char> = Vec::new();
    let mut i: usize = 0;
    proof {
        assert(s@.skip(0) =~= s@);
    }
    while i < n
        invariant
            sc@ == s@,
            fc@ == from@,
            tc@ == to@,
            n == s@.len(),
            flen == from@.len(),
            from@.len() > 0,
            i <= n,
            spec_replace(s@, from@, to@) == out@ + spec_replace(s@.skip(i as int), from@, to@),
        decreases n - i,
    {
        let ghost rest = s@.skip(i as int);
        if flen <= n - i && window_eq(&sc, &fc, i) {
            proof {
                assert(rest.take(from@.len() as int) =~= s@.subrange(i as int, i + from@.len()));
                assert(rest.skip(from@.len() as int) =~= s@.skip(i + from@.len()));
                assert(spec_replace(rest, from@, to@) == to@ + spec_replace(
                    s@.skip(i + from@.len()),
                    from@,
                    to@,
                ));
            }
            let ghost base = out@;
            let mut t: usize = 0;
            while t < tc.len()
                invariant
                    tc@ == to@,
                    t <= to@.len(),
                    out@ == base + to@.take(t as int),
                decreases to@.len() - t,
            {
                out.push(tc[t]);
                t = t + 1;
                proof {
                    assert(out@ =~= base + to@.take(t as int));
                }
            }
            proof {
                assert(to@.take(to@.len() as int) =~= to@);
                assert(out@ == base + to@);
            }
            i = i + flen;
            proof {
                assert(spec_replace(s@, from@, to@) == out@ + spec_replace(
                    s@.skip(i as int),
                    from@,
                    to@,
                ));
            }
        } else {
            proof {
                if rest.len() >= from@.len() {
                    assert(!seq_contains_at(s@, from@, i as int));
                    assert(rest.take(from@.len() as int) =~= s@.subrange(
                        i as int,
                        i + from@.len(),
                    ));
                    assert(rest.drop_first() =~= s@.skip(i + 1));
                    assert(spec_replace(rest, from@, to@) == seq![s@[i as int]] + spec_replace(
                        s@.skip(i + 1),
                        from@,
                        to@,
                    ));
                } else {
                    assert(spec_replace(rest, from@, to@) == rest);
                    assert(rest.drop_first() =~= s@.skip(i + 1));
                    assert(spec_replace(s@.skip(i + 1), from@, to@) == s@.skip(i + 1));
                    assert(rest =~= seq![s@[i as int]] + s@.skip(i + 1));
                }
            }
            out.push(sc[i]);
            i = i + 1;
            proof {
                assert(out@ + spec_replace(s@.skip(i as int), from@, to@) =~= spec_replace(
                    s@,
                    from@,
                    to@,
                ));
            }
        }
    }
    proof {
        assert(s@.skip(n as int).len() == 0);
        assert(spec_replace(s@.skip(n as int), from@, to@) == s@.skip(n as int));
        assert(out@ =~= spec_replace(s@, from@, to@));
    }
    crate::strutil::chars_to_string(out.as_slice())
}

/// The label a source kind prints in a template.
pub open spec fn spec_source_label(source: SourceKind) -> Seq<char> {
    match source {
        SourceKind::Chat => "chat"@,
        SourceKind::CodexSession => "codex"@,
        SourceKind::CodexHistory => "codex-history"@,
    }
}

/// The resume command for a session: the template with each placeholder
/// replaced, in this order.
pub open spec fn spec_expand_template(
    template: Seq<char>,
    session_id: Seq<char>,
    project: Seq<char>,
    source: SourceKind,
    source_path: Seq<char>,
) -> Seq<char> {
    let a = spec_replace(template, "{session_id}"@, session_id);
    let b = spec_replace(a, "{project}"@, project);
    let c = spec_replace(b, "{source}"@, spec_source_label(source));
    spec_replace(c, "{source_path}"@, source_path)
}

/// Fills a resume-command template with a session's values.
pub fn expand_resume_template(template: &str, session: &crate::session::SessionSummary) -> (r:
    String)
    ensures
        r@ == spec_expand_template(
            template@,
            session.session_id@,
            session.project@,
            session.source,
            session.source_path@,
        ),
{
    proof {
        reveal_strlit("{session_id}");
        reveal_strlit("{project}");
        reveal_strlit("{source}");
        reveal_strlit("{source_path}");
    }
    let a = replace_literal(template, "{session_id}", session.session_id.as_str());
    let b = replace_literal(a.as_str(), "{project}", session.project.as_str());
    let c = replace_literal(b.as_str(), "{source}", session.source.label());
    replace_literal(c.as_str(), "{source_path}", session.source_path.as_str())
}

/// The built-in resume template for a tool name: `chat` and `codex`
/// have one, anything else does not. Whether the tool is actually
/// installed is for the caller to check.
pub fn default_resume_template(cmd: &str) -> (r: Option<String>)
    ensures
        cmd@ == "chat"@ ==> (r matches Some(s) && s@ == "chat --resume {session_id}"@),
        cmd@ == "codex"@ ==> (r matches Some(s) && s@ == "codex resume {session_id}"@),
        cmd@ != "chat"@ && cmd@ != "codex"@ ==> r is None,
{
    proof {
        reveal_strlit("chat");
        reveal_strlit("codex");
        assert("chat"@.len() == 4);
        assert("codex"@.len() == 5);
    }
    if str_eq(cmd, "chat") {
        Some(String::from_str("chat --resume {session_id}"))
    } else if str_eq(cmd, "codex") {
        Some(String::from_str("codex resume {session_id}"))
    } else {
        None
    }
}

/// One key press, as the terminal reports it.
#[derive(Clone, Copy, Debug, PartialEq, Eq, Structural)]
pub enum Key {
    Tab,
    BackTab,
    Enter,
    Backspace,
    Up,
    Down,
    Esc,
    PageUp,
    PageDown,
    Char(char),
}

/// A key press with its control modifier.
#[derive(Clone, Copy, Debug, PartialEq, Eq, Structural)]
pub struct KeyInput {
    pub key: Key,
    pub ctrl: bool,
}

/// What the front end must do after a key step.
#[derive(Clone, Copy, Debug, PartialEq, Eq, Structural)]
pub enum UiAction {
    /// Redraw only.
    Nothing,
    /// Leave the interface.
    Quit,
    /// Run a new search with the current query and filters.
    Search,
    /// Rebuild the preview pane.
    RebuildDetail,
    /// Load the project list for the current source.
    LoadProjects,
    /// Resume the selected session.
    Resume,
    /// Trigger an index refresh.
    RefreshIndex,
}

/// The keyboard-relevant state of the interface.
#[derive(Debug)]
pub struct UiState {
    pub focus: Focus,
    pub query: String,
    pub project: String,
    pub find_query: String,
    pub source: SourceChoice,
    pub preview_mode: PreviewMode,
    pub show_tools: bool,
    /// How many sessions the list shows.
    pub results_len: usize,
    /// The selected session, if any.
    pub selected: Option<usize>,
    /// Every known project, for the project picker.
    pub all_projects: Vec<String>,
    /// The source the project list was loaded for.
    pub project_source: SourceChoice,
    /// The project picker's entries after filtering.
    pub project_options: Vec<String>,
    pub project_selected: usize,
    /// How many lines the preview holds.
    pub detail_len: usize,
    pub detail_scroll: usize,
}

/// The key ends the session: escape from the session list, or ctrl-q.
pub open spec fn spec_quit(f: Focus, key: KeyInput) -> bool {
    (key.key is Esc && f is List) || (key.ctrl && (key.key matches Key::Char(c) && c == 'q'))
}

/// The cycle order of the source restriction.
pub open spec fn spec_cycle(s: SourceChoice) -> SourceChoice {
    match s {
        SourceChoice::All => SourceChoice::Chat,
        SourceChoice::Chat => SourceChoice::Codex,
        SourceChoice::Codex => SourceChoice::All,
    }
}

/// Where keyboard focus lands after a key.
pub open spec fn spec_next_focus(f: Focus, key: KeyInput) -> Focus {
    if spec_quit(f, key) {
        f
    } else if key.key is Esc {
        if f is Find {
            Focus::Preview
        } else {
            Focus::List
        }
    } else {
        match f {
            Focus::Query => match key.key {
                Key::Tab => Focus::Project,
                Key::BackTab => Focus::Preview,
                Key::Enter => Focus::List,
                _ => f,
            },
            Focus::Project => match key.key {
                Key::Tab => Focus::List,
                Key::BackTab => Focus::Query,
                Key::Enter => Focus::List,
                _ => f,
            },
            Focus::Find => match key.key {
                Key::Enter => Focus::Preview,
                _ => f,
            },
            Focus::List => match key.key {
                Key::Tab => Focus::Preview,
                Key::BackTab => Focus::Project,
                Key::Char(c) => if c == 'l' {
                    Focus::Preview
                } else if c == '/' {
                    Focus::Query
                } else if c == 'p' {
                    Focus::Project
                } else if c == 'f' {
                    Focus::Find
                } else {
                    f
                },
                _ => f,
            },
            Focus::Preview => match key.key {
                Key::Tab => Focus::Query,
                Key::BackTab => Focus::List,
                Key::Char(c) => if c == 'h' {
                    Focus::List
                } else if c == '/' {
                    Focus::Find
                } else if c == 'p' {
                    Focus::Project
                } else if c == 'f' {
                    Focus::Find
                } else {
                    f
                },
                _ => f,
            },
        }
    }
}

/// The action a key asks for.
pub open spec fn spec_key_action(
    f: Focus,
    key: KeyInput,
    projects_empty: bool,
    project_source: SourceChoice,
    source: SourceChoice,
    results_len: int,
) -> UiAction {
    if spec_quit(f, key) {
        UiAction::Quit
    } else if key.key is Esc {
        UiAction::Nothing
    } else {
        match f {
            Focus::Query => if key.key is Enter {
                UiAction::Search
            } else {
                UiAction::Nothing
            },
            Focus::Project => if key.key is Enter {
                UiAction::Search
            } else {
                UiAction::Nothing
            },
            Focus::Find => match key.key {
                Key::Enter => UiAction::RebuildDetail,
                Key::Backspace => UiAction::RebuildDetail,
                Key::Char(c) => if !key.ctrl {
                    UiAction::RebuildDetail
                } else {
                    UiAction::Nothing
                },
                _ => UiAction::Nothing,
            },
            Focus::List => match key.key {
                Key::Up => if results_len > 0 {
                    UiAction::RebuildDetail
                } else {
                    UiAction::Nothing
                },
                Key::Down => if results_len > 0 {
                    UiAction::RebuildDetail
                } else {
                    UiAction::Nothing
                },
                Key::Char(c) => if c == 'j' || c == 'k' {
                    if results_len > 0 {
                        UiAction::RebuildDetail
                    } else {
                        UiAction::Nothing
                    }
                } else if c == 's' {
                    UiAction::Search
                } else if c == 'm' || c == 't' {
                    UiAction::RebuildDetail
                } else if c == 'r' {
                    UiAction::Resume
                } else if c == 'p' {
                    if projects_empty || project_source != source {
                        UiAction::LoadProjects
                    } else {
                        UiAction::Nothing
                    }
                } else if c == 'f' {
                    UiAction::RebuildDetail
                } else if c == 'i' {
                    UiAction::RefreshIndex
                } else {
                    UiAction::Nothing
                },
                _ => UiAction::Nothing,
            },
            Focus::Preview => match key.key {
                Key::Char(c) => if c == 's' {
                    UiAction::Search
                } else if c == 'm' || c == 't' {
                    UiAction::RebuildDetail
                } else if c == 'r' {
                    UiAction::Resume
                } else if c == '/' || c == 'f' {
                    UiAction::RebuildDetail
                } else if c == 'p' {
                    if projects_empty || project_source != source {
                        UiAction::LoadProjects
                    } else {
                        UiAction::Nothing
                    }
                } else if c == 'i' {
                    UiAction::RefreshIndex
                } else {
                    UiAction::Nothing
                },
                _ => UiAction::Nothing,
            },
        }
    }
}

/// The query text after a key: edited while the query field has focus,
/// cleared by `/` from the session list.
pub open spec fn spec_query_after(f: Focus, key: KeyInput, q: Seq<char>) -> Seq<char> {
    if spec_quit(f, key) || key.key is Esc {
        q
    } else {
        match f {
            Focus::Query => match key.key {
                Key::Backspace => if q.len() > 0 {
                    q.drop_last()
                } else {
                    q
                },
                Key::Char(c) => if !key.ctrl {
                    q.push(c)
                } else {
                    q
                },
                _ => q,
            },
            Focus::List => if key.key matches Key::Char(c) && c == '/' {
                Seq::empty()
            } else {
                q
            },
            _ => q,
        }
    }
}

/// The find text after a key: edited while the find field has focus,
/// cleared when the find field is entered afresh.
pub open spec fn spec_find_after(f: Focus, key: KeyInput, fq: Seq<char>) -> Seq<char> {
    if spec_quit(f, key) || key.key is Esc {
        fq
    } else {
        match f {
            Focus::Find => match key.key {
                Key::Backspace => if fq.len() > 0 {
                    fq.drop_last()
                } else {
                    fq
                },
                Key::Char(c) => if !key.ctrl {
                    fq.push(c)
                } else {
                    fq
                },
                _ => fq,
            },
            Focus::Preview => if key.key matches Key::Char(c) && (c == '/' || c == 'f') {
                Seq::empty()
            } else {
                fq
            },
            Focus::List => if key.key matches Key::Char(c) && c == 'f' {
                Seq::empty()
            } else {
                fq
            },
            _ => fq,
        }
    }
}

/// The project text after a key: edited while the project field has
/// focus; entering confirms the highlighted suggestion.
pub open spec fn spec_project_after(
    f: Focus,
    key: KeyInput,
    p: Seq<char>,
    options: Seq<Seq<char>>,
    sel: int,
) -> Seq<char> {
    if spec_quit(f, key) || key.key is Esc || !(f is Project) {
        p
    } else {
        match key.key {
            Key::Backspace => if p.len() > 0 {
                p.drop_last()
            } else {
                p
            },
            Key::Char(c) => if !key.ctrl {
                p.push(c)
            } else {
                p
            },
            Key::Enter => if 0 <= sel < options.len() {
                options[sel]
            } else {
                p
            },
            _ => p,
        }
    }
}

/// Whether a key edits the project field, forcing the suggestions to be
/// refiltered.
pub open spec fn spec_project_edited(f: Focus, key: KeyInput) -> bool {
    &&& !spec_quit(f, key)
    &&& !(key.key is Esc)
    &&& f is Project
    &&& (key.key is Backspace || (key.key matches Key::Char(c) && !key.ctrl))
}

/// The selection after a clamped move of `amount`, on a list of `n`.
pub open spec fn spec_moved_index(sel: Option<usize>, up: bool, amount: int, n: int) -> Option<
    usize,
> {
    if n == 0 {
        None
    } else {
        let cur = match sel {
            Some(v) => v as int,
            None => 0,
        };
        let moved = if up {
            if cur >= amount {
                cur - amount
            } else {
                0
            }
        } else {
            cur + amount
        };
        let clamped = if moved > n - 1 {
            n - 1
        } else {
            moved
        };
        Some(clamped as usize)
    }
}

/// The selected session after a key.
pub open spec fn spec_selected_after(
    f: Focus,
    key: KeyInput,
    sel: Option<usize>,
    n: int,
) -> Option<usize> {
    if spec_quit(f, key) || key.key is Esc || !(f is List) {
        sel
    } else {
        match key.key {
            Key::Up => spec_moved_index(sel, true, 1, n),
            Key::Down => spec_moved_index(sel, false, 1, n),
            Key::Char(c) => if c == 'k' {
                spec_moved_index(sel, true, 1, n)
            } else if c == 'j' {
                spec_moved_index(sel, false, 1, n)
            } else {
                sel
            },
            _ => sel,
        }
    }
}

/// A scroll position moved by `delta` and clamped to the preview's
/// lines; an empty preview does not scroll.
pub open spec fn spec_scrolled(scroll: int, delta: int, detail_len: int) -> int {
    if detail_len == 0 {
        scroll
    } else {
        let moved = scroll + delta;
        let lo = if moved < 0 {
            0
        } else {
            moved
        };
        if lo > detail_len - 1 {
            detail_len - 1
        } else {
            lo
        }
    }
}

/// The preview scroll position after a key.
pub open spec fn spec_scroll_after(f: Focus, key: KeyInput, scroll: int, detail_len: int) -> int {
    if spec_quit(f, key) || key.key is Esc || !(f is Preview) {
        scroll
    } else {
        match key.key {
            Key::Char(c) => if c == 'j' {
                spec_scrolled(scroll, 1, detail_len)
            } else if c == 'k' {
                spec_scrolled(scroll, -1, detail_len)
            } else {
                scroll
            },
            Key::PageDown => spec_scrolled(scroll, 8, detail_len),
            Key::PageUp => spec_scrolled(scroll, -8, detail_len),
            _ => scroll,
        }
    }
}

/// The source restriction after a key.
pub open spec fn spec_source_after(f: Focus, key: KeyInput, s: SourceChoice) -> SourceChoice {
    if !spec_quit(f, key) && !(key.key is Esc) && (f is List || f is Preview) && (
    key.key matches Key::Char(c) && c == 's') {
        spec_cycle(s)
    } else {
        s
    }
}

/// The preview mode after a key.
pub open spec fn spec_mode_after(f: Focus, key: KeyInput, m: PreviewMode) -> PreviewMode {
    if !spec_quit(f, key) && !(key.key is Esc) && (f is List || f is Preview) && (
    key.key matches Key::Char(c) && c == 'm') {
        match m {
            PreviewMode::Matches => PreviewMode::History,
            PreviewMode::History => PreviewMode::Matches,
        }
    } else {
        m
    }
}

/// The tools toggle after a key.
pub open spec fn spec_tools_after(f: Focus, key: KeyInput, t: bool) -> bool {
    if !spec_quit(f, key) && !(key.key is Esc) && (f is List || f is Preview) && (
    key.key matches Key::Char(c) && c == 't') {
        !t
    } else {
        t
    }
}

/// The project picker's highlighted row after a key that does not edit
/// the filter text.
pub open spec fn spec_project_selected_after(
    f: Focus,
    key: KeyInput,
    psel: int,
    options_len: int,
) -> int {
    if spec_quit(f, key) || key.key is Esc || !(f is Project) {
        psel
    } else {
        match key.key {
            Key::Up => if options_len == 0 {
                0
            } else {
                let moved = if psel >= 1 {
                    psel - 1
                } else {
                    0
                };
                if moved > options_len - 1 {
                    options_len - 1
                } else {
                    moved
                }
            },
            Key::Down => if options_len == 0 {
                0
            } else {
                let moved = psel + 1;
                if moved > options_len - 1 {
                    options_len - 1
                } else {
                    moved
                }
            },
            _ => psel,
        }
    }
}

fn moved_index(sel: Option<usize>, up: bool, amount: usize, n: usize) -> (r: Option<usize>)
    ensures
        r == spec_moved_index(sel, up, amount as int, n as int),
{
    if n == 0 {
        return None;
    }
    let cur: usize = match sel {
        Some(v) => v,
        None => 0,
    };
    if up {
        let m = if cur >= amount {
            cur - amount
        } else {
            0
        };
        if m > n - 1 {
            Some(n - 1)
        } else {
            Some(m)
        }
    } else {
        if cur >= n - 1 {
            Some(n - 1)
        } else if amount >= n - 1 - cur {
            Some(n - 1)
        } else {
            Some(cur + amount)
        }
    }
}

fn scroll_by(scroll: usize, up: bool, amount: usize, detail_len: usize) -> (r: usize)
    ensures
        r as int == spec_scrolled(
            scroll as int,
            if up {
                -(amount as int)
            } else {
                amount as int
            },
            detail_len as int,
        ),
{
    if detail_len == 0 {
        return scroll;
    }
    if up {
        let m = if scroll >= amount {
            scroll - amount
        } else {
            0
        };
        if m > detail_len - 1 {
            detail_len - 1
        } else {
            m
        }
    } else {
        if scroll >= detail_len - 1 {
            detail_len - 1
        } else if amount >= detail_len - 1 - scroll {
            detail_len - 1
        } else {
            scroll + amount
        }
    }
}

impl UiState {
    fn refilter_projects(&mut self)
        ensures
            final(self).project_options@.map_values(|s: String| s@)
                == crate::session::spec_filter_projects(
                old(self).all_projects@.map_values(|s: String| s@),
                old(self).project@,
                old(self).all_projects@.len() as int,
            ),
            final(self).project_selected == (if final(self).project_options@.len() == 0 || old(
                self,
            ).project_selected >= final(self).project_options@.len() {
                0int
            } else {
                old(self).project_selected as int
            }),
            final(self).focus == old(self).focus,
            final(self).query == old(self).query,
            final(self).project == old(self).project,
            final(self).find_query == old(self).find_query,
            final(self).source == old(self).source,
            final(self).preview_mode == old(self).preview_mode,
            final(self).show_tools == old(self).show_tools,
            final(self).results_len == old(self).results_len,
            final(self).selected == old(self).selected,
            final(self).all_projects == old(self).all_projects,
            final(self).project_source == old(self).project_source,
            final(self).detail_len == old(self).detail_len,
            final(self).detail_scroll == old(self).detail_scroll,
    {
        let options = filter_projects(&self.all_projects, self.project.as_str());
        self.project_options = options;
        if self.project_options.len() == 0 || self.project_selected >= self.project_options.len() {
            self.project_selected = 0;
        }
    }
}

/// One keyboard step of the interface: applies the key to the state and
/// says what the front end must do next. Every transition is stated by
/// the `spec_..._after` functions above: where focus lands, how the
/// query, find and project texts change, which toggles flip, and how the
/// selection and scroll move.
pub fn step_key(state: &mut UiState, input: KeyInput) -> (r: UiAction)
    ensures
        r == spec_key_action(
            old(state).focus,
            input,
            old(state).all_projects@.len() == 0,
            old(state).project_source,
            old(state).source,
            old(state).results_len as int,
        ),
        final(state).focus == spec_next_focus(old(state).focus, input),
        final(state).query@ == spec_query_after(old(state).focus, input, old(state).query@),
        final(state).find_query@ == spec_find_after(
            old(state).focus,
            input,
            old(state).find_query@,
        ),
        final(state).project@ == spec_project_after(
            old(state).focus,
            input,
            old(state).project@,
            old(state).project_options@.map_values(|s: String| s@),
            old(state).project_selected as int,
        ),
        final(state).source == spec_source_after(old(state).focus, input, old(state).source),
        final(state).preview_mode == spec_mode_after(
            old(state).focus,
            input,
            old(state).preview_mode,
        ),
        final(state).show_tools == spec_tools_after(
            old(state).focus,
            input,
            old(state).show_tools,
        ),
        final(state).selected == spec_selected_after(
            old(state).focus,
            input,
            old(state).selected,
            old(state).results_len as int,
        ),
        final(state).detail_scroll as int == spec_scroll_after(
            old(state).focus,
            input,
            old(state).detail_scroll as int,
            old(state).detail_len as int,
        ),
        spec_project_edited(old(state).focus, input) ==> ({
            let ns = *final(state);
            let os = *old(state);
            &&& ns.project_options@.map_values(|s: String| s@)
                == crate::session::spec_filter_projects(
                os.all_projects@.map_values(|s: String| s@),
                ns.project@,
                os.all_projects@.len() as int,
            )
            &&& ns.project_selected == (if ns.project_options@.len() == 0 || os.project_selected
                >= ns.project_options@.len() {
                0int
            } else {
                os.project_selected as int
            })
        }),
        !spec_project_edited(old(state).focus, input) ==> ({
            let ns = *final(state);
            let os = *old(state);
            &&& ns.project_options == os.project_options
            &&& ns.project_selected as int == spec_project_selected_after(
                os.focus,
                input,
                os.project_selected as int,
                os.project_options@.len() as int,
            )
        }),
        final(state).results_len == old(state).results_len,
        final(state).detail_len == old(state).detail_len,
        final(state).all_projects == old(state).all_projects,
        final(state).project_source == old(state).project_source,
{
    if matches!(input.key, Key::Esc) {
        if matches!(state.focus, Focus::List) {
            return UiAction::Quit;
        }
        if matches!(state.focus, Focus::Find) {
            state.focus = Focus::Preview;
        } else {
            state.focus = Focus::List;
        }
        return UiAction::Nothing;
    }
    if input.ctrl && matches!(input.key, Key::Char('q')) {
        return UiAction::Quit;
    }
    match state.focus {
        Focus::Query => {
            match input.key {
                Key::Tab => {
                    state.focus = Focus::Project;
                    UiAction::Nothing
                },
                Key::BackTab => {
                    state.focus = Focus::Preview;
                    UiAction::Nothing
                },
                Key::Enter => {
                    state.focus = Focus::List;
                    UiAction::Search
                },
                Key::Backspace => {
                    crate::strutil::string_pop(&mut state.query);
                    UiAction::Nothing
                },
                Key::Char(ch) => {
                    if !input.ctrl {
                        crate::strutil::push_char(&mut state.query, ch);
                    }
                    UiAction::Nothing
                },
                _ => UiAction::Nothing,
            }
        },
        Focus::Project => {
            match input.key {
                Key::Tab => {
                    state.focus = Focus::List;
                    UiAction::Nothing
                },
                Key::BackTab => {
                    state.focus = Focus::Query;
                    UiAction::Nothing
                },
                Key::Enter => {
                    if state.project_selected < state.project_options.len() {
                        let chosen = state.project_options[state.project_selected].clone();
                        proof {
                            assert(old(state).project_options@.map_values(|s: String| s@)[old(
                                state,
                            ).project_selected as int] == old(state).project_options@[old(
                                state,
                            ).project_selected as int]@);
                        }
                        state.project = chosen;
                    }
                    state.focus = Focus::List;
                    UiAction::Search
                },
                Key::Backspace => {
                    crate::strutil::string_pop(&mut state.project);
                    state.refilter_projects();
                    UiAction::Nothing
                },
                Key::Up => {
                    let moved = moved_index(
                        if state.project_options.len() == 0 {
                            None
                        } else {
                            Some(state.project_selected)
                        },
                        true,
                        1,
                        state.project_options.len(),
                    );
                    state.project_selected = match moved {
                        Some(v) => v,
                        None => 0,
                    };
                    UiAction::Nothing
                },
                Key::Down => {
                    let moved = moved_index(
                        if state.project_options.len() == 0 {
                            None
                        } else {
                            Some(state.project_selected)
                        },
                        false,
                        1,
                        state.project_options.len(),
                    );
                    state.project_selected = match moved {
                        Some(v) => v,
                        None => 0,
                    };
                    UiAction::Nothing
                },
                Key::Char(ch) => {
                    if !input.ctrl {
                        crate::strutil::push_char(&mut state.project, ch);
                        state.refilter_projects();
                    }
                    UiAction::Nothing
                },
                _ => UiAction::Nothing,
            }
        },
        Focus::Find => {
            match input.key {
                Key::Enter => {
                    state.focus = Focus::Preview;
                    UiAction::RebuildDetail
                },
                Key::Backspace => {
                    crate::strutil::string_pop(&mut state.find_query);
                    UiAction::RebuildDetail
                },
                Key::Char(ch) => {
                    if !input.ctrl {
                        crate::strutil::push_char(&mut state.find_query, ch);
                        UiAction::RebuildDetail
                    } else {
                        UiAction::Nothing
                    }
                },
                _ => UiAction::Nothing,
            }
        },
        Focus::List => {
            match input.key {
                Key::Tab => {
                    state.focus = Focus::Preview;
                    UiAction::Nothing
                },
                Key::BackTab => {
                    state.focus = Focus::Project;
                    UiAction::Nothing
                },
                Key::Up => {
                    state.selected = moved_index(state.selected, true, 1, state.results_len);
                    if state.results_len > 0 {
                        UiAction::RebuildDetail
                    } else {
                        UiAction::Nothing
                    }
                },
                Key::Down => {
                    state.selected = moved_index(state.selected, false, 1, state.results_len);
                    if state.results_len > 0 {
                        UiAction::RebuildDetail
                    } else {
                        UiAction::Nothing
                    }
                },
                Key::Char(ch) => {
                    if ch == 'j' {
                        state.selected = moved_index(state.selected, false, 1, state.results_len);
                        if state.results_len > 0 {
                            UiAction::RebuildDetail
                        } else {
                            UiAction::Nothing
                        }
                    } else if ch == 'k' {
                        state.selected = moved_index(state.selected, true, 1, state.results_len);
                        if state.results_len > 0 {
                            UiAction::RebuildDetail
                        } else {
                            UiAction::Nothing
                        }
                    } else if ch == 'l' {
                        state.focus = Focus::Preview;
                        UiAction::Nothing
                    } else if ch == 's' {
                        state.source = state.source.cycle();
                        UiAction::Search
                    } else if ch == 'm' {
                        state.preview_mode = state.preview_mode.toggled();
                        UiAction::RebuildDetail
                    } else if ch == 't' {
                        state.show_tools = !state.show_tools;
                        UiAction::RebuildDetail
                    } else if ch == 'r' {
                        UiAction::Resume
                    } else if ch == '/' {
                        state.focus = Focus::Query;
                        state.query = String::new();
                        UiAction::Nothing
                    } else if ch == 'p' {
                        state.focus = Focus::Project;
                        if state.all_projects.len() == 0 || !(state.project_source
                            == state.source) {
                            UiAction::LoadProjects
                        } else {
                            UiAction::Nothing
                        }
                    } else if ch == 'f' {
                        state.focus = Focus::Find;
                        state.find_query = String::new();
                        UiAction::RebuildDetail
                    } else if ch == 'i' {
                        UiAction::RefreshIndex
                    } else {
                        UiAction::Nothing
                    }
                },
                _ => UiAction::Nothing,
            }
        },
        Focus::Preview => {
            match input.key {
                Key::Tab => {
                    state.focus = Focus::Query;
                    UiAction::Nothing
                },
                Key::BackTab => {
                    state.focus = Focus::List;
                    UiAction::Nothing
                },
                Key::PageDown => {
                    state.detail_scroll = scroll_by(state.detail_scroll, false, 8, state.detail_len);
                    UiAction::Nothing
                },
                Key::PageUp => {
                    state.detail_scroll = scroll_by(state.detail_scroll, true, 8, state.detail_len);
                    UiAction::Nothing
                },
                Key::Char(ch) => {
                    if ch == 'j' {
                        state.detail_scroll = scroll_by(
                            state.detail_scroll,
                            false,
                            1,
                            state.detail_len,
                        );
                        UiAction::Nothing
                    } else if ch == 'k' {
                        state.detail_scroll = scroll_by(
                            state.detail_scroll,
                            true,
                            1,
                            state.detail_len,
                        );
                        UiAction::Nothing
                    } else if ch == 'h' {
                        state.focus = Focus::List;
                        UiAction::Nothing
                    } else if ch == 's' {
                        state.source = state.source.cycle();
                        UiAction::Search
                    } else if ch == 'm' {
                        state.preview_mode = state.preview_mode.toggled();
                        UiAction::RebuildDetail
                    } else if ch == 't' {
                        state.show_tools = !state.show_tools;
                        UiAction::RebuildDetail
                    } else if ch == 'r' {
                        UiAction::Resume
                    } else if ch == '/' {
                        state.focus = Focus::Find;
                        state.find_query = String::new();
                        UiAction::RebuildDetail
                    } else if ch == 'p' {
                        state.focus = Focus::Project;
                        if state.all_projects.len() == 0 || !(state.project_source
                            == state.source) {
                            UiAction::LoadProjects
                        } else {
                            UiAction::Nothing
                        }
                    } else if ch == 'f' {
                        state.focus = Focus::Find;
                        state.find_query = String::new();
                        UiAction::RebuildDetail
                    } else if ch == 'i' {
                        UiAction::RefreshIndex
                    } else {
                        UiAction::Nothing
                    }
                },
                _ => UiAction::Nothing,
            }
        },
    }
}

/// The template used to resume a session of the given kind: the
/// configured command when present, else the built-in one when the tool
/// is available.
pub fn resume_template_for(
    source: SourceKind,
    chat_cmd: &Option<String>,
    codex_cmd: &Option<String>,
    chat_available: bool,
    codex_available: bool,
) -> (r: Option<String>)
    ensures
        source is Chat ==> (chat_cmd matches Some(c) ==> (r matches Some(s) && s@ == c@)),
        source is Chat && chat_cmd is None && chat_available ==> (r matches Some(s) && s@
            == "chat --resume {session_id}"@),
        source is Chat && chat_cmd is None && !chat_available ==> r is None,
        !(source is Chat) ==> (codex_cmd matches Some(c) ==> (r matches Some(s) && s@ == c@)),
        !(source is Chat) && codex_cmd is None && codex_available ==> (r matches Some(s) && s@
            == "codex resume {session_id}"@),
        !(source is Chat) && codex_cmd is None && !codex_available ==> r is None,
{
    match source {
        SourceKind::Chat => {
            match chat_cmd {
                Some(c) => Some(c.clone()),
                None => {
                    if chat_available {
                        proof {
                            reveal_strlit("chat");
                        }
                        default_resume_template("chat")
                    } else {
                        None
                    }
                },
            }
        },
        SourceKind::CodexSession | SourceKind::CodexHistory => {
            match codex_cmd {
                Some(c) => Some(c.clone()),
                None => {
                    if codex_available {
                        proof {
                            reveal_strlit("codex");
                        }
                        default_resume_template("codex")
                    } else {
                        None
                    }
                },
            }
        },
    }
}

} // verus!
