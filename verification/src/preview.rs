//! Preview assembly: the playback order of a session's records and the
//! structured lines the preview pane shows, either query-relevant windows
//! or the whole history.

use vstd::prelude::*;
use vstd::multiset::Multiset;
use crate::error::MemexError;
use crate::session::SessionSummary;
use crate::text::{spec_summarize, summarize};
use crate::tokens::{matches_any, query_terms, spec_matches_any, spec_query_terms, views_of};
use crate::types::{is_tool_role, spec_is_tool_role, Record, SourceKind};

verus! {

broadcast use vstd::seq_lib::group_to_multiset_ensures;

/// In the matches view, this many neighbours above and below a matching
/// record are shown with it.
pub const CONTEXT_AROUND_MATCH: usize = 1;

/// Without a query, the matches view shows this many of the most recent
/// records of the session.
pub const DETAIL_TAIL_LINES: usize = 10;

/// Message text longer than this many characters is cut with an ellipsis.
pub const MAX_MESSAGE_CHARS: usize = 4000;

/// What the preview pane shows for one session or for its full history.
#[derive(Clone, Copy, Debug, PartialEq, Eq, Structural)]
pub enum PreviewMode {
    /// Only records matching the query, with context around each.
    Matches,
    /// Every record of the session, in playback order.
    History,
}

impl PreviewMode {
    /// The other mode.
    pub fn toggled(self) -> (r: PreviewMode)
        ensures
            self is Matches ==> r is History,
            self is History ==> r is Matches,
    {
        match self {
            PreviewMode::Matches => PreviewMode::History,
            PreviewMode::History => PreviewMode::Matches,
        }
    }
}

/// One structured line of the preview; the front end decides colours and
/// wrapping.
#[derive(Debug)]
pub enum PreviewItem {
    /// The session line at the top.
    Header { session_id: String, project: String, source: SourceKind },
    /// The snippet of the best-scoring record.
    TopHit { snippet: String },
    /// An empty separator line.
    Blank,
    /// A guidance line, shown when there is nothing else to show.
    Note { text: String },
    /// One record; `highlight` marks records shown because of a match.
    Message { ts: u64, role: String, text: String, highlight: bool },
}

/// Playback order: by turn, then timestamp, then document id.
pub open spec fn playback_le(a: Record, b: Record) -> bool {
    ||| a.turn_id < b.turn_id
    ||| (a.turn_id == b.turn_id && a.ts < b.ts)
    ||| (a.turn_id == b.turn_id && a.ts == b.ts && a.doc_id <= b.doc_id)
}

/// `s` is in playback order.
pub open spec fn playback_sorted(s: Seq<Record>) -> bool {
    forall|i: int, j: int| 0 <= i < j < s.len() ==> playback_le(s[i], s[j])
}

/// No two records share a document id.
pub open spec fn doc_ids_distinct(s: Seq<Record>) -> bool {
    forall|i: int, j: int| 0 <= i < j < s.len() ==> s[i].doc_id != s[j].doc_id
}

fn playback_le_exec(a: &Record, b: &Record) -> (r: bool)
    ensures
        r == playback_le(*a, *b),
{
    a.turn_id < b.turn_id || (a.turn_id == b.turn_id && a.ts < b.ts) || (a.turn_id == b.turn_id
        && a.ts == b.ts && a.doc_id <= b.doc_id)
}

/// Sorts a session's records into playback order; the result holds
/// exactly the input records.
pub fn session_playback(input: Vec<Record>) -> (r: Vec<Record>)
    ensures
        playback_sorted(r@),
        r@.to_multiset() == input@.to_multiset(),
        r@.len() == input@.len(),
{
    let ghost orig = input@;
    let mut src = input;
    let mut out: Vec<Record> = Vec::new();
    while src.len() > 0
        invariant
            playback_sorted(out@),
            out@.to_multiset().add(src@.to_multiset()) == orig.to_multiset(),
            out@.len() + src@.len() == orig.len(),
            forall|i: int, j: int|
                0 <= i < out@.len() && 0 <= j < src@.len() ==> playback_le(out@[i], src@[j]),
        decreases src@.len(),
    {
        let mut m: usize = 0;
        let mut k: usize = 1;
        while k < src.len()
            invariant
                m < k <= src@.len() || (k <= src@.len() && m == 0),
                m < src@.len(),
                src@.len() > 0,
                forall|t: int| 0 <= t < k ==> playback_le(src@[m as int], src@[t]),
            decreases src@.len() - k,
        {
            if !playback_le_exec(&src[m], &src[k]) {
                m = k;
            }
            k = k + 1;
        }
        let ghost old_out = out@;
        let ghost old_src = src@;
        let x = src.remove(m);
        out.push(x);
        proof {
            assert(out@ =~= old_out.push(x));
            assert(out@.to_multiset() =~= old_out.to_multiset().insert(x));
            assert(src@.to_multiset() =~= old_src.to_multiset().remove(x));
            assert(old_src.to_multiset().count(x) > 0) by {
                assert(old_src[m as int] == x);
                assert(old_src.contains(x));
            }
            assert(out@.to_multiset().add(src@.to_multiset()) =~= orig.to_multiset());
            assert forall|j: int| 0 <= j < src@.len() implies playback_le(x, src@[j]) by {
                if j < m {
                    assert(src@[j] == old_src[j]);
                } else {
                    assert(src@[j] == old_src[j + 1]);
                }
            }
            assert forall|i: int, j: int|
                0 <= i < j < out@.len() implies playback_le(out@[i], out@[j]) by {
                if j < out@.len() - 1 {
                    assert(playback_le(old_out[i], old_out[j]));
                } else {
                    assert(out@[j] == x);
                    if i < out@.len() - 1 {
                        assert(playback_le(old_out[i], old_src[m as int]));
                    }
                }
            }
        }
    }
    proof {
        assert(src@.to_multiset() =~= Multiset::empty());
        assert(out@.to_multiset() =~= out@.to_multiset().add(src@.to_multiset()));
    }
    out
}

/// The playback order is total: two playback-sorted arrangements of the
/// same records, with distinct document ids, are one and the same. The
/// order a session plays back in is therefore deterministic.
pub proof fn lemma_playback_order_unique(a: Seq<Record>, b: Seq<Record>)
    requires
        playback_sorted(a),
        playback_sorted(b),
        doc_ids_distinct(a),
        a.to_multiset() == b.to_multiset(),
    ensures
        a == b,
    decreases a.len(),
{
    if a.len() == 0 {
        assert(b.to_multiset().len() == 0);
        assert(a =~= b);
    } else {
        assert(a.to_multiset().count(a[0]) > 0) by {
            assert(a.contains(a[0]));
        }
        assert(b.to_multiset().count(a[0]) > 0);
        assert(b.contains(a[0]));
        assert(b.len() > 0);
        assert(a.to_multiset().count(b[0]) > 0) by {
            assert(b.contains(b[0]));
        }
        assert(a.contains(b[0]));
        let ia = choose|ia: int| 0 <= ia < a.len() && a[ia] == b[0];
        let ib = choose|ib: int| 0 <= ib < b.len() && b[ib] == a[0];
        // each head precedes the other's position, so the heads tie on every key
        assert(playback_le(a[0], a[ia]));
        assert(playback_le(b[0], b[ib]));
        assert(a[0].doc_id == b[0].doc_id);
        // distinct ids force the heads to be the same record
        if ia != 0 {
            assert(a[ia].doc_id == b[0].doc_id);
            assert(a[0].doc_id != a[ia].doc_id);
            assert(playback_le(a[ia], a[0]) || playback_le(a[0], a[ia]));
            assert(false);
        }
        assert(a[0] == b[0]);
        let ta = a.drop_first();
        let tb = b.drop_first();
        assert(ta.to_multiset() =~= a.to_multiset().remove(a[0])) by {
            assert(a.remove(0) =~= ta);
            assert(a.remove(0).to_multiset() =~= a.to_multiset().remove(a[0]));
        }
        assert(tb.to_multiset() =~= b.to_multiset().remove(b[0])) by {
            assert(b.remove(0) =~= tb);
            assert(b.remove(0).to_multiset() =~= b.to_multiset().remove(b[0]));
        }
        assert(playback_sorted(ta)) by {
            assert(forall|i: int, j: int|
                0 <= i < j < ta.len() ==> playback_le(#[trigger] ta[i], #[trigger] ta[j]));
        }
        assert(playback_sorted(tb)) by {
            assert(forall|i: int, j: int|
                0 <= i < j < tb.len() ==> playback_le(#[trigger] tb[i], #[trigger] tb[j]));
        }
        assert(doc_ids_distinct(ta)) by {
            assert(forall|i: int, j: int|
                0 <= i < j < ta.len() ==> (#[trigger] ta[i]).doc_id != (#[trigger] ta[j]).doc_id);
        }
        lemma_playback_order_unique(ta, tb);
        assert(a.len() == b.len()) by {
            assert(a.to_multiset().len() == a.len());
            assert(b.to_multiset().len() == b.len());
        }
        assert forall|i: int| 0 <= i < a.len() implies a[i] == b[i] by {
            if i > 0 {
                assert(a[i] == ta[i - 1]);
                assert(b[i] == tb[i - 1]);
            }
        }
        assert(a =~= b);
    }
}

/// The text a record shows: cut to [`MAX_MESSAGE_CHARS`] characters with
/// a trailing ellipsis when longer.
pub open spec fn spec_preview_text(text: Seq<char>) -> Seq<char> {
    if text.len() > MAX_MESSAGE_CHARS {
        spec_summarize(text, MAX_MESSAGE_CHARS as nat) + " \u{2026}"@
    } else {
        text
    }
}

fn preview_text(text: &str) -> (r: String)
    ensures
        r@ == spec_preview_text(text@),
{
    let chars = crate::strutil::str_to_chars(text);
    if chars.len() > MAX_MESSAGE_CHARS {
        let mut cut = summarize(text, MAX_MESSAGE_CHARS);
        cut.append(" \u{2026}");
        cut
    } else {
        text.to_owned()
    }
}

/// Whether `item` shows the record `rec`, marked `highlight`.
pub open spec fn message_matches(item: PreviewItem, rec: Record, highlight: bool) -> bool {
    item matches PreviewItem::Message { ts, role, text, highlight: h } && ts == rec.ts && role@
        == rec.role@ && text@ == spec_preview_text(rec.text@) && h == highlight
}

fn push_message(items: &mut Vec<PreviewItem>, rec: &Record, highlight: bool)
    ensures
        final(items)@.len() == old(items)@.len() + 1,
        forall|t: int| 0 <= t < old(items)@.len() ==> final(items)@[t] == old(items)@[t],
        message_matches(final(items)@.last(), *rec, highlight),
{
    let text = preview_text(rec.text.as_str());
    items.push(PreviewItem::Message { ts: rec.ts, role: rec.role.clone(), text, highlight });
}

/// The records of `recs` the preview may show: tool records are hidden
/// unless `show_tools`.
pub open spec fn visible_records(recs: Seq<Record>, show_tools: bool, i: int) -> Seq<Record>
    decreases i,
{
    if i <= 0 {
        Seq::empty()
    } else {
        let prev = visible_records(recs, show_tools, i - 1);
        if show_tools || !spec_is_tool_role(recs[i - 1].role@) {
            prev.push(recs[i - 1])
        } else {
            prev
        }
    }
}

/// Some record matches a query term in its raw text.
pub open spec fn any_raw_match(recs: Seq<Record>, terms: Seq<Seq<char>>) -> bool {
    exists|i: int| 0 <= i < recs.len() && spec_matches_any(terms, (#[trigger] recs[i]).text@)
}

/// Some non-tool record matches a query term.
pub open spec fn any_non_tool_match(recs: Seq<Record>, terms: Seq<Seq<char>>) -> bool {
    exists|i: int|
        0 <= i < recs.len() && !spec_is_tool_role((#[trigger] recs[i]).role@) && spec_matches_any(
            terms,
            recs[i].text@,
        )
}

/// Some displayable record matches a query term.
pub open spec fn any_display_match(recs: Seq<Record>, terms: Seq<Seq<char>>, show_tools: bool) -> bool {
    exists|i: int|
        0 <= i < recs.len() && (show_tools || !spec_is_tool_role((#[trigger] recs[i]).role@))
            && spec_matches_any(terms, recs[i].text@)
}

/// Record `k` matches a query term and may be shown: tool records count
/// only when `show_tools`.
pub open spec fn displayable_match(
    recs: Seq<Record>,
    terms: Seq<Seq<char>>,
    show_tools: bool,
    k: int,
) -> bool {
    0 <= k < recs.len() && (show_tools || !spec_is_tool_role(recs[k].role@)) && spec_matches_any(
        terms,
        recs[k].text@,
    )
}

/// Record `k` appears highlighted among the items after the lead.
pub open spec fn match_emitted(items: Seq<PreviewItem>, recs: Seq<Record>, lead: int, k: int) -> bool {
    exists|t: int| lead <= t < items.len() && message_matches(#[trigger] items[t], recs[k], true)
}

/// The positions of the message items among the first `i` items.
pub open spec fn message_indices(items: Seq<PreviewItem>, i: int) -> Seq<int>
    decreases i,
{
    if i <= 0 {
        Seq::empty()
    } else {
        let prev = message_indices(items, i - 1);
        if items[i - 1] is Message {
            prev.push(i - 1)
        } else {
            prev
        }
    }
}

proof fn lemma_msg_idx_prefix(a: Seq<PreviewItem>, b: Seq<PreviewItem>, i: int)
    requires
        0 <= i <= a.len(),
        i <= b.len(),
        forall|k: int| 0 <= k < i ==> a[k] == b[k],
    ensures
        message_indices(a, i) == message_indices(b, i),
    decreases i,
{
    if i > 0 {
        lemma_msg_idx_prefix(a, b, i - 1);
    }
}

proof fn lemma_msg_idx_bounds(items: Seq<PreviewItem>, i: int)
    requires
        0 <= i,
    ensures
        forall|q: int|
            0 <= q < message_indices(items, i).len() ==> 0 <= #[trigger] message_indices(
                items,
                i,
            )[q] < i,
    decreases i,
{
    if i > 0 {
        lemma_msg_idx_bounds(items, i - 1);
        let prev = message_indices(items, i - 1);
        assert forall|q: int|
            0 <= q < message_indices(items, i).len() implies 0 <= #[trigger] message_indices(
            items,
            i,
        )[q] < i by {
            if items[i - 1] is Message {
                if q < prev.len() {
                    assert(message_indices(items, i)[q] == prev[q]);
                } else {
                    assert(message_indices(items, i)[q] == i - 1);
                }
            } else {
                assert(message_indices(items, i)[q] == prev[q]);
            }
        }
    }
}

proof fn lemma_msg_idx_empty(items: Seq<PreviewItem>, i: int)
    requires
        0 <= i,
        forall|k: int| 0 <= k < i ==> !((#[trigger] items[k]) is Message),
    ensures
        message_indices(items, i).len() == 0,
    decreases i,
{
    if i > 0 {
        lemma_msg_idx_empty(items, i - 1);
    }
}

/// The message items of `items` show exactly the records at `pos`:
/// strictly ascending displayable positions — so no record twice — each
/// within [`CONTEXT_AROUND_MATCH`] of a displayable match, highlighted.
pub open spec fn windows_shown(
    items: Seq<PreviewItem>,
    recs: Seq<Record>,
    terms: Seq<Seq<char>>,
    show_tools: bool,
    pos: Seq<int>,
) -> bool {
    let msgs = message_indices(items, items.len() as int);
    &&& msgs.len() == pos.len()
    &&& (forall|q: int| 0 <= q < pos.len() ==> 0 <= #[trigger] pos[q] < recs.len())
    &&& (forall|q1: int, q2: int| 0 <= q1 < q2 < pos.len() ==> pos[q1] < pos[q2])
    &&& (forall|q: int|
        0 <= q < pos.len() ==> (show_tools || !spec_is_tool_role(
            recs[#[trigger] pos[q]].role@,
        )))
    &&& (forall|q: int|
        0 <= q < pos.len() ==> exists|m: int|
            displayable_match(recs, terms, show_tools, m) && m <= #[trigger] pos[q]
                + CONTEXT_AROUND_MATCH && pos[q] <= m + CONTEXT_AROUND_MATCH)
    &&& (forall|q: int|
        0 <= q < pos.len() ==> message_matches(items[msgs[q]], recs[#[trigger] pos[q]], true))
}

/// Whether `item` is the session header of `summary`.
pub open spec fn header_matches(item: PreviewItem, summary: SessionSummary) -> bool {
    item matches PreviewItem::Header { session_id, project, source } && session_id@
        == summary.session_id@ && project@ == summary.project@ && source == summary.source
}

/// Whether `item` is a guidance line with the given text.
pub open spec fn note_matches(item: PreviewItem, text: Seq<char>) -> bool {
    item matches PreviewItem::Note { text: t } && t@ == text
}

/// How many items precede the records: the header, the optional top-hit
/// snippet, and a separator.
pub open spec fn lead_len(snippet: Seq<char>) -> int {
    if snippet.len() > 0 {
        3
    } else {
        2
    }
}

/// Builds the preview of one session from its records in playback order.
///
/// The history mode shows every visible record once, in order; tool
/// records are visible only when `show_tools`. The matches mode without
/// usable query text shows the most recent records; with query terms it
/// shows each matching visible record highlighted, and when nothing can
/// be shown a guidance line says whether the terms matched nothing at
/// all or matched only tool messages. An error reports that a matcher
/// could not be built from the query.
pub fn build_preview(
    records: &Vec<Record>,
    summary: &SessionSummary,
    mode: PreviewMode,
    query: &str,
    show_tools: bool,
) -> (r: Result<Vec<PreviewItem>, MemexError>)
    requires
        playback_sorted(records@),
    ensures
        ({
            let recs = records@;
            let terms = spec_query_terms(query@);
            let vis = visible_records(recs, show_tools, recs.len() as int);
            let lead = lead_len(summary.snippet@);
            &&& (mode is History || crate::tokens::all_buildable(terms) ==> r is Ok)
            &&& (r is Err ==> mode is Matches && !crate::tokens::all_buildable(terms))
            &&& r matches Ok(items) ==> {
                &&& items.len() >= 2
                &&& header_matches(items[0], *summary)
                &&& (recs.len() == 0 ==> items.len() == 2 && note_matches(
                    items[1],
                    "no records in session"@,
                ))
                &&& (recs.len() > 0 ==> {
                    &&& items.len() >= lead
                    &&& (summary.snippet@.len() > 0 ==> (items[1] matches PreviewItem::TopHit {
                        snippet,
                    } && snippet@ == summary.snippet@))
                    &&& items[lead - 1] is Blank
                    &&& (mode is History ==> items.len() == lead + vis.len() && forall|t: int|
                        0 <= t < vis.len() ==> message_matches(
                            #[trigger] items[lead + t],
                            vis[t],
                            false,
                        ))
                    &&& (mode is Matches && spec_query_terms(query@).len() == 0 ==> {
                        ||| (crate::strutil::spec_trim(query@).len() == 0 && {
                            let start = if recs.len() > DETAIL_TAIL_LINES as int {
                                recs.len() - DETAIL_TAIL_LINES as int
                            } else {
                                0
                            };
                            &&& items.len() == lead + (recs.len() - start)
                            &&& forall|t: int|
                                0 <= t < recs.len() - start ==> message_matches(
                                    #[trigger] items[lead + t],
                                    recs[start + t],
                                    false,
                                )
                        })
                        ||| (crate::strutil::spec_trim(query@).len() > 0 && items.len() == lead + 1
                            && note_matches(items[lead], "no valid query terms"@))
                    })
                    &&& (mode is Matches && terms.len() > 0 && !any_raw_match(recs, terms)
                        ==> items.len() == lead + 1 && note_matches(
                        items[lead],
                        "no literal matches (search matched via tokenizer)"@,
                    ))
                    &&& (mode is Matches && terms.len() > 0 && any_raw_match(recs, terms)
                        && !any_display_match(recs, terms, show_tools) && !show_tools
                        && !any_non_tool_match(recs, terms) ==> items.len() == lead + 1
                        && note_matches(
                        items[lead],
                        "matches only in tool messages (press t to show)"@,
                    ))
                    &&& (mode is Matches && terms.len() > 0 && any_display_match(
                        recs,
                        terms,
                        show_tools,
                    ) ==> forall|t: int|
                        lead <= t < items.len() ==> (#[trigger] items[t]) is Blank || exists|k: int|
                            0 <= k < recs.len() && (show_tools || !spec_is_tool_role(
                                (#[trigger] recs[k]).role@,
                            )) && message_matches(items[t], recs[k], true))
                    &&& (mode is Matches && terms.len() > 0 && any_display_match(
                        recs,
                        terms,
                        show_tools,
                    ) ==> forall|k: int|
                        #![trigger recs[k]]
                        displayable_match(recs, terms, show_tools, k) ==> match_emitted(
                            items@,
                            recs,
                            lead,
                            k,
                        ))
                    &&& (mode is Matches && terms.len() > 0 && any_display_match(
                        recs,
                        terms,
                        show_tools,
                    ) ==> exists|pos: Seq<int>|
                        #[trigger] windows_shown(items@, recs, terms, show_tools, pos))
                })
            }
        }),
{
    let n = records.len();
    let mut items: Vec<PreviewItem> = Vec::new();
    items.push(
        PreviewItem::Header {
            session_id: summary.session_id.clone(),
            project: summary.project.clone(),
            source: summary.source,
        },
    );
    if n == 0 {
        items.push(PreviewItem::Note { text: String::from_str("no records in session") });
        return Ok(items);
    }
    let snippet_present = !summary.snippet.as_str().is_empty();
    if snippet_present {
        items.push(PreviewItem::TopHit { snippet: summary.snippet.clone() });
    }
    items.push(PreviewItem::Blank);
    let ghost lead = lead_len(summary.snippet@);
    proof {
        assert(items@.len() == lead);
        assert(header_matches(items@[0], *summary));
        assert(items@[lead - 1] is Blank);
    }
    match mode {
        PreviewMode::History => {
            let mut i: usize = 0;
            while i < n
                invariant
                    n == records@.len(),
                    i <= n,
                    lead == lead_len(summary.snippet@),
                    items@.len() == lead + visible_records(records@, show_tools, i as int).len(),
                    header_matches(items@[0], *summary),
                    summary.snippet@.len() > 0 ==> (items@[1] matches PreviewItem::TopHit {
                        snippet,
                    } && snippet@ == summary.snippet@),
                    items@[lead - 1] is Blank,
                    2 <= lead <= items@.len(),
                    forall|t: int|
                        0 <= t < visible_records(records@, show_tools, i as int).len()
                            ==> message_matches(
                            #[trigger] items@[lead + t],
                            visible_records(records@, show_tools, i as int)[t],
                            false,
                        ),
                decreases n - i,
            {
                let rec = &records[i];
                if show_tools || !is_tool_role(rec.role.as_str()) {
                    push_message(&mut items, rec, false);
                }
                i = i + 1;
            }
            proof {
                assert(visible_records(records@, show_tools, records@.len() as int)
                    == visible_records(records@, show_tools, n as int));
            }
            Ok(items)
        },
        PreviewMode::Matches => {
            let qchars = crate::strutil::str_to_chars(query);
            let trimmed = crate::strutil::trim_chars(&qchars);
            if trimmed.len() == 0 {
                let start = if n > DETAIL_TAIL_LINES {
                    n - DETAIL_TAIL_LINES
                } else {
                    0
                };
                let mut j: usize = start;
                while j < n
                    invariant
                        n == records@.len(),
                        start <= j <= n,
                        n > DETAIL_TAIL_LINES ==> start == n - DETAIL_TAIL_LINES,
                        n <= DETAIL_TAIL_LINES ==> start == 0,
                        lead == lead_len(summary.snippet@),
                        items@.len() == lead + (j - start),
                        header_matches(items@[0], *summary),
                        summary.snippet@.len() > 0 ==> (items@[1] matches PreviewItem::TopHit {
                            snippet,
                        } && snippet@ == summary.snippet@),
                        items@[lead - 1] is Blank,
                        2 <= lead <= items@.len(),
                        forall|t: int|
                            0 <= t < j - start ==> message_matches(
                                #[trigger] items@[lead + t],
                                records@[start + t],
                                false,
                            ),
                    decreases n - j,
                {
                    push_message(&mut items, &records[j], false);
                    j = j + 1;
                }
                proof {
                    // an all-whitespace query yields no terms, so the
                    // guidance branches do not apply here
                    crate::tokens::lemma_trimmed_empty_no_terms(query@);
                }
                return Ok(items);
            }
            let terms = query_terms(query);
            if terms.len() == 0 {
                items.push(PreviewItem::Note { text: String::from_str("no valid query terms") });
                return Ok(items);
            }
            // which records match at all, and which can be displayed
            let mut matched: Vec<bool> = Vec::new();
            let mut matches_all = false;
            let mut matches_non_tools = false;
            let mut i: usize = 0;
            while i < n
                invariant
                    mode is Matches,
                    n == records@.len(),
                    i <= n,
                    views_of(terms@) == spec_query_terms(query@),
                    matched@.len() == i,
                    forall|t: int| 0 <= t < i ==> matched@[t] == spec_matches_any(
                        views_of(terms@),
                        (#[trigger] records@[t]).text@,
                    ),
                    matches_all == exists|t: int|
                        0 <= t < i && spec_matches_any(
                            views_of(terms@),
                            (#[trigger] records@[t]).text@,
                        ),
                    matches_non_tools == exists|t: int|
                        0 <= t < i && !spec_is_tool_role((#[trigger] records@[t]).role@)
                            && spec_matches_any(views_of(terms@), records@[t].text@),
                decreases n - i,
            {
                let rec = &records[i];
                match matches_any(&terms, rec.text.as_str()) {
                    Some(m) => {
                        matched.push(m);
                        if m {
                            matches_all = true;
                            if !is_tool_role(rec.role.as_str()) {
                                matches_non_tools = true;
                            }
                        }
                    },
                    None => {
                        return Err(
                            MemexError::ParseError(
                                String::from_str("could not build a matcher from the query"),
                            ),
                        );
                    },
                }
                i = i + 1;
            }
            let mut indices: Vec<usize> = Vec::new();
            let mut i2: usize = 0;
            while i2 < n
                invariant
                    n == records@.len(),
                    i2 <= n,
                    matched@.len() == n,
                    views_of(terms@) == spec_query_terms(query@),
                    forall|t: int| 0 <= t < n ==> matched@[t] == spec_matches_any(
                        views_of(terms@),
                        (#[trigger] records@[t]).text@,
                    ),
                    forall|t: int| 0 <= t < indices@.len() ==> (#[trigger] indices@[t]) < i2,
                    forall|v: int, u: int|
                        0 <= v < u < indices@.len() ==> indices@[v] < indices@[u],
                    forall|v: int|
                        0 <= v < indices@.len() ==> displayable_match(
                            records@,
                            views_of(terms@),
                            show_tools,
                            #[trigger] indices@[v] as int,
                        ),
                    forall|k: int|
                        #![trigger records@[k]]
                        0 <= k < i2 && displayable_match(records@, views_of(terms@), show_tools, k)
                            ==> exists|v: int|
                            0 <= v < indices@.len() && #[trigger] indices@[v] == k,
                    indices@.len() > 0 ==> any_display_match(
                        records@,
                        views_of(terms@),
                        show_tools,
                    ),
                    indices@.len() == 0 ==> !exists|t: int|
                        0 <= t < i2 && (show_tools || !spec_is_tool_role(
                            (#[trigger] records@[t]).role@,
                        )) && spec_matches_any(views_of(terms@), records@[t].text@),
                decreases n - i2,
            {
                let rec = &records[i2];
                let displayable = show_tools || !is_tool_role(rec.role.as_str());
                let ghost old_indices = indices@;
                if displayable && matched[i2] {
                    indices.push(i2);
                    proof {
                        assert(indices@.last() == i2);
                        assert forall|k: int|
                            #![trigger records@[k]]
                            0 <= k < i2 + 1 && displayable_match(
                                records@,
                                views_of(terms@),
                                show_tools,
                                k,
                            ) implies exists|v: int|
                            0 <= v < indices@.len() && #[trigger] indices@[v] == k by {
                            if k == i2 as int {
                                assert(indices@[indices@.len() - 1] == k);
                            } else {
                                let v = choose|v: int|
                                    0 <= v < old_indices.len() && #[trigger] old_indices[v] == k;
                                assert(indices@[v] == old_indices[v]);
                            }
                        }
                    }
                } else {
                    proof {
                        assert(!displayable_match(
                            records@,
                            views_of(terms@),
                            show_tools,
                            i2 as int,
                        ));
                    }
                }
                i2 = i2 + 1;
            }
            if indices.len() == 0 {
                if !matches_all {
                    items.push(
                        PreviewItem::Note {
                            text: String::from_str(
                                "no literal matches (search matched via tokenizer)",
                            ),
                        },
                    );
                } else if !show_tools && !matches_non_tools {
                    items.push(
                        PreviewItem::Note {
                            text: String::from_str("matches only in tool messages (press t to show)"),
                        },
                    );
                } else {
                    items.push(PreviewItem::Note { text: String::from_str("no matches in session") });
                }
                return Ok(items);
            }
            // emit each match with its neighbours, never a record twice
            let ghost mut shown: Seq<int> = Seq::empty();
            proof {
                assert(items@.len() == lead);
                assert forall|tk: int| 0 <= tk < items@.len() implies !((
                #[trigger] items@[tk]) is Message) by {
                    if tk == 0 {
                        assert(header_matches(items@[0], *summary));
                    } else if tk == lead - 1 {
                        assert(items@[lead - 1] is Blank);
                    } else {
                        assert(lead == 3 && tk == 1);
                        assert(items@[1] matches PreviewItem::TopHit { snippet } && snippet@
                            == summary.snippet@);
                    }
                }
                lemma_msg_idx_empty(items@, items@.len() as int);
                assert(windows_shown(items@, records@, views_of(terms@), show_tools, shown));
            }
            let mut last_added: Option<usize> = None;
            let mut w: usize = 0;
            while w < indices.len()
                invariant
                    n == records@.len(),
                    views_of(terms@) == spec_query_terms(query@),
                    w <= indices@.len(),
                    forall|t: int| 0 <= t < indices@.len() ==> (#[trigger] indices@[t]) < n,
                    forall|v: int, u: int|
                        0 <= v < u < indices@.len() ==> indices@[v] < indices@[u],
                    forall|v: int|
                        0 <= v < indices@.len() ==> displayable_match(
                            records@,
                            views_of(terms@),
                            show_tools,
                            #[trigger] indices@[v] as int,
                        ),
                    forall|k: int|
                        #![trigger records@[k]]
                        0 <= k < n && displayable_match(records@, views_of(terms@), show_tools, k)
                            ==> exists|v: int|
                            0 <= v < indices@.len() && #[trigger] indices@[v] == k,
                    any_display_match(records@, views_of(terms@), show_tools),
                    lead == lead_len(summary.snippet@),
                    header_matches(items@[0], *summary),
                    summary.snippet@.len() > 0 ==> (items@[1] matches PreviewItem::TopHit {
                        snippet,
                    } && snippet@ == summary.snippet@),
                    items@[lead - 1] is Blank,
                    2 <= lead <= items@.len(),
                    forall|t: int|
                        lead <= t < items@.len() ==> (#[trigger] items@[t]) is Blank || exists|
                            k: int,
                        |
                            0 <= k < records@.len() && (show_tools || !spec_is_tool_role(
                                (#[trigger] records@[k]).role@,
                            )) && message_matches(items@[t], records@[k], true),
                    w == 0 ==> last_added is None,
                    last_added matches Some(l) ==> l < n && match_emitted(
                        items@,
                        records@,
                        lead,
                        l as int,
                    ),
                    last_added matches Some(l) ==> (w == 0 || l <= indices@[w - 1]
                        + CONTEXT_AROUND_MATCH),
                    forall|v: int|
                        0 <= v < w ==> match_emitted(
                            items@,
                            records@,
                            lead,
                            #[trigger] indices@[v] as int,
                        ),
                    last_added is None ==> shown.len() == 0,
                    last_added matches Some(l) ==> shown.len() > 0 && shown.last() == l,
                    windows_shown(items@, records@, views_of(terms@), show_tools, shown),
                decreases indices@.len() - w,
            {
                let idx = indices[w];
                let start = if idx >= CONTEXT_AROUND_MATCH {
                    idx - CONTEXT_AROUND_MATCH
                } else {
                    0
                };
                let end = if idx + CONTEXT_AROUND_MATCH > n - 1 {
                    n - 1
                } else {
                    idx + CONTEXT_AROUND_MATCH
                };
                proof {
                    match last_added {
                        Some(l) => {
                            // earlier windows end before this match's own position
                            assert(w > 0);
                            assert(indices@[w - 1] < indices@[w as int]);
                            assert(l <= idx);
                        },
                        None => {},
                    }
                }
                let mut p: usize = start;
                while p <= end
                    invariant
                        n == records@.len(),
                        views_of(terms@) == spec_query_terms(query@),
                        start <= p <= end + 1,
                        end < n,
                        start <= idx <= end,
                        end <= idx + CONTEXT_AROUND_MATCH,
                        idx <= start + CONTEXT_AROUND_MATCH,
                        w < indices@.len(),
                        idx == indices@[w as int],
                        displayable_match(records@, views_of(terms@), show_tools, idx as int),
                        lead == lead_len(summary.snippet@),
                        header_matches(items@[0], *summary),
                        summary.snippet@.len() > 0 ==> (items@[1] matches PreviewItem::TopHit {
                            snippet,
                        } && snippet@ == summary.snippet@),
                        items@[lead - 1] is Blank,
                        2 <= lead <= items@.len(),
                        forall|t: int|
                            lead <= t < items@.len() ==> (#[trigger] items@[t]) is Blank || exists|
                                k: int,
                            |
                                0 <= k < records@.len() && (show_tools || !spec_is_tool_role(
                                    (#[trigger] records@[k]).role@,
                                )) && message_matches(items@[t], records@[k], true),
                        last_added matches Some(l) ==> l < n && match_emitted(
                            items@,
                            records@,
                            lead,
                            l as int,
                        ),
                        last_added matches Some(l) ==> l <= idx || l < p,
                        p > idx ==> match_emitted(items@, records@, lead, idx as int),
                        forall|v: int|
                            0 <= v < w ==> match_emitted(
                                items@,
                                records@,
                                lead,
                                #[trigger] indices@[v] as int,
                            ),
                        last_added is None ==> shown.len() == 0,
                        last_added matches Some(l) ==> shown.len() > 0 && shown.last() == l,
                        windows_shown(items@, records@, views_of(terms@), show_tools, shown),
                    decreases end + 1 - p,
                {
                    let rec = &records[p];
                    let mut skip = false;
                    if !show_tools && is_tool_role(rec.role.as_str()) {
                        skip = true;
                    }
                    match last_added {
                        Some(last) => {
                            if p <= last {
                                skip = true;
                            }
                        },
                        None => {},
                    }
                    let ghost before = items@;
                    if !skip {
                        let ghost prev_last = last_added;
                        let ghost before_shown = shown;
                        last_added = Some(p);
                        push_message(&mut items, rec, true);
                        proof {
                            shown = before_shown.push(p as int);
                            assert(message_matches(items@.last(), records@[p as int], true));
                            // windows bookkeeping: the new message shows `p`
                            let old_msgs = message_indices(before, before.len() as int);
                            let new_msgs = message_indices(items@, items@.len() as int);
                            lemma_msg_idx_prefix(items@, before, before.len() as int);
                            assert(items@[items@.len() - 1] is Message);
                            assert(new_msgs =~= old_msgs.push(before.len() as int));
                            lemma_msg_idx_bounds(before, before.len() as int);
                            assert forall|q: int|
                                0 <= q < shown.len() implies message_matches(
                                items@[new_msgs[q]],
                                records@[#[trigger] shown[q]],
                                true,
                            ) by {
                                if q < before_shown.len() {
                                    assert(new_msgs[q] == old_msgs[q]);
                                    assert(items@[old_msgs[q]] == before[old_msgs[q]]);
                                } else {
                                    assert(new_msgs[q] == before.len());
                                    assert(shown[q] == p as int);
                                }
                            }
                            assert forall|q1: int, q2: int|
                                0 <= q1 < q2 < shown.len() implies shown[q1] < shown[q2] by {
                                if q2 < before_shown.len() {
                                    assert(shown[q1] == before_shown[q1] && shown[q2]
                                        == before_shown[q2]);
                                } else {
                                    assert(shown[q2] == p as int);
                                    match prev_last {
                                        Some(l) => {
                                            assert(before_shown[q1] <= before_shown.last());
                                            assert(before_shown.last() == l);
                                            assert(p > l);
                                        },
                                        None => {
                                            assert(before_shown.len() == 0);
                                        },
                                    }
                                }
                            }
                            // the emitted position sits inside its match's window
                            assert(displayable_match(
                                records@,
                                views_of(terms@),
                                show_tools,
                                idx as int,
                            ));
                            assert(idx <= p + CONTEXT_AROUND_MATCH && p <= idx
                                + CONTEXT_AROUND_MATCH);
                            assert(windows_shown(
                                items@,
                                records@,
                                views_of(terms@),
                                show_tools,
                                shown,
                            ));
                            assert(match_emitted(items@, records@, lead, p as int)) by {
                                assert(lead <= items@.len() - 1 < items@.len());
                            }
                            assert forall|v: int| 0 <= v < w implies match_emitted(
                                items@,
                                records@,
                                lead,
                                #[trigger] indices@[v] as int,
                            ) by {
                                let t = choose|t: int|
                                    lead <= t < before.len() && message_matches(
                                        #[trigger] before[t],
                                        records@[indices@[v] as int],
                                        true,
                                    );
                                assert(items@[t] == before[t]);
                            }
                            if p > idx {
                                let t = choose|t: int|
                                    lead <= t < before.len() && message_matches(
                                        #[trigger] before[t],
                                        records@[idx as int],
                                        true,
                                    );
                                assert(items@[t] == before[t]);
                            }
                        }
                    } else {
                        proof {
                            if p == idx {
                                // a displayable match is only ever skipped because
                                // an earlier window already emitted it
                                assert(last_added matches Some(l) && l == idx);
                            }
                        }
                    }
                    p = p + 1;
                }
                let ghost before_blank = items@;
                items.push(PreviewItem::Blank);
                w = w + 1;
                proof {
                    lemma_msg_idx_prefix(items@, before_blank, before_blank.len() as int);
                    assert(message_indices(items@, items@.len() as int) =~= message_indices(
                        before_blank,
                        before_blank.len() as int,
                    ));
                    lemma_msg_idx_bounds(before_blank, before_blank.len() as int);
                    assert forall|q: int|
                        0 <= q < shown.len() implies message_matches(
                        items@[message_indices(items@, items@.len() as int)[q]],
                        records@[#[trigger] shown[q]],
                        true,
                    ) by {
                        let msgs = message_indices(before_blank, before_blank.len() as int);
                        assert(items@[msgs[q]] == before_blank[msgs[q]]);
                    }
                    assert(windows_shown(items@, records@, views_of(terms@), show_tools, shown));
                    assert forall|v: int| 0 <= v < w implies match_emitted(
                        items@,
                        records@,
                        lead,
                        #[trigger] indices@[v] as int,
                    ) by {
                        if v < w - 1 {
                            let t = choose|t: int|
                                lead <= t < before_blank.len() && message_matches(
                                    #[trigger] before_blank[t],
                                    records@[indices@[v] as int],
                                    true,
                                );
                            assert(items@[t] == before_blank[t]);
                        } else {
                            let t = choose|t: int|
                                lead <= t < before_blank.len() && message_matches(
                                    #[trigger] before_blank[t],
                                    records@[idx as int],
                                    true,
                                );
                            assert(items@[t] == before_blank[t]);
                        }
                    }
                    match last_added {
                        Some(l) => {
                            let t = choose|t: int|
                                lead <= t < before_blank.len() && message_matches(
                                    #[trigger] before_blank[t],
                                    records@[l as int],
                                    true,
                                );
                            assert(items@[t] == before_blank[t]);
                            assert(match_emitted(items@, records@, lead, l as int));
                        },
                        None => {},
                    }
                }
            }
            proof {
                assert forall|k: int|
                    #![trigger records@[k]]
                    displayable_match(records@, views_of(terms@), show_tools, k) implies
                    match_emitted(items@, records@, lead, k) by {
                    let v = choose|v: int|
                        0 <= v < indices@.len() && #[trigger] indices@[v] == k;
                    assert(match_emitted(items@, records@, lead, indices@[v] as int));
                }
                assert(windows_shown(items@, records@, views_of(terms@), show_tools, shown));
            }
            Ok(items)
        },
    }
}

} // verus!
