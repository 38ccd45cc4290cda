//! Session aggregation: grouping scored records by session and ranking
//! the groups for display.

use vstd::prelude::*;
use vstd::multiset::Multiset;
use crate::index::{QueryOptions, SearchIndex};
use crate::text::{spec_summarize, summarize};
use crate::types::{Record, SourceFilter, SourceKind};

verus! {

broadcast use vstd::seq_lib::group_to_multiset_ensures;

/// At most this many sessions come back from a query.
pub const RESULT_LIMIT: usize = 200;

/// At most this many sessions come back on the recent branch.
pub const RECENT_SESSIONS_LIMIT: usize = 200;

/// How many records per wanted session the recent branch reads.
pub const RECENT_RECORDS_MULTIPLIER: usize = 50;

/// Snippets shown beside a session are cut to this many characters.
pub const SNIPPET_CHARS: usize = 160;

/// One session as the UI lists it: a projection over the records of the
/// result set that share a `session_id`.
#[derive(Debug)]
pub struct SessionSummary {
    pub session_id: String,
    pub project: String,
    pub source: SourceKind,
    /// The largest `ts` among the grouped records.
    pub last_ts: u64,
    /// How many records of the result set belong to the session.
    pub hit_count: usize,
    /// The best score among the grouped records.
    pub top_score: u64,
    /// Snippet of the best-scoring record.
    pub snippet: String,
    /// Path of the transcript holding the best-scoring record.
    pub source_path: String,
}

impl Clone for SessionSummary {
    fn clone(&self) -> (r: Self)
        ensures
            r == *self,
    {
        SessionSummary {
            session_id: self.session_id.clone(),
            project: self.project.clone(),
            source: self.source,
            last_ts: self.last_ts,
            hit_count: self.hit_count,
            top_score: self.top_score,
            snippet: self.snippet.clone(),
            source_path: self.source_path.clone(),
        }
    }
}

/// The ghost mirror of a summary: every field as a plain spec value, so
/// the aggregation fold can be stated.
pub ghost struct SummaryV {
    pub session_id: Seq<char>,
    pub project: Seq<char>,
    pub source: SourceKind,
    pub last_ts: u64,
    pub hit_count: usize,
    pub top_score: u64,
    pub snippet: Seq<char>,
    pub source_path: Seq<char>,
}

impl View for SessionSummary {
    type V = SummaryV;

    open spec fn view(&self) -> SummaryV {
        SummaryV {
            session_id: self.session_id@,
            project: self.project@,
            source: self.source,
            last_ts: self.last_ts,
            hit_count: self.hit_count,
            top_score: self.top_score,
            snippet: self.snippet@,
            source_path: self.source_path@,
        }
    }
}

/// The ghost mirrors of a run of summaries.
pub open spec fn summary_views(s: Seq<SessionSummary>) -> Seq<SummaryV> {
    s.map_values(|x: SessionSummary| x@)
}

/// A known session updated by one more scored record: the hit count and
/// recency always advance; a score at least the best so far also takes
/// the score, the snippet (when the record yields one) and the path.
pub open spec fn spec_update_summary(before: SummaryV, score: u64, rec: Record) -> SummaryV {
    SummaryV {
        session_id: before.session_id,
        project: before.project,
        source: before.source,
        last_ts: if rec.ts > before.last_ts {
            rec.ts
        } else {
            before.last_ts
        },
        hit_count: (before.hit_count + 1) as usize,
        top_score: if score >= before.top_score {
            score
        } else {
            before.top_score
        },
        snippet: if score >= before.top_score {
            if spec_summarize(rec.text@, 160).len() > 0 {
                spec_summarize(rec.text@, 160)
            } else {
                before.snippet
            }
        } else {
            before.snippet
        },
        source_path: if score >= before.top_score {
            rec.source_path@
        } else {
            before.source_path
        },
    }
}

/// The summary a scored record opens for a new session.
pub open spec fn spec_fresh_summary(score: u64, rec: Record) -> SummaryV {
    SummaryV {
        session_id: rec.session_id@,
        project: rec.project@,
        source: rec.source,
        last_ts: rec.ts,
        hit_count: 1,
        top_score: score,
        snippet: spec_summarize(rec.text@, 160),
        source_path: rec.source_path@,
    }
}

/// One step of the aggregation: the record's session is updated if
/// present, opened otherwise.
pub open spec fn spec_add_summary(sums: Seq<SummaryV>, score: u64, rec: Record) -> Seq<SummaryV> {
    if exists|j: int| 0 <= j < sums.len() && (#[trigger] sums[j]).session_id == rec.session_id@ {
        sums.map_values(
            |s: SummaryV|
                if s.session_id == rec.session_id@ {
                    spec_update_summary(s, score, rec)
                } else {
                    s
                },
        )
    } else {
        sums.push(spec_fresh_summary(score, rec))
    }
}

/// The session-grouping fold over the first `i` scored records.
pub open spec fn spec_group(pairs: Seq<(u64, Record)>, i: int) -> Seq<SummaryV>
    decreases i,
{
    if i <= 0 {
        Seq::empty()
    } else {
        spec_add_summary(spec_group(pairs, i - 1), pairs[i - 1].0, pairs[i - 1].1)
    }
}

/// Grouping reads only the first `i` pairs: two runs agreeing there
/// group alike.
proof fn lemma_group_prefix(p1: Seq<(u64, Record)>, p2: Seq<(u64, Record)>, i: int)
    requires
        0 <= i <= p1.len(),
        i <= p2.len(),
        forall|k: int| 0 <= k < i ==> p1[k] == p2[k],
    ensures
        spec_group(p1, i) == spec_group(p2, i),
    decreases i,
{
    if i > 0 {
        lemma_group_prefix(p1, p2, i - 1);
    }
}

/// The query options `sessions_from_query` searches with: only the
/// free-text part and the project and source filters, the limit raised to
/// twenty for recall.
pub open spec fn spec_query_opts(
    query: String,
    project: Option<String>,
    source: Option<SourceFilter>,
    limit: usize,
) -> QueryOptions {
    QueryOptions {
        query,
        project,
        role: None,
        tool: None,
        session_id: None,
        source,
        since: None,
        until: None,
        limit: if limit < 20 {
            20usize
        } else {
            limit
        },
    }
}

/// No two summaries name the same session.
pub open spec fn sessions_distinct(s: Seq<SessionSummary>) -> bool {
    forall|i: int, j: int|
        0 <= i < j < s.len() ==> (#[trigger] s[i]).session_id@ != (#[trigger] s[j]).session_id@
}

/// Folds one scored record into the summaries: a new session starts a
/// summary, a known one updates hit count, recency, and — when the score
/// is at least the best so far — the score, snippet and path.
pub fn add_record_to_session(sessions: &mut Vec<SessionSummary>, score: u64, record: Record)
    requires
        sessions_distinct(old(sessions)@),
        forall|k: int| 0 <= k < old(sessions)@.len() ==> (#[trigger] old(sessions)@[k]).hit_count
            < usize::MAX,
    ensures
        sessions_distinct(final(sessions)@),
        summary_views(final(sessions)@) == spec_add_summary(
            summary_views(old(sessions)@),
            score,
            record,
        ),
        (exists|j: int|
            0 <= j < old(sessions)@.len() && (#[trigger] old(sessions)@[j]).session_id@
                == record.session_id@) ==> {
            &&& final(sessions)@.len() == old(sessions)@.len()
            &&& forall|k: int|
                0 <= k < old(sessions)@.len() && (#[trigger] old(sessions)@[k]).session_id@
                    != record.session_id@ ==> final(sessions)@[k] == old(sessions)@[k]
            &&& forall|k: int|
                0 <= k < old(sessions)@.len() && (#[trigger] old(sessions)@[k]).session_id@
                    == record.session_id@ ==> {
                    let before = old(sessions)@[k];
                    let after = final(sessions)@[k];
                    &&& after.session_id@ == before.session_id@
                    &&& after.project@ == before.project@
                    &&& after.source == before.source
                    &&& after.hit_count == before.hit_count + 1
                    &&& after.last_ts == (if record.ts > before.last_ts {
                        record.ts
                    } else {
                        before.last_ts
                    })
                    &&& (score >= before.top_score ==> {
                        &&& after.top_score == score
                        &&& after.source_path@ == record.source_path@
                        &&& after.snippet@ == (if spec_summarize(record.text@, 160).len() > 0 {
                            spec_summarize(record.text@, 160)
                        } else {
                            before.snippet@
                        })
                    })
                    &&& (score < before.top_score ==> {
                        &&& after.top_score == before.top_score
                        &&& after.source_path@ == before.source_path@
                        &&& after.snippet@ == before.snippet@
                    })
                }
        },
        (forall|j: int|
            0 <= j < old(sessions)@.len() ==> (#[trigger] old(sessions)@[j]).session_id@
                != record.session_id@) ==> {
            &&& final(sessions)@.len() == old(sessions)@.len() + 1
            &&& forall|k: int|
                0 <= k < old(sessions)@.len() ==> #[trigger] final(sessions)@[k] == old(
                    sessions,
                )@[k]
            &&& {
                let fresh = final(sessions)@.last();
                &&& fresh.session_id@ == record.session_id@
                &&& fresh.project@ == record.project@
                &&& fresh.source == record.source
                &&& fresh.hit_count == 1
                &&& fresh.last_ts == record.ts
                &&& fresh.top_score == score
                &&& fresh.snippet@ == spec_summarize(record.text@, 160)
                &&& fresh.source_path@ == record.source_path@
            }
        },
{
    let mut i: usize = 0;
    let n = sessions.len();
    while i < n
        invariant
            n == sessions@.len(),
            i <= n,
            sessions@ == old(sessions)@,
            sessions_distinct(sessions@),
            forall|k: int| 0 <= k < sessions@.len() ==> (#[trigger] sessions@[k]).hit_count
                < usize::MAX,
            forall|k: int| 0 <= k < i ==> (#[trigger] sessions@[k]).session_id@
                != record.session_id@,
        decreases n - i,
    {
        if sessions[i].session_id == record.session_id {
            let before = sessions[i].clone();
            let new_hit = before.hit_count + 1;
            let new_last = if record.ts > before.last_ts {
                record.ts
            } else {
                before.last_ts
            };
            let updated: SessionSummary;
            if score >= before.top_score {
                let snippet = summarize(record.text.as_str(), SNIPPET_CHARS);
                let new_snippet = if !snippet.as_str().is_empty() {
                    snippet
                } else {
                    before.snippet.clone()
                };
                updated = SessionSummary {
                    session_id: before.session_id,
                    project: before.project,
                    source: before.source,
                    last_ts: new_last,
                    hit_count: new_hit,
                    top_score: score,
                    snippet: new_snippet,
                    source_path: record.source_path,
                };
            } else {
                updated = SessionSummary {
                    session_id: before.session_id,
                    project: before.project,
                    source: before.source,
                    last_ts: new_last,
                    hit_count: new_hit,
                    top_score: before.top_score,
                    snippet: before.snippet,
                    source_path: before.source_path,
                };
            }
            sessions[i] = updated;
            proof {
                assert(sessions@ =~= old(sessions)@.update(i as int, updated));
                assert forall|a: int, b: int|
                    0 <= a < b < sessions@.len() implies (#[trigger] sessions@[a]).session_id@ != (
                #[trigger] sessions@[b]).session_id@ by {
                    assert(sessions@[a].session_id@ == old(sessions)@[a].session_id@);
                    assert(sessions@[b].session_id@ == old(sessions)@[b].session_id@);
                }
                assert forall|k: int|
                    0 <= k < old(sessions)@.len() && (#[trigger] old(sessions)@[k]).session_id@
                        == record.session_id@ implies k == i as int by {
                    if k != i as int {
                        assert(old(sessions)@[k].session_id@ != old(sessions)@[
                            i as int
                        ].session_id@);
                    }
                }
                // the fold's update branch applies: the session is known
                let pre_views = summary_views(old(sessions)@);
                assert(pre_views[i as int].session_id == record.session_id@) by {
                    assert(pre_views[i as int] == old(sessions)@[i as int]@);
                }
                assert(exists|j: int|
                    0 <= j < pre_views.len() && (#[trigger] pre_views[j]).session_id
                        == record.session_id@);
                assert forall|k: int|
                    0 <= k < sessions@.len() implies #[trigger] summary_views(sessions@)[k]
                        == spec_add_summary(pre_views, score, record)[k] by {
                    assert(summary_views(sessions@)[k] == sessions@[k]@);
                    assert(pre_views[k] == old(sessions)@[k]@);
                    if k == i as int {
                        assert(sessions@[k] == updated);
                        assert(updated@ == spec_update_summary(
                            old(sessions)@[i as int]@,
                            score,
                            record,
                        ));
                    } else {
                        assert(sessions@[k] == old(sessions)@[k]);
                        assert(old(sessions)@[k].session_id@ != record.session_id@);
                    }
                }
                assert(summary_views(sessions@) =~= spec_add_summary(pre_views, score, record));
            }
            return ;
        }
        i = i + 1;
    }
    let snippet = summarize(record.text.as_str(), SNIPPET_CHARS);
    let fresh = SessionSummary {
        session_id: record.session_id,
        project: record.project,
        source: record.source,
        last_ts: record.ts,
        hit_count: 1,
        top_score: score,
        snippet,
        source_path: record.source_path,
    };
    sessions.push(fresh);
    proof {
        assert forall|a: int, b: int|
            0 <= a < b < sessions@.len() implies (#[trigger] sessions@[a]).session_id@ != (
        #[trigger] sessions@[b]).session_id@ by {
            if b < sessions@.len() - 1 {
                assert(old(sessions)@[a].session_id@ != old(sessions)@[b].session_id@);
            }
        }
        // the fold's open branch applies: the session is new
        let pre_views = summary_views(old(sessions)@);
        assert forall|j: int|
            0 <= j < pre_views.len() implies (#[trigger] pre_views[j]).session_id
                != record.session_id@ by {
            assert(pre_views[j] == old(sessions)@[j]@);
        }
        assert(sessions@.last()@ == spec_fresh_summary(score, record));
        assert forall|k: int|
            0 <= k < sessions@.len() implies #[trigger] summary_views(sessions@)[k]
                == spec_add_summary(pre_views, score, record)[k] by {
            assert(summary_views(sessions@)[k] == sessions@[k]@);
            if k < sessions@.len() - 1 {
                assert(sessions@[k] == old(sessions)@[k]);
                assert(pre_views[k] == old(sessions)@[k]@);
            }
        }
        assert(summary_views(sessions@) =~= spec_add_summary(pre_views, score, record));
    }
}

/// Sorting permutes the summaries, and distinct session ids survive any
/// permutation.
proof fn lemma_distinct_sessions_transfer(a: Seq<SessionSummary>, b: Seq<SessionSummary>)
    requires
        a.to_multiset() == b.to_multiset(),
        sessions_distinct(a),
    ensures
        sessions_distinct(b),
    decreases b.len(),
{
    if b.len() > 0 {
        assert(b.to_multiset().count(b[0]) > 0) by {
            assert(b.contains(b[0]));
        }
        assert(a.to_multiset().count(b[0]) > 0);
        assert(a.contains(b[0]));
        let ia = choose|ia: int| 0 <= ia < a.len() && a[ia] == b[0];
        let a2 = a.remove(ia);
        let b2 = b.drop_first();
        assert(a2.to_multiset() =~= a.to_multiset().remove(b[0]));
        assert(b2.to_multiset() =~= b.to_multiset().remove(b[0])) by {
            assert(b.remove(0) =~= b2);
            assert(b.remove(0).to_multiset() =~= b.to_multiset().remove(b[0]));
        }
        assert(sessions_distinct(a2)) by {
            assert forall|i: int, j: int|
                0 <= i < j < a2.len() implies (#[trigger] a2[i]).session_id@ != (
            #[trigger] a2[j]).session_id@ by {
                let pi = if i < ia {
                    i
                } else {
                    i + 1
                };
                let pj = if j < ia {
                    j
                } else {
                    j + 1
                };
                assert(a2[i] == a[pi] && a2[j] == a[pj]);
            }
        }
        lemma_distinct_sessions_transfer(a2, b2);
        assert forall|t: int| 0 <= t < b2.len() implies (#[trigger] b2[t]).session_id@
            != b[0].session_id@ by {
            assert(b2.to_multiset().count(b2[t]) > 0) by {
                assert(b2.contains(b2[t]));
            }
            assert(a2.to_multiset().count(b2[t]) > 0);
            assert(a2.contains(b2[t]));
            let c = choose|c: int| 0 <= c < a2.len() && a2[c] == b2[t];
            let pc = if c < ia {
                c
            } else {
                c + 1
            };
            assert(a2[c] == a[pc]);
            if b2[t].session_id@ == b[0].session_id@ {
                assert(a[pc].session_id@ == a[ia].session_id@);
                assert(pc != ia);
                assert(false);
            }
        }
        assert forall|i: int, j: int|
            0 <= i < j < b.len() implies (#[trigger] b[i]).session_id@ != (
        #[trigger] b[j]).session_id@ by {
            if i > 0 {
                assert(b[i] == b2[i - 1] && b[j] == b2[j - 1]);
            } else {
                assert(b[j] == b2[j - 1]);
            }
        }
    }
}

/// The display order of summaries: by score when `by_score`, then by
/// recency.
pub open spec fn summary_rank_ge(a: SessionSummary, b: SessionSummary, by_score: bool) -> bool {
    if by_score {
        a.top_score > b.top_score || (a.top_score == b.top_score && a.last_ts >= b.last_ts)
    } else {
        a.last_ts >= b.last_ts
    }
}

/// `s` is ordered best-first under [`summary_rank_ge`].
pub open spec fn summaries_sorted(s: Seq<SessionSummary>, by_score: bool) -> bool {
    forall|i: int, j: int| 0 <= i < j < s.len() ==> summary_rank_ge(s[i], s[j], by_score)
}

fn summary_rank_gt(a: &SessionSummary, b: &SessionSummary, by_score: bool) -> (r: bool)
    ensures
        r == !summary_rank_ge(*b, *a, by_score),
{
    if by_score {
        a.top_score > b.top_score || (a.top_score == b.top_score && a.last_ts > b.last_ts)
    } else {
        a.last_ts > b.last_ts
    }
}

/// Sorts summaries best-first; the result holds exactly the input
/// summaries. The pick of each next summary is by first strict
/// improvement, so the output is a function of the input alone; the
/// contract states the order and the contents, not tie placement.
pub fn sort_summaries(input: Vec<SessionSummary>, by_score: bool) -> (r: Vec<SessionSummary>)
    ensures
        summaries_sorted(r@, by_score),
        r@.to_multiset() == input@.to_multiset(),
        r@.len() == input@.len(),
        sessions_distinct(input@) ==> sessions_distinct(r@),
{
    let ghost orig = input@;
    let mut src = input;
    let mut out: Vec<SessionSummary> = Vec::new();
    while src.len() > 0
        invariant
            summaries_sorted(out@, by_score),
            out@.to_multiset().add(src@.to_multiset()) == orig.to_multiset(),
            out@.len() + src@.len() == orig.len(),
            forall|i: int, j: int|
                0 <= i < out@.len() && 0 <= j < src@.len() ==> summary_rank_ge(
                    out@[i],
                    src@[j],
                    by_score,
                ),
        decreases src@.len(),
    {
        let mut m: usize = 0;
        let mut k: usize = 1;
        while k < src.len()
            invariant
                m < k <= src@.len() || (k <= src@.len() && m == 0),
                m < src@.len(),
                src@.len() > 0,
                forall|t: int| 0 <= t < k ==> summary_rank_ge(src@[m as int], src@[t], by_score),
            decreases src@.len() - k,
        {
            if summary_rank_gt(&src[k], &src[m], by_score) {
                m = k;
            }
            k = k + 1;
        }
        let ghost old_out = out@;
        let ghost old_src = src@;
        let x = src.remove(m);
        out.push(x);
        proof {
            assert(out@ =~= old_out.push(x));
            assert(out@.to_multiset() =~= old_out.to_multiset().insert(x));
            assert(src@.to_multiset() =~= old_src.to_multiset().remove(x));
            assert(old_src.to_multiset().count(x) > 0) by {
                assert(old_src[m as int] == x);
                assert(old_src.contains(x));
            }
            assert(out@.to_multiset().add(src@.to_multiset()) =~= orig.to_multiset());
            assert forall|j: int| 0 <= j < src@.len() implies summary_rank_ge(
                x,
                src@[j],
                by_score,
            ) by {
                if j < m {
                    assert(src@[j] == old_src[j]);
                } else {
                    assert(src@[j] == old_src[j + 1]);
                }
            }
            assert forall|i: int, j: int|
                0 <= i < j < out@.len() implies summary_rank_ge(out@[i], out@[j], by_score) by {
                if j < out@.len() - 1 {
                    assert(summary_rank_ge(old_out[i], old_out[j], by_score));
                } else {
                    assert(out@[j] == x);
                    if i < out@.len() - 1 {
                        assert(summary_rank_ge(old_out[i], old_src[m as int], by_score));
                    }
                }
            }
        }
    }
    proof {
        assert(src@.to_multiset() =~= Multiset::empty());
        assert(out@.to_multiset() =~= out@.to_multiset().add(src@.to_multiset()));
        if sessions_distinct(orig) {
            lemma_distinct_sessions_transfer(orig, out@);
        }
    }
    out
}

/// Groups the scored search results for `query` into session summaries,
/// ranked by best score then recency, at most `limit` of them.
pub fn sessions_from_query(
    index: &SearchIndex,
    query: String,
    source: Option<SourceFilter>,
    project: Option<String>,
    limit: usize,
) -> (r: Vec<SessionSummary>)
    ensures
        r@.len() <= limit,
        summaries_sorted(r@, true),
        sessions_distinct(r@),
        limit > 0 ==> (r@.len() > 0 <==> crate::index::scored_matches(
            index.committed_recs(),
            spec_query_opts(query, project, source, limit),
            index.committed_recs().len() as int,
        ).len() > 0),
        exists|hits: Seq<(u64, Record)>, grouped: Seq<SessionSummary>, ranked: Seq<
            SessionSummary,
        >|
            #![trigger crate::index::spec_search_post(
                index.committed_recs(),
                spec_query_opts(query, project, source, limit),
                hits,
            ), summary_views(grouped), ranked.to_multiset()]
            {
                &&& crate::index::spec_search_post(
                    index.committed_recs(),
                    spec_query_opts(query, project, source, limit),
                    hits,
                )
                &&& summary_views(grouped) == spec_group(hits, hits.len() as int)
                &&& summaries_sorted(ranked, true)
                &&& ranked.to_multiset() == grouped.to_multiset()
                &&& r@ == ranked.take(vstd::math::min(limit as int, ranked.len() as int))
            },
{
    let search_limit = if limit < 20 {
        20
    } else {
        limit
    };
    let options = QueryOptions {
        query,
        project,
        role: None,
        tool: None,
        session_id: None,
        source,
        since: None,
        until: None,
        limit: search_limit,
    };
    let results = index.search(&options);
    let mut sessions: Vec<SessionSummary> = Vec::new();
    let mut i: usize = 0;
    let n = results.len();
    while i < n
        invariant
            n == results@.len(),
            i <= n,
            sessions_distinct(sessions@),
            i > 0 ==> sessions@.len() >= 1,
            sessions@.len() <= i,
            summary_views(sessions@) == spec_group(results@, i as int),
            forall|k: int| 0 <= k < sessions@.len() ==> (#[trigger] sessions@[k]).hit_count <= i,
        decreases n - i,
    {
        let pair = &results[i];
        let ghost pre = sessions@;
        add_record_to_session(&mut sessions, pair.0, pair.1.clone());
        proof {
            assert(pre.len() <= sessions@.len() <= pre.len() + 1);
            assert(summary_views(sessions@) == spec_group(results@, i + 1)) by {
                assert(pair.0 == results@[i as int].0 && pair.1 == results@[i as int].1);
            }
            if exists|j: int|
                0 <= j < pre.len() && (#[trigger] pre[j]).session_id@ == pair.1.session_id@ {
                assert forall|k: int| 0 <= k < sessions@.len() implies (
                #[trigger] sessions@[k]).hit_count <= i + 1 by {
                    if pre[k].session_id@ == pair.1.session_id@ {
                        assert(sessions@[k].hit_count == pre[k].hit_count + 1);
                    } else {
                        assert(sessions@[k] == pre[k]);
                    }
                }
            } else {
                assert forall|k: int| 0 <= k < sessions@.len() implies (
                #[trigger] sessions@[k]).hit_count <= i + 1 by {
                    if k < pre.len() {
                        assert(sessions@[k] == pre[k]);
                    } else {
                        assert(sessions@[k] == sessions@.last());
                    }
                }
            }
        }
        i = i + 1;
    }
    proof {
        if n > 0 {
            assert(sessions@.len() >= 1);
        }
    }
    let ghost grouped_run = sessions@;
    let sorted = sort_summaries(sessions, true);
    let ghost whole = sorted@;
    let mut out = sorted;
    out.truncate(limit);
    proof {
        assert forall|a: int, b: int|
            0 <= a < b < out@.len() implies summary_rank_ge(out@[a], out@[b], true) by {
            assert(out@[a] == whole[a] && out@[b] == whole[b]);
        }
        assert forall|a: int, b: int|
            0 <= a < b < out@.len() implies (#[trigger] out@[a]).session_id@ != (
        #[trigger] out@[b]).session_id@ by {
            assert(out@[a] == whole[a] && out@[b] == whole[b]);
        }
        if limit > 0 {
            if n > 0 {
                assert(out@.len() > 0);
            } else {
                assert(out@.len() == 0);
            }
        }
        // the search result, the grouped run, and the ranked run witness
        // the aggregation clause
        assert(out@ =~= whole.take(vstd::math::min(limit as int, whole.len() as int)));
        assert(summary_views(grouped_run) == spec_group(results@, results@.len() as int));
        let spec_opts = spec_query_opts(query, project, source, limit);
        assert(options == spec_opts);
        assert(crate::index::spec_search_post(index.committed_recs(), spec_opts, results@));
        assert(summaries_sorted(whole, true));
        assert(whole.to_multiset() == grouped_run.to_multiset());
    }
    out
}

/// A record the recent branch keeps: it passes the source and project
/// filters.
pub open spec fn spec_recent_pass(
    rec: Record,
    source: Option<SourceFilter>,
    project: Option<Seq<char>>,
) -> bool {
    &&& (source matches Some(f) ==> f.spec_matches(rec.source))
    &&& (project matches Some(p) ==> rec.project@ == p)
}

/// The project filter as a character sequence.
pub open spec fn spec_proj_view(project: Option<&str>) -> Option<Seq<char>> {
    match project {
        Some(p) => Some(p@),
        None => None,
    }
}

/// The zero-scored pairs the recent branch groups: the records among the
/// first `i` fetched that pass the filters, in fetch order.
pub open spec fn spec_recent_pairs(
    recs: Seq<Record>,
    source: Option<SourceFilter>,
    proj: Option<Seq<char>>,
    i: int,
) -> Seq<(u64, Record)>
    decreases i,
{
    if i <= 0 {
        Seq::empty()
    } else {
        let prev = spec_recent_pairs(recs, source, proj, i - 1);
        if spec_recent_pass(recs[i - 1], source, proj) {
            prev.push((0u64, recs[i - 1]))
        } else {
            prev
        }
    }
}

/// Groups the most recent committed records into session summaries:
/// records failing the source or project filter are skipped, grouping
/// stops once the session limit is reached, and the summaries come back
/// most recent first. As long as the index fits the fetch window, some
/// session comes back whenever some committed record passes the filters.
#[verifier::rlimit(60)]
pub fn sessions_from_recent(
    index: &SearchIndex,
    source: Option<SourceFilter>,
    project: Option<&str>,
) -> (r: Vec<SessionSummary>)
    ensures
        r@.len() <= RECENT_SESSIONS_LIMIT as int,
        summaries_sorted(r@, false),
        sessions_distinct(r@),
        forall|k: int|
            0 <= k < r@.len() ==> (source matches Some(f) ==> f.spec_matches(
                (#[trigger] r@[k]).source,
            )) && (project matches Some(p) ==> r@[k].project@ == p@),
        ({
            let proj = spec_proj_view(project);
            let fits = index.committed_recs().len() <= RECENT_SESSIONS_LIMIT
                * RECENT_RECORDS_MULTIPLIER;
            &&& (fits && (exists|i: int|
                0 <= i < index.committed_recs().len() && spec_recent_pass(
                    #[trigger] index.committed_recs()[i],
                    source,
                    proj,
                )) ==> r@.len() > 0)
            &&& (fits ==> forall|k: int|
                0 <= k < r@.len() ==> exists|i: int|
                    0 <= i < index.committed_recs().len() && spec_recent_pass(
                        #[trigger] index.committed_recs()[i],
                        source,
                        proj,
                    ) && index.committed_recs()[i].session_id@ == (#[trigger] r@[k]).session_id@)
        }),
        exists|fetched: Seq<Record>, stop: int, grouped: Seq<SessionSummary>, ranked: Seq<
            SessionSummary,
        >|
            #![trigger spec_recent_pairs(fetched, source, spec_proj_view(project), stop),
                summary_views(grouped), ranked.to_multiset()]
            {
                let pairs = spec_recent_pairs(fetched, source, spec_proj_view(project), stop);
                &&& crate::index::spec_recent_post(
                    index.committed_recs(),
                    (RECENT_SESSIONS_LIMIT * RECENT_RECORDS_MULTIPLIER) as int,
                    fetched,
                )
                &&& 0 <= stop <= fetched.len()
                &&& (stop == fetched.len() || grouped.len() == RECENT_SESSIONS_LIMIT)
                &&& summary_views(grouped) == spec_group(pairs, pairs.len() as int)
                &&& summaries_sorted(ranked, false)
                &&& ranked.to_multiset() == grouped.to_multiset()
                &&& r@ == ranked
            },
{
    let ghost proj = spec_proj_view(project);
    let record_limit = RECENT_SESSIONS_LIMIT * RECENT_RECORDS_MULTIPLIER;
    let records = index.recent_records(record_limit);
    let mut sessions: Vec<SessionSummary> = Vec::new();
    let mut i: usize = 0;
    let n = records.len();
    while i < n && sessions.len() < RECENT_SESSIONS_LIMIT
        invariant
            n == records@.len(),
            i <= n,
            proj == spec_proj_view(project),
            sessions_distinct(sessions@),
            sessions@.len() <= RECENT_SESSIONS_LIMIT as int,
            (exists|t: int|
                0 <= t < i && spec_recent_pass(#[trigger] records@[t], source, proj))
                ==> sessions@.len() >= 1,
            forall|k: int|
                0 <= k < sessions@.len() ==> (source matches Some(f) ==> f.spec_matches(
                    (#[trigger] sessions@[k]).source,
                )) && (project matches Some(p) ==> sessions@[k].project@ == p@),
            forall|k: int|
                0 <= k < sessions@.len() ==> exists|t: int|
                    0 <= t < i && spec_recent_pass(#[trigger] records@[t], source, proj)
                        && records@[t].session_id@ == (#[trigger] sessions@[k]).session_id@,
            ({
                let pairs = spec_recent_pairs(records@, source, proj, i as int);
                summary_views(sessions@) == spec_group(pairs, pairs.len() as int)
            }),
            forall|k: int| 0 <= k < sessions@.len() ==> (#[trigger] sessions@[k]).hit_count <= i,
        decreases n - i,
    {
        let record = &records[i];
        let mut keep = true;
        match source {
            Some(f) => {
                if !f.matches(record.source) {
                    keep = false;
                }
            },
            None => {},
        }
        match project {
            Some(p) => {
                if !crate::strutil::str_eq(record.project.as_str(), p) {
                    keep = false;
                }
            },
            None => {},
        }
        proof {
            assert(keep == spec_recent_pass(records@[i as int], source, proj));
        }
        let ghost old_pairs = spec_recent_pairs(records@, source, proj, i as int);
        let ghost new_pairs = spec_recent_pairs(records@, source, proj, i + 1);
        if keep {
            let ghost pre = sessions@;
            add_record_to_session(&mut sessions, 0, record.clone());
            proof {
                assert(*record == records@[i as int]);
            }
            proof {
                assert(sessions@.len() >= 1);
            }
            proof {
                // the fold gains exactly this record's pair
                assert(new_pairs == old_pairs.push((0u64, records@[i as int])));
                lemma_group_prefix(new_pairs, old_pairs, old_pairs.len() as int);
                assert(new_pairs[new_pairs.len() - 1] == (0u64, records@[i as int]));
                assert(spec_group(new_pairs, new_pairs.len() as int) == spec_add_summary(
                    spec_group(old_pairs, old_pairs.len() as int),
                    0u64,
                    records@[i as int],
                ));
                assert(summary_views(sessions@) == spec_group(new_pairs, new_pairs.len() as int));
            }
            proof {
                if exists|j: int|
                    0 <= j < pre.len() && (#[trigger] pre[j]).session_id@ == record.session_id@ {
                    assert forall|k: int| 0 <= k < sessions@.len() implies (
                    #[trigger] sessions@[k]).hit_count <= i + 1 by {
                        if pre[k].session_id@ == record.session_id@ {
                            assert(sessions@[k].hit_count == pre[k].hit_count + 1);
                        } else {
                            assert(sessions@[k] == pre[k]);
                        }
                    }
                    assert forall|k: int|
                        0 <= k < sessions@.len() implies (source matches Some(f)
                        ==> f.spec_matches((#[trigger] sessions@[k]).source)) && (
                    project matches Some(p) ==> sessions@[k].project@ == p@) by {
                        if pre[k].session_id@ == record.session_id@ {
                            assert(sessions@[k].source == pre[k].source);
                            assert(sessions@[k].project@ == pre[k].project@);
                        } else {
                            assert(sessions@[k] == pre[k]);
                        }
                    }
                    assert forall|k: int|
                        0 <= k < sessions@.len() implies exists|t: int|
                        0 <= t < i + 1 && spec_recent_pass(#[trigger] records@[t], source, proj)
                            && records@[t].session_id@ == (
                        #[trigger] sessions@[k]).session_id@ by {
                        assert(sessions@[k].session_id@ == pre[k].session_id@);
                        let t = choose|t: int|
                            0 <= t < i && spec_recent_pass(#[trigger] records@[t], source, proj)
                                && records@[t].session_id@ == pre[k].session_id@;
                        assert(0 <= t < i + 1 && spec_recent_pass(records@[t], source, proj)
                            && records@[t].session_id@ == sessions@[k].session_id@);
                    }
                } else {
                    assert forall|k: int| 0 <= k < sessions@.len() implies (
                    #[trigger] sessions@[k]).hit_count <= i + 1 by {
                        if k < pre.len() {
                            assert(sessions@[k] == pre[k]);
                        } else {
                            assert(sessions@[k] == sessions@.last());
                        }
                    }
                    assert forall|k: int|
                        0 <= k < sessions@.len() implies (source matches Some(f)
                        ==> f.spec_matches((#[trigger] sessions@[k]).source)) && (
                    project matches Some(p) ==> sessions@[k].project@ == p@) by {
                        if k < pre.len() {
                            assert(sessions@[k] == pre[k]);
                        } else {
                            assert(sessions@[k] == sessions@.last());
                            assert(sessions@[k].source == record.source);
                            assert(sessions@[k].project@ == record.project@);
                        }
                    }
                    assert forall|k: int|
                        0 <= k < sessions@.len() implies exists|t: int|
                        0 <= t < i + 1 && spec_recent_pass(#[trigger] records@[t], source, proj)
                            && records@[t].session_id@ == (
                        #[trigger] sessions@[k]).session_id@ by {
                        if k < pre.len() {
                            assert(sessions@[k] == pre[k]);
                            let t = choose|t: int|
                                0 <= t < i && spec_recent_pass(
                                    #[trigger] records@[t],
                                    source,
                                    proj,
                                ) && records@[t].session_id@ == pre[k].session_id@;
                            assert(0 <= t < i + 1 && spec_recent_pass(records@[t], source, proj)
                                && records@[t].session_id@ == sessions@[k].session_id@);
                        } else {
                            assert(sessions@[k] == sessions@.last());
                            assert(sessions@[k].session_id@ == record.session_id@);
                            assert(spec_recent_pass(records@[i as int], source, proj));
                        }
                    }
                }
            }
        } else {
            proof {
                assert(new_pairs == old_pairs);
            }
        }
        i = i + 1;
    }
    proof {
        let comm = index.committed_recs();
        if comm.len() <= RECENT_SESSIONS_LIMIT * RECENT_RECORDS_MULTIPLIER && (exists|w: int|
            0 <= w < comm.len() && spec_recent_pass(#[trigger] comm[w], source, proj)) {
            let w = choose|w: int|
                0 <= w < comm.len() && spec_recent_pass(#[trigger] comm[w], source, proj);
            assert(records@.to_multiset() == comm.to_multiset());
            assert(records@.to_multiset().count(comm[w]) > 0) by {
                assert(comm.contains(comm[w]));
            }
            assert(records@.contains(comm[w]));
            let tdx = choose|tdx: int| 0 <= tdx < records@.len() && records@[tdx] == comm[w];
            if i == n {
                assert(spec_recent_pass(records@[tdx], source, proj));
                assert(sessions@.len() >= 1);
            } else {
                assert(sessions@.len() >= RECENT_SESSIONS_LIMIT as int);
            }
        }
    }
    let ghost grouped = sessions@;
    let out = sort_summaries(sessions, false);
    proof {
        assert forall|k: int|
            0 <= k < out@.len() implies (source matches Some(f) ==> f.spec_matches(
            (#[trigger] out@[k]).source,
        )) && (project matches Some(p) ==> out@[k].project@ == p@) by {
            assert(out@.to_multiset().count(out@[k]) > 0) by {
                assert(out@.contains(out@[k]));
            }
            assert(grouped.to_multiset().count(out@[k]) > 0);
            assert(grouped.contains(out@[k]));
            let g = choose|g: int| 0 <= g < grouped.len() && grouped[g] == out@[k];
            assert((source matches Some(f) ==> f.spec_matches(grouped[g].source)) && (
            project matches Some(p) ==> grouped[g].project@ == p@));
        }
        let comm = index.committed_recs();
        if comm.len() <= RECENT_SESSIONS_LIMIT * RECENT_RECORDS_MULTIPLIER {
            assert(records@.to_multiset() == comm.to_multiset());
            assert forall|k: int|
                0 <= k < out@.len() implies exists|w: int|
                0 <= w < comm.len() && spec_recent_pass(#[trigger] comm[w], source, proj)
                    && comm[w].session_id@ == (#[trigger] out@[k]).session_id@ by {
                assert(out@.to_multiset().count(out@[k]) > 0) by {
                    assert(out@.contains(out@[k]));
                }
                assert(grouped.to_multiset().count(out@[k]) > 0);
                assert(grouped.contains(out@[k]));
                let g = choose|g: int| 0 <= g < grouped.len() && grouped[g] == out@[k];
                let t = choose|t: int|
                    0 <= t < records@.len() && spec_recent_pass(
                        #[trigger] records@[t],
                        source,
                        proj,
                    ) && records@[t].session_id@ == grouped[g].session_id@;
                assert(records@.to_multiset().count(records@[t]) > 0) by {
                    assert(records@.contains(records@[t]));
                }
                assert(comm.to_multiset().count(records@[t]) > 0);
                assert(comm.contains(records@[t]));
                let w = choose|w: int| 0 <= w < comm.len() && comm[w] == records@[t];
                assert(spec_recent_pass(comm[w], source, proj) && comm[w].session_id@
                    == out@[k].session_id@);
            }
        }
        // witnesses for the aggregation clause: the fetched records, the
        // stop point, the grouped run, and the ranked run
        let pairs = spec_recent_pairs(records@, source, spec_proj_view(project), i as int);
        assert(proj == spec_proj_view(project));
        assert(crate::index::spec_recent_post(
            index.committed_recs(),
            (RECENT_SESSIONS_LIMIT * RECENT_RECORDS_MULTIPLIER) as int,
            records@,
        ));
        assert(summary_views(grouped) == spec_group(pairs, pairs.len() as int));
        assert(i as int == records@.len() || grouped.len() == RECENT_SESSIONS_LIMIT);
        assert(out@.to_multiset() == grouped.to_multiset());
        assert(summaries_sorted(out@, false));
    }
    out
}

/// `a` is lexicographically at most `b`, by Unicode scalar value.
pub open spec fn lex_le(a: Seq<char>, b: Seq<char>) -> bool
    decreases a.len(),
{
    if a.len() == 0 {
        true
    } else if b.len() == 0 {
        false
    } else if (a[0] as u64) < (b[0] as u64) {
        true
    } else if (a[0] as u64) > (b[0] as u64) {
        false
    } else {
        lex_le(a.drop_first(), b.drop_first())
    }
}

fn str_lex_le(a: &String, b: &String) -> (r: bool)
    ensures
        r == lex_le(a@, b@),
{
    let ac = crate::strutil::str_to_chars(a.as_str());
    let bc = crate::strutil::str_to_chars(b.as_str());
    let mut i: usize = 0;
    proof {
        assert(a@.skip(0) =~= a@);
        assert(b@.skip(0) =~= b@);
    }
    loop
        invariant
            ac@ == a@,
            bc@ == b@,
            i <= ac@.len(),
            i <= bc@.len(),
            lex_le(a@, b@) == lex_le(a@.skip(i as int), b@.skip(i as int)),
        decreases ac@.len() - i,
    {
        if i == ac.len() {
            proof {
                assert(a@.skip(i as int).len() == 0);
            }
            return true;
        }
        if i == bc.len() {
            proof {
                assert(b@.skip(i as int).len() == 0);
                assert(a@.skip(i as int).len() > 0);
            }
            return false;
        }
        let x = ac[i] as u64;
        let y = bc[i] as u64;
        proof {
            let sa = a@.skip(i as int);
            let sb = b@.skip(i as int);
            assert(sa[0] == a@[i as int] && sb[0] == b@[i as int]);
            assert(sa.drop_first() =~= a@.skip(i + 1));
            assert(sb.drop_first() =~= b@.skip(i + 1));
        }
        if x < y {
            return true;
        }
        if x > y {
            return false;
        }
        proof {
            assert(a@[i as int] as u64 == b@[i as int] as u64);
        }
        i = i + 1;
    }
}

/// `s` is sorted ascending lexicographically.
pub open spec fn projects_sorted(s: Seq<Seq<char>>) -> bool {
    forall|i: int, j: int| 0 <= i < j < s.len() ==> lex_le(s[i], s[j])
}

proof fn lemma_lex_le_total(a: Seq<char>, b: Seq<char>)
    ensures
        lex_le(a, b) || lex_le(b, a),
    decreases a.len(),
{
    if a.len() > 0 && b.len() > 0 && a[0] as u64 == b[0] as u64 {
        lemma_lex_le_total(a.drop_first(), b.drop_first());
    }
}

proof fn lemma_lex_le_refl(a: Seq<char>)
    ensures
        lex_le(a, a),
    decreases a.len(),
{
    if a.len() > 0 {
        lemma_lex_le_refl(a.drop_first());
    }
}

proof fn lemma_lex_le_trans(a: Seq<char>, b: Seq<char>, c: Seq<char>)
    requires
        lex_le(a, b),
        lex_le(b, c),
    ensures
        lex_le(a, c),
    decreases a.len(),
{
    if a.len() > 0 && b.len() > 0 && c.len() > 0 && a[0] as u64 == b[0] as u64 && b[0] as u64
        == c[0] as u64 {
        lemma_lex_le_trans(a.drop_first(), b.drop_first(), c.drop_first());
    }
}

/// The distinct non-empty project tags among the committed records that
/// pass the source filter, sorted ascending.
/// `p` is the project tag of some committed record passing the source
/// filter, and is not empty.
pub open spec fn spec_project_listed(
    recs: Seq<Record>,
    source: Option<SourceFilter>,
    p: Seq<char>,
) -> bool {
    exists|i: int|
        0 <= i < recs.len() && (source matches Some(f) ==> f.spec_matches(
            (#[trigger] recs[i]).source,
        )) && recs[i].project@ == p && p.len() > 0
}

pub fn collect_projects(index: &SearchIndex, source: Option<SourceFilter>) -> (r: Vec<String>)
    ensures
        projects_sorted(r@.map_values(|x: String| x@)),
        forall|i: int, j: int|
            0 <= i < j < r@.len() ==> (#[trigger] r@[i])@ != (#[trigger] r@[j])@,
        forall|p: Seq<char>|
            #![trigger spec_project_listed(index.committed_recs(), source, p)]
            crate::tokens::views_of(r@).contains(p) <==> spec_project_listed(
                index.committed_recs(),
                source,
                p,
            ),
{
    let count = index.doc_count();
    let all = index.recent_records(count);
    proof {
        assert(all@.to_multiset() == index.committed_recs().to_multiset());
    }
    let mut set: Vec<String> = Vec::new();
    let mut i: usize = 0;
    while i < all.len()
        invariant
            i <= all@.len(),
            forall|a: int, b: int|
                0 <= a < b < set@.len() ==> (#[trigger] set@[a])@ != (#[trigger] set@[b])@,
            forall|p: Seq<char>|
                #![trigger crate::tokens::views_of(set@).contains(p)]
                crate::tokens::views_of(set@).contains(p) <==> (exists|t: int|
                    0 <= t < i && (source matches Some(f) ==> f.spec_matches(
                        (#[trigger] all@[t]).source,
                    )) && all@[t].project@ == p && p.len() > 0),
        decreases all@.len() - i,
    {
        let record = &all[i];
        let mut keep = true;
        match source {
            Some(f) => {
                if !f.matches(record.source) {
                    keep = false;
                }
            },
            None => {},
        }
        let ghost old_set = set@;
        let nonempty = !record.project.as_str().is_empty();
        let ghost listed_upto = |p: Seq<char>, bound: int|
            exists|t: int|
                0 <= t < bound && (source matches Some(f) ==> f.spec_matches(
                    (#[trigger] all@[t]).source,
                )) && all@[t].project@ == p && p.len() > 0;
        if keep && nonempty {
            let candidate = record.project.clone();
            let present = crate::tokens::contains_string(&set, &candidate);
            if !present {
                proof {
                    assert forall|a: int| 0 <= a < set@.len() implies (#[trigger] set@[a])@
                        != candidate@ by {
                        assert(set@.map_values(|x: String| x@)[a] == set@[a]@);
                    }
                }
                set.push(candidate);
            }
            proof {
                let views = crate::tokens::views_of(set@);
                let old_views = crate::tokens::views_of(old_set);
                assert forall|p: Seq<char>|
                    #![trigger crate::tokens::views_of(set@).contains(p)]
                    crate::tokens::views_of(set@).contains(p) <==> listed_upto(p, i + 1) by {
                    if views.contains(p) {
                        let a = choose|a: int| 0 <= a < views.len() && views[a] == p;
                        assert(views[a] == set@[a]@);
                        if a < old_set.len() {
                            assert(old_views[a] == old_set[a]@);
                            assert(old_views.contains(p));
                            assert(listed_upto(p, i as int));
                        } else {
                            assert(set@[a]@ == candidate@);
                            assert(all@[i as int].project@ == p);
                            assert(listed_upto(p, i + 1));
                        }
                    }
                    if listed_upto(p, i + 1) {
                        let tw = choose|t: int|
                            0 <= t < i + 1 && (source matches Some(f) ==> f.spec_matches(
                                (#[trigger] all@[t]).source,
                            )) && all@[t].project@ == p && p.len() > 0;
                        if tw < i {
                            assert(old_views.contains(p));
                            let a = choose|a: int| 0 <= a < old_views.len() && old_views[a] == p;
                            assert(old_views[a] == old_set[a]@);
                            assert(views[a] == set@[a]@);
                            assert(views.contains(p));
                        } else {
                            // this very record carries the tag
                            assert(p == candidate@);
                            if present {
                                assert(old_views.contains(p));
                                let a = choose|a: int|
                                    0 <= a < old_views.len() && old_views[a] == p;
                                assert(old_views[a] == old_set[a]@);
                                assert(views[a] == set@[a]@);
                                assert(views.contains(p));
                            } else {
                                assert(set@.last()@ == p);
                                assert(views[set@.len() - 1] == p);
                                assert(views.contains(p));
                            }
                        }
                    }
                }
            }
        } else {
            proof {
                let views = crate::tokens::views_of(set@);
                assert forall|p: Seq<char>|
                    #![trigger crate::tokens::views_of(set@).contains(p)]
                    crate::tokens::views_of(set@).contains(p) <==> listed_upto(p, i + 1) by {
                    if listed_upto(p, i + 1) {
                        let tw = choose|t: int|
                            0 <= t < i + 1 && (source matches Some(f) ==> f.spec_matches(
                                (#[trigger] all@[t]).source,
                            )) && all@[t].project@ == p && p.len() > 0;
                        // the current record was filtered out or has no tag,
                        // so the witness lies before it
                        assert(tw < i);
                        assert(listed_upto(p, i as int));
                    }
                }
            }
        }
        i = i + 1;
    }
    proof {
        // membership over the fetched records equals membership over the
        // committed ones: the fetch is a permutation
        assert forall|p: Seq<char>|
            #![trigger spec_project_listed(index.committed_recs(), source, p)]
            crate::tokens::views_of(set@).contains(p) <==> spec_project_listed(
                index.committed_recs(),
                source,
                p,
            ) by {
            let comm = index.committed_recs();
            if crate::tokens::views_of(set@).contains(p) {
                let tw = choose|t: int|
                    0 <= t < all@.len() && (source matches Some(f) ==> f.spec_matches(
                        (#[trigger] all@[t]).source,
                    )) && all@[t].project@ == p && p.len() > 0;
                assert(all@.to_multiset().count(all@[tw]) > 0) by {
                    assert(all@.contains(all@[tw]));
                }
                assert(comm.to_multiset().count(all@[tw]) > 0);
                assert(comm.contains(all@[tw]));
                let c = choose|c: int| 0 <= c < comm.len() && comm[c] == all@[tw];
                assert(spec_project_listed(comm, source, p)) by {
                    assert((source matches Some(f) ==> f.spec_matches(comm[c].source))
                        && comm[c].project@ == p && p.len() > 0);
                }
            }
            if spec_project_listed(comm, source, p) {
                let c = choose|c: int|
                    0 <= c < comm.len() && (source matches Some(f) ==> f.spec_matches(
                        (#[trigger] comm[c]).source,
                    )) && comm[c].project@ == p && p.len() > 0;
                assert(comm.to_multiset().count(comm[c]) > 0) by {
                    assert(comm.contains(comm[c]));
                }
                assert(all@.to_multiset().count(comm[c]) > 0);
                assert(all@.contains(comm[c]));
                let tw = choose|tw: int| 0 <= tw < all@.len() && all@[tw] == comm[c];
                assert((source matches Some(f) ==> f.spec_matches(all@[tw].source))
                    && all@[tw].project@ == p && p.len() > 0);
            }
        }
    }
    // selection sort, smallest first
    let ghost collected = set@;
    let mut src = set;
    let mut out: Vec<String> = Vec::new();
    while src.len() > 0
        invariant
            out@.to_multiset().add(src@.to_multiset()) == collected.to_multiset(),
            projects_sorted(out@.map_values(|x: String| x@)),
            forall|a: int, b: int|
                0 <= a < b < out@.len() ==> (#[trigger] out@[a])@ != (#[trigger] out@[b])@,
            forall|a: int, b: int|
                0 <= a < b < src@.len() ==> (#[trigger] src@[a])@ != (#[trigger] src@[b])@,
            forall|a: int, b: int|
                0 <= a < out@.len() && 0 <= b < src@.len() ==> lex_le(
                    (#[trigger] out@[a])@,
                    (#[trigger] src@[b])@,
                ) && out@[a]@ != src@[b]@,
        decreases src@.len(),
    {
        let mut m: usize = 0;
        let mut k: usize = 1;
        proof {
            lemma_lex_le_refl(src@[0]@);
        }
        while k < src.len()
            invariant
                m < k <= src@.len() || (k <= src@.len() && m == 0),
                m < src@.len(),
                src@.len() > 0,
                forall|t: int| 0 <= t < k ==> lex_le(src@[m as int]@, (#[trigger] src@[t])@),
            decreases src@.len() - k,
        {
            if !str_lex_le(&src[m], &src[k]) {
                proof {
                    lemma_lex_le_total(src@[m as int]@, src@[k as int]@);
                    let old_m = m as int;
                    assert forall|t: int| 0 <= t < k + 1 implies lex_le(
                        src@[k as int]@,
                        (#[trigger] src@[t])@,
                    ) by {
                        if t == k as int {
                            lemma_lex_le_refl(src@[k as int]@);
                        } else {
                            lemma_lex_le_trans(src@[k as int]@, src@[old_m]@, src@[t]@);
                        }
                    }
                }
                m = k;
            } else {
                proof {
                    assert forall|t: int| 0 <= t < k + 1 implies lex_le(
                        src@[m as int]@,
                        (#[trigger] src@[t])@,
                    ) by {}
                }
            }
            k = k + 1;
        }
        let ghost old_out = out@;
        let ghost old_src = src@;
        let x = src.remove(m);
        out.push(x);
        proof {
            assert(out@ =~= old_out.push(x));
            assert(out@.to_multiset() =~= old_out.to_multiset().insert(x));
            assert(src@.to_multiset() =~= old_src.to_multiset().remove(x));
            assert(old_src.to_multiset().count(x) > 0) by {
                assert(old_src[m as int] == x);
                assert(old_src.contains(x));
            }
            assert(out@.to_multiset().add(src@.to_multiset()) =~= collected.to_multiset());
            assert forall|j: int| 0 <= j < src@.len() implies lex_le(x@, (#[trigger] src@[j])@)
                && x@ != src@[j]@ by {
                if j < m {
                    assert(src@[j] == old_src[j]);
                } else {
                    assert(src@[j] == old_src[j + 1]);
                }
            }
            assert forall|a: int, b: int|
                #![trigger out@[a], out@[b]]
                0 <= a < b < out@.len() implies lex_le(
                out@.map_values(|s: String| s@)[a],
                out@.map_values(|s: String| s@)[b],
            ) by {
                assert(out@.map_values(|s: String| s@)[a] == out@[a]@);
                assert(out@.map_values(|s: String| s@)[b] == out@[b]@);
                if b < out@.len() - 1 {
                    assert(lex_le(old_out[a]@, old_out[b]@)) by {
                        assert(projects_sorted(old_out.map_values(|s: String| s@)));
                        assert(old_out.map_values(|s: String| s@)[a] == old_out[a]@);
                        assert(old_out.map_values(|s: String| s@)[b] == old_out[b]@);
                    }
                } else {
                    assert(out@[b] == x);
                    if a < out@.len() - 1 {
                        assert(lex_le(old_out[a]@, old_src[m as int]@));
                    }
                }
            }
            assert forall|a: int, b: int|
                0 <= a < b < out@.len() implies (#[trigger] out@[a])@ != (
            #[trigger] out@[b])@ by {
                if b == out@.len() - 1 && a < b {
                    assert(out@[b] == x);
                    assert(lex_le(old_out[a]@, old_src[m as int]@) && old_out[a]@ != old_src[
                        m as int
                    ]@);
                }
            }
        }
    }
    proof {
        assert(src@.to_multiset() =~= vstd::multiset::Multiset::empty());
        assert(out@.to_multiset() =~= out@.to_multiset().add(src@.to_multiset()));
        // sorting permutes the collected tags, so membership carries over
        assert forall|p: Seq<char>|
            #![trigger spec_project_listed(index.committed_recs(), source, p)]
            crate::tokens::views_of(out@).contains(p) <==> spec_project_listed(
                index.committed_recs(),
                source,
                p,
            ) by {
            if crate::tokens::views_of(out@).contains(p) {
                let a = choose|a: int|
                    0 <= a < crate::tokens::views_of(out@).len() && crate::tokens::views_of(
                        out@,
                    )[a] == p;
                assert(out@[a]@ == p);
                assert(out@.to_multiset().count(out@[a]) > 0) by {
                    assert(out@.contains(out@[a]));
                }
                assert(collected.to_multiset().count(out@[a]) > 0);
                assert(collected.contains(out@[a]));
                let c = choose|c: int| 0 <= c < collected.len() && collected[c] == out@[a];
                assert(crate::tokens::views_of(collected)[c] == p);
                assert(crate::tokens::views_of(collected).contains(p));
            }
            if spec_project_listed(index.committed_recs(), source, p) {
                assert(crate::tokens::views_of(collected).contains(p));
                let c = choose|c: int|
                    0 <= c < crate::tokens::views_of(collected).len() && crate::tokens::views_of(
                        collected,
                    )[c] == p;
                assert(collected[c]@ == p);
                assert(collected.to_multiset().count(collected[c]) > 0) by {
                    assert(collected.contains(collected[c]));
                }
                assert(out@.to_multiset().count(collected[c]) > 0);
                assert(out@.contains(collected[c]));
                let a = choose|a: int| 0 <= a < out@.len() && out@[a] == collected[c];
                assert(crate::tokens::views_of(out@)[a] == p);
                assert(crate::tokens::views_of(out@).contains(p));
            }
        }
    }
    out
}

/// The projects kept by a filter, among the first `i`: all of them when
/// the lowercased filter is empty, otherwise those whose lowercased form
/// contains it.
pub open spec fn spec_filter_projects(all: Seq<Seq<char>>, filt: Seq<char>, i: int) -> Seq<
    Seq<char>,
>
    decreases i,
{
    if i <= 0 {
        Seq::empty()
    } else {
        let prev = spec_filter_projects(all, filt, i - 1);
        if crate::strutil::lower_of(filt).len() == 0 || crate::strutil::seq_contains(
            crate::strutil::lower_of(all[i - 1]),
            crate::strutil::lower_of(filt),
        ) {
            prev.push(all[i - 1])
        } else {
            prev
        }
    }
}

/// Keeps the projects whose lowercased form contains the lowercased
/// filter; an empty filter keeps everything.
pub fn filter_projects(all: &Vec<String>, filter: &str) -> (r: Vec<String>)
    ensures
        r@.map_values(|s: String| s@) == spec_filter_projects(
            all@.map_values(|s: String| s@),
            filter@,
            all@.len() as int,
        ),
        r@.len() <= all@.len(),
{
    let ghost all_views = all@.map_values(|s: String| s@);
    let lowered_filter = crate::strutil::lowercase(filter);
    let filter_chars = crate::strutil::str_to_chars(lowered_filter.as_str());
    let mut out: Vec<String> = Vec::new();
    let mut i: usize = 0;
    while i < all.len()
        invariant
            i <= all@.len(),
            all_views == all@.map_values(|s: String| s@),
            filter_chars@ == crate::strutil::lower_of(filter@),
            out@.len() <= i,
            out@.map_values(|s: String| s@) == spec_filter_projects(all_views, filter@, i as int),
        decreases all@.len() - i,
    {
        let keep: bool;
        if filter_chars.len() == 0 {
            keep = true;
        } else {
            let lowered = crate::strutil::lowercase(all[i].as_str());
            let chars = crate::strutil::str_to_chars(lowered.as_str());
            keep = crate::strutil::chars_contain(&chars, &filter_chars);
        }
        proof {
            assert(all_views[i as int] == all@[i as int]@);
        }
        if keep {
            out.push(all[i].clone());
        }
        i = i + 1;
        proof {
            assert(out@.map_values(|s: String| s@) =~= spec_filter_projects(
                all_views,
                filter@,
                i as int,
            ));
        }
    }
    out
}

} // verus!
