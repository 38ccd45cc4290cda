//! The full-text index: staged and committed records keyed by monotonic
//! document ids, with fingerprint lookup for dedup, filtered search, and
//! recency queries.

use vstd::prelude::*;
use vstd::multiset::Multiset;
use crate::tokens::{contains_string, query_terms, spec_query_terms, views_of};
use crate::types::{spec_is_tool_role, is_tool_role, Record, RecordInput, SourceFilter};

verus! {

broadcast use vstd::seq_lib::group_to_multiset_ensures;

/// Options of one query against the index: the free-text part plus exact
/// filters that are combined with AND.
pub struct QueryOptions {
    pub query: String,
    /// Exact project tag.
    pub project: Option<String>,
    /// Exact role; the value `tool` also accepts the two tool roles.
    pub role: Option<String>,
    /// Whether matching records must (or must not) carry a tool role.
    pub tool: Option<bool>,
    /// Exact session.
    pub session_id: Option<String>,
    pub source: Option<SourceFilter>,
    /// Inclusive lower bound on `ts`.
    pub since: Option<u64>,
    /// Inclusive upper bound on `ts`.
    pub until: Option<u64>,
    /// At most this many results come back.
    pub limit: usize,
}

/// A record passes every filter of `opts` (the free-text part is scored
/// separately).
pub open spec fn spec_passes_filters(opts: QueryOptions, r: Record) -> bool {
    &&& (opts.project matches Some(p) ==> r.project@ == p@)
    &&& (opts.role matches Some(ro) ==> (r.role@ == ro@ || (ro@ == "tool"@
        && spec_is_tool_role(r.role@))))
    &&& (opts.tool matches Some(t) ==> spec_is_tool_role(r.role@) == t)
    &&& (opts.session_id matches Some(sid) ==> r.session_id@ == sid@)
    &&& (opts.source matches Some(f) ==> f.spec_matches(r.source))
    &&& (opts.since matches Some(lo) ==> r.ts >= lo)
    &&& (opts.until matches Some(hi) ==> r.ts <= hi)
}

/// Whether `r` passes every filter of `opts`.
pub fn passes_filters(opts: &QueryOptions, r: &Record) -> (res: bool)
    ensures
        res == spec_passes_filters(*opts, *r),
{
    match &opts.project {
        Some(p) => {
            if !(r.project == *p) {
                return false;
            }
        },
        None => {},
    }
    match &opts.role {
        Some(ro) => {
            let wanted_tool = String::from_str("tool");
            let same = r.role == *ro;
            let as_tool = *ro == wanted_tool && is_tool_role(r.role.as_str());
            if !(same || as_tool) {
                return false;
            }
        },
        None => {},
    }
    match &opts.tool {
        Some(t) => {
            if is_tool_role(r.role.as_str()) != *t {
                return false;
            }
        },
        None => {},
    }
    match &opts.session_id {
        Some(sid) => {
            if !(r.session_id == *sid) {
                return false;
            }
        },
        None => {},
    }
    match &opts.source {
        Some(f) => {
            if !f.matches(r.source) {
                return false;
            }
        },
        None => {},
    }
    match &opts.since {
        Some(lo) => {
            if r.ts < *lo {
                return false;
            }
        },
        None => {},
    }
    match &opts.until {
        Some(hi) => {
            if r.ts > *hi {
                return false;
            }
        },
        None => {},
    }
    true
}

/// One step of the FNV-1a style fingerprint mix.
pub open spec fn fnv_mix(h: u64, b: u64) -> u64 {
    vstd::wrapping::u64_specs::wrapping_mul(h ^ b, 0x100000001b3)
}

/// The hash state after mixing in the first `i` characters of `s`.
pub open spec fn fnv_chars(h: u64, s: Seq<char>, i: int) -> u64
    decreases i,
{
    if i <= 0 {
        h
    } else {
        fnv_mix(fnv_chars(h, s, i - 1), s[i - 1] as u64)
    }
}

/// The dedup fingerprint of a record: a hash of session, turn, timestamp
/// and text, the fields the ingest algorithm hashes; the source path is
/// deliberately not part of it, so a record replayed from a moved file
/// still deduplicates. A record is inserted at most once per fingerprint.
pub open spec fn spec_fingerprint(
    session_id: Seq<char>,
    turn_id: u64,
    ts: u64,
    text: Seq<char>,
) -> u64 {
    let h0 = 0xcbf29ce484222325u64;
    let h1 = fnv_chars(h0, session_id, session_id.len() as int);
    let h2 = fnv_mix(fnv_mix(h1, turn_id), ts);
    fnv_chars(h2, text, text.len() as int)
}

fn mix(h: u64, b: u64) -> (r: u64)
    ensures
        r == fnv_mix(h, b),
{
    (h ^ b).wrapping_mul(0x100000001b3)
}

fn mix_str(h: u64, s: &str) -> (r: u64)
    ensures
        r == fnv_chars(h, s@, s@.len() as int),
{
    let chars = crate::strutil::str_to_chars(s);
    let mut acc = h;
    let mut i: usize = 0;
    while i < chars.len()
        invariant
            chars@ == s@,
            i <= s@.len(),
            acc == fnv_chars(h, s@, i as int),
        decreases s@.len() - i,
    {
        let c = chars[i];
        acc = mix(acc, c as u64);
        i = i + 1;
    }
    acc
}

/// The dedup fingerprint of an incoming record.
pub fn fingerprint_of(input: &RecordInput) -> (r: u64)
    ensures
        r == spec_fingerprint(input.session_id@, input.turn_id, input.ts, input.text@),
{
    let h1 = mix_str(0xcbf29ce484222325u64, input.session_id.as_str());
    let h2 = mix(mix(h1, input.turn_id), input.ts);
    mix_str(h2, input.text.as_str())
}

fn fingerprint_of_record(r: &Record) -> (fp: u64)
    ensures
        fp == spec_fingerprint(r.session_id@, r.turn_id, r.ts, r.text@),
{
    let h1 = mix_str(0xcbf29ce484222325u64, r.session_id.as_str());
    let h2 = mix(mix(h1, r.turn_id), r.ts);
    mix_str(h2, r.text.as_str())
}

/// The fingerprint a stored record answers to.
pub open spec fn record_fingerprint(r: Record) -> u64 {
    spec_fingerprint(r.session_id@, r.turn_id, r.ts, r.text@)
}

/// Document ids strictly increase along `s`.
pub open spec fn ids_increasing(s: Seq<Record>) -> bool {
    forall|i: int, j: int| 0 <= i < j < s.len() ==> s[i].doc_id < s[j].doc_id
}

/// How many of the first `i` query terms occur among the text's terms.
pub open spec fn spec_match_count(qterms: Seq<Seq<char>>, tterms: Seq<Seq<char>>, i: int) -> nat
    decreases i,
{
    if i <= 0 {
        0
    } else {
        spec_match_count(qterms, tterms, i - 1) + (if tterms.contains(qterms[i - 1]) {
            1nat
        } else {
            0nat
        })
    }
}

proof fn lemma_match_count_le(qterms: Seq<Seq<char>>, tterms: Seq<Seq<char>>, i: int)
    requires
        i >= 0,
    ensures
        spec_match_count(qterms, tterms, i) <= i,
    decreases i,
{
    if i > 0 {
        lemma_match_count_le(qterms, tterms, i - 1);
    }
}

/// The lexical score of a text against the distinct query terms: the
/// number of terms that occur among the text's own terms.
pub open spec fn spec_score(qterms: Seq<Seq<char>>, text: Seq<char>) -> nat {
    spec_match_count(qterms, spec_query_terms(text), qterms.len() as int)
}

/// The number of distinct query terms in `terms` that occur among the
/// terms of `text`.
fn score_of(terms: &Vec<String>, text: &str) -> (r: u64)
    ensures
        r == spec_score(views_of(terms@), text@),
        r <= terms@.len(),
{
    let text_terms = query_terms(text);
    let nterms = terms.len();
    let mut count: u64 = 0;
    let mut i: usize = 0;
    while i < terms.len()
        invariant
            views_of(text_terms@) == spec_query_terms(text@),
            i <= terms@.len(),
            terms@.len() == nterms,
            count == spec_match_count(views_of(terms@), views_of(text_terms@), i as int),
            count <= i,
        decreases terms@.len() - i,
    {
        if contains_string(&text_terms, &terms[i]) {
            count = count + 1;
        }
        proof {
            assert(views_of(terms@)[i as int] == terms@[i as int]@);
        }
        i = i + 1;
    }
    count
}

/// The scored records among the first `i` of `recs` that pass the filters
/// of `opts` and match at least one query term, in index order.
pub open spec fn scored_matches(recs: Seq<Record>, opts: QueryOptions, i: int) -> Seq<(u64, Record)>
    decreases i,
{
    if i <= 0 {
        Seq::empty()
    } else {
        let prev = scored_matches(recs, opts, i - 1);
        let r = recs[i - 1];
        let s = spec_score(spec_query_terms(opts.query@), r.text@);
        if spec_passes_filters(opts, r) && s > 0 {
            prev.push((s as u64, r))
        } else {
            prev
        }
    }
}

/// Ranking order of search results: higher score first, then more recent,
/// then larger document id. Distinct records never tie.
pub open spec fn rank_ge(a: (u64, Record), b: (u64, Record)) -> bool {
    ||| a.0 > b.0
    ||| (a.0 == b.0 && a.1.ts > b.1.ts)
    ||| (a.0 == b.0 && a.1.ts == b.1.ts && a.1.doc_id >= b.1.doc_id)
}

/// `s` is ordered best-first under [`rank_ge`].
pub open spec fn sorted_desc(s: Seq<(u64, Record)>) -> bool {
    forall|i: int, j: int| 0 <= i < j < s.len() ==> rank_ge(s[i], s[j])
}

/// What a recency query for `n` records over `committed` returns: the
/// most recent records, most recent first.
pub open spec fn spec_recent_post(committed: Seq<Record>, n: int, r: Seq<Record>) -> bool {
    &&& r.len() == vstd::math::min(n, committed.len() as int)
    &&& (n >= committed.len() ==> r.to_multiset() == committed.to_multiset())
    &&& (forall|i: int, j: int| 0 <= i < j < r.len() ==> r[i].ts >= r[j].ts)
    &&& (forall|i: int| 0 <= i < r.len() ==> committed.contains(#[trigger] r[i]))
    &&& (forall|x: Record, i: int|
        #![trigger r[i], committed.contains(x)]
        committed.contains(x) && !r.contains(x) && 0 <= i < r.len() ==> rank_ge(
            (0u64, r[i]),
            (0u64, x),
        ))
}

/// What a search over `committed` with `opts` returns: the best-ranked
/// scored matches, at most `opts.limit` of them, leaving out only records
/// that rank no higher than every returned one.
pub open spec fn spec_search_post(
    committed: Seq<Record>,
    opts: QueryOptions,
    r: Seq<(u64, Record)>,
) -> bool {
    let cand = scored_matches(committed, opts, committed.len() as int);
    &&& sorted_desc(r)
    &&& r.len() == vstd::math::min(opts.limit as int, cand.len() as int)
    &&& (forall|i: int| 0 <= i < r.len() ==> cand.contains(#[trigger] r[i]))
    &&& (forall|x: (u64, Record), i: int|
        #![trigger r[i], cand.contains(x)]
        cand.contains(x) && !r.contains(x) && 0 <= i < r.len() ==> rank_ge(r[i], x))
}

fn rank_ge_exec(a: &(u64, Record), b: &(u64, Record)) -> (r: bool)
    ensures
        r == rank_ge(*a, *b),
{
    a.0 > b.0 || (a.0 == b.0 && a.1.ts > b.1.ts) || (a.0 == b.0 && a.1.ts == b.1.ts
        && a.1.doc_id >= b.1.doc_id)
}

/// Sorts scored records best-first; the result holds exactly the input
/// pairs.
pub(crate) fn sort_ranked(input: Vec<(u64, Record)>) -> (r: Vec<(u64, Record)>)
    ensures
        sorted_desc(r@),
        r@.to_multiset() == input@.to_multiset(),
        r@.len() == input@.len(),
{
    let ghost orig = input@;
    let mut src = input;
    let mut out: Vec<(u64, Record)> = Vec::new();
    while src.len() > 0
        invariant
            sorted_desc(out@),
            out@.to_multiset().add(src@.to_multiset()) == orig.to_multiset(),
            out@.len() + src@.len() == orig.len(),
            forall|i: int, j: int|
                0 <= i < out@.len() && 0 <= j < src@.len() ==> rank_ge(out@[i], src@[j]),
        decreases src@.len(),
    {
        let mut m: usize = 0;
        let mut k: usize = 1;
        while k < src.len()
            invariant
                m < k <= src@.len() || (k <= src@.len() && m == 0),
                m < src@.len(),
                src@.len() > 0,
                forall|t: int| 0 <= t < k ==> rank_ge(src@[m as int], src@[t]),
            decreases src@.len() - k,
        {
            if rank_ge_exec(&src[k], &src[m]) {
                m = k;
            }
            k = k + 1;
        }
        let ghost old_out = out@;
        let ghost old_src = src@;
        let x = src.remove(m);
        out.push(x);
        proof {
            assert(out@ =~= old_out.push(x));
            assert(out@.to_multiset() =~= old_out.to_multiset().insert(x));
            assert(src@.to_multiset() =~= old_src.to_multiset().remove(x));
            assert(old_src.to_multiset().count(x) > 0) by {
                assert(old_src[m as int] == x);
                assert(old_src.contains(x));
            }
            assert(out@.to_multiset().add(src@.to_multiset()) =~= orig.to_multiset());
            // the extracted record ranks at least as high as all that remain
            assert forall|j: int| 0 <= j < src@.len() implies rank_ge(x, src@[j]) by {
                if j < m {
                    assert(src@[j] == old_src[j]);
                } else {
                    assert(src@[j] == old_src[j + 1]);
                }
            }
            assert forall|i: int, j: int|
                0 <= i < j < out@.len() implies rank_ge(out@[i], out@[j]) by {
                if j < out@.len() - 1 {
                    assert(rank_ge(old_out[i], old_out[j]));
                } else {
                    assert(out@[j] == x);
                    if i < out@.len() - 1 {
                        assert(rank_ge(old_out[i], old_src[m as int]));
                    }
                }
            }
        }
    }
    proof {
        assert(src@.to_multiset() =~= Multiset::empty());
        assert(out@.to_multiset() =~= out@.to_multiset().add(src@.to_multiset()));
    }
    out
}

/// The records among the first `i` of `recs` that belong to the session
/// `sid`, in index order.
pub open spec fn session_records(recs: Seq<Record>, sid: Seq<char>, i: int) -> Seq<Record>
    decreases i,
{
    if i <= 0 {
        Seq::empty()
    } else {
        let prev = session_records(recs, sid, i - 1);
        if recs[i - 1].session_id@ == sid {
            prev.push(recs[i - 1])
        } else {
            prev
        }
    }
}

proof fn lemma_scored_from_prefix(recs: Seq<Record>, opts: QueryOptions, i: int)
    requires
        0 <= i <= recs.len(),
    ensures
        forall|a: int|
            0 <= a < scored_matches(recs, opts, i).len() ==> exists|k: int|
                0 <= k < i && recs[k] == (#[trigger] scored_matches(recs, opts, i)[a]).1,
    decreases i,
{
    if i > 0 {
        lemma_scored_from_prefix(recs, opts, i - 1);
        let prev = scored_matches(recs, opts, i - 1);
        let cur = scored_matches(recs, opts, i);
        assert forall|a: int| 0 <= a < cur.len() implies exists|k: int|
            0 <= k < i && recs[k] == (#[trigger] cur[a]).1 by {
            if a < prev.len() {
                assert(cur[a] == prev[a]);
                let k = choose|k: int| 0 <= k < i - 1 && recs[k] == prev[a].1;
                assert(0 <= k < i && recs[k] == cur[a].1);
            } else {
                assert(cur[a].1 == recs[i - 1]);
            }
        }
    }
}

/// Search results keep the index's insertion order before ranking: with
/// strictly increasing document ids in `recs`, the matched pairs carry
/// strictly increasing document ids too. Narrowing the filters therefore
/// never reorders the surviving records.
pub proof fn lemma_scored_matches_doc_ordered(recs: Seq<Record>, opts: QueryOptions, i: int)
    requires
        ids_increasing(recs),
        0 <= i <= recs.len(),
    ensures
        forall|a: int, b: int|
            0 <= a < b < scored_matches(recs, opts, i).len() ==> (#[trigger] scored_matches(
                recs,
                opts,
                i,
            )[a]).1.doc_id < (#[trigger] scored_matches(recs, opts, i)[b]).1.doc_id,
    decreases i,
{
    if i > 0 {
        lemma_scored_matches_doc_ordered(recs, opts, i - 1);
        lemma_scored_from_prefix(recs, opts, i - 1);
        let prev = scored_matches(recs, opts, i - 1);
        let cur = scored_matches(recs, opts, i);
        assert forall|a: int, b: int|
            0 <= a < b < cur.len() implies (#[trigger] cur[a]).1.doc_id < (
        #[trigger] cur[b]).1.doc_id by {
            if b < prev.len() {
                assert(cur[a] == prev[a] && cur[b] == prev[b]);
            } else if cur.len() > prev.len() {
                assert(cur[b].1 == recs[i - 1]);
                assert(cur[a] == prev[a]);
                let k = choose|k: int| 0 <= k < i - 1 && recs[k] == prev[a].1;
                assert(recs[k].doc_id < recs[i - 1].doc_id);
            }
        }
    }
}

/// Filter composition: when every record passing the filters of `narrow`
/// also passes those of `wide`, and both ask the same query, the narrow
/// result set loses nothing that the wide one lacks — it is never larger,
/// and every narrow match is a wide match. Together with
/// [`lemma_scored_matches_doc_ordered`], surviving records keep their
/// relative order.
pub proof fn lemma_filter_composition(
    recs: Seq<Record>,
    wide: QueryOptions,
    narrow: QueryOptions,
    i: int,
)
    requires
        0 <= i,
        wide.query@ == narrow.query@,
        forall|r: Record| spec_passes_filters(narrow, r) ==> spec_passes_filters(wide, r),
    ensures
        scored_matches(recs, narrow, i).len() <= scored_matches(recs, wide, i).len(),
        forall|x: (u64, Record)|
            scored_matches(recs, narrow, i).contains(x) ==> scored_matches(recs, wide, i).contains(
                x,
            ),
    decreases i,
{
    if i > 0 {
        lemma_filter_composition(recs, wide, narrow, i - 1);
        let pn = scored_matches(recs, narrow, i - 1);
        let pw = scored_matches(recs, wide, i - 1);
        let cn = scored_matches(recs, narrow, i);
        let cw = scored_matches(recs, wide, i);
        assert forall|x: (u64, Record)| cn.contains(x) implies cw.contains(x) by {
            let a = choose|a: int| 0 <= a < cn.len() && cn[a] == x;
            if a < pn.len() {
                assert(pn.contains(x)) by {
                    assert(pn[a] == x);
                }
                assert(pw.contains(x));
                let b = choose|b: int| 0 <= b < pw.len() && pw[b] == x;
                assert(cw[b] == x);
                assert(cw.contains(x)) by {
                    assert(cw[b] == x);
                }
            } else {
                // the new element passed the narrow filters, so the wide
                // fold pushed it too, with the same score
                assert(x == cn.last());
                assert(spec_passes_filters(narrow, recs[i - 1]));
                assert(spec_passes_filters(wide, recs[i - 1]));
                assert(cw.last() == x);
                assert(cw.contains(x)) by {
                    assert(cw[cw.len() - 1] == x);
                }
            }
        }
    }
}

proof fn lemma_multiset_map<A, B>(s1: Seq<A>, s2: Seq<A>, f: spec_fn(A) -> B)
    requires
        s1.to_multiset() == s2.to_multiset(),
    ensures
        s1.map_values(f).to_multiset() == s2.map_values(f).to_multiset(),
    decreases s1.len(),
{
    if s1.len() == 0 {
        assert(s2.to_multiset().len() == 0);
        assert(s1.map_values(f) =~= Seq::<B>::empty());
        assert(s2.map_values(f) =~= Seq::<B>::empty());
    } else {
        let x = s1[0];
        assert(s1.to_multiset().count(x) > 0) by {
            assert(s1.contains(x));
        }
        assert(s2.to_multiset().count(x) > 0);
        assert(s2.contains(x));
        let j = choose|j: int| 0 <= j < s2.len() && s2[j] == x;
        let t1 = s1.drop_first();
        let t2 = s2.remove(j);
        assert(t1.to_multiset() =~= s1.to_multiset().remove(x)) by {
            assert(s1.remove(0) =~= t1);
            assert(s1.remove(0).to_multiset() =~= s1.to_multiset().remove(x));
        }
        assert(t2.to_multiset() =~= s2.to_multiset().remove(x));
        lemma_multiset_map(t1, t2, f);
        let m1 = s1.map_values(f);
        let m2 = s2.map_values(f);
        assert(m1.remove(0) =~= t1.map_values(f));
        assert(m2.remove(j) =~= t2.map_values(f));
        assert(m1.remove(0).to_multiset() =~= m1.to_multiset().remove(f(x))) by {
            assert(m1[0] == f(x));
        }
        assert(m2.remove(j).to_multiset() =~= m2.to_multiset().remove(f(x))) by {
            assert(m2[j] == f(x));
        }
        assert(m1.to_multiset().count(f(x)) > 0) by {
            assert(m1.contains(m1[0]));
        }
        assert(m2.to_multiset().count(f(x)) > 0) by {
            assert(m2.contains(m2[j]));
        }
        assert(m1.to_multiset() =~= m1.to_multiset().remove(f(x)).insert(f(x)));
        assert(m2.to_multiset() =~= m2.to_multiset().remove(f(x)).insert(f(x)));
    }
}

/// No two scored pairs carry the same document id.
pub open spec fn pair_ids_distinct(s: Seq<(u64, Record)>) -> bool {
    forall|i: int, j: int|
        0 <= i < j < s.len() ==> (#[trigger] s[i]).1.doc_id != (#[trigger] s[j]).1.doc_id
}

/// Sorting permutes the pairs, and distinct document ids survive any
/// permutation.
pub(crate) proof fn lemma_pair_ids_distinct_transfer(a: Seq<(u64, Record)>, b: Seq<(u64, Record)>)
    requires
        a.to_multiset() == b.to_multiset(),
        pair_ids_distinct(a),
    ensures
        pair_ids_distinct(b),
    decreases b.len(),
{
    if b.len() > 0 {
        assert(b.to_multiset().count(b[0]) > 0) by {
            assert(b.contains(b[0]));
        }
        assert(a.to_multiset().count(b[0]) > 0);
        assert(a.contains(b[0]));
        let ia = choose|ia: int| 0 <= ia < a.len() && a[ia] == b[0];
        let a2 = a.remove(ia);
        let b2 = b.drop_first();
        assert(a2.to_multiset() =~= a.to_multiset().remove(b[0]));
        assert(b2.to_multiset() =~= b.to_multiset().remove(b[0])) by {
            assert(b.remove(0) =~= b2);
            assert(b.remove(0).to_multiset() =~= b.to_multiset().remove(b[0]));
        }
        assert(pair_ids_distinct(a2)) by {
            assert forall|i: int, j: int|
                0 <= i < j < a2.len() implies (#[trigger] a2[i]).1.doc_id != (
            #[trigger] a2[j]).1.doc_id by {
                let pi = if i < ia {
                    i
                } else {
                    i + 1
                };
                let pj = if j < ia {
                    j
                } else {
                    j + 1
                };
                assert(a2[i] == a[pi] && a2[j] == a[pj]);
            }
        }
        lemma_pair_ids_distinct_transfer(a2, b2);
        assert forall|t: int| 0 <= t < b2.len() implies (#[trigger] b2[t]).1.doc_id
            != b[0].1.doc_id by {
            assert(b2.to_multiset().count(b2[t]) > 0) by {
                assert(b2.contains(b2[t]));
            }
            assert(a2.to_multiset().count(b2[t]) > 0);
            assert(a2.contains(b2[t]));
            let c = choose|c: int| 0 <= c < a2.len() && a2[c] == b2[t];
            let pc = if c < ia {
                c
            } else {
                c + 1
            };
            assert(a2[c] == a[pc]);
            if b2[t].1.doc_id == b[0].1.doc_id {
                assert(a[pc].1.doc_id == a[ia].1.doc_id);
                assert(pc != ia);
                assert(false);
            }
        }
        assert forall|i: int, j: int|
            0 <= i < j < b.len() implies (#[trigger] b[i]).1.doc_id != (
        #[trigger] b[j]).1.doc_id by {
            if i > 0 {
                assert(b[i] == b2[i - 1] && b[j] == b2[j - 1]);
            } else {
                assert(b[j] == b2[j - 1]);
            }
        }
    }
}

/// The hybrid index's text half. Staged records become visible to readers
/// only at commit; document ids are assigned strictly increasing and are
/// never reused.
pub struct SearchIndex {
    committed: Vec<Record>,
    staged: Vec<Record>,
    next_doc_id: u64,
}

impl SearchIndex {
    /// The committed records, in insertion order.
    pub closed spec fn committed_recs(self) -> Seq<Record> {
        self.committed@
    }

    /// The staged records awaiting a commit, in insertion order.
    pub closed spec fn staged_recs(self) -> Seq<Record> {
        self.staged@
    }

    /// The next document id to be handed out.
    pub closed spec fn next_id(self) -> u64 {
        self.next_doc_id
    }

    /// Committed and staged records together, in insertion order.
    pub open spec fn all_recs(self) -> Seq<Record> {
        self.committed_recs() + self.staged_recs()
    }

    /// Document ids strictly increase in insertion order and stay below
    /// the next id to be assigned.
    pub open spec fn wf(self) -> bool {
        &&& ids_increasing(self.all_recs())
        &&& forall|i: int|
            0 <= i < self.all_recs().len() ==> (#[trigger] self.all_recs()[i]).doc_id
                < self.next_id()
    }

    /// An empty index that will assign ids from zero.
    pub fn new() -> (r: SearchIndex)
        ensures
            r.wf(),
            r.committed_recs() == Seq::<Record>::empty(),
            r.staged_recs() == Seq::<Record>::empty(),
            r.next_id() == 0,
    {
        let r = SearchIndex { committed: Vec::new(), staged: Vec::new(), next_doc_id: 0 };
        proof {
            assert(r.all_recs() =~= Seq::<Record>::empty());
        }
        r
    }

    /// Rebuilds an index from a previously committed run of records, as
    /// read back from storage; ids must already be strictly increasing.
    pub fn from_committed(records: Vec<Record>, next_doc_id: u64) -> (r: SearchIndex)
        requires
            ids_increasing(records@),
            forall|i: int| 0 <= i < records@.len() ==> (#[trigger] records@[i]).doc_id < next_doc_id,
        ensures
            r.wf(),
            r.committed_recs() == records@,
            r.staged_recs() == Seq::<Record>::empty(),
            r.next_id() == next_doc_id,
    {
        let r = SearchIndex { committed: records, staged: Vec::new(), next_doc_id };
        proof {
            assert(r.all_recs() =~= r.committed_recs());
        }
        r
    }

    /// Stages a record and returns its newly assigned document id.
    ///
    /// Ids are handed out strictly increasing: the returned id is the
    /// current `next_id`, every earlier record's id lies below it, and
    /// the next call returns a larger one.
    pub fn add(&mut self, input: RecordInput) -> (id: u64)
        requires
            old(self).wf(),
            old(self).next_id() < u64::MAX,
        ensures
            final(self).wf(),
            id == old(self).next_id(),
            final(self).next_id() == id + 1,
            final(self).committed_recs() == old(self).committed_recs(),
            final(self).staged_recs() == old(self).staged_recs().push(input.spec_with_doc_id(id)),
            forall|i: int|
                0 <= i < old(self).all_recs().len() ==> (#[trigger] old(self).all_recs()[i]).doc_id
                    < id,
    {
        let id = self.next_doc_id;
        let rec = input.with_doc_id(id);
        self.staged.push(rec);
        self.next_doc_id = id + 1;
        proof {
            assert(self.all_recs() =~= old(self).all_recs().push(rec));
        }
        id
    }

    /// Makes every staged record visible to readers, in staging order,
    /// after all previously committed ones.
    pub fn commit(&mut self)
        requires
            old(self).wf(),
        ensures
            final(self).wf(),
            final(self).committed_recs() == old(self).committed_recs() + old(self).staged_recs(),
            final(self).staged_recs() == Seq::<Record>::empty(),
            final(self).next_id() == old(self).next_id(),
    {
        self.committed.append(&mut self.staged);
        proof {
            assert(self.all_recs() =~= old(self).all_recs());
        }
    }

    /// The number of committed records.
    pub fn doc_count(&self) -> (r: usize)
        ensures
            r == self.committed_recs().len(),
    {
        self.committed.len()
    }

    /// The next document id that `add` would hand out.
    pub fn next_doc_id(&self) -> (r: u64)
        ensures
            r == self.next_id(),
    {
        self.next_doc_id
    }

    /// Whether some record, committed or staged, answers to the dedup
    /// fingerprint `fp`.
    pub fn contains_fingerprint(&self, fp: u64) -> (r: bool)
        ensures
            r == exists|i: int|
                0 <= i < self.all_recs().len() && record_fingerprint(
                    #[trigger] self.all_recs()[i],
                ) == fp,
    {
        let mut i: usize = 0;
        while i < self.committed.len()
            invariant
                i <= self.committed_recs().len(),
                forall|k: int|
                    0 <= k < i ==> record_fingerprint(#[trigger] self.committed_recs()[k]) != fp,
            decreases self.committed_recs().len() - i,
        {
            if fingerprint_of_record(&self.committed[i]) == fp {
                proof {
                    assert(self.all_recs()[i as int] == self.committed_recs()[i as int]);
                }
                return true;
            }
            i = i + 1;
        }
        let mut j: usize = 0;
        while j < self.staged.len()
            invariant
                j <= self.staged_recs().len(),
                forall|k: int|
                    0 <= k < self.committed_recs().len() ==> record_fingerprint(
                        #[trigger] self.committed_recs()[k],
                    ) != fp,
                forall|k: int|
                    0 <= k < j ==> record_fingerprint(#[trigger] self.staged_recs()[k]) != fp,
            decreases self.staged_recs().len() - j,
        {
            if fingerprint_of_record(&self.staged[j]) == fp {
                proof {
                    assert(self.all_recs()[self.committed_recs().len() + j]
                        == self.staged_recs()[j as int]);
                }
                return true;
            }
            j = j + 1;
        }
        proof {
            assert forall|i: int|
                0 <= i < self.all_recs().len() implies record_fingerprint(
                #[trigger] self.all_recs()[i],
            ) != fp by {
                if i < self.committed_recs().len() {
                    assert(self.all_recs()[i] == self.committed_recs()[i]);
                } else {
                    assert(self.all_recs()[i]
                        == self.staged_recs()[i - self.committed_recs().len()]);
                }
            }
        }
        false
    }

    /// The committed records of session `id`, in insertion order.
    pub fn records_by_session_id(&self, id: &str) -> (r: Vec<Record>)
        ensures
            r@ == session_records(self.committed_recs(), id@, self.committed_recs().len() as int),
    {
        let owned = id.to_owned();
        let mut out: Vec<Record> = Vec::new();
        let mut i: usize = 0;
        while i < self.committed.len()
            invariant
                owned@ == id@,
                i <= self.committed_recs().len(),
                out@ == session_records(self.committed_recs(), id@, i as int),
            decreases self.committed_recs().len() - i,
        {
            if self.committed[i].session_id == owned {
                out.push(self.committed[i].clone());
            }
            i = i + 1;
        }
        out
    }

    /// The committed record carrying document id `id`, if any.
    pub fn record_by_doc_id(&self, id: u64) -> (r: Option<Record>)
        ensures
            r matches Some(rec) ==> self.committed_recs().contains(rec) && rec.doc_id == id,
            r is None ==> !exists|i: int|
                0 <= i < self.committed_recs().len() && (#[trigger] self.committed_recs()[i]).doc_id
                    == id,
    {
        let mut i: usize = 0;
        while i < self.committed.len()
            invariant
                i <= self.committed_recs().len(),
                forall|k: int|
                    0 <= k < i ==> (#[trigger] self.committed_recs()[k]).doc_id != id,
            decreases self.committed_recs().len() - i,
        {
            if self.committed[i].doc_id == id {
                let found = self.committed[i].clone();
                proof {
                    assert(self.committed_recs()[i as int] == found);
                    assert(self.committed_recs().contains(found));
                }
                return Some(found);
            }
            i = i + 1;
        }
        None
    }

    /// Up to `n` committed records, most recent first.
    ///
    /// The returned timestamps are monotonically non-increasing, every
    /// returned record is committed, no committed record that was left
    /// out is more recent than a returned one, and asking for everything
    /// returns a permutation of the committed records.
    pub fn recent_records(&self, n: usize) -> (r: Vec<Record>)
        ensures
            spec_recent_post(self.committed_recs(), n as int, r@),
            self.wf() ==> forall|i: int, j: int|
                0 <= i < j < r@.len() ==> (#[trigger] r@[i]).doc_id != (#[trigger] r@[j]).doc_id,
    {
        let mut pairs: Vec<(u64, Record)> = Vec::new();
        let mut i: usize = 0;
        while i < self.committed.len()
            invariant
                i <= self.committed_recs().len(),
                pairs@ == self.committed_recs().take(i as int).map_values(
                    |rec: Record| (0u64, rec),
                ),
            decreases self.committed_recs().len() - i,
        {
            pairs.push((0u64, self.committed[i].clone()));
            i = i + 1;
            proof {
                assert(pairs@ =~= self.committed_recs().take(i as int).map_values(
                    |rec: Record| (0u64, rec),
                ));
            }
        }
        proof {
            assert(self.committed_recs().take(i as int) =~= self.committed_recs());
        }
        let ghost cand = pairs@;
        let sorted = sort_ranked(pairs);
        let mut out: Vec<Record> = Vec::new();
        let mut k: usize = 0;
        let limit = if n < sorted.len() {
            n
        } else {
            sorted.len()
        };
        while k < limit
            invariant
                limit <= sorted@.len(),
                k <= limit,
                out@ == sorted@.take(k as int).map_values(|p: (u64, Record)| p.1),
            decreases limit - k,
        {
            out.push(sorted[k].1.clone());
            k = k + 1;
            proof {
                assert(out@ =~= sorted@.take(k as int).map_values(|p: (u64, Record)| p.1));
            }
        }
        proof {
            let comm = self.committed_recs();
            assert(cand.len() == comm.len());
            assert(sorted@.to_multiset() == cand.to_multiset());
            assert forall|a: int| 0 <= a < sorted@.len() implies (#[trigger] sorted@[a]).0
                == 0u64 by {
                assert(sorted@.contains(sorted@[a]));
                assert(sorted@.to_multiset().count(sorted@[a]) > 0);
                assert(cand.to_multiset().count(sorted@[a]) > 0);
                assert(cand.contains(sorted@[a]));
                let v = choose|v: int| 0 <= v < cand.len() && cand[v] == sorted@[a];
                assert(cand[v] == (0u64, comm[v]));
            }
            assert forall|a: int, b: int| 0 <= a < b < out@.len() implies out@[a].ts
                >= out@[b].ts by {
                assert(out@[a] == sorted@[a].1 && out@[b] == sorted@[b].1);
                assert(rank_ge(sorted@[a], sorted@[b]));
                assert(sorted@[a].0 == 0u64 && sorted@[b].0 == 0u64);
            }
            assert forall|a: int| 0 <= a < out@.len() implies comm.contains(#[trigger] out@[a]) by {
                assert(out@[a] == sorted@[a].1);
                assert(sorted@.contains(sorted@[a]));
                assert(sorted@.to_multiset().count(sorted@[a]) > 0);
                assert(cand.to_multiset().count(sorted@[a]) > 0);
                assert(cand.contains(sorted@[a]));
                let w = choose|w: int| 0 <= w < cand.len() && cand[w] == sorted@[a];
                assert(cand[w] == (0u64, comm[w]));
                assert(comm.contains(comm[w]));
            }
            assert forall|x: Record, a: int|
                #![trigger out@[a], comm.contains(x)]
                comm.contains(x) && !out@.contains(x) && 0 <= a < out@.len() implies rank_ge(
                (0u64, out@[a]),
                (0u64, x),
            ) by {
                let w = choose|w: int| 0 <= w < comm.len() && comm[w] == x;
                assert(cand[w] == (0u64, x));
                assert(cand.contains(cand[w]));
                assert(cand.to_multiset().count((0u64, x)) > 0);
                assert(sorted@.to_multiset().count((0u64, x)) > 0);
                assert(sorted@.contains((0u64, x)));
                let s = choose|s: int| 0 <= s < sorted@.len() && sorted@[s] == (0u64, x);
                if s < limit {
                    assert(out@[s] == sorted@[s].1);
                    assert(out@.contains(out@[s]));
                    assert(false);
                } else {
                    assert(rank_ge(sorted@[a], sorted@[s]));
                    assert(out@[a] == sorted@[a].1);
                    assert(sorted@[a].0 == 0u64 && sorted@[s].0 == 0u64) by {
                        assert(sorted@.contains(sorted@[a]));
                        assert(sorted@.to_multiset().count(sorted@[a]) > 0);
                        assert(cand.to_multiset().count(sorted@[a]) > 0);
                        assert(cand.contains(sorted@[a]));
                        let v = choose|v: int| 0 <= v < cand.len() && cand[v] == sorted@[a];
                        assert(cand[v] == (0u64, comm[v]));
                    }
                    assert(rank_ge((0u64, out@[a]), (0u64, x)));
                }
            }
            if n >= comm.len() {
                assert(limit == sorted@.len());
                assert(out@ =~= sorted@.map_values(|p: (u64, Record)| p.1)) by {
                    assert(sorted@.take(limit as int) =~= sorted@);
                }
                lemma_multiset_map(sorted@, cand, |p: (u64, Record)| p.1);
                assert(cand.map_values(|p: (u64, Record)| p.1) =~= comm);
            }
            if self.wf() {
                assert(pair_ids_distinct(cand)) by {
                    assert forall|i: int, j: int|
                        0 <= i < j < cand.len() implies (#[trigger] cand[i]).1.doc_id != (
                    #[trigger] cand[j]).1.doc_id by {
                        assert(cand[i] == (0u64, comm[i]) && cand[j] == (0u64, comm[j]));
                        assert(self.all_recs()[i] == comm[i]);
                        assert(self.all_recs()[j] == comm[j]);
                    }
                }
                lemma_pair_ids_distinct_transfer(cand, sorted@);
                assert forall|i: int, j: int|
                    0 <= i < j < out@.len() implies (#[trigger] out@[i]).doc_id != (
                #[trigger] out@[j]).doc_id by {
                    assert(out@[i] == sorted@[i].1 && out@[j] == sorted@[j].1);
                }
            }
        }
        out
    }

    /// Scored search over the committed records.
    ///
    /// Every result passes the filters of `opts` and matched at least one
    /// query term; results come back best-first under [`rank_ge`], at most
    /// `opts.limit` of them, and only records ranking at least as high as
    /// every returned one are left out. A query without usable terms
    /// matches nothing.
    pub fn search(&self, opts: &QueryOptions) -> (r: Vec<(u64, Record)>)
        ensures
            spec_search_post(self.committed_recs(), *opts, r@),
            self.wf() ==> pair_ids_distinct(r@),
    {
        let terms = query_terms(opts.query.as_str());
        let mut cand: Vec<(u64, Record)> = Vec::new();
        let mut i: usize = 0;
        while i < self.committed.len()
            invariant
                views_of(terms@) == spec_query_terms(opts.query@),
                i <= self.committed_recs().len(),
                cand@ == scored_matches(self.committed_recs(), *opts, i as int),
            decreases self.committed_recs().len() - i,
        {
            let rec = &self.committed[i];
            let passes = passes_filters(opts, rec);
            let score = score_of(&terms, rec.text.as_str());
            if passes && score > 0 {
                cand.push((score, rec.clone()));
            }
            i = i + 1;
        }
        let ghost candidates = cand@;
        let sorted = sort_ranked(cand);
        let ghost whole = sorted@;
        let mut out = sorted;
        out.truncate(opts.limit);
        proof {
            let full = scored_matches(
                self.committed_recs(),
                *opts,
                self.committed_recs().len() as int,
            );
            assert(candidates == full);
            if opts.limit <= whole.len() {
                assert(out@ == whole.subrange(0, opts.limit as int));
            } else {
                assert(out@ == whole);
                assert(out@ =~= whole.subrange(0, whole.len() as int));
            }
            assert forall|i: int, j: int|
                0 <= i < j < out@.len() implies rank_ge(out@[i], out@[j]) by {
                assert(out@[i] == whole[i] && out@[j] == whole[j]);
            }
            assert forall|a: int| 0 <= a < out@.len() implies full.contains(#[trigger] out@[a]) by {
                assert(out@[a] == whole[a]);
                assert(whole.contains(whole[a]));
                assert(whole.to_multiset().count(whole[a]) > 0);
                assert(candidates.to_multiset().count(whole[a]) > 0);
                assert(candidates.contains(whole[a]));
            }
            assert forall|x: (u64, Record), a: int|
                #![trigger out@[a], full.contains(x)]
                full.contains(x) && !out@.contains(x) && 0 <= a < out@.len() implies rank_ge(
                out@[a],
                x,
            ) by {
                assert(candidates.to_multiset().count(x) > 0);
                assert(whole.to_multiset().count(x) > 0);
                assert(whole.contains(x));
                let s = choose|s: int| 0 <= s < whole.len() && whole[s] == x;
                if s < out@.len() {
                    assert(out@[s] == whole[s]);
                    assert(out@.contains(out@[s]));
                    assert(false);
                } else {
                    assert(rank_ge(whole[a], whole[s]));
                    assert(out@[a] == whole[a]);
                }
            }
            if self.wf() {
                assert(ids_increasing(self.committed_recs())) by {
                    assert forall|i: int, j: int|
                        0 <= i < j < self.committed_recs().len() implies (
                    #[trigger] self.committed_recs()[i]).doc_id < (
                    #[trigger] self.committed_recs()[j]).doc_id by {
                        assert(self.all_recs()[i] == self.committed_recs()[i]);
                        assert(self.all_recs()[j] == self.committed_recs()[j]);
                    }
                }
                lemma_scored_matches_doc_ordered(
                    self.committed_recs(),
                    *opts,
                    self.committed_recs().len() as int,
                );
                lemma_pair_ids_distinct_transfer(candidates, whole);
                assert forall|i: int, j: int|
                    0 <= i < j < out@.len() implies (#[trigger] out@[i]).1.doc_id != (
                #[trigger] out@[j]).1.doc_id by {
                    assert(out@[i] == whole[i] && out@[j] == whole[j]);
                }
            }
        }
        out
    }
}

} // verus!
