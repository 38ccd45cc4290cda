//! Hybrid scoring: fusing lexical scores with cosine similarities.
//!
//! The cosine similarities arrive as scaled integers computed outside the
//! library, one per document; the fusion, normalization, ranking and
//! truncation are verified here.

use vstd::prelude::*;
use vstd::arithmetic::div_mod::{lemma_div_by_multiple, lemma_div_is_ordered};
use vstd::arithmetic::mul::lemma_mul_inequality;
use crate::index::{pair_ids_distinct, rank_ge, sort_ranked, sorted_desc};
use crate::types::Record;

verus! {

broadcast use vstd::seq_lib::group_to_multiset_ensures;

/// Scores are expressed in parts of this scale.
pub const SCORE_SCALE: u64 = 1000000;

/// The similarity recorded for `doc` at or after position `j`: the first
/// entry with that document id, or zero when none names it.
pub open spec fn sim_from(sims: Seq<(u64, u64)>, doc: u64, j: int) -> u64
    decreases sims.len() - j,
{
    if j < 0 || j >= sims.len() {
        0
    } else if sims[j].0 == doc {
        sims[j].1
    } else {
        sim_from(sims, doc, j + 1)
    }
}

/// The similarity a document fused with: its first entry, or zero.
pub open spec fn spec_sim_of(sims: Seq<(u64, u64)>, doc: u64) -> u64 {
    sim_from(sims, doc, 0)
}

fn sim_of(sims: &Vec<(u64, u64)>, doc: u64) -> (r: u64)
    ensures
        r == spec_sim_of(sims@, doc),
{
    let mut j: usize = 0;
    loop
        invariant
            j <= sims@.len(),
            spec_sim_of(sims@, doc) == sim_from(sims@, doc, j as int),
        decreases sims@.len() - j,
    {
        if j == sims.len() {
            return 0;
        }
        if sims[j].0 == doc {
            return sims[j].1;
        }
        j = j + 1;
    }
}

/// The smallest lexical score among the first `i` candidates.
pub open spec fn min_score(lex: Seq<(u64, Record)>, i: int) -> u64
    decreases i,
{
    if i <= 1 {
        if i == 1 && lex.len() > 0 {
            lex[0].0
        } else {
            0
        }
    } else {
        let p = min_score(lex, i - 1);
        if lex[i - 1].0 < p {
            lex[i - 1].0
        } else {
            p
        }
    }
}

/// The largest lexical score among the first `i` candidates.
pub open spec fn max_score(lex: Seq<(u64, Record)>, i: int) -> u64
    decreases i,
{
    if i <= 1 {
        if i == 1 && lex.len() > 0 {
            lex[0].0
        } else {
            0
        }
    } else {
        let p = max_score(lex, i - 1);
        if lex[i - 1].0 > p {
            lex[i - 1].0
        } else {
            p
        }
    }
}

proof fn lemma_sim_bounded(sims: Seq<(u64, u64)>, doc: u64, j: int)
    requires
        forall|i: int| 0 <= i < sims.len() ==> (#[trigger] sims[i]).1 <= SCORE_SCALE,
        0 <= j,
    ensures
        sim_from(sims, doc, j) <= SCORE_SCALE,
    decreases sims.len() - j,
{
    if j < sims.len() && sims[j].0 != doc {
        lemma_sim_bounded(sims, doc, j + 1);
    }
}

proof fn lemma_minmax_bounds(lex: Seq<(u64, Record)>, i: int)
    requires
        1 <= i <= lex.len(),
    ensures
        forall|k: int|
            0 <= k < i ==> min_score(lex, i) <= (#[trigger] lex[k]).0 <= max_score(lex, i),
    decreases i,
{
    if i > 1 {
        lemma_minmax_bounds(lex, i - 1);
    }
}

/// A lexical score min-max normalized over the candidate set; a set
/// without spread normalizes to the full scale.
pub open spec fn spec_norm(s: u64, lo: u64, hi: u64) -> int {
    if hi == lo {
        SCORE_SCALE as int
    } else {
        (s - lo) * SCORE_SCALE / (hi - lo)
    }
}

/// The fused score: the mean of the normalized lexical score and the
/// cosine similarity, both in parts of [`SCORE_SCALE`].
pub open spec fn spec_fused(s: u64, lo: u64, hi: u64, sim: u64) -> int {
    (spec_norm(s, lo, hi) + sim) / 2
}

/// Fuses the lexical candidates with the cosine similarities and ranks
/// them: each candidate's score becomes the mean of its min-max
/// normalized lexical score and its similarity, the candidates come back
/// best-first, and at most `limit` of them.
pub fn hybrid_rank(lexical: Vec<(u64, Record)>, sims: &Vec<(u64, u64)>, limit: usize) -> (r: Vec<
    (u64, Record),
>)
    requires
        forall|i: int| 0 <= i < sims@.len() ==> (#[trigger] sims@[i]).1 <= SCORE_SCALE,
    ensures
        sorted_desc(r@),
        r@.len() == vstd::math::min(limit as int, lexical@.len() as int),
        forall|a: int|
            0 <= a < r@.len() ==> exists|k: int|
                0 <= k < lexical@.len() && (#[trigger] r@[a]).1 == lexical@[k].1 && r@[a].0
                    == spec_fused(
                    lexical@[k].0,
                    min_score(lexical@, lexical@.len() as int),
                    max_score(lexical@, lexical@.len() as int),
                    spec_sim_of(sims@, lexical@[k].1.doc_id),
                ),
        pair_ids_distinct(lexical@) ==> pair_ids_distinct(r@),
{
    let n = lexical.len();
    if n == 0 {
        let empty: Vec<(u64, Record)> = Vec::new();
        return empty;
    }
    let mut lo: u64 = lexical[0].0;
    let mut hi: u64 = lexical[0].0;
    let mut i: usize = 1;
    while i < n
        invariant
            n == lexical@.len(),
            1 <= i <= n,
            lo == min_score(lexical@, i as int),
            hi == max_score(lexical@, i as int),
        decreases n - i,
    {
        if lexical[i].0 < lo {
            lo = lexical[i].0;
        }
        if lexical[i].0 > hi {
            hi = lexical[i].0;
        }
        i = i + 1;
    }
    proof {
        lemma_minmax_bounds(lexical@, n as int);
    }
    let mut fused: Vec<(u64, Record)> = Vec::new();
    let mut src = lexical;
    let ghost orig = src@;
    let mut t: usize = 0;
    while t < n
        invariant
            n == orig.len(),
            t <= n,
            src@ == orig.skip(t as int),
            lo == min_score(orig, n as int),
            hi == max_score(orig, n as int),
            forall|k: int| 0 <= k < n ==> lo <= (#[trigger] orig[k]).0 <= hi,
            forall|i2: int| 0 <= i2 < sims@.len() ==> (#[trigger] sims@[i2]).1 <= SCORE_SCALE,
            fused@.len() == t,
            forall|a: int| 0 <= a < fused@.len() ==> (#[trigger] fused@[a]).1 == orig[a].1,
            forall|a: int|
                0 <= a < fused@.len() ==> exists|k: int|
                    0 <= k < orig.len() && (#[trigger] fused@[a]).1 == orig[k].1 && fused@[a].0
                        == spec_fused(orig[k].0, lo, hi, spec_sim_of(sims@, orig[k].1.doc_id)),
        decreases n - t,
    {
        let pair = src.remove(0);
        proof {
            assert(pair == orig[t as int]);
            assert(src@ =~= orig.skip(t + 1));
        }
        let s = pair.0;
        let rec = pair.1;
        let sim = sim_of(sims, rec.doc_id);
        let norm: u64;
        if hi == lo {
            norm = SCORE_SCALE;
        } else {
            let numer: u128 = (s - lo) as u128 * SCORE_SCALE as u128;
            let denom: u128 = (hi - lo) as u128;
            let q: u128 = numer / denom;
            proof {
                lemma_mul_inequality(
                    (s - lo) as int,
                    (hi - lo) as int,
                    SCORE_SCALE as int,
                );
                lemma_div_is_ordered(
                    (s - lo) as int * SCORE_SCALE as int,
                    (hi - lo) as int * SCORE_SCALE as int,
                    (hi - lo) as int,
                );
                lemma_div_by_multiple(SCORE_SCALE as int, (hi - lo) as int);
                assert(q <= SCORE_SCALE as u128);
            }
            norm = q as u64;
        }
        proof {
            lemma_sim_bounded(sims@, rec.doc_id, 0);
        }
        let fused_score: u64 = (norm + sim) / 2;
        let ghost k = t as int;
        fused.push((fused_score, rec));
        proof {
            assert(fused@.last() == (fused_score, orig[k].1));
            assert(fused_score as int == spec_fused(
                orig[k].0,
                lo,
                hi,
                spec_sim_of(sims@, orig[k].1.doc_id),
            ));
        }
        t = t + 1;
    }
    let ghost cand = fused@;
    let sorted = sort_ranked(fused);
    let ghost whole = sorted@;
    let mut out = sorted;
    out.truncate(limit);
    proof {
        if limit <= whole.len() {
            assert(out@ == whole.subrange(0, limit as int));
        } else {
            assert(out@ == whole);
            assert(out@ =~= whole.subrange(0, whole.len() as int));
        }
        assert forall|a: int, b: int| 0 <= a < b < out@.len() implies rank_ge(
            out@[a],
            out@[b],
        ) by {
            assert(out@[a] == whole[a] && out@[b] == whole[b]);
        }
        if pair_ids_distinct(orig) {
            assert(pair_ids_distinct(cand)) by {
                assert forall|i: int, j: int|
                    0 <= i < j < cand.len() implies (#[trigger] cand[i]).1.doc_id != (
                #[trigger] cand[j]).1.doc_id by {
                    assert(cand[i].1 == orig[i].1 && cand[j].1 == orig[j].1);
                }
            }
            crate::index::lemma_pair_ids_distinct_transfer(cand, whole);
            assert forall|i: int, j: int|
                0 <= i < j < out@.len() implies (#[trigger] out@[i]).1.doc_id != (
            #[trigger] out@[j]).1.doc_id by {
                assert(out@[i] == whole[i] && out@[j] == whole[j]);
            }
        }
        assert forall|a: int|
            0 <= a < out@.len() implies exists|k: int|
                0 <= k < orig.len() && (#[trigger] out@[a]).1 == orig[k].1 && out@[a].0
                    == spec_fused(orig[k].0, lo, hi, spec_sim_of(sims@, orig[k].1.doc_id)) by {
            assert(out@[a] == whole[a]);
            assert(whole.contains(whole[a]));
            assert(whole.to_multiset().count(whole[a]) > 0);
            assert(cand.to_multiset().count(whole[a]) > 0);
            assert(cand.contains(whole[a]));
            let c = choose|c: int| 0 <= c < cand.len() && cand[c] == whole[a];
            let k = choose|k: int|
                0 <= k < orig.len() && (cand[c]).1 == orig[k].1 && cand[c].0 == spec_fused(
                    orig[k].0,
                    lo,
                    hi,
                    spec_sim_of(sims@, orig[k].1.doc_id),
                );
            assert(0 <= k < orig.len() && out@[a].1 == orig[k].1 && out@[a].0 == spec_fused(
                orig[k].0,
                lo,
                hi,
                spec_sim_of(sims@, orig[k].1.doc_id),
            ));
        }
    }
    out
}

/// The candidate set after joining the vector neighbours: the lexical
/// candidates first, then each neighbour whose document id none of the
/// candidates so far carries, with a zero lexical score.
pub open spec fn merge_fold(lex: Seq<(u64, Record)>, extra: Seq<Record>, i: int) -> Seq<
    (u64, Record),
>
    decreases i,
{
    if i <= 0 {
        lex
    } else {
        let prev = merge_fold(lex, extra, i - 1);
        if exists|j: int|
            0 <= j < prev.len() && (#[trigger] prev[j]).1.doc_id == extra[i - 1].doc_id {
            prev
        } else {
            prev.push((0u64, extra[i - 1]))
        }
    }
}

fn holds_doc_id(cand: &Vec<(u64, Record)>, id: u64) -> (r: bool)
    ensures
        r == exists|j: int| 0 <= j < cand@.len() && (#[trigger] cand@[j]).1.doc_id == id,
{
    let mut j: usize = 0;
    while j < cand.len()
        invariant
            j <= cand@.len(),
            forall|k: int| 0 <= k < j ==> (#[trigger] cand@[k]).1.doc_id != id,
        decreases cand@.len() - j,
    {
        if cand[j].1.doc_id == id {
            return true;
        }
        j = j + 1;
    }
    false
}

/// Joins the lexical candidates with the records the vector search found
/// beyond them: the union by document id, as the fold above states.
pub fn merge_candidates(lexical: Vec<(u64, Record)>, extra: Vec<Record>) -> (r: Vec<
    (u64, Record),
>)
    ensures
        r@ == merge_fold(lexical@, extra@, extra@.len() as int),
{
    let ghost lex = lexical@;
    let ghost orig_extra = extra@;
    let n = extra.len();
    let mut out = lexical;
    let mut remaining = extra;
    let mut i: usize = 0;
    while i < n
        invariant
            n == orig_extra.len(),
            orig_extra == extra@,
            i <= n,
            remaining@ == orig_extra.skip(i as int),
            out@ == merge_fold(lex, orig_extra, i as int),
        decreases n - i,
    {
        let e = remaining.remove(0);
        proof {
            assert(e == orig_extra[i as int]);
            assert(remaining@ =~= orig_extra.skip(i + 1));
        }
        if !holds_doc_id(&out, e.doc_id) {
            out.push((0u64, e));
        }
        i = i + 1;
    }
    out
}

} // verus!
