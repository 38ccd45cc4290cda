//! The ingestion pass: dedup by fingerprint, staging in insertion order,
//! the freshness gate that skips redundant scans, embedding batch
//! planning, and the coupling invariant between the two stores.
//!
//! Reading transcript files and running the embedder happen outside the
//! library; they hand parsed records and vector rows in, and every
//! decision taken on them is verified here.

use vstd::prelude::*;
use crate::index::{record_fingerprint, spec_fingerprint, fingerprint_of, SearchIndex};
use crate::model::ModelChoice;
use crate::types::{Record, RecordInput};
use crate::vector::{VectorStore, VectorStoreError};

verus! {

/// What an ingestion pass was asked to do.
#[derive(Debug)]
pub struct IngestOptions {
    /// Root directory of Chat transcripts.
    pub chat_source: String,
    /// Also walk agent transcripts under the Chat root.
    pub include_agents: bool,
    /// Also walk Codex transcripts.
    pub include_codex: bool,
    /// Maintain the vector store during this pass.
    pub embeddings: bool,
    /// Embed already-indexed records into an empty vector store.
    pub backfill_embeddings: bool,
    /// The embedding model for this pass.
    pub model: ModelChoice,
}

/// What an ingestion pass did.
#[derive(Clone, Copy, Debug, PartialEq, Eq, Structural)]
pub struct IngestReport {
    pub records_added: usize,
    pub records_embedded: usize,
}

/// Whether a scan whose last completion is `last_scan_ms` must run again
/// at `now_ms`: never scanned, or the TTL has passed. The threshold
/// saturates at the largest timestamp.
pub open spec fn spec_scan_is_stale(last_scan_ms: Option<u64>, now_ms: u64, ttl_secs: u64) -> bool {
    match last_scan_ms {
        None => true,
        Some(t) => {
            let threshold = if t + ttl_secs * 1000 > u64::MAX {
                u64::MAX as int
            } else {
                t + ttl_secs * 1000
            };
            now_ms >= threshold
        },
    }
}

/// The freshness gate: a pass runs only when the last scan is absent or
/// older than the TTL.
pub fn scan_is_stale(last_scan_ms: Option<u64>, now_ms: u64, ttl_secs: u64) -> (r: bool)
    ensures
        r == spec_scan_is_stale(last_scan_ms, now_ms, ttl_secs),
{
    match last_scan_ms {
        None => true,
        Some(t) => {
            let wide: u128 = (t as u128) + (ttl_secs as u128) * 1000;
            let threshold: u64 = if wide > u64::MAX as u128 {
                u64::MAX
            } else {
                wide as u64
            };
            now_ms >= threshold
        },
    }
}

/// Freshness idempotence: once a pass has completed at `t0` and recorded
/// that time, any call before the TTL has passed finds the scan fresh and
/// is skipped.
pub proof fn lemma_freshness_idempotent(t0: u64, t1: u64, ttl_secs: u64)
    requires
        t1 < t0 + ttl_secs * 1000,
        // the threshold saturates at the largest timestamp, which therefore
        // always counts as stale
        t1 < u64::MAX,
    ensures
        !spec_scan_is_stale(Some(t0), t1, ttl_secs),
{
}

/// The fingerprint a raw entry answers to; stamping a document id onto
/// the entry does not change it.
pub open spec fn entry_fingerprint(e: RecordInput) -> u64 {
    spec_fingerprint(e.session_id@, e.turn_id, e.ts, e.text@)
}

/// Some stored record answers to fingerprint `fp`.
pub open spec fn fp_present(recs: Seq<Record>, fp: u64) -> bool {
    exists|k: int| 0 <= k < recs.len() && record_fingerprint(#[trigger] recs[k]) == fp
}

/// The dedup-and-stage fold over the first `i` entries: an entry whose
/// fingerprint is already present is dropped, every other entry is
/// stamped with the next document id and appended. Returns the records,
/// the next id, and how many entries were kept.
pub open spec fn spec_ingest_fold(
    recs: Seq<Record>,
    next: u64,
    entries: Seq<RecordInput>,
    i: int,
) -> (Seq<Record>, u64, nat)
    decreases i,
{
    if i <= 0 {
        (recs, next, 0nat)
    } else {
        let prev = spec_ingest_fold(recs, next, entries, i - 1);
        let e = entries[i - 1];
        if fp_present(prev.0, entry_fingerprint(e)) {
            prev
        } else {
            (prev.0.push(e.spec_with_doc_id(prev.1)), (prev.1 + 1) as u64, prev.2 + 1)
        }
    }
}

proof fn lemma_fold_prefix(recs: Seq<Record>, next: u64, entries: Seq<RecordInput>, i: int, j: int)
    requires
        0 <= i <= j,
    ensures
        spec_ingest_fold(recs, next, entries, i).0.is_prefix_of(
            spec_ingest_fold(recs, next, entries, j).0,
        ),
    decreases j - i,
{
    if i < j {
        lemma_fold_prefix(recs, next, entries, i, j - 1);
    }
}

proof fn lemma_fp_stays_present(a: Seq<Record>, b: Seq<Record>, fp: u64)
    requires
        a.is_prefix_of(b),
        fp_present(a, fp),
    ensures
        fp_present(b, fp),
{
    let k = choose|k: int| 0 <= k < a.len() && record_fingerprint(#[trigger] a[k]) == fp;
    assert(b[k] == a[k]);
}

proof fn lemma_fold_covers(recs: Seq<Record>, next: u64, entries: Seq<RecordInput>, i: int, j: int)
    requires
        0 <= j < i <= entries.len(),
    ensures
        fp_present(spec_ingest_fold(recs, next, entries, i).0, entry_fingerprint(entries[j])),
    decreases i,
{
    let prev = spec_ingest_fold(recs, next, entries, i - 1);
    let cur = spec_ingest_fold(recs, next, entries, i);
    if j == i - 1 {
        let e = entries[i - 1];
        if fp_present(prev.0, entry_fingerprint(e)) {
            assert(cur.0 == prev.0);
        } else {
            let stamped = e.spec_with_doc_id(prev.1);
            assert(record_fingerprint(stamped) == entry_fingerprint(e));
            assert(cur.0[cur.0.len() - 1] == stamped);
        }
    } else {
        lemma_fold_covers(recs, next, entries, i - 1, j);
        assert(prev.0.is_prefix_of(cur.0)) by {
            lemma_fold_prefix(recs, next, entries, i - 1, i);
        }
        lemma_fp_stays_present(prev.0, cur.0, entry_fingerprint(entries[j]));
    }
}

/// Dedup idempotence: feeding the same entries a second time keeps every
/// record, the next document id, and the count unchanged — the second
/// fold drops every entry.
pub proof fn lemma_dedup_idempotent(recs: Seq<Record>, next: u64, entries: Seq<RecordInput>)
    ensures
        ({
            let first = spec_ingest_fold(recs, next, entries, entries.len() as int);
            let second = spec_ingest_fold(first.0, first.1, entries, entries.len() as int);
            second.0 == first.0 && second.1 == first.1 && second.2 == 0
        }),
{
    lemma_second_pass_drops_all(recs, next, entries, entries.len() as int);
}

proof fn lemma_second_pass_drops_all(
    recs: Seq<Record>,
    next: u64,
    entries: Seq<RecordInput>,
    i: int,
)
    requires
        0 <= i <= entries.len(),
    ensures
        ({
            let first = spec_ingest_fold(recs, next, entries, entries.len() as int);
            let second = spec_ingest_fold(first.0, first.1, entries, i);
            second.0 == first.0 && second.1 == first.1 && second.2 == 0
        }),
    decreases i,
{
    let first = spec_ingest_fold(recs, next, entries, entries.len() as int);
    if i > 0 {
        lemma_second_pass_drops_all(recs, next, entries, i - 1);
        lemma_fold_covers(recs, next, entries, entries.len() as int, i - 1);
    }
}

impl SearchIndex {
    /// Stages every entry whose fingerprint is new, in order, assigning
    /// sequential document ids; entries already present — in the
    /// committed run, the staged run, or earlier in this batch — are
    /// dropped. Returns how many entries were staged.
    pub fn ingest_entries(&mut self, entries: &Vec<RecordInput>) -> (added: usize)
        requires
            old(self).wf(),
            old(self).next_id() + entries@.len() <= u64::MAX,
        ensures
            final(self).wf(),
            ({
                let f = spec_ingest_fold(
                    old(self).all_recs(),
                    old(self).next_id(),
                    entries@,
                    entries@.len() as int,
                );
                &&& final(self).all_recs() == f.0
                &&& final(self).next_id() == f.1
                &&& added == f.2
                &&& final(self).committed_recs() == old(self).committed_recs()
            }),
    {
        let mut added: usize = 0;
        let mut i: usize = 0;
        while i < entries.len()
            invariant
                self.wf(),
                i <= entries@.len(),
                old(self).next_id() + entries@.len() <= u64::MAX,
                ({
                    let f = spec_ingest_fold(
                        old(self).all_recs(),
                        old(self).next_id(),
                        entries@,
                        i as int,
                    );
                    &&& self.all_recs() == f.0
                    &&& self.next_id() == f.1
                    &&& added == f.2
                    &&& self.committed_recs() == old(self).committed_recs()
                }),
                added <= i,
            decreases entries@.len() - i,
        {
            let fp = fingerprint_of(&entries[i]);
            if !self.contains_fingerprint(fp) {
                proof {
                    lemma_fold_next_bound(
                        old(self).all_recs(),
                        old(self).next_id(),
                        entries@,
                        i as int,
                    );
                }
                let _ = self.add(entries[i].clone());
                added = added + 1;
            }
            i = i + 1;
        }
        added
    }
}

proof fn lemma_fold_next_bound(recs: Seq<Record>, next: u64, entries: Seq<RecordInput>, i: int)
    requires
        0 <= i,
    ensures
        spec_ingest_fold(recs, next, entries, i).1 <= next + i,
        spec_ingest_fold(recs, next, entries, i).2 <= i,
    decreases i,
{
    if i > 0 {
        lemma_fold_next_bound(recs, next, entries, i - 1);
    }
}

/// Some record of `recs` has the document id `id`.
pub open spec fn id_is_indexed(recs: Seq<Record>, id: u64) -> bool {
    exists|k: int| 0 <= k < recs.len() && (#[trigger] recs[k]).doc_id == id
}

/// Every stored vector's document id belongs to some record of `recs`:
/// the coupling between the vector store and the text index.
pub open spec fn vector_text_parity(ids: Seq<u64>, recs: Seq<Record>) -> bool {
    forall|i: int| 0 <= i < ids.len() ==> id_is_indexed(recs, #[trigger] ids[i])
}

proof fn lemma_indexed_extends(recs: Seq<Record>, more: Seq<Record>, id: u64)
    requires
        id_is_indexed(recs, id),
    ensures
        id_is_indexed(recs + more, id),
{
    let k = choose|k: int| 0 <= k < recs.len() && (#[trigger] recs[k]).doc_id == id;
    assert((recs + more)[k] == recs[k]);
}

/// Adding records to the index never breaks parity.
pub proof fn lemma_parity_extends(ids: Seq<u64>, recs: Seq<Record>, more: Seq<Record>)
    requires
        vector_text_parity(ids, recs),
    ensures
        vector_text_parity(ids, recs + more),
{
    assert forall|i: int| 0 <= i < ids.len() implies id_is_indexed(
        recs + more,
        #[trigger] ids[i],
    ) by {
        lemma_indexed_extends(recs, more, ids[i]);
    }
}

/// The views of a batch of rows.
pub open spec fn row_views_of(rows: Seq<Vec<u32>>) -> Seq<Seq<u32>> {
    rows.map_values(|v: Vec<u32>| v@)
}

/// Row `j` of a batch can go into the store: it is `dims` wide and its
/// document id exceeds everything stored before it.
pub open spec fn batch_row_ok(
    stored: Seq<u64>,
    ids: Seq<u64>,
    rows: Seq<Seq<u32>>,
    dims: nat,
    j: int,
) -> bool {
    &&& rows[j].len() == dims
    &&& (if j == 0 {
        stored.len() == 0 || stored.last() < ids[0]
    } else {
        ids[j - 1] < ids[j]
    })
}

/// Appends one vector row per document id, in order, keeping the parity
/// between the stores: every id must name a committed record, and every
/// id stored afterwards still does. The whole batch goes in exactly when
/// every row is `dims` wide, the tag matches, and the ids ascend from the
/// store's last; otherwise the rows before the first refused one are in
/// and the error names the refusal.
pub fn append_embeddings(
    index: &SearchIndex,
    store: &mut VectorStore,
    ids: &Vec<u64>,
    rows: Vec<Vec<u32>>,
    model_tag: &str,
) -> (r: Result<usize, VectorStoreError>)
    requires
        old(store).wf(),
        ids@.len() == rows@.len(),
        vector_text_parity(old(store).ids(), index.committed_recs()),
        forall|i: int| 0 <= i < ids@.len() ==> id_is_indexed(
            index.committed_recs(),
            #[trigger] ids@[i],
        ),
    ensures
        final(store).wf(),
        final(store).spec_dims() == old(store).spec_dims(),
        final(store).spec_model_tag() == old(store).spec_model_tag(),
        vector_text_parity(final(store).ids(), index.committed_recs()),
        r matches Ok(n) ==> n == ids@.len() && final(store).ids() == old(store).ids() + ids@
            && final(store).rows() == old(store).rows() + row_views_of(rows@),
        r is Ok <==> ((ids@.len() == 0 || model_tag@ == old(store).spec_model_tag()) && (forall|
            j: int,
        |
            0 <= j < ids@.len() ==> #[trigger] batch_row_ok(
                old(store).ids(),
                ids@,
                row_views_of(rows@),
                old(store).spec_dims(),
                j,
            ))),
        r is Err ==> (exists|j: int|
            #![trigger ids@.subrange(0, j)]
            0 <= j < ids@.len() && final(store).ids() == old(store).ids() + ids@.subrange(0, j)
                && final(store).rows() == old(store).rows() + row_views_of(rows@).subrange(0, j)
                && (model_tag@ != old(store).spec_model_tag() || !batch_row_ok(
                old(store).ids(),
                ids@,
                row_views_of(rows@),
                old(store).spec_dims(),
                j,
            ))),
{
    let ghost orig_rows = rows@;
    let mut remaining = rows;
    let mut i: usize = 0;
    let n = ids.len();
    while i < n
        invariant
            store.wf(),
            n == ids@.len(),
            orig_rows == rows@,
            orig_rows.len() == n,
            remaining@ == orig_rows.subrange(i as int, n as int),
            i <= n,
            store.ids() == old(store).ids() + ids@.subrange(0, i as int),
            store.rows() == old(store).rows() + row_views_of(orig_rows).subrange(0, i as int),
            store.spec_dims() == old(store).spec_dims(),
            store.spec_model_tag() == old(store).spec_model_tag(),
            i > 0 ==> model_tag@ == old(store).spec_model_tag(),
            forall|j: int|
                0 <= j < i ==> #[trigger] batch_row_ok(
                    old(store).ids(),
                    ids@,
                    row_views_of(orig_rows),
                    old(store).spec_dims(),
                    j,
                ),
            vector_text_parity(store.ids(), index.committed_recs()),
            forall|t: int| 0 <= t < ids@.len() ==> id_is_indexed(
                index.committed_recs(),
                #[trigger] ids@[t],
            ),
        decreases n - i,
    {
        let row = remaining.remove(0);
        let ghost before_ids = store.ids();
        proof {
            assert(row@ == orig_rows[i as int]@);
        }
        let ghost row_views = row_views_of(orig_rows);
        proof {
            assert(row_views[i as int] == orig_rows[i as int]@);
            if i > 0 {
                assert(before_ids.last() == ids@[i - 1]);
            } else {
                assert(before_ids =~= old(store).ids());
            }
        }
        match store.append(ids[i], row, model_tag) {
            Ok(()) => {
                proof {
                    assert(model_tag@ == old(store).spec_model_tag());
                    assert(batch_row_ok(
                        old(store).ids(),
                        ids@,
                        row_views,
                        old(store).spec_dims(),
                        i as int,
                    ));
                    assert forall|t: int| 0 <= t < store.ids().len() implies id_is_indexed(
                        index.committed_recs(),
                        #[trigger] store.ids()[t],
                    ) by {
                        if t < before_ids.len() {
                            assert(store.ids()[t] == before_ids[t]);
                        } else {
                            assert(store.ids()[t] == ids@[i as int]);
                        }
                    }
                    assert(remaining@ =~= orig_rows.subrange(i + 1, n as int));
                    assert(store.ids() =~= old(store).ids() + ids@.subrange(0, i + 1));
                    assert(store.rows() =~= old(store).rows() + row_views_of(
                        orig_rows,
                    ).subrange(0, i + 1));
                }
            },
            Err(e) => {
                proof {
                    assert(ids@.len() > 0);
                    assert(row_views_of(rows@) == row_views_of(orig_rows));
                    assert(model_tag@ != old(store).spec_model_tag() || !batch_row_ok(
                        old(store).ids(),
                        ids@,
                        row_views,
                        old(store).spec_dims(),
                        i as int,
                    ));
                    assert(store.rows() =~= old(store).rows() + row_views.subrange(0, i as int));
                    assert(row_views_of(rows@).subrange(0, i as int) =~= row_views.subrange(
                        0,
                        i as int,
                    ));
                    // the failed row is the witness for how far the store advanced
                    assert(0 <= (i as int) < ids@.len() && store.ids() == old(store).ids()
                        + ids@.subrange(0, i as int) && store.rows() == old(store).rows()
                        + row_views_of(rows@).subrange(0, i as int) && (model_tag@ != old(
                        store,
                    ).spec_model_tag() || !batch_row_ok(
                        old(store).ids(),
                        ids@,
                        row_views_of(rows@),
                        old(store).spec_dims(),
                        i as int,
                    )));
                }
                return Err(e);
            },
        }
        i = i + 1;
    }
    proof {
        assert(ids@.subrange(0, n as int) =~= ids@);
        assert(orig_rows.subrange(0, n as int) =~= orig_rows);
        assert(row_views_of(rows@) == row_views_of(orig_rows));
    }
    Ok(n)
}

/// The sum of the lengths in `lens[a..b]`.
pub open spec fn range_sum(lens: Seq<usize>, a: int, b: int) -> int
    decreases b - a,
{
    if a >= b {
        0
    } else {
        lens[a] + range_sum(lens, a + 1, b)
    }
}

/// A batch plan partitions the texts, in order, into non-empty runs;
/// every run of more than one text stays within the byte budget.
pub open spec fn valid_batch_plan(lens: Seq<usize>, cap: int, plan: Seq<(usize, usize)>) -> bool {
    &&& (lens.len() == 0 ==> plan.len() == 0)
    &&& (lens.len() > 0 ==> plan.len() > 0 && plan[0].0 == 0 && plan.last().1 == lens.len())
    &&& forall|i: int| 0 <= i < plan.len() ==> (#[trigger] plan[i]).0 < plan[i].1 <= lens.len()
    &&& forall|i: int| 0 < i < plan.len() ==> (#[trigger] plan[i]).0 == plan[i - 1].1
    &&& forall|i: int|
        0 <= i < plan.len() && (#[trigger] plan[i]).1 - plan[i].0 > 1 ==> range_sum(
            lens,
            plan[i].0 as int,
            plan[i].1 as int,
        ) <= cap
}

proof fn lemma_range_sum_one(lens: Seq<usize>, a: int)
    ensures
        range_sum(lens, a, a + 1) == lens[a],
{
    reveal_with_fuel(range_sum, 2);
}

proof fn lemma_range_sum_split(lens: Seq<usize>, a: int, b: int)
    requires
        a <= b < lens.len(),
    ensures
        range_sum(lens, a, b + 1) == range_sum(lens, a, b) + lens[b],
    decreases b - a,
{
    if a < b {
        lemma_range_sum_split(lens, a + 1, b);
    } else {
        lemma_range_sum_one(lens, a);
    }
}

/// Plans embedding batches over text byte lengths: texts are grouped
/// greedily in order while the running total stays within `cap`; a text
/// larger than `cap` stands alone in its own batch.
pub fn plan_batches(lens: &Vec<usize>, cap: usize) -> (r: Vec<(usize, usize)>)
    ensures
        valid_batch_plan(lens@, cap as int, r@),
{
    let mut plan: Vec<(usize, usize)> = Vec::new();
    let n = lens.len();
    if n == 0 {
        return plan;
    }
    let mut start: usize = 0;
    let mut end: usize = 1;
    let mut total: u128 = lens[0] as u128;
    proof {
        lemma_range_sum_one(lens@, 0);
    }
    while end < n
        invariant
            n == lens@.len(),
            0 <= start < end <= n,
            total == range_sum(lens@, start as int, end as int),
            total <= usize::MAX as u128,
            end - start > 1 ==> total <= cap as u128,
            // the plan so far covers [0, start) in order
            start == 0 ==> plan@.len() == 0,
            start > 0 ==> plan@.len() > 0 && plan@[0].0 == 0 && plan@.last().1 == start,
            forall|i: int| 0 <= i < plan@.len() ==> (#[trigger] plan@[i]).0 < plan@[i].1 <= n,
            forall|i: int| 0 < i < plan@.len() ==> (#[trigger] plan@[i]).0 == plan@[i - 1].1,
            forall|i: int|
                0 <= i < plan@.len() && (#[trigger] plan@[i]).1 - plan@[i].0 > 1 ==> range_sum(
                    lens@,
                    plan@[i].0 as int,
                    plan@[i].1 as int,
                ) <= cap,
        decreases n - end,
    {
        let next_len = lens[end] as u128;
        proof {
            lemma_range_sum_split(lens@, start as int, end as int);
        }
        if total + next_len <= cap as u128 {
            total = total + next_len;
            end = end + 1;
        } else {
            plan.push((start, end));
            start = end;
            total = next_len;
            end = end + 1;
            proof {
                lemma_range_sum_one(lens@, start as int);
            }
        }
    }
    plan.push((start, end));
    plan
}

/// A backfill runs when embeddings are wanted, the vector store is
/// absent, and the text index already has records.
pub fn should_backfill(embeddings: bool, vector_store_present: bool, doc_count: usize) -> (r: bool)
    ensures
        r == (embeddings && !vector_store_present && doc_count > 0),
{
    embeddings && !vector_store_present && doc_count > 0
}

} // verus!
