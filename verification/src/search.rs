//! What a search returns, as plain values, and the proofs that results are well formed.

use vstd::prelude::*;
use crate::controllers::similarity_outcome;
use crate::error::DbError;
use crate::fold::fold64_signed;
use crate::index::bucket_index;
use crate::index::has_bucket;
use crate::index::ids_ascend;
use crate::lsh::Embedding;
use crate::lsh::LSH;
use crate::objects::BucketView;
use crate::score::best;
use crate::score::is_top_k;
use crate::score::listed;
use crate::score::precedes;
use crate::score::score_rank;
use crate::score::with_scores;

verus! {

/// One search result: bucket identifier, position in the bucket, score.
pub type Hit = (u64, usize, u32);

/// The candidates of one bucket: every position with its score.
pub open spec fn bucket_hits(id: u64, scores: Seq<u32>) -> Seq<Hit> {
    Seq::new(scores.len(), |i: int| (id, i as usize, scores[i]))
}

/// The candidates of the whole index, bucket by bucket in stored order, each bucket
/// in insertion order. `rows` gives one list of scores per bucket.
pub open spec fn flat_hits(bs: Seq<BucketView>, rows: Seq<Seq<u32>>) -> Seq<Hit>
    decreases bs.len(),
{
    if bs.len() == 0 {
        Seq::empty()
    } else {
        flat_hits(bs.drop_last(), rows.drop_last()) + bucket_hits(bs.last().id, rows.last())
    }
}

/// The scores of a list of hits.
pub open spec fn hit_scores(hits: Seq<Hit>) -> Seq<u32> {
    Seq::new(hits.len(), |t: int| hits[t].2)
}

/// The hits at the picked positions.
pub open spec fn pick_hits(hits: Seq<Hit>, picked: Seq<usize>) -> Seq<Hit> {
    Seq::new(picked.len(), |r: int| hits[picked[r] as int])
}

/// The best `k` hits, best first: higher scores first, and among equal scores the hit
/// that stands earlier in `hits`.
pub open spec fn ranked(hits: Seq<Hit>, k: int) -> Seq<Hit> {
    pick_hits(hits, best(hit_scores(hits), k))
}

/// There is one row of scores per bucket and one score per vector.
pub open spec fn scores_fit(bs: Seq<BucketView>, rows: Seq<Seq<u32>>) -> bool {
    &&& rows.len() == bs.len()
    &&& forall|p: int|
        0 <= p < bs.len() ==> (#[trigger] rows[p]).len() == bs[p].vectors.len() && rows[p].len()
            <= usize::MAX
}

/// The hits of one bucket, each tagged with the bucket's identifier.
pub open spec fn tagged(b: u64, hits: Seq<(usize, u32)>) -> Seq<Hit> {
    Seq::new(hits.len(), |r: int| (b, hits[r].0, hits[r].1))
}

/// The results of a search are well formed for the index: at most `k` of them, scores
/// never rising, each naming a bucket of the index and a position in it, and no bucket
/// and position named twice.
pub open spec fn results_wf(bs: Seq<BucketView>, res: Seq<Hit>, k: int) -> bool {
    &&& res.len() <= k
    &&& forall|a: int, b: int|
        0 <= a < b < res.len() ==> score_rank((#[trigger] res[a]).2) >= score_rank((#[trigger] res[b]).2)
    &&& forall|r: int|
        0 <= r < res.len() ==> has_bucket(bs, (#[trigger] res[r]).0) && res[r].1 < bs[bucket_index(
            bs,
            res[r].0,
        )].vectors.len()
    &&& forall|a: int, b: int|
        0 <= a < b < res.len() ==> (#[trigger] res[a]).0 != (#[trigger] res[b]).0 || res[a].1 != res[b].1
}

/// `out` is `hits` sorted by score from the highest down and cut to `k`: as many as
/// `k` allows, scores never rising, each the hit at a place of its own in the list, and
/// no hit left out that scores higher than one kept.
pub open spec fn is_sorted_prefix(hits: Seq<Hit>, out: Seq<Hit>, k: int) -> bool {
    &&& out.len() == if k <= hits.len() {
        k
    } else {
        hits.len() as int
    }
    &&& forall|a: int, b: int|
        0 <= a < b < out.len() ==> score_rank((#[trigger] out[a]).2) >= score_rank((#[trigger] out[b]).2)
    &&& best(hit_scores(hits), k).len() == out.len()
    &&& forall|r: int|
        0 <= r < out.len() ==> (#[trigger] best(hit_scores(hits), k)[r]) < hits.len() && out[r]
            == hits[best(hit_scores(hits), k)[r] as int]
    &&& forall|a: int, b: int|
        0 <= a < b < out.len() ==> #[trigger] best(hit_scores(hits), k)[a] != #[trigger] best(
            hit_scores(hits),
            k,
        )[b]
    &&& forall|t: int, r: int|
        0 <= t < hits.len() && 0 <= r < out.len() && !listed(best(hit_scores(hits), k), t) ==> score_rank(
            (#[trigger] hits[t]).2,
        ) <= score_rank((#[trigger] out[r]).2)
}

/// What a search of the query's own bucket returns: the best `k` of that bucket, or
/// nothing where the bucket does not exist.
pub open spec fn primary_outcome(
    lsh: Option<LSH>,
    dimension: Option<usize>,
    bs: Seq<BucketView>,
    query: Embedding,
    scores: Seq<u32>,
    k: int,
) -> Result<Seq<Hit>, DbError> {
    if lsh is None || dimension is None {
        Err(DbError::InvalidArgument)
    } else if query.data@.len() != dimension->Some_0 {
        Err(DbError::DimensionMismatch)
    } else if query.cells@.len() != lsh->Some_0.num_hashes {
        Err(DbError::InvalidArgument)
    } else if !has_bucket(bs, fold64_signed(query.cells@)) {
        Ok(Seq::empty())
    } else {
        match similarity_outcome(
            bs[bucket_index(bs, fold64_signed(query.cells@))].vectors.len(),
            scores,
            k,
        ) {
            Ok(hits) => Ok(tagged(fold64_signed(query.cells@), hits)),
            Err(e) => Err(e),
        }
    }
}

/// What a search over every bucket returns: the best `k` of all vectors; ties go to
/// the smaller bucket identifier, then to the earlier position in the bucket.
pub open spec fn multi_outcome(
    dimension: Option<usize>,
    bs: Seq<BucketView>,
    query_len: nat,
    rows: Seq<Seq<u32>>,
    k: int,
) -> Result<Seq<Hit>, DbError> {
    if dimension is None {
        Err(DbError::InvalidArgument)
    } else if query_len != dimension->Some_0 {
        Err(DbError::DimensionMismatch)
    } else if !scores_fit(bs, rows) {
        Err(DbError::InvalidArgument)
    } else {
        Ok(ranked(flat_hits(bs, rows), k))
    }
}

/// Every candidate names a bucket of the index and a position in it, and carries the
/// score given for that position; candidates come in ascending order of bucket and
/// position.
pub proof fn lemma_flat_hits(bs: Seq<BucketView>, rows: Seq<Seq<u32>>, t: int)
    requires
        scores_fit(bs, rows),
        0 <= t < flat_hits(bs, rows).len(),
    ensures
        exists|p: int|
            0 <= p < bs.len() && (#[trigger] bs[p]).id == flat_hits(bs, rows)[t].0 && flat_hits(
                bs,
                rows,
            )[t].1 < bs[p].vectors.len() && flat_hits(bs, rows)[t].2 == rows[p][flat_hits(
                bs,
                rows,
            )[t].1 as int],
    decreases bs.len(),
{
    let rest = bs.drop_last();
    let head = flat_hits(rest, rows.drop_last());
    assert(scores_fit(rest, rows.drop_last())) by {
        assert forall|p: int| 0 <= p < rest.len() implies (#[trigger] rows.drop_last()[p]).len()
            == rest[p].vectors.len() by {
            assert(rows[p].len() == bs[p].vectors.len());
        }
    }
    if t < head.len() {
        lemma_flat_hits(rest, rows.drop_last(), t);
        let p = choose|p: int|
            0 <= p < rest.len() && (#[trigger] rest[p]).id == head[t].0 && head[t].1
                < rest[p].vectors.len() && head[t].2 == rows.drop_last()[p][head[t].1 as int];
        assert(flat_hits(bs, rows)[t] == head[t]);
        assert(rows.drop_last()[p] == rows[p]);
        assert(bs[p].id == flat_hits(bs, rows)[t].0);
    } else {
        let p = bs.len() - 1;
        assert(rows[p].len() == bs[p].vectors.len());
        let i = t - head.len();
        assert(flat_hits(bs, rows)[t] == bucket_hits(bs[p].id, rows[p])[i]);
        assert((i as usize) as int == i);
        assert(bs[p].id == flat_hits(bs, rows)[t].0);
    }
}

/// Two different candidates differ in bucket or in position.
pub proof fn lemma_flat_hits_distinct(bs: Seq<BucketView>, rows: Seq<Seq<u32>>, s: int, t: int)
    requires
        scores_fit(bs, rows),
        ids_ascend(bs),
        0 <= s < t < flat_hits(bs, rows).len(),
    ensures
        flat_hits(bs, rows)[s].0 < flat_hits(bs, rows)[t].0 || (flat_hits(bs, rows)[s].0 == flat_hits(
            bs,
            rows,
        )[t].0 && flat_hits(bs, rows)[s].1 < flat_hits(bs, rows)[t].1),
    decreases bs.len(),
{
    let rest = bs.drop_last();
    let head = flat_hits(rest, rows.drop_last());
    assert(scores_fit(rest, rows.drop_last())) by {
        assert forall|p: int| 0 <= p < rest.len() implies (#[trigger] rows.drop_last()[p]).len()
            == rest[p].vectors.len() by {
            assert(rows[p].len() == bs[p].vectors.len());
        }
    }
    assert(ids_ascend(rest)) by {
        assert forall|p: int, q: int| 0 <= p < q < rest.len() implies (#[trigger] rest[p]).id < (
        #[trigger] rest[q]).id by {
            assert(bs[p].id < bs[q].id);
        }
    }
    if t < head.len() {
        lemma_flat_hits_distinct(rest, rows.drop_last(), s, t);
        assert(flat_hits(bs, rows)[s] == head[s]);
        assert(flat_hits(bs, rows)[t] == head[t]);
    } else if s < head.len() {
        lemma_flat_hits(rest, rows.drop_last(), s);
        let p = choose|p: int|
            0 <= p < rest.len() && (#[trigger] rest[p]).id == head[s].0 && head[s].1
                < rest[p].vectors.len() && head[s].2 == rows.drop_last()[p][head[s].1 as int];
        assert(bs[p].id < bs[bs.len() - 1].id);
        assert(flat_hits(bs, rows)[s] == head[s]);
        assert(flat_hits(bs, rows)[t] == bucket_hits(bs.last().id, rows.last())[t - head.len()]);
    } else {
        let last = bs.len() - 1;
        assert(rows[last].len() == bs[last].vectors.len());
        let i = s - head.len();
        let j = t - head.len();
        assert(flat_hits(bs, rows)[s] == bucket_hits(bs[last].id, rows[last])[i]);
        assert(flat_hits(bs, rows)[t] == bucket_hits(bs[last].id, rows[last])[j]);
        assert((i as usize) as int == i);
        assert((j as usize) as int == j);
    }
}

/// The results of a search over every bucket are well formed: at most `k` of them,
/// scores never rising, each naming a bucket of the index and a position in it, and
/// no bucket and position named twice.
pub proof fn lemma_ranked_well_formed(bs: Seq<BucketView>, rows: Seq<Seq<u32>>, k: int)
    requires
        scores_fit(bs, rows),
        ids_ascend(bs),
        0 <= k,
        flat_hits(bs, rows).len() <= usize::MAX,
    ensures
        results_wf(bs, ranked(flat_hits(bs, rows), k), k),
        ranked(flat_hits(bs, rows), k).len() <= flat_hits(bs, rows).len(),
{
    let flat = flat_hits(bs, rows);
    let scores = hit_scores(flat);
    lemma_best_exists(scores, k);
    let picked = best(scores, k);
    let res = ranked(flat, k);
    assert(is_top_k(scores, scores.len() as int, k, picked));
    assert forall|a: int, b: int| 0 <= a < b < res.len() implies score_rank((#[trigger] res[a]).2)
        >= score_rank((#[trigger] res[b]).2) by {
        assert(precedes(scores, picked[a] as int, picked[b] as int));
    }
    assert forall|r: int| 0 <= r < res.len() implies has_bucket(bs, (#[trigger] res[r]).0) && res[r].1
        < bs[bucket_index(bs, res[r].0)].vectors.len() by {
        let t = picked[r] as int;
        lemma_flat_hits(bs, rows, t);
        let p = choose|p: int|
            0 <= p < bs.len() && (#[trigger] bs[p]).id == flat[t].0 && flat[t].1 < bs[p].vectors.len()
                && flat[t].2 == rows[p][flat[t].1 as int];
        crate::index::lemma_bucket_index(bs, p);
    }
    assert forall|a: int, b: int| 0 <= a < b < res.len() implies (#[trigger] res[a]).0 != (
    #[trigger] res[b]).0 || res[a].1 != res[b].1 by {
        let s = picked[a] as int;
        let t = picked[b] as int;
        assert(precedes(scores, s, t));
        if s < t {
            lemma_flat_hits_distinct(bs, rows, s, t);
        } else if t < s {
            lemma_flat_hits_distinct(bs, rows, t, s);
        }
    }
}

/// The results of a search of one bucket are well formed: at most `k` of them, scores
/// never rising, each a position in that bucket, and no position named twice.
pub proof fn lemma_primary_well_formed(bs: Seq<BucketView>, b: u64, scores: Seq<u32>, k: int)
    requires
        has_bucket(bs, b),
        scores.len() == bs[bucket_index(bs, b)].vectors.len(),
        scores.len() <= usize::MAX,
        0 <= k,
    ensures
        results_wf(bs, tagged(b, with_scores(scores, best(scores, k))), k),
{
    lemma_best_exists(scores, k);
    let picked = best(scores, k);
    let hits = with_scores(scores, picked);
    let res = tagged(b, hits);
    assert forall|r: int| 0 <= r < res.len() implies has_bucket(bs, (#[trigger] res[r]).0) && res[r].1
        < bs[bucket_index(bs, res[r].0)].vectors.len() by {
        assert(res[r] == (b, hits[r].0, hits[r].1));
    }
    assert forall|a: int, c: int| 0 <= a < c < res.len() implies score_rank((#[trigger] res[a]).2)
        >= score_rank((#[trigger] res[c]).2) && (res[a].0 != res[c].0 || res[a].1 != res[c].1) by {
        assert(res[a] == (b, hits[a].0, hits[a].1));
        assert(res[c] == (b, hits[c].0, hits[c].1));
        assert(precedes(scores, picked[a] as int, picked[c] as int));
    }
}

/// The best `k` of a list of hits are the list sorted by score from the highest down
/// and cut to `k`.
pub proof fn lemma_ranked_is_sorted_prefix(hits: Seq<Hit>, k: int)
    requires
        0 <= k,
        hits.len() <= usize::MAX,
    ensures
        is_sorted_prefix(hits, ranked(hits, k), k),
{
    let scores = hit_scores(hits);
    lemma_best_exists(scores, k);
    let picked = best(scores, k);
    let res = ranked(hits, k);
    assert forall|a: int, b: int| 0 <= a < b < res.len() implies score_rank((#[trigger] res[a]).2)
        >= score_rank((#[trigger] res[b]).2) by {
        assert(precedes(scores, picked[a] as int, picked[b] as int));
    }
    assert forall|a: int, b: int| 0 <= a < b < res.len() implies #[trigger] picked[a]
        != #[trigger] picked[b] by {
        assert(precedes(scores, picked[a] as int, picked[b] as int));
    }
    assert forall|t: int, r: int|
        0 <= t < hits.len() && 0 <= r < res.len() && !listed(picked, t) implies score_rank(
        (#[trigger] hits[t]).2,
    ) <= score_rank((#[trigger] res[r]).2) by {
        assert(listed(picked, t) || (picked.len() == k && forall|r: int|
            0 <= r < picked.len() ==> precedes(scores, #[trigger] picked[r] as int, t)));
        assert(precedes(scores, picked[r] as int, t));
    }
}

/// Every list of scores has a list of its best `k` positions.
pub proof fn lemma_best_exists(scores: Seq<u32>, k: int)
    requires
        0 <= k,
        scores.len() <= usize::MAX,
    ensures
        is_top_k(scores, scores.len() as int, k, best(scores, k)),
{
    lemma_top_k_exists(scores, scores.len() as int, k);
}

proof fn lemma_top_k_exists(scores: Seq<u32>, n: int, k: int)
    requires
        0 <= k,
        0 <= n <= scores.len(),
        scores.len() <= usize::MAX,
    ensures
        exists|picked: Seq<usize>| is_top_k(scores, n, k, picked),
    decreases n,
{
    if n == 0 {
        assert(is_top_k(scores, 0, k, Seq::<usize>::empty()));
    } else {
        lemma_top_k_exists(scores, n - 1, k);
        let m = n - 1;
        let before = choose|picked: Seq<usize>| is_top_k(scores, m, k, picked);
        let i = m as usize;
        let pos = first_below(scores, before, i as int, 0);
        lemma_first_below(scores, before, i as int, 0);
        assert forall|b: int| pos <= b < before.len() implies score_rank(
            scores[#[trigger] before[b] as int],
        ) < score_rank(scores[i as int]) by {
            if b > pos {
                assert(precedes(scores, before[pos] as int, before[b] as int));
            }
        }
        assert(crate::score::is_place(scores, before, i as int, pos));
        crate::score::lemma_offer(scores, i, k, before, pos);
        assert(is_top_k(scores, n, k, crate::score::offered(before, pos, i, k)));
    }
}

/// The first position at or after `from` in `picked` whose score is below that of `i`.
spec fn first_below(scores: Seq<u32>, picked: Seq<usize>, i: int, from: int) -> int
    decreases picked.len() - from,
{
    if from < 0 || from >= picked.len() {
        picked.len() as int
    } else if score_rank(scores[picked[from] as int]) < score_rank(scores[i]) {
        from
    } else {
        first_below(scores, picked, i, from + 1)
    }
}

proof fn lemma_first_below(scores: Seq<u32>, picked: Seq<usize>, i: int, from: int)
    requires
        0 <= from <= picked.len(),
    ensures
        from <= first_below(scores, picked, i, from) <= picked.len(),
        forall|a: int|
            from <= a < first_below(scores, picked, i, from) ==> score_rank(
                scores[#[trigger] picked[a] as int],
            ) >= score_rank(scores[i]),
        first_below(scores, picked, i, from) < picked.len() ==> score_rank(
            scores[picked[first_below(scores, picked, i, from)] as int],
        ) < score_rank(scores[i]),
    decreases picked.len() - from,
{
    if from < picked.len() && !(score_rank(scores[picked[from] as int]) < score_rank(scores[i])) {
        lemma_first_below(scores, picked, i, from + 1);
    }
}

} // verus!
