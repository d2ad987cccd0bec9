//! What holds of the engine as a whole.

use vstd::prelude::*;
use vstd::utf8::encode_utf8;
use crate::buckets::add_outcome;
use crate::buckets::embedding_data;
use crate::buckets::update_outcome;
use crate::buckets::update_target;
use crate::buckets::updated_index;
use crate::collection::Collection;
use crate::controllers::first_index;
use crate::controllers::holds_id;
use crate::controllers::lemma_first_exists;
use crate::controllers::similarity_outcome;
use crate::controllers::updated_view;
use crate::decode::lemma_collection_round_trip;
use crate::decode::parse_collection;
use crate::error::DbError;
use crate::index::bucket_index;
use crate::index::has_bucket;
use crate::index::holder;
use crate::index::index_holds;
use crate::index::index_wf;
use crate::index::lemma_bucket_index;
use crate::index::lemma_holder;
use crate::index::lemma_holds_update;
use crate::index::lemma_update_in_place;
use crate::index::lemma_with_vector;
use crate::index::lemma_without_vector;
use crate::index::total_size;
use crate::index::vector_of;
use crate::index::with_vector;
use crate::index::without_vector;
use crate::lsh::hash_outcome;
use crate::lsh::lemma_metric_name_round_trip;
use crate::lsh::metric_of_name;
use crate::lsh::LSHMetric;
use crate::lsh::Embedding;
use crate::lsh::LSH;
use crate::objects::BucketView;
use crate::objects::VectorView;
use crate::registry::plan_outcome;
use crate::registry::search_outcome;
use crate::registry::SearchPlan;
use crate::score::best;
use crate::score::precedes;
use crate::score::score_rank;
use crate::score::with_scores;
use crate::search::flat_hits;
use crate::search::lemma_best_exists;
use crate::search::lemma_primary_well_formed;
use crate::search::lemma_ranked_well_formed;
use crate::search::results_wf;
use crate::search::scores_fit;
use crate::search::Hit;
use crate::registry::has_name;
use crate::registry::load_relation;
use crate::registry::load_step;
use crate::registry::names_distinct;
use crate::storage::collection_header;
use crate::storage::dumped_name;
use crate::storage::index_dump;
use crate::storage::is_writable;
use crate::storage::lemma_dump_restores;
use crate::storage::loadable;
use crate::storage::loads;
use crate::storage::CollectionDump;

verus! {

/// Hashers with the same dimension and number of projections give the same cells the
/// same bucket, whenever and wherever they are asked.
pub proof fn lemma_hash_determined(a: LSH, b: LSH, len: nat, cells: Seq<i64>)
    requires
        a.dimension == b.dimension,
        a.num_hashes == b.num_hashes,
    ensures
        hash_outcome(a, len, cells) == hash_outcome(b, len, cells),
{
}

/// An insert fails with `DimensionMismatch` exactly when the vector's length differs
/// from the index's dimension.
pub proof fn lemma_insert_dimension(
    lsh: LSH,
    d: usize,
    bs: Seq<BucketView>,
    e: Embedding,
    pairs: Seq<(Seq<char>, Seq<char>)>,
    now: i64,
)
    ensures
        add_outcome(Some(lsh), Some(d), bs, e, pairs, now) == Err::<u64, DbError>(
            DbError::DimensionMismatch,
        ) <==> e.data@.len() != d,
{
}

/// An update of a vector that is there fails with `DimensionMismatch` exactly when new
/// components are given whose length differs from the index's dimension.
pub proof fn lemma_update_dimension(lsh: LSH, d: usize, bs: Seq<BucketView>, vid: u64, e: Option<Embedding>)
    requires
        index_holds(bs, vid),
    ensures
        update_outcome(Some(lsh), Some(d), bs, vid, e) == Err::<(), DbError>(DbError::DimensionMismatch)
            <==> (e is Some && e->Some_0.data@.len() != d),
{
}

/// A search fails with `DimensionMismatch` exactly when the query's length differs
/// from the index's dimension, whatever scores are given.
pub proof fn lemma_search_dimension(
    lsh: LSH,
    d: usize,
    bs: Seq<BucketView>,
    query: Embedding,
    rows: Seq<Seq<u32>>,
    k: int,
)
    ensures
        plan_outcome(Some(lsh), Some(d), bs, query, k) == Err::<SearchPlan, DbError>(
            DbError::DimensionMismatch,
        ) <==> query.data@.len() != d,
        search_outcome(Some(lsh), Some(d), bs, query, rows, k) == Err::<Seq<Hit>, DbError>(
            DbError::DimensionMismatch,
        ) <==> query.data@.len() != d,
{
}

/// A well-formed index holds no empty bucket.
pub proof fn lemma_no_empty_bucket(bs: Seq<BucketView>, d: Option<usize>, p: int)
    requires
        index_wf(bs, d),
        0 <= p < bs.len(),
    ensures
        bs[p].vectors.len() > 0,
{
}

/// An update keeps the number of vectors, and the vector is found again under its
/// identifier with the new components and metadata where they were given and the old
/// ones where not.
pub proof fn lemma_update_keeps(
    bs: Seq<BucketView>,
    d: usize,
    vid: u64,
    e: Option<Embedding>,
    pairs: Option<Seq<(Seq<char>, Seq<char>)>>,
    now: i64,
)
    requires
        index_wf(bs, Some(d)),
        index_holds(bs, vid),
        e matches Some(x) ==> x.data@.len() == d,
    ensures
        total_size(updated_index(bs, vid, e, pairs, now)) == total_size(bs),
        index_holds(updated_index(bs, vid, e, pairs, now), vid),
        vector_of(updated_index(bs, vid, e, pairs, now), vid) == updated_view(
            vector_of(bs, vid),
            embedding_data(e),
            pairs,
        ),
        vector_of(updated_index(bs, vid, e, pairs, now), vid).id == vid,
{
    let p = holder(bs, vid);
    assert(holds_id(bs[p].vectors, vid));
    lemma_first_exists(bs[p].vectors, vid);
    let i = first_index(bs[p].vectors, vid);
    let nv = updated_view(bs[p].vectors[i], embedding_data(e), pairs);
    let target = update_target(bs, vid, e);
    let ns = updated_index(bs, vid, e, pairs, now);
    assert(bs[p].vectors[i].data.len() == d);
    lemma_update_migration(bs, d, vid, e, pairs, now);
    if target == bs[p].id {
        let nb = BucketView { updated_at: now, vectors: bs[p].vectors.update(i, nv), ..bs[p] };
        crate::index::lemma_size_update(bs, p, nb);
        lemma_holds_update(bs[p].vectors, i, nv, vid);
        lemma_holder(ns, Some(d), p, vid);
        crate::controllers::lemma_first_index(ns[p].vectors, vid, i);
    } else {
        let ws = without_vector(bs, vid, now);
        lemma_without_vector(bs, Some(d), vid, now);
        lemma_with_vector(ws, Some(d), target, nv, now);
        crate::index::lemma_without_vector_size(bs, vid, now);
        crate::index::lemma_with_vector_size(ws, target, nv, now);
        let q = bucket_index(ns, target);
        assert(holds_id(ns[q].vectors, vid));
        lemma_holder(ns, Some(d), q, vid);
        if has_bucket(ws, target) {
            let t = bucket_index(ws, target);
            assert(!holds_id(ws[t].vectors, vid));
            assert(ns[t].id == target);
            lemma_bucket_index(ns, t);
            assert(ns[q].vectors == ws[t].vectors.push(nv));
            crate::controllers::lemma_first_index(ns[q].vectors, vid, ws[t].vectors.len() as int);
        } else {
            crate::index::lemma_no_bucket_insertion_point(ws, target);
            let ip = crate::index::insertion_point(ws, target);
            assert(ns[ip].id == target);
            lemma_bucket_index(ns, ip);
            assert(ns[q].vectors == seq![nv]);
            crate::controllers::lemma_first_index(ns[q].vectors, vid, 0);
        }
    }
}

/// An insert is one vector more, and a removal one vector fewer.
pub proof fn lemma_counts(bs: Seq<BucketView>, d: Option<usize>, b: u64, v: VectorView, vid: u64, now: i64)
    requires
        index_wf(bs, d),
    ensures
        total_size(with_vector(bs, b, v, now)) == total_size(bs) + 1,
        index_holds(bs, vid) ==> total_size(without_vector(bs, vid, now)) == total_size(bs) - 1,
{
    crate::index::lemma_with_vector_size(bs, b, v, now);
    if index_holds(bs, vid) {
        crate::index::lemma_without_vector_size(bs, vid, now);
    }
}

/// After an update the index is still well formed, and the vector is in exactly the
/// bucket that its components hash to: a bucket holds it if and only if the bucket's
/// identifier is that hash.
pub proof fn lemma_update_migration(
    bs: Seq<BucketView>,
    d: usize,
    vid: u64,
    e: Option<Embedding>,
    pairs: Option<Seq<(Seq<char>, Seq<char>)>>,
    now: i64,
)
    requires
        index_wf(bs, Some(d)),
        index_holds(bs, vid),
        e matches Some(x) ==> x.data@.len() == d,
    ensures
        index_wf(updated_index(bs, vid, e, pairs, now), Some(d)),
        forall|q: int|
            0 <= q < updated_index(bs, vid, e, pairs, now).len() ==> (holds_id(
                (#[trigger] updated_index(bs, vid, e, pairs, now)[q]).vectors,
                vid,
            ) <==> updated_index(bs, vid, e, pairs, now)[q].id == update_target(bs, vid, e)),
{
    let p = holder(bs, vid);
    assert(holds_id(bs[p].vectors, vid));
    lemma_first_exists(bs[p].vectors, vid);
    let i = first_index(bs[p].vectors, vid);
    let nv = updated_view(bs[p].vectors[i], embedding_data(e), pairs);
    let target = update_target(bs, vid, e);
    let ns = updated_index(bs, vid, e, pairs, now);
    assert(bs[p].vectors[i].data.len() == d);
    if target == bs[p].id {
        lemma_update_in_place(bs, Some(d), p, i, nv, now);
        assert(ns == crate::index::changed_in_place(bs, p, i, nv, now));
        assert forall|q: int| 0 <= q < ns.len() implies (holds_id((#[trigger] ns[q]).vectors, vid)
            <==> ns[q].id == target) by {
            assert(holds_id(ns[q].vectors, vid) <==> holds_id(bs[q].vectors, vid));
            if q != p {
                assert(!holds_id(bs[q].vectors, vid));
                lemma_bucket_index(bs, q);
                lemma_bucket_index(bs, p);
            }
        }
    } else {
        lemma_without_vector(bs, Some(d), vid, now);
        lemma_with_vector(without_vector(bs, vid, now), Some(d), target, nv, now);
    }
}

/// The results of a scan of one bucket are well formed: at most `k` of them and no
/// more than there are vectors, scores never rising, every position within the
/// bucket, and no position twice.
pub proof fn lemma_similarity_well_formed(scores: Seq<u32>, k: int)
    requires
        0 <= k,
        scores.len() <= usize::MAX,
    ensures
        with_scores(scores, best(scores, k)).len() <= k,
        with_scores(scores, best(scores, k)).len() <= scores.len(),
        forall|r: int|
            0 <= r < with_scores(scores, best(scores, k)).len() ==> (#[trigger] with_scores(
                scores,
                best(scores, k),
            )[r]).0 < scores.len() && with_scores(scores, best(scores, k))[r].1 == scores[with_scores(
                scores,
                best(scores, k),
            )[r].0 as int],
        forall|a: int, b: int|
            0 <= a < b < with_scores(scores, best(scores, k)).len() ==> score_rank(
                (#[trigger] with_scores(scores, best(scores, k))[a]).1,
            ) >= score_rank((#[trigger] with_scores(scores, best(scores, k))[b]).1),
        forall|a: int, b: int|
            0 <= a < b < with_scores(scores, best(scores, k)).len() ==> (#[trigger] with_scores(
                scores,
                best(scores, k),
            )[a]).0 != (#[trigger] with_scores(scores, best(scores, k))[b]).0,
{
    lemma_best_exists(scores, k);
    let picked = best(scores, k);
    let res = with_scores(scores, picked);
    assert forall|a: int, b: int| 0 <= a < b < res.len() implies score_rank((#[trigger] res[a]).1)
        >= score_rank((#[trigger] res[b]).1) && res[a].0 != res[b].0 by {
        assert(precedes(scores, picked[a] as int, picked[b] as int));
    }
}

/// The results of a search are well formed, whichever way the plan sends it: at most
/// `k` of them, scores never rising, each naming a bucket of the index and a position
/// in it, and no bucket and position named twice.
pub proof fn lemma_search_well_formed(
    lsh: LSH,
    d: usize,
    bs: Seq<BucketView>,
    query: Embedding,
    rows: Seq<Seq<u32>>,
    k: int,
)
    requires
        index_wf(bs, Some(d)),
        0 <= k,
        search_outcome(Some(lsh), Some(d), bs, query, rows, k) is Ok,
        forall|p: int| 0 <= p < rows.len() ==> (#[trigger] rows[p]).len() <= usize::MAX,
        flat_hits(bs, rows).len() <= usize::MAX,
    ensures
        results_wf(bs, search_outcome(Some(lsh), Some(d), bs, query, rows, k)->Ok_0, k),
{
    let res = search_outcome(Some(lsh), Some(d), bs, query, rows, k)->Ok_0;
    match plan_outcome(Some(lsh), Some(d), bs, query, k) {
        Ok(SearchPlan::Primary(b)) => {
            let p = bucket_index(bs, b);
            let n = bs[p].vectors.len();
            assert(similarity_outcome(n, rows[0], k) is Ok);
            lemma_primary_well_formed(bs, b, rows[0], k);
            assert(res == crate::search::tagged(b, with_scores(rows[0], best(rows[0], k))));
        },
        Ok(SearchPlan::AllBuckets) => {
            assert(scores_fit(bs, rows));
            lemma_ranked_well_formed(bs, rows, k);
        },
        Err(_) => {},
    }
}

/// A collection's header reads back as the collection's name, identifier, metric and
/// dimension.
pub proof fn lemma_collection_header_round_trip(c: Collection)
    requires
        encode_utf8(c.name@).len() <= u64::MAX,
    ensures
        parse_collection(collection_header(c)) == Some(
            (c.name@, c.id, c.lsh_metric.name(), c.vector_dimension as u64),
        ),
        metric_of_name(c.lsh_metric.name()) == Ok::<LSHMetric, DbError>(c.lsh_metric),
{
    lemma_metric_name_round_trip(c.lsh_metric);
    assert(encode_utf8(c.lsh_metric.name()).len() <= u64::MAX) by {
        reveal_strlit("Euclidean");
        reveal_strlit("Cosine");
        reveal_strlit("Manhattan");
        lemma_utf8_length(c.lsh_metric.name());
    }
    lemma_collection_round_trip(c.name@, c.id, c.lsh_metric.name(), c.vector_dimension as u64);
}

/// The written collection is what is written for the collection: its header and its
/// index.
pub open spec fn is_dump_of(dump: CollectionDump, c: Collection) -> bool {
    &&& dump.header@ == collection_header(c)
    &&& dump.bucket_views() == index_dump(c.buckets())
}

/// Two collections hold the same: name, identifier, metric, dimension, and every bucket
/// with its identifier, its times and its vectors.
pub open spec fn same_content(a: Collection, b: Collection) -> bool {
    &&& a.name@ == b.name@
    &&& a.id == b.id
    &&& a.lsh_metric == b.lsh_metric
    &&& a.vector_dimension == b.vector_dimension
    &&& a.buckets() == b.buckets()
}

/// `after` is the registry `cs` read back: as many collections, in the same order,
/// each with the same name, identifier, metric, dimension, buckets and vectors, and
/// with the hasher of a new collection, which is the hasher it had where it was made
/// with that one.
pub open spec fn read_back(cs: Seq<Collection>, after: Seq<Collection>) -> bool {
    &&& after.len() == cs.len()
    &&& forall|i: int| 0 <= i < cs.len() ==> same_content(#[trigger] after[i], cs[i])
    &&& forall|i: int| 0 <= i < cs.len() ==> (#[trigger] after[i]).wf() && after[i].default_hasher()
    &&& forall|i: int|
        0 <= i < cs.len() && cs[i].default_hasher() ==> (#[trigger] after[i]).buckets_controller.lsh
            == cs[i].buckets_controller.lsh
}

/// Whatever registry is loaded from `dumps` into an empty one is `cs` read back.
pub open spec fn restores(cs: Seq<Collection>, dumps: Seq<CollectionDump>) -> bool {
    forall|after: Seq<Collection>| #[trigger]
        load_relation(Seq::empty(), dumps, after) ==> read_back(cs, after)
}

/// Writing a registry out and reading it back into an empty one restores it: as many
/// collections, in the same order, each with the same name, identifier, metric,
/// dimension, buckets and vectors. Each collection read back has the hasher of a new
/// collection, which is the hasher it had where it was made with that one.
pub proof fn lemma_dump_then_load(cs: Seq<Collection>, dumps: Seq<CollectionDump>, after: Seq<Collection>)
    requires
        names_distinct(cs),
        forall|i: int| 0 <= i < cs.len() ==> is_writable(#[trigger] cs[i]),
        dumps.len() == cs.len(),
        forall|i: int| 0 <= i < cs.len() ==> is_dump_of(#[trigger] dumps[i], cs[i]),
        load_relation(Seq::empty(), dumps, after),
    ensures
        read_back(cs, after),
    decreases dumps.len(),
{
    if dumps.len() > 0 {
        let n = dumps.len() - 1;
        let mid = choose|mid: Seq<Collection>|
            load_relation(Seq::empty(), dumps.drop_last(), mid) && #[trigger] load_step(
                mid,
                dumps.last(),
                after,
            );
        let head = cs.drop_last();
        assert(names_distinct(head)) by {
            assert forall|i: int, j: int|
                0 <= i < head.len() && 0 <= j < head.len() && i != j implies (#[trigger] head[i]).name@
                != (#[trigger] head[j]).name@ by {
                assert(cs[i].name@ != cs[j].name@);
            }
        }
        assert forall|i: int| 0 <= i < head.len() implies is_writable(#[trigger] head[i]) && is_dump_of(
            #[trigger] dumps.drop_last()[i],
            head[i],
        ) by {
            assert(is_writable(cs[i]));
            assert(is_dump_of(dumps[i], cs[i]));
        }
        lemma_dump_then_load(head, dumps.drop_last(), mid);
        let c = cs[n];
        let d = dumps.last();
        assert(is_writable(c));
        assert(is_dump_of(dumps[n], c));
        lemma_collection_header_round_trip(c);
        assert(index_wf(c.buckets(), Some(c.vector_dimension)));
        lemma_dump_restores(c.buckets(), c.vector_dimension);
        assert(d.bucket_views().len() == d.buckets@.len());
        assert(index_dump(c.buckets()).len() == c.buckets().len());
        assert(parse_collection(d.header@)->Some_0.3 == c.vector_dimension as u64);
        assert((c.vector_dimension as u64) as usize == c.vector_dimension);
        assert(loadable(d));
        assert(dumped_name(d) == c.name@);
        assert(!has_name(mid, c.name@)) by {
            if has_name(mid, c.name@) {
                let i = choose|i: int| 0 <= i < mid.len() && (#[trigger] mid[i]).name@ == c.name@;
                assert(same_content(mid[i], cs[i]));
                assert(cs[i].name@ != cs[n].name@);
            }
        }
        assert(after.drop_last() == mid);
        assert(loads(d, after.last()));
        assert forall|i: int| 0 <= i < cs.len() implies same_content(#[trigger] after[i], cs[i])
            && after[i].wf() && after[i].default_hasher() && (cs[i].default_hasher()
            ==> after[i].buckets_controller.lsh == cs[i].buckets_controller.lsh) by {
            if i < n {
                assert(after[i] == after.drop_last()[i]);
                assert(same_content(mid[i], cs[i]));
                assert(mid[i].wf());
            } else {
                assert(after[i] == after.last());
                assert(cs[i].wf());
            }
        }
    }
}

/// A text's UTF-8 form has at most four bytes per character.
pub proof fn lemma_utf8_length(s: Seq<char>)
    ensures
        encode_utf8(s).len() <= 4 * s.len(),
    decreases s.len(),
{
    if s.len() > 0 {
        lemma_utf8_length(s.drop_first());
    }
}

} // verus!
