//! A collection's bucket index.

use vstd::prelude::*;
use crate::clock::now_timestamp;
use crate::controllers::first_index;
use crate::controllers::holds_id;
use crate::controllers::lemma_first_exists;
use crate::controllers::matching_ids;
use crate::controllers::lemma_matching_ids_exact;
use crate::metadata::is_superset;
use crate::metadata::pairs_map;
use crate::controllers::opt_pairs;
use crate::controllers::updated_view;
use crate::error::DbError;
use crate::fold::fold64_signed;
use crate::index::bucket_index;
use crate::index::has_bucket;
use crate::index::holder;
use crate::index::ids_ascend;
use crate::index::index_holds;
use crate::index::index_wf;
use crate::index::is_insertion_point;
use crate::index::lemma_bucket_index;
use crate::index::lemma_holder;
use crate::index::lemma_insertion_point;
use crate::index::lemma_update_in_place;
use crate::index::lemma_with_vector;
use crate::index::lemma_without_vector;
use crate::index::total_size;
use crate::index::vector_of;
use crate::index::with_vector;
use crate::index::without_vector;
use crate::lsh::Embedding;
use crate::lsh::LSHMetric;
use crate::lsh::LSH;
use crate::metadata::Metadata;
use crate::objects::vector_id;
use crate::score::lemma_best;
use crate::score::top_k;
use crate::search::bucket_hits;
use crate::search::flat_hits;
use crate::search::hit_scores;
use crate::search::multi_outcome;
use crate::search::pick_hits;
use crate::search::ranked;
use crate::search::results_wf;
use crate::score::best;
use crate::search::primary_outcome;
use crate::search::scores_fit;
use crate::search::tagged;
use crate::search::Hit;
use crate::objects::Bucket;
use crate::objects::BucketView;
use crate::objects::Vector;
use crate::objects::VectorView;

verus! {

/// What inserting `e` with metadata `pairs` at time `now` returns: the new vector's
/// identifier, or why it was refused.
pub open spec fn add_outcome(
    lsh: Option<LSH>,
    dimension: Option<usize>,
    bs: Seq<BucketView>,
    e: Embedding,
    pairs: Seq<(Seq<char>, Seq<char>)>,
    now: i64,
) -> Result<u64, DbError> {
    if lsh is None || dimension is None {
        Err(DbError::InvalidArgument)
    } else if e.data@.len() != dimension->Some_0 {
        Err(DbError::DimensionMismatch)
    } else if e.cells@.len() != lsh->Some_0.num_hashes {
        Err(DbError::InvalidArgument)
    } else if index_holds(bs, vector_id(e.data@, now, pairs)) {
        Err(DbError::AlreadyExists)
    } else {
        Ok(vector_id(e.data@, now, pairs))
    }
}

/// The vector that an insert stores.
pub open spec fn new_view(e: Embedding, pairs: Seq<(Seq<char>, Seq<char>)>, now: i64) -> VectorView {
    VectorView {
        data: e.data@,
        timestamp: now,
        metadata: pairs,
        id: vector_id(e.data@, now, pairs),
    }
}

/// Everything that an insert at time `now` does. A vector that is taken in is one
/// vector more.
pub open spec fn add_post(
    before: BucketController,
    after: BucketController,
    e: Embedding,
    pairs: Seq<(Seq<char>, Seq<char>)>,
    now: i64,
    r: Result<u64, DbError>,
) -> bool {
    &&& r == add_outcome(before.lsh, before.dimension, before.bucket_views(), e, pairs, now)
    &&& after.lsh == before.lsh
    &&& after.dimension == before.dimension
    &&& after.bucket_views() == if r is Ok {
        with_vector(before.bucket_views(), fold64_signed(e.cells@), new_view(e, pairs, now), now)
    } else {
        before.bucket_views()
    }
    &&& r is Err ==> after == before
    &&& r is Ok ==> total_size(after.bucket_views()) == total_size(before.bucket_views()) + 1
}

/// Everything that a delete at time `now` does. A vector that is taken out is one
/// vector fewer.
pub open spec fn remove_post(
    before: BucketController,
    after: BucketController,
    vid: u64,
    now: i64,
    r: Result<(), DbError>,
) -> bool {
    &&& r == if index_holds(before.bucket_views(), vid) {
        Ok::<(), DbError>(())
    } else {
        Err::<(), DbError>(DbError::NotFound)
    }
    &&& after.lsh == before.lsh
    &&& after.dimension == before.dimension
    &&& after.bucket_views() == if r is Ok {
        without_vector(before.bucket_views(), vid, now)
    } else {
        before.bucket_views()
    }
    &&& r is Err ==> after == before
    &&& r is Ok ==> total_size(after.bucket_views()) == total_size(before.bucket_views()) - 1
}

/// What updating the vector `vid` returns.
pub open spec fn update_outcome(
    lsh: Option<LSH>,
    dimension: Option<usize>,
    bs: Seq<BucketView>,
    vid: u64,
    e: Option<Embedding>,
) -> Result<(), DbError> {
    if lsh is None || dimension is None {
        Err(DbError::InvalidArgument)
    } else if !index_holds(bs, vid) {
        Err(DbError::NotFound)
    } else if e is Some && e->Some_0.data@.len() != dimension->Some_0 {
        Err(DbError::DimensionMismatch)
    } else if e is Some && e->Some_0.cells@.len() != lsh->Some_0.num_hashes {
        Err(DbError::InvalidArgument)
    } else {
        Ok(())
    }
}

/// The bucket that the vector `vid` belongs to after an update: the one that the new
/// components hash to, or its present bucket where the components stay.
pub open spec fn update_target(bs: Seq<BucketView>, vid: u64, e: Option<Embedding>) -> u64 {
    match e {
        Some(e) => fold64_signed(e.cells@),
        None => bs[holder(bs, vid)].id,
    }
}

/// The new components of an update, as a plain sequence.
pub open spec fn embedding_data(e: Option<Embedding>) -> Option<Seq<u32>> {
    match e {
        Some(e) => Some(e.data@),
        None => None,
    }
}

/// The index after an update of the vector `vid` at time `now`: changed in place where
/// its bucket stays the same, else taken out and put into its new bucket.
pub open spec fn updated_index(
    bs: Seq<BucketView>,
    vid: u64,
    e: Option<Embedding>,
    pairs: Option<Seq<(Seq<char>, Seq<char>)>>,
    now: i64,
) -> Seq<BucketView> {
    let p = holder(bs, vid);
    let i = first_index(bs[p].vectors, vid);
    let nv = updated_view(bs[p].vectors[i], embedding_data(e), pairs);
    let target = update_target(bs, vid, e);
    if target == bs[p].id {
        bs.update(p, BucketView { updated_at: now, vectors: bs[p].vectors.update(i, nv), ..bs[p] })
    } else {
        with_vector(without_vector(bs, vid, now), target, nv, now)
    }
}

/// Everything that an update at time `now` does. The vector ends in exactly the
/// bucket of its target, the number of vectors stays, and the vector is found again
/// under its identifier with what was given put in place of what it had.
pub open spec fn update_post(
    before: BucketController,
    after: BucketController,
    vid: u64,
    e: Option<Embedding>,
    pairs: Option<Seq<(Seq<char>, Seq<char>)>>,
    now: i64,
    r: Result<(), DbError>,
) -> bool {
    &&& r == update_outcome(before.lsh, before.dimension, before.bucket_views(), vid, e)
    &&& after.lsh == before.lsh
    &&& after.dimension == before.dimension
    &&& after.bucket_views() == if r is Ok {
        updated_index(before.bucket_views(), vid, e, pairs, now)
    } else {
        before.bucket_views()
    }
    &&& r is Err ==> after == before
    &&& r is Ok ==> forall|q: int|
        0 <= q < after.bucket_views().len() ==> (holds_id(
            (#[trigger] after.bucket_views()[q]).vectors,
            vid,
        ) <==> after.bucket_views()[q].id == update_target(before.bucket_views(), vid, e))
    &&& r is Ok ==> total_size(after.bucket_views()) == total_size(before.bucket_views())
    &&& r is Ok ==> index_holds(after.bucket_views(), vid) && vector_of(after.bucket_views(), vid)
        == updated_view(vector_of(before.bucket_views(), vid), embedding_data(e), pairs)
}

/// The identifiers of the vectors of the index whose metadata holds every entry of
/// `filters`: bucket by bucket, each bucket in insertion order.
pub open spec fn filter_ids(bs: Seq<BucketView>, filters: Map<Seq<char>, Seq<char>>) -> Seq<u64>
    decreases bs.len(),
{
    if bs.len() == 0 {
        Seq::empty()
    } else {
        filter_ids(bs.drop_last(), filters) + matching_ids(bs.last().vectors, filters)
    }
}

/// An identifier is reported by the filter exactly when some vector of the index has
/// that identifier and metadata that holds every entry of the filters.
pub proof fn lemma_filter_exact(bs: Seq<BucketView>, filters: Map<Seq<char>, Seq<char>>, id: u64)
    ensures
        filter_ids(bs, filters).contains(id) <==> exists|p: int, i: int|
            0 <= p < bs.len() && 0 <= i < bs[p].vectors.len() && (#[trigger] bs[p].vectors[i]).id == id
                && is_superset(pairs_map(bs[p].vectors[i].metadata), filters),
    decreases bs.len(),
{
    if bs.len() > 0 {
        let rest = bs.drop_last();
        let last = bs.last();
        lemma_filter_exact(rest, filters, id);
        lemma_matching_ids_exact(last.vectors, filters, id);
        let a = filter_ids(rest, filters);
        let b = matching_ids(last.vectors, filters);
        assert(filter_ids(bs, filters) == a + b);
        if (a + b).contains(id) {
            let t = choose|t: int| 0 <= t < (a + b).len() && (a + b)[t] == id;
            if t < a.len() {
                assert(a[t] == id);
                assert(a.contains(id));
                let (p, i) = choose|p: int, i: int|
                    0 <= p < rest.len() && 0 <= i < rest[p].vectors.len() && (
                    #[trigger] rest[p].vectors[i]).id == id && is_superset(
                        pairs_map(rest[p].vectors[i].metadata),
                        filters,
                    );
                assert(bs[p].vectors[i].id == id);
            } else {
                assert(b[t - a.len()] == id);
                assert(b.contains(id));
                let i = choose|i: int|
                    0 <= i < last.vectors.len() && (#[trigger] last.vectors[i]).id == id && is_superset(
                        pairs_map(last.vectors[i].metadata),
                        filters,
                    );
                assert(bs[bs.len() - 1].vectors[i].id == id);
            }
        }
        if exists|p: int, i: int|
            0 <= p < bs.len() && 0 <= i < bs[p].vectors.len() && (#[trigger] bs[p].vectors[i]).id == id
                && is_superset(pairs_map(bs[p].vectors[i].metadata), filters) {
            let (p, i) = choose|p: int, i: int|
                0 <= p < bs.len() && 0 <= i < bs[p].vectors.len() && (#[trigger] bs[p].vectors[i]).id
                    == id && is_superset(pairs_map(bs[p].vectors[i].metadata), filters);
            if p < bs.len() - 1 {
                assert(rest[p].vectors[i].id == id);
                assert(a.contains(id));
                let t = choose|t: int| 0 <= t < a.len() && a[t] == id;
                assert((a + b)[t] == id);
            } else {
                assert(last.vectors[i].id == id);
                assert(b.contains(id));
                let t = choose|t: int| 0 <= t < b.len() && b[t] == id;
                assert((a + b)[a.len() + t] == id);
            }
        }
    }
}

/// Appends `src` to `out`.
pub fn append_ids(out: &mut Vec<u64>, src: &Vec<u64>)
    ensures
        final(out)@ == old(out)@ + src@,
{
    let mut i: usize = 0;
    while i < src.len()
        invariant
            0 <= i <= src.len(),
            out@ == old(out)@ + src@.take(i as int),
        decreases src.len() - i,
    {
        out.push(src[i]);
        proof {
            assert(src@.take(i + 1) =~= src@.take(i as int).push(src@[i as int]));
            assert(out@ =~= old(out)@ + src@.take(i + 1));
        }
        i += 1;
    }
    assert(src@.take(i as int) == src@);
}

/// A search result as plain values.
pub open spec fn hits_view(r: Result<Vec<Hit>, DbError>) -> Result<Seq<Hit>, DbError> {
    match r {
        Ok(hits) => Ok(hits@),
        Err(e) => Err(e),
    }
}

/// The rows of scores as plain sequences.
pub open spec fn score_rows(scores: &Vec<Vec<u32>>) -> Seq<Seq<u32>> {
    Seq::new(scores@.len(), |p: int| scores@[p]@)
}

/// Tags each hit of one bucket with the bucket's identifier.
pub fn tag_hits(b: u64, hits: &Vec<(usize, u32)>) -> (out: Vec<Hit>)
    ensures
        out@ == tagged(b, hits@),
{
    let mut out: Vec<Hit> = Vec::new();
    let mut r: usize = 0;
    while r < hits.len()
        invariant
            0 <= r <= hits.len(),
            out@ == tagged(b, hits@.take(r as int)),
        decreases hits.len() - r,
    {
        out.push((b, hits[r].0, hits[r].1));
        proof {
            assert(out@ =~= tagged(b, hits@.take(r + 1)));
        }
        r += 1;
    }
    assert(hits@.take(r as int) == hits@);
    out
}

/// Counts of an index.
pub struct IndexStatistics {
    pub total_buckets: usize,
    pub total_vectors: usize,
    pub dimension: Option<usize>,
    pub num_hashes: Option<usize>,
    pub bucket_width: Option<u32>,
}

/// A collection's bucket index: the hasher's parameters and the buckets, kept in
/// ascending order of bucket identifier.
pub struct BucketController {
    pub buckets: Option<Vec<Bucket>>,
    pub lsh: Option<LSH>,
    pub dimension: Option<usize>,
}

impl BucketController {
    /// The buckets in stored order; a missing list is an empty one.
    pub open spec fn bucket_items(&self) -> Seq<Bucket> {
        match self.buckets {
            Some(b) => b@,
            None => Seq::empty(),
        }
    }

    /// The buckets as plain values.
    pub open spec fn bucket_views(&self) -> Seq<BucketView> {
        Seq::new(self.bucket_items().len(), |p: int| self.bucket_items()[p]@)
    }

    /// The index invariant holds, every stored vector is well formed, and the hasher
    /// works in the index's dimension.
    pub open spec fn wf(&self) -> bool {
        &&& index_wf(self.bucket_views(), self.dimension)
        &&& forall|p: int| 0 <= p < self.bucket_items().len() ==> (#[trigger] self.bucket_items()[p]).wf()
        &&& (self.lsh is Some && self.dimension is Some) ==> self.lsh->Some_0.dimension
            == self.dimension->Some_0
    }

    /// An empty index with a hasher of the given parameters.
    pub fn new(
        dimension: usize,
        num_hashes: usize,
        bucket_width: u32,
        metric: LSHMetric,
        seed: Option<u64>,
    ) -> (c: BucketController)
        ensures
            c.wf(),
            c.buckets is Some,
            c.bucket_views() == Seq::<BucketView>::empty(),
            c.dimension == Some(dimension),
            c.lsh is Some,
            c.lsh->Some_0.dimension == dimension,
            c.lsh->Some_0.num_hashes == num_hashes,
            c.lsh->Some_0.bucket_width == bucket_width,
            c.lsh->Some_0.metric == metric,
            seed matches Some(s) ==> c.lsh->Some_0.seed == s,
    {
        let lsh = LSH::new(dimension, num_hashes, bucket_width, metric, seed);
        let c = BucketController { buckets: Some(Vec::new()), lsh: Some(lsh), dimension: Some(dimension) };
        assert(c.bucket_views() =~= Seq::<BucketView>::empty());
        c
    }

    /// Where the bucket `b` is, or where it belongs.
    fn locate(&self, b: u64) -> (r: (bool, usize))
        requires
            ids_ascend(self.bucket_views()),
        ensures
            r.0 ==> r.1 < self.bucket_views().len() && self.bucket_views()[r.1 as int].id == b
                && has_bucket(self.bucket_views(), b) && bucket_index(self.bucket_views(), b) == r.1,
            !r.0 ==> is_insertion_point(self.bucket_views(), b, r.1 as int) && !has_bucket(
                self.bucket_views(),
                b,
            ),
    {
        match &self.buckets {
            Some(buckets) => {
                let mut p: usize = 0;
                while p < buckets.len() && buckets[p].id < b
                    invariant
                        0 <= p <= buckets@.len(),
                        self.buckets == Some(*buckets),
                        forall|q: int| 0 <= q < p ==> (#[trigger] self.bucket_views()[q]).id < b,
                    decreases buckets.len() - p,
                {
                    p += 1;
                }
                if p < buckets.len() && buckets[p].id == b {
                    proof {
                        lemma_bucket_index(self.bucket_views(), p as int);
                    }
                    (true, p)
                } else {
                    proof {
                        let bs = self.bucket_views();
                        assert forall|q: int| p <= q < bs.len() implies (#[trigger] bs[q]).id > b by {
                            if q > p {
                                assert(bs[p as int].id < bs[q].id);
                            }
                        }
                        lemma_insertion_point(bs, b, p as int);
                    }
                    (false, p)
                }
            },
            None => {
                proof {
                    lemma_insertion_point(self.bucket_views(), b, 0);
                }
                (false, 0)
            },
        }
    }

    /// The position of the bucket that holds the vector `vid`.
    fn find_holder(&self, vid: u64) -> (r: Option<usize>)
        ensures
            match r {
                Some(p) => p < self.bucket_views().len() && holds_id(
                    self.bucket_views()[p as int].vectors,
                    vid,
                ) && index_holds(self.bucket_views(), vid),
                None => !index_holds(self.bucket_views(), vid),
            },
    {
        match &self.buckets {
            Some(buckets) => {
                let mut p: usize = 0;
                while p < buckets.len()
                    invariant
                        0 <= p <= buckets@.len(),
                        self.buckets == Some(*buckets),
                        forall|q: int|
                            0 <= q < p ==> !holds_id((#[trigger] self.bucket_views()[q]).vectors, vid),
                    decreases buckets.len() - p,
                {
                    if buckets[p].contains_vector(vid) {
                        assert(holds_id(self.bucket_views()[p as int].vectors, vid));
                        return Some(p);
                    }
                    p += 1;
                }
                None
            },
            None => None,
        }
    }

    /// Puts `v` into bucket `b`, which is created at its place in the order if absent.
    fn place(&mut self, b: u64, v: Vector, now: i64)
        requires
            ids_ascend(old(self).bucket_views()),
            forall|p: int|
                0 <= p < old(self).bucket_items().len() ==> (#[trigger] old(self).bucket_items()[p]).wf(),
            v.wf(),
        ensures
            final(self).bucket_views() == with_vector(old(self).bucket_views(), b, v@, now),
            final(self).lsh == old(self).lsh,
            final(self).dimension == old(self).dimension,
            forall|p: int|
                0 <= p < final(self).bucket_items().len() ==> (#[trigger] final(self).bucket_items()[p]).wf(),
    {
        let (found, pos) = self.locate(b);
        let ghost before = self.bucket_items();
        let ghost before_views = self.bucket_views();
        if self.buckets.is_none() {
            self.buckets = Some(Vec::new());
        }
        assert(self.bucket_items() =~= before);
        match &mut self.buckets {
            Some(buckets) => {
                if found {
                    assert(buckets@ == before);
                    let _ = buckets[pos].add_existing(v, now);
                    proof {
                        assert(buckets@.len() == before.len());
                        assert(buckets@[pos as int]@ == (BucketView {
                            updated_at: now,
                            vectors: before[pos as int]@.vectors.push(v@),
                            ..before[pos as int]@
                        }));
                    }
                } else {
                    let mut nb = Bucket::new_at(b, now);
                    let _ = nb.add_existing(v, now);
                    buckets.insert(pos, nb);
                }
            },
            None => {},
        }
        proof {
            let after = self.bucket_items();
            if found {
                assert forall|p: int| 0 <= p < after.len() && p != pos implies (#[trigger] after[p])
                    == before[p] by {}
                assert(has_bucket(before_views, b) && bucket_index(before_views, b) == pos);
                assert(after[pos as int]@ == (BucketView {
                    updated_at: now,
                    vectors: before_views[pos as int].vectors.push(v@),
                    ..before_views[pos as int]
                }));
                assert(self.bucket_views() =~= before_views.update(pos as int, after[pos as int]@));
                assert(self.bucket_views() =~= with_vector(before_views, b, v@, now));
                assert forall|p: int| 0 <= p < after.len() implies (#[trigger] after[p]).wf() by {
                    if p != pos {
                        assert(after[p] == before[p]);
                    }
                }
            } else {
                assert(after.len() == before.len() + 1);
                assert forall|p: int| 0 <= p < after.len() && p != pos implies (#[trigger] after[p])
                    == before[if p < pos { p } else { p - 1 }] by {}
                assert(after[pos as int]@ == (BucketView {
                    id: b,
                    created_at: now,
                    updated_at: now,
                    vectors: seq![v@],
                }));
                lemma_insertion_point(before_views, b, pos as int);
                assert(self.bucket_views() =~= before_views.insert(pos as int, after[pos as int]@));
                assert(self.bucket_views() =~= with_vector(before_views, b, v@, now));
                assert forall|p: int| 0 <= p < after.len() implies (#[trigger] after[p]).wf() by {
                    if p != pos {
                        assert(after[p] == before[if p < pos { p } else { p - 1 }]);
                    }
                }
            }
        }
    }

    /// Puts a whole bucket at its place in the order.
    pub(crate) fn put_bucket(&mut self, bucket: Bucket)
        requires
            ids_ascend(old(self).bucket_views()),
            !has_bucket(old(self).bucket_views(), bucket.id),
            forall|p: int|
                0 <= p < old(self).bucket_items().len() ==> (#[trigger] old(self).bucket_items()[p]).wf(),
            bucket.wf(),
        ensures
            final(self).bucket_views() == old(self).bucket_views().insert(
                crate::index::insertion_point(old(self).bucket_views(), bucket.id),
                bucket@,
            ),
            final(self).lsh == old(self).lsh,
            final(self).dimension == old(self).dimension,
            forall|p: int|
                0 <= p < final(self).bucket_items().len() ==> (#[trigger] final(self).bucket_items()[p]).wf(),
    {
        let (_found, pos) = self.locate(bucket.id);
        let ghost before = self.bucket_items();
        let ghost before_views = self.bucket_views();
        if self.buckets.is_none() {
            self.buckets = Some(Vec::new());
        }
        assert(self.bucket_items() =~= before);
        match &mut self.buckets {
            Some(buckets) => {
                buckets.insert(pos, bucket);
            },
            None => {},
        }
        proof {
            let after = self.bucket_items();
            lemma_insertion_point(before_views, bucket.id, pos as int);
            assert forall|p: int| 0 <= p < after.len() && p != pos implies (#[trigger] after[p])
                == before[if p < pos { p } else { p - 1 }] by {}
            assert(self.bucket_views() =~= before_views.insert(pos as int, bucket@));
            assert forall|p: int| 0 <= p < after.len() implies (#[trigger] after[p]).wf() by {
                if p != pos {
                    assert(after[p] == before[if p < pos { p } else { p - 1 }]);
                }
            }
        }
    }

    /// Takes the vector `vid` out of the bucket at position `p`, dropping the bucket if
    /// that leaves it empty.
    fn take(&mut self, vid: u64, p: usize, now: i64) -> (v: Vector)
        requires
            old(self).wf(),
            p < old(self).bucket_views().len(),
            holds_id(old(self).bucket_views()[p as int].vectors, vid),
        ensures
            final(self).bucket_views() == without_vector(old(self).bucket_views(), vid, now),
            v@ == vector_of(old(self).bucket_views(), vid),
            v.wf(),
            final(self).lsh == old(self).lsh,
            final(self).dimension == old(self).dimension,
            forall|q: int|
                0 <= q < final(self).bucket_items().len() ==> (#[trigger] final(self).bucket_items()[q]).wf(),
    {
        let ghost before = self.bucket_items();
        let ghost before_views = self.bucket_views();
        proof {
            lemma_holder(before_views, self.dimension, p as int, vid);
            assert(before[p as int].wf());
        }
        let mut out: Option<Vector> = None;
        match &mut self.buckets {
            Some(buckets) => {
                match buckets[p].remove_and_get_vector_at(vid, now) {
                    Ok(v) => {
                        out = Some(v);
                    },
                    Err(_) => {},
                }
                if buckets[p].size() == 0 {
                    let _ = buckets.remove(p);
                }
            },
            None => {},
        }
        proof {
            let after = self.bucket_items();
            let i = first_index(before_views[p as int].vectors, vid);
            lemma_first_exists(before_views[p as int].vectors, vid);
            if before_views[p as int].vectors.len() == 1 {
                assert(before_views[p as int].vectors.remove(i).len() == 0);
                assert forall|q: int| 0 <= q < after.len() implies (#[trigger] after[q]) == before[if q
                    < p {
                    q
                } else {
                    q + 1
                }] by {}
                assert(self.bucket_views() =~= without_vector(before_views, vid, now));
            } else {
                assert(before_views[p as int].vectors.remove(i).len() > 0);
                assert(after.len() == before.len());
                assert forall|q: int| 0 <= q < after.len() && q != p implies (#[trigger] after[q])
                    == before[q] by {}
                assert(self.bucket_views() =~= without_vector(before_views, vid, now));
            }
            assert forall|q: int| 0 <= q < after.len() implies (#[trigger] after[q]).wf() by {
                if before_views[p as int].vectors.len() == 1 {
                    assert(after[q] == before[if q < p { q } else { q + 1 }]);
                } else if q != p {
                    assert(after[q] == before[q]);
                }
            }
        }
        match out {
            Some(v) => v,
            None => Vector::new(None, None, None),
        }
    }

    /// Inserts a vector stamped `now`. Its bucket is the fold of the embedding's cells
    /// and is created if absent. Refused: a vector of another length than the index's
    /// dimension, a cell list of another length than the hasher's projections, and
    /// content whose identifier is already in the index.
    pub fn add_vector_at(&mut self, embedding: Embedding, metadata: Metadata, now: i64) -> (r: Result<
        u64,
        DbError,
    >)
        requires
            old(self).wf(),
            metadata.wf(),
        ensures
            final(self).wf(),
            add_post(*old(self), *final(self), embedding, metadata.pairs(), now, r),
    {
        let lsh = match self.lsh {
            Some(l) => l,
            None => {
                return Err(DbError::InvalidArgument);
            },
        };
        let dimension = match self.dimension {
            Some(d) => d,
            None => {
                return Err(DbError::InvalidArgument);
            },
        };
        if embedding.data.len() != dimension {
            return Err(DbError::DimensionMismatch);
        }
        let b = match lsh.hash(embedding.data.as_slice(), embedding.cells.as_slice()) {
            Ok(b) => b,
            Err(e) => {
                return Err(e);
            },
        };
        let ghost pairs = metadata.pairs();
        let v = Vector::new(Some(embedding.data), Some(now), Some(metadata));
        let id = v.hash_id();
        if self.get_vector(id).is_some() {
            return Err(DbError::AlreadyExists);
        }
        proof {
            assert(v@ == new_view(embedding, pairs, now));
            lemma_with_vector(self.bucket_views(), self.dimension, b, v@, now);
            crate::index::lemma_with_vector_size(self.bucket_views(), b, v@, now);
        }
        self.place(b, v, now);
        Ok(id)
    }

    /// Inserts a vector stamped with the current time.
    pub fn add_vector(&mut self, embedding: Embedding, metadata: Metadata) -> (r: Result<u64, DbError>)
        requires
            old(self).wf(),
            metadata.wf(),
        ensures
            final(self).wf(),
            exists|now: i64| add_post(*old(self), *final(self), embedding, metadata.pairs(), now, r),
            (embedding.data@.len() != old(self).dimension->Some_0 && old(self).lsh is Some && old(self).dimension is Some) ==> r == Err::<u64, DbError>(DbError::DimensionMismatch),
    {
        let now = now_timestamp();
        self.add_vector_at(embedding, metadata, now)
    }

    /// Deletes the vector `vector_id` at time `now`; a bucket left empty is dropped.
    pub fn remove_vector_at(&mut self, vector_id: u64, now: i64) -> (r: Result<(), DbError>)
        requires
            old(self).wf(),
        ensures
            final(self).wf(),
            remove_post(*old(self), *final(self), vector_id, now, r),
    {
        match self.find_holder(vector_id) {
            Some(p) => {
                proof {
                    lemma_without_vector(self.bucket_views(), self.dimension, vector_id, now);
                    crate::index::lemma_without_vector_size(self.bucket_views(), vector_id, now);
                }
                let _ = self.take(vector_id, p, now);
                Ok(())
            },
            None => Err(DbError::NotFound),
        }
    }

    /// Deletes the vector `vector_id`; a bucket left empty is dropped.
    pub fn remove_vector(&mut self, vector_id: u64) -> (r: Result<(), DbError>)
        requires
            old(self).wf(),
        ensures
            final(self).wf(),
            exists|now: i64| remove_post(*old(self), *final(self), vector_id, now, r),
            r is Ok <==> index_holds(old(self).bucket_views(), vector_id),
    {
        let now = now_timestamp();
        self.remove_vector_at(vector_id, now)
    }

    /// Replaces the components and/or the metadata of the vector `vector_id` at time
    /// `now`. With new components the vector moves to the bucket they hash to, which is
    /// created if absent, and a bucket left empty is dropped; its identifier stays.
    pub fn update_vector_at(
        &mut self,
        vector_id: u64,
        new_embedding: Option<Embedding>,
        new_metadata: Option<Metadata>,
        now: i64,
    ) -> (r: Result<(), DbError>)
        requires
            old(self).wf(),
            new_metadata matches Some(m) ==> m.wf(),
        ensures
            final(self).wf(),
            update_post(
                *old(self),
                *final(self),
                vector_id,
                new_embedding,
                opt_pairs(new_metadata),
                now,
                r,
            ),
    {
        let lsh = match self.lsh {
            Some(l) => l,
            None => {
                return Err(DbError::InvalidArgument);
            },
        };
        let dimension = match self.dimension {
            Some(d) => d,
            None => {
                return Err(DbError::InvalidArgument);
            },
        };
        let p = match self.find_holder(vector_id) {
            Some(p) => p,
            None => {
                return Err(DbError::NotFound);
            },
        };
        let ghost bs = self.bucket_views();
        let ghost i = first_index(bs[p as int].vectors, vector_id);
        proof {
            lemma_holder(bs, self.dimension, p as int, vector_id);
            lemma_first_exists(bs[p as int].vectors, vector_id);
            assert(self.bucket_items()[p as int].wf());
        }
        let current = match &self.buckets {
            Some(buckets) => buckets[p].id,
            None => 0,
        };
        let (target, new_data): (u64, Option<Vec<u32>>) = match new_embedding {
            Some(e) => {
                if e.data.len() != dimension {
                    return Err(DbError::DimensionMismatch);
                }
                match lsh.hash(e.data.as_slice(), e.cells.as_slice()) {
                    Ok(b) => (b, Some(e.data)),
                    Err(err) => {
                        return Err(err);
                    },
                }
            },
            None => (current, None),
        };
        let ghost nv = updated_view(
            bs[p as int].vectors[i],
            embedding_data(new_embedding),
            opt_pairs(new_metadata),
        );
        assert(target == update_target(bs, vector_id, new_embedding));
        if target == current {
            let ghost before = self.bucket_items();
            match &mut self.buckets {
                Some(buckets) => {
                    assert(buckets@ == before);
                    let _ = buckets[p].update_vector_at(vector_id, new_data, new_metadata, now);
                    proof {
                        assert(buckets@[p as int]@ == (BucketView {
                            updated_at: now,
                            vectors: bs[p as int].vectors.update(i, nv),
                            ..bs[p as int]
                        }));
                    }
                },
                None => {},
            }
            proof {
                let after = self.bucket_items();
                assert forall|q: int| 0 <= q < after.len() && q != p implies (#[trigger] after[q])
                    == before[q] by {}
                assert(self.bucket_views() =~= bs.update(p as int, after[p as int]@));
                assert(self.bucket_views() == updated_index(
                    bs,
                    vector_id,
                    new_embedding,
                    opt_pairs(new_metadata),
                    now,
                ));
                lemma_update_in_place(bs, self.dimension, p as int, i, nv, now);
                assert forall|q: int| 0 <= q < after.len() implies (#[trigger] after[q]).wf() by {
                    if q != p {
                        assert(after[q] == before[q]);
                    }
                }
                assert forall|q: int| 0 <= q < self.bucket_views().len() implies (holds_id(
                    (#[trigger] self.bucket_views()[q]).vectors,
                    vector_id,
                ) <==> self.bucket_views()[q].id == target) by {
                    assert(holds_id(self.bucket_views()[q].vectors, vector_id) <==> holds_id(
                        bs[q].vectors,
                        vector_id,
                    ));
                    if q != p {
                        assert(!holds_id(bs[q].vectors, vector_id));
                        lemma_bucket_index(bs, q);
                        lemma_bucket_index(bs, p as int);
                    }
                }
            }
        } else {
            proof {
                lemma_without_vector(bs, self.dimension, vector_id, now);
            }
            let mut v = self.take(vector_id, p, now);
            match new_data {
                Some(d) => {
                    v.data = d;
                },
                None => {},
            }
            match new_metadata {
                Some(m) => {
                    v.metadata = m;
                },
                None => {},
            }
            proof {
                assert(v@ == nv);
                lemma_with_vector(self.bucket_views(), self.dimension, target, nv, now);
            }
            self.place(target, v, now);
        }
        proof {
            crate::laws::lemma_update_keeps(
                bs,
                dimension,
                vector_id,
                new_embedding,
                opt_pairs(new_metadata),
                now,
            );
        }
        Ok(())
    }

    /// Replaces the components and/or the metadata of the vector `vector_id`.
    pub fn update_vector(
        &mut self,
        vector_id: u64,
        new_embedding: Option<Embedding>,
        new_metadata: Option<Metadata>,
    ) -> (r: Result<(), DbError>)
        requires
            old(self).wf(),
            new_metadata matches Some(m) ==> m.wf(),
        ensures
            final(self).wf(),
            exists|now: i64|
                update_post(
                    *old(self),
                    *final(self),
                    vector_id,
                    new_embedding,
                    opt_pairs(new_metadata),
                    now,
                    r,
                ),
            r == update_outcome(
                old(self).lsh,
                old(self).dimension,
                old(self).bucket_views(),
                vector_id,
                new_embedding,
            ),
    {
        let now = now_timestamp();
        self.update_vector_at(vector_id, new_embedding, new_metadata, now)
    }

    /// The identifiers of the vectors whose metadata holds every entry of `filters`:
    /// bucket by bucket in ascending order, each bucket in insertion order.
    pub fn filter_by_metadata(&self, filters: &Metadata) -> (ids: Vec<u64>)
        requires
            self.wf(),
            filters.wf(),
        ensures
            ids@ == filter_ids(self.bucket_views(), filters@),
    {
        let mut result: Vec<u64> = Vec::new();
        match &self.buckets {
            Some(buckets) => {
                let mut p: usize = 0;
                while p < buckets.len()
                    invariant
                        0 <= p <= buckets@.len(),
                        self.buckets == Some(*buckets),
                        self.wf(),
                        filters.wf(),
                        result@ == filter_ids(self.bucket_views().take(p as int), filters@),
                    decreases buckets.len() - p,
                {
                    assert(self.bucket_items()[p as int].wf());
                    let found = buckets[p].filter_by_metadata(filters);
                    proof {
                        let upto = self.bucket_views().take(p + 1);
                        assert(upto.drop_last() =~= self.bucket_views().take(p as int));
                        assert(upto.last() == self.bucket_views()[p as int]);
                    }
                    append_ids(&mut result, &found);
                    p += 1;
                }
                assert(self.bucket_views().take(p as int) == self.bucket_views());
            },
            None => {},
        }
        result
    }

    /// Searches the query's own bucket: the best `k` of its vectors by the scores given,
    /// one per vector of that bucket in insertion order. Where the bucket does not
    /// exist the result is empty.
    pub fn find_similar(&self, query: &Embedding, scores: &Vec<u32>, k: usize) -> (r: Result<
        Vec<Hit>,
        DbError,
    >)
        requires
            self.wf(),
        ensures
            hits_view(r) == primary_outcome(
                self.lsh,
                self.dimension,
                self.bucket_views(),
                *query,
                scores@,
                k as int,
            ),
            r matches Ok(hits) ==> results_wf(self.bucket_views(), hits@, k as int),
    {
        let lsh = match self.lsh {
            Some(l) => l,
            None => {
                return Err(DbError::InvalidArgument);
            },
        };
        let dimension = match self.dimension {
            Some(d) => d,
            None => {
                return Err(DbError::InvalidArgument);
            },
        };
        if query.data.len() != dimension {
            return Err(DbError::DimensionMismatch);
        }
        let b = match lsh.hash(query.data.as_slice(), query.cells.as_slice()) {
            Ok(b) => b,
            Err(e) => {
                return Err(e);
            },
        };
        let (found, pos) = self.locate(b);
        if !found {
            return Ok(Vec::new());
        }
        match &self.buckets {
            Some(buckets) => {
                match buckets[pos].find_similar(scores, k) {
                    Ok(hits) => {
                        proof {
                            assert(scores@.len() == scores.len());
                            crate::search::lemma_primary_well_formed(
                                self.bucket_views(),
                                b,
                                scores@,
                                k as int,
                            );
                        }
                        Ok(tag_hits(b, &hits))
                    },
                    Err(e) => Err(e),
                }
            },
            None => Ok(Vec::new()),
        }
    }

    /// Searches every bucket: the best `k` of all vectors by the scores given, one row
    /// per bucket in ascending order of identifier and one score per vector in insertion
    /// order. Among equal scores the smaller bucket identifier comes first, then the
    /// earlier position in the bucket.
    pub fn find_similar_multi_bucket(&self, query: &Vec<u32>, scores: &Vec<Vec<u32>>, k: usize) -> (r:
        Result<Vec<Hit>, DbError>)
        requires
            self.wf(),
        ensures
            hits_view(r) == multi_outcome(
                self.dimension,
                self.bucket_views(),
                query@.len(),
                score_rows(scores),
                k as int,
            ),
            r matches Ok(hits) ==> results_wf(self.bucket_views(), hits@, k as int),
    {
        let dimension = match self.dimension {
            Some(d) => d,
            None => {
                return Err(DbError::InvalidArgument);
            },
        };
        if query.len() != dimension {
            return Err(DbError::DimensionMismatch);
        }
        let ghost bs = self.bucket_views();
        let ghost rows = score_rows(scores);
        if scores.len() != self.count() {
            return Err(DbError::InvalidArgument);
        }
        let mut flat: Vec<Hit> = Vec::new();
        let mut flat_scores: Vec<u32> = Vec::new();
        match &self.buckets {
            Some(buckets) => {
                let mut p: usize = 0;
                while p < buckets.len()
                    invariant
                        0 <= p <= buckets@.len(),
                        self.buckets == Some(*buckets),
                        bs == self.bucket_views(),
                        rows == score_rows(scores),
                        rows.len() == bs.len(),
                        self.dimension == Some(dimension),
                        query@.len() == dimension,
                        forall|q: int|
                            0 <= q < p ==> (#[trigger] rows[q]).len() == bs[q].vectors.len()
                                && rows[q].len() <= usize::MAX,
                        flat@ == flat_hits(bs.take(p as int), rows.take(p as int)),
                        flat_scores@ == hit_scores(flat@),
                    decreases buckets.len() - p,
                {
                    let row = &scores[p];
                    if row.len() != buckets[p].size() {
                        assert(rows[p as int].len() != bs[p as int].vectors.len());
                        return Err(DbError::InvalidArgument);
                    }
                    let id = buckets[p].id;
                    let ghost head = flat@;
                    let mut i: usize = 0;
                    while i < row.len()
                        invariant
                            0 <= i <= row@.len(),
                            flat@ == head + bucket_hits(id, row@).take(i as int),
                            flat_scores@ == hit_scores(flat@),
                        decreases row.len() - i,
                    {
                        flat.push((id, i, row[i]));
                        flat_scores.push(row[i]);
                        proof {
                            assert(bucket_hits(id, row@).take(i + 1) =~= bucket_hits(id, row@).take(
                                i as int,
                            ).push((id, i, row@[i as int])));
                            assert(flat@ =~= head + bucket_hits(id, row@).take(i + 1));
                            assert(flat_scores@ =~= hit_scores(flat@));
                        }
                        i += 1;
                    }
                    proof {
                        assert(bucket_hits(id, row@).take(i as int) =~= bucket_hits(id, row@));
                        assert(bs.take(p + 1).drop_last() =~= bs.take(p as int));
                        assert(rows.take(p + 1).drop_last() =~= rows.take(p as int));
                        assert(bs.take(p + 1).last() == bs[p as int]);
                        assert(rows.take(p + 1).last() == row@);
                    }
                    p += 1;
                }
                assert(bs.take(p as int) == bs);
                assert(rows.take(p as int) == rows);
            },
            None => {
                assert(rows =~= Seq::<Seq<u32>>::empty());
                assert(flat_scores@ =~= hit_scores(flat@));
            },
        }
        assert(scores_fit(bs, rows));
        let picked = top_k(&flat_scores, k);
        proof {
            lemma_best(flat_scores@, k as int, picked@);
        }
        let mut out: Vec<Hit> = Vec::new();
        let mut r: usize = 0;
        while r < picked.len()
            invariant
                0 <= r <= picked.len(),
                forall|t: int| 0 <= t < picked@.len() ==> (#[trigger] picked@[t]) < flat@.len(),
                out@ == pick_hits(flat@, picked@.take(r as int)),
            decreases picked.len() - r,
        {
            out.push(flat[picked[r]]);
            proof {
                assert(out@ =~= pick_hits(flat@, picked@.take(r + 1)));
            }
            r += 1;
        }
        proof {
            assert(picked@.take(r as int) == picked@);
            assert(flat@ == flat_hits(bs, rows));
            assert(best(hit_scores(flat@), k as int) == picked@);
            assert(out@ == ranked(flat_hits(bs, rows), k as int));
            assert(scores_fit(bs, rows));
            assert(flat@.len() == flat.len());
            crate::search::lemma_ranked_well_formed(bs, rows, k as int);
        }
        Ok(out)
    }

    /// The vector with identifier `vector_id`.
    pub fn get_vector(&self, vector_id: u64) -> (r: Option<&Vector>)
        ensures
            match r {
                Some(v) => index_holds(self.bucket_views(), vector_id) && v@.id == vector_id && (
                self.wf() ==> v.wf() && v@ == vector_of(self.bucket_views(), vector_id)),
                None => !index_holds(self.bucket_views(), vector_id),
            },
    {
        match self.find_holder(vector_id) {
            Some(p) => {
                match &self.buckets {
                    Some(buckets) => {
                        proof {
                            if self.wf() {
                                lemma_holder(self.bucket_views(), self.dimension, p as int, vector_id);
                                assert(self.bucket_items()[p as int].wf());
                            }
                            lemma_first_exists(self.bucket_views()[p as int].vectors, vector_id);
                        }
                        buckets[p].get_vector(vector_id)
                    },
                    None => None,
                }
            },
            None => None,
        }
    }

    /// The bucket with identifier `id`.
    pub fn get_bucket(&self, id: u64) -> (r: Option<&Bucket>)
        requires
            self.wf(),
        ensures
            match r {
                Some(b) => has_bucket(self.bucket_views(), id) && b@ == self.bucket_views()[bucket_index(
                    self.bucket_views(),
                    id,
                )] && b.wf(),
                None => !has_bucket(self.bucket_views(), id),
            },
    {
        let (found, pos) = self.locate(id);
        if found {
            match &self.buckets {
                Some(buckets) => {
                    assert(self.bucket_items()[pos as int].wf());
                    Some(&buckets[pos])
                },
                None => None,
            }
        } else {
            None
        }
    }

    /// All buckets, in ascending order of identifier.
    pub fn get_all_buckets(&self) -> (all: Vec<&Bucket>)
        ensures
            all@.len() == self.bucket_views().len(),
            forall|p: int| 0 <= p < all@.len() ==> (#[trigger] all@[p])@ == self.bucket_views()[p],
    {
        let mut all: Vec<&Bucket> = Vec::new();
        match &self.buckets {
            Some(buckets) => {
                let mut p: usize = 0;
                while p < buckets.len()
                    invariant
                        0 <= p <= buckets@.len(),
                        self.buckets == Some(*buckets),
                        all@.len() == p,
                        forall|q: int| 0 <= q < p ==> (#[trigger] all@[q])@ == self.bucket_views()[q],
                    decreases buckets.len() - p,
                {
                    all.push(&buckets[p]);
                    p += 1;
                }
            },
            None => {},
        }
        all
    }

    /// The number of buckets.
    pub fn count(&self) -> (n: usize)
        ensures
            n == self.bucket_views().len(),
    {
        match &self.buckets {
            Some(buckets) => buckets.len(),
            None => 0,
        }
    }

    /// The number of vectors in all buckets; a count beyond the machine's range is
    /// given as the largest number in range.
    pub fn total_vectors(&self) -> (n: usize)
        ensures
            n == if total_size(self.bucket_views()) <= usize::MAX {
                total_size(self.bucket_views())
            } else {
                usize::MAX as nat
            },
    {
        let mut total: usize = 0;
        match &self.buckets {
            Some(buckets) => {
                let mut p: usize = 0;
                while p < buckets.len()
                    invariant
                        0 <= p <= buckets@.len(),
                        self.buckets == Some(*buckets),
                        total == if total_size(self.bucket_views().take(p as int)) <= usize::MAX {
                            total_size(self.bucket_views().take(p as int))
                        } else {
                            usize::MAX as nat
                        },
                    decreases buckets.len() - p,
                {
                    proof {
                        let upto = self.bucket_views().take(p + 1);
                        assert(upto.drop_last() =~= self.bucket_views().take(p as int));
                        assert(upto.last() == self.bucket_views()[p as int]);
                    }
                    let size = buckets[p].size();
                    if total > usize::MAX - size {
                        total = usize::MAX;
                    } else {
                        total = total + size;
                    }
                    p += 1;
                }
                assert(self.bucket_views().take(p as int) == self.bucket_views());
            },
            None => {},
        }
        total
    }

    /// Counts of the index and the parameters of its hasher.
    pub fn get_statistics(&self) -> (s: IndexStatistics)
        ensures
            s.total_buckets == self.bucket_views().len(),
            s.total_vectors == if total_size(self.bucket_views()) <= usize::MAX {
                total_size(self.bucket_views())
            } else {
                usize::MAX as nat
            },
            s.dimension == self.dimension,
            s.num_hashes == (match self.lsh {
                Some(l) => Some(l.num_hashes),
                None => None,
            }),
            s.bucket_width == (match self.lsh {
                Some(l) => Some(l.bucket_width),
                None => None,
            }),
    {
        IndexStatistics {
            total_buckets: self.count(),
            total_vectors: self.total_vectors(),
            dimension: self.dimension,
            num_hashes: match self.lsh {
                Some(l) => Some(l.num_hashes),
                None => None,
            },
            bucket_width: match self.lsh {
                Some(l) => Some(l.bucket_width),
                None => None,
            },
        }
    }
}

} // verus!
