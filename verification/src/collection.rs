//! A named collection of vectors of one dimension under one metric.

use vstd::prelude::*;
use crate::buckets::hits_view;
use crate::buckets::score_rows;
use crate::buckets::filter_ids;
use crate::buckets::BucketController;
use crate::error::DbError;
use crate::fold::calculate_hash;
use crate::fold::digest;
use crate::lsh::Embedding;
use crate::lsh::LSHMetric;
use crate::metadata::Metadata;
use crate::objects::BucketView;
use crate::search::multi_outcome;
use crate::search::primary_outcome;
use crate::search::results_wf;
use crate::search::Hit;

verus! {

/// The number of projections of a new collection's hasher.
pub const DEFAULT_NUM_HASHES: usize = 3;

/// The bucket width of a new collection's hasher: the bit pattern of ten.
pub const DEFAULT_BUCKET_WIDTH: u32 = 0x4120_0000;

/// The seed of a new collection's hasher.
pub const DEFAULT_SEED: u64 = 42;

/// The identifier of a collection named `name`: the digest of the name's bytes.
pub open spec fn collection_id(name: Seq<char>) -> u64 {
    digest(vstd::utf8::encode_utf8(name))
}

/// A named set of vectors of one dimension under one metric.
pub struct Collection {
    pub name: String,
    pub buckets_controller: BucketController,
    pub lsh_metric: LSHMetric,
    pub vector_dimension: usize,
    pub id: u64,
}

impl Collection {
    /// The index is well formed and works in the collection's dimension and metric.
    pub open spec fn wf(&self) -> bool {
        &&& self.buckets_controller.wf()
        &&& self.buckets_controller.dimension == Some(self.vector_dimension)
        &&& self.buckets_controller.lsh is Some
        &&& self.buckets_controller.lsh->Some_0.metric == self.lsh_metric
    }

    /// The buckets as plain values.
    pub open spec fn buckets(&self) -> Seq<BucketView> {
        self.buckets_controller.bucket_views()
    }

    /// The hasher is the one that every new collection gets: three projections, bucket
    /// width ten and seed 42.
    pub open spec fn default_hasher(&self) -> bool {
        &&& self.buckets_controller.lsh is Some
        &&& self.buckets_controller.lsh->Some_0.num_hashes == DEFAULT_NUM_HASHES
        &&& self.buckets_controller.lsh->Some_0.bucket_width == DEFAULT_BUCKET_WIDTH
        &&& self.buckets_controller.lsh->Some_0.seed == DEFAULT_SEED
    }

    /// An empty collection. Its hasher has three projections, bucket width ten and
    /// seed 42. Without a name the collection is called "" and has identifier zero.
    pub fn new(name: Option<String>, lsh_metric: LSHMetric, vector_dimension: usize) -> (c: Collection)
        ensures
            c.wf(),
            c.name@ == (match name {
                Some(n) => n@,
                None => Seq::<char>::empty(),
            }),
            c.id == (match name {
                Some(n) => collection_id(n@),
                None => 0,
            }),
            c.lsh_metric == lsh_metric,
            c.vector_dimension == vector_dimension,
            c.buckets() == Seq::<BucketView>::empty(),
            c.default_hasher(),
    {
        let (name_val, id) = match name {
            Some(n) => {
                let hash = calculate_hash(n.as_str().as_bytes());
                (n, hash)
            },
            None => (String::new(), 0),
        };
        let buckets_controller = BucketController::new(
            vector_dimension,
            DEFAULT_NUM_HASHES,
            DEFAULT_BUCKET_WIDTH,
            lsh_metric,
            Some(DEFAULT_SEED),
        );
        Collection { name: name_val, id, buckets_controller, lsh_metric, vector_dimension }
    }

    /// Searches the query's own bucket.
    pub fn find_similar(&self, query: &Embedding, scores: &Vec<u32>, k: usize) -> (r: Result<
        Vec<Hit>,
        DbError,
    >)
        requires
            self.wf(),
        ensures
            hits_view(r) == primary_outcome(
                self.buckets_controller.lsh,
                self.buckets_controller.dimension,
                self.buckets(),
                *query,
                scores@,
                k as int,
            ),
            r matches Ok(hits) ==> results_wf(self.buckets(), hits@, k as int),
    {
        self.buckets_controller.find_similar(query, scores, k)
    }

    /// Searches every bucket.
    pub fn find_similar_multi_bucket(&self, query: &Vec<u32>, scores: &Vec<Vec<u32>>, k: usize) -> (r:
        Result<Vec<Hit>, DbError>)
        requires
            self.wf(),
        ensures
            hits_view(r) == multi_outcome(
                self.buckets_controller.dimension,
                self.buckets(),
                query@.len(),
                score_rows(scores),
                k as int,
            ),
            r matches Ok(hits) ==> results_wf(self.buckets(), hits@, k as int),
    {
        self.buckets_controller.find_similar_multi_bucket(query, scores, k)
    }

    /// The identifiers of the vectors whose metadata holds every entry of `filters`.
    pub fn filter_by_metadata(&self, filters: &Metadata) -> (ids: Vec<u64>)
        requires
            self.wf(),
            filters.wf(),
        ensures
            ids@ == filter_ids(self.buckets(), filters@),
    {
        self.buckets_controller.filter_by_metadata(filters)
    }

    pub fn hash_id(&self) -> (id: u64)
        ensures
            id == self.id,
    {
        self.id
    }

    pub fn set_hash_id(&mut self, id: u64)
        ensures
            *final(self) == (Collection { id, ..*old(self) }),
    {
        self.id = id;
    }
}

} // verus!
