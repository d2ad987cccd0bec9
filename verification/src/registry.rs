//! A node's collections, by name, and the operations on their vectors.

use vstd::prelude::*;
use crate::buckets::add_post;
use crate::buckets::filter_ids;
use crate::buckets::hits_view;
use crate::buckets::remove_post;
use crate::buckets::score_rows;
use crate::buckets::update_post;
use crate::clock::now_timestamp;
use crate::collection::Collection;
use crate::controllers::opt_pairs;
use crate::error::DbError;
use crate::fold::fold64_signed;
use crate::index::bucket_index;
use crate::index::has_bucket;
use crate::index::index_holds;
use crate::index::vector_of;
use crate::lsh::Embedding;
use crate::lsh::LSHMetric;
use crate::lsh::LSH;
use crate::metadata::Metadata;
use crate::objects::Bucket;
use crate::objects::BucketView;
use crate::objects::Vector;
use crate::search::multi_outcome;
use crate::search::primary_outcome;
use crate::search::Hit;
use crate::storage::dump_collection;
use crate::storage::index_dump;
use crate::storage::collection_header;
use crate::storage::load_collection;
use crate::storage::loadable;
use crate::storage::loads;
use crate::storage::dumped_name;
use crate::storage::CollectionDump;
use crate::text::str_eq;

verus! {

/// Some collection of `cs` is named `n`.
pub open spec fn has_name(cs: Seq<Collection>, n: Seq<char>) -> bool {
    exists|i: int| 0 <= i < cs.len() && (#[trigger] cs[i]).name@ == n
}

/// The position of the collection named `n`.
pub open spec fn name_index(cs: Seq<Collection>, n: Seq<char>) -> int {
    choose|i: int| 0 <= i < cs.len() && (#[trigger] cs[i]).name@ == n
}

/// No two collections share a name.
pub open spec fn names_distinct(cs: Seq<Collection>) -> bool {
    forall|i: int, j: int|
        0 <= i < cs.len() && 0 <= j < cs.len() && i != j ==> (#[trigger] cs[i]).name@ != (
        #[trigger] cs[j]).name@
}

pub proof fn lemma_name_index(cs: Seq<Collection>, i: int)
    requires
        names_distinct(cs),
        0 <= i < cs.len(),
    ensures
        has_name(cs, cs[i].name@),
        name_index(cs, cs[i].name@) == i,
{
    let j = name_index(cs, cs[i].name@);
    assert(cs[i].name@ == cs[i].name@);
    if j != i {
        assert(cs[j].name@ != cs[i].name@);
    }
}

/// What creating a collection returns: the name must be new and the dimension positive.
pub open spec fn create_outcome(cs: Seq<Collection>, name: Seq<char>, dimension: usize) -> Result<
    (),
    DbError,
> {
    if has_name(cs, name) {
        Err(DbError::AlreadyExists)
    } else if dimension == 0 {
        Err(DbError::InvalidArgument)
    } else {
        Ok(())
    }
}

/// Which buckets a search has to score.
#[derive(Clone, Copy, Debug, PartialEq, Eq, Structural)]
pub enum SearchPlan {
    /// Only the bucket with this identifier: the query's own bucket, which holds at
    /// least as many vectors as are asked for.
    Primary(u64),
    /// Every bucket, in ascending order of identifier.
    AllBuckets,
}

/// The plan for a search of `k` results: the query's own bucket if it exists and holds
/// at least `k` vectors, else every bucket.
pub open spec fn plan_outcome(
    lsh: Option<LSH>,
    dimension: Option<usize>,
    bs: Seq<BucketView>,
    query: Embedding,
    k: int,
) -> Result<SearchPlan, DbError> {
    if lsh is None || dimension is None {
        Err(DbError::InvalidArgument)
    } else if query.data@.len() != dimension->Some_0 {
        Err(DbError::DimensionMismatch)
    } else if query.cells@.len() != lsh->Some_0.num_hashes {
        Err(DbError::InvalidArgument)
    } else if has_bucket(bs, fold64_signed(query.cells@)) && bs[bucket_index(
        bs,
        fold64_signed(query.cells@),
    )].vectors.len() >= k {
        Ok(SearchPlan::Primary(fold64_signed(query.cells@)))
    } else {
        Ok(SearchPlan::AllBuckets)
    }
}

/// What a search returns for the scores given: by the plan, the best `k` of the
/// query's own bucket (one row of scores) or of all buckets (one row per bucket).
pub open spec fn search_outcome(
    lsh: Option<LSH>,
    dimension: Option<usize>,
    bs: Seq<BucketView>,
    query: Embedding,
    rows: Seq<Seq<u32>>,
    k: int,
) -> Result<Seq<Hit>, DbError> {
    match plan_outcome(lsh, dimension, bs, query, k) {
        Err(e) => Err(e),
        Ok(SearchPlan::Primary(_)) => if rows.len() != 1 {
            Err(DbError::InvalidArgument)
        } else {
            primary_outcome(lsh, dimension, bs, query, rows[0], k)
        },
        Ok(SearchPlan::AllBuckets) => multi_outcome(dimension, bs, query.data@.len(), rows, k),
    }
}

/// The registry after one written collection is offered: added at the end if it can be
/// read and its name is new, passed over otherwise.
pub open spec fn load_step(mid: Seq<Collection>, dump: CollectionDump, after: Seq<Collection>) -> bool {
    if loadable(dump) && !has_name(mid, dumped_name(dump)) {
        after.len() == mid.len() + 1 && after.drop_last() == mid && loads(dump, after.last())
    } else {
        after == mid
    }
}

/// The registry after the written collections are offered one after another.
pub open spec fn load_relation(before: Seq<Collection>, dumps: Seq<CollectionDump>, after: Seq<Collection>) -> bool
    decreases dumps.len(),
{
    if dumps.len() == 0 {
        after == before
    } else {
        exists|mid: Seq<Collection>|
            load_relation(before, dumps.drop_last(), mid) && #[trigger] load_step(mid, dumps.last(), after)
    }
}

/// A node's collections, by name.
pub struct CollectionController {
    pub collections: Option<Vec<Collection>>,
}

impl CollectionController {
    /// The collections in order of creation; a missing list is an empty one.
    pub open spec fn items(&self) -> Seq<Collection> {
        match self.collections {
            Some(c) => c@,
            None => Seq::empty(),
        }
    }

    /// Names are distinct and every collection is well formed.
    pub open spec fn wf(&self) -> bool {
        &&& names_distinct(self.items())
        &&& forall|i: int| 0 <= i < self.items().len() ==> (#[trigger] self.items()[i]).wf()
    }

    /// All collections but the `i`-th are as they were, and the `i`-th keeps its name,
    /// identifier, metric, dimension and hasher.
    pub open spec fn same_but_index(&self, before: &CollectionController, i: int) -> bool {
        &&& self.items().len() == before.items().len()
        &&& forall|j: int|
            0 <= j < self.items().len() && j != i ==> (#[trigger] self.items()[j]) == before.items()[j]
        &&& self.items()[i].name == before.items()[i].name
        &&& self.items()[i].id == before.items()[i].id
        &&& self.items()[i].lsh_metric == before.items()[i].lsh_metric
        &&& self.items()[i].vector_dimension == before.items()[i].vector_dimension
        &&& self.items()[i].buckets_controller.lsh == before.items()[i].buckets_controller.lsh
    }

    /// An empty registry: the list of collections is there, and holds nothing.
    pub fn new() -> (c: CollectionController)
        ensures
            c.wf(),
            c.collections is Some,
            c.items() == Seq::<Collection>::empty(),
    {
        CollectionController { collections: Some(Vec::new()) }
    }

    /// The position of the collection named `name`.
    fn position(&self, name: &str) -> (r: Option<usize>)
        ensures
            match r {
                Some(i) => i < self.items().len() && self.items()[i as int].name@ == name@ && has_name(
                    self.items(),
                    name@,
                ) && (names_distinct(self.items()) ==> name_index(self.items(), name@) == i),
                None => !has_name(self.items(), name@),
            },
    {
        match &self.collections {
            Some(collections) => {
                let mut i: usize = 0;
                while i < collections.len()
                    invariant
                        0 <= i <= collections@.len(),
                        self.collections == Some(*collections),
                        forall|j: int| 0 <= j < i ==> (#[trigger] self.items()[j]).name@ != name@,
                    decreases collections.len() - i,
                {
                    if str_eq(collections[i].name.as_str(), name) {
                        proof {
                            if names_distinct(self.items()) {
                                lemma_name_index(self.items(), i as int);
                            }
                        }
                        return Some(i);
                    }
                    i += 1;
                }
                None
            },
            None => None,
        }
    }

    /// Creates an empty collection. A name already taken is refused, and so is
    /// dimension zero.
    pub fn add_collection(&mut self, name: String, lsh_metric: LSHMetric, vector_dimension: usize) -> (r:
        Result<(), DbError>)
        requires
            old(self).wf(),
        ensures
            final(self).wf(),
            r == create_outcome(old(self).items(), name@, vector_dimension),
            r is Err ==> final(self).items() == old(self).items(),
            r is Ok ==> {
                &&& final(self).items().len() == old(self).items().len() + 1
                &&& final(self).items().drop_last() == old(self).items()
                &&& final(self).items().last().name@ == name@
                &&& final(self).items().last().id == crate::collection::collection_id(name@)
                &&& final(self).items().last().lsh_metric == lsh_metric
                &&& final(self).items().last().vector_dimension == vector_dimension
                &&& final(self).items().last().buckets() == Seq::<BucketView>::empty()
                &&& final(self).items().last().default_hasher()
            },
    {
        if self.position(name.as_str()).is_some() {
            return Err(DbError::AlreadyExists);
        }
        if vector_dimension == 0 {
            return Err(DbError::InvalidArgument);
        }
        let ghost before = self.items();
        let c = Collection::new(Some(name), lsh_metric, vector_dimension);
        match &mut self.collections {
            Some(collections) => {
                collections.push(c);
            },
            None => {
                self.collections = Some(vec![c]);
            },
        }
        proof {
            let after = self.items();
            assert(after =~= before.push(c));
            assert(after.drop_last() =~= before);
            assert forall|i: int, j: int|
                0 <= i < after.len() && 0 <= j < after.len() && i != j implies (#[trigger] after[i]).name@
                != (#[trigger] after[j]).name@ by {
                if i < before.len() && j < before.len() {
                    assert(before[i].name@ != before[j].name@);
                } else if i < before.len() {
                    assert(before[i].name@ != name@);
                } else {
                    assert(before[j].name@ != name@);
                }
            }
            assert forall|i: int| 0 <= i < after.len() implies (#[trigger] after[i]).wf() by {
                if i < before.len() {
                    assert(after[i] == before[i]);
                }
            }
        }
        Ok(())
    }

    /// Deletes the collection named `name` with everything in it.
    pub fn delete_collection(&mut self, name: String) -> (r: Result<(), DbError>)
        requires
            old(self).wf(),
        ensures
            final(self).wf(),
            has_name(old(self).items(), name@) ==> r == Ok::<(), DbError>(()) && final(self).items()
                == old(self).items().remove(name_index(old(self).items(), name@)),
            !has_name(old(self).items(), name@) ==> r == Err::<(), DbError>(DbError::NotFound)
                && final(self).items() == old(self).items(),
            !has_name(final(self).items(), name@),
    {
        match self.position(name.as_str()) {
            Some(pos) => {
                let ghost before = self.items();
                match &mut self.collections {
                    Some(collections) => {
                        let _ = collections.remove(pos);
                    },
                    None => {},
                }
                proof {
                    let after = self.items();
                    assert(after == before.remove(pos as int));
                    assert forall|i: int| 0 <= i < after.len() implies (#[trigger] after[i])
                        == before[if i < pos { i } else { i + 1 }] by {}
                    assert forall|i: int, j: int|
                        0 <= i < after.len() && 0 <= j < after.len() && i != j implies (
                    #[trigger] after[i]).name@ != (#[trigger] after[j]).name@ by {
                        let i0 = if i < pos { i } else { i + 1 };
                        let j0 = if j < pos { j } else { j + 1 };
                        assert(before[i0].name@ != before[j0].name@);
                    }
                    assert forall|i: int| 0 <= i < after.len() implies (#[trigger] after[i]).wf() by {
                        assert(after[i] == before[if i < pos { i } else { i + 1 }]);
                    }
                    if has_name(after, name@) {
                        let i = name_index(after, name@);
                        let i0 = if i < pos { i } else { i + 1 };
                        assert(before[i0].name@ != before[pos as int].name@);
                    }
                }
                Ok(())
            },
            None => Err(DbError::NotFound),
        }
    }

    /// The collection named `name`.
    pub fn get_collection(&self, name: &str) -> (r: Option<&Collection>)
        ensures
            match r {
                Some(c) => has_name(self.items(), name@) && c.name@ == name@ && (self.wf() ==> c.wf()
                    && *c == self.items()[name_index(self.items(), name@)]),
                None => !has_name(self.items(), name@),
            },
    {
        match self.position(name) {
            Some(pos) => {
                match &self.collections {
                    Some(collections) => {
                        proof {
                            if self.wf() {
                                assert(self.items()[pos as int].wf());
                            }
                        }
                        Some(&collections[pos])
                    },
                    None => None,
                }
            },
            None => None,
        }
    }

    /// All collections, in order of creation.
    pub fn get_all_collections(&self) -> (all: Vec<&Collection>)
        ensures
            all@.len() == self.items().len(),
            forall|i: int| 0 <= i < all@.len() ==> *(#[trigger] all@[i]) == self.items()[i],
    {
        let mut all: Vec<&Collection> = Vec::new();
        match &self.collections {
            Some(collections) => {
                let mut i: usize = 0;
                while i < collections.len()
                    invariant
                        0 <= i <= collections@.len(),
                        self.collections == Some(*collections),
                        all@.len() == i,
                        forall|j: int| 0 <= j < i ==> *(#[trigger] all@[j]) == self.items()[j],
                    decreases collections.len() - i,
                {
                    all.push(&collections[i]);
                    i += 1;
                }
            },
            None => {},
        }
        all
    }

    /// Inserts a vector stamped `now` into the collection named `collection_name`.
    pub fn add_vector_at(
        &mut self,
        collection_name: &str,
        embedding: Embedding,
        metadata: Metadata,
        now: i64,
    ) -> (r: Result<u64, DbError>)
        requires
            old(self).wf(),
            metadata.wf(),
        ensures
            final(self).wf(),
            r is Err ==> final(self).items() == old(self).items(),
            !has_name(old(self).items(), collection_name@) ==> r == Err::<u64, DbError>(
                DbError::NotFound,
            ) && final(self).items() == old(self).items(),
            has_name(old(self).items(), collection_name@) ==> {
                let i = name_index(old(self).items(), collection_name@);
                &&& final(self).same_but_index(old(self), i)
                &&& add_post(
                    old(self).items()[i].buckets_controller,
                    final(self).items()[i].buckets_controller,
                    embedding,
                    metadata.pairs(),
                    now,
                    r,
                )
            },
    {
        let pos = match self.position(collection_name) {
            Some(pos) => pos,
            None => {
                return Err(DbError::NotFound);
            },
        };
        let ghost before = self.items();
        assert(before[pos as int].wf());
        let mut r: Result<u64, DbError> = Err(DbError::NotFound);
        match &mut self.collections {
            Some(collections) => {
                assert(collections@ == before);
                r = collections[pos].buckets_controller.add_vector_at(embedding, metadata, now);
            },
            None => {},
        }
        proof {
            self.lemma_touched(old(self), pos as int);
            if r is Err {
                assert(self.items()[pos as int] == before[pos as int]);
                assert(self.items() =~= before);
            }
        }
        r
    }

    /// Inserts a vector stamped with the current time into the collection named
    /// `collection_name`.
    pub fn add_vector(&mut self, collection_name: &str, embedding: Embedding, metadata: Metadata) -> (r:
        Result<u64, DbError>)
        requires
            old(self).wf(),
            metadata.wf(),
        ensures
            final(self).wf(),
            r is Err ==> final(self).items() == old(self).items(),
            !has_name(old(self).items(), collection_name@) ==> r == Err::<u64, DbError>(
                DbError::NotFound,
            ) && final(self).items() == old(self).items(),
            has_name(old(self).items(), collection_name@) ==> {
                let i = name_index(old(self).items(), collection_name@);
                &&& final(self).same_but_index(old(self), i)
                &&& exists|now: i64|
                    add_post(
                        old(self).items()[i].buckets_controller,
                        final(self).items()[i].buckets_controller,
                        embedding,
                        metadata.pairs(),
                        now,
                        r,
                    )
                &&& embedding.data@.len() != old(self).items()[i].vector_dimension ==> r == Err::<
                    u64,
                    DbError,
                >(DbError::DimensionMismatch)
            },
    {
        let now = now_timestamp();
        let r = self.add_vector_at(collection_name, embedding, metadata, now);
        proof {
            if has_name(old(self).items(), collection_name@) {
                let i = name_index(old(self).items(), collection_name@);
                let w = choose|j: int|
                    0 <= j < old(self).items().len() && (#[trigger] old(self).items()[j]).name@
                        == collection_name@;
                assert(old(self).items()[i].wf());
            }
        }
        r
    }

    /// After a change to the index of the `i`-th collection alone, the registry is
    /// still well formed.
    proof fn lemma_touched(&self, before: &CollectionController, i: int)
        requires
            before.wf(),
            0 <= i < before.items().len(),
            self.items().len() == before.items().len(),
            forall|j: int|
                0 <= j < self.items().len() && j != i ==> (#[trigger] self.items()[j]) == before.items()[j],
            self.items()[i].name == before.items()[i].name,
            self.items()[i].id == before.items()[i].id,
            self.items()[i].lsh_metric == before.items()[i].lsh_metric,
            self.items()[i].vector_dimension == before.items()[i].vector_dimension,
            self.items()[i].buckets_controller.wf(),
            self.items()[i].buckets_controller.lsh == before.items()[i].buckets_controller.lsh,
            self.items()[i].buckets_controller.dimension
                == before.items()[i].buckets_controller.dimension,
        ensures
            self.wf(),
            self.same_but_index(before, i),
    {
        let after = self.items();
        let prior = before.items();
        assert(prior[i].wf());
        assert forall|a: int, b: int|
            0 <= a < after.len() && 0 <= b < after.len() && a != b implies (#[trigger] after[a]).name@
            != (#[trigger] after[b]).name@ by {
            assert(after[a].name@ == prior[a].name@);
            assert(after[b].name@ == prior[b].name@);
        }
        assert forall|j: int| 0 <= j < after.len() implies (#[trigger] after[j]).wf() by {
            if j != i {
                assert(after[j] == prior[j]);
            }
        }
    }

    /// Replaces the components and/or the metadata of a vector at time `now`.
    pub fn update_vector_at(
        &mut self,
        collection_name: &str,
        vector_id: u64,
        new_embedding: Option<Embedding>,
        new_metadata: Option<Metadata>,
        now: i64,
    ) -> (r: Result<(), DbError>)
        requires
            old(self).wf(),
            new_metadata matches Some(m) ==> m.wf(),
        ensures
            final(self).wf(),
            r is Err ==> final(self).items() == old(self).items(),
            !has_name(old(self).items(), collection_name@) ==> r == Err::<(), DbError>(
                DbError::NotFound,
            ) && final(self).items() == old(self).items(),
            has_name(old(self).items(), collection_name@) ==> {
                let i = name_index(old(self).items(), collection_name@);
                &&& final(self).same_but_index(old(self), i)
                &&& update_post(
                    old(self).items()[i].buckets_controller,
                    final(self).items()[i].buckets_controller,
                    vector_id,
                    new_embedding,
                    opt_pairs(new_metadata),
                    now,
                    r,
                )
            },
    {
        let pos = match self.position(collection_name) {
            Some(pos) => pos,
            None => {
                return Err(DbError::NotFound);
            },
        };
        let ghost before = self.items();
        assert(before[pos as int].wf());
        let mut r: Result<(), DbError> = Err(DbError::NotFound);
        match &mut self.collections {
            Some(collections) => {
                assert(collections@ == before);
                r = collections[pos].buckets_controller.update_vector_at(
                    vector_id,
                    new_embedding,
                    new_metadata,
                    now,
                );
            },
            None => {},
        }
        proof {
            self.lemma_touched(old(self), pos as int);
            if r is Err {
                assert(self.items()[pos as int] == before[pos as int]);
                assert(self.items() =~= before);
            }
        }
        r
    }

    /// Replaces the components and/or the metadata of a vector.
    pub fn update_vector(
        &mut self,
        collection_name: &str,
        vector_id: u64,
        new_embedding: Option<Embedding>,
        new_metadata: Option<Metadata>,
    ) -> (r: Result<(), DbError>)
        requires
            old(self).wf(),
            new_metadata matches Some(m) ==> m.wf(),
        ensures
            final(self).wf(),
            r is Err ==> final(self).items() == old(self).items(),
            !has_name(old(self).items(), collection_name@) ==> r == Err::<(), DbError>(
                DbError::NotFound,
            ) && final(self).items() == old(self).items(),
            has_name(old(self).items(), collection_name@) ==> {
                let i = name_index(old(self).items(), collection_name@);
                &&& final(self).same_but_index(old(self), i)
                &&& exists|now: i64|
                    update_post(
                        old(self).items()[i].buckets_controller,
                        final(self).items()[i].buckets_controller,
                        vector_id,
                        new_embedding,
                        opt_pairs(new_metadata),
                        now,
                        r,
                    )
            },
    {
        let now = now_timestamp();
        self.update_vector_at(collection_name, vector_id, new_embedding, new_metadata, now)
    }

    /// Deletes a vector at time `now`.
    pub fn delete_vector_at(&mut self, collection_name: &str, vector_id: u64, now: i64) -> (r: Result<
        (),
        DbError,
    >)
        requires
            old(self).wf(),
        ensures
            final(self).wf(),
            r is Err ==> final(self).items() == old(self).items(),
            !has_name(old(self).items(), collection_name@) ==> r == Err::<(), DbError>(
                DbError::NotFound,
            ) && final(self).items() == old(self).items(),
            has_name(old(self).items(), collection_name@) ==> {
                let i = name_index(old(self).items(), collection_name@);
                &&& final(self).same_but_index(old(self), i)
                &&& remove_post(
                    old(self).items()[i].buckets_controller,
                    final(self).items()[i].buckets_controller,
                    vector_id,
                    now,
                    r,
                )
            },
    {
        let pos = match self.position(collection_name) {
            Some(pos) => pos,
            None => {
                return Err(DbError::NotFound);
            },
        };
        let ghost before = self.items();
        assert(before[pos as int].wf());
        let mut r: Result<(), DbError> = Err(DbError::NotFound);
        match &mut self.collections {
            Some(collections) => {
                assert(collections@ == before);
                r = collections[pos].buckets_controller.remove_vector_at(vector_id, now);
            },
            None => {},
        }
        proof {
            self.lemma_touched(old(self), pos as int);
            if r is Err {
                assert(self.items()[pos as int] == before[pos as int]);
                assert(self.items() =~= before);
            }
        }
        r
    }

    /// Deletes a vector.
    pub fn delete_vector(&mut self, collection_name: &str, vector_id: u64) -> (r: Result<(), DbError>)
        requires
            old(self).wf(),
        ensures
            final(self).wf(),
            r is Err ==> final(self).items() == old(self).items(),
            !has_name(old(self).items(), collection_name@) ==> r == Err::<(), DbError>(
                DbError::NotFound,
            ) && final(self).items() == old(self).items(),
            has_name(old(self).items(), collection_name@) ==> {
                let i = name_index(old(self).items(), collection_name@);
                &&& final(self).same_but_index(old(self), i)
                &&& exists|now: i64|
                    remove_post(
                        old(self).items()[i].buckets_controller,
                        final(self).items()[i].buckets_controller,
                        vector_id,
                        now,
                        r,
                    )
            },
    {
        let now = now_timestamp();
        self.delete_vector_at(collection_name, vector_id, now)
    }

    /// The vector `vector_id` of the collection named `collection_name`; `NotFound`
    /// where the collection or the vector is absent.
    pub fn get_vector(&self, collection_name: &str, vector_id: u64) -> (r: Result<&Vector, DbError>)
        requires
            self.wf(),
        ensures
            match r {
                Ok(v) => has_name(self.items(), collection_name@) && index_holds(
                    self.items()[name_index(self.items(), collection_name@)].buckets(),
                    vector_id,
                ) && v.wf() && v@ == vector_of(
                    self.items()[name_index(self.items(), collection_name@)].buckets(),
                    vector_id,
                ),
                Err(e) => e == DbError::NotFound && (!has_name(self.items(), collection_name@)
                    || !index_holds(
                    self.items()[name_index(self.items(), collection_name@)].buckets(),
                    vector_id,
                )),
            },
    {
        match self.get_collection(collection_name) {
            Some(collection) => {
                match collection.buckets_controller.get_vector(vector_id) {
                    Some(v) => Ok(v),
                    None => Err(DbError::NotFound),
                }
            },
            None => Err(DbError::NotFound),
        }
    }

    /// The bucket `bucket_id` of the collection named `collection_name`.
    pub fn get_bucket(&self, collection_name: &str, bucket_id: u64) -> (r: Option<&Bucket>)
        requires
            self.wf(),
        ensures
            match r {
                Some(b) => has_name(self.items(), collection_name@) && has_bucket(
                    self.items()[name_index(self.items(), collection_name@)].buckets(),
                    bucket_id,
                ) && b@ == self.items()[name_index(
                    self.items(),
                    collection_name@,
                )].buckets()[bucket_index(
                    self.items()[name_index(self.items(), collection_name@)].buckets(),
                    bucket_id,
                )],
                None => !has_name(self.items(), collection_name@) || !has_bucket(
                    self.items()[name_index(self.items(), collection_name@)].buckets(),
                    bucket_id,
                ),
            },
    {
        match self.get_collection(collection_name) {
            Some(collection) => collection.buckets_controller.get_bucket(bucket_id),
            None => None,
        }
    }

    /// The identifiers of the vectors of a collection whose metadata holds every entry
    /// of `filters`.
    pub fn filter_by_metadata(&self, collection_name: &str, filters: &Metadata) -> (r: Result<
        Vec<u64>,
        DbError,
    >)
        requires
            self.wf(),
            filters.wf(),
        ensures
            match r {
                Ok(ids) => has_name(self.items(), collection_name@) && ids@ == filter_ids(
                    self.items()[name_index(self.items(), collection_name@)].buckets(),
                    filters@,
                ),
                Err(e) => e == DbError::NotFound && !has_name(self.items(), collection_name@),
            },
    {
        match self.get_collection(collection_name) {
            Some(collection) => Ok(collection.filter_by_metadata(filters)),
            None => Err(DbError::NotFound),
        }
    }

    /// Writes out one collection. What is written of a well-formed collection can be
    /// read back.
    pub fn dump_one(&self, collection: &Collection) -> (out: CollectionDump)
        ensures
            out.name@ == collection.name@,
            out.hash_id == collection.id,
            out.header@ == collection_header(*collection),
            out.bucket_views() == index_dump(collection.buckets()),
            collection.wf() ==> crate::storage::is_writable(*collection),
    {
        dump_collection(collection)
    }

    /// Writes out every collection, in order of creation. What is written of a
    /// well-formed registry restores it: whatever is loaded from it into an empty
    /// registry holds the same collections with the same vectors in the same buckets.
    pub fn dump(&self) -> (out: Vec<CollectionDump>)
        ensures
            out@.len() == self.items().len(),
            forall|i: int|
                0 <= i < out@.len() ==> {
                    &&& (#[trigger] out@[i]).name@ == self.items()[i].name@
                    &&& out@[i].hash_id == self.items()[i].id
                    &&& out@[i].header@ == collection_header(self.items()[i])
                    &&& out@[i].bucket_views() == index_dump(self.items()[i].buckets())
                },
            self.wf() ==> crate::laws::restores(self.items(), out@),
    {
        let mut out: Vec<CollectionDump> = Vec::new();
        match &self.collections {
            Some(collections) => {
                let mut i: usize = 0;
                while i < collections.len()
                    invariant
                        0 <= i <= collections@.len(),
                        self.collections == Some(*collections),
                        out@.len() == i,
                        forall|j: int|
                            0 <= j < i ==> {
                                &&& (#[trigger] out@[j]).name@ == self.items()[j].name@
                                &&& out@[j].hash_id == self.items()[j].id
                                &&& out@[j].header@ == collection_header(self.items()[j])
                                &&& out@[j].bucket_views() == index_dump(self.items()[j].buckets())
                            },
                        forall|j: int|
                            0 <= j < i && (#[trigger] self.items()[j]).wf() ==> crate::storage::is_writable(
                                self.items()[j],
                            ),
                    decreases collections.len() - i,
                {
                    out.push(dump_collection(&collections[i]));
                    i += 1;
                }
            },
            None => {},
        }
        proof {
            if self.wf() {
                let cs = self.items();
                let dumps = out@;
                assert forall|after: Seq<Collection>| #[trigger]
                    load_relation(Seq::empty(), dumps, after) implies crate::laws::read_back(cs, after) by {
                    assert forall|j: int| 0 <= j < cs.len() implies crate::storage::is_writable(
                        #[trigger] cs[j],
                    ) && crate::laws::is_dump_of(#[trigger] dumps[j], cs[j]) by {
                        assert(cs[j].wf());
                    }
                    crate::laws::lemma_dump_then_load(cs, dumps, after);
                }
            }
        }
        out
    }

    /// Reads one collection back and adds it to the registry. What cannot be read is an
    /// I/O error; a name already present is refused. Either way nothing changes.
    pub fn load_one(&mut self, dump: &CollectionDump) -> (r: Result<(), DbError>)
        requires
            old(self).wf(),
        ensures
            final(self).wf(),
            load_step(old(self).items(), *dump, final(self).items()),
            r == if !loadable(*dump) {
                Err::<(), DbError>(DbError::Io)
            } else if has_name(old(self).items(), dumped_name(*dump)) {
                Err::<(), DbError>(DbError::AlreadyExists)
            } else {
                Ok::<(), DbError>(())
            },
    {
        let c = match load_collection(dump) {
            Ok(c) => c,
            Err(e) => {
                return Err(e);
            },
        };
        if self.position(c.name.as_str()).is_some() {
            return Err(DbError::AlreadyExists);
        }
        let ghost before = self.items();
        match &mut self.collections {
            Some(collections) => {
                collections.push(c);
            },
            None => {
                self.collections = Some(vec![c]);
            },
        }
        proof {
            let after = self.items();
            assert(after =~= before.push(c));
            assert(after.drop_last() =~= before);
            assert forall|i: int, j: int|
                0 <= i < after.len() && 0 <= j < after.len() && i != j implies (#[trigger] after[i]).name@
                != (#[trigger] after[j]).name@ by {
                if i < before.len() && j < before.len() {
                    assert(before[i].name@ != before[j].name@);
                } else if i < before.len() {
                    assert(before[i].name@ != c.name@);
                } else {
                    assert(before[j].name@ != c.name@);
                }
            }
            assert forall|i: int| 0 <= i < after.len() implies (#[trigger] after[i]).wf() by {
                if i < before.len() {
                    assert(after[i] == before[i]);
                }
            }
        }
        Ok(())
    }

    /// Reads collections back, one after another, and says how many were added; one
    /// that cannot be read or whose name is present is passed over.
    pub fn load(&mut self, dumps: &Vec<CollectionDump>) -> (count: usize)
        requires
            old(self).wf(),
        ensures
            final(self).wf(),
            load_relation(old(self).items(), dumps@, final(self).items()),
            final(self).items().len() == old(self).items().len() + count,
            count <= dumps@.len(),
            final(self).items().take(old(self).items().len() as int) == old(self).items(),
    {
        let mut count: usize = 0;
        let mut i: usize = 0;
        let ghost start = self.items();
        assert(self.items().take(start.len() as int) =~= start);
        while i < dumps.len()
            invariant
                0 <= i <= dumps@.len(),
                self.wf(),
                count <= i,
                self.items().len() == start.len() + count,
                self.items().take(start.len() as int) == start,
                load_relation(start, dumps@.take(i as int), self.items()),
            decreases dumps.len() - i,
        {
            let ghost before = self.items();
            match self.load_one(&dumps[i]) {
                Ok(_) => {
                    count = count + 1;
                    proof {
                        assert(self.items().drop_last() == before);
                        assert(self.items().take(start.len() as int) =~= before.take(
                            start.len() as int,
                        ));
                    }
                },
                Err(_) => {},
            }
            proof {
                let done = dumps@.take(i + 1);
                assert(done.drop_last() =~= dumps@.take(i as int));
                assert(done.last() == dumps@[i as int]);
                assert(load_relation(start, done.drop_last(), before));
                assert(load_step(before, done.last(), self.items()));
                assert(done.len() > 0);
                assert(load_relation(start, done, self.items()));
            }
            i += 1;
        }
        assert(dumps@.take(i as int) == dumps@);
        count
    }

    /// All buckets of a collection, in ascending order of identifier.
    pub fn get_all_buckets(&self, collection_name: &str) -> (r: Option<Vec<&Bucket>>)
        requires
            self.wf(),
        ensures
            match r {
                Some(all) => has_name(self.items(), collection_name@) && all@.len() == self.items()[name_index(
                    self.items(),
                    collection_name@,
                )].buckets().len() && forall|p: int|
                    0 <= p < all@.len() ==> (#[trigger] all@[p])@ == self.items()[name_index(
                        self.items(),
                        collection_name@,
                    )].buckets()[p],
                None => !has_name(self.items(), collection_name@),
            },
    {
        match self.get_collection(collection_name) {
            Some(collection) => Some(collection.buckets_controller.get_all_buckets()),
            None => None,
        }
    }

    /// Says which buckets a search for `k` results has to score: the query's own
    /// bucket if it exists and holds at least `k` vectors, else all of them.
    pub fn search_plan(&self, collection_name: &str, query: &Embedding, k: usize) -> (r: Result<
        SearchPlan,
        DbError,
    >)
        requires
            self.wf(),
        ensures
            !has_name(self.items(), collection_name@) ==> r == Err::<SearchPlan, DbError>(
                DbError::NotFound,
            ),
            has_name(self.items(), collection_name@) ==> r == plan_outcome(
                self.items()[name_index(self.items(), collection_name@)].buckets_controller.lsh,
                self.items()[name_index(self.items(), collection_name@)].buckets_controller.dimension,
                self.items()[name_index(self.items(), collection_name@)].buckets(),
                *query,
                k as int,
            ),
    {
        let collection = match self.get_collection(collection_name) {
            Some(c) => c,
            None => {
                return Err(DbError::NotFound);
            },
        };
        let lsh = match collection.buckets_controller.lsh {
            Some(l) => l,
            None => {
                return Err(DbError::InvalidArgument);
            },
        };
        let dimension = match collection.buckets_controller.dimension {
            Some(d) => d,
            None => {
                return Err(DbError::InvalidArgument);
            },
        };
        if query.data.len() != dimension {
            return Err(DbError::DimensionMismatch);
        }
        let b = match lsh.hash(query.data.as_slice(), query.cells.as_slice()) {
            Ok(b) => b,
            Err(e) => {
                return Err(e);
            },
        };
        match collection.buckets_controller.get_bucket(b) {
            Some(bucket) => {
                if bucket.size() >= k {
                    Ok(SearchPlan::Primary(b))
                } else {
                    Ok(SearchPlan::AllBuckets)
                }
            },
            None => Ok(SearchPlan::AllBuckets),
        }
    }

    /// Searches a collection for the best `k` vectors by the scores given. `scores`
    /// holds the rows that the plan asks for: one row for the query's own bucket, or one
    /// row per bucket in ascending order of identifier.
    pub fn find_similar(
        &self,
        collection_name: &str,
        query: &Embedding,
        scores: &Vec<Vec<u32>>,
        k: usize,
    ) -> (r: Result<Vec<Hit>, DbError>)
        requires
            self.wf(),
        ensures
            !has_name(self.items(), collection_name@) ==> r == Err::<Vec<Hit>, DbError>(
                DbError::NotFound,
            ),
            has_name(self.items(), collection_name@) ==> hits_view(r) == search_outcome(
                self.items()[name_index(self.items(), collection_name@)].buckets_controller.lsh,
                self.items()[name_index(self.items(), collection_name@)].buckets_controller.dimension,
                self.items()[name_index(self.items(), collection_name@)].buckets(),
                *query,
                score_rows(scores),
                k as int,
            ),
            r matches Ok(hits) ==> crate::search::results_wf(
                self.items()[name_index(self.items(), collection_name@)].buckets(),
                hits@,
                k as int,
            ),
    {
        let plan = match self.search_plan(collection_name, query, k) {
            Ok(p) => p,
            Err(e) => {
                return Err(e);
            },
        };
        let collection = match self.get_collection(collection_name) {
            Some(c) => c,
            None => {
                return Err(DbError::NotFound);
            },
        };
        match plan {
            SearchPlan::Primary(_) => {
                if scores.len() != 1 {
                    return Err(DbError::InvalidArgument);
                }
                collection.find_similar(query, &scores[0], k)
            },
            SearchPlan::AllBuckets => collection.find_similar_multi_bucket(&query.data, scores, k),
        }
    }
}

} // verus!
