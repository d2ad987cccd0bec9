//! Vectors and buckets.

use vstd::prelude::*;
use vstd::string::StringExecFns;
use crate::clock::now_timestamp;
use crate::codec::enc_content;
use crate::codec::encode_content;
use crate::controllers::VectorController;
use crate::controllers::holds_id;
use crate::controllers::first_index;
use crate::controllers::matching_ids;
use crate::controllers::similarity_outcome;
use crate::controllers::updated_view;
use crate::controllers::opt_data;
use crate::controllers::opt_pairs;
use crate::error::DbError;
use crate::fold::calculate_hash;
use crate::fold::digest;
use crate::metadata::Metadata;

verus! {

/// What a stored vector is: components as bit patterns, creation time, metadata
/// entries in ascending key order, and identifier.
pub struct VectorView {
    pub data: Seq<u32>,
    pub timestamp: i64,
    pub metadata: Seq<(Seq<char>, Seq<char>)>,
    pub id: u64,
}

/// The identifier given to new content: the digest of its written form.
pub open spec fn vector_id(data: Seq<u32>, timestamp: i64, metadata: Seq<(Seq<char>, Seq<char>)>) -> u64 {
    digest(enc_content(data, timestamp, metadata))
}

/// A stored vector. Its components are IEEE-754 single-precision bit patterns.
pub struct Vector {
    pub data: Vec<u32>,
    pub timestamp: i64,
    pub metadata: Metadata,
    pub hash_id: u64,
}

impl View for Vector {
    type V = VectorView;

    open spec fn view(&self) -> VectorView {
        VectorView {
            data: self.data@,
            timestamp: self.timestamp,
            metadata: self.metadata.pairs(),
            id: self.hash_id,
        }
    }
}

impl Vector {
    /// The metadata is well formed.
    pub open spec fn wf(&self) -> bool {
        self.metadata.wf()
    }

    /// Builds a vector from its parts; a missing part is empty, a missing time is zero.
    /// The identifier is computed from the content.
    pub fn new(data: Option<Vec<u32>>, timestamp: Option<i64>, metadata: Option<Metadata>) -> (v: Vector)
        ensures
            v@.data == (match data {
                Some(d) => d@,
                None => Seq::empty(),
            }),
            v@.timestamp == (match timestamp {
                Some(t) => t,
                None => 0,
            }),
            v@.metadata == (match metadata {
                Some(m) => m.pairs(),
                None => Seq::empty(),
            }),
            v@.id == vector_id(v@.data, v@.timestamp, v@.metadata),
            (match metadata {
                Some(m) => m.wf(),
                None => true,
            }) ==> v.wf(),
    {
        let data_val = match data {
            Some(d) => d,
            None => Vec::new(),
        };
        let timestamp_val = match timestamp {
            Some(t) => t,
            None => 0,
        };
        let metadata_val = match metadata {
            Some(m) => m,
            None => Metadata::new(),
        };
        let content = encode_content(&data_val, timestamp_val, &metadata_val);
        let hash_id = calculate_hash(content.as_slice());
        Vector { data: data_val, timestamp: timestamp_val, metadata: metadata_val, hash_id }
    }

    /// Rebuilds a vector exactly as it was stored.
    pub fn from_parts(data: Vec<u32>, timestamp: i64, metadata: Metadata, id: u64) -> (v: Vector)
        ensures
            v@ == (VectorView { data: data@, timestamp, metadata: metadata.pairs(), id }),
            metadata.wf() ==> v.wf(),
    {
        Vector { data, timestamp, metadata, hash_id: id }
    }

    pub fn hash_id(&self) -> (id: u64)
        ensures
            id == self@.id,
    {
        self.hash_id
    }

    pub fn set_hash_id(&mut self, id: u64)
        ensures
            final(self)@ == (VectorView { id, ..old(self)@ }),
            final(self).wf() == old(self).wf(),
    {
        self.hash_id = id;
    }

    /// A copy with the same content and identifier.
    pub fn duplicate(&self) -> (v: Vector)
        ensures
            v@ == self@,
            v.wf() == self.wf(),
    {
        let data = self.data.clone();
        assert(data@ =~= self.data@);
        Vector {
            data,
            timestamp: self.timestamp,
            metadata: self.metadata.duplicate(),
            hash_id: self.hash_id,
        }
    }
}

impl Clone for Vector {
    fn clone(&self) -> (v: Vector)
        ensures
            v@ == self@,
    {
        self.duplicate()
    }
}

/// What a bucket is: its identifier, its two times, and its vectors in insertion order.
pub struct BucketView {
    pub id: u64,
    pub created_at: i64,
    pub updated_at: i64,
    pub vectors: Seq<VectorView>,
}

/// A bucket in one line: identifier, number of vectors, and the two times.
pub open spec fn bucket_line(b: BucketView) -> Seq<char> {
    "Bucket: ID "@ + crate::paths::decimal(b.id as nat) + ", vectors: "@ + crate::paths::decimal(
        b.vectors.len(),
    ) + ", created: "@ + crate::paths::signed_decimal(b.created_at as int) + ", updated: "@
        + crate::paths::signed_decimal(b.updated_at as int)
}

/// The vectors that share one hash value, in insertion order.
pub struct Bucket {
    pub id: u64,
    pub vectors_controller: VectorController,
    pub created_at: i64,
    pub updated_at: i64,
}

impl View for Bucket {
    type V = BucketView;

    open spec fn view(&self) -> BucketView {
        BucketView {
            id: self.id,
            created_at: self.created_at,
            updated_at: self.updated_at,
            vectors: self.vectors_controller.views(),
        }
    }
}

impl Bucket {
    /// Every vector is well formed.
    pub open spec fn wf(&self) -> bool {
        self.vectors_controller.wf()
    }

    /// An empty bucket created at time `now`.
    pub fn new_at(id: u64, now: i64) -> (b: Bucket)
        ensures
            b@ == (BucketView { id, created_at: now, updated_at: now, vectors: Seq::empty() }),
            b.wf(),
    {
        Bucket { id, vectors_controller: VectorController::new(), created_at: now, updated_at: now }
    }

    /// An empty bucket created now.
    pub fn new(id: u64) -> (b: Bucket)
        ensures
            b@.id == id,
            b@.vectors == Seq::<VectorView>::empty(),
            b@.created_at == b@.updated_at,
            b.wf(),
    {
        let now = now_timestamp();
        Bucket::new_at(id, now)
    }

    /// Appends a new vector stamped `now` and returns its identifier.
    pub fn add_vector_at(&mut self, embedding: Vec<u32>, metadata: Metadata, now: i64) -> (r: Result<
        u64,
        DbError,
    >)
        requires
            old(self).wf(),
            metadata.wf(),
        ensures
            final(self).wf(),
            r == Ok::<u64, DbError>(vector_id(embedding@, now, metadata.pairs())),
            final(self)@ == (BucketView {
                updated_at: now,
                vectors: old(self)@.vectors.push(
                    VectorView {
                        data: embedding@,
                        timestamp: now,
                        metadata: metadata.pairs(),
                        id: vector_id(embedding@, now, metadata.pairs()),
                    },
                ),
                ..old(self)@
            }),
    {
        let r = self.vectors_controller.add_vector_at(Some(embedding), Some(metadata), None, None, now);
        self.updated_at = now;
        r
    }

    /// Appends a vector that already has its identifier, at time `now`.
    pub fn add_existing(&mut self, v: Vector, now: i64) -> (id: u64)
        requires
            old(self).wf(),
            v.wf(),
        ensures
            final(self).wf(),
            id == v@.id,
            final(self)@ == (BucketView {
                updated_at: now,
                vectors: old(self)@.vectors.push(v@),
                ..old(self)@
            }),
    {
        let id = v.hash_id();
        let _ = self.vectors_controller.add_vector_at(None, None, None, Some(v), now);
        self.updated_at = now;
        id
    }

    /// Appends a new vector stamped with the current time and returns its identifier.
    pub fn add_vector(&mut self, embedding: Vec<u32>, metadata: Metadata) -> (r: Result<u64, DbError>)
        requires
            old(self).wf(),
            metadata.wf(),
        ensures
            final(self).wf(),
            exists|now: i64|
                {
                    &&& r == Ok::<u64, DbError>(vector_id(embedding@, now, metadata.pairs()))
                    &&& final(self)@ == (BucketView {
                        updated_at: now,
                        vectors: old(self)@.vectors.push(
                            VectorView {
                                data: embedding@,
                                timestamp: now,
                                metadata: metadata.pairs(),
                                id: vector_id(embedding@, now, metadata.pairs()),
                            },
                        ),
                        ..old(self)@
                    })
                },
    {
        let now = now_timestamp();
        self.add_vector_at(embedding, metadata, now)
    }

    /// Removes the first vector with identifier `vector_id`, at time `now`.
    pub fn remove_vector_at(&mut self, vector_id: u64, now: i64) -> (r: Result<(), DbError>)
        requires
            old(self).wf(),
        ensures
            final(self).wf(),
            holds_id(old(self)@.vectors, vector_id) ==> r == Ok::<(), DbError>(()) && final(self)@ == (
            BucketView {
                updated_at: now,
                vectors: old(self)@.vectors.remove(first_index(old(self)@.vectors, vector_id)),
                ..old(self)@
            }),
            !holds_id(old(self)@.vectors, vector_id) ==> r == Err::<(), DbError>(DbError::NotFound)
                && final(self)@ == old(self)@,
    {
        match self.vectors_controller.remove_vector(vector_id) {
            Ok(_) => {
                self.updated_at = now;
                Ok(())
            },
            Err(e) => Err(e),
        }
    }

    /// Removes the first vector with identifier `vector_id`.
    pub fn remove_vector(&mut self, vector_id: u64) -> (r: Result<(), DbError>)
        requires
            old(self).wf(),
        ensures
            final(self).wf(),
            holds_id(old(self)@.vectors, vector_id) ==> r == Ok::<(), DbError>(()) && final(self)@.vectors
                == old(self)@.vectors.remove(first_index(old(self)@.vectors, vector_id))
                && final(self)@.id == old(self)@.id && final(self)@.created_at == old(self)@.created_at,
            !holds_id(old(self)@.vectors, vector_id) ==> r == Err::<(), DbError>(DbError::NotFound)
                && final(self)@ == old(self)@,
    {
        let now = now_timestamp();
        self.remove_vector_at(vector_id, now)
    }

    /// Whether some vector has identifier `vector_id`.
    pub fn contains_vector(&self, vector_id: u64) -> (b: bool)
        ensures
            b == holds_id(self@.vectors, vector_id),
    {
        self.vectors_controller.get_vector_by_id(vector_id).is_some()
    }

    /// The number of vectors.
    pub fn size(&self) -> (n: usize)
        ensures
            n == self@.vectors.len(),
    {
        match &self.vectors_controller.vectors {
            Some(vectors) => vectors.len(),
            None => 0,
        }
    }

    /// The first vector with identifier `vector_id`.
    pub fn get_vector(&self, vector_id: u64) -> (r: Option<&Vector>)
        ensures
            match r {
                Some(v) => holds_id(self@.vectors, vector_id) && v@ == self@.vectors[first_index(
                    self@.vectors,
                    vector_id,
                )] && (self.wf() ==> v.wf()),
                None => !holds_id(self@.vectors, vector_id),
            },
    {
        self.vectors_controller.get_vector_by_id(vector_id)
    }

    /// The best `k` vectors by score, as pairs of in-bucket index and score. `scores`
    /// gives each vector's similarity to the query, in the bucket's order.
    pub fn find_similar(&self, scores: &Vec<u32>, k: usize) -> (r: Result<Vec<(usize, u32)>, DbError>)
        ensures
            match r {
                Ok(hits) => Ok::<Seq<(usize, u32)>, DbError>(hits@),
                Err(e) => Err::<Seq<(usize, u32)>, DbError>(e),
            } == similarity_outcome(self@.vectors.len(), scores@, k as int),
    {
        self.vectors_controller.find_most_similar(scores, k)
    }

    /// The identifiers of the vectors whose metadata holds every entry of `filters`.
    pub fn filter_by_metadata(&self, filters: &Metadata) -> (ids: Vec<u64>)
        requires
            self.wf(),
            filters.wf(),
        ensures
            ids@ == matching_ids(self@.vectors, filters@),
    {
        self.vectors_controller.filter_by_metadata(filters)
    }

    /// Replaces the components and/or the metadata of the first vector with identifier
    /// `vector_id`, at time `now`. The vector stays in this bucket.
    pub fn update_vector_at(
        &mut self,
        vector_id: u64,
        new_embedding: Option<Vec<u32>>,
        new_metadata: Option<Metadata>,
        now: i64,
    ) -> (r: Result<(), DbError>)
        requires
            old(self).wf(),
            new_metadata matches Some(m) ==> m.wf(),
        ensures
            final(self).wf(),
            holds_id(old(self)@.vectors, vector_id) ==> r == Ok::<(), DbError>(()) && final(self)@ == (
            BucketView {
                updated_at: now,
                vectors: old(self)@.vectors.update(
                    first_index(old(self)@.vectors, vector_id),
                    updated_view(
                        old(self)@.vectors[first_index(old(self)@.vectors, vector_id)],
                        opt_data(new_embedding),
                        opt_pairs(new_metadata),
                    ),
                ),
                ..old(self)@
            }),
            !holds_id(old(self)@.vectors, vector_id) ==> r == Err::<(), DbError>(DbError::NotFound)
                && final(self)@ == old(self)@,
    {
        match self.vectors_controller.update_vector(vector_id, new_embedding, new_metadata) {
            Ok(_) => {
                self.updated_at = now;
                Ok(())
            },
            Err(e) => Err(e),
        }
    }

    /// Replaces the components and/or the metadata of the first vector with identifier
    /// `vector_id`. The vector stays in this bucket.
    pub fn update_vector(
        &mut self,
        vector_id: u64,
        new_embedding: Option<Vec<u32>>,
        new_metadata: Option<Metadata>,
    ) -> (r: Result<(), DbError>)
        requires
            old(self).wf(),
            new_metadata matches Some(m) ==> m.wf(),
        ensures
            final(self).wf(),
            holds_id(old(self)@.vectors, vector_id) ==> r == Ok::<(), DbError>(()) && final(self)@.vectors
                == old(self)@.vectors.update(
                first_index(old(self)@.vectors, vector_id),
                updated_view(
                    old(self)@.vectors[first_index(old(self)@.vectors, vector_id)],
                    opt_data(new_embedding),
                    opt_pairs(new_metadata),
                ),
            ) && final(self)@.id == old(self)@.id && final(self)@.created_at == old(self)@.created_at,
            !holds_id(old(self)@.vectors, vector_id) ==> r == Err::<(), DbError>(DbError::NotFound)
                && final(self)@ == old(self)@,
    {
        let now = now_timestamp();
        self.update_vector_at(vector_id, new_embedding, new_metadata, now)
    }

    /// Takes the first vector with identifier `vector_id` out of the bucket, at time `now`.
    pub fn remove_and_get_vector_at(&mut self, vector_id: u64, now: i64) -> (r: Result<Vector, DbError>)
        requires
            old(self).wf(),
        ensures
            final(self).wf(),
            match r {
                Ok(v) => holds_id(old(self)@.vectors, vector_id) && v.wf() && v@ == old(self)@.vectors[first_index(old(self)@.vectors, vector_id)] && final(self)@ == (BucketView {
                    updated_at: now,
                    vectors: old(self)@.vectors.remove(first_index(old(self)@.vectors, vector_id)),
                    ..old(self)@
                }),
                Err(e) => e == DbError::NotFound && !holds_id(old(self)@.vectors, vector_id) && final(self)@ == old(self)@,
            },
    {
        match self.vectors_controller.remove_and_get_vector(vector_id) {
            Ok(v) => {
                self.updated_at = now;
                Ok(v)
            },
            Err(e) => Err(e),
        }
    }

    /// Takes the first vector with identifier `vector_id` out of the bucket.
    pub fn remove_and_get_vector(&mut self, vector_id: u64) -> (r: Result<Vector, DbError>)
        requires
            old(self).wf(),
        ensures
            final(self).wf(),
            match r {
                Ok(v) => holds_id(old(self)@.vectors, vector_id) && v.wf() && v@ == old(self)@.vectors[first_index(old(self)@.vectors, vector_id)] && final(self)@.vectors == old(self)@.vectors.remove(first_index(old(self)@.vectors, vector_id)) && final(self)@.id == old(self)@.id && final(self)@.created_at == old(self)@.created_at,
                Err(e) => e == DbError::NotFound && !holds_id(old(self)@.vectors, vector_id) && final(self)@ == old(self)@,
            },
    {
        let now = now_timestamp();
        self.remove_and_get_vector_at(vector_id, now)
    }

    /// The bucket in one line: identifier, number of vectors, and the two times.
    pub fn to_string(&self) -> (s: String)
        ensures
            s@ == bucket_line(self@),
    {
        let id = crate::paths::decimal_string(self.id);
        let size = crate::paths::decimal_string(self.size() as u64);
        let created = crate::paths::signed_decimal_string(self.created_at);
        let updated = crate::paths::signed_decimal_string(self.updated_at);
        "Bucket: ID ".to_owned().concat(id.as_str()).concat(", vectors: ").concat(size.as_str()).concat(
            ", created: ",
        ).concat(created.as_str()).concat(", updated: ").concat(updated.as_str())
    }

    pub fn hash_id(&self) -> (id: u64)
        ensures
            id == self@.id,
    {
        self.id
    }

    pub fn set_hash_id(&mut self, id: u64)
        ensures
            final(self)@ == (BucketView { id, ..old(self)@ }),
            final(self).wf() == old(self).wf(),
    {
        self.id = id;
    }
}

} // verus!
