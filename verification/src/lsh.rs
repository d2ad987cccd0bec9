//! Distance metrics and the hasher's parameters. The projections themselves are
//! floating-point work done outside; the engine folds the cells they give.

use vstd::prelude::*;
use std::collections::HashMap;
use crate::clock::fresh_seed;
use crate::error::DbError;
use crate::fold::fold64_signed;
use crate::fold::fold_cells;
use crate::text::str_eq;

verus! {

/// Distance metric that a collection's hasher projects under.
#[derive(Clone, Copy, Debug, PartialEq, Eq, Structural)]
pub enum LSHMetric {
    Euclidean,
    Cosine,
    Manhattan,
}

/// The metric that a stored name stands for, if any.
pub open spec fn metric_of_name(s: Seq<char>) -> Result<LSHMetric, DbError> {
    if s == "Euclidean"@ {
        Ok(LSHMetric::Euclidean)
    } else if s == "Cosine"@ {
        Ok(LSHMetric::Cosine)
    } else if s == "Manhattan"@ {
        Ok(LSHMetric::Manhattan)
    } else {
        Err(DbError::InvalidArgument)
    }
}

impl LSHMetric {
    /// The name under which the metric is stored and sent.
    pub open spec fn name(self) -> Seq<char> {
        match self {
            LSHMetric::Euclidean => "Euclidean"@,
            LSHMetric::Cosine => "Cosine"@,
            LSHMetric::Manhattan => "Manhattan"@,
        }
    }

    pub fn to_string(&self) -> (s: String)
        ensures
            s@ == self.name(),
    {
        match self {
            LSHMetric::Euclidean => "Euclidean".to_owned(),
            LSHMetric::Cosine => "Cosine".to_owned(),
            LSHMetric::Manhattan => "Manhattan".to_owned(),
        }
    }

    /// Reads a metric back from its name; any other text is an invalid argument.
    pub fn from_string(s: &str) -> (r: Result<LSHMetric, DbError>)
        ensures
            r == metric_of_name(s@),
    {
        if str_eq(s, "Euclidean") {
            Ok(LSHMetric::Euclidean)
        } else if str_eq(s, "Cosine") {
            Ok(LSHMetric::Cosine)
        } else if str_eq(s, "Manhattan") {
            Ok(LSHMetric::Manhattan)
        } else {
            Err(DbError::InvalidArgument)
        }
    }
}

/// A vector together with the cells that the collection's hasher projects it to: one
/// signed cell per projection, `floor((s_i + offset_i) / width)`. The projections are
/// floating-point work done outside; the engine takes the cells as given.
pub struct Embedding {
    pub data: Vec<u32>,
    pub cells: Vec<i64>,
}

/// The parameters of a locality-sensitive hasher. The projection vectors and offsets
/// are drawn from a generator seeded with `seed`, so the parameters determine them.
/// `bucket_width` is an IEEE-754 single-precision bit pattern.
#[derive(Clone, Copy, Debug)]
pub struct LSH {
    pub num_hashes: usize,
    pub dimension: usize,
    pub bucket_width: u32,
    pub metric: LSHMetric,
    pub seed: u64,
}

/// What hashing a vector of `len` components with the given cells returns.
pub open spec fn hash_outcome(lsh: LSH, len: nat, cells: Seq<i64>) -> Result<u64, DbError> {
    if len != lsh.dimension {
        Err(DbError::DimensionMismatch)
    } else if cells.len() != lsh.num_hashes {
        Err(DbError::InvalidArgument)
    } else {
        Ok(fold64_signed(cells))
    }
}

impl LSH {
    /// A hasher with the given parameters; without a seed, a fresh one is drawn.
    pub fn new(
        dimension: usize,
        num_hashes: usize,
        bucket_width: u32,
        metric: LSHMetric,
        seed: Option<u64>,
    ) -> (lsh: LSH)
        ensures
            lsh.dimension == dimension,
            lsh.num_hashes == num_hashes,
            lsh.bucket_width == bucket_width,
            lsh.metric == metric,
            seed matches Some(s) ==> lsh.seed == s,
    {
        let seed_val = match seed {
            Some(s) => s,
            None => fresh_seed(),
        };
        LSH { num_hashes, dimension, bucket_width, metric, seed: seed_val }
    }

    /// The bucket identifier of a vector: the fold of its cells. A vector of another
    /// length than the hasher's dimension is a dimension mismatch; a cell list of
    /// another length than the number of projections is an invalid argument.
    pub fn hash(&self, vector: &[u32], cells: &[i64]) -> (r: Result<u64, DbError>)
        ensures
            r == hash_outcome(*self, vector@.len(), cells@),
    {
        if vector.len() != self.dimension {
            Err(DbError::DimensionMismatch)
        } else if cells.len() != self.num_hashes {
            Err(DbError::InvalidArgument)
        } else {
            Ok(fold_cells(cells))
        }
    }

    /// The first `num_hashes` cells, each as an unsigned word, as far as the hasher has
    /// projections and cells are given.
    pub fn multi_hash(&self, cells: &[i64], num_hashes: usize) -> (hashes: Vec<u64>)
        ensures
            hashes@.len() == vstd::math::min(
                vstd::math::min(num_hashes as int, self.num_hashes as int),
                cells@.len() as int,
            ),
            forall|i: int| 0 <= i < hashes@.len() ==> hashes@[i] == (#[trigger] cells@[i]) as u64,
    {
        let mut hashes: Vec<u64> = Vec::new();
        let mut i: usize = 0;
        while i < num_hashes && i < self.num_hashes && i < cells.len()
            invariant
                0 <= i <= num_hashes,
                i <= self.num_hashes,
                i <= cells@.len(),
                hashes@.len() == i,
                forall|j: int| 0 <= j < i ==> hashes@[j] == (#[trigger] cells@[j]) as u64,
            decreases cells@.len() - i,
        {
            let w: u64 = #[verifier::truncate] (cells[i] as u64);
            hashes.push(w);
            i += 1;
        }
        hashes
    }

    /// The vector identifiers listed under the query's own bucket.
    pub fn find_similar_buckets(
        &self,
        query: &Embedding,
        all_buckets: &HashMap<u64, Vec<u64>>,
    ) -> (r: Result<Vec<u64>, DbError>)
        ensures
            match hash_outcome(*self, query.data@.len(), query.cells@) {
                Ok(h) => r is Ok && r->Ok_0@ == (if all_buckets@.contains_key(h) {
                    all_buckets@[h]@
                } else {
                    Seq::empty()
                }),
                Err(e) => r == Err::<Vec<u64>, DbError>(e),
            },
    {
        match self.hash(query.data.as_slice(), query.cells.as_slice()) {
            Ok(h) => {
                match all_buckets.get(&h) {
                    Some(ids) => {
                        let out = ids.clone();
                        assert(out@ =~= ids@);
                        Ok(out)
                    },
                    None => Ok(Vec::new()),
                }
            },
            Err(e) => Err(e),
        }
    }
}

/// A metric's name reads back as that metric.
pub proof fn lemma_metric_name_round_trip(m: LSHMetric)
    ensures
        metric_of_name(m.name()) == Ok::<LSHMetric, DbError>(m),
{
    reveal_strlit("Euclidean");
    reveal_strlit("Cosine");
    reveal_strlit("Manhattan");
    assert("Euclidean"@.len() == 9);
    assert("Cosine"@.len() == 6);
    assert("Manhattan"@[0] == 'M');
    assert("Euclidean"@[0] == 'E');
}

} // verus!
