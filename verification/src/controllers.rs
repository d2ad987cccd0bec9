//! The ordered container of vectors that a bucket holds.

use vstd::prelude::*;
use crate::clock::now_timestamp;
use crate::error::DbError;
use crate::metadata::Metadata;
use crate::metadata::is_superset;
use crate::metadata::pairs_map;
use crate::objects::Vector;
use crate::objects::VectorView;
use crate::objects::vector_id;
use crate::score::attach_scores;
use crate::score::best;
use crate::score::lemma_best;
use crate::score::top_k;
use crate::score::with_scores;

verus! {

/// Some vector of `vs` has identifier `id`.
pub open spec fn holds_id(vs: Seq<VectorView>, id: u64) -> bool {
    exists|i: int| 0 <= i < vs.len() && (#[trigger] vs[i]).id == id
}

/// Position `i` is the first in `vs` whose vector has identifier `id`.
pub open spec fn is_first(vs: Seq<VectorView>, id: u64, i: int) -> bool {
    &&& 0 <= i < vs.len()
    &&& vs[i].id == id
    &&& forall|j: int| 0 <= j < i ==> (#[trigger] vs[j]).id != id
}

/// The first position in `vs` whose vector has identifier `id`.
pub open spec fn first_index(vs: Seq<VectorView>, id: u64) -> int {
    choose|i: int| is_first(vs, id, i)
}

pub proof fn lemma_first_index(vs: Seq<VectorView>, id: u64, i: int)
    requires
        is_first(vs, id, i),
    ensures
        holds_id(vs, id),
        first_index(vs, id) == i,
{
    let j = first_index(vs, id);
    assert(is_first(vs, id, j));
    if j < i {
        assert(vs[j].id != id);
    } else if i < j {
        assert(vs[i].id != id);
    }
}

/// If some vector has the identifier, there is a first one.
pub proof fn lemma_first_exists(vs: Seq<VectorView>, id: u64)
    requires
        holds_id(vs, id),
    ensures
        is_first(vs, id, first_index(vs, id)),
{
    let w = choose|i: int| 0 <= i < vs.len() && (#[trigger] vs[i]).id == id;
    lemma_least(vs, id, w);
}

proof fn lemma_least(vs: Seq<VectorView>, id: u64, w: int)
    requires
        0 <= w < vs.len(),
        vs[w].id == id,
    ensures
        exists|i: int| is_first(vs, id, i),
    decreases w,
{
    if exists|j: int| 0 <= j < w && (#[trigger] vs[j]).id == id {
        let j = choose|j: int| 0 <= j < w && (#[trigger] vs[j]).id == id;
        lemma_least(vs, id, j);
    } else {
        assert(is_first(vs, id, w));
    }
}

/// The components given, as a plain sequence.
pub open spec fn opt_data(e: Option<Vec<u32>>) -> Option<Seq<u32>> {
    match e {
        Some(d) => Some(d@),
        None => None,
    }
}

/// The metadata given, as a plain list of entries.
pub open spec fn opt_pairs(m: Option<Metadata>) -> Option<Seq<(Seq<char>, Seq<char>)>> {
    match m {
        Some(m) => Some(m.pairs()),
        None => None,
    }
}

/// The vector `v` after an update: new components and new metadata where they are given.
pub open spec fn updated_view(
    v: VectorView,
    new_data: Option<Seq<u32>>,
    new_metadata: Option<Seq<(Seq<char>, Seq<char>)>>,
) -> VectorView {
    VectorView {
        data: match new_data {
            Some(d) => d,
            None => v.data,
        },
        metadata: match new_metadata {
            Some(m) => m,
            None => v.metadata,
        },
        ..v
    }
}

/// The vector that `add_vector` appends: the one given, or a new one built from the
/// parts and stamped `now`.
pub open spec fn added_view(
    embedding: Option<Vec<u32>>,
    metadata: Option<Metadata>,
    id: Option<u64>,
    vector: Option<Vector>,
    now: i64,
) -> VectorView {
    match vector {
        Some(v) => v@,
        None => {
            let data = match embedding {
                Some(e) => e@,
                None => Seq::empty(),
            };
            let pairs = match metadata {
                Some(m) => m.pairs(),
                None => Seq::empty(),
            };
            VectorView {
                data,
                timestamp: now,
                metadata: pairs,
                id: match id {
                    Some(i) => i,
                    None => vector_id(data, now, pairs),
                },
            }
        },
    }
}

/// The identifiers of the vectors of `vs` whose metadata holds every entry of
/// `filters`, in the order of `vs`.
pub open spec fn matching_ids(vs: Seq<VectorView>, filters: Map<Seq<char>, Seq<char>>) -> Seq<u64>
    decreases vs.len(),
{
    if vs.len() == 0 {
        Seq::empty()
    } else if is_superset(pairs_map(vs.last().metadata), filters) {
        matching_ids(vs.drop_last(), filters).push(vs.last().id)
    } else {
        matching_ids(vs.drop_last(), filters)
    }
}

/// An identifier is reported exactly when a vector with that identifier matches.
pub proof fn lemma_matching_ids_exact(vs: Seq<VectorView>, filters: Map<Seq<char>, Seq<char>>, id: u64)
    ensures
        matching_ids(vs, filters).contains(id) <==> exists|i: int|
            0 <= i < vs.len() && (#[trigger] vs[i]).id == id && is_superset(
                pairs_map(vs[i].metadata),
                filters,
            ),
    decreases vs.len(),
{
    if vs.len() > 0 {
        let rest = vs.drop_last();
        lemma_matching_ids_exact(rest, filters, id);
        let found = matching_ids(vs, filters);
        let last = vs.last();
        if found.contains(id) {
            if matching_ids(rest, filters).contains(id) {
                let i = choose|i: int|
                    0 <= i < rest.len() && (#[trigger] rest[i]).id == id && is_superset(
                        pairs_map(rest[i].metadata),
                        filters,
                    );
                assert(vs[i].id == id);
            } else {
                let t = choose|t: int| 0 <= t < found.len() && found[t] == id;
                assert(t == found.len() - 1);
                assert(vs[vs.len() - 1].id == id);
            }
        }
        if exists|i: int|
            0 <= i < vs.len() && (#[trigger] vs[i]).id == id && is_superset(
                pairs_map(vs[i].metadata),
                filters,
            ) {
            let i = choose|i: int|
                0 <= i < vs.len() && (#[trigger] vs[i]).id == id && is_superset(
                    pairs_map(vs[i].metadata),
                    filters,
                );
            if i < vs.len() - 1 {
                assert(rest[i].id == id);
                assert(matching_ids(rest, filters).contains(id));
                let t = choose|t: int|
                    0 <= t < matching_ids(rest, filters).len() && matching_ids(rest, filters)[t] == id;
                assert(found[t] == id);
            } else {
                assert(found[found.len() - 1] == id);
            }
        }
    }
}

/// What a similarity scan over `n` vectors returns for the given scores: the best `k`
/// positions with their scores; nothing to scan is `NotFound`, and a score list of
/// another length is an invalid argument.
pub open spec fn similarity_outcome(n: nat, scores: Seq<u32>, k: int) -> Result<
    Seq<(usize, u32)>,
    DbError,
> {
    if n == 0 {
        Err(DbError::NotFound)
    } else if scores.len() != n {
        Err(DbError::InvalidArgument)
    } else {
        Ok(with_scores(scores, best(scores, k)))
    }
}

/// The best `k` of `vectors` by score, as pairs of position and score. `scores` gives
/// each vector's similarity to the query, in order. Higher scores come first; among
/// equal scores the earlier position comes first.
pub fn find_most_similar(scores: &Vec<u32>, vectors: &[Vector], k: usize) -> (r: Result<
    Vec<(usize, u32)>,
    DbError,
>)
    ensures
        match r {
            Ok(hits) => Ok::<Seq<(usize, u32)>, DbError>(hits@),
            Err(e) => Err::<Seq<(usize, u32)>, DbError>(e),
        } == similarity_outcome(vectors@.len(), scores@, k as int),
{
    if vectors.len() == 0 {
        return Err(DbError::NotFound);
    }
    if scores.len() != vectors.len() {
        return Err(DbError::InvalidArgument);
    }
    let picked = top_k(scores, k);
    proof {
        lemma_best(scores@, k as int, picked@);
    }
    Ok(attach_scores(scores, &picked))
}

/// An ordered container of vectors.
pub struct VectorController {
    pub vectors: Option<Vec<Vector>>,
}

impl VectorController {
    /// The vectors in insertion order; a missing list is an empty one.
    pub open spec fn items(&self) -> Seq<Vector> {
        match self.vectors {
            Some(v) => v@,
            None => Seq::empty(),
        }
    }

    /// The vectors as plain values.
    pub open spec fn views(&self) -> Seq<VectorView> {
        Seq::new(self.items().len(), |i: int| self.items()[i]@)
    }

    /// Every vector is well formed.
    pub open spec fn wf(&self) -> bool {
        forall|i: int| 0 <= i < self.items().len() ==> (#[trigger] self.items()[i]).wf()
    }

    /// An empty container.
    pub fn new() -> (c: VectorController)
        ensures
            c.vectors is Some,
            c.views() == Seq::<VectorView>::empty(),
            c.wf(),
    {
        let c = VectorController { vectors: Some(Vec::new()) };
        assert(c.views() =~= Seq::<VectorView>::empty());
        c
    }

    /// Appends a vector: the one given, or a new one built from the parts and stamped
    /// `now`, with the identifier given or else computed from its content.
    pub fn add_vector_at(
        &mut self,
        embedding: Option<Vec<u32>>,
        metadata: Option<Metadata>,
        vector_id: Option<u64>,
        vector: Option<Vector>,
        now: i64,
    ) -> (r: Result<u64, DbError>)
        requires
            old(self).wf(),
            metadata matches Some(m) ==> m.wf(),
            vector matches Some(v) ==> v.wf(),
        ensures
            final(self).wf(),
            final(self).views() == old(self).views().push(
                added_view(embedding, metadata, vector_id, vector, now),
            ),
            r == Ok::<u64, DbError>(added_view(embedding, metadata, vector_id, vector, now).id),
    {
        let final_vector = match vector {
            Some(v) => v,
            None => {
                let mut new_vector = Vector::new(embedding, Some(now), metadata);
                match vector_id {
                    Some(id) => {
                        new_vector.set_hash_id(id);
                    },
                    None => {},
                }
                new_vector
            },
        };
        let id = final_vector.hash_id();
        match &mut self.vectors {
            Some(vecs) => {
                vecs.push(final_vector);
            },
            None => {
                self.vectors = Some(vec![final_vector]);
            },
        }
        assert(self.views() =~= old(self).views().push(
            added_view(embedding, metadata, vector_id, vector, now),
        ));
        Ok(id)
    }

    /// Appends a vector: the one given, or a new one built from the parts and stamped
    /// with the current time.
    pub fn add_vector(
        &mut self,
        embedding: Option<Vec<u32>>,
        metadata: Option<Metadata>,
        vector_id: Option<u64>,
        vector: Option<Vector>,
    ) -> (r: Result<u64, DbError>)
        requires
            old(self).wf(),
            metadata matches Some(m) ==> m.wf(),
            vector matches Some(v) ==> v.wf(),
        ensures
            final(self).wf(),
            exists|now: i64|
                {
                    &&& final(self).views() == old(self).views().push(
                        added_view(embedding, metadata, vector_id, vector, now),
                    )
                    &&& r == Ok::<u64, DbError>(
                        added_view(embedding, metadata, vector_id, vector, now).id,
                    )
                },
    {
        let now = now_timestamp();
        self.add_vector_at(embedding, metadata, vector_id, vector, now)
    }

    /// The first position whose vector has identifier `id`.
    fn position(&self, id: u64) -> (r: Option<usize>)
        ensures
            match r {
                Some(i) => is_first(self.views(), id, i as int) && holds_id(self.views(), id)
                    && first_index(self.views(), id) == i,
                None => !holds_id(self.views(), id),
            },
    {
        match &self.vectors {
            Some(vectors) => {
                let mut i: usize = 0;
                while i < vectors.len()
                    invariant
                        0 <= i <= vectors@.len(),
                        self.vectors == Some(*vectors),
                        forall|j: int| 0 <= j < i ==> (#[trigger] self.views()[j]).id != id,
                    decreases vectors.len() - i,
                {
                    if vectors[i].hash_id() == id {
                        proof {
                            lemma_first_index(self.views(), id, i as int);
                        }
                        return Some(i);
                    }
                    i += 1;
                }
                None
            },
            None => None,
        }
    }

    /// Removes the first vector with identifier `id`.
    pub fn remove_vector(&mut self, id: u64) -> (r: Result<(), DbError>)
        requires
            old(self).wf(),
        ensures
            final(self).wf(),
            holds_id(old(self).views(), id) ==> r == Ok::<(), DbError>(()) && final(self).views() == old(self).views().remove(first_index(old(self).views(), id)),
            !holds_id(old(self).views(), id) ==> r == Err::<(), DbError>(DbError::NotFound) && final(self).views() == old(self).views(),
    {
        match self.remove_and_get_vector(id) {
            Ok(_) => Ok(()),
            Err(e) => Err(e),
        }
    }

    /// Takes the first vector with identifier `id` out of the container.
    pub fn remove_and_get_vector(&mut self, id: u64) -> (r: Result<Vector, DbError>)
        requires
            old(self).wf(),
        ensures
            final(self).wf(),
            match r {
                Ok(v) => holds_id(old(self).views(), id) && v.wf() && v@ == old(self).views()[first_index(old(self).views(), id)] && final(self).views() == old(self).views().remove(first_index(old(self).views(), id)),
                Err(e) => e == DbError::NotFound && !holds_id(old(self).views(), id) && final(self).views() == old(self).views(),
            },
    {
        match self.position(id) {
            Some(pos) => {
                let ghost before = self.items();
                match &mut self.vectors {
                    Some(vectors) => {
                        let v = vectors.remove(pos);
                        proof {
                            assert(self.items() == before.remove(pos as int));
                            assert(self.views() =~= old(self).views().remove(pos as int));
                            assert forall|i: int| 0 <= i < self.items().len() implies (
                            #[trigger] self.items()[i]).wf() by {
                                let i0 = if i < pos { i } else { i + 1 };
                                assert(self.items()[i] == before[i0]);
                            }
                            assert(v == before[pos as int]);
                        }
                        Ok(v)
                    },
                    None => Err(DbError::NotFound),
                }
            },
            None => Err(DbError::NotFound),
        }
    }

    /// Replaces the components and/or the metadata of the first vector with identifier `id`.
    pub fn update_vector(
        &mut self,
        id: u64,
        new_embedding: Option<Vec<u32>>,
        new_metadata: Option<Metadata>,
    ) -> (r: Result<(), DbError>)
        requires
            old(self).wf(),
            new_metadata matches Some(m) ==> m.wf(),
        ensures
            final(self).wf(),
            holds_id(old(self).views(), id) ==> r == Ok::<(), DbError>(()) && final(self).views() == old(self).views().update(
                first_index(old(self).views(), id),
                updated_view(
                    old(self).views()[first_index(old(self).views(), id)],
                    opt_data(new_embedding),
                    opt_pairs(new_metadata),
                ),
            ),
            !holds_id(old(self).views(), id) ==> r == Err::<(), DbError>(DbError::NotFound) && final(self).views() == old(self).views(),
    {
        match self.position(id) {
            Some(pos) => {
                let ghost before = self.items();
                match &mut self.vectors {
                    Some(vectors) => {
                        match new_embedding {
                            Some(embedding) => {
                                vectors[pos].data = embedding;
                            },
                            None => {},
                        }
                        match new_metadata {
                            Some(metadata) => {
                                vectors[pos].metadata = metadata;
                            },
                            None => {},
                        }
                    },
                    None => {},
                }
                proof {
                    assert(self.items().len() == before.len());
                    assert forall|i: int| 0 <= i < self.items().len() && i != pos implies (
                    #[trigger] self.items()[i]) == before[i] by {}
                    assert(self.views() =~= old(self).views().update(
                        pos as int,
                        updated_view(
                            old(self).views()[pos as int],
                            opt_data(new_embedding),
                            opt_pairs(new_metadata),
                        ),
                    ));
                    assert forall|i: int| 0 <= i < self.items().len() implies (
                    #[trigger] self.items()[i]).wf() by {
                        if i != pos {
                            assert(self.items()[i] == before[i]);
                        } else {
                            assert(before[i].wf());
                        }
                    }
                }
                Ok(())
            },
            None => Err(DbError::NotFound),
        }
    }

    /// Adds entries to the metadata of the first vector with identifier `id`; a key
    /// already present takes the new value.
    pub fn add_metadata_to_vector(&mut self, id: u64, new_metadata: Metadata) -> (r: Result<(), DbError>)
        requires
            old(self).wf(),
            new_metadata.wf(),
        ensures
            final(self).wf(),
            final(self).views().len() == old(self).views().len(),
            holds_id(old(self).views(), id) ==> {
                let pos = first_index(old(self).views(), id);
                &&& r == Ok::<(), DbError>(())
                &&& pairs_map(final(self).views()[pos].metadata) == pairs_map(
                    old(self).views()[pos].metadata,
                ).union_prefer_right(new_metadata@)
                &&& final(self).views()[pos].data == old(self).views()[pos].data
                &&& final(self).views()[pos].id == id
                &&& final(self).views()[pos].timestamp == old(self).views()[pos].timestamp
                &&& forall|i: int|
                    0 <= i < old(self).views().len() && i != pos ==> (#[trigger] final(self).views()[i]) == old(self).views()[i]
            },
            !holds_id(old(self).views(), id) ==> r == Err::<(), DbError>(DbError::NotFound) && final(self).views() == old(self).views(),
    {
        match self.position(id) {
            Some(pos) => {
                let ghost before = self.items();
                match &mut self.vectors {
                    Some(vectors) => {
                        vectors[pos].metadata.extend(&new_metadata);
                    },
                    None => {},
                }
                proof {
                    assert(self.items().len() == before.len());
                    assert forall|i: int| 0 <= i < self.items().len() && i != pos implies (
                    #[trigger] self.items()[i]) == before[i] by {}
                    assert forall|i: int| 0 <= i < self.items().len() implies (
                    #[trigger] self.items()[i]).wf() by {
                        if i != pos {
                            assert(self.items()[i] == before[i]);
                        }
                    }
                    assert forall|i: int|
                        0 <= i < old(self).views().len() && i != pos implies (#[trigger] self.views()[i])
                        == old(self).views()[i] by {
                        assert(self.items()[i] == before[i]);
                    }
                }
                Ok(())
            },
            None => Err(DbError::NotFound),
        }
    }

    /// Drops one key from the metadata of the first vector with identifier `id`.
    pub fn remove_metadata_from_vector(&mut self, id: u64, key: &str) -> (r: Result<(), DbError>)
        requires
            old(self).wf(),
        ensures
            final(self).wf(),
            final(self).views().len() == old(self).views().len(),
            holds_id(old(self).views(), id) ==> {
                let pos = first_index(old(self).views(), id);
                &&& r == Ok::<(), DbError>(())
                &&& pairs_map(final(self).views()[pos].metadata) == pairs_map(
                    old(self).views()[pos].metadata,
                ).remove(key@)
                &&& final(self).views()[pos].data == old(self).views()[pos].data
                &&& final(self).views()[pos].id == id
                &&& final(self).views()[pos].timestamp == old(self).views()[pos].timestamp
                &&& forall|i: int|
                    0 <= i < old(self).views().len() && i != pos ==> (#[trigger] final(self).views()[i]) == old(self).views()[i]
            },
            !holds_id(old(self).views(), id) ==> r == Err::<(), DbError>(DbError::NotFound) && final(self).views() == old(self).views(),
    {
        match self.position(id) {
            Some(pos) => {
                let ghost before = self.items();
                match &mut self.vectors {
                    Some(vectors) => {
                        vectors[pos].metadata.remove(key);
                    },
                    None => {},
                }
                proof {
                    assert(self.items().len() == before.len());
                    assert forall|i: int| 0 <= i < self.items().len() && i != pos implies (
                    #[trigger] self.items()[i]) == before[i] by {}
                    assert forall|i: int| 0 <= i < self.items().len() implies (
                    #[trigger] self.items()[i]).wf() by {
                        if i != pos {
                            assert(self.items()[i] == before[i]);
                        }
                    }
                    assert forall|i: int|
                        0 <= i < old(self).views().len() && i != pos implies (#[trigger] self.views()[i])
                        == old(self).views()[i] by {
                        assert(self.items()[i] == before[i]);
                    }
                }
                Ok(())
            },
            None => Err(DbError::NotFound),
        }
    }

    /// The best `k` vectors by score, as pairs of position and score. `scores` gives
    /// each vector's similarity to the query, in the container's order. Higher scores
    /// come first; among equal scores the earlier position comes first.
    pub fn find_most_similar(&self, scores: &Vec<u32>, k: usize) -> (r: Result<
        Vec<(usize, u32)>,
        DbError,
    >)
        ensures
            match r {
                Ok(hits) => Ok::<Seq<(usize, u32)>, DbError>(hits@),
                Err(e) => Err::<Seq<(usize, u32)>, DbError>(e),
            } == similarity_outcome(self.views().len(), scores@, k as int),
    {
        match &self.vectors {
            Some(vectors) => find_most_similar(scores, vectors.as_slice(), k),
            None => Err(DbError::NotFound),
        }
    }

    /// The vector at position `index`.
    pub fn get_vector(&self, index: usize) -> (r: Option<&Vector>)
        ensures
            match r {
                Some(v) => index < self.views().len() && v@ == self.views()[index as int] && (self.wf()
                    ==> v.wf()),
                None => index >= self.views().len(),
            },
    {
        match &self.vectors {
            Some(vectors) => {
                if index < vectors.len() {
                    Some(&vectors[index])
                } else {
                    None
                }
            },
            None => None,
        }
    }

    /// The first vector with identifier `id`.
    pub fn get_vector_by_id(&self, id: u64) -> (r: Option<&Vector>)
        ensures
            match r {
                Some(v) => holds_id(self.views(), id) && v@ == self.views()[first_index(
                    self.views(),
                    id,
                )] && (self.wf() ==> v.wf()),
                None => !holds_id(self.views(), id),
            },
    {
        match self.position(id) {
            Some(pos) => self.get_vector(pos),
            None => None,
        }
    }

    /// The identifiers of the vectors whose metadata holds every entry of `filters`, in
    /// the container's order.
    pub fn filter_by_metadata(&self, filters: &Metadata) -> (ids: Vec<u64>)
        requires
            self.wf(),
            filters.wf(),
        ensures
            ids@ == matching_ids(self.views(), filters@),
    {
        let mut result: Vec<u64> = Vec::new();
        match &self.vectors {
            Some(vectors) => {
                let mut i: usize = 0;
                while i < vectors.len()
                    invariant
                        0 <= i <= vectors@.len(),
                        self.vectors == Some(*vectors),
                        self.wf(),
                        filters.wf(),
                        result@ == matching_ids(self.views().take(i as int), filters@),
                    decreases vectors.len() - i,
                {
                    assert(self.items()[i as int].wf());
                    proof {
                        let upto = self.views().take(i + 1);
                        assert(upto.drop_last() =~= self.views().take(i as int));
                        assert(upto.last() == self.views()[i as int]);
                    }
                    if vectors[i].metadata.matches(filters) {
                        result.push(vectors[i].hash_id());
                    }
                    i += 1;
                }
                assert(self.views().take(i as int) == self.views());
            },
            None => {},
        }
        result
    }
}

} // verus!
