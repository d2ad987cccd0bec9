//! Metadata recorded apart from the vectors, by vector identifier.

use vstd::prelude::*;
use crate::error::DbError;
use crate::metadata::is_superset;
use crate::metadata::Metadata;
use crate::text::str_eq;

verus! {

/// The metadata recorded for one vector, by the vector's textual identifier.
pub struct VectorMetadata {
    pub vector_id: String,
    pub data: Metadata,
}

/// A recorded entry as plain values.
pub struct VectorMetadataView {
    pub vector_id: Seq<char>,
    pub data: Map<Seq<char>, Seq<char>>,
}

impl View for VectorMetadata {
    type V = VectorMetadataView;

    open spec fn view(&self) -> VectorMetadataView {
        VectorMetadataView { vector_id: self.vector_id@, data: self.data@ }
    }
}

/// Some entry of `es` is recorded for `id`.
pub open spec fn has_entry(es: Seq<VectorMetadataView>, id: Seq<char>) -> bool {
    exists|i: int| 0 <= i < es.len() && (#[trigger] es[i]).vector_id == id
}

/// The position of the entry recorded for `id`.
pub open spec fn entry_index(es: Seq<VectorMetadataView>, id: Seq<char>) -> int {
    choose|i: int| 0 <= i < es.len() && (#[trigger] es[i]).vector_id == id
}

/// No identifier has two entries.
pub open spec fn entries_distinct(es: Seq<VectorMetadataView>) -> bool {
    forall|i: int, j: int|
        0 <= i < es.len() && 0 <= j < es.len() && i != j ==> (#[trigger] es[i]).vector_id != (
        #[trigger] es[j]).vector_id
}

/// The identifiers of the entries whose metadata holds every entry of `filters`, in
/// recorded order.
pub open spec fn matching_entries(es: Seq<VectorMetadataView>, filters: Map<Seq<char>, Seq<char>>) -> Seq<
    Seq<char>,
>
    decreases es.len(),
{
    if es.len() == 0 {
        Seq::empty()
    } else if is_superset(es.last().data, filters) {
        matching_entries(es.drop_last(), filters).push(es.last().vector_id)
    } else {
        matching_entries(es.drop_last(), filters)
    }
}

/// Metadata recorded apart from the vectors, by vector identifier.
pub struct MetadataController {
    metadata: Vec<VectorMetadata>,
}

impl MetadataController {
    /// The recorded entries, in the order their identifiers were first recorded.
    pub closed spec fn entries(&self) -> Seq<VectorMetadataView> {
        Seq::new(self.metadata@.len(), |i: int| self.metadata@[i]@)
    }

    /// No identifier has two entries, and every entry's metadata is well formed.
    pub closed spec fn wf(&self) -> bool {
        &&& entries_distinct(self.entries())
        &&& forall|i: int| 0 <= i < self.metadata@.len() ==> (#[trigger] self.metadata@[i]).data.wf()
    }

    /// Nothing recorded.
    pub fn new() -> (c: MetadataController)
        ensures
            c.wf(),
            c.entries() == Seq::<VectorMetadataView>::empty(),
    {
        let c = MetadataController { metadata: Vec::new() };
        assert(c.entries() =~= Seq::<VectorMetadataView>::empty());
        c
    }

    fn position(&self, vector_id: &str) -> (r: Option<usize>)
        requires
            self.wf(),
        ensures
            match r {
                Some(i) => i < self.entries().len() && self.entries()[i as int].vector_id == vector_id@
                    && has_entry(self.entries(), vector_id@) && entry_index(self.entries(), vector_id@)
                    == i,
                None => !has_entry(self.entries(), vector_id@),
            },
    {
        let mut i: usize = 0;
        while i < self.metadata.len()
            invariant
                0 <= i <= self.metadata@.len(),
                self.wf(),
                forall|j: int| 0 <= j < i ==> (#[trigger] self.entries()[j]).vector_id != vector_id@,
            decreases self.metadata.len() - i,
        {
            if str_eq(self.metadata[i].vector_id.as_str(), vector_id) {
                proof {
                    let es = self.entries();
                    assert(es[i as int].vector_id == vector_id@);
                    let w = entry_index(es, vector_id@);
                    if w != i {
                        assert(es[w].vector_id != es[i as int].vector_id);
                    }
                }
                return Some(i);
            }
            i += 1;
        }
        None
    }

    /// Records `data` for `vector_id`, replacing what was recorded for it.
    pub fn add_metadata(&mut self, vector_id: String, data: Metadata) -> (r: Result<(), DbError>)
        requires
            old(self).wf(),
            data.wf(),
        ensures
            final(self).wf(),
            r == Ok::<(), DbError>(()),
            has_entry(old(self).entries(), vector_id@) ==> final(self).entries() == old(self).entries().update(
                entry_index(old(self).entries(), vector_id@),
                VectorMetadataView { vector_id: vector_id@, data: data@ },
            ),
            !has_entry(old(self).entries(), vector_id@) ==> final(self).entries() == old(self).entries().push(VectorMetadataView { vector_id: vector_id@, data: data@ }),
    {
        let ghost before = self.entries();
        let ghost nv = VectorMetadataView { vector_id: vector_id@, data: data@ };
        match self.position(vector_id.as_str()) {
            Some(i) => {
                self.metadata.set(i, VectorMetadata { vector_id, data });
                proof {
                    let after = self.entries();
                    assert(after =~= before.update(i as int, nv));
                    assert forall|a: int, b: int|
                        0 <= a < after.len() && 0 <= b < after.len() && a != b implies (
                    #[trigger] after[a]).vector_id != (#[trigger] after[b]).vector_id by {
                        assert(after[a].vector_id == before[a].vector_id);
                        assert(after[b].vector_id == before[b].vector_id);
                    }
                    assert forall|t: int| 0 <= t < self.metadata@.len() implies (
                    #[trigger] self.metadata@[t]).data.wf() by {
                        if t != i {
                            assert(self.metadata@[t] == old(self).metadata@[t]);
                        }
                    }
                }
            },
            None => {
                self.metadata.push(VectorMetadata { vector_id, data });
                proof {
                    let after = self.entries();
                    assert(after =~= before.push(nv));
                    assert forall|a: int, b: int|
                        0 <= a < after.len() && 0 <= b < after.len() && a != b implies (
                    #[trigger] after[a]).vector_id != (#[trigger] after[b]).vector_id by {
                        if a < before.len() && b < before.len() {
                            assert(before[a].vector_id != before[b].vector_id);
                        } else if a < before.len() {
                            assert(before[a].vector_id != nv.vector_id);
                        } else {
                            assert(before[b].vector_id != nv.vector_id);
                        }
                    }
                    assert forall|t: int| 0 <= t < self.metadata@.len() implies (
                    #[trigger] self.metadata@[t]).data.wf() by {
                        if t < before.len() {
                            assert(self.metadata@[t] == old(self).metadata@[t]);
                        }
                    }
                }
            },
        }
        Ok(())
    }

    /// The identifiers of the vectors whose recorded metadata holds every entry of
    /// `filters`, in recorded order.
    pub fn filter_by_metadata(&self, filters: &Metadata) -> (ids: Vec<String>)
        requires
            self.wf(),
            filters.wf(),
        ensures
            Seq::new(ids@.len(), |i: int| ids@[i]@) == matching_entries(self.entries(), filters@),
    {
        let mut result: Vec<String> = Vec::new();
        let ghost es = self.entries();
        let mut i: usize = 0;
        assert(Seq::new(result@.len(), |t: int| result@[t]@) =~= matching_entries(es.take(0), filters@));
        while i < self.metadata.len()
            invariant
                0 <= i <= self.metadata@.len(),
                self.wf(),
                filters.wf(),
                es == self.entries(),
                Seq::new(result@.len(), |t: int| result@[t]@) == matching_entries(
                    es.take(i as int),
                    filters@,
                ),
            decreases self.metadata.len() - i,
        {
            let ghost done = Seq::new(result@.len(), |t: int| result@[t]@);
            proof {
                let upto = es.take(i + 1);
                assert(upto.drop_last() =~= es.take(i as int));
                assert(upto.last() == es[i as int]);
            }
            if self.metadata[i].data.matches(filters) {
                result.push(self.metadata[i].vector_id.clone());
                assert(Seq::new(result@.len(), |t: int| result@[t]@) =~= done.push(es[i as int].vector_id));
            }
            i += 1;
        }
        assert(es.take(i as int) == es);
        result
    }

    /// Drops what is recorded for `vector_id`; says whether there was something.
    pub fn remove_metadata(&mut self, vector_id: &str) -> (found: bool)
        requires
            old(self).wf(),
        ensures
            final(self).wf(),
            found == has_entry(old(self).entries(), vector_id@),
            found ==> final(self).entries() == old(self).entries().remove(
                entry_index(old(self).entries(), vector_id@),
            ),
            !found ==> final(self).entries() == old(self).entries(),
    {
        let ghost before = self.entries();
        match self.position(vector_id) {
            Some(i) => {
                let _ = self.metadata.remove(i);
                proof {
                    let after = self.entries();
                    assert(after =~= before.remove(i as int));
                    assert forall|a: int, b: int|
                        0 <= a < after.len() && 0 <= b < after.len() && a != b implies (
                    #[trigger] after[a]).vector_id != (#[trigger] after[b]).vector_id by {
                        let a0 = if a < i { a } else { a + 1 };
                        let b0 = if b < i { b } else { b + 1 };
                        assert(before[a0].vector_id != before[b0].vector_id);
                    }
                    assert forall|t: int| 0 <= t < self.metadata@.len() implies (
                    #[trigger] self.metadata@[t]).data.wf() by {
                        let t0 = if t < i { t } else { t + 1 };
                        assert(self.metadata@[t] == old(self).metadata@[t0]);
                    }
                }
                true
            },
            None => false,
        }
    }

    /// What is recorded for `vector_id`.
    pub fn get_metadata(&self, vector_id: &str) -> (r: Option<&VectorMetadata>)
        requires
            self.wf(),
        ensures
            match r {
                Some(m) => has_entry(self.entries(), vector_id@) && m@ == self.entries()[entry_index(
                    self.entries(),
                    vector_id@,
                )] && m.data.wf(),
                None => !has_entry(self.entries(), vector_id@),
            },
    {
        match self.position(vector_id) {
            Some(i) => Some(&self.metadata[i]),
            None => None,
        }
    }
}

} // verus!
