//! What is stored as one record, and what is stored as a list of records.

use vstd::prelude::*;
use crate::buckets::BucketController;
use crate::codec::enc_bucket;
use crate::codec::encode_bucket;
use crate::codec::encode_vector;
use crate::collection::Collection;
use crate::controllers::VectorController;
use crate::decode::decode_bucket;
use crate::decode::decode_collection;
use crate::decode::decode_vector;
use crate::decode::parse_bucket;
use crate::decode::parse_collection;
use crate::decode::parse_vector;
use crate::error::DbError;
use crate::lsh::LSHMetric;
use crate::objects::Bucket;
use crate::objects::BucketView;
use crate::objects::Vector;
use crate::objects::VectorView;
use crate::storage::collection_header;
use crate::storage::dump_collection;
use crate::storage::record_ok;
use crate::storage::record_vector;
use crate::lsh::metric_of_name;
use crate::storage::vector_record;

verus! {

/// A thing that is stored as one record under an identifier.
pub trait Object {
    /// Takes the content of a record.
    fn load(&mut self, raw_data: Vec<u8>) -> Result<(), DbError>;

    /// The record and the identifier to store it under.
    fn dump(&self) -> Result<(Vec<u8>, u64), ()>;

    fn hash_id(&self) -> u64;

    fn set_hash_id(&mut self, id: u64);
}

/// A container whose items are stored as records under their identifiers.
pub trait CollectionObjectController {
    /// Takes the items of the records given, in order.
    fn load(&mut self, raw_data: Vec<(u64, Vec<u8>)>) -> Result<(), DbError>;

    /// A record per item, in order, each with the identifier to store it under.
    fn dump(&self) -> Vec<(u64, Vec<u8>)>;
}

impl Object for Vector {
    /// Replaces the vector by the one that the record holds; a record that cannot be
    /// read is an I/O error and changes nothing.
    fn load(&mut self, raw_data: Vec<u8>) -> (r: Result<(), DbError>)
        ensures
            match parse_vector(raw_data@) {
                Some(parts) => r == Ok::<(), DbError>(()) && final(self)@ == (VectorView {
                    data: parts.0,
                    timestamp: parts.1,
                    metadata: parts.2,
                    id: parts.3,
                }) && final(self).wf(),
                None => r == Err::<(), DbError>(DbError::Io) && *final(self) == *old(self),
            },
    {
        match decode_vector(raw_data.as_slice()) {
            Ok(stored) => {
                self.data = stored.data;
                self.timestamp = stored.timestamp;
                self.metadata = stored.metadata;
                self.hash_id = stored.hash_id;
                Ok(())
            },
            Err(e) => Err(e),
        }
    }

    fn dump(&self) -> (r: Result<(Vec<u8>, u64), ()>)
        ensures
            r is Ok,
            (r->Ok_0.1, r->Ok_0.0@) == vector_record(self@),
    {
        let bytes = encode_vector(&self.data, self.timestamp, &self.metadata, self.hash_id);
        Ok((bytes, self.hash_id))
    }

    fn hash_id(&self) -> (id: u64)
        ensures
            id == self@.id,
    {
        self.hash_id
    }

    fn set_hash_id(&mut self, id: u64)
        ensures
            final(self)@ == (VectorView { id, ..old(self)@ }),
            final(self).wf() == old(self).wf(),
    {
        self.hash_id = id;
    }
}

impl Object for Bucket {
    /// Takes identifier and times from a bucket header; the vectors stay.
    fn load(&mut self, raw_data: Vec<u8>) -> (r: Result<(), DbError>)
        ensures
            match parse_bucket(raw_data@) {
                Some(h) => r == Ok::<(), DbError>(()) && final(self)@ == (BucketView {
                    id: h.0,
                    created_at: h.1,
                    updated_at: h.2,
                    vectors: old(self)@.vectors,
                }) && final(self).wf() == old(self).wf(),
                None => r == Err::<(), DbError>(DbError::Io) && *final(self) == *old(self),
            },
    {
        match decode_bucket(raw_data.as_slice()) {
            Ok(h) => {
                self.id = h.id;
                self.created_at = h.created_at;
                self.updated_at = h.updated_at;
                Ok(())
            },
            Err(e) => Err(e),
        }
    }

    fn dump(&self) -> (r: Result<(Vec<u8>, u64), ()>)
        ensures
            r is Ok,
            r->Ok_0.0@ == enc_bucket(self.id, self.created_at, self.updated_at),
            r->Ok_0.1 == self.id,
    {
        Ok((encode_bucket(self.id, self.created_at, self.updated_at), self.id))
    }

    fn hash_id(&self) -> (id: u64)
        ensures
            id == self@.id,
    {
        self.id
    }

    fn set_hash_id(&mut self, id: u64)
        ensures
            final(self)@ == (BucketView { id, ..old(self)@ }),
            final(self).wf() == old(self).wf(),
    {
        self.id = id;
    }
}

impl Object for Collection {
    /// Takes name, identifier, metric and dimension from a collection header and starts
    /// an empty index of that dimension and metric, with the hasher of a new
    /// collection. A header that cannot be read, or whose metric is not known, is an I/O
    /// error and changes nothing.
    fn load(&mut self, raw_data: Vec<u8>) -> (r: Result<(), DbError>)
        ensures
            r matches Ok(_) ==> {
                &&& parse_collection(raw_data@) == Some(
                    (
                        final(self).name@,
                        final(self).id,
                        parse_collection(raw_data@)->Some_0.2,
                        final(self).vector_dimension as u64,
                    ),
                )
                &&& metric_of_name(parse_collection(raw_data@)->Some_0.2) == Ok::<LSHMetric, DbError>(
                    final(self).lsh_metric,
                )
                &&& final(self).default_hasher()
                &&& final(self).buckets() == Seq::<BucketView>::empty()
                &&& final(self).wf()
            },
            r matches Err(e) ==> e == DbError::Io && *final(self) == *old(self) && (parse_collection(
                raw_data@,
            ) is None || parse_collection(raw_data@)->Some_0.3 > usize::MAX || metric_of_name(
                parse_collection(raw_data@)->Some_0.2,
            ) is Err),
    {
        match decode_collection(raw_data.as_slice()) {
            Ok(h) => {
                let metric = match LSHMetric::from_string(h.lsh_metric.as_str()) {
                    Ok(m) => m,
                    Err(_) => {
                        return Err(DbError::Io);
                    },
                };
                let mut c = Collection::new(Some(h.name), metric, h.vector_dimension);
                c.id = h.id;
                *self = c;
                Ok(())
            },
            Err(e) => Err(e),
        }
    }

    fn dump(&self) -> (r: Result<(Vec<u8>, u64), ()>)
        ensures
            r is Ok,
            r->Ok_0.0@ == collection_header(*self),
            r->Ok_0.1 == self.id,
    {
        let d = dump_collection(self);
        Ok((d.header, self.id))
    }

    fn hash_id(&self) -> (id: u64)
        ensures
            id == self.id,
    {
        self.id
    }

    fn set_hash_id(&mut self, id: u64)
        ensures
            *final(self) == (Collection { id, ..*old(self) }),
    {
        self.id = id;
    }
}

/// Every record is readable and stands under its own identifier.
pub open spec fn records_ok(recs: Seq<(u64, Seq<u8>)>) -> bool {
    forall|i: int| 0 <= i < recs.len() ==> record_ok(#[trigger] recs[i])
}

/// The records as plain values.
pub open spec fn record_views(recs: Seq<(u64, Vec<u8>)>) -> Seq<(u64, Seq<u8>)> {
    Seq::new(recs.len(), |i: int| (recs[i].0, recs[i].1@))
}

impl CollectionObjectController for VectorController {
    /// Replaces the vectors by those of the records, in order. If any record cannot be
    /// read, or stands under another identifier than its own, nothing changes.
    fn load(&mut self, raw_data: Vec<(u64, Vec<u8>)>) -> (r: Result<(), DbError>)
        ensures
            records_ok(record_views(raw_data@)) ==> r == Ok::<(), DbError>(()) && final(self).views()
                == Seq::new(raw_data@.len(), |i: int| record_vector(record_views(raw_data@)[i]))
                && final(self).wf(),
            !records_ok(record_views(raw_data@)) ==> r == Err::<(), DbError>(DbError::Io) && *final(self) == *old(self),
    {
        let ghost recs = record_views(raw_data@);
        let mut vs: Vec<Vector> = Vec::new();
        let mut i: usize = 0;
        while i < raw_data.len()
            invariant
                0 <= i <= raw_data@.len(),
                recs == record_views(raw_data@),
                *self == *old(self),
                vs@.len() == i,
                forall|j: int| 0 <= j < i ==> record_ok(#[trigger] recs[j]),
                forall|j: int|
                    0 <= j < i ==> (#[trigger] vs@[j])@ == record_vector(recs[j]) && vs@[j].wf(),
            decreases raw_data.len() - i,
        {
            let stored = match decode_vector(raw_data[i].1.as_slice()) {
                Ok(s) => s,
                Err(_) => {
                    assert(!record_ok(recs[i as int]));
                    return Err(DbError::Io);
                },
            };
            if stored.hash_id != raw_data[i].0 {
                assert(!record_ok(recs[i as int]));
                return Err(DbError::Io);
            }
            vs.push(Vector::from_parts(stored.data, stored.timestamp, stored.metadata, stored.hash_id));
            i += 1;
        }
        self.vectors = Some(vs);
        assert(self.views() =~= Seq::new(raw_data@.len(), |i: int| record_vector(recs[i])));
        Ok(())
    }

    fn dump(&self) -> (out: Vec<(u64, Vec<u8>)>)
        ensures
            record_views(out@) == Seq::new(self.views().len(), |i: int| vector_record(self.views()[i])),
    {
        let mut out: Vec<(u64, Vec<u8>)> = Vec::new();
        match &self.vectors {
            Some(vs) => {
                let mut i: usize = 0;
                while i < vs.len()
                    invariant
                        0 <= i <= vs@.len(),
                        self.vectors == Some(*vs),
                        out@.len() == i,
                        forall|j: int|
                            0 <= j < i ==> ((#[trigger] out@[j]).0, out@[j].1@) == vector_record(
                                self.views()[j],
                            ),
                    decreases vs.len() - i,
                {
                    let v = &vs[i];
                    let bytes = encode_vector(&v.data, v.timestamp, &v.metadata, v.hash_id);
                    out.push((v.hash_id, bytes));
                    i += 1;
                }
            },
            None => {},
        }
        assert(record_views(out@) =~= Seq::new(
            self.views().len(),
            |i: int| vector_record(self.views()[i]),
        ));
        out
    }
}

impl CollectionObjectController for BucketController {
    /// An index takes whole buckets, with their vectors, one at a time; headers alone
    /// would make empty buckets, which an index does not hold. So only an empty list
    /// is taken, and leaves the index as it is.
    fn load(&mut self, raw_data: Vec<(u64, Vec<u8>)>) -> (r: Result<(), DbError>)
        ensures
            *final(self) == *old(self),
            r == if raw_data@.len() == 0 {
                Ok::<(), DbError>(())
            } else {
                Err::<(), DbError>(DbError::InvalidArgument)
            },
    {
        if raw_data.len() == 0 {
            Ok(())
        } else {
            Err(DbError::InvalidArgument)
        }
    }

    /// The header of every bucket, in order, under the bucket's identifier.
    fn dump(&self) -> (out: Vec<(u64, Vec<u8>)>)
        ensures
            record_views(out@) == Seq::new(
                self.bucket_views().len(),
                |p: int|
                    (
                        self.bucket_views()[p].id,
                        enc_bucket(
                            self.bucket_views()[p].id,
                            self.bucket_views()[p].created_at,
                            self.bucket_views()[p].updated_at,
                        ),
                    ),
            ),
    {
        let mut out: Vec<(u64, Vec<u8>)> = Vec::new();
        match &self.buckets {
            Some(buckets) => {
                let mut p: usize = 0;
                while p < buckets.len()
                    invariant
                        0 <= p <= buckets@.len(),
                        self.buckets == Some(*buckets),
                        out@.len() == p,
                        forall|q: int|
                            0 <= q < p ==> ((#[trigger] out@[q]).0, out@[q].1@) == (
                                self.bucket_views()[q].id,
                                enc_bucket(
                                    self.bucket_views()[q].id,
                                    self.bucket_views()[q].created_at,
                                    self.bucket_views()[q].updated_at,
                                ),
                            ),
                    decreases buckets.len() - p,
                {
                    let b = &buckets[p];
                    out.push((b.id, encode_bucket(b.id, b.created_at, b.updated_at)));
                    p += 1;
                }
            },
            None => {},
        }
        assert(record_views(out@) =~= Seq::new(
            self.bucket_views().len(),
            |p: int|
                (
                    self.bucket_views()[p].id,
                    enc_bucket(
                        self.bucket_views()[p].id,
                        self.bucket_views()[p].created_at,
                        self.bucket_views()[p].updated_at,
                    ),
                ),
        ));
        out
    }
}

} // verus!
