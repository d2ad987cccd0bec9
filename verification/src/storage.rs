//! Writing a collection out as records and reading it back, with the proof that reading
//! restores what was written.

use vstd::prelude::*;
use vstd::utf8::encode_utf8;
use crate::buckets::BucketController;
use crate::codec::enc_bucket;
use crate::codec::enc_collection;
use crate::codec::enc_vector;
use crate::codec::encode_bucket;
use crate::codec::encode_collection;
use crate::codec::encode_vector;
use crate::collection::Collection;
use crate::controllers::VectorController;
use crate::decode::decode_bucket;
use crate::decode::decode_collection;
use crate::decode::decode_vector;
use crate::decode::lemma_bucket_round_trip;
use crate::decode::lemma_vector_round_trip;
use crate::decode::parse_bucket;
use crate::decode::parse_collection;
use crate::decode::parse_vector;
use crate::decode::record_fits;
use crate::error::DbError;
use crate::index::has_bucket;
use crate::index::ids_unique;
use crate::index::index_holds;
use crate::index::index_wf;
use crate::index::insertion_point;
use crate::index::is_insertion_point;
use crate::index::lemma_insert_bucket;
use crate::index::lemma_insertion_point;
use crate::lsh::metric_of_name;
use crate::lsh::LSHMetric;
use crate::metadata::keys_ascend;
use crate::objects::Bucket;
use crate::objects::BucketView;
use crate::objects::Vector;
use crate::objects::VectorView;

verus! {

/// A bucket as written out: its header and its vector records, each under the
/// identifier that names its file.
pub struct BucketDump {
    pub id: u64,
    pub header: Vec<u8>,
    pub vectors: Vec<(u64, Vec<u8>)>,
}

/// A collection as written out: its header and its buckets.
pub struct CollectionDump {
    pub name: String,
    pub hash_id: u64,
    pub header: Vec<u8>,
    pub buckets: Vec<BucketDump>,
}

/// A written bucket as plain values.
pub struct BucketDumpView {
    pub id: u64,
    pub header: Seq<u8>,
    pub vectors: Seq<(u64, Seq<u8>)>,
}

impl View for BucketDump {
    type V = BucketDumpView;

    open spec fn view(&self) -> BucketDumpView {
        BucketDumpView {
            id: self.id,
            header: self.header@,
            vectors: Seq::new(self.vectors@.len(), |i: int| (self.vectors@[i].0, self.vectors@[i].1@)),
        }
    }
}

impl CollectionDump {
    /// The written buckets as plain values.
    pub open spec fn bucket_views(&self) -> Seq<BucketDumpView> {
        Seq::new(self.buckets@.len(), |p: int| self.buckets@[p]@)
    }
}

/// The record written for a vector.
pub open spec fn vector_record(v: VectorView) -> (u64, Seq<u8>) {
    (v.id, enc_vector(v.data, v.timestamp, v.metadata, v.id))
}

/// What is written for a bucket.
pub open spec fn bucket_dump(b: BucketView) -> BucketDumpView {
    BucketDumpView {
        id: b.id,
        header: enc_bucket(b.id, b.created_at, b.updated_at),
        vectors: Seq::new(b.vectors.len(), |i: int| vector_record(b.vectors[i])),
    }
}

/// What is written for an index: its buckets in order.
pub open spec fn index_dump(bs: Seq<BucketView>) -> Seq<BucketDumpView> {
    Seq::new(bs.len(), |p: int| bucket_dump(bs[p]))
}

/// The vector that a record holds.
pub open spec fn record_vector(rec: (u64, Seq<u8>)) -> VectorView {
    let parts = parse_vector(rec.1)->Some_0;
    VectorView { data: parts.0, timestamp: parts.1, metadata: parts.2, id: parts.3 }
}

/// A record is readable and stands under its own identifier.
pub open spec fn record_ok(rec: (u64, Seq<u8>)) -> bool {
    parse_vector(rec.1) is Some && parse_vector(rec.1)->Some_0.3 == rec.0
}

/// The vectors that a list of records holds.
pub open spec fn record_vectors(recs: Seq<(u64, Seq<u8>)>) -> Seq<VectorView> {
    Seq::new(recs.len(), |i: int| record_vector(recs[i]))
}

/// The bucket that a written bucket holds, if it can be taken into the index `acc` of
/// dimension `d`: header and records must be readable and stand under their own
/// identifiers, the bucket must not be empty nor already present, and its vectors must be
/// of the index's dimension, with identifiers new to the index and distinct.
pub open spec fn restorable(acc: Seq<BucketView>, d: Option<usize>, rec: BucketDumpView) -> bool {
    &&& parse_bucket(rec.header) is Some
    &&& parse_bucket(rec.header)->Some_0.0 == rec.id
    &&& forall|i: int| 0 <= i < rec.vectors.len() ==> record_ok(#[trigger] rec.vectors[i])
    &&& rec.vectors.len() > 0
    &&& !has_bucket(acc, rec.id)
    &&& ids_unique(record_vectors(rec.vectors))
    &&& forall|i: int|
        0 <= i < rec.vectors.len() ==> !index_holds(acc, (#[trigger] record_vectors(rec.vectors)[i]).id)
    &&& d is Some
    &&& forall|i: int|
        0 <= i < rec.vectors.len() ==> (#[trigger] record_vectors(rec.vectors)[i]).data.len()
            == d->Some_0
}

/// The bucket read from a written bucket.
pub open spec fn restored_bucket(rec: BucketDumpView) -> BucketView {
    BucketView {
        id: rec.id,
        created_at: parse_bucket(rec.header)->Some_0.1,
        updated_at: parse_bucket(rec.header)->Some_0.2,
        vectors: record_vectors(rec.vectors),
    }
}

/// The index `acc` after one written bucket is taken in, if it can be.
pub open spec fn restore_step(acc: Seq<BucketView>, d: Option<usize>, rec: BucketDumpView) -> Option<
    Seq<BucketView>,
> {
    if restorable(acc, d, rec) {
        Some(acc.insert(insertion_point(acc, rec.id), restored_bucket(rec)))
    } else {
        None
    }
}

/// The index built from the first `n` written buckets, if all can be taken in.
pub open spec fn restored(recs: Seq<BucketDumpView>, d: Option<usize>, n: nat) -> Option<Seq<BucketView>>
    decreases n,
{
    if n == 0 {
        Some(Seq::empty())
    } else {
        match restored(recs, d, (n - 1) as nat) {
            Some(acc) => restore_step(acc, d, recs[n - 1]),
            None => None,
        }
    }
}

/// The vector can be written and read back: its metadata keys ascend, and its counts
/// and text lengths fit a word.
pub open spec fn writable_vector(v: VectorView) -> bool {
    keys_ascend(v.metadata) && record_fits(v.data, v.metadata)
}

/// Every vector of the index can be written and read back.
pub open spec fn writable(bs: Seq<BucketView>) -> bool {
    forall|p: int, i: int|
        0 <= p < bs.len() && 0 <= i < bs[p].vectors.len() ==> writable_vector(#[trigger] bs[p].vectors[i])
}

/// The collection can be written and read back: it is well formed, its name's length
/// fits a word, and so do the counts and lengths of its vectors.
pub open spec fn is_writable(c: Collection) -> bool {
    &&& c.wf()
    &&& writable(c.buckets())
    &&& encode_utf8(c.name@).len() <= u64::MAX
}

/// Writing an index out and reading it back restores it: every bucket with its
/// identifier and times, and every vector with its components, timestamp, metadata and
/// identifier, in the same order.
pub proof fn lemma_dump_restores(bs: Seq<BucketView>, d: usize)
    requires
        index_wf(bs, Some(d)),
        writable(bs),
    ensures
        restored(index_dump(bs), Some(d), bs.len()) == Some(bs),
{
    lemma_dump_restores_upto(bs, d, bs.len());
    assert(bs.take(bs.len() as int) =~= bs);
}

proof fn lemma_dump_restores_upto(bs: Seq<BucketView>, d: usize, n: nat)
    requires
        index_wf(bs, Some(d)),
        writable(bs),
        n <= bs.len(),
    ensures
        restored(index_dump(bs), Some(d), n) == Some(bs.take(n as int)),
    decreases n,
{
    if n == 0 {
        assert(bs.take(0) =~= Seq::<BucketView>::empty());
    } else {
        lemma_dump_restores_upto(bs, d, (n - 1) as nat);
        let acc = bs.take(n - 1);
        let b = bs[n - 1];
        let rec = index_dump(bs)[n - 1];
        assert(rec == bucket_dump(b));
        lemma_bucket_round_trip(b.id, b.created_at, b.updated_at);
        assert forall|i: int| 0 <= i < rec.vectors.len() implies record_ok(#[trigger] rec.vectors[i])
            && record_vector(rec.vectors[i]) == b.vectors[i] by {
            let v = b.vectors[i];
            assert(bs[n - 1].vectors[i] == v);
            lemma_vector_round_trip(v.data, v.timestamp, v.metadata, v.id);
        }
        assert(record_vectors(rec.vectors) =~= b.vectors);
        assert(restored_bucket(rec) == b);
        assert(!has_bucket(acc, b.id)) by {
            if has_bucket(acc, b.id) {
                let q = choose|q: int| 0 <= q < acc.len() && (#[trigger] acc[q]).id == b.id;
                assert(bs[q].id < bs[n - 1].id);
            }
        }
        assert(ids_unique(b.vectors));
        assert forall|i: int| 0 <= i < rec.vectors.len() implies !index_holds(
            acc,
            (#[trigger] record_vectors(rec.vectors)[i]).id,
        ) by {
            let x = b.vectors[i].id;
            if index_holds(acc, x) {
                let q = choose|q: int| 0 <= q < acc.len() && crate::controllers::holds_id(
                    (#[trigger] acc[q]).vectors,
                    x,
                );
                assert(crate::controllers::holds_id(bs[q].vectors, x));
                assert(b.vectors[i].id == x);
                assert(crate::controllers::holds_id(bs[n - 1].vectors, x));
            }
        }
        assert forall|i: int| 0 <= i < rec.vectors.len() implies (#[trigger] record_vectors(
            rec.vectors,
        )[i]).data.len() == d by {
            assert(bs[n - 1].vectors[i].data.len() == d);
        }
        assert(bs[n - 1].vectors.len() > 0);
        assert(restorable(acc, Some(d), rec));
        assert(is_insertion_point(acc, b.id, acc.len() as int)) by {
            assert forall|q: int| 0 <= q < acc.len() implies (#[trigger] acc[q]).id < b.id by {
                assert(bs[q].id < bs[n - 1].id);
            }
        }
        lemma_insertion_point(acc, b.id, acc.len() as int);
        assert(acc.insert(acc.len() as int, b) =~= bs.take(n as int));
    }
}

/// Writes out a bucket: its header and one record per vector, in order. Whatever it
/// writes fits, so a well-formed bucket can be read back.
pub fn dump_bucket(bucket: &Bucket) -> (out: BucketDump)
    ensures
        out@ == bucket_dump(bucket@),
        forall|i: int|
            0 <= i < bucket@.vectors.len() ==> record_fits(
                (#[trigger] bucket@.vectors[i]).data,
                bucket@.vectors[i].metadata,
            ),
{
    let header = encode_bucket(bucket.id, bucket.created_at, bucket.updated_at);
    let mut vectors: Vec<(u64, Vec<u8>)> = Vec::new();
    match &bucket.vectors_controller.vectors {
        Some(vs) => {
            let mut i: usize = 0;
            while i < vs.len()
                invariant
                    0 <= i <= vs@.len(),
                    bucket.vectors_controller.vectors == Some(*vs),
                    vectors@.len() == i,
                    forall|j: int|
                        0 <= j < i ==> ((#[trigger] vectors@[j]).0, vectors@[j].1@) == vector_record(
                            bucket@.vectors[j],
                        ),
                    forall|j: int|
                        0 <= j < i ==> record_fits(
                            (#[trigger] bucket@.vectors[j]).data,
                            bucket@.vectors[j].metadata,
                        ),
                decreases vs.len() - i,
            {
                let v = &vs[i];
                let bytes = encode_vector(&v.data, v.timestamp, &v.metadata, v.hash_id);
                vectors.push((v.hash_id, bytes));
                i += 1;
            }
        },
        None => {},
    }
    let out = BucketDump { id: bucket.id, header, vectors };
    assert(out@.vectors =~= bucket_dump(bucket@).vectors);
    out
}

impl BucketController {
    /// Writes out the index: every bucket in order. What is written of a well-formed
    /// index can be read back.
    pub fn dump_buckets(&self) -> (out: Vec<BucketDump>)
        ensures
            Seq::new(out@.len(), |p: int| out@[p]@) == index_dump(self.bucket_views()),
            self.wf() ==> writable(self.bucket_views()),
    {
        let mut out: Vec<BucketDump> = Vec::new();
        match &self.buckets {
            Some(buckets) => {
                let mut p: usize = 0;
                while p < buckets.len()
                    invariant
                        0 <= p <= buckets@.len(),
                        self.buckets == Some(*buckets),
                        out@.len() == p,
                        forall|q: int|
                            0 <= q < p ==> (#[trigger] out@[q])@ == bucket_dump(self.bucket_views()[q]),
                        forall|q: int, i: int|
                            0 <= q < p && 0 <= i < self.bucket_views()[q].vectors.len() ==> record_fits(
                                (#[trigger] self.bucket_views()[q].vectors[i]).data,
                                self.bucket_views()[q].vectors[i].metadata,
                            ),
                    decreases buckets.len() - p,
                {
                    out.push(dump_bucket(&buckets[p]));
                    p += 1;
                }
            },
            None => {},
        }
        proof {
            assert(Seq::new(out@.len(), |p: int| out@[p]@) =~= index_dump(self.bucket_views()));
            if self.wf() {
                let bs = self.bucket_views();
                assert forall|q: int, i: int| 0 <= q < bs.len() && 0 <= i < bs[q].vectors.len() implies writable_vector(
                    #[trigger] bs[q].vectors[i],
                ) by {
                    assert(self.bucket_items()[q].wf());
                    assert(self.bucket_items()[q].vectors_controller.items()[i].wf());
                }
            }
        }
        out
    }

    /// Every vector of the index as a record: bucket identifier, vector identifier,
    /// written form; bucket by bucket, each in insertion order.
    pub fn dump_vectors(&self) -> (out: Vec<(u64, u64, Vec<u8>)>)
        ensures
            Seq::new(out@.len(), |t: int| (out@[t].0, out@[t].1, out@[t].2@)) == flat_records(
                self.bucket_views(),
            ),
    {
        let mut out: Vec<(u64, u64, Vec<u8>)> = Vec::new();
        let ghost bs = self.bucket_views();
        match &self.buckets {
            Some(buckets) => {
                let mut p: usize = 0;
                while p < buckets.len()
                    invariant
                        0 <= p <= buckets@.len(),
                        self.buckets == Some(*buckets),
                        bs == self.bucket_views(),
                        Seq::new(out@.len(), |t: int| (out@[t].0, out@[t].1, out@[t].2@))
                            == flat_records(bs.take(p as int)),
                    decreases buckets.len() - p,
                {
                    let ghost head = Seq::new(out@.len(), |t: int| (out@[t].0, out@[t].1, out@[t].2@));
                    let id = buckets[p].id;
                    match &buckets[p].vectors_controller.vectors {
                        Some(vs) => {
                            let mut i: usize = 0;
                            while i < vs.len()
                                invariant
                                    0 <= i <= vs@.len(),
                                    p < buckets@.len(),
                                    buckets@[p as int].vectors_controller.vectors == Some(*vs),
                                    self.buckets == Some(*buckets),
                                    bs == self.bucket_views(),
                                    id == bs[p as int].id,
                                    Seq::new(out@.len(), |t: int| (out@[t].0, out@[t].1, out@[t].2@))
                                        == head + bucket_records(bs[p as int]).take(i as int),
                                decreases vs.len() - i,
                            {
                                let v = &vs[i];
                                let bytes = encode_vector(&v.data, v.timestamp, &v.metadata, v.hash_id);
                                let ghost prev = Seq::new(
                                    out@.len(),
                                    |t: int| (out@[t].0, out@[t].1, out@[t].2@),
                                );
                                let ghost bytes_view = bytes@;
                                out.push((id, v.hash_id, bytes));
                                proof {
                                    let recs = bucket_records(bs[p as int]);
                                    assert(Seq::new(
                                        out@.len(),
                                        |t: int| (out@[t].0, out@[t].1, out@[t].2@),
                                    ) =~= prev.push((id, v.hash_id, bytes_view)));
                                    assert(self.bucket_items()[p as int] == buckets@[p as int]);
                                    assert(bs[p as int].vectors == buckets@[p as int].vectors_controller.views());
                                    assert(bs[p as int].vectors[i as int] == v@);
                                    assert(recs[i as int] == (id, v.hash_id, bytes_view));
                                    assert(recs.take(i + 1) =~= recs.take(i as int).push(recs[i as int]));
                                    assert(Seq::new(
                                        out@.len(),
                                        |t: int| (out@[t].0, out@[t].1, out@[t].2@),
                                    ) =~= head + recs.take(i + 1));
                                }
                                i += 1;
                            }
                            assert(bucket_records(bs[p as int]).take(i as int) =~= bucket_records(
                                bs[p as int],
                            ));
                        },
                        None => {
                            assert(bucket_records(bs[p as int]) =~= Seq::empty());
                            assert(head + bucket_records(bs[p as int]) =~= head);
                        },
                    }
                    proof {
                        assert(bs.take(p + 1).drop_last() =~= bs.take(p as int));
                        assert(bs.take(p + 1).last() == bs[p as int]);
                    }
                    p += 1;
                }
                assert(bs.take(p as int) == bs);
            },
            None => {
                assert(Seq::new(out@.len(), |t: int| (out@[t].0, out@[t].1, out@[t].2@))
                    =~= flat_records(bs));
            },
        }
        out
    }

    /// Takes a written bucket into the index, at its place in the order. What cannot be
    /// read, or does not fit the index, is an I/O error and leaves the index as it was.
    pub fn restore_bucket(&mut self, rec: &BucketDump) -> (r: Result<(), DbError>)
        requires
            old(self).wf(),
        ensures
            final(self).wf(),
            final(self).lsh == old(self).lsh,
            final(self).dimension == old(self).dimension,
            match restore_step(old(self).bucket_views(), old(self).dimension, rec@) {
                Some(ns) => r == Ok::<(), DbError>(()) && final(self).bucket_views() == ns,
                None => r == Err::<(), DbError>(DbError::Io) && final(self).bucket_views() == old(self).bucket_views(),
            },
    {
        let ghost acc = self.bucket_views();
        let ghost recs = rec@.vectors;
        let dimension = match self.dimension {
            Some(d) => d,
            None => {
                return Err(DbError::Io);
            },
        };
        let header = match decode_bucket(rec.header.as_slice()) {
            Ok(h) => h,
            Err(_) => {
                return Err(DbError::Io);
            },
        };
        if header.id != rec.id || rec.vectors.len() == 0 {
            return Err(DbError::Io);
        }
        if self.get_bucket(rec.id).is_some() {
            return Err(DbError::Io);
        }
        let mut vs: Vec<Vector> = Vec::new();
        let mut i: usize = 0;
        while i < rec.vectors.len()
            invariant
                0 <= i <= rec.vectors@.len(),
                recs == rec@.vectors,
                acc == self.bucket_views(),
                self.dimension == Some(dimension),
                self.wf(),
                vs@.len() == i,
                forall|j: int| 0 <= j < i ==> record_ok(#[trigger] recs[j]),
                forall|j: int|
                    0 <= j < i ==> (#[trigger] vs@[j])@ == record_vector(recs[j]) && vs@[j].wf(),
                forall|j: int| 0 <= j < i ==> !index_holds(acc, (#[trigger] record_vector(recs[j])).id),
                forall|j: int| 0 <= j < i ==> (#[trigger] record_vector(recs[j])).data.len() == dimension,
                forall|a: int, b: int|
                    0 <= a < i && 0 <= b < i && a != b ==> (#[trigger] record_vector(recs[a])).id != (
                    #[trigger] record_vector(recs[b])).id,
            decreases rec.vectors.len() - i,
        {
            let stored = match decode_vector(rec.vectors[i].1.as_slice()) {
                Ok(s) => s,
                Err(_) => {
                    assert(!record_ok(recs[i as int]));
                    return Err(DbError::Io);
                },
            };
            if stored.hash_id != rec.vectors[i].0 {
                assert(!record_ok(recs[i as int]));
                return Err(DbError::Io);
            }
            if stored.data.len() != dimension {
                assert(record_vectors(recs)[i as int].data.len() != dimension);
                return Err(DbError::Io);
            }
            if self.get_vector(stored.hash_id).is_some() {
                assert(index_holds(acc, record_vectors(recs)[i as int].id));
                return Err(DbError::Io);
            }
            let mut j: usize = 0;
            while j < i
                invariant
                    0 <= j <= i,
                    i < rec.vectors@.len(),
                    recs == rec@.vectors,
                    vs@.len() == i,
                    stored.hash_id == record_vector(recs[i as int]).id,
                    forall|t: int| 0 <= t < i ==> (#[trigger] vs@[t])@ == record_vector(recs[t]),
                    forall|t: int| 0 <= t < j ==> (#[trigger] record_vector(recs[t])).id != stored.hash_id,
                    acc == self.bucket_views(),
                    self.dimension == Some(dimension),
                    self.wf(),
                decreases i - j,
            {
                if vs[j].hash_id() == stored.hash_id {
                    proof {
                        let all = record_vectors(recs);
                        assert(all[j as int].id == all[i as int].id);
                        assert(!ids_unique(all));
                    }
                    return Err(DbError::Io);
                }
                j += 1;
            }
            let v = Vector::from_parts(stored.data, stored.timestamp, stored.metadata, stored.hash_id);
            vs.push(v);
            i += 1;
        }
        let ghost views = record_vectors(recs);
        let bucket = Bucket {
            id: rec.id,
            vectors_controller: VectorController { vectors: Some(vs) },
            created_at: header.created_at,
            updated_at: header.updated_at,
        };
        proof {
            assert(bucket@.vectors =~= views);
            assert(bucket@ == restored_bucket(rec@));
            assert(ids_unique(views)) by {
                assert forall|a: int, b: int|
                    0 <= a < views.len() && 0 <= b < views.len() && a != b implies (
                #[trigger] views[a]).id != (#[trigger] views[b]).id by {
                    assert(record_vector(recs[a]).id != record_vector(recs[b]).id);
                }
            }
            assert forall|t: int| 0 <= t < views.len() implies !index_holds(
                acc,
                (#[trigger] views[t]).id,
            ) by {
                assert(!index_holds(acc, record_vector(recs[t]).id));
            }
            assert forall|t: int| 0 <= t < views.len() implies (#[trigger] views[t]).data.len()
                == dimension by {
                assert(record_vector(recs[t]).data.len() == dimension);
            }
            assert(restorable(acc, self.dimension, rec@));
            lemma_insert_bucket(acc, self.dimension, bucket@);
            assert(bucket.wf());
        }
        self.put_bucket(bucket);
        Ok(())
    }
}

/// The records of one bucket.
pub open spec fn bucket_records(b: BucketView) -> Seq<(u64, u64, Seq<u8>)> {
    Seq::new(
        b.vectors.len(),
        |i: int| (b.id, b.vectors[i].id, enc_vector(
            b.vectors[i].data,
            b.vectors[i].timestamp,
            b.vectors[i].metadata,
            b.vectors[i].id,
        )),
    )
}

/// The records of a whole index, bucket by bucket.
pub open spec fn flat_records(bs: Seq<BucketView>) -> Seq<(u64, u64, Seq<u8>)>
    decreases bs.len(),
{
    if bs.len() == 0 {
        Seq::empty()
    } else {
        flat_records(bs.drop_last()) + bucket_records(bs.last())
    }
}

/// What a collection is written out as.
pub open spec fn collection_header(c: Collection) -> Seq<u8> {
    enc_collection(c.name@, c.id, c.lsh_metric.name(), c.vector_dimension as u64)
}

/// Writes out a collection: its header and its index. What is written of a
/// well-formed collection can be read back.
pub fn dump_collection(collection: &Collection) -> (out: CollectionDump)
    ensures
        out.name@ == collection.name@,
        out.hash_id == collection.id,
        out.header@ == collection_header(*collection),
        out.bucket_views() == index_dump(collection.buckets()),
        collection.wf() ==> is_writable(*collection),
{
    let metric = collection.lsh_metric.to_string();
    let header = encode_collection(
        collection.name.as_str(),
        collection.id,
        metric.as_str(),
        collection.vector_dimension,
    );
    let buckets = collection.buckets_controller.dump_buckets();
    CollectionDump { name: collection.name.clone(), hash_id: collection.id, header, buckets }
}

/// The collection is what the written collection holds: name, identifier, metric and
/// dimension from the header, the hasher of a new collection, and the index built from
/// the written buckets.
pub open spec fn loads(dump: CollectionDump, c: Collection) -> bool {
    &&& c.wf()
    &&& c.default_hasher()
    &&& parse_collection(dump.header@) == Some(
        (c.name@, c.id, parse_collection(dump.header@)->Some_0.2, c.vector_dimension as u64),
    )
    &&& metric_of_name(parse_collection(dump.header@)->Some_0.2) == Ok::<LSHMetric, DbError>(c.lsh_metric)
    &&& restored(dump.bucket_views(), Some(c.vector_dimension), dump.buckets@.len()) == Some(
        c.buckets(),
    )
}

/// The written collection can be read: its header is readable and names a metric, its
/// dimension is within the machine's range, and all its buckets can be taken into an
/// index.
pub open spec fn loadable(dump: CollectionDump) -> bool {
    &&& parse_collection(dump.header@) is Some
    &&& metric_of_name(parse_collection(dump.header@)->Some_0.2) is Ok
    &&& parse_collection(dump.header@)->Some_0.3 <= usize::MAX
    &&& restored(
        dump.bucket_views(),
        Some(parse_collection(dump.header@)->Some_0.3 as usize),
        dump.buckets@.len(),
    ) is Some
}

/// The name that a written collection's header gives.
pub open spec fn dumped_name(dump: CollectionDump) -> Seq<char> {
    parse_collection(dump.header@)->Some_0.0
}

/// Reads a collection back: its header, then every bucket into a new index. What
/// cannot be read, names no metric, or does not fit, is an I/O error.
pub fn load_collection(dump: &CollectionDump) -> (r: Result<Collection, DbError>)
    ensures
        match r {
            Ok(c) => loads(*dump, c) && loadable(*dump),
            Err(e) => e == DbError::Io && !loadable(*dump),
        },
{
    let header = match decode_collection(dump.header.as_slice()) {
        Ok(h) => h,
        Err(_) => {
            return Err(DbError::Io);
        },
    };
    let metric = match LSHMetric::from_string(header.lsh_metric.as_str()) {
        Ok(m) => m,
        Err(_) => {
            return Err(DbError::Io);
        },
    };
    let ghost stored_name = header.name@;
    let mut c = Collection::new(Some(header.name), metric, header.vector_dimension);
    c.set_hash_id(header.id);
    let ghost d = Some(header.vector_dimension);
    let mut p: usize = 0;
    while p < dump.buckets.len()
        invariant
            0 <= p <= dump.buckets@.len(),
            c.wf(),
            c.default_hasher(),
            c.name@ == stored_name,
            c.id == header.id,
            c.lsh_metric == metric,
            c.vector_dimension == header.vector_dimension,
            d == Some(header.vector_dimension),
            parse_collection(dump.header@) == Some(
                (stored_name, header.id, header.lsh_metric@, header.vector_dimension as u64),
            ),
            restored(dump.bucket_views(), d, p as nat) == Some(c.buckets()),
        decreases dump.buckets.len() - p,
    {
        match c.buckets_controller.restore_bucket(&dump.buckets[p]) {
            Ok(_) => {},
            Err(_) => {
                proof {
                    assert(restored(dump.bucket_views(), d, (p + 1) as nat) is None);
                    lemma_restore_fail(dump.bucket_views(), d, (p + 1) as nat, dump.buckets@.len());
                }
                return Err(DbError::Io);
            },
        }
        p += 1;
    }
    Ok(c)
}

/// Once the first `m` written buckets cannot be taken in, no longer list can.
proof fn lemma_restore_fail(recs: Seq<BucketDumpView>, d: Option<usize>, m: nat, n: nat)
    requires
        m <= n,
        restored(recs, d, m) is None,
    ensures
        restored(recs, d, n) is None,
    decreases n,
{
    if m < n {
        lemma_restore_fail(recs, d, m, (n - 1) as nat);
    }
}

} // verus!
