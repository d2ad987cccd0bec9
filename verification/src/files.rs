//! Where a node's records lie on disk: the files to write and the names to read.

use vstd::prelude::*;
use crate::metadata::Metadata;
use crate::paths::bucket_dir;
use crate::paths::collection_dir;
use crate::paths::decimal;
use crate::paths::decimal_string;
use crate::paths::file_name;
use crate::paths::decimal_value;
use crate::paths::file_id;
use crate::paths::file_name_string;
use crate::paths::is_bucket_dir_name;
use crate::paths::parse_file_name;
use crate::storage::CollectionDump;

verus! {

/// One file to write: the directory to make if absent, the file's name in it, and
/// the file's content.
pub struct FileWrite {
    pub dir: String,
    pub file_name: String,
    pub data: Vec<u8>,
}

/// A file to write, as plain values.
pub struct FileWriteView {
    pub dir: Seq<char>,
    pub file_name: Seq<char>,
    pub data: Seq<u8>,
}

impl View for FileWrite {
    type V = FileWriteView;

    open spec fn view(&self) -> FileWriteView {
        FileWriteView { dir: self.dir@, file_name: self.file_name@, data: self.data@ }
    }
}

/// The storage root that a configuration names; the working directory where it names
/// none.
pub open spec fn root_of(configs: Map<Seq<char>, Seq<char>>) -> Seq<char> {
    if configs.contains_key("path"@) {
        configs["path"@]
    } else {
        "."@
    }
}

/// The write of a bucket's header.
pub open spec fn bucket_write(root: Seq<char>, collection: Seq<char>, id: u64, header: Seq<u8>) -> FileWriteView {
    FileWriteView {
        dir: bucket_dir(root, collection, decimal(id as nat)),
        file_name: file_name(0),
        data: header,
    }
}

/// The write of a vector's record into its bucket.
pub open spec fn vector_write(
    root: Seq<char>,
    collection: Seq<char>,
    bucket: u64,
    rec: (u64, Seq<u8>),
) -> FileWriteView {
    FileWriteView {
        dir: bucket_dir(root, collection, decimal(bucket as nat)) + "/vectors"@,
        file_name: file_name(rec.0),
        data: rec.1,
    }
}

/// The writes of all bucket headers, in order.
pub open spec fn header_writes(root: Seq<char>, collection: Seq<char>, bs: Seq<crate::storage::BucketDumpView>) -> Seq<
    FileWriteView,
> {
    Seq::new(bs.len(), |p: int| bucket_write(root, collection, bs[p].id, bs[p].header))
}

/// The writes of the vectors of one bucket, in order.
pub open spec fn bucket_vector_writes(
    root: Seq<char>,
    collection: Seq<char>,
    b: crate::storage::BucketDumpView,
) -> Seq<FileWriteView> {
    Seq::new(b.vectors.len(), |i: int| vector_write(root, collection, b.id, b.vectors[i]))
}

/// The writes of the vectors of all buckets, bucket by bucket.
pub open spec fn vector_writes(root: Seq<char>, collection: Seq<char>, bs: Seq<crate::storage::BucketDumpView>) -> Seq<
    FileWriteView,
>
    decreases bs.len(),
{
    if bs.len() == 0 {
        Seq::empty()
    } else {
        vector_writes(root, collection, bs.drop_last()) + bucket_vector_writes(
            root,
            collection,
            bs.last(),
        )
    }
}

/// The name is a bucket directory's: a decimal number within 64 bits.
pub open spec fn is_bucket_name(name: Seq<char>) -> bool {
    decimal_value(name) is Some && decimal_value(name)->Some_0 <= u64::MAX
}

/// The bucket directories among the first `n` names, in order.
pub open spec fn bucket_names_upto(names: Seq<Seq<char>>, n: nat) -> Seq<Seq<char>>
    decreases n,
{
    if n == 0 {
        Seq::empty()
    } else if is_bucket_name(names[n - 1]) {
        bucket_names_upto(names, (n - 1) as nat).push(names[n - 1])
    } else {
        bucket_names_upto(names, (n - 1) as nat)
    }
}

/// The record identifiers that the first `n` file names stand for, in order; a name
/// that stands for none is passed over.
pub open spec fn record_ids_upto(names: Seq<Seq<char>>, n: nat) -> Seq<u64>
    decreases n,
{
    if n == 0 {
        Seq::empty()
    } else if file_id(names[n - 1]) is Some && file_id(names[n - 1])->Some_0 <= u64::MAX {
        record_ids_upto(names, (n - 1) as nat).push(file_id(names[n - 1])->Some_0 as u64)
    } else {
        record_ids_upto(names, (n - 1) as nat)
    }
}

/// The texts of a list of names.
pub open spec fn name_views(names: Seq<String>) -> Seq<Seq<char>> {
    Seq::new(names.len(), |i: int| names[i]@)
}

/// A list of writes as plain values.
pub open spec fn write_views(ws: Seq<FileWrite>) -> Seq<FileWriteView> {
    Seq::new(ws.len(), |i: int| ws[i]@)
}

/// Lays out a node's files under `<root>/storage/`.
pub struct StorageController {
    configs: Metadata,
}

impl StorageController {
    pub closed spec fn configs(&self) -> Map<Seq<char>, Seq<char>> {
        self.configs@
    }

    pub closed spec fn wf(&self) -> bool {
        self.configs.wf()
    }

    /// The storage root.
    pub open spec fn root(&self) -> Seq<char> {
        root_of(self.configs())
    }

    /// A layout under the root that `configs` names under `path`.
    pub fn new(configs: Metadata) -> (s: StorageController)
        requires
            configs.wf(),
        ensures
            s.wf(),
            s.configs() == configs@,
    {
        StorageController { configs }
    }

    /// The storage root as text.
    pub fn root_path(&self) -> (r: String)
        requires
            self.wf(),
        ensures
            r@ == self.root(),
    {
        match self.configs.get("path") {
            Some(p) => p.clone(),
            None => ".".to_owned(),
        }
    }

    /// The directory that holds all collections.
    pub fn storage_dir(&self) -> (r: String)
        requires
            self.wf(),
        ensures
            r@ == self.root() + "/storage"@,
    {
        self.root_path().concat("/storage")
    }

    /// The directory of a collection.
    pub fn collection_path(&self, collection_name: &str) -> (r: String)
        requires
            self.wf(),
        ensures
            r@ == collection_dir(self.root(), collection_name@),
    {
        self.root_path().concat("/storage/").concat(collection_name)
    }

    /// The directory of a bucket.
    pub fn bucket_path(&self, collection_name: &str, bucket_name: &str) -> (r: String)
        requires
            self.wf(),
        ensures
            r@ == bucket_dir(self.root(), collection_name@, bucket_name@),
    {
        self.collection_path(collection_name).concat("/").concat(bucket_name)
    }

    /// The write of a collection's header: into the collection's directory, under the
    /// collection's identifier.
    pub fn save_collection(&self, collection_name: String, raw_data: Vec<u8>, hash_id: u64) -> (w:
        FileWrite)
        requires
            self.wf(),
        ensures
            w@ == (FileWriteView {
                dir: collection_dir(self.root(), collection_name@),
                file_name: file_name(hash_id),
                data: raw_data@,
            }),
    {
        FileWrite {
            dir: self.collection_path(collection_name.as_str()),
            file_name: file_name_string(hash_id),
            data: raw_data,
        }
    }

    /// The write of a vector's record into the collection's own `vectors` directory.
    pub fn save_vector(&self, collection_name: String, raw_data: Vec<u8>, hash_id: u64) -> (w: FileWrite)
        requires
            self.wf(),
        ensures
            w@ == (FileWriteView {
                dir: collection_dir(self.root(), collection_name@) + "/vectors"@,
                file_name: file_name(hash_id),
                data: raw_data@,
            }),
    {
        FileWrite {
            dir: self.collection_path(collection_name.as_str()).concat("/vectors"),
            file_name: file_name_string(hash_id),
            data: raw_data,
        }
    }

    /// The write of a bucket's header: into the bucket's directory, as `0.bin`.
    pub fn save_bucket(&self, collection_name: String, bucket_name: String, raw_data: Vec<u8>) -> (w:
        FileWrite)
        requires
            self.wf(),
        ensures
            w@ == (FileWriteView {
                dir: bucket_dir(self.root(), collection_name@, bucket_name@),
                file_name: file_name(0),
                data: raw_data@,
            }),
    {
        FileWrite {
            dir: self.bucket_path(collection_name.as_str(), bucket_name.as_str()),
            file_name: file_name_string(0),
            data: raw_data,
        }
    }

    /// The write of a vector's record into its bucket's `vectors` directory.
    pub fn save_vector_to_bucket(
        &self,
        collection_name: String,
        bucket_name: String,
        vector_id: u64,
        raw_data: Vec<u8>,
    ) -> (w: FileWrite)
        requires
            self.wf(),
        ensures
            w@ == (FileWriteView {
                dir: bucket_dir(self.root(), collection_name@, bucket_name@) + "/vectors"@,
                file_name: file_name(vector_id),
                data: raw_data@,
            }),
    {
        FileWrite {
            dir: self.bucket_path(collection_name.as_str(), bucket_name.as_str()).concat("/vectors"),
            file_name: file_name_string(vector_id),
            data: raw_data,
        }
    }

    /// The path of a vector's record in its bucket.
    pub fn vector_path(&self, collection_name: &str, bucket_name: &str, vector_id: u64) -> (r: String)
        requires
            self.wf(),
        ensures
            r@ == bucket_dir(self.root(), collection_name@, bucket_name@) + "/vectors/"@ + file_name(
                vector_id,
            ),
    {
        let name = file_name_string(vector_id);
        self.bucket_path(collection_name, bucket_name).concat("/vectors/").concat(name.as_str())
    }

    /// The path of a bucket's header.
    pub fn bucket_header_path(&self, collection_name: &str, bucket_name: &str) -> (r: String)
        requires
            self.wf(),
        ensures
            r@ == bucket_dir(self.root(), collection_name@, bucket_name@) + "/"@ + file_name(0),
    {
        let name = file_name_string(0);
        self.bucket_path(collection_name, bucket_name).concat("/").concat(name.as_str())
    }

    /// The bucket directories among the directory names found in a collection's
    /// directory: those that are decimal numbers. The reserved name `vectors` is none.
    pub fn get_all_buckets_names(&self, dir_names: &Vec<String>) -> (r: Vec<String>)
        ensures
            name_views(r@) == bucket_names_upto(name_views(dir_names@), dir_names@.len()),
    {
        let ghost names = name_views(dir_names@);
        let mut out: Vec<String> = Vec::new();
        let mut i: usize = 0;
        assert(name_views(out@) =~= bucket_names_upto(names, 0));
        while i < dir_names.len()
            invariant
                0 <= i <= dir_names@.len(),
                names == name_views(dir_names@),
                name_views(out@) == bucket_names_upto(names, i as nat),
            decreases dir_names.len() - i,
        {
            let ghost done = name_views(out@);
            if is_bucket_dir_name(dir_names[i].as_str()) {
                out.push(dir_names[i].clone());
                assert(name_views(out@) =~= done.push(names[i as int]));
            }
            i += 1;
        }
        out
    }

    /// The record identifiers that the file names found in a `vectors` directory stand
    /// for.
    pub fn get_all_vectors_names(&self, file_names: &Vec<String>) -> (r: Vec<u64>)
        ensures
            r@ == record_ids_upto(name_views(file_names@), file_names@.len()),
    {
        let ghost names = name_views(file_names@);
        let mut out: Vec<u64> = Vec::new();
        let mut i: usize = 0;
        while i < file_names.len()
            invariant
                0 <= i <= file_names@.len(),
                names == name_views(file_names@),
                out@ == record_ids_upto(names, i as nat),
            decreases file_names.len() - i,
        {
            match parse_file_name(file_names[i].as_str()) {
                Some(id) => {
                    out.push(id);
                },
                None => {},
            }
            i += 1;
        }
        out
    }

    /// Every file that a written collection consists of: the collection's header, then
    /// the header of every bucket, then the record of every vector.
    pub fn plan_dump(&self, dump: &CollectionDump) -> (writes: Vec<FileWrite>)
        requires
            self.wf(),
        ensures
            write_views(writes@) == seq![
                (FileWriteView {
                    dir: collection_dir(self.root(), dump.name@),
                    file_name: file_name(dump.hash_id),
                    data: dump.header@,
                }),
            ] + header_writes(self.root(), dump.name@, dump.bucket_views()) + vector_writes(
                self.root(),
                dump.name@,
                dump.bucket_views(),
            ),
    {
        let ghost root = self.root();
        let ghost bs = dump.bucket_views();
        let mut writes: Vec<FileWrite> = Vec::new();
        let header = dump.header.clone();
        assert(header@ =~= dump.header@);
        writes.push(self.save_collection(dump.name.clone(), header, dump.hash_id));
        let ghost first = write_views(writes@);
        let mut p: usize = 0;
        while p < dump.buckets.len()
            invariant
                0 <= p <= dump.buckets@.len(),
                self.wf(),
                root == self.root(),
                bs == dump.bucket_views(),
                write_views(writes@) == first + header_writes(root, dump.name@, bs).take(p as int),
            decreases dump.buckets.len() - p,
        {
            let b = &dump.buckets[p];
            let data = b.header.clone();
            assert(data@ =~= b.header@);
            let ghost prev = write_views(writes@);
            let w = self.save_bucket(dump.name.clone(), decimal_string(b.id), data);
            writes.push(w);
            proof {
                let hw = header_writes(root, dump.name@, bs);
                assert(write_views(writes@) =~= prev.push(w@));
                assert(hw[p as int] == w@);
                assert(hw.take(p + 1) =~= hw.take(p as int).push(hw[p as int]));
                assert(write_views(writes@) =~= first + hw.take(p + 1));
            }
            p += 1;
        }
        let ghost headers = header_writes(root, dump.name@, bs);
        assert(headers.take(p as int) =~= headers);
        let mut q: usize = 0;
        while q < dump.buckets.len()
            invariant
                0 <= q <= dump.buckets@.len(),
                self.wf(),
                root == self.root(),
                bs == dump.bucket_views(),
                write_views(writes@) == first + headers + vector_writes(root, dump.name@, bs.take(q as int)),
            decreases dump.buckets.len() - q,
        {
            let b = &dump.buckets[q];
            let ghost head = write_views(writes@);
            let mut i: usize = 0;
            while i < b.vectors.len()
                invariant
                    0 <= i <= b.vectors@.len(),
                    self.wf(),
                    root == self.root(),
                    bs == dump.bucket_views(),
                    q < dump.buckets@.len(),
                    *b == dump.buckets@[q as int],
                    write_views(writes@) == head + bucket_vector_writes(root, dump.name@, bs[q as int]).take(
                        i as int,
                    ),
                decreases b.vectors.len() - i,
            {
                let data = b.vectors[i].1.clone();
                assert(data@ =~= b.vectors@[i as int].1@);
                let ghost prev = write_views(writes@);
                let w = self.save_vector_to_bucket(
                    dump.name.clone(),
                    decimal_string(b.id),
                    b.vectors[i].0,
                    data,
                );
                writes.push(w);
                proof {
                    let vw = bucket_vector_writes(root, dump.name@, bs[q as int]);
                    assert(write_views(writes@) =~= prev.push(w@));
                    assert(bs[q as int] == b@);
                    assert(vw[i as int] == w@);
                    assert(vw.take(i + 1) =~= vw.take(i as int).push(vw[i as int]));
                    assert(write_views(writes@) =~= head + vw.take(i + 1));
                }
                i += 1;
            }
            proof {
                let vw = bucket_vector_writes(root, dump.name@, bs[q as int]);
                assert(vw.take(i as int) =~= vw);
                assert(bs.take(q + 1).drop_last() =~= bs.take(q as int));
                assert(bs.take(q + 1).last() == bs[q as int]);
                assert(write_views(writes@) =~= first + headers + vector_writes(
                    root,
                    dump.name@,
                    bs.take(q + 1),
                ));
            }
            q += 1;
        }
        assert(bs.take(q as int) == bs);
        writes
    }
}

} // verus!
