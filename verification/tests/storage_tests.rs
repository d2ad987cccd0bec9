use vector_db::codec::encode_bucket;
use vector_db::codec::encode_collection;
use vector_db::codec::encode_content;
use vector_db::codec::encode_vector;
use vector_db::collection::Collection;
use vector_db::config::ConfigLoader;
use vector_db::config::ConnectionController;
use vector_db::controllers::VectorController;
use vector_db::decode::decode_bucket;
use vector_db::decode::decode_collection;
use vector_db::decode::decode_vector;
use vector_db::error::DbError;
use vector_db::files::StorageController;
use vector_db::interfaces::CollectionObjectController;
use vector_db::interfaces::Object;
use vector_db::lsh::Embedding;
use vector_db::lsh::LSHMetric;
use vector_db::metadata::Metadata;
use vector_db::metadata_controller::MetadataController;
use vector_db::objects::Bucket;
use vector_db::objects::Vector;
use vector_db::paths::decimal_string;
use vector_db::paths::ends_with;
use vector_db::paths::file_name_string;
use vector_db::paths::is_bucket_dir_name;
use vector_db::paths::parse_decimal;
use vector_db::paths::parse_file_name;
use vector_db::paths::starts_with;
use vector_db::registry::CollectionController;
use vector_db::sharding::RoutingStrategy;
use vector_db::storage::dump_collection;
use vector_db::storage::load_collection;
use vector_db::text::bytes_eq;
use vector_db::text::bytes_lt;
use vector_db::text::str_before;
use vector_db::text::str_eq;

fn bits(v: &[f32]) -> Vec<u32> {
    v.iter().map(|x| x.to_bits()).collect()
}

fn meta(pairs: &[(&str, &str)]) -> Metadata {
    let mut m = Metadata::new();
    for (k, v) in pairs {
        m.insert(k.to_string(), v.to_string());
    }
    m
}

fn keys(m: &Metadata) -> Vec<String> {
    (0..m.len()).map(|i| m.key_at(i).clone()).collect()
}

#[test]
fn text_order_is_the_order_of_bytes() {
    assert!(bytes_eq(b"abc", b"abc"));
    assert!(!bytes_eq(b"abc", b"abd"));
    assert!(!bytes_eq(b"abc", b"ab"));
    assert!(bytes_lt(b"ab", b"abc"));
    assert!(bytes_lt(b"abc", b"abd"));
    assert!(!bytes_lt(b"abc", b"abc"));
    assert!(!bytes_lt(b"b", b"abc"));
    assert!(bytes_lt(b"", b"a"));
    assert!(!bytes_lt(b"", b""));
    assert!(str_eq("шард", "шард"));
    assert!(!str_eq("шард", "шарт"));
    assert!(str_before("a", "b"));
    assert!(str_before("Z", "a"));
    assert!(!str_before("b", "a"));
}

#[test]
fn metadata_is_a_map_with_ascending_keys() {
    let mut m = Metadata::new();
    assert!(m.is_empty());
    m.insert("lang".to_string(), "ru".to_string());
    m.insert("cat".to_string(), "doc".to_string());
    m.insert("zeta".to_string(), "1".to_string());
    m.insert("cat".to_string(), "img".to_string());
    assert_eq!(m.len(), 3);
    assert_eq!(keys(&m), vec!["cat", "lang", "zeta"]);
    assert_eq!(m.value_at(0), "img");
    assert_eq!(m.get("cat").unwrap(), "img");
    assert!(m.get("Cat").is_none());
    assert!(m.contains_key("lang"));
    assert!(m.remove("lang"));
    assert!(!m.remove("lang"));
    assert_eq!(keys(&m), vec!["cat", "zeta"]);
    let copy = m.clone();
    assert_eq!(keys(&copy), vec!["cat", "zeta"]);
    let mut other = meta(&[("zeta", "2"), ("alpha", "0")]);
    other.extend(&m);
    assert_eq!(keys(&other), vec!["alpha", "cat", "zeta"]);
    assert_eq!(other.get("zeta").unwrap(), "1");
    assert!(other.push_last("zz".to_string(), "x".to_string()));
    assert!(!other.push_last("b".to_string(), "x".to_string()));
    assert!(!other.push_last("zz".to_string(), "x".to_string()));
}

#[test]
fn metadata_matches_when_it_holds_every_filter_entry() {
    let m = meta(&[("cat", "doc"), ("lang", "ru")]);
    assert!(m.matches(&Metadata::new()));
    assert!(m.matches(&meta(&[("cat", "doc")])));
    assert!(m.matches(&meta(&[("cat", "doc"), ("lang", "ru")])));
    assert!(!m.matches(&meta(&[("cat", "img")])));
    assert!(!m.matches(&meta(&[("cat", "doc"), ("x", "y")])));
    assert!(!Metadata::new().matches(&meta(&[("cat", "doc")])));
}

#[test]
fn bucket_header_is_three_words_least_significant_byte_first() {
    let bytes = encode_bucket(0x0102, -1, 3);
    let mut expected = vec![2u8, 1, 0, 0, 0, 0, 0, 0];
    expected.extend([0xffu8; 8]);
    expected.extend([3u8, 0, 0, 0, 0, 0, 0, 0]);
    assert_eq!(bytes, expected);
    let h = decode_bucket(&bytes).unwrap();
    assert_eq!((h.id, h.created_at, h.updated_at), (0x0102, -1, 3));
    assert_eq!(decode_bucket(&bytes[..23]).err(), Some(DbError::Io));
    let mut long = bytes.clone();
    long.push(0);
    assert_eq!(decode_bucket(&long).err(), Some(DbError::Io));
}

#[test]
fn vector_record_layout() {
    let bytes = encode_vector(&bits(&[1.0]), 2, &meta(&[("k", "đ")]), 9);
    let mut expected: Vec<u8> = Vec::new();
    expected.extend(1u64.to_le_bytes());
    expected.extend(1.0f32.to_le_bytes());
    expected.extend(2i64.to_le_bytes());
    expected.extend(1u64.to_le_bytes());
    expected.extend(1u64.to_le_bytes());
    expected.extend(b"k");
    expected.extend(2u64.to_le_bytes());
    expected.extend("đ".as_bytes());
    expected.extend(9u64.to_le_bytes());
    assert_eq!(bytes, expected);
    assert_eq!(encode_content(&bits(&[1.0]), 2, &meta(&[("k", "đ")])), expected[..expected.len() - 8]);
}

#[test]
fn vector_record_reads_back() {
    let m = meta(&[("lang", "ru"), ("cat", "документ"), ("", "")]);
    let bytes = encode_vector(&bits(&[1.5, -0.0, f32::NAN]), -77, &m, u64::MAX);
    let v = decode_vector(&bytes).unwrap();
    assert_eq!(v.data, bits(&[1.5, -0.0, f32::NAN]));
    assert_eq!(v.timestamp, -77);
    assert_eq!(v.hash_id, u64::MAX);
    assert_eq!(keys(&v.metadata), vec!["", "cat", "lang"]);
    assert_eq!(v.metadata.get("cat").unwrap(), "документ");
    assert_eq!(encode_vector(&v.data, v.timestamp, &v.metadata, v.hash_id), bytes);
}

#[test]
fn unreadable_vector_records_are_refused() {
    let bytes = encode_vector(&bits(&[1.0]), 2, &meta(&[("a", "1"), ("b", "2")]), 9);
    assert!(decode_vector(&bytes).is_ok());
    assert_eq!(decode_vector(&[]).err(), Some(DbError::Io));
    assert_eq!(decode_vector(&bytes[..bytes.len() - 1]).err(), Some(DbError::Io));
    let mut long = bytes.clone();
    long.push(1);
    assert_eq!(decode_vector(&long).err(), Some(DbError::Io));
    let mut huge = bytes.clone();
    huge[0] = 0xff;
    huge[7] = 0xff;
    assert_eq!(decode_vector(&huge).err(), Some(DbError::Io));
    // a key that is not UTF-8
    let mut bad: Vec<u8> = Vec::new();
    bad.extend(0u64.to_le_bytes());
    bad.extend(0i64.to_le_bytes());
    bad.extend(1u64.to_le_bytes());
    bad.extend(1u64.to_le_bytes());
    bad.push(0xff);
    bad.extend(0u64.to_le_bytes());
    bad.extend(5u64.to_le_bytes());
    assert_eq!(decode_vector(&bad).err(), Some(DbError::Io));
    // keys out of order
    let mut unordered: Vec<u8> = Vec::new();
    unordered.extend(0u64.to_le_bytes());
    unordered.extend(0i64.to_le_bytes());
    unordered.extend(2u64.to_le_bytes());
    for k in ["b", "a"] {
        unordered.extend(1u64.to_le_bytes());
        unordered.extend(k.as_bytes());
        unordered.extend(0u64.to_le_bytes());
    }
    unordered.extend(5u64.to_le_bytes());
    assert_eq!(decode_vector(&unordered).err(), Some(DbError::Io));
}

#[test]
fn collection_header_reads_back() {
    let bytes = encode_collection("docs", 17, "Cosine", 384);
    let h = decode_collection(&bytes).unwrap();
    assert_eq!(h.name, "docs");
    assert_eq!(h.id, 17);
    assert_eq!(h.lsh_metric, "Cosine");
    assert_eq!(h.vector_dimension, 384);
    assert_eq!(decode_collection(&bytes[1..]).err(), Some(DbError::Io));
}

#[test]
fn objects_dump_and_load() {
    let v = Vector::new(Some(bits(&[1.0, 2.0])), Some(3), Some(meta(&[("k", "v")])));
    let (bytes, id) = Object::dump(&v).unwrap();
    assert_eq!(id, v.hash_id());
    let mut w = Vector::new(None, None, None);
    assert_eq!(Object::load(&mut w, bytes), Ok(()));
    assert_eq!(w.data, v.data);
    assert_eq!(w.timestamp, 3);
    assert_eq!(w.hash_id(), v.hash_id());
    assert_eq!(w.metadata.get("k").unwrap(), "v");
    assert_eq!(Object::load(&mut w, vec![1, 2, 3]), Err(DbError::Io));
    assert_eq!(w.timestamp, 3);

    let mut b = Bucket::new_at(4, 10);
    b.add_vector_at(bits(&[1.0]), Metadata::new(), 11).unwrap();
    let (bytes, id) = Object::dump(&b).unwrap();
    assert_eq!(id, 4);
    let mut c = Bucket::new_at(0, 0);
    assert_eq!(Object::load(&mut c, bytes), Ok(()));
    assert_eq!((c.id, c.created_at, c.updated_at), (4, 10, 11));
    assert_eq!(c.size(), 0);
    assert_eq!(Object::load(&mut c, vec![]), Err(DbError::Io));

    let col = Collection::new(Some("docs".to_string()), LSHMetric::Manhattan, 7);
    let (bytes, id) = Object::dump(&col).unwrap();
    assert_eq!(id, col.hash_id());
    let mut other = Collection::new(None, LSHMetric::Euclidean, 384);
    assert_eq!(Object::load(&mut other, bytes), Ok(()));
    assert_eq!(other.name, "docs");
    assert_eq!(other.lsh_metric, LSHMetric::Manhattan);
    assert_eq!(other.vector_dimension, 7);
    assert_eq!(other.hash_id(), col.hash_id());
    assert_eq!(other.buckets_controller.dimension, Some(7));
    let lsh = other.buckets_controller.lsh.as_ref().unwrap();
    assert_eq!((lsh.num_hashes, lsh.bucket_width, lsh.seed), (3, 10.0f32.to_bits(), 42));
    let odd = encode_collection("x", 1, "Chebyshev", 2);
    assert_eq!(Object::load(&mut other, odd), Err(DbError::Io));
    assert_eq!(other.name, "docs");
    assert_eq!(other.lsh_metric, LSHMetric::Manhattan);
    assert_eq!(other.vector_dimension, 7);
}

#[test]
fn containers_dump_and_load() {
    let mut c = VectorController::new();
    let a = c.add_vector_at(Some(bits(&[1.0])), Some(meta(&[("n", "a")])), None, None, 10).unwrap();
    let b = c.add_vector_at(Some(bits(&[2.0])), None, None, None, 11).unwrap();
    let records = CollectionObjectController::dump(&c);
    assert_eq!(records.len(), 2);
    assert_eq!(records[0].0, a);
    assert_eq!(records[1].0, b);
    let mut d = VectorController::new();
    assert_eq!(CollectionObjectController::load(&mut d, records.clone()), Ok(()));
    assert_eq!(d.get_vector(0).unwrap().hash_id(), a);
    assert_eq!(d.get_vector(1).unwrap().data, bits(&[2.0]));
    let mut wrong = records;
    wrong[1].0 = b + 1;
    assert_eq!(CollectionObjectController::load(&mut d, wrong), Err(DbError::Io));
    assert_eq!(d.get_vector(1).unwrap().hash_id(), b);

    let mut index = vector_db::buckets::BucketController::new(1, 1, 1.0f32.to_bits(), LSHMetric::Cosine, Some(1));
    index.add_vector_at(Embedding { data: bits(&[1.0]), cells: vec![6] }, Metadata::new(), 3).unwrap();
    let headers = CollectionObjectController::dump(&index);
    assert_eq!(headers, vec![(6u64, encode_bucket(6, 3, 3))]);
    assert_eq!(CollectionObjectController::load(&mut index, vec![]), Ok(()));
    assert_eq!(CollectionObjectController::load(&mut index, headers), Err(DbError::InvalidArgument));
    assert_eq!(index.count(), 1);
}

fn sample_registry() -> CollectionController {
    let mut db = CollectionController::new();
    db.add_collection("docs".to_string(), LSHMetric::Cosine, 2).unwrap();
    db.add_collection("empty".to_string(), LSHMetric::Manhattan, 5).unwrap();
    let cells = [[3i64, 0, 0], [1, 0, 0], [3, 0, 0], [2, 2, 2]];
    for (i, c) in cells.iter().enumerate() {
        db.add_vector_at(
            "docs",
            Embedding { data: bits(&[i as f32, -1.0]), cells: c.to_vec() },
            meta(&[("n", &i.to_string()), ("cat", "doc")]),
            100 + i as i64,
        )
        .unwrap();
    }
    db
}

#[test]
fn dump_then_load_restores_the_registry() {
    let db = sample_registry();
    let dumps = db.dump();
    assert_eq!(dumps.len(), 2);
    let mut back = CollectionController::new();
    assert_eq!(back.load(&dumps), 2);
    for name in ["docs", "empty"] {
        let a = db.get_collection(name).unwrap();
        let b = back.get_collection(name).unwrap();
        assert_eq!(a.name, b.name);
        assert_eq!(a.vector_dimension, b.vector_dimension);
        assert_eq!(a.lsh_metric, b.lsh_metric);
        assert_eq!(a.hash_id(), b.hash_id());
        let (h, g) = (a.buckets_controller.lsh.as_ref().unwrap(), b.buckets_controller.lsh.as_ref().unwrap());
        assert_eq!((g.num_hashes, g.bucket_width, g.seed), (3, 10.0f32.to_bits(), 42));
        assert_eq!((g.num_hashes, g.bucket_width, g.seed), (h.num_hashes, h.bucket_width, h.seed));
        assert_eq!((g.dimension, g.metric), (h.dimension, h.metric));
        let xs = a.buckets_controller.get_all_buckets();
        let ys = b.buckets_controller.get_all_buckets();
        assert_eq!(xs.len(), ys.len());
        for (x, y) in xs.iter().zip(ys.iter()) {
            assert_eq!((x.id, x.created_at, x.updated_at), (y.id, y.created_at, y.updated_at));
            assert_eq!(x.size(), y.size());
            for i in 0..x.size() {
                let v = x.vectors_controller.get_vector(i).unwrap();
                let w = y.vectors_controller.get_vector(i).unwrap();
                assert_eq!(v.hash_id(), w.hash_id());
                assert_eq!(v.data, w.data);
                assert_eq!(v.timestamp, w.timestamp);
                assert_eq!(
                    encode_vector(&v.data, v.timestamp, &v.metadata, v.hash_id()),
                    encode_vector(&w.data, w.timestamp, &w.metadata, w.hash_id())
                );
            }
        }
    }
    assert_eq!(back.load(&dumps), 0);
    assert_eq!(back.load_one(&dumps[0]), Err(DbError::AlreadyExists));
}

#[test]
fn load_accepts_buckets_in_any_order_and_refuses_what_does_not_fit() {
    let db = sample_registry();
    let mut dump = dump_collection(db.get_collection("docs").unwrap());
    dump.buckets.reverse();
    let c = load_collection(&dump).unwrap();
    let ids: Vec<u64> = c.buckets_controller.get_all_buckets().iter().map(|b| b.id).collect();
    let mut sorted = ids.clone();
    sorted.sort();
    assert_eq!(ids, sorted);
    assert_eq!(c.buckets_controller.total_vectors(), 4);

    let mut twice = dump_collection(db.get_collection("docs").unwrap());
    let again = dump_collection(db.get_collection("docs").unwrap());
    twice.buckets.extend(again.buckets);
    assert_eq!(load_collection(&twice).err(), Some(DbError::Io));

    let mut renamed = dump_collection(db.get_collection("docs").unwrap());
    renamed.buckets[0].vectors[0].0 += 1;
    assert_eq!(load_collection(&renamed).err(), Some(DbError::Io));

    let mut hollow = dump_collection(db.get_collection("docs").unwrap());
    hollow.buckets[0].vectors.clear();
    assert_eq!(load_collection(&hollow).err(), Some(DbError::Io));

    let mut garbled = dump_collection(db.get_collection("docs").unwrap());
    garbled.header.pop();
    assert_eq!(load_collection(&garbled).err(), Some(DbError::Io));

    let mut resized = dump_collection(db.get_collection("docs").unwrap());
    resized.header = encode_collection("docs", 1, "Cosine", 3);
    assert_eq!(load_collection(&resized).err(), Some(DbError::Io));

    let whole = dump_collection(db.get_collection("docs").unwrap());
    let header = decode_collection(&whole.header).unwrap();
    let mut unnamed = dump_collection(db.get_collection("docs").unwrap());
    unnamed.header = encode_collection("docs", header.id, "Chebyshev", header.vector_dimension);
    assert_eq!(load_collection(&unnamed).err(), Some(DbError::Io));
    unnamed.header = encode_collection("docs", header.id, "cosine", header.vector_dimension);
    assert_eq!(load_collection(&unnamed).err(), Some(DbError::Io));
    unnamed.header = encode_collection("docs", header.id, header.lsh_metric.as_str(), header.vector_dimension);
    assert!(load_collection(&unnamed).is_ok());
}

#[test]
fn dump_vectors_lists_every_vector_with_its_bucket() {
    let db = sample_registry();
    let index = &db.get_collection("docs").unwrap().buckets_controller;
    let records = index.dump_vectors();
    assert_eq!(records.len(), 4);
    let mut expected = Vec::new();
    for b in index.get_all_buckets() {
        for i in 0..b.size() {
            let v = b.vectors_controller.get_vector(i).unwrap();
            expected.push((b.id, v.hash_id(), encode_vector(&v.data, v.timestamp, &v.metadata, v.hash_id())));
        }
    }
    assert_eq!(records, expected);
}

#[test]
fn numbers_are_written_and_read_in_decimal() {
    assert_eq!(decimal_string(0), "0");
    assert_eq!(decimal_string(7), "7");
    assert_eq!(decimal_string(1203), "1203");
    assert_eq!(decimal_string(u64::MAX), "18446744073709551615");
    assert_eq!(parse_decimal("0"), Some(0));
    assert_eq!(parse_decimal("007"), Some(7));
    assert_eq!(parse_decimal("18446744073709551615"), Some(u64::MAX));
    assert_eq!(parse_decimal("18446744073709551616"), None);
    assert_eq!(parse_decimal("99999999999999999999999"), None);
    assert_eq!(parse_decimal(""), None);
    assert_eq!(parse_decimal("12a"), None);
    assert_eq!(parse_decimal("+5"), None);
    assert_eq!(parse_decimal("-5"), None);
    assert_eq!(parse_decimal("٣"), None);
    for n in [0u64, 9, 10, 99, 100, 4242, u64::MAX] {
        assert_eq!(parse_decimal(&decimal_string(n)), Some(n));
    }
}

#[test]
fn file_names_carry_identifiers() {
    assert_eq!(file_name_string(42), "42.bin");
    assert_eq!(parse_file_name("42.bin"), Some(42));
    assert_eq!(parse_file_name("42"), Some(42));
    assert_eq!(parse_file_name(".bin"), None);
    assert_eq!(parse_file_name("x.bin"), None);
    assert_eq!(parse_file_name("42.bin.bin"), None);
    assert!(is_bucket_dir_name("17"));
    assert!(!is_bucket_dir_name("vectors"));
    assert!(!is_bucket_dir_name(""));
    assert!(ends_with("a.bin", ".bin"));
    assert!(!ends_with("bin", ".bin"));
    assert!(starts_with("server.host", "server."));
    assert!(!starts_with("server", "server."));
    assert!(starts_with("абв", "аб"));
}

#[test]
fn storage_layout() {
    let s = StorageController::new(meta(&[("path", "/data")]));
    assert_eq!(s.root_path(), "/data");
    assert_eq!(s.storage_dir(), "/data/storage");
    assert_eq!(s.collection_path("docs"), "/data/storage/docs");
    assert_eq!(s.bucket_path("docs", "7"), "/data/storage/docs/7");
    assert_eq!(s.vector_path("docs", "7", 99), "/data/storage/docs/7/vectors/99.bin");
    assert_eq!(s.bucket_header_path("docs", "7"), "/data/storage/docs/7/0.bin");
    let w = s.save_collection("docs".to_string(), vec![1, 2], 5);
    assert_eq!((w.dir.as_str(), w.file_name.as_str(), w.data), ("/data/storage/docs", "5.bin", vec![1, 2]));
    let w = s.save_vector("docs".to_string(), vec![3], 6);
    assert_eq!((w.dir.as_str(), w.file_name.as_str(), w.data), ("/data/storage/docs/vectors", "6.bin", vec![3]));
    let w = s.save_bucket("docs".to_string(), "7".to_string(), vec![4]);
    assert_eq!((w.dir.as_str(), w.file_name.as_str(), w.data), ("/data/storage/docs/7", "0.bin", vec![4]));
    let w = s.save_vector_to_bucket("docs".to_string(), "7".to_string(), 8, vec![5]);
    assert_eq!(
        (w.dir.as_str(), w.file_name.as_str(), w.data),
        ("/data/storage/docs/7/vectors", "8.bin", vec![5])
    );
    let here = StorageController::new(Metadata::new());
    assert_eq!(here.root_path(), ".");
    assert_eq!(here.storage_dir(), "./storage");
}

#[test]
fn dump_plan_lists_header_then_buckets_then_vectors() {
    let db = sample_registry();
    let dump = dump_collection(db.get_collection("docs").unwrap());
    let s = StorageController::new(meta(&[("path", "r")]));
    let writes = s.plan_dump(&dump);
    let buckets = dump.buckets.len();
    let vectors: usize = dump.buckets.iter().map(|b| b.vectors.len()).sum();
    assert_eq!(writes.len(), 1 + buckets + vectors);
    assert_eq!(writes[0].dir, "r/storage/docs");
    assert_eq!(writes[0].file_name, format!("{}.bin", dump.hash_id));
    assert_eq!(writes[0].data, dump.header);
    for (p, b) in dump.buckets.iter().enumerate() {
        assert_eq!(writes[1 + p].dir, format!("r/storage/docs/{}", b.id));
        assert_eq!(writes[1 + p].file_name, "0.bin");
        assert_eq!(writes[1 + p].data, b.header);
    }
    let mut at = 1 + buckets;
    for b in &dump.buckets {
        for (id, bytes) in &b.vectors {
            assert_eq!(writes[at].dir, format!("r/storage/docs/{}/vectors", b.id));
            assert_eq!(writes[at].file_name, format!("{}.bin", id));
            assert_eq!(&writes[at].data, bytes);
            at += 1;
        }
    }
}

fn loader(pairs: &[(&str, &str)]) -> ConfigLoader {
    let mut c = ConfigLoader::new();
    c.load_entries("config.json".to_string(), Some(meta(pairs)));
    c
}

#[test]
fn configuration_sections() {
    let c = loader(&[
        ("server.host", "0.0.0.0"),
        ("server.port", "8080"),
        ("server.role", "coordinator"),
        ("serverless.x", "1"),
        ("path", "/data"),
        ("sharding.enabled", "true"),
        ("sharding.strategy", "lsh_based"),
    ]);
    let server = c.get("server");
    assert_eq!(keys(&server), vec!["host", "port", "role"]);
    assert_eq!(server.get("port").unwrap(), "8080");
    assert!(c.get("path").is_empty());
    assert!(c.get("nothing").is_empty());
    assert_eq!(c.get_role(), "coordinator");
    assert!(c.is_coordinator());
    assert!(!c.is_shard());
    assert_eq!(c.get_routing_strategy(), Ok(RoutingStrategy::LSHBased));
    assert!(c.is_sharding_enabled());
    let controller = ConnectionController::new(c.duplicate());
    assert_eq!(controller.get_connection_config().get("host").unwrap(), "0.0.0.0");
    assert!(controller.get_config_loader().is_coordinator());
}

#[test]
fn configuration_defaults() {
    let empty = ConfigLoader::new();
    assert!(empty.get("server").is_empty());
    assert_eq!(empty.get_role(), "shard");
    assert!(empty.is_shard());
    assert!(!empty.is_coordinator());
    assert_eq!(empty.get_routing_strategy(), Ok(RoutingStrategy::HashBased));
    assert!(!empty.is_sharding_enabled());
    let mut failed = ConfigLoader::new();
    failed.load_entries("missing.json".to_string(), None);
    assert_eq!(failed.get_role(), "shard");
    for (name, strategy) in [
        ("hash_based", RoutingStrategy::HashBased),
        ("range_based", RoutingStrategy::RangeBased),
        ("lsh_based", RoutingStrategy::LSHBased),
        ("metadata_based", RoutingStrategy::MetadataBased),
    ] {
        assert_eq!(loader(&[("sharding.strategy", name)]).get_routing_strategy(), Ok(strategy));
    }
    for name in ["anything", "", "Hash_based", "hash_based "] {
        assert_eq!(
            loader(&[("sharding.strategy", name)]).get_routing_strategy(),
            Err(DbError::InvalidArgument)
        );
    }
    assert!(!loader(&[("sharding.enabled", "True")]).is_sharding_enabled());
    assert!(!loader(&[("server.role", "Shard")]).is_shard());
}

#[test]
fn metadata_controller_records_by_vector() {
    let mut c = MetadataController::new();
    assert_eq!(c.add_metadata("v1".to_string(), meta(&[("cat", "doc"), ("lang", "ru")])), Ok(()));
    assert_eq!(c.add_metadata("v2".to_string(), meta(&[("cat", "img")])), Ok(()));
    assert_eq!(c.add_metadata("v3".to_string(), meta(&[("cat", "doc")])), Ok(()));
    assert_eq!(c.filter_by_metadata(&meta(&[("cat", "doc")])), vec!["v1", "v3"]);
    assert_eq!(c.filter_by_metadata(&Metadata::new()), vec!["v1", "v2", "v3"]);
    assert_eq!(c.add_metadata("v1".to_string(), meta(&[("cat", "img")])), Ok(()));
    assert_eq!(c.filter_by_metadata(&meta(&[("cat", "img")])), vec!["v1", "v2"]);
    assert_eq!(c.get_metadata("v2").unwrap().vector_id, "v2");
    assert_eq!(c.get_metadata("v2").unwrap().data.get("cat").unwrap(), "img");
    assert!(c.get_metadata("v9").is_none());
    assert!(c.remove_metadata("v2"));
    assert!(!c.remove_metadata("v2"));
    assert_eq!(c.filter_by_metadata(&Metadata::new()), vec!["v1", "v3"]);
}

#[test]
fn error_names() {
    assert_eq!(DbError::NotFound.to_string(), "NotFound");
    assert_eq!(DbError::AlreadyExists.to_string(), "AlreadyExists");
    assert_eq!(DbError::DimensionMismatch.to_string(), "DimensionMismatch");
    assert_eq!(DbError::InvalidArgument.to_string(), "InvalidArgument");
    assert_eq!(DbError::Io.to_string(), "Io");
    assert_eq!(DbError::RemoteUnavailable.to_string(), "RemoteUnavailable");
    assert_eq!(DbError::RemoteError.to_string(), "RemoteError");
    assert_eq!(DbError::ShuttingDown.to_string(), "ShuttingDown");
}

const CONFIG: &str = r#"{
    "server": {"role": "coordinator", "host": "0.0.0.0", "port": 8080, "tls": false, "tags": ["a", "b"]},
    "path": "/data",
    "note": "\"quoted\"",
    "limit": 12,
    "sharding": {
        "enabled": "true",
        "strategy": "hash_based",
        "shards": [
            {"id": "s1", "host": "10.0.0.1", "port": 9001, "description": "first"},
            {"host": "10.0.0.2"},
            17,
            {"id": 5, "port": 70000, "description": null}
        ]
    }
}"#;

#[test]
fn configuration_text_is_flattened_one_level() {
    let mut c = ConfigLoader::new();
    c.load("node.json".to_string(), Some(CONFIG));
    let server = c.get("server");
    assert_eq!(server.get("role").unwrap(), "coordinator");
    assert_eq!(server.get("host").unwrap(), "0.0.0.0");
    assert_eq!(server.get("port").unwrap(), "8080");
    assert_eq!(server.get("tls").unwrap(), "false");
    assert_eq!(server.get("tags").unwrap(), "[\"a\",\"b\"]");
    assert!(c.is_coordinator());
    assert!(c.is_sharding_enabled());
    assert_eq!(c.get_routing_strategy(), Ok(RoutingStrategy::HashBased));
    let sharding = c.get("sharding");
    assert_eq!(sharding.len(), 3);
    assert!(sharding.get("shards").unwrap().starts_with("[{"));
    let storage = StorageController::new(vector_db::json::flatten(&vector_db::json::JsonValue {
        text: "{}".to_string(),
        kind: vector_db::json::JsonKind::Object(vec![vector_db::json::JsonMember {
            key: "path".to_string(),
            value: vector_db::json::JsonValue {
                text: "\"/data\"".to_string(),
                kind: vector_db::json::JsonKind::Text("/data".to_string()),
            },
        }]),
    }));
    assert_eq!(storage.root_path(), "/data");
}

#[test]
fn configuration_that_cannot_be_read_leaves_nothing_loaded() {
    let mut c = ConfigLoader::new();
    c.load("node.json".to_string(), Some("{ not json"));
    assert!(c.get("server").is_empty());
    assert_eq!(c.get_role(), "shard");
    c.load("node.json".to_string(), None);
    assert!(c.get("server").is_empty());
    c.load("node.json".to_string(), Some("[1, 2]"));
    assert!(c.get("server").is_empty());
}

#[test]
fn quotation_marks_are_stripped_at_both_ends() {
    use_trim("\"abc\"", "abc");
    use_trim("abc", "abc");
    use_trim("\"\"a\"b\"\"", "a\"b");
    use_trim("\"\"\"", "");
    use_trim("", "");
    use_trim("\"я\"", "я");
}

fn use_trim(input: &str, expected: &str) {
    assert_eq!(vector_db::json::trim_quotes(input), expected);
}

#[test]
fn shards_are_read_from_the_configuration() {
    let mut c = ConfigLoader::new();
    c.load("node.json".to_string(), Some(CONFIG));
    let shards = c.get_shard_configs(Some(CONFIG)).unwrap();
    assert_eq!(shards.len(), 3);
    assert_eq!((shards[0].id.as_str(), shards[0].host.as_str(), shards[0].port), ("s1", "10.0.0.1", 9001));
    assert_eq!(shards[0].description.as_deref(), Some("first"));
    assert_eq!((shards[1].id.as_str(), shards[1].host.as_str(), shards[1].port), ("unknown", "10.0.0.2", 8080));
    assert_eq!(shards[1].description, None);
    assert_eq!((shards[2].id.as_str(), shards[2].host.as_str()), ("unknown", "127.0.0.1"));
    assert_eq!(shards[2].port, 70000u64 as u16);
    assert_eq!(shards[2].description, None);

    assert_eq!(c.get_shard_configs(None).err(), Some(DbError::Io));
    assert_eq!(c.get_shard_configs(Some("{")).err(), Some(DbError::InvalidArgument));
    assert_eq!(c.get_shard_configs(Some("{\"sharding\": {\"shards\": 3}}")).err(), Some(DbError::NotFound));
    assert_eq!(c.get_shard_configs(Some("{\"sharding\": {}}")).err(), Some(DbError::NotFound));
    assert_eq!(c.get_shard_configs(Some("{}")).err(), Some(DbError::NotFound));
    assert_eq!(c.get_shard_configs(Some("{\"sharding\": {\"shards\": []}}")).unwrap().len(), 0);

    let empty = ConfigLoader::new();
    assert_eq!(empty.get_shard_configs(Some(CONFIG)).err(), Some(DbError::NotFound));
    let mut unplaced = ConfigLoader::new();
    unplaced.load("x".to_string(), Some("{\"server\": {\"role\": \"shard\"}}"));
    assert_eq!(unplaced.get_shard_configs(Some(CONFIG)).err(), Some(DbError::NotFound));
}

#[test]
fn listings_are_read_for_buckets_and_records() {
    let s = StorageController::new(Metadata::new());
    let dirs: Vec<String> = ["12", "vectors", "7", "x1", "", "18446744073709551616", "007"]
        .iter()
        .map(|n| n.to_string())
        .collect();
    assert_eq!(s.get_all_buckets_names(&dirs), vec!["12", "7", "007"]);
    let files: Vec<String> =
        ["5.bin", "notes.txt", "9", ".bin", "18446744073709551615.bin"].iter().map(|n| n.to_string()).collect();
    assert_eq!(s.get_all_vectors_names(&files), vec![5, 9, u64::MAX]);
    assert_eq!(s.get_all_vectors_names(&vec![]), Vec::<u64>::new());
}
