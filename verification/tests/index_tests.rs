use rand::rngs::StdRng;
use rand::Rng;
use rand::SeedableRng;
use vector_db::buckets::BucketController;
use vector_db::collection::Collection;
use vector_db::controllers::VectorController;
use vector_db::error::DbError;
use vector_db::fold::calculate_hash;
use vector_db::fold::fold_cells;
use vector_db::fold::fold_str;
use vector_db::fold::fold_words;
use vector_db::lsh::Embedding;
use vector_db::lsh::LSHMetric;
use vector_db::lsh::LSH;
use vector_db::metadata::Metadata;
use vector_db::objects::Bucket;
use vector_db::objects::Vector;
use vector_db::registry::CollectionController;
use vector_db::registry::SearchPlan;
use vector_db::score::rank_of;
use vector_db::score::top_k;

fn projections(lsh: &LSH) -> (Vec<Vec<f32>>, Vec<f32>) {
    let width = f32::from_bits(lsh.bucket_width);
    let mut rng = StdRng::seed_from_u64(lsh.seed);
    let mut projections: Vec<Vec<f32>> = Vec::new();
    for _ in 0..lsh.num_hashes {
        let mut p = Vec::new();
        for _ in 0..lsh.dimension {
            p.push(rng.gen_range(-1.0..1.0));
        }
        projections.push(p);
    }
    let mut offsets: Vec<f32> = Vec::new();
    for _ in 0..lsh.num_hashes {
        offsets.push(rng.gen_range(0.0..width));
    }
    (projections, offsets)
}

fn cells_of(lsh: &LSH, v: &[f32]) -> Vec<i64> {
    let width = f32::from_bits(lsh.bucket_width);
    let (projections, offsets) = projections(lsh);
    let mut cells = Vec::new();
    for i in 0..lsh.num_hashes {
        let mut dot = 0.0f32;
        for j in 0..lsh.dimension {
            dot += v[j] * projections[i][j];
        }
        cells.push(((dot + offsets[i]) / width).floor() as i64);
    }
    cells
}

fn bits(v: &[f32]) -> Vec<u32> {
    v.iter().map(|x| x.to_bits()).collect()
}

fn embed(lsh: &LSH, v: &[f32]) -> Embedding {
    Embedding { data: bits(v), cells: cells_of(lsh, v) }
}

fn cosine(a: &[f32], b: &[u32]) -> u32 {
    let b: Vec<f32> = b.iter().map(|x| f32::from_bits(*x)).collect();
    let dot: f32 = a.iter().zip(&b).map(|(x, y)| x * y).sum();
    let na: f32 = a.iter().map(|x| x * x).sum::<f32>().sqrt();
    let nb: f32 = b.iter().map(|x| x * x).sum::<f32>().sqrt();
    let s = if na == 0.0 || nb == 0.0 { 0.0 } else { dot / (na * nb) };
    s.to_bits()
}

fn meta(pairs: &[(&str, &str)]) -> Metadata {
    let mut m = Metadata::new();
    for (k, v) in pairs {
        m.insert(k.to_string(), v.to_string());
    }
    m
}

fn all_scores(index: &BucketController, query: &[f32]) -> Vec<Vec<u32>> {
    index
        .get_all_buckets()
        .iter()
        .map(|b| b.vectors_controller.vectors.as_ref().unwrap().iter().map(|v| cosine(query, &v.data)).collect())
        .collect()
}

#[test]
fn fold_is_the_base_31_polynomial() {
    assert_eq!(fold_words(&[]), 0);
    assert_eq!(fold_words(&[7]), 7);
    assert_eq!(fold_words(&[1, 2, 3]), 1 + 2 * 31 + 3 * 961);
    assert_eq!(fold_cells(&[1, 2, 3]), 2946);
}

#[test]
fn fold_wraps_modulo_two_to_the_sixty_fourth() {
    assert_eq!(fold_cells(&[-1]), u64::MAX);
    assert_eq!(fold_cells(&[-1, -1]), u64::MAX.wrapping_add(u64::MAX.wrapping_mul(31)));
    assert_eq!(fold_words(&[u64::MAX, 1]), 30);
}

#[test]
fn fold_of_a_name_reads_its_bytes() {
    assert_eq!(fold_str(""), 0);
    assert_eq!(fold_str("a"), 97);
    assert_eq!(fold_str("ab"), 97 + 98 * 31);
}

#[test]
fn hash_is_the_fold_of_the_cells() {
    let lsh = LSH::new(4, 3, 1.0f32.to_bits(), LSHMetric::Euclidean, Some(42));
    let v = bits(&[1.0, 2.0, 3.0, 4.0]);
    assert_eq!(lsh.hash(&v, &[5, -2, 9]), Ok(fold_cells(&[5, -2, 9])));
    assert_eq!(lsh.hash(&v, &[5, -2, 9]), lsh.hash(&v, &[5, -2, 9]));
}

#[test]
fn hash_refuses_wrong_lengths() {
    let lsh = LSH::new(4, 3, 1.0f32.to_bits(), LSHMetric::Euclidean, Some(42));
    assert_eq!(lsh.hash(&bits(&[1.0, 2.0, 3.0]), &[1, 2, 3]), Err(DbError::DimensionMismatch));
    assert_eq!(lsh.hash(&bits(&[1.0, 2.0, 3.0, 4.0]), &[1, 2]), Err(DbError::InvalidArgument));
}

#[test]
fn hasher_without_seed_draws_one() {
    let a = LSH::new(4, 3, 1.0f32.to_bits(), LSHMetric::Cosine, None);
    assert_eq!(a.dimension, 4);
    assert_eq!(a.num_hashes, 3);
    assert_eq!(a.metric, LSHMetric::Cosine);
    let b = LSH::new(4, 3, 1.0f32.to_bits(), LSHMetric::Cosine, Some(7));
    assert_eq!(b.seed, 7);
}

#[test]
fn multi_hash_gives_the_first_cells() {
    let lsh = LSH::new(4, 3, 1.0f32.to_bits(), LSHMetric::Euclidean, Some(42));
    assert_eq!(lsh.multi_hash(&[4, -1, 6], 2), vec![4u64, u64::MAX]);
    assert_eq!(lsh.multi_hash(&[4, -1, 6], 9), vec![4u64, u64::MAX, 6]);
    assert_eq!(lsh.multi_hash(&[4], 2), vec![4u64]);
}

#[test]
fn find_similar_buckets_looks_up_the_querys_bucket() {
    let lsh = LSH::new(2, 2, 1.0f32.to_bits(), LSHMetric::Euclidean, Some(42));
    let q = Embedding { data: bits(&[1.0, 2.0]), cells: vec![3, 4] };
    let mut all = std::collections::HashMap::new();
    all.insert(fold_cells(&[3, 4]), vec![10u64, 11]);
    all.insert(1u64, vec![12u64]);
    assert_eq!(lsh.find_similar_buckets(&q, &all), Ok(vec![10u64, 11]));
    let other = Embedding { data: bits(&[1.0, 2.0]), cells: vec![0, 0] };
    assert_eq!(lsh.find_similar_buckets(&other, &all), Ok(vec![]));
    let short = Embedding { data: bits(&[1.0]), cells: vec![0, 0] };
    assert_eq!(lsh.find_similar_buckets(&short, &all), Err(DbError::DimensionMismatch));
}

#[test]
fn standard_digest_is_stable() {
    assert_eq!(calculate_hash(b"docs"), calculate_hash(b"docs"));
    assert_ne!(calculate_hash(b"docs"), calculate_hash(b"docs2"));
}

#[test]
fn score_places_follow_the_numbers() {
    let xs: [f32; 9] = [f32::NEG_INFINITY, -2.5, -1.0, -1.0e-30, 0.0, 1.0e-30, 0.65, 0.91, f32::INFINITY];
    for i in 0..xs.len() {
        for j in 0..xs.len() {
            assert_eq!(xs[i] < xs[j], rank_of(xs[i].to_bits()) < rank_of(xs[j].to_bits()));
        }
    }
    assert_eq!(rank_of(0.0f32.to_bits()), rank_of((-0.0f32).to_bits()));
    assert_eq!(rank_of(0), 0);
    assert_eq!(rank_of(1.0f32.to_bits()), 0x3f80_0000);
    assert_eq!(rank_of((-1.0f32).to_bits()), -0x3f80_0000);
}

#[test]
fn top_k_orders_by_score_then_position() {
    let scores = bits(&[0.5, 0.9, 0.5, -0.1, 0.9]);
    assert_eq!(top_k(&scores, 3), vec![1, 4, 0]);
    assert_eq!(top_k(&scores, 5), vec![1, 4, 0, 2, 3]);
    assert_eq!(top_k(&scores, 9), vec![1, 4, 0, 2, 3]);
    assert_eq!(top_k(&scores, 0), Vec::<usize>::new());
    assert_eq!(top_k(&vec![], 4), Vec::<usize>::new());
}

#[test]
fn vector_identifier_is_the_digest_of_its_content() {
    let a = Vector::new(Some(bits(&[1.0, 2.0])), Some(5), Some(meta(&[("k", "v"), ("a", "b")])));
    let b = Vector::new(Some(bits(&[1.0, 2.0])), Some(5), Some(meta(&[("a", "b"), ("k", "v")])));
    let c = Vector::new(Some(bits(&[1.0, 2.0])), Some(6), Some(meta(&[("a", "b"), ("k", "v")])));
    assert_eq!(a.hash_id(), b.hash_id());
    assert_ne!(a.hash_id(), c.hash_id());
    let bytes = vector_db::codec::encode_content(&a.data, a.timestamp, &a.metadata);
    assert_eq!(a.hash_id(), calculate_hash(&bytes));
    let empty = Vector::new(None, None, None);
    assert_eq!(empty.data.len(), 0);
    assert_eq!(empty.timestamp, 0);
    assert!(empty.metadata.is_empty());
}

#[test]
fn vector_identifier_can_be_set() {
    let mut v = Vector::new(Some(bits(&[1.0])), Some(1), None);
    v.set_hash_id(77);
    assert_eq!(v.hash_id(), 77);
    let copy = v.duplicate();
    assert_eq!(copy.hash_id(), 77);
    assert_eq!(copy.data, v.data);
}

#[test]
fn vector_controller_keeps_insertion_order() {
    let mut c = VectorController::new();
    let a = c.add_vector_at(Some(bits(&[1.0])), Some(meta(&[("n", "a")])), None, None, 10).unwrap();
    let b = c.add_vector_at(Some(bits(&[2.0])), None, Some(99), None, 11).unwrap();
    let extra = Vector::new(Some(bits(&[3.0])), Some(12), None);
    let x = extra.hash_id();
    assert_eq!(c.add_vector_at(None, None, None, Some(extra), 13), Ok(x));
    assert_eq!(b, 99);
    assert_eq!(c.get_vector(0).unwrap().hash_id(), a);
    assert_eq!(c.get_vector(1).unwrap().hash_id(), 99);
    assert_eq!(c.get_vector(2).unwrap().hash_id(), x);
    assert!(c.get_vector(3).is_none());
    assert_eq!(c.get_vector_by_id(99).unwrap().timestamp, 11);
    assert_eq!(c.remove_vector(a), Ok(()));
    assert_eq!(c.remove_vector(a), Err(DbError::NotFound));
    assert_eq!(c.get_vector(0).unwrap().hash_id(), 99);
    let taken = c.remove_and_get_vector(x).unwrap();
    assert_eq!(taken.data, bits(&[3.0]));
    assert!(c.remove_and_get_vector(x).is_err());
}

#[test]
fn vector_controller_stamps_new_vectors_with_the_clock() {
    let mut c = VectorController::new();
    let id = c.add_vector(Some(bits(&[1.0])), None, None, None).unwrap();
    let v = c.get_vector_by_id(id).unwrap();
    assert!(v.timestamp > 1_600_000_000);
    assert_eq!(v.hash_id(), Vector::new(Some(bits(&[1.0])), Some(v.timestamp), None).hash_id());
}

#[test]
fn vector_controller_updates_in_place() {
    let mut c = VectorController::new();
    let a = c.add_vector_at(Some(bits(&[1.0])), Some(meta(&[("n", "a")])), None, None, 10).unwrap();
    assert_eq!(c.update_vector(a, Some(bits(&[5.0])), None), Ok(()));
    assert_eq!(c.get_vector_by_id(a).unwrap().data, bits(&[5.0]));
    assert_eq!(c.get_vector_by_id(a).unwrap().metadata.get("n").unwrap(), "a");
    assert_eq!(c.update_vector(a, None, Some(meta(&[("m", "b")]))), Ok(()));
    assert!(c.get_vector_by_id(a).unwrap().metadata.get("n").is_none());
    assert_eq!(c.update_vector(1, None, None), Err(DbError::NotFound));
    assert_eq!(c.add_metadata_to_vector(a, meta(&[("m", "c"), ("z", "y")])), Ok(()));
    assert_eq!(c.get_vector_by_id(a).unwrap().metadata.get("m").unwrap(), "c");
    assert_eq!(c.get_vector_by_id(a).unwrap().metadata.get("z").unwrap(), "y");
    assert_eq!(c.remove_metadata_from_vector(a, "m"), Ok(()));
    assert!(c.get_vector_by_id(a).unwrap().metadata.get("m").is_none());
    assert_eq!(c.add_metadata_to_vector(1, meta(&[])), Err(DbError::NotFound));
    assert_eq!(c.remove_metadata_from_vector(1, "m"), Err(DbError::NotFound));
}

#[test]
fn similarity_scan_of_a_container() {
    let mut c = VectorController::new();
    assert_eq!(c.find_most_similar(&vec![], 3), Err(DbError::NotFound));
    for i in 0..4 {
        c.add_vector_at(Some(bits(&[i as f32])), None, None, None, i).unwrap();
    }
    let scores = bits(&[0.1, 0.7, 0.7, 0.3]);
    assert_eq!(
        c.find_most_similar(&scores, 3),
        Ok(vec![(1, 0.7f32.to_bits()), (2, 0.7f32.to_bits()), (3, 0.3f32.to_bits())])
    );
    assert_eq!(c.find_most_similar(&bits(&[0.1]), 3), Err(DbError::InvalidArgument));
}

#[test]
fn bucket_operations() {
    let mut b = Bucket::new_at(9, 100);
    assert_eq!(b.size(), 0);
    assert_eq!(b.created_at, 100);
    let id = b.add_vector_at(bits(&[1.0, 2.0]), meta(&[("cat", "doc")]), 101).unwrap();
    assert_eq!(b.updated_at, 101);
    assert_eq!(b.created_at, 100);
    assert!(b.contains_vector(id));
    assert_eq!(b.size(), 1);
    assert_eq!(b.get_vector(id).unwrap().timestamp, 101);
    assert_eq!(b.filter_by_metadata(&meta(&[("cat", "doc")])), vec![id]);
    assert_eq!(b.filter_by_metadata(&meta(&[("cat", "img")])), Vec::<u64>::new());
    assert_eq!(b.find_similar(&bits(&[0.4]), 1), Ok(vec![(0, 0.4f32.to_bits())]));
    assert_eq!(b.update_vector_at(id, Some(bits(&[3.0, 4.0])), None, 102), Ok(()));
    assert_eq!(b.updated_at, 102);
    assert_eq!(b.hash_id(), 9);
    assert_eq!(b.remove_vector_at(id + 1, 103), Err(DbError::NotFound));
    assert_eq!(b.updated_at, 102);
    let v = b.remove_and_get_vector_at(id, 104).unwrap();
    assert_eq!(v.data, bits(&[3.0, 4.0]));
    assert_eq!(b.size(), 0);
    let now = Bucket::new(3);
    assert_eq!(now.created_at, now.updated_at);
    assert!(now.created_at > 1_600_000_000);
}

#[test]
fn insert_get_delete_on_one_node() {
    let mut db = CollectionController::new();
    db.add_collection("docs".to_string(), LSHMetric::Euclidean, 4).unwrap();
    let lsh = db.get_collection("docs").unwrap().buckets_controller.lsh.unwrap();
    let x = db.add_vector("docs", embed(&lsh, &[1.0, 0.0, 0.0, 0.0]), meta(&[("k", "a")])).unwrap();
    let v = db.get_vector("docs", x).unwrap();
    assert_eq!(v.data, bits(&[1.0, 0.0, 0.0, 0.0]));
    assert_eq!(v.metadata.get("k").unwrap(), "a");
    assert_eq!(db.delete_vector("docs", x), Ok(()));
    assert_eq!(db.get_vector("docs", x).err(), Some(DbError::NotFound));
}

#[test]
fn dimension_mismatch_leaves_the_registry_unchanged() {
    let mut db = CollectionController::new();
    db.add_collection("docs".to_string(), LSHMetric::Euclidean, 4).unwrap();
    let r = db.add_vector(
        "docs",
        Embedding { data: bits(&[1.0, 2.0, 3.0]), cells: vec![0, 0, 0] },
        Metadata::new(),
    );
    assert_eq!(r, Err(DbError::DimensionMismatch));
    let c = db.get_collection("docs").unwrap();
    assert_eq!(c.buckets_controller.count(), 0);
    assert_eq!(c.buckets_controller.total_vectors(), 0);
}

#[test]
fn dimension_is_enforced_on_update_and_search() {
    let mut index = BucketController::new(4, 3, 1.0f32.to_bits(), LSHMetric::Euclidean, Some(42));
    let lsh = index.lsh.unwrap();
    let x = index.add_vector_at(embed(&lsh, &[1.0, 2.0, 3.0, 4.0]), Metadata::new(), 1).unwrap();
    let short = Embedding { data: bits(&[1.0]), cells: vec![0, 0, 0] };
    assert_eq!(
        index.update_vector_at(x, Some(Embedding { data: bits(&[1.0]), cells: vec![0, 0, 0] }), None, 2),
        Err(DbError::DimensionMismatch)
    );
    assert_eq!(index.find_similar(&short, &vec![], 1), Err(DbError::DimensionMismatch));
    assert_eq!(
        index.find_similar_multi_bucket(&bits(&[1.0]), &vec![vec![0]], 1),
        Err(DbError::DimensionMismatch)
    );
    assert_eq!(index.update_vector_at(x, Some(embed(&lsh, &[4.0, 3.0, 2.0, 1.0])), None, 2), Ok(()));
    assert_eq!(
        index.add_vector_at(
            Embedding { data: bits(&[1.0, 2.0, 3.0, 4.0]), cells: vec![1] },
            Metadata::new(),
            3
        ),
        Err(DbError::InvalidArgument)
    );
}

#[test]
fn update_migrates_buckets() {
    let mut index = BucketController::new(4, 3, 1.0f32.to_bits(), LSHMetric::Euclidean, Some(42));
    let lsh = index.lsh.unwrap();
    let v = [1.0f32, 2.0, 3.0, 4.0];
    let w = [10.0f32, 20.0, 30.0, 40.0];
    let hv = lsh.hash(&bits(&v), &cells_of(&lsh, &v)).unwrap();
    let hw = lsh.hash(&bits(&w), &cells_of(&lsh, &w)).unwrap();
    assert_ne!(hv, hw);
    let x = index.add_vector_at(embed(&lsh, &v), Metadata::new(), 1).unwrap();
    let _y = index.add_vector_at(embed(&lsh, &w), Metadata::new(), 2).unwrap();
    let holders = |index: &BucketController, id: u64| -> Vec<u64> {
        index.get_all_buckets().iter().filter(|b| b.contains_vector(id)).map(|b| b.id).collect()
    };
    assert_eq!(holders(&index, x), vec![hv]);
    assert_eq!(index.update_vector_at(x, Some(embed(&lsh, &w)), None, 3), Ok(()));
    assert_eq!(holders(&index, x), vec![hw]);
    assert!(index.get_bucket(hv).is_none());
    assert_eq!(index.get_bucket(hw).unwrap().size(), 2);
    assert_eq!(index.get_vector(x).unwrap().data, bits(&w));
    assert_eq!(index.get_vector(x).unwrap().hash_id(), x);
}

#[test]
fn update_without_new_components_stays_in_place() {
    let mut index = BucketController::new(4, 3, 1.0f32.to_bits(), LSHMetric::Euclidean, Some(42));
    let lsh = index.lsh.unwrap();
    let x = index.add_vector_at(embed(&lsh, &[1.0, 2.0, 3.0, 4.0]), meta(&[("a", "1")]), 1).unwrap();
    assert_eq!(index.update_vector_at(x, None, Some(meta(&[("b", "2")])), 5), Ok(()));
    assert_eq!(index.count(), 1);
    let v = index.get_vector(x).unwrap();
    assert_eq!(v.metadata.get("b").unwrap(), "2");
    assert!(v.metadata.get("a").is_none());
    assert_eq!(index.get_all_buckets()[0].updated_at, 5);
    assert_eq!(index.update_vector_at(x + 1, None, None, 6), Err(DbError::NotFound));
}

#[test]
fn no_bucket_is_ever_empty() {
    let mut index = BucketController::new(4, 3, 1.0f32.to_bits(), LSHMetric::Euclidean, Some(42));
    let lsh = index.lsh.unwrap();
    let mut ids = Vec::new();
    for i in 0..12 {
        let v = [i as f32 * 3.0, 1.0, -(i as f32), 0.5];
        ids.push(index.add_vector_at(embed(&lsh, &v), Metadata::new(), i).unwrap());
        assert!(index.get_all_buckets().iter().all(|b| b.size() > 0));
    }
    assert_eq!(index.total_vectors(), 12);
    for id in ids {
        assert_eq!(index.remove_vector_at(id, 100), Ok(()));
        assert!(index.get_all_buckets().iter().all(|b| b.size() > 0));
    }
    assert_eq!(index.count(), 0);
    assert_eq!(index.remove_vector(5), Err(DbError::NotFound));
}

#[test]
fn buckets_are_kept_in_ascending_order() {
    let mut index = BucketController::new(1, 1, 1.0f32.to_bits(), LSHMetric::Euclidean, Some(42));
    for (i, cell) in [5i64, 1, 9, 3].iter().enumerate() {
        index
            .add_vector_at(Embedding { data: bits(&[i as f32]), cells: vec![*cell] }, Metadata::new(), i as i64)
            .unwrap();
    }
    let ids: Vec<u64> = index.get_all_buckets().iter().map(|b| b.id).collect();
    assert_eq!(ids, vec![1, 3, 5, 9]);
}

#[test]
fn duplicate_content_is_refused() {
    let mut index = BucketController::new(1, 1, 1.0f32.to_bits(), LSHMetric::Euclidean, Some(42));
    let e = || Embedding { data: bits(&[1.0]), cells: vec![4] };
    let x = index.add_vector_at(e(), meta(&[("k", "v")]), 7).unwrap();
    assert_eq!(index.add_vector_at(e(), meta(&[("k", "v")]), 7), Err(DbError::AlreadyExists));
    assert_eq!(index.total_vectors(), 1);
    let y = index.add_vector_at(e(), meta(&[("k", "v")]), 8).unwrap();
    assert_ne!(x, y);
}

#[test]
fn multi_bucket_fallback_returns_the_best_five() {
    let mut db = CollectionController::new();
    db.add_collection("c".to_string(), LSHMetric::Euclidean, 4).unwrap();
    let lsh = db.get_collection("c").unwrap().buckets_controller.lsh.unwrap();
    let lsh = LSH::new(4, 3, lsh.bucket_width, lsh.metric, Some(lsh.seed));
    let cells = [[0i64, 0, 0], [0, 0, 0], [1, 0, 0], [1, 0, 0], [2, 0, 0], [2, 0, 0], [3, 0, 0]];
    for (i, c) in cells.iter().enumerate() {
        let v = [1.0 + i as f32, 2.0, 0.5 * i as f32, 1.0];
        db.add_vector_at("c", Embedding { data: bits(&v), cells: c.to_vec() }, Metadata::new(), i as i64)
            .unwrap();
    }
    let index = &db.get_collection("c").unwrap().buckets_controller;
    assert!(index.count() >= 3);
    assert!(index.get_all_buckets().iter().all(|b| b.size() < 5));
    let q = [1.0f32, 2.0, 0.0, 1.0];
    let query = Embedding { data: bits(&q), cells: vec![0, 0, 0] };
    assert_eq!(db.search_plan("c", &query, 5), Ok(SearchPlan::AllBuckets));
    let rows = all_scores(index, &q);
    let hits = db.find_similar("c", &query, &rows, 5).unwrap();
    assert_eq!(hits.len(), 5);
    for w in hits.windows(2) {
        assert!(f32::from_bits(w[0].2) >= f32::from_bits(w[1].2));
    }
    let mut all: Vec<(u64, usize, f32)> = Vec::new();
    for (p, b) in index.get_all_buckets().iter().enumerate() {
        for i in 0..b.size() {
            all.push((b.id, i, f32::from_bits(rows[p][i])));
        }
    }
    all.sort_by(|a, b| b.2.partial_cmp(&a.2).unwrap());
    let expected: Vec<(u64, usize, u32)> = all.iter().take(5).map(|h| (h.0, h.1, h.2.to_bits())).collect();
    assert_eq!(hits, expected);
    let mut seen = std::collections::HashSet::new();
    for h in &hits {
        assert!(seen.insert((h.0, h.1)));
        assert!(h.1 < index.get_bucket(h.0).unwrap().size());
    }
    let _ = lsh;
}

#[test]
fn primary_bucket_is_searched_when_it_is_large_enough() {
    let mut db = CollectionController::new();
    db.add_collection("c".to_string(), LSHMetric::Cosine, 2).unwrap();
    for i in 0..3 {
        db.add_vector_at(
            "c",
            Embedding { data: bits(&[1.0, i as f32]), cells: vec![7, 7, 7] },
            Metadata::new(),
            i,
        )
        .unwrap();
    }
    db.add_vector_at("c", Embedding { data: bits(&[9.0, 9.0]), cells: vec![1, 1, 1] }, Metadata::new(), 9)
        .unwrap();
    let query = Embedding { data: bits(&[1.0, 0.0]), cells: vec![7, 7, 7] };
    let b = fold_cells(&[7, 7, 7]);
    assert_eq!(db.search_plan("c", &query, 2), Ok(SearchPlan::Primary(b)));
    assert_eq!(db.search_plan("c", &query, 4), Ok(SearchPlan::AllBuckets));
    let row = bits(&[1.0, 0.70710677, 0.4472136]);
    let hits = db.find_similar("c", &query, &vec![row], 2).unwrap();
    assert_eq!(hits, vec![(b, 0, 1.0f32.to_bits()), (b, 1, 0.70710677f32.to_bits())]);
    assert_eq!(db.find_similar("c", &query, &vec![], 2), Err(DbError::InvalidArgument));
    assert_eq!(db.find_similar("nope", &query, &vec![], 2), Err(DbError::NotFound));
    assert_eq!(db.search_plan("nope", &query, 2), Err(DbError::NotFound));
}

#[test]
fn search_ties_go_to_the_smaller_bucket_then_the_earlier_position() {
    let mut index = BucketController::new(1, 1, 1.0f32.to_bits(), LSHMetric::Euclidean, Some(42));
    for (i, cell) in [8i64, 2, 2, 5].iter().enumerate() {
        index
            .add_vector_at(Embedding { data: bits(&[i as f32]), cells: vec![*cell] }, Metadata::new(), i as i64)
            .unwrap();
    }
    let rows = vec![bits(&[0.5, 0.5]), bits(&[0.5]), bits(&[0.5])];
    let hits = index.find_similar_multi_bucket(&bits(&[1.0]), &rows, 3).unwrap();
    let s = 0.5f32.to_bits();
    assert_eq!(hits, vec![(2, 0, s), (2, 1, s), (5, 0, s)]);
    assert_eq!(
        index.find_similar_multi_bucket(&bits(&[1.0]), &vec![bits(&[0.5])], 3),
        Err(DbError::InvalidArgument)
    );
}

#[test]
fn search_of_an_absent_primary_bucket_is_empty() {
    let index = BucketController::new(1, 1, 1.0f32.to_bits(), LSHMetric::Euclidean, Some(42));
    let q = Embedding { data: bits(&[1.0]), cells: vec![3] };
    assert_eq!(index.find_similar(&q, &vec![], 3), Ok(vec![]));
    assert_eq!(index.find_similar_multi_bucket(&bits(&[1.0]), &vec![], 3), Ok(vec![]));
}

#[test]
fn metadata_filter_returns_exactly_the_matching_vectors() {
    let mut db = CollectionController::new();
    db.add_collection("docs".to_string(), LSHMetric::Euclidean, 1).unwrap();
    let e = |x: f32, c: i64| Embedding { data: bits(&[x]), cells: vec![c, 0, 0] };
    let a = db.add_vector_at("docs", e(1.0, 1), meta(&[("cat", "doc"), ("lang", "ru")]), 1).unwrap();
    let b = db.add_vector_at("docs", e(2.0, 2), meta(&[("cat", "img"), ("lang", "en")]), 2).unwrap();
    let c = db.add_vector_at("docs", e(3.0, 1), meta(&[("cat", "doc"), ("lang", "en")]), 3).unwrap();
    let mut found = db.filter_by_metadata("docs", &meta(&[("cat", "doc")])).unwrap();
    found.sort();
    let mut expected = vec![a, c];
    expected.sort();
    assert_eq!(found, expected);
    assert_eq!(found.len(), 2);
    assert_eq!(db.filter_by_metadata("docs", &meta(&[("cat", "doc"), ("lang", "en")])).unwrap(), vec![c]);
    assert_eq!(db.filter_by_metadata("docs", &meta(&[("cat", "Doc")])).unwrap(), Vec::<u64>::new());
    let mut all = db.filter_by_metadata("docs", &Metadata::new()).unwrap();
    all.sort();
    let mut every = vec![a, b, c];
    every.sort();
    assert_eq!(all, every);
    assert_eq!(db.filter_by_metadata("nope", &Metadata::new()), Err(DbError::NotFound));
}

#[test]
fn registry_creates_and_deletes_by_name() {
    let mut db = CollectionController::new();
    assert!(db.collections.is_some());
    assert_eq!(db.collections.as_ref().unwrap().len(), 0);
    assert_eq!(db.add_collection("a".to_string(), LSHMetric::Cosine, 8), Ok(()));
    assert_eq!(db.add_collection("a".to_string(), LSHMetric::Cosine, 8), Err(DbError::AlreadyExists));
    assert_eq!(db.add_collection("b".to_string(), LSHMetric::Cosine, 0), Err(DbError::InvalidArgument));
    assert_eq!(db.add_collection("b".to_string(), LSHMetric::Manhattan, 2), Ok(()));
    let names: Vec<String> = db.get_all_collections().iter().map(|c| c.name.clone()).collect();
    assert_eq!(names, vec!["a".to_string(), "b".to_string()]);
    assert_eq!(db.get_collection("b").unwrap().lsh_metric, LSHMetric::Manhattan);
    let made = db.get_collection("b").unwrap();
    let hasher = made.buckets_controller.lsh.as_ref().unwrap();
    assert_eq!((hasher.num_hashes, hasher.bucket_width, hasher.seed), (3, 10.0f32.to_bits(), 42));
    assert_eq!((hasher.dimension, hasher.metric), (2, LSHMetric::Manhattan));
    assert_eq!(made.hash_id(), Collection::new(Some("b".to_string()), LSHMetric::Cosine, 1).hash_id());
    assert_eq!(db.delete_collection("a".to_string()), Ok(()));
    assert_eq!(db.delete_collection("a".to_string()), Err(DbError::NotFound));
    assert!(db.get_collection("a").is_none());
    assert!(db.get_all_buckets("a").is_none());
    assert_eq!(db.get_all_buckets("b").unwrap().len(), 0);
    assert!(db.get_bucket("b", 1).is_none());
    assert_eq!(
        db.add_vector("a", Embedding { data: vec![], cells: vec![] }, Metadata::new()),
        Err(DbError::NotFound)
    );
    assert_eq!(db.update_vector("a", 1, None, None), Err(DbError::NotFound));
    assert_eq!(db.delete_vector("a", 1), Err(DbError::NotFound));
    assert_eq!(db.delete_vector("b", 1), Err(DbError::NotFound));
}

#[test]
fn new_collections_have_the_default_hasher() {
    let c = vector_db::collection::Collection::new(Some("x".to_string()), LSHMetric::Cosine, 16);
    let lsh = c.buckets_controller.lsh.unwrap();
    assert_eq!(lsh.num_hashes, 3);
    assert_eq!(f32::from_bits(lsh.bucket_width), 10.0);
    assert_eq!(lsh.seed, 42);
    assert_eq!(lsh.dimension, 16);
    assert_eq!(c.hash_id(), calculate_hash(b"x"));
    let unnamed = vector_db::collection::Collection::new(None, LSHMetric::Cosine, 16);
    assert_eq!(unnamed.name, "");
    assert_eq!(unnamed.hash_id(), 0);
}

#[test]
fn index_statistics_count_buckets_and_vectors() {
    let mut index = BucketController::new(1, 1, 2.5f32.to_bits(), LSHMetric::Euclidean, Some(42));
    for (i, cell) in [8i64, 2, 2].iter().enumerate() {
        index
            .add_vector_at(Embedding { data: bits(&[i as f32]), cells: vec![*cell] }, Metadata::new(), i as i64)
            .unwrap();
    }
    let s = index.get_statistics();
    assert_eq!(s.total_buckets, 2);
    assert_eq!(s.total_vectors, 3);
    assert_eq!(s.dimension, Some(1));
    assert_eq!(s.num_hashes, Some(1));
    assert_eq!(s.bucket_width, Some(2.5f32.to_bits()));
}

#[test]
fn most_similar_of_a_list() {
    let vectors: Vec<Vector> = (0..3).map(|i| Vector::new(Some(bits(&[i as f32])), Some(i), None)).collect();
    let scores = bits(&[-0.5, 0.25, 0.25]);
    assert_eq!(
        vector_db::controllers::find_most_similar(&scores, &vectors, 2),
        Ok(vec![(1, 0.25f32.to_bits()), (2, 0.25f32.to_bits())])
    );
    assert_eq!(vector_db::controllers::find_most_similar(&scores, &[], 2), Err(DbError::NotFound));
    assert_eq!(
        vector_db::controllers::find_most_similar(&bits(&[0.0]), &vectors, 2),
        Err(DbError::InvalidArgument)
    );
}

#[test]
fn bucket_in_one_line() {
    let mut b = Bucket::new_at(42, -5);
    b.add_vector_at(bits(&[1.0]), Metadata::new(), 1700000000).unwrap();
    assert_eq!(b.to_string(), "Bucket: ID 42, vectors: 1, created: -5, updated: 1700000000");
    assert_eq!(vector_db::paths::signed_decimal_string(i64::MIN), "-9223372036854775808");
    assert_eq!(vector_db::paths::signed_decimal_string(0), "0");
    assert_eq!(vector_db::paths::signed_decimal_string(i64::MAX), "9223372036854775807");
}

#[test]
fn hashers_with_the_same_seed_agree() {
    let v = [0.25f32, -3.0, 7.5, 1.0];
    for seed in [0u64, 42, 9001] {
        let a = LSH::new(4, 3, 1.0f32.to_bits(), LSHMetric::Euclidean, Some(seed));
        let b = LSH::new(4, 3, 1.0f32.to_bits(), LSHMetric::Euclidean, Some(seed));
        assert_eq!(cells_of(&a, &v), cells_of(&b, &v));
        assert_eq!(a.hash(&bits(&v), &cells_of(&a, &v)), b.hash(&bits(&v), &cells_of(&b, &v)));
    }
}
