use rand::rngs::StdRng;
use rand::Rng;
use rand::SeedableRng;
use vector_db::buckets::BucketController;
use vector_db::codec::encode_vector;
use vector_db::coordinator::merge_hits;
use vector_db::coordinator::sort_dedup;
use vector_db::decode::decode_bucket;
use vector_db::decode::decode_collection;
use vector_db::decode::decode_vector;
use vector_db::lsh::Embedding;
use vector_db::lsh::LSHMetric;
use vector_db::metadata::Metadata;
use vector_db::paths::decimal_string;
use vector_db::paths::parse_decimal;
use vector_db::score::top_k;

fn naive_top(scores: &[u32], k: usize) -> Vec<usize> {
    let mut order: Vec<usize> = (0..scores.len()).collect();
    order.sort_by(|a, b| f32::from_bits(scores[*b]).partial_cmp(&f32::from_bits(scores[*a])).unwrap());
    order.truncate(k);
    order
}

#[test]
fn best_k_agrees_with_a_stable_sort() {
    let mut rng = StdRng::seed_from_u64(7);
    for _ in 0..200 {
        let n = rng.gen_range(0..40);
        let scores: Vec<u32> = (0..n).map(|_| ((rng.gen_range(-5..6) as f32) / 4.0).to_bits()).collect();
        let k = rng.gen_range(0..45);
        assert_eq!(top_k(&scores, k), naive_top(&scores, k));
    }
}

#[test]
fn merge_agrees_with_a_stable_sort() {
    let mut rng = StdRng::seed_from_u64(11);
    for _ in 0..100 {
        let shards = rng.gen_range(0..5);
        let lists: Vec<Vec<(u64, usize, u32)>> = (0..shards)
            .map(|s| {
                (0..rng.gen_range(0..8))
                    .map(|i| (s as u64, i, ((rng.gen_range(-3..4) as f32) / 2.0).to_bits()))
                    .collect()
            })
            .collect();
        let k = rng.gen_range(0..12);
        let mut all: Vec<(u64, usize, u32)> = lists.iter().flatten().cloned().collect();
        all.sort_by(|a, b| f32::from_bits(b.2).partial_cmp(&f32::from_bits(a.2)).unwrap());
        all.truncate(k);
        assert_eq!(merge_hits(&lists, k), all);
    }
}

#[test]
fn sort_and_deduplicate_agrees_with_the_standard_one() {
    let mut rng = StdRng::seed_from_u64(13);
    for _ in 0..200 {
        let ids: Vec<u64> = (0..rng.gen_range(0..30)).map(|_| rng.gen_range(0..12)).collect();
        let mut expected = ids.clone();
        expected.sort();
        expected.dedup();
        assert_eq!(sort_dedup(&ids), expected);
    }
}

fn random_text(rng: &mut StdRng) -> String {
    let alphabet = ['a', 'b', 'z', '"', 'я', '字', ' ', '0'];
    (0..rng.gen_range(0..6)).map(|_| alphabet[rng.gen_range(0..alphabet.len())]).collect()
}

#[test]
fn records_read_back_as_written() {
    let mut rng = StdRng::seed_from_u64(17);
    for _ in 0..200 {
        let data: Vec<u32> = (0..rng.gen_range(0..9)).map(|_| rng.gen()).collect();
        let timestamp: i64 = rng.gen();
        let id: u64 = rng.gen();
        let mut metadata = Metadata::new();
        for _ in 0..rng.gen_range(0..5) {
            metadata.insert(random_text(&mut rng), random_text(&mut rng));
        }
        let bytes = encode_vector(&data, timestamp, &metadata, id);
        let back = decode_vector(&bytes).unwrap();
        assert_eq!(back.data, data);
        assert_eq!(back.timestamp, timestamp);
        assert_eq!(back.hash_id, id);
        assert_eq!(back.metadata.len(), metadata.len());
        for i in 0..metadata.len() {
            assert_eq!(back.metadata.key_at(i), metadata.key_at(i));
            assert_eq!(back.metadata.value_at(i), metadata.value_at(i));
        }
        assert_eq!(encode_vector(&back.data, back.timestamp, &back.metadata, back.hash_id), bytes);
    }
}

#[test]
fn arbitrary_bytes_are_read_or_refused() {
    let mut rng = StdRng::seed_from_u64(19);
    for _ in 0..2000 {
        let bytes: Vec<u8> = (0..rng.gen_range(0..64)).map(|_| rng.gen_range(0..4)).collect();
        if let Ok(v) = decode_vector(&bytes) {
            assert_eq!(encode_vector(&v.data, v.timestamp, &v.metadata, v.hash_id), bytes);
        }
        let _ = decode_bucket(&bytes);
        let _ = decode_collection(&bytes);
    }
}

#[test]
fn decimal_numbers_read_back() {
    let mut rng = StdRng::seed_from_u64(23);
    for _ in 0..500 {
        let n: u64 = rng.gen::<u64>() >> rng.gen_range(0..64);
        assert_eq!(decimal_string(n), n.to_string());
        assert_eq!(parse_decimal(&n.to_string()), Some(n));
    }
}

#[test]
fn index_stays_well_formed_under_random_operations() {
    let mut rng = StdRng::seed_from_u64(29);
    let mut index = BucketController::new(2, 2, 1.0f32.to_bits(), LSHMetric::Euclidean, Some(42));
    let mut live: Vec<(u64, u64)> = Vec::new();
    for step in 0..400i64 {
        let cells = vec![rng.gen_range(0..3), rng.gen_range(0..2)];
        let bucket = vector_db::fold::fold_cells(&cells);
        let data = vec![rng.gen::<u32>(), rng.gen::<u32>()];
        match rng.gen_range(0..3) {
            0 => {
                let id = index.add_vector_at(Embedding { data, cells }, Metadata::new(), step).unwrap();
                live.push((id, bucket));
            }
            1 if !live.is_empty() => {
                let at = rng.gen_range(0..live.len());
                let (id, _) = live.swap_remove(at);
                assert_eq!(index.remove_vector_at(id, step), Ok(()));
            }
            2 if !live.is_empty() => {
                let at = rng.gen_range(0..live.len());
                assert_eq!(index.update_vector_at(live[at].0, Some(Embedding { data, cells }), None, step), Ok(()));
                live[at].1 = bucket;
            }
            _ => {}
        }
        let buckets = index.get_all_buckets();
        assert!(buckets.iter().all(|b| b.size() > 0));
        assert!(buckets.windows(2).all(|w| w[0].id < w[1].id));
        assert_eq!(index.total_vectors(), live.len());
        for (id, bucket) in &live {
            let holders: Vec<u64> = buckets.iter().filter(|b| b.contains_vector(*id)).map(|b| b.id).collect();
            assert_eq!(holders, vec![*bucket]);
        }
    }
}
