use rand::rngs::StdRng;
use rand::Rng;
use rand::SeedableRng;
use vector_db::buckets::BucketController;
use vector_db::collection::Collection;
use vector_db::controllers::VectorController;
use vector_db::lsh::LSHMetric;
use vector_db::lsh::LSH;
use vector_db::shard_client::MultiShardClient;
use vector_db::shard_client::ShardClient;
use vector_db::sharding::RoutingStrategy;
use vector_db::sharding::ShardConfig;
use vector_db::sharding::ShardManager;

/// Draws the hasher's projections and offsets from its seed and projects `v` to cells.
fn cells_of(lsh: &LSH, v: &[f32]) -> Vec<i64> {
    let width = f32::from_bits(lsh.bucket_width);
    let mut rng = StdRng::seed_from_u64(lsh.seed);
    let mut projections: Vec<Vec<f32>> = Vec::new();
    for _ in 0..lsh.num_hashes {
        let mut p = Vec::new();
        for _ in 0..lsh.dimension {
            p.push(rng.gen_range(-1.0..1.0));
        }
        projections.push(p);
    }
    let mut offsets: Vec<f32> = Vec::new();
    for _ in 0..lsh.num_hashes {
        offsets.push(rng.gen_range(0.0..width));
    }
    let mut cells = Vec::new();
    for i in 0..lsh.num_hashes {
        let mut dot = 0.0f32;
        for j in 0..lsh.dimension {
            dot += v[j] * projections[i][j];
        }
        cells.push(((dot + offsets[i]) / width).floor() as i64);
    }
    cells
}

fn bits(v: &[f32]) -> Vec<u32> {
    v.iter().map(|x| x.to_bits()).collect()
}

#[test]
fn test_vector_controller_creation() {
    let controller = VectorController::new();
    assert!(controller.vectors.is_some());
    assert_eq!(controller.vectors.as_ref().unwrap().len(), 0);
}

#[test]
fn test_bucket_controller_creation() {
    let controller = BucketController::new(4, 3, 1.0f32.to_bits(), LSHMetric::Euclidean, Some(42));
    assert!(controller.buckets.is_some());
    assert_eq!(controller.dimension, Some(4));
    assert!(controller.lsh.is_some());
}

#[test]
fn test_lsh_basic_functionality() {
    let lsh = LSH::new(4, 3, 1.0f32.to_bits(), LSHMetric::Euclidean, Some(42));

    let vector1 = vec![1.0, 2.0, 3.0, 4.0];
    let vector2 = vec![1.1, 2.1, 3.1, 4.1];
    let vector3 = vec![10.0, 20.0, 30.0, 40.0];

    let hash1 = lsh.hash(&bits(&vector1), &cells_of(&lsh, &vector1)).unwrap();
    let hash2 = lsh.hash(&bits(&vector2), &cells_of(&lsh, &vector2)).unwrap();
    let hash3 = lsh.hash(&bits(&vector3), &cells_of(&lsh, &vector3)).unwrap();

    assert_eq!(lsh.hash(&bits(&vector1), &cells_of(&lsh, &vector1)).unwrap(), hash1);
    assert_eq!(lsh.hash(&bits(&vector2), &cells_of(&lsh, &vector2)).unwrap(), hash2);
    assert_eq!(lsh.hash(&bits(&vector3), &cells_of(&lsh, &vector3)).unwrap(), hash3);
}

#[test]
fn test_bucket_controller_basic_operations() {
    let bucket_controller = BucketController::new(4, 3, 1.0f32.to_bits(), LSHMetric::Euclidean, Some(42));

    assert_eq!(bucket_controller.dimension, Some(4));
    assert!(bucket_controller.lsh.is_some());
    assert!(bucket_controller.buckets.is_some());
}

#[test]
fn test_collection_with_different_metrics() {
    let collection_euclidean = Collection::new(Some("test_euclidean".to_string()), LSHMetric::Euclidean, 384);
    let collection_cosine = Collection::new(Some("test_cosine".to_string()), LSHMetric::Cosine, 384);
    let collection_manhattan = Collection::new(Some("test_manhattan".to_string()), LSHMetric::Manhattan, 384);

    assert_eq!(collection_euclidean.lsh_metric, LSHMetric::Euclidean);
    assert_eq!(collection_cosine.lsh_metric, LSHMetric::Cosine);
    assert_eq!(collection_manhattan.lsh_metric, LSHMetric::Manhattan);

    assert_eq!(collection_euclidean.vector_dimension, 384);
    assert_eq!(collection_cosine.vector_dimension, 384);
    assert_eq!(collection_manhattan.vector_dimension, 384);

    assert_eq!(collection_euclidean.name, "test_euclidean");
    assert_eq!(collection_cosine.name, "test_cosine");
    assert_eq!(collection_manhattan.name, "test_manhattan");
}

#[test]
fn test_lsh_metric_serialization() {
    let metrics = vec![LSHMetric::Euclidean, LSHMetric::Cosine, LSHMetric::Manhattan];

    for metric in metrics {
        let metric_string = metric.to_string();
        let deserialized_metric = LSHMetric::from_string(&metric_string).unwrap();
        assert_eq!(metric, deserialized_metric);
    }

    let result = LSHMetric::from_string("Unknown");
    assert!(result.is_err());
}

fn two_shards() -> Vec<ShardConfig> {
    vec![
        ShardConfig {
            id: "shard1".to_string(),
            host: "127.0.0.1".to_string(),
            port: 8080,
            description: Some("Тестовый шард 1".to_string()),
        },
        ShardConfig {
            id: "shard2".to_string(),
            host: "127.0.0.1".to_string(),
            port: 8081,
            description: Some("Тестовый шард 2".to_string()),
        },
    ]
}

#[test]
fn test_shard_manager_creation() {
    let configs = two_shards();

    let manager = ShardManager::new(configs, RoutingStrategy::HashBased);

    assert!(manager.get_shard_info("shard1").is_some());
    assert!(manager.get_shard_info("shard2").is_some());

    let active_shards = manager.get_active_shards();
    assert_eq!(active_shards.len(), 2);
}

#[test]
fn test_collection_routing() {
    let configs = two_shards();

    let manager = ShardManager::new(configs, RoutingStrategy::HashBased);

    let shard1 = manager.get_shard_for_collection("collection1").unwrap();
    let shard2 = manager.get_shard_for_collection("collection2").unwrap();

    assert!(shard1 == "shard1" || shard1 == "shard2");
    assert!(shard2 == "shard1" || shard2 == "shard2");

    let shard1_again = manager.get_shard_for_collection("collection1").unwrap();
    assert_eq!(shard1, shard1_again);
}

#[test]
fn test_multi_shard_client_creation() {
    let mut client = MultiShardClient::new();

    let client1 = ShardClient::new("http://127.0.0.1:8080".to_string());
    let client2 = ShardClient::new("http://127.0.0.1:8081".to_string());

    client.add_shard_client("shard1".to_string(), client1);
    client.add_shard_client("shard2".to_string(), client2);

    assert!(client.get_client("shard1").is_some());
    assert!(client.get_client("shard2").is_some());
    assert!(client.get_client("shard3").is_none());
}
