use vector_db::config::ConfigLoader;
use vector_db::coordinator::collect;
use vector_db::coordinator::fan_out_verdict;
use vector_db::coordinator::first_success;
use vector_db::coordinator::found_anywhere;
use vector_db::coordinator::merge_collections;
use vector_db::coordinator::merge_hits;
use vector_db::coordinator::sort_dedup;
use vector_db::coordinator::ShardCoordinator;
use vector_db::coordinator::ShardOutcome;
use vector_db::error::DbError;
use vector_db::fold::fold_cells;
use vector_db::fold::fold_str;
use vector_db::handlers::add_collection;
use vector_db::handlers::add_vector;
use vector_db::handlers::delete_collection;
use vector_db::handlers::delete_vector;
use vector_db::handlers::filter_by_metadata;
use vector_db::handlers::find_similar;
use vector_db::handlers::get_all_collections;
use vector_db::handlers::get_collection;
use vector_db::handlers::get_vector;
use vector_db::handlers::health_check;
use vector_db::handlers::stop;
use vector_db::handlers::update_vector;
use vector_db::handlers::handle_shard_request;
use vector_db::handlers::DiskWork;
use vector_db::handlers::RequestAux;
use vector_db::lsh::LSHMetric;
use vector_db::metadata::Metadata;
use vector_db::openapi::AddCollectionParams;
use vector_db::openapi::AddVectorParams;
use vector_db::openapi::DeleteCollectionParams;
use vector_db::openapi::DeleteVectorParams;
use vector_db::openapi::FilterByMetadataParams;
use vector_db::openapi::FindSimilarParams;
use vector_db::openapi::GetVectorParams;
use vector_db::openapi::SimilarVectorResult;
use vector_db::openapi::UpdateVectorParams;
use vector_db::shard_client::CollectionInfo;
use vector_db::shard_client::MultiShardClient;
use vector_db::shard_client::ResponseData;
use vector_db::shard_client::ShardClient;
use vector_db::shard_client::ShardRequest;
use vector_db::shard_client::ShardResponse;
use vector_db::sharding::RoutingStrategy;
use vector_db::sharding::ShardConfig;
use vector_db::sharding::ShardManager;
use vector_db::sharding::ShardStatus;
use vector_db::vector_db::advance_state;
use vector_db::vector_db::shard_base_url;
use vector_db::vector_db::ServerEvent;
use vector_db::vector_db::ServerState;
use vector_db::vector_db::VectorDB;

fn bits(v: &[f32]) -> Vec<u32> {
    v.iter().map(|x| x.to_bits()).collect()
}

fn meta(pairs: &[(&str, &str)]) -> Metadata {
    let mut m = Metadata::new();
    for (k, v) in pairs {
        m.insert(k.to_string(), v.to_string());
    }
    m
}

fn shard(id: &str, port: u16) -> ShardConfig {
    ShardConfig { id: id.to_string(), host: "127.0.0.1".to_string(), port, description: None }
}

fn manager(n: usize) -> ShardManager {
    let configs = (0..n).map(|i| shard(&format!("s{}", i), 9000 + i as u16)).collect();
    ShardManager::new(configs, RoutingStrategy::HashBased)
}

fn reply(id: &str, success: bool) -> ShardResponse {
    ShardResponse {
        success,
        data: if success { Some(ResponseData::Created) } else { None },
        error: if success { None } else { Some("refused".to_string()) },
        shard_id: id.to_string(),
    }
}

#[test]
fn owner_is_the_shard_at_the_fold_of_the_name() {
    for n in 1..6 {
        let m = manager(n);
        for name in ["", "docs", "collection1", "collection2", "имя"] {
            let expected = format!("s{}", fold_str(name) % n as u64);
            assert_eq!(m.get_shard_for_collection(name), Ok(expected.clone()));
            assert_eq!(m.get_shard_for_collection(name), Ok(expected));
        }
        for b in [0u64, 1, 7, u64::MAX] {
            assert_eq!(m.get_shard_for_bucket(b), Ok(format!("s{}", b % n as u64)));
        }
    }
}

#[test]
fn every_strategy_routes_alike() {
    let owner = manager(3).get_shard_for_collection("docs");
    for s in [RoutingStrategy::RangeBased, RoutingStrategy::LSHBased, RoutingStrategy::MetadataBased] {
        let configs = (0..3).map(|i| shard(&format!("s{}", i), 9000 + i as u16)).collect();
        assert_eq!(ShardManager::new(configs, s).get_shard_for_collection("docs"), owner);
    }
}

#[test]
fn routing_skips_shards_that_are_not_active() {
    let mut m = manager(3);
    assert_eq!(m.get_shard_for_bucket(4), Ok("s1".to_string()));
    assert_eq!(m.update_shard_status("s1", ShardStatus::Maintenance), Ok(()));
    assert_eq!(m.get_shard_for_bucket(4), Ok("s2".to_string()));
    assert_eq!(m.update_shard_status("s2", ShardStatus::Failed), Ok(()));
    assert_eq!(m.get_shard_for_bucket(4), Ok("s0".to_string()));
    assert_eq!(m.get_shard_for_bucket(3), Ok("s0".to_string()));
    assert_eq!(m.update_shard_status("s0", ShardStatus::Inactive), Ok(()));
    assert_eq!(m.get_shard_for_bucket(4), Err(DbError::RemoteUnavailable));
    assert_eq!(m.get_shard_for_collection("docs"), Err(DbError::RemoteUnavailable));
    assert_eq!(m.update_shard_status("s1", ShardStatus::Active), Ok(()));
    assert_eq!(m.get_shard_for_bucket(5), Ok("s1".to_string()));
    assert_eq!(m.update_shard_status("s9", ShardStatus::Active), Err(DbError::NotFound));
    assert_eq!(manager(0).get_shard_for_collection("docs"), Err(DbError::NotFound));
    assert_eq!(manager(0).get_shards_for_bucket(1), Err(DbError::NotFound));
}

#[test]
fn active_shards_are_listed_in_configured_order() {
    let mut m = manager(4);
    m.update_shard_status("s2", ShardStatus::Failed).unwrap();
    let ids: Vec<String> = m.get_active_shards().iter().map(|s| s.config.id.clone()).collect();
    assert_eq!(ids, vec!["s0", "s1", "s3"]);
    assert_eq!(m.get_shard_info("s2").unwrap().info.status, ShardStatus::Failed);
    assert_eq!(m.get_shard_info("s1").unwrap().info.capacity, 1000000);
    assert_eq!(m.get_shard_info("s1").unwrap().info.used_space, 0);
    assert_eq!(m.get_shard_info("s1").unwrap().config.port, 9001);
    assert!(m.get_shard_info("zz").is_none());
    assert_eq!(m.shard_ids(), vec!["s0", "s1", "s2", "s3"]);
}

#[test]
fn a_repeated_identifier_replaces_the_earlier_configuration() {
    let m = ShardManager::new(vec![shard("a", 1), shard("b", 2), shard("a", 3)], RoutingStrategy::HashBased);
    assert_eq!(m.shard_ids(), vec!["a", "b"]);
    assert_eq!(m.get_shard_info("a").unwrap().config.port, 3);
}

#[test]
fn replicas_follow_the_owner() {
    let mut m = manager(3);
    assert_eq!(m.get_shards_for_bucket(1), Ok(vec!["s1".to_string(), "s0".to_string()]));
    assert_eq!(m.get_shards_for_bucket(0), Ok(vec!["s0".to_string(), "s1".to_string()]));
    m.update_shard_status("s0", ShardStatus::Failed).unwrap();
    assert_eq!(m.get_shards_for_bucket(1), Ok(vec!["s1".to_string(), "s2".to_string()]));
    m.update_shard_status("s2", ShardStatus::Failed).unwrap();
    assert_eq!(m.get_shards_for_bucket(1), Ok(vec!["s1".to_string()]));
    assert_eq!(m.get_next_available_shard(&vec![]), Some("s1".to_string()));
    assert_eq!(m.get_next_available_shard(&vec!["s1".to_string()]), None);
}

#[test]
fn shards_record_their_collections() {
    let mut m = manager(2);
    assert_eq!(m.add_collection_to_shard("s0", "a".to_string()), Ok(()));
    assert_eq!(m.add_collection_to_shard("s0", "b".to_string()), Ok(()));
    assert_eq!(m.add_collection_to_shard("s0", "a".to_string()), Ok(()));
    assert_eq!(m.get_shard_info("s0").unwrap().info.collections, vec!["a", "b"]);
    assert_eq!(m.get_shard_info("s1").unwrap().info.collections, Vec::<String>::new());
    assert_eq!(m.remove_collection_from_shard("s0", "a"), Ok(()));
    assert_eq!(m.remove_collection_from_shard("s0", "zz"), Ok(()));
    assert_eq!(m.get_shard_info("s0").unwrap().info.collections, vec!["b"]);
    assert_eq!(m.add_collection_to_shard("s7", "a".to_string()), Err(DbError::NotFound));
    assert_eq!(m.remove_collection_from_shard("s7", "a"), Err(DbError::NotFound));
}

#[test]
fn fan_out_records_every_call() {
    let outcomes = vec![
        ShardOutcome { shard_id: "s0".to_string(), reply: Ok(reply("local", true)) },
        ShardOutcome { shard_id: "s1".to_string(), reply: Err("timeout".to_string()) },
        ShardOutcome { shard_id: "s2".to_string(), reply: Ok(reply("local", false)) },
    ];
    let result = collect(outcomes);
    assert_eq!(result.successful_operations, 2);
    assert_eq!(result.failed_operations, 1);
    let ids: Vec<&str> = result.results.iter().map(|r| r.shard_id.as_str()).collect();
    assert_eq!(ids, vec!["s0", "s1", "s2"]);
    assert!(result.results[0].success);
    assert!(!result.results[1].success);
    assert_eq!(result.results[1].error.as_deref(), Some("timeout"));
    assert!(result.results[1].data.is_none());
    assert_eq!(result.results[2].error.as_deref(), Some("refused"));
    let none = collect(vec![]);
    assert_eq!((none.results.len(), none.successful_operations, none.failed_operations), (0, 0, 0));
}

#[test]
fn create_collection_is_all_or_nothing() {
    let mut c = ShardCoordinator::new(manager(2));
    let both = collect(vec![
        ShardOutcome { shard_id: "s0".to_string(), reply: Ok(reply("local", true)) },
        ShardOutcome { shard_id: "s1".to_string(), reply: Ok(reply("local", true)) },
    ]);
    assert!(c.create_collection("c".to_string(), &both).is_ok());
    let owner = c.shard_manager.get_shard_for_collection("c").unwrap();
    assert_eq!(c.shard_manager.get_shard_info(&owner).unwrap().info.collections, vec!["c"]);

    let mut d = ShardCoordinator::new(manager(2));
    let second_fails = collect(vec![
        ShardOutcome { shard_id: "s0".to_string(), reply: Ok(reply("local", true)) },
        ShardOutcome { shard_id: "s1".to_string(), reply: Ok(reply("local", false)) },
    ]);
    let failure = d.create_collection("c".to_string(), &second_fails).err().unwrap();
    assert_eq!(failure.kind, DbError::RemoteError);
    assert_eq!(failure.failed_shards, vec!["s1"]);
    assert_eq!(failure.message, "failed on shards: s1 ");
    assert!(failure.message.contains("s1"));
    assert!(!failure.message.contains("s0"));
    assert!(d.shard_manager.get_shard_info("s0").unwrap().info.collections.is_empty());
    assert!(d.shard_manager.get_shard_info("s1").unwrap().info.collections.is_empty());

    assert!(c.delete_collection("c", &second_fails).is_err());
    assert_eq!(c.shard_manager.get_shard_info(&owner).unwrap().info.collections, vec!["c"]);
    assert!(c.delete_collection("c", &both).is_ok());
    assert!(c.shard_manager.get_shard_info(&owner).unwrap().info.collections.is_empty());
}

#[test]
fn verdict_names_every_failed_shard() {
    let all_fail = collect(vec![
        ShardOutcome { shard_id: "a".to_string(), reply: Err("down".to_string()) },
        ShardOutcome { shard_id: "b".to_string(), reply: Ok(reply("x", true)) },
        ShardOutcome { shard_id: "c".to_string(), reply: Ok(reply("x", false)) },
    ]);
    let f = fan_out_verdict(&all_fail).err().unwrap();
    assert_eq!(f.failed_shards, vec!["a", "c"]);
    assert_eq!(f.message, "failed on shards: a c ");
    assert!(fan_out_verdict(&collect(vec![])).is_ok());
}

#[test]
fn first_success_wins_and_found_anywhere() {
    let mut empty_ok = reply("s0", true);
    empty_ok.data = None;
    let rs = vec![reply("s0", false), empty_ok, reply("s2", true), reply("s3", true)];
    assert_eq!(first_success(&rs), Some(2));
    assert_eq!(found_anywhere(&rs), Ok(()));
    let none = vec![reply("s0", false), reply("s1", false)];
    assert_eq!(first_success(&none), None);
    assert_eq!(found_anywhere(&none), Err(DbError::NotFound));
    assert_eq!(found_anywhere(&vec![]), Err(DbError::NotFound));
    let c = ShardCoordinator::new(manager(1));
    assert_eq!(c.get_vector(&rs), Err(DbError::NotFound));
    assert_eq!(c.get_collection(&rs), None);
    let mut with_vector = reply("s4", true);
    with_vector.data = Some(ResponseData::Vector(vector_db::shard_client::VectorPayload {
        id: 1,
        embedding: bits(&[1.0]),
        metadata: Metadata::new(),
    }));
    let mut with_collection = reply("s5", true);
    with_collection.data = Some(ResponseData::Collection(info("docs", 3)));
    let mixed = vec![reply("s0", true), with_collection, with_vector];
    assert_eq!(c.get_vector(&mixed), Ok(2));
    assert_eq!(c.get_collection(&mixed), Some(1));
    assert_eq!(c.get_vector(&none), Err(DbError::NotFound));
    assert_eq!(c.update_vector(&none), Err(DbError::NotFound));
    assert_eq!(c.delete_vector(&rs), Ok(()));
    assert_eq!(c.add_vector("docs"), Ok("s0".to_string()));
}

#[test]
fn filter_results_are_sorted_and_deduplicated() {
    assert_eq!(sort_dedup(&vec![5, 1, 5, 3, 1, 9, 0]), vec![0, 1, 3, 5, 9]);
    assert_eq!(sort_dedup(&vec![]), Vec::<u64>::new());
    assert_eq!(sort_dedup(&vec![u64::MAX, 0, u64::MAX]), vec![0, u64::MAX]);
    let c = ShardCoordinator::new(manager(1));
    assert_eq!(c.filter_by_metadata(&vec![2, 2, 1]), vec![1, 2]);
}

#[test]
fn coordinator_merges_search_results() {
    let a = vec![(7u64, 0usize, 0.91f32.to_bits()), (9, 3, 0.80f32.to_bits())];
    let b = vec![(2u64, 1usize, 0.88f32.to_bits()), (4, 0, 0.65f32.to_bits())];
    let merged = merge_hits(&vec![a, b], 3);
    assert_eq!(
        merged,
        vec![(7, 0, 0.91f32.to_bits()), (2, 1, 0.88f32.to_bits()), (9, 3, 0.80f32.to_bits())]
    );
}

#[test]
fn merge_is_sort_by_score_descending_then_truncate() {
    let lists: Vec<Vec<(u64, usize, u32)>> = vec![
        vec![(1, 0, 0.3f32.to_bits()), (1, 1, 0.3f32.to_bits()), (2, 0, (-0.4f32).to_bits())],
        vec![],
        vec![(3, 0, 0.3f32.to_bits()), (3, 1, 0.99f32.to_bits())],
        vec![(4, 2, 0.0f32.to_bits())],
    ];
    let mut all: Vec<(u64, usize, u32)> = lists.iter().flatten().cloned().collect();
    all.sort_by(|a, b| f32::from_bits(b.2).partial_cmp(&f32::from_bits(a.2)).unwrap());
    for k in 0..8 {
        let mut expected = all.clone();
        expected.truncate(k);
        assert_eq!(merge_hits(&lists, k), expected);
    }
    let c = ShardCoordinator::new(manager(1));
    assert_eq!(c.find_similar_vectors(&lists, 1), vec![(3, 1, 0.99f32.to_bits())]);
    assert_eq!(merge_hits(&vec![], 5), vec![]);
}

fn info(name: &str, dimension: usize) -> CollectionInfo {
    CollectionInfo {
        name: name.to_string(),
        metric: LSHMetric::Cosine,
        dimension,
        total_vectors: 0,
        total_buckets: 0,
    }
}

#[test]
fn collections_of_all_shards_are_merged_by_name() {
    let merged = merge_collections(vec![info("b", 1), info("a", 2), info("b", 3), info("c", 4), info("a", 5)]);
    let got: Vec<(String, usize)> = merged.iter().map(|i| (i.name.clone(), i.dimension)).collect();
    assert_eq!(got, vec![("a".to_string(), 2), ("b".to_string(), 1), ("c".to_string(), 4)]);
    assert_eq!(merge_collections(vec![]).len(), 0);
}

#[test]
fn shard_requests_carry_what_the_operation_reads() {
    let c = ShardClient::new("http://h:1".to_string());
    assert_eq!(c.timeout_secs, 30);
    assert_eq!(c.request_url(), "http://h:1/shard");
    assert_eq!(c.health_url(), "http://h:1/health");
    let r = c.create_collection("docs".to_string(), LSHMetric::Cosine, 8);
    assert_eq!(r.operation, "create_collection");
    assert_eq!(r.collection.as_deref(), Some("docs"));
    let m = r.metadata.unwrap();
    assert_eq!(m.get("metric").unwrap(), "Cosine");
    assert_eq!(m.get("dimension").unwrap(), "8");
    assert_eq!(m.len(), 2);
    let r = c.add_vector("docs".to_string(), bits(&[1.0]), meta(&[("k", "v")]));
    assert_eq!(r.operation, "add_vector");
    assert_eq!(r.embedding, Some(bits(&[1.0])));
    assert_eq!(r.metadata.unwrap().get("k").unwrap(), "v");
    let r = c.update_vector("docs".to_string(), 4, None, None);
    assert_eq!((r.operation.as_str(), r.vector_id, r.embedding.is_none()), ("update_vector", Some(4), true));
    let r = c.find_similar("docs".to_string(), bits(&[2.0]), 3);
    assert_eq!((r.operation.as_str(), r.query, r.k), ("find_similar", Some(bits(&[2.0])), Some(3)));
    let r = c.filter_by_metadata("docs".to_string(), meta(&[("a", "b")]));
    assert_eq!(r.operation, "filter_by_metadata");
    assert_eq!(r.filters.unwrap().get("a").unwrap(), "b");
    assert_eq!(c.delete_collection("d".to_string()).operation, "delete_collection");
    assert_eq!(c.delete_vector("d".to_string(), 1).operation, "delete_vector");
    assert_eq!(c.get_vector("d".to_string(), 1).vector_id, Some(1));
    assert_eq!(c.get_collection("d".to_string()).operation, "get_collection");
    assert_eq!(c.get_all_collections().operation, "get_all_collections");
    for (r, name) in [
        (c.get_statistics(), "get_statistics"),
        (c.stop_shard(), "stop"),
        (c.dump(), "dump"),
        (c.load(), "load"),
    ] {
        assert_eq!(r.operation, name);
        assert!(r.collection.is_none() && r.vector_id.is_none() && r.k.is_none());
    }
}

#[test]
fn clients_are_kept_by_shard() {
    let mut m = MultiShardClient::new();
    m.add_shard_client("a".to_string(), ShardClient::new("u1".to_string()));
    m.add_shard_client("b".to_string(), ShardClient::new("u2".to_string()));
    m.add_shard_client("a".to_string(), ShardClient::new("u3".to_string()));
    assert_eq!(m.len(), 2);
    assert_eq!(m.get_client("a").unwrap().base_url, "u3");
    assert_eq!(m.client_at(0).0, "a");
    assert_eq!(m.client_at(1).1.base_url, "u2");
    assert!(m.get_client("c").is_none());
}

#[test]
fn server_life() {
    let (started, stop_requested, drained) =
        (ServerEvent::Started, ServerEvent::StopRequested, ServerEvent::Drained);
    let (starting, serving_state, draining, stopped) =
        (ServerState::Starting, ServerState::Serving, ServerState::Draining, ServerState::Stopped);
    assert_eq!(advance_state(starting, started), serving_state);
    assert_eq!(advance_state(serving_state, stop_requested), draining);
    assert_eq!(advance_state(draining, drained), stopped);
    assert_eq!(advance_state(starting, stop_requested), starting);
    assert_eq!(advance_state(starting, drained), starting);
    assert_eq!(advance_state(serving_state, started), serving_state);
    assert_eq!(advance_state(serving_state, drained), serving_state);
    assert_eq!(advance_state(draining, started), draining);
    assert_eq!(advance_state(draining, stop_requested), draining);
    for e in [started, stop_requested, drained] {
        assert_eq!(advance_state(stopped, e), stopped);
    }
}

fn loader(pairs: &[(&str, &str)]) -> ConfigLoader {
    let mut c = ConfigLoader::new();
    c.load_entries("config.json".to_string(), Some(meta(pairs)));
    c
}

#[test]
fn engine_by_role() {
    let shard_node = VectorDB::new_from_config(loader(&[("storage.path", "/d")]), Err(DbError::NotFound)).unwrap();
    assert!(!shard_node.is_sharded());
    assert!(shard_node.shard_coordinator.is_none());
    assert_eq!(shard_node.storage_controller().root_path(), "/d");
    assert_eq!(shard_node.state, ServerState::Starting);

    let configs = vec![shard("s0", 8081), shard("s1", 8082)];
    let coordinator =
        VectorDB::new_from_config(loader(&[("server.role", "coordinator")]), Ok(configs)).unwrap();
    assert!(coordinator.is_sharded());
    let clients = coordinator.multi_shard_client.as_ref().unwrap();
    assert_eq!(clients.get_client("s1").unwrap().base_url, "http://127.0.0.1:8082");
    assert_eq!(coordinator.shard_coordinator.as_ref().unwrap().shard_manager.shard_ids(), vec!["s0", "s1"]);
    assert_eq!(shard_base_url(&shard("x", 80)), "http://127.0.0.1:80");

    let refused = VectorDB::new_from_config(loader(&[("server.role", "coordinator")]), Err(DbError::Io));
    assert_eq!(refused.err(), Some(DbError::Io));

    let named = VectorDB::new_from_config(
        loader(&[("server.role", "coordinator"), ("sharding.strategy", "lsh_based")]),
        Ok(vec![shard("s0", 8081)]),
    )
    .unwrap();
    assert!(named.is_sharded());
    let misnamed = VectorDB::new_from_config(
        loader(&[("server.role", "coordinator"), ("sharding.strategy", "round_robin")]),
        Ok(vec![shard("s0", 8081)]),
    );
    assert_eq!(misnamed.err(), Some(DbError::InvalidArgument));
    let both = VectorDB::new_from_config(
        loader(&[("server.role", "coordinator"), ("sharding.strategy", "round_robin")]),
        Err(DbError::NotFound),
    );
    assert_eq!(both.err(), Some(DbError::NotFound));
    let shard_only = VectorDB::new_from_config(loader(&[("sharding.strategy", "round_robin")]), Err(DbError::Io));
    assert!(shard_only.is_ok());

    let plain = VectorDB::new(loader(&[("path.path", "/p")]));
    assert!(!plain.is_sharded());
    assert_eq!(plain.storage_controller().root_path(), "/p");
    assert_eq!(plain.find_similar_across_shards(&vec![], 1), Err(DbError::InvalidArgument));
    let hits = vec![(1u64, 0usize, 0.5f32.to_bits()), (1, 1, 0.75f32.to_bits())];
    let mut answer = reply("s0", true);
    answer.data = Some(ResponseData::Results(hits.clone()));
    let mut refused = reply("s1", false);
    refused.data = Some(ResponseData::Results(vec![(9, 9, 0.99f32.to_bits())]));
    let responses = vec![refused, answer, reply("s2", true)];
    assert_eq!(coordinator.find_similar_across_shards(&responses, 1), Ok(vec![hits[1]]));
    assert_eq!(vector_db::coordinator::search_lists(&responses), vec![hits]);
}

fn serving() -> VectorDB {
    let mut db = VectorDB::new(ConfigLoader::new());
    db.advance(ServerEvent::Started);
    db
}

fn request(operation: &str) -> ShardRequest {
    ShardRequest {
        operation: operation.to_string(),
        collection: None,
        vector_id: None,
        embedding: None,
        metadata: None,
        query: None,
        k: None,
        filters: None,
    }
}

fn no_aux() -> RequestAux {
    RequestAux { cells: None, scores: None, disk: DiskWork::Idle }
}

fn cells(c: &[i64]) -> RequestAux {
    RequestAux { cells: Some(c.to_vec()), scores: None, disk: DiskWork::Idle }
}

fn failed_with(r: &ShardResponse, e: DbError) -> bool {
    !r.success && r.data.is_none() && r.error.as_deref() == Some(e.to_string().as_str()) && r.shard_id == "local"
}

#[test]
fn a_node_that_is_not_serving_refuses_requests() {
    let mut db = VectorDB::new(ConfigLoader::new());
    let r = handle_shard_request(&mut db, request("get_all_collections"), no_aux());
    assert!(failed_with(&r, DbError::ShuttingDown));
    db.advance(ServerEvent::Started);
    assert!(handle_shard_request(&mut db, request("get_all_collections"), no_aux()).success);
    let r = handle_shard_request(&mut db, request("stop"), no_aux());
    assert!(r.success);
    assert!(matches!(r.data, Some(ResponseData::Stopping)));
    assert_eq!(db.state, ServerState::Draining);
    let r = handle_shard_request(&mut db, request("get_all_collections"), no_aux());
    assert!(failed_with(&r, DbError::ShuttingDown));
}

#[test]
fn unknown_operations_and_missing_fields_are_invalid() {
    let mut db = serving();
    for op in ["rename", "", "Stop", "bogus"] {
        let r = handle_shard_request(&mut db, request(op), no_aux());
        assert!(!r.success && r.data.is_none() && r.shard_id == "local");
        assert_eq!(r.error, Some(format!("InvalidArgument: unknown operation {}", op)));
        assert_eq!(db.state, ServerState::Serving);
    }
    for op in [
        "create_collection",
        "get_collection",
        "delete_collection",
        "add_vector",
        "update_vector",
        "delete_vector",
        "get_vector",
        "filter_by_metadata",
        "find_similar",
        "load",
        "dump",
    ] {
        assert!(failed_with(&handle_shard_request(&mut db, request(op), no_aux()), DbError::InvalidArgument));
    }
    let mut r = request("create_collection");
    r.collection = Some("c".to_string());
    r.metadata = Some(meta(&[("metric", "Chebyshev"), ("dimension", "4")]));
    assert!(failed_with(&handle_shard_request(&mut db, r, no_aux()), DbError::InvalidArgument));
    let mut r = request("create_collection");
    r.collection = Some("c".to_string());
    r.metadata = Some(meta(&[("metric", "Cosine"), ("dimension", "four")]));
    assert!(failed_with(&handle_shard_request(&mut db, r, no_aux()), DbError::InvalidArgument));
    assert_eq!(db.get_all_collections().len(), 0);
}

#[test]
fn a_shard_serves_the_data_plane() {
    let mut db = serving();
    let client = ShardClient::new("http://h".to_string());
    let r = handle_shard_request(&mut db, client.create_collection("docs".to_string(), LSHMetric::Cosine, 2), no_aux());
    assert!(r.success && matches!(r.data, Some(ResponseData::Created)));
    let again = handle_shard_request(&mut db, client.create_collection("docs".to_string(), LSHMetric::Cosine, 2), no_aux());
    assert!(failed_with(&again, DbError::AlreadyExists));

    let r = handle_shard_request(
        &mut db,
        client.add_vector("docs".to_string(), bits(&[1.0, 0.0]), meta(&[("cat", "doc")])),
        cells(&[1, 2, 3]),
    );
    let id = match r.data {
        Some(ResponseData::VectorId(id)) => id,
        _ => panic!("no identifier"),
    };
    let short = handle_shard_request(
        &mut db,
        client.add_vector("docs".to_string(), bits(&[1.0]), Metadata::new()),
        cells(&[1, 2, 3]),
    );
    assert!(failed_with(&short, DbError::DimensionMismatch));

    let r = handle_shard_request(&mut db, client.get_vector("docs".to_string(), id), no_aux());
    match r.data {
        Some(ResponseData::Vector(v)) => {
            assert_eq!(v.id, id);
            assert_eq!(v.embedding, bits(&[1.0, 0.0]));
            assert_eq!(v.metadata.get("cat").unwrap(), "doc");
        }
        _ => panic!("no vector"),
    }
    let r = handle_shard_request(&mut db, client.get_collection("docs".to_string()), no_aux());
    match r.data {
        Some(ResponseData::Collection(c)) => {
            assert_eq!((c.name.as_str(), c.metric, c.dimension), ("docs", LSHMetric::Cosine, 2));
            assert_eq!((c.total_vectors, c.total_buckets), (1, 1));
        }
        _ => panic!("no collection"),
    }
    let r = handle_shard_request(&mut db, client.filter_by_metadata("docs".to_string(), meta(&[("cat", "doc")])), no_aux());
    assert!(matches!(r.data, Some(ResponseData::VectorIds(ref ids)) if *ids == vec![id]));

    let mut search = RequestAux { cells: Some(vec![1, 2, 3]), scores: Some(vec![bits(&[0.75])]), disk: DiskWork::Idle };
    let r = handle_shard_request(&mut db, client.find_similar("docs".to_string(), bits(&[1.0, 1.0]), 1), search);
    let b = fold_cells(&[1, 2, 3]);
    assert!(matches!(r.data, Some(ResponseData::Results(ref hits)) if *hits == vec![(b, 0, 0.75f32.to_bits())]));
    search = RequestAux { cells: Some(vec![1, 2, 3]), scores: None, disk: DiskWork::Idle };
    let r = handle_shard_request(&mut db, client.find_similar("docs".to_string(), bits(&[1.0, 1.0]), 1), search);
    assert!(failed_with(&r, DbError::InvalidArgument));

    let r = handle_shard_request(
        &mut db,
        client.update_vector("docs".to_string(), id, Some(bits(&[0.0, 1.0])), None),
        cells(&[9, 9, 9]),
    );
    assert!(r.success && matches!(r.data, Some(ResponseData::Updated)));
    assert_eq!(db.get_collection("docs").unwrap().buckets_controller.get_all_buckets()[0].id, fold_cells(&[9, 9, 9]));
    let r = handle_shard_request(
        &mut db,
        client.update_vector("docs".to_string(), id, Some(bits(&[0.0, 1.0])), None),
        no_aux(),
    );
    assert!(failed_with(&r, DbError::InvalidArgument));

    let r = handle_shard_request(&mut db, client.get_statistics(), no_aux());
    assert!(matches!(r.data, Some(ResponseData::Statistics(ref s)) if s.len() == 1 && s[0].total_vectors == 1));
    let r = handle_shard_request(&mut db, client.get_all_collections(), no_aux());
    assert!(matches!(r.data, Some(ResponseData::Collections(ref s)) if s.len() == 1));
    let written = RequestAux { cells: None, scores: None, disk: DiskWork::Written };
    let r = handle_shard_request(&mut db, client.dump(), written);
    assert!(r.success && matches!(r.data, Some(ResponseData::Dumped)));
    let failed = RequestAux { cells: None, scores: None, disk: DiskWork::Failed };
    assert!(failed_with(&handle_shard_request(&mut db, client.dump(), failed), DbError::Io));
    let failed = RequestAux { cells: None, scores: None, disk: DiskWork::Failed };
    assert!(failed_with(&handle_shard_request(&mut db, client.load(), failed), DbError::Io));
    let written = RequestAux { cells: None, scores: None, disk: DiskWork::Written };
    assert!(failed_with(&handle_shard_request(&mut db, client.load(), written), DbError::InvalidArgument));
    assert!(db.get_vector("docs", id).is_ok());
    let dumps = db.dump();

    let r = handle_shard_request(&mut db, client.delete_vector("docs".to_string(), id), no_aux());
    assert!(r.success && matches!(r.data, Some(ResponseData::Deleted)));
    let r = handle_shard_request(&mut db, client.delete_vector("docs".to_string(), id), no_aux());
    assert!(failed_with(&r, DbError::NotFound));
    let r = handle_shard_request(&mut db, client.get_vector("docs".to_string(), id), no_aux());
    assert!(failed_with(&r, DbError::NotFound));
    let r = handle_shard_request(&mut db, client.delete_collection("docs".to_string()), no_aux());
    assert!(r.success);
    let r = handle_shard_request(&mut db, client.get_collection("docs".to_string()), no_aux());
    assert!(failed_with(&r, DbError::NotFound));

    let r = handle_shard_request(&mut db, client.load(), RequestAux { cells: None, scores: None, disk: DiskWork::Read(dumps) });
    assert!(matches!(r.data, Some(ResponseData::Loaded)));
    assert!(db.get_vector("docs", id).is_ok());
}

#[test]
fn user_requests_in_local_mode() {
    let mut db = serving();
    let r = add_collection(
        &mut db,
        AddCollectionParams { name: "docs".to_string(), metric: "Euclidean".to_string(), dimension: 4 },
    );
    assert_eq!(r.status, "ok");
    let r = add_collection(
        &mut db,
        AddCollectionParams { name: "x".to_string(), metric: "L7".to_string(), dimension: 4 },
    );
    assert_eq!((r.status.as_str(), r.message.as_deref()), ("error", Some("InvalidArgument")));
    let r = add_vector(
        &mut db,
        AddVectorParams {
            collection: "docs".to_string(),
            embedding: bits(&[1.0, 0.0, 0.0, 0.0]),
            metadata: Some(meta(&[("k", "a")])),
        },
        vec![0, 1, 2],
    );
    let id = match r.data {
        Some(ResponseData::VectorId(id)) => id,
        _ => panic!("no identifier"),
    };
    let r = add_vector(
        &mut db,
        AddVectorParams { collection: "docs".to_string(), embedding: bits(&[1.0, 2.0, 3.0]), metadata: None },
        vec![0, 1, 2],
    );
    assert_eq!((r.status.as_str(), r.message.as_deref()), ("error", Some("DimensionMismatch")));
    let r = get_vector(&db, GetVectorParams { collection: "docs".to_string(), vector_id: id });
    assert!(matches!(r.data, Some(ResponseData::Vector(ref v)) if v.embedding == bits(&[1.0, 0.0, 0.0, 0.0])));
    let r = filter_by_metadata(
        &db,
        FilterByMetadataParams { collection: "docs".to_string(), filters: meta(&[("k", "a")]) },
    );
    assert!(matches!(r.data, Some(ResponseData::VectorIds(ref ids)) if *ids == vec![id]));
    let r = find_similar(
        &db,
        FindSimilarParams { collection: "docs".to_string(), query: bits(&[1.0, 0.0, 0.0, 0.0]), k: 1 },
        vec![0, 1, 2],
        vec![bits(&[1.0])],
    );
    match r.data {
        Some(ResponseData::Results(hits)) => {
            let shown: Vec<SimilarVectorResult> = hits.iter().map(|h| SimilarVectorResult::from_hit(*h)).collect();
            assert_eq!(
                shown,
                vec![SimilarVectorResult {
                    bucket_id: fold_cells(&[0, 1, 2]),
                    vector_index: 0,
                    score: 1.0f32.to_bits()
                }]
            );
        }
        _ => panic!("no results"),
    }
    let r = update_vector(
        &mut db,
        UpdateVectorParams {
            collection: "docs".to_string(),
            vector_id: id,
            embedding: None,
            metadata: Some(meta(&[("k", "b")])),
        },
        None,
    );
    assert_eq!(r.status, "ok");
    assert_eq!(get_collection(&db, DeleteCollectionParams { name: "docs".to_string() }).status, "ok");
    assert_eq!(get_collection(&db, DeleteCollectionParams { name: "nope".to_string() }).status, "error");
    assert!(matches!(get_all_collections(&db).data, Some(ResponseData::Collections(ref c)) if c.len() == 1));
    assert_eq!(delete_vector(&mut db, DeleteVectorParams { collection: "docs".to_string(), vector_id: id }).status, "ok");
    let r = get_vector(&db, GetVectorParams { collection: "docs".to_string(), vector_id: id });
    assert_eq!((r.status.as_str(), r.message.as_deref()), ("error", Some("NotFound")));
    assert_eq!(delete_collection(&mut db, DeleteCollectionParams { name: "docs".to_string() }).status, "ok");
    assert_eq!(delete_collection(&mut db, DeleteCollectionParams { name: "docs".to_string() }).status, "error");
    assert_eq!(health_check().status, "ok");
    assert_eq!(stop(&mut db).status, "ok");
    assert_eq!(db.state, ServerState::Draining);
}

#[test]
fn strategies_are_read_by_name() {
    assert_eq!(RoutingStrategy::from_string("hash_based"), Ok(RoutingStrategy::HashBased));
    assert_eq!(RoutingStrategy::from_string("range_based"), Ok(RoutingStrategy::RangeBased));
    assert_eq!(RoutingStrategy::from_string("lsh_based"), Ok(RoutingStrategy::LSHBased));
    assert_eq!(RoutingStrategy::from_string("metadata_based"), Ok(RoutingStrategy::MetadataBased));
    assert_eq!(RoutingStrategy::from_string("round_robin"), Err(DbError::InvalidArgument));
    assert_eq!(RoutingStrategy::from_string(""), Err(DbError::InvalidArgument));
}

#[test]
fn fan_out_goes_to_the_active_shards() {
    let mut c = ShardCoordinator::new(manager(3));
    assert_eq!(c.fan_out_targets(), vec!["s0", "s1", "s2"]);
    c.shard_manager.update_shard_status("s1", ShardStatus::Maintenance).unwrap();
    assert_eq!(c.fan_out_targets(), vec!["s0", "s2"]);
    c.shard_manager.update_shard_status("s1", ShardStatus::Active).unwrap();
    c.shard_manager.update_shard_status("s0", ShardStatus::Failed).unwrap();
    assert_eq!(c.shard_manager.active_shard_ids(), vec!["s1", "s2"]);
}

#[test]
fn shard_statistics() {
    let mut m = manager(2);
    m.add_collection_to_shard("s1", "docs".to_string()).unwrap();
    m.update_shard_status("s0", ShardStatus::Failed).unwrap();
    let stats = m.get_shards_statistics();
    assert_eq!(stats.len(), 2);
    assert_eq!((stats[0].id.as_str(), stats[0].status, stats[0].collections_count), ("s0", ShardStatus::Failed, 0));
    assert_eq!((stats[1].id.as_str(), stats[1].port, stats[1].capacity), ("s1", 9001, 1000000));
    assert_eq!(stats[1].collections, vec!["docs"]);
    assert_eq!(stats[1].collections_count, 1);
    let c = ShardCoordinator::new(m);
    assert_eq!(c.get_cluster_statistics().len(), 2);
    let local = VectorDB::new(ConfigLoader::new());
    assert_eq!(local.get_shard_statistics().err(), Some(DbError::InvalidArgument));
}

#[test]
fn reports_and_descriptions_are_taken_from_the_answers() {
    let c = ShardCoordinator::new(manager(2));
    let report = c.dump_data(vec![
        ShardOutcome { shard_id: "s0".to_string(), reply: Ok(reply("local", true)) },
        ShardOutcome { shard_id: "s1".to_string(), reply: Err("down".to_string()) },
    ]);
    assert_eq!((report.successful_operations, report.failed_operations), (1, 1));
    let report = c.load_data(vec![]);
    assert_eq!(report.results.len(), 0);

    let mut a = reply("s0", true);
    a.data = Some(ResponseData::Collections(vec![info("b", 1), info("a", 2)]));
    let mut b = reply("s1", false);
    b.data = Some(ResponseData::Collections(vec![info("z", 9)]));
    let mut d = reply("s2", true);
    d.data = Some(ResponseData::Collections(vec![info("a", 7), info("c", 3)]));
    let infos = vector_db::coordinator::collection_infos(&vec![a, b, reply("s3", true), d]);
    let names: Vec<(String, usize)> = infos.iter().map(|i| (i.name.clone(), i.dimension)).collect();
    assert_eq!(
        names,
        vec![("b".to_string(), 1), ("a".to_string(), 2), ("a".to_string(), 7), ("c".to_string(), 3)]
    );
    let merged = c.get_all_collections(infos);
    let names: Vec<(String, usize)> = merged.iter().map(|i| (i.name.clone(), i.dimension)).collect();
    assert_eq!(names, vec![("a".to_string(), 2), ("b".to_string(), 1), ("c".to_string(), 3)]);
}

#[test]
fn replies_are_passed_on_to_the_user() {
    let ok = vector_db::coordinator::passthrough(Ok(reply("s0", true)));
    assert_eq!((ok.status.as_str(), ok.message), ("ok", None));
    assert!(matches!(ok.data, Some(ResponseData::Created)));
    let refused = vector_db::coordinator::passthrough(Ok(reply("s0", false)));
    assert_eq!((refused.status.as_str(), refused.message.as_deref()), ("error", Some("refused")));
    assert!(refused.data.is_none());
    let mut silent = reply("s0", false);
    silent.error = None;
    let r = vector_db::coordinator::passthrough(Ok(silent));
    assert_eq!((r.status.as_str(), r.message.as_deref()), ("error", Some("RemoteError")));
    let mut hollow = reply("s0", true);
    hollow.data = None;
    let r = vector_db::coordinator::passthrough(Ok(hollow));
    assert_eq!((r.status.as_str(), r.message.as_deref()), ("error", Some("RemoteError")));
    let r = vector_db::coordinator::passthrough(Err("timeout".to_string()));
    assert_eq!((r.status.as_str(), r.message.as_deref()), ("error", Some("RemoteUnavailable: timeout")));

    let c = ShardCoordinator::new(manager(1));
    let mut found = reply("s0", true);
    found.data = Some(ResponseData::VectorIds(vec![9, 2, 9, 4]));
    assert_eq!(c.filter_reply(Ok(found)), vec![2, 4, 9]);
    let mut failed = reply("s0", false);
    failed.data = Some(ResponseData::VectorIds(vec![1]));
    assert_eq!(c.filter_reply(Ok(failed)), Vec::<u64>::new());
    assert_eq!(c.filter_reply(Ok(reply("s0", true))), Vec::<u64>::new());
    assert_eq!(c.filter_reply(Err("down".to_string())), Vec::<u64>::new());
}
