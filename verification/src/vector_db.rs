//! A node's engine, its role, and the server's life.

use vstd::prelude::*;
use crate::buckets::add_post;
use crate::buckets::filter_ids;
use crate::buckets::hits_view;
use crate::buckets::remove_post;
use crate::buckets::score_rows;
use crate::buckets::update_post;
use crate::collection::Collection;
use crate::config::section;
use crate::config::ConfigLoader;
use crate::controllers::opt_pairs;
use crate::coordinator::ShardCoordinator;
use crate::error::DbError;
use crate::files::StorageController;
use crate::index::index_holds;
use crate::index::vector_of;
use crate::lsh::Embedding;
use crate::lsh::LSHMetric;
use crate::metadata::Metadata;
use crate::objects::Vector;
use crate::paths::decimal;
use crate::paths::decimal_string;
use crate::registry::create_outcome;
use crate::registry::has_name;
use crate::registry::name_index;
use crate::registry::plan_outcome;
use crate::registry::search_outcome;
use crate::registry::CollectionController;
use crate::registry::SearchPlan;
use crate::search::Hit;
use crate::shard_client::MultiShardClient;
use crate::shard_client::ShardClient;
use crate::sharding::RoutingStrategy;
use crate::sharding::ShardConfig;
use crate::sharding::ShardManager;
use crate::storage::CollectionDump;

verus! {

/// Where a server stands in its life.
#[derive(Clone, Copy, Debug, PartialEq, Eq, Structural)]
pub enum ServerState {
    Starting,
    Serving,
    Draining,
    Stopped,
}

/// What moves a server on.
#[derive(Clone, Copy, Debug, PartialEq, Eq, Structural)]
pub enum ServerEvent {
    /// The listener is up.
    Started,
    /// A stop was asked for.
    StopRequested,
    /// The last request in flight is answered.
    Drained,
}

/// The server's life: starting, then serving, then draining after a stop is asked
/// for, then stopped once drained. Any other event leaves the state as it is.
pub open spec fn next_state(state: ServerState, event: ServerEvent) -> ServerState {
    match (state, event) {
        (ServerState::Starting, ServerEvent::Started) => ServerState::Serving,
        (ServerState::Serving, ServerEvent::StopRequested) => ServerState::Draining,
        (ServerState::Draining, ServerEvent::Drained) => ServerState::Stopped,
        _ => state,
    }
}

/// Computes the state after an event.
pub fn advance_state(state: ServerState, event: ServerEvent) -> (next: ServerState)
    ensures
        next == next_state(state, event),
{
    match (state, event) {
        (ServerState::Starting, ServerEvent::Started) => ServerState::Serving,
        (ServerState::Serving, ServerEvent::StopRequested) => ServerState::Draining,
        (ServerState::Draining, ServerEvent::Drained) => ServerState::Stopped,
        _ => state,
    }
}

/// The address of a shard: `http://host:port`.
pub open spec fn shard_url(host: Seq<char>, port: u16) -> Seq<char> {
    "http://"@ + host + ":"@ + decimal(port as nat)
}

/// Builds the address of a shard.
pub fn shard_base_url(config: &ShardConfig) -> (url: String)
    ensures
        url@ == shard_url(config.host@, config.port),
{
    let port = decimal_string(config.port as u64);
    "http://".to_owned().concat(config.host.as_str()).concat(":").concat(port.as_str())
}

/// No configuration after the `i`-th among the first `n` has the same identifier.
pub open spec fn is_latest(configs: Seq<ShardConfig>, i: int, n: int) -> bool {
    forall|j: int| i < j < n ==> (#[trigger] configs[j]).id@ != configs[i].id@
}

/// The client kept for the `i`-th configuration is the one built from it: at the
/// shard's address, with the default deadline.
pub open spec fn client_built(m: MultiShardClient, configs: Seq<ShardConfig>, i: int) -> bool {
    &&& m.has_client(configs[i].id@)
    &&& m.client_of(configs[i].id@).base_url@ == shard_url(configs[i].host@, configs[i].port)
    &&& m.client_of(configs[i].id@).timeout_secs == crate::shard_client::CALL_TIMEOUT_SECS
}

/// Every shard among the first `n` configurations has the client built from the
/// latest configuration under its identifier.
pub open spec fn clients_built(m: MultiShardClient, configs: Seq<ShardConfig>, n: int) -> bool {
    forall|i: int| 0 <= i < n && is_latest(configs, i, n) ==> #[trigger] client_built(m, configs, i)
}

/// A node's engine: its collections and where they are stored and, on a coordinator,
/// the shard manager and the clients of the shards.
pub struct VectorDB {
    pub storage_controller: StorageController,
    pub collection_controller: CollectionController,
    pub shard_coordinator: Option<ShardCoordinator>,
    pub multi_shard_client: Option<MultiShardClient>,
    pub is_sharded: bool,
    pub state: ServerState,
}

impl VectorDB {
    /// Everything the engine holds is well formed.
    pub open spec fn wf(&self) -> bool {
        &&& self.storage_controller.wf()
        &&& self.collection_controller.wf()
        &&& self.shard_coordinator matches Some(c) ==> c.shard_manager.wf()
        &&& self.multi_shard_client matches Some(m) ==> m.wf()
    }

    /// The collections.
    pub open spec fn collections(&self) -> Seq<Collection> {
        self.collection_controller.items()
    }

    /// Everything but the collections is as it was in `before`.
    pub open spec fn same_frame(&self, before: &VectorDB) -> bool {
        &&& self.storage_controller == before.storage_controller
        &&& self.shard_coordinator == before.shard_coordinator
        &&& self.multi_shard_client == before.multi_shard_client
        &&& self.is_sharded == before.is_sharded
        &&& self.state == before.state
    }

    /// A local engine with no collections, stored under the `path` section of the
    /// configuration.
    pub fn new(config_loader: ConfigLoader) -> (db: VectorDB)
        requires
            config_loader.wf(),
        ensures
            db.wf(),
            db.collections() == Seq::<Collection>::empty(),
            !db.is_sharded,
            db.shard_coordinator is None,
            db.multi_shard_client is None,
            db.state == ServerState::Starting,
            db.storage_controller.configs() == section(config_loader.flat(), "path"@),
    {
        VectorDB {
            storage_controller: StorageController::new(config_loader.get("path")),
            collection_controller: CollectionController::new(),
            shard_coordinator: None,
            multi_shard_client: None,
            is_sharded: false,
            state: ServerState::Starting,
        }
    }

    /// The engine of a node by its configured role: a coordinator over the shards
    /// given, or a shard node. A coordinator without readable shard configurations is
    /// refused with the error given for them, and one whose routing strategy is no
    /// known name as an invalid argument.
    pub fn new_from_config(config_loader: ConfigLoader, shard_configs: Result<Vec<ShardConfig>, DbError>) -> (r:
        Result<VectorDB, DbError>)
        requires
            config_loader.wf(),
        ensures
            match r {
                Ok(db) => {
                    &&& db.wf()
                    &&& db.collections() == Seq::<Collection>::empty()
                    &&& db.state == ServerState::Starting
                    &&& db.is_sharded == (crate::config::role_of(config_loader.flat()) == "coordinator"@)
                    &&& db.is_sharded ==> shard_configs is Ok && db.shard_coordinator is Some
                        && db.multi_shard_client is Some && clients_built(
                        db.multi_shard_client->Some_0,
                        shard_configs->Ok_0@,
                        shard_configs->Ok_0@.len() as int,
                    ) && crate::config::routing_of(config_loader.flat()) == Ok::<RoutingStrategy, DbError>(
                        db.shard_coordinator->Some_0.shard_manager.strategy(),
                    ) && db.shard_coordinator->Some_0.shard_manager.shards() == crate::sharding::registered(
                        Seq::new(shard_configs->Ok_0@.len(), |i: int| shard_configs->Ok_0@[i]@),
                        shard_configs->Ok_0@.len(),
                    )
                    &&& !db.is_sharded ==> db.shard_coordinator is None && db.multi_shard_client is None
                    &&& db.storage_controller.configs() == section(config_loader.flat(), "storage"@)
                },
                Err(e) => {
                    &&& crate::config::role_of(config_loader.flat()) == "coordinator"@
                    &&& shard_configs is Err ==> shard_configs == Err::<Vec<ShardConfig>, DbError>(e)
                    &&& shard_configs is Ok ==> crate::config::routing_of(config_loader.flat()) == Err::<
                        RoutingStrategy,
                        DbError,
                    >(e)
                },
            },
    {
        let storage_controller = StorageController::new(config_loader.get("storage"));
        let collection_controller = CollectionController::new();
        if config_loader.is_coordinator() {
            let configs = match shard_configs {
                Ok(c) => c,
                Err(e) => {
                    return Err(e);
                },
            };
            let routing_strategy = match config_loader.get_routing_strategy() {
                Ok(s) => s,
                Err(e) => {
                    return Err(e);
                },
            };
            Ok(VectorDB::new_coordinator(storage_controller, collection_controller, configs, routing_strategy))
        } else {
            Ok(VectorDB::new_shard_node(storage_controller, collection_controller))
        }
    }

    /// A coordinator's engine: a manager over the shards and one client per shard.
    pub fn new_coordinator(
        storage_controller: StorageController,
        collection_controller: CollectionController,
        shard_configs: Vec<ShardConfig>,
        routing_strategy: RoutingStrategy,
    ) -> (db: VectorDB)
        requires
            storage_controller.wf(),
            collection_controller.wf(),
        ensures
            db.wf(),
            db.is_sharded,
            db.state == ServerState::Starting,
            db.storage_controller == storage_controller,
            db.collection_controller == collection_controller,
            db.shard_coordinator is Some,
            db.shard_coordinator->Some_0.shard_manager.strategy() == routing_strategy,
            db.shard_coordinator->Some_0.shard_manager.shards() == crate::sharding::registered(
                Seq::new(shard_configs@.len(), |i: int| shard_configs@[i]@),
                shard_configs@.len(),
            ),
            db.multi_shard_client is Some,
            forall|i: int|
                0 <= i < shard_configs@.len() ==> db.multi_shard_client->Some_0.has_client(
                    (#[trigger] shard_configs@[i]).id@,
                ),
            clients_built(db.multi_shard_client->Some_0, shard_configs@, shard_configs@.len() as int),
    {
        let mut multi_shard_client = MultiShardClient::new();
        let mut i: usize = 0;
        while i < shard_configs.len()
            invariant
                0 <= i <= shard_configs@.len(),
                multi_shard_client.wf(),
                forall|j: int|
                    0 <= j < i ==> multi_shard_client.has_client((#[trigger] shard_configs@[j]).id@),
                clients_built(multi_shard_client, shard_configs@, i as int),
            decreases shard_configs.len() - i,
        {
            let config = &shard_configs[i];
            let client = ShardClient::new(shard_base_url(config));
            let ghost before = multi_shard_client;
            multi_shard_client.add_shard_client(config.id.clone(), client);
            proof {
                let cs = shard_configs@;
                assert forall|j: int| 0 <= j < i + 1 implies multi_shard_client.has_client(
                    (#[trigger] cs[j]).id@,
                ) by {
                    if j < i {
                        assert(before.has_client(cs[j].id@));
                    }
                }
                assert forall|j: int| 0 <= j < i + 1 && is_latest(cs, j, i + 1) implies #[trigger] client_built(
                    multi_shard_client,
                    cs,
                    j,
                ) by {
                    if j < i {
                        assert(cs[i as int].id@ != cs[j].id@);
                        assert(is_latest(cs, j, i as int));
                        assert(client_built(before, cs, j));
                        assert(multi_shard_client.client_of(cs[j].id@) == before.client_of(cs[j].id@));
                    }
                }
            }
            i += 1;
        }
        let shard_manager = ShardManager::new(shard_configs, routing_strategy);
        VectorDB {
            storage_controller,
            collection_controller,
            shard_coordinator: Some(ShardCoordinator::new(shard_manager)),
            multi_shard_client: Some(multi_shard_client),
            is_sharded: true,
            state: ServerState::Starting,
        }
    }

    /// A shard node's engine: local data only.
    pub fn new_shard_node(storage_controller: StorageController, collection_controller: CollectionController) -> (db:
        VectorDB)
        requires
            storage_controller.wf(),
            collection_controller.wf(),
        ensures
            db.wf(),
            !db.is_sharded,
            db.state == ServerState::Starting,
            db.storage_controller == storage_controller,
            db.collection_controller == collection_controller,
            db.shard_coordinator is None,
            db.multi_shard_client is None,
    {
        VectorDB {
            storage_controller,
            collection_controller,
            shard_coordinator: None,
            multi_shard_client: None,
            is_sharded: false,
            state: ServerState::Starting,
        }
    }

    /// Whether the engine coordinates shards.
    pub fn is_sharded(&self) -> (b: bool)
        ensures
            b == self.is_sharded,
    {
        self.is_sharded
    }

    /// Whether requests are served: between start and stop.
    pub fn accepts_requests(&self) -> (b: bool)
        ensures
            b == (self.state == ServerState::Serving),
    {
        match self.state {
            ServerState::Serving => true,
            _ => false,
        }
    }

    /// Moves the server on by one event.
    pub fn advance(&mut self, event: ServerEvent)
        ensures
            final(self).state == next_state(old(self).state, event),
            final(self).storage_controller == old(self).storage_controller,
            final(self).collection_controller == old(self).collection_controller,
            final(self).shard_coordinator == old(self).shard_coordinator,
            final(self).multi_shard_client == old(self).multi_shard_client,
            final(self).is_sharded == old(self).is_sharded,
    {
        self.state = advance_state(self.state, event);
    }

    /// The layout of the node's files.
    pub fn storage_controller(&self) -> (s: &StorageController)
        ensures
            *s == self.storage_controller,
    {
        &self.storage_controller
    }

    /// Creates an empty collection on this node.
    pub fn add_collection(&mut self, name: String, lsh_metric: LSHMetric, vector_dimension: usize) -> (r:
        Result<(), DbError>)
        requires
            old(self).wf(),
        ensures
            final(self).wf(),
            final(self).same_frame(old(self)),
            r == create_outcome(old(self).collections(), name@, vector_dimension),
            r is Err ==> final(self).collections() == old(self).collections(),
            r is Ok ==> {
                &&& final(self).collections().len() == old(self).collections().len() + 1
                &&& final(self).collections().drop_last() == old(self).collections()
                &&& final(self).collections().last().name@ == name@
                &&& final(self).collections().last().lsh_metric == lsh_metric
                &&& final(self).collections().last().vector_dimension == vector_dimension
                &&& final(self).collections().last().id == crate::collection::collection_id(name@)
                &&& final(self).collections().last().default_hasher()
                &&& final(self).collections().last().buckets() == Seq::<crate::objects::BucketView>::empty()
            },
    {
        self.collection_controller.add_collection(name, lsh_metric, vector_dimension)
    }

    /// Deletes a collection of this node with everything in it.
    pub fn delete_collection(&mut self, name: String) -> (r: Result<(), DbError>)
        requires
            old(self).wf(),
        ensures
            final(self).wf(),
            final(self).same_frame(old(self)),
            has_name(old(self).collections(), name@) ==> r == Ok::<(), DbError>(()) && final(self).collections() == old(self).collections().remove(name_index(old(self).collections(), name@)),
            !has_name(old(self).collections(), name@) ==> r == Err::<(), DbError>(DbError::NotFound)
                && final(self).collections() == old(self).collections(),
    {
        self.collection_controller.delete_collection(name)
    }

    /// The collection named `name`.
    pub fn get_collection(&self, name: &str) -> (r: Option<&Collection>)
        requires
            self.wf(),
        ensures
            match r {
                Some(c) => has_name(self.collections(), name@) && c.wf() && *c == self.collections()[name_index(
                    self.collections(),
                    name@,
                )],
                None => !has_name(self.collections(), name@),
            },
    {
        self.collection_controller.get_collection(name)
    }

    /// All collections of this node, in order of creation.
    pub fn get_all_collections(&self) -> (all: Vec<&Collection>)
        ensures
            all@.len() == self.collections().len(),
            forall|i: int| 0 <= i < all@.len() ==> *(#[trigger] all@[i]) == self.collections()[i],
    {
        self.collection_controller.get_all_collections()
    }

    /// Inserts a vector, stamped with the current time.
    pub fn add_vector(&mut self, collection_name: &str, embedding: Embedding, metadata: Metadata) -> (r:
        Result<u64, DbError>)
        requires
            old(self).wf(),
            metadata.wf(),
        ensures
            final(self).wf(),
            final(self).same_frame(old(self)),
            r is Err ==> final(self).collections() == old(self).collections(),
            !has_name(old(self).collections(), collection_name@) ==> r == Err::<u64, DbError>(
                DbError::NotFound,
            ) && final(self).collections() == old(self).collections(),
            has_name(old(self).collections(), collection_name@) ==> {
                let i = name_index(old(self).collections(), collection_name@);
                &&& final(self).collection_controller.same_but_index(&old(self).collection_controller, i)
                &&& exists|now: i64|
                    add_post(
                        old(self).collections()[i].buckets_controller,
                        final(self).collections()[i].buckets_controller,
                        embedding,
                        metadata.pairs(),
                        now,
                        r,
                    )
                &&& embedding.data@.len() != old(self).collections()[i].vector_dimension ==> r == Err::<
                    u64,
                    DbError,
                >(DbError::DimensionMismatch)
            },
    {
        self.collection_controller.add_vector(collection_name, embedding, metadata)
    }

    /// The vector `vector_id` of a collection.
    pub fn get_vector(&self, collection_name: &str, vector_id: u64) -> (r: Result<&Vector, DbError>)
        requires
            self.wf(),
        ensures
            match r {
                Ok(v) => has_name(self.collections(), collection_name@) && index_holds(
                    self.collections()[name_index(self.collections(), collection_name@)].buckets(),
                    vector_id,
                ) && v.wf() && v@ == vector_of(
                    self.collections()[name_index(self.collections(), collection_name@)].buckets(),
                    vector_id,
                ),
                Err(e) => e == DbError::NotFound && (!has_name(self.collections(), collection_name@)
                    || !index_holds(
                    self.collections()[name_index(self.collections(), collection_name@)].buckets(),
                    vector_id,
                )),
            },
    {
        self.collection_controller.get_vector(collection_name, vector_id)
    }

    /// Replaces the components and/or the metadata of a vector.
    pub fn update_vector(
        &mut self,
        collection_name: &str,
        vector_id: u64,
        new_embedding: Option<Embedding>,
        new_metadata: Option<Metadata>,
    ) -> (r: Result<(), DbError>)
        requires
            old(self).wf(),
            new_metadata matches Some(m) ==> m.wf(),
        ensures
            final(self).wf(),
            final(self).same_frame(old(self)),
            r is Err ==> final(self).collections() == old(self).collections(),
            !has_name(old(self).collections(), collection_name@) ==> r == Err::<(), DbError>(
                DbError::NotFound,
            ) && final(self).collections() == old(self).collections(),
            has_name(old(self).collections(), collection_name@) ==> {
                let i = name_index(old(self).collections(), collection_name@);
                &&& final(self).collection_controller.same_but_index(&old(self).collection_controller, i)
                &&& exists|now: i64|
                    update_post(
                        old(self).collections()[i].buckets_controller,
                        final(self).collections()[i].buckets_controller,
                        vector_id,
                        new_embedding,
                        opt_pairs(new_metadata),
                        now,
                        r,
                    )
            },
    {
        self.collection_controller.update_vector(collection_name, vector_id, new_embedding, new_metadata)
    }

    /// Deletes a vector.
    pub fn delete_vector(&mut self, collection_name: &str, vector_id: u64) -> (r: Result<(), DbError>)
        requires
            old(self).wf(),
        ensures
            final(self).wf(),
            final(self).same_frame(old(self)),
            r is Err ==> final(self).collections() == old(self).collections(),
            !has_name(old(self).collections(), collection_name@) ==> r == Err::<(), DbError>(
                DbError::NotFound,
            ) && final(self).collections() == old(self).collections(),
            has_name(old(self).collections(), collection_name@) ==> {
                let i = name_index(old(self).collections(), collection_name@);
                &&& final(self).collection_controller.same_but_index(&old(self).collection_controller, i)
                &&& exists|now: i64|
                    remove_post(
                        old(self).collections()[i].buckets_controller,
                        final(self).collections()[i].buckets_controller,
                        vector_id,
                        now,
                        r,
                    )
            },
    {
        self.collection_controller.delete_vector(collection_name, vector_id)
    }

    /// Writes out every collection of this node. What is written of a well-formed
    /// node restores its collections when it is loaded into an empty one.
    pub fn dump(&self) -> (out: Vec<CollectionDump>)
        ensures
            out@.len() == self.collections().len(),
            forall|i: int|
                0 <= i < out@.len() ==> {
                    &&& (#[trigger] out@[i]).name@ == self.collections()[i].name@
                    &&& out@[i].hash_id == self.collections()[i].id
                    &&& out@[i].header@ == crate::storage::collection_header(self.collections()[i])
                    &&& out@[i].bucket_views() == crate::storage::index_dump(
                        self.collections()[i].buckets(),
                    )
                },
            self.wf() ==> crate::laws::restores(self.collections(), out@),
    {
        self.collection_controller.dump()
    }

    /// Reads collections back and says how many were added.
    pub fn load(&mut self, dumps: &Vec<CollectionDump>) -> (count: usize)
        requires
            old(self).wf(),
        ensures
            final(self).wf(),
            final(self).same_frame(old(self)),
            crate::registry::load_relation(old(self).collections(), dumps@, final(self).collections()),
            final(self).collections().len() == old(self).collections().len() + count,
            count <= dumps@.len(),
            final(self).collections().take(old(self).collections().len() as int) == old(self).collections(),
    {
        self.collection_controller.load(dumps)
    }

    /// The identifiers of the vectors of a collection whose metadata holds every entry
    /// of `filters`.
    pub fn filter_by_metadata(&self, collection_name: &str, filters: &Metadata) -> (r: Result<
        Vec<u64>,
        DbError,
    >)
        requires
            self.wf(),
            filters.wf(),
        ensures
            match r {
                Ok(ids) => has_name(self.collections(), collection_name@) && ids@ == filter_ids(
                    self.collections()[name_index(self.collections(), collection_name@)].buckets(),
                    filters@,
                ),
                Err(e) => e == DbError::NotFound && !has_name(self.collections(), collection_name@),
            },
    {
        self.collection_controller.filter_by_metadata(collection_name, filters)
    }

    /// Says which buckets a search has to score.
    pub fn search_plan(&self, collection_name: &str, query: &Embedding, k: usize) -> (r: Result<
        SearchPlan,
        DbError,
    >)
        requires
            self.wf(),
        ensures
            !has_name(self.collections(), collection_name@) ==> r == Err::<SearchPlan, DbError>(
                DbError::NotFound,
            ),
            has_name(self.collections(), collection_name@) ==> r == plan_outcome(
                self.collections()[name_index(self.collections(), collection_name@)].buckets_controller.lsh,
                self.collections()[name_index(
                    self.collections(),
                    collection_name@,
                )].buckets_controller.dimension,
                self.collections()[name_index(self.collections(), collection_name@)].buckets(),
                *query,
                k as int,
            ),
    {
        self.collection_controller.search_plan(collection_name, query, k)
    }

    /// Searches a collection of this node for the best `k` vectors by the scores given.
    pub fn find_similar(&self, collection_name: &str, query: &Embedding, scores: &Vec<Vec<u32>>, k: usize) -> (r:
        Result<Vec<Hit>, DbError>)
        requires
            self.wf(),
        ensures
            !has_name(self.collections(), collection_name@) ==> r == Err::<Vec<Hit>, DbError>(
                DbError::NotFound,
            ),
            has_name(self.collections(), collection_name@) ==> hits_view(r) == search_outcome(
                self.collections()[name_index(self.collections(), collection_name@)].buckets_controller.lsh,
                self.collections()[name_index(
                    self.collections(),
                    collection_name@,
                )].buckets_controller.dimension,
                self.collections()[name_index(self.collections(), collection_name@)].buckets(),
                *query,
                score_rows(scores),
                k as int,
            ),
            r matches Ok(hits) ==> crate::search::results_wf(
                self.collections()[name_index(self.collections(), collection_name@)].buckets(),
                hits@,
                k as int,
            ),
    {
        self.collection_controller.find_similar(collection_name, query, scores, k)
    }

    /// What is known of every shard. An engine that does not coordinate shards has no
    /// such statistics.
    pub fn get_shard_statistics(&self) -> (r: Result<Vec<crate::sharding::ShardStatistics>, DbError>)
        ensures
            match r {
                Ok(stats) => self.is_sharded && self.shard_coordinator is Some && stats@.len()
                    == self.shard_coordinator->Some_0.shard_manager.shards().len() && forall|i: int|
                    0 <= i < stats@.len() ==> (#[trigger] stats@[i])@
                        == self.shard_coordinator->Some_0.shard_manager.shards()[i],
                Err(e) => e == DbError::InvalidArgument && !(self.is_sharded && self.shard_coordinator
                    is Some),
            },
    {
        if !self.is_sharded {
            return Err(DbError::InvalidArgument);
        }
        match &self.shard_coordinator {
            Some(coordinator) => Ok(coordinator.get_cluster_statistics()),
            None => Err(DbError::InvalidArgument),
        }
    }

    /// The result of a search across shards, from the answers of all shards: the result
    /// lists of the shards that report success, merged. An engine that does not
    /// coordinate shards has no such search.
    pub fn find_similar_across_shards(&self, responses: &Vec<crate::shard_client::ShardResponse>, k: usize) -> (r:
        Result<Vec<Hit>, DbError>)
        ensures
            match r {
                Ok(hits) => self.is_sharded && self.shard_coordinator is Some && hits@
                    == crate::search::ranked(
                    crate::coordinator::concat_hits(crate::coordinator::result_lists(responses@)),
                    k as int,
                ) && crate::search::is_sorted_prefix(
                    crate::coordinator::concat_hits(crate::coordinator::result_lists(responses@)),
                    hits@,
                    k as int,
                ),
                Err(e) => e == DbError::InvalidArgument && !(self.is_sharded && self.shard_coordinator
                    is Some),
            },
    {
        if !self.is_sharded {
            return Err(DbError::InvalidArgument);
        }
        match &self.shard_coordinator {
            Some(coordinator) => Ok(coordinator.find_similar_across_shards(responses, k)),
            None => Err(DbError::InvalidArgument),
        }
    }
}

} // verus!
