//! Requests to shards and their answers, and the clients of the shards.

use vstd::prelude::*;
use crate::lsh::LSHMetric;
use crate::metadata::Metadata;
use crate::search::Hit;
use crate::text::str_eq;

verus! {

/// The per-call deadline of a shard client, in seconds.
pub const CALL_TIMEOUT_SECS: u64 = 30;

/// The deadline of a health check, in seconds.
pub const HEALTH_TIMEOUT_SECS: u64 = 5;

/// A request to a shard: an operation name and the fields that the operation reads.
/// Vector components are bit patterns.
pub struct ShardRequest {
    pub operation: String,
    pub collection: Option<String>,
    pub vector_id: Option<u64>,
    pub embedding: Option<Vec<u32>>,
    pub metadata: Option<Metadata>,
    pub query: Option<Vec<u32>>,
    pub k: Option<usize>,
    pub filters: Option<Metadata>,
}

/// A collection as a shard describes it.
pub struct CollectionInfo {
    pub name: String,
    pub metric: LSHMetric,
    pub dimension: usize,
    pub total_vectors: usize,
    pub total_buckets: usize,
}

/// A vector as a shard sends it.
pub struct VectorPayload {
    pub id: u64,
    pub embedding: Vec<u32>,
    pub metadata: Metadata,
}

/// What a shard's answer carries, by operation.
pub enum ResponseData {
    Created,
    Deleted,
    Updated,
    Dumped,
    Loaded,
    Stopping,
    Healthy,
    VectorId(u64),
    Collection(CollectionInfo),
    Collections(Vec<CollectionInfo>),
    Vector(VectorPayload),
    VectorIds(Vec<u64>),
    Results(Vec<Hit>),
    Statistics(Vec<CollectionInfo>),
}

/// A shard's answer.
pub struct ShardResponse {
    pub success: bool,
    pub data: Option<ResponseData>,
    pub error: Option<String>,
    pub shard_id: String,
}

/// The answers of a fan-out with the counts of calls that got an answer and of calls
/// that got none.
pub struct MultiShardResult {
    pub results: Vec<ShardResponse>,
    pub successful_operations: usize,
    pub failed_operations: usize,
}

/// The operation names that a shard recognizes.
pub open spec fn is_operation(name: Seq<char>) -> bool {
    ||| name == "create_collection"@
    ||| name == "get_collection"@
    ||| name == "delete_collection"@
    ||| name == "get_all_collections"@
    ||| name == "add_vector"@
    ||| name == "get_vector"@
    ||| name == "update_vector"@
    ||| name == "delete_vector"@
    ||| name == "filter_by_metadata"@
    ||| name == "find_similar"@
    ||| name == "get_statistics"@
    ||| name == "dump"@
    ||| name == "load"@
    ||| name == "stop"@
}

/// A request with no fields set.
pub open spec fn bare_request(r: ShardRequest, operation: Seq<char>) -> bool {
    &&& r.operation@ == operation
    &&& r.collection is None
    &&& r.vector_id is None
    &&& r.embedding is None
    &&& r.metadata is None
    &&& r.query is None
    &&& r.k is None
    &&& r.filters is None
}

/// Where one shard is reached and how long a call may take. The transport lives
/// outside; this is what it is told.
pub struct ShardClient {
    pub base_url: String,
    pub timeout_secs: u64,
}

impl ShardClient {
    /// A client for the shard at `base_url`, with the default deadline.
    pub fn new(base_url: String) -> (c: ShardClient)
        ensures
            c.base_url == base_url,
            c.timeout_secs == CALL_TIMEOUT_SECS,
    {
        ShardClient { base_url, timeout_secs: CALL_TIMEOUT_SECS }
    }

    /// The address that requests are posted to.
    pub fn request_url(&self) -> (url: String)
        ensures
            url@ == self.base_url@ + "/shard"@,
    {
        self.base_url.clone().concat("/shard")
    }

    /// The address that health checks are sent to.
    pub fn health_url(&self) -> (url: String)
        ensures
            url@ == self.base_url@ + "/health"@,
    {
        self.base_url.clone().concat("/health")
    }

    fn bare(operation: &str) -> (r: ShardRequest)
        ensures
            bare_request(r, operation@),
    {
        ShardRequest {
            operation: operation.to_owned(),
            collection: None,
            vector_id: None,
            embedding: None,
            metadata: None,
            query: None,
            k: None,
            filters: None,
        }
    }

    /// The request that creates a collection: metric and dimension travel as metadata
    /// entries `metric` and `dimension`, the dimension in decimal.
    pub fn create_collection(&self, name: String, metric: LSHMetric, dimension: usize) -> (r:
        ShardRequest)
        ensures
            r.operation@ == "create_collection"@,
            r.collection == Some(name),
            r.metadata is Some,
            r.metadata->Some_0.wf(),
            r.metadata->Some_0@ == Map::<Seq<char>, Seq<char>>::empty().insert(
                "metric"@,
                metric.name(),
            ).insert("dimension"@, crate::paths::decimal(dimension as nat)),
            r.vector_id is None && r.embedding is None && r.query is None && r.k is None
                && r.filters is None,
    {
        let mut metadata = Metadata::new();
        metadata.insert("metric".to_owned(), metric.to_string());
        metadata.insert("dimension".to_owned(), crate::paths::decimal_string(dimension as u64));
        let mut r = ShardClient::bare("create_collection");
        r.collection = Some(name);
        r.metadata = Some(metadata);
        r
    }

    /// The request that deletes a collection.
    pub fn delete_collection(&self, name: String) -> (r: ShardRequest)
        ensures
            r.operation@ == "delete_collection"@,
            r.collection == Some(name),
            r.vector_id is None && r.embedding is None && r.metadata is None && r.query is None
                && r.k is None && r.filters is None,
    {
        let mut r = ShardClient::bare("delete_collection");
        r.collection = Some(name);
        r
    }

    /// The request that inserts a vector.
    pub fn add_vector(&self, collection: String, embedding: Vec<u32>, metadata: Metadata) -> (r:
        ShardRequest)
        ensures
            r.operation@ == "add_vector"@,
            r.collection == Some(collection),
            r.embedding == Some(embedding),
            r.metadata == Some(metadata),
            r.vector_id is None && r.query is None && r.k is None && r.filters is None,
    {
        let mut r = ShardClient::bare("add_vector");
        r.collection = Some(collection);
        r.embedding = Some(embedding);
        r.metadata = Some(metadata);
        r
    }

    /// The request that updates a vector.
    pub fn update_vector(
        &self,
        collection: String,
        vector_id: u64,
        embedding: Option<Vec<u32>>,
        metadata: Option<Metadata>,
    ) -> (r: ShardRequest)
        ensures
            r.operation@ == "update_vector"@,
            r.collection == Some(collection),
            r.vector_id == Some(vector_id),
            r.embedding == embedding,
            r.metadata == metadata,
            r.query is None && r.k is None && r.filters is None,
    {
        let mut r = ShardClient::bare("update_vector");
        r.collection = Some(collection);
        r.vector_id = Some(vector_id);
        r.embedding = embedding;
        r.metadata = metadata;
        r
    }

    /// The request that deletes a vector.
    pub fn delete_vector(&self, collection: String, vector_id: u64) -> (r: ShardRequest)
        ensures
            r.operation@ == "delete_vector"@,
            r.collection == Some(collection),
            r.vector_id == Some(vector_id),
            r.embedding is None && r.metadata is None && r.query is None && r.k is None
                && r.filters is None,
    {
        let mut r = ShardClient::bare("delete_vector");
        r.collection = Some(collection);
        r.vector_id = Some(vector_id);
        r
    }

    /// The request that fetches a vector.
    pub fn get_vector(&self, collection: String, vector_id: u64) -> (r: ShardRequest)
        ensures
            r.operation@ == "get_vector"@,
            r.collection == Some(collection),
            r.vector_id == Some(vector_id),
            r.embedding is None && r.metadata is None && r.query is None && r.k is None
                && r.filters is None,
    {
        let mut r = ShardClient::bare("get_vector");
        r.collection = Some(collection);
        r.vector_id = Some(vector_id);
        r
    }

    /// The request that searches for the `k` vectors most similar to `query`.
    pub fn find_similar(&self, collection: String, query: Vec<u32>, k: usize) -> (r: ShardRequest)
        ensures
            r.operation@ == "find_similar"@,
            r.collection == Some(collection),
            r.query == Some(query),
            r.k == Some(k),
            r.vector_id is None && r.embedding is None && r.metadata is None && r.filters is None,
    {
        let mut r = ShardClient::bare("find_similar");
        r.collection = Some(collection);
        r.query = Some(query);
        r.k = Some(k);
        r
    }

    /// The request that filters a collection by metadata.
    pub fn filter_by_metadata(&self, collection: String, filters: Metadata) -> (r: ShardRequest)
        ensures
            r.operation@ == "filter_by_metadata"@,
            r.collection == Some(collection),
            r.filters == Some(filters),
            r.vector_id is None && r.embedding is None && r.metadata is None && r.query is None
                && r.k is None,
    {
        let mut r = ShardClient::bare("filter_by_metadata");
        r.collection = Some(collection);
        r.filters = Some(filters);
        r
    }

    /// The request for a shard's statistics.
    pub fn get_statistics(&self) -> (r: ShardRequest)
        ensures
            bare_request(r, "get_statistics"@),
    {
        ShardClient::bare("get_statistics")
    }

    /// The request that stops a shard.
    pub fn stop_shard(&self) -> (r: ShardRequest)
        ensures
            bare_request(r, "stop"@),
    {
        ShardClient::bare("stop")
    }

    /// The request that makes a shard write its collections out.
    pub fn dump(&self) -> (r: ShardRequest)
        ensures
            bare_request(r, "dump"@),
    {
        ShardClient::bare("dump")
    }

    /// The request that makes a shard read its collections back.
    pub fn load(&self) -> (r: ShardRequest)
        ensures
            bare_request(r, "load"@),
    {
        ShardClient::bare("load")
    }

    /// The request for one collection's description.
    pub fn get_collection(&self, name: String) -> (r: ShardRequest)
        ensures
            r.operation@ == "get_collection"@,
            r.collection == Some(name),
            r.vector_id is None && r.embedding is None && r.metadata is None && r.query is None
                && r.k is None && r.filters is None,
    {
        let mut r = ShardClient::bare("get_collection");
        r.collection = Some(name);
        r
    }

    /// The request for the descriptions of all collections.
    pub fn get_all_collections(&self) -> (r: ShardRequest)
        ensures
            bare_request(r, "get_all_collections"@),
    {
        ShardClient::bare("get_all_collections")
    }
}

/// No text occurs twice in `names`.
pub open spec fn names_differ(names: Seq<Seq<char>>) -> bool {
    forall|i: int, j: int| 0 <= i < names.len() && 0 <= j < names.len() && i != j ==> names[i] != names[j]
}

/// In a list without repeats, a text is found at its own position.
pub proof fn lemma_index_unique(names: Seq<Seq<char>>, i: int)
    requires
        names_differ(names),
        0 <= i < names.len(),
    ensures
        names.index_of(names[i]) == i,
{
    let w = names.index_of(names[i]);
    assert(names.contains(names[i]));
    assert(names[w] == names[i]);
}

/// The clients of all shards, by shard identifier, in the order they were added.
pub struct MultiShardClient {
    ids: Vec<String>,
    clients: Vec<ShardClient>,
}

impl MultiShardClient {
    /// The shard identifiers, in the order they were added.
    pub closed spec fn ids(&self) -> Seq<Seq<char>> {
        Seq::new(self.ids@.len(), |i: int| self.ids@[i]@)
    }

    /// The clients, each at the position of its shard's identifier.
    pub closed spec fn clients(&self) -> Seq<ShardClient> {
        self.clients@
    }

    /// One client per identifier, and no identifier twice.
    pub closed spec fn wf(&self) -> bool {
        &&& self.ids@.len() == self.clients@.len()
        &&& forall|i: int, j: int|
            0 <= i < self.ids@.len() && 0 <= j < self.ids@.len() && i != j ==> (#[trigger] self.ids@[i])@
                != (#[trigger] self.ids@[j])@
    }

    /// The identifier `id` has a client.
    pub open spec fn has_client(&self, id: Seq<char>) -> bool {
        self.ids().contains(id)
    }

    /// The client of the shard `id`.
    pub open spec fn client_of(&self, id: Seq<char>) -> ShardClient {
        self.clients()[self.ids().index_of(id)]
    }

    /// No clients.
    pub fn new() -> (m: MultiShardClient)
        ensures
            m.wf(),
            m.ids() == Seq::<Seq<char>>::empty(),
            m.clients() == Seq::<ShardClient>::empty(),
    {
        let m = MultiShardClient { ids: Vec::new(), clients: Vec::new() };
        assert(m.ids() =~= Seq::<Seq<char>>::empty());
        m
    }

    fn position(&self, shard_id: &str) -> (r: Option<usize>)
        requires
            self.wf(),
        ensures
            match r {
                Some(i) => i < self.ids().len() && self.ids()[i as int] == shard_id@ && self.has_client(
                    shard_id@,
                ),
                None => !self.has_client(shard_id@),
            },
    {
        let mut i: usize = 0;
        while i < self.ids.len()
            invariant
                0 <= i <= self.ids@.len(),
                forall|j: int| 0 <= j < i ==> (#[trigger] self.ids()[j]) != shard_id@,
            decreases self.ids.len() - i,
        {
            if str_eq(self.ids[i].as_str(), shard_id) {
                assert(self.ids()[i as int] == shard_id@);
                return Some(i);
            }
            i += 1;
        }
        None
    }

    /// Sets the client of the shard `shard_id`, replacing the one that was there.
    pub fn add_shard_client(&mut self, shard_id: String, client: ShardClient)
        requires
            old(self).wf(),
        ensures
            final(self).wf(),
            final(self).has_client(shard_id@),
            forall|id: Seq<char>| final(self).has_client(id) <==> (id == shard_id@ || old(self).has_client(id)),
            old(self).has_client(shard_id@) ==> final(self).ids() == old(self).ids() && final(self).clients() == old(self).clients().update(old(self).ids().index_of(shard_id@), client),
            !old(self).has_client(shard_id@) ==> final(self).ids() == old(self).ids().push(shard_id@)
                && final(self).clients() == old(self).clients().push(client),
            final(self).client_of(shard_id@) == client,
            forall|id: Seq<char>|
                id != shard_id@ && old(self).has_client(id) ==> #[trigger] final(self).client_of(id) == old(self).client_of(id),
    {
        let ghost before = self.ids();
        match self.position(shard_id.as_str()) {
            Some(i) => {
                self.clients.set(i, client);
                proof {
                    assert(self.ids() =~= before);
                    let w = before.index_of(shard_id@);
                    assert(before[w] == shard_id@);
                    assert(w == i) by {
                        if w != i {
                            assert(self.ids@[w]@ != self.ids@[i as int]@);
                        }
                    }
                }
            },
            None => {
                self.ids.push(shard_id);
                self.clients.push(client);
                proof {
                    assert(self.ids() =~= before.push(shard_id@));
                    assert(self.ids()[before.len() as int] == shard_id@);
                    assert forall|i: int, j: int|
                        0 <= i < self.ids@.len() && 0 <= j < self.ids@.len() && i != j implies (
                    #[trigger] self.ids@[i])@ != (#[trigger] self.ids@[j])@ by {
                        if i < before.len() && j < before.len() {
                            assert(old(self).ids@[i]@ != old(self).ids@[j]@);
                        } else if i < before.len() {
                            assert(before[i] != shard_id@);
                        } else {
                            assert(before[j] != shard_id@);
                        }
                    }
                }
            },
        }
        proof {
            assert(names_differ(self.ids())) by {
                assert forall|i: int, j: int|
                    0 <= i < self.ids().len() && 0 <= j < self.ids().len() && i != j implies self.ids()[i]
                    != self.ids()[j] by {
                    assert(self.ids@[i]@ != self.ids@[j]@);
                }
            }
            assert(self.ids().contains(shard_id@)) by {
                if old(self).has_client(shard_id@) {
                    let w = before.index_of(shard_id@);
                    assert(self.ids()[w] == shard_id@);
                } else {
                    assert(self.ids()[before.len() as int] == shard_id@);
                }
            }
            let pos = self.ids().index_of(shard_id@);
            assert(self.ids()[pos] == shard_id@);
            if old(self).has_client(shard_id@) {
                let w = before.index_of(shard_id@);
                assert(before[w] == shard_id@);
                lemma_index_unique(self.ids(), w);
            } else {
                lemma_index_unique(self.ids(), before.len() as int);
            }
            assert forall|id: Seq<char>| id != shard_id@ && old(self).has_client(id) implies #[trigger] self.client_of(
                id,
            ) == old(self).client_of(id) by {
                let w = before.index_of(id);
                assert(before[w] == id);
                assert(self.ids()[w] == id);
                lemma_index_unique(self.ids(), w);
            }
            assert forall|id: Seq<char>| self.has_client(id) <==> (id == shard_id@ || old(self).has_client(id)) by {
                let after = self.ids();
                if after.contains(id) {
                    let t = choose|t: int| 0 <= t < after.len() && after[t] == id;
                    if t < before.len() {
                        assert(before[t] == id);
                    }
                }
                if before.contains(id) {
                    let t = choose|t: int| 0 <= t < before.len() && before[t] == id;
                    assert(after[t] == id);
                }
            }
        }
    }

    /// The client of the shard `shard_id`.
    pub fn get_client(&self, shard_id: &str) -> (r: Option<&ShardClient>)
        requires
            self.wf(),
        ensures
            match r {
                Some(c) => self.has_client(shard_id@) && *c == self.clients()[self.ids().index_of(
                    shard_id@,
                )],
                None => !self.has_client(shard_id@),
            },
    {
        match self.position(shard_id) {
            Some(i) => {
                proof {
                    let w = self.ids().index_of(shard_id@);
                    assert(self.ids()[w] == shard_id@);
                    if w != i {
                        assert(self.ids@[w]@ != self.ids@[i as int]@);
                    }
                }
                Some(&self.clients[i])
            },
            None => None,
        }
    }

    /// The number of clients.
    pub fn len(&self) -> (n: usize)
        requires
            self.wf(),
        ensures
            n == self.ids().len(),
    {
        self.ids.len()
    }

    /// The `i`-th shard identifier and its client, in the order they were added.
    pub fn client_at(&self, i: usize) -> (r: (&String, &ShardClient))
        requires
            self.wf(),
            i < self.ids().len(),
        ensures
            r.0@ == self.ids()[i as int],
            *r.1 == self.clients()[i as int],
    {
        (&self.ids[i], &self.clients[i])
    }
}

} // verus!
