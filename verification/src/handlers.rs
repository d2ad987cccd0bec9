//! Serving requests: the shard operations, and the user operations on a node that
//! holds its data itself.

use vstd::prelude::*;
use crate::collection::Collection;
use crate::error::DbError;
use crate::lsh::metric_of_name;
use crate::lsh::Embedding;
use crate::lsh::LSHMetric;
use crate::metadata::Metadata;
use crate::openapi::AddCollectionParams;
use crate::openapi::AddVectorParams;
use crate::openapi::DeleteCollectionParams;
use crate::openapi::DeleteVectorParams;
use crate::openapi::FilterByMetadataParams;
use crate::openapi::FindSimilarParams;
use crate::openapi::GetVectorParams;
use crate::openapi::RpcResponse;
use crate::openapi::UpdateVectorParams;
use crate::paths::decimal_value;
use crate::paths::parse_decimal;
use crate::registry::has_name;
use crate::shard_client::is_operation;
use crate::shard_client::CollectionInfo;
use crate::shard_client::ResponseData;
use crate::shard_client::ShardRequest;
use crate::shard_client::ShardResponse;
use crate::shard_client::VectorPayload;
use crate::storage::CollectionDump;
use crate::text::str_eq;
use crate::vector_db::ServerEvent;
use crate::vector_db::ServerState;
use crate::vector_db::VectorDB;

verus! {

/// What the disk has done for a request that writes the collections out or reads
/// them back.
pub enum DiskWork {
    /// The disk was not touched.
    Idle,
    /// A write or a read failed.
    Failed,
    /// Every file of the collections was written.
    Written,
    /// The collections that were read.
    Read(Vec<CollectionDump>),
}

/// What was worked out for a request outside: the cells of the embedding or query,
/// the rows of scores that the search plan asks for, and what the disk has done.
pub struct RequestAux {
    pub cells: Option<Vec<i64>>,
    pub scores: Option<Vec<Vec<u32>>>,
    pub disk: DiskWork,
}

/// The answer carries data exactly when it reports success, and an error text
/// exactly when it does not; it is signed `local`.
pub open spec fn well_formed_response(r: ShardResponse) -> bool {
    &&& r.shard_id@ == "local"@
    &&& r.success <==> r.data is Some
    &&& r.success <==> r.error is None
}

/// The answer is a failure of kind `e`.
pub open spec fn is_failure(r: ShardResponse, e: DbError) -> bool {
    &&& !r.success
    &&& r.data is None
    &&& r.error is Some
    &&& r.error->Some_0@ == e.name()
    &&& r.shard_id@ == "local"@
}

/// The text that refuses an operation that is not known: the kind of failure, then
/// the operation as it was asked for.
pub open spec fn unknown_operation_text(op: Seq<char>) -> Seq<char> {
    DbError::InvalidArgument.name() + ": unknown operation "@ + op
}

/// The answer refuses `op` as an operation that is not known, and names it.
pub open spec fn refuses_operation(r: ShardResponse, op: Seq<char>) -> bool {
    &&& !r.success
    &&& r.data is None
    &&& r.error is Some
    &&& r.error->Some_0@ == unknown_operation_text(op)
    &&& r.shard_id@ == "local"@
}

/// The payload shows the vector: its identifier, components and metadata.
pub open spec fn shows(payload: VectorPayload, v: crate::objects::VectorView) -> bool {
    &&& payload.id == v.id
    &&& payload.embedding@ == v.data
    &&& payload.metadata.pairs() == v.metadata
}

/// A successful answer with `data`.
pub fn ok_response(data: ResponseData) -> (r: ShardResponse)
    ensures
        r.success,
        r.data == Some(data),
        r.error is None,
        r.shard_id@ == "local"@,
        well_formed_response(r),
{
    ShardResponse { success: true, data: Some(data), error: None, shard_id: "local".to_owned() }
}

/// A failed answer of kind `e`.
pub fn error_response(e: DbError) -> (r: ShardResponse)
    ensures
        is_failure(r, e),
        well_formed_response(r),
{
    ShardResponse { success: false, data: None, error: Some(e.to_string()), shard_id: "local".to_owned() }
}

/// The answer to an operation that is not known.
pub fn unknown_operation_response(op: &str) -> (r: ShardResponse)
    ensures
        refuses_operation(r, op@),
        well_formed_response(r),
{
    ShardResponse {
        success: false,
        data: None,
        error: Some(DbError::InvalidArgument.to_string().concat(": unknown operation ").concat(op)),
        shard_id: "local".to_owned(),
    }
}

/// `info` tells the name, metric and dimension of `c` and counts its buckets and
/// vectors; a count of vectors beyond the machine's range is given as the largest
/// number in range.
pub open spec fn describes(info: CollectionInfo, c: Collection) -> bool {
    &&& info.name@ == c.name@
    &&& info.metric == c.lsh_metric
    &&& info.dimension == c.vector_dimension
    &&& info.total_buckets == c.buckets().len()
    &&& info.total_vectors == if crate::index::total_size(c.buckets()) <= usize::MAX {
        crate::index::total_size(c.buckets())
    } else {
        usize::MAX as nat
    }
}

/// What a shard tells about a collection.
pub fn describe(c: &Collection) -> (info: CollectionInfo)
    ensures
        describes(info, *c),
{
    CollectionInfo {
        name: c.name.clone(),
        metric: c.lsh_metric,
        dimension: c.vector_dimension,
        total_vectors: c.buckets_controller.total_vectors(),
        total_buckets: c.buckets_controller.count(),
    }
}

/// What a shard tells about all its collections, in order of creation.
pub fn describe_all(db: &VectorDB) -> (infos: Vec<CollectionInfo>)
    ensures
        describes_all(infos@, *db),
{
    let all = db.get_all_collections();
    let mut infos: Vec<CollectionInfo> = Vec::new();
    let mut i: usize = 0;
    while i < all.len()
        invariant
            0 <= i <= all@.len(),
            all@.len() == db.collections().len(),
            forall|j: int| 0 <= j < all@.len() ==> *(#[trigger] all@[j]) == db.collections()[j],
            infos@.len() == i,
            forall|j: int| 0 <= j < i ==> describes(#[trigger] infos@[j], db.collections()[j]),
        decreases all.len() - i,
    {
        assert(*all@[i as int] == db.collections()[i as int]);
        infos.push(describe(all[i]));
        i += 1;
    }
    infos
}

/// The metric and dimension that a request to create a collection names in its
/// metadata: entry `metric` must name a metric and entry `dimension` must be a decimal
/// number within the machine's range.
pub open spec fn creation_fields(m: Map<Seq<char>, Seq<char>>) -> Option<(LSHMetric, usize)> {
    if m.contains_key("metric"@) && m.contains_key("dimension"@) && metric_of_name(m["metric"@]) is Ok
        && decimal_value(m["dimension"@]) is Some && decimal_value(m["dimension"@])->Some_0
        <= usize::MAX {
        Some((metric_of_name(m["metric"@])->Ok_0, decimal_value(m["dimension"@])->Some_0 as usize))
    } else {
        None
    }
}

/// Reads metric and dimension from the metadata of a request to create a collection.
pub fn read_creation_fields(metadata: &Metadata) -> (r: Option<(LSHMetric, usize)>)
    requires
        metadata.wf(),
    ensures
        r == creation_fields(metadata@),
{
    let metric = match metadata.get("metric") {
        Some(m) => match LSHMetric::from_string(m.as_str()) {
            Ok(metric) => metric,
            Err(_) => {
                return None;
            },
        },
        None => {
            return None;
        },
    };
    let dimension = match metadata.get("dimension") {
        Some(d) => match parse_decimal(d.as_str()) {
            Some(n) => n,
            None => {
                return None;
            },
        },
        None => {
            return None;
        },
    };
    if dimension > usize::MAX as u64 {
        return None;
    }
    Some((metric, dimension as usize))
}

/// The answer reports success with `data`.
pub open spec fn is_success(r: ShardResponse, data: ResponseData) -> bool {
    &&& r.success
    &&& r.data == Some(data)
    &&& r.error is None
    &&& r.shard_id@ == "local"@
}

/// The answer reports what `outcome` is: success with its data, or its failure.
pub open spec fn answers(r: ShardResponse, outcome: Result<ResponseData, DbError>) -> bool {
    match outcome {
        Ok(data) => is_success(r, data),
        Err(e) => is_failure(r, e),
    }
}

/// The engine is as it was.
pub open spec fn unchanged(before: VectorDB, after: VectorDB) -> bool {
    after.same_frame(&before) && after.collections() == before.collections()
}

/// The collection that a request names.
pub open spec fn named(db: VectorDB, request: ShardRequest) -> Collection {
    db.collections()[crate::registry::name_index(db.collections(), request.collection->Some_0@)]
}

/// The request names a collection that is there.
pub open spec fn names_collection(db: VectorDB, request: ShardRequest) -> bool {
    request.collection is Some && has_name(db.collections(), request.collection->Some_0@)
}

/// What serving `create_collection` does.
pub open spec fn create_served(before: VectorDB, after: VectorDB, request: ShardRequest, r: ShardResponse) -> bool {
    if request.collection is Some && request.metadata is Some && creation_fields(
        request.metadata->Some_0@,
    ) is Some {
        let fields = creation_fields(request.metadata->Some_0@)->Some_0;
        match crate::registry::create_outcome(before.collections(), request.collection->Some_0@, fields.1) {
            Ok(_) => {
                &&& is_success(r, ResponseData::Created)
                &&& after.same_frame(&before)
                &&& after.collections().len() == before.collections().len() + 1
                &&& after.collections().drop_last() == before.collections()
                &&& after.collections().last().name@ == request.collection->Some_0@
                &&& after.collections().last().lsh_metric == fields.0
                &&& after.collections().last().vector_dimension == fields.1
                &&& after.collections().last().id == crate::collection::collection_id(request.collection->Some_0@)
                &&& after.collections().last().default_hasher()
                &&& after.collections().last().buckets() == Seq::<crate::objects::BucketView>::empty()
            },
            Err(e) => is_failure(r, e) && unchanged(before, after),
        }
    } else {
        is_failure(r, DbError::InvalidArgument) && unchanged(before, after)
    }
}

/// What serving `get_collection` does.
pub open spec fn get_collection_served(before: VectorDB, after: VectorDB, request: ShardRequest, r: ShardResponse) -> bool {
    &&& unchanged(before, after)
    &&& if request.collection is None {
        is_failure(r, DbError::InvalidArgument)
    } else if !names_collection(before, request) {
        is_failure(r, DbError::NotFound)
    } else {
        r.success && r.error is None && r.shard_id@ == "local"@ && r.data is Some && r.data->Some_0
            is Collection && describes(r.data->Some_0->Collection_0, named(before, request))
    }
}

/// What serving `delete_collection` does.
pub open spec fn delete_collection_served(
    before: VectorDB,
    after: VectorDB,
    request: ShardRequest,
    r: ShardResponse,
) -> bool {
    if request.collection is None {
        is_failure(r, DbError::InvalidArgument) && unchanged(before, after)
    } else if !names_collection(before, request) {
        is_failure(r, DbError::NotFound) && unchanged(before, after)
    } else {
        is_success(r, ResponseData::Deleted) && after.same_frame(&before) && after.collections()
            == before.collections().remove(
            crate::registry::name_index(before.collections(), request.collection->Some_0@),
        )
    }
}

/// The list describes every collection of the engine, in order.
pub open spec fn describes_all(infos: Seq<CollectionInfo>, db: VectorDB) -> bool {
    &&& infos.len() == db.collections().len()
    &&& forall|i: int| 0 <= i < infos.len() ==> describes(#[trigger] infos[i], db.collections()[i])
}

/// What serving `get_all_collections` does.
pub open spec fn list_served(before: VectorDB, after: VectorDB, r: ShardResponse) -> bool {
    &&& unchanged(before, after)
    &&& r.success && r.error is None && r.shard_id@ == "local"@ && r.data is Some
    &&& r.data->Some_0 is Collections
    &&& describes_all(r.data->Some_0->Collections_0@, before)
}

/// What serving `get_statistics` does.
pub open spec fn statistics_served(before: VectorDB, after: VectorDB, r: ShardResponse) -> bool {
    &&& unchanged(before, after)
    &&& r.success && r.error is None && r.shard_id@ == "local"@ && r.data is Some
    &&& r.data->Some_0 is Statistics
    &&& describes_all(r.data->Some_0->Statistics_0@, before)
}

/// What serving `add_vector` does.
pub open spec fn add_vector_served(
    before: VectorDB,
    after: VectorDB,
    request: ShardRequest,
    aux: RequestAux,
    r: ShardResponse,
) -> bool {
    if request.collection is None || request.embedding is None || request.metadata is None || aux.cells
        is None {
        is_failure(r, DbError::InvalidArgument) && unchanged(before, after)
    } else if !names_collection(before, request) {
        is_failure(r, DbError::NotFound) && unchanged(before, after)
    } else {
        let i = crate::registry::name_index(before.collections(), request.collection->Some_0@);
        &&& after.same_frame(&before)
        &&& after.collection_controller.same_but_index(&before.collection_controller, i)
        &&& exists|now: i64, outcome: Result<u64, DbError>|
            {
                &&& #[trigger] crate::buckets::add_post(
                    before.collections()[i].buckets_controller,
                    after.collections()[i].buckets_controller,
                    Embedding { data: request.embedding->Some_0, cells: aux.cells->Some_0 },
                    request.metadata->Some_0.pairs(),
                    now,
                    outcome,
                )
                &&& answers(
                    r,
                    match outcome {
                        Ok(id) => Ok(ResponseData::VectorId(id)),
                        Err(e) => Err(e),
                    },
                )
            }
    }
}

/// The new embedding of an update request: the components given with their cells.
pub open spec fn update_embedding(request: ShardRequest, aux: RequestAux) -> Option<Embedding> {
    match request.embedding {
        Some(data) => Some(Embedding { data, cells: aux.cells->Some_0 }),
        None => None,
    }
}

/// What serving `update_vector` does.
pub open spec fn update_vector_served(
    before: VectorDB,
    after: VectorDB,
    request: ShardRequest,
    aux: RequestAux,
    r: ShardResponse,
) -> bool {
    if request.collection is None || request.vector_id is None || (request.embedding is Some
        && aux.cells is None) {
        is_failure(r, DbError::InvalidArgument) && unchanged(before, after)
    } else if !names_collection(before, request) {
        is_failure(r, DbError::NotFound) && unchanged(before, after)
    } else {
        let i = crate::registry::name_index(before.collections(), request.collection->Some_0@);
        &&& after.same_frame(&before)
        &&& after.collection_controller.same_but_index(&before.collection_controller, i)
        &&& exists|now: i64, outcome: Result<(), DbError>|
            {
                &&& #[trigger] crate::buckets::update_post(
                    before.collections()[i].buckets_controller,
                    after.collections()[i].buckets_controller,
                    request.vector_id->Some_0,
                    update_embedding(request, aux),
                    crate::controllers::opt_pairs(request.metadata),
                    now,
                    outcome,
                )
                &&& answers(
                    r,
                    match outcome {
                        Ok(_) => Ok(ResponseData::Updated),
                        Err(e) => Err(e),
                    },
                )
            }
    }
}

/// What serving `delete_vector` does.
pub open spec fn delete_vector_served(
    before: VectorDB,
    after: VectorDB,
    request: ShardRequest,
    r: ShardResponse,
) -> bool {
    if request.collection is None || request.vector_id is None {
        is_failure(r, DbError::InvalidArgument) && unchanged(before, after)
    } else if !names_collection(before, request) {
        is_failure(r, DbError::NotFound) && unchanged(before, after)
    } else {
        let i = crate::registry::name_index(before.collections(), request.collection->Some_0@);
        &&& after.same_frame(&before)
        &&& after.collection_controller.same_but_index(&before.collection_controller, i)
        &&& exists|now: i64, outcome: Result<(), DbError>|
            {
                &&& #[trigger] crate::buckets::remove_post(
                    before.collections()[i].buckets_controller,
                    after.collections()[i].buckets_controller,
                    request.vector_id->Some_0,
                    now,
                    outcome,
                )
                &&& answers(
                    r,
                    match outcome {
                        Ok(_) => Ok(ResponseData::Deleted),
                        Err(e) => Err(e),
                    },
                )
            }
    }
}

/// What serving `get_vector` does.
pub open spec fn get_vector_served(before: VectorDB, after: VectorDB, request: ShardRequest, r: ShardResponse) -> bool {
    &&& unchanged(before, after)
    &&& if request.collection is None || request.vector_id is None {
        is_failure(r, DbError::InvalidArgument)
    } else if !names_collection(before, request) || !crate::index::index_holds(
        named(before, request).buckets(),
        request.vector_id->Some_0,
    ) {
        is_failure(r, DbError::NotFound)
    } else {
        r.success && r.error is None && r.shard_id@ == "local"@ && r.data is Some && r.data->Some_0
            is Vector && shows(
            r.data->Some_0->Vector_0,
            crate::index::vector_of(named(before, request).buckets(), request.vector_id->Some_0),
        )
    }
}

/// What serving `filter_by_metadata` does.
pub open spec fn filter_served(before: VectorDB, after: VectorDB, request: ShardRequest, r: ShardResponse) -> bool {
    &&& unchanged(before, after)
    &&& if request.collection is None || request.filters is None {
        is_failure(r, DbError::InvalidArgument)
    } else if !names_collection(before, request) {
        is_failure(r, DbError::NotFound)
    } else {
        r.success && r.error is None && r.shard_id@ == "local"@ && r.data is Some && r.data->Some_0
            is VectorIds && r.data->Some_0->VectorIds_0@ == crate::buckets::filter_ids(
            named(before, request).buckets(),
            request.filters->Some_0@,
        )
    }
}

/// What serving `find_similar` does.
pub open spec fn search_served(
    before: VectorDB,
    after: VectorDB,
    request: ShardRequest,
    aux: RequestAux,
    r: ShardResponse,
) -> bool {
    &&& unchanged(before, after)
    &&& if request.collection is None || request.query is None || request.k is None || aux.cells
        is None || aux.scores is None {
        is_failure(r, DbError::InvalidArgument)
    } else if !names_collection(before, request) {
        is_failure(r, DbError::NotFound)
    } else {
        match crate::registry::search_outcome(
            named(before, request).buckets_controller.lsh,
            named(before, request).buckets_controller.dimension,
            named(before, request).buckets(),
            Embedding { data: request.query->Some_0, cells: aux.cells->Some_0 },
            crate::buckets::score_rows(&aux.scores->Some_0),
            request.k->Some_0 as int,
        ) {
            Ok(hits) => r.success && r.error is None && r.shard_id@ == "local"@ && r.data is Some
                && r.data->Some_0 is Results && r.data->Some_0->Results_0@ == hits,
            Err(e) => is_failure(r, e),
        }
    }
}

/// What serving `dump` does: it reports what the disk did with the collections.
/// Written files are a success and a failed write is an I/O failure; without either
/// report the request is an invalid argument. The node stays as it is.
pub open spec fn dump_served(before: VectorDB, after: VectorDB, aux: RequestAux, r: ShardResponse) -> bool {
    &&& unchanged(before, after)
    &&& match aux.disk {
        DiskWork::Written => is_success(r, ResponseData::Dumped),
        DiskWork::Failed => is_failure(r, DbError::Io),
        _ => is_failure(r, DbError::InvalidArgument),
    }
}

/// What serving `load` does: the collections read are added after those that are
/// there; one that cannot be read or whose name is taken is passed over. A failed
/// read is an I/O failure, and a request without collections read is an invalid
/// argument; both leave the node as it is.
pub open spec fn load_served(before: VectorDB, after: VectorDB, aux: RequestAux, r: ShardResponse) -> bool {
    match aux.disk {
        DiskWork::Read(dumps) => {
            &&& is_success(r, ResponseData::Loaded)
            &&& after.same_frame(&before)
            &&& crate::registry::load_relation(before.collections(), dumps@, after.collections())
        },
        DiskWork::Failed => is_failure(r, DbError::Io) && unchanged(before, after),
        _ => is_failure(r, DbError::InvalidArgument) && unchanged(before, after),
    }
}

/// What serving `stop` does: draining begins.
pub open spec fn stop_served(before: VectorDB, after: VectorDB, r: ShardResponse) -> bool {
    &&& is_success(r, ResponseData::Stopping)
    &&& after.state == ServerState::Draining
    &&& after.collection_controller == before.collection_controller
    &&& after.storage_controller == before.storage_controller
    &&& after.shard_coordinator == before.shard_coordinator
    &&& after.multi_shard_client == before.multi_shard_client
    &&& after.is_sharded == before.is_sharded
}

/// What serving a request does, operation by operation. An operation that is not
/// known is refused by name and changes nothing.
pub open spec fn served(
    before: VectorDB,
    after: VectorDB,
    request: ShardRequest,
    aux: RequestAux,
    r: ShardResponse,
) -> bool {
    let op = request.operation@;
    if op == "create_collection"@ {
        create_served(before, after, request, r)
    } else if op == "get_collection"@ {
        get_collection_served(before, after, request, r)
    } else if op == "delete_collection"@ {
        delete_collection_served(before, after, request, r)
    } else if op == "get_all_collections"@ {
        list_served(before, after, r)
    } else if op == "add_vector"@ {
        add_vector_served(before, after, request, aux, r)
    } else if op == "update_vector"@ {
        update_vector_served(before, after, request, aux, r)
    } else if op == "delete_vector"@ {
        delete_vector_served(before, after, request, r)
    } else if op == "get_vector"@ {
        get_vector_served(before, after, request, r)
    } else if op == "filter_by_metadata"@ {
        filter_served(before, after, request, r)
    } else if op == "find_similar"@ {
        search_served(before, after, request, aux, r)
    } else if op == "get_statistics"@ {
        statistics_served(before, after, r)
    } else if op == "dump"@ {
        dump_served(before, after, aux, r)
    } else if op == "load"@ {
        load_served(before, after, aux, r)
    } else if op == "stop"@ {
        stop_served(before, after, r)
    } else {
        refuses_operation(r, op) && unchanged(before, after)
    }
}

fn serve_create(db: &mut VectorDB, request: ShardRequest) -> (r: ShardResponse)
    requires
        old(db).wf(),
        request.metadata matches Some(m) ==> m.wf(),
    ensures
        final(db).wf(),
        final(db).state == old(db).state,
        create_served(*old(db), *final(db), request, r),
{
    let ShardRequest { operation: _, collection, vector_id: _, embedding: _, metadata, query: _, k: _, filters: _ } =
        request;
    match (collection, metadata) {
        (Some(name), Some(m)) => {
            match read_creation_fields(&m) {
                Some((metric, dimension)) => {
                    match db.add_collection(name, metric, dimension) {
                        Ok(_) => ok_response(ResponseData::Created),
                        Err(e) => error_response(e),
                    }
                },
                None => error_response(DbError::InvalidArgument),
            }
        },
        _ => error_response(DbError::InvalidArgument),
    }
}

fn serve_get_collection(db: &VectorDB, request: ShardRequest) -> (r: ShardResponse)
    requires
        db.wf(),
    ensures
        get_collection_served(*db, *db, request, r),
{
    match request.collection {
        Some(name) => {
            match db.get_collection(name.as_str()) {
                Some(c) => ok_response(ResponseData::Collection(describe(c))),
                None => error_response(DbError::NotFound),
            }
        },
        None => error_response(DbError::InvalidArgument),
    }
}

fn serve_delete_collection(db: &mut VectorDB, request: ShardRequest) -> (r: ShardResponse)
    requires
        old(db).wf(),
    ensures
        final(db).wf(),
        final(db).state == old(db).state,
        delete_collection_served(*old(db), *final(db), request, r),
{
    match request.collection {
        Some(name) => {
            match db.delete_collection(name) {
                Ok(_) => ok_response(ResponseData::Deleted),
                Err(e) => error_response(e),
            }
        },
        None => error_response(DbError::InvalidArgument),
    }
}

fn serve_add_vector(db: &mut VectorDB, request: ShardRequest, aux: RequestAux) -> (r: ShardResponse)
    requires
        old(db).wf(),
        request.metadata matches Some(m) ==> m.wf(),
    ensures
        final(db).wf(),
        final(db).state == old(db).state,
        add_vector_served(*old(db), *final(db), request, aux, r),
{
    let ShardRequest { operation: _, collection, vector_id: _, embedding, metadata, query: _, k: _, filters: _ } =
        request;
    let RequestAux { cells, scores: _, disk: _ } = aux;
    match (collection, embedding, metadata, cells) {
        (Some(name), Some(data), Some(m), Some(c)) => {
            let ghost before = *db;
            let ghost e = Embedding { data, cells: c };
            let ghost pairs = m.pairs();
            let outcome = db.add_vector(name.as_str(), Embedding { data, cells: c }, m);
            proof {
                if has_name(before.collections(), name@) {
                    let i = crate::registry::name_index(before.collections(), name@);
                    let now = choose|now: i64|
                        crate::buckets::add_post(
                            before.collections()[i].buckets_controller,
                            db.collections()[i].buckets_controller,
                            e,
                            pairs,
                            now,
                            outcome,
                        );
                    assert(crate::buckets::add_post(
                        before.collections()[i].buckets_controller,
                        db.collections()[i].buckets_controller,
                        e,
                        pairs,
                        now,
                        outcome,
                    ));
                }
            }
            match outcome {
                Ok(id) => ok_response(ResponseData::VectorId(id)),
                Err(e) => error_response(e),
            }
        },
        _ => error_response(DbError::InvalidArgument),
    }
}

fn serve_update_vector(db: &mut VectorDB, request: ShardRequest, aux: RequestAux) -> (r: ShardResponse)
    requires
        old(db).wf(),
        request.metadata matches Some(m) ==> m.wf(),
    ensures
        final(db).wf(),
        final(db).state == old(db).state,
        update_vector_served(*old(db), *final(db), request, aux, r),
{
    let ShardRequest { operation: _, collection, vector_id, embedding, metadata, query: _, k: _, filters: _ } =
        request;
    let RequestAux { cells, scores: _, disk: _ } = aux;
    match (collection, vector_id) {
        (Some(name), Some(id)) => {
            let new_embedding = match (embedding, cells) {
                (Some(data), Some(c)) => Some(Embedding { data, cells: c }),
                (Some(_), None) => {
                    return error_response(DbError::InvalidArgument);
                },
                (None, _) => None,
            };
            let ghost before = *db;
            let ghost pairs = crate::controllers::opt_pairs(metadata);
            let outcome = db.update_vector(name.as_str(), id, new_embedding, metadata);
            proof {
                if has_name(before.collections(), name@) {
                    let i = crate::registry::name_index(before.collections(), name@);
                    let now = choose|now: i64|
                        crate::buckets::update_post(
                            before.collections()[i].buckets_controller,
                            db.collections()[i].buckets_controller,
                            id,
                            new_embedding,
                            pairs,
                            now,
                            outcome,
                        );
                    assert(crate::buckets::update_post(
                        before.collections()[i].buckets_controller,
                        db.collections()[i].buckets_controller,
                        id,
                        new_embedding,
                        pairs,
                        now,
                        outcome,
                    ));
                }
            }
            match outcome {
                Ok(_) => ok_response(ResponseData::Updated),
                Err(e) => error_response(e),
            }
        },
        _ => error_response(DbError::InvalidArgument),
    }
}

fn serve_delete_vector(db: &mut VectorDB, request: ShardRequest) -> (r: ShardResponse)
    requires
        old(db).wf(),
    ensures
        final(db).wf(),
        final(db).state == old(db).state,
        delete_vector_served(*old(db), *final(db), request, r),
{
    match (request.collection, request.vector_id) {
        (Some(name), Some(id)) => {
            let ghost before = *db;
            let outcome = db.delete_vector(name.as_str(), id);
            proof {
                if has_name(before.collections(), name@) {
                    let i = crate::registry::name_index(before.collections(), name@);
                    let now = choose|now: i64|
                        crate::buckets::remove_post(
                            before.collections()[i].buckets_controller,
                            db.collections()[i].buckets_controller,
                            id,
                            now,
                            outcome,
                        );
                    assert(crate::buckets::remove_post(
                        before.collections()[i].buckets_controller,
                        db.collections()[i].buckets_controller,
                        id,
                        now,
                        outcome,
                    ));
                }
            }
            match outcome {
                Ok(_) => ok_response(ResponseData::Deleted),
                Err(e) => error_response(e),
            }
        },
        _ => error_response(DbError::InvalidArgument),
    }
}

fn serve_get_vector(db: &VectorDB, request: ShardRequest) -> (r: ShardResponse)
    requires
        db.wf(),
    ensures
        get_vector_served(*db, *db, request, r),
{
    match (request.collection, request.vector_id) {
        (Some(name), Some(id)) => {
            match db.get_vector(name.as_str(), id) {
                Ok(v) => {
                    let embedding_copy = v.data.clone();
                    assert(embedding_copy@ =~= v.data@);
                    ok_response(
                        ResponseData::Vector(
                            VectorPayload {
                                id: v.hash_id(),
                                embedding: embedding_copy,
                                metadata: v.metadata.duplicate(),
                            },
                        ),
                    )
                },
                Err(e) => error_response(e),
            }
        },
        _ => error_response(DbError::InvalidArgument),
    }
}

fn serve_filter(db: &VectorDB, request: ShardRequest) -> (r: ShardResponse)
    requires
        db.wf(),
        request.filters matches Some(m) ==> m.wf(),
    ensures
        filter_served(*db, *db, request, r),
{
    match (request.collection, request.filters) {
        (Some(name), Some(f)) => {
            match db.filter_by_metadata(name.as_str(), &f) {
                Ok(ids) => ok_response(ResponseData::VectorIds(ids)),
                Err(e) => error_response(e),
            }
        },
        _ => error_response(DbError::InvalidArgument),
    }
}

fn serve_search(db: &VectorDB, request: ShardRequest, aux: RequestAux) -> (r: ShardResponse)
    requires
        db.wf(),
    ensures
        search_served(*db, *db, request, aux, r),
{
    let ShardRequest { operation: _, collection, vector_id: _, embedding: _, metadata: _, query, k, filters: _ } =
        request;
    let RequestAux { cells, scores, disk: _ } = aux;
    match (collection, query, k, cells, scores) {
        (Some(name), Some(data), Some(count), Some(c), Some(rows)) => {
            let q = Embedding { data, cells: c };
            match db.find_similar(name.as_str(), &q, &rows, count) {
                Ok(hits) => ok_response(ResponseData::Results(hits)),
                Err(e) => error_response(e),
            }
        },
        _ => error_response(DbError::InvalidArgument),
    }
}

fn serve_load(db: &mut VectorDB, aux: RequestAux) -> (r: ShardResponse)
    requires
        old(db).wf(),
    ensures
        final(db).wf(),
        final(db).state == old(db).state,
        load_served(*old(db), *final(db), aux, r),
{
    match aux.disk {
        DiskWork::Read(d) => {
            let _ = db.load(&d);
            ok_response(ResponseData::Loaded)
        },
        DiskWork::Failed => error_response(DbError::Io),
        _ => error_response(DbError::InvalidArgument),
    }
}

fn serve_dump(db: &VectorDB, aux: RequestAux) -> (r: ShardResponse)
    ensures
        dump_served(*db, *db, aux, r),
        well_formed_response(r),
{
    match aux.disk {
        DiskWork::Written => ok_response(ResponseData::Dumped),
        DiskWork::Failed => error_response(DbError::Io),
        _ => error_response(DbError::InvalidArgument),
    }
}

/// Serves one request on a shard. A request that arrives while the node is not
/// serving is refused as `ShuttingDown`; an operation that is not known is refused
/// with a text that names it, and a request that lacks a field its operation reads is
/// an invalid argument. `stop` starts draining. Otherwise the operation is carried out
/// on the node's collections and its outcome is the answer.
pub fn handle_shard_request(db: &mut VectorDB, request: ShardRequest, aux: RequestAux) -> (r:
    ShardResponse)
    requires
        old(db).wf(),
        request.metadata matches Some(m) ==> m.wf(),
        request.filters matches Some(m) ==> m.wf(),
    ensures
        final(db).wf(),
        well_formed_response(r),
        old(db).state != ServerState::Serving ==> is_failure(r, DbError::ShuttingDown) && *final(db)
            == *old(db),
        old(db).state == ServerState::Serving ==> served(*old(db), *final(db), request, aux, r),
        old(db).state == ServerState::Serving && !is_operation(request.operation@) ==> refuses_operation(
            r,
            request.operation@,
        ) && unchanged(*old(db), *final(db)),
{
    proof {
        lemma_operations_distinct();
    }
    if !db.accepts_requests() {
        return error_response(DbError::ShuttingDown);
    }
    if str_eq(request.operation.as_str(), "create_collection") {
        serve_create(db, request)
    } else if str_eq(request.operation.as_str(), "get_collection") {
        serve_get_collection(db, request)
    } else if str_eq(request.operation.as_str(), "delete_collection") {
        serve_delete_collection(db, request)
    } else if str_eq(request.operation.as_str(), "get_all_collections") {
        ok_response(ResponseData::Collections(describe_all(db)))
    } else if str_eq(request.operation.as_str(), "add_vector") {
        serve_add_vector(db, request, aux)
    } else if str_eq(request.operation.as_str(), "update_vector") {
        serve_update_vector(db, request, aux)
    } else if str_eq(request.operation.as_str(), "delete_vector") {
        serve_delete_vector(db, request)
    } else if str_eq(request.operation.as_str(), "get_vector") {
        serve_get_vector(db, request)
    } else if str_eq(request.operation.as_str(), "filter_by_metadata") {
        serve_filter(db, request)
    } else if str_eq(request.operation.as_str(), "find_similar") {
        serve_search(db, request, aux)
    } else if str_eq(request.operation.as_str(), "get_statistics") {
        ok_response(ResponseData::Statistics(describe_all(db)))
    } else if str_eq(request.operation.as_str(), "dump") {
        serve_dump(db, aux)
    } else if str_eq(request.operation.as_str(), "load") {
        serve_load(db, aux)
    } else if str_eq(request.operation.as_str(), "stop") {
        db.advance(ServerEvent::StopRequested);
        ok_response(ResponseData::Stopping)
    } else {
        unknown_operation_response(request.operation.as_str())
    }
}

/// The names of the operations differ from one another.
pub proof fn lemma_operations_distinct()
    ensures
        "create_collection"@ != "get_collection"@,
        "create_collection"@ != "delete_collection"@,
        "create_collection"@ != "get_all_collections"@,
        "create_collection"@ != "add_vector"@,
        "create_collection"@ != "get_vector"@,
        "create_collection"@ != "update_vector"@,
        "create_collection"@ != "delete_vector"@,
        "create_collection"@ != "filter_by_metadata"@,
        "create_collection"@ != "find_similar"@,
        "create_collection"@ != "get_statistics"@,
        "create_collection"@ != "dump"@,
        "create_collection"@ != "load"@,
        "create_collection"@ != "stop"@,
        "get_collection"@ != "delete_collection"@,
        "get_collection"@ != "get_all_collections"@,
        "get_collection"@ != "add_vector"@,
        "get_collection"@ != "get_vector"@,
        "get_collection"@ != "update_vector"@,
        "get_collection"@ != "delete_vector"@,
        "get_collection"@ != "filter_by_metadata"@,
        "get_collection"@ != "find_similar"@,
        "get_collection"@ != "get_statistics"@,
        "get_collection"@ != "dump"@,
        "get_collection"@ != "load"@,
        "get_collection"@ != "stop"@,
        "delete_collection"@ != "get_all_collections"@,
        "delete_collection"@ != "add_vector"@,
        "delete_collection"@ != "get_vector"@,
        "delete_collection"@ != "update_vector"@,
        "delete_collection"@ != "delete_vector"@,
        "delete_collection"@ != "filter_by_metadata"@,
        "delete_collection"@ != "find_similar"@,
        "delete_collection"@ != "get_statistics"@,
        "delete_collection"@ != "dump"@,
        "delete_collection"@ != "load"@,
        "delete_collection"@ != "stop"@,
        "get_all_collections"@ != "add_vector"@,
        "get_all_collections"@ != "get_vector"@,
        "get_all_collections"@ != "update_vector"@,
        "get_all_collections"@ != "delete_vector"@,
        "get_all_collections"@ != "filter_by_metadata"@,
        "get_all_collections"@ != "find_similar"@,
        "get_all_collections"@ != "get_statistics"@,
        "get_all_collections"@ != "dump"@,
        "get_all_collections"@ != "load"@,
        "get_all_collections"@ != "stop"@,
        "add_vector"@ != "get_vector"@,
        "add_vector"@ != "update_vector"@,
        "add_vector"@ != "delete_vector"@,
        "add_vector"@ != "filter_by_metadata"@,
        "add_vector"@ != "find_similar"@,
        "add_vector"@ != "get_statistics"@,
        "add_vector"@ != "dump"@,
        "add_vector"@ != "load"@,
        "add_vector"@ != "stop"@,
        "get_vector"@ != "update_vector"@,
        "get_vector"@ != "delete_vector"@,
        "get_vector"@ != "filter_by_metadata"@,
        "get_vector"@ != "find_similar"@,
        "get_vector"@ != "get_statistics"@,
        "get_vector"@ != "dump"@,
        "get_vector"@ != "load"@,
        "get_vector"@ != "stop"@,
        "update_vector"@ != "delete_vector"@,
        "update_vector"@ != "filter_by_metadata"@,
        "update_vector"@ != "find_similar"@,
        "update_vector"@ != "get_statistics"@,
        "update_vector"@ != "dump"@,
        "update_vector"@ != "load"@,
        "update_vector"@ != "stop"@,
        "delete_vector"@ != "filter_by_metadata"@,
        "delete_vector"@ != "find_similar"@,
        "delete_vector"@ != "get_statistics"@,
        "delete_vector"@ != "dump"@,
        "delete_vector"@ != "load"@,
        "delete_vector"@ != "stop"@,
        "filter_by_metadata"@ != "find_similar"@,
        "filter_by_metadata"@ != "get_statistics"@,
        "filter_by_metadata"@ != "dump"@,
        "filter_by_metadata"@ != "load"@,
        "filter_by_metadata"@ != "stop"@,
        "find_similar"@ != "get_statistics"@,
        "find_similar"@ != "dump"@,
        "find_similar"@ != "load"@,
        "find_similar"@ != "stop"@,
        "get_statistics"@ != "dump"@,
        "get_statistics"@ != "load"@,
        "get_statistics"@ != "stop"@,
        "dump"@ != "load"@,
        "dump"@ != "stop"@,
        "load"@ != "stop"@,
{
    reveal_strlit("create_collection");
    reveal_strlit("get_collection");
    reveal_strlit("delete_collection");
    reveal_strlit("get_all_collections");
    reveal_strlit("add_vector");
    reveal_strlit("get_vector");
    reveal_strlit("update_vector");
    reveal_strlit("delete_vector");
    reveal_strlit("filter_by_metadata");
    reveal_strlit("find_similar");
    reveal_strlit("get_statistics");
    reveal_strlit("dump");
    reveal_strlit("load");
    reveal_strlit("stop");
    assert("create_collection"@.len() == 17);
    assert("get_collection"@.len() == 14);
    assert("delete_collection"@.len() == 17);
    assert("get_all_collections"@.len() == 19);
    assert("add_vector"@.len() == 10);
    assert("get_vector"@.len() == 10);
    assert("update_vector"@.len() == 13);
    assert("delete_vector"@.len() == 13);
    assert("filter_by_metadata"@.len() == 18);
    assert("find_similar"@.len() == 12);
    assert("get_statistics"@.len() == 14);
    assert("dump"@.len() == 4);
    assert("load"@.len() == 4);
    assert("stop"@.len() == 4);
    assert("create_collection"@[0] == 'c');
    assert("delete_collection"@[0] == 'd');
    assert("get_collection"@[4] == 'c');
    assert("get_statistics"@[4] == 's');
    assert("add_vector"@[0] == 'a');
    assert("get_vector"@[0] == 'g');
    assert("update_vector"@[0] == 'u');
    assert("delete_vector"@[0] == 'd');
    assert("dump"@[0] == 'd');
    assert("load"@[0] == 'l');
    assert("stop"@[0] == 's');
}

/// The answer reports success with `data`.
pub open spec fn rpc_ok(r: RpcResponse, data: ResponseData) -> bool {
    &&& r.status@ == "ok"@
    &&& r.data == Some(data)
    &&& r.message is None
}

/// The answer reports a failure of kind `e`.
pub open spec fn rpc_failed(r: RpcResponse, e: DbError) -> bool {
    &&& r.status@ == "error"@
    &&& r.data is None
    &&& r.message is Some
    &&& r.message->Some_0@ == e.name()
}

/// The answer reports what `outcome` is.
pub open spec fn rpc_answers(r: RpcResponse, outcome: Result<ResponseData, DbError>) -> bool {
    match outcome {
        Ok(data) => rpc_ok(r, data),
        Err(e) => rpc_failed(r, e),
    }
}

/// The answer reports success and carries data.
pub open spec fn rpc_carries(r: RpcResponse) -> bool {
    &&& r.status@ == "ok"@
    &&& r.data is Some
    &&& r.message is None
}

/// The two statuses differ.
pub proof fn lemma_status_distinct()
    ensures
        "ok"@ != "error"@,
{
    reveal_strlit("ok");
    reveal_strlit("error");
    assert("ok"@.len() == 2);
    assert("error"@.len() == 5);
}

/// The answer to a health check.
pub fn health_check() -> (r: RpcResponse)
    ensures
        rpc_ok(r, ResponseData::Healthy),
{
    RpcResponse::ok(ResponseData::Healthy)
}

/// A user's answer from an outcome: `ok` with the data, or `error` with the name of
/// the failure.
pub fn respond(outcome: Result<ResponseData, DbError>) -> (r: RpcResponse)
    ensures
        rpc_answers(r, outcome),
{
    match outcome {
        Ok(data) => RpcResponse::ok(data),
        Err(e) => RpcResponse::error(e.to_string()),
    }
}

/// The collection that a user names.
pub open spec fn chosen(db: VectorDB, name: Seq<char>) -> Collection {
    db.collections()[crate::registry::name_index(db.collections(), name)]
}

/// Creates a collection for a user. A metric name that is not known is an invalid
/// argument.
pub fn add_collection(db: &mut VectorDB, payload: AddCollectionParams) -> (r: RpcResponse)
    requires
        old(db).wf(),
    ensures
        final(db).wf(),
        match metric_of_name(payload.metric@) {
            Err(e) => rpc_failed(r, e) && unchanged(*old(db), *final(db)),
            Ok(metric) => match crate::registry::create_outcome(
                old(db).collections(),
                payload.name@,
                payload.dimension,
            ) {
                Err(e) => rpc_failed(r, e) && unchanged(*old(db), *final(db)),
                Ok(_) => {
                    &&& rpc_ok(r, ResponseData::Created)
                    &&& final(db).same_frame(old(db))
                    &&& final(db).collections().len() == old(db).collections().len() + 1
                    &&& final(db).collections().drop_last() == old(db).collections()
                    &&& final(db).collections().last().name@ == payload.name@
                    &&& final(db).collections().last().lsh_metric == metric
                    &&& final(db).collections().last().vector_dimension == payload.dimension
                    &&& final(db).collections().last().id == crate::collection::collection_id(payload.name@)
                    &&& final(db).collections().last().default_hasher()
                    &&& final(db).collections().last().buckets() == Seq::<
                        crate::objects::BucketView,
                    >::empty()
                },
            },
        },
{
    let metric = match LSHMetric::from_string(payload.metric.as_str()) {
        Ok(m) => m,
        Err(e) => {
            return respond(Err(e));
        },
    };
    match db.add_collection(payload.name, metric, payload.dimension) {
        Ok(_) => respond(Ok(ResponseData::Created)),
        Err(e) => respond(Err(e)),
    }
}

/// Deletes a collection for a user.
pub fn delete_collection(db: &mut VectorDB, payload: DeleteCollectionParams) -> (r: RpcResponse)
    requires
        old(db).wf(),
    ensures
        final(db).wf(),
        final(db).same_frame(old(db)),
        if has_name(old(db).collections(), payload.name@) {
            rpc_ok(r, ResponseData::Deleted) && final(db).collections() == old(db).collections().remove(
                crate::registry::name_index(old(db).collections(), payload.name@),
            )
        } else {
            rpc_failed(r, DbError::NotFound) && final(db).collections() == old(db).collections()
        },
{
    match db.delete_collection(payload.name) {
        Ok(_) => respond(Ok(ResponseData::Deleted)),
        Err(e) => respond(Err(e)),
    }
}

/// Describes a collection for a user.
pub fn get_collection(db: &VectorDB, payload: DeleteCollectionParams) -> (r: RpcResponse)
    requires
        db.wf(),
    ensures
        if has_name(db.collections(), payload.name@) {
            rpc_carries(r) && r.data->Some_0 is Collection && describes(
                r.data->Some_0->Collection_0,
                chosen(*db, payload.name@),
            )
        } else {
            rpc_failed(r, DbError::NotFound)
        },
{
    match db.get_collection(payload.name.as_str()) {
        Some(c) => respond(Ok(ResponseData::Collection(describe(c)))),
        None => respond(Err(DbError::NotFound)),
    }
}

/// Describes all collections for a user.
pub fn get_all_collections(db: &VectorDB) -> (r: RpcResponse)
    ensures
        rpc_carries(r),
        r.data->Some_0 is Collections,
        describes_all(r.data->Some_0->Collections_0@, *db),
{
    respond(Ok(ResponseData::Collections(describe_all(db))))
}

/// The metadata of a user's insert: what is given, or none.
pub open spec fn given_pairs(metadata: Option<Metadata>) -> Seq<(Seq<char>, Seq<char>)> {
    match metadata {
        Some(m) => m.pairs(),
        None => Seq::empty(),
    }
}

/// Inserts a vector for a user; `cells` are the cells of its embedding.
pub fn add_vector(db: &mut VectorDB, payload: AddVectorParams, cells: Vec<i64>) -> (r: RpcResponse)
    requires
        old(db).wf(),
        payload.metadata matches Some(m) ==> m.wf(),
    ensures
        final(db).wf(),
        final(db).same_frame(old(db)),
        if !has_name(old(db).collections(), payload.collection@) {
            rpc_failed(r, DbError::NotFound) && final(db).collections() == old(db).collections()
        } else {
            let i = crate::registry::name_index(old(db).collections(), payload.collection@);
            &&& final(db).collection_controller.same_but_index(&old(db).collection_controller, i)
            &&& exists|now: i64, outcome: Result<u64, DbError>|
                {
                    &&& #[trigger] crate::buckets::add_post(
                        old(db).collections()[i].buckets_controller,
                        final(db).collections()[i].buckets_controller,
                        Embedding { data: payload.embedding, cells },
                        given_pairs(payload.metadata),
                        now,
                        outcome,
                    )
                    &&& rpc_answers(
                        r,
                        match outcome {
                            Ok(id) => Ok(ResponseData::VectorId(id)),
                            Err(e) => Err(e),
                        },
                    )
                }
            &&& payload.embedding@.len() != old(db).collections()[i].vector_dimension ==> rpc_failed(
                r,
                DbError::DimensionMismatch,
            )
        },
{
    let metadata = match payload.metadata {
        Some(m) => m,
        None => Metadata::new(),
    };
    let ghost before = *db;
    let ghost e = Embedding { data: payload.embedding, cells };
    let ghost pairs = metadata.pairs();
    assert(pairs == given_pairs(payload.metadata));
    let outcome = db.add_vector(
        payload.collection.as_str(),
        Embedding { data: payload.embedding, cells },
        metadata,
    );
    proof {
        if has_name(before.collections(), payload.collection@) {
            let i = crate::registry::name_index(before.collections(), payload.collection@);
            let now = choose|now: i64|
                crate::buckets::add_post(
                    before.collections()[i].buckets_controller,
                    db.collections()[i].buckets_controller,
                    e,
                    pairs,
                    now,
                    outcome,
                );
            assert(crate::buckets::add_post(
                before.collections()[i].buckets_controller,
                db.collections()[i].buckets_controller,
                e,
                pairs,
                now,
                outcome,
            ));
        }
    }
    match outcome {
        Ok(id) => respond(Ok(ResponseData::VectorId(id))),
        Err(e) => respond(Err(e)),
    }
}

/// The new embedding of a user's update: the components given with their cells.
pub open spec fn given_embedding(embedding: Option<Vec<u32>>, cells: Option<Vec<i64>>) -> Option<Embedding> {
    match embedding {
        Some(data) => Some(Embedding { data, cells: cells->Some_0 }),
        None => None,
    }
}

/// Updates a vector for a user; `cells` are the cells of the new embedding, if one is
/// given. New components without cells are an invalid argument.
pub fn update_vector(db: &mut VectorDB, payload: UpdateVectorParams, cells: Option<Vec<i64>>) -> (r:
    RpcResponse)
    requires
        old(db).wf(),
        payload.metadata matches Some(m) ==> m.wf(),
    ensures
        final(db).wf(),
        final(db).same_frame(old(db)),
        if payload.embedding is Some && cells is None {
            rpc_failed(r, DbError::InvalidArgument) && final(db).collections() == old(db).collections()
        } else if !has_name(old(db).collections(), payload.collection@) {
            rpc_failed(r, DbError::NotFound) && final(db).collections() == old(db).collections()
        } else {
            let i = crate::registry::name_index(old(db).collections(), payload.collection@);
            &&& final(db).collection_controller.same_but_index(&old(db).collection_controller, i)
            &&& exists|now: i64, outcome: Result<(), DbError>|
                {
                    &&& #[trigger] crate::buckets::update_post(
                        old(db).collections()[i].buckets_controller,
                        final(db).collections()[i].buckets_controller,
                        payload.vector_id,
                        given_embedding(payload.embedding, cells),
                        crate::controllers::opt_pairs(payload.metadata),
                        now,
                        outcome,
                    )
                    &&& rpc_answers(
                        r,
                        match outcome {
                            Ok(_) => Ok(ResponseData::Updated),
                            Err(e) => Err(e),
                        },
                    )
                }
        },
{
    let new_embedding = match (payload.embedding, cells) {
        (Some(data), Some(c)) => Some(Embedding { data, cells: c }),
        (Some(_), None) => {
            return respond(Err(DbError::InvalidArgument));
        },
        (None, _) => None,
    };
    let ghost before = *db;
    let ghost pairs = crate::controllers::opt_pairs(payload.metadata);
    let outcome = db.update_vector(
        payload.collection.as_str(),
        payload.vector_id,
        new_embedding,
        payload.metadata,
    );
    proof {
        if has_name(before.collections(), payload.collection@) {
            let i = crate::registry::name_index(before.collections(), payload.collection@);
            let now = choose|now: i64|
                crate::buckets::update_post(
                    before.collections()[i].buckets_controller,
                    db.collections()[i].buckets_controller,
                    payload.vector_id,
                    new_embedding,
                    pairs,
                    now,
                    outcome,
                );
            assert(crate::buckets::update_post(
                before.collections()[i].buckets_controller,
                db.collections()[i].buckets_controller,
                payload.vector_id,
                new_embedding,
                pairs,
                now,
                outcome,
            ));
        }
    }
    match outcome {
        Ok(_) => respond(Ok(ResponseData::Updated)),
        Err(e) => respond(Err(e)),
    }
}

/// Fetches a vector for a user.
pub fn get_vector(db: &VectorDB, payload: GetVectorParams) -> (r: RpcResponse)
    requires
        db.wf(),
    ensures
        if has_name(db.collections(), payload.collection@) && crate::index::index_holds(
            chosen(*db, payload.collection@).buckets(),
            payload.vector_id,
        ) {
            rpc_carries(r) && r.data->Some_0 is Vector && shows(
                r.data->Some_0->Vector_0,
                crate::index::vector_of(chosen(*db, payload.collection@).buckets(), payload.vector_id),
            )
        } else {
            rpc_failed(r, DbError::NotFound)
        },
{
    match db.get_vector(payload.collection.as_str(), payload.vector_id) {
        Ok(v) => {
            let embedding = v.data.clone();
            assert(embedding@ =~= v.data@);
            respond(
                Ok(
                    ResponseData::Vector(
                        VectorPayload { id: v.hash_id(), embedding, metadata: v.metadata.duplicate() },
                    ),
                ),
            )
        },
        Err(e) => respond(Err(e)),
    }
}

/// Deletes a vector for a user.
pub fn delete_vector(db: &mut VectorDB, payload: DeleteVectorParams) -> (r: RpcResponse)
    requires
        old(db).wf(),
    ensures
        final(db).wf(),
        final(db).same_frame(old(db)),
        if !has_name(old(db).collections(), payload.collection@) {
            rpc_failed(r, DbError::NotFound) && final(db).collections() == old(db).collections()
        } else {
            let i = crate::registry::name_index(old(db).collections(), payload.collection@);
            &&& final(db).collection_controller.same_but_index(&old(db).collection_controller, i)
            &&& exists|now: i64, outcome: Result<(), DbError>|
                {
                    &&& #[trigger] crate::buckets::remove_post(
                        old(db).collections()[i].buckets_controller,
                        final(db).collections()[i].buckets_controller,
                        payload.vector_id,
                        now,
                        outcome,
                    )
                    &&& rpc_answers(
                        r,
                        match outcome {
                            Ok(_) => Ok(ResponseData::Deleted),
                            Err(e) => Err(e),
                        },
                    )
                }
        },
{
    let ghost before = *db;
    let outcome = db.delete_vector(payload.collection.as_str(), payload.vector_id);
    proof {
        if has_name(before.collections(), payload.collection@) {
            let i = crate::registry::name_index(before.collections(), payload.collection@);
            let now = choose|now: i64|
                crate::buckets::remove_post(
                    before.collections()[i].buckets_controller,
                    db.collections()[i].buckets_controller,
                    payload.vector_id,
                    now,
                    outcome,
                );
            assert(crate::buckets::remove_post(
                before.collections()[i].buckets_controller,
                db.collections()[i].buckets_controller,
                payload.vector_id,
                now,
                outcome,
            ));
        }
    }
    match outcome {
        Ok(_) => respond(Ok(ResponseData::Deleted)),
        Err(e) => respond(Err(e)),
    }
}

/// Filters a collection by metadata for a user.
pub fn filter_by_metadata(db: &VectorDB, payload: FilterByMetadataParams) -> (r: RpcResponse)
    requires
        db.wf(),
        payload.filters.wf(),
    ensures
        if has_name(db.collections(), payload.collection@) {
            rpc_carries(r) && r.data->Some_0 is VectorIds && r.data->Some_0->VectorIds_0@
                == crate::buckets::filter_ids(
                chosen(*db, payload.collection@).buckets(),
                payload.filters@,
            )
        } else {
            rpc_failed(r, DbError::NotFound)
        },
{
    match db.filter_by_metadata(payload.collection.as_str(), &payload.filters) {
        Ok(ids) => respond(Ok(ResponseData::VectorIds(ids))),
        Err(e) => respond(Err(e)),
    }
}

/// Searches a collection for a user; `cells` are the cells of the query and `scores`
/// the rows of scores that the search plan asks for.
pub fn find_similar(db: &VectorDB, payload: FindSimilarParams, cells: Vec<i64>, scores: Vec<Vec<u32>>) -> (r:
    RpcResponse)
    requires
        db.wf(),
    ensures
        if !has_name(db.collections(), payload.collection@) {
            rpc_failed(r, DbError::NotFound)
        } else {
            match crate::registry::search_outcome(
                chosen(*db, payload.collection@).buckets_controller.lsh,
                chosen(*db, payload.collection@).buckets_controller.dimension,
                chosen(*db, payload.collection@).buckets(),
                Embedding { data: payload.query, cells },
                crate::buckets::score_rows(&scores),
                payload.k as int,
            ) {
                Ok(hits) => rpc_carries(r) && r.data->Some_0 is Results && r.data->Some_0->Results_0@
                    == hits,
                Err(e) => rpc_failed(r, e),
            }
        },
{
    let query = Embedding { data: payload.query, cells };
    match db.find_similar(payload.collection.as_str(), &query, &scores, payload.k) {
        Ok(hits) => respond(Ok(ResponseData::Results(hits))),
        Err(e) => respond(Err(e)),
    }
}

/// Starts draining for a user's stop.
pub fn stop(db: &mut VectorDB) -> (r: RpcResponse)
    ensures
        rpc_ok(r, ResponseData::Stopping),
        final(db).state == crate::vector_db::next_state(old(db).state, ServerEvent::StopRequested),
        final(db).collection_controller == old(db).collection_controller,
        final(db).storage_controller == old(db).storage_controller,
        final(db).shard_coordinator == old(db).shard_coordinator,
        final(db).multi_shard_client == old(db).multi_shard_client,
        final(db).is_sharded == old(db).is_sharded,
{
    db.advance(ServerEvent::StopRequested);
    respond(Ok(ResponseData::Stopping))
}

} // verus!
