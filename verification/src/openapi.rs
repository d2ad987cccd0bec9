//! The bodies of the user-facing requests and the envelope of their answers.

use vstd::prelude::*;
use crate::metadata::Metadata;
use crate::shard_client::ResponseData;

verus! {

/// The body of a request to create a collection.
pub struct AddCollectionParams {
    pub name: String,
    pub metric: String,
    pub dimension: usize,
}

/// The body of a request that names one collection.
pub struct DeleteCollectionParams {
    pub name: String,
}

/// The body of a request to insert a vector. Components are bit patterns.
pub struct AddVectorParams {
    pub collection: String,
    pub embedding: Vec<u32>,
    pub metadata: Option<Metadata>,
}

/// The body of a request to update a vector.
pub struct UpdateVectorParams {
    pub collection: String,
    pub vector_id: u64,
    pub embedding: Option<Vec<u32>>,
    pub metadata: Option<Metadata>,
}

/// The body of a request to fetch a vector.
pub struct GetVectorParams {
    pub collection: String,
    pub vector_id: u64,
}

/// The body of a request to delete a vector.
pub struct DeleteVectorParams {
    pub collection: String,
    pub vector_id: u64,
}

/// The body of a request to filter a collection by metadata.
pub struct FilterByMetadataParams {
    pub collection: String,
    pub filters: Metadata,
}

/// The body of a search request.
pub struct FindSimilarParams {
    pub collection: String,
    pub query: Vec<u32>,
    pub k: usize,
}

/// The envelope of every answer to a user: `ok` with data, or `error` with a message.
pub struct RpcResponse {
    pub status: String,
    pub data: Option<ResponseData>,
    pub message: Option<String>,
}

/// One search result as sent to a user. The score is a bit pattern.
#[derive(Clone, Copy, Debug, PartialEq, Eq, Structural)]
pub struct SimilarVectorResult {
    pub bucket_id: u64,
    pub vector_index: usize,
    pub score: u32,
}

/// Stands for the description of the user-facing interface.
#[derive(Clone, Copy, Debug)]
pub struct ApiDoc;

impl RpcResponse {
    /// An answer that reports success.
    pub fn ok(data: ResponseData) -> (r: RpcResponse)
        ensures
            r.status@ == "ok"@,
            r.data == Some(data),
            r.message is None,
    {
        RpcResponse { status: "ok".to_owned(), data: Some(data), message: None }
    }

    /// An answer that reports a failure.
    pub fn error(message: String) -> (r: RpcResponse)
        ensures
            r.status@ == "error"@,
            r.data is None,
            r.message == Some(message),
    {
        RpcResponse { status: "error".to_owned(), data: None, message: Some(message) }
    }
}

impl SimilarVectorResult {
    /// A search hit under its field names.
    pub fn from_hit(hit: (u64, usize, u32)) -> (r: SimilarVectorResult)
        ensures
            r.bucket_id == hit.0,
            r.vector_index == hit.1,
            r.score == hit.2,
    {
        SimilarVectorResult { bucket_id: hit.0, vector_index: hit.1, score: hit.2 }
    }
}

} // verus!
