//! The messages between the server and its workers. A floating-point number is
//! held as its bit pattern.
use vstd::prelude::*;
use vstd::string::*;

verus! {

broadcast use group_string_axioms;

/// A request to a worker.
#[derive(Debug, Clone, PartialEq)]
pub enum WorkerRequest {
    Embed(EmbedRequest),
    Rerank(RerankRequest),
    Splade(SpladeRequest),
}

/// Texts to embed.
#[derive(Debug, Clone, PartialEq)]
pub struct EmbedRequest {
    pub request_id: u64,
    pub model: String,
    pub texts: Vec<String>,
    pub max_seq_len: u32,
}

/// Documents to score against a query.
#[derive(Debug, Clone, PartialEq)]
pub struct RerankRequest {
    pub request_id: u64,
    pub model: String,
    pub query: String,
    pub documents: Vec<String>,
    pub max_seq_len: u32,
}

/// Texts to encode as sparse vectors.
#[derive(Debug, Clone, PartialEq)]
pub struct SpladeRequest {
    pub request_id: u64,
    pub model: String,
    pub texts: Vec<String>,
    pub max_seq_len: u32,
    /// The most entries of one vector; `0` for any number.
    pub top_k: u32,
    /// Entries of at most this weight are dropped (a bit pattern).
    pub min_weight: u32,
}

impl WorkerRequest {
    /// The number by which the response is told.
    pub open spec fn id(&self) -> u64 {
        match self {
            WorkerRequest::Embed(r) => r.request_id,
            WorkerRequest::Rerank(r) => r.request_id,
            WorkerRequest::Splade(r) => r.request_id,
        }
    }

    /// The kind of work.
    pub open spec fn kind_name(&self) -> Seq<char> {
        match self {
            WorkerRequest::Embed(_) => "embed"@,
            WorkerRequest::Rerank(_) => "rerank"@,
            WorkerRequest::Splade(_) => "splade"@,
        }
    }

    /// The number by which the response is told.
    pub fn request_id(&self) -> (r: u64)
        ensures
            r == self.id(),
    {
        match self {
            WorkerRequest::Embed(r) => r.request_id,
            WorkerRequest::Rerank(r) => r.request_id,
            WorkerRequest::Splade(r) => r.request_id,
        }
    }

    /// The kind of work.
    pub fn kind(&self) -> (r: &'static str)
        ensures
            r@ == self.kind_name(),
    {
        match self {
            WorkerRequest::Embed(_) => "embed",
            WorkerRequest::Rerank(_) => "rerank",
            WorkerRequest::Splade(_) => "splade",
        }
    }
}

/// A worker's response.
#[derive(Debug, Clone, PartialEq)]
pub enum WorkerResponse {
    Embed(EmbedResponseOk),
    Rerank(RerankResponseOk),
    Splade(SpladeResponseOk),
    Failed { request_id: u64, message: String },
}

/// Vectors, one for each text.
#[derive(Debug, Clone, PartialEq)]
pub struct EmbedResponseOk {
    pub request_id: u64,
    /// The vectors (bit patterns).
    pub vectors: Vec<Vec<u32>>,
    pub dims: u32,
}

/// Scores, one for each document.
#[derive(Debug, Clone, PartialEq)]
pub struct RerankResponseOk {
    pub request_id: u64,
    /// The scores (bit patterns).
    pub scores: Vec<u32>,
}

/// Sparse vectors, one for each text.
#[derive(Debug, Clone, PartialEq)]
pub struct SpladeResponseOk {
    pub request_id: u64,
    /// Tokens with their weights (bit patterns).
    pub sparse: Vec<Vec<(u32, u32)>>,
}

impl WorkerResponse {
    /// The number of the request that it answers.
    pub open spec fn id(&self) -> u64 {
        match self {
            WorkerResponse::Embed(r) => r.request_id,
            WorkerResponse::Rerank(r) => r.request_id,
            WorkerResponse::Splade(r) => r.request_id,
            WorkerResponse::Failed { request_id, .. } => *request_id,
        }
    }

    /// The kind of response.
    pub open spec fn kind_name(&self) -> Seq<char> {
        match self {
            WorkerResponse::Embed(_) => "embed"@,
            WorkerResponse::Rerank(_) => "rerank"@,
            WorkerResponse::Splade(_) => "splade"@,
            WorkerResponse::Failed { .. } => "err"@,
        }
    }

    /// The number of the request that it answers.
    pub fn request_id(&self) -> (r: u64)
        ensures
            r == self.id(),
    {
        match self {
            WorkerResponse::Embed(r) => r.request_id,
            WorkerResponse::Rerank(r) => r.request_id,
            WorkerResponse::Splade(r) => r.request_id,
            WorkerResponse::Failed { request_id, .. } => *request_id,
        }
    }

    /// The kind of response.
    pub fn kind(&self) -> (r: &'static str)
        ensures
            r@ == self.kind_name(),
    {
        match self {
            WorkerResponse::Embed(_) => "embed",
            WorkerResponse::Rerank(_) => "rerank",
            WorkerResponse::Splade(_) => "splade",
            WorkerResponse::Failed { .. } => "err",
        }
    }
}

/// A message's number and kind are those of what it carries.
pub proof fn law_numbers_and_kinds(req: WorkerRequest, resp: WorkerResponse)
    ensures
        req matches WorkerRequest::Embed(r) ==> req.id() == r.request_id && req.kind_name()
            == "embed"@,
        req matches WorkerRequest::Rerank(r) ==> req.id() == r.request_id && req.kind_name()
            == "rerank"@,
        req matches WorkerRequest::Splade(r) ==> req.id() == r.request_id && req.kind_name()
            == "splade"@,
        resp matches WorkerResponse::Embed(r) ==> resp.id() == r.request_id && resp.kind_name()
            == "embed"@,
        resp matches WorkerResponse::Rerank(r) ==> resp.id() == r.request_id && resp.kind_name()
            == "rerank"@,
        resp matches WorkerResponse::Splade(r) ==> resp.id() == r.request_id && resp.kind_name()
            == "splade"@,
        resp matches WorkerResponse::Failed { request_id, .. } ==> resp.id() == request_id
            && resp.kind_name() == "err"@,
{
}

} // verus!
