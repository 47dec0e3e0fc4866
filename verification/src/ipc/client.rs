//! The server's side of the exchange with one worker.
//!
//! Each request goes over a connection of its own; the number that it carries
//! comes back with the response.
use vstd::prelude::*;
use vstd::string::*;
use crate::ipc::protocol::{
    EmbedRequest, RerankRequest, SpladeRequest, WorkerRequest, WorkerResponse,
};
use crate::text::{decimal, push_decimal};

verus! {

broadcast use group_string_axioms;

/// A client of one worker.
#[derive(Debug)]
pub struct WorkerClient {
    socket_path: String,
    conns: usize,
    request_counter: u64,
}

/// What is wrong with a response to a request, if anything: it answers another
/// request, or it does not have one result for each input.
pub open spec fn response_error(req: WorkerRequest, resp: WorkerResponse) -> Option<Seq<char>> {
    if resp.id() != req.id() {
        Some(
            "response id "@ + decimal(resp.id() as nat) + " != request id "@ + decimal(
                req.id() as nat,
            ),
        )
    } else {
        match (req, resp) {
            (WorkerRequest::Embed(q), WorkerResponse::Embed(a)) => if a.vectors@.len()
                != q.texts@.len() {
                Some(
                    "worker returned "@ + decimal(a.vectors@.len()) + " vectors for "@ + decimal(
                        q.texts@.len(),
                    ) + " input texts"@,
                )
            } else {
                None
            },
            (WorkerRequest::Rerank(q), WorkerResponse::Rerank(a)) => if a.scores@.len()
                != q.documents@.len() {
                Some(
                    "worker returned "@ + decimal(a.scores@.len()) + " scores for "@ + decimal(
                        q.documents@.len(),
                    ) + " documents"@,
                )
            } else {
                None
            },
            (WorkerRequest::Splade(q), WorkerResponse::Splade(a)) => if a.sparse@.len()
                != q.texts@.len() {
                Some(
                    "worker returned "@ + decimal(a.sparse@.len()) + " sparse vectors for "@
                        + decimal(q.texts@.len()) + " texts"@,
                )
            } else {
                None
            },
            _ => None,
        }
    }
}

fn count_mismatch(got: usize, what: &str, wanted: usize, of: &str) -> (r: String)
    ensures
        r@ == "worker returned "@ + decimal(got as nat) + what@ + decimal(wanted as nat) + of@,
{
    let mut m: String = "worker returned ".to_owned();
    push_decimal(&mut m, got as u64);
    m.append(what);
    push_decimal(&mut m, wanted as u64);
    m.append(of);
    m
}

/// Accepts a response to a request, or says what is wrong with it.
pub fn accept_response(req: &WorkerRequest, resp: WorkerResponse) -> (r: Result<
    WorkerResponse,
    String,
>)
    ensures
        match response_error(*req, resp) {
            None => r == Ok::<WorkerResponse, String>(resp),
            Some(m) => r matches Err(e) && e@ == m,
        },
{
    if resp.request_id() != req.request_id() {
        let mut m: String = "response id ".to_owned();
        push_decimal(&mut m, resp.request_id());
        m.append(" != request id ");
        push_decimal(&mut m, req.request_id());
        return Err(m);
    }
    match (req, &resp) {
        (WorkerRequest::Embed(q), WorkerResponse::Embed(a)) => {
            if a.vectors.len() != q.texts.len() {
                return Err(
                    count_mismatch(
                        a.vectors.len(),
                        " vectors for ",
                        q.texts.len(),
                        " input texts",
                    ),
                );
            }
        },
        (WorkerRequest::Rerank(q), WorkerResponse::Rerank(a)) => {
            if a.scores.len() != q.documents.len() {
                return Err(
                    count_mismatch(
                        a.scores.len(),
                        " scores for ",
                        q.documents.len(),
                        " documents",
                    ),
                );
            }
        },
        (WorkerRequest::Splade(q), WorkerResponse::Splade(a)) => {
            if a.sparse.len() != q.texts.len() {
                return Err(
                    count_mismatch(
                        a.sparse.len(),
                        " sparse vectors for ",
                        q.texts.len(),
                        " texts",
                    ),
                );
            }
        },
        _ => {},
    }
    Ok(resp)
}

/// The number that follows another: after the largest one comes zero.
pub open spec fn next_id(id: u64) -> u64 {
    if id == u64::MAX {
        0
    } else {
        (id + 1) as u64
    }
}

impl WorkerClient {
    /// The path of the worker's socket.
    pub closed spec fn path(&self) -> Seq<char> {
        self.socket_path@
    }

    /// The number of requests that may be under way at once.
    pub closed spec fn concurrency(&self) -> usize {
        self.conns
    }

    /// The number that the next request carries.
    pub closed spec fn counter(&self) -> u64 {
        self.request_counter
    }

    /// A client that has sent nothing. It must be allowed at least one request
    /// at a time.
    pub fn connect(socket_path: &str, conns: usize) -> (r: Result<WorkerClient, String>)
        ensures
            match r {
                Ok(c) => conns > 0 && c.path() == socket_path@ && c.concurrency() == conns
                    && c.counter() == 0,
                Err(e) => conns == 0 && e@ == "WorkerClient concurrency must be >= 1"@,
            },
    {
        if conns == 0 {
            return Err("WorkerClient concurrency must be >= 1".to_owned());
        }
        Ok(WorkerClient { socket_path: socket_path.to_owned(), conns, request_counter: 0 })
    }

    /// The path of the worker's socket.
    pub fn socket_path(&self) -> (r: &str)
        ensures
            r@ == self.path(),
    {
        self.socket_path.as_str()
    }

    /// The number of requests that may be under way at once.
    pub fn conns(&self) -> (r: usize)
        ensures
            r == self.concurrency(),
    {
        self.conns
    }

    fn take_id(&mut self) -> (r: u64)
        ensures
            r == old(self).counter(),
            final(self).counter() == next_id(old(self).counter()),
            final(self).path() == old(self).path(),
            final(self).concurrency() == old(self).concurrency(),
    {
        let id: u64 = self.request_counter;
        self.request_counter = if id == u64::MAX {
            0
        } else {
            id + 1
        };
        id
    }

    /// The request to embed some texts.
    pub fn dispatch_embed(&mut self, model: String, texts: Vec<String>, max_seq_len: u32) -> (r:
        WorkerRequest)
        ensures
            r == WorkerRequest::Embed(
                (EmbedRequest { request_id: old(self).counter(), model, texts, max_seq_len }),
            ),
            final(self).counter() == next_id(old(self).counter()),
            final(self).path() == old(self).path(),
            final(self).concurrency() == old(self).concurrency(),
    {
        let request_id: u64 = self.take_id();
        WorkerRequest::Embed(EmbedRequest { request_id, model, texts, max_seq_len })
    }

    /// The request to score some documents.
    pub fn dispatch_rerank(
        &mut self,
        model: String,
        query: String,
        documents: Vec<String>,
        max_seq_len: u32,
    ) -> (r: WorkerRequest)
        ensures
            r == WorkerRequest::Rerank(
                (RerankRequest {
                    request_id: old(self).counter(),
                    model,
                    query,
                    documents,
                    max_seq_len,
                }),
            ),
            final(self).counter() == next_id(old(self).counter()),
            final(self).path() == old(self).path(),
            final(self).concurrency() == old(self).concurrency(),
    {
        let request_id: u64 = self.take_id();
        WorkerRequest::Rerank(RerankRequest { request_id, model, query, documents, max_seq_len })
    }

    /// The request to encode some texts as sparse vectors.
    pub fn dispatch_splade(
        &mut self,
        model: String,
        texts: Vec<String>,
        max_seq_len: u32,
        top_k: u32,
        min_weight: u32,
    ) -> (r: WorkerRequest)
        ensures
            r == WorkerRequest::Splade(
                (SpladeRequest {
                    request_id: old(self).counter(),
                    model,
                    texts,
                    max_seq_len,
                    top_k,
                    min_weight,
                }),
            ),
            final(self).counter() == next_id(old(self).counter()),
            final(self).path() == old(self).path(),
            final(self).concurrency() == old(self).concurrency(),
    {
        let request_id: u64 = self.take_id();
        WorkerRequest::Splade(
            SpladeRequest { request_id, model, texts, max_seq_len, top_k, min_weight },
        )
    }
}

/// A response that is accepted answers its request: it carries its number, and
/// where it is of the same kind it has one result for each input.
pub proof fn law_accepted_response_answers(req: WorkerRequest, resp: WorkerResponse)
    requires
        response_error(req, resp) is None,
    ensures
        resp.id() == req.id(),
        match (req, resp) {
            (WorkerRequest::Embed(q), WorkerResponse::Embed(a)) => a.vectors@.len()
                == q.texts@.len(),
            (WorkerRequest::Rerank(q), WorkerResponse::Rerank(a)) => a.scores@.len()
                == q.documents@.len(),
            (WorkerRequest::Splade(q), WorkerResponse::Splade(a)) => a.sparse@.len()
                == q.texts@.len(),
            _ => true,
        },
{
}

/// A stale response, one to the request before, is never accepted.
pub proof fn law_stale_response_is_refused(id: u64, req: WorkerRequest, stale: WorkerResponse)
    requires
        stale.id() == id,
        req.id() == next_id(id),
    ensures
        response_error(req, stale) is Some,
{
}

/// A response is accepted exactly where it carries the request's number and,
/// where it is of the request's kind, has one result for each input; one that
/// carries another number is refused with both.
pub proof fn law_responses_are_checked(req: WorkerRequest, resp: WorkerResponse)
    ensures
        resp.id() != req.id() ==> response_error(req, resp) == Some(
            "response id "@ + decimal(resp.id() as nat) + " != request id "@ + decimal(
                req.id() as nat,
            ),
        ),
        resp.id() == req.id() ==> (response_error(req, resp) is None <==> match (req, resp) {
            (WorkerRequest::Embed(q), WorkerResponse::Embed(a)) => a.vectors@.len()
                == q.texts@.len(),
            (WorkerRequest::Rerank(q), WorkerResponse::Rerank(a)) => a.scores@.len()
                == q.documents@.len(),
            (WorkerRequest::Splade(q), WorkerResponse::Splade(a)) => a.sparse@.len()
                == q.texts@.len(),
            _ => true,
        }),
{
}

/// Two requests in a row never have the same number, and the numbers go up by
/// one until they begin again.
pub proof fn law_request_numbers(id: u64)
    ensures
        next_id(id) != id,
        id < u64::MAX ==> next_id(id) == id + 1,
        id == u64::MAX ==> next_id(id) == 0,
{
}

/// A response with another number of results than there were inputs is told with
/// both numbers.
pub proof fn law_miscounted_responses(req: WorkerRequest, resp: WorkerResponse)
    requires
        req.id() == resp.id(),
    ensures
        response_error(req, resp) matches Some(m) ==> {
            &&& req matches WorkerRequest::Embed(q) ==> (resp matches WorkerResponse::Embed(a) && m
                == "worker returned "@ + decimal(a.vectors@.len()) + " vectors for "@ + decimal(
                q.texts@.len(),
            ) + " input texts"@)
            &&& req matches WorkerRequest::Rerank(q) ==> (resp matches WorkerResponse::Rerank(a)
                && m == "worker returned "@ + decimal(a.scores@.len()) + " scores for "@ + decimal(
                q.documents@.len(),
            ) + " documents"@)
            &&& req matches WorkerRequest::Splade(q) ==> (resp matches WorkerResponse::Splade(a)
                && m == "worker returned "@ + decimal(a.sparse@.len()) + " sparse vectors for "@
                + decimal(q.texts@.len()) + " texts"@)
        },
{
}

} // verus!
