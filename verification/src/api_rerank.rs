//! `POST /v1/rerank`: documents ordered by their relevance to a query.
//!
//! A request goes through these steps: [`check_rerank`], [`find_missing`] and
//! [`merge_tokens`] around the tokenizer, [`dispatch_inference`], and [`rank`].
//! A floating-point number is held as its bit pattern.
use vstd::prelude::*;
use vstd::string::*;
use crate::api::{tokenize_message, tokenize_words, TokenizeFailure};
use crate::batcher::BatchError;
use crate::metrics::{
    of_model, of_model_and, record_rerank_input_docs_rejected, record_rerank_input_docs_size,
    record_rerank_request, record_rerank_tokenizer, record_token_cache_hit,
    record_token_cache_miss, Amount, Change, MetricLog, RerankInFlightGuard, UpdateView,
};
use crate::order::{descending_order, is_descending, precedes};
use crate::reply::{
    batcher_stopped, choose_model, chosen, draining, error_json, failed, names_view, over_cap,
    overloaded, rate_limited_response, server_error, shutting_down, stopped, too_many,
    wrong_request, Refusal, RefusalView,
};
use crate::text::{decimal, hexadecimal, push_decimal, push_hexadecimal, trim, trimmed};

verus! {

broadcast use group_string_axioms;

/// What is done to the scores before the documents are ordered by them.
#[derive(Clone, Copy, Debug, PartialEq, Eq, Structural)]
pub enum NormalizeMode {
    /// The scores stay as the model gives them.
    Raw,
    /// Each score is squashed into the range from 0 to 1.
    Sigmoid,
}

impl Default for NormalizeMode {
    fn default() -> (r: NormalizeMode)
        ensures
            r == NormalizeMode::Sigmoid,
    {
        NormalizeMode::Sigmoid
    }
}

/// A document: a text, or an object that holds one.
#[derive(Debug)]
pub enum RerankDocument {
    Text(String),
    Object { text: String },
}

impl RerankDocument {
    /// The document's text.
    pub open spec fn words(self) -> String {
        match self {
            RerankDocument::Text(s) => s,
            RerankDocument::Object { text } => text,
        }
    }

    /// The document's text.
    pub fn into_text(self) -> (r: String)
        ensures
            r == self.words(),
    {
        match self {
            RerankDocument::Text(s) => s,
            RerankDocument::Object { text } => text,
        }
    }
}

/// A request to order documents.
#[derive(Debug)]
pub struct RerankRequest {
    pub model: Option<String>,
    pub query: String,
    pub documents: Vec<RerankDocument>,
    /// The most results; all where it is absent.
    pub top_n: Option<usize>,
    /// Whether each result carries its document.
    pub return_documents: bool,
    pub normalize: Option<NormalizeMode>,
}

/// A document in a response.
#[derive(Debug, PartialEq)]
pub struct RerankDocumentEcho {
    pub text: String,
}

/// One result.
#[derive(Debug, PartialEq)]
pub struct RerankResult {
    /// The document's place in the request.
    pub index: usize,
    /// Its score (a bit pattern).
    pub relevance_score: u32,
    pub document: Option<RerankDocumentEcho>,
}

/// The response to a request.
#[derive(Debug)]
pub struct RerankResponse {
    pub id: String,
    pub model: String,
    pub results: Vec<RerankResult>,
}

/// The place of a score in the total order of floating-point numbers: from
/// the negative NaNs over the negative numbers, minus zero, zero and the
/// positive numbers to the positive NaNs.
pub open spec fn score_key(bits: u32) -> u64 {
    if bits < 0x8000_0000 {
        (bits + 0x8000_0000) as u64
    } else {
        (0xffff_ffff - bits) as u64
    }
}

/// The places of some scores.
pub open spec fn score_keys(scores: Seq<u32>) -> Seq<u64> {
    scores.map_values(|s: u32| score_key(s))
}

/// How many results there are.
pub open spec fn result_count(n: nat, top_n: Option<usize>) -> nat {
    match top_n {
        Some(k) => if k < n {
            k as nat
        } else {
            n
        },
        None => n,
    }
}

/// The result of the document at `i`.
pub open spec fn is_result(
    r: RerankResult,
    i: usize,
    scores: Seq<u32>,
    documents: Option<Seq<String>>,
) -> bool {
    &&& r.index == i
    &&& r.relevance_score == scores[i as int]
    &&& match (r.document, documents) {
        (Some(echo), Some(docs)) => echo.text@ == docs[i as int]@,
        (None, None) => true,
        _ => false,
    }
}

/// The results stand in the given order of the documents, cut after `top_n`.
pub open spec fn follows(
    results: Seq<RerankResult>,
    order: Seq<usize>,
    scores: Seq<u32>,
    top_n: Option<usize>,
    documents: Option<Seq<String>>,
) -> bool {
    &&& results.len() == result_count(order.len(), top_n)
    &&& forall|k: int|
        0 <= k < results.len() ==> is_result(
            #[trigger] results[k],
            order[k],
            scores,
            documents,
        )
}

/// The documents of an optional list.
pub open spec fn listed(documents: Option<&Vec<String>>) -> Option<Seq<String>> {
    match documents {
        Some(d) => Some(d@),
        None => None,
    }
}

fn key_of(bits: u32) -> (r: u64)
    ensures
        r == score_key(bits),
{
    if bits < 0x8000_0000 {
        bits as u64 + 0x8000_0000
    } else {
        0xffff_ffff - bits as u64
    }
}

/// Orders the documents by descending score, keeps the first `top_n`, and
/// gives each its text where that is wanted. Documents of equal scores stay in
/// the order of the request.
pub fn build_sorted_results(
    scores: &Vec<u32>,
    top_n: Option<usize>,
    documents: Option<&Vec<String>>,
) -> (r: Vec<RerankResult>)
    requires
        documents matches Some(d) ==> d@.len() >= scores@.len(),
    ensures
        exists|order: Seq<usize>| #[trigger]
            is_descending(order, score_keys(scores@)) && follows(
                r@,
                order,
                scores@,
                top_n,
                listed(documents),
            ),
{
    let mut keys: Vec<u64> = Vec::new();
    let mut i: usize = 0;
    while i < scores.len()
        invariant
            i <= scores.len(),
            keys@ == score_keys(scores@.take(i as int)),
        decreases scores.len() - i,
    {
        keys.push(key_of(scores[i]));
        proof {
            assert(score_keys(scores@.take(i + 1)) =~= score_keys(scores@.take(i as int)).push(
                score_key(scores@[i as int]),
            ));
        }
        i = i + 1;
    }
    assert(scores@.take(i as int) =~= scores@);
    let order: Vec<usize> = descending_order(&keys);
    let count: usize = match top_n {
        Some(k) => if k < order.len() {
            k
        } else {
            order.len()
        },
        None => order.len(),
    };
    let mut results: Vec<RerankResult> = Vec::new();
    let mut k: usize = 0;
    while k < count
        invariant
            k <= count,
            count <= order@.len(),
            is_descending(order@, score_keys(scores@)),
            documents matches Some(d) ==> d@.len() >= scores@.len(),
            results@.len() == k,
            forall|j: int|
                0 <= j < k ==> is_result(
                    #[trigger] results@[j],
                    order@[j],
                    scores@,
                    listed(documents),
                ),
        decreases count - k,
    {
        let index: usize = order[k];
        let document: Option<RerankDocumentEcho> = match documents {
            Some(d) => Some(RerankDocumentEcho { text: d[index].clone() }),
            None => None,
        };
        results.push(RerankResult { index, relevance_score: scores[index], document });
        k = k + 1;
    }
    assert(follows(results@, order@, scores@, top_n, listed(documents)));
    results
}

/// Scores are ordered as floating-point numbers are: of two scores without a sign
/// the larger pattern is the larger score, of two with a sign the smaller one,
/// and every score with a sign is less than every one without. Different scores
/// are never taken for equal.
pub proof fn law_scores_are_ordered_as_numbers(a: u32, b: u32)
    ensures
        a < 0x8000_0000 && b < 0x8000_0000 ==> (score_key(a) < score_key(b) <==> a < b),
        a >= 0x8000_0000 && b >= 0x8000_0000 ==> (score_key(a) < score_key(b) <==> a > b),
        a >= 0x8000_0000 && b < 0x8000_0000 ==> score_key(a) < score_key(b),
        a < 0x8000_0000 && b >= 0x8000_0000 ==> score_key(a) > score_key(b),
        score_key(a) == score_key(b) <==> a == b,
{
}

/// The results are the best ones, the best first: no result, and no document
/// that was cut off, has a higher score than a result before it, no document
/// occurs twice, and documents of the same score stay in the order of the
/// request. A score is the higher of two by its sign and its pattern.
pub proof fn law_best_documents_come_first(
    results: Seq<RerankResult>,
    order: Seq<usize>,
    scores: Seq<u32>,
    top_n: Option<usize>,
    documents: Option<Seq<String>>,
    k: int,
)
    requires
        is_descending(order, score_keys(scores)),
        scores.len() <= usize::MAX,
        follows(results, order, scores, top_n, documents),
        0 <= k < results.len(),
    ensures
        forall|j: int|
            0 <= j < k ==> {
                let a: u32 = (#[trigger] results[j]).relevance_score;
                let b: u32 = results[k].relevance_score;
                &&& results[j].index != results[k].index
                &&& a < 0x8000_0000 && b < 0x8000_0000 ==> a >= b
                &&& a >= 0x8000_0000 ==> b >= 0x8000_0000 && a <= b
                &&& a == b ==> results[j].index < results[k].index
            },
        forall|i: int|
            0 <= i < scores.len() && (forall|j: int|
                0 <= j < results.len() ==> (#[trigger] results[j]).index != i) ==> {
                let a: u32 = results[k].relevance_score;
                let b: u32 = #[trigger] scores[i];
                &&& a < 0x8000_0000 && b < 0x8000_0000 ==> a >= b
                &&& a >= 0x8000_0000 ==> b >= 0x8000_0000 && a <= b
                &&& a == b ==> results[k].index < i
            },
{
    let keys: Seq<u64> = score_keys(scores);
    assert(is_result(results[k], order[k], scores, documents));
    assert(order[k] < keys.len());
    assert forall|j: int| 0 <= j < k implies ({
        let a: u32 = (#[trigger] results[j]).relevance_score;
        let b: u32 = results[k].relevance_score;
        &&& results[j].index != results[k].index
        &&& a < 0x8000_0000 && b < 0x8000_0000 ==> a >= b
        &&& a >= 0x8000_0000 ==> b >= 0x8000_0000 && a <= b
        &&& a == b ==> results[j].index < results[k].index
    }) by {
        assert(is_result(results[j], order[j], scores, documents));
        assert(order[j] < keys.len());
        assert(precedes(keys, order[j], order[k]));
        law_scores_are_ordered_as_numbers(results[j].relevance_score, results[k].relevance_score);
    }
    assert forall|i: int|
        0 <= i < scores.len() && (forall|j: int|
            0 <= j < results.len() ==> (#[trigger] results[j]).index != i) implies ({
        let a: u32 = results[k].relevance_score;
        let b: u32 = #[trigger] scores[i];
        &&& a < 0x8000_0000 && b < 0x8000_0000 ==> a >= b
        &&& a >= 0x8000_0000 ==> b >= 0x8000_0000 && a <= b
        &&& a == b ==> results[k].index < i
    }) by {
        assert(order.contains(i as usize));
        let q: int = choose|q: int| 0 <= q < order.len() && order[q] == i as usize;
        if q < results.len() {
            assert(is_result(results[q], order[q], scores, documents));
        }
        assert(precedes(keys, order[k], order[q]));
        assert(keys[i] == score_key(scores[i]));
        law_scores_are_ordered_as_numbers(results[k].relevance_score, scores[i]);
    }
}

/// Each result is about one document of the request: its place, its own score,
/// and its text exactly where texts are wanted. There is a result for every
/// document, but no more than `top_n`.
pub proof fn law_results_are_of_the_documents(
    results: Seq<RerankResult>,
    order: Seq<usize>,
    scores: Seq<u32>,
    top_n: Option<usize>,
    documents: Option<Seq<String>>,
    k: int,
)
    requires
        is_descending(order, score_keys(scores)),
        follows(results, order, scores, top_n, documents),
        0 <= k < results.len(),
    ensures
        results[k].index < scores.len(),
        results[k].relevance_score == scores[results[k].index as int],
        documents is None <==> results[k].document is None,
        documents matches Some(docs) ==> (results[k].document matches Some(echo) && echo.text@
            == docs[results[k].index as int]@),
        results.len() <= scores.len(),
        top_n matches Some(n) ==> results.len() <= n,
        results.len() == scores.len() || top_n == Some(results.len() as usize),
{
    assert(is_result(results[k], order[k], scores, documents));
    assert(order[k] < scores.len());
}

/// How many results there are: as many as documents, or as many as wanted where
/// that is less.
pub proof fn law_result_count(n: nat, top_n: Option<usize>)
    ensures
        top_n is None ==> result_count(n, top_n) == n,
        top_n matches Some(k) ==> result_count(n, top_n) <= k && result_count(n, top_n) <= n && (
        result_count(n, top_n) == k || result_count(n, top_n) == n),
{
}

/// Chooses the reranker that a request means: the one that it names, or the
/// only one. `names` holds the name of each reranker once.
pub fn resolve_reranker_name(names: &Vec<String>, req_model: Option<String>) -> (r: Result<
    String,
    String,
>)
    ensures
        match (r, reranker_choice(names_view(names@), req_model)) {
            (Ok(name), Ok(n)) => name@ == n,
            (Err(e), Err(m)) => e@ == m,
            _ => false,
        },
{
    choose_model(names, req_model, "reranker", "reranker", "rerankers")
}

/// The reranker that a request means.
pub open spec fn reranker_choice(names: Seq<Seq<char>>, req_model: Option<String>) -> Result<
    Seq<char>,
    Seq<char>,
> {
    chosen(
        names,
        match req_model {
            Some(name) => Some(name@),
            None => None,
        },
        "reranker"@,
        "reranker"@,
        "rerankers"@,
    )
}

/// The updates for a request that has been answered.
pub open spec fn rerank_updates(
    model: Seq<char>,
    status: Seq<char>,
    nanos: u128,
    documents: usize,
) -> Seq<UpdateView> {
    seq![
        of_model_and(
            "embed_rerank_requests_total"@,
            model,
            "status"@,
            status,
            Change::CounterIncrement(1),
        ),
        of_model(
            "embed_rerank_request_duration_seconds"@,
            model,
            Change::HistogramRecord(Amount::Seconds { nanos }),
        ),
        of_model(
            "embed_rerank_pairs_per_request"@,
            model,
            Change::HistogramRecord(Amount::Whole(documents as u128)),
        ),
    ]
}

fn note_rerank(log: &mut MetricLog, model: &str, status: &str, nanos: u128, documents: usize)
    ensures
        final(log)@ == old(log)@ + rerank_updates(model@, status@, nanos, documents),
{
    record_rerank_request(log, model, status, nanos, documents);
    assert(log@ =~= old(log)@ + rerank_updates(model@, status@, nanos, documents));
}

/// Why a request is refused before anything is done for it; `None` where it is
/// not. A request is let in by a permit, where permits are handed out.
pub open spec fn rerank_refusal(
    req: RerankRequest,
    permitted: bool,
    is_draining: bool,
    names: Seq<Seq<char>>,
    cap: usize,
) -> Option<RefusalView> {
    if !permitted {
        Some(overloaded("rerank concurrency cap reached"@))
    } else if is_draining {
        Some(draining())
    } else if trimmed(req.query@).len() == 0 {
        Some(wrong_request("query must not be empty"@))
    } else if req.documents@.len() == 0 {
        Some(wrong_request("documents must not be empty"@))
    } else if req.documents@.len() > cap {
        Some(
            over_cap(
                "documents"@,
                "documents_too_many"@,
                req.documents@.len() as usize,
                cap,
            ),
        )
    } else {
        match reranker_choice(names, req.model) {
            Ok(_) => None,
            Err(m) => Some(wrong_request(m)),
        }
    }
}

/// What the checks of a request record. A request that is let in is in flight
/// from then on.
pub open spec fn rerank_check_updates(
    req: RerankRequest,
    permitted: bool,
    is_draining: bool,
    names: Seq<Seq<char>>,
    cap: usize,
    nanos: u128,
) -> Seq<UpdateView> {
    let unknown: Seq<char> = "unknown"@;
    let n: nat = req.documents@.len();
    let size: UpdateView = of_model(
        "embed_rerank_input_docs_size"@,
        unknown,
        Change::HistogramRecord(Amount::Whole(n as u128)),
    );
    if !permitted {
        rerank_updates(unknown, "rate_limited"@, nanos, 0)
    } else if is_draining {
        rerank_updates(unknown, "shutdown"@, nanos, 0)
    } else if trimmed(req.query@).len() == 0 || n == 0 {
        rerank_updates(unknown, "bad_request"@, nanos, 0)
    } else if n > cap {
        seq![
            size,
            of_model_and(
                "embed_rerank_input_docs_rejected_total"@,
                unknown,
                "reason"@,
                "size_cap"@,
                Change::CounterIncrement(1),
            ),
        ] + rerank_updates(unknown, "bad_request"@, nanos, n as usize)
    } else {
        match reranker_choice(names, req.model) {
            Err(_) => seq![size] + rerank_updates(unknown, "bad_request"@, nanos, 0),
            Ok(model) => seq![
                size,
                of_model("embed_rerank_in_flight"@, model, Change::GaugeIncrement(1)),
            ],
        }
    }
}

/// A request that has passed the checks.
#[derive(Debug)]
pub struct RerankJob {
    pub model: String,
    pub query: String,
    pub documents: Vec<String>,
    pub top_n: Option<usize>,
    pub return_documents: bool,
    pub normalize: NormalizeMode,
    /// Counts the request as one in flight.
    pub guard: RerankInFlightGuard,
}

impl RerankJob {
    /// The request is counted as one of its model.
    pub open spec fn wf(&self) -> bool {
        self.guard.model() == self.model@
    }

    /// What the end of the request records: its outcome, and that it is no
    /// longer in flight.
    pub open spec fn end_updates(&self, status: Seq<char>, nanos: u128) -> Seq<UpdateView> {
        rerank_updates(self.model@, status, nanos, self.documents@.len() as usize).push(
            of_model("embed_rerank_in_flight"@, self.model@, Change::GaugeDecrement(1)),
        )
    }

    fn finish(self, status: &str, nanos: u128, log: &mut MetricLog)
        requires
            self.wf(),
        ensures
            final(log)@ == old(log)@ + self.end_updates(status@, nanos),
    {
        note_rerank(log, self.model.as_str(), status, nanos, self.documents.len());
        self.guard.release(log);
        assert(log@ =~= old(log)@ + self.end_updates(status@, nanos));
    }
}

fn texts_of(documents: Vec<RerankDocument>) -> (r: Vec<String>)
    ensures
        r@ == documents@.map_values(|d: RerankDocument| d.words()),
{
    let ghost all: Seq<RerankDocument> = documents@;
    let mut out: Vec<String> = Vec::new();
    for d in it: documents
        invariant
            it.seq() == all,
            out@ == all.take(it.index()).map_values(|d: RerankDocument| d.words()),
    {
        proof {
            assert(all.take(it.index() + 1).map_values(|d: RerankDocument| d.words())
                =~= all.take(it.index()).map_values(|d: RerankDocument| d.words()).push(
                d.words(),
            ));
        }
        out.push(d.into_text());
    }
    assert(all.take(all.len() as int) =~= all);
    out
}

/// Checks a request: there must be a permit for it, the server must not be
/// about to stop, there must be a query and documents, not too many of them,
/// and the reranker must be clear.
pub fn check_rerank(
    req: RerankRequest,
    permitted: bool,
    is_draining: bool,
    names: &Vec<String>,
    cap: usize,
    nanos: u128,
    log: &mut MetricLog,
) -> (r: Result<RerankJob, Refusal>)
    ensures
        match (r, rerank_refusal(req, permitted, is_draining, names_view(names@), cap)) {
            (Ok(job), None) => {
                &&& job.wf()
                &&& Ok::<Seq<char>, Seq<char>>(job.model@) == reranker_choice(
                    names_view(names@),
                    req.model,
                )
                &&& job.query == req.query
                &&& job.documents@ == req.documents@.map_values(|d: RerankDocument| d.words())
                &&& job.top_n == req.top_n
                &&& job.return_documents == req.return_documents
                &&& job.normalize == match req.normalize {
                    Some(m) => m,
                    None => NormalizeMode::Sigmoid,
                }
            },
            (Err(e), Some(v)) => e@ == v,
            _ => false,
        },
        final(log)@ == old(log)@ + rerank_check_updates(
            req,
            permitted,
            is_draining,
            names_view(names@),
            cap,
            nanos,
        ),
{
    if !permitted {
        note_rerank(log, "unknown", "rate_limited", nanos, 0);
        return Err(rate_limited_response("rerank concurrency cap reached".to_owned()));
    }
    if is_draining {
        note_rerank(log, "unknown", "shutdown", nanos, 0);
        return Err(shutting_down());
    }
    if trim(req.query.as_str()).unicode_len() == 0 {
        note_rerank(log, "unknown", "bad_request", nanos, 0);
        return Err(error_json("query must not be empty".to_owned()));
    }
    let n: usize = req.documents.len();
    if n == 0 {
        note_rerank(log, "unknown", "bad_request", nanos, 0);
        return Err(error_json("documents must not be empty".to_owned()));
    }
    record_rerank_input_docs_size(log, n);
    if n > cap {
        record_rerank_input_docs_rejected(log, "size_cap");
        note_rerank(log, "unknown", "bad_request", nanos, n);
        assert(log@ =~= old(log)@ + rerank_check_updates(
            req,
            permitted,
            is_draining,
            names_view(names@),
            cap,
            nanos,
        ));
        return Err(too_many("documents", "documents_too_many", n, cap));
    }
    match resolve_reranker_name(names, req.model) {
        Err(m) => {
            note_rerank(log, "unknown", "bad_request", nanos, 0);
            assert(log@ =~= old(log)@ + rerank_check_updates(
                req,
                permitted,
                is_draining,
                names_view(names@),
                cap,
                nanos,
            ));
            Err(error_json(m))
        },
        Ok(model) => {
            let guard: RerankInFlightGuard = RerankInFlightGuard::new(log, model.as_str());
            assert(log@ =~= old(log)@ + rerank_check_updates(
                req,
                permitted,
                is_draining,
                names_view(names@),
                cap,
                nanos,
            ));
            let normalize: NormalizeMode = match req.normalize {
                Some(m) => m,
                None => NormalizeMode::Sigmoid,
            };
            Ok(
                RerankJob {
                    model,
                    query: req.query,
                    documents: texts_of(req.documents),
                    top_n: req.top_n,
                    return_documents: req.return_documents,
                    normalize,
                    guard,
                },
            )
        },
    }
}

/// The list of the positions without tokens, ascending.
pub open spec fn lists_missing(missing: Seq<usize>, slots: Seq<Option<Vec<u32>>>) -> bool {
    &&& forall|a: int, b: int| 0 <= a < b < missing.len() ==> #[trigger] missing[a]
        < #[trigger] missing[b]
    &&& forall|a: int|
        0 <= a < missing.len() ==> #[trigger] missing[a] < slots.len()
            && slots[missing[a] as int] is None
    &&& forall|i: int|
        0 <= i < slots.len() && (#[trigger] slots[i]) is None ==> missing.contains(i as usize)
}

/// The positions whose pair the token cache does not know. Each position
/// counts as a hit or as a miss.
pub fn find_missing(model: &str, slots: &Vec<Option<Vec<u32>>>, log: &mut MetricLog) -> (r: Vec<
    usize,
>)
    ensures
        lists_missing(r@, slots@),
        r@.len() <= slots@.len(),
        final(log)@ == old(log)@.push(
            of_model_and(
                "embed_token_cache_total"@,
                model@,
                "outcome"@,
                "hit"@,
                Change::CounterIncrement((slots@.len() - r@.len()) as u64),
            ),
        ).push(
            of_model_and(
                "embed_token_cache_total"@,
                model@,
                "outcome"@,
                "miss"@,
                Change::CounterIncrement(r@.len() as u64),
            ),
        ),
{
    let mut missing: Vec<usize> = Vec::new();
    let mut i: usize = 0;
    while i < slots.len()
        invariant
            i <= slots.len(),
            missing@.len() <= i,
            lists_missing(missing@, slots@.take(i as int)),
        decreases slots.len() - i,
    {
        let ghost before: Seq<usize> = missing@;
        let ghost now: Seq<Option<Vec<u32>>> = slots@.take(i + 1);
        proof {
            assert(forall|j: int| 0 <= j < i ==> now[j] == slots@.take(i as int)[j]);
        }
        if slots[i].is_none() {
            missing.push(i);
            proof {
                assert forall|j: int| 0 <= j < now.len() && (
                #[trigger] now[j]) is None implies missing@.contains(j as usize) by {
                    if j < i {
                        assert(slots@.take(i as int)[j] is None);
                        assert(before.contains(j as usize));
                        let a: int = choose|a: int|
                            0 <= a < before.len() && before[a] == j as usize;
                        assert(missing@[a] == j as usize);
                    } else {
                        assert(missing@[before.len() as int] == i);
                    }
                }
                assert forall|a: int| 0 <= a < missing@.len() implies #[trigger] missing@[a]
                    < now.len() && now[missing@[a] as int] is None by {
                    if a < before.len() {
                        assert(missing@[a] == before[a]);
                        assert(slots@.take(i as int)[before[a] as int] is None);
                    }
                }
            }
        } else {
            proof {
                assert forall|j: int| 0 <= j < now.len() && (
                #[trigger] now[j]) is None implies missing@.contains(j as usize) by {
                    assert(j < i);
                    assert(slots@.take(i as int)[j] is None);
                }
                assert forall|a: int| 0 <= a < missing@.len() implies #[trigger] missing@[a]
                    < now.len() && now[missing@[a] as int] is None by {
                    assert(slots@.take(i as int)[before[a] as int] is None);
                }
            }
        }
        i = i + 1;
    }
    assert(slots@.take(i as int) =~= slots@);
    record_token_cache_hit(log, model, (slots.len() - missing.len()) as u64);
    record_token_cache_miss(log, model, missing.len() as u64);
    missing
}

/// The documents at the given positions.
pub fn documents_at(documents: &Vec<String>, positions: &Vec<usize>) -> (r: Vec<String>)
    requires
        forall|a: int| 0 <= a < positions@.len() ==> #[trigger] positions@[a] < documents@.len(),
    ensures
        r@.len() == positions@.len(),
        forall|a: int|
            0 <= a < r@.len() ==> (#[trigger] r@[a])@ == documents@[positions@[a] as int]@,
{
    let mut out: Vec<String> = Vec::new();
    let mut a: usize = 0;
    while a < positions.len()
        invariant
            a <= positions.len(),
            forall|b: int|
                0 <= b < positions@.len() ==> #[trigger] positions@[b] < documents@.len(),
            out@.len() == a,
            forall|b: int|
                0 <= b < a ==> (#[trigger] out@[b])@ == documents@[positions@[b] as int]@,
        decreases positions.len() - a,
    {
        out.push(documents[positions[a]].clone());
        a = a + 1;
    }
    out
}

fn copy_of(v: &Vec<u32>) -> (r: Vec<u32>)
    ensures
        r@ == v@,
{
    let r: Vec<u32> = v.clone();
    assert(r@ =~= v@);
    r
}

/// The tokens of every document, in the order of the request: those from the
/// cache, and for the others those of the tokenizer, which were made in the
/// order of the list.
pub fn merge_tokens(
    slots: &Vec<Option<Vec<u32>>>,
    missing: &Vec<usize>,
    fresh: &Vec<Vec<u32>>,
) -> (r: Vec<Vec<u32>>)
    requires
        lists_missing(missing@, slots@),
        fresh@.len() >= missing@.len(),
    ensures
        r@.len() == slots@.len(),
        forall|i: int|
            0 <= i < r@.len() ==> (slots@[i] matches Some(v) ==> (#[trigger] r@[i])@ == v@),
        forall|a: int|
            0 <= a < missing@.len() ==> r@[#[trigger] missing@[a] as int]@ == fresh@[a]@,
{
    let mut out: Vec<Vec<u32>> = Vec::new();
    let mut i: usize = 0;
    let mut a: usize = 0;
    while i < slots.len()
        invariant
            i <= slots.len(),
            a <= missing.len(),
            lists_missing(missing@, slots@),
            fresh@.len() >= missing@.len(),
            forall|b: int| 0 <= b < a ==> #[trigger] missing@[b] < i,
            forall|b: int| a <= b < missing@.len() ==> #[trigger] missing@[b] >= i,
            out@.len() == i,
            forall|j: int|
                0 <= j < i ==> (slots@[j] matches Some(v) ==> (#[trigger] out@[j])@ == v@),
            forall|b: int| 0 <= b < a ==> out@[#[trigger] missing@[b] as int]@ == fresh@[b]@,
        decreases slots.len() - i,
    {
        match &slots[i] {
            Some(v) => {
                out.push(copy_of(v));
                proof {
                    assert forall|b: int| a <= b < missing@.len() implies #[trigger] missing@[b]
                        >= i + 1 by {
                        assert(slots@[missing@[b] as int] is None);
                    }
                }
            },
            None => {
                proof {
                    assert(missing@.contains(i));
                    let b: int = choose|b: int| 0 <= b < missing@.len() && missing@[b] == i;
                    assert(b >= a);
                    if b > a {
                        assert(missing@[a as int] < missing@[b]);
                    }
                    assert(missing@[a as int] == i);
                }
                out.push(copy_of(&fresh[a]));
                a = a + 1;
                proof {
                    assert forall|b: int| a <= b < missing@.len() implies #[trigger] missing@[b]
                        >= i + 1 by {
                        assert(missing@[a - 1] < missing@[b]);
                    }
                }
            },
        }
        i = i + 1;
    }
    proof {
        if a < missing@.len() {
            assert(missing@[a as int] < slots@.len());
        }
    }
    out
}

/// How long the tokenizer took for the pairs that the cache did not know.
pub fn note_tokenized(job: &RerankJob, nanos: u128, log: &mut MetricLog)
    ensures
        final(log)@ == old(log)@.push(
            of_model(
                "embed_rerank_tokenizer_duration_seconds"@,
                job.model@,
                Change::HistogramRecord(Amount::Seconds { nanos }),
            ),
        ),
{
    record_rerank_tokenizer(log, job.model.as_str(), nanos);
}

/// Refuses a request whose pairs could not be tokenized.
pub fn refuse_untokenized_pairs(
    job: RerankJob,
    why: TokenizeFailure,
    nanos: u128,
    log: &mut MetricLog,
) -> (r: Refusal)
    requires
        job.wf(),
    ensures
        r@ == failed(tokenize_words(why)),
        final(log)@ == old(log)@ + job.end_updates("server_error"@, nanos),
{
    job.finish("server_error", nanos, log);
    server_error(tokenize_message(why))
}

/// Why there are no scores.
#[derive(Debug)]
pub enum InferenceError {
    QueueFull(String),
    Inference(String),
    Shutdown,
    ShapeMismatch(String),
    Panic(String),
}

/// What [`InferenceError`] says.
pub enum InferenceErrorView {
    QueueFull(Seq<char>),
    Inference(Seq<char>),
    Shutdown,
    ShapeMismatch(Seq<char>),
    Panic(Seq<char>),
}

impl View for InferenceError {
    type V = InferenceErrorView;

    open spec fn view(&self) -> InferenceErrorView {
        match self {
            InferenceError::QueueFull(m) => InferenceErrorView::QueueFull(m@),
            InferenceError::Inference(m) => InferenceErrorView::Inference(m@),
            InferenceError::Shutdown => InferenceErrorView::Shutdown,
            InferenceError::ShapeMismatch(m) => InferenceErrorView::ShapeMismatch(m@),
            InferenceError::Panic(m) => InferenceErrorView::Panic(m@),
        }
    }
}

/// How the inference for a request ended, by the way it took.
#[derive(Debug)]
pub enum ScoreOutcome {
    /// In a batch with other requests: a row for each document.
    Batched(Result<Vec<Vec<u32>>, BatchError>),
    /// By itself: scores or an error, or what is known of a task that broke
    /// down.
    Direct(Result<Result<Vec<u32>, String>, String>),
}

/// The first row that does not hold exactly one score.
pub open spec fn first_bad_row(rows: Seq<Vec<u32>>) -> Option<int>
    decreases rows.len(),
{
    if rows.len() == 0 {
        None
    } else {
        match first_bad_row(rows.drop_last()) {
            Some(i) => Some(i),
            None => if rows.last()@.len() != 1 {
                Some(rows.len() - 1)
            } else {
                None
            },
        }
    }
}

/// The scores of a batch: there must be as many rows as expected, of one score
/// each.
pub open spec fn scalar_rows(rows: Seq<Vec<u32>>, expected: nat) -> Result<Seq<u32>, Seq<char>> {
    if rows.len() != expected {
        Err(
            "batcher returned "@ + decimal(rows.len()) + " rows, expected "@ + decimal(expected),
        )
    } else {
        match first_bad_row(rows) {
            Some(i) => Err(
                "rerank row "@ + decimal(i as nat) + ": expected 1-element score vec, got "@
                    + decimal(rows[i]@.len()),
            ),
            None => Ok(Seq::new(rows.len(), |i: int| rows[i]@[0])),
        }
    }
}

proof fn lemma_bad_row_stays(rows: Seq<Vec<u32>>, n: int)
    requires
        0 <= n <= rows.len(),
        first_bad_row(rows.take(n)) is Some,
    ensures
        first_bad_row(rows) == first_bad_row(rows.take(n)),
    decreases rows.len() - n,
{
    if n == rows.len() {
        assert(rows.take(n) =~= rows);
    } else {
        assert(rows.take(n + 1).drop_last() =~= rows.take(n));
        lemma_bad_row_stays(rows, n + 1);
    }
}

/// The scores of a batch, or what is wrong with its rows.
pub fn unwrap_scalar_batch(batched: &Vec<Vec<u32>>, expected: usize) -> (r: Result<
    Vec<u32>,
    String,
>)
    ensures
        match (r, scalar_rows(batched@, expected as nat)) {
            (Ok(v), Ok(s)) => v@ == s,
            (Err(e), Err(m)) => e@ == m,
            _ => false,
        },
{
    if batched.len() != expected {
        let mut m: String = "batcher returned ".to_owned();
        push_decimal(&mut m, batched.len() as u64);
        m.append(" rows, expected ");
        push_decimal(&mut m, expected as u64);
        return Err(m);
    }
    let mut out: Vec<u32> = Vec::new();
    let mut i: usize = 0;
    while i < batched.len()
        invariant
            i <= batched.len(),
            batched@.len() == expected,
            first_bad_row(batched@.take(i as int)) is None,
            out@ == Seq::new(i as nat, |j: int| batched@[j]@[0]),
        decreases batched.len() - i,
    {
        proof {
            assert(batched@.take(i + 1).drop_last() =~= batched@.take(i as int));
        }
        if batched[i].len() != 1 {
            proof {
                lemma_bad_row_stays(batched@, i + 1);
            }
            let mut m: String = "rerank row ".to_owned();
            push_decimal(&mut m, i as u64);
            m.append(": expected 1-element score vec, got ");
            push_decimal(&mut m, batched[i].len() as u64);
            return Err(m);
        }
        out.push(batched[i][0]);
        assert(out@ =~= Seq::new((i + 1) as nat, |j: int| batched@[j]@[0]));
        i = i + 1;
    }
    assert(batched@.take(i as int) =~= batched@);
    Ok(out)
}

/// The scores of an inference, or why there are none.
pub open spec fn outcome_scores(outcome: ScoreOutcome, doc_count: nat) -> Result<
    Seq<u32>,
    InferenceErrorView,
> {
    match outcome {
        ScoreOutcome::Batched(Ok(rows)) => match scalar_rows(rows@, doc_count) {
            Ok(s) => Ok(s),
            Err(m) => Err(InferenceErrorView::ShapeMismatch(m)),
        },
        ScoreOutcome::Batched(Err(BatchError::QueueFull(e))) => Err(
            InferenceErrorView::QueueFull(e.words()),
        ),
        ScoreOutcome::Batched(Err(BatchError::Inference(m))) => Err(
            InferenceErrorView::Inference(m@),
        ),
        ScoreOutcome::Batched(Err(BatchError::Shutdown)) => Err(InferenceErrorView::Shutdown),
        ScoreOutcome::Direct(Ok(Ok(s))) => Ok(s@),
        ScoreOutcome::Direct(Ok(Err(e))) => Err(InferenceErrorView::Inference(e@)),
        ScoreOutcome::Direct(Err(e)) => Err(
            InferenceErrorView::Panic("score task panicked: "@ + e@),
        ),
    }
}

/// Takes the scores of an inference, or says why there are none.
pub fn dispatch_inference(outcome: ScoreOutcome, doc_count: usize) -> (r: Result<
    Vec<u32>,
    InferenceError,
>)
    ensures
        match (r, outcome_scores(outcome, doc_count as nat)) {
            (Ok(v), Ok(s)) => v@ == s,
            (Err(e), Err(f)) => e@ == f,
            _ => false,
        },
{
    match outcome {
        ScoreOutcome::Batched(Ok(rows)) => match unwrap_scalar_batch(&rows, doc_count) {
            Ok(s) => Ok(s),
            Err(m) => Err(InferenceError::ShapeMismatch(m)),
        },
        ScoreOutcome::Batched(Err(BatchError::QueueFull(e))) => Err(
            InferenceError::QueueFull(e.message()),
        ),
        ScoreOutcome::Batched(Err(BatchError::Inference(m))) => Err(InferenceError::Inference(m)),
        ScoreOutcome::Batched(Err(BatchError::Shutdown)) => Err(InferenceError::Shutdown),
        ScoreOutcome::Direct(Ok(Ok(s))) => Ok(s),
        ScoreOutcome::Direct(Ok(Err(e))) => Err(InferenceError::Inference(e)),
        ScoreOutcome::Direct(Err(e)) => {
            let mut m: String = "score task panicked: ".to_owned();
            m.append(e.as_str());
            Err(InferenceError::Panic(m))
        },
    }
}

/// What the client is told, and under which status the request is recorded.
pub open spec fn error_refusal(e: InferenceErrorView) -> (RefusalView, Seq<char>) {
    match e {
        InferenceErrorView::QueueFull(m) => (overloaded(m), "rate_limited"@),
        InferenceErrorView::Inference(m) => (failed(m), "server_error"@),
        InferenceErrorView::Shutdown => (stopped(), "shutdown"@),
        InferenceErrorView::ShapeMismatch(m) => (failed(m), "server_error"@),
        InferenceErrorView::Panic(m) => (failed(m), "server_error"@),
    }
}

/// Refuses a request for which there are no scores.
pub fn refuse_unscored(job: RerankJob, e: InferenceError, nanos: u128, log: &mut MetricLog) -> (r:
    Refusal)
    requires
        job.wf(),
    ensures
        r@ == error_refusal(e@).0,
        final(log)@ == old(log)@ + job.end_updates(error_refusal(e@).1, nanos),
{
    match e {
        InferenceError::QueueFull(m) => {
            job.finish("rate_limited", nanos, log);
            rate_limited_response(m)
        },
        InferenceError::Shutdown => {
            job.finish("shutdown", nanos, log);
            batcher_stopped()
        },
        InferenceError::Inference(m) => {
            job.finish("server_error", nanos, log);
            server_error(m)
        },
        InferenceError::ShapeMismatch(m) => {
            job.finish("server_error", nanos, log);
            server_error(m)
        },
        InferenceError::Panic(m) => {
            job.finish("server_error", nanos, log);
            server_error(m)
        },
    }
}

/// The scores after their normalization: `squash` gives the squashed score.
pub open spec fn normalized<F: Fn(u32) -> u32>(
    before: Seq<u32>,
    after: Seq<u32>,
    mode: NormalizeMode,
    squash: &F,
) -> bool {
    &&& after.len() == before.len()
    &&& match mode {
        NormalizeMode::Raw => after == before,
        NormalizeMode::Sigmoid => forall|i: int|
            0 <= i < before.len() ==> call_ensures(squash, (before[i],), #[trigger] after[i]),
    }
}

/// Normalizes scores.
pub fn apply_normalize<F: Fn(u32) -> u32>(
    scores: &Vec<u32>,
    mode: NormalizeMode,
    squash: &F,
) -> (r: Vec<u32>)
    requires
        forall|s: u32| call_requires(squash, (s,)),
    ensures
        normalized(scores@, r@, mode, squash),
{
    match mode {
        NormalizeMode::Raw => copy_of(scores),
        NormalizeMode::Sigmoid => {
            let mut out: Vec<u32> = Vec::new();
            let mut i: usize = 0;
            while i < scores.len()
                invariant
                    i <= scores.len(),
                    forall|s: u32| call_requires(squash, (s,)),
                    out@.len() == i,
                    forall|j: int|
                        0 <= j < i ==> call_ensures(squash, (scores@[j],), #[trigger] out@[j]),
                decreases scores.len() - i,
            {
                let s: u32 = squash(scores[i]);
                out.push(s);
                i = i + 1;
            }
            out
        },
    }
}

/// The id of a response: a prefix and the nanoseconds of its time.
pub fn opaque_request_id(nanos_since_epoch: u128) -> (r: String)
    ensures
        r@ == "rrk_"@ + hexadecimal(nanos_since_epoch as nat),
{
    let mut id: String = "rrk_".to_owned();
    push_hexadecimal(&mut id, nanos_since_epoch);
    id
}

/// Answers a request with its scores: there must be one for each document.
pub fn rank<F: Fn(u32) -> u32>(
    job: RerankJob,
    scores: Vec<u32>,
    squash: &F,
    nanos_since_epoch: u128,
    nanos: u128,
    log: &mut MetricLog,
) -> (r: Result<RerankResponse, Refusal>)
    requires
        job.wf(),
        forall|s: u32| call_requires(squash, (s,)),
    ensures
        match r {
            Ok(resp) => {
                &&& scores@.len() == job.documents@.len()
                &&& resp.id@ == "rrk_"@ + hexadecimal(nanos_since_epoch as nat)
                &&& resp.model@ == job.model@
                &&& exists|given: Seq<u32>, order: Seq<usize>|
                    normalized(scores@, given, job.normalize, squash) && #[trigger]
                        is_descending(order, score_keys(given)) && follows(
                        resp.results@,
                        order,
                        given,
                        job.top_n,
                        if job.return_documents {
                            Some(job.documents@)
                        } else {
                            None
                        },
                    )
                &&& final(log)@ == old(log)@ + job.end_updates("success"@, nanos)
            },
            Err(e) => {
                &&& scores@.len() != job.documents@.len()
                &&& e@ == failed("internal error: score count mismatch"@)
                &&& final(log)@ == old(log)@ + job.end_updates("server_error"@, nanos)
            },
        },
{
    if scores.len() != job.documents.len() {
        job.finish("server_error", nanos, log);
        return Err(server_error("internal error: score count mismatch".to_owned()));
    }
    let given: Vec<u32> = apply_normalize(&scores, job.normalize, squash);
    let echo: Option<&Vec<String>> = if job.return_documents {
        Some(&job.documents)
    } else {
        None
    };
    let results: Vec<RerankResult> = build_sorted_results(&given, job.top_n, echo);
    let model: String = job.model.clone();
    job.finish("success", nanos, log);
    Ok(RerankResponse { id: opaque_request_id(nanos_since_epoch), model, results })
}

/// A batch has scores exactly where it has as many rows as documents and each row
/// holds one number: the scores are these numbers, in order.
pub proof fn law_scores_of_a_batch(rows: Seq<Vec<u32>>, expected: nat)
    ensures
        scalar_rows(rows, expected) is Ok <==> rows.len() == expected && forall|i: int|
            0 <= i < rows.len() ==> (#[trigger] rows[i])@.len() == 1,
        scalar_rows(rows, expected) matches Ok(scores) ==> scores.len() == rows.len() && forall|
            i: int,
        |
            0 <= i < rows.len() ==> #[trigger] scores[i] == rows[i]@[0],
{
    lemma_first_bad_row(rows);
}

proof fn lemma_first_bad_row(rows: Seq<Vec<u32>>)
    ensures
        first_bad_row(rows) is None <==> forall|i: int|
            0 <= i < rows.len() ==> (#[trigger] rows[i])@.len() == 1,
        first_bad_row(rows) matches Some(k) ==> 0 <= k < rows.len() && rows[k]@.len() != 1
            && forall|i: int| 0 <= i < k ==> (#[trigger] rows[i])@.len() == 1,
    decreases rows.len(),
{
    if rows.len() > 0 {
        let rest: Seq<Vec<u32>> = rows.drop_last();
        lemma_first_bad_row(rest);
        assert(forall|i: int| 0 <= i < rest.len() ==> rest[i] == rows[i]);
        if first_bad_row(rows) is None {
            assert forall|i: int| 0 <= i < rows.len() implies (#[trigger] rows[i])@.len()
                == 1 by {
                if i < rest.len() {
                    assert(rest[i]@.len() == 1);
                }
            }
        }
        if let Some(k) = first_bad_row(rows) {
            assert forall|i: int| 0 <= i < k implies (#[trigger] rows[i])@.len() == 1 by {
                assert(rest[i]@.len() == 1);
            }
        }
    }
}

/// A batch without scores is refused with what is wrong with it: the number of
/// its rows, or the first row that does not hold one number.
pub proof fn law_bad_batch_is_told(rows: Seq<Vec<u32>>, expected: nat, k: int)
    ensures
        rows.len() != expected ==> scalar_rows(rows, expected) == Err::<Seq<u32>, Seq<char>>(
            "batcher returned "@ + decimal(rows.len()) + " rows, expected "@ + decimal(expected),
        ),
        rows.len() == expected && 0 <= k < rows.len() && rows[k]@.len() != 1 && (forall|i: int|
            0 <= i < k ==> (#[trigger] rows[i])@.len() == 1) ==> scalar_rows(rows, expected)
            == Err::<Seq<u32>, Seq<char>>(
            "rerank row "@ + decimal(k as nat) + ": expected 1-element score vec, got "@ + decimal(
                rows[k]@.len(),
            ),
        ),
{
    lemma_first_bad_row(rows);
}

/// A request is answered with the scores that its inference gave, and with no
/// others; without them it is refused for the reason there was.
pub proof fn law_scores_are_those_of_the_inference(outcome: ScoreOutcome, n: nat)
    ensures
        outcome matches ScoreOutcome::Direct(Ok(Ok(s))) ==> outcome_scores(outcome, n) == Ok::<
            Seq<u32>,
            InferenceErrorView,
        >(s@),
        outcome matches ScoreOutcome::Batched(Ok(rows)) ==> (outcome_scores(outcome, n) is Ok <==> (
        rows@.len() == n && forall|i: int| 0 <= i < n ==> (#[trigger] rows@[i])@.len() == 1)),
        outcome matches ScoreOutcome::Batched(Ok(rows)) ==> (outcome_scores(outcome, n) matches Ok(
            s,
        ) ==> s.len() == n && forall|i: int| 0 <= i < n ==> #[trigger] s[i] == rows@[i]@[0]),
        outcome matches ScoreOutcome::Batched(Ok(_)) ==> (outcome_scores(outcome, n) matches Err(e)
            ==> e is ShapeMismatch),
        outcome matches ScoreOutcome::Batched(Err(e)) ==> match e {
            BatchError::QueueFull(full) => outcome_scores(outcome, n) == Err::<
                Seq<u32>,
                InferenceErrorView,
            >(InferenceErrorView::QueueFull(full.words())),
            BatchError::Inference(m) => outcome_scores(outcome, n) == Err::<
                Seq<u32>,
                InferenceErrorView,
            >(InferenceErrorView::Inference(m@)),
            BatchError::Shutdown => outcome_scores(outcome, n) == Err::<
                Seq<u32>,
                InferenceErrorView,
            >(InferenceErrorView::Shutdown),
        },
        outcome matches ScoreOutcome::Direct(Ok(Err(e))) ==> outcome_scores(outcome, n) == Err::<
            Seq<u32>,
            InferenceErrorView,
        >(InferenceErrorView::Inference(e@)),
        outcome matches ScoreOutcome::Direct(Err(e)) ==> outcome_scores(outcome, n) == Err::<
            Seq<u32>,
            InferenceErrorView,
        >(InferenceErrorView::Panic("score task panicked: "@ + e@)),
{
    if let ScoreOutcome::Batched(Ok(rows)) = outcome {
        law_scores_of_a_batch(rows@, n);
    }
}

/// A full queue and a stopping server are told so; any other failure is the
/// server's own, with its message.
pub proof fn law_failed_inference_is_told(m: Seq<char>)
    ensures
        error_refusal(InferenceErrorView::QueueFull(m)).0.status == 429,
        error_refusal(InferenceErrorView::QueueFull(m)).0.message == m,
        error_refusal(InferenceErrorView::QueueFull(m)).1 == "rate_limited"@,
        error_refusal(InferenceErrorView::Shutdown).0.status == 503,
        error_refusal(InferenceErrorView::Shutdown).1 == "shutdown"@,
        error_refusal(InferenceErrorView::Inference(m)).0.status == 500,
        error_refusal(InferenceErrorView::Inference(m)).0.message == m,
        error_refusal(InferenceErrorView::Inference(m)).1 == "server_error"@,
        error_refusal(InferenceErrorView::ShapeMismatch(m)) == error_refusal(
            InferenceErrorView::Inference(m),
        ),
        error_refusal(InferenceErrorView::Panic(m)) == error_refusal(
            InferenceErrorView::Inference(m),
        ),
{
}

/// Scores are squashed one by one, each from the score at its own place, or are
/// left as they are.
pub proof fn law_scores_are_normalized_in_place<F: Fn(u32) -> u32>(
    before: Seq<u32>,
    after: Seq<u32>,
    mode: NormalizeMode,
    squash: &F,
    i: int,
)
    requires
        normalized(before, after, mode, squash),
        0 <= i < before.len(),
    ensures
        after.len() == before.len(),
        mode == NormalizeMode::Raw ==> after[i] == before[i],
        mode == NormalizeMode::Sigmoid ==> call_ensures(squash, (before[i],), after[i]),
{
}

/// A request for documents is let in exactly where it is permitted, the server
/// is not stopping, the query is more than white space, there are documents, no
/// more than the cap, and the reranker is clear.
pub proof fn law_rerank_requests_are_let_in(
    req: RerankRequest,
    permitted: bool,
    is_draining: bool,
    names: Seq<Seq<char>>,
    cap: usize,
)
    ensures
        rerank_refusal(req, permitted, is_draining, names, cap) is None <==> permitted
            && !is_draining && (exists|i: int|
            0 <= i < req.query@.len() && !crate::text::is_space(#[trigger] req.query@[i])) && 0
            < req.documents@.len() <= cap && reranker_choice(names, req.model) is Ok,
        !permitted ==> rerank_refusal(req, permitted, is_draining, names, cap)->0.status == 429,
        permitted && is_draining ==> rerank_refusal(
            req,
            permitted,
            is_draining,
            names,
            cap,
        )->0.status == 503,
        permitted && !is_draining ==> (rerank_refusal(
            req,
            permitted,
            is_draining,
            names,
            cap,
        ) matches Some(e) ==> e.status == 400),
{
    let (a, b) = crate::text::law_trimming_takes_white_space_only(req.query@);
    if a < b {
        assert(!crate::text::is_space(req.query@[a]));
    }
}

/// The text of a document is the one that it gives, in either form.
pub proof fn law_document_text(text: String)
    ensures
        RerankDocument::Text(text).words() == text,
        (RerankDocument::Object { text }).words() == text,
{
}

/// A rerank request is counted once, under its status, with its time and its
/// documents.
pub proof fn law_rerank_request_is_counted_once(
    model: Seq<char>,
    status: Seq<char>,
    nanos: u128,
    documents: usize,
)
    ensures
        ({
            let u: Seq<UpdateView> = rerank_updates(model, status, nanos, documents);
            &&& u.len() == 3
            &&& u[0].name == "embed_rerank_requests_total"@
            &&& u[0].labels == seq![("model"@, model), ("status"@, status)]
            &&& u[0].change == Change::CounterIncrement(1)
            &&& u[1].name == "embed_rerank_request_duration_seconds"@
            &&& u[1].labels == seq![("model"@, model)]
            &&& u[1].change == Change::HistogramRecord(Amount::Seconds { nanos })
            &&& u[2].name == "embed_rerank_pairs_per_request"@
            &&& u[2].labels == seq![("model"@, model)]
            &&& u[2].change == Change::HistogramRecord(Amount::Whole(documents as u128))
        }),
{
}

/// What is recorded of a request before it is scored: its size where it was
/// looked at, why it was refused, and that one more is in flight where it was
/// not.
pub proof fn law_rerank_checks_are_recorded(
    req: RerankRequest,
    permitted: bool,
    is_draining: bool,
    names: Seq<Seq<char>>,
    cap: usize,
    nanos: u128,
)
    ensures
        ({
            let u: Seq<UpdateView> = rerank_check_updates(
                req,
                permitted,
                is_draining,
                names,
                cap,
                nanos,
            );
            let n: int = req.documents@.len() as int;
            let unknown: Seq<char> = "unknown"@;
            let blank: bool = trimmed(req.query@).len() == 0;
            &&& !permitted ==> u == rerank_updates(unknown, "rate_limited"@, nanos, 0)
            &&& permitted && is_draining ==> u == rerank_updates(unknown, "shutdown"@, nanos, 0)
            &&& permitted && !is_draining && (blank || n == 0) ==> u == rerank_updates(
                unknown,
                "bad_request"@,
                nanos,
                0,
            )
            &&& permitted && !is_draining && !blank && n > 0 ==> {
                &&& u[0].name == "embed_rerank_input_docs_size"@
                &&& u[0].labels == seq![("model"@, unknown)]
                &&& u[0].change == Change::HistogramRecord(Amount::Whole(n as u128))
                &&& n > cap ==> {
                    &&& u.len() == 5
                    &&& u[1].name == "embed_rerank_input_docs_rejected_total"@
                    &&& u[1].labels == seq![("model"@, unknown), ("reason"@, "size_cap"@)]
                    &&& u[1].change == Change::CounterIncrement(1)
                    &&& u.skip(2) == rerank_updates(unknown, "bad_request"@, nanos, n as usize)
                }
                &&& n <= cap ==> {
                    &&& reranker_choice(names, req.model) is Err ==> u.len() == 4 && u.skip(1)
                        == rerank_updates(unknown, "bad_request"@, nanos, 0)
                    &&& reranker_choice(names, req.model) matches Ok(model) ==> {
                        &&& u.len() == 2
                        &&& u[1].name == "embed_rerank_in_flight"@
                        &&& u[1].labels == seq![("model"@, model)]
                        &&& u[1].change == Change::GaugeIncrement(1)
                    }
                }
            }
        }),
{
    let u: Seq<UpdateView> = rerank_check_updates(req, permitted, is_draining, names, cap, nanos);
    let n: nat = req.documents@.len();
    assert(rerank_updates("unknown"@, "bad_request"@, nanos, n as usize).len() == 3);
    assert(rerank_updates("unknown"@, "bad_request"@, nanos, 0).len() == 3);
    if u.len() == 5 {
        assert(u.skip(2) =~= rerank_updates("unknown"@, "bad_request"@, nanos, n as usize));
    }
    if u.len() == 4 {
        assert(u.skip(1) =~= rerank_updates("unknown"@, "bad_request"@, nanos, 0));
    }
}

/// A request that was let in is counted, and is in flight no longer.
pub proof fn law_rerank_request_is_released(a: RerankJob, status: Seq<char>, nanos: u128)
    ensures
        ({
            let u: Seq<UpdateView> = a.end_updates(status, nanos);
            &&& u.len() == 4
            &&& u.take(3) == rerank_updates(
                a.model@,
                status,
                nanos,
                a.documents@.len() as usize,
            )
            &&& u[3].name == "embed_rerank_in_flight"@
            &&& u[3].labels == seq![("model"@, a.model@)]
            &&& u[3].change == Change::GaugeDecrement(1)
        }),
{
    let r: Seq<UpdateView> = rerank_updates(a.model@, status, nanos, a.documents@.len() as usize);
    assert(r.len() == 3);
    assert(a.end_updates(status, nanos).take(3) =~= r);
}

/// Why a rerank request is refused, the first reason first.
pub proof fn law_rerank_refusals(
    req: RerankRequest,
    is_draining: bool,
    names: Seq<Seq<char>>,
    cap: usize,
    name: String,
)
    ensures
        rerank_refusal(req, false, is_draining, names, cap) == Some(
            overloaded("rerank concurrency cap reached"@),
        ),
        rerank_refusal(req, true, true, names, cap) == Some(draining()),
        trimmed(req.query@).len() == 0 ==> rerank_refusal(req, true, false, names, cap) == Some(
            wrong_request("query must not be empty"@),
        ),
        trimmed(req.query@).len() > 0 ==> {
            let n: int = req.documents@.len() as int;
            let r: Option<RefusalView> = rerank_refusal(req, true, false, names, cap);
            &&& n == 0 ==> r == Some(wrong_request("documents must not be empty"@))
            &&& n > cap ==> (r matches Some(v) && v.status == 400 && v.limit == Some(
                ("documents_too_many"@, cap, n as usize),
            ))
            &&& 0 < n <= cap && req.model == Some(name) && names.contains(name@) ==> r is None
            &&& 0 < n <= cap && req.model == Some(name) && !names.contains(name@) ==> r == Some(
                wrong_request("reranker"@ + " '"@ + name@ + "' not found"@),
            )
            &&& 0 < n <= cap && req.model is None && names.len() == 1 ==> r is None
            &&& 0 < n <= cap && req.model is None && names.len() == 0 ==> r == Some(
                wrong_request("no "@ + "reranker"@ + " models configured"@),
            )
            &&& 0 < n <= cap && req.model is None && names.len() > 1 ==> r == Some(
                wrong_request(
                    "`model` is required when multiple "@ + "rerankers"@ + " are configured"@,
                ),
            )
        },
{
}

/// The documents that are scored are those that no cache had, each one, in the
/// order of the request.
pub proof fn law_missing_documents(
    missing: Seq<usize>,
    slots: Seq<Option<Vec<u32>>>,
    a: int,
    b: int,
    i: int,
)
    requires
        lists_missing(missing, slots),
        slots.len() <= usize::MAX,
    ensures
        0 <= a < missing.len() ==> missing[a] < slots.len() && slots[missing[a] as int] is None,
        0 <= a < b < missing.len() ==> missing[a] < missing[b],
        0 <= i < slots.len() && slots[i] is None ==> missing.contains(i as usize),
{
}

} // verus!
