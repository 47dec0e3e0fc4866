//! `POST /v1/embeddings`: what happens to a request between its arrival and
//! its answer.
//!
//! A request goes through these steps: [`check_request`], [`look_up`], and
//! then either [`respond_from_cache`], or tokenization, inference
//! ([`accept_vectors`]) and [`complete`]. A floating-point number is held as
//! its bit pattern.
use vstd::prelude::*;
use vstd::string::*;
use crate::batcher::{longest, max_seq_len_of, token_sum, BatchError};
use crate::cache::{digest, EmbeddingCache};
use crate::cache_flow::{
    collects, empty_slots, groups, partition_hits_and_misses, CachedSlots, PendingMiss,
    PendingMisses,
};
use crate::encoding::{base64_of, bytes_of_vector, encode_base64};
use crate::ipc::protocol::WorkerResponse;
use crate::metrics::{
    of_model, of_model_and, plain, record_cache_hit_n, record_cache_miss_n,
    record_inference, record_input_array_rejected, record_input_array_size, record_request,
    record_tokenize_fallback, set_cache_size, Amount, Change, MetricLog, UpdateView,
};
use crate::reply::{
    batch_refusal, draining, error_json, failed, is_name, names_view, over_cap,
    refuse_batch_error, server_error, shutting_down, too_many, wrong_request, Refusal,
    RefusalView,
};

verus! {

broadcast use group_string_axioms;

/// How the client wants its vectors.
#[derive(Clone, Copy, Debug, PartialEq, Eq, Structural)]
pub enum EncodingFormat {
    /// As lists of numbers.
    Float,
    /// As base64 of the numbers' bytes.
    Base64,
}

impl Default for EncodingFormat {
    fn default() -> (r: EncodingFormat)
        ensures
            r == EncodingFormat::Float,
    {
        EncodingFormat::Float
    }
}

/// What the texts are to be used for.
#[derive(Clone, Copy, Debug, PartialEq, Eq, Structural)]
pub enum InputType {
    Document,
    Query,
}

impl Default for InputType {
    fn default() -> (r: InputType)
        ensures
            r == InputType::Document,
    {
        InputType::Document
    }
}

/// The input of a request: one text or several.
#[derive(Debug)]
pub enum EmbedInput {
    Single(String),
    Batch(Vec<String>),
}

impl EmbedInput {
    /// The texts.
    pub open spec fn texts(self) -> Seq<Seq<char>> {
        match self {
            EmbedInput::Single(s) => seq![s@],
            EmbedInput::Batch(v) => names_view(v@),
        }
    }

    /// The texts.
    pub fn into_vec(self) -> (r: Vec<String>)
        ensures
            names_view(r@) == self.texts(),
    {
        match self {
            EmbedInput::Single(s) => {
                let mut v: Vec<String> = Vec::new();
                v.push(s);
                assert(names_view(v@) =~= seq![s@]);
                v
            },
            EmbedInput::Batch(v) => v,
        }
    }
}

/// A request for embeddings.
#[derive(Debug)]
pub struct EmbedRequest {
    pub input: EmbedInput,
    pub model: Option<String>,
    pub encoding_format: Option<EncodingFormat>,
    pub input_type: Option<InputType>,
}

/// One vector of a response.
#[derive(Debug, PartialEq)]
pub enum EmbeddingValue {
    /// The numbers' bit patterns.
    Vector(Vec<u32>),
    /// The base64 of the numbers' bytes.
    Base64(String),
}

/// One item of a response.
#[derive(Debug)]
pub struct EmbedData {
    pub object: &'static str,
    pub embedding: EmbeddingValue,
    pub index: usize,
}

/// What a request cost.
#[derive(Clone, Copy, Debug, PartialEq, Eq, Structural)]
pub struct Usage {
    pub prompt_tokens: u32,
    pub total_tokens: u32,
}

/// The response to a request.
#[derive(Debug)]
pub struct EmbedResponse {
    pub object: &'static str,
    pub data: Vec<EmbedData>,
    pub model: String,
    pub usage: Usage,
}

/// The name under which a model's vectors are cached: documents under the
/// model's own name, queries under another.
pub open spec fn cache_key_of(model: Seq<char>, input_type: InputType) -> Seq<char> {
    match input_type {
        InputType::Document => model,
        InputType::Query => model + ":query"@,
    }
}

/// The name under which a model's vectors are cached.
pub fn cache_model_key(model_name: &str, input_type: InputType) -> (r: String)
    ensures
        r@ == cache_key_of(model_name@, input_type),
{
    match input_type {
        InputType::Document => model_name.to_owned(),
        InputType::Query => {
            let mut key: String = model_name.to_owned();
            key.append(":query");
            key
        },
    }
}

/// A model's queries and documents never share a cache entry.
pub proof fn law_input_types_do_not_share(model: Seq<char>, text: Seq<char>, other: Seq<char>)
    ensures
        (cache_key_of(model, InputType::Document), digest(text)) != (
            cache_key_of(model, InputType::Query),
            digest(other),
        ),
{
    reveal_strlit(":query");
    assert(cache_key_of(model, InputType::Query).len() == model.len() + 6);
}

/// One item of a response: the vector as the client wants it.
pub open spec fn is_item(d: EmbedData, v: Seq<u32>, format: EncodingFormat, i: int) -> bool {
    &&& d.object@ == "embedding"@
    &&& d.index == i
    &&& match (format, d.embedding) {
        (EncodingFormat::Float, EmbeddingValue::Vector(w)) => w@ == v,
        (EncodingFormat::Base64, EmbeddingValue::Base64(s)) => s@ == base64_of(bytes_of_vector(v)),
        _ => false,
    }
}

/// The items of a response: one for each vector, in order.
pub fn build_data(vectors: Vec<Vec<u32>>, format: EncodingFormat) -> (r: Vec<EmbedData>)
    ensures
        r@.len() == vectors@.len(),
        forall|i: int|
            0 <= i < r@.len() ==> is_item(#[trigger] r@[i], vectors@[i]@, format, i),
{
    let ghost all: Seq<Vec<u32>> = vectors@;
    let n: usize = vectors.len();
    let mut out: Vec<EmbedData> = Vec::new();
    let mut i: usize = 0;
    for vec in it: vectors
        invariant
            it.seq() == all,
            all.len() == n,
            i == it.index(),
            out@.len() == i,
            forall|j: int| 0 <= j < i ==> is_item(#[trigger] out@[j], all[j]@, format, j),
    {
        let embedding: EmbeddingValue = match format {
            EncodingFormat::Float => EmbeddingValue::Vector(vec),
            EncodingFormat::Base64 => EmbeddingValue::Base64(encode_base64(&vec)),
        };
        out.push(EmbedData { object: "embedding", embedding, index: i });
        i = i + 1;
    }
    out
}

/// The models of a server, as far as requests for embeddings go.
#[derive(Debug)]
pub struct Serving {
    /// The model of a request that names none.
    pub default_model: String,
    /// The names of the models.
    pub models: Vec<String>,
    /// The most texts of one request.
    pub max_input_array: usize,
}

/// A request that has passed the checks.
#[derive(Debug)]
pub struct Accepted {
    pub model: String,
    /// The name under which the model's vectors are cached.
    pub cache_key: String,
    pub texts: Vec<String>,
    pub encoding_format: EncodingFormat,
}

/// The updates for a request that has been answered.
pub open spec fn request_updates(
    model: Seq<char>,
    status: Seq<char>,
    nanos: u128,
    texts: usize,
) -> Seq<UpdateView> {
    seq![
        of_model_and(
            "embed_requests_total"@,
            model,
            "status"@,
            status,
            Change::CounterIncrement(1),
        ),
        of_model(
            "embed_request_duration_seconds"@,
            model,
            Change::HistogramRecord(Amount::Seconds { nanos }),
        ),
        of_model(
            "embed_texts_per_request"@,
            model,
            Change::HistogramRecord(Amount::Whole(texts as u128)),
        ),
    ]
}

fn note_request(log: &mut MetricLog, model: &str, status: &str, nanos: u128, texts: usize)
    ensures
        final(log)@ == old(log)@ + request_updates(model@, status@, nanos, texts),
{
    record_request(log, model, status, nanos, texts);
    assert(log@ =~= old(log)@ + request_updates(model@, status@, nanos, texts));
}

/// The model that a request means.
pub open spec fn model_of(req: EmbedRequest, server: Serving) -> Seq<char> {
    match req.model {
        Some(m) => m@,
        None => server.default_model@,
    }
}

/// Why a request is refused before anything is done for it; `None` where it is
/// not.
pub open spec fn request_refusal(
    req: EmbedRequest,
    is_draining: bool,
    server: Serving,
) -> Option<RefusalView> {
    let n: nat = req.input.texts().len();
    let model: Seq<char> = model_of(req, server);
    if is_draining {
        Some(draining())
    } else if n == 0 {
        Some(wrong_request("input must not be empty"@))
    } else if n > server.max_input_array {
        Some(over_cap("input"@, "input_array_too_large"@, n as usize, server.max_input_array))
    } else if !names_view(server.models@).contains(model) {
        Some(wrong_request("model '"@ + model + "' not found"@))
    } else {
        None
    }
}

/// What the checks of a request record: its size, whether it is accepted or
/// not, and its refusal.
pub open spec fn check_updates(
    req: EmbedRequest,
    is_draining: bool,
    server: Serving,
    nanos: u128,
) -> Seq<UpdateView> {
    let n: nat = req.input.texts().len();
    let model: Seq<char> = model_of(req, server);
    let size: UpdateView = of_model(
        "embed_input_array_size"@,
        model,
        Change::HistogramRecord(Amount::Whole(n as u128)),
    );
    if is_draining {
        Seq::empty()
    } else if n == 0 {
        request_updates(model, "error"@, nanos, 0)
    } else if n > server.max_input_array {
        seq![
            size,
            of_model_and(
                "embed_input_array_rejected_total"@,
                model,
                "reason"@,
                "size_cap"@,
                Change::CounterIncrement(1),
            ),
        ] + request_updates(model, "error"@, nanos, n as usize)
    } else if !names_view(server.models@).contains(model) {
        seq![size] + request_updates(model, "error"@, nanos, 0)
    } else {
        seq![size]
    }
}

/// Checks a request: the server must not be about to stop, there must be
/// texts, not too many, and the model must be there.
pub fn check_request(
    req: EmbedRequest,
    is_draining: bool,
    server: &Serving,
    nanos: u128,
    log: &mut MetricLog,
) -> (r: Result<Accepted, Refusal>)
    ensures
        match (r, request_refusal(req, is_draining, *server)) {
            (Ok(a), None) => {
                &&& a.model@ == model_of(req, *server)
                &&& a.cache_key@ == cache_key_of(
                    model_of(req, *server),
                    match req.input_type {
                        Some(t) => t,
                        None => InputType::Document,
                    },
                )
                &&& names_view(a.texts@) == req.input.texts()
                &&& a.encoding_format == match req.encoding_format {
                    Some(f) => f,
                    None => EncodingFormat::Float,
                }
            },
            (Err(e), Some(v)) => e@ == v,
            _ => false,
        },
        final(log)@ == old(log)@ + check_updates(req, is_draining, *server, nanos),
{
    if is_draining {
        assert(log@ =~= old(log)@ + Seq::<UpdateView>::empty());
        return Err(shutting_down());
    }
    let model: String = match req.model {
        Some(m) => m,
        None => server.default_model.clone(),
    };
    let encoding_format: EncodingFormat = match req.encoding_format {
        Some(f) => f,
        None => EncodingFormat::Float,
    };
    let input_type: InputType = match req.input_type {
        Some(t) => t,
        None => InputType::Document,
    };
    let texts: Vec<String> = req.input.into_vec();
    let n: usize = texts.len();
    assert(n == req.input.texts().len());
    if n == 0 {
        note_request(log, model.as_str(), "error", nanos, 0);
        return Err(error_json("input must not be empty".to_owned()));
    }
    record_input_array_size(log, model.as_str(), n);
    if n > server.max_input_array {
        record_input_array_rejected(log, model.as_str(), "size_cap");
        note_request(log, model.as_str(), "error", nanos, n);
        assert(log@ =~= old(log)@ + check_updates(req, is_draining, *server, nanos));
        return Err(too_many("input", "input_array_too_large", n, server.max_input_array));
    }
    if !is_name(&server.models, model.as_str()) {
        note_request(log, model.as_str(), "error", nanos, 0);
        assert(log@ =~= old(log)@ + check_updates(req, is_draining, *server, nanos));
        let mut m: String = "model '".to_owned();
        m.append(model.as_str());
        m.append("' not found");
        return Err(error_json(m));
    }
    assert(log@ =~= old(log)@ + check_updates(req, is_draining, *server, nanos));
    let cache_key: String = cache_model_key(model.as_str(), input_type);
    Ok(Accepted { model, cache_key, texts, encoding_format })
}

/// The positions with a vector.
pub open spec fn served(cached: Seq<Option<Vec<u32>>>) -> nat
    decreases cached.len(),
{
    if cached.len() == 0 {
        0
    } else {
        served(cached.drop_last()) + if cached.last() is Some {
            1nat
        } else {
            0nat
        }
    }
}

proof fn lemma_served_bound(cached: Seq<Option<Vec<u32>>>)
    ensures
        served(cached) <= cached.len(),
    decreases cached.len(),
{
    if cached.len() > 0 {
        lemma_served_bound(cached.drop_last());
    }
}

/// Looks the texts of a request up in the cache. Each position counts as a hit
/// or as a miss, one that holds the text of another too.
pub fn look_up(accepted: &Accepted, cache: &EmbeddingCache, log: &mut MetricLog) -> (r: (
    CachedSlots,
    PendingMisses,
))
    ensures
        r.0@.len() == accepted.texts@.len(),
        forall|i: int|
            0 <= i < accepted.texts@.len() ==> ((#[trigger] r.0@[i]) matches Some(v)
                ==> cache@.contains_pair((accepted.cache_key@, digest(accepted.texts@[i]@)), v@)),
        forall|i: int|
            0 <= i < accepted.texts@.len() && cache@.contains_key(
                (accepted.cache_key@, digest(accepted.texts@[i]@)),
            ) && cache@.dom().len() <= cache.capacity() ==> (#[trigger] r.0@[i]) is Some,
        !cache.on() ==> forall|i: int|
            0 <= i < accepted.texts@.len() ==> (#[trigger] r.0@[i]) is None,
        cache.settled() ==> forall|i: int|
            0 <= i < accepted.texts@.len() ==> ((#[trigger] r.0@[i]) is Some
                <==> cache.kept().contains(
                (accepted.cache_key@, digest(accepted.texts@[i]@)),
            )),
        groups(
            r.1.entries@,
            accepted.texts@,
            empty_slots(r.0@),
            accepted.texts@.len() as int,
        ),
        served(r.0@) <= r.0@.len(),
        final(log)@ == old(log)@.push(
            of_model(
                "embed_cache_hit_total"@,
                accepted.model@,
                Change::CounterIncrement(served(r.0@) as u64),
            ),
        ).push(
            of_model(
                "embed_cache_miss_total"@,
                accepted.model@,
                Change::CounterIncrement((r.0@.len() - served(r.0@)) as u64),
            ),
        ),
{
    let (cached, pending) = partition_hits_and_misses(
        cache,
        accepted.cache_key.as_str(),
        &accepted.texts,
    );
    let mut hits: usize = 0;
    let mut i: usize = 0;
    while i < cached.len()
        invariant
            i <= cached.len(),
            hits == served(cached@.take(i as int)),
            hits <= i,
        decreases cached.len() - i,
    {
        proof {
            assert(cached@.take(i + 1).drop_last() =~= cached@.take(i as int));
        }
        if cached[i].is_some() {
            hits = hits + 1;
        }
        i = i + 1;
    }
    assert(cached@.take(i as int) =~= cached@);
    record_cache_hit_n(log, accepted.model.as_str(), hits as u64);
    record_cache_miss_n(log, accepted.model.as_str(), (cached.len() - hits) as u64);
    (cached, pending)
}

/// There is nothing to embed exactly when every position has a vector.
pub proof fn law_nothing_pending_means_all_served(
    entries: Seq<PendingMiss>,
    texts: Seq<String>,
    cached: Seq<Option<Vec<u32>>>,
)
    requires
        cached.len() == texts.len(),
        groups(entries, texts, empty_slots(cached), texts.len() as int),
    ensures
        entries.len() == 0 <==> forall|i: int|
            0 <= i < cached.len() ==> (#[trigger] cached[i]) is Some,
{
    let missing = empty_slots(cached);
    if entries.len() == 0 {
        assert forall|i: int| 0 <= i < cached.len() implies (#[trigger] cached[i]) is Some by {
            if cached[i] is None {
                assert(missing(i));
            }
        }
    } else {
        assert(collects(entries[0], texts, missing, texts.len() as int));
        let p: int = entries[0].positions@[0] as int;
        assert(missing(p));
    }
}

/// The vectors of a request whose positions all have one.
pub fn served_vectors(cached: CachedSlots) -> (r: Vec<Vec<u32>>)
    requires
        forall|i: int| 0 <= i < cached@.len() ==> (#[trigger] cached@[i]) is Some,
    ensures
        r@.len() == cached@.len(),
        forall|i: int| 0 <= i < r@.len() ==> Some(#[trigger] r@[i]) == cached@[i],
{
    let ghost all: Seq<Option<Vec<u32>>> = cached@;
    let mut out: Vec<Vec<u32>> = Vec::new();
    for slot in it: cached
        invariant
            it.seq() == all,
            forall|i: int| 0 <= i < all.len() ==> (#[trigger] all[i]) is Some,
            out@.len() == it.index(),
            forall|i: int| 0 <= i < it.index() ==> Some(#[trigger] out@[i]) == all[i],
    {
        assert(slot == all[it.index()]);
        if let Some(v) = slot {
            out.push(v);
        }
    }
    out
}

/// Why there are no tokens.
#[derive(Debug)]
pub enum TokenizeFailure {
    /// The tokenizer's error.
    Failed(String),
    /// The task broke down; what is known of why.
    Panicked(String),
}

/// The message to the client.
pub open spec fn tokenize_words(why: TokenizeFailure) -> Seq<char> {
    match why {
        TokenizeFailure::Failed(e) => e@,
        TokenizeFailure::Panicked(e) => "tokenize task panicked: "@ + e@,
    }
}

/// The message to the client.
pub fn tokenize_message(why: TokenizeFailure) -> (r: String)
    ensures
        r@ == tokenize_words(why),
{
    match why {
        TokenizeFailure::Failed(e) => e,
        TokenizeFailure::Panicked(e) => {
            let mut m: String = "tokenize task panicked: ".to_owned();
            m.append(e.as_str());
            m
        },
    }
}

/// Refuses a request whose texts could not be tokenized.
pub fn refuse_untokenized(
    accepted: &Accepted,
    why: TokenizeFailure,
    nanos: u128,
    log: &mut MetricLog,
) -> (r: Refusal)
    ensures
        r@ == failed(tokenize_words(why)),
        final(log)@ == old(log)@.push(
            plain("embed_tokenize_fallback_total"@, Change::CounterIncrement(1)),
        ) + request_updates(accepted.model@, "error"@, nanos, accepted.texts@.len() as usize),
{
    record_tokenize_fallback(log);
    note_request(log, accepted.model.as_str(), "error", nanos, accepted.texts.len());
    server_error(tokenize_message(why))
}

/// The tokens of the texts that are embedded, and the longest text's; `1`
/// where there is none. Only these are charged: a text from the cache costs
/// nothing.
pub fn token_usage(token_ids: &Vec<Vec<u32>>) -> (r: (u32, u32))
    requires
        token_sum(token_ids@) <= u32::MAX,
    ensures
        r.0 == token_sum(token_ids@),
        r.1 == if token_ids@.len() == 0 {
            1
        } else {
            longest(token_ids@)
        },
{
    let mut total: u32 = 0;
    let mut i: usize = 0;
    proof {
        lemma_longest_is_below_sum(token_ids@);
    }
    while i < token_ids.len()
        invariant
            i <= token_ids.len(),
            token_sum(token_ids@) <= u32::MAX,
            total == token_sum(token_ids@.take(i as int)),
        decreases token_ids.len() - i,
    {
        proof {
            assert(token_ids@.take(i + 1).drop_last() =~= token_ids@.take(i as int));
            lemma_sum_grows(token_ids@, i + 1);
        }
        total = total + token_ids[i].len() as u32;
        i = i + 1;
    }
    assert(token_ids@.take(i as int) =~= token_ids@);
    let max: u32 = if token_ids.len() == 0 {
        1
    } else {
        max_seq_len_of(token_ids) as u32
    };
    (total, max)
}

proof fn lemma_longest_is_below_sum(ids: Seq<Vec<u32>>)
    ensures
        longest(ids) <= token_sum(ids),
    decreases ids.len(),
{
    if ids.len() > 0 {
        lemma_longest_is_below_sum(ids.drop_last());
    }
}

proof fn lemma_sum_grows(ids: Seq<Vec<u32>>, n: int)
    requires
        0 <= n <= ids.len(),
    ensures
        token_sum(ids.take(n)) <= token_sum(ids),
    decreases ids.len() - n,
{
    if n < ids.len() {
        lemma_sum_grows(ids, n + 1);
        assert(ids.take(n + 1).drop_last() =~= ids.take(n));
    } else {
        assert(ids.take(n) =~= ids);
    }
}

/// How the inference for a request ended, by the way it took.
#[derive(Debug)]
pub enum InferenceOutcome {
    /// In a worker: its response, or the error of the exchange.
    Worker(Result<WorkerResponse, String>),
    /// In a batch with other requests.
    Batched(Result<Vec<Vec<u32>>, BatchError>),
    /// By itself: vectors or an error, or what is known of a task that broke
    /// down.
    Direct(Result<Result<Vec<Vec<u32>>, String>, String>),
}

/// The vectors of an inference, or what the client is told.
pub open spec fn outcome_vectors(outcome: InferenceOutcome) -> Result<Vec<Vec<u32>>, RefusalView> {
    match outcome {
        InferenceOutcome::Worker(Ok(WorkerResponse::Embed(a))) => Ok(a.vectors),
        InferenceOutcome::Worker(Ok(WorkerResponse::Failed { .. })) => Err(
            failed("inference failed"@),
        ),
        InferenceOutcome::Worker(Ok(_)) => Err(
            failed("inference failed: unexpected response kind"@),
        ),
        InferenceOutcome::Worker(Err(_)) => Err(failed("inference failed"@)),
        InferenceOutcome::Batched(Ok(v)) => Ok(v),
        InferenceOutcome::Batched(Err(e)) => Err(batch_refusal(e)),
        InferenceOutcome::Direct(Ok(Ok(v))) => Ok(v),
        InferenceOutcome::Direct(Ok(Err(e))) => Err(failed(e@)),
        InferenceOutcome::Direct(Err(e)) => Err(failed("spawn: "@ + e@)),
    }
}

/// What the end of an inference records: a refusal, or the inference where the
/// batcher has not recorded it.
pub open spec fn outcome_updates(
    outcome: InferenceOutcome,
    accepted: Accepted,
    infer_nanos: u128,
    nanos: u128,
) -> Seq<UpdateView> {
    match outcome_vectors(outcome) {
        Err(_) => request_updates(
            accepted.model@,
            "error"@,
            nanos,
            accepted.texts@.len() as usize,
        ),
        Ok(v) => if outcome is Batched {
            Seq::empty()
        } else {
            seq![
                of_model(
                    "embed_inference_duration_seconds"@,
                    accepted.model@,
                    Change::HistogramRecord(Amount::Seconds { nanos: infer_nanos }),
                ),
                of_model(
                    "embed_batch_size"@,
                    accepted.model@,
                    Change::HistogramRecord(Amount::Whole(v@.len() as u128)),
                ),
            ]
        },
    }
}

/// Takes the vectors of an inference, or refuses the request.
pub fn accept_vectors(
    accepted: &Accepted,
    outcome: InferenceOutcome,
    infer_nanos: u128,
    nanos: u128,
    log: &mut MetricLog,
) -> (r: Result<Vec<Vec<u32>>, Refusal>)
    ensures
        match (r, outcome_vectors(outcome)) {
            (Ok(v), Ok(w)) => v == w,
            (Err(e), Err(v)) => e@ == v,
            _ => false,
        },
        final(log)@ == old(log)@ + outcome_updates(outcome, *accepted, infer_nanos, nanos),
{
    let batched: bool = match &outcome {
        InferenceOutcome::Batched(_) => true,
        _ => false,
    };
    let result: Result<Vec<Vec<u32>>, Refusal> = match outcome {
        InferenceOutcome::Worker(Ok(WorkerResponse::Embed(a))) => Ok(a.vectors),
        InferenceOutcome::Worker(Ok(WorkerResponse::Failed { .. })) => Err(
            server_error("inference failed".to_owned()),
        ),
        InferenceOutcome::Worker(Ok(_)) => Err(
            server_error("inference failed: unexpected response kind".to_owned()),
        ),
        InferenceOutcome::Worker(Err(_)) => Err(server_error("inference failed".to_owned())),
        InferenceOutcome::Batched(Ok(v)) => Ok(v),
        InferenceOutcome::Batched(Err(e)) => Err(refuse_batch_error(e)),
        InferenceOutcome::Direct(Ok(Ok(v))) => Ok(v),
        InferenceOutcome::Direct(Ok(Err(e))) => Err(server_error(e)),
        InferenceOutcome::Direct(Err(e)) => {
            let mut m: String = "spawn: ".to_owned();
            m.append(e.as_str());
            Err(server_error(m))
        },
    };
    match &result {
        Err(_) => {
            note_request(log, accepted.model.as_str(), "error", nanos, accepted.texts.len());
        },
        Ok(v) => {
            if !batched {
                record_inference(log, accepted.model.as_str(), infer_nanos, v.len());
            }
        },
    }
    assert(log@ =~= old(log)@ + outcome_updates(outcome, *accepted, infer_nanos, nanos));
    result
}

/// The entry of a text.
pub open spec fn entry_of(entries: Seq<PendingMiss>, text: Seq<char>) -> int {
    choose|e: int| 0 <= e < entries.len() && (#[trigger] entries[e]).text@ == text
}

/// The vector of a position: the one from the cache, or the one that was made
/// for its text.
pub open spec fn vector_at(
    cached: Seq<Option<Vec<u32>>>,
    entries: Seq<PendingMiss>,
    texts: Seq<String>,
    vectors: Seq<Vec<u32>>,
    i: int,
) -> Seq<u32> {
    match cached[i] {
        Some(v) => v@,
        None => vectors[entry_of(entries, texts[i]@)]@,
    }
}

/// What a cache holds once the first `n` texts have been written.
pub open spec fn after_writes(
    before: Map<(Seq<char>, Seq<u8>), Seq<u32>>,
    key: Seq<char>,
    entries: Seq<PendingMiss>,
    vectors: Seq<Vec<u32>>,
    n: nat,
) -> Map<(Seq<char>, Seq<u8>), Seq<u32>>
    decreases n,
{
    if n == 0 {
        before
    } else {
        after_writes(before, key, entries, vectors, (n - 1) as nat).insert(
            (key, digest(entries[n - 1].text@)),
            vectors[n - 1]@,
        )
    }
}

fn copy_of(v: &Vec<u32>) -> (r: Vec<u32>)
    ensures
        r@ == v@,
{
    let r: Vec<u32> = v.clone();
    assert(r@ =~= v@);
    r
}

/// The slot at `i` holds the vector.
spec fn holds(slots: Seq<Option<Vec<u32>>>, i: int, v: Seq<u32>) -> bool {
    slots[i] matches Some(w) && w@ == v
}

fn fill(
    slots: &mut CachedSlots,
    entries: &Vec<PendingMiss>,
    e: usize,
    vec: &Vec<u32>,
    texts: &Vec<String>,
    cached: Ghost<Seq<Option<Vec<u32>>>>,
    vectors: Ghost<Seq<Vec<u32>>>,
)
    requires
        e < entries@.len(),
        groups(entries@, texts@, empty_slots(cached@), texts@.len() as int),
        cached@.len() == texts@.len(),
        old(slots)@.len() == texts@.len(),
        vectors@.len() == entries@.len(),
        vec@ == vectors@[e as int]@,
        forall|i: int| 0 <= i < cached@.len() && cached@[i] is Some ==> #[trigger] old(slots)@[i]
            == cached@[i],
        forall|f: int, a: int|
            0 <= f < e && 0 <= a < entries@[f].positions@.len() ==> holds(
                old(slots)@,
                #[trigger] entries@[f].positions@[a] as int,
                vectors@[f]@,
            ),
    ensures
        final(slots)@.len() == texts@.len(),
        forall|i: int|
            0 <= i < cached@.len() && cached@[i] is Some ==> #[trigger] final(slots)@[i]
                == cached@[i],
        forall|f: int, a: int|
            0 <= f <= e && 0 <= a < entries@[f].positions@.len() ==> holds(
                final(slots)@,
                #[trigger] entries@[f].positions@[a] as int,
                vectors@[f]@,
            ),
{
    let ghost missing = empty_slots(cached@);
    let ghost n: int = texts@.len() as int;
    let positions: &Vec<usize> = &entries[e].positions;
    let mut k: usize = 0;
    proof {
        assert(collects(entries@[e as int], texts@, missing, n));
    }
    while k < positions.len()
        invariant
            k <= positions.len(),
            e < entries@.len(),
            *positions == entries@[e as int].positions,
            missing == empty_slots(cached@),
            n == texts@.len(),
            groups(entries@, texts@, missing, n),
            collects(entries@[e as int], texts@, missing, n),
            cached@.len() == texts@.len(),
            slots@.len() == texts@.len(),
            vectors@.len() == entries@.len(),
            vec@ == vectors@[e as int]@,
            forall|i: int| 0 <= i < cached@.len() && cached@[i] is Some ==> #[trigger] slots@[i]
                == cached@[i],
            forall|f: int, a: int|
                0 <= f < e && 0 <= a < entries@[f].positions@.len() ==> holds(
                    slots@,
                    #[trigger] entries@[f].positions@[a] as int,
                    vectors@[f]@,
                ),
            forall|a: int|
                0 <= a < k ==> holds(slots@, #[trigger] positions@[a] as int, vec@),
        decreases positions.len() - k,
    {
        let pos: usize = positions[k];
        let ghost before: Seq<Option<Vec<u32>>> = slots@;
        assert(positions@[k as int] < n && missing(positions@[k as int] as int));
        slots.set(pos, Some(copy_of(vec)));
        proof {
            assert forall|f: int, a: int|
                0 <= f < e && 0 <= a < entries@[f].positions@.len() implies holds(
                slots@,
                #[trigger] entries@[f].positions@[a] as int,
                vectors@[f]@,
            ) by {
                assert(collects(entries@[f], texts@, missing, n));
                let q: usize = entries@[f].positions@[a];
                assert(holds(before, q as int, vectors@[f]@));
                assert(entries@[f].text@ != entries@[e as int].text@);
                assert(q != pos);
            }
            assert forall|a: int| 0 <= a < k + 1 implies holds(
                slots@,
                #[trigger] positions@[a] as int,
                vec@,
            ) by {
                if a < k {
                    assert(holds(before, positions@[a] as int, vec@));
                    assert(positions@[a] < positions@[k as int]);
                }
            }
        }
        k = k + 1;
    }
    proof {
        assert forall|f: int, a: int|
            0 <= f <= e && 0 <= a < entries@[f].positions@.len() implies holds(
            slots@,
            #[trigger] entries@[f].positions@[a] as int,
            vectors@[f]@,
        ) by {
            if f == e {
                assert(holds(slots@, positions@[a] as int, vec@));
            }
        }
    }
}

proof fn lemma_all_filled(
    slots: Seq<Option<Vec<u32>>>,
    cached: Seq<Option<Vec<u32>>>,
    entries: Seq<PendingMiss>,
    texts: Seq<String>,
    vectors: Seq<Vec<u32>>,
)
    requires
        groups(entries, texts, empty_slots(cached), texts.len() as int),
        cached.len() == texts.len() <= usize::MAX,
        slots.len() == texts.len(),
        forall|i: int| 0 <= i < cached.len() && cached[i] is Some ==> #[trigger] slots[i]
            == cached[i],
        forall|f: int, a: int|
            0 <= f < entries.len() && 0 <= a < entries[f].positions@.len() ==> holds(
                slots,
                #[trigger] entries[f].positions@[a] as int,
                vectors[f]@,
            ),
    ensures
        forall|i: int|
            0 <= i < slots.len() ==> ((#[trigger] slots[i]) matches Some(v) && v@ == vector_at(
                cached,
                entries,
                texts,
                vectors,
                i,
            )),
{
    let missing = empty_slots(cached);
    let n: int = texts.len() as int;
    assert forall|i: int| 0 <= i < slots.len() implies ((#[trigger] slots[i]) matches Some(v) && v@
        == vector_at(cached, entries, texts, vectors, i)) by {
        if cached[i] is None {
            assert(missing(i));
            let e: int = entry_of(entries, texts[i]@);
            assert(0 <= e < entries.len() && entries[e].text@ == texts[i]@);
            assert(collects(entries[e], texts, missing, n));
            assert(entries[e].positions@.contains(i as usize));
            let a: int = choose|a: int|
                0 <= a < entries[e].positions@.len() && entries[e].positions@[a] == i as usize;
            assert(holds(slots, entries[e].positions@[a] as int, vectors[e]@));
        }
    }
}

/// Each position has its vector.
pub open spec fn is_completed(
    out: Seq<Vec<u32>>,
    cached: Seq<Option<Vec<u32>>>,
    entries: Seq<PendingMiss>,
    texts: Seq<String>,
    vectors: Seq<Vec<u32>>,
) -> bool {
    &&& out.len() == texts.len()
    &&& forall|i: int|
        0 <= i < out.len() ==> (#[trigger] out[i])@ == vector_at(
            cached,
            entries,
            texts,
            vectors,
            i,
        )
}

/// Writes the vectors of the texts that were embedded in the cache, and gives
/// each position its vector. There must be one vector for each text.
pub fn complete(
    accepted: &Accepted,
    cached: CachedSlots,
    pending: &PendingMisses,
    vectors: Vec<Vec<u32>>,
    cache: &mut EmbeddingCache,
    nanos: u128,
    log: &mut MetricLog,
) -> (r: Result<Vec<Vec<u32>>, Refusal>)
    requires
        cached@.len() == accepted.texts@.len(),
        groups(
            pending.entries@,
            accepted.texts@,
            empty_slots(cached@),
            accepted.texts@.len() as int,
        ),
    ensures
        final(cache).on() == old(cache).on(),
        final(cache).capacity() == old(cache).capacity(),
        match r {
            Ok(out) => {
                &&& vectors@.len() == pending.entries@.len()
                &&& is_completed(
                    out@,
                    cached@,
                    pending.entries@,
                    accepted.texts@,
                    vectors@,
                )
                &&& final(cache)@ == if old(cache).on() {
                    after_writes(
                        old(cache)@,
                        accepted.cache_key@,
                        pending.entries@,
                        vectors@,
                        vectors@.len(),
                    )
                } else {
                    old(cache)@
                }
                &&& exists|size: usize|
                    size <= final(cache)@.dom().len() && final(log)@ == old(log)@.push(
                        #[trigger] plain(
                            "embed_cache_size"@,
                            Change::GaugeSet(Amount::Whole(size as u128)),
                        ),
                    )
            },
            Err(e) => {
                &&& vectors@.len() != pending.entries@.len()
                &&& e@ == failed("internal error: vector count mismatch"@)
                &&& final(cache)@ == old(cache)@
                &&& final(log)@ == old(log)@ + request_updates(
                    accepted.model@,
                    "error"@,
                    nanos,
                    accepted.texts@.len() as usize,
                )
            },
        },
{
    if vectors.len() != pending.entries.len() {
        note_request(log, accepted.model.as_str(), "error", nanos, accepted.texts.len());
        return Err(server_error("internal error: vector count mismatch".to_owned()));
    }
    let n: usize = vectors.len();
    let ghost made: Seq<Vec<u32>> = vectors@;
    let ghost found: Seq<Option<Vec<u32>>> = cached@;
    let ghost before: Map<(Seq<char>, Seq<u8>), Seq<u32>> = cache@;
    let mut slots: CachedSlots = cached;
    let mut e: usize = 0;
    for vec in it: vectors
        invariant
            it.seq() == made,
            e == it.index(),
            made.len() == n,
            made.len() == pending.entries@.len(),
            groups(
                pending.entries@,
                accepted.texts@,
                empty_slots(found),
                accepted.texts@.len() as int,
            ),
            found.len() == accepted.texts@.len(),
            slots@.len() == accepted.texts@.len(),
            forall|i: int| 0 <= i < found.len() && found[i] is Some ==> #[trigger] slots@[i]
                == found[i],
            forall|f: int, a: int|
                0 <= f < e && 0 <= a < pending.entries@[f].positions@.len() ==> holds(
                    slots@,
                    #[trigger] pending.entries@[f].positions@[a] as int,
                    made[f]@,
                ),
            cache.on() == old(cache).on(),
            cache.capacity() == old(cache).capacity(),
            before == old(cache)@,
            cache@ == if old(cache).on() {
                after_writes(
                    before,
                    accepted.cache_key@,
                    pending.entries@,
                    made,
                    e as nat,
                )
            } else {
                before
            },
    {
        assert(vec == made[e as int]);
        cache.insert(
            accepted.cache_key.as_str(),
            pending.entries[e].text.as_str(),
            copy_of(&vec),
        );
        fill(&mut slots, &pending.entries, e, &vec, &accepted.texts, Ghost(found), Ghost(made));
        e = e + 1;
    }
    let size: usize = cache.len();
    set_cache_size(log, size);
    proof {
        assert(accepted.texts.len() == accepted.texts@.len());
        lemma_all_filled(slots@, found, pending.entries@, accepted.texts@, made);
    }
    Ok(served_vectors(slots))
}

/// The response carries these vectors, in order, and charges this many tokens.
pub open spec fn is_response(
    r: EmbedResponse,
    accepted: Accepted,
    vectors: Seq<Vec<u32>>,
    total_tokens: u32,
) -> bool {
    &&& r.object@ == "list"@
    &&& r.model@ == accepted.model@
    &&& r.usage == (Usage { prompt_tokens: total_tokens, total_tokens })
    &&& r.data@.len() == vectors.len()
    &&& forall|i: int|
        0 <= i < r.data@.len() ==> is_item(
            #[trigger] r.data@[i],
            vectors[i]@,
            accepted.encoding_format,
            i,
        )
}

/// Answers a request with its vectors.
pub fn respond(
    accepted: Accepted,
    vectors: Vec<Vec<u32>>,
    total_tokens: u32,
    nanos: u128,
    log: &mut MetricLog,
) -> (r: EmbedResponse)
    ensures
        is_response(r, accepted, vectors@, total_tokens),
        final(log)@ == old(log)@ + request_updates(
            accepted.model@,
            "ok"@,
            nanos,
            accepted.texts@.len() as usize,
        ),
{
    note_request(log, accepted.model.as_str(), "ok", nanos, accepted.texts.len());
    EmbedResponse {
        object: "list",
        data: build_data(vectors, accepted.encoding_format),
        model: accepted.model,
        usage: Usage { prompt_tokens: total_tokens, total_tokens },
    }
}

/// Answers a request from the cache alone: no tokens are charged.
pub fn respond_from_cache(
    accepted: Accepted,
    cached: CachedSlots,
    nanos: u128,
    log: &mut MetricLog,
) -> (r: EmbedResponse)
    requires
        forall|i: int| 0 <= i < cached@.len() ==> (#[trigger] cached@[i]) is Some,
    ensures
        r.object@ == "list"@,
        r.model@ == accepted.model@,
        r.usage == (Usage { prompt_tokens: 0, total_tokens: 0 }),
        r.data@.len() == cached@.len(),
        forall|i: int|
            0 <= i < r.data@.len() ==> is_item(
                #[trigger] r.data@[i],
                cached@[i]->Some_0@,
                accepted.encoding_format,
                i,
            ),
        final(log)@ == old(log)@ + request_updates(
            accepted.model@,
            "ok"@,
            nanos,
            accepted.texts@.len() as usize,
        ),
{
    let vectors: Vec<Vec<u32>> = served_vectors(cached);
    assert forall|i: int| 0 <= i < vectors@.len() implies (#[trigger] vectors@[i])@
        == cached@[i]->Some_0@ by {
        assert(Some(vectors@[i]) == cached@[i]);
    }
    respond(accepted, vectors, 0, nanos, log)
}

proof fn lemma_writes(
    before: Map<(Seq<char>, Seq<u8>), Seq<u32>>,
    key: Seq<char>,
    entries: Seq<PendingMiss>,
    vectors: Seq<Vec<u32>>,
    n: nat,
    text: Seq<char>,
)
    requires
        n <= entries.len() == vectors.len(),
        forall|e: int, f: int|
            0 <= e < f < entries.len() ==> (#[trigger] entries[e]).text@ != (
            #[trigger] entries[f]).text@,
        forall|e: int|
            0 <= e < entries.len() && digest((#[trigger] entries[e]).text@) == digest(text)
                ==> entries[e].text@ == text,
    ensures
        forall|e: int|
            0 <= e < n && (#[trigger] entries[e]).text@ == text ==> after_writes(
                before,
                key,
                entries,
                vectors,
                n,
            ).contains_pair((key, digest(text)), vectors[e]@),
        (forall|e: int| 0 <= e < n ==> (#[trigger] entries[e]).text@ != text) ==> (after_writes(
            before,
            key,
            entries,
            vectors,
            n,
        ).contains_key((key, digest(text))) == before.contains_key((key, digest(text)))
            && after_writes(before, key, entries, vectors, n)[(key, digest(text))] == before[(
            key,
            digest(text),
        )]),
    decreases n,
{
    if n > 0 {
        let m: nat = (n - 1) as nat;
        lemma_writes(before, key, entries, vectors, m, text);
        let sofar = after_writes(before, key, entries, vectors, m);
        if entries[m as int].text@ == text {
            assert forall|e: int| 0 <= e < n && (#[trigger] entries[e]).text@
                == text implies after_writes(before, key, entries, vectors, n).contains_pair(
                (key, digest(text)),
                vectors[e]@,
            ) by {
                if e < m {
                    assert(entries[e].text@ != entries[m as int].text@);
                }
            }
        } else {
            assert(digest(entries[m as int].text@) != digest(text));
        }
    }
}

/// A request that comes again is served with the same vectors: once a request
/// is complete, the cache holds for each of its texts the very vector that the
/// client was given. (That a cache finds what it holds while it has room is
/// said of [`EmbeddingCache::get`].) Texts of the same digest are not told
/// apart, so no two texts of the request may share one.
pub proof fn law_repeated_request_is_cached(
    before: Map<(Seq<char>, Seq<u8>), Seq<u32>>,
    key: Seq<char>,
    cached: Seq<Option<Vec<u32>>>,
    entries: Seq<PendingMiss>,
    texts: Seq<String>,
    vectors: Seq<Vec<u32>>,
    i: int,
)
    requires
        cached.len() == texts.len() <= usize::MAX,
        groups(entries, texts, empty_slots(cached), texts.len() as int),
        vectors.len() == entries.len(),
        forall|j: int|
            0 <= j < texts.len() ==> ((#[trigger] cached[j]) matches Some(v)
                ==> before.contains_pair((key, digest(texts[j]@)), v@)),
        forall|j: int, k: int|
            0 <= j < texts.len() && 0 <= k < texts.len() && digest((#[trigger] texts[j])@)
                == digest((#[trigger] texts[k])@) ==> texts[j]@ == texts[k]@,
        0 <= i < texts.len(),
    ensures
        cached[i] is None ==> after_writes(
            before,
            key,
            entries,
            vectors,
            vectors.len(),
        ).contains_pair(
            (key, digest(texts[i]@)),
            vector_at(cached, entries, texts, vectors, i),
        ),
        cached[i] is Some && (forall|j: int|
            0 <= j < texts.len() && (#[trigger] texts[j])@ == texts[i]@ ==> cached[j] is Some)
            ==> after_writes(before, key, entries, vectors, vectors.len()).contains_pair(
            (key, digest(texts[i]@)),
            vector_at(cached, entries, texts, vectors, i),
        ),
{
    let missing = empty_slots(cached);
    let n: int = texts.len() as int;
    let text: Seq<char> = texts[i]@;
    assert forall|e: int| 0 <= e < entries.len() && digest((#[trigger] entries[e]).text@) == digest(
        text,
    ) implies entries[e].text@ == text by {
        assert(collects(entries[e], texts, missing, n));
        let p: int = entries[e].positions@[0] as int;
        assert(entries[e].positions@[0] < n && texts[p]@ == entries[e].text@);
        assert(digest(texts[p]@) == digest(texts[i]@));
    }
    lemma_writes(before, key, entries, vectors, vectors.len(), text);
    if cached[i] is None {
        assert(missing(i));
        let e: int = entry_of(entries, text);
        assert(0 <= e < entries.len() && entries[e].text@ == text);
    } else if forall|j: int|
        0 <= j < texts.len() && (#[trigger] texts[j])@ == texts[i]@ ==> cached[j] is Some {
        assert forall|e: int| 0 <= e < vectors.len() implies (#[trigger] entries[e]).text@
            != text by {
            if entries[e].text@ == text {
                assert(collects(entries[e], texts, missing, n));
                let p: int = entries[e].positions@[0] as int;
                assert(entries[e].positions@[0] < n && missing(p) && texts[p]@ == text);
                assert(cached[p] is Some);
            }
        }
        assert(before.contains_pair((key, digest(texts[i]@)), cached[i]->Some_0@));
    }
}

/// The text stands at a position for which nothing was found in the cache.
pub open spec fn is_missed(
    text: Seq<char>,
    texts: Seq<String>,
    cached: Seq<Option<Vec<u32>>>,
) -> bool {
    exists|i: int|
        0 <= i < cached.len() && cached[i] is None && (#[trigger] texts[i])@ == text
}

/// A request as a whole, from what was looked up to the response: item `i`
/// carries the vector of text `i`, where `embed` is the vector of each text that
/// the model gives and the cache holds. Only texts that were not found are
/// charged for, each of them once.
pub proof fn law_request_answers_each_text(
    accepted: Accepted,
    cached: Seq<Option<Vec<u32>>>,
    entries: Seq<PendingMiss>,
    token_ids: Seq<Vec<u32>>,
    vectors: Seq<Vec<u32>>,
    out: Seq<Vec<u32>>,
    r: EmbedResponse,
    embed: spec_fn(Seq<char>) -> Seq<u32>,
)
    requires
        cached.len() == accepted.texts@.len() <= usize::MAX,
        groups(entries, accepted.texts@, empty_slots(cached), accepted.texts@.len() as int),
        token_ids.len() == entries.len(),
        token_sum(token_ids) <= u32::MAX,
        vectors.len() == entries.len(),
        forall|e: int|
            0 <= e < entries.len() ==> (#[trigger] vectors[e])@ == embed(entries[e].text@),
        forall|i: int|
            0 <= i < cached.len() ==> ((#[trigger] cached[i]) matches Some(v) ==> v@ == embed(
                accepted.texts@[i]@,
            )),
        is_completed(out, cached, entries, accepted.texts@, vectors),
        is_response(r, accepted, out, token_sum(token_ids) as u32),
    ensures
        r.model@ == accepted.model@,
        r.data@.len() == accepted.texts@.len(),
        forall|i: int|
            0 <= i < accepted.texts@.len() ==> is_item(
                #[trigger] r.data@[i],
                embed(accepted.texts@[i]@),
                accepted.encoding_format,
                i,
            ),
        r.usage.total_tokens == token_sum(token_ids),
        r.usage.prompt_tokens == token_sum(token_ids),
        forall|e: int|
            0 <= e < entries.len() ==> is_missed(
                (#[trigger] entries[e]).text@,
                accepted.texts@,
                cached,
            ),
        forall|e: int, f: int|
            0 <= e < f < entries.len() ==> (#[trigger] entries[e]).text@ != (
            #[trigger] entries[f]).text@,
        entries.len() == 0 ==> r.usage.total_tokens == 0,
{
    let texts: Seq<String> = accepted.texts@;
    let missing = empty_slots(cached);
    let n: int = texts.len() as int;
    assert forall|i: int| 0 <= i < texts.len() implies is_item(
        #[trigger] r.data@[i],
        embed(texts[i]@),
        accepted.encoding_format,
        i,
    ) by {
        assert(out[i]@ == vector_at(cached, entries, texts, vectors, i));
        if cached[i] is None {
            assert(missing(i));
            let e: int = entry_of(entries, texts[i]@);
            assert(0 <= e < entries.len() && entries[e].text@ == texts[i]@);
            assert(vectors[e]@ == embed(entries[e].text@));
        }
    }
    assert forall|e: int| 0 <= e < entries.len() implies is_missed(
        (#[trigger] entries[e]).text@,
        texts,
        cached,
    ) by {
        assert(collects(entries[e], texts, missing, n));
        let p: int = entries[e].positions@[0] as int;
        assert(entries[e].positions@[0] < n && missing(p) && texts[p]@ == entries[e].text@);
    }
}

/// Positions with the same text that were not found in the cache get the same
/// vector.
pub proof fn law_equal_texts_get_equal_vectors(
    cached: Seq<Option<Vec<u32>>>,
    entries: Seq<PendingMiss>,
    texts: Seq<String>,
    vectors: Seq<Vec<u32>>,
    i: int,
    j: int,
)
    requires
        texts[i]@ == texts[j]@,
        cached[i] is None,
        cached[j] is None,
    ensures
        vector_at(cached, entries, texts, vectors, i) == vector_at(
            cached,
            entries,
            texts,
            vectors,
            j,
        ),
{
}

/// A model's documents are cached under its own name, and its queries under that
/// name with a mark behind it: two models never share a name for the same use.
pub proof fn law_cache_names(a: Seq<char>, b: Seq<char>)
    ensures
        cache_key_of(a, InputType::Document) == a,
        cache_key_of(a, InputType::Query) == a + ":query"@,
        cache_key_of(a, InputType::Query) == cache_key_of(b, InputType::Query) ==> a == b,
{
    if cache_key_of(a, InputType::Query) == cache_key_of(b, InputType::Query) {
        let n: int = a.len() as int;
        assert((a + ":query"@).len() == (b + ":query"@).len());
        assert((a + ":query"@).take(n) =~= a);
        assert((b + ":query"@).take(n) =~= b);
    }
}

/// The vectors of one use of one model are never found for another model, nor
/// for another text, as long as the digest tells the texts' bytes apart.
pub proof fn law_entries_are_not_shared(
    a: Seq<char>,
    b: Seq<char>,
    input_type: InputType,
    text: Seq<char>,
    other: Seq<char>,
)
    requires
        a != b || crate::cache::sha256_of(vstd::utf8::encode_utf8(text)) != crate::cache::sha256_of(
            vstd::utf8::encode_utf8(other),
        ),
    ensures
        (cache_key_of(a, input_type), digest(text)) != (cache_key_of(b, input_type), digest(other)),
{
    law_cache_names(a, b);
}

/// An item carries its own place and its own vector, in the format that the
/// client wants: the numbers themselves, or the text that stands for these
/// numbers and no others.
pub proof fn law_item_carries_its_vector(
    d: EmbedData,
    v: Seq<u32>,
    w: Seq<u32>,
    format: EncodingFormat,
    i: int,
)
    requires
        is_item(d, v, format, i),
    ensures
        d.index == i,
        d.object@ == "embedding"@,
        format == EncodingFormat::Float ==> (d.embedding matches EmbeddingValue::Vector(x) && x@
            == v),
        format == EncodingFormat::Base64 ==> (d.embedding matches EmbeddingValue::Base64(s) && (s@
            == base64_of(bytes_of_vector(w)) <==> v == w)),
{
    if format == EncodingFormat::Base64 && base64_of(bytes_of_vector(v)) == base64_of(
        bytes_of_vector(w),
    ) {
        crate::encoding::law_base64_is_lossless(v, w);
    }
}

/// A response carries the vectors in order, under the model's name, and charges
/// the tokens that were used.
pub proof fn law_response_is_complete(
    r: EmbedResponse,
    accepted: Accepted,
    vectors: Seq<Vec<u32>>,
    total_tokens: u32,
    i: int,
)
    requires
        is_response(r, accepted, vectors, total_tokens),
        0 <= i < vectors.len(),
    ensures
        r.object@ == "list"@,
        r.model@ == accepted.model@,
        r.data@.len() == vectors.len(),
        r.data@[i].index == i,
        r.usage.prompt_tokens == total_tokens,
        r.usage.total_tokens == total_tokens,
        accepted.encoding_format == EncodingFormat::Float ==> (
        r.data@[i].embedding matches EmbeddingValue::Vector(x) && x@ == vectors[i]@),
        accepted.encoding_format == EncodingFormat::Base64 ==> (
        r.data@[i].embedding matches EmbeddingValue::Base64(s) && s@ == base64_of(
            bytes_of_vector(vectors[i]@),
        )),
{
    assert(is_item(r.data@[i], vectors[i]@, accepted.encoding_format, i));
}

/// The vectors of a completed request: what was found in the cache stays, and
/// each other position gets the vector of the one entry that has its text.
pub proof fn law_completed_request(
    out: Seq<Vec<u32>>,
    cached: Seq<Option<Vec<u32>>>,
    entries: Seq<PendingMiss>,
    texts: Seq<String>,
    vectors: Seq<Vec<u32>>,
    i: int,
    e: int,
)
    requires
        cached.len() == texts.len() <= usize::MAX,
        groups(entries, texts, empty_slots(cached), texts.len() as int),
        is_completed(out, cached, entries, texts, vectors),
        0 <= i < texts.len(),
        0 <= e < entries.len(),
    ensures
        out.len() == texts.len(),
        cached[i] matches Some(v) ==> out[i]@ == v@,
        cached[i] is None && entries[e].text@ == texts[i]@ ==> out[i]@ == vectors[e]@,
{
    assert(out[i]@ == vector_at(cached, entries, texts, vectors, i));
    if cached[i] is None && entries[e].text@ == texts[i]@ {
        let f: int = entry_of(entries, texts[i]@);
        assert(0 <= f < entries.len() && entries[f].text@ == texts[i]@);
        if e < f {
            assert(entries[e].text@ != entries[f].text@);
        }
        if f < e {
            assert(entries[f].text@ != entries[e].text@);
        }
    }
}

/// What is written in the cache: each new vector under its own text and the
/// request's name, the later ones after the earlier, and nothing else.
pub proof fn law_writes_go_under_their_texts(
    before: Map<(Seq<char>, Seq<u8>), Seq<u32>>,
    key: Seq<char>,
    entries: Seq<PendingMiss>,
    vectors: Seq<Vec<u32>>,
    n: nat,
    other: (Seq<char>, Seq<u8>),
)
    requires
        n < entries.len() == vectors.len(),
    ensures
        after_writes(before, key, entries, vectors, 0) == before,
        after_writes(before, key, entries, vectors, n + 1).contains_pair(
            (key, digest(entries[n as int].text@)),
            vectors[n as int]@,
        ),
        other != (key, digest(entries[n as int].text@)) ==> (after_writes(
            before,
            key,
            entries,
            vectors,
            n + 1,
        ).contains_key(other) <==> after_writes(before, key, entries, vectors, n).contains_key(
            other,
        )) && after_writes(before, key, entries, vectors, n + 1)[other] == after_writes(
            before,
            key,
            entries,
            vectors,
            n,
        )[other],
{
}

/// A request for embeddings is let in exactly where the server is not stopping,
/// there are texts, no more than the cap, and the model is one of the server's:
/// the one that the request names, or the default one.
pub proof fn law_requests_are_let_in(req: EmbedRequest, is_draining: bool, server: Serving)
    ensures
        request_refusal(req, is_draining, server) is None <==> {
            let n: nat = match req.input {
                EmbedInput::Single(_) => 1,
                EmbedInput::Batch(v) => v@.len(),
            };
            let model: Seq<char> = match req.model {
                Some(m) => m@,
                None => server.default_model@,
            };
            !is_draining && 0 < n <= server.max_input_array && exists|i: int|
                0 <= i < server.models@.len() && (#[trigger] server.models@[i])@ == model
        },
        is_draining ==> request_refusal(req, is_draining, server)->0.status == 503,
        !is_draining ==> (request_refusal(req, is_draining, server) matches Some(e) ==> e.status
            == 400),
        req.model matches Some(m) ==> model_of(req, server) == m@,
        req.model is None ==> model_of(req, server) == server.default_model@,
{
    let names: Seq<Seq<char>> = names_view(server.models@);
    let model: Seq<char> = model_of(req, server);
    if names.contains(model) {
        let i: int = choose|i: int| 0 <= i < names.len() && names[i] == model;
        assert(server.models@[i]@ == model);
    }
    if exists|i: int| 0 <= i < server.models@.len() && (#[trigger] server.models@[i])@ == model {
        let i: int = choose|i: int|
            0 <= i < server.models@.len() && (#[trigger] server.models@[i])@ == model;
        assert(names[i] == model);
    }
}

/// The texts of a request are those it gives, in order.
pub proof fn law_texts_of_a_request(s: String, v: Vec<String>, i: int)
    ensures
        EmbedInput::Single(s).texts() == seq![s@],
        EmbedInput::Batch(v).texts().len() == v@.len(),
        0 <= i < v@.len() ==> EmbedInput::Batch(v).texts()[i] == v@[i]@,
{
}

/// A position counts as served exactly where it has a vector.
pub proof fn law_served_positions(
    cached: Seq<Option<Vec<u32>>>,
    next: Option<Vec<u32>>,
)
    ensures
        served(Seq::empty()) == 0,
        next is Some ==> served(cached.push(next)) == served(cached) + 1,
        next is None ==> served(cached.push(next)) == served(cached),
        served(cached) <= cached.len(),
{
    assert(cached.push(next).drop_last() =~= cached);
    lemma_served_bound(cached);
}

/// A request is answered with the vectors that its inference gave, whichever way
/// it took, and is refused where there are none: a full queue is told so, and so
/// is a server that stops.
pub proof fn law_vectors_are_those_of_the_inference(outcome: InferenceOutcome)
    ensures
        outcome_vectors(outcome) matches Ok(v) ==> {
            ||| (outcome matches InferenceOutcome::Worker(Ok(WorkerResponse::Embed(a)))
                && a.vectors == v)
            ||| outcome == InferenceOutcome::Batched(Ok(v))
            ||| outcome == InferenceOutcome::Direct(Ok(Ok(v)))
        },
        outcome matches InferenceOutcome::Worker(Ok(WorkerResponse::Embed(_)))
            ==> outcome_vectors(outcome) is Ok,
        outcome matches InferenceOutcome::Batched(Ok(_)) ==> outcome_vectors(outcome) is Ok,
        outcome matches InferenceOutcome::Direct(Ok(Ok(_))) ==> outcome_vectors(outcome) is Ok,
        outcome matches InferenceOutcome::Batched(Err(BatchError::QueueFull(full))) ==> (
        outcome_vectors(outcome) matches Err(e) && e.status == 429 && e.message == full.words()),
        outcome matches InferenceOutcome::Batched(Err(BatchError::Shutdown)) ==> (outcome_vectors(
            outcome,
        ) matches Err(e) && e.status == 503),
        outcome matches InferenceOutcome::Batched(Err(BatchError::Inference(m))) ==> (
        outcome_vectors(outcome) matches Err(e) && e.status == 500 && e.message == m@),
        outcome matches InferenceOutcome::Direct(Ok(Err(m))) ==> (outcome_vectors(
            outcome,
        ) matches Err(e) && e.status == 500 && e.message == m@),
        outcome is Worker ==> (outcome_vectors(outcome) matches Err(e) ==> e.status == 500),
{
}

/// An answered request is counted once under its model and status, with its time
/// and the number of its texts.
pub proof fn law_request_is_counted_once(
    model: Seq<char>,
    status: Seq<char>,
    nanos: u128,
    texts: usize,
)
    ensures
        ({
            let u: Seq<UpdateView> = request_updates(model, status, nanos, texts);
            &&& u.len() == 3
            &&& u[0].name == "embed_requests_total"@
            &&& u[0].labels == seq![("model"@, model), ("status"@, status)]
            &&& u[0].change == Change::CounterIncrement(1)
            &&& u[1].name == "embed_request_duration_seconds"@
            &&& u[1].labels == seq![("model"@, model)]
            &&& u[1].change == Change::HistogramRecord(Amount::Seconds { nanos })
            &&& u[2].name == "embed_texts_per_request"@
            &&& u[2].labels == seq![("model"@, model)]
            &&& u[2].change == Change::HistogramRecord(Amount::Whole(texts as u128))
        }),
{
}

/// Why a request is refused, the first reason first.
pub proof fn law_request_refusals(req: EmbedRequest, server: Serving)
    ensures
        ({
            let n: nat = match req.input {
                EmbedInput::Single(_) => 1,
                EmbedInput::Batch(v) => v@.len(),
            };
            let model: Seq<char> = match req.model {
                Some(m) => m@,
                None => server.default_model@,
            };
            let r: Option<RefusalView> = request_refusal(req, false, server);
            &&& request_refusal(req, true, server) == Some(draining())
            &&& n == 0 ==> r == Some(wrong_request("input must not be empty"@))
            &&& n > server.max_input_array && n > 0 ==> (r matches Some(v) && v.status == 400
                && v.limit == Some(
                ("input_array_too_large"@, server.max_input_array, n as usize),
            ))
            &&& 0 < n <= server.max_input_array && !names_view(server.models@).contains(model) ==> r
                == Some(wrong_request("model '"@ + model + "' not found"@))
        }),
{
}

/// What is recorded of a request before it is served: its size where it was
/// looked at, and why it was refused.
pub proof fn law_checks_are_recorded(
    req: EmbedRequest,
    is_draining: bool,
    server: Serving,
    nanos: u128,
)
    ensures
        ({
            let n: int = req.input.texts().len() as int;
            let model: Seq<char> = model_of(req, server);
            let u: Seq<UpdateView> = check_updates(req, is_draining, server, nanos);
            let known: bool = names_view(server.models@).contains(model);
            &&& is_draining ==> u.len() == 0
            &&& !is_draining && n == 0 ==> u == request_updates(model, "error"@, nanos, 0)
            &&& !is_draining && n > 0 ==> {
                &&& u[0].name == "embed_input_array_size"@
                &&& u[0].labels == seq![("model"@, model)]
                &&& u[0].change == Change::HistogramRecord(Amount::Whole(n as u128))
                &&& n > server.max_input_array ==> {
                    &&& u.len() == 5
                    &&& u[1].name == "embed_input_array_rejected_total"@
                    &&& u[1].labels == seq![("model"@, model), ("reason"@, "size_cap"@)]
                    &&& u[1].change == Change::CounterIncrement(1)
                    &&& u.skip(2) == request_updates(model, "error"@, nanos, n as usize)
                }
                &&& n <= server.max_input_array && !known ==> u.len() == 4 && u.skip(1)
                    == request_updates(model, "error"@, nanos, 0)
                &&& n <= server.max_input_array && known ==> u.len() == 1
            }
        }),
{
    let n: nat = req.input.texts().len();
    let model: Seq<char> = model_of(req, server);
    let u: Seq<UpdateView> = check_updates(req, is_draining, server, nanos);
    assert(request_updates(model, "error"@, nanos, n as usize).len() == 3);
    assert(request_updates(model, "error"@, nanos, 0).len() == 3);
    if u.len() == 5 {
        assert(u.skip(2) =~= request_updates(model, "error"@, nanos, n as usize));
    }
    if u.len() == 4 {
        assert(u.skip(1) =~= request_updates(model, "error"@, nanos, 0));
    }
}

/// What is recorded of an inference: an error is counted as that of the request,
/// and one outside a batch with its time and the number of its vectors.
pub proof fn law_inferences_are_recorded(
    outcome: InferenceOutcome,
    accepted: Accepted,
    infer_nanos: u128,
    nanos: u128,
)
    ensures
        ({
            let u: Seq<UpdateView> = outcome_updates(outcome, accepted, infer_nanos, nanos);
            &&& outcome_vectors(outcome) is Err ==> u == request_updates(
                accepted.model@,
                "error"@,
                nanos,
                accepted.texts@.len() as usize,
            )
            &&& outcome_vectors(outcome) matches Ok(v) ==> {
                &&& outcome is Batched ==> u.len() == 0
                &&& !(outcome is Batched) ==> {
                    &&& u.len() == 2
                    &&& u[0].name == "embed_inference_duration_seconds"@
                    &&& u[0].labels == seq![("model"@, accepted.model@)]
                    &&& u[0].change == Change::HistogramRecord(
                        Amount::Seconds { nanos: infer_nanos },
                    )
                    &&& u[1].name == "embed_batch_size"@
                    &&& u[1].labels == seq![("model"@, accepted.model@)]
                    &&& u[1].change == Change::HistogramRecord(Amount::Whole(v@.len() as u128))
                }
            }
        }),
{
}

/// What is said of texts that could not be turned into tokens.
pub proof fn law_words_of_the_tokenizer(e: String)
    ensures
        tokenize_words(TokenizeFailure::Failed(e)) == e@,
        tokenize_words(TokenizeFailure::Panicked(e)) == "tokenize task panicked: "@ + e@,
{
}

/// What a client is told of an inference that gave no vectors: nothing of a
/// worker's own words, and the error of one that ran by itself.
pub proof fn law_failed_inferences_are_told(outcome: InferenceOutcome)
    ensures
        outcome matches InferenceOutcome::Worker(Err(_)) ==> outcome_vectors(outcome) == Err::<
            Vec<Vec<u32>>,
            RefusalView,
        >(failed("inference failed"@)),
        outcome matches InferenceOutcome::Worker(Ok(r)) ==> {
            &&& r is Failed ==> outcome_vectors(outcome) == Err::<Vec<Vec<u32>>, RefusalView>(
                failed("inference failed"@),
            )
            &&& r is Rerank || r is Splade ==> outcome_vectors(outcome) == Err::<
                Vec<Vec<u32>>,
                RefusalView,
            >(failed("inference failed: unexpected response kind"@))
        },
        outcome matches InferenceOutcome::Batched(Err(e)) ==> outcome_vectors(outcome) == Err::<
            Vec<Vec<u32>>,
            RefusalView,
        >(batch_refusal(e)),
        outcome matches InferenceOutcome::Direct(Ok(Err(e))) ==> outcome_vectors(outcome) == Err::<
            Vec<Vec<u32>>,
            RefusalView,
        >(failed(e@)),
        outcome matches InferenceOutcome::Direct(Err(e)) ==> outcome_vectors(outcome) == Err::<
            Vec<Vec<u32>>,
            RefusalView,
        >(failed("spawn: "@ + e@)),
{
}

} // verus!
