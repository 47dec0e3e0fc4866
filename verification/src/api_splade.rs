//! `POST /embed_sparse`: texts as sparse vectors. A floating-point number is
//! held as its bit pattern.
use vstd::prelude::*;
use vstd::string::*;
use crate::ipc::protocol::WorkerResponse;
use crate::metrics::{
    classify_worker_error, failure_label, record_inference_failure, MetricLog, UpdateView, Change,
};
use crate::reply::{
    choose_model, chosen, draining, error_json, failed, names_view, server_error, shutting_down,
    wrong_request, Refusal, RefusalView,
};
use crate::text::{decimal, trim, trimmed};

verus! {

broadcast use group_string_axioms;

/// The most entries of a vector where the request does not say.
pub const DEFAULT_TOP_K: usize = 256;

/// The weight that an entry must exceed where the request does not say: zero.
pub const DEFAULT_MIN_WEIGHT: u32 = 0;

/// A request for sparse vectors.
#[derive(Debug)]
pub struct SparseEmbeddingsRequest {
    pub model: Option<String>,
    pub input: Vec<String>,
    pub top_k: Option<usize>,
    /// Entries of at most this weight are dropped (a bit pattern).
    pub min_weight: Option<u32>,
}

/// The sparse vector of one text.
#[derive(Debug, PartialEq)]
pub struct SparseEmbeddingItem {
    /// The text's place in the request.
    pub index: usize,
    /// The tokens.
    pub indices: Vec<u32>,
    /// Their weights (bit patterns), in the same order.
    pub values: Vec<u32>,
}

/// The response to a request.
#[derive(Debug)]
pub struct SparseEmbeddingsResponse {
    pub model: String,
    pub data: Vec<SparseEmbeddingItem>,
}

/// A request that has passed the checks.
#[derive(Debug)]
pub struct SpladeJob {
    pub model: String,
    pub texts: Vec<String>,
    pub top_k: usize,
    pub min_weight: u32,
}

/// The SPLADE model that a request means.
pub open spec fn splade_choice(names: Seq<Seq<char>>, req_model: Option<String>) -> Result<
    Seq<char>,
    Seq<char>,
> {
    chosen(
        names,
        match req_model {
            Some(name) => Some(name@),
            None => None,
        },
        "splade model"@,
        "splade"@,
        "splade models"@,
    )
}

/// Chooses the SPLADE model that a request means: the one that it names, or the
/// only one. `names` holds the name of each model once.
pub fn resolve_splade_name(names: &Vec<String>, req_model: Option<String>) -> (r: Result<
    String,
    String,
>)
    ensures
        match (r, splade_choice(names_view(names@), req_model)) {
            (Ok(name), Ok(n)) => name@ == n,
            (Err(e), Err(m)) => e@ == m,
            _ => false,
        },
{
    choose_model(names, req_model, "splade model", "splade", "splade models")
}

/// A text is nothing but white space.
pub open spec fn has_blank(texts: Seq<String>) -> bool {
    exists|i: int| 0 <= i < texts.len() && trimmed((#[trigger] texts[i])@).len() == 0
}

fn any_blank(texts: &Vec<String>) -> (r: bool)
    ensures
        r == has_blank(texts@),
{
    let mut i: usize = 0;
    while i < texts.len()
        invariant
            i <= texts.len(),
            forall|j: int| 0 <= j < i ==> trimmed((#[trigger] texts@[j])@).len() != 0,
        decreases texts.len() - i,
    {
        if trim(texts[i].as_str()).unicode_len() == 0 {
            return true;
        }
        i = i + 1;
    }
    false
}

/// Why a request is refused before anything is done for it; `None` where it is
/// not.
pub open spec fn splade_refusal(
    req: SparseEmbeddingsRequest,
    is_draining: bool,
    names: Seq<Seq<char>>,
) -> Option<RefusalView> {
    if is_draining {
        Some(draining())
    } else if req.input@.len() == 0 {
        Some(wrong_request("input must not be empty"@))
    } else if has_blank(req.input@) {
        Some(wrong_request("input texts must not be empty or whitespace-only"@))
    } else {
        match splade_choice(names, req.model) {
            Ok(_) => None,
            Err(m) => Some(wrong_request(m)),
        }
    }
}

/// Checks a request: the server must not be about to stop, there must be texts,
/// none of them blank, and the model must be clear.
pub fn check_splade(req: SparseEmbeddingsRequest, is_draining: bool, names: &Vec<String>) -> (r:
    Result<SpladeJob, Refusal>)
    ensures
        match (r, splade_refusal(req, is_draining, names_view(names@))) {
            (Ok(job), None) => {
                &&& Ok::<Seq<char>, Seq<char>>(job.model@) == splade_choice(
                    names_view(names@),
                    req.model,
                )
                &&& job.texts == req.input
                &&& job.top_k == match req.top_k {
                    Some(k) => k,
                    None => DEFAULT_TOP_K,
                }
                &&& job.min_weight == match req.min_weight {
                    Some(w) => w,
                    None => DEFAULT_MIN_WEIGHT,
                }
            },
            (Err(e), Some(v)) => e@ == v,
            _ => false,
        },
{
    if is_draining {
        return Err(shutting_down());
    }
    if req.input.len() == 0 {
        return Err(error_json("input must not be empty".to_owned()));
    }
    if any_blank(&req.input) {
        return Err(error_json("input texts must not be empty or whitespace-only".to_owned()));
    }
    match resolve_splade_name(names, req.model) {
        Err(m) => Err(error_json(m)),
        Ok(model) => {
            let top_k: usize = match req.top_k {
                Some(k) => k,
                None => DEFAULT_TOP_K,
            };
            let min_weight: u32 = match req.min_weight {
                Some(w) => w,
                None => DEFAULT_MIN_WEIGHT,
            };
            Ok(SpladeJob { model, texts: req.input, top_k, min_weight })
        },
    }
}

/// A bit pattern that stands for no number.
pub open spec fn is_nan(bits: u32) -> bool {
    bits % 0x8000_0000 > 0x7f80_0000
}

/// The rank of a number among the floating-point numbers; both zeros have the
/// same.
pub open spec fn number_rank(bits: u32) -> int {
    if bits < 0x8000_0000 {
        bits as int
    } else {
        0x8000_0000 - bits
    }
}

/// The comparison `a > b` of floating-point numbers: false where one of them
/// is no number.
pub open spec fn exceeds(a: u32, b: u32) -> bool {
    !is_nan(a) && !is_nan(b) && number_rank(a) > number_rank(b)
}

/// Whether one floating-point number is larger than another.
pub fn is_above(a: u32, b: u32) -> (r: bool)
    ensures
        r == exceeds(a, b),
        a % 0x8000_0000 > 0x7f80_0000 || b % 0x8000_0000 > 0x7f80_0000 ==> !r,
        a <= 0x7f80_0000 && b <= 0x7f80_0000 ==> r == (a > b),
        0x8000_0000 <= a <= 0xff80_0000 && 0x8000_0000 <= b <= 0xff80_0000 ==> r == (a < b),
        a <= 0x7f80_0000 && 0x8000_0000 <= b <= 0xff80_0000 ==> r == (a != 0 || b != 0x8000_0000),
        0x8000_0000 <= a <= 0xff80_0000 && b <= 0x7f80_0000 ==> !r,
{
    if a % 0x8000_0000 > 0x7f80_0000 || b % 0x8000_0000 > 0x7f80_0000 {
        return false;
    }
    let x: i64 = if a < 0x8000_0000 {
        a as i64
    } else {
        0x8000_0000 - a as i64
    };
    let y: i64 = if b < 0x8000_0000 {
        b as i64
    } else {
        0x8000_0000 - b as i64
    };
    x > y
}

/// The entries whose weight exceeds the threshold, in order.
pub open spec fn heavy(pairs: Seq<(u32, u32)>, min_weight: u32) -> Seq<(u32, u32)>
    decreases pairs.len(),
{
    if pairs.len() == 0 {
        Seq::empty()
    } else {
        let rest: Seq<(u32, u32)> = heavy(pairs.drop_last(), min_weight);
        if exceeds(pairs.last().1, min_weight) {
            rest.push(pairs.last())
        } else {
            rest
        }
    }
}

/// The first `n` entries.
pub open spec fn at_most(pairs: Seq<(u32, u32)>, n: usize) -> Seq<(u32, u32)> {
    if n < pairs.len() {
        pairs.take(n as int)
    } else {
        pairs
    }
}

/// The item holds the given entries, tokens and weights apart.
pub open spec fn holds_entries(
    item: SparseEmbeddingItem,
    index: int,
    pairs: Seq<(u32, u32)>,
) -> bool {
    &&& item.index == index
    &&& item.indices@ == pairs.map_values(|p: (u32, u32)| p.0)
    &&& item.values@ == pairs.map_values(|p: (u32, u32)| p.1)
}

/// The item of one text from the entries of its vector.
pub fn split_entries(index: usize, pairs: &Vec<(u32, u32)>) -> (r: SparseEmbeddingItem)
    ensures
        holds_entries(r, index as int, pairs@),
{
    let mut indices: Vec<u32> = Vec::new();
    let mut values: Vec<u32> = Vec::new();
    let mut i: usize = 0;
    while i < pairs.len()
        invariant
            i <= pairs.len(),
            indices@ == pairs@.take(i as int).map_values(|p: (u32, u32)| p.0),
            values@ == pairs@.take(i as int).map_values(|p: (u32, u32)| p.1),
        decreases pairs.len() - i,
    {
        proof {
            assert(pairs@.take(i + 1) =~= pairs@.take(i as int).push(pairs@[i as int]));
        }
        indices.push(pairs[i].0);
        values.push(pairs[i].1);
        proof {
            assert(indices@ =~= pairs@.take(i + 1).map_values(|p: (u32, u32)| p.0));
            assert(values@ =~= pairs@.take(i + 1).map_values(|p: (u32, u32)| p.1));
        }
        i = i + 1;
    }
    assert(pairs@.take(i as int) =~= pairs@);
    SparseEmbeddingItem { index, indices, values }
}

/// The entries of a worker's vector that the request wants: those above its
/// threshold, and of these the first `top_k`.
pub fn wanted_entries(pairs: &Vec<(u32, u32)>, top_k: usize, min_weight: u32) -> (r: Vec<
    (u32, u32),
>)
    ensures
        r@ == at_most(heavy(pairs@, min_weight), top_k),
{
    let mut out: Vec<(u32, u32)> = Vec::new();
    let mut i: usize = 0;
    while i < pairs.len()
        invariant
            i <= pairs.len(),
            out@ == heavy(pairs@.take(i as int), min_weight),
        decreases pairs.len() - i,
    {
        proof {
            assert(pairs@.take(i + 1).drop_last() =~= pairs@.take(i as int));
        }
        let pair: (u32, u32) = pairs[i];
        if is_above(pair.1, min_weight) {
            out.push(pair);
        }
        i = i + 1;
    }
    assert(pairs@.take(i as int) =~= pairs@);
    out.truncate(top_k);
    out
}

/// How a worker's exchange ended without a response.
#[derive(Debug)]
pub enum DispatchFailure {
    /// The worker did not answer in time.
    Timeout,
    /// Anything else.
    Other,
}

/// The worker is being started again.
pub open spec fn respawning() -> RefusalView {
    RefusalView {
        status: 503,
        retry_after: Some(5),
        error_type: "worker_unavailable"@,
        message: "splade failed: worker respawning"@,
        limit: None,
    }
}

/// What the client is told of a worker's answer that holds no vectors.
pub open spec fn worker_refusal(resp: Result<WorkerResponse, DispatchFailure>) -> RefusalView {
    match resp {
        Ok(WorkerResponse::Failed { .. }) => failed("splade failed"@),
        Ok(_) => failed("splade failed: unexpected response kind"@),
        Err(DispatchFailure::Timeout) => respawning(),
        Err(DispatchFailure::Other) => failed("splade failed"@),
    }
}

/// Answers a request with a worker's vectors, or refuses it. A worker's error
/// is counted by its reason.
pub fn answer_from_worker(
    job: SpladeJob,
    resp: Result<WorkerResponse, DispatchFailure>,
    log: &mut MetricLog,
) -> (r: Result<SparseEmbeddingsResponse, Refusal>)
    ensures
        match (r, resp) {
            (Ok(answer), Ok(WorkerResponse::Splade(a))) => {
                &&& answer.model@ == job.model@
                &&& answer.data@.len() == a.sparse@.len()
                &&& forall|i: int|
                    0 <= i < answer.data@.len() ==> holds_entries(
                        #[trigger] answer.data@[i],
                        i,
                        at_most(heavy(a.sparse@[i]@, job.min_weight), job.top_k),
                    )
            },
            (Err(e), _) => !(resp matches Ok(WorkerResponse::Splade(_))) && e@ == worker_refusal(
                resp,
            ),
            _ => false,
        },
        final(log)@ == match resp {
            Ok(WorkerResponse::Failed { message, .. }) => old(log)@.push(
                UpdateView {
                    name: "embed_inference_failures_total"@,
                    labels: seq![
                        ("model"@, job.model@),
                        ("reason"@, failure_label(message@)),
                        ("bin_num"@, decimal(0)),
                    ],
                    change: Change::CounterIncrement(1),
                },
            ),
            _ => old(log)@,
        },
{
    match resp {
        Ok(WorkerResponse::Splade(a)) => {
            let mut data: Vec<SparseEmbeddingItem> = Vec::new();
            let mut i: usize = 0;
            while i < a.sparse.len()
                invariant
                    i <= a.sparse.len(),
                    data@.len() == i,
                    forall|j: int|
                        0 <= j < i ==> holds_entries(
                            #[trigger] data@[j],
                            j,
                            at_most(heavy(a.sparse@[j]@, job.min_weight), job.top_k),
                        ),
                decreases a.sparse.len() - i,
            {
                let entries: Vec<(u32, u32)> = wanted_entries(
                    &a.sparse[i],
                    job.top_k,
                    job.min_weight,
                );
                data.push(split_entries(i, &entries));
                i = i + 1;
            }
            Ok(SparseEmbeddingsResponse { model: job.model, data })
        },
        Ok(WorkerResponse::Failed { message, .. }) => {
            let reason: &'static str = classify_worker_error(message.as_str());
            record_inference_failure(log, job.model.as_str(), reason, 0);
            Err(server_error("splade failed".to_owned()))
        },
        Ok(_) => Err(server_error("splade failed: unexpected response kind".to_owned())),
        Err(DispatchFailure::Timeout) => Err(
            Refusal {
                status: 503,
                retry_after: Some(5),
                error_type: "worker_unavailable",
                message: "splade failed: worker respawning".to_owned(),
                limit: None,
            },
        ),
        Err(DispatchFailure::Other) => Err(server_error("splade failed".to_owned())),
    }
}

/// How the encoding of one text ended: entries or an error, or what is known of
/// a task that broke down.
pub type EncodeOutcome = Result<Result<Vec<(u32, u32)>, String>, String>;

/// What the client is told of a text that could not be encoded.
pub open spec fn encode_failure(outcome: EncodeOutcome) -> Option<Seq<char>> {
    match outcome {
        Ok(Ok(_)) => None,
        Ok(Err(e)) => Some(e@),
        Err(e) => Some("splade task panicked: "@ + e@),
    }
}

/// The item of the text at `index`, or a refusal of the whole request.
pub fn encoded_item(index: usize, outcome: EncodeOutcome) -> (r: Result<
    SparseEmbeddingItem,
    Refusal,
>)
    ensures
        match r {
            Ok(item) => outcome matches Ok(Ok(pairs)) && holds_entries(item, index as int, pairs@),
            Err(e) => encode_failure(outcome) matches Some(m) && e@ == failed(m),
        },
{
    match outcome {
        Ok(Ok(pairs)) => Ok(split_entries(index, &pairs)),
        Ok(Err(e)) => Err(server_error(e)),
        Err(e) => {
            let mut m: String = "splade task panicked: ".to_owned();
            m.append(e.as_str());
            Err(server_error(m))
        },
    }
}

/// Encodes the texts of a request one after the other. The first text that
/// fails ends it.
pub fn encode_each<F: Fn(&String) -> EncodeOutcome>(job: SpladeJob, encode: &F) -> (r: Result<
    SparseEmbeddingsResponse,
    Refusal,
>)
    requires
        forall|t: &String| call_requires(encode, (t,)),
    ensures
        match r {
            Ok(answer) => {
                &&& answer.model@ == job.model@
                &&& answer.data@.len() == job.texts@.len()
                &&& forall|i: int|
                    0 <= i < answer.data@.len() ==> is_encoding(
                        encode,
                        job.texts@[i],
                        #[trigger] answer.data@[i],
                        i,
                    )
            },
            Err(e) => exists|i: int|
                0 <= i < job.texts@.len() && fails_encoding(
                    encode,
                    #[trigger] job.texts@[i],
                    e@,
                ) && forall|j: int|
                    0 <= j < i ==> gives_entries(encode, #[trigger] job.texts@[j]),
        },
{
    let mut data: Vec<SparseEmbeddingItem> = Vec::new();
    let mut i: usize = 0;
    while i < job.texts.len()
        invariant
            i <= job.texts.len(),
            forall|t: &String| call_requires(encode, (t,)),
            data@.len() == i,
            forall|j: int|
                0 <= j < i ==> is_encoding(encode, job.texts@[j], #[trigger] data@[j], j),
            forall|j: int| 0 <= j < i ==> gives_entries(encode, #[trigger] job.texts@[j]),
        decreases job.texts.len() - i,
    {
        let outcome: EncodeOutcome = encode(&job.texts[i]);
        match encoded_item(i, outcome) {
            Ok(item) => {
                assert(gives_entries(encode, job.texts@[i as int]));
                assert(is_encoding(encode, job.texts@[i as int], item, i as int));
                data.push(item);
            },
            Err(e) => {
                assert(fails_encoding(encode, job.texts@[i as int], e@));
                return Err(e);
            },
        }
        i = i + 1;
    }
    Ok(SparseEmbeddingsResponse { model: job.model, data })
}

/// The item holds what the encoder gave for the text.
pub open spec fn is_encoding<F: Fn(&String) -> EncodeOutcome>(
    encode: &F,
    text: String,
    item: SparseEmbeddingItem,
    i: int,
) -> bool {
    exists|o: EncodeOutcome| #[trigger]
        call_ensures(encode, (&text,), o) && (o matches Ok(Ok(pairs)) && holds_entries(
            item,
            i,
            pairs@,
        ))
}

/// The encoder gave entries for the text.
pub open spec fn gives_entries<F: Fn(&String) -> EncodeOutcome>(encode: &F, text: String) -> bool {
    exists|o: EncodeOutcome| #[trigger]
        call_ensures(encode, (&text,), o) && (o matches Ok(Ok(_)))
}

/// The refusal is the one for a text that the encoder failed on.
pub open spec fn fails_encoding<F: Fn(&String) -> EncodeOutcome>(
    encode: &F,
    text: String,
    e: RefusalView,
) -> bool {
    exists|o: EncodeOutcome| #[trigger]
        call_ensures(encode, (&text,), o) && (encode_failure(o) matches Some(m) && e == failed(m))
}

/// The entries that a request gets of a worker's vector are some of the
/// vector's, in its order, each above the threshold, and no more than the
/// request wants.
pub proof fn law_entries_are_filtered(pairs: Seq<(u32, u32)>, top_k: usize, min_weight: u32)
    ensures
        at_most(heavy(pairs, min_weight), top_k).len() <= top_k,
        at_most(heavy(pairs, min_weight), top_k).len() <= pairs.len(),
        forall|i: int|
            0 <= i < at_most(heavy(pairs, min_weight), top_k).len() ==> exceeds(
                (#[trigger] at_most(heavy(pairs, min_weight), top_k)[i]).1,
                min_weight,
            ) && pairs.contains(at_most(heavy(pairs, min_weight), top_k)[i]),
        heavy(pairs, min_weight).len() <= top_k ==> forall|j: int|
            0 <= j < pairs.len() && exceeds((#[trigger] pairs[j]).1, min_weight) ==> at_most(
                heavy(pairs, min_weight),
                top_k,
            ).contains(pairs[j]),
{
    lemma_heavy(pairs, min_weight);
    let all: Seq<(u32, u32)> = heavy(pairs, min_weight);
    let cut: Seq<(u32, u32)> = at_most(all, top_k);
    assert forall|i: int| 0 <= i < cut.len() implies exceeds((#[trigger] cut[i]).1, min_weight)
        && pairs.contains(cut[i]) by {
        assert(cut[i] == all[i]);
    }
}

proof fn lemma_heavy(pairs: Seq<(u32, u32)>, min_weight: u32)
    ensures
        heavy(pairs, min_weight).len() <= pairs.len(),
        forall|i: int|
            0 <= i < heavy(pairs, min_weight).len() ==> exceeds(
                (#[trigger] heavy(pairs, min_weight)[i]).1,
                min_weight,
            ) && pairs.contains(heavy(pairs, min_weight)[i]),
        forall|j: int|
            0 <= j < pairs.len() && exceeds((#[trigger] pairs[j]).1, min_weight) ==> heavy(
                pairs,
                min_weight,
            ).contains(pairs[j]),
    decreases pairs.len(),
{
    if pairs.len() > 0 {
        let before: Seq<(u32, u32)> = pairs.drop_last();
        let rest: Seq<(u32, u32)> = heavy(before, min_weight);
        let all: Seq<(u32, u32)> = heavy(pairs, min_weight);
        lemma_heavy(before, min_weight);
        assert forall|i: int| 0 <= i < all.len() implies exceeds((#[trigger] all[i]).1, min_weight)
            && pairs.contains(all[i]) by {
            if i < rest.len() {
                assert(all[i] == rest[i]);
                assert(before.contains(rest[i]));
                let j: int = choose|j: int| 0 <= j < before.len() && before[j] == rest[i];
                assert(pairs[j] == rest[i]);
            } else {
                assert(pairs[pairs.len() - 1] == all[i]);
            }
        }
        assert forall|j: int| 0 <= j < pairs.len() && exceeds(
            (#[trigger] pairs[j]).1,
            min_weight,
        ) implies all.contains(pairs[j]) by {
            if j < before.len() {
                assert(before[j] == pairs[j]);
                assert(rest.contains(pairs[j]));
                let i: int = choose|i: int| 0 <= i < rest.len() && rest[i] == pairs[j];
                assert(all[i] == pairs[j]);
            } else {
                assert(all[rest.len() as int] == pairs[j]);
            }
        }
    }
}

/// Weights are compared as floating-point numbers are: what is no number exceeds
/// nothing and is not exceeded; of two numbers without a sign the larger pattern
/// is the larger number, of two with a sign the smaller one; a number without a
/// sign exceeds every one with a sign, except that the two zeros are equal.
pub proof fn law_weights_are_compared_as_numbers(a: u32, b: u32)
    ensures
        a % 0x8000_0000 > 0x7f80_0000 || b % 0x8000_0000 > 0x7f80_0000 ==> !exceeds(a, b),
        a <= 0x7f80_0000 && b <= 0x7f80_0000 ==> (exceeds(a, b) <==> a > b),
        0x8000_0000 <= a <= 0xff80_0000 && 0x8000_0000 <= b <= 0xff80_0000 ==> (exceeds(a, b)
            <==> a < b),
        a <= 0x7f80_0000 && 0x8000_0000 <= b <= 0xff80_0000 ==> (exceeds(a, b) <==> !(a == 0 && b
            == 0x8000_0000)),
        0x8000_0000 <= a && b < 0x8000_0000 ==> !exceeds(a, b),
{
}

/// Of two different numbers that are not the two zeros, one exceeds the other.
pub proof fn law_different_weights_are_told_apart(a: u32, b: u32)
    requires
        a % 0x8000_0000 <= 0x7f80_0000,
        b % 0x8000_0000 <= 0x7f80_0000,
        a != b,
        a % 0x8000_0000 != 0 || b % 0x8000_0000 != 0,
    ensures
        exceeds(a, b) <==> !exceeds(b, a),
{
}

/// Whether an entry is wanted rests on its own weight: one above the threshold
/// is added behind those before it, and any other changes nothing.
pub proof fn law_each_entry_is_judged_by_itself(
    pairs: Seq<(u32, u32)>,
    token: u32,
    weight: u32,
    min_weight: u32,
)
    ensures
        heavy(Seq::empty(), min_weight).len() == 0,
        exceeds(weight, min_weight) ==> heavy(pairs.push((token, weight)), min_weight) == heavy(
            pairs,
            min_weight,
        ).push((token, weight)),
        !exceeds(weight, min_weight) ==> heavy(pairs.push((token, weight)), min_weight) == heavy(
            pairs,
            min_weight,
        ),
        weight <= 0x7f80_0000 && min_weight <= 0x7f80_0000 && weight > min_weight ==> heavy(
            pairs.push((token, weight)),
            min_weight,
        ).last() == (token, weight),
{
    assert(pairs.push((token, weight)).drop_last() =~= pairs);
}

/// Of the entries above the threshold the first `top_k` are given, all of them
/// where there are no more.
pub proof fn law_first_entries_are_given(pairs: Seq<(u32, u32)>, top_k: usize, i: int)
    ensures
        at_most(pairs, top_k).len() <= top_k,
        at_most(pairs, top_k).len() == pairs.len() || at_most(pairs, top_k).len() == top_k,
        at_most(pairs, top_k).len() <= pairs.len(),
        0 <= i < at_most(pairs, top_k).len() ==> at_most(pairs, top_k)[i] == pairs[i],
{
}

/// An item holds the tokens and the weights of its entries, each weight at the
/// place of its token, and its text's place in the request.
pub proof fn law_weights_stay_with_their_tokens(
    item: SparseEmbeddingItem,
    index: int,
    pairs: Seq<(u32, u32)>,
    k: int,
)
    requires
        holds_entries(item, index, pairs),
        0 <= k < pairs.len(),
    ensures
        item.index == index,
        item.indices@.len() == pairs.len(),
        item.values@.len() == pairs.len(),
        (item.indices@[k], item.values@[k]) == pairs[k],
{
}

/// A request for sparse vectors is let in exactly where the server is not
/// stopping, there are texts, each of them more than white space, and the model
/// is clear.
pub proof fn law_splade_requests_are_let_in(
    req: SparseEmbeddingsRequest,
    is_draining: bool,
    names: Seq<Seq<char>>,
)
    ensures
        splade_refusal(req, is_draining, names) is None <==> !is_draining && req.input@.len() > 0
            && (forall|i: int|
            0 <= i < req.input@.len() ==> trimmed((#[trigger] req.input@[i])@).len() > 0)
            && splade_choice(names, req.model) is Ok,
        is_draining ==> splade_refusal(req, is_draining, names)->0.status == 503,
        !is_draining ==> (splade_refusal(req, is_draining, names) matches Some(e) ==> e.status
            == 400),
{
}

/// The defaults of a request: the 256 largest entries, and every weight above
/// zero.
pub proof fn law_splade_defaults()
    ensures
        DEFAULT_TOP_K == 256,
        DEFAULT_MIN_WEIGHT == 0,
{
}

/// Why a request is refused, the first reason first.
pub proof fn law_splade_refusals(
    req: SparseEmbeddingsRequest,
    names: Seq<Seq<char>>,
    i: int,
    name: String,
)
    ensures
        splade_refusal(req, true, names) == Some(draining()),
        req.input@.len() == 0 ==> splade_refusal(req, false, names) == Some(
            wrong_request("input must not be empty"@),
        ),
        0 <= i < req.input@.len() && trimmed(req.input@[i]@).len() == 0 ==> splade_refusal(
            req,
            false,
            names,
        ) == Some(wrong_request("input texts must not be empty or whitespace-only"@)),
        req.input@.len() > 0 && (forall|k: int|
            0 <= k < req.input@.len() ==> trimmed((#[trigger] req.input@[k])@).len() > 0) ==> {
            &&& req.model == Some(name) && names.contains(name@) ==> splade_refusal(
                req,
                false,
                names,
            ) is None
            &&& req.model == Some(name) && !names.contains(name@) ==> splade_refusal(
                req,
                false,
                names,
            ) == Some(wrong_request("splade model"@ + " '"@ + name@ + "' not found"@))
            &&& req.model is None && names.len() == 0 ==> splade_refusal(req, false, names) == Some(
                wrong_request("no "@ + "splade"@ + " models configured"@),
            )
            &&& req.model is None && names.len() == 1 ==> splade_refusal(req, false, names) is None
            &&& req.model is None && names.len() > 1 ==> splade_refusal(req, false, names) == Some(
                wrong_request(
                    "`model` is required when multiple "@ + "splade models"@ + " are configured"@,
                ),
            )
        },
{
    if 0 <= i < req.input@.len() && trimmed(req.input@[i]@).len() == 0 {
        assert(has_blank(req.input@));
    }
    if forall|k: int|
        0 <= k < req.input@.len() ==> trimmed((#[trigger] req.input@[k])@).len() > 0 {
        assert(!has_blank(req.input@));
    }
}

/// What a caller is told of a worker that gave no entries: only a worker that
/// is on its way back is worth another try.
pub proof fn law_worker_refusals(resp: Result<WorkerResponse, DispatchFailure>)
    ensures
        resp matches Err(DispatchFailure::Timeout) ==> {
            &&& worker_refusal(resp).status == 503
            &&& worker_refusal(resp).retry_after == Some(5u32)
            &&& worker_refusal(resp).error_type == "worker_unavailable"@
            &&& worker_refusal(resp).message == "splade failed: worker respawning"@
            &&& worker_refusal(resp).limit is None
        },
        resp matches Err(DispatchFailure::Other) ==> worker_refusal(resp) == failed(
            "splade failed"@,
        ),
        resp matches Ok(WorkerResponse::Failed { .. }) ==> worker_refusal(resp) == failed(
            "splade failed"@,
        ),
        (resp matches Ok(r) && !(r is Failed)) ==> worker_refusal(resp) == failed(
            "splade failed: unexpected response kind"@,
        ),
{
}

/// An encoding that gave no entries is told by its own error.
pub proof fn law_failed_encodings(outcome: EncodeOutcome)
    ensures
        encode_failure(outcome) is None <==> (outcome matches Ok(Ok(_))),
        outcome matches Ok(Err(e)) ==> encode_failure(outcome) == Some(e@),
        outcome matches Err(e) ==> encode_failure(outcome) == Some("splade task panicked: "@ + e@),
{
}

/// A text whose encoding failed was tried, and the caller is told its error.
pub proof fn law_failed_encoding_is_told<F: Fn(&String) -> EncodeOutcome>(
    encode: &F,
    text: String,
    e: RefusalView,
) -> (o: EncodeOutcome)
    requires
        fails_encoding(encode, text, e),
    ensures
        call_ensures(encode, (&text,), o),
        o matches Ok(Err(m)) ==> e == failed(m@),
        o matches Err(m) ==> e == failed("splade task panicked: "@ + m@),
        !(o matches Ok(Ok(_))),
{
    choose|o: EncodeOutcome| #[trigger]
        call_ensures(encode, (&text,), o) && (encode_failure(o) matches Some(m) && e == failed(m))
}

/// The entries of a text are those that the model gave for it.
pub proof fn law_entries_are_those_of_the_model<F: Fn(&String) -> EncodeOutcome>(
    encode: &F,
    text: String,
    item: SparseEmbeddingItem,
    i: int,
) -> (pairs: Vec<(u32, u32)>)
    requires
        is_encoding(encode, text, item, i),
    ensures
        call_ensures(encode, (&text,), Ok::<Result<Vec<(u32, u32)>, String>, String>(Ok(pairs))),
        holds_entries(item, i, pairs@),
        gives_entries(encode, text),
{
    let o: EncodeOutcome = choose|o: EncodeOutcome| #[trigger]
        call_ensures(encode, (&text,), o) && (o matches Ok(Ok(pairs)) && holds_entries(
            item,
            i,
            pairs@,
        ));
    o->Ok_0->Ok_0
}

} // verus!
