//! `GET /health` and `GET /ready`: whether the server is alive, and whether it
//! can do its work.
//!
//! Readiness is probed by a real inference on one word: a model that spins
//! without end would still answer anything lighter.
use vstd::prelude::*;
use vstd::string::*;
use crate::config::{exact_or, read_exact_or};
use crate::env::{lookup, EnvVars};
use crate::ipc::protocol::WorkerResponse;
use crate::metrics::{labelled, record_ready_probe, Change, MetricLog, UpdateView};
use crate::text::{decimal, push_decimal};

verus! {

broadcast use group_string_axioms;

/// How long a probe waits for an answer, in milliseconds: two seconds unless it
/// is set.
pub fn probe_timeout_ms(env: &EnvVars) -> (r: u64)
    ensures
        r == exact_or(lookup(env@, "EMBED_READY_PROBE_TIMEOUT_MS"@), u64::MAX as nat, 2000),
{
    read_exact_or(env.get("EMBED_READY_PROBE_TIMEOUT_MS"), u64::MAX, 2000)
}

/// The answer to a readiness probe.
#[derive(Debug)]
pub struct ReadyReply {
    /// The HTTP status.
    pub status: u16,
    /// The status in words.
    pub state: &'static str,
    pub model: Option<String>,
    pub error: Option<String>,
}

/// What a [`ReadyReply`] says.
#[verifier::ext_equal]
pub struct ReadyView {
    pub status: u16,
    pub state: Seq<char>,
    pub model: Option<Seq<char>>,
    pub error: Option<Seq<char>>,
}

impl View for ReadyReply {
    type V = ReadyView;

    open spec fn view(&self) -> ReadyView {
        ReadyView {
            status: self.status,
            state: self.state@,
            model: match self.model {
                Some(m) => Some(m@),
                None => None,
            },
            error: match self.error {
                Some(e) => Some(e@),
                None => None,
            },
        }
    }
}

/// The server can do its work.
pub open spec fn ready_view(model: Option<Seq<char>>, note: Option<Seq<char>>) -> ReadyView {
    ReadyView { status: 200, state: "ready"@, model, error: note }
}

/// The server cannot do its work.
pub open spec fn unready_view(model: Option<Seq<char>>, error: Seq<char>) -> ReadyView {
    ReadyView { status: 503, state: "not ready"@, model, error: Some(error) }
}

/// The update for an answered probe.
pub open spec fn probe_update(result: Seq<char>) -> UpdateView {
    labelled("embed_ready_probe_total"@, "result"@, result, Change::CounterIncrement(1))
}

/// The answer to a liveness probe.
pub fn health() -> (r: &'static str)
    ensures
        r@ == "ok"@,
{
    "ok"
}

/// How a readiness probe goes on.
#[derive(Debug)]
pub enum ProbeStep {
    /// It is answered.
    Answered(ReadyReply),
    /// A worker is to embed a word.
    AskWorker,
    /// The loaded model is to embed a word.
    AskModel,
}

/// How a readiness probe begins. `known` and `loaded` say of the default model
/// whether it is there and whether it is loaded in this process. Without a model there is
/// nothing to probe, and the server counts as ready.
pub open spec fn begins(
    is_draining: bool,
    has_workers: bool,
    model: Seq<char>,
    known: bool,
    loaded: bool,
) -> Option<(ReadyView, Seq<char>)> {
    if is_draining {
        Some((unready_view(None, "shutting down"@), "shutdown"@))
    } else if has_workers {
        None
    } else if !known {
        Some((ready_view(None, Some("no models configured"@)), "ok"@))
    } else if !loaded {
        Some(
            (unready_view(Some(model), "no in-process model and no worker pool"@), "error"@),
        )
    } else {
        None
    }
}

/// Begins a readiness probe.
pub fn begin_probe(
    is_draining: bool,
    has_workers: bool,
    model: &str,
    known: bool,
    loaded: bool,
    log: &mut MetricLog,
) -> (r: ProbeStep)
    ensures
        match begins(is_draining, has_workers, model@, known, loaded) {
            Some((v, result)) => (r matches ProbeStep::Answered(reply) && reply@ == v)
                && final(log)@ == old(log)@.push(probe_update(result)),
            None => (if has_workers {
                r is AskWorker
            } else {
                r is AskModel
            }) && final(log)@ == old(log)@,
        },
{
    if is_draining {
        record_ready_probe(log, "shutdown");
        return ProbeStep::Answered(
            ReadyReply {
                status: 503,
                state: "not ready",
                model: None,
                error: Some("shutting down".to_owned()),
            },
        );
    }
    if has_workers {
        return ProbeStep::AskWorker;
    }
    if !known {
        record_ready_probe(log, "ok");
        return ProbeStep::Answered(
            ReadyReply {
                status: 200,
                state: "ready",
                model: None,
                error: Some("no models configured".to_owned()),
            },
        );
    }
    if !loaded {
        record_ready_probe(log, "error");
        return ProbeStep::Answered(
            ReadyReply {
                status: 503,
                state: "not ready",
                model: Some(model.to_owned()),
                error: Some("no in-process model and no worker pool".to_owned()),
            },
        );
    }
    ProbeStep::AskModel
}

/// How the inference of a probe ended.
#[derive(Debug)]
pub enum ProbeOutcome {
    /// The worker answered.
    WorkerAnswered(WorkerResponse),
    /// The exchange with the worker failed.
    WorkerUnreachable(String),
    /// The worker did not answer in time.
    WorkerSilent,
    /// The loaded model gave a vector.
    ModelAnswered,
    /// The loaded model failed.
    ModelFailed(String),
    /// The task broke down.
    ModelPanicked(String),
    /// The loaded model did not answer in time.
    ModelSilent,
}

/// The message after a time-out.
pub open spec fn silence(timeout_ms: u64, who: Seq<char>) -> Seq<char> {
    "probe timed out after "@ + decimal(timeout_ms as nat) + "ms ("@ + who + " may be wedged)"@
}

/// What is wrong after a probe, and under which result it is counted; `None`
/// where the server is ready.
pub open spec fn probe_error(outcome: ProbeOutcome, timeout_ms: u64) -> Option<
    (Seq<char>, Seq<char>),
> {
    match outcome {
        ProbeOutcome::WorkerAnswered(WorkerResponse::Embed(_)) => None,
        ProbeOutcome::WorkerAnswered(WorkerResponse::Failed { message, .. }) => Some(
            ("worker error: "@ + message@, "error"@),
        ),
        ProbeOutcome::WorkerAnswered(_) => Some(("unexpected response kind"@, "error"@)),
        ProbeOutcome::WorkerUnreachable(e) => Some(("dispatch failed: "@ + e@, "error"@)),
        ProbeOutcome::WorkerSilent => Some((silence(timeout_ms, "worker"@), "timeout"@)),
        ProbeOutcome::ModelAnswered => None,
        ProbeOutcome::ModelFailed(e) => Some(("inference failed: "@ + e@, "error"@)),
        ProbeOutcome::ModelPanicked(e) => Some(("probe task panicked: "@ + e@, "error"@)),
        ProbeOutcome::ModelSilent => Some((silence(timeout_ms, "model"@), "timeout"@)),
    }
}

fn prefixed(prefix: &str, text: &str) -> (r: String)
    ensures
        r@ == prefix@ + text@,
{
    let mut m: String = prefix.to_owned();
    m.append(text);
    m
}

fn silence_message(timeout_ms: u64, who: &str) -> (r: String)
    ensures
        r@ == silence(timeout_ms, who@),
{
    let mut m: String = "probe timed out after ".to_owned();
    push_decimal(&mut m, timeout_ms);
    m.append("ms (");
    m.append(who);
    m.append(" may be wedged)");
    m
}

/// Ends a readiness probe: the server is ready exactly where the probe gave a
/// vector.
pub fn end_probe(model: String, outcome: ProbeOutcome, timeout_ms: u64, log: &mut MetricLog) -> (r:
    ReadyReply)
    ensures
        match probe_error(outcome, timeout_ms) {
            None => r@ == ready_view(Some(model@), None) && final(log)@ == old(log)@.push(
                probe_update("ok"@),
            ),
            Some((e, result)) => r@ == unready_view(Some(model@), e) && final(log)@ == old(
                log,
            )@.push(probe_update(result)),
        },
{
    let timed_out: bool = match &outcome {
        ProbeOutcome::WorkerSilent => true,
        ProbeOutcome::ModelSilent => true,
        _ => false,
    };
    let error: Option<String> = match outcome {
        ProbeOutcome::WorkerAnswered(WorkerResponse::Embed(_)) => None,
        ProbeOutcome::WorkerAnswered(WorkerResponse::Failed { message, .. }) => Some(
            prefixed("worker error: ", message.as_str()),
        ),
        ProbeOutcome::WorkerAnswered(_) => Some("unexpected response kind".to_owned()),
        ProbeOutcome::WorkerUnreachable(e) => Some(prefixed("dispatch failed: ", e.as_str())),
        ProbeOutcome::WorkerSilent => Some(silence_message(timeout_ms, "worker")),
        ProbeOutcome::ModelAnswered => None,
        ProbeOutcome::ModelFailed(e) => Some(prefixed("inference failed: ", e.as_str())),
        ProbeOutcome::ModelPanicked(e) => Some(prefixed("probe task panicked: ", e.as_str())),
        ProbeOutcome::ModelSilent => Some(silence_message(timeout_ms, "model")),
    };
    match error {
        None => {
            record_ready_probe(log, "ok");
            ReadyReply { status: 200, state: "ready", model: Some(model), error: None }
        },
        Some(e) => {
            if timed_out {
                record_ready_probe(log, "timeout");
            } else {
                record_ready_probe(log, "error");
            }
            ReadyReply { status: 503, state: "not ready", model: Some(model), error: Some(e) }
        },
    }
}

/// A model that does not answer, or that answers with an error, is never
/// reported as ready.
pub proof fn law_only_a_vector_means_ready(outcome: ProbeOutcome, timeout_ms: u64)
    ensures
        probe_error(outcome, timeout_ms) is None <==> (outcome is ModelAnswered || (outcome
            matches ProbeOutcome::WorkerAnswered(WorkerResponse::Embed(_)))),
{
}

/// A probe's answer says what it holds; readiness is a 200, and its lack a 503
/// that tells why.
pub proof fn law_ready_replies(
    r: ReadyReply,
    model: Option<Seq<char>>,
    note: Option<Seq<char>>,
    error: Seq<char>,
)
    ensures
        r@.status == r.status,
        r@.state == r.state@,
        r.model matches Some(m) ==> r@.model == Some(m@),
        r.model is None ==> r@.model is None,
        r.error matches Some(e) ==> r@.error == Some(e@),
        r.error is None ==> r@.error is None,
        ready_view(model, note).status == 200,
        ready_view(model, note).state == "ready"@,
        ready_view(model, note).model == model,
        ready_view(model, note).error == note,
        unready_view(model, error).status == 503,
        unready_view(model, error).state == "not ready"@,
        unready_view(model, error).model == model,
        unready_view(model, error).error == Some(error),
{
}

/// A probe is answered without asking a model exactly where the server shuts
/// down, or has no worker and no model to ask; of these, only a server without
/// any model is ready.
pub proof fn law_probe_is_passed_on(
    is_draining: bool,
    has_workers: bool,
    model: Seq<char>,
    known: bool,
    loaded: bool,
)
    ensures
        begins(is_draining, has_workers, model, known, loaded) is None <==> !is_draining && (
        has_workers || known && loaded),
        begins(is_draining, has_workers, model, known, loaded) matches Some(b) ==> {
            &&& b.0.status == 200 <==> !is_draining && !has_workers && !known
            &&& b.0.status == 503 <==> is_draining || !has_workers && known && !loaded
            &&& is_draining ==> b.0.error == Some("shutting down"@) && b.0.model is None && b.1
                == "shutdown"@
            &&& !is_draining && !known ==> b.0.error == Some("no models configured"@)
                && b.0.model is None && b.1 == "ok"@
            &&& !is_draining && known ==> b.0.error == Some(
                "no in-process model and no worker pool"@,
            ) && b.0.model == Some(model) && b.1 == "error"@
        },
{
}

/// What comes of a probe: every failure is told in its own words, and only
/// silence counts as a timeout.
pub proof fn law_probe_failures(outcome: ProbeOutcome, timeout_ms: u64)
    ensures
        probe_error(outcome, timeout_ms) matches Some(e) ==> {
            &&& e.1 == "timeout"@ || e.1 == "error"@
            &&& outcome is WorkerSilent || outcome is ModelSilent ==> e.1 == "timeout"@
            &&& !(outcome is WorkerSilent || outcome is ModelSilent) ==> e.1 == "error"@
            &&& outcome is WorkerSilent ==> e.0 == "probe timed out after "@ + decimal(
                timeout_ms as nat,
            ) + "ms ("@ + "worker"@ + " may be wedged)"@
            &&& outcome is ModelSilent ==> e.0 == "probe timed out after "@ + decimal(
                timeout_ms as nat,
            ) + "ms ("@ + "model"@ + " may be wedged)"@
            &&& outcome matches ProbeOutcome::WorkerUnreachable(m) ==> e.0 == "dispatch failed: "@
                + m@
            &&& outcome matches ProbeOutcome::ModelFailed(m) ==> e.0 == "inference failed: "@ + m@
            &&& outcome matches ProbeOutcome::ModelPanicked(m) ==> e.0 == "probe task panicked: "@
                + m@
            &&& outcome matches ProbeOutcome::WorkerAnswered(WorkerResponse::Failed {
                message,
                ..
            }) ==> e.0 == "worker error: "@ + message@
            &&& outcome matches ProbeOutcome::WorkerAnswered(WorkerResponse::Rerank(_)) ==> e.0
                == "unexpected response kind"@
            &&& outcome matches ProbeOutcome::WorkerAnswered(WorkerResponse::Splade(_)) ==> e.0
                == "unexpected response kind"@
        },
        outcome is ModelAnswered ==> probe_error(outcome, timeout_ms) is None,
{
}

/// A probe is counted once, under what came of it.
pub proof fn law_probe_is_counted(result: Seq<char>)
    ensures
        probe_update(result).name == "embed_ready_probe_total"@,
        probe_update(result).labels == seq![("result"@, result)],
        probe_update(result).change == Change::CounterIncrement(1),
{
}

} // verus!
