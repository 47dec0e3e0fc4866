use embed_server::api_health::{
    begin_probe, end_probe, health, probe_timeout_ms, ProbeOutcome, ProbeStep, ReadyReply,
};
use embed_server::env::EnvVars;
use embed_server::ipc::protocol::{EmbedResponseOk, SpladeResponseOk, WorkerResponse};
use embed_server::metrics::MetricLog;

fn result(log: MetricLog) -> Vec<String> {
    log.into_updates()
        .iter()
        .map(|u| {
            assert_eq!(u.name, "embed_ready_probe_total");
            u.labels[0].1.clone()
        })
        .collect()
}

fn begin(draining: bool, workers: bool, known: bool, loaded: bool) -> (ProbeStep, Vec<String>) {
    let mut log = MetricLog::new();
    let step = begin_probe(draining, workers, "test-model", known, loaded, &mut log);
    (step, result(log))
}

fn answered(step: ProbeStep) -> ReadyReply {
    match step {
        ProbeStep::Answered(r) => r,
        other => panic!("expected an answer, got {other:?}"),
    }
}

fn end(outcome: ProbeOutcome) -> (u16, Option<String>, String) {
    let mut log = MetricLog::new();
    let r = end_probe("test-model".to_string(), outcome, 100, &mut log);
    assert_eq!(r.model.as_deref(), Some("test-model"));
    assert_eq!(r.state == "ready", r.status == 200);
    (r.status, r.error, result(log).join(","))
}

#[test]
fn liveness_is_ok() {
    assert_eq!(health(), "ok");
}

#[test]
fn shutting_down_is_not_ready() {
    let (step, results) = begin(true, true, true, true);
    let r = answered(step);
    assert_eq!((r.status, r.state), (503, "not ready"));
    assert_eq!(r.error.as_deref(), Some("shutting down"));
    assert_eq!(r.model, None);
    assert_eq!(results, vec!["shutdown"]);
}

#[test]
fn no_models_and_no_workers_is_ready() {
    let (step, results) = begin(false, false, false, false);
    let r = answered(step);
    assert_eq!((r.status, r.state), (200, "ready"));
    assert_eq!(r.error.as_deref(), Some("no models configured"));
    assert_eq!(results, vec!["ok"]);
}

#[test]
fn a_model_without_session_or_workers_is_not_ready() {
    let (step, results) = begin(false, false, true, false);
    let r = answered(step);
    assert_eq!((r.status, r.state), (503, "not ready"));
    assert_eq!(r.error.as_deref(), Some("no in-process model and no worker pool"));
    assert_eq!(results, vec!["error"]);
}

#[test]
fn probes_go_to_workers_first() {
    let (step, results) = begin(false, true, false, false);
    assert!(matches!(step, ProbeStep::AskWorker));
    assert!(results.is_empty());
    let (step, _) = begin(false, false, true, true);
    assert!(matches!(step, ProbeStep::AskModel));
}

#[test]
fn wedged_worker_is_not_ready() {
    let (status, error, counted) = end(ProbeOutcome::WorkerSilent);
    assert_eq!(status, 503);
    assert_eq!(
        error.as_deref(),
        Some("probe timed out after 100ms (worker may be wedged)")
    );
    assert_eq!(counted, "timeout");
    let (_, error, _) = end(ProbeOutcome::ModelSilent);
    assert_eq!(
        error.as_deref(),
        Some("probe timed out after 100ms (model may be wedged)")
    );
}

#[test]
fn only_vectors_are_ready() {
    let vectors = WorkerResponse::Embed(EmbedResponseOk { request_id: 0, vectors: vec![], dims: 0 });
    assert_eq!(end(ProbeOutcome::WorkerAnswered(vectors)), (200, None, "ok".to_string()));
    assert_eq!(end(ProbeOutcome::ModelAnswered), (200, None, "ok".to_string()));
    let failed = WorkerResponse::Failed { request_id: 0, message: "boom".into() };
    assert_eq!(
        end(ProbeOutcome::WorkerAnswered(failed)),
        (503, Some("worker error: boom".to_string()), "error".to_string())
    );
    let other = WorkerResponse::Splade(SpladeResponseOk { request_id: 0, sparse: vec![] });
    assert_eq!(
        end(ProbeOutcome::WorkerAnswered(other)),
        (503, Some("unexpected response kind".to_string()), "error".to_string())
    );
    assert_eq!(
        end(ProbeOutcome::WorkerUnreachable("gone".into())),
        (503, Some("dispatch failed: gone".to_string()), "error".to_string())
    );
    assert_eq!(
        end(ProbeOutcome::ModelFailed("shape".into())),
        (503, Some("inference failed: shape".to_string()), "error".to_string())
    );
    assert_eq!(
        end(ProbeOutcome::ModelPanicked("task".into())),
        (503, Some("probe task panicked: task".to_string()), "error".to_string())
    );
}

#[test]
fn probes_wait_two_seconds_unless_told_otherwise() {
    let with = |v: &str| {
        let mut e = EnvVars::new();
        e.set("EMBED_READY_PROBE_TIMEOUT_MS", v);
        probe_timeout_ms(&e)
    };
    assert_eq!(probe_timeout_ms(&EnvVars::new()), 2000);
    assert_eq!(with("500"), 500);
    assert_eq!(with("soon"), 2000);
}
