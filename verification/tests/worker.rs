use embed_server::config::{Config, ModelDef, RerankerModelDef, SpladeModelDef};
use embed_server::env::EnvVars;
use embed_server::ipc::protocol::{
    EmbedRequest, EmbedResponseOk, RerankRequest, SpladeRequest, WorkerRequest, WorkerResponse,
};
use embed_server::metrics::{Amount, Change, MetricLog};
use embed_server::standalone::{
    effective_top_k, StandaloneEmbedder, StandaloneReranker, StandaloneSplade,
};
use embed_server::worker::{
    broken_response, closed_response, embed_batch_size, handle_arena_registration,
    metrics_endpoint, note_served, overflow_response, register_arena_for_worker, require_env,
    resolve_max_waiters_for_model, serve, worker_kind, worker_settings, LoadedModel,
    MetricsEndpoint, WaitingRoom, WorkerKind, INTRA_THREADS, POOL_SIZE, WAITERS_FLOOR,
    WAITERS_POOL_MULTIPLIER,
};

fn env(vars: &[(&str, &str)]) -> EnvVars {
    let mut e = EnvVars::new();
    for (k, v) in vars {
        e.set(k, v);
    }
    e
}

fn depths(log: MetricLog) -> Vec<u128> {
    log.into_updates()
        .iter()
        .filter(|u| u.name == "embed_worker_queue_depth")
        .map(|u| match u.change {
            Change::GaugeSet(Amount::Whole(n)) => n,
            other => panic!("unexpected change {other:?}"),
        })
        .collect()
}

fn embed_request(id: u64) -> WorkerRequest {
    WorkerRequest::Embed(EmbedRequest {
        request_id: id,
        model: "e5".into(),
        texts: vec!["a".into(), "b".into()],
        max_seq_len: 8,
    })
}

fn rerank_request(id: u64) -> WorkerRequest {
    WorkerRequest::Rerank(RerankRequest {
        request_id: id,
        model: "gte".into(),
        query: "q".into(),
        documents: vec!["d".into()],
        max_seq_len: 8,
    })
}

fn splade_request(id: u64) -> WorkerRequest {
    WorkerRequest::Splade(SpladeRequest {
        request_id: id,
        model: "sp".into(),
        texts: vec!["t".into()],
        max_seq_len: 8,
        top_k: 4,
        min_weight: 0,
    })
}

type Loaded = LoadedModel<u32, u32, u32>;

fn run(loaded: Loaded, req: WorkerRequest) -> WorkerResponse {
    let embed = |m: &u32, q: &EmbedRequest| -> Result<(Vec<Vec<u32>>, u32), String> {
        Ok((vec![vec![*m]; q.texts.len()], 1))
    };
    let score = |m: &u32, q: &RerankRequest| -> Result<Vec<u32>, String> {
        Ok(vec![*m; q.documents.len()])
    };
    let encode = |_: &u32, _: &SpladeRequest| -> Result<Vec<Vec<(u32, u32)>>, String> {
        Err("no encoder".to_string())
    };
    serve(&loaded, &req, &embed, &score, &encode)
}

#[test]
fn arena_registration_failure_propagates_as_error() {
    let mut log = MetricLog::new();
    let result = handle_arena_registration(Err("simulated ORT failure".into()), &mut log);
    assert!(
        result.is_err(),
        "arena registration failure must abort startup, not warn-and-continue"
    );
    let msg = result.unwrap_err().to_string();
    assert!(
        msg.contains("shared arena registration failed"),
        "error message must mention arena registration failure, got: {msg}"
    );
    let updates = log.into_updates();
    assert_eq!(updates[0].name, "embed_arena_registration_failed_total");
    assert_eq!(updates[0].change, Change::CounterIncrement(1));
}

#[test]
fn arena_registration_success_returns_ok() {
    let mut log = MetricLog::new();
    let result = handle_arena_registration(Ok(()), &mut log);
    assert!(
        result.is_ok(),
        "successful arena registration must not abort startup"
    );
    assert!(log.into_updates().is_empty());
}

#[test]
fn worker_registers_the_arena_of_its_model() {
    let mut log = MetricLog::new();
    let register = |model: &str| -> Result<(), String> { Err(format!("no arena for {model}")) };
    let e = register_arena_for_worker("e5", &register, &mut log).expect_err("failed");
    assert_eq!(e, "shared arena registration failed: no arena for e5");
    let changes: Vec<Change> = log.into_updates().iter().map(|u| u.change).collect();
    assert_eq!(changes, vec![Change::CounterAbsolute(0), Change::CounterIncrement(1)]);
    let mut log = MetricLog::new();
    let register = |_: &str| -> Result<(), String> { Ok(()) };
    assert!(register_arena_for_worker("e5", &register, &mut log).is_ok());
    assert_eq!(log.into_updates().len(), 1);
}

#[test]
#[allow(clippy::assertions_on_constants)]
fn constants_have_sane_values() {
    assert!(INTRA_THREADS >= 1, "intra_threads must be ≥1");
    assert!(POOL_SIZE >= 1, "pool_size must be ≥1");
    assert!(
        WAITERS_POOL_MULTIPLIER >= 1,
        "waiters multiplier must be ≥1"
    );
    assert!(
        WAITERS_FLOOR >= WAITERS_POOL_MULTIPLIER,
        "floor should be at least as large as one pool's worth of waiters"
    );
}

#[test]
fn resolve_max_waiters_default_formula() {
    let val = resolve_max_waiters_for_model(&env(&[]), 4, "test-model");
    assert_eq!(val, 4 * WAITERS_POOL_MULTIPLIER, "4 × multiplier");
}

#[test]
fn resolve_max_waiters_floor() {
    let val = resolve_max_waiters_for_model(&env(&[]), 1, "test-model");
    assert_eq!(val, WAITERS_FLOOR, "floor = WAITERS_FLOOR");
}

#[test]
fn resolve_max_waiters_env_override() {
    let val =
        resolve_max_waiters_for_model(&env(&[("EMBED_MAX_WAITERS", "64")]), 2, "test-model");
    assert_eq!(val, 64);
}

#[test]
fn resolve_max_waiters_env_invalid_falls_back() {
    let e = env(&[("EMBED_MAX_WAITERS", "not-a-number")]);
    let val = resolve_max_waiters_for_model(&e, 3, "test-model");
    assert_eq!(val, 3 * WAITERS_POOL_MULTIPLIER, "3 × multiplier");
}

#[test]
fn resolve_max_waiters_zero_falls_back() {
    let val = resolve_max_waiters_for_model(&env(&[("EMBED_MAX_WAITERS", "0")]), 2, "test-model");
    // 2 × 8 = 16, which also hits the floor(16), so either way WAITERS_FLOOR.
    assert_eq!(
        val, WAITERS_FLOOR,
        "zero falls back to formula (2×mult=16, floor=16)"
    );
}

#[test]
fn own_waiter_setting_comes_first() {
    let e = env(&[("EMBED_MAX_WAITERS", "64"), ("EMBED_MAX_WAITERS_TEST_MODEL", "5")]);
    assert_eq!(resolve_max_waiters_for_model(&e, 2, "test-model"), 5);
    assert_eq!(resolve_max_waiters_for_model(&e, 2, "other"), 64);
}

#[test]
fn full_rooms_turn_requests_away() {
    let mut log = MetricLog::new();
    let mut room = WaitingRoom::new(2);
    assert!(room.arrive("e5", &mut log));
    assert!(room.arrive("e5", &mut log));
    assert!(!room.arrive("e5", &mut log));
    room.enter("e5", 7, &mut log);
    assert!(room.arrive("e5", &mut log));
    room.leave("e5", &mut log);
    room.leave("e5", &mut log);
    assert_eq!(depths(log), vec![1, 2, 3, 2, 1, 2, 1, 0]);
}

#[test]
fn queue_waits_are_recorded() {
    let mut log = MetricLog::new();
    let mut room = WaitingRoom::new(1);
    room.arrive("e5", &mut log);
    room.enter("e5", 7, &mut log);
    let updates = log.into_updates();
    assert_eq!(updates[2].name, "embed_worker_queue_wait_duration_seconds");
    assert_eq!(updates[2].change, Change::HistogramRecord(Amount::Seconds { nanos: 7 }));
}

#[test]
fn requests_are_served_under_their_numbers() {
    assert_eq!(
        run(LoadedModel::Embed(3), embed_request(11)),
        WorkerResponse::Embed(EmbedResponseOk {
            request_id: 11,
            vectors: vec![vec![3], vec![3]],
            dims: 1
        })
    );
    let r = run(LoadedModel::Rerank(4), rerank_request(12));
    assert!(matches!(r, WorkerResponse::Rerank(a) if a.request_id == 12 && a.scores == vec![4]));
    assert_eq!(
        run(LoadedModel::Splade(0), splade_request(13)),
        WorkerResponse::Failed { request_id: 13, message: "no encoder".into() }
    );
}

#[test]
fn other_kinds_of_requests_are_errors() {
    assert_eq!(
        run(LoadedModel::Embed(3), rerank_request(5)),
        WorkerResponse::Failed {
            request_id: 5,
            message: "kind mismatch: model is embed, request is rerank".into()
        }
    );
    assert_eq!(
        run(LoadedModel::Splade(3), embed_request(6)),
        WorkerResponse::Failed {
            request_id: 6,
            message: "kind mismatch: model is splade, request is embed".into()
        }
    );
    let loaded: Loaded = LoadedModel::Rerank(1);
    assert_eq!(loaded.kind(), "rerank");
}

#[test]
fn failures_of_the_worker_itself() {
    assert_eq!(
        overflow_response(&embed_request(3)),
        WorkerResponse::Failed { request_id: 3, message: "worker queue overflow".into() }
    );
    assert_eq!(
        closed_response(&embed_request(4)),
        WorkerResponse::Failed { request_id: 4, message: "worker semaphore closed".into() }
    );
    assert_eq!(
        broken_response(5, "panicked"),
        WorkerResponse::Failed {
            request_id: 5,
            message: "spawn_blocking join error: panicked".into()
        }
    );
}

#[test]
fn only_vectors_are_timed() {
    assert_eq!(embed_batch_size(&embed_request(0)), Some(2));
    assert_eq!(embed_batch_size(&rerank_request(0)), None);
    let ok = run(LoadedModel::Embed(3), embed_request(1));
    let failed = run(LoadedModel::Rerank(3), embed_request(1));
    let mut log = MetricLog::new();
    note_served("e5", Some(2), &failed, 1, &mut log);
    note_served("e5", None, &ok, 1, &mut log);
    note_served("e5", Some(2), &ok, 1, &mut log);
    let names: Vec<String> = log.into_updates().iter().map(|u| u.name.clone()).collect();
    assert_eq!(
        names,
        vec!["embed_worker_inference_duration_seconds", "embed_worker_batch_size"]
    );
}

#[test]
fn worker_settings_come_from_the_environment() {
    let e = env(&[("EMBED_WORKER_MODEL", "e5"), ("EMBED_WORKER_SOCKET", "/run/e5.sock")]);
    let s = worker_settings(&e).expect("settings");
    assert_eq!((s.kind.as_str(), s.model.as_str()), ("embed", "e5"));
    assert_eq!(s.socket_path, "/run/e5.sock");
    assert_eq!((s.intra_threads, s.pool_size, s.max_waiters), (2, 1, 16));
    let mut full = e;
    full.set("EMBED_WORKER_KIND", "splade");
    full.set("EMBED_WORKER_INTRA_THREADS", "4");
    full.set("EMBED_WORKER_POOL_SIZE", "3");
    let s = worker_settings(&full).expect("settings");
    assert_eq!((s.kind.as_str(), s.intra_threads, s.pool_size, s.max_waiters), ("splade", 4, 3, 24));
    full.set("EMBED_WORKER_POOL_SIZE", "many");
    assert_eq!(
        worker_settings(&full).expect_err("not a number"),
        "invalid digit found in string"
    );
    assert_eq!(
        worker_settings(&env(&[("EMBED_WORKER_MODEL", "e5")])).expect_err("no socket"),
        "required env var missing: EMBED_WORKER_SOCKET"
    );
    assert_eq!(
        require_env(&env(&[]), "EMBED_WORKER_MODEL"),
        Err("required env var missing: EMBED_WORKER_MODEL".to_string())
    );
}

#[test]
fn worker_kinds_are_named() {
    for kind in [WorkerKind::Embed, WorkerKind::Rerank, WorkerKind::Splade] {
        assert_eq!(worker_kind(kind.as_str()), Ok(kind));
    }
    assert_eq!(
        worker_kind("dense"),
        Err("unknown EMBED_WORKER_KIND: dense".to_string())
    );
}

#[test]
fn metrics_are_published_where_the_environment_says() {
    assert!(matches!(metrics_endpoint(&env(&[])), MetricsEndpoint::Off));
    let e = env(&[("EMBED_WORKER_METRICS_PORT", " 9100 ")]);
    assert!(
        matches!(metrics_endpoint(&e), MetricsEndpoint::At { bind, port } if bind == "0.0.0.0" && port == 9100)
    );
    let e = env(&[
        ("EMBED_WORKER_METRICS_PORT", "9100"),
        ("EMBED_WORKER_METRICS_BIND", "127.0.0.1"),
    ]);
    assert!(matches!(metrics_endpoint(&e), MetricsEndpoint::At { bind, .. } if bind == "127.0.0.1"));
    let e = env(&[("EMBED_WORKER_METRICS_PORT", " 70000 ")]);
    assert!(matches!(metrics_endpoint(&e), MetricsEndpoint::Invalid(s) if s == "70000"));
}

#[test]
fn workers_load_the_model_of_their_name() {
    let e = env(&[
        ("EMBED_MODELS", "a:/m1:768:512:0:false,b:/m2:1024:256:1:false"),
        ("RERANKER_MODELS", "r:/m3:512:true"),
        ("SPLADE_MODELS", "s:/m4:256"),
    ]);
    let cfg = Config::from_env(&e).expect("configuration");
    let load = |d: &ModelDef, n: usize, cut: bool, k: usize, idle: u64| -> Result<String, String> {
        assert_eq!((n, cut, k, idle), (2, true, 3, 0));
        Ok(d.dir.clone())
    };
    let m = StandaloneEmbedder::load("b", &cfg, 2, 3, &load).expect("model");
    assert_eq!((m.inner.as_str(), m.dims), ("/m2", 1024));
    let m = StandaloneEmbedder::load("x", &cfg, 2, 3, &load);
    assert_eq!(m.expect_err("no such model"), "model x not found in EMBED_MODELS");
    let broken = |_: &RerankerModelDef, n: usize, k: usize| -> Result<u8, String> {
        Err(format!("broken {n} {k}"))
    };
    let m = StandaloneReranker::load("r", &cfg, 2, 3, &broken);
    assert_eq!(m.expect_err("broken"), "broken 2 3");
    let m = StandaloneReranker::load("x", &cfg, 2, 3, &broken);
    assert_eq!(m.expect_err("no such model"), "reranker x not found in RERANKER_MODELS");
    let load = |d: &SpladeModelDef, _: usize, _: usize| -> Result<String, String> {
        Ok(d.dir.clone())
    };
    let m = StandaloneSplade::load("s", &cfg, 2, 3, &load);
    assert_eq!(m.expect("model").inner, "/m4");
    let m = StandaloneSplade::load("x", &cfg, 2, 3, &load);
    assert_eq!(m.expect_err("no such model"), "splade x not found in SPLADE_MODELS");
}

#[test]
fn zero_entries_stand_for_all() {
    assert_eq!(effective_top_k(0), usize::MAX);
    assert_eq!(effective_top_k(7), 7);
}

#[test]
fn standalone_models_run_their_steps_in_turn() {
    let m = StandaloneEmbedder { inner: 2u32, dims: 3 };
    let tokenize = |k: &u32, t: &Vec<String>| -> Result<Vec<Vec<u32>>, String> {
        if t.is_empty() {
            return Err("tokenize: x".to_string());
        }
        Ok(t.iter().map(|s| vec![*k; s.len()]).collect())
    };
    let embed = |_: &u32, ids: &Vec<Vec<u32>>| -> Result<Vec<usize>, String> {
        if ids.len() > 2 {
            return Err("inference: x".to_string());
        }
        Ok(ids.iter().map(Vec::len).collect())
    };
    let texts = |v: &[&str]| -> Vec<String> { v.iter().map(|s| s.to_string()).collect() };
    assert_eq!(m.infer(&texts(&["ab", "c"]), 8, &tokenize, &embed), Ok((vec![2, 1], 3)));
    assert_eq!(m.infer(&vec![], 8, &tokenize, &embed), Err("tokenize: x".to_string()));
    assert_eq!(
        m.infer(&texts(&["a", "b", "c"]), 8, &tokenize, &embed),
        Err("inference: x".to_string())
    );

    let m = StandaloneReranker { inner: 2u32 };
    let pairs = |_: &u32, q: &String, d: &Vec<String>| -> Result<Vec<Vec<u32>>, String> {
        if q.is_empty() {
            return Err("no query".to_string());
        }
        Ok(d.iter().map(|s| vec![0; q.len() + s.len()]).collect())
    };
    let docs = texts(&["ab", "c"]);
    assert_eq!(m.score(&"q".to_string(), &docs, 8, &pairs, &embed), Ok(vec![3, 2]));
    assert_eq!(m.score(&String::new(), &docs, 8, &pairs, &embed), Err("no query".to_string()));
}

#[test]
fn sparse_encoding_stops_at_the_first_failure() {
    let m = StandaloneSplade { inner: 2u32 };
    let tokenize = |_: &u32, t: &String| -> Result<Vec<u32>, String> {
        if t.is_empty() {
            return Err("tokenize: x".to_string());
        }
        Ok(vec![t.len() as u32])
    };
    let encode = |_: &u32, ids: &Vec<u32>, k: usize, w: u32| -> Result<(u32, usize, u32), String> {
        if ids[0] > 3 {
            return Err("encode: x".to_string());
        }
        Ok((ids[0], k, w))
    };
    let run = |v: &[&str], top_k: u32| {
        let texts: Vec<String> = v.iter().map(|s| s.to_string()).collect();
        m.encode(&texts, 0, top_k, 7, &tokenize, &encode)
    };
    assert_eq!(run(&["ab", "c"], 5), Ok(vec![(2, 5, 7), (1, 5, 7)]));
    assert_eq!(run(&["ab"], 0), Ok(vec![(2, usize::MAX, 7)]));
    assert_eq!(run(&[], 0), Ok(vec![]));
    assert_eq!(run(&["abcd", ""], 5), Err("encode: x".to_string()));
    assert_eq!(run(&["", "abcd"], 5), Err("tokenize: x".to_string()));
}
