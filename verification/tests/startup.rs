use embed_server::config::Config;
use embed_server::env::EnvVars;
use embed_server::startup::{
    ignored_overrides, rerank_permits, spawn_delay_ms, spawn_specs, unknown_waiter_settings,
    worker_metrics_port,
};
use embed_server::worker::WorkerKind;

fn env(vars: &[(&str, &str)]) -> EnvVars {
    let mut e = EnvVars::new();
    e.set("EMBED_MODELS", "jina-code-v2:/m1:768:512:0:false,e5:/m2:1024:256:1:false");
    e.set("RERANKER_MODELS", "gte:/m3:512:true");
    e.set("SPLADE_MODELS", "sp:/m4:256");
    for (k, v) in vars {
        e.set(k, v);
    }
    e
}

fn config(e: &EnvVars) -> Config {
    Config::from_env(e).expect("valid configuration")
}

#[test]
fn worker_metrics_port_none_base_returns_none() {
    assert_eq!(worker_metrics_port(None, 0), None);
    assert_eq!(worker_metrics_port(None, 40), None);
}

#[test]
fn worker_metrics_port_normal_range() {
    assert_eq!(worker_metrics_port(Some(19200), 0), Some(19200));
    assert_eq!(worker_metrics_port(Some(19200), 3), Some(19203));
}

#[test]
fn worker_metrics_port_exact_max_u16() {
    assert_eq!(worker_metrics_port(Some(65535), 0), Some(65535));
    assert_eq!(worker_metrics_port(Some(65534), 1), Some(65535));
}

#[test]
fn worker_metrics_port_overflow_returns_none() {
    // base=65500, index=40 overflows: 65540 > 65535
    assert_eq!(worker_metrics_port(Some(65500), 40), None);
    // base=65535, index=1: 65536 overflows
    assert_eq!(worker_metrics_port(Some(65535), 1), None);
}

#[test]
fn rerank_permits_follow_sessions_and_threads() {
    let e = env(&[]);
    assert_eq!(rerank_permits(&config(&e), &e), Some(32), "1 session, 4 threads");
    let e = env(&[("RERANKER_SESSION_POOL_SIZE", "2"), ("RERANKER_INTRA_THREADS", "2")]);
    assert_eq!(rerank_permits(&config(&e), &e), Some(32));
    let e = env(&[("RERANKER_SESSION_POOL_SIZE", "1"), ("RERANKER_INTRA_THREADS", "1")]);
    assert_eq!(rerank_permits(&config(&e), &e), Some(16), "at least sixteen");
}

#[test]
fn rerank_permits_can_be_set() {
    let e = env(&[("MAX_CONCURRENT_RERANK_REQUESTS", "5")]);
    assert_eq!(rerank_permits(&config(&e), &e), Some(5));
    let e = env(&[("MAX_CONCURRENT_RERANK_REQUESTS", "0")]);
    assert_eq!(rerank_permits(&config(&e), &e), None);
    let e = env(&[("MAX_CONCURRENT_RERANK_REQUESTS", " 5")]);
    assert_eq!(rerank_permits(&config(&e), &e), Some(32), "not a number as it stands");
}

#[test]
fn variables_without_effect_are_found() {
    let e = env(&[
        ("RERANKER_SESSION_POOL_SIZE_GTE", "2"),
        ("RERANKER_SESSION_POOL_SIZE", "2"),
        ("SPLADE_SESSION_POOL_SIZE_SP", "2"),
        ("EMBED_SESSION_POOL_SIZE_E5", "2"),
    ]);
    assert_eq!(
        ignored_overrides(&e),
        vec!["RERANKER_SESSION_POOL_SIZE_GTE", "SPLADE_SESSION_POOL_SIZE_SP"]
    );
}

#[test]
fn misspelt_waiter_keys_are_found() {
    let e = env(&[
        ("EMBED_MAX_WAITERS_JINA_CODE_V2", "4"),
        ("EMBED_MAX_WAITERS_JINA_CODEV2", "4"),
        ("EMBED_MAX_WAITERS_GTE", "4"),
        ("EMBED_MAX_WAITERS_SP", "4"),
        ("EMBED_MAX_WAITERS", "4"),
        ("EMBED_MAX_WAITERS_", "4"),
    ]);
    assert_eq!(
        unknown_waiter_settings(&e, &config(&e)),
        vec!["EMBED_MAX_WAITERS_JINA_CODEV2", "EMBED_MAX_WAITERS_"]
    );
}

#[test]
fn every_model_gets_a_worker() {
    let e = env(&[
        ("EMBED_WORKER_METRICS_PORT_BASE", " 65533 "),
        ("EMBED_SESSION_POOL_SIZE", "3"),
        ("EMBED_SESSION_POOL_SIZE_E5", "2"),
        ("EMBED_INTRA_THREADS", "6"),
    ]);
    let specs = spawn_specs(&config(&e), &e);
    let seen: Vec<(&str, WorkerKind, usize, usize)> = specs
        .iter()
        .map(|s| (s.model.as_str(), s.kind, s.pool_size, s.intra_threads))
        .collect();
    assert_eq!(
        seen,
        vec![
            ("jina-code-v2", WorkerKind::Embed, 3, 6),
            ("e5", WorkerKind::Embed, 2, 6),
            ("gte", WorkerKind::Rerank, 1, 6),
            ("sp", WorkerKind::Splade, 1, 6),
        ]
    );
    let ports: Vec<Vec<(String, String)>> = specs.into_iter().map(|s| s.env_extra).collect();
    let port = |n: &str| vec![("EMBED_WORKER_METRICS_PORT".to_string(), n.to_string())];
    assert_eq!(ports, vec![port("65533"), port("65534"), port("65535"), vec![]]);
}

#[test]
fn without_a_base_port_there_are_no_ports() {
    let e = env(&[]);
    assert!(spawn_specs(&config(&e), &e).iter().all(|s| s.env_extra.is_empty()));
}

#[test]
fn workers_are_started_one_after_the_other() {
    let e = env(&[]);
    assert_eq!(spawn_delay_ms(&e, 0), 0);
    assert_eq!(spawn_delay_ms(&e, 1), 2000);
    let e = env(&[("EMBED_WORKER_SPAWN_DELAY_MS", "0")]);
    assert_eq!(spawn_delay_ms(&e, 3), 0);
    let e = env(&[("EMBED_WORKER_SPAWN_DELAY_MS", "150")]);
    assert_eq!(spawn_delay_ms(&e, 3), 150);
}
