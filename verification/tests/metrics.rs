use embed_server::metrics::{
    arena_registration_failed_touch, bs_bucket, carry_lost_touch, classify_worker_error,
    histogram_buckets, ready_probe_touch, record_arena_extend, record_arena_register_skipped,
    record_arena_registration_failed, record_arena_shrink_call, record_attention_scratch,
    record_batch_dimensions, record_batch_max_effective_seq, record_batch_token_budget,
    record_batch_tokens, record_batch_wait_ms, record_batcher_first_item_oversize,
    record_build_info, record_cache_hit, record_cache_hit_n, record_cache_miss,
    record_cache_miss_n, record_cancelled, record_carry, record_carry_lost,
    record_config_fallback, record_inference, record_inference_failure,
    record_inference_peak_bytes, record_input_array_rejected, record_input_array_size,
    record_length_ratio_carry, record_malloc_trim, record_onnx_cache_disabled,
    record_padding_waste, record_pool_eviction_loop_panic, record_pool_mutex_poisoned,
    record_queue_rejected, record_ready_probe, record_request,
    record_rerank_inference, record_rerank_input_docs_rejected, record_rerank_input_docs_size,
    record_rerank_padding_waste, record_rerank_pool_acquire, record_rerank_request,
    record_rerank_tokenizer, record_seq_capped, record_solo_seq_overflow, record_token_cache_hit,
    record_token_cache_miss, record_tokenize_fallback, record_warmup_failed,
    record_worker_heartbeat, record_worker_inference, record_worker_queue_wait,
    set_arena_gauges, set_arena_shrink_enabled, set_cache_size, set_queue_depth,
    set_worker_queue_depth, sl_bucket, worker_heartbeat_touch, worker_restart_inc,
    worker_restart_touch, worker_rss_set, worker_rss_touch, Amount, Change, MetricLog,
    RerankInFlightGuard, Scope, Update,
};

/// One line per update: `name{key=value,..} change`.
fn lines(log: MetricLog) -> Vec<String> {
    log.into_updates()
        .iter()
        .map(|u: &Update| {
            let labels: Vec<String> = u.labels.iter().map(|(k, v)| format!("{k}={v}")).collect();
            let change = match u.change {
                Change::CounterIncrement(n) => format!("+{n}"),
                Change::CounterAbsolute(n) => format!(">={n}"),
                Change::GaugeSet(a) => format!("={}", amount(a)),
                Change::GaugeIncrement(n) => format!("up {n}"),
                Change::GaugeDecrement(n) => format!("down {n}"),
                Change::HistogramRecord(a) => format!("@{}", amount(a)),
            };
            format!("{}{{{}}} {}", u.name, labels.join(","), change)
        })
        .collect()
}

fn amount(a: Amount) -> String {
    match a {
        Amount::Whole(n) => format!("{n}"),
        Amount::Signed(n) => format!("{n}"),
        Amount::Seconds { nanos } => format!("{nanos}ns"),
        Amount::Millis { nanos } => format!("{nanos}ns/ms"),
        Amount::Ratio { num, den } => format!("{num}/{den}"),
        Amount::Scratch { .. } => format!("{}", a.whole().unwrap()),
    }
}

fn recorded(f: impl Fn(&mut MetricLog)) -> Vec<String> {
    let mut log = MetricLog::new();
    f(&mut log);
    lines(log)
}

#[test]
fn queue_overflow_detected() {
    assert_eq!(
        classify_worker_error("worker queue overflow"),
        "queue_overflow"
    );
    assert_eq!(
        classify_worker_error("WORKER QUEUE OVERFLOW"),
        "queue_overflow"
    );
}

#[test]
fn semaphore_closed_detected() {
    assert_eq!(
        classify_worker_error("worker semaphore closed"),
        "semaphore_closed"
    );
    assert_eq!(
        classify_worker_error("Semaphore Closed"),
        "semaphore_closed"
    );
}

#[test]
fn saturated_backward_compat() {
    assert_eq!(
        classify_worker_error("worker saturated"),
        "worker_saturated"
    );
}

#[test]
fn arena_oom_variants() {
    assert_eq!(classify_worker_error("bfcarena out of memory"), "arena_oom");
    assert_eq!(classify_worker_error("arena alloc failed"), "arena_oom");
    assert_eq!(classify_worker_error("oom kill"), "arena_oom");
}

#[test]
fn kind_mismatch() {
    assert_eq!(
        classify_worker_error("kind mismatch: model is embed"),
        "kind_mismatch"
    );
}

#[test]
fn tokenize_error() {
    assert_eq!(classify_worker_error("tokenizer failed"), "tokenize");
}

#[test]
fn other_fallback() {
    assert_eq!(classify_worker_error("unexpected runtime panic"), "other");
}

#[test]
fn batch_size_boundaries() {
    assert_eq!(bs_bucket(1), "1");
    assert_eq!(bs_bucket(2), "2");
    assert_eq!(bs_bucket(3), "4");
    assert_eq!(bs_bucket(4), "4");
    assert_eq!(bs_bucket(5), "8");
    assert_eq!(bs_bucket(8), "8");
    assert_eq!(bs_bucket(9), "16");
    assert_eq!(bs_bucket(16), "16");
    assert_eq!(bs_bucket(17), "32+");
    assert_eq!(bs_bucket(32), "32+");
    assert_eq!(bs_bucket(100), "32+");
}

#[test]
fn seq_len_boundaries() {
    assert_eq!(sl_bucket(0), "64");
    assert_eq!(sl_bucket(64), "64");
    assert_eq!(sl_bucket(65), "128");
    assert_eq!(sl_bucket(128), "128");
    assert_eq!(sl_bucket(129), "256");
    assert_eq!(sl_bucket(256), "256");
    assert_eq!(sl_bucket(257), "384");
    assert_eq!(sl_bucket(384), "384");
    assert_eq!(sl_bucket(385), "512+");
    assert_eq!(sl_bucket(512), "512+");
    assert_eq!(sl_bucket(1024), "512+");
}

#[test]
fn attention_scratch_formula() {
    let bytes = |b: usize, h: usize, s: usize| {
        let mut log = MetricLog::new();
        record_attention_scratch(&mut log, "jina-code-v2", b, h, s);
        let updates = log.into_updates();
        assert_eq!(updates.len(), 1);
        assert_eq!(updates[0].name, "embed_inference_attention_scratch_bytes");
        match updates[0].change {
            Change::HistogramRecord(a) => a.whole(),
            _ => None,
        }
    };
    assert_eq!(bytes(1, 12, 512), Some(12_582_912));
    assert_eq!(bytes(8, 12, 512), Some(100_663_296));
    assert_eq!(bytes(32, 12, 512), Some(402_653_184));
    assert_eq!(bytes(usize::MAX, usize::MAX, usize::MAX), None);
    assert_eq!(bytes(usize::MAX, usize::MAX, 0), Some(0));
}

#[test]
fn requests_are_counted_timed_and_sized() {
    assert_eq!(
        recorded(|l| record_request(l, "m", "ok", 1500, 3)),
        [
            "embed_requests_total{model=m,status=ok} +1",
            "embed_request_duration_seconds{model=m} @1500ns",
            "embed_texts_per_request{model=m} @3",
        ]
    );
    assert_eq!(
        recorded(|l| record_rerank_request(l, "r", "error", 7, 15)),
        [
            "embed_rerank_requests_total{model=r,status=error} +1",
            "embed_rerank_request_duration_seconds{model=r} @7ns",
            "embed_rerank_pairs_per_request{model=r} @15",
        ]
    );
}

#[test]
fn inferences_of_server_and_worker_have_series_of_their_own() {
    assert_eq!(
        recorded(|l| record_inference(l, "m", 5, 2)),
        ["embed_inference_duration_seconds{model=m} @5ns", "embed_batch_size{model=m} @2"]
    );
    assert_eq!(
        recorded(|l| record_worker_inference(l, "m", 5, 2)),
        [
            "embed_worker_inference_duration_seconds{model=m} @5ns",
            "embed_worker_batch_size{model=m} @2",
        ]
    );
    assert_eq!(
        recorded(|l| record_rerank_inference(l, "m", 5, 2)),
        [
            "embed_rerank_inference_duration_seconds{model=m} @5ns",
            "embed_rerank_batch_size{model=m} @2",
        ]
    );
}

#[test]
fn single_updates() {
    let one = |f: fn(&mut MetricLog), want: &str| assert_eq!(recorded(f), [want]);
    one(
        |l| record_worker_queue_wait(l, "m", 9),
        "embed_worker_queue_wait_duration_seconds{model=m} @9ns",
    );
    one(|l| record_queue_rejected(l, "m"), "embed_queue_rejected_total{model=m} +1");
    one(|l| record_cancelled(l, "m"), "embed_batcher_cancelled_items_total{model=m} +1");
    one(|l| set_queue_depth(l, "m", 4), "embed_queue_depth{model=m} =4");
    one(|l| record_batch_wait_ms(l, "m", 2_500_000), "embed_batch_wait_ms{model=m} @2500000ns/ms");
    one(|l| record_batch_tokens(l, "m", 4096), "embed_batch_tokens{model=m} @4096");
    one(|l| record_seq_capped(l, "m"), "embed_batch_seq_capped_total{model=m,reason=seq_overflow} +1");
    one(
        |l| record_length_ratio_carry(l, "m"),
        "embed_batch_seq_capped_total{model=m,reason=length_ratio} +1",
    );
    one(
        |l| record_solo_seq_overflow(l, "m"),
        "embed_batch_seq_capped_total{model=m,reason=solo_seq_overflow} +1",
    );
    one(|l| record_batch_max_effective_seq(l, "m", 256), "embed_batch_max_effective_seq{model=m} @256");
    one(|l| record_carry(l, "m"), "embed_carry_events_total{model=m} +1");
    one(|l| record_carry_lost(l, "m"), "embed_batcher_carry_lost_total{model=m} +1");
    one(|l| carry_lost_touch(l, "m"), "embed_batcher_carry_lost_total{model=m} >=0");
    one(|l| record_cache_hit_n(l, "m", 3), "embed_cache_hit_total{model=m} +3");
    one(|l| record_cache_miss_n(l, "m", 0), "embed_cache_miss_total{model=m} +0");
    one(|l| record_cache_hit(l, "m"), "embed_cache_hit_total{model=m} +1");
    one(|l| record_cache_miss(l, "m"), "embed_cache_miss_total{model=m} +1");
    one(|l| set_cache_size(l, 12), "embed_cache_size{} =12");
    one(record_tokenize_fallback, "embed_tokenize_fallback_total{} +1");
    one(|l| record_token_cache_hit(l, "m", 2), "embed_token_cache_total{model=m,outcome=hit} +2");
    one(|l| record_token_cache_miss(l, "m", 2), "embed_token_cache_total{model=m,outcome=miss} +2");
    one(record_arena_register_skipped, "embed_arena_register_skipped_total{} +1");
    one(record_arena_registration_failed, "embed_arena_registration_failed_total{} +1");
    one(arena_registration_failed_touch, "embed_arena_registration_failed_total{} >=0");
    one(
        |l| record_onnx_cache_disabled(l, "mkdir"),
        "embed_onnx_cache_disabled_total{reason=mkdir} +1",
    );
    one(|l| record_warmup_failed(l, "m", "embed"), "embed_warmup_failed_total{model=m,phase=embed} +1");
    one(
        |l| record_config_fallback(l, "EMBED_X"),
        "embed_config_fallback_total{env_var=EMBED_X} +1",
    );
    one(|l| record_batch_token_budget(l, "m", 8, 256), "embed_batch_token_budget{model=m} @2048");
    one(
        |l| record_batch_dimensions(l, "m", 3, 65),
        "embed_batch_dimensions_total{model=m,batch_size_bucket=4,seq_len_bucket=128} +1",
    );
    one(|l| record_inference_peak_bytes(l, "m", 77), "embed_inference_peak_bytes{model=m} @77");
    one(|l| record_arena_extend(l, "m", 20), "embed_arena_extend_total{model=m,bin_num=20} +1");
    one(
        |l| record_inference_failure(l, "m", "arena_oom", 0),
        "embed_inference_failures_total{model=m,reason=arena_oom,bin_num=0} +1",
    );
    one(
        |l| record_rerank_tokenizer(l, "m", 3),
        "embed_rerank_tokenizer_duration_seconds{model=m} @3ns",
    );
    one(
        |l| record_rerank_pool_acquire(l, "m", 3),
        "embed_rerank_pool_acquire_duration_seconds{model=m} @3ns",
    );
    one(
        |l| record_input_array_rejected(l, "m", "size_cap"),
        "embed_input_array_rejected_total{model=m,reason=size_cap} +1",
    );
    one(|l| record_input_array_size(l, "m", 33), "embed_input_array_size{model=m} @33");
    one(
        |l| record_batcher_first_item_oversize(l, "m", "tokens"),
        "embed_batcher_first_item_oversize_total{model=m,reason=tokens} +1",
    );
    one(|l| set_arena_shrink_enabled(l, "m", true), "embed_arena_shrink_enabled{model=m} =1");
    one(|l| set_arena_shrink_enabled(l, "m", false), "embed_arena_shrink_enabled{model=m} =0");
    one(|l| record_arena_shrink_call(l, "m"), "embed_arena_shrink_calls_total{model=m} +1");
    one(|l| worker_restart_inc(l, "m"), "embed_worker_restart_total{model=m} +1");
    one(|l| worker_restart_touch(l, "m"), "embed_worker_restart_total{model=m} >=0");
    one(|l| set_worker_queue_depth(l, "m", 6), "embed_worker_queue_depth{model=m} =6");
    one(|l| worker_rss_set(l, "m", 1024), "embed_worker_rss_bytes{model=m} =1024");
    one(|l| worker_rss_touch(l, "m"), "embed_worker_rss_bytes{model=m} =0");
    one(
        |l| record_rerank_input_docs_rejected(l, "size_cap"),
        "embed_rerank_input_docs_rejected_total{model=unknown,reason=size_cap} +1",
    );
    one(|l| record_rerank_input_docs_size(l, 33), "embed_rerank_input_docs_size{model=unknown} @33");
    one(|l| record_ready_probe(l, "ok"), "embed_ready_probe_total{result=ok} +1");
    one(|l| record_worker_heartbeat(l, "kill"), "embed_worker_heartbeat_total{result=kill} +1");
    one(|l| record_build_info(l, "dev"), "embed_build_info{version=dev} =1");
}

#[test]
fn padding_waste_is_a_share() {
    let waste = |padded: usize, raw: usize| recorded(|l| record_padding_waste(l, "m", padded, raw));
    assert_eq!(waste(0, 0), ["embed_batch_padding_waste_ratio{model=m} @0/1"]);
    assert_eq!(waste(10, 4), ["embed_batch_padding_waste_ratio{model=m} @6/10"]);
    assert_eq!(waste(10, 10), ["embed_batch_padding_waste_ratio{model=m} @0/10"]);
    assert_eq!(waste(4, 10), ["embed_batch_padding_waste_ratio{model=m} @0/4"]);
    assert_eq!(
        recorded(|l| record_rerank_padding_waste(l, "m", 8, 2)),
        ["embed_rerank_padding_waste_ratio{model=m} @6/8"]
    );
}

#[test]
fn malloc_trim_counts_releases() {
    assert_eq!(
        recorded(|l| record_malloc_trim(l, false)),
        ["embed_malloc_trim_invocations_total{} +1"]
    );
    assert_eq!(
        recorded(|l| record_malloc_trim(l, true)),
        [
            "embed_malloc_trim_invocations_total{} +1",
            "embed_malloc_trim_released_events_total{} +1",
        ]
    );
}

#[test]
fn arena_gauges_name_the_strategy() {
    assert_eq!(
        recorded(|l| set_arena_gauges(l, 100, 10, 5, 1)),
        [
            "embed_arena_max_mem_bytes{} =100",
            "embed_arena_initial_chunk_bytes{} =10",
            "embed_arena_max_dead_bytes{} =5",
            "embed_arena_extend_strategy{strategy=kSameAsRequested} =1",
        ]
    );
    assert_eq!(
        recorded(|l| set_arena_gauges(l, 100, 10, 5, 0))[3],
        "embed_arena_extend_strategy{strategy=kNextPowerOfTwo} =0"
    );
}

#[test]
fn touching_makes_every_outcome_visible() {
    assert_eq!(
        recorded(ready_probe_touch),
        [
            "embed_ready_probe_total{result=ok} >=0",
            "embed_ready_probe_total{result=timeout} >=0",
            "embed_ready_probe_total{result=error} >=0",
            "embed_ready_probe_total{result=shutdown} >=0",
        ]
    );
    assert_eq!(
        recorded(worker_heartbeat_touch),
        [
            "embed_worker_heartbeat_total{result=ok} >=0",
            "embed_worker_heartbeat_total{result=timeout} >=0",
            "embed_worker_heartbeat_total{result=error} >=0",
            "embed_worker_heartbeat_total{result=kill} >=0",
        ]
    );
}

#[test]
fn in_flight_requests_are_counted_up_and_down() {
    let got = recorded(|l| {
        let guard = RerankInFlightGuard::new(l, "r");
        record_carry(l, "r");
        guard.release(l);
    });
    assert_eq!(
        got,
        [
            "embed_rerank_in_flight{model=r} up 1",
            "embed_carry_events_total{model=r} +1",
            "embed_rerank_in_flight{model=r} down 1",
        ]
    );
}

#[test]
fn bucket_bounds() {
    let table = histogram_buckets();
    assert_eq!(table.len(), 13);
    assert_eq!(table[0].scope, Scope::Suffix);
    assert_eq!(table[0].name, "_duration_seconds");
    assert_eq!(
        table[0].bounds,
        [5, 10, 25, 50, 100, 250, 500, 1000, 2500, 5000, 10000, 30000]
    );
    let scratch = table.iter().find(|b| b.name == "embed_inference_attention_scratch_bytes");
    assert_eq!(scratch.unwrap().bounds[4], 1024 * 1024 * 1024 * 1000);
    for b in &table {
        assert!(b.bounds.windows(2).all(|w| w[0] < w[1]), "{}", b.name);
    }
}

#[test]
fn trouble_with_a_pool_is_counted() {
    let mut log = MetricLog::new();
    record_pool_eviction_loop_panic(&mut log, "e5");
    record_pool_mutex_poisoned(&mut log, "e5");
    let names: Vec<String> = log.into_updates().iter().map(|u| u.name.clone()).collect();
    assert_eq!(
        names,
        vec!["embed_pool_eviction_loop_panics_total", "embed_pool_mutex_poisoned_total"]
    );
}

#[test]
fn embed_arena_shrink_calls_counter_increments_per_run() {
    let model = "jina-code-v2-shrink-counter-test";
    let mut log = MetricLog::new();
    record_arena_shrink_call(&mut log, model);
    assert_eq!(
        lines(log),
        ["embed_arena_shrink_calls_total{model=jina-code-v2-shrink-counter-test} +1"],
        "embed_arena_shrink_calls_total should increment by exactly 1 per call"
    );
}
