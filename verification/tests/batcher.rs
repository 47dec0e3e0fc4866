use embed_server::batcher::{
    answer, gather, max_seq_len_of, reject, settle, total_tokens_of, Action, BatchAccum,
    BatchError, BatchWorker, BatcherConfig, Inference, Item, QueueFullError,
};
use embed_server::metrics::{Amount, Change, MetricLog};

fn item(lens: &[usize], reply: u32) -> Item<u32> {
    Item { token_ids: lens.iter().map(|n| vec![0u32; *n]).collect(), reply }
}

/// Single-token texts.
fn tok(ids: &[u32], reply: u32) -> Item<u32> {
    Item { token_ids: ids.iter().map(|i| vec![*i]).collect(), reply }
}

fn cfg(max_batch_tokens: usize, max_batch_items: usize, padded_model: bool) -> BatcherConfig {
    BatcherConfig { max_batch_tokens, max_batch_items, padded_model, wait_ms: 1 }
}

/// What a worker dispatches when all items are there at once: the replies of
/// each batch.
fn dispatched(cfg: BatcherConfig, items: Vec<Item<u32>>, log: &mut MetricLog) -> Vec<Vec<u32>> {
    let mut worker = BatchWorker::new(cfg);
    let mut waiting = items.into_iter();
    let mut batches: Vec<Vec<u32>> = Vec::new();
    let mut action = worker.next();
    loop {
        action = match action {
            Action::Receive | Action::Coalesce => match waiting.next() {
                Some(item) => worker.received(item, false, "t", log),
                None => worker.interrupted(),
            },
            Action::Dispatch => {
                let live = take_all(&mut worker, log);
                batches.push(live.iter().map(|i| i.reply).collect());
                worker.next()
            }
            Action::Stop => return batches,
        };
    }
}

/// Cuts the batch, none of whose callers has gone.
fn take_all(worker: &mut BatchWorker<u32>, log: &mut MetricLog) -> Vec<Item<u32>> {
    let n = worker.len();
    let replies: Vec<u32> = (0..n).map(|i| *worker.reply(i)).collect();
    let live = worker.take(&vec![false; n], "t", log);
    assert_eq!(live.iter().map(|i| i.reply).collect::<Vec<u32>>(), replies);
    live
}

fn names(log: MetricLog) -> Vec<String> {
    log.into_updates().iter().map(|u| u.name.clone()).collect()
}

#[test]
fn batch_accum_padded_gate_is_strict_less_than() {
    let cfg = cfg(1000, 100, true);
    // Seed batch with a single 500-token Item.
    let seed = item(&[500], 0);
    let mut accum = BatchAccum::default();
    accum.push(&seed);

    // Candidate: one 50-token Item.  new_max=500, new_items=2 →
    // padded product 1000, must NOT fit.
    let cand50 = item(&[50], 1);
    assert!(
        !accum.fits(&cand50, &cfg),
        "padded bound must be strict `<`: product==budget should not fit"
    );
}

#[test]
fn batch_accum_non_padded_sums_tokens() {
    let cfg = cfg(1000, 100, false);
    let seed = item(&[500], 0);
    let mut accum = BatchAccum::default();
    accum.push(&seed);

    // 499 tokens: 500+499 = 999 < 1000 → fits.
    let cand_fit = item(&[499], 1);
    assert!(accum.fits(&cand_fit, &cfg));

    // 500 tokens: 500+500 = 1000 NOT < 1000 → does not fit.
    let cand_miss = item(&[500], 2);
    assert!(!accum.fits(&cand_miss, &cfg));
}

#[test]
fn batch_accum_max_items_cap_binds() {
    let cfg = cfg(usize::MAX, 2, false);
    let two = tok(&[1, 2], 0);
    let mut accum = BatchAccum::default();
    accum.push(&two);
    // Already at 2 items. Adding any text would exceed cap.
    let one = tok(&[3], 1);
    assert!(!accum.fits(&one, &cfg));
}

#[test]
fn overflowing_item_is_deferred_to_the_next_batch() {
    let mut log = MetricLog::new();
    let batches = dispatched(
        cfg(usize::MAX, 4, true),
        vec![tok(&[1, 2, 3], 1), tok(&[4, 5], 2)],
        &mut log,
    );
    assert_eq!(batches, vec![vec![1], vec![2]]);
    assert_eq!(names(log)[0], "embed_carry_events_total");
}

#[test]
fn small_requests_share_a_batch() {
    let mut log = MetricLog::new();
    let batches = dispatched(
        cfg(usize::MAX, 32, true),
        vec![tok(&[1, 2], 1), tok(&[3, 4, 5], 2), tok(&[6], 3)],
        &mut log,
    );
    assert_eq!(batches, vec![vec![1, 2, 3]]);
}

#[test]
fn batches_are_cut_at_the_cap() {
    let mut log = MetricLog::new();
    let batches = dispatched(
        cfg(usize::MAX, 4, true),
        vec![tok(&[1, 2], 1), tok(&[3, 4], 2), tok(&[5, 6], 3)],
        &mut log,
    );
    assert_eq!(batches, vec![vec![1, 2], vec![3]]);
}

#[test]
fn long_and_short_items_do_not_mix_when_padded() {
    let mut items = vec![item(&[500], 0)];
    items.extend((1..=10).map(|i| item(&[50], i)));
    let mut log = MetricLog::new();
    let batches = dispatched(cfg(1000, 100, true), items, &mut log);
    assert_eq!(batches[0], vec![0], "first batch must hold only the 500-token item");
    assert_eq!(batches[1], (1..=10).collect::<Vec<u32>>());
    let seen = names(log);
    assert!(seen.contains(&"embed_batch_tokens".to_string()));
    assert!(seen.contains(&"embed_batch_padding_waste_ratio".to_string()));
    assert!(seen.contains(&"embed_carry_events_total".to_string()));
}

#[test]
fn short_items_join_when_not_padded() {
    let mut items = vec![item(&[500], 0)];
    items.extend((1..=10).map(|i| item(&[50], i)));
    let mut log = MetricLog::new();
    let batches = dispatched(cfg(1000, 100, false), items, &mut log);
    assert_eq!(batches[0], (0..=9).collect::<Vec<u32>>(), "500 + 9 * 50 < 1000");
    assert_eq!(batches[1], vec![10]);
}

#[test]
fn oversized_item_goes_alone() {
    let mut log = MetricLog::new();
    let batches =
        dispatched(cfg(1000, 100, true), vec![item(&[1500], 1), item(&[1], 2)], &mut log);
    assert_eq!(batches, vec![vec![1], vec![2]]);
}

#[test]
fn cancelled_items_are_dropped_and_counted() {
    let mut log = MetricLog::new();
    let mut worker: BatchWorker<u32> = BatchWorker::new(cfg(usize::MAX, 32, true));
    assert_eq!(worker.next(), Action::Receive);
    // The first item is taken even if its caller has gone.
    assert_eq!(worker.received(tok(&[99], 1), true, "t", &mut log), Action::Coalesce);
    assert_eq!(worker.received(tok(&[98], 2), true, "t", &mut log), Action::Coalesce);
    assert_eq!(worker.received(tok(&[1], 3), false, "t", &mut log), Action::Coalesce);
    assert_eq!(worker.interrupted(), Action::Dispatch);
    let live = worker.take(&vec![true, false], "t", &mut log);
    assert_eq!(live.len(), 1);
    assert_eq!(live[0].reply, 3);
    let seen = names(log);
    let cancelled = seen.iter().filter(|n| *n == "embed_batcher_cancelled_items_total").count();
    assert_eq!(cancelled, 2);
    assert_eq!(worker.next(), Action::Receive);
    assert_eq!(worker.interrupted(), Action::Stop);
}

#[test]
fn batch_of_cancelled_items_records_no_cost() {
    let mut log = MetricLog::new();
    let mut worker: BatchWorker<u32> = BatchWorker::new(cfg(usize::MAX, 1, true));
    worker.next();
    assert_eq!(worker.received(tok(&[1], 1), false, "t", &mut log), Action::Dispatch);
    assert!(worker.take(&vec![true], "t", &mut log).is_empty());
    assert_eq!(names(log), vec!["embed_batcher_cancelled_items_total"]);
}

#[test]
fn costs_of_a_batch_are_recorded() {
    let mut log = MetricLog::new();
    let mut worker: BatchWorker<u32> = BatchWorker::new(cfg(usize::MAX, 2, true));
    worker.next();
    worker.received(item(&[10], 1), false, "t", &mut log);
    worker.received(item(&[6], 2), false, "t", &mut log);
    let live = take_all(&mut worker, &mut log);
    assert_eq!(live.len(), 2);
    let updates = log.into_updates();
    assert_eq!(updates[0].change, Change::HistogramRecord(Amount::Whole(20)));
    assert_eq!(updates[1].change, Change::HistogramRecord(Amount::Ratio { num: 4, den: 20 }));
}

#[test]
fn token_ids_are_passed_on_as_they_are() {
    let batch = vec![
        Item { token_ids: vec![vec![1u32, 2, 3], vec![4, 5]], reply: 7 },
        Item { token_ids: vec![vec![6u32]], reply: 8 },
    ];
    let (ids, replies) = gather(batch);
    assert_eq!(ids, vec![vec![1, 2, 3], vec![4, 5], vec![6]]);
    assert_eq!(replies, vec![(7, 2), (8, 1)]);
}

#[test]
fn vectors_go_back_to_their_items() {
    let mut log = MetricLog::new();
    let outcome = Inference::Finished(Ok(vec!["a", "b", "c"]));
    let r = settle(vec![(7, 2), (8, 1)], outcome, 3, 5, "t", &mut log);
    assert_eq!(r, vec![(7, Ok(vec!["a", "b"])), (8, Ok(vec!["c"]))]);
    assert_eq!(names(log), vec!["embed_inference_duration_seconds", "embed_batch_size"]);
}

#[test]
fn failed_inference_fails_every_item() {
    let cases: Vec<(Inference<u8>, &str)> = vec![
        (Inference::Finished(Err("model died".to_string())), "model died"),
        (Inference::Panicked("task 7".to_string()), "embed task panicked: task 7"),
        (
            Inference::Finished(Ok(vec![1])),
            "embed_fn returned 1 vectors for 2 texts",
        ),
    ];
    for (outcome, message) in cases {
        let mut log = MetricLog::new();
        let r = settle(vec![(1, 1), (2, 1)], outcome, 2, 0, "t", &mut log);
        assert_eq!(r, vec![(1, Err(message.to_string())), (2, Err(message.to_string()))]);
        assert!(names(log).is_empty());
    }
}

#[test]
fn full_queue_is_an_error_of_its_own() {
    let mut log = MetricLog::new();
    let e = reject("t4", &mut log);
    assert!(matches!(&e, BatchError::QueueFull(q) if q.batcher_name == "t4"));
    assert_eq!(e.message(), "queue full: batcher 't4' queue is full");
    assert_eq!(names(log).len(), 1);
}

#[test]
fn replies_are_answers() {
    assert!(matches!(answer(Some(Ok(3))), Ok(3)));
    assert!(matches!(answer::<u8>(Some(Err("x".into()))), Err(BatchError::Inference(m)) if m == "x"));
    assert!(matches!(answer::<u8>(None), Err(BatchError::Shutdown)));
    assert_eq!(BatchError::Inference("x".into()).message(), "inference error: x");
    assert_eq!(BatchError::Shutdown.message(), "batcher shut down");
    assert_eq!(
        QueueFullError { batcher_name: "b".into() }.message(),
        "batcher 'b' queue is full"
    );
}

#[test]
fn sizes_of_items() {
    let i = item(&[3, 9, 4], 0);
    assert_eq!((i.n_texts(), i.max_seq_len(), i.total_tokens()), (3, 9, 16));
    assert_eq!(max_seq_len_of(&vec![]), 0);
    assert_eq!(total_tokens_of(&vec![vec![1], vec![2, 3]]), 3);
}

/// The calls of `embed` and the answer to each item, in the order of the items,
/// when all items are there at once. An item whose caller has gone gets none.
fn served(
    cfg: BatcherConfig,
    name: &str,
    items: Vec<(Vec<Vec<u32>>, bool)>,
    embed: impl Fn(&Vec<Vec<u32>>) -> Result<Vec<Vec<u32>>, String>,
    log: &mut MetricLog,
) -> (Vec<Vec<Vec<u32>>>, Vec<Option<Result<Vec<Vec<u32>>, BatchError>>>) {
    let gone: Vec<bool> = items.iter().map(|i| i.1).collect();
    let mut answers: Vec<Option<Result<Vec<Vec<u32>>, BatchError>>> = Vec::new();
    answers.resize_with(items.len(), || None);
    let mut waiting = items.into_iter().enumerate();
    let mut calls: Vec<Vec<Vec<u32>>> = Vec::new();
    let mut worker: BatchWorker<usize> = BatchWorker::new(cfg);
    let mut action = worker.next();
    loop {
        action = match action {
            Action::Receive | Action::Coalesce => match waiting.next() {
                Some((reply, (token_ids, gone))) => {
                    worker.received(Item { token_ids, reply }, gone, name, log)
                }
                None => worker.interrupted(),
            },
            Action::Dispatch => {
                let left: Vec<bool> = (0..worker.len()).map(|i| gone[*worker.reply(i)]).collect();
                let (ids, replies) = gather(worker.take(&left, name, log));
                if !replies.is_empty() {
                    let total = ids.len();
                    calls.push(ids.clone());
                    let outcome = Inference::Finished(embed(&ids));
                    for (reply, r) in settle(replies, outcome, total, 1, name, log) {
                        assert!(answers[reply].is_none(), "answered twice");
                        answers[reply] = Some(answer(Some(r)));
                    }
                }
                worker.next()
            }
            Action::Stop => return (calls, answers),
        };
    }
}

fn toks(ids: &[u32]) -> Vec<Vec<u32>> {
    ids.iter().map(|i| vec![*i]).collect()
}

/// Caps the texts alone.
fn item_cap(max_batch_items: usize) -> BatcherConfig {
    cfg(usize::MAX, max_batch_items, true)
}

fn four_each(ids: &Vec<Vec<u32>>) -> Result<Vec<Vec<u32>>, String> {
    Ok(ids.iter().map(|_| vec![0; 4]).collect())
}

fn stay(items: Vec<Vec<Vec<u32>>>) -> Vec<(Vec<Vec<u32>>, bool)> {
    items.into_iter().map(|i| (i, false)).collect()
}

fn ok_len(r: &Option<Result<Vec<Vec<u32>>, BatchError>>) -> usize {
    r.as_ref().expect("answered").as_ref().expect("vectors").len()
}

/// A long item, then ten short ones.
fn long_then_short() -> Vec<(Vec<Vec<u32>>, bool)> {
    let mut items = vec![vec![vec![0u32; 500]]];
    for _ in 0..10 {
        items.push(vec![vec![0u32; 50]]);
    }
    stay(items)
}

fn lens(calls: &[Vec<Vec<u32>>]) -> Vec<Vec<usize>> {
    calls.iter().map(|c| c.iter().map(|i| i.len()).collect()).collect()
}

#[test]
fn batcher_passes_token_ids_verbatim() {
    let mut log = MetricLog::new();
    let items = stay(vec![vec![vec![1u32, 2, 3], vec![4, 5]]]);
    let (captured, r) = served(item_cap(32), "t_tok", items, four_each, &mut log);
    assert_eq!(ok_len(&r[0]), 2);
    assert_eq!(captured.len(), 1, "expected exactly one batch call");
    assert_eq!(captured[0], vec![vec![1u32, 2, 3], vec![4, 5]]);
}

#[test]
fn single_request_no_coalesce() {
    let mut log = MetricLog::new();
    let (calls, r) = served(item_cap(32), "t1", stay(vec![toks(&[1, 2])]), four_each, &mut log);
    assert_eq!(ok_len(&r[0]), 2);
    assert_eq!(r[0].as_ref().unwrap().as_ref().unwrap()[0].len(), 4);
    assert_eq!(calls.len(), 1);
    assert_eq!(calls[0], toks(&[1, 2]));
}

#[test]
fn concurrent_requests_coalesce() {
    let mut log = MetricLog::new();
    let items = stay(vec![toks(&[1, 2]), toks(&[3, 4, 5]), toks(&[6])]);
    let (calls, r) = served(item_cap(32), "t2", items, four_each, &mut log);
    assert!(r.iter().all(|r| matches!(r, Some(Ok(_)))));
    assert!(calls.len() <= 2, "expected <=2 batches, got {}", calls.len());
    let all: Vec<u32> = calls.iter().flat_map(|batch| batch.iter().map(|v| v[0])).collect();
    for t in [1u32, 2, 3, 4, 5, 6] {
        assert!(all.contains(&t), "missing token: {t}");
    }
}

#[test]
fn batch_size_cap_splits() {
    let mut log = MetricLog::new();
    let items = stay(vec![toks(&[1, 2]), toks(&[3, 4]), toks(&[5, 6])]);
    let (calls, _) = served(item_cap(4), "t3", items, four_each, &mut log);
    assert!(calls.len() >= 2, "expected >=2 batches, got {}", calls.len());
    assert!(calls.iter().map(|v| v.len()).sum::<usize>() >= 4);
}

#[test]
fn queue_full_returns_error() {
    let mut log = MetricLog::new();
    let overflow = reject("t4", &mut log);
    assert!(matches!(overflow, BatchError::QueueFull(_)), "got: {overflow:?}");
}

#[test]
fn coalesce_overflow_defers_to_next_batch() {
    let mut log = MetricLog::new();
    let items = stay(vec![toks(&[1, 2, 3]), toks(&[4, 5])]);
    let (calls, r) = served(item_cap(4), "t_defer", items, four_each, &mut log);
    assert_eq!(ok_len(&r[0]), 3, "first request must succeed");
    assert_eq!(ok_len(&r[1]), 2, "second request must succeed (previously dropped)");
    assert_eq!(calls.len(), 2, "expected exactly 2 batches, got {}", calls.len());
    assert_eq!(calls[0], toks(&[1, 2, 3]));
    assert_eq!(calls[1], toks(&[4, 5]));
}

#[test]
fn inference_error_fails_all_coalesced() {
    let mut log = MetricLog::new();
    let items = stay(vec![toks(&[1]), toks(&[2])]);
    let died = |_: &Vec<Vec<u32>>| -> Result<Vec<Vec<u32>>, String> { Err("model died".to_string()) };
    let (_, answers) = served(item_cap(32), "t5", items, died, &mut log);
    for r in answers {
        match r {
            Some(Err(BatchError::Inference(msg))) => {
                assert!(msg.contains("model died"), "unexpected: {msg}");
            }
            other => panic!("expected Inference, got: {other:?}"),
        }
    }
}

#[test]
fn cancelled_items_are_skipped() {
    let mut log = MetricLog::new();
    let items = vec![(toks(&[99]), true), (toks(&[1]), false)];
    let (calls, r) = served(item_cap(32), "t_cancel", items, four_each, &mut log);
    assert_eq!(ok_len(&r[1]), 1);
    assert!(r[0].is_none());
    let embedded: usize = calls.iter().map(|c| c.len()).sum();
    assert_eq!(embedded, 1, "expected only the live item to be embedded, got {embedded} total");
}

#[test]
fn cancelled_items_increment_metric() {
    let mut log = MetricLog::new();
    let items = vec![(toks(&[99]), true), (toks(&[99]), true), (toks(&[1]), false)];
    let (_, r) = served(item_cap(32), "t_cancel_metric", items, four_each, &mut log);
    assert_eq!(ok_len(&r[2]), 1);
    let counted = names(log).iter().filter(|n| *n == "embed_batcher_cancelled_items_total").count();
    assert_eq!(counted, 2, "expected counter to increment by 2");
}

#[test]
fn padded_accounting_prevents_mixing_long_with_many_short() {
    let mut log = MetricLog::new();
    let (calls, _) = served(cfg(1000, 100, true), "t_pad", long_then_short(), four_each, &mut log);
    let batches = lens(&calls);
    assert!(
        batches[0] == vec![500],
        "first batch must hold only the 500-token item, got {:?}",
        batches[0]
    );
    assert!(
        batches.len() >= 2,
        "10 short items must dispatch in separate batch(es), got {} batch(es)",
        batches.len()
    );
}

#[test]
fn non_padded_accounting_sums_tokens() {
    let mut log = MetricLog::new();
    let (calls, _) = served(cfg(1000, 100, false), "t_nopad", long_then_short(), four_each, &mut log);
    let batches = lens(&calls);
    let total_items: usize = batches.iter().map(|b| b.len()).sum();
    assert_eq!(total_items, 11, "all 11 items must dispatch");
    assert!(
        batches[0].len() > 1,
        "non-padded accounting should let short items join the 500-tok batch, got batches[0] = {:?}",
        batches[0]
    );
    assert!(batches[0].contains(&500));
    assert_eq!(batches[0].len(), 10, "the tenth short item is deferred");
}

#[test]
fn oversized_single_item_still_dispatches_alone() {
    let mut log = MetricLog::new();
    let items = stay(vec![vec![vec![0u32; 1500]]]);
    let (calls, r) = served(cfg(1000, 100, true), "t_solo", items, four_each, &mut log);
    assert_eq!(ok_len(&r[0]), 1);
    assert_eq!(lens(&calls), vec![vec![1500usize]]);
}

#[test]
fn token_budget_metrics_are_recorded() {
    let mut log = MetricLog::new();
    let name = "t_budget_metrics";
    served(cfg(1000, 100, true), name, long_then_short(), four_each, &mut log);
    let updates = log.into_updates();
    for wanted in ["embed_batch_tokens", "embed_batch_padding_waste_ratio", "embed_carry_events_total"] {
        assert!(
            updates.iter().any(|u| u.name == wanted
                && u.labels.iter().any(|(k, v)| k == "model" && v == name)),
            "missing {wanted}"
        );
    }
}

#[test]
fn a_run_dispatches_every_item_once_in_order() {
    let mut log = MetricLog::new();
    let items: Vec<Vec<Vec<u32>>> = (0..50u32).map(|i| toks(&vec![i; 1 + (i as usize * 7) % 5])).collect();
    let came: Vec<Vec<u32>> = items.iter().flatten().cloned().collect();
    let (calls, r) = served(cfg(9, 6, true), "run", stay(items), four_each, &mut log);
    let gone: Vec<Vec<u32>> = calls.into_iter().flatten().collect();
    assert_eq!(gone, came);
    assert!(r.iter().all(|r| matches!(r, Some(Ok(_)))));
}
