use std::cell::{Cell, RefCell};

use embed_server::evictable_pool::{AcquireError, EvictablePool};
use embed_server::metrics::MetricLog;
use embed_server::pass::{
    conclude_pass, embed_tokens_one_pass, PassInput, PassModel, PassOutcome,
};
use embed_server::warmup::{
    acquire_all, release_all, warm_each, warmup, warmup_at_shape, warmup_input, warmup_texts,
    WarmOutcome,
};

fn model(shrinks_arena: bool) -> PassModel {
    PassModel {
        name: "e5".to_string(),
        max_len: 8,
        pad_id: 1,
        has_token_type_ids: false,
        num_heads: 12,
        shrinks_arena,
    }
}

fn names(log: MetricLog) -> Vec<String> {
    log.into_updates().iter().map(|u| u.name.clone()).collect()
}

fn ran(result: Result<Result<Vec<u32>, String>, String>) -> PassOutcome<u32> {
    PassOutcome::Ran { rss_before: 100, rss_after: 150, result }
}

#[test]
fn one_pass_gives_a_vector_for_each_sequence() {
    let run = |input: &PassInput| -> PassOutcome<u32> {
        assert_eq!((input.batch, input.max_seq), (2, 4));
        assert_eq!(input.ids, vec![5, 6, 7, 1, 8, 1, 1, 1]);
        assert_eq!(input.mask, vec![1, 1, 1, 0, 1, 0, 0, 0]);
        assert_eq!(input.types, None);
        ran(Ok(Ok(vec![10, 20])))
    };
    let mut log = MetricLog::new();
    let r = embed_tokens_one_pass(&model(true), &vec![vec![5, 6, 7], vec![8]], &run, &mut log);
    assert_eq!(r, Ok(vec![10, 20]));
    assert_eq!(
        names(log),
        vec![
            "embed_batch_dimensions_total",
            "embed_batch_token_budget",
            "embed_inference_attention_scratch_bytes",
            "embed_arena_shrink_calls_total",
            "embed_inference_peak_bytes",
        ]
    );
}

#[test]
fn no_sequences_need_no_pass() {
    let run = |_: &PassInput| -> PassOutcome<u32> { panic!("nothing to run") };
    let mut log = MetricLog::new();
    assert_eq!(embed_tokens_one_pass(&model(false), &vec![], &run, &mut log), Ok(vec![]));
    assert!(names(log).is_empty());
}

#[test]
fn failures_of_a_pass() {
    let fail = |outcome: PassOutcome<u32>| {
        let mut log = MetricLog::new();
        let e = conclude_pass(outcome, &model(false), &mut log).expect_err("failed");
        (e, names(log))
    };
    assert_eq!(
        fail(PassOutcome::NotRun("ids shape: 3".to_string())),
        ("ids shape: 3".to_string(), vec![])
    );
    assert_eq!(
        fail(PassOutcome::NoSession(AcquireError::AllBusy)),
        ("embed session pool: all slots busy".to_string(), vec![])
    );
    assert_eq!(
        fail(PassOutcome::NoSession(AcquireError::ReinitFailed("x".into()))),
        ("embed session pool: reinit failed: x".to_string(), vec![])
    );
    let (e, seen) = fail(ran(Err("no memory".to_string())));
    assert_eq!(e, "inference: no memory");
    assert_eq!(seen, vec!["embed_inference_peak_bytes", "embed_inference_failures_total"]);
    let (e, seen) = fail(ran(Ok(Err("extract: rank".to_string()))));
    assert_eq!(e, "extract: rank");
    assert_eq!(seen, vec!["embed_inference_peak_bytes"]);
}

#[test]
fn memory_that_shrank_counts_as_no_growth() {
    let mut log = MetricLog::new();
    let outcome: PassOutcome<u32> =
        PassOutcome::Ran { rss_before: 9, rss_after: 3, result: Ok(Ok(vec![])) };
    assert_eq!(conclude_pass(outcome, &model(false), &mut log), Ok(vec![]));
    let change = format!("{:?}", log.into_updates()[0].change);
    assert!(change.contains("Whole(0)"), "{change}");
}

#[test]
fn warmup_uses_placeholders() {
    assert_eq!(warmup_texts(3), vec!["warmup", "warmup", "warmup"]);
    let input = warmup_input(&vec![vec![5], vec![]], Some(2), &model(false)).expect("input");
    assert_eq!((input.batch, input.max_seq), (2, 2));
    assert_eq!(input.ids, vec![5, 1, 1, 1]);
    let input = warmup_input(&vec![vec![5]], None, &model(false)).expect("input");
    assert_eq!(input.max_seq, 8);
    assert_eq!(
        warmup_input(&vec![vec![], vec![]], None, &model(false)).expect_err("no tokens"),
        "warmup tokens produced empty sequence"
    );
    assert!(warmup_input(&vec![], None, &model(false)).is_err());
}

#[test]
fn every_session_is_warmed_and_given_back() {
    let reached: RefCell<Vec<u32>> = RefCell::new(Vec::new());
    let tokenize = |t: &Vec<String>| -> Result<Vec<Vec<u32>>, String> {
        Ok(t.iter().map(|_| vec![3u32]).collect())
    };
    let factory = || -> Result<u32, String> { Ok(0) };
    let run = |session: &u32, input: &PassInput| -> WarmOutcome {
        assert_eq!(input.batch, 2);
        reached.borrow_mut().push(*session);
        if *session == 20 {
            Ok(Err("cold".to_string()))
        } else {
            Ok(Ok(()))
        }
    };
    let mut pool = EvictablePool::from_items(vec![10u32, 20, 30], 0, "e5", 1);
    let mut log = MetricLog::new();
    let r = warmup_at_shape(
        &mut pool,
        &model(false),
        2,
        None,
        &tokenize,
        &factory,
        &run,
        5,
        &mut log,
    );
    assert_eq!(r, Ok(()));
    assert_eq!(*reached.borrow(), vec![10, 20, 30]);
    assert_eq!(names(log), vec!["embed_warmup_failed_total"]);
    assert!((0..3).all(|i| !pool.slot_is_busy(i) && !pool.slot_is_evicted(i)));
}

#[test]
fn broken_warmups_give_the_sessions_back_too() {
    let tokenize = |t: &Vec<String>| -> Result<Vec<Vec<u32>>, String> {
        Ok(t.iter().map(|_| vec![3u32]).collect())
    };
    let factory = || -> Result<u32, String> { Ok(0) };
    let run = |_: &u32, _: &PassInput| -> WarmOutcome { Err("warmup ids tensor: x".to_string()) };
    let mut pool = EvictablePool::from_items(vec![10u32, 20], 0, "e5", 1);
    let mut log = MetricLog::new();
    let m = model(false);
    let r = warmup_at_shape(&mut pool, &m, 1, None, &tokenize, &factory, &run, 5, &mut log);
    assert_eq!(r, Err("warmup ids tensor: x".to_string()));
    assert!(!pool.slot_is_busy(0) && !pool.slot_is_busy(1));
    let untokenized =
        |_: &Vec<String>| -> Result<Vec<Vec<u32>>, String> { Err("tokenize: x".to_string()) };
    let r = warmup_at_shape(&mut pool, &m, 1, None, &untokenized, &factory, &run, 5, &mut log);
    assert_eq!(r, Err("tokenize: x".to_string()));
    assert!(names(log).is_empty());
}

#[test]
fn all_sessions_are_taken_in_order() {
    let factory = || -> Result<u32, String> { Ok(7) };
    let mut pool = EvictablePool::from_items(vec![10u32, 20, 30], 1, "e5", 1);
    let mut log = MetricLog::new();
    let first = pool.acquire(&factory, 100, &mut log).expect("acquire");
    pool.evict_idle(1, 100, &mut log);
    let guards = acquire_all(&mut pool, &factory, 100, &mut log);
    let got: Vec<(usize, u32)> = guards.iter().map(|g| (g.slot_index(&pool), *g.get())).collect();
    assert_eq!(got, vec![(1, 7), (2, 7)], "evicted sessions are made anew");
    let input = warmup_input(&vec![vec![5]], None, &model(false)).expect("input");
    let fine = |_: &u32, _: &PassInput| -> WarmOutcome { Ok(Ok(())) };
    assert_eq!(warm_each(&guards, &input, &fine, "e5", &mut log), Ok(()));
    release_all(&mut pool, guards, 101);
    assert!(pool.slot_is_busy(0) && !pool.slot_is_busy(1) && !pool.slot_is_busy(2));
    pool.release(first, 101);
}

#[test]
fn failed_shapes_are_counted_and_passed_over() {
    let tried = Cell::new(0u32);
    let at_shape = |n: usize| -> Result<(), String> {
        tried.set(tried.get() + 1);
        if n == 8 {
            Err("no memory".to_string())
        } else {
            Ok(())
        }
    };
    let mut log = MetricLog::new();
    warmup("e5", &vec![1, 8, 4], &at_shape, &mut log);
    assert_eq!(tried.get(), 3);
    let updates = log.into_updates();
    assert_eq!(updates.len(), 1);
    assert_eq!(updates[0].labels[1].1, "shape");
}

#[test]
fn sessions_that_cannot_be_made_are_asked_for_again() {
    let evicted = |n: usize, log: &mut MetricLog| {
        let mut pool = EvictablePool::from_items(vec![1u32; n], 1, "e5", 0);
        pool.evict_idle(1, 100, log);
        pool
    };
    let tries = std::cell::Cell::new(0);
    let second_time = || -> Result<u32, String> {
        tries.set(tries.get() + 1);
        if tries.get() == 1 {
            Err("no memory".to_string())
        } else {
            Ok(9)
        }
    };
    let mut pool = evicted(2, &mut MetricLog::new());
    let mut log = MetricLog::new();
    let guards = acquire_all(&mut pool, &second_time, 100, &mut log);
    let got: Vec<(usize, u32)> = guards.iter().map(|g| (g.slot_index(&pool), *g.get())).collect();
    assert_eq!(got, vec![(0, 9)], "one of two questions was lost");
    let cold = "embed_pool_cold_starts_total".to_string();
    let lost = "embed_pool_reinit_failures_total".to_string();
    assert_eq!(names(log), vec![cold.clone(), lost.clone(), cold.clone()]);

    let never = || -> Result<u32, String> { Err("no memory".to_string()) };
    let mut pool = evicted(2, &mut MetricLog::new());
    let mut log = MetricLog::new();
    assert!(acquire_all(&mut pool, &never, 100, &mut log).is_empty());
    assert_eq!(names(log), vec![cold.clone(), lost.clone(), cold, lost]);
    assert!(!pool.slot_is_busy(0) && !pool.slot_is_busy(1));
}
