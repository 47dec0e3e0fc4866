use embed_server::config::parse_models;
use embed_server::env::EnvVars;
use embed_server::evictable_pool::AcquireError;
use embed_server::metrics::{Amount, Change, MetricLog};
use embed_server::model::{
    acquire_failed, arena_shrink_enabled_for_model, build_tensors_from_ids, classify_ort_error,
    clip_ids, embed_plan, embed_tokens, external_data_path, missing_file, parse_opt_level,
    pass_failed, plan_pass, plan_subbatches, round_up_seq_len, rss_bytes, rss_pages,
    subbatch_ratio_raw, warmup_seq, ModelFiles, OptLevel,
};
use embed_server::order::descending_order;

/// The plan at a ratio of lengths.
fn plan(lens: &[usize], ratio: f32) -> Vec<Vec<usize>> {
    let within = |widest: usize, len: usize| -> bool { widest as f32 / len as f32 <= ratio };
    plan_subbatches(&lens.to_vec(), ratio > 1.0, &within)
}

/// Flatten a plan back to a sorted index list.
fn flat(groups: &[Vec<usize>]) -> Vec<usize> {
    let mut v: Vec<usize> = groups.iter().flatten().copied().collect();
    v.sort_unstable();
    v
}

fn env(vars: &[(&str, &str)]) -> EnvVars {
    let mut e = EnvVars::new();
    for (k, v) in vars {
        e.set(k, v);
    }
    e
}

#[test]
fn subbatch_plan_covers_every_index_exactly_once() {
    let lens = vec![500, 12, 300, 7, 480, 33, 210, 1, 64, 128];
    let groups = plan(&lens, 2.0);
    assert_eq!(flat(&groups), (0..lens.len()).collect::<Vec<_>>());
}

#[test]
fn subbatch_plan_splits_when_spread_exceeds_ratio() {
    // 500 against 10 is a 50× spread — it must not share a pass.
    let groups = plan(&[500, 10], 2.0);
    assert_eq!(groups.len(), 2, "wide spread must split");
    // Longest first, so group 0 owns the long sequence.
    assert_eq!(groups[0], vec![0]);
    assert_eq!(groups[1], vec![1]);
}

#[test]
fn subbatch_plan_keeps_one_group_inside_the_ratio() {
    let groups = plan(&[200, 120], 2.0);
    assert_eq!(groups.len(), 1);
    let groups = plan(&[200, 100], 2.0);
    assert_eq!(groups.len(), 1, "ratio exactly 2.0 must stay together");
    let groups = plan(&[201, 100], 2.0);
    assert_eq!(groups.len(), 2, "just past the threshold must split");
}

#[test]
fn subbatch_disabled_ratio_yields_exactly_one_group() {
    for ratio in [0.0f32, 1.0, -3.0, f32::NAN] {
        let groups = plan(&[500, 10, 300], ratio);
        assert_eq!(groups.len(), 1, "ratio {ratio} must disable splitting");
        assert_eq!(groups[0], vec![0, 1, 2], "order must be untouched");
    }
}

#[test]
fn subbatch_plan_is_deterministic_on_ties() {
    let lens = vec![100, 100, 100, 100];
    let first = plan(&lens, 2.0);
    for _ in 0..8 {
        assert_eq!(plan(&lens, 2.0), first);
    }
    assert_eq!(first, vec![vec![0, 1, 2, 3]]);
}

#[test]
fn subbatch_plan_handles_zero_length_without_dividing_by_zero() {
    let groups = plan(&[0, 0, 5], 2.0);
    assert_eq!(flat(&groups), vec![0, 1, 2]);
    let groups = plan(&[], 2.0);
    assert!(groups.is_empty());
}

#[test]
fn subbatch_groups_are_ordered_longest_first() {
    let groups = plan(&[10, 500, 60], 2.0);
    let widest: Vec<usize> = groups
        .iter()
        .map(|g| g.iter().map(|&i| [10, 500, 60][i]).max().unwrap())
        .collect();
    let mut sorted = widest.clone();
    sorted.sort_unstable_by(|a, b| b.cmp(a));
    assert_eq!(widest, sorted, "groups must run widest-first");
}

#[test]
fn zero_rounds_to_one() {
    assert_eq!(round_up_seq_len(0, 256), 1);
}

#[test]
fn one_stays_one() {
    assert_eq!(round_up_seq_len(1, 256), 1);
}

#[test]
fn rounds_up_to_next_power_of_two() {
    assert_eq!(round_up_seq_len(3, 256), 4);
    assert_eq!(round_up_seq_len(5, 256), 8);
    assert_eq!(round_up_seq_len(9, 256), 16);
    assert_eq!(round_up_seq_len(17, 256), 32);
    assert_eq!(round_up_seq_len(65, 256), 128);
}

#[test]
fn already_power_of_two_passes_through() {
    for n in [2usize, 4, 8, 16, 32, 64, 128, 256] {
        assert_eq!(
            round_up_seq_len(n, 256),
            n,
            "{n} is already a power of two, must not round up"
        );
    }
}

#[test]
fn capped_at_model_max_len() {
    // 200 → 256 if cap allows, else clamp at cap.
    assert_eq!(round_up_seq_len(200, 256), 256);
    assert_eq!(round_up_seq_len(200, 200), 200);
    assert_eq!(round_up_seq_len(257, 256), 256);
    assert_eq!(round_up_seq_len(150, 300), 256);
    // 250.next_power_of_two() == 256, well under cap=300.
    assert_eq!(round_up_seq_len(250, 300), 256);
    // 257.next_power_of_two() == 512, capped to 300.
    assert_eq!(round_up_seq_len(257, 300), 300);
}

#[test]
fn classify_arena_oom_message() {
    let msg = "Available memory of 1073741824 bytes is smaller than requested bytes of 1258291200";
    let (reason, bin_num) = classify_ort_error(msg);
    assert_eq!(reason, "arena_oom");
    assert_eq!(bin_num, 0);
}

#[test]
fn classify_other_error_message() {
    let msg = "ONNX graph is invalid: input tensor not found";
    let (reason, bin_num) = classify_ort_error(msg);
    assert_eq!(reason, "other");
    assert_eq!(bin_num, 0);
}

#[test]
fn classify_partial_match_is_other() {
    // Contains "Available memory" but not "smaller than requested"
    let msg = "Available memory of 1 GiB";
    let (reason, _) = classify_ort_error(msg);
    assert_eq!(reason, "other");
}

#[test]
fn parse_opt_level_env_mapping() {
    assert_eq!(parse_opt_level(&env(&[])), OptLevel::Level3);
    for (val, want) in [
        ("0", OptLevel::Disable),
        ("1", OptLevel::Level1),
        ("2", OptLevel::Level2),
        ("3", OptLevel::Level3),
    ] {
        assert_eq!(
            parse_opt_level(&env(&[("ORT_OPT_LEVEL", val)])),
            want,
            "value {:?} should map to {:?}",
            val,
            want
        );
    }
    // Garbage / out-of-range → Level3 fallback.
    for garbage in ["not-a-number", "99", ""] {
        assert_eq!(parse_opt_level(&env(&[("ORT_OPT_LEVEL", garbage)])), OptLevel::Level3);
    }
}

#[test]
fn embed_model_shrink_enabled_when_memory_pattern_false() {
    let enabled = arena_shrink_enabled_for_model(&env(&[]), "jina-code-v2", false);
    assert!(
        enabled,
        "arena shrinkage should be enabled for memory_pattern=false (jina)"
    );
}

#[test]
fn embed_model_no_shrink_when_memory_pattern_true() {
    let enabled = arena_shrink_enabled_for_model(&env(&[]), "multilingual-e5-large", true);
    assert!(
        !enabled,
        "arena shrinkage must NOT be enabled for memory_pattern=true (e5-large)"
    );
}

#[test]
fn embed_arena_shrink_env_force_on_overrides_memory_pattern_true() {
    let e = env(&[("EMBED_ARENA_SHRINK_MULTILINGUAL_E5_LARGE", "true")]);
    assert!(
        arena_shrink_enabled_for_model(&e, "multilingual-e5-large", true),
        "EMBED_ARENA_SHRINK_MULTILINGUAL_E5_LARGE=true must force shrinkage on \
         regardless of memory_pattern"
    );
}

#[test]
fn embed_arena_shrink_env_force_off_overrides_memory_pattern_false() {
    let e = env(&[("EMBED_ARENA_SHRINK_JINA_CODE_V2", "false")]);
    assert!(
        !arena_shrink_enabled_for_model(&e, "jina-code-v2", false),
        "EMBED_ARENA_SHRINK_JINA_CODE_V2=false must disable shrinkage \
         regardless of memory_pattern"
    );
}

#[test]
fn embed_arena_shrink_env_auto_follows_memory_pattern() {
    let e = env(&[("EMBED_ARENA_SHRINK_JINA_CODE_V2", "auto")]);
    assert!(
        arena_shrink_enabled_for_model(&e, "jina-code-v2", false),
        "auto + memory_pattern=false → shrinkage on"
    );
    let e = env(&[("EMBED_ARENA_SHRINK_MULTILINGUAL_E5_LARGE", "auto")]);
    assert!(
        !arena_shrink_enabled_for_model(&e, "multilingual-e5-large", true),
        "auto + memory_pattern=true → shrinkage off"
    );
}

#[test]
fn embed_arena_shrink_env_invalid_falls_back_to_auto() {
    let e = env(&[("EMBED_ARENA_SHRINK_JINA_CODE_V2", "yes")]);
    assert!(
        arena_shrink_enabled_for_model(&e, "jina-code-v2", false),
        "invalid value 'yes' + memory_pattern=false → shrinkage on"
    );
    let e = env(&[("EMBED_ARENA_SHRINK_MULTILINGUAL_E5_LARGE", "nope")]);
    assert!(
        !arena_shrink_enabled_for_model(&e, "multilingual-e5-large", true),
        "invalid value 'nope' + memory_pattern=true → shrinkage off"
    );
}

#[test]
fn own_split_ratio_comes_before_the_global_one() {
    let e = env(&[("EMBED_SUBBATCH_RATIO", "2"), ("EMBED_SUBBATCH_RATIO_JINA", "3")]);
    assert_eq!(subbatch_ratio_raw(&e, "jina"), Some("3"));
    assert_eq!(subbatch_ratio_raw(&e, "e5"), Some("2"));
    assert_eq!(subbatch_ratio_raw(&env(&[]), "e5"), None);
}

#[test]
fn resident_memory_is_the_second_word() {
    assert_eq!(rss_pages("1234 567 89 1 0 2 0\n"), 567);
    assert_eq!(rss_pages("1234"), 0);
    assert_eq!(rss_pages("1234 x"), 0);
    assert_eq!(rss_bytes(567, 16384), 567 * 16384);
    assert_eq!(rss_bytes(3, -1), 3 * 4096);
}

#[test]
fn models_are_loaded_as_planned() {
    let e = env(&[("ORT_OPT_LEVEL", "1")]);
    let defs = parse_models("multilingual-e5-large:/m:1024:256:1:false", &e).expect("definition");
    let p = embed_plan(&defs[0], 0, 120, &e);
    assert_eq!((p.pool_size, p.num_heads, p.eviction_tick_secs), (1, 16, Some(30)));
    assert_eq!(p.opt_level, OptLevel::Level1);
    let p = embed_plan(&defs[0], 3, 0, &e);
    assert_eq!((p.pool_size, p.eviction_tick_secs), (3, None));
    let defs = parse_models("jina:/m:768:512:0:false", &e).expect("definition");
    let p = embed_plan(&defs[0], 1, 0, &e);
    assert_eq!(p.num_heads, 12);
}

fn files(onnx_exists: bool, tokenizer_exists: bool) -> ModelFiles {
    ModelFiles {
        onnx_path: "/m.onnx".to_string(),
        onnx_exists,
        tokenizer_path: "/t.json".to_string(),
        tokenizer_exists,
    }
}

#[test]
fn missing_files_are_named() {
    assert_eq!(missing_file(&files(true, true)), None);
    assert_eq!(
        missing_file(&files(false, false)).as_deref(),
        Some("ONNX file not found: /m.onnx")
    );
    assert_eq!(
        missing_file(&files(true, false)).as_deref(),
        Some("tokenizer.json not found: /t.json")
    );
    assert_eq!(external_data_path("/m/model.onnx"), "/m/model.onnx.data");
}

#[test]
fn warmup_length_is_within_the_model() {
    assert_eq!(warmup_seq(None, 512), 512);
    assert_eq!(warmup_seq(Some(128), 512), 128);
    assert_eq!(warmup_seq(Some(1000), 512), 512);
    assert_eq!(warmup_seq(Some(0), 512), 1);
}

#[test]
fn failures_in_words() {
    assert_eq!(acquire_failed(&AcquireError::AllBusy), "embed session pool: all slots busy");
    assert_eq!(
        acquire_failed(&AcquireError::ReinitFailed("x".into())),
        "embed session pool: reinit failed: x"
    );
    let mut log = MetricLog::new();
    assert_eq!(pass_failed("bad shape", "m", &mut log), "inference: bad shape");
    let updates = log.into_updates();
    assert_eq!(updates[0].name, "embed_inference_failures_total");
    assert_eq!(updates[0].labels[1].1, "other");
}

#[test]
fn tokens_are_embedded_in_their_order() {
    let within = |widest: usize, len: usize| -> bool { widest <= 2 * len };
    let one_pass = |ids: &Vec<Vec<u32>>| -> Result<Vec<u32>, String> {
        Ok(ids.iter().map(|s| s[0]).collect())
    };
    let ids = vec![vec![1; 2], vec![2; 50], vec![3; 3], vec![4; 40]];
    let mut log = MetricLog::new();
    let r = embed_tokens(&ids, 64, true, &within, &one_pass, "m", &mut log);
    assert_eq!(r, Ok(vec![1, 2, 3, 4]));
    assert_eq!(log.into_updates().len(), 1);
    let mut log = MetricLog::new();
    let r = embed_tokens(&vec![], 64, true, &within, &one_pass, "m", &mut log);
    assert_eq!(r, Ok(vec![]));
    assert!(log.into_updates().is_empty());
}

#[test]
fn failed_passes_fail_the_request() {
    let within = |_: usize, _: usize| -> bool { true };
    let ids = vec![vec![1; 2], vec![2; 3]];
    let mut log = MetricLog::new();
    let failing = |_: &Vec<Vec<u32>>| -> Result<Vec<u32>, String> { Err("boom".to_string()) };
    let r = embed_tokens(&ids, 64, true, &within, &failing, "m", &mut log);
    assert_eq!(r, Err("boom".to_string()));
    let apart = |widest: usize, len: usize| -> bool { widest <= len };
    let short = |_: &Vec<Vec<u32>>| -> Result<Vec<u32>, String> { Ok(vec![]) };
    let r = embed_tokens(&ids, 64, true, &apart, &short, "m", &mut log);
    assert_eq!(r, Err("sub-batch cardinality: expected 1, got 0".to_string()));
}

#[test]
fn one_pass_is_padded_to_one_length() {
    let ids = vec![vec![5, 6, 7], vec![8]];
    let mut log = MetricLog::new();
    let shape = plan_pass(&ids, 512, 12, "m", &mut log);
    assert_eq!((shape.batch, shape.max_seq), (2, 4));
    let updates = log.into_updates();
    assert!(updates.iter().any(|u| u.change
        == Change::HistogramRecord(Amount::Scratch { batch_size: 2, num_heads: 12, seq_len: 4 })));
    let (tokens, mask, types) = build_tensors_from_ids(&ids, shape.max_seq, 1, true);
    assert_eq!(tokens, vec![5, 6, 7, 1, 8, 1, 1, 1]);
    assert_eq!(mask, vec![1, 1, 1, 0, 1, 0, 0, 0]);
    assert_eq!(types, Some(vec![0; 8]));
    let (_, _, types) = build_tensors_from_ids(&ids, 4, 1, false);
    assert_eq!(types, None);
    let (tokens, mask, _) = build_tensors_from_ids(&ids, 2, 1, false);
    assert_eq!((tokens, mask), (vec![5, 6, 8, 1], vec![1, 1, 1, 0]));
}

#[test]
fn overlong_sequences_are_clipped_and_counted() {
    let (ids, cut) = clip_ids(vec![vec![1, 2, 3], vec![4], vec![5, 6, 7, 8]], 2);
    assert_eq!(ids, vec![vec![1, 2], vec![4], vec![5, 6]]);
    assert_eq!(cut, 2);
}

#[test]
fn descending_order_keeps_ties_in_place() {
    assert_eq!(descending_order(&vec![3, 9, 3, 1, 9]), vec![1, 4, 0, 2, 3]);
    assert!(descending_order(&vec![]).is_empty());
}

#[test]
fn a_row_does_not_depend_on_its_neighbours() {
    let alone = build_tensors_from_ids(&vec![vec![7, 8]], 4, 1, false);
    let beside = build_tensors_from_ids(&vec![vec![9; 4], vec![7, 8], vec![]], 4, 1, false);
    assert_eq!(beside.0[4..8], alone.0[..]);
    assert_eq!(beside.1[4..8], alone.1[..]);
    assert_eq!(alone.1, vec![1, 1, 0, 0]);
}
