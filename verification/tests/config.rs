use embed_server::config::{
    model_env_key, parse_batch_max_seq, parse_batch_max_tokens, parse_cache_max_entries,
    parse_embed_pool_size, parse_embed_warmup_seq_len, parse_memory_pattern, parse_models,
    parse_models_with_globals, parse_multi_process_flag, parse_reranker_pool_size,
    parse_rerankers, parse_splade_pool_size, parse_splades, parse_token_cache_max_entries,
    parse_warmup_batch_sizes, resolve_embed_pool_size_for_model, Config, ModelDef,
    RerankerModelDef, SpladeModelDef,
};
use embed_server::env::EnvVars;

#[test]
fn batch_max_tokens_default_is_16384_when_unset() {
    assert_eq!(parse_batch_max_tokens(None), 16384);
}

#[test]
fn batch_max_tokens_parses_valid_positive_integer() {
    assert_eq!(parse_batch_max_tokens(Some("8192")), 8192);
    assert_eq!(parse_batch_max_tokens(Some("32768")), 32768);
    assert_eq!(parse_batch_max_tokens(Some("  4096  ")), 4096);
}

#[test]
fn batch_max_tokens_falls_back_on_garbage() {
    assert_eq!(parse_batch_max_tokens(Some("nope")), 16384);
    assert_eq!(parse_batch_max_tokens(Some("-1")), 16384);
    assert_eq!(parse_batch_max_tokens(Some("")), 16384);
}

#[test]
fn batch_max_seq_default_is_256_when_unset() {
    assert_eq!(parse_batch_max_seq(None), 256);
}

#[test]
fn batch_max_seq_parses_valid_positive_integer() {
    assert_eq!(parse_batch_max_seq(Some("128")), 128);
    assert_eq!(parse_batch_max_seq(Some("512")), 512);
    assert_eq!(parse_batch_max_seq(Some("  384  ")), 384);
}

#[test]
fn batch_max_seq_falls_back_on_zero_and_garbage() {
    assert_eq!(parse_batch_max_seq(Some("0")), 256);
    assert_eq!(parse_batch_max_seq(Some("nope")), 256);
    assert_eq!(parse_batch_max_seq(Some("-1")), 256);
    assert_eq!(parse_batch_max_seq(Some("")), 256);
}

#[test]
fn embed_warmup_seq_len_default_is_128_when_unset() {
    assert_eq!(parse_embed_warmup_seq_len(None), Some(128));
}

#[test]
fn embed_warmup_seq_len_max_keyword_returns_none() {
    assert_eq!(parse_embed_warmup_seq_len(Some("max")), None);
    assert_eq!(parse_embed_warmup_seq_len(Some("MAX")), None);
    assert_eq!(parse_embed_warmup_seq_len(Some("  Max  ")), None);
}

#[test]
fn embed_warmup_seq_len_parses_positive_integers() {
    assert_eq!(parse_embed_warmup_seq_len(Some("64")), Some(64));
    assert_eq!(parse_embed_warmup_seq_len(Some("256")), Some(256));
    assert_eq!(parse_embed_warmup_seq_len(Some("  192  ")), Some(192));
}

#[test]
fn embed_warmup_seq_len_falls_back_on_invalid() {
    assert_eq!(parse_embed_warmup_seq_len(Some("0")), Some(128));
    assert_eq!(parse_embed_warmup_seq_len(Some("-5")), Some(128));
    assert_eq!(parse_embed_warmup_seq_len(Some("nope")), Some(128));
    assert_eq!(parse_embed_warmup_seq_len(Some("")), Some(128));
}

#[test]
fn batch_max_tokens_rejects_zero() {
    assert_eq!(parse_batch_max_tokens(Some("0")), 16384);
    assert_eq!(parse_batch_max_tokens(Some("  0  ")), 16384);
}

#[test]
fn cache_max_entries_default_when_unset() {
    assert_eq!(parse_cache_max_entries(None), 10_000);
}

#[test]
fn cache_max_entries_parses_valid_values() {
    assert_eq!(parse_cache_max_entries(Some("500")), 500);
    assert_eq!(parse_cache_max_entries(Some("50000")), 50_000);
    assert_eq!(parse_cache_max_entries(Some("  200  ")), 200);
}

#[test]
fn cache_max_entries_zero_is_explicit_disable() {
    assert_eq!(parse_cache_max_entries(Some("0")), 0);
}

#[test]
fn cache_max_entries_falls_back_on_garbage() {
    assert_eq!(parse_cache_max_entries(Some("nope")), 10_000);
    assert_eq!(parse_cache_max_entries(Some("")), 10_000);
    assert_eq!(parse_cache_max_entries(Some("-1")), 10_000);
}

#[test]
fn parse_rerankers_empty_string_is_empty_list() {
    assert_eq!(parse_rerankers("").unwrap(), vec![]);
    assert_eq!(parse_rerankers("   ").unwrap(), vec![]);
    assert_eq!(parse_rerankers(",,").unwrap(), vec![]);
}

#[test]
fn parse_rerankers_single_entry_round_trips() {
    let got = parse_rerankers("gte-multi-rerank:/models-gte-rerank:256:true").unwrap();
    assert_eq!(
        got,
        vec![RerankerModelDef {
            name: "gte-multi-rerank".into(),
            dir: "/models-gte-rerank".into(),
            max_len: 256,
            padded_model: true,
        }]
    );
}

#[test]
fn parse_rerankers_multiple_entries_parse_in_order() {
    let got = parse_rerankers("bge:/a:256:true,jina:/b:512:false").unwrap();
    assert_eq!(got.len(), 2);
    assert_eq!(got[0].name, "bge");
    assert_eq!(got[0].max_len, 256);
    assert!(got[0].padded_model);
    assert_eq!(got[1].name, "jina");
    assert_eq!(got[1].max_len, 512);
    assert!(!got[1].padded_model);
    let got = parse_rerankers("a:/x:128:1,b:/y:64:0").unwrap();
    assert!(got[0].padded_model);
    assert!(!got[1].padded_model);
}

#[test]
fn parse_rerankers_garbage_errors() {
    assert!(parse_rerankers("toofew:/a:512").is_err());
    assert!(parse_rerankers("way:too:many:colons:here:oops").is_err());
    assert!(parse_rerankers("bad:/a:notanumber:true").is_err());
    let err = parse_rerankers("bad:/a:512:maybe").unwrap_err();
    assert!(err.contains("padded"), "unexpected err: {err}");
}

#[test]
fn embed_pool_size_default_is_1_when_unset() {
    assert_eq!(parse_embed_pool_size(None, None), 1);
}

#[test]
fn embed_pool_size_parses_valid_positive_integer() {
    assert_eq!(parse_embed_pool_size(Some("1"), None), 1);
    assert_eq!(parse_embed_pool_size(Some("2"), None), 2);
    assert_eq!(parse_embed_pool_size(Some("4"), None), 4);
    assert_eq!(parse_embed_pool_size(Some("  3  "), None), 3);
}

#[test]
fn embed_pool_size_rejects_zero() {
    assert_eq!(parse_embed_pool_size(Some("0"), None), 1);
    assert_eq!(parse_embed_pool_size(Some("  0  "), None), 1);
}

#[test]
fn embed_pool_size_falls_back_on_garbage() {
    assert_eq!(parse_embed_pool_size(Some("nope"), None), 1);
    assert_eq!(parse_embed_pool_size(Some(""), None), 1);
    assert_eq!(parse_embed_pool_size(Some("-1"), None), 1);
}

#[test]
fn parse_embed_pool_size_source_key_does_not_affect_return_value() {
    assert_eq!(
        parse_embed_pool_size(Some("3"), Some("EMBED_SESSION_POOL_SIZE_JINA_CODE_V2")),
        3
    );
    assert_eq!(
        parse_embed_pool_size(Some("0"), Some("EMBED_SESSION_POOL_SIZE_JINA_CODE_V2")),
        1
    );
}

#[test]
fn reranker_pool_size_default_is_1_when_unset() {
    assert_eq!(parse_reranker_pool_size(None), 1);
}

#[test]
fn reranker_pool_size_parses_valid_positive_integer() {
    assert_eq!(parse_reranker_pool_size(Some("1")), 1);
    assert_eq!(parse_reranker_pool_size(Some("2")), 2);
    assert_eq!(parse_reranker_pool_size(Some("4")), 4);
    assert_eq!(parse_reranker_pool_size(Some("  3  ")), 3);
}

#[test]
fn reranker_pool_size_rejects_zero() {
    assert_eq!(parse_reranker_pool_size(Some("0")), 1);
    assert_eq!(parse_reranker_pool_size(Some("  0  ")), 1);
}

#[test]
fn reranker_pool_size_falls_back_on_garbage() {
    assert_eq!(parse_reranker_pool_size(Some("nope")), 1);
    assert_eq!(parse_reranker_pool_size(Some("")), 1);
    assert_eq!(parse_reranker_pool_size(Some("-1")), 1);
}

#[test]
fn parse_splades_empty_string_is_empty_list() {
    assert_eq!(parse_splades("").unwrap(), vec![]);
    assert_eq!(parse_splades("   ").unwrap(), vec![]);
    assert_eq!(parse_splades(",,").unwrap(), vec![]);
}

#[test]
fn parse_splades_single_entry_round_trips() {
    let got = parse_splades("splade-v3-distilbert:/models-splade:512").unwrap();
    assert_eq!(
        got,
        vec![SpladeModelDef {
            name: "splade-v3-distilbert".into(),
            dir: "/models-splade".into(),
            max_len: 512,
        }]
    );
}

#[test]
fn parse_splades_multiple_entries_parse_in_order() {
    let got = parse_splades("a:/x:128,b:/y:256").unwrap();
    assert_eq!(got.len(), 2);
    assert_eq!(got[0].name, "a");
    assert_eq!(got[0].max_len, 128);
    assert_eq!(got[1].name, "b");
    assert_eq!(got[1].max_len, 256);
}

#[test]
fn parse_splades_garbage_errors() {
    assert!(parse_splades("toofew:/a").is_err());
    assert!(parse_splades("name:/dir:512:true").is_err());
    let err = parse_splades("bad:/a:notanumber").unwrap_err();
    assert!(err.contains("max_len"), "unexpected err: {err}");
}

#[test]
fn splade_pool_size_default_is_1_when_unset() {
    assert_eq!(parse_splade_pool_size(None), 1);
}

#[test]
fn splade_pool_size_parses_valid_positive_integer() {
    assert_eq!(parse_splade_pool_size(Some("1")), 1);
    assert_eq!(parse_splade_pool_size(Some("2")), 2);
    assert_eq!(parse_splade_pool_size(Some("  3  ")), 3);
}

#[test]
fn splade_pool_size_rejects_zero() {
    assert_eq!(parse_splade_pool_size(Some("0")), 1);
    assert_eq!(parse_splade_pool_size(Some("  0  ")), 1);
}

#[test]
fn splade_pool_size_falls_back_on_garbage() {
    assert_eq!(parse_splade_pool_size(Some("nope")), 1);
    assert_eq!(parse_splade_pool_size(Some("")), 1);
    assert_eq!(parse_splade_pool_size(Some("-1")), 1);
}

#[test]
fn token_cache_max_entries_default_disabled_when_unset() {
    assert_eq!(parse_token_cache_max_entries(None), 0);
}

#[test]
fn token_cache_max_entries_parses_valid_values() {
    assert_eq!(parse_token_cache_max_entries(Some("20000")), 20_000);
    assert_eq!(parse_token_cache_max_entries(Some("1")), 1);
    assert_eq!(parse_token_cache_max_entries(Some("  500  ")), 500);
}

#[test]
fn token_cache_max_entries_zero_is_explicit_disable() {
    assert_eq!(parse_token_cache_max_entries(Some("0")), 0);
}

#[test]
fn token_cache_max_entries_falls_back_to_disabled_on_garbage() {
    assert_eq!(parse_token_cache_max_entries(Some("nope")), 0);
    assert_eq!(parse_token_cache_max_entries(Some("")), 0);
    assert_eq!(parse_token_cache_max_entries(Some("-1")), 0);
}

#[test]
fn warmup_batch_sizes_default_when_unset() {
    assert_eq!(parse_warmup_batch_sizes(None, &[1, 5]), vec![1, 5]);
    assert_eq!(parse_warmup_batch_sizes(None, &[1]), vec![1]);
    assert_eq!(parse_warmup_batch_sizes(None, &[1, 8]), vec![1, 8]);
}

#[test]
fn warmup_batch_sizes_parses_csv_in_order() {
    assert_eq!(parse_warmup_batch_sizes(Some("1,5"), &[1, 5]), vec![1, 5]);
    assert_eq!(parse_warmup_batch_sizes(Some("5,1"), &[1, 5]), vec![5, 1]);
    assert_eq!(
        parse_warmup_batch_sizes(Some("1,2,5,10"), &[1]),
        vec![1, 2, 5, 10]
    );
    assert_eq!(parse_warmup_batch_sizes(Some("  1 , 5 "), &[1]), vec![1, 5]);
}

#[test]
fn warmup_batch_sizes_dedups_preserving_order() {
    assert_eq!(parse_warmup_batch_sizes(Some("3,5,3"), &[1]), vec![3, 5]);
    assert_eq!(parse_warmup_batch_sizes(Some("1,1,1"), &[1]), vec![1]);
    assert_eq!(
        parse_warmup_batch_sizes(Some("1,5,1,5,8"), &[1]),
        vec![1, 5, 8]
    );
}

#[test]
fn warmup_batch_sizes_drops_zero_and_negatives() {
    assert_eq!(parse_warmup_batch_sizes(Some("0,1,5"), &[1]), vec![1, 5]);
    assert_eq!(parse_warmup_batch_sizes(Some("1,-3,5"), &[1]), vec![1, 5]);
    assert_eq!(
        parse_warmup_batch_sizes(Some("0"), &[1, 5]),
        vec![1, 5],
        "all-zero CSV must fall back to defaults, not return empty"
    );
}

#[test]
fn warmup_batch_sizes_skips_unparseable_keeps_valid() {
    assert_eq!(parse_warmup_batch_sizes(Some("1,nope,5"), &[1]), vec![1, 5]);
    assert_eq!(
        parse_warmup_batch_sizes(Some("garbage"), &[1, 5]),
        vec![1, 5],
        "all-garbage must fall back to defaults so prod still warms"
    );
}

#[test]
fn warmup_batch_sizes_empty_string_falls_back() {
    assert_eq!(parse_warmup_batch_sizes(Some(""), &[1, 5]), vec![1, 5]);
    assert_eq!(parse_warmup_batch_sizes(Some("   "), &[1, 5]), vec![1, 5]);
    assert_eq!(parse_warmup_batch_sizes(Some(",,"), &[1, 5]), vec![1, 5]);
}
fn resolve_per_model_knobs(
    name: &str,
    max_len: usize,
    global_batch_max_seq: usize,
    per_model_batch_max_seq: Option<usize>,
    per_model_warmup_seq_len: Option<Option<usize>>,
    per_model_memory_pattern: bool,
) -> ModelDef {
    let key = model_env_key(name);
    let mut env = EnvVars::new();
    if let Some(n) = per_model_batch_max_seq {
        env.set(&format!("BATCH_MAX_SEQ_{key}"), &n.to_string());
    }
    match per_model_warmup_seq_len {
        None => {}
        Some(None) => env.set(&format!("EMBED_WARMUP_SEQ_LEN_{key}"), "max"),
        Some(Some(n)) => env.set(&format!("EMBED_WARMUP_SEQ_LEN_{key}"), &n.to_string()),
    }
    if !per_model_memory_pattern {
        env.set(&format!("EMBED_MEMORY_PATTERN_{key}"), "false");
    }
    let spec = format!("{name}:/models:768:{max_len}:0:false");
    parse_models_with_globals(&spec, &env, global_batch_max_seq, None).unwrap().remove(0)
}

#[test]
fn model_def_batch_max_seq_defaults_to_global_when_no_per_model_override() {
    let global = 256usize;
    let def = resolve_per_model_knobs(
        "multilingual-e5-large",
        256,
        global,
        None,
        None,
        true,
    );
    assert_eq!(def.batch_max_seq, global);
}

#[test]
fn model_def_batch_max_seq_per_model_override_takes_precedence() {
    let def = resolve_per_model_knobs(
        "jina-code-v2",
        512,
        256,
        Some(384),
        None,
        true,
    );
    assert_eq!(def.batch_max_seq, 384);
}

#[test]
fn model_def_warmup_seq_len_defaults_to_max_len() {
    let def = resolve_per_model_knobs(
        "multilingual-e5-large",
        256,
        256,
        None,
        None,
        true,
    );
    assert_eq!(def.warmup_seq_len, Some(256));
}

#[test]
fn model_def_warmup_seq_len_per_model_override_takes_precedence() {
    let def = resolve_per_model_knobs(
        "jina-code-v2",
        512,
        256,
        None,
        Some(Some(256)),
        true,
    );
    assert_eq!(def.warmup_seq_len, Some(256));
}

#[test]
fn model_def_warmup_seq_len_per_model_max_keyword_gives_none() {
    let def = resolve_per_model_knobs(
        "jina-code-v2",
        512,
        256,
        None,
        Some(None),
        true,
    );
    assert_eq!(def.warmup_seq_len, None);
}

#[test]
fn parse_models_propagates_per_model_fields() {
    let defs = parse_models("multilingual-e5-large:/models:1024:256:1:false", &EnvVars::new()).unwrap();
    assert_eq!(defs.len(), 1);
    assert_eq!(defs[0].batch_max_seq, 256);
    assert_eq!(defs[0].warmup_seq_len, Some(256));
    assert!(defs[0].memory_pattern);

    let defs2 = parse_models("jina-code-v2:/models-jina:768:512:0:false", &EnvVars::new()).unwrap();
    assert_eq!(defs2[0].batch_max_seq, 256);
    assert_eq!(defs2[0].warmup_seq_len, Some(512));
    assert!(defs2[0].memory_pattern);
}

#[test]
fn parse_models_six_segment_defaults_onnx_filename() {
    let defs =
        parse_models("multilingual-e5-large:/models:1024:256:1:false", &EnvVars::new()).unwrap();
    assert_eq!(defs[0].onnx_filename, "model_quantized.onnx");
}

#[test]
fn parse_models_seven_segment_uses_given_filename() {
    let defs = parse_models("code-rank-embed:/models-coderank:768:512:0:false:model_int8.onnx", &EnvVars::new())
    .unwrap();
    assert_eq!(defs[0].onnx_filename, "model_int8.onnx");
    assert_eq!(defs[0].name, "code-rank-embed");
    assert_eq!(defs[0].dir, "/models-coderank");
    assert_eq!(defs[0].dim, 768);
    assert_eq!(defs[0].max_len, 512);
    assert_eq!(defs[0].pad_id, 0);
    assert!(!defs[0].has_token_type_ids);
}

#[test]
fn parse_models_seven_segment_whitespace_trimmed() {
    let defs =
        parse_models("m:/d:768:512:0:false:  model_int8.onnx  ", &EnvVars::new()).unwrap();
    assert_eq!(defs[0].onnx_filename, "model_int8.onnx");
}

#[test]
fn parse_models_rejects_path_separator_in_filename() {
    let result = parse_models("m:/d:768:512:0:false:sub/model.onnx", &EnvVars::new());
    let err = result.err().expect("should have been Err");
    assert!(
        err.contains("plain filename"),
        "unexpected error: {err}"
    );
}

#[test]
fn parse_models_rejects_dotdot_traversal() {
    let result = parse_models("m:/d:768:512:0:false:..", &EnvVars::new());
    let err = result.err().expect("should have been Err");
    assert!(
        err.contains("path-traversal"),
        "unexpected error: {err}"
    );
}

#[test]
fn parse_models_rejects_empty_seventh_segment() {
    let result = parse_models("m:/d:768:512:0:false:", &EnvVars::new());
    let err = result.err().expect("should have been Err");
    assert!(
        err.contains("empty"),
        "unexpected error: {err}"
    );
}

#[test]
fn parse_models_rejects_eight_segments() {
    let result = parse_models("m:/d:768:512:0:false:model.onnx:extra", &EnvVars::new());
    let err = result.err().expect("should have been Err");
    assert!(
        err.contains("6 or 7"),
        "unexpected error: {err}"
    );
}

#[test]
fn parse_models_five_segments_still_rejected() {
    let result = parse_models("m:/d:768:512:0", &EnvVars::new());
    let err = result.err().expect("should have been Err");
    assert!(
        err.contains("6 or 7"),
        "unexpected error: {err}"
    );
}

#[test]
fn parse_per_model_memory_pattern_default_true() {
    assert!(parse_memory_pattern(None));
    assert!(parse_memory_pattern(Some("")));
}

#[test]
fn parse_per_model_memory_pattern_env_false() {
    assert!(!parse_memory_pattern(Some("false")));
    assert!(!parse_memory_pattern(Some("0")));
    assert!(parse_memory_pattern(None));
}

#[test]
fn parse_per_model_memory_pattern_invalid_value_defaults_true() {
    assert!(parse_memory_pattern(Some("garbage")));
    assert!(parse_memory_pattern(Some("nope")));
    assert!(parse_memory_pattern(Some("2")));
}

#[test]
fn model_def_memory_pattern_env_key_uses_screaming_snake_case() {
    let def = resolve_per_model_knobs(
        "jina-code-v2",
        512,
        256,
        None,
        None,
        false,
    );
    assert!(!def.memory_pattern);
    let def2 = resolve_per_model_knobs(
        "multilingual-e5-large",
        256,
        256,
        None,
        None,
        true,
    );
    assert!(def2.memory_pattern);
}

#[test]
fn parse_multi_process_flag_cases() {
    assert!(!parse_multi_process_flag(None));
    assert!(!parse_multi_process_flag(Some("0")));
    assert!(!parse_multi_process_flag(Some("false")));
    assert!(!parse_multi_process_flag(Some("")));
    assert!(parse_multi_process_flag(Some("1")));
    assert!(parse_multi_process_flag(Some("true")));
    assert!(parse_multi_process_flag(Some("True")));
    assert!(parse_multi_process_flag(Some("TRUE")));
    assert!(!parse_multi_process_flag(Some("yes")));
    assert!(!parse_multi_process_flag(Some("on")));
}

#[test]
fn model_env_key_converts_dashes_to_underscores_and_uppercases() {
    assert_eq!(model_env_key("jina-code-v2"), "JINA_CODE_V2");
    assert_eq!(
        model_env_key("multilingual-e5-large"),
        "MULTILINGUAL_E5_LARGE"
    );
    assert_eq!(model_env_key("e5"), "E5");
}

#[test]
fn model_env_key_consistent_for_edge_case_model_name() {
    let name = "gte-multi-rerank";
    let via_fn = model_env_key(name);
    let pool_key = format!("EMBED_SESSION_POOL_SIZE_{via_fn}");
    let arena_key = format!("EMBED_MEMORY_PATTERN_{via_fn}");
    assert_eq!(via_fn, "GTE_MULTI_RERANK");
    assert_eq!(pool_key, "EMBED_SESSION_POOL_SIZE_GTE_MULTI_RERANK");
    assert_eq!(arena_key, "EMBED_MEMORY_PATTERN_GTE_MULTI_RERANK");
}

#[test]
fn resolve_embed_pool_size_for_model_default_when_nothing_set() {
    let size = resolve_embed_pool_size_for_model(&EnvVars::new(), "jina-code-v2", None);
    assert_eq!(size, 1);
}

#[test]
fn resolve_embed_pool_size_for_model_uses_global_when_no_per_model() {
    let size = resolve_embed_pool_size_for_model(&EnvVars::new(), "jina-code-v2", Some("3"));
    assert_eq!(size, 3);
}

#[test]
fn resolve_embed_pool_size_for_model_per_model_wins_over_global() {
    let mut env = EnvVars::new();
    env.set("EMBED_SESSION_POOL_SIZE_JINA_CODE_V2", "1");
    let size = resolve_embed_pool_size_for_model(&env, "jina-code-v2", Some("3"));
    assert_eq!(size, 1);
}

#[test]
fn resolve_embed_pool_size_for_model_per_model_does_not_affect_other_models() {
    let mut env = EnvVars::new();
    env.set("EMBED_SESSION_POOL_SIZE_JINA_CODE_V2", "1");
    let size = resolve_embed_pool_size_for_model(&env, "multilingual-e5-large", Some("2"));
    assert_eq!(size, 2);
}

#[test]
fn resolve_embed_pool_size_for_model_rejects_zero_same_as_global_parser() {
    let mut env = EnvVars::new();
    env.set("EMBED_SESSION_POOL_SIZE_JINA_CODE_V2", "0");
    let size = resolve_embed_pool_size_for_model(&env, "jina-code-v2", None);
    assert_eq!(size, 1);
}

fn env_of(pairs: &[(&str, &str)]) -> EnvVars {
    let mut env = EnvVars::new();
    for (k, v) in pairs {
        env.set(k, v);
    }
    env
}

const E5: &str = "multilingual-e5-large:/models:1024:256:1:false";
const TWO: &str = "multilingual-e5-large:/models:1024:256:1:false,jina-code-v2:/models-jina:768:512:0:false";

#[test]
fn from_env_fills_in_every_default() {
    let c = Config::from_env(&env_of(&[("EMBED_MODELS", TWO)])).unwrap();
    assert_eq!(c.port, 8082);
    assert_eq!(c.models.len(), 2);
    assert_eq!(c.default_model, "multilingual-e5-large");
    assert!(c.rerankers.is_empty());
    assert!(c.splades.is_empty());
    assert_eq!(c.intra_threads, 4);
    assert_eq!(c.embed_pool_size, 1);
    assert_eq!(c.reranker_pool_size, 1);
    assert_eq!(c.splade_pool_size, 1);
    assert_eq!(c.reranker_intra_threads, 4);
    assert_eq!(c.splade_intra_threads, 4);
    assert!(!c.batching_enabled);
    assert_eq!(c.batch_max, 32);
    assert_eq!(c.reranker_batch_max, 128);
    assert_eq!(c.batch_max_tokens, 16384);
    assert_eq!(c.batch_max_seq, 256);
    assert_eq!(c.batch_wait_ms, 10);
    assert_eq!(c.max_queue_size, 256);
    assert_eq!(c.drain_timeout_s, 10);
    assert!(c.auto_truncate);
    assert_eq!(c.cache_max_entries, 10_000);
    assert_eq!(c.token_cache_max_entries, 0);
    assert_eq!(c.rerank_warmup_batch_sizes, vec![1, 5]);
    assert_eq!(c.embed_warmup_batch_sizes, vec![1, 8]);
    assert_eq!(c.splade_warmup_batch_sizes, vec![1]);
    assert_eq!(c.embed_warmup_seq_len, Some(128));
    assert_eq!(c.idle_evict_secs, 0);
    assert_eq!(c.embed_max_input_array, 32);
    assert_eq!(c.rerank_max_input_docs, 32);
    assert!(!c.multi_process);
    assert_eq!(c.worker_bin_path, "/usr/local/bin/embed-worker");
    assert_eq!(c.worker_socket_dir, "/tmp/embed-workers");
}

#[test]
fn from_env_reads_every_variable() {
    let c = Config::from_env(&env_of(&[
        ("EMBED_PORT", "9000"),
        ("EMBED_MODELS", TWO),
        ("EMBED_DEFAULT_MODEL", "jina-code-v2"),
        ("EMBED_INTRA_THREADS", "6"),
        ("RERANKER_INTRA_THREADS", "3"),
        ("SPLADE_INTRA_THREADS", "0"),
        ("RERANKER_MODELS", "bge:/a:256:true"),
        ("SPLADE_MODELS", "s:/b:512"),
        ("BATCHING_ENABLED", "TRUE"),
        ("BATCH_MAX", "8"),
        ("BATCH_MAX_SEQ", "300"),
        ("EMBED_WARMUP_SEQ_LEN", "64"),
        ("BATCH_WAIT_MS", "7"),
        ("MAX_QUEUE_SIZE", "11"),
        ("DRAIN_TIMEOUT_S", "12"),
        ("AUTO_TRUNCATE", "False"),
        ("EMBED_IDLE_EVICT_SECS", " 600 "),
        ("EMBED_MAX_INPUT_ARRAY", "0"),
        ("RERANK_MAX_INPUT_DOCS", " 9 "),
        ("EMBED_MULTI_PROCESS", "1"),
        ("EMBED_WORKER_BIN", "/w"),
        ("EMBED_WORKER_SOCKET_DIR", "/s"),
    ]))
    .unwrap();
    assert_eq!(c.port, 9000);
    assert_eq!(c.default_model, "jina-code-v2");
    assert_eq!(c.intra_threads, 6);
    assert_eq!(c.reranker_intra_threads, 3);
    assert_eq!(c.splade_intra_threads, 6);
    assert_eq!(c.rerankers.len(), 1);
    assert_eq!(c.splades.len(), 1);
    assert!(c.batching_enabled);
    assert_eq!(c.batch_max, 8);
    assert_eq!(c.reranker_batch_max, 32);
    assert_eq!(c.models[1].batch_max_seq, 300);
    assert_eq!(c.models[1].warmup_seq_len, Some(64));
    assert_eq!(c.embed_warmup_seq_len, Some(64));
    assert_eq!(c.batch_wait_ms, 7);
    assert_eq!(c.max_queue_size, 11);
    assert_eq!(c.drain_timeout_s, 12);
    assert!(!c.auto_truncate);
    assert_eq!(c.idle_evict_secs, 600);
    assert_eq!(c.embed_max_input_array, 32);
    assert_eq!(c.rerank_max_input_docs, 9);
    assert!(c.multi_process);
    assert_eq!(c.worker_bin_path, "/w");
    assert_eq!(c.worker_socket_dir, "/s");
}

#[test]
fn from_env_names_what_is_wrong() {
    let err = |pairs: &[(&str, &str)]| Config::from_env(&env_of(pairs)).unwrap_err();
    assert_eq!(err(&[("EMBED_PORT", "x")]), "invalid EMBED_PORT: invalid digit found in string");
    assert_eq!(
        err(&[("EMBED_PORT", "65536")]),
        "invalid EMBED_PORT: number too large to fit in target type"
    );
    assert_eq!(
        err(&[("EMBED_PORT", "")]),
        "invalid EMBED_PORT: cannot parse integer from empty string"
    );
    assert_eq!(err(&[]), "EMBED_MODELS env var is required");
    assert_eq!(err(&[("EMBED_MODELS", " , ")]), "EMBED_MODELS must define at least one model");
    assert_eq!(
        err(&[("EMBED_MODELS", E5), ("EMBED_DEFAULT_MODEL", "nope")]),
        "EMBED_DEFAULT_MODEL 'nope' not found in models"
    );
    assert_eq!(
        err(&[("EMBED_MODELS", E5), ("EMBED_INTRA_THREADS", " 2")]),
        "invalid EMBED_INTRA_THREADS: invalid digit found in string"
    );
    assert_eq!(
        err(&[("EMBED_MODELS", "m:/d:x:512:0:false")]),
        "invalid dim 'x': invalid digit found in string"
    );
    assert_eq!(
        err(&[("EMBED_MODELS", "m:/d:1:y:0:false")]),
        "invalid max_len 'y': invalid digit found in string"
    );
    assert_eq!(
        err(&[("EMBED_MODELS", "m:/d:1:2:-1:false")]),
        "invalid pad_id '-1': invalid digit found in string"
    );
    assert_eq!(
        err(&[("EMBED_MODELS", "m:/d:1:2:3:maybe")]),
        "invalid has_token_type_ids 'maybe'"
    );
    assert_eq!(
        err(&[("EMBED_MODELS", "m:/d:1")]),
        "model entry must have 6 or 7 colon-separated fields (name:dir:dim:max_len:pad_id:has_tti[:onnx_filename]), got 3: 'm:/d:1'"
    );
    assert_eq!(
        err(&[("EMBED_MODELS", E5), ("RERANKER_MODELS", "a:b")]),
        "reranker entry must have 4 colon-separated fields (name:dir:max_len:padded), got 2: 'a:b'"
    );
    assert_eq!(
        err(&[("EMBED_MODELS", E5), ("RERANKER_MODELS", "a:b:c:true")]),
        "invalid reranker max_len 'c': invalid digit found in string"
    );
    assert_eq!(
        err(&[("EMBED_MODELS", E5), ("RERANKER_MODELS", "a:b:1:maybe")]),
        "invalid reranker padded 'maybe' (expected true|false|1|0)"
    );
    assert_eq!(
        err(&[("EMBED_MODELS", E5), ("SPLADE_MODELS", "a")]),
        "splade entry must have 3 colon-separated fields (name:dir:max_len), got 1: 'a'"
    );
    assert_eq!(
        err(&[("EMBED_MODELS", E5), ("SPLADE_MODELS", "a:b:")]),
        "invalid splade max_len '': cannot parse integer from empty string"
    );
}

#[test]
fn zero_threads_mean_two() {
    let c = Config::from_env(&env_of(&[("EMBED_MODELS", E5), ("EMBED_INTRA_THREADS", "0")]));
    assert_eq!(c.unwrap().intra_threads, 2);
}

#[test]
fn reranker_cap_saturates() {
    let max = usize::MAX.to_string();
    let c = Config::from_env(&env_of(&[("EMBED_MODELS", E5), ("BATCH_MAX", &max)])).unwrap();
    assert_eq!(c.reranker_batch_max, usize::MAX);
}

#[test]
fn empty_warmup_variable_leaves_models_at_full_length() {
    let c = Config::from_env(&env_of(&[("EMBED_MODELS", E5), ("EMBED_WARMUP_SEQ_LEN", "")]));
    assert_eq!(c.unwrap().models[0].warmup_seq_len, Some(256));
    let c = Config::from_env(&env_of(&[("EMBED_MODELS", E5), ("EMBED_WARMUP_SEQ_LEN", "max")]));
    let c = c.unwrap();
    assert_eq!(c.models[0].warmup_seq_len, Some(256));
    assert_eq!(c.embed_warmup_seq_len, None);
}

#[test]
fn model_env_key_uses_the_full_case_mapping() {
    assert_eq!(model_env_key("stra\u{df}e-1"), "STRASSE_1");
    assert_eq!(model_env_key("\u{e9}-x"), "\u{c9}_X");
}

#[test]
fn env_vars_keep_the_last_value() {
    let env = env_of(&[("A", "1"), ("B", "2"), ("A", "3")]);
    assert_eq!(env.get("A"), Some("3"));
    assert_eq!(env.get("B"), Some("2"));
    assert_eq!(env.get("C"), None);
}

#[test]
fn lists_with_a_comma_between_them_are_read_one_after_the_other() {
    let (a, b) = ("sp:/m:128", "other:/n:256");
    let names = |s: &str| -> Vec<String> {
        parse_splades(s).unwrap().into_iter().map(|d| d.name).collect()
    };
    assert_eq!(names(&format!("{a},{b}")), [names(a), names(b)].concat());
    let wrong = parse_splades("sp").unwrap_err();
    assert_eq!(parse_splades(&format!("{a},sp")).unwrap_err(), wrong);
    assert_eq!(parse_splades(&format!("sp,{a}")).unwrap_err(), wrong);
}
