use embed_server::arena::{
    arena_entries, assert_arena_registered_before_session, init_arena_config,
    init_arena_config_for_model, parse_bytes_with_suffix, try_init_arena_config,
    try_init_arena_config_for_model, try_parse_bytes, try_register_shared_cpu_arena,
    try_register_shared_cpu_arena_for_model, ArenaCfg, ArenaError, ArenaRegistry, Registration,
    SettingError,
};
use embed_server::env::EnvVars;
use embed_server::metrics::MetricLog;

fn env(vars: &[(&str, &str)]) -> EnvVars {
    let mut e = EnvVars::new();
    for (k, v) in vars {
        e.set(k, v);
    }
    e
}

#[test]
fn assert_passes_after_register() {
    let mut registry = ArenaRegistry::new();
    registry.mark_registered();
    assert!(registry.is_registered());
    let _permit = assert_arena_registered_before_session(&registry);
}

#[test]
fn defaults_when_no_env_vars() {
    let cfg = init_arena_config(&env(&[]));
    assert_eq!(cfg.max_mem_bytes, 6 * 1024 * 1024 * 1024, "default 6 GiB");
    assert_eq!(cfg.initial_chunk_bytes, 1024 * 1024, "default 1 MiB");
    assert_eq!(cfg.max_dead_bytes, 64 * 1024 * 1024, "default 64 MiB");
    assert_eq!(cfg.extend_strategy, 1, "default kSameAsRequested");
}

#[test]
fn env_overrides_all_fields() {
    let cfg = init_arena_config(&env(&[
        ("EMBED_ARENA_MAX_MEM_BYTES", "8589934592"),     // 8 GiB
        ("EMBED_ARENA_INITIAL_CHUNK_BYTES", "2097152"),  // 2 MiB
        ("EMBED_ARENA_MAX_DEAD_BYTES", "67108864"),      // 64 MiB
        ("EMBED_ARENA_EXTEND_STRATEGY", "0"),            // kNextPowerOfTwo
    ]));
    assert_eq!(cfg.max_mem_bytes, 8 * 1024 * 1024 * 1024);
    assert_eq!(cfg.initial_chunk_bytes, 2 * 1024 * 1024);
    assert_eq!(cfg.max_dead_bytes, 64 * 1024 * 1024);
    assert_eq!(cfg.extend_strategy, 0);
}

#[test]
fn partial_override_leaves_others_at_default() {
    let cfg = init_arena_config(&env(&[("EMBED_ARENA_MAX_MEM_BYTES", "4294967296")]));
    assert_eq!(cfg.max_mem_bytes, 4 * 1024 * 1024 * 1024);
    assert_eq!(cfg.initial_chunk_bytes, 1024 * 1024); // default
    assert_eq!(cfg.max_dead_bytes, 64 * 1024 * 1024); // default
    assert_eq!(cfg.extend_strategy, 1); // default
}

#[test]
fn extend_strategy_0_and_1_are_valid() {
    for strategy in [0i32, 1i32] {
        let cfg =
            init_arena_config(&env(&[("EMBED_ARENA_EXTEND_STRATEGY", &strategy.to_string())]));
        assert_eq!(cfg.extend_strategy, strategy);
    }
}

#[test]
fn other_extend_strategies_are_errors() {
    for strategy in [2i32, -1i32] {
        let r =
            try_init_arena_config(&env(&[("EMBED_ARENA_EXTEND_STRATEGY", &strategy.to_string())]));
        assert!(matches!(r, Err(ArenaError::Strategy(n)) if n == strategy), "{r:?}");
    }
    let r = try_init_arena_config(&env(&[("EMBED_ARENA_EXTEND_STRATEGY", "x")]));
    assert!(
        matches!(&r, Err(ArenaError::Setting { key, error: SettingError::NotAnInteger })
            if key == "EMBED_ARENA_EXTEND_STRATEGY"),
        "{r:?}"
    );
}

#[test]
fn max_mem_less_than_initial_chunk_is_an_error() {
    // 512 KiB < default initial_chunk 1 MiB
    let r = try_init_arena_config(&env(&[("EMBED_ARENA_MAX_MEM_BYTES", "524288")]));
    assert!(
        matches!(
            r,
            Err(ArenaError::MaxBelowInitial {
                max_mem_bytes: 524288,
                initial_chunk_bytes: 1048576
            })
        ),
        "{r:?}"
    );
}

#[test]
fn max_mem_equal_to_initial_chunk_is_valid() {
    let cfg = init_arena_config(&env(&[
        ("EMBED_ARENA_MAX_MEM_BYTES", "1048576"),
        ("EMBED_ARENA_INITIAL_CHUNK_BYTES", "1048576"),
    ]));
    assert_eq!(cfg.max_mem_bytes, cfg.initial_chunk_bytes);
}

#[test]
fn values_above_i32_max_are_now_accepted() {
    let over = (i32::MAX as usize + 1).to_string();
    let cfg = init_arena_config(&env(&[
        ("EMBED_ARENA_INITIAL_CHUNK_BYTES", &over),
        ("EMBED_ARENA_MAX_MEM_BYTES", &(i32::MAX as usize + 2).to_string()),
        ("EMBED_ARENA_MAX_DEAD_BYTES", &over),
    ]));
    assert_eq!(cfg.initial_chunk_bytes, i32::MAX as u64 + 1);
    assert_eq!(cfg.max_dead_bytes, i32::MAX as u64 + 1);
}

#[test]
fn init_arena_config_for_model_default_when_nothing_set() {
    let cfg = init_arena_config_for_model(&env(&[]), "jina-code-v2");
    assert_eq!(cfg.max_mem_bytes, 6 * 1024 * 1024 * 1024, "default 6 GiB");
}

#[test]
fn init_arena_config_for_model_uses_global_when_no_per_model() {
    let e = env(&[("EMBED_ARENA_MAX_MEM_BYTES", "3221225472")]); // 3 GiB global
    let cfg = init_arena_config_for_model(&e, "jina-code-v2");
    assert_eq!(cfg.max_mem_bytes, 3 * 1024 * 1024 * 1024);
}

#[test]
fn init_arena_config_for_model_per_model_wins_over_global() {
    let e = env(&[
        ("EMBED_ARENA_MAX_MEM_BYTES", "6442450944"),              // 6 GiB global
        ("EMBED_ARENA_MAX_MEM_BYTES_JINA_CODE_V2", "2147483648"), // 2 GiB per-model
    ]);
    let cfg = init_arena_config_for_model(&e, "jina-code-v2");
    assert_eq!(cfg.max_mem_bytes, 2 * 1024 * 1024 * 1024);
}

#[test]
fn init_arena_config_for_model_per_model_does_not_affect_other_models() {
    let e = env(&[
        ("EMBED_ARENA_MAX_MEM_BYTES_JINA_CODE_V2", "2147483648"),
        ("EMBED_ARENA_MAX_MEM_BYTES", "3221225472"), // global 3 GiB
    ]);
    let cfg = init_arena_config_for_model(&e, "multilingual-e5-large");
    assert_eq!(cfg.max_mem_bytes, 3 * 1024 * 1024 * 1024); // e5 sees global
}

#[test]
fn init_arena_config_empty_model_key_delegates_to_global_path() {
    let e = env(&[("EMBED_ARENA_MAX_MEM_BYTES", "4294967296")]); // 4 GiB
    let cfg = init_arena_config_for_model(&e, "");
    assert_eq!(cfg.max_mem_bytes, 4 * 1024 * 1024 * 1024);
}

#[test]
fn parse_bytes_with_suffix_raw_bytes() {
    assert_eq!(parse_bytes_with_suffix("TEST", "0"), 0);
    assert_eq!(parse_bytes_with_suffix("TEST", "1024"), 1024);
    assert_eq!(
        parse_bytes_with_suffix("TEST", "2147483648"),
        2 * 1024 * 1024 * 1024
    );
}

#[test]
fn parse_bytes_with_suffix_b_suffix() {
    assert_eq!(parse_bytes_with_suffix("TEST", "1B"), 1);
    assert_eq!(parse_bytes_with_suffix("TEST", "1024B"), 1024);
}

#[test]
fn parse_bytes_with_suffix_k_and_kib() {
    assert_eq!(parse_bytes_with_suffix("TEST", "1K"), 1024);
    assert_eq!(parse_bytes_with_suffix("TEST", "1KiB"), 1024);
    assert_eq!(parse_bytes_with_suffix("TEST", "64K"), 64 * 1024);
}

#[test]
fn parse_bytes_with_suffix_m_and_mib() {
    assert_eq!(parse_bytes_with_suffix("TEST", "1M"), 1024 * 1024);
    assert_eq!(parse_bytes_with_suffix("TEST", "1MiB"), 1024 * 1024);
    assert_eq!(parse_bytes_with_suffix("TEST", "64M"), 64 * 1024 * 1024);
}

#[test]
fn parse_bytes_with_suffix_g_and_gib() {
    assert_eq!(
        parse_bytes_with_suffix("TEST", "2G"),
        2 * 1024 * 1024 * 1024
    );
    assert_eq!(
        parse_bytes_with_suffix("TEST", "2GiB"),
        2 * 1024 * 1024 * 1024
    );
    assert_eq!(
        parse_bytes_with_suffix("TEST", "6GiB"),
        6 * 1024 * 1024 * 1024
    );
}

#[test]
fn parse_bytes_with_suffix_case_insensitive() {
    assert_eq!(parse_bytes_with_suffix("TEST", "1gib"), 1024 * 1024 * 1024);
    assert_eq!(parse_bytes_with_suffix("TEST", "1Gib"), 1024 * 1024 * 1024);
    assert_eq!(parse_bytes_with_suffix("TEST", "1mib"), 1024 * 1024);
}

#[test]
fn invalid_byte_counts_are_errors() {
    let error = |s: &str| match try_parse_bytes("TEST", s) {
        Err(ArenaError::Setting { key, error }) => {
            assert_eq!(key, "TEST");
            error
        }
        other => panic!("expected an error for {s}, got {other:?}"),
    };
    assert_eq!(error("2KB"), SettingError::UnknownSuffix);
    assert_eq!(error("notanumber"), SettingError::NotANumber);
    assert_eq!(error(""), SettingError::NotANumber);
    assert_eq!(error("18446744073709551616"), SettingError::NotANumber);
    assert_eq!(error("18446744073709551615K"), SettingError::TooLarge);
    assert!(matches!(try_parse_bytes("TEST", "1GiB"), Ok(1073741824)));
}

#[test]
fn parse_usize_env_accepts_suffix_gib() {
    let cfg = init_arena_config(&env(&[("EMBED_ARENA_MAX_MEM_BYTES", "2GiB")]));
    assert_eq!(cfg.max_mem_bytes, 2 * 1024 * 1024 * 1024);
}

#[test]
fn parse_usize_env_accepts_suffix_m() {
    let cfg = init_arena_config(&env(&[("EMBED_ARENA_MAX_DEAD_BYTES", "64M")]));
    assert_eq!(cfg.max_dead_bytes, 64 * 1024 * 1024);
}

#[test]
fn settings_are_handed_to_the_runtime_by_name() {
    let cfg = ArenaCfg {
        max_mem_bytes: 4,
        initial_chunk_bytes: 1,
        max_dead_bytes: 2,
        extend_strategy: 0,
    };
    assert_eq!(
        arena_entries(&cfg),
        vec![
            ("max_mem", 4),
            ("arena_extend_strategy", 0),
            ("initial_chunk_size_bytes", 1),
            ("max_dead_bytes_per_chunk", 2),
        ]
    );
}

#[test]
fn registration_publishes_the_settings() {
    let mut registry = ArenaRegistry::new();
    let mut log = MetricLog::new();
    let register = |cfg: &ArenaCfg| -> Registration {
        assert_eq!(cfg.max_mem_bytes, 2147483648);
        Registration::Registered
    };
    let e = env(&[("EMBED_ARENA_MAX_MEM_BYTES_JINA", "2G")]);
    let r = try_register_shared_cpu_arena_for_model(&e, "jina", &register, &mut registry, &mut log);
    assert!(matches!(r, Ok(Ok(()))), "{r:?}");
    assert!(registry.is_registered());
    let names: Vec<String> = log.into_updates().iter().map(|u| u.name.clone()).collect();
    assert!(names.contains(&"embed_arena_max_mem_bytes".to_string()), "{names:?}");
}

#[test]
fn failed_registrations_leave_no_arena() {
    let cases: Vec<(Registration, &str)> = vec![
        (Registration::NoMemoryInfo, "CreateCpuMemoryInfo returned non-null status"),
        (Registration::NoArenaCfg, "CreateArenaCfgV2 returned non-null status"),
        (
            Registration::NoEnvironment("gone".to_string()),
            "Environment::current: gone",
        ),
    ];
    for (outcome, message) in cases {
        let mut registry = ArenaRegistry::new();
        let mut log = MetricLog::new();
        let register = |_: &ArenaCfg| -> Registration {
            match &outcome {
                Registration::NoMemoryInfo => Registration::NoMemoryInfo,
                Registration::NoArenaCfg => Registration::NoArenaCfg,
                _ => Registration::NoEnvironment("gone".to_string()),
            }
        };
        let r = try_register_shared_cpu_arena(&env(&[]), &register, &mut registry, &mut log);
        assert_eq!(r.expect("valid settings"), Err(message.to_string()));
        assert!(!registry.is_registered());
        assert!(log.into_updates().is_empty());
    }
}

#[test]
fn an_arena_that_was_there_counts_as_registered() {
    let mut registry = ArenaRegistry::new();
    let mut log = MetricLog::new();
    let register = |_: &ArenaCfg| -> Registration { Registration::AlreadyRegistered };
    let r = try_register_shared_cpu_arena(&env(&[]), &register, &mut registry, &mut log);
    assert!(matches!(r, Ok(Ok(()))), "{r:?}");
    assert!(registry.is_registered());
    let updates = log.into_updates();
    assert_eq!(updates.len(), 1);
    assert_eq!(updates[0].name, "embed_arena_register_skipped_total");
}

#[test]
fn wrong_settings_register_nothing() {
    let mut registry = ArenaRegistry::new();
    let mut log = MetricLog::new();
    let register = |_: &ArenaCfg| -> Registration { Registration::Registered };
    let e = env(&[("EMBED_ARENA_EXTEND_STRATEGY", "7")]);
    let r = try_register_shared_cpu_arena(&e, &register, &mut registry, &mut log);
    assert!(matches!(r, Err(ArenaError::Strategy(7))), "{r:?}");
    assert!(!registry.is_registered());
    assert!(try_init_arena_config_for_model(&e, "m").is_err());
}
