use std::cell::RefCell;

use embed_server::arena::ArenaRegistry;
use embed_server::config::parse_models;
use embed_server::embed_model::{EmbedModel, OptionsError};
use embed_server::env::EnvVars;
use embed_server::metrics::{Amount, Change, MetricLog};
use embed_server::mlock::{LockOutcome, MlockedBuf};
use embed_server::model::{ModelFiles, OptLevel};
use embed_server::session::{
    build_one_session, intra_op_spinning, plan_session, session_settings, step_failed, BuildStep, LoadPlan,
    MlockedSession, SessionPlan, SessionSettings,
};
use tokenizers::models::wordlevel::WordLevel;
use tokenizers::pre_tokenizers::whitespace::Whitespace;
use tokenizers::processors::bert::BertProcessing;
use tokenizers::Tokenizer;

/// Makes a session out of a plan; the outcomes of the outside steps are given.
fn make(
    plan: &SessionPlan,
    opened: Result<u8, (BuildStep, String)>,
    bytes: Result<Vec<u8>, String>,
    made: Result<&str, String>,
    steps: &RefCell<Vec<String>>,
) -> Result<MlockedSession<String>, String> {
    let mut registry = ArenaRegistry::new();
    registry.mark_registered();
    let settings = session_settings(OptLevel::Level3, 2, false, true);
    let open = |s: &SessionSettings, load: &LoadPlan| -> Result<u8, (BuildStep, String)> {
        assert_eq!((s.inter_threads, s.env_allocators, s.own_arena), (1, true, false));
        steps.borrow_mut().push(format!("open {load:?}"));
        opened.clone()
    };
    let read = |path: &String| -> Result<Vec<u8>, String> {
        steps.borrow_mut().push(format!("read {path}"));
        bytes.clone()
    };
    let lock = |_: &Vec<u8>| -> LockOutcome { LockOutcome::NotPermitted };
    let from_file = |_: u8, path: &String| -> Result<String, String> {
        steps.borrow_mut().push(format!("file {path}"));
        made.clone().map(|s| s.to_string())
    };
    let from_memory = |_: u8, kept: &MlockedBuf| -> Result<String, String> {
        steps.borrow_mut().push(format!("memory {}", kept.len()));
        made.clone().map(|s| s.to_string())
    };
    build_one_session(
        &registry,
        plan,
        &settings,
        &EnvVars::new(),
        &open,
        &read,
        &lock,
        &from_file,
        &from_memory,
    )
}

#[test]
fn weights_in_a_file_of_their_own_rule_copies_out() {
    let p = plan_session(true, "/m/a.onnx", LoadPlan::Hit("/cache/a.onnx".to_string()));
    assert!(p.from_file);
    assert!(matches!(p.load, LoadPlan::NoCache));
    assert_eq!(p.path, "/m/a.onnx");
    let p = plan_session(false, "/m/a.onnx", LoadPlan::Hit("/cache/a.onnx".to_string()));
    assert!(!p.from_file);
    assert_eq!(p.path, "/cache/a.onnx");
    let p = plan_session(false, "/m/a.onnx", LoadPlan::Miss("/cache/a.onnx".to_string()));
    assert!(matches!(p.load, LoadPlan::Miss(_)));
    assert_eq!(p.path, "/m/a.onnx");
}

#[test]
fn sessions_come_from_memory_or_from_their_file() {
    let steps = RefCell::new(Vec::new());
    let plan = plan_session(false, "/m/a.onnx", LoadPlan::Hit("/c/a.onnx".to_string()));
    let s = make(&plan, Ok(1), Ok(vec![7, 8, 9]), Ok("session"), &steps).expect("session");
    assert_eq!(s.session, "session");
    assert_eq!(s.buf.as_slice(), &[7, 8, 9]);
    assert!(!s.buf.needs_unlock());
    assert!(s.hint.expect("hint").contains("CAP_IPC_LOCK"));
    assert_eq!(
        *steps.borrow(),
        vec!["open Hit(\"/c/a.onnx\")", "read /c/a.onnx", "memory 3"]
    );

    let steps = RefCell::new(Vec::new());
    let plan = plan_session(true, "/m/a.onnx", LoadPlan::NoCache);
    let s = make(&plan, Ok(1), Err("unused".to_string()), Ok("session"), &steps).expect("session");
    assert_eq!((s.buf.len(), s.hint), (0, None));
    assert_eq!(*steps.borrow(), vec!["open NoCache", "file /m/a.onnx"]);
}

#[test]
fn failed_sessions_say_where_they_failed() {
    let fail = |external: bool,
                opened: Result<u8, (BuildStep, String)>,
                bytes: Result<Vec<u8>, String>,
                made: Result<&str, String>| {
        let plan = plan_session(external, "/a", LoadPlan::NoCache);
        make(&plan, opened, bytes, made, &RefCell::new(Vec::new())).expect_err("failed")
    };
    let no = || "no".to_string();
    assert_eq!(
        fail(false, Err((BuildStep::InterThreads, no())), Ok(vec![]), Ok("s")),
        "set inter threads: no"
    );
    assert_eq!(
        fail(false, Ok(1), Err(no()), Ok("s")),
        "read ONNX bytes /a: read ONNX /a: no"
    );
    assert_eq!(fail(false, Ok(1), Ok(vec![1]), Err(no())), "load ONNX /a: no");
    assert_eq!(fail(true, Ok(1), Ok(vec![1]), Err(no())), "load ONNX /a: no");
}

#[test]
fn threads_spin_only_where_that_is_asked_for() {
    let with = |v: &str| {
        let mut e = EnvVars::new();
        e.set("ORT_INTRA_OP_SPINNING", v);
        intra_op_spinning(&e)
    };
    assert!(!intra_op_spinning(&EnvVars::new()));
    assert!(with("1") && with("true"));
    assert!(!with("0") && !with("yes"));
}

#[test]
fn steps_are_named() {
    let name = |s: BuildStep| step_failed(s, "x");
    assert_eq!(name(BuildStep::Builder), "session builder: x");
    assert_eq!(name(BuildStep::CachePlan), "apply cache plan: x");
    assert_eq!(name(BuildStep::IntraThreads), "set threads: x");
    assert_eq!(name(BuildStep::Spinning), "set intra spinning: x");
    assert_eq!(name(BuildStep::MemoryPattern), "enable memory pattern: x");
    assert_eq!(name(BuildStep::EnvAllocators), "enable env allocators: x");
    assert_eq!(name(BuildStep::OwnArena), "disable per-session cpu mem arena: x");
}

/// A tokenizer that knows two words, and puts two special tokens around a text.
fn tokenizer() -> Tokenizer {
    let vocab = ["[UNK]", "[CLS]", "[SEP]", "hello", "world"]
        .iter()
        .enumerate()
        .map(|(i, w)| (w.to_string(), i as u32))
        .collect();
    let model = WordLevel::builder()
        .vocab(vocab)
        .unk_token("[UNK]".to_string())
        .build()
        .expect("model");
    let mut tok = Tokenizer::new(model);
    tok.with_pre_tokenizer(Some(Whitespace {}));
    tok.with_post_processor(Some(BertProcessing::new(
        ("[SEP]".to_string(), 2),
        ("[CLS]".to_string(), 1),
    )));
    tok
}

/// Loads a model; the outcomes of the outside steps are given.
fn load(
    definition: &str,
    onnx_exists: bool,
    session: Result<u32, String>,
    read: Result<(), String>,
    options: Result<u8, bool>,
    log: &mut MetricLog,
) -> Option<Result<EmbedModel<u32, u8>, String>> {
    let env = EnvVars::new();
    let defs = parse_models(definition, &env).expect("definition");
    let files = ModelFiles {
        onnx_path: "/m/model.onnx".to_string(),
        onnx_exists,
        tokenizer_path: "/m/tokenizer.json".to_string(),
        tokenizer_exists: true,
    };
    let factory = || -> Result<u32, String> { session.clone() };
    let read_tokenizer = || -> Result<Tokenizer, String> { read.clone().map(|_| tokenizer()) };
    let make_options = || -> Result<u8, OptionsError> {
        options.map_err(|created| {
            if created {
                OptionsError::Shrink("no".to_string())
            } else {
                OptionsError::Create("no".to_string())
            }
        })
    };
    EmbedModel::load(
        &defs[0],
        &files,
        true,
        2,
        60,
        &env,
        &factory,
        &read_tokenizer,
        &make_options,
        9,
        log,
    )
}

const MODEL: &str = "multilingual-e5-large:/m:1024:4:1:false";

#[test]
fn a_model_is_loaded_with_all_its_parts() {
    let mut log = MetricLog::new();
    let m = load(MODEL, true, Ok(5), Ok(()), Ok(8), &mut log).expect("load").expect("model");
    assert_eq!((m.name(), m.session_count(), m.dim), ("multilingual-e5-large", 2, 1024));
    assert_eq!(m.eviction_tick_secs, Some(15));
    assert_eq!(m.run_options.is_some(), m.pass.shrinks_arena);
    let (ids, cut) = m
        .tokenize(&vec!["hello world hello".to_string(), "hello".to_string()])
        .expect("tokens");
    assert_eq!(ids, vec![vec![1, 3, 4, 2], vec![1, 3, 2]]);
    assert_eq!(cut, 0);
    let updates = log.into_updates();
    assert_eq!(updates.len(), 1);
    assert_eq!(updates[0].name, "embed_arena_shrink_enabled");
    let shrinks = if m.pass.shrinks_arena { 1 } else { 0 };
    assert_eq!(updates[0].change, Change::GaugeSet(Amount::Whole(shrinks)));
}

#[test]
fn the_first_failure_ends_a_load() {
    let fail = |onnx: bool, session: Result<u32, String>, read: Result<(), String>| {
        let mut log = MetricLog::new();
        let e = match load(MODEL, onnx, session, read, Ok(8), &mut log).expect("load") {
            Err(e) => e,
            Ok(_) => panic!("the load must fail"),
        };
        assert!(log.into_updates().is_empty());
        e
    };
    let no = || "no".to_string();
    assert_eq!(fail(false, Err(no()), Err(no())), "ONNX file not found: /m/model.onnx");
    assert_eq!(fail(true, Err(no()), Err(no())), "embed session #0 failed: no");
    assert_eq!(fail(true, Ok(5), Err(no())), "load tokenizer: no");
    let short = "e5:/m:1024:1:1:false";
    let mut log = MetricLog::new();
    assert!(load(short, true, Ok(5), Ok(()), Ok(8), &mut log).is_none());
    assert!(log.into_updates().is_empty());
}

#[test]
fn models_that_shrink_their_arena_need_options() {
    let env = {
        let mut e = EnvVars::new();
        e.set("EMBED_ARENA_SHRINK_E5", "true");
        e
    };
    let defs = parse_models("e5:/m:8:4:1:false", &env).expect("definition");
    let files = ModelFiles {
        onnx_path: String::new(),
        onnx_exists: true,
        tokenizer_path: String::new(),
        tokenizer_exists: true,
    };
    let factory = || -> Result<u32, String> { Ok(1) };
    let read = || -> Result<Tokenizer, String> { Ok(tokenizer()) };
    let run = |options: &dyn Fn() -> Result<u8, OptionsError>| {
        let made = || -> Result<u8, OptionsError> { options() };
        let mut log = MetricLog::new();
        EmbedModel::load(
            &defs[0], &files, false, 1, 0, &env, &factory, &read, &made, 9, &mut log,
        )
        .expect("load")
    };
    let m = match run(&|| Ok(3)) {
        Ok(m) => m,
        Err(e) => panic!("{e}"),
    };
    assert_eq!((m.run_options, m.pass.shrinks_arena), (Some(3), true));
    assert_eq!(m.eviction_tick_secs, None);
    let e = run(&|| Err(OptionsError::Create("x".to_string()))).err();
    assert_eq!(
        e.as_deref(),
        Some("model e5: failed to create RunOptions for arena shrinkage: x")
    );
    let e = run(&|| Err(OptionsError::Shrink("x".to_string()))).err();
    assert_eq!(
        e.as_deref(),
        Some("model e5: failed to add arena shrinkage config entry: x")
    );
}

#[test]
fn a_session_without_mlock_keeps_no_bytes() {
    let s = MlockedSession::new_without_mlock("session".to_string());
    assert_eq!(s.session, "session");
    assert!(s.buf.len() == 0 && !s.buf.needs_unlock());
    assert!(s.hint.is_none());
}
