//! The making of an ONNX session: where its graph is loaded from, what it is
//! set to, and how each step can fail.
//!
//! A model may keep its weights in a file beside its graph. The runtime finds
//! that file by the graph's own path, so such a model is always loaded from
//! there: a graph that was optimized and kept elsewhere would lose it.
use vstd::prelude::*;
use vstd::string::*;
use crate::arena::{assert_arena_registered_before_session, ArenaRegistry};
use crate::env::{lookup, EnvVars};
use crate::mlock::{
    keeps_weights, lock_weights, locks_weights, unreadable, LockOutcome, MlockedBuf,
};
use crate::model::OptLevel;
use crate::text::same;

verus! {

broadcast use group_string_axioms;

/// What is done about an optimized copy of a graph.
#[derive(Debug)]
pub enum LoadPlan {
    /// None is used, and none is kept.
    NoCache,
    /// There is one, at this path.
    Hit(String),
    /// There is none yet; one is kept at this path.
    Miss(String),
}

impl LoadPlan {
    /// The file that a graph is loaded from.
    pub open spec fn source(&self, onnx_path: Seq<char>) -> Seq<char> {
        match self {
            LoadPlan::Hit(path) => path@,
            _ => onnx_path,
        }
    }

    /// The file that a graph is loaded from.
    pub fn load_source(&self, onnx_path: &str) -> (r: String)
        ensures
            r@ == self.source(onnx_path@),
    {
        match self {
            LoadPlan::Hit(path) => path.clone(),
            _ => onnx_path.to_owned(),
        }
    }
}

/// Where a session comes from.
#[derive(Debug)]
pub struct SessionPlan {
    pub load: LoadPlan,
    /// The file that is loaded.
    pub path: String,
    /// Whether the runtime reads the file itself.
    pub from_file: bool,
}

/// Decides where a session comes from. `decided` is what the graph's copies
/// would call for; a model with weights in a file of its own has none.
pub fn plan_session(has_external_data: bool, onnx_path: &str, decided: LoadPlan) -> (r: SessionPlan)
    ensures
        r.from_file == has_external_data,
        r.load == (if has_external_data {
            LoadPlan::NoCache
        } else {
            decided
        }),
        r.path@ == r.load.source(onnx_path@),
{
    let load: LoadPlan = if has_external_data {
        LoadPlan::NoCache
    } else {
        decided
    };
    let path: String = load.load_source(onnx_path);
    SessionPlan { load, path, from_file: has_external_data }
}

/// What a session is set to.
#[derive(Clone, Copy, Debug, PartialEq, Eq, Structural)]
pub struct SessionSettings {
    pub opt_level: OptLevel,
    /// Threads within an operation.
    pub intra_threads: usize,
    /// Whether those threads spin while they wait.
    pub intra_op_spinning: bool,
    /// Threads across operations.
    pub inter_threads: usize,
    /// Whether the memory of a run is planned ahead.
    pub memory_pattern: bool,
    /// Whether the arena of the environment is used.
    pub env_allocators: bool,
    /// Whether the session has an arena of its own.
    pub own_arena: bool,
}

/// Whether the threads of an operation spin while they wait: only where that is
/// asked for.
pub fn intra_op_spinning(env: &EnvVars) -> (r: bool)
    ensures
        r == (lookup(env@, "ORT_INTRA_OP_SPINNING"@) matches Some(v) && (v == "true"@ || v
            == "1"@)),
{
    match env.get("ORT_INTRA_OP_SPINNING") {
        Some(v) => same(v, "true") || same(v, "1"),
        None => false,
    }
}

/// The settings of every session: encoders run one operation after the other,
/// and all sessions share the arena of the environment.
pub fn session_settings(
    opt_level: OptLevel,
    intra_threads: usize,
    intra_op_spinning: bool,
    memory_pattern: bool,
) -> (r: SessionSettings)
    ensures
        r == (SessionSettings {
            opt_level,
            intra_threads,
            intra_op_spinning,
            inter_threads: 1,
            memory_pattern,
            env_allocators: true,
            own_arena: false,
        }),
{
    SessionSettings {
        opt_level,
        intra_threads,
        intra_op_spinning,
        inter_threads: 1,
        memory_pattern,
        env_allocators: true,
        own_arena: false,
    }
}

/// A step in the set-up of a session.
#[derive(Clone, Copy, Debug, PartialEq, Eq, Structural)]
pub enum BuildStep {
    Builder,
    CachePlan,
    IntraThreads,
    Spinning,
    InterThreads,
    MemoryPattern,
    EnvAllocators,
    OwnArena,
}

/// What a step is called where it fails.
pub open spec fn step_name(step: BuildStep) -> Seq<char> {
    match step {
        BuildStep::Builder => "session builder"@,
        BuildStep::CachePlan => "apply cache plan"@,
        BuildStep::IntraThreads => "set threads"@,
        BuildStep::Spinning => "set intra spinning"@,
        BuildStep::InterThreads => "set inter threads"@,
        BuildStep::MemoryPattern => "enable memory pattern"@,
        BuildStep::EnvAllocators => "enable env allocators"@,
        BuildStep::OwnArena => "disable per-session cpu mem arena"@,
    }
}

/// The message where a step fails.
pub fn step_failed(step: BuildStep, why: &str) -> (r: String)
    ensures
        r@ == step_name(step) + ": "@ + why@,
{
    let name: &'static str = match step {
        BuildStep::Builder => "session builder",
        BuildStep::CachePlan => "apply cache plan",
        BuildStep::IntraThreads => "set threads",
        BuildStep::Spinning => "set intra spinning",
        BuildStep::InterThreads => "set inter threads",
        BuildStep::MemoryPattern => "enable memory pattern",
        BuildStep::EnvAllocators => "enable env allocators",
        BuildStep::OwnArena => "disable per-session cpu mem arena",
    };
    let mut m: String = name.to_owned();
    m.append(": ");
    m.append(why);
    m
}

/// `head`, a path and a reason.
fn about_path(head: &str, path: &str, why: &str) -> (r: String)
    ensures
        r@ == head@ + path@ + ": "@ + why@,
{
    let mut m: String = head.to_owned();
    m.append(path);
    m.append(": ");
    m.append(why);
    m
}

/// A session, and the bytes that it was made from.
#[derive(Debug)]
pub struct MlockedSession<S> {
    pub session: S,
    pub buf: MlockedBuf,
    /// What the operator is told where the bytes could not be locked.
    pub hint: Option<String>,
}

impl<S> MlockedSession<S> {
    /// A session whose weights the runtime holds itself: no bytes are kept,
    /// and none are locked.
    pub fn new_without_mlock(session: S) -> (r: MlockedSession<S>)
        ensures
            r.session == session,
            r.buf.bytes().len() == 0,
            !r.buf.is_locked(),
            r.hint is None,
    {
        MlockedSession { session, buf: MlockedBuf::new(Vec::new(), false), hint: None }
    }
}

/// A session that the runtime made from a file keeps no bytes.
pub open spec fn made_from_file<B, S, C: Fn(B, &String) -> Result<S, String>>(
    commit: &C,
    builder: B,
    path: String,
    r: Result<MlockedSession<S>, String>,
) -> bool {
    exists|made: Result<S, String>|
        {
            &&& #[trigger] call_ensures(commit, (builder, &path), made)
            &&& match made {
                Ok(s) => r matches Ok(m) && m.session == s && m.buf.bytes().len() == 0
                    && !m.buf.is_locked() && m.hint is None,
                Err(e) => r matches Err(m) && m@ == "load ONNX "@ + path@ + ": "@ + e@,
            }
        }
}

/// A session that was made from bytes keeps them.
pub open spec fn made_from_bytes<
    B,
    S,
    L: Fn(&Vec<u8>) -> LockOutcome,
    C: Fn(B, &MlockedBuf) -> Result<S, String>,
>(
    lock: &L,
    wanted: bool,
    commit: &C,
    builder: B,
    path: String,
    bytes: Vec<u8>,
    r: Result<MlockedSession<S>, String>,
) -> bool {
    exists|kept: MlockedBuf, hint: Option<String>, made: Result<S, String>|
        {
            &&& #[trigger] keeps_weights(bytes, wanted, lock, kept, hint)
            &&& #[trigger] call_ensures(commit, (builder, &kept), made)
            &&& match made {
                Ok(s) => r == Ok::<MlockedSession<S>, String>(
                    MlockedSession { session: s, buf: kept, hint },
                ),
                Err(e) => r matches Err(m) && m@ == "load ONNX "@ + path@ + ": "@ + e@,
            }
        }
}

/// The bytes are read, or that fails.
pub open spec fn made_from_memory<
    B,
    S,
    R: Fn(&String) -> Result<Vec<u8>, String>,
    L: Fn(&Vec<u8>) -> LockOutcome,
    C: Fn(B, &MlockedBuf) -> Result<S, String>,
>(
    read: &R,
    lock: &L,
    wanted: bool,
    commit: &C,
    builder: B,
    path: String,
    r: Result<MlockedSession<S>, String>,
) -> bool {
    exists|bytes: Result<Vec<u8>, String>|
        {
            &&& #[trigger] call_ensures(read, (&path,), bytes)
            &&& match bytes {
                Ok(b) => made_from_bytes(lock, wanted, commit, builder, path, b, r),
                Err(e) => r matches Err(m) && m@ == "read ONNX bytes "@ + path@ + ": "@ + (
                "read ONNX "@ + path@ + ": "@ + e@),
            }
        }
}

/// Makes one session: sets it up, then has the runtime load the graph, either
/// from its file or from bytes that are kept in memory. The arena must be
/// registered by then. Of several failures the first is reported.
pub fn build_one_session<
    B,
    S,
    O: Fn(&SessionSettings, &LoadPlan) -> Result<B, (BuildStep, String)>,
    R: Fn(&String) -> Result<Vec<u8>, String>,
    L: Fn(&Vec<u8>) -> LockOutcome,
    F: Fn(B, &String) -> Result<S, String>,
    M: Fn(B, &MlockedBuf) -> Result<S, String>,
>(
    registry: &ArenaRegistry,
    plan: &SessionPlan,
    settings: &SessionSettings,
    env: &EnvVars,
    open: &O,
    read: &R,
    lock: &L,
    commit_from_file: &F,
    commit_from_memory: &M,
) -> (r: Result<MlockedSession<S>, String>)
    requires
        registry.registered(),
        call_requires(open, (settings, &plan.load)),
        forall|path: &String| call_requires(read, (path,)),
        forall|b: &Vec<u8>| call_requires(lock, (b,)),
        forall|b: B, path: &String| call_requires(commit_from_file, (b, path)),
        forall|b: B, kept: &MlockedBuf| call_requires(commit_from_memory, (b, kept)),
    ensures
        exists|opened: Result<B, (BuildStep, String)>|
            {
                &&& #[trigger] call_ensures(open, (settings, &plan.load), opened)
                &&& match opened {
                    Err((step, why)) => r matches Err(m) && m@ == step_name(step) + ": "@ + why@,
                    Ok(builder) => if plan.from_file {
                        made_from_file(commit_from_file, builder, plan.path, r)
                    } else {
                        made_from_memory(
                            read,
                            lock,
                            locks_weights(lookup(env@, "EMBED_MLOCK_WEIGHTS"@)),
                            commit_from_memory,
                            builder,
                            plan.path,
                            r,
                        )
                    },
                }
            },
{
    let _permit = assert_arena_registered_before_session(registry);
    let builder: B = match open(settings, &plan.load) {
        Ok(b) => b,
        Err((step, why)) => {
            return Err(step_failed(step, why.as_str()));
        },
    };
    if plan.from_file {
        return match commit_from_file(builder, &plan.path) {
            Ok(session) => Ok(MlockedSession::new_without_mlock(session)),
            Err(e) => Err(about_path("load ONNX ", plan.path.as_str(), e.as_str())),
        };
    }
    let bytes: Vec<u8> = match read(&plan.path) {
        Ok(b) => b,
        Err(e) => {
            let inner: String = unreadable(plan.path.as_str(), e.as_str());
            return Err(about_path("read ONNX bytes ", plan.path.as_str(), inner.as_str()));
        },
    };
    let ghost wanted: bool = locks_weights(lookup(env@, "EMBED_MLOCK_WEIGHTS"@));
    let ghost given: Vec<u8> = bytes;
    let (buf, hint) = lock_weights(bytes, env, lock);
    assert(keeps_weights(given, wanted, lock, buf, hint));
    let ghost kept: MlockedBuf = buf;
    match commit_from_memory(builder, &buf) {
        Ok(session) => {
            let r: Result<MlockedSession<S>, String> = Ok(MlockedSession { session, buf, hint });
            assert(call_ensures(
                commit_from_memory,
                (builder, &kept),
                Ok::<S, String>(session),
            ));
            r
        },
        Err(e) => Err(about_path("load ONNX ", plan.path.as_str(), e.as_str())),
    }
}

/// The file that is loaded is the copy where there is one, else the graph's own.
pub proof fn law_load_source(onnx_path: Seq<char>, copy: String)
    ensures
        LoadPlan::Hit(copy).source(onnx_path) == copy@,
        LoadPlan::Miss(copy).source(onnx_path) == onnx_path,
        LoadPlan::NoCache.source(onnx_path) == onnx_path,
{
}

/// A step that fails is named for what it does.
pub proof fn law_step_names()
    ensures
        step_name(BuildStep::Builder) == "session builder"@,
        step_name(BuildStep::CachePlan) == "apply cache plan"@,
        step_name(BuildStep::IntraThreads) == "set threads"@,
        step_name(BuildStep::Spinning) == "set intra spinning"@,
        step_name(BuildStep::InterThreads) == "set inter threads"@,
        step_name(BuildStep::MemoryPattern) == "enable memory pattern"@,
        step_name(BuildStep::EnvAllocators) == "enable env allocators"@,
        step_name(BuildStep::OwnArena) == "disable per-session cpu mem arena"@,
{
}

/// A session made of a file is the one that the runtime made of that very file,
/// and keeps no weights of its own; an error names the file and says why.
pub proof fn law_session_of_a_file<B, S, C: Fn(B, &String) -> Result<S, String>>(
    commit: &C,
    builder: B,
    path: String,
    r: Result<MlockedSession<S>, String>,
) -> (why: String)
    requires
        made_from_file(commit, builder, path, r),
    ensures
        r matches Ok(m) ==> call_ensures(commit, (builder, &path), Ok::<S, String>(m.session))
            && m.buf.bytes().len() == 0 && !m.buf.is_locked() && m.hint is None,
        r matches Err(m) ==> call_ensures(commit, (builder, &path), Err::<S, String>(why)) && m@
            == "load ONNX "@ + path@ + ": "@ + why@,
{
    let made: Result<S, String> = choose|made: Result<S, String>|
        {
            &&& #[trigger] call_ensures(commit, (builder, &path), made)
            &&& match made {
                Ok(s) => r matches Ok(m) && m.session == s && m.buf.bytes().len() == 0
                    && !m.buf.is_locked() && m.hint is None,
                Err(e) => r matches Err(m) && m@ == "load ONNX "@ + path@ + ": "@ + e@,
            }
        };
    match made {
        Ok(_) => path,
        Err(e) => e,
    }
}

/// A session made of bytes keeps exactly these bytes, and is the one that the
/// runtime made of what is kept.
pub proof fn law_session_of_bytes<
    B,
    S,
    L: Fn(&Vec<u8>) -> LockOutcome,
    C: Fn(B, &MlockedBuf) -> Result<S, String>,
>(
    lock: &L,
    wanted: bool,
    commit: &C,
    builder: B,
    path: String,
    bytes: Vec<u8>,
    m: MlockedSession<S>,
)
    requires
        made_from_bytes(
            lock,
            wanted,
            commit,
            builder,
            path,
            bytes,
            Ok::<MlockedSession<S>, String>(m),
        ),
    ensures
        m.buf.bytes() == bytes@,
        call_ensures(commit, (builder, &m.buf), Ok::<S, String>(m.session)),
        !wanted ==> !m.buf.is_locked() && m.hint is None,
        m.buf.is_locked() ==> call_ensures(lock, (&bytes,), LockOutcome::Locked),
{
}

/// A session that is made by way of memory is made of the bytes that its file
/// held when it was read.
pub proof fn law_session_of_memory<
    B,
    S,
    R: Fn(&String) -> Result<Vec<u8>, String>,
    L: Fn(&Vec<u8>) -> LockOutcome,
    C: Fn(B, &MlockedBuf) -> Result<S, String>,
>(
    read: &R,
    lock: &L,
    wanted: bool,
    commit: &C,
    builder: B,
    path: String,
    m: MlockedSession<S>,
) -> (bytes: Vec<u8>)
    requires
        made_from_memory(
            read,
            lock,
            wanted,
            commit,
            builder,
            path,
            Ok::<MlockedSession<S>, String>(m),
        ),
    ensures
        call_ensures(read, (&path,), Ok::<Vec<u8>, String>(bytes)),
        m.buf.bytes() == bytes@,
        call_ensures(commit, (builder, &m.buf), Ok::<S, String>(m.session)),
{
    let r: Result<MlockedSession<S>, String> = Ok(m);
    let bytes: Result<Vec<u8>, String> = choose|bytes: Result<Vec<u8>, String>|
        {
            &&& #[trigger] call_ensures(read, (&path,), bytes)
            &&& match bytes {
                Ok(b) => made_from_bytes(lock, wanted, commit, builder, path, b, r),
                Err(e) => r matches Err(m) && m@ == "read ONNX bytes "@ + path@ + ": "@ + (
                "read ONNX "@ + path@ + ": "@ + e@),
            }
        };
    law_session_of_bytes(lock, wanted, commit, builder, path, bytes->Ok_0, m);
    bytes->Ok_0
}

/// A session that could not be made by way of memory is told with its file: why
/// it could not be read, or why nothing could be made of it.
pub proof fn law_unmade_session_is_told<
    B,
    S,
    R: Fn(&String) -> Result<Vec<u8>, String>,
    L: Fn(&Vec<u8>) -> LockOutcome,
    C: Fn(B, &MlockedBuf) -> Result<S, String>,
>(read: &R, lock: &L, wanted: bool, commit: &C, builder: B, path: String, m: String) -> (why: String)
    requires
        made_from_memory(
            read,
            lock,
            wanted,
            commit,
            builder,
            path,
            Err::<MlockedSession<S>, String>(m),
        ),
    ensures
        (call_ensures(read, (&path,), Err::<Vec<u8>, String>(why)) && m@ == "read ONNX bytes "@
            + path@ + ": "@ + ("read ONNX "@ + path@ + ": "@ + why@)) || m@ == "load ONNX "@ + path@
            + ": "@ + why@,
{
    let r: Result<MlockedSession<S>, String> = Err(m);
    let bytes: Result<Vec<u8>, String> = choose|bytes: Result<Vec<u8>, String>|
        {
            &&& #[trigger] call_ensures(read, (&path,), bytes)
            &&& match bytes {
                Ok(b) => made_from_bytes(lock, wanted, commit, builder, path, b, r),
                Err(e) => r matches Err(m) && m@ == "read ONNX bytes "@ + path@ + ": "@ + (
                "read ONNX "@ + path@ + ": "@ + e@),
            }
        };
    match bytes {
        Err(e) => e,
        Ok(b) => {
            let (kept, hint, made): (MlockedBuf, Option<String>, Result<S, String>) = choose|
                kept: MlockedBuf,
                hint: Option<String>,
                made: Result<S, String>,
            |
                {
                    &&& #[trigger] keeps_weights(b, wanted, lock, kept, hint)
                    &&& #[trigger] call_ensures(commit, (builder, &kept), made)
                    &&& match made {
                        Ok(s) => r == Ok::<MlockedSession<S>, String>(
                            MlockedSession { session: s, buf: kept, hint },
                        ),
                        Err(e) => r matches Err(m) && m@ == "load ONNX "@ + path@ + ": "@ + e@,
                    }
                };
            made->Err_0
        },
    }
}

} // verus!
