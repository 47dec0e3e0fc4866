//! A worker: the process that serves one model to the server.
//!
//! A request waits for its turn behind a [`WaitingRoom`], is served by the
//! loaded model, and is answered under its own number.
use vstd::prelude::*;
use vstd::string::*;
use crate::config::{env_key, model_env_key, positive_or};
use crate::env::{lookup, EnvVars};
use crate::ipc::protocol::{
    EmbedRequest, EmbedResponseOk, RerankRequest, RerankResponseOk, SpladeRequest,
    SpladeResponseOk, WorkerRequest, WorkerResponse,
};
use crate::metrics::{
    arena_registration_failed_touch, of_model, plain, record_arena_registration_failed,
    record_worker_inference, record_worker_queue_wait, set_worker_queue_depth, Amount, Change,
    MetricLog, UpdateView,
};
use crate::text::{decimal, parse_u16, parse_usize, parsed, trim, trimmed};

verus! {

broadcast use group_string_axioms;

/// The threads of a session where nothing else is said.
pub const INTRA_THREADS: usize = 2;

/// The sessions of a worker where nothing else is said.
pub const POOL_SIZE: usize = 1;

/// How many requests may wait for each session where nothing else is said.
pub const WAITERS_POOL_MULTIPLIER: usize = 8;

/// The fewest requests that may wait where nothing else is said.
pub const WAITERS_FLOOR: usize = 16;

/// How many requests may wait where nothing else is said.
pub open spec fn default_waiters(pool_size: usize) -> usize {
    let n: int = pool_size * WAITERS_POOL_MULTIPLIER;
    if n > usize::MAX {
        usize::MAX
    } else if n < WAITERS_FLOOR {
        WAITERS_FLOOR
    } else {
        n as usize
    }
}

/// How many requests may wait: the model's own setting, else the global one,
/// else a number that grows with the sessions. A setting counts where it is a
/// positive number.
pub open spec fn max_waiters(
    env: Map<Seq<char>, Seq<char>>,
    pool_size: usize,
    model: Seq<char>,
) -> usize {
    positive_or(
        lookup(env, "EMBED_MAX_WAITERS_"@ + env_key(model)),
        positive_or(lookup(env, "EMBED_MAX_WAITERS"@), default_waiters(pool_size)),
    )
}

fn positive_setting(raw: Option<&str>, default: usize) -> (r: usize)
    ensures
        r == positive_or(crate::text::opt_view(raw), default),
{
    match raw {
        None => default,
        Some(s) => match parse_usize(trim(s)) {
            Ok(n) => if n == 0 {
                default
            } else {
                n
            },
            Err(_) => default,
        },
    }
}

/// Resolves how many requests may wait in a worker.
pub fn resolve_max_waiters_for_model(env: &EnvVars, pool_size: usize, model: &str) -> (r: usize)
    ensures
        r == max_waiters(env@, pool_size, model@),
{
    let product: usize = match pool_size.checked_mul(WAITERS_POOL_MULTIPLIER) {
        Some(n) => n,
        None => usize::MAX,
    };
    let formula: usize = if product < WAITERS_FLOOR {
        WAITERS_FLOOR
    } else {
        product
    };
    let global: usize = positive_setting(env.get("EMBED_MAX_WAITERS"), formula);
    let mut own: String = "EMBED_MAX_WAITERS_".to_owned();
    let key: String = model_env_key(model);
    own.append(key.as_str());
    positive_setting(env.get(own.as_str()), global)
}

/// A worker can always hold a waiting request, and without settings it holds
/// no fewer than the floor.
pub proof fn law_waiters_are_positive(
    env: Map<Seq<char>, Seq<char>>,
    pool_size: usize,
    model: Seq<char>,
)
    ensures
        max_waiters(env, pool_size, model) >= 1,
        default_waiters(pool_size) >= WAITERS_FLOOR,
{
}

/// The requests that wait for a session.
#[derive(Debug)]
pub struct WaitingRoom {
    waiting: usize,
    max: usize,
}

/// The update of the number of waiting requests.
pub open spec fn depth_update(model: Seq<char>, depth: usize) -> UpdateView {
    of_model(
        "embed_worker_queue_depth"@,
        model,
        Change::GaugeSet(Amount::Whole(depth as u128)),
    )
}

/// One more, but no more than the largest `usize`.
pub open spec fn one_more(n: usize) -> usize {
    if n < usize::MAX {
        (n + 1) as usize
    } else {
        usize::MAX
    }
}

impl WaitingRoom {
    /// The number of waiting requests.
    pub closed spec fn waiting(&self) -> usize {
        self.waiting
    }

    /// The most requests that may wait.
    pub closed spec fn max(&self) -> usize {
        self.max
    }

    /// No more wait than may.
    pub open spec fn wf(&self) -> bool {
        self.waiting() <= self.max()
    }

    /// A room in which nothing waits.
    pub fn new(max: usize) -> (r: WaitingRoom)
        ensures
            r.wf(),
            r.waiting() == 0,
            r.max() == max,
    {
        WaitingRoom { waiting: 0, max }
    }

    /// A request arrives. It waits, or it is turned away where the room is
    /// full; either way the depth that it saw is recorded.
    pub fn arrive(&mut self, model: &str, log: &mut MetricLog) -> (r: bool)
        requires
            old(self).wf(),
        ensures
            final(self).wf(),
            final(self).max() == old(self).max(),
            r == (old(self).waiting() < old(self).max()),
            r ==> final(self).waiting() == old(self).waiting() + 1 && final(log)@ == old(log)@.push(
                depth_update(model@, final(self).waiting()),
            ),
            !r ==> final(self).waiting() == old(self).waiting() && final(log)@ == old(log)@.push(
                depth_update(model@, one_more(old(self).waiting())),
            ).push(depth_update(model@, old(self).waiting())),
    {
        if self.waiting < self.max {
            self.waiting = self.waiting + 1;
            set_worker_queue_depth(log, model, self.waiting);
            return true;
        }
        set_worker_queue_depth(log, model, self.waiting.saturating_add(1));
        set_worker_queue_depth(log, model, self.waiting);
        false
    }

    /// A waiting request leaves the room: it has got a session, or there are
    /// none any more.
    pub fn leave(&mut self, model: &str, log: &mut MetricLog)
        requires
            old(self).wf(),
        ensures
            final(self).wf(),
            final(self).max() == old(self).max(),
            final(self).waiting() == if old(self).waiting() == 0 {
                0
            } else {
                (old(self).waiting() - 1) as usize
            },
            final(log)@ == old(log)@.push(depth_update(model@, final(self).waiting())),
    {
        if self.waiting > 0 {
            self.waiting = self.waiting - 1;
        }
        set_worker_queue_depth(log, model, self.waiting);
    }

    /// A waiting request has got a session after the given time.
    pub fn enter(&mut self, model: &str, nanos: u128, log: &mut MetricLog)
        requires
            old(self).wf(),
        ensures
            final(self).wf(),
            final(self).max() == old(self).max(),
            final(self).waiting() == if old(self).waiting() == 0 {
                0
            } else {
                (old(self).waiting() - 1) as usize
            },
            final(log)@ == old(log)@.push(depth_update(model@, final(self).waiting())).push(
                of_model(
                    "embed_worker_queue_wait_duration_seconds"@,
                    model@,
                    Change::HistogramRecord(Amount::Seconds { nanos }),
                ),
            ),
    {
        self.leave(model, log);
        record_worker_queue_wait(log, model, nanos);
    }
}

/// The response to a request that found the room full.
pub fn overflow_response(req: &WorkerRequest) -> (r: WorkerResponse)
    ensures
        r matches WorkerResponse::Failed { request_id, message } && request_id == req.id()
            && message@ == "worker queue overflow"@,
{
    WorkerResponse::Failed {
        request_id: req.request_id(),
        message: "worker queue overflow".to_owned(),
    }
}

/// The response to a request when there are no sessions any more.
pub fn closed_response(req: &WorkerRequest) -> (r: WorkerResponse)
    ensures
        r matches WorkerResponse::Failed { request_id, message } && request_id == req.id()
            && message@ == "worker semaphore closed"@,
{
    WorkerResponse::Failed {
        request_id: req.request_id(),
        message: "worker semaphore closed".to_owned(),
    }
}

/// The response to a request whose task broke down.
pub fn broken_response(request_id: u64, why: &str) -> (r: WorkerResponse)
    ensures
        r matches WorkerResponse::Failed { request_id: id, message } && id == request_id
            && message@ == "spawn_blocking join error: "@ + why@,
{
    let mut message: String = "spawn_blocking join error: ".to_owned();
    message.append(why);
    WorkerResponse::Failed { request_id, message }
}

/// The model that a worker has loaded.
#[derive(Debug)]
pub enum LoadedModel<E, R, S> {
    Embed(E),
    Rerank(R),
    Splade(S),
}

impl<E, R, S> LoadedModel<E, R, S> {
    /// The kind of model.
    pub open spec fn kind_name(&self) -> Seq<char> {
        match self {
            LoadedModel::Embed(_) => "embed"@,
            LoadedModel::Rerank(_) => "rerank"@,
            LoadedModel::Splade(_) => "splade"@,
        }
    }

    /// The kind of model.
    pub fn kind(&self) -> (r: &'static str)
        ensures
            r@ == self.kind_name(),
    {
        match self {
            LoadedModel::Embed(_) => "embed",
            LoadedModel::Rerank(_) => "rerank",
            LoadedModel::Splade(_) => "splade",
        }
    }
}

/// The message for a request that the model is not for.
pub open spec fn mismatch(model: Seq<char>, request: Seq<char>) -> Seq<char> {
    "kind mismatch: model is "@ + model + ", request is "@ + request
}

/// The response answers the request with what the model gave: its result, or
/// its error in words. A request of another kind than the model's is an error.
pub open spec fn answers<
    E,
    R,
    S,
    FE: Fn(&E, &EmbedRequest) -> Result<(Vec<Vec<u32>>, u32), String>,
    FR: Fn(&R, &RerankRequest) -> Result<Vec<u32>, String>,
    FS: Fn(&S, &SpladeRequest) -> Result<Vec<Vec<(u32, u32)>>, String>,
>(
    loaded: LoadedModel<E, R, S>,
    req: WorkerRequest,
    resp: WorkerResponse,
    embed: &FE,
    score: &FR,
    encode: &FS,
) -> bool {
    match (loaded, req) {
        (LoadedModel::Embed(m), WorkerRequest::Embed(q)) => match resp {
            WorkerResponse::Embed(a) => call_ensures(
                embed,
                (&m, &q),
                Ok::<(Vec<Vec<u32>>, u32), String>((a.vectors, a.dims)),
            ),
            WorkerResponse::Failed { message, .. } => call_ensures(
                embed,
                (&m, &q),
                Err::<(Vec<Vec<u32>>, u32), String>(message),
            ),
            _ => false,
        },
        (LoadedModel::Rerank(m), WorkerRequest::Rerank(q)) => match resp {
            WorkerResponse::Rerank(a) => call_ensures(
                score,
                (&m, &q),
                Ok::<Vec<u32>, String>(a.scores),
            ),
            WorkerResponse::Failed { message, .. } => call_ensures(
                score,
                (&m, &q),
                Err::<Vec<u32>, String>(message),
            ),
            _ => false,
        },
        (LoadedModel::Splade(m), WorkerRequest::Splade(q)) => match resp {
            WorkerResponse::Splade(a) => call_ensures(
                encode,
                (&m, &q),
                Ok::<Vec<Vec<(u32, u32)>>, String>(a.sparse),
            ),
            WorkerResponse::Failed { message, .. } => call_ensures(
                encode,
                (&m, &q),
                Err::<Vec<Vec<(u32, u32)>>, String>(message),
            ),
            _ => false,
        },
        (_, _) => resp matches WorkerResponse::Failed { message, .. } && message@ == mismatch(
            loaded.kind_name(),
            req.kind_name(),
        ),
    }
}

/// Serves a request with the loaded model. The response carries the request's
/// number.
pub fn serve<
    E,
    R,
    S,
    FE: Fn(&E, &EmbedRequest) -> Result<(Vec<Vec<u32>>, u32), String>,
    FR: Fn(&R, &RerankRequest) -> Result<Vec<u32>, String>,
    FS: Fn(&S, &SpladeRequest) -> Result<Vec<Vec<(u32, u32)>>, String>,
>(
    loaded: &LoadedModel<E, R, S>,
    req: &WorkerRequest,
    embed: &FE,
    score: &FR,
    encode: &FS,
) -> (r: WorkerResponse)
    requires
        forall|m: &E, q: &EmbedRequest| call_requires(embed, (m, q)),
        forall|m: &R, q: &RerankRequest| call_requires(score, (m, q)),
        forall|m: &S, q: &SpladeRequest| call_requires(encode, (m, q)),
    ensures
        r.id() == req.id(),
        answers(*loaded, *req, r, embed, score, encode),
{
    let request_id: u64 = req.request_id();
    match (loaded, req) {
        (LoadedModel::Embed(m), WorkerRequest::Embed(q)) => match embed(m, q) {
            Ok((vectors, dims)) => WorkerResponse::Embed(
                EmbedResponseOk { request_id, vectors, dims },
            ),
            Err(message) => WorkerResponse::Failed { request_id, message },
        },
        (LoadedModel::Rerank(m), WorkerRequest::Rerank(q)) => match score(m, q) {
            Ok(scores) => WorkerResponse::Rerank(RerankResponseOk { request_id, scores }),
            Err(message) => WorkerResponse::Failed { request_id, message },
        },
        (LoadedModel::Splade(m), WorkerRequest::Splade(q)) => match encode(m, q) {
            Ok(sparse) => WorkerResponse::Splade(SpladeResponseOk { request_id, sparse }),
            Err(message) => WorkerResponse::Failed { request_id, message },
        },
        (_, _) => {
            let mut message: String = "kind mismatch: model is ".to_owned();
            message.append(loaded.kind());
            message.append(", request is ");
            message.append(req.kind());
            WorkerResponse::Failed { request_id, message }
        },
    }
}

/// The texts of a request for vectors; requests of other kinds have none that
/// are counted.
pub fn embed_batch_size(req: &WorkerRequest) -> (r: Option<usize>)
    ensures
        match req {
            WorkerRequest::Embed(q) => r matches Some(n) && n == q.texts@.len(),
            _ => r is None,
        },
{
    match req {
        WorkerRequest::Embed(q) => Some(q.texts.len()),
        _ => None,
    }
}

/// Records an inference that gave vectors. Failures would distort its times,
/// and other kinds of requests have no counterpart in the server.
pub fn note_served(
    model: &str,
    batch_size: Option<usize>,
    resp: &WorkerResponse,
    nanos: u128,
    log: &mut MetricLog,
)
    ensures
        final(log)@ == match batch_size {
            Some(n) => if resp is Failed {
                old(log)@
            } else {
                old(log)@.push(
                    of_model(
                        "embed_worker_inference_duration_seconds"@,
                        model@,
                        Change::HistogramRecord(Amount::Seconds { nanos }),
                    ),
                ).push(
                    of_model(
                        "embed_worker_batch_size"@,
                        model@,
                        Change::HistogramRecord(Amount::Whole(n as u128)),
                    ),
                )
            },
            None => old(log)@,
        },
{
    let served: bool = match resp {
        WorkerResponse::Failed { .. } => false,
        _ => true,
    };
    if let Some(n) = batch_size {
        if served {
            record_worker_inference(log, model, nanos, n);
        }
    }
}

/// A failed registration of the arena ends the worker: without it the memory
/// of a session would grow without bound.
pub fn handle_arena_registration(result: Result<(), String>, log: &mut MetricLog) -> (r: Result<
    (),
    String,
>)
    ensures
        match result {
            Ok(_) => r is Ok && final(log)@ == old(log)@,
            Err(e) => (r matches Err(m) && m@ == "shared arena registration failed: "@ + e@)
                && final(log)@ == old(log)@.push(
                plain("embed_arena_registration_failed_total"@, Change::CounterIncrement(1)),
            ),
        },
{
    match result {
        Ok(_) => Ok(()),
        Err(e) => {
            record_arena_registration_failed(log);
            let mut m: String = "shared arena registration failed: ".to_owned();
            m.append(e.as_str());
            Err(m)
        },
    }
}

/// Registers the arena of a worker, whose failures can be seen from the start
/// as a count of zero. `register` does it for the model.
pub fn register_arena_for_worker<F: Fn(&str) -> Result<(), String>>(
    model_name: &str,
    register: &F,
    log: &mut MetricLog,
) -> (r: Result<(), String>)
    requires
        call_requires(register, (model_name,)),
    ensures
        exists|result: Result<(), String>|
            {
                &&& #[trigger] call_ensures(register, (model_name,), result)
                &&& match result {
                    Ok(_) => r is Ok && final(log)@ == old(log)@.push(
                        plain(
                            "embed_arena_registration_failed_total"@,
                            Change::CounterAbsolute(0),
                        ),
                    ),
                    Err(e) => (r matches Err(m) && m@ == "shared arena registration failed: "@
                        + e@) && final(log)@ == old(log)@.push(
                        plain(
                            "embed_arena_registration_failed_total"@,
                            Change::CounterAbsolute(0),
                        ),
                    ).push(
                        plain(
                            "embed_arena_registration_failed_total"@,
                            Change::CounterIncrement(1),
                        ),
                    ),
                }
            },
{
    arena_registration_failed_touch(log);
    let result: Result<(), String> = register(model_name);
    handle_arena_registration(result, log)
}

/// The value of a variable that must be set.
pub fn require_env(env: &EnvVars, var: &str) -> (r: Result<String, String>)
    ensures
        match lookup(env@, var@) {
            Some(v) => r matches Ok(s) && s@ == v,
            None => r matches Err(m) && m@ == "required env var missing: "@ + var@,
        },
{
    match env.get(var) {
        Some(v) => Ok(v.to_owned()),
        None => {
            let mut m: String = "required env var missing: ".to_owned();
            m.append(var);
            Err(m)
        },
    }
}

/// The kinds of worker.
#[derive(Clone, Copy, Debug, PartialEq, Eq, Structural)]
pub enum WorkerKind {
    Embed,
    Rerank,
    Splade,
}

impl WorkerKind {
    /// The kind's name.
    pub open spec fn name(self) -> Seq<char> {
        match self {
            WorkerKind::Embed => "embed"@,
            WorkerKind::Rerank => "rerank"@,
            WorkerKind::Splade => "splade"@,
        }
    }

    /// The kind's name.
    pub fn as_str(&self) -> (r: &'static str)
        ensures
            r@ == self.name(),
    {
        match self {
            WorkerKind::Embed => "embed",
            WorkerKind::Rerank => "rerank",
            WorkerKind::Splade => "splade",
        }
    }
}

/// What a worker is told by its environment.
#[derive(Debug)]
pub struct WorkerSettings {
    /// The kind as it is written; see [`worker_kind`].
    pub kind: String,
    pub model: String,
    pub socket_path: String,
    pub intra_threads: usize,
    pub pool_size: usize,
    pub max_waiters: usize,
}

/// What [`WorkerSettings`] say.
#[verifier::ext_equal]
pub struct WorkerSettingsView {
    pub kind: Seq<char>,
    pub model: Seq<char>,
    pub socket_path: Seq<char>,
    pub intra_threads: usize,
    pub pool_size: usize,
    pub max_waiters: usize,
}

impl View for WorkerSettings {
    type V = WorkerSettingsView;

    open spec fn view(&self) -> WorkerSettingsView {
        WorkerSettingsView {
            kind: self.kind@,
            model: self.model@,
            socket_path: self.socket_path@,
            intra_threads: self.intra_threads,
            pool_size: self.pool_size,
            max_waiters: self.max_waiters,
        }
    }
}

/// A number that may be left out, but must not be anything else.
pub open spec fn count_setting(raw: Option<Seq<char>>, default: usize) -> Result<
    usize,
    Seq<char>,
> {
    match raw {
        None => Ok(default),
        Some(s) => match parsed(s, usize::MAX as nat) {
            Ok(n) => Ok(n as usize),
            Err(e) => Err(e.words()),
        },
    }
}

fn read_count(raw: Option<&str>, default: usize) -> (r: Result<usize, String>)
    ensures
        match (r, count_setting(crate::text::opt_view(raw), default)) {
            (Ok(n), Ok(m)) => n == m,
            (Err(e), Err(f)) => e@ == f,
            _ => false,
        },
{
    match raw {
        None => Ok(default),
        Some(s) => match parse_usize(s) {
            Ok(n) => Ok(n),
            Err(e) => Err(e.text().to_owned()),
        },
    }
}

/// What a worker's environment says: the model and the socket must be there.
pub open spec fn settings_of(env: Map<Seq<char>, Seq<char>>) -> Result<
    WorkerSettingsView,
    Seq<char>,
> {
    match lookup(env, "EMBED_WORKER_MODEL"@) {
        None => Err("required env var missing: "@ + "EMBED_WORKER_MODEL"@),
        Some(model) => match lookup(env, "EMBED_WORKER_SOCKET"@) {
            None => Err("required env var missing: "@ + "EMBED_WORKER_SOCKET"@),
            Some(socket_path) => match count_setting(
                lookup(env, "EMBED_WORKER_INTRA_THREADS"@),
                INTRA_THREADS,
            ) {
                Err(e) => Err(e),
                Ok(intra_threads) => match count_setting(
                    lookup(env, "EMBED_WORKER_POOL_SIZE"@),
                    POOL_SIZE,
                ) {
                    Err(e) => Err(e),
                    Ok(pool_size) => Ok(
                        WorkerSettingsView {
                            kind: match lookup(env, "EMBED_WORKER_KIND"@) {
                                Some(k) => k,
                                None => "embed"@,
                            },
                            model,
                            socket_path,
                            intra_threads,
                            pool_size,
                            max_waiters: max_waiters(env, pool_size, model),
                        },
                    ),
                },
            },
        },
    }
}

/// Reads what a worker's environment says.
pub fn worker_settings(env: &EnvVars) -> (r: Result<WorkerSettings, String>)
    ensures
        match (r, settings_of(env@)) {
            (Ok(s), Ok(v)) => s@ == v,
            (Err(e), Err(m)) => e@ == m,
            _ => false,
        },
{
    let kind: String = match env.get("EMBED_WORKER_KIND") {
        Some(k) => k.to_owned(),
        None => "embed".to_owned(),
    };
    let model: String = match require_env(env, "EMBED_WORKER_MODEL") {
        Ok(m) => m,
        Err(e) => return Err(e),
    };
    let socket_path: String = match require_env(env, "EMBED_WORKER_SOCKET") {
        Ok(p) => p,
        Err(e) => return Err(e),
    };
    let intra_threads: usize = match read_count(
        env.get("EMBED_WORKER_INTRA_THREADS"),
        INTRA_THREADS,
    ) {
        Ok(n) => n,
        Err(e) => return Err(e),
    };
    let pool_size: usize = match read_count(env.get("EMBED_WORKER_POOL_SIZE"), POOL_SIZE) {
        Ok(n) => n,
        Err(e) => return Err(e),
    };
    let waiters: usize = resolve_max_waiters_for_model(env, pool_size, model.as_str());
    Ok(
        WorkerSettings {
            kind,
            model,
            socket_path,
            intra_threads,
            pool_size,
            max_waiters: waiters,
        },
    )
}

/// The kind that a name stands for.
pub fn worker_kind(name: &str) -> (r: Result<WorkerKind, String>)
    ensures
        match r {
            Ok(k) => k.name() == name@,
            Err(m) => name@ != "embed"@ && name@ != "rerank"@ && name@ != "splade"@ && m@
                == "unknown EMBED_WORKER_KIND: "@ + name@,
        },
{
    if crate::text::same(name, "embed") {
        Ok(WorkerKind::Embed)
    } else if crate::text::same(name, "rerank") {
        Ok(WorkerKind::Rerank)
    } else if crate::text::same(name, "splade") {
        Ok(WorkerKind::Splade)
    } else {
        let mut m: String = "unknown EMBED_WORKER_KIND: ".to_owned();
        m.append(name);
        Err(m)
    }
}

/// Where a worker publishes its metrics.
#[derive(Debug)]
pub enum MetricsEndpoint {
    /// Nowhere.
    Off,
    /// Nowhere: the setting, white space around it aside, is no port.
    Invalid(String),
    /// At a port of an address.
    At { bind: String, port: u16 },
}

/// Where a worker publishes its metrics: all addresses where it is not told
/// which.
pub fn metrics_endpoint(env: &EnvVars) -> (r: MetricsEndpoint)
    ensures
        match lookup(env@, "EMBED_WORKER_METRICS_PORT"@) {
            None => r is Off,
            Some(raw) => match parsed(trimmed(raw), u16::MAX as nat) {
                Err(_) => r matches MetricsEndpoint::Invalid(s) && s@ == trimmed(raw),
                Ok(n) => r matches MetricsEndpoint::At { bind, port } && port == n && bind@
                    == match lookup(env@, "EMBED_WORKER_METRICS_BIND"@) {
                    Some(b) => b,
                    None => "0.0.0.0"@,
                },
            },
        },
{
    match env.get("EMBED_WORKER_METRICS_PORT") {
        None => MetricsEndpoint::Off,
        Some(raw) => {
            let t: &str = trim(raw);
            match parse_u16(t) {
                Err(_) => MetricsEndpoint::Invalid(t.to_owned()),
                Ok(port) => {
                    let bind: String = match env.get("EMBED_WORKER_METRICS_BIND") {
                        Some(b) => b.to_owned(),
                        None => "0.0.0.0".to_owned(),
                    };
                    MetricsEndpoint::At { bind, port }
                },
            }
        },
    }
}

/// How many requests may wait: the model's own number, else the global one, else
/// eight for each session, but no fewer than sixteen.
pub proof fn law_waiting_requests(
    env: Map<Seq<char>, Seq<char>>,
    pool_size: usize,
    model: Seq<char>,
    n: usize,
)
    requires
        n > 0,
    ensures
        ({
            let own: Seq<char> = "EMBED_MAX_WAITERS_"@ + env_key(model);
            let global: Seq<char> = "EMBED_MAX_WAITERS"@;
            &&& max_waiters(env.insert(own, decimal(n as nat)), pool_size, model) == n
            &&& !env.contains_key(own) && lookup(env, global) == Some(decimal(n as nat))
                ==> max_waiters(env, pool_size, model) == n
            &&& !env.contains_key(own) && !env.contains_key(global) ==> max_waiters(
                env,
                pool_size,
                model,
            ) == default_waiters(pool_size)
        }),
        pool_size <= 2 ==> default_waiters(pool_size) == 16,
        2 < pool_size && 8 * pool_size <= usize::MAX ==> default_waiters(pool_size) == 8
            * pool_size,
        8 * pool_size > usize::MAX ==> default_waiters(pool_size) == usize::MAX,
{
    crate::text::law_written_number_is_plain(n as nat);
    let s: Seq<char> = decimal(n as nat);
    assert('0' <= s[0] <= '9' && '0' <= s[s.len() - 1] <= '9');
    crate::text::law_trimmed_text_stays(s);
    crate::config::law_numbers_in_variables(s, n, positive_or(
        lookup(env.insert("EMBED_MAX_WAITERS_"@ + env_key(model), s), "EMBED_MAX_WAITERS"@),
        default_waiters(pool_size),
    ));
    crate::config::law_numbers_in_variables(s, n, default_waiters(pool_size));
}

/// A worker answers a request of its own kind with what its model gave for that
/// very request, or with the model's error, and a request of another kind with
/// an error.
pub proof fn law_worker_answers_with_its_model<
    E,
    R,
    S,
    FE: Fn(&E, &EmbedRequest) -> Result<(Vec<Vec<u32>>, u32), String>,
    FR: Fn(&R, &RerankRequest) -> Result<Vec<u32>, String>,
    FS: Fn(&S, &SpladeRequest) -> Result<Vec<Vec<(u32, u32)>>, String>,
>(
    loaded: LoadedModel<E, R, S>,
    req: WorkerRequest,
    resp: WorkerResponse,
    embed: &FE,
    score: &FR,
    encode: &FS,
)
    requires
        answers(loaded, req, resp, embed, score, encode),
    ensures
        resp matches WorkerResponse::Embed(a) ==> (loaded matches LoadedModel::Embed(m)
            && req matches WorkerRequest::Embed(q) && call_ensures(
            embed,
            (&m, &q),
            Ok::<(Vec<Vec<u32>>, u32), String>((a.vectors, a.dims)),
        )),
        resp matches WorkerResponse::Rerank(a) ==> (loaded matches LoadedModel::Rerank(m)
            && req matches WorkerRequest::Rerank(q) && call_ensures(
            score,
            (&m, &q),
            Ok::<Vec<u32>, String>(a.scores),
        )),
        resp matches WorkerResponse::Splade(a) ==> (loaded matches LoadedModel::Splade(m)
            && req matches WorkerRequest::Splade(q) && call_ensures(
            encode,
            (&m, &q),
            Ok::<Vec<Vec<(u32, u32)>>, String>(a.sparse),
        )),
        resp matches WorkerResponse::Failed { message, .. } ==> {
            ||| (loaded matches LoadedModel::Embed(m) && req matches WorkerRequest::Embed(q)
                && call_ensures(
                embed,
                (&m, &q),
                Err::<(Vec<Vec<u32>>, u32), String>(message),
            ))
            ||| (loaded matches LoadedModel::Rerank(m) && req matches WorkerRequest::Rerank(q)
                && call_ensures(score, (&m, &q), Err::<Vec<u32>, String>(message)))
            ||| (loaded matches LoadedModel::Splade(m) && req matches WorkerRequest::Splade(q)
                && call_ensures(
                encode,
                (&m, &q),
                Err::<Vec<Vec<(u32, u32)>>, String>(message),
            ))
            ||| message@ == "kind mismatch: model is "@ + loaded.kind_name() + ", request is "@
                + req.kind_name() && loaded.kind_name() != req.kind_name()
        },
        loaded is Embed <==> loaded.kind_name() == "embed"@,
        loaded is Rerank <==> loaded.kind_name() == "rerank"@,
        loaded is Splade <==> loaded.kind_name() == "splade"@,
{
    reveal_strlit("embed");
    reveal_strlit("rerank");
    reveal_strlit("splade");
    assert("embed"@[0] == 'e' && "rerank"@[0] == 'r' && "splade"@[0] == 's');
}

/// A worker's settings are those of its variables: the model and the socket must
/// be given, and the numbers and the kind have defaults.
pub proof fn law_worker_settings(env: Map<Seq<char>, Seq<char>>, n: usize)
    ensures
        settings_of(env) is Ok <==> lookup(env, "EMBED_WORKER_MODEL"@) is Some && lookup(
            env,
            "EMBED_WORKER_SOCKET"@,
        ) is Some && (lookup(env, "EMBED_WORKER_INTRA_THREADS"@) matches Some(s) ==> parsed(
            s,
            usize::MAX as nat,
        ) is Ok) && (lookup(env, "EMBED_WORKER_POOL_SIZE"@) matches Some(s) ==> parsed(
            s,
            usize::MAX as nat,
        ) is Ok),
        settings_of(env) matches Ok(v) ==> {
            &&& lookup(env, "EMBED_WORKER_MODEL"@) == Some(v.model)
            &&& lookup(env, "EMBED_WORKER_SOCKET"@) == Some(v.socket_path)
            &&& lookup(env, "EMBED_WORKER_KIND"@) matches Some(k) ==> v.kind == k
            &&& lookup(env, "EMBED_WORKER_KIND"@) is None ==> v.kind == "embed"@
            &&& lookup(env, "EMBED_WORKER_INTRA_THREADS"@) is None ==> v.intra_threads == 2
            &&& lookup(env, "EMBED_WORKER_POOL_SIZE"@) is None ==> v.pool_size == 1
            &&& lookup(env, "EMBED_WORKER_INTRA_THREADS"@) == Some(decimal(n as nat))
                ==> v.intra_threads == n
            &&& lookup(env, "EMBED_WORKER_POOL_SIZE"@) == Some(decimal(n as nat)) ==> v.pool_size
                == n
            &&& v.max_waiters == max_waiters(env, v.pool_size, v.model)
        },
{
    crate::text::law_decimal_round_trip(n as nat, usize::MAX as nat);
}

/// The settings say what they hold.
pub proof fn law_worker_settings_view(s: WorkerSettings)
    ensures
        s@.kind == s.kind@,
        s@.model == s.model@,
        s@.socket_path == s.socket_path@,
        s@.intra_threads == s.intra_threads,
        s@.pool_size == s.pool_size,
        s@.max_waiters == s.max_waiters,
{
}

/// One request more waits, unless no larger number can be counted.
pub proof fn law_one_more(n: usize)
    ensures
        n < usize::MAX ==> one_more(n) == n + 1,
        n == usize::MAX ==> one_more(n) == n,
{
}

/// A depth is shown as it is, for its model, and a kind by its name, which no
/// other kind has.
pub proof fn law_depths_and_kinds(model: Seq<char>, depth: usize, a: WorkerKind, b: WorkerKind)
    ensures
        depth_update(model, depth).name == "embed_worker_queue_depth"@,
        depth_update(model, depth).labels == seq![("model"@, model)],
        depth_update(model, depth).change == Change::GaugeSet(Amount::Whole(depth as u128)),
        WorkerKind::Embed.name() == "embed"@,
        WorkerKind::Rerank.name() == "rerank"@,
        WorkerKind::Splade.name() == "splade"@,
        a.name() == b.name() ==> a == b,
{
    reveal_strlit("embed");
    reveal_strlit("rerank");
    reveal_strlit("splade");
    assert("embed"@[0] == 'e' && "rerank"@[0] == 'r' && "splade"@[0] == 's');
}

/// A worker that cannot be set up says which variable is missing, or why a
/// number cannot be read.
pub proof fn law_refused_settings_are_told(env: Map<Seq<char>, Seq<char>>)
    ensures
        ({
            let model: Option<Seq<char>> = lookup(env, "EMBED_WORKER_MODEL"@);
            let socket: Option<Seq<char>> = lookup(env, "EMBED_WORKER_SOCKET"@);
            let threads: Option<Seq<char>> = lookup(env, "EMBED_WORKER_INTRA_THREADS"@);
            let pool: Option<Seq<char>> = lookup(env, "EMBED_WORKER_POOL_SIZE"@);
            let r: Result<WorkerSettingsView, Seq<char>> = settings_of(env);
            &&& model is None ==> r == Err::<WorkerSettingsView, Seq<char>>(
                "required env var missing: "@ + "EMBED_WORKER_MODEL"@,
            )
            &&& model is Some && socket is None ==> r == Err::<WorkerSettingsView, Seq<char>>(
                "required env var missing: "@ + "EMBED_WORKER_SOCKET"@,
            )
            &&& model is Some && socket is Some ==> (threads matches Some(s) ==> (parsed(
                s,
                usize::MAX as nat,
            ) matches Err(e) ==> r == Err::<WorkerSettingsView, Seq<char>>(e.words())))
            &&& model is Some && socket is Some && threads is None ==> (pool matches Some(s) ==> (
            parsed(s, usize::MAX as nat) matches Err(e) ==> r == Err::<
                WorkerSettingsView,
                Seq<char>,
            >(e.words())))
        }),
{
}

} // verus!
