//! What is decided when the server starts: which workers to start, how many
//! rerank requests to let in at once, and which settings to warn about.
use vstd::prelude::*;
use vstd::string::*;
use crate::config::{
    env_key, model_env_key, pool_size_for, resolve_embed_pool_size_for_model, Config,
};
use crate::env::{lookup, EnvVars};
use crate::reply::{is_name, names_view};
use crate::text::{
    decimal, has_prefix, parse_u16, parse_up_to, parse_usize, parsed, push_decimal, starts_with,
    trim, trimmed,
};
use crate::worker::WorkerKind;

verus! {

broadcast use group_string_axioms;

/// The port at which a worker publishes its metrics: the base port and the
/// worker's number. There is none where there is no base port, or where the
/// sum is no port.
pub fn worker_metrics_port(base: Option<u16>, index: u16) -> (r: Option<u16>)
    ensures
        r == match base {
            Some(b) => if b + index <= u16::MAX {
                Some((b + index) as u16)
            } else {
                None
            },
            None => None,
        },
{
    match base {
        Some(b) => b.checked_add(index),
        None => None,
    }
}

/// Two workers never share a port.
pub proof fn law_worker_ports_are_distinct(base: u16, i: u16, j: u16)
    requires
        i != j,
        base + i <= u16::MAX,
        base + j <= u16::MAX,
    ensures
        (base + i) as u16 != (base + j) as u16,
{
}

/// The base port of the workers' metrics, if the setting is a port.
pub open spec fn port_base(raw: Option<Seq<char>>) -> Option<u16> {
    match raw {
        None => None,
        Some(s) => match parsed(trimmed(s), u16::MAX as nat) {
            Ok(n) => Some(n as u16),
            Err(_) => None,
        },
    }
}

fn read_port_base(env: &EnvVars) -> (r: Option<u16>)
    ensures
        r == port_base(lookup(env@, "EMBED_WORKER_METRICS_PORT_BASE"@)),
{
    match env.get("EMBED_WORKER_METRICS_PORT_BASE") {
        None => None,
        Some(s) => match parse_u16(trim(s)) {
            Ok(n) => Some(n),
            Err(_) => None,
        },
    }
}

/// `a * b`, but no more than the largest `usize`.
pub open spec fn product(a: usize, b: usize) -> usize {
    if a * b > usize::MAX {
        usize::MAX
    } else {
        (a * b) as usize
    }
}

/// How many rerank requests are let in at once; `None` where there is no limit.
/// Without a setting it is eight for each thread of each session, and at least
/// sixteen. A setting of `0` takes the limit away.
pub open spec fn rerank_limit(pool_size: usize, threads: usize, raw: Option<Seq<char>>) -> Option<
    usize,
> {
    let auto: usize = product(product(pool_size, threads), 8);
    let default: Option<usize> = if auto < 16 {
        Some(16)
    } else {
        Some(auto)
    };
    match raw {
        None => default,
        Some(s) => match parsed(s, usize::MAX as nat) {
            Ok(n) => if n == 0 {
                None
            } else {
                Some(n as usize)
            },
            Err(_) => default,
        },
    }
}

fn multiplied(a: usize, b: usize) -> (r: usize)
    ensures
        r == product(a, b),
{
    match a.checked_mul(b) {
        Some(n) => n,
        None => usize::MAX,
    }
}

/// How many rerank requests are let in at once.
pub fn rerank_permits(cfg: &Config, env: &EnvVars) -> (r: Option<usize>)
    ensures
        r == rerank_limit(
            cfg.reranker_pool_size,
            cfg.reranker_intra_threads,
            lookup(env@, "MAX_CONCURRENT_RERANK_REQUESTS"@),
        ),
{
    let product: usize = multiplied(
        multiplied(cfg.reranker_pool_size, cfg.reranker_intra_threads),
        8,
    );
    let auto: usize = if product < 16 {
        16
    } else {
        product
    };
    match env.get("MAX_CONCURRENT_RERANK_REQUESTS") {
        None => Some(auto),
        Some(s) => match parse_usize(s) {
            Ok(n) => if n == 0 {
                None
            } else {
                Some(n)
            },
            Err(_) => Some(auto),
        },
    }
}

/// A limit always lets something in.
pub proof fn law_rerank_limit_is_positive(
    pool_size: usize,
    threads: usize,
    raw: Option<Seq<char>>,
)
    ensures
        rerank_limit(pool_size, threads, raw) matches Some(n) ==> n >= 1,
        raw is None ==> (rerank_limit(pool_size, threads, raw) matches Some(n) && n >= 16),
{
}

/// A variable that looks like a setting for one model, but has no effect.
pub open spec fn has_no_effect(key: Seq<char>) -> bool {
    has_prefix(key, "RERANKER_SESSION_POOL_SIZE_"@) || has_prefix(
        key,
        "SPLADE_SESSION_POOL_SIZE_"@,
    )
}

/// The keys for which `p` holds, in order.
pub open spec fn picked(keys: Seq<Seq<char>>, p: spec_fn(Seq<char>) -> bool) -> Seq<Seq<char>>
    decreases keys.len(),
{
    if keys.len() == 0 {
        Seq::empty()
    } else {
        let rest: Seq<Seq<char>> = picked(keys.drop_last(), p);
        if p(keys.last()) {
            rest.push(keys.last())
        } else {
            rest
        }
    }
}

/// The keys of an environment.
pub open spec fn keys_of(env: &EnvVars) -> Seq<Seq<char>> {
    env.entries().map_values(|e: (String, String)| e.0@)
}

/// The variables that have no effect.
pub fn ignored_overrides(env: &EnvVars) -> (r: Vec<String>)
    ensures
        names_view(r@) == picked(keys_of(env), |k: Seq<char>| has_no_effect(k)),
{
    let ghost p = |k: Seq<char>| has_no_effect(k);
    let mut out: Vec<String> = Vec::new();
    let mut i: usize = 0;
    let n: usize = env.len();
    assert(keys_of(env).take(0) =~= Seq::empty());
    assert(names_view(out@) =~= Seq::empty());
    while i < n
        invariant
            i <= n,
            n == env.entries().len(),
            p == (|k: Seq<char>| has_no_effect(k)),
            names_view(out@) == picked(keys_of(env).take(i as int), p),
        decreases n - i,
    {
        proof {
            assert(keys_of(env).take(i + 1).drop_last() =~= keys_of(env).take(i as int));
        }
        let key: &str = env.key(i);
        if starts_with(key, "RERANKER_SESSION_POOL_SIZE_") || starts_with(
            key,
            "SPLADE_SESSION_POOL_SIZE_",
        ) {
            let ghost before: Seq<String> = out@;
            out.push(key.to_owned());
            assert(names_view(out@) =~= names_view(before).push(key@));
        }
        i = i + 1;
    }
    assert(keys_of(env).take(i as int) =~= keys_of(env));
    out
}

/// The names of all models, embedding models first, sparse encoders last.
pub open spec fn all_model_names(cfg: Config) -> Seq<Seq<char>> {
    Seq::new(cfg.models@.len(), |i: int| cfg.models@[i].name@) + Seq::new(
        cfg.rerankers@.len(),
        |i: int| cfg.rerankers@[i].name@,
    ) + Seq::new(cfg.splades@.len(), |i: int| cfg.splades@[i].name@)
}

/// The environment keys of all models.
pub open spec fn all_model_keys(cfg: Config) -> Seq<Seq<char>> {
    all_model_names(cfg).map_values(|n: Seq<char>| env_key(n))
}

/// A setting of how many requests may wait, for a model that is not there.
pub open spec fn is_unknown_waiter(key: Seq<char>, keys: Seq<Seq<char>>) -> bool {
    has_prefix(key, "EMBED_MAX_WAITERS_"@) && !keys.contains(
        key.skip("EMBED_MAX_WAITERS_"@.len() as int),
    )
}

fn known_keys(cfg: &Config) -> (r: Vec<String>)
    ensures
        names_view(r@) == all_model_keys(*cfg),
{
    let mut out: Vec<String> = Vec::new();
    let ghost names: Seq<Seq<char>> = all_model_names(*cfg);
    let ghost keys: Seq<Seq<char>> = all_model_keys(*cfg);
    let mut i: usize = 0;
    assert(names_view(out@) =~= keys.take(0));
    while i < cfg.models.len()
        invariant
            i <= cfg.models.len(),
            names == all_model_names(*cfg),
            keys == all_model_keys(*cfg),
            names_view(out@) == keys.take(i as int),
        decreases cfg.models.len() - i,
    {
        let ghost before: Seq<String> = out@;
        out.push(model_env_key(cfg.models[i].name.as_str()));
        proof {
            assert(names[i as int] == cfg.models@[i as int].name@);
            assert(names_view(out@) =~= names_view(before).push(keys[i as int]));
            assert(keys.take(i + 1) =~= keys.take(i as int).push(keys[i as int]));
        }
        i = i + 1;
    }
    let ghost m: int = cfg.models@.len() as int;
    let mut j: usize = 0;
    while j < cfg.rerankers.len()
        invariant
            j <= cfg.rerankers.len(),
            m == cfg.models@.len(),
            names == all_model_names(*cfg),
            keys == all_model_keys(*cfg),
            names_view(out@) == keys.take(m + j),
        decreases cfg.rerankers.len() - j,
    {
        let ghost before: Seq<String> = out@;
        out.push(model_env_key(cfg.rerankers[j].name.as_str()));
        proof {
            assert(names[m + j] == cfg.rerankers@[j as int].name@);
            assert(names_view(out@) =~= names_view(before).push(keys[m + j]));
            assert(keys.take(m + j + 1) =~= keys.take(m + j).push(keys[m + j]));
        }
        j = j + 1;
    }
    let ghost q: int = m + cfg.rerankers@.len();
    let mut k: usize = 0;
    while k < cfg.splades.len()
        invariant
            k <= cfg.splades.len(),
            q == cfg.models@.len() + cfg.rerankers@.len(),
            names == all_model_names(*cfg),
            keys == all_model_keys(*cfg),
            names_view(out@) == keys.take(q + k),
        decreases cfg.splades.len() - k,
    {
        let ghost before: Seq<String> = out@;
        out.push(model_env_key(cfg.splades[k].name.as_str()));
        proof {
            assert(names[q + k] == cfg.splades@[k as int].name@);
            assert(names_view(out@) =~= names_view(before).push(keys[q + k]));
            assert(keys.take(q + k + 1) =~= keys.take(q + k).push(keys[q + k]));
        }
        k = k + 1;
    }
    assert(keys.take(q + k) =~= keys);
    out
}

/// The settings of how many requests may wait for models that are not there:
/// most likely a key is misspelt.
pub fn unknown_waiter_settings(env: &EnvVars, cfg: &Config) -> (r: Vec<String>)
    ensures
        names_view(r@) == picked(
            keys_of(env),
            |k: Seq<char>| is_unknown_waiter(k, all_model_keys(*cfg)),
        ),
{
    let known: Vec<String> = known_keys(cfg);
    let ghost p = |k: Seq<char>| is_unknown_waiter(k, all_model_keys(*cfg));
    let mut out: Vec<String> = Vec::new();
    let mut i: usize = 0;
    let n: usize = env.len();
    assert(keys_of(env).take(0) =~= Seq::empty());
    assert(names_view(out@) =~= Seq::empty());
    while i < n
        invariant
            i <= n,
            n == env.entries().len(),
            names_view(known@) == all_model_keys(*cfg),
            p == (|k: Seq<char>| is_unknown_waiter(k, all_model_keys(*cfg))),
            names_view(out@) == picked(keys_of(env).take(i as int), p),
        decreases n - i,
    {
        proof {
            assert(keys_of(env).take(i + 1).drop_last() =~= keys_of(env).take(i as int));
            assert(keys_of(env).take(i + 1).last() == env.entries()[i as int].0@);
        }
        let key: &str = env.key(i);
        let prefix: &str = "EMBED_MAX_WAITERS_";
        if starts_with(key, prefix) {
            let from: usize = prefix.unicode_len();
            let to: usize = key.unicode_len();
            let suffix: &str = key.substring_char(from, to);
            assert(suffix@ =~= key@.skip(from as int));
            if !is_name(&known, suffix) {
                let ghost before: Seq<String> = out@;
                out.push(key.to_owned());
                assert(names_view(out@) =~= names_view(before).push(key@));
            }
        }
        i = i + 1;
    }
    assert(keys_of(env).take(i as int) =~= keys_of(env));
    out
}

/// A worker to start.
#[derive(Debug)]
pub struct SpawnSpec {
    pub model: String,
    pub kind: WorkerKind,
    pub worker_bin: String,
    pub socket_dir: String,
    pub pool_size: usize,
    pub intra_threads: usize,
    /// Variables that the worker gets in addition to the server's own.
    pub env_extra: Vec<(String, String)>,
}

/// What a [`SpawnSpec`] says.
#[verifier::ext_equal]
pub struct SpawnSpecView {
    pub model: Seq<char>,
    pub kind: WorkerKind,
    pub worker_bin: Seq<char>,
    pub socket_dir: Seq<char>,
    pub pool_size: usize,
    pub intra_threads: usize,
    pub env_extra: Seq<(Seq<char>, Seq<char>)>,
}

impl View for SpawnSpec {
    type V = SpawnSpecView;

    open spec fn view(&self) -> SpawnSpecView {
        SpawnSpecView {
            model: self.model@,
            kind: self.kind,
            worker_bin: self.worker_bin@,
            socket_dir: self.socket_dir@,
            pool_size: self.pool_size,
            intra_threads: self.intra_threads,
            env_extra: self.env_extra@.map_values(|e: (String, String)| (e.0@, e.1@)),
        }
    }
}

/// The number of the worker at a place; numbers end at the largest `u16`.
pub open spec fn worker_number(place: nat) -> u16 {
    if place <= u16::MAX {
        place as u16
    } else {
        u16::MAX
    }
}

/// The variables that the worker at a place gets: the port of its metrics, if
/// it has one.
pub open spec fn extra_of(base: Option<u16>, place: nat) -> Seq<(Seq<char>, Seq<char>)> {
    match base {
        Some(b) => if b + worker_number(place) <= u16::MAX {
            seq![("EMBED_WORKER_METRICS_PORT"@, decimal((b + worker_number(place)) as nat))]
        } else {
            Seq::empty()
        },
        None => Seq::empty(),
    }
}

/// `n`, but at least one.
pub open spec fn at_least_one(n: usize) -> usize {
    if n == 0 {
        1
    } else {
        n
    }
}

/// The worker at a place: the embedding models come first, then the rerankers,
/// then the sparse encoders.
pub open spec fn worker_at(
    cfg: Config,
    env: Map<Seq<char>, Seq<char>>,
    place: int,
) -> SpawnSpecView {
    let base: Option<u16> = port_base(lookup(env, "EMBED_WORKER_METRICS_PORT_BASE"@));
    let m: int = cfg.models@.len() as int;
    let q: int = m + cfg.rerankers@.len();
    let (model, kind, pool_size, intra_threads) = if place < m {
        (
            cfg.models@[place].name@,
            WorkerKind::Embed,
            pool_size_for(
                env,
                cfg.models@[place].name@,
                lookup(env, "EMBED_SESSION_POOL_SIZE"@),
            ),
            cfg.intra_threads,
        )
    } else if place < q {
        (
            cfg.rerankers@[place - m].name@,
            WorkerKind::Rerank,
            at_least_one(cfg.reranker_pool_size),
            at_least_one(cfg.reranker_intra_threads),
        )
    } else {
        (
            cfg.splades@[place - q].name@,
            WorkerKind::Splade,
            at_least_one(cfg.splade_pool_size),
            at_least_one(cfg.splade_intra_threads),
        )
    };
    SpawnSpecView {
        model,
        kind,
        worker_bin: cfg.worker_bin_path@,
        socket_dir: cfg.worker_socket_dir@,
        pool_size,
        intra_threads,
        env_extra: extra_of(base, place as nat),
    }
}

fn extra_vars(base: Option<u16>, number: u16) -> (r: Vec<(String, String)>)
    ensures
        r@.map_values(|e: (String, String)| (e.0@, e.1@)) == extra_of(base, number as nat),
{
    let mut out: Vec<(String, String)> = Vec::new();
    match worker_metrics_port(base, number) {
        Some(port) => {
            let mut text: String = String::new();
            push_decimal(&mut text, port as u64);
            assert(text@ =~= decimal(port as nat));
            out.push(("EMBED_WORKER_METRICS_PORT".to_owned(), text));
        },
        None => {},
    }
    assert(out@.map_values(|e: (String, String)| (e.0@, e.1@)) =~= extra_of(
        base,
        number as nat,
    ));
    out
}

fn floor_one(n: usize) -> (r: usize)
    ensures
        r == at_least_one(n),
{
    if n == 0 {
        1
    } else {
        n
    }
}

/// The workers to start, in order.
pub fn spawn_specs(cfg: &Config, env: &EnvVars) -> (r: Vec<SpawnSpec>)
    ensures
        r@.len() == cfg.models@.len() + cfg.rerankers@.len() + cfg.splades@.len(),
        forall|p: int| 0 <= p < r@.len() ==> (#[trigger] r@[p])@ == worker_at(*cfg, env@, p),
{
    let base: Option<u16> = read_port_base(env);
    let mut specs: Vec<SpawnSpec> = Vec::new();
    let mut number: u16 = 0;
    let mut i: usize = 0;
    while i < cfg.models.len()
        invariant
            i <= cfg.models.len(),
            base == port_base(lookup(env@, "EMBED_WORKER_METRICS_PORT_BASE"@)),
            specs@.len() == i,
            number == worker_number(specs@.len()),
            forall|p: int| 0 <= p < specs@.len() ==> (#[trigger] specs@[p])@ == worker_at(
                *cfg,
                env@,
                p,
            ),
        decreases cfg.models.len() - i,
    {
        let name: &str = cfg.models[i].name.as_str();
        let spec: SpawnSpec = SpawnSpec {
            model: cfg.models[i].name.clone(),
            kind: WorkerKind::Embed,
            worker_bin: cfg.worker_bin_path.clone(),
            socket_dir: cfg.worker_socket_dir.clone(),
            pool_size: resolve_embed_pool_size_for_model(
                env,
                name,
                env.get("EMBED_SESSION_POOL_SIZE"),
            ),
            intra_threads: cfg.intra_threads,
            env_extra: extra_vars(base, number),
        };
        assert(spec@ =~= worker_at(*cfg, env@, i as int));
        specs.push(spec);
        number = number.saturating_add(1);
        i = i + 1;
    }
    let ghost m: int = cfg.models@.len() as int;
    let mut j: usize = 0;
    while j < cfg.rerankers.len()
        invariant
            j <= cfg.rerankers.len(),
            m == cfg.models@.len(),
            base == port_base(lookup(env@, "EMBED_WORKER_METRICS_PORT_BASE"@)),
            specs@.len() == m + j,
            number == worker_number(specs@.len()),
            forall|p: int| 0 <= p < specs@.len() ==> (#[trigger] specs@[p])@ == worker_at(
                *cfg,
                env@,
                p,
            ),
        decreases cfg.rerankers.len() - j,
    {
        let spec: SpawnSpec = SpawnSpec {
            model: cfg.rerankers[j].name.clone(),
            kind: WorkerKind::Rerank,
            worker_bin: cfg.worker_bin_path.clone(),
            socket_dir: cfg.worker_socket_dir.clone(),
            pool_size: floor_one(cfg.reranker_pool_size),
            intra_threads: floor_one(cfg.reranker_intra_threads),
            env_extra: extra_vars(base, number),
        };
        assert(spec@ =~= worker_at(*cfg, env@, m + j));
        specs.push(spec);
        number = number.saturating_add(1);
        j = j + 1;
    }
    let ghost q: int = m + cfg.rerankers@.len();
    let mut k: usize = 0;
    while k < cfg.splades.len()
        invariant
            k <= cfg.splades.len(),
            q == cfg.models@.len() + cfg.rerankers@.len(),
            base == port_base(lookup(env@, "EMBED_WORKER_METRICS_PORT_BASE"@)),
            specs@.len() == q + k,
            number == worker_number(specs@.len()),
            forall|p: int| 0 <= p < specs@.len() ==> (#[trigger] specs@[p])@ == worker_at(
                *cfg,
                env@,
                p,
            ),
        decreases cfg.splades.len() - k,
    {
        let spec: SpawnSpec = SpawnSpec {
            model: cfg.splades[k].name.clone(),
            kind: WorkerKind::Splade,
            worker_bin: cfg.worker_bin_path.clone(),
            socket_dir: cfg.worker_socket_dir.clone(),
            pool_size: floor_one(cfg.splade_pool_size),
            intra_threads: floor_one(cfg.splade_intra_threads),
            env_extra: extra_vars(base, number),
        };
        assert(spec@ =~= worker_at(*cfg, env@, q + k));
        specs.push(spec);
        number = number.saturating_add(1);
        k = k + 1;
    }
    specs
}

/// How many milliseconds to wait before the worker at a place is started: none
/// before the first, and none at all where the setting is `0`.
pub fn spawn_delay_ms(env: &EnvVars, place: usize) -> (r: u64)
    ensures
        r == if place == 0 {
            0
        } else {
            match lookup(env@, "EMBED_WORKER_SPAWN_DELAY_MS"@) {
                None => 2000,
                Some(s) => match parsed(trimmed(s), u64::MAX as nat) {
                    Ok(n) => n as u64,
                    Err(_) => 2000,
                },
            }
        },
{
    if place == 0 {
        return 0;
    }
    match env.get("EMBED_WORKER_SPAWN_DELAY_MS") {
        None => 2000,
        Some(s) => match parse_up_to(trim(s), u64::MAX) {
            Ok(n) => n,
            Err(_) => 2000,
        },
    }
}

/// Every model gets exactly one worker, at the place of its name.
pub proof fn law_each_model_has_its_worker(
    cfg: Config,
    env: Map<Seq<char>, Seq<char>>,
    place: int,
)
    requires
        0 <= place < all_model_names(cfg).len(),
    ensures
        all_model_names(cfg).len() == cfg.models@.len() + cfg.rerankers@.len() + cfg.splades@.len(),
        worker_at(cfg, env, place).model == all_model_names(cfg)[place],
        worker_at(cfg, env, place).pool_size >= 1,
{
}

/// A base port is read back as it is written.
pub proof fn law_port_base(s: Seq<char>, port: u16)
    ensures
        port_base(None) is None,
        trimmed(s) == decimal(port as nat) ==> port_base(Some(s)) == Some(port),
        parsed(trimmed(s), u16::MAX as nat) is Err ==> port_base(Some(s)) is None,
{
    crate::text::law_decimal_round_trip(port as nat, u16::MAX as nat);
}

/// A product that fits is exact, and one that does not is the largest number.
pub proof fn law_products(a: usize, b: usize)
    ensures
        a * b <= usize::MAX ==> product(a, b) == a * b,
        a * b > usize::MAX ==> product(a, b) == usize::MAX,
{
}

/// How many rerank requests are let in at once: the number that is set, none at
/// all counted where it is `0`, and otherwise eight for each thread of each
/// session, but no fewer than sixteen.
pub proof fn law_rerank_limits(pool_size: usize, threads: usize, s: Seq<char>, n: usize)
    ensures
        n > 0 && s == decimal(n as nat) ==> rerank_limit(pool_size, threads, Some(s)) == Some(n),
        s == decimal(0) ==> rerank_limit(pool_size, threads, Some(s)) is None,
        parsed(s, usize::MAX as nat) is Err ==> rerank_limit(pool_size, threads, Some(s))
            == rerank_limit(pool_size, threads, None),
        pool_size * threads * 8 < 16 ==> rerank_limit(pool_size, threads, None) == Some(16usize),
        16 <= pool_size * threads * 8 <= usize::MAX ==> (rerank_limit(
            pool_size,
            threads,
            None,
        ) matches Some(k) && k == pool_size * threads * 8),
        pool_size * threads * 8 > usize::MAX ==> rerank_limit(pool_size, threads, None) == Some(
            usize::MAX,
        ),
{
    crate::text::law_decimal_round_trip(n as nat, usize::MAX as nat);
    crate::text::law_decimal_round_trip(0, usize::MAX as nat);
    assert(pool_size * threads >= 0) by (nonlinear_arith)
        requires
            pool_size >= 0,
            threads >= 0,
    ;
}

/// The settings that are warned about are those that match, each one, in their
/// order.
pub proof fn law_settings_are_picked_one_by_one(
    keys: Seq<Seq<char>>,
    key: Seq<char>,
    p: spec_fn(Seq<char>) -> bool,
)
    ensures
        picked(Seq::empty(), p).len() == 0,
        p(key) ==> picked(keys.push(key), p) == picked(keys, p).push(key),
        !p(key) ==> picked(keys.push(key), p) == picked(keys, p),
{
    assert(keys.push(key).drop_last() =~= keys);
}

/// A session count for one reranker or one splade model has no effect, and a
/// number of waiters has none for a model that there is not.
pub proof fn law_settings_without_effect(name: Seq<char>, key: Seq<char>, keys: Seq<Seq<char>>)
    ensures
        has_no_effect("RERANKER_SESSION_POOL_SIZE_"@ + name),
        has_no_effect("SPLADE_SESSION_POOL_SIZE_"@ + name),
        has_no_effect(key) ==> has_prefix(key, "RERANKER_SESSION_POOL_SIZE_"@) || has_prefix(
            key,
            "SPLADE_SESSION_POOL_SIZE_"@,
        ),
        is_unknown_waiter("EMBED_MAX_WAITERS_"@ + name, keys) <==> !keys.contains(name),
        is_unknown_waiter(key, keys) ==> has_prefix(key, "EMBED_MAX_WAITERS_"@),
{
    crate::text::law_holding_a_text(Seq::empty(), "RERANKER_SESSION_POOL_SIZE_"@, name);
    crate::text::law_holding_a_text(Seq::empty(), "SPLADE_SESSION_POOL_SIZE_"@, name);
    crate::text::law_holding_a_text(Seq::empty(), "EMBED_MAX_WAITERS_"@, name);
    let whole: Seq<char> = "EMBED_MAX_WAITERS_"@ + name;
    assert(whole.skip("EMBED_MAX_WAITERS_"@.len() as int) =~= name);
}

/// The models are the embedders, then the rerankers, then the splade models,
/// each under the key of its name.
pub proof fn law_all_models(cfg: Config, i: int)
    ensures
        ({
            let m: int = cfg.models@.len() as int;
            let q: int = m + cfg.rerankers@.len();
            let n: int = q + cfg.splades@.len();
            &&& all_model_names(cfg).len() == n
            &&& all_model_keys(cfg).len() == n
            &&& 0 <= i < m ==> all_model_names(cfg)[i] == cfg.models@[i].name@
            &&& m <= i < q ==> all_model_names(cfg)[i] == cfg.rerankers@[i - m].name@
            &&& q <= i < n ==> all_model_names(cfg)[i] == cfg.splades@[i - q].name@
            &&& 0 <= i < n ==> all_model_keys(cfg)[i] == env_key(all_model_names(cfg)[i])
        }),
{
}

/// A worker is started with the binary, the directory, the sessions and the
/// threads of the configuration, each for its kind, and with a port of its own.
pub proof fn law_worker_is_started_as_configured(
    cfg: Config,
    env: Map<Seq<char>, Seq<char>>,
    place: int,
    base: u16,
)
    requires
        0 <= place < cfg.models@.len() + cfg.rerankers@.len() + cfg.splades@.len(),
    ensures
        ({
            let m: int = cfg.models@.len() as int;
            let q: int = m + cfg.rerankers@.len();
            let w: SpawnSpecView = worker_at(cfg, env, place);
            &&& w.worker_bin == cfg.worker_bin_path@
            &&& w.socket_dir == cfg.worker_socket_dir@
            &&& place < m ==> w.kind is Embed && w.model == cfg.models@[place].name@
                && w.intra_threads == cfg.intra_threads && w.pool_size == pool_size_for(
                env,
                w.model,
                lookup(env, "EMBED_SESSION_POOL_SIZE"@),
            )
            &&& m <= place < q ==> {
                &&& w.kind is Rerank
                &&& w.model == cfg.rerankers@[place - m].name@
                &&& cfg.reranker_pool_size > 0 ==> w.pool_size == cfg.reranker_pool_size
                &&& cfg.reranker_intra_threads > 0 ==> w.intra_threads
                    == cfg.reranker_intra_threads
                &&& w.pool_size >= 1 && w.intra_threads >= 1
                &&& cfg.reranker_pool_size == 0 ==> w.pool_size == 1
                &&& cfg.reranker_intra_threads == 0 ==> w.intra_threads == 1
            }
            &&& q <= place ==> {
                &&& w.kind is Splade
                &&& w.model == cfg.splades@[place - q].name@
                &&& cfg.splade_pool_size > 0 ==> w.pool_size == cfg.splade_pool_size
                &&& cfg.splade_intra_threads > 0 ==> w.intra_threads == cfg.splade_intra_threads
                &&& w.pool_size >= 1 && w.intra_threads >= 1
                &&& cfg.splade_pool_size == 0 ==> w.pool_size == 1
                &&& cfg.splade_intra_threads == 0 ==> w.intra_threads == 1
            }
            &&& port_base(lookup(env, "EMBED_WORKER_METRICS_PORT_BASE"@)) is None
                ==> w.env_extra.len() == 0
            &&& port_base(lookup(env, "EMBED_WORKER_METRICS_PORT_BASE"@)) == Some(base) ==> {
                &&& base + place <= u16::MAX ==> w.env_extra == seq![
                    ("EMBED_WORKER_METRICS_PORT"@, decimal((base + place) as nat)),
                ]
                &&& base + place > u16::MAX && (base > 0 || place < u16::MAX)
                    ==> w.env_extra.len() == 0
            }
        }),
{
}

/// A specification says what it holds.
pub proof fn law_worker_views(s: SpawnSpec, i: int)
    ensures
        s@.model == s.model@,
        s@.kind == s.kind,
        s@.worker_bin == s.worker_bin@,
        s@.socket_dir == s.socket_dir@,
        s@.pool_size == s.pool_size,
        s@.intra_threads == s.intra_threads,
        s@.env_extra.len() == s.env_extra@.len(),
        0 <= i < s.env_extra@.len() ==> s@.env_extra[i] == (
            s.env_extra@[i].0@,
            s.env_extra@[i].1@,
        ),
{
}

/// The settings that are looked at are the names of the variables, in the order
/// in which they were set.
pub proof fn law_names_of_variables(env: EnvVars, i: int)
    ensures
        keys_of(&env).len() == env.entries().len(),
        0 <= i < env.entries().len() ==> keys_of(&env)[i] == env.entries()[i].0@,
{
}

} // verus!
