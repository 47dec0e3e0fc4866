//! The shared memory arena: its settings, and its registration before any
//! session is made.
use vstd::prelude::*;
use vstd::string::*;
use crate::config::{env_key, model_env_key};
use crate::env::{lookup, EnvVars};
use crate::metrics::{
    plain, record_arena_register_skipped, set_arena_gauges, Amount, Change, MetricLog, UpdateView,
};
use crate::text::{
    decimal, is_digit, parse_i32, parse_up_to, parsed, parsed_i32, same, trim, trimmed, uppercase,
    uppercase_of,
};

verus! {

broadcast use group_string_axioms;

/// Arena memory without a setting: 6 GiB.
pub const DEFAULT_MAX_MEM_BYTES: u64 = 6442450944;

/// First chunk without a setting: 1 MiB.
pub const DEFAULT_INITIAL_CHUNK_BYTES: u64 = 1048576;

/// Dead bytes per chunk without a setting: 64 MiB.
pub const DEFAULT_MAX_DEAD_BYTES: u64 = 67108864;

/// Extension strategy without a setting: as much as is asked for.
pub const DEFAULT_EXTEND_STRATEGY: i32 = 1;

/// The settings of the arena.
#[derive(Clone, Copy, Debug, PartialEq, Eq, Structural)]
pub struct ArenaCfg {
    pub max_mem_bytes: u64,
    pub initial_chunk_bytes: u64,
    pub max_dead_bytes: u64,
    pub extend_strategy: i32,
}

/// What is wrong with a setting.
#[derive(Clone, Copy, Debug, PartialEq, Eq, Structural)]
pub enum SettingError {
    /// It does not begin with a number.
    NotANumber,
    /// The number is followed by something that is no unit.
    UnknownSuffix,
    /// It is too large.
    TooLarge,
    /// It is no integer.
    NotAnInteger,
}

/// What is wrong with the settings of the arena.
#[derive(Debug)]
pub enum ArenaError {
    /// The variable holds no valid setting.
    Setting { key: String, error: SettingError },
    /// The strategy is none that there is.
    Strategy(i32),
    /// The arena would not hold its first chunk.
    MaxBelowInitial { max_mem_bytes: u64, initial_chunk_bytes: u64 },
}

/// What an [`ArenaError`] says.
pub enum ArenaErrorView {
    Setting { key: Seq<char>, error: SettingError },
    Strategy(i32),
    MaxBelowInitial { max_mem_bytes: u64, initial_chunk_bytes: u64 },
}

impl View for ArenaError {
    type V = ArenaErrorView;

    open spec fn view(&self) -> ArenaErrorView {
        match self {
            ArenaError::Setting { key, error } => ArenaErrorView::Setting {
                key: key@,
                error: *error,
            },
            ArenaError::Strategy(n) => ArenaErrorView::Strategy(*n),
            ArenaError::MaxBelowInitial {
                max_mem_bytes,
                initial_chunk_bytes,
            } => ArenaErrorView::MaxBelowInitial {
                max_mem_bytes: *max_mem_bytes,
                initial_chunk_bytes: *initial_chunk_bytes,
            },
        }
    }
}

/// The number of digits at the start of a text.
pub open spec fn leading_digits(s: Seq<char>) -> nat
    decreases s.len(),
{
    if s.len() > 0 && is_digit(s[0]) {
        leading_digits(s.drop_first()) + 1
    } else {
        0
    }
}

/// The factor of a unit: nothing and `B` for bytes, `K`, `M` and `G` with or
/// without `IB`.
pub open spec fn unit(suffix: Seq<char>) -> Option<nat> {
    if suffix == ""@ || suffix == "B"@ {
        Some(1)
    } else if suffix == "K"@ || suffix == "KIB"@ {
        Some(1024)
    } else if suffix == "M"@ || suffix == "MIB"@ {
        Some(1048576)
    } else if suffix == "G"@ || suffix == "GIB"@ {
        Some(1073741824)
    } else {
        None
    }
}

/// A number of bytes: digits, and a unit behind them in any case of letters.
pub open spec fn bytes_of(s: Seq<char>) -> Result<nat, SettingError> {
    let n: int = leading_digits(s) as int;
    match parsed(s.take(n), u64::MAX as nat) {
        Err(_) => Err(SettingError::NotANumber),
        Ok(mantissa) => match unit(uppercase_of(trimmed(s.skip(n)))) {
            None => Err(SettingError::UnknownSuffix),
            Some(factor) => if mantissa * factor > u64::MAX {
                Err(SettingError::TooLarge)
            } else {
                Ok(mantissa * factor)
            },
        },
    }
}

proof fn lemma_leading_digits(s: Seq<char>, n: int)
    requires
        0 <= n <= s.len(),
        forall|i: int| 0 <= i < n ==> is_digit(#[trigger] s[i]),
        n == s.len() || !is_digit(s[n]),
    ensures
        leading_digits(s) == n,
    decreases n,
{
    if n > 0 {
        assert(is_digit(s[0]));
        lemma_leading_digits(s.drop_first(), n - 1);
    }
}

fn count_digits(s: &str) -> (r: usize)
    ensures
        r == leading_digits(s@),
        r <= s@.len(),
{
    let chars: Vec<char> = crate::text::chars_of(s);
    let mut n: usize = 0;
    while n < chars.len() && '0' <= chars[n] && chars[n] <= '9'
        invariant
            n <= chars.len(),
            chars@ == s@,
            forall|i: int| 0 <= i < n ==> is_digit(#[trigger] s@[i]),
        decreases chars.len() - n,
    {
        n = n + 1;
    }
    proof {
        lemma_leading_digits(s@, n as int);
    }
    n
}

fn read_unit(suffix: &str) -> (r: Option<u64>)
    ensures
        match (r, unit(suffix@)) {
            (Some(a), Some(b)) => a == b && a <= 1073741824,
            (None, None) => true,
            _ => false,
        },
{
    if same(suffix, "") || same(suffix, "B") {
        Some(1)
    } else if same(suffix, "K") || same(suffix, "KIB") {
        Some(1024)
    } else if same(suffix, "M") || same(suffix, "MIB") {
        Some(1048576)
    } else if same(suffix, "G") || same(suffix, "GIB") {
        Some(1073741824)
    } else {
        None
    }
}

fn read_bytes(s: &str) -> (r: Result<u64, SettingError>)
    ensures
        match (r, bytes_of(s@)) {
            (Ok(a), Ok(b)) => a == b,
            (Err(e), Err(f)) => e == f,
            _ => false,
        },
{
    let n: usize = count_digits(s);
    let len: usize = s.unicode_len();
    let digits: &str = s.substring_char(0, n);
    let rest: &str = s.substring_char(n, len);
    proof {
        assert(digits@ =~= s@.take(n as int));
        assert(rest@ =~= s@.skip(n as int));
    }
    let mantissa: u64 = match parse_up_to(digits, u64::MAX) {
        Ok(m) => m,
        Err(_) => return Err(SettingError::NotANumber),
    };
    let suffix: String = uppercase(trim(rest));
    let factor: u64 = match read_unit(suffix.as_str()) {
        Some(f) => f,
        None => return Err(SettingError::UnknownSuffix),
    };
    match mantissa.checked_mul(factor) {
        Some(v) => Ok(v),
        None => Err(SettingError::TooLarge),
    }
}

/// Reads a number of bytes that is known to be one. `_env_key` names the
/// variable that it came from.
pub fn parse_bytes_with_suffix(_env_key: &str, s: &str) -> (r: u64)
    requires
        bytes_of(s@) is Ok,
    ensures
        r == bytes_of(s@)->Ok_0,
{
    match read_bytes(s) {
        Ok(n) => n,
        Err(_) => 0,
    }
}

/// Reads a number of bytes, or says what is wrong with the variable.
pub fn try_parse_bytes(env_key: &str, s: &str) -> (r: Result<u64, ArenaError>)
    ensures
        match bytes_of(s@) {
            Ok(n) => r matches Ok(v) && v == n,
            Err(e) => r matches Err(f) && f@ == (ArenaErrorView::Setting {
                key: env_key@,
                error: e,
            }),
        },
{
    match read_bytes(s) {
        Ok(_) => Ok(parse_bytes_with_suffix(env_key, s)),
        Err(error) => Err(ArenaError::Setting { key: env_key.to_owned(), error }),
    }
}

/// The bytes of a variable, or the default where it is unset.
pub open spec fn bytes_setting(
    env: Map<Seq<char>, Seq<char>>,
    key: Seq<char>,
    default: u64,
) -> Result<u64, ArenaErrorView> {
    match lookup(env, key) {
        None => Ok(default),
        Some(raw) => match bytes_of(trimmed(raw)) {
            Ok(n) => Ok(n as u64),
            Err(error) => Err(ArenaErrorView::Setting { key, error }),
        },
    }
}

/// The integer of a variable, or the default where it is unset.
pub open spec fn i32_setting(
    env: Map<Seq<char>, Seq<char>>,
    key: Seq<char>,
    default: i32,
) -> Result<i32, ArenaErrorView> {
    match lookup(env, key) {
        None => Ok(default),
        Some(raw) => match parsed_i32(trimmed(raw)) {
            Ok(n) => Ok(n as i32),
            Err(_) => Err(ArenaErrorView::Setting { key, error: SettingError::NotAnInteger }),
        },
    }
}

/// The memory of a model's arena: its own variable counts, where there is a
/// model and the variable is set; else the global one.
pub open spec fn max_mem_setting(
    env: Map<Seq<char>, Seq<char>>,
    model: Seq<char>,
) -> Result<u64, ArenaErrorView> {
    let own: Seq<char> = "EMBED_ARENA_MAX_MEM_BYTES_"@ + env_key(model);
    if model.len() > 0 && env.contains_key(own) {
        bytes_setting(env, own, DEFAULT_MAX_MEM_BYTES)
    } else {
        bytes_setting(env, "EMBED_ARENA_MAX_MEM_BYTES"@, DEFAULT_MAX_MEM_BYTES)
    }
}

/// The settings of an arena of this memory, or the first thing that is wrong with
/// them.
pub open spec fn config_with(
    env: Map<Seq<char>, Seq<char>>,
    max_mem: Result<u64, ArenaErrorView>,
) -> Result<ArenaCfg, ArenaErrorView> {
    match max_mem {
        Err(e) => Err(e),
        Ok(max_mem_bytes) => match bytes_setting(
            env,
            "EMBED_ARENA_INITIAL_CHUNK_BYTES"@,
            DEFAULT_INITIAL_CHUNK_BYTES,
        ) {
            Err(e) => Err(e),
            Ok(initial_chunk_bytes) => match bytes_setting(
                env,
                "EMBED_ARENA_MAX_DEAD_BYTES"@,
                DEFAULT_MAX_DEAD_BYTES,
            ) {
                Err(e) => Err(e),
                Ok(max_dead_bytes) => match i32_setting(
                    env,
                    "EMBED_ARENA_EXTEND_STRATEGY"@,
                    DEFAULT_EXTEND_STRATEGY,
                ) {
                    Err(e) => Err(e),
                    Ok(extend_strategy) => if extend_strategy != 0 && extend_strategy != 1 {
                        Err(ArenaErrorView::Strategy(extend_strategy))
                    } else if max_mem_bytes < initial_chunk_bytes {
                        Err(
                            ArenaErrorView::MaxBelowInitial { max_mem_bytes, initial_chunk_bytes },
                        )
                    } else {
                        Ok(
                            ArenaCfg {
                                max_mem_bytes,
                                initial_chunk_bytes,
                                max_dead_bytes,
                                extend_strategy,
                            },
                        )
                    },
                },
            },
        },
    }
}

/// The settings of a model's arena that the environment asks for.
pub open spec fn arena_config(
    env: Map<Seq<char>, Seq<char>>,
    model: Seq<char>,
) -> Result<ArenaCfg, ArenaErrorView> {
    config_with(env, max_mem_setting(env, model))
}

/// The settings that count where there is no model: only the global memory
/// setting is looked at.
pub open spec fn global_config(env: Map<Seq<char>, Seq<char>>) -> Result<ArenaCfg, ArenaErrorView> {
    config_with(env, bytes_setting(env, "EMBED_ARENA_MAX_MEM_BYTES"@, DEFAULT_MAX_MEM_BYTES))
}

/// A result agrees with what it should be.
pub open spec fn same_outcome<T>(r: Result<T, ArenaError>, s: Result<T, ArenaErrorView>) -> bool {
    match (r, s) {
        (Ok(v), Ok(w)) => v == w,
        (Err(e), Err(f)) => e@ == f,
        _ => false,
    }
}

fn read_bytes_setting(env: &EnvVars, key: &str, default: u64) -> (r: Result<u64, ArenaError>)
    ensures
        same_outcome(r, bytes_setting(env@, key@, default)),
{
    match env.get(key) {
        None => Ok(default),
        Some(raw) => try_parse_bytes(key, trim(raw)),
    }
}

fn read_i32_setting(env: &EnvVars, key: &str, default: i32) -> (r: Result<i32, ArenaError>)
    ensures
        same_outcome(r, i32_setting(env@, key@, default)),
{
    match env.get(key) {
        None => Ok(default),
        Some(raw) => match parse_i32(trim(raw)) {
            Ok(n) => Ok(n),
            Err(_) => Err(
                ArenaError::Setting { key: key.to_owned(), error: SettingError::NotAnInteger },
            ),
        },
    }
}

fn read_max_mem(env: &EnvVars, model_key: &str) -> (r: Result<u64, ArenaError>)
    ensures
        same_outcome(r, max_mem_setting(env@, model_key@)),
{
    if !model_key.is_empty() {
        let suffix: String = model_env_key(model_key);
        let mut own: String = "EMBED_ARENA_MAX_MEM_BYTES_".to_owned();
        own.append(suffix.as_str());
        if env.get(own.as_str()).is_some() {
            return read_bytes_setting(env, own.as_str(), DEFAULT_MAX_MEM_BYTES);
        }
    }
    read_bytes_setting(env, "EMBED_ARENA_MAX_MEM_BYTES", DEFAULT_MAX_MEM_BYTES)
}

/// Reads the settings of a model's arena, or says what is wrong with them. An
/// empty model stands for the global settings.
pub fn try_init_arena_config_for_model(env: &EnvVars, model_key: &str) -> (r: Result<
    ArenaCfg,
    ArenaError,
>)
    ensures
        same_outcome(r, arena_config(env@, model_key@)),
{
    let max_mem_bytes: u64 = match read_max_mem(env, model_key) {
        Ok(n) => n,
        Err(e) => return Err(e),
    };
    let initial_chunk_bytes: u64 = match read_bytes_setting(
        env,
        "EMBED_ARENA_INITIAL_CHUNK_BYTES",
        DEFAULT_INITIAL_CHUNK_BYTES,
    ) {
        Ok(n) => n,
        Err(e) => return Err(e),
    };
    let max_dead_bytes: u64 = match read_bytes_setting(
        env,
        "EMBED_ARENA_MAX_DEAD_BYTES",
        DEFAULT_MAX_DEAD_BYTES,
    ) {
        Ok(n) => n,
        Err(e) => return Err(e),
    };
    let extend_strategy: i32 = match read_i32_setting(
        env,
        "EMBED_ARENA_EXTEND_STRATEGY",
        DEFAULT_EXTEND_STRATEGY,
    ) {
        Ok(n) => n,
        Err(e) => return Err(e),
    };
    if extend_strategy != 0 && extend_strategy != 1 {
        return Err(ArenaError::Strategy(extend_strategy));
    }
    if max_mem_bytes < initial_chunk_bytes {
        return Err(ArenaError::MaxBelowInitial { max_mem_bytes, initial_chunk_bytes });
    }
    Ok(ArenaCfg { max_mem_bytes, initial_chunk_bytes, max_dead_bytes, extend_strategy })
}

/// The settings of a model's arena, where the environment asks for valid ones.
pub fn init_arena_config_for_model(env: &EnvVars, model_key: &str) -> (r: ArenaCfg)
    requires
        arena_config(env@, model_key@) is Ok,
    ensures
        r == arena_config(env@, model_key@)->Ok_0,
{
    match try_init_arena_config_for_model(env, model_key) {
        Ok(cfg) => cfg,
        Err(_) => ArenaCfg {
            max_mem_bytes: 0,
            initial_chunk_bytes: 0,
            max_dead_bytes: 0,
            extend_strategy: 0,
        },
    }
}

/// The global settings of the arena, where the environment asks for valid ones.
pub fn init_arena_config(env: &EnvVars) -> (r: ArenaCfg)
    requires
        global_config(env@) is Ok,
    ensures
        r == global_config(env@)->Ok_0,
{
    proof {
        reveal_strlit("");
        assert(""@ =~= Seq::empty());
    }
    init_arena_config_for_model(env, "")
}

/// The settings of the arena as the runtime takes them: names and numbers.
pub open spec fn runtime_entries(cfg: ArenaCfg) -> Seq<(Seq<char>, u64)> {
    seq![
        ("max_mem"@, cfg.max_mem_bytes),
        ("arena_extend_strategy"@, cfg.extend_strategy as u64),
        ("initial_chunk_size_bytes"@, cfg.initial_chunk_bytes),
        ("max_dead_bytes_per_chunk"@, cfg.max_dead_bytes),
    ]
}

/// The settings of the arena as the runtime takes them.
pub fn arena_entries(cfg: &ArenaCfg) -> (r: Vec<(&'static str, u64)>)
    requires
        cfg.extend_strategy >= 0,
    ensures
        r@.map_values(|e: (&'static str, u64)| (e.0@, e.1)) == runtime_entries(*cfg),
{
    let mut out: Vec<(&'static str, u64)> = Vec::new();
    out.push(("max_mem", cfg.max_mem_bytes));
    out.push(("arena_extend_strategy", cfg.extend_strategy as u64));
    out.push(("initial_chunk_size_bytes", cfg.initial_chunk_bytes));
    out.push(("max_dead_bytes_per_chunk", cfg.max_dead_bytes));
    assert(out@.map_values(|e: (&'static str, u64)| (e.0@, e.1)) =~= runtime_entries(*cfg));
    out
}

/// Whether the process has registered its arena.
#[derive(Debug)]
pub struct ArenaRegistry {
    registered: bool,
}

impl ArenaRegistry {
    /// The arena is registered.
    pub closed spec fn registered(&self) -> bool {
        self.registered
    }

    /// No arena is registered.
    pub fn new() -> (r: ArenaRegistry)
        ensures
            !r.registered(),
    {
        ArenaRegistry { registered: false }
    }

    /// Whether the arena is registered.
    pub fn is_registered(&self) -> (r: bool)
        ensures
            r == self.registered(),
    {
        self.registered
    }

    /// Records that the arena is registered.
    pub fn mark_registered(&mut self)
        ensures
            final(self).registered(),
    {
        self.registered = true;
    }
}

/// The right to make a session: it is given out only once the arena is
/// registered.
#[derive(Debug)]
pub struct SessionPermit {
    _private: (),
}

/// Every session is made behind this call: the arena must be registered by
/// then, or the session would not use it.
pub fn assert_arena_registered_before_session(registry: &ArenaRegistry) -> (r: SessionPermit)
    requires
        registry.registered(),
{
    SessionPermit { _private: () }
}

/// How the registration of the arena ended.
#[derive(Debug)]
pub enum Registration {
    /// The runtime gave no description of the processor's memory.
    NoMemoryInfo,
    /// The runtime did not take the settings.
    NoArenaCfg,
    /// There is no runtime environment; the reason.
    NoEnvironment(String),
    /// The environment has an arena already: the first one stays.
    AlreadyRegistered,
    /// The arena is registered.
    Registered,
}

/// Why a registration failed, if it did.
pub open spec fn registration_error(outcome: Registration) -> Option<Seq<char>> {
    match outcome {
        Registration::NoMemoryInfo => Some("CreateCpuMemoryInfo returned non-null status"@),
        Registration::NoArenaCfg => Some("CreateArenaCfgV2 returned non-null status"@),
        Registration::NoEnvironment(e) => Some("Environment::current: "@ + e@),
        Registration::AlreadyRegistered => None,
        Registration::Registered => None,
    }
}

/// What is recorded of a registration: the settings where they are the live
/// ones, and a skipped registration otherwise.
pub open spec fn registration_updates(outcome: Registration, cfg: ArenaCfg) -> Seq<UpdateView> {
    match outcome {
        Registration::Registered => seq![
            plain(
                "embed_arena_max_mem_bytes"@,
                Change::GaugeSet(Amount::Whole(cfg.max_mem_bytes as u128)),
            ),
            plain(
                "embed_arena_initial_chunk_bytes"@,
                Change::GaugeSet(Amount::Whole(cfg.initial_chunk_bytes as u128)),
            ),
            plain(
                "embed_arena_max_dead_bytes"@,
                Change::GaugeSet(Amount::Whole(cfg.max_dead_bytes as u128)),
            ),
            crate::metrics::labelled(
                "embed_arena_extend_strategy"@,
                "strategy"@,
                crate::metrics::strategy_label(cfg.extend_strategy),
                Change::GaugeSet(Amount::Signed(cfg.extend_strategy as i64)),
            ),
        ],
        Registration::AlreadyRegistered => seq![
            plain("embed_arena_register_skipped_total"@, Change::CounterIncrement(1)),
        ],
        _ => Seq::empty(),
    }
}

/// Draws the consequences of a registration. An environment that had an arena
/// already counts as success, but its settings are not published: they are not
/// the live ones.
pub fn conclude_registration(
    outcome: &Registration,
    cfg: &ArenaCfg,
    registry: &mut ArenaRegistry,
    log: &mut MetricLog,
) -> (r: Result<(), String>)
    ensures
        match registration_error(*outcome) {
            Some(m) => (r matches Err(e) && e@ == m) && final(registry).registered() == old(
                registry,
            ).registered(),
            None => r is Ok && final(registry).registered(),
        },
        final(log)@ == old(log)@ + registration_updates(*outcome, *cfg),
{
    let ghost before: Seq<UpdateView> = log@;
    let r: Result<(), String> = match outcome {
        Registration::NoMemoryInfo => Err(
            "CreateCpuMemoryInfo returned non-null status".to_owned(),
        ),
        Registration::NoArenaCfg => Err("CreateArenaCfgV2 returned non-null status".to_owned()),
        Registration::NoEnvironment(e) => {
            let mut m: String = "Environment::current: ".to_owned();
            m.append(e.as_str());
            Err(m)
        },
        Registration::AlreadyRegistered => {
            record_arena_register_skipped(log);
            registry.mark_registered();
            Ok(())
        },
        Registration::Registered => {
            set_arena_gauges(
                log,
                cfg.max_mem_bytes,
                cfg.initial_chunk_bytes,
                cfg.max_dead_bytes,
                cfg.extend_strategy,
            );
            registry.mark_registered();
            Ok(())
        },
    };
    assert(log@ =~= before + registration_updates(*outcome, *cfg));
    r
}

/// Registers the arena of a model: `register` is handed its settings.
pub fn register_shared_cpu_arena_for_model<F: Fn(&ArenaCfg) -> Registration>(
    env: &EnvVars,
    model_key: &str,
    register: &F,
    registry: &mut ArenaRegistry,
    log: &mut MetricLog,
) -> (r: Result<(), String>)
    requires
        arena_config(env@, model_key@) is Ok,
        forall|cfg: &ArenaCfg| call_requires(register, (cfg,)),
    ensures
        registers(
            arena_config(env@, model_key@),
            register,
            Ok(r),
            (old(registry).registered(), old(log)@),
            (final(registry).registered(), final(log)@),
        ),
{
    let cfg: ArenaCfg = init_arena_config_for_model(env, model_key);
    let outcome: Registration = register(&cfg);
    conclude_registration(&outcome, &cfg, registry, log)
}

/// Registers the arena with the global settings: `register` is handed them.
pub fn register_shared_cpu_arena<F: Fn(&ArenaCfg) -> Registration>(
    env: &EnvVars,
    register: &F,
    registry: &mut ArenaRegistry,
    log: &mut MetricLog,
) -> (r: Result<(), String>)
    requires
        global_config(env@) is Ok,
        forall|cfg: &ArenaCfg| call_requires(register, (cfg,)),
    ensures
        registers(
            global_config(env@),
            register,
            Ok(r),
            (old(registry).registered(), old(log)@),
            (final(registry).registered(), final(log)@),
        ),
{
    proof {
        reveal_strlit("");
        assert(""@ =~= Seq::empty());
    }
    register_shared_cpu_arena_for_model(env, "", register, registry, log)
}

/// The global settings of the arena, or what is wrong with them.
pub fn try_init_arena_config(env: &EnvVars) -> (r: Result<ArenaCfg, ArenaError>)
    ensures
        same_outcome(r, global_config(env@)),
{
    proof {
        reveal_strlit("");
        assert(""@ =~= Seq::empty());
    }
    match try_init_arena_config_for_model(env, "") {
        Ok(_) => Ok(init_arena_config(env)),
        Err(e) => Err(e),
    }
}

/// What a registration with the settings of an environment comes to.
pub open spec fn registers<F: Fn(&ArenaCfg) -> Registration>(
    config: Result<ArenaCfg, ArenaErrorView>,
    register: &F,
    r: Result<Result<(), String>, ArenaError>,
    before: (bool, Seq<UpdateView>),
    after: (bool, Seq<UpdateView>),
) -> bool {
    match config {
        Err(e) => (r matches Err(f) && f@ == e) && after == before,
        Ok(cfg) => exists|outcome: Registration|
            {
                &&& #[trigger] call_ensures(register, (&cfg,), outcome)
                &&& after.1 == before.1 + registration_updates(outcome, cfg)
                &&& match registration_error(outcome) {
                    Some(m) => (r matches Ok(Err(e)) && e@ == m) && after.0 == before.0,
                    None => (r matches Ok(Ok(_))) && after.0,
                }
            },
    }
}

/// Registers the arena of a model, unless something is wrong with its
/// settings.
pub fn try_register_shared_cpu_arena_for_model<F: Fn(&ArenaCfg) -> Registration>(
    env: &EnvVars,
    model_key: &str,
    register: &F,
    registry: &mut ArenaRegistry,
    log: &mut MetricLog,
) -> (r: Result<Result<(), String>, ArenaError>)
    requires
        forall|cfg: &ArenaCfg| call_requires(register, (cfg,)),
    ensures
        registers(
            arena_config(env@, model_key@),
            register,
            r,
            (old(registry).registered(), old(log)@),
            (final(registry).registered(), final(log)@),
        ),
{
    match try_init_arena_config_for_model(env, model_key) {
        Ok(_) => Ok(register_shared_cpu_arena_for_model(env, model_key, register, registry, log)),
        Err(e) => Err(e),
    }
}

/// Registers the arena with the global settings, unless something is wrong
/// with them.
pub fn try_register_shared_cpu_arena<F: Fn(&ArenaCfg) -> Registration>(
    env: &EnvVars,
    register: &F,
    registry: &mut ArenaRegistry,
    log: &mut MetricLog,
) -> (r: Result<Result<(), String>, ArenaError>)
    requires
        forall|cfg: &ArenaCfg| call_requires(register, (cfg,)),
    ensures
        registers(
            global_config(env@),
            register,
            r,
            (old(registry).registered(), old(log)@),
            (final(registry).registered(), final(log)@),
        ),
{
    match try_init_arena_config(env) {
        Ok(_) => Ok(register_shared_cpu_arena(env, register, registry, log)),
        Err(e) => Err(e),
    }
}

/// Settings that are accepted are usable: the strategy is one that there is,
/// and the arena holds its first chunk.
pub proof fn law_arena_config_is_usable(env: Map<Seq<char>, Seq<char>>, model: Seq<char>)
    requires
        arena_config(env, model) is Ok,
    ensures
        ({
            let cfg: ArenaCfg = arena_config(env, model)->Ok_0;
            &&& cfg.extend_strategy == 0 || cfg.extend_strategy == 1
            &&& cfg.max_mem_bytes >= cfg.initial_chunk_bytes
        }),
{
}

/// A registration with the global settings is one for a model without a name: it
/// comes to the same, and no model's own memory setting has a say in it.
pub proof fn law_global_registration_is_the_unnamed_one<F: Fn(&ArenaCfg) -> Registration>(
    env: Map<Seq<char>, Seq<char>>,
    register: &F,
    r: Result<Result<(), String>, ArenaError>,
    before: (bool, Seq<UpdateView>),
    after: (bool, Seq<UpdateView>),
    model: Seq<char>,
    value: Seq<char>,
)
    ensures
        global_config(env) == arena_config(env, ""@),
        registers(global_config(env), register, r, before, after) == registers(
            arena_config(env, ""@),
            register,
            r,
            before,
            after,
        ),
        global_config(env.insert("EMBED_ARENA_MAX_MEM_BYTES_"@ + env_key(model), value))
            == global_config(env),
{
    reveal_strlit("");
    lemma_own_key_is_apart(model);
}

/// A model's own memory setting touches no other model, whatever it says.
pub proof fn law_own_setting_is_private(
    a: Map<Seq<char>, Seq<char>>,
    model: Seq<char>,
    other: Seq<char>,
    value: Seq<char>,
)
    requires
        env_key(model) != env_key(other),
    ensures
        arena_config(
            a.insert("EMBED_ARENA_MAX_MEM_BYTES_"@ + env_key(other), value),
            model,
        ) == arena_config(a, model),
{
    let key: Seq<char> = "EMBED_ARENA_MAX_MEM_BYTES_"@ + env_key(other);
    let own: Seq<char> = "EMBED_ARENA_MAX_MEM_BYTES_"@ + env_key(model);
    lemma_own_key_is_apart(other);
    assert(own != key) by {
        let n: int = "EMBED_ARENA_MAX_MEM_BYTES_"@.len() as int;
        assert(own.skip(n) =~= env_key(model));
        assert(key.skip(n) =~= env_key(other));
    }
}

/// A model's own memory setting is none of the global settings.
proof fn lemma_own_key_is_apart(model: Seq<char>)
    ensures
        ({
            let key: Seq<char> = "EMBED_ARENA_MAX_MEM_BYTES_"@ + env_key(model);
            &&& key != "EMBED_ARENA_MAX_MEM_BYTES"@
            &&& key != "EMBED_ARENA_INITIAL_CHUNK_BYTES"@
            &&& key != "EMBED_ARENA_MAX_DEAD_BYTES"@
            &&& key != "EMBED_ARENA_EXTEND_STRATEGY"@
        }),
{
    let key: Seq<char> = "EMBED_ARENA_MAX_MEM_BYTES_"@ + env_key(model);
    reveal_strlit("EMBED_ARENA_MAX_MEM_BYTES_");
    reveal_strlit("EMBED_ARENA_MAX_MEM_BYTES");
    reveal_strlit("EMBED_ARENA_INITIAL_CHUNK_BYTES");
    reveal_strlit("EMBED_ARENA_MAX_DEAD_BYTES");
    reveal_strlit("EMBED_ARENA_EXTEND_STRATEGY");
    assert("EMBED_ARENA_MAX_MEM_BYTES"@.len() == 25);
    assert(key.len() > 25);
    assert(key[12] == 'M');
    assert("EMBED_ARENA_INITIAL_CHUNK_BYTES"@[12] == 'I');
    assert(key[16] == 'M');
    assert("EMBED_ARENA_MAX_DEAD_BYTES"@[16] == 'D');
    assert("EMBED_ARENA_EXTEND_STRATEGY"@[12] == 'E');
}

/// A size is read back as it is written: the number, times the unit behind it.
/// One that does not fit is too large, and a suffix that is no unit is refused.
pub proof fn law_sizes_are_read_back(n: u64, suffix: Seq<char>)
    requires
        suffix.len() > 0 ==> !('0' <= suffix[0] <= '9'),
    ensures
        ({
            let r: Result<nat, SettingError> = bytes_of(decimal(n as nat) + suffix);
            let u: Seq<char> = uppercase_of(trimmed(suffix));
            &&& u == ""@ || u == "B"@ ==> r == Ok::<nat, SettingError>(n as nat)
            &&& (u == "K"@ || u == "KIB"@) && n * 1024 <= u64::MAX ==> r == Ok::<
                nat,
                SettingError,
            >((n * 1024) as nat)
            &&& (u == "M"@ || u == "MIB"@) && n * 1024 * 1024 <= u64::MAX ==> r == Ok::<
                nat,
                SettingError,
            >((n * 1024 * 1024) as nat)
            &&& (u == "G"@ || u == "GIB"@) && n * 1024 * 1024 * 1024 <= u64::MAX ==> r == Ok::<
                nat,
                SettingError,
            >((n * 1024 * 1024 * 1024) as nat)
            &&& (u == "K"@ || u == "KIB"@) && n * 1024 > u64::MAX ==> r == Err::<
                nat,
                SettingError,
            >(SettingError::TooLarge)
            &&& (u == "M"@ || u == "MIB"@) && n * 1024 * 1024 > u64::MAX ==> r == Err::<
                nat,
                SettingError,
            >(SettingError::TooLarge)
            &&& (u == "G"@ || u == "GIB"@) && n * 1024 * 1024 * 1024 > u64::MAX ==> r == Err::<
                nat,
                SettingError,
            >(SettingError::TooLarge)
            &&& u != ""@ && u != "B"@ && u != "K"@ && u != "KIB"@ && u != "M"@ && u != "MIB"@ && u
                != "G"@ && u != "GIB"@ ==> r == Err::<nat, SettingError>(
                SettingError::UnknownSuffix,
            )
        }),
{
    let d: Seq<char> = decimal(n as nat);
    let s: Seq<char> = d + suffix;
    crate::text::law_written_number_is_plain(n as nat);
    crate::text::law_decimal_round_trip(n as nat, u64::MAX as nat);
    assert forall|i: int| 0 <= i < d.len() implies is_digit(#[trigger] s[i]) by {
        assert('0' <= d[i] <= '9');
    }
    assert(d.len() < s.len() ==> s[d.len() as int] == suffix[0]);
    lemma_leading_digits(s, d.len() as int);
    assert(s.take(d.len() as int) =~= d);
    assert(s.skip(d.len() as int) =~= suffix);
    reveal_strlit("");
    reveal_strlit("B");
    reveal_strlit("K");
    reveal_strlit("KIB");
    reveal_strlit("M");
    reveal_strlit("MIB");
    reveal_strlit("G");
    reveal_strlit("GIB");
    assert("B"@[0] == 'B' && "K"@[0] == 'K' && "M"@[0] == 'M' && "G"@[0] == 'G');
    assert("KIB"@[0] == 'K' && "MIB"@[0] == 'M' && "GIB"@[0] == 'G');
    let u: Seq<char> = uppercase_of(trimmed(suffix));
    assert(""@.len() == 0 && "B"@.len() == 1);
    assert("K"@.len() == 1 && "M"@.len() == 1 && "G"@.len() == 1);
    assert("KIB"@.len() == 3 && "MIB"@.len() == 3 && "GIB"@.len() == 3);
    assert(u == ""@ || u == "B"@ ==> unit(u) == Some(1nat));
    assert(u == "K"@ || u == "KIB"@ ==> unit(u) == Some(1024nat));
    assert(u == "M"@ || u == "MIB"@ ==> unit(u) == Some(1048576nat));
    assert(u == "G"@ || u == "GIB"@ ==> unit(u) == Some(1073741824nat));
    assert(parsed(s.take(leading_digits(s) as int), u64::MAX as nat) == Ok::<
        nat,
        crate::text::IntError,
    >(
        n as nat,
    ));
    if let Some(factor) = unit(u) {
        let m: nat = n as nat;
        assert(factor == 1 ==> m * factor == m) by (nonlinear_arith);
        assert(factor == 1024 ==> m * factor == n * 1024) by (nonlinear_arith)
            requires
                m == n,
        ;
        assert(factor == 1048576 ==> m * factor == n * 1024 * 1024) by (nonlinear_arith)
            requires
                m == n,
        ;
        assert(factor == 1073741824 ==> m * factor == n * 1024 * 1024 * 1024) by (nonlinear_arith)
            requires
                m == n,
        ;
    }
}

/// A size without a number is refused.
pub proof fn law_sizes_begin_with_a_number(s: Seq<char>)
    requires
        s.len() == 0 || !('0' <= s[0] <= '9'),
    ensures
        bytes_of(s) == Err::<nat, SettingError>(SettingError::NotANumber),
{
    lemma_leading_digits(s, 0);
    assert(s.take(0) =~= Seq::empty());
    crate::text::law_number_is_read_digit_by_digit(Seq::empty(), 'a', u64::MAX as nat);
}

/// Settings that are accepted are those of their variables, each of its own, or
/// the defaults; a model's own memory setting counts before the global one.
pub proof fn law_arena_settings_are_those_of_their_variables(
    env: Map<Seq<char>, Seq<char>>,
    model: Seq<char>,
    cfg: ArenaCfg,
    text: Seq<char>,
    n: u64,
)
    requires
        arena_config(env, model) == Ok::<ArenaCfg, ArenaErrorView>(cfg),
    ensures
        bytes_of(trimmed(text)) == Ok::<nat, SettingError>(n as nat) ==> ({
            let own: Seq<char> = "EMBED_ARENA_MAX_MEM_BYTES_"@ + env_key(model);
            &&& model.len() > 0 && lookup(env, own) == Some(text) ==> cfg.max_mem_bytes == n
            &&& (model.len() == 0 || lookup(env, own) is None) && lookup(
                env,
                "EMBED_ARENA_MAX_MEM_BYTES"@,
            ) == Some(text) ==> cfg.max_mem_bytes == n
            &&& lookup(env, "EMBED_ARENA_INITIAL_CHUNK_BYTES"@) == Some(text)
                ==> cfg.initial_chunk_bytes == n
            &&& lookup(env, "EMBED_ARENA_MAX_DEAD_BYTES"@) == Some(text) ==> cfg.max_dead_bytes == n
        }),
        (model.len() == 0 || lookup(env, "EMBED_ARENA_MAX_MEM_BYTES_"@ + env_key(model)) is None)
            && lookup(env, "EMBED_ARENA_MAX_MEM_BYTES"@) is None ==> cfg.max_mem_bytes
            == 6 * 1024 * 1024 * 1024,
        lookup(env, "EMBED_ARENA_INITIAL_CHUNK_BYTES"@) is None ==> cfg.initial_chunk_bytes
            == 1024 * 1024,
        lookup(env, "EMBED_ARENA_MAX_DEAD_BYTES"@) is None ==> cfg.max_dead_bytes
            == 64 * 1024 * 1024,
        n <= i32::MAX && lookup(env, "EMBED_ARENA_EXTEND_STRATEGY"@) == Some(decimal(n as nat))
            ==> cfg.extend_strategy == n,
        lookup(env, "EMBED_ARENA_EXTEND_STRATEGY"@) is None ==> cfg.extend_strategy
            == 1,
{
    let number: Seq<char> = decimal(n as nat);
    crate::text::law_written_number_is_plain(n as nat);
    assert('0' <= number[0] <= '9' && '0' <= number[number.len() - 1] <= '9');
    crate::text::law_white_space(number[0]);
    crate::text::law_white_space(number.last());
    crate::text::law_trimmed_text_stays(number);
    if n <= i32::MAX {
        crate::text::law_decimal_round_trip(n as nat, i32::MAX as nat);
        crate::text::law_signed_numbers(number);
    }
}

/// Settings are refused exactly where one of them cannot be read, the strategy
/// is neither of the two, or the arena does not hold its first chunk.
pub proof fn law_arena_settings_are_refused(
    env: Map<Seq<char>, Seq<char>>,
    model: Seq<char>,
    default: u64,
    key: Seq<char>,
)
    ensures
        ({
            let max: Result<u64, ArenaErrorView> = max_mem_setting(env, model);
            let chunk: Result<u64, ArenaErrorView> = bytes_setting(
                env,
                "EMBED_ARENA_INITIAL_CHUNK_BYTES"@,
                DEFAULT_INITIAL_CHUNK_BYTES,
            );
            let dead: Result<u64, ArenaErrorView> = bytes_setting(
                env,
                "EMBED_ARENA_MAX_DEAD_BYTES"@,
                DEFAULT_MAX_DEAD_BYTES,
            );
            let strategy: Result<i32, ArenaErrorView> = i32_setting(
                env,
                "EMBED_ARENA_EXTEND_STRATEGY"@,
                DEFAULT_EXTEND_STRATEGY,
            );
            &&& arena_config(env, model) is Ok <==> max is Ok && chunk is Ok && dead is Ok && (
            strategy matches Ok(s) && (s == 0 || s == 1)) && max->Ok_0 >= chunk->Ok_0
            &&& max is Ok && chunk is Ok && dead is Ok && (strategy matches Ok(s) && s != 0 && s
                != 1) ==> arena_config(env, model) == Err::<ArenaCfg, ArenaErrorView>(
                ArenaErrorView::Strategy(strategy->Ok_0),
            )
        }),
        lookup(env, key) is None ==> bytes_setting(env, key, default) == Ok::<u64, ArenaErrorView>(
            default,
        ),
        lookup(env, key) matches Some(raw) ==> (bytes_setting(env, key, default) is Err
            <==> bytes_of(trimmed(raw)) is Err),
{
}

/// The limits that the runtime is given are those of the settings, each under
/// its own key.
pub proof fn law_runtime_is_given_the_settings(cfg: ArenaCfg)
    requires
        cfg.extend_strategy >= 0,
    ensures
        runtime_entries(cfg).len() == 4,
        runtime_entries(cfg).contains(("max_mem"@, cfg.max_mem_bytes)),
        runtime_entries(cfg).contains(("arena_extend_strategy"@, cfg.extend_strategy as u64)),
        runtime_entries(cfg).contains(("initial_chunk_size_bytes"@, cfg.initial_chunk_bytes)),
        runtime_entries(cfg).contains(("max_dead_bytes_per_chunk"@, cfg.max_dead_bytes)),
        runtime_entries(cfg)[0].0 == "max_mem"@,
        runtime_entries(cfg)[1].0 == "arena_extend_strategy"@,
        runtime_entries(cfg)[2].0 == "initial_chunk_size_bytes"@,
        runtime_entries(cfg)[3].0 == "max_dead_bytes_per_chunk"@,
{
    let e: Seq<(Seq<char>, u64)> = runtime_entries(cfg);
    assert(e[0] == ("max_mem"@, cfg.max_mem_bytes));
    assert(e[1] == ("arena_extend_strategy"@, cfg.extend_strategy as u64));
    assert(e[2] == ("initial_chunk_size_bytes"@, cfg.initial_chunk_bytes));
    assert(e[3] == ("max_dead_bytes_per_chunk"@, cfg.max_dead_bytes));
}

/// A registration fails exactly where the runtime made no arena and had none,
/// and its gauges show the settings it was made with.
pub proof fn law_registrations(outcome: Registration, cfg: ArenaCfg)
    ensures
        registration_error(outcome) is None <==> outcome is Registered
            || outcome is AlreadyRegistered,
        outcome is NoMemoryInfo ==> registration_error(outcome) == Some(
            "CreateCpuMemoryInfo returned non-null status"@,
        ),
        outcome is NoArenaCfg ==> registration_error(outcome) == Some(
            "CreateArenaCfgV2 returned non-null status"@,
        ),
        outcome matches Registration::NoEnvironment(e) ==> registration_error(outcome) == Some(
            "Environment::current: "@ + e@,
        ),
        outcome is AlreadyRegistered ==> registration_updates(outcome, cfg) == seq![
            plain("embed_arena_register_skipped_total"@, Change::CounterIncrement(1)),
        ],
        registration_error(outcome) is Some ==> registration_updates(outcome, cfg).len() == 0,
        outcome is Registered ==> ({
            let u: Seq<UpdateView> = registration_updates(outcome, cfg);
            &&& u.len() == 4
            &&& u[0].name == "embed_arena_max_mem_bytes"@ && u[0].change == Change::GaugeSet(
                Amount::Whole(cfg.max_mem_bytes as u128),
            )
            &&& u[1].name == "embed_arena_initial_chunk_bytes"@ && u[1].change == Change::GaugeSet(
                Amount::Whole(cfg.initial_chunk_bytes as u128),
            )
            &&& u[2].name == "embed_arena_max_dead_bytes"@ && u[2].change == Change::GaugeSet(
                Amount::Whole(cfg.max_dead_bytes as u128),
            )
            &&& u[3].name == "embed_arena_extend_strategy"@ && u[3].change == Change::GaugeSet(
                Amount::Signed(cfg.extend_strategy as i64),
            )
        }),
{
}

/// What comes of a registration: settings that are refused change nothing, and
/// otherwise the runtime was asked with those very settings, and the arena
/// counts as registered exactly where it was or is now.
pub proof fn law_registration_follows_the_runtime<F: Fn(&ArenaCfg) -> Registration>(
    config: Result<ArenaCfg, ArenaErrorView>,
    register: &F,
    r: Result<Result<(), String>, ArenaError>,
    before: (bool, Seq<UpdateView>),
    after: (bool, Seq<UpdateView>),
) -> (outcome: Registration)
    requires
        registers(config, register, r, before, after),
    ensures
        config matches Err(e) ==> r is Err && after == before,
        config matches Ok(cfg) ==> {
            &&& call_ensures(register, (&cfg,), outcome)
            &&& outcome is Registered || outcome is AlreadyRegistered ==> (r matches Ok(Ok(_)))
                && after.0
            &&& !(outcome is Registered || outcome is AlreadyRegistered) ==> (r matches Ok(Err(m))
                && Some(m@) == registration_error(outcome)) && after.0 == before.0
            &&& after.1 == before.1 + registration_updates(outcome, cfg)
        },
{
    match config {
        Err(_) => Registration::Registered,
        Ok(cfg) => choose|outcome: Registration|
            {
                &&& #[trigger] call_ensures(register, (&cfg,), outcome)
                &&& after.1 == before.1 + registration_updates(outcome, cfg)
                &&& match registration_error(outcome) {
                    Some(m) => (r matches Ok(Err(e)) && e@ == m) && after.0 == before.0,
                    None => (r matches Ok(Ok(_))) && after.0,
                }
            },
    }
}

/// A result agrees with what is expected exactly where both have the same value
/// or the same error.
pub proof fn law_outcomes_agree<T>(v: T, w: T, e: ArenaError, f: ArenaErrorView)
    ensures
        same_outcome(Ok::<T, ArenaError>(v), Ok::<T, ArenaErrorView>(w)) <==> v == w,
        same_outcome(Err::<T, ArenaError>(e), Err::<T, ArenaErrorView>(f)) <==> e@ == f,
        !same_outcome(Ok::<T, ArenaError>(v), Err::<T, ArenaErrorView>(f)),
        !same_outcome(Err::<T, ArenaError>(e), Ok::<T, ArenaErrorView>(w)),
        e matches ArenaError::Strategy(n) ==> e@ == ArenaErrorView::Strategy(n),
        e matches ArenaError::Setting { key, error } ==> e@ == (ArenaErrorView::Setting {
            key: key@,
            error,
        }),
        e matches ArenaError::MaxBelowInitial { max_mem_bytes, initial_chunk_bytes } ==> e@ == (
        ArenaErrorView::MaxBelowInitial { max_mem_bytes, initial_chunk_bytes }),
{
}

} // verus!
