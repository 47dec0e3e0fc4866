//! The decisions around an embedding model: shapes, plans, settings and error
//! labels. Whoever holds the session runs the passes that are planned here.
use vstd::prelude::*;
use vstd::string::*;
use vstd::arithmetic::power2::{lemma_pow2_pos, lemma_pow2_unfold, pow2};
use crate::batcher::clamped;
use crate::config::{env_key, model_env_key, ModelDef};
use crate::env::{lookup, EnvVars};
use crate::evictable_pool::{eviction_tick_secs, AcquireError};
use crate::metrics::{
    of_model, record_attention_scratch, record_batch_dimensions, record_batch_token_budget,
    record_inference_failure, record_padding_waste, set_arena_shrink_enabled, waste, Amount,
    Change, MetricLog, UpdateView,
};
use crate::order::{descending_order, is_descending};
use crate::text::{contains, contains_text, decimal, parse_up_to, parsed, same};

verus! {

broadcast use group_string_axioms;

/// The first number of `p`, `2p`, `4p`, ... that is at least `n`.
pub open spec fn doubled_to(p: nat, n: nat) -> nat
    decreases
            (if p >= n {
                0
            } else {
                n - p
            }),
{
    if p >= n || p == 0 {
        p
    } else {
        doubled_to(p * 2, n)
    }
}

/// The least power of two that is at least `n`.
pub open spec fn power_at_least(n: nat) -> nat {
    doubled_to(1, n)
}

/// The length to which sequences of at most `n` tokens are padded: the least
/// power of two that is at least `n`, but no more than `cap`; `1` where there
/// is at most one token.
pub open spec fn padded_len(n: nat, cap: nat) -> nat {
    if n <= 1 {
        1
    } else if power_at_least(n) > cap {
        cap
    } else {
        power_at_least(n)
    }
}

proof fn lemma_doubled_to_is_large(p: nat, n: nat)
    requires
        p > 0,
    ensures
        doubled_to(p, n) >= p,
        doubled_to(p, n) >= n,
    decreases
            (if p >= n {
                0
            } else {
                n - p
            }),
{
    if p < n {
        lemma_doubled_to_is_large(p * 2, n);
    }
}

/// The length to which a batch is padded.
pub fn round_up_seq_len(n: usize, cap: usize) -> (r: usize)
    ensures
        r == padded_len(n as nat, cap as nat),
{
    if n <= 1 {
        return 1;
    }
    let mut p: usize = 1;
    while p < n
        invariant
            0 < p,
            n > 1,
            power_at_least(n as nat) == doubled_to(p as nat, n as nat),
        decreases
                (if p >= n {
                    0
                } else {
                    n - p
                }),
    {
        if p > usize::MAX / 2 || p > cap {
            proof {
                lemma_doubled_to_is_large((p * 2) as nat, n as nat);
            }
            return cap;
        }
        p = p * 2;
    }
    if p > cap {
        cap
    } else {
        p
    }
}

proof fn lemma_doubled_power(k: nat, n: nat) -> (m: nat)
    ensures
        doubled_to(pow2(k), n) == pow2(m),
        m >= k,
        m > k ==> pow2((m - 1) as nat) < n,
    decreases
            (if pow2(k) >= n {
                0
            } else {
                n - pow2(k)
            }),
{
    lemma_pow2_pos(k);
    if pow2(k) >= n {
        k
    } else {
        lemma_pow2_unfold(k + 1);
        lemma_doubled_power(k + 1, n)
    }
}

/// The padded length of at most `cap` tokens holds them, is no more than `cap`
/// (or one), and is less than twice as many.
pub proof fn law_padded_len_holds_the_tokens(n: nat, cap: nat)
    requires
        n <= cap,
    ensures
        n <= padded_len(n, cap),
        padded_len(n, cap) <= cap || padded_len(n, cap) == 1,
        n > 0 ==> padded_len(n, cap) < 2 * n,
{
    if n > 1 {
        lemma_doubled_to_is_large(1, n);
        vstd::arithmetic::power2::lemma2_to64();
        assert(pow2(0) == 1);
        let m: nat = lemma_doubled_power(0, n);
        if m > 0 {
            lemma_pow2_unfold(m);
        }
    }
}

/// The padded length is a power of two, unless the cap cuts it.
pub proof fn law_padded_len_is_a_power_of_two(n: nat, cap: nat)
    ensures
        padded_len(n, cap) == cap || exists|k: nat| padded_len(n, cap) == pow2(k),
{
    vstd::arithmetic::power2::lemma2_to64();
    assert(pow2(0) == 1);
    if n > 1 {
        let m: nat = lemma_doubled_power(0, n);
    }
}

/// The label and the arena bin of a runtime error.
pub open spec fn runtime_error_label(msg: Seq<char>) -> Seq<char> {
    if contains_text(msg, "Available memory of"@) && contains_text(
        msg,
        "smaller than requested"@,
    ) {
        "arena_oom"@
    } else {
        "other"@
    }
}

/// The label of a runtime error, and the arena bin that it names (none is
/// known, so `0`).
pub fn classify_ort_error(msg: &str) -> (r: (&'static str, u32))
    ensures
        r.0@ == runtime_error_label(msg@),
        r.1 == 0,
{
    if contains(msg, "Available memory of") && contains(msg, "smaller than requested") {
        ("arena_oom", 0)
    } else {
        ("other", 0)
    }
}

/// How far the runtime optimizes a graph.
#[derive(Clone, Copy, Debug, PartialEq, Eq, Structural)]
pub enum OptLevel {
    Disable,
    Level1,
    Level2,
    Level3,
}

/// What `ORT_OPT_LEVEL` asks for: everything, unless it is `0`, `1` or `2`.
pub open spec fn opt_level(raw: Option<Seq<char>>) -> OptLevel {
    match raw {
        None => OptLevel::Level3,
        Some(s) => match parsed(s, u8::MAX as nat) {
            Ok(n) => if n == 0 {
                OptLevel::Disable
            } else if n == 1 {
                OptLevel::Level1
            } else if n == 2 {
                OptLevel::Level2
            } else {
                OptLevel::Level3
            },
            Err(_) => OptLevel::Level3,
        },
    }
}

/// Reads `ORT_OPT_LEVEL`.
pub fn parse_opt_level(env: &EnvVars) -> (r: OptLevel)
    ensures
        r == opt_level(lookup(env@, "ORT_OPT_LEVEL"@)),
{
    match env.get("ORT_OPT_LEVEL") {
        None => OptLevel::Level3,
        Some(s) => match parse_up_to(s, u8::MAX as u64) {
            Ok(0) => OptLevel::Disable,
            Ok(1) => OptLevel::Level1,
            Ok(2) => OptLevel::Level2,
            _ => OptLevel::Level3,
        },
    }
}

/// Whether a model's arena is shrunk after each run. The model's own variable
/// decides where it holds a boolean; else it is shrunk exactly where the model
/// uses no memory patterns.
pub open spec fn shrinks_arena(
    env: Map<Seq<char>, Seq<char>>,
    model: Seq<char>,
    memory_pattern: bool,
) -> bool {
    match lookup(env, "EMBED_ARENA_SHRINK_"@ + env_key(model)) {
        Some(v) => match crate::config::strict_bool(v) {
            Some(b) => b,
            None => !memory_pattern,
        },
        None => !memory_pattern,
    }
}

/// Whether a model's arena is shrunk after each run.
pub fn arena_shrink_enabled_for_model(env: &EnvVars, model_name: &str, memory_pattern: bool) -> (r:
    bool)
    ensures
        r == shrinks_arena(env@, model_name@, memory_pattern),
{
    let key: String = model_env_key(model_name);
    let mut var: String = "EMBED_ARENA_SHRINK_".to_owned();
    var.append(key.as_str());
    match env.get(var.as_str()) {
        Some(v) => if same(v, "true") || same(v, "1") {
            true
        } else if same(v, "false") || same(v, "0") {
            false
        } else {
            !memory_pattern
        },
        None => !memory_pattern,
    }
}

/// The variable of the ratio by which a model's requests are split: its own,
/// or else the global one.
pub fn subbatch_ratio_raw<'a>(env: &'a EnvVars, model_key: &str) -> (r: Option<&'a str>)
    ensures
        crate::text::opt_view(r) == match lookup(
            env@,
            "EMBED_SUBBATCH_RATIO_"@ + env_key(model_key@),
        ) {
            Some(own) => Some(own),
            None => lookup(env@, "EMBED_SUBBATCH_RATIO"@),
        },
{
    let key: String = model_env_key(model_key);
    let mut var: String = "EMBED_SUBBATCH_RATIO_".to_owned();
    var.append(key.as_str());
    match env.get(var.as_str()) {
        Some(own) => Some(own),
        None => env.get("EMBED_SUBBATCH_RATIO"),
    }
}

/// An ASCII white space character.
pub open spec fn is_ascii_space(c: char) -> bool {
    let u: int = c as int;
    u == 0x20 || u == 0x09 || u == 0x0a || u == 0x0c || u == 0x0d
}

/// The first position from `from` on at which `space` (or its absence) holds.
pub open spec fn scan(s: Seq<char>, from: int, space: bool) -> int
    decreases s.len() - from,
{
    if from >= s.len() || from < 0 {
        s.len() as int
    } else if is_ascii_space(s[from]) == space {
        from
    } else {
        scan(s, from + 1, space)
    }
}

/// The second word of a text: what stands between its second and its third
/// stretch of white space, leading white space aside.
pub open spec fn second_word(s: Seq<char>) -> Option<Seq<char>> {
    let start: int = scan(s, scan(s, scan(s, 0, false), true), false);
    if start >= s.len() {
        None
    } else {
        Some(s.subrange(start, scan(s, start, true)))
    }
}

fn is_ascii_whitespace(c: char) -> (r: bool)
    ensures
        r == is_ascii_space(c),
{
    let u: u32 = c as u32;
    u == 0x20 || u == 0x09 || u == 0x0a || u == 0x0c || u == 0x0d
}

fn scan_from(chars: &Vec<char>, from: usize, space: bool) -> (r: usize)
    requires
        from <= chars.len(),
    ensures
        r == scan(chars@, from as int, space),
        from <= r <= chars.len(),
{
    let mut i: usize = from;
    while i < chars.len()
        invariant
            from <= i <= chars.len(),
            scan(chars@, from as int, space) == scan(chars@, i as int, space),
        decreases chars.len() - i,
    {
        if is_ascii_whitespace(chars[i]) == space {
            return i;
        }
        i = i + 1;
    }
    i
}

/// The resident memory in a process's `statm` line: its second word, in pages.
/// A line that holds no such number counts as none.
pub fn rss_pages(statm: &str) -> (r: u64)
    ensures
        r == match second_word(statm@) {
            None => 0,
            Some(word) => match parsed(word, u64::MAX as nat) {
                Ok(n) => n,
                Err(_) => 0,
            },
        },
{
    let chars: Vec<char> = crate::text::chars_of(statm);
    let first: usize = scan_from(&chars, 0, false);
    let gap: usize = scan_from(&chars, first, true);
    let start: usize = scan_from(&chars, gap, false);
    if start >= chars.len() {
        return 0;
    }
    let end: usize = scan_from(&chars, start, true);
    match parse_up_to(statm.substring_char(start, end), u64::MAX) {
        Ok(n) => n,
        Err(_) => 0,
    }
}

/// Bytes of some pages. A page size that the system does not tell counts as
/// 4096.
pub fn rss_bytes(pages: u64, page_size: i64) -> (r: u64)
    requires
        pages * (if page_size <= 0 {
            4096
        } else {
            page_size as int
        }) <= u64::MAX,
    ensures
        r == pages * (if page_size <= 0 {
            4096
        } else {
            page_size as int
        }),
{
    if page_size <= 0 {
        pages * 4096
    } else {
        pages * (page_size as u64)
    }
}

/// The attention heads of a model.
pub open spec fn heads_of(name: Seq<char>) -> usize {
    if contains_text(name, "e5-large"@) {
        16
    } else {
        12
    }
}

/// How a model is loaded.
#[derive(Clone, Copy, Debug)]
pub struct EmbedPlan {
    /// The number of sessions: at least one.
    pub pool_size: usize,
    /// The attention heads.
    pub num_heads: usize,
    /// How often idle sessions are looked for, in seconds, if at all.
    pub eviction_tick_secs: Option<u64>,
    /// Whether the arena is shrunk after each run.
    pub shrinks_arena: bool,
    /// How far the graph is optimized.
    pub opt_level: OptLevel,
}

/// How a model is loaded: with at least one session; idle sessions, where they
/// are given up at all, are looked for four times in their time, but not more
/// often than every five seconds.
pub open spec fn plan_of(
    name: Seq<char>,
    memory_pattern: bool,
    pool_size: usize,
    idle_evict_secs: u64,
    env: Map<Seq<char>, Seq<char>>,
) -> EmbedPlan {
    EmbedPlan {
        pool_size: if pool_size == 0 {
            1
        } else {
            pool_size
        },
        num_heads: heads_of(name),
        eviction_tick_secs: if idle_evict_secs == 0 {
            None
        } else if idle_evict_secs / 4 > 5 {
            Some((idle_evict_secs / 4) as u64)
        } else {
            Some(5)
        },
        shrinks_arena: shrinks_arena(env, name, memory_pattern),
        opt_level: opt_level(lookup(env, "ORT_OPT_LEVEL"@)),
    }
}

/// Decides how a model is loaded.
pub fn embed_plan(def: &ModelDef, pool_size: usize, idle_evict_secs: u64, env: &EnvVars) -> (r:
    EmbedPlan)
    ensures
        r == plan_of(def.name@, def.memory_pattern, pool_size, idle_evict_secs, env@),
{
    EmbedPlan {
        pool_size: if pool_size == 0 {
            1
        } else {
            pool_size
        },
        num_heads: if contains(def.name.as_str(), "e5-large") {
            16
        } else {
            12
        },
        eviction_tick_secs: if idle_evict_secs > 0 {
            Some(eviction_tick_secs(idle_evict_secs))
        } else {
            None
        },
        shrinks_arena: arena_shrink_enabled_for_model(env, def.name.as_str(), def.memory_pattern),
        opt_level: parse_opt_level(env),
    }
}

/// The files that a model is loaded from.
#[derive(Debug)]
pub struct ModelFiles {
    pub onnx_path: String,
    pub onnx_exists: bool,
    pub tokenizer_path: String,
    pub tokenizer_exists: bool,
}

/// What is wrong with a model's files: the model file comes first.
pub open spec fn lacks_file(files: ModelFiles) -> Option<Seq<char>> {
    if !files.onnx_exists {
        Some("ONNX file not found: "@ + files.onnx_path@)
    } else if !files.tokenizer_exists {
        Some("tokenizer.json not found: "@ + files.tokenizer_path@)
    } else {
        None
    }
}

/// What is wrong with a model's files: the model file comes first.
pub fn missing_file(files: &ModelFiles) -> (r: Option<String>)
    ensures
        match (r, lacks_file(*files)) {
            (Some(m), Some(s)) => m@ == s,
            (None, None) => true,
            _ => false,
        },
{
    if !files.onnx_exists {
        let mut m: String = "ONNX file not found: ".to_owned();
        m.append(files.onnx_path.as_str());
        return Some(m);
    }
    if !files.tokenizer_exists {
        let mut m: String = "tokenizer.json not found: ".to_owned();
        m.append(files.tokenizer_path.as_str());
        return Some(m);
    }
    None
}

/// The file that holds the weights of a model that keeps them apart.
pub fn external_data_path(onnx_path: &str) -> (r: String)
    ensures
        r@ == onnx_path@ + ".data"@,
{
    let mut p: String = onnx_path.to_owned();
    p.append(".data");
    p
}

/// The sequence length at which a model is warmed up.
pub fn warmup_seq(warmup_seq_len: Option<usize>, max_len: usize) -> (r: usize)
    ensures
        r == match warmup_seq_len {
            None => max_len,
            Some(n) => if n == 0 || max_len == 0 {
                1
            } else if n < max_len {
                n
            } else {
                max_len
            },
        },
{
    match warmup_seq_len {
        None => max_len,
        Some(n) => {
            let m: usize = if n < max_len {
                n
            } else {
                max_len
            };
            if m == 0 {
                1
            } else {
                m
            }
        },
    }
}

/// What a request is told when no session could be acquired.
pub fn acquire_failed(e: &AcquireError) -> (r: String)
    ensures
        r@ == match e {
            AcquireError::AllBusy => "embed session pool: all slots busy"@,
            AcquireError::ReinitFailed(s) => "embed session pool: reinit failed: "@ + s@,
        },
{
    match e {
        AcquireError::AllBusy => "embed session pool: all slots busy".to_owned(),
        AcquireError::ReinitFailed(s) => {
            let mut m: String = "embed session pool: reinit failed: ".to_owned();
            m.append(s.as_str());
            m
        },
    }
}

/// What a request is told when a pass failed; the failure is counted under the
/// label of its message.
pub fn pass_failed(msg: &str, name: &str, log: &mut MetricLog) -> (r: String)
    ensures
        r@ == "inference: "@ + msg@,
        final(log)@ == old(log)@.push(
            UpdateView {
                name: "embed_inference_failures_total"@,
                labels: seq![
                    ("model"@, name@),
                    ("reason"@, runtime_error_label(msg@)),
                    ("bin_num"@, decimal(0)),
                ],
                change: Change::CounterIncrement(1),
            },
        ),
{
    let (reason, bin_num): (&str, u32) = classify_ort_error(msg);
    record_inference_failure(log, name, reason, bin_num);
    let mut m: String = "inference: ".to_owned();
    m.append(msg);
    m
}

/// `n`, but at least one.
pub open spec fn at_least_one(n: usize) -> usize {
    if n == 0 {
        1
    } else {
        n
    }
}

/// The members of some groups, one group after the other.
pub open spec fn members(groups: Seq<Vec<usize>>) -> Seq<usize>
    decreases groups.len(),
{
    if groups.len() == 0 {
        Seq::empty()
    } else {
        members(groups.drop_last()) + groups.last()@
    }
}

/// Lengths as keys to order by.
pub open spec fn length_keys(lens: Seq<usize>) -> Seq<u64> {
    lens.map_values(|n: usize| n as u64)
}

/// Every member of the group was found to be within reach of its first one.
pub open spec fn is_band<W: Fn(usize, usize) -> bool>(
    group: Seq<usize>,
    lens: Seq<usize>,
    within: &W,
) -> bool {
    &&& group.len() > 0
    &&& forall|j: int|
        1 <= j < group.len() ==> call_ensures(
            within,
            (
                at_least_one(lens[group[0] as int]),
                at_least_one(lens[#[trigger] group[j] as int]),
            ),
            true,
        )
}

/// The first member of the later group was found to be out of reach of the
/// first one of the earlier group.
pub open spec fn is_cut<W: Fn(usize, usize) -> bool>(
    group: Seq<usize>,
    next: Seq<usize>,
    lens: Seq<usize>,
    within: &W,
) -> bool {
    call_ensures(
        within,
        (at_least_one(lens[group[0] as int]), at_least_one(lens[next[0] as int])),
        false,
    )
}

/// How a request is split: not at all, or into groups of like lengths, the
/// longest first. `within(widest, len)` says whether a sequence of length
/// `len` may share a group whose first one has length `widest`.
pub open spec fn is_plan<W: Fn(usize, usize) -> bool>(
    groups: Seq<Vec<usize>>,
    lens: Seq<usize>,
    split: bool,
    within: &W,
) -> bool {
    if lens.len() == 0 {
        groups.len() == 0
    } else if !split {
        groups.len() == 1 && groups[0]@ == Seq::new(lens.len(), |i: int| i as usize)
    } else {
        &&& is_descending(members(groups), length_keys(lens))
        &&& forall|g: int|
            0 <= g < groups.len() ==> is_band((#[trigger] groups[g])@, lens, within)
        &&& forall|g: int|
            0 <= g < groups.len() - 1 ==> is_cut(
                (#[trigger] groups[g])@,
                groups[g + 1]@,
                lens,
                within,
            )
    }
}

/// Splits a request into groups of like lengths, the longest first. Among
/// equal lengths the earlier position comes first.
pub fn plan_subbatches<W: Fn(usize, usize) -> bool>(
    lens: &Vec<usize>,
    split: bool,
    within: &W,
) -> (r: Vec<Vec<usize>>)
    requires
        forall|widest: usize, len: usize| call_requires(within, (widest, len)),
    ensures
        is_plan(r@, lens@, split, within),
{
    let n: usize = lens.len();
    let mut groups: Vec<Vec<usize>> = Vec::new();
    if n == 0 {
        return groups;
    }
    if !split {
        let mut all: Vec<usize> = Vec::new();
        let mut i: usize = 0;
        while i < n
            invariant
                i <= n,
                all@ == Seq::new(i as nat, |j: int| j as usize),
            decreases n - i,
        {
            all.push(i);
            i = i + 1;
            assert(all@ =~= Seq::new(i as nat, |j: int| j as usize));
        }
        groups.push(all);
        return groups;
    }
    let mut keys: Vec<u64> = Vec::new();
    let mut k: usize = 0;
    while k < n
        invariant
            k <= n,
            n == lens.len(),
            keys@ =~= length_keys(lens@.take(k as int)),
        decreases n - k,
    {
        keys.push(lens[k] as u64);
        k = k + 1;
    }
    assert(lens@.take(n as int) =~= lens@);
    let order: Vec<usize> = descending_order(&keys);
    let mut current: Vec<usize> = Vec::new();
    current.push(order[0]);
    let mut widest: usize = if lens[order[0]] == 0 {
        1
    } else {
        lens[order[0]]
    };
    let mut i: usize = 1;
    assert(members(groups@) =~= Seq::empty());
    assert(current@ =~= order@.take(1));
    while i < n
        invariant
            1 <= i <= n,
            n == lens.len(),
            order@.len() == n,
            is_descending(order@, length_keys(lens@)),
            forall|w: usize, len: usize| call_requires(within, (w, len)),
            members(groups@) + current@ == order@.take(i as int),
            is_band(current@, lens@, within),
            widest == at_least_one(lens@[current@[0] as int]),
            forall|g: int|
                0 <= g < groups@.len() ==> is_band((#[trigger] groups@[g])@, lens@, within),
            forall|g: int|
                0 <= g < groups@.len() - 1 ==> is_cut(
                    (#[trigger] groups@[g])@,
                    groups@[g + 1]@,
                    lens@,
                    within,
                ),
            groups@.len() > 0 ==> is_cut(groups@.last()@, current@, lens@, within),
        decreases n - i,
    {
        let p: usize = order[i];
        let len: usize = if lens[p] == 0 {
            1
        } else {
            lens[p]
        };
        let ghost before: Seq<usize> = current@;
        let ghost done: Seq<Vec<usize>> = groups@;
        assert(order@.take(i + 1) =~= order@.take(i as int).push(p));
        if within(widest, len) {
            current.push(p);
            proof {
                assert(members(done) + current@ =~= order@.take(i + 1));
                assert forall|j: int| 1 <= j < current@.len() implies call_ensures(
                    within,
                    (
                        at_least_one(lens@[current@[0] as int]),
                        at_least_one(lens@[#[trigger] current@[j] as int]),
                    ),
                    true,
                ) by {
                    if j < before.len() {
                        assert(current@[j] == before[j]);
                    }
                }
            }
        } else {
            let mut fresh: Vec<usize> = Vec::new();
            fresh.push(p);
            std::mem::swap(&mut current, &mut fresh);
            groups.push(fresh);
            widest = len;
            proof {
                assert(groups@.drop_last() =~= done);
                assert(members(groups@) == members(done) + before);
                assert(members(groups@) + current@ =~= order@.take(i + 1));
                assert forall|g: int| 0 <= g < groups@.len() - 1 implies is_cut(
                    (#[trigger] groups@[g])@,
                    groups@[g + 1]@,
                    lens@,
                    within,
                ) by {
                    if g < done.len() - 1 {
                        assert(done[g] == groups@[g] && done[g + 1] == groups@[g + 1]);
                    } else {
                        assert(groups@[g] == done.last());
                    }
                }
            }
        }
        i = i + 1;
    }
    let ghost done: Seq<Vec<usize>> = groups@;
    let ghost last: Seq<usize> = current@;
    groups.push(current);
    proof {
        assert(groups@.drop_last() =~= done);
        assert(order@.take(n as int) =~= order@);
        assert(members(groups@) =~= order@);
        assert forall|g: int| 0 <= g < groups@.len() - 1 implies is_cut(
            (#[trigger] groups@[g])@,
            groups@[g + 1]@,
            lens@,
            within,
        ) by {
            if g < done.len() - 1 {
                assert(done[g] == groups@[g] && done[g + 1] == groups@[g + 1]);
            } else {
                assert(groups@[g] == done.last());
            }
        }
    }
    groups
}

/// Where the members of group `g` begin among all members.
pub open spec fn offset(groups: Seq<Vec<usize>>, g: int) -> nat {
    members(groups.take(g)).len()
}

proof fn lemma_members_step(groups: Seq<Vec<usize>>, g: int)
    requires
        0 <= g < groups.len(),
    ensures
        members(groups.take(g + 1)) == members(groups.take(g)) + groups[g]@,
        offset(groups, g + 1) == offset(groups, g) + groups[g]@.len(),
{
    assert(groups.take(g + 1).drop_last() =~= groups.take(g));
}

proof fn lemma_members_prefix(groups: Seq<Vec<usize>>, a: int, b: int)
    requires
        0 <= a <= b <= groups.len(),
    ensures
        offset(groups, a) <= offset(groups, b),
        members(groups.take(a)) == members(groups.take(b)).take(offset(groups, a) as int),
    decreases b - a,
{
    if a < b {
        lemma_members_prefix(groups, a, b - 1);
        lemma_members_step(groups, b - 1);
        assert(members(groups.take(b)).take(offset(groups, a) as int) =~= members(
            groups.take(b - 1),
        ).take(offset(groups, a) as int));
    } else {
        assert(members(groups.take(b)).take(offset(groups, a) as int) =~= members(groups.take(b)));
    }
}

/// Member `j` of group `g` stands at its place among all members.
proof fn lemma_member_at(groups: Seq<Vec<usize>>, g: int, j: int)
    requires
        0 <= g < groups.len(),
        0 <= j < groups[g]@.len(),
    ensures
        offset(groups, g) + j < members(groups).len(),
        members(groups)[offset(groups, g) + j] == groups[g]@[j],
{
    lemma_members_step(groups, g);
    lemma_members_prefix(groups, g + 1, groups.len() as int);
    assert(groups.take(groups.len() as int) =~= groups);
    let upto: Seq<usize> = members(groups.take(g + 1));
    assert(upto[offset(groups, g) + j] == groups[g]@[j]);
    assert(members(groups).take(offset(groups, g + 1) as int)[offset(groups, g) + j] == members(
        groups,
    )[offset(groups, g) + j]);
}

/// Every place among all members belongs to a group.
proof fn lemma_member_of(groups: Seq<Vec<usize>>, at: int) -> (r: (int, int))
    requires
        0 <= at < members(groups).len(),
    ensures
        0 <= r.0 < groups.len(),
        0 <= r.1 < groups[r.0]@.len(),
        members(groups)[at] == groups[r.0]@[r.1],
    decreases groups.len(),
{
    let rest: Seq<Vec<usize>> = groups.drop_last();
    if at < members(rest).len() {
        let r: (int, int) = lemma_member_of(rest, at);
        assert(rest[r.0] == groups[r.0]);
        r
    } else {
        (groups.len() - 1, at - members(rest).len())
    }
}

/// The position is a member of some group.
pub open spec fn is_member(groups: Seq<Vec<usize>>, i: int) -> bool {
    exists|g: int, j: int|
        0 <= g < groups.len() && 0 <= j < groups[g]@.len() && #[trigger] groups[g]@[j] == i
}

/// A plan uses every position exactly once: each is a member of a group, and
/// no two members are the same position.
pub proof fn law_plan_uses_each_position_once<W: Fn(usize, usize) -> bool>(
    groups: Seq<Vec<usize>>,
    lens: Seq<usize>,
    split: bool,
    within: &W,
)
    requires
        is_plan(groups, lens, split, within),
        lens.len() <= usize::MAX,
    ensures
        forall|g: int, j: int|
            0 <= g < groups.len() && 0 <= j < groups[g]@.len() ==> #[trigger] groups[g]@[j]
                < lens.len(),
        forall|i: int| 0 <= i < lens.len() ==> #[trigger] is_member(groups, i),
        forall|g: int, j: int, h: int, k: int|
            0 <= g < groups.len() && 0 <= j < groups[g]@.len() && 0 <= h < groups.len() && 0 <= k
                < groups[h]@.len() && #[trigger] groups[g]@[j] == #[trigger] groups[h]@[k] ==> g
                == h && j == k,
{
    if lens.len() > 0 && !split {
        assert forall|i: int| 0 <= i < lens.len() implies #[trigger] is_member(groups, i) by {
            assert(groups[0]@[i] == i as usize);
        }
    } else if lens.len() > 0 {
        let keys: Seq<u64> = length_keys(lens);
        let all: Seq<usize> = members(groups);
        assert forall|g: int, j: int|
            0 <= g < groups.len() && 0 <= j < groups[g]@.len() implies #[trigger] groups[g]@[j]
            < lens.len() by {
            lemma_member_at(groups, g, j);
        }
        assert forall|i: int| 0 <= i < lens.len() implies #[trigger] is_member(groups, i) by {
            assert(all.contains(i as usize));
            let at: int = choose|at: int| 0 <= at < all.len() && all[at] == i as usize;
            let r: (int, int) = lemma_member_of(groups, at);
            assert(groups[r.0]@[r.1] == i as usize);
        }
        assert forall|g: int, j: int, h: int, k: int|
            0 <= g < groups.len() && 0 <= j < groups[g]@.len() && 0 <= h < groups.len() && 0 <= k
                < groups[h]@.len() && #[trigger] groups[g]@[j] == #[trigger] groups[h]@[k] implies g
            == h && j == k by {
            lemma_member_at(groups, g, j);
            lemma_member_at(groups, h, k);
            let x: int = offset(groups, g) + j;
            let y: int = offset(groups, h) + k;
            if x < y {
                assert(crate::order::precedes(keys, all[x], all[y]));
            }
            if y < x {
                assert(crate::order::precedes(keys, all[y], all[x]));
            }
            if g < h {
                lemma_members_step(groups, g);
                lemma_members_prefix(groups, g + 1, h);
            }
            if h < g {
                lemma_members_step(groups, h);
                lemma_members_prefix(groups, h + 1, g);
            }
        }
    }
}

/// The groups of a split plan come longest first: no member is longer than a
/// member of an earlier group.
pub proof fn law_plan_is_longest_first<W: Fn(usize, usize) -> bool>(
    groups: Seq<Vec<usize>>,
    lens: Seq<usize>,
    within: &W,
    g: int,
    j: int,
    h: int,
    k: int,
)
    requires
        is_plan(groups, lens, true, within),
        0 <= g < h < groups.len(),
        0 <= j < groups[g]@.len(),
        0 <= k < groups[h]@.len(),
        lens.len() > 0,
    ensures
        lens[groups[g]@[j] as int] >= lens[groups[h]@[k] as int],
{
    lemma_member_at(groups, g, j);
    lemma_member_at(groups, h, k);
    lemma_members_step(groups, g);
    lemma_members_prefix(groups, g + 1, h);
    let all: Seq<usize> = members(groups);
    let x: int = offset(groups, g) + j;
    let y: int = offset(groups, h) + k;
    assert(crate::order::precedes(length_keys(lens), all[x], all[y]));
}

/// The lengths of token sequences, none of them above `max_len`.
pub open spec fn capped_lens(ids: Seq<Vec<u32>>, max_len: usize) -> Seq<usize> {
    ids.map_values(
        |v: Vec<u32>|
            if v@.len() < max_len {
                v@.len() as usize
            } else {
                max_len
            },
    )
}

/// The sum of some lengths.
pub open spec fn length_sum(lens: Seq<usize>) -> nat
    decreases lens.len(),
{
    if lens.len() == 0 {
        0
    } else {
        length_sum(lens.drop_last()) + lens.last() as nat
    }
}

/// The longest of some members.
pub open spec fn widest_of(group: Seq<usize>, lens: Seq<usize>) -> nat
    decreases group.len(),
{
    if group.len() == 0 {
        0
    } else {
        let rest: nat = widest_of(group.drop_last(), lens);
        let last: nat = lens[group.last() as int] as nat;
        if last > rest {
            last
        } else {
            rest
        }
    }
}

/// The tokens of all groups, each padded to its own length.
pub open spec fn padded_sum(groups: Seq<Vec<usize>>, lens: Seq<usize>, max_len: usize) -> nat
    decreases groups.len(),
{
    if groups.len() == 0 {
        0
    } else {
        padded_sum(groups.drop_last(), lens, max_len) + groups.last()@.len() * padded_len(
            widest_of(groups.last()@, lens),
            max_len as nat,
        )
    }
}

fn read_capped_lens(ids: &Vec<Vec<u32>>, max_len: usize) -> (r: Vec<usize>)
    ensures
        r@ == capped_lens(ids@, max_len),
{
    let mut out: Vec<usize> = Vec::new();
    let mut i: usize = 0;
    while i < ids.len()
        invariant
            i <= ids.len(),
            out@ =~= capped_lens(ids@.take(i as int), max_len),
        decreases ids.len() - i,
    {
        let len: usize = ids[i].len();
        out.push(
            if len < max_len {
                len
            } else {
                max_len
            },
        );
        i = i + 1;
    }
    assert(ids@.take(i as int) =~= ids@);
    out
}

fn read_length_sum(lens: &Vec<usize>) -> (r: usize)
    ensures
        r == clamped(length_sum(lens@)),
{
    let mut sum: usize = 0;
    let mut i: usize = 0;
    while i < lens.len()
        invariant
            i <= lens.len(),
            sum == clamped(length_sum(lens@.take(i as int))),
        decreases lens.len() - i,
    {
        assert(lens@.take(i + 1).drop_last() =~= lens@.take(i as int));
        sum = sum.saturating_add(lens[i]);
        i = i + 1;
    }
    assert(lens@.take(i as int) =~= lens@);
    sum
}

fn read_widest(group: &Vec<usize>, lens: &Vec<usize>) -> (r: usize)
    requires
        forall|j: int| 0 <= j < group@.len() ==> #[trigger] group@[j] < lens@.len(),
    ensures
        r == widest_of(group@, lens@),
{
    let mut best: usize = 0;
    let mut j: usize = 0;
    while j < group.len()
        invariant
            j <= group.len(),
            forall|k: int| 0 <= k < group@.len() ==> #[trigger] group@[k] < lens@.len(),
            best == widest_of(group@.take(j as int), lens@),
        decreases group.len() - j,
    {
        assert(group@.take(j + 1).drop_last() =~= group@.take(j as int));
        let len: usize = lens[group[j]];
        if len > best {
            best = len;
        }
        j = j + 1;
    }
    assert(group@.take(j as int) =~= group@);
    best
}

fn read_padded_sum(groups: &Vec<Vec<usize>>, lens: &Vec<usize>, max_len: usize) -> (r: usize)
    requires
        forall|g: int, j: int|
            0 <= g < groups@.len() && 0 <= j < groups@[g]@.len() ==> #[trigger] groups@[g]@[j]
                < lens@.len(),
    ensures
        r == clamped(padded_sum(groups@, lens@, max_len)),
{
    let mut sum: usize = 0;
    let mut g: usize = 0;
    while g < groups.len()
        invariant
            g <= groups.len(),
            forall|h: int, j: int|
                0 <= h < groups@.len() && 0 <= j < groups@[h]@.len() ==> #[trigger] groups@[h]@[j]
                    < lens@.len(),
            sum == clamped(padded_sum(groups@.take(g as int), lens@, max_len)),
        decreases groups.len() - g,
    {
        proof {
            assert(groups@.take(g + 1).drop_last() =~= groups@.take(g as int));
            assert forall|j: int| 0 <= j < groups@[g as int]@.len() implies #[trigger] groups@[g as int]@[j]
                < lens@.len() by {}
        }
        let len: usize = groups[g].len();
        let width: usize = round_up_seq_len(read_widest(&groups[g], lens), max_len);
        proof {
            assert(len * width >= 0) by (nonlinear_arith)
                requires
                    len >= 0,
                    width >= 0,
            ;
        }
        let cost: usize = match len.checked_mul(width) {
            Some(c) => c,
            None => usize::MAX,
        };
        sum = sum.saturating_add(cost);
        g = g + 1;
    }
    assert(groups@.take(g as int) =~= groups@);
    sum
}

/// The sequences of a group, in its order.
pub open spec fn is_selection(sub: Seq<Vec<u32>>, group: Seq<usize>, ids: Seq<Vec<u32>>) -> bool {
    &&& sub.len() == group.len()
    &&& forall|j: int| 0 <= j < group.len() ==> (#[trigger] sub[j])@ == ids[group[j] as int]@
}

fn select(group: &Vec<usize>, ids: &Vec<Vec<u32>>) -> (r: Vec<Vec<u32>>)
    requires
        forall|j: int| 0 <= j < group@.len() ==> #[trigger] group@[j] < ids@.len(),
    ensures
        is_selection(r@, group@, ids@),
{
    let mut out: Vec<Vec<u32>> = Vec::new();
    let mut j: usize = 0;
    while j < group.len()
        invariant
            j <= group.len(),
            forall|k: int| 0 <= k < group@.len() ==> #[trigger] group@[k] < ids@.len(),
            out@.len() == j,
            forall|k: int| 0 <= k < j ==> (#[trigger] out@[k])@ == ids@[group@[k] as int]@,
        decreases group.len() - j,
    {
        let copy: Vec<u32> = ids[group[j]].clone();
        assert(copy@ =~= ids@[group@[j as int] as int]@);
        out.push(copy);
        j = j + 1;
    }
    out
}

/// The pass over a group gave a vector for each member, and the request's
/// vectors hold each at the member's position.
pub open spec fn group_served<V, F: Fn(&Vec<Vec<u32>>) -> Result<Vec<V>, String>>(
    group: Seq<usize>,
    ids: Seq<Vec<u32>>,
    out: Seq<V>,
    one_pass: &F,
) -> bool {
    exists|sub: Vec<Vec<u32>>, vectors: Vec<V>|
        #![trigger call_ensures(one_pass, (&sub,), Ok::<Vec<V>, String>(vectors))]
        {
            &&& is_selection(sub@, group, ids)
            &&& call_ensures(one_pass, (&sub,), Ok::<Vec<V>, String>(vectors))
            &&& vectors@.len() == group.len()
            &&& forall|j: int|
                0 <= j < group.len() ==> out[#[trigger] group[j] as int] == vectors@[j]
        }
}

/// The message for a pass that gave another number of vectors than it was
/// given sequences.
pub open spec fn cardinality_error(expected: nat, got: nat) -> Seq<char> {
    "sub-batch cardinality: expected "@ + decimal(expected) + ", got "@ + decimal(got)
}

/// The pass over a group failed: with the message, or by giving another number
/// of vectors.
pub open spec fn group_failed<V, F: Fn(&Vec<Vec<u32>>) -> Result<Vec<V>, String>>(
    group: Seq<usize>,
    ids: Seq<Vec<u32>>,
    message: Seq<char>,
    one_pass: &F,
) -> bool {
    exists|sub: Vec<Vec<u32>>, result: Result<Vec<V>, String>|
        #![trigger call_ensures(one_pass, (&sub,), result)]
        {
            &&& is_selection(sub@, group, ids)
            &&& call_ensures(one_pass, (&sub,), result)
            &&& match result {
                Err(e) => message == e@,
                Ok(vectors) => vectors@.len() != group.len() && message == cardinality_error(
                    group.len(),
                    vectors@.len(),
                ),
            }
        }
}

/// The pass over each group gave a vector for each member.
pub open spec fn all_ran<V, F: Fn(&Vec<Vec<u32>>) -> Result<Vec<V>, String>>(
    groups: Seq<Vec<usize>>,
    ids: Seq<Vec<u32>>,
    one_pass: &F,
) -> bool {
    forall|g: int|
        0 <= g < groups.len() ==> group_ran::<V, F>((#[trigger] groups[g])@, ids, one_pass)
}

/// The pass over a group gave a vector for each member.
pub open spec fn group_ran<V, F: Fn(&Vec<Vec<u32>>) -> Result<Vec<V>, String>>(
    group: Seq<usize>,
    ids: Seq<Vec<u32>>,
    one_pass: &F,
) -> bool {
    exists|sub: Vec<Vec<u32>>, vectors: Vec<V>|
        #![trigger call_ensures(one_pass, (&sub,), Ok::<Vec<V>, String>(vectors))]
        {
            &&& is_selection(sub@, group, ids)
            &&& call_ensures(one_pass, (&sub,), Ok::<Vec<V>, String>(vectors))
            &&& vectors@.len() == group.len()
        }
}

/// What a request came to, given how it was split. An error is that of the first
/// group that failed.
pub open spec fn embedded<V, F: Fn(&Vec<Vec<u32>>) -> Result<Vec<V>, String>>(
    r: Result<Vec<V>, String>,
    groups: Seq<Vec<usize>>,
    ids: &Vec<Vec<u32>>,
    one_pass: &F,
) -> bool {
    if groups.len() <= 1 {
        call_ensures(one_pass, (ids,), r)
    } else {
        match r {
            Ok(out) => {
                &&& out@.len() == ids@.len()
                &&& forall|g: int|
                    0 <= g < groups.len() ==> group_served(
                        (#[trigger] groups[g])@,
                        ids@,
                        out@,
                        one_pass,
                    )
            },
            Err(e) => exists|g: int|
                0 <= g < groups.len() && group_failed::<V, F>(
                    (#[trigger] groups[g])@,
                    ids@,
                    e@,
                    one_pass,
                ) && all_ran::<V, F>(groups.take(g), ids@, one_pass),
        }
    }
}

/// What is recorded of a plan: the share of padding.
pub open spec fn plan_update(
    groups: Seq<Vec<usize>>,
    lens: Seq<usize>,
    max_len: usize,
    name: Seq<char>,
) -> UpdateView {
    of_model(
        "embed_batch_padding_waste_ratio"@,
        name,
        Change::HistogramRecord(
            waste(clamped(padded_sum(groups, lens, max_len)), clamped(length_sum(lens))),
        ),
    )
}

proof fn lemma_all_ran<V, F: Fn(&Vec<Vec<u32>>) -> Result<Vec<V>, String>>(
    groups: Seq<Vec<usize>>,
    ids: Seq<Vec<u32>>,
    done: Seq<Vec<V>>,
    one_pass: &F,
)
    requires
        done.len() <= groups.len(),
        forall|h: int|
            0 <= h < done.len() ==> pass_gave((#[trigger] groups[h])@, ids, done[h], one_pass),
    ensures
        all_ran::<V, F>(groups.take(done.len() as int), ids, one_pass),
{
    let first: Seq<Vec<usize>> = groups.take(done.len() as int);
    assert forall|g: int| 0 <= g < first.len() implies group_ran::<V, F>(
        (#[trigger] first[g])@,
        ids,
        one_pass,
    ) by {
        assert(pass_gave(groups[g]@, ids, done[g], one_pass));
    }
}

/// Embeds token sequences: one vector for each, in their order. The request is
/// split as planned, and `one_pass` runs over each group.
pub fn embed_tokens<
    V,
    W: Fn(usize, usize) -> bool,
    F: Fn(&Vec<Vec<u32>>) -> Result<Vec<V>, String>,
>(
    token_ids: &Vec<Vec<u32>>,
    max_len: usize,
    split: bool,
    within: &W,
    one_pass: &F,
    name: &str,
    log: &mut MetricLog,
) -> (r: Result<Vec<V>, String>)
    requires
        forall|widest: usize, len: usize| call_requires(within, (widest, len)),
        forall|ids: &Vec<Vec<u32>>| call_requires(one_pass, (ids,)),
    ensures
        token_ids@.len() == 0 ==> (r matches Ok(out) && out@.len() == 0) && final(log)@ == old(log)@,
        token_ids@.len() > 0 ==> exists|groups: Seq<Vec<usize>>|
            {
                &&& #[trigger] is_plan(groups, capped_lens(token_ids@, max_len), split, within)
                &&& embedded(r, groups, token_ids, one_pass)
                &&& final(log)@ == old(log)@.push(
                    plan_update(groups, capped_lens(token_ids@, max_len), max_len, name@),
                )
            },
{
    if token_ids.len() == 0 {
        return Ok(Vec::new());
    }
    let n: usize = token_ids.len();
    let lens: Vec<usize> = read_capped_lens(token_ids, max_len);
    let groups: Vec<Vec<usize>> = plan_subbatches(&lens, split, within);
    proof {
        law_plan_uses_each_position_once(groups@, lens@, split, within);
    }
    let padded: usize = read_padded_sum(&groups, &lens, max_len);
    record_padding_waste(log, name, padded, read_length_sum(&lens));
    if groups.len() <= 1 {
        let r: Result<Vec<V>, String> = one_pass(token_ids);
        assert(is_plan(groups@, lens@, split, within));
        assert(embedded(r, groups@, token_ids, one_pass));
        return r;
    }
    let mut slots: Vec<Option<V>> = Vec::new();
    while slots.len() < n
        invariant
            slots@.len() <= n,
            forall|i: int| 0 <= i < slots@.len() ==> (#[trigger] slots@[i]) is None,
        decreases n - slots.len(),
    {
        slots.push(None);
    }
    let ghost mut done: Seq<Vec<V>> = Seq::empty();
    let mut g: usize = 0;
    while g < groups.len()
        invariant
            g <= groups.len(),
            n == token_ids.len(),
            slots@.len() == n,
            done.len() == g,
            lens@.len() == n,
            groups@.len() >= 2,
            lens@ == capped_lens(token_ids@, max_len),
            log@ == old(log)@.push(plan_update(groups@, lens@, max_len, name@)),
            is_plan(groups@, lens@, split, within),
            forall|ids: &Vec<Vec<u32>>| call_requires(one_pass, (ids,)),
            forall|h: int, j: int|
                0 <= h < groups@.len() && 0 <= j < groups@[h]@.len() ==> #[trigger] groups@[h]@[j]
                    < n,
            forall|h: int, j: int, l: int, k: int|
                0 <= h < groups@.len() && 0 <= j < groups@[h]@.len() && 0 <= l < groups@.len() && 0
                    <= k < groups@[l]@.len() && #[trigger] groups@[h]@[j] == #[trigger] groups@[l]@[k]
                    ==> h == l && j == k,
            forall|h: int|
                0 <= h < g ==> pass_gave((#[trigger] groups@[h])@, token_ids@, done[h], one_pass),
            forall|h: int, j: int|
                0 <= h < g && 0 <= j < groups@[h]@.len() ==> slots@[#[trigger] groups@[h]@[j] as int]
                    == Some(done[h]@[j]),
        decreases groups.len() - g,
    {
        let group: &Vec<usize> = &groups[g];
        proof {
            assert forall|j: int| 0 <= j < group@.len() implies #[trigger] group@[j] < n by {
                assert(groups@[g as int]@[j] < n);
            }
        }
        let sub: Vec<Vec<u32>> = select(group, token_ids);
        let vectors: Vec<V> = match one_pass(&sub) {
            Ok(v) => v,
            Err(e) => {
                let r: Result<Vec<V>, String> = Err(e);
                proof {
                    assert(call_ensures(one_pass, (&sub,), r));
                    assert(group_failed::<V, F>(groups@[g as int]@, token_ids@, e@, one_pass));
                    lemma_all_ran(groups@, token_ids@, done, one_pass);
                    assert(embedded(r, groups@, token_ids, one_pass));
                }
                return r;
            },
        };
        if vectors.len() != group.len() {
            let mut m: String = "sub-batch cardinality: expected ".to_owned();
            crate::text::push_decimal(&mut m, group.len() as u64);
            m.append(", got ");
            crate::text::push_decimal(&mut m, vectors.len() as u64);
            proof {
                let result: Result<Vec<V>, String> = Ok(vectors);
                assert(call_ensures(one_pass, (&sub,), result));
                assert(group_failed::<V, F>(groups@[g as int]@, token_ids@, m@, one_pass));
                lemma_all_ran(groups@, token_ids@, done, one_pass);
            }
            let r: Result<Vec<V>, String> = Err(m);
            assert(embedded(r, groups@, token_ids, one_pass));
            return r;
        }
        proof {
            assert(pass_gave(groups@[g as int]@, token_ids@, vectors, one_pass));
            done = done.push(vectors);
        }
        let ghost given: Seq<V> = vectors@;
        let mut j: usize = 0;
        for vector in it: vectors
            invariant
                it.seq() == given,
                j == it.index(),
                given.len() == group.len(),
                g < groups@.len(),
                *group == groups@[g as int],
                slots@.len() == n,
                done.len() == g + 1,
                done[g as int]@ == given,
                forall|h: int, i: int|
                    0 <= h < groups@.len() && 0 <= i < groups@[h]@.len()
                        ==> #[trigger] groups@[h]@[i] < n,
                forall|h: int, i: int, l: int, k: int|
                    0 <= h < groups@.len() && 0 <= i < groups@[h]@.len() && 0 <= l < groups@.len()
                        && 0 <= k < groups@[l]@.len() && #[trigger] groups@[h]@[i]
                        == #[trigger] groups@[l]@[k] ==> h == l && i == k,
                forall|h: int, i: int|
                    (0 <= h < g && 0 <= i < groups@[h]@.len()) || (h == g && 0 <= i < j)
                        ==> slots@[#[trigger] groups@[h]@[i] as int] == Some(done[h]@[i]),
        {
            assert(groups@[g as int]@[j as int] < n);
            slots[group[j]] = Some(vector);
            j = j + 1;
        }
        g = g + 1;
    }
    proof {
        assert forall|i: int| 0 <= i < n implies (#[trigger] slots@[i]) is Some by {
            assert(is_member(groups@, i));
            let (h, j): (int, int) = choose|h: int, j: int|
                0 <= h < groups@.len() && 0 <= j < groups@[h]@.len() && #[trigger] groups@[h]@[j]
                    == i;
            assert(slots@[groups@[h]@[j] as int] == Some(done[h]@[j]));
        }
    }
    let out: Vec<V> = all_some(slots);
    proof {
        assert forall|h: int| 0 <= h < groups@.len() implies group_served(
            (#[trigger] groups@[h])@,
            token_ids@,
            out@,
            one_pass,
        ) by {
            assert(pass_gave(groups@[h]@, token_ids@, done[h], one_pass));
            let sub: Vec<Vec<u32>> = choose|sub: Vec<Vec<u32>>|
                is_selection(sub@, groups@[h]@, token_ids@) && #[trigger] call_ensures(
                    one_pass,
                    (&sub,),
                    Ok::<Vec<V>, String>(done[h]),
                );
            assert forall|j: int| 0 <= j < groups@[h]@.len() implies out@[#[trigger] groups@[h]@[j] as int]
                == done[h]@[j] by {
                assert(slots@[groups@[h]@[j] as int] == Some(done[h]@[j]));
            }
        }
        assert(embedded(Ok::<Vec<V>, String>(out), groups@, token_ids, one_pass));
    }
    Ok(out)
}

/// The pass over a group gave these vectors, one for each member.
spec fn pass_gave<V, F: Fn(&Vec<Vec<u32>>) -> Result<Vec<V>, String>>(
    group: Seq<usize>,
    ids: Seq<Vec<u32>>,
    vectors: Vec<V>,
    one_pass: &F,
) -> bool {
    &&& vectors@.len() == group.len()
    &&& exists|sub: Vec<Vec<u32>>|
        is_selection(sub@, group, ids) && #[trigger] call_ensures(
            one_pass,
            (&sub,),
            Ok::<Vec<V>, String>(vectors),
        )
}

fn all_some<V>(slots: Vec<Option<V>>) -> (r: Vec<V>)
    requires
        forall|i: int| 0 <= i < slots@.len() ==> (#[trigger] slots@[i]) is Some,
    ensures
        r@.len() == slots@.len(),
        forall|i: int| 0 <= i < r@.len() ==> slots@[i] == Some(#[trigger] r@[i]),
{
    let ghost all: Seq<Option<V>> = slots@;
    let mut out: Vec<V> = Vec::new();
    for slot in it: slots
        invariant
            it.seq() == all,
            forall|i: int| 0 <= i < all.len() ==> (#[trigger] all[i]) is Some,
            out@.len() == it.index(),
            forall|i: int| 0 <= i < out@.len() ==> all[i] == Some(#[trigger] out@[i]),
    {
        assert(all[it.index()] is Some);
        match slot {
            Some(v) => {
                out.push(v);
            },
            None => {},
        }
    }
    out
}

/// The shape of one pass: sequences and the length that they are padded to.
#[derive(Clone, Copy, Debug, PartialEq, Eq, Structural)]
pub struct PassShape {
    pub batch: usize,
    pub max_seq: usize,
}

/// The length to which the sequences of one pass are padded.
pub open spec fn pass_len(ids: Seq<Vec<u32>>, max_len: usize) -> nat {
    let own: nat = crate::batcher::longest(ids);
    padded_len(
        if own < max_len {
            own
        } else {
            max_len as nat
        },
        max_len as nat,
    )
}

/// What is recorded of one pass before it runs.
pub open spec fn pass_updates(shape: PassShape, num_heads: usize, name: Seq<char>) -> Seq<
    UpdateView,
> {
    seq![
        UpdateView {
            name: "embed_batch_dimensions_total"@,
            labels: seq![
                ("model"@, name),
                ("batch_size_bucket"@, crate::metrics::batch_size_label(shape.batch)),
                ("seq_len_bucket"@, crate::metrics::seq_len_label(shape.max_seq)),
            ],
            change: Change::CounterIncrement(1),
        },
        of_model(
            "embed_batch_token_budget"@,
            name,
            Change::HistogramRecord(Amount::Whole((shape.batch * shape.max_seq) as u128)),
        ),
        of_model(
            "embed_inference_attention_scratch_bytes"@,
            name,
            Change::HistogramRecord(
                Amount::Scratch {
                    batch_size: shape.batch,
                    num_heads,
                    seq_len: shape.max_seq,
                },
            ),
        ),
    ]
}

/// Decides the shape of one pass and records it.
pub fn plan_pass(
    token_ids: &Vec<Vec<u32>>,
    max_len: usize,
    num_heads: usize,
    name: &str,
    log: &mut MetricLog,
) -> (r: PassShape)
    requires
        token_ids@.len() * pass_len(token_ids@, max_len) <= usize::MAX,
    ensures
        r.batch == token_ids@.len(),
        r.max_seq == pass_len(token_ids@, max_len),
        final(log)@ == old(log)@ + pass_updates(r, num_heads, name@),
{
    let longest: usize = crate::batcher::max_seq_len_of(token_ids);
    let own: usize = if longest < max_len {
        longest
    } else {
        max_len
    };
    let shape: PassShape = PassShape {
        batch: token_ids.len(),
        max_seq: round_up_seq_len(own, max_len),
    };
    let ghost before: Seq<UpdateView> = log@;
    record_batch_dimensions(log, name, shape.batch, shape.max_seq);
    record_batch_token_budget(log, name, shape.batch, shape.max_seq);
    record_attention_scratch(log, name, shape.batch, num_heads, shape.max_seq);
    assert(log@ =~= before + pass_updates(shape, num_heads, name@));
    shape
}

/// One sequence as a row of `width` numbers: its tokens, and the padding token
/// behind them.
pub open spec fn id_row(ids: Seq<u32>, width: nat, pad_id: u32) -> Seq<i64> {
    Seq::new(
        width,
        |j: int|
            if j < ids.len() {
                ids[j] as i64
            } else {
                pad_id as i64
            },
    )
}

/// Which of the numbers of a row are tokens.
pub open spec fn mask_row(ids: Seq<u32>, width: nat) -> Seq<i64> {
    Seq::new(
        width,
        |j: int|
            if j < ids.len() {
                1
            } else {
                0
            },
    )
}

/// The rows of some sequences, one after the other.
pub open spec fn id_rows(ids: Seq<Vec<u32>>, width: nat, pad_id: u32) -> Seq<i64>
    decreases ids.len(),
{
    if ids.len() == 0 {
        Seq::empty()
    } else {
        id_rows(ids.drop_last(), width, pad_id) + id_row(ids.last()@, width, pad_id)
    }
}

/// The masks of some sequences, one after the other.
pub open spec fn mask_rows(ids: Seq<Vec<u32>>, width: nat) -> Seq<i64>
    decreases ids.len(),
{
    if ids.len() == 0 {
        Seq::empty()
    } else {
        mask_rows(ids.drop_last(), width) + mask_row(ids.last()@, width)
    }
}

/// The inputs of one pass, row by row: the tokens padded to one length, which
/// of them are tokens, and, where the model takes them, token types (all zero).
pub fn build_tensors_from_ids(
    token_ids: &Vec<Vec<u32>>,
    max_seq: usize,
    pad_id: u32,
    has_token_type_ids: bool,
) -> (r: (Vec<i64>, Vec<i64>, Option<Vec<i64>>))
    ensures
        r.0@ == id_rows(token_ids@, max_seq as nat, pad_id),
        r.1@ == mask_rows(token_ids@, max_seq as nat),
        match r.2 {
            Some(types) => has_token_type_ids && types@.len() == r.0@.len() && forall|i: int|
                0 <= i < types@.len() ==> #[trigger] types@[i] == 0,
            None => !has_token_type_ids,
        },
{
    let mut ids: Vec<i64> = Vec::new();
    let mut mask: Vec<i64> = Vec::new();
    let mut types: Vec<i64> = Vec::new();
    let mut i: usize = 0;
    while i < token_ids.len()
        invariant
            i <= token_ids.len(),
            ids@ == id_rows(token_ids@.take(i as int), max_seq as nat, pad_id),
            mask@ == mask_rows(token_ids@.take(i as int), max_seq as nat),
            types@.len() == ids@.len(),
            forall|k: int| 0 <= k < types@.len() ==> #[trigger] types@[k] == 0,
        decreases token_ids.len() - i,
    {
        let row: &Vec<u32> = &token_ids[i];
        let ghost ids_before: Seq<i64> = ids@;
        let ghost mask_before: Seq<i64> = mask@;
        proof {
            assert(token_ids@.take(i + 1).drop_last() =~= token_ids@.take(i as int));
        }
        let mut j: usize = 0;
        while j < max_seq
            invariant
                j <= max_seq,
                ids@ =~= ids_before + id_row(row@, max_seq as nat, pad_id).take(j as int),
                mask@ =~= mask_before + mask_row(row@, max_seq as nat).take(j as int),
                types@.len() == ids@.len(),
                forall|k: int| 0 <= k < types@.len() ==> #[trigger] types@[k] == 0,
            decreases max_seq - j,
        {
            if j < row.len() {
                ids.push(row[j] as i64);
                mask.push(1);
            } else {
                ids.push(pad_id as i64);
                mask.push(0);
            }
            types.push(0);
            j = j + 1;
        }
        proof {
            assert(id_row(row@, max_seq as nat, pad_id).take(max_seq as int) =~= id_row(
                row@,
                max_seq as nat,
                pad_id,
            ));
            assert(mask_row(row@, max_seq as nat).take(max_seq as int) =~= mask_row(
                row@,
                max_seq as nat,
            ));
        }
        i = i + 1;
    }
    assert(token_ids@.take(i as int) =~= token_ids@);
    let token_types: Option<Vec<i64>> = if has_token_type_ids {
        Some(types)
    } else {
        None
    };
    (ids, mask, token_types)
}

/// The inputs of a pass have one number for each position of each row.
pub proof fn law_inputs_fill_the_shape(ids: Seq<Vec<u32>>, width: nat, pad_id: u32)
    ensures
        id_rows(ids, width, pad_id).len() == ids.len() * width,
        mask_rows(ids, width).len() == ids.len() * width,
    decreases ids.len(),
{
    if ids.len() > 0 {
        law_inputs_fill_the_shape(ids.drop_last(), width, pad_id);
        let n: int = ids.len() as int;
        assert(n * width == (n - 1) * width + width) by (nonlinear_arith);
    } else {
        assert(ids.len() * width == 0) by (nonlinear_arith)
            requires
                ids.len() == 0,
        ;
    }
}

/// The inputs of a sequence depend on the sequence alone: its row holds its own
/// tokens, and only these are marked, whatever else is in the batch.
pub proof fn law_rows_do_not_mix(ids: Seq<Vec<u32>>, width: nat, pad_id: u32, i: int)
    requires
        0 <= i < ids.len(),
    ensures
        id_rows(ids, width, pad_id).subrange(i * width, i * width + width) == id_row(
            ids[i]@,
            width,
            pad_id,
        ),
        mask_rows(ids, width).subrange(i * width, i * width + width) == mask_row(ids[i]@, width),
    decreases ids.len(),
{
    let rest: Seq<Vec<u32>> = ids.drop_last();
    let n: int = rest.len() as int;
    law_inputs_fill_the_shape(rest, width, pad_id);
    law_inputs_fill_the_shape(ids, width, pad_id);
    assert(0 <= i * width) by (nonlinear_arith)
        requires
            0 <= i,
            0 <= width,
    ;
    if i < n {
        law_rows_do_not_mix(rest, width, pad_id, i);
        assert(i * width + width <= n * width) by (nonlinear_arith)
            requires
                i + 1 <= n,
                0 <= width,
        ;
        assert(id_rows(ids, width, pad_id).subrange(i * width, i * width + width) =~= id_rows(
            rest,
            width,
            pad_id,
        ).subrange(i * width, i * width + width));
        assert(mask_rows(ids, width).subrange(i * width, i * width + width) =~= mask_rows(
            rest,
            width,
        ).subrange(i * width, i * width + width));
    } else {
        assert(id_rows(ids, width, pad_id).subrange(i * width, i * width + width) =~= id_row(
            ids[i]@,
            width,
            pad_id,
        ));
        assert(mask_rows(ids, width).subrange(i * width, i * width + width) =~= mask_row(
            ids[i]@,
            width,
        ));
    }
}

/// Cuts each sequence to at most `max_len` tokens; also returns how many were
/// longer.
pub fn clip_ids(ids: Vec<Vec<u32>>, max_len: usize) -> (r: (Vec<Vec<u32>>, usize))
    ensures
        r.0@.len() == ids@.len(),
        forall|i: int|
            0 <= i < ids@.len() ==> (#[trigger] r.0@[i])@ == if ids@[i]@.len() > max_len {
                ids@[i]@.take(max_len as int)
            } else {
                ids@[i]@
            },
        r.1 == overlong(ids@, max_len as nat),
{
    let ghost all: Seq<Vec<u32>> = ids@;
    let mut out: Vec<Vec<u32>> = Vec::new();
    let mut clipped: usize = 0;
    assert(all.take(0) =~= Seq::empty());
    let n: usize = ids.len();
    for row in it: ids
        invariant
            it.seq() == all,
            all.len() == n,
            out@.len() == it.index(),
            clipped <= it.index(),
            clipped == overlong(all.take(it.index()), max_len as nat),
            forall|i: int|
                0 <= i < it.index() ==> (#[trigger] out@[i])@ == if all[i]@.len() > max_len {
                    all[i]@.take(max_len as int)
                } else {
                    all[i]@
                },
    {
        proof {
            assert(all.take(it.index() + 1).drop_last() =~= all.take(it.index()));
        }
        let mut own: Vec<u32> = row;
        if own.len() > max_len {
            clipped = clipped + 1;
            own.truncate(max_len);
        }
        out.push(own);
    }
    assert(all.take(all.len() as int) =~= all);
    (out, clipped)
}

/// The number of sequences of more than `max_len` tokens.
pub open spec fn overlong(ids: Seq<Vec<u32>>, max_len: nat) -> nat
    decreases ids.len(),
{
    if ids.len() == 0 {
        0
    } else {
        overlong(ids.drop_last(), max_len) + if ids.last()@.len() > max_len {
            1nat
        } else {
            0nat
        }
    }
}

/// Each number of a pass's inputs, by its row and its place in the row: the row
/// of a sequence holds the sequence's tokens, each at its own place and each
/// marked with one, and behind them nothing but the padding token, marked with
/// zero.
pub proof fn law_each_token_is_in_its_place(
    ids: Seq<Vec<u32>>,
    width: nat,
    pad_id: u32,
    i: int,
    j: int,
)
    requires
        0 <= i < ids.len(),
        0 <= j < width,
    ensures
        0 <= i * width + j < id_rows(ids, width, pad_id).len(),
        id_rows(ids, width, pad_id).len() == ids.len() * width,
        mask_rows(ids, width).len() == ids.len() * width,
        j < ids[i]@.len() ==> id_rows(ids, width, pad_id)[i * width + j] == ids[i]@[j],
        j < ids[i]@.len() ==> mask_rows(ids, width)[i * width + j] == 1,
        j >= ids[i]@.len() ==> id_rows(ids, width, pad_id)[i * width + j] == pad_id,
        j >= ids[i]@.len() ==> mask_rows(ids, width)[i * width + j] == 0,
{
    law_inputs_fill_the_shape(ids, width, pad_id);
    law_rows_do_not_mix(ids, width, pad_id, i);
    assert(0 <= i * width && i * width + width <= ids.len() * width) by (nonlinear_arith)
        requires
            0 <= i < ids.len(),
            0 <= width,
    ;
    let row: Seq<i64> = id_rows(ids, width, pad_id).subrange(i * width, i * width + width);
    let mask: Seq<i64> = mask_rows(ids, width).subrange(i * width, i * width + width);
    assert(row[j] == id_rows(ids, width, pad_id)[i * width + j]);
    assert(mask[j] == mask_rows(ids, width)[i * width + j]);
}

proof fn lemma_ones_then_zeros(m: Seq<i64>, n: nat)
    requires
        n <= m.len(),
        forall|j: int| 0 <= j < n ==> #[trigger] m[j] == 1,
        forall|j: int| n <= j < m.len() ==> #[trigger] m[j] == 0,
    ensures
        m.fold_left(0int, |sum: int, x: i64| sum + x) == n,
    decreases m.len(),
{
    if m.len() > 0 {
        let rest: Seq<i64> = m.drop_last();
        if n == m.len() {
            lemma_ones_then_zeros(rest, (n - 1) as nat);
        } else {
            lemma_ones_then_zeros(rest, n);
        }
    }
}

/// As many numbers of a row are marked as its sequence has tokens, where the row
/// holds them all.
pub proof fn law_every_token_is_attended_to(ids: Seq<Vec<u32>>, width: nat, i: int)
    requires
        0 <= i < ids.len(),
        ids[i]@.len() <= width,
    ensures
        mask_rows(ids, width).subrange(i * width, i * width + width).fold_left(
            0int,
            |sum: int, x: i64| sum + x,
        ) == ids[i]@.len(),
{
    law_rows_do_not_mix(ids, width, 0, i);
    lemma_ones_then_zeros(mask_row(ids[i]@, width), ids[i]@.len());
}

/// The padded length is the least power of two that holds the tokens, or the
/// cap where that is less.
pub proof fn law_padded_len_is_least(n: nat, cap: nat) -> (k: nat)
    requires
        n > 0,
    ensures
        pow2(k) >= n,
        k > 0 ==> pow2((k - 1) as nat) < n,
        n > 1 ==> padded_len(n, cap) == if pow2(k) <= cap {
            pow2(k)
        } else {
            cap
        },
        n == 1 ==> padded_len(n, cap) == 1,
{
    vstd::arithmetic::power2::lemma2_to64();
    assert(pow2(0) == 1);
    lemma_doubled_to_is_large(1, n);
    lemma_doubled_power(0, n)
}

/// A pass is wide enough for every sequence, up to the most tokens that the
/// model takes, is no wider than these (or one), and is as wide as the longest
/// of its sequences asks for.
pub proof fn law_pass_holds_every_sequence(
    ids: Seq<Vec<u32>>,
    max_len: usize,
    i: int,
) -> (k: int)
    requires
        0 <= i < ids.len(),
    ensures
        ids[i]@.len() <= max_len ==> ids[i]@.len() <= pass_len(ids, max_len),
        ids[i]@.len() > max_len ==> max_len <= pass_len(ids, max_len),
        pass_len(ids, max_len) <= max_len || pass_len(ids, max_len) == 1,
        0 <= k < ids.len(),
        forall|h: int| 0 <= h < ids.len() ==> (#[trigger] ids[h])@.len() <= ids[k]@.len(),
        pass_len(ids, max_len) == padded_len(
            if ids[k]@.len() < max_len {
                ids[k]@.len()
            } else {
                max_len as nat
            },
            max_len as nat,
        ),
{
    let k: int = crate::batcher::law_longest_is_one_of_them(ids);
    let own: nat = crate::batcher::longest(ids);
    let cut: nat = if own < max_len {
        own
    } else {
        max_len as nat
    };
    law_padded_len_holds_the_tokens(cut, max_len as nat);
    assert(ids[i]@.len() <= ids[k]@.len());
    k
}

/// The members of a group were each found to be within reach of the group's
/// first one, and the first of the next group was not; a length of zero counts
/// as one.
pub proof fn law_groups_are_bands<W: Fn(usize, usize) -> bool>(
    groups: Seq<Vec<usize>>,
    lens: Seq<usize>,
    within: &W,
    g: int,
    j: int,
)
    requires
        is_plan(groups, lens, true, within),
        lens.len() > 0,
        0 <= g < groups.len(),
        0 < j < groups[g]@.len(),
    ensures
        call_ensures(
            within,
            (
                if lens[groups[g]@[0] as int] == 0 {
                    1
                } else {
                    lens[groups[g]@[0] as int]
                },
                if lens[groups[g]@[j] as int] == 0 {
                    1
                } else {
                    lens[groups[g]@[j] as int]
                },
            ),
            true,
        ),
        g + 1 < groups.len() ==> call_ensures(
            within,
            (
                if lens[groups[g]@[0] as int] == 0 {
                    1
                } else {
                    lens[groups[g]@[0] as int]
                },
                if lens[groups[g + 1]@[0] as int] == 0 {
                    1
                } else {
                    lens[groups[g + 1]@[0] as int]
                },
            ),
            false,
        ),
{
    assert(is_band(groups[g]@, lens, within));
    assert(0 <= g < groups.len() - 1 ==> is_cut(groups[g]@, groups[g + 1]@, lens, within));
}

/// A request that is not to be split is one group of all positions, in order.
pub proof fn law_unsplit_plan_is_the_request<W: Fn(usize, usize) -> bool>(
    groups: Seq<Vec<usize>>,
    lens: Seq<usize>,
    within: &W,
    i: int,
)
    requires
        is_plan(groups, lens, false, within),
        0 <= i < lens.len() <= usize::MAX,
    ensures
        groups.len() == 1,
        groups[0]@.len() == lens.len(),
        groups[0]@[i] == i,
{
}

/// Each sequence gets the vector that a pass gave for that very sequence: at
/// every position of the request stands the vector of a sequence with the same
/// tokens, from the same place of a pass.
pub proof fn law_each_vector_is_of_its_own_sequence<
    V,
    W: Fn(usize, usize) -> bool,
    F: Fn(&Vec<Vec<u32>>) -> Result<Vec<V>, String>,
>(
    out: Vec<V>,
    groups: Seq<Vec<usize>>,
    ids: &Vec<Vec<u32>>,
    lens: Seq<usize>,
    split: bool,
    within: &W,
    one_pass: &F,
    i: int,
) -> (r: (Vec<Vec<u32>>, Vec<V>, int))
    requires
        embedded(Ok::<Vec<V>, String>(out), groups, ids, one_pass),
        is_plan(groups, lens, split, within),
        lens.len() == ids@.len() <= usize::MAX,
        0 <= i < ids@.len(),
        groups.len() <= 1 ==> out@.len() == ids@.len(),
    ensures
        call_ensures(one_pass, (&r.0,), Ok::<Vec<V>, String>(r.1)),
        0 <= r.2 < r.0@.len(),
        r.2 < r.1@.len(),
        r.0@[r.2]@ == ids@[i]@,
        out@[i] == r.1@[r.2],
        out@.len() == ids@.len(),
{
    law_plan_uses_each_position_once(groups, lens, split, within);
    if groups.len() <= 1 {
        (*ids, out, i)
    } else {
        assert(is_member(groups, i));
        let (g, j) = choose|g: int, j: int|
            0 <= g < groups.len() && 0 <= j < groups[g]@.len() && #[trigger] groups[g]@[j] == i;
        assert(group_served(groups[g]@, ids@, out@, one_pass));
        let (sub, vectors) = choose|sub: Vec<Vec<u32>>, vectors: Vec<V>|
            #![trigger call_ensures(one_pass, (&sub,), Ok::<Vec<V>, String>(vectors))]
            {
                &&& is_selection(sub@, groups[g]@, ids@)
                &&& call_ensures(one_pass, (&sub,), Ok::<Vec<V>, String>(vectors))
                &&& vectors@.len() == groups[g]@.len()
                &&& forall|k: int|
                    0 <= k < groups[g]@.len() ==> out@[#[trigger] groups[g]@[k] as int]
                        == vectors@[k]
            };
        assert(sub@[j]@ == ids@[groups[g]@[j] as int]@);
        assert(out@[groups[g]@[j] as int] == vectors@[j]);
        (sub, vectors, j)
    }
}

/// The longest of some members is at least as long as each, and one of them is
/// that long.
pub proof fn law_widest_is_one_of_them(group: Seq<usize>, lens: Seq<usize>) -> (k: int)
    requires
        group.len() > 0,
    ensures
        0 <= k < group.len(),
        widest_of(group, lens) == lens[group[k] as int],
        forall|j: int|
            0 <= j < group.len() ==> lens[#[trigger] group[j] as int] <= lens[group[k] as int],
    decreases group.len(),
{
    let rest: Seq<usize> = group.drop_last();
    let n: int = group.len() - 1;
    if rest.len() == 0 {
        assert(widest_of(rest, lens) == 0);
        n
    } else {
        let k: int = law_widest_is_one_of_them(rest, lens);
        assert forall|j: int| 0 <= j < group.len() implies lens[#[trigger] group[j] as int]
            <= widest_of(group, lens) by {
            if j < n {
                assert(rest[j] == group[j]);
            }
        }
        if lens[group[n] as int] > lens[rest[k] as int] {
            n
        } else {
            k
        }
    }
}

/// The tokens of a plan: those of the request are the sum of the lengths, none
/// above `max_len`; those that are run are, for each group, its members times
/// the padded length of its longest one.
pub proof fn law_padding_is_counted(
    ids: Seq<Vec<u32>>,
    max_len: usize,
    groups: Seq<Vec<usize>>,
    group: Vec<usize>,
    lens: Seq<usize>,
    n: usize,
    i: int,
)
    requires
        0 <= i < ids.len(),
        ids[i]@.len() <= usize::MAX,
    ensures
        capped_lens(ids, max_len).len() == ids.len(),
        ids[i]@.len() <= max_len ==> capped_lens(ids, max_len)[i] == ids[i]@.len(),
        ids[i]@.len() > max_len ==> capped_lens(ids, max_len)[i] == max_len,
        length_sum(Seq::empty()) == 0,
        length_sum(lens.push(n)) == length_sum(lens) + n,
        padded_sum(Seq::empty(), lens, max_len) == 0,
        padded_sum(groups.push(group), lens, max_len) == padded_sum(groups, lens, max_len)
            + group@.len() * padded_len(widest_of(group@, lens), max_len as nat),
{
    assert(lens.push(n).drop_last() =~= lens);
    assert(groups.push(group).drop_last() =~= groups);
}

/// The number of overlong sequences grows by one with each sequence of more than
/// `max_len` tokens, and by none with another; it is zero exactly where every
/// sequence fits.
pub proof fn law_overlong_sequences_are_counted(
    ids: Seq<Vec<u32>>,
    next: Vec<u32>,
    max_len: nat,
)
    ensures
        overlong(Seq::empty(), max_len) == 0,
        next@.len() > max_len ==> overlong(ids.push(next), max_len) == overlong(ids, max_len) + 1,
        next@.len() <= max_len ==> overlong(ids.push(next), max_len) == overlong(ids, max_len),
        overlong(ids, max_len) <= ids.len(),
        overlong(ids, max_len) == 0 <==> forall|i: int|
            0 <= i < ids.len() ==> (#[trigger] ids[i])@.len() <= max_len,
    decreases ids.len(),
{
    assert(ids.push(next).drop_last() =~= ids);
    if ids.len() > 0 {
        law_overlong_sequences_are_counted(ids.drop_last(), next, max_len);
        let rest: Seq<Vec<u32>> = ids.drop_last();
        assert(forall|i: int| 0 <= i < rest.len() ==> rest[i] == ids[i]);
        if overlong(ids, max_len) == 0 {
            assert forall|i: int| 0 <= i < ids.len() implies (#[trigger] ids[i])@.len()
                <= max_len by {
                if i < rest.len() {
                    assert(rest[i]@.len() <= max_len);
                }
            }
        }
    }
}

/// A runtime error is one of memory exactly where its message holds both marks
/// of one.
pub proof fn law_memory_errors(a: Seq<char>, b: Seq<char>, c: Seq<char>)
    ensures
        runtime_error_label(
            a + "Available memory of"@ + b + "smaller than requested"@ + c,
        ) == "arena_oom"@,
        runtime_error_label(
            a + "smaller than requested"@ + b + "Available memory of"@ + c,
        ) == "arena_oom"@,
        !contains_text(a, "Available memory of"@) || !contains_text(a, "smaller than requested"@)
            ==> runtime_error_label(a) == "other"@,
{
    let x: Seq<char> = "Available memory of"@;
    let y: Seq<char> = "smaller than requested"@;
    crate::text::law_holding_a_text(a, x, b + y + c);
    crate::text::law_holding_a_text(a + x + b, y, c);
    assert(a + x + (b + y + c) =~= a + x + b + y + c);
    crate::text::law_holding_a_text(a, y, b + x + c);
    crate::text::law_holding_a_text(a + y + b, x, c);
    assert(a + y + (b + x + c) =~= a + y + b + x + c);
}

/// How far a graph is optimized: not at all for zero, to the first or second
/// level for one and two, and fully for everything else.
pub proof fn law_opt_level(n: nat)
    ensures
        opt_level(None) == OptLevel::Level3,
        opt_level(Some(decimal(n))) == if n == 0 {
            OptLevel::Disable
        } else if n == 1 {
            OptLevel::Level1
        } else if n == 2 {
            OptLevel::Level2
        } else {
            OptLevel::Level3
        },
{
    if n <= u8::MAX {
        crate::text::law_decimal_round_trip(n, u8::MAX as nat);
    } else {
        crate::text::law_decimal_round_trip(n, n);
        crate::text::law_parsed(decimal(n), n);
        crate::text::law_parsed(decimal(n), u8::MAX as nat);
    }
}

/// A model's arena is shrunk as its own variable says, and without a clear word
/// exactly where the model uses no memory patterns.
pub proof fn law_arena_shrink(
    env: Map<Seq<char>, Seq<char>>,
    model: Seq<char>,
    memory_pattern: bool,
    own: Seq<char>,
)
    ensures
        ({
            let var: Seq<char> = "EMBED_ARENA_SHRINK_"@ + env_key(model);
            &&& own == "true"@ || own == "1"@ ==> shrinks_arena(
                env.insert(var, own),
                model,
                memory_pattern,
            )
            &&& own == "false"@ || own == "0"@ ==> !shrinks_arena(
                env.insert(var, own),
                model,
                memory_pattern,
            )
            &&& own != "true"@ && own != "1"@ && own != "false"@ && own != "0"@ ==> shrinks_arena(
                env.insert(var, own),
                model,
                memory_pattern,
            ) == !memory_pattern
            &&& shrinks_arena(env.remove(var), model, memory_pattern) == !memory_pattern
        }),
{
    reveal_strlit("true");
    reveal_strlit("false");
    reveal_strlit("1");
    reveal_strlit("0");
    assert("1"@[0] == '1' && "0"@[0] == '0' && "true"@[0] == 't' && "false"@[0] == 'f');
}

/// A plan has at least one session, and as many as asked for; it looks for idle
/// sessions exactly where these are given up, every fourth part of their time
/// or every five seconds, whichever is longer.
pub proof fn law_loading_plan(
    name: Seq<char>,
    memory_pattern: bool,
    pool_size: usize,
    idle_evict_secs: u64,
    env: Map<Seq<char>, Seq<char>>,
)
    ensures
        ({
            let plan: EmbedPlan = plan_of(name, memory_pattern, pool_size, idle_evict_secs, env);
            &&& pool_size > 0 ==> plan.pool_size == pool_size
            &&& pool_size == 0 ==> plan.pool_size == 1
            &&& idle_evict_secs == 0 <==> plan.eviction_tick_secs is None
            &&& plan.eviction_tick_secs matches Some(t) ==> t >= 5 && 4 * t <= (
            if idle_evict_secs < 20 {
                20
            } else {
                idle_evict_secs as int
            }) && idle_evict_secs < 4 * (t + 1)
            &&& plan.num_heads == 16 <==> contains_text(name, "e5-large"@)
            &&& plan.num_heads == 12 <==> !contains_text(name, "e5-large"@)
            &&& plan.shrinks_arena == shrinks_arena(env, name, memory_pattern)
            &&& plan.opt_level == opt_level(lookup(env, "ORT_OPT_LEVEL"@))
        }),
{
}

/// The model file is missed first, then the tokenizer; nothing is missed exactly
/// where both are there.
pub proof fn law_missing_files(files: ModelFiles)
    ensures
        lacks_file(files) is None <==> files.onnx_exists && files.tokenizer_exists,
        !files.onnx_exists ==> lacks_file(files) == Some(
            "ONNX file not found: "@ + files.onnx_path@,
        ),
        files.onnx_exists && !files.tokenizer_exists ==> lacks_file(files) == Some(
            "tokenizer.json not found: "@ + files.tokenizer_path@,
        ),
{
}

proof fn lemma_scan(s: Seq<char>, from: int, to: int, space: bool)
    requires
        0 <= from <= to <= s.len(),
        forall|k: int| from <= k < to ==> is_ascii_space(#[trigger] s[k]) != space,
        to < s.len() ==> is_ascii_space(s[to]) == space,
    ensures
        scan(s, from, space) == to,
    decreases to - from,
{
    if from < to {
        lemma_scan(s, from + 1, to, space);
    }
}

/// The second word of a line of words with blanks between them.
pub proof fn law_second_word(first: Seq<char>, second: Seq<char>, rest: Seq<char>)
    requires
        first.len() > 0,
        second.len() > 0,
        forall|k: int| 0 <= k < first.len() ==> !crate::text::is_space(#[trigger] first[k]),
        forall|k: int| 0 <= k < second.len() ==> !crate::text::is_space(#[trigger] second[k]),
    ensures
        second_word(first + " "@ + second + " "@ + rest) == Some(second),
        second_word(first + " "@ + second) == Some(second),
        second_word(first) is None,
{
    reveal_strlit(" ");
    assert(forall|c: char| is_ascii_space(c) ==> crate::text::is_space(c));
    let a: int = first.len() as int;
    let b: int = a + 1 + second.len();
    let s: Seq<char> = first + " "@ + second + " "@ + rest;
    let t: Seq<char> = first + " "@ + second;
    assert forall|k: int| 0 <= k < b implies s[k] == t[k] by {}
    assert(forall|k: int| 0 <= k < a ==> t[k] == first[k]);
    assert(forall|k: int| a + 1 <= k < b ==> t[k] == second[k - a - 1]);
    assert(t[a] == ' ' && s[b] == ' ');
    lemma_scan(s, 0, 0, false);
    lemma_scan(s, 0, a, true);
    lemma_scan(s, a, a + 1, false);
    lemma_scan(s, a + 1, b, true);
    assert(s.subrange(a + 1, b) =~= second);
    lemma_scan(t, 0, 0, false);
    lemma_scan(t, 0, a, true);
    lemma_scan(t, a, a + 1, false);
    lemma_scan(t, a + 1, b, true);
    assert(t.subrange(a + 1, b) =~= second);
    lemma_scan(first, 0, 0, false);
    lemma_scan(first, 0, a, true);
    lemma_scan(first, a, a, false);
}

/// What is recorded of a pass: its shape, the tokens it has room for, and the
/// tensor that it needs.
pub proof fn law_passes_are_recorded(shape: PassShape, num_heads: usize, name: Seq<char>)
    ensures
        ({
            let u: Seq<UpdateView> = pass_updates(shape, num_heads, name);
            &&& u.len() == 3
            &&& u[0].name == "embed_batch_dimensions_total"@
            &&& u[0].labels == seq![
                ("model"@, name),
                ("batch_size_bucket"@, crate::metrics::batch_size_label(shape.batch)),
                ("seq_len_bucket"@, crate::metrics::seq_len_label(shape.max_seq)),
            ]
            &&& u[0].change == Change::CounterIncrement(1)
            &&& u[1].name == "embed_batch_token_budget"@
            &&& u[1].labels == seq![("model"@, name)]
            &&& u[1].change == Change::HistogramRecord(
                Amount::Whole((shape.batch * shape.max_seq) as u128),
            )
            &&& u[2].name == "embed_inference_attention_scratch_bytes"@
            &&& u[2].labels == seq![("model"@, name)]
            &&& (u[2].change matches Change::HistogramRecord(a) && a.numerator() == 4 * (shape.batch
                * num_heads * shape.max_seq * shape.max_seq))
        }),
{
}

/// What is recorded of a plan: how much of what its passes have room for is
/// padding.
pub proof fn law_plans_are_recorded(
    groups: Seq<Vec<usize>>,
    lens: Seq<usize>,
    max_len: usize,
    name: Seq<char>,
)
    ensures
        plan_update(groups, lens, max_len, name).name == "embed_batch_padding_waste_ratio"@,
        plan_update(groups, lens, max_len, name).labels == seq![("model"@, name)],
        padded_sum(groups, lens, max_len) <= usize::MAX && length_sum(lens) <= padded_sum(
            groups,
            lens,
            max_len,
        ) && length_sum(lens) > 0 ==> (plan_update(
            groups,
            lens,
            max_len,
            name,
        ).change matches Change::HistogramRecord(a) && a.denominator() == padded_sum(
            groups,
            lens,
            max_len,
        ) && a.numerator() == padded_sum(groups, lens, max_len) - length_sum(lens)),
{
}

/// The large model has sixteen heads, and every other one twelve.
pub proof fn law_heads(before: Seq<char>, behind: Seq<char>, name: Seq<char>)
    ensures
        heads_of(before + "e5-large"@ + behind) == 16,
        !contains_text(name, "e5-large"@) ==> heads_of(name) == 12,
{
    crate::text::law_holding_a_text(before, "e5-large"@, behind);
}

/// A pass that gave another number of vectors than it had sequences is told with
/// both numbers.
pub proof fn law_miscounted_passes(expected: nat, got: nat)
    ensures
        cardinality_error(expected, got) == "sub-batch cardinality: expected "@ + decimal(expected)
            + ", got "@ + decimal(got),
{
}

} // verus!
