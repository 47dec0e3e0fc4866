//! The server's configuration, read from environment variables.
use vstd::prelude::*;
use vstd::string::*;
use crate::env::{lookup, EnvVars};
use crate::text::{
    contains_char, decimal, eq_ignore_case, is_space, law_decimal_round_trip, law_letter_case,
    law_parsed, law_pieces_join, law_text_without_separator_is_one_piece, law_trimmed_text_stays,
    law_written_number_is_plain, opt_view, parse_u16, parse_u32, parse_up_to, parse_usize, parsed,
    pieces, push_decimal, replace_char, replaced, same, same_ignoring_case, split, trim, trimmed,
    uppercase, uppercase_of, views, IntError,
};

verus! {

broadcast use group_string_axioms;

/// What the unset, empty and unreadable values of `CACHE_MAX_ENTRIES` mean.
pub const CACHE_ENTRIES_DEFAULT: usize = 10_000;

/// What the unset, empty, unreadable and zero values of `BATCH_MAX_TOKENS` mean.
pub const BATCH_TOKENS_DEFAULT: usize = 16384;

/// What the unset, empty, unreadable and zero values of `BATCH_MAX_SEQ` mean.
pub const BATCH_SEQ_DEFAULT: usize = 256;

/// What the unset, empty, unreadable and zero values of
/// `EMBED_WARMUP_SEQ_LEN` mean.
pub const WARMUP_SEQ_DEFAULT: usize = 128;

/// A `usize` in decimal digits.
pub open spec fn usize_of(s: Seq<char>) -> Result<nat, IntError> {
    parsed(s, usize::MAX as nat)
}

/// The number in `raw`, white space around it aside; `default` where there is
/// none.
pub open spec fn number_or(raw: Option<Seq<char>>, default: usize) -> usize {
    match raw {
        None => default,
        Some(s) => match usize_of(trimmed(s)) {
            Ok(n) => n as usize,
            Err(_) => default,
        },
    }
}

/// The positive number in `raw`, white space around it aside; `default` where
/// there is none.
pub open spec fn positive_or(raw: Option<Seq<char>>, default: usize) -> usize {
    match raw {
        None => default,
        Some(s) => match usize_of(trimmed(s)) {
            Ok(n) => if n == 0 {
                default
            } else {
                n as usize
            },
            Err(_) => default,
        },
    }
}

fn read_number_or(raw: Option<&str>, default: usize) -> (r: usize)
    ensures
        r == number_or(opt_view(raw), default),
{
    match raw {
        None => default,
        Some(s) => match parse_usize(trim(s)) {
            Ok(n) => n,
            Err(_) => default,
        },
    }
}

fn read_positive_or(raw: Option<&str>, default: usize) -> (r: usize)
    ensures
        r == positive_or(opt_view(raw), default),
{
    match raw {
        None => default,
        Some(s) => match parse_usize(trim(s)) {
            Ok(n) => if n == 0 {
                default
            } else {
                n
            },
            Err(_) => default,
        },
    }
}

/// The response cache's capacity. An explicit `0` disables the cache.
pub fn parse_cache_max_entries(raw: Option<&str>) -> (r: usize)
    ensures
        r == number_or(opt_view(raw), CACHE_ENTRIES_DEFAULT),
{
    read_number_or(raw, CACHE_ENTRIES_DEFAULT)
}

/// The tokenizer cache's capacity. The cache is off unless a positive value
/// is given.
pub fn parse_token_cache_max_entries(raw: Option<&str>) -> (r: usize)
    ensures
        r == number_or(opt_view(raw), 0),
{
    read_number_or(raw, 0)
}

/// The token budget of a batch. `0` would admit one item per batch only and is
/// no valid value.
pub fn parse_batch_max_tokens(raw: Option<&str>) -> (r: usize)
    ensures
        r == positive_or(opt_view(raw), BATCH_TOKENS_DEFAULT),
{
    read_positive_or(raw, BATCH_TOKENS_DEFAULT)
}

/// The cap on the longest sequence of a batch.
pub fn parse_batch_max_seq(raw: Option<&str>) -> (r: usize)
    ensures
        r == positive_or(opt_view(raw), BATCH_SEQ_DEFAULT),
{
    read_positive_or(raw, BATCH_SEQ_DEFAULT)
}

/// The warmup length that `EMBED_WARMUP_SEQ_LEN` asks for. `None` stands for
/// the model's full length, asked for with the keyword `max`.
pub open spec fn warmup_seq_len(raw: Option<Seq<char>>) -> Option<usize> {
    match raw {
        None => Some(WARMUP_SEQ_DEFAULT),
        Some(s) => if same_ignoring_case(trimmed(s), "max"@) {
            None
        } else {
            Some(positive_or(Some(s), WARMUP_SEQ_DEFAULT))
        },
    }
}

/// Reads `EMBED_WARMUP_SEQ_LEN`.
pub fn parse_embed_warmup_seq_len(raw: Option<&str>) -> (r: Option<usize>)
    ensures
        r == warmup_seq_len(opt_view(raw)),
{
    match raw {
        None => Some(WARMUP_SEQ_DEFAULT),
        Some(s) => {
            let t: &str = trim(s);
            if eq_ignore_case(t, "max") {
                None
            } else {
                Some(read_positive_or(Some(s), WARMUP_SEQ_DEFAULT))
            }
        },
    }
}

/// The number of sessions per embedding model. `_source_key` names the
/// variable that `raw` came from.
pub fn parse_embed_pool_size(raw: Option<&str>, _source_key: Option<&str>) -> (r: usize)
    ensures
        r == positive_or(opt_view(raw), 1),
{
    read_positive_or(raw, 1)
}

/// The number of sessions per reranker.
pub fn parse_reranker_pool_size(raw: Option<&str>) -> (r: usize)
    ensures
        r == positive_or(opt_view(raw), 1),
{
    read_positive_or(raw, 1)
}

/// The number of sessions per sparse encoder.
pub fn parse_splade_pool_size(raw: Option<&str>) -> (r: usize)
    ensures
        r == positive_or(opt_view(raw), 1),
{
    read_positive_or(raw, 1)
}

/// The suffix by which the variables of one model are told apart: the name in
/// upper case, with `_` for `-`.
pub open spec fn env_key(model: Seq<char>) -> Seq<char> {
    replaced(uppercase_of(model), '-', '_')
}

/// The suffix of a model's own environment variables: `jina-code-v2` gives
/// `JINA_CODE_V2`.
pub fn model_env_key(model_key: &str) -> (r: String)
    ensures
        r@ == env_key(model_key@),
        (forall|i: int| 0 <= i < model_key@.len() ==> crate::text::is_ascii_char(
            #[trigger] model_key@[i],
        )) ==> r@ == replaced(
            model_key@.map_values(|c: char| crate::text::ascii_upper(c)),
            '-',
            '_',
        ),
{
    let upper: String = uppercase(model_key);
    replace_char(upper.as_str(), '-', '_')
}

/// A model's suffix holds no dash, whatever the model's name.
pub proof fn law_env_key_has_no_dash(model: Seq<char>)
    ensures
        !env_key(model).contains('-'),
{
    assert forall|i: int| 0 <= i < env_key(model).len() implies env_key(model)[i] != '-' by {
        assert(env_key(model)[i] == if uppercase_of(model)[i] == '-' {
            '_'
        } else {
            uppercase_of(model)[i]
        });
    }
}

/// A variable's name: `prefix` and the model's suffix.
fn model_var(prefix: &str, key: &String) -> (r: String)
    ensures
        r@ == prefix@ + key@,
{
    let mut name: String = prefix.to_owned();
    name.append(key.as_str());
    name
}

/// The pool size of one model: its own variable counts if it holds more than
/// white space, else the global one.
pub open spec fn pool_size_for(
    env: Map<Seq<char>, Seq<char>>,
    model: Seq<char>,
    global_raw: Option<Seq<char>>,
) -> usize {
    let own: Option<Seq<char>> = lookup(env, "EMBED_SESSION_POOL_SIZE_"@ + env_key(model));
    if own is Some && trimmed(own->0).len() > 0 {
        positive_or(Some(trimmed(own->0)), 1)
    } else {
        positive_or(global_raw, 1)
    }
}

/// Resolves the number of sessions of one embedding model.
pub fn resolve_embed_pool_size_for_model(
    env: &EnvVars,
    model_key: &str,
    global_raw: Option<&str>,
) -> (r: usize)
    ensures
        r == pool_size_for(env@, model_key@, opt_view(global_raw)),
{
    let suffix: String = model_env_key(model_key);
    let per_model_key: String = model_var("EMBED_SESSION_POOL_SIZE_", &suffix);
    if let Some(raw) = env.get(per_model_key.as_str()) {
        let t: &str = trim(raw);
        if !t.is_empty() {
            return parse_embed_pool_size(Some(t), Some(per_model_key.as_str()));
        }
    }
    parse_embed_pool_size(global_raw, None)
}

/// Whether `EMBED_MULTI_PROCESS` turns the multi-process mode on: `1`, or
/// `true` in any case of letters.
pub open spec fn multi_process_flag(raw: Option<Seq<char>>) -> bool {
    match raw {
        Some(v) => v == "1"@ || same_ignoring_case(v, "true"@),
        None => false,
    }
}

/// Reads `EMBED_MULTI_PROCESS`.
pub fn parse_multi_process_flag(raw: Option<&str>) -> (r: bool)
    ensures
        r == multi_process_flag(opt_view(raw)),
{
    match raw {
        Some(v) => same(v, "1") || eq_ignore_case(v, "true"),
        None => false,
    }
}

/// What a strict boolean says: `true`, `1`, `false` or `0`.
pub open spec fn strict_bool(s: Seq<char>) -> Option<bool> {
    if s == "true"@ || s == "1"@ {
        Some(true)
    } else if s == "false"@ || s == "0"@ {
        Some(false)
    } else {
        None
    }
}

fn read_strict_bool(s: &str) -> (r: Option<bool>)
    ensures
        r == strict_bool(s@),
{
    if same(s, "true") || same(s, "1") {
        Some(true)
    } else if same(s, "false") || same(s, "0") {
        Some(false)
    } else {
        None
    }
}

/// Whether a model uses memory patterns: yes, unless `false` or `0` is given.
pub open spec fn memory_pattern_of(raw: Option<Seq<char>>) -> bool {
    match raw {
        None => true,
        Some(s) => strict_bool(trimmed(s)) != Some(false),
    }
}

/// Reads a model's `EMBED_MEMORY_PATTERN_*`.
pub fn parse_memory_pattern(raw: Option<&str>) -> (r: bool)
    ensures
        r == memory_pattern_of(opt_view(raw)),
{
    match raw {
        None => true,
        Some(s) => match read_strict_bool(trim(s)) {
            Some(b) => b,
            None => true,
        },
    }
}

/// Definition of a single embedding model to load.
#[derive(Debug)]
pub struct ModelDef {
    pub name: String,
    pub dir: String,
    /// Name of the model file inside `dir`: a plain file name.
    pub onnx_filename: String,
    pub dim: usize,
    pub max_len: usize,
    pub pad_id: u32,
    pub has_token_type_ids: bool,
    /// Cap on the longest sequence of one of this model's batches.
    pub batch_max_seq: usize,
    /// Length to which warmup pads; `None` stands for `max_len`.
    pub warmup_seq_len: Option<usize>,
    /// Whether the runtime plans one memory block per input shape.
    pub memory_pattern: bool,
}

/// What a [`ModelDef`] says.
pub struct ModelDefView {
    pub name: Seq<char>,
    pub dir: Seq<char>,
    pub onnx_filename: Seq<char>,
    pub dim: usize,
    pub max_len: usize,
    pub pad_id: u32,
    pub has_token_type_ids: bool,
    pub batch_max_seq: usize,
    pub warmup_seq_len: Option<usize>,
    pub memory_pattern: bool,
}

impl View for ModelDef {
    type V = ModelDefView;

    open spec fn view(&self) -> ModelDefView {
        ModelDefView {
            name: self.name@,
            dir: self.dir@,
            onnx_filename: self.onnx_filename@,
            dim: self.dim,
            max_len: self.max_len,
            pad_id: self.pad_id,
            has_token_type_ids: self.has_token_type_ids,
            batch_max_seq: self.batch_max_seq,
            warmup_seq_len: self.warmup_seq_len,
            memory_pattern: self.memory_pattern,
        }
    }
}

/// Definition of a single cross-encoder reranker to load.
#[derive(Debug, PartialEq, Eq)]
pub struct RerankerModelDef {
    pub name: String,
    pub dir: String,
    pub max_len: usize,
    /// True for models whose batches are padded to one length.
    pub padded_model: bool,
}

/// What a [`RerankerModelDef`] says.
pub struct RerankerModelDefView {
    pub name: Seq<char>,
    pub dir: Seq<char>,
    pub max_len: usize,
    pub padded_model: bool,
}

impl View for RerankerModelDef {
    type V = RerankerModelDefView;

    open spec fn view(&self) -> RerankerModelDefView {
        RerankerModelDefView {
            name: self.name@,
            dir: self.dir@,
            max_len: self.max_len,
            padded_model: self.padded_model,
        }
    }
}

/// Definition of a single sparse encoder to load.
#[derive(Debug, PartialEq, Eq)]
pub struct SpladeModelDef {
    pub name: String,
    pub dir: String,
    pub max_len: usize,
}

/// What a [`SpladeModelDef`] says.
pub struct SpladeModelDefView {
    pub name: Seq<char>,
    pub dir: Seq<char>,
    pub max_len: usize,
}

impl View for SpladeModelDef {
    type V = SpladeModelDefView;

    open spec fn view(&self) -> SpladeModelDefView {
        SpladeModelDefView { name: self.name@, dir: self.dir@, max_len: self.max_len }
    }
}

/// What a list of definitions says.
pub open spec fn all_views<T: View>(v: Seq<T>) -> Seq<T::V> {
    v.map_values(|d: T| d@)
}

/// A result agrees with what it should be: the same value, or the same
/// message.
pub open spec fn agrees<T: View>(r: Result<T, String>, s: Result<T::V, Seq<char>>) -> bool {
    match (r, s) {
        (Ok(v), Ok(w)) => v@ == w,
        (Err(e), Err(f)) => e@ == f,
        _ => false,
    }
}

/// The same for a list of definitions.
pub open spec fn all_agree<T: View>(
    r: Result<Vec<T>, String>,
    s: Result<Seq<T::V>, Seq<char>>,
) -> bool {
    match (r, s) {
        (Ok(v), Ok(w)) => all_views(v@) == w,
        (Err(e), Err(f)) => e@ == f,
        _ => false,
    }
}

/// Reads the entries of a list in order: those of white space alone are
/// passed over, and the first that cannot be read decides the error.
pub open spec fn entries_of<V>(
    entries: Seq<Seq<char>>,
    one: spec_fn(Seq<char>) -> Result<V, Seq<char>>,
) -> Result<Seq<V>, Seq<char>>
    decreases entries.len(),
{
    if entries.len() == 0 {
        Ok(Seq::empty())
    } else {
        match entries_of(entries.drop_last(), one) {
            Err(e) => Err(e),
            Ok(done) => if trimmed(entries.last()).len() == 0 {
                Ok(done)
            } else {
                match one(entries.last()) {
                    Err(e) => Err(e),
                    Ok(v) => Ok(done.push(v)),
                }
            },
        }
    }
}

proof fn lemma_entry_error_stays<V>(
    entries: Seq<Seq<char>>,
    one: spec_fn(Seq<char>) -> Result<V, Seq<char>>,
    n: int,
)
    requires
        0 <= n <= entries.len(),
        entries_of(entries.take(n), one) is Err,
    ensures
        entries_of(entries, one) == entries_of(entries.take(n), one),
    decreases entries.len() - n,
{
    if n == entries.len() {
        assert(entries.take(n) =~= entries);
    } else {
        assert(entries.take(n + 1).drop_last() =~= entries.take(n));
        lemma_entry_error_stays(entries, one, n + 1);
    }
}

/// "`what` '`value`': `why`".
pub open spec fn quoted_error(what: Seq<char>, value: Seq<char>, why: IntError) -> Seq<char> {
    what + " '"@ + value + "': "@ + why.words()
}

fn quoted_error_text(what: &str, value: &str, why: IntError) -> (r: String)
    ensures
        r@ == quoted_error(what@, value@, why),
{
    let mut m: String = what.to_owned();
    m.append(" '");
    m.append(value);
    m.append("': ");
    m.append(why.text());
    m
}

/// "`what``n`: '`entry`'".
pub open spec fn count_error(what: Seq<char>, n: nat, entry: Seq<char>) -> Seq<char> {
    what + decimal(n) + ": '"@ + entry + "'"@
}

fn count_error_text(what: &str, n: usize, entry: &str) -> (r: String)
    ensures
        r@ == count_error(what@, n as nat, entry@),
{
    let mut m: String = what.to_owned();
    push_decimal(&mut m, n as u64);
    m.append(": '");
    m.append(entry);
    m.append("'");
    m
}

/// The message for a reranker entry of the wrong number of fields.
pub open spec fn reranker_fields() -> Seq<char> {
    "reranker entry must have 4 colon-separated fields (name:dir:max_len:padded), got "@
}

/// What one entry `name:dir:max_len:padded` says.
pub open spec fn reranker_entry(entry: Seq<char>) -> Result<RerankerModelDefView, Seq<char>> {
    let parts: Seq<Seq<char>> = pieces(trimmed(entry), ':');
    if parts.len() != 4 {
        Err(count_error(reranker_fields(), parts.len(), entry))
    } else {
        match usize_of(parts[2]) {
            Err(e) => Err(quoted_error("invalid reranker max_len"@, parts[2], e)),
            Ok(max_len) => match strict_bool(parts[3]) {
                None => Err(
                    "invalid reranker padded '"@ + parts[3] + "' (expected true|false|1|0)"@,
                ),
                Some(padded_model) => Ok(
                    RerankerModelDefView {
                        name: parts[0],
                        dir: parts[1],
                        max_len: max_len as usize,
                        padded_model,
                    },
                ),
            },
        }
    }
}

/// Reads one entry `name:dir:max_len:padded`.
pub fn parse_one_reranker(entry: &str) -> (r: Result<RerankerModelDef, String>)
    ensures
        agrees(r, reranker_entry(entry@)),
{
    let parts: Vec<&str> = split(trim(entry), ':');
    let ghost p: Seq<Seq<char>> = views(parts@);
    if parts.len() != 4 {
        return Err(
            count_error_text(
                "reranker entry must have 4 colon-separated fields (name:dir:max_len:padded), got ",
                parts.len(),
                entry,
            ),
        );
    }
    assert(p[0] == parts@[0]@ && p[1] == parts@[1]@ && p[2] == parts@[2]@ && p[3] == parts@[3]@);
    let max_len: usize = match parse_usize(parts[2]) {
        Ok(n) => n,
        Err(e) => return Err(quoted_error_text("invalid reranker max_len", parts[2], e)),
    };
    let padded_model: bool = match read_strict_bool(parts[3]) {
        Some(b) => b,
        None => {
            let mut m: String = "invalid reranker padded '".to_owned();
            m.append(parts[3]);
            m.append("' (expected true|false|1|0)");
            return Err(m);
        },
    };
    Ok(
        RerankerModelDef {
            name: parts[0].to_owned(),
            dir: parts[1].to_owned(),
            max_len,
            padded_model,
        },
    )
}

/// What `RERANKER_MODELS` says.
pub open spec fn reranker_list(s: Seq<char>) -> Result<Seq<RerankerModelDefView>, Seq<char>> {
    entries_of(pieces(s, ','), |entry: Seq<char>| reranker_entry(entry))
}

/// Reads `RERANKER_MODELS`: comma-separated entries
/// `name:dir:max_len:padded`.
pub fn parse_rerankers(s: &str) -> (r: Result<Vec<RerankerModelDef>, String>)
    ensures
        all_agree(r, reranker_list(s@)),
{
    let entries: Vec<&str> = split(s, ',');
    let ghost es: Seq<Seq<char>> = views(entries@);
    let ghost one = |entry: Seq<char>| reranker_entry(entry);
    let mut out: Vec<RerankerModelDef> = Vec::new();
    let mut i: usize = 0;
    assert(all_views(out@) =~= Seq::<RerankerModelDefView>::empty());
    while i < entries.len()
        invariant
            i <= entries.len(),
            es == views(entries@),
            es == pieces(s@, ','),
            one == (|entry: Seq<char>| reranker_entry(entry)),
            entries_of(es.take(i as int), one) == Ok::<_, Seq<char>>(all_views(out@)),
        decreases entries.len() - i,
    {
        proof {
            assert(es.take(i as int + 1).drop_last() =~= es.take(i as int));
            assert(es.take(i as int + 1).last() == entries@[i as int]@);
        }
        let entry: &str = entries[i];
        if !trim(entry).is_empty() {
            match parse_one_reranker(entry) {
                Ok(d) => {
                    let ghost before: Seq<RerankerModelDef> = out@;
                    out.push(d);
                    assert(all_views(out@) =~= all_views(before).push(d@));
                },
                Err(e) => {
                    proof {
                        lemma_entry_error_stays(es, one, i + 1);
                    }
                    return Err(e);
                },
            }
        }
        i = i + 1;
    }
    assert(es.take(i as int) =~= es);
    Ok(out)
}

/// The message for a sparse encoder entry of the wrong number of fields.
pub open spec fn splade_fields() -> Seq<char> {
    "splade entry must have 3 colon-separated fields (name:dir:max_len), got "@
}

/// What one entry `name:dir:max_len` says.
pub open spec fn splade_entry(entry: Seq<char>) -> Result<SpladeModelDefView, Seq<char>> {
    let parts: Seq<Seq<char>> = pieces(trimmed(entry), ':');
    if parts.len() != 3 {
        Err(count_error(splade_fields(), parts.len(), entry))
    } else {
        match usize_of(parts[2]) {
            Err(e) => Err(quoted_error("invalid splade max_len"@, parts[2], e)),
            Ok(max_len) => Ok(
                SpladeModelDefView { name: parts[0], dir: parts[1], max_len: max_len as usize },
            ),
        }
    }
}

/// Reads one entry `name:dir:max_len`.
pub fn parse_one_splade(entry: &str) -> (r: Result<SpladeModelDef, String>)
    ensures
        agrees(r, splade_entry(entry@)),
{
    let parts: Vec<&str> = split(trim(entry), ':');
    let ghost p: Seq<Seq<char>> = views(parts@);
    if parts.len() != 3 {
        return Err(
            count_error_text(
                "splade entry must have 3 colon-separated fields (name:dir:max_len), got ",
                parts.len(),
                entry,
            ),
        );
    }
    assert(p[0] == parts@[0]@ && p[1] == parts@[1]@ && p[2] == parts@[2]@);
    let max_len: usize = match parse_usize(parts[2]) {
        Ok(n) => n,
        Err(e) => return Err(quoted_error_text("invalid splade max_len", parts[2], e)),
    };
    Ok(SpladeModelDef { name: parts[0].to_owned(), dir: parts[1].to_owned(), max_len })
}

/// What `SPLADE_MODELS` says.
pub open spec fn splade_list(s: Seq<char>) -> Result<Seq<SpladeModelDefView>, Seq<char>> {
    entries_of(pieces(s, ','), |entry: Seq<char>| splade_entry(entry))
}

/// Reads `SPLADE_MODELS`: comma-separated entries `name:dir:max_len`.
pub fn parse_splades(s: &str) -> (r: Result<Vec<SpladeModelDef>, String>)
    ensures
        all_agree(r, splade_list(s@)),
{
    let entries: Vec<&str> = split(s, ',');
    let ghost es: Seq<Seq<char>> = views(entries@);
    let ghost one = |entry: Seq<char>| splade_entry(entry);
    let mut out: Vec<SpladeModelDef> = Vec::new();
    let mut i: usize = 0;
    assert(all_views(out@) =~= Seq::<SpladeModelDefView>::empty());
    while i < entries.len()
        invariant
            i <= entries.len(),
            es == views(entries@),
            es == pieces(s@, ','),
            one == (|entry: Seq<char>| splade_entry(entry)),
            entries_of(es.take(i as int), one) == Ok::<_, Seq<char>>(all_views(out@)),
        decreases entries.len() - i,
    {
        proof {
            assert(es.take(i as int + 1).drop_last() =~= es.take(i as int));
            assert(es.take(i as int + 1).last() == entries@[i as int]@);
        }
        let entry: &str = entries[i];
        if !trim(entry).is_empty() {
            match parse_one_splade(entry) {
                Ok(d) => {
                    let ghost before: Seq<SpladeModelDef> = out@;
                    out.push(d);
                    assert(all_views(out@) =~= all_views(before).push(d@));
                },
                Err(e) => {
                    proof {
                        lemma_entry_error_stays(es, one, i + 1);
                    }
                    return Err(e);
                },
            }
        }
        i = i + 1;
    }
    assert(es.take(i as int) =~= es);
    Ok(out)
}

/// The sizes that a list names, in order: what is no positive number is
/// passed over, and a number counts where it stands first.
pub open spec fn sizes_of(entries: Seq<Seq<char>>) -> Seq<usize>
    decreases entries.len(),
{
    if entries.len() == 0 {
        Seq::empty()
    } else {
        let done: Seq<usize> = sizes_of(entries.drop_last());
        match usize_of(trimmed(entries.last())) {
            Ok(n) => if n == 0 || done.contains(n as usize) {
                done
            } else {
                done.push(n as usize)
            },
            Err(_) => done,
        }
    }
}

/// The batch sizes to warm up with: those that `raw` names, and `defaults`
/// where it names none.
pub open spec fn warmup_sizes(raw: Option<Seq<char>>, defaults: Seq<usize>) -> Seq<usize> {
    match raw {
        None => defaults,
        Some(s) => {
            let named: Seq<usize> = sizes_of(pieces(s, ','));
            if named.len() == 0 {
                defaults
            } else {
                named
            }
        },
    }
}

fn holds(v: &Vec<usize>, n: usize) -> (r: bool)
    ensures
        r == v@.contains(n),
{
    let mut i: usize = 0;
    while i < v.len()
        invariant
            i <= v.len(),
            forall|j: int| 0 <= j < i ==> v@[j] != n,
        decreases v.len() - i,
    {
        if v[i] == n {
            return true;
        }
        i = i + 1;
    }
    false
}

/// Reads one of the `*_WARMUP_BATCH_SIZES`.
pub fn parse_warmup_batch_sizes(raw: Option<&str>, defaults: &[usize]) -> (r: Vec<usize>)
    ensures
        r@ == warmup_sizes(opt_view(raw), defaults@),
{
    let s: &str = match raw {
        Some(s) => s,
        None => return vstd::slice::slice_to_vec(defaults),
    };
    let entries: Vec<&str> = split(s, ',');
    let ghost es: Seq<Seq<char>> = views(entries@);
    let mut out: Vec<usize> = Vec::new();
    let mut i: usize = 0;
    while i < entries.len()
        invariant
            i <= entries.len(),
            es == views(entries@),
            out@ == sizes_of(es.take(i as int)),
        decreases entries.len() - i,
    {
        proof {
            assert(es.take(i as int + 1).drop_last() =~= es.take(i as int));
            assert(es.take(i as int + 1).last() == entries@[i as int]@);
        }
        if let Ok(n) = parse_usize(trim(entries[i])) {
            if n != 0 && !holds(&out, n) {
                out.push(n);
            }
        }
        i = i + 1;
    }
    assert(es.take(i as int) =~= es);
    if out.len() == 0 {
        return vstd::slice::slice_to_vec(defaults);
    }
    out
}

proof fn lemma_sizes(entries: Seq<Seq<char>>)
    ensures
        sizes_of(entries).no_duplicates(),
        !sizes_of(entries).contains(0),
    decreases entries.len(),
{
    if entries.len() > 0 {
        lemma_sizes(entries.drop_last());
    }
}

/// Warmup sizes are positive and no two are equal, and there is at least one,
/// as long as the defaults are so.
pub proof fn law_warmup_sizes(raw: Option<Seq<char>>, defaults: Seq<usize>)
    requires
        defaults.len() > 0,
        defaults.no_duplicates(),
        !defaults.contains(0),
    ensures
        warmup_sizes(raw, defaults).len() > 0,
        warmup_sizes(raw, defaults).no_duplicates(),
        !warmup_sizes(raw, defaults).contains(0),
{
    if let Some(s) = raw {
        lemma_sizes(pieces(s, ','));
    }
}

/// A model's warmup length. Its own variable counts first: a positive number,
/// or nothing or `max` for the full length. Else the global number counts,
/// and without one `max_len`.
pub open spec fn model_warmup_seq_len(
    own: Option<Seq<char>>,
    global: Option<usize>,
    max_len: usize,
) -> Option<usize> {
    let fallback: usize = match global {
        Some(n) => n,
        None => max_len,
    };
    match own {
        Some(raw) => if trimmed(raw).len() == 0 || same_ignoring_case(trimmed(raw), "max"@) {
            None
        } else {
            Some(positive_or(Some(raw), fallback))
        },
        None => Some(fallback),
    }
}

/// The model file of a seventh field, which must be a plain file name.
pub open spec fn onnx_file(name: Seq<char>, raw: Seq<char>) -> Result<Seq<char>, Seq<char>> {
    if raw.len() == 0 {
        Err(
            "model '"@ + name
                + "': onnx_filename (7th segment) is empty; omit the segment to use the default 'model_quantized.onnx'"@,
        )
    } else if raw.contains('/') || raw.contains('\\') {
        Err(
            "model '"@ + name + "': onnx_filename '"@ + raw
                + "' must be a plain filename, not a path (no '/' or '\\')"@,
        )
    } else if raw == ".."@ {
        Err(
            "model '"@ + name + "': onnx_filename '"@ + raw
                + "' contains a path-traversal component"@,
        )
    } else {
        Ok(raw)
    }
}

fn read_onnx_file(name: &str, raw: &str) -> (r: Result<String, String>)
    ensures
        agrees(r, onnx_file(name@, raw@)),
{
    let mut m: String = "model '".to_owned();
    m.append(name);
    if raw.is_empty() {
        m.append(
            "': onnx_filename (7th segment) is empty; omit the segment to use the default 'model_quantized.onnx'",
        );
        return Err(m);
    }
    m.append("': onnx_filename '");
    m.append(raw);
    if contains_char(raw, '/') || contains_char(raw, '\\') {
        m.append("' must be a plain filename, not a path (no '/' or '\\')");
        return Err(m);
    }
    if same(raw, "..") {
        m.append("' contains a path-traversal component");
        return Err(m);
    }
    Ok(raw.to_owned())
}

/// The message for a model entry of the wrong number of fields.
pub open spec fn model_fields() -> Seq<char> {
    "model entry must have 6 or 7 colon-separated fields (name:dir:dim:max_len:pad_id:has_tti[:onnx_filename]), got "@
}

/// The last field of a model entry, or the default file.
pub open spec fn onnx_field(parts: Seq<Seq<char>>) -> Result<Seq<char>, Seq<char>> {
    if parts.len() == 7 {
        onnx_file(parts[0], trimmed(parts[6]))
    } else {
        Ok("model_quantized.onnx"@)
    }
}

/// What one entry `name:dir:dim:max_len:pad_id:has_tti[:onnx_filename]` says,
/// together with the variables of that model.
pub open spec fn model_entry(
    entry: Seq<char>,
    env: Map<Seq<char>, Seq<char>>,
    global_batch_max_seq: usize,
    global_warmup_seq_len: Option<usize>,
) -> Result<ModelDefView, Seq<char>> {
    let parts: Seq<Seq<char>> = pieces(trimmed(entry), ':');
    let key: Seq<char> = env_key(parts[0]);
    if parts.len() < 6 || parts.len() > 7 {
        Err(count_error(model_fields(), parts.len(), entry))
    } else {
        match usize_of(parts[2]) {
            Err(e) => Err(quoted_error("invalid dim"@, parts[2], e)),
            Ok(dim) => match usize_of(parts[3]) {
                Err(e) => Err(quoted_error("invalid max_len"@, parts[3], e)),
                Ok(max_len) => match parsed(parts[4], u32::MAX as nat) {
                    Err(e) => Err(quoted_error("invalid pad_id"@, parts[4], e)),
                    Ok(pad_id) => match strict_bool(parts[5]) {
                        None => Err("invalid has_token_type_ids '"@ + parts[5] + "'"@),
                        Some(has_token_type_ids) => match onnx_field(parts) {
                            Err(e) => Err(e),
                            Ok(onnx_filename) => Ok(
                                ModelDefView {
                                    name: parts[0],
                                    dir: parts[1],
                                    onnx_filename,
                                    dim: dim as usize,
                                    max_len: max_len as usize,
                                    pad_id: pad_id as u32,
                                    has_token_type_ids,
                                    batch_max_seq: positive_or(
                                        lookup(env, "BATCH_MAX_SEQ_"@ + key),
                                        global_batch_max_seq,
                                    ),
                                    warmup_seq_len: model_warmup_seq_len(
                                        lookup(env, "EMBED_WARMUP_SEQ_LEN_"@ + key),
                                        global_warmup_seq_len,
                                        max_len as usize,
                                    ),
                                    memory_pattern: memory_pattern_of(
                                        lookup(env, "EMBED_MEMORY_PATTERN_"@ + key),
                                    ),
                                },
                            ),
                        },
                    },
                },
            },
        }
    }
}

fn read_model_warmup(own: Option<&str>, global: Option<usize>, max_len: usize) -> (r: Option<usize>)
    ensures
        r == model_warmup_seq_len(opt_view(own), global, max_len),
{
    let fallback: usize = match global {
        Some(n) => n,
        None => max_len,
    };
    match own {
        Some(raw) => {
            let t: &str = trim(raw);
            if t.is_empty() || eq_ignore_case(t, "max") {
                None
            } else {
                Some(read_positive_or(Some(raw), fallback))
            }
        },
        None => Some(fallback),
    }
}

/// Reads one model entry
/// `name:dir:dim:max_len:pad_id:has_tti[:onnx_filename]` and the variables of
/// that model.
pub fn parse_one_model(
    entry: &str,
    env: &EnvVars,
    global_batch_max_seq: usize,
    global_warmup_seq_len: Option<usize>,
) -> (r: Result<ModelDef, String>)
    ensures
        agrees(r, model_entry(entry@, env@, global_batch_max_seq, global_warmup_seq_len)),
{
    let parts: Vec<&str> = split(trim(entry), ':');
    let ghost p: Seq<Seq<char>> = views(parts@);
    if parts.len() < 6 || parts.len() > 7 {
        return Err(
            count_error_text(
                "model entry must have 6 or 7 colon-separated fields (name:dir:dim:max_len:pad_id:has_tti[:onnx_filename]), got ",
                parts.len(),
                entry,
            ),
        );
    }
    assert(forall|i: int| 0 <= i < parts@.len() ==> p[i] == #[trigger] parts@[i]@);
    let dim: usize = match parse_usize(parts[2]) {
        Ok(n) => n,
        Err(e) => return Err(quoted_error_text("invalid dim", parts[2], e)),
    };
    let max_len: usize = match parse_usize(parts[3]) {
        Ok(n) => n,
        Err(e) => return Err(quoted_error_text("invalid max_len", parts[3], e)),
    };
    let pad_id: u32 = match parse_u32(parts[4]) {
        Ok(n) => n,
        Err(e) => return Err(quoted_error_text("invalid pad_id", parts[4], e)),
    };
    let has_token_type_ids: bool = match read_strict_bool(parts[5]) {
        Some(b) => b,
        None => {
            let mut m: String = "invalid has_token_type_ids '".to_owned();
            m.append(parts[5]);
            m.append("'");
            return Err(m);
        },
    };
    let key: String = model_env_key(parts[0]);
    let seq_var: String = model_var("BATCH_MAX_SEQ_", &key);
    let batch_max_seq: usize = read_positive_or(env.get(seq_var.as_str()), global_batch_max_seq);
    let warmup_var: String = model_var("EMBED_WARMUP_SEQ_LEN_", &key);
    let warmup_seq_len: Option<usize> = read_model_warmup(
        env.get(warmup_var.as_str()),
        global_warmup_seq_len,
        max_len,
    );
    let pattern_var: String = model_var("EMBED_MEMORY_PATTERN_", &key);
    let memory_pattern: bool = parse_memory_pattern(env.get(pattern_var.as_str()));
    let onnx_filename: String = if parts.len() == 7 {
        match read_onnx_file(parts[0], trim(parts[6])) {
            Ok(f) => f,
            Err(e) => return Err(e),
        }
    } else {
        "model_quantized.onnx".to_owned()
    };
    Ok(
        ModelDef {
            name: parts[0].to_owned(),
            dir: parts[1].to_owned(),
            onnx_filename,
            dim,
            max_len,
            pad_id,
            has_token_type_ids,
            batch_max_seq,
            warmup_seq_len,
            memory_pattern,
        },
    )
}

/// What `EMBED_MODELS` says, given the global values that a model falls back
/// to.
pub open spec fn model_list(
    s: Seq<char>,
    env: Map<Seq<char>, Seq<char>>,
    global_batch_max_seq: usize,
    global_warmup_seq_len: Option<usize>,
) -> Result<Seq<ModelDefView>, Seq<char>> {
    entries_of(
        pieces(s, ','),
        |entry: Seq<char>| model_entry(entry, env, global_batch_max_seq, global_warmup_seq_len),
    )
}

/// Reads comma-separated model entries, given the global values that a model
/// falls back to.
pub fn parse_models_with_globals(
    s: &str,
    env: &EnvVars,
    global_batch_max_seq: usize,
    global_warmup_seq_len: Option<usize>,
) -> (r: Result<Vec<ModelDef>, String>)
    ensures
        all_agree(r, model_list(s@, env@, global_batch_max_seq, global_warmup_seq_len)),
{
    let entries: Vec<&str> = split(s, ',');
    let ghost es: Seq<Seq<char>> = views(entries@);
    let ghost one = |entry: Seq<char>|
        model_entry(entry, env@, global_batch_max_seq, global_warmup_seq_len);
    let mut out: Vec<ModelDef> = Vec::new();
    let mut i: usize = 0;
    assert(all_views(out@) =~= Seq::<ModelDefView>::empty());
    while i < entries.len()
        invariant
            i <= entries.len(),
            es == views(entries@),
            es == pieces(s@, ','),
            one == (|entry: Seq<char>|
                model_entry(entry, env@, global_batch_max_seq, global_warmup_seq_len)),
            entries_of(es.take(i as int), one) == Ok::<_, Seq<char>>(all_views(out@)),
        decreases entries.len() - i,
    {
        proof {
            assert(es.take(i as int + 1).drop_last() =~= es.take(i as int));
            assert(es.take(i as int + 1).last() == entries@[i as int]@);
        }
        let entry: &str = entries[i];
        if !trim(entry).is_empty() {
            match parse_one_model(entry, env, global_batch_max_seq, global_warmup_seq_len) {
                Ok(d) => {
                    let ghost before: Seq<ModelDef> = out@;
                    out.push(d);
                    assert(all_views(out@) =~= all_views(before).push(d@));
                },
                Err(e) => {
                    proof {
                        lemma_entry_error_stays(es, one, i + 1);
                    }
                    return Err(e);
                },
            }
        }
        i = i + 1;
    }
    assert(es.take(i as int) =~= es);
    Ok(out)
}

/// Reads comma-separated model entries with the default global values.
pub fn parse_models(s: &str, env: &EnvVars) -> (r: Result<Vec<ModelDef>, String>)
    ensures
        all_agree(r, model_list(s@, env@, BATCH_SEQ_DEFAULT, None)),
{
    parse_models_with_globals(s, env, parse_batch_max_seq(None), None)
}

/// Server configuration parsed from environment variables.
#[derive(Debug)]
pub struct Config {
    pub port: u16,
    pub models: Vec<ModelDef>,
    /// Cross-encoder rerankers; there may be none.
    pub rerankers: Vec<RerankerModelDef>,
    pub default_model: String,
    pub intra_threads: usize,
    /// Sessions loaded per embedding model.
    pub embed_pool_size: usize,
    /// Sessions loaded per reranker.
    pub reranker_pool_size: usize,
    /// Threads of one reranker session.
    pub reranker_intra_threads: usize,
    /// Sparse encoders; there may be none.
    pub splades: Vec<SpladeModelDef>,
    /// Sessions loaded per sparse encoder.
    pub splade_pool_size: usize,
    /// Threads of one sparse encoder session.
    pub splade_intra_threads: usize,
    pub batching_enabled: bool,
    /// Cap on the texts of a batch.
    pub batch_max: usize,
    /// Cap on the pairs of a reranker batch.
    pub reranker_batch_max: usize,
    /// Token budget of a batch.
    pub batch_max_tokens: usize,
    /// Cap on the longest sequence of a batch.
    pub batch_max_seq: usize,
    pub batch_wait_ms: u64,
    pub max_queue_size: usize,
    /// Seconds that a shutdown waits for running work.
    pub drain_timeout_s: u64,
    /// Whether overlong inputs are cut to the model's length.
    pub auto_truncate: bool,
    /// Capacity of the response cache; `0` turns it off.
    pub cache_max_entries: usize,
    /// Capacity of the tokenizer cache; `0` turns it off.
    pub token_cache_max_entries: usize,
    pub rerank_warmup_batch_sizes: Vec<usize>,
    pub embed_warmup_batch_sizes: Vec<usize>,
    pub splade_warmup_batch_sizes: Vec<usize>,
    /// Cap on the warmup length; `None` stands for the model's length.
    pub embed_warmup_seq_len: Option<usize>,
    /// Seconds after which an idle session is freed; `0` never frees one.
    pub idle_evict_secs: u64,
    /// Cap on the texts of one embeddings request.
    pub embed_max_input_array: usize,
    /// Cap on the documents of one rerank request.
    pub rerank_max_input_docs: usize,
    /// Whether each embedding model runs in a process of its own.
    pub multi_process: bool,
    /// Path of the worker program.
    pub worker_bin_path: String,
    /// Directory of the worker sockets.
    pub worker_socket_dir: String,
}

/// What a [`Config`] says.
#[verifier::ext_equal]
pub struct ConfigView {
    pub port: u16,
    pub models: Seq<ModelDefView>,
    pub rerankers: Seq<RerankerModelDefView>,
    pub default_model: Seq<char>,
    pub intra_threads: usize,
    pub embed_pool_size: usize,
    pub reranker_pool_size: usize,
    pub reranker_intra_threads: usize,
    pub splades: Seq<SpladeModelDefView>,
    pub splade_pool_size: usize,
    pub splade_intra_threads: usize,
    pub batching_enabled: bool,
    pub batch_max: usize,
    pub reranker_batch_max: usize,
    pub batch_max_tokens: usize,
    pub batch_max_seq: usize,
    pub batch_wait_ms: u64,
    pub max_queue_size: usize,
    pub drain_timeout_s: u64,
    pub auto_truncate: bool,
    pub cache_max_entries: usize,
    pub token_cache_max_entries: usize,
    pub rerank_warmup_batch_sizes: Seq<usize>,
    pub embed_warmup_batch_sizes: Seq<usize>,
    pub splade_warmup_batch_sizes: Seq<usize>,
    pub embed_warmup_seq_len: Option<usize>,
    pub idle_evict_secs: u64,
    pub embed_max_input_array: usize,
    pub rerank_max_input_docs: usize,
    pub multi_process: bool,
    pub worker_bin_path: Seq<char>,
    pub worker_socket_dir: Seq<char>,
}

impl View for Config {
    type V = ConfigView;

    open spec fn view(&self) -> ConfigView {
        ConfigView {
            port: self.port,
            models: all_views(self.models@),
            rerankers: all_views(self.rerankers@),
            default_model: self.default_model@,
            intra_threads: self.intra_threads,
            embed_pool_size: self.embed_pool_size,
            reranker_pool_size: self.reranker_pool_size,
            reranker_intra_threads: self.reranker_intra_threads,
            splades: all_views(self.splades@),
            splade_pool_size: self.splade_pool_size,
            splade_intra_threads: self.splade_intra_threads,
            batching_enabled: self.batching_enabled,
            batch_max: self.batch_max,
            reranker_batch_max: self.reranker_batch_max,
            batch_max_tokens: self.batch_max_tokens,
            batch_max_seq: self.batch_max_seq,
            batch_wait_ms: self.batch_wait_ms,
            max_queue_size: self.max_queue_size,
            drain_timeout_s: self.drain_timeout_s,
            auto_truncate: self.auto_truncate,
            cache_max_entries: self.cache_max_entries,
            token_cache_max_entries: self.token_cache_max_entries,
            rerank_warmup_batch_sizes: self.rerank_warmup_batch_sizes@,
            embed_warmup_batch_sizes: self.embed_warmup_batch_sizes@,
            splade_warmup_batch_sizes: self.splade_warmup_batch_sizes@,
            embed_warmup_seq_len: self.embed_warmup_seq_len,
            idle_evict_secs: self.idle_evict_secs,
            embed_max_input_array: self.embed_max_input_array,
            rerank_max_input_docs: self.rerank_max_input_docs,
            multi_process: self.multi_process,
            worker_bin_path: self.worker_bin_path@,
            worker_socket_dir: self.worker_socket_dir@,
        }
    }
}

/// The value of a variable, or what stands for it when it is unset.
pub open spec fn text_or(raw: Option<Seq<char>>, default: Seq<char>) -> Seq<char> {
    match raw {
        Some(s) => s,
        None => default,
    }
}

/// The number of exactly `raw` (white space is not passed over), up to `max`;
/// `default` where there is none.
pub open spec fn exact_or(raw: Option<Seq<char>>, max: nat, default: nat) -> nat {
    match raw {
        None => default,
        Some(s) => match parsed(s, max) {
            Ok(n) => n,
            Err(_) => default,
        },
    }
}

/// The positive number of exactly `raw`; `default` where there is none.
pub open spec fn exact_positive_or(raw: Option<Seq<char>>, default: usize) -> usize {
    let n: nat = exact_or(raw, usize::MAX as nat, 0);
    if n == 0 {
        default
    } else {
        n as usize
    }
}

/// The seconds of `EMBED_IDLE_EVICT_SECS`.
pub open spec fn idle_secs(raw: Option<Seq<char>>) -> u64 {
    match raw {
        None => 0,
        Some(s) => match parsed(trimmed(s), u64::MAX as nat) {
            Ok(n) => n as u64,
            Err(_) => 0,
        },
    }
}

/// The warmup length that models without one of their own fall back to: none
/// where the variable is unset, empty or `max`.
pub open spec fn warmup_for_models(raw: Option<Seq<char>>) -> Option<usize> {
    match raw {
        None => None,
        Some(s) => if s.len() == 0 {
            None
        } else {
            warmup_seq_len(Some(trimmed(s)))
        },
    }
}

/// The threads of an embedding session: four where nothing is set, and two
/// where `0` is, which would leave the number to the runtime.
pub open spec fn threads_of(raw: Option<Seq<char>>) -> Result<usize, Seq<char>> {
    match raw {
        None => Ok(4),
        Some(s) => match usize_of(s) {
            Err(e) => Err("invalid EMBED_INTRA_THREADS: "@ + e.words()),
            Ok(n) => if n == 0 {
                Ok(2)
            } else {
                Ok(n as usize)
            },
        },
    }
}

/// The port to listen on.
pub open spec fn port_of(raw: Option<Seq<char>>) -> Result<u16, Seq<char>> {
    match raw {
        None => Ok(8082),
        Some(s) => match parsed(s, u16::MAX as nat) {
            Err(e) => Err("invalid EMBED_PORT: "@ + e.words()),
            Ok(n) => Ok(n as u16),
        },
    }
}

/// Four times `n`, but no more than the largest `usize`.
pub open spec fn four_times(n: usize) -> usize {
    if n * 4 > usize::MAX {
        usize::MAX
    } else {
        (n * 4) as usize
    }
}

/// A model of that name is defined.
pub open spec fn defines(models: Seq<ModelDefView>, name: Seq<char>) -> bool {
    exists|i: int| 0 <= i < models.len() && (#[trigger] models[i]).name == name
}

/// The list of a variable that may be unset.
pub open spec fn optional_list<V>(
    raw: Option<Seq<char>>,
    list: spec_fn(Seq<char>) -> Result<Seq<V>, Seq<char>>,
) -> Result<Seq<V>, Seq<char>> {
    match raw {
        None => Ok(Seq::empty()),
        Some(s) => list(s),
    }
}

/// The configuration of the variables, once those that can be wrong have been
/// read.
pub open spec fn config_with(
    env: Map<Seq<char>, Seq<char>>,
    port: u16,
    models: Seq<ModelDefView>,
    default_model: Seq<char>,
    intra_threads: usize,
    rerankers: Seq<RerankerModelDefView>,
    splades: Seq<SpladeModelDefView>,
) -> ConfigView {
    let batch_max: usize = exact_or(lookup(env, "BATCH_MAX"@), usize::MAX as nat, 32) as usize;
    ConfigView {
        port,
        models,
        rerankers,
        default_model,
        intra_threads,
        embed_pool_size: positive_or(lookup(env, "EMBED_SESSION_POOL_SIZE"@), 1),
        reranker_pool_size: positive_or(lookup(env, "RERANKER_SESSION_POOL_SIZE"@), 1),
        reranker_intra_threads: exact_positive_or(
            lookup(env, "RERANKER_INTRA_THREADS"@),
            intra_threads,
        ),
        splades,
        splade_pool_size: positive_or(lookup(env, "SPLADE_SESSION_POOL_SIZE"@), 1),
        splade_intra_threads: exact_positive_or(
            lookup(env, "SPLADE_INTRA_THREADS"@),
            intra_threads,
        ),
        batching_enabled: multi_process_flag(lookup(env, "BATCHING_ENABLED"@)),
        batch_max,
        reranker_batch_max: exact_or(
            lookup(env, "RERANKER_BATCH_MAX"@),
            usize::MAX as nat,
            four_times(batch_max) as nat,
        ) as usize,
        batch_max_tokens: positive_or(lookup(env, "BATCH_MAX_TOKENS"@), BATCH_TOKENS_DEFAULT),
        batch_max_seq: positive_or(lookup(env, "BATCH_MAX_SEQ"@), BATCH_SEQ_DEFAULT),
        batch_wait_ms: exact_or(lookup(env, "BATCH_WAIT_MS"@), u64::MAX as nat, 10) as u64,
        max_queue_size: exact_or(lookup(env, "MAX_QUEUE_SIZE"@), usize::MAX as nat, 256) as usize,
        drain_timeout_s: exact_or(lookup(env, "DRAIN_TIMEOUT_S"@), u64::MAX as nat, 10) as u64,
        auto_truncate: !(lookup(env, "AUTO_TRUNCATE"@) matches Some(s) && same_ignoring_case(
            s,
            "false"@,
        )),
        cache_max_entries: number_or(lookup(env, "CACHE_MAX_ENTRIES"@), CACHE_ENTRIES_DEFAULT),
        token_cache_max_entries: number_or(lookup(env, "TOKEN_CACHE_MAX_ENTRIES"@), 0),
        rerank_warmup_batch_sizes: warmup_sizes(
            lookup(env, "RERANK_WARMUP_BATCH_SIZES"@),
            seq![1usize, 5],
        ),
        embed_warmup_batch_sizes: warmup_sizes(
            lookup(env, "EMBED_WARMUP_BATCH_SIZES"@),
            seq![1usize, 8],
        ),
        splade_warmup_batch_sizes: warmup_sizes(
            lookup(env, "SPLADE_WARMUP_BATCH_SIZES"@),
            seq![1usize],
        ),
        embed_warmup_seq_len: warmup_seq_len(lookup(env, "EMBED_WARMUP_SEQ_LEN"@)),
        idle_evict_secs: idle_secs(lookup(env, "EMBED_IDLE_EVICT_SECS"@)),
        embed_max_input_array: positive_or(lookup(env, "EMBED_MAX_INPUT_ARRAY"@), 32),
        rerank_max_input_docs: positive_or(lookup(env, "RERANK_MAX_INPUT_DOCS"@), 32),
        multi_process: multi_process_flag(lookup(env, "EMBED_MULTI_PROCESS"@)),
        worker_bin_path: text_or(
            lookup(env, "EMBED_WORKER_BIN"@),
            "/usr/local/bin/embed-worker"@,
        ),
        worker_socket_dir: text_or(
            lookup(env, "EMBED_WORKER_SOCKET_DIR"@),
            "/tmp/embed-workers"@,
        ),
    }
}

/// The configuration that an environment asks for, or the message of the
/// first thing that is wrong with it.
pub open spec fn config_of(env: Map<Seq<char>, Seq<char>>) -> Result<ConfigView, Seq<char>> {
    match port_of(lookup(env, "EMBED_PORT"@)) {
        Err(e) => Err(e),
        Ok(port) => match lookup(env, "EMBED_MODELS"@) {
            None => Err("EMBED_MODELS env var is required"@),
            Some(models_str) => match model_list(
                models_str,
                env,
                positive_or(lookup(env, "BATCH_MAX_SEQ"@), BATCH_SEQ_DEFAULT),
                warmup_for_models(lookup(env, "EMBED_WARMUP_SEQ_LEN"@)),
            ) {
                Err(e) => Err(e),
                Ok(models) => {
                    let default_model: Seq<char> = text_or(
                        lookup(env, "EMBED_DEFAULT_MODEL"@),
                        models[0].name,
                    );
                    if models.len() == 0 {
                        Err("EMBED_MODELS must define at least one model"@)
                    } else if !defines(models, default_model) {
                        Err("EMBED_DEFAULT_MODEL '"@ + default_model + "' not found in models"@)
                    } else {
                        match threads_of(lookup(env, "EMBED_INTRA_THREADS"@)) {
                            Err(e) => Err(e),
                            Ok(intra_threads) => match optional_list(
                                lookup(env, "RERANKER_MODELS"@),
                                |s: Seq<char>| reranker_list(s),
                            ) {
                                Err(e) => Err(e),
                                Ok(rerankers) => match optional_list(
                                    lookup(env, "SPLADE_MODELS"@),
                                    |s: Seq<char>| splade_list(s),
                                ) {
                                    Err(e) => Err(e),
                                    Ok(splades) => Ok(
                                        config_with(
                                            env,
                                            port,
                                            models,
                                            default_model,
                                            intra_threads,
                                            rerankers,
                                            splades,
                                        ),
                                    ),
                                },
                            },
                        }
                    }
                },
            },
        },
    }
}

pub(crate) fn read_exact_or(raw: Option<&str>, max: u64, default: u64) -> (r: u64)
    requires
        default <= max,
    ensures
        r == exact_or(opt_view(raw), max as nat, default as nat),
        r <= max,
{
    match raw {
        None => default,
        Some(s) => match parse_up_to(s, max) {
            Ok(n) => n,
            Err(_) => default,
        },
    }
}

fn read_exact_positive_or(raw: Option<&str>, default: usize) -> (r: usize)
    ensures
        r == exact_positive_or(opt_view(raw), default),
{
    let n: u64 = read_exact_or(raw, usize::MAX as u64, 0);
    if n == 0 {
        default
    } else {
        n as usize
    }
}

fn read_idle_secs(raw: Option<&str>) -> (r: u64)
    ensures
        r == idle_secs(opt_view(raw)),
{
    match raw {
        None => 0,
        Some(s) => match parse_up_to(trim(s), u64::MAX) {
            Ok(n) => n,
            Err(_) => 0,
        },
    }
}

fn read_warmup_for_models(raw: Option<&str>) -> (r: Option<usize>)
    ensures
        r == warmup_for_models(opt_view(raw)),
{
    match raw {
        None => None,
        Some(s) => if s.is_empty() {
            None
        } else {
            parse_embed_warmup_seq_len(Some(trim(s)))
        },
    }
}

fn prefixed(what: &str, why: IntError) -> (r: String)
    ensures
        r@ == what@ + why.words(),
{
    let mut m: String = what.to_owned();
    m.append(why.text());
    m
}

fn read_port(raw: Option<&str>) -> (r: Result<u16, String>)
    ensures
        match (r, port_of(opt_view(raw))) {
            (Ok(v), Ok(w)) => v == w,
            (Err(e), Err(f)) => e@ == f,
            _ => false,
        },
{
    match raw {
        None => Ok(8082),
        Some(s) => match parse_u16(s) {
            Ok(n) => Ok(n),
            Err(e) => Err(prefixed("invalid EMBED_PORT: ", e)),
        },
    }
}

fn read_threads(raw: Option<&str>) -> (r: Result<usize, String>)
    ensures
        match (r, threads_of(opt_view(raw))) {
            (Ok(v), Ok(w)) => v == w,
            (Err(e), Err(f)) => e@ == f,
            _ => false,
        },
{
    match raw {
        None => Ok(4),
        Some(s) => match parse_usize(s) {
            Ok(n) => if n == 0 {
                Ok(2)
            } else {
                Ok(n)
            },
            Err(e) => Err(prefixed("invalid EMBED_INTRA_THREADS: ", e)),
        },
    }
}

fn read_text_or(raw: Option<&str>, default: &str) -> (r: String)
    ensures
        r@ == text_or(opt_view(raw), default@),
{
    match raw {
        Some(s) => s.to_owned(),
        None => default.to_owned(),
    }
}

fn defines_model(models: &Vec<ModelDef>, name: &String) -> (r: bool)
    ensures
        r == defines(all_views(models@), name@),
{
    let mut i: usize = 0;
    while i < models.len()
        invariant
            i <= models.len(),
            forall|j: int| 0 <= j < i ==> (#[trigger] models@[j]).name@ != name@,
        decreases models.len() - i,
    {
        if models[i].name == *name {
            assert(all_views(models@)[i as int].name == name@);
            return true;
        }
        i = i + 1;
    }
    assert forall|j: int| 0 <= j < models@.len() implies (#[trigger] all_views(
        models@,
    )[j]).name != name@ by {
        assert(all_views(models@)[j] == models@[j]@);
    }
    false
}

impl Config {
    /// Reads the configuration from the environment.
    pub fn from_env(env: &EnvVars) -> (r: Result<Config, String>)
        ensures
            agrees(r, config_of(env@)),
    {
        let port: u16 = match read_port(env.get("EMBED_PORT")) {
            Ok(p) => p,
            Err(e) => return Err(e),
        };
        let models_str: &str = match env.get("EMBED_MODELS") {
            Some(s) => s,
            None => return Err("EMBED_MODELS env var is required".to_owned()),
        };
        let batch_max_seq: usize = parse_batch_max_seq(env.get("BATCH_MAX_SEQ"));
        let warmup: Option<usize> = read_warmup_for_models(env.get("EMBED_WARMUP_SEQ_LEN"));
        let models: Vec<ModelDef> = match parse_models_with_globals(
            models_str,
            env,
            batch_max_seq,
            warmup,
        ) {
            Ok(m) => m,
            Err(e) => return Err(e),
        };
        if models.len() == 0 {
            return Err("EMBED_MODELS must define at least one model".to_owned());
        }
        assert(all_views(models@)[0] == models@[0]@);
        let default_model: String = read_text_or(
            env.get("EMBED_DEFAULT_MODEL"),
            models[0].name.as_str(),
        );
        if !defines_model(&models, &default_model) {
            let mut m: String = "EMBED_DEFAULT_MODEL '".to_owned();
            m.append(default_model.as_str());
            m.append("' not found in models");
            return Err(m);
        }
        let intra_threads: usize = match read_threads(env.get("EMBED_INTRA_THREADS")) {
            Ok(n) => n,
            Err(e) => return Err(e),
        };
        let rerankers: Vec<RerankerModelDef> = match env.get("RERANKER_MODELS") {
            Some(s) => match parse_rerankers(s) {
                Ok(v) => v,
                Err(e) => return Err(e),
            },
            None => Vec::new(),
        };
        let splades: Vec<SpladeModelDef> = match env.get("SPLADE_MODELS") {
            Some(s) => match parse_splades(s) {
                Ok(v) => v,
                Err(e) => return Err(e),
            },
            None => Vec::new(),
        };
        let batch_max: usize = read_exact_or(env.get("BATCH_MAX"), usize::MAX as u64, 32) as usize;
        let four: usize = match batch_max.checked_mul(4) {
            Some(n) => n,
            None => usize::MAX,
        };
        let c: Config = Config {
            port,
            models,
            rerankers,
            default_model,
            intra_threads,
            embed_pool_size: parse_embed_pool_size(env.get("EMBED_SESSION_POOL_SIZE"), None),
            reranker_pool_size: parse_reranker_pool_size(env.get("RERANKER_SESSION_POOL_SIZE")),
            reranker_intra_threads: read_exact_positive_or(
                env.get("RERANKER_INTRA_THREADS"),
                intra_threads,
            ),
            splades,
            splade_pool_size: parse_splade_pool_size(env.get("SPLADE_SESSION_POOL_SIZE")),
            splade_intra_threads: read_exact_positive_or(
                env.get("SPLADE_INTRA_THREADS"),
                intra_threads,
            ),
            batching_enabled: parse_multi_process_flag(env.get("BATCHING_ENABLED")),
            batch_max,
            reranker_batch_max: read_exact_or(
                env.get("RERANKER_BATCH_MAX"),
                usize::MAX as u64,
                four as u64,
            ) as usize,
            batch_max_tokens: parse_batch_max_tokens(env.get("BATCH_MAX_TOKENS")),
            batch_max_seq,
            batch_wait_ms: read_exact_or(env.get("BATCH_WAIT_MS"), u64::MAX, 10),
            max_queue_size: read_exact_or(env.get("MAX_QUEUE_SIZE"), usize::MAX as u64, 256) as usize,
            drain_timeout_s: read_exact_or(env.get("DRAIN_TIMEOUT_S"), u64::MAX, 10),
            auto_truncate: match env.get("AUTO_TRUNCATE") {
                Some(s) => !eq_ignore_case(s, "false"),
                None => true,
            },
            cache_max_entries: parse_cache_max_entries(env.get("CACHE_MAX_ENTRIES")),
            token_cache_max_entries: parse_token_cache_max_entries(
                env.get("TOKEN_CACHE_MAX_ENTRIES"),
            ),
            rerank_warmup_batch_sizes: parse_warmup_batch_sizes(
                env.get("RERANK_WARMUP_BATCH_SIZES"),
                &[1, 5],
            ),
            embed_warmup_batch_sizes: parse_warmup_batch_sizes(
                env.get("EMBED_WARMUP_BATCH_SIZES"),
                &[1, 8],
            ),
            splade_warmup_batch_sizes: parse_warmup_batch_sizes(
                env.get("SPLADE_WARMUP_BATCH_SIZES"),
                &[1],
            ),
            embed_warmup_seq_len: parse_embed_warmup_seq_len(env.get("EMBED_WARMUP_SEQ_LEN")),
            idle_evict_secs: read_idle_secs(env.get("EMBED_IDLE_EVICT_SECS")),
            embed_max_input_array: read_positive_or(env.get("EMBED_MAX_INPUT_ARRAY"), 32),
            rerank_max_input_docs: read_positive_or(env.get("RERANK_MAX_INPUT_DOCS"), 32),
            multi_process: parse_multi_process_flag(env.get("EMBED_MULTI_PROCESS")),
            worker_bin_path: read_text_or(
                env.get("EMBED_WORKER_BIN"),
                "/usr/local/bin/embed-worker",
            ),
            worker_socket_dir: read_text_or(
                env.get("EMBED_WORKER_SOCKET_DIR"),
                "/tmp/embed-workers",
            ),
        };
        proof {
            assert(all_views(c.rerankers@) == optional_list(
                lookup(env@, "RERANKER_MODELS"@),
                |s: Seq<char>| reranker_list(s),
            )->Ok_0);
            assert(all_views(c.splades@) == optional_list(
                lookup(env@, "SPLADE_MODELS"@),
                |s: Seq<char>| splade_list(s),
            )->Ok_0);
            assert(c@ =~= config_with(
                env@,
                port,
                all_views(c.models@),
                c.default_model@,
                intra_threads,
                all_views(c.rerankers@),
                all_views(c.splades@),
            ));
        }
        Ok(c)
    }
}

/// A plain file name: not empty, no path separator, and not the parent
/// directory.
pub open spec fn is_plain_file(f: Seq<char>) -> bool {
    f.len() > 0 && !f.contains('/') && !f.contains('\\') && f != ".."@
}

proof fn lemma_positive_or(raw: Option<Seq<char>>, default: usize)
    requires
        default > 0,
    ensures
        positive_or(raw, default) > 0,
{
    if let Some(s) = raw {
        law_parsed(trimmed(s), usize::MAX as nat);
    }
}

proof fn lemma_exact_positive_or(raw: Option<Seq<char>>, default: usize)
    requires
        default > 0,
    ensures
        exact_positive_or(raw, default) > 0,
{
    if let Some(s) = raw {
        law_parsed(s, usize::MAX as nat);
    }
}

proof fn lemma_models_sound(
    entries: Seq<Seq<char>>,
    env: Map<Seq<char>, Seq<char>>,
    seq: usize,
    warmup: Option<usize>,
)
    requires
        seq > 0,
    ensures
        entries_of(entries, |entry: Seq<char>| model_entry(entry, env, seq, warmup)) matches Ok(
            v,
        ) ==> forall|i: int|
            0 <= i < v.len() ==> (#[trigger] v[i]).batch_max_seq > 0 && is_plain_file(
                v[i].onnx_filename,
            ),
    decreases entries.len(),
{
    if entries.len() > 0 {
        lemma_models_sound(entries.drop_last(), env, seq, warmup);
        let e: Seq<char> = entries.last();
        let parts: Seq<Seq<char>> = pieces(trimmed(e), ':');
        lemma_positive_or(lookup(env, "BATCH_MAX_SEQ_"@ + env_key(parts[0])), seq);
        reveal_strlit("model_quantized.onnx");
        reveal_strlit("..");
        assert(is_plain_file("model_quantized.onnx"@)) by {
            let f: Seq<char> = "model_quantized.onnx"@;
            assert(forall|i: int| 0 <= i < f.len() ==> f[i] != '/' && f[i] != '\\');
            assert(f.len() != ".."@.len());
        }
    }
}

/// A configuration that is accepted is usable: there is a model, the default
/// model is one of the models, every size by which the server divides or that
/// it takes as a limit is positive, every warmup list has sizes to warm up with,
/// the warmup length is never zero, and every model file is a plain file name.
pub proof fn law_config_sound(env: Map<Seq<char>, Seq<char>>)
    requires
        config_of(env) is Ok,
    ensures
        ({
            let c: ConfigView = config_of(env)->Ok_0;
            &&& c.models.len() > 0
            &&& defines(c.models, c.default_model)
            &&& c.intra_threads > 0
            &&& c.reranker_intra_threads > 0
            &&& c.splade_intra_threads > 0
            &&& c.embed_pool_size > 0
            &&& c.reranker_pool_size > 0
            &&& c.splade_pool_size > 0
            &&& c.batch_max_tokens > 0
            &&& c.batch_max_seq > 0
            &&& c.embed_max_input_array > 0
            &&& c.rerank_max_input_docs > 0
            &&& usable_sizes(c.rerank_warmup_batch_sizes)
            &&& usable_sizes(c.embed_warmup_batch_sizes)
            &&& usable_sizes(c.splade_warmup_batch_sizes)
            &&& c.embed_warmup_seq_len != Some(0usize)
            &&& forall|i: int|
                0 <= i < c.models.len() ==> (#[trigger] c.models[i]).batch_max_seq > 0
                    && is_plain_file(c.models[i].onnx_filename)
        }),
{
    let seq: usize = positive_or(lookup(env, "BATCH_MAX_SEQ"@), BATCH_SEQ_DEFAULT);
    let threads: Option<Seq<char>> = lookup(env, "EMBED_INTRA_THREADS"@);
    if let Some(s) = threads {
        law_parsed(s, usize::MAX as nat);
    }
    let c: ConfigView = config_of(env)->Ok_0;
    lemma_positive_or(lookup(env, "BATCH_MAX_SEQ"@), BATCH_SEQ_DEFAULT);
    lemma_models_sound(
        pieces(lookup(env, "EMBED_MODELS"@)->0, ','),
        env,
        seq,
        warmup_for_models(lookup(env, "EMBED_WARMUP_SEQ_LEN"@)),
    );
    lemma_exact_positive_or(lookup(env, "RERANKER_INTRA_THREADS"@), c.intra_threads);
    lemma_exact_positive_or(lookup(env, "SPLADE_INTRA_THREADS"@), c.intra_threads);
    lemma_positive_or(lookup(env, "EMBED_SESSION_POOL_SIZE"@), 1);
    lemma_positive_or(lookup(env, "RERANKER_SESSION_POOL_SIZE"@), 1);
    lemma_positive_or(lookup(env, "SPLADE_SESSION_POOL_SIZE"@), 1);
    lemma_positive_or(lookup(env, "BATCH_MAX_TOKENS"@), BATCH_TOKENS_DEFAULT);
    lemma_positive_or(lookup(env, "EMBED_MAX_INPUT_ARRAY"@), 32);
    lemma_positive_or(lookup(env, "RERANK_MAX_INPUT_DOCS"@), 32);
    law_warmup_sizes(lookup(env, "RERANK_WARMUP_BATCH_SIZES"@), seq![1usize, 5]);
    law_warmup_sizes(lookup(env, "EMBED_WARMUP_BATCH_SIZES"@), seq![1usize, 8]);
    law_warmup_sizes(lookup(env, "SPLADE_WARMUP_BATCH_SIZES"@), seq![1usize]);
    lemma_positive_or(lookup(env, "EMBED_WARMUP_SEQ_LEN"@), WARMUP_SEQ_DEFAULT);
}

/// Sizes to warm up with: at least one, all positive, no two equal.
pub open spec fn usable_sizes(sizes: Seq<usize>) -> bool {
    sizes.len() > 0 && sizes.no_duplicates() && !sizes.contains(0)
}

/// Entries of white space alone change nothing: a list keeps its meaning when
/// such an entry stands at its end.
pub proof fn law_blank_entry_is_passed_over<V>(
    entries: Seq<Seq<char>>,
    blank: Seq<char>,
    one: spec_fn(Seq<char>) -> Result<V, Seq<char>>,
)
    requires
        trimmed(blank).len() == 0,
    ensures
        entries_of(entries.push(blank), one) == entries_of(entries, one),
{
    assert(entries.push(blank).drop_last() =~= entries);
}

/// What two lists come to one after the other: the first error of either, or
/// what both hold.
pub open spec fn joined<V>(
    a: Result<Seq<V>, Seq<char>>,
    b: Result<Seq<V>, Seq<char>>,
) -> Result<Seq<V>, Seq<char>> {
    match (a, b) {
        (Err(e), _) => Err(e),
        (Ok(_), Err(e)) => Err(e),
        (Ok(v), Ok(w)) => Ok(v + w),
    }
}

/// The entries of one list and then of another are read as the one list and
/// then the other.
pub proof fn law_entries_join<V>(
    a: Seq<Seq<char>>,
    b: Seq<Seq<char>>,
    one: spec_fn(Seq<char>) -> Result<V, Seq<char>>,
)
    ensures
        entries_of(a + b, one) == joined(entries_of(a, one), entries_of(b, one)),
    decreases b.len(),
{
    if b.len() == 0 {
        assert(a + b =~= a);
        if let Ok(v) = entries_of(a, one) {
            assert(v + Seq::<V>::empty() =~= v);
        }
    } else {
        law_entries_join(a, b.drop_last(), one);
        assert((a + b).drop_last() =~= a + b.drop_last());
        assert((a + b).last() == b.last());
        match (entries_of(a, one), entries_of(b.drop_last(), one)) {
            (Ok(v), Ok(w)) => {
                if let Ok(x) = one(b.last()) {
                    assert((v + w).push(x) =~= v + w.push(x));
                }
            },
            _ => {},
        }
    }
}

/// Two lists of models with a comma between them are read as the one and then
/// the other.
pub proof fn law_lists_join(
    a: Seq<char>,
    b: Seq<char>,
    env: Map<Seq<char>, Seq<char>>,
    seq: usize,
    warmup: Option<usize>,
)
    ensures
        splade_list(a.push(',') + b) == joined(splade_list(a), splade_list(b)),
        reranker_list(a.push(',') + b) == joined(reranker_list(a), reranker_list(b)),
        model_list(a.push(',') + b, env, seq, warmup) == joined(
            model_list(a, env, seq, warmup),
            model_list(b, env, seq, warmup),
        ),
{
    law_pieces_join(a, b, ',');
    let (x, y) = (pieces(a, ','), pieces(b, ','));
    law_entries_join(x, y, |entry: Seq<char>| splade_entry(entry));
    law_entries_join(x, y, |entry: Seq<char>| reranker_entry(entry));
    law_entries_join(x, y, |entry: Seq<char>| model_entry(entry, env, seq, warmup));
}

/// The own variable of a model takes precedence over the global pool size
/// whenever it holds more than white space, and the result is never zero.
pub proof fn law_pool_size_precedence(
    env: Map<Seq<char>, Seq<char>>,
    model: Seq<char>,
    a: Option<Seq<char>>,
    b: Option<Seq<char>>,
)
    ensures
        pool_size_for(env, model, a) > 0,
        (lookup(env, "EMBED_SESSION_POOL_SIZE_"@ + env_key(model)) matches Some(own)
            && trimmed(own).len() > 0) ==> pool_size_for(env, model, a) == pool_size_for(
            env,
            model,
            b,
        ),
{
    let own: Option<Seq<char>> = lookup(env, "EMBED_SESSION_POOL_SIZE_"@ + env_key(model));
    lemma_positive_or(a, 1);
    if own is Some {
        lemma_positive_or(Some(trimmed(own->0)), 1);
    }
}

proof fn lemma_field(a: Seq<char>, b: Seq<char>)
    requires
        !a.contains(':'),
    ensures
        pieces(a.push(':') + b, ':') == seq![a] + pieces(b, ':'),
{
    law_pieces_join(a, b, ':');
    law_text_without_separator_is_one_piece(a, ':');
}

proof fn lemma_number_field(n: nat)
    ensures
        !decimal(n).contains(':'),
        !decimal(n).contains(','),
        decimal(n).len() > 0,
        !is_space(decimal(n)[0]),
        !is_space(decimal(n).last()),
{
    law_written_number_is_plain(n);
    assert forall|i: int| 0 <= i < decimal(n).len() implies decimal(n)[i] != ':' && decimal(n)[i]
        != ',' by {
        assert('0' <= decimal(n)[i] <= '9');
    }
    assert('0' <= decimal(n)[0] <= '9');
    assert('0' <= decimal(n)[decimal(n).len() - 1] <= '9');
}

proof fn lemma_flag_field(flag: Seq<char>)
    requires
        flag == "true"@ || flag == "false"@ || flag == "1"@ || flag == "0"@,
    ensures
        !flag.contains(':'),
        !flag.contains(','),
        flag.len() > 0,
        !is_space(flag[0]),
        !is_space(flag.last()),
        strict_bool(flag) == Some(flag == "true"@ || flag == "1"@),
{
    reveal_strlit("true");
    reveal_strlit("false");
    reveal_strlit("1");
    reveal_strlit("0");
    assert("1"@[0] == '1' && "0"@[0] == '0' && "true"@[0] == 't' && "false"@[0] == 'f');
    assert(forall|i: int| 0 <= i < flag.len() ==> flag[i] != ':' && flag[i] != ',');
}

/// A definition that is written down is read back as it was: its name, its
/// directory, its numbers, its flag, and the default file.
pub proof fn law_model_entry_is_read_back(
    name: Seq<char>,
    dir: Seq<char>,
    dim: usize,
    max_len: usize,
    pad_id: u32,
    flag: Seq<char>,
    env: Map<Seq<char>, Seq<char>>,
    seq: usize,
    warmup: Option<usize>,
    r: Result<ModelDef, String>,
)
    requires
        !name.contains(':'),
        !dir.contains(':'),
        name.len() > 0 ==> !is_space(name[0]),
        flag == "true"@ || flag == "false"@ || flag == "1"@ || flag == "0"@,
        agrees(
            r,
            model_entry(
                name.push(':') + (dir.push(':') + (decimal(dim as nat).push(':') + (decimal(max_len as nat).push(':') + (decimal(pad_id as nat).push(':') + flag)))),
                env,
                seq,
                warmup,
            ),
        ),
    ensures
        r matches Ok(d) && {
            &&& d.name@ == name
            &&& d.dir@ == dir
            &&& d.onnx_filename@ == "model_quantized.onnx"@
            &&& d.dim == dim
            &&& d.max_len == max_len
            &&& d.pad_id == pad_id
            &&& d.has_token_type_ids == (flag == "true"@ || flag == "1"@)
            &&& d.batch_max_seq == positive_or(lookup(env, "BATCH_MAX_SEQ_"@ + env_key(name)), seq)
            &&& d.warmup_seq_len == model_warmup_seq_len(
                lookup(env, "EMBED_WARMUP_SEQ_LEN_"@ + env_key(name)),
                warmup,
                max_len,
            )
            &&& d.memory_pattern == memory_pattern_of(
                lookup(env, "EMBED_MEMORY_PATTERN_"@ + env_key(name)),
            )
        },
{
    let entry: Seq<char> = name.push(':') + (dir.push(':') + (decimal(dim as nat).push(':') + (decimal(max_len as nat).push(':') + (decimal(pad_id as nat).push(':') + flag))));
    lemma_number_field(dim as nat);
    lemma_number_field(max_len as nat);
    lemma_number_field(pad_id as nat);
    lemma_flag_field(flag);
    let e4: Seq<char> = decimal(pad_id as nat).push(':') + flag;
    let e3: Seq<char> = decimal(max_len as nat).push(':') + e4;
    let e2: Seq<char> = decimal(dim as nat).push(':') + e3;
    let e1: Seq<char> = dir.push(':') + e2;
    lemma_field(name, e1);
    lemma_field(dir, e2);
    lemma_field(decimal(dim as nat), e3);
    lemma_field(decimal(max_len as nat), e4);
    lemma_field(decimal(pad_id as nat), flag);
    law_text_without_separator_is_one_piece(flag, ':');
    assert(entry == name.push(':') + e1);
    assert(entry[0] == if name.len() > 0 {
        name[0]
    } else {
        ':'
    });
    assert(entry.last() == flag.last());
    law_trimmed_text_stays(entry);
    let parts: Seq<Seq<char>> = pieces(entry, ':');
    assert(parts =~= seq![
        name,
        dir,
        decimal(dim as nat),
        decimal(max_len as nat),
        decimal(pad_id as nat),
        flag,
    ]);
    law_decimal_round_trip(dim as nat, usize::MAX as nat);
    law_decimal_round_trip(max_len as nat, usize::MAX as nat);
    law_decimal_round_trip(pad_id as nat, u32::MAX as nat);
}

/// The same with a file of its own, which must be a plain file name; anything
/// else there is refused.
pub proof fn law_model_entry_with_file_is_read_back(
    name: Seq<char>,
    dir: Seq<char>,
    dim: usize,
    max_len: usize,
    pad_id: u32,
    flag: Seq<char>,
    file: Seq<char>,
    env: Map<Seq<char>, Seq<char>>,
    seq: usize,
    warmup: Option<usize>,
    r: Result<ModelDef, String>,
)
    requires
        !name.contains(':'),
        !dir.contains(':'),
        !file.contains(':'),
        name.len() > 0 ==> !is_space(name[0]),
        file.len() > 0 ==> !is_space(file[0]) && !is_space(file.last()),
        flag == "true"@ || flag == "false"@ || flag == "1"@ || flag == "0"@,
        agrees(
            r,
            model_entry(
                name.push(':') + (dir.push(':') + (decimal(dim as nat).push(':') + (decimal(max_len as nat).push(':') + (decimal(pad_id as nat).push(':') + (flag.push(':') + file))))),
                env,
                seq,
                warmup,
            ),
        ),
    ensures
        r is Ok <==> file.len() > 0 && !file.contains('/') && !file.contains('\\') && file
            != ".."@,
        r matches Ok(d) ==> {
            &&& d.name@ == name
            &&& d.dir@ == dir
            &&& d.onnx_filename@ == file
            &&& d.dim == dim
            &&& d.max_len == max_len
            &&& d.pad_id == pad_id
            &&& d.has_token_type_ids == (flag == "true"@ || flag == "1"@)
        },
{
    let entry: Seq<char> = name.push(':') + (dir.push(':') + (decimal(dim as nat).push(':') + (decimal(max_len as nat).push(':') + (decimal(pad_id as nat).push(':') + (flag.push(':') + file)))));
    lemma_number_field(dim as nat);
    lemma_number_field(max_len as nat);
    lemma_number_field(pad_id as nat);
    lemma_flag_field(flag);
    let e5: Seq<char> = flag.push(':') + file;
    let e4: Seq<char> = decimal(pad_id as nat).push(':') + e5;
    let e3: Seq<char> = decimal(max_len as nat).push(':') + e4;
    let e2: Seq<char> = decimal(dim as nat).push(':') + e3;
    let e1: Seq<char> = dir.push(':') + e2;
    lemma_field(name, e1);
    lemma_field(dir, e2);
    lemma_field(decimal(dim as nat), e3);
    lemma_field(decimal(max_len as nat), e4);
    lemma_field(decimal(pad_id as nat), e5);
    lemma_field(flag, file);
    law_text_without_separator_is_one_piece(file, ':');
    assert(entry == name.push(':') + e1);
    assert(entry[0] == if name.len() > 0 {
        name[0]
    } else {
        ':'
    });
    assert(entry.last() == if file.len() > 0 {
        file.last()
    } else {
        ':'
    });
    law_trimmed_text_stays(entry);
    law_trimmed_text_stays(file);
    let parts: Seq<Seq<char>> = pieces(entry, ':');
    assert(parts =~= seq![
        name,
        dir,
        decimal(dim as nat),
        decimal(max_len as nat),
        decimal(pad_id as nat),
        flag,
        file,
    ]);
    law_decimal_round_trip(dim as nat, usize::MAX as nat);
    law_decimal_round_trip(max_len as nat, usize::MAX as nat);
    law_decimal_round_trip(pad_id as nat, u32::MAX as nat);
}

/// A reranker's definition that is written down is read back as it was.
pub proof fn law_reranker_entry_is_read_back(
    name: Seq<char>,
    dir: Seq<char>,
    max_len: usize,
    flag: Seq<char>,
    r: Result<RerankerModelDef, String>,
)
    requires
        !name.contains(':'),
        !dir.contains(':'),
        name.len() > 0 ==> !is_space(name[0]),
        flag == "true"@ || flag == "false"@ || flag == "1"@ || flag == "0"@,
        agrees(
            r,
            reranker_entry(name.push(':') + (dir.push(':') + (decimal(max_len as nat).push(':') + flag))),
        ),
    ensures
        r matches Ok(d) && d.name@ == name && d.dir@ == dir && d.max_len == max_len
            && d.padded_model == (flag == "true"@ || flag == "1"@),
{
    let entry: Seq<char> = name.push(':') + (dir.push(':') + (decimal(max_len as nat).push(':') + flag));
    lemma_number_field(max_len as nat);
    lemma_flag_field(flag);
    let e2: Seq<char> = decimal(max_len as nat).push(':') + flag;
    let e1: Seq<char> = dir.push(':') + e2;
    lemma_field(name, e1);
    lemma_field(dir, e2);
    lemma_field(decimal(max_len as nat), flag);
    law_text_without_separator_is_one_piece(flag, ':');
    assert(entry == name.push(':') + e1);
    assert(entry[0] == if name.len() > 0 {
        name[0]
    } else {
        ':'
    });
    assert(entry.last() == flag.last());
    law_trimmed_text_stays(entry);
    assert(pieces(entry, ':') =~= seq![name, dir, decimal(max_len as nat), flag]);
    law_decimal_round_trip(max_len as nat, usize::MAX as nat);
}

/// A sparse encoder's definition that is written down is read back as it was.
pub proof fn law_splade_entry_is_read_back(
    name: Seq<char>,
    dir: Seq<char>,
    max_len: usize,
    r: Result<SpladeModelDef, String>,
)
    requires
        !name.contains(':'),
        !dir.contains(':'),
        name.len() > 0 ==> !is_space(name[0]),
        agrees(r, splade_entry(name.push(':') + (dir.push(':') + decimal(max_len as nat)))),
    ensures
        r matches Ok(d) && d.name@ == name && d.dir@ == dir && d.max_len == max_len,
{
    let entry: Seq<char> = name.push(':') + (dir.push(':') + decimal(max_len as nat));
    lemma_number_field(max_len as nat);
    let e1: Seq<char> = dir.push(':') + decimal(max_len as nat);
    lemma_field(name, e1);
    lemma_field(dir, decimal(max_len as nat));
    law_text_without_separator_is_one_piece(decimal(max_len as nat), ':');
    assert(entry == name.push(':') + e1);
    assert(entry[0] == if name.len() > 0 {
        name[0]
    } else {
        ':'
    });
    assert(entry.last() == decimal(max_len as nat).last());
    law_trimmed_text_stays(entry);
    assert(pieces(entry, ':') =~= seq![name, dir, decimal(max_len as nat)]);
    law_decimal_round_trip(max_len as nat, usize::MAX as nat);
}

/// A number that a variable holds, white space around it aside, is taken; where
/// it holds none, and where a positive one is wanted and it holds zero, the
/// default is.
pub proof fn law_numbers_in_variables(s: Seq<char>, n: usize, default: usize)
    ensures
        number_or(None, default) == default,
        positive_or(None, default) == default,
        trimmed(s) == decimal(n as nat) ==> number_or(Some(s), default) == n,
        trimmed(s) == decimal(n as nat) && n > 0 ==> positive_or(Some(s), default) == n,
        trimmed(s) == decimal(n as nat) && n == 0 ==> positive_or(Some(s), default) == default,
        parsed(trimmed(s), usize::MAX as nat) is Err ==> number_or(Some(s), default) == default,
        parsed(trimmed(s), usize::MAX as nat) is Err ==> positive_or(Some(s), default) == default,
        exact_positive_or(None, default) == default,
        s == decimal(n as nat) && n > 0 ==> exact_positive_or(Some(s), default) == n,
        s == decimal(n as nat) && n == 0 ==> exact_positive_or(Some(s), default) == default,
        parsed(s, usize::MAX as nat) is Err ==> exact_positive_or(Some(s), default) == default,
{
    law_decimal_round_trip(n as nat, usize::MAX as nat);
}

/// A number that a variable holds exactly, up to a limit, is taken; where it
/// holds none, the default is.
pub proof fn law_exact_numbers_in_variables(s: Seq<char>, n: nat, max: nat, default: nat)
    ensures
        exact_or(None, max, default) == default,
        n <= max ==> exact_or(Some(decimal(n)), max, default) == n,
        parsed(s, max) is Err ==> exact_or(Some(s), max, default) == default,
        n <= u64::MAX && trimmed(s) == decimal(n) ==> idle_secs(Some(s)) == n,
        idle_secs(None) == 0,
        parsed(trimmed(s), u64::MAX as nat) is Err ==> idle_secs(Some(s)) == 0,
{
    if n <= max {
        law_decimal_round_trip(n, max);
    }
    if n <= u64::MAX {
        law_decimal_round_trip(n, u64::MAX as nat);
    }
}

/// The words of a strict boolean, and no others.
pub proof fn law_strict_bool(s: Seq<char>)
    ensures
        strict_bool(s) == Some(true) <==> s == "true"@ || s == "1"@,
        strict_bool(s) == Some(false) <==> s == "false"@ || s == "0"@,
        strict_bool(s) is None <==> s != "true"@ && s != "1"@ && s != "false"@ && s != "0"@,
{
    reveal_strlit("true");
    reveal_strlit("false");
    reveal_strlit("1");
    reveal_strlit("0");
    assert("1"@[0] == '1' && "0"@[0] == '0' && "true"@[0] == 't' && "false"@[0] == 'f');
}

/// A model uses memory patterns unless it is told not to; the multi-process mode
/// is off unless it is asked for.
pub proof fn law_flags(raw: Seq<char>)
    ensures
        memory_pattern_of(None),
        memory_pattern_of(Some(raw)) <==> trimmed(raw) != "false"@ && trimmed(raw) != "0"@,
        !multi_process_flag(None),
        multi_process_flag(Some(raw)) <==> raw == "1"@ || same_ignoring_case(raw, "true"@),
{
    law_strict_bool(trimmed(raw));
}

proof fn lemma_no_number_is_max(n: nat)
    ensures
        !same_ignoring_case(decimal(n), "max"@),
{
    law_written_number_is_plain(n);
    law_letter_case(decimal(n), "max"@);
    reveal_strlit("max");
    assert("max"@[0] == 'm');
    assert('0' <= decimal(n)[0] <= '9');
}

/// The warmup lengths: a positive number is the length, `max` in any case of
/// letters is the model's full length, and anything else is the default. A
/// model's own variable goes before the global one, and without either the
/// full length counts.
pub proof fn law_warmup_lengths(
    s: Seq<char>,
    n: usize,
    global: Option<usize>,
    max_len: usize,
)
    ensures
        warmup_seq_len(None) == Some(128usize),
        same_ignoring_case(trimmed(s), "max"@) ==> warmup_seq_len(Some(s)) is None,
        trimmed(s) == decimal(n as nat) ==> warmup_seq_len(Some(s)) == Some(
            if n > 0 {
                n
            } else {
                128
            },
        ),
        model_warmup_seq_len(None, global, max_len) == Some(
            match global {
                Some(g) => g,
                None => max_len,
            },
        ),
        trimmed(s).len() == 0 || same_ignoring_case(trimmed(s), "max"@) ==> model_warmup_seq_len(
            Some(s),
            global,
            max_len,
        ) is None,
        trimmed(s) == decimal(n as nat) && n > 0 ==> model_warmup_seq_len(
            Some(s),
            global,
            max_len,
        ) == Some(n),
        trimmed(s).len() > 0 && !same_ignoring_case(trimmed(s), "max"@) && (parsed(
            trimmed(s),
            usize::MAX as nat,
        ) is Err || trimmed(s) == decimal(0)) ==> model_warmup_seq_len(Some(s), global, max_len)
            == model_warmup_seq_len(None, global, max_len),
        warmup_for_models(None) is None,
        s.len() == 0 ==> warmup_for_models(Some(s)) is None,
        s == decimal(n as nat) && n > 0 ==> warmup_for_models(Some(s)) == Some(n),
{
    law_numbers_in_variables(s, n, 128);
    lemma_no_number_is_max(n as nat);
    law_decimal_round_trip(n as nat, usize::MAX as nat);
    law_decimal_round_trip(0, usize::MAX as nat);
    law_written_number_is_plain(n as nat);
    if s == decimal(n as nat) {
        lemma_number_field(n as nat);
        law_trimmed_text_stays(s);
        law_trimmed_text_stays(trimmed(s));
    }
}

/// The sizes of a list: each positive number once, where it stands first, and
/// nothing of what is no such number. Without any, the defaults count.
pub proof fn law_warmup_sizes_are_read(
    entries: Seq<Seq<char>>,
    entry: Seq<char>,
    n: usize,
    s: Seq<char>,
    defaults: Seq<usize>,
)
    ensures
        sizes_of(Seq::empty()).len() == 0,
        trimmed(entry) == decimal(n as nat) && n > 0 && !sizes_of(entries).contains(n) ==> sizes_of(
            entries.push(entry),
        ) == sizes_of(entries).push(n),
        trimmed(entry) == decimal(n as nat) && (n == 0 || sizes_of(entries).contains(n))
            ==> sizes_of(entries.push(entry)) == sizes_of(entries),
        parsed(trimmed(entry), usize::MAX as nat) is Err ==> sizes_of(entries.push(entry))
            == sizes_of(entries),
        warmup_sizes(None, defaults) == defaults,
        sizes_of(pieces(s, ',')).len() > 0 ==> warmup_sizes(Some(s), defaults) == sizes_of(
            pieces(s, ','),
        ),
        sizes_of(pieces(s, ',')).len() == 0 ==> warmup_sizes(Some(s), defaults) == defaults,
{
    law_decimal_round_trip(n as nat, usize::MAX as nat);
    assert(entries.push(entry).drop_last() =~= entries);
}

/// The number of sessions: a model's own number, else the global one, else one.
pub proof fn law_pool_sizes(
    env: Map<Seq<char>, Seq<char>>,
    model: Seq<char>,
    global: Seq<char>,
    n: usize,
)
    requires
        n > 0,
    ensures
        ({
            let var: Seq<char> = "EMBED_SESSION_POOL_SIZE_"@ + env_key(model);
            &&& pool_size_for(env.insert(var, decimal(n as nat)), model, Some(global)) == n
            &&& trimmed(global) == decimal(n as nat) ==> pool_size_for(
                env.remove(var),
                model,
                Some(global),
            ) == n
            &&& pool_size_for(env.remove(var), model, None) == 1
        }),
{
    lemma_number_field(n as nat);
    law_trimmed_text_stays(decimal(n as nat));
    law_numbers_in_variables(decimal(n as nat), n, 1);
    law_numbers_in_variables(global, n, 1);
}

/// The suffix of a model's variables is its name in upper case, place by place,
/// with an underscore for each dash.
pub proof fn law_env_key_follows_the_name(model: Seq<char>, i: int)
    requires
        0 <= i < uppercase_of(model).len(),
    ensures
        env_key(model).len() == uppercase_of(model).len(),
        uppercase_of(model)[i] == '-' ==> env_key(model)[i] == '_',
        uppercase_of(model)[i] != '-' ==> env_key(model)[i] == uppercase_of(model)[i],
{
}

/// Which file a model is loaded from: the given one where it is a plain file
/// name, and nothing else.
pub proof fn law_model_files_are_plain(name: Seq<char>, raw: Seq<char>)
    ensures
        onnx_file(name, raw) is Ok <==> raw.len() > 0 && !raw.contains('/') && !raw.contains('\\')
            && raw != ".."@,
        onnx_file(name, raw) matches Ok(f) ==> f == raw,
{
}

/// An entry of a list that is no white space and holds no comma is one
/// definition; what cannot be read fails the list with its own message.
pub proof fn law_one_entry_is_one_definition(
    entry: Seq<char>,
    env: Map<Seq<char>, Seq<char>>,
    seq: usize,
    warmup: Option<usize>,
)
    requires
        !entry.contains(','),
        trimmed(entry).len() > 0,
    ensures
        model_entry(entry, env, seq, warmup) matches Ok(d) ==> model_list(entry, env, seq, warmup)
            == Ok::<Seq<ModelDefView>, Seq<char>>(seq![d]),
        model_entry(entry, env, seq, warmup) matches Err(e) ==> model_list(entry, env, seq, warmup)
            == Err::<Seq<ModelDefView>, Seq<char>>(e),
        reranker_entry(entry) matches Ok(d) ==> reranker_list(entry) == Ok::<
            Seq<RerankerModelDefView>,
            Seq<char>,
        >(seq![d]),
        reranker_entry(entry) matches Err(e) ==> reranker_list(entry) == Err::<
            Seq<RerankerModelDefView>,
            Seq<char>,
        >(e),
        splade_entry(entry) matches Ok(d) ==> splade_list(entry) == Ok::<
            Seq<SpladeModelDefView>,
            Seq<char>,
        >(seq![d]),
        splade_entry(entry) matches Err(e) ==> splade_list(entry) == Err::<
            Seq<SpladeModelDefView>,
            Seq<char>,
        >(e),
{
    law_text_without_separator_is_one_piece(entry, ',');
    let one: Seq<Seq<char>> = seq![entry];
    assert(one.drop_last() =~= Seq::<Seq<char>>::empty());
    let m = |e: Seq<char>| model_entry(e, env, seq, warmup);
    let k = |e: Seq<char>| reranker_entry(e);
    let p = |e: Seq<char>| splade_entry(e);
    reveal_with_fuel(entries_of, 2);
    assert(entries_of(one.drop_last(), m) == Ok::<Seq<ModelDefView>, Seq<char>>(Seq::empty()));
    assert(entries_of(one.drop_last(), k) == Ok::<Seq<RerankerModelDefView>, Seq<char>>(
        Seq::empty(),
    ));
    assert(entries_of(one.drop_last(), p) == Ok::<Seq<SpladeModelDefView>, Seq<char>>(
        Seq::empty(),
    ));
    if let Ok(d) = model_entry(entry, env, seq, warmup) {
        assert(Seq::<ModelDefView>::empty().push(d) =~= seq![d]);
    }
    if let Ok(d) = reranker_entry(entry) {
        assert(Seq::<RerankerModelDefView>::empty().push(d) =~= seq![d]);
    }
    if let Ok(d) = splade_entry(entry) {
        assert(Seq::<SpladeModelDefView>::empty().push(d) =~= seq![d]);
    }
}

/// A list that was read holds the definitions that it says, one by one and in
/// order.
pub proof fn law_definitions_are_those_of_the_list(
    r: Result<Vec<ModelDef>, String>,
    s: Result<Seq<ModelDefView>, Seq<char>>,
    i: int,
)
    requires
        all_agree(r, s),
    ensures
        r is Ok <==> s is Ok,
        r matches Ok(v) ==> v@.len() == s->Ok_0.len(),
        r matches Ok(v) ==> (0 <= i < v@.len() ==> {
            let d: ModelDef = v@[i];
            let w: ModelDefView = s->Ok_0[i];
            &&& d.name@ == w.name
            &&& d.dir@ == w.dir
            &&& d.onnx_filename@ == w.onnx_filename
            &&& d.dim == w.dim
            &&& d.max_len == w.max_len
            &&& d.pad_id == w.pad_id
            &&& d.has_token_type_ids == w.has_token_type_ids
            &&& d.batch_max_seq == w.batch_max_seq
            &&& d.warmup_seq_len == w.warmup_seq_len
            &&& d.memory_pattern == w.memory_pattern
        }),
        r matches Err(e) ==> e@ == s->Err_0,
{
    if let Ok(v) = r {
        assert(all_views(v@).len() == v@.len());
        if 0 <= i < v@.len() {
            assert(all_views(v@)[i] == v@[i]@);
        }
    }
}

/// The same for rerankers and sparse encoders.
pub proof fn law_other_definitions_are_those_of_the_list(
    r: Result<Vec<RerankerModelDef>, String>,
    s: Result<Seq<RerankerModelDefView>, Seq<char>>,
    p: Result<Vec<SpladeModelDef>, String>,
    q: Result<Seq<SpladeModelDefView>, Seq<char>>,
    i: int,
)
    requires
        all_agree(r, s),
        all_agree(p, q),
    ensures
        r is Ok <==> s is Ok,
        p is Ok <==> q is Ok,
        r matches Ok(v) ==> v@.len() == s->Ok_0.len() && (0 <= i < v@.len() ==> v@[i].name@
            == s->Ok_0[i].name && v@[i].dir@ == s->Ok_0[i].dir && v@[i].max_len
            == s->Ok_0[i].max_len && v@[i].padded_model == s->Ok_0[i].padded_model),
        p matches Ok(v) ==> v@.len() == q->Ok_0.len() && (0 <= i < v@.len() ==> v@[i].name@
            == q->Ok_0[i].name && v@[i].dir@ == q->Ok_0[i].dir && v@[i].max_len
            == q->Ok_0[i].max_len),
{
    if let Ok(v) = r {
        assert(all_views(v@).len() == v@.len());
        if 0 <= i < v@.len() {
            assert(all_views(v@)[i] == v@[i]@);
        }
    }
    if let Ok(v) = p {
        assert(all_views(v@).len() == v@.len());
        if 0 <= i < v@.len() {
            assert(all_views(v@)[i] == v@[i]@);
        }
    }
}

proof fn lemma_config_numbers(raw: Option<Seq<char>>, n: usize, default: usize)
    requires
        raw is None || raw == Some(decimal(n as nat)),
    ensures
        raw is None ==> number_or(raw, default) == default && positive_or(raw, default) == default
            && exact_positive_or(raw, default) == default,
        raw is None ==> exact_or(raw, usize::MAX as nat, default as nat) == default && exact_or(
            raw,
            u64::MAX as nat,
            default as nat,
        ) == default && idle_secs(raw) == 0,
        raw is Some ==> number_or(raw, default) == n && positive_or(raw, default) == (if n > 0 {
            n
        } else {
            default
        }) && exact_positive_or(raw, default) == (if n > 0 {
            n
        } else {
            default
        }),
        raw is Some ==> exact_or(raw, usize::MAX as nat, default as nat) == n && exact_or(
            raw,
            u64::MAX as nat,
            default as nat,
        ) == n && idle_secs(raw) == n,
{
    lemma_number_field(n as nat);
    law_trimmed_text_stays(decimal(n as nat));
    law_numbers_in_variables(decimal(n as nat), n, default);
    law_exact_numbers_in_variables(decimal(n as nat), n as nat, usize::MAX as nat, default as nat);
    law_exact_numbers_in_variables(decimal(n as nat), n as nat, u64::MAX as nat, default as nat);
}

/// The configuration holds what its variables say: a number that a variable
/// holds is the value of its own setting, and of no other, and a variable that
/// is unset leaves the default.
pub proof fn law_settings_are_those_of_their_variables(
    env: Map<Seq<char>, Seq<char>>,
    n: usize,
    r: Result<Config, String>,
)
    requires
        agrees(r, config_of(env)),
    ensures
        r matches Ok(c) ==> {
            &&& lookup(env, "EMBED_SESSION_POOL_SIZE"@) == Some(decimal(n as nat)) ==> c.embed_pool_size == if n > 0 {
                n
            } else {
                1
            }
            &&& lookup(env, "EMBED_SESSION_POOL_SIZE"@) is None ==> c.embed_pool_size == 1
            &&& lookup(env, "RERANKER_SESSION_POOL_SIZE"@) == Some(decimal(n as nat)) ==> c.reranker_pool_size == if n > 0 {
                n
            } else {
                1
            }
            &&& lookup(env, "RERANKER_SESSION_POOL_SIZE"@) is None ==> c.reranker_pool_size == 1
            &&& lookup(env, "SPLADE_SESSION_POOL_SIZE"@) == Some(decimal(n as nat)) ==> c.splade_pool_size == if n > 0 {
                n
            } else {
                1
            }
            &&& lookup(env, "SPLADE_SESSION_POOL_SIZE"@) is None ==> c.splade_pool_size == 1
            &&& lookup(env, "BATCH_MAX_TOKENS"@) == Some(decimal(n as nat)) ==> c.batch_max_tokens == if n > 0 {
                n
            } else {
                16384
            }
            &&& lookup(env, "BATCH_MAX_TOKENS"@) is None ==> c.batch_max_tokens == 16384
            &&& lookup(env, "BATCH_MAX_SEQ"@) == Some(decimal(n as nat)) ==> c.batch_max_seq == if n > 0 {
                n
            } else {
                256
            }
            &&& lookup(env, "BATCH_MAX_SEQ"@) is None ==> c.batch_max_seq == 256
            &&& lookup(env, "EMBED_MAX_INPUT_ARRAY"@) == Some(decimal(n as nat)) ==> c.embed_max_input_array == if n > 0 {
                n
            } else {
                32
            }
            &&& lookup(env, "EMBED_MAX_INPUT_ARRAY"@) is None ==> c.embed_max_input_array == 32
            &&& lookup(env, "RERANK_MAX_INPUT_DOCS"@) == Some(decimal(n as nat)) ==> c.rerank_max_input_docs == if n > 0 {
                n
            } else {
                32
            }
            &&& lookup(env, "RERANK_MAX_INPUT_DOCS"@) is None ==> c.rerank_max_input_docs == 32
            &&& lookup(env, "RERANKER_INTRA_THREADS"@) == Some(decimal(n as nat)) ==> c.reranker_intra_threads == if n > 0 {
                n
            } else {
                c.intra_threads
            }
            &&& lookup(env, "RERANKER_INTRA_THREADS"@) is None ==> c.reranker_intra_threads == c.intra_threads
            &&& lookup(env, "SPLADE_INTRA_THREADS"@) == Some(decimal(n as nat)) ==> c.splade_intra_threads == if n > 0 {
                n
            } else {
                c.intra_threads
            }
            &&& lookup(env, "SPLADE_INTRA_THREADS"@) is None ==> c.splade_intra_threads == c.intra_threads
            &&& lookup(env, "BATCH_MAX"@) == Some(decimal(n as nat)) ==> c.batch_max == n
            &&& lookup(env, "BATCH_MAX"@) is None ==> c.batch_max == 32
            &&& lookup(env, "BATCH_WAIT_MS"@) == Some(decimal(n as nat)) ==> c.batch_wait_ms == n
            &&& lookup(env, "BATCH_WAIT_MS"@) is None ==> c.batch_wait_ms == 10
            &&& lookup(env, "MAX_QUEUE_SIZE"@) == Some(decimal(n as nat)) ==> c.max_queue_size == n
            &&& lookup(env, "MAX_QUEUE_SIZE"@) is None ==> c.max_queue_size == 256
            &&& lookup(env, "DRAIN_TIMEOUT_S"@) == Some(decimal(n as nat)) ==> c.drain_timeout_s == n
            &&& lookup(env, "DRAIN_TIMEOUT_S"@) is None ==> c.drain_timeout_s == 10
            &&& lookup(env, "CACHE_MAX_ENTRIES"@) == Some(decimal(n as nat)) ==> c.cache_max_entries == n
            &&& lookup(env, "CACHE_MAX_ENTRIES"@) is None ==> c.cache_max_entries == 10_000
            &&& lookup(env, "TOKEN_CACHE_MAX_ENTRIES"@) == Some(decimal(n as nat)) ==> c.token_cache_max_entries == n
            &&& lookup(env, "TOKEN_CACHE_MAX_ENTRIES"@) is None ==> c.token_cache_max_entries == 0
            &&& lookup(env, "EMBED_IDLE_EVICT_SECS"@) == Some(decimal(n as nat)) ==> c.idle_evict_secs == n
            &&& lookup(env, "EMBED_IDLE_EVICT_SECS"@) is None ==> c.idle_evict_secs == 0
            &&& lookup(env, "EMBED_INTRA_THREADS"@) == Some(decimal(n as nat)) ==> c.intra_threads
                == if n > 0 {
                n
            } else {
                2
            }
            &&& lookup(env, "EMBED_INTRA_THREADS"@) is None ==> c.intra_threads == 4
            &&& lookup(env, "RERANKER_BATCH_MAX"@) == Some(decimal(n as nat))
                ==> c.reranker_batch_max == n
            &&& lookup(env, "RERANKER_BATCH_MAX"@) is None && 4 * c.batch_max <= usize::MAX
                ==> c.reranker_batch_max == 4 * c.batch_max
            &&& lookup(env, "RERANKER_BATCH_MAX"@) is None && 4 * c.batch_max > usize::MAX
                ==> c.reranker_batch_max == usize::MAX
            &&& lookup(env, "EMBED_PORT"@) == Some(decimal(n as nat)) ==> c.port == n
            &&& lookup(env, "EMBED_PORT"@) is None ==> c.port == 8082
            &&& lookup(env, "EMBED_WARMUP_SEQ_LEN"@) == Some(decimal(n as nat)) && n > 0
                ==> c.embed_warmup_seq_len == Some(n)
            &&& lookup(env, "EMBED_WARMUP_SEQ_LEN"@) is None ==> c.embed_warmup_seq_len == Some(
                128usize,
            )
        },
{
    if let Ok(c) = r {
        if lookup(env, "EMBED_SESSION_POOL_SIZE"@) is None || lookup(env, "EMBED_SESSION_POOL_SIZE"@) == Some(decimal(n as nat)) {
            lemma_config_numbers(lookup(env, "EMBED_SESSION_POOL_SIZE"@), n, 1);
        }
        if lookup(env, "RERANKER_SESSION_POOL_SIZE"@) is None || lookup(env, "RERANKER_SESSION_POOL_SIZE"@) == Some(decimal(n as nat)) {
            lemma_config_numbers(lookup(env, "RERANKER_SESSION_POOL_SIZE"@), n, 1);
        }
        if lookup(env, "SPLADE_SESSION_POOL_SIZE"@) is None || lookup(env, "SPLADE_SESSION_POOL_SIZE"@) == Some(decimal(n as nat)) {
            lemma_config_numbers(lookup(env, "SPLADE_SESSION_POOL_SIZE"@), n, 1);
        }
        if lookup(env, "BATCH_MAX_TOKENS"@) is None || lookup(env, "BATCH_MAX_TOKENS"@) == Some(decimal(n as nat)) {
            lemma_config_numbers(lookup(env, "BATCH_MAX_TOKENS"@), n, 16384);
        }
        if lookup(env, "BATCH_MAX_SEQ"@) is None || lookup(env, "BATCH_MAX_SEQ"@) == Some(decimal(n as nat)) {
            lemma_config_numbers(lookup(env, "BATCH_MAX_SEQ"@), n, 256);
        }
        if lookup(env, "EMBED_MAX_INPUT_ARRAY"@) is None || lookup(env, "EMBED_MAX_INPUT_ARRAY"@) == Some(decimal(n as nat)) {
            lemma_config_numbers(lookup(env, "EMBED_MAX_INPUT_ARRAY"@), n, 32);
        }
        if lookup(env, "RERANK_MAX_INPUT_DOCS"@) is None || lookup(env, "RERANK_MAX_INPUT_DOCS"@) == Some(decimal(n as nat)) {
            lemma_config_numbers(lookup(env, "RERANK_MAX_INPUT_DOCS"@), n, 32);
        }
        if lookup(env, "RERANKER_INTRA_THREADS"@) is None || lookup(env, "RERANKER_INTRA_THREADS"@) == Some(decimal(n as nat)) {
            lemma_config_numbers(lookup(env, "RERANKER_INTRA_THREADS"@), n, c.intra_threads);
        }
        if lookup(env, "SPLADE_INTRA_THREADS"@) is None || lookup(env, "SPLADE_INTRA_THREADS"@) == Some(decimal(n as nat)) {
            lemma_config_numbers(lookup(env, "SPLADE_INTRA_THREADS"@), n, c.intra_threads);
        }
        if lookup(env, "BATCH_MAX"@) is None || lookup(env, "BATCH_MAX"@) == Some(decimal(n as nat)) {
            lemma_config_numbers(lookup(env, "BATCH_MAX"@), n, 32);
        }
        if lookup(env, "BATCH_WAIT_MS"@) is None || lookup(env, "BATCH_WAIT_MS"@) == Some(decimal(n as nat)) {
            lemma_config_numbers(lookup(env, "BATCH_WAIT_MS"@), n, 10);
        }
        if lookup(env, "MAX_QUEUE_SIZE"@) is None || lookup(env, "MAX_QUEUE_SIZE"@) == Some(decimal(n as nat)) {
            lemma_config_numbers(lookup(env, "MAX_QUEUE_SIZE"@), n, 256);
        }
        if lookup(env, "DRAIN_TIMEOUT_S"@) is None || lookup(env, "DRAIN_TIMEOUT_S"@) == Some(decimal(n as nat)) {
            lemma_config_numbers(lookup(env, "DRAIN_TIMEOUT_S"@), n, 10);
        }
        if lookup(env, "CACHE_MAX_ENTRIES"@) is None || lookup(env, "CACHE_MAX_ENTRIES"@) == Some(decimal(n as nat)) {
            lemma_config_numbers(lookup(env, "CACHE_MAX_ENTRIES"@), n, 10_000);
        }
        if lookup(env, "TOKEN_CACHE_MAX_ENTRIES"@) is None || lookup(env, "TOKEN_CACHE_MAX_ENTRIES"@) == Some(decimal(n as nat)) {
            lemma_config_numbers(lookup(env, "TOKEN_CACHE_MAX_ENTRIES"@), n, 0);
        }
        if lookup(env, "EMBED_IDLE_EVICT_SECS"@) is None || lookup(env, "EMBED_IDLE_EVICT_SECS"@) == Some(decimal(n as nat)) {
            lemma_config_numbers(lookup(env, "EMBED_IDLE_EVICT_SECS"@), n, 0);
        }
        if lookup(env, "RERANKER_BATCH_MAX"@) is None || lookup(env, "RERANKER_BATCH_MAX"@) == Some(decimal(n as nat)) {
            lemma_config_numbers(lookup(env, "RERANKER_BATCH_MAX"@), n, four_times(c.batch_max));
        }
        law_decimal_round_trip(n as nat, usize::MAX as nat);
        law_decimal_round_trip(n as nat, n as nat);
        law_parsed(decimal(n as nat), n as nat);
        law_parsed(decimal(n as nat), u16::MAX as nat);
        lemma_number_field(n as nat);
        law_trimmed_text_stays(decimal(n as nat));
        law_warmup_lengths(decimal(n as nat), n, None, 0);
    }
}

/// The texts and flags of the configuration are those of their variables.
pub proof fn law_texts_and_flags_are_those_of_their_variables(
    env: Map<Seq<char>, Seq<char>>,
    r: Result<Config, String>,
)
    requires
        agrees(r, config_of(env)),
    ensures
        r matches Ok(c) ==> {
            &&& lookup(env, "EMBED_DEFAULT_MODEL"@) matches Some(s) ==> c.default_model@ == s
            &&& c.models@.len() > 0
            &&& lookup(env, "EMBED_DEFAULT_MODEL"@) is None ==> c.default_model@
                == c.models@[0].name@
            &&& exists|i: int|
                0 <= i < c.models@.len() && (#[trigger] c.models@[i]).name@ == c.default_model@
            &&& lookup(env, "EMBED_WORKER_BIN"@) matches Some(s) ==> c.worker_bin_path@ == s
            &&& lookup(env, "EMBED_WORKER_SOCKET_DIR"@) matches Some(s) ==> c.worker_socket_dir@
                == s
            &&& lookup(env, "EMBED_WORKER_BIN"@) is None ==> c.worker_bin_path@
                == "/usr/local/bin/embed-worker"@
            &&& lookup(env, "EMBED_WORKER_SOCKET_DIR"@) is None ==> c.worker_socket_dir@
                == "/tmp/embed-workers"@
            &&& c.auto_truncate <==> !(lookup(env, "AUTO_TRUNCATE"@) matches Some(s)
                && same_ignoring_case(s, "false"@))
            &&& c.batching_enabled <==> (lookup(env, "BATCHING_ENABLED"@) matches Some(s) && (s
                == "1"@ || same_ignoring_case(s, "true"@)))
            &&& c.multi_process <==> (lookup(env, "EMBED_MULTI_PROCESS"@) matches Some(s) && (s
                == "1"@ || same_ignoring_case(s, "true"@)))
            &&& lookup(env, "RERANKER_MODELS"@) is None ==> c.rerankers@.len() == 0
            &&& lookup(env, "SPLADE_MODELS"@) is None ==> c.splades@.len() == 0
            &&& lookup(env, "RERANKER_MODELS"@) matches Some(s) ==> reranker_list(s) == Ok::<
                Seq<RerankerModelDefView>,
                Seq<char>,
            >(all_views(c.rerankers@))
            &&& lookup(env, "SPLADE_MODELS"@) matches Some(s) ==> splade_list(s) == Ok::<
                Seq<SpladeModelDefView>,
                Seq<char>,
            >(all_views(c.splades@))
            &&& lookup(env, "EMBED_MODELS"@) matches Some(s) && model_list(
                s,
                env,
                c.batch_max_seq,
                warmup_for_models(lookup(env, "EMBED_WARMUP_SEQ_LEN"@)),
            ) == Ok::<Seq<ModelDefView>, Seq<char>>(all_views(c.models@))
            &&& c.rerank_warmup_batch_sizes@ == warmup_sizes(
                lookup(env, "RERANK_WARMUP_BATCH_SIZES"@),
                seq![1usize, 5],
            )
            &&& c.embed_warmup_batch_sizes@ == warmup_sizes(
                lookup(env, "EMBED_WARMUP_BATCH_SIZES"@),
                seq![1usize, 8],
            )
            &&& c.splade_warmup_batch_sizes@ == warmup_sizes(
                lookup(env, "SPLADE_WARMUP_BATCH_SIZES"@),
                seq![1usize],
            )
        },
{
    if let Ok(c) = r {
        let views: Seq<ModelDefView> = all_views(c.models@);
        let i: int = choose|i: int|
            0 <= i < views.len() && (#[trigger] views[i]).name == c.default_model@;
        assert(views.len() == c.models@.len());
        assert(views[0] == c.models@[0]@);
        assert(views[i] == c.models@[i]@);
        assert(c.models@[i].name@ == c.default_model@);
        assert(all_views(c.rerankers@).len() == c.rerankers@.len());
        assert(all_views(c.splades@).len() == c.splades@.len());
    }
}

/// A configuration is refused exactly where something of it cannot be read: the
/// port, the threads, a list of models, or a default model that is none of them.
pub proof fn law_configuration_is_refused(env: Map<Seq<char>, Seq<char>>)
    ensures
        config_of(env) is Ok <==> {
            let models = model_list(
                lookup(env, "EMBED_MODELS"@)->0,
                env,
                positive_or(lookup(env, "BATCH_MAX_SEQ"@), 256),
                warmup_for_models(lookup(env, "EMBED_WARMUP_SEQ_LEN"@)),
            );
            &&& lookup(env, "EMBED_PORT"@) matches Some(s) ==> parsed(s, u16::MAX as nat) is Ok
            &&& lookup(env, "EMBED_MODELS"@) is Some
            &&& models is Ok
            &&& models->Ok_0.len() > 0
            &&& lookup(env, "EMBED_DEFAULT_MODEL"@) matches Some(name) ==> exists|i: int|
                0 <= i < models->Ok_0.len() && (#[trigger] models->Ok_0[i]).name == name
            &&& lookup(env, "EMBED_INTRA_THREADS"@) matches Some(s) ==> parsed(
                s,
                usize::MAX as nat,
            ) is Ok
            &&& lookup(env, "RERANKER_MODELS"@) matches Some(s) ==> reranker_list(s) is Ok
            &&& lookup(env, "SPLADE_MODELS"@) matches Some(s) ==> splade_list(s) is Ok
        },
{
    let models = model_list(
        lookup(env, "EMBED_MODELS"@)->0,
        env,
        positive_or(lookup(env, "BATCH_MAX_SEQ"@), 256),
        warmup_for_models(lookup(env, "EMBED_WARMUP_SEQ_LEN"@)),
    );
    if models is Ok && models->Ok_0.len() > 0 {
        assert(models->Ok_0[0].name == models->Ok_0[0].name);
        assert(defines(models->Ok_0, models->Ok_0[0].name));
    }
}

/// A model entry is refused at the first field that cannot be read, with that
/// field and the reason.
pub proof fn law_bad_model_entries_are_told(
    entry: Seq<char>,
    env: Map<Seq<char>, Seq<char>>,
    seq: usize,
    warmup: Option<usize>,
)
    ensures
        ({
            let p: Seq<Seq<char>> = pieces(trimmed(entry), ':');
            let r: Result<ModelDefView, Seq<char>> = model_entry(entry, env, seq, warmup);
            let counted: bool = p.len() == 6 || p.len() == 7;
            let dim: Result<nat, IntError> = parsed(p[2], usize::MAX as nat);
            let len: Result<nat, IntError> = parsed(p[3], usize::MAX as nat);
            let pad: Result<nat, IntError> = parsed(p[4], u32::MAX as nat);
            let tti: bool = p[5] == "true"@ || p[5] == "1"@ || p[5] == "false"@ || p[5] == "0"@;
            let file: Seq<char> = trimmed(p[6]);
            &&& !counted ==> r == Err::<ModelDefView, Seq<char>>(
                "model entry must have 6 or 7 colon-separated fields (name:dir:dim:max_len:pad_id:has_tti[:onnx_filename]), got "@
                    + decimal(p.len()) + ": '"@ + entry + "'"@,
            )
            &&& counted && dim is Err ==> r == Err::<ModelDefView, Seq<char>>(
                "invalid dim"@ + " '"@ + p[2] + "': "@ + dim->Err_0.words(),
            )
            &&& counted && dim is Ok && len is Err ==> r == Err::<ModelDefView, Seq<char>>(
                "invalid max_len"@ + " '"@ + p[3] + "': "@ + len->Err_0.words(),
            )
            &&& counted && dim is Ok && len is Ok && pad is Err ==> r == Err::<
                ModelDefView,
                Seq<char>,
            >("invalid pad_id"@ + " '"@ + p[4] + "': "@ + pad->Err_0.words())
            &&& counted && dim is Ok && len is Ok && pad is Ok && !tti ==> r == Err::<
                ModelDefView,
                Seq<char>,
            >("invalid has_token_type_ids '"@ + p[5] + "'"@)
            &&& counted && dim is Ok && len is Ok && pad is Ok && tti ==> {
                &&& r is Ok <==> p.len() == 6 || file.len() > 0 && !file.contains('/')
                    && !file.contains('\\') && file != ".."@
                &&& p.len() == 7 && file.len() == 0 ==> r == Err::<ModelDefView, Seq<char>>(
                    "model '"@ + p[0]
                        + "': onnx_filename (7th segment) is empty; omit the segment to use the default 'model_quantized.onnx'"@,
                )
                &&& p.len() == 7 && (file.contains('/') || file.contains('\\')) ==> r == Err::<
                    ModelDefView,
                    Seq<char>,
                >(
                    "model '"@ + p[0] + "': onnx_filename '"@ + file
                        + "' must be a plain filename, not a path (no '/' or '\\')"@,
                )
                &&& p.len() == 7 && file == ".."@ && !file.contains('/') && !file.contains('\\')
                    && file.len() > 0 ==> r == Err::<ModelDefView, Seq<char>>(
                    "model '"@ + p[0] + "': onnx_filename '"@ + file
                        + "' contains a path-traversal component"@,
                )
            }
        }),
{
    lemma_strict_bool_spellings(pieces(trimmed(entry), ':')[5]);
    let file: Seq<char> = trimmed(pieces(trimmed(entry), ':')[6]);
    if file.len() == 0 {
        assert(!file.contains('/') && !file.contains('\\'));
    }
}

/// A flag is read from exactly four spellings.
proof fn lemma_strict_bool_spellings(s: Seq<char>)
    ensures
        strict_bool(s) is Some <==> s == "true"@ || s == "1"@ || s == "false"@ || s == "0"@,
{
}

/// An entry of another model is refused at the first field that cannot be read,
/// with that field and the reason.
pub proof fn law_bad_other_entries_are_told(entry: Seq<char>)
    ensures
        ({
            let p: Seq<Seq<char>> = pieces(trimmed(entry), ':');
            let len: Result<nat, IntError> = parsed(p[2], usize::MAX as nat);
            let flag: bool = p[3] == "true"@ || p[3] == "1"@ || p[3] == "false"@ || p[3] == "0"@;
            &&& reranker_entry(entry) is Ok <==> p.len() == 4 && len is Ok && flag
            &&& p.len() != 4 ==> reranker_entry(entry) == Err::<RerankerModelDefView, Seq<char>>(
                "reranker entry must have 4 colon-separated fields (name:dir:max_len:padded), got "@
                    + decimal(p.len()) + ": '"@ + entry + "'"@,
            )
            &&& p.len() == 4 && len is Err ==> reranker_entry(entry) == Err::<
                RerankerModelDefView,
                Seq<char>,
            >("invalid reranker max_len"@ + " '"@ + p[2] + "': "@ + len->Err_0.words())
            &&& p.len() == 4 && len is Ok && !flag ==> reranker_entry(entry) == Err::<
                RerankerModelDefView,
                Seq<char>,
            >("invalid reranker padded '"@ + p[3] + "' (expected true|false|1|0)"@)
            &&& splade_entry(entry) is Ok <==> p.len() == 3 && len is Ok
            &&& p.len() != 3 ==> splade_entry(entry) == Err::<SpladeModelDefView, Seq<char>>(
                "splade entry must have 3 colon-separated fields (name:dir:max_len), got "@
                    + decimal(p.len()) + ": '"@ + entry + "'"@,
            )
            &&& p.len() == 3 && len is Err ==> splade_entry(entry) == Err::<
                SpladeModelDefView,
                Seq<char>,
            >("invalid splade max_len"@ + " '"@ + p[2] + "': "@ + len->Err_0.words())
        }),
{
    lemma_strict_bool_spellings(pieces(trimmed(entry), ':')[3]);
}

/// A configuration that is refused says why: the setting that cannot be read,
/// or what is missing.
pub proof fn law_refused_configurations_are_told(env: Map<Seq<char>, Seq<char>>, s: Seq<char>)
    ensures
        ({
            let port: Option<Seq<char>> = lookup(env, "EMBED_PORT"@);
            let threads: Option<Seq<char>> = lookup(env, "EMBED_INTRA_THREADS"@);
            let r: Result<ConfigView, Seq<char>> = config_of(env);
            let models = model_list(
                lookup(env, "EMBED_MODELS"@)->0,
                env,
                positive_or(lookup(env, "BATCH_MAX_SEQ"@), 256),
                warmup_for_models(lookup(env, "EMBED_WARMUP_SEQ_LEN"@)),
            );
            &&& port matches Some(s) ==> (parsed(s, u16::MAX as nat) matches Err(e) ==> r == Err::<
                ConfigView,
                Seq<char>,
            >("invalid EMBED_PORT: "@ + e.words()))
            &&& port is None && lookup(env, "EMBED_MODELS"@) is None ==> r == Err::<
                ConfigView,
                Seq<char>,
            >("EMBED_MODELS env var is required"@)
            &&& port is None && lookup(env, "EMBED_MODELS"@) is Some ==> {
                &&& models matches Err(e) ==> r == Err::<ConfigView, Seq<char>>(e)
                &&& models matches Ok(v) ==> {
                    &&& v.len() == 0 ==> r == Err::<ConfigView, Seq<char>>(
                        "EMBED_MODELS must define at least one model"@,
                    )
                    &&& v.len() > 0 && lookup(env, "EMBED_DEFAULT_MODEL"@) == Some(s) && (forall|
                        i: int,
                    |
                        0 <= i < v.len() ==> (#[trigger] v[i]).name != s) ==> r == Err::<
                        ConfigView,
                        Seq<char>,
                    >("EMBED_DEFAULT_MODEL '"@ + s + "' not found in models"@)
                    &&& v.len() > 0 && lookup(env, "EMBED_DEFAULT_MODEL"@) is None
                        && threads == Some(s) ==> (parsed(s, usize::MAX as nat) matches Err(e)
                        ==> r == Err::<ConfigView, Seq<char>>(
                        "invalid EMBED_INTRA_THREADS: "@ + e.words(),
                    ))
                }
            }
        }),
{
    let models = model_list(
        lookup(env, "EMBED_MODELS"@)->0,
        env,
        positive_or(lookup(env, "BATCH_MAX_SEQ"@), 256),
        warmup_for_models(lookup(env, "EMBED_WARMUP_SEQ_LEN"@)),
    );
    if models is Ok && models->Ok_0.len() > 0 {
        assert(models->Ok_0[0].name == models->Ok_0[0].name);
        assert(defines(models->Ok_0, models->Ok_0[0].name));
    }
}

} // verus!
