//! An embedding model in memory: its sessions, its tokenizer, and what a pass
//! needs to know of it.
use vstd::prelude::*;
use vstd::string::*;
use tokenizers::Tokenizer;
use crate::config::ModelDef;
use crate::env::EnvVars;
use crate::evictable_pool::{build_evictable_pool, is_filled, EvictablePool};
use crate::metrics::{
    of_model, set_arena_shrink_enabled, Amount, Change, MetricLog, UpdateView,
};
use crate::model::{embed_plan, lacks_file, missing_file, plan_of, EmbedPlan, ModelFiles};
use crate::pass::PassModel;
use crate::soundness::{can_be_asked, is_sound, same_makeup};
use crate::tokenizer::{
    is_tokenized, is_usable, special_tokens_of, tokenize, truncation_of, try_configure_truncation,
    wanted_truncation,
};

verus! {

broadcast use group_string_axioms;

/// Why the options of a run could not be made.
#[derive(Debug)]
pub enum OptionsError {
    /// The runtime gave none.
    Create(String),
    /// The runtime did not take the entry that has the arena shrunk.
    Shrink(String),
}

/// The message where the options of a model's runs could not be made.
pub open spec fn options_error(model: Seq<char>, e: OptionsError) -> Seq<char> {
    match e {
        OptionsError::Create(why) => "model "@ + model
            + ": failed to create RunOptions for arena shrinkage: "@ + why@,
        OptionsError::Shrink(why) => "model "@ + model
            + ": failed to add arena shrinkage config entry: "@ + why@,
    }
}

fn options_failed(model: &str, e: &OptionsError) -> (r: String)
    ensures
        r@ == options_error(model@, *e),
{
    let mut m: String = "model ".to_owned();
    m.append(model);
    match e {
        OptionsError::Create(why) => {
            m.append(": failed to create RunOptions for arena shrinkage: ");
            m.append(why.as_str());
        },
        OptionsError::Shrink(why) => {
            m.append(": failed to add arena shrinkage config entry: ");
            m.append(why.as_str());
        },
    }
    m
}

/// An embedding model in memory.
pub struct EmbedModel<T, O> {
    pub pass: PassModel,
    pub sessions: EvictablePool<T>,
    pub tokenizer: Tokenizer,
    /// The length of a vector.
    pub dim: usize,
    /// How often idle sessions are looked for, in seconds, if at all.
    pub eviction_tick_secs: Option<u64>,
    /// The options of each run where the arena is shrunk after it.
    pub run_options: Option<O>,
}

/// The gauge that says whether a model's arena is shrunk.
pub open spec fn shrink_gauge(model: Seq<char>, shrinks: bool) -> UpdateView {
    of_model(
        "embed_arena_shrink_enabled"@,
        model,
        Change::GaugeSet(
            Amount::Whole(
                if shrinks {
                    1
                } else {
                    0
                },
            ),
        ),
    )
}

impl<T, O> EmbedModel<T, O> {
    /// The tokenizer is set up, and the pool is in order.
    pub open spec fn wf(&self) -> bool {
        self.sessions.wf() && is_usable(self.tokenizer)
    }

    /// The model is made of these parts: the tokenizer cuts as it should and
    /// never pads.
    pub open spec fn is_made_of(
        &self,
        sessions: EvictablePool<T>,
        tokenizer: Tokenizer,
        run_options: Option<O>,
        def: ModelDef,
        plan: EmbedPlan,
        auto_truncate: bool,
    ) -> bool {
        &&& self.wf()
        &&& self.pass.name@ == def.name@
        &&& self.pass.max_len == def.max_len
        &&& self.pass.pad_id == def.pad_id
        &&& self.pass.has_token_type_ids == def.has_token_type_ids
        &&& self.pass.num_heads == plan.num_heads
        &&& self.pass.shrinks_arena == plan.shrinks_arena
        &&& self.sessions == sessions
        &&& truncation_of(self.tokenizer) == wanted_truncation(auto_truncate, def.max_len)
        &&& special_tokens_of(self.tokenizer) == special_tokens_of(tokenizer)
        &&& same_makeup(self.tokenizer, tokenizer)
        &&& self.dim == def.dim
        &&& self.eviction_tick_secs == plan.eviction_tick_secs
        &&& self.run_options == run_options
    }

    /// What a load comes to once sessions and tokenizer are there: nothing
    /// where texts would be cut shorter than their special tokens; else the
    /// model, unless it needs options for its runs and cannot have them.
    pub open spec fn is_finished<N: Fn() -> Result<O, OptionsError>>(
        options: &N,
        sessions: EvictablePool<T>,
        tokenizer: Tokenizer,
        def: ModelDef,
        plan: EmbedPlan,
        auto_truncate: bool,
        r: Option<Result<EmbedModel<T, O>, String>>,
    ) -> bool {
        if auto_truncate && def.max_len < special_tokens_of(tokenizer) {
            r is None
        } else if plan.shrinks_arena {
            exists|o: Result<O, OptionsError>|
                {
                    &&& #[trigger] call_ensures(options, (), o)
                    &&& match o {
                        Ok(x) => r matches Some(Ok(m)) && m.is_made_of(
                            sessions,
                            tokenizer,
                            Some(x),
                            def,
                            plan,
                            auto_truncate,
                        ),
                        Err(e) => r matches Some(Err(m)) && m@ == options_error(def.name@, e),
                    }
                }
        } else {
            r matches Some(Ok(m)) && m.is_made_of(
                sessions,
                tokenizer,
                None,
                def,
                plan,
                auto_truncate,
            )
        }
    }

    /// What a load comes to once the sessions are there.
    pub open spec fn is_continued<
        K: Fn() -> Result<Tokenizer, String>,
        N: Fn() -> Result<O, OptionsError>,
    >(
        read_tokenizer: &K,
        options: &N,
        sessions: EvictablePool<T>,
        def: ModelDef,
        plan: EmbedPlan,
        auto_truncate: bool,
        r: Option<Result<EmbedModel<T, O>, String>>,
    ) -> bool {
        exists|t: Result<Tokenizer, String>|
            {
                &&& #[trigger] call_ensures(read_tokenizer, (), t)
                &&& match t {
                    Ok(k) => EmbedModel::is_finished(
                        options,
                        sessions,
                        k,
                        def,
                        plan,
                        auto_truncate,
                        r,
                    ),
                    Err(e) => r matches Some(Err(m)) && m@ == "load tokenizer: "@ + e@,
                }
            }
    }

    /// Loads a model: its sessions first, then its tokenizer, then the options
    /// of its runs. The first failure ends it. `None` where texts are to be cut
    /// shorter than their special tokens.
    pub fn load<
        F: Fn() -> Result<T, String>,
        K: Fn() -> Result<Tokenizer, String>,
        N: Fn() -> Result<O, OptionsError>,
    >(
        def: &ModelDef,
        files: &ModelFiles,
        auto_truncate: bool,
        pool_size: usize,
        idle_evict_secs: u64,
        env: &EnvVars,
        factory: &F,
        read_tokenizer: &K,
        options: &N,
        now: u64,
        log: &mut MetricLog,
    ) -> (r: Option<Result<EmbedModel<T, O>, String>>)
        requires
            call_requires(factory, ()),
            call_requires(read_tokenizer, ()),
            call_requires(options, ()),
        ensures
            ({
                let plan: EmbedPlan = plan_of(
                    def.name@,
                    def.memory_pattern,
                    pool_size,
                    idle_evict_secs,
                    env@,
                );
                match lacks_file(*files) {
                    Some(s) => r matches Some(Err(m)) && m@ == s,
                    None => exists|p: Result<EvictablePool<T>, String>|
                        {
                            &&& #[trigger] is_filled(
                                def.name@,
                                plan.pool_size,
                                idle_evict_secs,
                                factory,
                                now,
                                p,
                            )
                            &&& match p {
                                Ok(sessions) => EmbedModel::is_continued(
                                    read_tokenizer,
                                    options,
                                    sessions,
                                    *def,
                                    plan,
                                    auto_truncate,
                                    r,
                                ),
                                Err(e) => r == Some(Err::<EmbedModel<T, O>, String>(e)),
                            }
                        },
                }
            }),
            final(log)@ == match r {
                Some(Ok(m)) => old(log)@.push(shrink_gauge(def.name@, m.pass.shrinks_arena)),
                _ => old(log)@,
            },
    {
        let plan: EmbedPlan = embed_plan(def, pool_size, idle_evict_secs, env);
        if let Some(m) = missing_file(files) {
            return Some(Err(m));
        }
        let filled: Result<EvictablePool<T>, String> = build_evictable_pool(
            def.name.as_str(),
            plan.pool_size,
            idle_evict_secs,
            factory,
            now,
        );
        assert(is_filled(def.name@, plan.pool_size, idle_evict_secs, factory, now, filled));
        let sessions: EvictablePool<T> = match filled {
            Ok(p) => p,
            Err(e) => {
                return Some(Err(e));
            },
        };
        let mut tokenizer: Tokenizer = match read_tokenizer() {
            Ok(k) => k,
            Err(e) => {
                let mut m: String = "load tokenizer: ".to_owned();
                m.append(e.as_str());
                return Some(Err(m));
            },
        };
        match try_configure_truncation(&mut tokenizer, auto_truncate, def.max_len) {
            None => {
                return None;
            },
            Some(Err(e)) => {
                return Some(Err(e));
            },
            Some(Ok(_)) => {},
        }
        let run_options: Option<O> = if plan.shrinks_arena {
            match options() {
                Ok(o) => Some(o),
                Err(e) => {
                    return Some(Err(options_failed(def.name.as_str(), &e)));
                },
            }
        } else {
            None
        };
        set_arena_shrink_enabled(log, def.name.as_str(), plan.shrinks_arena);
        Some(
            Ok(
                EmbedModel {
                    pass: PassModel {
                        name: def.name.clone(),
                        max_len: def.max_len,
                        pad_id: def.pad_id,
                        has_token_type_ids: def.has_token_type_ids,
                        num_heads: plan.num_heads,
                        shrinks_arena: plan.shrinks_arena,
                    },
                    sessions,
                    tokenizer,
                    dim: def.dim,
                    eviction_tick_secs: plan.eviction_tick_secs,
                    run_options,
                },
            ),
        )
    }

    /// The number of sessions that the model was loaded with; some may have
    /// been given up since.
    pub fn session_count(&self) -> (r: usize)
        ensures
            r == self.sessions.slots().len(),
    {
        self.sessions.len()
    }

    /// The model's name.
    pub fn name(&self) -> (r: &str)
        ensures
            r@ == self.pass.name@,
    {
        self.pass.name.as_str()
    }

    /// The token sequences of some texts, none longer than the model takes;
    /// also returns how many had to be cut behind the tokenizer's back.
    pub fn tokenize(&self, texts: &Vec<String>) -> (r: Result<(Vec<Vec<u32>>, usize), String>)
        requires
            self.wf(),
            is_sound(self.tokenizer),
        ensures
            is_tokenized(self.tokenizer, texts@, self.pass.max_len, r),
    {
        tokenize(&self.tokenizer, texts, self.pass.max_len)
    }

    /// The same for any tokenizer: `None` where it cannot be asked.
    pub fn try_tokenize(&self, texts: &Vec<String>) -> (r: Option<
        Result<(Vec<Vec<u32>>, usize), String>,
    >)
        requires
            self.wf(),
        ensures
            match r {
                Some(done) => is_sound(self.tokenizer) && is_tokenized(
                    self.tokenizer,
                    texts@,
                    self.pass.max_len,
                    done,
                ),
                None => !is_sound(self.tokenizer),
            },
    {
        if can_be_asked(&self.tokenizer) {
            Some(self.tokenize(texts))
        } else {
            None
        }
    }
}

/// A model that was loaded is that of its definition and its plan, field by
/// field.
pub proof fn law_model_is_that_of_its_definition<T, O>(
    m: EmbedModel<T, O>,
    sessions: EvictablePool<T>,
    tokenizer: Tokenizer,
    run_options: Option<O>,
    def: ModelDef,
    plan: EmbedPlan,
    auto_truncate: bool,
)
    requires
        m.is_made_of(sessions, tokenizer, run_options, def, plan, auto_truncate),
    ensures
        m.pass.name@ == def.name@,
        m.pass.max_len == def.max_len,
        m.pass.pad_id == def.pad_id,
        m.pass.has_token_type_ids == def.has_token_type_ids,
        m.dim == def.dim,
        m.pass.num_heads == plan.num_heads,
        m.pass.shrinks_arena == plan.shrinks_arena,
        m.eviction_tick_secs == plan.eviction_tick_secs,
        m.run_options == run_options,
        m.sessions == sessions,
        auto_truncate ==> (truncation_of(m.tokenizer) matches Some(c) && c.max_length
            == def.max_len && c.stride == 0),
        !auto_truncate ==> truncation_of(m.tokenizer) is None,
{
}

/// A model that shrinks its arena was given the options for it, and only such a
/// model was; texts are never cut shorter than their special tokens.
pub proof fn law_options_come_with_shrinking<T, O, N: Fn() -> Result<O, OptionsError>>(
    options: &N,
    sessions: EvictablePool<T>,
    tokenizer: Tokenizer,
    def: ModelDef,
    plan: EmbedPlan,
    auto_truncate: bool,
    r: Option<Result<EmbedModel<T, O>, String>>,
)
    requires
        EmbedModel::is_finished(options, sessions, tokenizer, def, plan, auto_truncate, r),
    ensures
        r is None <==> auto_truncate && def.max_len < special_tokens_of(tokenizer),
        r matches Some(Ok(m)) ==> (m.run_options is Some <==> plan.shrinks_arena),
        r matches Some(Ok(m)) ==> (m.run_options matches Some(x) ==> call_ensures(
            options,
            (),
            Ok::<O, OptionsError>(x),
        )),
        r matches Some(Err(_)) ==> plan.shrinks_arena,
{
}

/// Options that cannot be made are told with the model and the reason, and the
/// gauge shows whether a model shrinks its arena.
pub proof fn law_options_errors(model: Seq<char>, why: String)
    ensures
        options_error(model, OptionsError::Create(why)) == "model "@ + model
            + ": failed to create RunOptions for arena shrinkage: "@ + why@,
        options_error(model, OptionsError::Shrink(why)) == "model "@ + model
            + ": failed to add arena shrinkage config entry: "@ + why@,
        shrink_gauge(model, true).name == "embed_arena_shrink_enabled"@,
        shrink_gauge(model, true).labels == seq![("model"@, model)],
        shrink_gauge(model, true).change == Change::GaugeSet(Amount::Whole(1)),
        shrink_gauge(model, false).name == "embed_arena_shrink_enabled"@,
        shrink_gauge(model, false).labels == seq![("model"@, model)],
        shrink_gauge(model, false).change == Change::GaugeSet(Amount::Whole(0)),
{
}

/// A model is in order exactly where its pool is, and its tokenizer can be used.
pub proof fn law_models_in_order<T, O>(m: EmbedModel<T, O>)
    ensures
        m.wf() <==> m.sessions.wf() && is_usable(m.tokenizer),
{
}

/// A load that failed behind the sessions is told by what failed: the tokenizer
/// that could not be read, or the options that could not be made.
pub proof fn law_failed_loads_are_told<
    T,
    O,
    K: Fn() -> Result<Tokenizer, String>,
    N: Fn() -> Result<O, OptionsError>,
>(
    read_tokenizer: &K,
    options: &N,
    sessions: EvictablePool<T>,
    def: ModelDef,
    plan: EmbedPlan,
    auto_truncate: bool,
    m: String,
) -> (why: (String, OptionsError))
    requires
        EmbedModel::is_continued(
            read_tokenizer,
            options,
            sessions,
            def,
            plan,
            auto_truncate,
            Some(Err::<EmbedModel<T, O>, String>(m)),
        ),
    ensures
        (call_ensures(read_tokenizer, (), Err::<Tokenizer, String>(why.0)) && m@
            == "load tokenizer: "@ + why.0@) || (call_ensures(
            options,
            (),
            Err::<O, OptionsError>(why.1),
        ) && m@ == options_error(def.name@, why.1)),
{
    let r: Option<Result<EmbedModel<T, O>, String>> = Some(Err(m));
    let t: Result<Tokenizer, String> = choose|t: Result<Tokenizer, String>|
        {
            &&& #[trigger] call_ensures(read_tokenizer, (), t)
            &&& match t {
                Ok(k) => EmbedModel::is_finished(
                    options,
                    sessions,
                    k,
                    def,
                    plan,
                    auto_truncate,
                    r,
                ),
                Err(e) => r matches Some(Err(m)) && m@ == "load tokenizer: "@ + e@,
            }
        };
    match t {
        Err(e) => (e, OptionsError::Create(e)),
        Ok(k) => {
            let o: Result<O, OptionsError> = choose|o: Result<O, OptionsError>|
                {
                    &&& #[trigger] call_ensures(options, (), o)
                    &&& match o {
                        Ok(x) => r matches Some(Ok(m)) && m.is_made_of(
                            sessions,
                            k,
                            Some(x),
                            def,
                            plan,
                            auto_truncate,
                        ),
                        Err(e) => r matches Some(Err(m)) && m@ == options_error(def.name@, e),
                    }
                };
            (m, o->Err_0)
        },
    }
}

} // verus!
