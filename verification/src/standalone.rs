//! The one model that a worker process serves.
use vstd::prelude::*;
use vstd::string::*;
use crate::config::{Config, ModelDef, RerankerModelDef, SpladeModelDef};
use crate::text::same;

verus! {

broadcast use group_string_axioms;

/// The first definition of that name stands at `i`.
pub open spec fn is_first_named(names: Seq<Seq<char>>, name: Seq<char>, i: int) -> bool {
    0 <= i < names.len() && names[i] == name && forall|j: int|
        0 <= j < i ==> #[trigger] names[j] != name
}

/// The names of the embedding models.
pub open spec fn embedder_names(cfg: &Config) -> Seq<Seq<char>> {
    cfg.models@.map_values(|d: ModelDef| d.name@)
}

/// The names of the rerankers.
pub open spec fn reranker_names(cfg: &Config) -> Seq<Seq<char>> {
    cfg.rerankers@.map_values(|d: RerankerModelDef| d.name@)
}

/// The names of the sparse encoders.
pub open spec fn splade_names(cfg: &Config) -> Seq<Seq<char>> {
    cfg.splades@.map_values(|d: SpladeModelDef| d.name@)
}

fn not_found(kind: &str, name: &str, variable: &str) -> (r: String)
    ensures
        r@ == kind@ + name@ + " not found in "@ + variable@,
{
    let mut m: String = kind.to_owned();
    m.append(name);
    m.append(" not found in ");
    m.append(variable);
    m
}

/// An embedding model of its own.
#[derive(Debug)]
pub struct StandaloneEmbedder<M> {
    pub inner: M,
    /// The length of a vector.
    pub dims: u32,
}

impl<M> StandaloneEmbedder<M> {
    /// Loads the model of that name: `load_model` is given its definition, the
    /// threads of a session, whether overlong texts are cut, the number of
    /// sessions, and the seconds after which an idle one is given up. Texts are
    /// cut as the configuration says, and a worker gives up none.
    pub fn load<F: Fn(&ModelDef, usize, bool, usize, u64) -> Result<M, String>>(
        model_name: &str,
        cfg: &Config,
        intra_threads: usize,
        pool_size: usize,
        load_model: &F,
    ) -> (r: Result<StandaloneEmbedder<M>, String>)
        requires
            forall|def: &ModelDef, n: usize, cut: bool, k: usize, idle: u64|
                call_requires(load_model, (def, n, cut, k, idle)),
        ensures
            !embedder_names(cfg).contains(model_name@) ==> (r matches Err(e) && e@ == "model "@
                + model_name@ + " not found in EMBED_MODELS"@),
            forall|i: int| #[trigger]
                is_first_named(embedder_names(cfg), model_name@, i) ==> match r {
                    Ok(model) => call_ensures(
                        load_model,
                        (&cfg.models@[i], intra_threads, cfg.auto_truncate, pool_size, 0u64),
                        Ok::<M, String>(model.inner),
                    ) && model.dims == cfg.models@[i].dim as u32,
                    Err(e) => call_ensures(
                        load_model,
                        (&cfg.models@[i], intra_threads, cfg.auto_truncate, pool_size, 0u64),
                        Err::<M, String>(e),
                    ),
                },
    {
        let ghost names: Seq<Seq<char>> = embedder_names(cfg);
        let mut i: usize = 0;
        while i < cfg.models.len()
            invariant
                i <= cfg.models.len(),
                names == embedder_names(cfg),
                forall|def: &ModelDef, n: usize, cut: bool, k: usize, idle: u64|
                    call_requires(load_model, (def, n, cut, k, idle)),
                forall|j: int| 0 <= j < i ==> #[trigger] names[j] != model_name@,
            decreases cfg.models.len() - i,
        {
            let def: &ModelDef = &cfg.models[i];
            assert(names[i as int] == def.name@);
            if same(def.name.as_str(), model_name) {
                proof {
                    assert(names.contains(model_name@));
                    assert forall|k: int| #[trigger]
                        is_first_named(names, model_name@, k) implies k == i by {
                        if k < i {
                            assert(names[k] != model_name@);
                        }
                        if i < k {
                            assert(names[i as int] != model_name@);
                        }
                    }
                }
                return match load_model(def, intra_threads, cfg.auto_truncate, pool_size, 0) {
                    Ok(inner) => Ok(StandaloneEmbedder { inner, dims: def.dim as u32 }),
                    Err(e) => Err(e),
                };
            }
            i = i + 1;
        }
        assert forall|j: int| 0 <= j < names.len() implies names[j] != model_name@ by {}
        let m: String = not_found("model ", model_name, "EMBED_MODELS");
        proof {
            reveal_strlit(" not found in ");
            reveal_strlit("EMBED_MODELS");
            reveal_strlit(" not found in EMBED_MODELS");
            assert(" not found in "@ + "EMBED_MODELS"@ =~= " not found in EMBED_MODELS"@);
            assert(m@ =~= "model "@ + model_name@ + " not found in EMBED_MODELS"@);
        }
        Err(m)
    }

    /// The vectors of some texts, and their length: the texts are turned into
    /// tokens, and these into vectors. The wanted length of a sequence is not
    /// looked at; the tokenizer's settings decide.
    pub fn infer<
        V,
        K: Fn(&M, &Vec<String>) -> Result<Vec<Vec<u32>>, String>,
        E: Fn(&M, &Vec<Vec<u32>>) -> Result<Vec<V>, String>,
    >(&self, texts: &Vec<String>, _max_seq_len: u32, tokenize: &K, embed_tokens: &E) -> (r: Result<
        (Vec<V>, u32),
        String,
    >)
        requires
            forall|m: &M, t: &Vec<String>| call_requires(tokenize, (m, t)),
            forall|m: &M, ids: &Vec<Vec<u32>>| call_requires(embed_tokens, (m, ids)),
        ensures
            exists|ids: Result<Vec<Vec<u32>>, String>|
                {
                    &&& #[trigger] call_ensures(tokenize, (&self.inner, texts), ids)
                    &&& match ids {
                        Err(e) => r == Err::<(Vec<V>, u32), String>(e),
                        Ok(ids) => match r {
                            Ok(out) => out.1 == self.dims && call_ensures(
                                embed_tokens,
                                (&self.inner, &ids),
                                Ok::<Vec<V>, String>(out.0),
                            ),
                            Err(e) => call_ensures(
                                embed_tokens,
                                (&self.inner, &ids),
                                Err::<Vec<V>, String>(e),
                            ),
                        },
                    }
                },
    {
        match tokenize(&self.inner, texts) {
            Err(e) => Err(e),
            Ok(ids) => match embed_tokens(&self.inner, &ids) {
                Ok(vectors) => Ok((vectors, self.dims)),
                Err(e) => Err(e),
            },
        }
    }
}

/// A reranker of its own.
#[derive(Debug)]
pub struct StandaloneReranker<M> {
    pub inner: M,
}

impl<M> StandaloneReranker<M> {
    /// Loads the reranker of that name: `load_model` is given its definition,
    /// the threads of a session and the number of sessions.
    pub fn load<F: Fn(&RerankerModelDef, usize, usize) -> Result<M, String>>(
        model_name: &str,
        cfg: &Config,
        intra_threads: usize,
        pool_size: usize,
        load_model: &F,
    ) -> (r: Result<StandaloneReranker<M>, String>)
        requires
            forall|def: &RerankerModelDef, n: usize, k: usize|
                call_requires(load_model, (def, n, k)),
        ensures
            !reranker_names(cfg).contains(model_name@) ==> (r matches Err(e) && e@ == "reranker "@
                + model_name@ + " not found in RERANKER_MODELS"@),
            forall|i: int| #[trigger]
                is_first_named(reranker_names(cfg), model_name@, i) ==> match r {
                    Ok(model) => call_ensures(
                        load_model,
                        (&cfg.rerankers@[i], intra_threads, pool_size),
                        Ok::<M, String>(model.inner),
                    ),
                    Err(e) => call_ensures(
                        load_model,
                        (&cfg.rerankers@[i], intra_threads, pool_size),
                        Err::<M, String>(e),
                    ),
                },
    {
        let ghost names: Seq<Seq<char>> = reranker_names(cfg);
        let mut i: usize = 0;
        while i < cfg.rerankers.len()
            invariant
                i <= cfg.rerankers.len(),
                names == reranker_names(cfg),
                forall|def: &RerankerModelDef, n: usize, k: usize|
                    call_requires(load_model, (def, n, k)),
                forall|j: int| 0 <= j < i ==> #[trigger] names[j] != model_name@,
            decreases cfg.rerankers.len() - i,
        {
            let def: &RerankerModelDef = &cfg.rerankers[i];
            assert(names[i as int] == def.name@);
            if same(def.name.as_str(), model_name) {
                proof {
                    assert(names.contains(model_name@));
                    assert forall|k: int| #[trigger]
                        is_first_named(names, model_name@, k) implies k == i by {
                        if k < i {
                            assert(names[k] != model_name@);
                        }
                        if i < k {
                            assert(names[i as int] != model_name@);
                        }
                    }
                }
                return match load_model(def, intra_threads, pool_size) {
                    Ok(inner) => Ok(StandaloneReranker { inner }),
                    Err(e) => Err(e),
                };
            }
            i = i + 1;
        }
        assert forall|j: int| 0 <= j < names.len() implies names[j] != model_name@ by {}
        let m: String = not_found("reranker ", model_name, "RERANKER_MODELS");
        proof {
            reveal_strlit(" not found in ");
            reveal_strlit("RERANKER_MODELS");
            reveal_strlit(" not found in RERANKER_MODELS");
            assert(" not found in "@ + "RERANKER_MODELS"@ =~= " not found in RERANKER_MODELS"@);
            assert(m@ =~= "reranker "@ + model_name@ + " not found in RERANKER_MODELS"@);
        }
        Err(m)
    }

    /// The scores of some documents for a query: the pairs are turned into
    /// tokens, and these are scored. The wanted length of a sequence is not
    /// looked at.
    pub fn score<
        V,
        K: Fn(&M, &String, &Vec<String>) -> Result<Vec<Vec<u32>>, String>,
        E: Fn(&M, &Vec<Vec<u32>>) -> Result<Vec<V>, String>,
    >(
        &self,
        query: &String,
        documents: &Vec<String>,
        _max_seq_len: u32,
        tokenize_pairs: &K,
        score_pairs: &E,
    ) -> (r: Result<Vec<V>, String>)
        requires
            forall|m: &M, q: &String, d: &Vec<String>| call_requires(tokenize_pairs, (m, q, d)),
            forall|m: &M, ids: &Vec<Vec<u32>>| call_requires(score_pairs, (m, ids)),
        ensures
            exists|ids: Result<Vec<Vec<u32>>, String>|
                {
                    &&& #[trigger] call_ensures(
                        tokenize_pairs,
                        (&self.inner, query, documents),
                        ids,
                    )
                    &&& match ids {
                        Err(e) => r == Err::<Vec<V>, String>(e),
                        Ok(ids) => call_ensures(score_pairs, (&self.inner, &ids), r),
                    }
                },
    {
        match tokenize_pairs(&self.inner, query, documents) {
            Err(e) => Err(e),
            Ok(ids) => score_pairs(&self.inner, &ids),
        }
    }
}

/// A sparse encoder of its own.
#[derive(Debug)]
pub struct StandaloneSplade<M> {
    pub inner: M,
}

impl<M> StandaloneSplade<M> {
    /// Loads the sparse encoder of that name: `load_model` is given its
    /// definition, the threads of a session and the number of sessions.
    pub fn load<F: Fn(&SpladeModelDef, usize, usize) -> Result<M, String>>(
        model_name: &str,
        cfg: &Config,
        intra_threads: usize,
        pool_size: usize,
        load_model: &F,
    ) -> (r: Result<StandaloneSplade<M>, String>)
        requires
            forall|def: &SpladeModelDef, n: usize, k: usize|
                call_requires(load_model, (def, n, k)),
        ensures
            !splade_names(cfg).contains(model_name@) ==> (r matches Err(e) && e@ == "splade "@
                + model_name@ + " not found in SPLADE_MODELS"@),
            forall|i: int| #[trigger]
                is_first_named(splade_names(cfg), model_name@, i) ==> match r {
                    Ok(model) => call_ensures(
                        load_model,
                        (&cfg.splades@[i], intra_threads, pool_size),
                        Ok::<M, String>(model.inner),
                    ),
                    Err(e) => call_ensures(
                        load_model,
                        (&cfg.splades@[i], intra_threads, pool_size),
                        Err::<M, String>(e),
                    ),
                },
    {
        let ghost names: Seq<Seq<char>> = splade_names(cfg);
        let mut i: usize = 0;
        while i < cfg.splades.len()
            invariant
                i <= cfg.splades.len(),
                names == splade_names(cfg),
                forall|def: &SpladeModelDef, n: usize, k: usize|
                    call_requires(load_model, (def, n, k)),
                forall|j: int| 0 <= j < i ==> #[trigger] names[j] != model_name@,
            decreases cfg.splades.len() - i,
        {
            let def: &SpladeModelDef = &cfg.splades[i];
            assert(names[i as int] == def.name@);
            if same(def.name.as_str(), model_name) {
                proof {
                    assert(names.contains(model_name@));
                    assert forall|k: int| #[trigger]
                        is_first_named(names, model_name@, k) implies k == i by {
                        if k < i {
                            assert(names[k] != model_name@);
                        }
                        if i < k {
                            assert(names[i as int] != model_name@);
                        }
                    }
                }
                return match load_model(def, intra_threads, pool_size) {
                    Ok(inner) => Ok(StandaloneSplade { inner }),
                    Err(e) => Err(e),
                };
            }
            i = i + 1;
        }
        assert forall|j: int| 0 <= j < names.len() implies names[j] != model_name@ by {}
        let m: String = not_found("splade ", model_name, "SPLADE_MODELS");
        proof {
            reveal_strlit(" not found in ");
            reveal_strlit("SPLADE_MODELS");
            reveal_strlit(" not found in SPLADE_MODELS");
            assert(" not found in "@ + "SPLADE_MODELS"@ =~= " not found in SPLADE_MODELS"@);
            assert(m@ =~= "splade "@ + model_name@ + " not found in SPLADE_MODELS"@);
        }
        Err(m)
    }

    /// What becomes of one text: its tokens are encoded, or one of the two
    /// steps fails.
    pub open spec fn is_encoded<
        V,
        K: Fn(&M, &String) -> Result<Vec<u32>, String>,
        E: Fn(&M, &Vec<u32>, usize, u32) -> Result<V, String>,
    >(
        &self,
        text: String,
        top_k: usize,
        min_weight: u32,
        tokenize: &K,
        encode_sparse: &E,
        r: Result<V, String>,
    ) -> bool {
        exists|ids: Result<Vec<u32>, String>|
            {
                &&& #[trigger] call_ensures(tokenize, (&self.inner, &text), ids)
                &&& match ids {
                    Err(e) => r == Err::<V, String>(e),
                    Ok(ids) => call_ensures(
                        encode_sparse,
                        (&self.inner, &ids, top_k, min_weight),
                        r,
                    ),
                }
            }
    }

    /// A text gets its sparse vector.
    pub open spec fn succeeds<
        V,
        K: Fn(&M, &String) -> Result<Vec<u32>, String>,
        E: Fn(&M, &Vec<u32>, usize, u32) -> Result<V, String>,
    >(
        &self,
        text: String,
        top_k: usize,
        min_weight: u32,
        tokenize: &K,
        encode_sparse: &E,
    ) -> bool {
        exists|v: V|
            #[trigger] self.is_encoded(text, top_k, min_weight, tokenize, encode_sparse, Ok(v))
    }

    /// The text at `i` fails, and those before it do not.
    pub open spec fn fails_first<
        V,
        K: Fn(&M, &String) -> Result<Vec<u32>, String>,
        E: Fn(&M, &Vec<u32>, usize, u32) -> Result<V, String>,
    >(
        &self,
        texts: Seq<String>,
        i: int,
        top_k: usize,
        min_weight: u32,
        tokenize: &K,
        encode_sparse: &E,
        e: String,
    ) -> bool {
        &&& 0 <= i < texts.len()
        &&& self.is_encoded(
            texts[i],
            top_k,
            min_weight,
            tokenize,
            encode_sparse,
            Err::<V, String>(e),
        )
        &&& forall|j: int|
            0 <= j < i ==> self.succeeds::<V, K, E>(
                #[trigger] texts[j],
                top_k,
                min_weight,
                tokenize,
                encode_sparse,
            )
    }

    /// The sparse vectors of some texts, one after the other; the first failure
    /// ends it. The wanted length of a sequence is not looked at.
    pub fn encode<
        V,
        K: Fn(&M, &String) -> Result<Vec<u32>, String>,
        E: Fn(&M, &Vec<u32>, usize, u32) -> Result<V, String>,
    >(
        &self,
        texts: &Vec<String>,
        _max_seq_len: u32,
        top_k: u32,
        min_weight: u32,
        tokenize: &K,
        encode_sparse: &E,
    ) -> (r: Result<Vec<V>, String>)
        requires
            forall|m: &M, t: &String| call_requires(tokenize, (m, t)),
            forall|m: &M, ids: &Vec<u32>, k: usize, w: u32|
                call_requires(encode_sparse, (m, ids, k, w)),
        ensures
            r matches Ok(out) ==> out@.len() == texts@.len() && forall|i: int|
                0 <= i < texts@.len() ==> self.is_encoded(
                    #[trigger] texts@[i],
                    kept_entries(top_k),
                    min_weight,
                    tokenize,
                    encode_sparse,
                    Ok(out@[i]),
                ),
            r matches Err(e) ==> exists|i: int| #[trigger]
                self.fails_first::<V, K, E>(
                    texts@,
                    i,
                    kept_entries(top_k),
                    min_weight,
                    tokenize,
                    encode_sparse,
                    e,
                ),
    {
        let k: usize = effective_top_k(top_k);
        let mut results: Vec<V> = Vec::new();
        let mut i: usize = 0;
        while i < texts.len()
            invariant
                i <= texts.len(),
                results@.len() == i,
                k == kept_entries(top_k),
                forall|m: &M, t: &String| call_requires(tokenize, (m, t)),
                forall|m: &M, ids: &Vec<u32>, k: usize, w: u32|
                    call_requires(encode_sparse, (m, ids, k, w)),
                forall|j: int|
                    0 <= j < i ==> self.is_encoded(
                        #[trigger] texts@[j],
                        k,
                        min_weight,
                        tokenize,
                        encode_sparse,
                        Ok(results@[j]),
                    ),
            decreases texts.len() - i,
        {
            let done: Result<V, String> = match tokenize(&self.inner, &texts[i]) {
                Ok(ids) => encode_sparse(&self.inner, &ids, k, min_weight),
                Err(e) => Err(e),
            };
            assert(self.is_encoded(
                texts@[i as int],
                k,
                min_weight,
                tokenize,
                encode_sparse,
                done,
            ));
            match done {
                Ok(sparse) => {
                    results.push(sparse);
                },
                Err(e) => {
                    let r: Result<Vec<V>, String> = Err(e);
                    assert(self.fails_first::<V, K, E>(
                        texts@,
                        i as int,
                        kept_entries(top_k),
                        min_weight,
                        tokenize,
                        encode_sparse,
                        r->Err_0,
                    ));
                    return r;
                },
            }
            i = i + 1;
        }
        Ok(results)
    }
}

/// The number of entries that a sparse vector keeps: `0` keeps all.
pub open spec fn kept_entries(top_k: u32) -> usize {
    if top_k == 0 {
        usize::MAX
    } else {
        top_k as usize
    }
}

/// The number of entries that a sparse vector keeps: `0` keeps all.
pub fn effective_top_k(top_k: u32) -> (r: usize)
    ensures
        r == kept_entries(top_k),
{
    if top_k == 0 {
        usize::MAX
    } else {
        top_k as usize
    }
}

/// The definition that is loaded is the first one of its name, and there is one
/// exactly where the name is among them.
pub proof fn law_first_of_its_name(names: Seq<Seq<char>>, name: Seq<char>, i: int, j: int)
    ensures
        is_first_named(names, name, i) ==> 0 <= i < names.len() && names[i] == name,
        is_first_named(names, name, i) && 0 <= j < i ==> names[j] != name,
        is_first_named(names, name, i) && is_first_named(names, name, j) ==> i == j,
        0 <= i < names.len() && names[i] == name && (forall|k: int|
            0 <= k < i ==> #[trigger] names[k] != name) ==> is_first_named(names, name, i),
{
    if is_first_named(names, name, i) && is_first_named(names, name, j) {
        if i < j {
            assert(names[i] != name);
        }
        if j < i {
            assert(names[j] != name);
        }
    }
}

/// The names are those of the definitions, in their order.
pub proof fn law_names_of_definitions(cfg: Config, i: int)
    ensures
        embedder_names(&cfg).len() == cfg.models@.len(),
        reranker_names(&cfg).len() == cfg.rerankers@.len(),
        splade_names(&cfg).len() == cfg.splades@.len(),
        0 <= i < cfg.models@.len() ==> embedder_names(&cfg)[i] == cfg.models@[i].name@,
        0 <= i < cfg.rerankers@.len() ==> reranker_names(&cfg)[i] == cfg.rerankers@[i].name@,
        0 <= i < cfg.splades@.len() ==> splade_names(&cfg)[i] == cfg.splades@[i].name@,
{
}

/// All entries are kept where none is counted, else as many as are asked for.
pub proof fn law_kept_entries(top_k: u32)
    ensures
        top_k == 0 ==> kept_entries(top_k) == usize::MAX,
        top_k > 0 ==> kept_entries(top_k) == top_k,
{
}

/// A text is encoded by way of its own tokens: what comes out is what the model
/// made of them, or the first error.
pub proof fn law_text_is_encoded_by_its_tokens<
    M,
    V,
    K: Fn(&M, &String) -> Result<Vec<u32>, String>,
    E: Fn(&M, &Vec<u32>, usize, u32) -> Result<V, String>,
>(
    s: StandaloneSplade<M>,
    text: String,
    top_k: usize,
    min_weight: u32,
    tokenize: &K,
    encode_sparse: &E,
    r: Result<V, String>,
) -> (ids: Result<Vec<u32>, String>)
    requires
        s.is_encoded(text, top_k, min_weight, tokenize, encode_sparse, r),
    ensures
        call_ensures(tokenize, (&s.inner, &text), ids),
        ids matches Ok(i) ==> call_ensures(
            encode_sparse,
            (&s.inner, &i, top_k, min_weight),
            r,
        ),
        ids matches Err(e) ==> r == Err::<V, String>(e),
{
    choose|ids: Result<Vec<u32>, String>|
        {
            &&& #[trigger] call_ensures(tokenize, (&s.inner, &text), ids)
            &&& match ids {
                Err(e) => r == Err::<V, String>(e),
                Ok(ids) => call_ensures(encode_sparse, (&s.inner, &ids, top_k, min_weight), r),
            }
        }
}

/// Texts that fail stop at the first one that does: it fails with that error,
/// and every text before it was encoded.
pub proof fn law_first_failure<
    M,
    V,
    K: Fn(&M, &String) -> Result<Vec<u32>, String>,
    E: Fn(&M, &Vec<u32>, usize, u32) -> Result<V, String>,
>(
    s: StandaloneSplade<M>,
    texts: Seq<String>,
    i: int,
    j: int,
    top_k: usize,
    min_weight: u32,
    tokenize: &K,
    encode_sparse: &E,
    e: String,
) -> (v: V)
    requires
        s.fails_first::<V, K, E>(texts, i, top_k, min_weight, tokenize, encode_sparse, e),
        0 <= j < i,
    ensures
        0 <= i < texts.len(),
        s.is_encoded(texts[i], top_k, min_weight, tokenize, encode_sparse, Err::<V, String>(e)),
        s.is_encoded(texts[j], top_k, min_weight, tokenize, encode_sparse, Ok::<V, String>(v)),
{
    assert(s.succeeds::<V, K, E>(texts[j], top_k, min_weight, tokenize, encode_sparse));
    choose|v: V|
        #[trigger] s.is_encoded(texts[j], top_k, min_weight, tokenize, encode_sparse, Ok(v))
}

} // verus!
