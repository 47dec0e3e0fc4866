//! One forward pass of an embedding model: its inputs, what is recorded of it,
//! and what becomes of its outcome.
use vstd::prelude::*;
use vstd::string::*;
use crate::evictable_pool::AcquireError;
use crate::metrics::{
    of_model, record_arena_shrink_call, record_inference_peak_bytes, Amount, Change, MetricLog,
    UpdateView,
};
use crate::model::{
    acquire_failed, build_tensors_from_ids, id_rows, law_each_token_is_in_its_place,
    law_pass_holds_every_sequence, mask_rows, pass_failed, pass_len,
    pass_updates, plan_pass, runtime_error_label, PassShape,
};
use crate::text::decimal;

verus! {

broadcast use group_string_axioms;

/// What a pass needs to know of its model.
#[derive(Debug)]
pub struct PassModel {
    pub name: String,
    /// The most tokens of a sequence.
    pub max_len: usize,
    /// The token that fills short sequences up.
    pub pad_id: u32,
    /// Whether the model takes token types.
    pub has_token_type_ids: bool,
    /// The attention heads.
    pub num_heads: usize,
    /// Whether the arena is shrunk after each run.
    pub shrinks_arena: bool,
}

/// The inputs of a pass: `batch` rows of `max_seq` numbers each.
#[derive(Debug)]
pub struct PassInput {
    pub batch: usize,
    pub max_seq: usize,
    pub ids: Vec<i64>,
    pub mask: Vec<i64>,
    pub types: Option<Vec<i64>>,
}

impl PassInput {
    /// The input holds the sequences, padded or cut to `max_seq` tokens.
    pub open spec fn holds(&self, token_ids: Seq<Vec<u32>>, max_seq: nat, model: PassModel) -> bool {
        &&& self.batch == token_ids.len()
        &&& self.max_seq == max_seq
        &&& self.ids@ == id_rows(token_ids, max_seq, model.pad_id)
        &&& self.mask@ == mask_rows(token_ids, max_seq)
        &&& match self.types {
            Some(types) => model.has_token_type_ids && types@.len() == self.ids@.len()
                && forall|i: int| 0 <= i < types@.len() ==> #[trigger] types@[i] == 0,
            None => !model.has_token_type_ids,
        }
    }

    /// The input of a pass over some sequences.
    pub fn new(token_ids: &Vec<Vec<u32>>, max_seq: usize, model: &PassModel) -> (r: PassInput)
        ensures
            r.holds(token_ids@, max_seq as nat, *model),
    {
        let (ids, mask, types) = build_tensors_from_ids(
            token_ids,
            max_seq,
            model.pad_id,
            model.has_token_type_ids,
        );
        PassInput { batch: token_ids.len(), max_seq, ids, mask, types }
    }
}

/// How a pass ended.
#[derive(Debug)]
pub enum PassOutcome<V> {
    /// Its inputs could not be made; why.
    NotRun(String),
    /// There was no session for it.
    NoSession(AcquireError),
    /// It ran; the process's memory before and after it, and the error of the
    /// run, or else its vectors or the error of their extraction.
    Ran { rss_before: u64, rss_after: u64, result: Result<Result<Vec<V>, String>, String> },
}

/// `a - b`, but at least zero.
pub open spec fn growth(a: u64, b: u64) -> u64 {
    if a > b {
        (a - b) as u64
    } else {
        0
    }
}

/// What is recorded of a pass after it ended.
pub open spec fn end_updates<V>(outcome: PassOutcome<V>, model: PassModel) -> Seq<UpdateView> {
    match outcome {
        PassOutcome::Ran { rss_before, rss_after, result } => {
            let shrink: Seq<UpdateView> = if model.shrinks_arena {
                seq![
                    of_model(
                        "embed_arena_shrink_calls_total"@,
                        model.name@,
                        Change::CounterIncrement(1),
                    ),
                ]
            } else {
                Seq::empty()
            };
            let peak: UpdateView = of_model(
                "embed_inference_peak_bytes"@,
                model.name@,
                Change::HistogramRecord(Amount::Whole(growth(rss_after, rss_before) as u128)),
            );
            match result {
                Ok(_) => shrink.push(peak),
                Err(msg) => shrink.push(peak).push(
                    UpdateView {
                        name: "embed_inference_failures_total"@,
                        labels: seq![
                            ("model"@, model.name@),
                            ("reason"@, runtime_error_label(msg@)),
                            ("bin_num"@, decimal(0)),
                        ],
                        change: Change::CounterIncrement(1),
                    },
                ),
            }
        },
        _ => Seq::empty(),
    }
}

/// What a request gets from a pass: its vectors, or an error in words.
pub open spec fn concludes<V>(outcome: PassOutcome<V>, r: Result<Vec<V>, String>) -> bool {
    match outcome {
        PassOutcome::NotRun(e) => r == Err::<Vec<V>, String>(e),
        PassOutcome::NoSession(AcquireError::AllBusy) => r matches Err(m) && m@
            == "embed session pool: all slots busy"@,
        PassOutcome::NoSession(AcquireError::ReinitFailed(e)) => r matches Err(m) && m@
            == "embed session pool: reinit failed: "@ + e@,
        PassOutcome::Ran { result: Err(msg), .. } => r matches Err(m) && m@ == "inference: "@
            + msg@,
        PassOutcome::Ran { result: Ok(inner), .. } => r == inner,
    }
}

/// Draws the consequences of a pass.
pub fn conclude_pass<V>(outcome: PassOutcome<V>, model: &PassModel, log: &mut MetricLog) -> (r:
    Result<Vec<V>, String>)
    ensures
        concludes(outcome, r),
        final(log)@ == old(log)@ + end_updates(outcome, *model),
{
    let ghost given: PassOutcome<V> = outcome;
    match outcome {
        PassOutcome::NotRun(e) => {
            assert(log@ =~= old(log)@ + end_updates(given, *model));
            Err(e)
        },
        PassOutcome::NoSession(e) => {
            assert(log@ =~= old(log)@ + end_updates(given, *model));
            Err(acquire_failed(&e))
        },
        PassOutcome::Ran { rss_before, rss_after, result } => {
            if model.shrinks_arena {
                record_arena_shrink_call(log, model.name.as_str());
            }
            record_inference_peak_bytes(
                log,
                model.name.as_str(),
                rss_after.saturating_sub(rss_before),
            );
            match result {
                Err(msg) => {
                    let m: String = pass_failed(msg.as_str(), model.name.as_str(), log);
                    assert(log@ =~= old(log)@ + end_updates(given, *model));
                    Err(m)
                },
                Ok(inner) => {
                    assert(log@ =~= old(log)@ + end_updates(given, *model));
                    inner
                },
            }
        },
    }
}

/// One forward pass over some sequences, padded to a single width: `run` takes
/// the inputs through a session.
pub fn embed_tokens_one_pass<V, F: Fn(&PassInput) -> PassOutcome<V>>(
    model: &PassModel,
    token_ids: &Vec<Vec<u32>>,
    run: &F,
    log: &mut MetricLog,
) -> (r: Result<Vec<V>, String>)
    requires
        token_ids@.len() * pass_len(token_ids@, model.max_len) <= usize::MAX,
        forall|input: &PassInput| call_requires(run, (input,)),
    ensures
        token_ids@.len() == 0 ==> (r matches Ok(v) && v@.len() == 0) && final(log)@ == old(log)@,
        token_ids@.len() > 0 ==> exists|input: PassInput, outcome: PassOutcome<V>|
            {
                &&& input.holds(token_ids@, pass_len(token_ids@, model.max_len), *model)
                &&& #[trigger] call_ensures(run, (&input,), outcome)
                &&& concludes(outcome, r)
                &&& final(log)@ == old(log)@ + pass_updates(
                    (PassShape { batch: input.batch, max_seq: input.max_seq }),
                    model.num_heads,
                    model.name@,
                ) + end_updates(outcome, *model)
            },
{
    if token_ids.len() == 0 {
        return Ok(Vec::new());
    }
    let shape: PassShape = plan_pass(
        token_ids,
        model.max_len,
        model.num_heads,
        model.name.as_str(),
        log,
    );
    let input: PassInput = PassInput::new(token_ids, shape.max_seq, model);
    let outcome: PassOutcome<V> = run(&input);
    let ghost given: PassOutcome<V> = outcome;
    let r: Result<Vec<V>, String> = conclude_pass(outcome, model, log);
    assert(shape == PassShape { batch: input.batch, max_seq: input.max_seq });
    assert(call_ensures(run, (&input,), given));
    r
}

/// The input of a pass holds every text's tokens: each row begins with the
/// tokens of its sequence, in order, all of them marked, as far as the model
/// takes them, and holds nothing else but unmarked padding.
pub proof fn law_pass_attends_to_every_token(
    input: PassInput,
    token_ids: Seq<Vec<u32>>,
    model: PassModel,
    i: int,
    j: int,
)
    requires
        input.holds(token_ids, pass_len(token_ids, model.max_len), model),
        0 <= i < token_ids.len(),
        0 <= j < input.max_seq,
    ensures
        input.batch == token_ids.len(),
        0 <= i * input.max_seq + j < input.ids@.len(),
        input.ids@.len() == input.batch * input.max_seq,
        input.mask@.len() == input.batch * input.max_seq,
        token_ids[i]@.len() <= model.max_len ==> token_ids[i]@.len() <= input.max_seq,
        token_ids[i]@.len() > model.max_len ==> model.max_len <= input.max_seq,
        j < token_ids[i]@.len() ==> input.ids@[i * input.max_seq + j] == token_ids[i]@[j]
            && input.mask@[i * input.max_seq + j] == 1,
        j >= token_ids[i]@.len() ==> input.ids@[i * input.max_seq + j] == model.pad_id
            && input.mask@[i * input.max_seq + j] == 0,
        model.has_token_type_ids <==> input.types is Some,
        input.types matches Some(types) ==> types@.len() == input.ids@.len() && types@[i
            * input.max_seq + j] == 0,
{
    law_each_token_is_in_its_place(token_ids, input.max_seq as nat, model.pad_id, i, j);
    let _ = law_pass_holds_every_sequence(token_ids, model.max_len, i);
}

/// A pass that ran gives its own vectors; one that did not, or failed, gives
/// none.
pub proof fn law_vectors_come_from_the_run<V>(outcome: PassOutcome<V>, r: Result<Vec<V>, String>)
    requires
        concludes(outcome, r),
    ensures
        r matches Ok(v) ==> (outcome matches PassOutcome::Ran { result: Ok(Ok(w)), .. } && v == w),
        outcome matches PassOutcome::Ran { result: Ok(inner), .. } ==> r == inner,
{
}

/// The memory that a pass took is what it had more afterwards, and never less
/// than nothing.
pub proof fn law_growth(a: u64, b: u64)
    ensures
        a >= b ==> growth(a, b) + b == a,
        a < b ==> growth(a, b) == 0,
{
}

/// What a caller is told of a pass that gave no vectors.
pub proof fn law_failed_passes<V>(
    e: String,
    rss_before: u64,
    rss_after: u64,
    r: Result<Vec<V>, String>,
)
    ensures
        concludes(PassOutcome::<V>::NotRun(e), r) <==> r == Err::<Vec<V>, String>(e),
        concludes(PassOutcome::<V>::NoSession(AcquireError::AllBusy), r) <==> (r matches Err(m)
            && m@ == "embed session pool: all slots busy"@),
        concludes(PassOutcome::<V>::NoSession(AcquireError::ReinitFailed(e)), r) <==> (
        r matches Err(m) && m@ == "embed session pool: reinit failed: "@ + e@),
        concludes(PassOutcome::<V>::Ran { rss_before, rss_after, result: Err(e) }, r) <==> (
        r matches Err(m) && m@ == "inference: "@ + e@),
{
}

/// What is recorded of a pass that ran: the call that shrank the arena, if there
/// was one, the memory it grew by, and its failure.
pub proof fn law_pass_ends_are_recorded<V>(outcome: PassOutcome<V>, model: PassModel)
    ensures
        ({
            let u: Seq<UpdateView> = end_updates(outcome, model);
            let k: int = if model.shrinks_arena {
                1
            } else {
                0
            };
            &&& !(outcome is Ran) ==> u.len() == 0
            &&& outcome matches PassOutcome::Ran { rss_before, rss_after, result } ==> {
                &&& model.shrinks_arena ==> {
                    &&& u[0].name == "embed_arena_shrink_calls_total"@
                    &&& u[0].labels == seq![("model"@, model.name@)]
                    &&& u[0].change == Change::CounterIncrement(1)
                }
                &&& u[k].name == "embed_inference_peak_bytes"@
                &&& u[k].labels == seq![("model"@, model.name@)]
                &&& rss_after >= rss_before ==> u[k].change == Change::HistogramRecord(
                    Amount::Whole((rss_after - rss_before) as u128),
                )
                &&& rss_after < rss_before ==> u[k].change == Change::HistogramRecord(
                    Amount::Whole(0),
                )
                &&& result is Ok ==> u.len() == k + 1
                &&& result matches Err(msg) ==> {
                    &&& u.len() == k + 2
                    &&& u[k + 1].name == "embed_inference_failures_total"@
                    &&& u[k + 1].labels == seq![
                        ("model"@, model.name@),
                        ("reason"@, runtime_error_label(msg@)),
                        ("bin_num"@, decimal(0)),
                    ]
                    &&& u[k + 1].change == Change::CounterIncrement(1)
                }
            }
        }),
{
}

} // verus!
