//! Warming a model up: passes over placeholder texts, so that the first real
//! request does not pay for what the runtime does once for each shape.
//!
//! It is done as well as it can be: a failure is counted, and the rest goes on.
use vstd::prelude::*;
use vstd::string::*;
use crate::evictable_pool::{
    acquire_updates, all_busy, is_first_free, AcquireError, EvictableGuard, EvictablePool,
    EvictableSlot,
};
use crate::metrics::{of_model, of_model_and, record_warmup_failed, Change, MetricLog, UpdateView};
use crate::model::warmup_seq;
use crate::pass::{PassInput, PassModel};
use crate::reply::names_view;

verus! {

broadcast use group_string_axioms;

/// The placeholder texts of a pass.
pub fn warmup_texts(batch: usize) -> (r: Vec<String>)
    ensures
        r@.len() == batch,
        forall|i: int| 0 <= i < r@.len() ==> (#[trigger] r@[i])@ == "warmup"@,
{
    let mut out: Vec<String> = Vec::new();
    let mut i: usize = 0;
    while i < batch
        invariant
            i <= batch,
            out@.len() == i,
            forall|j: int| 0 <= j < i ==> (#[trigger] out@[j])@ == "warmup"@,
        decreases batch - i,
    {
        out.push("warmup".to_owned());
        i = i + 1;
    }
    out
}

/// No sequence holds a token.
pub open spec fn all_empty(token_ids: Seq<Vec<u32>>) -> bool {
    forall|i: int| 0 <= i < token_ids.len() ==> (#[trigger] token_ids[i])@.len() == 0
}

/// The length to which the sequences of a warmup are padded.
pub open spec fn warmup_len(warmup_seq_len: Option<usize>, max_len: usize) -> nat {
    match warmup_seq_len {
        None => max_len as nat,
        Some(n) => if n == 0 || max_len == 0 {
            1
        } else if n < max_len {
            n as nat
        } else {
            max_len as nat
        },
    }
}

/// The input of a warmup pass, or an error where the texts have no tokens.
pub fn warmup_input(
    token_ids: &Vec<Vec<u32>>,
    warmup_seq_len: Option<usize>,
    model: &PassModel,
) -> (r: Result<PassInput, String>)
    ensures
        match r {
            Ok(input) => !all_empty(token_ids@) && input.holds(
                token_ids@,
                warmup_len(warmup_seq_len, model.max_len),
                *model,
            ),
            Err(e) => all_empty(token_ids@) && e@ == "warmup tokens produced empty sequence"@,
        },
{
    let mut i: usize = 0;
    while i < token_ids.len()
        invariant
            i <= token_ids.len(),
            forall|j: int| 0 <= j < i ==> (#[trigger] token_ids@[j])@.len() == 0,
        decreases token_ids.len() - i,
    {
        if token_ids[i].len() > 0 {
            let max_seq: usize = warmup_seq(warmup_seq_len, model.max_len);
            return Ok(PassInput::new(token_ids, max_seq, model));
        }
        i = i + 1;
    }
    Err("warmup tokens produced empty sequence".to_owned())
}

/// The guard's slot was free, and its item is the slot's, or one that
/// `factory` made where the slot had none.
pub open spec fn is_rightful<T, F: Fn() -> Result<T, String>>(
    guard: EvictableGuard<T>,
    slots: Seq<EvictableSlot<T>>,
    factory: &F,
) -> bool {
    let i: int = guard.slot() as int;
    &&& 0 <= i < slots.len()
    &&& !slots[i].busy
    &&& slots[i].item == Some(guard.item()) || (slots[i].item is None && call_ensures(
        factory,
        (),
        Ok::<T, String>(guard.item()),
    ))
}

/// A guard stands for the slot.
pub open spec fn is_held<T>(guards: Seq<EvictableGuard<T>>, slot: int) -> bool {
    exists|g: int| 0 <= g < guards.len() && (#[trigger] guards[g]).slot() == slot
}

/// The slots after the guards were given out.
pub open spec fn held_out<T>(
    slots: Seq<EvictableSlot<T>>,
    guards: Seq<EvictableGuard<T>>,
    now: u64,
) -> Seq<EvictableSlot<T>> {
    Seq::new(
        slots.len(),
        |i: int|
            if is_held(guards, i) {
                EvictableSlot { item: None, busy: true, last_used: now }
            } else {
                slots[i]
            },
    )
}

/// A slot before the guard's is in use.
spec fn is_busy_below<T>(slots: Seq<EvictableSlot<T>>, guard: EvictableGuard<T>, i: int) -> bool {
    0 <= i < guard.slot() && slots[i].busy
}

/// What is recorded of the sessions that were to be made anew, in order.
pub open spec fn made_updates<T>(made: Seq<Result<T, String>>, model: Seq<char>) -> Seq<UpdateView>
    decreases made.len(),
{
    if made.len() == 0 {
        Seq::empty()
    } else {
        made_updates(made.drop_last(), model) + acquire_updates(false, made.last() is Ok, model)
    }
}

/// How many sessions could not be made.
pub open spec fn unmade<T>(made: Seq<Result<T, String>>) -> nat
    decreases made.len(),
{
    if made.len() == 0 {
        0
    } else {
        unmade(made.drop_last()) + if made.last() is Err {
            1nat
        } else {
            0nat
        }
    }
}

/// How many guards stand for slots that had no session.
pub open spec fn rebuilt<T>(guards: Seq<EvictableGuard<T>>, slots: Seq<EvictableSlot<T>>) -> nat
    decreases guards.len(),
{
    if guards.len() == 0 {
        0
    } else {
        rebuilt(guards.drop_last(), slots) + if slots[guards.last().slot() as int].item is None {
            1nat
        } else {
            0nat
        }
    }
}

/// A guard stands for every slot that was free.
pub open spec fn holds_all_free<T>(
    guards: Seq<EvictableGuard<T>>,
    slots: Seq<EvictableSlot<T>>,
) -> bool {
    forall|i: int| 0 <= i < slots.len() && !(#[trigger] slots[i]).busy ==> is_held(guards, i)
}

/// What asking for a session once for each slot comes to. The guards stand for
/// the first slots that were free, in order. `made` is what `factory` gave, in
/// order: a session for each guard whose slot had none, and the failures. Every
/// free slot is taken, unless there were failures: each of them used one of the
/// questions up.
pub open spec fn takes_all<T, F: Fn() -> Result<T, String>>(
    slots: Seq<EvictableSlot<T>>,
    guards: Seq<EvictableGuard<T>>,
    factory: &F,
    made: Seq<Result<T, String>>,
) -> bool {
    &&& forall|g: int|
        0 <= g < guards.len() ==> is_rightful(#[trigger] guards[g], slots, factory)
    &&& forall|g: int, h: int|
        0 <= g < h < guards.len() ==> (#[trigger] guards[g]).slot() < (#[trigger] guards[h]).slot()
    &&& forall|g: int, i: int|
        0 <= g < guards.len() && 0 <= i < (#[trigger] guards[g]).slot() && !(
        #[trigger] slots[i]).busy ==> is_held(guards, i)
    &&& forall|i: int| 0 <= i < made.len() ==> call_ensures(factory, (), #[trigger] made[i])
    &&& made.len() == rebuilt(guards, slots) + unmade(made)
    &&& guards.len() + unmade(made) <= slots.len()
    &&& is_warm(slots) ==> unmade(made) == 0
    &&& !holds_all_free(guards, slots) ==> unmade(made) > 0 && guards.len() + unmade(made)
        == slots.len()
}

/// Takes every session that can be had. The first slot that is free is asked
/// for once for each slot of the pool; one whose session cannot be made stays
/// free.
pub fn acquire_all<T, F: Fn() -> Result<T, String>>(
    pool: &mut EvictablePool<T>,
    factory: &F,
    now: u64,
    log: &mut MetricLog,
) -> (r: Vec<EvictableGuard<T>>)
    requires
        old(pool).wf(),
        call_requires(factory, ()),
    ensures
        final(pool).wf(),
        final(pool).same_but_slots(old(pool)),
        final(pool).slots() == held_out(old(pool).slots(), r@, now),
        exists|made: Seq<Result<T, String>>| #[trigger]
            takes_all(old(pool).slots(), r@, factory, made) && final(log)@ == old(log)@
                + made_updates(made, old(pool).model()),
{
    let n: usize = pool.len();
    let ghost start: Seq<EvictableSlot<T>> = pool.slots();
    let ghost model: Seq<char> = pool.model();
    let ghost mut made: Seq<Result<T, String>> = Seq::empty();
    let mut guards: Vec<EvictableGuard<T>> = Vec::new();
    let mut k: usize = 0;
    assert(pool.slots() =~= held_out(start, guards@, now));
    assert(log@ =~= old(log)@ + made_updates(made, model));
    while k < n
        invariant
            k <= n,
            n == start.len(),
            start == old(pool).slots(),
            model == old(pool).model(),
            call_requires(factory, ()),
            pool.wf(),
            pool.same_but_slots(old(pool)),
            pool.slots() == held_out(start, guards@, now),
            forall|g: int|
                0 <= g < guards@.len() ==> is_rightful(#[trigger] guards@[g], start, factory),
            forall|g: int, h: int|
                0 <= g < h < guards@.len() ==> (#[trigger] guards@[g]).slot() < (
                #[trigger] guards@[h]).slot(),
            forall|g: int, i: int|
                0 <= g < guards@.len() && 0 <= i < guards@[g].slot() ==> #[trigger] is_busy_below(
                    pool.slots(),
                    guards@[g],
                    i,
                ),
            forall|i: int| 0 <= i < made.len() ==> call_ensures(factory, (), #[trigger] made[i]),
            made.len() == rebuilt(guards@, start) + unmade(made),
            guards@.len() + unmade(made) <= k,
            is_warm(start) ==> unmade(made) == 0,
            all_busy(pool.slots()) || guards@.len() + unmade(made) == k,
            log@ == old(log)@ + made_updates(made, model),
        decreases n - k,
    {
        let ghost before: Seq<EvictableSlot<T>> = pool.slots();
        let ghost held: Seq<EvictableGuard<T>> = guards@;
        let ghost seen: Seq<UpdateView> = log@;
        let ghost earlier: Seq<Result<T, String>> = made;
        match pool.acquire(factory, now, log) {
            Ok(guard) => {
                let ghost s: int = guard.slot() as int;
                proof {
                    assert(is_first_free(before, s));
                    assert(!is_held(held, s)) by {
                        assert(before[s] == held_out(start, held, now)[s]);
                    }
                    assert(before[s] == start[s]);
                    assert forall|g: int| 0 <= g < held.len() implies (
                    #[trigger] held[g]).slot() < s by {
                        let t: int = held[g].slot() as int;
                        assert(is_held(held, t));
                        assert(is_rightful(held[g], start, factory));
                        if t > s {
                            assert(is_busy_below(before, held[g], s));
                        }
                    }
                    if before[s].item is None {
                        made = made.push(Ok(guard.item()));
                        assert(made.drop_last() =~= earlier);
                    }
                    assert(log@ =~= old(log)@ + made_updates(made, model));
                }
                guards.push(guard);
                proof {
                    assert(guards@.drop_last() =~= held);
                    assert(guards@[held.len() as int] == guard);
                    assert forall|i: int| 0 <= i < start.len() implies is_held(guards@, i) == (
                    is_held(held, i) || i == s) by {
                        if is_held(held, i) {
                            let g: int = choose|g: int|
                                0 <= g < held.len() && (#[trigger] held[g]).slot() == i;
                            assert(guards@[g].slot() == i);
                        }
                        if is_held(guards@, i) {
                            let g: int = choose|g: int|
                                0 <= g < guards@.len() && (#[trigger] guards@[g]).slot() == i;
                            if g < held.len() {
                                assert(held[g].slot() == i);
                            }
                        }
                        if i == s {
                            assert(guards@[held.len() as int].slot() == i);
                        }
                    }
                    assert(pool.slots() =~= held_out(start, guards@, now));
                    assert forall|g: int, h: int| 0 <= g < h < guards@.len() implies (
                    #[trigger] guards@[g]).slot() < (#[trigger] guards@[h]).slot() by {
                        if h == held.len() {
                            assert(held[g].slot() < s);
                        }
                    }
                    assert forall|g: int, i: int|
                        0 <= g < guards@.len() && 0 <= i < guards@[g].slot() implies #[trigger]
                    is_busy_below(pool.slots(), guards@[g], i) by {
                        if g < held.len() {
                            assert(is_busy_below(before, held[g], i));
                        } else {
                            assert(before[i].busy);
                        }
                    }
                }
            },
            Err(why) => {
                proof {
                    assert(pool.slots() == before);
                    if all_busy(before) {
                        assert(log@ =~= seen);
                    } else {
                        let i: int = lemma_some_free(before);
                        assert(is_first_free(before, i));
                        assert(before[i] == start[i]);
                        if let AcquireError::ReinitFailed(e) = why {
                            made = made.push(Err(e));
                            assert(made.drop_last() =~= earlier);
                            assert(log@ =~= old(log)@ + made_updates(made, model));
                        }
                    }
                }
            },
        }
        k = k + 1;
    }
    proof {
        let all: Seq<EvictableGuard<T>> = guards@;
        assert forall|g: int, i: int|
            0 <= g < all.len() && 0 <= i < (#[trigger] all[g]).slot() && !(
            #[trigger] start[i]).busy implies is_held(all, i) by {
            assert(is_rightful(all[g], start, factory));
            assert(is_busy_below(pool.slots(), all[g], i));
        }
        if !holds_all_free(all, start) {
            let i: int = choose|i: int|
                0 <= i < start.len() && !(#[trigger] start[i]).busy && !is_held(all, i);
            assert(pool.slots()[i] == start[i]);
            assert(all.len() < n) by {
                if all.len() >= n {
                    lemma_slots_are_dense(all, start, factory, i);
                    assert(all[i].slot() == i);
                }
            }
        }
        assert(takes_all(start, all, factory, made));
    }
    guards
}

/// As many guards as there are slots stand for the slots one by one.
proof fn lemma_slots_are_dense<T, F: Fn() -> Result<T, String>>(
    guards: Seq<EvictableGuard<T>>,
    slots: Seq<EvictableSlot<T>>,
    factory: &F,
    i: int,
)
    requires
        guards.len() >= slots.len(),
        0 <= i < slots.len(),
        forall|g: int|
            0 <= g < guards.len() ==> is_rightful(#[trigger] guards[g], slots, factory),
        forall|g: int, h: int|
            0 <= g < h < guards.len() ==> (#[trigger] guards[g]).slot() < (
            #[trigger] guards[h]).slot(),
    ensures
        guards[i].slot() == i,
{
    lemma_slot_from_below(guards, i);
    lemma_slot_from_above(guards, slots, factory, i);
}

proof fn lemma_slot_from_below<T>(guards: Seq<EvictableGuard<T>>, i: int)
    requires
        0 <= i < guards.len(),
        forall|g: int, h: int|
            0 <= g < h < guards.len() ==> (#[trigger] guards[g]).slot() < (
            #[trigger] guards[h]).slot(),
    ensures
        guards[i].slot() >= i,
    decreases i,
{
    if i > 0 {
        lemma_slot_from_below(guards, i - 1);
        assert(guards[i - 1].slot() < guards[i].slot());
    }
}

proof fn lemma_slot_from_above<T, F: Fn() -> Result<T, String>>(
    guards: Seq<EvictableGuard<T>>,
    slots: Seq<EvictableSlot<T>>,
    factory: &F,
    i: int,
)
    requires
        guards.len() >= slots.len(),
        0 <= i < slots.len(),
        forall|g: int|
            0 <= g < guards.len() ==> is_rightful(#[trigger] guards[g], slots, factory),
        forall|g: int, h: int|
            0 <= g < h < guards.len() ==> (#[trigger] guards[g]).slot() < (
            #[trigger] guards[h]).slot(),
    ensures
        guards[i].slot() <= i,
    decreases slots.len() - i,
{
    if i == slots.len() - 1 {
        assert(is_rightful(guards[i], slots, factory));
    } else {
        lemma_slot_from_above(guards, slots, factory, i + 1);
        assert(guards[i].slot() < guards[i + 1].slot());
    }
}

proof fn lemma_none_rebuilt<T, F: Fn() -> Result<T, String>>(
    guards: Seq<EvictableGuard<T>>,
    slots: Seq<EvictableSlot<T>>,
    factory: &F,
)
    requires
        is_warm(slots),
        forall|g: int|
            0 <= g < guards.len() ==> is_rightful(#[trigger] guards[g], slots, factory),
    ensures
        rebuilt(guards, slots) == 0,
    decreases guards.len(),
{
    if guards.len() > 0 {
        let head: Seq<EvictableGuard<T>> = guards.drop_last();
        assert forall|g: int| 0 <= g < head.len() implies is_rightful(
            #[trigger] head[g],
            slots,
            factory,
        ) by {
            assert(is_rightful(guards[g], slots, factory));
        }
        lemma_none_rebuilt(head, slots, factory);
        assert(is_rightful(guards[guards.len() - 1], slots, factory));
    }
}

/// The slots after the guards' items were given back.
pub open spec fn all_given_back<T>(
    slots: Seq<EvictableSlot<T>>,
    guards: Seq<EvictableGuard<T>>,
    now: u64,
) -> Seq<EvictableSlot<T>> {
    Seq::new(
        slots.len(),
        |i: int|
            if is_held(guards, i) {
                EvictableSlot {
                    item: Some(guards[holder(guards, i)].item()),
                    busy: false,
                    last_used: now,
                }
            } else {
                slots[i]
            },
    )
}

/// The guard that stands for the slot.
pub open spec fn holder<T>(guards: Seq<EvictableGuard<T>>, slot: int) -> int {
    choose|g: int| 0 <= g < guards.len() && (#[trigger] guards[g]).slot() == slot
}

/// Gives back every session.
pub fn release_all<T>(pool: &mut EvictablePool<T>, guards: Vec<EvictableGuard<T>>, now: u64)
    requires
        old(pool).wf(),
        forall|g: int|
            0 <= g < guards@.len() ==> old(pool).lent((#[trigger] guards@[g]).slot() as int),
        forall|g: int, h: int|
            0 <= g < h < guards@.len() ==> (#[trigger] guards@[g]).slot() < (
            #[trigger] guards@[h]).slot(),
    ensures
        final(pool).wf(),
        final(pool).same_but_slots(old(pool)),
        final(pool).slots() == all_given_back(old(pool).slots(), guards@, now),
{
    let ghost all: Seq<EvictableGuard<T>> = guards@;
    let ghost start: Seq<EvictableSlot<T>> = pool.slots();
    assert(pool.slots() =~= all_given_back(start, all.take(0), now));
    for guard in it: guards
        invariant
            it.seq() == all,
            start == old(pool).slots(),
            pool.wf(),
            pool.same_but_slots(old(pool)),
            pool.slots() == all_given_back(start, all.take(it.index()), now),
            forall|g: int|
                0 <= g < all.len() ==> 0 <= (#[trigger] all[g]).slot() < start.len()
                    && start[all[g].slot() as int].busy,
            forall|g: int, h: int|
                0 <= g < h < all.len() ==> (#[trigger] all[g]).slot() < (
                #[trigger] all[h]).slot(),
    {
        let ghost k: int = it.index();
        let ghost before: Seq<EvictableSlot<T>> = pool.slots();
        let ghost s: int = guard.slot() as int;
        proof {
            assert(guard == all[k]);
            assert(!is_held(all.take(k), s)) by {
                if is_held(all.take(k), s) {
                    let g: int = choose|g: int|
                        0 <= g < k && (#[trigger] all.take(k)[g]).slot() == s;
                    assert(all[g].slot() < all[k].slot());
                }
            }
            assert(before[s] == start[s]);
        }
        pool.release(guard, now);
        proof {
            let next: Seq<EvictableGuard<T>> = all.take(k + 1);
            assert forall|i: int| 0 <= i < start.len() implies pool.slots()[i]
                == all_given_back(start, next, now)[i] by {
                if i == s {
                    assert(next[k].slot() == i);
                    let h: int = holder(next, i);
                    assert(0 <= h < next.len() && next[h].slot() == i);
                    if h < k {
                        assert(all[h].slot() < all[k].slot());
                    }
                } else if is_held(all.take(k), i) {
                    let g: int = holder(all.take(k), i);
                    assert(all.take(k)[g].slot() == i);
                    assert(next[g].slot() == i);
                    let h: int = holder(next, i);
                    assert(next[h].slot() == i);
                    if g < h {
                        assert(all[g].slot() < all[h].slot());
                    }
                    if h < g {
                        assert(all[h].slot() < all[g].slot());
                    }
                } else if is_held(next, i) {
                    let h: int = holder(next, i);
                    assert(next[h].slot() == i);
                    if h < k {
                        assert(all.take(k)[h].slot() == i);
                    }
                }
            }
            assert(pool.slots() =~= all_given_back(start, next, now));
        }
    }
    assert(all.take(all.len() as int) =~= all);
}

/// What a warmup pass came to: an error that ends the warmup of its shape, or
/// else whether the run succeeded.
pub type WarmOutcome = Result<Result<(), String>, String>;

/// The update for a failure.
pub open spec fn failed_update(model: Seq<char>, phase: Seq<char>) -> UpdateView {
    of_model_and("embed_warmup_failed_total"@, model, "phase"@, phase, Change::CounterIncrement(1))
}

/// What is recorded of some passes: each run that failed.
pub open spec fn run_failures(outcomes: Seq<WarmOutcome>, model: Seq<char>) -> Seq<UpdateView>
    decreases outcomes.len(),
{
    if outcomes.len() == 0 {
        Seq::empty()
    } else {
        let rest: Seq<UpdateView> = run_failures(outcomes.drop_last(), model);
        match outcomes.last() {
            Ok(Err(_)) => rest.push(failed_update(model, "session"@)),
            _ => rest,
        }
    }
}

/// The sessions were run one after the other, up to the first error that ends
/// the warmup of its shape.
pub open spec fn runs_each<T, P: Fn(&T, &PassInput) -> WarmOutcome>(
    guards: Seq<EvictableGuard<T>>,
    input: PassInput,
    run: &P,
    outcomes: Seq<WarmOutcome>,
    r: Result<(), String>,
) -> bool {
    &&& outcomes.len() <= guards.len()
    &&& forall|i: int|
        0 <= i < outcomes.len() ==> call_ensures(
            run,
            (&guards[i].item(), &input),
            #[trigger] outcomes[i],
        )
    &&& forall|i: int| 0 <= i < outcomes.len() - 1 ==> (#[trigger] outcomes[i]) is Ok
    &&& match r {
        Ok(_) => outcomes.len() == guards.len() && (outcomes.len() > 0 ==> outcomes.last() is Ok),
        Err(e) => outcomes.len() > 0 && outcomes.last() == Err::<Result<(), String>, String>(e),
    }
}

/// Runs a pass through every session that is held.
pub fn warm_each<T, P: Fn(&T, &PassInput) -> WarmOutcome>(
    guards: &Vec<EvictableGuard<T>>,
    input: &PassInput,
    run: &P,
    name: &str,
    log: &mut MetricLog,
) -> (r: Result<(), String>)
    requires
        forall|t: &T, i: &PassInput| call_requires(run, (t, i)),
    ensures
        exists|outcomes: Seq<WarmOutcome>| #[trigger]
            runs_each(guards@, *input, run, outcomes, r) && final(log)@ == old(log)@
                + run_failures(outcomes, name@),
{
    let ghost mut outcomes: Seq<WarmOutcome> = Seq::empty();
    let mut i: usize = 0;
    assert(old(log)@ + run_failures(outcomes, name@) =~= old(log)@);
    while i < guards.len()
        invariant
            i <= guards.len(),
            forall|t: &T, i: &PassInput| call_requires(run, (t, i)),
            outcomes.len() == i,
            forall|j: int|
                0 <= j < i ==> call_ensures(
                    run,
                    (&guards@[j].item(), input),
                    #[trigger] outcomes[j],
                ),
            forall|j: int| 0 <= j < i ==> (#[trigger] outcomes[j]) is Ok,
            log@ == old(log)@ + run_failures(outcomes, name@),
        decreases guards.len() - i,
    {
        let outcome: WarmOutcome = run(guards[i].get(), input);
        let ghost before: Seq<WarmOutcome> = outcomes;
        proof {
            outcomes = outcomes.push(outcome);
            assert(outcomes.drop_last() =~= before);
            assert(call_ensures(run, (&guards@[i as int].item(), input), outcome));
        }
        match outcome {
            Err(e) => {
                assert(runs_each(
                    guards@,
                    *input,
                    run,
                    outcomes,
                    Err::<(), String>(e),
                ));
                return Err(e);
            },
            Ok(Err(_)) => {
                record_warmup_failed(log, name, "session");
                assert(log@ =~= old(log)@ + run_failures(outcomes, name@));
            },
            Ok(Ok(_)) => {},
        }
        i = i + 1;
    }
    assert(runs_each(guards@, *input, run, outcomes, Ok::<(), String>(())));
    Ok(())
}

/// Every slot that is free has its session.
pub open spec fn is_warm<T>(slots: Seq<EvictableSlot<T>>) -> bool {
    forall|i: int|
        0 <= i < slots.len() && !(#[trigger] slots[i]).busy ==> slots[i].item is Some
}

/// The warmup of one shape with the given tokens: every session that could be
/// taken or made was run, up to an error, and given back. What was made anew is
/// recorded, and then each run that failed.
pub open spec fn shape_warmed<
    T,
    A: Fn() -> Result<T, String>,
    P: Fn(&T, &PassInput) -> WarmOutcome,
>(
    token_ids: Seq<Vec<u32>>,
    max_seq: nat,
    model: PassModel,
    pool: Seq<char>,
    factory: &A,
    run: &P,
    now: u64,
    before: (Seq<EvictableSlot<T>>, Seq<UpdateView>),
    after: (Seq<EvictableSlot<T>>, Seq<UpdateView>),
    r: Result<(), String>,
) -> bool {
    exists|
        guards: Seq<EvictableGuard<T>>,
        made: Seq<Result<T, String>>,
        input: PassInput,
        outcomes: Seq<WarmOutcome>,
    |
        {
            &&& #[trigger] takes_all(before.0, guards, factory, made)
            &&& #[trigger] runs_each(guards, input, run, outcomes, r)
            &&& input.holds(token_ids, max_seq, model)
            &&& after.0 == all_given_back(before.0, guards, now)
            &&& after.1 == before.1 + made_updates(made, pool) + run_failures(
                outcomes,
                model.name@,
            )
        }
}

/// The texts are the placeholders of a pass.
pub open spec fn are_placeholders(texts: Seq<String>, batch: nat) -> bool {
    names_view(texts) == Seq::new(batch, |i: int| "warmup"@)
}

/// Warms every session of a pool up at one shape. All are taken first, so that
/// each is reached, and all are given back, whatever happens.
pub fn warmup_at_shape<
    T,
    K: Fn(&Vec<String>) -> Result<Vec<Vec<u32>>, String>,
    A: Fn() -> Result<T, String>,
    P: Fn(&T, &PassInput) -> WarmOutcome,
>(
    pool: &mut EvictablePool<T>,
    model: &PassModel,
    batch: usize,
    warmup_seq_len: Option<usize>,
    tokenize: &K,
    factory: &A,
    run: &P,
    now: u64,
    log: &mut MetricLog,
) -> (r: Result<(), String>)
    requires
        old(pool).wf(),
        forall|t: &Vec<String>| call_requires(tokenize, (t,)),
        call_requires(factory, ()),
        forall|t: &T, i: &PassInput| call_requires(run, (t, i)),
    ensures
        final(pool).wf(),
        final(pool).same_but_slots(old(pool)),
        exists|texts: Vec<String>, tokens: Result<Vec<Vec<u32>>, String>|
            {
                &&& #[trigger] call_ensures(tokenize, (&texts,), tokens)
                &&& are_placeholders(texts@, batch as nat)
                &&& match tokens {
                    Err(e) => r == Err::<(), String>(e) && final(pool).slots() == old(pool).slots()
                        && final(log)@ == old(log)@,
                    Ok(ids) => if all_empty(ids@) {
                        (r matches Err(e) && e@ == "warmup tokens produced empty sequence"@)
                            && final(pool).slots() == old(pool).slots() && final(log)@ == old(
                            log,
                        )@
                    } else {
                        shape_warmed(
                            ids@,
                            warmup_len(warmup_seq_len, model.max_len),
                            *model,
                            old(pool).model(),
                            factory,
                            run,
                            now,
                            (old(pool).slots(), old(log)@),
                            (final(pool).slots(), final(log)@),
                            r,
                        )
                    },
                }
            },
{
    let texts: Vec<String> = warmup_texts(batch);
    assert(names_view(texts@) =~= Seq::new(batch as nat, |i: int| "warmup"@));
    let tokens: Result<Vec<Vec<u32>>, String> = tokenize(&texts);
    let ghost given: Result<Vec<Vec<u32>>, String> = tokens;
    assert(call_ensures(tokenize, (&texts,), given));
    let ids: Vec<Vec<u32>> = match tokens {
        Ok(ids) => ids,
        Err(e) => return Err(e),
    };
    let input: PassInput = match warmup_input(&ids, warmup_seq_len, model) {
        Ok(input) => input,
        Err(e) => return Err(e),
    };
    let ghost start: Seq<EvictableSlot<T>> = pool.slots();
    let ghost seen: Seq<UpdateView> = log@;
    let guards: Vec<EvictableGuard<T>> = acquire_all(pool, factory, now, log);
    let ghost acquired: Seq<UpdateView> = log@;
    let ghost made: Seq<Result<T, String>> = choose|made: Seq<Result<T, String>>| #[trigger]
        takes_all(start, guards@, factory, made) && acquired == seen + made_updates(
            made,
            pool.model(),
        );
    let r: Result<(), String> = warm_each(&guards, &input, run, model.name.as_str(), log);
    let ghost held: Seq<EvictableGuard<T>> = guards@;
    proof {
        assert forall|g: int| 0 <= g < held.len() implies pool.lent(
            (#[trigger] held[g]).slot() as int,
        ) by {
            assert(is_rightful(held[g], start, factory));
            assert(is_held(held, held[g].slot() as int));
        }
    }
    release_all(pool, guards, now);
    proof {
        assert(pool.slots() =~= all_given_back(start, held, now));
        let outcomes: Seq<WarmOutcome> = choose|outcomes: Seq<WarmOutcome>| #[trigger]
            runs_each(held, input, run, outcomes, r) && log@ == acquired
                + run_failures(outcomes, model.name@);
        let before: (Seq<EvictableSlot<T>>, Seq<UpdateView>) = (start, seen);
        assert(takes_all(before.0, held, factory, made));
        assert(runs_each(held, input, run, outcomes, r));
        assert(input.holds(ids@, warmup_len(warmup_seq_len, model.max_len), *model));
        assert(log@ == seen + made_updates(made, old(pool).model()) + run_failures(
            outcomes,
            model.name@,
        ));
        assert(shape_warmed(
            ids@,
            warmup_len(warmup_seq_len, model.max_len),
            *model,
            old(pool).model(),
            factory,
            run,
            now,
            before,
            (pool.slots(), log@),
            r,
        ));
    }
    r
}

/// In a pool that has all its sessions, as one that was just filled, every free
/// one is taken, none is made, and nothing is recorded of it.
pub proof fn law_warm_pool_is_taken_whole<T, F: Fn() -> Result<T, String>>(
    slots: Seq<EvictableSlot<T>>,
    guards: Seq<EvictableGuard<T>>,
    factory: &F,
    made: Seq<Result<T, String>>,
    model: Seq<char>,
)
    requires
        is_warm(slots),
        takes_all(slots, guards, factory, made),
    ensures
        holds_all_free(guards, slots),
        made.len() == 0,
        made_updates(made, model) == Seq::<UpdateView>::empty(),
{
    lemma_none_rebuilt(guards, slots, factory);
}

/// A warmup leaves a pool as it found it: no slot is in use that was free, no
/// slot is free that was in use, and no session is lost or swapped.
pub proof fn law_warmup_gives_everything_back<T, A: Fn() -> Result<T, String>>(
    before: Seq<EvictableSlot<T>>,
    guards: Seq<EvictableGuard<T>>,
    factory: &A,
    now: u64,
    i: int,
)
    requires
        forall|g: int|
            0 <= g < guards.len() ==> is_rightful(#[trigger] guards[g], before, factory),
        0 <= i < before.len(),
    ensures
        all_given_back(before, guards, now)[i].busy == before[i].busy,
        before[i].item is Some ==> all_given_back(before, guards, now)[i].item == before[i].item,
{
    if is_held(guards, i) {
        let g: int = holder(guards, i);
        assert(0 <= g < guards.len() && guards[g].slot() == i);
        assert(is_rightful(guards[g], before, factory));
    }
}

/// Warms a model up at each of some batch sizes. A size that fails is counted,
/// and the next one is tried: `at_shape` does the work for one.
pub fn warmup<F: Fn(usize) -> Result<(), String>>(
    name: &str,
    shapes: &Vec<usize>,
    at_shape: &F,
    log: &mut MetricLog,
)
    requires
        forall|n: usize| call_requires(at_shape, (n,)),
    ensures
        exists|results: Seq<Result<(), String>>|
            {
                &&& results.len() == shapes@.len()
                &&& forall|i: int|
                    0 <= i < results.len() ==> call_ensures(
                        at_shape,
                        (shapes@[i],),
                        #[trigger] results[i],
                    )
                &&& final(log)@ == old(log)@ + #[trigger] shape_failures(results, name@)
            },
{
    let ghost mut results: Seq<Result<(), String>> = Seq::empty();
    let mut i: usize = 0;
    assert(old(log)@ + shape_failures(results, name@) =~= old(log)@);
    while i < shapes.len()
        invariant
            i <= shapes.len(),
            forall|n: usize| call_requires(at_shape, (n,)),
            results.len() == i,
            forall|j: int|
                0 <= j < i ==> call_ensures(at_shape, (shapes@[j],), #[trigger] results[j]),
            log@ == old(log)@ + shape_failures(results, name@),
        decreases shapes.len() - i,
    {
        let result: Result<(), String> = at_shape(shapes[i]);
        let ghost before: Seq<Result<(), String>> = results;
        proof {
            results = results.push(result);
            assert(results.drop_last() =~= before);
        }
        if result.is_err() {
            record_warmup_failed(log, name, "shape");
        }
        assert(log@ =~= old(log)@ + shape_failures(results, name@));
        i = i + 1;
    }
}

/// What is recorded of some batch sizes: each one that failed.
pub open spec fn shape_failures(results: Seq<Result<(), String>>, model: Seq<char>) -> Seq<
    UpdateView,
>
    decreases results.len(),
{
    if results.len() == 0 {
        Seq::empty()
    } else {
        let rest: Seq<UpdateView> = shape_failures(results.drop_last(), model);
        if results.last() is Err {
            rest.push(failed_update(model, "shape"@))
        } else {
            rest
        }
    }
}

proof fn lemma_some_free<T>(slots: Seq<EvictableSlot<T>>) -> (i: int)
    requires
        !all_busy(slots),
    ensures
        is_first_free(slots, i),
    decreases slots.len(),
{
    let j: int = choose|j: int| 0 <= j < slots.len() && !(#[trigger] slots[j]).busy;
    lemma_first_free(slots, j)
}

proof fn lemma_first_free<T>(slots: Seq<EvictableSlot<T>>, j: int) -> (i: int)
    requires
        0 <= j < slots.len(),
        !slots[j].busy,
    ensures
        is_first_free(slots, i),
    decreases j,
{
    if forall|k: int| 0 <= k < j ==> (#[trigger] slots[k]).busy {
        j
    } else {
        let k: int = choose|k: int| 0 <= k < j && !(#[trigger] slots[k]).busy;
        lemma_first_free(slots, k)
    }
}

/// The length of a warmup pass: that of the model where nothing is asked for,
/// else what is asked for, but at least one token and no more than the model
/// takes.
pub proof fn law_warmup_length(asked: usize, max_len: usize)
    ensures
        warmup_len(None, max_len) == max_len,
        0 < asked <= max_len ==> warmup_len(Some(asked), max_len) == asked,
        0 < max_len <= asked ==> warmup_len(Some(asked), max_len) == max_len,
        asked == 0 || max_len == 0 ==> warmup_len(Some(asked), max_len) == 1,
{
}

/// There is nothing to warm up with exactly where no text has a token.
pub proof fn law_nothing_to_warm_up_with(token_ids: Seq<Vec<u32>>, next: Vec<u32>)
    ensures
        all_empty(Seq::<Vec<u32>>::empty()),
        all_empty(token_ids.push(next)) <==> all_empty(token_ids) && next@.len() == 0,
{
    let all: Seq<Vec<u32>> = token_ids.push(next);
    if all_empty(all) {
        assert(all[token_ids.len() as int]@.len() == 0);
        assert forall|i: int| 0 <= i < token_ids.len() implies (#[trigger] token_ids[i])@.len()
            == 0 by {
            assert(all[i]@.len() == 0);
        }
    }
}

/// What is recorded of the sessions that were made: each is counted, and each
/// that failed is counted once more.
pub proof fn law_made_sessions_are_counted<T>(
    made: Seq<Result<T, String>>,
    next: Result<T, String>,
    model: Seq<char>,
)
    ensures
        made_updates(Seq::<Result<T, String>>::empty(), model).len() == 0,
        unmade(Seq::<Result<T, String>>::empty()) == 0,
        next is Ok ==> unmade(made.push(next)) == unmade(made),
        next is Err ==> unmade(made.push(next)) == unmade(made) + 1,
        next is Ok ==> made_updates(made.push(next), model) == made_updates(made, model).push(
            of_model("embed_pool_cold_starts_total"@, model, Change::CounterIncrement(1)),
        ),
        next is Err ==> made_updates(made.push(next), model) == made_updates(made, model).push(
            of_model("embed_pool_cold_starts_total"@, model, Change::CounterIncrement(1)),
        ).push(
            of_model("embed_pool_reinit_failures_total"@, model, Change::CounterIncrement(1)),
        ),
{
    assert(made.push(next).drop_last() =~= made);
}

/// What is recorded of warmup runs and sizes: each failure, in its phase.
pub proof fn law_warmup_failures_are_counted(
    outcomes: Seq<WarmOutcome>,
    outcome: WarmOutcome,
    results: Seq<Result<(), String>>,
    result: Result<(), String>,
    model: Seq<char>,
)
    ensures
        run_failures(Seq::<WarmOutcome>::empty(), model).len() == 0,
        shape_failures(Seq::<Result<(), String>>::empty(), model).len() == 0,
        outcome matches Ok(Err(_)) ==> run_failures(outcomes.push(outcome), model) == run_failures(
            outcomes,
            model,
        ).push(
            of_model_and(
                "embed_warmup_failed_total"@,
                model,
                "phase"@,
                "session"@,
                Change::CounterIncrement(1),
            ),
        ),
        outcome is Err || outcome->Ok_0 is Ok ==> run_failures(outcomes.push(outcome), model)
            == run_failures(outcomes, model),
        result is Ok ==> shape_failures(results.push(result), model) == shape_failures(
            results,
            model,
        ),
        result is Err ==> shape_failures(results.push(result), model) == shape_failures(
            results,
            model,
        ).push(
            of_model_and(
                "embed_warmup_failed_total"@,
                model,
                "phase"@,
                "shape"@,
                Change::CounterIncrement(1),
            ),
        ),
{
    assert(outcomes.push(outcome).drop_last() =~= outcomes);
    assert(results.push(result).drop_last() =~= results);
}

/// Each session that is held is out of its slot, and every other slot is as it
/// was; what is given back is the session of the guard that holds the slot.
pub proof fn law_held_sessions<T>(
    slots: Seq<EvictableSlot<T>>,
    guards: Seq<EvictableGuard<T>>,
    now: u64,
    g: int,
    i: int,
)
    requires
        0 <= g < guards.len(),
        0 <= i < slots.len(),
        guards[g].slot() < slots.len(),
        forall|h: int| 0 <= h < guards.len() && h != g ==> (#[trigger] guards[h]).slot()
            != guards[g].slot(),
    ensures
        ({
            let s: int = guards[g].slot() as int;
            &&& held_out(slots, guards, now).len() == slots.len()
            &&& all_given_back(slots, guards, now).len() == slots.len()
            &&& held_out(slots, guards, now)[s].busy
            &&& held_out(slots, guards, now)[s].item is None
            &&& held_out(slots, guards, now)[s].last_used == now
            &&& all_given_back(slots, guards, now)[s].item == Some(guards[g].item())
            &&& !all_given_back(slots, guards, now)[s].busy
            &&& all_given_back(slots, guards, now)[s].last_used == now
            &&& (forall|h: int| 0 <= h < guards.len() ==> (#[trigger] guards[h]).slot() != i) ==> {
                &&& held_out(slots, guards, now)[i] == slots[i]
                &&& all_given_back(slots, guards, now)[i] == slots[i]
            }
        }),
{
    let s: int = guards[g].slot() as int;
    assert(is_held(guards, s));
    let h: int = holder(guards, s);
    assert(0 <= h < guards.len() && guards[h].slot() == s);
}

/// The sessions that are taken are of free slots, each of another one, in the
/// order of the slots; a session that a slot had is the one that is taken.
pub proof fn law_taken_sessions<T, F: Fn() -> Result<T, String>>(
    slots: Seq<EvictableSlot<T>>,
    guards: Seq<EvictableGuard<T>>,
    factory: &F,
    made: Seq<Result<T, String>>,
    g: int,
    h: int,
    i: int,
)
    requires
        takes_all(slots, guards, factory, made),
        0 <= g < h < guards.len(),
    ensures
        guards[g].slot() < guards[h].slot() < slots.len(),
        !slots[guards[g].slot() as int].busy,
        slots[guards[g].slot() as int].item matches Some(item) ==> guards[g].item() == item,
        slots[guards[g].slot() as int].item is None ==> call_ensures(
            factory,
            (),
            Ok::<T, String>(guards[g].item()),
        ),
        0 <= i < guards[h].slot() && !slots[i].busy ==> is_held(guards, i),
        guards.len() <= slots.len(),
{
    assert(is_rightful(guards[g], slots, factory));
    assert(is_rightful(guards[h], slots, factory));
}

/// A warmup that succeeds ran each session it held once, with the one input,
/// and none of them panicked; one that fails stopped at the first that did.
pub proof fn law_every_session_is_run<T, P: Fn(&T, &PassInput) -> WarmOutcome>(
    guards: Seq<EvictableGuard<T>>,
    input: PassInput,
    run: &P,
    outcomes: Seq<WarmOutcome>,
    r: Result<(), String>,
    i: int,
)
    requires
        runs_each(guards, input, run, outcomes, r),
    ensures
        r is Ok ==> outcomes.len() == guards.len(),
        0 <= i < outcomes.len() ==> call_ensures(run, (&guards[i].item(), &input), outcomes[i]),
        r is Ok && 0 <= i < outcomes.len() ==> outcomes[i] is Ok,
        r matches Err(e) ==> outcomes.len() > 0 && outcomes.last() == Err::<
            Result<(), String>,
            String,
        >(e) && (0 <= i < outcomes.len() - 1 ==> outcomes[i] is Ok),
{
}

/// The texts of a warmup are the same word, as often as the batch is large.
pub proof fn law_placeholders(texts: Seq<String>, batch: nat, i: int)
    requires
        are_placeholders(texts, batch),
    ensures
        texts.len() == batch,
        0 <= i < batch ==> texts[i]@ == "warmup"@,
{
    assert(names_view(texts).len() == texts.len());
    if 0 <= i < batch {
        assert(names_view(texts)[i] == texts[i]@);
    }
}

/// A slot is held exactly where one of the guards is of it; a pool is warm
/// exactly where each free slot has a session; and all free slots are held
/// exactly where each of them is.
pub proof fn law_held_and_warm<T>(
    slots: Seq<EvictableSlot<T>>,
    guards: Seq<EvictableGuard<T>>,
    g: int,
    i: int,
)
    requires
        0 <= i < slots.len(),
    ensures
        0 <= g < guards.len() ==> is_held(guards, guards[g].slot() as int),
        guards.len() == 0 ==> !is_held(guards, i),
        is_warm(slots) && !slots[i].busy ==> slots[i].item is Some,
        !slots[i].busy && slots[i].item is None ==> !is_warm(slots),
        holds_all_free(guards, slots) && !slots[i].busy ==> is_held(guards, i),
        !slots[i].busy && !is_held(guards, i) ==> !holds_all_free(guards, slots),
        (forall|k: int| 0 <= k < slots.len() ==> (#[trigger] slots[k]).busy) ==> is_warm(slots)
            && holds_all_free(guards, slots),
{
}

/// As many sessions are made anew as guards are of slots that had none.
pub proof fn law_rebuilt_sessions_are_counted<T>(
    guards: Seq<EvictableGuard<T>>,
    next: EvictableGuard<T>,
    slots: Seq<EvictableSlot<T>>,
)
    ensures
        rebuilt(Seq::<EvictableGuard<T>>::empty(), slots) == 0,
        slots[next.slot() as int].item is None ==> rebuilt(guards.push(next), slots) == rebuilt(
            guards,
            slots,
        ) + 1,
        slots[next.slot() as int].item is Some ==> rebuilt(guards.push(next), slots) == rebuilt(
            guards,
            slots,
        ),
{
    assert(guards.push(next).drop_last() =~= guards);
}

} // verus!
