//! A pool of sessions in which an idle session can be freed and is made anew
//! when it is needed again.
//!
//! A slot is idle (it has its item), evicted (it has none and is not in use)
//! or in use (its item is out, in a guard). The pool itself is a plain value:
//! its owner serialises the calls, and makes a new item between
//! [`EvictablePool::claim`] and [`EvictablePool::complete`] without holding
//! up the other slots.
use vstd::prelude::*;
use vstd::string::*;
use crate::metrics::{
    of_model, record_pool_cold_start, record_pool_eviction, record_pool_reinit_failure, Change,
    MetricLog, UpdateView,
};
use crate::text::{decimal, push_decimal};

verus! {

broadcast use group_string_axioms;

/// Why no session could be acquired.
#[derive(Debug)]
pub enum AcquireError {
    /// All slots are in use.
    AllBusy,
    /// An evicted slot's item could not be made anew.
    ReinitFailed(String),
}

impl AcquireError {
    /// The error in words.
    pub open spec fn words(&self) -> Seq<char> {
        match self {
            AcquireError::AllBusy => "all pool slots are busy"@,
            AcquireError::ReinitFailed(e) => "pool slot reinit failed: "@ + e@,
        }
    }

    /// The error in words.
    pub fn message(&self) -> (r: String)
        ensures
            r@ == self.words(),
    {
        match self {
            AcquireError::AllBusy => "all pool slots are busy".to_owned(),
            AcquireError::ReinitFailed(e) => {
                let mut m: String = "pool slot reinit failed: ".to_owned();
                m.append(e.as_str());
                m
            },
        }
    }
}

/// One slot of a pool.
#[derive(Debug)]
pub struct EvictableSlot<T> {
    /// The item, while it is not out and not evicted.
    pub item: Option<T>,
    /// Whether the slot is in use.
    pub busy: bool,
    /// When the slot was last taken or given back, in seconds.
    pub last_used: u64,
}

/// The slot at which an acquire looks: the first that is not in use.
pub open spec fn is_first_free<T>(slots: Seq<EvictableSlot<T>>, i: int) -> bool {
    0 <= i < slots.len() && !slots[i].busy && forall|j: int| 0 <= j < i ==> (#[trigger] slots[j]).busy
}

/// Every slot is in use.
pub open spec fn all_busy<T>(slots: Seq<EvictableSlot<T>>) -> bool {
    forall|j: int| 0 <= j < slots.len() ==> (#[trigger] slots[j]).busy
}

/// The slots after the item of slot `i` was taken.
pub open spec fn taken<T>(slots: Seq<EvictableSlot<T>>, i: int, now: u64) -> Seq<EvictableSlot<T>> {
    slots.update(i, EvictableSlot { item: None, busy: true, last_used: now })
}

/// The slots after the item of slot `i` was given back.
pub open spec fn given_back<T>(
    slots: Seq<EvictableSlot<T>>,
    i: int,
    item: T,
    now: u64,
) -> Seq<EvictableSlot<T>> {
    slots.update(i, EvictableSlot { item: Some(item), busy: false, last_used: now })
}

/// The slot is idle, and has been so for more than `threshold` seconds. A clock
/// that went back counts as no time.
pub open spec fn is_stale<T>(slot: EvictableSlot<T>, threshold: u64, now: u64) -> bool {
    &&& !slot.busy
    &&& slot.item is Some
    &&& (if now >= slot.last_used {
        now - slot.last_used
    } else {
        0
    }) > threshold
}

/// The slots after the stale ones lost their items.
pub open spec fn swept<T>(
    slots: Seq<EvictableSlot<T>>,
    threshold: u64,
    now: u64,
) -> Seq<EvictableSlot<T>> {
    slots.map_values(
        |s: EvictableSlot<T>|
            if is_stale(s, threshold, now) {
                EvictableSlot { item: None, busy: s.busy, last_used: s.last_used }
            } else {
                s
            },
    )
}

/// The number of stale slots.
pub open spec fn stale_count<T>(slots: Seq<EvictableSlot<T>>, threshold: u64, now: u64) -> nat
    decreases slots.len(),
{
    if slots.len() == 0 {
        0
    } else {
        stale_count(slots.drop_last(), threshold, now) + if is_stale(slots.last(), threshold, now) {
            1nat
        } else {
            0nat
        }
    }
}

/// An item that is out of its slot.
#[derive(Debug)]
pub struct EvictableGuard<T> {
    slot: usize,
    item: T,
}

impl<T> EvictableGuard<T> {
    /// The slot that the item belongs to.
    pub closed spec fn slot(&self) -> usize {
        self.slot
    }

    /// The item.
    pub closed spec fn item(&self) -> T {
        self.item
    }

    /// The index of the slot in its pool.
    pub fn slot_index(&self, _pool: &EvictablePool<T>) -> (r: usize)
        ensures
            r == self.slot(),
    {
        self.slot
    }

    /// The item.
    pub fn get(&self) -> (r: &T)
        ensures
            *r == self.item(),
    {
        &self.item
    }

    /// The item, to be changed in place.
    pub fn get_mut(&mut self) -> (r: &mut T)
        ensures
            *r == old(self).item(),
            final(self).item() == *final(r),
            final(self).slot() == old(self).slot(),
    {
        &mut self.item
    }
}

/// What a claim of a slot came to.
#[derive(Debug)]
pub enum Claim<T> {
    /// The slot had its item.
    Ready(EvictableGuard<T>),
    /// The slot is evicted. It is in use from now on; the caller makes a new
    /// item and hands it to [`EvictablePool::complete`].
    Reinit(usize),
    /// No slot is free.
    AllBusy,
}

/// A pool whose idle items can be freed. With `idle_secs == 0` none ever is.
#[derive(Debug)]
pub struct EvictablePool<T> {
    slots: Vec<EvictableSlot<T>>,
    idle_secs: u64,
    model: String,
}

impl<T> EvictablePool<T> {
    /// The slots.
    pub closed spec fn slots(&self) -> Seq<EvictableSlot<T>> {
        self.slots@
    }

    /// After how many seconds an idle item is freed; `0` for never.
    pub closed spec fn idle(&self) -> u64 {
        self.idle_secs
    }

    /// The model whose sessions these are.
    pub closed spec fn model(&self) -> Seq<char> {
        self.model@
    }

    /// A slot in use has its item out.
    pub open spec fn wf(&self) -> bool {
        forall|i: int|
            0 <= i < self.slots().len() && (#[trigger] self.slots()[i]).busy
                ==> self.slots()[i].item is None
    }

    /// The same pool but for its slots.
    pub open spec fn same_but_slots(&self, other: &EvictablePool<T>) -> bool {
        self.idle() == other.idle() && self.model() == other.model()
    }

    /// A guard's item is out of the slot that the guard names.
    pub open spec fn lent(&self, slot: int) -> bool {
        0 <= slot < self.slots().len() && self.slots()[slot].busy
    }

    /// A pool of items that exist already.
    pub fn from_items(items: Vec<T>, idle_secs: u64, model: &str, now: u64) -> (r: EvictablePool<T>)
        ensures
            r.wf(),
            r.idle() == idle_secs,
            r.model() == model@,
            r.slots() == items@.map_values(
                |item: T| EvictableSlot { item: Some(item), busy: false, last_used: now },
            ),
    {
        let ghost all: Seq<T> = items@;
        let ghost idle = |item: T|
            EvictableSlot { item: Some(item), busy: false, last_used: now };
        let mut slots: Vec<EvictableSlot<T>> = Vec::new();
        for item in it: items
            invariant
                it.seq() == all,
                idle == (|item: T|
                    EvictableSlot { item: Some(item), busy: false, last_used: now }),
                slots@ =~= all.take(it.index()).map_values(idle),
        {
            slots.push(EvictableSlot { item: Some(item), busy: false, last_used: now });
        }
        assert(all.take(all.len() as int) =~= all);
        EvictablePool { slots, idle_secs, model: model.to_owned() }
    }

    /// The number of slots.
    pub fn len(&self) -> (r: usize)
        ensures
            r == self.slots().len(),
    {
        self.slots.len()
    }

    /// The seconds after which an idle item is freed.
    pub fn idle_secs(&self) -> (r: u64)
        ensures
            r == self.idle(),
    {
        self.idle_secs
    }

    fn find_free(&self) -> (r: Option<usize>)
        ensures
            match r {
                Some(i) => is_first_free(self.slots(), i as int),
                None => all_busy(self.slots()),
            },
    {
        let mut i: usize = 0;
        while i < self.slots.len()
            invariant
                i <= self.slots.len(),
                forall|j: int| 0 <= j < i ==> (#[trigger] self.slots@[j]).busy,
            decreases self.slots.len() - i,
        {
            if !self.slots[i].busy {
                return Some(i);
            }
            i = i + 1;
        }
        None
    }

    /// Claims the first slot that is not in use.
    pub fn claim(&mut self, now: u64, log: &mut MetricLog) -> (r: Claim<T>)
        requires
            old(self).wf(),
        ensures
            final(self).wf(),
            final(self).same_but_slots(old(self)),
            match r {
                Claim::Ready(guard) => {
                    let i: int = guard.slot() as int;
                    &&& is_first_free(old(self).slots(), i)
                    &&& old(self).slots()[i].item == Some(guard.item())
                    &&& final(self).slots() == taken(old(self).slots(), i, now)
                    &&& final(log)@ == old(log)@
                },
                Claim::Reinit(slot) => {
                    let i: int = slot as int;
                    &&& is_first_free(old(self).slots(), i)
                    &&& old(self).slots()[i].item is None
                    &&& final(self).slots() == old(self).slots().update(
                        i,
                        EvictableSlot {
                            item: None,
                            busy: true,
                            last_used: old(self).slots()[i].last_used,
                        },
                    )
                    &&& final(log)@ == old(log)@.push(
                        of_model(
                            "embed_pool_cold_starts_total"@,
                            old(self).model(),
                            Change::CounterIncrement(1),
                        ),
                    )
                },
                Claim::AllBusy => {
                    &&& all_busy(old(self).slots())
                    &&& final(self).slots() == old(self).slots()
                    &&& final(log)@ == old(log)@
                },
            },
    {
        let i: usize = match self.find_free() {
            Some(i) => i,
            None => return Claim::AllBusy,
        };
        let mut slot: EvictableSlot<T> = EvictableSlot { item: None, busy: true, last_used: now };
        std::mem::swap(&mut slot, &mut self.slots[i]);
        match slot.item {
            Some(item) => {
                assert(self.slots@ =~= taken(old(self).slots@, i as int, now));
                Claim::Ready(EvictableGuard { slot: i, item })
            },
            None => {
                self.slots[i].last_used = slot.last_used;
                record_pool_cold_start(log, self.model.as_str());
                assert(self.slots@ =~= old(self).slots@.update(
                    i as int,
                    EvictableSlot { item: None, busy: true, last_used: slot.last_used },
                ));
                Claim::Reinit(i)
            },
        }
    }

    /// Ends the claim of an evicted slot with the item that was made for it,
    /// or with the reason why none could be made. In that case the slot is
    /// evicted as before and can be claimed again.
    pub fn complete(
        &mut self,
        slot: usize,
        made: Result<T, String>,
        now: u64,
        log: &mut MetricLog,
    ) -> (r: Result<EvictableGuard<T>, AcquireError>)
        requires
            old(self).wf(),
            old(self).lent(slot as int),
        ensures
            final(self).wf(),
            final(self).same_but_slots(old(self)),
            match made {
                Ok(item) => {
                    &&& r matches Ok(guard) && guard.slot() == slot && guard.item() == item
                    &&& final(self).slots() == taken(old(self).slots(), slot as int, now)
                    &&& final(log)@ == old(log)@
                },
                Err(e) => {
                    &&& r == Err::<EvictableGuard<T>, AcquireError>(AcquireError::ReinitFailed(e))
                    &&& final(self).slots() == old(self).slots().update(
                        slot as int,
                        EvictableSlot {
                            item: None,
                            busy: false,
                            last_used: old(self).slots()[slot as int].last_used,
                        },
                    )
                    &&& final(log)@ == old(log)@.push(
                        of_model(
                            "embed_pool_reinit_failures_total"@,
                            old(self).model(),
                            Change::CounterIncrement(1),
                        ),
                    )
                },
            },
    {
        match made {
            Ok(item) => {
                self.slots[slot].last_used = now;
                assert(self.slots@ =~= taken(old(self).slots@, slot as int, now));
                Ok(EvictableGuard { slot, item })
            },
            Err(e) => {
                self.slots[slot].busy = false;
                record_pool_reinit_failure(log, self.model.as_str());
                Err(AcquireError::ReinitFailed(e))
            },
        }
    }

    /// Acquires the first slot that is not in use; an evicted one gets a new
    /// item from `factory`.
    pub fn acquire<F: Fn() -> Result<T, String>>(
        &mut self,
        factory: &F,
        now: u64,
        log: &mut MetricLog,
    ) -> (r: Result<EvictableGuard<T>, AcquireError>)
        requires
            old(self).wf(),
            call_requires(factory, ()),
        ensures
            final(self).wf(),
            final(self).same_but_slots(old(self)),
            r matches Ok(guard) ==> is_first_free(old(self).slots(), guard.slot() as int)
                && final(self).slots() == taken(old(self).slots(), guard.slot() as int, now) && (
            old(self).slots()[guard.slot() as int].item == Some(guard.item()) || (
            old(self).slots()[guard.slot() as int].item is None && call_ensures(
                factory,
                (),
                Ok::<T, String>(guard.item()),
            ))),
            r matches Err(AcquireError::ReinitFailed(e)) ==> call_ensures(
                factory,
                (),
                Err::<T, String>(e),
            ) && final(self).slots() == old(self).slots() && exists|i: int| #[trigger]
                is_first_free(old(self).slots(), i) && old(self).slots()[i].item is None,
            r == Err::<EvictableGuard<T>, AcquireError>(AcquireError::AllBusy) <==> all_busy(
                old(self).slots(),
            ),
            all_busy(old(self).slots()) ==> final(self).slots() == old(self).slots(),
            forall|i: int| #[trigger]
                is_first_free(old(self).slots(), i) && old(self).slots()[i].item is Some ==> r is Ok,
            all_busy(old(self).slots()) ==> final(log)@ == old(log)@,
            forall|i: int| #[trigger]
                is_first_free(old(self).slots(), i) ==> final(log)@ == old(log)@ + acquire_updates(
                    old(self).slots()[i].item is Some,
                    r is Ok,
                    old(self).model(),
                ),
    {
        let ghost before: Seq<UpdateView> = log@;
        assert(before + Seq::<UpdateView>::empty() =~= before);
        match self.claim(now, log) {
            Claim::Ready(guard) => Ok(guard),
            Claim::AllBusy => Err(AcquireError::AllBusy),
            Claim::Reinit(slot) => {
                let made: Result<T, String> = factory();
                let r: Result<EvictableGuard<T>, AcquireError> = self.complete(
                    slot,
                    made,
                    now,
                    log,
                );
                proof {
                    assert(log@ =~= before + acquire_updates(
                        false,
                        r is Ok,
                        old(self).model@,
                    ));
                    if r is Ok {
                        assert(self.slots@ =~= taken(old(self).slots@, slot as int, now));
                    } else {
                        assert(self.slots@ =~= old(self).slots@);
                    }
                }
                r
            },
        }
    }

    /// Gives an item back to its slot.
    pub fn release(&mut self, guard: EvictableGuard<T>, now: u64)
        requires
            old(self).wf(),
            old(self).lent(guard.slot() as int),
        ensures
            final(self).wf(),
            final(self).same_but_slots(old(self)),
            final(self).slots() == given_back(
                old(self).slots(),
                guard.slot() as int,
                guard.item(),
                now,
            ),
    {
        let i: usize = guard.slot;
        self.slots[i] = EvictableSlot { item: Some(guard.item), busy: false, last_used: now };
    }

    /// Frees the items that have been idle for longer than `threshold_secs`, and
    /// returns their number. A pool that never frees items returns `0`.
    pub fn evict_idle(&mut self, threshold_secs: u64, now: u64, log: &mut MetricLog) -> (r: usize)
        requires
            old(self).wf(),
        ensures
            final(self).wf(),
            final(self).same_but_slots(old(self)),
            old(self).idle() == 0 ==> r == 0 && final(self).slots() == old(self).slots()
                && final(log)@ == old(log)@,
            old(self).idle() != 0 ==> {
                &&& r == stale_count(old(self).slots(), threshold_secs, now)
                &&& final(self).slots() == swept(old(self).slots(), threshold_secs, now)
                &&& final(log)@ == old(log)@ + Seq::new(
                    r as nat,
                    |i: int| eviction_update(old(self).model()),
                )
            },
    {
        if self.idle_secs == 0 {
            return 0;
        }
        let ghost all: Seq<EvictableSlot<T>> = self.slots@;
        let ghost before: Seq<UpdateView> = log@;
        let ghost model: Seq<char> = self.model@;
        let n: usize = self.slots.len();
        let mut count: usize = 0;
        let mut i: usize = 0;
        assert(before + Seq::new(0, |j: int| eviction_update(model)) =~= before);
        while i < n
            invariant
                i <= n,
                n == all.len(),
                n == self.slots.len(),
                count <= i,
                model == self.model@,
                self.idle_secs == old(self).idle_secs,
                self.model@ == old(self).model@,
                forall|j: int|
                    0 <= j < i ==> #[trigger] self.slots@[j] == swept(all, threshold_secs, now)[j],
                forall|j: int| i <= j < n ==> #[trigger] self.slots@[j] == all[j],
                count == stale_count(all.take(i as int), threshold_secs, now),
                log@ == before + Seq::new(count as nat, |j: int| eviction_update(model)),
            decreases n - i,
        {
            proof {
                assert(all.take(i + 1).drop_last() =~= all.take(i as int));
                assert(all.take(i + 1).last() == all[i as int]);
            }
            let age: u64 = now.saturating_sub(self.slots[i].last_used);
            if !self.slots[i].busy && age > threshold_secs && self.slots[i].item.is_some() {
                assert(is_stale(all[i as int], threshold_secs, now));
                self.slots[i].item = None;
                record_pool_eviction(log, self.model.as_str());
                count = count + 1;
                assert(log@ =~= before + Seq::new(
                    count as nat,
                    |j: int| eviction_update(model),
                ));
            } else {
                assert(!is_stale(all[i as int], threshold_secs, now));
            }
            i = i + 1;
        }
        proof {
            assert(all.take(n as int) =~= all);
            assert(self.slots@ =~= swept(all, threshold_secs, now));
        }
        count
    }

    /// Sets the time of last use of every slot to `secs` seconds before `now`.
    pub fn force_last_used_ago(&mut self, secs: u64, now: u64)
        ensures
            final(self).same_but_slots(old(self)),
            old(self).wf() ==> final(self).wf(),
            final(self).slots() == old(self).slots().map_values(
                |s: EvictableSlot<T>|
                    EvictableSlot {
                        item: s.item,
                        busy: s.busy,
                        last_used: if secs > now {
                            0
                        } else {
                            (now - secs) as u64
                        },
                    },
            ),
    {
        let ghost all: Seq<EvictableSlot<T>> = self.slots@;
        let past: u64 = now.saturating_sub(secs);
        let n: usize = self.slots.len();
        let mut i: usize = 0;
        while i < n
            invariant
                i <= n,
                n == all.len(),
                n == self.slots.len(),
                self.idle_secs == old(self).idle_secs,
                self.model@ == old(self).model@,
                forall|j: int|
                    0 <= j < i ==> #[trigger] self.slots@[j] == (EvictableSlot {
                        item: all[j].item,
                        busy: all[j].busy,
                        last_used: past,
                    }),
                forall|j: int| i <= j < n ==> #[trigger] self.slots@[j] == all[j],
            decreases n - i,
        {
            self.slots[i].last_used = past;
            i = i + 1;
        }
        proof {
            assert(self.slots@ =~= all.map_values(
                |s: EvictableSlot<T>|
                    EvictableSlot {
                        item: s.item,
                        busy: s.busy,
                        last_used: if secs > now {
                            0
                        } else {
                            (now - secs) as u64
                        },
                    },
            ));
        }
    }

    /// Whether a slot is without its item.
    pub fn slot_is_evicted(&self, idx: usize) -> (r: bool)
        requires
            idx < self.slots().len(),
        ensures
            r == (self.slots()[idx as int].item is None),
    {
        self.slots[idx].item.is_none()
    }

    /// Whether a slot is in use.
    pub fn slot_is_busy(&self, idx: usize) -> (r: bool)
        requires
            idx < self.slots().len(),
        ensures
            r == self.slots()[idx as int].busy,
    {
        self.slots[idx].busy
    }
}

/// `factory` made these items, and then failed.
pub open spec fn fails_after<T, F: Fn() -> Result<T, String>>(
    factory: &F,
    made: Seq<T>,
    e: String,
) -> bool {
    &&& forall|i: int|
        0 <= i < made.len() ==> call_ensures(factory, (), Ok::<T, String>(#[trigger] made[i]))
    &&& call_ensures(factory, (), Err::<T, String>(e))
}

/// How a pool is filled: with items of `factory`, all of them idle, or not at
/// all where an item cannot be made. The message says how many there were by
/// then.
pub open spec fn is_filled<T, F: Fn() -> Result<T, String>>(
    model: Seq<char>,
    pool_size: usize,
    idle_secs: u64,
    factory: &F,
    now: u64,
    r: Result<EvictablePool<T>, String>,
) -> bool {
    match r {
        Ok(pool) => {
            &&& pool.wf()
            &&& pool.idle() == idle_secs
            &&& pool.model() == model
            &&& pool.slots().len() == pool_size
            &&& forall|i: int|
                0 <= i < pool_size ==> {
                    let slot: EvictableSlot<T> = #[trigger] pool.slots()[i];
                    &&& !slot.busy
                    &&& slot.last_used == now
                    &&& slot.item is Some
                    &&& call_ensures(factory, (), Ok::<T, String>(slot.item->0))
                }
        },
        Err(m) => exists|made: Seq<T>, e: String| #[trigger]
            fails_after(factory, made, e) && made.len() < pool_size && m@ == slot_error(
                made.len(),
                e@,
            ),
    }
}

/// A pool that is filled with items of `factory`.
pub fn build_evictable_pool<T, F: Fn() -> Result<T, String>>(
    model: &str,
    pool_size: usize,
    idle_secs: u64,
    factory: &F,
    now: u64,
) -> (r: Result<EvictablePool<T>, String>)
    requires
        call_requires(factory, ()),
    ensures
        is_filled(model@, pool_size, idle_secs, factory, now, r),
{
    let mut items: Vec<T> = Vec::new();
    let mut i: usize = 0;
    while i < pool_size
        invariant
            i <= pool_size,
            items@.len() == i,
            call_requires(factory, ()),
            forall|j: int|
                0 <= j < i ==> call_ensures(factory, (), Ok::<T, String>(#[trigger] items@[j])),
        decreases pool_size - i,
    {
        match factory() {
            Ok(item) => {
                items.push(item);
            },
            Err(e) => {
                let mut m: String = "embed session #".to_owned();
                push_decimal(&mut m, i as u64);
                m.append(" failed: ");
                m.append(e.as_str());
                assert(fails_after(factory, items@, e) && m@ == slot_error(i as nat, e@));
                return Err(m);
            },
        }
        i = i + 1;
    }
    let ghost all: Seq<T> = items@;
    let pool: EvictablePool<T> = EvictablePool::from_items(items, idle_secs, model, now);
    proof {
        assert forall|j: int| 0 <= j < pool_size implies ({
            let slot: EvictableSlot<T> = #[trigger] pool.slots()[j];
            &&& !slot.busy
            &&& slot.last_used == now
            &&& slot.item is Some
            &&& call_ensures(factory, (), Ok::<T, String>(slot.item->0))
        }) by {
            assert(pool.slots()[j].item == Some(all[j]));
        }
    }
    Ok(pool)
}

/// The message for an item that could not be made when a pool was filled.
pub open spec fn slot_error(i: nat, e: Seq<char>) -> Seq<char> {
    "embed session #"@ + decimal(i) + " failed: "@ + e
}

/// What an acquire records: a new item where the slot was evicted, and its
/// failure.
pub open spec fn acquire_updates(had_item: bool, acquired: bool, model: Seq<char>) -> Seq<
    UpdateView,
> {
    let cold: UpdateView = of_model(
        "embed_pool_cold_starts_total"@,
        model,
        Change::CounterIncrement(1),
    );
    if had_item {
        Seq::empty()
    } else if acquired {
        seq![cold]
    } else {
        seq![
            cold,
            of_model("embed_pool_reinit_failures_total"@, model, Change::CounterIncrement(1)),
        ]
    }
}

/// The update for one freed item.
pub open spec fn eviction_update(model: Seq<char>) -> UpdateView {
    of_model("embed_pool_evictions_total"@, model, Change::CounterIncrement(1))
}

/// How often idle items are looked for, in seconds: four times within the idle
/// time, but no more often than every five seconds.
pub fn eviction_tick_secs(idle_secs: u64) -> (r: u64)
    ensures
        r == if idle_secs / 4 > 5 {
            idle_secs / 4
        } else {
            5
        },
{
    if idle_secs / 4 > 5 {
        idle_secs / 4
    } else {
        5
    }
}

/// Giving an item back undoes its taking: only the time of last use changes.
pub proof fn law_release_undoes_acquire<T>(
    slots: Seq<EvictableSlot<T>>,
    i: int,
    taken_at: u64,
    given_at: u64,
)
    requires
        0 <= i < slots.len(),
        !slots[i].busy,
        slots[i].item is Some,
    ensures
        given_back(taken(slots, i, taken_at), i, slots[i].item->0, given_at) == slots.update(
            i,
            EvictableSlot { item: slots[i].item, busy: false, last_used: given_at },
        ),
{
    assert(given_back(taken(slots, i, taken_at), i, slots[i].item->0, given_at) =~= slots.update(
        i,
        EvictableSlot { item: slots[i].item, busy: false, last_used: given_at },
    ));
}

/// A slot whose item is out is not taken again before it is given back: the
/// next acquire looks at another slot.
pub proof fn law_taken_slot_is_not_free<T>(
    slots: Seq<EvictableSlot<T>>,
    i: int,
    j: int,
    now: u64,
)
    requires
        is_first_free(slots, i),
        is_first_free(taken(slots, i, now), j),
    ensures
        j > i,
{
    if j <= i {
        assert(taken(slots, i, now)[j].busy);
    }
}

/// Freeing never touches a slot in use, and leaves nothing to free a second
/// time.
pub proof fn law_sweep_spares_busy_and_is_idempotent<T>(
    slots: Seq<EvictableSlot<T>>,
    threshold: u64,
    now: u64,
)
    ensures
        forall|i: int|
            0 <= i < slots.len() && (#[trigger] slots[i]).busy ==> swept(slots, threshold, now)[i]
                == slots[i],
        swept(swept(slots, threshold, now), threshold, now) == swept(slots, threshold, now),
        stale_count(swept(slots, threshold, now), threshold, now) == 0,
{
    let once: Seq<EvictableSlot<T>> = swept(slots, threshold, now);
    assert forall|i: int| 0 <= i < once.len() implies !is_stale(
        #[trigger] once[i],
        threshold,
        now,
    ) by {
        assert(once[i] == if is_stale(slots[i], threshold, now) {
            EvictableSlot {
                item: None,
                busy: slots[i].busy,
                last_used: slots[i].last_used,
            }
        } else {
            slots[i]
        });
    }
    assert(swept(once, threshold, now) =~= once);
    lemma_no_stale(once, threshold, now);
}

proof fn lemma_no_stale<T>(slots: Seq<EvictableSlot<T>>, threshold: u64, now: u64)
    requires
        forall|i: int| 0 <= i < slots.len() ==> !is_stale(#[trigger] slots[i], threshold, now),
    ensures
        stale_count(slots, threshold, now) == 0,
    decreases slots.len(),
{
    if slots.len() > 0 {
        assert forall|i: int| 0 <= i < slots.drop_last().len() implies !is_stale(
            #[trigger] slots.drop_last()[i],
            threshold,
            now,
        ) by {
            assert(slots.drop_last()[i] == slots[i]);
        }
        lemma_no_stale(slots.drop_last(), threshold, now);
        assert(slots.last() == slots[slots.len() - 1]);
    }
}

/// Idle items are freed exactly where nobody uses them and they were last used
/// longer ago than allowed; nothing else about any slot changes.
pub proof fn law_only_idle_items_are_freed<T>(
    slots: Seq<EvictableSlot<T>>,
    threshold: u64,
    now: u64,
    i: int,
)
    requires
        0 <= i < slots.len(),
    ensures
        ({
            let after: Seq<EvictableSlot<T>> = swept(slots, threshold, now);
            &&& after.len() == slots.len()
            &&& after[i].busy == slots[i].busy
            &&& after[i].last_used == slots[i].last_used
            &&& !slots[i].busy && now > slots[i].last_used && now - slots[i].last_used > threshold
                ==> after[i].item is None
            &&& slots[i].busy || now <= slots[i].last_used || now - slots[i].last_used <= threshold
                ==> after[i].item == slots[i].item
        }),
{
}

/// As many items are freed as slots lose theirs.
pub proof fn law_freed_items_are_counted<T>(
    slots: Seq<EvictableSlot<T>>,
    next: EvictableSlot<T>,
    threshold: u64,
    now: u64,
)
    ensures
        stale_count(Seq::<EvictableSlot<T>>::empty(), threshold, now) == 0,
        !next.busy && next.item is Some && now > next.last_used && now - next.last_used > threshold
            ==> stale_count(slots.push(next), threshold, now) == stale_count(slots, threshold, now)
            + 1,
        next.busy || next.item is None || now <= next.last_used || now - next.last_used <= threshold
            ==> stale_count(slots.push(next), threshold, now) == stale_count(slots, threshold, now),
        stale_count(slots, threshold, now) <= slots.len(),
    decreases slots.len(),
{
    assert(slots.push(next).drop_last() =~= slots);
    if slots.len() > 0 {
        law_freed_items_are_counted(slots.drop_last(), next, threshold, now);
    }
}

/// Taking marks the slot as busy and empties it, giving back puts the item there
/// and marks it as free, each at its time; every other slot stays as it was. The
/// slot that is taken is the first one that is free.
pub proof fn law_taking_and_giving_back<T>(
    slots: Seq<EvictableSlot<T>>,
    i: int,
    j: int,
    item: T,
    now: u64,
)
    requires
        0 <= i < slots.len(),
        0 <= j < slots.len(),
    ensures
        taken(slots, i, now)[i].busy,
        taken(slots, i, now)[i].item is None,
        taken(slots, i, now)[i].last_used == now,
        j != i ==> taken(slots, i, now)[j] == slots[j],
        !given_back(slots, i, item, now)[i].busy,
        given_back(slots, i, item, now)[i].item == Some(item),
        given_back(slots, i, item, now)[i].last_used == now,
        j != i ==> given_back(slots, i, item, now)[j] == slots[j],
        taken(slots, i, now).len() == slots.len(),
        given_back(slots, i, item, now).len() == slots.len(),
        is_first_free(slots, i) ==> !slots[i].busy && (j < i ==> slots[j].busy),
        !slots[i].busy && (forall|k: int| 0 <= k < i ==> (#[trigger] slots[k]).busy)
            ==> is_first_free(slots, i),
        all_busy(slots) ==> slots[j].busy,
        all_busy(slots) ==> !is_first_free(slots, i),
{
}

/// A pool that was filled has as many slots as asked for, all of them free and
/// each with an item of the factory's.
pub proof fn law_filled_pool<T, F: Fn() -> Result<T, String>>(
    model: Seq<char>,
    pool_size: usize,
    idle_secs: u64,
    factory: &F,
    now: u64,
    pool: EvictablePool<T>,
    i: int,
)
    requires
        is_filled(model, pool_size, idle_secs, factory, now, Ok::<EvictablePool<T>, String>(pool)),
        0 <= i < pool_size,
    ensures
        pool.slots().len() == pool_size,
        pool.idle() == idle_secs,
        pool.model() == model,
        !pool.slots()[i].busy,
        pool.slots()[i].last_used == now,
        pool.slots()[i].item matches Some(item) && call_ensures(
            factory,
            (),
            Ok::<T, String>(item),
        ),
{
}

/// A start from cold is counted where a slot had no item, and its failure where
/// none was made.
pub proof fn law_cold_starts(had_item: bool, acquired: bool, model: Seq<char>)
    ensures
        had_item ==> acquire_updates(had_item, acquired, model).len() == 0,
        !had_item ==> acquire_updates(had_item, acquired, model)[0].name
            == "embed_pool_cold_starts_total"@,
        !had_item && acquired ==> acquire_updates(had_item, acquired, model).len() == 1,
        !had_item && !acquired ==> acquire_updates(had_item, acquired, model).len() == 2
            && acquire_updates(had_item, acquired, model)[1].name
            == "embed_pool_reinit_failures_total"@,
{
}

/// What is said of a session that was not to be had, and of one that could not
/// be made.
pub proof fn law_words_of_the_pool(e: String, i: nat)
    ensures
        AcquireError::AllBusy.words() == "all pool slots are busy"@,
        AcquireError::ReinitFailed(e).words() == "pool slot reinit failed: "@ + e@,
        slot_error(i, e@) == "embed session #"@ + decimal(i) + " failed: "@ + e@,
{
}

/// Each session that is given up is counted, for its model.
pub proof fn law_evictions_are_counted(model: Seq<char>)
    ensures
        eviction_update(model).name == "embed_pool_evictions_total"@,
        eviction_update(model).labels == seq![("model"@, model)],
        eviction_update(model).change == Change::CounterIncrement(1),
{
}

/// Of a pool that is in order, no slot in use holds a session, and a slot is
/// lent exactly where it is one in use.
pub proof fn law_slots_in_use<T>(pool: EvictablePool<T>, i: int)
    ensures
        pool.wf() && 0 <= i < pool.slots().len() && pool.slots()[i].item is Some
            ==> !pool.slots()[i].busy,
        pool.lent(i) <==> 0 <= i < pool.slots().len() && pool.slots()[i].busy,
        pool.slots().len() == 0 ==> pool.wf(),
{
}

/// Two pools are the same but for their slots exactly where they have the same
/// model and give idle sessions up after the same time.
pub proof fn law_same_but_slots<T>(a: EvictablePool<T>, b: EvictablePool<T>)
    ensures
        a.same_but_slots(&b) <==> a.idle() == b.idle() && a.model() == b.model(),
{
}

/// A pool that could not be filled failed at the first session that could not be
/// made, behind fewer than were asked for, and says which one it was and why.
pub proof fn law_unfilled_pool<T, F: Fn() -> Result<T, String>>(
    model: Seq<char>,
    pool_size: usize,
    idle_secs: u64,
    factory: &F,
    now: u64,
    m: String,
) -> (r: (Seq<T>, String))
    requires
        is_filled(model, pool_size, idle_secs, factory, now, Err::<EvictablePool<T>, String>(m)),
    ensures
        r.0.len() < pool_size,
        call_ensures(factory, (), Err::<T, String>(r.1)),
        forall|i: int|
            0 <= i < r.0.len() ==> call_ensures(factory, (), Ok::<T, String>(#[trigger] r.0[i])),
        m@ == "embed session #"@ + decimal(r.0.len()) + " failed: "@ + r.1@,
{
    choose|made: Seq<T>, e: String| #[trigger]
        fails_after(factory, made, e) && made.len() < pool_size && m@ == slot_error(
            made.len(),
            e@,
        )
}

} // verus!
