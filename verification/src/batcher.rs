//! Dynamic batching: requests that arrive close together share one inference.
//!
//! A batch is filled under a budget of tokens and of texts. The first item of
//! a batch is always admitted; a later one that does not fit is deferred to
//! the next batch, of which it is then the first.
use vstd::prelude::*;
use vstd::string::*;
use crate::metrics::{
    of_model, record_batch_tokens, record_cancelled, record_carry, record_inference,
    record_padding_waste, record_queue_rejected, waste, Amount, Change, MetricLog, UpdateView,
};
use crate::text::{decimal, push_decimal};

verus! {

broadcast use group_string_axioms;

/// A batcher's queue is full.
#[derive(Debug)]
pub struct QueueFullError {
    pub batcher_name: String,
}

impl QueueFullError {
    /// The error in words.
    pub open spec fn words(&self) -> Seq<char> {
        "batcher '"@ + self.batcher_name@ + "' queue is full"@
    }

    /// The error in words.
    pub fn message(&self) -> (r: String)
        ensures
            r@ == self.words(),
    {
        let mut m: String = "batcher '".to_owned();
        m.append(self.batcher_name.as_str());
        m.append("' queue is full");
        m
    }
}

/// Why a request got no vectors.
#[derive(Debug)]
pub enum BatchError {
    QueueFull(QueueFullError),
    Inference(String),
    Shutdown,
}

impl BatchError {
    /// The error in words.
    pub open spec fn words(&self) -> Seq<char> {
        match self {
            BatchError::QueueFull(e) => "queue full: "@ + e.words(),
            BatchError::Inference(msg) => "inference error: "@ + msg@,
            BatchError::Shutdown => "batcher shut down"@,
        }
    }

    /// The error in words.
    pub fn message(&self) -> (r: String)
        ensures
            r@ == self.words(),
    {
        match self {
            BatchError::QueueFull(e) => {
                let mut m: String = "queue full: ".to_owned();
                let inner: String = e.message();
                m.append(inner.as_str());
                m
            },
            BatchError::Inference(msg) => {
                let mut m: String = "inference error: ".to_owned();
                m.append(msg.as_str());
                m
            },
            BatchError::Shutdown => "batcher shut down".to_owned(),
        }
    }
}

/// The longest of some token sequences; `0` where there is none.
pub open spec fn longest(ids: Seq<Vec<u32>>) -> nat
    decreases ids.len(),
{
    if ids.len() == 0 {
        0
    } else {
        let rest: nat = longest(ids.drop_last());
        let last: nat = ids.last()@.len();
        if last > rest {
            last
        } else {
            rest
        }
    }
}

/// The tokens of some token sequences.
pub open spec fn token_sum(ids: Seq<Vec<u32>>) -> nat
    decreases ids.len(),
{
    if ids.len() == 0 {
        0
    } else {
        token_sum(ids.drop_last()) + ids.last()@.len()
    }
}

/// `n`, but no more than the largest `usize`.
pub open spec fn clamped(n: nat) -> usize {
    if n > usize::MAX {
        usize::MAX
    } else {
        n as usize
    }
}

/// The longest of some token sequences.
pub fn max_seq_len_of(ids: &Vec<Vec<u32>>) -> (r: usize)
    ensures
        r == longest(ids@),
{
    let mut best: usize = 0;
    let mut i: usize = 0;
    while i < ids.len()
        invariant
            i <= ids.len(),
            best == longest(ids@.take(i as int)),
        decreases ids.len() - i,
    {
        proof {
            assert(ids@.take(i + 1).drop_last() =~= ids@.take(i as int));
        }
        if ids[i].len() > best {
            best = ids[i].len();
        }
        i = i + 1;
    }
    assert(ids@.take(i as int) =~= ids@);
    best
}

/// The tokens of some token sequences.
pub fn total_tokens_of(ids: &Vec<Vec<u32>>) -> (r: usize)
    ensures
        r == clamped(token_sum(ids@)),
{
    let mut sum: usize = 0;
    let mut i: usize = 0;
    while i < ids.len()
        invariant
            i <= ids.len(),
            sum == clamped(token_sum(ids@.take(i as int))),
        decreases ids.len() - i,
    {
        proof {
            assert(ids@.take(i + 1).drop_last() =~= ids@.take(i as int));
        }
        sum = sum.saturating_add(ids[i].len());
        i = i + 1;
    }
    assert(ids@.take(i as int) =~= ids@);
    sum
}

/// One request: a token sequence per text, and where the answer goes.
#[derive(Debug)]
pub struct Item<R> {
    pub token_ids: Vec<Vec<u32>>,
    pub reply: R,
}

impl<R> Item<R> {
    /// The number of texts.
    pub fn n_texts(&self) -> (r: usize)
        ensures
            r == self.token_ids@.len(),
    {
        self.token_ids.len()
    }

    /// The longest token sequence.
    pub fn max_seq_len(&self) -> (r: usize)
        ensures
            r == longest(self.token_ids@),
    {
        max_seq_len_of(&self.token_ids)
    }

    /// The tokens of all texts, without padding.
    pub fn total_tokens(&self) -> (r: usize)
        ensures
            r == clamped(token_sum(self.token_ids@)),
    {
        total_tokens_of(&self.token_ids)
    }
}

/// The budget of a batch.
#[derive(Clone, Copy, Debug)]
pub struct BatcherConfig {
    /// The tokens of a batch must stay strictly below this number.
    pub max_batch_tokens: usize,
    /// The texts of a batch must not be more than this number.
    pub max_batch_items: usize,
    /// True for models that pad every sequence of a batch to the longest one.
    pub padded_model: bool,
    /// How long a batch waits for further items.
    pub wait_ms: u64,
}

/// The texts of some items.
pub open spec fn texts<R>(batch: Seq<Item<R>>) -> nat
    decreases batch.len(),
{
    if batch.len() == 0 {
        0
    } else {
        texts(batch.drop_last()) + batch.last().token_ids@.len()
    }
}

/// The longest sequence of some items.
pub open spec fn longest_of<R>(batch: Seq<Item<R>>) -> nat
    decreases batch.len(),
{
    if batch.len() == 0 {
        0
    } else {
        let rest: nat = longest_of(batch.drop_last());
        let last: nat = longest(batch.last().token_ids@);
        if last > rest {
            last
        } else {
            rest
        }
    }
}

/// The tokens of some items, without padding.
pub open spec fn tokens_of<R>(batch: Seq<Item<R>>) -> nat
    decreases batch.len(),
{
    if batch.len() == 0 {
        0
    } else {
        tokens_of(batch.drop_last()) + token_sum(batch.last().token_ids@)
    }
}

/// What a batch costs: with padding, its longest sequence for each text; else
/// its tokens.
pub open spec fn cost<R>(batch: Seq<Item<R>>, cfg: BatcherConfig) -> nat {
    if cfg.padded_model {
        longest_of(batch) * texts(batch)
    } else {
        tokens_of(batch)
    }
}

/// The batch is under both caps.
pub open spec fn within_budget<R>(batch: Seq<Item<R>>, cfg: BatcherConfig) -> bool {
    texts(batch) <= cfg.max_batch_items && cost(batch, cfg) < cfg.max_batch_tokens
}

/// No item can join the batch any more.
pub open spec fn saturated<R>(batch: Seq<Item<R>>, cfg: BatcherConfig) -> bool {
    texts(batch) >= cfg.max_batch_items || cost(batch, cfg) >= cfg.max_batch_tokens
}

/// Running sums over the items of a batch.
#[derive(Debug)]
pub struct BatchAccum {
    /// The number of texts.
    pub items: usize,
    /// The longest sequence.
    pub max_len: usize,
    /// The tokens without padding.
    pub total_tokens: usize,
}

impl Default for BatchAccum {
    fn default() -> (r: BatchAccum)
        ensures
            r.items == 0 && r.max_len == 0 && r.total_tokens == 0,
    {
        BatchAccum { items: 0, max_len: 0, total_tokens: 0 }
    }
}

fn product(a: usize, b: usize) -> (r: usize)
    ensures
        r == clamped((a * b) as nat),
{
    match a.checked_mul(b) {
        Some(n) => n,
        None => usize::MAX,
    }
}

impl BatchAccum {
    /// The sums are those of the batch.
    pub open spec fn sums<R>(&self, batch: Seq<Item<R>>) -> bool {
        &&& self.items == texts(batch)
        &&& self.max_len == longest_of(batch)
        &&& self.total_tokens == clamped(tokens_of(batch))
    }

    /// Adds an item to the sums.
    pub fn push<R>(&mut self, item: &Item<R>)
        requires
            old(self).items + item.token_ids@.len() <= usize::MAX,
        ensures
            final(self).items == old(self).items + item.token_ids@.len(),
            final(self).max_len == if longest(item.token_ids@) > old(self).max_len {
                longest(item.token_ids@)
            } else {
                old(self).max_len as nat
            },
            final(self).total_tokens == clamped(
                (old(self).total_tokens + token_sum(item.token_ids@)) as nat,
            ),
    {
        self.items = self.items + item.n_texts();
        let len: usize = item.max_seq_len();
        if len > self.max_len {
            self.max_len = len;
        }
        self.total_tokens = self.total_tokens.saturating_add(item.total_tokens());
    }

    /// Whether an item can join: the texts stay within their cap, and the
    /// tokens strictly below theirs.
    pub fn fits<R>(&self, item: &Item<R>, cfg: &BatcherConfig) -> (r: bool)
        ensures
            r == ({
                let items: int = self.items + item.token_ids@.len();
                let len: int = if longest(item.token_ids@) > self.max_len {
                    longest(item.token_ids@) as int
                } else {
                    self.max_len as int
                };
                let tokens: int = if cfg.padded_model {
                    len * items
                } else {
                    self.total_tokens + token_sum(item.token_ids@)
                };
                items <= cfg.max_batch_items && tokens < cfg.max_batch_tokens
            }),
    {
        let new_items: usize = match self.items.checked_add(item.n_texts()) {
            Some(n) => n,
            None => return false,
        };
        if new_items > cfg.max_batch_items {
            return false;
        }
        let len: usize = item.max_seq_len();
        let new_max: usize = if len > self.max_len {
            len
        } else {
            self.max_len
        };
        let total: usize = if cfg.padded_model {
            proof {
                assert(new_max * new_items >= 0) by (nonlinear_arith)
                    requires
                        new_max >= 0,
                        new_items >= 0,
                ;
            }
            product(new_max, new_items)
        } else {
            self.total_tokens.saturating_add(item.total_tokens())
        };
        total < cfg.max_batch_tokens
    }
}

/// What a worker does next.
#[derive(Clone, Copy, Debug, PartialEq, Eq, Structural)]
pub enum Action {
    /// Wait for an item, however long it takes.
    Receive,
    /// Wait for a further item until the batch's window closes.
    Coalesce,
    /// Cut the batch and dispatch it.
    Dispatch,
    /// Stop: no item can come any more.
    Stop,
}

/// The items that are not cancelled, in order.
pub open spec fn live<R>(batch: Seq<Item<R>>, cancelled: Seq<bool>) -> Seq<Item<R>>
    decreases batch.len(),
{
    if batch.len() == 0 {
        Seq::empty()
    } else {
        let rest: Seq<Item<R>> = live(batch.drop_last(), cancelled);
        if cancelled[batch.len() - 1] {
            rest
        } else {
            rest.push(batch.last())
        }
    }
}

/// The number of cancelled items among the first `n`.
pub open spec fn cancelled_count(cancelled: Seq<bool>, n: nat) -> nat
    decreases n,
{
    if n == 0 {
        0
    } else if cancelled[n - 1] {
        cancelled_count(cancelled, (n - 1) as nat) + 1
    } else {
        cancelled_count(cancelled, (n - 1) as nat)
    }
}

/// The update for one cancelled item.
pub open spec fn cancelled_update(name: Seq<char>) -> UpdateView {
    of_model("embed_batcher_cancelled_items_total"@, name, Change::CounterIncrement(1))
}

/// What the cut of a batch records: each cancelled item and, where an item is
/// left, the batch's cost and padding.
pub open spec fn cut_updates<R>(
    batch: Seq<Item<R>>,
    cancelled: Seq<bool>,
    cfg: BatcherConfig,
    name: Seq<char>,
) -> Seq<UpdateView> {
    let gone: Seq<UpdateView> = Seq::new(
        cancelled_count(cancelled, batch.len()),
        |i: int| cancelled_update(name),
    );
    if live(batch, cancelled).len() == 0 {
        gone
    } else {
        let raw: usize = clamped(tokens_of(batch));
        let padded: usize = clamped(cost(batch, cfg));
        gone.push(
            of_model(
                "embed_batch_tokens"@,
                name,
                Change::HistogramRecord(Amount::Whole(padded as u128)),
            ),
        ).push(
            of_model(
                "embed_batch_padding_waste_ratio"@,
                name,
                Change::HistogramRecord(waste(padded, raw)),
            ),
        )
    }
}

/// The worker of one batcher: the batch that it fills and the item that waits
/// for the next one.
#[derive(Debug)]
pub struct BatchWorker<R> {
    cfg: BatcherConfig,
    carry: Option<Item<R>>,
    batch: Vec<Item<R>>,
    accum: BatchAccum,
}

/// What a worker holds: its budget, the batch that it fills, and the item that
/// waits for the next one.
pub struct WorkerView<R> {
    pub cfg: BatcherConfig,
    pub batch: Seq<Item<R>>,
    pub carry: Option<Item<R>>,
}

impl<R> WorkerView<R> {
    /// The items, in the order of their arrival.
    pub open spec fn held(&self) -> Seq<Item<R>> {
        match self.carry {
            Some(item) => self.batch.push(item),
            None => self.batch,
        }
    }

    /// A batch of more than one item is within its budget.
    pub open spec fn in_budget(&self) -> bool {
        self.batch.len() >= 2 ==> within_budget(self.batch, self.cfg)
    }
}

impl<R> View for BatchWorker<R> {
    type V = WorkerView<R>;

    open spec fn view(&self) -> WorkerView<R> {
        WorkerView { cfg: self.config(), batch: self.batch(), carry: self.carry() }
    }
}

/// What happens to a worker.
pub enum Event<R> {
    /// The next batch is begun.
    Next,
    /// An item arrives; whether its caller has gone.
    Arrival { item: Item<R>, cancelled: bool },
    /// The batch is cut; whether the caller of each item has gone.
    Cut { cancelled: Seq<bool> },
}

/// Whether the event can happen: a batch is begun where there is none, and no
/// item is asked for while one waits.
pub open spec fn can_happen<R>(worker: WorkerView<R>, event: Event<R>) -> bool {
    match event {
        Event::Next => worker.batch.len() == 0,
        Event::Arrival { .. } => worker.carry is None,
        Event::Cut { cancelled } => cancelled.len() == worker.batch.len(),
    }
}

/// What the worker holds after the event.
pub open spec fn after<R>(worker: WorkerView<R>, event: Event<R>) -> WorkerView<R> {
    let (cfg, batch) = (worker.cfg, worker.batch);
    match event {
        Event::Next => WorkerView { cfg, batch: worker.held(), carry: None },
        Event::Arrival { item, cancelled } => if batch.len() == 0 {
            WorkerView { cfg, batch: seq![item], carry: None }
        } else if cancelled {
            worker
        } else if within_budget(batch.push(item), cfg) {
            WorkerView { cfg, batch: batch.push(item), carry: None }
        } else {
            WorkerView { cfg, batch, carry: Some(item) }
        },
        Event::Cut { .. } => WorkerView { cfg, batch: Seq::empty(), carry: worker.carry },
    }
}

impl<R> BatchWorker<R> {
    /// The budget.
    pub closed spec fn config(&self) -> BatcherConfig {
        self.cfg
    }

    /// The items of the batch that is being filled.
    pub closed spec fn batch(&self) -> Seq<Item<R>> {
        self.batch@
    }

    /// The item that waits for the next batch.
    pub closed spec fn carry(&self) -> Option<Item<R>> {
        self.carry
    }

    /// The items that the worker holds, in the order of their arrival.
    pub open spec fn held(&self) -> Seq<Item<R>> {
        match self.carry() {
            Some(item) => self.batch().push(item),
            None => self.batch(),
        }
    }

    /// The sums are right, and a batch of more than one item is within its
    /// budget.
    pub closed spec fn wf(&self) -> bool {
        &&& self.accum.sums(self.batch@)
        &&& self.batch@.len() >= 2 ==> within_budget(self.batch@, self.cfg)
    }

    /// What comes next.
    pub open spec fn pending(&self) -> Action {
        if self.batch().len() == 0 {
            Action::Receive
        } else if self.carry() is Some || saturated(self.batch(), self.config()) {
            Action::Dispatch
        } else {
            Action::Coalesce
        }
    }

    /// A worker that holds nothing.
    pub fn new(cfg: BatcherConfig) -> (r: BatchWorker<R>)
        ensures
            r.wf(),
            r.config() == cfg,
            r.batch() == Seq::<Item<R>>::empty(),
            r.carry() is None,
    {
        let r: BatchWorker<R> = BatchWorker {
            cfg,
            carry: None,
            batch: Vec::new(),
            accum: BatchAccum { items: 0, max_len: 0, total_tokens: 0 },
        };
        assert(r.batch@ =~= Seq::empty());
        r
    }

    /// The number of items of the batch that is being filled.
    pub fn len(&self) -> (r: usize)
        ensures
            r == self.batch().len(),
    {
        self.batch.len()
    }

    /// Where the answer to an item of the batch goes.
    pub fn reply(&self, i: usize) -> (r: &R)
        requires
            i < self.batch().len(),
        ensures
            *r == self.batch()[i as int].reply,
    {
        &self.batch[i].reply
    }

    fn decide(&self) -> (r: Action)
        requires
            self.wf(),
        ensures
            r == self.pending(),
    {
        if self.batch.len() == 0 {
            return Action::Receive;
        }
        if self.carry.is_some() {
            return Action::Dispatch;
        }
        if self.accum.items >= self.cfg.max_batch_items {
            return Action::Dispatch;
        }
        let spent: usize = if self.cfg.padded_model {
            product(self.accum.max_len, self.accum.items)
        } else {
            self.accum.total_tokens
        };
        if spent >= self.cfg.max_batch_tokens {
            Action::Dispatch
        } else {
            Action::Coalesce
        }
    }

    fn join(&mut self, item: Item<R>)
        requires
            old(self).wf(),
            old(self).carry() is None,
            old(self).batch().len() == 0 || within_budget(
                old(self).batch().push(item),
                old(self).config(),
            ),
        ensures
            final(self).wf(),
            final(self).config() == old(self).config(),
            final(self).carry() is None,
            final(self).batch() == old(self).batch().push(item),
    {
        let ghost before: Seq<Item<R>> = self.batch@;
        proof {
            assert(before.push(item).drop_last() =~= before);
            assert(item.token_ids.len() == item.token_ids@.len());
            if before.len() == 0 {
                assert(before =~= Seq::empty());
            }
        }
        self.accum.push(&item);
        self.batch.push(item);
        proof {
            assert(self.accum.sums(self.batch@));
        }
    }

    /// Begins the next batch with the deferred item, if there is one, and says
    /// what comes next.
    pub fn next(&mut self) -> (r: Action)
        requires
            old(self).wf(),
            old(self).batch().len() == 0,
        ensures
            final(self).wf(),
            final(self).config() == old(self).config(),
            final(self).carry() is None,
            final(self).batch() == old(self).held(),
            final(self)@ == after(old(self)@, Event::Next),
            r == final(self).pending(),
    {
        let mut waiting: Option<Item<R>> = None;
        std::mem::swap(&mut waiting, &mut self.carry);
        assert(self.batch@ =~= Seq::empty());
        if let Some(item) = waiting {
            self.join(item);
        }
        self.decide()
    }

    /// An item has arrived. `cancelled` says whether its caller has gone: that
    /// matters only to a batch that has its first item.
    pub fn received(
        &mut self,
        item: Item<R>,
        cancelled: bool,
        name: &str,
        log: &mut MetricLog,
    ) -> (r: Action)
        requires
            old(self).wf(),
            old(self).carry() is None,
        ensures
            final(self).wf(),
            final(self).config() == old(self).config(),
            r == final(self).pending(),
            final(self)@ == after(old(self)@, Event::Arrival { item, cancelled }),
            old(self).batch().len() == 0 || !cancelled ==> final(self).held() == old(
                self,
            ).held().push(item),
            ({
                let before: Seq<Item<R>> = old(self).batch();
                if before.len() == 0 {
                    &&& final(self).batch() == seq![item]
                    &&& final(self).carry() is None
                    &&& final(log)@ == old(log)@
                } else if cancelled {
                    &&& final(self).batch() == before
                    &&& final(self).carry() is None
                    &&& final(log)@ == old(log)@.push(cancelled_update(name@))
                } else if within_budget(before.push(item), old(self).config()) {
                    &&& final(self).batch() == before.push(item)
                    &&& final(self).carry() is None
                    &&& final(log)@ == old(log)@
                } else {
                    &&& final(self).batch() == before
                    &&& final(self).carry() == Some(item)
                    &&& final(log)@ == old(log)@.push(
                        of_model(
                            "embed_carry_events_total"@,
                            name@,
                            Change::CounterIncrement(1),
                        ),
                    )
                }
            }),
    {
        if self.batch.len() == 0 {
            assert(self.batch@.push(item) =~= seq![item]);
            self.join(item);
            return self.decide();
        }
        if cancelled {
            record_cancelled(log, name);
            return self.decide();
        }
        let ghost before: Seq<Item<R>> = self.batch@;
        assert(before.push(item).drop_last() =~= before);
        if self.accum.fits(&item, &self.cfg) {
            assert(within_budget(before.push(item), self.cfg));
            self.join(item);
        } else {
            assert(!within_budget(before.push(item), self.cfg));
            record_carry(log, name);
            self.carry = Some(item);
        }
        self.decide()
    }

    /// The window has closed, or no item can come any more.
    pub fn interrupted(&self) -> (r: Action)
        ensures
            r == if self.batch().len() == 0 {
                Action::Stop
            } else {
                Action::Dispatch
            },
    {
        if self.batch.len() == 0 {
            Action::Stop
        } else {
            Action::Dispatch
        }
    }

    /// Cuts the batch: the items whose callers are still there, in order.
    /// `cancelled` says of each item whether its caller has gone.
    pub fn take(&mut self, cancelled: &Vec<bool>, name: &str, log: &mut MetricLog) -> (r: Vec<
        Item<R>,
    >)
        requires
            old(self).wf(),
            cancelled@.len() == old(self).batch().len(),
        ensures
            final(self).wf(),
            final(self).config() == old(self).config(),
            final(self).batch() == Seq::<Item<R>>::empty(),
            final(self).carry() == old(self).carry(),
            final(self)@ == after(old(self)@, Event::Cut { cancelled: cancelled@ }),
            r@ == live(old(self).batch(), cancelled@),
            final(log)@ == old(log)@ + cut_updates(
                old(self).batch(),
                cancelled@,
                old(self).config(),
                name@,
            ),
    {
        let raw: usize = self.accum.total_tokens;
        let padded: usize = if self.cfg.padded_model {
            product(self.accum.max_len, self.accum.items)
        } else {
            raw
        };
        let mut batch: Vec<Item<R>> = Vec::new();
        std::mem::swap(&mut batch, &mut self.batch);
        self.accum = BatchAccum { items: 0, max_len: 0, total_tokens: 0 };
        let ghost all: Seq<Item<R>> = batch@;
        let ghost before: Seq<UpdateView> = log@;
        let mut out: Vec<Item<R>> = Vec::new();
        let mut i: usize = 0;
        assert(Seq::new(0, |i: int| cancelled_update(name@)) =~= Seq::<UpdateView>::empty());
        assert(before + Seq::<UpdateView>::empty() =~= before);
        for item in it: batch
            invariant
                it.seq() == all,
                i == it.index(),
                i <= all.len(),
                cancelled.len() == all.len(),
                out@ == live(all.take(i as int), cancelled@),
                log@ == before + Seq::new(
                    cancelled_count(cancelled@, i as nat),
                    |j: int| cancelled_update(name@),
                ),
        {
            proof {
                assert(all.take(i + 1).drop_last() =~= all.take(i as int));
                assert(all.take(i + 1).last() == item);
            }
            if cancelled[i] {
                let ghost sofar: Seq<UpdateView> = log@;
                record_cancelled(log, name);
                proof {
                    assert(log@ =~= before + Seq::new(
                        cancelled_count(cancelled@, (i + 1) as nat),
                        |j: int| cancelled_update(name@),
                    ));
                }
            } else {
                out.push(item);
            }
            i = i + 1;
        }
        assert(all.take(i as int) =~= all);
        if out.len() > 0 {
            record_batch_tokens(log, name, padded);
            record_padding_waste(log, name, padded, raw);
        }
        proof {
            assert(log@ =~= before + cut_updates(all, cancelled@, old(self).cfg, name@));
        }
        out
    }
}

/// The token sequences of some items, one after the other.
pub open spec fn ids_of<R>(batch: Seq<Item<R>>) -> Seq<Vec<u32>>
    decreases batch.len(),
{
    if batch.len() == 0 {
        Seq::empty()
    } else {
        ids_of(batch.drop_last()) + batch.last().token_ids@
    }
}

/// The texts that some replies wait for.
pub open spec fn counted<R>(replies: Seq<(R, usize)>) -> nat
    decreases replies.len(),
{
    if replies.len() == 0 {
        0
    } else {
        counted(replies.drop_last()) + replies.last().1 as nat
    }
}

/// Joins the items of a batch into the input of one inference, and keeps of
/// each where its answer goes and how many vectors it waits for.
pub fn gather<R>(batch: Vec<Item<R>>) -> (r: (Vec<Vec<u32>>, Vec<(R, usize)>))
    ensures
        r.0@ == ids_of(batch@),
        r.1@.len() == batch@.len(),
        forall|i: int|
            0 <= i < batch@.len() ==> (#[trigger] r.1@[i]).0 == batch@[i].reply && r.1@[i].1
                == batch@[i].token_ids@.len(),
        counted(r.1@) == r.0@.len(),
{
    let ghost all: Seq<Item<R>> = batch@;
    let mut ids: Vec<Vec<u32>> = Vec::new();
    let mut replies: Vec<(R, usize)> = Vec::new();
    for item in it: batch
        invariant
            it.seq() == all,
            ids@ == ids_of(all.take(it.index())),
            replies@.len() == it.index(),
            forall|i: int|
                0 <= i < it.index() ==> (#[trigger] replies@[i]).0 == all[i].reply && replies@[i].1
                    == all[i].token_ids@.len(),
            counted(replies@) == ids@.len(),
    {
        proof {
            assert(all.take(it.index() + 1).drop_last() =~= all.take(it.index()));
            assert(all.take(it.index() + 1).last() == item);
        }
        let ghost before: Seq<(R, usize)> = replies@;
        let n: usize = item.token_ids.len();
        let mut own: Vec<Vec<u32>> = item.token_ids;
        ids.append(&mut own);
        replies.push((item.reply, n));
        assert(replies@.drop_last() =~= before);
    }
    assert(all.take(all.len() as int) =~= all);
    (ids, replies)
}

/// How an inference ended.
#[derive(Debug)]
pub enum Inference<V> {
    /// It gave vectors, or an error message.
    Finished(Result<Vec<V>, String>),
    /// The task that ran it broke down; what is known of why.
    Panicked(String),
}

/// The message for every reply of a batch whose inference gave no usable
/// vectors; `None` where it gave one vector per text.
pub open spec fn failure<V>(outcome: Inference<V>, total: nat) -> Option<Seq<char>> {
    match outcome {
        Inference::Finished(Ok(vectors)) => if vectors@.len() == total {
            None
        } else {
            Some(
                "embed_fn returned "@ + decimal(vectors@.len()) + " vectors for "@ + decimal(
                    total,
                ) + " texts"@,
            )
        },
        Inference::Finished(Err(msg)) => Some(msg@),
        Inference::Panicked(why) => Some("embed task panicked: "@ + why@),
    }
}

fn fail_all<R, V>(replies: Vec<(R, usize)>, msg: &String) -> (r: Vec<
    (R, Result<Vec<V>, String>),
>)
    ensures
        r@.len() == replies@.len(),
        forall|i: int|
            0 <= i < replies@.len() ==> (#[trigger] r@[i]).0 == replies@[i].0 && (r@[i].1 matches Err(
                e,
            ) && e@ == msg@),
{
    let ghost all: Seq<(R, usize)> = replies@;
    let mut out: Vec<(R, Result<Vec<V>, String>)> = Vec::new();
    for reply in it: replies
        invariant
            it.seq() == all,
            out@.len() == it.index(),
            forall|i: int|
                0 <= i < it.index() ==> (#[trigger] out@[i]).0 == all[i].0 && (out@[i].1 matches Err(
                    e,
                ) && e@ == msg@),
    {
        out.push((reply.0, Err(msg.clone())));
    }
    out
}

proof fn lemma_counted_grows<R>(replies: Seq<(R, usize)>, i: int, j: int)
    requires
        0 <= i <= j <= replies.len(),
    ensures
        counted(replies.take(i)) <= counted(replies.take(j)),
    decreases j - i,
{
    if i < j {
        lemma_counted_grows(replies, i, j - 1);
        assert(replies.take(j).drop_last() =~= replies.take(j - 1));
    }
}

fn deal_out<R, V>(replies: Vec<(R, usize)>, vectors: Vec<V>) -> (r: Vec<
    (R, Result<Vec<V>, String>),
>)
    requires
        counted(replies@) == vectors@.len(),
    ensures
        r@.len() == replies@.len(),
        forall|i: int|
            0 <= i < replies@.len() ==> (#[trigger] r@[i]).0 == replies@[i].0 && (r@[i].1 matches Ok(
                own,
            ) && own@ == vectors@.subrange(
                counted(replies@.take(i)) as int,
                counted(replies@.take(i + 1)) as int,
            )),
{
    let ghost all: Seq<(R, usize)> = replies@;
    let ghost total: Seq<V> = vectors@;
    let mut left: Vec<V> = vectors;
    let mut out: Vec<(R, Result<Vec<V>, String>)> = Vec::new();
    proof {
        assert(all.take(0) =~= Seq::empty());
        assert(total.skip(0) =~= total);
        assert(all.take(all.len() as int) =~= all);
    }
    for reply in it: replies
        invariant
            it.seq() == all,
            counted(all) == total.len(),
            all.take(all.len() as int) == all,
            out@.len() == it.index(),
            counted(all.take(it.index())) <= total.len(),
            left@ == total.skip(counted(all.take(it.index())) as int),
            forall|i: int|
                0 <= i < it.index() ==> (#[trigger] out@[i]).0 == all[i].0 && (out@[i].1 matches Ok(
                    own,
                ) && own@ == total.subrange(
                    counted(all.take(i)) as int,
                    counted(all.take(i + 1)) as int,
                )),
    {
        let ghost k: int = it.index();
        proof {
            assert(all.take(k + 1).drop_last() =~= all.take(k));
            assert(all.take(k + 1).last() == reply);
            lemma_counted_grows(all, k + 1, all.len() as int);
        }
        let rest: Vec<V> = left.split_off(reply.1);
        proof {
            let from: int = counted(all.take(k)) as int;
            let to: int = counted(all.take(k + 1)) as int;
            assert(left@ =~= total.subrange(from, to));
            assert(rest@ =~= total.skip(to));
        }
        out.push((reply.0, Ok(left)));
        left = rest;
    }
    out
}

/// Answers every reply of a batch: each with its own vectors, in the order in
/// which the items stand in the batch, or all with the same message.
pub fn settle<R, V>(
    replies: Vec<(R, usize)>,
    outcome: Inference<V>,
    total: usize,
    nanos: u128,
    name: &str,
    log: &mut MetricLog,
) -> (r: Vec<(R, Result<Vec<V>, String>)>)
    requires
        counted(replies@) == total,
    ensures
        r@.len() == replies@.len(),
        forall|i: int| 0 <= i < replies@.len() ==> (#[trigger] r@[i]).0 == replies@[i].0,
        match failure(outcome, total as nat) {
            Some(msg) => {
                &&& forall|i: int|
                    0 <= i < replies@.len() ==> ((#[trigger] r@[i]).1 matches Err(e) && e@ == msg)
                &&& final(log)@ == old(log)@
            },
            None => {
                &&& forall|i: int|
                    0 <= i < replies@.len() ==> ((#[trigger] r@[i]).1 matches Ok(own) && own@
                        == outcome->Finished_0->Ok_0@.subrange(
                        counted(replies@.take(i)) as int,
                        counted(replies@.take(i + 1)) as int,
                    ))
                &&& final(log)@ == old(log)@.push(
                    of_model(
                        "embed_inference_duration_seconds"@,
                        name@,
                        Change::HistogramRecord(Amount::Seconds { nanos }),
                    ),
                ).push(
                    of_model(
                        "embed_batch_size"@,
                        name@,
                        Change::HistogramRecord(Amount::Whole(total as u128)),
                    ),
                )
            },
        },
{
    match outcome {
        Inference::Finished(Ok(vectors)) => {
            if vectors.len() != total {
                let mut m: String = "embed_fn returned ".to_owned();
                push_decimal(&mut m, vectors.len() as u64);
                m.append(" vectors for ");
                push_decimal(&mut m, total as u64);
                m.append(" texts");
                return fail_all(replies, &m);
            }
            record_inference(log, name, nanos, total);
            deal_out(replies, vectors)
        },
        Inference::Finished(Err(msg)) => fail_all(replies, &msg),
        Inference::Panicked(why) => {
            let mut m: String = "embed task panicked: ".to_owned();
            m.append(why.as_str());
            fail_all(replies, &m)
        },
    }
}

/// A request that the queue has no room for.
pub fn reject(name: &str, log: &mut MetricLog) -> (r: BatchError)
    ensures
        r matches BatchError::QueueFull(e) && e.batcher_name@ == name@,
        final(log)@ == old(log)@.push(
            of_model("embed_queue_rejected_total"@, name@, Change::CounterIncrement(1)),
        ),
{
    record_queue_rejected(log, name);
    BatchError::QueueFull(QueueFullError { batcher_name: name.to_owned() })
}

/// What a caller gets for the reply to its request. `None` stands for a worker
/// that has gone without a reply.
pub fn answer<V>(reply: Option<Result<V, String>>) -> (r: Result<V, BatchError>)
    ensures
        match reply {
            Some(Ok(v)) => r == Ok::<V, BatchError>(v),
            Some(Err(msg)) => r == Err::<V, BatchError>(BatchError::Inference(msg)),
            None => r == Err::<V, BatchError>(BatchError::Shutdown),
        },
{
    match reply {
        Some(Ok(v)) => Ok(v),
        Some(Err(msg)) => Err(BatchError::Inference(msg)),
        None => Err(BatchError::Shutdown),
    }
}

/// A batch of more than one item is always within its budget: only a first
/// item may exceed it.
pub proof fn law_batches_respect_budget<R>(worker: BatchWorker<R>)
    requires
        worker.wf(),
        worker.batch().len() >= 2,
    ensures
        within_budget(worker.batch(), worker.config()),
{
}

/// Nothing is lost at a cut: every item of the batch is either dispatched or
/// counted as cancelled.
pub proof fn law_cut_loses_nothing<R>(batch: Seq<Item<R>>, cancelled: Seq<bool>)
    requires
        cancelled.len() == batch.len(),
    ensures
        live(batch, cancelled).len() + cancelled_count(cancelled, batch.len()) == batch.len(),
{
    lemma_cut(batch, cancelled);
}

proof fn lemma_cut<R>(batch: Seq<Item<R>>, cancelled: Seq<bool>)
    requires
        cancelled.len() >= batch.len(),
    ensures
        live(batch, cancelled).len() + cancelled_count(cancelled, batch.len()) == batch.len(),
    decreases batch.len(),
{
    if batch.len() > 0 {
        lemma_cut(batch.drop_last(), cancelled);
    }
}

/// A cut without cancelled items dispatches the whole batch, in order.
pub proof fn law_cut_keeps_order<R>(batch: Seq<Item<R>>, cancelled: Seq<bool>)
    requires
        cancelled.len() >= batch.len(),
        forall|i: int| 0 <= i < batch.len() ==> !#[trigger] cancelled[i],
    ensures
        live(batch, cancelled) == batch,
    decreases batch.len(),
{
    if batch.len() > 0 {
        law_cut_keeps_order(batch.drop_last(), cancelled);
        assert(batch.drop_last().push(batch.last()) =~= batch);
    }
}

/// Each event can happen when it does.
pub open spec fn is_run<R>(start: WorkerView<R>, events: Seq<Event<R>>) -> bool
    decreases events.len(),
{
    events.len() == 0 || (is_run(start, events.drop_last()) && can_happen(
        after_run(start, events.drop_last()),
        events.last(),
    ))
}

/// What the worker holds after the events.
pub open spec fn after_run<R>(start: WorkerView<R>, events: Seq<Event<R>>) -> WorkerView<R>
    decreases events.len(),
{
    if events.len() == 0 {
        start
    } else {
        after(after_run(start, events.drop_last()), events.last())
    }
}

/// The batches that are dispatched in the course of the events: what each cut
/// leaves.
pub open spec fn batches<R>(start: WorkerView<R>, events: Seq<Event<R>>) -> Seq<Seq<Item<R>>>
    decreases events.len(),
{
    if events.len() == 0 {
        Seq::empty()
    } else {
        let rest: Seq<Seq<Item<R>>> = batches(start, events.drop_last());
        match events.last() {
            Event::Cut { cancelled } => rest.push(
                live(after_run(start, events.drop_last()).batch, cancelled),
            ),
            _ => rest,
        }
    }
}

/// The items that arrive, in order.
pub open spec fn arrivals<R>(events: Seq<Event<R>>) -> Seq<Item<R>>
    decreases events.len(),
{
    if events.len() == 0 {
        Seq::empty()
    } else {
        let rest: Seq<Item<R>> = arrivals(events.drop_last());
        match events.last() {
            Event::Arrival { item, .. } => rest.push(item),
            _ => rest,
        }
    }
}

/// No caller goes before it is answered.
pub open spec fn nobody_leaves<R>(events: Seq<Event<R>>) -> bool {
    forall|i: int|
        0 <= i < events.len() ==> match #[trigger] events[i] {
            Event::Next => true,
            Event::Arrival { cancelled, .. } => !cancelled,
            Event::Cut { cancelled } => forall|j: int|
                0 <= j < cancelled.len() ==> !#[trigger] cancelled[j],
        }
}

/// The items of some batches, one after the other.
pub open spec fn joined<R>(all: Seq<Seq<Item<R>>>) -> Seq<Item<R>>
    decreases all.len(),
{
    if all.len() == 0 {
        Seq::empty()
    } else {
        joined(all.drop_last()) + all.last()
    }
}

/// At any time of a run, what was dispatched and what the worker holds is what it
/// held at first and what has arrived since, in that order: no item is lost,
/// none is dispatched twice, and none overtakes another.
pub proof fn law_run_keeps_order<R>(start: WorkerView<R>, events: Seq<Event<R>>)
    requires
        is_run(start, events),
        nobody_leaves(events),
    ensures
        joined(batches(start, events)) + after_run(start, events).held() == start.held() + arrivals(
            events,
        ),
    decreases events.len(),
{
    let done: Seq<Item<R>> = joined(batches(start, events));
    let end: WorkerView<R> = after_run(start, events);
    if events.len() == 0 {
        assert(done + end.held() =~= start.held() + arrivals(events));
    } else {
        let earlier: Seq<Event<R>> = events.drop_last();
        lemma_nobody_left(events);
        law_run_keeps_order(start, earlier);
        let before: WorkerView<R> = after_run(start, earlier);
        let sofar: Seq<Item<R>> = joined(batches(start, earlier));
        let came: Seq<Item<R>> = start.held() + arrivals(earlier);
        let last: Event<R> = events[events.len() - 1];
        assert(last == events.last());
        match last {
            Event::Next => {
                assert(end.held() =~= before.held());
            },
            Event::Arrival { item, cancelled } => {
                assert(!cancelled);
                assert(end.held() =~= before.held().push(item));
                assert(sofar + before.held().push(item) =~= (sofar + before.held()).push(item));
                assert(start.held() + arrivals(events) =~= came.push(item));
            },
            Event::Cut { cancelled } => {
                law_cut_keeps_order(before.batch, cancelled);
                assert(batches(start, events).drop_last() =~= batches(start, earlier));
                assert(done == sofar + before.batch);
                assert(before.held() =~= before.batch + end.held());
                assert(done + end.held() =~= sofar + before.held());
            },
        }
    }
}

/// A run that ends because no item can come any more has dispatched every item
/// exactly once, in the order of arrival.
pub proof fn law_every_item_is_dispatched_once<R>(cfg: BatcherConfig, events: Seq<Event<R>>)
    requires
        is_run(WorkerView { cfg, batch: Seq::empty(), carry: None }, events),
        nobody_leaves(events),
        events.len() > 0,
        events.last() is Next,
        after_run(WorkerView { cfg, batch: Seq::empty(), carry: None }, events).batch.len() == 0,
    ensures
        joined(batches(WorkerView { cfg, batch: Seq::empty(), carry: None }, events)) == arrivals(
            events,
        ),
{
    let start: WorkerView<R> = WorkerView { cfg, batch: Seq::empty(), carry: None };
    law_run_keeps_order(start, events);
    let done: Seq<Item<R>> = joined(batches(start, events));
    assert(done + after_run(start, events).held() =~= done);
    assert(start.held() + arrivals(events) =~= arrivals(events));
}

/// Every batch of more than one item that a run dispatches is within the budget.
pub proof fn law_run_respects_budget<R>(start: WorkerView<R>, events: Seq<Event<R>>)
    requires
        is_run(start, events),
        nobody_leaves(events),
        start.in_budget(),
    ensures
        after_run(start, events).in_budget(),
        after_run(start, events).cfg == start.cfg,
        forall|k: int|
            0 <= k < batches(start, events).len() ==> {
                let batch: Seq<Item<R>> = #[trigger] batches(start, events)[k];
                batch.len() >= 2 ==> within_budget(batch, start.cfg)
            },
    decreases events.len(),
{
    if events.len() > 0 {
        let earlier: Seq<Event<R>> = events.drop_last();
        lemma_nobody_left(events);
        law_run_respects_budget(start, earlier);
        let last: Event<R> = events[events.len() - 1];
        if let Event::Cut { cancelled } = last {
            law_cut_keeps_order(after_run(start, earlier).batch, cancelled);
        }
        let all: Seq<Seq<Item<R>>> = batches(start, events);
        let sofar: Seq<Seq<Item<R>>> = batches(start, earlier);
        assert forall|k: int| 0 <= k < all.len() implies ({
            let batch: Seq<Item<R>> = #[trigger] all[k];
            batch.len() >= 2 ==> within_budget(batch, start.cfg)
        }) by {
            if k < sofar.len() {
                assert(all[k] == sofar[k]);
            }
        }
    }
}

proof fn lemma_nobody_left<R>(events: Seq<Event<R>>)
    requires
        nobody_leaves(events),
        events.len() > 0,
    ensures
        nobody_leaves(events.drop_last()),
{
    let earlier: Seq<Event<R>> = events.drop_last();
    assert forall|i: int| 0 <= i < earlier.len() implies match #[trigger] earlier[i] {
        Event::Next => true,
        Event::Arrival { cancelled, .. } => !cancelled,
        Event::Cut { cancelled } => forall|j: int|
            0 <= j < cancelled.len() ==> !#[trigger] cancelled[j],
    } by {
        assert(earlier[i] == events[i]);
    }
}

/// The first item of a batch is admitted whatever it costs. A later item that
/// does not fit leaves the batch as it is, and opens the next one.
pub proof fn law_deferred_item_opens_next_batch<R>(
    worker: WorkerView<R>,
    item: Item<R>,
    cancelled: Seq<bool>,
)
    requires
        worker.carry is None,
    ensures
        worker.batch.len() == 0 ==> after(
            worker,
            Event::Arrival { item, cancelled: false },
        ).batch == seq![item],
        worker.batch.len() > 0 && !within_budget(worker.batch.push(item), worker.cfg) ==> {
            let full: WorkerView<R> = after(worker, Event::Arrival { item, cancelled: false });
            &&& full.batch == worker.batch
            &&& after(after(full, Event::Cut { cancelled }), Event::Next).batch == seq![item]
        },
{
    assert(Seq::<Item<R>>::empty().push(item) =~= seq![item]);
}

proof fn lemma_ids_prefix<R>(batch: Seq<Item<R>>, replies: Seq<(R, usize)>, i: int)
    requires
        replies.len() == batch.len(),
        forall|j: int|
            0 <= j < batch.len() ==> (#[trigger] replies[j]).1 == batch[j].token_ids@.len(),
        0 <= i <= batch.len(),
    ensures
        ids_of(batch.take(i)).len() == counted(replies.take(i)),
        counted(replies.take(i)) <= ids_of(batch).len(),
        ids_of(batch).take(counted(replies.take(i)) as int) == ids_of(batch.take(i)),
    decreases batch.len(),
{
    if i == batch.len() {
        assert(batch.take(i) =~= batch);
        assert(replies.take(i) =~= replies);
        if i > 0 {
            lemma_ids_prefix(batch.drop_last(), replies.drop_last(), i - 1);
            assert(batch.drop_last().take(i - 1) =~= batch.drop_last());
            assert(replies.drop_last().take(i - 1) =~= replies.drop_last());
        }
        assert(ids_of(batch).take(ids_of(batch).len() as int) =~= ids_of(batch));
    } else {
        lemma_ids_prefix(batch.drop_last(), replies.drop_last(), i);
        assert(batch.drop_last().take(i) =~= batch.take(i));
        assert(replies.drop_last().take(i) =~= replies.take(i));
        let n: int = counted(replies.take(i)) as int;
        assert(ids_of(batch).take(n) =~= ids_of(batch.drop_last()).take(n));
    }
}

/// The vectors that an item is given are those of its own texts: they stand in
/// the output of the inference where the item's token sequences stand in its
/// input.
pub proof fn law_each_item_keeps_its_place<R>(
    batch: Seq<Item<R>>,
    replies: Seq<(R, usize)>,
    i: int,
)
    requires
        replies.len() == batch.len(),
        forall|j: int|
            0 <= j < batch.len() ==> (#[trigger] replies[j]).1 == batch[j].token_ids@.len(),
        0 <= i < batch.len(),
    ensures
        ids_of(batch).subrange(
            counted(replies.take(i)) as int,
            counted(replies.take(i + 1)) as int,
        ) == batch[i].token_ids@,
{
    lemma_ids_prefix(batch, replies, i);
    lemma_ids_prefix(batch, replies, i + 1);
    let from: int = counted(replies.take(i)) as int;
    let to: int = counted(replies.take(i + 1)) as int;
    assert(batch.take(i + 1).drop_last() =~= batch.take(i));
    assert(batch.take(i + 1).last() == batch[i]);
    assert(ids_of(batch.take(i + 1)) == ids_of(batch.take(i)) + batch[i].token_ids@);
    assert(ids_of(batch).subrange(from, to) =~= ids_of(batch).take(to).skip(from));
    assert((ids_of(batch.take(i)) + batch[i].token_ids@).skip(from) =~= batch[i].token_ids@);
}

proof fn lemma_sum_is_below_product(ids: Seq<Vec<u32>>)
    ensures
        token_sum(ids) <= longest(ids) * ids.len(),
    decreases ids.len(),
{
    if ids.len() > 0 {
        let rest: Seq<Vec<u32>> = ids.drop_last();
        lemma_sum_is_below_product(rest);
        let m: nat = longest(ids);
        let n: nat = rest.len();
        assert(longest(rest) * n <= m * n) by (nonlinear_arith)
            requires
                longest(rest) <= m,
        ;
        assert(m * (n + 1) == m * n + m) by (nonlinear_arith);
    }
}

/// Padding never makes a batch cheaper: its tokens are no more than its
/// longest sequence for each text.
pub proof fn law_padding_costs<R>(batch: Seq<Item<R>>)
    ensures
        tokens_of(batch) <= longest_of(batch) * texts(batch),
    decreases batch.len(),
{
    if batch.len() > 0 {
        let rest: Seq<Item<R>> = batch.drop_last();
        let own: Seq<Vec<u32>> = batch.last().token_ids@;
        law_padding_costs(rest);
        lemma_sum_is_below_product(own);
        let m: nat = longest_of(batch);
        assert(longest_of(rest) * texts(rest) <= m * texts(rest)) by (nonlinear_arith)
            requires
                longest_of(rest) <= m,
        ;
        assert(longest(own) * own.len() <= m * own.len()) by (nonlinear_arith)
            requires
                longest(own) <= m,
        ;
        assert(m * (texts(rest) + own.len()) == m * texts(rest) + m * own.len())
            by (nonlinear_arith);
    }
}

/// The longest of some sequences is at least as long as each, and one of them is
/// that long; there is none, and the length is zero, only where there are no
/// sequences.
pub proof fn law_longest_is_one_of_them(ids: Seq<Vec<u32>>) -> (k: int)
    requires
        ids.len() > 0,
    ensures
        0 <= k < ids.len(),
        longest(ids) == ids[k]@.len(),
        forall|i: int| 0 <= i < ids.len() ==> (#[trigger] ids[i])@.len() <= ids[k]@.len(),
        longest(Seq::empty()) == 0,
    decreases ids.len(),
{
    let rest: Seq<Vec<u32>> = ids.drop_last();
    let n: int = ids.len() - 1;
    if rest.len() == 0 {
        assert(longest(rest) == 0);
        n
    } else {
        let k: int = law_longest_is_one_of_them(rest);
        assert forall|i: int| 0 <= i < ids.len() implies (#[trigger] ids[i])@.len() <= longest(
            ids,
        ) by {
            if i < n {
                assert(rest[i] == ids[i]);
            }
        }
        if ids[n]@.len() > rest[k]@.len() {
            n
        } else {
            k
        }
    }
}

/// The tokens of some sequences are those of each of them, added up.
pub proof fn law_tokens_add_up(ids: Seq<Vec<u32>>, next: Vec<u32>)
    ensures
        token_sum(Seq::empty()) == 0,
        token_sum(ids.push(next)) == token_sum(ids) + next@.len(),
{
    assert(ids.push(next).drop_last() =~= ids);
}

/// The sums of a batch, item by item: its texts and its tokens are those of each
/// item, added up.
pub proof fn law_sums_of_a_batch<R>(batch: Seq<Item<R>>, item: Item<R>)
    ensures
        texts(Seq::<Item<R>>::empty()) == 0,
        tokens_of(Seq::<Item<R>>::empty()) == 0,
        longest_of(Seq::<Item<R>>::empty()) == 0,
        texts(batch.push(item)) == texts(batch) + item.token_ids@.len(),
        tokens_of(batch.push(item)) == tokens_of(batch) + token_sum(item.token_ids@),
        longest_of(batch.push(item)) >= longest_of(batch),
        longest_of(batch.push(item)) >= longest(item.token_ids@),
        longest_of(batch.push(item)) == longest_of(batch) || longest_of(batch.push(item)) == longest(
            item.token_ids@,
        ),
{
    assert(batch.push(item).drop_last() =~= batch);
}

/// A batch is within its budget exactly where it has no more texts than allowed
/// and costs less than the tokens allowed: its longest sequence for each text
/// where the model pads, else its own tokens. No item can join it any more
/// exactly where it has as many texts as allowed or costs as much.
pub proof fn law_budget<R>(batch: Seq<Item<R>>, cfg: BatcherConfig)
    ensures
        cfg.padded_model ==> (within_budget(batch, cfg) <==> texts(batch) <= cfg.max_batch_items
            && longest_of(batch) * texts(batch) < cfg.max_batch_tokens),
        !cfg.padded_model ==> (within_budget(batch, cfg) <==> texts(batch) <= cfg.max_batch_items
            && tokens_of(batch) < cfg.max_batch_tokens),
        cfg.padded_model ==> (saturated(batch, cfg) <==> texts(batch) >= cfg.max_batch_items
            || longest_of(batch) * texts(batch) >= cfg.max_batch_tokens),
        !cfg.padded_model ==> (saturated(batch, cfg) <==> texts(batch) >= cfg.max_batch_items
            || tokens_of(batch) >= cfg.max_batch_tokens),
{
}

/// An item that arrives joins the batch behind the others where the batch stays
/// within its budget, waits for the next one where it does not, and is dropped
/// where its caller has gone and the batch has an item already.
pub proof fn law_arrival<R>(worker: WorkerView<R>, item: Item<R>)
    requires
        worker.carry is None,
        worker.batch.len() > 0,
    ensures
        within_budget(worker.batch.push(item), worker.cfg) ==> after(
            worker,
            Event::Arrival { item, cancelled: false },
        ) == (WorkerView { cfg: worker.cfg, batch: worker.batch.push(item), carry: None }),
        !within_budget(worker.batch.push(item), worker.cfg) ==> after(
            worker,
            Event::Arrival { item, cancelled: false },
        ) == (WorkerView { cfg: worker.cfg, batch: worker.batch, carry: Some(item) }),
        after(worker, Event::Arrival { item, cancelled: true }) == worker,
{
}

/// An item whose caller has gone is not dispatched, and every other one is,
/// behind those before it.
pub proof fn law_only_the_cancelled_are_left_out<R>(
    batch: Seq<Item<R>>,
    item: Item<R>,
    cancelled: Seq<bool>,
)
    requires
        cancelled.len() == batch.len() + 1,
    ensures
        live(Seq::<Item<R>>::empty(), cancelled).len() == 0,
        cancelled.last() ==> live(batch.push(item), cancelled) == live(batch, cancelled),
        !cancelled.last() ==> live(batch.push(item), cancelled) == live(batch, cancelled).push(item),
        cancelled.last() ==> cancelled_count(cancelled, batch.len() + 1) == cancelled_count(
            cancelled,
            batch.len(),
        ) + 1,
        !cancelled.last() ==> cancelled_count(cancelled, batch.len() + 1) == cancelled_count(
            cancelled,
            batch.len(),
        ),
{
    assert(batch.push(item).drop_last() =~= batch);
}

/// An inference serves its batch exactly where it gave one vector for each text;
/// any other outcome fails the whole batch, with its own message.
pub proof fn law_failed_inferences<V>(outcome: Inference<V>, total: nat)
    ensures
        failure(outcome, total) is None <==> (outcome matches Inference::Finished(Ok(v)) && v@.len()
            == total),
        outcome matches Inference::Finished(Err(m)) ==> failure(outcome, total) == Some(m@),
        outcome matches Inference::Panicked(m) ==> failure(outcome, total) == Some(
            "embed task panicked: "@ + m@,
        ),
        outcome matches Inference::Finished(Ok(v)) ==> (v@.len() != total ==> failure(
            outcome,
            total,
        ) == Some(
            "embed_fn returned "@ + decimal(v@.len()) + " vectors for "@ + decimal(total)
                + " texts"@,
        )),
{
}

/// What the replies wait for, one after the other.
pub proof fn law_replies_are_counted<R>(replies: Seq<(R, usize)>, next: (R, usize))
    ensures
        counted(Seq::<(R, usize)>::empty()) == 0,
        counted(replies.push(next)) == counted(replies) + next.1,
{
    assert(replies.push(next).drop_last() =~= replies);
}

/// A number that fits stays as it is, and one that does not becomes the largest.
pub proof fn law_clamped(n: nat)
    ensures
        n <= usize::MAX ==> clamped(n) == n,
        n > usize::MAX ==> clamped(n) == usize::MAX,
{
}

/// The token sequences of a batch are those of its items, one item behind the
/// other, each with its sequences in their order.
pub proof fn law_sequences_of_a_batch<R>(batch: Seq<Item<R>>, item: Item<R>)
    ensures
        ids_of(Seq::<Item<R>>::empty()).len() == 0,
        ids_of(batch.push(item)) == ids_of(batch) + item.token_ids@,
{
    assert(batch.push(item).drop_last() =~= batch);
}

/// A worker that holds nothing waits for an item; one whose batch is full, or
/// that has an item for the next one, dispatches; any other one waits for more.
pub proof fn law_next_action<R>(worker: BatchWorker<R>)
    ensures
        worker.batch().len() == 0 ==> worker.pending() is Receive,
        worker.batch().len() > 0 && worker.carry() is Some ==> worker.pending() is Dispatch,
        worker.batch().len() > 0 && worker.carry() is None && (texts(worker.batch())
            >= worker.config().max_batch_items) ==> worker.pending() is Dispatch,
        worker.batch().len() > 0 && worker.carry() is None ==> (worker.pending() is Coalesce
            <==> !saturated(worker.batch(), worker.config())),
        worker.carry() matches Some(item) ==> worker.held() == worker.batch().push(item),
        worker.carry() is None ==> worker.held() == worker.batch(),
{
}

/// The next batch begins with the item that waited for it; a first item is
/// taken whatever it costs; and a cut leaves nothing but the item that waits.
pub proof fn law_batches_begin_and_end<R>(worker: WorkerView<R>, item: Item<R>, cancelled: Seq<bool>)
    requires
        worker.batch.len() == 0,
    ensures
        worker.carry == Some(item) ==> after(worker, Event::Next) == (WorkerView {
            cfg: worker.cfg,
            batch: seq![item],
            carry: None,
        }),
        worker.carry is None ==> after(worker, Event::Next).batch.len() == 0,
        worker.carry is None ==> after(worker, Event::Arrival { item, cancelled: false }) == (
        WorkerView { cfg: worker.cfg, batch: seq![item], carry: None }),
        after(worker, Event::Cut { cancelled }).batch.len() == 0,
        after(worker, Event::Cut { cancelled }).carry == worker.carry,
{
    assert(worker.batch.push(item) =~= seq![item]);
}

/// What is recorded of a cut: each item whose caller has gone, and, where any
/// is left, what the batch costs and how much of that is padding.
pub proof fn law_cuts_are_recorded<R>(
    batch: Seq<Item<R>>,
    cancelled: Seq<bool>,
    cfg: BatcherConfig,
    name: Seq<char>,
    i: int,
)
    ensures
        ({
            let u: Seq<UpdateView> = cut_updates(batch, cancelled, cfg, name);
            let gone: int = cancelled_count(cancelled, batch.len()) as int;
            let full: nat = if cfg.padded_model {
                longest_of(batch) * texts(batch)
            } else {
                tokens_of(batch)
            };
            &&& 0 <= i < gone ==> {
                &&& u[i].name == "embed_batcher_cancelled_items_total"@
                &&& u[i].labels == seq![("model"@, name)]
                &&& u[i].change == Change::CounterIncrement(1)
            }
            &&& live(batch, cancelled).len() == 0 ==> u.len() == gone
            &&& live(batch, cancelled).len() > 0 ==> {
                &&& u.len() == gone + 2
                &&& u[gone].name == "embed_batch_tokens"@
                &&& u[gone].labels == seq![("model"@, name)]
                &&& u[gone].change == Change::HistogramRecord(Amount::Whole(clamped(full) as u128))
                &&& u[gone + 1].name == "embed_batch_padding_waste_ratio"@
                &&& u[gone + 1].labels == seq![("model"@, name)]
                &&& u[gone + 1].change == Change::HistogramRecord(
                    waste(clamped(full), clamped(tokens_of(batch))),
                )
            }
        }),
{
}

/// What is said of an item that was not served.
pub proof fn law_words_of_the_batcher(e: QueueFullError, msg: String)
    ensures
        e.words() == "batcher '"@ + e.batcher_name@ + "' queue is full"@,
        BatchError::QueueFull(e).words() == "queue full: "@ + e.words(),
        BatchError::Inference(msg).words() == "inference error: "@ + msg@,
        BatchError::Shutdown.words() == "batcher shut down"@,
{
}

} // verus!
