//! Metric updates, their labels, and the histogram buckets.
//!
//! A recording function appends to a [`MetricLog`] the updates that the
//! process's recorder is to make. Whoever owns the recorder applies the log.
use vstd::prelude::*;
use vstd::string::*;
use crate::text::{
    ascii_lower, contains, contains_text, decimal, has_suffix, push_decimal,
    to_ascii_lower,
};

verus! {

broadcast use group_string_axioms;

/// A number to record. Recorders keep floating-point numbers; this one says
/// exactly which.
#[derive(Clone, Copy, Debug, PartialEq, Eq, Structural)]
pub enum Amount {
    /// A whole number.
    Whole(u128),
    /// A whole number that may be negative.
    Signed(i64),
    /// A span of time, in seconds.
    Seconds { nanos: u128 },
    /// A span of time, in milliseconds.
    Millis { nanos: u128 },
    /// A quotient; `den` is not zero.
    Ratio { num: u64, den: u64 },
    /// Bytes of the attention tensor of one inference:
    /// `batch_size * num_heads * seq_len * seq_len * 4`.
    Scratch { batch_size: usize, num_heads: usize, seq_len: usize },
}

impl Amount {
    /// The number's numerator over [`Amount::denominator`].
    pub open spec fn numerator(self) -> int {
        match self {
            Amount::Whole(n) => n as int,
            Amount::Signed(n) => n as int,
            Amount::Seconds { nanos } => nanos as int,
            Amount::Millis { nanos } => nanos as int,
            Amount::Ratio { num, den } => num as int,
            Amount::Scratch { batch_size, num_heads, seq_len } => batch_size * num_heads * seq_len
                * seq_len * 4,
        }
    }

    /// The denominator below [`Amount::numerator`].
    pub open spec fn denominator(self) -> int {
        match self {
            Amount::Seconds { nanos } => 1_000_000_000,
            Amount::Millis { nanos } => 1_000_000,
            Amount::Ratio { num, den } => den as int,
            _ => 1,
        }
    }

    /// The number itself, where it is a whole one that is not negative and
    /// fits.
    pub fn whole(&self) -> (r: Option<u128>)
        ensures
            r matches Some(n) ==> self.denominator() == 1 && n == self.numerator(),
            r is None <==> self.denominator() != 1 || self.numerator() < 0 || self.numerator()
                > u128::MAX || !(self is Whole || self is Signed || self is Scratch),
    {
        match self {
            Amount::Whole(n) => Some(*n),
            Amount::Signed(n) => if *n < 0 {
                None
            } else {
                Some(*n as u128)
            },
            Amount::Scratch { batch_size, num_heads, seq_len } => scratch_bytes(
                *batch_size,
                *num_heads,
                *seq_len,
            ),
            _ => None,
        }
    }
}

fn scratch_bytes(batch_size: usize, num_heads: usize, seq_len: usize) -> (r: Option<u128>)
    ensures
        r matches Some(n) ==> n == batch_size * num_heads * seq_len * seq_len * 4,
        r is None ==> batch_size * num_heads * seq_len * seq_len * 4 > u128::MAX,
{
    let b: u128 = batch_size as u128;
    let h: u128 = num_heads as u128;
    let s: u128 = seq_len as u128;
    proof {
        assert(b * h <= u64::MAX * u64::MAX) by (nonlinear_arith)
            requires
                0 <= b <= u64::MAX,
                0 <= h <= u64::MAX,
        ;
    }
    let bh: u128 = b * h;
    let bhs: u128 = match bh.checked_mul(s) {
        Some(n) => n,
        None => {
            proof {
                let x: int = bh * s;
                assert(x * s * 4 > u128::MAX) by (nonlinear_arith)
                    requires
                        x > u128::MAX,
                        x == bh * s,
                        s >= 0,
                ;
            }
            return None;
        },
    };
    let bhss: u128 = match bhs.checked_mul(s) {
        Some(n) => n,
        None => return None,
    };
    bhss.checked_mul(4)
}

/// What an update does to its series.
#[derive(Clone, Copy, Debug, PartialEq, Eq, Structural)]
pub enum Change {
    /// A counter grows by the given number.
    CounterIncrement(u64),
    /// A counter is at least the given number from now on.
    CounterAbsolute(u64),
    /// A gauge takes the given value.
    GaugeSet(Amount),
    /// A gauge grows by the given number.
    GaugeIncrement(u64),
    /// A gauge shrinks by the given number.
    GaugeDecrement(u64),
    /// A histogram records one observation.
    HistogramRecord(Amount),
}

/// One update of one series.
#[derive(Debug)]
pub struct Update {
    /// The name of the metric.
    pub name: String,
    /// Its labels, in the order in which they are given.
    pub labels: Vec<(String, String)>,
    /// What happens to it.
    pub change: Change,
}

/// What an [`Update`] says.
#[verifier::ext_equal]
pub struct UpdateView {
    pub name: Seq<char>,
    pub labels: Seq<(Seq<char>, Seq<char>)>,
    pub change: Change,
}

/// The views of labels.
pub open spec fn label_views(labels: Seq<(String, String)>) -> Seq<(Seq<char>, Seq<char>)> {
    labels.map_values(|l: (String, String)| (l.0@, l.1@))
}

impl View for Update {
    type V = UpdateView;

    open spec fn view(&self) -> UpdateView {
        UpdateView {
            name: self.name@,
            labels: label_views(self.labels@),
            change: self.change,
        }
    }
}

/// An update of the series of that name without labels.
pub open spec fn plain(name: Seq<char>, change: Change) -> UpdateView {
    UpdateView { name, labels: Seq::empty(), change }
}

/// An update of one model's series.
pub open spec fn of_model(name: Seq<char>, model: Seq<char>, change: Change) -> UpdateView {
    UpdateView { name, labels: seq![("model"@, model)], change }
}

/// An update of a series with one label.
pub open spec fn labelled(
    name: Seq<char>,
    key: Seq<char>,
    value: Seq<char>,
    change: Change,
) -> UpdateView {
    UpdateView { name, labels: seq![(key, value)], change }
}

/// An update of one model's series with a further label.
pub open spec fn of_model_and(
    name: Seq<char>,
    model: Seq<char>,
    key: Seq<char>,
    value: Seq<char>,
    change: Change,
) -> UpdateView {
    UpdateView { name, labels: seq![("model"@, model), (key, value)], change }
}

/// The updates that a recorder is to make, in order.
#[derive(Debug)]
pub struct MetricLog {
    updates: Vec<Update>,
}

impl View for MetricLog {
    type V = Seq<UpdateView>;

    closed spec fn view(&self) -> Seq<UpdateView> {
        self.updates@.map_values(|u: Update| u@)
    }
}

impl MetricLog {
    /// A log without updates.
    pub fn new() -> (r: MetricLog)
        ensures
            r@ == Seq::<UpdateView>::empty(),
    {
        let r: MetricLog = MetricLog { updates: Vec::new() };
        assert(r@ =~= Seq::<UpdateView>::empty());
        r
    }

    /// The updates, in order.
    pub fn into_updates(self) -> (r: Vec<Update>)
        ensures
            r@.map_values(|u: Update| u@) == self@,
    {
        self.updates
    }

    fn append(&mut self, name: &str, labels: Vec<(String, String)>, change: Change)
        ensures
            final(self)@ == old(self)@.push(
                UpdateView { name: name@, labels: label_views(labels@), change },
            ),
    {
        let u: Update = Update { name: name.to_owned(), labels, change };
        let ghost before: Seq<Update> = self.updates@;
        self.updates.push(u);
        assert(self@ =~= old(self)@.push(u@));
    }

    fn add_plain(&mut self, name: &str, change: Change)
        ensures
            final(self)@ == old(self)@.push(plain(name@, change)),
    {
        let labels: Vec<(String, String)> = Vec::new();
        assert(label_views(labels@) =~= Seq::empty());
        self.append(name, labels, change);
    }

    fn add_labelled(&mut self, name: &str, key: &str, value: &str, change: Change)
        ensures
            final(self)@ == old(self)@.push(labelled(name@, key@, value@, change)),
    {
        let mut labels: Vec<(String, String)> = Vec::new();
        labels.push((key.to_owned(), value.to_owned()));
        assert(label_views(labels@) =~= seq![(key@, value@)]);
        self.append(name, labels, change);
    }

    fn add_model(&mut self, name: &str, model: &str, change: Change)
        ensures
            final(self)@ == old(self)@.push(of_model(name@, model@, change)),
    {
        self.add_labelled(name, "model", model, change);
    }

    fn add_model_and(&mut self, name: &str, model: &str, key: &str, value: &str, change: Change)
        ensures
            final(self)@ == old(self)@.push(of_model_and(name@, model@, key@, value@, change)),
    {
        let mut labels: Vec<(String, String)> = Vec::new();
        labels.push(("model".to_owned(), model.to_owned()));
        labels.push((key.to_owned(), value.to_owned()));
        assert(label_views(labels@) =~= seq![("model"@, model@), (key@, value@)]);
        self.append(name, labels, change);
    }
}

/// A request has been answered: its outcome, how long it took and how many
/// texts it carried.
pub fn record_request(log: &mut MetricLog, model: &str, status: &str, nanos: u128, texts: usize)
    ensures
        final(log)@ == old(log)@.push(
            of_model_and("embed_requests_total"@, model@, "status"@, status@, Change::CounterIncrement(1)),
        ).push(
            of_model("embed_request_duration_seconds"@, model@, Change::HistogramRecord(Amount::Seconds { nanos })),
        ).push(
            of_model("embed_texts_per_request"@, model@, Change::HistogramRecord(Amount::Whole(texts as u128))),
        ),
{
    log.add_model_and("embed_requests_total", model, "status", status, Change::CounterIncrement(1));
    log.add_model("embed_request_duration_seconds", model, Change::HistogramRecord(Amount::Seconds { nanos }));
    log.add_model("embed_texts_per_request", model, Change::HistogramRecord(Amount::Whole(texts as u128)));
}

/// One inference round trip as the server sees it.
pub fn record_inference(log: &mut MetricLog, model: &str, nanos: u128, batch_size: usize)
    ensures
        final(log)@ == old(log)@.push(
            of_model("embed_inference_duration_seconds"@, model@, Change::HistogramRecord(Amount::Seconds { nanos })),
        ).push(
            of_model("embed_batch_size"@, model@, Change::HistogramRecord(Amount::Whole(batch_size as u128))),
        ),
{
    log.add_model("embed_inference_duration_seconds", model, Change::HistogramRecord(Amount::Seconds { nanos }));
    log.add_model("embed_batch_size", model, Change::HistogramRecord(Amount::Whole(batch_size as u128)));
}

/// One inference as the worker sees it. Its series have names of their own, so
/// that the two spans never mix.
pub fn record_worker_inference(log: &mut MetricLog, model: &str, nanos: u128, batch_size: usize)
    ensures
        final(log)@ == old(log)@.push(
            of_model("embed_worker_inference_duration_seconds"@, model@, Change::HistogramRecord(Amount::Seconds { nanos })),
        ).push(
            of_model("embed_worker_batch_size"@, model@, Change::HistogramRecord(Amount::Whole(batch_size as u128))),
        ),
{
    log.add_model("embed_worker_inference_duration_seconds", model, Change::HistogramRecord(Amount::Seconds { nanos }));
    log.add_model("embed_worker_batch_size", model, Change::HistogramRecord(Amount::Whole(batch_size as u128)));
}

/// How long a worker request waited for its turn.
pub fn record_worker_queue_wait(log: &mut MetricLog, model: &str, nanos: u128)
    ensures
        final(log)@ == old(log)@.push(
            of_model("embed_worker_queue_wait_duration_seconds"@, model@, Change::HistogramRecord(Amount::Seconds { nanos })),
        ),
{
    log.add_model("embed_worker_queue_wait_duration_seconds", model, Change::HistogramRecord(Amount::Seconds { nanos }));
}

/// A request was turned away because the queue is full.
pub fn record_queue_rejected(log: &mut MetricLog, model: &str)
    ensures
        final(log)@ == old(log)@.push(
            of_model("embed_queue_rejected_total"@, model@, Change::CounterIncrement(1)),
        ),
{
    log.add_model("embed_queue_rejected_total", model, Change::CounterIncrement(1));
}

/// An item was skipped because its caller has gone.
pub fn record_cancelled(log: &mut MetricLog, model: &str)
    ensures
        final(log)@ == old(log)@.push(
            of_model("embed_batcher_cancelled_items_total"@, model@, Change::CounterIncrement(1)),
        ),
{
    log.add_model("embed_batcher_cancelled_items_total", model, Change::CounterIncrement(1));
}

/// The number of items that wait in a batcher's queue.
pub fn set_queue_depth(log: &mut MetricLog, model: &str, depth: usize)
    ensures
        final(log)@ == old(log)@.push(
            of_model("embed_queue_depth"@, model@, Change::GaugeSet(Amount::Whole(depth as u128))),
        ),
{
    log.add_model("embed_queue_depth", model, Change::GaugeSet(Amount::Whole(depth as u128)));
}

/// How long an item waited from its arrival to the dispatch of its batch.
pub fn record_batch_wait_ms(log: &mut MetricLog, model: &str, nanos: u128)
    ensures
        final(log)@ == old(log)@.push(
            of_model("embed_batch_wait_ms"@, model@, Change::HistogramRecord(Amount::Millis { nanos })),
        ),
{
    log.add_model("embed_batch_wait_ms", model, Change::HistogramRecord(Amount::Millis { nanos }));
}

/// The tokens of one dispatched batch.
pub fn record_batch_tokens(log: &mut MetricLog, model: &str, tokens: usize)
    ensures
        final(log)@ == old(log)@.push(
            of_model("embed_batch_tokens"@, model@, Change::HistogramRecord(Amount::Whole(tokens as u128))),
        ),
{
    log.add_model("embed_batch_tokens", model, Change::HistogramRecord(Amount::Whole(tokens as u128)));
}

/// The share of a batch that is padding. An empty batch has none, and more
/// raw tokens than padded ones count as none.
pub open spec fn waste(padded: usize, raw: usize) -> Amount {
    if padded == 0 {
        Amount::Ratio { num: 0, den: 1 }
    } else if raw > padded {
        Amount::Ratio { num: 0, den: padded as u64 }
    } else {
        Amount::Ratio { num: (padded - raw) as u64, den: padded as u64 }
    }
}

fn waste_of(padded: usize, raw: usize) -> (r: Amount)
    ensures
        r == waste(padded, raw),
{
    if padded == 0 {
        Amount::Ratio { num: 0, den: 1 }
    } else {
        Amount::Ratio { num: padded.saturating_sub(raw) as u64, den: padded as u64 }
    }
}

/// The share of padding is a proper quotient between zero and one.
pub proof fn law_waste_is_a_share(padded: usize, raw: usize)
    ensures
        waste(padded, raw).denominator() > 0,
        0 <= waste(padded, raw).numerator() <= waste(padded, raw).denominator(),
        raw < padded ==> waste(padded, raw).numerator() == padded - raw && waste(
            padded,
            raw,
        ).denominator() == padded,
{
}

/// The share of padding in one dispatched batch.
pub fn record_padding_waste(log: &mut MetricLog, model: &str, padded: usize, raw: usize)
    ensures
        final(log)@ == old(log)@.push(
            of_model("embed_batch_padding_waste_ratio"@, model@, Change::HistogramRecord(waste(padded, raw))),
        ),
{
    log.add_model("embed_batch_padding_waste_ratio", model, Change::HistogramRecord(waste_of(padded, raw)));
}

/// One round of returning freed memory to the system. `released` says whether
/// there was any.
pub fn record_malloc_trim(log: &mut MetricLog, released: bool)
    ensures
        final(log)@ == if released {
            old(log)@.push(
                plain("embed_malloc_trim_invocations_total"@, Change::CounterIncrement(1)),
            ).push(plain("embed_malloc_trim_released_events_total"@, Change::CounterIncrement(1)))
        } else {
            old(log)@.push(
                plain("embed_malloc_trim_invocations_total"@, Change::CounterIncrement(1)),
            )
        },
{
    log.add_plain("embed_malloc_trim_invocations_total", Change::CounterIncrement(1));
    if released {
        log.add_plain("embed_malloc_trim_released_events_total", Change::CounterIncrement(1));
    }
}

/// A batch was cut because a further item would be longer than the cap on
/// sequences.
pub fn record_seq_capped(log: &mut MetricLog, model: &str)
    ensures
        final(log)@ == old(log)@.push(
            of_model_and("embed_batch_seq_capped_total"@, model@, "reason"@, "seq_overflow"@, Change::CounterIncrement(1)),
        ),
{
    log.add_model_and("embed_batch_seq_capped_total", model, "reason", "seq_overflow", Change::CounterIncrement(1));
}

/// A batch was cut because a further item is too long for the batch's shape.
pub fn record_length_ratio_carry(log: &mut MetricLog, model: &str)
    ensures
        final(log)@ == old(log)@.push(
            of_model_and("embed_batch_seq_capped_total"@, model@, "reason"@, "length_ratio"@, Change::CounterIncrement(1)),
        ),
{
    log.add_model_and("embed_batch_seq_capped_total", model, "reason", "length_ratio", Change::CounterIncrement(1));
}

/// The first item of a batch is longer than the cap on sequences; it was
/// admitted all the same.
pub fn record_solo_seq_overflow(log: &mut MetricLog, model: &str)
    ensures
        final(log)@ == old(log)@.push(
            of_model_and("embed_batch_seq_capped_total"@, model@, "reason"@, "solo_seq_overflow"@, Change::CounterIncrement(1)),
        ),
{
    log.add_model_and("embed_batch_seq_capped_total", model, "reason", "solo_seq_overflow", Change::CounterIncrement(1));
}

/// The length to which the sequences of a dispatched batch were padded.
pub fn record_batch_max_effective_seq(log: &mut MetricLog, model: &str, effective_seq: usize)
    ensures
        final(log)@ == old(log)@.push(
            of_model("embed_batch_max_effective_seq"@, model@, Change::HistogramRecord(Amount::Whole(effective_seq as u128))),
        ),
{
    log.add_model("embed_batch_max_effective_seq", model, Change::HistogramRecord(Amount::Whole(effective_seq as u128)));
}

/// An item was deferred to the next batch.
pub fn record_carry(log: &mut MetricLog, model: &str)
    ensures
        final(log)@ == old(log)@.push(
            of_model("embed_carry_events_total"@, model@, Change::CounterIncrement(1)),
        ),
{
    log.add_model("embed_carry_events_total", model, Change::CounterIncrement(1));
}

/// A deferred item was answered with a shutdown error instead of a batch.
pub fn record_carry_lost(log: &mut MetricLog, model: &str)
    ensures
        final(log)@ == old(log)@.push(
            of_model("embed_batcher_carry_lost_total"@, model@, Change::CounterIncrement(1)),
        ),
{
    log.add_model("embed_batcher_carry_lost_total", model, Change::CounterIncrement(1));
}

/// Makes the counter of lost deferred items visible before the first loss.
pub fn carry_lost_touch(log: &mut MetricLog, model: &str)
    ensures
        final(log)@ == old(log)@.push(
            of_model("embed_batcher_carry_lost_total"@, model@, Change::CounterAbsolute(0)),
        ),
{
    log.add_model("embed_batcher_carry_lost_total", model, Change::CounterAbsolute(0));
}

/// `n` texts of a request were found in the cache.
pub fn record_cache_hit_n(log: &mut MetricLog, model: &str, n: u64)
    ensures
        final(log)@ == old(log)@.push(
            of_model("embed_cache_hit_total"@, model@, Change::CounterIncrement(n)),
        ),
{
    log.add_model("embed_cache_hit_total", model, Change::CounterIncrement(n));
}

/// `n` texts of a request were not found in the cache.
pub fn record_cache_miss_n(log: &mut MetricLog, model: &str, n: u64)
    ensures
        final(log)@ == old(log)@.push(
            of_model("embed_cache_miss_total"@, model@, Change::CounterIncrement(n)),
        ),
{
    log.add_model("embed_cache_miss_total", model, Change::CounterIncrement(n));
}

/// One text of a request was found in the cache.
pub fn record_cache_hit(log: &mut MetricLog, model: &str)
    ensures
        final(log)@ == old(log)@.push(
            of_model("embed_cache_hit_total"@, model@, Change::CounterIncrement(1)),
        ),
{
    record_cache_hit_n(log, model, 1);
}

/// One text of a request was not found in the cache.
pub fn record_cache_miss(log: &mut MetricLog, model: &str)
    ensures
        final(log)@ == old(log)@.push(
            of_model("embed_cache_miss_total"@, model@, Change::CounterIncrement(1)),
        ),
{
    record_cache_miss_n(log, model, 1);
}

/// The number of entries in the response cache.
pub fn set_cache_size(log: &mut MetricLog, size: usize)
    ensures
        final(log)@ == old(log)@.push(
            plain("embed_cache_size"@, Change::GaugeSet(Amount::Whole(size as u128))),
        ),
{
    log.add_plain("embed_cache_size", Change::GaugeSet(Amount::Whole(size as u128)));
}

/// The tokenizer failed on a cache miss.
pub fn record_tokenize_fallback(log: &mut MetricLog)
    ensures
        final(log)@ == old(log)@.push(
            plain("embed_tokenize_fallback_total"@, Change::CounterIncrement(1)),
        ),
{
    log.add_plain("embed_tokenize_fallback_total", Change::CounterIncrement(1));
}

/// `n` pairs were found in the tokenizer cache.
pub fn record_token_cache_hit(log: &mut MetricLog, model: &str, n: u64)
    ensures
        final(log)@ == old(log)@.push(
            of_model_and("embed_token_cache_total"@, model@, "outcome"@, "hit"@, Change::CounterIncrement(n)),
        ),
{
    log.add_model_and("embed_token_cache_total", model, "outcome", "hit", Change::CounterIncrement(n));
}

/// `n` pairs were not found in the tokenizer cache.
pub fn record_token_cache_miss(log: &mut MetricLog, model: &str, n: u64)
    ensures
        final(log)@ == old(log)@.push(
            of_model_and("embed_token_cache_total"@, model@, "outcome"@, "miss"@, Change::CounterIncrement(n)),
        ),
{
    log.add_model_and("embed_token_cache_total", model, "outcome", "miss", Change::CounterIncrement(n));
}

/// The label of an arena extension strategy.
pub open spec fn strategy_label(extend_strategy: i32) -> Seq<char> {
    if extend_strategy == 1 {
        "kSameAsRequested"@
    } else {
        "kNextPowerOfTwo"@
    }
}

/// The settings of the shared memory arena.
pub fn set_arena_gauges(
    log: &mut MetricLog,
    max_mem_bytes: u64,
    initial_chunk_bytes: u64,
    max_dead_bytes: u64,
    extend_strategy: i32,
)
    ensures
        final(log)@ == old(log)@.push(
            plain(
                "embed_arena_max_mem_bytes"@,
                Change::GaugeSet(Amount::Whole(max_mem_bytes as u128)),
            ),
        ).push(
            plain(
                "embed_arena_initial_chunk_bytes"@,
                Change::GaugeSet(Amount::Whole(initial_chunk_bytes as u128)),
            ),
        ).push(
            plain(
                "embed_arena_max_dead_bytes"@,
                Change::GaugeSet(Amount::Whole(max_dead_bytes as u128)),
            ),
        ).push(
            labelled(
                "embed_arena_extend_strategy"@,
                "strategy"@,
                strategy_label(extend_strategy),
                Change::GaugeSet(Amount::Signed(extend_strategy as i64)),
            ),
        ),
{
    log.add_plain(
        "embed_arena_max_mem_bytes",
        Change::GaugeSet(Amount::Whole(max_mem_bytes as u128)),
    );
    log.add_plain(
        "embed_arena_initial_chunk_bytes",
        Change::GaugeSet(Amount::Whole(initial_chunk_bytes as u128)),
    );
    log.add_plain(
        "embed_arena_max_dead_bytes",
        Change::GaugeSet(Amount::Whole(max_dead_bytes as u128)),
    );
    let label: &str = if extend_strategy == 1 {
        "kSameAsRequested"
    } else {
        "kNextPowerOfTwo"
    };
    log.add_labelled(
        "embed_arena_extend_strategy",
        "strategy",
        label,
        Change::GaugeSet(Amount::Signed(extend_strategy as i64)),
    );
}

/// The arena was registered already; the earlier settings stay.
pub fn record_arena_register_skipped(log: &mut MetricLog)
    ensures
        final(log)@ == old(log)@.push(
            plain("embed_arena_register_skipped_total"@, Change::CounterIncrement(1)),
        ),
{
    log.add_plain("embed_arena_register_skipped_total", Change::CounterIncrement(1));
}

/// The arena could not be registered.
pub fn record_arena_registration_failed(log: &mut MetricLog)
    ensures
        final(log)@ == old(log)@.push(
            plain("embed_arena_registration_failed_total"@, Change::CounterIncrement(1)),
        ),
{
    log.add_plain("embed_arena_registration_failed_total", Change::CounterIncrement(1));
}

/// Makes the counter of failed registrations visible before the first failure.
pub fn arena_registration_failed_touch(log: &mut MetricLog)
    ensures
        final(log)@ == old(log)@.push(
            plain("embed_arena_registration_failed_total"@, Change::CounterAbsolute(0)),
        ),
{
    log.add_plain("embed_arena_registration_failed_total", Change::CounterAbsolute(0));
}

/// The cache of optimized graphs was asked for but cannot be used.
pub fn record_onnx_cache_disabled(log: &mut MetricLog, reason: &str)
    ensures
        final(log)@ == old(log)@.push(
            labelled("embed_onnx_cache_disabled_total"@, "reason"@, reason@, Change::CounterIncrement(1)),
        ),
{
    log.add_labelled("embed_onnx_cache_disabled_total", "reason", reason, Change::CounterIncrement(1));
}

/// A warmup run failed.
pub fn record_warmup_failed(log: &mut MetricLog, model: &str, phase: &str)
    ensures
        final(log)@ == old(log)@.push(
            of_model_and("embed_warmup_failed_total"@, model@, "phase"@, phase@, Change::CounterIncrement(1)),
        ),
{
    log.add_model_and("embed_warmup_failed_total", model, "phase", phase, Change::CounterIncrement(1));
}

/// A variable was set to something invalid, and its default is used.
pub fn record_config_fallback(log: &mut MetricLog, env_var: &str)
    ensures
        final(log)@ == old(log)@.push(
            labelled("embed_config_fallback_total"@, "env_var"@, env_var@, Change::CounterIncrement(1)),
        ),
{
    log.add_labelled("embed_config_fallback_total", "env_var", env_var, Change::CounterIncrement(1));
}

/// The tokens of one dispatched batch, padding counted.
pub fn record_batch_token_budget(
    log: &mut MetricLog,
    model: &str,
    batch_size: usize,
    seq_len: usize,
)
    requires
        batch_size * seq_len <= usize::MAX,
    ensures
        final(log)@ == old(log)@.push(
            of_model("embed_batch_token_budget"@, model@, Change::HistogramRecord(Amount::Whole((batch_size * seq_len) as u128))),
        ),
{
    log.add_model("embed_batch_token_budget", model, Change::HistogramRecord(Amount::Whole((batch_size * seq_len) as u128)));
}

/// The bucket label of a batch size.
pub open spec fn batch_size_label(n: usize) -> Seq<char> {
    if n == 1 {
        "1"@
    } else if n == 2 {
        "2"@
    } else if 3 <= n <= 4 {
        "4"@
    } else if 5 <= n <= 8 {
        "8"@
    } else if 9 <= n <= 16 {
        "16"@
    } else {
        "32+"@
    }
}

/// The bucket label of a sequence length.
pub open spec fn seq_len_label(n: usize) -> Seq<char> {
    if n <= 64 {
        "64"@
    } else if n <= 128 {
        "128"@
    } else if n <= 256 {
        "256"@
    } else if n <= 384 {
        "384"@
    } else {
        "512+"@
    }
}

/// The bucket label of a batch size.
pub fn bs_bucket(n: usize) -> (r: &'static str)
    ensures
        r@ == batch_size_label(n),
{
    if n == 1 {
        "1"
    } else if n == 2 {
        "2"
    } else if 3 <= n && n <= 4 {
        "4"
    } else if 5 <= n && n <= 8 {
        "8"
    } else if 9 <= n && n <= 16 {
        "16"
    } else {
        "32+"
    }
}

/// The bucket label of a sequence length.
pub fn sl_bucket(n: usize) -> (r: &'static str)
    ensures
        r@ == seq_len_label(n),
{
    if n <= 64 {
        "64"
    } else if n <= 128 {
        "128"
    } else if n <= 256 {
        "256"
    } else if n <= 384 {
        "384"
    } else {
        "512+"
    }
}

/// The shape of one dispatched batch, as a pair of bucket labels.
pub fn record_batch_dimensions(log: &mut MetricLog, model: &str, batch_size: usize, seq_len: usize)
    ensures
        final(log)@ == old(log)@.push(
            UpdateView {
                name: "embed_batch_dimensions_total"@,
                labels: seq![
                    ("model"@, model@),
                    ("batch_size_bucket"@, batch_size_label(batch_size)),
                    ("seq_len_bucket"@, seq_len_label(seq_len)),
                ],
                change: Change::CounterIncrement(1),
            },
        ),
{
    let mut labels: Vec<(String, String)> = Vec::new();
    labels.push(("model".to_owned(), model.to_owned()));
    labels.push(("batch_size_bucket".to_owned(), bs_bucket(batch_size).to_owned()));
    labels.push(("seq_len_bucket".to_owned(), sl_bucket(seq_len).to_owned()));
    assert(label_views(labels@) =~= seq![
        ("model"@, model@),
        ("batch_size_bucket"@, batch_size_label(batch_size)),
        ("seq_len_bucket"@, seq_len_label(seq_len)),
    ]);
    log.append("embed_batch_dimensions_total", labels, Change::CounterIncrement(1));
}

/// The estimated bytes of the attention tensor of one inference.
pub fn record_attention_scratch(
    log: &mut MetricLog,
    model: &str,
    batch_size: usize,
    num_heads: usize,
    seq_len: usize,
)
    ensures
        final(log)@ == old(log)@.push(
            of_model(
                "embed_inference_attention_scratch_bytes"@,
                model@,
                Change::HistogramRecord(Amount::Scratch { batch_size, num_heads, seq_len }),
            ),
        ),
{
    log.add_model(
        "embed_inference_attention_scratch_bytes",
        model,
        Change::HistogramRecord(Amount::Scratch { batch_size, num_heads, seq_len }),
    );
}

/// By how much one inference raised the process's memory.
pub fn record_inference_peak_bytes(log: &mut MetricLog, model: &str, delta_bytes: u64)
    ensures
        final(log)@ == old(log)@.push(
            of_model("embed_inference_peak_bytes"@, model@, Change::HistogramRecord(Amount::Whole(delta_bytes as u128))),
        ),
{
    log.add_model("embed_inference_peak_bytes", model, Change::HistogramRecord(Amount::Whole(delta_bytes as u128)));
}

fn decimal_text(n: u32) -> (r: String)
    ensures
        r@ == decimal(n as nat),
{
    let mut s: String = String::new();
    push_decimal(&mut s, n as u64);
    assert(s@ =~= decimal(n as nat));
    s
}

/// The arena was extended in the given bin.
pub fn record_arena_extend(log: &mut MetricLog, model: &str, bin_num: u32)
    ensures
        final(log)@ == old(log)@.push(
            of_model_and(
                "embed_arena_extend_total"@,
                model@,
                "bin_num"@,
                decimal(bin_num as nat),
                Change::CounterIncrement(1),
            ),
        ),
{
    let bin: String = decimal_text(bin_num);
    log.add_model_and(
        "embed_arena_extend_total",
        model,
        "bin_num",
        bin.as_str(),
        Change::CounterIncrement(1),
    );
}

/// An inference failed for the given reason.
pub fn record_inference_failure(log: &mut MetricLog, model: &str, reason: &str, bin_num: u32)
    ensures
        final(log)@ == old(log)@.push(
            UpdateView {
                name: "embed_inference_failures_total"@,
                labels: seq![
                    ("model"@, model@),
                    ("reason"@, reason@),
                    ("bin_num"@, decimal(bin_num as nat)),
                ],
                change: Change::CounterIncrement(1),
            },
        ),
{
    let mut labels: Vec<(String, String)> = Vec::new();
    labels.push(("model".to_owned(), model.to_owned()));
    labels.push(("reason".to_owned(), reason.to_owned()));
    labels.push(("bin_num".to_owned(), decimal_text(bin_num)));
    assert(label_views(labels@) =~= seq![
        ("model"@, model@),
        ("reason"@, reason@),
        ("bin_num"@, decimal(bin_num as nat)),
    ]);
    log.append("embed_inference_failures_total", labels, Change::CounterIncrement(1));
}

/// A text in ASCII lower case.
pub open spec fn lowered(s: Seq<char>) -> Seq<char> {
    s.map_values(|c: char| ascii_lower(c))
}

fn to_lowered(s: &str) -> (r: String)
    ensures
        r@ == lowered(s@),
{
    let chars: Vec<char> = crate::text::chars_of(s);
    let mut out: String = String::new();
    let mut i: usize = 0;
    while i < chars.len()
        invariant
            i <= chars.len(),
            chars@ == s@,
            out@ == lowered(s@.take(i as int)),
        decreases chars.len() - i,
    {
        let c: char = to_ascii_lower(chars[i]);
        proof {
            assert(lowered(s@.take(i as int + 1)) =~= lowered(s@.take(i as int)).push(c));
        }
        out.push(c);
        i = i + 1;
    }
    assert(s@.take(i as int) =~= s@);
    out
}

/// The failure label of a worker's error message. The first phrase of the list
/// that the message holds, in any case of letters, decides.
pub open spec fn failure_label(message: Seq<char>) -> Seq<char> {
    let m: Seq<char> = lowered(message);
    if contains_text(m, "queue overflow"@) {
        "queue_overflow"@
    } else if contains_text(m, "semaphore closed"@) {
        "semaphore_closed"@
    } else if contains_text(m, "saturated"@) {
        "worker_saturated"@
    } else if contains_text(m, "bfcarena"@) || contains_text(m, "arena"@) || contains_text(
        m,
        "oom"@,
    ) {
        "arena_oom"@
    } else if contains_text(m, "kind mismatch"@) {
        "kind_mismatch"@
    } else if contains_text(m, "tokeniz"@) {
        "tokenize"@
    } else {
        "other"@
    }
}

/// The failure label of a worker's error message: one of a fixed set, so that
/// no message text becomes a label.
pub fn classify_worker_error(message: &str) -> (r: &'static str)
    ensures
        r@ == failure_label(message@),
{
    let lower: String = to_lowered(message);
    let m: &str = lower.as_str();
    if contains(m, "queue overflow") {
        "queue_overflow"
    } else if contains(m, "semaphore closed") {
        "semaphore_closed"
    } else if contains(m, "saturated") {
        "worker_saturated"
    } else if contains(m, "bfcarena") || contains(m, "arena") || contains(m, "oom") {
        "arena_oom"
    } else if contains(m, "kind mismatch") {
        "kind_mismatch"
    } else if contains(m, "tokeniz") {
        "tokenize"
    } else {
        "other"
    }
}

/// The case of letters in an error message does not change its label.
pub proof fn law_failure_label_ignores_case(a: Seq<char>, b: Seq<char>)
    requires
        crate::text::same_ignoring_case(a, b),
    ensures
        failure_label(a) == failure_label(b),
{
    assert(lowered(a) =~= lowered(b));
}

/// A rerank request has been answered: its outcome, how long it took and how
/// many documents it carried.
pub fn record_rerank_request(
    log: &mut MetricLog,
    model: &str,
    status: &str,
    nanos: u128,
    doc_count: usize,
)
    ensures
        final(log)@ == old(log)@.push(
            of_model_and("embed_rerank_requests_total"@, model@, "status"@, status@, Change::CounterIncrement(1)),
        ).push(
            of_model("embed_rerank_request_duration_seconds"@, model@, Change::HistogramRecord(Amount::Seconds { nanos })),
        ).push(
            of_model("embed_rerank_pairs_per_request"@, model@, Change::HistogramRecord(Amount::Whole(doc_count as u128))),
        ),
{
    log.add_model_and("embed_rerank_requests_total", model, "status", status, Change::CounterIncrement(1));
    log.add_model("embed_rerank_request_duration_seconds", model, Change::HistogramRecord(Amount::Seconds { nanos }));
    log.add_model("embed_rerank_pairs_per_request", model, Change::HistogramRecord(Amount::Whole(doc_count as u128)));
}

/// One inference of a reranker.
pub fn record_rerank_inference(log: &mut MetricLog, model: &str, nanos: u128, batch_size: usize)
    ensures
        final(log)@ == old(log)@.push(
            of_model("embed_rerank_inference_duration_seconds"@, model@, Change::HistogramRecord(Amount::Seconds { nanos })),
        ).push(
            of_model("embed_rerank_batch_size"@, model@, Change::HistogramRecord(Amount::Whole(batch_size as u128))),
        ),
{
    log.add_model("embed_rerank_inference_duration_seconds", model, Change::HistogramRecord(Amount::Seconds { nanos }));
    log.add_model("embed_rerank_batch_size", model, Change::HistogramRecord(Amount::Whole(batch_size as u128)));
}

/// How long the tokenizer took for the pairs of a request that were not cached.
pub fn record_rerank_tokenizer(log: &mut MetricLog, model: &str, nanos: u128)
    ensures
        final(log)@ == old(log)@.push(
            of_model("embed_rerank_tokenizer_duration_seconds"@, model@, Change::HistogramRecord(Amount::Seconds { nanos })),
        ),
{
    log.add_model("embed_rerank_tokenizer_duration_seconds", model, Change::HistogramRecord(Amount::Seconds { nanos }));
}

/// How long a request waited for a reranker session.
pub fn record_rerank_pool_acquire(log: &mut MetricLog, model: &str, nanos: u128)
    ensures
        final(log)@ == old(log)@.push(
            of_model("embed_rerank_pool_acquire_duration_seconds"@, model@, Change::HistogramRecord(Amount::Seconds { nanos })),
        ),
{
    log.add_model("embed_rerank_pool_acquire_duration_seconds", model, Change::HistogramRecord(Amount::Seconds { nanos }));
}

/// The share of padding in one reranker batch.
pub fn record_rerank_padding_waste(log: &mut MetricLog, model: &str, padded: usize, raw: usize)
    ensures
        final(log)@ == old(log)@.push(
            of_model("embed_rerank_padding_waste_ratio"@, model@, Change::HistogramRecord(waste(padded, raw))),
        ),
{
    log.add_model("embed_rerank_padding_waste_ratio", model, Change::HistogramRecord(waste_of(padded, raw)));
}

/// A rerank request in flight. It is counted from `new` until `release`.
#[derive(Debug)]
pub struct RerankInFlightGuard {
    model: String,
}

impl RerankInFlightGuard {
    /// The model that the request is for.
    pub closed spec fn model(&self) -> Seq<char> {
        self.model@
    }

    /// A request for `model` begins.
    pub fn new(log: &mut MetricLog, model: &str) -> (r: RerankInFlightGuard)
        ensures
            r.model() == model@,
            final(log)@ == old(log)@.push(
                of_model("embed_rerank_in_flight"@, model@, Change::GaugeIncrement(1)),
            ),
    {
        log.add_model("embed_rerank_in_flight", model, Change::GaugeIncrement(1));
        RerankInFlightGuard { model: model.to_owned() }
    }

    /// The request ends.
    pub fn release(self, log: &mut MetricLog)
        ensures
            final(log)@ == old(log)@.push(
                of_model("embed_rerank_in_flight"@, self.model(), Change::GaugeDecrement(1)),
            ),
    {
        log.add_model("embed_rerank_in_flight", self.model.as_str(), Change::GaugeDecrement(1));
    }
}

/// An embeddings request carried too many texts.
pub fn record_input_array_rejected(log: &mut MetricLog, model: &str, reason: &str)
    ensures
        final(log)@ == old(log)@.push(
            of_model_and("embed_input_array_rejected_total"@, model@, "reason"@, reason@, Change::CounterIncrement(1)),
        ),
{
    log.add_model_and("embed_input_array_rejected_total", model, "reason", reason, Change::CounterIncrement(1));
}

/// The number of texts of an embeddings request, whether it was accepted or
/// not.
pub fn record_input_array_size(log: &mut MetricLog, model: &str, n: usize)
    ensures
        final(log)@ == old(log)@.push(
            of_model("embed_input_array_size"@, model@, Change::HistogramRecord(Amount::Whole(n as u128))),
        ),
{
    log.add_model("embed_input_array_size", model, Change::HistogramRecord(Amount::Whole(n as u128)));
}

/// The first item of a batch is over a budget; it was admitted all the same.
pub fn record_batcher_first_item_oversize(log: &mut MetricLog, model: &str, reason: &str)
    ensures
        final(log)@ == old(log)@.push(
            of_model_and("embed_batcher_first_item_oversize_total"@, model@, "reason"@, reason@, Change::CounterIncrement(1)),
        ),
{
    log.add_model_and("embed_batcher_first_item_oversize_total", model, "reason", reason, Change::CounterIncrement(1));
}

/// Whether a model's arena is shrunk after each run.
pub fn set_arena_shrink_enabled(log: &mut MetricLog, model: &str, enabled: bool)
    ensures
        final(log)@ == old(log)@.push(
            of_model(
                "embed_arena_shrink_enabled"@,
                model@,
                Change::GaugeSet(
                    Amount::Whole(
                        if enabled {
                            1
                        } else {
                            0
                        },
                    ),
                ),
            ),
        ),
{
    let value: u128 = if enabled {
        1
    } else {
        0
    };
    log.add_model("embed_arena_shrink_enabled", model, Change::GaugeSet(Amount::Whole(value)));
}

/// A model's arena was shrunk.
pub fn record_arena_shrink_call(log: &mut MetricLog, model: &str)
    ensures
        final(log)@ == old(log)@.push(
            of_model("embed_arena_shrink_calls_total"@, model@, Change::CounterIncrement(1)),
        ),
{
    log.add_model("embed_arena_shrink_calls_total", model, Change::CounterIncrement(1));
}

/// A worker process was restarted.
pub fn worker_restart_inc(log: &mut MetricLog, model: &str)
    ensures
        final(log)@ == old(log)@.push(
            of_model("embed_worker_restart_total"@, model@, Change::CounterIncrement(1)),
        ),
{
    log.add_model("embed_worker_restart_total", model, Change::CounterIncrement(1));
}

/// Makes the counter of restarts visible before the first restart.
pub fn worker_restart_touch(log: &mut MetricLog, model: &str)
    ensures
        final(log)@ == old(log)@.push(
            of_model("embed_worker_restart_total"@, model@, Change::CounterAbsolute(0)),
        ),
{
    log.add_model("embed_worker_restart_total", model, Change::CounterAbsolute(0));
}

/// The number of requests that wait in a worker.
pub fn set_worker_queue_depth(log: &mut MetricLog, model: &str, depth: usize)
    ensures
        final(log)@ == old(log)@.push(
            of_model("embed_worker_queue_depth"@, model@, Change::GaugeSet(Amount::Whole(depth as u128))),
        ),
{
    log.add_model("embed_worker_queue_depth", model, Change::GaugeSet(Amount::Whole(depth as u128)));
}

/// The memory that a worker process holds.
pub fn worker_rss_set(log: &mut MetricLog, model: &str, bytes: u64)
    ensures
        final(log)@ == old(log)@.push(
            of_model("embed_worker_rss_bytes"@, model@, Change::GaugeSet(Amount::Whole(bytes as u128))),
        ),
{
    log.add_model("embed_worker_rss_bytes", model, Change::GaugeSet(Amount::Whole(bytes as u128)));
}

/// Makes the memory gauge of a worker visible before its first reading.
pub fn worker_rss_touch(log: &mut MetricLog, model: &str)
    ensures
        final(log)@ == old(log)@.push(
            of_model("embed_worker_rss_bytes"@, model@, Change::GaugeSet(Amount::Whole(0))),
        ),
{
    log.add_model("embed_worker_rss_bytes", model, Change::GaugeSet(Amount::Whole(0)));
}

/// A rerank request carried too many documents. The check comes before the
/// model is known.
pub fn record_rerank_input_docs_rejected(log: &mut MetricLog, reason: &str)
    ensures
        final(log)@ == old(log)@.push(
            of_model_and(
                "embed_rerank_input_docs_rejected_total"@,
                "unknown"@,
                "reason"@,
                reason@,
                Change::CounterIncrement(1),
            ),
        ),
{
    log.add_model_and(
        "embed_rerank_input_docs_rejected_total",
        "unknown",
        "reason",
        reason,
        Change::CounterIncrement(1),
    );
}

/// The number of documents of a rerank request, whether it was accepted or
/// not.
pub fn record_rerank_input_docs_size(log: &mut MetricLog, n: usize)
    ensures
        final(log)@ == old(log)@.push(
            of_model(
                "embed_rerank_input_docs_size"@,
                "unknown"@,
                Change::HistogramRecord(Amount::Whole(n as u128)),
            ),
        ),
{
    log.add_model(
        "embed_rerank_input_docs_size",
        "unknown",
        Change::HistogramRecord(Amount::Whole(n as u128)),
    );
}

/// An evicted session is made anew.
pub fn record_pool_cold_start(log: &mut MetricLog, model: &str)
    ensures
        final(log)@ == old(log)@.push(
            of_model("embed_pool_cold_starts_total"@, model@, Change::CounterIncrement(1)),
        ),
{
    log.add_model("embed_pool_cold_starts_total", model, Change::CounterIncrement(1));
}

/// An evicted session could not be made anew.
pub fn record_pool_reinit_failure(log: &mut MetricLog, model: &str)
    ensures
        final(log)@ == old(log)@.push(
            of_model("embed_pool_reinit_failures_total"@, model@, Change::CounterIncrement(1)),
        ),
{
    log.add_model("embed_pool_reinit_failures_total", model, Change::CounterIncrement(1));
}

/// An idle session was freed.
pub fn record_pool_eviction(log: &mut MetricLog, model: &str)
    ensures
        final(log)@ == old(log)@.push(
            of_model("embed_pool_evictions_total"@, model@, Change::CounterIncrement(1)),
        ),
{
    log.add_model("embed_pool_evictions_total", model, Change::CounterIncrement(1));
}

/// A search for idle sessions broke down.
pub fn record_pool_eviction_loop_panic(log: &mut MetricLog, model: &str)
    ensures
        final(log)@ == old(log)@.push(
            of_model("embed_pool_eviction_loop_panics_total"@, model@, Change::CounterIncrement(1)),
        ),
{
    log.add_model("embed_pool_eviction_loop_panics_total", model, Change::CounterIncrement(1));
}

/// A pool was found locked by a task that broke down.
pub fn record_pool_mutex_poisoned(log: &mut MetricLog, model: &str)
    ensures
        final(log)@ == old(log)@.push(
            of_model("embed_pool_mutex_poisoned_total"@, model@, Change::CounterIncrement(1)),
        ),
{
    log.add_model("embed_pool_mutex_poisoned_total", model, Change::CounterIncrement(1));
}

/// A readiness probe was answered.
pub fn record_ready_probe(log: &mut MetricLog, result: &str)
    ensures
        final(log)@ == old(log)@.push(
            labelled("embed_ready_probe_total"@, "result"@, result@, Change::CounterIncrement(1)),
        ),
{
    log.add_labelled("embed_ready_probe_total", "result", result, Change::CounterIncrement(1));
}

/// A worker was asked for a sign of life.
pub fn record_worker_heartbeat(log: &mut MetricLog, result: &str)
    ensures
        final(log)@ == old(log)@.push(
            labelled("embed_worker_heartbeat_total"@, "result"@, result@, Change::CounterIncrement(1)),
        ),
{
    log.add_labelled("embed_worker_heartbeat_total", "result", result, Change::CounterIncrement(1));
}

/// Makes every outcome of the readiness probe visible before its first
/// occurrence.
pub fn ready_probe_touch(log: &mut MetricLog)
    ensures
        final(log)@ == old(log)@.push(
            labelled("embed_ready_probe_total"@, "result"@, "ok"@, Change::CounterAbsolute(0)),
        ).push(
            labelled("embed_ready_probe_total"@, "result"@, "timeout"@, Change::CounterAbsolute(0)),
        ).push(
            labelled("embed_ready_probe_total"@, "result"@, "error"@, Change::CounterAbsolute(0)),
        ).push(
            labelled("embed_ready_probe_total"@, "result"@, "shutdown"@, Change::CounterAbsolute(0)),
        ),
{
    log.add_labelled("embed_ready_probe_total", "result", "ok", Change::CounterAbsolute(0));
    log.add_labelled("embed_ready_probe_total", "result", "timeout", Change::CounterAbsolute(0));
    log.add_labelled("embed_ready_probe_total", "result", "error", Change::CounterAbsolute(0));
    log.add_labelled("embed_ready_probe_total", "result", "shutdown", Change::CounterAbsolute(0));
}

/// Makes every outcome of the heartbeat visible before its first occurrence.
pub fn worker_heartbeat_touch(log: &mut MetricLog)
    ensures
        final(log)@ == old(log)@.push(
            labelled("embed_worker_heartbeat_total"@, "result"@, "ok"@, Change::CounterAbsolute(0)),
        ).push(
            labelled("embed_worker_heartbeat_total"@, "result"@, "timeout"@, Change::CounterAbsolute(0)),
        ).push(
            labelled("embed_worker_heartbeat_total"@, "result"@, "error"@, Change::CounterAbsolute(0)),
        ).push(
            labelled("embed_worker_heartbeat_total"@, "result"@, "kill"@, Change::CounterAbsolute(0)),
        ),
{
    log.add_labelled("embed_worker_heartbeat_total", "result", "ok", Change::CounterAbsolute(0));
    log.add_labelled("embed_worker_heartbeat_total", "result", "timeout", Change::CounterAbsolute(0));
    log.add_labelled("embed_worker_heartbeat_total", "result", "error", Change::CounterAbsolute(0));
    log.add_labelled("embed_worker_heartbeat_total", "result", "kill", Change::CounterAbsolute(0));
}

/// The version of the program.
pub fn record_build_info(log: &mut MetricLog, version: &str)
    ensures
        final(log)@ == old(log)@.push(
            labelled("embed_build_info"@, "version"@, version@, Change::GaugeSet(Amount::Whole(1))),
        ),
{
    log.add_labelled("embed_build_info", "version", version, Change::GaugeSet(Amount::Whole(1)));
}

/// The series of a name and labels.
pub open spec fn is_of(u: UpdateView, name: Seq<char>, labels: Seq<(Seq<char>, Seq<char>)>) -> bool {
    u.name == name && u.labels == labels
}

/// The value of a counter after a log of updates: increments add up, and an
/// absolute value counts where it is larger.
pub open spec fn counter_value(
    log: Seq<UpdateView>,
    name: Seq<char>,
    labels: Seq<(Seq<char>, Seq<char>)>,
) -> nat
    decreases log.len(),
{
    if log.len() == 0 {
        0
    } else {
        let before: nat = counter_value(log.drop_last(), name, labels);
        if !is_of(log.last(), name, labels) {
            before
        } else {
            match log.last().change {
                Change::CounterIncrement(n) => before + n as nat,
                Change::CounterAbsolute(n) => if n > before {
                    n as nat
                } else {
                    before
                },
                _ => before,
            }
        }
    }
}

/// By how much a log of updates raises a gauge that is counted up and down.
pub open spec fn gauge_delta(
    log: Seq<UpdateView>,
    name: Seq<char>,
    labels: Seq<(Seq<char>, Seq<char>)>,
) -> int
    decreases log.len(),
{
    if log.len() == 0 {
        0
    } else {
        let before: int = gauge_delta(log.drop_last(), name, labels);
        if !is_of(log.last(), name, labels) {
            before
        } else {
            match log.last().change {
                Change::GaugeIncrement(n) => before + n,
                Change::GaugeDecrement(n) => before - n,
                _ => before,
            }
        }
    }
}

/// Making a counter visible does not change its value, nor that of any other.
pub proof fn law_touch_keeps_counts(
    log: Seq<UpdateView>,
    touched: UpdateView,
    name: Seq<char>,
    labels: Seq<(Seq<char>, Seq<char>)>,
)
    requires
        touched.change == Change::CounterAbsolute(0),
    ensures
        counter_value(log.push(touched), name, labels) == counter_value(log, name, labels),
{
    assert(log.push(touched).drop_last() =~= log);
}

/// A request that began and ended leaves the in-flight gauge of every model
/// where it was, whatever was recorded in between.
pub proof fn law_in_flight_is_balanced(
    before: Seq<UpdateView>,
    between: Seq<UpdateView>,
    model: Seq<char>,
    name: Seq<char>,
    labels: Seq<(Seq<char>, Seq<char>)>,
)
    ensures
        gauge_delta(
            before.push(of_model("embed_rerank_in_flight"@, model, Change::GaugeIncrement(1)))
                + between.push(
                of_model("embed_rerank_in_flight"@, model, Change::GaugeDecrement(1)),
            ),
            name,
            labels,
        ) == gauge_delta(before + between, name, labels),
{
    let up: UpdateView = of_model("embed_rerank_in_flight"@, model, Change::GaugeIncrement(1));
    let down: UpdateView = of_model("embed_rerank_in_flight"@, model, Change::GaugeDecrement(1));
    lemma_gauge_delta_adds(before, between, name, labels);
    lemma_gauge_delta_adds(before.push(up), between.push(down), name, labels);
    assert(before.push(up).drop_last() =~= before);
    assert(between.push(down).drop_last() =~= between);
}

proof fn lemma_gauge_delta_adds(
    a: Seq<UpdateView>,
    b: Seq<UpdateView>,
    name: Seq<char>,
    labels: Seq<(Seq<char>, Seq<char>)>,
)
    ensures
        gauge_delta(a + b, name, labels) == gauge_delta(a, name, labels) + gauge_delta(
            b,
            name,
            labels,
        ),
    decreases b.len(),
{
    if b.len() == 0 {
        assert(a + b =~= a);
    } else {
        lemma_gauge_delta_adds(a, b.drop_last(), name, labels);
        assert((a + b).drop_last() =~= a + b.drop_last());
        assert((a + b).last() == b.last());
    }
}

/// To which histograms a row of bucket bounds applies.
#[derive(Clone, Copy, Debug, PartialEq, Eq, Structural)]
pub enum Scope {
    /// Those whose name ends with the given text.
    Suffix,
    /// The one of the given name.
    Full,
}

/// The bucket bounds of some histograms.
#[derive(Debug)]
pub struct Buckets {
    pub scope: Scope,
    pub name: String,
    /// The upper bounds in thousandths, ascending.
    pub bounds: Vec<u64>,
}

/// What [`Buckets`] say.
#[verifier::ext_equal]
pub struct BucketsView {
    pub scope: Scope,
    pub name: Seq<char>,
    pub bounds: Seq<u64>,
}

impl View for Buckets {
    type V = BucketsView;

    open spec fn view(&self) -> BucketsView {
        BucketsView { scope: self.scope, name: self.name@, bounds: self.bounds@ }
    }
}

/// The row applies to the histogram of that name.
pub open spec fn applies(b: BucketsView, name: Seq<char>) -> bool {
    match b.scope {
        Scope::Suffix => has_suffix(name, b.name),
        Scope::Full => name == b.name,
    }
}

/// The bucket bounds of every histogram.
pub open spec fn bucket_table() -> Seq<BucketsView> {
    seq![
        BucketsView {
            scope: Scope::Suffix,
            name: "_duration_seconds"@,
            bounds: seq![5u64, 10, 25, 50, 100, 250, 500, 1_000, 2_500, 5_000, 10_000, 30_000],
        },
        BucketsView {
            scope: Scope::Suffix,
            name: "batch_size"@,
            bounds: seq![1_000u64, 2_000, 4_000, 8_000, 16_000, 32_000, 64_000, 128_000],
        },
        BucketsView {
            scope: Scope::Full,
            name: "embed_batch_wait_ms"@,
            bounds: seq![1_000u64, 5_000, 10_000, 25_000, 50_000, 100_000, 250_000, 500_000, 1_000_000, 5_000_000],
        },
        BucketsView {
            scope: Scope::Suffix,
            name: "padding_waste_ratio"@,
            bounds: seq![0u64, 100, 200, 300, 400, 500, 600, 700, 800, 900, 1_000],
        },
        BucketsView {
            scope: Scope::Full,
            name: "embed_batch_tokens"@,
            bounds: seq![128_000u64, 256_000, 512_000, 1_024_000, 2_048_000, 4_096_000, 8_192_000, 16_384_000],
        },
        BucketsView {
            scope: Scope::Full,
            name: "embed_texts_per_request"@,
            bounds: seq![1_000u64, 2_000, 4_000, 8_000, 16_000, 32_000, 64_000, 128_000, 256_000, 512_000, 1_024_000],
        },
        BucketsView {
            scope: Scope::Full,
            name: "embed_rerank_pairs_per_request"@,
            bounds: seq![1_000u64, 5_000, 10_000, 15_000, 20_000, 30_000, 50_000, 100_000],
        },
        BucketsView {
            scope: Scope::Full,
            name: "embed_batch_token_budget"@,
            bounds: seq![1_000_000u64, 4_000_000, 16_000_000, 64_000_000, 128_000_000, 256_000_000, 1_000_000_000, 4_000_000_000],
        },
        BucketsView {
            scope: Scope::Full,
            name: "embed_inference_attention_scratch_bytes"@,
            bounds: seq![1_048_576_000u64, 16_777_216_000, 67_108_864_000, 268_435_456_000, 1_073_741_824_000, 4_294_967_296_000],
        },
        BucketsView {
            scope: Scope::Full,
            name: "embed_inference_peak_bytes"@,
            bounds: seq![16_777_216_000u64, 67_108_864_000, 268_435_456_000, 536_870_912_000, 1_073_741_824_000, 2_147_483_648_000, 4_294_967_296_000, 8_589_934_592_000],
        },
        BucketsView {
            scope: Scope::Full,
            name: "embed_batch_max_effective_seq"@,
            bounds: seq![1_000u64, 2_000, 4_000, 8_000, 16_000, 32_000, 64_000, 128_000, 256_000, 512_000],
        },
        BucketsView {
            scope: Scope::Full,
            name: "embed_input_array_size"@,
            bounds: seq![1_000u64, 2_000, 4_000, 8_000, 16_000, 32_000, 64_000, 128_000, 256_000, 512_000],
        },
        BucketsView {
            scope: Scope::Full,
            name: "embed_rerank_input_docs_size"@,
            bounds: seq![1_000u64, 2_000, 4_000, 8_000, 16_000, 32_000, 64_000, 128_000, 256_000, 512_000],
        },
    ]
}

fn row(scope: Scope, name: &str, bounds: Vec<u64>) -> (r: Buckets)
    ensures
        r@ == (BucketsView { scope, name: name@, bounds: bounds@ }),
{
    Buckets { scope, name: name.to_owned(), bounds }
}

/// The bucket bounds of every histogram: one table for the server and for its
/// workers.
pub fn histogram_buckets() -> (r: Vec<Buckets>)
    ensures
        r@.map_values(|b: Buckets| b@) == bucket_table(),
{
    let mut out: Vec<Buckets> = Vec::new();
    out.push(row(Scope::Suffix, "_duration_seconds", vec![5, 10, 25, 50, 100, 250, 500, 1_000, 2_500, 5_000, 10_000, 30_000]));
    out.push(row(Scope::Suffix, "batch_size", vec![1_000, 2_000, 4_000, 8_000, 16_000, 32_000, 64_000, 128_000]));
    out.push(row(Scope::Full, "embed_batch_wait_ms", vec![1_000, 5_000, 10_000, 25_000, 50_000, 100_000, 250_000, 500_000, 1_000_000, 5_000_000]));
    out.push(row(Scope::Suffix, "padding_waste_ratio", vec![0, 100, 200, 300, 400, 500, 600, 700, 800, 900, 1_000]));
    out.push(row(Scope::Full, "embed_batch_tokens", vec![128_000, 256_000, 512_000, 1_024_000, 2_048_000, 4_096_000, 8_192_000, 16_384_000]));
    out.push(row(Scope::Full, "embed_texts_per_request", vec![1_000, 2_000, 4_000, 8_000, 16_000, 32_000, 64_000, 128_000, 256_000, 512_000, 1_024_000]));
    out.push(row(Scope::Full, "embed_rerank_pairs_per_request", vec![1_000, 5_000, 10_000, 15_000, 20_000, 30_000, 50_000, 100_000]));
    out.push(row(Scope::Full, "embed_batch_token_budget", vec![1_000_000, 4_000_000, 16_000_000, 64_000_000, 128_000_000, 256_000_000, 1_000_000_000, 4_000_000_000]));
    out.push(row(Scope::Full, "embed_inference_attention_scratch_bytes", vec![1_048_576_000, 16_777_216_000, 67_108_864_000, 268_435_456_000, 1_073_741_824_000, 4_294_967_296_000]));
    out.push(row(Scope::Full, "embed_inference_peak_bytes", vec![16_777_216_000, 67_108_864_000, 268_435_456_000, 536_870_912_000, 1_073_741_824_000, 2_147_483_648_000, 4_294_967_296_000, 8_589_934_592_000]));
    out.push(row(Scope::Full, "embed_batch_max_effective_seq", vec![1_000, 2_000, 4_000, 8_000, 16_000, 32_000, 64_000, 128_000, 256_000, 512_000]));
    out.push(row(Scope::Full, "embed_input_array_size", vec![1_000, 2_000, 4_000, 8_000, 16_000, 32_000, 64_000, 128_000, 256_000, 512_000]));
    out.push(row(Scope::Full, "embed_rerank_input_docs_size", vec![1_000, 2_000, 4_000, 8_000, 16_000, 32_000, 64_000, 128_000, 256_000, 512_000]));
    proof {
        let got: Seq<BucketsView> = out@.map_values(|b: Buckets| b@);
        let want: Seq<BucketsView> = bucket_table();
        assert(got.len() == want.len());
        assert(got[0] =~= want[0]);
        assert(got[1] =~= want[1]);
        assert(got[2] =~= want[2]);
        assert(got[3] =~= want[3]);
        assert(got[4] =~= want[4]);
        assert(got[5] =~= want[5]);
        assert(got[6] =~= want[6]);
        assert(got[7] =~= want[7]);
        assert(got[8] =~= want[8]);
        assert(got[9] =~= want[9]);
        assert(got[10] =~= want[10]);
        assert(got[11] =~= want[11]);
        assert(got[12] =~= want[12]);
        assert(got =~= want);
    }
    out
}

/// The bounds of every row ascend.
pub proof fn law_bounds_ascend(row: int, i: int, j: int)
    requires
        0 <= row < bucket_table().len(),
        0 <= i < j < bucket_table()[row].bounds.len(),
    ensures
        bucket_table()[row].bounds[i] < bucket_table()[row].bounds[j],
{
}

/// Every histogram of a span of seconds has the one latency ladder, and no
/// other row applies to it.
pub proof fn law_latency_ladder(name: Seq<char>, row: int)
    requires
        has_suffix(name, "_duration_seconds"@),
        0 <= row < bucket_table().len(),
    ensures
        applies(bucket_table()[row], name) <==> row == 0,
        bucket_table()[0].bounds == seq![5u64, 10, 25, 50, 100, 250, 500, 1_000, 2_500, 5_000, 10_000, 30_000],
{
    let n: int = name.len() as int;
    reveal_strlit("_duration_seconds");
    let tail: Seq<char> = name.subrange(n - 17, n);
    assert(name[n - 2] == tail[15] == 'd');
    assert(name[n - 1] == tail[16] == 's');
    reveal_strlit("batch_size");
    assert(!has_suffix(name, "batch_size"@)) by {
        if has_suffix(name, "batch_size"@) {
            assert(name.subrange(n - 10, n)[9] == name[n - 1]);
        }
    }
    reveal_strlit("embed_batch_wait_ms");
    reveal_strlit("padding_waste_ratio");
    assert(!has_suffix(name, "padding_waste_ratio"@)) by {
        if has_suffix(name, "padding_waste_ratio"@) {
            assert(name.subrange(n - 19, n)[18] == name[n - 1]);
        }
    }
    reveal_strlit("embed_batch_tokens");
    reveal_strlit("embed_texts_per_request");
    reveal_strlit("embed_rerank_pairs_per_request");
    reveal_strlit("embed_batch_token_budget");
    reveal_strlit("embed_inference_attention_scratch_bytes");
    reveal_strlit("embed_inference_peak_bytes");
    reveal_strlit("embed_batch_max_effective_seq");
    reveal_strlit("embed_input_array_size");
    reveal_strlit("embed_rerank_input_docs_size");
}

/// The numbers that are recorded, as fractions: a span counts its nanoseconds,
/// in seconds or in milliseconds, and a scratch tensor has four bytes for each
/// pair of positions, head and sequence.
pub proof fn law_amounts(a: Amount)
    ensures
        a matches Amount::Whole(n) ==> a.numerator() == n && a.denominator() == 1,
        a matches Amount::Signed(n) ==> a.numerator() == n && a.denominator() == 1,
        a matches Amount::Seconds { nanos } ==> a.numerator() * 1_000_000_000 == nanos
            * a.denominator() && a.denominator() == 1_000_000_000,
        a matches Amount::Millis { nanos } ==> a.numerator() * 1_000_000 == nanos * a.denominator()
            && a.denominator() == 1_000_000,
        a matches Amount::Ratio { num, den } ==> a.numerator() == num && a.denominator() == den,
        a matches Amount::Scratch { batch_size, num_heads, seq_len } ==> a.numerator() == 4 * (
        batch_size * num_heads * seq_len * seq_len) && a.denominator() == 1,
{
}

/// An update says what it holds, under its own name and with its own labels.
pub proof fn law_updates(
    u: Update,
    name: Seq<char>,
    model: Seq<char>,
    key: Seq<char>,
    value: Seq<char>,
    change: Change,
    i: int,
)
    ensures
        u@.name == u.name@,
        u@.change == u.change,
        u@.labels.len() == u.labels@.len(),
        0 <= i < u.labels@.len() ==> u@.labels[i] == (u.labels@[i].0@, u.labels@[i].1@),
        plain(name, change).name == name,
        plain(name, change).labels.len() == 0,
        plain(name, change).change == change,
        of_model(name, model, change).name == name,
        of_model(name, model, change).labels == seq![("model"@, model)],
        of_model(name, model, change).change == change,
        labelled(name, key, value, change).name == name,
        labelled(name, key, value, change).labels == seq![(key, value)],
        labelled(name, key, value, change).change == change,
        of_model_and(name, model, key, value, change).name == name,
        of_model_and(name, model, key, value, change).labels == seq![
            ("model"@, model),
            (key, value),
        ],
        of_model_and(name, model, key, value, change).change == change,
{
}

/// The waste is what is padded and no token, over all that is padded.
pub proof fn law_waste_is_what_is_no_token(padded: usize, raw: usize)
    ensures
        0 < padded && raw <= padded ==> (waste(padded, raw) matches Amount::Ratio { num, den }
            && num + raw == padded && den == padded),
        padded == 0 || raw >= padded ==> waste(padded, raw).numerator() == 0,
        waste(padded, raw).denominator() > 0,
{
}

/// The groups of batch sizes and lengths: a batch is in the group of the next
/// power of two up to sixteen, and a sequence in that of the next bound.
pub proof fn law_groups(n: usize)
    ensures
        n == 1 ==> batch_size_label(n) == "1"@,
        n == 2 ==> batch_size_label(n) == "2"@,
        2 < n && n <= 4 ==> batch_size_label(n) == "4"@,
        4 < n && n <= 8 ==> batch_size_label(n) == "8"@,
        8 < n && n <= 16 ==> batch_size_label(n) == "16"@,
        n == 0 || n > 16 ==> batch_size_label(n) == "32+"@,
        n <= 64 ==> seq_len_label(n) == "64"@,
        64 < n && n <= 128 ==> seq_len_label(n) == "128"@,
        128 < n && n <= 256 ==> seq_len_label(n) == "256"@,
        256 < n && n <= 384 ==> seq_len_label(n) == "384"@,
        n > 384 ==> seq_len_label(n) == "512+"@,
{
}

/// The names of the arena's strategies.
pub proof fn law_strategy_names(n: i32)
    ensures
        n == 1 ==> strategy_label(n) == "kSameAsRequested"@,
        n != 1 ==> strategy_label(n) == "kNextPowerOfTwo"@,
{
}

/// The kind of a failure is told from what its message says, in any case of the
/// letters; what is said first in this list counts.
pub proof fn law_failure_kinds(message: Seq<char>, i: int)
    ensures
        ({
            let m: Seq<char> = lowered(message);
            let label: Seq<char> = failure_label(message);
            let arena: bool = contains_text(m, "arena"@) || contains_text(m, "oom"@);
            let full: bool = contains_text(m, "queue overflow"@);
            let closed_room: bool = contains_text(m, "semaphore closed"@);
            let saturated: bool = contains_text(m, "saturated"@);
            let mixed: bool = contains_text(m, "kind mismatch"@);
            let tokens: bool = contains_text(m, "tokeniz"@);
            &&& m.len() == message.len()
            &&& 0 <= i < m.len() ==> {
                &&& 'A' <= message[i] <= 'Z' ==> m[i] as int == message[i] as int + 32
                &&& !('A' <= message[i] <= 'Z') ==> m[i] == message[i]
            }
            &&& full ==> label == "queue_overflow"@
            &&& !full && closed_room ==> label == "semaphore_closed"@
            &&& !full && !closed_room && saturated ==> label == "worker_saturated"@
            &&& !full && !closed_room && !saturated && arena ==> label == "arena_oom"@
            &&& !full && !closed_room && !saturated && !arena && mixed ==> label
                == "kind_mismatch"@
            &&& !full && !closed_room && !saturated && !arena && !mixed && tokens ==> label
                == "tokenize"@
            &&& !full && !closed_room && !saturated && !arena && !mixed && !tokens ==> label
                == "other"@
        }),
{
    let m: Seq<char> = lowered(message);
    if contains_text(m, "bfcarena"@) {
        let at: int = crate::text::law_held_text_is_there(m, "bfcarena"@);
        reveal_strlit("bfcarena");
        reveal_strlit("bfc");
        reveal_strlit("arena");
        assert("bfcarena"@ =~= "bfc"@ + "arena"@);
        let front: Seq<char> = m.take(at) + "bfc"@;
        let back: Seq<char> = m.skip(at + 8);
        assert(m =~= front + "arena"@ + back);
        crate::text::law_holding_a_text(front, "arena"@, back);
    }
}

/// A counter adds up the increments that carry its name and labels, and never
/// falls; a gauge goes up and down by those that do.
pub proof fn law_counters_and_gauges(
    log: Seq<UpdateView>,
    u: UpdateView,
    name: Seq<char>,
    labels: Seq<(Seq<char>, Seq<char>)>,
)
    ensures
        counter_value(Seq::<UpdateView>::empty(), name, labels) == 0,
        gauge_delta(Seq::<UpdateView>::empty(), name, labels) == 0,
        u.name != name || u.labels != labels ==> counter_value(log.push(u), name, labels)
            == counter_value(log, name, labels) && gauge_delta(log.push(u), name, labels)
            == gauge_delta(log, name, labels),
        u.name == name && u.labels == labels ==> {
            &&& u.change matches Change::CounterIncrement(n) ==> counter_value(
                log.push(u),
                name,
                labels,
            ) == counter_value(log, name, labels) + n
            &&& u.change matches Change::CounterAbsolute(n) ==> counter_value(
                log.push(u),
                name,
                labels,
            ) >= n
            &&& u.change matches Change::GaugeIncrement(n) ==> gauge_delta(
                log.push(u),
                name,
                labels,
            ) == gauge_delta(log, name, labels) + n
            &&& u.change matches Change::GaugeDecrement(n) ==> gauge_delta(
                log.push(u),
                name,
                labels,
            ) == gauge_delta(log, name, labels) - n
        },
        counter_value(log.push(u), name, labels) >= counter_value(log, name, labels),
{
    assert(log.push(u).drop_last() =~= log);
}

/// The ladders of the histograms: counts double from one, tokens double from
/// 128, shares go up by a tenth, and the others have bounds of their own. Bounds
/// are in thousandths.
pub proof fn law_ladders(row: int, i: int)
    ensures
        ({
            let t: Seq<BucketsView> = bucket_table();
            &&& t.len() == 13
            &&& t[1].name == "batch_size"@ && t[1].scope is Suffix && t[1].bounds.len() == 8
            &&& t[2].name == "embed_batch_wait_ms"@ && t[2].scope is Full && t[2].bounds == seq![
                1_000u64,
                5_000,
                10_000,
                25_000,
                50_000,
                100_000,
                250_000,
                500_000,
                1_000_000,
                5_000_000,
            ]
            &&& t[3].name == "padding_waste_ratio"@ && t[3].scope is Suffix && t[3].bounds.len()
                == 11
            &&& 0 <= i < 11 ==> t[3].bounds[i] == 100 * i
            &&& t[4].name == "embed_batch_tokens"@ && t[4].scope is Full && t[4].bounds.len() == 8
                && t[4].bounds[0] == 128_000
            &&& 0 <= i < 7 ==> t[4].bounds[i + 1] == 2 * t[4].bounds[i]
            &&& t[5].name == "embed_texts_per_request"@ && t[5].scope is Full
                && t[5].bounds.len() == 11
            &&& t[6].name == "embed_rerank_pairs_per_request"@ && t[6].scope is Full
                && t[6].bounds == seq![
                1_000u64,
                5_000,
                10_000,
                15_000,
                20_000,
                30_000,
                50_000,
                100_000,
            ]
            &&& t[7].name == "embed_batch_token_budget"@ && t[7].scope is Full && t[7].bounds
                == seq![
                1_000_000u64,
                4_000_000,
                16_000_000,
                64_000_000,
                128_000_000,
                256_000_000,
                1_000_000_000,
                4_000_000_000,
            ]
            &&& t[8].name == "embed_inference_attention_scratch_bytes"@ && t[8].scope is Full
                && t[8].bounds == seq![
                1_048_576_000u64,
                16_777_216_000,
                67_108_864_000,
                268_435_456_000,
                1_073_741_824_000,
                4_294_967_296_000,
            ]
            &&& t[9].name == "embed_inference_peak_bytes"@ && t[9].scope is Full && t[9].bounds
                == seq![
                16_777_216_000u64,
                67_108_864_000,
                268_435_456_000,
                536_870_912_000,
                1_073_741_824_000,
                2_147_483_648_000,
                4_294_967_296_000,
                8_589_934_592_000,
            ]
            &&& t[10].name == "embed_batch_max_effective_seq"@
            &&& t[11].name == "embed_input_array_size"@
            &&& t[12].name == "embed_rerank_input_docs_size"@
            &&& 10 <= row < 13 ==> t[row].scope is Full && t[row].bounds.len() == 10
            &&& (row == 1 || row == 5 || 10 <= row < 13) ==> {
                &&& t[row].bounds[0] == 1_000
                &&& 0 <= i < t[row].bounds.len() - 1 ==> t[row].bounds[i + 1] == 2
                    * t[row].bounds[i]
            }
        }),
{
}

/// A row applies to the names that end in its own, or to the one name.
pub proof fn law_rows_apply_by_name(b: Buckets, front: Seq<char>, name: Seq<char>)
    ensures
        b@.scope == b.scope,
        b@.name == b.name@,
        b@.bounds == b.bounds@,
        b.scope is Suffix ==> applies(b@, front + b.name@),
        b.scope is Full ==> (applies(b@, name) <==> name == b.name@),
        b.scope is Suffix && applies(b@, name) ==> name.len() >= b.name@.len() && name.skip(
            name.len() - b.name@.len(),
        ) == b.name@,
{
    crate::text::law_holding_a_text(front, b.name@, Seq::empty());
    crate::text::law_prefix_and_suffix(name, b.name@);
}

} // verus!
