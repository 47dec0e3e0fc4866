//! Which texts of a request are served from the cache, and which are to be
//! embedded.
//!
//! A text that stands at several positions of one request is embedded once,
//! and its vector goes to each of them.
use vstd::prelude::*;
use vstd::string::*;
use crate::cache::{digest, EmbeddingCache};
use crate::text::same;

verus! {

broadcast use group_string_axioms;

/// A slot per position: a vector from the cache, or nothing yet.
pub type CachedSlots = Vec<Option<Vec<u32>>>;

/// A text to embed and the positions that wait for its vector.
#[derive(Debug)]
pub struct PendingMiss {
    pub text: String,
    pub positions: Vec<usize>,
}

/// The texts to embed, in the order of their first positions.
#[derive(Debug)]
pub struct PendingMisses {
    pub entries: Vec<PendingMiss>,
}

/// The entry waits with exactly those empty positions below `n` that hold its
/// text, in order.
pub open spec fn collects(
    entry: PendingMiss,
    texts: Seq<String>,
    missing: spec_fn(int) -> bool,
    n: int,
) -> bool {
    let p: Seq<usize> = entry.positions@;
    &&& p.len() > 0
    &&& forall|a: int, b: int| 0 <= a < b < p.len() ==> #[trigger] p[a] < #[trigger] p[b]
    &&& forall|a: int|
        0 <= a < p.len() ==> #[trigger] p[a] < n && missing(p[a] as int) && texts[p[a] as int]@
            == entry.text@
    &&& forall|i: int|
        0 <= i < n && #[trigger] missing(i) && texts[i]@ == entry.text@ ==> p.contains(i as usize)
}

/// The entries group the empty positions below `n` by text: each text stands
/// once, the entries are in the order of their first positions, and every
/// empty position waits with the entry of its text.
pub open spec fn groups(
    entries: Seq<PendingMiss>,
    texts: Seq<String>,
    missing: spec_fn(int) -> bool,
    n: int,
) -> bool {
    &&& forall|e: int| 0 <= e < entries.len() ==> collects(#[trigger] entries[e], texts, missing, n)
    &&& forall|e: int, f: int|
        0 <= e < f < entries.len() ==> (#[trigger] entries[e]).text@ != (#[trigger] entries[f]).text@
            && entries[e].positions@[0] < entries[f].positions@[0]
    &&& forall|i: int|
        0 <= i < n && #[trigger] missing(i) ==> exists|e: int|
            0 <= e < entries.len() && (#[trigger] entries[e]).text@ == texts[i]@
}

/// The positions without a vector.
pub open spec fn empty_slots(cached: Seq<Option<Vec<u32>>>) -> spec_fn(int) -> bool {
    |i: int| 0 <= i < cached.len() && cached[i] is None
}

impl PendingMisses {
    /// The number of texts to embed.
    pub fn len(&self) -> (r: usize)
        ensures
            r == self.entries@.len(),
    {
        self.entries.len()
    }

    /// Whether there is nothing to embed.
    pub fn is_empty(&self) -> (r: bool)
        ensures
            r == (self.entries@.len() == 0),
    {
        self.entries.len() == 0
    }

    /// The entry of a text: its place among the entries.
    pub fn find(&self, text: &str) -> (r: Option<usize>)
        ensures
            match r {
                Some(e) => e < self.entries@.len() && self.entries@[e as int].text@ == text@,
                None => forall|e: int|
                    0 <= e < self.entries@.len() ==> (#[trigger] self.entries@[e]).text@ != text@,
            },
    {
        let mut e: usize = 0;
        while e < self.entries.len()
            invariant
                e <= self.entries.len(),
                forall|f: int| 0 <= f < e ==> (#[trigger] self.entries@[f]).text@ != text@,
            decreases self.entries.len() - e,
        {
            if same(self.entries[e].text.as_str(), text) {
                return Some(e);
            }
            e = e + 1;
        }
        None
    }

    /// The positions that wait for a text's vector.
    pub fn get(&self, text: &str) -> (r: Option<&Vec<usize>>)
        ensures
            match r {
                Some(p) => exists|e: int|
                    0 <= e < self.entries@.len() && (#[trigger] self.entries@[e]).text@ == text@
                        && self.entries@[e].positions == *p,
                None => forall|e: int|
                    0 <= e < self.entries@.len() ==> (#[trigger] self.entries@[e]).text@ != text@,
            },
    {
        match self.find(text) {
            Some(e) => Some(&self.entries[e].positions),
            None => None,
        }
    }

    /// The texts to embed, in order.
    pub fn texts(&self) -> (r: Vec<String>)
        ensures
            r@.len() == self.entries@.len(),
            forall|e: int| 0 <= e < r@.len() ==> (#[trigger] r@[e])@ == self.entries@[e].text@,
    {
        let mut out: Vec<String> = Vec::new();
        let mut e: usize = 0;
        while e < self.entries.len()
            invariant
                e <= self.entries.len(),
                out@.len() == e,
                forall|f: int| 0 <= f < e ==> (#[trigger] out@[f])@ == self.entries@[f].text@,
            decreases self.entries.len() - e,
        {
            out.push(self.entries[e].text.clone());
            e = e + 1;
        }
        out
    }
}

proof fn lemma_group_step_new(
    entries: Seq<PendingMiss>,
    fresh: PendingMiss,
    texts: Seq<String>,
    missing: spec_fn(int) -> bool,
    n: int,
)
    requires
        0 <= n < texts.len() <= usize::MAX,
        groups(entries, texts, missing, n),
        missing(n),
        forall|e: int| 0 <= e < entries.len() ==> (#[trigger] entries[e]).text@ != texts[n]@,
        fresh.text@ == texts[n]@,
        fresh.positions@ == seq![n as usize],
    ensures
        groups(entries.push(fresh), texts, missing, n + 1),
{
    let after: Seq<PendingMiss> = entries.push(fresh);
    assert forall|e: int| 0 <= e < after.len() implies collects(
        #[trigger] after[e],
        texts,
        missing,
        n + 1,
    ) by {
        if e < entries.len() {
            assert(after[e] == entries[e]);
            assert(collects(entries[e], texts, missing, n));
        } else {
            assert(fresh.positions@[0] == n as usize);
            assert forall|i: int| 0 <= i < n + 1 && #[trigger] missing(i) && texts[i]@
                == fresh.text@ implies fresh.positions@.contains(i as usize) by {
                if i < n {
                    let f: int = choose|f: int|
                        0 <= f < entries.len() && (#[trigger] entries[f]).text@ == texts[i]@;
                    assert(entries[f].text@ == texts[n]@);
                }
            }
        }
    }
    assert forall|e: int, f: int| 0 <= e < f < after.len() implies (#[trigger] after[e]).text@ != (
    #[trigger] after[f]).text@ && after[e].positions@[0] < after[f].positions@[0] by {
        if f == entries.len() {
            assert(collects(entries[e], texts, missing, n));
            assert(entries[e].positions@[0] < n);
        }
    }
    assert forall|i: int| 0 <= i < n + 1 && #[trigger] missing(i) implies exists|e: int|
        0 <= e < after.len() && (#[trigger] after[e]).text@ == texts[i]@ by {
        if i < n {
            let f: int = choose|f: int|
                0 <= f < entries.len() && (#[trigger] entries[f]).text@ == texts[i]@;
            assert(after[f].text@ == texts[i]@);
        } else {
            assert(after[entries.len() as int].text@ == texts[i]@);
        }
    }
}

proof fn lemma_group_step_known(
    entries: Seq<PendingMiss>,
    after: Seq<PendingMiss>,
    k: int,
    texts: Seq<String>,
    missing: spec_fn(int) -> bool,
    n: int,
)
    requires
        0 <= n < texts.len() <= usize::MAX,
        groups(entries, texts, missing, n),
        missing(n),
        0 <= k < entries.len(),
        entries[k].text@ == texts[n]@,
        after.len() == entries.len(),
        after[k].text@ == entries[k].text@,
        after[k].positions@ == entries[k].positions@.push(n as usize),
        forall|e: int| 0 <= e < entries.len() && e != k ==> #[trigger] after[e] == entries[e],
    ensures
        groups(after, texts, missing, n + 1),
{
    assert(collects(entries[k], texts, missing, n));
    assert forall|e: int| 0 <= e < after.len() implies collects(
        #[trigger] after[e],
        texts,
        missing,
        n + 1,
    ) by {
        assert(collects(entries[e], texts, missing, n));
        if e == k {
            let p: Seq<usize> = entries[k].positions@;
            let q: Seq<usize> = after[k].positions@;
            assert forall|a: int| 0 <= a < q.len() implies #[trigger] q[a] < n + 1 && missing(
                q[a] as int,
            ) && texts[q[a] as int]@ == after[k].text@ by {
                if a < p.len() {
                    assert(q[a] == p[a]);
                }
            }
            assert forall|a: int, b: int| 0 <= a < b < q.len() implies #[trigger] q[a]
                < #[trigger] q[b] by {
                assert(q[a] == p[a]);
                if b < p.len() {
                    assert(q[b] == p[b]);
                }
            }
            assert forall|i: int| 0 <= i < n + 1 && #[trigger] missing(i) && texts[i]@
                == after[k].text@ implies q.contains(i as usize) by {
                if i < n {
                    assert(p.contains(i as usize));
                    let a: int = choose|a: int| 0 <= a < p.len() && p[a] == i as usize;
                    assert(q[a] == i as usize);
                } else {
                    assert(q[p.len() as int] == i as usize);
                }
            }
        } else {
            assert(after[e] == entries[e]);
        }
    }
    assert forall|e: int, f: int| 0 <= e < f < after.len() implies (#[trigger] after[e]).text@ != (
    #[trigger] after[f]).text@ && after[e].positions@[0] < after[f].positions@[0] by {
        assert(entries[e].text@ != entries[f].text@);
        assert(collects(entries[e], texts, missing, n) && collects(entries[f], texts, missing, n));
        assert(after[e].positions@[0] == entries[e].positions@[0]);
        assert(after[f].positions@[0] == entries[f].positions@[0]);
    }
    assert forall|i: int| 0 <= i < n + 1 && #[trigger] missing(i) implies exists|e: int|
        0 <= e < after.len() && (#[trigger] after[e]).text@ == texts[i]@ by {
        if i < n {
            let f: int = choose|f: int|
                0 <= f < entries.len() && (#[trigger] entries[f]).text@ == texts[i]@;
            assert(after[f].text@ == texts[i]@);
        } else {
            assert(after[k].text@ == texts[i]@);
        }
    }
}

/// Groups the positions without a vector by their texts.
pub fn group_misses(texts: &Vec<String>, cached: &CachedSlots) -> (r: PendingMisses)
    requires
        cached@.len() == texts@.len(),
    ensures
        groups(r.entries@, texts@, empty_slots(cached@), texts@.len() as int),
{
    let ghost missing = empty_slots(cached@);
    let mut pending: PendingMisses = PendingMisses { entries: Vec::new() };
    let mut i: usize = 0;
    while i < texts.len()
        invariant
            i <= texts.len(),
            cached@.len() == texts@.len(),
            missing == empty_slots(cached@),
            groups(pending.entries@, texts@, missing, i as int),
        decreases texts.len() - i,
    {
        let ghost before: Seq<PendingMiss> = pending.entries@;
        if cached[i].is_none() {
            assert(missing(i as int));
            match pending.find(texts[i].as_str()) {
                Some(e) => {
                    pending.entries[e].positions.push(i);
                    proof {
                        lemma_group_step_known(
                            before,
                            pending.entries@,
                            e as int,
                            texts@,
                            missing,
                            i as int,
                        );
                    }
                },
                None => {
                    let mut positions: Vec<usize> = Vec::new();
                    positions.push(i);
                    let fresh: PendingMiss = PendingMiss { text: texts[i].clone(), positions };
                    assert(fresh.positions@ =~= seq![i]);
                    pending.entries.push(fresh);
                    proof {
                        lemma_group_step_new(before, fresh, texts@, missing, i as int);
                    }
                },
            }
        } else {
            proof {
                assert(!missing(i as int));
                assert forall|e: int| 0 <= e < before.len() implies collects(
                    #[trigger] before[e],
                    texts@,
                    missing,
                    i + 1,
                ) by {
                    assert(collects(before[e], texts@, missing, i as int));
                }
            }
        }
        i = i + 1;
    }
    pending
}

/// Looks each text up in the cache, and groups the positions without a vector
/// by their texts. Every position either has a vector, which is the one that
/// was written last for its text, or waits with exactly one entry. A settled
/// cache serves the positions whose texts it keeps, and no others.
pub fn partition_hits_and_misses(
    cache: &EmbeddingCache,
    model: &str,
    texts: &Vec<String>,
) -> (r: (CachedSlots, PendingMisses))
    ensures
        r.0@.len() == texts@.len(),
        forall|i: int|
            0 <= i < texts@.len() ==> ((#[trigger] r.0@[i]) matches Some(v) ==> cache@.contains_pair(
                (model@, digest(texts@[i]@)),
                v@,
            )),
        forall|i: int|
            0 <= i < texts@.len() && cache@.contains_key((model@, digest(texts@[i]@)))
                && cache@.dom().len() <= cache.capacity() ==> (#[trigger] r.0@[i]) is Some,
        !cache.on() ==> forall|i: int| 0 <= i < texts@.len() ==> (#[trigger] r.0@[i]) is None,
        cache.settled() ==> forall|i: int|
            0 <= i < texts@.len() ==> ((#[trigger] r.0@[i]) is Some <==> cache.kept().contains(
                (model@, digest(texts@[i]@)),
            )),
        groups(r.1.entries@, texts@, empty_slots(r.0@), texts@.len() as int),
{
    let mut cached: CachedSlots = Vec::new();
    let mut i: usize = 0;
    while i < texts.len()
        invariant
            i <= texts.len(),
            cached@.len() == i,
            forall|j: int|
                0 <= j < i ==> ((#[trigger] cached@[j]) matches Some(v) ==> cache@.contains_pair(
                    (model@, digest(texts@[j]@)),
                    v@,
                )),
            forall|j: int|
                0 <= j < i && cache@.contains_key((model@, digest(texts@[j]@)))
                    && cache@.dom().len() <= cache.capacity() ==> (#[trigger] cached@[j]) is Some,
            !cache.on() ==> forall|j: int| 0 <= j < i ==> (#[trigger] cached@[j]) is None,
            cache.settled() ==> forall|j: int|
                0 <= j < i ==> ((#[trigger] cached@[j]) is Some <==> cache.kept().contains(
                    (model@, digest(texts@[j]@)),
                )),
        decreases texts.len() - i,
    {
        cached.push(cache.get(model, texts[i].as_str()));
        i = i + 1;
    }
    let pending: PendingMisses = group_misses(texts, &cached);
    (cached, pending)
}

/// No position is both served and waiting, none is neither, and none waits
/// twice.
pub proof fn law_each_position_once(
    entries: Seq<PendingMiss>,
    texts: Seq<String>,
    cached: Seq<Option<Vec<u32>>>,
    i: int,
)
    requires
        cached.len() == texts.len() <= usize::MAX,
        groups(entries, texts, empty_slots(cached), texts.len() as int),
        0 <= i < texts.len(),
    ensures
        cached[i] is Some ==> forall|e: int|
            0 <= e < entries.len() ==> !(#[trigger] entries[e]).positions@.contains(i as usize),
        cached[i] is None ==> exists|e: int|
            0 <= e < entries.len() && (#[trigger] entries[e]).positions@.contains(i as usize),
        forall|e: int, f: int|
            0 <= e < entries.len() && 0 <= f < entries.len()
                && (#[trigger] entries[e]).positions@.contains(i as usize)
                && (#[trigger] entries[f]).positions@.contains(i as usize) ==> e == f,
        forall|e: int|
            0 <= e < entries.len() ==> (#[trigger] entries[e]).positions@.no_duplicates(),
{
    let missing = empty_slots(cached);
    let n: int = texts.len() as int;
    assert forall|e: int| 0 <= e < entries.len() && (#[trigger] entries[e]).positions@.contains(
        i as usize,
    ) implies missing(i) && texts[i]@ == entries[e].text@ by {
        assert(collects(entries[e], texts, missing, n));
        let a: int = choose|a: int|
            0 <= a < entries[e].positions@.len() && entries[e].positions@[a] == i as usize;
        assert(entries[e].positions@[a] < n);
    }
    if cached[i] is None {
        assert(missing(i));
        let e: int = choose|e: int|
            0 <= e < entries.len() && (#[trigger] entries[e]).text@ == texts[i]@;
        assert(collects(entries[e], texts, missing, n));
        assert(entries[e].positions@.contains(i as usize));
    }
    assert forall|e: int, f: int|
        0 <= e < entries.len() && 0 <= f < entries.len() && (
        #[trigger] entries[e]).positions@.contains(i as usize) && (
        #[trigger] entries[f]).positions@.contains(i as usize) implies e == f by {
        assert(entries[e].text@ == entries[f].text@);
        if e < f {
            assert(entries[e].text@ != entries[f].text@);
        }
        if f < e {
            assert(entries[f].text@ != entries[e].text@);
        }
    }
    assert forall|e: int| 0 <= e < entries.len() implies (
    #[trigger] entries[e]).positions@.no_duplicates() by {
        assert(collects(entries[e], texts, missing, n));
    }
}

/// An entry waits for one text: all its positions hold that text, none of them
/// has a vector, and no such position is left out; the entries stand in the
/// order of their first positions, no two for the same text.
pub proof fn law_entry_waits_for_its_text(
    entries: Seq<PendingMiss>,
    texts: Seq<String>,
    cached: Seq<Option<Vec<u32>>>,
    e: int,
    a: int,
    i: int,
)
    requires
        cached.len() == texts.len() <= usize::MAX,
        groups(entries, texts, empty_slots(cached), texts.len() as int),
        0 <= e < entries.len(),
        0 <= a < entries[e].positions@.len(),
        0 <= i < texts.len(),
    ensures
        entries[e].positions@[a] < texts.len(),
        texts[entries[e].positions@[a] as int]@ == entries[e].text@,
        cached[entries[e].positions@[a] as int] is None,
        cached[i] is None && texts[i]@ == entries[e].text@ ==> entries[e].positions@.contains(
            i as usize,
        ),
        a > 0 ==> entries[e].positions@[a - 1] < entries[e].positions@[a],
        e + 1 < entries.len() ==> entries[e].text@ != entries[e + 1].text@
            && entries[e].positions@[0] < entries[e + 1].positions@[0],
{
    let missing = empty_slots(cached);
    assert(collects(entries[e], texts, missing, texts.len() as int));
    assert(missing(entries[e].positions@[a] as int));
    if cached[i] is None && texts[i]@ == entries[e].text@ {
        assert(missing(i));
    }
    if e + 1 < entries.len() {
        assert(collects(entries[e + 1], texts, missing, texts.len() as int));
    }
}

/// Every text without a vector is waited for by one entry, and by no other, and
/// a slot is empty exactly where it has no vector.
pub proof fn law_every_missing_text_is_waited_for(
    entries: Seq<PendingMiss>,
    texts: Seq<String>,
    cached: Seq<Option<Vec<u32>>>,
    i: int,
) -> (e: int)
    requires
        cached.len() == texts.len() <= usize::MAX,
        groups(entries, texts, empty_slots(cached), texts.len() as int),
        0 <= i < texts.len(),
        cached[i] is None,
    ensures
        0 <= e < entries.len(),
        entries[e].text@ == texts[i]@,
        entries[e].positions@.contains(i as usize),
        forall|f: int| 0 <= f < entries.len() && f != e ==> (#[trigger] entries[f]).text@
            != texts[i]@,
{
    let missing = empty_slots(cached);
    assert(missing(i));
    let e: int = choose|e: int|
        0 <= e < entries.len() && (#[trigger] entries[e]).text@ == texts[i]@;
    assert(collects(entries[e], texts, missing, texts.len() as int));
    assert forall|f: int| 0 <= f < entries.len() && f != e implies (#[trigger] entries[f]).text@
        != texts[i]@ by {
        if f < e {
            assert(entries[f].text@ != entries[e].text@);
        } else {
            assert(entries[e].text@ != entries[f].text@);
        }
    }
    e
}

} // verus!
