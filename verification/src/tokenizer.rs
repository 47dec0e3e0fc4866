//! Tokenizers: how they are set up, and the token sequences that they give.
use vstd::prelude::*;
use vstd::string::*;
use tokenizers::utils::truncation::{TruncationDirection, TruncationParams, TruncationStrategy};
use tokenizers::{PostProcessor, Tokenizer};
use crate::model::{clip_ids, overlong};
use crate::soundness::{can_be_asked, draws_lots, is_sound, same_makeup};
use crate::text::has_prefix;

verus! {

broadcast use group_string_axioms;

/// From which end a tokenizer cuts.
#[derive(Clone, Copy, Debug, PartialEq, Eq, Structural)]
pub enum CutSide {
    Left,
    Right,
}

/// Which text of a pair a tokenizer cuts.
#[derive(Clone, Copy, Debug, PartialEq, Eq, Structural)]
pub enum CutRule {
    LongestFirst,
    OnlyFirst,
    OnlySecond,
}

/// How a tokenizer cuts overlong texts.
#[derive(Clone, Copy, Debug, PartialEq, Eq, Structural)]
pub struct Truncation {
    pub max_length: usize,
    pub stride: usize,
    pub side: CutSide,
    pub rule: CutRule,
}

/// How a tokenizer is set up to cut overlong texts, if it is.
pub uninterp spec fn truncation_of(t: Tokenizer) -> Option<Truncation>;

/// Whether a tokenizer is set up to pad.
pub uninterp spec fn is_padding(t: Tokenizer) -> bool;

/// The number of special tokens that a tokenizer puts around a single text.
pub uninterp spec fn special_tokens_of(t: Tokenizer) -> nat;

/// The tokens that a tokenizer gives for one text, with or without the special
/// ones, where it does not decide by chance.
pub uninterp spec fn tokens_of(t: Tokenizer, text: Seq<char>, special: bool) -> Seq<u32>;

/// Whether a tokenizer that does not decide by chance has tokens for one text.
pub uninterp spec fn encodes(t: Tokenizer, text: Seq<char>, special: bool) -> bool;

/// A tokenizer that does not decide by chance has tokens for each text.
pub open spec fn all_encode(t: Tokenizer, texts: Seq<String>, special: bool) -> bool {
    forall|i: int| 0 <= i < texts.len() ==> encodes(t, (#[trigger] texts[i])@, special)
}

/// `TokenizerImpl::get_truncation`: how a tokenizer cuts overlong texts.
#[verifier::external_body]
fn truncation(tokenizer: &Tokenizer) -> (r: Option<Truncation>)
    ensures
        r == truncation_of(*tokenizer),
{
    tokenizer.get_truncation().map(|p| Truncation {
        max_length: p.max_length,
        stride: p.stride,
        side: match p.direction {
            TruncationDirection::Left => CutSide::Left,
            TruncationDirection::Right => CutSide::Right,
        },
        rule: match p.strategy {
            TruncationStrategy::LongestFirst => CutRule::LongestFirst,
            TruncationStrategy::OnlyFirst => CutRule::OnlyFirst,
            TruncationStrategy::OnlySecond => CutRule::OnlySecond,
        },
    })
}

/// `TokenizerImpl::get_padding`: whether a tokenizer pads.
#[verifier::external_body]
fn pads(tokenizer: &Tokenizer) -> (r: bool)
    ensures
        r == is_padding(*tokenizer),
{
    tokenizer.get_padding().is_some()
}

/// `PostProcessor::added_tokens` of a tokenizer's post-processor, for a single
/// text: the number of special tokens, none where there is no post-processor.
#[verifier::external_body]
fn special_tokens(tokenizer: &Tokenizer) -> (r: usize)
    ensures
        r == special_tokens_of(*tokenizer),
{
    match tokenizer.get_post_processor() {
        Some(p) => p.added_tokens(false),
        None => 0,
    }
}

/// `TokenizerImpl::with_truncation`: sets how overlong texts are cut. It
/// succeeds where the special tokens and the stride leave room.
#[verifier::external_body]
fn set_truncation(tokenizer: &mut Tokenizer, truncation: Option<Truncation>) -> (r: Result<
    (),
    String,
>)
    requires
        truncation matches Some(t) ==> t.max_length >= special_tokens_of(*old(tokenizer))
            + t.stride,
    ensures
        r is Ok,
        truncation_of(*final(tokenizer)) == truncation,
        is_padding(*final(tokenizer)) == is_padding(*old(tokenizer)),
        special_tokens_of(*final(tokenizer)) == special_tokens_of(*old(tokenizer)),
        same_makeup(*final(tokenizer), *old(tokenizer)),
{
    let params = truncation.map(|t| TruncationParams {
        direction: match t.side {
            CutSide::Left => TruncationDirection::Left,
            CutSide::Right => TruncationDirection::Right,
        },
        max_length: t.max_length,
        strategy: match t.rule {
            CutRule::LongestFirst => TruncationStrategy::LongestFirst,
            CutRule::OnlyFirst => TruncationStrategy::OnlyFirst,
            CutRule::OnlySecond => TruncationStrategy::OnlySecond,
        },
        stride: t.stride,
    });
    tokenizer.with_truncation(params).map(|_| ()).map_err(|e| e.to_string())
}

/// `TokenizerImpl::with_padding(None)`: the tokenizer does not pad any more.
#[verifier::external_body]
fn clear_padding(tokenizer: &mut Tokenizer)
    ensures
        !is_padding(*final(tokenizer)),
        truncation_of(*final(tokenizer)) == truncation_of(*old(tokenizer)),
        special_tokens_of(*final(tokenizer)) == special_tokens_of(*old(tokenizer)),
        same_makeup(*final(tokenizer), *old(tokenizer)),
{
    tokenizer.with_padding(None);
}

/// The settings leave room for the special tokens, cut without overlap and do
/// not pad.
pub open spec fn is_usable(t: Tokenizer) -> bool {
    &&& !is_padding(t)
    &&& truncation_of(t) matches Some(c) ==> c.stride == 0 && c.max_length >= special_tokens_of(t)
}

/// `TokenizerImpl::encode_batch`: one token sequence for each text, or an error
/// where a text has none. Whether a text has tokens, and which, depends on the
/// tokenizer and the text alone, unless the tokenizer decides by chance. The
/// call returns for any text where the tokenizer is sound, does not pad, and
/// cuts to no less than its special tokens.
#[verifier::external_body]
fn encode_batch(tokenizer: &Tokenizer, texts: &Vec<String>, add_special_tokens: bool) -> (r: Result<
    Vec<Vec<u32>>,
    String,
>)
    requires
        is_usable(*tokenizer),
        is_sound(*tokenizer),
    ensures
        r matches Ok(ids) ==> ids@.len() == texts@.len(),
        !draws_lots(*tokenizer) ==> (r is Ok <==> forall|i: int|
            0 <= i < texts@.len() ==> encodes(
                *tokenizer,
                (#[trigger] texts@[i])@,
                add_special_tokens,
            )),
        !draws_lots(*tokenizer) ==> (r matches Ok(ids) ==> forall|i: int|
            0 <= i < ids@.len() ==> (#[trigger] ids@[i])@ == tokens_of(
                *tokenizer,
                texts@[i]@,
                add_special_tokens,
            )),
{
    match tokenizer.encode_batch(texts.clone(), add_special_tokens) {
        Ok(encodings) => Ok(encodings.iter().map(|e| e.get_ids().to_vec()).collect()),
        Err(e) => Err(e.to_string()),
    }
}

/// How overlong texts are to be cut: to `max_len` tokens from the right, or
/// not at all.
pub open spec fn wanted_truncation(auto_truncate: bool, max_len: usize) -> Option<Truncation> {
    if auto_truncate {
        Some(
            Truncation {
                max_length: max_len,
                stride: 0,
                side: CutSide::Right,
                rule: CutRule::LongestFirst,
            },
        )
    } else {
        None
    }
}

/// Sets a tokenizer up: overlong texts are cut to `max_len` tokens if
/// `auto_truncate` asks for it, and nothing is padded in any case.
pub fn configure_truncation(tokenizer: &mut Tokenizer, auto_truncate: bool, max_len: usize) -> (r:
    Result<(), String>)
    requires
        auto_truncate ==> max_len >= special_tokens_of(*old(tokenizer)),
    ensures
        r is Ok,
        truncation_of(*final(tokenizer)) == wanted_truncation(auto_truncate, max_len),
        !is_padding(*final(tokenizer)),
        is_usable(*final(tokenizer)),
        special_tokens_of(*final(tokenizer)) == special_tokens_of(*old(tokenizer)),
        same_makeup(*final(tokenizer), *old(tokenizer)),
{
    let wanted: Option<Truncation> = if auto_truncate {
        Some(
            Truncation {
                max_length: max_len,
                stride: 0,
                side: CutSide::Right,
                rule: CutRule::LongestFirst,
            },
        )
    } else {
        None
    };
    match set_truncation(tokenizer, wanted) {
        Ok(_) => {},
        Err(e) => {
            let mut m: String = "with_truncation: ".to_owned();
            m.append(e.as_str());
            return Err(m);
        },
    }
    clear_padding(tokenizer);
    Ok(())
}

/// The same for any length: `None`, and the tokenizer as it was, where texts
/// are to be cut shorter than their special tokens.
pub fn try_configure_truncation(
    tokenizer: &mut Tokenizer,
    auto_truncate: bool,
    max_len: usize,
) -> (r: Option<Result<(), String>>)
    ensures
        match r {
            None => {
                &&& auto_truncate
                &&& max_len < special_tokens_of(*old(tokenizer))
                &&& *final(tokenizer) == *old(tokenizer)
            },
            Some(done) => {
                &&& auto_truncate ==> max_len >= special_tokens_of(*old(tokenizer))
                &&& done is Ok
                &&& truncation_of(*final(tokenizer)) == wanted_truncation(auto_truncate, max_len)
                &&& !is_padding(*final(tokenizer))
                &&& is_usable(*final(tokenizer))
                &&& special_tokens_of(*final(tokenizer)) == special_tokens_of(*old(tokenizer))
                &&& same_makeup(*final(tokenizer), *old(tokenizer))
            },
        },
{
    if auto_truncate && max_len < special_tokens(tokenizer) {
        return None;
    }
    Some(configure_truncation(tokenizer, auto_truncate, max_len))
}

/// The first `max_len` tokens of a text.
pub open spec fn clipped(tokens: Seq<u32>, max_len: usize) -> Seq<u32> {
    if tokens.len() > max_len {
        tokens.take(max_len as int)
    } else {
        tokens
    }
}

/// The token sequences and their number of cuts, as they come of the raw ones.
pub open spec fn is_clip_of(
    out: (Vec<Vec<u32>>, usize),
    raw: Seq<Vec<u32>>,
    max_len: usize,
) -> bool {
    &&& out.0@.len() == raw.len()
    &&& forall|i: int|
        0 <= i < raw.len() ==> (#[trigger] out.0@[i])@ == clipped(raw[i]@, max_len)
    &&& out.1 == overlong(raw, max_len as nat)
}

/// The number of texts that have more than `max_len` tokens.
pub open spec fn overlong_texts(t: Tokenizer, texts: Seq<String>, max_len: usize) -> nat
    decreases texts.len(),
{
    if texts.len() == 0 {
        0
    } else {
        overlong_texts(t, texts.drop_last(), max_len) + if tokens_of(
            t,
            texts.last()@,
            true,
        ).len() > max_len {
            1nat
        } else {
            0nat
        }
    }
}

proof fn lemma_overlong_texts(t: Tokenizer, texts: Seq<String>, raw: Seq<Vec<u32>>, max_len: usize)
    requires
        raw.len() == texts.len(),
        forall|i: int| 0 <= i < raw.len() ==> (#[trigger] raw[i])@ == tokens_of(t, texts[i]@, true),
    ensures
        overlong(raw, max_len as nat) == overlong_texts(t, texts, max_len),
    decreases raw.len(),
{
    if raw.len() > 0 {
        let head: Seq<Vec<u32>> = raw.drop_last();
        assert forall|i: int| 0 <= i < head.len() implies (#[trigger] head[i])@ == tokens_of(
            t,
            texts.drop_last()[i]@,
            true,
        ) by {
            assert(raw[i]@ == tokens_of(t, texts[i]@, true));
        }
        lemma_overlong_texts(t, texts.drop_last(), head, max_len);
        assert(raw[raw.len() - 1]@ == tokens_of(t, texts[raw.len() - 1]@, true));
    }
}

/// What tokenizing some texts comes to: the first `max_len` tokens of each, and
/// how many had more. A tokenizer that does not decide by chance succeeds
/// exactly where it has tokens for each text.
pub open spec fn is_tokenized(
    t: Tokenizer,
    texts: Seq<String>,
    max_len: usize,
    r: Result<(Vec<Vec<u32>>, usize), String>,
) -> bool {
    &&& texts.len() == 0 ==> r is Ok
    &&& match r {
        Ok(out) => exists|raw: Seq<Vec<u32>>| #[trigger]
            is_clip_of(out, raw, max_len) && raw.len() == texts.len(),
        Err(m) => has_prefix(m@, "tokenize: "@),
    }
    &&& !draws_lots(t) ==> {
        &&& r is Ok <==> all_encode(t, texts, true)
        &&& r matches Ok(out) ==> {
            &&& out.0@.len() == texts.len()
            &&& out.1 == overlong_texts(t, texts, max_len)
            &&& forall|i: int|
                0 <= i < texts.len() ==> (#[trigger] out.0@[i])@ == clipped(
                    tokens_of(t, texts[i]@, true),
                    max_len,
                )
        }
    }
}

/// The token sequences of some texts, none longer than `max_len`; also returns
/// how many had to be cut behind the tokenizer's back.
pub fn tokenize(tokenizer: &Tokenizer, texts: &Vec<String>, max_len: usize) -> (r: Result<
    (Vec<Vec<u32>>, usize),
    String,
>)
    requires
        is_usable(*tokenizer),
        is_sound(*tokenizer),
    ensures
        is_tokenized(*tokenizer, texts@, max_len, r),
{
    if texts.len() == 0 {
        let r: Result<(Vec<Vec<u32>>, usize), String> = Ok((Vec::new(), 0));
        assert(is_clip_of(r->Ok_0, Seq::empty(), max_len));
        return r;
    }
    match encode_batch(tokenizer, texts, true) {
        Ok(ids) => {
            let ghost raw: Seq<Vec<u32>> = ids@;
            let out: (Vec<Vec<u32>>, usize) = clip_ids(ids, max_len);
            proof {
                if !draws_lots(*tokenizer) {
                    lemma_overlong_texts(*tokenizer, texts@, raw, max_len);
                }
            }
            let r: Result<(Vec<Vec<u32>>, usize), String> = Ok(out);
            assert(is_clip_of(r->Ok_0, raw, max_len));
            r
        },
        Err(e) => {
            let mut m: String = "tokenize: ".to_owned();
            m.append(e.as_str());
            assert(m@.subrange(0, "tokenize: "@.len() as int) =~= "tokenize: "@);
            Err(m)
        },
    }
}

/// The same for any tokenizer: `None` where it cannot be asked, pads, or cuts in
/// a way that leaves no room for its special tokens.
pub fn try_tokenize(tokenizer: &Tokenizer, texts: &Vec<String>, max_len: usize) -> (r: Option<
    Result<(Vec<Vec<u32>>, usize), String>,
>)
    ensures
        match r {
            Some(done) => is_usable(*tokenizer) && is_sound(*tokenizer) && is_tokenized(
                *tokenizer,
                texts@,
                max_len,
                done,
            ),
            None => !is_usable(*tokenizer) || !is_sound(*tokenizer),
        },
{
    if pads(tokenizer) {
        return None;
    }
    if let Some(cut) = truncation(tokenizer) {
        if cut.stride != 0 || cut.max_length < special_tokens(tokenizer) {
            return None;
        }
    }
    if !can_be_asked(tokenizer) {
        return None;
    }
    Some(tokenize(tokenizer, texts, max_len))
}

/// A sequence that is long enough to be cut keeps its first tokens, and any
/// other one keeps all of them.
pub proof fn law_clipping(tokens: Seq<u32>, max_len: usize, j: int)
    ensures
        clipped(tokens, max_len).len() <= max_len,
        tokens.len() <= max_len ==> clipped(tokens, max_len) == tokens,
        tokens.len() > max_len ==> clipped(tokens, max_len).len() == max_len,
        0 <= j < clipped(tokens, max_len).len() ==> clipped(tokens, max_len)[j] == tokens[j],
{
}

/// Texts are cut on the right, at the length that is asked for, or not at all.
pub proof fn law_wanted_truncation(max_len: usize)
    ensures
        wanted_truncation(false, max_len) is None,
        wanted_truncation(true, max_len) matches Some(c) && c.max_length == max_len && c.stride == 0
            && c.side is Right && c.rule is LongestFirst,
{
}

/// Each text that is too long is counted once.
pub proof fn law_overlong_texts_are_counted(
    t: Tokenizer,
    texts: Seq<String>,
    text: String,
    max_len: usize,
)
    ensures
        overlong_texts(t, Seq::empty(), max_len) == 0,
        tokens_of(t, text@, true).len() > max_len ==> overlong_texts(t, texts.push(text), max_len)
            == overlong_texts(t, texts, max_len) + 1,
        tokens_of(t, text@, true).len() <= max_len ==> overlong_texts(t, texts.push(text), max_len)
            == overlong_texts(t, texts, max_len),
{
    assert(texts.push(text).drop_last() =~= texts);
}

/// Each text gets its own tokens, in the order of the texts: the first
/// `max_len` of those that the tokenizer has for it, special ones included.
/// There is one sequence for each text, and none is too long.
pub proof fn law_each_text_gets_its_tokens(
    t: Tokenizer,
    texts: Seq<String>,
    max_len: usize,
    out: (Vec<Vec<u32>>, usize),
    i: int,
    j: int,
)
    requires
        is_tokenized(t, texts, max_len, Ok::<(Vec<Vec<u32>>, usize), String>(out)),
        0 <= i < texts.len(),
    ensures
        out.0@.len() == texts.len(),
        out.0@[i]@.len() <= max_len,
        !draws_lots(t) ==> encodes(t, texts[i]@, true),
        !draws_lots(t) && tokens_of(t, texts[i]@, true).len() <= max_len ==> out.0@[i]@
            == tokens_of(t, texts[i]@, true),
        !draws_lots(t) && tokens_of(t, texts[i]@, true).len() > max_len ==> out.0@[i]@.len()
            == max_len,
        !draws_lots(t) && 0 <= j < out.0@[i]@.len() ==> out.0@[i]@[j] == tokens_of(
            t,
            texts[i]@,
            true,
        )[j],
{
    let raw: Seq<Vec<u32>> = choose|raw: Seq<Vec<u32>>| #[trigger]
        is_clip_of(out, raw, max_len) && raw.len() == texts.len();
    assert(is_clip_of(out, raw, max_len) && raw.len() == texts.len());
    assert(out.0@[i]@ == clipped(raw[i]@, max_len));
    law_clipping(raw[i]@, max_len, j);
    if !draws_lots(t) {
        assert(encodes(t, texts[i]@, true));
        assert(out.0@[i]@ == clipped(tokens_of(t, texts[i]@, true), max_len));
        law_clipping(tokens_of(t, texts[i]@, true), max_len, j);
    }
}

/// A tokenizer can be used exactly where it does not pad, and where it cuts, it
/// leaves room for its special tokens and repeats nothing.
pub proof fn law_usable_tokenizers(t: Tokenizer)
    ensures
        is_padding(t) ==> !is_usable(t),
        !is_padding(t) && truncation_of(t) is None ==> is_usable(t),
        !is_padding(t) ==> (truncation_of(t) matches Some(c) ==> (is_usable(t) <==> c.stride == 0
            && c.max_length >= special_tokens_of(t))),
{
}

/// Texts fail exactly where one of them cannot be turned into tokens, and no
/// texts never fail; a failure says that it is one of the tokenizer.
pub proof fn law_texts_that_fail(
    t: Tokenizer,
    texts: Seq<String>,
    max_len: usize,
    r: Result<(Vec<Vec<u32>>, usize), String>,
    i: int,
)
    requires
        is_tokenized(t, texts, max_len, r),
    ensures
        texts.len() == 0 ==> r is Ok,
        r matches Err(m) ==> has_prefix(m@, "tokenize: "@),
        !draws_lots(t) && 0 <= i < texts.len() && !encodes(t, texts[i]@, true) ==> r is Err,
        !draws_lots(t) && (forall|k: int|
            0 <= k < texts.len() ==> encodes(t, (#[trigger] texts[k])@, true)) ==> r is Ok,
        !draws_lots(t) ==> (r matches Ok(out) ==> out.1 == overlong_texts(t, texts, max_len)),
{
    if !draws_lots(t) && 0 <= i < texts.len() && !encodes(t, texts[i]@, true) {
        assert(!all_encode(t, texts, true));
    }
}

/// The sequences that come out are the raw ones, each cut where it is too long,
/// and those that were cut are counted.
pub proof fn law_raw_sequences_are_cut(
    out: (Vec<Vec<u32>>, usize),
    raw: Seq<Vec<u32>>,
    max_len: usize,
    i: int,
)
    requires
        is_clip_of(out, raw, max_len),
    ensures
        out.0@.len() == raw.len(),
        out.1 == overlong(raw, max_len as nat),
        0 <= i < raw.len() && raw[i]@.len() <= max_len ==> out.0@[i]@ == raw[i]@,
        0 <= i < raw.len() && raw[i]@.len() > max_len ==> out.0@[i]@ == raw[i]@.take(
            max_len as int,
        ),
{
    if 0 <= i < raw.len() {
        assert(out.0@[i]@ == clipped(raw[i]@, max_len));
    }
}

} // verus!
