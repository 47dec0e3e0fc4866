//! What a tokenizer is made of, as far as it decides whether the tokenizer can
//! be asked for the tokens of any text.
use vstd::prelude::*;
use vstd::string::*;
use bincode::config::standard;
use bincode::serde::{decode_from_slice, encode_to_vec};
use tokenizers::models::ModelWrapper;
use tokenizers::normalizers::NormalizerWrapper;
use tokenizers::pre_tokenizers::split::SplitPattern;
use tokenizers::pre_tokenizers::PreTokenizerWrapper;
use tokenizers::processors::template::TemplateProcessing;
use tokenizers::processors::PostProcessorWrapper;
use tokenizers::Tokenizer;
use crate::charsmap::{can_be_walked, is_whole};
use crate::encoding::{base64_of, decode_base64, lemma_base64_is_injective};
use crate::text::{chars_of, contains, contains_text, same, trim, trimmed};

verus! {

broadcast use group_string_axioms;

/// `tokenizers::Tokenizer`, a tokenizer with its settings.
#[verifier::external_type_specification]
#[verifier::external_body]
pub struct ExTokenizer(tokenizers::Tokenizer);

/// What a tokenizer's model may leave to chance.
#[derive(Clone, Copy, Debug, PartialEq, Eq, Structural)]
pub enum Chance {
    /// Nothing.
    Never,
    /// Merges are dropped with this probability, if there is one; the pattern of
    /// its bits.
    Dropout(Option<u32>),
    /// The tokens are sampled with this smoothing, if there is one; the pattern
    /// of its bits.
    Sampling(Option<u64>),
}

/// What a tokenizer's model may leave to chance.
pub uninterp spec fn chance_of(t: Tokenizer) -> Chance;

/// Whether a tokenizer's model decides by chance. A probability of zero drops
/// nothing.
pub open spec fn draws_lots(t: Tokenizer) -> bool {
    match chance_of(t) {
        Chance::Never => false,
        Chance::Dropout(p) => p matches Some(bits) && bits != 0,
        Chance::Sampling(a) => a is Some,
    }
}

/// One step of what a tokenizer does with the tokens of a text in the end.
#[derive(Debug)]
pub enum Step {
    /// It may put special tokens around them, and looks nothing up.
    Plain,
    /// It fills a template for single texts in: the template in words, and
    /// whether each special token that it names is known.
    Template { single: String, all_known: bool },
}

/// The view of a step.
pub enum StepView {
    Plain,
    Template { single: Seq<char>, all_known: bool },
}

impl View for Step {
    type V = StepView;

    open spec fn view(&self) -> StepView {
        match self {
            Step::Plain => StepView::Plain,
            Step::Template { single, all_known } => StepView::Template {
                single: single@,
                all_known: *all_known,
            },
        }
    }
}

/// The views of some steps.
pub open spec fn step_views(v: Seq<Step>) -> Seq<StepView> {
    v.map_values(|s: Step| s@)
}

/// The steps with which a tokenizer ends, in order.
pub uninterp spec fn steps_of(t: Tokenizer) -> Seq<StepView>;

/// How a template names the second text of a pair.
pub open spec fn second_text() -> Seq<char> {
    "Sequence { id: B"@
}

/// The step can be taken for any single text: a template knows its special
/// tokens and asks for no second text.
pub open spec fn step_fits(step: StepView) -> bool {
    match step {
        StepView::Plain => true,
        StepView::Template { single, all_known } => all_known && !contains_text(
            single,
            second_text(),
        ),
    }
}

/// Each step can be taken, and no more than one is a template, which hands on
/// its pieces one by one.
pub open spec fn steps_fit(steps: Seq<StepView>) -> bool {
    &&& forall|i: int| 0 <= i < steps.len() ==> step_fits(#[trigger] steps[i])
    &&& forall|i: int, j: int|
        0 <= i < j < steps.len() ==> !((#[trigger] steps[i]) is Template && (
        #[trigger] steps[j]) is Template)
}

/// One rule by which a tokenizer rewrites a text at first. Two of them are given
/// as they write themselves down, their name before the rest.
#[derive(Debug)]
pub enum Rule {
    /// It puts this text in front.
    Prepends(String),
    /// It puts a text in place of each match of a pattern, which comes first: of
    /// a plain text where the number before it is zero, else of a regular
    /// expression.
    Replaces((String, (u32, String), String)),
    /// It follows a compiled table, here in Base64.
    Compiled((String, String)),
    /// It does anything else, and brings the text in line with where it came
    /// from, character by character.
    Realigns,
}

/// The view of a rule.
pub enum RuleView {
    Prepends(Seq<char>),
    Replaces { kind: u32, pattern: Seq<char>, content: Seq<char> },
    Compiled(Seq<char>),
    Realigns,
}

impl View for Rule {
    type V = RuleView;

    open spec fn view(&self) -> RuleView {
        match self {
            Rule::Prepends(text) => RuleView::Prepends(text@),
            Rule::Replaces(written) => RuleView::Replaces {
                kind: written.1.0,
                pattern: written.1.1@,
                content: written.2@,
            },
            Rule::Compiled(written) => RuleView::Compiled(written.1@),
            Rule::Realigns => RuleView::Realigns,
        }
    }
}

/// The views of some rules.
pub open spec fn rule_views(v: Seq<Rule>) -> Seq<RuleView> {
    v.map_values(|r: Rule| r@)
}

/// The rules by which a tokenizer rewrites a text at first, in order.
pub uninterp spec fn rules_of(t: Tokenizer) -> Seq<RuleView>;

/// A letter that stands for characters of a kind, or for one character, where a
/// backslash precedes it.
pub open spec fn is_class_letter(c: char) -> bool {
    c == 's' || c == 'S' || c == 'd' || c == 'D' || c == 'w' || c == 'W' || c == 'n' || c == 'r'
        || c == 't'
}

/// At this place a regular expression says nothing that could let it match
/// without taking a character up: it has no group, alternative, anchor or
/// assertion there, and no repetition that may be left out.
pub open spec fn takes_text_at(pattern: Seq<char>, i: int) -> bool {
    let c: char = pattern[i];
    if c == '(' || c == ')' || c == '|' || c == '*' || c == '?' || c == '^' || c == '$' {
        false
    } else if c == '\\' {
        i + 1 < pattern.len() && is_class_letter(pattern[i + 1])
    } else if c == '{' {
        i + 1 < pattern.len() && '1' <= pattern[i + 1] <= '9'
    } else {
        true
    }
}

/// Each match of the pattern takes at least one character up. Some regular
/// expressions that always take one up are not recognized.
pub open spec fn takes_text(kind: u32, pattern: Seq<char>) -> bool {
    &&& pattern.len() > 0
    &&& kind == 0 || forall|i: int|
        0 <= i < pattern.len() ==> #[trigger] takes_text_at(pattern, i)
}

/// A letter or digit that sets where a match begins anew, or names a group,
/// where a backslash precedes it.
pub open spec fn is_recall(c: char) -> bool {
    c == 'K' || c == 'k' || '0' <= c <= '9'
}

/// A regular expression neither sets where a match begins anew nor asks for what
/// one of its groups has matched.
pub open spec fn never_goes_back(pattern: Seq<char>) -> bool {
    &&& !contains_text(pattern, "?P="@)
    &&& forall|i: int|
        0 < i < pattern.len() && #[trigger] is_recall(pattern[i]) ==> pattern[i - 1] != '\\'
}

/// The rule may leave a character in front of a text that comes from nowhere in
/// it.
pub open spec fn adds_to_the_front(rule: RuleView) -> bool {
    match rule {
        RuleView::Prepends(text) => text.len() == 0,
        RuleView::Replaces { kind, pattern, content } => content.len() > 0 && !takes_text(
            kind,
            pattern,
        ),
        _ => false,
    }
}

/// The rule brings the text in line with where it came from.
pub open spec fn realigns(rule: RuleView) -> bool {
    rule is Compiled || rule is Realigns
}

/// The rule can be followed for any text: a regular expression never goes back,
/// and a compiled table can be walked.
pub open spec fn rule_fits(rule: RuleView) -> bool {
    match rule {
        RuleView::Replaces { kind, pattern, .. } => kind == 0 || never_goes_back(pattern),
        RuleView::Compiled(table) => exists|bytes: Seq<u8>| #[trigger]
            base64_of(bytes) == table && is_whole(bytes),
        _ => true,
    }
}

/// Each rule can be followed, and none brings the text in line once a character
/// from nowhere may stand in front.
pub open spec fn rules_fit(rules: Seq<RuleView>) -> bool {
    &&& forall|i: int| 0 <= i < rules.len() ==> rule_fits(#[trigger] rules[i])
    &&& forall|i: int, j: int|
        0 <= i < j < rules.len() ==> !(adds_to_the_front(#[trigger] rules[i]) && realigns(
            #[trigger] rules[j],
        ))
}

/// One way in which a tokenizer cuts a text up.
#[derive(Debug)]
pub enum Cut {
    /// Pieces of so many characters.
    Every(usize),
    /// Where a regular expression matches.
    AtMatches(String),
    /// It brings each piece in line with where it came from.
    Realigns,
    /// In another way.
    Plain,
}

/// The view of a way of cutting.
pub enum CutView {
    Every(usize),
    AtMatches(Seq<char>),
    Realigns,
    Plain,
}

impl View for Cut {
    type V = CutView;

    open spec fn view(&self) -> CutView {
        match self {
            Cut::Every(n) => CutView::Every(*n),
            Cut::AtMatches(pattern) => CutView::AtMatches(pattern@),
            Cut::Realigns => CutView::Realigns,
            Cut::Plain => CutView::Plain,
        }
    }
}

/// The views of some ways of cutting.
pub open spec fn cut_views(v: Seq<Cut>) -> Seq<CutView> {
    v.map_values(|c: Cut| c@)
}

/// The ways in which a tokenizer cuts a text up, in order.
pub uninterp spec fn cuts_of(t: Tokenizer) -> Seq<CutView>;

/// Any text can be cut up in this way: no piece is to have no characters, and a
/// regular expression never goes back.
pub open spec fn cut_fits(cut: CutView) -> bool {
    match cut {
        CutView::Every(n) => n > 0,
        CutView::AtMatches(pattern) => never_goes_back(pattern),
        _ => true,
    }
}

/// Any text can be cut up in each way, and no piece is brought in line once a
/// character from nowhere may stand in front.
pub open spec fn cuts_fit(rules: Seq<RuleView>, cuts: Seq<CutView>) -> bool {
    &&& forall|k: int| 0 <= k < cuts.len() ==> cut_fits(#[trigger] cuts[k])
    &&& forall|i: int, k: int|
        0 <= i < rules.len() && 0 <= k < cuts.len() ==> !(adds_to_the_front(#[trigger] rules[i])
            && #[trigger] cuts[k] is Realigns)
}

/// A token that a tokenizer finds in a text before anything else.
#[derive(Debug)]
pub struct Added {
    pub content: String,
    /// It takes the white space before it up.
    pub lstrip: bool,
    /// It takes the white space behind it up.
    pub rstrip: bool,
    /// It is looked for in the rewritten text, and is rewritten itself.
    pub normalized: bool,
}

/// The view of an added token.
pub struct AddedView {
    pub content: Seq<char>,
    pub lstrip: bool,
    pub rstrip: bool,
    pub normalized: bool,
}

impl View for Added {
    type V = AddedView;

    open spec fn view(&self) -> AddedView {
        AddedView {
            content: self.content@,
            lstrip: self.lstrip,
            rstrip: self.rstrip,
            normalized: self.normalized,
        }
    }
}

/// The views of some added tokens.
pub open spec fn added_views(v: Seq<Added>) -> Set<AddedView> {
    v.map_values(|a: Added| a@).to_set()
}

/// The tokens that were added to a tokenizer's vocabulary.
pub uninterp spec fn added_of(t: Tokenizer) -> Set<AddedView>;

/// The token may consist of white space alone.
pub open spec fn may_be_blank(a: AddedView) -> bool {
    a.normalized || trimmed(a.content) == ""@
}

/// The second token may be found inside the white space that the first one has
/// taken up behind it, and claim white space before it too.
pub open spec fn clash(a: AddedView, b: AddedView) -> bool {
    a.rstrip && b.lstrip && a.normalized == b.normalized && may_be_blank(b)
}

/// No two added tokens claim the same white space.
pub open spec fn added_fit(added: Set<AddedView>) -> bool {
    forall|a: AddedView, b: AddedView| #[trigger]
        added.contains(a) && #[trigger] added.contains(b) ==> !clash(a, b)
}

/// A tokenizer that can be asked for the tokens of any text: each of its parts
/// can do its work, and its tokens are not sampled. Where it cannot be told what
/// a regular expression or a rewritten token may match, the tokenizer does not
/// count as sound.
pub open spec fn is_sound(t: Tokenizer) -> bool {
    &&& steps_fit(steps_of(t))
    &&& rules_fit(rules_of(t))
    &&& cuts_fit(rules_of(t), cuts_of(t))
    &&& added_fit(added_of(t))
    &&& !(chance_of(t) matches Chance::Sampling(a) && a is Some)
}

/// Two tokenizers are made of the same parts.
pub open spec fn same_makeup(a: Tokenizer, b: Tokenizer) -> bool {
    &&& chance_of(a) == chance_of(b)
    &&& steps_of(a) == steps_of(b)
    &&& rules_of(a) == rules_of(b)
    &&& cuts_of(a) == cuts_of(b)
    &&& added_of(a) == added_of(b)
}

/// `TokenizerImpl::get_model`: the probability with which a BPE model drops
/// merges and the smoothing with which a unigram model samples. The other
/// models leave nothing to chance.
#[verifier::external_body]
fn chance(tokenizer: &Tokenizer) -> (r: Chance)
    ensures
        r == chance_of(*tokenizer),
{
    match tokenizer.get_model() {
        ModelWrapper::BPE(m) => Chance::Dropout(m.dropout.map(|p| p.to_bits())),
        ModelWrapper::Unigram(m) => Chance::Sampling(m.alpha.map(|a| a.to_bits())),
        ModelWrapper::WordPiece(_) => Chance::Never,
        ModelWrapper::WordLevel(_) => Chance::Never,
    }
}

/// `TokenizerImpl::get_post_processor`: the steps of a tokenizer's
/// post-processor, none where there is none; a sequence stands for its parts,
/// which are taken one after the other. A template is given as
/// `TemplateProcessing::get_single` writes it, and whether its special tokens
/// are known as `TemplateProcessingBuilder::build` finds it for the template
/// and the tokens.
#[verifier::external_body]
fn steps(tokenizer: &Tokenizer) -> (r: Vec<Step>)
    ensures
        step_views(r@) == steps_of(*tokenizer),
{
    let mut left: Vec<&PostProcessorWrapper> = tokenizer.get_post_processor().into_iter().collect();
    let mut all = Vec::new();
    while let Some(p) = left.pop() {
        match p {
            PostProcessorWrapper::Sequence(s) => left.extend(s.as_ref().iter().rev()),
            PostProcessorWrapper::Template(t) => all.push(Step::Template {
                single: t.get_single(),
                all_known: TemplateProcessing::builder().single(t.single.clone())
                    .special_tokens(t.get_special_tokens().clone()).build().is_ok(),
            }),
            _ => all.push(Step::Plain),
        }
    }
    all
}

/// `TokenizerImpl::get_normalizer`: the rules of a tokenizer's normalizer, none
/// where there is none; a sequence stands for its parts, which are followed one
/// after the other. What `Replace` looks for and puts in place, and the table of
/// `Precompiled`, are what each of the two writes as it is serialized, behind
/// its name; the table is written in Base64.
#[verifier::external_body]
fn rules(tokenizer: &Tokenizer) -> (r: Vec<Rule>)
    ensures
        rule_views(r@) == rules_of(*tokenizer),
{
    let mut left: Vec<&NormalizerWrapper> = tokenizer.get_normalizer().into_iter().collect();
    let mut all = Vec::new();
    while let Some(n) = left.pop() {
        let w = encode_to_vec(n, standard()).unwrap_or_default();
        match n {
            NormalizerWrapper::Sequence(s) => left.extend(s.as_ref().iter().rev()),
            NormalizerWrapper::Prepend(p) => all.push(Rule::Prepends(p.prepend.clone())),
            NormalizerWrapper::Replace(_) => all.push(
                Rule::Replaces(decode_from_slice(&w, standard()).unwrap_or_default().0)),
            NormalizerWrapper::Precompiled(_) => all.push(
                Rule::Compiled(decode_from_slice(&w, standard()).unwrap_or_default().0)),
            _ => all.push(Rule::Realigns),
        }
    }
    all
}

/// `TokenizerImpl::get_pre_tokenizer`: the ways in which a tokenizer's
/// pre-tokenizer cuts, none where there is none; a sequence stands for its
/// parts, which cut one after the other. `FixedLength` cuts every so many
/// characters, `Split` by a regular expression where its pattern is one, and
/// `ByteLevel` brings the pieces in line.
#[verifier::external_body]
fn cuts(tokenizer: &Tokenizer) -> (r: Vec<Cut>)
    ensures
        cut_views(r@) == cuts_of(*tokenizer),
{
    let mut left: Vec<&PreTokenizerWrapper> = tokenizer.get_pre_tokenizer().into_iter().collect();
    let mut all = Vec::new();
    while let Some(p) = left.pop() {
        match p {
            PreTokenizerWrapper::Sequence(s) => left.extend(s.as_ref().iter().rev()),
            PreTokenizerWrapper::FixedLength(f) => all.push(Cut::Every(f.length)),
            PreTokenizerWrapper::Split(s) => all.push(match &s.pattern {
                SplitPattern::Regex(r) => Cut::AtMatches(r.clone()),
                SplitPattern::String(_) => Cut::Plain,
            }),
            PreTokenizerWrapper::ByteLevel(_) => all.push(Cut::Realigns),
            _ => all.push(Cut::Plain),
        }
    }
    all
}

/// `TokenizerImpl::get_added_tokens_decoder`: the tokens that were added to a
/// tokenizer's vocabulary, in any order.
#[verifier::external_body]
fn added(tokenizer: &Tokenizer) -> (r: Vec<Added>)
    ensures
        added_views(r@) == added_of(*tokenizer),
{
    tokenizer.get_added_tokens_decoder().into_values().map(|a| Added {
        content: a.content,
        lstrip: a.lstrip,
        rstrip: a.rstrip,
        normalized: a.normalized,
    }).collect()
}

/// Whether a tokenizer's model decides by chance, so that a text may have other
/// tokens the next time.
pub fn decides_by_chance(tokenizer: &Tokenizer) -> (r: bool)
    ensures
        r == draws_lots(*tokenizer),
{
    match chance(tokenizer) {
        Chance::Never => false,
        Chance::Dropout(Some(bits)) => bits != 0,
        Chance::Dropout(None) => false,
        Chance::Sampling(a) => a.is_some(),
    }
}

/// Whether each of some steps can be taken.
pub fn steps_can_be_taken(all: &Vec<Step>) -> (r: bool)
    ensures
        r == steps_fit(step_views(all@)),
{
    let ghost views: Seq<StepView> = step_views(all@);
    let mut template: Option<usize> = None;
    let mut k: usize = 0;
    while k < all.len()
        invariant
            k <= all.len(),
            views == step_views(all@),
            forall|i: int| 0 <= i < k ==> step_fits(#[trigger] views[i]),
            match template {
                None => forall|i: int| 0 <= i < k ==> !((#[trigger] views[i]) is Template),
                Some(t) => t < k && views[t as int] is Template && forall|i: int|
                    0 <= i < k && i != t ==> !((#[trigger] views[i]) is Template),
            },
        decreases all.len() - k,
    {
        assert(views[k as int] == all@[k as int]@);
        match &all[k] {
            Step::Plain => {},
            Step::Template { single, all_known } => {
                if !*all_known || contains(single.as_str(), "Sequence { id: B") {
                    assert(!step_fits(views[k as int]));
                    return false;
                }
                if let Some(t) = template {
                    assert(views[t as int] is Template && views[k as int] is Template);
                    return false;
                }
                template = Some(k);
            },
        }
        k = k + 1;
    }
    true
}

fn is_class(c: char) -> (r: bool)
    ensures
        r == is_class_letter(c),
{
    c == 's' || c == 'S' || c == 'd' || c == 'D' || c == 'w' || c == 'W' || c == 'n' || c == 'r'
        || c == 't'
}

/// Whether each match of a pattern takes at least one character up.
pub fn always_takes_text(kind: u32, pattern: &str) -> (r: bool)
    ensures
        r == takes_text(kind, pattern@),
{
    let chars: Vec<char> = chars_of(pattern);
    if chars.len() == 0 {
        return false;
    }
    if kind == 0 {
        return true;
    }
    let mut i: usize = 0;
    while i < chars.len()
        invariant
            i <= chars.len(),
            kind != 0,
            chars@ == pattern@,
            forall|j: int| 0 <= j < i ==> #[trigger] takes_text_at(pattern@, j),
        decreases chars.len() - i,
    {
        let c: char = chars[i];
        let fits: bool = if c == '(' || c == ')' || c == '|' || c == '*' || c == '?' || c == '^'
            || c == '$' {
            false
        } else if c == '\\' {
            i + 1 < chars.len() && is_class(chars[i + 1])
        } else if c == '{' {
            i + 1 < chars.len() && '1' <= chars[i + 1] && chars[i + 1] <= '9'
        } else {
            true
        };
        assert(fits == takes_text_at(pattern@, i as int));
        if !fits {
            return false;
        }
        i = i + 1;
    }
    true
}

/// Whether a regular expression never goes back.
pub fn only_goes_on(pattern: &str) -> (r: bool)
    ensures
        r == never_goes_back(pattern@),
{
    if contains(pattern, "?P=") {
        return false;
    }
    let chars: Vec<char> = chars_of(pattern);
    let mut i: usize = 1;
    while i < chars.len()
        invariant
            1 <= i,
            chars@ == pattern@,
            forall|j: int|
                0 < j < i && j < chars@.len() && #[trigger] is_recall(pattern@[j])
                    ==> pattern@[j - 1] != '\\',
        decreases chars.len() - i,
    {
        let c: char = chars[i];
        if chars[i - 1] == '\\' && (c == 'K' || c == 'k' || '0' <= c && c <= '9') {
            assert(is_recall(pattern@[i as int]));
            return false;
        }
        i = i + 1;
    }
    true
}

/// Whether a rule may leave a character in front that comes from nowhere.
pub fn may_add_to_the_front(rule: &Rule) -> (r: bool)
    ensures
        r == adds_to_the_front(rule@),
{
    match rule {
        Rule::Prepends(text) => chars_of(text.as_str()).len() == 0,
        Rule::Replaces(written) => chars_of(written.2.as_str()).len() > 0 && !always_takes_text(
            written.1.0,
            written.1.1.as_str(),
        ),
        _ => false,
    }
}

/// Whether a rule can be followed for any text.
pub fn rule_can_be_followed(rule: &Rule) -> (r: bool)
    ensures
        r == rule_fits(rule@),
{
    match rule {
        Rule::Replaces(written) => written.1.0 == 0 || only_goes_on(written.1.1.as_str()),
        Rule::Compiled(written) => match decode_base64(written.1.as_str()) {
            None => false,
            Some(bytes) => {
                let whole: bool = can_be_walked(&bytes);
                proof {
                    if rule_fits(rule@) {
                        let other: Seq<u8> = choose|other: Seq<u8>| #[trigger]
                            base64_of(other) == written.1@ && is_whole(other);
                        lemma_base64_is_injective(other, bytes@);
                    }
                }
                whole
            },
        },
        _ => true,
    }
}

/// Whether each of some rules can be followed for any text.
pub fn rules_can_be_followed(all: &Vec<Rule>) -> (r: bool)
    ensures
        r == rules_fit(rule_views(all@)),
{
    let ghost views: Seq<RuleView> = rule_views(all@);
    let mut front: Option<usize> = None;
    let mut k: usize = 0;
    while k < all.len()
        invariant
            k <= all.len(),
            views == rule_views(all@),
            forall|i: int| 0 <= i < k ==> rule_fits(#[trigger] views[i]),
            forall|i: int, j: int|
                0 <= i < j < k ==> !(adds_to_the_front(#[trigger] views[i]) && realigns(
                    #[trigger] views[j],
                )),
            match front {
                None => forall|i: int| 0 <= i < k ==> !adds_to_the_front(#[trigger] views[i]),
                Some(f) => f < k && adds_to_the_front(views[f as int]),
            },
        decreases all.len() - k,
    {
        assert(views[k as int] == all@[k as int]@);
        if !rule_can_be_followed(&all[k]) {
            assert(!rule_fits(views[k as int]));
            return false;
        }
        if let Some(f) = front {
            if matches!(&all[k], Rule::Compiled(_) | Rule::Realigns) {
                assert(adds_to_the_front(views[f as int]) && realigns(views[k as int]));
                return false;
            }
        }
        if may_add_to_the_front(&all[k]) {
            front = Some(k);
        }
        k = k + 1;
    }
    true
}

/// Whether a text can be cut up in each of some ways, once some rules were
/// followed.
pub fn cuts_can_be_made(rules: &Vec<Rule>, cuts: &Vec<Cut>) -> (r: bool)
    ensures
        r == cuts_fit(rule_views(rules@), cut_views(cuts@)),
{
    let ghost views: Seq<RuleView> = rule_views(rules@);
    let ghost ways: Seq<CutView> = cut_views(cuts@);
    let mut front: Option<usize> = None;
    let mut i: usize = 0;
    while i < rules.len()
        invariant
            i <= rules.len(),
            views == rule_views(rules@),
            match front {
                None => forall|j: int| 0 <= j < i ==> !adds_to_the_front(#[trigger] views[j]),
                Some(f) => f < i && adds_to_the_front(views[f as int]),
            },
        decreases rules.len() - i,
    {
        assert(views[i as int] == rules@[i as int]@);
        if may_add_to_the_front(&rules[i]) {
            front = Some(i);
        }
        i = i + 1;
    }
    let mut k: usize = 0;
    while k < cuts.len()
        invariant
            k <= cuts.len(),
            views == rule_views(rules@),
            ways == cut_views(cuts@),
            match front {
                None => forall|j: int|
                    0 <= j < views.len() ==> !adds_to_the_front(#[trigger] views[j]),
                Some(f) => f < views.len() && adds_to_the_front(views[f as int]),
            },
            forall|j: int| 0 <= j < k ==> cut_fits(#[trigger] ways[j]),
            front is Some ==> forall|j: int| 0 <= j < k ==> !((#[trigger] ways[j]) is Realigns),
        decreases cuts.len() - k,
    {
        assert(ways[k as int] == cuts@[k as int]@);
        let fits: bool = match &cuts[k] {
            Cut::Every(n) => *n > 0,
            Cut::AtMatches(pattern) => only_goes_on(pattern.as_str()),
            Cut::Realigns => match front {
                None => true,
                Some(f) => {
                    assert(adds_to_the_front(views[f as int]) && ways[k as int] is Realigns);
                    false
                },
            },
            Cut::Plain => true,
        };
        if !fits {
            assert(!cut_fits(ways[k as int]) || ways[k as int] is Realigns);
            return false;
        }
        k = k + 1;
    }
    true
}

/// Whether no two of some added tokens claim the same white space.
pub fn added_tokens_are_apart(all: &Vec<Added>) -> (r: bool)
    ensures
        r == added_fit(added_views(all@)),
{
    let ghost views: Seq<AddedView> = all@.map_values(|a: Added| a@);
    let ghost set: Set<AddedView> = added_views(all@);
    let mut raw: Option<usize> = None;
    let mut rewritten: Option<usize> = None;
    let mut i: usize = 0;
    while i < all.len()
        invariant
            i <= all.len(),
            views == all@.map_values(|a: Added| a@),
            match raw {
                None => forall|j: int|
                    0 <= j < i ==> !((#[trigger] views[j]).rstrip && !views[j].normalized),
                Some(f) => f < i && views[f as int].rstrip && !views[f as int].normalized,
            },
            match rewritten {
                None => forall|j: int|
                    0 <= j < i ==> !((#[trigger] views[j]).rstrip && views[j].normalized),
                Some(f) => f < i && views[f as int].rstrip && views[f as int].normalized,
            },
        decreases all.len() - i,
    {
        assert(views[i as int] == all@[i as int]@);
        if all[i].rstrip {
            if all[i].normalized {
                rewritten = Some(i);
            } else {
                raw = Some(i);
            }
        }
        i = i + 1;
    }
    let mut k: usize = 0;
    while k < all.len()
        invariant
            k <= all.len(),
            views == all@.map_values(|a: Added| a@),
            set == views.to_set(),
            match raw {
                None => forall|j: int|
                    0 <= j < views.len() ==> !((#[trigger] views[j]).rstrip
                        && !views[j].normalized),
                Some(f) => f < views.len() && views[f as int].rstrip
                    && !views[f as int].normalized,
            },
            match rewritten {
                None => forall|j: int|
                    0 <= j < views.len() ==> !((#[trigger] views[j]).rstrip
                        && views[j].normalized),
                Some(f) => f < views.len() && views[f as int].rstrip && views[f as int].normalized,
            },
            forall|h: int, j: int|
                0 <= h < views.len() && 0 <= j < k ==> !clash(
                    #[trigger] views[h],
                    #[trigger] views[j],
                ),
        decreases all.len() - k,
    {
        assert(views[k as int] == all@[k as int]@);
        let b: &Added = &all[k];
        if b.lstrip {
            let other: Option<usize> = if b.normalized {
                rewritten
            } else if same(trim(b.content.as_str()), "") {
                raw
            } else {
                None
            };
            if let Some(f) = other {
                assert(clash(views[f as int], views[k as int]));
                assert(set.contains(views[f as int]) && set.contains(views[k as int]));
                return false;
            }
        }
        k = k + 1;
    }
    assert forall|a: AddedView, b: AddedView| #[trigger]
        set.contains(a) && #[trigger] set.contains(b) implies !clash(a, b) by {
        let h: int = choose|h: int| 0 <= h < views.len() && views[h] == a;
        let j: int = choose|j: int| 0 <= j < views.len() && views[j] == b;
        assert(!clash(views[h], views[j]));
    }
    true
}

/// Whether a tokenizer can be asked for the tokens of any text.
pub fn can_be_asked(tokenizer: &Tokenizer) -> (r: bool)
    ensures
        r == is_sound(*tokenizer),
{
    if let Chance::Sampling(Some(_)) = chance(tokenizer) {
        return false;
    }
    let rules: Vec<Rule> = rules(tokenizer);
    steps_can_be_taken(&steps(tokenizer)) && rules_can_be_followed(&rules) && cuts_can_be_made(
        &rules,
        &cuts(tokenizer),
    ) && added_tokens_are_apart(&added(tokenizer))
}

/// A tokenizer decides by chance exactly where it samples, or drops merges with
/// a probability that is not zero.
pub proof fn law_chance(t: Tokenizer)
    ensures
        chance_of(t) is Never ==> !draws_lots(t),
        chance_of(t) matches Chance::Dropout(p) ==> (p is None ==> !draws_lots(t)),
        chance_of(t) matches Chance::Dropout(p) ==> (p matches Some(bits) ==> (draws_lots(t)
            <==> bits != 0)),
        chance_of(t) matches Chance::Sampling(a) ==> (draws_lots(t) <==> a is Some),
{
}

/// Steps can be taken exactly where at most one of them is a template, and that
/// one knows each special token it names and has no place for a second text.
pub proof fn law_steps(steps: Seq<StepView>, next: StepView)
    ensures
        steps_fit(Seq::<StepView>::empty()),
        next is Plain ==> (steps_fit(steps.push(next)) <==> steps_fit(steps)),
        next matches StepView::Template { single, all_known } ==> (steps_fit(steps.push(next))
            <==> steps_fit(steps) && all_known && !contains_text(single, "Sequence { id: B"@)
            && forall|i: int| 0 <= i < steps.len() ==> (#[trigger] steps[i]) is Plain),
{
    let all: Seq<StepView> = steps.push(next);
    let n: int = steps.len() as int;
    assert forall|i: int| 0 <= i < n implies #[trigger] all[i] == steps[i] by {}
    assert(all[n] == next);
    if steps_fit(all) {
        assert forall|i: int| 0 <= i < n implies step_fits(#[trigger] steps[i]) by {
            assert(step_fits(all[i]));
        }
        assert forall|i: int, j: int| 0 <= i < j < n implies !((#[trigger] steps[i]) is Template
            && (#[trigger] steps[j]) is Template) by {
            assert(!(all[i] is Template && all[j] is Template));
        }
        assert(step_fits(all[n]));
        if next is Template {
            assert forall|i: int| 0 <= i < n implies (#[trigger] steps[i]) is Plain by {
                assert(!(all[i] is Template && all[n] is Template));
            }
        }
    }
}

/// Which characters a regular expression may hold so that each of its matches
/// takes some text: no group, choice, anchor, star or question mark, a backslash
/// only before the letter of a class, and a count only of one or more.
pub proof fn law_patterns_that_take_text(kind: u32, pattern: Seq<char>, i: int)
    requires
        0 <= i < pattern.len(),
    ensures
        takes_text(0, pattern),
        !takes_text(kind, Seq::<char>::empty()),
        kind != 0 && takes_text(kind, pattern) ==> {
            &&& !("()|*?^$"@.contains(pattern[i]))
            &&& pattern[i] == '\\' ==> i + 1 < pattern.len() && "sSdDwWnrt"@.contains(
                pattern[i + 1],
            )
            &&& pattern[i] == '{' ==> i + 1 < pattern.len() && "123456789"@.contains(
                pattern[i + 1],
            )
        },
        (forall|k: int|
            0 <= k < pattern.len() ==> !("()|*?^$\\{"@.contains(#[trigger] pattern[k])))
            ==> takes_text(kind, pattern),
{
    reveal_strlit("()|*?^$");
    reveal_strlit("()|*?^$\\{");
    reveal_strlit("sSdDwWnrt");
    reveal_strlit("123456789");
    if kind != 0 && takes_text(kind, pattern) {
        assert(takes_text_at(pattern, i));
        let c: char = pattern[i];
        if "()|*?^$"@.contains(c) {
            let k: int = choose|k: int| 0 <= k < "()|*?^$"@.len() && "()|*?^$"@[k] == c;
            assert(0 <= k < 7);
        }
        if c == '\\' {
            let d: char = pattern[i + 1];
            let s: Seq<char> = "sSdDwWnrt"@;
            assert(s[0] == 's' && s[1] == 'S' && s[2] == 'd' && s[3] == 'D' && s[4] == 'w' && s[5]
                == 'W' && s[6] == 'n' && s[7] == 'r' && s[8] == 't');
            assert(s.contains(d));
        }
        if c == '{' {
            let d: char = pattern[i + 1];
            let s: Seq<char> = "123456789"@;
            assert(s[d as int - 49] == d);
            assert(s.contains(d));
        }
    }
    if forall|k: int|
        0 <= k < pattern.len() ==> !("()|*?^$\\{"@.contains(#[trigger] pattern[k])) {
        let s: Seq<char> = "()|*?^$\\{"@;
        assert(s[0] == '(' && s[1] == ')' && s[2] == '|' && s[3] == '*' && s[4] == '?' && s[5]
            == '^' && s[6] == '$' && s[7] == '\\' && s[8] == '{');
        assert forall|k: int| 0 <= k < pattern.len() implies #[trigger] takes_text_at(
            pattern,
            k,
        ) by {
            assert(!s.contains(pattern[k]));
            assert(forall|j: int| 0 <= j < 9 ==> s.contains(#[trigger] s[j]));
            assert(s.contains(s[0]) && s.contains(s[1]) && s.contains(s[2]) && s.contains(s[3])
                && s.contains(s[4]) && s.contains(s[5]) && s.contains(s[6]) && s.contains(s[7])
                && s.contains(s[8]));
        }
    }
}

/// A regular expression goes back exactly where it names a group again, or has a
/// backslash before a digit or a `k`.
pub proof fn law_patterns_that_go_back(a: Seq<char>, c: char, b: Seq<char>, i: int)
    ensures
        c == 'K' || c == 'k' || '0' <= c <= '9' ==> !never_goes_back(a + seq!['\\', c] + b),
        !never_goes_back(a + "?P="@ + b),
        never_goes_back(a) && 0 < i < a.len() && a[i - 1] == '\\' ==> a[i] != 'K' && a[i] != 'k'
            && !('0' <= a[i] <= '9'),
        !contains_text(a, "?P="@) && !a.contains('\\') ==> never_goes_back(a),
{
    let p: Seq<char> = a + seq!['\\', c] + b;
    assert(p[a.len() as int] == '\\' && p[a.len() as int + 1] == c);
    if is_recall(c) {
        assert(is_recall(p[a.len() as int + 1]));
    }
    crate::text::law_holding_a_text(a, "?P="@, b);
    if never_goes_back(a) && 0 < i < a.len() && a[i - 1] == '\\' {
        assert(!is_recall(a[i]));
    }
    if !a.contains('\\') {
        assert forall|k: int| 0 < k < a.len() && #[trigger] is_recall(a[k]) implies a[k - 1]
            != '\\' by {
            assert(a.contains(a[k - 1]));
        }
    }
}

/// Which rules may add to the front of a text: putting nothing in front, and
/// putting something in place of what may be nothing; and which need the front
/// as it was.
pub proof fn law_rules_at_the_front(
    kind: u32,
    text: Seq<char>,
    pattern: Seq<char>,
    content: Seq<char>,
)
    ensures
        adds_to_the_front(RuleView::Prepends(text)) <==> text.len() == 0,
        adds_to_the_front(RuleView::Replaces { kind, pattern, content }) <==> content.len() > 0
            && !takes_text(kind, pattern),
        !adds_to_the_front(RuleView::Compiled(text)),
        !adds_to_the_front(RuleView::Realigns),
        realigns(RuleView::Compiled(text)),
        realigns(RuleView::Realigns),
        !realigns(RuleView::Prepends(text)),
        !realigns(RuleView::Replaces { kind, pattern, content }),
{
}

/// Which rules can be followed, each by itself and behind others: a pattern may
/// not go back, a table must be a whole one, and nothing that needs the front as
/// it was comes behind what may add to it.
pub proof fn law_rules(rules: Seq<RuleView>, next: RuleView, bytes: Seq<u8>)
    ensures
        rules_fit(Seq::<RuleView>::empty()),
        rules_fit(rules.push(next)) <==> rules_fit(rules) && rule_fits(next) && (next is Compiled
            || next is Realigns ==> forall|i: int|
            0 <= i < rules.len() ==> !adds_to_the_front(#[trigger] rules[i])),
        next is Prepends || next is Realigns ==> rule_fits(next),
        next matches RuleView::Replaces { kind, pattern, .. } ==> (rule_fits(next) <==> kind == 0
            || never_goes_back(pattern)),
        rule_fits(RuleView::Compiled(base64_of(bytes))) <==> is_whole(bytes),
{
    let all: Seq<RuleView> = rules.push(next);
    let n: int = rules.len() as int;
    assert forall|i: int| 0 <= i < n implies #[trigger] all[i] == rules[i] by {}
    assert(all[n] == next);
    if rules_fit(all) {
        assert forall|i: int| 0 <= i < n implies rule_fits(#[trigger] rules[i]) by {
            assert(rule_fits(all[i]));
        }
        assert forall|i: int, j: int| 0 <= i < j < n implies !(adds_to_the_front(
            #[trigger] rules[i],
        ) && realigns(#[trigger] rules[j])) by {
            assert(!(adds_to_the_front(all[i]) && realigns(all[j])));
        }
        assert(rule_fits(all[n]));
        if realigns(next) {
            assert forall|i: int| 0 <= i < n implies !adds_to_the_front(#[trigger] rules[i]) by {
                assert(!(adds_to_the_front(all[i]) && realigns(all[n])));
            }
        }
    }
    if rule_fits(RuleView::Compiled(base64_of(bytes))) {
        let other: Seq<u8> = choose|other: Seq<u8>| #[trigger]
            base64_of(other) == base64_of(bytes) && is_whole(other);
        lemma_base64_is_injective(other, bytes);
    }
}

/// Which cuts can be made, each by itself and behind the rules.
pub proof fn law_cuts(rules: Seq<RuleView>, cuts: Seq<CutView>, next: CutView, n: usize)
    ensures
        cuts_fit(rules, Seq::<CutView>::empty()),
        cuts_fit(rules, cuts.push(next)) <==> cuts_fit(rules, cuts) && cut_fits(next) && (
        next is Realigns ==> forall|i: int|
            0 <= i < rules.len() ==> !adds_to_the_front(#[trigger] rules[i])),
        cut_fits(CutView::Every(n)) <==> n > 0,
        next matches CutView::AtMatches(pattern) ==> (cut_fits(next) <==> never_goes_back(pattern)),
        next is Realigns || next is Plain ==> cut_fits(next),
{
    let all: Seq<CutView> = cuts.push(next);
    let k: int = cuts.len() as int;
    assert forall|i: int| 0 <= i < k implies #[trigger] all[i] == cuts[i] by {}
    assert(all[k] == next);
    if cuts_fit(rules, all) {
        assert forall|i: int| 0 <= i < k implies cut_fits(#[trigger] cuts[i]) by {
            assert(cut_fits(all[i]));
        }
        assert forall|i: int, j: int| 0 <= i < rules.len() && 0 <= j < k implies !(
        adds_to_the_front(#[trigger] rules[i]) && #[trigger] cuts[j] is Realigns) by {
            assert(!(adds_to_the_front(rules[i]) && all[j] is Realigns));
        }
        assert(cut_fits(all[k]));
        if next is Realigns {
            assert forall|i: int| 0 <= i < rules.len() implies !adds_to_the_front(
                #[trigger] rules[i],
            ) by {
                assert(!(adds_to_the_front(rules[i]) && all[k] is Realigns));
            }
        }
    }
}

/// Two added tokens clash exactly where the one takes up the white space behind
/// it, the other that before it, both are looked for in the same text, and the
/// other one may be made of white space alone.
pub proof fn law_added_tokens(a: AddedView, b: AddedView, added: Set<AddedView>)
    ensures
        clash(a, b) <==> a.rstrip && b.lstrip && a.normalized == b.normalized && (b.normalized
            || trimmed(b.content) == ""@),
        added_fit(Set::<AddedView>::empty()),
        added_fit(added) && added.contains(a) && added.contains(b) ==> !clash(a, b),
        !added_fit(added) ==> exists|x: AddedView, y: AddedView| #[trigger]
            added.contains(x) && #[trigger] added.contains(y) && clash(x, y),
{
}

/// A tokenizer is sound exactly where each part of it is, and it samples nothing.
pub proof fn law_sound_tokenizers(t: Tokenizer, other: Tokenizer)
    ensures
        is_sound(t) ==> steps_fit(steps_of(t)) && rules_fit(rules_of(t)) && cuts_fit(
            rules_of(t),
            cuts_of(t),
        ) && added_fit(added_of(t)),
        chance_of(t) matches Chance::Sampling(a) ==> (a is Some ==> !is_sound(t)),
        steps_fit(steps_of(t)) && rules_fit(rules_of(t)) && cuts_fit(rules_of(t), cuts_of(t))
            && added_fit(added_of(t)) && !(chance_of(t) is Sampling) ==> is_sound(t),
        same_makeup(t, other) ==> is_sound(t) == is_sound(other) && draws_lots(t) == draws_lots(
            other,
        ),
        same_makeup(t, t),
{
}

/// The letter of a class behind a backslash, and a count of one or more, take
/// text.
pub proof fn law_classes_and_counts_take_text(kind: u32, c: char, d: char)
    requires
        'a' <= c <= 'z' || 'A' <= c <= 'Z' || '0' <= c <= '9',
        '1' <= d <= '9',
    ensures
        kind != 0 ==> (takes_text(kind, seq!['\\', c]) <==> c == 's' || c == 'S' || c == 'd' || c
            == 'D' || c == 'w' || c == 'W' || c == 'n' || c == 'r' || c == 't'),
        takes_text(kind, seq![c, '{', d, '}']),
{
    let p: Seq<char> = seq!['\\', c];
    assert(p[0] == '\\' && p[1] == c);
    assert(takes_text_at(p, 1));
    if kind != 0 && takes_text(kind, p) {
        assert(takes_text_at(p, 0));
    }
    let q: Seq<char> = seq![c, '{', d, '}'];
    assert(q[0] == c && q[1] == '{' && q[2] == d && q[3] == '}');
    assert(takes_text_at(q, 0) && takes_text_at(q, 1) && takes_text_at(q, 2) && takes_text_at(q, 3));
    assert forall|i: int| 0 <= i < q.len() implies #[trigger] takes_text_at(q, i) by {
        assert(i == 0 || i == 1 || i == 2 || i == 3);
    }
}

} // verus!
