use base64::Engine;
use embed_server::charsmap::can_be_walked;
use embed_server::soundness::{
    always_takes_text, can_be_asked, decides_by_chance, only_goes_on,
};
use embed_server::tokenizer::{
    configure_truncation, tokenize, try_configure_truncation, try_tokenize,
};
use tokenizers::models::bpe::BPE;
use tokenizers::models::unigram::Unigram;
use tokenizers::models::wordlevel::WordLevel;
use tokenizers::pre_tokenizers::whitespace::Whitespace;
use tokenizers::processors::bert::BertProcessing;
use tokenizers::{PaddingParams, Tokenizer};

/// A tokenizer that knows a few words.
fn words() -> Tokenizer {
    let vocab = ["[UNK]", "[CLS]", "[SEP]", "hello", "world"]
        .iter()
        .enumerate()
        .map(|(i, w)| (w.to_string(), i as u32))
        .collect();
    let model = WordLevel::builder()
        .vocab(vocab)
        .unk_token("[UNK]".to_string())
        .build()
        .expect("model");
    let mut tok = Tokenizer::new(model);
    tok.with_pre_tokenizer(Some(Whitespace {}));
    tok
}

fn strings(v: &[&str]) -> Vec<String> {
    v.iter().map(|s| s.to_string()).collect()
}

#[test]
fn configure_truncation_always_clears_padding() {
    let mut tok = Tokenizer::new(WordLevel::default());
    tok.with_padding(Some(PaddingParams::default()));
    assert!(
        tok.get_padding().is_some(),
        "precondition: the tokenizer must start WITH padding, or this \
         test passes without proving anything"
    );

    configure_truncation(&mut tok, true, 512).expect("configure_truncation");
    assert!(
        tok.get_padding().is_none(),
        "padding must be cleared — otherwise [PAD] reaches the model as \
         a real token and corrupts the embedding"
    );

    // Also with auto_truncate=false: the padding decision is independent
    // of the truncation decision.
    let mut tok = Tokenizer::new(WordLevel::default());
    tok.with_padding(Some(PaddingParams::default()));
    configure_truncation(&mut tok, false, 512).expect("configure_truncation");
    assert!(
        tok.get_padding().is_none(),
        "padding must be cleared on the auto_truncate=false path too — \
         that is the path the worker takes"
    );
}

#[test]
fn configure_truncation_enables_when_auto_true() {
    let mut tok = words();
    assert!(
        tok.get_truncation().is_none(),
        "precondition: the tokenizer should have no truncation"
    );

    configure_truncation(&mut tok, true, 512).expect("configure_truncation");

    let params = tok
        .get_truncation()
        .expect("truncation should be enabled when auto_truncate=true");
    assert_eq!(params.max_length, 512);
}

#[test]
fn configure_truncation_disabled_when_auto_false() {
    let mut tok = words();
    configure_truncation(&mut tok, true, 512).expect("seed");
    assert!(tok.get_truncation().is_some());

    configure_truncation(&mut tok, false, 512).expect("configure_truncation");

    assert!(
        tok.get_truncation().is_none(),
        "truncation should be disabled when auto_truncate=false"
    );
}

#[test]
fn overlong_input_encodes_within_max_len_when_auto_truncate_on() {
    let mut tok = words();
    configure_truncation(&mut tok, true, 512).expect("configure_truncation");

    let long = "word ".repeat(5000);
    let enc = tok.encode(long, true).expect("encode");
    assert!(
        enc.get_ids().len() <= 512,
        "expected <= 512 ids, got {}",
        enc.get_ids().len()
    );
}

#[test]
fn overlong_input_exceeds_max_len_when_auto_truncate_off() {
    let mut tok = words();
    configure_truncation(&mut tok, false, 512).expect("configure_truncation");

    let long = "word ".repeat(5000);
    let enc = tok.encode(long, true).expect("encode");
    assert!(
        enc.get_ids().len() > 512,
        "expected overlong ids when truncation off, got {}",
        enc.get_ids().len()
    );
}

#[test]
fn overlong_texts_are_cut_by_the_tokenizer() {
    let mut tok = words();
    configure_truncation(&mut tok, true, 4).expect("configure_truncation");
    let (ids, cut) = tokenize(&tok, &strings(&["hello world hello world hello"]), 4).unwrap();
    assert_eq!(ids, vec![vec![3, 4, 3, 4]]);
    assert_eq!(cut, 0, "nothing was left to cut");
}

#[test]
fn overlong_texts_are_cut_behind_the_tokenizer() {
    let mut tok = words();
    configure_truncation(&mut tok, false, 4).expect("configure_truncation");
    let texts = strings(&["hello world hello world hello", "world"]);
    let (ids, cut) = tokenize(&tok, &texts, 4).unwrap();
    assert_eq!(ids, vec![vec![3, 4, 3, 4], vec![4]]);
    assert_eq!(cut, 1);
}

#[test]
fn special_tokens_must_fit() {
    let mut tok = words();
    let brackets = BertProcessing::new(("[SEP]".to_string(), 2), ("[CLS]".to_string(), 1));
    tok.with_post_processor(Some(brackets));
    assert!(try_configure_truncation(&mut tok, true, 1).is_none(), "two special tokens");
    assert!(tok.get_truncation().is_none());
    assert!(matches!(try_configure_truncation(&mut tok, true, 3), Some(Ok(()))));
    let (ids, _) = tokenize(&tok, &strings(&["hello world"]), 3).unwrap();
    assert_eq!(ids, vec![vec![1, 3, 2]]);
    assert!(matches!(try_configure_truncation(&mut tok, false, 1), Some(Ok(()))));
}

#[test]
fn no_texts_have_no_tokens() {
    let (ids, cut) = tokenize(&words(), &vec![], 4).unwrap();
    assert!(ids.is_empty() && cut == 0);
}

/// A tokenizer of these parts, each in JSON.
fn made_of(added: &str, normalizer: &str, pre_tokenizer: &str, post_processor: &str) -> Tokenizer {
    let json = format!(
        "{{\"version\": \"1.0\", \"truncation\": null, \"padding\": null, \
         \"added_tokens\": [{added}], \"normalizer\": {normalizer}, \
         \"pre_tokenizer\": {pre_tokenizer}, \"post_processor\": {post_processor}, \
         \"decoder\": null, \"model\": {{\"type\": \"WordLevel\", \
         \"vocab\": {{\"[UNK]\": 0, \"one\": 1, \"two\": 2, \"hello\": 3, \"b\": 4}}, \
         \"unk_token\": \"[UNK]\"}}}}"
    );
    Tokenizer::from_bytes(json).expect("tokenizer")
}

const WHITESPACE: &str = "{\"type\": \"Whitespace\"}";

/// A tokenizer that ends with this post-processor.
fn ending_with(post_processor: &str) -> Tokenizer {
    made_of("", "null", WHITESPACE, post_processor)
}

/// A tokenizer that rewrites texts by these rules.
fn rewriting(rules: &[&str]) -> Tokenizer {
    made_of("", &rewriters(rules), WHITESPACE, "null")
}

fn rewriters(rules: &[&str]) -> String {
    format!("{{\"type\": \"Sequence\", \"normalizers\": [{}]}}", rules.join(", "))
}

/// A tokenizer that cuts texts up in these ways.
fn cutting(cuts: &[&str]) -> Tokenizer {
    made_of("", "null", &cutters(cuts), "null")
}

fn cutters(cuts: &[&str]) -> String {
    format!("{{\"type\": \"Sequence\", \"pretokenizers\": [{}]}}", cuts.join(", "))
}

fn asked(tok: &Tokenizer, text: &str) -> Option<Result<(Vec<Vec<u32>>, usize), String>> {
    try_tokenize(tok, &strings(&[text]), 100)
}

fn tokens(ids: &[u32]) -> Option<Result<(Vec<Vec<u32>>, usize), String>> {
    Some(Ok((vec![ids.to_vec()], 0)))
}

/// A template for single texts that knows one special token, `[CLS]`.
fn template(pieces: &str) -> String {
    format!(
        "{{\"type\": \"TemplateProcessing\", \"single\": [{pieces}], \"pair\": [], \
         \"special_tokens\": {{\"[CLS]\": {{\"id\": \"[CLS]\", \"ids\": [7], \
         \"tokens\": [\"[CLS]\"]}}}}}}"
    )
}

const CLS: &str = "{\"SpecialToken\": {\"id\": \"[CLS]\", \"type_id\": 0}}";
const SEP: &str = "{\"SpecialToken\": {\"id\": \"[SEP]\", \"type_id\": 0}}";
const FIRST: &str = "{\"Sequence\": {\"id\": \"A\", \"type_id\": 0}}";
const SECOND: &str = "{\"Sequence\": {\"id\": \"B\", \"type_id\": 0}}";

fn chain(parts: &[String]) -> String {
    format!("{{\"type\": \"Sequence\", \"processors\": [{}]}}", parts.join(", "))
}

#[test]
fn a_template_that_knows_its_tokens_is_sound() {
    let good = template(&format!("{CLS}, {FIRST}"));
    let nested = chain(&[chain(&[]), chain(&[chain(&[good.clone()])])]);
    for post in [good.clone(), chain(&[good.clone()]), nested.clone(), "null".to_string()] {
        assert!(can_be_asked(&ending_with(&post)), "{post}");
    }
    assert_eq!(asked(&ending_with(&nested), "hello"), tokens(&[7, 3]));
    let texts = strings(&["hello", "other hello"]);
    let r = try_tokenize(&ending_with(&good), &texts, 2);
    assert_eq!(r, Some(Ok((vec![vec![7, 3], vec![7, 0]], 1))), "one of two is cut");
}

#[test]
fn a_template_that_cannot_be_filled_in_is_not_asked() {
    let good = template(&format!("{CLS}, {FIRST}"));
    let bad = [
        template(&format!("{CLS}, {FIRST}, {SEP}")),
        template(SECOND),
        template(&format!("{FIRST}, {SECOND}")),
        chain(&[good.clone(), good.clone()]),
        chain(&[chain(&[good.clone()]), chain(&[good])]),
        chain(&[chain(&[template(SECOND)])]),
    ];
    for post in bad {
        let tok = ending_with(&post);
        assert!(!can_be_asked(&tok), "{post}");
        assert!(try_tokenize(&tok, &strings(&["hello"]), 4).is_none());
    }
}

#[test]
fn merges_may_be_dropped_by_chance() {
    assert!(!decides_by_chance(&words()));
    let never = BPE::builder().dropout(0.0).build().expect("model");
    assert!(!decides_by_chance(&Tokenizer::new(never)));
    let model = BPE::builder().dropout(0.5).build().expect("model");
    let tok = Tokenizer::new(model);
    assert!(decides_by_chance(&tok));
    assert!(can_be_asked(&tok));
    assert!(matches!(try_tokenize(&tok, &strings(&["x"]), 4), Some(Ok(_))));
}

#[test]
fn a_model_that_samples_is_not_asked() {
    let pieces = vec![("<unk>".to_string(), 0.0), ("a".to_string(), 0.0)];
    let mut model = Unigram::from(pieces, Some(0), false).expect("model");
    assert!(can_be_asked(&Tokenizer::new(model.clone())));
    assert!(!decides_by_chance(&Tokenizer::new(model.clone())));
    model.alpha = Some(0.1);
    let tok = Tokenizer::new(model);
    assert!(decides_by_chance(&tok) && !can_be_asked(&tok));
}

#[test]
fn settings_that_leave_no_room_are_not_asked() {
    let mut tok = words();
    configure_truncation(&mut tok, true, 1).expect("configure_truncation");
    assert!(try_tokenize(&tok, &strings(&["hello"]), 4).is_some());
    let brackets = BertProcessing::new(("[SEP]".to_string(), 2), ("[CLS]".to_string(), 1));
    tok.with_post_processor(Some(brackets));
    assert!(try_tokenize(&tok, &strings(&["hello"]), 4).is_none(), "two special tokens");
}

#[test]
fn a_text_without_tokens_is_an_error() {
    let vocab = vec![("hello".to_string(), 3)].into_iter().collect();
    let model = WordLevel::builder()
        .vocab(vocab)
        .unk_token("[UNK]".to_string())
        .build()
        .expect("model");
    let tok = Tokenizer::new(model);
    assert!(tokenize(&tok, &strings(&["hello"]), 4).is_ok());
    let r = tokenize(&tok, &strings(&["hello", "other"]), 4);
    assert!(r.unwrap_err().starts_with("tokenize: "));
}

#[test]
fn a_tokenizer_that_pads_is_not_asked() {
    let mut tok = words();
    assert!(asked(&tok, "hello").is_some());
    tok.with_padding(Some(PaddingParams::default()));
    assert!(asked(&tok, "hello").is_none());
    configure_truncation(&mut tok, false, 4).expect("configure_truncation");
    assert_eq!(asked(&tok, "hello"), tokens(&[3]));
}

#[test]
fn pieces_without_characters_are_not_asked_for() {
    let every = |n: usize| format!("{{\"type\": \"FixedLength\", \"length\": {n}}}");
    assert!(!can_be_asked(&made_of("", "null", &every(0), "null")));
    assert!(!can_be_asked(&cutting(&[WHITESPACE, &every(0)])));
    let nested = cutting(&[WHITESPACE, &cutters(&[&every(0)])]);
    assert!(!can_be_asked(&nested));
    assert!(asked(&nested, "hello").is_none());
    assert_eq!(asked(&cutting(&[WHITESPACE, &every(2)]), "hello b"), tokens(&[0, 0, 0, 4]));
    assert_eq!(asked(&cutting(&[WHITESPACE, &every(5)]), "hello b"), tokens(&[3, 4]));
}

/// A table of 256 nodes with these nodes set, and a text of replacements.
fn table(nodes: &[(usize, u32)], text: &[u8]) -> Vec<u8> {
    let mut all = vec![0u32; 256];
    for (i, node) in nodes {
        all[*i] = *node;
    }
    let mut bytes = 1024u32.to_le_bytes().to_vec();
    for node in all {
        bytes.extend(node.to_le_bytes());
    }
    bytes.extend(text);
    bytes
}

fn compiled(bytes: &[u8]) -> String {
    let text = base64::engine::general_purpose::STANDARD.encode(bytes);
    format!("{{\"type\": \"Precompiled\", \"precompiled_charsmap\": \"{text}\"}}")
}

/// The node that bears `a` and has a replacement, and leads so far.
fn node_of_a(far: u32) -> (usize, u32) {
    (97, far * 1024 + 256 + 97)
}

#[test]
fn a_whole_table_is_followed() {
    let whole = table(&[node_of_a(96), (1, 0x8000_0000)], b"b\0");
    assert!(can_be_walked(&whole));
    let tok = rewriting(&[&compiled(&whole)]);
    assert_eq!(asked(&tok, "a hello"), tokens(&[4, 3]), "the letter was replaced");
    assert_eq!(asked(&made_of("", &compiled(&whole), WHITESPACE, "null"), "a"), tokens(&[4]));
    let empty = table(&[node_of_a(96), (1, 0x8000_0002)], b"b\0");
    assert!(can_be_walked(&empty), "a replacement may begin where the text ends");
    assert_eq!(asked(&rewriting(&[&compiled(&empty)]), "a hello"), tokens(&[3]));
}

#[test]
fn a_damaged_table_is_not_followed() {
    let short = table(&[], b"");
    let bad = [
        vec![0, 0, 0, 0],
        table(&[(0, 1024 * 256)], b"b\0"),
        table(&[node_of_a(256)], b"b\0"),
        table(&[node_of_a(96), (1, 0x8000_0003)], b"b\0"),
        table(&[node_of_a(96), (1, 0x8000_0001)], "\u{e9}\0".as_bytes()),
        [&4u32.to_le_bytes()[..], &[0, 0, 0, 0]].concat(),
    ];
    for bytes in bad {
        assert!(!can_be_walked(&bytes), "{bytes:?}");
        let tok = rewriting(&["{\"type\": \"NFC\"}", &rewriters(&[&compiled(&bytes)])]);
        assert!(!can_be_asked(&tok), "{bytes:?}");
        assert!(asked(&tok, "a").is_none());
    }
    assert!(can_be_walked(&short));
    assert!(!can_be_walked(&short[..1024].to_vec()), "a node is missing");
    assert!(!can_be_walked(&short[..3].to_vec()));
}

fn replacing(pattern: &str, content: &str) -> String {
    format!("{{\"type\": \"Replace\", \"pattern\": {pattern}, \"content\": \"{content}\"}}")
}

const LOWERCASE: &str = "{\"type\": \"Lowercase\"}";

#[test]
fn rules_that_move_the_front_come_last() {
    let nothing = "{\"type\": \"Prepend\", \"prepend\": \"\"}";
    assert!(!can_be_asked(&rewriting(&[nothing, LOWERCASE])));
    assert!(can_be_asked(&rewriting(&[LOWERCASE, nothing])));
    assert_eq!(asked(&rewriting(&[LOWERCASE, nothing]), "HELLO"), tokens(&[3]));
    let front = replacing("{\"Regex\": \"^\"}", "b ");
    assert!(!can_be_asked(&rewriting(&[&front, &rewriters(&[LOWERCASE])])));
    assert_eq!(asked(&rewriting(&[LOWERCASE, &front]), "HELLO"), tokens(&[4, 3]));
    let gone = replacing("{\"Regex\": \"^\"}", "");
    assert_eq!(asked(&rewriting(&[&gone, LOWERCASE]), "HELLO"), tokens(&[3]));
    let empty = replacing("{\"String\": \"\"}", "b");
    assert!(!can_be_asked(&rewriting(&[&empty, LOWERCASE])));
    let bytes = "{\"type\": \"ByteLevel\", \"add_prefix_space\": false, \
                 \"trim_offsets\": true, \"use_regex\": true}";
    assert!(!can_be_asked(&made_of("", &front, bytes, "null")));
    assert!(can_be_asked(&made_of("", LOWERCASE, bytes, "null")));
    let spaces = replacing("{\"Regex\": \"\\\\s+\"}", " ");
    assert_eq!(asked(&rewriting(&[&spaces, LOWERCASE]), "HELLO  B"), tokens(&[3, 4]));
    let words = replacing("{\"String\": \"HI\"}", "HELLO");
    assert_eq!(asked(&rewriting(&[&words, LOWERCASE]), "HI B"), tokens(&[3, 4]));
}

#[test]
fn patterns_that_may_match_nothing_are_told_apart() {
    for pattern in ["\\s+", " {2,}", "[ab]+c", "x", ".\\d"] {
        assert!(always_takes_text(1, pattern), "{pattern}");
    }
    for pattern in ["", "a*", "a?", "^", "x$", "a|", "(?=a)", "\\b", "x{0,2}", "x{,2}", "\\"] {
        assert!(!always_takes_text(1, pattern), "{pattern}");
    }
    assert!(always_takes_text(0, "a*"));
    assert!(!always_takes_text(0, ""));
}

fn splitting(pattern: &str) -> Tokenizer {
    cutting(&[&format!(
        "{{\"type\": \"Split\", \"pattern\": {pattern}, \"behavior\": \"Removed\", \
         \"invert\": false}}"
    )])
}

#[test]
fn expressions_that_go_back_are_not_matched() {
    for pattern in ["\\s+(?!\\S)|\\s+", "'(?:[sdmt]|ll|ve|re)| ?\\p{L}+", "(?<=a)b", "K1"] {
        assert!(only_goes_on(pattern), "{pattern}");
    }
    for pattern in ["(?=a\\K)", "(?:(a|b\\1)c)+", "(?<n>a)\\k<n>", "(?P<n>a)(?P=n)"] {
        assert!(!only_goes_on(pattern), "{pattern}");
        let json = format!("{{\"Regex\": \"{}\"}}", pattern.replace('\\', "\\\\"));
        assert!(!can_be_asked(&splitting(&json)), "{pattern}");
        assert!(asked(&splitting(&json), "acb").is_none());
        assert!(!can_be_asked(&rewriting(&[&replacing(&json, "")])), "{pattern}");
    }
    let plain = "{\"String\": \"(?P=n)\"}";
    assert_eq!(asked(&splitting(plain), "hello(?P=n)b"), tokens(&[3, 4]));
    assert_eq!(asked(&rewriting(&[&replacing(plain, "")]), "hel(?P=n)lo"), tokens(&[3]));
    assert_eq!(asked(&splitting("{\"Regex\": \"\\\\s+\"}"), "hello  b"), tokens(&[3, 4]));
}

/// An added token that takes white space up before or behind it.
fn added(id: u32, content: &str, lstrip: bool, rstrip: bool, normalized: bool) -> String {
    format!(
        "{{\"id\": {id}, \"content\": \"{content}\", \"single_word\": false, \
         \"lstrip\": {lstrip}, \"rstrip\": {rstrip}, \"normalized\": {normalized}, \
         \"special\": false}}"
    )
}

#[test]
fn added_tokens_may_not_claim_the_same_white_space() {
    let greedy = added(5, "<a>", false, true, false);
    let with = |b: String| made_of(&format!("{greedy}, {b}"), "null", WHITESPACE, "null");
    for tok in [with(added(6, " ", true, false, false)), with(added(6, "\\t ", true, true, false))] {
        assert!(!can_be_asked(&tok));
        assert!(asked(&tok, "<a>   ").is_none());
    }
    let apart = with(added(6, "[M]", true, false, false));
    assert_eq!(asked(&apart, "<a>   hello  [M]"), tokens(&[5, 3, 6]));
    assert!(can_be_asked(&with(added(6, " ", false, false, false))));
    assert!(can_be_asked(&with(added(6, "[M]", true, false, true))), "another pass");
    let both = format!(
        "{}, {}",
        added(5, "<a>", false, true, true),
        added(6, "[M]", true, false, true)
    );
    assert!(!can_be_asked(&made_of(&both, "null", WHITESPACE, "null")));
}
