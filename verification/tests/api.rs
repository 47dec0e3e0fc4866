use base64::Engine;
use embed_server::api::{
    accept_vectors, build_data, cache_model_key, check_request, complete, look_up,
    refuse_untokenized, respond, respond_from_cache, token_usage, Accepted, EmbedInput,
    EmbedRequest, EmbeddingValue, EncodingFormat, InferenceOutcome, InputType, Serving,
    TokenizeFailure,
};
use embed_server::batcher::{BatchError, QueueFullError};
use embed_server::cache::EmbeddingCache;
use embed_server::encoding::encode_base64;
use embed_server::ipc::protocol::{EmbedResponseOk, RerankResponseOk, WorkerResponse};
use embed_server::metrics::{Change, MetricLog};
use embed_server::reply::Refusal;

fn bits(v: &[f32]) -> Vec<u32> {
    v.iter().map(|f| f.to_bits()).collect()
}

fn floats(bytes: &[u8]) -> Vec<f32> {
    bytes
        .chunks_exact(4)
        .map(|b| f32::from_le_bytes([b[0], b[1], b[2], b[3]]))
        .collect()
}

/// The names of the series that were updated, and their labels and counter
/// steps.
fn names(log: MetricLog) -> Vec<String> {
    log.into_updates()
        .iter()
        .map(|u| {
            let labels: Vec<String> = u.labels.iter().map(|(_, v)| v.clone()).collect();
            let step = match u.change {
                Change::CounterIncrement(n) => format!(" +{n}"),
                _ => String::new(),
            };
            format!("{}[{}]{}", u.name, labels.join(","), step)
        })
        .collect()
}

fn serving(cap: usize, models: &[&str]) -> Serving {
    Serving {
        default_model: "test-model".to_string(),
        models: models.iter().map(|m| m.to_string()).collect(),
        max_input_array: cap,
    }
}

fn request(n: usize) -> EmbedRequest {
    EmbedRequest {
        input: EmbedInput::Batch((0..n).map(|i| format!("text {i}")).collect()),
        model: None,
        encoding_format: None,
        input_type: None,
    }
}

fn accepted(texts: &[&str]) -> Accepted {
    Accepted {
        model: "e5".to_string(),
        cache_key: "e5".to_string(),
        texts: texts.iter().map(|t| t.to_string()).collect(),
        encoding_format: EncodingFormat::Float,
    }
}

fn refused(r: Result<Accepted, Refusal>) -> Refusal {
    match r {
        Ok(_) => panic!("the request was accepted"),
        Err(e) => e,
    }
}

#[test]
fn test_encoding_format_base64_decodes_to_original_floats() {
    let original = vec![1.0_f32, -0.5_f32, 0.25_f32, 0.0_f32];
    let encoded = encode_base64(&bits(&original));

    let decoded_bytes = base64::engine::general_purpose::STANDARD
        .decode(&encoded)
        .expect("valid base64");
    assert_eq!(decoded_bytes.len(), original.len() * 4, "4 bytes per f32");
    assert_eq!(floats(&decoded_bytes), original, "round-trip must be lossless");
}

#[test]
fn base64_of_known_vectors() {
    assert_eq!(encode_base64(&vec![]), "");
    assert_eq!(encode_base64(&bits(&[1.0])), "AACAPw==");
    assert_eq!(encode_base64(&vec![0x03020100, 0x07060504]), "AAECAwQFBgc=");
    assert_eq!(encode_base64(&vec![0xffffffff, 0xfbf0fffe, 0x00000000]), "//////7/8PsAAAAA");
}

#[test]
fn base64_tells_the_zeros_apart() {
    assert_ne!(encode_base64(&bits(&[0.0])), encode_base64(&bits(&[-0.0])));
}

#[test]
fn test_build_data_float_format() {
    let vecs = vec![bits(&[1.0_f32, 2.0_f32]), bits(&[3.0_f32])];
    let data = build_data(vecs, EncodingFormat::Float);
    assert_eq!(data.len(), 2);
    assert_eq!(data[0].index, 0);
    assert_eq!(data[1].index, 1);
    assert_eq!(data[0].embedding, EmbeddingValue::Vector(bits(&[1.0, 2.0])));
    assert_eq!(data[1].embedding, EmbeddingValue::Vector(bits(&[3.0])));
}

#[test]
fn test_build_data_base64_format() {
    let v = vec![1.0_f32, 0.0_f32];
    let data = build_data(vec![bits(&v)], EncodingFormat::Base64);
    assert_eq!(data.len(), 1);
    match &data[0].embedding {
        EmbeddingValue::Base64(s) => {
            let bytes = base64::engine::general_purpose::STANDARD
                .decode(s)
                .expect("valid base64");
            assert_eq!(floats(&bytes), v);
        }
        other => panic!("expected Base64, got {other:?}"),
    }
}

#[test]
fn test_cache_key_differs_per_input_type() {
    let doc_key = cache_model_key("e5", InputType::Document);
    let query_key = cache_model_key("e5", InputType::Query);
    assert_ne!(
        doc_key, query_key,
        "document and query must use separate cache namespaces"
    );
    assert_eq!(doc_key, "e5");
    assert!(query_key.contains(":query"));
}

#[test]
fn test_cache_key_document_is_model_name() {
    assert_eq!(
        cache_model_key("multilingual-e5-large", InputType::Document),
        "multilingual-e5-large"
    );
}

#[test]
fn test_token_sum_from_ids() {
    let token_ids: Vec<Vec<u32>> = vec![
        vec![101, 1234, 5678, 102], // 4 tokens
        vec![101, 9999, 102],       // 3 tokens
    ];
    let (total, max) = token_usage(&token_ids);
    assert_eq!(
        total, 7,
        "sum of token sequence lengths must equal total tokens"
    );
    assert_eq!(max, 4);
}

#[test]
fn longest_of_no_texts_is_one() {
    assert_eq!(token_usage(&vec![]), (0, 1));
    assert_eq!(token_usage(&vec![vec![]]), (0, 0));
}

#[test]
fn test_cache_stores_raw_vectors() {
    let mut cache = EmbeddingCache::new(10);
    let model = "e5";
    let text = "hello";
    let vec = bits(&[0.1_f32, 0.2_f32, 0.3_f32]);

    cache.insert(model, text, vec.clone());
    let retrieved = cache.get(model, text).expect("cache hit expected");
    assert_eq!(retrieved, vec);
}

#[test]
fn defaults_are_numbers_and_documents() {
    assert_eq!(EncodingFormat::default(), EncodingFormat::Float);
    assert_eq!(InputType::default(), InputType::Document);
    let mut log = MetricLog::new();
    let a = check_request(request(1), false, &serving(32, &["test-model"]), 0, &mut log).unwrap();
    assert_eq!(a.encoding_format, EncodingFormat::Float);
    assert_eq!(a.cache_key, "test-model");
}

#[test]
fn single_and_batch_inputs() {
    assert_eq!(EmbedInput::Single("single".to_string()).into_vec(), vec!["single".to_string()]);
    let batch = vec!["a".to_string(), "b".to_string(), "c".to_string()];
    assert_eq!(EmbedInput::Batch(batch).into_vec(), vec!["a", "b", "c"]);
}

#[test]
fn oversized_input_array_is_refused() {
    let mut log = MetricLog::new();
    let e = refused(check_request(request(100), false, &serving(32, &[]), 7, &mut log));
    assert_eq!(e.status, 400);
    assert_eq!(e.retry_after, None);
    assert_eq!(e.error_type, "invalid_request_error");
    assert_eq!(
        e.message,
        "input array contains 100 items, server cap is 32; split into multiple requests"
    );
    let limit = e.limit.expect("limit");
    assert_eq!((limit.code, limit.cap, limit.received), ("input_array_too_large", 32, 100));
    assert_eq!(
        names(log),
        vec![
            "embed_input_array_size[test-model]",
            "embed_input_array_rejected_total[test-model,size_cap] +1",
            "embed_requests_total[test-model,error] +1",
            "embed_request_duration_seconds[test-model]",
            "embed_texts_per_request[test-model]",
        ]
    );
}

#[test]
fn input_array_at_the_cap_is_no_size_error() {
    let mut log = MetricLog::new();
    let e = refused(check_request(request(32), false, &serving(32, &[]), 0, &mut log));
    assert!(e.limit.is_none());
    assert_eq!((e.status, e.message.as_str()), (400, "model 'test-model' not found"));
    assert_eq!(names(log)[0], "embed_input_array_size[test-model]");
}

#[test]
fn empty_input_is_refused() {
    let mut log = MetricLog::new();
    let e = refused(check_request(request(0), false, &serving(32, &["test-model"]), 0, &mut log));
    assert_eq!((e.status, e.message.as_str()), (400, "input must not be empty"));
    assert_eq!(names(log).len(), 3);
}

#[test]
fn draining_server_takes_no_request() {
    let mut log = MetricLog::new();
    let e = refused(check_request(request(1), true, &serving(32, &["test-model"]), 0, &mut log));
    assert_eq!((e.status, e.retry_after, e.error_type), (503, Some(5), "rate_limited"));
    assert_eq!(e.message, "server shutting down");
    assert!(names(log).is_empty());
}

#[test]
fn named_model_and_query_type_are_kept() {
    let mut log = MetricLog::new();
    let mut req = request(2);
    req.model = Some("e5".to_string());
    req.input_type = Some(InputType::Query);
    req.encoding_format = Some(EncodingFormat::Base64);
    let a = check_request(req, false, &serving(32, &["jina", "e5"]), 0, &mut log).unwrap();
    assert_eq!((a.model.as_str(), a.cache_key.as_str()), ("e5", "e5:query"));
    assert_eq!(a.texts, vec!["text 0", "text 1"]);
    assert_eq!(a.encoding_format, EncodingFormat::Base64);
}

#[test]
fn request_is_embedded_once_and_then_cached() {
    let mut cache = EmbeddingCache::new(10);
    let mut log = MetricLog::new();
    let a = accepted(&["x", "y", "x"]);
    let (cached, pending) = look_up(&a, &cache, &mut log);
    assert!(!pending.is_empty());
    assert_eq!(pending.texts(), vec!["x", "y"]);
    let made = vec![bits(&[1.0]), bits(&[2.0])];
    let vectors = complete(&a, cached, &pending, made, &mut cache, 0, &mut log).unwrap();
    assert_eq!(vectors, vec![bits(&[1.0]), bits(&[2.0]), bits(&[1.0])]);
    let r = respond(a, vectors, 5, 9, &mut log);
    assert_eq!((r.object, r.model.as_str()), ("list", "e5"));
    assert_eq!((r.usage.prompt_tokens, r.usage.total_tokens), (5, 5));
    assert_eq!(r.data[2].embedding, EmbeddingValue::Vector(bits(&[1.0])));
    assert_eq!((r.data[2].index, r.data[2].object), (2, "embedding"));
    assert_eq!(
        names(log),
        vec![
            "embed_cache_hit_total[e5] +0",
            "embed_cache_miss_total[e5] +3",
            "embed_cache_size[]",
            "embed_requests_total[e5,ok] +1",
            "embed_request_duration_seconds[e5]",
            "embed_texts_per_request[e5]",
        ]
    );

    let mut log = MetricLog::new();
    let again = accepted(&["x", "y", "x"]);
    let (cached, pending) = look_up(&again, &cache, &mut log);
    assert!(pending.is_empty());
    let r = respond_from_cache(again, cached, 1, &mut log);
    assert_eq!((r.usage.prompt_tokens, r.usage.total_tokens), (0, 0));
    assert_eq!(r.data[1].embedding, EmbeddingValue::Vector(bits(&[2.0])));
    assert_eq!(names(log)[0], "embed_cache_hit_total[e5] +3");
}

#[test]
fn cached_positions_keep_their_vectors() {
    let mut cache = EmbeddingCache::new(10);
    cache.insert("e5", "b", bits(&[7.0]));
    let mut log = MetricLog::new();
    let a = accepted(&["a", "b", "a"]);
    let (cached, pending) = look_up(&a, &cache, &mut log);
    let made = vec![bits(&[3.0])];
    let vectors = complete(&a, cached, &pending, made, &mut cache, 0, &mut log).unwrap();
    assert_eq!(vectors, vec![bits(&[3.0]), bits(&[7.0]), bits(&[3.0])]);
}

#[test]
fn wrong_number_of_vectors_is_refused_and_nothing_is_cached() {
    let mut cache = EmbeddingCache::new(10);
    let mut log = MetricLog::new();
    let a = accepted(&["a", "b"]);
    let (cached, pending) = look_up(&a, &cache, &mut log);
    let e = complete(&a, cached, &pending, vec![bits(&[1.0])], &mut cache, 0, &mut log)
        .expect_err("one vector for two texts");
    assert_eq!(
        (e.status, e.error_type, e.message.as_str()),
        (500, "server_error", "internal error: vector count mismatch")
    );
    assert_eq!(cache.get("e5", "a"), None);
}

#[test]
fn tokenizer_failures_are_server_errors() {
    let a = accepted(&["a"]);
    let mut log = MetricLog::new();
    let e = refuse_untokenized(&a, TokenizeFailure::Failed("bad bytes".into()), 0, &mut log);
    assert_eq!((e.status, e.message.as_str()), (500, "bad bytes"));
    let e = refuse_untokenized(&a, TokenizeFailure::Panicked("task 3".into()), 0, &mut log);
    assert_eq!(e.message, "tokenize task panicked: task 3");
    assert_eq!(names(log)[0], "embed_tokenize_fallback_total[] +1");
}

#[test]
fn inference_outcomes() {
    let a = accepted(&["a"]);
    let v = vec![bits(&[1.0])];
    let refuse = |o: InferenceOutcome| {
        let mut log = MetricLog::new();
        let e = accept_vectors(&a, o, 1, 2, &mut log).expect_err("refused");
        assert_eq!(names(log)[0], "embed_requests_total[e5,error] +1");
        (e.status, e.retry_after, e.message)
    };
    assert_eq!(
        refuse(InferenceOutcome::Worker(Ok(WorkerResponse::Failed {
            request_id: 1,
            message: "secret".into()
        }))),
        (500, None, "inference failed".to_string())
    );
    assert_eq!(
        refuse(InferenceOutcome::Worker(Ok(WorkerResponse::Rerank(RerankResponseOk {
            request_id: 1,
            scores: vec![]
        })))),
        (500, None, "inference failed: unexpected response kind".to_string())
    );
    assert_eq!(
        refuse(InferenceOutcome::Worker(Err("io".into()))),
        (500, None, "inference failed".to_string())
    );
    assert_eq!(
        refuse(InferenceOutcome::Batched(Err(BatchError::QueueFull(QueueFullError {
            batcher_name: "e5".into()
        })))),
        (429, Some(1), "batcher 'e5' queue is full".to_string())
    );
    assert_eq!(
        refuse(InferenceOutcome::Batched(Err(BatchError::Inference("model died".into())))),
        (500, None, "model died".to_string())
    );
    assert_eq!(
        refuse(InferenceOutcome::Batched(Err(BatchError::Shutdown))),
        (503, None, "batcher shut down".to_string())
    );
    assert_eq!(
        refuse(InferenceOutcome::Direct(Ok(Err("shape".into())))),
        (500, None, "shape".to_string())
    );
    assert_eq!(
        refuse(InferenceOutcome::Direct(Err("panic".into()))),
        (500, None, "spawn: panic".to_string())
    );

    let mut log = MetricLog::new();
    let ok = InferenceOutcome::Worker(Ok(WorkerResponse::Embed(EmbedResponseOk {
        request_id: 1,
        vectors: v.clone(),
        dims: 1,
    })));
    assert_eq!(accept_vectors(&a, ok, 1, 2, &mut log).unwrap(), v);
    assert_eq!(
        names(log),
        vec!["embed_inference_duration_seconds[e5]", "embed_batch_size[e5]"]
    );
    let mut log = MetricLog::new();
    let ok = InferenceOutcome::Batched(Ok(v.clone()));
    assert_eq!(accept_vectors(&a, ok, 1, 2, &mut log).unwrap(), v);
    assert!(names(log).is_empty(), "the batcher has recorded the inference");
    let mut log = MetricLog::new();
    let ok = InferenceOutcome::Direct(Ok(Ok(v.clone())));
    assert_eq!(accept_vectors(&a, ok, 1, 2, &mut log).unwrap(), v);
    assert_eq!(names(log).len(), 2);
}
