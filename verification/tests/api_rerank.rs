use embed_server::api::TokenizeFailure;
use embed_server::api_rerank::{
    apply_normalize, build_sorted_results, check_rerank, dispatch_inference, documents_at,
    find_missing, merge_tokens, note_tokenized, opaque_request_id, rank, refuse_unscored,
    refuse_untokenized_pairs, resolve_reranker_name, unwrap_scalar_batch, InferenceError,
    NormalizeMode, RerankDocument, RerankJob, RerankRequest, ScoreOutcome,
};
use embed_server::batcher::{BatchError, QueueFullError};
use embed_server::metrics::{Change, MetricLog};
use embed_server::reply::Refusal;

fn bits(v: &[f32]) -> Vec<u32> {
    v.iter().map(|f| f.to_bits()).collect()
}

fn floats(v: &[u32]) -> Vec<f32> {
    v.iter().map(|b| f32::from_bits(*b)).collect()
}

fn squash(s: u32) -> u32 {
    let x = f32::from_bits(s).clamp(-50.0, 50.0);
    (1.0 / (1.0 + (-x).exp())).to_bits()
}

fn names(log: MetricLog) -> Vec<String> {
    log.into_updates()
        .iter()
        .map(|u| {
            let labels: Vec<String> = u.labels.iter().map(|(_, v)| v.clone()).collect();
            let step = match u.change {
                Change::CounterIncrement(n) => format!(" +{n}"),
                Change::GaugeIncrement(n) => format!(" up {n}"),
                Change::GaugeDecrement(n) => format!(" down {n}"),
                _ => String::new(),
            };
            format!("{}[{}]{}", u.name, labels.join(","), step)
        })
        .collect()
}

fn request(n: usize) -> RerankRequest {
    RerankRequest {
        model: None,
        query: "test query".to_string(),
        documents: (0..n).map(|i| RerankDocument::Text(format!("doc {i}"))).collect(),
        top_n: None,
        return_documents: false,
        normalize: None,
    }
}

fn strings(v: &[&str]) -> Vec<String> {
    v.iter().map(|s| s.to_string()).collect()
}

fn job(n: usize) -> RerankJob {
    let mut log = MetricLog::new();
    check_rerank(request(n), true, false, &strings(&["gte"]), 32, 0, &mut log).unwrap()
}

fn refused(r: Result<RerankJob, Refusal>) -> Refusal {
    match r {
        Ok(_) => panic!("the request was accepted"),
        Err(e) => e,
    }
}

#[test]
fn build_sorted_results_echoes_documents_when_requested() {
    let scores = bits(&[0.5_f32, 1.0]);
    let docs = vec!["first".to_string(), "second".to_string()];
    let results = build_sorted_results(&scores, None, Some(&docs));
    assert_eq!(results.len(), 2);
    // Top result is index 1 ("second", score 1.0).
    assert_eq!(results[0].index, 1);
    assert_eq!(
        results[0].document.as_ref().map(|d| d.text.as_str()),
        Some("second"),
    );
    assert_eq!(results[1].index, 0);
    assert_eq!(
        results[1].document.as_ref().map(|d| d.text.as_str()),
        Some("first"),
    );

    // None case: no echo, all `document` fields stay None.
    let results = build_sorted_results(&scores, None, None);
    assert!(results.iter().all(|r| r.document.is_none()));
}

#[test]
fn sort_and_truncate_picks_top_n_desc() {
    let scores = bits(&[1.0f32, 5.0, 3.0, 2.0]);
    let results = build_sorted_results(&scores, Some(2), None);
    assert_eq!(results.len(), 2);
    assert_eq!(results[0].index, 1); // score 5.0
    assert_eq!(f32::from_bits(results[0].relevance_score), 5.0);
    assert_eq!(results[1].index, 2); // score 3.0
    assert_eq!(f32::from_bits(results[1].relevance_score), 3.0);
}

#[test]
fn sort_without_top_n_returns_all_desc() {
    let scores = bits(&[0.1f32, 0.9, 0.5]);
    let results = build_sorted_results(&scores, None, None);
    assert_eq!(results.len(), 3);
    assert_eq!(results[0].index, 1); // 0.9
    assert_eq!(results[1].index, 2); // 0.5
    assert_eq!(results[2].index, 0); // 0.1
}

#[test]
fn sort_with_top_n_zero_returns_empty() {
    let scores = bits(&[1.0f32, 2.0, 3.0]);
    assert!(build_sorted_results(&scores, Some(0), None).is_empty());
}

#[test]
fn sort_with_top_n_greater_than_len_caps_at_len() {
    let scores = bits(&[1.0f32, 2.0]);
    let results = build_sorted_results(&scores, Some(10), None);
    assert_eq!(results.len(), 2);
}

#[test]
fn order_is_that_of_total_cmp() {
    let mut values: Vec<f32> = vec![
        f32::NAN,
        -f32::NAN,
        f32::INFINITY,
        f32::NEG_INFINITY,
        0.0,
        -0.0,
        1.5,
        -1.5,
        f32::MIN_POSITIVE,
        -f32::MIN_POSITIVE,
        1.5,
    ];
    let results = build_sorted_results(&bits(&values), None, None);
    let got: Vec<u32> = results.iter().map(|r| r.relevance_score).collect();
    values.sort_by(|a, b| b.total_cmp(a));
    assert_eq!(got, bits(&values));
    // Equal scores keep the order of the request.
    let ties: Vec<usize> = results
        .iter()
        .filter(|r| r.relevance_score == 1.5f32.to_bits())
        .map(|r| r.index)
        .collect();
    assert_eq!(ties, vec![6, 10]);
}

#[test]
fn apply_normalize_none_is_identity() {
    let scores = bits(&[-15.0, -1.0, 0.0, 1.0, 15.0]);
    let after = apply_normalize(&scores, NormalizeMode::Raw, &squash);
    assert_eq!(floats(&after), vec![-15.0, -1.0, 0.0, 1.0, 15.0]);
}

#[test]
fn apply_normalize_sigmoid_known_inputs() {
    let scores = bits(&[-1.0, 0.0, 1.0]);
    let scores = floats(&apply_normalize(&scores, NormalizeMode::Sigmoid, &squash));
    assert!((scores[0] - 0.268_9).abs() < 1e-3);
    assert!((scores[1] - 0.5).abs() < 1e-6);
    assert!((scores[2] - 0.731_1).abs() < 1e-3);
}

#[test]
fn apply_normalize_sigmoid_extremes_no_inf() {
    let scores = bits(&[-100.0, 100.0]);
    let scores = floats(&apply_normalize(&scores, NormalizeMode::Sigmoid, &squash));
    assert!(scores[0].is_finite());
    assert!(scores[1].is_finite());
    assert!(scores[0] >= 0.0 && scores[0] <= 1.0);
    assert!(scores[1] >= 0.0 && scores[1] <= 1.0);
}

#[test]
fn apply_normalize_sigmoid_preserves_sort_order() {
    let original = vec![-3.0, -1.0, 0.5, 2.0, 5.0];
    let sigmoid = bits(&original);
    let sigmoid = floats(&apply_normalize(&sigmoid, NormalizeMode::Sigmoid, &squash));
    for i in 0..original.len() {
        for j in (i + 1)..original.len() {
            if original[i] < original[j] {
                assert!(sigmoid[i] < sigmoid[j], "sort order broken at i={i}, j={j}");
            }
        }
    }
}

#[test]
fn normalize_mode_default_is_sigmoid() {
    assert_eq!(NormalizeMode::default(), NormalizeMode::Sigmoid);

    let scores = bits(&[0.0_f32]);
    let scores = floats(&apply_normalize(&scores, NormalizeMode::default(), &squash));
    assert!(
        (scores[0] - 0.5).abs() < 1e-6,
        "default must be sigmoid (sigmoid(0)=0.5), got {}",
        scores[0]
    );
    assert_eq!(job(1).normalize, NormalizeMode::Sigmoid);
}

#[test]
fn oversized_documents_array_is_refused() {
    let mut log = MetricLog::new();
    let e = refused(check_rerank(request(100), true, false, &vec![], 32, 0, &mut log));
    assert_eq!((e.status, e.error_type), (400, "invalid_request_error"));
    assert_eq!(
        e.message,
        "documents array contains 100 items, server cap is 32; split into multiple requests"
    );
    let limit = e.limit.expect("limit");
    assert_eq!((limit.code, limit.cap, limit.received), ("documents_too_many", 32, 100));
    assert_eq!(
        names(log),
        vec![
            "embed_rerank_input_docs_size[unknown]",
            "embed_rerank_input_docs_rejected_total[unknown,size_cap] +1",
            "embed_rerank_requests_total[unknown,bad_request] +1",
            "embed_rerank_request_duration_seconds[unknown]",
            "embed_rerank_pairs_per_request[unknown]",
        ]
    );
}

#[test]
fn documents_array_at_the_cap_is_no_size_error() {
    let mut log = MetricLog::new();
    let e = refused(check_rerank(request(32), true, false, &vec![], 32, 0, &mut log));
    assert!(e.limit.is_none());
    assert_eq!(e.message, "no reranker models configured");
    assert_eq!(names(log)[0], "embed_rerank_input_docs_size[unknown]");
}

#[test]
fn refusals_before_the_model_is_known() {
    let cases: Vec<(RerankRequest, bool, bool, u16, Option<u32>, &str, &str)> = vec![
        (request(1), false, true, 429, Some(1), "rerank concurrency cap reached", "rate_limited"),
        (request(1), true, true, 503, Some(5), "server shutting down", "shutdown"),
        (
            RerankRequest { query: " \t".to_string(), ..request(1) },
            true,
            false,
            400,
            None,
            "query must not be empty",
            "bad_request",
        ),
        (request(0), true, false, 400, None, "documents must not be empty", "bad_request"),
    ];
    for (req, permitted, draining, status, retry, message, label) in cases {
        let mut log = MetricLog::new();
        let e = refused(check_rerank(
            req,
            permitted,
            draining,
            &strings(&["gte"]),
            32,
            0,
            &mut log,
        ));
        assert_eq!((e.status, e.retry_after, e.message.as_str()), (status, retry, message));
        let expected = format!("embed_rerank_requests_total[unknown,{label}] +1");
        assert_eq!(names(log)[0], expected);
    }
}

#[test]
fn reranker_names_resolve() {
    let one = strings(&["gte"]);
    let two = strings(&["gte", "bge"]);
    assert_eq!(resolve_reranker_name(&one, None), Ok("gte".to_string()));
    assert_eq!(resolve_reranker_name(&two, Some("bge".into())), Ok("bge".to_string()));
    assert_eq!(
        resolve_reranker_name(&two, Some("x".into())),
        Err("reranker 'x' not found".to_string())
    );
    assert_eq!(
        resolve_reranker_name(&vec![], None),
        Err("no reranker models configured".to_string())
    );
    assert_eq!(
        resolve_reranker_name(&two, None),
        Err("`model` is required when multiple rerankers are configured".to_string())
    );
}

#[test]
fn documents_may_be_texts_or_objects() {
    let mut req = request(0);
    req.documents = vec![
        RerankDocument::Text("plain".to_string()),
        RerankDocument::Object { text: "obj".to_string() },
    ];
    let mut log = MetricLog::new();
    let job = check_rerank(req, true, false, &strings(&["gte"]), 2, 0, &mut log).unwrap();
    assert_eq!(job.documents, vec!["plain", "obj"]);
    assert_eq!(
        names(log),
        vec!["embed_rerank_input_docs_size[unknown]", "embed_rerank_in_flight[gte] up 1"]
    );
}

#[test]
fn known_pairs_are_not_tokenized_again() {
    let slots = vec![None, Some(vec![7]), None, Some(vec![8, 9])];
    let mut log = MetricLog::new();
    let missing = find_missing("gte", &slots, &mut log);
    assert_eq!(missing, vec![0, 2]);
    assert_eq!(
        names(log),
        vec!["embed_token_cache_total[gte,hit] +2", "embed_token_cache_total[gte,miss] +2"]
    );
    assert_eq!(documents_at(&strings(&["a", "b", "c", "d"]), &missing), vec!["a", "c"]);
    let merged = merge_tokens(&slots, &missing, &vec![vec![1], vec![2, 3]]);
    assert_eq!(merged, vec![vec![1], vec![7], vec![2, 3], vec![8, 9]]);
}

#[test]
fn untokenized_pairs_are_a_server_error() {
    let mut log = MetricLog::new();
    note_tokenized(&job(1), 5, &mut log);
    let e = refuse_untokenized_pairs(
        job(1),
        TokenizeFailure::Failed("bad bytes".into()),
        0,
        &mut log,
    );
    assert_eq!((e.status, e.message.as_str()), (500, "bad bytes"));
    let seen = names(log);
    assert_eq!(seen[0], "embed_rerank_tokenizer_duration_seconds[gte]");
    assert_eq!(seen[1], "embed_rerank_requests_total[gte,server_error] +1");
    assert_eq!(seen[4], "embed_rerank_in_flight[gte] down 1");
}

#[test]
fn scalar_rows_are_unwrapped() {
    assert_eq!(unwrap_scalar_batch(&vec![vec![1], vec![2]], 2), Ok(vec![1, 2]));
    assert_eq!(
        unwrap_scalar_batch(&vec![vec![1]], 2),
        Err("batcher returned 1 rows, expected 2".to_string())
    );
    assert_eq!(
        unwrap_scalar_batch(&vec![vec![1], vec![2, 3], vec![]], 3),
        Err("rerank row 1: expected 1-element score vec, got 2".to_string())
    );
}

#[test]
fn inference_errors_are_told_apart() {
    let cases: Vec<(ScoreOutcome, u16, &str, &str)> = vec![
        (
            ScoreOutcome::Batched(Err(BatchError::QueueFull(QueueFullError {
                batcher_name: "gte".into(),
            }))),
            429,
            "batcher 'gte' queue is full",
            "rate_limited",
        ),
        (
            ScoreOutcome::Batched(Err(BatchError::Inference("died".into()))),
            500,
            "died",
            "server_error",
        ),
        (ScoreOutcome::Batched(Err(BatchError::Shutdown)), 503, "batcher shut down", "shutdown"),
        (
            ScoreOutcome::Batched(Ok(vec![])),
            500,
            "batcher returned 0 rows, expected 1",
            "server_error",
        ),
        (ScoreOutcome::Direct(Ok(Err("shape".into()))), 500, "shape", "server_error"),
        (
            ScoreOutcome::Direct(Err("task".into())),
            500,
            "score task panicked: task",
            "server_error",
        ),
    ];
    for (outcome, status, message, label) in cases {
        let error: InferenceError = dispatch_inference(outcome, 1).expect_err("no scores");
        let mut log = MetricLog::new();
        let e = refuse_unscored(job(1), error, 0, &mut log);
        assert_eq!((e.status, e.message.as_str()), (status, message));
        let expected = format!("embed_rerank_requests_total[gte,{label}] +1");
        assert_eq!(names(log)[0], expected);
    }
    let outcome = ScoreOutcome::Batched(Ok(vec![vec![4]]));
    assert_eq!(dispatch_inference(outcome, 1).unwrap(), vec![4]);
    let outcome = ScoreOutcome::Direct(Ok(Ok(vec![5])));
    assert_eq!(dispatch_inference(outcome, 1).unwrap(), vec![5]);
}

#[test]
fn ranking_answers_the_request() {
    let mut job = job(3);
    job.top_n = Some(2);
    job.return_documents = true;
    let mut log = MetricLog::new();
    let r = rank(job, bits(&[-3.0, 4.0, 0.0]), &squash, 255, 0, &mut log).unwrap();
    assert_eq!((r.id.as_str(), r.model.as_str()), ("rrk_ff", "gte"));
    let got: Vec<usize> = r.results.iter().map(|x| x.index).collect();
    assert_eq!(got, vec![1, 2]);
    assert_eq!(r.results[1].relevance_score, 0.5f32.to_bits());
    assert_eq!(r.results[0].document.as_ref().unwrap().text, "doc 1");
    let seen = names(log);
    assert_eq!(seen[0], "embed_rerank_requests_total[gte,success] +1");
    assert_eq!(seen[3], "embed_rerank_in_flight[gte] down 1");
}

#[test]
fn wrong_number_of_scores_is_refused() {
    let mut log = MetricLog::new();
    let e = rank(job(2), bits(&[1.0]), &squash, 0, 0, &mut log).expect_err("one score for two");
    assert_eq!(
        (e.status, e.message.as_str()),
        (500, "internal error: score count mismatch")
    );
}

#[test]
fn request_ids_are_hexadecimal() {
    assert_eq!(opaque_request_id(0), "rrk_0");
    assert_eq!(opaque_request_id(0x1234_abcd_ef01_2345), "rrk_1234abcdef012345");
}
