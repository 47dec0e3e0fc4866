use embed_server::api_splade::{
    answer_from_worker, check_splade, encode_each, is_above, resolve_splade_name, wanted_entries,
    DispatchFailure, EncodeOutcome, SparseEmbeddingsRequest, SpladeJob, DEFAULT_TOP_K,
};
use embed_server::ipc::protocol::{EmbedResponseOk, SpladeResponseOk, WorkerResponse};
use embed_server::metrics::MetricLog;

fn strings(v: &[&str]) -> Vec<String> {
    v.iter().map(|s| s.to_string()).collect()
}

fn pairs(v: &[(u32, f32)]) -> Vec<(u32, u32)> {
    v.iter().map(|(i, w)| (*i, w.to_bits())).collect()
}

fn request(input: &[&str]) -> SparseEmbeddingsRequest {
    SparseEmbeddingsRequest { model: None, input: strings(input), top_k: None, min_weight: None }
}

fn job(top_k: usize, min_weight: f32) -> SpladeJob {
    SpladeJob {
        model: "splade".to_string(),
        texts: strings(&["a", "b"]),
        top_k,
        min_weight: min_weight.to_bits(),
    }
}

#[test]
fn resolve_zero_splades_errors() {
    assert!(resolve_splade_name(&vec![], None).is_err());
    assert!(resolve_splade_name(&vec![], Some("anything".into())).is_err());
}

#[test]
fn splade_names_resolve() {
    let two = strings(&["s1", "s2"]);
    assert_eq!(
        resolve_splade_name(&vec![], None),
        Err("no splade models configured".to_string())
    );
    assert_eq!(resolve_splade_name(&strings(&["s1"]), None), Ok("s1".to_string()));
    assert_eq!(resolve_splade_name(&two, Some("s2".into())), Ok("s2".to_string()));
    assert_eq!(
        resolve_splade_name(&two, Some("s3".into())),
        Err("splade model 's3' not found".to_string())
    );
    assert_eq!(
        resolve_splade_name(&two, None),
        Err("`model` is required when multiple splade models are configured".to_string())
    );
}

#[test]
fn sparse_requests_are_checked() {
    let names = strings(&["splade"]);
    let e = check_splade(request(&["a"]), true, &names).expect_err("draining");
    assert_eq!((e.status, e.retry_after), (503, Some(5)));
    let e = check_splade(request(&[]), false, &names).expect_err("no text");
    assert_eq!((e.status, e.message.as_str()), (400, "input must not be empty"));
    let e = check_splade(request(&["a", " \n "]), false, &names).expect_err("blank text");
    assert_eq!(
        (e.status, e.message.as_str()),
        (400, "input texts must not be empty or whitespace-only")
    );
    let e = check_splade(request(&["a"]), false, &vec![]).expect_err("no model");
    assert_eq!((e.status, e.message.as_str()), (400, "no splade models configured"));
    let job = check_splade(request(&["a"]), false, &names).unwrap();
    assert_eq!((job.top_k, job.min_weight), (DEFAULT_TOP_K, 0.0f32.to_bits()));
    assert_eq!(DEFAULT_TOP_K, 256);
    let mut req = request(&["a"]);
    req.top_k = Some(50);
    req.min_weight = Some(0.1f32.to_bits());
    let job = check_splade(req, false, &names).unwrap();
    assert_eq!((job.top_k, job.min_weight), (50, 0.1f32.to_bits()));
}

#[test]
fn comparison_is_that_of_floats() {
    let values = [
        f32::NAN,
        -f32::NAN,
        f32::INFINITY,
        f32::NEG_INFINITY,
        0.0,
        -0.0,
        1.0,
        -1.0,
        0.5,
        f32::MIN_POSITIVE,
        f32::MAX,
        f32::MIN,
    ];
    for a in values {
        for b in values {
            assert_eq!(is_above(a.to_bits(), b.to_bits()), a > b, "{a} > {b}");
        }
    }
}

#[test]
fn entries_are_filtered_and_cut() {
    let all = pairs(&[(1, 3.0), (2, 0.1), (3, 2.0), (4, 0.0), (5, 1.0)]);
    assert_eq!(
        wanted_entries(&all, 2, 0.5f32.to_bits()),
        pairs(&[(1, 3.0), (3, 2.0)])
    );
    assert_eq!(wanted_entries(&all, 10, 0).len(), 4, "zeros are dropped");
    assert!(wanted_entries(&all, 0, 0).is_empty());
}

#[test]
fn worker_vectors_are_split_into_tokens_and_weights() {
    let mut log = MetricLog::new();
    let resp = WorkerResponse::Splade(SpladeResponseOk {
        request_id: 1,
        sparse: vec![pairs(&[(12, 4.25), (345, 0.5)]), vec![]],
    });
    let r = answer_from_worker(job(10, 1.0), Ok(resp), &mut log).unwrap();
    assert_eq!(r.model, "splade");
    assert_eq!(r.data.len(), 2);
    assert_eq!((r.data[0].index, &r.data[0].indices), (0, &vec![12]));
    assert_eq!(r.data[0].values, vec![4.25f32.to_bits()]);
    assert_eq!((r.data[1].index, r.data[1].indices.len()), (1, 0));
    assert!(log.into_updates().is_empty());
}

#[test]
fn worker_failures_are_refusals() {
    let mut log = MetricLog::new();
    let failed = WorkerResponse::Failed { request_id: 1, message: "worker queue overflow".into() };
    let e = answer_from_worker(job(1, 0.0), Ok(failed), &mut log).expect_err("failed");
    assert_eq!((e.status, e.message.as_str()), (500, "splade failed"));
    let updates = log.into_updates();
    assert_eq!(updates.len(), 1);
    assert_eq!(updates[0].name, "embed_inference_failures_total");
    assert_eq!(updates[0].labels[0].1, "splade");

    let mut log = MetricLog::new();
    let other = WorkerResponse::Embed(EmbedResponseOk { request_id: 1, vectors: vec![], dims: 0 });
    let e = answer_from_worker(job(1, 0.0), Ok(other), &mut log).expect_err("other kind");
    assert_eq!(e.message, "splade failed: unexpected response kind");
    let e = answer_from_worker(job(1, 0.0), Err(DispatchFailure::Timeout), &mut log)
        .expect_err("timeout");
    assert_eq!(
        (e.status, e.retry_after, e.error_type, e.message.as_str()),
        (503, Some(5), "worker_unavailable", "splade failed: worker respawning")
    );
    let e = answer_from_worker(job(1, 0.0), Err(DispatchFailure::Other), &mut log)
        .expect_err("unreachable");
    assert_eq!((e.status, e.message.as_str()), (500, "splade failed"));
    assert!(log.into_updates().is_empty());
}

#[test]
fn texts_are_encoded_one_by_one() {
    let encode = |t: &String| -> EncodeOutcome { Ok(Ok(pairs(&[(t.len() as u32, 1.0)]))) };
    let r = encode_each(job(1, 0.0), &encode).unwrap();
    assert_eq!(r.data.len(), 2);
    assert_eq!((r.data[1].index, &r.data[1].indices), (1, &vec![1]));

    let fail = |t: &String| -> EncodeOutcome {
        if t == "b" {
            Ok(Err("bad text".to_string()))
        } else {
            Ok(Ok(vec![]))
        }
    };
    let e = encode_each(job(1, 0.0), &fail).expect_err("second text");
    assert_eq!((e.status, e.message.as_str()), (500, "bad text"));
    let panic = |_: &String| -> EncodeOutcome { Err("task".to_string()) };
    let e = encode_each(job(1, 0.0), &panic).expect_err("task");
    assert_eq!(e.message, "splade task panicked: task");
}
