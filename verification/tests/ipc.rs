use embed_server::ipc::client::{accept_response, WorkerClient};
use embed_server::ipc::frame::{read_frame_len, write_frame, MAX_FRAME_BYTES};
use embed_server::ipc::protocol::{
    EmbedRequest, EmbedResponseOk, RerankRequest, RerankResponseOk, SpladeRequest,
    SpladeResponseOk, WorkerRequest, WorkerResponse,
};

fn strings(v: &[&str]) -> Vec<String> {
    v.iter().map(|s| s.to_string()).collect()
}

#[test]
fn request_id_accessors() {
    let r = WorkerRequest::Embed(EmbedRequest {
        request_id: 99,
        model: "x".into(),
        texts: vec![],
        max_seq_len: 0,
    });
    assert_eq!(r.request_id(), 99);
    assert_eq!(r.kind(), "embed");
    let resp = WorkerResponse::Rerank(RerankResponseOk {
        request_id: 99,
        scores: vec![],
    });
    assert_eq!(resp.request_id(), 99);
}

#[test]
fn response_kind_all_variants() {
    assert_eq!(
        WorkerResponse::Embed(EmbedResponseOk {
            request_id: 1,
            vectors: vec![],
            dims: 0
        })
        .kind(),
        "embed"
    );
    assert_eq!(
        WorkerResponse::Rerank(RerankResponseOk {
            request_id: 1,
            scores: vec![]
        })
        .kind(),
        "rerank"
    );
    assert_eq!(
        WorkerResponse::Splade(SpladeResponseOk {
            request_id: 1,
            sparse: vec![]
        })
        .kind(),
        "splade"
    );
    assert_eq!(
        WorkerResponse::Failed {
            request_id: 1,
            message: "boom".into()
        }
        .kind(),
        "err"
    );
}

#[test]
fn frames_carry_their_length() {
    let bytes = write_frame(&vec![7, 8, 9]).expect("small frame");
    assert_eq!(bytes, vec![3, 0, 0, 0, 7, 8, 9]);
    let header = [bytes[0], bytes[1], bytes[2], bytes[3]];
    assert_eq!(read_frame_len(&header), Ok(3));
    let long = write_frame(&vec![0u8; 70000]).expect("frame");
    assert_eq!(long[..4], [0x70, 0x11, 0x01, 0x00]);
    assert_eq!(long.len(), 70004);
}

#[test]
fn oversize_headers_are_refused() {
    let over = (MAX_FRAME_BYTES + 1).to_le_bytes();
    let e = read_frame_len(&over).expect_err("should reject oversized frame");
    assert_eq!(e.message(), "frame too large");
    assert_eq!(read_frame_len(&MAX_FRAME_BYTES.to_le_bytes()), Ok(MAX_FRAME_BYTES));
    assert!(read_frame_len(&[255, 255, 255, 255]).is_err());
}

#[test]
fn connect_rejects_zero_requests_at_once() {
    let e = WorkerClient::connect("/tmp/does-not-matter", 0).expect_err("must error");
    assert_eq!(e, "WorkerClient concurrency must be >= 1");
    let c = WorkerClient::connect("/tmp/s", 3).expect("client");
    assert_eq!((c.socket_path(), c.conns()), ("/tmp/s", 3));
}

#[test]
fn requests_are_numbered() {
    let mut c = WorkerClient::connect("/tmp/s", 1).expect("client");
    let a = c.dispatch_embed("e5".into(), strings(&["t"]), 8);
    assert_eq!(
        a,
        WorkerRequest::Embed(EmbedRequest {
            request_id: 0,
            model: "e5".into(),
            texts: strings(&["t"]),
            max_seq_len: 8
        })
    );
    let b = c.dispatch_rerank("gte".into(), "q".into(), strings(&["d"]), 9);
    assert_eq!(
        b,
        WorkerRequest::Rerank(RerankRequest {
            request_id: 1,
            model: "gte".into(),
            query: "q".into(),
            documents: strings(&["d"]),
            max_seq_len: 9
        })
    );
    let s = c.dispatch_splade("sp".into(), strings(&["t"]), 0, 256, 5);
    assert_eq!(
        s,
        WorkerRequest::Splade(SpladeRequest {
            request_id: 2,
            model: "sp".into(),
            texts: strings(&["t"]),
            max_seq_len: 0,
            top_k: 256,
            min_weight: 5
        })
    );
    assert_eq!((a.kind(), b.kind(), s.kind()), ("embed", "rerank", "splade"));
}

#[test]
fn responses_must_answer_their_requests() {
    let mut c = WorkerClient::connect("/tmp/s", 1).expect("client");
    let _ = c.dispatch_embed("e5".into(), strings(&["first"]), 8);
    let req = c.dispatch_embed("e5".into(), strings(&["t", "u"]), 8);
    let resp = |request_id: u64, n: usize| {
        WorkerResponse::Embed(EmbedResponseOk { request_id, vectors: vec![vec![1]; n], dims: 1 })
    };
    assert_eq!(accept_response(&req, resp(1, 2)), Ok(resp(1, 2)));
    assert_eq!(
        accept_response(&req, resp(0, 2)),
        Err("response id 0 != request id 1".to_string()),
        "a stale response"
    );
    assert_eq!(
        accept_response(&req, resp(1, 1)),
        Err("worker returned 1 vectors for 2 input texts".to_string())
    );
    let failed = WorkerResponse::Failed { request_id: 1, message: "boom".into() };
    assert_eq!(accept_response(&req, failed.clone()), Ok(failed));

    let req = c.dispatch_rerank("gte".into(), "q".into(), strings(&["d"]), 9);
    let scores = WorkerResponse::Rerank(RerankResponseOk { request_id: 2, scores: vec![] });
    assert_eq!(
        accept_response(&req, scores),
        Err("worker returned 0 scores for 1 documents".to_string())
    );
    let req = c.dispatch_splade("sp".into(), strings(&["t"]), 0, 256, 0);
    let sparse =
        WorkerResponse::Splade(SpladeResponseOk { request_id: 3, sparse: vec![vec![], vec![]] });
    assert_eq!(
        accept_response(&req, sparse),
        Err("worker returned 2 sparse vectors for 1 texts".to_string())
    );
}
