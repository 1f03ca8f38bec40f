use base64::Engine as _;
use labelprint::chunking::split_chunks;
use labelprint::upload::{ChunkResponse, UploadError, UploadSession, run_upload};
use labelprint::wire::print_query;

#[test]
fn chunks_of_200_bytes() {
    let data: Vec<u8> = (0..200).map(|i| i as u8).collect();
    let chunks = split_chunks(&data);
    assert_eq!(chunks.len(), 3);
    assert_eq!(chunks[0].offset, 0);
    assert_eq!(chunks[1].offset, 96);
    assert_eq!(chunks[2].offset, 192);
    assert_eq!(chunks[0].payload.len(), 96);
    assert_eq!(chunks[1].payload.len(), 96);
    assert_eq!(chunks[2].payload.len(), 8);
    let mut joined: Vec<u8> = Vec::new();
    for c in &chunks {
        joined.extend_from_slice(&c.payload);
    }
    assert_eq!(joined, data);
}

#[test]
fn chunks_edge_sizes() {
    let empty: Vec<u8> = Vec::new();
    assert_eq!(split_chunks(&empty).len(), 0);

    let exact: Vec<u8> = vec![7u8; 96];
    let chunks = split_chunks(&exact);
    assert_eq!(chunks.len(), 1);
    assert_eq!(chunks[0].payload.len(), 96);

    let one_over: Vec<u8> = vec![7u8; 97];
    let chunks = split_chunks(&one_over);
    assert_eq!(chunks.len(), 2);
    assert_eq!(chunks[0].payload.len(), 96);
    assert_eq!(chunks[1].payload.len(), 1);
}

#[test]
fn upload_body_is_json_envelope() {
    // One chunk of the three bytes "Man", whose standard base64 is "TWFu".
    let data: Vec<u8> = vec![77, 97, 110];
    let session = UploadSession::new(&data);
    let (offset, body) = session.next_request().expect("one chunk pending");
    assert_eq!(offset, 0);
    assert_eq!(body, b"{\"index\":0,\"data\":\"TWFu\"}".to_vec());
}

#[test]
fn upload_body_parses_as_json() {
    let data: Vec<u8> = (0..200).map(|i| (255 - i) as u8).collect();
    let mut session = UploadSession::new(&data);
    session.record_response(ChunkResponse::Accepted).unwrap();
    let (offset, body) = session.next_request().expect("second chunk pending");
    assert_eq!(offset, 96);
    let v: serde_json::Value = serde_json::from_slice(&body).expect("body is valid JSON");
    assert_eq!(v["index"], serde_json::Value::from(96u64));
    let b64 = v["data"].as_str().expect("data is a string");
    let decoded = base64::engine::general_purpose::STANDARD
        .decode(b64)
        .expect("data is valid base64");
    assert_eq!(decoded, data[96..192].to_vec());
}

#[test]
fn upload_aborts_on_first_rejection() {
    let data: Vec<u8> = (0..200).map(|i| i as u8).collect();
    let mut session = UploadSession::new(&data);

    let first = session.next_request().expect("first chunk pending");
    assert_eq!(first.0, 0);
    session.record_response(ChunkResponse::Accepted).unwrap();

    let second = session.next_request().expect("second chunk pending");
    assert_eq!(second.0, 96);
    let err = session.record_response(ChunkResponse::Rejected).unwrap_err();
    assert_eq!(err, UploadError::UploadFailed { index: 96 });

    assert!(session.next_request().is_none(), "no request after a failure");
    assert!(!session.is_complete());
}

#[test]
fn run_upload_counts_posts_and_aborts() {
    let data: Vec<u8> = (0..200).map(|i| i as u8).collect();

    let all_ok = vec![ChunkResponse::Accepted; 3];
    let (posts, result) = run_upload(&data, &all_ok);
    assert_eq!(posts, 3);
    assert_eq!(result, Ok(200));

    let reject_second = vec![
        ChunkResponse::Accepted,
        ChunkResponse::Rejected,
        ChunkResponse::Accepted,
    ];
    let (posts, result) = run_upload(&data, &reject_second);
    assert_eq!(posts, 2);
    assert_eq!(result, Err(UploadError::UploadFailed { index: 96 }));

    let unreachable_first = vec![
        ChunkResponse::Unreachable,
        ChunkResponse::Accepted,
        ChunkResponse::Accepted,
    ];
    let (posts, result) = run_upload(&data, &unreachable_first);
    assert_eq!(posts, 1);
    assert_eq!(result, Err(UploadError::TransportError));
}

#[test]
fn print_query_renders_length_in_decimal() {
    assert_eq!(print_query(192), b"/print?length=192".to_vec());
    assert_eq!(print_query(0), b"/print?length=0".to_vec());
    assert_eq!(print_query(2000), b"/print?length=2000".to_vec());
}
