use todo_or_die::codec::{decode, encode, DecodeOutcome};
use todo_or_die::response::CachedResponse;

fn sample_response(expires_at: u64) -> CachedResponse {
    CachedResponse {
        status: 200,
        headers: vec![
            (b"content-type".to_vec(), b"application/json".to_vec()),
            (b"x-raw".to_vec(), vec![0u8, 255u8, 7u8]),
        ],
        body: b"{\"state\":\"open\"}".to_vec(),
        expires_at,
    }
}

fn assert_equal_content(a: &CachedResponse, b: &CachedResponse) {
    assert_eq!(a.status, b.status);
    assert_eq!(a.headers, b.headers);
    assert_eq!(a.body, b.body);
}

#[test]
fn round_trip_within_ttl_is_fresh() {
    let resp = sample_response(0);
    let blob = encode(&resp, 100, 60);
    match decode(&blob, 120) {
        DecodeOutcome::Fresh(back) => {
            assert_equal_content(&back, &resp);
            assert_eq!(back.expires_at, 160);
        }
        _ => panic!("expected a fresh response"),
    }
}

#[test]
fn round_trip_at_expiry_boundary_is_fresh() {
    let resp = sample_response(0);
    let blob = encode(&resp, 100, 60);
    match decode(&blob, 160) {
        DecodeOutcome::Fresh(back) => assert_equal_content(&back, &resp),
        _ => panic!("expected a fresh response at the boundary"),
    }
}

#[test]
fn decode_past_expiry_is_expired() {
    let resp = sample_response(0);
    let blob = encode(&resp, 100, 60);
    assert!(matches!(decode(&blob, 161), DecodeOutcome::Expired));
    assert!(matches!(decode(&blob, u64::MAX), DecodeOutcome::Expired));
}

#[test]
fn encode_saturates_expiry() {
    let resp = sample_response(0);
    let blob = encode(&resp, u64::MAX - 10, 60);
    match decode(&blob, u64::MAX) {
        DecodeOutcome::Fresh(back) => assert_eq!(back.expires_at, u64::MAX),
        _ => panic!("expected a fresh response with saturated expiry"),
    }
}

#[test]
fn encode_exact_blob_layout() {
    let resp = CachedResponse {
        status: 200,
        headers: vec![(vec![97u8], vec![98u8])],
        body: vec![104u8, 105u8],
        expires_at: 0,
    };
    let blob = encode(&resp, 100, 60);
    let expected: Vec<u8> = vec![
        160, 0, 0, 0, 0, 0, 0, 0, // expiry 160
        200, 0, // status 200
        1, 0, 0, 0, 0, 0, 0, 0, // one header
        1, 0, 0, 0, 0, 0, 0, 0, 97, // name "a"
        1, 0, 0, 0, 0, 0, 0, 0, 98, // value "b"
        2, 0, 0, 0, 0, 0, 0, 0, 104, 105, // body "hi"
    ];
    assert_eq!(blob, expected);
}

#[test]
fn decode_empty_is_corrupt() {
    assert!(matches!(decode(&Vec::new(), 0), DecodeOutcome::Corrupt));
}

#[test]
fn decode_short_bytes_is_corrupt() {
    let data = vec![1u8, 2, 3, 4, 5];
    assert!(matches!(decode(&data, 0), DecodeOutcome::Corrupt));
}

#[test]
fn decode_arbitrary_bytes_is_corrupt() {
    // a pseudo-random walk over byte values; none of these blobs conform
    let mut data: Vec<u8> = Vec::new();
    let mut x: u8 = 17;
    for _ in 0..257 {
        data.push(x);
        x = x.wrapping_mul(31).wrapping_add(7);
        assert!(matches!(decode(&data, 0), DecodeOutcome::Corrupt));
    }
}

#[test]
fn decode_truncated_blob_is_corrupt() {
    let resp = sample_response(0);
    let blob = encode(&resp, 100, 60);
    for cut in 0..blob.len() {
        let shorter = blob[..cut].to_vec();
        assert!(matches!(decode(&shorter, 120), DecodeOutcome::Corrupt));
    }
}

#[test]
fn decode_trailing_bytes_is_corrupt() {
    let resp = sample_response(0);
    let mut blob = encode(&resp, 100, 60);
    blob.push(0);
    assert!(matches!(decode(&blob, 120), DecodeOutcome::Corrupt));
}

#[test]
fn round_trip_empty_headers_and_body() {
    let resp = CachedResponse { status: 204, headers: Vec::new(), body: Vec::new(), expires_at: 0 };
    let blob = encode(&resp, 0, 1);
    match decode(&blob, 1) {
        DecodeOutcome::Fresh(back) => {
            assert_eq!(back.status, 204);
            assert!(back.headers.is_empty());
            assert!(back.body.is_empty());
        }
        _ => panic!("expected a fresh response"),
    }
}
