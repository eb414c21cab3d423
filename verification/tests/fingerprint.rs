use todo_or_die::fingerprint::{fingerprint, OutboundRequest};

fn widget_request() -> OutboundRequest {
    OutboundRequest {
        uri: b"https://api.example.com/widget/7".to_vec(),
        headers: Vec::new(),
    }
}

#[test]
fn fingerprint_is_deterministic() {
    let a = fingerprint(&widget_request());
    let b = fingerprint(&widget_request());
    assert_eq!(a, b);
}

#[test]
fn fingerprint_exact_value() {
    // FNV-1a 64 of the canonical bytes, rendered as 16 hex digits
    let fp = fingerprint(&widget_request());
    assert_eq!(fp, b"80f20eb63aec9eb2".to_vec());
}

#[test]
fn fingerprint_exact_value_with_header() {
    let req = OutboundRequest {
        uri: b"https://api.example.com/widget/7".to_vec(),
        headers: vec![(b"accept".to_vec(), b"json".to_vec())],
    };
    assert_eq!(fingerprint(&req), b"c4785e91e2ee168b".to_vec());
}

#[test]
fn fingerprint_is_filesystem_safe() {
    let fp = fingerprint(&OutboundRequest {
        uri: b"https://crates.io/api/v1/crates/serde".to_vec(),
        headers: vec![(b"authorization".to_vec(), b"Bearer SECRET-REDACTED".to_vec())],
    });
    assert_eq!(fp.len(), 16);
    for b in fp {
        assert!(b.is_ascii_hexdigit() && !b.is_ascii_uppercase());
    }
}

#[test]
fn fingerprint_sensitive_to_uri_and_headers() {
    let base = fingerprint(&widget_request());
    let other_uri = fingerprint(&OutboundRequest {
        uri: b"https://api.example.com/widget/8".to_vec(),
        headers: Vec::new(),
    });
    let with_header = fingerprint(&OutboundRequest {
        uri: b"https://api.example.com/widget/7".to_vec(),
        headers: vec![(b"accept".to_vec(), b"json".to_vec())],
    });
    assert_ne!(base, other_uri);
    assert_ne!(base, with_header);
}
