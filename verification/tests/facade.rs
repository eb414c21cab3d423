use todo_or_die::facade::{
    admit_response, plan_lookup, resolve, AdmitOutcome, CacheLookup, FetchError, FetchPlan,
};
use todo_or_die::fingerprint::{fingerprint, OutboundRequest};

/// An in-memory stand-in for the disk cache store: one entry per
/// fingerprint, whole-blob reads and writes.
struct MemStore {
    entries: Vec<(Vec<u8>, Vec<u8>)>,
}

impl MemStore {
    fn new() -> MemStore {
        MemStore { entries: Vec::new() }
    }

    fn get(&self, key: &[u8]) -> CacheLookup {
        for (k, v) in &self.entries {
            if k.as_slice() == key {
                return CacheLookup::Found(v.clone());
            }
        }
        CacheLookup::Absent
    }

    fn put(&mut self, key: Vec<u8>, value: Vec<u8>) {
        self.entries.retain(|(k, _)| k != &key);
        self.entries.push((key, value));
    }

    fn remove(&mut self, key: &[u8]) {
        self.entries.retain(|(k, _)| k.as_slice() != key);
    }
}

/// One facade call against a simulated backend, counting network calls.
fn fetch_body(
    store: &mut MemStore,
    req: &OutboundRequest,
    now: u64,
    ttl: u64,
    backend_status: u16,
    backend_body: &[u8],
    network_calls: &mut u32,
) -> Result<Vec<u8>, FetchError> {
    let key = fingerprint(req);
    let response = match plan_lookup(store.get(&key), now) {
        FetchPlan::UseCached(resp) => resp,
        FetchPlan::Fetch { remove_stale } => {
            if remove_stale {
                store.remove(&key);
            }
            *network_calls += 1;
            match admit_response(backend_status, Vec::new(), backend_body.to_vec(), now, ttl) {
                AdmitOutcome::Persist { entry, response } => {
                    store.put(key.clone(), entry);
                    response
                }
                AdmitOutcome::Failure { status, body } => {
                    return Err(FetchError::Status { status, body });
                }
            }
        }
    };
    resolve(response)
}

#[test]
fn miss_then_hit() {
    let mut store = MemStore::new();
    let req = OutboundRequest { uri: b"https://api.example.com/widget/7".to_vec(), headers: Vec::new() };
    let mut calls: u32 = 0;

    let first = fetch_body(&mut store, &req, 0, 60, 200, b"{\"state\":\"open\"}", &mut calls);
    assert_eq!(first.unwrap(), b"{\"state\":\"open\"}".to_vec());
    assert_eq!(calls, 1);
    assert_eq!(store.entries.len(), 1);

    let second = fetch_body(&mut store, &req, 30, 60, 200, b"unreachable", &mut calls);
    assert_eq!(second.unwrap(), b"{\"state\":\"open\"}".to_vec());
    assert_eq!(calls, 1, "a hit within the ttl makes no network call");
}

#[test]
fn failure_is_not_persisted() {
    let mut store = MemStore::new();
    let req = OutboundRequest { uri: b"https://api.example.com/widget/7".to_vec(), headers: Vec::new() };
    let mut calls: u32 = 0;

    let first = fetch_body(&mut store, &req, 0, 60, 500, b"boom", &mut calls);
    match first {
        Err(FetchError::Status { status, body }) => {
            assert_eq!(status, 500);
            assert_eq!(body, b"boom".to_vec());
        }
        _ => panic!("expected a status failure"),
    }
    assert_eq!(calls, 1);
    assert!(store.entries.is_empty(), "a failure leaves no cache entry");

    // the next identical request still attempts the network
    let second = fetch_body(&mut store, &req, 1, 60, 200, b"ok", &mut calls);
    assert_eq!(second.unwrap(), b"ok".to_vec());
    assert_eq!(calls, 2);
}

#[test]
fn end_to_end_scenario() {
    let mut store = MemStore::new();
    let req = OutboundRequest { uri: b"https://api.example.com/widget/7".to_vec(), headers: Vec::new() };
    let mut calls: u32 = 0;

    // call 1 at t=0: hits the network, returns open
    let r1 = fetch_body(&mut store, &req, 0, 60, 200, b"{\"state\":\"open\"}", &mut calls);
    assert_eq!(r1.unwrap(), b"{\"state\":\"open\"}".to_vec());
    assert_eq!(calls, 1);

    // call 2 at t=30: zero network calls, same value
    let r2 = fetch_body(&mut store, &req, 30, 60, 200, b"{\"state\":\"closed\"}", &mut calls);
    assert_eq!(r2.unwrap(), b"{\"state\":\"open\"}".to_vec());
    assert_eq!(calls, 1);

    // call 3 at t=90, past the ttl: hits the network again and sees the
    // backend's new value
    let r3 = fetch_body(&mut store, &req, 90, 60, 200, b"{\"state\":\"closed\"}", &mut calls);
    assert_eq!(r3.unwrap(), b"{\"state\":\"closed\"}".to_vec());
    assert_eq!(calls, 2);
}

#[test]
fn expired_entry_is_removed_from_store() {
    let mut store = MemStore::new();
    let req = OutboundRequest { uri: b"https://api.example.com/widget/7".to_vec(), headers: Vec::new() };
    let key = fingerprint(&req);
    let mut calls: u32 = 0;

    let _ = fetch_body(&mut store, &req, 0, 60, 200, b"v1", &mut calls);
    assert!(matches!(store.get(&key), CacheLookup::Found(_)));

    // past the ttl the plan asks for the stale file's removal before the
    // refetch; simulate the refetch failing so nothing is re-added
    let r = fetch_body(&mut store, &req, 90, 60, 503, b"down", &mut calls);
    assert!(r.is_err());
    assert!(matches!(store.get(&key), CacheLookup::Absent));
}

#[test]
fn corrupt_entry_falls_through_to_network() {
    let mut store = MemStore::new();
    let req = OutboundRequest { uri: b"https://api.example.com/widget/7".to_vec(), headers: Vec::new() };
    let key = fingerprint(&req);
    store.put(key.clone(), b"not a cache blob".to_vec());
    let mut calls: u32 = 0;

    let r = fetch_body(&mut store, &req, 0, 60, 200, b"fresh", &mut calls);
    assert_eq!(r.unwrap(), b"fresh".to_vec());
    assert_eq!(calls, 1, "a corrupt entry is treated as a miss");
}

#[test]
fn cached_failure_status_resolves_to_error() {
    // a response outside the 2xx range is rejected by resolve wherever
    // it came from
    let resp = todo_or_die::response::CachedResponse {
        status: 404,
        headers: Vec::new(),
        body: b"missing".to_vec(),
        expires_at: 100,
    };
    match resolve(resp) {
        Err(FetchError::Status { status, body }) => {
            assert_eq!(status, 404);
            assert_eq!(body, b"missing".to_vec());
        }
        _ => panic!("expected a status failure"),
    }
}

#[test]
fn success_statuses_resolve_to_body() {
    for status in [200u16, 201, 204, 299] {
        let resp = todo_or_die::response::CachedResponse {
            status,
            headers: Vec::new(),
            body: b"ok".to_vec(),
            expires_at: 100,
        };
        assert_eq!(resolve(resp).unwrap(), b"ok".to_vec());
    }
    for status in [100u16, 199, 300, 301, 500] {
        let resp = todo_or_die::response::CachedResponse {
            status,
            headers: Vec::new(),
            body: Vec::new(),
            expires_at: 100,
        };
        assert!(resolve(resp).is_err());
    }
}
