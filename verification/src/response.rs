//! The cached response record: status, headers, body and absolute expiry.

use vstd::prelude::*;

verus! {

/// Mathematical model of a cached response: the status code, the headers
/// in order (name and raw value bytes), the raw body bytes, and the
/// absolute expiry timestamp in seconds.
pub ghost struct RespModel {
    pub status: u16,
    pub headers: Seq<(Seq<u8>, Seq<u8>)>,
    pub body: Seq<u8>,
    pub expires_at: u64,
}

/// A complete HTTP response as the cache stores it. Header names and
/// values are kept as raw byte sequences so that a round trip through the
/// codec preserves them exactly.
pub struct CachedResponse {
    pub status: u16,
    pub headers: Vec<(Vec<u8>, Vec<u8>)>,
    pub body: Vec<u8>,
    pub expires_at: u64,
}

impl View for CachedResponse {
    type V = RespModel;

    open spec fn view(&self) -> RespModel {
        RespModel {
            status: self.status,
            headers: self.headers@.map_values(|h: (Vec<u8>, Vec<u8>)| (h.0@, h.1@)),
            body: self.body@,
            expires_at: self.expires_at,
        }
    }
}

/// A status code counts as success exactly when it lies in the 2xx range.
pub open spec fn spec_is_success(status: u16) -> bool {
    200 <= status < 300
}

/// Success check used by the facade on every response, cached or fresh.
pub fn is_success(status: u16) -> (r: bool)
    ensures
        r == spec_is_success(status),
{
    200 <= status && status < 300
}

} // verus!
