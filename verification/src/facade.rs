//! Decision logic of the synchronous fetch facade.
//!
//! The surrounding application performs the I/O: it reads and writes the
//! cache directory, runs the network client, and reads the clock. The
//! functions here take what those steps hand back, as plain values, and
//! decide what happens next: whether a cache lookup yields a usable
//! response, whether a fetched response is persisted, and what the
//! caller finally receives.

use vstd::prelude::*;
use crate::codec::{
    decode, encode, hmodel, spec_decode, spec_encode, spec_expiry, DecodeModel, DecodeOutcome,
};
use crate::response::{spec_is_success, is_success, CachedResponse, RespModel};

verus! {

/// What the disk cache store handed back for a fingerprint: no file, or
/// the file's bytes.
pub enum CacheLookup {
    Absent,
    Found(Vec<u8>),
}

/// Model of a cache lookup result.
pub ghost enum LookupModel {
    Absent,
    Found(Seq<u8>),
}

impl View for CacheLookup {
    type V = LookupModel;

    open spec fn view(&self) -> LookupModel {
        match self {
            CacheLookup::Absent => LookupModel::Absent,
            CacheLookup::Found(bytes) => LookupModel::Found(bytes@),
        }
    }
}

/// The facade's decision after consulting the cache: answer from the
/// cached response without any network call, or go to the network,
/// first removing the stale file when the entry had expired.
pub enum FetchPlan {
    UseCached(CachedResponse),
    Fetch { remove_stale: bool },
}

/// Model of a fetch plan.
pub ghost enum PlanModel {
    UseCached(RespModel),
    Fetch { remove_stale: bool },
}

impl View for FetchPlan {
    type V = PlanModel;

    open spec fn view(&self) -> PlanModel {
        match self {
            FetchPlan::UseCached(resp) => PlanModel::UseCached(resp@),
            FetchPlan::Fetch { remove_stale } => (PlanModel::Fetch { remove_stale: *remove_stale }),
        }
    }
}

/// The plan for a lookup result: a fresh entry is used as it stands; an
/// expired entry sends the facade to the network and marks the stale
/// file for removal; a corrupt entry and a miss send it to the network
/// and leave the directory alone.
pub open spec fn spec_plan(l: LookupModel, now: u64) -> PlanModel {
    match l {
        LookupModel::Absent => PlanModel::Fetch { remove_stale: false },
        LookupModel::Found(bytes) => match spec_decode(bytes, now) {
            DecodeModel::Fresh(m) => PlanModel::UseCached(m),
            DecodeModel::Expired => PlanModel::Fetch { remove_stale: true },
            DecodeModel::Corrupt => PlanModel::Fetch { remove_stale: false },
        },
    }
}

/// Decide from a cache lookup whether the network is needed.
pub fn plan_lookup(lookup: CacheLookup, now: u64) -> (r: FetchPlan)
    ensures
        r@ == spec_plan(lookup@, now),
{
    match lookup {
        CacheLookup::Absent => FetchPlan::Fetch { remove_stale: false },
        CacheLookup::Found(bytes) => match decode(&bytes, now) {
            DecodeOutcome::Fresh(resp) => FetchPlan::UseCached(resp),
            DecodeOutcome::Expired => FetchPlan::Fetch { remove_stale: true },
            DecodeOutcome::Corrupt => FetchPlan::Fetch { remove_stale: false },
        },
    }
}

/// The facade's decision on a response fetched from the network: a
/// success is persisted (as the encoded entry) and then resolved; any
/// other status is a failure and nothing is written to the store.
pub enum AdmitOutcome {
    Persist { entry: Vec<u8>, response: CachedResponse },
    Failure { status: u16, body: Vec<u8> },
}

/// Model of an admission outcome.
pub ghost enum AdmitModel {
    Persist { entry: Seq<u8>, response: RespModel },
    Failure { status: u16, body: Seq<u8> },
}

impl View for AdmitOutcome {
    type V = AdmitModel;

    open spec fn view(&self) -> AdmitModel {
        match self {
            AdmitOutcome::Persist { entry, response } => (AdmitModel::Persist {
                entry: entry@,
                response: response@,
            }),
            AdmitOutcome::Failure { status, body } => (AdmitModel::Failure {
                status: *status,
                body: body@,
            }),
        }
    }
}

/// What admission yields for a fetched response: exactly the successful
/// statuses are persisted, stamped with `now + ttl`, and the entry bytes
/// are the codec's blob for the stamped response.
pub open spec fn spec_admit(
    status: u16,
    headers: Seq<(Seq<u8>, Seq<u8>)>,
    body: Seq<u8>,
    now: u64,
    ttl: u64,
) -> AdmitModel {
    if spec_is_success(status) {
        let m = RespModel { status, headers, body, expires_at: spec_expiry(now, ttl) };
        AdmitModel::Persist { entry: spec_encode(m), response: m }
    } else {
        AdmitModel::Failure { status, body }
    }
}

/// Decide whether a fetched response is cached, and build the entry
/// bytes for the store when it is.
pub fn admit_response(
    status: u16,
    headers: Vec<(Vec<u8>, Vec<u8>)>,
    body: Vec<u8>,
    now: u64,
    ttl: u64,
) -> (r: AdmitOutcome)
    ensures
        r@ == spec_admit(status, hmodel(headers@), body@, now, ttl),
{
    if is_success(status) {
        let expires_at: u64 = if ttl <= u64::MAX - now {
            now + ttl
        } else {
            u64::MAX
        };
        let response = CachedResponse { status, headers, body, expires_at };
        let entry = encode(&response, now, ttl);
        proof {
            assert(crate::codec::spec_stamped(response@, now, ttl) == response@);
        }
        AdmitOutcome::Persist { entry, response }
    } else {
        AdmitOutcome::Failure { status, body }
    }
}

/// A failure the facade reports instead of a decoded value.
#[derive(Debug)]
pub enum FetchError {
    /// The network transport failed; carries the rendered cause.
    Transport(String),
    /// The response had a status outside the 2xx range; carries the
    /// status and the response body.
    Status { status: u16, body: Vec<u8> },
    /// The response body did not decode as the expected shape; carries
    /// the rendered parse error.
    Decode(String),
    /// A cache file or the cache directory could not be read or
    /// created; carries the rendered cause.
    Cache(String),
}

/// Resolve a response, cached or fresh: a success hands its body to the
/// caller for decoding, any other status is a failure carrying the
/// status and body.
pub fn resolve(resp: CachedResponse) -> (r: Result<Vec<u8>, FetchError>)
    ensures
        (match r {
            Ok(body) => spec_is_success(resp@.status) && body@ == resp@.body,
            Err(e) => !spec_is_success(resp@.status) && (e matches FetchError::Status {
                status,
                body,
            } && status == resp@.status && body@ == resp@.body),
        }),
{
    if is_success(resp.status) {
        Ok(resp.body)
    } else {
        Err(FetchError::Status { status: resp.status, body: resp.body })
    }
}

/// Miss, then hit: with no entry on disk the facade goes to the network
/// without touching the directory; after a successful response is
/// admitted and its entry persisted, a second lookup of those bytes at
/// any time within the time-to-live window answers from the cache with
/// a response equal to the fetched one in status, headers and body, and
/// plans no network call.
pub proof fn lemma_miss_then_hit(m: RespModel, now: u64, ttl: u64, t: u64)
    requires
        crate::codec::wf_model(m),
        spec_is_success(m.status),
        t <= spec_expiry(now, ttl),
    ensures
        spec_plan(LookupModel::Absent, now) == (PlanModel::Fetch { remove_stale: false }),
        spec_admit(m.status, m.headers, m.body, now, ttl) matches AdmitModel::Persist {
            entry,
            response,
        } && spec_plan(LookupModel::Found(entry), t) == PlanModel::UseCached(response) && response
            == crate::codec::spec_stamped(m, now, ttl),
{
    crate::codec::lemma_cache_round_trip(m, now, ttl, t);
    assert(crate::codec::spec_stamped(m, now, ttl) == (RespModel {
        status: m.status,
        headers: m.headers,
        body: m.body,
        expires_at: spec_expiry(now, ttl),
    }));
}

/// Failure non-persistence: a response with a status outside the 2xx
/// range is never admitted to the store; it becomes a failure carrying
/// its status and body, so a later identical request still plans a
/// network call.
pub proof fn lemma_failure_not_persisted(
    status: u16,
    headers: Seq<(Seq<u8>, Seq<u8>)>,
    body: Seq<u8>,
    now: u64,
    ttl: u64,
)
    requires
        !spec_is_success(status),
    ensures
        spec_admit(status, headers, body, now, ttl) == (AdmitModel::Failure { status, body }),
{
}

/// Expired entry: a blob stamped with `now + ttl` and looked up past
/// that expiry plans a network call and marks the stale file for
/// removal, so a later `get` on the store finds the entry absent.
pub proof fn lemma_expired_entry_refetched(m: RespModel, now: u64, ttl: u64, t: u64)
    requires
        crate::codec::wf_model(m),
        t > spec_expiry(now, ttl),
    ensures
        spec_plan(
            LookupModel::Found(spec_encode(crate::codec::spec_stamped(m, now, ttl))),
            t,
        ) == (PlanModel::Fetch { remove_stale: true }),
{
    crate::codec::lemma_decode_expired(m, now, ttl, t);
}

} // verus!
