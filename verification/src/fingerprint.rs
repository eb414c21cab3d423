//! The fingerprint generator: a deterministic cache key for an outbound
//! request.
//!
//! The request's method (always `GET`), URI and headers, in their order
//! on the request, are laid out as a canonical byte sequence; that
//! sequence is hashed with 64-bit FNV-1a; the digest is rendered as 16
//! lowercase hexadecimal digits, a fixed-width filesystem-safe name.
//! The key is a pure function of the request, so it is stable across
//! calls and across process restarts.

use vstd::prelude::*;
use vstd::assert_seqs_equal;
use crate::codec::{append_chunk, append_headers, enc_chunk, enc_headers_counted, hmodel};

verus! {

/// FNV-1a 64-bit offset basis.
pub const FNV_OFFSET: u64 = 0xcbf2_9ce4_8422_2325;

/// FNV-1a 64-bit prime.
pub const FNV_PRIME: u64 = 0x100_0000_01b3;

/// An outbound request as the facade caches it: method fixed to `GET`,
/// a URI, ordered headers with raw byte values, and an empty body — the
/// cache key design depends on the body staying empty, and the type
/// has no body field to hold one.
pub struct OutboundRequest {
    pub uri: Vec<u8>,
    pub headers: Vec<(Vec<u8>, Vec<u8>)>,
}

/// Model of an outbound request.
pub ghost struct ReqModel {
    pub uri: Seq<u8>,
    pub headers: Seq<(Seq<u8>, Seq<u8>)>,
}

impl View for OutboundRequest {
    type V = ReqModel;

    open spec fn view(&self) -> ReqModel {
        ReqModel { uri: self.uri@, headers: hmodel(self.headers@) }
    }
}

/// The fixed method, as bytes: `GET`.
pub open spec fn method_bytes() -> Seq<u8> {
    seq![0x47u8, 0x45u8, 0x54u8]
}

/// Canonical byte layout fed to the hash: method, length-prefixed URI,
/// header count, then each header with length-prefixed name and value.
pub open spec fn canonical_bytes(r: ReqModel) -> Seq<u8> {
    method_bytes() + enc_chunk(r.uri) + enc_headers_counted(r.headers)
}

/// One FNV-1a step: fold a byte into the state.
pub open spec fn fnv1a_step(h: u64, b: u8) -> u64 {
    vstd::wrapping::u64_specs::wrapping_mul(h ^ (b as u64), FNV_PRIME)
}

/// FNV-1a over a byte sequence, left to right.
pub open spec fn spec_fnv1a(s: Seq<u8>) -> u64
    decreases s.len(),
{
    if s.len() == 0 {
        FNV_OFFSET
    } else {
        fnv1a_step(spec_fnv1a(s.drop_last()), s.last())
    }
}

/// The lowercase hexadecimal digit for a value below 16, as an ASCII
/// byte.
pub open spec fn hex_digit(n: u8) -> u8 {
    if n < 10 {
        (0x30 + n) as u8
    } else {
        (0x57 + n) as u8
    }
}

/// The `i`-th nibble of `x`, most significant first.
pub open spec fn nibble(x: u64, i: int) -> u8 {
    ((x >> (((15 - i) * 4) as u64)) & 0xf) as u8
}

/// A 64-bit value as 16 lowercase hexadecimal digits, most significant
/// first.
pub open spec fn spec_hex16(x: u64) -> Seq<u8> {
    Seq::new(16, |i: int| hex_digit(nibble(x, i)))
}

/// The fingerprint of a request: the hex rendering of the hash of its
/// canonical bytes.
pub open spec fn spec_fingerprint(r: ReqModel) -> Seq<u8> {
    spec_hex16(spec_fnv1a(canonical_bytes(r)))
}

/// Hash a byte vector with 64-bit FNV-1a.
fn fnv1a(data: &Vec<u8>) -> (h: u64)
    ensures
        h == spec_fnv1a(data@),
{
    let mut h: u64 = FNV_OFFSET;
    let n = data.len();
    let mut i: usize = 0;
    while i < n
        invariant
            i <= n,
            n == data@.len(),
            h == spec_fnv1a(data@.take(i as int)),
        decreases n - i,
    {
        let b = data[i];
        h = (h ^ (b as u64)).wrapping_mul(FNV_PRIME);
        proof {
            assert(data@.take(i + 1).drop_last() == data@.take(i as int)) by {
                assert_seqs_equal!(data@.take(i + 1).drop_last(), data@.take(i as int));
            }
            assert(data@.take(i + 1).last() == data@[i as int]);
        }
        i = i + 1;
    }
    proof {
        assert(data@.take(n as int) == data@) by {
            assert_seqs_equal!(data@.take(n as int), data@);
        }
    }
    h
}

/// Render a 64-bit value as 16 lowercase hexadecimal digits.
fn hex16(x: u64) -> (out: Vec<u8>)
    ensures
        out@ == spec_hex16(x),
{
    let mut out: Vec<u8> = Vec::new();
    let mut i: usize = 0;
    while i < 16
        invariant
            i <= 16,
            out@.len() == i,
            forall|j: int| 0 <= j < i ==> out@[j] == hex_digit(nibble(x, j)),
        decreases 16 - i,
    {
        let sh: u64 = ((15 - i) * 4) as u64;
        let masked = (x >> sh) & 0xf;
        proof {
            assert((x >> sh) & 0xf < 16) by (bit_vector);
        }
        let nib = masked as u8;
        let d: u8 = if nib < 10 {
            0x30 + nib
        } else {
            0x57 + nib
        };
        out.push(d);
        i = i + 1;
    }
    proof {
        assert_seqs_equal!(out@, spec_hex16(x));
    }
    out
}

/// Compute the cache key for a request: a pure function of its method,
/// URI and headers, with no I/O and no failure mode.
pub fn fingerprint(req: &OutboundRequest) -> (r: Vec<u8>)
    ensures
        r@ == spec_fingerprint(req@),
{
    let mut canon: Vec<u8> = Vec::new();
    canon.push(0x47);
    canon.push(0x45);
    canon.push(0x54);
    proof {
        assert(canon@ == method_bytes()) by {
            assert_seqs_equal!(canon@, method_bytes());
        }
    }
    append_chunk(&mut canon, &req.uri);
    append_headers(&mut canon, &req.headers);
    proof {
        assert(canon@ == canonical_bytes(req@)) by {
            assert_seqs_equal!(canon@, canonical_bytes(req@));
        }
    }
    let h = fnv1a(&canon);
    hex16(h)
}

/// Determinism: two requests with the same method, URI and headers, in
/// the same order and with the same values, have the same fingerprint —
/// on every call, in every process.
pub proof fn lemma_fingerprint_deterministic(a: ReqModel, b: ReqModel)
    requires
        a.uri == b.uri,
        a.headers == b.headers,
    ensures
        spec_fingerprint(a) == spec_fingerprint(b),
{
    assert(canonical_bytes(a) == canonical_bytes(b));
}

/// Every fingerprint is 16 bytes of lowercase hexadecimal, so it is
/// safe as a file name.
pub proof fn lemma_fingerprint_shape(r: ReqModel)
    ensures
        spec_fingerprint(r).len() == 16,
        forall|j: int|
            0 <= j < 16 ==> (0x30 <= #[trigger] spec_fingerprint(r)[j] <= 0x39 || 0x61
                <= spec_fingerprint(r)[j] <= 0x66),
{
    let digest = spec_fnv1a(canonical_bytes(r));
    assert forall|j: int| 0 <= j < 16 implies (0x30 <= #[trigger] spec_fingerprint(r)[j] <= 0x39
        || 0x61 <= spec_fingerprint(r)[j] <= 0x66) by {
        let x = digest;
        let sh = ((15 - j) * 4) as u64;
        assert((x >> sh) & 0xf < 16) by (bit_vector);
    }
}

} // verus!
