//! The response codec: a cached response is serialized to a byte blob and
//! read back, together with its expiry check.
//!
//! The blob layout, all integers little-endian and all lengths 64-bit:
//! expiry timestamp, status code, header count, then for each header a
//! length-prefixed name and a length-prefixed value, then the
//! length-prefixed body, with nothing after it. A blob that does not
//! follow this layout exactly decodes to `Corrupt`; a well-formed blob
//! whose expiry lies before the given time decodes to `Expired`.

use vstd::prelude::*;
use vstd::bytes::*;
use vstd::slice::*;
use vstd::assert_seqs_equal;
use crate::response::{CachedResponse, RespModel};

verus! {

/// Upper bound that every encoded length must satisfy: lengths are stored
/// as 64-bit integers.
pub open spec fn fits_u64(n: nat) -> bool {
    n < 0x1_0000_0000_0000_0000
}

/// A model can be encoded when every stored length fits in 64 bits. Every
/// value built from executable vectors satisfies this.
pub open spec fn wf_model(m: RespModel) -> bool {
    &&& fits_u64(m.headers.len())
    &&& fits_u64(m.body.len())
    &&& forall|i: int|
        0 <= i < m.headers.len() ==> fits_u64(#[trigger] m.headers[i].0.len()) && fits_u64(
            m.headers[i].1.len(),
        )
}

/// A byte sequence prefixed with its own length.
pub open spec fn enc_chunk(data: Seq<u8>) -> Seq<u8> {
    spec_u64_to_le_bytes(data.len() as u64) + data
}

/// One header: length-prefixed name, then length-prefixed value.
pub open spec fn enc_header(h: (Seq<u8>, Seq<u8>)) -> Seq<u8> {
    enc_chunk(h.0) + enc_chunk(h.1)
}

/// All headers, in order.
pub open spec fn enc_headers(hs: Seq<(Seq<u8>, Seq<u8>)>) -> Seq<u8>
    decreases hs.len(),
{
    if hs.len() == 0 {
        Seq::empty()
    } else {
        enc_header(hs.first()) + enc_headers(hs.drop_first())
    }
}

/// All headers preceded by their count.
pub open spec fn enc_headers_counted(hs: Seq<(Seq<u8>, Seq<u8>)>) -> Seq<u8> {
    spec_u64_to_le_bytes(hs.len() as u64) + enc_headers(hs)
}

/// The whole blob for a response model.
pub open spec fn spec_encode(m: RespModel) -> Seq<u8> {
    spec_u64_to_le_bytes(m.expires_at) + spec_u16_to_le_bytes(m.status) + spec_u64_to_le_bytes(
        m.headers.len() as u64,
    ) + enc_headers(m.headers) + enc_chunk(m.body)
}

/// Read a little-endian 64-bit integer from the front of a sequence.
pub open spec fn parse_u64(s: Seq<u8>) -> Option<(u64, Seq<u8>)> {
    if s.len() >= 8 {
        Some((spec_u64_from_le_bytes(s.take(8)), s.skip(8)))
    } else {
        None
    }
}

/// Read a little-endian 16-bit integer from the front of a sequence.
pub open spec fn parse_u16(s: Seq<u8>) -> Option<(u16, Seq<u8>)> {
    if s.len() >= 2 {
        Some((spec_u16_from_le_bytes(s.take(2)), s.skip(2)))
    } else {
        None
    }
}

/// Read a length-prefixed byte sequence from the front of a sequence.
pub open spec fn parse_chunk(s: Seq<u8>) -> Option<(Seq<u8>, Seq<u8>)> {
    match parse_u64(s) {
        None => None,
        Some((n, r)) => if r.len() >= n {
            Some((r.take(n as int), r.skip(n as int)))
        } else {
            None
        },
    }
}

/// Read `n` headers from the front of a sequence.
pub open spec fn parse_headers(s: Seq<u8>, n: nat) -> Option<(Seq<(Seq<u8>, Seq<u8>)>, Seq<u8>)>
    decreases n,
{
    if n == 0 {
        Some((Seq::empty(), s))
    } else {
        match parse_chunk(s) {
            None => None,
            Some((name, r1)) => match parse_chunk(r1) {
                None => None,
                Some((value, r2)) => match parse_headers(r2, (n - 1) as nat) {
                    None => None,
                    Some((hs, r3)) => Some((seq![(name, value)] + hs, r3)),
                },
            },
        }
    }
}

/// Parse a whole blob. `Some` exactly when the bytes follow the layout
/// and nothing trails the body.
pub open spec fn spec_parse(s: Seq<u8>) -> Option<RespModel> {
    match parse_u64(s) {
        None => None,
        Some((expires_at, r1)) => match parse_u16(r1) {
            None => None,
            Some((status, r2)) => match parse_u64(r2) {
                None => None,
                Some((n, r3)) => match parse_headers(r3, n as nat) {
                    None => None,
                    Some((headers, r4)) => match parse_chunk(r4) {
                        None => None,
                        Some((body, r5)) => if r5.len() == 0 {
                            Some(RespModel { status, headers, body, expires_at })
                        } else {
                            None
                        },
                    },
                },
            },
        },
    }
}

/// The expiry stamped on a new entry: `now + ttl`, saturating at the top
/// of the 64-bit range.
pub open spec fn spec_expiry(now: u64, ttl: u64) -> u64 {
    if now + ttl <= u64::MAX {
        (now + ttl) as u64
    } else {
        u64::MAX
    }
}

/// The model that `encode` writes: the response fields with the expiry
/// stamped from `now` and `ttl`.
pub open spec fn spec_stamped(m: RespModel, now: u64, ttl: u64) -> RespModel {
    RespModel { expires_at: spec_expiry(now, ttl), ..m }
}

/// Serialize a response, stamping its expiry as `now + ttl`.
pub fn encode(resp: &CachedResponse, now: u64, ttl: u64) -> (out: Vec<u8>)
    ensures
        out@ == spec_encode(spec_stamped(resp@, now, ttl)),
{
    let expiry: u64 = if ttl <= u64::MAX - now {
        now + ttl
    } else {
        u64::MAX
    };
    let ghost m = spec_stamped(resp@, now, ttl);
    let mut out = u64_to_le_bytes(expiry);
    let mut status_bytes = u16_to_le_bytes(resp.status);
    out.append(&mut status_bytes);
    append_headers(&mut out, &resp.headers);
    append_chunk(&mut out, &resp.body);
    proof {
        assert_seqs_equal!(out@, spec_encode(m));
    }
    out
}

/// Append the header count and every header, each name and value length
/// prefixed, to `out`.
pub(crate) fn append_headers(out: &mut Vec<u8>, headers: &Vec<(Vec<u8>, Vec<u8>)>)
    ensures
        final(out)@ == old(out)@ + enc_headers_counted(hmodel(headers@)),
{
    let ghost hs = hmodel(headers@);
    let ghost base = out@;
    let mut count_bytes = u64_to_le_bytes(headers.len() as u64);
    out.append(&mut count_bytes);
    let ghost prefix = out@;
    assert(prefix == base + spec_u64_to_le_bytes(hs.len() as u64));
    let n = headers.len();
    let mut i: usize = 0;
    while i < n
        invariant
            i <= n,
            n == headers@.len(),
            hs == hmodel(headers@),
            prefix == base + spec_u64_to_le_bytes(hs.len() as u64),
            out@ == prefix + enc_headers(hs.take(i as int)),
        decreases n - i,
    {
        let ghost old_out = out@;
        append_chunk(out, &headers[i].0);
        append_chunk(out, &headers[i].1);
        proof {
            assert(out@ == old_out + enc_header(hs[i as int])) by {
                assert(hs[i as int] == (headers[i as int].0@, headers[i as int].1@));
                assert_seqs_equal!(
                    out@,
                    old_out + enc_header(hs[i as int])
                );
            }
            lemma_enc_headers_snoc(hs.take(i as int), hs[i as int]);
            assert(hs.take(i + 1) == hs.take(i as int).push(hs[i as int])) by {
                assert_seqs_equal!(
                    hs.take(i + 1),
                    hs.take(i as int).push(hs[i as int])
                );
            }
            assert(out@ == prefix + enc_headers(hs.take(i + 1))) by {
                assert_seqs_equal!(
                    out@,
                    prefix + enc_headers(hs.take(i + 1))
                );
            }
        }
        i = i + 1;
    }
    proof {
        assert(hs.take(n as int) == hs) by {
            assert_seqs_equal!(hs.take(n as int), hs);
        }
        assert_seqs_equal!(final(out)@, old(out)@ + enc_headers_counted(hs));
    }
}

/// Append a length-prefixed copy of `data` to `out`.
pub(crate) fn append_chunk(out: &mut Vec<u8>, data: &Vec<u8>)
    ensures
        final(out)@ == old(out)@ + enc_chunk(data@),
{
    let mut len_bytes = u64_to_le_bytes(data.len() as u64);
    out.append(&mut len_bytes);
    let mut copy = slice_to_vec(data.as_slice());
    out.append(&mut copy);
    proof {
        assert_seqs_equal!(final(out)@, old(out)@ + enc_chunk(data@));
    }
}

/// Model of a decode outcome: a fresh response, an expired entry, or a
/// blob that does not parse.
pub ghost enum DecodeModel {
    Fresh(RespModel),
    Expired,
    Corrupt,
}

/// What `decode` yields for given bytes at a given time: `Corrupt` when
/// the bytes do not parse, `Expired` when they parse but the stored
/// expiry lies before `now`, and the parsed response otherwise.
pub open spec fn spec_decode(s: Seq<u8>, now: u64) -> DecodeModel {
    match spec_parse(s) {
        None => DecodeModel::Corrupt,
        Some(m) => if now > m.expires_at {
            DecodeModel::Expired
        } else {
            DecodeModel::Fresh(m)
        },
    }
}

/// Result of reading a cache blob back.
pub enum DecodeOutcome {
    /// The blob parsed and its expiry has not passed.
    Fresh(CachedResponse),
    /// The blob parsed but its expiry has passed; the entry is stale.
    Expired,
    /// The blob does not follow the layout; treated like a miss.
    Corrupt,
}

impl View for DecodeOutcome {
    type V = DecodeModel;

    open spec fn view(&self) -> DecodeModel {
        match self {
            DecodeOutcome::Fresh(c) => DecodeModel::Fresh(c@),
            DecodeOutcome::Expired => DecodeModel::Expired,
            DecodeOutcome::Corrupt => DecodeModel::Corrupt,
        }
    }
}

/// Appending one header to a sequence appends its encoding to the blob.
proof fn lemma_enc_headers_snoc(hs: Seq<(Seq<u8>, Seq<u8>)>, h: (Seq<u8>, Seq<u8>))
    ensures
        enc_headers(hs.push(h)) == enc_headers(hs) + enc_header(h),
    decreases hs.len(),
{
    if hs.len() == 0 {
        assert(hs.push(h).drop_first() == Seq::<(Seq<u8>, Seq<u8>)>::empty()) by {
            assert_seqs_equal!(hs.push(h).drop_first(), Seq::<(Seq<u8>, Seq<u8>)>::empty());
        }
        assert(hs.push(h).first() == h);
        let z = enc_header(h);
        assert(enc_headers(hs.push(h)) == z + enc_headers(
            Seq::<(Seq<u8>, Seq<u8>)>::empty(),
        ));
        assert(enc_headers(Seq::<(Seq<u8>, Seq<u8>)>::empty()) == Seq::<u8>::empty());
        assert(z + Seq::<u8>::empty() == z) by {
            assert_seqs_equal!(z + Seq::<u8>::empty(), z);
        }
        assert(enc_headers(hs) + z == z) by {
            assert_seqs_equal!(enc_headers(hs) + z, z);
        }
    } else {
        assert(hs.push(h).first() == hs.first());
        assert(hs.push(h).drop_first() == hs.drop_first().push(h)) by {
            assert_seqs_equal!(hs.push(h).drop_first(), hs.drop_first().push(h));
        }
        lemma_enc_headers_snoc(hs.drop_first(), h);
        let x = enc_header(hs.first());
        let y = enc_headers(hs.drop_first());
        let z = enc_header(h);
        assert(enc_headers(hs) == x + y);
        assert(enc_headers(hs.push(h)) == x + (y + z));
        assert(x + (y + z) == (x + y) + z) by {
            assert_seqs_equal!(x + (y + z), (x + y) + z);
        }
    }
}

/// Model of an executable header list, as the `View` of `CachedResponse`
/// reads it.
pub open spec fn hmodel(hs: Seq<(Vec<u8>, Vec<u8>)>) -> Seq<(Seq<u8>, Seq<u8>)> {
    hs.map_values(|h: (Vec<u8>, Vec<u8>)| (h.0@, h.1@))
}

/// Read a little-endian 64-bit integer at byte offset `i`.
fn read_u64_at(data: &Vec<u8>, i: usize) -> (r: Option<(u64, usize)>)
    requires
        i <= data@.len(),
    ensures
        (match r {
            Some(p) => parse_u64(data@.skip(i as int)) == Some((p.0, data@.skip(p.1 as int)))
                && p.1 == i + 8,
            None => parse_u64(data@.skip(i as int)) is None,
        }),
{
    if data.len() - i >= 8 {
        let s = slice_subrange(data.as_slice(), i, i + 8);
        let x = u64_from_le_bytes(s);
        proof {
            assert(s@ == data@.skip(i as int).take(8)) by {
                assert_seqs_equal!(data@.subrange(i as int, i + 8), data@.skip(i as int).take(8));
            }
            assert(data@.skip(i as int).skip(8) == data@.skip(i + 8)) by {
                assert_seqs_equal!(data@.skip(i as int).skip(8), data@.skip(i + 8));
            }
        }
        Some((x, i + 8))
    } else {
        None
    }
}

/// Read a little-endian 16-bit integer at byte offset `i`.
fn read_u16_at(data: &Vec<u8>, i: usize) -> (r: Option<(u16, usize)>)
    requires
        i <= data@.len(),
    ensures
        (match r {
            Some(p) => parse_u16(data@.skip(i as int)) == Some((p.0, data@.skip(p.1 as int)))
                && p.1 == i + 2,
            None => parse_u16(data@.skip(i as int)) is None,
        }),
{
    if data.len() - i >= 2 {
        let s = slice_subrange(data.as_slice(), i, i + 2);
        let x = u16_from_le_bytes(s);
        proof {
            assert(s@ == data@.skip(i as int).take(2)) by {
                assert_seqs_equal!(data@.subrange(i as int, i + 2), data@.skip(i as int).take(2));
            }
            assert(data@.skip(i as int).skip(2) == data@.skip(i + 2)) by {
                assert_seqs_equal!(data@.skip(i as int).skip(2), data@.skip(i + 2));
            }
        }
        Some((x, i + 2))
    } else {
        None
    }
}

/// Read a length-prefixed byte sequence at byte offset `i`.
fn read_chunk_at(data: &Vec<u8>, i: usize) -> (r: Option<(Vec<u8>, usize)>)
    requires
        i <= data@.len(),
    ensures
        (match r {
            Some(p) => parse_chunk(data@.skip(i as int)) == Some((p.0@, data@.skip(p.1 as int)))
                && i <= p.1 <= data@.len(),
            None => parse_chunk(data@.skip(i as int)) is None,
        }),
{
    match read_u64_at(data, i) {
        None => None,
        Some((n, j)) => {
            if n <= (data.len() - j) as u64 {
                let nn = n as usize;
                let chunk = slice_to_vec(slice_subrange(data.as_slice(), j, j + nn));
                proof {
                    let rem = data@.skip(j as int);
                    assert(rem.len() >= n);
                    assert(rem.take(n as int) == data@.subrange(j as int, j + nn)) by {
                        assert_seqs_equal!(rem.take(n as int), data@.subrange(j as int, j + nn));
                    }
                    assert(rem.skip(n as int) == data@.skip(j + nn)) by {
                        assert_seqs_equal!(rem.skip(n as int), data@.skip(j + nn));
                    }
                }
                Some((chunk, j + nn))
            } else {
                proof {
                    assert(data@.skip(j as int).len() < n);
                }
                None
            }
        },
    }
}

/// Mapping an executable header list to its model commutes with `push`.
proof fn lemma_hmodel_push(hs: Seq<(Vec<u8>, Vec<u8>)>, h: (Vec<u8>, Vec<u8>))
    ensures
        hmodel(hs.push(h)) == hmodel(hs).push((h.0@, h.1@)),
{
    assert_seqs_equal!(hmodel(hs.push(h)), hmodel(hs).push((h.0@, h.1@)));
}

/// Deserialize a cache blob, judging freshness against `now`.
#[verifier::loop_isolation(false)]
pub fn decode(data: &Vec<u8>, now: u64) -> (r: DecodeOutcome)
    ensures
        r@ == spec_decode(data@, now),
{
    let ghost full = data@;
    proof {
        assert(full.skip(0) == full) by {
            assert_seqs_equal!(full.skip(0), full);
        }
    }
    let (expires_at, i1) = match read_u64_at(data, 0) {
        Some(p) => p,
        None => {
            return DecodeOutcome::Corrupt;
        },
    };
    let (status, i2) = match read_u16_at(data, i1) {
        Some(p) => p,
        None => {
            return DecodeOutcome::Corrupt;
        },
    };
    let (hcount, i3) = match read_u64_at(data, i2) {
        Some(p) => p,
        None => {
            return DecodeOutcome::Corrupt;
        },
    };
    let mut headers: Vec<(Vec<u8>, Vec<u8>)> = Vec::new();
    let mut pos: usize = i3;
    let mut k: u64 = 0;
    while k < hcount
        invariant
            k <= hcount,
            pos <= full.len(),
            hmodel(headers@).len() == k,
            parse_headers(full.skip(i3 as int), hcount as nat) == (match parse_headers(
                full.skip(pos as int),
                (hcount - k) as nat,
            ) {
                None => None::<(Seq<(Seq<u8>, Seq<u8>)>, Seq<u8>)>,
                Some((hs, rest)) => Some((hmodel(headers@) + hs, rest)),
            }),
        decreases hcount - k,
    {
        let (name, p2) = match read_chunk_at(data, pos) {
            Some(p) => p,
            None => {
                return DecodeOutcome::Corrupt;
            },
        };
        let (value, p3) = match read_chunk_at(data, p2) {
            Some(p) => p,
            None => {
                return DecodeOutcome::Corrupt;
            },
        };
        proof {
            let hs_old = hmodel(headers@);
            let h = (name@, value@);
            lemma_hmodel_push(headers@, (name, value));
            assert(parse_headers(full.skip(pos as int), (hcount - k) as nat) == (
            match parse_headers(full.skip(p3 as int), (hcount - k - 1) as nat) {
                None => None::<(Seq<(Seq<u8>, Seq<u8>)>, Seq<u8>)>,
                Some((hs, rest)) => Some((seq![h] + hs, rest)),
            }));
            assert forall|hs: Seq<(Seq<u8>, Seq<u8>)>|
                hs_old + (seq![h] + hs) == #[trigger] (hs_old.push(h) + hs) by {
                assert_seqs_equal!(hs_old + (seq![h] + hs), hs_old.push(h) + hs);
            }
        }
        headers.push((name, value));
        pos = p3;
        k = k + 1;
    }
    proof {
        assert(parse_headers(full.skip(pos as int), 0) == Some((
            Seq::<(Seq<u8>, Seq<u8>)>::empty(),
            full.skip(pos as int),
        )));
        assert(hmodel(headers@) + Seq::<(Seq<u8>, Seq<u8>)>::empty() == hmodel(headers@)) by {
            assert_seqs_equal!(
                hmodel(headers@) + Seq::<(Seq<u8>, Seq<u8>)>::empty(),
                hmodel(headers@)
            );
        }
        assert(parse_headers(full.skip(i3 as int), hcount as nat) == Some((
            hmodel(headers@),
            full.skip(pos as int),
        )));
    }
    let (body, pend) = match read_chunk_at(data, pos) {
        Some(p) => p,
        None => {
            return DecodeOutcome::Corrupt;
        },
    };
    if pend != data.len() {
        proof {
            assert(full.skip(pend as int).len() > 0);
        }
        return DecodeOutcome::Corrupt;
    }
    let resp = CachedResponse { status, headers, body, expires_at };
    proof {
        assert(full.skip(pend as int).len() == 0);
        assert(spec_parse(full) == Some(resp@));
    }
    if now > expires_at {
        DecodeOutcome::Expired
    } else {
        DecodeOutcome::Fresh(resp)
    }
}

/// A 64-bit length written in front of any tail reads back as itself.
proof fn lemma_parse_u64_of_enc(x: u64, rest: Seq<u8>)
    ensures
        parse_u64(spec_u64_to_le_bytes(x) + rest) == Some((x, rest)),
{
    lemma_auto_spec_u64_to_from_le_bytes();
    let e = spec_u64_to_le_bytes(x);
    let s = e + rest;
    assert(s.take(8) == e) by {
        assert_seqs_equal!(s.take(8), e);
    }
    assert(s.skip(8) == rest) by {
        assert_seqs_equal!(s.skip(8), rest);
    }
}

/// A 16-bit integer written in front of any tail reads back as itself.
proof fn lemma_parse_u16_of_enc(x: u16, rest: Seq<u8>)
    ensures
        parse_u16(spec_u16_to_le_bytes(x) + rest) == Some((x, rest)),
{
    lemma_auto_spec_u16_to_from_le_bytes();
    let e = spec_u16_to_le_bytes(x);
    let s = e + rest;
    assert(s.take(2) == e) by {
        assert_seqs_equal!(s.take(2), e);
    }
    assert(s.skip(2) == rest) by {
        assert_seqs_equal!(s.skip(2), rest);
    }
}

/// A length-prefixed chunk written in front of any tail reads back as
/// itself.
proof fn lemma_parse_chunk_of_enc(data: Seq<u8>, rest: Seq<u8>)
    requires
        fits_u64(data.len()),
    ensures
        parse_chunk(enc_chunk(data) + rest) == Some((data, rest)),
{
    let n = data.len() as u64;
    let e = spec_u64_to_le_bytes(n);
    let r = data + rest;
    assert(enc_chunk(data) + rest == e + r) by {
        assert_seqs_equal!(enc_chunk(data) + rest, e + r);
    }
    lemma_parse_u64_of_enc(n, r);
    assert(r.take(n as int) == data) by {
        assert_seqs_equal!(r.take(n as int), data);
    }
    assert(r.skip(n as int) == rest) by {
        assert_seqs_equal!(r.skip(n as int), rest);
    }
}

/// Encoded headers written in front of any tail read back as themselves.
proof fn lemma_parse_headers_of_enc(hs: Seq<(Seq<u8>, Seq<u8>)>, rest: Seq<u8>)
    requires
        forall|i: int|
            0 <= i < hs.len() ==> fits_u64(#[trigger] hs[i].0.len()) && fits_u64(hs[i].1.len()),
    ensures
        parse_headers(enc_headers(hs) + rest, hs.len()) == Some((hs, rest)),
    decreases hs.len(),
{
    if hs.len() == 0 {
        assert(enc_headers(hs) + rest == rest) by {
            assert_seqs_equal!(enc_headers(hs) + rest, rest);
        }
    } else {
        let f = hs.first();
        let tail = hs.drop_first();
        let r2 = enc_headers(tail) + rest;
        let r1 = enc_chunk(f.1) + r2;
        assert(enc_headers(hs) + rest == enc_chunk(f.0) + r1) by {
            assert_seqs_equal!(enc_headers(hs) + rest, enc_chunk(f.0) + r1);
        }
        assert(fits_u64(f.0.len()) && fits_u64(f.1.len()));
        lemma_parse_chunk_of_enc(f.0, r1);
        lemma_parse_chunk_of_enc(f.1, r2);
        lemma_parse_headers_of_enc(tail, rest);
        assert((f.0, f.1) == f);
        assert(seq![f] + tail == hs) by {
            assert_seqs_equal!(seq![f] + tail, hs);
        }
    }
}

/// Parsing is a left inverse of encoding: every well-formed response
/// model reads back from its own blob, exactly.
pub proof fn lemma_parse_of_encode(m: RespModel)
    requires
        wf_model(m),
    ensures
        spec_parse(spec_encode(m)) == Some(m),
{
    let a = spec_u64_to_le_bytes(m.expires_at);
    let b = spec_u16_to_le_bytes(m.status);
    let c = spec_u64_to_le_bytes(m.headers.len() as u64);
    let h = enc_headers(m.headers);
    let k = enc_chunk(m.body);
    let s = spec_encode(m);
    let r3 = h + k;
    let r2 = c + r3;
    let r1 = b + r2;
    assert(s == a + r1) by {
        assert_seqs_equal!(spec_encode(m), a + (b + (c + (h + k))));
    }
    lemma_parse_u64_of_enc(m.expires_at, r1);
    lemma_parse_u16_of_enc(m.status, r2);
    lemma_parse_u64_of_enc(m.headers.len() as u64, r3);
    lemma_parse_headers_of_enc(m.headers, k);
    assert(k == enc_chunk(m.body) + Seq::<u8>::empty()) by {
        assert_seqs_equal!(k, enc_chunk(m.body) + Seq::<u8>::empty());
    }
    lemma_parse_chunk_of_enc(m.body, Seq::<u8>::empty());
    assert((m.headers.len() as u64) as nat == m.headers.len());
    assert(spec_parse(s) == Some(
        RespModel {
            status: m.status,
            headers: m.headers,
            body: m.body,
            expires_at: m.expires_at,
        },
    ));
    assert(RespModel {
        status: m.status,
        headers: m.headers,
        body: m.body,
        expires_at: m.expires_at,
    } == m);
}

/// Cache round trip: a blob encoded from a response with a positive
/// time-to-live, read back at any time within the window, yields a fresh
/// response equal to the original in status, headers and body.
pub proof fn lemma_cache_round_trip(m: RespModel, now: u64, ttl: u64, t: u64)
    requires
        wf_model(m),
        t <= spec_expiry(now, ttl),
    ensures
        spec_decode(spec_encode(spec_stamped(m, now, ttl)), t) == DecodeModel::Fresh(
            spec_stamped(m, now, ttl),
        ),
        spec_stamped(m, now, ttl).status == m.status,
        spec_stamped(m, now, ttl).headers == m.headers,
        spec_stamped(m, now, ttl).body == m.body,
{
    assert(spec_stamped(m, now, ttl).headers =~= m.headers);
    assert(wf_model(spec_stamped(m, now, ttl)));
    lemma_parse_of_encode(spec_stamped(m, now, ttl));
}

/// Expiry: the same blob read back at any time past the stamped expiry
/// yields `Expired`.
pub proof fn lemma_decode_expired(m: RespModel, now: u64, ttl: u64, t: u64)
    requires
        wf_model(m),
        t > spec_expiry(now, ttl),
    ensures
        spec_decode(spec_encode(spec_stamped(m, now, ttl)), t) == DecodeModel::Expired,
{
    assert(spec_stamped(m, now, ttl).headers =~= m.headers);
    assert(wf_model(spec_stamped(m, now, ttl)));
    lemma_parse_of_encode(spec_stamped(m, now, ttl));
}

/// Corruption isolation: bytes that do not follow the layout always
/// yield `Corrupt`, never a response and never a failure.
pub proof fn lemma_corrupt_isolated(s: Seq<u8>, now: u64)
    requires
        spec_parse(s) is None,
    ensures
        spec_decode(s, now) == DecodeModel::Corrupt,
{
}

} // verus!
