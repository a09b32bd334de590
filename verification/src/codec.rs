//! The byte encoding of the wire protocol. Every value is length-prefixed or
//! fixed-width — nothing depends on delimiter characters — and multi-byte
//! integers are big-endian. The decoder is specified against the encoder:
//! decoding what was encoded yields the original message.

use vstd::prelude::*;
use vstd::assert_seqs_equal;
use vstd::seq_lib::lemma_concat_associative;
use vstd::string::{StrSliceExecFns, StringSliceAdditionalSpecFns};
use vstd::utf8::{decode_utf8, encode_utf8, encode_utf8_decode_utf8, encode_utf8_valid_utf8,
    valid_utf8};
use crate::block::{Block, BlockView};
use crate::error::NetworkError;
use crate::protocol::{BlockTemplate, MessageView, P2PMessage, PeerInfo, PeerInfoView,
    TemplateView};
use crate::transaction::{Transaction, TxView};

verus! {

// --- one byte ---

pub open spec fn senc_u8(x: u8) -> Seq<u8> {
    seq![x]
}

pub open spec fn sdec_u8(b: Seq<u8>) -> Option<(u8, Seq<u8>)> {
    if b.len() >= 1 {
        Some((b[0], b.skip(1)))
    } else {
        None
    }
}

pub proof fn lemma_dec_u8(x: u8, rest: Seq<u8>)
    ensures
        sdec_u8(senc_u8(x) + rest) == Some((x, rest)),
{
    assert((senc_u8(x) + rest).skip(1) =~= rest);
}

// --- u32, big-endian ---

pub open spec fn senc_u32(x: u32) -> Seq<u8> {
    seq![
        ((x >> 24) & 0xff) as u8,
        ((x >> 16) & 0xff) as u8,
        ((x >> 8) & 0xff) as u8,
        (x & 0xff) as u8,
    ]
}

pub open spec fn be32(b0: u8, b1: u8, b2: u8, b3: u8) -> u32 {
    (b0 as u32) << 24 | (b1 as u32) << 16 | (b2 as u32) << 8 | (b3 as u32)
}

pub open spec fn sdec_u32(b: Seq<u8>) -> Option<(u32, Seq<u8>)> {
    if b.len() >= 4 {
        Some((be32(b[0], b[1], b[2], b[3]), b.skip(4)))
    } else {
        None
    }
}

pub proof fn lemma_be32_roundtrip(x: u32)
    ensures
        be32(
            ((x >> 24) & 0xff) as u8,
            ((x >> 16) & 0xff) as u8,
            ((x >> 8) & 0xff) as u8,
            (x & 0xff) as u8,
        ) == x,
{
    assert(((x >> 24) & 0xff) < 256 && ((x >> 16) & 0xff) < 256 && ((x >> 8) & 0xff) < 256 && (x
        & 0xff) < 256) by (bit_vector);
    let b0 = (x >> 24) & 0xff;
    let b1 = (x >> 16) & 0xff;
    let b2 = (x >> 8) & 0xff;
    let b3 = x & 0xff;
    assert(b0 as u8 as u32 == b0 && b1 as u8 as u32 == b1 && b2 as u8 as u32 == b2 && b3 as u8
        as u32 == b3);
    assert(((x >> 24) & 0xff) << 24 | ((x >> 16) & 0xff) << 16 | ((x >> 8) & 0xff) << 8 | (x & 0xff)
        == x) by (bit_vector);
}

pub proof fn lemma_dec_u32(x: u32, rest: Seq<u8>)
    ensures
        sdec_u32(senc_u32(x) + rest) == Some((x, rest)),
{
    lemma_be32_roundtrip(x);
    assert((senc_u32(x) + rest).skip(4) =~= rest);
}

// --- u64, big-endian ---

pub open spec fn senc_u64(x: u64) -> Seq<u8> {
    seq![
        ((x >> 56) & 0xff) as u8,
        ((x >> 48) & 0xff) as u8,
        ((x >> 40) & 0xff) as u8,
        ((x >> 32) & 0xff) as u8,
        ((x >> 24) & 0xff) as u8,
        ((x >> 16) & 0xff) as u8,
        ((x >> 8) & 0xff) as u8,
        (x & 0xff) as u8,
    ]
}

pub open spec fn be64(b: Seq<u8>) -> u64
    recommends
        b.len() == 8,
{
    (b[0] as u64) << 56 | (b[1] as u64) << 48 | (b[2] as u64) << 40 | (b[3] as u64) << 32 | (
    b[4] as u64) << 24 | (b[5] as u64) << 16 | (b[6] as u64) << 8 | (b[7] as u64)
}

pub open spec fn sdec_u64(b: Seq<u8>) -> Option<(u64, Seq<u8>)> {
    if b.len() >= 8 {
        Some((be64(b.take(8)), b.skip(8)))
    } else {
        None
    }
}

pub proof fn lemma_be64_roundtrip(x: u64)
    ensures
        be64(senc_u64(x)) == x,
{
    assert(((x >> 56) & 0xff) < 256 && ((x >> 48) & 0xff) < 256 && ((x >> 40) & 0xff) < 256 && ((x
        >> 32) & 0xff) < 256 && ((x >> 24) & 0xff) < 256 && ((x >> 16) & 0xff) < 256 && ((x >> 8)
        & 0xff) < 256 && (x & 0xff) < 256) by (bit_vector);
    assert(((x >> 56) & 0xff) << 56 | ((x >> 48) & 0xff) << 48 | ((x >> 40) & 0xff) << 40 | ((x
        >> 32) & 0xff) << 32 | ((x >> 24) & 0xff) << 24 | ((x >> 16) & 0xff) << 16 | ((x >> 8)
        & 0xff) << 8 | (x & 0xff) == x) by (bit_vector);
}

pub proof fn lemma_dec_u64(x: u64, rest: Seq<u8>)
    ensures
        sdec_u64(senc_u64(x) + rest) == Some((x, rest)),
{
    let b = senc_u64(x) + rest;
    assert(b.take(8) =~= senc_u64(x));
    lemma_be64_roundtrip(x);
    assert(b.skip(8) =~= rest);
}

// --- i64: a sign byte, then the magnitude ---

pub open spec fn senc_i64(x: i64) -> Seq<u8> {
    if x >= 0 {
        seq![0u8] + senc_u64(x as u64)
    } else {
        seq![1u8] + senc_u64((-(x as int)) as u64)
    }
}

pub open spec fn sdec_i64(b: Seq<u8>) -> Option<(i64, Seq<u8>)> {
    match sdec_u8(b) {
        Some((sign, rest)) => match sdec_u64(rest) {
            Some((mag, rest2)) => if sign == 0 && mag <= i64::MAX as u64 {
                Some((mag as i64, rest2))
            } else if sign == 1 && 1 <= mag <= 0x8000000000000000u64 {
                Some(((-(mag as int)) as i64, rest2))
            } else {
                None
            },
            None => None,
        },
        None => None,
    }
}

pub proof fn lemma_dec_i64(x: i64, rest: Seq<u8>)
    ensures
        sdec_i64(senc_i64(x) + rest) == Some((x, rest)),
{
    if x >= 0 {
        assert(senc_i64(x) == senc_u8(0u8) + senc_u64(x as u64));
        lemma_concat_associative(senc_u8(0u8), senc_u64(x as u64), rest);
        lemma_dec_u8(0u8, senc_u64(x as u64) + rest);
        lemma_dec_u64(x as u64, rest);
    } else {
        let mag = (-(x as int)) as u64;
        assert(senc_i64(x) == senc_u8(1u8) + senc_u64(mag));
        lemma_concat_associative(senc_u8(1u8), senc_u64(mag), rest);
        lemma_dec_u8(1u8, senc_u64(mag) + rest);
        lemma_dec_u64(mag, rest);
    }
}

// --- usize, carried as u64 ---

pub open spec fn senc_usize(x: usize) -> Seq<u8> {
    senc_u64(x as u64)
}

pub open spec fn sdec_usize(b: Seq<u8>) -> Option<(usize, Seq<u8>)> {
    match sdec_u64(b) {
        Some((v, rest)) => if v <= usize::MAX as u64 {
            Some((v as usize, rest))
        } else {
            None
        },
        None => None,
    }
}

pub proof fn lemma_dec_usize(x: usize, rest: Seq<u8>)
    ensures
        sdec_usize(senc_usize(x) + rest) == Some((x, rest)),
{
    lemma_dec_u64(x as u64, rest);
}

// --- strings: a u32 byte count, then UTF-8 bytes ---

/// Whether a string fits the length prefix.
pub open spec fn wf_str(s: Seq<char>) -> bool {
    encode_utf8(s).len() <= u32::MAX
}

pub open spec fn senc_str(s: Seq<char>) -> Seq<u8> {
    senc_u32(encode_utf8(s).len() as u32) + encode_utf8(s)
}

pub open spec fn sdec_str(b: Seq<u8>) -> Option<(Seq<char>, Seq<u8>)> {
    match sdec_u32(b) {
        Some((n, rest)) => if n <= rest.len() {
            if valid_utf8(rest.take(n as int)) {
                Some((decode_utf8(rest.take(n as int)), rest.skip(n as int)))
            } else {
                None
            }
        } else {
            None
        },
        None => None,
    }
}

pub proof fn lemma_dec_str(s: Seq<char>, rest: Seq<u8>)
    requires
        wf_str(s),
    ensures
        sdec_str(senc_str(s) + rest) == Some((s, rest)),
{
    let utf8 = encode_utf8(s);
    let n = utf8.len() as u32;
    assert(senc_str(s) == senc_u32(n) + utf8);
    lemma_concat_associative(senc_u32(n), utf8, rest);
    lemma_dec_u32(n, utf8 + rest);
    assert((utf8 + rest).take(n as int) =~= utf8);
    assert((utf8 + rest).skip(n as int) =~= rest);
    encode_utf8_valid_utf8(s);
    encode_utf8_decode_utf8(s);
}

// --- executable primitives ---

/// Relies on `str::from_utf8`: it succeeds exactly on valid UTF-8 input and
/// yields its decoding.
#[verifier::external_body]
fn bytes_to_str(v: &[u8]) -> (r: Option<&str>)
    ensures
        match r {
            Some(s) => valid_utf8(v@) && s@ == decode_utf8(v@),
            None => !valid_utf8(v@),
        },
{
    core::str::from_utf8(v).ok()
}

fn push_u8(out: &mut Vec<u8>, x: u8)
    ensures
        final(out)@ == old(out)@ + senc_u8(x),
{
    out.push(x);
    proof {
        assert(out@ =~= old(out)@ + senc_u8(x));
    }
}

fn push_u32(out: &mut Vec<u8>, x: u32)
    ensures
        final(out)@ == old(out)@ + senc_u32(x),
{
    out.push(((x >> 24) & 0xff) as u8);
    out.push(((x >> 16) & 0xff) as u8);
    out.push(((x >> 8) & 0xff) as u8);
    out.push((x & 0xff) as u8);
    proof {
        assert(out@ =~= old(out)@ + senc_u32(x));
    }
}

fn push_u64(out: &mut Vec<u8>, x: u64)
    ensures
        final(out)@ == old(out)@ + senc_u64(x),
{
    out.push(((x >> 56) & 0xff) as u8);
    out.push(((x >> 48) & 0xff) as u8);
    out.push(((x >> 40) & 0xff) as u8);
    out.push(((x >> 32) & 0xff) as u8);
    out.push(((x >> 24) & 0xff) as u8);
    out.push(((x >> 16) & 0xff) as u8);
    out.push(((x >> 8) & 0xff) as u8);
    out.push((x & 0xff) as u8);
    proof {
        assert(out@ =~= old(out)@ + senc_u64(x));
    }
}

fn push_i64(out: &mut Vec<u8>, x: i64)
    ensures
        final(out)@ == old(out)@ + senc_i64(x),
{
    if x >= 0 {
        push_u8(out, 0);
        push_u64(out, x as u64);
        proof {
            assert(out@ =~= old(out)@ + senc_i64(x));
        }
    } else {
        let mag: u64 = ((-(x + 1)) as u64) + 1;
        push_u8(out, 1);
        push_u64(out, mag);
        proof {
            assert(mag == (-(x as int)) as u64);
            assert(out@ =~= old(out)@ + senc_i64(x));
        }
    }
}

fn push_usize(out: &mut Vec<u8>, x: usize)
    ensures
        final(out)@ == old(out)@ + senc_usize(x),
{
    push_u64(out, x as u64);
}

fn push_str(out: &mut Vec<u8>, s: &str)
    requires
        wf_str(s@),
    ensures
        final(out)@ == old(out)@ + senc_str(s@),
{
    let bytes = s.as_bytes_vec();
    push_u32(out, bytes.len() as u32);
    let ghost mid = out@;
    let mut i: usize = 0;
    while i < bytes.len()
        invariant
            i <= bytes.len(),
            bytes@ == encode_utf8(s@),
            out@ == mid + bytes@.take(i as int),
        decreases bytes.len() - i,
    {
        out.push(bytes[i]);
        proof {
            assert(out@ =~= mid + bytes@.take(i as int + 1));
        }
        i += 1;
    }
    proof {
        assert(bytes@.take(bytes@.len() as int) =~= bytes@);
        assert(out@ =~= old(out)@ + senc_str(s@));
    }
}

/// Reads one byte at the cursor.
fn read_u8(b: &[u8], i: usize) -> (r: Option<(u8, usize)>)
    requires
        i <= b@.len(),
    ensures
        match r {
            Some((v, j)) => i <= j <= b@.len() && sdec_u8(b@.skip(i as int)) == Some((
                v,
                b@.skip(j as int),
            )),
            None => sdec_u8(b@.skip(i as int)) is None,
        },
{
    if b.len() - i >= 1 {
        let v = b[i];
        proof {
            assert(b@.skip(i as int)[0] == v);
            assert(b@.skip(i as int).skip(1) =~= b@.skip(i as int + 1));
        }
        Some((v, i + 1))
    } else {
        None
    }
}

/// Reads a big-endian u32 at the cursor.
fn read_u32(b: &[u8], i: usize) -> (r: Option<(u32, usize)>)
    requires
        i <= b@.len(),
    ensures
        match r {
            Some((v, j)) => i <= j <= b@.len() && sdec_u32(b@.skip(i as int)) == Some((
                v,
                b@.skip(j as int),
            )),
            None => sdec_u32(b@.skip(i as int)) is None,
        },
{
    if b.len() - i >= 4 {
        let v = (b[i] as u32) << 24 | (b[i + 1] as u32) << 16 | (b[i + 2] as u32) << 8 | (b[i
            + 3] as u32);
        proof {
            let s = b@.skip(i as int);
            assert(s[0] == b@[i as int] && s[1] == b@[i as int + 1] && s[2] == b@[i as int + 2]
                && s[3] == b@[i as int + 3]);
            assert(s.skip(4) =~= b@.skip(i as int + 4));
        }
        Some((v, i + 4))
    } else {
        None
    }
}

/// Reads a big-endian u64 at the cursor.
fn read_u64(b: &[u8], i: usize) -> (r: Option<(u64, usize)>)
    requires
        i <= b@.len(),
    ensures
        match r {
            Some((v, j)) => i <= j <= b@.len() && sdec_u64(b@.skip(i as int)) == Some((
                v,
                b@.skip(j as int),
            )),
            None => sdec_u64(b@.skip(i as int)) is None,
        },
{
    if b.len() - i >= 8 {
        let v = (b[i] as u64) << 56 | (b[i + 1] as u64) << 48 | (b[i + 2] as u64) << 40 | (b[i
            + 3] as u64) << 32 | (b[i + 4] as u64) << 24 | (b[i + 5] as u64) << 16 | (b[i
            + 6] as u64) << 8 | (b[i + 7] as u64);
        proof {
            let s = b@.skip(i as int);
            assert(s.take(8) =~= b@.subrange(i as int, i as int + 8));
            assert(forall|k: int| 0 <= k < 8 ==> s.take(8)[k] == b@[i as int + k]);
            assert(s.skip(8) =~= b@.skip(i as int + 8));
            assert(be64(s.take(8)) == v);
        }
        Some((v, i + 8))
    } else {
        None
    }
}

/// Reads a sign-and-magnitude i64 at the cursor.
fn read_i64(b: &[u8], i: usize) -> (r: Option<(i64, usize)>)
    requires
        i <= b@.len(),
    ensures
        match r {
            Some((v, j)) => i <= j <= b@.len() && sdec_i64(b@.skip(i as int)) == Some((
                v,
                b@.skip(j as int),
            )),
            None => sdec_i64(b@.skip(i as int)) is None,
        },
{
    let (sign, j) = match read_u8(b, i) {
        Some(x) => x,
        None => {
            return None;
        },
    };
    let (mag, k) = match read_u64(b, j) {
        Some(x) => x,
        None => {
            return None;
        },
    };
    if sign == 0 && mag <= i64::MAX as u64 {
        Some((mag as i64, k))
    } else if sign == 1 && 1 <= mag && mag <= 0x8000000000000000u64 {
        let v: i64 = if mag == 0x8000000000000000u64 {
            i64::MIN
        } else {
            -((mag as i64))
        };
        proof {
            assert(v as int == -(mag as int));
        }
        Some((v, k))
    } else {
        None
    }
}

/// Reads a usize (carried as u64) at the cursor.
fn read_usize(b: &[u8], i: usize) -> (r: Option<(usize, usize)>)
    requires
        i <= b@.len(),
    ensures
        match r {
            Some((v, j)) => i <= j <= b@.len() && sdec_usize(b@.skip(i as int)) == Some((
                v,
                b@.skip(j as int),
            )),
            None => sdec_usize(b@.skip(i as int)) is None,
        },
{
    let (v, j) = match read_u64(b, i) {
        Some(x) => x,
        None => {
            return None;
        },
    };
    if v <= usize::MAX as u64 {
        Some((v as usize, j))
    } else {
        None
    }
}

/// Reads a length-prefixed UTF-8 string at the cursor.
fn read_string(b: &[u8], i: usize) -> (r: Option<(String, usize)>)
    requires
        i <= b@.len(),
    ensures
        match r {
            Some((v, j)) => i <= j <= b@.len() && sdec_str(b@.skip(i as int)) == Some((
                v@,
                b@.skip(j as int),
            )),
            None => sdec_str(b@.skip(i as int)) is None,
        },
{
    let (n, j) = match read_u32(b, i) {
        Some(x) => x,
        None => {
            return None;
        },
    };
    let n = n as usize;
    if n > b.len() - j {
        proof {
            let rest = b@.skip(j as int);
            assert(rest.len() == b@.len() - j);
        }
        return None;
    }
    let slice = &b[j..j + n];
    proof {
        assert(slice@ =~= b@.skip(j as int).take(n as int));
    }
    match bytes_to_str(slice) {
        Some(s) => {
            let owned = s.to_owned();
            proof {
                assert(b@.skip(j as int).skip(n as int) =~= b@.skip(j as int + n));
            }
            Some((owned, j + n))
        },
        None => None,
    }
}

// --- peers ---

/// Whether a peer entry fits the encoding.
pub open spec fn wf_peer(p: PeerInfoView) -> bool {
    wf_str(p.node_id) && wf_str(p.address)
}

pub open spec fn senc_peer(p: PeerInfoView) -> Seq<u8> {
    senc_str(p.node_id) + senc_str(p.address) + senc_u64(p.last_seen) + senc_usize(p.blocks_mined)
}

pub open spec fn sdec_peer(b: Seq<u8>) -> Option<(PeerInfoView, Seq<u8>)> {
    match sdec_str(b) {
        Some((node_id, b1)) => match sdec_str(b1) {
            Some((address, b2)) => match sdec_u64(b2) {
                Some((last_seen, b3)) => match sdec_usize(b3) {
                    Some((blocks_mined, b4)) => Some(
                        (PeerInfoView { node_id, address, last_seen, blocks_mined }, b4),
                    ),
                    None => None,
                },
                None => None,
            },
            None => None,
        },
        None => None,
    }
}

pub proof fn lemma_dec_peer(p: PeerInfoView, rest: Seq<u8>)
    requires
        wf_peer(p),
    ensures
        sdec_peer(senc_peer(p) + rest) == Some((p, rest)),
{
    let e1 = senc_str(p.node_id);
    let e2 = senc_str(p.address);
    let e3 = senc_u64(p.last_seen);
    let e4 = senc_usize(p.blocks_mined);
    lemma_concat_associative(e1 + e2 + e3, e4, rest);
    lemma_concat_associative(e1 + e2, e3, e4 + rest);
    lemma_concat_associative(e1, e2, e3 + (e4 + rest));
    lemma_dec_str(p.node_id, e2 + (e3 + (e4 + rest)));
    lemma_dec_str(p.address, e3 + (e4 + rest));
    lemma_dec_u64(p.last_seen, e4 + rest);
    lemma_dec_usize(p.blocks_mined, rest);
}

// --- blocks ---

/// Whether a block fits the encoding.
pub open spec fn wf_block(b: BlockView) -> bool {
    wf_str(b.previous_hash) && wf_str(b.data) && wf_str(b.hash)
}

pub open spec fn senc_block(b: BlockView) -> Seq<u8> {
    senc_str(b.previous_hash) + senc_i64(b.timestamp) + senc_u64(b.nonce) + senc_str(b.data)
        + senc_str(b.hash)
}

pub open spec fn sdec_block(b: Seq<u8>) -> Option<(BlockView, Seq<u8>)> {
    match sdec_str(b) {
        Some((previous_hash, b1)) => match sdec_i64(b1) {
            Some((timestamp, b2)) => match sdec_u64(b2) {
                Some((nonce, b3)) => match sdec_str(b3) {
                    Some((data, b4)) => match sdec_str(b4) {
                        Some((hash, b5)) => Some(
                            (BlockView { previous_hash, timestamp, nonce, data, hash }, b5),
                        ),
                        None => None,
                    },
                    None => None,
                },
                None => None,
            },
            None => None,
        },
        None => None,
    }
}

pub proof fn lemma_dec_block(b: BlockView, rest: Seq<u8>)
    requires
        wf_block(b),
    ensures
        sdec_block(senc_block(b) + rest) == Some((b, rest)),
{
    let e1 = senc_str(b.previous_hash);
    let e2 = senc_i64(b.timestamp);
    let e3 = senc_u64(b.nonce);
    let e4 = senc_str(b.data);
    let e5 = senc_str(b.hash);
    lemma_concat_associative(e1 + e2 + e3 + e4, e5, rest);
    lemma_concat_associative(e1 + e2 + e3, e4, e5 + rest);
    lemma_concat_associative(e1 + e2, e3, e4 + (e5 + rest));
    lemma_concat_associative(e1, e2, e3 + (e4 + (e5 + rest)));
    lemma_dec_str(b.previous_hash, e2 + (e3 + (e4 + (e5 + rest))));
    lemma_dec_i64(b.timestamp, e3 + (e4 + (e5 + rest)));
    lemma_dec_u64(b.nonce, e4 + (e5 + rest));
    lemma_dec_str(b.data, e5 + rest);
    lemma_dec_str(b.hash, rest);
}

// --- transactions ---

/// Whether a transaction fits the encoding.
pub open spec fn wf_tx(t: TxView) -> bool {
    wf_str(t.from) && wf_str(t.to) && wf_str(t.signature)
}

pub open spec fn senc_tx(t: TxView) -> Seq<u8> {
    senc_str(t.from) + senc_str(t.to) + senc_u64(t.amount) + senc_str(t.signature)
}

pub open spec fn sdec_tx(b: Seq<u8>) -> Option<(TxView, Seq<u8>)> {
    match sdec_str(b) {
        Some((from, b1)) => match sdec_str(b1) {
            Some((to, b2)) => match sdec_u64(b2) {
                Some((amount, b3)) => match sdec_str(b3) {
                    Some((signature, b4)) => Some((TxView { from, to, amount, signature }, b4)),
                    None => None,
                },
                None => None,
            },
            None => None,
        },
        None => None,
    }
}

pub proof fn lemma_dec_tx(t: TxView, rest: Seq<u8>)
    requires
        wf_tx(t),
    ensures
        sdec_tx(senc_tx(t) + rest) == Some((t, rest)),
{
    let e1 = senc_str(t.from);
    let e2 = senc_str(t.to);
    let e3 = senc_u64(t.amount);
    let e4 = senc_str(t.signature);
    lemma_concat_associative(e1 + e2 + e3, e4, rest);
    lemma_concat_associative(e1 + e2, e3, e4 + rest);
    lemma_concat_associative(e1, e2, e3 + (e4 + rest));
    lemma_dec_str(t.from, e2 + (e3 + (e4 + rest)));
    lemma_dec_str(t.to, e3 + (e4 + rest));
    lemma_dec_u64(t.amount, e4 + rest);
    lemma_dec_str(t.signature, rest);
}

// --- item sequences, front-recursive to match the decoder ---

pub open spec fn senc_peers(ps: Seq<PeerInfoView>) -> Seq<u8>
    decreases ps.len(),
{
    if ps.len() == 0 {
        Seq::<u8>::empty()
    } else {
        senc_peer(ps[0]) + senc_peers(ps.drop_first())
    }
}

pub open spec fn sdec_peers(b: Seq<u8>, count: int) -> Option<(Seq<PeerInfoView>, Seq<u8>)>
    decreases count,
{
    if count <= 0 {
        Some((Seq::<PeerInfoView>::empty(), b))
    } else {
        match sdec_peer(b) {
            Some((p, rest)) => match sdec_peers(rest, count - 1) {
                Some((ps, rest2)) => Some((seq![p] + ps, rest2)),
                None => None,
            },
            None => None,
        }
    }
}

/// Appending one more item extends the byte encoding at its end.
pub proof fn lemma_senc_peers_push(ps: Seq<PeerInfoView>, p: PeerInfoView)
    ensures
        senc_peers(ps.push(p)) == senc_peers(ps) + senc_peer(p),
    decreases ps.len(),
{
    broadcast use Seq::add_empty_left, Seq::add_empty_right;

    if ps.len() == 0 {
        assert(ps.push(p).drop_first() =~= Seq::<PeerInfoView>::empty());
        assert(ps.push(p)[0] == p);
        assert(senc_peers(ps.push(p)) == senc_peer(p) + senc_peers(Seq::<PeerInfoView>::empty()));
        assert(senc_peers(Seq::<PeerInfoView>::empty()) == Seq::<u8>::empty());
        assert(senc_peers(ps) == Seq::<u8>::empty());
        assert(senc_peers(ps.push(p)) == senc_peers(ps) + senc_peer(p));
    } else {
        assert(ps.push(p)[0] == ps[0]);
        assert(ps.push(p).drop_first() =~= ps.drop_first().push(p));
        assert(senc_peers(ps.push(p)) == senc_peer(ps[0]) + senc_peers(ps.drop_first().push(p)));
        lemma_senc_peers_push(ps.drop_first(), p);
        assert(senc_peers(ps.push(p)) == senc_peer(ps[0]) + (senc_peers(ps.drop_first()) + senc_peer(p)));
        lemma_concat_associative(senc_peer(ps[0]), senc_peers(ps.drop_first()), senc_peer(p));
        assert(senc_peers(ps) == senc_peer(ps[0]) + senc_peers(ps.drop_first()));
        assert(senc_peers(ps.push(p)) == senc_peers(ps) + senc_peer(p));
    }
}

pub proof fn lemma_dec_peers(ps: Seq<PeerInfoView>, rest: Seq<u8>)
    requires
        forall|i: int| 0 <= i < ps.len() ==> wf_peer(#[trigger] ps[i]),
    ensures
        sdec_peers(senc_peers(ps) + rest, ps.len() as int) == Some((ps, rest)),
    decreases ps.len(),
{
    if ps.len() == 0 {
        assert(senc_peers(ps) + rest =~= rest);
    } else {
        let tail = ps.drop_first();
        assert(senc_peers(ps) == senc_peer(ps[0]) + senc_peers(tail));
        lemma_concat_associative(senc_peer(ps[0]), senc_peers(tail), rest);
        lemma_dec_peer(ps[0], senc_peers(tail) + rest);
        lemma_dec_peers(tail, rest);
        assert(seq![ps[0]] + tail =~= ps);
    }
}

pub open spec fn senc_blocks(bs: Seq<BlockView>) -> Seq<u8>
    decreases bs.len(),
{
    if bs.len() == 0 {
        Seq::<u8>::empty()
    } else {
        senc_block(bs[0]) + senc_blocks(bs.drop_first())
    }
}

pub open spec fn sdec_blocks(b: Seq<u8>, count: int) -> Option<(Seq<BlockView>, Seq<u8>)>
    decreases count,
{
    if count <= 0 {
        Some((Seq::<BlockView>::empty(), b))
    } else {
        match sdec_block(b) {
            Some((x, rest)) => match sdec_blocks(rest, count - 1) {
                Some((xs, rest2)) => Some((seq![x] + xs, rest2)),
                None => None,
            },
            None => None,
        }
    }
}

pub proof fn lemma_senc_blocks_push(bs: Seq<BlockView>, x: BlockView)
    ensures
        senc_blocks(bs.push(x)) == senc_blocks(bs) + senc_block(x),
    decreases bs.len(),
{
    broadcast use Seq::add_empty_left, Seq::add_empty_right;

    if bs.len() == 0 {
        assert(bs.push(x).drop_first() =~= Seq::<BlockView>::empty());
        assert(bs.push(x)[0] == x);
        assert(senc_blocks(bs.push(x)) == senc_block(x) + senc_blocks(Seq::<BlockView>::empty()));
        assert(senc_blocks(Seq::<BlockView>::empty()) == Seq::<u8>::empty());
        assert(senc_blocks(bs) == Seq::<u8>::empty());
        assert(senc_blocks(bs.push(x)) == senc_blocks(bs) + senc_block(x));
    } else {
        assert(bs.push(x)[0] == bs[0]);
        assert(bs.push(x).drop_first() =~= bs.drop_first().push(x));
        assert(senc_blocks(bs.push(x)) == senc_block(bs[0]) + senc_blocks(bs.drop_first().push(x)));
        lemma_senc_blocks_push(bs.drop_first(), x);
        assert(senc_blocks(bs.push(x)) == senc_block(bs[0]) + (senc_blocks(bs.drop_first()) + senc_block(x)));
        lemma_concat_associative(senc_block(bs[0]), senc_blocks(bs.drop_first()), senc_block(x));
        assert(senc_blocks(bs) == senc_block(bs[0]) + senc_blocks(bs.drop_first()));
        assert(senc_blocks(bs.push(x)) == senc_blocks(bs) + senc_block(x));
    }
}

pub proof fn lemma_dec_blocks(bs: Seq<BlockView>, rest: Seq<u8>)
    requires
        forall|i: int| 0 <= i < bs.len() ==> wf_block(#[trigger] bs[i]),
    ensures
        sdec_blocks(senc_blocks(bs) + rest, bs.len() as int) == Some((bs, rest)),
    decreases bs.len(),
{
    if bs.len() == 0 {
        assert(senc_blocks(bs) + rest =~= rest);
    } else {
        let tail = bs.drop_first();
        assert(senc_blocks(bs) == senc_block(bs[0]) + senc_blocks(tail));
        lemma_concat_associative(senc_block(bs[0]), senc_blocks(tail), rest);
        lemma_dec_block(bs[0], senc_blocks(tail) + rest);
        lemma_dec_blocks(tail, rest);
        assert(seq![bs[0]] + tail =~= bs);
    }
}

pub open spec fn senc_strs(ss: Seq<Seq<char>>) -> Seq<u8>
    decreases ss.len(),
{
    if ss.len() == 0 {
        Seq::<u8>::empty()
    } else {
        senc_str(ss[0]) + senc_strs(ss.drop_first())
    }
}

pub open spec fn sdec_strs(b: Seq<u8>, count: int) -> Option<(Seq<Seq<char>>, Seq<u8>)>
    decreases count,
{
    if count <= 0 {
        Some((Seq::<Seq<char>>::empty(), b))
    } else {
        match sdec_str(b) {
            Some((s, rest)) => match sdec_strs(rest, count - 1) {
                Some((ss, rest2)) => Some((seq![s] + ss, rest2)),
                None => None,
            },
            None => None,
        }
    }
}

pub proof fn lemma_senc_strs_push(ss: Seq<Seq<char>>, s: Seq<char>)
    ensures
        senc_strs(ss.push(s)) == senc_strs(ss) + senc_str(s),
    decreases ss.len(),
{
    broadcast use Seq::add_empty_left, Seq::add_empty_right;

    if ss.len() == 0 {
        assert(ss.push(s).drop_first() =~= Seq::<Seq<char>>::empty());
        assert(ss.push(s)[0] == s);
        assert(senc_strs(ss.push(s)) == senc_str(s) + senc_strs(Seq::<Seq<char>>::empty()));
        assert(senc_strs(Seq::<Seq<char>>::empty()) == Seq::<u8>::empty());
        assert(senc_strs(ss) == Seq::<u8>::empty());
        assert(senc_strs(ss.push(s)) == senc_strs(ss) + senc_str(s));
    } else {
        assert(ss.push(s)[0] == ss[0]);
        assert(ss.push(s).drop_first() =~= ss.drop_first().push(s));
        assert(senc_strs(ss.push(s)) == senc_str(ss[0]) + senc_strs(ss.drop_first().push(s)));
        lemma_senc_strs_push(ss.drop_first(), s);
        assert(senc_strs(ss.push(s)) == senc_str(ss[0]) + (senc_strs(ss.drop_first()) + senc_str(s)));
        lemma_concat_associative(senc_str(ss[0]), senc_strs(ss.drop_first()), senc_str(s));
        assert(senc_strs(ss) == senc_str(ss[0]) + senc_strs(ss.drop_first()));
        assert(senc_strs(ss.push(s)) == senc_strs(ss) + senc_str(s));
    }
}

pub proof fn lemma_dec_strs(ss: Seq<Seq<char>>, rest: Seq<u8>)
    requires
        forall|i: int| 0 <= i < ss.len() ==> wf_str(#[trigger] ss[i]),
    ensures
        sdec_strs(senc_strs(ss) + rest, ss.len() as int) == Some((ss, rest)),
    decreases ss.len(),
{
    if ss.len() == 0 {
        assert(senc_strs(ss) + rest =~= rest);
    } else {
        let tail = ss.drop_first();
        assert(senc_strs(ss) == senc_str(ss[0]) + senc_strs(tail));
        lemma_concat_associative(senc_str(ss[0]), senc_strs(tail), rest);
        lemma_dec_str(ss[0], senc_strs(tail) + rest);
        lemma_dec_strs(tail, rest);
        assert(seq![ss[0]] + tail =~= ss);
    }
}

// --- executable struct readers and writers ---

fn read_peer(b: &[u8], i: usize) -> (r: Option<(PeerInfo, usize)>)
    requires
        i <= b@.len(),
    ensures
        match r {
            Some((v, j)) => i <= j <= b@.len() && sdec_peer(b@.skip(i as int)) == Some((
                v@,
                b@.skip(j as int),
            )),
            None => sdec_peer(b@.skip(i as int)) is None,
        },
{
    let (node_id, i1) = match read_string(b, i) {
        Some(x) => x,
        None => {
            return None;
        },
    };
    let (address, i2) = match read_string(b, i1) {
        Some(x) => x,
        None => {
            return None;
        },
    };
    let (last_seen, i3) = match read_u64(b, i2) {
        Some(x) => x,
        None => {
            return None;
        },
    };
    let (blocks_mined, i4) = match read_usize(b, i3) {
        Some(x) => x,
        None => {
            return None;
        },
    };
    Some((PeerInfo { node_id, address, last_seen, blocks_mined }, i4))
}

fn read_block(b: &[u8], i: usize) -> (r: Option<(Block, usize)>)
    requires
        i <= b@.len(),
    ensures
        match r {
            Some((v, j)) => i <= j <= b@.len() && sdec_block(b@.skip(i as int)) == Some((
                v@,
                b@.skip(j as int),
            )),
            None => sdec_block(b@.skip(i as int)) is None,
        },
{
    let (previous_hash, i1) = match read_string(b, i) {
        Some(x) => x,
        None => {
            return None;
        },
    };
    let (timestamp, i2) = match read_i64(b, i1) {
        Some(x) => x,
        None => {
            return None;
        },
    };
    let (nonce, i3) = match read_u64(b, i2) {
        Some(x) => x,
        None => {
            return None;
        },
    };
    let (data, i4) = match read_string(b, i3) {
        Some(x) => x,
        None => {
            return None;
        },
    };
    let (hash, i5) = match read_string(b, i4) {
        Some(x) => x,
        None => {
            return None;
        },
    };
    Some((Block { previous_hash, timestamp, nonce, data, hash }, i5))
}

fn read_tx(b: &[u8], i: usize) -> (r: Option<(Transaction, usize)>)
    requires
        i <= b@.len(),
    ensures
        match r {
            Some((v, j)) => i <= j <= b@.len() && sdec_tx(b@.skip(i as int)) == Some((
                v@,
                b@.skip(j as int),
            )),
            None => sdec_tx(b@.skip(i as int)) is None,
        },
{
    let (from, i1) = match read_string(b, i) {
        Some(x) => x,
        None => {
            return None;
        },
    };
    let (to, i2) = match read_string(b, i1) {
        Some(x) => x,
        None => {
            return None;
        },
    };
    let (amount, i3) = match read_u64(b, i2) {
        Some(x) => x,
        None => {
            return None;
        },
    };
    let (signature, i4) = match read_string(b, i3) {
        Some(x) => x,
        None => {
            return None;
        },
    };
    Some((Transaction { from, to, amount, signature }, i4))
}

fn push_peer(out: &mut Vec<u8>, p: &PeerInfo)
    requires
        wf_peer(p@),
    ensures
        final(out)@ == old(out)@ + senc_peer(p@),
{
    push_str(out, p.node_id.as_str());
    push_str(out, p.address.as_str());
    push_u64(out, p.last_seen);
    push_usize(out, p.blocks_mined);
    proof {
        assert(out@ =~= old(out)@ + senc_peer(p@));
    }
}

fn push_block(out: &mut Vec<u8>, b: &Block)
    requires
        wf_block(b@),
    ensures
        final(out)@ == old(out)@ + senc_block(b@),
{
    push_str(out, b.previous_hash.as_str());
    push_i64(out, b.timestamp);
    push_u64(out, b.nonce);
    push_str(out, b.data.as_str());
    push_str(out, b.hash.as_str());
    proof {
        assert(out@ =~= old(out)@ + senc_block(b@));
    }
}

fn push_tx(out: &mut Vec<u8>, t: &Transaction)
    requires
        wf_tx(t@),
    ensures
        final(out)@ == old(out)@ + senc_tx(t@),
{
    push_str(out, t.from.as_str());
    push_str(out, t.to.as_str());
    push_u64(out, t.amount);
    push_str(out, t.signature.as_str());
    proof {
        assert(out@ =~= old(out)@ + senc_tx(t@));
    }
}

// --- executable vector readers and writers ---

#[verifier::rlimit(50)]
fn read_peers(b: &[u8], i: usize, count: u32) -> (r: Option<(Vec<PeerInfo>, usize)>)
    requires
        i <= b@.len(),
    ensures
        match r {
            Some((v, j)) => i <= j <= b@.len() && sdec_peers(b@.skip(i as int), count as int)
                == Some((v.deep_view(), b@.skip(j as int))),
            None => sdec_peers(b@.skip(i as int), count as int) is None,
        },
{
    let mut acc: Vec<PeerInfo> = Vec::new();
    let ghost mut accv: Seq<PeerInfoView> = Seq::<PeerInfoView>::empty();
    let mut cur = i;
    let mut remaining = count;
    proof {
        assert(acc.deep_view() =~= accv);
        assert(accv + Seq::<PeerInfoView>::empty() =~= accv);
    }
    while remaining > 0
        invariant
            i <= cur <= b@.len(),
            acc.deep_view() == accv,
            match sdec_peers(b@.skip(cur as int), remaining as int) {
                Some((tail, rest)) => sdec_peers(b@.skip(i as int), count as int) == Some((
                    accv + tail,
                    rest,
                )),
                None => sdec_peers(b@.skip(i as int), count as int) is None,
            },
        decreases remaining,
    {
        let (p, j) = match read_peer(b, cur) {
            Some(x) => x,
            None => {
                return None;
            },
        };
        proof {
            let ghost pv = p@;
            if let Some((tail2, rest2)) = sdec_peers(b@.skip(j as int), remaining as int - 1) {
                assert((accv + (seq![pv] + tail2)) =~= ((accv.push(pv)) + tail2));
            }
            accv = accv.push(p@);
        }
        let ghost prevraw = acc@;
        let ghost prev = acc.deep_view();
        acc.push(p);
        proof {
            assert(acc@.len() == prevraw.len() + 1);
            assert(acc.deep_view().len() == acc@.len());
            assert_seqs_equal!(acc.deep_view() == accv, k => {
                if k < prevraw.len() {
                    assert(acc@[k] == prevraw[k]);
                    assert(acc.deep_view()[k] == prev[k]);
                } else {
                    assert(acc@[k] == acc@.last());
                }
            });
        }
        cur = j;
        remaining -= 1;
    }
    proof {
        assert(accv + Seq::<PeerInfoView>::empty() =~= accv);
    }
    Some((acc, cur))
}

#[verifier::rlimit(50)]
fn read_blocks(b: &[u8], i: usize, count: u32) -> (r: Option<(Vec<Block>, usize)>)
    requires
        i <= b@.len(),
    ensures
        match r {
            Some((v, j)) => i <= j <= b@.len() && sdec_blocks(b@.skip(i as int), count as int)
                == Some((v.deep_view(), b@.skip(j as int))),
            None => sdec_blocks(b@.skip(i as int), count as int) is None,
        },
{
    let mut acc: Vec<Block> = Vec::new();
    let ghost mut accv: Seq<BlockView> = Seq::<BlockView>::empty();
    let mut cur = i;
    let mut remaining = count;
    proof {
        assert(acc.deep_view() =~= accv);
        assert(accv + Seq::<BlockView>::empty() =~= accv);
    }
    while remaining > 0
        invariant
            i <= cur <= b@.len(),
            acc.deep_view() == accv,
            match sdec_blocks(b@.skip(cur as int), remaining as int) {
                Some((tail, rest)) => sdec_blocks(b@.skip(i as int), count as int) == Some((
                    accv + tail,
                    rest,
                )),
                None => sdec_blocks(b@.skip(i as int), count as int) is None,
            },
        decreases remaining,
    {
        let (x, j) = match read_block(b, cur) {
            Some(y) => y,
            None => {
                return None;
            },
        };
        proof {
            let ghost xv = x@;
            if let Some((tail2, rest2)) = sdec_blocks(b@.skip(j as int), remaining as int - 1) {
                assert((accv + (seq![xv] + tail2)) =~= ((accv.push(xv)) + tail2));
            }
            accv = accv.push(x@);
        }
        let ghost prevraw = acc@;
        let ghost prev = acc.deep_view();
        acc.push(x);
        proof {
            assert(acc@.len() == prevraw.len() + 1);
            assert(acc.deep_view().len() == acc@.len());
            assert_seqs_equal!(acc.deep_view() == accv, k => {
                if k < prevraw.len() {
                    assert(acc@[k] == prevraw[k]);
                    assert(acc.deep_view()[k] == prev[k]);
                } else {
                    assert(acc@[k] == acc@.last());
                }
            });
        }
        cur = j;
        remaining -= 1;
    }
    proof {
        assert(accv + Seq::<BlockView>::empty() =~= accv);
    }
    Some((acc, cur))
}

#[verifier::rlimit(50)]
fn read_strings(b: &[u8], i: usize, count: u32) -> (r: Option<(Vec<String>, usize)>)
    requires
        i <= b@.len(),
    ensures
        match r {
            Some((v, j)) => i <= j <= b@.len() && sdec_strs(b@.skip(i as int), count as int)
                == Some((v.deep_view(), b@.skip(j as int))),
            None => sdec_strs(b@.skip(i as int), count as int) is None,
        },
{
    let mut acc: Vec<String> = Vec::new();
    let ghost mut accv: Seq<Seq<char>> = Seq::<Seq<char>>::empty();
    let mut cur = i;
    let mut remaining = count;
    proof {
        assert(acc.deep_view() =~= accv);
        assert(accv + Seq::<Seq<char>>::empty() =~= accv);
    }
    while remaining > 0
        invariant
            i <= cur <= b@.len(),
            acc.deep_view() == accv,
            match sdec_strs(b@.skip(cur as int), remaining as int) {
                Some((tail, rest)) => sdec_strs(b@.skip(i as int), count as int) == Some((
                    accv + tail,
                    rest,
                )),
                None => sdec_strs(b@.skip(i as int), count as int) is None,
            },
        decreases remaining,
    {
        let (s, j) = match read_string(b, cur) {
            Some(y) => y,
            None => {
                return None;
            },
        };
        proof {
            let ghost sv = s@;
            if let Some((tail2, rest2)) = sdec_strs(b@.skip(j as int), remaining as int - 1) {
                assert((accv + (seq![sv] + tail2)) =~= ((accv.push(sv)) + tail2));
            }
            accv = accv.push(s@);
        }
        let ghost prevraw = acc@;
        let ghost prev = acc.deep_view();
        acc.push(s);
        proof {
            assert(acc@.len() == prevraw.len() + 1);
            assert(acc.deep_view().len() == acc@.len());
            assert_seqs_equal!(acc.deep_view() == accv, k => {
                if k < prevraw.len() {
                    assert(acc@[k] == prevraw[k]);
                    assert(acc.deep_view()[k] == prev[k]);
                } else {
                    assert(acc@[k] == acc@.last());
                }
            });
        }
        cur = j;
        remaining -= 1;
    }
    proof {
        assert(accv + Seq::<Seq<char>>::empty() =~= accv);
    }
    Some((acc, cur))
}

fn push_peers(out: &mut Vec<u8>, peers: &Vec<PeerInfo>)
    requires
        forall|k: int| 0 <= k < peers.deep_view().len() ==> wf_peer(#[trigger] peers.deep_view()[k]),
        peers@.len() <= u32::MAX,
    ensures
        final(out)@ == old(out)@ + senc_u32(peers@.len() as u32) + senc_peers(peers.deep_view()),
{
    let ghost pv = peers.deep_view();
    push_u32(out, peers.len() as u32);
    let ghost mid = out@;
    let mut k: usize = 0;
    proof {
        assert(senc_peers(pv.take(0)) =~= Seq::<u8>::empty());
        assert(mid + Seq::<u8>::empty() =~= mid);
    }
    while k < peers.len()
        invariant
            k <= peers.len(),
            pv == peers.deep_view(),
            pv.len() == peers@.len(),
            forall|m: int| 0 <= m < pv.len() ==> wf_peer(#[trigger] pv[m]),
            out@ == mid + senc_peers(pv.take(k as int)),
        decreases peers.len() - k,
    {
        proof {
            assert(pv[k as int] == peers@[k as int]@);
        }
        push_peer(out, &peers[k]);
        proof {
            assert(pv.take(k as int).push(pv[k as int]) =~= pv.take(k as int + 1));
            lemma_senc_peers_push(pv.take(k as int), pv[k as int]);
            lemma_concat_associative(mid, senc_peers(pv.take(k as int)), senc_peer(pv[k as int]));
        }
        k += 1;
    }
    proof {
        assert(pv.take(pv.len() as int) =~= pv);
    }
}

fn push_blocks(out: &mut Vec<u8>, blocks: &Vec<Block>)
    requires
        forall|k: int|
            0 <= k < blocks.deep_view().len() ==> wf_block(#[trigger] blocks.deep_view()[k]),
        blocks@.len() <= u32::MAX,
    ensures
        final(out)@ == old(out)@ + senc_u32(blocks@.len() as u32) + senc_blocks(blocks.deep_view()),
{
    let ghost bv = blocks.deep_view();
    push_u32(out, blocks.len() as u32);
    let ghost mid = out@;
    let mut k: usize = 0;
    proof {
        assert(senc_blocks(bv.take(0)) =~= Seq::<u8>::empty());
        assert(mid + Seq::<u8>::empty() =~= mid);
    }
    while k < blocks.len()
        invariant
            k <= blocks.len(),
            bv == blocks.deep_view(),
            bv.len() == blocks@.len(),
            forall|m: int| 0 <= m < bv.len() ==> wf_block(#[trigger] bv[m]),
            out@ == mid + senc_blocks(bv.take(k as int)),
        decreases blocks.len() - k,
    {
        proof {
            assert(bv[k as int] == blocks@[k as int]@);
        }
        push_block(out, &blocks[k]);
        proof {
            assert(bv.take(k as int).push(bv[k as int]) =~= bv.take(k as int + 1));
            lemma_senc_blocks_push(bv.take(k as int), bv[k as int]);
            lemma_concat_associative(mid, senc_blocks(bv.take(k as int)), senc_block(bv[k as int]));
        }
        k += 1;
    }
    proof {
        assert(bv.take(bv.len() as int) =~= bv);
    }
}

fn push_strings(out: &mut Vec<u8>, strings: &Vec<String>)
    requires
        forall|k: int|
            0 <= k < strings.deep_view().len() ==> wf_str(#[trigger] strings.deep_view()[k]),
        strings@.len() <= u32::MAX,
    ensures
        final(out)@ == old(out)@ + senc_u32(strings@.len() as u32) + senc_strs(strings.deep_view()),
{
    let ghost sv = strings.deep_view();
    push_u32(out, strings.len() as u32);
    let ghost mid = out@;
    let mut k: usize = 0;
    proof {
        assert(senc_strs(sv.take(0)) =~= Seq::<u8>::empty());
        assert(mid + Seq::<u8>::empty() =~= mid);
    }
    while k < strings.len()
        invariant
            k <= strings.len(),
            sv == strings.deep_view(),
            sv.len() == strings@.len(),
            forall|m: int| 0 <= m < sv.len() ==> wf_str(#[trigger] sv[m]),
            out@ == mid + senc_strs(sv.take(k as int)),
        decreases strings.len() - k,
    {
        proof {
            assert(sv[k as int] == strings@[k as int]@);
        }
        push_str(out, strings[k].as_str());
        proof {
            assert(sv.take(k as int).push(sv[k as int]) =~= sv.take(k as int + 1));
            lemma_senc_strs_push(sv.take(k as int), sv[k as int]);
            lemma_concat_associative(mid, senc_strs(sv.take(k as int)), senc_str(sv[k as int]));
        }
        k += 1;
    }
    proof {
        assert(sv.take(sv.len() as int) =~= sv);
    }
}

// --- block templates ---

/// Whether a template fits the encoding.
pub open spec fn wf_template(t: TemplateView) -> bool {
    &&& wf_str(t.previous_hash)
    &&& t.transactions.len() <= u32::MAX
    &&& forall|i: int| 0 <= i < t.transactions.len() ==> wf_str(#[trigger] t.transactions[i])
}

pub open spec fn senc_template(t: TemplateView) -> Seq<u8> {
    senc_str(t.previous_hash) + senc_u32(t.transactions.len() as u32) + senc_strs(t.transactions)
        + senc_usize(t.difficulty) + senc_i64(t.timestamp) + senc_usize(t.block_number)
}

pub open spec fn sdec_template(b: Seq<u8>) -> Option<(TemplateView, Seq<u8>)> {
    match sdec_str(b) {
        Some((previous_hash, b1)) => match sdec_u32(b1) {
            Some((n, b2)) => match sdec_strs(b2, n as int) {
                Some((transactions, b3)) => match sdec_usize(b3) {
                    Some((difficulty, b4)) => match sdec_i64(b4) {
                        Some((timestamp, b5)) => match sdec_usize(b5) {
                            Some((block_number, b6)) => Some(
                                (
                                    TemplateView {
                                        previous_hash,
                                        transactions,
                                        difficulty,
                                        timestamp,
                                        block_number,
                                    },
                                    b6,
                                ),
                            ),
                            None => None,
                        },
                        None => None,
                    },
                    None => None,
                },
                None => None,
            },
            None => None,
        },
        None => None,
    }
}

pub proof fn lemma_dec_template(t: TemplateView, rest: Seq<u8>)
    requires
        wf_template(t),
    ensures
        sdec_template(senc_template(t) + rest) == Some((t, rest)),
{
    let e1 = senc_str(t.previous_hash);
    let e2 = senc_u32(t.transactions.len() as u32);
    let e3 = senc_strs(t.transactions);
    let e4 = senc_usize(t.difficulty);
    let e5 = senc_i64(t.timestamp);
    let e6 = senc_usize(t.block_number);
    lemma_concat_associative(e1 + e2 + e3 + e4 + e5, e6, rest);
    lemma_concat_associative(e1 + e2 + e3 + e4, e5, e6 + rest);
    lemma_concat_associative(e1 + e2 + e3, e4, e5 + (e6 + rest));
    lemma_concat_associative(e1 + e2, e3, e4 + (e5 + (e6 + rest)));
    lemma_concat_associative(e1, e2, e3 + (e4 + (e5 + (e6 + rest))));
    lemma_dec_str(t.previous_hash, e2 + (e3 + (e4 + (e5 + (e6 + rest)))));
    lemma_dec_u32(t.transactions.len() as u32, e3 + (e4 + (e5 + (e6 + rest))));
    lemma_dec_strs(t.transactions, e4 + (e5 + (e6 + rest)));
    lemma_dec_usize(t.difficulty, e5 + (e6 + rest));
    lemma_dec_i64(t.timestamp, e6 + rest);
    lemma_dec_usize(t.block_number, rest);
}

fn read_template(b: &[u8], i: usize) -> (r: Option<(BlockTemplate, usize)>)
    requires
        i <= b@.len(),
    ensures
        match r {
            Some((v, j)) => i <= j <= b@.len() && sdec_template(b@.skip(i as int)) == Some((
                v@,
                b@.skip(j as int),
            )),
            None => sdec_template(b@.skip(i as int)) is None,
        },
{
    let (previous_hash, i1) = match read_string(b, i) {
        Some(x) => x,
        None => {
            return None;
        },
    };
    let (n, i2) = match read_u32(b, i1) {
        Some(x) => x,
        None => {
            return None;
        },
    };
    let (transactions, i3) = match read_strings(b, i2, n) {
        Some(x) => x,
        None => {
            return None;
        },
    };
    let (difficulty, i4) = match read_usize(b, i3) {
        Some(x) => x,
        None => {
            return None;
        },
    };
    let (timestamp, i5) = match read_i64(b, i4) {
        Some(x) => x,
        None => {
            return None;
        },
    };
    let (block_number, i6) = match read_usize(b, i5) {
        Some(x) => x,
        None => {
            return None;
        },
    };
    Some((BlockTemplate { previous_hash, transactions, difficulty, timestamp, block_number }, i6))
}

fn push_template(out: &mut Vec<u8>, t: &BlockTemplate)
    requires
        wf_template(t@),
    ensures
        final(out)@ == old(out)@ + senc_template(t@),
{
    push_str(out, t.previous_hash.as_str());
    push_strings(out, &t.transactions);
    push_usize(out, t.difficulty);
    push_i64(out, t.timestamp);
    push_usize(out, t.block_number);
    proof {
        assert(out@ =~= old(out)@ + senc_template(t@));
    }
}

// --- the message envelope ---

/// Whether a message fits the encoding: every string fits its length prefix
/// and every list its count prefix.
pub open spec fn wf_msg(m: MessageView) -> bool {
    match m {
        MessageView::Join { node_id, address, timestamp } => wf_str(node_id) && wf_str(address),
        MessageView::PeerList { peers } => peers.len() <= u32::MAX && forall|i: int|
            0 <= i < peers.len() ==> wf_peer(#[trigger] peers[i]),
        MessageView::RequestBlockchain { requester_id } => wf_str(requester_id),
        MessageView::BlockchainSync { chain } => chain.len() <= u32::MAX && forall|i: int|
            0 <= i < chain.len() ==> wf_block(#[trigger] chain[i]),
        MessageView::MiningStart { template } => wf_template(template),
        MessageView::MiningStop => true,
        MessageView::NewBlock { block, miner_id } => wf_block(block) && wf_str(miner_id),
        MessageView::NewTransaction { transaction, from_node } => wf_tx(transaction) && wf_str(
            from_node,
        ),
        MessageView::Heartbeat { node_id, timestamp } => wf_str(node_id),
        MessageView::Pong { node_id } => wf_str(node_id),
    }
}

pub open spec fn senc_msg(m: MessageView) -> Seq<u8> {
    match m {
        MessageView::Join { node_id, address, timestamp } => senc_u8(0) + senc_str(node_id)
            + senc_str(address) + senc_u64(timestamp),
        MessageView::PeerList { peers } => senc_u8(1) + senc_u32(peers.len() as u32) + senc_peers(
            peers,
        ),
        MessageView::RequestBlockchain { requester_id } => senc_u8(2) + senc_str(requester_id),
        MessageView::BlockchainSync { chain } => senc_u8(3) + senc_u32(chain.len() as u32)
            + senc_blocks(chain),
        MessageView::MiningStart { template } => senc_u8(4) + senc_template(template),
        MessageView::MiningStop => senc_u8(5),
        MessageView::NewBlock { block, miner_id } => senc_u8(6) + senc_block(block) + senc_str(
            miner_id,
        ),
        MessageView::NewTransaction { transaction, from_node } => senc_u8(7) + senc_tx(transaction)
            + senc_str(from_node),
        MessageView::Heartbeat { node_id, timestamp } => senc_u8(8) + senc_str(node_id) + senc_u64(
            timestamp,
        ),
        MessageView::Pong { node_id } => senc_u8(9) + senc_str(node_id),
    }
}

pub open spec fn sdec_msg(b: Seq<u8>) -> Option<(MessageView, Seq<u8>)> {
    match sdec_u8(b) {
        Some((tag, b0)) => if tag == 0 {
            match sdec_str(b0) {
                Some((node_id, b1)) => match sdec_str(b1) {
                    Some((address, b2)) => match sdec_u64(b2) {
                        Some((timestamp, b3)) => Some(
                            (MessageView::Join { node_id, address, timestamp }, b3),
                        ),
                        None => None,
                    },
                    None => None,
                },
                None => None,
            }
        } else if tag == 1 {
            match sdec_u32(b0) {
                Some((n, b1)) => match sdec_peers(b1, n as int) {
                    Some((peers, b2)) => Some((MessageView::PeerList { peers }, b2)),
                    None => None,
                },
                None => None,
            }
        } else if tag == 2 {
            match sdec_str(b0) {
                Some((requester_id, b1)) => Some(
                    (MessageView::RequestBlockchain { requester_id }, b1),
                ),
                None => None,
            }
        } else if tag == 3 {
            match sdec_u32(b0) {
                Some((n, b1)) => match sdec_blocks(b1, n as int) {
                    Some((chain, b2)) => Some((MessageView::BlockchainSync { chain }, b2)),
                    None => None,
                },
                None => None,
            }
        } else if tag == 4 {
            match sdec_template(b0) {
                Some((template, b1)) => Some((MessageView::MiningStart { template }, b1)),
                None => None,
            }
        } else if tag == 5 {
            Some((MessageView::MiningStop, b0))
        } else if tag == 6 {
            match sdec_block(b0) {
                Some((block, b1)) => match sdec_str(b1) {
                    Some((miner_id, b2)) => Some((MessageView::NewBlock { block, miner_id }, b2)),
                    None => None,
                },
                None => None,
            }
        } else if tag == 7 {
            match sdec_tx(b0) {
                Some((transaction, b1)) => match sdec_str(b1) {
                    Some((from_node, b2)) => Some(
                        (MessageView::NewTransaction { transaction, from_node }, b2),
                    ),
                    None => None,
                },
                None => None,
            }
        } else if tag == 8 {
            match sdec_str(b0) {
                Some((node_id, b1)) => match sdec_u64(b1) {
                    Some((timestamp, b2)) => Some(
                        (MessageView::Heartbeat { node_id, timestamp }, b2),
                    ),
                    None => None,
                },
                None => None,
            }
        } else if tag == 9 {
            match sdec_str(b0) {
                Some((node_id, b1)) => Some((MessageView::Pong { node_id }, b1)),
                None => None,
            }
        } else {
            None
        },
        None => None,
    }
}

/// Decoding a whole buffer: the message must consume every byte.
pub open spec fn sdec_msg_full(b: Seq<u8>) -> Option<MessageView> {
    match sdec_msg(b) {
        Some((m, rest)) => if rest.len() == 0 {
            Some(m)
        } else {
            None
        },
        None => None,
    }
}

pub proof fn lemma_dec_msg(m: MessageView, rest: Seq<u8>)
    requires
        wf_msg(m),
    ensures
        sdec_msg(senc_msg(m) + rest) == Some((m, rest)),
{
    match m {
        MessageView::Join { node_id, address, timestamp } => {
            let e0 = senc_u8(0);
            let e1 = senc_str(node_id);
            let e2 = senc_str(address);
            let e3 = senc_u64(timestamp);
            lemma_concat_associative(e0 + e1 + e2, e3, rest);
            lemma_concat_associative(e0 + e1, e2, e3 + rest);
            lemma_concat_associative(e0, e1, e2 + (e3 + rest));
            lemma_dec_u8(0, e1 + (e2 + (e3 + rest)));
            lemma_dec_str(node_id, e2 + (e3 + rest));
            lemma_dec_str(address, e3 + rest);
            lemma_dec_u64(timestamp, rest);
        },
        MessageView::PeerList { peers } => {
            let e0 = senc_u8(1);
            let e1 = senc_u32(peers.len() as u32);
            let e2 = senc_peers(peers);
            lemma_concat_associative(e0 + e1, e2, rest);
            lemma_concat_associative(e0, e1, e2 + rest);
            lemma_dec_u8(1, e1 + (e2 + rest));
            lemma_dec_u32(peers.len() as u32, e2 + rest);
            lemma_dec_peers(peers, rest);
        },
        MessageView::RequestBlockchain { requester_id } => {
            let e0 = senc_u8(2);
            let e1 = senc_str(requester_id);
            lemma_dec_u8(2, e1 + rest);
            lemma_concat_associative(e0, e1, rest);
            lemma_dec_str(requester_id, rest);
        },
        MessageView::BlockchainSync { chain } => {
            let e0 = senc_u8(3);
            let e1 = senc_u32(chain.len() as u32);
            let e2 = senc_blocks(chain);
            lemma_concat_associative(e0 + e1, e2, rest);
            lemma_concat_associative(e0, e1, e2 + rest);
            lemma_dec_u8(3, e1 + (e2 + rest));
            lemma_dec_u32(chain.len() as u32, e2 + rest);
            lemma_dec_blocks(chain, rest);
        },
        MessageView::MiningStart { template } => {
            let e0 = senc_u8(4);
            let e1 = senc_template(template);
            lemma_concat_associative(e0, e1, rest);
            lemma_dec_u8(4, e1 + rest);
            lemma_dec_template(template, rest);
        },
        MessageView::MiningStop => {
            lemma_dec_u8(5, rest);
        },
        MessageView::NewBlock { block, miner_id } => {
            let e0 = senc_u8(6);
            let e1 = senc_block(block);
            let e2 = senc_str(miner_id);
            lemma_concat_associative(e0 + e1, e2, rest);
            lemma_concat_associative(e0, e1, e2 + rest);
            lemma_dec_u8(6, e1 + (e2 + rest));
            lemma_dec_block(block, e2 + rest);
            lemma_dec_str(miner_id, rest);
        },
        MessageView::NewTransaction { transaction, from_node } => {
            let e0 = senc_u8(7);
            let e1 = senc_tx(transaction);
            let e2 = senc_str(from_node);
            lemma_concat_associative(e0 + e1, e2, rest);
            lemma_concat_associative(e0, e1, e2 + rest);
            lemma_dec_u8(7, e1 + (e2 + rest));
            lemma_dec_tx(transaction, e2 + rest);
            lemma_dec_str(from_node, rest);
        },
        MessageView::Heartbeat { node_id, timestamp } => {
            let e0 = senc_u8(8);
            let e1 = senc_str(node_id);
            let e2 = senc_u64(timestamp);
            lemma_concat_associative(e0 + e1, e2, rest);
            lemma_concat_associative(e0, e1, e2 + rest);
            lemma_dec_u8(8, e1 + (e2 + rest));
            lemma_dec_str(node_id, e2 + rest);
            lemma_dec_u64(timestamp, rest);
        },
        MessageView::Pong { node_id } => {
            let e0 = senc_u8(9);
            let e1 = senc_str(node_id);
            lemma_concat_associative(e0, e1, rest);
            lemma_dec_u8(9, e1 + rest);
            lemma_dec_str(node_id, rest);
        },
    }
}

/// Wire round-trip: decoding an encoded message yields the message, for
/// every message that fits the length prefixes.
pub proof fn lemma_message_round_trip(m: MessageView)
    requires
        wf_msg(m),
    ensures
        sdec_msg_full(senc_msg(m)) == Some(m),
{
    broadcast use Seq::add_empty_right;

    lemma_dec_msg(m, Seq::<u8>::empty());
}

// --- executable bound checks ---

fn str_fits(s: &str) -> (r: bool)
    ensures
        r == wf_str(s@),
{
    broadcast use vstd::slice::axiom_spec_len;

    let bytes = s.as_bytes();
    proof {
        assert(bytes@ == encode_utf8(s@));
    }
    bytes.len() as u64 <= u32::MAX as u64
}

fn peer_fits(p: &PeerInfo) -> (r: bool)
    ensures
        r == wf_peer(p@),
{
    str_fits(p.node_id.as_str()) && str_fits(p.address.as_str())
}

fn block_fits(b: &Block) -> (r: bool)
    ensures
        r == wf_block(b@),
{
    str_fits(b.previous_hash.as_str()) && str_fits(b.data.as_str()) && str_fits(b.hash.as_str())
}

fn tx_fits(t: &Transaction) -> (r: bool)
    ensures
        r == wf_tx(t@),
{
    str_fits(t.from.as_str()) && str_fits(t.to.as_str()) && str_fits(t.signature.as_str())
}

fn peers_fit(v: &Vec<PeerInfo>) -> (r: bool)
    ensures
        r == (v@.len() <= u32::MAX && forall|i: int|
            0 <= i < v.deep_view().len() ==> wf_peer(#[trigger] v.deep_view()[i])),
{
    if v.len() as u64 > u32::MAX as u64 {
        return false;
    }
    let mut i: usize = 0;
    while i < v.len()
        invariant
            i <= v@.len(),
            v.deep_view().len() == v@.len(),
            forall|j: int| 0 <= j < i ==> wf_peer(#[trigger] v.deep_view()[j]),
        decreases v@.len() - i,
    {
        if !peer_fits(&v[i]) {
            proof {
                assert(!wf_peer(v.deep_view()[i as int]));
            }
            return false;
        }
        proof {
            assert(wf_peer(v.deep_view()[i as int]));
        }
        i += 1;
    }
    true
}

fn blocks_fit(v: &Vec<Block>) -> (r: bool)
    ensures
        r == (v@.len() <= u32::MAX && forall|i: int|
            0 <= i < v.deep_view().len() ==> wf_block(#[trigger] v.deep_view()[i])),
{
    if v.len() as u64 > u32::MAX as u64 {
        return false;
    }
    let mut i: usize = 0;
    while i < v.len()
        invariant
            i <= v@.len(),
            v.deep_view().len() == v@.len(),
            forall|j: int| 0 <= j < i ==> wf_block(#[trigger] v.deep_view()[j]),
        decreases v@.len() - i,
    {
        if !block_fits(&v[i]) {
            proof {
                assert(!wf_block(v.deep_view()[i as int]));
            }
            return false;
        }
        proof {
            assert(wf_block(v.deep_view()[i as int]));
        }
        i += 1;
    }
    true
}

fn strings_fit(v: &Vec<String>) -> (r: bool)
    ensures
        r == (v@.len() <= u32::MAX && forall|i: int|
            0 <= i < v.deep_view().len() ==> wf_str(#[trigger] v.deep_view()[i])),
{
    if v.len() as u64 > u32::MAX as u64 {
        return false;
    }
    let mut i: usize = 0;
    while i < v.len()
        invariant
            i <= v@.len(),
            v.deep_view().len() == v@.len(),
            forall|j: int| 0 <= j < i ==> wf_str(#[trigger] v.deep_view()[j]),
        decreases v@.len() - i,
    {
        if !str_fits(v[i].as_str()) {
            proof {
                assert(!wf_str(v.deep_view()[i as int]));
            }
            return false;
        }
        proof {
            assert(wf_str(v.deep_view()[i as int]));
        }
        i += 1;
    }
    true
}

fn template_fits(t: &BlockTemplate) -> (r: bool)
    ensures
        r == wf_template(t@),
{
    str_fits(t.previous_hash.as_str()) && strings_fit(&t.transactions)
}

/// Whether a message fits the encoding's length prefixes.
pub fn message_fits(m: &P2PMessage) -> (r: bool)
    ensures
        r == wf_msg(m@),
{
    match m {
        P2PMessage::Join { node_id, address, timestamp: _ } => str_fits(node_id.as_str())
            && str_fits(address.as_str()),
        P2PMessage::PeerList { peers } => peers_fit(peers),
        P2PMessage::RequestBlockchain { requester_id } => str_fits(requester_id.as_str()),
        P2PMessage::BlockchainSync { chain } => blocks_fit(chain),
        P2PMessage::MiningStart { template } => template_fits(template),
        P2PMessage::MiningStop => true,
        P2PMessage::NewBlock { block, miner_id } => block_fits(block) && str_fits(
            miner_id.as_str(),
        ),
        P2PMessage::NewTransaction { transaction, from_node } => tx_fits(transaction) && str_fits(
            from_node.as_str(),
        ),
        P2PMessage::Heartbeat { node_id, timestamp: _ } => str_fits(node_id.as_str()),
        P2PMessage::Pong { node_id } => str_fits(node_id.as_str()),
    }
}

impl P2PMessage {
    /// Serializes the message, or rejects one whose strings or lists exceed
    /// the length prefixes.
    pub fn to_bytes(&self) -> (r: Result<Vec<u8>, NetworkError>)
        ensures
            match r {
                Ok(v) => wf_msg(self@) && v@ == senc_msg(self@),
                Err(e) => !wf_msg(self@) && e matches NetworkError::SerializationError(_),
            },
    {
        broadcast use Seq::add_empty_left;

        if !message_fits(self) {
            return Err(
                NetworkError::SerializationError("message too large to encode".to_owned()),
            );
        }
        let mut out: Vec<u8> = Vec::new();
        proof {
            assert(out@ =~= Seq::<u8>::empty());
        }
        match self {
            P2PMessage::Join { node_id, address, timestamp } => {
                push_u8(&mut out, 0);
                push_str(&mut out, node_id.as_str());
                push_str(&mut out, address.as_str());
                push_u64(&mut out, *timestamp);
            },
            P2PMessage::PeerList { peers } => {
                push_u8(&mut out, 1);
                push_peers(&mut out, peers);
            },
            P2PMessage::RequestBlockchain { requester_id } => {
                push_u8(&mut out, 2);
                push_str(&mut out, requester_id.as_str());
            },
            P2PMessage::BlockchainSync { chain } => {
                push_u8(&mut out, 3);
                push_blocks(&mut out, chain);
            },
            P2PMessage::MiningStart { template } => {
                push_u8(&mut out, 4);
                push_template(&mut out, template);
            },
            P2PMessage::MiningStop => {
                push_u8(&mut out, 5);
            },
            P2PMessage::NewBlock { block, miner_id } => {
                push_u8(&mut out, 6);
                push_block(&mut out, block);
                push_str(&mut out, miner_id.as_str());
            },
            P2PMessage::NewTransaction { transaction, from_node } => {
                push_u8(&mut out, 7);
                push_tx(&mut out, transaction);
                push_str(&mut out, from_node.as_str());
            },
            P2PMessage::Heartbeat { node_id, timestamp } => {
                push_u8(&mut out, 8);
                push_str(&mut out, node_id.as_str());
                push_u64(&mut out, *timestamp);
            },
            P2PMessage::Pong { node_id } => {
                push_u8(&mut out, 9);
                push_str(&mut out, node_id.as_str());
            },
        }
        proof {
            assert(out@ =~= senc_msg(self@));
        }
        Ok(out)
    }

    /// Parses a whole buffer as one message; every byte must be consumed.
    pub fn from_bytes(bytes: &[u8]) -> (r: Result<P2PMessage, NetworkError>)
        ensures
            match r {
                Ok(m) => sdec_msg_full(bytes@) == Some(m@),
                Err(e) => sdec_msg_full(bytes@) is None && e matches
                    NetworkError::SerializationError(_),
            },
    {
        proof {
            assert(bytes@.skip(0) =~= bytes@);
        }
        match Self::read_message(bytes) {
            Some((m, j)) if j == bytes.len() => {
                proof {
                    assert(bytes@.skip(j as int).len() == 0);
                }
                Ok(m)
            },
            Some((_, j)) => {
                proof {
                    assert(bytes@.skip(j as int).len() == bytes@.len() - j);
                }
                Err(NetworkError::SerializationError("trailing bytes after message".to_owned()))
            },
            None => Err(NetworkError::SerializationError("malformed message bytes".to_owned())),
        }
    }

    /// Parses one message starting at the head of the buffer.
    #[verifier::rlimit(100)]
    #[verifier::spinoff_prover]
    fn read_message(b: &[u8]) -> (r: Option<(P2PMessage, usize)>)
        ensures
            match r {
                Some((m, j)) => j <= b@.len() && sdec_msg(b@.skip(0)) == Some((
                    m@,
                    b@.skip(j as int),
                )),
                None => sdec_msg(b@.skip(0)) is None,
            },
    {
        let (tag, i0) = match read_u8(b, 0) {
            Some(x) => x,
            None => {
                return None;
            },
        };
        if tag == 0 {
            let (node_id, i1) = match read_string(b, i0) {
                Some(x) => x,
                None => {
                    return None;
                },
            };
            let (address, i2) = match read_string(b, i1) {
                Some(x) => x,
                None => {
                    return None;
                },
            };
            let (timestamp, i3) = match read_u64(b, i2) {
                Some(x) => x,
                None => {
                    return None;
                },
            };
            Some((P2PMessage::Join { node_id, address, timestamp }, i3))
        } else if tag == 1 {
            let (n, i1) = match read_u32(b, i0) {
                Some(x) => x,
                None => {
                    return None;
                },
            };
            let (peers, i2) = match read_peers(b, i1, n) {
                Some(x) => x,
                None => {
                    return None;
                },
            };
            Some((P2PMessage::PeerList { peers }, i2))
        } else if tag == 2 {
            let (requester_id, i1) = match read_string(b, i0) {
                Some(x) => x,
                None => {
                    return None;
                },
            };
            Some((P2PMessage::RequestBlockchain { requester_id }, i1))
        } else if tag == 3 {
            let (n, i1) = match read_u32(b, i0) {
                Some(x) => x,
                None => {
                    return None;
                },
            };
            let (chain, i2) = match read_blocks(b, i1, n) {
                Some(x) => x,
                None => {
                    return None;
                },
            };
            Some((P2PMessage::BlockchainSync { chain }, i2))
        } else if tag == 4 {
            let (template, i1) = match read_template(b, i0) {
                Some(x) => x,
                None => {
                    return None;
                },
            };
            Some((P2PMessage::MiningStart { template }, i1))
        } else if tag == 5 {
            Some((P2PMessage::MiningStop, i0))
        } else if tag == 6 {
            let (block, i1) = match read_block(b, i0) {
                Some(x) => x,
                None => {
                    return None;
                },
            };
            let (miner_id, i2) = match read_string(b, i1) {
                Some(x) => x,
                None => {
                    return None;
                },
            };
            Some((P2PMessage::NewBlock { block, miner_id }, i2))
        } else if tag == 7 {
            let (transaction, i1) = match read_tx(b, i0) {
                Some(x) => x,
                None => {
                    return None;
                },
            };
            let (from_node, i2) = match read_string(b, i1) {
                Some(x) => x,
                None => {
                    return None;
                },
            };
            Some((P2PMessage::NewTransaction { transaction, from_node }, i2))
        } else if tag == 8 {
            let (node_id, i1) = match read_string(b, i0) {
                Some(x) => x,
                None => {
                    return None;
                },
            };
            let (timestamp, i2) = match read_u64(b, i1) {
                Some(x) => x,
                None => {
                    return None;
                },
            };
            Some((P2PMessage::Heartbeat { node_id, timestamp }, i2))
        } else if tag == 9 {
            let (node_id, i1) = match read_string(b, i0) {
                Some(x) => x,
                None => {
                    return None;
                },
            };
            Some((P2PMessage::Pong { node_id }, i1))
        } else {
            None
        }
    }
}

// --- framing ---

/// The frame carrying a message on the wire: a fixed-width big-endian length
/// header, then the payload.
pub open spec fn senc_frame(m: MessageView) -> Seq<u8> {
    senc_u32(senc_msg(m).len() as u32) + senc_msg(m)
}

/// Whether a message's payload fits the 4-byte frame header.
pub open spec fn wf_frame(m: MessageView) -> bool {
    wf_msg(m) && senc_msg(m).len() <= u32::MAX
}

/// Builds the complete frame for a message: header and body, ready to be
/// written to a stream in one piece.
pub fn frame_message(m: &P2PMessage) -> (r: Result<Vec<u8>, NetworkError>)
    ensures
        match r {
            Ok(v) => wf_frame(m@) && v@ == senc_frame(m@),
            Err(e) => !wf_frame(m@) && e matches NetworkError::SerializationError(_),
        },
{
    let payload = match m.to_bytes() {
        Ok(p) => p,
        Err(e) => {
            return Err(e);
        },
    };
    if payload.len() as u64 > u32::MAX as u64 {
        return Err(NetworkError::SerializationError("message too large to frame".to_owned()));
    }
    let mut out: Vec<u8> = Vec::new();
    push_u32(&mut out, payload.len() as u32);
    let ghost mid = out@;
    let mut i: usize = 0;
    proof {
        assert(Seq::<u8>::empty() + senc_u32(payload@.len() as u32) =~= senc_u32(
            payload@.len() as u32,
        ));
    }
    while i < payload.len()
        invariant
            i <= payload@.len(),
            out@ == mid + payload@.take(i as int),
        decreases payload@.len() - i,
    {
        out.push(payload[i]);
        proof {
            assert(out@ =~= mid + payload@.take(i as int + 1));
        }
        i += 1;
    }
    proof {
        assert(payload@.take(payload@.len() as int) =~= payload@);
    }
    Ok(out)
}

/// Reads the payload length out of a 4-byte frame header.
pub fn frame_payload_len(header: &[u8]) -> (n: u32)
    requires
        header@.len() == 4,
    ensures
        sdec_u32(header@) == Some((n, header@.skip(4))),
{
    let n = (header[0] as u32) << 24 | (header[1] as u32) << 16 | (header[2] as u32) << 8 | (
    header[3] as u32);
    n
}

} // verus!
