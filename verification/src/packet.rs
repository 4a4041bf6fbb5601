//! Binary packet codec.
//!
//! A frame is a 4-byte big-endian `packet_length` (which excludes itself), a
//! 1-byte `padding_length`, the payload, and `padding_length` random bytes;
//! `1 + len(payload) + padding_length` is a multiple of the block size (8
//! before encryption is established). A MAC, once keys exist, is appended
//! after the frame by the downstream component; this codec does not compute
//! one.

use vstd::arithmetic::div_mod::lemma_fundamental_div_mod;
use vstd::arithmetic::div_mod::lemma_mod_multiples_vanish;
use vstd::prelude::*;

use crate::errors::FramingError;
use crate::rng;
use crate::wire;

verus! {

/// Block size before any cipher is established.
pub const DEFAULT_BLOCK_SIZE: usize = 8;

/// Default upper bound on `packet_length`, a defence against
/// attacker-controlled lengths forcing unbounded allocation.
pub const DEFAULT_MAX_PACKET_LENGTH: u32 = 262144;

/// The padding length chosen for a payload: the smallest value in `[4, 255]`
/// making `1 + payload_len + padding` a multiple of the block size.
pub open spec fn spec_padding_len(payload_len: int, block: int) -> int
    recommends
        8 <= block,
{
    let m = (1 + payload_len) % block;
    let base = if m == 0 {
        0
    } else {
        block - m
    };
    if base < 4 {
        base + block
    } else {
        base
    }
}

pub proof fn lemma_padding_len(payload_len: int, block: int)
    requires
        payload_len >= 0,
        8 <= block <= 128,
    ensures
        4 <= spec_padding_len(payload_len, block) < 2 * block,
        spec_padding_len(payload_len, block) <= 255,
        (1 + payload_len + spec_padding_len(payload_len, block)) % block == 0,
{
    let t = 1 + payload_len;
    let q = t / block;
    let m = t % block;
    let pad = spec_padding_len(payload_len, block);
    lemma_fundamental_div_mod(t, block);
    if m == 0 {
        assert(t + pad == block * (q + 1)) by (nonlinear_arith)
            requires
                t == block * q + m,
                m == 0,
                pad == block,
        ;
        lemma_mod_multiples_vanish(q + 1, 0, block);
    } else if block - m < 4 {
        assert(t + pad == block * (q + 2)) by (nonlinear_arith)
            requires
                t == block * q + m,
                pad == block - m + block,
        ;
        lemma_mod_multiples_vanish(q + 2, 0, block);
    } else {
        assert(t + pad == block * (q + 1)) by (nonlinear_arith)
            requires
                t == block * q + m,
                pad == block - m,
        ;
        lemma_mod_multiples_vanish(q + 1, 0, block);
    }
}

/// What decoding a frame standing at `start` yields: the payload and the
/// position just past the frame. `None` on a length outside
/// `[5, max_packet]`, a short buffer, or an invalid padding length.
pub open spec fn spec_decode_packet(bytes: Seq<u8>, start: int, max_packet: int) -> Option<
    (Seq<u8>, int),
> {
    if !(0 <= start && start + 4 <= bytes.len()) {
        None
    } else {
        let pl = wire::spec_u32_from_be_bytes(bytes.subrange(start, start + 4)) as int;
        if pl > max_packet || pl < 5 {
            None
        } else if start + 4 + pl > bytes.len() {
            None
        } else {
            let pad = bytes[start + 4] as int;
            if pad < 4 || 1 + pad > pl {
                None
            } else {
                Some((bytes.subrange(start + 5, start + 4 + pl - pad), start + 4 + pl))
            }
        }
    }
}

/// The error that `decode_packet` reports for each rejected input.
pub open spec fn spec_packet_error(bytes: Seq<u8>, start: int, max_packet: int) -> FramingError {
    if !(start + 4 <= bytes.len()) {
        FramingError::ShortRead
    } else {
        let pl = wire::spec_u32_from_be_bytes(bytes.subrange(start, start + 4)) as int;
        if pl > max_packet {
            FramingError::OversizedPacket
        } else if pl < 5 {
            FramingError::UndersizedPacket
        } else if start + 4 + pl > bytes.len() {
            FramingError::ShortRead
        } else {
            FramingError::BadPaddingLength
        }
    }
}

/// Checks a just-read `packet_length` field against the configured maximum,
/// before any buffer for the remainder is allocated.
pub fn check_packet_length(packet_length: u32, max_packet: u32) -> (r: Result<(), FramingError>)
    ensures
        r is Ok <==> 5 <= packet_length <= max_packet,
        r == Err::<(), FramingError>(FramingError::OversizedPacket) <==> packet_length
            > max_packet,
        r == Err::<(), FramingError>(FramingError::UndersizedPacket) <==> (packet_length
            <= max_packet && packet_length < 5),
{
    if packet_length > max_packet {
        Err(FramingError::OversizedPacket)
    } else if packet_length < 5 {
        Err(FramingError::UndersizedPacket)
    } else {
        Ok(())
    }
}

/// Frames a payload. The result always decodes back to the payload: the
/// round trip and the padding invariants stand in the postcondition.
pub fn encode_packet(payload: &Vec<u8>, block_size: usize, max_packet: u32) -> (r: Vec<u8>)
    requires
        8 <= block_size <= 128,
        payload@.len() + 257 <= max_packet,
    ensures
        ({
            let pad = spec_padding_len(payload@.len() as int, block_size as int);
            let pl = 1 + payload@.len() + pad;
            &&& r@.len() == 4 + pl
            &&& r@.subrange(0, 4) == wire::spec_u32_to_be_bytes(pl as u32)
            &&& r@[4] == pad as u8
            &&& r@.subrange(5, 5 + payload@.len() as int) == payload@
            &&& 4 <= pad <= 255
            &&& pl % (block_size as int) == 0
            &&& spec_decode_packet(r@, 0, max_packet as int) == Some((payload@, r@.len() as int))
        }),
{
    proof {
        lemma_padding_len(payload@.len() as int, block_size as int);
    }
    let plen: usize = payload.len();
    let m: usize = (1 + plen) % block_size;
    let base: usize = if m == 0 {
        0
    } else {
        block_size - m
    };
    let pad: usize = if base < 4 {
        base + block_size
    } else {
        base
    };
    assert(pad == spec_padding_len(payload@.len() as int, block_size as int));
    let pl: usize = 1 + plen + pad;
    let mut r = wire::u32_to_be_bytes(pl as u32);
    r.push(pad as u8);
    let ghost header = r@;
    let mut i: usize = 0;
    while i < plen
        invariant
            i <= plen,
            plen == payload@.len(),
            r@ == header + payload@.take(i as int),
        decreases plen - i,
    {
        let b = payload[i];
        r.push(b);
        proof {
            assert(payload@.take(i as int).push(payload@[i as int]) =~= payload@.take(i + 1));
            assert(r@ =~= header + payload@.take(i + 1));
        }
        i += 1;
    }
    proof {
        assert(payload@.take(plen as int) =~= payload@);
    }
    let mut padding = rng::random_bytes(pad);
    r.append(&mut padding);
    proof {
        let pl_int = 1 + payload@.len() + (pad as int);
        assert(r@.subrange(0, 4) =~= wire::spec_u32_to_be_bytes(pl as u32));
        assert(r@.subrange(5, 5 + payload@.len() as int) =~= payload@);
        wire::lemma_u32_be_bytes_round_trip(pl as u32);
        assert(r@.subrange(5, 4 + pl_int - (pad as int)) =~= payload@);
    }
    r
}

/// Unframes the packet standing at `start`: reads `packet_length`, checks it
/// against the configured maximum before anything is allocated, extracts the
/// payload and discards the padding. Yields the payload and the position
/// just past the frame.
#[verifier::loop_isolation(false)]
pub fn decode_packet(bytes: &Vec<u8>, start: usize, max_packet: u32) -> (r: Result<
    (Vec<u8>, usize),
    FramingError,
>)
    ensures
        match r {
            Ok(p) => {
                &&& spec_decode_packet(bytes@, start as int, max_packet as int) == Some(
                    (p.0@, p.1 as int),
                )
                &&& start + 5 <= p.1 <= bytes@.len()
            },
            Err(e) => {
                &&& spec_decode_packet(bytes@, start as int, max_packet as int) is None
                &&& e == spec_packet_error(bytes@, start as int, max_packet as int)
            },
        },
{
    let n_total: usize = bytes.len();
    if start > n_total || n_total - start < 4 {
        return Err(FramingError::ShortRead);
    }
    let pl32: u32 = wire::read_u32_be(bytes, start);
    if pl32 > max_packet {
        return Err(FramingError::OversizedPacket);
    }
    if pl32 < 5 {
        return Err(FramingError::UndersizedPacket);
    }
    let pl: usize = pl32 as usize;
    if n_total - (start + 4) < pl {
        return Err(FramingError::ShortRead);
    }
    let pad: usize = bytes[start + 4] as usize;
    if pad < 4 || 1 + pad > pl {
        return Err(FramingError::BadPaddingLength);
    }
    let payload_start: usize = start + 5;
    let payload_end: usize = start + 4 + pl - pad;
    let mut payload: Vec<u8> = Vec::new();
    let mut i: usize = payload_start;
    while i < payload_end
        invariant
            payload_start <= i <= payload_end,
            payload@ == bytes@.subrange(payload_start as int, i as int),
        decreases payload_end - i,
    {
        let b = bytes[i];
        payload.push(b);
        proof {
            assert(bytes@.subrange(payload_start as int, i as int).push(bytes@[i as int])
                =~= bytes@.subrange(payload_start as int, i + 1));
        }
        i += 1;
    }
    let end: usize = start + 4 + pl;
    Ok((payload, end))
}

} // verus!
