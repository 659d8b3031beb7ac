//! Frame codec: every outbound frame is the MessagePack payload followed
//! by two padding bytes derived from a rolling counter, and every inbound
//! frame is decoded after truncating its own two trailing bytes.
//!
//! The counter starts at 0 for a new socket and advances by the
//! session's `prime` before each send, reduced modulo 256; the two
//! padding bytes carry its high and low nibble.

use vstd::prelude::*;

verus! {

/// Codec-level decode failures.
#[derive(Debug, Clone, Copy, PartialEq, Eq, Structural)]
pub enum ProtocolDecodeError {
    /// The frame is shorter than the two padding bytes plus one payload byte.
    DecodeTooShort,
    /// The decoded payload is not an array.
    DecodeNotArray,
    /// The decoded array is empty or its head is not a string.
    DecodeNoType,
    /// The payload is not valid MessagePack.
    MsgpackError,
}

/// The rolling counter after one advance by `prime`.
pub open spec fn spec_next_num(num: int, prime: int) -> int {
    (num + prime) % 0x100
}

/// The two padding bytes for a counter value: its high and low nibble.
pub open spec fn spec_padding(num: int) -> Seq<u8> {
    seq![(((num / 16) % 16) as u8), ((num % 16) as u8)]
}

/// An encoded frame: the payload followed by the padding for the counter
/// value that the send advanced to.
pub open spec fn spec_encode_message(payload: Seq<u8>, num_after: int) -> Seq<u8> {
    payload + spec_padding(num_after)
}

/// A stripped frame: everything but the last two bytes.
pub open spec fn spec_strip_padding(frame: Seq<u8>) -> Seq<u8> {
    frame.subrange(0, frame.len() - 2)
}

/// The sender half of the frame codec: the session prime and the rolling
/// counter, which stays below 256 after every send.
pub struct Codec {
    pub prime: u16,
    pub num: u16,
}

impl Codec {
    pub open spec fn wf(self) -> bool {
        self.num < 0x100
    }

    /// A fresh codec for a new socket: the counter starts at zero.
    pub fn new(prime: u16) -> (r: Codec)
        ensures
            r.wf(),
            r.prime == prime,
            r.num == 0,
    {
        Codec { prime, num: 0 }
    }

    /// Advances the rolling counter and appends the two padding bytes to
    /// the MessagePack payload, yielding the bytes of one wire frame.
    pub fn encode_message(&mut self, payload: Vec<u8>) -> (r: Vec<u8>)
        requires
            old(self).wf(),
        ensures
            final(self).wf(),
            final(self).prime == old(self).prime,
            final(self).num as int == spec_next_num(old(self).num as int, old(self).prime as int),
            r@ == spec_encode_message(payload@, final(self).num as int),
    {
        let ghost payload0 = payload@;
        let next: u16 = ((self.num as u32 + self.prime as u32) % 0x100) as u16;
        self.num = next;
        let mut out = payload;
        out.push(next as u8 / 16 % 16);
        out.push(next as u8 % 16);
        proof {
            assert(out@ =~= spec_encode_message(payload0, next as int));
        }
        out
    }

    /// Truncates the two trailing padding bytes of an inbound frame,
    /// rejecting frames too short to carry any payload.
    pub fn strip_padding(frame: &Vec<u8>) -> (r: Result<Vec<u8>, ProtocolDecodeError>)
        ensures
            frame@.len() < 3 ==> r == Err::<Vec<u8>, ProtocolDecodeError>(
                ProtocolDecodeError::DecodeTooShort,
            ),
            frame@.len() >= 3 ==> r is Ok && r->Ok_0@ == spec_strip_padding(frame@),
    {
        if frame.len() < 3 {
            return Err(ProtocolDecodeError::DecodeTooShort);
        }
        let keep: usize = frame.len() - 2;
        let mut out: Vec<u8> = Vec::new();
        let mut i: usize = 0;
        while i < keep
            invariant
                i <= keep,
                keep == frame@.len() - 2,
                out@ == frame@.subrange(0, i as int),
            decreases keep - i,
        {
            out.push(frame[i]);
            assert(out@ =~= frame@.subrange(0, i + 1 as int));
            i += 1;
        }
        Ok(out)
    }
}

/// Round trip at the frame level: stripping the padding of an encoded
/// frame gives back exactly the MessagePack payload, for every payload
/// and every counter value — the receiver ignores the padding bytes.
pub proof fn lemma_frame_round_trip(payload: Seq<u8>, num_after: int)
    ensures
        spec_strip_padding(spec_encode_message(payload, num_after)) == payload,
{
    assert(spec_strip_padding(spec_encode_message(payload, num_after)) =~= payload);
}

/// The rolling padding: an encoded frame differs from its payload only in
/// the two appended bytes; both are nibbles, and together they pack the
/// advanced counter value `(num + prime) mod 256` as `(hi << 4) | lo`.
pub proof fn lemma_rolling_padding(payload: Seq<u8>, num: int, prime: int)
    requires
        0 <= num,
        0 <= prime,
    ensures
        ({
            let n = spec_next_num(num, prime);
            let frame = spec_encode_message(payload, n);
            &&& frame.len() == payload.len() + 2
            &&& frame.subrange(0, payload.len() as int) == payload
            &&& frame[payload.len() as int] < 16
            &&& frame[payload.len() as int + 1] < 16
            &&& 16 * frame[payload.len() as int] + frame[payload.len() as int + 1] == n
            &&& 0 <= n < 256
        }),
{
    let n = spec_next_num(num, prime);
    let frame = spec_encode_message(payload, n);
    assert(frame.subrange(0, payload.len() as int) =~= payload);
    assert(0 <= n < 256) by {
        vstd::arithmetic::div_mod::lemma_mod_bound(num + prime, 0x100);
    }
    assert(16 * ((n / 16) % 16) + n % 16 == n) by {
        assert((n / 16) % 16 == n / 16);
    }
}

} // verus!
