//! The intermediate transport: each payload travels as a four-byte
//! little-endian length followed by the payload itself, with no trailer.
//!
//! Reading and writing the channel is left to the caller; this module decides
//! what bytes a frame holds and whether a received header may be trusted.
use vstd::prelude::*;

verus! {

/// The largest payload length that a received header may declare.
pub const MAXIMUM_DATA: u32 = 1024 * 1024 + 8 * 3;

/// The four bytes of `n` (below 2^32), least significant first.
pub open spec fn le_bytes(n: nat) -> Seq<u8> {
    seq![
        (n % 256) as u8,
        ((n / 256) % 256) as u8,
        ((n / 65536) % 256) as u8,
        ((n / 16777216) % 256) as u8,
    ]
}

/// The number that the first four bytes of `b` encode, least significant first.
pub open spec fn le_value(b: Seq<u8>) -> nat
    recommends
        b.len() >= 4,
{
    (b[0] as nat) + 256 * (b[1] as nat) + 65536 * (b[2] as nat) + 16777216 * (b[3] as nat)
}

/// The bytes on the wire for one payload: its length, then the payload.
pub open spec fn frame_of(payload: Seq<u8>) -> Seq<u8> {
    le_bytes(payload.len()) + payload
}

/// Why a frame could not be taken from received bytes.
#[derive(Debug, Clone, Copy, PartialEq, Eq, Structural)]
pub enum FrameError {
    /// The header declared more than `MAXIMUM_DATA` bytes.
    FrameTooLarge { declared_length: u32 },
    /// The bytes ended before the header or the body was complete.
    ShortRead,
}

/// What one frame taken from the front of `stream` gives: the payload and the
/// number of bytes it occupied, or the reason it could not be taken.
///
/// The declared length is judged before the body is looked at.
pub open spec fn unpack_spec(stream: Seq<u8>) -> Result<(Seq<u8>, nat), FrameError> {
    if stream.len() < 4 {
        Err(FrameError::ShortRead)
    } else if le_value(stream) > MAXIMUM_DATA {
        Err(FrameError::FrameTooLarge { declared_length: le_value(stream) as u32 })
    } else if stream.len() < 4 + le_value(stream) as int {
        Err(FrameError::ShortRead)
    } else {
        Ok((stream.subrange(4, 4 + le_value(stream) as int), 4 + le_value(stream)))
    }
}

/// Every number below 2^32 is read back from its four bytes.
pub proof fn lemma_le_round_trip(n: nat)
    requires
        n <= u32::MAX,
    ensures
        le_bytes(n).len() == 4,
        le_value(le_bytes(n)) == n,
{
    let b = le_bytes(n);
    assert(n == (n % 256) + 256 * ((n / 256) % 256) + 65536 * ((n / 65536) % 256)
        + 16777216 * (n / 16777216)) by (nonlinear_arith)
        requires n <= u32::MAX;
    assert(n / 16777216 < 256) by (nonlinear_arith)
        requires n <= u32::MAX;
}

/// A frame made of a payload of at most `MAXIMUM_DATA` bytes is taken back
/// whole: the same payload comes out, and the frame's bytes are consumed
/// exactly.
pub proof fn lemma_frame_round_trip(payload: Seq<u8>)
    requires
        payload.len() <= MAXIMUM_DATA,
    ensures
        unpack_spec(frame_of(payload)) == Ok::<(Seq<u8>, nat), FrameError>(
            (payload, 4 + payload.len()),
        ),
{
    lemma_le_round_trip(payload.len());
    let f = frame_of(payload);
    assert(le_value(f) == le_value(le_bytes(payload.len())));
    assert(f.subrange(4, 4 + payload.len() as int) =~= payload);
}

/// A header that declares more than `MAXIMUM_DATA` bytes is refused as too
/// large, whatever follows it and however much follows it: the body is never
/// looked at.
pub proof fn lemma_oversized_refused(stream: Seq<u8>)
    requires
        stream.len() >= 4,
        le_value(stream) > MAXIMUM_DATA,
    ensures
        unpack_spec(stream) == Err::<(Seq<u8>, nat), FrameError>(
            FrameError::FrameTooLarge { declared_length: le_value(stream) as u32 },
        ),
        unpack_spec(stream.subrange(0, 4)) == unpack_spec(stream),
{
    let h = stream.subrange(0, 4);
    assert(le_value(h) == le_value(stream));
}

/// The intermediate framing strategy. It keeps no state between frames.
pub struct TransportIntermediate;

impl TransportIntermediate {
    /// Creates a new instance of a `TransportIntermediate`.
    pub fn new() -> (r: Self) {
        TransportIntermediate
    }

    /// The four header bytes that announce a payload of `len` bytes.
    pub fn encode_length(&self, len: usize) -> (r: [u8; 4])
        requires
            len <= u32::MAX,
        ensures
            r@ == le_bytes(len as nat),
    {
        let r = [
            (len % 256) as u8,
            ((len / 256) % 256) as u8,
            ((len / 65536) % 256) as u8,
            ((len / 16777216) % 256) as u8,
        ];
        assert(r@ =~= le_bytes(len as nat));
        r
    }

    /// The payload length that a received header declares, or
    /// `FrameTooLarge` where it exceeds `MAXIMUM_DATA`.
    pub fn decode_length(&self, header: [u8; 4]) -> (r: Result<usize, FrameError>)
        ensures
            le_value(header@) <= MAXIMUM_DATA ==> r == Ok::<usize, FrameError>(
                le_value(header@) as usize,
            ),
            le_value(header@) > MAXIMUM_DATA ==> r == Err::<usize, FrameError>(
                FrameError::FrameTooLarge { declared_length: le_value(header@) as u32 },
            ),
    {
        let len: u32 = header[0] as u32 + (header[1] as u32) * 256 + (header[2] as u32) * 65536
            + (header[3] as u32) * 16777216;
        if len > MAXIMUM_DATA {
            Err(FrameError::FrameTooLarge { declared_length: len })
        } else {
            Ok(len as usize)
        }
    }

    /// The whole frame for `payload`: its length header, then the payload.
    pub fn pack(&self, payload: &[u8]) -> (r: Vec<u8>)
        requires
            payload@.len() <= u32::MAX,
        ensures
            r@ == frame_of(payload@),
    {
        let header = self.encode_length(payload.len());
        let mut r: Vec<u8> = Vec::new();
        let mut i: usize = 0;
        while i < 4
            invariant
                0 <= i <= 4,
                header@ == le_bytes(payload@.len()),
                r@ == header@.subrange(0, i as int),
            decreases 4 - i,
        {
            r.push(header[i]);
            i = i + 1;
        }
        let mut j: usize = 0;
        while j < payload.len()
            invariant
                0 <= j <= payload@.len(),
                r@ == header@ + payload@.subrange(0, j as int),
                header@ == le_bytes(payload@.len()),
            decreases payload@.len() - j,
        {
            r.push(payload[j]);
            j = j + 1;
            assert(r@ =~= header@ + payload@.subrange(0, j as int));
        }
        assert(payload@.subrange(0, payload@.len() as int) =~= payload@);
        r
    }

    /// Takes one frame from the front of `stream`: its payload and the number
    /// of bytes the frame occupied.
    pub fn unpack(&self, stream: &[u8]) -> (r: Result<(Vec<u8>, usize), FrameError>)
        ensures
            match unpack_spec(stream@) {
                Ok((payload, used)) => r matches Ok((p, u)) && p@ == payload && u == used,
                Err(e) => r == Err::<(Vec<u8>, usize), FrameError>(e),
            },
    {
        if stream.len() < 4 {
            return Err(FrameError::ShortRead);
        }
        let header = [stream[0], stream[1], stream[2], stream[3]];
        assert(le_value(header@) == le_value(stream@));
        let len = match self.decode_length(header) {
            Ok(len) => len,
            Err(e) => return Err(e),
        };
        if stream.len() - 4 < len {
            return Err(FrameError::ShortRead);
        }
        let n = stream.len();
        let mut payload: Vec<u8> = Vec::with_capacity(len);
        let mut i: usize = 0;
        while i < len
            invariant
                0 <= i <= len,
                n == stream@.len(),
                4 + len <= stream@.len(),
                payload@ == stream@.subrange(4, 4 + i),
            decreases len - i,
        {
            payload.push(stream[4 + i]);
            i = i + 1;
            assert(payload@ =~= stream@.subrange(4, 4 + i));
        }
        Ok((payload, 4 + len))
    }
}

} // verus!
