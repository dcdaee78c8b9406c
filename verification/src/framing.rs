//! Length-prefixed framing of first-pass summaries.
//!
//! A frame is an 8-byte big-endian signed length followed by exactly that
//! many bytes of opaque summary data. Bytes after the frame are not part of
//! it and are left alone by the reader.

use vstd::prelude::*;

verus! {

/// Number of bytes in the length prefix of a frame.
pub const PREFIX_LEN: usize = 8;

/// Why a buffer could not be turned into a codec configuration.
#[derive(Debug, Clone, Copy, PartialEq, Eq, Structural)]
pub enum ConfigError {
    /// The buffer ends before the 8-byte length prefix is complete.
    ShortPrefix,
    /// The buffer holds fewer bytes after the prefix than the prefix
    /// declares, or the declared length is negative.
    ShortSummary,
    /// The framing is intact but the codec rejects the summary bytes.
    InvalidSummary,
}

/// The unsigned value of the first eight bytes of `bytes`, most significant
/// byte first.
pub open spec fn be_value(bytes: Seq<u8>) -> int
    recommends
        bytes.len() >= 8,
{
    bytes[0] as int * 0x0100_0000_0000_0000 + bytes[1] as int * 0x0001_0000_0000_0000
        + bytes[2] as int * 0x0000_0100_0000_0000 + bytes[3] as int * 0x0000_0001_0000_0000
        + bytes[4] as int * 0x0000_0000_0100_0000 + bytes[5] as int * 0x0000_0000_0001_0000
        + bytes[6] as int * 0x0000_0000_0000_0100 + bytes[7] as int
}

/// The length that the prefix of `bytes` declares, read as a signed 64-bit
/// two's complement number.
pub open spec fn declared_len(bytes: Seq<u8>) -> int
    recommends
        bytes.len() >= 8,
{
    if be_value(bytes) < 0x8000_0000_0000_0000 {
        be_value(bytes)
    } else {
        be_value(bytes) - 0x1_0000_0000_0000_0000
    }
}

/// The eight prefix bytes that declare the length `len`.
pub open spec fn length_prefix(len: int) -> Seq<u8>
    recommends
        0 <= len < 0x8000_0000_0000_0000,
{
    seq![
        ((len / 0x0100_0000_0000_0000) % 256) as u8,
        ((len / 0x0001_0000_0000_0000) % 256) as u8,
        ((len / 0x0000_0100_0000_0000) % 256) as u8,
        ((len / 0x0000_0001_0000_0000) % 256) as u8,
        ((len / 0x0000_0000_0100_0000) % 256) as u8,
        ((len / 0x0000_0000_0001_0000) % 256) as u8,
        ((len / 0x0000_0000_0000_0100) % 256) as u8,
        (len % 256) as u8,
    ]
}

/// The frame that carries `payload`: its length prefix, then the payload.
pub open spec fn framed(payload: Seq<u8>) -> Seq<u8> {
    length_prefix(payload.len() as int) + payload
}

/// What reading one frame from the start of `bytes` yields: the payload, or
/// the read that came up short.
pub open spec fn parse_frame(bytes: Seq<u8>) -> Result<Seq<u8>, ConfigError> {
    if bytes.len() < 8 {
        Err(ConfigError::ShortPrefix)
    } else if declared_len(bytes) < 0 || 8 + declared_len(bytes) > bytes.len() {
        Err(ConfigError::ShortSummary)
    } else {
        Ok(bytes.subrange(8, 8 + declared_len(bytes)))
    }
}

/// Reads the big-endian length prefix at the start of `bytes`.
pub fn read_prefix(bytes: &[u8]) -> (value: u64)
    requires
        bytes@.len() >= 8,
    ensures
        value == be_value(bytes@),
{
    let b0: u64 = bytes[0] as u64;
    let b1: u64 = bytes[1] as u64;
    let b2: u64 = bytes[2] as u64;
    let b3: u64 = bytes[3] as u64;
    let b4: u64 = bytes[4] as u64;
    let b5: u64 = bytes[5] as u64;
    let b6: u64 = bytes[6] as u64;
    let b7: u64 = bytes[7] as u64;
    b0 * 0x0100_0000_0000_0000 + b1 * 0x0001_0000_0000_0000 + b2 * 0x0000_0100_0000_0000 + b3
        * 0x0000_0001_0000_0000 + b4 * 0x0000_0000_0100_0000 + b5 * 0x0000_0000_0001_0000 + b6
        * 0x0000_0000_0000_0100 + b7
}

/// Reads one frame from the start of `bytes` and returns a copy of its
/// payload. Fails when the prefix or the payload is cut short; bytes that
/// follow the frame are ignored.
pub fn read_summary_frame(bytes: &[u8]) -> (result: Result<Vec<u8>, ConfigError>)
    ensures
        match result {
            Ok(payload) => parse_frame(bytes@) == Ok::<Seq<u8>, ConfigError>(payload@),
            Err(e) => parse_frame(bytes@) == Err::<Seq<u8>, ConfigError>(e),
        },
{
    let n: usize = bytes.len();
    if n < PREFIX_LEN {
        return Err(ConfigError::ShortPrefix);
    }
    let declared: u64 = read_prefix(bytes);
    if declared > 0x7fff_ffff_ffff_ffff || declared > (n - PREFIX_LEN) as u64 {
        return Err(ConfigError::ShortSummary);
    }
    let len: usize = declared as usize;
    let mut payload: Vec<u8> = Vec::with_capacity(len);
    let mut i: usize = 0;
    while i < len
        invariant
            i <= len,
            n == bytes@.len(),
            PREFIX_LEN + len <= n,
            payload@ == bytes@.subrange(PREFIX_LEN as int, PREFIX_LEN + i),
        decreases len - i,
    {
        payload.push(bytes[PREFIX_LEN + i]);
        i += 1;
    }
    Ok(payload)
}

/// Frames `payload`: writes its length as an 8-byte big-endian prefix and
/// appends the payload.
pub fn frame_summary(payload: &[u8]) -> (frame: Vec<u8>)
    requires
        payload@.len() <= i64::MAX,
    ensures
        frame@ == framed(payload@),
{
    let len: u64 = payload.len() as u64;
    let mut frame: Vec<u8> = Vec::with_capacity(PREFIX_LEN);
    frame.push(((len / 0x0100_0000_0000_0000) % 256) as u8);
    frame.push(((len / 0x0001_0000_0000_0000) % 256) as u8);
    frame.push(((len / 0x0000_0100_0000_0000) % 256) as u8);
    frame.push(((len / 0x0000_0001_0000_0000) % 256) as u8);
    frame.push(((len / 0x0000_0000_0100_0000) % 256) as u8);
    frame.push(((len / 0x0000_0000_0001_0000) % 256) as u8);
    frame.push(((len / 0x0000_0000_0000_0100) % 256) as u8);
    frame.push((len % 256) as u8);
    assert(frame@ == length_prefix(len as int));
    let mut i: usize = 0;
    while i < payload.len()
        invariant
            i <= payload@.len(),
            frame@ == length_prefix(payload@.len() as int) + payload@.subrange(0, i as int),
        decreases payload@.len() - i,
    {
        frame.push(payload[i]);
        i += 1;
    }
    assert(payload@.subrange(0, i as int) == payload@);
    frame
}

/// The prefix written for a length reads back as that length.
pub proof fn lemma_prefix_round_trip(len: int)
    requires
        0 <= len < 0x8000_0000_0000_0000,
    ensures
        length_prefix(len).len() == 8,
        be_value(length_prefix(len)) == len,
        declared_len(length_prefix(len)) == len,
{
    let q1 = len / 256;
    let q2 = q1 / 256;
    let q3 = q2 / 256;
    let q4 = q3 / 256;
    let q5 = q4 / 256;
    let q6 = q5 / 256;
    let q7 = q6 / 256;
    assert(len / 0x0000_0000_0000_0100 == q1);
    assert(len / 0x0000_0000_0001_0000 == q2);
    assert(len / 0x0000_0000_0100_0000 == q3);
    assert(len / 0x0000_0001_0000_0000 == q4);
    assert(len / 0x0000_0100_0000_0000 == q5);
    assert(len / 0x0001_0000_0000_0000 == q6);
    assert(len / 0x0100_0000_0000_0000 == q7);
    assert(q7 < 128);
    let p = length_prefix(len);
    assert(p[0] == q7);
    assert(p[1] == q6 % 256);
    assert(p[2] == q5 % 256);
    assert(p[3] == q4 % 256);
    assert(p[4] == q3 % 256);
    assert(p[5] == q2 % 256);
    assert(p[6] == q1 % 256);
    assert(p[7] == len % 256);
}

/// A framed summary reads back as the summary that was framed.
pub proof fn lemma_frame_round_trip(payload: Seq<u8>)
    requires
        payload.len() <= i64::MAX,
    ensures
        parse_frame(framed(payload)) == Ok::<Seq<u8>, ConfigError>(payload),
{
    let len = payload.len() as int;
    let frame = framed(payload);
    lemma_prefix_round_trip(len);
    lemma_prefix_only(frame, length_prefix(len));
    assert(frame.subrange(8, 8 + len) == payload);
}

/// A frame that lost one or more bytes at its end is never read as a frame.
pub proof fn lemma_truncated_frame_rejected(payload: Seq<u8>, kept: int)
    requires
        payload.len() <= i64::MAX,
        0 <= kept < framed(payload).len(),
    ensures
        parse_frame(framed(payload).take(kept)) is Err,
        kept < 8 ==> parse_frame(framed(payload).take(kept)) == Err::<Seq<u8>, ConfigError>(
            ConfigError::ShortPrefix,
        ),
        kept >= 8 ==> parse_frame(framed(payload).take(kept)) == Err::<Seq<u8>, ConfigError>(
            ConfigError::ShortSummary,
        ),
{
    let len = payload.len() as int;
    let cut = framed(payload).take(kept);
    lemma_prefix_round_trip(len);
    if kept >= 8 {
        lemma_prefix_only(cut, length_prefix(len));
    }
}

/// The declared length depends on the first eight bytes alone.
proof fn lemma_prefix_only(bytes: Seq<u8>, prefix: Seq<u8>)
    requires
        prefix.len() == 8,
        bytes.len() >= 8,
        forall|i: int| 0 <= i < 8 ==> bytes[i] == prefix[i],
    ensures
        be_value(bytes) == be_value(prefix),
        declared_len(bytes) == declared_len(prefix),
{
}

} // verus!
