//! Wire format for PCM datagrams.
//!
//! A datagram is a fixed 19-byte header followed by little-endian `binary32`
//! samples:
//!
//! ```text
//! +--------+---------+------------+-------------+----------+-------------+
//! | magic  | version | sequence   | sample rate | channels | payload len |
//! | (4 B)  | (1 B)   | u32 LE     | u32 LE      | u16 LE   | u32 LE      |
//! +--------+---------+------------+-------------+----------+-------------+
//! | payload (samples, little-endian)                                     |
//! +----------------------------------------------------------------------+
//! ```
//!
//! Version 2 of the format, which names the codec of the payload, is in [`v2`].

use crate::buffer::Sample;
use crate::bytes::{bytes_to_words, from_le16, from_le32, le16, le32, lemma_layout, lemma_le16_at, lemma_le32_at, lemma_le_len, lemma_words_len, lemma_words_round_trip, push_le16, push_le32, push_words, read_le16, read_le32, read_words, words_to_bytes};
use crate::text::{append_decimal, decimal, with_number};
use vstd::prelude::*;
use vstd::string::StringExecFns;

pub mod v2;

verus! {

/// Magic bytes identifying a datagram: `SSP1`.
pub const MAGIC: [u8; 4] = [0x53, 0x53, 0x50, 0x31];

/// Current protocol version.
pub const VERSION: u8 = 1;

/// Size of the fixed header in bytes.
pub const HEADER_SIZE: usize = 4 + 1 + 4 + 4 + 2 + 4;

/// Maximum payload size that still fits comfortably inside a single UDP
/// datagram without IP fragmentation (1500-byte MTU minus headers).
pub const MAX_PAYLOAD_BYTES: usize = 1200;

/// A single PCM audio packet carried in one UDP datagram.
#[derive(Debug, Clone, PartialEq)]
pub struct PcmPacket {
    /// Monotonically increasing packet sequence number.
    pub sequence: u32,
    /// Sample rate of the audio, in Hz.
    pub sample_rate: u32,
    /// Number of interleaved channels.
    pub channels: u16,
    /// Interleaved samples.
    pub samples: Vec<Sample>,
}

/// The contents of a packet.
#[verifier::ext_equal]
pub struct PacketModel {
    pub sequence: u32,
    pub sample_rate: u32,
    pub channels: u16,
    pub samples: Seq<Sample>,
}

impl View for PcmPacket {
    type V = PacketModel;

    open spec fn view(&self) -> PacketModel {
        PacketModel {
            sequence: self.sequence,
            sample_rate: self.sample_rate,
            channels: self.channels,
            samples: self.samples@,
        }
    }
}

/// Errors produced while decoding a packet.
#[derive(Debug, Clone, Copy, PartialEq, Eq, Structural)]
pub enum ProtocolError {
    InvalidMagic,
    UnsupportedVersion(u8),
    TooShort(usize),
    PayloadLengthMismatch { expected: usize, actual: usize },
    UnalignedPayload(usize),
}

impl ProtocolError {
    /// What the error says to a user.
    pub open spec fn text(self) -> Seq<char> {
        match self {
            ProtocolError::InvalidMagic => "invalid magic, expected [83, 83, 80, 49]"@,
            ProtocolError::UnsupportedVersion(v) => "unsupported protocol version "@ + decimal(
                v as nat,
            ),
            ProtocolError::TooShort(n) => "packet too short: "@ + decimal(n as nat)
                + " bytes (header is 19 bytes)"@,
            ProtocolError::PayloadLengthMismatch { expected, actual } =>
                "payload length mismatch: header says "@ + decimal(expected as nat)
                + " bytes, buffer has "@ + decimal(actual as nat),
            ProtocolError::UnalignedPayload(n) => "payload length "@ + decimal(n as nat)
                + " is not a multiple of 4 (f32 size)"@,
        }
    }

    pub fn message(&self) -> (s: String)
        ensures
            s@ == self.text(),
    {
        match self {
            ProtocolError::InvalidMagic => String::from_str(
                "invalid magic, expected [83, 83, 80, 49]",
            ),
            ProtocolError::UnsupportedVersion(v) => {
                let mut s: String = String::from_str("unsupported protocol version ");
                append_decimal(&mut s, *v as u64);
                s
            },
            ProtocolError::TooShort(n) => with_number(
                "packet too short: ",
                *n as u64,
                " bytes (header is 19 bytes)",
            ),
            ProtocolError::PayloadLengthMismatch { expected, actual } => {
                let mut s: String = with_number(
                    "payload length mismatch: header says ",
                    *expected as u64,
                    " bytes, buffer has ",
                );
                append_decimal(&mut s, *actual as u64);
                s
            },
            ProtocolError::UnalignedPayload(n) => with_number(
                "payload length ",
                *n as u64,
                " is not a multiple of 4 (f32 size)",
            ),
        }
    }
}

/// The header of a datagram whose payload has `payload_len` bytes.
#[verifier::opaque]
pub open spec fn header(p: PacketModel, payload_len: nat) -> Seq<u8> {
    MAGIC@ + seq![VERSION] + le32(p.sequence) + le32(p.sample_rate) + le16(p.channels) + le32(
        (payload_len % 0x1_0000_0000) as u32,
    )
}

/// The datagram that carries `p`.
pub open spec fn encoded(p: PacketModel) -> Seq<u8> {
    header(p, 4 * p.samples.len()) + words_to_bytes(p.samples)
}

/// The payload length that the header of `buf` claims.
pub open spec fn claimed_len(buf: Seq<u8>) -> usize {
    from_le32(buf, 15) as usize
}

/// What a received datagram means.
pub open spec fn decoded(buf: Seq<u8>) -> Result<PacketModel, ProtocolError> {
    let claimed = claimed_len(buf);
    if buf.len() < HEADER_SIZE {
        Err(ProtocolError::TooShort(buf.len() as usize))
    } else if buf.take(4) != MAGIC@ {
        Err(ProtocolError::InvalidMagic)
    } else if buf[4] != VERSION {
        Err(ProtocolError::UnsupportedVersion(buf[4]))
    } else if claimed % 4 != 0 {
        Err(ProtocolError::UnalignedPayload(claimed))
    } else if claimed > buf.len() - HEADER_SIZE {
        Err(
            ProtocolError::PayloadLengthMismatch {
                expected: claimed,
                actual: (buf.len() - HEADER_SIZE) as usize,
            },
        )
    } else {
        Ok(
            PacketModel {
                sequence: from_le32(buf, 5),
                sample_rate: from_le32(buf, 9),
                channels: from_le16(buf, 13),
                samples: bytes_to_words(
                    buf.subrange(HEADER_SIZE as int, HEADER_SIZE + claimed),
                ),
            },
        )
    }
}

/// Whether `buf` starts with the magic bytes.
pub(crate) fn has_magic(buf: &[u8]) -> (b: bool)
    requires
        buf@.len() >= 4,
    ensures
        b == (buf@.take(4) == MAGIC@),
{
    let b: bool = buf[0] == MAGIC[0] && buf[1] == MAGIC[1] && buf[2] == MAGIC[2] && buf[3]
        == MAGIC[3];
    proof {
        if b {
            assert(buf@.take(4) =~= MAGIC@);
        } else {
            let i: int = if buf[0] != MAGIC[0] {
                0
            } else if buf[1] != MAGIC[1] {
                1
            } else if buf[2] != MAGIC[2] {
                2
            } else {
                3
            };
            assert(buf@.take(4)[i] != MAGIC@[i]);
        }
    }
    b
}

/// The version that a datagram claims, when it starts with the magic bytes.
pub fn claimed_version(buf: &[u8]) -> (version: Option<u8>)
    ensures
        match version {
            Some(v) => buf@.len() > 4 && buf@.take(4) == MAGIC@ && v == buf@[4],
            None => buf@.len() <= 4 || buf@.take(4) != MAGIC@,
        },
{
    if buf.len() > 4 && has_magic(buf) {
        Some(buf[4])
    } else {
        None
    }
}

impl PcmPacket {
    /// Serialize this packet, appending to `out`.
    pub fn encode(&self, out: &mut Vec<u8>)
        requires
            4 * self.samples@.len() <= usize::MAX,
        ensures
            final(out)@ == old(out)@ + encoded(self@),
    {
        let ghost before = out@;
        let payload_len: usize = self.samples.len() * 4;
        out.extend_from_slice(&MAGIC);
        assert(out@ =~= before + MAGIC@);
        out.push(VERSION);
        push_le32(out, self.sequence);
        push_le32(out, self.sample_rate);
        push_le16(out, self.channels);
        push_le32(out, (payload_len as u64 % 0x1_0000_0000) as u32);
        proof {
            reveal(header);
            assert(out@ =~= before + header(self@, payload_len as nat));
        }
        push_words(out, self.samples.as_slice());
        assert(out@ =~= before + encoded(self@));
    }

    /// Deserialize a packet from a received datagram.
    pub fn decode(buf: &[u8]) -> (r: Result<Self, ProtocolError>)
        ensures
            match r {
                Ok(p) => decoded(buf@) == Ok::<PacketModel, ProtocolError>(p@),
                Err(e) => decoded(buf@) == Err::<PacketModel, ProtocolError>(e),
            },
    {
        if buf.len() < HEADER_SIZE {
            return Err(ProtocolError::TooShort(buf.len()));
        }
        if !has_magic(buf) {
            return Err(ProtocolError::InvalidMagic);
        }
        if buf[4] != VERSION {
            return Err(ProtocolError::UnsupportedVersion(buf[4]));
        }
        let sequence: u32 = read_le32(buf, 5);
        let sample_rate: u32 = read_le32(buf, 9);
        let channels: u16 = read_le16(buf, 13);
        let payload_len: usize = read_le32(buf, 15) as usize;
        if payload_len % 4 != 0 {
            return Err(ProtocolError::UnalignedPayload(payload_len));
        }
        let available: usize = buf.len() - HEADER_SIZE;
        if payload_len > available {
            return Err(
                ProtocolError::PayloadLengthMismatch { expected: payload_len, actual: available },
            );
        }
        let samples: Vec<Sample> = read_words(buf, HEADER_SIZE, payload_len);
        Ok(PcmPacket { sequence, sample_rate, channels, samples })
    }
}

/// Decoding gives back the packet that was encoded, whatever follows it in the
/// buffer.
pub proof fn law_decode_inverts_encode(p: PacketModel, trailing: Seq<u8>)
    requires
        4 * p.samples.len() <= u32::MAX,
    ensures
        decoded(encoded(p) + trailing) == Ok::<PacketModel, ProtocolError>(p),
{
    let buf = encoded(p) + trailing;
    lemma_header_fields(p, 4 * p.samples.len(), words_to_bytes(p.samples) + trailing);
    assert(buf =~= header(p, 4 * p.samples.len()) + (words_to_bytes(p.samples) + trailing));
    lemma_words_round_trip(p.samples);
    assert(buf.subrange(HEADER_SIZE as int, HEADER_SIZE + 4 * p.samples.len()) =~= words_to_bytes(
        p.samples,
    ));
}

/// A datagram is the header and four bytes per sample.
pub proof fn law_encoded_len(p: PacketModel)
    ensures
        encoded(p).len() == HEADER_SIZE + 4 * p.samples.len(),
{
    reveal(header);
    lemma_le_len();
    lemma_words_len(p.samples);
}

/// A datagram cut short is refused.
pub proof fn law_truncated_datagram_is_refused(p: PacketModel, n: nat)
    requires
        4 * p.samples.len() <= u32::MAX,
        n < encoded(p).len(),
    ensures
        decoded(encoded(p).take(n as int)) == if n < HEADER_SIZE {
            Err::<PacketModel, ProtocolError>(ProtocolError::TooShort(n as usize))
        } else {
            Err::<PacketModel, ProtocolError>(
                ProtocolError::PayloadLengthMismatch {
                    expected: (4 * p.samples.len()) as usize,
                    actual: (n - HEADER_SIZE) as usize,
                },
            )
        },
{
    let buf = encoded(p).take(n as int);
    law_encoded_len(p);
    if n >= HEADER_SIZE {
        let rest = buf.skip(HEADER_SIZE as int);
        lemma_header_fields(p, 4 * p.samples.len(), rest);
        assert(buf =~= header(p, 4 * p.samples.len()) + rest);
    }
}

/// The fields of a header are found where they were written.
proof fn lemma_header_fields(p: PacketModel, payload_len: nat, rest: Seq<u8>)
    requires
        payload_len <= u32::MAX,
    ensures
        ({
            let buf = header(p, payload_len) + rest;
            &&& header(p, payload_len).len() == HEADER_SIZE
            &&& buf.take(4) == MAGIC@
            &&& buf[4] == VERSION
            &&& from_le32(buf, 5) == p.sequence
            &&& from_le32(buf, 9) == p.sample_rate
            &&& from_le16(buf, 13) == p.channels
            &&& from_le32(buf, 15) == payload_len
        }),
{
    reveal(header);
    let buf = header(p, payload_len) + rest;
    lemma_le_len();
    lemma_layout(
        MAGIC@,
        seq![VERSION],
        le32(p.sequence),
        le32(p.sample_rate),
        le16(p.channels),
        le32(payload_len as u32),
        rest,
    );
    assert(buf[4] == buf.subrange(4, 5)[0]);
    lemma_le32_at(buf, 5, p.sequence);
    lemma_le32_at(buf, 9, p.sample_rate);
    lemma_le16_at(buf, 13, p.channels);
    lemma_le32_at(buf, 15, payload_len as u32);
}

/// Where everything stands in a datagram: the magic bytes, the version, and then
/// the numbers, each with its least significant byte first.
pub proof fn law_datagram_layout(p: PacketModel, i: int)
    requires
        4 * p.samples.len() <= u32::MAX,
        0 <= i < p.samples.len(),
    ensures
        ({
            let d = encoded(p);
            &&& d.len() == 19 + 4 * p.samples.len()
            &&& d[0] == 83 && d[1] == 83 && d[2] == 80 && d[3] == 49
            &&& d[4] == 1
            &&& p.sequence == d[5] + 0x100 * d[6] + 0x1_0000 * d[7] + 0x100_0000 * d[8]
            &&& p.sample_rate == d[9] + 0x100 * d[10] + 0x1_0000 * d[11] + 0x100_0000 * d[12]
            &&& p.channels == d[13] + 0x100 * d[14]
            &&& 4 * p.samples.len() == d[15] + 0x100 * d[16] + 0x1_0000 * d[17] + 0x100_0000 * d[18]
            &&& p.samples[i] == d[19 + 4 * i] + 0x100 * d[20 + 4 * i] + 0x1_0000 * d[21 + 4 * i] + 0x100_0000 * d[22 + 4 * i]
        }),
{
    let d = encoded(p);
    let n = 4 * p.samples.len();
    law_encoded_len(p);
    lemma_header_fields(p, n, words_to_bytes(p.samples));
    assert(d.take(4)[0] == d[0] && d.take(4)[1] == d[1] && d.take(4)[2] == d[2] && d.take(4)[3]
        == d[3]);
    lemma_words_round_trip(p.samples);
    reveal(bytes_to_words);
    let words = words_to_bytes(p.samples);
    assert(bytes_to_words(words)[i] == from_le32(words, 4 * i));
    assert(d[19 + 4 * i] == words[4 * i] && d[20 + 4 * i] == words[4 * i + 1] && d[21 + 4 * i]
        == words[4 * i + 2] && d[22 + 4 * i] == words[4 * i + 3]);
}

/// What a received datagram is refused for, in this order, and what it means when
/// it is not.
pub proof fn law_datagrams_are_told_apart(buf: Seq<u8>, i: int)
    requires
        buf.len() <= usize::MAX,
    ensures
        ({
            let claimed = (buf[15] + 0x100 * buf[16] + 0x1_0000 * buf[17] + 0x100_0000 * buf[18]) as usize;
            let magic = buf[0] == 83 && buf[1] == 83 && buf[2] == 80 && buf[3] == 49;
            let r = decoded(buf);
            if buf.len() < 19 {
                r == Err::<PacketModel, ProtocolError>(ProtocolError::TooShort(buf.len() as usize))
            } else if !magic {
                r == Err::<PacketModel, ProtocolError>(ProtocolError::InvalidMagic)
            } else if buf[4] != 1 {
                r == Err::<PacketModel, ProtocolError>(ProtocolError::UnsupportedVersion(buf[4]))
            } else if claimed % 4 != 0 {
                r == Err::<PacketModel, ProtocolError>(ProtocolError::UnalignedPayload(claimed))
            } else if claimed > buf.len() - 19 {
                r == Err::<PacketModel, ProtocolError>(
                    ProtocolError::PayloadLengthMismatch {
                        expected: claimed,
                        actual: (buf.len() - 19) as usize,
                    },
                )
            } else {
                &&& r is Ok
                &&& r->Ok_0.sequence == buf[5] + 0x100 * buf[6] + 0x1_0000 * buf[7] + 0x100_0000 * buf[8]
                &&& r->Ok_0.sample_rate == buf[9] + 0x100 * buf[10] + 0x1_0000 * buf[11] + 0x100_0000 * buf[12]
                &&& r->Ok_0.channels == buf[13] + 0x100 * buf[14]
                &&& 4 * r->Ok_0.samples.len() == claimed
                &&& 0 <= i < r->Ok_0.samples.len() ==> r->Ok_0.samples[i] == buf[19 + 4 * i] + 0x100 * buf[20 + 4 * i] + 0x1_0000 * buf[21 + 4 * i] + 0x100_0000 * buf[22 + 4 * i]
            }
        }),
{
    reveal(bytes_to_words);
    assert(MAGIC@ =~= seq![83u8, 83, 80, 49]);
    if buf.len() >= 19 {
        let head = buf.take(4);
        assert(head[0] == buf[0] && head[1] == buf[1] && head[2] == buf[2] && head[3] == buf[3]);
        if head[0] == 83 && head[1] == 83 && head[2] == 80 && head[3] == 49 {
            assert(head =~= MAGIC@);
        }
    }
}

/// Every error names the numbers that it is about.
pub proof fn law_error_texts(e: ProtocolError)
    ensures
        match e {
            ProtocolError::InvalidMagic => e.text() == "invalid magic, expected [83, 83, 80, 49]"@,
            ProtocolError::UnsupportedVersion(v) => e.text() == "unsupported protocol version "@
                + decimal(v as nat),
            ProtocolError::TooShort(n) => e.text() == "packet too short: "@ + decimal(n as nat)
                + " bytes (header is 19 bytes)"@,
            ProtocolError::PayloadLengthMismatch { expected, actual } => e.text()
                == "payload length mismatch: header says "@ + decimal(expected as nat)
                + " bytes, buffer has "@ + decimal(actual as nat),
            ProtocolError::UnalignedPayload(n) => e.text() == "payload length "@ + decimal(n as nat)
                + " is not a multiple of 4 (f32 size)"@,
        },
{
}

} // verus!
