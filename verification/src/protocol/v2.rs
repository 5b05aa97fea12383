//! Version 2 of the wire format: the header names the codec of the payload.
//!
//! A datagram is a fixed 20-byte header followed by the payload:
//!
//! ```text
//! +--------+---------+-------+------------+-------------+----------+-------------+
//! | magic  | version | codec | sequence   | sample rate | channels | payload len |
//! | (4 B)  | (1 B)   | (1 B) | u32 LE     | u32 LE      | u16 LE   | u32 LE      |
//! +--------+---------+-------+------------+-------------+----------+-------------+
//! ```

use crate::buffer::Sample;
use crate::bytes::{bytes_to_words, from_le16, from_le32, le16, le32, lemma_layout, lemma_le16_at, lemma_le32_at, lemma_le_len, lemma_words_round_trip, push_le16, push_le32, push_words, read_le16, read_le32, read_words, words_to_bytes};
use crate::protocol;
use crate::protocol::{has_magic, MAGIC};
use crate::text::{append_decimal, decimal, with_number};
use vstd::prelude::*;
use vstd::string::StringExecFns;

verus! {

/// The version in the header.
pub const VERSION: u8 = 2;

/// Size of the fixed header in bytes.
pub const HEADER_SIZE: usize = 4 + 1 + 1 + 4 + 4 + 2 + 4;

/// How a payload is encoded.
#[derive(Debug, Clone, Copy, PartialEq, Eq, Structural)]
pub enum Codec {
    /// Uncompressed little-endian samples.
    Pcm,
    /// One Opus frame.
    Opus,
}

impl Codec {
    /// The byte that stands for this codec in the header.
    pub open spec fn spec_byte(self) -> u8 {
        match self {
            Codec::Pcm => 0,
            Codec::Opus => 1,
        }
    }

    /// The codec that a header byte stands for.
    pub open spec fn spec_from_byte(byte: u8) -> Option<Codec> {
        if byte == 0 {
            Some(Codec::Pcm)
        } else if byte == 1 {
            Some(Codec::Opus)
        } else {
            None
        }
    }

    pub fn to_byte(self) -> (byte: u8)
        ensures
            byte == self.spec_byte(),
    {
        match self {
            Codec::Pcm => 0,
            Codec::Opus => 1,
        }
    }

    pub fn from_byte(byte: u8) -> (codec: Option<Codec>)
        ensures
            codec == Codec::spec_from_byte(byte),
    {
        if byte == 0 {
            Some(Codec::Pcm)
        } else if byte == 1 {
            Some(Codec::Opus)
        } else {
            None
        }
    }
}

/// A single audio packet carried in one UDP datagram.
#[derive(Debug, Clone, PartialEq)]
pub struct PcmPacket {
    /// Monotonically increasing packet sequence number.
    pub sequence: u32,
    /// Sample rate of the audio, in Hz.
    pub sample_rate: u32,
    /// Number of interleaved channels.
    pub channels: u16,
    /// How the payload is encoded.
    pub codec: Codec,
    pub payload: Vec<u8>,
}

/// The contents of a packet.
#[verifier::ext_equal]
pub struct PacketModel {
    pub sequence: u32,
    pub sample_rate: u32,
    pub channels: u16,
    pub codec: Codec,
    pub payload: Seq<u8>,
}

impl PacketModel {
    /// The samples of a PCM payload that is made of whole samples.
    pub open spec fn samples(self) -> Option<Seq<Sample>> {
        if self.codec == Codec::Pcm && self.payload.len() % 4 == 0 {
            Some(bytes_to_words(self.payload))
        } else {
            None
        }
    }
}

impl View for PcmPacket {
    type V = PacketModel;

    open spec fn view(&self) -> PacketModel {
        PacketModel {
            sequence: self.sequence,
            sample_rate: self.sample_rate,
            channels: self.channels,
            codec: self.codec,
            payload: self.payload@,
        }
    }
}

/// Errors produced while decoding a packet.
#[derive(Debug, Clone, Copy, PartialEq, Eq, Structural)]
pub enum ProtocolError {
    InvalidMagic,
    UnsupportedVersion(u8),
    UnknownCodec(u8),
    TooShort(usize),
    PayloadLengthMismatch { expected: usize, actual: usize },
    UnalignedPayload(usize),
}

impl ProtocolError {
    /// What the error says to a user.
    pub open spec fn text(self) -> Seq<char> {
        match self {
            ProtocolError::InvalidMagic => protocol::ProtocolError::InvalidMagic.text(),
            ProtocolError::UnsupportedVersion(v) => protocol::ProtocolError::UnsupportedVersion(
                v,
            ).text(),
            ProtocolError::UnknownCodec(c) => "unknown codec "@ + decimal(c as nat),
            ProtocolError::TooShort(n) => "packet too short: "@ + decimal(n as nat)
                + " bytes (header is 20 bytes)"@,
            ProtocolError::PayloadLengthMismatch { expected, actual } =>
                (protocol::ProtocolError::PayloadLengthMismatch { expected, actual }).text(),
            ProtocolError::UnalignedPayload(n) => protocol::ProtocolError::UnalignedPayload(
                n,
            ).text(),
        }
    }

    pub fn message(&self) -> (s: String)
        ensures
            s@ == self.text(),
    {
        match *self {
            ProtocolError::InvalidMagic => protocol::ProtocolError::InvalidMagic.message(),
            ProtocolError::UnsupportedVersion(v) => protocol::ProtocolError::UnsupportedVersion(
                v,
            ).message(),
            ProtocolError::UnknownCodec(c) => {
                let mut s: String = String::from_str("unknown codec ");
                append_decimal(&mut s, c as u64);
                s
            },
            ProtocolError::TooShort(n) => with_number(
                "packet too short: ",
                n as u64,
                " bytes (header is 20 bytes)",
            ),
            ProtocolError::PayloadLengthMismatch { expected, actual } =>
                (protocol::ProtocolError::PayloadLengthMismatch { expected, actual }).message(),
            ProtocolError::UnalignedPayload(n) => protocol::ProtocolError::UnalignedPayload(
                n,
            ).message(),
        }
    }
}

/// The header of a datagram.
#[verifier::opaque]
pub open spec fn header(p: PacketModel) -> Seq<u8> {
    MAGIC@ + seq![VERSION, p.codec.spec_byte()] + le32(p.sequence) + le32(p.sample_rate) + le16(
        p.channels,
    ) + le32((p.payload.len() % 0x1_0000_0000) as u32)
}

/// The datagram that carries `p`.
pub open spec fn encoded(p: PacketModel) -> Seq<u8> {
    header(p) + p.payload
}

/// What a received datagram means.
pub open spec fn decoded(buf: Seq<u8>) -> Result<PacketModel, ProtocolError> {
    let claimed = from_le32(buf, 16) as usize;
    if buf.len() < HEADER_SIZE {
        Err(ProtocolError::TooShort(buf.len() as usize))
    } else if buf.take(4) != MAGIC@ {
        Err(ProtocolError::InvalidMagic)
    } else if buf[4] != VERSION {
        Err(ProtocolError::UnsupportedVersion(buf[4]))
    } else {
        match Codec::spec_from_byte(buf[5]) {
            None => Err(ProtocolError::UnknownCodec(buf[5])),
            Some(codec) => if codec == Codec::Pcm && claimed % 4 != 0 {
                Err(ProtocolError::UnalignedPayload(claimed))
            } else if claimed > buf.len() - HEADER_SIZE {
                Err(
                    ProtocolError::PayloadLengthMismatch {
                        expected: claimed,
                        actual: (buf.len() - HEADER_SIZE) as usize,
                    },
                )
            } else {
                Ok(
                    PacketModel {
                        sequence: from_le32(buf, 6),
                        sample_rate: from_le32(buf, 10),
                        channels: from_le16(buf, 14),
                        codec,
                        payload: buf.subrange(HEADER_SIZE as int, HEADER_SIZE + claimed),
                    },
                )
            },
        }
    }
}

impl PcmPacket {
    /// A packet of uncompressed samples.
    pub fn from_pcm(sequence: u32, sample_rate: u32, channels: u16, samples: &[Sample]) -> (p: Self)
        requires
            4 * samples@.len() <= usize::MAX,
        ensures
            p@ == (PacketModel {
                sequence,
                sample_rate,
                channels,
                codec: Codec::Pcm,
                payload: words_to_bytes(samples@),
            }),
    {
        let mut payload: Vec<u8> = Vec::new();
        push_words(&mut payload, samples);
        assert(payload@ =~= words_to_bytes(samples@));
        PcmPacket { sequence, sample_rate, channels, codec: Codec::Pcm, payload }
    }

    /// A packet that carries one Opus frame.
    pub fn from_opus(sequence: u32, sample_rate: u32, channels: u16, payload: Vec<u8>) -> (p: Self)
        ensures
            p@ == (PacketModel {
                sequence,
                sample_rate,
                channels,
                codec: Codec::Opus,
                payload: payload@,
            }),
    {
        PcmPacket { sequence, sample_rate, channels, codec: Codec::Opus, payload }
    }

    /// The samples of a PCM payload; none for another codec or a payload that
    /// is not made of whole samples.
    pub fn samples(&self) -> (samples: Option<Vec<Sample>>)
        ensures
            match samples {
                Some(s) => self@.samples() == Some(s@),
                None => self@.samples() is None,
            },
    {
        if self.codec == Codec::Pcm && self.payload.len() % 4 == 0 {
            let len: usize = self.payload.len();
            assert(self.payload@.subrange(0, len as int) =~= self.payload@);
            Some(read_words(self.payload.as_slice(), 0, len))
        } else {
            None
        }
    }

    /// Serialize this packet, appending to `out`.
    pub fn encode(&self, out: &mut Vec<u8>)
        ensures
            final(out)@ == old(out)@ + encoded(self@),
    {
        let ghost before = out@;
        out.extend_from_slice(&MAGIC);
        assert(out@ =~= before + MAGIC@);
        out.push(VERSION);
        out.push(self.codec.to_byte());
        push_le32(out, self.sequence);
        push_le32(out, self.sample_rate);
        push_le16(out, self.channels);
        push_le32(out, (self.payload.len() as u64 % 0x1_0000_0000) as u32);
        proof {
            reveal(header);
            assert(out@ =~= before + header(self@));
        }
        out.extend_from_slice(self.payload.as_slice());
        assert(out@ =~= before + encoded(self@));
    }

    /// Deserialize a packet from a received datagram.
    pub fn decode(buf: &[u8]) -> (r: Result<Self, ProtocolError>)
        ensures
            match r {
                Ok(p) => decoded(buf@) == Ok::<PacketModel, ProtocolError>(p@),
                Err(e) => decoded(buf@) == Err::<PacketModel, ProtocolError>(e),
            },
    {
        if buf.len() < HEADER_SIZE {
            return Err(ProtocolError::TooShort(buf.len()));
        }
        if !has_magic(buf) {
            return Err(ProtocolError::InvalidMagic);
        }
        if buf[4] != VERSION {
            return Err(ProtocolError::UnsupportedVersion(buf[4]));
        }
        let codec: Codec = match Codec::from_byte(buf[5]) {
            Some(codec) => codec,
            None => {
                return Err(ProtocolError::UnknownCodec(buf[5]));
            },
        };
        let sequence: u32 = read_le32(buf, 6);
        let sample_rate: u32 = read_le32(buf, 10);
        let channels: u16 = read_le16(buf, 14);
        let payload_len: usize = read_le32(buf, 16) as usize;
        if codec == Codec::Pcm && payload_len % 4 != 0 {
            return Err(ProtocolError::UnalignedPayload(payload_len));
        }
        let available: usize = buf.len() - HEADER_SIZE;
        if payload_len > available {
            return Err(
                ProtocolError::PayloadLengthMismatch { expected: payload_len, actual: available },
            );
        }
        let mut payload: Vec<u8> = Vec::new();
        let body: &[u8] = vstd::slice::slice_subrange(buf, HEADER_SIZE, HEADER_SIZE + payload_len);
        payload.extend_from_slice(body);
        assert(payload@ =~= buf@.subrange(HEADER_SIZE as int, HEADER_SIZE + payload_len));
        Ok(PcmPacket { sequence, sample_rate, channels, codec, payload })
    }
}

/// Decoding gives back the packet that was encoded, whatever follows it in the
/// buffer.
pub proof fn law_decode_inverts_encode(p: PacketModel, trailing: Seq<u8>)
    requires
        p.payload.len() <= u32::MAX,
        p.codec == Codec::Pcm ==> p.payload.len() % 4 == 0,
    ensures
        decoded(encoded(p) + trailing) == Ok::<PacketModel, ProtocolError>(p),
{
    let buf = encoded(p) + trailing;
    lemma_header_fields(p, p.payload + trailing);
    assert(buf =~= header(p) + (p.payload + trailing));
    assert(buf.subrange(HEADER_SIZE as int, HEADER_SIZE + p.payload.len()) =~= p.payload);
}

/// The fields of a header are found where they were written.
proof fn lemma_header_fields(p: PacketModel, rest: Seq<u8>)
    requires
        p.payload.len() <= u32::MAX,
    ensures
        ({
            let buf = header(p) + rest;
            &&& header(p).len() == HEADER_SIZE
            &&& buf.take(4) == MAGIC@
            &&& buf[4] == VERSION
            &&& buf[5] == p.codec.spec_byte()
            &&& from_le32(buf, 6) == p.sequence
            &&& from_le32(buf, 10) == p.sample_rate
            &&& from_le16(buf, 14) == p.channels
            &&& from_le32(buf, 16) == p.payload.len()
        }),
{
    reveal(header);
    let buf = header(p) + rest;
    let kind = seq![VERSION, p.codec.spec_byte()];
    let len = p.payload.len() as u32;
    lemma_le_len();
    lemma_layout(
        MAGIC@,
        kind,
        le32(p.sequence),
        le32(p.sample_rate),
        le16(p.channels),
        le32(len),
        rest,
    );
    assert(buf[4] == buf.subrange(4, 6)[0]);
    assert(buf[5] == buf.subrange(4, 6)[1]);
    lemma_le32_at(buf, 6, p.sequence);
    lemma_le32_at(buf, 10, p.sample_rate);
    lemma_le16_at(buf, 14, p.channels);
    lemma_le32_at(buf, 16, len);
}

/// A datagram is the header and the payload.
pub proof fn law_encoded_len(p: PacketModel)
    ensures
        encoded(p).len() == HEADER_SIZE + p.payload.len(),
{
    reveal(header);
    lemma_le_len();
}

/// The samples put into a PCM packet are the samples it gives back.
pub proof fn law_pcm_samples_round_trip(p: PacketModel, samples: Seq<Sample>)
    requires
        p.codec == Codec::Pcm,
        p.payload == words_to_bytes(samples),
    ensures
        p.samples() == Some(samples),
{
    lemma_words_round_trip(samples);
}

/// Each codec has its own byte.
pub proof fn law_codec_bytes(codec: Codec, byte: u8)
    ensures
        Codec::spec_from_byte(codec.spec_byte()) == Some(codec),
        Codec::spec_from_byte(byte) matches Some(c) ==> c.spec_byte() == byte,
{
}

/// Where everything stands in a datagram: the magic bytes, the version, the codec
/// (0 for uncompressed samples, 1 for Opus), then the numbers, each with its least
/// significant byte first, and the payload.
pub proof fn law_datagram_layout(p: PacketModel)
    requires
        p.payload.len() <= u32::MAX,
    ensures
        ({
            let d = encoded(p);
            &&& d.len() == 20 + p.payload.len()
            &&& d[0] == 83 && d[1] == 83 && d[2] == 80 && d[3] == 49
            &&& d[4] == 2
            &&& d[5] == if p.codec == Codec::Pcm { 0 } else { 1int }
            &&& p.sequence == d[6] + 0x100 * d[7] + 0x1_0000 * d[8] + 0x100_0000 * d[9]
            &&& p.sample_rate == d[10] + 0x100 * d[11] + 0x1_0000 * d[12] + 0x100_0000 * d[13]
            &&& p.channels == d[14] + 0x100 * d[15]
            &&& p.payload.len() == d[16] + 0x100 * d[17] + 0x1_0000 * d[18] + 0x100_0000 * d[19]
            &&& d.skip(20) == p.payload
        }),
{
    let d = encoded(p);
    law_encoded_len(p);
    lemma_header_fields(p, p.payload);
    assert(d.take(4)[0] == d[0] && d.take(4)[1] == d[1] && d.take(4)[2] == d[2] && d.take(4)[3]
        == d[3]);
    assert(d.skip(20) =~= p.payload);
}

/// What a received datagram is refused for, in this order, and what it means when
/// it is not.
pub proof fn law_datagrams_are_told_apart(buf: Seq<u8>)
    requires
        buf.len() <= usize::MAX,
    ensures
        ({
            let claimed = (buf[16] + 0x100 * buf[17] + 0x1_0000 * buf[18] + 0x100_0000 * buf[19]) as usize;
            let magic = buf[0] == 83 && buf[1] == 83 && buf[2] == 80 && buf[3] == 49;
            let r = decoded(buf);
            if buf.len() < 20 {
                r == Err::<PacketModel, ProtocolError>(ProtocolError::TooShort(buf.len() as usize))
            } else if !magic {
                r == Err::<PacketModel, ProtocolError>(ProtocolError::InvalidMagic)
            } else if buf[4] != 2 {
                r == Err::<PacketModel, ProtocolError>(ProtocolError::UnsupportedVersion(buf[4]))
            } else if buf[5] > 1 {
                r == Err::<PacketModel, ProtocolError>(ProtocolError::UnknownCodec(buf[5]))
            } else if buf[5] == 0 && claimed % 4 != 0 {
                r == Err::<PacketModel, ProtocolError>(ProtocolError::UnalignedPayload(claimed))
            } else if claimed > buf.len() - 20 {
                r == Err::<PacketModel, ProtocolError>(
                    ProtocolError::PayloadLengthMismatch {
                        expected: claimed,
                        actual: (buf.len() - 20) as usize,
                    },
                )
            } else {
                &&& r is Ok
                &&& r->Ok_0.sequence == buf[6] + 0x100 * buf[7] + 0x1_0000 * buf[8] + 0x100_0000 * buf[9]
                &&& r->Ok_0.sample_rate == buf[10] + 0x100 * buf[11] + 0x1_0000 * buf[12] + 0x100_0000 * buf[13]
                &&& r->Ok_0.channels == buf[14] + 0x100 * buf[15]
                &&& r->Ok_0.codec == if buf[5] == 0 { Codec::Pcm } else { Codec::Opus }
                &&& r->Ok_0.payload == buf.subrange(20, 20 + claimed)
            }
        }),
{
    assert(MAGIC@ =~= seq![83u8, 83, 80, 49]);
    if buf.len() >= 20 {
        let head = buf.take(4);
        assert(head[0] == buf[0] && head[1] == buf[1] && head[2] == buf[2] && head[3] == buf[3]);
        if head[0] == 83 && head[1] == 83 && head[2] == 80 && head[3] == 49 {
            assert(head =~= MAGIC@);
        }
    }
}

/// Uncompressed payloads of whole samples have samples, no others do: one for
/// every four bytes, least significant byte first.
pub proof fn law_samples_of_a_payload(p: PacketModel, i: int)
    ensures
        p.samples() is Some <==> p.codec == Codec::Pcm && p.payload.len() % 4 == 0,
        p.samples() matches Some(s) ==> 4 * s.len() == p.payload.len(),
        p.samples() matches Some(s) ==> (0 <= i < s.len() ==> s[i] == p.payload[4 * i] + 0x100 * p.payload[4 * i + 1] + 0x1_0000 * p.payload[4 * i + 2] + 0x100_0000 * p.payload[4 * i + 3]),
{
    reveal(bytes_to_words);
}

} // verus!
