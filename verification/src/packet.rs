//! The packet type: construction, integrity checking, and the fixed-width
//! little-endian wire encoding.

use vstd::prelude::*;
use vstd::bytes::*;
use vstd::slice::slice_subrange;

verus! {

/// Capacity of the payload buffer, in bytes.
pub const MAX_PAYLOAD_SIZE: usize = 4096;

/// Byte offset of the payload within the wire encoding.
pub const PAYLOAD_OFFSET: usize = 4;

/// Byte offset of the payload length within the wire encoding.
pub const LEN_OFFSET: usize = PAYLOAD_OFFSET + MAX_PAYLOAD_SIZE;

/// Byte offset of the payload type tag within the wire encoding.
pub const TYPE_OFFSET: usize = LEN_OFFSET + 8;

/// Byte offset of the version field within the wire encoding.
pub const VERSION_OFFSET: usize = TYPE_OFFSET + 1;

/// Byte offset of the checksum within the wire encoding.
pub const CHECKSUM_OFFSET: usize = VERSION_OFFSET + 1;

/// Total size of one encoded packet: the wire format is fixed-width,
/// independent of the logical payload length.
pub const WIRE_SIZE: usize = CHECKSUM_OFFSET + 2;

/// The checksum of a byte sequence under CRC-16/X.25 (polynomial 0x1021,
/// initial value 0xFFFF, reflected input and output, final XOR 0xFFFF).
pub uninterp spec fn crc16_x25(data: Seq<u8>) -> u16;

/// Relies on `crc::Crc::<u16>::checksum` with the `CRC_16_IBM_SDLC`
/// (CRC-16/X.25) algorithm: the checksum is a pure function of the input
/// bytes alone.
#[verifier::external_body]
fn crc16_x25_exec(data: &[u8]) -> (r: u16)
    ensures
        r == crc16_x25(data@),
{
    crc::Crc::<u16>::new(&crc::CRC_16_IBM_SDLC).checksum(data)
}

/// The identifier encoded in a wire image.
pub open spec fn spec_parse_uid(s: Seq<u8>) -> u32 {
    spec_u32_from_le_bytes(s.subrange(0, PAYLOAD_OFFSET as int))
}

/// The full payload buffer encoded in a wire image.
pub open spec fn spec_parse_payload(s: Seq<u8>) -> Seq<u8> {
    s.subrange(PAYLOAD_OFFSET as int, LEN_OFFSET as int)
}

/// The payload length encoded in a wire image.
pub open spec fn spec_parse_payload_len(s: Seq<u8>) -> u64 {
    spec_u64_from_le_bytes(s.subrange(LEN_OFFSET as int, TYPE_OFFSET as int))
}

/// The payload type tag encoded in a wire image.
pub open spec fn spec_parse_payload_type(s: Seq<u8>) -> u8 {
    s[TYPE_OFFSET as int]
}

/// The version encoded in a wire image.
pub open spec fn spec_parse_version(s: Seq<u8>) -> u8 {
    s[VERSION_OFFSET as int]
}

/// The checksum encoded in a wire image.
pub open spec fn spec_parse_checksum(s: Seq<u8>) -> u16 {
    spec_u16_from_le_bytes(s.subrange(CHECKSUM_OFFSET as int, WIRE_SIZE as int))
}

/// Failure of `serialize`: the destination buffer cannot hold one full
/// encoded packet. Nothing has been written.
#[derive(Debug, PartialEq, Eq, Structural)]
pub enum EncodeError {
    BufferTooSmall,
}

/// Failure of `deserialize`: the input does not hold one well-formed
/// encoded packet. No packet is returned.
#[derive(Debug, PartialEq, Eq, Structural)]
pub enum DecodeError {
    /// The input is shorter than the fixed wire size.
    InputTooShort,
    /// The encoded payload length exceeds the fixed buffer capacity.
    PayloadLenOutOfRange,
}

/// A fixed-capacity packet. The payload buffer always holds exactly
/// `MAX_PAYLOAD_SIZE` bytes; only the first `payload_len` of them are
/// meaningful, the rest are padding.
#[derive(Debug)]
pub struct Packet {
    pub uid: u32,
    pub payload: Vec<u8>,
    pub payload_len: usize,
    pub payload_type: u8,
    pub version: u8,
    pub checksum: u16,
}

impl Packet {
    /// Well-formedness: the buffer has its full fixed capacity and the
    /// logical length lies within it.
    pub open spec fn wf(self) -> bool {
        &&& self.payload@.len() == MAX_PAYLOAD_SIZE
        &&& self.payload_len <= MAX_PAYLOAD_SIZE
    }

    /// The meaningful prefix of the payload buffer.
    pub open spec fn logical_payload(self) -> Seq<u8> {
        self.payload@.take(self.payload_len as int)
    }

    /// The stored checksum matches the checksum of the logical payload.
    pub open spec fn checksum_ok(self) -> bool {
        self.checksum == crc16_x25(self.logical_payload())
    }

    /// The wire encoding: every field at fixed width, little-endian, in
    /// declaration order; the payload buffer is written in full.
    pub open spec fn wire_bytes(self) -> Seq<u8> {
        spec_u32_to_le_bytes(self.uid) + self.payload@ + spec_u64_to_le_bytes(
            self.payload_len as u64,
        ) + seq![self.payload_type] + seq![self.version] + spec_u16_to_le_bytes(self.checksum)
    }

    /// Builds a packet from the caller's identifier, type tag and data.
    /// Data longer than `MAX_PAYLOAD_SIZE` is silently truncated; the
    /// checksum covers exactly the kept prefix.
    pub fn new(uid: u32, payload_type: u8, payload: &[u8]) -> (r: Packet)
        ensures
            r.wf(),
            r.uid == uid,
            r.payload_type == payload_type,
            r.version == 0,
            r.payload_len as int == if payload@.len() <= MAX_PAYLOAD_SIZE {
                payload@.len() as int
            } else {
                MAX_PAYLOAD_SIZE as int
            },
            r.logical_payload() == payload@.take(r.payload_len as int),
            forall|i: int|
                r.payload_len <= i < MAX_PAYLOAD_SIZE ==> r.payload@[i] == 0,
            r.checksum == crc16_x25(payload@.take(r.payload_len as int)),
            r.checksum_ok(),
    {
        let len = if payload.len() <= MAX_PAYLOAD_SIZE {
            payload.len()
        } else {
            MAX_PAYLOAD_SIZE
        };
        let mut buffer: Vec<u8> = Vec::new();
        let mut i: usize = 0;
        while i < len
            invariant
                i <= len,
                len <= MAX_PAYLOAD_SIZE,
                len <= payload@.len(),
                buffer@ == payload@.take(i as int),
            decreases len - i,
        {
            buffer.push(*vstd::slice::slice_index_get(payload, i));
            proof {
                assert(buffer@ =~= payload@.take(i + 1));
            }
            i += 1;
        }
        while buffer.len() < MAX_PAYLOAD_SIZE
            invariant
                len <= buffer@.len() <= MAX_PAYLOAD_SIZE,
                buffer@.take(len as int) == payload@.take(len as int),
                forall|j: int| len <= j < buffer@.len() ==> buffer@[j] == 0,
            decreases MAX_PAYLOAD_SIZE - buffer@.len(),
        {
            buffer.push(0);
            proof {
                assert(buffer@.take(len as int) =~= payload@.take(len as int));
            }
        }
        let checksum = crc16_x25_exec(slice_subrange(payload, 0, len));
        proof {
            assert(payload@.subrange(0, len as int) =~= payload@.take(len as int));
            assert(buffer@.take(len as int) =~= payload@.take(len as int));
        }
        Packet { uid, payload: buffer, payload_len: len, payload_type, version: 0, checksum }
    }

    /// Recomputes the checksum of the logical payload and compares it to
    /// the stored one. Corruption of `uid`, `payload_type` or `version` is
    /// not detected; bytes beyond `payload_len` are not read.
    pub fn is_valid(&self) -> (r: bool)
        requires
            self.wf(),
        ensures
            r == self.checksum_ok(),
    {
        let lp = slice_subrange(self.payload.as_slice(), 0, self.payload_len);
        proof {
            assert(lp@ =~= self.logical_payload());
        }
        crc16_x25_exec(lp) == self.checksum
    }

    /// Writes the wire encoding into the front of `buffer` and returns the
    /// number of bytes written, always the fixed wire size. Fails, writing
    /// nothing, exactly when the buffer is shorter than that size; bytes
    /// beyond the encoding are left unchanged.
    pub fn serialize(&self, buffer: &mut [u8]) -> (r: Result<usize, EncodeError>)
        requires
            self.wf(),
        ensures
            match r {
                Ok(n) => {
                    &&& n == WIRE_SIZE
                    &&& old(buffer)@.len() >= WIRE_SIZE
                    &&& final(buffer)@.len() == old(buffer)@.len()
                    &&& final(buffer)@.take(WIRE_SIZE as int) == self.wire_bytes()
                    &&& final(buffer)@.skip(WIRE_SIZE as int) == old(buffer)@.skip(
                        WIRE_SIZE as int,
                    )
                },
                Err(e) => {
                    &&& e == EncodeError::BufferTooSmall
                    &&& old(buffer)@.len() < WIRE_SIZE
                    &&& final(buffer)@ == old(buffer)@
                },
            },
    {
        if buffer.len() < WIRE_SIZE {
            return Err(EncodeError::BufferTooSmall);
        }
        let out = self.wire_encoding();
        let mut i: usize = 0;
        while i < WIRE_SIZE
            invariant
                i <= WIRE_SIZE,
                out@ == self.wire_bytes(),
                out@.len() == WIRE_SIZE,
                buffer@.len() == old(buffer)@.len(),
                old(buffer)@.len() >= WIRE_SIZE,
                forall|j: int| 0 <= j < i ==> buffer@[j] == out@[j],
                forall|j: int| i <= j < buffer@.len() ==> buffer@[j] == old(buffer)@[j],
            decreases WIRE_SIZE - i,
        {
            buffer[i] = out[i];
            i += 1;
        }
        proof {
            assert(buffer@.take(WIRE_SIZE as int) =~= self.wire_bytes());
            assert(buffer@.skip(WIRE_SIZE as int) =~= old(buffer)@.skip(WIRE_SIZE as int));
        }
        Ok(WIRE_SIZE)
    }

    /// The wire encoding as a fresh byte vector.
    fn wire_encoding(&self) -> (out: Vec<u8>)
        requires
            self.wf(),
        ensures
            out@ == self.wire_bytes(),
            out@.len() == WIRE_SIZE,
    {
        let mut out = u32_to_le_bytes(self.uid);
        let mut i: usize = 0;
        while i < MAX_PAYLOAD_SIZE
            invariant
                i <= MAX_PAYLOAD_SIZE,
                self.wf(),
                out@ == spec_u32_to_le_bytes(self.uid) + self.payload@.take(i as int),
            decreases MAX_PAYLOAD_SIZE - i,
        {
            out.push(self.payload[i]);
            proof {
                assert(out@ =~= spec_u32_to_le_bytes(self.uid) + self.payload@.take(i + 1));
            }
            i += 1;
        }
        proof {
            assert(self.payload@.take(MAX_PAYLOAD_SIZE as int) =~= self.payload@);
        }
        let mut lenb = u64_to_le_bytes(self.payload_len as u64);
        out.append(&mut lenb);
        out.push(self.payload_type);
        out.push(self.version);
        let mut csb = u16_to_le_bytes(self.checksum);
        out.append(&mut csb);
        proof {
            assert(out@ =~= self.wire_bytes());
        }
        out
    }

    /// Reads one packet from the front of `bytes`; input beyond the fixed
    /// wire size is ignored. Every field is taken from the wire image as it
    /// stands; the checksum is not verified here — call `is_valid` for that.
    /// Fails exactly when the input is shorter than the wire size or the
    /// encoded payload length exceeds the buffer capacity.
    pub fn deserialize(bytes: &[u8]) -> (r: Result<Packet, DecodeError>)
        ensures
            match r {
                Ok(p) => {
                    &&& bytes@.len() >= WIRE_SIZE
                    &&& p.wf()
                    &&& p.uid == spec_parse_uid(bytes@)
                    &&& p.payload@ == spec_parse_payload(bytes@)
                    &&& p.payload_len as u64 == spec_parse_payload_len(bytes@)
                    &&& p.payload_type == spec_parse_payload_type(bytes@)
                    &&& p.version == spec_parse_version(bytes@)
                    &&& p.checksum == spec_parse_checksum(bytes@)
                },
                Err(DecodeError::InputTooShort) => bytes@.len() < WIRE_SIZE,
                Err(DecodeError::PayloadLenOutOfRange) => {
                    &&& bytes@.len() >= WIRE_SIZE
                    &&& spec_parse_payload_len(bytes@) > MAX_PAYLOAD_SIZE as u64
                },
            },
    {
        if bytes.len() < WIRE_SIZE {
            return Err(DecodeError::InputTooShort);
        }
        let len64 = u64_from_le_bytes(slice_subrange(bytes, LEN_OFFSET, TYPE_OFFSET));
        if len64 > MAX_PAYLOAD_SIZE as u64 {
            return Err(DecodeError::PayloadLenOutOfRange);
        }
        let uid = u32_from_le_bytes(slice_subrange(bytes, 0, PAYLOAD_OFFSET));
        let mut payload: Vec<u8> = Vec::new();
        let mut i: usize = 0;
        while i < MAX_PAYLOAD_SIZE
            invariant
                i <= MAX_PAYLOAD_SIZE,
                bytes@.len() >= WIRE_SIZE,
                payload@ == bytes@.subrange(
                    PAYLOAD_OFFSET as int,
                    PAYLOAD_OFFSET as int + i as int,
                ),
            decreases MAX_PAYLOAD_SIZE - i,
        {
            payload.push(*vstd::slice::slice_index_get(bytes, PAYLOAD_OFFSET + i));
            proof {
                assert(payload@ =~= bytes@.subrange(
                    PAYLOAD_OFFSET as int,
                    PAYLOAD_OFFSET as int + i + 1,
                ));
            }
            i += 1;
        }
        let payload_type = *vstd::slice::slice_index_get(bytes, TYPE_OFFSET);
        let version = *vstd::slice::slice_index_get(bytes, VERSION_OFFSET);
        let checksum = u16_from_le_bytes(slice_subrange(bytes, CHECKSUM_OFFSET, WIRE_SIZE));
        Ok(Packet { uid, payload, payload_len: len64 as usize, payload_type, version, checksum })
    }
}

/// Law: parsing the wire bytes of a well-formed packet restores every field.
/// With the contracts of `serialize` and `deserialize`, encoding a packet
/// and decoding the result yields a packet equal to it, field for field.
pub proof fn lemma_wire_round_trip(p: Packet)
    requires
        p.wf(),
    ensures
        p.wire_bytes().len() == WIRE_SIZE,
        spec_parse_uid(p.wire_bytes()) == p.uid,
        spec_parse_payload(p.wire_bytes()) == p.payload@,
        spec_parse_payload_len(p.wire_bytes()) == p.payload_len as u64,
        spec_parse_payload_type(p.wire_bytes()) == p.payload_type,
        spec_parse_version(p.wire_bytes()) == p.version,
        spec_parse_checksum(p.wire_bytes()) == p.checksum,
{
    lemma_auto_spec_u32_to_from_le_bytes();
    lemma_auto_spec_u64_to_from_le_bytes();
    lemma_auto_spec_u16_to_from_le_bytes();
    let s = p.wire_bytes();
    assert(s.subrange(0, PAYLOAD_OFFSET as int) =~= spec_u32_to_le_bytes(p.uid));
    assert(s.subrange(PAYLOAD_OFFSET as int, LEN_OFFSET as int) =~= p.payload@);
    assert(s.subrange(LEN_OFFSET as int, TYPE_OFFSET as int) =~= spec_u64_to_le_bytes(
        p.payload_len as u64,
    ));
    assert(s.subrange(CHECKSUM_OFFSET as int, WIRE_SIZE as int) =~= spec_u16_to_le_bytes(
        p.checksum,
    ));
}

/// Law: the integrity check reads nothing but the logical payload and the
/// stored checksum. Two packets that agree on those agree on the check's
/// outcome; in particular, the padding bytes at indices at or beyond
/// `payload_len` cannot affect it, and neither can `uid`, `payload_type`
/// or `version`.
pub proof fn lemma_padding_irrelevant(p: Packet, q: Packet)
    requires
        p.logical_payload() == q.logical_payload(),
        p.checksum == q.checksum,
    ensures
        p.checksum_ok() == q.checksum_ok(),
{
}

} // verus!
