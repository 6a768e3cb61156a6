//! The instruction record codec: packing an opcode and its 56-bit
//! signed operand into an 8-byte record, unpacking such records, and
//! loading a byte image into a full 256-record ROM.
//!
//! Layout, most-significant-bit first: byte 0 holds the opcode tag,
//! bytes 1..8 hold the operand as a big-endian two's-complement
//! integer in 56 bits. An operand outside the signed 56-bit range
//! cannot be encoded.

use vstd::prelude::*;

use crate::isa::Instruction;
use crate::isa::spec_instruction_of_tag;
use crate::isa::spec_tag_of;
use crate::isa::spec_tag_valid;

verus! {

/// The number of records in a loaded ROM.
pub const ROM_SIZE: usize = 256;

/// The number of bytes of one encoded record.
pub const RECORD_BYTES: usize = 8;

/// One instruction record in its in-memory form: an opcode and a
/// 64-bit signed operand. Only values within the signed 56-bit range
/// can be encoded to bytes.
#[derive(Clone, Copy, Debug, PartialEq, Eq, Structural)]
pub struct RomLayout {
    pub instruction: Instruction,
    pub value: i64,
}

/// The errors of encoding, decoding and image loading.
#[derive(Clone, Copy, Debug, PartialEq, Eq, Structural)]
pub enum CodecError {
    /// An operand outside the signed 56-bit range was given to the encoder.
    OperandOutOfRange,
    /// A record's first byte is not the tag of any opcode.
    UnknownOpcode,
    /// An image's byte length is not a multiple of the record size.
    BadImageLength,
    /// An image holds more records than the ROM.
    ImageTooLong,
}

/// Whether a 64-bit signed value fits the 56-bit signed operand field.
pub open spec fn spec_in_range56(v: i64) -> bool {
    -0x80_0000_0000_0000 <= v && v <= 0x7F_FFFF_FFFF_FFFF
}

/// The 56-bit two's-complement bit pattern of an operand, as the low
/// 56 bits of a 64-bit word.
pub open spec fn spec_operand_bits(v: i64) -> u64 {
    (v as u64) & 0x00FF_FFFF_FFFF_FFFF
}

/// The operand read back from a 56-bit pattern: the low 56 bits,
/// sign-extended at bit 55.
pub open spec fn spec_operand_of_bits(u: u64) -> i64 {
    if u & 0x0080_0000_0000_0000 == 0 {
        u as i64
    } else {
        (u | 0xFF00_0000_0000_0000) as i64
    }
}

/// The 8 bytes of an encoded record: the opcode tag, then the operand
/// big-endian.
pub open spec fn spec_encode(i: Instruction, v: i64) -> Seq<u8> {
    let u = spec_operand_bits(v);
    seq![
        spec_tag_of(i),
        ((u >> 48) & 0xFF) as u8,
        ((u >> 40) & 0xFF) as u8,
        ((u >> 32) & 0xFF) as u8,
        ((u >> 24) & 0xFF) as u8,
        ((u >> 16) & 0xFF) as u8,
        ((u >> 8) & 0xFF) as u8,
        (u & 0xFF) as u8,
    ]
}

/// The 56-bit pattern held in bytes 1..8 of an 8-byte record.
pub open spec fn spec_bits_of_bytes(s: Seq<u8>) -> u64 {
    ((s[1] as u64) << 48) | ((s[2] as u64) << 40) | ((s[3] as u64) << 32) | ((s[4] as u64) << 24)
        | ((s[5] as u64) << 16) | ((s[6] as u64) << 8) | (s[7] as u64)
}

/// What decoding 8 bytes yields: `None` when the length is wrong or
/// the tag is not an opcode, else the opcode and the sign-extended
/// operand.
pub open spec fn spec_decode(s: Seq<u8>) -> Option<(Instruction, i64)> {
    if s.len() != 8 {
        None
    } else if !spec_tag_valid(s[0]) {
        None
    } else {
        Some((spec_instruction_of_tag(s[0]), spec_operand_of_bits(spec_bits_of_bytes(s))))
    }
}

/// The record a loaded ROM is padded with: `HLT` with operand 0.
pub open spec fn spec_hlt_record() -> RomLayout {
    RomLayout { instruction: Instruction::HLT, value: 0 }
}

/// The `k`-th 8-byte chunk of a byte image.
pub open spec fn spec_chunk(bytes: Seq<u8>, k: int) -> Seq<u8> {
    bytes.subrange(8 * k, 8 * k + 8)
}

/// What decoding the `k`-th record of a byte image yields.
pub open spec fn spec_record_at(bytes: Seq<u8>, k: int) -> Option<(Instruction, i64)> {
    spec_decode(spec_chunk(bytes, k))
}

impl RomLayout {
    /// A record with the given opcode and operand, held in memory as
    /// given; whether the operand is encodable is checked by `encode`.
    pub fn new(instruction: Instruction, value: i64) -> (r: RomLayout)
        ensures
            r == (RomLayout { instruction, value }),
    {
        RomLayout { instruction, value }
    }

    /// Packs this record into its 8 bytes. Fails exactly when the
    /// operand is outside the signed 56-bit range.
    pub fn encode(&self) -> (r: Result<Vec<u8>, CodecError>)
        ensures
            r is Ok <==> spec_in_range56(self.value),
            r matches Ok(b) ==> b@ == spec_encode(self.instruction, self.value),
            r is Err ==> r == Err::<Vec<u8>, CodecError>(CodecError::OperandOutOfRange),
    {
        if self.value < -0x80_0000_0000_0000i64 || self.value > 0x7F_FFFF_FFFF_FFFFi64 {
            return Err(CodecError::OperandOutOfRange);
        }
        let u: u64 = (#[verifier::truncate] (self.value as u64)) & 0x00FF_FFFF_FFFF_FFFF;
        let mut b: Vec<u8> = Vec::new();
        b.push(self.instruction.tag());
        b.push(#[verifier::truncate] (((u >> 48) & 0xFF) as u8));
        b.push(#[verifier::truncate] (((u >> 40) & 0xFF) as u8));
        b.push(#[verifier::truncate] (((u >> 32) & 0xFF) as u8));
        b.push(#[verifier::truncate] (((u >> 24) & 0xFF) as u8));
        b.push(#[verifier::truncate] (((u >> 16) & 0xFF) as u8));
        b.push(#[verifier::truncate] (((u >> 8) & 0xFF) as u8));
        b.push(#[verifier::truncate] ((u & 0xFF) as u8));
        proof {
            assert(b@ =~= spec_encode(self.instruction, self.value));
        }
        Ok(b)
    }

    /// Unpacks one 8-byte record. Fails exactly when the slice is not
    /// 8 bytes long or its first byte is not an opcode tag.
    pub fn decode(bytes: &[u8]) -> (r: Result<RomLayout, CodecError>)
        ensures
            r is Ok <==> bytes@.len() == 8 && spec_tag_valid(bytes@[0]),
            r matches Ok(rec) ==> spec_decode(bytes@) == Some((rec.instruction, rec.value)),
            bytes@.len() != 8 ==> r == Err::<RomLayout, CodecError>(CodecError::BadImageLength),
            bytes@.len() == 8 && !spec_tag_valid(bytes@[0]) ==> r == Err::<
                RomLayout,
                CodecError,
            >(CodecError::UnknownOpcode),
    {
        if bytes.len() != 8 {
            return Err(CodecError::BadImageLength);
        }
        let tag = bytes[0];
        let instruction = match Instruction::from_tag(tag) {
            Some(i) => i,
            None => {
                return Err(CodecError::UnknownOpcode);
            },
        };
        let u: u64 = ((bytes[1] as u64) << 48) | ((bytes[2] as u64) << 40) | ((bytes[3] as u64)
            << 32) | ((bytes[4] as u64) << 24) | ((bytes[5] as u64) << 16) | ((bytes[6] as u64)
            << 8) | (bytes[7] as u64);
        proof {
            let x1 = bytes@[1];
            let x2 = bytes@[2];
            let x3 = bytes@[3];
            let x4 = bytes@[4];
            let x5 = bytes@[5];
            let x6 = bytes@[6];
            let x7 = bytes@[7];
            assert(u < 0x8000_0000_0000_0000) by (bit_vector)
                requires
                    u == ((x1 as u64) << 48) | ((x2 as u64) << 40) | ((x3 as u64) << 32) | ((
                    x4 as u64) << 24) | ((x5 as u64) << 16) | ((x6 as u64) << 8) | (x7 as u64),
            ;
        }
        let value: i64 = if u & 0x0080_0000_0000_0000 == 0 {
            u as i64
        } else {
            #[verifier::truncate] ((u | 0xFF00_0000_0000_0000) as i64)
        };
        Ok(RomLayout { instruction, value })
    }
}

/// Loads a byte image into a full ROM: splits the bytes into
/// consecutive 8-byte records, decodes each, and right-pads with
/// `HLT` records to exactly `ROM_SIZE` entries. Fails exactly when
/// the length is not a multiple of 8, the image holds more records
/// than the ROM, or some record's tag byte is not an opcode.
pub fn read_rom(bytes: &[u8]) -> (r: Result<Vec<RomLayout>, CodecError>)
    ensures
        r is Ok <==> (bytes@.len() % 8 == 0 && bytes@.len() <= 2048 && (forall|k: int|
            0 <= k < bytes@.len() / 8 ==> #[trigger] spec_record_at(bytes@, k) is Some)),
        r matches Ok(rom) ==> {
            &&& rom@.len() == 256
            &&& (forall|k: int|
                0 <= k < bytes@.len() / 8 ==> #[trigger] spec_record_at(bytes@, k) == Some(
                    (rom@[k].instruction, rom@[k].value),
                ))
            &&& (forall|k: int| bytes@.len() / 8 <= k < 256 ==> rom@[k] == spec_hlt_record())
        },
        bytes@.len() % 8 != 0 ==> r == Err::<Vec<RomLayout>, CodecError>(
            CodecError::BadImageLength,
        ),
        bytes@.len() % 8 == 0 && bytes@.len() > 2048 ==> r == Err::<Vec<RomLayout>, CodecError>(
            CodecError::ImageTooLong,
        ),
        bytes@.len() % 8 == 0 && bytes@.len() <= 2048 && r is Err ==> r == Err::<
            Vec<RomLayout>,
            CodecError,
        >(CodecError::UnknownOpcode),
{
    if bytes.len() % 8 != 0 {
        return Err(CodecError::BadImageLength);
    }
    let n = bytes.len() / 8;
    if n > ROM_SIZE {
        return Err(CodecError::ImageTooLong);
    }
    let mut rom: Vec<RomLayout> = Vec::new();
    let mut i: usize = 0;
    while i < n
        invariant
            8 * n == bytes@.len(),
            n <= 256,
            i <= n,
            rom@.len() == i,
            forall|k: int|
                0 <= k < i ==> #[trigger] spec_record_at(bytes@, k) == Some(
                    (rom@[k].instruction, rom@[k].value),
                ),
        decreases n - i,
    {
        let chunk = vstd::slice::slice_subrange(bytes, 8 * i, 8 * i + 8);
        proof {
            assert(chunk@ == spec_chunk(bytes@, i as int));
        }
        match RomLayout::decode(chunk) {
            Ok(rec) => {
                rom.push(rec);
            },
            Err(_) => {
                proof {
                    assert(spec_record_at(bytes@, i as int) is None);
                }
                return Err(CodecError::UnknownOpcode);
            },
        }
        i = i + 1;
    }
    while rom.len() < ROM_SIZE
        invariant
            8 * n == bytes@.len(),
            n <= 256,
            n <= rom@.len() <= 256,
            forall|k: int|
                0 <= k < n ==> #[trigger] spec_record_at(bytes@, k) == Some(
                    (rom@[k].instruction, rom@[k].value),
                ),
            forall|k: int| n <= k < rom@.len() ==> rom@[k] == spec_hlt_record(),
        decreases 256 - rom@.len(),
    {
        rom.push(RomLayout::new(Instruction::HLT, 0));
    }
    Ok(rom)
}

/// Serializes a sequence of records to bytes: the concatenation of
/// the records' encodings, with no padding. Fails exactly when some
/// record's operand is outside the signed 56-bit range.
pub fn serialize(records: &Vec<RomLayout>) -> (r: Result<Vec<u8>, CodecError>)
    ensures
        r is Ok <==> (forall|k: int| 0 <= k < records@.len() ==> spec_in_range56(records@[k].value)),
        r matches Ok(b) ==> {
            &&& b@.len() == 8 * records@.len()
            &&& (forall|k: int|
                0 <= k < records@.len() ==> #[trigger] spec_chunk(b@, k) == spec_encode(
                    records@[k].instruction,
                    records@[k].value,
                ))
        },
        r is Err ==> r == Err::<Vec<u8>, CodecError>(CodecError::OperandOutOfRange),
{
    let mut out: Vec<u8> = Vec::new();
    let mut i: usize = 0;
    while i < records.len()
        invariant
            i <= records@.len(),
            out@.len() == 8 * i,
            forall|k: int| 0 <= k < i ==> spec_in_range56(#[trigger] records@[k].value),
            forall|k: int|
                0 <= k < i ==> #[trigger] spec_chunk(out@, k) == spec_encode(
                    records@[k].instruction,
                    records@[k].value,
                ),
        decreases records@.len() - i,
    {
        let ghost prev = out@;
        match records[i].encode() {
            Ok(mut e) => {
                out.append(&mut e);
                proof {
                    assert forall|k: int| 0 <= k < i + 1 implies #[trigger] spec_chunk(out@, k)
                        == spec_encode(records@[k].instruction, records@[k].value) by {
                        if k < i {
                            assert(spec_chunk(out@, k) =~= spec_chunk(prev, k));
                        } else {
                            assert(spec_chunk(out@, k) =~= spec_encode(
                                records@[k].instruction,
                                records@[k].value,
                            ));
                        }
                    }
                }
            },
            Err(_) => {
                return Err(CodecError::OperandOutOfRange);
            },
        }
        i = i + 1;
    }
    Ok(out)
}

/// Round trip: decoding an encoded record gives the record back, for
/// every opcode and every operand within the signed 56-bit range.
pub proof fn lemma_round_trip(i: Instruction, v: i64)
    requires
        spec_in_range56(v),
    ensures
        spec_decode(spec_encode(i, v)) == Some((i, v)),
{
    let u = spec_operand_bits(v);
    let s = spec_encode(i, v);
    assert(spec_bits_of_bytes(s) == u) by {
        let b1 = ((u >> 48) & 0xFF) as u8;
        let b2 = ((u >> 40) & 0xFF) as u8;
        let b3 = ((u >> 32) & 0xFF) as u8;
        let b4 = ((u >> 24) & 0xFF) as u8;
        let b5 = ((u >> 16) & 0xFF) as u8;
        let b6 = ((u >> 8) & 0xFF) as u8;
        let b7 = (u & 0xFF) as u8;
        assert(((v as u64) & 0x00FF_FFFF_FFFF_FFFF) & 0xFF00_0000_0000_0000 == 0) by (bit_vector);
        assert(((b1 as u64) << 48) | ((b2 as u64) << 40) | ((b3 as u64) << 32) | ((b4 as u64)
            << 24) | ((b5 as u64) << 16) | ((b6 as u64) << 8) | (b7 as u64) == u) by (bit_vector)
            requires
                u & 0xFF00_0000_0000_0000 == 0,
                b1 == ((u >> 48) & 0xFF) as u8,
                b2 == ((u >> 40) & 0xFF) as u8,
                b3 == ((u >> 32) & 0xFF) as u8,
                b4 == ((u >> 24) & 0xFF) as u8,
                b5 == ((u >> 16) & 0xFF) as u8,
                b6 == ((u >> 8) & 0xFF) as u8,
                b7 == (u & 0xFF) as u8,
        ;
    }
    assert(spec_operand_of_bits(u) == v) by {
        assert({
            let w = (v as u64) & 0x00FF_FFFF_FFFF_FFFF;
            (if w & 0x0080_0000_0000_0000 == 0 {
                w as i64
            } else {
                (w | 0xFF00_0000_0000_0000) as i64
            }) == v
        }) by (bit_vector)
            requires
                -0x80_0000_0000_0000 <= v && v <= 0x7F_FFFF_FFFF_FFFF,
        ;
    }
}

} // verus!
