use ebr64::CodecError;
use ebr64::Instruction;
use ebr64::RomLayout;
use ebr64::read_rom;
use ebr64::serialize;

fn all_opcodes() -> Vec<Instruction> {
    vec![
        Instruction::NOP,
        Instruction::LDA,
        Instruction::STA,
        Instruction::ADD,
        Instruction::SUB,
        Instruction::OUT,
        Instruction::JMP,
        Instruction::JC,
        Instruction::JZ,
        Instruction::HLT,
        Instruction::LDI,
        Instruction::ADI,
        Instruction::LDR,
        Instruction::ADR,
    ]
}

#[test]
fn round_trip_every_opcode() {
    let values: Vec<i64> = vec![
        0,
        1,
        -1,
        5,
        255,
        -256,
        123456789,
        -987654321,
        (1 << 55) - 1,
        -(1 << 55),
    ];
    for (k, op) in all_opcodes().into_iter().enumerate() {
        for &v in &values {
            let rec = RomLayout::new(op, v);
            let bytes = rec.encode().expect("operand in range must encode");
            assert_eq!(bytes.len(), 8);
            assert_eq!(bytes[0], k as u8);
            let back = RomLayout::decode(&bytes).expect("encoded record must decode");
            assert_eq!(back.instruction, op);
            assert_eq!(back.value, v);
        }
    }
}

#[test]
fn encode_layout_is_big_endian_msb_first() {
    let rec = RomLayout::new(Instruction::LDI, 5);
    let bytes = rec.encode().unwrap();
    assert_eq!(bytes, vec![10, 0, 0, 0, 0, 0, 0, 5]);

    let rec = RomLayout::new(Instruction::LDA, 0x0102030405060i64);
    let bytes = rec.encode().unwrap();
    assert_eq!(bytes, vec![1, 0x00, 0x10, 0x20, 0x30, 0x40, 0x50, 0x60]);

    let rec = RomLayout::new(Instruction::NOP, -1);
    let bytes = rec.encode().unwrap();
    assert_eq!(bytes, vec![0, 0xFF, 0xFF, 0xFF, 0xFF, 0xFF, 0xFF, 0xFF]);
}

#[test]
fn encode_boundaries_of_the_56_bit_range() {
    let max: i64 = (1 << 55) - 1;
    let min: i64 = -(1 << 55);
    assert!(RomLayout::new(Instruction::LDI, max).encode().is_ok());
    assert!(RomLayout::new(Instruction::LDI, min).encode().is_ok());
    assert_eq!(
        RomLayout::new(Instruction::LDI, max + 1).encode(),
        Err(CodecError::OperandOutOfRange)
    );
    assert_eq!(
        RomLayout::new(Instruction::LDI, min - 1).encode(),
        Err(CodecError::OperandOutOfRange)
    );
}

#[test]
fn decode_rejects_unknown_opcode_and_short_input() {
    let bad_tag = vec![14u8, 0, 0, 0, 0, 0, 0, 0];
    assert_eq!(RomLayout::decode(&bad_tag), Err(CodecError::UnknownOpcode));
    let short = vec![0u8, 0, 0];
    assert_eq!(RomLayout::decode(&short), Err(CodecError::BadImageLength));
}

#[test]
fn decode_sign_extends_negative_operands() {
    let bytes = vec![1u8, 0xFF, 0xFF, 0xFF, 0xFF, 0xFF, 0xFF, 0xFE];
    let rec = RomLayout::decode(&bytes).unwrap();
    assert_eq!(rec.instruction, Instruction::LDA);
    assert_eq!(rec.value, -2);
}

#[test]
fn empty_image_loads_as_256_halts() {
    let rom = read_rom(&[]).unwrap();
    assert_eq!(rom.len(), 256);
    for rec in &rom {
        assert_eq!(rec.instruction, Instruction::HLT);
        assert_eq!(rec.value, 0);
    }
}

#[test]
fn partial_image_is_padded_to_256_records() {
    let recs = vec![
        RomLayout::new(Instruction::LDI, 7),
        RomLayout::new(Instruction::OUT, 0),
    ];
    let bytes = serialize(&recs).unwrap();
    assert_eq!(bytes.len(), 16);
    let rom = read_rom(&bytes).unwrap();
    assert_eq!(rom.len(), 256);
    assert_eq!(rom[0].instruction, Instruction::LDI);
    assert_eq!(rom[0].value, 7);
    assert_eq!(rom[1].instruction, Instruction::OUT);
    for rec in &rom[2..] {
        assert_eq!(rec.instruction, Instruction::HLT);
        assert_eq!(rec.value, 0);
    }
}

#[test]
fn oversized_image_is_an_error() {
    let recs: Vec<RomLayout> = (0..300).map(|_| RomLayout::new(Instruction::NOP, 0)).collect();
    let bytes = serialize(&recs).unwrap();
    assert_eq!(bytes.len(), 2400);
    assert_eq!(read_rom(&bytes), Err(CodecError::ImageTooLong));
}

#[test]
fn full_image_of_exactly_256_records_loads() {
    let recs: Vec<RomLayout> = (0..256).map(|_| RomLayout::new(Instruction::NOP, 0)).collect();
    let bytes = serialize(&recs).unwrap();
    assert!(read_rom(&bytes).is_ok());
}

#[test]
fn image_length_not_a_multiple_of_eight_is_an_error() {
    let bytes = vec![0u8; 12];
    assert_eq!(read_rom(&bytes), Err(CodecError::BadImageLength));
}

#[test]
fn image_with_bad_tag_fails_as_a_whole() {
    let mut bytes = RomLayout::new(Instruction::NOP, 0).encode().unwrap();
    bytes.extend(vec![99u8, 0, 0, 0, 0, 0, 0, 0]);
    assert_eq!(read_rom(&bytes), Err(CodecError::UnknownOpcode));
}

#[test]
fn serialize_rejects_out_of_range_operands_atomically() {
    let recs = vec![
        RomLayout::new(Instruction::LDI, 1),
        RomLayout::new(Instruction::LDI, 1 << 55),
    ];
    assert_eq!(serialize(&recs), Err(CodecError::OperandOutOfRange));
}
