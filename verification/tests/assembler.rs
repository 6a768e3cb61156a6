use ebr64::AsmError;
use ebr64::Instruction;
use ebr64::compile_rom;
use ebr64::parse_line;

#[test]
fn parse_line_reads_mnemonic_and_operand() {
    let rec = parse_line(b"LDA 17").unwrap();
    assert_eq!(rec.instruction, Instruction::LDA);
    assert_eq!(rec.value, 17);

    let rec = parse_line(b"LDI -42").unwrap();
    assert_eq!(rec.instruction, Instruction::LDI);
    assert_eq!(rec.value, -42);

    let rec = parse_line(b"ADI +3").unwrap();
    assert_eq!(rec.instruction, Instruction::ADI);
    assert_eq!(rec.value, 3);
}

#[test]
fn operandless_mnemonics_get_operand_zero() {
    for (src, op) in [
        (&b"NOP"[..], Instruction::NOP),
        (&b"OUT"[..], Instruction::OUT),
        (&b"HLT"[..], Instruction::HLT),
    ] {
        let rec = parse_line(src).unwrap();
        assert_eq!(rec.instruction, op);
        assert_eq!(rec.value, 0);
    }
}

#[test]
fn every_mnemonic_is_recognised() {
    let cases = [
        (&b"NOP"[..], Instruction::NOP),
        (&b"LDA 0"[..], Instruction::LDA),
        (&b"STA 0"[..], Instruction::STA),
        (&b"ADD 0"[..], Instruction::ADD),
        (&b"SUB 0"[..], Instruction::SUB),
        (&b"OUT"[..], Instruction::OUT),
        (&b"JMP 0"[..], Instruction::JMP),
        (&b"JC 0"[..], Instruction::JC),
        (&b"JZ 0"[..], Instruction::JZ),
        (&b"HLT"[..], Instruction::HLT),
        (&b"LDI 0"[..], Instruction::LDI),
        (&b"ADI 0"[..], Instruction::ADI),
        (&b"LDR 0"[..], Instruction::LDR),
        (&b"ADR 0"[..], Instruction::ADR),
    ];
    for (src, op) in cases {
        assert_eq!(parse_line(src).unwrap().instruction, op);
    }
}

#[test]
fn unknown_mnemonic_fails() {
    assert_eq!(parse_line(b"FOO 1"), Err(AsmError::UnknownMnemonic));
    assert_eq!(parse_line(b"nop"), Err(AsmError::UnknownMnemonic));
    assert_eq!(parse_line(b"HLTX"), Err(AsmError::UnknownMnemonic));
}

#[test]
fn missing_or_malformed_operand_fails() {
    assert_eq!(parse_line(b"LDA"), Err(AsmError::MissingOperand));
    assert_eq!(parse_line(b"LDA x"), Err(AsmError::MalformedOperand));
    assert_eq!(parse_line(b"LDA 1x"), Err(AsmError::MalformedOperand));
    assert_eq!(parse_line(b"LDA -"), Err(AsmError::MalformedOperand));
    assert_eq!(parse_line(b"LDA +"), Err(AsmError::MalformedOperand));
    assert_eq!(parse_line(b""), Err(AsmError::EmptyLine));
    assert_eq!(parse_line(b"   "), Err(AsmError::EmptyLine));
}

#[test]
fn operand_parses_the_full_64_bit_signed_range() {
    assert_eq!(parse_line(b"LDI 9223372036854775807").unwrap().value, i64::MAX);
    assert_eq!(parse_line(b"LDI -9223372036854775808").unwrap().value, i64::MIN);
    assert_eq!(
        parse_line(b"LDI 9223372036854775808"),
        Err(AsmError::MalformedOperand)
    );
    assert_eq!(
        parse_line(b"LDI -9223372036854775809"),
        Err(AsmError::MalformedOperand)
    );
    assert_eq!(parse_line(b"LDI 007").unwrap().value, 7);
    assert_eq!(parse_line(b"LDI -0").unwrap().value, 0);
    assert_eq!(
        parse_line(b"LDI 99999999999999999999999999"),
        Err(AsmError::MalformedOperand)
    );
}

#[test]
fn extra_trailing_tokens_are_ignored() {
    let rec = parse_line(b"LDA 3 junk here").unwrap();
    assert_eq!(rec.instruction, Instruction::LDA);
    assert_eq!(rec.value, 3);
    let rec = parse_line(b"NOP 5").unwrap();
    assert_eq!(rec.instruction, Instruction::NOP);
    assert_eq!(rec.value, 0);
}

#[test]
fn repeated_blanks_between_tokens_are_tolerated() {
    let rec = parse_line(b"LDA   3").unwrap();
    assert_eq!(rec.value, 3);
    let rec = parse_line(b"\tLDA\t3").unwrap();
    assert_eq!(rec.instruction, Instruction::LDA);
}

#[test]
fn compile_rom_assembles_each_line_in_order() {
    let rom = compile_rom(b"LDI 5\nOUT\nHLT").unwrap();
    assert_eq!(rom.len(), 3);
    assert_eq!(rom[0].instruction, Instruction::LDI);
    assert_eq!(rom[0].value, 5);
    assert_eq!(rom[1].instruction, Instruction::OUT);
    assert_eq!(rom[2].instruction, Instruction::HLT);
}

#[test]
fn compile_rom_trims_the_whole_source() {
    let rom = compile_rom(b"\n  LDI 1\nHLT  \n\n").unwrap();
    assert_eq!(rom.len(), 2);
    let rom = compile_rom(b"").unwrap();
    assert_eq!(rom.len(), 0);
    let rom = compile_rom(b" \n\t ").unwrap();
    assert_eq!(rom.len(), 0);
}

#[test]
fn compile_rom_accepts_carriage_return_line_breaks() {
    let rom = compile_rom(b"LDI 5\r\nOUT\r\nHLT").unwrap();
    assert_eq!(rom.len(), 3);
    assert_eq!(rom[0].value, 5);
}

#[test]
fn compile_rom_fails_atomically() {
    assert_eq!(compile_rom(b"FOO 1"), Err(AsmError::UnknownMnemonic));
    assert_eq!(compile_rom(b"LDA x"), Err(AsmError::MalformedOperand));
    assert_eq!(
        compile_rom(b"LDI 5\nFOO 1\nHLT"),
        Err(AsmError::UnknownMnemonic)
    );
    assert_eq!(
        compile_rom(b"LDI 5\n\nHLT"),
        Err(AsmError::EmptyLine)
    );
}
