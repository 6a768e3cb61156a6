use ebr64::ExecError;
use ebr64::Instruction;
use ebr64::ProgramState;
use ebr64::RomLayout;
use ebr64::RunStatus;
use ebr64::compile_rom;
use ebr64::read_rom;
use ebr64::serialize;

fn assemble_and_load(src: &[u8]) -> ProgramState {
    let records = compile_rom(src).expect("source must assemble");
    let bytes = serialize(&records).expect("records must serialize");
    let rom = read_rom(&bytes).expect("image must load");
    ProgramState::new(rom)
}

fn rom_of(records: Vec<RomLayout>) -> Vec<RomLayout> {
    let mut rom = records;
    while rom.len() < 256 {
        rom.push(RomLayout::new(Instruction::HLT, 0));
    }
    rom
}

#[test]
fn ldi_out_hlt_prints_five_and_halts() {
    let mut state = assemble_and_load(b"LDI 5\nOUT\nHLT");
    let result = state.run(1000);
    assert_eq!(result.status, RunStatus::Halted);
    assert_eq!(result.outputs, vec![5]);
}

#[test]
fn store_and_add_prints_seven_with_flags_clear() {
    let mut state = assemble_and_load(b"LDI 3\nSTA 0\nLDI 4\nADD 0\nOUT\nHLT");
    let result = state.run(1000);
    assert_eq!(result.status, RunStatus::Halted);
    assert_eq!(result.outputs, vec![7]);
    assert!(!state.flags.carry);
    assert!(!state.flags.zero);
}

#[test]
fn jmp_to_zero_loops_forever_within_the_bound() {
    let mut state = assemble_and_load(b"JMP 0");
    let result = state.run(10_000);
    assert_eq!(result.status, RunStatus::OutOfSteps);
    assert_eq!(result.outputs, Vec::<i64>::new());
}

#[test]
fn sub_subtracts_and_sets_zero() {
    let mut state = assemble_and_load(b"LDI 9\nSTA 3\nLDI 9\nSUB 3\nOUT\nHLT");
    let result = state.run(1000);
    assert_eq!(result.status, RunStatus::Halted);
    assert_eq!(result.outputs, vec![0]);
    assert!(state.flags.zero);
    assert!(!state.flags.carry);
}

#[test]
fn adi_adds_an_immediate() {
    let mut state = assemble_and_load(b"LDI 40\nADI 2\nOUT\nHLT");
    let result = state.run(1000);
    assert_eq!(result.outputs, vec![42]);
}

#[test]
fn ldr_and_adr_read_operands_out_of_the_rom() {
    // The operand of the LDI record at address 0 is read as data.
    let mut state = assemble_and_load(b"LDI 30\nLDR 0\nADR 0\nOUT\nHLT");
    let result = state.run(1000);
    assert_eq!(result.outputs, vec![60]);
}

#[test]
fn jz_redirects_only_when_zero_is_set() {
    // ADI -5 leaves the accumulator at 0, so JZ jumps over LDI 9.
    let mut state = assemble_and_load(b"LDI 5\nADI -5\nJZ 5\nLDI 9\nOUT\nLDI 3\nOUT\nHLT");
    let result = state.run(1000);
    assert_eq!(result.status, RunStatus::Halted);
    assert_eq!(result.outputs, vec![3]);

    // ADI 1 leaves the accumulator nonzero, so JZ falls through.
    let mut state = assemble_and_load(b"LDI 5\nADI 1\nJZ 6\nLDI 9\nOUT\nHLT\nLDI 3\nOUT\nHLT");
    let result = state.run(1000);
    assert_eq!(result.status, RunStatus::Halted);
    assert_eq!(result.outputs, vec![9]);
}

#[test]
fn jc_redirects_only_when_carry_is_set() {
    // Doubling the accumulator overflows the signed 64-bit range and
    // raises CARRY; the records are built directly since such
    // immediates do not fit the encodable operand range.
    let big = i64::MAX - 1;
    let mut state = ProgramState::new(rom_of(vec![
        RomLayout::new(Instruction::LDI, big),
        RomLayout::new(Instruction::ADI, big),
        RomLayout::new(Instruction::JC, 5),
        RomLayout::new(Instruction::OUT, 0),
        RomLayout::new(Instruction::HLT, 0),
        RomLayout::new(Instruction::LDI, 1),
        RomLayout::new(Instruction::OUT, 0),
        RomLayout::new(Instruction::HLT, 0),
    ]));
    let result = state.run(1000);
    assert_eq!(result.status, RunStatus::Halted);
    assert_eq!(result.outputs, vec![1]);

    // Without an overflow, CARRY stays clear and JC falls through.
    let mut state = assemble_and_load(b"LDI 1\nADI 1\nJC 5\nOUT\nHLT\nLDI 9\nOUT\nHLT");
    let result = state.run(1000);
    assert_eq!(result.status, RunStatus::Halted);
    assert_eq!(result.outputs, vec![2]);
}

#[test]
fn carry_wraps_the_accumulator_two_complement() {
    let mut state = ProgramState::new(rom_of(vec![
        RomLayout::new(Instruction::LDI, i64::MAX),
        RomLayout::new(Instruction::ADI, 1),
        RomLayout::new(Instruction::OUT, 0),
        RomLayout::new(Instruction::HLT, 0),
    ]));
    let result = state.run(1000);
    assert_eq!(result.outputs, vec![i64::MIN]);
    assert!(state.flags.carry);
    assert!(!state.flags.zero);
}

#[test]
fn program_counter_wraps_from_255_to_0() {
    let rom = read_rom(&[]).unwrap();
    let mut state = ProgramState::new(rom);
    state.program_counter = 255;
    let (executed, output) = state.step().unwrap();
    assert_eq!(executed, Instruction::HLT);
    assert_eq!(output, None);
    assert_eq!(state.program_counter, 0);
}

#[test]
fn out_reports_the_accumulator_at_fetch_time() {
    let mut state = assemble_and_load(b"LDI 11\nOUT\nLDI 12\nOUT\nHLT");
    let result = state.run(1000);
    assert_eq!(result.outputs, vec![11, 12]);
}

#[test]
fn flags_survive_instructions_that_are_not_alu_operations() {
    // The ZERO flag set by ADI is still set after NOP and LDI.
    let mut state = assemble_and_load(b"LDI 1\nADI -1\nNOP\nLDI 5\nJZ 6\nHLT\nOUT\nHLT");
    let result = state.run(1000);
    assert_eq!(result.outputs, vec![5]);
}

#[test]
fn address_out_of_range_is_a_fault() {
    let mut state = assemble_and_load(b"LDA 256");
    let result = state.run(1000);
    assert_eq!(result.status, RunStatus::Fault);

    let mut state = assemble_and_load(b"STA -1");
    assert_eq!(state.step(), Err(ExecError::AddressOutOfRange));

    let mut state = assemble_and_load(b"JMP 300");
    assert_eq!(state.step(), Err(ExecError::AddressOutOfRange));
}

#[test]
fn jc_with_bad_target_faults_only_when_taken() {
    // CARRY is clear: the absurd jump target is never used.
    let mut state = assemble_and_load(b"JC 999\nHLT");
    let result = state.run(1000);
    assert_eq!(result.status, RunStatus::Halted);
}

#[test]
fn sta_writes_the_cell_and_lda_reads_it_back() {
    let mut state = assemble_and_load(b"LDI 21\nSTA 9\nLDI 0\nLDA 9\nOUT\nHLT");
    let result = state.run(1000);
    assert_eq!(result.outputs, vec![21]);
    assert_eq!(state.ram[9], 21);
}
