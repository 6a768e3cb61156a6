//! A minimal virtual machine: an assembler that turns a small text
//! instruction language into a fixed-width binary encoding, and an
//! interpreter that executes that encoding against a simple
//! register/memory machine model.

pub mod assembler;
pub mod codec;
pub mod isa;
pub mod machine;

pub use assembler::AsmError;
pub use assembler::compile_rom;
pub use assembler::parse_line;
pub use codec::CodecError;
pub use codec::RomLayout;
pub use codec::read_rom;
pub use codec::serialize;
pub use isa::Instruction;
pub use machine::ExecError;
pub use machine::ProgramFlags;
pub use machine::ProgramState;
pub use machine::RunResult;
pub use machine::RunStatus;
