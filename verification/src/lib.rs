//! Examining the effects of LoongArch instructions and finding undocumented
//! ones.
//!
//! - `opcodes`: matching instruction words against `(value, mask)` opcode
//!   tables, among them the opcodes found beyond what binutils documents,
//!   and reading such a table from text.
//! - `objdump`: reading objdump's disassembly of a single word, and the
//!   little-endian form of a word.
//! - `probe`: the registers that a single-step probe sets up, how the stop
//!   of the stepped child is read, and what the registers say afterwards.
//! - `examine`: reporting a probe: register fields of a word, the registers
//!   that changed, and a rendering of old and new values.
//! - `settag`: the expected behaviour of `x86settag`, against which probes
//!   are checked.
//! - `lbt`: a model of the LBT scratch register instructions.

pub mod examine;
pub mod lbt;
pub mod objdump;
pub mod opcodes;
pub mod probe;
pub mod settag;

pub use examine::{changed_registers, colored_output, register_fields, ChangedRegister};
pub use lbt::{lbt_execute, lbt_run_program, LbtMachine, LbtOp};
pub use objdump::{inst_from_le_bytes, inst_to_le_bytes, parse_objdump_output, ObjdumpOutputError};
pub use opcodes::{
    fuzz_candidate, inst_discovered, inst_legal_binutils, inst_matches_any, parse_opcode_table,
    KNOWN_OPCODES,
};
pub use probe::{
    classify_stop, decode_wait_status, initial_registers, prepare_registers, readable_stop,
    register_outcome, reveals_hidden_instruction, stack_page_pattern, stop_signals, ProbeRegisters, ProbeResult,
    RegisterInfo, RegisterPreset, RegisterSet, StopSignals, WaitStop, PROBE_PAGE_SIZE,
};
pub use settag::{
    settag_result_consistent, x86settag_expectation, x86settag_inst, SettagExpectation,
};
