//! Instructions and trace rows of the virtual machine.

use vstd::prelude::*;

verus! {

/// The number of architectural registers.
pub const RISCV_REGISTER_COUNT: u64 = 32;

/// The number of virtual registers, which follow the architectural ones.
pub const VIRTUAL_REGISTER_COUNT: u64 = 32;

/// The number of registers of both kinds.
pub const REGISTER_COUNT: u64 = 64;

/// The index of the virtual register `index`.
pub open spec fn spec_virtual_register_index(index: u64) -> u64 {
    (index + 32) as u64
}

/// The index of the virtual register `index`: the virtual registers follow
/// the architectural ones, so none of them is an architectural register.
pub fn virtual_register_index(index: u64) -> (r: u64)
    requires
        index + RISCV_REGISTER_COUNT <= u64::MAX,
    ensures
        r == spec_virtual_register_index(index),
        r == index + RISCV_REGISTER_COUNT,
        index < VIRTUAL_REGISTER_COUNT ==> RISCV_REGISTER_COUNT <= r < REGISTER_COUNT,
{
    index + RISCV_REGISTER_COUNT
}

/// The opcodes that the signed remainder and its virtual sequence use.
#[allow(non_camel_case_types)]
#[derive(Clone, Copy, Debug, PartialEq, Eq, Structural)]
pub enum RV32IM {
    ADD,
    MUL,
    REM,
    VIRTUAL_ADVICE,
    VIRTUAL_ASSERT_EQ,
    VIRTUAL_ASSERT_VALID_SIGNED_REMAINDER,
}

/// An instruction as the decoder gives it. A row of a virtual sequence
/// carries its place in the sequence.
#[derive(Clone, Copy, Debug, PartialEq, Eq, Structural)]
pub struct ELFInstruction {
    pub address: u64,
    pub opcode: RV32IM,
    pub rs1: Option<u64>,
    pub rs2: Option<u64>,
    pub rd: Option<u64>,
    pub imm: Option<u32>,
    pub virtual_sequence_index: Option<usize>,
}

/// The register values that a row reads and writes.
#[derive(Clone, Copy, Debug, PartialEq, Eq, Structural)]
pub struct RegisterState {
    pub rs1_val: Option<u64>,
    pub rs2_val: Option<u64>,
    pub rd_post_val: Option<u64>,
}

/// The memory access of a row.
#[derive(Clone, Copy, Debug, PartialEq, Eq, Structural)]
pub enum MemoryState {
    Read { address: u64, value: u64 },
    Write { address: u64, pre_value: u64, post_value: u64 },
}

/// One row of an execution trace.
#[derive(Clone, Copy, Debug, PartialEq, Eq, Structural)]
pub struct RVTraceRow {
    pub instruction: ELFInstruction,
    pub register_state: RegisterState,
    pub memory_state: Option<MemoryState>,
    pub advice_value: Option<u64>,
}

} // verus!
