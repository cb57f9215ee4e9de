use ark_std::test_rng;
use jolt_core::rem::{lookup_entry, REMInstruction};
use jolt_core::trace::{ELFInstruction, RVTraceRow, RegisterState, REGISTER_COUNT, RV32IM};
use rand_core::RngCore;

#[test]
fn rem_virtual_sequence_32() {
    let mut rng = test_rng();

    let r_x = rng.next_u64() % 32;
    let r_y = rng.next_u64() % 32;
    let rd = rng.next_u64() % 32;

    let x = rng.next_u32() as u64;
    let y = if r_x == r_y { x } else { rng.next_u32() as u64 };

    let mut remainder = x as i32 % y as i32;
    if (remainder < 0 && (y as i32) > 0) || (remainder > 0 && (y as i32) < 0) {
        remainder += y as i32;
    }
    let result = remainder as u32 as u64;

    let rem_trace_row = RVTraceRow {
        instruction: ELFInstruction {
            address: rng.next_u64(),
            opcode: RV32IM::REM,
            rs1: Some(r_x),
            rs2: Some(r_y),
            rd: Some(rd),
            imm: None,
            virtual_sequence_index: None,
        },
        register_state: RegisterState {
            rs1_val: Some(x),
            rs2_val: Some(y),
            rd_post_val: Some(result as u64),
        },
        memory_state: None,
        advice_value: None,
    };

    let virtual_sequence = REMInstruction::<32>::virtual_trace(rem_trace_row);
    let mut registers = vec![0u64; REGISTER_COUNT as usize];
    registers[r_x as usize] = x;
    registers[r_y as usize] = y;

    for row in virtual_sequence {
        if let Some(rs1_val) = row.register_state.rs1_val {
            assert_eq!(registers[row.instruction.rs1.unwrap() as usize], rs1_val);
        }
        if let Some(rs2_val) = row.register_state.rs2_val {
            assert_eq!(registers[row.instruction.rs2.unwrap() as usize], rs2_val);
        }

        let output = lookup_entry(32, &row).unwrap();
        if let Some(rd) = row.instruction.rd {
            registers[rd as usize] = output;
            assert_eq!(
                registers[rd as usize],
                row.register_state.rd_post_val.unwrap()
            );
        } else {
            // Virtual assert instruction
            assert!(output == 1);
        }
    }

    for (index, val) in registers.iter().enumerate() {
        if index as u64 == r_x {
            // Check that r_x hasn't been clobbered
            assert_eq!(*val, x);
        } else if index as u64 == r_y {
            // Check that r_y hasn't been clobbered
            assert_eq!(*val, y);
        } else if index as u64 == rd {
            // Check that result was written to rd
            assert_eq!(*val, result as u64);
        } else if index < 32 {
            // None of the other "real" registers were touched
            assert_eq!(*val, 0);
        }
    }
}
