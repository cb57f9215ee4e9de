use jolt_core::rem::{
    add_lookup, assert_eq_lookup, assert_valid_signed_remainder_lookup, execute_row,
    execute_trace, lookup_entry, mul_lookup, signed_remainder_advice, word_of, REMInstruction,
};
use jolt_core::trace::{
    virtual_register_index, ELFInstruction, MemoryState, RVTraceRow, RegisterState,
    REGISTER_COUNT, RISCV_REGISTER_COUNT, RV32IM, VIRTUAL_REGISTER_COUNT,
};

fn word32(x: i32) -> u64 {
    x as u32 as u64
}

fn word64(x: i64) -> u64 {
    x as u64
}

fn rem_row(r_x: u64, r_y: u64, rd: u64, x: u64, y: u64) -> RVTraceRow {
    RVTraceRow {
        instruction: ELFInstruction {
            address: 0x8000_0000,
            opcode: RV32IM::REM,
            rs1: Some(r_x),
            rs2: Some(r_y),
            rd: Some(rd),
            imm: None,
            virtual_sequence_index: None,
        },
        register_state: RegisterState {
            rs1_val: Some(x),
            rs2_val: Some(y),
            rd_post_val: None,
        },
        memory_state: None,
        advice_value: None,
    }
}

/// Runs the six rows of REM(x, y) on registers that are zero but for the
/// operands, and gives the registers back.
fn run32(r_x: u64, r_y: u64, rd: u64, x: i32, y: i32) -> (bool, Vec<u64>, Vec<RVTraceRow>) {
    let rows = REMInstruction::<32>::virtual_trace(rem_row(r_x, r_y, rd, word32(x), word32(y)));
    let mut registers = vec![0u64; REGISTER_COUNT as usize];
    registers[r_x as usize] = word32(x);
    registers[r_y as usize] = word32(y);
    let ok = execute_trace(32, &mut registers, &rows);
    (ok, registers, rows)
}

#[test]
fn the_sequence_has_six_rows_in_order() {
    let ins = rem_row(3, 4, 5, 0, 0).instruction;
    let seq = REMInstruction::<32>::virtual_sequence(ins);
    assert_eq!(seq.len(), 6);
    let (v_0, v_q, v_qy) = (Some(32), Some(33), Some(34));
    let expected = [
        (RV32IM::VIRTUAL_ADVICE, None, None, v_q),
        (RV32IM::VIRTUAL_ADVICE, None, None, Some(5)),
        (
            RV32IM::VIRTUAL_ASSERT_VALID_SIGNED_REMAINDER,
            Some(5),
            Some(4),
            None,
        ),
        (RV32IM::MUL, v_q, Some(4), v_qy),
        (RV32IM::ADD, v_qy, Some(5), v_0),
        (RV32IM::VIRTUAL_ASSERT_EQ, v_0, Some(3), None),
    ];
    for (i, (ins, (opcode, rs1, rs2, rd))) in seq.iter().zip(expected.iter()).enumerate() {
        assert_eq!(ins.address, 0x8000_0000);
        assert_eq!(ins.opcode, *opcode);
        assert_eq!(ins.rs1, *rs1);
        assert_eq!(ins.rs2, *rs2);
        assert_eq!(ins.rd, *rd);
        assert_eq!(ins.imm, None);
        assert_eq!(ins.virtual_sequence_index, Some(i));
    }
}

#[test]
fn virtual_registers_follow_the_architectural_ones() {
    assert_eq!(RISCV_REGISTER_COUNT, 32);
    assert_eq!(VIRTUAL_REGISTER_COUNT, 32);
    assert_eq!(REGISTER_COUNT, 64);
    assert_eq!(virtual_register_index(0), 32);
    assert_eq!(virtual_register_index(31), 63);
}

#[test]
fn seven_by_minus_three() {
    // the remainder takes the sign of the divisor: 7 = (-3)(-3) + (-2)
    let (q, r) = signed_remainder_advice(32, word32(7), word32(-3));
    assert_eq!((q, r), (word32(-3), word32(-2)));
    let (ok, registers, rows) = run32(1, 2, 3, 7, -3);
    assert!(ok);
    assert_eq!(registers[3], word32(-2));
    assert_eq!(registers[1], word32(7));
    assert_eq!(registers[2], word32(-3));
    assert_eq!(lookup_entry(32, &rows[2]), Some(1));
    assert_eq!(lookup_entry(32, &rows[5]), Some(1));
    assert_eq!(rows[0].advice_value, Some(word32(-3)));
    assert_eq!(rows[1].advice_value, Some(word32(-2)));
}

#[test]
fn minus_seven_by_three() {
    // -7 = (-3) 3 + 2
    let (q, r) = signed_remainder_advice(32, word32(-7), word32(3));
    assert_eq!((q, r), (word32(-3), 2));
    let (ok, registers, rows) = run32(1, 2, 3, -7, 3);
    assert!(ok);
    assert_eq!(registers[3], 2);
    assert_eq!(lookup_entry(32, &rows[2]), Some(1));
    assert_eq!(lookup_entry(32, &rows[5]), Some(1));
    // the rows of the check
    assert_eq!(rows[3].register_state.rd_post_val, Some(word32(-9)));
    assert_eq!(rows[4].register_state.rd_post_val, Some(word32(-7)));
}

#[test]
fn five_by_zero() {
    // the quotient is zero and the remainder is the dividend
    let (q, r) = signed_remainder_advice(32, 5, 0);
    assert_eq!((q, r), (0, 5));
    assert_eq!(assert_valid_signed_remainder_lookup(32, 5, 0), 1);
    let (ok, registers, rows) = run32(1, 2, 3, 5, 0);
    assert!(ok);
    assert_eq!(registers[3], 5);
    assert_eq!(lookup_entry(32, &rows[2]), Some(1));
    assert_eq!(lookup_entry(32, &rows[5]), Some(1));
    assert_eq!(
        signed_remainder_advice(64, word64(-5), 0),
        (0, word64(-5))
    );
}

#[test]
fn the_smallest_number_by_minus_one_wraps() {
    assert_eq!(
        signed_remainder_advice(32, word32(i32::MIN), word32(-1)),
        (word32(i32::MIN), 0)
    );
    assert_eq!(
        signed_remainder_advice(64, word64(i64::MIN), word64(-1)),
        (word64(i64::MIN), 0)
    );
    let (ok, registers, _) = run32(1, 2, 3, i32::MIN, -1);
    assert!(ok);
    assert_eq!(registers[3], 0);
}

#[test]
fn plain_divisions_keep_quotient_and_remainder() {
    assert_eq!(signed_remainder_advice(32, 7, 3), (2, 1));
    assert_eq!(
        signed_remainder_advice(32, word32(-7), word32(-3)),
        (2, word32(-1))
    );
    assert_eq!(signed_remainder_advice(32, 6, 3), (2, 0));
    assert_eq!(
        signed_remainder_advice(32, word32(-6), 3),
        (word32(-2), 0)
    );
    assert_eq!(signed_remainder_advice(32, 0, 9), (0, 0));
    assert_eq!(
        signed_remainder_advice(64, word64(-7), 3),
        (word64(-3), 2)
    );
    assert_eq!(
        signed_remainder_advice(64, 7, word64(-3)),
        (word64(-3), word64(-2))
    );
    // on 32-bit words only the low half of the operands counts
    assert_eq!(
        signed_remainder_advice(32, 0xffff_ffff_0000_0007, 0x1_0000_0003),
        (2, 1)
    );
}

#[test]
fn the_advice_is_a_division_with_rest_on_a_range_of_values() {
    for x in -40i32..=40 {
        for y in -12i32..=12 {
            let (q, r) = signed_remainder_advice(32, word32(x), word32(y));
            let (q, r) = (q as u32 as i32, r as u32 as i32);
            assert_eq!(q.wrapping_mul(y).wrapping_add(r), x);
            if y != 0 {
                assert!(r == 0 || (r < 0) == (y < 0));
                assert!(r.unsigned_abs() < y.unsigned_abs());
            } else {
                assert_eq!((q, r), (0, x));
            }
            let (ok, registers, _) = run32(4, 5, 6, x, y);
            assert!(ok);
            assert_eq!(registers[6], word32(r));
            assert_eq!(registers[4], word32(x));
            assert_eq!(registers[5], word32(y));
            for (i, v) in registers.iter().enumerate().take(32) {
                if i != 4 && i != 5 && i != 6 {
                    assert_eq!(*v, 0);
                }
            }
        }
    }
}

#[test]
fn a_destination_that_is_a_source_clobbers_the_operand() {
    // 7 rem 3 = 1 lands in the register of the dividend, and the last row
    // no longer reads a 7 there
    let (ok, registers, _) = run32(1, 2, 1, 7, 3);
    assert!(!ok);
    // the rows before it have run: quotient, remainder, product and sum
    assert_eq!(registers[1], 1);
    assert_eq!(registers[33], 2);
    assert_eq!(registers[34], 6);
    assert_eq!(registers[32], 7);
    // it does no harm where the remainder is the dividend
    let (ok, registers, _) = run32(1, 2, 1, 1, 3);
    assert!(ok);
    assert_eq!(registers[1], 1);
}

#[test]
fn the_lookups_are_exact() {
    assert_eq!(word_of(32, 0x1_2345_6789), 0x2345_6789);
    assert_eq!(word_of(64, 0x1_2345_6789), 0x1_2345_6789);
    assert_eq!(mul_lookup(32, 0xffff_ffff, 2), 0xffff_fffe);
    assert_eq!(mul_lookup(64, u64::MAX, 2), u64::MAX - 1);
    assert_eq!(mul_lookup(32, 6, 7), 42);
    assert_eq!(add_lookup(32, 0xffff_ffff, 1), 0);
    assert_eq!(add_lookup(64, u64::MAX, 2), 1);
    assert_eq!(add_lookup(64, 6, 7), 13);
    assert_eq!(assert_eq_lookup(5, 5), 1);
    assert_eq!(assert_eq_lookup(5, 6), 0);
    // a remainder on the wrong side of zero, or too large
    assert_eq!(assert_valid_signed_remainder_lookup(32, 1, word32(-3)), 0);
    assert_eq!(assert_valid_signed_remainder_lookup(32, word32(-1), 3), 0);
    assert_eq!(assert_valid_signed_remainder_lookup(32, 3, 3), 0);
    assert_eq!(assert_valid_signed_remainder_lookup(32, 4, 3), 0);
    assert_eq!(assert_valid_signed_remainder_lookup(32, 2, 3), 1);
    assert_eq!(
        assert_valid_signed_remainder_lookup(32, word32(-2), word32(-3)),
        1
    );
    assert_eq!(assert_valid_signed_remainder_lookup(32, 0, word32(-3)), 1);
    assert_eq!(
        assert_valid_signed_remainder_lookup(64, word64(-2), word64(-3)),
        1
    );
    assert_eq!(assert_valid_signed_remainder_lookup(64, 2, word64(-3)), 0);
}

#[test]
fn a_row_yields_what_its_opcode_computes() {
    let mut row = rem_row(1, 2, 3, word32(-7), 3);
    assert_eq!(lookup_entry(32, &row), Some(2));
    row.instruction.opcode = RV32IM::ADD;
    assert_eq!(lookup_entry(32, &row), Some(word32(-4)));
    row.instruction.opcode = RV32IM::MUL;
    assert_eq!(lookup_entry(32, &row), Some(word32(-21)));
    row.instruction.opcode = RV32IM::VIRTUAL_ASSERT_EQ;
    assert_eq!(lookup_entry(32, &row), Some(0));
    row.instruction.opcode = RV32IM::VIRTUAL_ASSERT_VALID_SIGNED_REMAINDER;
    assert_eq!(lookup_entry(32, &row), Some(0));
    row.instruction.opcode = RV32IM::VIRTUAL_ADVICE;
    assert_eq!(lookup_entry(32, &row), None);
    row.advice_value = Some(9);
    assert_eq!(lookup_entry(32, &row), Some(9));
    row.instruction.opcode = RV32IM::ADD;
    row.register_state.rs2_val = None;
    assert_eq!(lookup_entry(32, &row), None);
}

#[test]
fn a_row_that_does_not_fit_leaves_the_registers() {
    let mut registers = vec![0u64; 64];
    registers[1] = 7;
    registers[2] = 3;
    let mut row = rem_row(1, 2, 3, 7, 3);
    row.register_state.rd_post_val = Some(1);
    assert!(execute_row(32, &mut registers, &row));
    assert_eq!(registers[3], 1);
    // the row says it read an 8
    let mut wrong = row;
    wrong.register_state.rs1_val = Some(8);
    let before = registers.clone();
    assert!(!execute_row(32, &mut registers, &wrong));
    assert_eq!(registers, before);
    // the row says it wrote a 2
    let mut wrong = row;
    wrong.register_state.rd_post_val = Some(2);
    assert!(!execute_row(32, &mut registers, &wrong));
    // the destination is no register
    let mut wrong = row;
    wrong.instruction.rd = Some(64);
    assert!(!execute_row(32, &mut registers, &wrong));
    assert_eq!(registers, before);
    // an assertion that does not hold
    let mut wrong = row;
    wrong.instruction.opcode = RV32IM::VIRTUAL_ASSERT_EQ;
    wrong.instruction.rd = None;
    assert!(!execute_row(32, &mut registers, &wrong));
    assert!(execute_trace(32, &mut registers, &[]));
    let _ = MemoryState::Read {
        address: 0,
        value: 0,
    };
}

#[test]
fn a_remainder_on_64_bit_words_runs() {
    let x = word64(-1_000_000_000_007);
    let y = word64(1_000_003);
    let rows = REMInstruction::<64>::virtual_trace(rem_row(10, 11, 12, x, y));
    let mut registers = vec![0u64; 64];
    registers[10] = x;
    registers[11] = y;
    assert!(execute_trace(64, &mut registers, &rows));
    let expected = (-1_000_000_000_007i64).rem_euclid(1_000_003);
    assert_eq!(registers[12], word64(expected));
    assert_eq!(registers[10], x);
    assert_eq!(registers[11], y);
}
