//! The signed remainder as a virtual sequence.
//!
//! Division is not a relation of low degree, so the remainder instruction is
//! replaced by six simpler rows: two rows of advice that hold the quotient
//! `q` and the remainder `r`, a row that asserts that `r` is a valid
//! remainder for the divisor, and three rows that check `q * y + r = x`.

use crate::trace::{
    spec_virtual_register_index, virtual_register_index, ELFInstruction, RVTraceRow,
    RegisterState, RV32IM,
};
use vstd::arithmetic::div_mod::{
    lemma_add_mod_noop, lemma_fundamental_div_mod, lemma_fundamental_div_mod_converse,
    lemma_mod_bound, lemma_mod_twice, lemma_mul_mod_noop,
};
use vstd::prelude::*;

verus! {

/// Whether words of `w` bits are supported.
pub open spec fn supported(w: usize) -> bool {
    w == 32 || w == 64
}

/// The number of words of `w` bits.
pub open spec fn word_modulus(w: usize) -> int {
    if w == 32 {
        0x1_0000_0000
    } else {
        0x1_0000_0000_0000_0000
    }
}

/// The low `w` bits of `v`.
pub open spec fn to_word(v: int, w: usize) -> int {
    v % word_modulus(w)
}

/// The integer that the low `w` bits of `v` denote in two's complement.
pub open spec fn to_signed(v: int, w: usize) -> int {
    let m = word_modulus(w);
    let t = v % m;
    if 2 * t < m {
        t
    } else {
        t - m
    }
}

/// The quotient rounded towards minus infinity, for a divisor that is not
/// zero.
pub open spec fn floor_div(a: int, b: int) -> int {
    if b > 0 {
        a / b
    } else {
        (-a) / (-b)
    }
}

/// The quotient of the advice, as a signed integer: zero for a zero
/// divisor, else the quotient rounded towards minus infinity.
pub open spec fn signed_quotient(w: usize, x: u64, y: u64) -> int {
    let sx = to_signed(x as int, w);
    let sy = to_signed(y as int, w);
    if sy == 0 {
        0
    } else {
        floor_div(sx, sy)
    }
}

/// The remainder of the advice, as a signed integer: what is left of the
/// dividend once the quotient times the divisor is taken away. It is the
/// dividend for a zero divisor, and has the sign of the divisor otherwise.
pub open spec fn signed_remainder(w: usize, x: u64, y: u64) -> int {
    to_signed(x as int, w) - signed_quotient(w, x, y) * to_signed(y as int, w)
}

/// The quotient of the advice, as a word.
pub open spec fn quotient_word(w: usize, x: u64, y: u64) -> u64 {
    to_word(signed_quotient(w, x, y), w) as u64
}

/// The remainder of the advice, as a word.
pub open spec fn remainder_word(w: usize, x: u64, y: u64) -> u64 {
    to_word(signed_remainder(w, x, y), w) as u64
}

/// The absolute value.
pub open spec fn abs(a: int) -> int {
    if a < 0 {
        -a
    } else {
        a
    }
}

/// Whether `r` is a valid remainder for the divisor `y`: it is zero, or the
/// divisor is, or it is smaller than the divisor in absolute value and has
/// its sign.
pub open spec fn valid_signed_remainder(w: usize, r: u64, y: u64) -> bool {
    let sr = to_signed(r as int, w);
    let sy = to_signed(y as int, w);
    sr == 0 || sy == 0 || (abs(sr) < abs(sy) && (sr < 0) == (sy < 0))
}

/// The product of two words.
pub open spec fn mul_word(w: usize, a: u64, b: u64) -> u64 {
    to_word(a * b, w) as u64
}

/// The sum of two words.
pub open spec fn add_word(w: usize, a: u64, b: u64) -> u64 {
    to_word(a + b, w) as u64
}

/// One for `true`, zero for `false`.
pub open spec fn flag(b: bool) -> u64 {
    if b {
        1
    } else {
        0
    }
}

/// The low `w` bits of `v`.
pub fn word_of(w: usize, v: u64) -> (r: u64)
    requires
        supported(w),
    ensures
        r == to_word(v as int, w),
{
    if w == 32 {
        v % 0x1_0000_0000
    } else {
        v
    }
}

/// Whether the word `v` is negative in two's complement, and its absolute
/// value.
fn sign_and_magnitude(w: usize, v: u64) -> (r: (bool, u64))
    requires
        supported(w),
        v < word_modulus(w),
    ensures
        r.0 == (to_signed(v as int, w) < 0),
        r.1 == abs(to_signed(v as int, w)),
{
    if w == 32 {
        if v < 0x8000_0000 {
            (false, v)
        } else {
            (true, 0x1_0000_0000 - v)
        }
    } else {
        if v < 0x8000_0000_0000_0000 {
            (false, v)
        } else {
            (true, (u64::MAX - v) + 1)
        }
    }
}

/// The word that holds the integer of the given sign and absolute value,
/// which is at most half the number of words.
fn word_of_signed(w: usize, negative: bool, magnitude: u64) -> (r: u64)
    requires
        supported(w),
        2 * magnitude <= word_modulus(w),
    ensures
        r == to_word(if negative { -(magnitude as int) } else { magnitude as int }, w),
{
    if !negative || magnitude == 0 {
        magnitude
    } else if w == 32 {
        0x1_0000_0000 - magnitude
    } else {
        (u64::MAX - magnitude) + 1
    }
}

/// The quotient rounded towards minus infinity is the one whose remainder
/// lies between zero and the divisor.
pub proof fn lemma_floor_div(a: int, b: int, q: int, r: int)
    requires
        b != 0,
        a == q * b + r,
        b > 0 ==> 0 <= r < b,
        b < 0 ==> b < r <= 0,
    ensures
        floor_div(a, b) == q,
{
    if b > 0 {
        lemma_fundamental_div_mod_converse(a, b, q, r);
    } else {
        assert(-a == q * (-b) + (-r)) by (nonlinear_arith)
            requires
                a == q * b + r,
        ;
        lemma_fundamental_div_mod_converse(-a, -b, q, -r);
    }
}

/// The quotient and the remainder that the prover supplies as advice for
/// the signed remainder of `x` by `y`.
pub fn signed_remainder_advice(w: usize, x: u64, y: u64) -> (r: (u64, u64))
    requires
        supported(w),
    ensures
        r.0 == quotient_word(w, x, y),
        r.1 == remainder_word(w, x, y),
{
    let xw = word_of(w, x);
    let yw = word_of(w, y);
    let (x_neg, a) = sign_and_magnitude(w, xw);
    let (y_neg, b) = sign_and_magnitude(w, yw);
    let ghost sx = to_signed(x as int, w);
    let ghost sy = to_signed(y as int, w);
    proof {
        lemma_mod_twice(x as int, word_modulus(w));
        lemma_mod_twice(y as int, word_modulus(w));
    }
    assert(sx == to_signed(xw as int, w) && sy == to_signed(yw as int, w));
    if b == 0 {
        assert(signed_remainder(w, x, y) == sx);
        assert(to_word(sx, w) == xw) by {
            if w == 32 {
                assert(sx == xw || sx == xw - 0x1_0000_0000);
            } else {
                assert(sx == xw || sx == xw - 0x1_0000_0000_0000_0000);
            }
        }
        return (0, xw);
    }
    let q0 = a / b;
    let r0 = a % b;
    proof {
        lemma_fundamental_div_mod(a as int, b as int);
        assert(0 <= q0 <= a) by (nonlinear_arith)
            requires
                a == b * q0 + r0,
                b >= 1,
                r0 >= 0,
                q0 >= 0,
        ;
    }
    if r0 == 0 || x_neg == y_neg {
        // The plain quotient and remainder have the right signs.
        let ghost q: int = if x_neg == y_neg {
            q0 as int
        } else {
            -(q0 as int)
        };
        let ghost r: int = if x_neg {
            -(r0 as int)
        } else {
            r0 as int
        };
        proof {
            assert(sx == q * sy + r) by (nonlinear_arith)
                requires
                    a == b * q0 + r0,
                    sx == (if x_neg { -(a as int) } else { a as int }),
                    sy == (if y_neg { -(b as int) } else { b as int }),
                    q == (if x_neg == y_neg { q0 as int } else { -(q0 as int) }),
                    r == (if x_neg { -(r0 as int) } else { r0 as int }),
            ;
            lemma_floor_div(sx, sy, q, r);
            assert(signed_quotient(w, x, y) == q);
            assert(signed_remainder(w, x, y) == r);
        }
        (word_of_signed(w, x_neg != y_neg, q0), word_of_signed(w, x_neg, r0))
    } else {
        // The signs differ and the division leaves a rest: one more step
        // down, and the remainder moves to the side of the divisor.
        let ghost q: int = -(q0 as int) - 1;
        let ghost r: int = if y_neg {
            r0 - b
        } else {
            b - r0
        };
        proof {
            assert(sx == q * sy + r) by (nonlinear_arith)
                requires
                    a == b * q0 + r0,
                    x_neg != y_neg,
                    sx == (if x_neg { -(a as int) } else { a as int }),
                    sy == (if y_neg { -(b as int) } else { b as int }),
                    q == -(q0 as int) - 1,
                    r == (if y_neg { r0 - b } else { b - r0 }),
            ;
            lemma_floor_div(sx, sy, q, r);
            assert(signed_quotient(w, x, y) == q);
            assert(signed_remainder(w, x, y) == r);
            assert(2 * (q0 + 1) <= word_modulus(w)) by (nonlinear_arith)
                requires
                    a == b * q0 + r0,
                    0 < r0 < b,
                    2 * a <= word_modulus(w),
                    q0 >= 0,
            ;
        }
        (word_of_signed(w, true, q0 + 1), word_of_signed(w, y_neg, b - r0))
    }
}

/// What the row that asserts a valid remainder yields for the remainder `r`
/// and the divisor `y`: one where the remainder is valid, else zero.
pub fn assert_valid_signed_remainder_lookup(w: usize, r: u64, y: u64) -> (out: u64)
    requires
        supported(w),
    ensures
        out == flag(valid_signed_remainder(w, r, y)),
{
    let rw = word_of(w, r);
    let yw = word_of(w, y);
    let (r_neg, r_abs) = sign_and_magnitude(w, rw);
    let (y_neg, y_abs) = sign_and_magnitude(w, yw);
    proof {
        lemma_mod_twice(r as int, word_modulus(w));
        lemma_mod_twice(y as int, word_modulus(w));
    }
    assert(to_signed(rw as int, w) == to_signed(r as int, w));
    assert(to_signed(yw as int, w) == to_signed(y as int, w));
    if r_abs == 0 || y_abs == 0 {
        1
    } else if r_abs < y_abs && r_neg == y_neg {
        1
    } else {
        0
    }
}

/// What a multiplication row yields.
pub fn mul_lookup(w: usize, a: u64, b: u64) -> (out: u64)
    requires
        supported(w),
    ensures
        out == mul_word(w, a, b),
{
    assert(a * b <= 0xffff_ffff_ffff_ffff * 0xffff_ffff_ffff_ffff) by (nonlinear_arith)
        requires
            a <= 0xffff_ffff_ffff_ffff,
            b <= 0xffff_ffff_ffff_ffff,
    ;
    let p: u128 = (a as u128) * (b as u128);
    if w == 32 {
        (p % 0x1_0000_0000) as u64
    } else {
        (p % 0x1_0000_0000_0000_0000) as u64
    }
}

/// What an addition row yields.
pub fn add_lookup(w: usize, a: u64, b: u64) -> (out: u64)
    requires
        supported(w),
    ensures
        out == add_word(w, a, b),
{
    let s: u128 = (a as u128) + (b as u128);
    if w == 32 {
        (s % 0x1_0000_0000) as u64
    } else {
        (s % 0x1_0000_0000_0000_0000) as u64
    }
}

/// What a row that asserts equality yields.
pub fn assert_eq_lookup(a: u64, b: u64) -> (out: u64)
    ensures
        out == flag(a == b),
{
    if a == b {
        1
    } else {
        0
    }
}

/// The six instructions that stand for the signed remainder `instruction`.
pub open spec fn rem_sequence(instruction: ELFInstruction) -> Seq<ELFInstruction> {
    let v_0 = Some(spec_virtual_register_index(0));
    let v_q = Some(spec_virtual_register_index(1));
    let v_qy = Some(spec_virtual_register_index(2));
    seq![
        ELFInstruction {
            address: instruction.address,
            opcode: RV32IM::VIRTUAL_ADVICE,
            rs1: None,
            rs2: None,
            rd: v_q,
            imm: None,
            virtual_sequence_index: Some(0),
        },
        ELFInstruction {
            address: instruction.address,
            opcode: RV32IM::VIRTUAL_ADVICE,
            rs1: None,
            rs2: None,
            rd: instruction.rd,
            imm: None,
            virtual_sequence_index: Some(1),
        },
        ELFInstruction {
            address: instruction.address,
            opcode: RV32IM::VIRTUAL_ASSERT_VALID_SIGNED_REMAINDER,
            rs1: instruction.rd,
            rs2: instruction.rs2,
            rd: None,
            imm: None,
            virtual_sequence_index: Some(2),
        },
        ELFInstruction {
            address: instruction.address,
            opcode: RV32IM::MUL,
            rs1: v_q,
            rs2: instruction.rs2,
            rd: v_qy,
            imm: None,
            virtual_sequence_index: Some(3),
        },
        ELFInstruction {
            address: instruction.address,
            opcode: RV32IM::ADD,
            rs1: v_qy,
            rs2: instruction.rd,
            rd: v_0,
            imm: None,
            virtual_sequence_index: Some(4),
        },
        ELFInstruction {
            address: instruction.address,
            opcode: RV32IM::VIRTUAL_ASSERT_EQ,
            rs1: v_0,
            rs2: instruction.rs1,
            rd: None,
            imm: None,
            virtual_sequence_index: Some(5),
        },
    ]
}

/// A row of a virtual sequence.
pub open spec fn virtual_row(
    instruction: ELFInstruction,
    rs1_val: Option<u64>,
    rs2_val: Option<u64>,
    rd_post_val: Option<u64>,
    advice_value: Option<u64>,
) -> RVTraceRow {
    RVTraceRow {
        instruction,
        register_state: RegisterState { rs1_val, rs2_val, rd_post_val },
        memory_state: None,
        advice_value,
    }
}

/// The six rows that stand for the row `row` of a signed remainder of `x` by
/// `y` on words of `w` bits.
pub open spec fn rem_trace(w: usize, row: RVTraceRow) -> Seq<RVTraceRow> {
    let x = row.register_state.rs1_val.unwrap();
    let y = row.register_state.rs2_val.unwrap();
    let ins = rem_sequence(row.instruction);
    let q = quotient_word(w, x, y);
    let r = remainder_word(w, x, y);
    let q_y = mul_word(w, q, y);
    let sum = add_word(w, q_y, r);
    seq![
        virtual_row(ins[0], None, None, Some(q), Some(q)),
        virtual_row(ins[1], None, None, Some(r), Some(r)),
        virtual_row(ins[2], Some(r), Some(y), None, None),
        virtual_row(ins[3], Some(q), Some(y), Some(q_y), None),
        virtual_row(ins[4], Some(q_y), Some(r), Some(sum), None),
        virtual_row(ins[5], Some(sum), Some(x), None, None),
    ]
}

/// The signed remainder on words of `WORD_SIZE` bits.
pub struct REMInstruction<const WORD_SIZE: usize>;

impl<const WORD_SIZE: usize> REMInstruction<WORD_SIZE> {
    /// The six instructions that stand for the signed remainder
    /// `instruction`.
    pub fn virtual_sequence(instruction: ELFInstruction) -> (sequence: Vec<ELFInstruction>)
        requires
            instruction.opcode == RV32IM::REM,
        ensures
            sequence@ == rem_sequence(instruction),
    {
        // The source registers of the remainder.
        let r_x = instruction.rs1;
        let r_y = instruction.rs2;
        // The virtual registers of the sequence.
        let v_0 = Some(virtual_register_index(0));
        let v_q = Some(virtual_register_index(1));
        let v_qy = Some(virtual_register_index(2));

        let mut virtual_sequence: Vec<ELFInstruction> = Vec::new();
        virtual_sequence.push(
            ELFInstruction {
                address: instruction.address,
                opcode: RV32IM::VIRTUAL_ADVICE,
                rs1: None,
                rs2: None,
                rd: v_q,
                imm: None,
                virtual_sequence_index: Some(virtual_sequence.len()),
            },
        );
        virtual_sequence.push(
            ELFInstruction {
                address: instruction.address,
                opcode: RV32IM::VIRTUAL_ADVICE,
                rs1: None,
                rs2: None,
                rd: instruction.rd,
                imm: None,
                virtual_sequence_index: Some(virtual_sequence.len()),
            },
        );
        virtual_sequence.push(
            ELFInstruction {
                address: instruction.address,
                opcode: RV32IM::VIRTUAL_ASSERT_VALID_SIGNED_REMAINDER,
                rs1: instruction.rd,
                rs2: r_y,
                rd: None,
                imm: None,
                virtual_sequence_index: Some(virtual_sequence.len()),
            },
        );
        virtual_sequence.push(
            ELFInstruction {
                address: instruction.address,
                opcode: RV32IM::MUL,
                rs1: v_q,
                rs2: r_y,
                rd: v_qy,
                imm: None,
                virtual_sequence_index: Some(virtual_sequence.len()),
            },
        );
        virtual_sequence.push(
            ELFInstruction {
                address: instruction.address,
                opcode: RV32IM::ADD,
                rs1: v_qy,
                rs2: instruction.rd,
                rd: v_0,
                imm: None,
                virtual_sequence_index: Some(virtual_sequence.len()),
            },
        );
        virtual_sequence.push(
            ELFInstruction {
                address: instruction.address,
                opcode: RV32IM::VIRTUAL_ASSERT_EQ,
                rs1: v_0,
                rs2: r_x,
                rd: None,
                imm: None,
                virtual_sequence_index: Some(virtual_sequence.len()),
            },
        );
        assert(virtual_sequence@ =~= rem_sequence(instruction));
        virtual_sequence
    }

    /// The six rows that stand for the row `trace_row` of a signed
    /// remainder. The words have 32 or 64 bits, and the row holds the values
    /// of both source registers.
    pub fn virtual_trace(trace_row: RVTraceRow) -> (trace: Vec<RVTraceRow>)
        requires
            supported(WORD_SIZE),
            trace_row.instruction.opcode == RV32IM::REM,
            trace_row.register_state.rs1_val.is_some(),
            trace_row.register_state.rs2_val.is_some(),
        ensures
            trace@ == rem_trace(WORD_SIZE, trace_row),
    {
        // The operands of the remainder.
        let x = trace_row.register_state.rs1_val.unwrap();
        let y = trace_row.register_state.rs2_val.unwrap();

        let virtual_instructions = Self::virtual_sequence(trace_row.instruction);
        let mut virtual_trace: Vec<RVTraceRow> = Vec::new();

        let (quotient, remainder) = signed_remainder_advice(WORD_SIZE, x, y);

        let q = quotient;
        virtual_trace.push(
            RVTraceRow {
                instruction: virtual_instructions[0],
                register_state: RegisterState {
                    rs1_val: None,
                    rs2_val: None,
                    rd_post_val: Some(q),
                },
                memory_state: None,
                advice_value: Some(quotient),
            },
        );

        let r = remainder;
        virtual_trace.push(
            RVTraceRow {
                instruction: virtual_instructions[1],
                register_state: RegisterState {
                    rs1_val: None,
                    rs2_val: None,
                    rd_post_val: Some(r),
                },
                memory_state: None,
                advice_value: Some(remainder),
            },
        );

        virtual_trace.push(
            RVTraceRow {
                instruction: virtual_instructions[2],
                register_state: RegisterState {
                    rs1_val: Some(r),
                    rs2_val: Some(y),
                    rd_post_val: None,
                },
                memory_state: None,
                advice_value: None,
            },
        );

        let q_y = mul_lookup(WORD_SIZE, q, y);
        virtual_trace.push(
            RVTraceRow {
                instruction: virtual_instructions[3],
                register_state: RegisterState {
                    rs1_val: Some(q),
                    rs2_val: Some(y),
                    rd_post_val: Some(q_y),
                },
                memory_state: None,
                advice_value: None,
            },
        );

        let add_0 = add_lookup(WORD_SIZE, q_y, r);
        virtual_trace.push(
            RVTraceRow {
                instruction: virtual_instructions[4],
                register_state: RegisterState {
                    rs1_val: Some(q_y),
                    rs2_val: Some(r),
                    rd_post_val: Some(add_0),
                },
                memory_state: None,
                advice_value: None,
            },
        );

        virtual_trace.push(
            RVTraceRow {
                instruction: virtual_instructions[5],
                register_state: RegisterState {
                    rs1_val: Some(add_0),
                    rs2_val: Some(x),
                    rd_post_val: None,
                },
                memory_state: None,
                advice_value: None,
            },
        );
        assert(virtual_trace@ =~= rem_trace(WORD_SIZE, trace_row));
        virtual_trace
    }
}

/// What the row yields: the advice for a row of advice, else the result of
/// the opcode on the values that the row read. `None` where a value that
/// the opcode needs is missing.
pub open spec fn row_output(w: usize, row: RVTraceRow) -> Option<u64> {
    let a = row.register_state.rs1_val;
    let b = row.register_state.rs2_val;
    if row.instruction.opcode == RV32IM::VIRTUAL_ADVICE {
        row.advice_value
    } else if a.is_none() || b.is_none() {
        None
    } else {
        Some(
            match row.instruction.opcode {
                RV32IM::ADD => add_word(w, a.unwrap(), b.unwrap()),
                RV32IM::MUL => mul_word(w, a.unwrap(), b.unwrap()),
                RV32IM::REM => remainder_word(w, a.unwrap(), b.unwrap()),
                RV32IM::VIRTUAL_ASSERT_EQ => flag(a.unwrap() == b.unwrap()),
                RV32IM::VIRTUAL_ASSERT_VALID_SIGNED_REMAINDER => flag(
                    valid_signed_remainder(w, a.unwrap(), b.unwrap()),
                ),
                RV32IM::VIRTUAL_ADVICE => 0,
            },
        )
    }
}

/// What the row yields.
pub fn lookup_entry(w: usize, row: &RVTraceRow) -> (out: Option<u64>)
    requires
        supported(w),
    ensures
        out == row_output(w, *row),
{
    match row.instruction.opcode {
        RV32IM::VIRTUAL_ADVICE => row.advice_value,
        opcode => {
            match (row.register_state.rs1_val, row.register_state.rs2_val) {
                (Some(a), Some(b)) => Some(
                    match opcode {
                        RV32IM::ADD => add_lookup(w, a, b),
                        RV32IM::MUL => mul_lookup(w, a, b),
                        RV32IM::REM => signed_remainder_advice(w, a, b).1,
                        RV32IM::VIRTUAL_ASSERT_EQ => assert_eq_lookup(a, b),
                        RV32IM::VIRTUAL_ASSERT_VALID_SIGNED_REMAINDER => {
                            assert_valid_signed_remainder_lookup(w, a, b)
                        },
                        RV32IM::VIRTUAL_ADVICE => 0,
                    },
                ),
                _ => None,
            }
        },
    }
}

/// Whether the value that the row read from a source register, if any, is
/// the one that the register file holds.
pub open spec fn read_agrees(regs: Seq<u64>, register: Option<u64>, value: Option<u64>) -> bool {
    value.is_some() ==> register.is_some() && register.unwrap() < regs.len() && regs[register.unwrap() as int]
        == value.unwrap()
}

/// Whether the row fits the register file: what it read is what the
/// registers hold, and it yields the value that it says it wrote or, where
/// it writes nothing, it is an assertion that yields one.
pub open spec fn row_holds(w: usize, regs: Seq<u64>, row: RVTraceRow) -> bool {
    &&& read_agrees(regs, row.instruction.rs1, row.register_state.rs1_val)
    &&& read_agrees(regs, row.instruction.rs2, row.register_state.rs2_val)
    &&& row_output(w, row).is_some()
    &&& match row.instruction.rd {
        Some(rd) => rd < regs.len() && row.register_state.rd_post_val == row_output(w, row),
        None => row_output(w, row) == Some(1u64),
    }
}

/// The register file after the row.
pub open spec fn after_row(w: usize, regs: Seq<u64>, row: RVTraceRow) -> Seq<u64> {
    match row.instruction.rd {
        Some(rd) => regs.update(rd as int, row_output(w, row).unwrap()),
        None => regs,
    }
}

/// Whether every row fits the register file that the rows before it leave.
pub open spec fn trace_holds(w: usize, regs: Seq<u64>, rows: Seq<RVTraceRow>) -> bool
    decreases rows.len(),
{
    rows.len() == 0 || (row_holds(w, regs, rows[0]) && trace_holds(
        w,
        after_row(w, regs, rows[0]),
        rows.drop_first(),
    ))
}

/// The register file after the rows, up to the first that does not fit.
pub open spec fn after_trace(w: usize, regs: Seq<u64>, rows: Seq<RVTraceRow>) -> Seq<u64>
    decreases rows.len(),
{
    if rows.len() == 0 || !row_holds(w, regs, rows[0]) {
        regs
    } else {
        after_trace(w, after_row(w, regs, rows[0]), rows.drop_first())
    }
}

/// Runs one row on the register file: checks it, and writes what it yields
/// to its destination. The registers are left as they were where the row
/// does not fit.
pub fn execute_row(w: usize, registers: &mut Vec<u64>, row: &RVTraceRow) -> (ok: bool)
    requires
        supported(w),
    ensures
        ok == row_holds(w, old(registers)@, *row),
        ok ==> final(registers)@ == after_row(w, old(registers)@, *row),
        !ok ==> final(registers)@ == old(registers)@,
{
    if !read_matches(registers, row.instruction.rs1, row.register_state.rs1_val) {
        return false;
    }
    if !read_matches(registers, row.instruction.rs2, row.register_state.rs2_val) {
        return false;
    }
    let out = match lookup_entry(w, row) {
        Some(out) => out,
        None => {
            return false;
        },
    };
    match row.instruction.rd {
        Some(rd) => {
            if rd >= registers.len() as u64 {
                return false;
            }
            match row.register_state.rd_post_val {
                Some(post) => {
                    if post != out {
                        return false;
                    }
                },
                None => {
                    return false;
                },
            }
            registers[rd as usize] = out;
            true
        },
        None => out == 1,
    }
}

/// Whether the value that a row read, if any, is the one in the register.
fn read_matches(registers: &Vec<u64>, register: Option<u64>, value: Option<u64>) -> (ok: bool)
    ensures
        ok == read_agrees(registers@, register, value),
{
    match value {
        None => true,
        Some(v) => match register {
            None => false,
            Some(i) => i < registers.len() as u64 && registers[i as usize] == v,
        },
    }
}

/// Runs the rows in order on the register file, and stops at the first
/// that does not fit.
pub fn execute_trace(w: usize, registers: &mut Vec<u64>, rows: &[RVTraceRow]) -> (ok: bool)
    requires
        supported(w),
    ensures
        ok == trace_holds(w, old(registers)@, rows@),
        final(registers)@ == after_trace(w, old(registers)@, rows@),
{
    let mut i: usize = 0;
    assert(rows@.skip(0) =~= rows@);
    while i < rows.len()
        invariant
            i <= rows@.len(),
            supported(w),
            trace_holds(w, old(registers)@, rows@) == trace_holds(
                w,
                registers@,
                rows@.skip(i as int),
            ),
            after_trace(w, old(registers)@, rows@) == after_trace(
                w,
                registers@,
                rows@.skip(i as int),
            ),
        decreases rows@.len() - i,
    {
        proof {
            assert(rows@.skip(i as int)[0] == rows@[i as int]);
            assert(rows@.skip(i as int).drop_first() =~= rows@.skip(i + 1));
        }
        if !execute_row(w, registers, &rows[i]) {
            return false;
        }
        i += 1;
    }
    true
}

/// What is left after a division rounded towards minus infinity lies
/// between zero and the divisor.
pub proof fn lemma_floor_rest(a: int, b: int)
    requires
        b != 0,
    ensures
        b > 0 ==> 0 <= a - floor_div(a, b) * b < b,
        b < 0 ==> b < a - floor_div(a, b) * b <= 0,
{
    if b > 0 {
        lemma_fundamental_div_mod(a, b);
        lemma_mod_bound(a, b);
        assert(a - (a / b) * b == a % b) by (nonlinear_arith)
            requires
                a == b * (a / b) + a % b,
        ;
    } else {
        lemma_fundamental_div_mod(-a, -b);
        lemma_mod_bound(-a, -b);
        assert(a - ((-a) / (-b)) * b == -((-a) % (-b))) by (nonlinear_arith)
            requires
                -a == (-b) * ((-a) / (-b)) + (-a) % (-b),
        ;
    }
}

/// A division with rest on integers is one on their residues.
pub proof fn lemma_division_on_residues(q: int, y: int, r: int, x: int, m: int)
    requires
        m > 0,
        q * y + r == x,
    ensures
        ((q % m) * (y % m) + r % m) % m == x % m,
        (((q % m) * (y % m)) % m + r % m) % m == x % m,
{
    lemma_mul_mod_noop(q, y, m);
    lemma_add_mod_noop(q * y, r, m);
    lemma_add_mod_noop((q % m) * (y % m), r % m, m);
    lemma_mod_twice(r, m);
}

/// A product of residues does not change with the residue of a factor.
pub proof fn lemma_product_of_residues(q: int, y: int, z: int, m: int)
    requires
        m > 0,
        y % m == z % m,
    ensures
        (q * y) % m == (q * z) % m,
{
    lemma_mul_mod_noop(q, y, m);
    lemma_mul_mod_noop(q, z, m);
}

/// The advice is a division with rest: on words, the quotient times the
/// divisor plus the remainder is the dividend; and the remainder, read as a
/// signed number, is smaller than a divisor that is not zero and is zero or
/// has its sign. For a zero divisor the remainder is the dividend, whatever
/// its sign.
pub proof fn lemma_advice_is_division(w: usize, x: u64, y: u64)
    requires
        supported(w),
    ensures
        to_word(quotient_word(w, x, y) * y + remainder_word(w, x, y), w) == to_word(x as int, w),
        add_word(w, mul_word(w, quotient_word(w, x, y), y), remainder_word(w, x, y)) == to_word(
            x as int,
            w,
        ),
        to_signed(remainder_word(w, x, y) as int, w) == signed_remainder(w, x, y),
        to_signed(y as int, w) != 0 ==> abs(signed_remainder(w, x, y)) < abs(
            to_signed(y as int, w),
        ) && (signed_remainder(w, x, y) == 0 || (signed_remainder(w, x, y) < 0) == (to_signed(
            y as int,
            w,
        ) < 0)),
        to_signed(y as int, w) == 0 ==> signed_remainder(w, x, y) == to_signed(x as int, w),
        valid_signed_remainder(w, remainder_word(w, x, y), y),
{
    let m = word_modulus(w);
    let sx = to_signed(x as int, w);
    let sy = to_signed(y as int, w);
    let q_int = signed_quotient(w, x, y);
    let r_int = signed_remainder(w, x, y);
    let q = quotient_word(w, x, y) as int;
    let r = remainder_word(w, x, y) as int;
    assert(r_int == sx - q_int * sy);
    assert(q == q_int % m && r == r_int % m);
    assert(sy % m == (y as int) % m && sx % m == (x as int) % m);
    assert(-m <= 2 * sx < m && -m <= 2 * sy < m);
    // The remainder lies between zero and the divisor.
    if sy != 0 {
        lemma_floor_rest(sx, sy);
    } else {
        assert(q_int * sy == 0) by (nonlinear_arith)
            requires
                sy == 0,
        ;
    }
    assert(-m <= 2 * r_int < m);
    assert(to_signed(r, w) == r_int);
    // The quotient times the divisor plus the remainder is the dividend.
    lemma_division_on_residues(q_int, sy, r_int, sx, m);
    lemma_product_of_residues(q, y as int, sy % m, m);
    lemma_mod_twice(sy, m);
    lemma_add_mod_noop(q * y, r, m);
    lemma_add_mod_noop(q * (sy % m), r, m);
    assert((q * y + r) % m == sx % m);
    lemma_add_mod_noop((q * y) % m, r, m);
    lemma_mod_twice(q * y, m);
}

/// The register file in which the virtual sequence of a remainder starts:
/// it has a place for every register, and the source registers of the
/// remainder hold the operands, which are words.
pub open spec fn rem_ready(w: usize, regs: Seq<u64>, row: RVTraceRow) -> bool {
    let ins = row.instruction;
    &&& supported(w)
    &&& regs.len() == 64
    &&& ins.opcode == RV32IM::REM
    &&& ins.rs1.is_some() && ins.rs1.unwrap() < 32
    &&& ins.rs2.is_some() && ins.rs2.unwrap() < 32
    &&& ins.rd.is_some() && ins.rd.unwrap() < 32
    &&& row.register_state.rs1_val.is_some()
    &&& row.register_state.rs2_val.is_some()
    &&& row.register_state.rs1_val.unwrap() < word_modulus(w)
    &&& row.register_state.rs2_val.unwrap() < word_modulus(w)
    &&& regs[ins.rs1.unwrap() as int] == row.register_state.rs1_val.unwrap()
    &&& regs[ins.rs2.unwrap() as int] == row.register_state.rs2_val.unwrap()
}

/// Whether the destination of the remainder leaves the operands in place:
/// it is neither source register, or the remainder is the value that the
/// source register holds.
pub open spec fn operands_stay(w: usize, row: RVTraceRow) -> bool {
    let ins = row.instruction;
    let x = row.register_state.rs1_val.unwrap();
    let y = row.register_state.rs2_val.unwrap();
    &&& ins.rd == ins.rs1 ==> remainder_word(w, x, y) == x
    &&& ins.rd == ins.rs2 ==> remainder_word(w, x, y) == y
}

/// The six rows of a remainder run on a register file that is ready for
/// them: every row reads what the registers hold and writes what it says,
/// and both assertions yield one. Afterwards the destination holds the
/// remainder, the source registers hold the operands, and every other
/// architectural register holds what it held before.
pub proof fn lemma_rem_trace_runs(w: usize, regs: Seq<u64>, row: RVTraceRow)
    requires
        rem_ready(w, regs, row),
        operands_stay(w, row),
    ensures
        trace_holds(w, regs, rem_trace(w, row)),
        row_output(w, rem_trace(w, row)[2]) == Some(1u64),
        row_output(w, rem_trace(w, row)[5]) == Some(1u64),
        ({
            let after = after_trace(w, regs, rem_trace(w, row));
            let ins = row.instruction;
            let x = row.register_state.rs1_val.unwrap();
            let y = row.register_state.rs2_val.unwrap();
            &&& after.len() == 64
            &&& after[ins.rd.unwrap() as int] == remainder_word(w, x, y)
            &&& after[ins.rs1.unwrap() as int] == x
            &&& after[ins.rs2.unwrap() as int] == y
            &&& forall|i: int|
                0 <= i < 32 && i != ins.rd.unwrap() ==> after[i] == regs[i]
        }),
{
    let ins = row.instruction;
    let x = row.register_state.rs1_val.unwrap();
    let y = row.register_state.rs2_val.unwrap();
    let d = ins.rd.unwrap() as int;
    let q = quotient_word(w, x, y);
    let r = remainder_word(w, x, y);
    let q_y = mul_word(w, q, y);
    let sum = add_word(w, q_y, r);
    lemma_advice_is_division(w, x, y);
    assert(sum == x);

    let rows = rem_trace(w, row);
    let t1 = rows.drop_first();
    let t2 = t1.drop_first();
    let t3 = t2.drop_first();
    let t4 = t3.drop_first();
    let t5 = t4.drop_first();
    let t6 = t5.drop_first();
    assert(t1[0] == rows[1] && t2[0] == rows[2] && t3[0] == rows[3] && t4[0] == rows[4] && t5[0]
        == rows[5] && t6.len() == 0);

    let regs1 = regs.update(33, q);
    let regs2 = regs1.update(d, r);
    let regs3 = regs2.update(34, q_y);
    let regs4 = regs3.update(32, sum);

    assert(row_holds(w, regs, rows[0]) && after_row(w, regs, rows[0]) == regs1);
    assert(row_holds(w, regs1, rows[1]) && after_row(w, regs1, rows[1]) == regs2);
    assert(row_holds(w, regs2, rows[2]) && after_row(w, regs2, rows[2]) == regs2);
    assert(row_holds(w, regs2, rows[3]) && after_row(w, regs2, rows[3]) == regs3);
    assert(row_holds(w, regs3, rows[4]) && after_row(w, regs3, rows[4]) == regs4);
    assert(row_holds(w, regs4, rows[5]) && after_row(w, regs4, rows[5]) == regs4);

    assert(trace_holds(w, regs4, t6) && after_trace(w, regs4, t6) == regs4);
    assert(trace_holds(w, regs4, t5) && after_trace(w, regs4, t5) == regs4);
    assert(trace_holds(w, regs3, t4) && after_trace(w, regs3, t4) == regs4);
    assert(trace_holds(w, regs2, t3) && after_trace(w, regs2, t3) == regs4);
    assert(trace_holds(w, regs2, t2) && after_trace(w, regs2, t2) == regs4);
    assert(trace_holds(w, regs1, t1) && after_trace(w, regs1, t1) == regs4);
    assert(trace_holds(w, regs, rows) && after_trace(w, regs, rows) == regs4);
}

} // verus!
