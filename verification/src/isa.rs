//! Instruction set definition: opcode catalogue, register indices, the
//! 6-byte instruction encodings, and the decoder.
//!
//! Every instruction occupies exactly six bytes: one opcode byte followed by
//! up to five operand bytes whose sub-byte layout is opcode-specific.  The
//! encoders ([`enc_none`] .. [`enc_jump_imm_cond`]) state each layout as a
//! sequence of bytes; [`decode`] recovers a tagged [`Instr`] value from a
//! fetched word.  The round-trip lemmas at the bottom prove that decoding an
//! encoded instruction yields back exactly the operands that were encoded.

use vstd::prelude::*;

verus! {

// ---------------------------------------------------------------------------
// Register file indices.
//
// Sixteen registers.  Index 0 (`rds`) is the hardwired zero register: it is
// forced to 0 at the end of every cycle, and doubles as the default output
// register of the command-line driver.  Indices 1 through 12 are the general
// registers `gr0` .. `gr11`.  The three highest indices are the data stack
// pointer, the call stack pointer, and the program counter.
// ---------------------------------------------------------------------------

/// Hardwired zero / discard register.
pub const RDS: u8 = 0;
/// General register 0.
pub const GR0: u8 = 1;
/// General register 1.
pub const GR1: u8 = 2;
/// General register 2.
pub const GR2: u8 = 3;
/// General register 3.
pub const GR3: u8 = 4;
/// General register 4.
pub const GR4: u8 = 5;
/// General register 5.
pub const GR5: u8 = 6;
/// General register 6.
pub const GR6: u8 = 7;
/// General register 7.
pub const GR7: u8 = 8;
/// General register 8.
pub const GR8: u8 = 9;
/// General register 9.
pub const GR9: u8 = 10;
/// General register 10.
pub const GRA: u8 = 11;
/// General register 11.
pub const GRB: u8 = 12;
/// Data stack pointer, used by the push and pop instructions.
pub const RSP: u8 = 13;
/// Call stack pointer, used by the call and return instructions.
pub const CSP: u8 = 14;
/// Program counter.
pub const RPC: u8 = 15;

// ---------------------------------------------------------------------------
// Opcodes.
// ---------------------------------------------------------------------------

/// No operation. `[8:opcode]`
pub const NOP: u8 = 0x00;
/// Halt the machine. `[8:opcode]`
pub const HLT: u8 = 0x01;
/// Load immediate (nibble-packed). `[8:opcode][4:dest][32:imm]`
pub const LDI: u8 = 0x02;
/// Add. `[8:opcode][4:dest][4:src1][4:src2]`
pub const ADD: u8 = 0x03;
/// Subtract. `[8:opcode][4:dest][4:src1][4:src2]`
pub const SUB: u8 = 0x04;
/// Bitwise OR. `[8:opcode][4:dest][4:src1][4:src2]`
pub const BOR: u8 = 0x05;
/// Bitwise AND. `[8:opcode][4:dest][4:src1][4:src2]`
pub const BAND: u8 = 0x06;
/// Bitwise XOR. `[8:opcode][4:dest][4:src1][4:src2]`
pub const BXOR: u8 = 0x07;
/// Bitwise NOT. `[8:opcode][4:dest][4:src]`
pub const BNOT: u8 = 0x08;
/// Logical OR. `[8:opcode][4:dest][4:src1][4:src2]`
pub const LOR: u8 = 0x09;
/// Logical AND. `[8:opcode][4:dest][4:src1][4:src2]`
pub const LAND: u8 = 0x0A;
/// Logical XOR. `[8:opcode][4:dest][4:src1][4:src2]`
pub const LXOR: u8 = 0x0B;
/// Logical NOT. `[8:opcode][4:dest][4:src]`
pub const LNOT: u8 = 0x0C;
/// Store byte. `[8:opcode][4:dest][4:src]`
pub const SB: u8 = 0x0D;
/// Store word. `[8:opcode][4:dest][4:src]`
pub const SW: u8 = 0x0E;
/// Load byte, sign-extended. `[8:opcode][4:dest][4:src]`
pub const LBS: u8 = 0x0F;
/// Load byte, zero-extended. `[8:opcode][4:dest][4:src]`
pub const LBU: u8 = 0x10;
/// Load word. `[8:opcode][4:dest][4:src]`
pub const LW: u8 = 0x11;
/// Jump to register. `[8:opcode][4:target][1:rel]`
pub const JMR: u8 = 0x12;
/// Jump to register if condition register is nonzero.
/// `[8:opcode][4:target][4:cond][1:rel]`
pub const JRI: u8 = 0x13;
/// Call register. `[8:opcode][4:target][1:rel]`
pub const CAR: u8 = 0x14;
/// Call register if condition register is nonzero.
/// `[8:opcode][4:target][4:cond][1:rel]`
pub const CRI: u8 = 0x15;
/// Return. `[8:opcode]`
pub const RET: u8 = 0x16;
/// Compare equal. `[8:opcode][4:dest][4:src1][4:src2]`
pub const EQ: u8 = 0x17;
/// Compare not-equal. `[8:opcode][4:dest][4:src1][4:src2]`
pub const NE: u8 = 0x18;
/// Compare greater-than. `[8:opcode][4:dest][4:src1][4:src2]`
pub const GT: u8 = 0x19;
/// Compare less-than. `[8:opcode][4:dest][4:src1][4:src2]`
pub const LT: u8 = 0x1A;
/// Compare greater-than-or-equal. `[8:opcode][4:dest][4:src1][4:src2]`
pub const GE: u8 = 0x1B;
/// Compare less-than-or-equal. `[8:opcode][4:dest][4:src1][4:src2]`
pub const LE: u8 = 0x1C;
/// Jump to immediate address or offset. `[8:opcode][32:imm][1:rel]`
pub const JMI: u8 = 0x1D;
/// Jump to immediate if condition register is nonzero.
/// `[8:opcode][32:imm][4:cond][1:rel]`
pub const JII: u8 = 0x1E;
/// Call immediate address or offset. `[8:opcode][32:imm][1:rel]`
pub const CAI: u8 = 0x1F;
/// Call immediate if condition register is nonzero.
/// `[8:opcode][32:imm][4:cond][1:rel]`
pub const CII: u8 = 0x20;
/// Increment. `[8:opcode][4:dest]`
pub const INC: u8 = 0x21;
/// Decrement. `[8:opcode][4:dest]`
pub const DEC: u8 = 0x22;
/// Add a byte-aligned 32-bit immediate. `[8:opcode][4:dest][4:src][32:imm]`
pub const ADDI: u8 = 0x23;
/// Subtract a byte-aligned 32-bit immediate. `[8:opcode][4:dest][4:src][32:imm]`
pub const SUBI: u8 = 0x24;
/// Shift left. `[8:opcode][4:dest][4:src1][4:src2]`
pub const SHL: u8 = 0x25;
/// Logical shift right. `[8:opcode][4:dest][4:src1][4:src2]`
pub const LSHR: u8 = 0x26;
/// Arithmetic shift right. `[8:opcode][4:dest][4:src1][4:src2]`
pub const ASHR: u8 = 0x27;
/// Rotate left. `[8:opcode][4:dest][4:src1][4:src2]`
pub const ROTL: u8 = 0x28;
/// Rotate right. `[8:opcode][4:dest][4:src1][4:src2]`
pub const ROTR: u8 = 0x29;
/// Push the low byte of a register onto the data stack. `[8:opcode][4:src]`
pub const PB: u8 = 0x2A;
/// Push a register word onto the data stack. `[8:opcode][4:src]`
pub const PW: u8 = 0x2B;
/// Pop a byte from the data stack, sign-extended. `[8:opcode][4:dest]`
pub const POBS: u8 = 0x2C;
/// Pop a byte from the data stack, zero-extended. `[8:opcode][4:dest]`
pub const POBU: u8 = 0x2D;
/// Pop a word from the data stack. `[8:opcode][4:dest]`
pub const POW: u8 = 0x2E;
/// Multiply (low 32 bits). `[8:opcode][4:dest][4:src1][4:src2]`
pub const MUL: u8 = 0x2F;
/// Unsigned divide; division by zero yields 0. `[8:opcode][4:dest][4:src1][4:src2]`
pub const DIV: u8 = 0x30;
/// Unsigned remainder; a zero divisor yields 0. `[8:opcode][4:dest][4:src1][4:src2]`
pub const REM: u8 = 0x31;
/// Signed multiply, high 32 bits. `[8:opcode][4:dest][4:src1][4:src2]`
pub const MUHS: u8 = 0x32;
/// Unsigned multiply, high 32 bits. `[8:opcode][4:dest][4:src1][4:src2]`
pub const MUHU: u8 = 0x33;
/// Float add; executes as a no-op in this integer-only engine. `[8:opcode][4:dest][4:src1][4:src2]`
pub const FADD: u8 = 0x34;
/// Float subtract; executes as a no-op in this integer-only engine.
pub const FSUB: u8 = 0x35;
/// Float multiply; executes as a no-op in this integer-only engine.
pub const FMUL: u8 = 0x36;
/// Float divide; executes as a no-op in this integer-only engine.
pub const FDIV: u8 = 0x37;
/// Float remainder; executes as a no-op in this integer-only engine.
pub const FREM: u8 = 0x38;

// ---------------------------------------------------------------------------
// Decoded instructions.
// ---------------------------------------------------------------------------

/// The three-register arithmetic, bitwise, logical, comparison, shift and
/// rotate operations, which all share the `[4:dest][4:src1][4:src2]` layout.
#[derive(Clone, Copy, PartialEq, Eq, Structural, Debug)]
pub enum Alu3 {
    Add,
    Sub,
    Bor,
    Band,
    Bxor,
    Lor,
    Land,
    Lxor,
    CmpEq,
    CmpNe,
    CmpGt,
    CmpLt,
    CmpGe,
    CmpLe,
    Shl,
    Lshr,
    Ashr,
    Rotl,
    Rotr,
    Mul,
    Div,
    Rem,
    Muhs,
    Muhu,
}

/// A decoded instruction.  Register fields produced by [`decode`] are always
/// below 16 ([`lemma_decode_regs_bounded`]).
#[derive(Clone, Copy, PartialEq, Eq, Structural, Debug)]
#[allow(inconsistent_fields)]
pub enum Instr {
    Nop,
    Hlt,
    Ldi { dest: u8, imm: u32 },
    Alu { op: Alu3, dest: u8, src1: u8, src2: u8 },
    Bnot { dest: u8, src: u8 },
    Lnot { dest: u8, src: u8 },
    Sb { dest: u8, src: u8 },
    Sw { dest: u8, src: u8 },
    Lbs { dest: u8, src: u8 },
    Lbu { dest: u8, src: u8 },
    Lw { dest: u8, src: u8 },
    Inc { dest: u8 },
    Dec { dest: u8 },
    Addi { dest: u8, src: u8, imm: u32 },
    Subi { dest: u8, src: u8, imm: u32 },
    JmpReg { target: u8, relative: bool },
    JmpRegIf { target: u8, cond: u8, relative: bool },
    CallReg { target: u8, relative: bool },
    CallRegIf { target: u8, cond: u8, relative: bool },
    JmpImm { target: u32, relative: bool },
    JmpImmIf { target: u32, cond: u8, relative: bool },
    CallImm { target: u32, relative: bool },
    CallImmIf { target: u32, cond: u8, relative: bool },
    Ret,
    PushB { src: u8 },
    PushW { src: u8 },
    PopBs { dest: u8 },
    PopBu { dest: u8 },
    PopW { dest: u8 },
    /// An unrecognized or floating-point opcode; the engine executes it as a
    /// silent no-op.
    Other { opcode: u8 },
}

// ---------------------------------------------------------------------------
// Decoding.
// ---------------------------------------------------------------------------

/// The 32-bit immediate carried byte-aligned and little-endian in bytes
/// `b..e` of an instruction word.
pub open spec fn le32_spec(b0: u8, b1: u8, b2: u8, b3: u8) -> u32 {
    (b0 as u32) | ((b1 as u32) << 8) | ((b2 as u32) << 16) | ((b3 as u32) << 24)
}

/// The nibble-packed 32-bit immediate of a load-immediate word: the high
/// nibble of byte 1 carries bits 0..4, bytes 2..4 carry bits 4..28, and the
/// low nibble of byte 5 carries bits 28..32.
pub open spec fn ldi_imm_spec(b1: u8, b2: u8, b3: u8, b4: u8, b5: u8) -> u32 {
    ((b1 >> 4) as u32) | ((b2 as u32) << 4) | ((b3 as u32) << 12) | ((b4 as u32) << 20) | ((
    (b5 & 0xF) as u32) << 28)
}

/// What [`decode`] returns for the six bytes of an instruction word.
pub open spec fn decode_spec(b0: u8, b1: u8, b2: u8, b3: u8, b4: u8, b5: u8) -> Instr {
    let d = b1 & 0xF;
    let s1 = b1 >> 4;
    let s2 = b2 & 0xF;
    if b0 == NOP {
        Instr::Nop
    } else if b0 == HLT {
        Instr::Hlt
    } else if b0 == LDI {
        Instr::Ldi { dest: d, imm: ldi_imm_spec(b1, b2, b3, b4, b5) }
    } else if b0 == ADD {
        Instr::Alu { op: Alu3::Add, dest: d, src1: s1, src2: s2 }
    } else if b0 == SUB {
        Instr::Alu { op: Alu3::Sub, dest: d, src1: s1, src2: s2 }
    } else if b0 == BOR {
        Instr::Alu { op: Alu3::Bor, dest: d, src1: s1, src2: s2 }
    } else if b0 == BAND {
        Instr::Alu { op: Alu3::Band, dest: d, src1: s1, src2: s2 }
    } else if b0 == BXOR {
        Instr::Alu { op: Alu3::Bxor, dest: d, src1: s1, src2: s2 }
    } else if b0 == BNOT {
        Instr::Bnot { dest: d, src: s1 }
    } else if b0 == LOR {
        Instr::Alu { op: Alu3::Lor, dest: d, src1: s1, src2: s2 }
    } else if b0 == LAND {
        Instr::Alu { op: Alu3::Land, dest: d, src1: s1, src2: s2 }
    } else if b0 == LXOR {
        Instr::Alu { op: Alu3::Lxor, dest: d, src1: s1, src2: s2 }
    } else if b0 == LNOT {
        Instr::Lnot { dest: d, src: s1 }
    } else if b0 == SB {
        Instr::Sb { dest: d, src: s1 }
    } else if b0 == SW {
        Instr::Sw { dest: d, src: s1 }
    } else if b0 == LBS {
        Instr::Lbs { dest: d, src: s1 }
    } else if b0 == LBU {
        Instr::Lbu { dest: d, src: s1 }
    } else if b0 == LW {
        Instr::Lw { dest: d, src: s1 }
    } else if b0 == JMR {
        Instr::JmpReg { target: d, relative: (b1 >> 4) & 1 == 1 }
    } else if b0 == JRI {
        Instr::JmpRegIf { target: d, cond: s1, relative: b2 & 1 == 1 }
    } else if b0 == CAR {
        Instr::CallReg { target: d, relative: (b1 >> 4) & 1 == 1 }
    } else if b0 == CRI {
        Instr::CallRegIf { target: d, cond: s1, relative: b2 & 1 == 1 }
    } else if b0 == RET {
        Instr::Ret
    } else if b0 == EQ {
        Instr::Alu { op: Alu3::CmpEq, dest: d, src1: s1, src2: s2 }
    } else if b0 == NE {
        Instr::Alu { op: Alu3::CmpNe, dest: d, src1: s1, src2: s2 }
    } else if b0 == GT {
        Instr::Alu { op: Alu3::CmpGt, dest: d, src1: s1, src2: s2 }
    } else if b0 == LT {
        Instr::Alu { op: Alu3::CmpLt, dest: d, src1: s1, src2: s2 }
    } else if b0 == GE {
        Instr::Alu { op: Alu3::CmpGe, dest: d, src1: s1, src2: s2 }
    } else if b0 == LE {
        Instr::Alu { op: Alu3::CmpLe, dest: d, src1: s1, src2: s2 }
    } else if b0 == JMI {
        Instr::JmpImm { target: le32_spec(b1, b2, b3, b4), relative: b5 & 1 == 1 }
    } else if b0 == JII {
        Instr::JmpImmIf {
            target: le32_spec(b1, b2, b3, b4),
            cond: b5 & 0xF,
            relative: (b5 >> 4) & 1 == 1,
        }
    } else if b0 == CAI {
        Instr::CallImm { target: le32_spec(b1, b2, b3, b4), relative: b5 & 1 == 1 }
    } else if b0 == CII {
        Instr::CallImmIf {
            target: le32_spec(b1, b2, b3, b4),
            cond: b5 & 0xF,
            relative: (b5 >> 4) & 1 == 1,
        }
    } else if b0 == INC {
        Instr::Inc { dest: d }
    } else if b0 == DEC {
        Instr::Dec { dest: d }
    } else if b0 == ADDI {
        Instr::Addi { dest: d, src: s1, imm: le32_spec(b2, b3, b4, b5) }
    } else if b0 == SUBI {
        Instr::Subi { dest: d, src: s1, imm: le32_spec(b2, b3, b4, b5) }
    } else if b0 == SHL {
        Instr::Alu { op: Alu3::Shl, dest: d, src1: s1, src2: s2 }
    } else if b0 == LSHR {
        Instr::Alu { op: Alu3::Lshr, dest: d, src1: s1, src2: s2 }
    } else if b0 == ASHR {
        Instr::Alu { op: Alu3::Ashr, dest: d, src1: s1, src2: s2 }
    } else if b0 == ROTL {
        Instr::Alu { op: Alu3::Rotl, dest: d, src1: s1, src2: s2 }
    } else if b0 == ROTR {
        Instr::Alu { op: Alu3::Rotr, dest: d, src1: s1, src2: s2 }
    } else if b0 == PB {
        Instr::PushB { src: d }
    } else if b0 == PW {
        Instr::PushW { src: d }
    } else if b0 == POBS {
        Instr::PopBs { dest: d }
    } else if b0 == POBU {
        Instr::PopBu { dest: d }
    } else if b0 == POW {
        Instr::PopW { dest: d }
    } else if b0 == MUL {
        Instr::Alu { op: Alu3::Mul, dest: d, src1: s1, src2: s2 }
    } else if b0 == DIV {
        Instr::Alu { op: Alu3::Div, dest: d, src1: s1, src2: s2 }
    } else if b0 == REM {
        Instr::Alu { op: Alu3::Rem, dest: d, src1: s1, src2: s2 }
    } else if b0 == MUHS {
        Instr::Alu { op: Alu3::Muhs, dest: d, src1: s1, src2: s2 }
    } else if b0 == MUHU {
        Instr::Alu { op: Alu3::Muhu, dest: d, src1: s1, src2: s2 }
    } else {
        Instr::Other { opcode: b0 }
    }
}

/// Decode one fetched 6-byte instruction word.
pub fn decode(b0: u8, b1: u8, b2: u8, b3: u8, b4: u8, b5: u8) -> (i: Instr)
    ensures
        i == decode_spec(b0, b1, b2, b3, b4, b5),
{
    let d = b1 & 0xF;
    let s1 = b1 >> 4;
    let s2 = b2 & 0xF;
    if b0 == NOP {
        Instr::Nop
    } else if b0 == HLT {
        Instr::Hlt
    } else if b0 == LDI {
        let imm = ((b1 >> 4) as u32) | ((b2 as u32) << 4) | ((b3 as u32) << 12) | ((b4 as u32)
            << 20) | (((b5 & 0xF) as u32) << 28);
        Instr::Ldi { dest: d, imm }
    } else if b0 == ADD {
        Instr::Alu { op: Alu3::Add, dest: d, src1: s1, src2: s2 }
    } else if b0 == SUB {
        Instr::Alu { op: Alu3::Sub, dest: d, src1: s1, src2: s2 }
    } else if b0 == BOR {
        Instr::Alu { op: Alu3::Bor, dest: d, src1: s1, src2: s2 }
    } else if b0 == BAND {
        Instr::Alu { op: Alu3::Band, dest: d, src1: s1, src2: s2 }
    } else if b0 == BXOR {
        Instr::Alu { op: Alu3::Bxor, dest: d, src1: s1, src2: s2 }
    } else if b0 == BNOT {
        Instr::Bnot { dest: d, src: s1 }
    } else if b0 == LOR {
        Instr::Alu { op: Alu3::Lor, dest: d, src1: s1, src2: s2 }
    } else if b0 == LAND {
        Instr::Alu { op: Alu3::Land, dest: d, src1: s1, src2: s2 }
    } else if b0 == LXOR {
        Instr::Alu { op: Alu3::Lxor, dest: d, src1: s1, src2: s2 }
    } else if b0 == LNOT {
        Instr::Lnot { dest: d, src: s1 }
    } else if b0 == SB {
        Instr::Sb { dest: d, src: s1 }
    } else if b0 == SW {
        Instr::Sw { dest: d, src: s1 }
    } else if b0 == LBS {
        Instr::Lbs { dest: d, src: s1 }
    } else if b0 == LBU {
        Instr::Lbu { dest: d, src: s1 }
    } else if b0 == LW {
        Instr::Lw { dest: d, src: s1 }
    } else if b0 == JMR {
        Instr::JmpReg { target: d, relative: (b1 >> 4) & 1 == 1 }
    } else if b0 == JRI {
        Instr::JmpRegIf { target: d, cond: s1, relative: b2 & 1 == 1 }
    } else if b0 == CAR {
        Instr::CallReg { target: d, relative: (b1 >> 4) & 1 == 1 }
    } else if b0 == CRI {
        Instr::CallRegIf { target: d, cond: s1, relative: b2 & 1 == 1 }
    } else if b0 == RET {
        Instr::Ret
    } else if b0 == EQ {
        Instr::Alu { op: Alu3::CmpEq, dest: d, src1: s1, src2: s2 }
    } else if b0 == NE {
        Instr::Alu { op: Alu3::CmpNe, dest: d, src1: s1, src2: s2 }
    } else if b0 == GT {
        Instr::Alu { op: Alu3::CmpGt, dest: d, src1: s1, src2: s2 }
    } else if b0 == LT {
        Instr::Alu { op: Alu3::CmpLt, dest: d, src1: s1, src2: s2 }
    } else if b0 == GE {
        Instr::Alu { op: Alu3::CmpGe, dest: d, src1: s1, src2: s2 }
    } else if b0 == LE {
        Instr::Alu { op: Alu3::CmpLe, dest: d, src1: s1, src2: s2 }
    } else if b0 == JMI {
        Instr::JmpImm { target: le32(b1, b2, b3, b4), relative: b5 & 1 == 1 }
    } else if b0 == JII {
        Instr::JmpImmIf {
            target: le32(b1, b2, b3, b4),
            cond: b5 & 0xF,
            relative: (b5 >> 4) & 1 == 1,
        }
    } else if b0 == CAI {
        Instr::CallImm { target: le32(b1, b2, b3, b4), relative: b5 & 1 == 1 }
    } else if b0 == CII {
        Instr::CallImmIf {
            target: le32(b1, b2, b3, b4),
            cond: b5 & 0xF,
            relative: (b5 >> 4) & 1 == 1,
        }
    } else if b0 == INC {
        Instr::Inc { dest: d }
    } else if b0 == DEC {
        Instr::Dec { dest: d }
    } else if b0 == ADDI {
        Instr::Addi { dest: d, src: s1, imm: le32(b2, b3, b4, b5) }
    } else if b0 == SUBI {
        Instr::Subi { dest: d, src: s1, imm: le32(b2, b3, b4, b5) }
    } else if b0 == SHL {
        Instr::Alu { op: Alu3::Shl, dest: d, src1: s1, src2: s2 }
    } else if b0 == LSHR {
        Instr::Alu { op: Alu3::Lshr, dest: d, src1: s1, src2: s2 }
    } else if b0 == ASHR {
        Instr::Alu { op: Alu3::Ashr, dest: d, src1: s1, src2: s2 }
    } else if b0 == ROTL {
        Instr::Alu { op: Alu3::Rotl, dest: d, src1: s1, src2: s2 }
    } else if b0 == ROTR {
        Instr::Alu { op: Alu3::Rotr, dest: d, src1: s1, src2: s2 }
    } else if b0 == PB {
        Instr::PushB { src: d }
    } else if b0 == PW {
        Instr::PushW { src: d }
    } else if b0 == POBS {
        Instr::PopBs { dest: d }
    } else if b0 == POBU {
        Instr::PopBu { dest: d }
    } else if b0 == POW {
        Instr::PopW { dest: d }
    } else if b0 == MUL {
        Instr::Alu { op: Alu3::Mul, dest: d, src1: s1, src2: s2 }
    } else if b0 == DIV {
        Instr::Alu { op: Alu3::Div, dest: d, src1: s1, src2: s2 }
    } else if b0 == REM {
        Instr::Alu { op: Alu3::Rem, dest: d, src1: s1, src2: s2 }
    } else if b0 == MUHS {
        Instr::Alu { op: Alu3::Muhs, dest: d, src1: s1, src2: s2 }
    } else if b0 == MUHU {
        Instr::Alu { op: Alu3::Muhu, dest: d, src1: s1, src2: s2 }
    } else {
        Instr::Other { opcode: b0 }
    }
}

/// Executable counterpart of [`le32_spec`].
pub fn le32(b0: u8, b1: u8, b2: u8, b3: u8) -> (r: u32)
    ensures
        r == le32_spec(b0, b1, b2, b3),
{
    (b0 as u32) | ((b1 as u32) << 8) | ((b2 as u32) << 16) | ((b3 as u32) << 24)
}

/// Every register field of the instruction names one of the sixteen
/// registers.
pub open spec fn instr_regs_bounded(i: Instr) -> bool {
    match i {
        Instr::Nop => true,
        Instr::Hlt => true,
        Instr::Ldi { dest, .. } => dest < 16,
        Instr::Alu { dest, src1, src2, .. } => dest < 16 && src1 < 16 && src2 < 16,
        Instr::Bnot { dest, src } => dest < 16 && src < 16,
        Instr::Lnot { dest, src } => dest < 16 && src < 16,
        Instr::Sb { dest, src } => dest < 16 && src < 16,
        Instr::Sw { dest, src } => dest < 16 && src < 16,
        Instr::Lbs { dest, src } => dest < 16 && src < 16,
        Instr::Lbu { dest, src } => dest < 16 && src < 16,
        Instr::Lw { dest, src } => dest < 16 && src < 16,
        Instr::Inc { dest } => dest < 16,
        Instr::Dec { dest } => dest < 16,
        Instr::Addi { dest, src, .. } => dest < 16 && src < 16,
        Instr::Subi { dest, src, .. } => dest < 16 && src < 16,
        Instr::JmpReg { target, .. } => target < 16,
        Instr::JmpRegIf { target, cond, .. } => target < 16 && cond < 16,
        Instr::CallReg { target, .. } => target < 16,
        Instr::CallRegIf { target, cond, .. } => target < 16 && cond < 16,
        Instr::JmpImm { .. } => true,
        Instr::JmpImmIf { cond, .. } => cond < 16,
        Instr::CallImm { .. } => true,
        Instr::CallImmIf { cond, .. } => cond < 16,
        Instr::Ret => true,
        Instr::PushB { src } => src < 16,
        Instr::PushW { src } => src < 16,
        Instr::PopBs { dest } => dest < 16,
        Instr::PopBu { dest } => dest < 16,
        Instr::PopW { dest } => dest < 16,
        Instr::Other { .. } => true,
    }
}

/// Decoded register fields are nibbles, so they always lie below 16.
pub proof fn lemma_decode_regs_bounded(b0: u8, b1: u8, b2: u8, b3: u8, b4: u8, b5: u8)
    ensures
        instr_regs_bounded(decode_spec(b0, b1, b2, b3, b4, b5)),
{
    assert(b1 & 0xF < 16 && b1 >> 4 < 16 && b2 & 0xF < 16 && b5 & 0xF < 16) by (bit_vector);
}

// ---------------------------------------------------------------------------
// Encoding.
//
// One spec function per instruction format, each producing the exact six
// bytes of the wire format.  The assembler's output is stated over these.
// ---------------------------------------------------------------------------

/// The opcode byte of each three-register operation.
pub open spec fn alu3_opcode(op: Alu3) -> u8 {
    match op {
        Alu3::Add => ADD,
        Alu3::Sub => SUB,
        Alu3::Bor => BOR,
        Alu3::Band => BAND,
        Alu3::Bxor => BXOR,
        Alu3::Lor => LOR,
        Alu3::Land => LAND,
        Alu3::Lxor => LXOR,
        Alu3::CmpEq => EQ,
        Alu3::CmpNe => NE,
        Alu3::CmpGt => GT,
        Alu3::CmpLt => LT,
        Alu3::CmpGe => GE,
        Alu3::CmpLe => LE,
        Alu3::Shl => SHL,
        Alu3::Lshr => LSHR,
        Alu3::Ashr => ASHR,
        Alu3::Rotl => ROTL,
        Alu3::Rotr => ROTR,
        Alu3::Mul => MUL,
        Alu3::Div => DIV,
        Alu3::Rem => REM,
        Alu3::Muhs => MUHS,
        Alu3::Muhu => MUHU,
    }
}

/// A word with no operands.
pub open spec fn enc_none(op: u8) -> Seq<u8> {
    seq![op, 0u8, 0u8, 0u8, 0u8, 0u8]
}

/// A word with destination and two source registers packed into bytes 1-2.
pub open spec fn enc_rrr(op: u8, d: u8, s1: u8, s2: u8) -> Seq<u8> {
    seq![op, d | (s1 << 4), s2, 0u8, 0u8, 0u8]
}

/// A word with destination and source registers packed into byte 1.
pub open spec fn enc_rr(op: u8, d: u8, s: u8) -> Seq<u8> {
    seq![op, d | (s << 4), 0u8, 0u8, 0u8, 0u8]
}

/// A word with a single register in byte 1.
pub open spec fn enc_r(op: u8, r: u8) -> Seq<u8> {
    seq![op, r, 0u8, 0u8, 0u8, 0u8]
}

/// A load-immediate word: the immediate is nibble-packed around the
/// destination register.
pub open spec fn enc_ldi(d: u8, imm: u32) -> Seq<u8> {
    seq![
        LDI,
        d | (((imm & 0xF) as u8) << 4),
        ((imm >> 4) & 0xFF) as u8,
        ((imm >> 12) & 0xFF) as u8,
        ((imm >> 20) & 0xFF) as u8,
        ((imm >> 28) & 0xF) as u8,
    ]
}

/// An immediate add/subtract word: registers in byte 1, then the immediate
/// byte-aligned and little-endian in bytes 2-5.
pub open spec fn enc_reg_imm(op: u8, d: u8, s: u8, imm: u32) -> Seq<u8> {
    seq![
        op,
        d | (s << 4),
        (imm & 0xFF) as u8,
        ((imm >> 8) & 0xFF) as u8,
        ((imm >> 16) & 0xFF) as u8,
        ((imm >> 24) & 0xFF) as u8,
    ]
}

/// A register jump/call word: the target register in the low nibble of
/// byte 1, the relative flag in its bit 4.
pub open spec fn enc_jump_reg(op: u8, r: u8, rel: bool) -> Seq<u8> {
    seq![
        op,
        if rel {
            r | 0x10
        } else {
            r
        },
        0u8,
        0u8,
        0u8,
        0u8,
    ]
}

/// A conditional register jump/call word: target and condition registers in
/// byte 1, the relative flag in byte 2.
pub open spec fn enc_jump_reg_cond(op: u8, r: u8, cond: u8, rel: bool) -> Seq<u8> {
    seq![
        op,
        r | (cond << 4),
        if rel {
            1u8
        } else {
            0u8
        },
        0u8,
        0u8,
        0u8,
    ]
}

/// An immediate jump/call word: the address or offset little-endian in
/// bytes 1-4, the relative flag in byte 5.
pub open spec fn enc_jump_imm(op: u8, imm: u32, rel: bool) -> Seq<u8> {
    seq![
        op,
        (imm & 0xFF) as u8,
        ((imm >> 8) & 0xFF) as u8,
        ((imm >> 16) & 0xFF) as u8,
        ((imm >> 24) & 0xFF) as u8,
        if rel {
            1u8
        } else {
            0u8
        },
    ]
}

/// A conditional immediate jump/call word: the address or offset in bytes
/// 1-4, the condition register in the low nibble of byte 5 and the relative
/// flag in its bit 4.
pub open spec fn enc_jump_imm_cond(op: u8, imm: u32, cond: u8, rel: bool) -> Seq<u8> {
    seq![
        op,
        (imm & 0xFF) as u8,
        ((imm >> 8) & 0xFF) as u8,
        ((imm >> 16) & 0xFF) as u8,
        ((imm >> 24) & 0xFF) as u8,
        if rel {
            cond | 0x10
        } else {
            cond
        },
    ]
}

/// Decoding a six-byte sequence.
pub open spec fn decode_bytes(b: Seq<u8>) -> Instr {
    decode_spec(b[0], b[1], b[2], b[3], b[4], b[5])
}

// ---------------------------------------------------------------------------
// Round trips: decoding an encoded instruction recovers exactly the operands
// that were encoded.  Together with the execution engine's `step` semantics
// these state that every instruction the assembler emits drives the engine
// to the intended register or memory effect.
// ---------------------------------------------------------------------------

/// Packing two nibbles into a byte loses neither.
proof fn lemma_pack_nibbles(d: u8, s: u8)
    requires
        d < 16,
        s < 16,
    ensures
        (d | (s << 4)) & 0xF == d,
        (d | (s << 4)) >> 4 == s,
{
    assert((d | (s << 4)) & 0xF == d && (d | (s << 4)) >> 4 == s) by (bit_vector)
        requires
            d < 16 && s < 16,
    ;
}

/// A register below 16 carries a clear relative-flag bit; setting the flag
/// leaves the register readable.
proof fn lemma_rel_flag(r: u8)
    requires
        r < 16,
    ensures
        r & 0xF == r,
        (r >> 4) & 1 == 0,
        (r | 0x10) & 0xF == r,
        ((r | 0x10) >> 4) & 1 == 1,
{
    assert(r & 0xF == r && (r >> 4) & 1 == 0 && (r | 0x10) & 0xF == r && ((r | 0x10) >> 4) & 1
        == 1) by (bit_vector)
        requires
            r < 16,
    ;
}

/// The relative-flag byte holds exactly the flag.
proof fn lemma_flag_bits()
    ensures
        1u8 & 1 == 1,
        0u8 & 1 == 0,
{
    assert(1u8 & 1 == 1 && 0u8 & 1 == 0) by (bit_vector);
}

/// The four little-endian bytes of a word reassemble to the word.
proof fn lemma_le32_roundtrip(imm: u32)
    ensures
        le32_spec(
            (imm & 0xFF) as u8,
            ((imm >> 8) & 0xFF) as u8,
            ((imm >> 16) & 0xFF) as u8,
            ((imm >> 24) & 0xFF) as u8,
        ) == imm,
{
    assert((((imm & 0xFF) as u8) as u32) | (((((imm >> 8) & 0xFF) as u8) as u32) << 8) | (((((imm
        >> 16) & 0xFF) as u8) as u32) << 16) | (((((imm >> 24) & 0xFF) as u8) as u32) << 24)
        == imm) by (bit_vector);
}

/// A no-operand word decodes to its instruction.
pub proof fn lemma_roundtrip_none()
    ensures
        decode_bytes(enc_none(NOP)) == Instr::Nop,
        decode_bytes(enc_none(HLT)) == Instr::Hlt,
        decode_bytes(enc_none(RET)) == Instr::Ret,
{
}

/// A three-register word decodes to the operation and registers encoded.
pub proof fn lemma_roundtrip_alu(op: Alu3, d: u8, s1: u8, s2: u8)
    requires
        d < 16,
        s1 < 16,
        s2 < 16,
    ensures
        decode_bytes(enc_rrr(alu3_opcode(op), d, s1, s2)) == (Instr::Alu {
            op,
            dest: d,
            src1: s1,
            src2: s2,
        }),
{
    lemma_pack_nibbles(d, s1);
    assert(s2 & 0xF == s2) by (bit_vector)
        requires
            s2 < 16,
    ;
}

/// A two-register word decodes to the instruction and registers encoded.
pub proof fn lemma_roundtrip_rr(d: u8, s: u8)
    requires
        d < 16,
        s < 16,
    ensures
        decode_bytes(enc_rr(BNOT, d, s)) == (Instr::Bnot { dest: d, src: s }),
        decode_bytes(enc_rr(LNOT, d, s)) == (Instr::Lnot { dest: d, src: s }),
        decode_bytes(enc_rr(SB, d, s)) == (Instr::Sb { dest: d, src: s }),
        decode_bytes(enc_rr(SW, d, s)) == (Instr::Sw { dest: d, src: s }),
        decode_bytes(enc_rr(LBS, d, s)) == (Instr::Lbs { dest: d, src: s }),
        decode_bytes(enc_rr(LBU, d, s)) == (Instr::Lbu { dest: d, src: s }),
        decode_bytes(enc_rr(LW, d, s)) == (Instr::Lw { dest: d, src: s }),
{
    lemma_pack_nibbles(d, s);
}

/// A single-register word decodes to the instruction and register encoded.
pub proof fn lemma_roundtrip_r(r: u8)
    requires
        r < 16,
    ensures
        decode_bytes(enc_r(INC, r)) == (Instr::Inc { dest: r }),
        decode_bytes(enc_r(DEC, r)) == (Instr::Dec { dest: r }),
        decode_bytes(enc_r(PB, r)) == (Instr::PushB { src: r }),
        decode_bytes(enc_r(PW, r)) == (Instr::PushW { src: r }),
        decode_bytes(enc_r(POBS, r)) == (Instr::PopBs { dest: r }),
        decode_bytes(enc_r(POBU, r)) == (Instr::PopBu { dest: r }),
        decode_bytes(enc_r(POW, r)) == (Instr::PopW { dest: r }),
{
    assert(r & 0xF == r) by (bit_vector)
        requires
            r < 16,
    ;
}

/// A load-immediate word decodes to the destination and the full 32-bit
/// immediate that were nibble-packed into it.
pub proof fn lemma_roundtrip_ldi(d: u8, imm: u32)
    requires
        d < 16,
    ensures
        decode_bytes(enc_ldi(d, imm)) == (Instr::Ldi { dest: d, imm }),
{
    assert((d | (((imm & 0xF) as u8) << 4)) & 0xF == d) by (bit_vector)
        requires
            d < 16,
    ;
    assert((((d | (((imm & 0xF) as u8) << 4)) >> 4) as u32) | (((((imm >> 4) & 0xFF) as u8) as u32)
        << 4) | (((((imm >> 12) & 0xFF) as u8) as u32) << 12) | (((((imm >> 20) & 0xFF) as u8)
        as u32) << 20) | ((((((imm >> 28) & 0xF) as u8) & 0xF) as u32) << 28) == imm) by (bit_vector)
        requires
            d < 16,
    ;
}

/// An immediate add/subtract word decodes to the registers and the
/// byte-aligned immediate that were encoded.
pub proof fn lemma_roundtrip_reg_imm(d: u8, s: u8, imm: u32)
    requires
        d < 16,
        s < 16,
    ensures
        decode_bytes(enc_reg_imm(ADDI, d, s, imm)) == (Instr::Addi { dest: d, src: s, imm }),
        decode_bytes(enc_reg_imm(SUBI, d, s, imm)) == (Instr::Subi { dest: d, src: s, imm }),
{
    lemma_pack_nibbles(d, s);
    lemma_le32_roundtrip(imm);
}

/// A register jump/call word decodes to the target register and relative
/// flag that were encoded.
pub proof fn lemma_roundtrip_jump_reg(r: u8, rel: bool)
    requires
        r < 16,
    ensures
        decode_bytes(enc_jump_reg(JMR, r, rel)) == (Instr::JmpReg { target: r, relative: rel }),
        decode_bytes(enc_jump_reg(CAR, r, rel)) == (Instr::CallReg { target: r, relative: rel }),
{
    lemma_rel_flag(r);
}

/// A conditional register jump/call word decodes to the registers and
/// relative flag that were encoded.
pub proof fn lemma_roundtrip_jump_reg_cond(r: u8, cond: u8, rel: bool)
    requires
        r < 16,
        cond < 16,
    ensures
        decode_bytes(enc_jump_reg_cond(JRI, r, cond, rel)) == (Instr::JmpRegIf {
            target: r,
            cond,
            relative: rel,
        }),
        decode_bytes(enc_jump_reg_cond(CRI, r, cond, rel)) == (Instr::CallRegIf {
            target: r,
            cond,
            relative: rel,
        }),
{
    lemma_pack_nibbles(r, cond);
    lemma_flag_bits();
}

/// An immediate jump/call word decodes to the address or offset and the
/// relative flag that were encoded.
pub proof fn lemma_roundtrip_jump_imm(imm: u32, rel: bool)
    ensures
        decode_bytes(enc_jump_imm(JMI, imm, rel)) == (Instr::JmpImm { target: imm, relative: rel }),
        decode_bytes(enc_jump_imm(CAI, imm, rel)) == (Instr::CallImm { target: imm, relative: rel }),
{
    lemma_le32_roundtrip(imm);
    lemma_flag_bits();
}

/// A conditional immediate jump/call word decodes to the address or offset,
/// condition register and relative flag that were encoded.
pub proof fn lemma_roundtrip_jump_imm_cond(imm: u32, cond: u8, rel: bool)
    requires
        cond < 16,
    ensures
        decode_bytes(enc_jump_imm_cond(JII, imm, cond, rel)) == (Instr::JmpImmIf {
            target: imm,
            cond,
            relative: rel,
        }),
        decode_bytes(enc_jump_imm_cond(CII, imm, cond, rel)) == (Instr::CallImmIf {
            target: imm,
            cond,
            relative: rel,
        }),
{
    lemma_le32_roundtrip(imm);
    lemma_rel_flag(cond);
}

} // verus!
