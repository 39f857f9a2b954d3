//! Execution engine: a register machine with sixteen 32-bit registers and a
//! flat byte-addressable 2^32-byte memory.
//!
//! The whole behaviour of the machine is captured by the specification
//! function [`step`], which maps one abstract machine state ([`Mach`]) to the
//! next: fetch six bytes at the program counter, advance the counter by six
//! *before* dispatch, decode, execute, and finally force the zero register
//! back to 0.  The executable [`M0_32::cycle`] is proved to implement `step`
//! exactly, and what [`M0_32::run`] leaves behind is proved to be what some
//! number of `step`s produces from the started state.
//!
//! Memory is stored sparsely: a byte that was never written reads as zero, so
//! the sparse map and the flat 4 GiB array describe the same machine.

use vstd::prelude::*;
use std::collections::HashMap;
use crate::isa;
use crate::isa::{Alu3, Instr};

verus! {

/// Base address at which programs are loaded: 3 GiB from the bottom of the
/// address space, leaving exactly the 1 GiB code-region capacity above it.
pub const PROG_BASE: u32 = 0xC000_0000;

/// Code-region capacity in bytes: programs longer than this are rejected.
pub const PROG_CAP: usize = 0x4000_0000;

/// Initial data stack pointer: directly below the code region.
pub const RSP_INIT: u32 = 0xBFFF_FFFF;

/// Initial call stack pointer.
pub const CSP_INIT: u32 = 0x9FFF_FFFF;

// ---------------------------------------------------------------------------
// Abstract machine state and arithmetic helpers.
// ---------------------------------------------------------------------------

/// Abstract machine state: the mathematical model of [`M0_32`].
///
/// `mem` is a partial map from address to byte; an absent address reads as 0.
#[verifier::ext_equal]
pub struct Mach {
    pub regs: Seq<u32>,
    pub mem: Map<u32, u8>,
    pub running: bool,
}

/// Addition modulo 2^32.
pub open spec fn wrap_add(a: u32, k: u32) -> u32 {
    if a + k > 0xFFFF_FFFF {
        (a + k - 0x1_0000_0000) as u32
    } else {
        (a + k) as u32
    }
}

/// Subtraction modulo 2^32.
pub open spec fn wrap_sub(a: u32, b: u32) -> u32 {
    if a >= b {
        (a - b) as u32
    } else {
        (a - b + 0x1_0000_0000) as u32
    }
}

/// Addition saturating at the top of the address space.
pub open spec fn sat_add(a: u32, b: u32) -> u32 {
    if a + b > 0xFFFF_FFFF {
        0xFFFF_FFFF
    } else {
        (a + b) as u32
    }
}

/// Subtraction saturating at the bottom of the address space.
pub open spec fn sat_sub(a: u32, b: u32) -> u32 {
    if a >= b {
        (a - b) as u32
    } else {
        0
    }
}

/// The byte stored at `a`; addresses never written read as zero.
pub open spec fn mem_get(m: Map<u32, u8>, a: u32) -> u8 {
    if m.contains_key(a) {
        m[a]
    } else {
        0
    }
}

/// The little-endian 32-bit word at addresses `a .. a+3` (wrapping).
pub open spec fn word_at(m: Map<u32, u8>, a: u32) -> u32 {
    isa::le32_spec(
        mem_get(m, a),
        mem_get(m, wrap_add(a, 1)),
        mem_get(m, wrap_add(a, 2)),
        mem_get(m, wrap_add(a, 3)),
    )
}

/// Memory after storing the four little-endian bytes of `v` at `a .. a+3`
/// (wrapping).
pub open spec fn write_word(m: Map<u32, u8>, a: u32, v: u32) -> Map<u32, u8> {
    m.insert(a, (v & 0xFF) as u8).insert(wrap_add(a, 1), ((v >> 8) & 0xFF) as u8).insert(
        wrap_add(a, 2),
        ((v >> 16) & 0xFF) as u8,
    ).insert(wrap_add(a, 3), ((v >> 24) & 0xFF) as u8)
}

/// A byte sign-extended to 32 bits.
pub open spec fn sext8(b: u8) -> u32 {
    if b >= 0x80 {
        (b as u32) | 0xFFFF_FF00
    } else {
        b as u32
    }
}

/// A 32-bit value sign-extended to 64 bits.
pub open spec fn sext64(a: u32) -> u64 {
    if a >= 0x8000_0000 {
        (a as u64) | 0xFFFF_FFFF_0000_0000
    } else {
        a as u64
    }
}

/// The register `r` of state `s`.
pub open spec fn regv(s: Mach, r: u8) -> u32 {
    s.regs[r as int]
}

/// `s` with register `r` set to `v`.
pub open spec fn with_reg(s: Mach, r: u8, v: u32) -> Mach {
    Mach { regs: s.regs.update(r as int, v), ..s }
}

// ---------------------------------------------------------------------------
// Instruction semantics.
// ---------------------------------------------------------------------------

/// Result of a three-register operation on the two source values.
///
/// Add, subtract and multiply wrap modulo 2^32 and never trap; division and
/// remainder by zero yield 0; the logical operations coerce by "nonzero is
/// true" and re-widen to 0/1; comparisons write 0/1; shift and rotate counts
/// are taken modulo 32; the high-half multiplies operate on the 64-bit
/// product of the sign-extended (`Muhs`) or zero-extended (`Muhu`) sources.
pub open spec fn alu3_eval(op: Alu3, a: u32, b: u32) -> u32 {
    match op {
        Alu3::Add => wrap_add(a, b),
        Alu3::Sub => wrap_sub(a, b),
        Alu3::Bor => a | b,
        Alu3::Band => a & b,
        Alu3::Bxor => a ^ b,
        Alu3::Lor => if a != 0 || b != 0 {
            1
        } else {
            0
        },
        Alu3::Land => if a != 0 && b != 0 {
            1
        } else {
            0
        },
        Alu3::Lxor => if (a != 0) != (b != 0) {
            1
        } else {
            0
        },
        Alu3::CmpEq => if a == b {
            1
        } else {
            0
        },
        Alu3::CmpNe => if a != b {
            1
        } else {
            0
        },
        Alu3::CmpGt => if a > b {
            1
        } else {
            0
        },
        Alu3::CmpLt => if a < b {
            1
        } else {
            0
        },
        Alu3::CmpGe => if a >= b {
            1
        } else {
            0
        },
        Alu3::CmpLe => if a <= b {
            1
        } else {
            0
        },
        Alu3::Shl => a << ((b % 32) as u32),
        Alu3::Lshr => a >> ((b % 32) as u32),
        Alu3::Ashr => {
            let sh = (b % 32) as u32;
            if sh == 0 {
                a
            } else if a < 0x8000_0000 {
                a >> sh
            } else {
                (a >> sh) | (0xFFFF_FFFFu32 << ((32 - sh) as u32))
            }
        },
        Alu3::Rotl => {
            let sh = (b % 32) as u32;
            if sh == 0 {
                a
            } else {
                (a << sh) | (a >> ((32 - sh) as u32))
            }
        },
        Alu3::Rotr => {
            let sh = (b % 32) as u32;
            if sh == 0 {
                a
            } else {
                (a >> sh) | (a << ((32 - sh) as u32))
            }
        },
        Alu3::Mul => ((a * b) % 0x1_0000_0000) as u32,
        Alu3::Div => if b == 0 {
            0
        } else {
            (a as int / b as int) as u32
        },
        Alu3::Rem => if b == 0 {
            0
        } else {
            (a as int % b as int) as u32
        },
        Alu3::Muhs => ((((sext64(a) * sext64(b)) % 0x1_0000_0000_0000_0000) as u64) >> 32) as u32,
        Alu3::Muhu => ((a * b) / 0x1_0000_0000) as u32,
    }
}

/// Where a jump or call lands: the value itself when absolute, or the value
/// taken as a signed offset from the already-advanced program counter when
/// relative, saturating at the address-space bounds.
pub open spec fn jump_dest(relative: bool, pcadv: u32, v: u32) -> u32 {
    if relative {
        if v < 0x8000_0000 {
            sat_add(pcadv, v)
        } else {
            sat_sub(pcadv, wrap_sub(0, v))
        }
    } else {
        v
    }
}

/// State after pushing the return address `pcadv` on the call stack and
/// jumping to `dst`: the call stack pointer drops by four and the four
/// little-endian bytes of `pcadv` are stored at the new top.
pub open spec fn do_call(s: Mach, pcadv: u32, dst: u32) -> Mach {
    let new_csp = wrap_sub(regv(s, isa::CSP), 4);
    Mach {
        regs: s.regs.update(isa::CSP as int, new_csp).update(isa::RPC as int, dst),
        mem: write_word(s.mem, new_csp, pcadv),
        running: s.running,
    }
}

/// Effect of one decoded instruction on the state `s`, in which the program
/// counter has already been advanced to `pcadv`.
pub open spec fn exec_instr(i: Instr, pcadv: u32, s: Mach) -> Mach {
    match i {
        Instr::Nop => s,
        Instr::Hlt => Mach { running: false, ..s },
        Instr::Ldi { dest, imm } => with_reg(s, dest, imm),
        Instr::Alu { op, dest, src1, src2 } => with_reg(
            s,
            dest,
            alu3_eval(op, regv(s, src1), regv(s, src2)),
        ),
        Instr::Bnot { dest, src } => with_reg(s, dest, !regv(s, src)),
        Instr::Lnot { dest, src } => with_reg(
            s,
            dest,
            if regv(s, src) == 0 {
                1
            } else {
                0
            },
        ),
        Instr::Sb { dest, src } => Mach {
            mem: s.mem.insert(regv(s, dest), (regv(s, src) & 0xFF) as u8),
            ..s
        },
        Instr::Sw { dest, src } => Mach { mem: write_word(s.mem, regv(s, dest), regv(s, src)), ..s },
        Instr::Lbs { dest, src } => with_reg(s, dest, sext8(mem_get(s.mem, regv(s, src)))),
        Instr::Lbu { dest, src } => with_reg(s, dest, mem_get(s.mem, regv(s, src)) as u32),
        Instr::Lw { dest, src } => with_reg(s, dest, word_at(s.mem, regv(s, src))),
        Instr::Inc { dest } => with_reg(s, dest, wrap_add(regv(s, dest), 1)),
        Instr::Dec { dest } => with_reg(s, dest, wrap_sub(regv(s, dest), 1)),
        Instr::Addi { dest, src, imm } => with_reg(s, dest, wrap_add(regv(s, src), imm)),
        Instr::Subi { dest, src, imm } => with_reg(s, dest, wrap_sub(regv(s, src), imm)),
        Instr::JmpReg { target, relative } => with_reg(
            s,
            isa::RPC,
            jump_dest(relative, pcadv, regv(s, target)),
        ),
        Instr::JmpRegIf { target, cond, relative } => if regv(s, cond) != 0 {
            with_reg(s, isa::RPC, jump_dest(relative, pcadv, regv(s, target)))
        } else {
            s
        },
        Instr::CallReg { target, relative } => do_call(
            s,
            pcadv,
            jump_dest(relative, pcadv, regv(s, target)),
        ),
        Instr::CallRegIf { target, cond, relative } => if regv(s, cond) != 0 {
            do_call(s, pcadv, jump_dest(relative, pcadv, regv(s, target)))
        } else {
            s
        },
        Instr::JmpImm { target, relative } => with_reg(
            s,
            isa::RPC,
            jump_dest(relative, pcadv, target),
        ),
        Instr::JmpImmIf { target, cond, relative } => if regv(s, cond) != 0 {
            with_reg(s, isa::RPC, jump_dest(relative, pcadv, target))
        } else {
            s
        },
        Instr::CallImm { target, relative } => do_call(s, pcadv, jump_dest(relative, pcadv, target)),
        Instr::CallImmIf { target, cond, relative } => if regv(s, cond) != 0 {
            do_call(s, pcadv, jump_dest(relative, pcadv, target))
        } else {
            s
        },
        Instr::Ret => {
            let csp = regv(s, isa::CSP);
            Mach {
                regs: s.regs.update(isa::CSP as int, wrap_add(csp, 4)).update(
                    isa::RPC as int,
                    word_at(s.mem, csp),
                ),
                ..s
            }
        },
        Instr::PushB { src } => {
            let new_rsp = wrap_sub(regv(s, isa::RSP), 1);
            Mach {
                regs: s.regs.update(isa::RSP as int, new_rsp),
                mem: s.mem.insert(new_rsp, (regv(s, src) & 0xFF) as u8),
                running: s.running,
            }
        },
        Instr::PushW { src } => {
            let new_rsp = wrap_sub(regv(s, isa::RSP), 4);
            Mach {
                regs: s.regs.update(isa::RSP as int, new_rsp),
                mem: write_word(s.mem, new_rsp, regv(s, src)),
                running: s.running,
            }
        },
        Instr::PopBs { dest } => {
            let rsp = regv(s, isa::RSP);
            Mach {
                regs: s.regs.update(dest as int, sext8(mem_get(s.mem, rsp))).update(
                    isa::RSP as int,
                    wrap_add(rsp, 1),
                ),
                ..s
            }
        },
        Instr::PopBu { dest } => {
            let rsp = regv(s, isa::RSP);
            Mach {
                regs: s.regs.update(dest as int, mem_get(s.mem, rsp) as u32).update(
                    isa::RSP as int,
                    wrap_add(rsp, 1),
                ),
                ..s
            }
        },
        Instr::PopW { dest } => {
            let rsp = regv(s, isa::RSP);
            Mach {
                regs: s.regs.update(dest as int, word_at(s.mem, rsp)).update(
                    isa::RSP as int,
                    wrap_add(rsp, 4),
                ),
                ..s
            }
        },
        Instr::Other { opcode } => s,
    }
}

/// The machine after executing instruction `i` from state `s`: the program
/// counter advances by six before dispatch, the instruction takes effect,
/// and the zero register is forced back to 0.
pub open spec fn step_of(s: Mach, i: Instr) -> Mach {
    let pcadv = wrap_add(regv(s, isa::RPC), 6);
    let advanced = with_reg(s, isa::RPC, pcadv);
    let executed = exec_instr(i, pcadv, advanced);
    Mach { regs: executed.regs.update(isa::RDS as int, 0), ..executed }
}

/// One full machine cycle on the abstract state: fetch the six instruction
/// bytes at the program counter, decode, and execute per [`step_of`].
pub open spec fn step(s: Mach) -> Mach {
    let pc = regv(s, isa::RPC);
    step_of(
        s,
        isa::decode_spec(
            mem_get(s.mem, pc),
            mem_get(s.mem, wrap_add(pc, 1)),
            mem_get(s.mem, wrap_add(pc, 2)),
            mem_get(s.mem, wrap_add(pc, 3)),
            mem_get(s.mem, wrap_add(pc, 4)),
            mem_get(s.mem, wrap_add(pc, 5)),
        ),
    )
}

/// `s` with the running flag set: the state from which [`M0_32::run`]
/// begins cycling.
pub open spec fn started(s: Mach) -> Mach {
    Mach { running: true, ..s }
}

/// `n` machine cycles from `s`.
pub open spec fn steps(n: nat, s: Mach) -> Mach
    decreases n,
{
    if n == 0 {
        s
    } else {
        step(steps((n - 1) as nat, s))
    }
}

/// Memory after copying the byte sequence `p` to consecutive addresses
/// starting at `base`.
pub open spec fn store_seq(m: Map<u32, u8>, base: u32, p: Seq<u8>) -> Map<u32, u8>
    decreases p.len(),
{
    if p.len() == 0 {
        m
    } else {
        store_seq(m, base, p.drop_last()).insert(wrap_add(base, (p.len() - 1) as u32), p.last())
    }
}

/// Loading places each program byte at its offset from the base and leaves
/// every other address untouched, as long as the program fits below the top
/// of the address space.
pub proof fn lemma_store_seq_byte(m: Map<u32, u8>, base: u32, p: Seq<u8>, a: u32)
    requires
        base + p.len() <= 0x1_0000_0000,
    ensures
        mem_get(store_seq(m, base, p), a) == if base <= a < base + p.len() {
            p[a - base]
        } else {
            mem_get(m, a)
        },
    decreases p.len(),
{
    if p.len() > 0 {
        lemma_store_seq_byte(m, base, p.drop_last(), a);
    }
}

/// The machine state that [`M0_32::new`] constructs: all registers zero but
/// for the program counter and the two stack pointers, memory all zero, not
/// running.
pub open spec fn initial_state() -> Mach {
    Mach {
        regs: Seq::new(16, |i: int| 0u32).update(isa::RPC as int, PROG_BASE).update(
            isa::RSP as int,
            RSP_INIT,
        ).update(isa::CSP as int, CSP_INIT),
        mem: Map::empty(),
        running: false,
    }
}

/// Error returned when a program does not fit the code region.
#[derive(Clone, Copy, PartialEq, Eq, Structural, Debug)]
pub enum LoadError {
    /// The program is longer than [`PROG_CAP`] bytes.
    ProgramTooLarge,
}

// ---------------------------------------------------------------------------
// The machine.
// ---------------------------------------------------------------------------

/// A machine instance: sixteen 32-bit registers, a sparsely stored flat
/// 2^32-byte memory, and the running flag.  Its abstract model is [`Mach`];
/// every byte never written reads as zero.
pub struct M0_32 {
    registers: Vec<u32>,
    mem: HashMap<u32, u8>,
    is_running: bool,
}

impl View for M0_32 {
    type V = Mach;

    closed spec fn view(&self) -> Mach {
        Mach { regs: self.registers@, mem: self.mem@, running: self.is_running }
    }
}

impl M0_32 {
    /// The register file always holds exactly sixteen registers.
    pub open spec fn wf(&self) -> bool {
        self@.regs.len() == 16
    }

    /// Create a machine in its initial state: halted, memory all zero, the
    /// program counter at [`PROG_BASE`] and the stack pointers at
    /// [`RSP_INIT`] and [`CSP_INIT`].
    pub fn new() -> (m: M0_32)
        ensures
            m.wf(),
            m@ == initial_state(),
    {
        let mut registers: Vec<u32> = vec![0u32; 16];
        registers.set(isa::RPC as usize, PROG_BASE);
        registers.set(isa::RSP as usize, RSP_INIT);
        registers.set(isa::CSP as usize, CSP_INIT);
        let m = M0_32 { registers, mem: HashMap::new(), is_running: false };
        proof {
            assert(m@.regs =~= initial_state().regs);
            assert(m@ =~= initial_state());
        }
        m
    }

    /// Copy `program` into memory at [`PROG_BASE`].  A program longer than
    /// the 1 GiB code-region capacity is rejected before any byte is
    /// written; registers and the running flag are never touched.
    pub fn load_program(&mut self, program: &[u8]) -> (r: Result<(), LoadError>)
        requires
            old(self).wf(),
        ensures
            final(self).wf(),
            program@.len() <= PROG_CAP ==> r == Ok::<(), LoadError>(()) && final(self)@ == (Mach {
                mem: store_seq(old(self)@.mem, PROG_BASE, program@),
                ..old(self)@
            }),
            program@.len() > PROG_CAP ==> r == Err::<(), LoadError>(LoadError::ProgramTooLarge)
                && final(self)@ == old(self)@,
    {
        if program.len() > PROG_CAP {
            return Err(LoadError::ProgramTooLarge);
        }
        let ghost m0 = self@.mem;
        let n = program.len();
        let mut i: usize = 0;
        while i < n
            invariant
                self.wf(),
                n == program@.len() <= PROG_CAP,
                i <= n,
                self@.mem == store_seq(m0, PROG_BASE, program@.take(i as int)),
                self@.regs == old(self)@.regs,
                self@.running == old(self)@.running,
            decreases n - i,
        {
            let addr = PROG_BASE + (i as u32);
            self.mem.insert(addr, program[i]);
            proof {
                let p1 = program@.take(i + 1);
                assert(p1.drop_last() =~= program@.take(i as int));
                assert(wrap_add(PROG_BASE, i as u32) == addr);
                assert(self@.mem == store_seq(m0, PROG_BASE, p1));
            }
            i = i + 1;
        }
        proof {
            assert(program@.take(n as int) =~= program@);
            assert(self@ =~= (Mach { mem: store_seq(old(self)@.mem, PROG_BASE, program@), ..old(
                self,
            )@ }));
        }
        Ok(())
    }

    /// Set the machine running and execute cycles until a halt instruction
    /// clears the flag.  The final state is what some number of cycles of
    /// [`step`] produces from the started state.  Unless the program takes
    /// more than 2^64 - 1 cycles — a ceiling no real program reaches, checked
    /// once per cycle — the machine is no longer running when `run` returns.
    pub fn run(&mut self)
        requires
            old(self).wf(),
        ensures
            final(self).wf(),
            exists|n: nat|
                final(self)@ == #[trigger] steps(n, started(old(self)@))
                    && (!final(self)@.running || n == 0xFFFF_FFFF_FFFF_FFFF),
    {
        self.is_running = true;
        let ghost start = self@;
        let ghost mut n: nat = 0;
        proof {
            assert(start =~= started(old(self)@));
            assert(self@ == steps(0, start));
        }
        let mut fuel: u64 = 0xFFFF_FFFF_FFFF_FFFF;
        while self.is_running && fuel > 0
            invariant
                self.wf(),
                self@ == steps(n, start),
                n + fuel == 0xFFFF_FFFF_FFFF_FFFF,
            decreases fuel,
        {
            self.cycle();
            fuel = fuel - 1;
            proof {
                n = n + 1;
            }
        }
    }

    /// Execute exactly one fetch-decode-execute cycle: the executable
    /// counterpart of [`step`].
    pub fn cycle(&mut self)
        requires
            old(self).wf(),
        ensures
            final(self).wf(),
            final(self)@ == step(old(self)@),
    {
        let ghost s0 = self@;
        let pc = self.registers[isa::RPC as usize];
        let b0 = self.mem_read(pc);
        let b1 = self.mem_read(pc.wrapping_add(1));
        let b2 = self.mem_read(pc.wrapping_add(2));
        let b3 = self.mem_read(pc.wrapping_add(3));
        let b4 = self.mem_read(pc.wrapping_add(4));
        let b5 = self.mem_read(pc.wrapping_add(5));
        let pcadv = pc.wrapping_add(6);
        self.registers.set(isa::RPC as usize, pcadv);
        let ghost s1 = self@;
        proof {
            assert(s1 == with_reg(s0, isa::RPC, wrap_add(pc, 6)));
        }
        let instr = isa::decode(b0, b1, b2, b3, b4, b5);
        proof {
            isa::lemma_decode_regs_bounded(b0, b1, b2, b3, b4, b5);
        }
        match instr {
            Instr::Nop => {},
            Instr::Hlt => {
                self.is_running = false;
            },
            Instr::Ldi { dest, imm } => {
                self.registers.set(dest as usize, imm);
            },
            Instr::Alu { op, dest, src1, src2 } => {
                let a = self.registers[src1 as usize];
                let b = self.registers[src2 as usize];
                let v = alu3_exec(op, a, b);
                self.registers.set(dest as usize, v);
            },
            Instr::Bnot { dest, src } => {
                let v = !self.registers[src as usize];
                self.registers.set(dest as usize, v);
            },
            Instr::Lnot { dest, src } => {
                let v: u32 = if self.registers[src as usize] == 0 {
                    1
                } else {
                    0
                };
                self.registers.set(dest as usize, v);
            },
            Instr::Sb { dest, src } => {
                let addr = self.registers[dest as usize];
                let v = (self.registers[src as usize] & 0xFF) as u8;
                self.mem_write(addr, v);
            },
            Instr::Sw { dest, src } => {
                let addr = self.registers[dest as usize];
                let v = self.registers[src as usize];
                self.write_word_at(addr, v);
            },
            Instr::Lbs { dest, src } => {
                let addr = self.registers[src as usize];
                let b = self.mem_read(addr);
                let v: u32 = if b >= 0x80 {
                    (b as u32) | 0xFFFF_FF00
                } else {
                    b as u32
                };
                self.registers.set(dest as usize, v);
            },
            Instr::Lbu { dest, src } => {
                let addr = self.registers[src as usize];
                let b = self.mem_read(addr);
                self.registers.set(dest as usize, b as u32);
            },
            Instr::Lw { dest, src } => {
                let addr = self.registers[src as usize];
                let v = self.read_word(addr);
                self.registers.set(dest as usize, v);
            },
            Instr::Inc { dest } => {
                let v = self.registers[dest as usize].wrapping_add(1);
                self.registers.set(dest as usize, v);
            },
            Instr::Dec { dest } => {
                let v = self.registers[dest as usize].wrapping_sub(1);
                self.registers.set(dest as usize, v);
            },
            Instr::Addi { dest, src, imm } => {
                let v = self.registers[src as usize].wrapping_add(imm);
                self.registers.set(dest as usize, v);
            },
            Instr::Subi { dest, src, imm } => {
                let v = self.registers[src as usize].wrapping_sub(imm);
                self.registers.set(dest as usize, v);
            },
            Instr::JmpReg { target, relative } => {
                let dst = jump_dest_exec(relative, pcadv, self.registers[target as usize]);
                self.registers.set(isa::RPC as usize, dst);
            },
            Instr::JmpRegIf { target, cond, relative } => {
                if self.registers[cond as usize] != 0 {
                    let dst = jump_dest_exec(relative, pcadv, self.registers[target as usize]);
                    self.registers.set(isa::RPC as usize, dst);
                }
            },
            Instr::CallReg { target, relative } => {
                let dst = jump_dest_exec(relative, pcadv, self.registers[target as usize]);
                self.push_call(pcadv, dst);
            },
            Instr::CallRegIf { target, cond, relative } => {
                if self.registers[cond as usize] != 0 {
                    let dst = jump_dest_exec(relative, pcadv, self.registers[target as usize]);
                    self.push_call(pcadv, dst);
                }
            },
            Instr::JmpImm { target, relative } => {
                let dst = jump_dest_exec(relative, pcadv, target);
                self.registers.set(isa::RPC as usize, dst);
            },
            Instr::JmpImmIf { target, cond, relative } => {
                if self.registers[cond as usize] != 0 {
                    let dst = jump_dest_exec(relative, pcadv, target);
                    self.registers.set(isa::RPC as usize, dst);
                }
            },
            Instr::CallImm { target, relative } => {
                let dst = jump_dest_exec(relative, pcadv, target);
                self.push_call(pcadv, dst);
            },
            Instr::CallImmIf { target, cond, relative } => {
                if self.registers[cond as usize] != 0 {
                    let dst = jump_dest_exec(relative, pcadv, target);
                    self.push_call(pcadv, dst);
                }
            },
            Instr::Ret => {
                let csp = self.registers[isa::CSP as usize];
                let ret = self.read_word(csp);
                self.registers.set(isa::CSP as usize, csp.wrapping_add(4));
                self.registers.set(isa::RPC as usize, ret);
            },
            Instr::PushB { src } => {
                let new_rsp = self.registers[isa::RSP as usize].wrapping_sub(1);
                let v = (self.registers[src as usize] & 0xFF) as u8;
                self.registers.set(isa::RSP as usize, new_rsp);
                self.mem_write(new_rsp, v);
            },
            Instr::PushW { src } => {
                let new_rsp = self.registers[isa::RSP as usize].wrapping_sub(4);
                let v = self.registers[src as usize];
                self.registers.set(isa::RSP as usize, new_rsp);
                self.write_word_at(new_rsp, v);
            },
            Instr::PopBs { dest } => {
                let rsp = self.registers[isa::RSP as usize];
                let b = self.mem_read(rsp);
                let v: u32 = if b >= 0x80 {
                    (b as u32) | 0xFFFF_FF00
                } else {
                    b as u32
                };
                self.registers.set(dest as usize, v);
                self.registers.set(isa::RSP as usize, rsp.wrapping_add(1));
            },
            Instr::PopBu { dest } => {
                let rsp = self.registers[isa::RSP as usize];
                let b = self.mem_read(rsp);
                self.registers.set(dest as usize, b as u32);
                self.registers.set(isa::RSP as usize, rsp.wrapping_add(1));
            },
            Instr::PopW { dest } => {
                let rsp = self.registers[isa::RSP as usize];
                let v = self.read_word(rsp);
                self.registers.set(dest as usize, v);
                self.registers.set(isa::RSP as usize, rsp.wrapping_add(4));
            },
            Instr::Other { opcode } => {},
        }
        proof {
            assert(self@ =~= exec_instr(instr, wrap_add(pc, 6), s1));
        }
        self.registers.set(isa::RDS as usize, 0);
        proof {
            assert(self@ =~= step(s0));
        }
    }

    /// The current value of register `index`, or 0 for an index past the
    /// register file.
    pub fn register(&self, index: u8) -> (r: u32)
        ensures
            r == if index < 16 && self.wf() {
                regv(self@, index)
            } else {
                0u32
            },
    {
        if (index as usize) < self.registers.len() && self.registers.len() == 16 {
            self.registers[index as usize]
        } else {
            0
        }
    }

    /// Whether the machine is currently running.
    pub fn is_running(&self) -> (r: bool)
        ensures
            r == self@.running,
    {
        self.is_running
    }

    /// The byte stored at `addr`; never-written addresses read as zero.
    fn mem_read(&self, addr: u32) -> (b: u8)
        ensures
            b == mem_get(self@.mem, addr),
    {
        match self.mem.get(&addr) {
            Some(b) => *b,
            None => 0,
        }
    }

    /// Store one byte.
    fn mem_write(&mut self, addr: u32, b: u8)
        ensures
            final(self)@ == (Mach { mem: old(self)@.mem.insert(addr, b), ..old(self)@ }),
            final(self).wf() == old(self).wf(),
    {
        self.mem.insert(addr, b);
        proof {
            assert(self@ =~= (Mach { mem: old(self)@.mem.insert(addr, b), ..old(self)@ }));
        }
    }

    /// The little-endian word at `addr .. addr+3`.
    fn read_word(&self, addr: u32) -> (v: u32)
        ensures
            v == word_at(self@.mem, addr),
    {
        let b0 = self.mem_read(addr);
        let b1 = self.mem_read(addr.wrapping_add(1));
        let b2 = self.mem_read(addr.wrapping_add(2));
        let b3 = self.mem_read(addr.wrapping_add(3));
        isa::le32(b0, b1, b2, b3)
    }

    /// Store the four little-endian bytes of `v` at `addr .. addr+3`.
    fn write_word_at(&mut self, addr: u32, v: u32)
        ensures
            final(self)@ == (Mach { mem: write_word(old(self)@.mem, addr, v), ..old(self)@ }),
            final(self).wf() == old(self).wf(),
    {
        self.mem_write(addr, (v & 0xFF) as u8);
        self.mem_write(addr.wrapping_add(1), ((v >> 8) & 0xFF) as u8);
        self.mem_write(addr.wrapping_add(2), ((v >> 16) & 0xFF) as u8);
        self.mem_write(addr.wrapping_add(3), ((v >> 24) & 0xFF) as u8);
        proof {
            assert(self@ =~= (Mach { mem: write_word(old(self)@.mem, addr, v), ..old(self)@ }));
        }
    }

    /// Push the return address and jump: the shared tail of the four call
    /// instructions.
    fn push_call(&mut self, pcadv: u32, dst: u32)
        requires
            old(self).wf(),
        ensures
            final(self).wf(),
            final(self)@ == do_call(old(self)@, pcadv, dst),
    {
        let new_csp = self.registers[isa::CSP as usize].wrapping_sub(4);
        self.registers.set(isa::CSP as usize, new_csp);
        self.registers.set(isa::RPC as usize, dst);
        self.write_word_at(new_csp, pcadv);
        proof {
            assert(self@ =~= do_call(old(self)@, pcadv, dst));
        }
    }
}

/// Executable counterpart of [`jump_dest`].
fn jump_dest_exec(relative: bool, pcadv: u32, v: u32) -> (r: u32)
    ensures
        r == jump_dest(relative, pcadv, v),
{
    if relative {
        if v < 0x8000_0000 {
            pcadv.saturating_add(v)
        } else {
            pcadv.saturating_sub(0u32.wrapping_sub(v))
        }
    } else {
        v
    }
}

/// Executable counterpart of [`alu3_eval`].
fn alu3_exec(op: Alu3, a: u32, b: u32) -> (r: u32)
    ensures
        r == alu3_eval(op, a, b),
{
    match op {
        Alu3::Add => a.wrapping_add(b),
        Alu3::Sub => a.wrapping_sub(b),
        Alu3::Bor => a | b,
        Alu3::Band => a & b,
        Alu3::Bxor => a ^ b,
        Alu3::Lor => if a != 0 || b != 0 {
            1
        } else {
            0
        },
        Alu3::Land => if a != 0 && b != 0 {
            1
        } else {
            0
        },
        Alu3::Lxor => if (a != 0) != (b != 0) {
            1
        } else {
            0
        },
        Alu3::CmpEq => if a == b {
            1
        } else {
            0
        },
        Alu3::CmpNe => if a != b {
            1
        } else {
            0
        },
        Alu3::CmpGt => if a > b {
            1
        } else {
            0
        },
        Alu3::CmpLt => if a < b {
            1
        } else {
            0
        },
        Alu3::CmpGe => if a >= b {
            1
        } else {
            0
        },
        Alu3::CmpLe => if a <= b {
            1
        } else {
            0
        },
        Alu3::Shl => a << (b % 32),
        Alu3::Lshr => a >> (b % 32),
        Alu3::Ashr => {
            let sh = b % 32;
            if sh == 0 {
                a
            } else if a < 0x8000_0000 {
                a >> sh
            } else {
                (a >> sh) | (0xFFFF_FFFFu32 << (32 - sh))
            }
        },
        Alu3::Rotl => {
            let sh = b % 32;
            if sh == 0 {
                a
            } else {
                (a << sh) | (a >> (32 - sh))
            }
        },
        Alu3::Rotr => {
            let sh = b % 32;
            if sh == 0 {
                a
            } else {
                (a >> sh) | (a << (32 - sh))
            }
        },
        Alu3::Mul => {
            let r = a.wrapping_mul(b);
            proof {
                assert(r == ((a * b) % 0x1_0000_0000) as u32);
            }
            r
        },
        Alu3::Div => if b == 0 {
            0
        } else {
            a / b
        },
        Alu3::Rem => if b == 0 {
            0
        } else {
            a % b
        },
        Alu3::Muhs => {
            let sa: u64 = if a >= 0x8000_0000 {
                (a as u64) | 0xFFFF_FFFF_0000_0000
            } else {
                a as u64
            };
            let sb: u64 = if b >= 0x8000_0000 {
                (b as u64) | 0xFFFF_FFFF_0000_0000
            } else {
                b as u64
            };
            let p = sa.wrapping_mul(sb);
            proof {
                assert(p == ((sext64(a) * sext64(b)) % 0x1_0000_0000_0000_0000) as u64);
                assert(p >> 32u64 <= 0xFFFF_FFFFu64) by (bit_vector);
            }
            (p >> 32u64) as u32
        },
        Alu3::Muhu => {
            proof {
                assert((a as u64) * (b as u64) <= 0xFFFF_FFFFu64 * 0xFFFF_FFFFu64)
                    by (nonlinear_arith)
                    requires
                        a <= 0xFFFF_FFFFu32 && b <= 0xFFFF_FFFFu32,
                ;
            }
            let p = (a as u64) * (b as u64);
            proof {
                assert(p >> 32u64 == p / 0x1_0000_0000 && p >> 32u64 <= 0xFFFF_FFFFu64)
                    by (bit_vector);
            }
            let r = (p >> 32u64) as u32;
            proof {
                assert(r == ((a * b) / 0x1_0000_0000) as u32);
            }
            r
        },
    }
}

// ---------------------------------------------------------------------------
// Laws.
// ---------------------------------------------------------------------------

/// The instruction word that `s` is about to execute consists of the six
/// bytes `b`, read at the program counter with wrapping address arithmetic.
pub open spec fn fetched(s: Mach, b: Seq<u8>) -> bool {
    b.len() == 6 && forall|i: int|
        0 <= i < 6 ==> #[trigger] b[i] == mem_get(s.mem, wrap_add(regv(s, isa::RPC), i as u32))
}

/// A cycle executes exactly the instruction that the fetched word decodes
/// to.
pub proof fn lemma_step_executes(s: Mach, b: Seq<u8>)
    requires
        fetched(s, b),
    ensures
        step(s) == step_of(s, isa::decode_bytes(b)),
{
    let pc = regv(s, isa::RPC);
    assert(b[0] == mem_get(s.mem, wrap_add(pc, 0)));
    assert(wrap_add(pc, 0) == pc);
    assert(b[1] == mem_get(s.mem, wrap_add(pc, 1)));
    assert(b[2] == mem_get(s.mem, wrap_add(pc, 2)));
    assert(b[3] == mem_get(s.mem, wrap_add(pc, 3)));
    assert(b[4] == mem_get(s.mem, wrap_add(pc, 4)));
    assert(b[5] == mem_get(s.mem, wrap_add(pc, 5)));
}

/// Executing an instruction never changes the size of the register file.
pub proof fn lemma_exec_instr_regs_len(i: Instr, pcadv: u32, s: Mach)
    requires
        s.regs.len() == 16,
        isa::instr_regs_bounded(i),
    ensures
        exec_instr(i, pcadv, s).regs.len() == 16,
{
    match i {
        Instr::Nop => {},
        Instr::Hlt => {},
        Instr::Ldi { .. } => {},
        Instr::Alu { .. } => {},
        Instr::Bnot { .. } => {},
        Instr::Lnot { .. } => {},
        Instr::Sb { .. } => {},
        Instr::Sw { .. } => {},
        Instr::Lbs { .. } => {},
        Instr::Lbu { .. } => {},
        Instr::Lw { .. } => {},
        Instr::Inc { .. } => {},
        Instr::Dec { .. } => {},
        Instr::Addi { .. } => {},
        Instr::Subi { .. } => {},
        Instr::JmpReg { .. } => {},
        Instr::JmpRegIf { .. } => {},
        Instr::CallReg { .. } => {},
        Instr::CallRegIf { .. } => {},
        Instr::JmpImm { .. } => {},
        Instr::JmpImmIf { .. } => {},
        Instr::CallImm { .. } => {},
        Instr::CallImmIf { .. } => {},
        Instr::Ret => {},
        Instr::PushB { .. } => {},
        Instr::PushW { .. } => {},
        Instr::PopBs { .. } => {},
        Instr::PopBu { .. } => {},
        Instr::PopW { .. } => {},
        Instr::Other { .. } => {},
    }
}

/// One cycle never changes the size of the register file.
pub proof fn lemma_step_regs_len(s: Mach)
    requires
        s.regs.len() == 16,
    ensures
        step(s).regs.len() == 16,
{
    let pc = regv(s, isa::RPC);
    let i = isa::decode_spec(
        mem_get(s.mem, pc),
        mem_get(s.mem, wrap_add(pc, 1)),
        mem_get(s.mem, wrap_add(pc, 2)),
        mem_get(s.mem, wrap_add(pc, 3)),
        mem_get(s.mem, wrap_add(pc, 4)),
        mem_get(s.mem, wrap_add(pc, 5)),
    );
    isa::lemma_decode_regs_bounded(
        mem_get(s.mem, pc),
        mem_get(s.mem, wrap_add(pc, 1)),
        mem_get(s.mem, wrap_add(pc, 2)),
        mem_get(s.mem, wrap_add(pc, 3)),
        mem_get(s.mem, wrap_add(pc, 4)),
        mem_get(s.mem, wrap_add(pc, 5)),
    );
    lemma_exec_instr_regs_len(i, wrap_add(pc, 6), with_reg(s, isa::RPC, wrap_add(pc, 6)));
}

/// After any cycle the zero register reads 0, even if the cycle named it as
/// destination.
pub proof fn lemma_zero_register_after_step(s: Mach)
    requires
        s.regs.len() == 16,
    ensures
        regv(step(s), isa::RDS) == 0,
{
    let pc = regv(s, isa::RPC);
    let i = isa::decode_spec(
        mem_get(s.mem, pc),
        mem_get(s.mem, wrap_add(pc, 1)),
        mem_get(s.mem, wrap_add(pc, 2)),
        mem_get(s.mem, wrap_add(pc, 3)),
        mem_get(s.mem, wrap_add(pc, 4)),
        mem_get(s.mem, wrap_add(pc, 5)),
    );
    let advanced = with_reg(s, isa::RPC, wrap_add(pc, 6));
    isa::lemma_decode_regs_bounded(
        mem_get(s.mem, pc),
        mem_get(s.mem, wrap_add(pc, 1)),
        mem_get(s.mem, wrap_add(pc, 2)),
        mem_get(s.mem, wrap_add(pc, 3)),
        mem_get(s.mem, wrap_add(pc, 4)),
        mem_get(s.mem, wrap_add(pc, 5)),
    );
    lemma_exec_instr_regs_len(i, wrap_add(pc, 6), advanced);
}

/// Add yields the sum of its sources modulo 2^32, and subtract their
/// difference modulo 2^32, for all source values; neither ever traps.
pub proof fn lemma_add_sub_wrap(u1: u32, u2: u32)
    ensures
        alu3_eval(Alu3::Add, u1, u2) == ((u1 + u2) % 0x1_0000_0000) as u32,
        alu3_eval(Alu3::Sub, u1, u2) == ((u1 - u2 + 0x1_0000_0000) % 0x1_0000_0000) as u32,
{
}

/// A fetched three-register word executes as exactly that operation: the
/// composition of the assembler's encoding, the decoder and the dispatch.
pub proof fn lemma_fetched_alu_steps(s: Mach, op: Alu3, d: u8, s1: u8, s2: u8)
    requires
        d < 16,
        s1 < 16,
        s2 < 16,
        fetched(s, isa::enc_rrr(isa::alu3_opcode(op), d, s1, s2)),
    ensures
        step(s) == step_of(s, Instr::Alu { op, dest: d, src1: s1, src2: s2 }),
{
    isa::lemma_roundtrip_alu(op, d, s1, s2);
    lemma_step_executes(s, isa::enc_rrr(isa::alu3_opcode(op), d, s1, s2));
}


/// The full chain for an addition: when the fetched word is an encoded
/// `add`, the cycle writes the sum of the source registers modulo 2^32 to
/// the destination, advances the program counter by six, and touches
/// nothing else — no memory, no other register, not the running flag.
/// Subtraction behaves symmetrically with the difference modulo 2^32.
pub proof fn lemma_fetched_add_sub_effect(s: Mach, op: Alu3, d: u8, s1: u8, s2: u8)
    requires
        s.regs.len() == 16,
        0 < d < 15,
        s1 < 15,
        s2 < 15,
        op == Alu3::Add || op == Alu3::Sub,
        fetched(s, isa::enc_rrr(isa::alu3_opcode(op), d, s1, s2)),
    ensures
        op == Alu3::Add ==> regv(step(s), d) == ((regv(s, s1) + regv(s, s2)) % 0x1_0000_0000),
        op == Alu3::Sub ==> regv(step(s), d) == ((regv(s, s1) - regv(s, s2) + 0x1_0000_0000)
            % 0x1_0000_0000),
        regv(step(s), isa::RDS) == 0,
        regv(step(s), isa::RPC) == wrap_add(regv(s, isa::RPC), 6),
        forall|r: int| 0 < r < 15 && r != d ==> step(s).regs[r] == s.regs[r],
        step(s).mem == s.mem,
        step(s).running == s.running,
{
    lemma_fetched_alu_steps(s, op, d, s1, s2);
    lemma_add_sub_wrap(regv(s, s1), regv(s, s2));
    let pcadv = wrap_add(regv(s, isa::RPC), 6);
    let advanced = with_reg(s, isa::RPC, pcadv);
    assert(regv(advanced, s1) == regv(s, s1));
    assert(regv(advanced, s2) == regv(s, s2));
}

/// A fetched load-immediate word loads exactly the encoded immediate.
pub proof fn lemma_fetched_ldi_steps(s: Mach, d: u8, imm: u32)
    requires
        d < 16,
        fetched(s, isa::enc_ldi(d, imm)),
    ensures
        step(s) == step_of(s, Instr::Ldi { dest: d, imm }),
{
    isa::lemma_roundtrip_ldi(d, imm);
    lemma_step_executes(s, isa::enc_ldi(d, imm));
}

/// A fetched no-operand word executes as its instruction.
pub proof fn lemma_fetched_none_steps(s: Mach)
    ensures
        fetched(s, isa::enc_none(isa::NOP)) ==> step(s) == step_of(s, Instr::Nop),
        fetched(s, isa::enc_none(isa::HLT)) ==> step(s) == step_of(s, Instr::Hlt),
        fetched(s, isa::enc_none(isa::RET)) ==> step(s) == step_of(s, Instr::Ret),
{
    isa::lemma_roundtrip_none();
    if fetched(s, isa::enc_none(isa::NOP)) {
        lemma_step_executes(s, isa::enc_none(isa::NOP));
    }
    if fetched(s, isa::enc_none(isa::HLT)) {
        lemma_step_executes(s, isa::enc_none(isa::HLT));
    }
    if fetched(s, isa::enc_none(isa::RET)) {
        lemma_step_executes(s, isa::enc_none(isa::RET));
    }
}

/// A fetched two-register word executes as its instruction.
pub proof fn lemma_fetched_rr_steps(s: Mach, d: u8, src: u8)
    requires
        d < 16,
        src < 16,
    ensures
        fetched(s, isa::enc_rr(isa::BNOT, d, src)) ==> step(s) == step_of(
            s,
            Instr::Bnot { dest: d, src },
        ),
        fetched(s, isa::enc_rr(isa::LNOT, d, src)) ==> step(s) == step_of(
            s,
            Instr::Lnot { dest: d, src },
        ),
        fetched(s, isa::enc_rr(isa::SB, d, src)) ==> step(s) == step_of(
            s,
            Instr::Sb { dest: d, src },
        ),
        fetched(s, isa::enc_rr(isa::SW, d, src)) ==> step(s) == step_of(
            s,
            Instr::Sw { dest: d, src },
        ),
        fetched(s, isa::enc_rr(isa::LBS, d, src)) ==> step(s) == step_of(
            s,
            Instr::Lbs { dest: d, src },
        ),
        fetched(s, isa::enc_rr(isa::LBU, d, src)) ==> step(s) == step_of(
            s,
            Instr::Lbu { dest: d, src },
        ),
        fetched(s, isa::enc_rr(isa::LW, d, src)) ==> step(s) == step_of(
            s,
            Instr::Lw { dest: d, src },
        ),
{
    isa::lemma_roundtrip_rr(d, src);
    if fetched(s, isa::enc_rr(isa::BNOT, d, src)) {
        lemma_step_executes(s, isa::enc_rr(isa::BNOT, d, src));
    }
    if fetched(s, isa::enc_rr(isa::LNOT, d, src)) {
        lemma_step_executes(s, isa::enc_rr(isa::LNOT, d, src));
    }
    if fetched(s, isa::enc_rr(isa::SB, d, src)) {
        lemma_step_executes(s, isa::enc_rr(isa::SB, d, src));
    }
    if fetched(s, isa::enc_rr(isa::SW, d, src)) {
        lemma_step_executes(s, isa::enc_rr(isa::SW, d, src));
    }
    if fetched(s, isa::enc_rr(isa::LBS, d, src)) {
        lemma_step_executes(s, isa::enc_rr(isa::LBS, d, src));
    }
    if fetched(s, isa::enc_rr(isa::LBU, d, src)) {
        lemma_step_executes(s, isa::enc_rr(isa::LBU, d, src));
    }
    if fetched(s, isa::enc_rr(isa::LW, d, src)) {
        lemma_step_executes(s, isa::enc_rr(isa::LW, d, src));
    }
}

/// A fetched single-register word executes as its instruction.
pub proof fn lemma_fetched_r_steps(s: Mach, r: u8)
    requires
        r < 16,
    ensures
        fetched(s, isa::enc_r(isa::INC, r)) ==> step(s) == step_of(s, Instr::Inc { dest: r }),
        fetched(s, isa::enc_r(isa::DEC, r)) ==> step(s) == step_of(s, Instr::Dec { dest: r }),
        fetched(s, isa::enc_r(isa::PB, r)) ==> step(s) == step_of(s, Instr::PushB { src: r }),
        fetched(s, isa::enc_r(isa::PW, r)) ==> step(s) == step_of(s, Instr::PushW { src: r }),
        fetched(s, isa::enc_r(isa::POBS, r)) ==> step(s) == step_of(s, Instr::PopBs { dest: r }),
        fetched(s, isa::enc_r(isa::POBU, r)) ==> step(s) == step_of(s, Instr::PopBu { dest: r }),
        fetched(s, isa::enc_r(isa::POW, r)) ==> step(s) == step_of(s, Instr::PopW { dest: r }),
{
    isa::lemma_roundtrip_r(r);
    if fetched(s, isa::enc_r(isa::INC, r)) {
        lemma_step_executes(s, isa::enc_r(isa::INC, r));
    }
    if fetched(s, isa::enc_r(isa::DEC, r)) {
        lemma_step_executes(s, isa::enc_r(isa::DEC, r));
    }
    if fetched(s, isa::enc_r(isa::PB, r)) {
        lemma_step_executes(s, isa::enc_r(isa::PB, r));
    }
    if fetched(s, isa::enc_r(isa::PW, r)) {
        lemma_step_executes(s, isa::enc_r(isa::PW, r));
    }
    if fetched(s, isa::enc_r(isa::POBS, r)) {
        lemma_step_executes(s, isa::enc_r(isa::POBS, r));
    }
    if fetched(s, isa::enc_r(isa::POBU, r)) {
        lemma_step_executes(s, isa::enc_r(isa::POBU, r));
    }
    if fetched(s, isa::enc_r(isa::POW, r)) {
        lemma_step_executes(s, isa::enc_r(isa::POW, r));
    }
}

/// A fetched immediate add/subtract word executes as its instruction.
pub proof fn lemma_fetched_reg_imm_steps(s: Mach, d: u8, src: u8, imm: u32)
    requires
        d < 16,
        src < 16,
    ensures
        fetched(s, isa::enc_reg_imm(isa::ADDI, d, src, imm)) ==> step(s) == step_of(
            s,
            Instr::Addi { dest: d, src, imm },
        ),
        fetched(s, isa::enc_reg_imm(isa::SUBI, d, src, imm)) ==> step(s) == step_of(
            s,
            Instr::Subi { dest: d, src, imm },
        ),
{
    isa::lemma_roundtrip_reg_imm(d, src, imm);
    if fetched(s, isa::enc_reg_imm(isa::ADDI, d, src, imm)) {
        lemma_step_executes(s, isa::enc_reg_imm(isa::ADDI, d, src, imm));
    }
    if fetched(s, isa::enc_reg_imm(isa::SUBI, d, src, imm)) {
        lemma_step_executes(s, isa::enc_reg_imm(isa::SUBI, d, src, imm));
    }
}

/// A fetched register jump or call word executes as its instruction.
pub proof fn lemma_fetched_jump_reg_steps(s: Mach, r: u8, rel: bool)
    requires
        r < 16,
    ensures
        fetched(s, isa::enc_jump_reg(isa::JMR, r, rel)) ==> step(s) == step_of(
            s,
            Instr::JmpReg { target: r, relative: rel },
        ),
        fetched(s, isa::enc_jump_reg(isa::CAR, r, rel)) ==> step(s) == step_of(
            s,
            Instr::CallReg { target: r, relative: rel },
        ),
{
    isa::lemma_roundtrip_jump_reg(r, rel);
    if fetched(s, isa::enc_jump_reg(isa::JMR, r, rel)) {
        lemma_step_executes(s, isa::enc_jump_reg(isa::JMR, r, rel));
    }
    if fetched(s, isa::enc_jump_reg(isa::CAR, r, rel)) {
        lemma_step_executes(s, isa::enc_jump_reg(isa::CAR, r, rel));
    }
}

/// A fetched conditional register jump or call word executes as its
/// instruction.
pub proof fn lemma_fetched_jump_reg_cond_steps(s: Mach, r: u8, cond: u8, rel: bool)
    requires
        r < 16,
        cond < 16,
    ensures
        fetched(s, isa::enc_jump_reg_cond(isa::JRI, r, cond, rel)) ==> step(s) == step_of(
            s,
            Instr::JmpRegIf { target: r, cond, relative: rel },
        ),
        fetched(s, isa::enc_jump_reg_cond(isa::CRI, r, cond, rel)) ==> step(s) == step_of(
            s,
            Instr::CallRegIf { target: r, cond, relative: rel },
        ),
{
    isa::lemma_roundtrip_jump_reg_cond(r, cond, rel);
    if fetched(s, isa::enc_jump_reg_cond(isa::JRI, r, cond, rel)) {
        lemma_step_executes(s, isa::enc_jump_reg_cond(isa::JRI, r, cond, rel));
    }
    if fetched(s, isa::enc_jump_reg_cond(isa::CRI, r, cond, rel)) {
        lemma_step_executes(s, isa::enc_jump_reg_cond(isa::CRI, r, cond, rel));
    }
}

/// A fetched immediate jump or call word executes as its instruction.
pub proof fn lemma_fetched_jump_imm_steps(s: Mach, imm: u32, rel: bool)
    ensures
        fetched(s, isa::enc_jump_imm(isa::JMI, imm, rel)) ==> step(s) == step_of(
            s,
            Instr::JmpImm { target: imm, relative: rel },
        ),
        fetched(s, isa::enc_jump_imm(isa::CAI, imm, rel)) ==> step(s) == step_of(
            s,
            Instr::CallImm { target: imm, relative: rel },
        ),
{
    isa::lemma_roundtrip_jump_imm(imm, rel);
    if fetched(s, isa::enc_jump_imm(isa::JMI, imm, rel)) {
        lemma_step_executes(s, isa::enc_jump_imm(isa::JMI, imm, rel));
    }
    if fetched(s, isa::enc_jump_imm(isa::CAI, imm, rel)) {
        lemma_step_executes(s, isa::enc_jump_imm(isa::CAI, imm, rel));
    }
}

/// A fetched conditional immediate jump or call word executes as its
/// instruction.
pub proof fn lemma_fetched_jump_imm_cond_steps(s: Mach, imm: u32, cond: u8, rel: bool)
    requires
        cond < 16,
    ensures
        fetched(s, isa::enc_jump_imm_cond(isa::JII, imm, cond, rel)) ==> step(s) == step_of(
            s,
            Instr::JmpImmIf { target: imm, cond, relative: rel },
        ),
        fetched(s, isa::enc_jump_imm_cond(isa::CII, imm, cond, rel)) ==> step(s) == step_of(
            s,
            Instr::CallImmIf { target: imm, cond, relative: rel },
        ),
{
    isa::lemma_roundtrip_jump_imm_cond(imm, cond, rel);
    if fetched(s, isa::enc_jump_imm_cond(isa::JII, imm, cond, rel)) {
        lemma_step_executes(s, isa::enc_jump_imm_cond(isa::JII, imm, cond, rel));
    }
    if fetched(s, isa::enc_jump_imm_cond(isa::CII, imm, cond, rel)) {
        lemma_step_executes(s, isa::enc_jump_imm_cond(isa::CII, imm, cond, rel));
    }
}

/// A single halt instruction moves the machine from running to halted in
/// exactly one cycle with no other side effect: memory is untouched and no
/// register but the advanced program counter and the forced zero register
/// changes.
pub proof fn lemma_halt_stops(s: Mach)
    requires
        s.regs.len() == 16,
        mem_get(s.mem, regv(s, isa::RPC)) == isa::HLT,
    ensures
        step(s) == (Mach {
            regs: s.regs.update(isa::RPC as int, wrap_add(regv(s, isa::RPC), 6)).update(
                isa::RDS as int,
                0,
            ),
            mem: s.mem,
            running: false,
        }),
{
    assert(step(s) =~= (Mach {
        regs: s.regs.update(isa::RPC as int, wrap_add(regv(s, isa::RPC), 6)).update(
            isa::RDS as int,
            0,
        ),
        mem: s.mem,
        running: false,
    }));
}

/// A relative branch encoded as the distance from the following
/// instruction's address to the target lands exactly on the target, as long
/// as the distance fits in a signed 32-bit offset.  This is what makes a
/// forward branch to a label reach the label's address.
pub proof fn lemma_relative_target_exact(base: u32, dest: u32)
    requires
        dest >= base ==> dest - base < 0x8000_0000,
        dest < base ==> base - dest <= 0x8000_0000,
    ensures
        jump_dest(true, base, wrap_sub(dest, base)) == dest,
{
}

/// A fetched relative immediate jump whose offset is the distance from the
/// following instruction's address to a label leaves the program counter
/// equal to the label's address.
pub proof fn lemma_forward_branch_reaches_label(s: Mach, label: u32)
    requires
        s.regs.len() == 16,
        fetched(
            s,
            isa::enc_jump_imm(isa::JMI, wrap_sub(label, wrap_add(regv(s, isa::RPC), 6)), true),
        ),
        label >= wrap_add(regv(s, isa::RPC), 6) ==> label - wrap_add(regv(s, isa::RPC), 6)
            < 0x8000_0000,
        label < wrap_add(regv(s, isa::RPC), 6) ==> wrap_add(regv(s, isa::RPC), 6) - label
            <= 0x8000_0000,
    ensures
        regv(step(s), isa::RPC) == label,
{
    let pcadv = wrap_add(regv(s, isa::RPC), 6);
    let off = wrap_sub(label, pcadv);
    isa::lemma_roundtrip_jump_imm(off, true);
    lemma_step_executes(s, isa::enc_jump_imm(isa::JMI, off, true));
    lemma_relative_target_exact(pcadv, label);
    assert(regv(step_of(s, Instr::JmpImm { target: off, relative: true }), isa::RPC) == label);
}

} // verus!
