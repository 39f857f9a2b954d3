use m0_32::assembler::assemble;
use m0_32::isa;
use m0_32::machine::{LoadError, CSP_INIT, PROG_BASE, RSP_INIT};
use m0_32::M0_32;

fn run_program(src: &str) -> M0_32 {
    let bytes = assemble(src).unwrap();
    let mut m = M0_32::new();
    m.load_program(&bytes).unwrap();
    m.run();
    m
}

#[test]
fn a_new_machine_is_halted_at_the_load_base() {
    let m = M0_32::new();
    assert!(!m.is_running());
    assert_eq!(m.register(isa::RPC), PROG_BASE);
    assert_eq!(m.register(isa::RSP), RSP_INIT);
    assert_eq!(m.register(isa::CSP), CSP_INIT);
    for i in 0..13 {
        assert_eq!(m.register(i), 0);
    }
}

#[test]
fn reading_past_the_register_file_yields_zero() {
    let m = M0_32::new();
    assert_eq!(m.register(16), 0);
    assert_eq!(m.register(255), 0);
}

#[test]
fn oversized_programs_are_rejected_before_any_cycle() {
    // A binary larger than 1 GiB is rejected before any cycle runs.
    let mut m = M0_32::new();
    let big = vec![0u8; 0x4000_0001];
    assert_eq!(m.load_program(&big), Err(LoadError::ProgramTooLarge));
    assert!(!m.is_running());
    drop(big);
    // A small program still loads and runs afterwards.
    let bytes = assemble("hlt").unwrap();
    assert_eq!(m.load_program(&bytes), Ok(()));
    m.run();
    assert!(!m.is_running());
}

#[test]
fn a_single_halt_stops_after_exactly_one_cycle() {
    // A single halt instruction moves the machine from running to halted
    // in exactly one cycle with no other side effect.
    let bytes = assemble("hlt").unwrap();
    let mut m = M0_32::new();
    m.load_program(&bytes).unwrap();
    m.cycle();
    assert!(!m.is_running());
    assert_eq!(m.register(isa::RPC), PROG_BASE.wrapping_add(6));
    for i in 0..13 {
        assert_eq!(m.register(i), 0);
    }
    assert_eq!(m.register(isa::RSP), RSP_INIT);
    assert_eq!(m.register(isa::CSP), CSP_INIT);
}

#[test]
fn add_program_computes_twelve() {
    let m = run_program("ldi gr0 5\nldi gr1 7\nadd gr2 gr0 gr1\nhlt");
    assert_eq!(m.register(isa::GR2), 12);
}

#[test]
fn countdown_loop_reaches_zero() {
    // A decrement/branch-while-nonzero loop counts gr0 down from 10.
    let m = run_program("ldi gr0 10\nloop: dec gr0\njii rel loop gr0\nhlt");
    assert_eq!(m.register(isa::GR0), 0);
    assert!(!m.is_running());
}

#[test]
fn word_store_load_round_trips_all_ones() {
    // A word store then a word load round-trips the bit pattern
    // 0xFFFFFFFF.
    let m = run_program("ldi gr0 -1\nldi gr1 2048\nsw gr1 gr0\nlw gr2 gr1\nhlt");
    assert_eq!(m.register(isa::GR2), 0xFFFF_FFFF);
}

#[test]
fn zero_register_reads_zero_even_as_destination() {
    let m = run_program("ldi rds 5\nadd rds gr0 gr1\nhlt");
    assert_eq!(m.register(isa::RDS), 0);
}

#[test]
fn add_and_subtract_wrap_modulo_two_to_the_32() {
    let m = run_program("ldi gr0 -1\nldi gr1 1\nadd gr2 gr0 gr1\nsub gr3 gr1 gr0\nhlt");
    assert_eq!(m.register(isa::GR2), 0); // 0xFFFFFFFF + 1
    assert_eq!(m.register(isa::GR3), 2); // 1 - (-1)
    let m = run_program("ldi gr0 0\nldi gr1 1\nsub gr2 gr0 gr1\nhlt");
    assert_eq!(m.register(isa::GR2), 0xFFFF_FFFF); // 0 - 1
}

#[test]
fn forward_branch_lands_on_the_label() {
    // A forward branch to a label defined later leaves the program counter
    // equal to the label's address.
    let bytes = assemble("jmi rel fwd\nnop\nfwd: hlt").unwrap();
    let mut m = M0_32::new();
    m.load_program(&bytes).unwrap();
    m.cycle();
    assert_eq!(m.register(isa::RPC), PROG_BASE.wrapping_add(12));
}

#[test]
fn bitwise_operations_compute() {
    let m = run_program(
        "ldi gr0 0b1100\nldi gr1 0b1010\nbor gr2 gr0 gr1\nband gr3 gr0 gr1\nbxor gr4 gr0 gr1\nbnot gr5 gr0\nhlt",
    );
    assert_eq!(m.register(isa::GR2), 0b1110);
    assert_eq!(m.register(isa::GR3), 0b1000);
    assert_eq!(m.register(isa::GR4), 0b0110);
    assert_eq!(m.register(isa::GR5), !0b1100u32);
}

#[test]
fn logical_operations_coerce_to_zero_or_one() {
    let m = run_program(
        "ldi gr0 7\nldi gr1 0\nlor gr2 gr0 gr1\nland gr3 gr0 gr1\nlxor gr4 gr0 gr1\nlnot gr5 gr1\nlnot gr6 gr0\nhlt",
    );
    assert_eq!(m.register(isa::GR2), 1);
    assert_eq!(m.register(isa::GR3), 0);
    assert_eq!(m.register(isa::GR4), 1);
    assert_eq!(m.register(isa::GR5), 1);
    assert_eq!(m.register(isa::GR6), 0);
}

#[test]
fn comparisons_write_zero_or_one() {
    let m = run_program(
        "ldi gr0 3\nldi gr1 5\neq gr2 gr0 gr1\nne gr3 gr0 gr1\ngt gr4 gr0 gr1\nlt gr5 gr0 gr1\nge gr6 gr1 gr1\nle gr7 gr1 gr0\nhlt",
    );
    assert_eq!(m.register(isa::GR2), 0);
    assert_eq!(m.register(isa::GR3), 1);
    assert_eq!(m.register(isa::GR4), 0);
    assert_eq!(m.register(isa::GR5), 1);
    assert_eq!(m.register(isa::GR6), 1);
    assert_eq!(m.register(isa::GR7), 0);
}

#[test]
fn byte_loads_extend_sign_or_zero() {
    let m = run_program(
        "ldi gr1 4096\nldi gr0 255\nsb gr1 gr0\nlbs gr2 gr1\nlbu gr3 gr1\nhlt",
    );
    assert_eq!(m.register(isa::GR2), 0xFFFF_FFFF);
    assert_eq!(m.register(isa::GR3), 255);
}

#[test]
fn untouched_memory_reads_zero() {
    let m = run_program("ldi gr1 99999\nlw gr2 gr1\nlbu gr3 gr1\nhlt");
    assert_eq!(m.register(isa::GR2), 0);
    assert_eq!(m.register(isa::GR3), 0);
}

#[test]
fn increment_decrement_and_immediates() {
    let m = run_program(
        "ldi gr0 10\ninc gr0\ninc gr0\ndec gr0\naddi gr1 gr0 100\nsubi gr2 gr1 11\nhlt",
    );
    assert_eq!(m.register(isa::GR0), 11);
    assert_eq!(m.register(isa::GR1), 111);
    assert_eq!(m.register(isa::GR2), 100);
}

#[test]
fn increment_wraps_at_the_top() {
    let m = run_program("ldi gr0 -1\ninc gr0\nhlt");
    assert_eq!(m.register(isa::GR0), 0);
}

#[test]
fn multiply_divide_remainder_compute() {
    let m = run_program(
        "ldi gr0 7\nldi gr1 3\nmul gr2 gr0 gr1\ndiv gr3 gr0 gr1\nrem gr4 gr0 gr1\nhlt",
    );
    assert_eq!(m.register(isa::GR2), 21);
    assert_eq!(m.register(isa::GR3), 2);
    assert_eq!(m.register(isa::GR4), 1);
}

#[test]
fn division_by_zero_yields_zero() {
    let m = run_program("ldi gr0 7\ndiv gr2 gr0 gr1\nrem gr3 gr0 gr1\nhlt");
    assert_eq!(m.register(isa::GR2), 0);
    assert_eq!(m.register(isa::GR3), 0);
}

#[test]
fn multiply_wraps_modulo_two_to_the_32() {
    let m = run_program("ldi gr0 0x10000\nldi gr1 0x10001\nmul gr2 gr0 gr1\nhlt");
    // 0x10000 * 0x10001 = 0x1_0001_0000, truncated to 0x0001_0000.
    assert_eq!(m.register(isa::GR2), 0x1_0000);
}

#[test]
fn high_half_multiplies_compute() {
    let m = run_program("ldi gr0 -1\nldi gr1 2\nmuhs gr2 gr0 gr1\nmuhu gr3 gr0 gr1\nhlt");
    // Signed: -1 * 2 = -2, whose high half is all ones.
    assert_eq!(m.register(isa::GR2), 0xFFFF_FFFF);
    // Unsigned: 0xFFFFFFFF * 2 = 0x1_FFFF_FFFE, high half 1.
    assert_eq!(m.register(isa::GR3), 1);
}

#[test]
fn shifts_and_rotates_take_counts_modulo_32() {
    let m = run_program(
        "ldi gr0 1\nldi gr1 33\nshl gr2 gr0 gr1\nldi gr3 0x80000001\nldi gr4 1\nrotl gr5 gr3 gr4\nrotr gr6 gr3 gr4\nlshr gr7 gr3 gr4\nashr gr8 gr3 gr4\nhlt",
    );
    assert_eq!(m.register(isa::GR2), 2); // shift count 33 acts as 1
    assert_eq!(m.register(isa::GR5), 3); // rotl(0x80000001, 1)
    assert_eq!(m.register(isa::GR6), 0xC000_0000); // rotr(0x80000001, 1)
    assert_eq!(m.register(isa::GR7), 0x4000_0000); // logical shift right
    assert_eq!(m.register(isa::GR8), 0xC000_0000); // arithmetic shift right
}

#[test]
fn data_stack_word_round_trips() {
    let m = run_program("ldi gr0 0x1234ABCD\npw gr0\npow gr1\nhlt");
    assert_eq!(m.register(isa::GR1), 0x1234_ABCD);
    assert_eq!(m.register(isa::RSP), RSP_INIT);
}

#[test]
fn data_stack_bytes_extend_on_pop() {
    let m = run_program("ldi gr0 200\npb gr0\npobs gr1\nldi gr2 200\npb gr2\npobu gr3\nhlt");
    // 200 = 0xC8 has its top bit set: signed pop extends it.
    assert_eq!(m.register(isa::GR1), 0xFFFF_FFC8);
    assert_eq!(m.register(isa::GR3), 200);
}

#[test]
fn call_and_return_round_trip() {
    let m = run_program("cai rel fn\nhlt\nfn: ldi gr0 42\nret");
    assert_eq!(m.register(isa::GR0), 42);
    assert_eq!(m.register(isa::CSP), CSP_INIT);
    assert!(!m.is_running());
}

#[test]
fn conditional_calls_and_jumps_are_noops_when_clear() {
    let m = run_program("cri gr1 gr0\njri gr1 gr0\ncii rel fn gr0\njii rel fn gr0\nhlt\nfn: ldi gr2 1\nret");
    // gr0 is 0 throughout, so none of the four conditionals fires.
    assert_eq!(m.register(isa::GR2), 0);
    assert_eq!(m.register(isa::CSP), CSP_INIT);
}

#[test]
fn absolute_register_jump_sets_the_counter() {
    // gr1 holds the absolute address of the final hlt (base + 18).
    let m = run_program("ldi gr1 0xC0000012\njmr gr1\nnop\nhlt");
    assert_eq!(m.register(isa::RPC), PROG_BASE.wrapping_add(24));
}

#[test]
fn unknown_opcodes_are_silent_noops() {
    let mut m = M0_32::new();
    // An unassigned opcode, then a halt.
    let mut bytes = vec![0xEE, 0, 0, 0, 0, 0];
    bytes.extend_from_slice(&[isa::HLT, 0, 0, 0, 0, 0]);
    m.load_program(&bytes).unwrap();
    m.run();
    assert!(!m.is_running());
    assert_eq!(m.register(isa::RPC), PROG_BASE.wrapping_add(12));
    for i in 0..13 {
        assert_eq!(m.register(i), 0);
    }
}

#[test]
fn float_opcodes_are_noops_in_the_integer_engine() {
    let mut m = M0_32::new();
    let mut bytes = assemble("fadd gr2 gr0 gr1").unwrap();
    bytes.extend(assemble("hlt").unwrap());
    m.load_program(&bytes).unwrap();
    m.run();
    assert_eq!(m.register(isa::GR2), 0);
}

#[test]
fn program_counter_is_an_ordinary_arithmetic_target() {
    // Reading rpc after the advance sees the next instruction's address.
    let m = run_program("add gr0 rpc rds\nhlt");
    assert_eq!(m.register(isa::GR0), PROG_BASE.wrapping_add(6));
}
