use m0_32::assembler::{assemble, parse_immediate, parse_register, AsmErrorKind};
use m0_32::isa;

#[test]
fn register_names_map_to_indices() {
    assert_eq!(parse_register("rds"), Ok(isa::RDS));
    assert_eq!(parse_register("gr0"), Ok(isa::GR0));
    assert_eq!(parse_register("gr9"), Ok(isa::GR9));
    assert_eq!(parse_register("gr10"), Ok(isa::GRA));
    assert_eq!(parse_register("gra"), Ok(isa::GRA));
    assert_eq!(parse_register("gr11"), Ok(isa::GRB));
    assert_eq!(parse_register("grb"), Ok(isa::GRB));
    assert_eq!(parse_register("rsp"), Ok(isa::RSP));
    assert_eq!(parse_register("csp"), Ok(isa::CSP));
    assert_eq!(parse_register("rpc"), Ok(isa::RPC));
}

#[test]
fn register_names_are_case_insensitive() {
    assert_eq!(parse_register("GR5"), Ok(isa::GR5));
    assert_eq!(parse_register("Gr5"), Ok(isa::GR5));
    assert_eq!(parse_register("RPC"), Ok(isa::RPC));
}

#[test]
fn bad_register_names_are_rejected() {
    assert_eq!(parse_register("gr12"), Err(AsmErrorKind::InvalidRegister));
    assert_eq!(parse_register(""), Err(AsmErrorKind::InvalidRegister));
    assert_eq!(parse_register("r0"), Err(AsmErrorKind::InvalidRegister));
}

#[test]
fn decimal_immediates_parse() {
    assert_eq!(parse_immediate("0"), Ok(0));
    assert_eq!(parse_immediate("5"), Ok(5));
    assert_eq!(parse_immediate("4294967295"), Ok(0xFFFF_FFFF));
}

#[test]
fn radix_prefixed_immediates_parse() {
    assert_eq!(parse_immediate("0x10"), Ok(16));
    assert_eq!(parse_immediate("0xAb"), Ok(0xAB));
    assert_eq!(parse_immediate("0b101"), Ok(5));
    assert_eq!(parse_immediate("0o17"), Ok(15));
}

#[test]
fn character_immediates_parse() {
    assert_eq!(parse_immediate("'a'"), Ok(97));
    assert_eq!(parse_immediate("'0'"), Ok(48));
    assert_eq!(parse_immediate("'\\n'"), Ok(10));
    assert_eq!(parse_immediate("'\\t'"), Ok(9));
    assert_eq!(parse_immediate("'\\r'"), Ok(13));
    assert_eq!(parse_immediate("'\\\\'"), Ok(92));
    assert_eq!(parse_immediate("'\\''"), Ok(39));
}

#[test]
fn bad_immediates_are_rejected() {
    assert_eq!(parse_immediate(""), Err(AsmErrorKind::InvalidImmediate));
    assert_eq!(parse_immediate("abc"), Err(AsmErrorKind::InvalidImmediate));
    assert_eq!(parse_immediate("0x"), Err(AsmErrorKind::InvalidImmediate));
    assert_eq!(parse_immediate("0b2"), Err(AsmErrorKind::InvalidImmediate));
    assert_eq!(parse_immediate("0o8"), Err(AsmErrorKind::InvalidImmediate));
    assert_eq!(parse_immediate("4294967296"), Err(AsmErrorKind::InvalidImmediate));
    assert_eq!(parse_immediate("''"), Err(AsmErrorKind::InvalidImmediate));
    assert_eq!(parse_immediate("'ab'"), Err(AsmErrorKind::InvalidImmediate));
    assert_eq!(parse_immediate("'a"), Err(AsmErrorKind::InvalidImmediate));
    assert_eq!(parse_immediate("'\\x'"), Err(AsmErrorKind::InvalidImmediate));
}

#[test]
fn no_operand_words_encode() {
    assert_eq!(assemble("nop").unwrap(), vec![isa::NOP, 0, 0, 0, 0, 0]);
    assert_eq!(assemble("hlt").unwrap(), vec![isa::HLT, 0, 0, 0, 0, 0]);
    assert_eq!(assemble("ret").unwrap(), vec![isa::RET, 0, 0, 0, 0, 0]);
}

#[test]
fn three_register_words_encode() {
    // add gr2 gr0 gr1: dest 3 in the low nibble, src1 1 in the high nibble,
    // src2 2 in byte 2.
    assert_eq!(assemble("add gr2 gr0 gr1").unwrap(), vec![isa::ADD, 0x13, 0x02, 0, 0, 0]);
    assert_eq!(assemble("sub gr2 gr0 gr1").unwrap(), vec![isa::SUB, 0x13, 0x02, 0, 0, 0]);
    assert_eq!(assemble("muhu rpc rsp csp").unwrap(), vec![isa::MUHU, 0xDF, 0x0E, 0, 0, 0]);
}

#[test]
fn load_immediate_words_are_nibble_packed() {
    // imm 5 -> low nibble 5 beside dest gr0 (index 1).
    assert_eq!(assemble("ldi gr0 5").unwrap(), vec![isa::LDI, 0x51, 0x00, 0, 0, 0]);
    // imm 0xFFFFFFFF fills every nibble.
    assert_eq!(
        assemble("ldi gr0 -1").unwrap(),
        vec![isa::LDI, 0xF1, 0xFF, 0xFF, 0xFF, 0x0F]
    );
    // imm 0x12345678: bits 0..4 beside dest, bytes for bits 4..28, low
    // nibble of byte 5 for bits 28..32.
    assert_eq!(
        assemble("ldi gr1 0x12345678").unwrap(),
        vec![isa::LDI, 0x82, 0x67, 0x45, 0x23, 0x01]
    );
}

#[test]
fn immediate_add_words_are_byte_aligned() {
    // addi gr0 gr1 0x01020304: little-endian immediate in bytes 2-5.
    assert_eq!(
        assemble("addi gr0 gr1 0x01020304").unwrap(),
        vec![isa::ADDI, 0x21, 0x04, 0x03, 0x02, 0x01]
    );
    assert_eq!(
        assemble("subi gr0 gr1 2").unwrap(),
        vec![isa::SUBI, 0x21, 0x02, 0x00, 0x00, 0x00]
    );
}

#[test]
fn signed_immediates_fold_via_twos_complement() {
    assert_eq!(assemble("addi gr0 gr0 -1").unwrap()[2..6], [0xFF, 0xFF, 0xFF, 0xFF]);
    assert_eq!(assemble("addi gr0 gr0 +7").unwrap()[2..6], [7, 0, 0, 0]);
}

#[test]
fn jump_words_carry_the_relative_flag() {
    assert_eq!(assemble("jmr gr0").unwrap(), vec![isa::JMR, 0x01, 0, 0, 0, 0]);
    assert_eq!(assemble("jmr rel gr0").unwrap(), vec![isa::JMR, 0x11, 0, 0, 0, 0]);
    assert_eq!(assemble("car r gr1").unwrap(), vec![isa::CAR, 0x12, 0, 0, 0, 0]);
    assert_eq!(assemble("jri gr0 gr1").unwrap(), vec![isa::JRI, 0x21, 0, 0, 0, 0]);
    assert_eq!(assemble("jri relative gr0 gr1").unwrap(), vec![isa::JRI, 0x21, 1, 0, 0, 0]);
    assert_eq!(assemble("jmi 16").unwrap(), vec![isa::JMI, 16, 0, 0, 0, 0]);
    assert_eq!(assemble("jmi REL -6").unwrap(), vec![isa::JMI, 0xFA, 0xFF, 0xFF, 0xFF, 1]);
    assert_eq!(assemble("jii 16 gr0").unwrap(), vec![isa::JII, 16, 0, 0, 0, 0x01]);
    assert_eq!(assemble("cii R 16 gr0").unwrap(), vec![isa::CII, 16, 0, 0, 0, 0x11]);
}

#[test]
fn mnemonics_are_case_insensitive() {
    assert_eq!(assemble("NOP").unwrap(), vec![isa::NOP, 0, 0, 0, 0, 0]);
    assert_eq!(assemble("Add gr2 gr0 gr1").unwrap(), assemble("add gr2 gr0 gr1").unwrap());
    assert_eq!(assemble("LDI GR0 5").unwrap(), assemble("ldi gr0 5").unwrap());
}

#[test]
fn comments_and_blank_lines_emit_nothing() {
    let src = "; a comment line\n\nnop ; trailing comment\n   \nhlt";
    assert_eq!(
        assemble(src).unwrap(),
        vec![isa::NOP, 0, 0, 0, 0, 0, isa::HLT, 0, 0, 0, 0, 0]
    );
}

#[test]
fn forward_label_resolves_to_relative_distance() {
    // The branch at address 0 targets the label at address 12; the encoded
    // offset is the distance from the following instruction (address 6).
    let b = assemble("jmi rel fwd\nnop\nfwd: hlt").unwrap();
    assert_eq!(&b[0..6], &[isa::JMI, 6, 0, 0, 0, 1]);
    assert_eq!(b.len(), 18);
}

#[test]
fn backward_label_resolves_to_negative_distance() {
    // The branch at address 6 targets the label at address 0: distance
    // 0 - 12 = -12 in two's complement.
    let b = assemble("top: nop\njmi rel top\nhlt").unwrap();
    assert_eq!(&b[6..12], &[isa::JMI, 0xF4, 0xFF, 0xFF, 0xFF, 1]);
}

#[test]
fn label_only_lines_do_not_advance_the_counter() {
    // Both labels bind address 6, the address of the hlt.
    let with_own_line = assemble("nop\nhere:\njmi rel here\nhlt").unwrap();
    let sharing = assemble("nop\nhere: jmi rel here\nhlt").unwrap();
    assert_eq!(with_own_line, sharing);
}

#[test]
fn later_label_definition_wins() {
    let b = assemble("x: nop\nx: nop\njmi rel x\nhlt").unwrap();
    // x rebinds to address 6; the branch at 12 encodes 6 - 18 = -12.
    assert_eq!(&b[12..18], &[isa::JMI, 0xF4, 0xFF, 0xFF, 0xFF, 1]);
}

#[test]
fn wrong_operand_count_reports_the_line() {
    // A known mnemonic missing one operand fails assembly, citing the
    // offending line and "invalid operand count".
    let e = assemble("add gr0 gr1").unwrap_err();
    assert_eq!(e.line, 1);
    assert_eq!(e.kind, AsmErrorKind::InvalidOperandCount);
    assert_eq!(e.kind.message(), "invalid operand count");

    let e = assemble("nop\nnop\nadd gr0 gr1\nhlt").unwrap_err();
    assert_eq!(e.line, 3);
    assert_eq!(e.kind, AsmErrorKind::InvalidOperandCount);
}

#[test]
fn unknown_mnemonic_reports_the_line() {
    let e = assemble("nop\nfrobnicate gr0\nhlt").unwrap_err();
    assert_eq!(e.line, 2);
    assert_eq!(e.kind, AsmErrorKind::UnrecognizedInstruction);
}

#[test]
fn bad_register_operand_reports_the_line() {
    let e = assemble("add gr0 gr1 gr99").unwrap_err();
    assert_eq!(e.line, 1);
    assert_eq!(e.kind, AsmErrorKind::InvalidRegister);
}

#[test]
fn bad_immediate_operand_reports_the_line() {
    let e = assemble("ldi gr0 zz").unwrap_err();
    assert_eq!(e.line, 1);
    assert_eq!(e.kind, AsmErrorKind::InvalidImmediate);
}

#[test]
fn unresolved_jump_target_reports_the_line() {
    let e = assemble("jmi rel nowhere").unwrap_err();
    assert_eq!(e.line, 1);
    assert_eq!(e.kind, AsmErrorKind::InvalidJumpTarget);
}

#[test]
fn missing_rel_flag_reports_the_line() {
    let e = assemble("jmr gr0 gr1").unwrap_err();
    assert_eq!(e.line, 1);
    assert_eq!(e.kind, AsmErrorKind::ExpectedRegisterOrRelFlag);
}

#[test]
fn assembly_stops_at_the_first_error() {
    let e = assemble("bogus\nadd gr0 gr1\n").unwrap_err();
    assert_eq!(e.line, 1);
    assert_eq!(e.kind, AsmErrorKind::UnrecognizedInstruction);
}

#[test]
fn every_instruction_occupies_six_bytes() {
    let b = assemble("nop\nldi gr0 1\nadd gr0 gr0 gr0\ninc gr0\npb gr0\nret").unwrap();
    assert_eq!(b.len(), 36);
}

#[test]
fn empty_source_assembles_to_nothing() {
    assert_eq!(assemble("").unwrap(), Vec::<u8>::new());
    assert_eq!(assemble("\n\n; only comments\n").unwrap(), Vec::<u8>::new());
}
