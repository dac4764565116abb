use la_inst::{fuzz_candidate, parse_opcode_table, inst_discovered, inst_legal_binutils, inst_matches_any, KNOWN_OPCODES};

#[test]
fn discovered_opcodes_are_recognised() {
    // frecipe.s $f0, $f1
    assert!(inst_discovered(0x01147420));
    // the lone fully specified word
    assert!(inst_discovered(0x06493000));
    assert!(!inst_discovered(0x06493001));
    // amcas.d with arbitrary registers
    assert!(inst_discovered(0x38598000 | (3 << 10) | (4 << 5) | 5));
    // addi.d is documented, not discovered
    assert!(!inst_discovered(0x02ffc063));
    assert!(!inst_discovered(0));
}

#[test]
fn every_known_value_matches_its_pattern() {
    for (value, _) in KNOWN_OPCODES {
        assert!(inst_discovered(value));
    }
}

#[test]
fn table_matching() {
    let table = [(0x02c00000, 0xffc00000), (0x00100000, 0xffff8000)];
    assert!(inst_matches_any(0x02ffc063, &table));
    assert!(inst_matches_any(0x00100c41, &table));
    assert!(!inst_matches_any(0x00108c41, &table));
    assert!(!inst_matches_any(0x02ffc063, &[]));
    assert!(inst_legal_binutils(0x02ffc063, &table));
    assert!(!inst_legal_binutils(0x00000000, &table));
}

#[test]
fn fuzz_probes_only_unknown_words() {
    let table = [(0x02c00000, 0xffc00000)];
    assert!(!fuzz_candidate(0x02ffc063, &table));
    assert!(!fuzz_candidate(0x01147400, &table));
    assert!(fuzz_candidate(0x00000000, &table));
}

#[test]
fn opcode_tables_are_read_from_text() {
    assert_eq!(
        parse_opcode_table("02c00000 ffc00000\n0x00100000\t0xFFFF8000\n"),
        Some(vec![(0x02c00000, 0xffc00000), (0x00100000, 0xffff8000)])
    );
    assert_eq!(parse_opcode_table(""), Some(vec![]));
    assert_eq!(parse_opcode_table("  \n "), Some(vec![]));
    assert_eq!(parse_opcode_table("1 2 3"), None);
    assert_eq!(parse_opcode_table("1 2g"), None);
    assert_eq!(parse_opcode_table("0x ff"), None);
    assert_eq!(parse_opcode_table("123456789 1"), None);
    assert_eq!(parse_opcode_table("ffffffff 0"), Some(vec![(0xffffffff, 0)]));
    assert_eq!(parse_opcode_table("zz 1 2 3"), None);
}
