use la_inst::{
    register_fields, settag_result_consistent, x86settag_expectation, x86settag_inst,
    ProbeResult, RegisterInfo, SettagExpectation,
};

const VALUE: u64 = 0xab16cdef;

#[test]
fn encoding() {
    assert_eq!(x86settag_inst(0, 0, 1), 0x00580001);
    assert_eq!(x86settag_inst(3, 0x45, 1), 0x00580000 | (3 << 5) | (0x45 << 10) | 1);
    for i in [0u32, 1, 255, 256, 4095, 8191] {
        let imm1 = i >> 8;
        let imm2 = i & 255;
        let inst = x86settag_inst(imm1, imm2, 1);
        assert_eq!(register_fields(inst), (1, imm1, imm2 & 0x1f));
        assert_eq!((inst >> 10) & 0xff, imm2);
    }
}

#[test]
fn set_and_clear_flag_bits() {
    // bit 4 of 0xab16cdef is 0, bit 0 is 1
    assert_eq!(
        x86settag_expectation(0, 4, VALUE),
        SettagExpectation { throws: false, result: VALUE | 0x10 }
    );
    assert_eq!(
        x86settag_expectation(0, 0, VALUE),
        SettagExpectation { throws: true, result: VALUE }
    );
    assert_eq!(
        x86settag_expectation(1, 0, VALUE),
        SettagExpectation { throws: false, result: VALUE & !1 }
    );
    assert_eq!(
        x86settag_expectation(9, 4, VALUE),
        SettagExpectation { throws: true, result: VALUE }
    );
}

#[test]
fn tagged_operations() {
    // imm2 = 0o11: flag bit 1, tag bit 1; both set in 0xab16cdef
    assert_eq!(
        x86settag_expectation(2, 9, VALUE),
        SettagExpectation { throws: false, result: VALUE }
    );
    assert_eq!(
        x86settag_expectation(3, 9, VALUE),
        SettagExpectation { throws: false, result: VALUE & !2 }
    );
    assert_eq!(
        x86settag_expectation(4, 9, VALUE),
        SettagExpectation { throws: false, result: VALUE & !2 }
    );
    // imm2 = 0o20 + 0: tag bit 2 is set, flag bit 0 set
    assert_eq!(
        x86settag_expectation(4, 16, VALUE),
        SettagExpectation { throws: false, result: VALUE & !1 & !4 }
    );
    // tag bit 4 (imm2 & 63 = 32..39) is 0 in 0xab16cdef
    assert_eq!(
        x86settag_expectation(2, 32, VALUE),
        SettagExpectation { throws: true, result: VALUE }
    );
    // flag bit 4 clear
    assert_eq!(
        x86settag_expectation(3, 12, VALUE),
        SettagExpectation { throws: true, result: VALUE }
    );
    for op in 5..8 {
        assert_eq!(
            x86settag_expectation(op, 77, VALUE),
            SettagExpectation { throws: false, result: VALUE }
        );
    }
}

#[test]
fn consistency_of_probe_results() {
    let throws = SettagExpectation { throws: true, result: VALUE };
    assert!(settag_result_consistent(&ProbeResult::BinaryTranslationException, 1, VALUE, &throws));
    assert!(!settag_result_consistent(&ProbeResult::RegisterUnchaged, 1, VALUE, &throws));

    let stays = SettagExpectation { throws: false, result: VALUE };
    assert!(settag_result_consistent(&ProbeResult::RegisterUnchaged, 1, VALUE, &stays));
    assert!(!settag_result_consistent(&ProbeResult::BinaryTranslationException, 1, VALUE, &stays));
    assert!(!settag_result_consistent(&ProbeResult::IllegalInstruction, 1, VALUE, &stays));

    let changes = SettagExpectation { throws: false, result: VALUE | 0x10 };
    assert!(!settag_result_consistent(&ProbeResult::RegisterUnchaged, 1, VALUE, &changes));
    let mut info = RegisterInfo::default();
    info.old.gpr[1] = VALUE;
    info.new.gpr[1] = VALUE | 0x10;
    assert!(settag_result_consistent(
        &ProbeResult::RegisterChanged(info.clone()),
        1,
        VALUE,
        &changes
    ));
    assert!(!settag_result_consistent(&ProbeResult::RegisterChanged(info), 1, VALUE, &stays));
}

#[test]
fn set_then_clear_restores_the_register() {
    for imm2 in 0..256u32 {
        let set = x86settag_expectation(8, imm2, VALUE);
        if !set.throws {
            let clear = x86settag_expectation(17, imm2, set.result);
            assert!(!clear.throws);
            assert_eq!(clear.result, VALUE);
        }
    }
}

#[test]
fn an_exception_leaves_the_register_alone() {
    for imm1 in 0..32u32 {
        for imm2 in 0..256u32 {
            let e = x86settag_expectation(imm1, imm2, VALUE);
            if e.throws {
                assert_eq!(e.result, VALUE);
            }
        }
    }
}
