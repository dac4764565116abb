use la_inst::{
    classify_stop, decode_wait_status, initial_registers, reveals_hidden_instruction, prepare_registers, readable_stop, register_outcome,
    stack_page_pattern, stop_signals, ProbeResult, RegisterInfo, RegisterPreset, RegisterSet,
    WaitStop, PROBE_PAGE_SIZE,
};

fn stopped_by(signal: i32) -> i32 {
    (signal << 8) | 0x7f
}

#[test]
fn presets_override_random_values_in_order() {
    let random_gpr: [u64; 32] = core::array::from_fn(|i| 100 + i as u64);
    let random_lasx: [[u64; 4]; 32] = core::array::from_fn(|i| [i as u64; 4]);
    let presets = [
        RegisterPreset::GeneralRegister(1, 0xab16cdef),
        RegisterPreset::LASXRegister(2, [1, 2, 3, 4]),
        RegisterPreset::GeneralRegister(1, 7),
        RegisterPreset::GeneralRegister(0, 55),
        RegisterPreset::GeneralRegister(3, 66),
        RegisterPreset::GeneralRegister(31, 9),
    ];
    let regs = prepare_registers(random_gpr, random_lasx, &presets, 0x4000, 0x8000);
    assert_eq!(regs.gpr[0], 0);
    assert_eq!(regs.gpr[1], 7);
    assert_eq!(regs.gpr[2], 102);
    assert_eq!(regs.gpr[3], 0x8000);
    assert_eq!(regs.gpr[31], 9);
    assert_eq!(regs.lasx[2], [1, 2, 3, 4]);
    assert_eq!(regs.lasx[5], [5; 4]);
    assert_eq!(regs.era, 0x4000);
}

#[test]
fn initial_registers_keep_presets_and_fixed_registers() {
    let presets = [
        RegisterPreset::GeneralRegister(1, 0xab16cdef),
        RegisterPreset::LASXRegister(0, [9, 8, 7, 6]),
    ];
    let regs = initial_registers(&presets, 0x1000, 0x2000);
    assert_eq!(regs.gpr[0], 0);
    assert_eq!(regs.gpr[1], 0xab16cdef);
    assert_eq!(regs.gpr[3], 0x2000);
    assert_eq!(regs.lasx[0], [9, 8, 7, 6]);
    assert_eq!(regs.era, 0x1000);
}

#[test]
fn stack_page_counts_up_from_one() {
    let page = stack_page_pattern();
    assert_eq!(page.len(), PROBE_PAGE_SIZE);
    assert_eq!(page[0], 1);
    assert_eq!(page[254], 255);
    assert_eq!(page[255], 0);
    assert_eq!(page[256], 1);
    assert_eq!(page[PROBE_PAGE_SIZE - 1], 0);
}

#[test]
fn stop_signals_come_from_libc() {
    let s = stop_signals();
    assert_eq!(s.illegal_instruction, libc::SIGILL);
    assert_eq!(s.segmentation_fault, libc::SIGSEGV);
    assert_eq!(s.bus_error, libc::SIGBUS);
    assert_eq!(s.bad_system_call, libc::SIGSYS);
    assert_eq!(s.trap, libc::SIGTRAP);
}

#[test]
fn stop_signals_are_classified() {
    let s = stop_signals();
    assert_eq!(s.illegal_instruction, 4);
    assert_eq!(s.segmentation_fault, 11);
    assert_eq!(classify_stop(libc::SIGILL, &s), Some(ProbeResult::IllegalInstruction));
    assert_eq!(classify_stop(libc::SIGSEGV, &s), Some(ProbeResult::SegmentationFault));
    assert_eq!(classify_stop(libc::SIGBUS, &s), Some(ProbeResult::BusError));
    assert_eq!(
        classify_stop(libc::SIGSYS, &s),
        Some(ProbeResult::BinaryTranslationException)
    );
    assert_eq!(classify_stop(libc::SIGTRAP, &s), None);
}

#[test]
fn wait_statuses_are_decoded_by_libc() {
    let stop = decode_wait_status(stopped_by(libc::SIGTRAP));
    assert_eq!(stop, WaitStop { stopped: true, signal: libc::SIGTRAP });
    assert!(!decode_wait_status(0).stopped);
    assert!(!decode_wait_status(libc::SIGKILL).stopped);
}

#[test]
fn unreadable_stops_are_recognised() {
    let s = stop_signals();
    let stopped = |signal| WaitStop { stopped: true, signal };
    assert!(readable_stop(&stopped(libc::SIGTRAP), &s));
    assert!(readable_stop(&stopped(libc::SIGILL), &s));
    // exited or killed: not stopped
    assert!(!readable_stop(&WaitStop { stopped: false, signal: libc::SIGTRAP }, &s));
    assert!(!readable_stop(&decode_wait_status(0), &s));
    // stopped by a signal that a probe does not expect
    assert!(!readable_stop(&stopped(libc::SIGUSR1), &s));
}

#[test]
fn unchanged_registers() {
    let regs = RegisterSet::default();
    assert_eq!(register_outcome(regs.clone(), regs), ProbeResult::RegisterUnchaged);
}

#[test]
fn changed_registers_are_kept() {
    let old = RegisterSet::default();
    let mut new = old.clone();
    new.lasx[7][3] = 1;
    assert_eq!(
        register_outcome(old.clone(), new.clone()),
        ProbeResult::RegisterChanged(RegisterInfo { old: old.clone(), new })
    );
    let mut new = old.clone();
    new.fcsr = 4;
    assert!(matches!(register_outcome(old.clone(), new), ProbeResult::RegisterChanged(_)));
    let mut new = old.clone();
    new.lbt[4] = 1 << 32;
    assert!(matches!(register_outcome(old.clone(), new), ProbeResult::RegisterChanged(_)));
    let mut new = old.clone();
    new.fcc = 1;
    assert!(matches!(register_outcome(old, new), ProbeResult::RegisterChanged(_)));
}

#[test]
fn only_illegal_instructions_stay_hidden() {
    assert!(!reveals_hidden_instruction(&ProbeResult::IllegalInstruction));
    assert!(reveals_hidden_instruction(&ProbeResult::SegmentationFault));
    assert!(reveals_hidden_instruction(&ProbeResult::RegisterUnchaged));
    assert!(reveals_hidden_instruction(&ProbeResult::BinaryTranslationException));
}

#[test]
fn stop_signals_differ() {
    let s = stop_signals();
    let all = [s.illegal_instruction, s.segmentation_fault, s.bus_error, s.bad_system_call, s.trap];
    for i in 0..5 {
        for j in 0..5 {
            assert_eq!(i == j, all[i] == all[j]);
        }
    }
}
