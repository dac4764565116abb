use la_inst::{lbt_execute, lbt_run_program, LbtMachine, LbtOp};

const BASE: u64 = 0x1_2000_0000;

fn machine() -> LbtMachine {
    LbtMachine { pc: BASE, gpr: [0; 32], lbt: [0; 5] }
}

#[test]
fn test_scratch() {
    // copy registers to scratch
    let a: u64 = 1;
    let mut m = machine();
    m.gpr[12] = a;
    let program = [LbtOp::Movgr2scr(0, 12), LbtOp::Movscr2gr(13, 0)];
    let r = lbt_run_program(&program, BASE, m, 2);
    let b = r.gpr[13];
    assert_eq!(a, b);
}

#[test]
fn test_jiscr() {
    // test jiscr
    let program = [
        LbtOp::Pcaddi(12, 0),
        LbtOp::Movgr2scr(0, 12),
        LbtOp::Jiscr0(20), // jump to li.d {b}, 2 below
        LbtOp::LiD(13, 1),
        LbtOp::B(8), // skip li.d {b}, 2 below
        LbtOp::LiD(13, 2),
    ];
    let r = lbt_run_program(&program, BASE, machine(), 16);
    let b: u64 = r.gpr[13];
    assert_eq!(b, 2);
}

#[test]
fn scratch_move_writes_only_the_named_scratch_register() {
    let mut m = machine();
    m.gpr[5] = 0xdead_beef;
    let r = lbt_execute(&m, LbtOp::Movgr2scr(2, 5));
    assert_eq!(r.lbt, [0, 0, 0xdead_beef, 0, 0]);
    assert_eq!(r.pc, BASE + 4);
}

#[test]
fn writes_to_r0_are_lost() {
    let mut m = machine();
    m.lbt[1] = 7;
    let r = lbt_execute(&m, LbtOp::Movscr2gr(0, 1));
    assert_eq!(r.gpr[0], 0);
    let r = lbt_execute(&r, LbtOp::LiD(0, 9));
    assert_eq!(r.gpr[0], 0);
}

#[test]
fn pcaddi_adds_four_times_the_immediate() {
    let r = lbt_execute(&machine(), LbtOp::Pcaddi(4, -3));
    assert_eq!(r.gpr[4], BASE - 12);
    let r = lbt_execute(&machine(), LbtOp::Pcaddi(4, 5));
    assert_eq!(r.gpr[4], BASE + 20);
}

#[test]
fn run_stops_when_leaving_the_program_or_out_of_fuel() {
    let program = [LbtOp::LiD(1, 1), LbtOp::LiD(2, 2), LbtOp::LiD(3, 3)];
    let r = lbt_run_program(&program, BASE, machine(), 2);
    assert_eq!((r.gpr[1], r.gpr[2], r.gpr[3]), (1, 2, 0));
    assert_eq!(r.pc, BASE + 8);
    let r = lbt_run_program(&program, BASE, machine(), 100);
    assert_eq!((r.gpr[1], r.gpr[2], r.gpr[3]), (1, 2, 3));
    assert_eq!(r.pc, BASE + 12);
}
