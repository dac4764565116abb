use vstd::prelude::*;

verus! {

/// The instructions of small programs over the LBT scratch registers.
/// `scr0`..`scr3` are the LBT registers 0 to 3.
#[derive(Clone, Copy, Debug, PartialEq, Eq)]
pub enum LbtOp {
    /// `pcaddi rd, si20`: `rd` = the instruction's address + `si20 * 4`.
    Pcaddi(usize, i32),
    /// `movgr2scr scrd, rj`: scratch register `scrd` = `rj`.
    Movgr2scr(usize, usize),
    /// `movscr2gr rd, scrj`: `rd` = scratch register `scrj`.
    Movscr2gr(usize, usize),
    /// `jiscr0 offs`: jump to `scr0` + `offs`.
    Jiscr0(i64),
    /// `li.d rd, imm`.
    LiD(usize, u64),
    /// `b offs`: jump to the instruction's address + `offs`.
    B(i64),
}

/// The state that these programs touch: program counter, general registers
/// and the five LBT registers.
#[derive(Clone, Copy, Debug, PartialEq, Eq)]
pub struct LbtMachine {
    pub pc: u64,
    pub gpr: [u64; 32],
    pub lbt: [u64; 5],
}

/// The machine state in mathematical form.
pub struct LbtMachineView {
    pub pc: u64,
    pub gpr: Seq<u64>,
    pub lbt: Seq<u64>,
}

impl View for LbtMachine {
    type V = LbtMachineView;

    open spec fn view(&self) -> LbtMachineView {
        LbtMachineView { pc: self.pc, gpr: self.gpr@, lbt: self.lbt@ }
    }
}

/// The registers that an instruction names exist: general registers below
/// 32, scratch registers below 4, and `si20` within its 20 bits.
pub open spec fn op_in_range(op: LbtOp) -> bool {
    match op {
        LbtOp::Pcaddi(rd, si20) => rd < 32 && -0x80000 <= si20 < 0x80000,
        LbtOp::Movgr2scr(scrd, rj) => scrd < 4 && rj < 32,
        LbtOp::Movscr2gr(rd, scrj) => rd < 32 && scrj < 4,
        LbtOp::Jiscr0(_) => true,
        LbtOp::LiD(rd, _) => rd < 32,
        LbtOp::B(_) => true,
    }
}

pub open spec fn program_in_range(program: Seq<LbtOp>) -> bool {
    forall|k: int| 0 <= k < program.len() ==> #[trigger] op_in_range(program[k])
}

/// A write to a general register; writes to `r0` are lost.
pub open spec fn write_gpr(gpr: Seq<u64>, rd: int, value: u64) -> Seq<u64> {
    if rd == 0 {
        gpr
    } else {
        gpr.update(rd, value)
    }
}

/// One instruction executed at `m.pc`.
pub open spec fn lbt_step(m: LbtMachineView, op: LbtOp) -> LbtMachineView {
    let next = m.pc.wrapping_add(4);
    match op {
        LbtOp::Pcaddi(rd, si20) => LbtMachineView {
            pc: next,
            gpr: write_gpr(m.gpr, rd as int, m.pc.wrapping_add_signed(((si20 as i64) * 4) as i64)),
            lbt: m.lbt,
        },
        LbtOp::Movgr2scr(scrd, rj) => LbtMachineView {
            pc: next,
            gpr: m.gpr,
            lbt: m.lbt.update(scrd as int, m.gpr[rj as int]),
        },
        LbtOp::Movscr2gr(rd, scrj) => LbtMachineView {
            pc: next,
            gpr: write_gpr(m.gpr, rd as int, m.lbt[scrj as int]),
            lbt: m.lbt,
        },
        LbtOp::Jiscr0(offs) => LbtMachineView {
            pc: m.lbt[0].wrapping_add_signed(offs),
            gpr: m.gpr,
            lbt: m.lbt,
        },
        LbtOp::LiD(rd, imm) => LbtMachineView {
            pc: next,
            gpr: write_gpr(m.gpr, rd as int, imm),
            lbt: m.lbt,
        },
        LbtOp::B(offs) => LbtMachineView { pc: m.pc.wrapping_add_signed(offs), gpr: m.gpr, lbt: m.lbt },
    }
}

/// The instruction of a program loaded at `base` that lies at `pc`, if any.
pub open spec fn fetch(program: Seq<LbtOp>, base: u64, pc: u64) -> Option<LbtOp> {
    if base <= pc && (pc - base) % 4 == 0 && (pc - base) / 4 < program.len() {
        Some(program[(pc - base) / 4])
    } else {
        None
    }
}

/// Runs the program loaded at `base` for at most `fuel` instructions, or
/// until the program counter leaves the program.
pub open spec fn lbt_run(program: Seq<LbtOp>, base: u64, m: LbtMachineView, fuel: nat) -> LbtMachineView
    decreases fuel,
{
    if fuel == 0 {
        m
    } else {
        match fetch(program, base, m.pc) {
            None => m,
            Some(op) => lbt_run(program, base, lbt_step(m, op), (fuel - 1) as nat),
        }
    }
}

/// What one instruction does, register by register: branches (`b`, `jiscr0`)
/// move the program counter to their target and change no register; every
/// other instruction moves it on by 4. `movgr2scr` changes exactly its
/// scratch register, to the general register's value; `pcaddi`, `movscr2gr`
/// and `li.d` change exactly their destination register (none when it is
/// `r0`), to the instruction's address plus four times the immediate, the
/// scratch register's value, or the immediate.
pub proof fn lemma_lbt_step_behaviour(m: LbtMachineView, op: LbtOp)
    requires
        op_in_range(op),
        m.gpr.len() == 32,
        m.lbt.len() == 5,
    ensures
        ({
            let r = lbt_step(m, op);
            &&& r.gpr.len() == 32
            &&& r.lbt.len() == 5
            &&& r.pc == match op {
                LbtOp::B(offs) => m.pc.wrapping_add_signed(offs),
                LbtOp::Jiscr0(offs) => m.lbt[0].wrapping_add_signed(offs),
                _ => m.pc.wrapping_add(4),
            }
            &&& r.gpr[0] == m.gpr[0]
            &&& forall|i: int|
                0 <= i < 32 && match op {
                    LbtOp::Pcaddi(rd, _) => i != rd,
                    LbtOp::Movscr2gr(rd, _) => i != rd,
                    LbtOp::LiD(rd, _) => i != rd,
                    _ => true,
                } ==> #[trigger] r.gpr[i] == m.gpr[i]
            &&& forall|i: int|
                0 <= i < 5 && match op {
                    LbtOp::Movgr2scr(scrd, _) => i != scrd,
                    _ => true,
                } ==> #[trigger] r.lbt[i] == m.lbt[i]
            &&& match op {
                LbtOp::Pcaddi(rd, si20) => rd != 0 ==> r.gpr[rd as int] == m.pc.wrapping_add_signed(
                    ((si20 as i64) * 4) as i64,
                ),
                LbtOp::Movgr2scr(scrd, rj) => r.lbt[scrd as int] == m.gpr[rj as int],
                LbtOp::Movscr2gr(rd, scrj) => rd != 0 ==> r.gpr[rd as int] == m.lbt[scrj as int],
                LbtOp::LiD(rd, imm) => rd != 0 ==> r.gpr[rd as int] == imm,
                _ => true,
            }
        }),
{
}

/// Executes one instruction.
pub fn lbt_execute(m: &LbtMachine, op: LbtOp) -> (r: LbtMachine)
    requires
        op_in_range(op),
    ensures
        r@ == lbt_step(m@, op),
        r.pc == match op {
            LbtOp::B(offs) => m.pc.wrapping_add_signed(offs),
            LbtOp::Jiscr0(offs) => m.lbt[0].wrapping_add_signed(offs),
            _ => m.pc.wrapping_add(4),
        },
        r.gpr[0] == m.gpr[0],
        match op {
            LbtOp::B(_) | LbtOp::Jiscr0(_) => r.gpr == m.gpr && r.lbt == m.lbt,
            _ => true,
        },
{
    let mut r = *m;
    let next = m.pc.wrapping_add(4);
    match op {
        LbtOp::Pcaddi(rd, si20) => {
            if rd != 0 {
                r.gpr[rd] = m.pc.wrapping_add_signed((si20 as i64) * 4);
            }
            r.pc = next;
        },
        LbtOp::Movgr2scr(scrd, rj) => {
            r.lbt[scrd] = m.gpr[rj];
            r.pc = next;
        },
        LbtOp::Movscr2gr(rd, scrj) => {
            if rd != 0 {
                r.gpr[rd] = m.lbt[scrj];
            }
            r.pc = next;
        },
        LbtOp::Jiscr0(offs) => {
            r.pc = m.lbt[0].wrapping_add_signed(offs);
        },
        LbtOp::LiD(rd, imm) => {
            if rd != 0 {
                r.gpr[rd] = imm;
            }
            r.pc = next;
        },
        LbtOp::B(offs) => {
            r.pc = m.pc.wrapping_add_signed(offs);
        },
    }
    assert(r@.gpr =~= lbt_step(m@, op).gpr);
    assert(r@.lbt =~= lbt_step(m@, op).lbt);
    proof {
        lemma_lbt_step_behaviour(m@, op);
        if op is B || op is Jiscr0 {
            assert(r.gpr@ =~= m.gpr@);
            assert(r.lbt@ =~= m.lbt@);
        }
    }
    r
}

/// Runs a program loaded at `base`, from the state `m`, for at most `fuel`
/// instructions or until the program counter leaves the program.
pub fn lbt_run_program(program: &[LbtOp], base: u64, m: LbtMachine, fuel: usize) -> (r: LbtMachine)
    requires
        program_in_range(program@),
    ensures
        r@ == lbt_run(program@, base, m@, fuel as nat),
{
    let mut cur = m;
    let mut left = fuel;
    while left > 0
        invariant
            program_in_range(program@),
            lbt_run(program@, base, m@, fuel as nat) == lbt_run(program@, base, cur@, left as nat),
        decreases left,
    {
        if cur.pc < base {
            return cur;
        }
        let offset = cur.pc - base;
        if offset % 4 != 0 || offset / 4 >= program.len() as u64 {
            return cur;
        }
        let index = (offset / 4) as usize;
        assert(fetch(program@, base, cur.pc) == Some(program@[index as int]));
        assert(op_in_range(program@[index as int]));
        cur = lbt_execute(&cur, program[index]);
        left = left - 1;
    }
    cur
}

/// A run executes, step by step, the instruction that the program counter
/// points to: the instruction `k` of a program loaded at `base` lies at
/// `base + 4 * k`.
pub proof fn lemma_lbt_run_step(program: Seq<LbtOp>, base: u64, m: LbtMachineView, fuel: nat, k: int)
    requires
        0 <= k < program.len(),
        m.pc == base + 4 * k,
    ensures
        lbt_run(program, base, m, fuel + 1) == lbt_run(
            program,
            base,
            lbt_step(m, program[k]),
            fuel,
        ),
{
    assert((m.pc - base) % 4 == 0 && (m.pc - base) / 4 == k);
    assert(fetch(program, base, m.pc) == Some(program[k]));
}

/// A run stops where the program counter leaves the program: below `base`,
/// past its last instruction, or between two instructions.
pub proof fn lemma_lbt_run_stops(program: Seq<LbtOp>, base: u64, m: LbtMachineView, fuel: nat)
    requires
        m.pc < base || m.pc >= base + 4 * program.len() || (m.pc - base) % 4 != 0,
    ensures
        lbt_run(program, base, m, fuel) == m,
{
    assert(fetch(program, base, m.pc) is None);
}

/// Moving a register to a scratch register and back gives its value again.
pub proof fn lemma_scratch_round_trip(m: LbtMachineView, scr: usize, rj: usize, rd: usize)
    requires
        scr < 4,
        rj < 32,
        0 < rd < 32,
        m.gpr.len() == 32,
        m.lbt.len() == 5,
    ensures
        lbt_step(lbt_step(m, LbtOp::Movgr2scr(scr, rj)), LbtOp::Movscr2gr(rd, scr)).gpr[rd as int]
            == m.gpr[rj as int],
{
}

/// `r0` stays zero whatever the program does.
pub proof fn lemma_zero_register_stays_zero(m: LbtMachineView, op: LbtOp)
    requires
        op_in_range(op),
        m.gpr.len() == 32,
        m.gpr[0] == 0,
    ensures
        lbt_step(m, op).gpr.len() == 32,
        lbt_step(m, op).gpr[0] == 0,
{
}

} // verus!
