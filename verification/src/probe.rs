use rand::rngs::ThreadRng;
use rand::Rng;
use vstd::prelude::*;

verus! {

/// The registers that a probe compares before and after the single step.
#[derive(Clone, Debug, PartialEq, Eq, Default)]
pub struct RegisterSet {
    pub gpr: [u64; 32],
    pub lasx: [[u64; 4]; 32],
    pub lbt: [u64; 5],
    pub fcc: u64,
    pub fcsr: u32,
}

/// The registers before and after an instruction that changed some of them.
#[derive(Clone, Debug, PartialEq, Eq, Default)]
pub struct RegisterInfo {
    pub old: RegisterSet,
    pub new: RegisterSet,
}

/// What happened when the probed instruction was single-stepped.
#[derive(Clone, Debug, PartialEq, Eq)]
pub enum ProbeResult {
    IllegalInstruction,
    SegmentationFault,
    BusError,
    BinaryTranslationException,
    RegisterUnchaged,
    RegisterChanged(RegisterInfo),
}

/// A register value to set in place of a random one.
#[derive(Clone, Debug, PartialEq, Eq)]
pub enum RegisterPreset {
    GeneralRegister(usize, u64),
    LASXRegister(usize, [u64; 4]),
}

/// The registers that a probe hands to the child before the single step.
pub struct ProbeRegisters {
    pub gpr: [u64; 32],
    /// The program counter: the page that holds the probed instruction.
    pub era: u64,
    pub lasx: [[u64; 4]; 32],
}

/// The size of the instruction page and of the stack page of a probe.
pub const PROBE_PAGE_SIZE: usize = 16384;

/// The register of a preset exists.
pub open spec fn preset_in_range(p: RegisterPreset) -> bool {
    match p {
        RegisterPreset::GeneralRegister(i, _) => i < 32,
        RegisterPreset::LASXRegister(i, _) => i < 32,
    }
}

pub open spec fn presets_in_range(presets: Seq<RegisterPreset>) -> bool {
    forall|k: int| 0 <= k < presets.len() ==> #[trigger] preset_in_range(presets[k])
}

/// The general registers after the presets are applied in order to `base`.
pub open spec fn gpr_after_presets(base: Seq<u64>, presets: Seq<RegisterPreset>) -> Seq<u64>
    decreases presets.len(),
{
    if presets.len() == 0 {
        base
    } else {
        let before = gpr_after_presets(base, presets.drop_last());
        match presets.last() {
            RegisterPreset::GeneralRegister(i, v) => before.update(i as int, v),
            RegisterPreset::LASXRegister(_, _) => before,
        }
    }
}

/// The LASX registers after the presets are applied in order to `base`.
pub open spec fn lasx_after_presets(base: Seq<[u64; 4]>, presets: Seq<RegisterPreset>) -> Seq<
    [u64; 4],
>
    decreases presets.len(),
{
    if presets.len() == 0 {
        base
    } else {
        let before = lasx_after_presets(base, presets.drop_last());
        match presets.last() {
            RegisterPreset::GeneralRegister(_, _) => before,
            RegisterPreset::LASXRegister(i, v) => before.update(i as int, v),
        }
    }
}

/// The value that the last preset of general register `i` gives it, if any.
pub open spec fn last_gpr_preset(presets: Seq<RegisterPreset>, i: int) -> Option<u64>
    decreases presets.len(),
{
    if presets.len() == 0 {
        None
    } else {
        match presets.last() {
            RegisterPreset::GeneralRegister(j, v) if j == i => Some(v),
            _ => last_gpr_preset(presets.drop_last(), i),
        }
    }
}

/// The value that the last preset of LASX register `i` gives it, if any.
pub open spec fn last_lasx_preset(presets: Seq<RegisterPreset>, i: int) -> Option<[u64; 4]>
    decreases presets.len(),
{
    if presets.len() == 0 {
        None
    } else {
        match presets.last() {
            RegisterPreset::LASXRegister(j, v) if j == i => Some(v),
            _ => last_lasx_preset(presets.drop_last(), i),
        }
    }
}

/// The general registers that the child gets: `random` with the presets
/// applied, `r0` hard-wired to zero and the stack pointer `r3` on the stack
/// page.
pub open spec fn probe_gpr(random: Seq<u64>, presets: Seq<RegisterPreset>, stack_page: u64) -> Seq<
    u64,
> {
    gpr_after_presets(random, presets).update(0, 0).update(3, stack_page)
}

/// Applying the presets keeps the register count, and each register holds
/// the value of its last preset, or its old value where there is none.
pub proof fn lemma_gpr_after_presets(base: Seq<u64>, presets: Seq<RegisterPreset>, i: int)
    requires
        presets_in_range(presets),
        base.len() == 32,
        0 <= i < 32,
    ensures
        gpr_after_presets(base, presets).len() == 32,
        gpr_after_presets(base, presets)[i] == match last_gpr_preset(presets, i) {
            Some(v) => v,
            None => base[i],
        },
    decreases presets.len(),
{
    if presets.len() > 0 {
        let init = presets.drop_last();
        assert forall|k: int| 0 <= k < init.len() implies #[trigger] preset_in_range(init[k]) by {
            assert(init[k] == presets[k]);
        }
        assert(preset_in_range(presets[presets.len() - 1]));
        lemma_gpr_after_presets(base, init, i);
    }
}

/// The LASX counterpart of `lemma_gpr_after_presets`.
pub proof fn lemma_lasx_after_presets(base: Seq<[u64; 4]>, presets: Seq<RegisterPreset>, i: int)
    requires
        presets_in_range(presets),
        base.len() == 32,
        0 <= i < 32,
    ensures
        lasx_after_presets(base, presets).len() == 32,
        lasx_after_presets(base, presets)[i] == match last_lasx_preset(presets, i) {
            Some(v) => v,
            None => base[i],
        },
    decreases presets.len(),
{
    if presets.len() > 0 {
        let init = presets.drop_last();
        assert forall|k: int| 0 <= k < init.len() implies #[trigger] preset_in_range(init[k]) by {
            assert(init[k] == presets[k]);
        }
        assert(preset_in_range(presets[presets.len() - 1]));
        lemma_lasx_after_presets(base, init, i);
    }
}

/// Presets apply in order: with none, the registers stay as they are; a
/// further preset of a general register sets that register and no other, so
/// the last preset of a register decides its value; a LASX preset leaves the
/// general registers alone, and the other way round.
pub proof fn lemma_presets_apply_in_order(
    gpr: Seq<u64>,
    lasx: Seq<[u64; 4]>,
    presets: Seq<RegisterPreset>,
    p: RegisterPreset,
    j: int,
)
    requires
        presets_in_range(presets),
        preset_in_range(p),
        gpr.len() == 32,
        lasx.len() == 32,
        0 <= j < 32,
    ensures
        gpr_after_presets(gpr, Seq::empty()) == gpr,
        lasx_after_presets(lasx, Seq::empty()) == lasx,
        gpr_after_presets(gpr, presets.push(p))[j] == match p {
            RegisterPreset::GeneralRegister(i, v) => if j == i {
                v
            } else {
                gpr_after_presets(gpr, presets)[j]
            },
            RegisterPreset::LASXRegister(_, _) => gpr_after_presets(gpr, presets)[j],
        },
        lasx_after_presets(lasx, presets.push(p))[j] == match p {
            RegisterPreset::LASXRegister(i, v) => if j == i {
                v
            } else {
                lasx_after_presets(lasx, presets)[j]
            },
            RegisterPreset::GeneralRegister(_, _) => lasx_after_presets(lasx, presets)[j],
        },
{
    assert(presets.push(p).drop_last() =~= presets);
    lemma_gpr_after_presets(gpr, presets, j);
    lemma_lasx_after_presets(lasx, presets, j);
}

/// Sets up the registers of a probe from random values: the presets
/// override them in order, `r0` is zero, `r3` points to the stack page and
/// the program counter to the instruction page.
pub fn prepare_registers(
    random_gpr: [u64; 32],
    random_lasx: [[u64; 4]; 32],
    presets: &[RegisterPreset],
    inst_page: u64,
    stack_page: u64,
) -> (regs: ProbeRegisters)
    requires
        presets_in_range(presets@),
    ensures
        regs.gpr@ == probe_gpr(random_gpr@, presets@, stack_page),
        regs.lasx@ == lasx_after_presets(random_lasx@, presets@),
        regs.era == inst_page,
        regs.gpr@[0] == 0,
        regs.gpr@[3] == stack_page,
        forall|i: int|
            0 <= i < 32 && i != 0 && i != 3 ==> #[trigger] regs.gpr@[i] == match last_gpr_preset(
                presets@,
                i,
            ) {
                Some(v) => v,
                None => random_gpr@[i],
            },
        forall|i: int|
            0 <= i < 32 ==> #[trigger] regs.lasx@[i] == match last_lasx_preset(presets@, i) {
                Some(v) => v,
                None => random_lasx@[i],
            },
{
    let mut gpr = random_gpr;
    let mut lasx = random_lasx;
    let n = presets.len();
    let mut k: usize = 0;
    while k < n
        invariant
            n == presets@.len(),
            0 <= k <= n,
            presets_in_range(presets@),
            gpr@ == gpr_after_presets(random_gpr@, presets@.take(k as int)),
            lasx@ == lasx_after_presets(random_lasx@, presets@.take(k as int)),
        decreases n - k,
    {
        let ghost prefix = presets@.take(k as int);
        assert(presets@.take(k + 1).drop_last() =~= prefix);
        assert(preset_in_range(presets@[k as int]));
        match &presets[k] {
            RegisterPreset::GeneralRegister(index, value) => {
                gpr[*index] = *value;
            },
            RegisterPreset::LASXRegister(index, value) => {
                lasx[*index] = *value;
            },
        }
        k = k + 1;
    }
    assert(presets@.take(n as int) =~= presets@);
    gpr[0] = 0;
    gpr[3] = stack_page;
    assert forall|i: int| 0 <= i < 32 && i != 0 && i != 3 implies #[trigger] gpr@[i]
        == match last_gpr_preset(presets@, i) {
        Some(v) => v,
        None => random_gpr@[i],
    } by {
        lemma_gpr_after_presets(random_gpr@, presets@, i);
    }
    assert forall|i: int| 0 <= i < 32 implies #[trigger] lasx@[i] == match last_lasx_preset(
        presets@,
        i,
    ) {
        Some(v) => v,
        None => random_lasx@[i],
    } by {
        lemma_lasx_after_presets(random_lasx@, presets@, i);
    }
    ProbeRegisters { gpr, era: inst_page, lasx }
}

/// `rand::rngs::ThreadRng`: the random number generator of the current
/// thread, seeded by the system.
#[verifier::external_type_specification]
#[verifier::external_body]
pub struct ExThreadRng(ThreadRng);

/// `rand::thread_rng`. Nothing is stated of the generator that comes back.
#[verifier::external_body]
fn thread_rng() -> ThreadRng {
    rand::thread_rng()
}

/// `Rng::gen::<u64>` on the thread's generator: a random word; any value can
/// come back, so nothing is stated of it.
#[verifier::external_body]
fn random_u64(rng: &mut ThreadRng) -> u64 {
    rng.gen()
}

/// Random general and LASX registers, drawn as `r0`, `xr0`, `r1`, `xr1`, ...
/// and each LASX register lane by lane.
fn random_registers(rng: &mut ThreadRng) -> (r: ([u64; 32], [[u64; 4]; 32])) {
    let mut gpr: [u64; 32] = [0; 32];
    let mut lasx: [[u64; 4]; 32] = [[0; 4]; 32];
    for i in 0..32usize {
        let g = random_u64(rng);
        gpr[i] = g;
        let lanes = [random_u64(rng), random_u64(rng), random_u64(rng), random_u64(rng)];
        lasx[i] = lanes;
    }
    (gpr, lasx)
}

/// The registers for a probe: random values, overridden by the presets, with
/// `r0` zero, `r3` on the stack page and the program counter on the
/// instruction page. Registers that no preset names hold random values, of
/// which nothing is stated.
pub fn initial_registers(presets: &[RegisterPreset], inst_page: u64, stack_page: u64) -> (regs:
    ProbeRegisters)
    requires
        presets_in_range(presets@),
    ensures
        regs.gpr@.len() == 32,
        regs.lasx@.len() == 32,
        regs.gpr@[0] == 0,
        regs.gpr@[3] == stack_page,
        regs.era == inst_page,
        forall|i: int|
            0 <= i < 32 && i != 0 && i != 3 && #[trigger] last_gpr_preset(presets@, i) is Some
                ==> regs.gpr@[i] == last_gpr_preset(presets@, i)->0,
        forall|i: int|
            0 <= i < 32 && #[trigger] last_lasx_preset(presets@, i) is Some ==> regs.lasx@[i]
                == last_lasx_preset(presets@, i)->0,
{
    let mut rng = thread_rng();
    let (gpr, lasx) = random_registers(&mut rng);
    let regs = prepare_registers(gpr, lasx, presets, inst_page, stack_page);
    assert forall|i: int|
        0 <= i < 32 && i != 0 && i != 3 && #[trigger] last_gpr_preset(presets@, i) is Some
            implies regs.gpr@[i] == last_gpr_preset(presets@, i)->0 by {
        lemma_gpr_after_presets(gpr@, presets@, i);
    }
    assert forall|i: int| 0 <= i < 32 && #[trigger] last_lasx_preset(presets@, i) is Some implies regs.lasx@[i]
        == last_lasx_preset(presets@, i)->0 by {
        lemma_lasx_after_presets(lasx@, presets@, i);
    }
    proof {
        lemma_gpr_after_presets(gpr@, presets@, 0);
        lemma_lasx_after_presets(lasx@, presets@, 0);
    }
    regs
}

/// The bytes that fill a probe's stack page: byte `i` is `i + 1`, modulo 256.
pub fn stack_page_pattern() -> (page: Vec<u8>)
    ensures
        page@.len() == PROBE_PAGE_SIZE,
        forall|i: int| 0 <= i < PROBE_PAGE_SIZE ==> #[trigger] page@[i] == ((i + 1) % 256) as u8,
{
    let mut page: Vec<u8> = Vec::new();
    for i in 0..PROBE_PAGE_SIZE
        invariant
            page@.len() == i,
            forall|j: int| 0 <= j < i ==> #[trigger] page@[j] == ((j + 1) % 256) as u8,
    {
        page.push(((i + 1) % 256) as u8);
    }
    page
}

/// The signal numbers by which a probe tells how the single step ended.
#[derive(Clone, Copy, Debug, PartialEq, Eq)]
pub struct StopSignals {
    pub illegal_instruction: i32,
    pub segmentation_fault: i32,
    pub bus_error: i32,
    pub bad_system_call: i32,
    pub trap: i32,
}

/// `libc::SIGILL`, which libc defines as 4 on every target.
#[verifier::external_body]
fn sigill() -> (signal: i32)
    ensures
        signal == 4,
{
    libc::SIGILL
}

/// `libc::SIGSEGV`, which libc defines as 11 on every target.
#[verifier::external_body]
fn sigsegv() -> (signal: i32)
    ensures
        signal == 11,
{
    libc::SIGSEGV
}

/// `libc::SIGBUS`. Its number differs between targets: libc defines it as 7
/// (most Linux targets), 10 (MIPS and SPARC Linux, the BSDs, Solaris and
/// others) or 30 (Haiku); only that it is one of these is stated.
#[verifier::external_body]
fn sigbus() -> (signal: i32)
    ensures
        signal == 7 || signal == 10 || signal == 30,
{
    libc::SIGBUS
}

/// `libc::SIGSYS`. Its number differs between targets: libc defines it as 31
/// (most Linux targets), 12 (MIPS and SPARC Linux, the BSDs, Solaris and
/// others), 25 (Haiku) or 34 (VxWorks); only that it is one of these is
/// stated.
#[verifier::external_body]
fn sigsys() -> (signal: i32)
    ensures
        signal == 31 || signal == 12 || signal == 25 || signal == 34,
{
    libc::SIGSYS
}

/// `libc::SIGTRAP`. libc defines it as 5 on every target but Haiku, where it
/// is 22; only that it is one of these is stated.
#[verifier::external_body]
fn sigtrap() -> (signal: i32)
    ensures
        signal == 5 || signal == 22,
{
    libc::SIGTRAP
}

/// The numbers that libc may give the five stop signals on some target.
pub open spec fn libc_stop_signals(signals: StopSignals) -> bool {
    &&& signals.illegal_instruction == 4
    &&& signals.segmentation_fault == 11
    &&& signals.bus_error == 7 || signals.bus_error == 10 || signals.bus_error == 30
    &&& signals.bad_system_call == 31 || signals.bad_system_call == 12
        || signals.bad_system_call == 25 || signals.bad_system_call == 34
    &&& signals.trap == 5 || signals.trap == 22
}

/// The five stop signals are five different numbers, so each stop reads as
/// exactly one of them.
pub open spec fn distinct_stop_signals(signals: StopSignals) -> bool {
    &&& signals.illegal_instruction != signals.segmentation_fault
    &&& signals.illegal_instruction != signals.bus_error
    &&& signals.illegal_instruction != signals.bad_system_call
    &&& signals.illegal_instruction != signals.trap
    &&& signals.segmentation_fault != signals.bus_error
    &&& signals.segmentation_fault != signals.bad_system_call
    &&& signals.segmentation_fault != signals.trap
    &&& signals.bus_error != signals.bad_system_call
    &&& signals.bus_error != signals.trap
    &&& signals.bad_system_call != signals.trap
}

/// The signal numbers of this target, from libc: `SIGILL`, `SIGSEGV`,
/// `SIGBUS`, `SIGSYS` and `SIGTRAP`. `SIGILL` and `SIGSEGV` are the same on
/// every target; the others are one of the numbers that libc uses for them,
/// and the five differ.
pub fn stop_signals() -> (signals: StopSignals)
    ensures
        libc_stop_signals(signals),
        distinct_stop_signals(signals),
{
    StopSignals {
        illegal_instruction: sigill(),
        segmentation_fault: sigsegv(),
        bus_error: sigbus(),
        bad_system_call: sigsys(),
        trap: sigtrap(),
    }
}

/// A wait status, decoded: whether the child is stopped, and by which signal.
#[derive(Clone, Copy, Debug, PartialEq, Eq)]
pub struct WaitStop {
    pub stopped: bool,
    pub signal: i32,
}

/// Whether a wait status says that the child is stopped, as libc's
/// `WIFSTOPPED` decodes it for the target built for.
pub uninterp spec fn spec_wait_stopped(status: i32) -> bool;

/// The signal that stopped the child, as libc's `WSTOPSIG` decodes a wait
/// status for the target built for.
pub uninterp spec fn spec_wait_stop_signal(status: i32) -> i32;

/// `libc::WIFSTOPPED`. Its encoding belongs to the target (Linux, the BSDs,
/// Apple, Solaris and Haiku each have their own), so the result is named,
/// not spelt out: on a given build it depends on `status` alone.
#[verifier::external_body]
fn wait_stopped(status: i32) -> (stopped: bool)
    ensures
        stopped == spec_wait_stopped(status),
{
    libc::WIFSTOPPED(status)
}

/// `libc::WSTOPSIG`. Its encoding belongs to the target, so the result is
/// named, not spelt out: on a given build it depends on `status` alone.
#[verifier::external_body]
fn wait_stop_signal(status: i32) -> (signal: i32)
    ensures
        signal == spec_wait_stop_signal(status),
{
    libc::WSTOPSIG(status)
}

/// Decodes a wait status with libc's `WIFSTOPPED` and `WSTOPSIG`; the
/// functions below take the decoded values.
pub fn decode_wait_status(status: i32) -> (stop: WaitStop)
    ensures
        stop.stopped == spec_wait_stopped(status),
        stop.signal == spec_wait_stop_signal(status),
{
    WaitStop { stopped: wait_stopped(status), signal: wait_stop_signal(status) }
}

/// The signal is one that a probe knows how to read.
pub open spec fn known_stop_signal(signal: i32, signals: StopSignals) -> bool {
    ||| signal == signals.illegal_instruction
    ||| signal == signals.segmentation_fault
    ||| signal == signals.bus_error
    ||| signal == signals.bad_system_call
    ||| signal == signals.trap
}

/// What the stop signal says on its own: a fault, or `None` for the trap
/// after a completed step, after which the registers tell.
pub open spec fn stop_result(signal: i32, signals: StopSignals) -> Option<ProbeResult> {
    if signal == signals.illegal_instruction {
        Some(ProbeResult::IllegalInstruction)
    } else if signal == signals.segmentation_fault {
        Some(ProbeResult::SegmentationFault)
    } else if signal == signals.bus_error {
        Some(ProbeResult::BusError)
    } else if signal == signals.bad_system_call {
        Some(ProbeResult::BinaryTranslationException)
    } else {
        None
    }
}

/// With five different signal numbers, each of the five stops reads as its
/// own result: `SIGILL` as an illegal instruction, `SIGSEGV` as a
/// segmentation fault, `SIGBUS` as a bus error, `SIGSYS` as a binary
/// translation exception, and `SIGTRAP` as a completed step for the
/// registers to tell; every other signal is unknown to a probe.
pub proof fn lemma_stop_signals_read(signal: i32, signals: StopSignals)
    requires
        distinct_stop_signals(signals),
    ensures
        signal == signals.illegal_instruction ==> stop_result(signal, signals) == Some(
            ProbeResult::IllegalInstruction,
        ),
        signal == signals.segmentation_fault ==> stop_result(signal, signals) == Some(
            ProbeResult::SegmentationFault,
        ),
        signal == signals.bus_error ==> stop_result(signal, signals) == Some(ProbeResult::BusError),
        signal == signals.bad_system_call ==> stop_result(signal, signals) == Some(
            ProbeResult::BinaryTranslationException,
        ),
        signal == signals.trap ==> stop_result(signal, signals) is None && known_stop_signal(
            signal,
            signals,
        ),
        known_stop_signal(signal, signals) <==> (signal == signals.illegal_instruction || signal
            == signals.segmentation_fault || signal == signals.bus_error || signal
            == signals.bad_system_call || signal == signals.trap),
{
}

/// Whether a decoded wait status is one that `classify_stop` reads: the
/// child is stopped, by one of the probe's signals.
pub fn readable_stop(stop: &WaitStop, signals: &StopSignals) -> (ok: bool)
    ensures
        ok == (stop.stopped && known_stop_signal(stop.signal, *signals)),
        stop.stopped && stop.signal == signals.illegal_instruction ==> ok,
        stop.stopped && stop.signal == signals.segmentation_fault ==> ok,
        stop.stopped && stop.signal == signals.bus_error ==> ok,
        stop.stopped && stop.signal == signals.bad_system_call ==> ok,
        stop.stopped && stop.signal == signals.trap ==> ok,
        !stop.stopped ==> !ok,
        ok ==> stop.signal == signals.illegal_instruction || stop.signal
            == signals.segmentation_fault || stop.signal == signals.bus_error || stop.signal
            == signals.bad_system_call || stop.signal == signals.trap,
{
    let signal = stop.signal;
    stop.stopped && (signal == signals.illegal_instruction || signal == signals.segmentation_fault
        || signal == signals.bus_error || signal == signals.bad_system_call || signal
        == signals.trap)
}

/// Reads the signal that stopped the stepped child: the fault that it
/// raised, or `None` when it stopped at the trap after the step.
pub fn classify_stop(signal: i32, signals: &StopSignals) -> (r: Option<ProbeResult>)
    requires
        known_stop_signal(signal, *signals),
    ensures
        r == stop_result(signal, *signals),
        signal == signals.illegal_instruction ==> r == Some(ProbeResult::IllegalInstruction),
        distinct_stop_signals(*signals) ==> {
            &&& signal == signals.segmentation_fault ==> r == Some(ProbeResult::SegmentationFault)
            &&& signal == signals.bus_error ==> r == Some(ProbeResult::BusError)
            &&& signal == signals.bad_system_call ==> r == Some(
                ProbeResult::BinaryTranslationException,
            )
            &&& signal == signals.trap ==> r is None
        },
{
    if signal == signals.illegal_instruction {
        Some(ProbeResult::IllegalInstruction)
    } else if signal == signals.segmentation_fault {
        Some(ProbeResult::SegmentationFault)
    } else if signal == signals.bus_error {
        Some(ProbeResult::BusError)
    } else if signal == signals.bad_system_call {
        Some(ProbeResult::BinaryTranslationException)
    } else {
        None
    }
}

/// Probing a word that no opcode table knows reveals a hidden instruction
/// unless the CPU refused it as illegal.
pub fn reveals_hidden_instruction(result: &ProbeResult) -> (hidden: bool)
    ensures
        hidden == !(*result is IllegalInstruction),
{
    !matches!(result, ProbeResult::IllegalInstruction)
}

/// Two register sets hold the same values.
pub open spec fn same_registers(a: RegisterSet, b: RegisterSet) -> bool {
    &&& a.gpr@ == b.gpr@
    &&& a.lasx@ == b.lasx@
    &&& a.lbt@ == b.lbt@
    &&& a.fcc == b.fcc
    &&& a.fcsr == b.fcsr
}

fn words_equal(a: &[u64], b: &[u64]) -> (eq: bool)
    ensures
        eq == (a@ == b@),
{
    if a.len() != b.len() {
        return false;
    }
    let n = a.len();
    for i in 0..n
        invariant
            n == a@.len(),
            n == b@.len(),
            forall|j: int| 0 <= j < i ==> a@[j] == b@[j],
    {
        if a[i] != b[i] {
            return false;
        }
    }
    assert(a@ =~= b@);
    true
}

fn lasx_equal(a: &[[u64; 4]; 32], b: &[[u64; 4]; 32]) -> (eq: bool)
    ensures
        eq == (a@ == b@),
{
    for i in 0..32usize
        invariant
            forall|j: int| 0 <= j < i ==> a@[j] == b@[j],
    {
        if !words_equal(&a[i], &b[i]) {
            return false;
        }
        assert(a@[i as int]@ == b@[i as int]@);
        assert(a@[i as int] == b@[i as int]);
    }
    assert(a@ =~= b@);
    true
}

/// Two register sets hold the same values exactly when they are equal:
/// every general, LASX and LBT register, `fcc` and `fcsr` alike.
pub proof fn lemma_same_registers_is_equality(a: RegisterSet, b: RegisterSet)
    ensures
        same_registers(a, b) <==> a == b,
{
    if same_registers(a, b) {
        assert(a.gpr == b.gpr);
        assert(a.lasx == b.lasx);
        assert(a.lbt == b.lbt);
    }
}

/// The outcome of a completed step: the registers are unchanged, or changed
/// from `old` to `new`. It is `RegisterUnchaged` exactly when the two sets
/// are equal, and otherwise carries both sets.
pub fn register_outcome(old: RegisterSet, new: RegisterSet) -> (r: ProbeResult)
    ensures
        r == if same_registers(old, new) {
            ProbeResult::RegisterUnchaged
        } else {
            ProbeResult::RegisterChanged(RegisterInfo { old, new })
        },
        (r is RegisterUnchaged) <==> old == new,
        r is RegisterUnchaged || r == ProbeResult::RegisterChanged(RegisterInfo { old, new }),
{
    if words_equal(&old.gpr, &new.gpr) && lasx_equal(&old.lasx, &new.lasx) && words_equal(
        &old.lbt,
        &new.lbt,
    ) && old.fcc == new.fcc && old.fcsr == new.fcsr {
        proof {
            lemma_same_registers_is_equality(old, new);
        }
        ProbeResult::RegisterUnchaged
    } else {
        proof {
            lemma_same_registers_is_equality(old, new);
        }
        ProbeResult::RegisterChanged(RegisterInfo { old, new })
    }
}

} // verus!
