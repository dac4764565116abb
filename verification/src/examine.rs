use crate::probe::{same_registers, RegisterInfo, RegisterSet};
use colored::Colorize;
use vstd::string::StringSliceAdditionalSpecFns;
use vstd::prelude::*;

verus! {

/// The register fields of an instruction word: `rd` in bits 0..5, `rj` in
/// bits 5..10 and `rk` in bits 10..15.
pub fn register_fields(inst: u32) -> (fields: (u32, u32, u32))
    ensures
        fields.0 == inst & 0x1f,
        fields.1 == (inst >> 5) & 0x1f,
        fields.2 == (inst >> 10) & 0x1f,
        fields.0 < 32 && fields.1 < 32 && fields.2 < 32,
{
    let rd = inst & 0x1f;
    let rj = (inst >> 5) & 0x1f;
    let rk = (inst >> 10) & 0x1f;
    assert(inst & 0x1f < 32 && (inst >> 5) & 0x1f < 32 && (inst >> 10) & 0x1f < 32) by (bit_vector);
    (rd, rj, rk)
}

/// A register whose value a step changed.
#[derive(Clone, Copy, Debug, PartialEq, Eq)]
pub enum ChangedRegister {
    Gpr(usize),
    Lasx(usize),
    Lbt(usize),
}

/// The indices in `lo..hi` where `a` and `b` differ, in increasing order.
pub open spec fn changed_indices<T>(a: Seq<T>, b: Seq<T>, lo: int, hi: int) -> Seq<usize>
    decreases hi - lo,
{
    if hi <= lo {
        Seq::empty()
    } else {
        changed_indices(a, b, lo, hi - 1) + if a[hi - 1] != b[hi - 1] {
            seq![(hi - 1) as usize]
        } else {
            Seq::empty()
        }
    }
}

/// The registers that differ between `old` and `new`: general registers
/// `r1`..`r31` (`r0` is always zero), then the LASX registers, then the LBT
/// registers, each in increasing order.
pub open spec fn register_changes(info: RegisterInfo) -> Seq<ChangedRegister> {
    changed_indices(info.old.gpr@, info.new.gpr@, 1, 32).map_values(
        |i: usize| ChangedRegister::Gpr(i),
    ) + changed_indices(info.old.lasx@, info.new.lasx@, 0, 32).map_values(
        |i: usize| ChangedRegister::Lasx(i),
    ) + changed_indices(info.old.lbt@, info.new.lbt@, 0, 5).map_values(
        |i: usize| ChangedRegister::Lbt(i),
    )
}

/// The place of a register in a report: general registers first, then LASX
/// registers, then LBT registers, each by number.
pub open spec fn report_rank(c: ChangedRegister) -> int {
    match c {
        ChangedRegister::Gpr(i) => i as int,
        ChangedRegister::Lasx(i) => 32 + i,
        ChangedRegister::Lbt(i) => 64 + i,
    }
}

/// The changed indices lie in `lo..hi`, differ, come in increasing order, and
/// every differing index in `lo..hi` is among them.
proof fn lemma_changed_indices<T>(a: Seq<T>, b: Seq<T>, lo: int, hi: int)
    requires
        0 <= lo <= hi <= a.len(),
        a.len() == b.len(),
        hi < 0x1_0000_0000,
    ensures
        forall|k: int|
            0 <= k < changed_indices(a, b, lo, hi).len() ==> {
                let j = #[trigger] changed_indices(a, b, lo, hi)[k];
                lo <= j < hi && a[j as int] != b[j as int]
            },
        forall|j: int|
            lo <= j < hi && a[j] != b[j] ==> #[trigger] changed_indices(a, b, lo, hi).contains(
                j as usize,
            ),
        forall|k1: int, k2: int|
            0 <= k1 < k2 < changed_indices(a, b, lo, hi).len() ==> #[trigger] changed_indices(
                a,
                b,
                lo,
                hi,
            )[k1] < #[trigger] changed_indices(a, b, lo, hi)[k2],
    decreases hi - lo,
{
    if hi > lo {
        lemma_changed_indices(a, b, lo, hi - 1);
        let r = changed_indices(a, b, lo, hi);
        let init = changed_indices(a, b, lo, hi - 1);
        if a[hi - 1] != b[hi - 1] {
            assert(r == init + seq![(hi - 1) as usize]);
            assert(r[init.len() as int] == (hi - 1) as usize);
            assert forall|j: int| lo <= j < hi && a[j] != b[j] implies r.contains(j as usize) by {
                if j < hi - 1 {
                    assert(init.contains(j as usize));
                    let k = choose|k: int| 0 <= k < init.len() && init[k] == j as usize;
                    assert(r[k] == j as usize);
                } else {
                    assert(r[init.len() as int] == j as usize);
                }
            }
        } else {
            assert(r =~= init);
        }
    }
}

/// A report names exactly the registers that differ: `r1`..`r31` (never `r0`),
/// the 32 LASX registers and the 5 LBT registers, each at most once, general
/// registers first, then LASX, then LBT, each in increasing order.
pub proof fn lemma_register_changes_report(info: RegisterInfo)
    ensures
        forall|i: int|
            1 <= i < 32 ==> (info.old.gpr@[i] != info.new.gpr@[i] <==> #[trigger] register_changes(
                info,
            ).contains(ChangedRegister::Gpr(i as usize))),
        forall|i: int|
            0 <= i < 32 ==> (info.old.lasx@[i] != info.new.lasx@[i] <==> #[trigger] register_changes(
                info,
            ).contains(ChangedRegister::Lasx(i as usize))),
        forall|i: int|
            0 <= i < 5 ==> (info.old.lbt@[i] != info.new.lbt@[i] <==> #[trigger] register_changes(
                info,
            ).contains(ChangedRegister::Lbt(i as usize))),
        forall|k: int|
            0 <= k < register_changes(info).len() ==> match #[trigger] register_changes(info)[k] {
                ChangedRegister::Gpr(i) => 1 <= i < 32,
                ChangedRegister::Lasx(i) => i < 32,
                ChangedRegister::Lbt(i) => i < 5,
            },
        forall|k1: int, k2: int|
            0 <= k1 < k2 < register_changes(info).len() ==> report_rank(
                #[trigger] register_changes(info)[k1],
            ) < report_rank(#[trigger] register_changes(info)[k2]),
{
    let (og, ng) = (info.old.gpr@, info.new.gpr@);
    let (ol, nl) = (info.old.lasx@, info.new.lasx@);
    let (ob, nb) = (info.old.lbt@, info.new.lbt@);
    lemma_changed_indices(og, ng, 1, 32);
    lemma_changed_indices(ol, nl, 0, 32);
    lemma_changed_indices(ob, nb, 0, 5);
    let gi = changed_indices(og, ng, 1, 32);
    let li = changed_indices(ol, nl, 0, 32);
    let bi = changed_indices(ob, nb, 0, 5);
    let g = gi.map_values(|i: usize| ChangedRegister::Gpr(i));
    let l = li.map_values(|i: usize| ChangedRegister::Lasx(i));
    let b = bi.map_values(|i: usize| ChangedRegister::Lbt(i));
    let r = register_changes(info);
    assert(r == g + l + b);
    assert forall|k: int| 0 <= k < r.len() implies match #[trigger] r[k] {
        ChangedRegister::Gpr(i) => 1 <= i < 32 && og[i as int] != ng[i as int] && report_rank(r[k])
            == i,
        ChangedRegister::Lasx(i) => i < 32 && ol[i as int] != nl[i as int] && report_rank(r[k])
            == 32 + i,
        ChangedRegister::Lbt(i) => i < 5 && ob[i as int] != nb[i as int] && report_rank(r[k]) == 64
            + i,
    } by {
        if k < g.len() {
            assert(r[k] == ChangedRegister::Gpr(gi[k]));
        } else if k < g.len() + l.len() {
            assert(r[k] == ChangedRegister::Lasx(li[k - g.len()]));
        } else {
            assert(r[k] == ChangedRegister::Lbt(bi[k - g.len() - l.len()]));
        }
    }
    assert forall|i: int| 1 <= i < 32 implies (og[i] != ng[i] <==> #[trigger] r.contains(
        ChangedRegister::Gpr(i as usize),
    )) by {
        if og[i] != ng[i] {
            assert(gi.contains(i as usize));
            let k = choose|k: int| 0 <= k < gi.len() && gi[k] == i as usize;
            assert(r[k] == ChangedRegister::Gpr(i as usize));
        }
        if r.contains(ChangedRegister::Gpr(i as usize)) {
            let k = choose|k: int| 0 <= k < r.len() && r[k] == ChangedRegister::Gpr(i as usize);
            assert(match r[k] {
                ChangedRegister::Gpr(j) => og[j as int] != ng[j as int],
                _ => false,
            });
        }
    }
    assert forall|i: int| 0 <= i < 32 implies (ol[i] != nl[i] <==> #[trigger] r.contains(
        ChangedRegister::Lasx(i as usize),
    )) by {
        if ol[i] != nl[i] {
            assert(li.contains(i as usize));
            let k = choose|k: int| 0 <= k < li.len() && li[k] == i as usize;
            assert(r[g.len() + k] == ChangedRegister::Lasx(i as usize));
        }
        if r.contains(ChangedRegister::Lasx(i as usize)) {
            let k = choose|k: int| 0 <= k < r.len() && r[k] == ChangedRegister::Lasx(i as usize);
            assert(match r[k] {
                ChangedRegister::Lasx(j) => ol[j as int] != nl[j as int],
                _ => false,
            });
        }
    }
    assert forall|i: int| 0 <= i < 5 implies (ob[i] != nb[i] <==> #[trigger] r.contains(
        ChangedRegister::Lbt(i as usize),
    )) by {
        if ob[i] != nb[i] {
            assert(bi.contains(i as usize));
            let k = choose|k: int| 0 <= k < bi.len() && bi[k] == i as usize;
            assert(r[g.len() + l.len() + k] == ChangedRegister::Lbt(i as usize));
        }
        if r.contains(ChangedRegister::Lbt(i as usize)) {
            let k = choose|k: int| 0 <= k < r.len() && r[k] == ChangedRegister::Lbt(i as usize);
            assert(match r[k] {
                ChangedRegister::Lbt(j) => ob[j as int] != nb[j as int],
                _ => false,
            });
        }
    }
    assert forall|k1: int, k2: int| 0 <= k1 < k2 < r.len() implies report_rank(#[trigger] r[k1])
        < report_rank(#[trigger] r[k2]) by {
        if k2 < g.len() {
            assert(gi[k1] < gi[k2]);
        } else if k1 >= g.len() && k2 < g.len() + l.len() {
            assert(li[k1 - g.len()] < li[k2 - g.len()]);
        } else if k1 >= g.len() + l.len() {
            assert(bi[k1 - g.len() - l.len()] < bi[k2 - g.len() - l.len()]);
        }
    }
}

/// Lists the registers that a step changed, in the order in which they are
/// reported: each general register `r1`..`r31`, LASX register and LBT
/// register whose value differs, once, ordered by `report_rank`.
pub fn changed_registers(info: &RegisterInfo) -> (changes: Vec<ChangedRegister>)
    ensures
        changes@ == register_changes(*info),
        forall|i: int|
            1 <= i < 32 ==> (info.old.gpr@[i] != info.new.gpr@[i] <==> #[trigger] changes@.contains(
                ChangedRegister::Gpr(i as usize),
            )),
        forall|i: int|
            0 <= i < 32 ==> (info.old.lasx@[i] != info.new.lasx@[i] <==> #[trigger] changes@.contains(
                ChangedRegister::Lasx(i as usize),
            )),
        forall|i: int|
            0 <= i < 5 ==> (info.old.lbt@[i] != info.new.lbt@[i] <==> #[trigger] changes@.contains(
                ChangedRegister::Lbt(i as usize),
            )),
        forall|k: int|
            0 <= k < changes@.len() ==> match #[trigger] changes@[k] {
                ChangedRegister::Gpr(i) => 1 <= i < 32,
                ChangedRegister::Lasx(i) => i < 32,
                ChangedRegister::Lbt(i) => i < 5,
            },
        forall|k1: int, k2: int|
            0 <= k1 < k2 < changes@.len() ==> report_rank(#[trigger] changes@[k1]) < report_rank(
                #[trigger] changes@[k2],
            ),
{
    proof {
        lemma_register_changes_report(*info);
    }
    let ghost gpr_part = changed_indices(info.old.gpr@, info.new.gpr@, 1, 32).map_values(
        |i: usize| ChangedRegister::Gpr(i),
    );
    let ghost lasx_part = changed_indices(info.old.lasx@, info.new.lasx@, 0, 32).map_values(
        |i: usize| ChangedRegister::Lasx(i),
    );
    let ghost lbt_part = changed_indices(info.old.lbt@, info.new.lbt@, 0, 5).map_values(
        |i: usize| ChangedRegister::Lbt(i),
    );
    let mut changes: Vec<ChangedRegister> = Vec::new();
    for i in 1..32usize
        invariant
            changes@ == changed_indices(info.old.gpr@, info.new.gpr@, 1, i as int).map_values(
                |i: usize| ChangedRegister::Gpr(i),
            ),
    {
        if info.old.gpr[i] != info.new.gpr[i] {
            changes.push(ChangedRegister::Gpr(i));
        }
        assert(changes@ =~= changed_indices(info.old.gpr@, info.new.gpr@, 1, i + 1).map_values(
            |i: usize| ChangedRegister::Gpr(i),
        ));
    }
    assert(changes@ == gpr_part);
    for i in 0..32usize
        invariant
            changes@ == gpr_part + changed_indices(
                info.old.lasx@,
                info.new.lasx@,
                0,
                i as int,
            ).map_values(|i: usize| ChangedRegister::Lasx(i)),
    {
        let old_lanes = info.old.lasx[i];
        let new_lanes = info.new.lasx[i];
        let same = old_lanes[0] == new_lanes[0] && old_lanes[1] == new_lanes[1] && old_lanes[2]
            == new_lanes[2] && old_lanes[3] == new_lanes[3];
        assert(old_lanes == info.old.lasx@[i as int]);
        assert(new_lanes == info.new.lasx@[i as int]);
        if same {
            assert(old_lanes@ =~= new_lanes@);
            assert(old_lanes == new_lanes);
        } else {
            assert(old_lanes != new_lanes) by {
                if old_lanes == new_lanes {
                    assert(old_lanes@ == new_lanes@);
                }
            }
        }
        if !same {
            changes.push(ChangedRegister::Lasx(i));
        }
        assert(changes@ =~= gpr_part + changed_indices(
            info.old.lasx@,
            info.new.lasx@,
            0,
            i + 1,
        ).map_values(|i: usize| ChangedRegister::Lasx(i)));
    }
    assert(changes@ == gpr_part + lasx_part);
    for i in 0..5usize
        invariant
            changes@ == gpr_part + lasx_part + changed_indices(
                info.old.lbt@,
                info.new.lbt@,
                0,
                i as int,
            ).map_values(|i: usize| ChangedRegister::Lbt(i)),
    {
        if info.old.lbt[i] != info.new.lbt[i] {
            changes.push(ChangedRegister::Lbt(i));
        }
        assert(changes@ =~= gpr_part + lasx_part + changed_indices(
            info.old.lbt@,
            info.new.lbt@,
            0,
            i + 1,
        ).map_values(|i: usize| ChangedRegister::Lbt(i)));
    }
    changes
}

/// No index is reported where the two sequences agree.
proof fn lemma_no_changes_when_equal<T>(a: Seq<T>, b: Seq<T>, lo: int, hi: int)
    requires
        a == b,
    ensures
        changed_indices(a, b, lo, hi) == Seq::<usize>::empty(),
    decreases hi - lo,
{
    if hi > lo {
        lemma_no_changes_when_equal(a, b, lo, hi - 1);
        assert(changed_indices(a, b, lo, hi) =~= Seq::<usize>::empty());
    }
}

/// A step that leaves the registers unchanged (`register_outcome` gives
/// `RegisterUnchaged`) has no register to report.
pub proof fn lemma_unchanged_registers_report_nothing(old: RegisterSet, new: RegisterSet)
    requires
        same_registers(old, new),
    ensures
        register_changes(RegisterInfo { old, new }) == Seq::<ChangedRegister>::empty(),
{
    lemma_no_changes_when_equal(old.gpr@, new.gpr@, 1, 32);
    lemma_no_changes_when_equal(old.lasx@, new.lasx@, 0, 32);
    lemma_no_changes_when_equal(old.lbt@, new.lbt@, 0, 5);
    assert(register_changes(RegisterInfo { old, new }) =~= Seq::<ChangedRegister>::empty());
}

/// A character printed in red: the ANSI sequence for red, the character, and
/// the reset sequence.
pub open spec fn red_text(c: char) -> Seq<char> {
    seq!['\x1b', '[', '3', '1', 'm', c, '\x1b', '[', '0', 'm']
}

/// How a highlighted character can come out: in red, or plain where the
/// terminal gets no colours.
pub open spec fn highlight_of(c: char, text: Seq<char>) -> bool {
    text == seq![c] || text == red_text(c)
}

/// The first `n` characters of `a`, where each one that differs from the
/// character of `b` at its place is replaced by `marks` at that place.
pub open spec fn marked_text(a: Seq<char>, b: Seq<char>, marks: Seq<Seq<char>>, n: int) -> Seq<
    char,
>
    decreases n,
{
    if n <= 0 {
        Seq::empty()
    } else {
        marked_text(a, b, marks, n - 1) + if a[n - 1] == b[n - 1] {
            seq![a[n - 1]]
        } else {
            marks[n - 1]
        }
    }
}

/// `marks` highlights each of the first `n` characters of `a` that differ
/// from `b`.
pub open spec fn highlights(a: Seq<char>, b: Seq<char>, marks: Seq<Seq<char>>, n: int) -> bool {
    &&& marks.len() == n
    &&& forall|i: int| 0 <= i < n && a[i] != b[i] ==> #[trigger] highlight_of(a[i], marks[i])
}

pub open spec fn old_label() -> Seq<char> {
    seq!['O', 'L', 'D', '=']
}

pub open spec fn new_label() -> Seq<char> {
    seq![' ', 'N', 'E', 'W', '=']
}

/// The length of the shorter text: how far two texts can be compared
/// character by character.
pub open spec fn shorter_len(a: Seq<char>, b: Seq<char>) -> int {
    if a.len() <= b.len() {
        a.len() as int
    } else {
        b.len() as int
    }
}

/// Only the first `n` marks count.
proof fn lemma_marked_text_prefix(
    a: Seq<char>,
    b: Seq<char>,
    marks: Seq<Seq<char>>,
    more: Seq<Seq<char>>,
    n: int,
)
    requires
        0 <= n <= marks.len(),
        n <= more.len(),
        forall|i: int| 0 <= i < n ==> marks[i] == more[i],
    ensures
        marked_text(a, b, marks, n) == marked_text(a, b, more, n),
    decreases n,
{
    if n > 0 {
        lemma_marked_text_prefix(a, b, marks, more, n - 1);
    }
}

/// `Colorize::red` on a one-character string, displayed. Whether colours are
/// used depends on the environment (`NO_COLOR`, `CLICOLOR`, a terminal on
/// standard output) and on a process-wide override; the contract states what
/// holds either way.
#[verifier::external_body]
fn red(c: char) -> (text: String)
    ensures
        highlight_of(c, text@),
{
    format!("{}", c.to_string().red())
}

/// The first `n` characters of `a`, each one that differs from `b` in red.
fn highlight_line(a: &str, b: &str, n: usize, out: &mut String) -> (marks: Ghost<Seq<Seq<char>>>)
    requires
        n <= a@.len(),
        n <= b@.len(),
    ensures
        highlights(a@, b@, marks@, n as int),
        final(out)@ == old(out)@ + marked_text(a@, b@, marks@, n as int),
{
    let ghost start = out@;
    let ghost mut marks: Seq<Seq<char>> = Seq::empty();
    for i in 0..n
        invariant
            n <= a@.len(),
            n <= b@.len(),
            highlights(a@, b@, marks, i as int),
            out@ == start + marked_text(a@, b@, marks, i as int),
    {
        let ca = a.get_char(i);
        let cb = b.get_char(i);
        let ghost before = out@;
        let ghost old_marks = marks;
        if ca == cb {
            out.append(a.substring_char(i, i + 1));
            proof {
                marks = marks.push(seq![ca]);
            }
        } else {
            let text = red(ca);
            out.append(text.as_str());
            proof {
                marks = marks.push(text@);
            }
        }
        proof {
            lemma_marked_text_prefix(a@, b@, old_marks, marks, i as int);
            assert(out@ =~= start + marked_text(a@, b@, marks, i + 1));
        }
    }
    Ghost(marks)
}

/// `res` is a rendering of a change from `old` to `new`: `OLD=` and the old
/// text, then ` NEW=` and the new text, over the characters that the two
/// texts have in common places, with each character in which they differ
/// highlighted.
pub open spec fn is_change_rendering(old: Seq<char>, new: Seq<char>, res: Seq<char>) -> bool {
    let n = shorter_len(old, new);
    exists|old_marks: Seq<Seq<char>>, new_marks: Seq<Seq<char>>|
        #![trigger highlights(old, new, old_marks, n), highlights(new, old, new_marks, n)]
        {
            &&& highlights(old, new, old_marks, n)
            &&& highlights(new, old, new_marks, n)
            &&& res == old_label() + marked_text(old, new, old_marks, n) + new_label()
                + marked_text(new, old, new_marks, n)
        }
}

/// A change rendered on one line, `OLD=... NEW=...`, with each character in
/// which the two values differ in red. `old` and `new` are the values as
/// printed; they have the same length in bytes.
pub fn colored_output(old: &str, new: &str) -> (res: String)
    requires
        old.spec_bytes().len() == new.spec_bytes().len(),
    ensures
        is_change_rendering(old@, new@, res@),
{
    let old_len = old.unicode_len();
    let new_len = new.unicode_len();
    let n = if old_len <= new_len {
        old_len
    } else {
        new_len
    };
    let mut res = String::new();
    res.append("OLD=");
    let old_marks = highlight_line(old, new, n, &mut res);
    res.append(" NEW=");
    let new_marks = highlight_line(new, old, n, &mut res);
    proof {
        reveal_strlit("OLD=");
        reveal_strlit(" NEW=");
        assert("OLD="@ =~= old_label());
        assert(" NEW="@ =~= new_label());
        assert(res@ =~= old_label() + marked_text(old@, new@, old_marks@, n as int) + new_label()
            + marked_text(new@, old@, new_marks@, n as int));
        // the marks of the two lines witness the rendering
        let m = shorter_len(old@, new@);
        assert(m == n as int);
        assert(highlights(old@, new@, old_marks@, m) && highlights(new@, old@, new_marks@, m));
    }
    res
}

/// Swapping the two values swaps the rendering: whatever `colored_output`
/// may give for a change from `old` to `new`, the same highlighted texts with
/// their places exchanged is a rendering of the change from `new` to `old`;
/// the highlighted places are the same in both.
pub proof fn lemma_swapped_rendering(
    old: Seq<char>,
    new: Seq<char>,
    old_marks: Seq<Seq<char>>,
    new_marks: Seq<Seq<char>>,
)
    requires
        highlights(old, new, old_marks, shorter_len(old, new)),
        highlights(new, old, new_marks, shorter_len(old, new)),
    ensures
        shorter_len(new, old) == shorter_len(old, new),
        is_change_rendering(
            old,
            new,
            old_label() + marked_text(old, new, old_marks, shorter_len(old, new)) + new_label()
                + marked_text(new, old, new_marks, shorter_len(old, new)),
        ),
        is_change_rendering(
            new,
            old,
            old_label() + marked_text(new, old, new_marks, shorter_len(old, new)) + new_label()
                + marked_text(old, new, old_marks, shorter_len(old, new)),
        ),
{
}

} // verus!
