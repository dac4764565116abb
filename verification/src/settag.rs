use crate::probe::ProbeResult;
use vstd::prelude::*;

verus! {

/// The word of `x86settag rd, imm1, imm2`.
pub open spec fn spec_x86settag_inst(imm1: u32, imm2: u32, rd: u32) -> u32 {
    0x00580000u32 | (imm1 << 5u32) | (imm2 << 10u32) | rd
}

/// Encodes `x86settag rd, imm1, imm2`.
pub fn x86settag_inst(imm1: u32, imm2: u32, rd: u32) -> (inst: u32)
    ensures
        inst == spec_x86settag_inst(imm1, imm2, rd),
{
    0x00580000u32 | (imm1 << 5u32) | (imm2 << 10u32) | rd
}

/// What `x86settag` should do to a register: raise a binary translation
/// exception, or leave `result` in it.
#[derive(Clone, Copy, Debug, PartialEq, Eq)]
pub struct SettagExpectation {
    pub throws: bool,
    pub result: u64,
}

/// The flag bit that `imm2` selects: bit `imm2 & 7`.
pub open spec fn settag_mask(imm2: u32) -> u64 {
    1u64 << ((imm2 & 7) as u64)
}

/// The tag bit that `imm2` selects: bit `(imm2 & 63) / 8`.
pub open spec fn settag_tag(imm2: u32) -> u64 {
    1u64 << (((imm2 & 63) / 8) as u64)
}

/// The behaviour of `x86settag rd, imm1, imm2` on a register that holds
/// `value`, by the operation `imm1 % 8`:
/// 0 sets the flag bit, which must be clear; 1 clears it, and it must be set;
/// 2 checks that tag bit and flag bit are set; 3 clears the flag bit, which
/// must be set like the tag bit; 4 clears both, which must both be set;
/// 5 to 7 do nothing. A failed condition raises the exception and leaves the
/// register as it was.
pub open spec fn settag_expectation(imm1: u32, imm2: u32, value: u64) -> SettagExpectation {
    let mask = settag_mask(imm2);
    let tag = settag_tag(imm2);
    let throws = SettagExpectation { throws: true, result: value };
    let op = imm1 % 8;
    if op == 0 {
        if value & mask == 0 {
            SettagExpectation { throws: false, result: value | mask }
        } else {
            throws
        }
    } else if op == 1 {
        if value & mask != 0 {
            SettagExpectation { throws: false, result: value & !mask }
        } else {
            throws
        }
    } else if op == 2 {
        if value & tag == 0 || value & mask == 0 {
            throws
        } else {
            SettagExpectation { throws: false, result: value }
        }
    } else if op == 3 {
        if value & tag == 0 || value & mask == 0 {
            throws
        } else {
            SettagExpectation { throws: false, result: value & !mask }
        }
    } else if op == 4 {
        if value & tag == 0 || value & mask == 0 {
            throws
        } else {
            SettagExpectation { throws: false, result: value & !mask & !tag }
        }
    } else {
        SettagExpectation { throws: false, result: value }
    }
}

/// Computes what `x86settag rd, imm1, imm2` should do to a register that
/// holds `value`.
pub fn x86settag_expectation(imm1: u32, imm2: u32, value: u64) -> (e: SettagExpectation)
    ensures
        e == settag_expectation(imm1, imm2, value),
{
    proof {
        assert(imm2 & 0x7 < 8 && imm2 & 63 < 64) by (bit_vector);
    }
    let mask: u64 = 1u64 << ((imm2 & 0x7) as u64);
    let low: u32 = imm2 & 63;
    let tag: u64 = 1u64 << ((low / 8) as u64);
    let mut should_throw = false;
    let mut expected: u64 = value;
    let op = imm1 % 8;
    if op == 0 {
        if (value & mask) == 0 {
            expected = expected | mask;
        } else {
            should_throw = true;
        }
    } else if op == 1 {
        if (value & mask) != 0 {
            expected = expected & !mask;
        } else {
            should_throw = true;
        }
    } else if op == 2 {
        if value & tag == 0 {
            should_throw = true;
        } else if (value & mask) == 0 {
            should_throw = true;
        }
    } else if op == 3 {
        if value & tag == 0 {
            should_throw = true;
        } else if (value & mask) != 0 {
            expected = expected & !mask;
        } else {
            should_throw = true;
        }
    } else if op == 4 {
        if value & tag == 0 {
            should_throw = true;
        } else if (value & mask) != 0 {
            expected = expected & !mask;
            expected = expected & !tag;
        } else {
            should_throw = true;
        }
    }
    SettagExpectation { throws: should_throw, result: expected }
}

/// A probe's outcome agrees with the expectation for register `rd` that held
/// `value`: the exception when one is expected; otherwise the expected value
/// in `rd`, or no change at all when the value was to stay.
pub open spec fn settag_consistent(
    result: ProbeResult,
    rd: int,
    value: u64,
    expected: SettagExpectation,
) -> bool {
    if expected.throws {
        result is BinaryTranslationException
    } else {
        match result {
            ProbeResult::RegisterChanged(info) => info.new.gpr@[rd] == expected.result,
            ProbeResult::RegisterUnchaged => expected.result == value,
            _ => false,
        }
    }
}

/// Checks a probe's outcome against the expectation for register `rd`.
pub fn settag_result_consistent(
    result: &ProbeResult,
    rd: usize,
    value: u64,
    expected: &SettagExpectation,
) -> (ok: bool)
    requires
        rd < 32,
    ensures
        ok == settag_consistent(*result, rd as int, value, *expected),
        expected.throws ==> (ok <==> *result is BinaryTranslationException),
        !expected.throws && *result is RegisterUnchaged ==> (ok <==> expected.result == value),
        !expected.throws && *result is RegisterChanged ==> (ok <==> result->RegisterChanged_0.new.gpr@[
        rd as int] == expected.result),
        !expected.throws && !(*result is RegisterUnchaged) && !(*result is RegisterChanged)
            ==> !ok,
{
    if expected.throws {
        matches!(result, ProbeResult::BinaryTranslationException)
    } else {
        match result {
            ProbeResult::RegisterChanged(info) => info.new.gpr[rd] == expected.result,
            ProbeResult::RegisterUnchaged => expected.result == value,
            ProbeResult::BinaryTranslationException => expected.throws,
            _ => false,
        }
    }
}

/// The fields of an encoded `x86settag` read back: `rd` in bits 0..5, `imm1`
/// in bits 5..10 (where the `rj` field lies), `imm2` in bits 10..18, and the
/// opcode in the bits above.
pub proof fn lemma_x86settag_fields(imm1: u32, imm2: u32, rd: u32)
    requires
        imm1 < 32,
        imm2 < 256,
        rd < 32,
    ensures
        spec_x86settag_inst(imm1, imm2, rd) & 0x1f == rd,
        (spec_x86settag_inst(imm1, imm2, rd) >> 5) & 0x1f == imm1,
        (spec_x86settag_inst(imm1, imm2, rd) >> 10) & 0x1f == imm2 & 0x1f,
        (spec_x86settag_inst(imm1, imm2, rd) >> 10) & 0xff == imm2,
        spec_x86settag_inst(imm1, imm2, rd) & 0xfffc0000 == 0x00580000,
{
    assert(imm1 < 32 && imm2 < 256 && rd < 32 ==> {
        let inst = 0x00580000u32 | (imm1 << 5u32) | (imm2 << 10u32) | rd;
        &&& inst & 0x1f == rd
        &&& (inst >> 5) & 0x1f == imm1
        &&& (inst >> 10) & 0x1f == imm2 & 0x1f
        &&& (inst >> 10) & 0xff == imm2
        &&& inst & 0xfffc0000 == 0x00580000
    }) by (bit_vector);
}

/// Setting a flag bit that is clear (operation 0) and then clearing it again
/// (operation 1, same `imm2`) succeeds both times and restores the register.
pub proof fn lemma_settag_set_then_clear(imm1_set: u32, imm1_clear: u32, imm2: u32, value: u64)
    requires
        imm1_set % 8 == 0,
        imm1_clear % 8 == 1,
        !settag_expectation(imm1_set, imm2, value).throws,
    ensures
        !settag_expectation(imm1_clear, imm2, settag_expectation(imm1_set, imm2, value).result).throws,
        settag_expectation(imm1_clear, imm2, settag_expectation(imm1_set, imm2, value).result).result
            == value,
{
    let k = (imm2 & 7) as u64;
    assert(imm2 & 7 < 8) by (bit_vector);
    assert(k < 8 && value & (1u64 << k) == 0 ==> (value | (1u64 << k)) & (1u64 << k) != 0 && (value
        | (1u64 << k)) & !(1u64 << k) == value) by (bit_vector);
}

/// An operation that raises the exception leaves the register as it was.
pub proof fn lemma_settag_exception_keeps_value(imm1: u32, imm2: u32, value: u64)
    ensures
        settag_expectation(imm1, imm2, value).throws ==> settag_expectation(
            imm1,
            imm2,
            value,
        ).result == value,
{
}

/// What `x86settag rd, imm1, imm2` does to a register holding `value`, bit by
/// bit. With the flag bit `imm2 & 7` and the tag bit `(imm2 & 63) / 8`:
/// operation 0 fails exactly when the flag bit is set and otherwise sets it;
/// operation 1 fails exactly when the flag bit is clear and otherwise clears
/// it; operations 2, 3 and 4 fail exactly when the tag bit or the flag bit is
/// clear, and otherwise 2 changes nothing, 3 clears the flag bit, and 4
/// clears the flag bit and the tag bit; operations 5 to 7 never fail and
/// change nothing. A failure changes nothing, and no other bit ever changes.
pub proof fn lemma_settag_behaviour(imm1: u32, imm2: u32, value: u64)
    ensures
        ({
            let e = settag_expectation(imm1, imm2, value);
            let flag = 1u64 << ((imm2 & 7) as u64);
            let tag = 1u64 << (((imm2 & 63) / 8) as u64);
            let flag_set = value & flag != 0;
            let tag_set = value & tag != 0;
            let op = imm1 % 8;
            &&& e.throws ==> e.result == value
            &&& op == 0 ==> (e.throws <==> flag_set)
            &&& op == 1 ==> (e.throws <==> !flag_set)
            &&& (op == 2 || op == 3 || op == 4) ==> (e.throws <==> !(tag_set && flag_set))
            &&& op >= 5 ==> !e.throws
            &&& (op == 2 || op >= 5) ==> e.result == value
            &&& op == 0 && !e.throws ==> e.result & flag != 0 && e.result & !flag == value & !flag
            &&& (op == 1 || op == 3) && !e.throws ==> e.result & flag == 0 && e.result & !flag
                == value & !flag
            &&& op == 4 && !e.throws ==> e.result & flag == 0 && e.result & tag == 0 && e.result
                & !flag & !tag == value & !flag & !tag
        }),
{
    let k = (imm2 & 7) as u64;
    let t = ((imm2 & 63) / 8) as u64;
    assert(imm2 & 7 < 8 && (imm2 & 63) / 8 < 8) by (bit_vector);
    let flag = 1u64 << k;
    let tag = 1u64 << t;
    assert(settag_mask(imm2) == flag);
    assert(settag_tag(imm2) == tag);
    assert(k < 64 ==> (value | (1u64 << k)) & (1u64 << k) != 0 && (value | (1u64 << k)) & !(1u64
        << k) == value & !(1u64 << k)) by (bit_vector);
    assert(k < 64 ==> (value & !(1u64 << k)) & (1u64 << k) == 0 && (value & !(1u64 << k)) & !(1u64
        << k) == value & !(1u64 << k)) by (bit_vector);
    assert(k < 64 && t < 64 ==> (value & !(1u64 << k) & !(1u64 << t)) & (1u64 << k) == 0 && (value
        & !(1u64 << k) & !(1u64 << t)) & (1u64 << t) == 0 && (value & !(1u64 << k) & !(1u64 << t))
        & !(1u64 << k) & !(1u64 << t) == value & !(1u64 << k) & !(1u64 << t)) by (bit_vector);
}

} // verus!
