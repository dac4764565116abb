use crate::objdump::{is_white_space, is_white_space_char};
use vstd::prelude::*;

verus! {

/// An instruction word matches an opcode pattern `(value, mask)` when the bits
/// selected by `mask` equal `value`.
pub open spec fn matches_pattern(inst: u32, pattern: (u32, u32)) -> bool {
    inst & pattern.1 == pattern.0
}

/// Some pattern of the table matches the instruction word.
pub open spec fn matches_any(inst: u32, table: Seq<(u32, u32)>) -> bool {
    exists|i: int| 0 <= i < table.len() && #[trigger] matches_pattern(inst, table[i])
}

/// Checks an instruction word against a table of `(value, mask)` patterns.
pub fn inst_matches_any(inst: u32, table: &[(u32, u32)]) -> (found: bool)
    ensures
        found == matches_any(inst, table@),
        found <==> exists|i: int|
            0 <= i < table@.len() && inst & #[trigger] table@[i].1 == table@[i].0,
{
    let n = table.len();
    let mut i: usize = 0;
    while i < n
        invariant
            n == table@.len(),
            0 <= i <= n,
            forall|j: int| 0 <= j < i ==> !#[trigger] matches_pattern(inst, table@[j]),
        decreases n - i,
    {
        let (value, mask) = table[i];
        if inst & mask == value {
            assert(matches_pattern(inst, table@[i as int]));
            assert(inst & table@[i as int].1 == table@[i as int].0);
            return true;
        }
        i = i + 1;
    }
    assert forall|j: int| 0 <= j < table@.len() implies !(inst & #[trigger] table@[j].1
        == table@[j].0) by {
        assert(!matches_pattern(inst, table@[j]));
    }
    false
}

/// Whether binutils knows the instruction: `opcodes` is the opcode table of
/// the binutils LoongArch disassembler, as `(value, mask)` pairs.
pub fn inst_legal_binutils(inst: u32, opcodes: &[(u32, u32)]) -> (legal: bool)
    ensures
        legal == matches_any(inst, opcodes@),
{
    inst_matches_any(inst, opcodes)
}

/// Opcodes that the probes found although binutils does not document them.
pub const KNOWN_OPCODES: [(u32, u32); 31] = [
    (0x01147400, 0xfffffc00),  // frecipe.s
    (0x01147800, 0xfffffc00),  // frecipe.d
    (0x01148400, 0xfffffc00),  // frsqrte.s
    (0x01148800, 0xfffffc00),  // frsqrte.d
    (0x0114c000, 0xfffffc00),  // movgr2fcsr
    (0x0114c800, 0xfffffc00),  // movfcsr2gr
    (0x06493000, 0xffffffff),  // unknown
    (0x38570000, 0xffff8000),  // unknown memory
    (0x38578000, 0xfffff000),  // unknown memory
    (0x38580000, 0xfffd8000),  // amcas.b
    (0x38588000, 0xfffd8000),  // amcas.h
    (0x38590000, 0xfffd8000),  // amcas.w
    (0x38598000, 0xfffd8000),  // amcas.d
    (0x385c0000, 0xfffd8000),  // amswap.b
    (0x385c8000, 0xfffd8000),  // amswap.h
    (0x385d0000, 0xfffd8000),  // amadd.b
    (0x385d8000, 0xfffd8000),  // amadd.h
    (0x71448000, 0xffff8000),  // unknown lsx
    (0x71450000, 0xffff8000),  // unknown lsx
    (0x729b8000, 0xffff8000),  // lsx vindex
    (0x729d1400, 0xfffffc00),  // lsx vfrecipe.s
    (0x729d1800, 0xfffffc00),  // lsx vfrecipe.d
    (0x729d2400, 0xfffffc00),  // lsx vfrsqrte.s
    (0x729d2800, 0xfffffc00),  // lsx vfrsqrte.d
    (0x75448000, 0xffff8000),  // unknown lasx
    (0x75450000, 0xffff8000),  // unknown lasx
    (0x769b8000, 0xffff8000),  // lasx xvindex
    (0x769d1400, 0xfffffc00),  // lasx xvfrsqrte.s
    (0x769d1800, 0xfffffc00),  // lasx xvfrsqrte.d
    (0x769d2400, 0xfffffc00),  // lasx xvfrsqrte.s
    (0x769d2800, 0xfffffc00),  // lasx xvfrsqrte.d
];

/// Whether the instruction is one of the undocumented opcodes found so far.
pub fn inst_discovered(inst: u32) -> (found: bool)
    ensures
        found == matches_any(inst, KNOWN_OPCODES@),
{
    inst_matches_any(inst, &KNOWN_OPCODES)
}

/// Each undocumented opcode's own value is recognised: every pattern of
/// `KNOWN_OPCODES` matches the word that it was written from.
pub proof fn lemma_known_opcodes_match_their_values(i: int)
    requires
        0 <= i < KNOWN_OPCODES@.len(),
    ensures
        matches_pattern(KNOWN_OPCODES@[i].0, KNOWN_OPCODES@[i]),
        matches_any(KNOWN_OPCODES@[i].0, KNOWN_OPCODES@),
{
    assert(
        0x01147400u32 & 0xfffffc00u32 == 0x01147400u32 &&
        0x01147800u32 & 0xfffffc00u32 == 0x01147800u32 &&
        0x01148400u32 & 0xfffffc00u32 == 0x01148400u32 &&
        0x01148800u32 & 0xfffffc00u32 == 0x01148800u32 &&
        0x0114c000u32 & 0xfffffc00u32 == 0x0114c000u32 &&
        0x0114c800u32 & 0xfffffc00u32 == 0x0114c800u32 &&
        0x06493000u32 & 0xffffffffu32 == 0x06493000u32 &&
        0x38570000u32 & 0xffff8000u32 == 0x38570000u32 &&
        0x38578000u32 & 0xfffff000u32 == 0x38578000u32 &&
        0x38580000u32 & 0xfffd8000u32 == 0x38580000u32 &&
        0x38588000u32 & 0xfffd8000u32 == 0x38588000u32 &&
        0x38590000u32 & 0xfffd8000u32 == 0x38590000u32 &&
        0x38598000u32 & 0xfffd8000u32 == 0x38598000u32 &&
        0x385c0000u32 & 0xfffd8000u32 == 0x385c0000u32 &&
        0x385c8000u32 & 0xfffd8000u32 == 0x385c8000u32 &&
        0x385d0000u32 & 0xfffd8000u32 == 0x385d0000u32 &&
        0x385d8000u32 & 0xfffd8000u32 == 0x385d8000u32 &&
        0x71448000u32 & 0xffff8000u32 == 0x71448000u32 &&
        0x71450000u32 & 0xffff8000u32 == 0x71450000u32 &&
        0x729b8000u32 & 0xffff8000u32 == 0x729b8000u32 &&
        0x729d1400u32 & 0xfffffc00u32 == 0x729d1400u32 &&
        0x729d1800u32 & 0xfffffc00u32 == 0x729d1800u32 &&
        0x729d2400u32 & 0xfffffc00u32 == 0x729d2400u32 &&
        0x729d2800u32 & 0xfffffc00u32 == 0x729d2800u32 &&
        0x75448000u32 & 0xffff8000u32 == 0x75448000u32 &&
        0x75450000u32 & 0xffff8000u32 == 0x75450000u32 &&
        0x769b8000u32 & 0xffff8000u32 == 0x769b8000u32 &&
        0x769d1400u32 & 0xfffffc00u32 == 0x769d1400u32 &&
        0x769d1800u32 & 0xfffffc00u32 == 0x769d1800u32 &&
        0x769d2400u32 & 0xfffffc00u32 == 0x769d2400u32 &&
        0x769d2800u32 & 0xfffffc00u32 == 0x769d2800u32
    ) by (bit_vector);
    assert(matches_pattern(KNOWN_OPCODES@[i].0, KNOWN_OPCODES@[i]));
}


/// The fuzzer probes an instruction word only when neither the binutils table
/// nor the table of discovered opcodes knows it.
pub fn fuzz_candidate(inst: u32, opcodes: &[(u32, u32)]) -> (probe: bool)
    ensures
        probe == (!matches_any(inst, opcodes@) && !matches_any(inst, KNOWN_OPCODES@)),
{
    !inst_legal_binutils(inst, opcodes) && !inst_discovered(inst)
}

} // verus!

verus! {

/// Splits text at white space, from the left: the words completed so far and
/// the word still open at the end.
pub open spec fn word_split(s: Seq<char>) -> (Seq<Seq<char>>, Seq<char>)
    decreases s.len(),
{
    if s.len() == 0 {
        (Seq::empty(), Seq::empty())
    } else {
        let (done, cur) = word_split(s.drop_last());
        if is_white_space(s.last()) {
            if cur.len() > 0 {
                (done.push(cur), Seq::empty())
            } else {
                (done, Seq::empty())
            }
        } else {
            (done, cur.push(s.last()))
        }
    }
}

/// `str::split_whitespace`: the maximal runs of characters that are not
/// white space.
pub open spec fn words(s: Seq<char>) -> Seq<Seq<char>> {
    let (done, cur) = word_split(s);
    if cur.len() > 0 {
        done.push(cur)
    } else {
        done
    }
}

pub open spec fn hex_digit_value(c: char) -> Option<int> {
    if '0' <= c && c <= '9' {
        Some(c as int - '0' as int)
    } else if 'a' <= c && c <= 'f' {
        Some(c as int - 'a' as int + 10)
    } else if 'A' <= c && c <= 'F' {
        Some(c as int - 'A' as int + 10)
    } else {
        None
    }
}

/// The number that hexadecimal digits spell, or `None` if one is not a
/// hexadecimal digit.
pub open spec fn hex_digits_value(d: Seq<char>) -> Option<int>
    decreases d.len(),
{
    if d.len() == 0 {
        Some(0)
    } else {
        match (hex_digits_value(d.drop_last()), hex_digit_value(d.last())) {
            (Some(high), Some(low)) => Some(high * 16 + low),
            _ => None,
        }
    }
}

/// The digits of a word, after an optional `0x` or `0X`.
pub open spec fn hex_word_digits(w: Seq<char>) -> Seq<char> {
    if w.len() >= 2 && w[0] == '0' && (w[1] == 'x' || w[1] == 'X') {
        w.subrange(2, w.len() as int)
    } else {
        w
    }
}

/// A word of an opcode table: one to eight hexadecimal digits, optionally
/// after `0x`.
pub open spec fn hex_word(w: Seq<char>) -> Option<u32> {
    let d = hex_word_digits(w);
    if 1 <= d.len() <= 8 {
        match hex_digits_value(d) {
            Some(v) => Some(v as u32),
            None => None,
        }
    } else {
        None
    }
}

pub open spec fn pow16(n: nat) -> int
    decreases n,
{
    if n == 0 {
        1
    } else {
        16 * pow16((n - 1) as nat)
    }
}

proof fn lemma_hex_digits_bound(d: Seq<char>)
    ensures
        hex_digits_value(d) matches Some(v) ==> 0 <= v < pow16(d.len()),
    decreases d.len(),
{
    if d.len() > 0 {
        lemma_hex_digits_bound(d.drop_last());
        let n = (d.len() - 1) as nat;
        if let (Some(high), Some(low)) = (hex_digits_value(d.drop_last()), hex_digit_value(
            d.last(),
        )) {
            let p = pow16(n);
            assert(0 <= high < p && 0 <= low < 16 ==> 0 <= high * 16 + low < 16 * p)
                by (nonlinear_arith);
        }
    }
}

/// The opcode table that a text holds: its words, read as hexadecimal, in
/// `(value, mask)` pairs. `None` when a word is not hexadecimal or a mask is
/// missing.
pub open spec fn opcode_table(text: Seq<char>) -> Option<Seq<(u32, u32)>> {
    let ws = words(text);
    if ws.len() % 2 != 0 {
        None
    } else if exists|i: int| 0 <= i < ws.len() && #[trigger] hex_word(ws[i]) is None {
        None
    } else {
        Some(
            Seq::new(
                (ws.len() / 2) as nat,
                |k: int| (hex_word(ws[2 * k])->0, hex_word(ws[2 * k + 1])->0),
            ),
        )
    }
}

/// Reads the hexadecimal word `text@.subrange(start, end)`.
fn parse_hex_word(text: &str, start: usize, end: usize) -> (r: Option<u32>)
    requires
        start <= end <= text@.len(),
    ensures
        r == hex_word(text@.subrange(start as int, end as int)),
{
    let ghost w = text@.subrange(start as int, end as int);
    let mut a = start;
    if end - start >= 2 && text.get_char(start) == '0' && (text.get_char(start + 1) == 'x'
        || text.get_char(start + 1) == 'X') {
        a = start + 2;
    }
    assert(text@.subrange(a as int, end as int) =~= hex_word_digits(w));
    if end - a < 1 || end - a > 8 {
        return None;
    }
    let ghost d = hex_word_digits(w);
    let mut value: u64 = 0;
    let mut i = a;
    while i < end
        invariant
            a <= i <= end <= text@.len(),
            end - a <= 8,
            d == text@.subrange(a as int, end as int),
            d == hex_word_digits(w),
            w == text@.subrange(start as int, end as int),
            hex_digits_value(text@.subrange(a as int, i as int)) == Some(value as int),
            value < pow16((i - a) as nat),
        decreases end - i,
    {
        let c = text.get_char(i);
        assert(text@.subrange(a as int, i + 1).drop_last() =~= text@.subrange(a as int, i as int));
        let digit: u64 = if '0' <= c && c <= '9' {
            (c as u64) - ('0' as u64)
        } else if 'a' <= c && c <= 'f' {
            (c as u64) - ('a' as u64) + 10
        } else if 'A' <= c && c <= 'F' {
            (c as u64) - ('A' as u64) + 10
        } else {
            proof {
                assert(text@.subrange(a as int, end as int)[(i - a) as int] == c);
                assert(hex_digit_value(c) is None);
                lemma_invalid_digit_spoils(text@.subrange(a as int, end as int), (i - a) as int);
            }
            return None;
        };
        proof {
            assert(pow16((i - a) as nat) <= pow16(7)) by {
                lemma_pow16_monotone((i - a) as nat, 7);
            }
            assert(pow16(7) == 0x1000_0000) by {
                reveal_with_fuel(pow16, 8);
            }
        }
        value = value * 16 + digit;
        i = i + 1;
    }
    proof {
        lemma_hex_digits_bound(d);
        assert(pow16(d.len()) <= pow16(8)) by {
            lemma_pow16_monotone(d.len(), 8);
        }
        assert(pow16(8) == 0x1_0000_0000) by {
            reveal_with_fuel(pow16, 9);
        }
    }
    Some(value as u32)
}

proof fn lemma_pow16_monotone(m: nat, n: nat)
    requires
        m <= n,
    ensures
        1 <= pow16(m) <= pow16(n),
    decreases n,
{
    if n > 0 && m < n {
        lemma_pow16_monotone(m, (n - 1) as nat);
    } else if n > 0 {
        lemma_pow16_monotone((n - 1) as nat, (n - 1) as nat);
    }
}

/// A character that is not a hexadecimal digit spoils every longer run of
/// digits that holds it.
proof fn lemma_invalid_digit_spoils(d: Seq<char>, i: int)
    requires
        0 <= i < d.len(),
        hex_digit_value(d[i]) is None,
    ensures
        hex_digits_value(d) is None,
    decreases d.len(),
{
    if i < d.len() - 1 {
        lemma_invalid_digit_spoils(d.drop_last(), i);
    }
}

/// Reads an opcode table: hexadecimal words (each optionally after `0x`)
/// separated by white space, taken in `(value, mask)` pairs. `None` when a
/// word is not hexadecimal or the last mask is missing.
pub fn parse_opcode_table(text: &str) -> (table: Option<Vec<(u32, u32)>>)
    ensures
        match opcode_table(text@) {
            None => table is None,
            Some(t) => table matches Some(v) && v@ == t,
        },
{
    let ghost s = text@;
    let n = text.unicode_len();
    let mut values: Vec<u32> = Vec::new();
    let mut bad = false;
    let mut word_start: usize = 0;
    let mut p: usize = 0;
    assert(s.subrange(0, 0) =~= Seq::<char>::empty());
    while p < n
        invariant
            s == text@,
            n == s.len(),
            word_start <= p <= n,
            word_split(s.subrange(0, p as int)).1 == s.subrange(word_start as int, p as int),
            bad ==> exists|j: int|
                0 <= j < word_split(s.subrange(0, p as int)).0.len() && #[trigger] hex_word(
                    word_split(s.subrange(0, p as int)).0[j],
                ) is None,
            !bad ==> values@.len() == word_split(s.subrange(0, p as int)).0.len(),
            !bad ==> forall|j: int|
                0 <= j < values@.len() ==> #[trigger] hex_word(
                    word_split(s.subrange(0, p as int)).0[j],
                ) == Some(values@[j]),
        decreases n - p,
    {
        let ghost before = word_split(s.subrange(0, p as int));
        assert(s.subrange(0, p + 1).drop_last() =~= s.subrange(0, p as int));
        let c = text.get_char(p);
        if is_white_space_char(c) {
            if word_start < p {
                if !bad {
                    match parse_hex_word(text, word_start, p) {
                        Some(v) => {
                            values.push(v);
                        },
                        None => {
                            bad = true;
                            assert(hex_word(word_split(s.subrange(0, p + 1)).0[before.0.len() as int]) is None);
                        },
                    }
                } else {
                    let ghost j = choose|j: int|
                        0 <= j < before.0.len() && #[trigger] hex_word(before.0[j]) is None;
                    assert(hex_word(word_split(s.subrange(0, p + 1)).0[j]) is None);
                }
            } else if bad {
                let ghost j = choose|j: int|
                    0 <= j < before.0.len() && #[trigger] hex_word(before.0[j]) is None;
                assert(hex_word(word_split(s.subrange(0, p + 1)).0[j]) is None);
            }
            word_start = p + 1;
            assert(s.subrange(p + 1, p + 1) =~= Seq::<char>::empty());
        } else {
            assert(s.subrange(word_start as int, p + 1) =~= s.subrange(word_start as int, p as int).push(c));
            if bad {
                let ghost j = choose|j: int|
                    0 <= j < before.0.len() && #[trigger] hex_word(before.0[j]) is None;
                assert(hex_word(word_split(s.subrange(0, p + 1)).0[j]) is None);
            }
        }
        p = p + 1;
    }
    assert(s.subrange(0, n as int) =~= s);
    let ghost ws = words(s);
    if word_start < n {
        if !bad {
            match parse_hex_word(text, word_start, n) {
                Some(v) => {
                    values.push(v);
                },
                None => {
                    assert(hex_word(ws[ws.len() - 1]) is None);
                    return None;
                },
            }
        }
    }
    if bad {
        proof {
            let j = choose|j: int|
                0 <= j < word_split(s).0.len() && #[trigger] hex_word(word_split(s).0[j]) is None;
            assert(hex_word(ws[j]) is None);
        }
        return None;
    }
    assert(values@.len() == ws.len());
    assert(forall|j: int| 0 <= j < ws.len() ==> #[trigger] hex_word(ws[j]) == Some(values@[j]));
    if values.len() % 2 != 0 {
        return None;
    }
    let pairs_len = values.len() / 2;
    let mut table: Vec<(u32, u32)> = Vec::new();
    let mut k: usize = 0;
    while k < pairs_len
        invariant
            pairs_len * 2 == values@.len(),
            values@.len() == ws.len(),
            forall|j: int| 0 <= j < ws.len() ==> #[trigger] hex_word(ws[j]) == Some(values@[j]),
            k <= pairs_len,
            table@.len() == k,
            forall|i: int|
                0 <= i < k ==> #[trigger] table@[i] == (hex_word(ws[2 * i])->0, hex_word(
                    ws[2 * i + 1],
                )->0),
        decreases pairs_len - k,
    {
        let pair = (values[2 * k], values[2 * k + 1]);
        assert(hex_word(ws[2 * k as int]) == Some(values@[2 * k as int]));
        assert(hex_word(ws[2 * k + 1]) == Some(values@[2 * k + 1]));
        table.push(pair);
        k = k + 1;
    }
    assert(!(exists|i: int| 0 <= i < ws.len() && #[trigger] hex_word(ws[i]) is None));
    assert(table@ =~= opcode_table(s)->0);
    Some(table)
}

proof fn lemma_word_split_words(s: Seq<char>)
    ensures
        forall|k: int|
            0 <= k < word_split(s).0.len() ==> #[trigger] word_split(s).0[k].len() > 0 && forall|
                i: int,
            |
                0 <= i < word_split(s).0[k].len() ==> !is_white_space(word_split(s).0[k][i]),
        forall|i: int|
            0 <= i < word_split(s).1.len() ==> !is_white_space(#[trigger] word_split(s).1[i]),
    decreases s.len(),
{
    if s.len() > 0 {
        lemma_word_split_words(s.drop_last());
        let (done, cur) = word_split(s.drop_last());
        if !is_white_space(s.last()) {
            assert forall|i: int| 0 <= i < cur.push(s.last()).len() implies !is_white_space(
                #[trigger] cur.push(s.last())[i],
            ) by {
                if i < cur.len() {
                    assert(cur.push(s.last())[i] == cur[i]);
                }
            }
        }
    }
}

/// The words of an opcode table are runs of characters without white space:
/// none is empty and none holds white space.
pub proof fn lemma_words_hold_no_white_space(s: Seq<char>)
    ensures
        forall|k: int| 0 <= k < words(s).len() ==> #[trigger] words(s)[k].len() > 0,
        forall|k: int, i: int|
            0 <= k < words(s).len() && 0 <= i < words(s)[k].len() ==> !is_white_space(
                #[trigger] words(s)[k][i],
            ),
        (forall|i: int| 0 <= i < s.len() ==> is_white_space(#[trigger] s[i])) ==> words(s).len()
            == 0,
{
    lemma_word_split_words(s);
    lemma_blank_has_no_words(s);
}

proof fn lemma_blank_has_no_words(s: Seq<char>)
    ensures
        (forall|i: int| 0 <= i < s.len() ==> is_white_space(#[trigger] s[i])) ==> word_split(s).0.len()
            == 0 && word_split(s).1.len() == 0,
    decreases s.len(),
{
    if s.len() > 0 {
        if forall|i: int| 0 <= i < s.len() ==> is_white_space(#[trigger] s[i]) {
            assert forall|i: int| 0 <= i < s.drop_last().len() implies is_white_space(
                #[trigger] s.drop_last()[i],
            ) by {
                assert(s.drop_last()[i] == s[i]);
            }
            assert(is_white_space(s[s.len() - 1]));
        }
        lemma_blank_has_no_words(s.drop_last());
    }
}

} // verus!
