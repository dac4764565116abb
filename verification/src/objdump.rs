use vstd::prelude::*;

verus! {

/// What can go wrong when reading the disassembler's output.
#[derive(Clone, Copy, Debug, PartialEq, Eq)]
pub enum ObjdumpOutputError {
    /// objdump printed nothing at all.
    UnexpectedOutput,
}

/// Unicode `White_Space`, the property that `char::is_whitespace` and
/// `str::trim` go by.
pub open spec fn is_white_space(c: char) -> bool {
    let v = c as u32;
    ||| 0x09 <= v <= 0x0d
    ||| v == 0x20
    ||| v == 0x85
    ||| v == 0xa0
    ||| v == 0x1680
    ||| 0x2000 <= v <= 0x200a
    ||| v == 0x2028
    ||| v == 0x2029
    ||| v == 0x202f
    ||| v == 0x205f
    ||| v == 0x3000
}

pub open spec fn trim_start(s: Seq<char>) -> Seq<char>
    decreases s.len(),
{
    if s.len() > 0 && is_white_space(s[0]) {
        trim_start(s.drop_first())
    } else {
        s
    }
}

pub open spec fn trim_end(s: Seq<char>) -> Seq<char>
    decreases s.len(),
{
    if s.len() > 0 && is_white_space(s.last()) {
        trim_end(s.drop_last())
    } else {
        s
    }
}

/// `str::trim`: leading and trailing white space removed.
pub open spec fn trim(s: Seq<char>) -> Seq<char> {
    trim_end(trim_start(s))
}

/// Where the line that ends at `end` starts: just after the last `'\n'`
/// before `end`, or at 0.
pub open spec fn line_start(s: Seq<char>, end: int) -> int
    decreases end,
{
    if end <= 0 {
        0
    } else if s[end - 1] == '\n' {
        end
    } else {
        line_start(s, end - 1)
    }
}

/// The last item of `str::lines`: lines end at `'\n'`, a `'\r'` just before
/// that `'\n'` is dropped too, and a final line ending is optional. There is
/// none for an empty text.
pub open spec fn last_line(s: Seq<char>) -> Option<Seq<char>> {
    if s.len() == 0 {
        None
    } else {
        let terminated = s.last() == '\n';
        let body_end = if terminated {
            s.len() - 1
        } else {
            s.len() as int
        };
        let line = s.subrange(line_start(s, body_end), body_end);
        Some(
            if terminated && line.len() > 0 && line.last() == '\r' {
                line.drop_last()
            } else {
                line
            },
        )
    }
}

/// `str::split('\t')`: the pieces between tabs; there is always at least one.
pub open spec fn tab_fields(s: Seq<char>) -> Seq<Seq<char>>
    decreases s.len(),
{
    if s.len() == 0 {
        seq![Seq::empty()]
    } else {
        let init = tab_fields(s.drop_last());
        if s.last() == '\t' {
            init.push(Seq::empty())
        } else {
            init.update(init.len() - 1, init.last().push(s.last()))
        }
    }
}

/// The fields after the first two (address and raw bytes).
pub open spec fn after_two(fields: Seq<Seq<char>>) -> Seq<Seq<char>> {
    if fields.len() <= 2 {
        Seq::empty()
    } else {
        fields.subrange(2, fields.len() as int)
    }
}

/// objdump's mnemonic for a word that it could not decode.
pub open spec fn word_directive() -> Seq<char> {
    seq!['.', 'w', 'o', 'r', 'd']
}

/// The decoded instruction: the trimmed fields joined by single spaces, where
/// a space goes in only once the text so far is not empty; `None` as soon as
/// a field is `.word`.
pub open spec fn decode_fields(parts: Seq<Seq<char>>) -> Option<Seq<char>>
    decreases parts.len(),
{
    if parts.len() == 0 {
        Some(Seq::empty())
    } else {
        match decode_fields(parts.drop_last()) {
            None => None,
            Some(acc) => if parts.last() == word_directive() {
                None
            } else {
                Some(
                    (if acc.len() > 0 {
                        acc.push(' ')
                    } else {
                        acc
                    }) + trim(parts.last()),
                )
            },
        }
    }
}

/// What objdump's output says of the one word that it disassembled: `None`
/// when there is no line at all, `Some(None)` when the last line marks the
/// word as `.word`, else `Some(Some(text))`.
pub open spec fn objdump_decoding(out: Seq<char>) -> Option<Option<Seq<char>>> {
    match last_line(out) {
        None => None,
        Some(line) => Some(decode_fields(after_two(tab_fields(line)))),
    }
}

pub(crate) fn is_white_space_char(c: char) -> (r: bool)
    ensures
        r == is_white_space(c),
{
    let v = c as u32;
    (0x09 <= v && v <= 0x0d) || v == 0x20 || v == 0x85 || v == 0xa0 || v == 0x1680 || (0x2000
        <= v && v <= 0x200a) || v == 0x2028 || v == 0x2029 || v == 0x202f || v == 0x205f || v
        == 0x3000
}

/// The bounds of `text@.subrange(start, end)` once trimmed.
fn trim_bounds(text: &str, start: usize, end: usize) -> (r: (usize, usize))
    requires
        start <= end <= text@.len(),
    ensures
        start <= r.0 <= r.1 <= end,
        text@.subrange(r.0 as int, r.1 as int) == trim(text@.subrange(start as int, end as int)),
{
    let ghost s = text@;
    let mut a = start;
    while a < end && is_white_space_char(text.get_char(a))
        invariant
            s == text@,
            start <= a <= end <= s.len(),
            trim_start(s.subrange(start as int, end as int)) == trim_start(
                s.subrange(a as int, end as int),
            ),
        decreases end - a,
    {
        assert(s.subrange(a as int, end as int).drop_first() =~= s.subrange(a + 1, end as int));
        a = a + 1;
    }
    let mut b = end;
    while b > a && is_white_space_char(text.get_char(b - 1))
        invariant
            s == text@,
            start <= a <= b <= end <= s.len(),
            trim_end(s.subrange(a as int, end as int)) == trim_end(s.subrange(a as int, b as int)),
        decreases b - a,
    {
        assert(s.subrange(a as int, b as int).drop_last() =~= s.subrange(a as int, b - 1));
        b = b - 1;
    }
    (a, b)
}

/// Whether `text@.subrange(start, end)` is `.word`.
fn is_word_directive(text: &str, start: usize, end: usize) -> (r: bool)
    requires
        start <= end <= text@.len(),
    ensures
        r == (text@.subrange(start as int, end as int) == word_directive()),
{
    let ghost f = text@.subrange(start as int, end as int);
    if end - start != 5 {
        assert(f.len() != word_directive().len());
        return false;
    }
    let r = text.get_char(start) == '.' && text.get_char(start + 1) == 'w' && text.get_char(
        start + 2,
    ) == 'o' && text.get_char(start + 3) == 'r' && text.get_char(start + 4) == 'd';
    if r {
        assert(f =~= word_directive());
    } else {
        assert(f != word_directive()) by {
            if f == word_directive() {
                assert(f[0] == '.' && f[1] == 'w' && f[2] == 'o' && f[3] == 'r' && f[4] == 'd');
            }
        }
    }
    r
}

/// The bounds of the last line of `text`, if there is one.
fn last_line_bounds(text: &str) -> (r: Option<(usize, usize)>)
    ensures
        match last_line(text@) {
            None => r is None,
            Some(line) => r matches Some(b) && b.0 <= b.1 <= text@.len() && text@.subrange(
                b.0 as int,
                b.1 as int,
            ) == line,
        },
{
    let ghost s = text@;
    let n = text.unicode_len();
    if n == 0 {
        return None;
    }
    let terminated = text.get_char(n - 1) == '\n';
    let body_end = if terminated {
        n - 1
    } else {
        n
    };
    let mut start = body_end;
    while start > 0 && text.get_char(start - 1) != '\n'
        invariant
            s == text@,
            n == s.len(),
            start <= body_end <= n,
            line_start(s, body_end as int) == line_start(s, start as int),
        decreases start,
    {
        start = start - 1;
    }
    let mut end = body_end;
    if terminated && end > start && text.get_char(end - 1) == '\r' {
        end = end - 1;
        assert(s.subrange(start as int, body_end as int).drop_last() =~= s.subrange(
            start as int,
            end as int,
        ));
    }
    Some((start, end))
}

/// Reads the disassembly of one word from objdump's output: the fields of the
/// last line after address and raw bytes, trimmed and joined by spaces;
/// `Ok(None)` when objdump could not decode the word (`.word`), and an error
/// when there is no line at all.
pub fn parse_objdump_output(stdout: &str) -> (r: Result<Option<String>, ObjdumpOutputError>)
    ensures
        match objdump_decoding(stdout@) {
            None => r == Err::<Option<String>, ObjdumpOutputError>(
                ObjdumpOutputError::UnexpectedOutput,
            ),
            Some(None) => r matches Ok(None),
            Some(Some(text)) => r matches Ok(Some(out)) && out@ == text,
        },
{
    let ghost s = stdout@;
    let bounds = last_line_bounds(stdout);
    let (line_start_at, line_end) = match bounds {
        None => {
            return Err(ObjdumpOutputError::UnexpectedOutput);
        },
        Some(b) => b,
    };
    let ghost line = s.subrange(line_start_at as int, line_end as int);
    let mut decoded = String::new();
    let mut decoded_empty = true;
    let mut word_seen = false;
    let mut fields_done: usize = 0;
    let ghost mut done: Seq<Seq<char>> = Seq::empty();
    let mut field_start = line_start_at;
    let mut p = line_start_at;
    assert(s.subrange(line_start_at as int, p as int) =~= Seq::<char>::empty());
    assert(tab_fields(Seq::<char>::empty()) == seq![Seq::<char>::empty()]);
    assert(s.subrange(field_start as int, p as int) =~= Seq::<char>::empty());
    assert(done.push(Seq::<char>::empty()) =~= seq![Seq::<char>::empty()]);
    loop
        invariant_except_break
            line_start_at <= field_start <= p <= line_end,
            fields_done <= field_start - line_start_at,
            done.len() == fields_done,
            tab_fields(s.subrange(line_start_at as int, p as int)) == done.push(
                s.subrange(field_start as int, p as int),
            ),
        invariant
            s == stdout@,
            line_end <= s.len(),
            line == s.subrange(line_start_at as int, line_end as int),
            decode_fields(after_two(done)) == (if word_seen {
                None
            } else {
                Some(decoded@)
            }),
            decoded_empty == (decoded@.len() == 0),
        ensures
            done == tab_fields(line),
        decreases line_end - p,
    {
        let at_end = p == line_end;
        if at_end || stdout.get_char(p) == '\t' {
            // the field [field_start, p) is complete
            let ghost cur = s.subrange(field_start as int, p as int);
            let ghost old_done = done;
            proof {
                done = done.push(cur);
                if old_done.len() >= 2 {
                    assert(after_two(done) =~= after_two(old_done).push(cur));
                    assert(after_two(done).drop_last() =~= after_two(old_done));
                    assert(after_two(done).last() == cur);
                } else {
                    assert(after_two(done) =~= Seq::<Seq<char>>::empty());
                    assert(after_two(old_done) =~= Seq::<Seq<char>>::empty());
                }
            }
            if fields_done >= 2 && !word_seen {
                if is_word_directive(stdout, field_start, p) {
                    word_seen = true;
                } else {
                    let ghost acc = decoded@;
                    if !decoded_empty {
                        decoded.append(" ");
                        proof {
                            reveal_strlit(" ");
                        }
                        assert(decoded@ =~= acc.push(' '));
                    }
                    let (a, b) = trim_bounds(stdout, field_start, p);
                    decoded.append(stdout.substring_char(a, b));
                    assert(decoded@ =~= (if acc.len() > 0 {
                        acc.push(' ')
                    } else {
                        acc
                    }) + trim(cur));
                    decoded_empty = decoded_empty && a == b;
                }
            }
            if at_end {
                assert(s.subrange(line_start_at as int, p as int) == line);
                break ;
            }
            fields_done = fields_done + 1;
            proof {
                let pre = s.subrange(line_start_at as int, p as int);
                assert(s.subrange(line_start_at as int, p + 1).drop_last() =~= pre);
                assert(s.subrange(p + 1, p + 1) =~= Seq::<char>::empty());
            }
            field_start = p + 1;
        } else {
            proof {
                let pre = s.subrange(line_start_at as int, p as int);
                assert(s.subrange(line_start_at as int, p + 1).drop_last() =~= pre);
                assert(s.subrange(field_start as int, p + 1) =~= s.subrange(
                    field_start as int,
                    p as int,
                ).push(s[p as int]));
                assert(done.push(s.subrange(field_start as int, p as int)).update(
                    done.len() as int,
                    s.subrange(field_start as int, p + 1),
                ) =~= done.push(s.subrange(field_start as int, p + 1)));
            }
        }
        p = p + 1;
    }
    if word_seen {
        Ok(None)
    } else {
        Ok(Some(decoded))
    }
}

/// The little-endian bytes of an instruction word, as objdump reads them from
/// a raw binary and as the probe writes them to its code page.
pub open spec fn le_bytes(inst: u32) -> Seq<u8> {
    seq![
        (inst & 0xff) as u8,
        ((inst >> 8) & 0xff) as u8,
        ((inst >> 16) & 0xff) as u8,
        ((inst >> 24) & 0xff) as u8,
    ]
}

/// The instruction word that the first four bytes of `bytes` hold, little
/// endian.
pub open spec fn le_word(bytes: Seq<u8>) -> u32 {
    (bytes[0] as u32) | ((bytes[1] as u32) << 8) | ((bytes[2] as u32) << 16) | ((bytes[3] as u32)
        << 24)
}

/// `u32::to_le_bytes`.
pub fn inst_to_le_bytes(inst: u32) -> (bytes: [u8; 4])
    ensures
        bytes@ == le_bytes(inst),
{
    let bytes = [
        (inst & 0xff) as u8,
        ((inst >> 8) & 0xff) as u8,
        ((inst >> 16) & 0xff) as u8,
        ((inst >> 24) & 0xff) as u8,
    ];
    assert(bytes@ =~= le_bytes(inst));
    bytes
}

/// The instruction word at the start of an assembled binary: its first four
/// bytes, little endian. The binary must hold at least one word.
pub fn inst_from_le_bytes(content: &[u8]) -> (inst: u32)
    requires
        content@.len() >= 4,
    ensures
        inst == le_word(content@),
{
    (content[0] as u32) | ((content[1] as u32) << 8) | ((content[2] as u32) << 16) | ((
    content[3] as u32) << 24)
}

/// Reading back the bytes written for a word gives the word again.
pub proof fn lemma_le_word_of_le_bytes(inst: u32)
    ensures
        le_bytes(inst).len() == 4,
        le_word(le_bytes(inst)) == inst,
{
    let b = le_bytes(inst);
    assert(b[0] == (inst & 0xff) as u8);
    assert(b[1] == ((inst >> 8) & 0xff) as u8);
    assert(b[2] == ((inst >> 16) & 0xff) as u8);
    assert(b[3] == ((inst >> 24) & 0xff) as u8);
    assert(((inst & 0xff) as u8 as u32) | ((((inst >> 8) & 0xff) as u8 as u32) << 8) | ((((inst
        >> 16) & 0xff) as u8 as u32) << 16) | ((((inst >> 24) & 0xff) as u8 as u32) << 24) == inst)
        by (bit_vector);
}

/// Writing the bytes of the word that four bytes hold gives those bytes again.
pub proof fn lemma_le_bytes_of_le_word(bytes: Seq<u8>)
    requires
        bytes.len() == 4,
    ensures
        le_bytes(le_word(bytes)) == bytes,
{
    let (b0, b1, b2, b3) = (bytes[0], bytes[1], bytes[2], bytes[3]);
    let x = le_word(bytes);
    assert(x == (b0 as u32) | ((b1 as u32) << 8) | ((b2 as u32) << 16) | ((b3 as u32) << 24));
    assert(x == (b0 as u32) | ((b1 as u32) << 8) | ((b2 as u32) << 16) | ((b3 as u32) << 24) ==> (
    x & 0xff) as u8 == b0 && ((x >> 8) & 0xff) as u8 == b1 && ((x >> 16) & 0xff) as u8 == b2 && ((x
        >> 24) & 0xff) as u8 == b3) by (bit_vector);
    assert(le_bytes(x) =~= bytes);
}

/// Where a line starts depends only on the text before its end.
proof fn lemma_line_start_agree(s1: Seq<char>, s2: Seq<char>, end: int)
    requires
        0 <= end <= s1.len(),
        end <= s2.len(),
        forall|i: int| 0 <= i < end ==> s1[i] == s2[i],
    ensures
        line_start(s1, end) == line_start(s2, end),
    decreases end,
{
    if end > 0 {
        lemma_line_start_agree(s1, s2, end - 1);
    }
}

/// A text with no line ending starts its line at 0.
proof fn lemma_line_start_no_newline(s: Seq<char>, end: int)
    requires
        0 <= end <= s.len(),
        forall|i: int| 0 <= i < end ==> s[i] != '\n',
    ensures
        line_start(s, end) == 0,
    decreases end,
{
    if end > 0 {
        lemma_line_start_no_newline(s, end - 1);
    }
}

/// After a line ending, a line starts where the text after it starts.
proof fn lemma_line_start_after(before: Seq<char>, line: Seq<char>, end: int)
    requires
        0 <= end <= line.len(),
        forall|i: int| 0 <= i < end ==> line[i] != '\n',
    ensures
        line_start(before.push('\n') + line, before.len() + 1 + end) == before.len() + 1,
    decreases end,
{
    let s = before.push('\n') + line;
    if end > 0 {
        assert(s[before.len() + end] == line[end - 1]);
        lemma_line_start_after(before, line, end - 1);
    } else {
        assert(s[before.len() as int] == '\n');
    }
}

/// Only the last line of objdump's output counts: the lines before it, and
/// whether it ends with `"\n"` or `"\r\n"` or not at all, change nothing.
pub proof fn lemma_objdump_last_line_counts(before: Seq<char>, line: Seq<char>)
    requires
        line.len() > 0,
        forall|i: int| 0 <= i < line.len() ==> line[i] != '\n',
        line.last() != '\r',
    ensures
        objdump_decoding(before.push('\n') + line) == objdump_decoding(line),
        objdump_decoding(line.push('\n')) == objdump_decoding(line),
        objdump_decoding(line.push('\r').push('\n')) == objdump_decoding(line),
{
    // the line alone
    lemma_line_start_no_newline(line, line.len() as int);
    assert(last_line(line) == Some(line.subrange(0, line.len() as int)));
    assert(line.subrange(0, line.len() as int) =~= line);
    // after earlier lines
    let s = before.push('\n') + line;
    lemma_line_start_after(before, line, line.len() as int);
    assert(s.subrange((before.len() + 1) as int, s.len() as int) =~= line);
    assert(s.last() == line.last());
    // with "\n"
    let t = line.push('\n');
    lemma_line_start_agree(t, line, line.len() as int);
    assert(t.subrange(0, line.len() as int) =~= line);
    // with "\r\n"
    let u = line.push('\r').push('\n');
    let lr = line.push('\r');
    lemma_line_start_no_newline(lr, lr.len() as int);
    lemma_line_start_agree(u, lr, lr.len() as int);
    assert(u.subrange(0, lr.len() as int) =~= lr);
    assert(lr.drop_last() =~= line);
}

/// A `.word` field anywhere after the first two means objdump could not
/// decode the word, whatever the other fields hold.
pub proof fn lemma_word_directive_anywhere(parts: Seq<Seq<char>>, k: int)
    requires
        0 <= k < parts.len(),
        parts[k] == word_directive(),
    ensures
        decode_fields(parts) is None,
    decreases parts.len(),
{
    if k < parts.len() - 1 {
        assert(parts.drop_last()[k] == parts[k]);
        lemma_word_directive_anywhere(parts.drop_last(), k);
    }
}

} // verus!
