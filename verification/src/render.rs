//! Rendering of bytes: what a stretch of a line looks like in the output
//! under each rendering mode, the line-number field, and the routines that
//! append them to a buffer.
use crate::error::CatResult;
use crate::options::Options;
use vstd::prelude::*;

verus! {

pub const NEWLINE: u8 = 0x0a;

pub const CARRIAGE_RETURN: u8 = 0x0d;

pub const TAB: u8 = 0x09;

/// The two characters `^I`.
pub open spec fn caret_i() -> Seq<u8> {
    seq![0x5eu8, 0x49u8]
}

/// The two characters `^M`.
pub open spec fn caret_m() -> Seq<u8> {
    seq![0x5eu8, 0x4du8]
}

/// One byte with tabs marked: `^I` for a tab, any other byte as it is.
pub open spec fn marked_byte(b: u8) -> Seq<u8> {
    if b == TAB {
        caret_i()
    } else {
        seq![b]
    }
}

/// One byte in caret and meta notation. `tab` is what stands for a tab.
pub open spec fn escaped_byte(b: u8, tab: Seq<u8>) -> Seq<u8> {
    if b == TAB {
        tab
    } else if b < 32 {
        seq![0x5eu8, (b + 64) as u8]
    } else if b < 127 {
        seq![b]
    } else if b == 127 {
        seq![0x5eu8, 0x3fu8]
    } else if b < 160 {
        seq![0x4du8, 0x2du8, 0x5eu8, (b - 64) as u8]
    } else if b < 255 {
        seq![0x4du8, 0x2du8, (b - 128) as u8]
    } else {
        seq![0x4du8, 0x2du8, 0x5eu8, 0x3fu8]
    }
}

/// A stretch of bytes with every tab marked.
pub open spec fn marked(s: Seq<u8>) -> Seq<u8>
    decreases s.len(),
{
    if s.len() == 0 {
        Seq::empty()
    } else {
        marked(s.drop_last()) + marked_byte(s.last())
    }
}

/// A stretch of bytes, each in caret and meta notation.
pub open spec fn escaped(s: Seq<u8>, tab: Seq<u8>) -> Seq<u8>
    decreases s.len(),
{
    if s.len() == 0 {
        Seq::empty()
    } else {
        escaped(s.drop_last(), tab) + escaped_byte(s.last(), tab)
    }
}

/// `n` is the length of the longest prefix of `s` that holds no newline and,
/// where `stop_at_cr` is set, no carriage return.
pub open spec fn is_body_length(s: Seq<u8>, n: int, stop_at_cr: bool) -> bool {
    &&& 0 <= n <= s.len()
    &&& forall|i: int| 0 <= i < n ==> !is_stop(#[trigger] s[i], stop_at_cr)
    &&& n < s.len() ==> is_stop(s[n], stop_at_cr)
}

/// The byte ends a stretch of body bytes.
pub open spec fn is_stop(b: u8, stop_at_cr: bool) -> bool {
    b == NEWLINE || (stop_at_cr && b == CARRIAGE_RETURN)
}

impl Options {
    /// A stretch of body bytes as the active rendering mode shows it:
    /// escaping wins over tab marking, and tab marking over the plain copy.
    pub open spec fn rendered(self, s: Seq<u8>) -> Seq<u8> {
        if self.show_nonprinting {
            escaped(s, self.tab_bytes())
        } else if self.show_tabs {
            marked(s)
        } else {
            s
        }
    }
}

/// The decimal digits of a positive number; nothing for zero.
pub open spec fn digits(n: nat) -> Seq<u8>
    decreases n,
{
    if n == 0 {
        Seq::empty()
    } else {
        digits(n / 10).push((0x30 + n % 10) as u8)
    }
}

/// A number in decimal notation.
pub open spec fn decimal(n: nat) -> Seq<u8> {
    if n == 0 {
        seq![0x30u8]
    } else {
        digits(n)
    }
}

/// `k` spaces; none where `k` is not positive.
pub open spec fn padding(k: int) -> Seq<u8> {
    Seq::new(
        if k > 0 {
            k as nat
        } else {
            0
        },
        |i: int| 0x20u8,
    )
}

/// The line-number field: the number right-justified to a width of six,
/// then a tab. A number of more than six digits is written in full.
pub open spec fn line_number_field(n: nat) -> Seq<u8> {
    padding(6 - decimal(n).len()) + decimal(n) + seq![TAB]
}

/// Append `bytes` to `output`.
pub fn append(output: &mut Vec<u8>, bytes: &[u8])
    ensures
        final(output)@ == old(output)@ + bytes@,
{
    let ghost before = output@;
    let mut i: usize = 0;
    while i < bytes.len()
        invariant
            i <= bytes@.len(),
            output@ == before + bytes@.subrange(0, i as int),
        decreases bytes@.len() - i,
    {
        output.push(bytes[i]);
        i += 1;
        assert(output@ =~= before + bytes@.subrange(0, i as int));
    }
    assert(bytes@.subrange(0, i as int) =~= bytes@);
}

/// Append the line-number field of `number` to `output`.
pub fn write_line_number(output: &mut Vec<u8>, number: usize)
    ensures
        final(output)@ == old(output)@ + line_number_field(number as nat),
{
    let ghost before = output@;
    let mut text: Vec<u8> = Vec::new();
    let mut rest: usize = number;
    while rest > 0
        invariant
            digits(number as nat) == digits(rest as nat) + text@,
        decreases rest,
    {
        let d: u8 = (rest % 10) as u8;
        text.insert(0, 0x30 + d);
        proof {
            assert(digits(rest as nat) == digits((rest / 10) as nat).push((0x30 + d) as u8));
            assert(digits(rest as nat) + text@.subrange(1, text@.len() as int) =~= digits(
                (rest / 10) as nat,
            ) + text@);
        }
        rest = rest / 10;
    }
    if number == 0 {
        text.push(0x30);
    }
    assert(text@ =~= decimal(number as nat));
    let mut width: usize = text.len();
    while width < 6
        invariant
            text@.len() <= width,
            width <= 6 || width == text@.len(),
            output@ == before + padding(width - text@.len()),
        decreases 6 - width,
    {
        output.push(0x20);
        width += 1;
        assert(output@ =~= before + padding(width - text@.len()));
    }
    assert(padding(width - text@.len()) =~= padding(6 - text@.len()));
    append(output, text.as_slice());
    output.push(TAB);
    assert(output@ =~= before + line_number_field(number as nat));
}

/// Copy bytes up to the next newline or carriage return, or to the end of
/// the buffer. Returns the number of bytes taken from `inbuf`.
pub fn write_to_end(inbuf: &[u8], output: &mut Vec<u8>) -> (n: usize)
    ensures
        is_body_length(inbuf@, n as int, true),
        final(output)@ == old(output)@ + inbuf@.subrange(0, n as int),
{
    let ghost before = output@;
    let mut n: usize = 0;
    while n < inbuf.len() && inbuf[n] != NEWLINE && inbuf[n] != CARRIAGE_RETURN
        invariant
            n <= inbuf@.len(),
            forall|i: int| 0 <= i < n ==> !is_stop(#[trigger] inbuf@[i], true),
            output@ == before + inbuf@.subrange(0, n as int),
        decreases inbuf@.len() - n,
    {
        output.push(inbuf[n]);
        n += 1;
        assert(output@ =~= before + inbuf@.subrange(0, n as int));
    }
    n
}

/// Copy bytes up to the next newline or carriage return, or to the end of
/// the buffer, with `^I` in place of every tab. Returns the number of bytes
/// taken from `inbuf`.
pub fn write_tab_to_end(inbuf: &[u8], output: &mut Vec<u8>) -> (n: usize)
    ensures
        is_body_length(inbuf@, n as int, true),
        final(output)@ == old(output)@ + marked(inbuf@.subrange(0, n as int)),
{
    let ghost before = output@;
    let mut n: usize = 0;
    assert(marked(inbuf@.subrange(0, 0)) =~= Seq::<u8>::empty());
    assert(output@ =~= before + marked(inbuf@.subrange(0, 0)));
    while n < inbuf.len() && inbuf[n] != NEWLINE && inbuf[n] != CARRIAGE_RETURN
        invariant
            n <= inbuf@.len(),
            forall|i: int| 0 <= i < n ==> !is_stop(#[trigger] inbuf@[i], true),
            output@ == before + marked(inbuf@.subrange(0, n as int)),
        decreases inbuf@.len() - n,
    {
        let byte: u8 = inbuf[n];
        if byte == TAB {
            output.push(0x5e);
            output.push(0x49);
        } else {
            output.push(byte);
        }
        n += 1;
        proof {
            let s = inbuf@.subrange(0, n as int);
            assert(s.drop_last() =~= inbuf@.subrange(0, n - 1));
            assert(s.last() == byte);
            assert(output@ =~= before + marked(s));
        }
    }
    n
}

/// Write bytes in caret and meta notation up to the next newline, or to the
/// end of the buffer; `tab` is written for every tab. Returns the number of
/// bytes taken from `inbuf`.
pub fn write_nonprint_to_end(inbuf: &[u8], output: &mut Vec<u8>, tab: &[u8]) -> (n: usize)
    ensures
        is_body_length(inbuf@, n as int, false),
        final(output)@ == old(output)@ + escaped(inbuf@.subrange(0, n as int), tab@),
{
    let ghost before = output@;
    let mut n: usize = 0;
    assert(escaped(inbuf@.subrange(0, 0), tab@) =~= Seq::<u8>::empty());
    assert(output@ =~= before + escaped(inbuf@.subrange(0, 0), tab@));
    while n < inbuf.len() && inbuf[n] != NEWLINE
        invariant
            n <= inbuf@.len(),
            forall|i: int| 0 <= i < n ==> !is_stop(#[trigger] inbuf@[i], false),
            output@ == before + escaped(inbuf@.subrange(0, n as int), tab@),
        decreases inbuf@.len() - n,
    {
        let byte: u8 = inbuf[n];
        let ghost so_far = output@;
        if byte == TAB {
            append(output, tab);
        } else if byte < 32 {
            output.push(0x5e);
            output.push(byte + 64);
        } else if byte < 127 {
            output.push(byte);
        } else if byte == 127 {
            output.push(0x5e);
            output.push(0x3f);
        } else if byte < 160 {
            output.push(0x4d);
            output.push(0x2d);
            output.push(0x5e);
            output.push(byte - 64);
        } else if byte < 255 {
            output.push(0x4d);
            output.push(0x2d);
            output.push(byte - 128);
        } else {
            output.push(0x4d);
            output.push(0x2d);
            output.push(0x5e);
            output.push(0x3f);
        }
        n += 1;
        proof {
            let s = inbuf@.subrange(0, n as int);
            assert(output@ =~= so_far + escaped_byte(byte, tab@));
            assert(s.drop_last() =~= inbuf@.subrange(0, n - 1));
            assert(s.last() == byte);
            assert(output@ =~= before + escaped(s, tab@));
        }
    }
    n
}

/// Write the body bytes at the start of `inbuf` in the rendering mode that
/// `options` selects. Returns the number of bytes taken from `inbuf`: the
/// scan stops at a newline, at a carriage return unless bytes are escaped,
/// and at the end of the buffer.
pub fn write_end(output: &mut Vec<u8>, inbuf: &[u8], options: &Options) -> (n: usize)
    ensures
        is_body_length(inbuf@, n as int, !options.show_nonprinting),
        final(output)@ == old(output)@ + options.rendered(inbuf@.subrange(0, n as int)),
{
    if options.show_nonprinting {
        write_nonprint_to_end(inbuf, output, options.tab().as_bytes())
    } else if options.show_tabs {
        write_tab_to_end(inbuf, output)
    } else {
        write_to_end(inbuf, output)
    }
}

/// Append a line end to `writer`. Appending to a buffer in memory cannot
/// fail, so the result is always `Ok`.
pub fn write_end_of_line(writer: &mut Vec<u8>, end_of_line: &[u8]) -> (r: CatResult<()>)
    ensures
        r is Ok,
        final(writer)@ == old(writer)@ + end_of_line@,
{
    append(writer, end_of_line);
    Ok(())
}

} // verus!
