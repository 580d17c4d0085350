//! What goes to the terminal: cursor moves, the redraw of an edited line,
//! and where an answer is written.

use vstd::prelude::*;
use crate::flags::Flags;

verus! {

/// `ESC [`, which opens a control sequence.
pub open spec fn csi() -> Seq<u8> {
    seq![0x1Bu8, 0x5Bu8]
}

/// `ESC [ D`: one column left.
pub open spec fn cursor_left() -> Seq<u8> {
    seq![0x1Bu8, 0x5Bu8, 0x44u8]
}

/// `ESC [ C`: one column right.
pub open spec fn cursor_right() -> Seq<u8> {
    seq![0x1Bu8, 0x5Bu8, 0x43u8]
}

/// `ESC [ K`: clear from the cursor to the end of the line.
pub open spec fn clear_to_eol() -> Seq<u8> {
    seq![0x1Bu8, 0x5Bu8, 0x4Bu8]
}

/// `ESC [ 7 m`: reverse video on.
pub open spec fn reverse_on() -> Seq<u8> {
    seq![0x1Bu8, 0x5Bu8, 0x37u8, 0x6Du8]
}

/// `ESC [ 2 7 m`: reverse video off.
pub open spec fn reverse_off() -> Seq<u8> {
    seq![0x1Bu8, 0x5Bu8, 0x32u8, 0x37u8, 0x6Du8]
}

/// A number in decimal, as ASCII digits without leading zeros.
pub open spec fn decimal(n: nat) -> Seq<u8>
    decreases n,
{
    if n < 10 {
        seq![(0x30 + n) as u8]
    } else {
        decimal(n / 10).push((0x30 + n % 10) as u8)
    }
}

/// The sequence that moves the cursor `n` columns: `ESC [`, the number,
/// and the letter of the direction.
pub open spec fn cursor_move(n: nat, direction: u8) -> Seq<u8> {
    csi() + decimal(n) + seq![direction]
}

/// Appends a number in decimal.
pub fn push_decimal(out: &mut Vec<u8>, n: usize)
    ensures
        final(out)@ == old(out)@ + decimal(n as nat),
    decreases n,
{
    if n >= 10 {
        push_decimal(out, n / 10);
    }
    let digit: u8 = 0x30 + (n % 10) as u8;
    out.push(digit);
    assert(out@ =~= old(out)@ + decimal(n as nat));
}

/// Appends bytes.
pub fn push_bytes(out: &mut Vec<u8>, bytes: &[u8])
    ensures
        final(out)@ == old(out)@ + bytes@,
{
    let mut i: usize = 0;
    assert(out@ =~= old(out)@ + bytes@.subrange(0, 0));
    while i < bytes.len()
        invariant
            i <= bytes.len(),
            out@ == old(out)@ + bytes@.subrange(0, i as int),
        decreases bytes.len() - i,
    {
        out.push(bytes[i]);
        i += 1;
        assert(out@ =~= old(out)@ + bytes@.subrange(0, i as int));
    }
    assert(bytes@.subrange(0, bytes.len() as int) =~= bytes@);
}

/// Appends the sequence that moves the cursor `n` columns.
pub fn push_cursor_move(out: &mut Vec<u8>, n: usize, direction: u8)
    ensures
        final(out)@ == old(out)@ + cursor_move(n as nat, direction),
{
    out.push(0x1B);
    out.push(0x5B);
    push_decimal(out, n);
    out.push(direction);
    assert(out@ =~= old(out)@ + cursor_move(n as nat, direction));
}

/// Appends the sequence that clears to the end of the line.
pub fn push_clear_to_eol(out: &mut Vec<u8>)
    ensures
        final(out)@ == old(out)@ + clear_to_eol(),
{
    out.push(0x1B);
    out.push(0x5B);
    out.push(0x4B);
    assert(out@ =~= old(out)@ + clear_to_eol());
}

/// The bytes that move the cursor left by `n` columns.
pub fn cursor_left_n(n: usize) -> (out: Vec<u8>)
    ensures
        out@ == cursor_move(n as nat, 0x44),
{
    let mut out: Vec<u8> = Vec::new();
    push_cursor_move(&mut out, n, 0x44);
    assert(out@ =~= cursor_move(n as nat, 0x44));
    out
}

/// The bytes that move the cursor right by `n` columns.
pub fn cursor_right_n(n: usize) -> (out: Vec<u8>)
    ensures
        out@ == cursor_move(n as nat, 0x43),
{
    let mut out: Vec<u8> = Vec::new();
    push_cursor_move(&mut out, n, 0x43);
    assert(out@ =~= cursor_move(n as nat, 0x43));
    out
}

/// The move to the left by `n` columns; nothing for `n == 0`.
pub open spec fn left_if_any(n: nat) -> Seq<u8> {
    if n > 0 {
        cursor_move(n, 0x44)
    } else {
        Seq::empty()
    }
}

/// What repaints an edited line: go left by the old cursor position, clear
/// to the end of the line, write the buffer, and go left by what lies
/// behind the new cursor position.
pub open spec fn redraw_bytes(buffer: Seq<u8>, cursor_pos: nat, prev_cursor_pos: nat) -> Seq<u8> {
    left_if_any(prev_cursor_pos) + clear_to_eol() + buffer + left_if_any(
        (buffer.len() - cursor_pos) as nat,
    )
}

/// The bytes that repaint the line after an edit that moved the cursor
/// from `prev_cursor_pos` to `cursor_pos`.
pub fn redraw_input(buffer: &[u8], cursor_pos: usize, prev_cursor_pos: usize) -> (out: Vec<u8>)
    requires
        cursor_pos <= buffer.len(),
    ensures
        out@ == redraw_bytes(buffer@, cursor_pos as nat, prev_cursor_pos as nat),
{
    let mut out: Vec<u8> = Vec::new();
    if prev_cursor_pos > 0 {
        push_cursor_move(&mut out, prev_cursor_pos, 0x44);
    }
    push_clear_to_eol(&mut out);
    push_bytes(&mut out, buffer);
    let tail = buffer.len() - cursor_pos;
    if tail > 0 {
        push_cursor_move(&mut out, tail, 0x44);
    }
    assert(out@ =~= redraw_bytes(buffer@, cursor_pos as nat, prev_cursor_pos as nat));
    out
}

/// `n` times: one column left, then clear to the end of the line.
pub open spec fn erase_back_bytes(n: nat) -> Seq<u8>
    decreases n,
{
    if n == 0 {
        Seq::empty()
    } else {
        erase_back_bytes((n - 1) as nat) + cursor_left() + clear_to_eol()
    }
}

/// The bytes that take the last `n` characters off the display, one at a
/// time.
pub fn erase_back(n: usize) -> (out: Vec<u8>)
    ensures
        out@ == erase_back_bytes(n as nat),
{
    let mut out: Vec<u8> = Vec::new();
    let mut i: usize = 0;
    assert(out@ =~= erase_back_bytes(0));
    while i < n
        invariant
            i <= n,
            out@ == erase_back_bytes(i as nat),
        decreases n - i,
    {
        let ghost before = out@;
        out.push(0x1B);
        out.push(0x5B);
        out.push(0x44);
        assert(out@ =~= before + cursor_left());
        push_clear_to_eol(&mut out);
        i += 1;
        assert(out@ =~= erase_back_bytes(i as nat));
    }
    out
}

/// What takes a line of `n` characters off the display: nothing for an
/// empty line, else go left by `n` and clear to the end of the line.
pub open spec fn erase_line_bytes(n: nat) -> Seq<u8> {
    if n == 0 {
        Seq::empty()
    } else {
        cursor_move(n, 0x44) + clear_to_eol()
    }
}

/// The bytes that take a line of `n` characters off the display.
pub fn erase_line(n: usize) -> (out: Vec<u8>)
    ensures
        out@ == erase_line_bytes(n as nat),
{
    let mut out: Vec<u8> = Vec::new();
    if n > 0 {
        push_cursor_move(&mut out, n, 0x44);
        push_clear_to_eol(&mut out);
    }
    assert(out@ =~= erase_line_bytes(n as nat));
    out
}

/// Which streams an answer is written to.
#[derive(Clone, Copy, Debug, PartialEq, Eq, Structural)]
pub struct Routes {
    pub stdout: bool,
    pub stderr: bool,
}

/// Where an answer goes: to the chosen stream, and to the other one as
/// well where both are asked for.
pub fn output_routes(to_stderr: bool, both: bool) -> (routes: Routes)
    ensures
        routes.stderr == (to_stderr || both),
        routes.stdout == (!to_stderr || both),
{
    Routes { stdout: !to_stderr || both, stderr: to_stderr || both }
}

/// What taking the default answer comes to.
#[derive(Clone, Copy, Debug, PartialEq, Eq, Structural)]
pub struct DefaultAnswer {
    /// The exit status: the length of the default in bytes.
    pub status: i32,
    /// Where the default is written; nowhere in a silent read.
    pub routes: Routes,
}

/// Takes the default answer: it is written unless the read is silent, to
/// both streams where the flags ask for both or the return key ends the
/// read, and its length is the exit status.
pub fn handle_default(default_string: &str, flags: &Flags, output_to_stderr: bool) -> (answer:
    DefaultAnswer)
    ensures
        answer.status == vstd::utf8::encode_utf8(default_string@).len() as usize as i32,
        flags.silent ==> !answer.routes.stdout && !answer.routes.stderr,
        !flags.silent ==> answer.routes.stderr == (output_to_stderr || flags.both || flags.ret_key),
        !flags.silent ==> answer.routes.stdout == (!output_to_stderr || flags.both
            || flags.ret_key),
{
    let routes = if flags.silent {
        Routes { stdout: false, stderr: false }
    } else {
        output_routes(output_to_stderr, flags.both || flags.ret_key)
    };
    let len = default_string.len();
    DefaultAnswer {
        status: #[verifier::truncate]
        (len as i32),
        routes,
    }
}

/// What ends the display: a newline where the flags ask for one.
pub fn trailing_newline_if(flags: &Flags) -> (out: Vec<u8>)
    ensures
        out@ == if flags.trailing_newline {
            seq![0x0Au8]
        } else {
            Seq::<u8>::empty()
        },
{
    let mut out: Vec<u8> = Vec::new();
    if flags.trailing_newline {
        out.push(0x0A);
    }
    out
}

} // verus!
