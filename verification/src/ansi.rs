//! ANSI escape sequences for styling and cursor control, modelled exactly as
//! sequences of characters.

use vstd::prelude::*;

verus! {

/// The decimal digits of `n`, most significant first.
pub open spec fn dec_of(n: nat) -> Seq<char>
    decreases n,
{
    if n < 10 {
        seq![digit_char(n)]
    } else {
        dec_of(n / 10) + seq![digit_char(n % 10)]
    }
}

/// The character for one decimal digit.
pub open spec fn digit_char(d: nat) -> char {
    ((d + 48) as u8) as char
}

/// The control sequence introducer that starts every escape sequence.
pub open spec fn csi() -> Seq<char> {
    seq!['\u{1b}', '[']
}

/// The sequence that selects an indexed foreground color.
pub open spec fn fg_seq(code: nat) -> Seq<char> {
    csi() + seq!['3', '8', ';', '5', ';'] + dec_of(code) + seq!['m']
}

/// The sequence that selects an indexed background color.
pub open spec fn bg_seq(code: nat) -> Seq<char> {
    csi() + seq!['4', '8', ';', '5', ';'] + dec_of(code) + seq!['m']
}

/// The sequence that turns on the display attribute with SGR code `sgr`.
pub open spec fn attr_seq(sgr: nat) -> Seq<char> {
    csi() + dec_of(sgr) + seq!['m']
}

/// The sequence that resets all colors and attributes.
pub open spec fn reset_seq() -> Seq<char> {
    seq!['\u{1b}', '[', '0', 'm']
}

/// The sequence that moves the cursor to column `x`, row `y` (zero based;
/// the wire format is one based, row first).
pub open spec fn move_to_seq(x: nat, y: nat) -> Seq<char> {
    csi() + dec_of(y + 1) + seq![';'] + dec_of(x + 1) + seq!['H']
}

/// The sequence that makes the cursor visible.
pub open spec fn show_cursor_seq() -> Seq<char> {
    seq!['\u{1b}', '[', '?', '2', '5', 'h']
}

/// Append the decimal digits of `n` to `out`.
pub fn push_dec(out: &mut Vec<char>, n: usize)
    ensures
        final(out)@ == old(out)@ + dec_of(n as nat),
    decreases n,
{
    if n < 10 {
        let d: u8 = (n as u8) + 48;
        out.push(d as char);
        assert(out@ =~= old(out)@ + dec_of(n as nat));
    } else {
        push_dec(out, n / 10);
        let d: u8 = ((n % 10) as u8) + 48;
        out.push(d as char);
        assert(out@ =~= old(out)@ + dec_of(n as nat));
    }
}

/// Append the control sequence introducer to `out`.
pub fn push_csi(out: &mut Vec<char>)
    ensures
        final(out)@ == old(out)@ + csi(),
{
    out.push('\u{1b}');
    out.push('[');
    assert(out@ =~= old(out)@ + csi());
}

/// Append the foreground-color sequence for `code` to `out`.
pub fn push_fg(out: &mut Vec<char>, code: u8)
    ensures
        final(out)@ == old(out)@ + fg_seq(code as nat),
{
    push_csi(out);
    out.push('3');
    out.push('8');
    out.push(';');
    out.push('5');
    out.push(';');
    push_dec(out, code as usize);
    out.push('m');
    assert(out@ =~= old(out)@ + fg_seq(code as nat));
}

/// Append the background-color sequence for `code` to `out`.
pub fn push_bg(out: &mut Vec<char>, code: u8)
    ensures
        final(out)@ == old(out)@ + bg_seq(code as nat),
{
    push_csi(out);
    out.push('4');
    out.push('8');
    out.push(';');
    out.push('5');
    out.push(';');
    push_dec(out, code as usize);
    out.push('m');
    assert(out@ =~= old(out)@ + bg_seq(code as nat));
}

/// Append the attribute sequence for SGR code `sgr` to `out`.
pub fn push_attr(out: &mut Vec<char>, sgr: u8)
    ensures
        final(out)@ == old(out)@ + attr_seq(sgr as nat),
{
    push_csi(out);
    push_dec(out, sgr as usize);
    out.push('m');
    assert(out@ =~= old(out)@ + attr_seq(sgr as nat));
}

/// Append the reset sequence to `out`.
pub fn push_reset(out: &mut Vec<char>)
    ensures
        final(out)@ == old(out)@ + reset_seq(),
{
    out.push('\u{1b}');
    out.push('[');
    out.push('0');
    out.push('m');
    assert(out@ =~= old(out)@ + reset_seq());
}

/// Append the cursor-move sequence to `out`.
pub fn push_move_to(out: &mut Vec<char>, x: usize, y: usize)
    requires
        x < usize::MAX,
        y < usize::MAX,
    ensures
        final(out)@ == old(out)@ + move_to_seq(x as nat, y as nat),
{
    push_csi(out);
    push_dec(out, y + 1);
    out.push(';');
    push_dec(out, x + 1);
    out.push('H');
    assert(out@ =~= old(out)@ + move_to_seq(x as nat, y as nat));
}

/// Append the show-cursor sequence to `out`.
pub fn push_show_cursor(out: &mut Vec<char>)
    ensures
        final(out)@ == old(out)@ + show_cursor_seq(),
{
    out.push('\u{1b}');
    out.push('[');
    out.push('?');
    out.push('2');
    out.push('5');
    out.push('h');
    assert(out@ =~= old(out)@ + show_cursor_seq());
}

/// Relies on `String`'s `FromIterator<char>` impl: collecting characters
/// yields the string of exactly those characters in order.
#[verifier::external_body]
pub fn chars_to_string(v: Vec<char>) -> (s: String)
    ensures
        s@ == v@,
{
    v.into_iter().collect()
}

/// Relies on `str::chars`: it yields exactly the characters of the string
/// in order.
#[verifier::external_body]
pub fn str_chars(s: &str) -> (v: Vec<char>)
    ensures
        v@ == s@,
{
    s.chars().collect()
}

} // verus!
