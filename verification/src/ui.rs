//! Text user interface: the lines of the framed boxes the tool draws, and
//! line editing from single key presses. Drawing and reading keys stay with
//! the caller.

use vstd::prelude::*;

verus! {

broadcast use vstd::string::axiom_spec_iter;

/// Width of a box between its frame characters.
pub const BOX_INNER: usize = 60;

pub open spec fn repeat(c: char, n: int) -> Seq<char> {
    Seq::new(n as nat, |i: int| c)
}

pub open spec fn spaces(n: int) -> Seq<char> {
    repeat(' ', n)
}

/// At most the first `n` characters of `s`.
pub open spec fn clip(s: Seq<char>, n: int) -> Seq<char> {
    if s.len() <= n {
        s
    } else {
        s.take(n)
    }
}

/// Left margin that centers a box on a screen `cols` characters wide.
pub open spec fn margin_of(cols: int) -> int {
    if cols > 62 {
        (cols - 62) / 2
    } else {
        0
    }
}

/// A frame line: margin, left corner, `═` across, right corner.
pub open spec fn frame_text(cols: int, left: char, right: char) -> Seq<char> {
    spaces(margin_of(cols)) + seq![left] + repeat('\u{2550}', 60) + seq![right]
}

pub open spec fn line_text(cols: int, text: Seq<char>) -> Seq<char> {
    let t = clip(text, 58);
    spaces(margin_of(cols)) + seq!['\u{2551}', ' '] + t + spaces(58 - t.len()) + seq![' ', '\u{2551}']
}

pub open spec fn center_text(cols: int, text: Seq<char>) -> Seq<char> {
    let t = clip(text, 60);
    let left = (60 - t.len()) / 2;
    spaces(margin_of(cols)) + seq!['\u{2551}'] + spaces(left) + t + spaces(60 - t.len() - left) + seq![
        '\u{2551}',
    ]
}

pub open spec fn kv_text(cols: int, label: Seq<char>, value: Seq<char>) -> Seq<char> {
    let l = clip(label, 20);
    let v = clip(value, 38);
    spaces(margin_of(cols)) + seq!['\u{2551}', ' '] + l + spaces(20 - l.len()) + v + spaces(38 - v.len())
        + seq![' ', '\u{2551}']
}

/// Left margin of a box on a screen `cols` characters wide.
pub fn margin(cols: usize) -> (m: usize)
    ensures
        m == margin_of(cols as int),
{
    let box_total = BOX_INNER + 2;
    if cols > box_total {
        (cols - box_total) / 2
    } else {
        0
    }
}

fn push_repeat(v: &mut Vec<char>, c: char, n: usize)
    ensures
        final(v)@ == old(v)@ + repeat(c, n as int),
{
    let mut i: usize = 0;
    while i < n
        invariant
            i <= n,
            v@ == old(v)@ + repeat(c, i as int),
        decreases n - i,
    {
        v.push(c);
        i += 1;
        assert(v@ =~= old(v)@ + repeat(c, i as int));
    }
}

/// The characters of `s`.
fn chars_of(s: &str) -> (v: Vec<char>)
    ensures
        v@ == s@,
{
    let mut v: Vec<char> = Vec::new();
    for c in it: s.chars()
        invariant
            v@ == it.seq().take(it.index() as int),
            it.seq() == s@,
    {
        v.push(c);
    }
    v
}

/// Appends at most `n` characters of `s`; returns how many.
fn push_clipped(v: &mut Vec<char>, s: &str, n: usize) -> (count: usize)
    ensures
        final(v)@ == old(v)@ + clip(s@, n as int),
        count == clip(s@, n as int).len(),
{
    let cs = chars_of(s);
    let mut i: usize = 0;
    while i < cs.len() && i < n
        invariant
            i <= cs@.len(),
            i <= n,
            cs@ == s@,
            v@ == old(v)@ + s@.take(i as int),
        decreases cs@.len() - i,
    {
        v.push(cs[i]);
        i += 1;
        assert(v@ =~= old(v)@ + s@.take(i as int));
    }
    assert(s@.take(i as int) =~= clip(s@, n as int));
    i
}

fn frame(cols: usize, left: char, right: char) -> (line: Vec<char>)
    ensures
        line@ == frame_text(cols as int, left, right),
{
    let mut line: Vec<char> = Vec::new();
    push_repeat(&mut line, ' ', margin(cols));
    line.push(left);
    push_repeat(&mut line, '\u{2550}', BOX_INNER);
    line.push(right);
    assert(line@ =~= frame_text(cols as int, left, right));
    line
}

/// Top edge of a box.
pub fn box_top(cols: usize) -> (line: Vec<char>)
    ensures
        line@ == frame_text(cols as int, '\u{2554}', '\u{2557}'),
{
    frame(cols, '\u{2554}', '\u{2557}')
}

/// Bottom edge of a box.
pub fn box_bottom(cols: usize) -> (line: Vec<char>)
    ensures
        line@ == frame_text(cols as int, '\u{255A}', '\u{255D}'),
{
    frame(cols, '\u{255A}', '\u{255D}')
}

/// Separator across a box.
pub fn box_sep(cols: usize) -> (line: Vec<char>)
    ensures
        line@ == frame_text(cols as int, '\u{2560}', '\u{2563}'),
{
    frame(cols, '\u{2560}', '\u{2563}')
}

/// An empty line of a box.
pub fn box_blank(cols: usize) -> (line: Vec<char>)
    ensures
        line@ == spaces(margin_of(cols as int)) + seq!['\u{2551}'] + spaces(60) + seq!['\u{2551}'],
{
    let mut line: Vec<char> = Vec::new();
    push_repeat(&mut line, ' ', margin(cols));
    line.push('\u{2551}');
    push_repeat(&mut line, ' ', BOX_INNER);
    line.push('\u{2551}');
    line
}

/// A left-aligned line of text in a box, cut to the box.
pub fn box_line(cols: usize, text: &str) -> (line: Vec<char>)
    ensures
        line@ == line_text(cols as int, text@),
{
    let content_w = BOX_INNER - 2;
    let mut line: Vec<char> = Vec::new();
    push_repeat(&mut line, ' ', margin(cols));
    line.push('\u{2551}');
    line.push(' ');
    let n = push_clipped(&mut line, text, content_w);
    push_repeat(&mut line, ' ', content_w - n);
    line.push(' ');
    line.push('\u{2551}');
    assert(line@ =~= line_text(cols as int, text@));
    line
}

/// A centered line of text in a box, cut to the box.
pub fn box_center(cols: usize, text: &str) -> (line: Vec<char>)
    ensures
        line@ == center_text(cols as int, text@),
{
    let mut line: Vec<char> = Vec::new();
    push_repeat(&mut line, ' ', margin(cols));
    line.push('\u{2551}');
    let mut body: Vec<char> = Vec::new();
    let n = push_clipped(&mut body, text, BOX_INNER);
    let left_pad = (BOX_INNER - n) / 2;
    let right_pad = BOX_INNER - n - left_pad;
    push_repeat(&mut line, ' ', left_pad);
    let mut i: usize = 0;
    while i < body.len()
        invariant
            i <= body@.len(),
            body@ == clip(text@, 60),
            line@ == spaces(margin_of(cols as int)) + seq!['\u{2551}'] + spaces(left_pad as int) + body@.take(i as int),
        decreases body@.len() - i,
    {
        line.push(body[i]);
        i += 1;
        assert(line@ =~= spaces(margin_of(cols as int)) + seq!['\u{2551}'] + spaces(left_pad as int) + body@.take(i as int));
    }
    push_repeat(&mut line, ' ', right_pad);
    line.push('\u{2551}');
    assert(line@ =~= center_text(cols as int, text@));
    line
}

/// A line of a box with a label column 20 characters wide and a value.
pub fn box_kv(cols: usize, label: &str, value: &str) -> (line: Vec<char>)
    ensures
        line@ == kv_text(cols as int, label@, value@),
{
    let label_w: usize = 20;
    let content_w = BOX_INNER - 2;
    let mut line: Vec<char> = Vec::new();
    push_repeat(&mut line, ' ', margin(cols));
    line.push('\u{2551}');
    line.push(' ');
    let printed = push_clipped(&mut line, label, label_w);
    push_repeat(&mut line, ' ', label_w - printed);
    let value_w = content_w - label_w;
    let printed = push_clipped(&mut line, value, value_w);
    push_repeat(&mut line, ' ', value_w - printed);
    line.push(' ');
    line.push('\u{2551}');
    assert(line@ =~= kv_text(cols as int, label@, value@));
    line
}

/// The box shown while an operation runs: the message centered between
/// blank lines.
pub fn show_working(cols: usize, message: &str) -> (lines: Vec<Vec<char>>)
    ensures
        lines@.len() == 5,
        lines@[0]@ == frame_text(cols as int, '\u{2554}', '\u{2557}'),
        lines@[1]@ == spaces(margin_of(cols as int)) + seq!['\u{2551}'] + spaces(60) + seq!['\u{2551}'],
        lines@[2]@ == center_text(cols as int, message@),
        lines@[3]@ == lines@[1]@,
        lines@[4]@ == frame_text(cols as int, '\u{255A}', '\u{255D}'),
{
    let mut lines: Vec<Vec<char>> = Vec::new();
    lines.push(box_top(cols));
    lines.push(box_blank(cols));
    lines.push(box_center(cols, message));
    lines.push(box_blank(cols));
    lines.push(box_bottom(cols));
    lines
}

/// The foot of a box that waits for a key.
pub fn press_any_key(cols: usize) -> (lines: Vec<Vec<char>>)
    ensures
        lines@.len() == 3,
        lines@[0]@ == frame_text(cols as int, '\u{2560}', '\u{2563}'),
        lines@[1]@ == line_text(cols as int, "Press any key to continue..."@),
        lines@[2]@ == frame_text(cols as int, '\u{255A}', '\u{255D}'),
{
    let mut lines: Vec<Vec<char>> = Vec::new();
    lines.push(box_sep(cols));
    lines.push(box_line(cols, "Press any key to continue..."));
    lines.push(box_bottom(cols));
    lines
}

/// The text console has no cursor to show.
pub fn show_cursor() {
}

/// What the screen shows for a key press while a line is read.
#[derive(PartialEq, Eq, Structural)]
pub enum LineEcho {
    /// Enter: the line is complete.
    Newline,
    /// The last character was erased.
    Backspace,
    /// The character was stored.
    Char(char),
    /// The key was ignored.
    Nothing,
}

/// One key press of line editing into `buf`, which holds `len` characters:
/// Enter (CR or LF) ends the line, Backspace or DEL erases the last
/// character, a printable ASCII character is stored while room is left, any
/// other key is ignored. Returns the new length and what to echo.
pub fn read_line(buf: &mut [u8], len: usize, ch: char) -> (r: (usize, LineEcho))
    requires
        len <= old(buf)@.len(),
    ensures
        ({
            let code = ch as u32;
            if code == 0x0D || code == 0x0A {
                r == (len, LineEcho::Newline) && final(buf)@ == old(buf)@
            } else if code == 0x08 || code == 0x7F {
                final(buf)@ == old(buf)@ && r == (if len > 0 {
                    ((len - 1) as usize, LineEcho::Backspace)
                } else {
                    (len, LineEcho::Nothing)
                })
            } else if code < 0x20 || code > 0x7E || len >= old(buf)@.len() {
                r == (len, LineEcho::Nothing) && final(buf)@ == old(buf)@
            } else {
                r == ((len + 1) as usize, LineEcho::Char(ch)) && final(buf)@ == old(buf)@.update(
                    len as int,
                    code as u8,
                )
            }
        }),
{
    let code = ch as u32;
    if code == 0x0D || code == 0x0A {
        return (len, LineEcho::Newline);
    }
    if code == 0x08 || code == 0x7F {
        if len > 0 {
            return (len - 1, LineEcho::Backspace);
        }
        return (len, LineEcho::Nothing);
    }
    if code < 0x20 || code > 0x7E {
        return (len, LineEcho::Nothing);
    }
    if len >= buf.len() {
        return (len, LineEcho::Nothing);
    }
    buf[len] = code as u8;
    (len + 1, LineEcho::Char(ch))
}

} // verus!
