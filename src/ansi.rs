//! Terminal control: ANSI escape sequences, control characters and colors.
use crate::text::chars_of;
use vstd::prelude::*;

verus! {

/// Escape.
pub const ESC: u8 = 0x1b;

/// Various ANSI escape sequences.
#[derive(Clone, Copy, Debug, PartialEq, Eq, Structural)]
pub enum AnsiCode {
    CursorUp,
    CursorDown,
    CursorRight,
    CursorLeft,
    CursorResetColumn,
    Clear,
    ClearLine,
    ClearToEndOfLine,
    AbsolutePosition(usize, usize),
    /// Pop the top line.
    PopTop,
    /// Pop the bottom line.
    PopBottom,
    /// Add a new line to top.
    PushTop,
}

/// The decimal digits of `n`, as ASCII bytes.
pub open spec fn decimal_bytes(n: nat) -> Seq<u8>
    decreases n,
{
    if n < 10 {
        seq![(n + 48) as u8]
    } else {
        decimal_bytes(n / 10).push(((n % 10) + 48) as u8)
    }
}

/// The bytes of an ASCII text.
pub open spec fn ascii(s: Seq<char>) -> Seq<u8> {
    s.map_values(|c: char| c as u8)
}

/// `ESC [` followed by `tail`.
pub open spec fn csi(tail: Seq<char>) -> Seq<u8> {
    seq![ESC, '[' as u8] + ascii(tail)
}

/// The bytes of an escape sequence.
pub open spec fn ansi_bytes(code: AnsiCode) -> Seq<u8> {
    match code {
        AnsiCode::CursorUp => csi(seq!['A']),
        AnsiCode::CursorDown => csi(seq!['B']),
        AnsiCode::CursorRight => csi(seq!['C']),
        AnsiCode::CursorLeft => csi(seq!['D']),
        AnsiCode::CursorResetColumn => csi(seq!['G']),
        AnsiCode::Clear => csi(seq!['c']),
        AnsiCode::ClearLine => csi(seq!['2', 'K']),
        AnsiCode::ClearToEndOfLine => csi(seq!['0', 'K']),
        AnsiCode::AbsolutePosition(row, column) => seq![ESC, '[' as u8] + decimal_bytes(row as nat) + seq![
            ';' as u8,
        ] + decimal_bytes(column as nat) + seq!['H' as u8],
        AnsiCode::PopTop => csi(seq!['p', 'o', 'p', 't']),
        AnsiCode::PopBottom => csi(seq!['p', 'o', 'p', 'b']),
        AnsiCode::PushTop => csi(seq!['p', 'u', 's', 'h', 't']),
    }
}

fn push_decimal(out: &mut Vec<u8>, n: usize)
    ensures
        final(out)@ == old(out)@ + decimal_bytes(n as nat),
    decreases n,
{
    if n >= 10 {
        push_decimal(out, n / 10);
    }
    let d = (n % 10) as u8;
    out.push(d + 48);
    proof {
        if n >= 10 {
            assert(final(out)@ =~= old(out)@ + decimal_bytes(n as nat));
        } else {
            assert(final(out)@ =~= old(out)@ + decimal_bytes(n as nat));
        }
    }
}

fn push_ascii(out: &mut Vec<u8>, s: &str)
    requires
        forall|i: int| 0 <= i < s@.len() ==> (s@[i] as u32) < 128,
    ensures
        final(out)@ == old(out)@ + ascii(s@),
{
    let cs = chars_of(s);
    let ghost o0 = out@;
    let mut i: usize = 0;
    while i < cs.len()
        invariant
            i <= cs@.len(),
            cs@ == s@,
            out@ == o0 + ascii(s@.subrange(0, i as int)),
        decreases cs@.len() - i,
    {
        out.push(cs[i] as u8);
        i = i + 1;
        assert(ascii(s@.subrange(0, i as int)) =~= ascii(s@.subrange(0, i - 1)).push(cs@[i - 1] as u8));
        assert(out@ =~= o0 + ascii(s@.subrange(0, i as int)));
    }
    assert(s@.subrange(0, i as int) =~= s@);
}

impl AnsiCode {
    /// Get byte representation of ANSI code.
    pub fn to_bytes(self) -> (r: Vec<u8>)
        ensures
            r@ == ansi_bytes(self),
    {
        let mut out: Vec<u8> = vec![ESC, 91];
        let tail = match self {
            AnsiCode::CursorUp => "A",
            AnsiCode::CursorDown => "B",
            AnsiCode::CursorRight => "C",
            AnsiCode::CursorLeft => "D",
            AnsiCode::CursorResetColumn => "G",
            AnsiCode::Clear => "c",
            AnsiCode::ClearLine => "2K",
            AnsiCode::ClearToEndOfLine => "0K",
            AnsiCode::AbsolutePosition(row, column) => {
                push_decimal(&mut out, row);
                out.push(59);
                push_decimal(&mut out, column);
                out.push(72);
                assert(out@ =~= ansi_bytes(self));
                return out;
            },
            AnsiCode::PopTop => "popt",
            AnsiCode::PopBottom => "popb",
            AnsiCode::PushTop => "pusht",
        };
        proof {
            reveal_strlit("A");
            reveal_strlit("B");
            reveal_strlit("C");
            reveal_strlit("D");
            reveal_strlit("G");
            reveal_strlit("c");
            reveal_strlit("2K");
            reveal_strlit("0K");
            reveal_strlit("popt");
            reveal_strlit("popb");
            reveal_strlit("pusht");
        }
        push_ascii(&mut out, tail);
        proof {
            match self {
                AnsiCode::CursorUp => assert("A"@ =~= seq!['A']),
                AnsiCode::CursorDown => assert("B"@ =~= seq!['B']),
                AnsiCode::CursorRight => assert("C"@ =~= seq!['C']),
                AnsiCode::CursorLeft => assert("D"@ =~= seq!['D']),
                AnsiCode::CursorResetColumn => assert("G"@ =~= seq!['G']),
                AnsiCode::Clear => assert("c"@ =~= seq!['c']),
                AnsiCode::ClearLine => assert("2K"@ =~= seq!['2', 'K']),
                AnsiCode::ClearToEndOfLine => assert("0K"@ =~= seq!['0', 'K']),
                AnsiCode::PopTop => assert("popt"@ =~= seq!['p', 'o', 'p', 't']),
                AnsiCode::PopBottom => assert("popb"@ =~= seq!['p', 'o', 'p', 'b']),
                AnsiCode::PushTop => assert("pusht"@ =~= seq!['p', 'u', 's', 'h', 't']),
                _ => {},
            }
            assert(out@ =~= ansi_bytes(self));
        }
        out
    }
}

/// A control character: the letter held with the control key.
#[derive(Clone, Copy, Debug, PartialEq, Eq, Structural)]
pub enum ControlChar {
    A,
    B,
    C,
    D,
    E,
    F,
    G,
    H,
    I,
    J,
    K,
    L,
    M,
    N,
    O,
    P,
    Q,
    R,
    S,
    T,
    U,
    V,
    W,
    X,
    Y,
    Z,
}

impl ControlChar {
    /// The code of the character: 1 for A up to 26 for Z.
    pub open spec fn spec_code(self) -> u8 {
        match self {
            ControlChar::A => 1,
            ControlChar::B => 2,
            ControlChar::C => 3,
            ControlChar::D => 4,
            ControlChar::E => 5,
            ControlChar::F => 6,
            ControlChar::G => 7,
            ControlChar::H => 8,
            ControlChar::I => 9,
            ControlChar::J => 10,
            ControlChar::K => 11,
            ControlChar::L => 12,
            ControlChar::M => 13,
            ControlChar::N => 14,
            ControlChar::O => 15,
            ControlChar::P => 16,
            ControlChar::Q => 17,
            ControlChar::R => 18,
            ControlChar::S => 19,
            ControlChar::T => 20,
            ControlChar::U => 21,
            ControlChar::V => 22,
            ControlChar::W => 23,
            ControlChar::X => 24,
            ControlChar::Y => 25,
            ControlChar::Z => 26,
        }
    }

    /// The code of the character: 1 for A up to 26 for Z.
    pub fn code(self) -> (r: u8)
        ensures
            r == self.spec_code(),
    {
        match self {
            ControlChar::A => 1,
            ControlChar::B => 2,
            ControlChar::C => 3,
            ControlChar::D => 4,
            ControlChar::E => 5,
            ControlChar::F => 6,
            ControlChar::G => 7,
            ControlChar::H => 8,
            ControlChar::I => 9,
            ControlChar::J => 10,
            ControlChar::K => 11,
            ControlChar::L => 12,
            ControlChar::M => 13,
            ControlChar::N => 14,
            ControlChar::O => 15,
            ControlChar::P => 16,
            ControlChar::Q => 17,
            ControlChar::R => 18,
            ControlChar::S => 19,
            ControlChar::T => 20,
            ControlChar::U => 21,
            ControlChar::V => 22,
            ControlChar::W => 23,
            ControlChar::X => 24,
            ControlChar::Y => 25,
            ControlChar::Z => 26,
        }
    }

    /// Whether `c` is this control character.
    pub fn is(self, c: char) -> (r: bool)
        ensures
            r == (c as u32 == self.spec_code() as u32),
    {
        c as u32 == self.code() as u32
    }
}

/// Shows control characters other than tab and line feed as `^` and a letter.
pub open spec fn term_escape_char(c: char) -> Seq<char> {
    if (c as u32) <= 0x1f && c != '\t' && c != '\n' {
        seq!['^', ((c as u32) + 0x40) as char]
    } else {
        seq![c]
    }
}

/// The escaped form of a text, character by character.
pub open spec fn term_escape(s: Seq<char>) -> Seq<char>
    decreases s.len(),
{
    if s.len() == 0 {
        seq![]
    } else {
        term_escape(s.drop_last()) + term_escape_char(s.last())
    }
}

/// Makes control characters visible, as a Unix terminal echoes them.
pub fn unix_term_escape(src: &str) -> (r: Vec<char>)
    ensures
        r@ == term_escape(src@),
{
    let cs = chars_of(src);
    let mut out: Vec<char> = Vec::new();
    let mut i: usize = 0;
    while i < cs.len()
        invariant
            i <= cs@.len(),
            cs@ == src@,
            out@ == term_escape(src@.subrange(0, i as int)),
        decreases cs@.len() - i,
    {
        let c = cs[i];
        let ghost o0 = out@;
        if (c as u32) <= 0x1f && c != '\t' && c != '\n' {
            out.push('^');
            let shown = ((c as u32) + 0x40) as u8 as char;
            out.push(shown);
            assert(((c as u32) + 0x40) as u8 as char == ((c as u32) + 0x40) as char);
        } else {
            out.push(c);
        }
        let ghost p = src@.subrange(0, i + 1);
        assert(p.drop_last() =~= src@.subrange(0, i as int));
        assert(out@ =~= o0 + term_escape_char(c));
        i = i + 1;
    }
    assert(src@.subrange(0, i as int) =~= src@);
    out
}

/// A foreground color.
#[derive(Clone, Copy, Debug, PartialEq, Eq, Structural)]
pub enum Color {
    Red,
    Blue,
    Green,
}

/// The escape sequence that selects a foreground color.
pub open spec fn fg_bytes(c: Color) -> Seq<u8> {
    match c {
        Color::Red => csi(seq!['3', '1', 'm']),
        Color::Green => csi(seq!['3', '2', 'm']),
        Color::Blue => csi(seq!['3', '4', 'm']),
    }
}

/// The escape sequence that resets attributes.
pub open spec fn reset_bytes() -> Seq<u8> {
    csi(seq!['0', 'm'])
}

impl Color {
    /// The escape sequence that selects this color.
    pub fn as_fg(&self) -> (r: Vec<u8>)
        ensures
            r@ == fg_bytes(*self),
    {
        let r = match self {
            Color::Red => vec![0x1b, 0x5b, 0x33, 0x31, 0x6d],
            Color::Green => vec![0x1b, 0x5b, 0x33, 0x32, 0x6d],
            Color::Blue => vec![0x1b, 0x5b, 0x33, 0x34, 0x6d],
        };
        assert(r@ =~= fg_bytes(*self));
        r
    }
}

/// Writes text in a color, when coloring is on.
#[derive(Clone, Copy, Debug)]
pub struct ColorPicker {
    pub active: bool,
    pub color: Option<Color>,
}

/// The bytes of `text` as the picker writes it: the color first and a reset
/// after, when the picker is active.
pub open spec fn painted(p: ColorPicker, text: Seq<u8>) -> Seq<u8> {
    if p.active {
        (match p.color {
            Some(c) => fg_bytes(c),
            None => seq![],
        }) + text + reset_bytes()
    } else {
        text
    }
}

impl ColorPicker {
    /// A picker without a color, coloring if `active`.
    pub fn new(active: bool) -> (r: ColorPicker)
        ensures
            r.active == active,
            r.color is None,
    {
        ColorPicker { active, color: None }
    }

    /// Use `color` from now on.
    pub fn set_color(&mut self, color: Color)
        ensures
            final(self).active == old(self).active,
            final(self).color == Some(color),
    {
        self.color = Some(color);
    }

    /// Use no color from now on.
    pub fn reset(&mut self)
        ensures
            final(self).active == old(self).active,
            final(self).color is None,
    {
        self.color = None;
    }

    /// The bytes that writing `text` produces.
    pub fn write(&self, text: &[u8]) -> (r: Vec<u8>)
        ensures
            r@ == painted(*self, text@),
    {
        let mut out: Vec<u8> = Vec::new();
        if self.active {
            if let Some(color) = self.color {
                out = color.as_fg();
            }
        }
        let ghost o0 = out@;
        let mut i: usize = 0;
        while i < text.len()
            invariant
                i <= text@.len(),
                out@ == o0 + text@.subrange(0, i as int),
            decreases text@.len() - i,
        {
            out.push(text[i]);
            i = i + 1;
            assert(out@ =~= o0 + text@.subrange(0, i as int));
        }
        assert(text@.subrange(0, i as int) =~= text@);
        if self.active {
            out.push(0x1b);
            out.push(0x5b);
            out.push(0x30);
            out.push(0x6d);
        }
        proof {
            if self.active {
                assert(out@ =~= painted(*self, text@));
            } else {
                assert(o0 =~= Seq::<u8>::empty());
                assert(out@ =~= painted(*self, text@));
            }
        }
        out
    }
}

} // verus!
