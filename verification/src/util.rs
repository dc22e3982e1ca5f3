//! The palette table, the keyboard-to-glyph mapping and the editor's constants.
use vstd::prelude::*;

pub mod misc;
pub mod size;
pub mod tool_priority;

verus! {

/// A colour of the fixed palette. The order of the variants is the order of
/// the palette table: the clipboard format stores a colour as its position.
#[derive(Clone, Copy, PartialEq, Eq, Structural, Debug, Hash)]
pub enum Palette {
    A,
    B,
    C,
    D,
    E,
    F,
    G,
    H,
    I,
    J,
    K,
    L,
    M,
    N,
    O,
    P,
    Transparent,
    Black,
}

/// Number of colours in the palette table.
pub const PALETTE_LEN: usize = 18;

impl Palette {
    /// Position of the colour in the palette table.
    pub open spec fn spec_index(self) -> nat {
        match self {
            Palette::A => 0,
            Palette::B => 1,
            Palette::C => 2,
            Palette::D => 3,
            Palette::E => 4,
            Palette::F => 5,
            Palette::G => 6,
            Palette::H => 7,
            Palette::I => 8,
            Palette::J => 9,
            Palette::K => 10,
            Palette::L => 11,
            Palette::M => 12,
            Palette::N => 13,
            Palette::O => 14,
            Palette::P => 15,
            Palette::Transparent => 16,
            Palette::Black => 17,
        }
    }

    /// The colour at a position of the palette table, if there is one.
    pub open spec fn spec_from_index(i: nat) -> Option<Palette> {
        if i == 0 {
            Some(Palette::A)
        } else if i == 1 {
            Some(Palette::B)
        } else if i == 2 {
            Some(Palette::C)
        } else if i == 3 {
            Some(Palette::D)
        } else if i == 4 {
            Some(Palette::E)
        } else if i == 5 {
            Some(Palette::F)
        } else if i == 6 {
            Some(Palette::G)
        } else if i == 7 {
            Some(Palette::H)
        } else if i == 8 {
            Some(Palette::I)
        } else if i == 9 {
            Some(Palette::J)
        } else if i == 10 {
            Some(Palette::K)
        } else if i == 11 {
            Some(Palette::L)
        } else if i == 12 {
            Some(Palette::M)
        } else if i == 13 {
            Some(Palette::N)
        } else if i == 14 {
            Some(Palette::O)
        } else if i == 15 {
            Some(Palette::P)
        } else if i == 16 {
            Some(Palette::Transparent)
        } else if i == 17 {
            Some(Palette::Black)
        } else {
            None
        }
    }

    /// The hexadecimal colour code of each palette entry.
    pub open spec fn spec_hex(self) -> Seq<char> {
        match self {
            Palette::Transparent => "00000000"@,
            Palette::Black => "00000000"@,
            Palette::A => "#ffffff"@,
            Palette::B => "#6df7c1"@,
            Palette::C => "#11adc1"@,
            Palette::D => "#606c81"@,
            Palette::E => "#393457"@,
            Palette::F => "#1e8875"@,
            Palette::G => "#5bb361"@,
            Palette::H => "#a1e55a"@,
            Palette::I => "#f7e476"@,
            Palette::J => "#f99252"@,
            Palette::K => "#cb4d68"@,
            Palette::L => "#6a3771"@,
            Palette::M => "#c92464"@,
            Palette::N => "#f48cb6"@,
            Palette::O => "#f7b69e"@,
            Palette::P => "#9b9c82"@,
        }
    }

    /// Position of the colour in the palette table.
    pub fn index(&self) -> (i: usize)
        ensures
            i == self.spec_index(),
            i < PALETTE_LEN,
    {
        match self {
            Palette::A => 0,
            Palette::B => 1,
            Palette::C => 2,
            Palette::D => 3,
            Palette::E => 4,
            Palette::F => 5,
            Palette::G => 6,
            Palette::H => 7,
            Palette::I => 8,
            Palette::J => 9,
            Palette::K => 10,
            Palette::L => 11,
            Palette::M => 12,
            Palette::N => 13,
            Palette::O => 14,
            Palette::P => 15,
            Palette::Transparent => 16,
            Palette::Black => 17,
        }
    }

    /// The colour at position `i` of the palette table; `None` from
    /// `PALETTE_LEN` on.
    pub fn from_index(i: usize) -> (p: Option<Palette>)
        ensures
            p == Palette::spec_from_index(i as nat),
            p is Some <==> i < PALETTE_LEN,
    {
        match i {
            0 => Some(Palette::A),
            1 => Some(Palette::B),
            2 => Some(Palette::C),
            3 => Some(Palette::D),
            4 => Some(Palette::E),
            5 => Some(Palette::F),
            6 => Some(Palette::G),
            7 => Some(Palette::H),
            8 => Some(Palette::I),
            9 => Some(Palette::J),
            10 => Some(Palette::K),
            11 => Some(Palette::L),
            12 => Some(Palette::M),
            13 => Some(Palette::N),
            14 => Some(Palette::O),
            15 => Some(Palette::P),
            16 => Some(Palette::Transparent),
            17 => Some(Palette::Black),
            _ => None,
        }
    }

    /// The colour's code in hexadecimal notation, as the renderer's colour
    /// parser reads it. `Transparent` and `Black` share one code.
    pub fn hex(&self) -> (code: &'static str)
        ensures
            code@ == self.spec_hex(),
    {
        match self {
            Palette::Transparent => "00000000",
            Palette::Black => "00000000",
            Palette::A => "#ffffff",
            Palette::B => "#6df7c1",
            Palette::C => "#11adc1",
            Palette::D => "#606c81",
            Palette::E => "#393457",
            Palette::F => "#1e8875",
            Palette::G => "#5bb361",
            Palette::H => "#a1e55a",
            Palette::I => "#f7e476",
            Palette::J => "#f99252",
            Palette::K => "#cb4d68",
            Palette::L => "#6a3771",
            Palette::M => "#c92464",
            Palette::N => "#f48cb6",
            Palette::O => "#f7b69e",
            Palette::P => "#9b9c82",
        }
    }
}

/// The palette table has no gaps and no repeats: a colour's position leads
/// back to the colour, and a position below `PALETTE_LEN` is the position of
/// the colour found there.
pub proof fn lemma_palette_index_round_trip(p: Palette, i: nat)
    ensures
        Palette::spec_from_index(p.spec_index()) == Some(p),
        p.spec_index() < PALETTE_LEN,
        i < PALETTE_LEN ==> Palette::spec_from_index(i) is Some && Palette::spec_from_index(
            i,
        )->0.spec_index() == i,
        i >= PALETTE_LEN ==> Palette::spec_from_index(i) is None,
{
}

/// A key of the keyboard, as far as the text tool tells keys apart.
#[derive(Clone, Copy, PartialEq, Eq, Structural, Debug)]
pub enum Key {
    A,
    B,
    C,
    D,
    E,
    F,
    G,
    H,
    I,
    J,
    K,
    L,
    M,
    N,
    O,
    P,
    Q,
    R,
    S,
    T,
    U,
    V,
    W,
    X,
    Y,
    Z,
    Space,
    Return,
    Other,
}

impl Key {
    /// Position of a letter key in the alphabet; `None` for the other keys.
    pub open spec fn letter(self) -> Option<nat> {
        match self {
            Key::A => Some(0),
            Key::B => Some(1),
            Key::C => Some(2),
            Key::D => Some(3),
            Key::E => Some(4),
            Key::F => Some(5),
            Key::G => Some(6),
            Key::H => Some(7),
            Key::I => Some(8),
            Key::J => Some(9),
            Key::K => Some(10),
            Key::L => Some(11),
            Key::M => Some(12),
            Key::N => Some(13),
            Key::O => Some(14),
            Key::P => Some(15),
            Key::Q => Some(16),
            Key::R => Some(17),
            Key::S => Some(18),
            Key::T => Some(19),
            Key::U => Some(20),
            Key::V => Some(21),
            Key::W => Some(22),
            Key::X => Some(23),
            Key::Y => Some(24),
            Key::Z => Some(25),
            _ => None,
        }
    }
}

/// The character a key types: a letter key its lower-case letter, the space
/// bar a space, every other key nothing.
pub open spec fn spec_get_char(code: Key) -> Option<char> {
    match code.letter() {
        Some(n) => Some((('a' as u32) + n) as char),
        None => if code == Key::Space {
            Some(' ')
        } else {
            None
        },
    }
}

/// The character that a key types, if the text tool reads the key at all.
pub fn get_char(code: &Key) -> (c: Option<char>)
    ensures
        c == spec_get_char(*code),
{
    match code {
        Key::A => Some('a'),
        Key::B => Some('b'),
        Key::C => Some('c'),
        Key::D => Some('d'),
        Key::E => Some('e'),
        Key::F => Some('f'),
        Key::G => Some('g'),
        Key::H => Some('h'),
        Key::I => Some('i'),
        Key::J => Some('j'),
        Key::K => Some('k'),
        Key::L => Some('l'),
        Key::M => Some('m'),
        Key::N => Some('n'),
        Key::O => Some('o'),
        Key::P => Some('p'),
        Key::Q => Some('q'),
        Key::R => Some('r'),
        Key::S => Some('s'),
        Key::T => Some('t'),
        Key::U => Some('u'),
        Key::V => Some('v'),
        Key::W => Some('w'),
        Key::X => Some('x'),
        Key::Y => Some('y'),
        Key::Z => Some('z'),
        Key::Space => Some(' '),
        _ => None,
    }
}

/// First character that has a glyph.
pub const GLYPH_FIRST_CHAR: u32 = 33;

/// Glyph of `GLYPH_FIRST_CHAR`; the glyphs of the later characters follow it.
pub const GLYPH_FIRST_INDEX: usize = 865;

/// The code point of `c`, with the lower-case ASCII letters moved to upper
/// case.
pub open spec fn ascii_upper(c: char) -> int {
    if 'a' <= c <= 'z' {
        c as int - 32
    } else {
        c as int
    }
}

/// The glyph that shows a character: none below `!`, and from there on one
/// glyph per code point, lower-case letters sharing the glyph of their
/// capital.
pub open spec fn spec_char_to_tile(c: char) -> Option<usize> {
    if ascii_upper(c) < GLYPH_FIRST_CHAR {
        None
    } else {
        Some((ascii_upper(c) - GLYPH_FIRST_CHAR + GLYPH_FIRST_INDEX) as usize)
    }
}

/// The glyph that shows `c`, if it has one.
pub fn char_to_tile(c: char) -> (tile: Option<usize>)
    ensures
        tile == spec_char_to_tile(c),
{
    let code: u32 = c as u32;
    let input: u32 = if 'a' <= c && c <= 'z' {
        code - 32
    } else {
        code
    };
    if input < GLYPH_FIRST_CHAR {
        return None;
    }
    let result: usize = (input - GLYPH_FIRST_CHAR) as usize + GLYPH_FIRST_INDEX;
    Some(result)
}

/// Column of a record of the clipboard text, counted from the grid's left
/// edge.
pub type X = usize;

/// Row of a record, counted from the grid's top row.
pub type Y = usize;

/// Glyph of a record.
pub type INDEX = usize;

/// Background of a record: a position of the palette table.
pub type BG = usize;

/// Foreground of a record: a position of the palette table.
pub type FG = usize;

/// Whether the glyph of a record is flipped.
pub type FLIP = bool;

/// Quarter turns of the glyph of a record.
pub type ROTATION = u8;

/// A record of the clipboard text.
pub type TILE = (X, Y, INDEX, BG, FG, FLIP, ROTATION);

} // verus!
