use rtemo::util::misc::{DEFAULT_TILE, QUICK_TILES_PER_ROW, QUICK_TILES_ROWS, TILESET_COUNT};
use rtemo::util::size::{BOTTOM_MARGIN, GRID_MAX, GRID_X, GRID_Y, HEIGHT, ICON, LEFT_MARGIN, TILE, WIDTH};
use rtemo::util::{char_to_tile, get_char, Key, Palette, PALETTE_LEN};

const ALL: [Palette; 18] = [
    Palette::A,
    Palette::B,
    Palette::C,
    Palette::D,
    Palette::E,
    Palette::F,
    Palette::G,
    Palette::H,
    Palette::I,
    Palette::J,
    Palette::K,
    Palette::L,
    Palette::M,
    Palette::N,
    Palette::O,
    Palette::P,
    Palette::Transparent,
    Palette::Black,
];

#[test]
fn palette_positions_follow_the_table() {
    assert_eq!(PALETTE_LEN, 18);
    for (i, colour) in ALL.iter().enumerate() {
        assert_eq!(colour.index(), i);
        assert_eq!(Palette::from_index(i), Some(*colour));
    }
    assert_eq!(Palette::from_index(18), None);
    assert_eq!(Palette::from_index(usize::MAX), None);
}

#[test]
fn palette_codes() {
    assert_eq!(Palette::A.hex(), "#ffffff");
    assert_eq!(Palette::E.hex(), "#393457");
    assert_eq!(Palette::P.hex(), "#9b9c82");
    assert_eq!(Palette::Transparent.hex(), "00000000");
    assert_eq!(Palette::Black.hex(), "00000000");
    for colour in ALL {
        let code = colour.hex();
        let digits = code.strip_prefix('#').unwrap_or(code);
        assert!(digits.len() == 6 || digits.len() == 8);
        assert!(digits.chars().all(|c| c.is_ascii_hexdigit()));
    }
}

#[test]
fn letter_keys_type_lower_case() {
    assert_eq!(get_char(&Key::A), Some('a'));
    assert_eq!(get_char(&Key::M), Some('m'));
    assert_eq!(get_char(&Key::Z), Some('z'));
    assert_eq!(get_char(&Key::Space), Some(' '));
    assert_eq!(get_char(&Key::Return), None);
    assert_eq!(get_char(&Key::Other), None);
    let letters = [
        Key::A, Key::B, Key::C, Key::D, Key::E, Key::F, Key::G, Key::H, Key::I, Key::J, Key::K,
        Key::L, Key::M, Key::N, Key::O, Key::P, Key::Q, Key::R, Key::S, Key::T, Key::U, Key::V,
        Key::W, Key::X, Key::Y, Key::Z,
    ];
    for (n, key) in letters.iter().enumerate() {
        assert_eq!(get_char(key), Some((b'a' + n as u8) as char));
    }
}

#[test]
fn glyphs_of_characters() {
    assert_eq!(char_to_tile('!'), Some(865));
    assert_eq!(char_to_tile('A'), Some(897));
    assert_eq!(char_to_tile('a'), Some(897));
    assert_eq!(char_to_tile('z'), Some(865 + 90 - 33));
    assert_eq!(char_to_tile('Z'), Some(865 + 90 - 33));
    assert_eq!(char_to_tile('0'), Some(865 + 48 - 33));
    assert_eq!(char_to_tile('{'), Some(865 + 123 - 33));
    assert_eq!(char_to_tile('`'), Some(865 + 96 - 33));
    assert_eq!(char_to_tile(' '), None);
    assert_eq!(char_to_tile('\n'), None);
    assert_eq!(char_to_tile('\0'), None);
    assert_eq!(char_to_tile('\u{10ffff}'), Some(0x10ffff - 33 + 865));
    for c in ['a', 'q', '~', '\u{e9}', '!'] {
        assert_eq!(char_to_tile(c), Some(c.to_ascii_uppercase() as usize - 33 + 865));
    }
}

#[test]
fn constants() {
    assert_eq!((WIDTH, HEIGHT), (320, 200));
    assert_eq!((LEFT_MARGIN, BOTTOM_MARGIN), (32, 40));
    assert_eq!((TILE, ICON), (8, 16));
    assert_eq!((GRID_X, GRID_Y, GRID_MAX), (6, 6, 24));
    assert_eq!(DEFAULT_TILE, 1);
    assert_eq!(TILESET_COUNT, 1024);
    assert_eq!(QUICK_TILES_ROWS * QUICK_TILES_PER_ROW, 128);
}
