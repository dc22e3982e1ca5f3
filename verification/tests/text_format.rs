use rtemo::grid::{Grid, Tile, Zoom};
use rtemo::tools::export::{export, export_records, push_decimal, push_record, records};
use rtemo::tools::import::{cell_of_record, chars_of, import, parse_chars, parse_text, parse_tile};
use rtemo::util::Palette;

fn settled(w: usize, h: usize) -> Grid {
    let mut grid = Grid::new(0, 0, w, h, 24).unwrap();
    grid.reconcile(Zoom::new(6).unwrap());
    grid
}

fn scenario() -> Grid {
    let mut grid = settled(2, 1);
    grid.set_tile(
        0,
        0,
        Tile { bg: Palette::C, fg: Palette::B, index: 5, flip: (false, false), rotation: 0 },
    );
    grid.set_tile(
        1,
        0,
        Tile { bg: Palette::A, fg: Palette::D, index: 7, flip: (true, false), rotation: 2 },
    );
    grid
}

const SCENARIO: &str = "[\n    (0, 0, 5, 2, 1, false, 0),\n    (1, 0, 7, 0, 3, true, 2),\n];";

#[test]
fn export_of_two_cells() {
    assert_eq!(export(&scenario()), SCENARIO);
}

#[test]
fn import_of_two_cells() {
    let mut grid = settled(6, 6);
    let imported = import(&mut grid, SCENARIO, Zoom::new(6).unwrap()).unwrap();
    assert_eq!((grid.x0(), grid.y0(), grid.w(), grid.h()), (0, 0, 2, 1));
    assert_eq!(
        *grid.get(0, 0).unwrap(),
        Tile { bg: Palette::C, fg: Palette::B, index: 5, flip: (false, false), rotation: 0 }
    );
    assert_eq!(
        *grid.get(1, 0).unwrap(),
        Tile { bg: Palette::A, fg: Palette::D, index: 7, flip: (true, false), rotation: 2 }
    );
    assert_eq!(imported.changed.0, vec![(0, 0), (1, 0)]);
    assert_eq!(imported.done.despawned.len(), 36);
    assert_eq!(imported.done.spawned.len(), 2);
    assert!(grid.resized());
    assert_eq!(export(&grid), SCENARIO);
}

#[test]
fn import_passes_over_a_line_without_its_end() {
    let text = "[\n    (1, 1, 9, 4, 5, true, 1),\n    (0, 0, 8, 4, 5, true, 1)\n];";
    let mut grid = settled(1, 1);
    let imported = import(&mut grid, text, Zoom::new(6).unwrap()).unwrap();
    assert_eq!(imported.changed.0, vec![(1, 1)]);
    assert_eq!((grid.w(), grid.h()), (2, 2));
    assert_eq!(
        *grid.get(1, 1).unwrap(),
        Tile { bg: Palette::E, fg: Palette::F, index: 9, flip: (true, false), rotation: 1 }
    );
    for (x, y) in [(0, 0), (1, 0), (0, 1)] {
        assert_eq!(*grid.get(x, y).unwrap(), Tile::default());
    }
}

#[test]
fn import_of_nothing_leaves_the_grid() {
    let mut grid = scenario();
    assert!(import(&mut grid, "", Zoom::new(6).unwrap()).is_none());
    assert!(import(&mut grid, "[\n];", Zoom::new(6).unwrap()).is_none());
    assert!(import(&mut grid, "hello\n(1, 2, 3)\n", Zoom::new(6).unwrap()).is_none());
    assert!(import(&mut grid, "(0, 0, 1, 18, 0, false, 0),", Zoom::new(6).unwrap()).is_none());
    assert_eq!(export(&grid), SCENARIO);
    assert!(!grid.resized());
}

#[test]
fn import_keeps_rows_as_written() {
    let text = "(0, 0, 1, 0, 0, false, 0),\n(0, 2, 3, 0, 0, false, 0),\n";
    let mut grid = settled(1, 1);
    import(&mut grid, text, Zoom::new(6).unwrap()).unwrap();
    assert_eq!((grid.w(), grid.h()), (1, 3));
    assert_eq!(grid.get(0, 0).unwrap().index, 1);
    assert_eq!(grid.get(0, 1).unwrap().index, 0);
    assert_eq!(grid.get(0, 2).unwrap().index, 3);
}

#[test]
fn import_lets_the_last_record_of_a_cell_win() {
    let text = "(1, 0, 1, 0, 0, false, 0),\r\n(1, 0, 2, 0, 0, false, 0),\r\n";
    let mut grid = settled(1, 1);
    let imported = import(&mut grid, text, Zoom::new(6).unwrap()).unwrap();
    assert_eq!(grid.get(1, 0).unwrap().index, 2);
    assert_eq!(imported.changed.0, vec![(1, 0), (1, 0)]);
    assert_eq!(imported.done.spawned.len(), 2);
}

#[test]
fn export_then_import_then_export() {
    let mut grid = settled(3, 4);
    let mut n = 0;
    for y in 0..4 {
        for x in 0..3 {
            n += 1;
            let bg = Palette::from_index(n % 18).unwrap();
            let fg = Palette::from_index((n * 7) % 18).unwrap();
            grid.set_tile(
                x,
                y,
                Tile { bg, fg, index: n * 83, flip: (n % 2 == 0, false), rotation: (n % 4) as u8 },
            );
        }
    }
    let text = export(&grid);
    let mut other = settled(1, 1);
    import(&mut other, &text, Zoom::new(6).unwrap()).unwrap();
    assert_eq!((other.w(), other.h()), (3, 4));
    for y in 0..4 {
        for x in 0..3 {
            assert_eq!(other.get(x, y), grid.get(x, y));
        }
    }
    assert_eq!(export(&other), text);
}

#[test]
fn export_counts_from_the_top_left_cell() {
    let mut grid = Grid::new(-3, 7, 2, 2, 24).unwrap();
    grid.reconcile(Zoom::new(6).unwrap());
    grid.set_tile(-2, 8, Tile { index: 4, ..Tile::default() });
    assert_eq!(
        records(&grid),
        vec![
            (0, 0, 0, 16, 17, false, 0),
            (1, 0, 0, 16, 17, false, 0),
            (0, 1, 0, 16, 17, false, 0),
            (1, 1, 4, 16, 17, false, 0),
        ]
    );
}

#[test]
fn export_of_a_grid_without_cells() {
    let grid = Grid::new(0, 0, 2, 2, 24).unwrap();
    assert_eq!(export(&grid), "[\n];");
    assert_eq!(export_records(&vec![]), "[\n];");
}

#[test]
fn decimal_notation() {
    for (n, text) in [(0usize, "0"), (7, "7"), (10, "10"), (1024, "1024"), (90210, "90210")] {
        let mut out = String::from("x");
        push_decimal(&mut out, n);
        assert_eq!(out, format!("x{}", text));
    }
    let mut out = String::new();
    push_decimal(&mut out, usize::MAX);
    assert_eq!(out, format!("{}", usize::MAX));
}

#[test]
fn record_line() {
    let mut out = String::from("[\n");
    push_record(&mut out, &(12, 0, 1023, 17, 16, true, 3));
    assert_eq!(out, "[\n    (12, 0, 1023, 17, 16, true, 3),\n");
    push_record(&mut out, &(0, 1, 0, 0, 0, false, 255));
    assert_eq!(out, "[\n    (12, 0, 1023, 17, 16, true, 3),\n    (0, 1, 0, 0, 0, false, 255),\n");
}

#[test]
fn parse_tile_reads_a_record() {
    assert_eq!(parse_tile("(1, 2, 3, 4, 5, true, 2),"), Some((1, 2, 3, 4, 5, true, 2)));
    assert_eq!(parse_tile("    (0, 0, 5, 2, 1, false, 0),"), Some((0, 0, 5, 2, 1, false, 0)));
    assert_eq!(parse_tile("\t (10, 20, 1023, 17, 16, false, 3), \r"), Some((10, 20, 1023, 17, 16, false, 3)));
    assert_eq!(parse_tile("\u{a0}(1, 2, 3, 4, 5, true, 1),\u{3000}"), Some((1, 2, 3, 4, 5, true, 1)));
}

#[test]
fn parse_tile_takes_a_plus_sign_and_leading_zeros() {
    assert_eq!(parse_tile("(+1, 002, 3, 4, 5, true, +2),"), Some((1, 2, 3, 4, 5, true, 2)));
    assert_eq!(parse_tile("(0, 0, 0001023, 017, 00, false, 0003),"), Some((0, 0, 1023, 17, 0, false, 3)));
}

#[test]
fn parse_tile_refuses_a_field_outside_its_range() {
    assert_eq!(parse_tile("(0, 0, 5, 2, 1, false, 7),"), None);
    assert_eq!(parse_tile("(0, 0, 5, 2, 1, false, 4),"), None);
    assert_eq!(parse_tile("(0, 0, 5, 2, 1, false, 255),"), None);
    assert_eq!(parse_tile("(0, 0, 5, 2, 1, false, 256),"), None);
    assert_eq!(parse_tile("(0, 0, 5, 99, 1, false, 0),"), None);
    assert_eq!(parse_tile("(0, 0, 5, 18, 1, false, 0),"), None);
    assert_eq!(parse_tile("(0, 0, 5, 2, 18, false, 0),"), None);
    assert_eq!(parse_tile("(0, 0, 1024, 2, 1, false, 0),"), None);
    assert_eq!(parse_tile("(0, 0, 5000, 2, 1, false, 0),"), None);
    let huge = format!("(0, 0, {}, 0, 0, false, 0),", usize::MAX);
    assert_eq!(parse_tile(&huge), None);
    // The last value of each range is read.
    assert_eq!(parse_tile("(0, 0, 1023, 17, 17, true, 3),"), Some((0, 0, 1023, 17, 17, true, 3)));
    assert_eq!(parse_tile("(0, 0, 0, 0, 0, false, 0),"), Some((0, 0, 0, 0, 0, false, 0)));
}

#[test]
fn parse_tile_refuses_what_is_no_record() {
    let bad = [
        "",
        "[",
        "];",
        "(),",
        "(1, 2, 3, 4, 5, true, 2)",
        "(1, 2, 3, 4, 5, true, 2);",
        "1, 2, 3, 4, 5, true, 2),",
        "(1, 2, 3, 4, 5, true),",
        "(1, 2, 3, 4, 5, true, 2, 7),",
        "(1,2,3,4,5,true,2),",
        "(1,  2, 3, 4, 5, true, 2),",
        "(1, 2, 3, 4, 5, true, 2, ),",
        "( 1, 2, 3, 4, 5, true, 2),",
        "(1, 2, 3, 4, 5, true, 2 ),",
        "(-1, 2, 3, 4, 5, true, 2),",
        "(1, 2, 3, 4, 5, True, 2),",
        "(1, 2, 3, 4, 5, 1, 2),",
        "(1, 2, 3, 4, 5, true, 256),",
        "(1, 2, 3, 4, 5, true, -1),",
        "(1, 2, , 4, 5, true, 2),",
        "(1, 2, +, 4, 5, true, 2),",
        "(1, 2, ++3, 4, 5, true, 2),",
        "(1, 2, 3x, 4, 5, true, 2),",
        "(1, 2, 0x3, 4, 5, true, 2),",
        "(1, 2, 3, 4, 5, true, 2),,",
        "((1, 2, 3, 4, 5, true, 2),",
        "(1, 2, 3, 4, 5, true, 2), x",
        "(99999999999999999999999999, 2, 3, 4, 5, true, 2),",
        "(\u{661}, 2, 3, 4, 5, true, 2),",
    ];
    for line in bad {
        assert_eq!(parse_tile(line), None, "{:?}", line);
    }
}

#[test]
fn parse_tile_reads_the_largest_coordinates() {
    let line = format!("({}, {}, 1023, 0, 0, false, 3),", usize::MAX, usize::MAX);
    assert_eq!(parse_tile(&line), Some((usize::MAX, usize::MAX, 1023, 0, 0, false, 3)));
    let over = format!("({}0, 0, 0, 0, 0, false, 0),", usize::MAX);
    assert_eq!(parse_tile(&over), None);
    let next = "(18446744073709551616, 0, 0, 0, 0, false, 0),";
    if usize::MAX as u128 == u64::MAX as u128 {
        assert_eq!(parse_tile(next), None);
    }
}

#[test]
fn parse_chars_agrees_with_parse_tile() {
    let line = "  (3, 1, 4, 1, 5, true, 2),";
    assert_eq!(chars_of(line), line.chars().collect::<Vec<char>>());
    assert_eq!(parse_chars(&chars_of(line)), parse_tile(line));
    assert_eq!(chars_of("h\u{e9}\u{1F600}"), vec!['h', '\u{e9}', '\u{1F600}']);
}

#[test]
fn parse_text_reads_line_by_line() {
    let text = "[\n    (0, 0, 5, 2, 1, false, 0),\nrubbish\n\n    (1, 0, 7, 0, 3, true, 2),\n];\n(2, 2, 2, 2, 2, false, 2),";
    assert_eq!(
        parse_text(text),
        vec![(0, 0, 5, 2, 1, false, 0), (1, 0, 7, 0, 3, true, 2), (2, 2, 2, 2, 2, false, 2)]
    );
    assert_eq!(parse_text(""), vec![]);
    assert_eq!(parse_text("\n\n"), vec![]);
    assert_eq!(parse_text("(1, 1, 1, 1, 1, true, 1),(2, 2, 2, 2, 2, true, 2),"), vec![]);
    assert_eq!(
        parse_text("(0, 0, 5, 2, 1, false, 7),\n(1, 0, 9, 2, 1, false, 3),\n(2, 0, 5, 99, 1, false, 0),"),
        vec![(1, 0, 9, 2, 1, false, 3)]
    );
}

#[test]
fn record_outside_the_ranges_is_no_cell() {
    assert!(cell_of_record(&(0, 0, 0, 18, 0, false, 0)).is_none());
    assert!(cell_of_record(&(0, 0, 0, 0, 18, false, 0)).is_none());
    assert!(cell_of_record(&(isize::MAX as usize, 0, 0, 0, 0, false, 0)).is_none());
    assert!(cell_of_record(&(0, usize::MAX, 0, 0, 0, false, 0)).is_none());
    assert!(cell_of_record(&(0, 0, 1024, 0, 0, false, 0)).is_none());
    assert!(cell_of_record(&(0, 0, 5000, 0, 0, false, 0)).is_none());
    assert!(cell_of_record(&(0, 0, 5, 2, 1, false, 4)).is_none());
    assert!(cell_of_record(&(0, 0, 5, 2, 1, false, 7)).is_none());
    assert!(cell_of_record(&(0, 0, 5, 2, 1, false, 255)).is_none());
    let cell = cell_of_record(&(3, 4, 1023, 17, 16, true, 3)).unwrap();
    assert_eq!(cell.0, (3, 4));
    assert_eq!(
        cell.1,
        Tile { bg: Palette::Black, fg: Palette::Transparent, index: 1023, flip: (true, false), rotation: 3 }
    );
    let far = cell_of_record(&(isize::MAX as usize - 1, 0, 0, 0, 0, false, 0)).unwrap();
    assert_eq!(far.0, (isize::MAX - 1, 0));
}

#[test]
fn import_passes_over_a_record_outside_the_ranges() {
    let text = "(0, 0, 5, 2, 1, false, 7),\n(1, 0, 1024, 2, 1, false, 0),\n(2, 0, 9, 2, 1, false, 3),\n";
    let mut grid = settled(1, 1);
    let imported = import(&mut grid, text, Zoom::new(6).unwrap()).unwrap();
    assert_eq!(imported.changed.0, vec![(2, 0)]);
    assert_eq!((grid.w(), grid.h()), (3, 1));
    assert_eq!(*grid.get(0, 0).unwrap(), Tile::default());
    assert_eq!(*grid.get(1, 0).unwrap(), Tile::default());
    assert_eq!(
        *grid.get(2, 0).unwrap(),
        Tile { bg: Palette::C, fg: Palette::B, index: 9, flip: (false, false), rotation: 3 }
    );
    let mut other = settled(2, 2);
    assert!(import(&mut other, "(0, 0, 5, 2, 1, false, 7),", Zoom::new(6).unwrap()).is_none());
    assert_eq!((other.w(), other.h()), (2, 2));
}

#[test]
fn a_tile_outside_the_ranges_is_written_and_not_read_back() {
    let mut grid = settled(2, 1);
    grid.set_tile(1, 0, Tile { rotation: 7, index: 3, ..Tile::default() });
    let text = export(&grid);
    assert_eq!(text, "[\n    (0, 0, 0, 16, 17, false, 0),\n    (1, 0, 3, 16, 17, false, 7),\n];");
    let mut other = settled(1, 1);
    import(&mut other, &text, Zoom::new(6).unwrap()).unwrap();
    assert_eq!((other.w(), other.h()), (1, 1));
    assert_eq!(*other.get(0, 0).unwrap(), Tile::default());
}
