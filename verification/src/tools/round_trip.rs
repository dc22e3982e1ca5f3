//! The clipboard text read back: what `export` writes, `import` reads as it
//! was written.
use vstd::prelude::*;

use crate::grid::{Grid, Tile};
use crate::tile_map::Coord;
use crate::tools::export::{
    boolean, cell_record, decimal, digit, export_text, grid_records, indent, join, record_line,
    record_lines, record_text, row_records, rows_records, separator, written_fields,
};
use crate::tools::import::{
    cells_height, cells_width, format_in_range, imported_cells, record_cell, record_cells, shows, digits_value, first_newline, first_separator, is_digit, is_space, lines, number_digits,
    parse_fields, parse_flag, parse_number, parsed, spec_parse_tile, split, text_records, trim,
    trim_end, trim_start, unwrap_record,
};
use crate::grid::TURNS;
use crate::util::misc::TILESET_COUNT;
use crate::util::{lemma_palette_index_round_trip, PALETTE_LEN, TILE};

verus! {

/// Whether a character is a digit or a small letter: what a field of a
/// written record is made of.
pub open spec fn is_word(c: char) -> bool {
    is_digit(c) || 'a' <= c <= 'z'
}

/// Whether a text is made of digits and small letters only.
pub open spec fn only_words(s: Seq<char>) -> bool {
    forall|i: int| 0 <= i < s.len() ==> is_word(#[trigger] s[i])
}

/// Whether a text holds no line feed.
pub open spec fn one_line(s: Seq<char>) -> bool {
    forall|i: int| 0 <= i < s.len() ==> #[trigger] s[i] != '\n'
}

proof fn lemma_decimal_is_digits(n: nat)
    ensures
        decimal(n).len() >= 1,
        forall|i: int| 0 <= i < decimal(n).len() ==> is_digit(#[trigger] decimal(n)[i]),
        only_words(decimal(n)),
        digits_value(decimal(n)) == n,
    decreases n,
{
    if n < 10 {
        let s = decimal(n);
        assert(s.len() == 1);
        assert(s[0] == digit(n as int));
        assert(s.drop_last() =~= Seq::<char>::empty());
        assert(digits_value(s.drop_last()) == 0);
        assert(s.last() == digit(n as int));
    } else {
        lemma_decimal_is_digits(n / 10);
        let s = decimal(n);
        let before = decimal(n / 10);
        assert(s == before.push(digit((n % 10) as int)));
        assert(s.drop_last() =~= before);
        assert(s.last() == digit((n % 10) as int));
        assert forall|i: int| 0 <= i < s.len() implies is_digit(#[trigger] s[i]) by {
            if i < before.len() {
                assert(s[i] == before[i]);
            }
        }
    }
}

/// A number written in decimal notation is read back as the number.
pub proof fn lemma_number_round_trip(n: nat, max: nat)
    requires
        n <= max,
    ensures
        parse_number(decimal(n), max) == Some(n),
{
    lemma_decimal_is_digits(n);
    assert(is_digit(decimal(n)[0]));
    assert(number_digits(decimal(n)) == decimal(n));
}

/// A truth value written as a word is read back as the truth value.
pub proof fn lemma_flag_round_trip(b: bool)
    ensures
        parse_flag(boolean(b)) == Some(b),
        only_words(boolean(b)),
{
    let t = seq!['t', 'r', 'u', 'e'];
    let f = seq!['f', 'a', 'l', 's', 'e'];
    assert(t.len() != f.len());
    assert(t[0] == 't' && t[1] == 'r' && t[2] == 'u' && t[3] == 'e');
    assert(f[0] == 'f' && f[1] == 'a' && f[2] == 'l' && f[3] == 's' && f[4] == 'e');
}

proof fn lemma_first_separator_behind_words(a: Seq<char>, rest: Seq<char>)
    requires
        only_words(a),
    ensures
        first_separator(a + separator() + rest) == a.len(),
        first_separator(a) == a.len(),
    decreases a.len(),
{
    let s = a + separator() + rest;
    if a.len() == 0 {
        assert(s[0] == ',' && s[1] == ' ');
    } else {
        assert(is_word(a[0]));
        assert(s[0] == a[0]);
        assert(only_words(a.drop_first())) by {
            assert forall|i: int| 0 <= i < a.drop_first().len() implies is_word(
                #[trigger] a.drop_first()[i],
            ) by {
                assert(a.drop_first()[i] == a[i + 1]);
            }
        }
        lemma_first_separator_behind_words(a.drop_first(), rest);
        assert(s.drop_first() =~= a.drop_first() + separator() + rest);
    }
}

/// Fields of digits and small letters, joined by separators, split into the
/// same fields.
pub proof fn lemma_split_join(fields: Seq<Seq<char>>)
    requires
        fields.len() >= 1,
        forall|i: int| 0 <= i < fields.len() ==> only_words(#[trigger] fields[i]),
    ensures
        split(join(fields)) == fields,
    decreases fields.len(),
{
    let a = fields[0];
    if fields.len() == 1 {
        lemma_first_separator_behind_words(a, Seq::empty());
        assert(split(a) =~= seq![a]);
        assert(seq![a] =~= fields);
    } else {
        let rest = join(fields.drop_first());
        let s = a + separator() + rest;
        lemma_first_separator_behind_words(a, rest);
        assert forall|i: int| 0 <= i < fields.drop_first().len() implies only_words(
            #[trigger] fields.drop_first()[i],
        ) by {
            assert(fields.drop_first()[i] == fields[i + 1]);
        }
        lemma_split_join(fields.drop_first());
        assert(s.take(a.len() as int) =~= a);
        assert(s.skip(a.len() as int + 2) =~= rest);
        assert(split(s) == seq![a] + split(rest));
        assert(seq![a] + fields.drop_first() =~= fields);
    }
}

/// A written record whose fields lie in the ranges of the format is read
/// back as the record.
pub proof fn lemma_record_round_trip(r: TILE)
    requires
        format_in_range(r),
    ensures
        spec_parse_tile(indent() + record_text(r)) == Some(r),
        spec_parse_tile(record_text(r)) == Some(r),
{
    let fields = written_fields(r);
    let body = join(fields);
    let text = record_text(r);
    let line = indent() + text;
    lemma_decimal_is_digits(r.0 as nat);
    lemma_decimal_is_digits(r.1 as nat);
    lemma_decimal_is_digits(r.2 as nat);
    lemma_decimal_is_digits(r.3 as nat);
    lemma_decimal_is_digits(r.4 as nat);
    lemma_decimal_is_digits(r.6 as nat);
    lemma_flag_round_trip(r.5);
    lemma_number_round_trip(r.0 as nat, usize::MAX as nat);
    lemma_number_round_trip(r.1 as nat, usize::MAX as nat);
    lemma_number_round_trip(r.2 as nat, (TILESET_COUNT - 1) as nat);
    lemma_number_round_trip(r.3 as nat, (PALETTE_LEN - 1) as nat);
    lemma_number_round_trip(r.4 as nat, (PALETTE_LEN - 1) as nat);
    lemma_number_round_trip(r.6 as nat, (TURNS - 1) as nat);
    lemma_split_join(fields);
    // The white space before the record goes, one space at a time.
    assert(text[0] == '(');
    assert(text.last() == ',');
    assert(!is_space('(') && !is_space(',') && is_space(' '));
    assert(trim_start(text) == text);
    let l1 = seq![' ', ' ', ' '] + text;
    let l2 = seq![' ', ' '] + text;
    let l3 = seq![' '] + text;
    assert(line.drop_first() =~= l1);
    assert(l1.drop_first() =~= l2);
    assert(l2.drop_first() =~= l3);
    assert(l3.drop_first() =~= text);
    assert(line[0] == ' ' && l1[0] == ' ' && l2[0] == ' ' && l3[0] == ' ');
    assert(trim_start(l3) == text);
    assert(trim_start(l2) == text);
    assert(trim_start(l1) == text);
    assert(trim_start(line) == text);
    assert(trim_end(text) == text);
    assert(trim(line) == text);
    assert(trim(text) == text);
    // Between the brackets stand the fields.
    assert(text.len() == body.len() + 3);
    assert(text[text.len() - 2] == ')');
    assert(text.subrange(1, text.len() - 2) =~= body);
    assert(unwrap_record(text) == Some(body));
    assert(fields.len() == 7);
    assert(parse_fields(fields) == Some(r));
}

proof fn lemma_first_newline_behind_line(a: Seq<char>, rest: Seq<char>)
    requires
        one_line(a),
    ensures
        first_newline(a + seq!['\n'] + rest) == a.len(),
        first_newline(a) == a.len(),
    decreases a.len(),
{
    let s = a + seq!['\n'] + rest;
    if a.len() == 0 {
        assert(s[0] == '\n');
    } else {
        assert(a[0] != '\n');
        assert(s[0] == a[0]);
        assert(one_line(a.drop_first())) by {
            assert forall|i: int| 0 <= i < a.drop_first().len() implies #[trigger] a.drop_first()[i]
                != '\n' by {
                assert(a.drop_first()[i] == a[i + 1]);
            }
        }
        lemma_first_newline_behind_line(a.drop_first(), rest);
        assert(s.drop_first() =~= a.drop_first() + seq!['\n'] + rest);
    }
}

/// A text that begins with a line, a line feed behind it, has that line as
/// its first; a text without a line feed is one line.
pub proof fn lemma_lines_of_line(a: Seq<char>, rest: Seq<char>)
    requires
        one_line(a),
    ensures
        lines(a + seq!['\n'] + rest) == seq![a] + lines(rest),
        lines(a) == seq![a],
{
    lemma_first_newline_behind_line(a, rest);
    let s = a + seq!['\n'] + rest;
    assert(s.take(a.len() as int) =~= a);
    assert(s.skip(a.len() as int + 1) =~= rest);
}

proof fn lemma_one_line_concat(a: Seq<char>, b: Seq<char>)
    requires
        one_line(a),
        one_line(b),
    ensures
        one_line(a + b),
{
    assert forall|i: int| 0 <= i < (a + b).len() implies #[trigger] (a + b)[i] != '\n' by {
        if i < a.len() {
            assert((a + b)[i] == a[i]);
        } else {
            assert((a + b)[i] == b[i - a.len()]);
        }
    }
}

proof fn lemma_words_are_one_line(a: Seq<char>)
    requires
        only_words(a),
    ensures
        one_line(a),
{
    assert forall|i: int| 0 <= i < a.len() implies #[trigger] a[i] != '\n' by {
        assert(is_word(a[i]));
    }
}

proof fn lemma_join_is_one_line(fields: Seq<Seq<char>>)
    requires
        forall|i: int| 0 <= i < fields.len() ==> only_words(#[trigger] fields[i]),
    ensures
        one_line(join(fields)),
    decreases fields.len(),
{
    if fields.len() == 0 {
    } else if fields.len() == 1 {
        lemma_words_are_one_line(fields[0]);
    } else {
        assert forall|i: int| 0 <= i < fields.drop_first().len() implies only_words(
            #[trigger] fields.drop_first()[i],
        ) by {
            assert(fields.drop_first()[i] == fields[i + 1]);
        }
        lemma_join_is_one_line(fields.drop_first());
        lemma_words_are_one_line(fields[0]);
        assert(one_line(separator()));
        lemma_one_line_concat(fields[0], separator());
        lemma_one_line_concat(fields[0] + separator(), join(fields.drop_first()));
    }
}

proof fn lemma_record_text_is_one_line(r: TILE)
    ensures
        one_line(indent() + record_text(r)),
{
    lemma_decimal_is_digits(r.0 as nat);
    lemma_decimal_is_digits(r.1 as nat);
    lemma_decimal_is_digits(r.2 as nat);
    lemma_decimal_is_digits(r.3 as nat);
    lemma_decimal_is_digits(r.4 as nat);
    lemma_decimal_is_digits(r.6 as nat);
    lemma_flag_round_trip(r.5);
    lemma_join_is_one_line(written_fields(r));
    let body = join(written_fields(r));
    assert(one_line(seq!['(']));
    assert(one_line(seq![')', ',']));
    assert(one_line(indent()));
    lemma_one_line_concat(seq!['('], body);
    lemma_one_line_concat(seq!['('] + body, seq![')', ',']);
    lemma_one_line_concat(indent(), record_text(r));
}

/// The lines of a list of records as `export` writes them, without their
/// line feeds.
pub open spec fn written_lines(records: Seq<TILE>) -> Seq<Seq<char>> {
    Seq::new(records.len(), |i: int| indent() + record_text(records[i]))
}

proof fn lemma_record_lines_from_the_front(records: Seq<TILE>)
    requires
        records.len() > 0,
    ensures
        record_lines(records) == record_line(records[0]) + record_lines(records.drop_first()),
    decreases records.len(),
{
    if records.len() == 1 {
        assert(records.drop_last() =~= Seq::<TILE>::empty());
        assert(records.drop_first() =~= Seq::<TILE>::empty());
        assert(record_lines(Seq::<TILE>::empty()) =~= Seq::<char>::empty());
        assert(records.last() == records[0]);
        assert(record_lines(records) =~= record_line(records[0]));
        assert(record_line(records[0]) + record_lines(records.drop_first()) =~= record_line(
            records[0],
        ));
    } else {
        let shorter = records.drop_last();
        lemma_record_lines_from_the_front(shorter);
        assert(shorter.drop_first() =~= records.drop_first().drop_last());
        assert(shorter[0] == records[0]);
        assert(records.drop_first().last() == records.last());
        assert(record_lines(records) =~= record_line(records[0]) + record_lines(
            records.drop_first(),
        ));
    }
}

proof fn lemma_lines_of_record_lines(records: Seq<TILE>, rest: Seq<char>)
    ensures
        lines(record_lines(records) + rest) == written_lines(records) + lines(rest),
    decreases records.len(),
{
    if records.len() == 0 {
        assert(record_lines(records) + rest =~= rest);
        assert(written_lines(records) + lines(rest) =~= lines(rest));
    } else {
        let r = records[0];
        let later = records.drop_first();
        let first = indent() + record_text(r);
        lemma_record_lines_from_the_front(records);
        lemma_record_text_is_one_line(r);
        lemma_lines_of_record_lines(later, rest);
        lemma_lines_of_line(first, record_lines(later) + rest);
        assert(record_lines(records) + rest =~= first + seq!['\n'] + (record_lines(later) + rest));
        assert(written_lines(records) =~= seq![first] + written_lines(later));
        assert(seq![first] + (written_lines(later) + lines(rest)) =~= written_lines(records)
            + lines(rest));
    }
}

/// Whether the fields of each record of a list lie in the ranges of the
/// format.
pub open spec fn all_in_range(records: Seq<TILE>) -> bool {
    forall|i: int| 0 <= i < records.len() ==> format_in_range(#[trigger] records[i])
}

proof fn lemma_parsed_in_range(read: Seq<Seq<char>>)
    ensures
        all_in_range(parsed(read)),
    decreases read.len(),
{
    if read.len() > 0 {
        lemma_parsed_in_range(read.drop_last());
        let before = parsed(read.drop_last());
        match spec_parse_tile(read.last()) {
            Some(record) => {
                assert(format_in_range(record));
                let now = before.push(record);
                assert forall|i: int| 0 <= i < now.len() implies format_in_range(
                    #[trigger] now[i],
                ) by {
                    if i < before.len() {
                        assert(now[i] == before[i]);
                    }
                }
            },
            None => {},
        }
    }
}

/// Whatever a text holds, the records read from it lie in the ranges of the
/// format: a line with a field outside them is malformed and read as none.
pub proof fn lemma_read_records_in_range(text: Seq<char>)
    ensures
        all_in_range(text_records(text)),
        forall|line: Seq<char>| spec_parse_tile(line) is Some ==> format_in_range(
            #[trigger] spec_parse_tile(line)->0,
        ),
{
    lemma_parsed_in_range(lines(text));
}

proof fn lemma_parsed_written_lines(before: Seq<Seq<char>>, records: Seq<TILE>)
    requires
        all_in_range(records),
    ensures
        parsed(before + written_lines(records)) == parsed(before) + records,
    decreases records.len(),
{
    if records.len() == 0 {
        assert(before + written_lines(records) =~= before);
        assert(parsed(before) + records =~= parsed(before));
    } else {
        let all = before + written_lines(records);
        let shorter = records.drop_last();
        assert forall|i: int| 0 <= i < shorter.len() implies format_in_range(
            #[trigger] shorter[i],
        ) by {
            assert(shorter[i] == records[i]);
        }
        assert(format_in_range(records[records.len() - 1]));
        lemma_parsed_written_lines(before, shorter);
        assert(all.drop_last() =~= before + written_lines(shorter));
        assert(all.last() == indent() + record_text(records.last()));
        lemma_record_round_trip(records.last());
        assert(parsed(all) == parsed(all.drop_last()).push(records.last()));
        assert((parsed(before) + shorter).push(records.last()) =~= parsed(before) + records);
    }
}

/// What `export` writes of a list of records whose fields lie in the ranges
/// of the format, `import` reads as the same list.
pub proof fn lemma_text_round_trip(records: Seq<TILE>)
    requires
        all_in_range(records),
    ensures
        text_records(export_text(records)) == records,
{
    let open = seq!['['];
    let close = seq![']', ';'];
    let text = export_text(records);
    assert(one_line(open));
    assert(one_line(close));
    lemma_lines_of_line(close, Seq::empty());
    lemma_lines_of_record_lines(records, close);
    lemma_lines_of_line(open, record_lines(records) + close);
    assert(text =~= open + seq!['\n'] + (record_lines(records) + close));
    assert(lines(text) == seq![open] + (written_lines(records) + seq![close]));
    // Neither bracket line is a record.
    assert(!is_space('[') && !is_space(']') && !is_space(';'));
    assert(open[0] == '[' && open.last() == '[');
    assert(trim(open) == open);
    assert(spec_parse_tile(open) is None);
    assert(close[0] == ']' && close.last() == ';');
    assert(trim(close) == close);
    assert(spec_parse_tile(close) is None);
    let first = seq![open];
    assert(first.drop_last() =~= Seq::<Seq<char>>::empty());
    assert(parsed(first.drop_last()) =~= Seq::<TILE>::empty());
    assert(parsed(first) =~= Seq::<TILE>::empty());
    lemma_parsed_written_lines(first, records);
    let most = first + written_lines(records);
    assert(parsed(most) =~= records);
    let all = most.push(close);
    assert(all.drop_last() =~= most);
    assert(all.last() == close);
    assert(lines(text) =~= all);
}

/// A tile as the clipboard text keeps it: the text has no place for the
/// second flip.
pub open spec fn kept(tile: Tile) -> Tile {
    Tile { flip: (tile.flip.0, false), ..tile }
}

/// Whether a grid starts at `(0, 0)` and has a cell at each coordinate of
/// its rectangle.
pub open spec fn settled_at_origin(grid: &Grid) -> bool {
    &&& grid.wf()
    &&& !grid.spec_resized()
    &&& grid.spec_x0() == 0
    &&& grid.spec_y0() == 0
}

/// Whether each cell of a grid shows a tile that the clipboard text can
/// hold: a glyph of the tileset, turned by less than a full turn.
pub open spec fn tiles_in_range(grid: &Grid) -> bool {
    forall|at: Coord| #[trigger]
        grid.cells().dom().contains(at) ==> grid.cells()[at].0.spec_in_range()
}

/// The records of the rows before `row` and of the first `cols` cells of
/// row `row`.
spec fn records_before(grid: &Grid, row: int, cols: int) -> Seq<TILE> {
    rows_records(grid, row) + row_records(grid, row, cols)
}

/// Whether a coordinate lies in the rows before `row` or among the first
/// `cols` cells of row `row`.
spec fn lies_before(grid: &Grid, at: Coord, row: int, cols: int) -> bool {
    grid.in_rect(at) && (at.1 < row || (at.1 == row && at.0 < cols))
}

proof fn lemma_record_of_settled_cell(grid: &Grid, at: Coord)
    requires
        settled_at_origin(grid),
        tiles_in_range(grid),
        grid.in_rect(at),
    ensures
        cell_record(grid, at) is Some,
        record_cell(cell_record(grid, at)->0) == Some((at, kept(grid.cells()[at].0))),
{
    let tile = grid.cells()[at].0;
    assert(grid.cells().dom().contains(at));
    lemma_palette_index_round_trip(tile.bg, 0);
    lemma_palette_index_round_trip(tile.fg, 0);
}

proof fn lemma_records_before(grid: &Grid, row: int, cols: int)
    requires
        settled_at_origin(grid),
        tiles_in_range(grid),
        0 <= row <= grid.spec_h(),
        0 <= cols <= grid.spec_w(),
        row == grid.spec_h() ==> cols == 0,
    ensures
        ({
            let cells = record_cells(records_before(grid, row, cols));
            &&& forall|at: Coord|
                Grid::installed(cells).dom().contains(at) <==> lies_before(grid, at, row, cols)
            &&& forall|at: Coord|
                lies_before(grid, at, row, cols) ==> #[trigger] Grid::installed(cells)[at] == kept(
                    grid.cells()[at].0,
                )
            &&& cells_width(cells) == (if row > 0 {
                grid.spec_w() as int
            } else {
                cols
            })
            &&& cells_height(cells) == (if cols > 0 {
                row + 1
            } else {
                row
            })
        }),
    decreases row, cols,
{
    let w = grid.spec_w() as int;
    let now = records_before(grid, row, cols);
    if cols > 0 {
        lemma_records_before(grid, row, cols - 1);
        let at: Coord = ((cols - 1) as isize, row as isize);
        assert(grid.in_rect(at));
        lemma_record_of_settled_cell(grid, at);
        let record = cell_record(grid, at)->0;
        let earlier = records_before(grid, row, cols - 1);
        assert(row_records(grid, row, cols) == row_records(grid, row, cols - 1).push(record));
        assert(now =~= earlier.push(record));
        assert(now.drop_last() =~= earlier);
        assert(now.last() == record);
        let cells_earlier = record_cells(earlier);
        let cells = record_cells(now);
        let cell = (at, kept(grid.cells()[at].0));
        assert(cells == cells_earlier.push(cell));
        assert(cells.drop_last() =~= cells_earlier);
        assert(cells.last() == cell);
        assert(Grid::installed(cells) == Grid::installed(cells_earlier).insert(at, cell.1));
        assert forall|other: Coord|
            Grid::installed(cells).dom().contains(other) <==> lies_before(
                grid,
                other,
                row,
                cols,
            ) by {
            assert(lies_before(grid, other, row, cols) <==> lies_before(grid, other, row, cols - 1)
                || other == at);
        }
        assert forall|other: Coord| lies_before(grid, other, row, cols) implies #[trigger]
            Grid::installed(cells)[other] == kept(grid.cells()[other].0) by {
            if other != at {
                assert(lies_before(grid, other, row, cols - 1));
            }
        }
    } else if row > 0 {
        lemma_records_before(grid, row - 1, w);
        assert(row_records(grid, row, 0) =~= Seq::<TILE>::empty());
        assert(now =~= records_before(grid, row - 1, w));
        assert forall|other: Coord|
            lies_before(grid, other, row, 0) <==> lies_before(grid, other, row - 1, w) by {}
    } else {
        assert(now =~= Seq::<TILE>::empty());
        assert(record_cells(now) =~= Seq::<(Coord, Tile)>::empty());
        assert(Grid::installed(record_cells(now)) =~= Map::<Coord, Tile>::empty());
    }
}

proof fn lemma_same_records(grid: &Grid, after: &Grid, row: int, cols: int)
    requires
        grid.same_rect(after),
        Grid::rect_fits(
            grid.spec_x0() as int,
            grid.spec_y0() as int,
            grid.spec_w() as int,
            grid.spec_h() as int,
        ),
        0 <= row <= grid.spec_h(),
        0 <= cols <= grid.spec_w(),
        row == grid.spec_h() ==> cols == 0,
        forall|at: Coord| grid.in_rect(at) ==> cell_record(grid, at) == cell_record(after, at),
    ensures
        rows_records(grid, row) == rows_records(after, row),
        row_records(grid, row, cols) == row_records(after, row, cols),
    decreases row, cols,
{
    if cols > 0 {
        lemma_same_records(grid, after, row, cols - 1);
        let at: Coord = (
            (grid.spec_x0() + cols - 1) as isize,
            (grid.spec_y0() + row) as isize,
        );
        assert(grid.in_rect(at));
    } else if row > 0 {
        lemma_same_records(grid, after, row - 1, grid.spec_w() as int);
    }
}

proof fn lemma_grid_records_in_range(grid: &Grid, row: int, cols: int)
    requires
        tiles_in_range(grid),
        0 <= row,
        0 <= cols,
    ensures
        all_in_range(rows_records(grid, row)),
        all_in_range(row_records(grid, row, cols)),
    decreases row, cols,
{
    if cols > 0 {
        lemma_grid_records_in_range(grid, row, cols - 1);
        let at: Coord = (
            (grid.spec_x0() + cols - 1) as isize,
            (grid.spec_y0() + row) as isize,
        );
        let before = row_records(grid, row, cols - 1);
        match cell_record(grid, at) {
            Some(record) => {
                let tile = grid.cells()[at].0;
                assert(grid.cells().dom().contains(at));
                lemma_palette_index_round_trip(tile.bg, 0);
                lemma_palette_index_round_trip(tile.fg, 0);
                assert(format_in_range(record));
                let now = before.push(record);
                assert forall|i: int| 0 <= i < now.len() implies format_in_range(
                    #[trigger] now[i],
                ) by {
                    if i < before.len() {
                        assert(now[i] == before[i]);
                    }
                }
            },
            None => {},
        }
    } else if row > 0 {
        let w = grid.spec_w() as int;
        lemma_grid_records_in_range(grid, row - 1, w);
        let above = rows_records(grid, row - 1);
        let last = row_records(grid, row - 1, w);
        let now = above + last;
        assert forall|i: int| 0 <= i < now.len() implies format_in_range(#[trigger] now[i]) by {
            if i < above.len() {
                assert(now[i] == above[i]);
            } else {
                assert(now[i] == last[i - above.len()]);
            }
        }
    }
}

/// A grid that shows tiles in range only writes records whose fields lie in
/// the ranges of the format.
pub proof fn lemma_records_in_range(grid: &Grid)
    requires
        tiles_in_range(grid),
    ensures
        all_in_range(grid_records(grid)),
{
    lemma_grid_records_in_range(grid, grid.spec_h() as int, 0);
}

/// The text of a grid is read back as the grid: of a grid that starts at
/// `(0, 0)`, has all its cells and shows tiles in range only, the exported
/// text writes at least one cell, and the cells it writes are as wide and as
/// high as the grid and give each coordinate the tile that the grid shows
/// there, as far as the text keeps it. So an import of that text succeeds.
pub proof fn lemma_export_is_imported(grid: &Grid)
    requires
        settled_at_origin(grid),
        tiles_in_range(grid),
    ensures
        imported_cells(export_text(grid_records(grid))).len() > 0,
        cells_width(imported_cells(export_text(grid_records(grid)))) == grid.spec_w(),
        cells_height(imported_cells(export_text(grid_records(grid)))) == grid.spec_h(),
        forall|at: Coord|
            grid.in_rect(at) ==> #[trigger] Grid::tile_after(
                imported_cells(export_text(grid_records(grid))),
                at,
            ) == kept(grid.cells()[at].0),
{
    let records = grid_records(grid);
    let h = grid.spec_h() as int;
    let w = grid.spec_w() as int;
    lemma_records_in_range(grid);
    lemma_text_round_trip(records);
    let cells = imported_cells(export_text(records));
    assert(cells == record_cells(records));
    lemma_records_before(grid, h, 0);
    assert(row_records(grid, h, 0) =~= Seq::<TILE>::empty());
    assert(records_before(grid, h, 0) =~= records);
    assert(cells_width(cells) == w);
    assert(cells_height(cells) == h);
    assert(cells.len() > 0) by {
        if cells.len() == 0 {
            assert(cells_width(cells) == 0);
        }
    }
    assert forall|at: Coord| grid.in_rect(at) implies #[trigger] Grid::tile_after(cells, at)
        == kept(grid.cells()[at].0) by {
        assert(lies_before(grid, at, h, 0));
        assert(Grid::installed(cells).dom().contains(at));
    }
}

/// A grid read from the text of a grid writes the same text: exported,
/// imported and exported again, a grid that starts at `(0, 0)`, has all its
/// cells and shows tiles in range only gives the text it gave at first.
pub proof fn lemma_export_import_export(grid: &Grid, after: &Grid)
    requires
        settled_at_origin(grid),
        tiles_in_range(grid),
        shows(after, imported_cells(export_text(grid_records(grid)))),
    ensures
        after.same_rect(grid),
        forall|at: Coord| grid.in_rect(at) ==> #[trigger] after.cells()[at].0 == kept(
            grid.cells()[at].0,
        ),
        tiles_in_range(after),
        export_text(grid_records(after)) == export_text(grid_records(grid)),
{
    let h = grid.spec_h() as int;
    let cells = imported_cells(export_text(grid_records(grid)));
    lemma_export_is_imported(grid);
    assert(after.same_rect(grid));
    assert forall|at: Coord| grid.in_rect(at) implies #[trigger] after.cells()[at].0 == kept(
        grid.cells()[at].0,
    ) by {
        assert(after.in_rect(at));
        assert(Grid::tile_after(cells, at) == kept(grid.cells()[at].0));
    }
    assert forall|at: Coord| grid.in_rect(at) implies cell_record(grid, at) == cell_record(
        after,
        at,
    ) by {
        assert(after.in_rect(at));
        assert(after.rect().contains(at));
        assert(after.cells().dom().contains(at));
        assert(grid.cells().dom().contains(at));
        assert(after.cells()[at].0 == kept(grid.cells()[at].0));
    }
    assert forall|at: Coord| #[trigger] after.cells().dom().contains(at) implies after.cells()[at].0.spec_in_range() by {
        assert(after.rect().contains(at));
        assert(grid.in_rect(at));
        assert(grid.cells().dom().contains(at));
        assert(after.cells()[at].0 == kept(grid.cells()[at].0));
    }
    lemma_same_records(grid, after, h, 0);
    assert(grid_records(after) == grid_records(grid));
}

} // verus!
