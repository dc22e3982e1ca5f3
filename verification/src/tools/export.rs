//! Writing a grid as clipboard text: `[`, then one record to a line, then
//! `];`. A record is `(x, y, glyph, bg, fg, flip, rotation),` behind four
//! spaces; `x` and `y` count from the grid's top-left cell.
use vstd::prelude::*;

use crate::grid::Grid;
use crate::tile_map::Coord;
use crate::util::TILE;

verus! {

/// The character of a decimal digit.
pub open spec fn digit(d: int) -> char {
    if d == 0 {
        '0'
    } else if d == 1 {
        '1'
    } else if d == 2 {
        '2'
    } else if d == 3 {
        '3'
    } else if d == 4 {
        '4'
    } else if d == 5 {
        '5'
    } else if d == 6 {
        '6'
    } else if d == 7 {
        '7'
    } else if d == 8 {
        '8'
    } else {
        '9'
    }
}

/// A number in decimal notation, without leading zeros.
pub open spec fn decimal(n: nat) -> Seq<char>
    decreases n,
{
    if n < 10 {
        seq![digit(n as int)]
    } else {
        decimal(n / 10).push(digit((n % 10) as int))
    }
}

/// A truth value as the word `true` or `false`.
pub open spec fn boolean(b: bool) -> Seq<char> {
    if b {
        seq!['t', 'r', 'u', 'e']
    } else {
        seq!['f', 'a', 'l', 's', 'e']
    }
}

/// What separates two fields of a record: a comma and a space.
pub open spec fn separator() -> Seq<char> {
    seq![',', ' ']
}

/// Fields with a separator between each two of them.
pub open spec fn join(fields: Seq<Seq<char>>) -> Seq<char>
    decreases fields.len(),
{
    if fields.len() == 0 {
        Seq::empty()
    } else if fields.len() == 1 {
        fields[0]
    } else {
        fields[0] + separator() + join(fields.drop_first())
    }
}

/// The fields of a record as they are written: the numbers in decimal
/// notation, the flip as a word.
pub open spec fn written_fields(r: TILE) -> Seq<Seq<char>> {
    seq![
        decimal(r.0 as nat),
        decimal(r.1 as nat),
        decimal(r.2 as nat),
        decimal(r.3 as nat),
        decimal(r.4 as nat),
        boolean(r.5),
        decimal(r.6 as nat),
    ]
}

/// A record as it is written: its fields, joined, between `(` and `),`.
pub open spec fn record_text(r: TILE) -> Seq<char> {
    seq!['('] + join(written_fields(r)) + seq![')', ',']
}

/// What stands before a record on its line: four spaces.
pub open spec fn indent() -> Seq<char> {
    seq![' ', ' ', ' ', ' ']
}

/// The line of a record: the indentation, the record, a line feed.
pub open spec fn record_line(r: TILE) -> Seq<char> {
    indent() + record_text(r) + seq!['\n']
}

/// The lines of a list of records, one after the other.
pub open spec fn record_lines(records: Seq<TILE>) -> Seq<char>
    decreases records.len(),
{
    if records.len() == 0 {
        Seq::empty()
    } else {
        record_lines(records.drop_last()) + record_line(records.last())
    }
}

/// The whole text of a list of records.
pub open spec fn export_text(records: Seq<TILE>) -> Seq<char> {
    seq!['[', '\n'] + record_lines(records) + seq![']', ';']
}

fn digit_str(d: usize) -> (s: &'static str)
    requires
        d < 10,
    ensures
        s@ == seq![digit(d as int)],
{
    proof {
        reveal_strlit("0");
        reveal_strlit("1");
        reveal_strlit("2");
        reveal_strlit("3");
        reveal_strlit("4");
        reveal_strlit("5");
        reveal_strlit("6");
        reveal_strlit("7");
        reveal_strlit("8");
        reveal_strlit("9");
    }
    let s = match d {
        0 => "0",
        1 => "1",
        2 => "2",
        3 => "3",
        4 => "4",
        5 => "5",
        6 => "6",
        7 => "7",
        8 => "8",
        _ => "9",
    };
    assert(s@ =~= seq![digit(d as int)]);
    s
}

/// Writes a number in decimal notation behind what `out` holds.
pub fn push_decimal(out: &mut String, n: usize)
    ensures
        final(out)@ == old(out)@ + decimal(n as nat),
    decreases n,
{
    if n < 10 {
        out.append(digit_str(n));
    } else {
        push_decimal(out, n / 10);
        out.append(digit_str(n % 10));
        assert(out@ =~= old(out)@ + decimal(n as nat));
    }
}

proof fn lemma_join_push(fields: Seq<Seq<char>>, last: Seq<char>)
    requires
        fields.len() >= 1,
    ensures
        join(fields.push(last)) == join(fields) + separator() + last,
    decreases fields.len(),
{
    let all = fields.push(last);
    assert(all[0] == fields[0]);
    if fields.len() == 1 {
        assert(all.drop_first() =~= seq![last]);
        assert(join(seq![last]) == last);
    } else {
        let later = fields.drop_first();
        lemma_join_push(later, last);
        assert(all.drop_first() =~= later.push(last));
        assert(fields[0] + separator() + (join(later) + separator() + last) =~= fields[0]
            + separator() + join(later) + separator() + last);
    }
}

/// Writes a separator and one more field behind a record that is begun.
fn push_field(out: &mut String, n: usize, Ghost(start): Ghost<Seq<char>>, Ghost(done): Ghost<
    Seq<Seq<char>>,
>)
    requires
        done.len() >= 1,
        old(out)@ == start + join(done),
    ensures
        final(out)@ == start + join(done.push(decimal(n as nat))),
{
    proof {
        reveal_strlit(", ");
        lemma_join_push(done, decimal(n as nat));
    }
    out.append(", ");
    push_decimal(out, n);
    assert(", "@ =~= separator());
    assert(out@ =~= start + (join(done) + separator() + decimal(n as nat)));
}

/// Writes the line of a record behind what `out` holds.
pub fn push_record(out: &mut String, r: &TILE)
    ensures
        final(out)@ == old(out)@ + record_line(*r),
{
    proof {
        reveal_strlit("    (");
        reveal_strlit(", ");
        reveal_strlit("true");
        reveal_strlit("false");
        reveal_strlit("),\n");
    }
    let ghost start = out@ + indent() + seq!['('];
    out.append("    (");
    assert(out@ =~= start);
    push_decimal(out, r.0);
    let ghost f0 = seq![decimal(r.0 as nat)];
    assert(join(f0) == decimal(r.0 as nat));
    push_field(out, r.1, Ghost(start), Ghost(f0));
    let ghost f1 = f0.push(decimal(r.1 as nat));
    push_field(out, r.2, Ghost(start), Ghost(f1));
    let ghost f2 = f1.push(decimal(r.2 as nat));
    push_field(out, r.3, Ghost(start), Ghost(f2));
    let ghost f3 = f2.push(decimal(r.3 as nat));
    push_field(out, r.4, Ghost(start), Ghost(f3));
    let ghost f4 = f3.push(decimal(r.4 as nat));
    out.append(", ");
    if r.5 {
        out.append("true");
    } else {
        out.append("false");
    }
    let ghost f5 = f4.push(boolean(r.5));
    proof {
        lemma_join_push(f4, boolean(r.5));
        assert(", "@ =~= separator());
        assert("true"@ =~= boolean(true));
        assert("false"@ =~= boolean(false));
        assert(out@ =~= start + (join(f4) + separator() + boolean(r.5)));
    }
    push_field(out, r.6 as usize, Ghost(start), Ghost(f5));
    let ghost f6 = f5.push(decimal(r.6 as nat));
    out.append("),\n");
    proof {
        assert(f6 =~= written_fields(*r));
        assert("),\n"@ =~= seq![')', ',', '\n']);
        assert(out@ =~= old(out)@ + (indent() + (seq!['('] + join(f6) + seq![')', ',']) + seq![
            '\n',
        ]));
    }
}

/// The text of a list of records.
pub fn export_records(records: &Vec<TILE>) -> (text: String)
    ensures
        text@ == export_text(records@),
{
    proof {
        reveal_strlit("[\n");
        reveal_strlit("];");
    }
    let mut text = String::from_str("[\n");
    let mut i: usize = 0;
    while i < records.len()
        invariant
            0 <= i <= records@.len(),
            text@ == seq!['[', '\n'] + record_lines(records@.take(i as int)),
        decreases records@.len() - i,
    {
        proof {
            let upto = records@.take(i as int + 1);
            assert(upto.drop_last() =~= records@.take(i as int));
            assert(upto.last() == records@[i as int]);
        }
        push_record(&mut text, &records[i]);
        assert(text@ =~= seq!['[', '\n'] + record_lines(records@.take(i as int + 1)));
        i = i + 1;
    }
    proof {
        assert(records@.take(i as int) =~= records@);
    }
    text.append("];");
    assert(text@ =~= export_text(records@));
    text
}

/// The record of the cell at a coordinate, counted from the grid's top-left
/// cell; none where the grid has no cell.
pub open spec fn cell_record(grid: &Grid, at: Coord) -> Option<TILE> {
    match grid.cell_at(at) {
        Some(cell) => Some(
            (
                (at.0 - grid.spec_x0()) as usize,
                (at.1 - grid.spec_y0()) as usize,
                cell.0.index,
                cell.0.bg.spec_index() as usize,
                cell.0.fg.spec_index() as usize,
                cell.0.flip.0,
                cell.0.rotation,
            ),
        ),
        None => None,
    }
}

/// The records of the first `cols` cells of a row, the row counted from the
/// top, from left to right.
pub open spec fn row_records(grid: &Grid, row: int, cols: int) -> Seq<TILE>
    decreases cols,
{
    if cols <= 0 {
        Seq::empty()
    } else {
        let before = row_records(grid, row, cols - 1);
        match cell_record(
            grid,
            ((grid.spec_x0() + cols - 1) as isize, (grid.spec_y0() + row) as isize),
        ) {
            Some(record) => before.push(record),
            None => before,
        }
    }
}

/// The records of the first `rows` rows, from the top down.
pub open spec fn rows_records(grid: &Grid, rows: int) -> Seq<TILE>
    decreases rows,
{
    if rows <= 0 {
        Seq::empty()
    } else {
        rows_records(grid, rows - 1) + row_records(grid, rows - 1, grid.spec_w() as int)
    }
}

/// The records of a grid: one for each cell, row by row from the top, each
/// row from the left.
pub open spec fn grid_records(grid: &Grid) -> Seq<TILE> {
    rows_records(grid, grid.spec_h() as int)
}

/// The records of a grid.
pub fn records(grid: &Grid) -> (records: Vec<TILE>)
    requires
        grid.wf(),
    ensures
        records@ == grid_records(grid),
{
    let mut records: Vec<TILE> = Vec::new();
    let w = grid.w();
    let h = grid.h();
    let x0 = grid.x0();
    let y0 = grid.y0();
    let mut row: usize = 0;
    let mut col: usize = 0;
    assert(rows_records(grid, 0) + row_records(grid, 0, 0) =~= Seq::<TILE>::empty());
    while row < h
        invariant
            grid.wf(),
            w == grid.spec_w(),
            h == grid.spec_h(),
            x0 == grid.spec_x0(),
            y0 == grid.spec_y0(),
            0 <= row <= h,
            0 <= col < w,
            row == h ==> col == 0,
            records@ == rows_records(grid, row as int) + row_records(grid, row as int, col as int),
        decreases h - row, w - col,
    {
        let x: isize = (x0 as i128 + col as i128) as isize;
        let y: isize = (y0 as i128 + row as i128) as isize;
        let ghost before = row_records(grid, row as int, col as int);
        match grid.cell(x, y) {
            Some(cell) => {
                let record: TILE = (
                    col,
                    row,
                    cell.0.index,
                    cell.0.bg.index(),
                    cell.0.fg.index(),
                    cell.0.flip.0,
                    cell.0.rotation,
                );
                records.push(record);
                assert(records@ =~= rows_records(grid, row as int) + before.push(record));
            },
            None => {},
        }
        assert(records@ == rows_records(grid, row as int) + row_records(
            grid,
            row as int,
            col as int + 1,
        ));
        col = col + 1;
        if col == w {
            col = 0;
            row = row + 1;
            assert(records@ =~= rows_records(grid, row as int) + row_records(grid, row as int, 0));
        }
    }
    assert(records@ =~= rows_records(grid, h as int));
    records
}

/// The clipboard text of a grid: its records, one to a line, between `[` and
/// `];`.
pub fn export(grid: &Grid) -> (text: String)
    requires
        grid.wf(),
    ensures
        text@ == export_text(grid_records(grid)),
{
    let records = records(grid);
    export_records(&records)
}

} // verus!
