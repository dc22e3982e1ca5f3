//! Reading a grid from clipboard text. The text is read line by line; a line
//! that is no record is passed over.
use vstd::prelude::*;

use crate::grid::{Grid, GridChanged, Reconciliation, Tile, Zoom};
use crate::tile_map::Coord;
use crate::grid::TURNS;
use crate::util::misc::TILESET_COUNT;
use crate::util::{Palette, PALETTE_LEN, TILE};

verus! {

/// Whether a character is white space: the characters that Unicode gives the
/// property `White_Space`.
pub open spec fn is_space(c: char) -> bool {
    ||| c == ' '
    ||| '\t' <= c <= '\r'
    ||| c == '\u{85}'
    ||| c == '\u{a0}'
    ||| c == '\u{1680}'
    ||| '\u{2000}' <= c <= '\u{200a}'
    ||| c == '\u{2028}'
    ||| c == '\u{2029}'
    ||| c == '\u{202f}'
    ||| c == '\u{205f}'
    ||| c == '\u{3000}'
}

/// A text without the white space at its start.
pub open spec fn trim_start(s: Seq<char>) -> Seq<char>
    decreases s.len(),
{
    if s.len() > 0 && is_space(s[0]) {
        trim_start(s.drop_first())
    } else {
        s
    }
}

/// A text without the white space at its end.
pub open spec fn trim_end(s: Seq<char>) -> Seq<char>
    decreases s.len(),
{
    if s.len() > 0 && is_space(s.last()) {
        trim_end(s.drop_last())
    } else {
        s
    }
}

/// A text without the white space at its start and at its end.
pub open spec fn trim(s: Seq<char>) -> Seq<char> {
    trim_end(trim_start(s))
}

/// What stands between the brackets of a record: the text without `(` at
/// its start and `),` at its end, if it has both.
pub open spec fn unwrap_record(s: Seq<char>) -> Option<Seq<char>> {
    if s.len() >= 3 && s[0] == '(' && s[s.len() - 2] == ')' && s[s.len() - 1] == ',' {
        Some(s.subrange(1, s.len() - 2))
    } else {
        None
    }
}

/// Where the first separator, a comma and a space, begins in a text; the
/// text's length if it holds none.
pub open spec fn first_separator(s: Seq<char>) -> int
    decreases s.len(),
{
    if s.len() < 2 {
        s.len() as int
    } else if s[0] == ',' && s[1] == ' ' {
        0
    } else {
        1 + first_separator(s.drop_first())
    }
}

/// The fields of a text: what stands before its first separator, and the
/// fields of what stands behind it.
pub open spec fn split(s: Seq<char>) -> Seq<Seq<char>>
    decreases s.len(),
{
    let k = first_separator(s);
    if 0 <= k && k + 2 <= s.len() {
        seq![s.take(k)] + split(s.skip(k + 2))
    } else {
        seq![s]
    }
}

/// Whether a character is a decimal digit.
pub open spec fn is_digit(c: char) -> bool {
    '0' <= c <= '9'
}

/// The number that a row of digits writes.
pub open spec fn digits_value(s: Seq<char>) -> nat
    decreases s.len(),
{
    if s.len() == 0 {
        0
    } else {
        digits_value(s.drop_last()) * 10 + (s.last() as nat - '0' as nat) as nat
    }
}

/// The digits of a number field: the field itself, or what follows its plus
/// sign.
pub open spec fn number_digits(s: Seq<char>) -> Seq<char> {
    if s.len() > 0 && s[0] == '+' {
        s.drop_first()
    } else {
        s
    }
}

/// The number that a field writes: the field is one digit or more, with or
/// without a plus sign before them, and the number is `max` at most.
pub open spec fn parse_number(s: Seq<char>, max: nat) -> Option<nat> {
    let digits = number_digits(s);
    if digits.len() > 0 && (forall|i: int| 0 <= i < digits.len() ==> is_digit(#[trigger] digits[i]))
        && digits_value(digits) <= max {
        Some(digits_value(digits))
    } else {
        None
    }
}

/// The truth value that a field writes: the field is `true` or `false`.
pub open spec fn parse_flag(s: Seq<char>) -> Option<bool> {
    if s == seq!['t', 'r', 'u', 'e'] {
        Some(true)
    } else if s == seq!['f', 'a', 'l', 's', 'e'] {
        Some(false)
    } else {
        None
    }
}

/// Whether the fields of a record lie in the ranges of the format: the
/// glyph is one of the tileset, the colours are positions of the palette
/// table, and the rotation is less than a full turn.
pub open spec fn format_in_range(r: TILE) -> bool {
    &&& r.2 < TILESET_COUNT
    &&& r.3 < PALETTE_LEN
    &&& r.4 < PALETTE_LEN
    &&& r.6 < TURNS
}

/// The record that seven fields write, if each writes what its place asks
/// for: two numbers for the coordinate, a glyph of the tileset, two positions
/// of the palette table, a truth value, and a rotation of less than a full
/// turn.
pub open spec fn parse_fields(f: Seq<Seq<char>>) -> Option<TILE> {
    if f.len() != 7 {
        None
    } else if parse_number(f[0], usize::MAX as nat) is None || parse_number(
        f[1],
        usize::MAX as nat,
    ) is None || parse_number(f[2], (TILESET_COUNT - 1) as nat) is None || parse_number(
        f[3],
        (PALETTE_LEN - 1) as nat,
    ) is None || parse_number(f[4], (PALETTE_LEN - 1) as nat) is None || parse_flag(f[5]) is None
        || parse_number(f[6], (TURNS - 1) as nat) is None {
        None
    } else {
        Some(
            (
                parse_number(f[0], usize::MAX as nat)->0 as usize,
                parse_number(f[1], usize::MAX as nat)->0 as usize,
                parse_number(f[2], (TILESET_COUNT - 1) as nat)->0 as usize,
                parse_number(f[3], (PALETTE_LEN - 1) as nat)->0 as usize,
                parse_number(f[4], (PALETTE_LEN - 1) as nat)->0 as usize,
                parse_flag(f[5])->0,
                parse_number(f[6], (TURNS - 1) as nat)->0 as u8,
            ),
        )
    }
}

/// The record that a line writes: the line, without the white space around
/// it, is `(`, seven fields with a comma and a space between two of them,
/// and `),`, and each field lies in the range of its place. Any other line
/// is malformed and writes none.
pub open spec fn spec_parse_tile(line: Seq<char>) -> Option<TILE> {
    match unwrap_record(trim(line)) {
        Some(inner) => parse_fields(split(inner)),
        None => None,
    }
}

/// The characters of a text.
pub fn chars_of(text: &str) -> (chars: Vec<char>)
    ensures
        chars@ == text@,
{
    let mut chars: Vec<char> = Vec::new();
    for c in it: text.chars()
        invariant
            chars@ == it.seq().take(it.index() as int),
            it.seq() == text@,
    {
        chars.push(c);
    }
    chars
}

fn space(c: char) -> (b: bool)
    ensures
        b == is_space(c),
{
    c == ' ' || ('\t' <= c && c <= '\r') || c == '\u{85}' || c == '\u{a0}' || c == '\u{1680}' || (
    '\u{2000}' <= c && c <= '\u{200a}') || c == '\u{2028}' || c == '\u{2029}' || c == '\u{202f}'
        || c == '\u{205f}' || c == '\u{3000}'
}

/// The part of `s` from `from` up to `to`, as a text of its own.
fn copy_range(s: &Vec<char>, from: usize, to: usize) -> (part: Vec<char>)
    requires
        from <= to <= s@.len(),
    ensures
        part@ == s@.subrange(from as int, to as int),
{
    let mut part: Vec<char> = Vec::new();
    let mut i: usize = from;
    while i < to
        invariant
            from <= i <= to <= s@.len(),
            part@ == s@.subrange(from as int, i as int),
        decreases to - i,
    {
        part.push(s[i]);
        assert(part@ =~= s@.subrange(from as int, i as int + 1));
        i = i + 1;
    }
    part
}

/// Where the text begins and ends once the white space around it is taken
/// away.
fn trim_bounds(s: &Vec<char>) -> (bounds: (usize, usize))
    ensures
        bounds.0 <= bounds.1 <= s@.len(),
        s@.subrange(bounds.0 as int, bounds.1 as int) == trim(s@),
{
    let mut a: usize = 0;
    assert(s@.skip(0) =~= s@);
    while a < s.len() && space(s[a])
        invariant
            0 <= a <= s@.len(),
            trim_start(s@) == trim_start(s@.skip(a as int)),
        decreases s@.len() - a,
    {
        assert(s@.skip(a as int).drop_first() =~= s@.skip(a as int + 1));
        a = a + 1;
    }
    assert(trim_start(s@) == s@.skip(a as int));
    let ghost rest = s@.skip(a as int);
    let mut b: usize = s.len();
    assert(rest.take(b - a) =~= rest);
    while b > a && space(s[b - 1])
        invariant
            a <= b <= s@.len(),
            rest == s@.skip(a as int),
            trim_end(rest) == trim_end(rest.take(b - a)),
        decreases b,
    {
        assert(rest.take(b - a).drop_last() =~= rest.take(b - a - 1));
        b = b - 1;
    }
    assert(rest.take(b - a) =~= s@.subrange(a as int, b as int));
    (a, b)
}

/// The views of a list of texts.
pub open spec fn views(texts: Seq<Vec<char>>) -> Seq<Seq<char>> {
    Seq::new(texts.len(), |i: int| texts[i]@)
}

proof fn lemma_first_separator_bounds(s: Seq<char>)
    ensures
        0 <= first_separator(s) <= s.len(),
        first_separator(s) < s.len() ==> first_separator(s) + 2 <= s.len() && s[first_separator(s)]
            == ',' && s[first_separator(s) + 1] == ' ',
    decreases s.len(),
{
    if s.len() >= 2 && !(s[0] == ',' && s[1] == ' ') {
        lemma_first_separator_bounds(s.drop_first());
    }
}

/// The fields of the part of `s` from `from` up to `to`.
fn split_fields(s: &Vec<char>, from: usize, to: usize) -> (fields: Vec<Vec<char>>)
    requires
        from <= to <= s@.len(),
    ensures
        views(fields@) == split(s@.subrange(from as int, to as int)),
{
    let mut fields: Vec<Vec<char>> = Vec::new();
    let mut start: usize = from;
    let mut j: usize = from;
    let ghost whole = s@.subrange(from as int, to as int);
    assert(views(fields@) =~= Seq::<Seq<char>>::empty());
    assert(views(fields@) + split(whole) =~= split(whole));
    while to - j > 1
        invariant
            from <= start <= j <= to <= s@.len(),
            whole == s@.subrange(from as int, to as int),
            split(whole) == views(fields@) + split(s@.subrange(start as int, to as int)),
            first_separator(s@.subrange(start as int, to as int)) == (j - start) + first_separator(
                s@.subrange(j as int, to as int),
            ),
        decreases to - j,
    {
        let ghost here = s@.subrange(j as int, to as int);
        let ghost field = s@.subrange(start as int, to as int);
        if s[j] == ',' && s[j + 1] == ' ' {
            assert(here[0] == ',' && here[1] == ' ');
            assert(first_separator(here) == 0);
            let part = copy_range(s, start, j);
            proof {
                let k = j - start;
                assert(first_separator(field) == k);
                assert(field.take(k) =~= part@);
                assert(field.skip(k + 2) =~= s@.subrange(j as int + 2, to as int));
                assert(views(fields@.push(part)) =~= views(fields@) + seq![part@]);
                assert(views(fields@) + (seq![part@] + split(
                    s@.subrange(j as int + 2, to as int),
                )) =~= (views(fields@) + seq![part@]) + split(
                    s@.subrange(j as int + 2, to as int),
                ));
            }
            fields.push(part);
            start = j + 2;
            j = start;
        } else {
            assert(here.drop_first() =~= s@.subrange(j as int + 1, to as int));
            j = j + 1;
        }
    }
    let ghost field = s@.subrange(start as int, to as int);
    let part = copy_range(s, start, to);
    proof {
        let here = s@.subrange(j as int, to as int);
        assert(here.len() < 2);
        assert(first_separator(here) == here.len());
        assert(first_separator(field) == field.len());
        assert(split(field) =~= seq![field]);
        assert(views(fields@.push(part)) =~= views(fields@) + seq![part@]);
    }
    fields.push(part);
    fields
}

proof fn lemma_digits_value_grows(s: Seq<char>, n: int)
    requires
        0 <= n <= s.len(),
        forall|i: int| 0 <= i < s.len() ==> is_digit(#[trigger] s[i]),
    ensures
        digits_value(s.take(n)) <= digits_value(s),
    decreases s.len() - n,
{
    if n < s.len() {
        lemma_digits_value_grows(s, n + 1);
        let longer = s.take(n + 1);
        assert(longer.drop_last() =~= s.take(n));
        assert(longer.last() == s[n]);
        assert(is_digit(s[n]));
    } else {
        assert(s.take(n) =~= s);
    }
}

/// The number that a field writes, if it writes one and that is `max` at
/// most.
fn number(s: &Vec<char>, max: usize) -> (n: Option<usize>)
    ensures
        n is Some <==> parse_number(s@, max as nat) is Some,
        n is Some ==> n->0 == parse_number(s@, max as nat)->0,
{
    let first: usize = if s.len() > 0 && s[0] == '+' {
        1
    } else {
        0
    };
    let ghost digits = number_digits(s@);
    assert(digits =~= s@.skip(first as int));
    if first == s.len() {
        return None;
    }
    let mut value: usize = 0;
    let mut i: usize = first;
    assert(digits.take(0) =~= Seq::<char>::empty());
    while i < s.len()
        invariant
            first <= i <= s@.len(),
            first < s@.len(),
            digits == s@.skip(first as int),
            digits == number_digits(s@),
            forall|k: int| 0 <= k < i - first ==> is_digit(#[trigger] digits[k]),
            value == digits_value(digits.take(i - first)),
            value <= max,
        decreases s@.len() - i,
    {
        let c = s[i];
        assert(c == digits[i - first]);
        if !('0' <= c && c <= '9') {
            assert(!is_digit(digits[i - first]));
            return None;
        }
        let d: usize = (c as u32 - '0' as u32) as usize;
        proof {
            let longer = digits.take(i - first + 1);
            assert(longer.drop_last() =~= digits.take(i - first));
            assert(longer.last() == c);
            assert(digits_value(longer) == value * 10 + d);
        }
        if d > max || value > (max - d) / 10 {
            proof {
                if forall|k: int| 0 <= k < digits.len() ==> is_digit(#[trigger] digits[k]) {
                    lemma_digits_value_grows(digits, i - first + 1);
                    assert(digits_value(digits) > max);
                }
            }
            return None;
        }
        value = value * 10 + d;
        i = i + 1;
    }
    assert(digits.take(i - first) =~= digits);
    Some(value)
}

/// The truth value that a field writes, if it writes one.
fn flag(s: &Vec<char>) -> (b: Option<bool>)
    ensures
        b == parse_flag(s@),
{
    if s.len() == 4 && s[0] == 't' && s[1] == 'r' && s[2] == 'u' && s[3] == 'e' {
        assert(s@ =~= seq!['t', 'r', 'u', 'e']);
        Some(true)
    } else if s.len() == 5 && s[0] == 'f' && s[1] == 'a' && s[2] == 'l' && s[3] == 's' && s[4]
        == 'e' {
        assert(s@ =~= seq!['f', 'a', 'l', 's', 'e']);
        Some(false)
    } else {
        proof {
            let t = seq!['t', 'r', 'u', 'e'];
            let f = seq!['f', 'a', 'l', 's', 'e'];
            if s@ == t {
                assert(t[0] == 't' && t[1] == 'r' && t[2] == 'u' && t[3] == 'e');
            }
            if s@ == f {
                assert(f[0] == 'f' && f[1] == 'a' && f[2] == 'l' && f[3] == 's' && f[4] == 'e');
            }
        }
        None
    }
}

/// The record that the characters of a line write, if they write one.
pub fn parse_chars(line: &Vec<char>) -> (record: Option<TILE>)
    ensures
        record == spec_parse_tile(line@),
        record is Some ==> format_in_range(record->0),
{
    let (a, b) = trim_bounds(line);
    if b - a < 3 || line[a] != '(' || line[b - 2] != ')' || line[b - 1] != ',' {
        return None;
    }
    let ghost trimmed = line@.subrange(a as int, b as int);
    assert(trimmed.subrange(1, trimmed.len() - 2) =~= line@.subrange(a as int + 1, b as int - 2));
    let fields = split_fields(line, a + 1, b - 2);
    let ghost f = views(fields@);
    if fields.len() != 7 {
        return None;
    }
    assert(f[0] == fields@[0]@ && f[1] == fields@[1]@ && f[2] == fields@[2]@ && f[3]
        == fields@[3]@ && f[4] == fields@[4]@ && f[5] == fields@[5]@ && f[6] == fields@[6]@);
    let x = match number(&fields[0], usize::MAX) {
        Some(n) => n,
        None => {
            return None;
        },
    };
    let y = match number(&fields[1], usize::MAX) {
        Some(n) => n,
        None => {
            return None;
        },
    };
    let index = match number(&fields[2], TILESET_COUNT - 1) {
        Some(n) => n,
        None => {
            return None;
        },
    };
    let bg = match number(&fields[3], PALETTE_LEN - 1) {
        Some(n) => n,
        None => {
            return None;
        },
    };
    let fg = match number(&fields[4], PALETTE_LEN - 1) {
        Some(n) => n,
        None => {
            return None;
        },
    };
    let flip = match flag(&fields[5]) {
        Some(b) => b,
        None => {
            return None;
        },
    };
    let rotation = match number(&fields[6], (TURNS - 1) as usize) {
        Some(n) => n as u8,
        None => {
            return None;
        },
    };
    Some((x, y, index, bg, fg, flip, rotation))
}

/// The record that a line writes, if it writes one.
pub fn parse_tile(line: &str) -> (record: Option<TILE>)
    ensures
        record == spec_parse_tile(line@),
        record is Some ==> format_in_range(record->0),
{
    let chars = chars_of(line);
    parse_chars(&chars)
}

/// Where the first line feed stands in a text; the text's length if it
/// holds none.
pub open spec fn first_newline(s: Seq<char>) -> int
    decreases s.len(),
{
    if s.len() == 0 {
        0
    } else if s[0] == '\n' {
        0
    } else {
        1 + first_newline(s.drop_first())
    }
}

/// The lines of a text: what stands before its first line feed, and the
/// lines of what stands behind it.
pub open spec fn lines(s: Seq<char>) -> Seq<Seq<char>>
    decreases s.len(),
{
    let k = first_newline(s);
    if 0 <= k < s.len() {
        seq![s.take(k)] + lines(s.skip(k + 1))
    } else {
        seq![s]
    }
}

/// The records that a list of lines writes: one for each line that writes
/// one, in the order of the lines.
pub open spec fn parsed(lines: Seq<Seq<char>>) -> Seq<TILE>
    decreases lines.len(),
{
    if lines.len() == 0 {
        Seq::empty()
    } else {
        let before = parsed(lines.drop_last());
        match spec_parse_tile(lines.last()) {
            Some(record) => before.push(record),
            None => before,
        }
    }
}

/// The records that a text writes.
pub open spec fn text_records(text: Seq<char>) -> Seq<TILE> {
    parsed(lines(text))
}

/// The records that a text writes, line by line; a line that writes none is
/// passed over.
pub fn parse_text(text: &str) -> (records: Vec<TILE>)
    ensures
        records@ == text_records(text@),
{
    let chars = chars_of(text);
    let mut records: Vec<TILE> = Vec::new();
    let mut start: usize = 0;
    let mut j: usize = 0;
    let ghost mut done: Seq<Seq<char>> = Seq::empty();
    assert(chars@.subrange(0, chars@.len() as int) =~= chars@);
    assert(done + lines(chars@) =~= lines(chars@));
    while j < chars.len()
        invariant
            0 <= start <= j <= chars@.len(),
            lines(chars@) == done + lines(chars@.subrange(start as int, chars@.len() as int)),
            first_newline(chars@.subrange(start as int, chars@.len() as int)) == (j - start)
                + first_newline(chars@.subrange(j as int, chars@.len() as int)),
            records@ == parsed(done),
        decreases chars@.len() - j,
    {
        let ghost end = chars@.len() as int;
        let ghost here = chars@.subrange(j as int, end);
        let ghost rest = chars@.subrange(start as int, end);
        if chars[j] == '\n' {
            assert(here[0] == '\n');
            let line = copy_range(&chars, start, j);
            let record = parse_chars(&line);
            proof {
                let k = j - start;
                assert(first_newline(rest) == k);
                assert(rest.take(k) =~= line@);
                assert(rest.skip(k + 1) =~= chars@.subrange(j as int + 1, end));
                assert(done + (seq![line@] + lines(chars@.subrange(j as int + 1, end))) =~= done.push(
                    line@,
                ) + lines(chars@.subrange(j as int + 1, end)));
                assert(done.push(line@).drop_last() =~= done);
                done = done.push(line@);
            }
            match record {
                Some(r) => {
                    records.push(r);
                },
                None => {},
            }
            start = j + 1;
            j = start;
        } else {
            assert(here.drop_first() =~= chars@.subrange(j as int + 1, end));
            j = j + 1;
        }
    }
    let line = copy_range(&chars, start, chars.len());
    let record = parse_chars(&line);
    proof {
        let end = chars@.len() as int;
        let rest = chars@.subrange(start as int, end);
        let here = chars@.subrange(j as int, end);
        assert(here.len() == 0);
        assert(first_newline(rest) == rest.len());
        assert(lines(rest) =~= seq![rest]);
        assert(done + seq![rest] =~= done.push(line@));
        assert(done.push(line@).drop_last() =~= done);
    }
    match record {
        Some(r) => {
            records.push(r);
        },
        None => {},
    }
    records
}

/// Whether a record can stand for a cell: its fields lie in the ranges of
/// the format, and its coordinate is not the largest there is, so that a
/// grid can be one wider and higher. A record that was read from a line
/// meets the first; the second is the machine's limit.
pub open spec fn record_in_range(r: TILE) -> bool {
    &&& format_in_range(r)
    &&& r.0 < isize::MAX
    &&& r.1 < isize::MAX
}

/// The cell that a record stands for: its coordinate, counted from the top
/// left, and its tile; none for a record that cannot stand for a cell.
pub open spec fn record_cell(r: TILE) -> Option<(Coord, Tile)> {
    if record_in_range(r) {
        Some(
            (
                (r.0 as isize, r.1 as isize),
                Tile {
                    bg: Palette::spec_from_index(r.3 as nat)->0,
                    fg: Palette::spec_from_index(r.4 as nat)->0,
                    index: r.2,
                    flip: (r.5, false),
                    rotation: r.6,
                },
            ),
        )
    } else {
        None
    }
}

/// The cells that a list of records stands for, in the order of the records.
pub open spec fn record_cells(records: Seq<TILE>) -> Seq<(Coord, Tile)>
    decreases records.len(),
{
    if records.len() == 0 {
        Seq::empty()
    } else {
        let before = record_cells(records.drop_last());
        match record_cell(records.last()) {
            Some(cell) => before.push(cell),
            None => before,
        }
    }
}

/// The width that holds every cell of a list: one more than the largest
/// column; 0 for no cell.
pub open spec fn cells_width(cells: Seq<(Coord, Tile)>) -> int
    decreases cells.len(),
{
    if cells.len() == 0 {
        0
    } else {
        let before = cells_width(cells.drop_last());
        if cells.last().0.0 + 1 > before {
            cells.last().0.0 + 1
        } else {
            before
        }
    }
}

/// The height that holds every cell of a list: one more than the largest
/// row; 0 for no cell.
pub open spec fn cells_height(cells: Seq<(Coord, Tile)>) -> int
    decreases cells.len(),
{
    if cells.len() == 0 {
        0
    } else {
        let before = cells_height(cells.drop_last());
        if cells.last().0.1 + 1 > before {
            cells.last().0.1 + 1
        } else {
            before
        }
    }
}

/// The coordinates of a list of cells, in the order of the list.
pub open spec fn cell_coords(cells: Seq<(Coord, Tile)>) -> Seq<Coord> {
    Seq::new(cells.len(), |i: int| cells[i].0)
}

/// The cell that a record stands for, if it stands for one.
pub fn cell_of_record(r: &TILE) -> (cell: Option<(Coord, Tile)>)
    ensures
        cell == record_cell(*r),
{
    if r.0 >= isize::MAX as usize || r.1 >= isize::MAX as usize {
        return None;
    }
    if r.2 >= TILESET_COUNT || r.6 >= TURNS {
        return None;
    }
    let bg = match Palette::from_index(r.3) {
        Some(p) => p,
        None => {
            return None;
        },
    };
    let fg = match Palette::from_index(r.4) {
        Some(p) => p,
        None => {
            return None;
        },
    };
    Some(
        (
            (r.0 as isize, r.1 as isize),
            Tile { bg, fg, index: r.2, flip: (r.5, false), rotation: r.6 },
        ),
    )
}

/// What an import did: what the grid did to its cells, and the batch of the
/// coordinates that were read, to be handed to the change notifier.
#[derive(Debug)]
pub struct Imported {
    pub done: Reconciliation,
    pub changed: GridChanged,
}

/// What a text imports: the cells of its records.
pub open spec fn imported_cells(text: Seq<char>) -> Seq<(Coord, Tile)> {
    record_cells(text_records(text))
}

/// Whether a grid shows a list of cells and nothing else: it starts at
/// `(0, 0)` and is just wide and high enough for the cells; each of its
/// coordinates has a cell, which shows the tile of the last entry of the list
/// that names the coordinate, or the default tile.
pub open spec fn shows(grid: &Grid, cells: Seq<(Coord, Tile)>) -> bool {
    &&& grid.rect_is(0, 0, cells_width(cells), cells_height(cells))
    &&& grid.cells().dom() == grid.rect()
    &&& forall|at: Coord|
        #![trigger grid.cells()[at]]
        grid.in_rect(at) ==> grid.cells()[at].0 == Grid::tile_after(cells, at)
}

/// Replaces the grid by what a text writes. The new grid starts at `(0, 0)`
/// and is just wide and high enough for the cells read; a cell that the text
/// does not name shows the default tile. A text that writes no cell changes
/// nothing.
pub fn import(grid: &mut Grid, text: &str, zoom: Zoom) -> (imported: Option<Imported>)
    requires
        old(grid).wf(),
    ensures
        final(grid).wf(),
        final(grid).spec_limit() == old(grid).spec_limit(),
        imported is Some <==> imported_cells(text@).len() > 0,
        imported is None ==> final(grid).same_rect(old(grid)) && final(grid).same_cells(old(grid))
            && final(grid).spec_resized() == old(grid).spec_resized(),
        imported is Some ==> {
            &&& shows(final(grid), imported_cells(text@))
            &&& final(grid).spec_resized()
            &&& old(grid).despawns_exactly(imported->0.done.despawned@, true)
            &&& imported->0.done.moved@.len() == 0
            &&& final(grid).spawns_exactly(Set::empty(), imported->0.done.spawned@, zoom)
            &&& imported->0.changed.0@ == cell_coords(imported_cells(text@))
        },
{
    let records = parse_text(text);
    let mut cells: Vec<(Coord, Tile)> = Vec::new();
    let mut changed: Vec<Coord> = Vec::new();
    let mut w: usize = 0;
    let mut h: usize = 0;
    let mut i: usize = 0;
    while i < records.len()
        invariant
            0 <= i <= records@.len(),
            cells@ == record_cells(records@.take(i as int)),
            changed@ == cell_coords(cells@),
            w == cells_width(cells@),
            h == cells_height(cells@),
            w <= isize::MAX,
            h <= isize::MAX,
            cells@.len() > 0 ==> w >= 1 && h >= 1,
        decreases records@.len() - i,
    {
        proof {
            let upto = records@.take(i as int + 1);
            assert(upto.drop_last() =~= records@.take(i as int));
            assert(upto.last() == records@[i as int]);
        }
        match cell_of_record(&records[i]) {
            Some(cell) => {
                let ghost before = cells@;
                cells.push(cell);
                changed.push(cell.0);
                proof {
                    assert(cells@.drop_last() =~= before);
                    assert(changed@ =~= cell_coords(cells@));
                }
                if cell.0.0 as usize + 1 > w {
                    w = cell.0.0 as usize + 1;
                }
                if cell.0.1 as usize + 1 > h {
                    h = cell.0.1 as usize + 1;
                }
            },
            None => {},
        }
        i = i + 1;
    }
    proof {
        assert(records@.take(i as int) =~= records@);
    }
    if cells.len() == 0 {
        return None;
    }
    match grid.replace_all(&cells, 0, 0, w, h, zoom) {
        Some(done) => Some(Imported { done, changed: GridChanged(changed) }),
        None => None,
    }
}

} // verus!
