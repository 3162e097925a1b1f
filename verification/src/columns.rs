//! Rows of text laid out in columns.

use crate::text;
use crate::text::{chars_of, join_texts, pad_right, space, text_between};
use vstd::prelude::*;

verus! {

/// The cells of a row, each taken as its characters.
pub open spec fn rows_view(rows: Seq<Vec<String>>) -> Seq<Seq<Seq<char>>> {
    rows.map_values(|row: Vec<String>| text::views(row@))
}

/// The length of the longest text in column `i`.
pub open spec fn column_width(rows: Seq<Seq<Seq<char>>>, i: int) -> nat
    decreases rows.len(),
{
    if rows.len() == 0 {
        0
    } else {
        let before = column_width(rows.drop_last(), i);
        let row = rows.last();
        if i < row.len() && before < row[i].len() {
            row[i].len()
        } else {
            before
        }
    }
}

/// The cells of a row, each as wide as its column.
pub open spec fn widened(rows: Seq<Seq<Seq<char>>>, row: Seq<Seq<char>>) -> Seq<Seq<char>> {
    Seq::new(row.len(), |i: int| text::padded(row[i], column_width(rows, i)))
}

/// A row with two spaces between its columns.
pub open spec fn laid_out(rows: Seq<Seq<Seq<char>>>, row: Seq<Seq<char>>) -> Seq<char> {
    text::join(widened(rows, row), "  "@)
}

/// The line of each row; no line ends in spaces.
pub open spec fn row_lines(rows: Seq<Seq<Seq<char>>>) -> Seq<Seq<char>> {
    rows.map_values(|row: Seq<Seq<char>>| text::trim_end(laid_out(rows, row)))
}

/// Where column `i` begins.
pub open spec fn column_start(rows: Seq<Seq<Seq<char>>>, i: int) -> nat
    decreases i,
{
    if i <= 0 {
        0
    } else {
        column_start(rows, i - 1) + column_width(rows, i - 1) + 2
    }
}

/// `s` without the white space at its end.
fn trim_right(s: &str) -> (r: String)
    ensures
        r@ == text::trim_end(s@),
{
    let v = chars_of(s);
    let mut to: usize = v.len();
    assert(v@.subrange(0, to as int) == v@);
    while to > 0 && space(v[to - 1])
        invariant
            to <= v.len(),
            text::trim_end(v@.subrange(0, to as int)) == text::trim_end(s@),
        decreases to,
    {
        assert(v@.subrange(0, to as int).drop_last() == v@.subrange(0, to - 1));
        to = to - 1;
    }
    text_between(&v, 0, to)
}

fn width_of(rows: &Vec<Vec<String>>, i: usize) -> (n: usize)
    ensures
        n == column_width(rows_view(rows@), i as int),
{
    let mut n: usize = 0;
    let mut k: usize = 0;
    while k < rows.len()
        invariant
            k <= rows.len(),
            n == column_width(rows_view(rows@).take(k as int), i as int),
        decreases rows.len() - k,
    {
        let ghost all = rows_view(rows@);
        assert(all.take(k + 1).drop_last() =~= all.take(k as int));
        if i < rows[k].len() {
            let len: usize = rows[k][i].as_str().unicode_len();
            if n < len {
                n = len;
            }
        }
        k = k + 1;
    }
    assert(rows_view(rows@).take(k as int) =~= rows_view(rows@));
    n
}

fn line_of(rows: &Vec<Vec<String>>, row: &Vec<String>) -> (r: String)
    ensures
        r@ == text::trim_end(laid_out(rows_view(rows@), text::views(row@))),
{
    let ghost all = rows_view(rows@);
    let ghost cells = text::views(row@);
    let mut wide: Vec<String> = Vec::new();
    let mut i: usize = 0;
    while i < row.len()
        invariant
            i <= row.len(),
            all == rows_view(rows@),
            cells == text::views(row@),
            text::views(wide@) == widened(all, cells).take(i as int),
        decreases row.len() - i,
    {
        let cell = pad_right(row[i].as_str(), width_of(rows, i));
        proof {
            text::lemma_views_push(wide@, cell);
            assert(widened(all, cells).take(i + 1) =~= widened(all, cells).take(i as int).push(
                cell@,
            ));
        }
        wide.push(cell);
        i = i + 1;
    }
    assert(widened(all, cells).take(i as int) =~= widened(all, cells));
    let line = join_texts(&wide, "  ");
    trim_right(line.as_str())
}

/// The lines of a table: the headers, then the rows, each column as wide as
/// the longest text in it.
pub fn format_table(headers: &Vec<String>, rows: &Vec<Vec<String>>) -> (r: Vec<String>)
    ensures
        text::views(r@) == row_lines(seq![text::views(headers@)] + rows_view(rows@)),
{
    let mut all: Vec<Vec<String>> = Vec::new();
    all.push(text::copy_all(headers));
    let mut k: usize = 0;
    while k < rows.len()
        invariant
            k <= rows.len(),
            rows_view(all@) == seq![text::views(headers@)] + rows_view(rows@).take(k as int),
        decreases rows.len() - k,
    {
        let row = text::copy_all(&rows[k]);
        let ghost before = all@;
        all.push(row);
        assert(rows_view(all@) =~= rows_view(before).push(text::views(row@)));
        assert(rows_view(rows@).take(k + 1) =~= rows_view(rows@).take(k as int).push(
            text::views(rows[k as int]@),
        ));
        k = k + 1;
    }
    assert(rows_view(rows@).take(k as int) =~= rows_view(rows@));
    let ghost model = rows_view(all@);
    let mut r: Vec<String> = Vec::new();
    let mut i: usize = 0;
    while i < all.len()
        invariant
            i <= all.len(),
            model == rows_view(all@),
            text::views(r@) == row_lines(model).take(i as int),
        decreases all.len() - i,
    {
        let line = line_of(&all, &all[i]);
        proof {
            text::lemma_views_push(r@, line);
            assert(row_lines(model).take(i + 1) =~= row_lines(model).take(i as int).push(line@));
        }
        r.push(line);
        i = i + 1;
    }
    assert(row_lines(model).take(i as int) =~= row_lines(model));
    r
}

proof fn lemma_width_covers(rows: Seq<Seq<Seq<char>>>, k: int, i: int)
    requires
        0 <= k < rows.len(),
        0 <= i < rows[k].len(),
    ensures
        rows[k][i].len() <= column_width(rows, i),
    decreases rows.len(),
{
    if k < rows.len() - 1 {
        lemma_width_covers(rows.drop_last(), k, i);
    }
}

/// The columns before `n` end right before column `n` begins.
proof fn lemma_joined_len(rows: Seq<Seq<Seq<char>>>, k: int, n: int)
    requires
        0 <= k < rows.len(),
        0 < n <= rows[k].len(),
    ensures
        text::join(widened(rows, rows[k]).take(n), "  "@).len() + 2 == column_start(rows, n),
    decreases n,
{
    reveal_strlit("  ");
    lemma_width_covers(rows, k, n - 1);
    let parts = widened(rows, rows[k]).take(n);
    assert(parts.last().len() == column_width(rows, n - 1));
    if n > 1 {
        lemma_joined_len(rows, k, n - 1);
        assert(parts.drop_last() =~= widened(rows, rows[k]).take(n - 1));
    } else {
        assert(column_start(rows, 0) == 0);
    }
}

proof fn lemma_join_keeps(parts: Seq<Seq<char>>, sep: Seq<char>, n: int)
    requires
        0 <= n <= parts.len(),
    ensures
        text::join(parts.take(n), sep).is_prefix_of(text::join(parts, sep)),
    decreases parts.len(),
{
    if n == parts.len() {
        assert(parts.take(n) =~= parts);
    } else if n == 0 {
        assert(parts.take(0).len() == 0);
    } else {
        lemma_join_keeps(parts.drop_last(), sep, n);
        assert(parts.drop_last().take(n) =~= parts.take(n));
        let a = text::join(parts.take(n), sep);
        let b = text::join(parts.drop_last(), sep);
        assert(a =~= (b + sep + parts.last()).subrange(0, a.len() as int)) by {
            assert(a == b.subrange(0, a.len() as int));
        }
    }
}

/// Columns line up: in every row, the text of a column stands where the column
/// begins, whatever stands in the row's other cells.
pub proof fn law_columns_line_up(rows: Seq<Seq<Seq<char>>>, k: int, i: int)
    requires
        0 <= k < rows.len(),
        0 <= i < rows[k].len(),
    ensures
        ({
            let from = column_start(rows, i) as int;
            let cell = rows[k][i];
            &&& from + cell.len() <= laid_out(rows, rows[k]).len()
            &&& laid_out(rows, rows[k]).subrange(from, from + cell.len()) == cell
        }),
{
    reveal_strlit("  ");
    let sep = "  "@;
    let parts = widened(rows, rows[k]);
    let upto = parts.take(i + 1);
    let line = laid_out(rows, rows[k]);
    let cell = rows[k][i];
    lemma_join_keeps(parts, sep, i + 1);
    let head = text::join(upto, sep);
    assert(head == line.subrange(0, head.len() as int));
    let from = column_start(rows, i) as int;
    assert(upto.last() == text::padded(cell, column_width(rows, i)));
    if i > 0 {
        lemma_joined_len(rows, k, i);
        assert(upto.drop_last() =~= parts.take(i));
    }
    assert(head.subrange(from, from + cell.len()) =~= cell);
    assert(line.subrange(from, from + cell.len()) =~= head.subrange(from, from + cell.len()));
}

} // verus!
