//! Rendering of query answers as aligned text tables.
use vstd::prelude::*;
use vstd::string::*;
use vstd::utf8::*;
use crate::executor::QueryResult;
use crate::text::{decimal, push_decimal};
use crate::executor::rows_view;
use crate::types::{Datum, Value, column_names, row_view};

verus! {

/// The text of a value in a table cell.
pub open spec fn cell_text(v: Datum) -> Seq<char> {
    match v {
        Datum::Integer(i) => if i < 0 {
            "-"@ + decimal((-i) as nat)
        } else {
            decimal(i as nat)
        },
        Datum::Varchar(s) => s,
        Datum::Boolean(b) => if b {
            "true"@
        } else {
            "false"@
        },
        Datum::Null => "NULL"@,
    }
}

/// The text of a value as it appears in messages: strings in single
/// quotes, Null as `NULL`.
pub open spec fn value_text(v: Datum) -> Seq<char> {
    match v {
        Datum::Varchar(s) => "'"@ + s + "'"@,
        _ => cell_text(v),
    }
}

/// Width of a text, in UTF-8 bytes.
pub open spec fn width(s: Seq<char>) -> int {
    encode_utf8(s).len() as int
}

/// `n` copies of `c`.
pub open spec fn repeat(c: char, n: int) -> Seq<char> {
    Seq::new(if n > 0 { n as nat } else { 0 }, |i: int| c)
}

/// `s` padded with spaces on the right to width `w`.
pub open spec fn pad(s: Seq<char>, w: int) -> Seq<char> {
    s + repeat(' ', w - width(s))
}

/// The parts joined with `sep` between consecutive ones.
pub open spec fn joined(parts: Seq<Seq<char>>, sep: Seq<char>) -> Seq<char>
    decreases parts.len(),
{
    if parts.len() == 0 {
        Seq::empty()
    } else if parts.len() == 1 {
        parts[0]
    } else {
        joined(parts.drop_last(), sep) + sep + parts.last()
    }
}

/// The width of column `i`: its name's, or a wider cell's among the first
/// `k` rows.
pub open spec fn column_width(names: Seq<Seq<char>>, rows: Seq<Seq<Datum>>, i: int, k: int) -> int
    decreases k,
{
    if k <= 0 {
        width(names[i])
    } else {
        let w = column_width(names, rows, i, k - 1);
        let r = rows[k - 1];
        if i < r.len() && width(cell_text(r[i])) > w {
            width(cell_text(r[i]))
        } else {
            w
        }
    }
}

pub open spec fn widths(names: Seq<Seq<char>>, rows: Seq<Seq<Datum>>) -> Seq<int> {
    Seq::new(names.len(), |i: int| column_width(names, rows, i, rows.len() as int))
}

/// A line of cells, each padded to its column's width; cells beyond the
/// columns are left out.
pub open spec fn row_line(cells: Seq<Seq<char>>, ws: Seq<int>) -> Seq<char> {
    let n = if cells.len() < ws.len() { cells.len() } else { ws.len() };
    joined(Seq::new(n, |j: int| pad(cells[j], ws[j])), " | "@)
}

pub open spec fn separator_line(ws: Seq<int>) -> Seq<char> {
    joined(Seq::new(ws.len(), |j: int| repeat('-', ws[j])), "-|-"@)
}

/// The lines that show a result: `(no rows)` when it is empty; otherwise
/// the padded column names, a rule of dashes, one line per row, an empty
/// line and the row count in parentheses.
pub open spec fn result_lines(names: Seq<Seq<char>>, rows: Seq<Seq<Datum>>) -> Seq<Seq<char>> {
    if rows.len() == 0 {
        seq!["(no rows)"@]
    } else {
        let ws = widths(names, rows);
        seq![row_line(names, ws), separator_line(ws)] + Seq::new(
            rows.len(),
            |k: int| row_line(Seq::new(rows[k].len(), |j: int| cell_text(rows[k][j])), ws),
        ) + seq![Seq::empty(), "("@ + decimal(rows.len()) + " rows)"@]
    }
}

/// The text of a value in a table cell.
pub fn cell_string(v: &Value) -> (r: String)
    ensures
        r@ == cell_text(v@),
{
    match v {
        Value::Integer(i) => {
            let mut out = String::new();
            if *i < 0 {
                out.append("-");
                push_decimal(&mut out, (-(*i as i64)) as u64);
            } else {
                push_decimal(&mut out, *i as u64);
            }
            proof {
                reveal_strlit("-");
            }
            out
        },
        Value::Varchar(s) => s.clone(),
        Value::Boolean(b) => if *b {
            String::from_str("true")
        } else {
            String::from_str("false")
        },
        Value::Null => String::from_str("NULL"),
    }
}

/// The text of a value as it appears in messages.
pub fn value_string(v: &Value) -> (r: String)
    ensures
        r@ == value_text(v@),
{
    match v {
        Value::Varchar(s) => {
            let mut out = String::from_str("'");
            out.append(s.as_str());
            out.append("'");
            out
        },
        _ => cell_string(v),
    }
}

fn text_width(s: &String) -> (r: usize)
    ensures
        r == width(s@),
{
    s.as_str().as_bytes().len()
}

/// Appends `c` `n` times.
fn append_repeated(out: &mut String, c: &str, n: usize)
    requires
        c@.len() == 1,
    ensures
        final(out)@ == old(out)@ + repeat(c@[0], n as int),
{
    let mut k: usize = 0;
    while k < n
        invariant
            c@.len() == 1,
            k <= n,
            out@ == old(out)@ + repeat(c@[0], k as int),
        decreases n - k,
    {
        out.append(c);
        k += 1;
        assert(out@ =~= old(out)@ + repeat(c@[0], k as int));
    }
}

/// Appends `s` padded with spaces to width `w`.
fn append_padded(out: &mut String, s: &String, w: usize)
    ensures
        final(out)@ == old(out)@ + pad(s@, w as int),
{
    out.append(s.as_str());
    let n = text_width(s);
    proof {
        reveal_strlit(" ");
    }
    if n < w {
        append_repeated(out, " ", w - n);
    } else {
        append_repeated(out, " ", 0);
    }
    assert(final(out)@ =~= old(out)@ + pad(s@, w as int)) by {
        assert(repeat(' ', w - width(s@)) =~= repeat(' ', if n < w { (w - n) as int } else { 0 }));
    }
}

/// One more part extends a join by the separator and the part.
proof fn lemma_joined_step(parts: Seq<Seq<char>>, sep: Seq<char>, j: int)
    requires
        0 <= j < parts.len(),
    ensures
        joined(parts.subrange(0, j + 1), sep) == if j == 0 {
            parts[0]
        } else {
            joined(parts.subrange(0, j), sep) + sep + parts[j]
        },
{
    let next = parts.subrange(0, j + 1);
    assert(next.drop_last() =~= parts.subrange(0, j));
}

/// The line of `cells`, each padded to the width of its column.
fn line_of(cells: &Vec<String>, ws: &Vec<usize>) -> (r: String)
    ensures
        r@ == row_line(cells@.map_values(|s: String| s@), ws@.map_values(|w: usize| w as int)),
{
    let ghost texts = cells@.map_values(|s: String| s@);
    let ghost wsi = ws@.map_values(|w: usize| w as int);
    let n = if cells.len() < ws.len() {
        cells.len()
    } else {
        ws.len()
    };
    let ghost parts = Seq::new(n as nat, |j: int| pad(texts[j], wsi[j]));
    let mut out = String::new();
    let mut j: usize = 0;
    assert(parts.subrange(0, 0) =~= Seq::<Seq<char>>::empty());
    while j < n
        invariant
            n <= cells@.len(),
            n <= ws@.len(),
            texts == cells@.map_values(|s: String| s@),
            wsi == ws@.map_values(|w: usize| w as int),
            parts == Seq::new(n as nat, |j: int| pad(texts[j], wsi[j])),
            j <= n,
            out@ == joined(parts.subrange(0, j as int), " | "@),
        decreases n - j,
    {
        proof {
            lemma_joined_step(parts, " | "@, j as int);
            reveal_strlit(" | ");
        }
        if j > 0 {
            out.append(" | ");
        }
        append_padded(&mut out, &cells[j], ws[j]);
        j += 1;
    }
    assert(parts.subrange(0, n as int) =~= parts);
    out
}

/// The rule of dashes under the column names.
fn separator_of(ws: &Vec<usize>) -> (r: String)
    ensures
        r@ == separator_line(ws@.map_values(|w: usize| w as int)),
{
    let ghost wsi = ws@.map_values(|w: usize| w as int);
    let ghost parts = Seq::new(wsi.len(), |j: int| repeat('-', wsi[j]));
    let mut out = String::new();
    let mut j: usize = 0;
    assert(parts.subrange(0, 0) =~= Seq::<Seq<char>>::empty());
    while j < ws.len()
        invariant
            wsi == ws@.map_values(|w: usize| w as int),
            parts == Seq::new(wsi.len(), |j: int| repeat('-', wsi[j])),
            j <= ws@.len(),
            out@ == joined(parts.subrange(0, j as int), "-|-"@),
        decreases ws@.len() - j,
    {
        proof {
            lemma_joined_step(parts, "-|-"@, j as int);
            reveal_strlit("-|-");
            reveal_strlit("-");
        }
        if j > 0 {
            out.append("-|-");
        }
        append_repeated(&mut out, "-", ws[j]);
        j += 1;
    }
    assert(parts.subrange(0, ws@.len() as int) =~= parts);
    out
}

/// The lines that show a query's answer as a table.
pub fn render_result(result: &QueryResult) -> (r: Vec<String>)
    ensures
        r@.map_values(|s: String| s@) == result_lines(
            column_names(result.schema.columns@),
            rows_view(result.rows@),
        ),
{
    let ghost names = column_names(result.schema.columns@);
    let ghost rows = rows_view(result.rows@);
    let mut lines: Vec<String> = Vec::new();
    if result.rows.len() == 0 {
        lines.push(String::from_str("(no rows)"));
        assert(lines@.map_values(|s: String| s@) =~= result_lines(names, rows));
        return lines;
    }
    let ncols = result.schema.columns.len();
    let mut headers: Vec<String> = Vec::new();
    let mut i: usize = 0;
    while i < ncols
        invariant
            ncols == result.schema.columns@.len(),
            names == column_names(result.schema.columns@),
            i <= ncols,
            headers@.map_values(|s: String| s@) == names.subrange(0, i as int),
        decreases ncols - i,
    {
        let h = result.schema.columns[i].name.clone();
        let ghost prev = headers@;
        headers.push(h);
        assert(headers@.map_values(|s: String| s@) =~= prev.map_values(|s: String| s@).push(h@));
        assert(names.subrange(0, i + 1) =~= names.subrange(0, i as int).push(names[i as int]));
        i += 1;
    }
    assert(names.subrange(0, ncols as int) =~= names);
    let mut cells: Vec<Vec<String>> = Vec::new();
    let mut k: usize = 0;
    while k < result.rows.len()
        invariant
            rows == rows_view(result.rows@),
            k <= result.rows@.len(),
            cells@.len() == k,
            forall|a: int|
                0 <= a < k ==> (#[trigger] cells@[a])@.map_values(|s: String| s@) == Seq::new(
                    rows[a].len(),
                    |j: int| cell_text(rows[a][j]),
                ),
        decreases result.rows@.len() - k,
    {
        let row = &result.rows[k];
        assert(rows[k as int] == row_view(row@));
        let mut texts: Vec<String> = Vec::new();
        let mut j: usize = 0;
        while j < row.len()
            invariant
                rows == rows_view(result.rows@),
                k < result.rows@.len(),
                *row == result.rows@[k as int],
                rows[k as int].len() == row@.len(),
                j <= row@.len(),
                texts@.map_values(|s: String| s@) == Seq::new(j as nat, |c: int| cell_text(rows[k as int][c])),
            decreases row@.len() - j,
        {
            let c = cell_string(&row[j]);
            let ghost prev = texts@;
            texts.push(c);
            assert(rows[k as int] == row_view(row@));
            assert(rows[k as int][j as int] == row@[j as int]@);
            assert(texts@.map_values(|s: String| s@) =~= prev.map_values(|s: String| s@).push(c@));
            j += 1;
            assert(texts@.map_values(|s: String| s@) =~= Seq::new(j as nat, |c: int| cell_text(rows[k as int][c])));
        }
        assert(Seq::new(j as nat, |c: int| cell_text(rows[k as int][c])) =~= Seq::new(
            rows[k as int].len(),
            |c: int| cell_text(rows[k as int][c]),
        ));
        let ghost prev_cells = cells@;
        cells.push(texts);
        assert forall|a: int| 0 <= a < k + 1 implies (#[trigger] cells@[a])@.map_values(|s: String| s@) == Seq::new(
            rows[a].len(),
            |j: int| cell_text(rows[a][j]),
        ) by {
            if a < k {
                assert(cells@[a] == prev_cells[a]);
            }
        }
        k += 1;
    }
    let mut ws: Vec<usize> = Vec::new();
    let mut i: usize = 0;
    while i < ncols
        invariant
            ncols == names.len(),
            headers@.map_values(|s: String| s@) == names,
            rows == rows_view(result.rows@),
            cells@.len() == rows.len(),
            forall|a: int|
                0 <= a < rows.len() ==> (#[trigger] cells@[a])@.map_values(|s: String| s@) == Seq::new(
                    rows[a].len(),
                    |j: int| cell_text(rows[a][j]),
                ),
            i <= ncols,
            ws@.map_values(|w: usize| w as int) == widths(names, rows).subrange(0, i as int),
        decreases ncols - i,
    {
        let mut w = text_width(&headers[i]);
        assert(headers@.map_values(|s: String| s@)[i as int] == names[i as int]);
        let mut k: usize = 0;
        while k < cells.len()
            invariant
                i < ncols == names.len(),
                rows == rows_view(result.rows@),
                cells@.len() == rows.len(),
                forall|a: int|
                    0 <= a < rows.len() ==> (#[trigger] cells@[a])@.map_values(|s: String| s@) == Seq::new(
                        rows[a].len(),
                        |j: int| cell_text(rows[a][j]),
                    ),
                k <= cells@.len(),
                w == column_width(names, rows, i as int, k as int),
            decreases cells@.len() - k,
        {
            if i < cells[k].len() {
                assert(cells@[k as int]@.map_values(|s: String| s@)[i as int] == cell_text(rows[k as int][i as int]));
                let cw = text_width(&cells[k][i]);
                if cw > w {
                    w = cw;
                }
            }
            k += 1;
        }
        let ghost prev = ws@;
        ws.push(w);
        assert(ws@.map_values(|w: usize| w as int) =~= prev.map_values(|w: usize| w as int).push(w as int));
        assert(widths(names, rows).subrange(0, i + 1) =~= widths(names, rows).subrange(0, i as int).push(
            widths(names, rows)[i as int],
        ));
        i += 1;
    }
    let ghost wsi = ws@.map_values(|w: usize| w as int);
    assert(wsi =~= widths(names, rows));
    lines.push(line_of(&headers, &ws));
    lines.push(separator_of(&ws));
    let mut k: usize = 0;
    while k < cells.len()
        invariant
            wsi == ws@.map_values(|w: usize| w as int),
            wsi == widths(names, rows),
            cells@.len() == rows.len(),
            forall|a: int|
                0 <= a < rows.len() ==> (#[trigger] cells@[a])@.map_values(|s: String| s@) == Seq::new(
                    rows[a].len(),
                    |j: int| cell_text(rows[a][j]),
                ),
            k <= cells@.len(),
            lines@.len() == k + 2,
            lines@[0]@ == row_line(names, wsi),
            lines@[1]@ == separator_line(wsi),
            forall|a: int|
                0 <= a < k ==> (#[trigger] lines@[a + 2])@ == row_line(
                    Seq::new(rows[a].len(), |j: int| cell_text(rows[a][j])),
                    wsi,
                ),
        decreases cells@.len() - k,
    {
        let line = line_of(&cells[k], &ws);
        let ghost prev = lines@;
        lines.push(line);
        assert forall|a: int| 0 <= a < k + 1 implies (#[trigger] lines@[a + 2])@ == row_line(
            Seq::new(rows[a].len(), |j: int| cell_text(rows[a][j])),
            wsi,
        ) by {
            if a < k {
                assert(lines@[a + 2] == prev[a + 2]);
            }
        }
        k += 1;
    }
    lines.push(String::new());
    let mut count = String::from_str("(");
    push_decimal(&mut count, result.rows.len() as u64);
    count.append(" rows)");
    lines.push(count);
    proof {
        reveal_strlit("(");
        reveal_strlit(" rows)");
        let expected = result_lines(names, rows);
        let got = lines@.map_values(|s: String| s@);
        assert(got.len() == expected.len());
        assert forall|a: int| 0 <= a < got.len() implies got[a] == expected[a] by {
            if 2 <= a < rows.len() + 2 {
                assert(lines@[(a - 2) + 2]@ == row_line(
                    Seq::new(rows[a - 2].len(), |j: int| cell_text(rows[a - 2][j])),
                    wsi,
                ));
            }
        }
        assert(got =~= expected);
    }
    lines
}

} // verus!
