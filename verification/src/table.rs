//! The three-column tables (name, description, location) that list commands print.
use vstd::prelude::*;
use crate::text::{byte_len, byte_len_of, pad_right, push_padded, push_line, push_str, repeat, repeat_char, unlines};

verus! {

/// The characters of each field of each row.
pub open spec fn rows_view(rows: Seq<(String, String, String)>) -> Seq<(Seq<char>, Seq<char>, Seq<char>)> {
    rows.map_values(|r: (String, String, String)| (r.0@, r.1@, r.2@))
}

/// The width of a column: the longest byte length among `col`, and at least `min`.
pub open spec fn column_width(col: Seq<Seq<char>>, min: nat) -> nat
    decreases col.len(),
{
    if col.len() == 0 {
        min
    } else {
        let w = column_width(col.drop_last(), min);
        let b = byte_len(col.last()) as nat;
        if b > w {
            b
        } else {
            w
        }
    }
}

/// The first, second and third fields of the rows.
pub open spec fn firsts(rows: Seq<(Seq<char>, Seq<char>, Seq<char>)>) -> Seq<Seq<char>> {
    rows.map_values(|r: (Seq<char>, Seq<char>, Seq<char>)| r.0)
}

pub open spec fn seconds(rows: Seq<(Seq<char>, Seq<char>, Seq<char>)>) -> Seq<Seq<char>> {
    rows.map_values(|r: (Seq<char>, Seq<char>, Seq<char>)| r.1)
}

pub open spec fn thirds(rows: Seq<(Seq<char>, Seq<char>, Seq<char>)>) -> Seq<Seq<char>> {
    rows.map_values(|r: (Seq<char>, Seq<char>, Seq<char>)| r.2)
}

/// One line of the table: the first two cells padded to their widths, two
/// spaces between cells.
pub open spec fn table_row(a: Seq<char>, b: Seq<char>, c: Seq<char>, wa: nat, wb: nat) -> Seq<char> {
    pad_right(a, wa) + "  "@ + pad_right(b, wb) + "  "@ + c
}

/// The lines of the table: header, dashes under each column, then one line per row.
pub open spec fn table_lines(rows: Seq<(Seq<char>, Seq<char>, Seq<char>)>) -> Seq<Seq<char>> {
    let wa = column_width(firsts(rows), 4);
    let wb = column_width(seconds(rows), 11);
    let wc = column_width(thirds(rows), 3);
    seq![
        table_row("Name"@, "Description"@, pad_right("URL"@, wc), wa, wb),
        table_row(repeat_char('-', wa), repeat_char('-', wb), repeat_char('-', wc), wa, wb),
    ] + Seq::new(rows.len(), |i: int| table_row(rows[i].0, rows[i].1, rows[i].2, wa, wb))
}

fn width_of(rows: &Vec<(String, String, String)>, which: usize, min: usize) -> (w: usize)
    requires
        which < 3,
    ensures
        w as nat == column_width(
            if which == 0 {
                firsts(rows_view(rows@))
            } else if which == 1 {
                seconds(rows_view(rows@))
            } else {
                thirds(rows_view(rows@))
            },
            min as nat,
        ),
{
    let ghost col = if which == 0 {
        firsts(rows_view(rows@))
    } else if which == 1 {
        seconds(rows_view(rows@))
    } else {
        thirds(rows_view(rows@))
    };
    let mut w = min;
    let mut i: usize = 0;
    while i < rows.len()
        invariant
            i <= rows@.len(),
            col.len() == rows@.len(),
            which < 3,
            col == (if which == 0 {
                firsts(rows_view(rows@))
            } else if which == 1 {
                seconds(rows_view(rows@))
            } else {
                thirds(rows_view(rows@))
            }),
            w as nat == column_width(col.take(i as int), min as nat),
        decreases rows.len() - i,
    {
        let cell = if which == 0 {
            &rows[i].0
        } else if which == 1 {
            &rows[i].1
        } else {
            &rows[i].2
        };
        assert(cell@ == col[i as int]);
        let b = byte_len_of(cell.as_str());
        assert(col.take(i + 1).drop_last() =~= col.take(i as int));
        if b > w {
            w = b;
        }
        i = i + 1;
    }
    assert(col.take(rows@.len() as int) =~= col);
    w
}

fn push_row(out: &mut String, a: &str, b: &str, c: &str, wa: usize, wb: usize)
    ensures
        final(out)@ == old(out)@ + table_row(a@, b@, c@, wa as nat, wb as nat) + "\n"@,
{
    push_padded(out, a, wa);
    push_str(out, "  ");
    push_padded(out, b, wb);
    push_str(out, "  ");
    push_line(out, c);
}

/// The table listing `rows`, each line ending in a newline.
pub fn table_text(rows: &Vec<(String, String, String)>) -> (r: String)
    ensures
        r@ == unlines(table_lines(rows_view(rows@))),
{
    let ghost rv = rows_view(rows@);
    let wa = width_of(rows, 0, 4);
    let wb = width_of(rows, 1, 11);
    let wc = width_of(rows, 2, 3);
    let ghost lines = table_lines(rv);
    let mut out = String::new();
    let mut url = String::new();
    push_padded(&mut url, "URL", wc);
    push_row(&mut out, "Name", "Description", url.as_str(), wa, wb);
    let da = repeat('-', wa);
    let db = repeat('-', wb);
    let dc = repeat('-', wc);
    push_row(&mut out, da.as_str(), db.as_str(), dc.as_str(), wa, wb);
    proof {
        assert(pad_right(repeat_char('-', wa as nat), wa as nat) == repeat_char('-', wa as nat));
        assert(lines.take(2).drop_last() =~= lines.take(1));
        assert(lines.take(1).drop_last() =~= lines.take(0));
        assert(unlines(lines.take(0)) =~= Seq::<char>::empty());
        assert(unlines(lines.take(1)) =~= lines[0] + "\n"@);
        assert(unlines(lines.take(2)) =~= lines[0] + "\n"@ + lines[1] + "\n"@);
        assert(out@ =~= unlines(lines.take(2)));
    }
    let mut i: usize = 0;
    while i < rows.len()
        invariant
            i <= rows@.len(),
            rv == rows_view(rows@),
            lines == table_lines(rv),
            lines.len() == rows@.len() + 2,
            wa as nat == column_width(firsts(rv), 4),
            wb as nat == column_width(seconds(rv), 11),
            out@ == unlines(lines.take(i + 2)),
        decreases rows.len() - i,
    {
        let ghost before = out@;
        push_row(&mut out, rows[i].0.as_str(), rows[i].1.as_str(), rows[i].2.as_str(), wa, wb);
        proof {
            assert(lines.take(i + 3).drop_last() =~= lines.take(i + 2));
            assert(lines.take(i + 3).last() == lines[i + 2]);
            assert(rv[i as int] == (rows@[i as int].0@, rows@[i as int].1@, rows@[i as int].2@));
        }
        i = i + 1;
    }
    assert(lines.take(rows@.len() + 2int) =~= lines);
    out
}

} // verus!
