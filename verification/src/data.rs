//! Reading CSV text into columns of values.
//!
//! The first line names the columns; each later line that is not blank is
//! a row, its fields separated by commas. Names and fields are trimmed of
//! white space. Every column is read as text here; whether a column is
//! numeric is decided by whoever converts the values.
use vstd::prelude::*;
use crate::error::GglangError;
use crate::text::{chars_of, decimal, decimal_string, split_chars, split_on, string_of, trim, trim_chars};

verus! {

/// A line without the carriage return that ends it, if any.
pub open spec fn strip_cr(l: Seq<char>) -> Seq<char> {
    if l.len() > 0 && l.last() == '\r' {
        l.drop_last()
    } else {
        l
    }
}

/// The lines of a text, as `str::lines` gives them: split at `\n`, each
/// line that a `\n` ends without its `\r`, and no empty last line after a
/// final line ending.
pub open spec fn spec_lines(s: Seq<char>) -> Seq<Seq<char>> {
    let p = split_on(s, '\n');
    let body = Seq::new((p.len() - 1) as nat, |i: int| strip_cr(p[i]));
    if p.last().len() == 0 {
        body
    } else {
        body.push(p.last())
    }
}

/// The fields of a line, trimmed.
pub open spec fn fields_of(line: Seq<char>) -> Seq<Seq<char>> {
    split_on(line, ',').map_values(|f: Seq<char>| trim(f))
}

/// The rows among the first `k` data lines: blank lines are skipped, and a
/// line with another number of fields than `ncols` is refused with its
/// row number in the file (the header being row 1) and its number of fields.
pub open spec fn csv_rows_upto(lines: Seq<Seq<char>>, ncols: nat, k: nat) -> Result<Seq<Seq<Seq<char>>>, (nat, nat)>
    decreases k,
{
    if k == 0 {
        Ok(seq![])
    } else {
        match csv_rows_upto(lines, ncols, (k - 1) as nat) {
            Err(e) => Err(e),
            Ok(rows) => {
                let line = lines[k - 1];
                if trim(line).len() == 0 {
                    Ok(rows)
                } else if split_on(line, ',').len() != ncols {
                    Err(((k + 1) as nat, split_on(line, ',').len()))
                } else {
                    Ok(rows.push(fields_of(line)))
                }
            },
        }
    }
}

/// The values of column `i` of the rows.
pub open spec fn column_of(rows: Seq<Seq<Seq<char>>>, i: int) -> Seq<Seq<char>> {
    Seq::new(rows.len(), |r: int| rows[r][i])
}

/// The message with which a row of the wrong width is refused.
pub open spec fn width_message(row: nat, found: nat, expected: nat) -> Seq<char> {
    "Row "@ + decimal(row) + " has "@ + decimal(found) + " columns, expected "@ + decimal(expected)
}

/// A CSV table: the column names, and each column's values as text.
pub struct CsvTable {
    pub columns: Vec<String>,
    pub values: Vec<Vec<String>>,
}

fn trimmed_fields(line: &Vec<char>) -> (r: Vec<String>)
    ensures
        r.deep_view() == fields_of(line@),
        r.len() == split_on(line@, ',').len(),
{
    let pieces = split_chars(line, ',');
    let ghost p = pieces.deep_view();
    let mut r: Vec<String> = Vec::new();
    let mut k: usize = 0;
    while k < pieces.len()
        invariant
            k <= pieces.len(),
            p == pieces.deep_view(),
            p == split_on(line@, ','),
            r.deep_view() == p.take(k as int).map_values(|f: Seq<char>| trim(f)),
        decreases pieces.len() - k,
    {
        let t = trim_chars(&pieces[k]);
        let s = string_of(&t);
        let ghost before = r.deep_view();
        r.push(s);
        assert(p[k as int] =~= pieces[k as int]@);
        assert(r.deep_view() =~= before.push(s@));
        assert(s@ == trim(p[k as int]));
        assert(p.take(k as int + 1).map_values(|f: Seq<char>| trim(f)) =~= p.take(k as int).map_values(|f: Seq<char>| trim(f)).push(trim(p[k as int])));
        assert(r.deep_view() =~= p.take(k as int + 1).map_values(|f: Seq<char>| trim(f)));
        k = k + 1;
    }
    assert(p.take(k as int) =~= p);
    r
}

fn lines_of(cs: &Vec<char>) -> (r: Vec<Vec<char>>)
    ensures
        r.deep_view() == spec_lines(cs@),
{
    let pieces = split_chars(cs, '\n');
    let ghost p = pieces.deep_view();
    let mut r: Vec<Vec<char>> = Vec::new();
    let mut k: usize = 0;
    while k + 1 < pieces.len()
        invariant
            k + 1 <= pieces.len(),
            p == pieces.deep_view(),
            p == split_on(cs@, '\n'),
            r.deep_view() == Seq::new(k as nat, |i: int| strip_cr(p[i])),
        decreases pieces.len() - k,
    {
        let piece = &pieces[k];
        assert(p[k as int] =~= piece@);
        let mut line: Vec<char> = Vec::new();
        let n = if piece.len() > 0 && piece[piece.len() - 1] == '\r' { piece.len() - 1 } else { piece.len() };
        let mut m: usize = 0;
        while m < n
            invariant
                m <= n <= piece.len(),
                line@ == piece@.take(m as int),
            decreases n - m,
        {
            line.push(piece[m]);
            assert(piece@.take(m as int + 1) =~= piece@.take(m as int).push(piece@[m as int]));
            m = m + 1;
        }
        assert(line@ =~= strip_cr(p[k as int]));
        let ghost before = r.deep_view();
        assert(line.deep_view() =~= line@);
        let ghost lv = line@;
        r.push(line);
        assert(r.deep_view() =~= before.push(lv));
        assert(r.deep_view() =~= Seq::new((k + 1) as nat, |i: int| strip_cr(p[i])));
        k = k + 1;
    }
    let last = &pieces[k];
    assert(p[k as int] =~= last@);
    if last.len() > 0 {
        let mut copy: Vec<char> = Vec::new();
        let mut m: usize = 0;
        while m < last.len()
            invariant
                m <= last.len(),
                copy@ == last@.take(m as int),
            decreases last.len() - m,
        {
            copy.push(last[m]);
            assert(last@.take(m as int + 1) =~= last@.take(m as int).push(last@[m as int]));
            m = m + 1;
        }
        assert(copy@ =~= last@);
        let ghost before = r.deep_view();
        assert(copy.deep_view() =~= copy@);
        r.push(copy);
        assert(r.deep_view() =~= before.push(p.last()));
    }
    r
}

} // verus!

verus! {

proof fn lemma_csv_error_stays(lines: Seq<Seq<char>>, ncols: nat, m: nat, n: nat)
    requires
        m <= n,
        csv_rows_upto(lines, ncols, m) is Err,
    ensures
        csv_rows_upto(lines, ncols, n) == csv_rows_upto(lines, ncols, m),
    decreases n - m,
{
    if m < n {
        lemma_csv_error_stays(lines, ncols, m, (n - 1) as nat);
    }
}

proof fn lemma_csv_rows_width(lines: Seq<Seq<char>>, ncols: nat, k: nat)
    requires
        csv_rows_upto(lines, ncols, k) is Ok,
    ensures
        forall|r: int| 0 <= r < csv_rows_upto(lines, ncols, k)->Ok_0.len() ==> (#[trigger] csv_rows_upto(lines, ncols, k)->Ok_0[r]).len() == ncols,
    decreases k,
{
    if k > 0 {
        lemma_csv_rows_width(lines, ncols, (k - 1) as nat);
    }
}

fn width_error(row: usize, found: usize, expected: usize) -> (e: GglangError)
    ensures
        e is Data,
        crate::error::error_message(e) == width_message(row as nat, found as nat, expected as nat),
{
    let mut m = "Row ".to_owned();
    m.append(decimal_string(row).as_str());
    m.append(" has ");
    m.append(decimal_string(found).as_str());
    m.append(" columns, expected ");
    m.append(decimal_string(expected).as_str());
    GglangError::Data { message: m }
}

/// Reads CSV text (see the module's documentation). A text without lines,
/// or a row with another number of fields than the header has, is a data
/// error.
pub fn parse_csv(content: &str) -> (r: Result<CsvTable, GglangError>)
    ensures
        ({
            let ls = spec_lines(content@);
            if ls.len() == 0 {
                r matches Err(e) && e is Data && crate::error::error_message(e) == "CSV file is empty"@
            } else {
                let cols = fields_of(ls[0]);
                match csv_rows_upto(ls.drop_first(), cols.len(), (ls.len() - 1) as nat) {
                    Err((row, found)) => r matches Err(e) && e is Data
                        && crate::error::error_message(e) == width_message(row, found, cols.len()),
                    Ok(rows) => r matches Ok(t) && t.columns.deep_view() == cols && t.values.len() == cols.len()
                        && forall|i: int| 0 <= i < cols.len() ==> #[trigger] t.values.deep_view()[i] == column_of(rows, i),
                }
            }
        }),
{
    let cs = chars_of(content);
    let lines = lines_of(&cs);
    let ghost ls = spec_lines(content@);
    if lines.len() == 0 {
        return Err(GglangError::Data { message: "CSV file is empty".to_owned() });
    }
    assert(ls[0] =~= lines[0]@);
    let columns = trimmed_fields(&lines[0]);
    let ncols = columns.len();
    let ghost dl = ls.drop_first();
    let mut rows: Vec<Vec<String>> = Vec::new();
    let mut k: usize = 1;
    assert(rows.deep_view() =~= Seq::<Seq<Seq<char>>>::empty());
    while k < lines.len()
        invariant
            1 <= k <= lines.len(),
            ls == lines.deep_view(),
            ls == spec_lines(content@),
            dl == ls.drop_first(),
            ncols == columns.len(),
            columns.deep_view() == fields_of(ls[0]),
            csv_rows_upto(dl, ncols as nat, (k - 1) as nat) == Ok::<Seq<Seq<Seq<char>>>, (nat, nat)>(rows.deep_view()),
        decreases lines.len() - k,
    {
        let line = &lines[k];
        assert(dl[k as int - 1] =~= line@);
        let t = trim_chars(line);
        if t.len() > 0 {
            let fields = trimmed_fields(line);
            if fields.len() != ncols {
                proof {
                    assert(t@ == trim(dl[k as int - 1]));
                    assert(csv_rows_upto(dl, ncols as nat, k as nat)
                        == Err::<Seq<Seq<Seq<char>>>, (nat, nat)>(((k + 1) as nat, fields.len() as nat)));
                    lemma_csv_error_stays(dl, ncols as nat, k as nat, (ls.len() - 1) as nat);
                    assert(fields_of(ls[0]).len() == ncols);
                }
                return Err(width_error(k + 1, fields.len(), ncols));
            }
            let ghost before = rows.deep_view();
            let ghost fv = fields.deep_view();
            rows.push(fields);
            assert(rows.deep_view() =~= before.push(fv));
        }
        k = k + 1;
    }
    let ghost all_rows = rows.deep_view();
    proof {
        lemma_csv_rows_width(dl, ncols as nat, (k - 1) as nat);
        assert(csv_rows_upto(dl, ncols as nat, (k - 1) as nat)->Ok_0 == all_rows);
    }
    let mut values: Vec<Vec<String>> = Vec::new();
    let mut i: usize = 0;
    while i < ncols
        invariant
            i <= ncols,
            all_rows == rows.deep_view(),
            forall|r: int| 0 <= r < all_rows.len() ==> (#[trigger] all_rows[r]).len() == ncols,
            values.len() == i,
            forall|j: int| 0 <= j < i ==> #[trigger] values.deep_view()[j] == column_of(all_rows, j),
        decreases ncols - i,
    {
        let mut col: Vec<String> = Vec::new();
        let mut r: usize = 0;
        while r < rows.len()
            invariant
                r <= rows.len(),
                i < ncols,
                all_rows == rows.deep_view(),
                forall|q: int| 0 <= q < all_rows.len() ==> (#[trigger] all_rows[q]).len() == ncols,
                col.deep_view() == column_of(all_rows, i as int).take(r as int),
            decreases rows.len() - r,
        {
            assert(all_rows[r as int] == rows[r as int].deep_view());
            assert(rows[r as int].len() == ncols);
            let v = rows[r][i].clone();
            let ghost before = col.deep_view();
            col.push(v);
            assert(col.deep_view() =~= before.push(v@));
            assert(column_of(all_rows, i as int).take(r as int + 1) =~= column_of(all_rows, i as int).take(r as int).push(all_rows[r as int][i as int]));
            r = r + 1;
        }
        assert(column_of(all_rows, i as int).take(r as int) =~= column_of(all_rows, i as int));
        let ghost before = values.deep_view();
        let ghost cv = col.deep_view();
        values.push(col);
        assert(values.deep_view() =~= before.push(cv));
        i = i + 1;
    }
    Ok(CsvTable { columns, values })
}

} // verus!
