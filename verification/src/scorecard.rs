//! The batting and bowling scorecards of a match page, as CSV files.

use vstd::prelude::*;
use crate::html::{spec_table_cells, table_cells};
use crate::text::{decimal_spec, decimal_string, string_of_str};

verus! {

/// A CSV file to write: its file name and its records, in order.
pub struct CsvFile {
    pub name: String,
    pub records: Vec<Vec<String>>,
}

impl View for CsvFile {
    type V = (Seq<char>, Seq<Seq<Seq<char>>>);

    open spec fn view(&self) -> (Seq<char>, Seq<Seq<Seq<char>>>) {
        (self.name@, self.records.deep_view())
    }
}

impl DeepView for CsvFile {
    type V = (Seq<char>, Seq<Seq<Seq<char>>>);

    open spec fn deep_view(&self) -> (Seq<char>, Seq<Seq<Seq<char>>>) {
        self@
    }
}

/// The rows of `rows` that have exactly `width` cells, in order.
pub open spec fn rows_of_width(rows: Seq<Seq<Seq<char>>>, width: nat) -> Seq<Seq<Seq<char>>>
    decreases rows.len(),
{
    if rows.len() == 0 {
        Seq::<Seq<Seq<char>>>::empty()
    } else {
        let prev = rows_of_width(rows.drop_last(), width);
        if rows.last().len() == width {
            prev.push(rows.last())
        } else {
            prev
        }
    }
}

/// The name of the `n`-th file of a kind: the prefix, `n` in decimal, `.csv`.
pub open spec fn numbered_name(prefix: Seq<char>, n: nat) -> Seq<char> {
    prefix + decimal_spec(n) + ".csv"@
}

/// The column names of a batting scorecard.
pub open spec fn batting_header() -> Seq<Seq<char>> {
    seq!["Player"@, "Dismissal"@, "R"@, "B"@, "M"@, "4s"@, "6s"@, "SR"@]
}

/// The column names of a bowling scorecard.
pub open spec fn bowling_header() -> Seq<Seq<char>> {
    seq!["Bowler_name"@, "O"@, "M"@, "R"@, "W"@, "ECON"@, "0s"@, "4s"@, "6s"@, "WD"@, "NB"@]
}

/// One batting file per scorecard table, numbered from 1 in page order: the
/// header, then the table's rows of eight cells.
pub open spec fn batting_files_spec(tables: Seq<Seq<Seq<Seq<char>>>>) -> Seq<
    (Seq<char>, Seq<Seq<Seq<char>>>),
> {
    Seq::new(
        tables.len(),
        |k: int|
            (
                numbered_name("batting_scorecard"@, (k + 1) as nat),
                seq![batting_header()] + rows_of_width(tables[k], 8),
            ),
    )
}

/// The bowling files of the scorecard tables, numbered by the table's place in
/// the page (from 1): the header, then the table's rows of eleven cells. A
/// table without such a row gives no file.
pub open spec fn bowling_files_spec(tables: Seq<Seq<Seq<Seq<char>>>>) -> Seq<
    (Seq<char>, Seq<Seq<Seq<char>>>),
>
    decreases tables.len(),
{
    if tables.len() == 0 {
        Seq::<(Seq<char>, Seq<Seq<Seq<char>>>)>::empty()
    } else {
        let prev = bowling_files_spec(tables.drop_last());
        let rows = rows_of_width(tables.last(), 11);
        if rows.len() > 0 {
            prev.push(
                (
                    numbered_name("bowling_scorecard"@, tables.len() as nat),
                    seq![bowling_header()] + rows,
                ),
            )
        } else {
            prev
        }
    }
}

/// The records made of `header` followed by the rows of `rows` that have
/// exactly `width` cells.
fn records_of_width(header: Vec<String>, rows: &Vec<Vec<String>>, width: usize) -> (res: Vec<
    Vec<String>,
>)
    ensures
        res.deep_view() == seq![header.deep_view()] + rows_of_width(rows.deep_view(), width as nat),
{
    let ghost hv = header.deep_view();
    let ghost rs = rows.deep_view();
    let mut out: Vec<Vec<String>> = Vec::new();
    out.push(header);
    assert(out.deep_view() =~= seq![hv]);
    let mut i: usize = 0;
    while i < rows.len()
        invariant
            i <= rows.len(),
            rs == rows.deep_view(),
            out.deep_view() == seq![hv] + rows_of_width(rs.take(i as int), width as nat),
        decreases rows.len() - i,
    {
        assert(rs.take(i + 1).drop_last() =~= rs.take(i as int));
        assert(rs.take(i + 1).last() == rs[i as int]);
        assert(rs[i as int].len() == rows@[i as int]@.len());
        if rows[i].len() == width {
            let ghost before = out.deep_view();
            out.push(clone_row(&rows[i]));
            assert(out.deep_view() =~= before.push(rs[i as int]));
        }
        i = i + 1;
    }
    assert(rs.take(i as int) =~= rs);
    out
}

/// A copy of a row of cells.
fn clone_row(row: &Vec<String>) -> (res: Vec<String>)
    ensures
        res.deep_view() == row.deep_view(),
{
    let mut out: Vec<String> = Vec::new();
    let mut i: usize = 0;
    while i < row.len()
        invariant
            i <= row.len(),
            out.deep_view() == row.deep_view().take(i as int),
        decreases row.len() - i,
    {
        let ghost before = out.deep_view();
        out.push(row[i].clone());
        assert(out.deep_view() =~= before.push(row@[i as int]@));
        assert(row.deep_view().take(i + 1) =~= row.deep_view().take(i as int).push(row@[i as int]@));
        i = i + 1;
    }
    assert(row.deep_view().take(i as int) =~= row.deep_view());
    out
}

/// The `n`-th file name of a kind: the prefix, `n` in decimal, `.csv`.
fn numbered_file_name(prefix: &str, n: u64) -> (res: String)
    ensures
        res@ == numbered_name(prefix@, n as nat),
{
    let mut name = string_of_str(prefix);
    let digits = decimal_string(n);
    name.append(digits.as_str());
    name.append(".csv");
    name
}

/// A header row made of the given column names.
fn header_row(names: &[&str]) -> (res: Vec<String>)
    ensures
        res@.len() == names@.len(),
        forall|k: int| 0 <= k < names@.len() ==> #[trigger] res@[k]@ == names@[k]@,
{
    let mut out: Vec<String> = Vec::new();
    let mut i: usize = 0;
    while i < names.len()
        invariant
            i <= names.len(),
            out@.len() == i,
            forall|k: int| 0 <= k < i ==> #[trigger] out@[k]@ == names@[k]@,
        decreases names.len() - i,
    {
        out.push(string_of_str(names[i]));
        i = i + 1;
    }
    out
}

/// The column names of a batting scorecard.
fn batting_header_row() -> (res: Vec<String>)
    ensures
        res.deep_view() == batting_header(),
{
    let res = header_row(&["Player", "Dismissal", "R", "B", "M", "4s", "6s", "SR"]);
    assert(res.deep_view() =~= batting_header());
    res
}

/// The column names of a bowling scorecard.
fn bowling_header_row() -> (res: Vec<String>)
    ensures
        res.deep_view() == bowling_header(),
{
    let res = header_row(&["Bowler_name", "O", "M", "R", "W", "ECON", "0s", "4s", "6s", "WD", "NB"]);
    assert(res.deep_view() =~= bowling_header());
    res
}

/// The batting files of the scorecard tables found on a page (each table a
/// list of rows, each row a list of cell texts).
pub fn batting_tables(tables: &Vec<Vec<Vec<String>>>) -> (res: Vec<CsvFile>)
    ensures
        res.deep_view() == batting_files_spec(tables.deep_view()),
{
    let ghost ts = tables.deep_view();
    let mut out: Vec<CsvFile> = Vec::new();
    let mut i: usize = 0;
    while i < tables.len()
        invariant
            i <= tables.len(),
            ts == tables.deep_view(),
            out.deep_view() == batting_files_spec(ts).take(i as int),
        decreases tables.len() - i,
    {
        let name = numbered_file_name("batting_scorecard", (i + 1) as u64);
        let records = records_of_width(batting_header_row(), &tables[i], 8);
        let file = CsvFile { name, records };
        let ghost before = out.deep_view();
        let ghost fv = file.deep_view();
        out.push(file);
        assert(fv == batting_files_spec(ts)[i as int]);
        assert(out.deep_view() =~= before.push(fv));
        assert(batting_files_spec(ts).take(i + 1) =~= batting_files_spec(ts).take(i as int).push(fv));
        i = i + 1;
    }
    assert(batting_files_spec(ts).take(i as int) =~= batting_files_spec(ts));
    out
}

/// The bowling files of the scorecard tables found on a page.
pub fn bowling_tables(tables: &Vec<Vec<Vec<String>>>) -> (res: Vec<CsvFile>)
    ensures
        res.deep_view() == bowling_files_spec(tables.deep_view()),
{
    let ghost ts = tables.deep_view();
    let mut out: Vec<CsvFile> = Vec::new();
    let mut i: usize = 0;
    while i < tables.len()
        invariant
            i <= tables.len(),
            ts == tables.deep_view(),
            out.deep_view() == bowling_files_spec(ts.take(i as int)),
        decreases tables.len() - i,
    {
        assert(ts.take(i + 1).drop_last() =~= ts.take(i as int));
        assert(ts.take(i + 1).last() == ts[i as int]);
        let records = records_of_width(bowling_header_row(), &tables[i], 11);
        assert(records.deep_view().len() == records@.len());
        assert(tables@[i as int].deep_view() == ts[i as int]);
        if records.len() > 1 {
            let name = numbered_file_name("bowling_scorecard", (i + 1) as u64);
            let file = CsvFile { name, records };
            let ghost before = out.deep_view();
            let ghost fv = file.deep_view();
            out.push(file);
            assert(out.deep_view() =~= before.push(fv));
            assert(ts.take(i + 1).len() == i + 1);
        }
        i = i + 1;
    }
    assert(ts.take(i as int) =~= ts);
    out
}

/// The batting scorecard files of a match page: one per `.ci-scorecard-table`
/// element, from its `tr` rows whose `td` cells number eight. `None` only if
/// the HTML library refuses one of these selectors.
pub fn batting_scorecard(html: &str) -> (res: Option<Vec<CsvFile>>)
    ensures
        res.deep_view() == match spec_table_cells(html@, ".ci-scorecard-table"@, "tr"@, "td"@) {
            Some(tables) => Some(batting_files_spec(tables)),
            None => None,
        },
{
    match table_cells(html, ".ci-scorecard-table", "tr", "td") {
        Some(tables) => Some(batting_tables(&tables)),
        None => None,
    }
}

/// The bowling scorecard files of a match page: from each
/// `table.ds-table.ds-table-md.ds-table-auto` element, its `tbody tr` rows
/// whose `td` cells number eleven, numbered by the table's place on the page.
/// `None` only if the HTML library refuses one of these selectors.
pub fn bowling_scraper(html: &str) -> (res: Option<Vec<CsvFile>>)
    ensures
        res.deep_view() == match spec_table_cells(
            html@,
            "table.ds-table.ds-table-md.ds-table-auto"@,
            "tbody tr"@,
            "td"@,
        ) {
            Some(tables) => Some(bowling_files_spec(tables)),
            None => None,
        },
{
    match table_cells(html, "table.ds-table.ds-table-md.ds-table-auto", "tbody tr", "td") {
        Some(tables) => Some(bowling_tables(&tables)),
        None => None,
    }
}


/// The rows kept for a width all have that width.
pub proof fn lemma_rows_of_width(rows: Seq<Seq<Seq<char>>>, width: nat)
    ensures
        forall|k: int|
            0 <= k < rows_of_width(rows, width).len() ==> (#[trigger] rows_of_width(rows, width)[k]).len()
                == width,
    decreases rows.len(),
{
    if rows.len() > 0 {
        lemma_rows_of_width(rows.drop_last(), width);
        let prev = rows_of_width(rows.drop_last(), width);
        let r = rows_of_width(rows, width);
        assert forall|k: int| 0 <= k < r.len() implies (#[trigger] r[k]).len() == width by {
            if k < prev.len() {
                assert(r[k] == prev[k]);
            }
        }
    }
}

/// Every data row of a batting file has eight cells.
pub proof fn law_batting_rows_have_eight_cells(tables: Seq<Seq<Seq<Seq<char>>>>)
    ensures
        forall|k: int, j: int|
            0 <= k < batting_files_spec(tables).len() && 1 <= j < batting_files_spec(tables)[k].1.len()
                ==> (#[trigger] batting_files_spec(tables)[k].1[j]).len() == 8,
{
    assert forall|k: int, j: int|
        0 <= k < batting_files_spec(tables).len() && 1 <= j < batting_files_spec(
            tables,
        )[k].1.len() implies (#[trigger] batting_files_spec(tables)[k].1[j]).len() == 8 by {
        lemma_rows_of_width(tables[k], 8);
        let rows = rows_of_width(tables[k], 8);
        assert(batting_files_spec(tables)[k].1[j] == rows[j - 1]);
    }
}

/// Every bowling file has its header and at least one data row, each data
/// row of eleven cells, and no more files are made than there are tables.
pub proof fn law_bowling_files_have_rows(tables: Seq<Seq<Seq<Seq<char>>>>)
    ensures
        bowling_files_spec(tables).len() <= tables.len(),
        forall|k: int|
            0 <= k < bowling_files_spec(tables).len() ==> (#[trigger] bowling_files_spec(tables)[k]).1.len()
                >= 2,
        forall|k: int, j: int|
            0 <= k < bowling_files_spec(tables).len() && 1 <= j < bowling_files_spec(tables)[k].1.len()
                ==> (#[trigger] bowling_files_spec(tables)[k].1[j]).len() == 11,
    decreases tables.len(),
{
    if tables.len() > 0 {
        let init = tables.drop_last();
        law_bowling_files_have_rows(init);
        let prev = bowling_files_spec(init);
        let rows = rows_of_width(tables.last(), 11);
        lemma_rows_of_width(tables.last(), 11);
        if rows.len() > 0 {
            let files = bowling_files_spec(tables);
            let f = (
                numbered_name("bowling_scorecard"@, tables.len() as nat),
                seq![bowling_header()] + rows,
            );
            assert(files == prev.push(f));
            assert forall|k: int, j: int|
                0 <= k < files.len() && 1 <= j < files[k].1.len() implies (
                #[trigger] files[k].1[j]).len() == 11 by {
                if k < prev.len() {
                    assert(files[k] == prev[k]);
                } else {
                    assert(files[k].1[j] == rows[j - 1]);
                }
            }
            assert forall|k: int| 0 <= k < files.len() implies (#[trigger] files[k]).1.len() >= 2 by {
                if k < prev.len() {
                    assert(files[k] == prev[k]);
                }
            }
        }
    }
}


/// Keeping the rows of one width commutes with putting tables of rows end to
/// end: the kept rows of `a` followed by `b` are those of `a`, in order, then
/// those of `b`, in order.
pub proof fn law_rows_of_width_concat(a: Seq<Seq<Seq<char>>>, b: Seq<Seq<Seq<char>>>, width: nat)
    ensures
        rows_of_width(a + b, width) == rows_of_width(a, width) + rows_of_width(b, width),
    decreases b.len(),
{
    if b.len() == 0 {
        assert(a + b =~= a);
        assert(rows_of_width(a, width) + rows_of_width(b, width) =~= rows_of_width(a, width));
    } else {
        law_rows_of_width_concat(a, b.drop_last(), width);
        assert((a + b).drop_last() =~= a + b.drop_last());
        assert((a + b).last() == b.last());
        if b.last().len() == width {
            assert(rows_of_width(a, width) + rows_of_width(b.drop_last(), width).push(b.last())
                =~= (rows_of_width(a, width) + rows_of_width(b.drop_last(), width)).push(b.last()));
        }
    }
}

/// A single row is kept exactly when it has the width.
pub proof fn law_rows_of_width_single(row: Seq<Seq<char>>, width: nat)
    ensures
        rows_of_width(seq![row], width) == if row.len() == width {
            seq![row]
        } else {
            Seq::<Seq<Seq<char>>>::empty()
        },
{
    let one = seq![row];
    assert(one.drop_last() =~= Seq::<Seq<Seq<char>>>::empty());
    assert(one.last() == row);
    assert(rows_of_width(one.drop_last(), width) == Seq::<Seq<Seq<char>>>::empty());
    if row.len() == width {
        assert(Seq::<Seq<Seq<char>>>::empty().push(row) =~= seq![row]);
    }
}

/// The batting files: one per table, the `k`-th (from 0) named with `k + 1`,
/// holding the header and then the table's eight-cell rows in page order.
pub proof fn law_batting_file_contents(tables: Seq<Seq<Seq<Seq<char>>>>, k: int)
    requires
        0 <= k < tables.len(),
    ensures
        batting_files_spec(tables).len() == tables.len(),
        batting_files_spec(tables)[k].0 == numbered_name("batting_scorecard"@, (k + 1) as nat),
        batting_files_spec(tables)[k].1 == seq![batting_header()] + rows_of_width(tables[k], 8),
        batting_files_spec(tables)[k].1.len() == 1 + rows_of_width(tables[k], 8).len(),
{
}

/// Each bowling file comes from one table, numbered by the table's place on
/// the page, and holds the header and then every eleven-cell row of that
/// table in page order (at least one).
pub proof fn law_bowling_file_contents(tables: Seq<Seq<Seq<Seq<char>>>>, i: int) -> (n: int)
    requires
        0 <= i < bowling_files_spec(tables).len(),
    ensures
        1 <= n <= tables.len(),
        bowling_files_spec(tables)[i].0 == numbered_name("bowling_scorecard"@, n as nat),
        bowling_files_spec(tables)[i].1 == seq![bowling_header()] + rows_of_width(tables[n - 1], 11),
        rows_of_width(tables[n - 1], 11).len() > 0,
    decreases tables.len(),
{
    let init = tables.drop_last();
    let prev = bowling_files_spec(init);
    let rows = rows_of_width(tables.last(), 11);
    assert(tables.last() == tables[tables.len() - 1]);
    if i < prev.len() {
        let n = law_bowling_file_contents(init, i);
        assert(init[n - 1] == tables[n - 1]);
        if rows.len() > 0 {
            assert(bowling_files_spec(tables)[i] == prev[i]);
        }
        n
    } else {
        tables.len() as int
    }
}

/// Every table with an eleven-cell row gets its bowling file, named with the
/// table's place on the page and holding every such row in page order.
pub proof fn law_bowling_table_has_file(tables: Seq<Seq<Seq<Seq<char>>>>, n: int) -> (i: int)
    requires
        1 <= n <= tables.len(),
        rows_of_width(tables[n - 1], 11).len() > 0,
    ensures
        0 <= i < bowling_files_spec(tables).len(),
        bowling_files_spec(tables)[i].0 == numbered_name("bowling_scorecard"@, n as nat),
        bowling_files_spec(tables)[i].1 == seq![bowling_header()] + rows_of_width(tables[n - 1], 11),
    decreases tables.len(),
{
    let init = tables.drop_last();
    let prev = bowling_files_spec(init);
    assert(tables.last() == tables[tables.len() - 1]);
    if n == tables.len() {
        prev.len() as int
    } else {
        assert(init[n - 1] == tables[n - 1]);
        let i = law_bowling_table_has_file(init, n);
        if rows_of_width(tables.last(), 11).len() > 0 {
            assert(bowling_files_spec(tables)[i] == prev[i]);
        }
        i
    }
}

} // verus!
