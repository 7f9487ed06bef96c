//! The venue and match details of a match page.

use vstd::prelude::*;
use crate::html::{fragment_attrs, row_texts_and_links, spec_fragment_attrs, spec_row_texts_and_links};
use crate::scorecard::CsvFile;
use crate::text::{
    chars_of, contains, contains_seq, replace_all, replace_spec, lower_spec, string_of, is_ascii_seq, is_whitespace_spec, trim_start_spec, trim_end_spec, ascii_lower_spec, ascii_lower_char,
    string_of_str, to_lowercase, trim_chars, trim_spec,
};

verus! {

/// The match details that a page's details table gives.
pub struct VenueInfo {
    pub toss: String,
    pub series: String,
    pub season: String,
    pub player_of_the_match: String,
    pub match_number: String,
    pub match_days: String,
    pub points: String,
}

impl View for VenueInfo {
    type V = Seq<Seq<char>>;

    /// The seven details in the order of the venue file's columns.
    open spec fn view(&self) -> Seq<Seq<char>> {
        seq![
            self.toss@,
            self.series@,
            self.season@,
            self.player_of_the_match@,
            self.match_number@,
            self.match_days@,
            self.points@,
        ]
    }
}

/// The column names of the venue file.
pub open spec fn venue_header() -> Seq<Seq<char>> {
    seq![
        "Toss"@,
        "Series"@,
        "Season"@,
        "Player_Of_The_Match"@,
        "Match_number"@,
        "Match_date"@,
        "Points"@,
    ]
}

/// The cells of a details row: its text pieces trimmed, the empty ones left out.
pub open spec fn columns_spec(texts: Seq<Seq<char>>) -> Seq<Seq<char>>
    decreases texts.len(),
{
    if texts.len() == 0 {
        Seq::<Seq<char>>::empty()
    } else {
        let prev = columns_spec(texts.drop_last());
        let t = trim_spec(texts.last());
        if t.len() > 0 {
            prev.push(t)
        } else {
            prev
        }
    }
}

/// The detail, by its column in the venue file, that a lower-cased key of
/// the details table names: `toss` 0, `series` 1, `season` 2, `player of the
/// match` 3, `match number` 4, `match days` 5, and both `points` and `series
/// result` 6.
pub open spec fn key_field(key: Seq<char>) -> Option<int> {
    if key == "toss"@ {
        Some(0)
    } else if key == "series"@ {
        Some(1)
    } else if key == "season"@ {
        Some(2)
    } else if key == "player of the match"@ {
        Some(3)
    } else if key == "match number"@ {
        Some(4)
    } else if key == "match days"@ {
        Some(5)
    } else if key == "points"@ || key == "series result"@ {
        Some(6)
    } else {
        None
    }
}

/// The detail that a details row names, if it has two cells or more.
pub open spec fn row_field(texts: Seq<Seq<char>>) -> Option<int> {
    let cols = columns_spec(texts);
    if cols.len() < 2 {
        None
    } else {
        key_field(lower_spec(cols[0]))
    }
}

/// The player of the match that a row's first link gives: the link's
/// `href` (empty when it has none) without its `/cricketers/` part.
pub open spec fn link_player_id(href: Option<Seq<char>>) -> Seq<char> {
    replace_spec(
        match href {
            Some(h) => h,
            None => Seq::<char>::empty(),
        },
        "/cricketers/"@,
        Seq::<char>::empty(),
    )
}

/// The details after one more row of the details table is read. A row with
/// two cells or more sets the detail that its first cell names (compared in
/// lower case) to its second cell; the player of the match is instead read
/// from the row's first link, and is left as it was when the row has no link.
pub open spec fn apply_row(
    info: Seq<Seq<char>>,
    texts: Seq<Seq<char>>,
    link: Option<Option<Seq<char>>>,
) -> Seq<Seq<char>> {
    match row_field(texts) {
        Some(k) => if k == 3 {
            match link {
                Some(href) => info.update(3, link_player_id(href)),
                None => info,
            }
        } else {
            info.update(k, columns_spec(texts)[1])
        },
        None => info,
    }
}

/// The details that the rows of a details table give, read in order from
/// seven empty details (a later row overrides an earlier one).
pub open spec fn venue_spec(rows: Seq<(Seq<Seq<char>>, Option<Option<Seq<char>>>)>) -> Seq<Seq<char>>
    decreases rows.len(),
{
    if rows.len() == 0 {
        Seq::new(7, |i: int| Seq::<char>::empty())
    } else {
        apply_row(venue_spec(rows.drop_last()), rows.last().0, rows.last().1)
    }
}

/// The cells of a details row.
fn row_columns(texts: &Vec<String>) -> (res: Vec<String>)
    ensures
        res.deep_view() == columns_spec(texts.deep_view()),
{
    let ghost ts = texts.deep_view();
    let mut out: Vec<String> = Vec::new();
    let mut i: usize = 0;
    while i < texts.len()
        invariant
            i <= texts.len(),
            ts == texts.deep_view(),
            out.deep_view() == columns_spec(ts.take(i as int)),
        decreases texts.len() - i,
    {
        assert(ts.take(i + 1).drop_last() =~= ts.take(i as int));
        assert(ts.take(i + 1).last() == texts@[i as int]@);
        let cs = chars_of(texts[i].as_str());
        let t = trim_chars(&cs);
        if t.len() > 0 {
            let ghost before = out.deep_view();
            out.push(string_of(&t));
            assert(out.deep_view() =~= before.push(t@));
        }
        i = i + 1;
    }
    assert(ts.take(i as int) =~= ts);
    out
}

/// Whether two strings are equal.
fn same(a: &String, b: &str) -> (res: bool)
    ensures
        res == (a@ == b@),
{
    let b2 = string_of_str(b);
    *a == b2
}

/// The details after one more row of the details table.
fn read_row(info: &mut VenueInfo, texts: &Vec<String>, link: &Option<Option<String>>)
    ensures
        final(info)@ == apply_row(old(info)@, texts.deep_view(), link.deep_view()),
{
    let cols = row_columns(texts);
    if cols.len() < 2 {
        return;
    }
    assert(cols.deep_view()[0] == cols@[0]@ && cols.deep_view()[1] == cols@[1]@);
    let key = to_lowercase(cols[0].as_str());
    let value = cols[1].clone();
    if same(&key, "toss") {
        info.toss = value;
    } else if same(&key, "series") {
        info.series = value;
    } else if same(&key, "season") {
        info.season = value;
    } else if same(&key, "player of the match") {
        match link {
            Some(href) => {
                let h = match href {
                    Some(h) => h.clone(),
                    None => string_of_str(""),
                };
                proof {
                    reveal_strlit("");
                    assert(""@ =~= Seq::<char>::empty());
                    assert(link.deep_view() == Some(href.deep_view()));
                    assert(h@ == match href.deep_view() {
                        Some(x) => x,
                        None => Seq::<char>::empty(),
                    });
                }
                info.player_of_the_match = replace_all(h.as_str(), "/cricketers/", "");
            },
            None => {},
        }
    } else if same(&key, "match number") {
        info.match_number = value;
    } else if same(&key, "match days") {
        info.match_days = value;
    } else if same(&key, "points") || same(&key, "series result") {
        info.points = value;
    }
    assert(info@ =~= apply_row(old(info)@, texts.deep_view(), link.deep_view()));
}

/// The match details that the rows of a details table give (each row as its
/// text pieces and the `href` of its first link, if it has a link).
pub fn venue_info(rows: &Vec<(Vec<String>, Option<Option<String>>)>) -> (res: VenueInfo)
    ensures
        res@ == venue_spec(rows.deep_view()),
{
    let mut info = VenueInfo {
        toss: string_of_str(""),
        series: string_of_str(""),
        season: string_of_str(""),
        player_of_the_match: string_of_str(""),
        match_number: string_of_str(""),
        match_days: string_of_str(""),
        points: string_of_str(""),
    };
    let ghost rs = rows.deep_view();
    proof {
        reveal_strlit("");
        assert(""@ =~= Seq::<char>::empty());
        assert(rs.take(0).len() == 0);
        assert(info@ =~= venue_spec(rs.take(0)));
    }
    let mut i: usize = 0;
    while i < rows.len()
        invariant
            i <= rows.len(),
            rs == rows.deep_view(),
            info@ == venue_spec(rs.take(i as int)),
        decreases rows.len() - i,
    {
        assert(rs.take(i + 1).drop_last() =~= rs.take(i as int));
        assert(rs.take(i + 1).last() == rs[i as int]);
        read_row(&mut info, &rows[i].0, &rows[i].1);
        i = i + 1;
    }
    assert(rs.take(i as int) =~= rs);
    info
}

/// The records of the venue file: the column names, then the details.
pub fn venue_records(info: &VenueInfo) -> (res: Vec<Vec<String>>)
    ensures
        res.deep_view() == seq![venue_header(), info@],
{
    let mut header: Vec<String> = Vec::new();
    header.push(string_of_str("Toss"));
    header.push(string_of_str("Series"));
    header.push(string_of_str("Season"));
    header.push(string_of_str("Player_Of_The_Match"));
    header.push(string_of_str("Match_number"));
    header.push(string_of_str("Match_date"));
    header.push(string_of_str("Points"));
    let mut values: Vec<String> = Vec::new();
    values.push(info.toss.clone());
    values.push(info.series.clone());
    values.push(info.season.clone());
    values.push(info.player_of_the_match.clone());
    values.push(info.match_number.clone());
    values.push(info.match_days.clone());
    values.push(info.points.clone());
    let ghost hv = header.deep_view();
    let ghost vv = values.deep_view();
    assert(hv =~= venue_header());
    assert(vv =~= info@);
    let mut out: Vec<Vec<String>> = Vec::new();
    out.push(header);
    out.push(values);
    assert(out.deep_view() =~= seq![hv, vv]);
    out
}

/// The venue file of a match page, named `file_name` with `.csv` added: the
/// details read from the `.ds-table tbody tr` rows of the page (links being
/// their `a` elements' `href`). `None` only if the HTML library refuses one of
/// these selectors.
pub fn venue_scapper(html: &str, file_name: &str) -> (res: Option<CsvFile>)
    ensures
        res.deep_view() == match spec_row_texts_and_links(
            html@,
            ".ds-table tbody tr"@,
            "a"@,
            "href"@,
        ) {
            Some(rows) => Some((file_name@ + ".csv"@, seq![venue_header(), venue_spec(rows)])),
            None => None,
        },
{
    match row_texts_and_links(html, ".ds-table tbody tr", "a", "href") {
        Some(rows) => {
            let info = venue_info(&rows);
            let records = venue_records(&info);
            let mut name = string_of_str(file_name);
            name.append(".csv");
            Some(CsvFile { name, records })
        },
        None => None,
    }
}

/// The first link that points into `/cricket-grounds/`, or the empty string.
pub open spec fn first_ground_spec(hrefs: Seq<Option<Seq<char>>>) -> Seq<char>
    decreases hrefs.len(),
{
    if hrefs.len() == 0 {
        Seq::<char>::empty()
    } else {
        match hrefs[0] {
            Some(h) => if contains_seq(h, "/cricket-grounds/"@) {
                h
            } else {
                first_ground_spec(hrefs.drop_first())
            },
            None => first_ground_spec(hrefs.drop_first()),
        }
    }
}

/// The first of the links that points into `/cricket-grounds/`, or the empty
/// string.
pub fn first_ground_link(hrefs: &Vec<Option<String>>) -> (res: String)
    ensures
        res@ == first_ground_spec(hrefs.deep_view()),
{
    let ghost hs = hrefs.deep_view();
    assert(hs.skip(0) =~= hs);
    let mut i: usize = 0;
    while i < hrefs.len()
        invariant
            i <= hrefs.len(),
            hs == hrefs.deep_view(),
            first_ground_spec(hs.skip(i as int)) == first_ground_spec(hs),
        decreases hrefs.len() - i,
    {
        assert(hs.skip(i as int)[0] == hs[i as int]);
        assert(hs.skip(i as int).drop_first() =~= hs.skip(i + 1));
        match &hrefs[i] {
            Some(h) => {
                if contains(h.as_str(), "/cricket-grounds/") {
                    return h.clone();
                }
            },
            None => {},
        }
        i = i + 1;
    }
    proof {
        reveal_strlit("");
        assert(hs.skip(i as int).len() == 0);
    }
    string_of_str("")
}

/// The stadium link of a match page: the `href` of the first `a` element of
/// the page (read as a fragment) that points into `/cricket-grounds/`, or the
/// empty string. `None` only if the HTML library refuses the selector.
pub fn venue_name(html: &str) -> (res: Option<String>)
    ensures
        res.deep_view() == match spec_fragment_attrs(html@, "a"@, "href"@) {
            Some(hrefs) => Some(first_ground_spec(hrefs)),
            None => None,
        },
{
    match fragment_attrs(html, "a", "href") {
        Some(hrefs) => Some(first_ground_link(&hrefs)),
        None => None,
    }
}

/// The name under which a match's venue file is written: the stadium link
/// without its `/cricket-grounds/` part.
pub fn stadium_file_stem(stadium: &str) -> (res: String)
    ensures
        res@ == replace_spec(stadium@, "/cricket-grounds/"@, ""@),
{
    replace_all(stadium, "/cricket-grounds/", "")
}


/// The details always number seven.
pub proof fn lemma_venue_len(rows: Seq<(Seq<Seq<char>>, Option<Option<Seq<char>>>)>)
    ensures
        venue_spec(rows).len() == 7,
    decreases rows.len(),
{
    if rows.len() > 0 {
        lemma_venue_len(rows.drop_last());
    }
}

/// Of the rows that name one detail (other than the player of the match),
/// the last one's value stands: the detail is that row's second cell, whatever
/// earlier rows said.
pub proof fn law_venue_last_row_wins(
    rows: Seq<(Seq<Seq<char>>, Option<Option<Seq<char>>>)>,
    j: int,
    k: int,
)
    requires
        0 <= j < rows.len(),
        k != 3,
        row_field(rows[j].0) == Some(k),
        forall|m: int| j < m < rows.len() ==> row_field(#[trigger] rows[m].0) != Some(k),
    ensures
        venue_spec(rows)[k] == columns_spec(rows[j].0)[1],
    decreases rows.len(),
{
    let init = rows.drop_last();
    lemma_venue_len(init);
    assert(rows.last() == rows[rows.len() - 1]);
    if j == rows.len() - 1 {
    } else {
        assert forall|m: int| j < m < init.len() implies row_field(#[trigger] init[m].0) != Some(k) by {
            assert(init[m] == rows[m]);
        }
        assert(init[j] == rows[j]);
        law_venue_last_row_wins(init, j, k);
        let last = rows.last();
        assert(row_field(last.0) != Some(k));
        if row_field(last.0) is Some {
            let f = row_field(last.0)->0;
            assert(0 <= f < 7);
        }
    }
}

proof fn lemma_plain_key(key: Seq<char>)
    requires
        key.len() > 0,
        !is_whitespace_spec(key[0]),
        !is_whitespace_spec(key.last()),
    ensures
        trim_spec(key) == key,
{
    assert(trim_start_spec(key) == key);
    assert(trim_end_spec(key) == key);
}

proof fn lemma_two_cells(key: Seq<char>, value: Seq<char>)
    requires
        trim_spec(key) == key,
        key.len() > 0,
        trim_spec(value) == value,
        value.len() > 0,
    ensures
        columns_spec(seq![key, value]) == seq![key, value],
{
    let t = seq![key, value];
    let one = seq![key];
    assert(t.drop_last() =~= one);
    assert(t.last() == value);
    assert(one.drop_last() =~= Seq::<Seq<char>>::empty());
    assert(one.last() == key);
    assert(columns_spec(one.drop_last()) == Seq::<Seq<char>>::empty());
    assert(columns_spec(one) == Seq::<Seq<char>>::empty().push(key));
    assert(columns_spec(one) =~= one);
    assert(columns_spec(t) =~= seq![key, value]);
}

/// A `Series result` row after a `Points` row sets the points to its own
/// value, and a `Points` row after a `Series result` row to its own: both keys
/// fill the same column and the later row wins (for values without
/// surrounding white space).
pub proof fn law_series_result_and_points(points: Seq<char>, result: Seq<char>)
    requires
        points.len() > 0,
        trim_spec(points) == points,
        result.len() > 0,
        trim_spec(result) == result,
    ensures
        venue_spec(
            seq![
                (seq!["Points"@, points], None::<Option<Seq<char>>>),
                (seq!["Series result"@, result], None::<Option<Seq<char>>>),
            ],
        )[6] == result,
        venue_spec(
            seq![
                (seq!["Series result"@, result], None::<Option<Seq<char>>>),
                (seq!["Points"@, points], None::<Option<Seq<char>>>),
            ],
        )[6] == points,
{
    reveal_strlit("Points");
    reveal_strlit("Series result");
    reveal_strlit("points");
    reveal_strlit("series result");
    reveal_strlit("toss");
    reveal_strlit("series");
    reveal_strlit("season");
    reveal_strlit("player of the match");
    reveal_strlit("match number");
    reveal_strlit("match days");
    let p = "Points"@;
    let r = "Series result"@;
    lemma_plain_key(p);
    lemma_plain_key(r);
    lemma_two_cells(p, points);
    lemma_two_cells(r, result);
    assert(is_ascii_seq(p));
    assert(is_ascii_seq(r));
    assert(lower_spec(p) =~= "points"@);
    assert(lower_spec(r) =~= "series result"@);
    assert(columns_spec(seq![p, points])[0] == p);
    assert("points"@.len() == 6 && "toss"@.len() == 4 && "series"@.len() == 6);
    assert("season"@.len() == 6 && "player of the match"@.len() == 19);
    assert("match number"@.len() == 12 && "match days"@.len() == 10);
    assert("series result"@.len() == 13);
    assert("points"@[0] == 'p' && "series"@[0] == 's' && "season"@[0] == 's');
    assert("points"@ != "toss"@ && "points"@ != "series"@ && "points"@ != "season"@);
    assert("points"@ != "player of the match"@ && "points"@ != "match number"@ && "points"@
        != "match days"@);
    assert(row_field(seq![p, points]) == Some(6int));
    assert(columns_spec(seq![r, result])[0] == r);
    assert("series result"@ != "toss"@ && "series result"@ != "series"@ && "series result"@
        != "season"@);
    assert("series result"@ != "player of the match"@ && "series result"@ != "match number"@
        && "series result"@ != "match days"@);
    assert(row_field(seq![r, result]) == Some(6int));
    let rows1 = seq![(seq![p, points], None::<Option<Seq<char>>>), (seq![r, result], None::<Option<Seq<char>>>)];
    let rows2 = seq![(seq![r, result], None::<Option<Seq<char>>>), (seq![p, points], None::<Option<Seq<char>>>)];
    law_venue_last_row_wins(rows1, 1, 6);
    law_venue_last_row_wins(rows2, 1, 6);
}


/// What each details key names.
proof fn lemma_key_fields()
    ensures
        key_field("toss"@) == Some(0int),
        key_field("series"@) == Some(1int),
        key_field("season"@) == Some(2int),
        key_field("player of the match"@) == Some(3int),
        key_field("match number"@) == Some(4int),
        key_field("match days"@) == Some(5int),
        key_field("points"@) == Some(6int),
        key_field("series result"@) == Some(6int),
{
    reveal_strlit("toss");
    reveal_strlit("series");
    reveal_strlit("season");
    reveal_strlit("player of the match");
    reveal_strlit("match number");
    reveal_strlit("match days");
    reveal_strlit("points");
    reveal_strlit("series result");
    assert("toss"@.len() == 4 && "series"@.len() == 6 && "season"@.len() == 6);
    assert("player of the match"@.len() == 19 && "match number"@.len() == 12);
    assert("match days"@.len() == 10 && "points"@.len() == 6 && "series result"@.len() == 13);
    assert("series"@[2] == 'r' && "season"@[2] == 'a');
    assert("points"@[0] == 'p' && "series"@[0] == 's' && "season"@[0] == 's');
}

/// A character whose ASCII lower case is not white space is not white space.
proof fn lemma_lower_keeps_non_space(c: char)
    ensures
        is_whitespace_spec(c) ==> ascii_lower_char(c) == c,
{
}

/// A one-row details table whose key lowers to `name` and whose value is
/// `value` reads as that row's two cells, naming `name`'s detail.
proof fn lemma_single_row(key: Seq<char>, value: Seq<char>, name: Seq<char>)
    requires
        is_ascii_seq(key),
        ascii_lower_spec(key) == name,
        name.len() > 0,
        !is_whitespace_spec(name[0]),
        !is_whitespace_spec(name.last()),
        value.len() > 0,
        trim_spec(value) == value,
    ensures
        columns_spec(seq![key, value]) == seq![key, value],
        row_field(seq![key, value]) == key_field(name),
{
    assert(key.len() == name.len());
    lemma_lower_keeps_non_space(key[0]);
    lemma_lower_keeps_non_space(key.last());
    assert(name[0] == ascii_lower_char(key[0]));
    assert(key.last() == key[key.len() - 1]);
    assert(name.last() == ascii_lower_char(key.last()));
    lemma_plain_key(key);
    lemma_two_cells(key, value);
    assert(lower_spec(key) == name);
}

/// A details row whose key is a detail's name in any ASCII letter case, and
/// whose value has no surrounding white space, fills that detail's column of
/// the venue record with its value and leaves the other columns empty:
/// `Toss` column 0, `Series` 1, `Season` 2, `Match number` 4, `Match days` 5,
/// `Points` and `Series result` 6.
pub proof fn law_details_row_fills_its_column(key: Seq<char>, value: Seq<char>)
    requires
        is_ascii_seq(key),
        value.len() > 0,
        trim_spec(value) == value,
    ensures
        ({
            let d = venue_spec(seq![(seq![key, value], None::<Option<Seq<char>>>)]);
            let e = Seq::<char>::empty();
            &&& ascii_lower_spec(key) == "toss"@ ==> d == seq![value, e, e, e, e, e, e]
            &&& ascii_lower_spec(key) == "series"@ ==> d == seq![e, value, e, e, e, e, e]
            &&& ascii_lower_spec(key) == "season"@ ==> d == seq![e, e, value, e, e, e, e]
            &&& ascii_lower_spec(key) == "match number"@ ==> d == seq![e, e, e, e, value, e, e]
            &&& ascii_lower_spec(key) == "match days"@ ==> d == seq![e, e, e, e, e, value, e]
            &&& ascii_lower_spec(key) == "points"@ ==> d == seq![e, e, e, e, e, e, value]
            &&& ascii_lower_spec(key) == "series result"@ ==> d == seq![e, e, e, e, e, e, value]
        }),
{
    lemma_key_fields();
    reveal_strlit("toss");
    reveal_strlit("series");
    reveal_strlit("season");
    reveal_strlit("match number");
    reveal_strlit("match days");
    reveal_strlit("points");
    reveal_strlit("series result");
    let row = seq![key, value];
    let rows = seq![(row, None::<Option<Seq<char>>>)];
    let e = Seq::<char>::empty();
    let start = Seq::new(7, |i: int| Seq::<char>::empty());
    assert(rows.drop_last() =~= Seq::<(Seq<Seq<char>>, Option<Option<Seq<char>>>)>::empty());
    assert(rows.last() == (row, None::<Option<Seq<char>>>));
    assert(venue_spec(rows.drop_last()) =~= start);
    assert(venue_spec(rows) == apply_row(start, row, None));
    let n = ascii_lower_spec(key);
    if n == "toss"@ || n == "series"@ || n == "season"@ || n == "match number"@ || n
        == "match days"@ || n == "points"@ || n == "series result"@ {
        assert(n[0] != ' ' && n.last() != ' ');
        lemma_single_row(key, value, n);
        let d = venue_spec(rows);
        if n == "toss"@ {
            assert(d =~= seq![value, e, e, e, e, e, e]);
        } else if n == "series"@ {
            assert(d =~= seq![e, value, e, e, e, e, e]);
        } else if n == "season"@ {
            assert(d =~= seq![e, e, value, e, e, e, e]);
        } else if n == "match number"@ {
            assert(d =~= seq![e, e, e, e, value, e, e]);
        } else if n == "match days"@ {
            assert(d =~= seq![e, e, e, e, e, value, e]);
        } else {
            assert(d =~= seq![e, e, e, e, e, e, value]);
        }
    }
}

/// A `Player of the match` row (any ASCII letter case) sets the player of the
/// match (column 3) to its first link's `href` without `/cricketers/`, and
/// leaves the other columns empty; without a link it sets nothing.
pub proof fn law_player_of_the_match_row(key: Seq<char>, value: Seq<char>, href: Seq<char>)
    requires
        is_ascii_seq(key),
        ascii_lower_spec(key) == "player of the match"@,
        value.len() > 0,
        trim_spec(value) == value,
    ensures
        ({
            let e = Seq::<char>::empty();
            &&& venue_spec(seq![(seq![key, value], Some(Some(href)))]) == seq![
                e,
                e,
                e,
                replace_spec(href, "/cricketers/"@, e),
                e,
                e,
                e,
            ]
            &&& venue_spec(seq![(seq![key, value], None::<Option<Seq<char>>>)]) == seq![
                e,
                e,
                e,
                e,
                e,
                e,
                e,
            ]
        }),
{
    lemma_key_fields();
    reveal_strlit("player of the match");
    let n = "player of the match"@;
    assert(n[0] == 'p' && n.last() == 'h') by {
        assert(n.last() == n[18]);
    }
    lemma_single_row(key, value, n);
    let row = seq![key, value];
    let e = Seq::<char>::empty();
    let start = Seq::new(7, |i: int| Seq::<char>::empty());
    let rows1 = seq![(row, Some(Some(href)))];
    let rows2 = seq![(row, None::<Option<Seq<char>>>)];
    assert(rows1.drop_last() =~= Seq::<(Seq<Seq<char>>, Option<Option<Seq<char>>>)>::empty());
    assert(rows2.drop_last() =~= Seq::<(Seq<Seq<char>>, Option<Option<Seq<char>>>)>::empty());
    assert(rows1.last() == (row, Some(Some(href))));
    assert(rows2.last() == (row, None::<Option<Seq<char>>>));
    assert(venue_spec(rows1.drop_last()) =~= start);
    assert(venue_spec(rows2.drop_last()) =~= start);
    assert(venue_spec(rows1) == apply_row(start, row, Some(Some(href))));
    assert(venue_spec(rows2) == apply_row(start, row, None));
    assert(link_player_id(Some(href)) == replace_spec(href, "/cricketers/"@, e));
    assert(venue_spec(rows1) =~= seq![e, e, e, replace_spec(href, "/cricketers/"@, e), e, e, e]);
    assert(venue_spec(rows2) =~= seq![e, e, e, e, e, e, e]);
}

} // verus!
