//! The match pages to scrape and where each match's output goes.

use vstd::prelude::*;
use crate::html::{spec_fragment_attrs, spec_named_elements, spec_row_texts_and_links, spec_table_cells};
use crate::pattern::spec_compiles;
use crate::players::{extract_players, player_link_pattern, players_spec, PlayerEntry};
use crate::scorecard::{batting_files_spec, batting_scorecard, bowling_files_spec, bowling_scraper, CsvFile};
use crate::venue::{first_ground_spec, stadium_file_stem, venue_header, venue_name, venue_scapper, venue_spec};
use crate::text::{replace_spec, chars_of, lines, lines_spec, second_to_last_piece, split_spec, string_of, trim_chars, trim_spec};

verus! {

/// The match addresses that a configuration text lists: each of its lines,
/// trimmed of white space (blank lines give empty addresses).
pub fn config_urls(contents: &str) -> (res: Vec<String>)
    ensures
        res.deep_view() == lines_spec(contents@).map_values(|l: Seq<char>| trim_spec(l)),
{
    let cs = chars_of(contents);
    let ls = lines(&cs);
    let ghost want = lines_spec(contents@).map_values(|l: Seq<char>| trim_spec(l));
    let mut out: Vec<String> = Vec::new();
    let mut i: usize = 0;
    while i < ls.len()
        invariant
            i <= ls.len(),
            ls.deep_view() == lines_spec(contents@),
            want == lines_spec(contents@).map_values(|l: Seq<char>| trim_spec(l)),
            out.deep_view() == want.take(i as int),
        decreases ls.len() - i,
    {
        let t = trim_chars(&ls[i]);
        let line = string_of(&t);
        assert(ls.deep_view()[i as int] == ls@[i as int]@) by {
            crate::text::lemma_chars_deep_view(ls@[i as int]);
        }
        let ghost before = out.deep_view();
        out.push(line);
        assert(out.deep_view() =~= before.push(want[i as int]));
        assert(want.take(i + 1) =~= want.take(i as int).push(want[i as int]));
        i = i + 1;
    }
    assert(want.take(i as int) =~= want);
    out
}

/// The folder name of a match: the piece of its address between the last two
/// `/` (or before the only one), which for a scorecard address is the match's
/// own path segment. The address must hold a `/`.
pub fn match_directory(url: &str) -> (res: String)
    requires
        url@.contains('/'),
    ensures
        split_spec(url@, '/').len() >= 2,
        res@ == split_spec(url@, '/')[split_spec(url@, '/').len() - 2],
        !res@.contains('/'),
{
    proof {
        crate::text::lemma_split_pieces_no_sep(url@, '/');
    }
    let cs = chars_of(url);
    let piece = second_to_last_piece(&cs, '/');
    string_of(&piece)
}


/// Everything that one match page yields: the match's folder, its players,
/// and the scorecard and venue files to write into the folder.
pub struct MatchPage {
    pub directory: String,
    pub players: Vec<PlayerEntry>,
    pub batting: Vec<CsvFile>,
    pub bowling: Vec<CsvFile>,
    pub venue: CsvFile,
}

/// Reads a downloaded match page: the folder named after its address, the
/// players its links name, its batting and bowling scorecards, and its venue
/// file, named after the stadium link. `None` exactly when the page libraries
/// refuse one of the fixed selectors or the player pattern.
pub fn scrape_match_page(url: &str, html: &str) -> (res: Option<MatchPage>)
    requires
        url@.contains('/'),
    ensures
        res is Some <==> {
            &&& spec_compiles(player_link_pattern())
            &&& spec_table_cells(html@, ".ci-scorecard-table"@, "tr"@, "td"@) is Some
            &&& spec_table_cells(
                html@,
                "table.ds-table.ds-table-md.ds-table-auto"@,
                "tbody tr"@,
                "td"@,
            ) is Some
            &&& spec_fragment_attrs(html@, "a"@, "href"@) is Some
            &&& spec_row_texts_and_links(html@, ".ds-table tbody tr"@, "a"@, "href"@) is Some
        },
        res matches Some(page) ==> {
            &&& split_spec(url@, '/').len() >= 2
            &&& page.directory@ == split_spec(url@, '/')[split_spec(url@, '/').len() - 2]
            &&& page.players.deep_view() == players_spec(spec_named_elements(html@, "a"@, "href"@))
            &&& spec_table_cells(html@, ".ci-scorecard-table"@, "tr"@, "td"@) matches Some(t)
                && page.batting.deep_view() == batting_files_spec(t)
            &&& spec_table_cells(
                html@,
                "table.ds-table.ds-table-md.ds-table-auto"@,
                "tbody tr"@,
                "td"@,
            ) matches Some(t) && page.bowling.deep_view() == bowling_files_spec(t)
            &&& spec_fragment_attrs(html@, "a"@, "href"@) matches Some(hrefs)
                && spec_row_texts_and_links(html@, ".ds-table tbody tr"@, "a"@, "href"@) matches Some(
                rows,
            ) && page.venue.deep_view() == (
                replace_spec(first_ground_spec(hrefs), "/cricket-grounds/"@, ""@) + ".csv"@,
                seq![venue_header(), venue_spec(rows)],
            )
        },
{
    let directory = match_directory(url);
    let players = extract_players(html)?;
    let batting = batting_scorecard(html)?;
    let bowling = bowling_scraper(html)?;
    let stadium = venue_name(html)?;
    let stem = stadium_file_stem(stadium.as_str());
    let venue = venue_scapper(html, stem.as_str())?;
    Some(MatchPage { directory, players, batting, bowling, venue })
}

} // verus!
