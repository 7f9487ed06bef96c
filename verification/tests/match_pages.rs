use web_scrapper::matches::scrape_match_page;
use web_scrapper::players::{
    extract_players, match_players, player_records, stage_player_ids, write_player_info,
};
use web_scrapper::scorecard::{batting_scorecard, batting_tables, bowling_scraper, bowling_tables};
use web_scrapper::venue::{first_ground_link, stadium_file_stem, venue_info, venue_name, venue_scapper};

fn strings(items: &[&str]) -> Vec<String> {
    items.iter().map(|s| s.to_string()).collect()
}

const PLAYERS_PAGE: &str = r#"<html><body>
<a href="/cricketers/ms-dhoni-28081">MS Dhoni (c)</a>
<a href="/cricketers/ms-dhoni-28081">MS Dhoni</a>
<a href="/team/india">India</a>
<a href="/cricketers/ravindra-jadeja-234675/bowling">Ravindra Jadeja</a>
<a href="/cricketers/noid">Nobody</a>
<a>no link</a>
</body></html>"#;

#[test]
fn extract_players_dedupes_and_marks_captain() {
    let players = extract_players(PLAYERS_PAGE).unwrap();
    assert_eq!(players.len(), 2);
    assert_eq!(players[0].name, "ms dhoni");
    assert_eq!(players[0].id, "28081");
    assert!(players[0].captain);
    assert_eq!(players[1].name, "ravindra jadeja");
    assert_eq!(players[1].id, "234675");
    assert!(!players[1].captain);
}

#[test]
fn match_players_reads_hrefs_and_texts() {
    let links = vec![
        (Some("/cricketers/virat-kohli-253802".to_string()), "Virat Kohli (c)".to_string()),
        (None, "x".to_string()),
        (Some("https://x.com/cricketers/a-b-c-12?x".to_string()), "y".to_string()),
    ];
    let players = match_players(&links).unwrap();
    assert_eq!(players.len(), 2);
    assert_eq!(players[0].name, "virat kohli");
    assert!(players[0].captain);
    assert_eq!(players[1].name, "a b c");
    assert_eq!(players[1].id, "12");
}

#[test]
fn law_player_ids_distinct_on_values() {
    let links = vec![
        (Some("/cricketers/a-1".to_string()), "".to_string()),
        (Some("/cricketers/b-1".to_string()), "".to_string()),
    ];
    let players = match_players(&links).unwrap();
    assert_eq!(players.len(), 1);
    assert_eq!(players[0].name, "a");
}

#[test]
fn staging_keeps_ids_once() {
    let players = extract_players(PLAYERS_PAGE).unwrap();
    let mut staged = strings(&["234675", "1"]);
    stage_player_ids(&mut staged, &players);
    assert_eq!(staged, strings(&["234675", "1", "28081"]));
    stage_player_ids(&mut staged, &players);
    assert_eq!(staged, strings(&["234675", "1", "28081"]));
}

#[test]
fn records_of_players_and_staging() {
    let players = extract_players(PLAYERS_PAGE).unwrap();
    let rows = player_records(&players, true);
    assert_eq!(rows[0], strings(&["player name", "player_id", "captain_flag"]));
    assert_eq!(rows[1], strings(&["ms dhoni", "28081", "true"]));
    assert_eq!(rows[2], strings(&["ravindra jadeja", "234675", "false"]));
    assert_eq!(player_records(&players, false).len(), 2);
    let staged = write_player_info(&strings(&["1", "2"]), true);
    assert_eq!(staged, vec![strings(&["player_id"]), strings(&["1"]), strings(&["2"])]);
    assert_eq!(write_player_info(&strings(&["1"]), false), vec![strings(&["1"])]);
}

fn row(n: usize) -> String {
    let cells: Vec<String> = (0..n).map(|i| format!("<td>c{}</td>", i)).collect();
    format!("<tr>{}</tr>", cells.join(""))
}

#[test]
fn batting_scorecard_keeps_eight_cell_rows() {
    let html = format!(
        "<html><body><table class=\"ci-scorecard-table\"><tbody>{}{}</tbody></table><table class=\"ci-scorecard-table\"><tr><td>x</td></tr></table></body></html>",
        row(8),
        row(3)
    );
    let files = batting_scorecard(&html).unwrap();
    assert_eq!(files.len(), 2);
    assert_eq!(files[0].name, "batting_scorecard1.csv");
    assert_eq!(files[0].records.len(), 2);
    assert_eq!(files[0].records[0], strings(&["Player", "Dismissal", "R", "B", "M", "4s", "6s", "SR"]));
    assert_eq!(files[0].records[1], strings(&["c0", "c1", "c2", "c3", "c4", "c5", "c6", "c7"]));
    assert_eq!(files[1].name, "batting_scorecard2.csv");
    assert_eq!(files[1].records.len(), 1);
}

#[test]
fn bowling_scraper_drops_tables_without_rows() {
    let html = format!(
        "<html><body><table class=\"ds-table ds-table-md ds-table-auto\"><tbody>{}</tbody></table><table class=\"ds-table ds-table-md ds-table-auto\"><tbody>{}{}</tbody></table></body></html>",
        row(4),
        row(11),
        row(10)
    );
    let files = bowling_scraper(&html).unwrap();
    assert_eq!(files.len(), 1);
    assert_eq!(files[0].name, "bowling_scorecard2.csv");
    assert_eq!(files[0].records.len(), 2);
    assert_eq!(files[0].records[0][0], "Bowler_name");
    assert_eq!(files[0].records[1].len(), 11);
}

#[test]
fn tables_from_cells() {
    let tables = vec![vec![strings(&["a"; 8]), strings(&["b"; 11])], vec![strings(&["c"; 11])]];
    let batting = batting_tables(&tables);
    assert_eq!(batting.len(), 2);
    assert_eq!(batting[0].records.len(), 2);
    assert_eq!(batting[1].records.len(), 1);
    let bowling = bowling_tables(&tables);
    assert_eq!(bowling.len(), 2);
    assert_eq!(bowling[0].name, "bowling_scorecard1.csv");
    assert_eq!(bowling[1].name, "bowling_scorecard2.csv");
}

const VENUE_PAGE: &str = r#"<html><body>
<a href="/team/india">India</a>
<a href="/cricket-grounds/narendra-modi-stadium-ahmedabad-1100993">Narendra Modi Stadium</a>
<table class="ds-table"><tbody>
<tr><td><span>Toss</span></td><td>Chennai Super Kings, elected to field first</td></tr>
<tr><td>Series</td><td> Indian Premier League </td></tr>
<tr><td>Player Of The Match</td><td><a href="/cricketers/devon-conway-379140">Devon Conway</a></td></tr>
<tr><td>Match number</td><td>Final</td></tr>
<tr><td>Points</td><td>CSK 2</td></tr>
<tr><td>Series result</td><td>CSK won</td></tr>
<tr><td>Umpires</td><td>Someone</td></tr>
<tr><td>Alone</td></tr>
</tbody></table>
</body></html>"#;

#[test]
fn venue_name_finds_ground_link() {
    let stadium = venue_name(VENUE_PAGE).unwrap();
    assert_eq!(stadium, "/cricket-grounds/narendra-modi-stadium-ahmedabad-1100993");
    assert_eq!(stadium_file_stem(&stadium), "narendra-modi-stadium-ahmedabad-1100993");
    assert_eq!(venue_name("<p>none</p>").unwrap(), "");
}

#[test]
fn first_ground_link_picks_first_match() {
    let hrefs = vec![None, Some("/a".to_string()), Some("/cricket-grounds/x".to_string()), Some("/cricket-grounds/y".to_string())];
    assert_eq!(first_ground_link(&hrefs), "/cricket-grounds/x");
    assert_eq!(first_ground_link(&Vec::new()), "");
}

#[test]
fn venue_scapper_reads_details() {
    let file = venue_scapper(VENUE_PAGE, "stadium").unwrap();
    assert_eq!(file.name, "stadium.csv");
    assert_eq!(file.records[0], strings(&["Toss", "Series", "Season", "Player_Of_The_Match", "Match_number", "Match_date", "Points"]));
    assert_eq!(
        file.records[1],
        strings(&["Chennai Super Kings, elected to field first", "Indian Premier League", "", "devon-conway-379140", "Final", "", "CSK won"])
    );
}

#[test]
fn venue_info_later_rows_override() {
    let rows = vec![
        (strings(&["Toss", "A"]), None),
        (strings(&[" TOSS ", " ", "B", "C"]), None),
        (strings(&["player of the match", "x"]), None),
        (strings(&["Player of the match", "y"]), Some(None)),
    ];
    let info = venue_info(&rows);
    assert_eq!(info.toss, "B");
    assert_eq!(info.player_of_the_match, "");
}

#[test]
fn scrape_match_page_collects_everything() {
    let html = format!(
        "<html><body>{}<table class=\"ci-scorecard-table\"><tbody>{}</tbody></table></body></html>",
        VENUE_PAGE.replace("<html><body>", "").replace("</body></html>", ""),
        row(8)
    );
    let page = scrape_match_page("https://www.espncricinfo.com/series/ipl/final-1370353/full-scorecard", &html).unwrap();
    assert_eq!(page.directory, "final-1370353");
    assert_eq!(page.players.len(), 1);
    assert_eq!(page.players[0].id, "379140");
    assert_eq!(page.batting.len(), 1);
    assert_eq!(page.bowling.len(), 0);
    assert_eq!(page.venue.name, "narendra-modi-stadium-ahmedabad-1100993.csv");
}

#[test]
fn law_series_result_and_points_on_pages() {
    let page = |first: &str, a: &str, second: &str, b: &str| {
        format!(
            "<html><body><table class=\"ds-table\"><tbody><tr><td>{}</td><td>{}</td></tr><tr><td>{}</td><td>{}</td></tr></tbody></table></body></html>",
            first, a, second, b
        )
    };
    let file = venue_scapper(&page("Points", "A 2", "Series result", "B won"), "v").unwrap();
    assert_eq!(file.records[1][6], "B won");
    let file = venue_scapper(&page("Series result", "B won", "Points", "A 2"), "v").unwrap();
    assert_eq!(file.records[1][6], "A 2");
}
