use web_scrapper::cleanup::clean_folders;
use web_scrapper::latest::update_latest_info;
use web_scrapper::player::{
    athlete_url, master_record, style_description, update_master, MasterAction, MasterEvent,
    PlayerInfo, Style,
};

fn strings(items: &[&str]) -> Vec<String> {
    items.iter().map(|s| s.to_string()).collect()
}

fn dhoni() -> PlayerInfo {
    PlayerInfo {
        id: "28081".to_string(),
        firstName: "Mahendra Singh".to_string(),
        lastName: "Dhoni".to_string(),
        dateOfBirth: "1981-07-07T00:00Z".to_string(),
        style: vec![
            Style { description: "right-hand bat".to_string() },
            Style { description: "right-arm medium".to_string() },
        ],
        country: 6,
    }
}

#[test]
fn clean_folders_lists_output_folders() {
    assert_eq!(clean_folders(), strings(&["./Match_details", "./staging_area"]));
}

#[test]
fn style_description_joins_with_commas() {
    assert_eq!(style_description(&dhoni()), "right-hand bat,right-arm medium");
    let mut none = dhoni();
    none.style = Vec::new();
    assert_eq!(style_description(&none), "");
}

#[test]
fn law_style_description_splits_back_on_values() {
    let joined = style_description(&dhoni());
    let parts: Vec<&str> = joined.split(',').collect();
    assert_eq!(parts, vec!["right-hand bat", "right-arm medium"]);
}

#[test]
fn athlete_url_appends_id() {
    assert_eq!(athlete_url("28081"), "http://core.espnuk.org/v2/sports/cricket/athletes/28081");
}

#[test]
fn master_record_fields() {
    let mut info = dhoni();
    info.country = -1;
    assert_eq!(
        master_record("28081", &info),
        strings(&["28081", "Mahendra Singh", "Dhoni", "1981-07-07T00:00Z", "right-hand bat,right-arm medium", "-1"])
    );
}

#[test]
fn update_master_skips_empty_rows() {
    assert!(matches!(update_master(MasterEvent::Row(Vec::new())), MasterAction::Skip));
    assert!(matches!(update_master(MasterEvent::FetchFailed), MasterAction::Skip));
}

#[test]
fn update_master_fetches_first_field() {
    match update_master(MasterEvent::Row(strings(&["253802", "extra"]))) {
        MasterAction::Fetch { player_id, url } => {
            assert_eq!(player_id, "253802");
            assert_eq!(url, "http://core.espnuk.org/v2/sports/cricket/athletes/253802");
        }
        _ => panic!("expected a fetch"),
    }
}

#[test]
fn update_master_appends_profile_row() {
    match update_master(MasterEvent::Profile { player_id: "28081".to_string(), info: dhoni() }) {
        MasterAction::Append(row) => assert_eq!(
            row,
            strings(&["28081", "Mahendra Singh", "Dhoni", "1981-07-07T00:00Z", "right-hand bat,right-arm medium", "6"])
        ),
        _ => panic!("expected a row"),
    }
}

#[test]
fn update_latest_info_keeps_unknown_ids() {
    let staging = strings(&["player_id", "1", "2", "", "2"]);
    let master = strings(&["1", "x", ""]);
    assert_eq!(update_latest_info(&staging, &master), strings(&["player_id", "2", "", "2"]));
}

#[test]
fn law_new_ids_idempotent_on_values() {
    let staging = strings(&["7", "8", "9", "8"]);
    let master = strings(&["9"]);
    let found = update_latest_info(&staging, &master);
    assert_eq!(update_latest_info(&found, &master), found);
}

#[test]
fn law_new_ids_absorbed_on_values() {
    let staging = strings(&["7", "", "8", "9"]);
    let master = strings(&["9"]);
    let found = update_latest_info(&staging, &master);
    let mut grown = master.clone();
    grown.extend(found.iter().cloned());
    assert_eq!(update_latest_info(&staging, &grown), strings(&[""]));
}
