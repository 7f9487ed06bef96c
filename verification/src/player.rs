//! Player profiles as the athlete service returns them, and the master-data
//! rows built from them.

use vstd::prelude::*;
use crate::text::{law_split_join, split_spec, join_spec, join_strings, signed_decimal_spec, signed_decimal_string, string_of_str};

verus! {

/// One playing style of a player.
pub struct Style {
    pub description: String,
}

/// A player's profile: the fields of the athlete document that the master
/// data keeps.
#[allow(non_snake_case)]
pub struct PlayerInfo {
    pub id: String,
    pub firstName: String,
    pub lastName: String,
    pub dateOfBirth: String,
    pub style: Vec<Style>,
    pub country: i32,
}

/// The descriptions of a player's styles, in order.
pub open spec fn style_descriptions(info: PlayerInfo) -> Seq<Seq<char>> {
    info.style@.map_values(|s: Style| s.description@)
}

/// The descriptions of all the player's styles, joined with `,` in order
/// (the empty string when there is none).
pub fn style_description(player_info: &PlayerInfo) -> (res: String)
    ensures
        res@ == join_spec(style_descriptions(*player_info), ","@),
{
    let mut parts: Vec<String> = Vec::new();
    let mut i: usize = 0;
    while i < player_info.style.len()
        invariant
            i <= player_info.style.len(),
            parts.deep_view() == style_descriptions(*player_info).take(i as int),
        decreases player_info.style.len() - i,
    {
        let ghost before = parts.deep_view();
        parts.push(player_info.style[i].description.clone());
        assert(parts.deep_view() =~= style_descriptions(*player_info).take(i + 1)) by {
            assert(style_descriptions(*player_info).take(i + 1) =~= before.push(
                player_info.style@[i as int].description@,
            ));
        }
        i = i + 1;
    }
    assert(style_descriptions(*player_info).take(i as int) =~= style_descriptions(*player_info));
    join_strings(&parts, ",")
}

/// The style text splits back at `,` into the player's style descriptions,
/// when there is at least one and none holds a `,`.
pub proof fn law_style_description_splits_back(player_info: PlayerInfo)
    requires
        style_descriptions(player_info).len() >= 1,
        forall|k: int|
            0 <= k < style_descriptions(player_info).len() ==> !(#[trigger] style_descriptions(
                player_info,
            )[k]).contains(','),
    ensures
        split_spec(join_spec(style_descriptions(player_info), ","@), ',') == style_descriptions(
            player_info,
        ),
{
    reveal_strlit(",");
    assert(","@ =~= seq![',']);
    law_split_join(style_descriptions(player_info), ',');
}

/// The address of a player's profile at the athlete service.
pub fn athlete_url(player_id: &str) -> (res: String)
    ensures
        res@ == "http://core.espnuk.org/v2/sports/cricket/athletes/"@ + player_id@,
{
    let mut url = string_of_str("http://core.espnuk.org/v2/sports/cricket/athletes/");
    url.append(player_id);
    url
}

/// The master-data row of a player: id, first name, last name, date of
/// birth, styles and country code.
pub open spec fn master_row_spec(player_id: Seq<char>, info: PlayerInfo) -> Seq<Seq<char>> {
    seq![
        player_id,
        info.firstName@,
        info.lastName@,
        info.dateOfBirth@,
        join_spec(style_descriptions(info), ","@),
        signed_decimal_spec(info.country as int),
    ]
}

/// The master-data row of a player.
pub fn master_record(player_id: &str, info: &PlayerInfo) -> (res: Vec<String>)
    ensures
        res.deep_view() == master_row_spec(player_id@, *info),
{
    let mut row: Vec<String> = Vec::new();
    row.push(string_of_str(player_id));
    row.push(info.firstName.clone());
    row.push(info.lastName.clone());
    row.push(info.dateOfBirth.clone());
    row.push(style_description(info));
    row.push(signed_decimal_string(info.country));
    assert(row.deep_view() =~= master_row_spec(player_id@, *info));
    row
}

/// The id that a row of the list of new players names: its first field, or
/// `default_value` for a row without fields.
pub open spec fn row_player_id(row: Seq<Seq<char>>) -> Seq<char> {
    if row.len() > 0 {
        row[0]
    } else {
        "default_value"@
    }
}

/// What the master-data update is told: a row of the list of new players
/// was read, a profile arrived for a player, or fetching a profile failed.
pub enum MasterEvent {
    Row(Vec<String>),
    Profile { player_id: String, info: PlayerInfo },
    FetchFailed,
}

/// What the master-data update does next: nothing, fetch a player's profile
/// from an address, or append a row to the master data.
pub enum MasterAction {
    Skip,
    Fetch { player_id: String, url: String },
    Append(Vec<String>),
}

/// One step of the master-data update. A row without fields is skipped; any
/// other row asks for the profile of the player it names; a profile becomes
/// the player's master-data row; a failed fetch is skipped.
pub fn update_master(event: MasterEvent) -> (res: MasterAction)
    ensures
        match event {
            MasterEvent::Row(row) => if row@.len() == 0 {
                res is Skip
            } else {
                res matches MasterAction::Fetch { player_id, url } && player_id@ == row_player_id(
                    row.deep_view(),
                ) && url@ == "http://core.espnuk.org/v2/sports/cricket/athletes/"@
                    + row_player_id(row.deep_view())
            },
            MasterEvent::Profile { player_id, info } => res matches MasterAction::Append(r)
                && r.deep_view() == master_row_spec(player_id@, info),
            MasterEvent::FetchFailed => res is Skip,
        },
{
    match event {
        MasterEvent::Row(row) => {
            if row.len() == 0 {
                MasterAction::Skip
            } else {
                let player_id = row[0].clone();
                assert(player_id@ == row.deep_view()[0]);
                let url = athlete_url(player_id.as_str());
                MasterAction::Fetch { player_id, url }
            }
        },
        MasterEvent::Profile { player_id, info } => {
            MasterAction::Append(master_record(player_id.as_str(), &info))
        },
        MasterEvent::FetchFailed => MasterAction::Skip,
    }
}

} // verus!
