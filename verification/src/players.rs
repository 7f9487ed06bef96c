//! The players named on a match page, and the staging list of their ids.

use vstd::prelude::*;
use crate::html::{named_elements, spec_named_elements};
use crate::pattern::{captures, compile, spec_captures, spec_compiles, CompiledPattern};
use crate::text::{chars_of, contains, contains_seq, string_of, string_of_str};

verus! {

/// The pattern of a link to a player's page: the player's name (words joined
/// by `-`) and numeric id after `/cricketers/`.
pub open spec fn player_link_pattern() -> Seq<char> {
    "/cricketers/([^/-]+(?:-[^/-]+)*)-(\\d+)"@
}

/// A player found on a match page.
pub struct PlayerEntry {
    /// The name as the link writes it, with `-` between words turned into spaces.
    pub name: String,
    /// The player's numeric id.
    pub id: String,
    /// The link text marks the player as captain with `(c)`.
    pub captain: bool,
}

impl View for PlayerEntry {
    type V = (Seq<char>, Seq<char>, bool);

    open spec fn view(&self) -> (Seq<char>, Seq<char>, bool) {
        (self.name@, self.id@, self.captain)
    }
}

impl DeepView for PlayerEntry {
    type V = (Seq<char>, Seq<char>, bool);

    open spec fn deep_view(&self) -> (Seq<char>, Seq<char>, bool) {
        self@
    }
}

/// `s` with every `-` turned into a space.
pub open spec fn dash_to_space(s: Seq<char>) -> Seq<char> {
    s.map_values(|c: char| if c == '-' { ' ' } else { c })
}

/// The player that one link names, if any: the link must point at
/// `/cricketers/` and the player pattern must capture a name and an id in it.
pub open spec fn link_player(href: Option<Seq<char>>, text: Seq<char>) -> Option<
    (Seq<char>, Seq<char>, bool),
> {
    match href {
        Some(h) => if contains_seq(h, "/cricketers/"@) {
            match spec_captures(player_link_pattern(), h) {
                Some(g) => if g.len() > 2 && g[1] is Some && g[2] is Some {
                    Some((dash_to_space(g[1]->0), g[2]->0, contains_seq(text, "(c)"@)))
                } else {
                    None
                },
                None => None,
            }
        } else {
            None
        },
        None => None,
    }
}

/// Some entry of `players` has the id `id`.
pub open spec fn has_id(players: Seq<(Seq<char>, Seq<char>, bool)>, id: Seq<char>) -> bool {
    exists|k: int| 0 <= k < players.len() && players[k].1 == id
}

/// The players that the links of a page name, in link order, each id kept
/// at its first link only.
pub open spec fn players_spec(links: Seq<(Option<Seq<char>>, Seq<char>)>) -> Seq<
    (Seq<char>, Seq<char>, bool),
>
    decreases links.len(),
{
    if links.len() == 0 {
        Seq::<(Seq<char>, Seq<char>, bool)>::empty()
    } else {
        let prev = players_spec(links.drop_last());
        match link_player(links.last().0, links.last().1) {
            Some(p) => if has_id(prev, p.1) {
                prev
            } else {
                prev.push(p)
            },
            None => prev,
        }
    }
}

/// `s` with every `-` turned into a space (`str::replace('-', " ")`).
pub fn dashes_to_spaces(s: &str) -> (res: String)
    ensures
        res@ == dash_to_space(s@),
{
    let cs = chars_of(s);
    let mut out: Vec<char> = Vec::new();
    let mut i: usize = 0;
    while i < cs.len()
        invariant
            i <= cs.len(),
            out@ == dash_to_space(cs@.take(i as int)),
        decreases cs.len() - i,
    {
        if cs[i] == '-' {
            out.push(' ');
        } else {
            out.push(cs[i]);
        }
        i = i + 1;
        assert(out@ =~= dash_to_space(cs@.take(i as int)));
    }
    assert(cs@.take(i as int) =~= cs@);
    string_of(&out)
}

/// The player that one link names, if any, as [`link_player`] says.
fn player_of_link(pattern: &CompiledPattern, href: &Option<String>, text: &String) -> (res: Option<
    PlayerEntry,
>)
    requires
        pattern.source() == player_link_pattern(),
    ensures
        res.deep_view() == link_player(href.deep_view(), text@),
{
    match href {
        None => None,
        Some(h) => {
            if !contains(h.as_str(), "/cricketers/") {
                return None;
            }
            match captures(pattern, h.as_str()) {
                None => None,
                Some(groups) => {
                    if groups.len() > 2 {
                        match (&groups[1], &groups[2]) {
                            (Some(name), Some(id)) => {
                                let entry = PlayerEntry {
                                    name: dashes_to_spaces(name.as_str()),
                                    id: id.clone(),
                                    captain: contains(text.as_str(), "(c)"),
                                };
                                assert(groups.deep_view()[1] == Some(name@));
                                assert(groups.deep_view()[2] == Some(id@));
                                Some(entry)
                            },
                            _ => {
                                assert(groups.deep_view()[1] == groups@[1].deep_view());
                                assert(groups.deep_view()[2] == groups@[2].deep_view());
                                None
                            },
                        }
                    } else {
                        None
                    }
                },
            }
        },
    }
}

/// Whether some entry of `players` has the id `id`.
fn has_id_exec(players: &Vec<PlayerEntry>, id: &String) -> (res: bool)
    ensures
        res == has_id(players.deep_view(), id@),
{
    let mut k: usize = 0;
    while k < players.len()
        invariant
            k <= players.len(),
            forall|j: int| 0 <= j < k ==> players.deep_view()[j].1 != id@,
        decreases players.len() - k,
    {
        if players[k].id == *id {
            assert(players.deep_view()[k as int].1 == id@);
            return true;
        }
        k = k + 1;
    }
    false
}

/// The players that the links of a page name, in link order, each id once
/// (at its first link); `None` when the player pattern does not compile.
pub fn match_players(links: &Vec<(Option<String>, String)>) -> (res: Option<Vec<PlayerEntry>>)
    ensures
        res is Some <==> spec_compiles(player_link_pattern()),
        res matches Some(players) ==> players.deep_view() == players_spec(links.deep_view()),
{
    let pattern = compile("/cricketers/([^/-]+(?:-[^/-]+)*)-(\\d+)")?;
    let ghost ls = links.deep_view();
    let mut out: Vec<PlayerEntry> = Vec::new();
    let mut i: usize = 0;
    while i < links.len()
        invariant
            i <= links.len(),
            ls == links.deep_view(),
            pattern.source() == player_link_pattern(),
            out.deep_view() == players_spec(ls.take(i as int)),
        decreases links.len() - i,
    {
        assert(ls.take(i + 1).drop_last() =~= ls.take(i as int));
        assert(ls.take(i + 1).last() == ls[i as int]);
        assert(ls[i as int] == (links@[i as int].0.deep_view(), links@[i as int].1@));
        let found = player_of_link(&pattern, &links[i].0, &links[i].1);
        match found {
            Some(p) => {
                if !has_id_exec(&out, &p.id) {
                    let ghost before = out.deep_view();
                    let ghost pv = p@;
                    out.push(p);
                    assert(out.deep_view() =~= before.push(pv));
                }
            },
            None => {},
        }
        i = i + 1;
    }
    assert(ls.take(i as int) =~= ls);
    Some(out)
}

/// The players that the `a` elements of a match page link to, in page order,
/// each id once; `None` when the player pattern does not compile.
pub fn extract_players(html: &str) -> (res: Option<Vec<PlayerEntry>>)
    ensures
        res is Some <==> spec_compiles(player_link_pattern()),
        res matches Some(players) ==> players.deep_view() == players_spec(
            spec_named_elements(html@, "a"@, "href"@),
        ),
{
    let links = named_elements(html, "a", "href");
    match_players(&links)
}


/// No two players found on a page share an id.
pub proof fn law_player_ids_distinct(links: Seq<(Option<Seq<char>>, Seq<char>)>)
    ensures
        ({
            let players = players_spec(links);
            forall|i: int, j: int|
                0 <= i < j < players.len() ==> (#[trigger] players[i]).1 != (#[trigger] players[j]).1
        }),
    decreases links.len(),
{
    if links.len() > 0 {
        law_player_ids_distinct(links.drop_last());
        let prev = players_spec(links.drop_last());
        match link_player(links.last().0, links.last().1) {
            Some(p) => {
                if !has_id(prev, p.1) {
                    let players = prev.push(p);
                    assert forall|i: int, j: int|
                        0 <= i < j < players.len() implies (#[trigger] players[i]).1 != (
                        #[trigger] players[j]).1 by {
                        if j == prev.len() {
                            assert(players[i] == prev[i]);
                        } else {
                            assert(players[i] == prev[i]);
                            assert(players[j] == prev[j]);
                        }
                    }
                }
            },
            None => {},
        }
    }
}

/// The staged ids after the players of one more page are added: each id not
/// staged yet is appended, in page order.
pub open spec fn merge_spec(staged: Seq<Seq<char>>, players: Seq<(Seq<char>, Seq<char>, bool)>) -> Seq<
    Seq<char>,
>
    decreases players.len(),
{
    if players.len() == 0 {
        staged
    } else {
        let prev = merge_spec(staged, players.drop_last());
        if prev.contains(players.last().1) {
            prev
        } else {
            prev.push(players.last().1)
        }
    }
}

/// Adds the ids of `players` to the staged ids, leaving out those already
/// staged: the staging list holds each id once.
pub fn stage_player_ids(staged: &mut Vec<String>, players: &Vec<PlayerEntry>)
    ensures
        final(staged).deep_view() == merge_spec(old(staged).deep_view(), players.deep_view()),
{
    let ghost start = staged.deep_view();
    let ghost ps = players.deep_view();
    let mut i: usize = 0;
    while i < players.len()
        invariant
            i <= players.len(),
            ps == players.deep_view(),
            staged.deep_view() == merge_spec(start, ps.take(i as int)),
        decreases players.len() - i,
    {
        assert(ps.take(i + 1).drop_last() =~= ps.take(i as int));
        assert(ps.take(i + 1).last() == ps[i as int]);
        let id = &players[i].id;
        let mut found = false;
        let mut k: usize = 0;
        while k < staged.len()
            invariant
                k <= staged.len(),
                !found ==> forall|j: int| 0 <= j < k ==> staged.deep_view()[j] != id@,
                found ==> staged.deep_view().contains(id@),
            decreases staged.len() - k,
        {
            if staged[k] == *id {
                assert(staged.deep_view()[k as int] == id@);
                found = true;
            }
            k = k + 1;
        }
        if !found {
            let ghost before = staged.deep_view();
            staged.push(id.clone());
            assert(staged.deep_view() =~= before.push(id@));
        }
        i = i + 1;
    }
    assert(ps.take(i as int) =~= ps);
}

/// Staging keeps ids distinct: merging into a list without repeats gives a
/// list without repeats, which holds every id that was staged or found.
pub proof fn law_staging_distinct(staged: Seq<Seq<char>>, players: Seq<(Seq<char>, Seq<char>, bool)>)
    requires
        staged.no_duplicates(),
    ensures
        merge_spec(staged, players).no_duplicates(),
        forall|id: Seq<char>|
            #[trigger] merge_spec(staged, players).contains(id) <==> (staged.contains(id)
                || has_id(players, id)),
    decreases players.len(),
{
    if players.len() > 0 {
        let init = players.drop_last();
        law_staging_distinct(staged, init);
        let prev = merge_spec(staged, init);
        let last = players.last();
        assert forall|id: Seq<char>| has_id(players, id) <==> (has_id(init, id) || last.1 == id) by {
            if has_id(players, id) {
                let k = choose|k: int| 0 <= k < players.len() && players[k].1 == id;
                if k < init.len() {
                    assert(init[k] == players[k]);
                }
            }
            if has_id(init, id) {
                let k = choose|k: int| 0 <= k < init.len() && init[k].1 == id;
                assert(players[k] == init[k]);
            }
            if last.1 == id {
                assert(players[players.len() - 1] == last);
            }
        }
        if !prev.contains(last.1) {
            let merged = prev.push(last.1);
            assert forall|i: int, j: int|
                0 <= i < merged.len() && 0 <= j < merged.len() && i != j implies merged[i]
                != merged[j] by {
                if i < prev.len() && j < prev.len() {
                    assert(merged[i] == prev[i] && merged[j] == prev[j]);
                } else if i < prev.len() {
                    assert(merged[i] == prev[i]);
                } else {
                    assert(merged[j] == prev[j]);
                }
            }
            assert forall|id: Seq<char>| #[trigger] merged.contains(id) <==> (prev.contains(id)
                || last.1 == id) by {
                if merged.contains(id) {
                    let k = choose|k: int| 0 <= k < merged.len() && merged[k] == id;
                    if k < prev.len() {
                        assert(prev[k] == id);
                    }
                }
                if prev.contains(id) {
                    let k = choose|k: int| 0 <= k < prev.len() && prev[k] == id;
                    assert(merged[k] == id);
                }
                if last.1 == id {
                    assert(merged[prev.len() as int] == id);
                }
            }
        }
    }
}

/// The rows of a match's players list: a header when asked for, then each
/// player's name, id and whether they captained (`true` or `false`).
pub open spec fn player_rows_spec(players: Seq<(Seq<char>, Seq<char>, bool)>, with_header: bool) -> Seq<
    Seq<Seq<char>>,
> {
    let rows = players.map_values(
        |p: (Seq<char>, Seq<char>, bool)|
            seq![p.0, p.1, if p.2 { "true"@ } else { "false"@ }],
    );
    if with_header {
        seq![seq!["player name"@, "player_id"@, "captain_flag"@]] + rows
    } else {
        rows
    }
}

/// The rows of a match's players list.
pub fn player_records(players: &Vec<PlayerEntry>, with_header: bool) -> (res: Vec<Vec<String>>)
    ensures
        res.deep_view() == player_rows_spec(players.deep_view(), with_header),
{
    let mut out: Vec<Vec<String>> = Vec::new();
    if with_header {
        let mut header: Vec<String> = Vec::new();
        header.push(string_of_str("player name"));
        header.push(string_of_str("player_id"));
        header.push(string_of_str("captain_flag"));
        let ghost hv = header.deep_view();
        assert(hv =~= seq!["player name"@, "player_id"@, "captain_flag"@]);
        out.push(header);
        assert(out.deep_view() =~= seq![hv]);
    }
    let ghost head = out.deep_view();
    let ghost ps = players.deep_view();
    let ghost all_rows = ps.map_values(
        |p: (Seq<char>, Seq<char>, bool)|
            seq![p.0, p.1, if p.2 { "true"@ } else { "false"@ }],
    );
    let mut i: usize = 0;
    while i < players.len()
        invariant
            i <= players.len(),
            ps == players.deep_view(),
            all_rows.len() == ps.len(),
            forall|k: int| 0 <= k < ps.len() ==> #[trigger] all_rows[k] == seq![ps[k].0, ps[k].1, if ps[k].2 { "true"@ } else { "false"@ }],
            out.deep_view() == head + all_rows.take(i as int),
        decreases players.len() - i,
    {
        let mut row: Vec<String> = Vec::new();
        row.push(players[i].name.clone());
        row.push(players[i].id.clone());
        if players[i].captain {
            row.push(string_of_str("true"));
        } else {
            row.push(string_of_str("false"));
        }
        let ghost before = out.deep_view();
        let ghost rv = row.deep_view();
        assert(rv =~= all_rows[i as int]);
        out.push(row);
        assert(out.deep_view() =~= before.push(rv));
        assert(all_rows.take(i + 1) =~= all_rows.take(i as int).push(all_rows[i as int]));
        i = i + 1;
    }
    assert(all_rows.take(i as int) =~= all_rows);
    out
}

/// The rows of the staging list: a `player_id` header when asked for, then
/// each id on a row of its own.
pub open spec fn staging_rows_spec(ids: Seq<Seq<char>>, with_header: bool) -> Seq<Seq<Seq<char>>> {
    let rows = ids.map_values(|id: Seq<char>| seq![id]);
    if with_header {
        seq![seq!["player_id"@]] + rows
    } else {
        rows
    }
}

/// The rows of the staging list.
pub fn write_player_info(ids: &Vec<String>, with_header: bool) -> (res: Vec<Vec<String>>)
    ensures
        res.deep_view() == staging_rows_spec(ids.deep_view(), with_header),
{
    let mut out: Vec<Vec<String>> = Vec::new();
    if with_header {
        let mut header: Vec<String> = Vec::new();
        header.push(string_of_str("player_id"));
        let ghost hv = header.deep_view();
        assert(hv =~= seq!["player_id"@]);
        out.push(header);
        assert(out.deep_view() =~= seq![hv]);
    }
    let ghost head = out.deep_view();
    let ghost is = ids.deep_view();
    let ghost all_rows = is.map_values(|id: Seq<char>| seq![id]);
    let mut i: usize = 0;
    while i < ids.len()
        invariant
            i <= ids.len(),
            is == ids.deep_view(),
            all_rows == is.map_values(|id: Seq<char>| seq![id]),
            out.deep_view() == head + all_rows.take(i as int),
        decreases ids.len() - i,
    {
        let mut row: Vec<String> = Vec::new();
        row.push(ids[i].clone());
        let ghost before = out.deep_view();
        let ghost rv = row.deep_view();
        assert(rv =~= all_rows[i as int]);
        out.push(row);
        assert(out.deep_view() =~= before.push(rv));
        assert(all_rows.take(i + 1) =~= all_rows.take(i as int).push(all_rows[i as int]));
        i = i + 1;
    }
    assert(all_rows.take(i as int) =~= all_rows);
    out
}


/// What a link gives: nothing without an `href`; otherwise a player only if the
/// `href` points at `/cricketers/`, whose name holds no `-`, and who is captain
/// exactly when the link text contains `(c)` anywhere.
pub proof fn law_link_player_fields(href: Seq<char>, text: Seq<char>)
    ensures
        link_player(None, text) is None,
        link_player(Some(href), text) matches Some(p) ==> {
            &&& p.2 == contains_seq(text, "(c)"@)
            &&& contains_seq(href, "/cricketers/"@)
            &&& !p.0.contains('-')
        },
{
    if link_player(Some(href), text) is Some {
        let p = link_player(Some(href), text)->0;
        let g = spec_captures(player_link_pattern(), href)->0;
        assert(p.0 == dash_to_space(g[1]->0));
        assert(!p.0.contains('-')) by {
            if p.0.contains('-') {
                let k = choose|k: int| 0 <= k < p.0.len() && p.0[k] == '-';
                assert(p.0[k] == (if (g[1]->0)[k] == '-' { ' ' } else { (g[1]->0)[k] }));
            }
        }
    }
}

/// Each player found on a page comes from a link that names that player, and
/// no earlier link names a player with the same id.
pub proof fn law_found_player_from_link(links: Seq<(Option<Seq<char>>, Seq<char>)>, i: int) -> (j: int)
    requires
        0 <= i < players_spec(links).len(),
    ensures
        0 <= j < links.len(),
        link_player(links[j].0, links[j].1) == Some(players_spec(links)[i]),
        forall|m: int|
            0 <= m < j ==> !(#[trigger] link_player(links[m].0, links[m].1) matches Some(q) && q.1
                == players_spec(links)[i].1),
    decreases links.len(),
{
    let init = links.drop_last();
    let prev = players_spec(init);
    assert(links.last() == links[links.len() - 1]);
    if i < prev.len() {
        let j = law_found_player_from_link(init, i);
        assert(players_spec(links)[i] == prev[i]);
        assert(init[j] == links[j]);
        assert forall|m: int| 0 <= m < j implies !(#[trigger] link_player(links[m].0, links[m].1) matches Some(q)
            && q.1 == players_spec(links)[i].1) by {
            assert(init[m] == links[m]);
        }
        j
    } else {
        let j = links.len() - 1;
        let p = players_spec(links)[i];
        assert forall|m: int| 0 <= m < j implies !(#[trigger] link_player(links[m].0, links[m].1) matches Some(q)
            && q.1 == p.1) by {
            if link_player(links[m].0, links[m].1) is Some {
                let q = link_player(links[m].0, links[m].1)->0;
                if q.1 == p.1 {
                    assert(init[m] == links[m]);
                    let i2 = law_link_player_found(init, m);
                    assert(prev[i2].1 == p.1);
                    assert(has_id(prev, p.1));
                }
            }
        }
        j
    }
}

/// Every player that a link names is found on the page: some found player has
/// that id.
pub proof fn law_link_player_found(links: Seq<(Option<Seq<char>>, Seq<char>)>, j: int) -> (i: int)
    requires
        0 <= j < links.len(),
        link_player(links[j].0, links[j].1) is Some,
    ensures
        0 <= i < players_spec(links).len(),
        players_spec(links)[i].1 == (link_player(links[j].0, links[j].1)->0).1,
    decreases links.len(),
{
    let init = links.drop_last();
    let prev = players_spec(init);
    assert(links.last() == links[links.len() - 1]);
    let id = (link_player(links[j].0, links[j].1)->0).1;
    if j < init.len() {
        assert(init[j] == links[j]);
        let i = law_link_player_found(init, j);
        assert(players_spec(links)[i] == prev[i]);
        i
    } else {
        if has_id(prev, id) {
            let k = choose|k: int| 0 <= k < prev.len() && prev[k].1 == id;
            assert(players_spec(links)[k] == prev[k]);
            k
        } else {
            prev.len() as int
        }
    }
}


/// Staging only appends: the ids staged before stay first, in their order.
pub proof fn law_staging_keeps_earlier_ids(staged: Seq<Seq<char>>, players: Seq<(Seq<char>, Seq<char>, bool)>)
    ensures
        merge_spec(staged, players).len() >= staged.len(),
        merge_spec(staged, players).take(staged.len() as int) == staged,
    decreases players.len(),
{
    if players.len() == 0 {
        assert(staged.take(staged.len() as int) =~= staged);
    } else {
        law_staging_keeps_earlier_ids(staged, players.drop_last());
        let prev = merge_spec(staged, players.drop_last());
        if !prev.contains(players.last().1) {
            assert(prev.push(players.last().1).take(staged.len() as int) =~= prev.take(
                staged.len() as int,
            ));
        }
    }
}

/// The players list has a row per player after the optional header, in the
/// players' order: the player's name, id, and `true` exactly when captain
/// (`false` otherwise).
pub proof fn law_player_rows(players: Seq<(Seq<char>, Seq<char>, bool)>, with_header: bool)
    ensures
        ({
            let rows = player_rows_spec(players, with_header);
            let h: int = if with_header { 1 } else { 0 };
            &&& rows.len() == players.len() + h
            &&& with_header ==> rows[0] == seq!["player name"@, "player_id"@, "captain_flag"@]
            &&& forall|k: int|
                0 <= k < players.len() ==> (#[trigger] rows[k + h]).len() == 3 && rows[k + h][0]
                    == players[k].0 && rows[k + h][1] == players[k].1 && (rows[k + h][2]
                    == "true"@ <==> players[k].2) && (rows[k + h][2] == "false"@ <==> !players[k].2)
        }),
{
    reveal_strlit("true");
    reveal_strlit("false");
    assert("true"@.len() == 4 && "false"@.len() == 5);
}

} // verus!
