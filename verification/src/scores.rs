//! The two score mutations: crediting a team, and crediting a player together
//! with that player's team.
//!
//! Lookups are first-match linear scans in stored order; a miss changes
//! nothing. Counters saturate at [`MAX_SCORE`] instead of overflowing.

use vstd::prelude::*;
use crate::model::{PlayerView, Team, TeamView, MAX_SCORE, teams_view};

verus! {

/// A counter after `amount` was added to it: the exact sum while it fits the
/// 16-bit range, the top of the range from there on.
pub open spec fn raised(score: nat, amount: nat) -> nat {
    if score + amount <= MAX_SCORE {
        score + amount
    } else {
        MAX_SCORE as nat
    }
}

/// `i` is the position of the first team called `name`.
pub open spec fn is_first_team(teams: Seq<TeamView>, name: Seq<char>, i: int) -> bool {
    &&& 0 <= i < teams.len()
    &&& teams[i].name == name
    &&& forall|j: int| 0 <= j < i ==> (#[trigger] teams[j]).name != name
}

/// Some team is called `name`.
pub open spec fn has_team(teams: Seq<TeamView>, name: Seq<char>) -> bool {
    exists|i: int| 0 <= i < teams.len() && (#[trigger] teams[i]).name == name
}

/// The position of the first team called `name`, if there is one.
pub open spec fn team_index(teams: Seq<TeamView>, name: Seq<char>) -> Option<int> {
    if exists|i: int| is_first_team(teams, name, i) {
        Some(choose|i: int| is_first_team(teams, name, i))
    } else {
        None
    }
}

/// A team whose total was raised by `amount`; its name and players stay.
pub open spec fn credited_team(team: TeamView, amount: nat) -> TeamView {
    TeamView { total_score: raised(team.total_score, amount), ..team }
}

/// The teams after `amount` was credited to the first team called `name`:
/// that one team has its total raised, and nothing else differs. Without
/// such a team the teams stay as they are.
pub open spec fn with_team_credit(teams: Seq<TeamView>, name: Seq<char>, amount: nat) -> Seq<
    TeamView,
> {
    match team_index(teams, name) {
        Some(i) => teams.update(i, credited_team(teams[i], amount)),
        None => teams,
    }
}

/// At most one position is the first match, and `team_index` names it.
pub proof fn lemma_first_team_is_index(teams: Seq<TeamView>, name: Seq<char>, i: int)
    requires
        is_first_team(teams, name, i),
    ensures
        team_index(teams, name) == Some(i),
{
    let c = choose|c: int| is_first_team(teams, name, c);
    assert(is_first_team(teams, name, c));
    if c < i {
        assert(teams[c].name != name);
    } else if i < c {
        assert(teams[i].name != name);
    }
}

/// Without a team of that name there is no first match.
pub proof fn lemma_no_team_no_index(teams: Seq<TeamView>, name: Seq<char>)
    requires
        !has_team(teams, name),
    ensures
        team_index(teams, name) is None,
{
    if exists|i: int| is_first_team(teams, name, i) {
        let i = choose|i: int| is_first_team(teams, name, i);
        assert(teams[i].name == name);
    }
}

/// Adds `score` to the total of the first team called `team_name`, saturating
/// at [`MAX_SCORE`]. Teams after the first match are not looked at, and a
/// name that no team carries leaves everything as it was.
pub fn add_team_score(teams: &mut Vec<Team>, team_name: &str, score: u16)
    ensures
        teams_view(final(teams)@) == with_team_credit(
            teams_view(old(teams)@),
            team_name@,
            score as nat,
        ),
{
    let wanted = team_name.to_owned();
    let mut i: usize = 0;
    while i < teams.len()
        invariant
            teams@ == old(teams)@,
            wanted@ == team_name@,
            i <= teams.len(),
            forall|j: int| 0 <= j < i ==> (#[trigger] teams@[j]).name@ != team_name@,
        decreases teams.len() - i,
    {
        if teams[i].name == wanted {
            let raised_total = teams[i].total_score.saturating_add(score);
            teams[i].total_score = raised_total;
            proof {
                let before = teams_view(old(teams)@);
                let after = teams_view(teams@);
                assert(is_first_team(before, team_name@, i as int));
                lemma_first_team_is_index(before, team_name@, i as int);
                assert(after =~= before.update(i as int, credited_team(before[i as int], score as nat)));
            }
            return ;
        }
        i += 1;
    }
    proof {
        let before = teams_view(old(teams)@);
        assert(!has_team(before, team_name@));
        lemma_no_team_no_index(before, team_name@);
    }
}

/// `(i, k)` is the place of the first player called `uuid`: no team before
/// team `i` has such a player, and in team `i` no player before `k` is one.
pub open spec fn is_first_player(teams: Seq<TeamView>, uuid: Seq<char>, i: int, k: int) -> bool {
    &&& 0 <= i < teams.len()
    &&& 0 <= k < teams[i].players.len()
    &&& teams[i].players[k].uuid == uuid
    &&& forall|b: int| 0 <= b < k ==> (#[trigger] teams[i].players[b]).uuid != uuid
    &&& forall|a: int, b: int|
        0 <= a < i && 0 <= b < teams[a].players.len() ==> (#[trigger] teams[a].players[b]).uuid
            != uuid
}

/// Some player of some team is called `uuid`.
pub open spec fn has_player(teams: Seq<TeamView>, uuid: Seq<char>) -> bool {
    exists|a: int, b: int|
        0 <= a < teams.len() && 0 <= b < teams[a].players.len() && (
        #[trigger] teams[a].players[b]).uuid == uuid
}

/// The place (team, then player within it) of the first player called
/// `uuid`, if there is one.
pub open spec fn player_index(teams: Seq<TeamView>, uuid: Seq<char>) -> Option<(int, int)> {
    if exists|i: int, k: int| is_first_player(teams, uuid, i, k) {
        Some(choose|i: int, k: int| is_first_player(teams, uuid, i, k))
    } else {
        None
    }
}

/// A player whose score was raised by `amount`; the identifier stays.
pub open spec fn credited_player(player: PlayerView, amount: nat) -> PlayerView {
    PlayerView { score: raised(player.score, amount), ..player }
}

/// A team after `amount` was credited to its player at position `k`: that
/// player's score and the team's total are both raised.
pub open spec fn credited_member(team: TeamView, k: int, amount: nat) -> TeamView {
    TeamView {
        name: team.name,
        total_score: raised(team.total_score, amount),
        players: team.players.update(k, credited_player(team.players[k], amount)),
    }
}

/// The teams after `amount` was credited to the first player called `uuid`:
/// that player's score and the total of the team holding that player are
/// raised, and nothing else differs. Without such a player the teams stay as
/// they are.
pub open spec fn with_player_credit(teams: Seq<TeamView>, uuid: Seq<char>, amount: nat) -> Seq<
    TeamView,
> {
    match player_index(teams, uuid) {
        Some((i, k)) => teams.update(i, credited_member(teams[i], k, amount)),
        None => teams,
    }
}

/// At most one place is the first match, and `player_index` names it.
pub proof fn lemma_first_player_is_index(teams: Seq<TeamView>, uuid: Seq<char>, i: int, k: int)
    requires
        is_first_player(teams, uuid, i, k),
    ensures
        player_index(teams, uuid) == Some((i, k)),
{
    let c = choose|i: int, k: int| is_first_player(teams, uuid, i, k);
    assert(is_first_player(teams, uuid, c.0, c.1));
    if c.0 < i {
        assert(teams[c.0].players[c.1].uuid != uuid);
    } else if i < c.0 {
        assert(teams[i].players[k].uuid != uuid);
    } else if c.1 < k {
        assert(teams[i].players[c.1].uuid != uuid);
    } else if k < c.1 {
        assert(teams[i].players[k].uuid != uuid);
    }
}

/// Without a player of that name there is no first match.
pub proof fn lemma_no_player_no_index(teams: Seq<TeamView>, uuid: Seq<char>)
    requires
        !has_player(teams, uuid),
    ensures
        player_index(teams, uuid) is None,
{
    if exists|i: int, k: int| is_first_player(teams, uuid, i, k) {
        let (i, k) = choose|i: int, k: int| is_first_player(teams, uuid, i, k);
        assert(teams[i].players[k].uuid == uuid);
    }
}

/// Adds `score` to the first player called `uuid` and to the total of the
/// team holding that player, each saturating at [`MAX_SCORE`]. Teams are
/// scanned in stored order and players in stored order within each team; the
/// scan ends at the first match. An identifier that no player carries leaves
/// everything as it was.
pub fn add_player_score(teams: &mut Vec<Team>, uuid: &str, score: u16)
    ensures
        teams_view(final(teams)@) == with_player_credit(
            teams_view(old(teams)@),
            uuid@,
            score as nat,
        ),
{
    let wanted = uuid.to_owned();
    let mut i: usize = 0;
    while i < teams.len()
        invariant
            teams@ == old(teams)@,
            wanted@ == uuid@,
            i <= teams.len(),
            forall|a: int, b: int|
                0 <= a < i && 0 <= b < teams@[a].players@.len() ==> (
                #[trigger] teams@[a].players@[b]).uuid@ != uuid@,
        decreases teams.len() - i,
    {
        let mut k: usize = 0;
        while k < teams[i].players.len()
            invariant
                teams@ == old(teams)@,
                wanted@ == uuid@,
                i < teams.len(),
                k <= teams@[i as int].players@.len(),
                forall|a: int, b: int|
                    0 <= a < i && 0 <= b < teams@[a].players@.len() ==> (
                    #[trigger] teams@[a].players@[b]).uuid@ != uuid@,
                forall|b: int|
                    0 <= b < k ==> (#[trigger] teams@[i as int].players@[b]).uuid@ != uuid@,
            decreases teams@[i as int].players@.len() - k,
        {
            if teams[i].players[k].uuid == wanted {
                let raised_total = teams[i].total_score.saturating_add(score);
                let raised_score = teams[i].players[k].score.saturating_add(score);
                teams[i].total_score = raised_total;
                teams[i].players[k].score = raised_score;
                proof {
                    let before = teams_view(old(teams)@);
                    let after = teams_view(teams@);
                    assert(is_first_player(before, uuid@, i as int, k as int));
                    lemma_first_player_is_index(before, uuid@, i as int, k as int);
                    let member = credited_member(before[i as int], k as int, score as nat);
                    assert(after[i as int].players =~= member.players);
                    assert(after =~= before.update(i as int, member));
                }
                return ;
            }
            k += 1;
        }
        i += 1;
    }
    proof {
        let before = teams_view(old(teams)@);
        assert(!has_player(before, uuid@));
        lemma_no_player_no_index(before, uuid@);
    }
}

} // verus!
