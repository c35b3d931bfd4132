//! Players, teams, and their mathematical views.

use vstd::prelude::*;

verus! {

/// Scores are 16-bit counters; additions saturate at this value.
pub const MAX_SCORE: u16 = 65535;

/// What a player is, as a mathematical value.
pub struct PlayerView {
    pub uuid: Seq<char>,
    pub score: nat,
}

/// What a team is, as a mathematical value.
pub struct TeamView {
    pub name: Seq<char>,
    pub total_score: nat,
    pub players: Seq<PlayerView>,
}

/// A scored individual, identified by an opaque string.
#[derive(Debug, PartialEq, Eq)]
pub struct Player {
    pub uuid: String,
    pub score: u16,
}

/// A named group with its own running total and its players in stored order.
///
/// The total is a counter of its own: it is raised by credits to the team and
/// by credits to its players, and is never recomputed from the players'
/// scores.
#[derive(Debug, PartialEq, Eq)]
pub struct Team {
    pub name: String,
    pub total_score: u16,
    pub players: Vec<Player>,
}

impl View for Player {
    type V = PlayerView;

    open spec fn view(&self) -> PlayerView {
        PlayerView { uuid: self.uuid@, score: self.score as nat }
    }
}

/// The views of a run of players, in order.
pub open spec fn players_view(players: Seq<Player>) -> Seq<PlayerView> {
    players.map_values(|p: Player| p@)
}

impl View for Team {
    type V = TeamView;

    open spec fn view(&self) -> TeamView {
        TeamView {
            name: self.name@,
            total_score: self.total_score as nat,
            players: players_view(self.players@),
        }
    }
}

/// The views of a run of teams, in order.
pub open spec fn teams_view(teams: Seq<Team>) -> Seq<TeamView> {
    teams.map_values(|t: Team| t@)
}

/// Every counter lies within the 16-bit range, as it does in the view of any
/// teams that exist.
pub open spec fn counters_in_range(teams: Seq<TeamView>) -> bool {
    &&& forall|i: int| 0 <= i < teams.len() ==> (#[trigger] teams[i]).total_score <= MAX_SCORE
    &&& forall|i: int, k: int|
        0 <= i < teams.len() && 0 <= k < teams[i].players.len() ==> (
        #[trigger] teams[i].players[k]).score <= MAX_SCORE
}

/// The view of any teams has its counters in range.
pub proof fn lemma_views_in_range(teams: Seq<Team>)
    ensures
        counters_in_range(teams_view(teams)),
{
}

/// The views of a run of strings, in order.
pub open spec fn strings_view(strings: Seq<String>) -> Seq<Seq<char>> {
    strings.map_values(|s: String| s@)
}

impl Clone for Player {
    fn clone(&self) -> (r: Self)
        ensures
            r == *self,
    {
        Player { uuid: self.uuid.clone(), score: self.score }
    }
}

impl Clone for Team {
    fn clone(&self) -> (r: Self)
        ensures
            r@ == self@,
    {
        let players = self.players.clone();
        assert(players_view(players@) =~= players_view(self.players@));
        Team { name: self.name.clone(), total_score: self.total_score, players }
    }
}

/// A copy of every team, in the same order.
pub fn clone_teams(teams: &Vec<Team>) -> (r: Vec<Team>)
    ensures
        teams_view(r@) == teams_view(teams@),
{
    let r = teams.clone();
    assert(teams_view(r@) =~= teams_view(teams@));
    r
}

/// A copy of every string, in the same order.
pub fn clone_strings(strings: &Vec<String>) -> (r: Vec<String>)
    ensures
        strings_view(r@) == strings_view(strings@),
{
    let r = strings.clone();
    assert(strings_view(r@) =~= strings_view(strings@));
    r
}

} // verus!
