//! What holds of the score mutations, whatever the teams are.

use vstd::prelude::*;
use crate::model::{TeamView, MAX_SCORE, counters_in_range};
use crate::scores::{
    credited_member, has_player, has_team, is_first_player, is_first_team,
    lemma_first_player_is_index, lemma_first_team_is_index, lemma_no_player_no_index,
    lemma_no_team_no_index, player_index, raised, team_index, with_player_credit,
    with_team_credit,
};

verus! {

/// A team of the wanted name at position `at` means that some position at or
/// before `at` is the first match.
proof fn lemma_first_team_exists(teams: Seq<TeamView>, name: Seq<char>, at: int)
    requires
        0 <= at < teams.len(),
        teams[at].name == name,
    ensures
        exists|i: int| is_first_team(teams, name, i),
    decreases at,
{
    if exists|j: int| 0 <= j < at && (#[trigger] teams[j]).name == name {
        let j = choose|j: int| 0 <= j < at && (#[trigger] teams[j]).name == name;
        lemma_first_team_exists(teams, name, j);
    } else {
        assert(is_first_team(teams, name, at));
    }
}

/// A player of the wanted identifier at place `(a, b)` means that some place
/// is the first match.
proof fn lemma_first_player_exists(teams: Seq<TeamView>, uuid: Seq<char>, a: int, b: int)
    requires
        0 <= a < teams.len(),
        0 <= b < teams[a].players.len(),
        teams[a].players[b].uuid == uuid,
    ensures
        exists|i: int, k: int| is_first_player(teams, uuid, i, k),
    decreases a, b,
{
    if exists|c: int, d: int|
        0 <= c < a && 0 <= d < teams[c].players.len() && (#[trigger] teams[c].players[d]).uuid
            == uuid {
        let (c, d) = choose|c: int, d: int|
            0 <= c < a && 0 <= d < teams[c].players.len() && (#[trigger] teams[c].players[d]).uuid
                == uuid;
        lemma_first_player_exists(teams, uuid, c, d);
    } else if exists|d: int| 0 <= d < b && (#[trigger] teams[a].players[d]).uuid == uuid {
        let d = choose|d: int| 0 <= d < b && (#[trigger] teams[a].players[d]).uuid == uuid;
        lemma_first_player_exists(teams, uuid, a, d);
    } else {
        assert(is_first_player(teams, uuid, a, b));
    }
}

/// A credit to a team finds its target exactly when some team carries the
/// name, and the target is then the first such team.
pub proof fn lemma_team_found_iff_present(teams: Seq<TeamView>, name: Seq<char>)
    ensures
        team_index(teams, name) is Some <==> has_team(teams, name),
        team_index(teams, name) matches Some(i) ==> is_first_team(teams, name, i),
{
    if has_team(teams, name) {
        let at = choose|i: int| 0 <= i < teams.len() && (#[trigger] teams[i]).name == name;
        lemma_first_team_exists(teams, name, at);
    } else {
        lemma_no_team_no_index(teams, name);
    }
}

/// A credit to a player finds its target exactly when some player carries
/// the identifier, and the target is then the first such player.
pub proof fn lemma_player_found_iff_present(teams: Seq<TeamView>, uuid: Seq<char>)
    ensures
        player_index(teams, uuid) is Some <==> has_player(teams, uuid),
        player_index(teams, uuid) matches Some(p) ==> is_first_player(teams, uuid, p.0, p.1),
{
    if has_player(teams, uuid) {
        let (a, b) = choose|a: int, b: int|
            0 <= a < teams.len() && 0 <= b < teams[a].players.len() && (
            #[trigger] teams[a].players[b]).uuid == uuid;
        lemma_first_player_exists(teams, uuid, a, b);
    } else {
        lemma_no_player_no_index(teams, uuid);
    }
}

/// A credit to a team whose sum fits the counter raises the total of the
/// first team of that name by exactly the amount. That team's name and
/// players, every other team, and the number of teams stay as they were.
pub proof fn lemma_team_credit_is_exact(
    teams: Seq<TeamView>,
    name: Seq<char>,
    amount: nat,
    i: int,
)
    requires
        is_first_team(teams, name, i),
        teams[i].total_score + amount <= MAX_SCORE,
    ensures
        with_team_credit(teams, name, amount).len() == teams.len(),
        with_team_credit(teams, name, amount)[i].total_score == teams[i].total_score + amount,
        with_team_credit(teams, name, amount)[i].name == teams[i].name,
        with_team_credit(teams, name, amount)[i].players == teams[i].players,
        forall|j: int|
            0 <= j < teams.len() && j != i ==> #[trigger] with_team_credit(teams, name, amount)[j]
                == teams[j],
{
    lemma_first_team_is_index(teams, name, i);
}

/// A credit to a player whose sums fit the counters raises the score of the
/// first player of that identifier, and the total of the team holding that
/// player, by exactly the amount. That player's identifier, the team's name,
/// the team's other players, every other team, and the numbers of teams and
/// players stay as they were.
pub proof fn lemma_player_credit_is_exact(
    teams: Seq<TeamView>,
    uuid: Seq<char>,
    amount: nat,
    i: int,
    k: int,
)
    requires
        is_first_player(teams, uuid, i, k),
        teams[i].players[k].score + amount <= MAX_SCORE,
        teams[i].total_score + amount <= MAX_SCORE,
    ensures
        with_player_credit(teams, uuid, amount).len() == teams.len(),
        with_player_credit(teams, uuid, amount)[i].players.len() == teams[i].players.len(),
        with_player_credit(teams, uuid, amount)[i].players[k].score == teams[i].players[k].score
            + amount,
        with_player_credit(teams, uuid, amount)[i].total_score == teams[i].total_score + amount,
        with_player_credit(teams, uuid, amount)[i].players[k].uuid == teams[i].players[k].uuid,
        with_player_credit(teams, uuid, amount)[i].name == teams[i].name,
        forall|b: int|
            0 <= b < teams[i].players.len() && b != k ==> #[trigger] with_player_credit(
                teams,
                uuid,
                amount,
            )[i].players[b] == teams[i].players[b],
        forall|j: int|
            0 <= j < teams.len() && j != i ==> #[trigger] with_player_credit(teams, uuid, amount)[j]
                == teams[j],
{
    lemma_first_player_is_index(teams, uuid, i, k);
}

/// A credit to a name that no team carries changes nothing.
pub proof fn lemma_unknown_team_changes_nothing(teams: Seq<TeamView>, name: Seq<char>, amount: nat)
    requires
        !has_team(teams, name),
    ensures
        with_team_credit(teams, name, amount) == teams,
{
    lemma_no_team_no_index(teams, name);
}

/// A credit to an identifier that no player carries changes nothing.
pub proof fn lemma_unknown_player_changes_nothing(
    teams: Seq<TeamView>,
    uuid: Seq<char>,
    amount: nat,
)
    requires
        !has_player(teams, uuid),
    ensures
        with_player_credit(teams, uuid, amount) == teams,
{
    lemma_no_player_no_index(teams, uuid);
}

/// One request to change a score.
pub enum Credit {
    Team { name: Seq<char>, amount: nat },
    Player { uuid: Seq<char>, amount: nat },
}

/// The teams after a credit was carried out.
pub open spec fn credited(teams: Seq<TeamView>, credit: Credit) -> Seq<TeamView> {
    match credit {
        Credit::Team { name, amount } => with_team_credit(teams, name, amount),
        Credit::Player { uuid, amount } => with_player_credit(teams, uuid, amount),
    }
}

/// The teams after each of `credits` was carried out in turn.
pub open spec fn credited_all(teams: Seq<TeamView>, credits: Seq<Credit>) -> Seq<TeamView>
    decreases credits.len(),
{
    if credits.len() == 0 {
        teams
    } else {
        credited(credited_all(teams, credits.drop_last()), credits.last())
    }
}

/// Two runs of teams agree on every name and every identifier, place by
/// place; only counters may differ.
pub open spec fn same_keys(a: Seq<TeamView>, b: Seq<TeamView>) -> bool {
    &&& a.len() == b.len()
    &&& forall|i: int|
        0 <= i < a.len() ==> (#[trigger] a[i]).name == b[i].name && a[i].players.len()
            == b[i].players.len()
    &&& forall|i: int, k: int|
        0 <= i < a.len() && 0 <= k < a[i].players.len() ==> (#[trigger] a[i].players[k]).uuid
            == b[i].players[k].uuid
}

/// Lookups depend on names and identifiers alone.
pub proof fn lemma_same_keys_same_lookups(a: Seq<TeamView>, b: Seq<TeamView>, key: Seq<char>)
    requires
        same_keys(a, b),
    ensures
        team_index(a, key) == team_index(b, key),
        player_index(a, key) == player_index(b, key),
{
    lemma_team_found_iff_present(a, key);
    lemma_team_found_iff_present(b, key);
    if team_index(a, key) is Some {
        let i = team_index(a, key)->0;
        assert(b[i].name == a[i].name);
        assert forall|j: int| 0 <= j < i implies (#[trigger] b[j]).name != key by {
            assert(a[j].name == b[j].name);
        }
        assert(is_first_team(b, key, i));
        lemma_first_team_is_index(b, key, i);
    } else if team_index(b, key) is Some {
        let i = team_index(b, key)->0;
        assert(a[i].name == b[i].name);
        assert(has_team(a, key));
    }
    lemma_player_found_iff_present(a, key);
    lemma_player_found_iff_present(b, key);
    if player_index(a, key) is Some {
        let (i, k) = player_index(a, key)->0;
        assert(a[i].players[k].uuid == b[i].players[k].uuid);
        assert(a[i].players.len() == b[i].players.len());
        assert forall|d: int| 0 <= d < k implies (#[trigger] b[i].players[d]).uuid != key by {
            assert(a[i].players[d].uuid == b[i].players[d].uuid);
        }
        assert forall|c: int, d: int|
            0 <= c < i && 0 <= d < b[c].players.len() implies (#[trigger] b[c].players[d]).uuid
            != key by {
            assert(a[c].players.len() == b[c].players.len());
            assert(a[c].players[d].uuid == b[c].players[d].uuid);
        }
        assert(is_first_player(b, key, i, k));
        lemma_first_player_is_index(b, key, i, k);
    } else if player_index(b, key) is Some {
        let (i, k) = player_index(b, key)->0;
        assert(a[i].players.len() == b[i].players.len());
        assert(a[i].players[k].uuid == b[i].players[k].uuid);
        assert(has_player(a, key));
    }
}

/// No credit adds, removes, renames or moves a team or a player.
pub proof fn lemma_credit_keeps_keys(teams: Seq<TeamView>, credit: Credit)
    ensures
        same_keys(teams, credited(teams, credit)),
{
    match credit {
        Credit::Team { name, amount } => {
            lemma_team_found_iff_present(teams, name);
        },
        Credit::Player { uuid, amount } => {
            lemma_player_found_iff_present(teams, uuid);
        },
    }
}

/// Two credits lead to the same teams in either order: when requests are
/// served one at a time, the order in which they are served does not show
/// in the outcome, and none is lost.
pub proof fn lemma_credits_commute(teams: Seq<TeamView>, first: Credit, second: Credit)
    ensures
        credited(credited(teams, first), second) == credited(credited(teams, second), first),
{
    let after_first = credited(teams, first);
    let after_second = credited(teams, second);
    lemma_credit_keeps_keys(teams, first);
    lemma_credit_keeps_keys(teams, second);
    match first {
        Credit::Team { name, amount } => {
            lemma_same_keys_same_lookups(teams, after_second, name);
            lemma_team_found_iff_present(teams, name);
        },
        Credit::Player { uuid, amount } => {
            lemma_same_keys_same_lookups(teams, after_second, uuid);
            lemma_player_found_iff_present(teams, uuid);
        },
    }
    match second {
        Credit::Team { name, amount } => {
            lemma_same_keys_same_lookups(teams, after_first, name);
            lemma_team_found_iff_present(teams, name);
        },
        Credit::Player { uuid, amount } => {
            lemma_same_keys_same_lookups(teams, after_first, uuid);
            lemma_player_found_iff_present(teams, uuid);
        },
    }
    let one = credited(after_first, second);
    let other = credited(after_second, first);
    assert(one.len() == other.len());
    assert forall|j: int| 0 <= j < one.len() implies one[j] == other[j] by {
        assert(one[j].players =~= other[j].players);
    }
    assert(one =~= other);
}

/// Two credits to the same team amount to one credit of their sum.
pub proof fn lemma_team_credits_add_up(teams: Seq<TeamView>, name: Seq<char>, x: nat, y: nat)
    ensures
        with_team_credit(with_team_credit(teams, name, x), name, y) == with_team_credit(
            teams,
            name,
            x + y,
        ),
{
    let first = Credit::Team { name, amount: x };
    lemma_credit_keeps_keys(teams, first);
    lemma_same_keys_same_lookups(teams, credited(teams, first), name);
    lemma_team_found_iff_present(teams, name);
    assert(with_team_credit(with_team_credit(teams, name, x), name, y) =~= with_team_credit(
        teams,
        name,
        x + y,
    ));
}

/// Two credits to the same player amount to one credit of their sum: the
/// player's score and the team's total each hold both amounts.
pub proof fn lemma_player_credits_add_up(teams: Seq<TeamView>, uuid: Seq<char>, x: nat, y: nat)
    ensures
        with_player_credit(with_player_credit(teams, uuid, x), uuid, y) == with_player_credit(
            teams,
            uuid,
            x + y,
        ),
{
    let first = Credit::Player { uuid, amount: x };
    lemma_credit_keeps_keys(teams, first);
    lemma_same_keys_same_lookups(teams, credited(teams, first), uuid);
    lemma_player_found_iff_present(teams, uuid);
    let one = with_player_credit(with_player_credit(teams, uuid, x), uuid, y);
    let other = with_player_credit(teams, uuid, x + y);
    assert(one.len() == other.len());
    assert forall|j: int| 0 <= j < one.len() implies one[j] == other[j] by {
        assert(one[j].players =~= other[j].players);
    }
    assert(one =~= other);
}

/// Moving one credit of a run to its end does not change where the run
/// leads.
proof fn lemma_credit_moves_to_end(teams: Seq<TeamView>, credits: Seq<Credit>, at: int)
    requires
        0 <= at < credits.len(),
    ensures
        credited_all(teams, credits) == credited(
            credited_all(teams, credits.remove(at)),
            credits[at],
        ),
    decreases credits.len(),
{
    let shorter = credits.drop_last();
    if at == credits.len() - 1 {
        assert(credits.remove(at) =~= shorter);
    } else {
        lemma_credit_moves_to_end(teams, shorter, at);
        let rest = shorter.remove(at);
        lemma_credits_commute(credited_all(teams, rest), credits[at], credits.last());
        assert(credits.remove(at).drop_last() =~= rest);
        assert(credits.remove(at).last() == credits.last());
    }
}

/// Runs of credits that hold the same credits, each as often, lead to the
/// same teams from the same start. However the lock hands out its turns,
/// what the requests leave behind is what they would have left in any other
/// order.
pub proof fn lemma_order_of_credits_is_immaterial(
    teams: Seq<TeamView>,
    one: Seq<Credit>,
    other: Seq<Credit>,
)
    requires
        one.to_multiset() == other.to_multiset(),
    ensures
        credited_all(teams, one) == credited_all(teams, other),
    decreases one.len(),
{
    one.to_multiset_ensures();
    other.to_multiset_ensures();
    if one.len() == 0 {
        assert(other.len() == 0);
    } else {
        let last = one.last();
        let shorter = one.drop_last();
        shorter.to_multiset_ensures();
        assert(one =~= shorter.push(last));
        assert(one.contains(last));
        assert(other.to_multiset().count(last) > 0);
        assert(other.contains(last));
        let at = choose|at: int| 0 <= at < other.len() && other[at] == last;
        assert(shorter.to_multiset() =~= one.to_multiset().remove(last));
        assert(other.remove(at).to_multiset() =~= other.to_multiset().remove(last));
        lemma_order_of_credits_is_immaterial(teams, shorter, other.remove(at));
        lemma_credit_moves_to_end(teams, other, at);
    }
}

/// `count` credits of the same amount to the same player.
pub open spec fn repeated_player_credit(uuid: Seq<char>, amount: nat, count: nat) -> Seq<Credit> {
    Seq::new(count, |i: int| Credit::Player { uuid, amount })
}

/// Carrying out the same credit to a player `count` times amounts to one
/// credit of `count` times the amount: every one of them shows in the
/// player's score and in the team's total.
pub proof fn lemma_repeated_player_credit_adds_up(
    teams: Seq<TeamView>,
    uuid: Seq<char>,
    amount: nat,
    count: nat,
)
    requires
        counters_in_range(teams),
    ensures
        credited_all(teams, repeated_player_credit(uuid, amount, count)) == with_player_credit(
            teams,
            uuid,
            count * amount,
        ),
    decreases count,
{
    let credits = repeated_player_credit(uuid, amount, count);
    if count == 0 {
        assert(count * amount == 0) by (nonlinear_arith)
            requires
                count == 0,
        ;
        assert(credits.len() == 0);
        lemma_player_found_iff_present(teams, uuid);
        assert(with_player_credit(teams, uuid, 0) =~= teams) by {
            if player_index(teams, uuid) is Some {
                let (i, k) = player_index(teams, uuid)->0;
                assert(credited_member(teams[i], k, 0).players =~= teams[i].players);
            }
        }
    } else {
        let fewer = (count - 1) as nat;
        lemma_repeated_player_credit_adds_up(teams, uuid, amount, fewer);
        assert(credits.drop_last() =~= repeated_player_credit(uuid, amount, fewer));
        assert(credits.last() == Credit::Player { uuid, amount });
        lemma_player_credits_add_up(teams, uuid, fewer * amount, amount);
        assert(fewer * amount + amount == count * amount) by (nonlinear_arith)
            requires
                fewer == count - 1,
        ;
    }
}

/// What one credit adds to the total of the team at position `i`: its amount
/// when it is a credit to that team or to one of that team's players.
pub open spec fn team_share(teams: Seq<TeamView>, credit: Credit, i: int) -> nat {
    match credit {
        Credit::Team { name, amount } => if team_index(teams, name) == Some(i) {
            amount
        } else {
            0
        },
        Credit::Player { uuid, amount } => match player_index(teams, uuid) {
            Some(place) => if place.0 == i {
                amount
            } else {
                0
            },
            None => 0,
        },
    }
}

/// What one credit adds to the score of the player at place `(i, k)`: its
/// amount when it is a credit to that player.
pub open spec fn player_share(teams: Seq<TeamView>, credit: Credit, i: int, k: int) -> nat {
    match credit {
        Credit::Team { name, amount } => 0,
        Credit::Player { uuid, amount } => if player_index(teams, uuid) == Some((i, k)) {
            amount
        } else {
            0
        },
    }
}

/// What a run of credits adds to the total of the team at position `i`.
pub open spec fn team_gain(teams: Seq<TeamView>, credits: Seq<Credit>, i: int) -> nat
    decreases credits.len(),
{
    if credits.len() == 0 {
        0
    } else {
        team_gain(teams, credits.drop_last(), i) + team_share(teams, credits.last(), i)
    }
}

/// What a run of credits adds to the score of the player at place `(i, k)`.
pub open spec fn player_gain(teams: Seq<TeamView>, credits: Seq<Credit>, i: int, k: int) -> nat
    decreases credits.len(),
{
    if credits.len() == 0 {
        0
    } else {
        player_gain(teams, credits.drop_last(), i, k) + player_share(teams, credits.last(), i, k)
    }
}

/// No run of credits adds, removes, renames or moves a team or a player.
pub proof fn lemma_credits_keep_keys(teams: Seq<TeamView>, credits: Seq<Credit>)
    ensures
        same_keys(teams, credited_all(teams, credits)),
    decreases credits.len(),
{
    if credits.len() > 0 {
        lemma_credits_keep_keys(teams, credits.drop_last());
        lemma_credit_keeps_keys(credited_all(teams, credits.drop_last()), credits.last());
    }
}

/// No credit of a run is lost on a team: after the run the team's total is
/// what it was, raised by the sum of every credit to that team and to its
/// players, whatever else the run credited in between.
pub proof fn lemma_team_holds_every_credit(teams: Seq<TeamView>, credits: Seq<Credit>, i: int)
    requires
        counters_in_range(teams),
        0 <= i < teams.len(),
    ensures
        credited_all(teams, credits).len() == teams.len(),
        credited_all(teams, credits)[i].total_score == raised(
            teams[i].total_score,
            team_gain(teams, credits, i),
        ),
    decreases credits.len(),
{
    if credits.len() > 0 {
        let earlier = credits.drop_last();
        let reached = credited_all(teams, earlier);
        lemma_team_holds_every_credit(teams, earlier, i);
        lemma_credits_keep_keys(teams, earlier);
        match credits.last() {
            Credit::Team { name, amount } => {
                lemma_same_keys_same_lookups(teams, reached, name);
                lemma_team_found_iff_present(reached, name);
            },
            Credit::Player { uuid, amount } => {
                lemma_same_keys_same_lookups(teams, reached, uuid);
                lemma_player_found_iff_present(reached, uuid);
            },
        }
    }
}

/// No credit of a run is lost on a player: after the run the player's score
/// is what it was, raised by the sum of every credit to that player,
/// whatever else the run credited in between.
pub proof fn lemma_player_holds_every_credit(
    teams: Seq<TeamView>,
    credits: Seq<Credit>,
    i: int,
    k: int,
)
    requires
        counters_in_range(teams),
        0 <= i < teams.len(),
        0 <= k < teams[i].players.len(),
    ensures
        credited_all(teams, credits).len() == teams.len(),
        credited_all(teams, credits)[i].players.len() == teams[i].players.len(),
        credited_all(teams, credits)[i].players[k].score == raised(
            teams[i].players[k].score,
            player_gain(teams, credits, i, k),
        ),
    decreases credits.len(),
{
    if credits.len() > 0 {
        let earlier = credits.drop_last();
        let reached = credited_all(teams, earlier);
        lemma_player_holds_every_credit(teams, earlier, i, k);
        lemma_credits_keep_keys(teams, earlier);
        match credits.last() {
            Credit::Team { name, amount } => {
                lemma_same_keys_same_lookups(teams, reached, name);
                lemma_team_found_iff_present(reached, name);
            },
            Credit::Player { uuid, amount } => {
                lemma_same_keys_same_lookups(teams, reached, uuid);
                lemma_player_found_iff_present(reached, uuid);
            },
        }
    }
}

} // verus!
