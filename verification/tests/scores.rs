use scoreboard::model::{Player, Team, MAX_SCORE};
use scoreboard::scores::{add_player_score, add_team_score};

fn player(uuid: &str, score: u16) -> Player {
    Player { uuid: uuid.to_string(), score }
}

fn team(name: &str, total_score: u16, players: Vec<Player>) -> Team {
    Team { name: name.to_string(), total_score, players }
}

fn league() -> Vec<Team> {
    vec![
        team("Red", 10, vec![player("ann", 5), player("bob", 0)]),
        team("Green", 7, vec![]),
        team("Blue", 65530, vec![player("cy", 65535), player("dee", 1)]),
    ]
}

#[test]
fn team_credit_raises_only_the_named_total() {
    let mut teams = league();
    add_team_score(&mut teams, "Green", 4);
    let mut expected = league();
    expected[1].total_score = 11;
    assert_eq!(teams, expected);
}

#[test]
fn team_credit_leaves_players_alone() {
    let mut teams = league();
    add_team_score(&mut teams, "Red", 100);
    assert_eq!(teams[0].total_score, 110);
    assert_eq!(teams[0].players, vec![player("ann", 5), player("bob", 0)]);
    assert_eq!(teams[1], league()[1]);
    assert_eq!(teams[2], league()[2]);
}

#[test]
fn team_credit_for_unknown_name_changes_nothing() {
    let mut teams = league();
    add_team_score(&mut teams, "Yellow", 100);
    assert_eq!(teams, league());
}

#[test]
fn team_credit_on_no_teams_changes_nothing() {
    let mut teams: Vec<Team> = Vec::new();
    add_team_score(&mut teams, "Red", 1);
    assert!(teams.is_empty());
}

#[test]
fn team_names_match_whole_and_case_sensitively() {
    let mut teams = league();
    add_team_score(&mut teams, "red", 1);
    add_team_score(&mut teams, "Re", 1);
    add_team_score(&mut teams, "Red ", 1);
    add_team_score(&mut teams, "", 1);
    assert_eq!(teams, league());
}

#[test]
fn team_credit_goes_to_the_first_of_two_namesakes() {
    let mut teams = vec![team("Red", 1, vec![]), team("Red", 2, vec![]), team("Red", 3, vec![])];
    add_team_score(&mut teams, "Red", 10);
    assert_eq!(teams[0].total_score, 11);
    assert_eq!(teams[1].total_score, 2);
    assert_eq!(teams[2].total_score, 3);
}

#[test]
fn team_credit_of_zero_changes_nothing() {
    let mut teams = league();
    add_team_score(&mut teams, "Red", 0);
    assert_eq!(teams, league());
}

#[test]
fn team_total_saturates_at_the_top() {
    let mut teams = league();
    add_team_score(&mut teams, "Blue", 5);
    assert_eq!(teams[2].total_score, 65535);
    add_team_score(&mut teams, "Blue", 1);
    assert_eq!(teams[2].total_score, MAX_SCORE);
    add_team_score(&mut teams, "Blue", 65535);
    assert_eq!(teams[2].total_score, 65535);
}

#[test]
fn team_total_below_the_top_is_exact() {
    let mut teams = vec![team("A", 0, vec![])];
    add_team_score(&mut teams, "A", 65534);
    assert_eq!(teams[0].total_score, 65534);
    add_team_score(&mut teams, "A", 1);
    assert_eq!(teams[0].total_score, 65535);
}

#[test]
fn player_credit_raises_player_and_team() {
    let mut teams = league();
    add_player_score(&mut teams, "bob", 9);
    let mut expected = league();
    expected[0].total_score = 19;
    expected[0].players[1].score = 9;
    assert_eq!(teams, expected);
}

#[test]
fn player_credit_for_unknown_identifier_changes_nothing() {
    let mut teams = league();
    add_player_score(&mut teams, "zed", 9);
    add_player_score(&mut teams, "Ann", 9);
    add_player_score(&mut teams, "", 9);
    add_player_score(&mut teams, "Red", 9);
    assert_eq!(teams, league());
}

#[test]
fn player_credit_on_no_teams_changes_nothing() {
    let mut teams: Vec<Team> = Vec::new();
    add_player_score(&mut teams, "ann", 1);
    assert!(teams.is_empty());
}

#[test]
fn player_credit_stops_at_the_first_match_across_teams() {
    let mut teams = vec![
        team("A", 0, vec![player("x", 0)]),
        team("B", 0, vec![player("twin", 1), player("twin", 2)]),
        team("C", 0, vec![player("twin", 3)]),
    ];
    add_player_score(&mut teams, "twin", 10);
    assert_eq!(teams[0], team("A", 0, vec![player("x", 0)]));
    assert_eq!(teams[1], team("B", 10, vec![player("twin", 11), player("twin", 2)]));
    assert_eq!(teams[2], team("C", 0, vec![player("twin", 3)]));
}

#[test]
fn player_and_team_saturate_each_on_its_own() {
    let mut teams = league();
    add_player_score(&mut teams, "cy", 3);
    assert_eq!(teams[2].players[0].score, 65535);
    assert_eq!(teams[2].total_score, 65533);
    add_player_score(&mut teams, "dee", 10);
    assert_eq!(teams[2].players[1].score, 11);
    assert_eq!(teams[2].total_score, 65535);
    assert_eq!(teams[2].players[0].score, 65535);
}

#[test]
fn team_total_may_drift_from_the_sum_of_its_players() {
    let mut teams = vec![team("A", 0, vec![player("a", 0), player("b", 0)])];
    add_team_score(&mut teams, "A", 5);
    add_player_score(&mut teams, "a", 2);
    assert_eq!(teams[0].total_score, 7);
    assert_eq!(teams[0].players[0].score + teams[0].players[1].score, 2);
}

#[test]
fn many_credits_of_one_all_show() {
    let mut teams = league();
    for _ in 0..500 {
        add_player_score(&mut teams, "ann", 1);
    }
    assert_eq!(teams[0].players[0].score, 505);
    assert_eq!(teams[0].total_score, 510);
    assert_eq!(teams[0].players[1], player("bob", 0));
    assert_eq!(teams[1], league()[1]);
    assert_eq!(teams[2], league()[2]);
}

#[test]
fn credits_in_either_order_end_the_same() {
    let mut one = league();
    add_player_score(&mut one, "dee", 3);
    add_team_score(&mut one, "Blue", 4);
    add_player_score(&mut one, "ann", 7);
    let mut other = league();
    add_player_score(&mut other, "ann", 7);
    add_team_score(&mut other, "Blue", 4);
    add_player_score(&mut other, "dee", 3);
    assert_eq!(one, other);
    assert_eq!(one[2].total_score, 65535);
    assert_eq!(one[2].players[1].score, 4);
}

#[test]
fn clones_are_equal_and_independent() {
    let teams = league();
    let mut copy = teams.clone();
    assert_eq!(copy, teams);
    add_team_score(&mut copy, "Red", 1);
    assert_eq!(teams, league());
    assert_eq!(copy[0].total_score, 11);
    let p = player("p", 3);
    assert_eq!(p.clone(), p);
}

#[test]
fn every_credit_of_a_mixed_run_shows() {
    let mut teams = league();
    for round in 0..20u16 {
        add_player_score(&mut teams, "ann", 1);
        add_team_score(&mut teams, "Green", 2);
        add_player_score(&mut teams, "bob", round);
        add_team_score(&mut teams, "Red", 3);
        add_player_score(&mut teams, "nobody", 9);
    }
    assert_eq!(teams[0].players[0].score, 5 + 20);
    assert_eq!(teams[0].players[1].score, 190);
    assert_eq!(teams[0].total_score, 10 + 20 + 190 + 60);
    assert_eq!(teams[1].total_score, 7 + 40);
    assert_eq!(teams[2], league()[2]);
}
