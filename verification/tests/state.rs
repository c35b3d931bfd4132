use scoreboard::auth::AuthError;
use scoreboard::model::{Player, Team};
use scoreboard::state::{ApiConfig, ApiState};

fn config() -> ApiConfig {
    ApiConfig {
        valid_tokens: vec!["secret".to_string()],
        teams: vec![
            Team {
                name: "Red".to_string(),
                total_score: 10,
                players: vec![Player { uuid: "p1".to_string(), score: 5 }],
            },
            Team { name: "Green".to_string(), total_score: 0, players: vec![] },
        ],
    }
}

#[test]
fn state_starts_as_the_document_says() {
    let state = ApiState::from(config());
    assert_eq!(state.valid_tokens, config().valid_tokens);
    assert_eq!(state.teams, config().teams);
}

#[test]
fn document_of_a_state_loads_back_to_that_state() {
    let mut state = ApiState::from(config());
    state.player_score("p1", 40);
    state.team_score("Green", 2);
    let document = state.to_config();
    assert_eq!(ApiState::from(document), state);
    assert_eq!(ApiState::from(state.to_config()).to_config(), state.to_config());
}

#[test]
fn player_score_scenario() {
    let mut state = ApiState::from(config());
    let saved = state.player_score("p1", 3);
    assert_eq!(saved.teams[0].name, "Red");
    assert_eq!(saved.teams[0].total_score, 13);
    assert_eq!(saved.teams[0].players[0].uuid, "p1");
    assert_eq!(saved.teams[0].players[0].score, 8);
    assert_eq!(saved.teams[1], config().teams[1]);
    assert_eq!(saved.valid_tokens, config().valid_tokens);
    assert_eq!(saved.teams, state.teams);
    assert_eq!(saved, state.to_config());
    assert_eq!(state.index(), saved.teams);
}

#[test]
fn team_score_for_unknown_team_scenario() {
    let mut state = ApiState::from(config());
    let before = state.index();
    let saved = state.team_score("Blue", 100);
    assert_eq!(saved, config());
    assert_eq!(state.index(), before);
    assert_eq!(state, ApiState::from(config()));
}

#[test]
fn player_score_for_unknown_player_leaves_the_answer_unchanged() {
    let mut state = ApiState::from(config());
    let saved = state.player_score("nobody", 100);
    assert_eq!(saved, config());
    assert_eq!(state, ApiState::from(config()));
}

#[test]
fn team_score_answers_with_the_new_state() {
    let mut state = ApiState::from(config());
    let saved = state.team_score("Red", 5);
    assert_eq!(saved.teams[0].total_score, 15);
    assert_eq!(saved.teams[0].players, config().teams[0].players);
    assert_eq!(saved.teams[1], config().teams[1]);
    assert_eq!(saved, state.to_config());
}

#[test]
fn mutations_never_touch_the_tokens() {
    let mut state = ApiState::from(config());
    state.team_score("Red", 1);
    state.player_score("p1", 1);
    state.team_score("secret", 1);
    state.player_score("secret", 1);
    assert_eq!(state.valid_tokens, vec!["secret".to_string()]);
}

#[test]
fn index_is_a_copy() {
    let mut state = ApiState::from(config());
    let snapshot = state.index();
    state.team_score("Red", 1);
    assert_eq!(snapshot, config().teams);
    assert_eq!(state.index()[0].total_score, 11);
}

#[test]
fn state_checks_tokens_against_its_own_set() {
    let state = ApiState::from(config());
    assert_eq!(state.validate_token("/", Some("secret")), Ok(()));
    assert_eq!(state.validate_token("/", Some("Secret")), Err(AuthError::InvalidToken));
    assert_eq!(state.validate_token("/", None), Err(AuthError::NoBearerHeader));
    assert_eq!(state.validate_token("/packs/x", None), Ok(()));
}

#[test]
fn documents_and_states_clone_equal() {
    let state = ApiState::from(config());
    assert_eq!(state.clone(), state);
    assert_eq!(config().clone(), config());
}
