//! The service's state: the configured tokens and the live teams, the
//! document it is loaded from and saved to, and what each request does to it.
//!
//! The state here is a plain value. Whoever shares it between requests holds
//! it behind one lock, takes the lock for the length of one call below, and
//! writes the returned document out after letting the lock go.

use vstd::prelude::*;
use vstd::std_specs::convert::FromSpecImpl;
use crate::auth::{AuthError, gate, token_view, validate_token};
use crate::model::{Team, TeamView, clone_strings, clone_teams, strings_view, teams_view};
use crate::scores::{add_player_score, add_team_score, with_player_credit, with_team_credit};

verus! {

/// What a configuration document or a live state holds, as a mathematical
/// value.
pub struct StateView {
    pub valid_tokens: Seq<Seq<char>>,
    pub teams: Seq<TeamView>,
}

/// The configuration document: the accepted bearer tokens and the teams.
#[derive(Debug, PartialEq, Eq)]
pub struct ApiConfig {
    pub valid_tokens: Vec<String>,
    pub teams: Vec<Team>,
}

/// The live state of the service. The tokens are fixed once loaded; only the
/// teams' counters ever change.
#[derive(Debug, PartialEq, Eq)]
pub struct ApiState {
    pub valid_tokens: Vec<String>,
    pub teams: Vec<Team>,
}

impl View for ApiConfig {
    type V = StateView;

    open spec fn view(&self) -> StateView {
        StateView {
            valid_tokens: strings_view(self.valid_tokens@),
            teams: teams_view(self.teams@),
        }
    }
}

impl View for ApiState {
    type V = StateView;

    open spec fn view(&self) -> StateView {
        StateView {
            valid_tokens: strings_view(self.valid_tokens@),
            teams: teams_view(self.teams@),
        }
    }
}

impl Clone for ApiConfig {
    fn clone(&self) -> (r: Self)
        ensures
            r@ == self@,
    {
        ApiConfig {
            valid_tokens: clone_strings(&self.valid_tokens),
            teams: clone_teams(&self.teams),
        }
    }
}

impl Clone for ApiState {
    fn clone(&self) -> (r: Self)
        ensures
            r@ == self@,
    {
        ApiState {
            valid_tokens: clone_strings(&self.valid_tokens),
            teams: clone_teams(&self.teams),
        }
    }
}

impl From<ApiConfig> for ApiState {
    /// The initial state: exactly what the document holds.
    fn from(config: ApiConfig) -> (r: ApiState) {
        ApiState { valid_tokens: config.valid_tokens, teams: config.teams }
    }
}

impl FromSpecImpl<ApiConfig> for ApiState {
    open spec fn obeys_from_spec() -> bool {
        true
    }

    open spec fn from_spec(config: ApiConfig) -> ApiState {
        ApiState { valid_tokens: config.valid_tokens, teams: config.teams }
    }
}

impl ApiState {
    /// Decides whether a request with this URI and this bearer token (if any)
    /// may proceed, against the state's tokens.
    pub fn validate_token(&self, uri: &str, credentials: Option<&str>) -> (r: Result<
        (),
        AuthError,
    >)
        ensures
            r == gate(uri@, token_view(credentials), self@.valid_tokens),
    {
        validate_token(uri, credentials, &self.valid_tokens)
    }

    /// The document that records the state as it is now.
    pub fn to_config(&self) -> (r: ApiConfig)
        ensures
            r@ == self@,
    {
        ApiConfig {
            valid_tokens: clone_strings(&self.valid_tokens),
            teams: clone_teams(&self.teams),
        }
    }

    /// A copy of every team with its players, as they are now.
    pub fn index(&self) -> (r: Vec<Team>)
        ensures
            teams_view(r@) == self@.teams,
    {
        clone_teams(&self.teams)
    }

    /// Credits `score` to the first team called `team_name` and returns the
    /// document to save and to answer with. The tokens are untouched, and
    /// the document records the state as the credit left it.
    pub fn team_score(&mut self, team_name: &str, score: u16) -> (r: ApiConfig)
        ensures
            final(self)@.valid_tokens == old(self)@.valid_tokens,
            final(self)@.teams == with_team_credit(old(self)@.teams, team_name@, score as nat),
            r@ == final(self)@,
    {
        add_team_score(&mut self.teams, team_name, score);
        self.to_config()
    }

    /// Credits `score` to the first player called `uuid` and to that player's
    /// team, and returns the document to save and to answer with. The tokens
    /// are untouched, and the document records the state as the credit left
    /// it.
    pub fn player_score(&mut self, uuid: &str, score: u16) -> (r: ApiConfig)
        ensures
            final(self)@.valid_tokens == old(self)@.valid_tokens,
            final(self)@.teams == with_player_credit(old(self)@.teams, uuid@, score as nat),
            r@ == final(self)@,
    {
        add_player_score(&mut self.teams, uuid, score);
        self.to_config()
    }
}

} // verus!
