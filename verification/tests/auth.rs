use scoreboard::auth::{validate_token, AuthError};

fn tokens() -> Vec<String> {
    vec!["alpha".to_string(), "Bravo-2".to_string(), "".to_string()]
}

#[test]
fn configured_tokens_are_admitted() {
    assert_eq!(validate_token("/", Some("alpha"), &tokens()), Ok(()));
    assert_eq!(validate_token("/team_score/Red/3", Some("Bravo-2"), &tokens()), Ok(()));
    assert_eq!(validate_token("/player_score/ann/3", Some(""), &tokens()), Ok(()));
}

#[test]
fn other_tokens_are_rejected_as_invalid() {
    for token in ["beta", "Alpha", "alpha ", "alph", "alphaa", "bravo-2", "alphaBravo-2"] {
        assert_eq!(validate_token("/", Some(token), &tokens()), Err(AuthError::InvalidToken));
    }
}

#[test]
fn missing_token_is_rejected_as_missing() {
    assert_eq!(validate_token("/", None, &tokens()), Err(AuthError::NoBearerHeader));
    assert_eq!(
        validate_token("/team_score/Red/3", None, &Vec::new()),
        Err(AuthError::NoBearerHeader)
    );
}

#[test]
fn no_configured_tokens_admit_nobody() {
    assert_eq!(validate_token("/", Some("alpha"), &Vec::new()), Err(AuthError::InvalidToken));
    assert_eq!(validate_token("/", Some(""), &Vec::new()), Err(AuthError::InvalidToken));
}

#[test]
fn pack_paths_need_no_token() {
    for uri in [
        "/packs",
        "/packs/",
        "/packs/a.zip",
        "/packs/dir/b.bin?x=1",
        "/packs?x=1",
        "/pack/a.zip",
        "/pack/",
        "/pack/a/b",
    ] {
        assert_eq!(validate_token(uri, None, &tokens()), Ok(()));
        assert_eq!(validate_token(uri, Some("nonsense"), &tokens()), Ok(()));
        assert_eq!(validate_token(uri, Some("alpha"), &Vec::new()), Ok(()));
    }
}

#[test]
fn near_misses_of_the_pack_prefix_are_gated() {
    for uri in [
        "",
        "/",
        "/pac",
        "/pack",
        "/package",
        "/packet/1",
        "/pack?x=1",
        "/Pack/a",
        "/Packs/a",
        "pack/a",
        "//pack/a",
        "/team_score/packs/1",
        " /packs",
    ] {
        assert_eq!(validate_token(uri, None, &tokens()), Err(AuthError::NoBearerHeader));
        assert_eq!(validate_token(uri, Some("x"), &tokens()), Err(AuthError::InvalidToken));
        assert_eq!(validate_token(uri, Some("alpha"), &tokens()), Ok(()));
    }
}

#[test]
fn uris_outside_ascii_are_compared_by_character() {
    assert_eq!(validate_token("/päck/a", None, &tokens()), Err(AuthError::NoBearerHeader));
    assert_eq!(validate_token("/packé", None, &tokens()), Err(AuthError::NoBearerHeader));
    assert_eq!(validate_token("/packs/é", None, &tokens()), Ok(()));
    assert_eq!(validate_token("/pack/é", None, &tokens()), Ok(()));
    assert_eq!(validate_token("é", Some("alpha"), &tokens()), Ok(()));
}

#[test]
fn rejections_carry_their_message_and_status() {
    assert_eq!(AuthError::NoBearerHeader.message(), "no bearer header");
    assert_eq!(AuthError::InvalidToken.message(), "invalid token");
    assert_eq!(AuthError::NoBearerHeader.status(), 400);
    assert_eq!(AuthError::InvalidToken.status(), 400);
}
