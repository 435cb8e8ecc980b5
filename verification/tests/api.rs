use unkvoid::api::{first_field_error, mime_of, refusal, url, HttpError};
use unkvoid::failure::Failure;
use unkvoid::json::Json;

fn object(members: Vec<(&str, Json)>) -> Json {
    Json::Object(members.into_iter().map(|(name, value)| (name.to_string(), value)).collect())
}

fn text(value: &str) -> Json {
    Json::Text(value.to_string())
}

#[test]
fn a_validation_error_keeps_the_sentence_the_person_needs_to_read() {
    let body = object(vec![
        ("message", text("The given data was invalid.")),
        ("errors", object(vec![("email", Json::Array(vec![text("Este e-mail já está em uso.")]))])),
    ]);

    assert_eq!(
        refusal(422, &body, "/api/auth/register"),
        HttpError::Invalid { field: "email".into(), message: "Este e-mail já está em uso.".into() },
        "perdeu o nome do campo: a tela não sabe qual input pintar",
    );
}

#[test]
fn every_other_refusal_becomes_a_reason_and_leaks_nothing() {
    let body = object(vec![("message", text("Server Error at /api/servers/7 (SQLSTATE[42S02])"))]);

    assert_eq!(refusal(500, &body, "/api/servers/7"), HttpError::Failed(Failure::ServerBroke));
}

#[test]
fn a_422_without_field_errors_still_does_not_leak() {
    let body = object(vec![("message", text("The given data was invalid."))]);

    assert_eq!(refusal(422, &body, "/api/x"), HttpError::Failed(Failure::Invalid));
}

#[test]
fn a_wrong_password_goes_to_the_email_field() {
    let body = object(vec![("message", text("E-mail ou senha não conferem."))]);

    assert_eq!(
        refusal(401, &body, "/api/auth/login"),
        HttpError::Invalid { field: "email".into(), message: "E-mail ou senha não conferem.".into() }
    );
    assert_eq!(refusal(401, &body, "/api/servers"), HttpError::Failed(Failure::SignedOut));
}

#[test]
fn the_first_field_with_a_text_is_the_one_shown() {
    let body = object(vec![(
        "errors",
        object(vec![("name", Json::Array(vec![])), ("password", Json::Array(vec![text("curta")]))]),
    )]);

    assert_eq!(first_field_error(&body), Some(("password".to_string(), "curta".to_string())));
}

#[test]
fn the_base_address_never_ends_up_with_two_slashes() {
    assert_eq!(url("http://127.0.0.1:8000/", "/api/config"), "http://127.0.0.1:8000/api/config");
    assert_eq!(url("http://127.0.0.1:8000", "/api/config"), "http://127.0.0.1:8000/api/config");
}

#[test]
fn a_picture_goes_up_with_its_type() {
    assert_eq!(mime_of("foto.PNG"), Some("image/png"));
    assert_eq!(mime_of("a.b.jpeg"), Some("image/jpeg"));
    assert_eq!(mime_of("gif"), Some("image/gif"));
    assert_eq!(mime_of("documento.pdf"), None);
}

use unkvoid::api::{renews, unwrap_data, Account, RenewalAnswer, RenewalStep, SessionChange};
use unkvoid::models::{Membership, ServerTree};

fn tree(id: i64, name: &str) -> ServerTree {
    ServerTree {
        id,
        name: name.to_string(),
        owner_id: 1,
        invite_code: None,
        icon_url: None,
        me: Membership { user_id: 1, permissions: 0, top_position: 0 },
        roles: vec![],
        channels: vec![],
        members: vec![],
        voice: vec![],
        bans: vec![],
    }
}

#[test]
fn the_token_is_remembered_and_can_be_dropped() {
    let mut account = Account::new();

    assert!(account.token().is_none());

    account.set_token(Some("1|abc".into()));

    assert_eq!(account.token().as_deref(), Some("1|abc"));

    account.set_token(None);

    assert!(account.token().is_none(), "signing out did not forget the token");
}

#[test]
fn an_expired_token_is_renewed_once_and_a_refused_renewal_ends_the_session() {
    let mut account = Account::new();

    account.set_token(Some("a1".into()));
    account.set_refresh(Some("r1".into()));

    assert_eq!(account.renewal_step("a1"), RenewalStep::Ask("r1".into()));
    assert_eq!(
        account.renewed("a1", RenewalAnswer::Pair { token: "a2".into(), refresh: Some("r2".into()) }),
        (true, Some(SessionChange::Renewed))
    );
    assert_eq!((account.token().as_deref(), account.refresh_token().as_deref()), (Some("a2"), Some("r2")));
    // Another call that failed with the old token only repeats: the pair is already new.
    assert_eq!(account.renewal_step("a1"), RenewalStep::Settled(true));

    account.set_token(Some("a3".into()));

    assert_eq!(account.renewal_step("a3"), RenewalStep::Ask("r2".into()));
    assert_eq!(account.renewed("a3", RenewalAnswer::Refused), (false, Some(SessionChange::Ended)));
    assert_eq!((account.token(), account.refresh_token()), (None, None), "a session that does not renew leaves memory");
}

#[test]
fn no_network_is_no_ended_session_and_an_old_token_ends_nothing() {
    let mut account = Account::new();

    account.adopt("a1", Some("r1"));

    assert_eq!(account.renewed("a1", RenewalAnswer::Unreachable), (false, None));
    assert_eq!(account.token().as_deref(), Some("a1"));
    assert_eq!(account.end("old"), None);
    assert!(account.signed_in());
    assert_eq!(account.renewed("a1", RenewalAnswer::Pair { token: "a2".into(), refresh: None }), (false, Some(SessionChange::Ended)));
    assert!(!account.signed_in());
    assert_eq!(account.renewal_step("a1"), RenewalStep::Settled(false));
}

#[test]
fn a_seen_tree_is_kept_for_the_next_click_and_forgotten_with_the_account() {
    let mut account = Account::new();

    assert!(account.known_tree(7).is_none(), "nothing seen yet");

    account.remember_tree(7, tree(7, "Estúdio"));
    account.remember_tree(8, tree(8, "Oficina"));
    account.remember_tree(7, tree(7, "Estúdio novo"));

    assert_eq!(account.known_tree(7).map(|tree| tree.name.as_str()), Some("Estúdio novo"));
    assert_eq!(account.known_tree(8).map(|tree| tree.name.as_str()), Some("Oficina"));

    account.set_token(None);

    assert!(account.known_tree(7).is_none(), "the tree of whoever left does not stay for whoever comes in");
}

#[test]
fn only_a_call_with_a_token_outside_the_sign_in_is_renewed() {
    let expired = HttpError::Failed(Failure::SignedOut);

    assert!(renews(&expired, true, "/api/me"));
    assert!(!renews(&expired, false, "/api/me"));
    assert!(!renews(&expired, true, "/api/auth/login"));
    assert!(!renews(&HttpError::Failed(Failure::ServerBroke), true, "/api/me"));
}

#[test]
fn an_answer_that_is_only_data_is_unwrapped() {
    assert!(matches!(unwrap_data(object(vec![("data", Json::Integer(1))])), Json::Integer(1)));

    match unwrap_data(object(vec![("data", Json::Integer(1)), ("meta", Json::Null)])) {
        Json::Object(members) => assert_eq!(members.len(), 2),
        _ => panic!("a bigger object stays whole"),
    }
    assert!(matches!(unwrap_data(text("plain")), Json::Text(_)));
}

#[test]
fn signing_out_keeps_no_token_and_no_tree() {
    let mut account = Account::new();

    assert_eq!(account.adopt("a1", Some("r1")), Some(SessionChange::Renewed));
    account.remember_tree(7, tree(7, "Estúdio"));
    account.sign_out();

    assert_eq!((account.token(), account.refresh_token()), (None, None));
    assert!(account.known_tree(7).is_none());
    assert!(!account.signed_in());
}

#[test]
fn the_trees_warmed_are_those_of_the_servers_listed() {
    let servers = Json::Array(vec![
        object(vec![("id", Json::Integer(7)), ("name", text("Estúdio"))]),
        object(vec![("name", text("sem id"))]),
        object(vec![("id", Json::Integer(9))]),
    ]);

    assert_eq!(unkvoid::api::server_ids(&servers), vec![7, 9]);
    assert_eq!(unkvoid::api::server_ids(&Json::Null), Vec::<i64>::new());
}
