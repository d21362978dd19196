use base64::engine::general_purpose::STANDARD;
use base64::Engine;
use game_server::error::RoomError;
use game_server::message::{Join, ServerMessage};
use game_server::registry::RoomRegistry;
use game_server::server::{
    credential_text, handle_create, handle_join, strip_bearer, token_bytes, validate_credentials,
    websocket_handler, Credentials, HeaderText, ServerError, Ticket,
};
use game_server::token::Token;
use game_server::validation::{Password, Username};

fn guest(text: &str) -> Username {
    Username::validate(text.to_string()).expect("a plain name")
}

fn body(username: Option<&str>, password: Option<&str>) -> Credentials {
    Credentials {
        username: username.map(|text| text.to_string()),
        password: password.map(|text| text.to_string()),
    }
}

fn fixed(fill: u8) -> Token {
    [fill; 16]
}

fn bearer(token: &Token) -> HeaderText {
    HeaderText::Text(format!("Bearer {}", STANDARD.encode(token)))
}

fn registry_with_alice() -> RoomRegistry {
    let mut registry = RoomRegistry::new();
    registry
        .create_room_with("ABCD".to_string(), guest("alice"), None, fixed(7))
        .expect("free code");
    registry
}

#[test]
fn strip_bearer_takes_the_credential() {
    assert_eq!(strip_bearer("Bearer abc"), Some("abc"));
    assert_eq!(strip_bearer("Bearer "), Some(""));
    assert_eq!(strip_bearer("Bearer  two"), Some(" two"));
    assert_eq!(strip_bearer("Bearer Bearer x"), Some("Bearer x"));
    assert_eq!(strip_bearer("Bearer tökén"), Some("tökén"));
}

#[test]
fn strip_bearer_refuses_other_forms() {
    assert_eq!(strip_bearer(""), None);
    assert_eq!(strip_bearer("Bearer"), None);
    assert_eq!(strip_bearer("bearer abc"), None);
    assert_eq!(strip_bearer("Basic abc"), None);
    assert_eq!(strip_bearer(" Bearer abc"), None);
    assert_eq!(strip_bearer("Bearerabc"), None);
    assert_eq!(strip_bearer("Béarer abc"), None);
}

#[test]
fn credential_comes_from_header_before_cookie() {
    let cookie = Some("from-cookie".to_string());
    assert_eq!(
        credential_text(&HeaderText::Text("Bearer from-header".to_string()), &cookie),
        Ok("from-header")
    );
    assert_eq!(credential_text(&HeaderText::Absent, &cookie), Ok("from-cookie"));
    assert_eq!(credential_text(&HeaderText::Absent, &None), Err(ServerError::MissingToken));
    assert_eq!(
        credential_text(&HeaderText::Unreadable, &cookie),
        Err(ServerError::InvalidToken)
    );
    assert_eq!(
        credential_text(&HeaderText::Text("Basic abc".to_string()), &cookie),
        Err(ServerError::InvalidToken)
    );
}

#[test]
fn token_bytes_decodes_standard_base64() {
    assert_eq!(
        token_bytes(&HeaderText::Text("Bearer aGVsbG8gd29ybGQ=".to_string()), &None),
        Ok(b"hello world".to_vec())
    );
    assert_eq!(
        token_bytes(&HeaderText::Absent, &Some("AAECAwQFBgcICQoLDA0ODw==".to_string())),
        Ok((0u8..16).collect::<Vec<u8>>())
    );
    assert_eq!(token_bytes(&HeaderText::Absent, &Some("".to_string())), Ok(vec![]));
}

#[test]
fn token_bytes_refuses_what_is_not_base64() {
    for text in ["not base64!", "aGVsbG8gd29ybGQ", "aGVsbG8=d29ybGQ=", "AAEC-_8="] {
        assert_eq!(
            token_bytes(&HeaderText::Absent, &Some(text.to_string())),
            Err(ServerError::InvalidToken)
        );
    }
    assert_eq!(token_bytes(&HeaderText::Absent, &None), Err(ServerError::MissingToken));
}

#[test]
fn credentials_need_a_valid_username() {
    assert_eq!(validate_credentials(body(None, Some("pw"))), Err(ServerError::MissingUsername));
    assert_eq!(
        validate_credentials(body(Some("<i>bob</i>"), None)),
        Err(ServerError::InvalidUsername)
    );
    assert_eq!(
        validate_credentials(body(Some("bob"), Some("<pw>"))),
        Ok(Join::new(guest("bob"), Some(Password::validate("<pw>".to_string()).unwrap())))
    );
    assert_eq!(validate_credentials(body(Some("bob"), None)), Ok(Join::new(guest("bob"), None)));
}

#[test]
fn create_answers_code_and_encoded_host_token() {
    let mut registry = RoomRegistry::new();
    let response = handle_create(&mut registry, body(Some("alice"), None)).expect("created");
    assert_eq!(response.code.chars().count(), 4);
    assert_eq!(response.token.len(), 24);
    let token = STANDARD.decode(&response.token).expect("standard base64");
    assert_eq!(token.len(), 16);
    assert_eq!(STANDARD.encode(&token), response.token);
    assert_eq!(registry.authenticate(&response.code, &token), Ok(guest("alice")));
}

#[test]
fn create_refuses_invalid_bodies_and_registers_nothing() {
    let mut registry = RoomRegistry::new();
    assert_eq!(
        handle_create(&mut registry, body(None, None)),
        Err(ServerError::MissingUsername)
    );
    assert_eq!(
        handle_create(&mut registry, body(Some("<b>alice</b>"), None)),
        Err(ServerError::InvalidUsername)
    );
}

#[test]
fn join_answers_encoded_token_and_the_announcement() {
    let mut registry = registry_with_alice();
    let response = handle_join(&mut registry, "ABCD", body(Some("bob"), None)).expect("joined");
    let token = STANDARD.decode(&response.token).expect("standard base64");
    assert_eq!(registry.authenticate("ABCD", &token), Ok(guest("bob")));
    assert_eq!(response.dispatches.len(), 1);
    assert_eq!(response.dispatches[0].message, ServerMessage::Join { username: guest("bob") });
    assert!(response.dispatches[0].recipients.is_empty());
}

#[test]
fn join_refusals_in_order() {
    let mut registry = registry_with_alice();
    assert_eq!(
        handle_join(&mut registry, "WXYZ", body(None, None)).err(),
        Some(ServerError::RoomError(RoomError::RoomNotFound))
    );
    assert_eq!(
        handle_join(&mut registry, "ABCD", body(None, None)).err(),
        Some(ServerError::MissingUsername)
    );
    assert_eq!(
        handle_join(&mut registry, "ABCD", body(Some("<bob>"), None)).err(),
        Some(ServerError::InvalidUsername)
    );
    assert_eq!(
        handle_join(&mut registry, "ABCD", body(Some("alice"), None)).err(),
        Some(ServerError::RoomError(RoomError::PlayerExists(guest("alice"))))
    );
    assert_eq!(
        handle_join(&mut registry, "ABCD", body(Some("bob"), Some("guess"))).err(),
        Some(ServerError::RoomError(RoomError::IncorrectPassword))
    );
    assert_eq!(registry.lookup("ABCD").expect("there").players().len(), 1);
}

#[test]
fn connection_is_granted_to_the_owner_of_the_token() {
    let registry = registry_with_alice();
    let expected = Ticket { username: guest("alice"), token: fixed(7) };
    assert_eq!(
        websocket_handler(&registry, "ABCD", &bearer(&fixed(7)), &None),
        Ok(expected.clone())
    );
    assert_eq!(
        websocket_handler(
            &registry,
            "ABCD",
            &HeaderText::Absent,
            &Some(STANDARD.encode(fixed(7)))
        ),
        Ok(expected)
    );
}

#[test]
fn connection_refusals_in_order() {
    let registry = registry_with_alice();
    let good_cookie = Some(STANDARD.encode(fixed(7)));
    assert_eq!(
        websocket_handler(&registry, "WXYZ", &bearer(&fixed(7)), &None),
        Err(ServerError::RoomError(RoomError::RoomNotFound))
    );
    assert_eq!(
        websocket_handler(&registry, "WXYZ", &HeaderText::Absent, &None),
        Err(ServerError::RoomError(RoomError::RoomNotFound))
    );
    assert_eq!(
        websocket_handler(&registry, "ABCD", &HeaderText::Absent, &None),
        Err(ServerError::MissingToken)
    );
    assert_eq!(
        websocket_handler(&registry, "ABCD", &HeaderText::Unreadable, &good_cookie),
        Err(ServerError::InvalidToken)
    );
    assert_eq!(
        websocket_handler(
            &registry,
            "ABCD",
            &HeaderText::Text(STANDARD.encode(fixed(7))),
            &good_cookie
        ),
        Err(ServerError::InvalidToken)
    );
    assert_eq!(
        websocket_handler(&registry, "ABCD", &HeaderText::Absent, &Some("%%%".to_string())),
        Err(ServerError::InvalidToken)
    );
    assert_eq!(
        websocket_handler(&registry, "ABCD", &bearer(&fixed(8)), &None),
        Err(ServerError::InvalidToken)
    );
    assert_eq!(
        websocket_handler(
            &registry,
            "ABCD",
            &HeaderText::Absent,
            &Some(STANDARD.encode([7u8; 15]))
        ),
        Err(ServerError::InvalidToken)
    );
}

#[test]
fn token_travels_from_join_to_connection() {
    let mut registry = RoomRegistry::new();
    let created = handle_create(&mut registry, body(Some("alice"), Some("pw"))).expect("created");
    let joined =
        handle_join(&mut registry, &created.code, body(Some("bob"), Some("pw"))).expect("joined");
    let ticket = websocket_handler(
        &registry,
        &created.code,
        &HeaderText::Text(format!("Bearer {}", joined.token)),
        &None,
    )
    .expect("bob's token");
    assert_eq!(ticket.username, guest("bob"));
    let ticket =
        websocket_handler(&registry, &created.code, &HeaderText::Absent, &Some(created.token))
            .expect("alice's token");
    assert_eq!(ticket.username, guest("alice"));
}
