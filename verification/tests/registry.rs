use game_server::error::RoomError;
use game_server::message::{Connect, Disconnect, Join, PlayerMessage, ServerMessage};
use game_server::registry::{spell_code, RoomRegistry, CODE_LEN};
use game_server::room::Dispatch;
use game_server::token::Token;
use game_server::validation::{Password, Username};

fn member(text: &str) -> Username {
    Username::validate(text.to_string()).expect("a plain name")
}

fn word(text: &str) -> Password {
    Password::validate(text.to_string()).expect("any text")
}

fn bytes(fill: u8) -> Token {
    [fill; 16]
}

/// What was authored, and for whom.
fn authored(dispatches: &[Dispatch]) -> Vec<(ServerMessage, Vec<Username>)> {
    dispatches
        .iter()
        .map(|dispatch| {
            (
                dispatch.message.clone(),
                dispatch.recipients.iter().map(|recipient| recipient.username.clone()).collect(),
            )
        })
        .collect()
}

/// The codes of `codes` that are registered, and who hosts each room.
fn hosts(registry: &RoomRegistry, codes: &[&str]) -> Vec<Option<(Username, usize)>> {
    codes
        .iter()
        .map(|code| {
            registry.lookup(code).ok().map(|room| (room.host().clone(), room.players().len()))
        })
        .collect()
}

#[test]
fn new_registry_is_empty() {
    let registry = RoomRegistry::new();
    assert!(!registry.contains("ABCD"));
    assert_eq!(registry.lookup("ABCD").err(), Some(RoomError::RoomNotFound));
}

#[test]
fn spell_code_picks_from_the_alphabet() {
    assert_eq!(spell_code(&[0, 1, 2, 3]), "ABCD");
    assert_eq!(spell_code(&[25, 26, 35, 0]), "Z09A");
    assert_eq!(spell_code(&[]), "");
    assert_eq!(spell_code(&[36, 37, 71, 72]), "AB9A");
    assert_eq!(spell_code(&[27, 28, 29, 30, 31, 32, 33, 34]), "12345678");
}

#[test]
fn created_room_is_found_under_its_code() {
    let mut registry = RoomRegistry::new();
    let (code, token) = registry
        .create_room(member("alice"), Some(word("swordfish")))
        .expect("an empty registry has room");
    assert_eq!(code.chars().count(), CODE_LEN);
    assert!(code.chars().all(|c| c.is_ascii_uppercase() || c.is_ascii_digit()));
    assert!(registry.contains(&code));
    let room = registry.lookup(&code).expect("just created");
    assert_eq!(room.host(), &member("alice"));
    assert_eq!(room.authenticate(&token), Ok(member("alice")));
    assert_eq!(registry.authenticate(&code, &token), Ok(member("alice")));
}

#[test]
fn created_rooms_get_distinct_codes() {
    let mut registry = RoomRegistry::new();
    let mut codes = Vec::new();
    for _ in 0..50 {
        let (code, _) = registry.create_room(member("alice"), None).expect("room for fifty");
        assert!(!codes.contains(&code));
        codes.push(code);
    }
    for code in &codes {
        assert!(registry.contains(code));
    }
}

#[test]
fn taken_code_is_refused() {
    let mut registry = RoomRegistry::new();
    assert_eq!(
        registry.create_room_with("ABCD".to_string(), member("alice"), None, bytes(1)),
        Ok(("ABCD".to_string(), bytes(1)))
    );
    assert_eq!(
        registry.create_room_with("ABCD".to_string(), member("bob"), None, bytes(2)),
        Err(RoomError::CodeUnavailable)
    );
    assert_eq!(registry.lookup("ABCD").expect("still there").host(), &member("alice"));
    assert_eq!(registry.authenticate("ABCD", &bytes(2)), Err(RoomError::Unauthenticated));
}

#[test]
fn first_free_passes_over_taken_codes() {
    let mut registry = RoomRegistry::new();
    let codes = |texts: &[&str]| texts.iter().map(|text| text.to_string()).collect::<Vec<_>>();
    assert_eq!(registry.first_free(&codes(&["AAAA", "BBBB"])), Some(0));
    assert_eq!(registry.first_free(&[]), None);
    registry
        .create_room_with("AAAA".to_string(), member("alice"), None, bytes(1))
        .expect("free code");
    registry
        .create_room_with("BBBB".to_string(), member("alice"), None, bytes(1))
        .expect("free code");
    assert_eq!(registry.first_free(&codes(&["AAAA", "BBBB", "CCCC", "DDDD"])), Some(2));
    assert_eq!(registry.first_free(&codes(&["BBBB", "AAAA", "BBBB"])), None);
    assert_eq!(registry.first_free(&codes(&["aaaa"])), Some(0));
}

#[test]
fn create_room_among_takes_the_first_free_code() {
    let mut registry = RoomRegistry::new();
    let codes = vec!["AAAA".to_string(), "BBBB".to_string(), "CCCC".to_string()];
    for (host, expected) in [("alice", "AAAA"), ("bob", "BBBB"), ("carol", "CCCC")] {
        assert_eq!(
            registry.create_room_among(&codes, member(host), None, bytes(1)),
            Ok((expected.to_string(), bytes(1)))
        );
        assert_eq!(registry.lookup(expected).expect("just created").host(), &member(host));
    }
    assert_eq!(
        registry.create_room_among(&codes, member("dave"), None, bytes(1)),
        Err(RoomError::CodeUnavailable)
    );
    assert_eq!(
        registry.create_room_among(&[], member("dave"), None, bytes(1)),
        Err(RoomError::CodeUnavailable)
    );
    assert_eq!(registry.lookup("AAAA").expect("kept").host(), &member("alice"));
}

#[test]
fn unknown_code_is_room_not_found() {
    let mut registry = RoomRegistry::new();
    registry
        .create_room_with("ABCD".to_string(), member("alice"), None, bytes(1))
        .expect("free code");
    let before = hosts(&registry, &["ABCD", "WXYZ"]);
    assert_eq!(
        registry.join("WXYZ", Join::new(member("bob"), None)).err(),
        Some(RoomError::RoomNotFound)
    );
    assert_eq!(
        registry.join_with("WXYZ", Join::new(member("bob"), None), bytes(2)).err(),
        Some(RoomError::RoomNotFound)
    );
    assert_eq!(
        registry.connect("WXYZ", Connect::new(bytes(1))).err(),
        Some(RoomError::RoomNotFound)
    );
    assert_eq!(
        registry.disconnect("WXYZ", Disconnect::new(member("alice"))).err(),
        Some(RoomError::RoomNotFound)
    );
    assert_eq!(
        registry.handle("WXYZ", PlayerMessage::Start.sign(member("alice"))).err(),
        Some(RoomError::RoomNotFound)
    );
    assert_eq!(registry.authenticate("WXYZ", &bytes(1)), Err(RoomError::RoomNotFound));
    assert_eq!(registry.authenticate("abcd", &bytes(1)), Err(RoomError::RoomNotFound));
    assert_eq!(hosts(&registry, &["ABCD", "WXYZ"]), before);
}

#[test]
fn rooms_do_not_share_members_or_tokens() {
    let mut registry = RoomRegistry::new();
    registry
        .create_room_with("AAAA".to_string(), member("alice"), None, bytes(1))
        .expect("free code");
    registry
        .create_room_with("BBBB".to_string(), member("alice"), None, bytes(2))
        .expect("free code");
    registry.join_with("AAAA", Join::new(member("bob"), None), bytes(3)).expect("bob joins");
    assert_eq!(registry.authenticate("AAAA", &bytes(3)), Ok(member("bob")));
    assert_eq!(registry.authenticate("BBBB", &bytes(3)), Err(RoomError::Unauthenticated));
    assert_eq!(registry.authenticate("BBBB", &bytes(1)), Err(RoomError::Unauthenticated));
    assert!(!registry.lookup("BBBB").expect("there").is_member(&member("bob")));
    assert_eq!(
        registry.join_with("BBBB", Join::new(member("bob"), None), bytes(3)).ok().map(|a| a.0),
        Some(bytes(3))
    );
}

#[test]
fn room_operations_reach_the_room_under_the_code() {
    let mut registry = RoomRegistry::new();
    registry
        .create_room_with("AAAA".to_string(), member("alice"), None, bytes(1))
        .expect("free code");
    registry
        .create_room_with("BBBB".to_string(), member("zed"), None, bytes(9))
        .expect("free code");
    let (_inbox, dispatches) =
        registry.connect("AAAA", Connect::new(bytes(1))).expect("alice connects");
    assert_eq!(dispatches.len(), 2);
    assert_eq!(
        registry.connect("AAAA", Connect::new(bytes(1))).err(),
        Some(RoomError::PlayerConnected(member("alice")))
    );
    let (_, announced) = registry.join("AAAA", Join::new(member("bob"), None)).expect("bob");
    assert_eq!(
        authored(&announced),
        vec![(ServerMessage::Join { username: member("bob") }, vec![member("alice")])]
    );
    let chatted = registry
        .handle("AAAA", PlayerMessage::Chat { text: "hi".to_string() }.sign(member("bob")))
        .expect("chat is never refused");
    assert_eq!(
        authored(&chatted),
        vec![(
            ServerMessage::Chat { username: member("bob"), text: "hi".to_string() },
            vec![member("alice")]
        )]
    );
    let left = registry
        .disconnect("AAAA", Disconnect::new(member("alice")))
        .expect("alice is connected");
    assert_eq!(
        authored(&left),
        vec![(ServerMessage::Disconnect { username: member("alice") }, vec![])]
    );
    let untouched = registry.lookup("BBBB").expect("there");
    assert!(!untouched.is_connected(&member("zed")));
    assert_eq!(untouched.players().len(), 1);
}
