use game_server::validation::{is_stable, Password, Username, ValidationError};

#[test]
fn plain_username_is_accepted() {
    let name = Username::validate("alice".to_string()).expect("plain text is stable");
    assert_eq!(name.as_str(), "alice");
}

#[test]
fn username_is_stored_unchanged() {
    for text in ["", "bob", "Bob the Builder", "ünïcødé", "a.b-c_d", "1 > 0"] {
        let accepted = Username::validate(text.to_string());
        if let Ok(name) = accepted {
            assert_eq!(name.as_str(), text);
        }
    }
    assert!(Username::validate("Bob the Builder".to_string()).is_ok());
    assert!(Username::validate("ünïcødé".to_string()).is_ok());
    assert!(Username::validate("".to_string()).is_ok());
}

#[test]
fn markup_in_username_is_rejected() {
    for text in ["<b>alice</b>", "alice<script>alert(1)</script>", "<alice>", "a<!-- c -->b"] {
        assert_eq!(
            Username::validate(text.to_string()),
            Err(ValidationError("username contained html".to_string()))
        );
    }
}

#[test]
fn username_that_normalization_would_escape_is_rejected() {
    assert!(Username::validate("tom & jerry".to_string()).is_err());
    assert!(Username::validate("a < b".to_string()).is_err());
}

#[test]
fn usernames_compare_by_text() {
    let alice = Username::validate("alice".to_string()).expect("plain");
    let again = Username::validate("alice".to_string()).expect("plain");
    let bob = Username::validate("bob".to_string()).expect("plain");
    assert!(alice.same(&again));
    assert!(!alice.same(&bob));
    assert!(alice.clone().same(&alice));
    assert_eq!(alice, again);
    assert_ne!(alice, bob);
}

#[test]
fn any_password_is_accepted() {
    let password =
        Password::validate("<swordfish>".to_string()).expect("passwords are not inspected");
    assert_eq!(password.as_str(), "<swordfish>");
    assert!(Password::validate("".to_string()).is_ok());
}

#[test]
fn passwords_compare_exactly() {
    let left = Password::validate("swordfish".to_string()).expect("any text");
    let same = Password::validate("swordfish".to_string()).expect("any text");
    let other = Password::validate("Swordfish".to_string()).expect("any text");
    let padded = Password::validate("swordfish ".to_string()).expect("any text");
    assert!(left.same(&same));
    assert!(!left.same(&other));
    assert!(!left.same(&padded));
    assert!(left.clone().same(&left));
}

#[test]
fn stability_is_plain_equality() {
    assert!(is_stable(&"bob".to_string(), &"bob".to_string()));
    assert!(!is_stable(&"<b>bob</b>".to_string(), &"bob".to_string()));
    assert!(!is_stable(&"a&b".to_string(), &"a&amp;b".to_string()));
    assert!(is_stable(&"".to_string(), &"".to_string()));
}
