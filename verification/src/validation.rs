//! Validated display identities and join secrets.

use vstd::prelude::*;

verus! {

/// The normal form of a free-text field: the text that is left once all markup
/// has been stripped from it.
pub uninterp spec fn normalized(text: Seq<char>) -> Seq<char>;

/// Why a free-text field was turned down.
#[derive(Clone, Debug, PartialEq, Eq)]
pub struct ValidationError(pub String);

/// A display identity that is its own normal form.
#[derive(Debug, PartialEq, Eq, Hash)]
pub struct Username(String);

/// A join secret, compared by exact equality and never interpreted.
#[derive(Debug, PartialEq, Eq, Hash)]
pub struct Password(String);

/// Strips all markup from `text` with `ammonia::Builder::empty().clean(..)` and
/// renders what is left. The sanitizer is a function of its input alone; its
/// result is known to the proofs only by the name `normalized`.
#[verifier::external_body]
fn strip_markup(text: &String) -> (cleaned: String)
    ensures
        cleaned@ == normalized(text@),
{
    ammonia::Builder::empty().clean(text.as_str()).to_string()
}

/// Whether `value` already is the normal form `cleaned` that was computed for it.
pub fn is_stable(value: &String, cleaned: &String) -> (stable: bool)
    ensures
        stable == (value@ == cleaned@),
{
    *value == *cleaned
}

impl View for Username {
    type V = Seq<char>;

    closed spec fn view(&self) -> Seq<char> {
        self.0@
    }
}

impl Username {
    #[verifier::type_invariant]
    spec fn stable(self) -> bool {
        normalized(self.0@) == self.0@
    }

    /// Accepts `value` as a username if normalization leaves it unchanged, and
    /// rejects it otherwise; a value is never rewritten.
    pub fn validate(value: String) -> (result: Result<Username, ValidationError>)
        ensures
            result is Ok <==> normalized(value@) == value@,
            result matches Ok(name) ==> name@ == value@,
            result matches Err(e) ==> e.0@ == "username contained html"@,
    {
        let cleaned = strip_markup(&value);
        if is_stable(&value, &cleaned) {
            Ok(Username(value))
        } else {
            Err(ValidationError("username contained html".to_string()))
        }
    }

    /// The validated text, which is its own normal form.
    pub fn as_str(&self) -> (text: &str)
        ensures
            text@ == self@,
            normalized(text@) == text@,
    {
        proof {
            use_type_invariant(self);
        }
        self.0.as_str()
    }

    /// Whether two usernames are the same text.
    pub fn same(&self, other: &Username) -> (same: bool)
        ensures
            same == (self@ == other@),
    {
        self.0 == other.0
    }

}

impl Clone for Username {
    fn clone(&self) -> (copy: Self)
        ensures
            copy@ == self@,
    {
        proof {
            use_type_invariant(self);
        }
        Username(self.0.clone())
    }
}

impl View for Password {
    type V = Seq<char>;

    closed spec fn view(&self) -> Seq<char> {
        self.0@
    }
}

impl Password {
    /// Accepts any text as a password.
    pub fn validate(value: String) -> (result: Result<Password, ValidationError>)
        ensures
            result matches Ok(password) && password@ == value@,
    {
        Ok(Password(value))
    }

    /// The secret text.
    pub fn as_str(&self) -> (text: &str)
        ensures
            text@ == self@,
    {
        self.0.as_str()
    }

    /// Whether two passwords are exactly equal.
    pub fn same(&self, other: &Password) -> (same: bool)
        ensures
            same == (self@ == other@),
    {
        self.0 == other.0
    }
}

impl Clone for Password {
    fn clone(&self) -> (copy: Self)
        ensures
            copy@ == self@,
    {
        Password(self.0.clone())
    }
}

} // verus!
