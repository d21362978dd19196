//! Opaque bearer tokens.

use vstd::prelude::*;

verus! {

/// Number of bytes in a token.
pub const TOKEN_LEN: usize = 16;

/// How often a token is drawn for one player before minting gives up.
pub const TOKEN_ATTEMPTS: usize = 8;

/// An opaque credential, bound to exactly one username of one room.
pub type Token = [u8; 16];

/// Overwrites `token` with bytes from the thread's generator, drawn with
/// `rand::RngCore::fill_bytes`. Nothing is promised of the bytes drawn.
#[verifier::external_body]
fn fill_random(token: &mut Token) {
    rand::RngCore::fill_bytes(&mut rand::rng(), token);
}

/// Draws a token.
pub(crate) fn random_token() -> (token: Token) {
    let mut token: Token = [0u8; 16];
    fill_random(&mut token);
    token
}

/// Draws `count` tokens, one after the other.
pub(crate) fn draw_tokens(count: usize) -> (tokens: Vec<Token>)
    ensures
        tokens@.len() == count,
{
    let mut tokens: Vec<Token> = Vec::new();
    while tokens.len() < count
        invariant
            tokens@.len() <= count,
        decreases count - tokens@.len(),
    {
        tokens.push(random_token());
    }
    tokens
}

/// The bytes of each of `tokens`, in order.
pub open spec fn tokens_view(tokens: Seq<Token>) -> Seq<Seq<u8>> {
    tokens.map_values(|token: Token| token@)
}

/// The bytes of a token, if there is one.
pub open spec fn token_view(token: Option<Token>) -> Option<Seq<u8>> {
    match token {
        Some(token) => Some(token@),
        None => None,
    }
}

/// Whether `candidate` is byte for byte the token `token`; a byte string of any
/// other length is no token at all.
pub fn matches_token(token: &Token, candidate: &[u8]) -> (same: bool)
    ensures
        same == (token@ == candidate@),
{
    if candidate.len() != TOKEN_LEN {
        return false;
    }
    let mut i: usize = 0;
    while i < TOKEN_LEN
        invariant
            i <= TOKEN_LEN,
            candidate@.len() == TOKEN_LEN,
            forall|j: int| 0 <= j < i ==> token@[j] == candidate@[j],
        decreases TOKEN_LEN - i,
    {
        if token[i] != candidate[i] {
            return false;
        }
        i += 1;
    }
    assert(token@ =~= candidate@);
    true
}

} // verus!
