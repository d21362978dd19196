//! The boundary of the session server: what a request must carry, how a token
//! travels as text, and which status answers a refusal.

use crate::error::RoomError;
use crate::message::Join;
use crate::model::{RoomErrorView, RoomView};
use crate::registry::{is_code, RegistryView, RoomRegistry};
use crate::room::{dispatches_view, password_view, Dispatch};
use crate::token::{Token, TOKEN_LEN};
use crate::validation::{normalized, Password, Username};
use vstd::prelude::*;
use vstd::string::{StrSliceExecFns, StringExecFns};

verus! {

/// The text that carries `bytes` in standard base64 with padding.
pub uninterp spec fn base64_text(bytes: Seq<u8>) -> Seq<char>;

/// The bytes that `text` carries in standard base64 with padding, if it is
/// such a text.
pub uninterp spec fn base64_bytes(text: Seq<char>) -> Option<Seq<u8>>;

/// `base64::DecodeError`, the reason for which a text does not decode. Only
/// that there is one is looked at.
#[verifier::external_type_specification]
#[verifier::external_body]
pub struct ExDecodeError(base64::DecodeError);

/// Encodes a token with `base64::Engine::encode` of the engine
/// `base64::engine::general_purpose::STANDARD`. The encoding is a function of
/// the bytes alone, known to the proofs by the name `base64_text`; sixteen
/// bytes are far from the size at which the encoder gives up.
#[verifier::external_body]
fn encode_token(token: &Token) -> (text: String)
    ensures
        text@ == base64_text(token@),
{
    base64::Engine::encode(&base64::engine::general_purpose::STANDARD, token)
}

/// Decodes a text with `base64::Engine::decode` of the engine
/// `base64::engine::general_purpose::STANDARD`. Whether the text decodes, and
/// to which bytes, depends on the text alone and is known to the proofs by the
/// name `base64_bytes`.
#[verifier::external_body]
fn decode_token(text: &str) -> (decoded: Result<Vec<u8>, base64::DecodeError>)
    ensures
        match base64_bytes(text@) {
            Some(bytes) => decoded matches Ok(found) && found@ == bytes,
            None => decoded is Err,
        },
{
    base64::Engine::decode(&base64::engine::general_purpose::STANDARD, text)
}

/// Why a request was refused at the boundary.
#[derive(Clone, Debug, PartialEq, Eq)]
pub enum ServerError {
    MissingUsername,
    InvalidUsername,
    InvalidPassword,
    MissingToken,
    InvalidToken,
    RoomError(RoomError),
}

/// What a boundary refusal says.
pub enum ServerErrorView {
    MissingUsername,
    InvalidUsername,
    InvalidPassword,
    MissingToken,
    InvalidToken,
    RoomError(RoomErrorView),
}

impl View for ServerError {
    type V = ServerErrorView;

    open spec fn view(&self) -> ServerErrorView {
        match *self {
            ServerError::MissingUsername => ServerErrorView::MissingUsername,
            ServerError::InvalidUsername => ServerErrorView::InvalidUsername,
            ServerError::InvalidPassword => ServerErrorView::InvalidPassword,
            ServerError::MissingToken => ServerErrorView::MissingToken,
            ServerError::InvalidToken => ServerErrorView::InvalidToken,
            ServerError::RoomError(refusal) => ServerErrorView::RoomError(refusal@),
        }
    }
}

impl RoomErrorView {
    /// The status that answers the refusal: 404 where something is not found,
    /// 409 where the request conflicts with the state of the room, 400 for a
    /// bad name or password, 403 where the caller is not entitled, and 500
    /// where the server ran out of codes or tokens.
    pub open spec fn status(self) -> u16 {
        match self {
            RoomErrorView::RoomNotFound => 404,
            RoomErrorView::GameStarted => 409,
            RoomErrorView::PlayerExists(_) => 400,
            RoomErrorView::PlayerNotFound(_) => 404,
            RoomErrorView::PlayerConnected(_) => 409,
            RoomErrorView::PlayerDisconnected(_) => 409,
            RoomErrorView::IncorrectPassword => 400,
            RoomErrorView::Unauthorized(_) => 403,
            RoomErrorView::Unauthenticated => 403,
            RoomErrorView::TokenUnavailable => 500,
            RoomErrorView::CodeUnavailable => 500,
        }
    }
}

impl ServerErrorView {
    /// The status that answers the refusal: 400 for what fails validation, 401
    /// for a missing token, 403 for an invalid one, and for a refusal by a room
    /// the status of that refusal.
    pub open spec fn status(self) -> u16 {
        match self {
            ServerErrorView::MissingUsername => 400,
            ServerErrorView::InvalidUsername => 400,
            ServerErrorView::InvalidPassword => 400,
            ServerErrorView::MissingToken => 401,
            ServerErrorView::InvalidToken => 403,
            ServerErrorView::RoomError(refusal) => refusal.status(),
        }
    }

    /// The text shown for the refusal.
    pub open spec fn message(self) -> Seq<char> {
        match self {
            ServerErrorView::MissingUsername => "username missing"@,
            ServerErrorView::InvalidUsername => "username invalid"@,
            ServerErrorView::InvalidPassword => "password invalid"@,
            ServerErrorView::MissingToken => "token missing"@,
            ServerErrorView::InvalidToken => "token invalid"@,
            ServerErrorView::RoomError(refusal) => "room error: "@ + refusal.message(),
        }
    }
}

impl RoomError {
    /// The status that answers the refusal.
    pub fn status(&self) -> (code: u16)
        ensures
            code == self@.status(),
    {
        match self {
            RoomError::RoomNotFound => 404,
            RoomError::GameStarted => 409,
            RoomError::PlayerExists(_) => 400,
            RoomError::PlayerNotFound(_) => 404,
            RoomError::PlayerConnected(_) => 409,
            RoomError::PlayerDisconnected(_) => 409,
            RoomError::IncorrectPassword => 400,
            RoomError::Unauthorized(_) => 403,
            RoomError::Unauthenticated => 403,
            RoomError::TokenUnavailable => 500,
            RoomError::CodeUnavailable => 500,
        }
    }
}

impl ServerError {
    /// The status that answers the refusal.
    pub fn status(&self) -> (code: u16)
        ensures
            code == self@.status(),
    {
        match self {
            ServerError::MissingUsername => 400,
            ServerError::InvalidUsername => 400,
            ServerError::InvalidPassword => 400,
            ServerError::MissingToken => 401,
            ServerError::InvalidToken => 403,
            ServerError::RoomError(refusal) => refusal.status(),
        }
    }

    /// The text shown for the refusal.
    pub fn message(&self) -> (text: String)
        ensures
            text@ == self@.message(),
    {
        match self {
            ServerError::MissingUsername => "username missing".to_string(),
            ServerError::InvalidUsername => "username invalid".to_string(),
            ServerError::InvalidPassword => "password invalid".to_string(),
            ServerError::MissingToken => "token missing".to_string(),
            ServerError::InvalidToken => "token invalid".to_string(),
            ServerError::RoomError(refusal) => {
                let mut text = "room error: ".to_string();
                let reason = refusal.message();
                text.append(reason.as_str());
                text
            },
        }
    }
}

/// The value of a request header, as far as it can be read.
#[derive(Clone, Debug, PartialEq, Eq)]
pub enum HeaderText {
    /// The request has no such header.
    Absent,
    /// The header is there, but its value is no text.
    Unreadable,
    /// The header's value.
    Text(String),
}

/// What a header says.
pub enum HeaderView {
    Absent,
    Unreadable,
    Text(Seq<char>),
}

impl View for HeaderText {
    type V = HeaderView;

    open spec fn view(&self) -> HeaderView {
        match *self {
            HeaderText::Absent => HeaderView::Absent,
            HeaderText::Unreadable => HeaderView::Unreadable,
            HeaderText::Text(text) => HeaderView::Text(text@),
        }
    }
}

/// What precedes the credential in an authorization header.
pub open spec fn bearer_prefix() -> Seq<char> {
    "Bearer "@
}

/// The credential that an authorization header's value carries, if it has the
/// form of one.
pub open spec fn bearer_credential(value: Seq<char>) -> Option<Seq<char>> {
    if bearer_prefix().is_prefix_of(value) {
        Some(value.skip(bearer_prefix().len() as int))
    } else {
        None
    }
}

/// The encoded token that a request presents: the credential of its
/// authorization header where it has that header, else its token cookie. A
/// header that is there but holds no credential is not made up for by a cookie.
pub open spec fn presented_text(authorization: HeaderView, cookie: Option<Seq<char>>) -> Result<
    Seq<char>,
    ServerErrorView,
> {
    match authorization {
        HeaderView::Unreadable => Err(ServerErrorView::InvalidToken),
        HeaderView::Text(value) => match bearer_credential(value) {
            Some(credential) => Ok(credential),
            None => Err(ServerErrorView::InvalidToken),
        },
        HeaderView::Absent => match cookie {
            Some(text) => Ok(text),
            None => Err(ServerErrorView::MissingToken),
        },
    }
}

/// The token bytes that a request presents.
pub open spec fn presented_token(authorization: HeaderView, cookie: Option<Seq<char>>) -> Result<
    Seq<u8>,
    ServerErrorView,
> {
    match presented_text(authorization, cookie) {
        Err(refusal) => Err(refusal),
        Ok(text) => match base64_bytes(text) {
            Some(bytes) => Ok(bytes),
            None => Err(ServerErrorView::InvalidToken),
        },
    }
}

/// What an optional text says.
pub open spec fn text_view(text: Option<String>) -> Option<Seq<char>> {
    match text {
        Some(text) => Some(text@),
        None => None,
    }
}

/// The credential of an authorization header's value.
pub fn strip_bearer(value: &str) -> (credential: Option<&str>)
    ensures
        match bearer_credential(value@) {
            Some(text) => credential matches Some(found) && found@ == text,
            None => credential is None,
        },
{
    let prefix = "Bearer ";
    proof {
        reveal_strlit("Bearer ");
    }
    let len = value.unicode_len();
    if len < 7 {
        return None;
    }
    let mut i: usize = 0;
    while i < 7
        invariant
            i <= 7,
            prefix@ == bearer_prefix(),
            prefix@.len() == 7,
            value@.len() >= 7,
            forall|j: int| 0 <= j < i ==> value@[j] == prefix@[j],
        decreases 7 - i,
    {
        if value.get_char(i) != prefix.get_char(i) {
            proof {
                assert(value@.subrange(0, 7)[i as int] != prefix@[i as int]);
            }
            return None;
        }
        i += 1;
    }
    proof {
        assert(prefix@ =~= value@.subrange(0, 7));
    }
    Some(value.substring_char(7, len))
}

/// The encoded token that a request presents.
pub fn credential_text<'a>(authorization: &'a HeaderText, cookie: &'a Option<String>) -> (result:
    Result<&'a str, ServerError>)
    ensures
        match presented_text(authorization@, text_view(*cookie)) {
            Ok(text) => result matches Ok(found) && found@ == text,
            Err(refusal) => result matches Err(raised) && raised@ == refusal,
        },
{
    match authorization {
        HeaderText::Unreadable => Err(ServerError::InvalidToken),
        HeaderText::Text(value) => match strip_bearer(value.as_str()) {
            Some(credential) => Ok(credential),
            None => Err(ServerError::InvalidToken),
        },
        HeaderText::Absent => match cookie {
            Some(text) => Ok(text.as_str()),
            None => Err(ServerError::MissingToken),
        },
    }
}

/// The token bytes that a request presents.
pub fn token_bytes(authorization: &HeaderText, cookie: &Option<String>) -> (result: Result<
    Vec<u8>,
    ServerError,
>)
    ensures
        match presented_token(authorization@, text_view(*cookie)) {
            Ok(bytes) => result matches Ok(found) && found@ == bytes,
            Err(refusal) => result matches Err(raised) && raised@ == refusal,
        },
{
    let text = match credential_text(authorization, cookie) {
        Ok(text) => text,
        Err(refusal) => {
            return Err(refusal);
        },
    };
    match decode_token(text) {
        Ok(bytes) => Ok(bytes),
        Err(_) => Err(ServerError::InvalidToken),
    }
}

/// The token that sixteen bytes spell.
fn token_of(bytes: &Vec<u8>) -> (token: Token)
    requires
        bytes@.len() == TOKEN_LEN,
    ensures
        token@ == bytes@,
{
    let mut token: Token = [0u8; 16];
    let mut i: usize = 0;
    while i < TOKEN_LEN
        invariant
            i <= TOKEN_LEN,
            bytes@.len() == TOKEN_LEN,
            forall|j: int| 0 <= j < i ==> token@[j] == bytes@[j],
        decreases TOKEN_LEN - i,
    {
        token[i] = bytes[i];
        i += 1;
    }
    proof {
        assert(token@ =~= bytes@);
    }
    token
}

/// The body of a request to create a room or to join one.
#[derive(Clone, Debug, PartialEq, Eq)]
pub struct Credentials {
    pub username: Option<String>,
    pub password: Option<String>,
}

/// The answer to the creation of a room.
#[derive(Clone, Debug, PartialEq, Eq)]
pub struct CreateResponse {
    pub code: String,
    /// The host's token, encoded for transport.
    pub token: String,
}

/// The answer to a join.
#[derive(Clone, Debug)]
pub struct JoinResponse {
    /// The new member's token, encoded for transport.
    pub token: String,
    /// The announcement of the join, to be delivered.
    pub dispatches: Vec<Dispatch>,
}

/// Who may open a connection, and with which token.
#[derive(Clone, Debug, PartialEq, Eq)]
pub struct Ticket {
    pub username: Username,
    pub token: Token,
}

/// Why the fields of a request body fail validation, if they do.
pub open spec fn credentials_refusal(username: Option<Seq<char>>) -> Option<ServerErrorView> {
    match username {
        None => Some(ServerErrorView::MissingUsername),
        Some(name) => if normalized(name) != name {
            Some(ServerErrorView::InvalidUsername)
        } else {
            None
        },
    }
}

/// Validates the fields of a request body.
pub fn validate_credentials(payload: Credentials) -> (result: Result<Join, ServerError>)
    ensures
        match credentials_refusal(text_view(payload.username)) {
            Some(refusal) => result matches Err(raised) && raised@ == refusal,
            None => result matches Ok(request) && Some(request.username@) == text_view(
                payload.username,
            ) && password_view(request.password) == text_view(payload.password),
        },
{
    let Credentials { username, password } = payload;
    let name = match username {
        Some(name) => name,
        None => {
            return Err(ServerError::MissingUsername);
        },
    };
    let username = match Username::validate(name) {
        Ok(username) => username,
        Err(_) => {
            return Err(ServerError::InvalidUsername);
        },
    };
    let password = match password {
        None => None,
        Some(secret) => match Password::validate(secret) {
            Ok(password) => Some(password),
            Err(_) => {
                return Err(ServerError::InvalidPassword);
            },
        },
    };
    Ok(Join::new(username, password))
}

/// Creates a room for the host that `payload` names and answers its code and
/// the host's token. A body that fails validation changes nothing. Where
/// the body is in order, a room is made unless every code drawn is taken,
/// which cannot be where no room stands under anything of the form of a code.
pub fn handle_create(registry: &mut RoomRegistry, payload: Credentials) -> (result: Result<
    CreateResponse,
    ServerError,
>)
    requires
        old(registry)@.wf(),
    ensures
        final(registry)@.wf(),
        credentials_refusal(text_view(payload.username)) is None && old(registry)@.has_no_code()
            ==> result is Ok,
        match credentials_refusal(text_view(payload.username)) {
            Some(refusal) => {
                &&& final(registry)@ == old(registry)@
                &&& result matches Err(raised)
                &&& raised@ == refusal
            },
            None => match result {
                Ok(response) => {
                    &&& is_code(response.code@)
                    &&& !old(registry)@.rooms.contains_key(response.code@)
                    &&& exists|token: Seq<u8>|
                        #![trigger base64_text(token)]
                        {
                            &&& response.token@ == base64_text(token)
                            &&& final(registry)@ == old(registry)@.with_room(
                                response.code@,
                                RoomView::initial(
                                    payload.username->Some_0@,
                                    text_view(payload.password),
                                    token,
                                ),
                            )
                            &&& old(registry)@.room_drawn(
                                payload.username->Some_0@,
                                text_view(payload.password),
                                final(registry)@,
                                Ok((response.code@, token)),
                            )
                        }
                },
                Err(raised) => {
                    &&& final(registry)@ == old(registry)@
                    &&& raised@ == ServerErrorView::RoomError(RoomErrorView::CodeUnavailable)
                    &&& old(registry)@.room_drawn(
                        payload.username->Some_0@,
                        text_view(payload.password),
                        final(registry)@,
                        Err(RoomErrorView::CodeUnavailable),
                    )
                },
            },
        },
{
    let request = match validate_credentials(payload) {
        Ok(request) => request,
        Err(refusal) => {
            return Err(refusal);
        },
    };
    let Join { username, password } = request;
    match registry.create_room(username, password) {
        Ok((code, token)) => {
            let response = CreateResponse { code, token: encode_token(&token) };
            proof {
                assert(response.token@ == base64_text(token@));
            }
            Ok(response)
        },
        Err(refusal) => Err(ServerError::RoomError(refusal)),
    }
}

/// Admits the player that `payload` names to the room under `code` and
/// answers the player's token. An unknown code is reported before the body is
/// looked at; a refusal changes nothing.
pub fn handle_join(registry: &mut RoomRegistry, code: &str, payload: Credentials) -> (result:
    Result<JoinResponse, ServerError>)
    requires
        old(registry)@.wf(),
    ensures
        final(registry)@.wf(),
        match old(registry)@.lookup(code@) {
            Err(refusal) => {
                &&& final(registry)@ == old(registry)@
                &&& result matches Err(raised)
                &&& raised@ == ServerErrorView::RoomError(refusal)
            },
            Ok(room) => match credentials_refusal(text_view(payload.username)) {
                Some(refusal) => {
                    &&& final(registry)@ == old(registry)@
                    &&& result matches Err(raised)
                    &&& raised@ == refusal
                },
                None => {
                    &&& final(registry)@.rooms.contains_key(code@)
                    &&& final(registry)@ == old(registry)@.with_room(
                        code@,
                        final(registry)@.rooms[code@],
                    )
                    &&& match result {
                        Ok(response) => exists|token: Seq<u8>|
                            #![trigger base64_text(token)]
                            {
                                &&& response.token@ == base64_text(token)
                                &&& room.join_minted(
                                    payload.username->Some_0@,
                                    text_view(payload.password),
                                    final(registry)@.rooms[code@],
                                    Ok((token, dispatches_view(response.dispatches@))),
                                )
                            },
                        Err(raised) => {
                            &&& raised@ matches ServerErrorView::RoomError(refusal)
                            &&& room.join_minted(
                                payload.username->Some_0@,
                                text_view(payload.password),
                                final(registry)@.rooms[code@],
                                Err(refusal),
                            )
                        },
                    }
                },
            },
        },
{
    if !registry.contains(code) {
        return Err(ServerError::RoomError(RoomError::RoomNotFound));
    }
    let request = match validate_credentials(payload) {
        Ok(request) => request,
        Err(refusal) => {
            return Err(refusal);
        },
    };
    match registry.join(code, request) {
        Ok((token, dispatches)) => {
            let response = JoinResponse { token: encode_token(&token), dispatches };
            proof {
                assert(response.token@ == base64_text(token@));
            }
            Ok(response)
        },
        Err(refusal) => Err(ServerError::RoomError(refusal)),
    }
}

/// Whom a request to open a connection to the room under `code` is granted
/// to, or why it is refused: an unknown code comes first, then a token that
/// is missing or is not one, then a token that the room never issued.
pub open spec fn admission(
    registry: RegistryView,
    code: Seq<char>,
    authorization: HeaderView,
    cookie: Option<Seq<char>>,
) -> Result<(Seq<char>, Seq<u8>), ServerErrorView> {
    match registry.lookup(code) {
        Err(refusal) => Err(ServerErrorView::RoomError(refusal)),
        Ok(room) => match presented_token(authorization, cookie) {
            Err(refusal) => Err(refusal),
            Ok(bytes) => match room.authenticate(bytes) {
                None => Err(ServerErrorView::InvalidToken),
                Some(name) => Ok((name, bytes)),
            },
        },
    }
}

/// Decides whether a connection to the room under `code` may be opened by
/// the request that carries `authorization` and `cookie`, and for whom.
/// Nothing is changed: the connection itself is opened by the bridge.
pub fn websocket_handler(
    registry: &RoomRegistry,
    code: &str,
    authorization: &HeaderText,
    cookie: &Option<String>,
) -> (result: Result<Ticket, ServerError>)
    requires
        registry@.wf(),
    ensures
        match admission(registry@, code@, authorization@, text_view(*cookie)) {
            Ok(granted) => result matches Ok(ticket) && ticket.username@ == granted.0
                && ticket.token@ == granted.1,
            Err(refusal) => result matches Err(raised) && raised@ == refusal,
        },
{
    let room = match registry.lookup(code) {
        Ok(room) => room,
        Err(refusal) => {
            return Err(ServerError::RoomError(refusal));
        },
    };
    let bytes = match token_bytes(authorization, cookie) {
        Ok(bytes) => bytes,
        Err(refusal) => {
            return Err(refusal);
        },
    };
    match room.authenticate(bytes.as_slice()) {
        Ok(username) => {
            proof {
                assert(room@.tokens.contains_key(bytes@));
            }
            Ok(Ticket { username, token: token_of(&bytes) })
        },
        Err(_) => Err(ServerError::InvalidToken),
    }
}

} // verus!
