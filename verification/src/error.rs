//! The conditions under which a room refuses an operation.

use crate::model::RoomErrorView;
use crate::validation::Username;
use vstd::prelude::*;
use vstd::string::StringExecFns;

verus! {

/// Why a room operation was refused. Every refusal is reported to the caller;
/// none ends the room.
#[derive(Clone, Debug, PartialEq, Eq)]
pub enum RoomError {
    RoomNotFound,
    GameStarted,
    PlayerExists(Username),
    PlayerNotFound(Username),
    PlayerConnected(Username),
    PlayerDisconnected(Username),
    IncorrectPassword,
    Unauthorized(Username),
    Unauthenticated,
    /// No unused token could be drawn in the attempts allowed.
    TokenUnavailable,
    /// No unused room code could be drawn in the attempts allowed.
    CodeUnavailable,
}

impl View for RoomError {
    type V = RoomErrorView;

    open spec fn view(&self) -> RoomErrorView {
        match *self {
            RoomError::RoomNotFound => RoomErrorView::RoomNotFound,
            RoomError::GameStarted => RoomErrorView::GameStarted,
            RoomError::PlayerExists(name) => RoomErrorView::PlayerExists(name@),
            RoomError::PlayerNotFound(name) => RoomErrorView::PlayerNotFound(name@),
            RoomError::PlayerConnected(name) => RoomErrorView::PlayerConnected(name@),
            RoomError::PlayerDisconnected(name) => RoomErrorView::PlayerDisconnected(name@),
            RoomError::IncorrectPassword => RoomErrorView::IncorrectPassword,
            RoomError::Unauthorized(name) => RoomErrorView::Unauthorized(name@),
            RoomError::Unauthenticated => RoomErrorView::Unauthenticated,
            RoomError::TokenUnavailable => RoomErrorView::TokenUnavailable,
            RoomError::CodeUnavailable => RoomErrorView::CodeUnavailable,
        }
    }
}

impl RoomErrorView {
    /// The sentence that names a player between `before` and `after`.
    pub open spec fn about(before: Seq<char>, name: Seq<char>, after: Seq<char>) -> Seq<char> {
        before + name + after
    }

    /// The text shown for the refusal.
    pub open spec fn message(self) -> Seq<char> {
        match self {
            RoomErrorView::RoomNotFound => "room not found"@,
            RoomErrorView::GameStarted => "game already started"@,
            RoomErrorView::PlayerExists(name) => Self::about("player '"@, name, "' already exists"@),
            RoomErrorView::PlayerNotFound(name) => Self::about(
                "player '"@,
                name,
                "' not found in room"@,
            ),
            RoomErrorView::PlayerConnected(name) => Self::about(
                "player '"@,
                name,
                "' already connected"@,
            ),
            RoomErrorView::PlayerDisconnected(name) => Self::about(
                "player '"@,
                name,
                "' already disconnected"@,
            ),
            RoomErrorView::IncorrectPassword => "incorrect password"@,
            RoomErrorView::Unauthorized(name) => Self::about("player '"@, name, "' unauthorized"@),
            RoomErrorView::Unauthenticated => "unauthenticated"@,
            RoomErrorView::TokenUnavailable => "no unused token available"@,
            RoomErrorView::CodeUnavailable => "no unused room code available"@,
        }
    }
}

/// The sentence that names `name` after "player '" and before `after`.
fn about_player(name: &Username, after: &str) -> (text: String)
    ensures
        text@ == RoomErrorView::about("player '"@, name@, after@),
{
    let mut text = "player '".to_string();
    text.append(name.as_str());
    text.append(after);
    text
}

impl RoomError {
    /// The text shown for the refusal.
    pub fn message(&self) -> (text: String)
        ensures
            text@ == self@.message(),
    {
        match self {
            RoomError::RoomNotFound => "room not found".to_string(),
            RoomError::GameStarted => "game already started".to_string(),
            RoomError::PlayerExists(name) => about_player(name, "' already exists"),
            RoomError::PlayerNotFound(name) => about_player(name, "' not found in room"),
            RoomError::PlayerConnected(name) => about_player(name, "' already connected"),
            RoomError::PlayerDisconnected(name) => about_player(name, "' already disconnected"),
            RoomError::IncorrectPassword => "incorrect password".to_string(),
            RoomError::Unauthorized(name) => about_player(name, "' unauthorized"),
            RoomError::Unauthenticated => "unauthenticated".to_string(),
            RoomError::TokenUnavailable => "no unused token available".to_string(),
            RoomError::CodeUnavailable => "no unused room code available".to_string(),
        }
    }
}

} // verus!
