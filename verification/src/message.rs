//! The records that travel between players and a room.

use crate::token::Token;
use crate::validation::{Password, Username};
use vstd::prelude::*;

verus! {

/// Coarse progress of a game; a room without a phase still accepts joins.
#[derive(Clone, Copy, Debug, PartialEq, Eq, Structural)]
pub enum Phase {
    Bidding,
}

/// One row of the roster sent to a player who connects.
#[derive(Clone, Debug, PartialEq, Eq)]
pub struct PlayerDescriptor {
    pub username: Username,
    pub points: i32,
}

/// An event authored by a room.
#[derive(Clone, Debug, PartialEq, Eq)]
pub enum ServerMessage {
    Join { username: Username },
    Leave { username: Username },
    Connect { username: Username },
    Disconnect { username: Username },
    Welcome {
        username: Username,
        players: Vec<PlayerDescriptor>,
        host: Username,
        phase: Option<Phase>,
    },
    Chat { username: Username, text: String },
}

/// A message sent by a player.
#[derive(Clone, Debug, PartialEq, Eq)]
pub enum PlayerMessage {
    Chat { text: String },
    Start,
}

/// A player's message together with the authenticated sender.
#[derive(Clone, Debug, PartialEq, Eq)]
pub struct SignedPlayerMessage {
    pub username: Username,
    pub message: PlayerMessage,
}

/// A host's request to configure the room, carrying the host's token.
#[derive(Clone, Debug, PartialEq, Eq)]
pub struct Config {
    pub token: Token,
}

/// A request to become a member of a room.
#[derive(Clone, Debug, PartialEq, Eq)]
pub struct Join {
    pub username: Username,
    pub password: Option<Password>,
}

/// A request to open the delivery path of the player that `token` names.
#[derive(Clone, Debug, PartialEq, Eq)]
pub struct Connect {
    pub token: Token,
}

/// A request to close the delivery path of a player.
#[derive(Clone, Debug, PartialEq, Eq)]
pub struct Disconnect {
    pub username: Username,
}

/// What a roster row says.
pub struct DescriptorView {
    pub username: Seq<char>,
    pub points: int,
}

/// What a room event says.
pub enum ServerMessageView {
    Join { username: Seq<char> },
    Leave { username: Seq<char> },
    Connect { username: Seq<char> },
    Disconnect { username: Seq<char> },
    Welcome {
        username: Seq<char>,
        players: Seq<DescriptorView>,
        host: Seq<char>,
        phase: Option<Phase>,
    },
    Chat { username: Seq<char>, text: Seq<char> },
}

/// What a player's message says.
pub enum PlayerMessageView {
    Chat { text: Seq<char> },
    Start,
}

/// What a signed message says.
pub struct SignedView {
    pub username: Seq<char>,
    pub message: PlayerMessageView,
}

impl View for PlayerDescriptor {
    type V = DescriptorView;

    open spec fn view(&self) -> DescriptorView {
        DescriptorView { username: self.username@, points: self.points as int }
    }
}

/// The rows of a roster, in order.
pub open spec fn roster_view(rows: Seq<PlayerDescriptor>) -> Seq<DescriptorView> {
    rows.map_values(|row: PlayerDescriptor| row@)
}

impl View for ServerMessage {
    type V = ServerMessageView;

    open spec fn view(&self) -> ServerMessageView {
        match *self {
            ServerMessage::Join { username } => ServerMessageView::Join { username: username@ },
            ServerMessage::Leave { username } => ServerMessageView::Leave { username: username@ },
            ServerMessage::Connect { username } => ServerMessageView::Connect { username: username@ },
            ServerMessage::Disconnect { username } => ServerMessageView::Disconnect {
                username: username@,
            },
            ServerMessage::Welcome { username, players, host, phase } => ServerMessageView::Welcome {
                username: username@,
                players: roster_view(players@),
                host: host@,
                phase,
            },
            ServerMessage::Chat { username, text } => ServerMessageView::Chat {
                username: username@,
                text: text@,
            },
        }
    }
}

impl View for PlayerMessage {
    type V = PlayerMessageView;

    open spec fn view(&self) -> PlayerMessageView {
        match *self {
            PlayerMessage::Chat { text } => PlayerMessageView::Chat { text: text@ },
            PlayerMessage::Start => PlayerMessageView::Start,
        }
    }
}

impl View for SignedPlayerMessage {
    type V = SignedView;

    open spec fn view(&self) -> SignedView {
        SignedView { username: self.username@, message: self.message@ }
    }
}

impl PlayerMessage {
    /// Attaches the authenticated sender to the message.
    pub fn sign(self, username: Username) -> (signed: SignedPlayerMessage)
        ensures
            signed.username == username,
            signed.message == self,
    {
        SignedPlayerMessage { username, message: self }
    }
}

impl Config {
    pub fn new(token: Token) -> (request: Config)
        ensures
            request.token == token,
    {
        Config { token }
    }
}

impl Join {
    pub fn new(username: Username, password: Option<Password>) -> (request: Join)
        ensures
            request.username == username,
            request.password == password,
    {
        Join { username, password }
    }
}

impl Connect {
    pub fn new(token: Token) -> (request: Connect)
        ensures
            request.token == token,
    {
        Connect { token }
    }
}

impl Disconnect {
    pub fn new(username: Username) -> (request: Disconnect)
        ensures
            request.username == username,
    {
        Disconnect { username }
    }
}

} // verus!
