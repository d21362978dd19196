//! The mathematical model of a room: what a room is, and what each operation
//! makes of it.

use crate::channel::Outbox;
use crate::message::{DescriptorView, Phase, PlayerMessageView, ServerMessageView, SignedView};
use crate::table::first_free;
use crate::token::{TOKEN_ATTEMPTS, TOKEN_LEN};
use vstd::prelude::*;

verus! {

/// A member of a room.
pub struct PlayerView {
    pub username: Seq<char>,
    pub points: int,
    /// The sending end of the player's delivery path, while the player is
    /// connected.
    pub connection: Option<Outbox>,
}

impl PlayerView {
    /// A member who has just joined: no points, no delivery path.
    pub open spec fn joined(username: Seq<char>) -> PlayerView {
        PlayerView { username, points: 0, connection: None }
    }

    /// Whether the player has a live delivery path.
    pub open spec fn connected(self) -> bool {
        self.connection is Some
    }
}

/// A player to whom an event is addressed, and the sending end of the
/// delivery path that the event is to be put into.
pub struct RecipientView {
    pub username: Seq<char>,
    pub channel: Outbox,
}

/// One authored event and the players it is to be delivered to, in order.
pub struct DispatchView {
    pub message: ServerMessageView,
    pub recipients: Seq<RecipientView>,
}

impl DispatchView {
    /// The usernames of the recipients, in order.
    pub open spec fn names(self) -> Seq<Seq<char>> {
        recipient_names(self.recipients)
    }
}

/// The usernames of `recipients`, in order.
pub open spec fn recipient_names(recipients: Seq<RecipientView>) -> Seq<Seq<char>> {
    recipients.map_values(|recipient: RecipientView| recipient.username)
}

/// Why a room operation was refused.
pub enum RoomErrorView {
    RoomNotFound,
    GameStarted,
    PlayerExists(Seq<char>),
    PlayerNotFound(Seq<char>),
    PlayerConnected(Seq<char>),
    PlayerDisconnected(Seq<char>),
    IncorrectPassword,
    Unauthorized(Seq<char>),
    Unauthenticated,
    TokenUnavailable,
    CodeUnavailable,
}

/// What an operation that authors events answers.
pub type Outcome = Result<Seq<DispatchView>, RoomErrorView>;

/// A room.
#[verifier::ext_equal]
pub struct RoomView {
    /// The username that each issued token is bound to.
    pub tokens: Map<Seq<u8>, Seq<char>>,
    pub password: Option<Seq<char>>,
    /// The members, in the order in which they joined.
    pub players: Seq<PlayerView>,
    pub host: Seq<char>,
    pub phase: Option<Phase>,
}

/// Whether `candidates` are the tokens drawn for one join: `TOKEN_ATTEMPTS`
/// of them, each of the length of a token.
pub open spec fn drawn_tokens(candidates: Seq<Seq<u8>>) -> bool {
    &&& candidates.len() == TOKEN_ATTEMPTS
    &&& forall|i: int| 0 <= i < candidates.len() ==> (#[trigger] candidates[i]).len() == TOKEN_LEN
}

/// The usernames of `players`, in order.
pub open spec fn usernames(players: Seq<PlayerView>) -> Seq<Seq<char>> {
    players.map_values(|player: PlayerView| player.username)
}

/// The usernames of those of `players` that are connected, in order.
pub open spec fn connected_names(players: Seq<PlayerView>) -> Seq<Seq<char>>
    decreases players.len(),
{
    if players.len() == 0 {
        Seq::empty()
    } else {
        let earlier = connected_names(players.drop_last());
        if players.last().connected() {
            earlier.push(players.last().username)
        } else {
            earlier
        }
    }
}

/// Those of `players` that are connected, in order, each with the sending end
/// of its own delivery path.
pub open spec fn connected_recipients(players: Seq<PlayerView>) -> Seq<RecipientView>
    decreases players.len(),
{
    if players.len() == 0 {
        Seq::empty()
    } else {
        let earlier = connected_recipients(players.drop_last());
        match players.last().connection {
            Some(channel) => earlier.push(
                RecipientView { username: players.last().username, channel },
            ),
            None => earlier,
        }
    }
}

/// The delivery path of the last of `players` that is called `name`, if there
/// is such a player and it is connected.
pub open spec fn connection_of(players: Seq<PlayerView>, name: Seq<char>) -> Option<Outbox>
    decreases players.len(),
{
    if players.len() == 0 {
        None
    } else if players.last().username == name {
        players.last().connection
    } else {
        connection_of(players.drop_last(), name)
    }
}

/// The roster rows of `players`, in order.
pub open spec fn roster(players: Seq<PlayerView>) -> Seq<DescriptorView> {
    players.map_values(
        |player: PlayerView| DescriptorView { username: player.username, points: player.points },
    )
}

/// `players` with `connection` as the delivery path of the player called
/// `name`.
pub open spec fn with_connection(
    players: Seq<PlayerView>,
    name: Seq<char>,
    connection: Option<Outbox>,
) -> Seq<PlayerView> {
    players.map_values(
        |player: PlayerView|
            if player.username == name {
                PlayerView { connection, ..player }
            } else {
                player
            },
    )
}

impl RoomView {
    /// Whether `name` is a member.
    pub open spec fn is_member(self, name: Seq<char>) -> bool {
        usernames(self.players).contains(name)
    }

    /// Whether `name` is a member with a live delivery path.
    pub open spec fn is_connected(self, name: Seq<char>) -> bool {
        connected_names(self.players).contains(name)
    }

    /// The invariant of every room: members have pairwise distinct usernames, the
    /// host is a member, and every token is bound to a member.
    pub open spec fn wf(self) -> bool {
        &&& usernames(self.players).no_duplicates()
        &&& self.is_member(self.host)
        &&& self.tokens.dom().finite()
        &&& forall|token: Seq<u8>| #[trigger]
            self.tokens.contains_key(token) ==> token.len() == TOKEN_LEN && self.is_member(
                self.tokens[token],
            )
    }

    /// The event `message`, addressed to every connected player, to be put
    /// into each player's own delivery path.
    pub open spec fn broadcast(self, message: ServerMessageView) -> DispatchView {
        DispatchView { message, recipients: connected_recipients(self.players) }
    }

    /// The event `message`, addressed to `name` alone, to be put into `channel`.
    pub open spec fn unicast(
        name: Seq<char>,
        channel: Outbox,
        message: ServerMessageView,
    ) -> DispatchView {
        DispatchView { message, recipients: seq![RecipientView { username: name, channel }] }
    }

    /// The event `message`, addressed to the connected member `name` alone.
    pub open spec fn send_one(self, name: Seq<char>, message: ServerMessageView) -> Result<
        DispatchView,
        RoomErrorView,
    > {
        if !self.is_member(name) {
            Err(RoomErrorView::PlayerNotFound(name))
        } else if !self.is_connected(name) {
            Err(RoomErrorView::PlayerDisconnected(name))
        } else {
            Ok(Self::unicast(name, connection_of(self.players, name)->Some_0, message))
        }
    }

    /// The room that `host` creates, holding `token`.
    pub open spec fn initial(
        host: Seq<char>,
        password: Option<Seq<char>>,
        token: Seq<u8>,
    ) -> RoomView {
        RoomView {
            tokens: Map::empty().insert(token, host),
            password,
            players: seq![PlayerView::joined(host)],
            host,
            phase: None,
        }
    }

    /// Why `username` may not join with `password`, if it may not. A started game
    /// refuses before anything else is looked at, and a taken name before the
    /// password.
    pub open spec fn join_refusal(self, username: Seq<char>, password: Option<Seq<char>>) -> Option<
        RoomErrorView,
    > {
        if self.phase is Some {
            Some(RoomErrorView::GameStarted)
        } else if self.is_member(username) {
            Some(RoomErrorView::PlayerExists(username))
        } else if self.password != password {
            Some(RoomErrorView::IncorrectPassword)
        } else {
            None
        }
    }

    /// The room with `username` added as a disconnected member without points,
    /// and `token` bound to it.
    pub open spec fn enroll(self, username: Seq<char>, token: Seq<u8>) -> RoomView {
        RoomView {
            tokens: self.tokens.insert(token, username),
            players: self.players.push(PlayerView::joined(username)),
            ..self
        }
    }

    /// A join by `username` with `password`, for which `token` was drawn.
    pub open spec fn join(
        self,
        username: Seq<char>,
        password: Option<Seq<char>>,
        token: Seq<u8>,
    ) -> (RoomView, Outcome) {
        match self.join_refusal(username, password) {
            Some(refusal) => (self, Err(refusal)),
            None => if self.tokens.contains_key(token) {
                (self, Err(RoomErrorView::TokenUnavailable))
            } else {
                (
                    self.enroll(username, token),
                    Ok(seq![self.broadcast(ServerMessageView::Join { username })]),
                )
            },
        }
    }

    /// A join by `username` with `password`, for which the tokens `candidates`
    /// were drawn one after the other: the player is enrolled under the first
    /// of them that is not bound yet.
    pub open spec fn join_among(
        self,
        username: Seq<char>,
        password: Option<Seq<char>>,
        candidates: Seq<Seq<u8>>,
    ) -> (RoomView, Result<(Seq<u8>, Seq<DispatchView>), RoomErrorView>) {
        match self.join_refusal(username, password) {
            Some(refusal) => (self, Err(refusal)),
            None => match first_free(self.tokens.dom(), candidates) {
                Some(token) => (
                    self.enroll(username, token),
                    Ok((token, seq![self.broadcast(ServerMessageView::Join { username })])),
                ),
                None => (self, Err(RoomErrorView::TokenUnavailable)),
            },
        }
    }

    /// Whether `after` and `answer` are what a join by `username` with
    /// `password` may make of this room when the tokens are left to chance.
    /// Either the request is in order and the token minted was unbound, and
    /// then the player is enrolled under it and the join is announced; or
    /// nothing changes and the answer is the reason for which the request is
    /// refused or, where it is in order, that no unbound token was drawn. In
    /// both cases it is what `join_among` makes of some `TOKEN_ATTEMPTS`
    /// tokens: the token minted is the first unbound one of those drawn.
    pub open spec fn join_minted(
        self,
        username: Seq<char>,
        password: Option<Seq<char>>,
        after: RoomView,
        answer: Result<(Seq<u8>, Seq<DispatchView>), RoomErrorView>,
    ) -> bool {
        &&& match answer {
            Ok(admission) => {
                &&& self.join_refusal(username, password) is None
                &&& !self.tokens.contains_key(admission.0)
                &&& admission.0.len() == TOKEN_LEN
                &&& after == self.enroll(username, admission.0)
                &&& admission.1 == seq![self.broadcast(ServerMessageView::Join { username })]
            },
            Err(refusal) => {
                &&& after == self
                &&& refusal == match self.join_refusal(username, password) {
                    Some(reason) => reason,
                    None => RoomErrorView::TokenUnavailable,
                }
            },
        }
        &&& exists|candidates: Seq<Seq<u8>>|
            drawn_tokens(candidates) && #[trigger] self.join_among(username, password, candidates)
                == (after, answer)
    }

    /// The username that `token` is bound to, if it was ever issued.
    pub open spec fn authenticate(self, token: Seq<u8>) -> Option<Seq<char>> {
        if self.tokens.contains_key(token) {
            Some(self.tokens[token])
        } else {
            None
        }
    }

    /// The snapshot that a player receives privately on connecting.
    pub open spec fn welcome(self, name: Seq<char>) -> ServerMessageView {
        ServerMessageView::Welcome {
            username: name,
            players: roster(self.players),
            host: self.host,
            phase: self.phase,
        }
    }

    /// Why a connection attempt with `token` is refused, if it is: the token
    /// was never issued, or its owner is connected already.
    pub open spec fn connect_refusal(self, token: Seq<u8>) -> Option<RoomErrorView> {
        match self.authenticate(token) {
            None => Some(RoomErrorView::Unauthenticated),
            Some(name) => if self.is_connected(name) {
                Some(RoomErrorView::PlayerConnected(name))
            } else {
                None
            },
        }
    }

    /// A connection attempt with `token`, for which the delivery path with the
    /// sending end `outbox` is opened if it is granted.
    pub open spec fn connect(self, token: Seq<u8>, outbox: Outbox) -> (RoomView, Outcome) {
        match self.authenticate(token) {
            None => (self, Err(RoomErrorView::Unauthenticated)),
            Some(name) => if self.is_connected(name) {
                (self, Err(RoomErrorView::PlayerConnected(name)))
            } else {
                let next = RoomView {
                    players: with_connection(self.players, name, Some(outbox)),
                    ..self
                };
                (
                    next,
                    Ok(
                        seq![
                            Self::unicast(name, outbox, next.welcome(name)),
                            next.broadcast(ServerMessageView::Connect { username: name }),
                        ],
                    ),
                )
            },
        }
    }

    /// The end of the connection of `name`.
    pub open spec fn disconnect(self, name: Seq<char>) -> (RoomView, Outcome) {
        if !self.is_member(name) {
            (self, Err(RoomErrorView::PlayerNotFound(name)))
        } else if !self.is_connected(name) {
            (self, Err(RoomErrorView::PlayerDisconnected(name)))
        } else {
            let next = RoomView { players: with_connection(self.players, name, None), ..self };
            (next, Ok(seq![next.broadcast(ServerMessageView::Disconnect { username: name })]))
        }
    }

    /// A message from an authenticated player. Chat is broadcast as it is; only
    /// the host may start the game, and only once.
    pub open spec fn handle(self, signed: SignedView) -> (RoomView, Outcome) {
        match signed.message {
            PlayerMessageView::Chat { text } => (
                self,
                Ok(
                    seq![
                        self.broadcast(ServerMessageView::Chat { username: signed.username, text }),
                    ],
                ),
            ),
            PlayerMessageView::Start => if signed.username != self.host {
                (self, Err(RoomErrorView::Unauthorized(signed.username)))
            } else if self.phase is Some {
                (self, Err(RoomErrorView::GameStarted))
            } else {
                (RoomView { phase: Some(Phase::Bidding), ..self }, Ok(Seq::empty()))
            },
        }
    }
}

/// A name stands among the connected names exactly if a connected player bears
/// it, and the connected names come in the order of the players. Where no two
/// players share a name, no name is listed twice.
pub proof fn lemma_connected_names(players: Seq<PlayerView>)
    ensures
        forall|name: Seq<char>|
            connected_names(players).contains(name) <==> exists|i: int|
                0 <= i < players.len() && (#[trigger] players[i]).username == name
                    && players[i].connected(),
        connected_names(players).len() <= players.len(),
        usernames(players).no_duplicates() ==> connected_names(players).no_duplicates(),
    decreases players.len(),
{
    if players.len() > 0 {
        let earlier = players.drop_last();
        let last = players.last();
        lemma_connected_names(earlier);
        let names = connected_names(players);
        let before = connected_names(earlier);
        assert forall|name: Seq<char>| names.contains(name) implies exists|i: int|
            0 <= i < players.len() && (#[trigger] players[i]).username == name
                && players[i].connected() by {
            if before.contains(name) {
                let i = choose|i: int|
                    0 <= i < earlier.len() && (#[trigger] earlier[i]).username == name
                        && earlier[i].connected();
                assert(players[i] == earlier[i]);
            } else {
                let k = choose|k: int| 0 <= k < names.len() && names[k] == name;
                assert(last.connected());
                assert(k == before.len());
                assert(players[players.len() - 1].username == name);
            }
        }
        assert forall|name: Seq<char>|
            (exists|i: int|
                0 <= i < players.len() && (#[trigger] players[i]).username == name
                    && players[i].connected()) implies names.contains(name) by {
            let i = choose|i: int|
                0 <= i < players.len() && (#[trigger] players[i]).username == name
                    && players[i].connected();
            if i < players.len() - 1 {
                assert(earlier[i] == players[i]);
                assert(before.contains(name));
                let k = choose|k: int| 0 <= k < before.len() && before[k] == name;
                assert(names[k] == name);
            } else {
                assert(names[before.len() as int] == name);
            }
        }
        if usernames(players).no_duplicates() {
            assert(usernames(earlier) =~= usernames(players).drop_last());
            assert forall|i: int, j: int|
                0 <= i < earlier.len() && 0 <= j < earlier.len() && i != j implies usernames(
                earlier,
            )[i] != usernames(earlier)[j] by {
                assert(usernames(players)[i] != usernames(players)[j]);
            }
            if last.connected() {
                assert forall|i: int, j: int|
                    0 <= i < names.len() && 0 <= j < names.len() && i != j implies names[i]
                    != names[j] by {
                    if i < before.len() && j < before.len() {
                        assert(before[i] != before[j]);
                    } else {
                        let k = if i < before.len() {
                            i
                        } else {
                            j
                        };
                        assert(before.contains(before[k]));
                        let m = choose|m: int|
                            0 <= m < earlier.len() && (#[trigger] earlier[m]).username == before[k]
                                && earlier[m].connected();
                        assert(usernames(players)[m] == before[k]);
                        assert(usernames(players)[players.len() - 1] == last.username);
                    }
                }
            }
        }
    }
}

/// Where no two players share a name, the delivery path found under a
/// player's name is that player's own.
pub proof fn lemma_connection_of(players: Seq<PlayerView>, at: int)
    requires
        usernames(players).no_duplicates(),
        0 <= at < players.len(),
    ensures
        connection_of(players, players[at].username) == players[at].connection,
    decreases players.len(),
{
    if at < players.len() - 1 {
        let earlier = players.drop_last();
        assert(usernames(earlier) =~= usernames(players).drop_last());
        assert(usernames(players)[at] != usernames(players)[players.len() - 1]);
        assert(earlier[at] == players[at]);
        lemma_connection_of(earlier, at);
    }
}

/// Where no two players share a name, a player's name stands among the
/// connected names exactly if that player is connected.
pub proof fn lemma_connected_at(players: Seq<PlayerView>, at: int)
    requires
        usernames(players).no_duplicates(),
        0 <= at < players.len(),
    ensures
        connected_names(players).contains(players[at].username) == players[at].connected(),
        connection_of(players, players[at].username) == players[at].connection,
{
    lemma_connected_names(players);
    lemma_connection_of(players, at);
    let name = players[at].username;
    if connected_names(players).contains(name) {
        let i = choose|i: int|
            0 <= i < players.len() && (#[trigger] players[i]).username == name
                && players[i].connected();
        assert(usernames(players)[i] == usernames(players)[at]);
    }
}

/// The recipients of a broadcast are the connected players by name, and,
/// where no two players share a name, each is addressed through its own
/// delivery path.
pub proof fn lemma_connected_recipients(players: Seq<PlayerView>)
    ensures
        recipient_names(connected_recipients(players)) == connected_names(players),
        usernames(players).no_duplicates() ==> forall|k: int|
            0 <= k < connected_recipients(players).len() ==> connection_of(
                players,
                (#[trigger] connected_recipients(players)[k]).username,
            ) == Some(connected_recipients(players)[k].channel),
    decreases players.len(),
{
    if players.len() == 0 {
        assert(recipient_names(connected_recipients(players)) =~= connected_names(players));
    } else {
        let earlier = players.drop_last();
        let last = players.last();
        lemma_connected_recipients(earlier);
        assert(recipient_names(connected_recipients(players)) =~= connected_names(players));
        if usernames(players).no_duplicates() {
            assert(usernames(earlier) =~= usernames(players).drop_last());
            lemma_connected_names(earlier);
            let before = connected_recipients(earlier);
            assert forall|k: int| 0 <= k < connected_recipients(players).len() implies connection_of(
                players,
                (#[trigger] connected_recipients(players)[k]).username,
            ) == Some(connected_recipients(players)[k].channel) by {
                if k < before.len() {
                    let name = before[k].username;
                    assert(recipient_names(before)[k] == name);
                    assert(connected_names(earlier).contains(name));
                    let m = choose|m: int|
                        0 <= m < earlier.len() && (#[trigger] earlier[m]).username == name
                            && earlier[m].connected();
                    assert(usernames(players)[m] == name);
                    assert(usernames(players)[players.len() - 1] == last.username);
                    assert(connected_recipients(players)[k] == before[k]);
                }
            }
        }
    }
}

/// A room stays well formed when a name that no member bears joins it with a
/// token of the right length.
pub proof fn lemma_enroll(room: RoomView, username: Seq<char>, token: Seq<u8>)
    requires
        room.wf(),
        !room.is_member(username),
        token.len() == TOKEN_LEN,
    ensures
        room.enroll(username, token).wf(),
        connected_names(room.enroll(username, token).players) == connected_names(room.players),
{
    let next = room.enroll(username, token);
    assert(usernames(next.players) =~= usernames(room.players).push(username));
    assert(next.players.drop_last() =~= room.players);
    assert forall|name: Seq<char>| room.is_member(name) implies next.is_member(name) by {
        let i = choose|i: int|
            0 <= i < usernames(room.players).len() && usernames(room.players)[i] == name;
        assert(usernames(next.players)[i] == name);
    }
    assert(usernames(next.players)[room.players.len() as int] == username);
    assert forall|held: Seq<u8>| #[trigger] next.tokens.contains_key(held) implies held.len()
        == TOKEN_LEN && next.is_member(next.tokens[held]) by {
        if held != token {
            assert(room.tokens.contains_key(held));
        }
    }
}

/// Opening or closing a delivery path changes no name, touches no player but
/// the one named, and leaves that player connected or not as was asked.
pub proof fn lemma_with_connection(
    players: Seq<PlayerView>,
    name: Seq<char>,
    connection: Option<Outbox>,
)
    ensures
        usernames(with_connection(players, name, connection)) == usernames(players),
        forall|other: Seq<char>|
            other != name ==> (connected_names(with_connection(players, name, connection)).contains(
                other,
            ) <==> connected_names(players).contains(other)),
        connected_names(with_connection(players, name, connection)).contains(name)
            <==> connection is Some && usernames(players).contains(name),
{
    let after = with_connection(players, name, connection);
    assert(usernames(after) =~= usernames(players));
    lemma_connected_names(players);
    lemma_connected_names(after);
    assert forall|other: Seq<char>| other != name implies (connected_names(after).contains(other)
        <==> connected_names(players).contains(other)) by {
        if connected_names(after).contains(other) {
            let i = choose|i: int|
                0 <= i < after.len() && (#[trigger] after[i]).username == other && after[i].connected();
            assert(players[i].username == other && players[i].connected());
        }
        if connected_names(players).contains(other) {
            let i = choose|i: int|
                0 <= i < players.len() && (#[trigger] players[i]).username == other
                    && players[i].connected();
            assert(after[i].username == other && after[i].connected());
        }
    }
    if connected_names(after).contains(name) {
        let i = choose|i: int|
            0 <= i < after.len() && (#[trigger] after[i]).username == name && after[i].connected();
        assert(usernames(players)[i] == name);
        assert(players[i].username == name);
    }
    if connection is Some && usernames(players).contains(name) {
        let i = choose|i: int| 0 <= i < usernames(players).len() && usernames(players)[i] == name;
        assert(after[i].username == name && after[i].connected());
    }
}

} // verus!
