//! What holds of every room, whatever is asked of it and in whatever order.

use crate::channel::Outbox;
use crate::message::{ServerMessageView, SignedView};
use crate::model::{
    connected_names, connection_of, lemma_connected_at, lemma_connected_names,
    lemma_connected_recipients, lemma_enroll, lemma_with_connection, usernames,
    DispatchView, Outcome, PlayerView, RoomErrorView, RoomView,
};
use crate::token::TOKEN_LEN;
use vstd::prelude::*;

verus! {

/// One request to a room, with what was made for it outside the room: the
/// token that was drawn for a join, the sending end of the channel that was
/// opened for a connection.
pub enum Request {
    Join { username: Seq<char>, password: Option<Seq<char>>, token: Seq<u8> },
    Connect { token: Seq<u8>, outbox: Outbox },
    Disconnect { username: Seq<char> },
    Handle { signed: SignedView },
}

impl Request {
    /// A drawn token has the length of a token.
    pub open spec fn valid(self) -> bool {
        self matches Request::Join { token, .. } ==> token.len() == TOKEN_LEN
    }
}

impl RoomView {
    /// The room after `request`, and the answer to it.
    pub open spec fn step(self, request: Request) -> (RoomView, Outcome) {
        match request {
            Request::Join { username, password, token } => self.join(username, password, token),
            Request::Connect { token, outbox } => self.connect(token, outbox),
            Request::Disconnect { username } => self.disconnect(username),
            Request::Handle { signed } => self.handle(signed),
        }
    }

    /// The room after `requests`, served one after the other.
    pub open spec fn run(self, requests: Seq<Request>) -> RoomView
        decreases requests.len(),
    {
        if requests.len() == 0 {
            self
        } else {
            self.run(requests.drop_last()).step(requests.last()).0
        }
    }

    /// All that the room authored while it served `requests`, in order.
    pub open spec fn trace(self, requests: Seq<Request>) -> Seq<DispatchView>
        decreases requests.len(),
    {
        if requests.len() == 0 {
            Seq::empty()
        } else {
            let earlier = self.trace(requests.drop_last());
            match self.run(requests.drop_last()).step(requests.last()).1 {
                Ok(dispatches) => earlier + dispatches,
                Err(_) => earlier,
            }
        }
    }
}

/// The events of `dispatches` that are addressed to `name`, in order.
pub open spec fn inbox(dispatches: Seq<DispatchView>, name: Seq<char>) -> Seq<ServerMessageView>
    decreases dispatches.len(),
{
    if dispatches.len() == 0 {
        Seq::empty()
    } else {
        let earlier = inbox(dispatches.drop_last(), name);
        if dispatches.last().names().contains(name) {
            earlier.push(dispatches.last().message)
        } else {
            earlier
        }
    }
}

/// Every operation keeps a room well formed: the host stays a member, no two
/// members share a username, and every token stays bound to a member.
pub proof fn law_step_keeps_wf(room: RoomView, request: Request)
    requires
        room.wf(),
        request.valid(),
    ensures
        room.step(request).0.wf(),
{
    match request {
        Request::Join { username, password, token } => {
            if room.join_refusal(username, password) is None && !room.tokens.contains_key(token) {
                lemma_enroll(room, username, token);
            }
        },
        Request::Connect { token, outbox } => {
            if room.authenticate(token) is Some {
                lemma_with_connection(room.players, room.tokens[token], Some(outbox));
            }
        },
        Request::Disconnect { username } => {
            lemma_with_connection(room.players, username, None);
        },
        Request::Handle { signed } => {},
    }
}

/// Whatever is asked of a room and in whatever order, it stays well formed.
pub proof fn law_run_keeps_wf(room: RoomView, requests: Seq<Request>)
    requires
        room.wf(),
        forall|i: int| 0 <= i < requests.len() ==> (#[trigger] requests[i]).valid(),
    ensures
        room.run(requests).wf(),
    decreases requests.len(),
{
    if requests.len() > 0 {
        law_run_keeps_wf(room, requests.drop_last());
        law_step_keeps_wf(room.run(requests.drop_last()), requests.last());
    }
}

/// After any sequence of joins the usernames accepted so far are pairwise
/// distinct.
pub proof fn law_accepted_usernames_distinct(room: RoomView, joins: Seq<Request>)
    requires
        room.wf(),
        forall|i: int| 0 <= i < joins.len() ==> (#[trigger] joins[i]) is Join && joins[i].valid(),
    ensures
        usernames(room.run(joins).players).no_duplicates(),
{
    law_run_keeps_wf(room, joins);
}

/// Before the game has started, a join under a username that a member bears is
/// refused with `PlayerExists`, whatever password comes with it, and changes
/// nothing.
pub proof fn law_duplicate_join_refused(
    room: RoomView,
    username: Seq<char>,
    password: Option<Seq<char>>,
    token: Seq<u8>,
)
    requires
        room.phase is None,
        room.is_member(username),
    ensures
        room.join(username, password, token) == (
            room,
            Outcome::Err(RoomErrorView::PlayerExists(username)),
        ),
{
}

/// A join is accepted only for a username that no member bears yet.
pub proof fn law_join_accepts_new_names_only(
    room: RoomView,
    username: Seq<char>,
    password: Option<Seq<char>>,
    token: Seq<u8>,
)
    requires
        room.join(username, password, token).1 is Ok,
    ensures
        !room.is_member(username),
        room.join(username, password, token).0.is_member(username),
{
    let next = room.join(username, password, token).0;
    assert(usernames(next.players)[room.players.len() as int] == username);
}

/// Once the game has started, every join is refused with `GameStarted`,
/// whether its password is right or wrong, and changes nothing.
pub proof fn law_join_after_start_refused(
    room: RoomView,
    username: Seq<char>,
    password: Option<Seq<char>>,
    token: Seq<u8>,
)
    requires
        room.phase is Some,
    ensures
        room.join(username, password, token) == (room, Outcome::Err(RoomErrorView::GameStarted)),
{
}

/// No operation removes a member, renames one, reorders the members or
/// touches anybody's points, and none changes the host or the password.
pub proof fn law_step_keeps_members(room: RoomView, request: Request, at: int)
    requires
        0 <= at < room.players.len(),
    ensures
        room.step(request).0.host == room.host,
        room.step(request).0.password == room.password,
        at < room.step(request).0.players.len(),
        room.step(request).0.players[at].username == room.players[at].username,
        room.step(request).0.players[at].points == room.players[at].points,
{
}

/// No operation rebinds or forgets a token: what a token names, it names for
/// good.
pub proof fn law_step_keeps_bindings(room: RoomView, request: Request, token: Seq<u8>)
    requires
        room.tokens.contains_key(token),
    ensures
        room.step(request).0.authenticate(token) == room.authenticate(token),
{
}

/// A token resolves to the username it was issued to, whatever the room has
/// been asked since.
pub proof fn law_token_resolves_to_owner(
    room: RoomView,
    username: Seq<char>,
    password: Option<Seq<char>>,
    token: Seq<u8>,
    later: Seq<Request>,
)
    requires
        room.join(username, password, token).1 is Ok,
    ensures
        room.join(username, password, token).0.run(later).authenticate(token) == Some(username),
    decreases later.len(),
{
    let joined = room.join(username, password, token).0;
    if later.len() > 0 {
        law_token_resolves_to_owner(room, username, password, token, later.drop_last());
        law_step_keeps_bindings(joined.run(later.drop_last()), later.last(), token);
    }
}

/// The same holds of the token that a room was created with: it names the host.
pub proof fn law_host_token_resolves_to_host(
    host: Seq<char>,
    password: Option<Seq<char>>,
    token: Seq<u8>,
    later: Seq<Request>,
)
    ensures
        RoomView::initial(host, password, token).run(later).authenticate(token) == Some(host),
    decreases later.len(),
{
    let created = RoomView::initial(host, password, token);
    if later.len() > 0 {
        law_host_token_resolves_to_host(host, password, token, later.drop_last());
        law_step_keeps_bindings(created.run(later.drop_last()), later.last(), token);
    }
}

/// A connection that is granted is granted to the owner of the token: the
/// owner is connected afterwards through the channel that was opened, is the
/// one who is welcomed, and is the one whose connection is announced.
pub proof fn law_connect_serves_owner(room: RoomView, token: Seq<u8>, outbox: Outbox)
    requires
        room.wf(),
        room.connect(token, outbox).1 is Ok,
    ensures
        room.authenticate(token) is Some,
        room.connect(token, outbox).0.is_connected(room.tokens[token]),
        connection_of(room.connect(token, outbox).0.players, room.tokens[token]) == Some(outbox),
        room.connect(token, outbox).1->Ok_0 == seq![
            RoomView::unicast(
                room.tokens[token],
                outbox,
                room.connect(token, outbox).0.welcome(room.tokens[token]),
            ),
            room.connect(token, outbox).0.broadcast(
                ServerMessageView::Connect { username: room.tokens[token] },
            ),
        ],
{
    let owner = room.tokens[token];
    let next = room.connect(token, outbox).0;
    lemma_with_connection(room.players, owner, Some(outbox));
    let at = choose|at: int|
        0 <= at < usernames(room.players).len() && usernames(room.players)[at] == owner;
    assert(next.players[at].username == owner);
    lemma_connected_at(next.players, at);
}

/// Whether `request` closes the delivery path of `name` or not.
pub open spec fn keeps_connection(request: Request, name: Seq<char>) -> bool {
    request matches Request::Disconnect { username } ==> username != name
}

/// A connected player stays connected until its own disconnect is served.
pub proof fn law_connection_lasts(room: RoomView, name: Seq<char>, between: Seq<Request>)
    requires
        room.is_connected(name),
        forall|i: int| 0 <= i < between.len() ==> keeps_connection(#[trigger] between[i], name),
    ensures
        room.run(between).is_connected(name),
    decreases between.len(),
{
    if between.len() > 0 {
        law_connection_lasts(room, name, between.drop_last());
        let before = room.run(between.drop_last());
        assert(keeps_connection(between[between.len() - 1], name));
        match between.last() {
            Request::Join { username, password, token } => {
                if before.join(username, password, token).1 is Ok {
                    let next = before.enroll(username, token);
                    assert(next.players.drop_last() =~= before.players);
                }
            },
            Request::Connect { token, outbox } => {
                if before.connect(token, outbox).1 is Ok {
                    lemma_with_connection(before.players, before.tokens[token], Some(outbox));
                    lemma_connected_names(before.players);
                    let i = choose|i: int|
                        0 <= i < before.players.len() && (#[trigger] before.players[i]).username
                            == name && before.players[i].connected();
                    assert(usernames(before.players)[i] == name);
                }
            },
            Request::Disconnect { username } => {
                lemma_with_connection(before.players, username, None);
            },
            Request::Handle { signed } => {},
        }
    }
}

/// A second connect for a player that is still connected is refused with
/// `PlayerConnected`, whatever was asked in between but that player's
/// disconnect, and whichever of the player's tokens is shown.
pub proof fn law_second_connect_refused(
    room: RoomView,
    token: Seq<u8>,
    outbox: Outbox,
    between: Seq<Request>,
    again: Seq<u8>,
    another: Outbox,
)
    requires
        room.wf(),
        room.connect(token, outbox).1 is Ok,
        forall|i: int|
            0 <= i < between.len() ==> keeps_connection(#[trigger] between[i], room.tokens[token]),
        room.connect(token, outbox).0.run(between).authenticate(again) == Some(room.tokens[token]),
    ensures
        room.connect(token, outbox).0.run(between).connect(again, another) == (
            room.connect(token, outbox).0.run(between),
            Outcome::Err(RoomErrorView::PlayerConnected(room.tokens[token])),
        ),
{
    law_connect_serves_owner(room, token, outbox);
    law_connection_lasts(room.connect(token, outbox).0, room.tokens[token], between);
}

/// A disconnect for a username that no member bears is refused with
/// `PlayerNotFound`; one for a member that is not connected, whether it never
/// was or no longer is, with `PlayerDisconnected`. Neither changes anything.
pub proof fn law_disconnect_refusals(room: RoomView, name: Seq<char>)
    ensures
        !room.is_member(name) ==> room.disconnect(name) == (
            room,
            Outcome::Err(RoomErrorView::PlayerNotFound(name)),
        ),
        room.is_member(name) && !room.is_connected(name) ==> room.disconnect(name) == (
            room,
            Outcome::Err(RoomErrorView::PlayerDisconnected(name)),
        ),
{
}

/// A member of a new room has no delivery path until it connects.
pub proof fn law_new_members_are_disconnected(
    room: RoomView,
    username: Seq<char>,
    password: Option<Seq<char>>,
    token: Seq<u8>,
)
    requires
        room.wf(),
        room.join(username, password, token).1 is Ok,
    ensures
        !room.join(username, password, token).0.is_connected(username),
        !RoomView::initial(username, password, token).is_connected(username),
{
    let next = room.join(username, password, token).0;
    assert(next.players.drop_last() =~= room.players);
    lemma_connected_names(room.players);
    if connected_names(room.players).contains(username) {
        let i = choose|i: int|
            0 <= i < room.players.len() && (#[trigger] room.players[i]).username == username
                && room.players[i].connected();
        assert(usernames(room.players)[i] == username);
    }
    let created = RoomView::initial(username, password, token);
    assert(created.players.drop_last() =~= Seq::<PlayerView>::empty());
    assert(connected_names(Seq::<PlayerView>::empty()) =~= Seq::<Seq<char>>::empty());
}

/// After a disconnect that was granted, the same disconnect is refused with
/// `PlayerDisconnected`.
pub proof fn law_second_disconnect_refused(room: RoomView, name: Seq<char>)
    requires
        room.disconnect(name).1 is Ok,
    ensures
        room.disconnect(name).0.disconnect(name) == (
            room.disconnect(name).0,
            Outcome::Err(RoomErrorView::PlayerDisconnected(name)),
        ),
{
    lemma_with_connection(room.players, name, None);
}

/// A broadcast is addressed to every connected player, to each once and
/// through its own delivery path, and to nobody else.
pub proof fn law_broadcast_reaches_connected_once(
    room: RoomView,
    message: ServerMessageView,
    name: Seq<char>,
)
    requires
        room.wf(),
    ensures
        room.broadcast(message).message == message,
        room.broadcast(message).names().no_duplicates(),
        room.broadcast(message).names().contains(name) <==> room.is_connected(name),
        room.is_connected(name) <==> exists|i: int|
            0 <= i < room.players.len() && (#[trigger] room.players[i]).username == name
                && room.players[i].connected(),
        forall|k: int|
            0 <= k < room.broadcast(message).recipients.len() ==> connection_of(
                room.players,
                (#[trigger] room.broadcast(message).recipients[k]).username,
            ) == Some(room.broadcast(message).recipients[k].channel),
{
    lemma_connected_names(room.players);
    lemma_connected_recipients(room.players);
}

/// Events that are broadcast one after the other reach every connected player
/// in the order in which they were authored, each once; a player that is not
/// connected receives none of them.
pub proof fn law_broadcasts_arrive_in_order(
    room: RoomView,
    first: ServerMessageView,
    second: ServerMessageView,
    name: Seq<char>,
)
    ensures
        inbox(seq![room.broadcast(first), room.broadcast(second)], name) == if room.is_connected(
            name,
        ) {
            seq![first, second]
        } else {
            Seq::<ServerMessageView>::empty()
        },
{
    lemma_connected_recipients(room.players);
    let both = seq![room.broadcast(first), room.broadcast(second)];
    let one = seq![room.broadcast(first)];
    assert(both.drop_last() =~= one);
    assert(one.drop_last() =~= Seq::<DispatchView>::empty());
    assert(inbox(Seq::<DispatchView>::empty(), name) =~= Seq::<ServerMessageView>::empty());
    assert(inbox(one, name) =~= if room.is_connected(name) {
        seq![first]
    } else {
        Seq::<ServerMessageView>::empty()
    });
    assert(inbox(both, name) =~= if room.is_connected(name) {
        seq![first, second]
    } else {
        Seq::<ServerMessageView>::empty()
    });
}

/// The inbox of dispatches that follow one another is the inbox of the first
/// followed by the inbox of the second.
pub proof fn lemma_inbox_concat(first: Seq<DispatchView>, second: Seq<DispatchView>, name: Seq<char>)
    ensures
        inbox(first + second, name) == inbox(first, name) + inbox(second, name),
    decreases second.len(),
{
    if second.len() == 0 {
        assert(first + second =~= first);
        assert(inbox(first, name) + inbox(second, name) =~= inbox(first, name));
    } else {
        lemma_inbox_concat(first, second.drop_last(), name);
        assert((first + second).drop_last() =~= first + second.drop_last());
        assert((first + second).last() == second.last());
        assert(inbox(first + second, name) =~= inbox(first, name) + inbox(second, name));
    }
}

/// What an operation authors is addressed only to players that are connected
/// once it is done.
pub proof fn law_step_addresses_connected_only(room: RoomView, request: Request, name: Seq<char>)
    requires
        room.wf(),
        !room.step(request).0.is_connected(name),
    ensures
        room.step(request).1 matches Ok(dispatches) ==> inbox(dispatches, name)
            == Seq::<ServerMessageView>::empty(),
{
    let nothing = Seq::<DispatchView>::empty();
    let silence = Seq::<ServerMessageView>::empty();
    assert(inbox(nothing, name) =~= silence);
    if let Ok(dispatches) = room.step(request).1 {
        match request {
            Request::Join { username, password, token } => {
                let next = room.enroll(username, token);
                assert(next.players.drop_last() =~= room.players);
                lemma_connected_recipients(room.players);
                assert(dispatches.drop_last() =~= nothing);
            },
            Request::Connect { token, outbox } => {
                let owner = room.tokens[token];
                lemma_with_connection(room.players, owner, Some(outbox));
                lemma_connected_recipients(room.step(request).0.players);
                let first = seq![dispatches[0]];
                assert(dispatches.drop_last() =~= first);
                assert(first.drop_last() =~= nothing);
                assert(dispatches[0].names() =~= seq![owner]);
                assert(inbox(first, name) =~= silence);
            },
            Request::Disconnect { username } => {
                lemma_connected_recipients(room.step(request).0.players);
                assert(dispatches.drop_last() =~= nothing);
            },
            Request::Handle { signed } => {
                if dispatches.len() > 0 {
                    lemma_connected_recipients(room.players);
                    assert(dispatches.drop_last() =~= nothing);
                }
            },
        }
    }
}

/// A player receives nothing of what a room authors while the player is not
/// connected: events that were missed are not delivered later.
pub proof fn law_nothing_reaches_the_disconnected(
    room: RoomView,
    requests: Seq<Request>,
    name: Seq<char>,
)
    requires
        room.wf(),
        forall|i: int| 0 <= i < requests.len() ==> (#[trigger] requests[i]).valid(),
        forall|n: int|
            0 < n <= requests.len() ==> !(#[trigger] room.run(requests.take(n))).is_connected(
                name,
            ),
    ensures
        inbox(room.trace(requests), name) == Seq::<ServerMessageView>::empty(),
    decreases requests.len(),
{
    if requests.len() == 0 {
        assert(inbox(Seq::<DispatchView>::empty(), name) =~= Seq::<ServerMessageView>::empty());
    } else {
        let earlier = requests.drop_last();
        assert forall|n: int| 0 < n <= earlier.len() implies !(#[trigger] room.run(
            earlier.take(n),
        )).is_connected(name) by {
            assert(earlier.take(n) =~= requests.take(n));
        }
        assert forall|i: int| 0 <= i < earlier.len() implies (#[trigger] earlier[i]).valid() by {
            assert(requests[i].valid());
        }
        law_nothing_reaches_the_disconnected(room, earlier, name);
        law_run_keeps_wf(room, earlier);
        let before = room.run(earlier);
        assert(requests.take(requests.len() as int) =~= requests);
        assert(!room.run(requests.take(requests.len() as int)).is_connected(name));
        law_step_addresses_connected_only(before, requests.last(), name);
        if let Ok(dispatches) = before.step(requests.last()).1 {
            lemma_inbox_concat(room.trace(earlier), dispatches, name);
        }
    }
}

/// What a player receives on connecting is the private snapshot of the room
/// and then the announcement of its own connection, and nothing else.
pub proof fn law_connect_delivers_welcome_first(room: RoomView, token: Seq<u8>, outbox: Outbox)
    requires
        room.wf(),
        room.connect(token, outbox).1 is Ok,
    ensures
        inbox(room.connect(token, outbox).1->Ok_0, room.tokens[token]) == seq![
            room.connect(token, outbox).0.welcome(room.tokens[token]),
            ServerMessageView::Connect { username: room.tokens[token] },
        ],
{
    let owner = room.tokens[token];
    let next = room.connect(token, outbox).0;
    let dispatches = room.connect(token, outbox).1->Ok_0;
    law_connect_serves_owner(room, token, outbox);
    lemma_connected_recipients(next.players);
    let first = seq![dispatches[0]];
    assert(dispatches.drop_last() =~= first);
    assert(first.drop_last() =~= Seq::<DispatchView>::empty());
    assert(inbox(Seq::<DispatchView>::empty(), owner) =~= Seq::<ServerMessageView>::empty());
    assert(dispatches[0].names() =~= seq![owner]);
    assert(dispatches[0].names()[0] == owner);
    assert(inbox(first, owner) =~= seq![next.welcome(owner)]);
    assert(inbox(dispatches, owner) =~= seq![
        next.welcome(owner),
        ServerMessageView::Connect { username: owner },
    ]);
}

} // verus!
