//! A room: its members, its token table, and the operations that change it.

use crate::channel::{
    capacity_of, open_channel, sending_end, Inbox, Outbox, CHANNEL_CAPACITY,
};
use crate::error::RoomError;
use crate::message::{
    roster_view, Connect, Disconnect, Join, Phase, PlayerDescriptor, PlayerMessage, ServerMessage,
    SignedPlayerMessage, SignedView,
};
use crate::model::{
    connected_recipients, lemma_connected_at, lemma_connected_names, lemma_enroll,
    lemma_with_connection, roster, usernames, with_connection, DispatchView, Outcome, PlayerView,
    RecipientView, RoomErrorView, RoomView,
};
use crate::table::{
    bindings, first_free, last_at, lemma_bindings, lemma_first_free, lemma_first_free_is,
};
use crate::token::{
    draw_tokens, matches_token, random_token, token_view, tokens_view, Token, TOKEN_ATTEMPTS,
};
use crate::validation::{Password, Username};
use vstd::prelude::*;

verus! {

/// A token and the username that it was issued to.
#[derive(Debug)]
struct TokenEntry {
    token: Token,
    username: Username,
}

/// A member of a room.
#[derive(Debug)]
struct Player {
    username: Username,
    points: i32,
    /// The sending end of the player's delivery path, while the player is
    /// connected.
    connection: Option<Outbox>,
}

/// A room. It is created with its host as first member and changes only
/// through its operations, each of which keeps it well formed; it is never
/// closed.
#[derive(Debug)]
pub struct Room {
    tokens: Vec<TokenEntry>,
    password: Option<Password>,
    players: Vec<Player>,
    host: Username,
    phase: Option<Phase>,
}

/// A player to whom an event is addressed, with the sending end of the
/// player's delivery path.
#[derive(Clone, Debug)]
pub struct Recipient {
    pub username: Username,
    pub channel: Outbox,
}

/// One authored event and the players it is to be delivered to, in order.
/// Putting the event into the channels is the caller's work, because it may
/// have to wait: each recipient is served independently of the others, and a
/// recipient whose channel is closed is passed over.
#[derive(Clone, Debug)]
pub struct Dispatch {
    pub message: ServerMessage,
    pub recipients: Vec<Recipient>,
}

impl View for Recipient {
    type V = RecipientView;

    open spec fn view(&self) -> RecipientView {
        RecipientView { username: self.username@, channel: self.channel }
    }
}

/// What a list of recipients says.
pub open spec fn recipients_view(recipients: Seq<Recipient>) -> Seq<RecipientView> {
    recipients.map_values(|recipient: Recipient| recipient@)
}

impl View for Dispatch {
    type V = DispatchView;

    open spec fn view(&self) -> DispatchView {
        DispatchView { message: self.message@, recipients: recipients_view(self.recipients@) }
    }
}

/// What a list of dispatches says.
pub open spec fn dispatches_view(dispatches: Seq<Dispatch>) -> Seq<DispatchView> {
    dispatches.map_values(|dispatch: Dispatch| dispatch@)
}

/// What the answer of an operation says.
pub open spec fn outcome_view(result: Result<Vec<Dispatch>, RoomError>) -> Outcome {
    match result {
        Ok(dispatches) => Ok(dispatches_view(dispatches@)),
        Err(refusal) => Err(refusal@),
    }
}

impl View for Player {
    type V = PlayerView;

    closed spec fn view(&self) -> PlayerView {
        PlayerView {
            username: self.username@,
            points: self.points as int,
            connection: self.connection,
        }
    }
}

impl Player {
    /// A member who has just joined: no points, no delivery path.
    fn new(username: Username) -> (player: Player)
        ensures
            player@ == PlayerView::joined(username@),
    {
        Player { username, points: 0, connection: None }
    }
}

/// The members that a list of players stands for.
spec fn players_view(players: Seq<Player>) -> Seq<PlayerView> {
    players.map_values(|player: Player| player@)
}

/// The token table as a list of pairs.
spec fn token_pairs(entries: Seq<TokenEntry>) -> Seq<(Seq<u8>, Seq<char>)> {
    entries.map_values(|entry: TokenEntry| (entry.token@, entry.username@))
}

/// The bindings that a token table stands for.
spec fn token_map(entries: Seq<TokenEntry>) -> Map<Seq<u8>, Seq<char>> {
    bindings(token_pairs(entries))
}

/// What an optional password says.
pub open spec fn password_view(password: Option<Password>) -> Option<Seq<char>> {
    match password {
        Some(secret) => Some(secret@),
        None => None,
    }
}

impl View for Room {
    type V = RoomView;

    closed spec fn view(&self) -> RoomView {
        RoomView {
            tokens: token_map(self.tokens@),
            password: password_view(self.password),
            players: players_view(self.players@),
            host: self.host@,
            phase: self.phase,
        }
    }
}

impl Room {
    /// Creates a room whose only member is `host`, holding `token`.
    pub fn create_with(host: Username, password: Option<Password>, token: Token) -> (created: (
        Room,
        Token,
    ))
        ensures
            created.0@ == RoomView::initial(host@, password_view(password), token@),
            created.0@.wf(),
            created.1 == token,
    {
        let mut tokens: Vec<TokenEntry> = Vec::new();
        tokens.push(TokenEntry { token, username: host.clone() });
        let mut players: Vec<Player> = Vec::new();
        players.push(Player::new(host.clone()));
        proof {
            let pairs = token_pairs(tokens@);
            assert(pairs.drop_last() =~= Seq::<(Seq<u8>, Seq<char>)>::empty());
            assert(bindings(pairs.drop_last()) =~= Map::empty());
            assert(token_map(tokens@) =~= Map::<Seq<u8>, Seq<char>>::empty().insert(token@, host@));
            assert(players_view(players@) =~= seq![PlayerView::joined(host@)]);
            assert(usernames(players_view(players@)) =~= seq![host@]);
            assert(usernames(players_view(players@))[0] == host@);
        }
        let room = Room { tokens, password, players, host, phase: None };
        (room, token)
    }

    /// Creates a room whose only member is `host` and mints the host's token.
    /// This always succeeds.
    pub fn create(host: Username, password: Option<Password>) -> (created: (Room, Token))
        ensures
            created.0@ == RoomView::initial(host@, password_view(password), created.1@),
            created.0@.wf(),
    {
        let token = random_token();
        Room::create_with(host, password, token)
    }

    /// The host, who is always a member.
    pub fn host(&self) -> (host: &Username)
        ensures
            host@ == self@.host,
    {
        &self.host
    }

    /// Whether `username` is the host.
    pub fn is_host(&self, username: &Username) -> (host: bool)
        ensures
            host == (username@ == self@.host),
    {
        username.same(&self.host)
    }

    /// The phase of the game, if it has started.
    pub fn phase(&self) -> (phase: Option<Phase>)
        ensures
            phase == self@.phase,
    {
        self.phase
    }

    /// Whether `username` is a member.
    pub fn is_member(&self, username: &Username) -> (member: bool)
        ensures
            member == self@.is_member(username@),
    {
        self.find_player(username).is_some()
    }

    /// Whether `username` is a member with a live delivery path.
    pub fn is_connected(&self, username: &Username) -> (connected: bool)
        requires
            self@.wf(),
        ensures
            connected == self@.is_connected(username@),
    {
        match self.find_player(username) {
            Some(at) => {
                proof {
                    lemma_connected_at(self@.players, at as int);
                }
                self.players[at].connection.is_some()
            },
            None => {
                proof {
                    lemma_connected_names(self@.players);
                    if self@.is_connected(username@) {
                        let i = choose|i: int|
                            0 <= i < self@.players.len() && (#[trigger] self@.players[i]).username
                                == username@ && self@.players[i].connected();
                        assert(usernames(self@.players)[i] == username@);
                    }
                }
                false
            },
        }
    }

    /// The last place of `candidate` in the token table, which is where its
    /// binding stands.
    fn find_token(&self, candidate: &[u8]) -> (found: Option<usize>)
        ensures
            match found {
                Some(i) => {
                    &&& i < self.tokens@.len()
                    &&& self@.tokens.contains_key(candidate@)
                    &&& self@.tokens[candidate@] == self.tokens@[i as int].username@
                },
                None => !self@.tokens.contains_key(candidate@),
            },
    {
        let ghost pairs = token_pairs(self.tokens@);
        let mut found: Option<usize> = None;
        let mut i: usize = self.tokens.len();
        while i > 0 && found.is_none()
            invariant
                i <= self.tokens@.len(),
                pairs == token_pairs(self.tokens@),
                match found {
                    Some(at) => at == i && at < pairs.len() && pairs[at as int].0 == candidate@
                        && last_at(pairs, candidate@, at as int),
                    None => last_at(pairs, candidate@, i - 1),
                },
            decreases i,
        {
            i -= 1;
            if matches_token(&self.tokens[i].token, candidate) {
                found = Some(i);
            }
        }
        proof {
            lemma_bindings(pairs);
            match found {
                Some(at) => {
                    assert(last_at(pairs, pairs[at as int].0, at as int));
                    assert(bindings(pairs)[pairs[at as int].0] == pairs[at as int].1);
                },
                None => {
                    assert forall|j: int| 0 <= j < pairs.len() implies (#[trigger] pairs[j]).0
                        != candidate@ by {}
                },
            }
        }
        found
    }

    /// The first of `candidates` that is not bound yet, if there is one.
    pub fn first_unbound(&self, candidates: &[Token]) -> (free: Option<Token>)
        ensures
            token_view(free) == first_free(self@.tokens.dom(), tokens_view(candidates@)),
    {
        let ghost drawn = tokens_view(candidates@);
        let mut i: usize = 0;
        while i < candidates.len()
            invariant
                i <= candidates@.len(),
                drawn == tokens_view(candidates@),
                forall|j: int| 0 <= j < i ==> self@.tokens.dom().contains(#[trigger] drawn[j]),
            decreases candidates@.len() - i,
        {
            if self.find_token(candidates[i].as_slice()).is_none() {
                proof {
                    lemma_first_free_is(self@.tokens.dom(), drawn, i as int);
                }
                return Some(candidates[i]);
            }
            i += 1;
        }
        proof {
            lemma_first_free(self@.tokens.dom(), drawn);
        }
        None
    }

    /// The place of `name` among the members.
    fn find_player(&self, name: &Username) -> (found: Option<usize>)
        ensures
            match found {
                Some(i) => i < self@.players.len() && self@.players[i as int].username == name@
                    && self@.is_member(name@),
                None => !self@.is_member(name@),
            },
    {
        let mut i: usize = 0;
        while i < self.players.len()
            invariant
                i <= self.players@.len(),
                forall|j: int| 0 <= j < i ==> (#[trigger] self.players@[j]).username@ != name@,
            decreases self.players@.len() - i,
        {
            if self.players[i].username.same(name) {
                assert(usernames(self@.players)[i as int] == name@);
                return Some(i);
            }
            i += 1;
        }
        proof {
            let names = usernames(self@.players);
            assert forall|j: int| 0 <= j < names.len() implies names[j] != name@ by {
                assert(self.players@[j].username@ != name@);
            }
        }
        None
    }

    /// Resolves `token` to the username it was issued to. Nothing is changed.
    pub fn authenticate(&self, token: &[u8]) -> (result: Result<Username, RoomError>)
        ensures
            match self@.authenticate(token@) {
                Some(name) => result matches Ok(found) && found@ == name,
                None => result matches Err(RoomError::Unauthenticated),
            },
    {
        match self.find_token(token) {
            Some(i) => Ok(self.tokens[i].username.clone()),
            None => Err(RoomError::Unauthenticated),
        }
    }

    /// Addresses `message` to every connected player, each once, in the order of
    /// the members. A room without connected players yields no recipient.
    pub fn send_all(&self, message: ServerMessage) -> (dispatch: Dispatch)
        ensures
            dispatch@ == self@.broadcast(message@),
    {
        let ghost members = players_view(self.players@);
        let mut recipients: Vec<Recipient> = Vec::new();
        let mut i: usize = 0;
        assert(members.take(0) =~= Seq::<PlayerView>::empty());
        while i < self.players.len()
            invariant
                i <= self.players@.len(),
                members == players_view(self.players@),
                recipients_view(recipients@) == connected_recipients(members.take(i as int)),
            decreases self.players@.len() - i,
        {
            if let Some(outbox) = &self.players[i].connection {
                let recipient = Recipient {
                    username: self.players[i].username.clone(),
                    channel: outbox.clone(),
                };
                proof {
                    assert(recipients_view(recipients@.push(recipient)) =~= recipients_view(
                        recipients@,
                    ).push(recipient@));
                }
                recipients.push(recipient);
            }
            proof {
                assert(members.take(i + 1).drop_last() =~= members.take(i as int));
                assert(members.take(i + 1).last() == members[i as int]);
            }
            i += 1;
        }
        assert(members.take(i as int) =~= members);
        Dispatch { message, recipients }
    }

    /// Why the player of `request` may not join, if it may not.
    fn join_refusal(&self, request: &Join) -> (refusal: Option<RoomError>)
        ensures
            match self@.join_refusal(request.username@, password_view(request.password)) {
                Some(reason) => refusal matches Some(raised) && raised@ == reason,
                None => refusal is None,
            },
    {
        if self.phase.is_some() {
            Some(RoomError::GameStarted)
        } else if self.find_player(&request.username).is_some() {
            Some(RoomError::PlayerExists(request.username.clone()))
        } else if !same_password(&self.password, &request.password) {
            Some(RoomError::IncorrectPassword)
        } else {
            None
        }
    }

    /// Admits the player of `request` and binds `token` to it, unless the
    /// request is refused or `token` is already bound. On success the join is
    /// announced to every connected player; the new member is not connected.
    pub fn join_with(&mut self, request: Join, token: Token) -> (result: Result<
        (Token, Vec<Dispatch>),
        RoomError,
    >)
        requires
            old(self)@.wf(),
        ensures
            final(self)@ == old(self)@.join(
                request.username@,
                password_view(request.password),
                token@,
            ).0,
            admission_view(result) == old(self)@.join(
                request.username@,
                password_view(request.password),
                token@,
            ).1,
            result matches Ok(admission) ==> admission.0 == token,
            final(self)@.wf(),
    {
        if let Some(refusal) = self.join_refusal(&request) {
            return Err(refusal);
        }
        let Join { username, password } = request;
        if self.find_token(token.as_slice()).is_some() {
            return Err(RoomError::TokenUnavailable);
        }
        let announcement = self.send_all(ServerMessage::Join { username: username.clone() });
        let ghost before = self@;
        let player = Player::new(username.clone());
        let entry = TokenEntry { token, username };
        proof {
            lemma_enroll(before, username@, token@);
            assert(players_view(self.players@.push(player)) =~= players_view(self.players@).push(
                player@,
            ));
        }
        self.players.push(player);
        proof {
            assert(token_pairs(self.tokens@.push(entry)).drop_last() =~= token_pairs(self.tokens@));
        }
        self.tokens.push(entry);
        let mut dispatches: Vec<Dispatch> = Vec::new();
        dispatches.push(announcement);
        proof {
            assert(dispatches_view(dispatches@) =~= seq![announcement@]);
        }
        Ok((token, dispatches))
    }

    /// Admits the player of `request` under the first of `candidates` that is
    /// not bound yet; everything else is as in `join_with`. A request that is
    /// not in order is refused whatever the candidates are, and one that is in
    /// order is refused with `TokenUnavailable` if every candidate is bound.
    pub fn join_among(&mut self, request: Join, candidates: &[Token]) -> (result: Result<
        (Token, Vec<Dispatch>),
        RoomError,
    >)
        requires
            old(self)@.wf(),
        ensures
            old(self)@.join_among(
                request.username@,
                password_view(request.password),
                tokens_view(candidates@),
            ) == (final(self)@, minted_view(result)),
            final(self)@.wf(),
    {
        proof {
            lemma_first_free(self@.tokens.dom(), tokens_view(candidates@));
        }
        match self.first_unbound(candidates) {
            Some(token) => self.join_with(request, token),
            None => match self.join_refusal(&request) {
                Some(refusal) => Err(refusal),
                None => Err(RoomError::TokenUnavailable),
            },
        }
    }

    /// Admits the player of `request` and mints its token: `TOKEN_ATTEMPTS`
    /// tokens are drawn, and the first of them that is not bound yet is the
    /// player's. Which tokens are drawn is left to chance; everything else is
    /// as in `join_among`.
    pub fn join(&mut self, request: Join) -> (result: Result<(Token, Vec<Dispatch>), RoomError>)
        requires
            old(self)@.wf(),
        ensures
            final(self)@.wf(),
            old(self)@.join_minted(
                request.username@,
                password_view(request.password),
                final(self)@,
                minted_view(result),
            ),
    {
        let candidates = draw_tokens(TOKEN_ATTEMPTS);
        proof {
            lemma_first_free(self@.tokens.dom(), tokens_view(candidates@));
        }
        self.join_among(request, candidates.as_slice())
    }

    /// The roster rows of the members, in the order in which they joined.
    pub fn players(&self) -> (rows: Vec<PlayerDescriptor>)
        ensures
            roster_view(rows@) == roster(self@.players),
    {
        let mut rows: Vec<PlayerDescriptor> = Vec::new();
        let mut i: usize = 0;
        while i < self.players.len()
            invariant
                i <= self.players@.len(),
                roster_view(rows@) == roster(self@.players).take(i as int),
            decreases self.players@.len() - i,
        {
            let row = PlayerDescriptor {
                username: self.players[i].username.clone(),
                points: self.players[i].points,
            };
            proof {
                let done = roster(self@.players);
                assert(row@ == done[i as int]);
                assert(roster_view(rows@.push(row)) =~= roster_view(rows@).push(row@));
                assert(done.take(i as int).push(done[i as int]) =~= done.take(i + 1));
            }
            rows.push(row);
            i += 1;
        }
        proof {
            assert(roster(self@.players).take(i as int) =~= roster(self@.players));
        }
        rows
    }

    /// Addresses `message` to the connected member `username` alone.
    pub fn send_one(&self, username: &Username, message: ServerMessage) -> (result: Result<
        Dispatch,
        RoomError,
    >)
        requires
            self@.wf(),
        ensures
            match self@.send_one(username@, message@) {
                Ok(dispatch) => result matches Ok(sent) && sent@ == dispatch,
                Err(refusal) => result matches Err(raised) && raised@ == refusal,
            },
    {
        match self.find_player(username) {
            None => Err(RoomError::PlayerNotFound(username.clone())),
            Some(at) => {
                proof {
                    lemma_connected_at(self@.players, at as int);
                }
                match &self.players[at].connection {
                    None => Err(RoomError::PlayerDisconnected(username.clone())),
                    Some(outbox) => {
                        let mut recipients: Vec<Recipient> = Vec::new();
                        recipients.push(
                            Recipient { username: username.clone(), channel: outbox.clone() },
                        );
                        proof {
                            assert(recipients_view(recipients@) =~= seq![recipients@[0]@]);
                        }
                        Ok(Dispatch { message, recipients })
                    },
                }
            },
        }
    }

    /// Gives the member at `at` the delivery path `connection`, or none.
    fn set_connection(&mut self, at: usize, connection: Option<Outbox>)
        requires
            old(self)@.wf(),
            at < old(self)@.players.len(),
        ensures
            final(self)@ == (RoomView {
                players: with_connection(
                    old(self)@.players,
                    old(self)@.players[at as int].username,
                    connection,
                ),
                ..old(self)@
            }),
            final(self)@.wf(),
    {
        let ghost before = self@;
        let ghost name = before.players[at as int].username;
        self.players[at].connection = connection;
        proof {
            lemma_with_connection(before.players, name, connection);
            assert forall|i: int| 0 <= i < before.players.len() implies self@.players[i]
                == with_connection(before.players, name, connection)[i] by {
                if i != at {
                    assert(usernames(before.players)[i] != usernames(before.players)[at as int]);
                }
            }
            assert(self@.players =~= with_connection(before.players, name, connection));
        }
    }

    /// Gives the player that the token of `request` names the delivery path
    /// with the sending end `outbox`. The player is addressed a private
    /// snapshot of the room, and then the connection is announced to every
    /// connected player, the new one included. A player that is connected
    /// already is refused, not replaced.
    pub fn connect_with(&mut self, request: Connect, outbox: Outbox) -> (result: Result<
        Vec<Dispatch>,
        RoomError,
    >)
        requires
            old(self)@.wf(),
        ensures
            final(self)@ == old(self)@.connect(request.token@, outbox).0,
            outcome_view(result) == old(self)@.connect(request.token@, outbox).1,
            final(self)@.wf(),
    {
        let ghost before = self@;
        let username = match self.authenticate(request.token.as_slice()) {
            Ok(username) => username,
            Err(_) => {
                return Err(RoomError::Unauthenticated);
            },
        };
        // A token is bound to a member, so the owner is always found.
        let at = match self.find_player(&username) {
            Some(at) => at,
            None => {
                return Err(RoomError::PlayerNotFound(username));
            },
        };
        proof {
            lemma_connected_at(before.players, at as int);
        }
        if self.players[at].connection.is_some() {
            return Err(RoomError::PlayerConnected(username));
        }
        self.set_connection(at, Some(outbox));
        proof {
            lemma_with_connection(before.players, username@, Some(outbox));
            lemma_connected_at(self@.players, at as int);
        }
        let snapshot = ServerMessage::Welcome {
            username: username.clone(),
            players: self.players(),
            host: self.host.clone(),
            phase: self.phase,
        };
        // The owner has just been connected, so the snapshot is never refused.
        let welcome = match self.send_one(&username, snapshot) {
            Ok(welcome) => welcome,
            Err(refusal) => {
                return Err(refusal);
            },
        };
        let announcement = self.send_all(ServerMessage::Connect { username });
        let mut dispatches: Vec<Dispatch> = Vec::new();
        dispatches.push(welcome);
        dispatches.push(announcement);
        proof {
            assert(dispatches_view(dispatches@) =~= seq![welcome@, announcement@]);
        }
        Ok(dispatches)
    }

    /// Opens a delivery path of `CHANNEL_CAPACITY` events for the player that
    /// the token of `request` names, keeps its sending end and answers its
    /// receiving end; everything else is as in `connect_with`. Where the
    /// connection is refused the path is closed again at once.
    pub fn connect(&mut self, request: Connect) -> (result: Result<
        (Inbox, Vec<Dispatch>),
        RoomError,
    >)
        requires
            old(self)@.wf(),
        ensures
            match result {
                Ok(connection) => {
                    &&& old(self)@.connect(request.token@, sending_end(connection.0)) == (
                        final(self)@,
                        Outcome::Ok(dispatches_view(connection.1@)),
                    )
                    &&& capacity_of(sending_end(connection.0)) == CHANNEL_CAPACITY
                },
                Err(refusal) => {
                    &&& final(self)@ == old(self)@
                    &&& old(self)@.connect_refusal(request.token@) == Some(refusal@)
                },
            },
            final(self)@.wf(),
    {
        let (outbox, inbox) = open_channel(CHANNEL_CAPACITY);
        match self.connect_with(request, outbox) {
            Ok(dispatches) => Ok((inbox, dispatches)),
            Err(refusal) => Err(refusal),
        }
    }

    /// Closes the delivery path of the player of `request` and announces the
    /// departure to the players that are still connected. Closing a path that
    /// is not open is refused.
    pub fn disconnect(&mut self, request: Disconnect) -> (result: Result<Vec<Dispatch>, RoomError>)
        requires
            old(self)@.wf(),
        ensures
            final(self)@ == old(self)@.disconnect(request.username@).0,
            outcome_view(result) == old(self)@.disconnect(request.username@).1,
            final(self)@.wf(),
    {
        let ghost before = self@;
        let Disconnect { username } = request;
        let at = match self.find_player(&username) {
            Some(at) => at,
            None => {
                return Err(RoomError::PlayerNotFound(username));
            },
        };
        proof {
            lemma_connected_at(before.players, at as int);
        }
        if self.players[at].connection.is_none() {
            return Err(RoomError::PlayerDisconnected(username));
        }
        self.set_connection(at, None);
        let announcement = self.send_all(ServerMessage::Disconnect { username });
        let mut dispatches: Vec<Dispatch> = Vec::new();
        dispatches.push(announcement);
        proof {
            assert(dispatches_view(dispatches@) =~= seq![announcement@]);
        }
        Ok(dispatches)
    }

    /// Acts on a message from an authenticated player. Chat is broadcast word
    /// for word. A start is granted to the host alone, and only while the game
    /// has not started; it puts the room into its first phase.
    pub fn handle(&mut self, signed: SignedPlayerMessage) -> (result: Result<
        Vec<Dispatch>,
        RoomError,
    >)
        requires
            old(self)@.wf(),
        ensures
            final(self)@ == old(self)@.handle(signed@).0,
            outcome_view(result) == old(self)@.handle(signed@).1,
            final(self)@.wf(),
    {
        let SignedPlayerMessage { username, message } = signed;
        match message {
            PlayerMessage::Chat { text } => {
                let chat = self.send_all(ServerMessage::Chat { username, text });
                let mut dispatches: Vec<Dispatch> = Vec::new();
                dispatches.push(chat);
                proof {
                    assert(dispatches_view(dispatches@) =~= seq![chat@]);
                }
                Ok(dispatches)
            },
            PlayerMessage::Start => {
                if !username.same(&self.host) {
                    return Err(RoomError::Unauthorized(username));
                }
                if self.phase.is_some() {
                    return Err(RoomError::GameStarted);
                }
                self.phase = Some(Phase::Bidding);
                let dispatches: Vec<Dispatch> = Vec::new();
                proof {
                    assert(dispatches_view(dispatches@) =~= Seq::<DispatchView>::empty());
                }
                Ok(dispatches)
            },
        }
    }

    /// Acts on `message` as sent by `name`; see `handle`.
    pub fn handle_message(&mut self, name: Username, message: PlayerMessage) -> (result: Result<
        Vec<Dispatch>,
        RoomError,
    >)
        requires
            old(self)@.wf(),
        ensures
            final(self)@ == old(self)@.handle(
                SignedView { username: name@, message: message@ },
            ).0,
            outcome_view(result) == old(self)@.handle(
                SignedView { username: name@, message: message@ },
            ).1,
            final(self)@.wf(),
    {
        self.handle(message.sign(name))
    }
}

/// Whether two optional passwords are exactly equal; two absent passwords are.
fn same_password(left: &Option<Password>, right: &Option<Password>) -> (same: bool)
    ensures
        same == (password_view(*left) == password_view(*right)),
{
    match (left, right) {
        (Some(a), Some(b)) => a.same(b),
        (None, None) => true,
        _ => false,
    }
}

/// What the answer to a join says, the token included.
pub open spec fn minted_view(result: Result<(Token, Vec<Dispatch>), RoomError>) -> Result<
    (Seq<u8>, Seq<DispatchView>),
    RoomErrorView,
> {
    match result {
        Ok(admission) => Ok((admission.0@, dispatches_view(admission.1@))),
        Err(refusal) => Err(refusal@),
    }
}

/// What the answer to a join says.
pub open spec fn admission_view(result: Result<(Token, Vec<Dispatch>), RoomError>) -> Outcome {
    match result {
        Ok(admission) => Ok(dispatches_view(admission.1@)),
        Err(refusal) => Err(refusal@),
    }
}

} // verus!
