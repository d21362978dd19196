//! The registry: where rooms are born and looked up by their code.

use crate::channel::{Inbox, Outbox};
use crate::error::RoomError;
use crate::message::{Connect, Disconnect, Join, SignedPlayerMessage};
use crate::channel::{capacity_of, sending_end, CHANNEL_CAPACITY};
use crate::model::{usernames, Outcome, RoomErrorView, RoomView};
use crate::room::{
    admission_view, dispatches_view, minted_view, outcome_view, password_view, Dispatch, Room,
};
use crate::table::{
    bindings, first_free, last_at, lemma_bindings, lemma_bindings_replace, lemma_first_free,
    lemma_first_free_is,
};
use crate::token::{random_token, Token, TOKEN_LEN};
use crate::validation::{Password, Username};
use vstd::prelude::*;
use vstd::string::{StrSliceExecFns, StringExecFns};

verus! {

/// Number of characters in a room code.
pub const CODE_LEN: usize = 4;

/// Number of characters that a room code is drawn from.
pub const NUM_CODE_CHARS: usize = 36;

/// How often a code is drawn for one room before creation gives up.
pub const CODE_ATTEMPTS: usize = 16;

/// The characters that a room code is drawn from.
pub open spec fn code_alphabet() -> Seq<char> {
    "ABCDEFGHIJKLMNOPQRSTUVWXYZ0123456789"@
}

/// The code that a sequence of draws spells: each draw picks a character of
/// the alphabet, counting round it where the draw is larger than the alphabet.
pub open spec fn code_spelled(draws: Seq<usize>) -> Seq<char> {
    draws.map_values(|draw: usize| code_alphabet()[draw as int % NUM_CODE_CHARS as int])
}

/// Draws a number below `bound` from the thread's generator with
/// `rand::Rng::random_range`. Nothing more is promised of the number drawn.
#[verifier::external_body]
fn random_below(bound: usize) -> (drawn: usize)
    requires
        bound > 0,
    ensures
        drawn < bound,
{
    rand::Rng::random_range(&mut rand::rng(), ..bound)
}

/// Spells the code that `draws` pick from the alphabet.
pub fn spell_code(draws: &[usize]) -> (code: String)
    ensures
        code@ == code_spelled(draws@),
{
    let alphabet = "ABCDEFGHIJKLMNOPQRSTUVWXYZ0123456789";
    proof {
        reveal_strlit("ABCDEFGHIJKLMNOPQRSTUVWXYZ0123456789");
    }
    let mut code = String::new();
    let mut i: usize = 0;
    while i < draws.len()
        invariant
            i <= draws@.len(),
            alphabet@ == code_alphabet(),
            alphabet@.len() == NUM_CODE_CHARS,
            code@ == code_spelled(draws@.take(i as int)),
        decreases draws@.len() - i,
    {
        let at = draws[i] % NUM_CODE_CHARS;
        let letter = alphabet.substring_char(at, at + 1);
        proof {
            assert(letter@ =~= seq![alphabet@[at as int]]);
            assert(code_spelled(draws@.take(i + 1)) =~= code_spelled(draws@.take(i as int)) + letter@);
        }
        code.append(letter);
        i += 1;
    }
    proof {
        assert(draws@.take(i as int) =~= draws@);
    }
    code
}

/// Whether `code` has the form of a room code: `CODE_LEN` characters of the
/// alphabet.
pub open spec fn is_code(code: Seq<char>) -> bool {
    &&& code.len() == CODE_LEN
    &&& forall|i: int| 0 <= i < code.len() ==> code_alphabet().contains(#[trigger] code[i])
}

/// Whether `codes` are the codes drawn for one room: `CODE_ATTEMPTS` of them,
/// each of the form of a room code.
pub open spec fn drawn_codes(codes: Seq<Seq<char>>) -> bool {
    &&& codes.len() == CODE_ATTEMPTS
    &&& forall|i: int| 0 <= i < codes.len() ==> is_code(#[trigger] codes[i])
}

/// What each of `codes` says, in order.
pub open spec fn codes_view(codes: Seq<String>) -> Seq<Seq<char>> {
    codes.map_values(|code: String| code@)
}

/// Draws a room code: `CODE_LEN` characters of the alphabet.
fn generate_code() -> (code: String)
    ensures
        is_code(code@),
{
    let mut draws: Vec<usize> = Vec::new();
    let mut i: usize = 0;
    while i < CODE_LEN
        invariant
            i <= CODE_LEN,
            draws@.len() == i,
        decreases CODE_LEN - i,
    {
        draws.push(random_below(NUM_CODE_CHARS));
        i += 1;
    }
    let code = spell_code(draws.as_slice());
    proof {
        reveal_strlit("ABCDEFGHIJKLMNOPQRSTUVWXYZ0123456789");
        assert forall|i: int| 0 <= i < code@.len() implies code_alphabet().contains(
            #[trigger] code@[i],
        ) by {
            let at = draws@[i] as int % NUM_CODE_CHARS as int;
            assert(code@[i] == code_alphabet()[at]);
        }
    }
    code
}

/// Draws `count` room codes, one after the other.
fn draw_codes(count: usize) -> (codes: Vec<String>)
    ensures
        codes@.len() == count,
        forall|i: int| 0 <= i < codes@.len() ==> is_code(#[trigger] codes_view(codes@)[i]),
{
    let mut codes: Vec<String> = Vec::new();
    while codes.len() < count
        invariant
            codes@.len() <= count,
            forall|i: int| 0 <= i < codes@.len() ==> is_code(#[trigger] codes_view(codes@)[i]),
        decreases count - codes@.len(),
    {
        let code = generate_code();
        proof {
            assert(codes_view(codes@.push(code)) =~= codes_view(codes@).push(code@));
        }
        codes.push(code);
    }
    codes
}

/// A room and the code it is registered under.
#[derive(Debug)]
struct RoomEntry {
    code: String,
    room: Room,
}

/// The rooms of a process, each under its code. Rooms are added and never
/// changed in place of another or removed.
#[derive(Debug)]
pub struct RoomRegistry {
    entries: Vec<RoomEntry>,
}

/// What a registry holds.
#[verifier::ext_equal]
pub struct RegistryView {
    /// The room registered under each code.
    pub rooms: Map<Seq<char>, RoomView>,
}

impl RegistryView {
    /// The invariant of every registry: each of its rooms is well formed.
    pub open spec fn wf(self) -> bool {
        &&& self.rooms.dom().finite()
        &&& forall|code: Seq<char>| #[trigger]
            self.rooms.contains_key(code) ==> self.rooms[code].wf()
    }

    /// Whether no room is registered under anything of the form of a room code.
    pub open spec fn has_no_code(self) -> bool {
        forall|code: Seq<char>| is_code(code) ==> !#[trigger] self.rooms.contains_key(code)
    }

    /// The room registered under `code`, if there is one.
    pub open spec fn lookup(self, code: Seq<char>) -> Result<RoomView, RoomErrorView> {
        if self.rooms.contains_key(code) {
            Ok(self.rooms[code])
        } else {
            Err(RoomErrorView::RoomNotFound)
        }
    }

    /// The registry with `room` in place of the room under `code`.
    pub open spec fn with_room(self, code: Seq<char>, room: RoomView) -> RegistryView {
        RegistryView { rooms: self.rooms.insert(code, room) }
    }

    /// The creation of a room under `code`, for which `token` was drawn.
    pub open spec fn create_room(
        self,
        code: Seq<char>,
        host: Seq<char>,
        password: Option<Seq<char>>,
        token: Seq<u8>,
    ) -> (RegistryView, Result<(Seq<char>, Seq<u8>), RoomErrorView>) {
        if self.rooms.contains_key(code) {
            (self, Err(RoomErrorView::CodeUnavailable))
        } else {
            (self.with_room(code, RoomView::initial(host, password, token)), Ok((code, token)))
        }
    }

    /// The creation of a room for which the codes `codes` were drawn one after
    /// the other, and the token `token`: the room is registered under the
    /// first of the codes that is not taken yet.
    pub open spec fn create_room_among(
        self,
        codes: Seq<Seq<char>>,
        host: Seq<char>,
        password: Option<Seq<char>>,
        token: Seq<u8>,
    ) -> (RegistryView, Result<(Seq<char>, Seq<u8>), RoomErrorView>) {
        match first_free(self.rooms.dom(), codes) {
            Some(code) => self.create_room(code, host, password, token),
            None => (self, Err(RoomErrorView::CodeUnavailable)),
        }
    }

    /// Whether `after` and `answer` are what the creation of a room for `host`
    /// may make of this registry when codes and token are left to chance:
    /// they are what `create_room_among` makes of some `CODE_ATTEMPTS` codes
    /// and some token.
    pub open spec fn room_drawn(
        self,
        host: Seq<char>,
        password: Option<Seq<char>>,
        after: RegistryView,
        answer: Result<(Seq<char>, Seq<u8>), RoomErrorView>,
    ) -> bool {
        exists|codes: Seq<Seq<char>>, token: Seq<u8>|
            drawn_codes(codes) && token.len() == TOKEN_LEN && #[trigger] self.create_room_among(
                codes,
                host,
                password,
                token,
            ) == (after, answer)
    }

    /// Why a connection attempt with `token` in the room under `code` is
    /// refused, if it is.
    pub open spec fn connect_refusal(self, code: Seq<char>, token: Seq<u8>) -> Option<
        RoomErrorView,
    > {
        match self.lookup(code) {
            Err(refusal) => Some(refusal),
            Ok(room) => room.connect_refusal(token),
        }
    }

    /// A connection attempt with `token` in the room under `code`, for which
    /// the delivery path with the sending end `outbox` is opened if it is
    /// granted.
    pub open spec fn connect(self, code: Seq<char>, token: Seq<u8>, outbox: Outbox) -> (
        RegistryView,
        Outcome,
    ) {
        self.serve(code, |room: RoomView| room.connect(token, outbox))
    }

    /// What becomes of the registry, and what is answered, when the room under
    /// `code` is asked to make `served` of itself.
    pub open spec fn serve(
        self,
        code: Seq<char>,
        served: spec_fn(RoomView) -> (RoomView, Outcome),
    ) -> (RegistryView, Outcome) {
        if self.rooms.contains_key(code) {
            (self.with_room(code, served(self.rooms[code]).0), served(self.rooms[code]).1)
        } else {
            (self, Err(RoomErrorView::RoomNotFound))
        }
    }
}

/// The registry as a list of pairs.
spec fn room_pairs(entries: Seq<RoomEntry>) -> Seq<(Seq<char>, RoomView)> {
    entries.map_values(|entry: RoomEntry| (entry.code@, entry.room@))
}

impl View for RoomRegistry {
    type V = RegistryView;

    closed spec fn view(&self) -> RegistryView {
        RegistryView { rooms: bindings(room_pairs(self.entries@)) }
    }
}

impl RoomRegistry {
    /// A registry without rooms.
    pub fn new() -> (registry: RoomRegistry)
        ensures
            registry@.rooms == Map::<Seq<char>, RoomView>::empty(),
            registry@.wf(),
    {
        let registry = RoomRegistry { entries: Vec::new() };
        proof {
            assert(registry@.rooms =~= Map::<Seq<char>, RoomView>::empty());
        }
        registry
    }

    /// The last place of `code` in the list, which is where its room stands.
    fn find(&self, code: &str) -> (found: Option<usize>)
        ensures
            match found {
                Some(at) => {
                    &&& at < self.entries@.len()
                    &&& self.entries@[at as int].code@ == code@
                    &&& last_at(room_pairs(self.entries@), code@, at as int)
                    &&& self@.rooms.contains_key(code@)
                    &&& self@.rooms[code@] == self.entries@[at as int].room@
                },
                None => !self@.rooms.contains_key(code@),
            },
    {
        let ghost pairs = room_pairs(self.entries@);
        let wanted = code.to_owned();
        let mut found: Option<usize> = None;
        let mut i: usize = self.entries.len();
        while i > 0 && found.is_none()
            invariant
                i <= self.entries@.len(),
                wanted@ == code@,
                pairs == room_pairs(self.entries@),
                match found {
                    Some(at) => at == i && at < pairs.len() && pairs[at as int].0 == code@
                        && last_at(pairs, code@, at as int),
                    None => last_at(pairs, code@, i - 1),
                },
            decreases i,
        {
            i -= 1;
            if self.entries[i].code == wanted {
                found = Some(i);
            }
        }
        proof {
            lemma_bindings(pairs);
            match found {
                Some(at) => {
                    assert(last_at(pairs, pairs[at as int].0, at as int));
                    assert(bindings(pairs)[pairs[at as int].0] == pairs[at as int].1);
                },
                None => {
                    assert forall|j: int| 0 <= j < pairs.len() implies (#[trigger] pairs[j]).0
                        != code@ by {}
                },
            }
        }
        found
    }

    /// The room registered under `code`, to be changed in its place.
    fn room_mut(&mut self, code: &str) -> (room: Result<&mut Room, RoomError>)
        ensures
            match old(self)@.lookup(code@) {
                Ok(view) => {
                    &&& room matches Ok(found)
                    &&& found@ == view
                    &&& final(self)@ == old(self)@.with_room(code@, final(found)@)
                },
                Err(refusal) => {
                    &&& room matches Err(raised)
                    &&& raised@ == refusal
                    &&& final(self)@ == old(self)@
                },
            },
    {
        match self.find(code) {
            Some(at) => {
                let ghost before = self.entries@;
                let room = &mut self.entries[at].room;
                proof {
                    let entry = RoomEntry { code: before[at as int].code, room: *final(room) };
                    lemma_bindings_replace(room_pairs(before), at as int, final(room)@);
                    assert(room_pairs(before.update(at as int, entry)) =~= room_pairs(
                        before,
                    ).update(at as int, (code@, final(room)@)));
                }
                Ok(room)
            },
            None => Err(RoomError::RoomNotFound),
        }
    }

    /// Whether a room is registered under `code`.
    pub fn contains(&self, code: &str) -> (found: bool)
        ensures
            found == self@.rooms.contains_key(code@),
    {
        self.find(code).is_some()
    }

    /// The room registered under `code`.
    pub fn lookup(&self, code: &str) -> (result: Result<&Room, RoomError>)
        ensures
            match self@.lookup(code@) {
                Ok(room) => result matches Ok(found) && found@ == room,
                Err(refusal) => result matches Err(raised) && raised@ == refusal,
            },
    {
        match self.find(code) {
            Some(at) => Ok(&self.entries[at].room),
            None => Err(RoomError::RoomNotFound),
        }
    }

    /// The place of the first of `candidates` under which no room is
    /// registered yet, if there is one.
    pub fn first_free(&self, candidates: &[String]) -> (free: Option<usize>)
        ensures
            match first_free(self@.rooms.dom(), codes_view(candidates@)) {
                Some(code) => free matches Some(at) && at < candidates@.len() && candidates@[at as int]@
                    == code,
                None => free is None,
            },
    {
        let ghost drawn = codes_view(candidates@);
        let mut i: usize = 0;
        while i < candidates.len()
            invariant
                i <= candidates@.len(),
                drawn == codes_view(candidates@),
                forall|j: int| 0 <= j < i ==> self@.rooms.dom().contains(#[trigger] drawn[j]),
            decreases candidates@.len() - i,
        {
            if !self.contains(candidates[i].as_str()) {
                proof {
                    lemma_first_free_is(self@.rooms.dom(), drawn, i as int);
                }
                return Some(i);
            }
            i += 1;
        }
        proof {
            lemma_first_free(self@.rooms.dom(), drawn);
        }
        None
    }

    /// Registers a new room under `code`, with `host` as its first member
    /// holding `token`, unless `code` is taken.
    pub fn create_room_with(
        &mut self,
        code: String,
        host: Username,
        password: Option<Password>,
        token: Token,
    ) -> (result: Result<(String, Token), RoomError>)
        requires
            old(self)@.wf(),
        ensures
            final(self)@ == old(self)@.create_room(code@, host@, password_view(password), token@).0,
            creation_view(result) == old(self)@.create_room(
                code@,
                host@,
                password_view(password),
                token@,
            ).1,
            final(self)@.wf(),
    {
        if self.contains(code.as_str()) {
            return Err(RoomError::CodeUnavailable);
        }
        let (room, token) = Room::create_with(host, password, token);
        let entry = RoomEntry { code: code.clone(), room };
        proof {
            assert(room_pairs(self.entries@.push(entry)).drop_last() =~= room_pairs(self.entries@));
        }
        self.entries.push(entry);
        Ok((code, token))
    }

    /// Registers a new room under the first of `codes` that is not taken yet,
    /// with `host` as its first member holding `token`. Creation is refused
    /// with `CodeUnavailable` exactly if every one of the codes is taken.
    pub fn create_room_among(
        &mut self,
        codes: &[String],
        host: Username,
        password: Option<Password>,
        token: Token,
    ) -> (result: Result<(String, Token), RoomError>)
        requires
            old(self)@.wf(),
        ensures
            old(self)@.create_room_among(
                codes_view(codes@),
                host@,
                password_view(password),
                token@,
            ) == (final(self)@, creation_view(result)),
            final(self)@.wf(),
    {
        match self.first_free(codes) {
            Some(at) => self.create_room_with(codes[at].clone(), host, password, token),
            None => Err(RoomError::CodeUnavailable),
        }
    }

    /// Registers a new room with `host` as its first member: `CODE_ATTEMPTS`
    /// codes and a token are drawn, and the room is registered under the
    /// first of the codes that is not taken yet. The room is complete before
    /// it can be looked up. Which codes and which token are drawn is left to
    /// chance; a registry that holds no room under anything of the form of a
    /// code never refuses.
    pub fn create_room(&mut self, host: Username, password: Option<Password>) -> (result: Result<
        (String, Token),
        RoomError,
    >)
        requires
            old(self)@.wf(),
        ensures
            final(self)@.wf(),
            old(self)@.room_drawn(
                host@,
                password_view(password),
                final(self)@,
                creation_view(result),
            ),
            old(self)@.has_no_code() ==> result is Ok,
            match result {
                Ok(created) => {
                    &&& is_code(created.0@)
                    &&& !old(self)@.rooms.contains_key(created.0@)
                    &&& final(self)@ == old(self)@.with_room(
                        created.0@,
                        RoomView::initial(host@, password_view(password), created.1@),
                    )
                },
                Err(refusal) => final(self)@ == old(self)@ && refusal@
                    == RoomErrorView::CodeUnavailable,
            },
    {
        let codes = draw_codes(CODE_ATTEMPTS);
        let token = random_token();
        proof {
            let drawn = codes_view(codes@);
            lemma_first_free(self@.rooms.dom(), drawn);
            assert(is_code(drawn[0]));
        }
        self.create_room_among(codes.as_slice(), host, password, token)
    }

    /// Resolves `token` in the room under `code` to the username it was issued
    /// to.
    pub fn authenticate(&self, code: &str, token: &[u8]) -> (result: Result<Username, RoomError>)
        ensures
            match self@.lookup(code@) {
                Err(refusal) => result matches Err(raised) && raised@ == refusal,
                Ok(room) => match room.authenticate(token@) {
                    Some(name) => result matches Ok(found) && found@ == name,
                    None => result matches Err(RoomError::Unauthenticated),
                },
            },
    {
        match self.find(code) {
            Some(at) => self.entries[at].room.authenticate(token),
            None => Err(RoomError::RoomNotFound),
        }
    }

    /// Asks the room under `code` to admit the player of `request` under
    /// `token`; see `Room::join_with`.
    pub fn join_with(&mut self, code: &str, request: Join, token: Token) -> (result: Result<
        (Token, Vec<Dispatch>),
        RoomError,
    >)
        requires
            old(self)@.wf(),
        ensures
            final(self)@ == old(self)@.serve(
                code@,
                |room: RoomView|
                    room.join(request.username@, password_view(request.password), token@),
            ).0,
            admission_view(result) == old(self)@.serve(
                code@,
                |room: RoomView|
                    room.join(request.username@, password_view(request.password), token@),
            ).1,
            result matches Ok(admission) ==> admission.0 == token,
            final(self)@.wf(),
    {
        match self.room_mut(code) {
            Ok(room) => room.join_with(request, token),
            Err(refusal) => Err(refusal),
        }
    }

    /// Asks the room under `code` to admit the player of `request`; see
    /// `Room::join`.
    pub fn join(&mut self, code: &str, request: Join) -> (result: Result<
        (Token, Vec<Dispatch>),
        RoomError,
    >)
        requires
            old(self)@.wf(),
        ensures
            final(self)@.wf(),
            match old(self)@.lookup(code@) {
                Err(refusal) => {
                    &&& final(self)@ == old(self)@
                    &&& result matches Err(raised)
                    &&& raised@ == refusal
                },
                Ok(room) => {
                    &&& final(self)@.rooms.contains_key(code@)
                    &&& final(self)@ == old(self)@.with_room(code@, final(self)@.rooms[code@])
                    &&& room.join_minted(
                        request.username@,
                        password_view(request.password),
                        final(self)@.rooms[code@],
                        minted_view(result),
                    )
                },
            },
    {
        match self.room_mut(code) {
            Ok(room) => room.join(request),
            Err(refusal) => Err(refusal),
        }
    }

    /// Asks the room under `code` to open a delivery path for the player that
    /// the token of `request` names; see `Room::connect`.
    pub fn connect(&mut self, code: &str, request: Connect) -> (result: Result<
        (Inbox, Vec<Dispatch>),
        RoomError,
    >)
        requires
            old(self)@.wf(),
        ensures
            match result {
                Ok(connection) => {
                    &&& old(self)@.connect(code@, request.token@, sending_end(connection.0)) == (
                        final(self)@,
                        Outcome::Ok(dispatches_view(connection.1@)),
                    )
                    &&& capacity_of(sending_end(connection.0)) == CHANNEL_CAPACITY
                },
                Err(refusal) => {
                    &&& final(self)@ == old(self)@
                    &&& old(self)@.connect_refusal(code@, request.token@) == Some(refusal@)
                },
            },
            final(self)@.wf(),
    {
        match self.room_mut(code) {
            Ok(room) => room.connect(request),
            Err(refusal) => Err(refusal),
        }
    }

    /// Asks the room under `code` to close the delivery path of the player of
    /// `request`; see `Room::disconnect`.
    pub fn disconnect(&mut self, code: &str, request: Disconnect) -> (result: Result<
        Vec<Dispatch>,
        RoomError,
    >)
        requires
            old(self)@.wf(),
        ensures
            final(self)@ == old(self)@.serve(
                code@,
                |room: RoomView| room.disconnect(request.username@),
            ).0,
            outcome_view(result) == old(self)@.serve(
                code@,
                |room: RoomView| room.disconnect(request.username@),
            ).1,
            final(self)@.wf(),
    {
        match self.room_mut(code) {
            Ok(room) => room.disconnect(request),
            Err(refusal) => Err(refusal),
        }
    }

    /// Hands a player's message to the room under `code`; see `Room::handle`.
    pub fn handle(&mut self, code: &str, signed: SignedPlayerMessage) -> (result: Result<
        Vec<Dispatch>,
        RoomError,
    >)
        requires
            old(self)@.wf(),
        ensures
            final(self)@ == old(self)@.serve(code@, |room: RoomView| room.handle(signed@)).0,
            outcome_view(result) == old(self)@.serve(code@, |room: RoomView| room.handle(signed@)).1,
            final(self)@.wf(),
    {
        match self.room_mut(code) {
            Ok(room) => room.handle(signed),
            Err(refusal) => Err(refusal),
        }
    }
}

/// What the answer to a creation says.
pub open spec fn creation_view(result: Result<(String, Token), RoomError>) -> Result<
    (Seq<char>, Seq<u8>),
    RoomErrorView,
> {
    match result {
        Ok(created) => Ok((created.0@, created.1@)),
        Err(refusal) => Err(refusal@),
    }
}

/// A registry only grows: a code that is registered stays registered,
/// whatever room is created and whatever a room is asked to do.
pub proof fn law_registry_is_additive(
    registry: RegistryView,
    kept: Seq<char>,
    code: Seq<char>,
    host: Seq<char>,
    password: Option<Seq<char>>,
    token: Seq<u8>,
    served: spec_fn(RoomView) -> (RoomView, Outcome),
)
    requires
        registry.rooms.contains_key(kept),
    ensures
        registry.create_room(code, host, password, token).0.rooms.contains_key(kept),
        registry.create_room(code, host, password, token).0.rooms[kept] == registry.rooms[kept],
        registry.serve(code, served).0.rooms.contains_key(kept),
        kept != code ==> registry.serve(code, served).0.rooms[kept] == registry.rooms[kept],
{
}

/// A room is registered whole: under the code it was given a new room is
/// found at once, well formed, with its host as only member.
pub proof fn law_created_room_is_found(
    registry: RegistryView,
    code: Seq<char>,
    host: Seq<char>,
    password: Option<Seq<char>>,
    token: Seq<u8>,
)
    requires
        registry.wf(),
        token.len() == TOKEN_LEN,
        registry.create_room(code, host, password, token).1 is Ok,
    ensures
        registry.create_room(code, host, password, token).0.wf(),
        registry.create_room(code, host, password, token).0.lookup(code) == Ok::<
            RoomView,
            RoomErrorView,
        >(RoomView::initial(host, password, token)),
        RoomView::initial(host, password, token).wf(),
        RoomView::initial(host, password, token).authenticate(token) == Some(host),
{
    let created = RoomView::initial(host, password, token);
    assert(usernames(created.players) =~= seq![host]);
    assert(usernames(created.players)[0] == host);
}

} // verus!
