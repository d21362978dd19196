//! The connection bridge: the decisions that couple the two pumps of one
//! connection to each other and to the room.
//!
//! The pumps themselves move bytes and wait; they are not found here. Whoever
//! runs them reports what happened as a `BridgeEvent` and performs the
//! `BridgeAction` that is answered.

use crate::error::RoomError;
use crate::message::{
    Disconnect, PlayerMessage, PlayerMessageView, ServerMessage, ServerMessageView,
    SignedPlayerMessage, SignedView,
};
use crate::model::RoomErrorView;
use crate::validation::Username;
use vstd::prelude::*;

verus! {

/// One of the two work units of a connection.
#[derive(Clone, Copy, Debug, PartialEq, Eq, Structural)]
pub enum Pump {
    /// Takes events from the room and writes them to the connection.
    Outbound,
    /// Reads frames from the connection and submits them to the room.
    Inbound,
}

/// Where a connection stands.
#[derive(Clone, Copy, Debug, PartialEq, Eq, Structural)]
pub enum BridgeState {
    /// The room has not yet answered the connection attempt.
    Connecting,
    /// Both pumps run.
    Pumping,
    /// A pump has stopped, the other was cancelled, and the room was told.
    Released,
    /// The room refused the connection attempt.
    Rejected,
}

/// What the inbound pump read.
#[derive(Clone, Debug, PartialEq, Eq)]
pub enum Frame {
    /// A text frame that decodes to a message.
    Message(PlayerMessage),
    /// A text frame that does not decode to a message.
    Undecodable,
    /// The read failed, the connection was closed, or the frame was no text.
    End,
}

/// What happened on a connection.
#[derive(Clone, Debug, PartialEq, Eq)]
pub enum BridgeEvent {
    /// The room granted the connection.
    Accepted,
    /// The room refused the connection.
    Refused(RoomError),
    /// The outbound pump took the next event from the room, or found the
    /// delivery path closed.
    Outbound(Option<ServerMessage>),
    /// The outbound pump could not write to the connection.
    WriteFailed,
    /// The inbound pump read from the connection.
    Inbound(Frame),
}

/// What is to be done on a connection.
#[derive(Clone, Debug, PartialEq, Eq)]
pub enum BridgeAction {
    /// Start both pumps.
    Start,
    /// End the connection attempt and tell the client why.
    Reject(RoomError),
    /// Encode the event and write it to the connection.
    Write(ServerMessage),
    /// Submit the message to the room.
    Submit(SignedPlayerMessage),
    /// Cancel the pump that still runs, then ask the room for the disconnect.
    Finish { cancel: Pump, release: Disconnect },
    /// Nothing.
    Ignore,
}

/// What a frame says.
pub enum FrameView {
    Message(PlayerMessageView),
    Undecodable,
    End,
}

/// What an event says.
pub enum EventView {
    Accepted,
    Refused(RoomErrorView),
    Outbound(Option<ServerMessageView>),
    WriteFailed,
    Inbound(FrameView),
}

/// What an action says.
pub enum ActionView {
    Start,
    Reject(RoomErrorView),
    Write(ServerMessageView),
    Submit(SignedView),
    Finish { cancel: Pump, release: Seq<char> },
    Ignore,
}

/// A connection of the player `username`.
pub struct BridgeView {
    pub username: Seq<char>,
    pub state: BridgeState,
}

impl View for Frame {
    type V = FrameView;

    open spec fn view(&self) -> FrameView {
        match *self {
            Frame::Message(message) => FrameView::Message(message@),
            Frame::Undecodable => FrameView::Undecodable,
            Frame::End => FrameView::End,
        }
    }
}

impl View for BridgeEvent {
    type V = EventView;

    open spec fn view(&self) -> EventView {
        match *self {
            BridgeEvent::Accepted => EventView::Accepted,
            BridgeEvent::Refused(refusal) => EventView::Refused(refusal@),
            BridgeEvent::Outbound(Some(message)) => EventView::Outbound(Some(message@)),
            BridgeEvent::Outbound(None) => EventView::Outbound(None),
            BridgeEvent::WriteFailed => EventView::WriteFailed,
            BridgeEvent::Inbound(frame) => EventView::Inbound(frame@),
        }
    }
}

impl View for BridgeAction {
    type V = ActionView;

    open spec fn view(&self) -> ActionView {
        match *self {
            BridgeAction::Start => ActionView::Start,
            BridgeAction::Reject(refusal) => ActionView::Reject(refusal@),
            BridgeAction::Write(message) => ActionView::Write(message@),
            BridgeAction::Submit(signed) => ActionView::Submit(signed@),
            BridgeAction::Finish { cancel, release } => ActionView::Finish {
                cancel,
                release: release.username@,
            },
            BridgeAction::Ignore => ActionView::Ignore,
        }
    }
}

impl BridgeView {
    /// The connection in the state `state`.
    pub open spec fn at(self, state: BridgeState) -> BridgeView {
        BridgeView { state, ..self }
    }

    /// The end of the pumping: `stopped` has stopped of itself, so the other
    /// pump is cancelled and the room is told, once.
    pub open spec fn finish(self, stopped: Pump) -> (BridgeView, ActionView) {
        (
            self.at(BridgeState::Released),
            ActionView::Finish {
                cancel: match stopped {
                    Pump::Outbound => Pump::Inbound,
                    Pump::Inbound => Pump::Outbound,
                },
                release: self.username,
            },
        )
    }

    /// The connection after `event`, and what is to be done about it. While
    /// the room has not answered, only its answer counts. While the pumps run,
    /// events are written and messages submitted until one pump stops. Before
    /// and after that, what the pumps report is ignored.
    pub open spec fn step(self, event: EventView) -> (BridgeView, ActionView) {
        match self.state {
            BridgeState::Connecting => match event {
                EventView::Accepted => (self.at(BridgeState::Pumping), ActionView::Start),
                EventView::Refused(refusal) => (
                    self.at(BridgeState::Rejected),
                    ActionView::Reject(refusal),
                ),
                _ => (self, ActionView::Ignore),
            },
            BridgeState::Pumping => match event {
                EventView::Outbound(Some(message)) => (self, ActionView::Write(message)),
                EventView::Outbound(None) => self.finish(Pump::Outbound),
                EventView::WriteFailed => self.finish(Pump::Outbound),
                EventView::Inbound(FrameView::Message(message)) => (
                    self,
                    ActionView::Submit(SignedView { username: self.username, message }),
                ),
                EventView::Inbound(_) => self.finish(Pump::Inbound),
                _ => (self, ActionView::Ignore),
            },
            _ => (self, ActionView::Ignore),
        }
    }

    /// The connection after `events`.
    pub open spec fn run(self, events: Seq<EventView>) -> BridgeView
        decreases events.len(),
    {
        if events.len() == 0 {
            self
        } else {
            self.run(events.drop_last()).step(events.last()).0
        }
    }

    /// How often the room is asked for the disconnect while `events` are served.
    pub open spec fn releases(self, events: Seq<EventView>) -> nat
        decreases events.len(),
    {
        if events.len() == 0 {
            0
        } else {
            let earlier = self.releases(events.drop_last());
            if self.run(events.drop_last()).step(events.last()).1 is Finish {
                earlier + 1
            } else {
                earlier
            }
        }
    }
}

/// The bridge of one connection.
#[derive(Debug)]
pub struct Bridge {
    username: Username,
    state: BridgeState,
}

impl View for Bridge {
    type V = BridgeView;

    closed spec fn view(&self) -> BridgeView {
        BridgeView { username: self.username@, state: self.state }
    }
}

impl Bridge {
    /// The bridge of a connection on which `username` has authenticated and
    /// which the room has not yet answered.
    pub fn new(username: Username) -> (bridge: Bridge)
        ensures
            bridge@ == (BridgeView { username: username@, state: BridgeState::Connecting }),
    {
        Bridge { username, state: BridgeState::Connecting }
    }

    /// Where the connection stands.
    pub fn state(&self) -> (state: BridgeState)
        ensures
            state == self@.state,
    {
        self.state
    }

    /// The player of the connection.
    pub fn username(&self) -> (username: &Username)
        ensures
            username@ == self@.username,
    {
        &self.username
    }

    /// Ends the pumping after `stopped` has stopped of itself.
    fn finish(&mut self, stopped: Pump) -> (action: BridgeAction)
        ensures
            final(self)@ == old(self)@.finish(stopped).0,
            action@ == old(self)@.finish(stopped).1,
    {
        self.state = BridgeState::Released;
        let cancel = match stopped {
            Pump::Outbound => Pump::Inbound,
            Pump::Inbound => Pump::Outbound,
        };
        BridgeAction::Finish { cancel, release: Disconnect::new(self.username.clone()) }
    }

    /// Takes note of `event` and answers what is to be done.
    pub fn step(&mut self, event: BridgeEvent) -> (action: BridgeAction)
        ensures
            final(self)@ == old(self)@.step(event@).0,
            action@ == old(self)@.step(event@).1,
    {
        match self.state {
            BridgeState::Connecting => match event {
                BridgeEvent::Accepted => {
                    self.state = BridgeState::Pumping;
                    BridgeAction::Start
                },
                BridgeEvent::Refused(refusal) => {
                    self.state = BridgeState::Rejected;
                    BridgeAction::Reject(refusal)
                },
                _ => BridgeAction::Ignore,
            },
            BridgeState::Pumping => match event {
                BridgeEvent::Outbound(Some(message)) => BridgeAction::Write(message),
                BridgeEvent::Outbound(None) => self.finish(Pump::Outbound),
                BridgeEvent::WriteFailed => self.finish(Pump::Outbound),
                BridgeEvent::Inbound(Frame::Message(message)) => BridgeAction::Submit(
                    message.sign(self.username.clone()),
                ),
                BridgeEvent::Inbound(_) => self.finish(Pump::Inbound),
                _ => BridgeAction::Ignore,
            },
            _ => BridgeAction::Ignore,
        }
    }
}

/// However the pumps end and whatever they report afterwards, the room is
/// asked for the disconnect once if the connection was released, and never
/// otherwise; and a connection that was released or rejected stays so.
pub proof fn law_release_fires_once(bridge: BridgeView, events: Seq<EventView>)
    requires
        bridge.state == BridgeState::Connecting,
    ensures
        bridge.run(events).username == bridge.username,
        bridge.releases(events) == if bridge.run(events).state == BridgeState::Released {
            1nat
        } else {
            0nat
        },
    decreases events.len(),
{
    if events.len() > 0 {
        law_release_fires_once(bridge, events.drop_last());
    }
}

/// While both pumps run, the first of them to stop, for whatever reason, has
/// the other one cancelled and the player's disconnect asked of the room.
pub proof fn law_first_stop_cancels_sibling(bridge: BridgeView, event: EventView)
    requires
        bridge.state == BridgeState::Pumping,
    ensures
        event == EventView::Outbound(None) || event == EventView::WriteFailed ==> bridge.step(event)
            == (
            bridge.at(BridgeState::Released),
            ActionView::Finish { cancel: Pump::Inbound, release: bridge.username },
        ),
        event == EventView::Inbound(FrameView::End) || event == EventView::Inbound(
            FrameView::Undecodable,
        ) ==> bridge.step(event) == (
            bridge.at(BridgeState::Released),
            ActionView::Finish { cancel: Pump::Outbound, release: bridge.username },
        ),
{
}

/// Once a connection is released or rejected, nothing more is written,
/// submitted or asked of the room on its account.
pub proof fn law_nothing_after_the_end(bridge: BridgeView, event: EventView)
    requires
        bridge.state == BridgeState::Released || bridge.state == BridgeState::Rejected,
    ensures
        bridge.step(event) == (bridge, ActionView::Ignore),
{
}

} // verus!
