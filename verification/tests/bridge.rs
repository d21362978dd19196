use game_server::bridge::{Bridge, BridgeAction, BridgeEvent, BridgeState, Frame, Pump};
use game_server::error::RoomError;
use game_server::message::{Disconnect, PlayerMessage, ServerMessage};
use game_server::validation::Username;

fn user(text: &str) -> Username {
    Username::validate(text.to_string()).expect("a plain name")
}

fn said(text: &str) -> PlayerMessage {
    PlayerMessage::Chat { text: text.to_string() }
}

fn pumping(text: &str) -> Bridge {
    let mut bridge = Bridge::new(user(text));
    assert_eq!(bridge.step(BridgeEvent::Accepted), BridgeAction::Start);
    bridge
}

fn finish(cancel: Pump, text: &str) -> BridgeAction {
    BridgeAction::Finish { cancel, release: Disconnect::new(user(text)) }
}

#[test]
fn new_bridge_waits_for_the_room() {
    let bridge = Bridge::new(user("bob"));
    assert_eq!(bridge.state(), BridgeState::Connecting);
    assert_eq!(bridge.username(), &user("bob"));
}

#[test]
fn accepted_connection_starts_the_pumps() {
    let mut bridge = Bridge::new(user("bob"));
    assert_eq!(bridge.step(BridgeEvent::Accepted), BridgeAction::Start);
    assert_eq!(bridge.state(), BridgeState::Pumping);
}

#[test]
fn refused_connection_is_rejected_without_disconnect() {
    let mut bridge = Bridge::new(user("bob"));
    let refusal = RoomError::PlayerConnected(user("bob"));
    assert_eq!(
        bridge.step(BridgeEvent::Refused(refusal.clone())),
        BridgeAction::Reject(refusal)
    );
    assert_eq!(bridge.state(), BridgeState::Rejected);
    for event in [
        BridgeEvent::Accepted,
        BridgeEvent::Outbound(None),
        BridgeEvent::WriteFailed,
        BridgeEvent::Inbound(Frame::End),
        BridgeEvent::Inbound(Frame::Message(said("hi"))),
    ] {
        assert_eq!(bridge.step(event), BridgeAction::Ignore);
        assert_eq!(bridge.state(), BridgeState::Rejected);
    }
}

#[test]
fn pump_reports_before_the_room_answers_are_ignored() {
    let mut bridge = Bridge::new(user("bob"));
    for event in [
        BridgeEvent::Outbound(None),
        BridgeEvent::WriteFailed,
        BridgeEvent::Inbound(Frame::End),
        BridgeEvent::Inbound(Frame::Message(said("hi"))),
    ] {
        assert_eq!(bridge.step(event), BridgeAction::Ignore);
        assert_eq!(bridge.state(), BridgeState::Connecting);
    }
}

#[test]
fn outbound_events_are_written_and_inbound_messages_submitted() {
    let mut bridge = pumping("bob");
    let event = ServerMessage::Connect { username: user("bob") };
    assert_eq!(
        bridge.step(BridgeEvent::Outbound(Some(event.clone()))),
        BridgeAction::Write(event)
    );
    assert_eq!(
        bridge.step(BridgeEvent::Inbound(Frame::Message(said("hello")))),
        BridgeAction::Submit(said("hello").sign(user("bob")))
    );
    assert_eq!(
        bridge.step(BridgeEvent::Inbound(Frame::Message(PlayerMessage::Start))),
        BridgeAction::Submit(PlayerMessage::Start.sign(user("bob")))
    );
    assert_eq!(bridge.state(), BridgeState::Pumping);
    assert_eq!(bridge.step(BridgeEvent::Accepted), BridgeAction::Ignore);
    assert_eq!(bridge.state(), BridgeState::Pumping);
}

#[test]
fn failed_write_cancels_inbound_and_disconnects_once() {
    let mut bridge = pumping("bob");
    let welcome = ServerMessage::Connect { username: user("bob") };
    assert_eq!(
        bridge.step(BridgeEvent::Outbound(Some(welcome.clone()))),
        BridgeAction::Write(welcome)
    );
    assert_eq!(bridge.step(BridgeEvent::WriteFailed), finish(Pump::Inbound, "bob"));
    assert_eq!(bridge.state(), BridgeState::Released);
    let mut disconnects = 1;
    for event in [
        BridgeEvent::Inbound(Frame::End),
        BridgeEvent::Inbound(Frame::Message(said("late"))),
        BridgeEvent::Outbound(None),
        BridgeEvent::WriteFailed,
        BridgeEvent::Outbound(Some(ServerMessage::Leave { username: user("bob") })),
    ] {
        let action = bridge.step(event);
        if matches!(action, BridgeAction::Finish { .. }) {
            disconnects += 1;
        }
        assert_eq!(action, BridgeAction::Ignore);
    }
    assert_eq!(disconnects, 1);
    assert_eq!(bridge.state(), BridgeState::Released);
}

#[test]
fn closed_delivery_path_cancels_inbound() {
    let mut bridge = pumping("bob");
    assert_eq!(bridge.step(BridgeEvent::Outbound(None)), finish(Pump::Inbound, "bob"));
    assert_eq!(bridge.state(), BridgeState::Released);
}

#[test]
fn ended_read_cancels_outbound() {
    let mut bridge = pumping("alice");
    assert_eq!(bridge.step(BridgeEvent::Inbound(Frame::End)), finish(Pump::Outbound, "alice"));
    assert_eq!(bridge.state(), BridgeState::Released);
    assert_eq!(bridge.step(BridgeEvent::Outbound(None)), BridgeAction::Ignore);
}

#[test]
fn undecodable_frame_ends_the_connection_not_the_room() {
    let mut bridge = pumping("alice");
    assert_eq!(
        bridge.step(BridgeEvent::Inbound(Frame::Undecodable)),
        finish(Pump::Outbound, "alice")
    );
    assert_eq!(bridge.state(), BridgeState::Released);
    assert_eq!(
        bridge.step(BridgeEvent::Inbound(Frame::Message(said("after")))),
        BridgeAction::Ignore
    );
}

#[test]
fn both_pumps_stopping_together_disconnect_once() {
    let mut bridge = pumping("bob");
    let first = bridge.step(BridgeEvent::Inbound(Frame::End));
    let second = bridge.step(BridgeEvent::WriteFailed);
    assert_eq!(first, finish(Pump::Outbound, "bob"));
    assert_eq!(second, BridgeAction::Ignore);
}
