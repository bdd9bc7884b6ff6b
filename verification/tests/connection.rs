use lanchat::codec::LanChatCodecError;
use lanchat::command::Command;
use lanchat::connection::BridgeAction;
use lanchat::connection::BridgeEvent;
use lanchat::connection::BridgeState;
use lanchat::message::LanChatMessage;
use lanchat::message::ParseMessageError;
use lanchat::server::Response;

fn quit() -> LanChatMessage {
    LanChatMessage {
        prefix: None,
        command: Command::Quit,
    }
}

#[test]
fn a_message_is_passed_on() {
    let mut state = BridgeState::new();
    assert_eq!(BridgeState::Open, state);
    assert_eq!(
        BridgeAction::Forward(quit()),
        state.step(BridgeEvent::Message(quit()))
    );
    assert_eq!(BridgeState::Open, state);
}

#[test]
fn only_hang_up_closes_after_an_answer() {
    let mut state = BridgeState::new();
    assert_eq!(
        BridgeAction::Continue,
        state.step(BridgeEvent::Replied(Response::Ack))
    );
    assert_eq!(BridgeAction::Continue, state.step(BridgeEvent::Unanswered));
    assert_eq!(
        BridgeAction::Close,
        state.step(BridgeEvent::Replied(Response::HangUp))
    );
}

#[test]
fn a_line_for_everyone_is_written() {
    let mut state = BridgeState::new();
    assert_eq!(
        BridgeAction::Transmit(":olly MSG :hi\r\n".to_owned()),
        state.step(BridgeEvent::Broadcast(":olly MSG :hi\r\n".to_owned()))
    );
}

#[test]
fn lines_that_went_by_are_passed_over() {
    let mut state = BridgeState::new();
    assert_eq!(BridgeAction::Continue, state.step(BridgeEvent::Lagged(3)));
    assert_eq!(BridgeState::Open, state);
    assert_eq!(
        BridgeAction::Continue,
        state.step(BridgeEvent::BroadcastClosed)
    );
    assert_eq!(
        BridgeAction::Transmit("next\r\n".to_owned()),
        state.step(BridgeEvent::Broadcast("next\r\n".to_owned()))
    );
}

#[test]
fn the_end_of_the_stream_closes() {
    let mut state = BridgeState::new();
    assert_eq!(BridgeAction::Close, state.step(BridgeEvent::Ended));
}

#[test]
fn a_failed_read_closes() {
    let mut state = BridgeState::new();
    assert_eq!(BridgeAction::Close, state.step(BridgeEvent::Failed));
    let mut state = BridgeState::Recovering;
    assert_eq!(BridgeAction::Close, state.step(BridgeEvent::Failed));
}

#[test]
fn a_dropped_line_keeps_the_connection_open() {
    for error in [
        LanChatCodecError::MaxLengthExceeded,
        LanChatCodecError::InvalidEncoding,
        LanChatCodecError::ParseError(ParseMessageError::All),
        LanChatCodecError::LfWithoutCr,
    ] {
        let mut state = BridgeState::new();
        assert_eq!(
            BridgeAction::Continue,
            state.step(BridgeEvent::Rejected(error))
        );
        assert_eq!(BridgeState::Recovering, state);
        // The stream marks the place of the line by ending once.
        assert_eq!(BridgeAction::Continue, state.step(BridgeEvent::Ended));
        assert_eq!(BridgeState::Open, state);
        // After that an end is the end.
        assert_eq!(BridgeAction::Close, state.step(BridgeEvent::Ended));
    }
}

#[test]
fn other_events_do_not_end_the_recovery() {
    let mut state = BridgeState::Recovering;
    state.step(BridgeEvent::Broadcast("x\r\n".to_owned()));
    assert_eq!(BridgeState::Recovering, state);
    state.step(BridgeEvent::Lagged(1));
    assert_eq!(BridgeState::Recovering, state);
    state.step(BridgeEvent::Unanswered);
    assert_eq!(BridgeState::Recovering, state);
    state.step(BridgeEvent::Message(quit()));
    assert_eq!(BridgeState::Open, state);
}
