use wormhole_session::{
    Action, FailReason, Fault, Input, InputError, Phase, Session, SessionEvent, Transport,
    reason_of,
};

fn events_of(s: &mut Session, inputs: Vec<Input>) -> Vec<SessionEvent> {
    let mut all = Vec::new();
    for i in inputs {
        all.extend(s.step(i).events);
    }
    all
}

#[test]
fn hello_world_transfer_completes_on_both_sides() {
    let mut sender = Session::sender(11).unwrap();
    let step = sender.step(Input::Welcome("7-crossword-clockwork".to_string()));
    assert_eq!(step.action, Action::AwaitPeer);
    assert_eq!(step.events, vec![SessionEvent::CodeReady("7-crossword-clockwork".to_string())]);

    let mut receiver = Session::receiver("7-crossword-clockwork").unwrap();
    assert_eq!(sender.step(Input::PeerConnected).action, Action::SendFile);
    assert_eq!(receiver.step(Input::PeerConnected).action, Action::RequestOffer);

    let offered = receiver.step(Input::Offer("greeting.txt".to_string(), 11));
    assert_eq!(offered.action, Action::AskShell);
    assert_eq!(offered.events, vec![SessionEvent::ManifestOffered("greeting.txt".to_string(), 11)]);
    assert_eq!(receiver.step(Input::Decision(true)).action, Action::Accept);

    let ready = sender.step(Input::TransitReady(Transport::Direct));
    assert_eq!(ready.events, vec![SessionEvent::Connected(Transport::Direct)]);
    receiver.step(Input::TransitReady(Transport::Direct));
    sender.step(Input::Progress(11));
    receiver.step(Input::Progress(11));

    let sent = sender.step(Input::Sent);
    assert_eq!(sent.action, Action::Close);
    assert_eq!(sent.events.last(), Some(&SessionEvent::Completed));
    let received = receiver.step(Input::Received(b"hello world".to_vec()));
    assert_eq!(received.events.last(), Some(&SessionEvent::Completed));
    assert_eq!(sender.phase, Phase::Completed);
    assert_eq!(receiver.phase, Phase::Completed);
    assert_eq!(receiver.file, b"hello world".to_vec());
}

#[test]
fn wrong_passphrase_fails_authentication_on_both_sides() {
    let mut sender = Session::sender(11).unwrap();
    sender.step(Input::Welcome("7-crossword-clockwork".to_string()));
    let mut receiver = Session::receiver("7-crossword-clockwork-wrong").unwrap();
    let r = receiver.step(Input::Fault(Fault::PakeFailed));
    let s = sender.step(Input::Fault(Fault::PakeFailed));
    assert_eq!(r.events, vec![SessionEvent::Failed(FailReason::AuthenticationFailed)]);
    assert_eq!(s.events, vec![SessionEvent::Failed(FailReason::AuthenticationFailed)]);
    assert_eq!(r.action, Action::Close);
    assert_eq!(receiver.done, 0);
    assert!(receiver.file.is_empty());
}

#[test]
fn severed_network_mid_transfer_delivers_nothing() {
    let mut receiver = Session::receiver("3-apple-banana").unwrap();
    events_of(&mut receiver, vec![
        Input::PeerConnected,
        Input::Offer("data.bin".to_string(), 100),
        Input::Decision(true),
        Input::TransitReady(Transport::Relay),
        Input::Progress(40),
    ]);
    assert_eq!(receiver.done, 40);
    let step = receiver.step(Input::Fault(Fault::Io));
    assert_eq!(step.events, vec![SessionEvent::Failed(FailReason::ConnectionLost)]);
    assert_eq!(receiver.phase, Phase::Failed(FailReason::ConnectionLost));
    assert!(receiver.file.is_empty());
    // bytes that still arrive afterwards are not taken
    let late = receiver.step(Input::Received(vec![0u8; 100]));
    assert!(late.events.is_empty());
    assert!(receiver.file.is_empty());
}

#[test]
fn corrupted_record_is_an_integrity_violation() {
    let mut receiver = Session::receiver("3-apple-banana").unwrap();
    events_of(&mut receiver, vec![
        Input::PeerConnected,
        Input::Offer("data.bin".to_string(), 100),
        Input::Decision(true),
        Input::Progress(10),
    ]);
    let step = receiver.step(Input::Fault(Fault::Crypto));
    assert_eq!(step.events, vec![SessionEvent::Failed(FailReason::IntegrityViolation)]);
    assert!(receiver.file.is_empty());
}

#[test]
fn cancel_right_after_connect_aborts_with_nothing_delivered() {
    let mut receiver = Session::receiver("3-apple-banana").unwrap();
    events_of(&mut receiver, vec![
        Input::PeerConnected,
        Input::Offer("data.bin".to_string(), 100),
        Input::Decision(true),
        Input::TransitReady(Transport::Direct),
    ]);
    let step = receiver.step(Input::Cancel);
    assert_eq!(step.action, Action::Close);
    assert_eq!(step.events, vec![SessionEvent::Aborted]);
    assert_eq!(receiver.phase, Phase::Aborted);
    assert_eq!(receiver.done, 0);
    assert!(receiver.file.is_empty());
}

#[test]
fn progress_never_goes_back_and_ends_at_total() {
    let mut sender = Session::sender(100).unwrap();
    let events = events_of(&mut sender, vec![
        Input::Welcome("5-north-south".to_string()),
        Input::PeerConnected,
        Input::Progress(30),
        Input::Progress(20),
        Input::Progress(30),
        Input::Progress(70),
        Input::Progress(500),
        Input::Sent,
    ]);
    let progress: Vec<(u64, u64)> = events
        .iter()
        .filter_map(|e| match e {
            SessionEvent::Progress(d, t) => Some((*d, *t)),
            _ => None,
        })
        .collect();
    assert_eq!(progress, vec![(30, 100), (70, 100), (100, 100), (100, 100)]);
    let n = events.len();
    assert_eq!(events[n - 1], SessionEvent::Completed);
    assert_eq!(events[n - 2], SessionEvent::Progress(100, 100));
}

#[test]
fn one_terminal_event_per_session() {
    let mut sender = Session::sender(5).unwrap();
    let events = events_of(&mut sender, vec![
        Input::Cancel,
        Input::Cancel,
        Input::Fault(Fault::Io),
        Input::Welcome("5-north-south".to_string()),
    ]);
    assert_eq!(events, vec![SessionEvent::Aborted]);
    assert_eq!(sender.phase, Phase::Aborted);
}

#[test]
fn received_size_must_match_the_offer() {
    let mut receiver = Session::receiver("3-apple-banana").unwrap();
    let events = events_of(&mut receiver, vec![
        Input::PeerConnected,
        Input::Offer("data.bin".to_string(), 5),
        Input::Decision(true),
        Input::Received(vec![1, 2, 3]),
    ]);
    assert_eq!(events.last(), Some(&SessionEvent::Failed(FailReason::SizeMismatch)));
    assert!(receiver.file.is_empty());
}

#[test]
fn rejected_offer_aborts() {
    let mut receiver = Session::receiver("3-apple-banana").unwrap();
    receiver.step(Input::PeerConnected);
    receiver.step(Input::Offer("data.bin".to_string(), 5));
    let step = receiver.step(Input::Decision(false));
    assert_eq!(step.action, Action::Reject);
    assert_eq!(step.events, vec![SessionEvent::Aborted]);
}

#[test]
fn broker_is_retried_once() {
    let mut sender = Session::sender(5).unwrap();
    let first = sender.step(Input::Fault(Fault::ServerIo));
    assert_eq!(first.action, Action::Reconnect);
    assert!(first.events.is_empty());
    let second = sender.step(Input::Fault(Fault::ServerIo));
    assert_eq!(second.events, vec![SessionEvent::Failed(FailReason::BrokerUnreachable)]);
}

#[test]
fn broker_code_that_is_not_a_code_fails() {
    let mut sender = Session::sender(5).unwrap();
    let step = sender.step(Input::Welcome("nonsense".to_string()));
    assert_eq!(step.events, vec![SessionEvent::Failed(FailReason::MalformedCode)]);
}

#[test]
fn inputs_out_of_phase_change_nothing() {
    let mut sender = Session::sender(5).unwrap();
    let step = sender.step(Input::Progress(3));
    assert_eq!(step.action, Action::Wait);
    assert!(step.events.is_empty());
    assert_eq!(sender.step(Input::Offer("x".to_string(), 1)).action, Action::Wait);
    assert_eq!(sender.phase, Phase::Connecting);
    assert_eq!(sender.done, 0);
}

#[test]
fn inputs_are_checked_before_any_connection() {
    assert_eq!(Session::sender(0).unwrap_err(), InputError::EmptyFile);
    assert_eq!(Session::receiver("7").unwrap_err(), InputError::MalformedCode);
}

#[test]
fn faults_map_to_reasons() {
    assert_eq!(reason_of(Fault::ServerRefused), FailReason::NameplateUnavailable);
    assert_eq!(reason_of(Fault::Nonce), FailReason::IntegrityViolation);
    assert_eq!(reason_of(Fault::Checksum), FailReason::IntegrityViolation);
    assert_eq!(reason_of(Fault::FileSize), FailReason::SizeMismatch);
    assert_eq!(reason_of(Fault::TransitProtocol), FailReason::NoCommonTransport);
    assert_eq!(reason_of(Fault::TransitHandshake), FailReason::NegotiationTimeout);
    assert_eq!(reason_of(Fault::Protocol), FailReason::ProtocolError);
    assert_eq!(reason_of(Fault::NoOffer), FailReason::NoOffer);
    assert_eq!(reason_of(Fault::NameplateUnclaimed), FailReason::NameplateUnavailable);
    assert_eq!(reason_of(Fault::CodeRefused), FailReason::MalformedCode);
}
