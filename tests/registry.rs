use wormhole_session::{App, FailReason, Input, InputError, Phase, SessionEvent};

#[test]
fn sessions_get_fresh_ids() {
    let mut app = App::create();
    assert_eq!(app.start_send(10), Ok(0));
    assert_eq!(app.start_receive("9-red-green"), Ok(1));
    assert!(app.is_running(0));
    assert!(app.is_running(1));
    assert!(!app.is_running(2));
}

#[test]
fn refused_inputs_start_nothing() {
    let mut app = App::create();
    assert_eq!(app.start_send(0), Err(InputError::EmptyFile));
    assert_eq!(app.start_receive("red-green"), Err(InputError::MalformedCode));
    assert!(!app.is_running(0));
    assert_eq!(app.start_send(1), Ok(0));
}

#[test]
fn unknown_session_ignores_input() {
    let mut app = App::create();
    assert!(app.update(3, Input::Cancel).is_none());
}

#[test]
fn ended_session_leaves_the_registry() {
    let mut app = App::create();
    let id = app.start_receive("9-red-green").unwrap();
    app.update(id, Input::PeerConnected).unwrap();
    app.update(id, Input::Offer("a.txt".to_string(), 2)).unwrap();
    app.update(id, Input::Decision(true)).unwrap();
    let u = app.update(id, Input::Received(vec![7, 8])).unwrap();
    assert_eq!(u.step.events.last(), Some(&SessionEvent::Completed));
    let ended = u.ended.unwrap();
    assert_eq!(ended.phase, Phase::Completed);
    assert_eq!(ended.file, vec![7, 8]);
    assert!(!app.is_running(id));
    assert!(app.update(id, Input::Cancel).is_none());
    assert_eq!(app.start_send(3), Ok(1));
}

#[test]
fn running_session_stays() {
    let mut app = App::create();
    let id = app.start_send(4).unwrap();
    let u = app.update(id, Input::Welcome("1-up-down".to_string())).unwrap();
    assert!(u.ended.is_none());
    assert!(app.is_running(id));
    let u = app.update(id, Input::Fault(wormhole_session::Fault::PakeFailed)).unwrap();
    assert_eq!(u.step.events, vec![SessionEvent::Failed(FailReason::AuthenticationFailed)]);
    assert!(!app.is_running(id));
}
