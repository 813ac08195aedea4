use boinc_rpc::errors::Error;
use boinc_rpc::transport::{on_call, on_poll_ready, on_progress, on_query_done, ConnState, Progress, Readiness, Step};

#[test]
fn connecting_hands_out_the_handshake() {
    let (state, step) = on_poll_ready::<u8, u16>(Some(ConnState::Connecting(5)));
    assert!(state.is_none());
    assert!(matches!(step, Step::Advance(5)));
    let (state, r) = on_progress::<u8, u16>(Progress::Pending(5));
    assert!(matches!(state, Some(ConnState::Connecting(5))));
    assert!(matches!(r, Readiness::Pending));
    let (state, r) = on_progress::<u8, u16>(Progress::Done(9));
    assert!(matches!(state, Some(ConnState::Ready(9))));
    assert!(matches!(r, Readiness::Ready));
}

#[test]
fn failure_is_sticky() {
    let (state, r) = on_progress::<u8, u16>(Progress::Failed(Error::Auth(String::new())));
    assert!(matches!(r, Readiness::Failed(Error::Auth(_))));
    let mut state = state;
    for _ in 0..3 {
        let (s, step) = on_poll_ready::<u8, u16>(state);
        assert!(matches!(step, Step::Report(Readiness::Failed(Error::Auth(_)))));
        state = s;
    }
    let (s, r) = on_call::<u8, u16>(state);
    assert!(matches!(s, Some(ConnState::Error(Error::Auth(_)))));
    assert!(matches!(r, Err(Error::Null(_))));
}

#[test]
fn query_returns_or_poisons_session() {
    let (s, r) = on_call::<u8, u16>(Some(ConnState::Ready(4)));
    assert!(s.is_none());
    let session = r.unwrap();
    let ok: Result<(), Error> = Ok(());
    assert!(matches!(on_query_done::<u8, u16, ()>(session, &ok), Some(ConnState::Ready(4))));
    let bad: Result<(), Error> = Err(Error::Network("closed".to_string()));
    assert!(matches!(on_query_done::<u8, u16, ()>(session, &bad), Some(ConnState::Error(Error::Network(_)))));
    let (_, step) = on_poll_ready::<u8, u16>(None);
    assert!(matches!(step, Step::Report(Readiness::Failed(Error::Null(_)))));
}
