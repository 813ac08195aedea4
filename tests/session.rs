use boinc_rpc::errors::Error;
use boinc_rpc::session::{auth_reply_request, Phase, Session};
use boinc_rpc::tree::Element;

#[test]
fn digest_is_md5_of_nonce_and_password() {
    let r = auth_reply_request("1700000000.5", "secret");
    assert_eq!(r.name, "auth2");
    assert_eq!(r.children.len(), 1);
    assert_eq!(r.children[0].name, "nonce_hash");
    assert_eq!(r.children[0].text, Some("69f972e9283ef3fa59c69ab48c1e4af9".to_string()));
}

#[test]
fn handshake_reaches_ready() {
    let mut s = Session::new(Some("secret".to_string()));
    assert!(s.query_gate().is_err());
    let first = s.begin().unwrap().unwrap();
    assert_eq!(first.name, "auth1");
    assert_eq!(s.phase(), Phase::AwaitingNonce);
    let second = s.on_reply(&vec![Element::with_text("nonce", "1700000000.5".to_string())]).unwrap().unwrap();
    assert_eq!(second.children[0].text, Some("69f972e9283ef3fa59c69ab48c1e4af9".to_string()));
    assert!(matches!(s.query_gate(), Err(Error::Auth(_))));
    assert!(s.on_reply(&vec![Element::new("authorized")]).unwrap().is_none());
    assert_eq!(s.phase(), Phase::Ready);
    assert_eq!(s.query_gate(), Ok(()));
}

#[test]
fn rejected_digest_fails_as_auth() {
    let mut s = Session::new(Some("wrong".to_string()));
    s.begin().unwrap();
    s.on_reply(&vec![Element::with_text("nonce", "n".to_string())]).unwrap();
    assert_eq!(s.on_reply(&vec![Element::new("unauthorized")]).err(), Some(Error::Auth(String::new())));
    assert_eq!(s.phase(), Phase::Rejected);
    assert!(matches!(s.query_gate(), Err(Error::Auth(_))));
}

#[test]
fn query_before_handshake_is_refused() {
    let mut s = Session::new(Some("secret".to_string()));
    assert!(matches!(s.query_gate(), Err(Error::Auth(_))));
    s.begin().unwrap();
    assert!(matches!(s.query_gate(), Err(Error::Auth(_))));
}

#[test]
fn missing_nonce_fails() {
    let mut s = Session::new(Some("secret".to_string()));
    s.begin().unwrap();
    assert_eq!(
        s.on_reply(&vec![Element::new("success")]).err(),
        Some(Error::DataParse("nonce not found".to_string()))
    );
    assert_eq!(s.phase(), Phase::Rejected);
}

#[test]
fn no_password_skips_handshake() {
    let mut s = Session::new(None);
    assert!(s.begin().unwrap().is_none());
    assert_eq!(s.query_gate(), Ok(()));
    s.after_query::<()>(&Err(Error::Network("reset".to_string())));
    assert_eq!(s.phase(), Phase::Broken);
    assert!(matches!(s.query_gate(), Err(Error::Network(_))));
}
