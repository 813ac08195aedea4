use boinc_rpc::errors::Error;
use boinc_rpc::reply::{account_manager_rpc_status, find_list, find_object};
use boinc_rpc::reply::verify_rpc_reply_contents as verify;
use boinc_rpc::tree::Element;

fn with_text(name: &str, text: &str) -> Element {
    Element::with_text(name, text.to_string())
}

#[test]
fn verify_rpc_reply_contents() {
    let fixture = vec![with_text("error", "Missing authenticator")];
    assert_eq!(
        boinc_rpc::reply::verify_rpc_reply_contents(&fixture).err().unwrap(),
        Error::Auth("Missing authenticator".to_string())
    );
}

#[test]
fn success_tag_gives_true() {
    let data = vec![Element::new("success"), Element::new("server_version")];
    assert_eq!(verify(&data), Ok(true));
    let data = vec![Element::new("server_version")];
    assert_eq!(verify(&data), Ok(false));
    assert_eq!(verify(&vec![]), Ok(false));
}

#[test]
fn status_carries_its_code() {
    let data = vec![Element::new("success"), with_text("status", "-102"), Element::new("x")];
    assert_eq!(verify(&data), Err(Error::Status(-102)));
}

#[test]
fn status_without_integer_gives_9999() {
    let data = vec![with_text("status", "abc")];
    assert_eq!(verify(&data), Err(Error::Status(9999)));
    let data = vec![Element::new("status")];
    assert_eq!(verify(&data), Err(Error::Status(9999)));
}

#[test]
fn earlier_error_decides_before_status() {
    let data = vec![with_text("error", "something"), with_text("status", "3")];
    assert_eq!(
        verify(&data),
        Err(Error::DataParse("something".to_string()))
    );
}

#[test]
fn unauthorized_reply_is_auth_failure() {
    let data = vec![Element::new("unauthorized")];
    assert_eq!(verify(&data), Err(Error::Auth(String::new())));
    let data = vec![Element::new("success"), Element::new("unauthorized"), Element::new("host_info")];
    assert_eq!(verify(&data), Err(Error::Auth(String::new())));
}

#[test]
fn error_texts_map_to_kinds() {
    let cases = [
        ("unauthorized", Error::Auth("unauthorized".to_string())),
        ("Missing URL", Error::InvalidURL("Missing URL".to_string())),
        (
            "Already attached to project",
            Error::AlreadyAttached("Already attached to project".to_string()),
        ),
        ("no such thing", Error::DataParse("no such thing".to_string())),
    ];
    for (text, expected) in cases {
        assert_eq!(verify(&vec![with_text("error", text)]), Err(expected));
    }
    assert_eq!(
        verify(&vec![Element::new("error")]),
        Err(Error::Daemon("Unknown error".to_string()))
    );
}

#[test]
fn success_without_object_is_not_found() {
    let data = vec![Element::new("success")];
    assert_eq!(
        find_object(&data, "server_version").err().unwrap(),
        Error::DataParse("Object not found.".to_string())
    );
}

#[test]
fn object_found_after_success() {
    let data = vec![Element::new("success"), with_text("server_version", "v")];
    let found = find_object(&data, "server_version").unwrap();
    assert_eq!(found.text, Some("v".to_string()));
}

#[test]
fn list_items_are_gathered() {
    let mut list = Element::new("msgs");
    list.push(with_text("msg", "a"));
    list.push(with_text("other", "b"));
    list.push(with_text("msg", "c"));
    let mut list2 = Element::new("msgs");
    list2.push(with_text("msg", "d"));
    let data = vec![list, Element::new("x"), list2];
    let items = find_list(&data, "msgs", "msg").unwrap();
    let texts: Vec<String> = items.iter().map(|e| e.text.clone().unwrap()).collect();
    assert_eq!(texts, vec!["a", "c", "d"]);
    assert_eq!(
        find_list(&vec![Element::new("x")], "msgs", "msg").err().unwrap(),
        Error::DataParse("Objects not found.".to_string())
    );
}

#[test]
fn account_manager_status_is_last_error_num() {
    let mut a = Element::new("acct_mgr_rpc_reply");
    a.push(with_text("error_num", "1"));
    a.push(with_text("error_num", "-4"));
    let data = vec![a];
    assert_eq!(account_manager_rpc_status(&data), Ok(-4));
    let data = vec![Element::new("acct_mgr_rpc_reply")];
    assert_eq!(
        account_manager_rpc_status(&data),
        Err(Error::DataParse("acct_mgr_rpc_reply node not found".to_string()))
    );
}
