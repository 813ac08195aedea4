//! The requests that the client's operations send.
use vstd::prelude::*;
use crate::models::{Component, RunMode, VersionInfo, version_info_slots};
use crate::shape::{all_fit_flat, flatten, is_text_child, text_child};
use crate::text::{format_i64, int_text, text_view};
use crate::tree::Element;

verus! {

/// A client over a transport that runs one request at a time.
pub struct Client<S> {
    pub transport: S,
}

impl<S> Client<S> {
    /// A client that sends its requests through `transport`.
    pub fn new(transport: S) -> (r: Client<S>)
        ensures
            r.transport == transport,
    {
        Client { transport }
    }
}

/// A request that is only a tag, such as `get_host_info`.
pub fn tag_request(tag: &str) -> (r: Element)
    ensures
        r.name@ == tag@,
        r.text is None,
        r.cdata is None,
        r.children@.len() == 0,
{
    Element::new(tag)
}

/// The request for the messages after sequence number `seqno`.
pub fn get_messages_request(seqno: i64) -> (r: Element)
    ensures
        r.name@ == "get_messages"@,
        text_view(r.text) == Some(int_text(seqno as int)),
        r.cdata is None,
        r.children@.len() == 0,
{
    Element::with_text("get_messages", format_i64(seqno))
}

/// The request for the task list, of the active tasks only when asked.
pub fn get_results_request(active_only: bool) -> (r: Element)
    ensures
        r.name@ == "get_results"@,
        r.text is None,
        r.cdata is None,
        active_only ==> r.children@.len() == 1 && is_text_child(
            r.children@[0],
            "active_only"@,
            "1"@,
        ),
        !active_only ==> r.children@.len() == 0,
{
    let mut r = Element::new("get_results");
    if active_only {
        r.push(text_child("active_only", String::from_str("1")));
    }
    r
}

/// The version exchange request: the client's version, its absent fields
/// left out.
pub fn exchange_versions_request(info: &VersionInfo) -> (r: Element)
    ensures
        r.name@ == "exchange_versions"@,
        r.text is None,
        r.cdata is None,
        all_fit_flat(r.children@, flatten(version_info_slots(info@))),
{
    info.to_element("exchange_versions")
}

/// The tag of the request that sets a component's run mode.
pub open spec fn set_mode_tag(c: Component) -> Seq<char> {
    match c {
        Component::CPU => "set_run_mode"@,
        Component::GPU => "set_gpu_mode"@,
        Component::Network => "set_network_mode"@,
    }
}

/// The tag that names a run mode.
pub open spec fn run_mode_tag(m: RunMode) -> Seq<char> {
    match m {
        RunMode::Always => "always"@,
        RunMode::Auto => "auto"@,
        RunMode::Never => "never"@,
        RunMode::Restore => "restore"@,
    }
}

/// The request that sets component `c` to mode `m` for `duration`, the
/// duration given as its decimal text.
pub fn set_mode_request(c: Component, m: RunMode, duration: String) -> (r: Element)
    ensures
        r.name@ == set_mode_tag(c),
        r.text is None,
        r.cdata is None,
        r.children@.len() == 2,
        is_text_child(r.children@[0], "duration"@, duration@),
        r.children@[1].name@ == run_mode_tag(m),
        r.children@[1].text is None,
        r.children@[1].cdata is None,
        r.children@[1].children@.len() == 0,
{
    let tag = match c {
        Component::CPU => "set_run_mode",
        Component::GPU => "set_gpu_mode",
        Component::Network => "set_network_mode",
    };
    let mode = match m {
        RunMode::Always => "always",
        RunMode::Auto => "auto",
        RunMode::Never => "never",
        RunMode::Restore => "restore",
    };
    let mut r = Element::new(tag);
    r.push(text_child("duration", duration));
    r.push(Element::new(mode));
    r
}

/// The request that sets the daemon's language.
pub fn set_language_request(language: &str) -> (r: Element)
    ensures
        r.name@ == "set_language"@,
        r.text is None,
        r.cdata is None,
        r.children@.len() == 1,
        is_text_child(r.children@[0], "language"@, language@),
{
    let mut r = Element::new("set_language");
    r.push(text_child("language", language.to_owned()));
    r
}

/// The request that attaches the daemon to an account manager.
pub fn account_manager_request(url: &str, name: &str, password: &str) -> (r: Element)
    ensures
        r.name@ == "acct_mgr_rpc"@,
        r.text is None,
        r.cdata is None,
        r.children@.len() == 3,
        is_text_child(r.children@[0], "url"@, url@),
        is_text_child(r.children@[1], "name"@, name@),
        is_text_child(r.children@[2], "password"@, password@),
{
    let mut r = Element::new("acct_mgr_rpc");
    r.push(text_child("url", url.to_owned()));
    r.push(text_child("name", name.to_owned()));
    r.push(text_child("password", password.to_owned()));
    r
}

} // verus!
