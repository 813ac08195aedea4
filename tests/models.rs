use quick_xml::events::{BytesEnd, BytesStart, BytesText, Event};
use boinc_rpc::client::{exchange_versions_request, get_messages_request, get_results_request, set_mode_request};
use boinc_rpc::messages::{ExchangeVersions, GetHostInfo};
use boinc_rpc::models::{AccountManagerInfo, ActiveTask, Component, HostInfo, Message, ProjectInfo, RunMode, TaskResult, VersionInfo};
use boinc_rpc::tree::Element;

fn from_xml(e: treexml::Element) -> Element {
    Element {
        name: e.name,
        text: e.text,
        cdata: e.cdata,
        children: e.children.into_iter().map(from_xml).collect(),
    }
}

fn to_xml(e: &Element) -> treexml::Element {
    let mut x = treexml::Element::new(e.name.clone());
    x.text = e.text.clone();
    x.cdata = e.cdata.clone();
    x.children = e.children.iter().map(to_xml).collect();
    x
}

fn parse(s: &str) -> Element {
    from_xml(treexml::Document::parse(s.as_bytes()).unwrap().root.unwrap())
}

fn write_quick(w: &mut quick_xml::Writer<Vec<u8>>, e: &Element) {
    if e.children.is_empty() && e.text.is_none() && e.cdata.is_none() {
        w.write_event(Event::Empty(BytesStart::new(e.name.as_str()))).unwrap();
        return;
    }
    w.write_event(Event::Start(BytesStart::new(e.name.as_str()))).unwrap();
    if let Some(t) = &e.text {
        w.write_event(Event::Text(BytesText::new(t))).unwrap();
    }
    for c in &e.children {
        write_quick(w, c);
    }
    w.write_event(Event::End(BytesEnd::new(e.name.as_str()))).unwrap();
}

fn quick_text(e: &Element) -> String {
    let mut w = quick_xml::Writer::new(Vec::new());
    write_quick(&mut w, e);
    String::from_utf8(w.into_inner()).unwrap()
}

fn unparse(e: &Element) -> String {
    let doc = treexml::Document { root: Some(to_xml(e)), ..treexml::Document::default() };
    let mut out = Vec::new();
    doc.write_with(&mut out, false, "", false).unwrap();
    String::from_utf8(out).unwrap()
}

#[test]
fn exchange_versions_test_unparse() {
    let expected = r#"<exchange_versions><major>7</major><minor>16</minor><release>16</release><name>BOINC</name></exchange_versions>"#;

    let version = ExchangeVersions::new(Some(7), Some(16), Some(16), Some("BOINC".to_string()));

    let result = unparse(&version.to_element("exchange_versions"));

    assert_eq!(expected, result);
}

#[test]
fn exchange_versions_test_parse() {
    let expected = ExchangeVersions {
        major: Some(7),
        minor: Some(16),
        release: Some(16),
        name: Some("BOINC".to_string()),
    };

    let xml = r#"<?xml version="1.0"?>
        <exchange_versions>
            <major>7</major>
            <minor>16</minor>
            <release>16</release>
            <name>BOINC</name>
        </exchange_versions>"#;

    let result = ExchangeVersions::from_element(&parse(xml));

    assert_eq!(expected, result);
}

#[test]
fn test_parse_no_name() {
    let expected = ExchangeVersions::new(Some(7), Some(16), Some(16), None);

    let xml = r#"<?xml version="1.0"?>
        <exchange_versions>
            <major>7</major>
            <minor>16</minor>
            <release>16</release>
        </exchange_versions>"#;

    let result = ExchangeVersions::from_element(&parse(xml));

    assert_eq!(expected, result);
}

#[test]
fn test_serialize_get_host_info() {
    let expected = r#"<get_host_info/>"#;

    let result = quick_text(&GetHostInfo {}.to_element());

    assert_eq!(expected, result);
}

#[test]
fn exchange_versions_default_is_announced_version() {
    let v = ExchangeVersions::default();
    assert_eq!(v, ExchangeVersions::new(Some(8), Some(1), Some(0), None));
}

#[test]
fn absent_fields_are_omitted() {
    let v = VersionInfo { major: Some(7), minor: None, release: Some(-2) };
    let e = exchange_versions_request(&v);
    assert_eq!(unparse(&e), "<exchange_versions><major>7</major><release>-2</release></exchange_versions>");
    assert_eq!(VersionInfo::from_element(&e), v);
}

#[test]
fn project_round_trip() {
    let p = ProjectInfo {
        name: Some("Rosetta".to_string()),
        summary: None,
        url: Some("https://example.org/".to_string()),
        general_area: Some("Biology".to_string()),
        specific_area: None,
        description: Some("Protein folding".to_string()),
        home: None,
        platforms: Some(vec!["x86_64-pc-linux-gnu".to_string(), "windows_x86_64".to_string()]),
        image: None,
    };
    let e = p.to_element("project");
    assert_eq!(ProjectInfo::from_element(&e), p);
}

#[test]
fn project_decoding_trims_and_prefers_raw_text() {
    let e = parse("<project><name> Einstein </name><summary><![CDATA[ raw ]]></summary><platfroms><platform>a</platform><other>x</other><platform>b</platform></platfroms><unknown>1</unknown></project>");
    let p = ProjectInfo::from_element(&e);
    assert_eq!(p.name, Some("Einstein".to_string()));
    assert_eq!(p.summary, Some("raw".to_string()));
    assert_eq!(p.platforms, Some(vec!["a".to_string(), "b".to_string()]));
    assert_eq!(p.url, None);
}

#[test]
fn task_with_active_task_round_trip() {
    let t = TaskResult {
        name: Some("wu_1_0".to_string()),
        version_num: Some(716),
        final_cpu_time: Some("12.5".to_string()),
        state: Some(2),
        active_task: Some(ActiveTask {
            slot: Some(3),
            pid: Some(4242),
            fraction_done: Some("0.25".to_string()),
            scheduler_state: Some("2".to_string()),
            ..Default::default()
        }),
        ..Default::default()
    };
    let e = t.to_element("result");
    let back = TaskResult::from_element(&e);
    assert_eq!(back, t);
    assert_eq!(back.active_task.unwrap().pid, Some(4242));
}

#[test]
fn messages_and_account_manager_decode() {
    let e = parse("<msg><project> P </project><pri>1</pri><seqno>17</seqno><body><![CDATA[ hello ]]></body><time>1700000000</time></msg>");
    let m = Message::from_element(&e);
    assert_eq!(m.project_name, Some("P".to_string()));
    assert_eq!(m.priority, Some(1));
    assert_eq!(m.msg_number, Some(17));
    assert_eq!(m.body, Some("hello".to_string()));
    assert_eq!(m.timestamp, Some(1700000000));
    let e = parse("<acct_mgr_info><acct_mgr_url>u</acct_mgr_url><have_credentials/></acct_mgr_info>");
    let a = AccountManagerInfo::from_element(&e);
    assert_eq!(a.url, Some("u".to_string()));
    assert_eq!(a.have_credentials, Some(true));
    assert_eq!(a.cookie_required, None);
}

#[test]
fn host_info_decodes_known_tags() {
    let e = parse("<host_info><timezone>7</timezone><p_ncpus>8</p_ncpus><p_fpops>1.5e9</p_fpops><p_vm_extensions_disabled>true</p_vm_extensions_disabled><serialnum>s</serialnum><os_name>Linux</os_name></host_info>");
    let h = HostInfo::from_element(&e);
    assert_eq!(h.tz_shift, Some(7));
    assert_eq!(h.p_ncpus, Some(8));
    assert_eq!(h.p_fpops, Some("1.5e9".to_string()));
    assert_eq!(h.p_vm_extensions_disabled, Some(true));
    assert_eq!(h.serialnum, Some("s".to_string()));
    assert_eq!(h.os_name, Some("Linux".to_string()));
    let again = HostInfo::from_element(&h.to_element("host_info"));
    assert_eq!(again, h);
}

#[test]
fn host_serial_number_round_trip() {
    let h = HostInfo {
        serialnum: Some("[BOINC|8.0.2]".to_string()),
        domain_name: Some("node1".to_string()),
        p_ncpus: Some(16),
        ..Default::default()
    };
    assert_eq!(HostInfo::from_element(&h.to_element("host_info")), h);
    let e = parse("<host_info><serialnum>a</serialnum><serialnum>b</serialnum></host_info>");
    assert_eq!(HostInfo::from_element(&e).serialnum, Some("b".to_string()));
}

#[test]
fn round_trip_among_unknown_tags() {
    let v = VersionInfo { major: Some(7), minor: Some(16), release: None };
    let mut e = Element::new("server_version");
    e.push(Element::new("prerelease"));
    for c in v.to_element("x").children {
        e.push(c);
        e.push(Element::with_text("build", "42".to_string()));
    }
    assert_eq!(VersionInfo::from_element(&e), v);
}

#[test]
fn request_builders() {
    assert_eq!(unparse(&get_messages_request(12)), "<get_messages>12</get_messages>");
    assert_eq!(unparse(&get_results_request(true)), "<get_results><active_only>1</active_only></get_results>");
    let e = set_mode_request(Component::GPU, RunMode::Never, "3600".to_string());
    assert_eq!(e.name, "set_gpu_mode");
    assert_eq!(e.children[0].text, Some("3600".to_string()));
    assert_eq!(e.children[1].name, "never");
}
