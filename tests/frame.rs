use boinc_rpc::errors::Error;
use boinc_rpc::frame::{frame_request, reply_children, request_envelope, FrameReader, DELIMITER};
use boinc_rpc::models::VersionInfo;
use boinc_rpc::reply::{find_object, verify_rpc_reply_contents};
use boinc_rpc::tree::Element;

fn from_xml(e: treexml::Element) -> Element {
    Element {
        name: e.name,
        text: e.text,
        cdata: e.cdata,
        children: e.children.into_iter().map(from_xml).collect(),
    }
}

fn parse(frame: &[u8]) -> Vec<Element> {
    let doc = treexml::Document::parse(frame).unwrap();
    reply_children(from_xml(doc.root.unwrap()))
}

fn same(a: &Element, b: &Element) -> bool {
    a.name == b.name
        && a.text == b.text
        && a.cdata == b.cdata
        && a.children.len() == b.children.len()
        && a.children.iter().zip(b.children.iter()).all(|(x, y)| same(x, y))
}

fn read_in_chunks(bytes: &[u8], cuts: &[usize]) -> Option<Vec<u8>> {
    let mut reader = FrameReader::new();
    let mut start = 0;
    for &cut in cuts.iter().chain(std::iter::once(&bytes.len())) {
        if let Some(f) = reader.feed(&bytes[start..cut]) {
            return Some(f);
        }
        start = cut;
    }
    None
}

const VERSION_REPLY: &str = "<reply><success/><server_version><major>7</major><minor>16</minor><release>16</release></server_version></reply>";

#[test]
fn version_reply_decodes() {
    let mut bytes = VERSION_REPLY.as_bytes().to_vec();
    bytes.push(DELIMITER);
    let frame = read_in_chunks(&bytes, &[]).unwrap();
    let data = parse(&frame);
    assert_eq!(verify_rpc_reply_contents(&data), Ok(true));
    let v = VersionInfo::from_element(find_object(&data, "server_version").unwrap());
    assert_eq!(v, VersionInfo { major: Some(7), minor: Some(16), release: Some(16) });
}

#[test]
fn frame_is_independent_of_chunking() {
    let mut bytes = VERSION_REPLY.as_bytes().to_vec();
    bytes.push(DELIMITER);
    let whole = read_in_chunks(&bytes, &[]).unwrap();
    assert_eq!(whole, VERSION_REPLY.as_bytes());
    let n = bytes.len();
    for cuts in [vec![1], vec![n - 1], vec![5, 6, 7, 40], (1..n).collect::<Vec<_>>()] {
        assert_eq!(read_in_chunks(&bytes, &cuts).unwrap(), whole);
        let (x, y) = (parse(&read_in_chunks(&bytes, &cuts).unwrap()), parse(&whole));
        assert!(x.len() == y.len() && x.iter().zip(y.iter()).all(|(a, b)| same(a, b)));
    }
}

#[test]
fn bytes_after_the_delimiter_stay_pending() {
    let mut reader = FrameReader::new();
    assert_eq!(reader.feed(b"<a/>"), None);
    assert_eq!(reader.feed(b"\x03<b/>\x03"), Some(b"<a/>".to_vec()));
    assert_eq!(reader.feed(b""), Some(b"<b/>".to_vec()));
    assert_eq!(reader.feed(b""), None);
}

#[test]
fn early_close_is_a_failure() {
    let reader = FrameReader::new();
    assert!(matches!(reader.closed_early(), Error::Network(_)));
}

#[test]
fn unauthorized_reply_frame_fails() {
    for request in ["get_host_info", "get_results", "exchange_versions"] {
        let envelope = request_envelope(vec![Element::new(request)]);
        assert_eq!(envelope.children.len(), 1);
        let mut bytes = b"<reply><unauthorized/></reply>".to_vec();
        bytes.push(DELIMITER);
        let data = parse(&read_in_chunks(&bytes, &[3]).unwrap());
        assert_eq!(verify_rpc_reply_contents(&data), Err(Error::Auth(String::new())));
    }
}

#[test]
fn already_attached_reply_frame_fails() {
    let mut bytes = b"<reply><error>Already attached to project</error></reply>".to_vec();
    bytes.push(DELIMITER);
    let data = parse(&read_in_chunks(&bytes, &[10, 30]).unwrap());
    assert_eq!(
        verify_rpc_reply_contents(&data),
        Err(Error::AlreadyAttached("Already attached to project".to_string()))
    );
}

#[test]
fn request_frame_ends_with_delimiter() {
    assert_eq!(frame_request(b"<x/>".to_vec()), b"<x/>\x03".to_vec());
    let env = request_envelope(vec![Element::new("get_host_info")]);
    assert_eq!(env.name, "boinc_gui_rpc_request");
    assert_eq!(env.children[0].name, "get_host_info");
}
