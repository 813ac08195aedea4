//! Typed messages of the newer message set.
use vstd::prelude::*;
use crate::shape::{
    Shape, all_fit_flat, distinct, flatten, known_only, lemma_distinct_by_code, lemma_find_field,
    lemma_flat_fits, lemma_last_named_known, lemma_push_slot_flat, shape_tag, slots_tagged,
    text_child,
};
use crate::text::{
    copy_text, format_i64, int_text, lemma_int_text_reads_back, text_view,
};
use crate::tree::{Element, eval_node_contents, last_child_named, last_named, text_i64};

verus! {

/// The container engine of a host.
#[derive(Clone, Copy, Debug, PartialEq, Eq, Structural)]
pub enum DockerType {
    Docker,
    Podman,
}

/// The request for the host's description; it has no fields.
#[derive(Clone, Copy, Debug, Default, PartialEq, Eq, Structural)]
pub struct GetHostInfo {}

impl GetHostInfo {
    /// The request element, `<get_host_info/>`.
    pub fn to_element(&self) -> (r: Element)
        ensures
            r.name@ == "get_host_info"@,
            r.text is None,
            r.cdata is None,
            r.children@.len() == 0,
    {
        Element::new("get_host_info")
    }
}

/// The version exchange message. Every field is optional: an absent element leaves it unknown.
#[derive(Clone, Debug, PartialEq)]
pub struct ExchangeVersions {
    pub major: Option<i64>,
    pub minor: Option<i64>,
    pub release: Option<i64>,
    pub name: Option<String>,
}

/// The fields of a `ExchangeVersions` as mathematical values.
pub struct ExchangeVersionsView {
    pub major: Option<i64>,
    pub minor: Option<i64>,
    pub release: Option<i64>,
    pub name: Option<Seq<char>>,
}

impl View for ExchangeVersions {
    type V = ExchangeVersionsView;

    open spec fn view(&self) -> ExchangeVersionsView {
        ExchangeVersionsView {
            major: self.major,
            minor: self.minor,
            release: self.release,
            name: text_view(self.name),
        }
    }
}

/// The `ExchangeVersions` that children `cs` decode to: each field from the last
/// child with its tag; unknown tags are ignored.
pub open spec fn exchange_versions_of(cs: Seq<Element>) -> ExchangeVersionsView {
    ExchangeVersionsView {
        major: match last_named(cs, "major"@) { Some(c) => text_i64(c), None => None },
        minor: match last_named(cs, "minor"@) { Some(c) => text_i64(c), None => None },
        release: match last_named(cs, "release"@) { Some(c) => text_i64(c), None => None },
        name: match last_named(cs, "name"@) { Some(c) => text_view(c.text), None => None },
    }
}

/// The tag of field `k` of a `ExchangeVersions`.
pub open spec fn exchange_versions_tag(k: int) -> Seq<char> {
    if k == 0 {
        "major"@
    } else if k == 1 {
        "minor"@
    } else if k == 2 {
        "release"@
    } else if k == 3 {
        "name"@
    } else {
        Seq::empty()
    }
}

/// The tags of the fields of a `ExchangeVersions`, in field order.
pub open spec fn exchange_versions_tags() -> Seq<Seq<char>> {
    Seq::new(4, |k: int| exchange_versions_tag(k))
}

/// The shape of field `k` of an encoded `ExchangeVersions`; none when it is absent.
pub open spec fn exchange_versions_slot(v: ExchangeVersionsView, k: int) -> Option<Shape> {
    if k == 0 {
        match v.major { Some(x) => Some(Shape::Text("major"@, int_text(x as int))), None => None }
    } else if k == 1 {
        match v.minor { Some(x) => Some(Shape::Text("minor"@, int_text(x as int))), None => None }
    } else if k == 2 {
        match v.release { Some(x) => Some(Shape::Text("release"@, int_text(x as int))), None => None }
    } else if k == 3 {
        match v.name { Some(x) => Some(Shape::Text("name"@, x)), None => None }
    } else {
        None
    }
}

/// The shapes of the fields of an encoded `ExchangeVersions`, in field order.
pub open spec fn exchange_versions_slots(v: ExchangeVersionsView) -> Seq<Option<Shape>> {
    Seq::new(4, |k: int| exchange_versions_slot(v, k))
}

/// Whether encoding `v` keeps all it holds: trimmed texts are trimmed
/// and presence flags are set.
pub open spec fn exchange_versions_valid(v: ExchangeVersionsView) -> bool {
    true
}

/// The place of a tag among the fields of a `ExchangeVersions`.
spec fn exchange_versions_tag_code(s: Seq<char>) -> int {
    if s == "major"@ {
        0
    } else if s == "minor"@ {
        1
    } else if s == "release"@ {
        2
    } else if s == "name"@ {
        3
    } else {
        -1
    }
}

proof fn lemma_exchange_versions_tags_distinct()
    ensures
        distinct(exchange_versions_tags()),
{
    reveal_strlit("major");
    reveal_strlit("minor");
    reveal_strlit("name");
    reveal_strlit("release");
    let tags = exchange_versions_tags();
    // One case per field; tags of equal length differ at the character given.
    assert forall|i: int| 0 <= i < tags.len() implies exchange_versions_tag_code(#[trigger] tags[i]) == i by {
        if i == 0 {
            assert(tags[i] == "major"@);
        } else if i == 1 {
            assert(tags[i] == "minor"@);
            assert("minor"@[1] != "major"@[1]);
        } else if i == 2 {
            assert(tags[i] == "release"@);
        } else if i == 3 {
            assert(tags[i] == "name"@);
        }
    }
    lemma_distinct_by_code(tags, |s: Seq<char>| exchange_versions_tag_code(s));
}

proof fn lemma_exchange_versions_slots_tagged(v: ExchangeVersionsView)
    ensures
        slots_tagged(exchange_versions_slots(v), exchange_versions_tags()),
{
    let slots = exchange_versions_slots(v);
    let tags = exchange_versions_tags();
    // One case per field, so that each slot and tag is evaluated.
    assert forall|k: int| 0 <= k < slots.len() && #[trigger] slots[k] is Some implies shape_tag(slots[k]->0) == tags[k] by {
        if k == 0 {
        } else if k == 1 {
        } else if k == 2 {
        } else if k == 3 {
        }
    }
}

/// Decoding the encoding of a `ExchangeVersions` gives it back: children in the
/// shape of its fields decode to it, field for field.
pub proof fn lemma_exchange_versions_round_trip(v: ExchangeVersionsView, cs: Seq<Element>)
    requires
        exchange_versions_valid(v),
        all_fit_flat(cs, flatten(exchange_versions_slots(v))),
    ensures
        exchange_versions_of(cs) == v,
{
    lemma_flat_fits(cs, flatten(exchange_versions_slots(v)));
    lemma_exchange_versions_tags_distinct();
    lemma_exchange_versions_slots_tagged(v);
    let slots = exchange_versions_slots(v);
    let tags = exchange_versions_tags();
    lemma_find_field(cs, slots, tags, 0);
    if let Some(x) = v.major { lemma_int_text_reads_back(x as int); }
    lemma_find_field(cs, slots, tags, 1);
    if let Some(x) = v.minor { lemma_int_text_reads_back(x as int); }
    lemma_find_field(cs, slots, tags, 2);
    if let Some(x) = v.release { lemma_int_text_reads_back(x as int); }
    lemma_find_field(cs, slots, tags, 3);
}

/// Whatever children decode to, it is a valid `ExchangeVersions`.
pub proof fn lemma_exchange_versions_decoded_valid(cs: Seq<Element>)
    ensures
        exchange_versions_valid(exchange_versions_of(cs)),
{
}

/// Encoding a decoded `ExchangeVersions` keeps what the tree said: children in the
/// shape of the decoded record decode to that same record.
pub proof fn lemma_exchange_versions_reencode(cs: Seq<Element>, encoded: Seq<Element>)
    requires
        all_fit_flat(encoded, flatten(exchange_versions_slots(exchange_versions_of(cs)))),
    ensures
        exchange_versions_of(encoded) == exchange_versions_of(cs),
{
    lemma_exchange_versions_decoded_valid(cs);
    lemma_exchange_versions_round_trip(exchange_versions_of(cs), encoded);
}

/// Decoding ignores children whose tags a `ExchangeVersions` does not hold: children
/// that, once those are left out, are in the shape of `v`'s fields decode
/// to `v`, wherever the unknown children stand.
pub proof fn lemma_exchange_versions_round_trip_among_unknown(v: ExchangeVersionsView, cs: Seq<Element>)
    requires
        exchange_versions_valid(v),
        all_fit_flat(known_only(cs, exchange_versions_tags()), flatten(exchange_versions_slots(v))),
    ensures
        exchange_versions_of(cs) == v,
{
    let tags = exchange_versions_tags();
    lemma_exchange_versions_round_trip(v, known_only(cs, tags));
    lemma_last_named_known(cs, tags, 0);
    assert(tags[0] == "major"@);
    lemma_last_named_known(cs, tags, 1);
    assert(tags[1] == "minor"@);
    lemma_last_named_known(cs, tags, 2);
    assert(tags[2] == "release"@);
    lemma_last_named_known(cs, tags, 3);
    assert(tags[3] == "name"@);
}

impl ExchangeVersions {
    /// Decodes the children of `node`: each field from the last child
    /// with its tag, absent when there is none or its text does not read.
    pub fn from_element(node: &Element) -> (r: ExchangeVersions)
        ensures
            r@ == exchange_versions_of(node.children@),
    {
        ExchangeVersions {
            major: match last_child_named(node, "major") { Some(c) => eval_node_contents(c), None => None },
            minor: match last_child_named(node, "minor") { Some(c) => eval_node_contents(c), None => None },
            release: match last_child_named(node, "release") { Some(c) => eval_node_contents(c), None => None },
            name: match last_child_named(node, "name") { Some(c) => copy_text(&c.text), None => None },
        }
    }

    /// Encodes the record as an element tagged `tag`, one child per
    /// present field in field order; absent fields are left out.
    pub fn to_element(&self, tag: &str) -> (r: Element)
        ensures
            r.name@ == tag@,
            r.text is None,
            r.cdata is None,
            all_fit_flat(r.children@, flatten(exchange_versions_slots(self@))),
    {
        let ghost slots = exchange_versions_slots(self@);
        let mut r = Element::new(tag);
        assert(slots.subrange(0, 0) =~= Seq::<Option<Shape>>::empty());
        self.encode_major(&mut r);
        self.encode_minor(&mut r);
        self.encode_release(&mut r);
        self.encode_name(&mut r);
        assert(slots.subrange(0, 4) =~= slots);
        r
    }

    /// Appends the child encoding `major`, when it is present.
    fn encode_major(&self, r: &mut Element)
        requires
            all_fit_flat(old(r).children@, flatten(exchange_versions_slots(self@).subrange(0, 0))),
        ensures
            final(r).name == old(r).name,
            final(r).text == old(r).text,
            final(r).cdata == old(r).cdata,
            all_fit_flat(final(r).children@, flatten(exchange_versions_slots(self@).subrange(0, 1))),
    {
        let c = match &self.major { Some(x) => Some(text_child("major", format_i64(*x))), None => None };
        proof { lemma_push_slot_flat(r.children@, exchange_versions_slots(self@), 0, c); }
        if let Some(e) = c {
            r.push(e);
        }
    }

    /// Appends the child encoding `minor`, when it is present.
    fn encode_minor(&self, r: &mut Element)
        requires
            all_fit_flat(old(r).children@, flatten(exchange_versions_slots(self@).subrange(0, 1))),
        ensures
            final(r).name == old(r).name,
            final(r).text == old(r).text,
            final(r).cdata == old(r).cdata,
            all_fit_flat(final(r).children@, flatten(exchange_versions_slots(self@).subrange(0, 2))),
    {
        let c = match &self.minor { Some(x) => Some(text_child("minor", format_i64(*x))), None => None };
        proof { lemma_push_slot_flat(r.children@, exchange_versions_slots(self@), 1, c); }
        if let Some(e) = c {
            r.push(e);
        }
    }

    /// Appends the child encoding `release`, when it is present.
    fn encode_release(&self, r: &mut Element)
        requires
            all_fit_flat(old(r).children@, flatten(exchange_versions_slots(self@).subrange(0, 2))),
        ensures
            final(r).name == old(r).name,
            final(r).text == old(r).text,
            final(r).cdata == old(r).cdata,
            all_fit_flat(final(r).children@, flatten(exchange_versions_slots(self@).subrange(0, 3))),
    {
        let c = match &self.release { Some(x) => Some(text_child("release", format_i64(*x))), None => None };
        proof { lemma_push_slot_flat(r.children@, exchange_versions_slots(self@), 2, c); }
        if let Some(e) = c {
            r.push(e);
        }
    }

    /// Appends the child encoding `name`, when it is present.
    fn encode_name(&self, r: &mut Element)
        requires
            all_fit_flat(old(r).children@, flatten(exchange_versions_slots(self@).subrange(0, 3))),
        ensures
            final(r).name == old(r).name,
            final(r).text == old(r).text,
            final(r).cdata == old(r).cdata,
            all_fit_flat(final(r).children@, flatten(exchange_versions_slots(self@).subrange(0, 4))),
    {
        let c = match &self.name { Some(x) => Some(text_child("name", x.clone())), None => None };
        proof { lemma_push_slot_flat(r.children@, exchange_versions_slots(self@), 3, c); }
        if let Some(e) = c {
            r.push(e);
        }
    }
}
impl ExchangeVersions {
    /// A version message with the given fields.
    pub fn new(major: Option<i64>, minor: Option<i64>, release: Option<i64>, name: Option<String>) -> (r: ExchangeVersions)
        ensures
            r.major == major,
            r.minor == minor,
            r.release == release,
            r.name == name,
    {
        ExchangeVersions { major, minor, release, name }
    }

}

impl Default for ExchangeVersions {
    /// The version this client announces: 8.1.0, without a name.
    fn default() -> (r: ExchangeVersions)
        ensures
            r.major == Some(8i64),
            r.minor == Some(1i64),
            r.release == Some(0i64),
            r.name is None,
    {
        ExchangeVersions { major: Some(8), minor: Some(1), release: Some(0), name: None }
    }
}

} // verus!
