//! The records that replies carry, each with its decoding from and its
//! encoding to the element tree.
use vstd::prelude::*;
use crate::shape::{
    Shape, all_fit, all_fit_flat, distinct, flatten, is_text_child, lemma_distinct_by_code,
    known_only, lemma_find_field, lemma_flat_fits, lemma_last_named_known, lemma_push_slot,
    lemma_push_slot_flat, list_child, raw_child,
    shape_tag, slots_tagged, text_child, texts_view,
};
use crate::text::{
    bool_text, copy_text, format_bool, format_i64, format_u64, int_text, is_trimmed,
    lemma_bool_text_reads_back, lemma_int_text_reads_back, lemma_trimmed, text_view,
    trimmed, trimmed_optional,
};
use crate::tree::{
    Element, any_text, any_text_of, eval_node_bool, eval_node_contents, eval_node_u64, has_name,
    last_child_named, last_named, lemma_later_sibling_wins, text_bool, text_i64, text_u64,
};

verus! {

/// A processing unit whose run mode can be set.
#[derive(Clone, Copy, Debug, PartialEq, Eq, Structural)]
pub enum Component {
    CPU,
    GPU,
    Network,
}

/// When a component may run.
#[derive(Clone, Copy, Debug, PartialEq, Eq, Structural)]
pub enum RunMode {
    Always,
    Auto,
    Never,
    Restore,
}

/// The scheduler's view of a task.
#[derive(Clone, Copy, Debug, PartialEq, Eq, Structural)]
pub enum CpuSched {
    Uninitialized,
    Preempted,
    Scheduled,
}

/// Where a task stands in its life.
#[derive(Clone, Copy, Debug, PartialEq, Eq, Structural)]
pub enum ResultState {
    New,
    FilesDownloading,
    FilesDownloaded,
    ComputeError,
    FilesUploading,
    FilesUploaded,
    Aborted,
    UploadFailed,
}

/// The state of a task's process.
#[derive(Clone, Copy, Debug, PartialEq, Eq, Structural)]
pub enum Process {
    Uninitialized,
    Executing,
    Suspended,
    AbortPending,
    QuitPending,
    CopyPending,
}

impl Process {
    /// The number the daemon uses for this state.
    pub fn code(&self) -> (r: i32)
        ensures
            r == match self {
                Process::Uninitialized => 0i32,
                Process::Executing => 1,
                Process::Suspended => 9,
                Process::AbortPending => 5,
                Process::QuitPending => 8,
                Process::CopyPending => 10,
            },
    {
        match self {
            Process::Uninitialized => 0,
            Process::Executing => 1,
            Process::Suspended => 9,
            Process::AbortPending => 5,
            Process::QuitPending => 8,
            Process::CopyPending => 10,
        }
    }
}

/// An optional text with its white space trimmed.
pub open spec fn trim_opt(o: Option<Seq<char>>) -> Option<Seq<char>> {
    match o {
        Some(s) => Some(trimmed(s)),
        None => None,
    }
}

/// The texts of the `platform` elements among `cs` that have text, in order.
pub open spec fn platform_texts(cs: Seq<Element>) -> Seq<Seq<char>>
    decreases cs.len(),
{
    if cs.len() == 0 {
        Seq::empty()
    } else {
        let c = cs.last();
        if c.name@ == "platform"@ && c.text is Some {
            platform_texts(cs.drop_last()).push(c.text->0@)
        } else {
            platform_texts(cs.drop_last())
        }
    }
}

proof fn lemma_platform_texts(cs: Seq<Element>, ts: Seq<Seq<char>>)
    requires
        cs.len() == ts.len(),
        forall|i: int| 0 <= i < ts.len() ==> is_text_child(#[trigger] cs[i], "platform"@, ts[i]),
    ensures
        platform_texts(cs) == ts,
    decreases cs.len(),
{
    if cs.len() > 0 {
        let n = cs.len() - 1;
        assert(is_text_child(cs[n], "platform"@, ts[n]));
        lemma_platform_texts(cs.drop_last(), ts.drop_last());
        assert(ts.drop_last().push(ts[n]) =~= ts);
    }
}

/// Of sibling elements that repeat a tag a record holds once, the later one
/// decides: a version whose children hold `major` twice takes the second.
pub proof fn lemma_later_major_wins(before: Seq<Element>, b: Element, after: Seq<Element>)
    requires
        b.name@ == "major"@,
        forall|i: int| 0 <= i < after.len() ==> (#[trigger] after[i]).name@ != "major"@,
    ensures
        version_info_of(before + seq![b] + after).major == text_i64(b),
{
    lemma_later_sibling_wins(before, b, after);
}

fn platform_texts_of(node: &Element) -> (r: Vec<String>)
    ensures
        texts_view(r@) == platform_texts(node.children@),
{
    let mut r: Vec<String> = Vec::new();
    let mut i: usize = 0;
    while i < node.children.len()
        invariant
            i <= node.children@.len(),
            texts_view(r@) == platform_texts(node.children@.subrange(0, i as int)),
        decreases node.children@.len() - i,
    {
        let ghost pre = node.children@.subrange(0, i as int);
        let ghost next = node.children@.subrange(0, i + 1);
        assert(next.drop_last() =~= pre);
        let c = &node.children[i];
        if has_name(c, "platform") {
            if let Some(t) = &c.text {
                let ghost before = r@;
                r.push(t.clone());
                assert(texts_view(r@) =~= texts_view(before).push(t@));
            }
        }
        i = i + 1;
    }
    assert(node.children@.subrange(0, node.children@.len() as int) =~= node.children@);
    r
}

/// A daemon or client version. Every field is optional: an absent element leaves it unknown.
#[derive(Clone, Debug, Default, PartialEq)]
pub struct VersionInfo {
    pub major: Option<i64>,
    pub minor: Option<i64>,
    pub release: Option<i64>,
}

/// The fields of a `VersionInfo` as mathematical values.
pub struct VersionInfoView {
    pub major: Option<i64>,
    pub minor: Option<i64>,
    pub release: Option<i64>,
}

impl View for VersionInfo {
    type V = VersionInfoView;

    open spec fn view(&self) -> VersionInfoView {
        VersionInfoView {
            major: self.major,
            minor: self.minor,
            release: self.release,
        }
    }
}

/// The `VersionInfo` that children `cs` decode to: each field from the last
/// child with its tag; unknown tags are ignored.
pub open spec fn version_info_of(cs: Seq<Element>) -> VersionInfoView {
    VersionInfoView {
        major: match last_named(cs, "major"@) { Some(c) => text_i64(c), None => None },
        minor: match last_named(cs, "minor"@) { Some(c) => text_i64(c), None => None },
        release: match last_named(cs, "release"@) { Some(c) => text_i64(c), None => None },
    }
}

/// The tag of field `k` of a `VersionInfo`.
pub open spec fn version_info_tag(k: int) -> Seq<char> {
    if k == 0 {
        "major"@
    } else if k == 1 {
        "minor"@
    } else if k == 2 {
        "release"@
    } else {
        Seq::empty()
    }
}

/// The tags of the fields of a `VersionInfo`, in field order.
pub open spec fn version_info_tags() -> Seq<Seq<char>> {
    Seq::new(3, |k: int| version_info_tag(k))
}

/// The shape of field `k` of an encoded `VersionInfo`; none when it is absent.
pub open spec fn version_info_slot(v: VersionInfoView, k: int) -> Option<Shape> {
    if k == 0 {
        match v.major { Some(x) => Some(Shape::Text("major"@, int_text(x as int))), None => None }
    } else if k == 1 {
        match v.minor { Some(x) => Some(Shape::Text("minor"@, int_text(x as int))), None => None }
    } else if k == 2 {
        match v.release { Some(x) => Some(Shape::Text("release"@, int_text(x as int))), None => None }
    } else {
        None
    }
}

/// The shapes of the fields of an encoded `VersionInfo`, in field order.
pub open spec fn version_info_slots(v: VersionInfoView) -> Seq<Option<Shape>> {
    Seq::new(3, |k: int| version_info_slot(v, k))
}

/// Whether encoding `v` keeps all it holds: trimmed texts are trimmed
/// and presence flags are set.
pub open spec fn version_info_valid(v: VersionInfoView) -> bool {
    true
}

/// The place of a tag among the fields of a `VersionInfo`.
spec fn version_info_tag_code(s: Seq<char>) -> int {
    if s == "major"@ {
        0
    } else if s == "minor"@ {
        1
    } else if s == "release"@ {
        2
    } else {
        -1
    }
}

proof fn lemma_version_info_tags_distinct()
    ensures
        distinct(version_info_tags()),
{
    reveal_strlit("major");
    reveal_strlit("minor");
    reveal_strlit("release");
    let tags = version_info_tags();
    // One case per field; tags of equal length differ at the character given.
    assert forall|i: int| 0 <= i < tags.len() implies version_info_tag_code(#[trigger] tags[i]) == i by {
        if i == 0 {
            assert(tags[i] == "major"@);
        } else if i == 1 {
            assert(tags[i] == "minor"@);
            assert("minor"@[1] != "major"@[1]);
        } else if i == 2 {
            assert(tags[i] == "release"@);
        }
    }
    lemma_distinct_by_code(tags, |s: Seq<char>| version_info_tag_code(s));
}

proof fn lemma_version_info_slots_tagged(v: VersionInfoView)
    ensures
        slots_tagged(version_info_slots(v), version_info_tags()),
{
    let slots = version_info_slots(v);
    let tags = version_info_tags();
    // One case per field, so that each slot and tag is evaluated.
    assert forall|k: int| 0 <= k < slots.len() && #[trigger] slots[k] is Some implies shape_tag(slots[k]->0) == tags[k] by {
        if k == 0 {
        } else if k == 1 {
        } else if k == 2 {
        }
    }
}

/// Decoding the encoding of a `VersionInfo` gives it back: children in the
/// shape of its fields decode to it, field for field.
pub proof fn lemma_version_info_round_trip(v: VersionInfoView, cs: Seq<Element>)
    requires
        version_info_valid(v),
        all_fit_flat(cs, flatten(version_info_slots(v))),
    ensures
        version_info_of(cs) == v,
{
    lemma_flat_fits(cs, flatten(version_info_slots(v)));
    lemma_version_info_tags_distinct();
    lemma_version_info_slots_tagged(v);
    let slots = version_info_slots(v);
    let tags = version_info_tags();
    lemma_find_field(cs, slots, tags, 0);
    if let Some(x) = v.major { lemma_int_text_reads_back(x as int); }
    lemma_find_field(cs, slots, tags, 1);
    if let Some(x) = v.minor { lemma_int_text_reads_back(x as int); }
    lemma_find_field(cs, slots, tags, 2);
    if let Some(x) = v.release { lemma_int_text_reads_back(x as int); }
}

/// Whatever children decode to, it is a valid `VersionInfo`.
pub proof fn lemma_version_info_decoded_valid(cs: Seq<Element>)
    ensures
        version_info_valid(version_info_of(cs)),
{
}

/// Encoding a decoded `VersionInfo` keeps what the tree said: children in the
/// shape of the decoded record decode to that same record.
pub proof fn lemma_version_info_reencode(cs: Seq<Element>, encoded: Seq<Element>)
    requires
        all_fit_flat(encoded, flatten(version_info_slots(version_info_of(cs)))),
    ensures
        version_info_of(encoded) == version_info_of(cs),
{
    lemma_version_info_decoded_valid(cs);
    lemma_version_info_round_trip(version_info_of(cs), encoded);
}

/// Decoding ignores children whose tags a `VersionInfo` does not hold: children
/// that, once those are left out, are in the shape of `v`'s fields decode
/// to `v`, wherever the unknown children stand.
pub proof fn lemma_version_info_round_trip_among_unknown(v: VersionInfoView, cs: Seq<Element>)
    requires
        version_info_valid(v),
        all_fit_flat(known_only(cs, version_info_tags()), flatten(version_info_slots(v))),
    ensures
        version_info_of(cs) == v,
{
    let tags = version_info_tags();
    lemma_version_info_round_trip(v, known_only(cs, tags));
    lemma_last_named_known(cs, tags, 0);
    assert(tags[0] == "major"@);
    lemma_last_named_known(cs, tags, 1);
    assert(tags[1] == "minor"@);
    lemma_last_named_known(cs, tags, 2);
    assert(tags[2] == "release"@);
}

impl VersionInfo {
    /// Decodes the children of `node`: each field from the last child
    /// with its tag, absent when there is none or its text does not read.
    pub fn from_element(node: &Element) -> (r: VersionInfo)
        ensures
            r@ == version_info_of(node.children@),
    {
        VersionInfo {
            major: match last_child_named(node, "major") { Some(c) => eval_node_contents(c), None => None },
            minor: match last_child_named(node, "minor") { Some(c) => eval_node_contents(c), None => None },
            release: match last_child_named(node, "release") { Some(c) => eval_node_contents(c), None => None },
        }
    }

    /// Encodes the record as an element tagged `tag`, one child per
    /// present field in field order; absent fields are left out.
    pub fn to_element(&self, tag: &str) -> (r: Element)
        ensures
            r.name@ == tag@,
            r.text is None,
            r.cdata is None,
            all_fit_flat(r.children@, flatten(version_info_slots(self@))),
    {
        let ghost slots = version_info_slots(self@);
        let mut r = Element::new(tag);
        assert(slots.subrange(0, 0) =~= Seq::<Option<Shape>>::empty());
        self.encode_major(&mut r);
        self.encode_minor(&mut r);
        self.encode_release(&mut r);
        assert(slots.subrange(0, 3) =~= slots);
        r
    }

    /// Appends the child encoding `major`, when it is present.
    fn encode_major(&self, r: &mut Element)
        requires
            all_fit_flat(old(r).children@, flatten(version_info_slots(self@).subrange(0, 0))),
        ensures
            final(r).name == old(r).name,
            final(r).text == old(r).text,
            final(r).cdata == old(r).cdata,
            all_fit_flat(final(r).children@, flatten(version_info_slots(self@).subrange(0, 1))),
    {
        let c = match &self.major { Some(x) => Some(text_child("major", format_i64(*x))), None => None };
        proof { lemma_push_slot_flat(r.children@, version_info_slots(self@), 0, c); }
        if let Some(e) = c {
            r.push(e);
        }
    }

    /// Appends the child encoding `minor`, when it is present.
    fn encode_minor(&self, r: &mut Element)
        requires
            all_fit_flat(old(r).children@, flatten(version_info_slots(self@).subrange(0, 1))),
        ensures
            final(r).name == old(r).name,
            final(r).text == old(r).text,
            final(r).cdata == old(r).cdata,
            all_fit_flat(final(r).children@, flatten(version_info_slots(self@).subrange(0, 2))),
    {
        let c = match &self.minor { Some(x) => Some(text_child("minor", format_i64(*x))), None => None };
        proof { lemma_push_slot_flat(r.children@, version_info_slots(self@), 1, c); }
        if let Some(e) = c {
            r.push(e);
        }
    }

    /// Appends the child encoding `release`, when it is present.
    fn encode_release(&self, r: &mut Element)
        requires
            all_fit_flat(old(r).children@, flatten(version_info_slots(self@).subrange(0, 2))),
        ensures
            final(r).name == old(r).name,
            final(r).text == old(r).text,
            final(r).cdata == old(r).cdata,
            all_fit_flat(final(r).children@, flatten(version_info_slots(self@).subrange(0, 3))),
    {
        let c = match &self.release { Some(x) => Some(text_child("release", format_i64(*x))), None => None };
        proof { lemma_push_slot_flat(r.children@, version_info_slots(self@), 2, c); }
        if let Some(e) = c {
            r.push(e);
        }
    }
}

/// What the daemon reports of its host. Every field is optional: an absent element leaves it unknown.
#[derive(Clone, Debug, Default, PartialEq)]
pub struct HostInfo {
    pub tz_shift: Option<i64>,
    pub domain_name: Option<String>,
    pub serialnum: Option<String>,
    pub ip_addr: Option<String>,
    pub host_cpid: Option<String>,
    pub p_ncpus: Option<i64>,
    pub p_vendor: Option<String>,
    pub p_model: Option<String>,
    pub p_features: Option<String>,
    /// Decimal text of a floating-point quantity, as the daemon sent it.
    pub p_fpops: Option<String>,
    /// Decimal text of a floating-point quantity, as the daemon sent it.
    pub p_iops: Option<String>,
    /// Decimal text of a floating-point quantity, as the daemon sent it.
    pub p_membw: Option<String>,
    /// Decimal text of a floating-point quantity, as the daemon sent it.
    pub p_calculated: Option<String>,
    pub p_vm_extensions_disabled: Option<bool>,
    /// Decimal text of a floating-point quantity, as the daemon sent it.
    pub m_nbytes: Option<String>,
    /// Decimal text of a floating-point quantity, as the daemon sent it.
    pub m_cache: Option<String>,
    /// Decimal text of a floating-point quantity, as the daemon sent it.
    pub m_swap: Option<String>,
    /// Decimal text of a floating-point quantity, as the daemon sent it.
    pub d_total: Option<String>,
    /// Decimal text of a floating-point quantity, as the daemon sent it.
    pub d_free: Option<String>,
    pub os_name: Option<String>,
    pub os_version: Option<String>,
    pub product_name: Option<String>,
    pub mac_address: Option<String>,
    pub virtualbox_version: Option<String>,
}

/// The fields of a `HostInfo` as mathematical values.
pub struct HostInfoView {
    pub tz_shift: Option<i64>,
    pub domain_name: Option<Seq<char>>,
    pub serialnum: Option<Seq<char>>,
    pub ip_addr: Option<Seq<char>>,
    pub host_cpid: Option<Seq<char>>,
    pub p_ncpus: Option<i64>,
    pub p_vendor: Option<Seq<char>>,
    pub p_model: Option<Seq<char>>,
    pub p_features: Option<Seq<char>>,
    pub p_fpops: Option<Seq<char>>,
    pub p_iops: Option<Seq<char>>,
    pub p_membw: Option<Seq<char>>,
    pub p_calculated: Option<Seq<char>>,
    pub p_vm_extensions_disabled: Option<bool>,
    pub m_nbytes: Option<Seq<char>>,
    pub m_cache: Option<Seq<char>>,
    pub m_swap: Option<Seq<char>>,
    pub d_total: Option<Seq<char>>,
    pub d_free: Option<Seq<char>>,
    pub os_name: Option<Seq<char>>,
    pub os_version: Option<Seq<char>>,
    pub product_name: Option<Seq<char>>,
    pub mac_address: Option<Seq<char>>,
    pub virtualbox_version: Option<Seq<char>>,
}

impl View for HostInfo {
    type V = HostInfoView;

    open spec fn view(&self) -> HostInfoView {
        HostInfoView {
            tz_shift: self.tz_shift,
            domain_name: text_view(self.domain_name),
            serialnum: text_view(self.serialnum),
            ip_addr: text_view(self.ip_addr),
            host_cpid: text_view(self.host_cpid),
            p_ncpus: self.p_ncpus,
            p_vendor: text_view(self.p_vendor),
            p_model: text_view(self.p_model),
            p_features: text_view(self.p_features),
            p_fpops: text_view(self.p_fpops),
            p_iops: text_view(self.p_iops),
            p_membw: text_view(self.p_membw),
            p_calculated: text_view(self.p_calculated),
            p_vm_extensions_disabled: self.p_vm_extensions_disabled,
            m_nbytes: text_view(self.m_nbytes),
            m_cache: text_view(self.m_cache),
            m_swap: text_view(self.m_swap),
            d_total: text_view(self.d_total),
            d_free: text_view(self.d_free),
            os_name: text_view(self.os_name),
            os_version: text_view(self.os_version),
            product_name: text_view(self.product_name),
            mac_address: text_view(self.mac_address),
            virtualbox_version: text_view(self.virtualbox_version),
        }
    }
}

/// The `HostInfo` that children `cs` decode to: each field from the last
/// child with its tag; unknown tags are ignored.
pub open spec fn host_info_of(cs: Seq<Element>) -> HostInfoView {
    HostInfoView {
        tz_shift: match last_named(cs, "timezone"@) { Some(c) => text_i64(c), None => None },
        domain_name: match last_named(cs, "domain_name"@) { Some(c) => text_view(c.text), None => None },
        serialnum: match last_named(cs, "serialnum"@) { Some(c) => text_view(c.text), None => None },
        ip_addr: match last_named(cs, "ip_addr"@) { Some(c) => text_view(c.text), None => None },
        host_cpid: match last_named(cs, "host_cpid"@) { Some(c) => text_view(c.text), None => None },
        p_ncpus: match last_named(cs, "p_ncpus"@) { Some(c) => text_i64(c), None => None },
        p_vendor: match last_named(cs, "p_vendor"@) { Some(c) => text_view(c.text), None => None },
        p_model: match last_named(cs, "p_model"@) { Some(c) => text_view(c.text), None => None },
        p_features: match last_named(cs, "p_features"@) { Some(c) => text_view(c.text), None => None },
        p_fpops: match last_named(cs, "p_fpops"@) { Some(c) => text_view(c.text), None => None },
        p_iops: match last_named(cs, "p_iops"@) { Some(c) => text_view(c.text), None => None },
        p_membw: match last_named(cs, "p_membw"@) { Some(c) => text_view(c.text), None => None },
        p_calculated: match last_named(cs, "p_calculated"@) { Some(c) => text_view(c.text), None => None },
        p_vm_extensions_disabled: match last_named(cs, "p_vm_extensions_disabled"@) { Some(c) => text_bool(c), None => None },
        m_nbytes: match last_named(cs, "m_nbytes"@) { Some(c) => text_view(c.text), None => None },
        m_cache: match last_named(cs, "m_cache"@) { Some(c) => text_view(c.text), None => None },
        m_swap: match last_named(cs, "m_swap"@) { Some(c) => text_view(c.text), None => None },
        d_total: match last_named(cs, "d_total"@) { Some(c) => text_view(c.text), None => None },
        d_free: match last_named(cs, "d_free"@) { Some(c) => text_view(c.text), None => None },
        os_name: match last_named(cs, "os_name"@) { Some(c) => text_view(c.text), None => None },
        os_version: match last_named(cs, "os_version"@) { Some(c) => text_view(c.text), None => None },
        product_name: match last_named(cs, "product_name"@) { Some(c) => text_view(c.text), None => None },
        mac_address: match last_named(cs, "mac_address"@) { Some(c) => text_view(c.text), None => None },
        virtualbox_version: match last_named(cs, "virtualbox_version"@) { Some(c) => text_view(c.text), None => None },
    }
}

/// The tag of field `k` of a `HostInfo`.
pub open spec fn host_info_tag(k: int) -> Seq<char> {
    if k == 0 {
        "timezone"@
    } else if k == 1 {
        "domain_name"@
    } else if k == 2 {
        "serialnum"@
    } else if k == 3 {
        "ip_addr"@
    } else if k == 4 {
        "host_cpid"@
    } else if k == 5 {
        "p_ncpus"@
    } else if k == 6 {
        "p_vendor"@
    } else if k == 7 {
        "p_model"@
    } else if k == 8 {
        "p_features"@
    } else if k == 9 {
        "p_fpops"@
    } else if k == 10 {
        "p_iops"@
    } else if k == 11 {
        "p_membw"@
    } else if k == 12 {
        "p_calculated"@
    } else if k == 13 {
        "p_vm_extensions_disabled"@
    } else if k == 14 {
        "m_nbytes"@
    } else if k == 15 {
        "m_cache"@
    } else if k == 16 {
        "m_swap"@
    } else if k == 17 {
        "d_total"@
    } else if k == 18 {
        "d_free"@
    } else if k == 19 {
        "os_name"@
    } else if k == 20 {
        "os_version"@
    } else if k == 21 {
        "product_name"@
    } else if k == 22 {
        "mac_address"@
    } else if k == 23 {
        "virtualbox_version"@
    } else {
        Seq::empty()
    }
}

/// The tags of the fields of a `HostInfo`, in field order.
pub open spec fn host_info_tags() -> Seq<Seq<char>> {
    Seq::new(24, |k: int| host_info_tag(k))
}

/// The shape of field `k` of an encoded `HostInfo`; none when it is absent.
pub open spec fn host_info_slot(v: HostInfoView, k: int) -> Option<Shape> {
    if k == 0 {
        match v.tz_shift { Some(x) => Some(Shape::Text("timezone"@, int_text(x as int))), None => None }
    } else if k == 1 {
        match v.domain_name { Some(x) => Some(Shape::Text("domain_name"@, x)), None => None }
    } else if k == 2 {
        match v.serialnum { Some(x) => Some(Shape::Text("serialnum"@, x)), None => None }
    } else if k == 3 {
        match v.ip_addr { Some(x) => Some(Shape::Text("ip_addr"@, x)), None => None }
    } else if k == 4 {
        match v.host_cpid { Some(x) => Some(Shape::Text("host_cpid"@, x)), None => None }
    } else if k == 5 {
        match v.p_ncpus { Some(x) => Some(Shape::Text("p_ncpus"@, int_text(x as int))), None => None }
    } else if k == 6 {
        match v.p_vendor { Some(x) => Some(Shape::Text("p_vendor"@, x)), None => None }
    } else if k == 7 {
        match v.p_model { Some(x) => Some(Shape::Text("p_model"@, x)), None => None }
    } else if k == 8 {
        match v.p_features { Some(x) => Some(Shape::Text("p_features"@, x)), None => None }
    } else if k == 9 {
        match v.p_fpops { Some(x) => Some(Shape::Text("p_fpops"@, x)), None => None }
    } else if k == 10 {
        match v.p_iops { Some(x) => Some(Shape::Text("p_iops"@, x)), None => None }
    } else if k == 11 {
        match v.p_membw { Some(x) => Some(Shape::Text("p_membw"@, x)), None => None }
    } else if k == 12 {
        match v.p_calculated { Some(x) => Some(Shape::Text("p_calculated"@, x)), None => None }
    } else if k == 13 {
        match v.p_vm_extensions_disabled { Some(x) => Some(Shape::Text("p_vm_extensions_disabled"@, bool_text(x))), None => None }
    } else if k == 14 {
        match v.m_nbytes { Some(x) => Some(Shape::Text("m_nbytes"@, x)), None => None }
    } else if k == 15 {
        match v.m_cache { Some(x) => Some(Shape::Text("m_cache"@, x)), None => None }
    } else if k == 16 {
        match v.m_swap { Some(x) => Some(Shape::Text("m_swap"@, x)), None => None }
    } else if k == 17 {
        match v.d_total { Some(x) => Some(Shape::Text("d_total"@, x)), None => None }
    } else if k == 18 {
        match v.d_free { Some(x) => Some(Shape::Text("d_free"@, x)), None => None }
    } else if k == 19 {
        match v.os_name { Some(x) => Some(Shape::Text("os_name"@, x)), None => None }
    } else if k == 20 {
        match v.os_version { Some(x) => Some(Shape::Text("os_version"@, x)), None => None }
    } else if k == 21 {
        match v.product_name { Some(x) => Some(Shape::Text("product_name"@, x)), None => None }
    } else if k == 22 {
        match v.mac_address { Some(x) => Some(Shape::Text("mac_address"@, x)), None => None }
    } else if k == 23 {
        match v.virtualbox_version { Some(x) => Some(Shape::Text("virtualbox_version"@, x)), None => None }
    } else {
        None
    }
}

/// The shapes of the fields of an encoded `HostInfo`, in field order.
pub open spec fn host_info_slots(v: HostInfoView) -> Seq<Option<Shape>> {
    Seq::new(24, |k: int| host_info_slot(v, k))
}

/// Whether encoding `v` keeps all it holds: trimmed texts are trimmed
/// and presence flags are set.
pub open spec fn host_info_valid(v: HostInfoView) -> bool {
    true
}

/// The place of a tag among the fields of a `HostInfo`.
spec fn host_info_tag_code(s: Seq<char>) -> int {
    if s == "timezone"@ {
        0
    } else if s == "domain_name"@ {
        1
    } else if s == "serialnum"@ {
        2
    } else if s == "ip_addr"@ {
        3
    } else if s == "host_cpid"@ {
        4
    } else if s == "p_ncpus"@ {
        5
    } else if s == "p_vendor"@ {
        6
    } else if s == "p_model"@ {
        7
    } else if s == "p_features"@ {
        8
    } else if s == "p_fpops"@ {
        9
    } else if s == "p_iops"@ {
        10
    } else if s == "p_membw"@ {
        11
    } else if s == "p_calculated"@ {
        12
    } else if s == "p_vm_extensions_disabled"@ {
        13
    } else if s == "m_nbytes"@ {
        14
    } else if s == "m_cache"@ {
        15
    } else if s == "m_swap"@ {
        16
    } else if s == "d_total"@ {
        17
    } else if s == "d_free"@ {
        18
    } else if s == "os_name"@ {
        19
    } else if s == "os_version"@ {
        20
    } else if s == "product_name"@ {
        21
    } else if s == "mac_address"@ {
        22
    } else if s == "virtualbox_version"@ {
        23
    } else {
        -1
    }
}

proof fn lemma_host_info_tags_distinct()
    ensures
        distinct(host_info_tags()),
{
    reveal_strlit("d_free");
    reveal_strlit("d_total");
    reveal_strlit("domain_name");
    reveal_strlit("host_cpid");
    reveal_strlit("ip_addr");
    reveal_strlit("m_cache");
    reveal_strlit("m_nbytes");
    reveal_strlit("m_swap");
    reveal_strlit("mac_address");
    reveal_strlit("os_name");
    reveal_strlit("os_version");
    reveal_strlit("p_calculated");
    reveal_strlit("p_features");
    reveal_strlit("p_fpops");
    reveal_strlit("p_iops");
    reveal_strlit("p_membw");
    reveal_strlit("p_model");
    reveal_strlit("p_ncpus");
    reveal_strlit("p_vendor");
    reveal_strlit("p_vm_extensions_disabled");
    reveal_strlit("product_name");
    reveal_strlit("serialnum");
    reveal_strlit("timezone");
    reveal_strlit("virtualbox_version");
    let tags = host_info_tags();
    // One case per field; tags of equal length differ at the character given.
    assert forall|i: int| 0 <= i < tags.len() implies host_info_tag_code(#[trigger] tags[i]) == i by {
        if i == 0 {
            assert(tags[i] == "timezone"@);
        } else if i == 1 {
            assert(tags[i] == "domain_name"@);
        } else if i == 2 {
            assert(tags[i] == "serialnum"@);
        } else if i == 3 {
            assert(tags[i] == "ip_addr"@);
        } else if i == 4 {
            assert(tags[i] == "host_cpid"@);
            assert("host_cpid"@[0] != "serialnum"@[0]);
        } else if i == 5 {
            assert(tags[i] == "p_ncpus"@);
            assert("p_ncpus"@[0] != "ip_addr"@[0]);
        } else if i == 6 {
            assert(tags[i] == "p_vendor"@);
            assert("p_vendor"@[0] != "timezone"@[0]);
        } else if i == 7 {
            assert(tags[i] == "p_model"@);
            assert("p_model"@[0] != "ip_addr"@[0]);
            assert("p_model"@[2] != "p_ncpus"@[2]);
        } else if i == 8 {
            assert(tags[i] == "p_features"@);
        } else if i == 9 {
            assert(tags[i] == "p_fpops"@);
            assert("p_fpops"@[0] != "ip_addr"@[0]);
            assert("p_fpops"@[2] != "p_ncpus"@[2]);
            assert("p_fpops"@[2] != "p_model"@[2]);
        } else if i == 10 {
            assert(tags[i] == "p_iops"@);
        } else if i == 11 {
            assert(tags[i] == "p_membw"@);
            assert("p_membw"@[0] != "ip_addr"@[0]);
            assert("p_membw"@[2] != "p_ncpus"@[2]);
            assert("p_membw"@[3] != "p_model"@[3]);
            assert("p_membw"@[2] != "p_fpops"@[2]);
        } else if i == 12 {
            assert(tags[i] == "p_calculated"@);
        } else if i == 13 {
            assert(tags[i] == "p_vm_extensions_disabled"@);
        } else if i == 14 {
            assert(tags[i] == "m_nbytes"@);
            assert("m_nbytes"@[0] != "timezone"@[0]);
            assert("m_nbytes"@[0] != "p_vendor"@[0]);
        } else if i == 15 {
            assert(tags[i] == "m_cache"@);
            assert("m_cache"@[0] != "ip_addr"@[0]);
            assert("m_cache"@[0] != "p_ncpus"@[0]);
            assert("m_cache"@[0] != "p_model"@[0]);
            assert("m_cache"@[0] != "p_fpops"@[0]);
            assert("m_cache"@[0] != "p_membw"@[0]);
        } else if i == 16 {
            assert(tags[i] == "m_swap"@);
            assert("m_swap"@[0] != "p_iops"@[0]);
        } else if i == 17 {
            assert(tags[i] == "d_total"@);
            assert("d_total"@[0] != "ip_addr"@[0]);
            assert("d_total"@[0] != "p_ncpus"@[0]);
            assert("d_total"@[0] != "p_model"@[0]);
            assert("d_total"@[0] != "p_fpops"@[0]);
            assert("d_total"@[0] != "p_membw"@[0]);
            assert("d_total"@[0] != "m_cache"@[0]);
        } else if i == 18 {
            assert(tags[i] == "d_free"@);
            assert("d_free"@[0] != "p_iops"@[0]);
            assert("d_free"@[0] != "m_swap"@[0]);
        } else if i == 19 {
            assert(tags[i] == "os_name"@);
            assert("os_name"@[0] != "ip_addr"@[0]);
            assert("os_name"@[0] != "p_ncpus"@[0]);
            assert("os_name"@[0] != "p_model"@[0]);
            assert("os_name"@[0] != "p_fpops"@[0]);
            assert("os_name"@[0] != "p_membw"@[0]);
            assert("os_name"@[0] != "m_cache"@[0]);
            assert("os_name"@[0] != "d_total"@[0]);
        } else if i == 20 {
            assert(tags[i] == "os_version"@);
            assert("os_version"@[0] != "p_features"@[0]);
        } else if i == 21 {
            assert(tags[i] == "product_name"@);
            assert("product_name"@[1] != "p_calculated"@[1]);
        } else if i == 22 {
            assert(tags[i] == "mac_address"@);
            assert("mac_address"@[0] != "domain_name"@[0]);
        } else if i == 23 {
            assert(tags[i] == "virtualbox_version"@);
        }
    }
    lemma_distinct_by_code(tags, |s: Seq<char>| host_info_tag_code(s));
}

proof fn lemma_host_info_slots_tagged(v: HostInfoView)
    ensures
        slots_tagged(host_info_slots(v), host_info_tags()),
{
    let slots = host_info_slots(v);
    let tags = host_info_tags();
    // One case per field, so that each slot and tag is evaluated.
    assert forall|k: int| 0 <= k < slots.len() && #[trigger] slots[k] is Some implies shape_tag(slots[k]->0) == tags[k] by {
        if k == 0 {
        } else if k == 1 {
        } else if k == 2 {
        } else if k == 3 {
        } else if k == 4 {
        } else if k == 5 {
        } else if k == 6 {
        } else if k == 7 {
        } else if k == 8 {
        } else if k == 9 {
        } else if k == 10 {
        } else if k == 11 {
        } else if k == 12 {
        } else if k == 13 {
        } else if k == 14 {
        } else if k == 15 {
        } else if k == 16 {
        } else if k == 17 {
        } else if k == 18 {
        } else if k == 19 {
        } else if k == 20 {
        } else if k == 21 {
        } else if k == 22 {
        } else if k == 23 {
        }
    }
}

/// Decoding the encoding of a `HostInfo` gives it back: children in the
/// shape of its fields decode to it, field for field.
pub proof fn lemma_host_info_round_trip(v: HostInfoView, cs: Seq<Element>)
    requires
        host_info_valid(v),
        all_fit_flat(cs, flatten(host_info_slots(v))),
    ensures
        host_info_of(cs) == v,
{
    lemma_flat_fits(cs, flatten(host_info_slots(v)));
    lemma_host_info_tags_distinct();
    lemma_host_info_slots_tagged(v);
    let slots = host_info_slots(v);
    let tags = host_info_tags();
    lemma_find_field(cs, slots, tags, 0);
    if let Some(x) = v.tz_shift { lemma_int_text_reads_back(x as int); }
    lemma_find_field(cs, slots, tags, 1);
    lemma_find_field(cs, slots, tags, 2);
    lemma_find_field(cs, slots, tags, 3);
    lemma_find_field(cs, slots, tags, 4);
    lemma_find_field(cs, slots, tags, 5);
    if let Some(x) = v.p_ncpus { lemma_int_text_reads_back(x as int); }
    lemma_find_field(cs, slots, tags, 6);
    lemma_find_field(cs, slots, tags, 7);
    lemma_find_field(cs, slots, tags, 8);
    lemma_find_field(cs, slots, tags, 9);
    lemma_find_field(cs, slots, tags, 10);
    lemma_find_field(cs, slots, tags, 11);
    lemma_find_field(cs, slots, tags, 12);
    lemma_find_field(cs, slots, tags, 13);
    if let Some(x) = v.p_vm_extensions_disabled { lemma_bool_text_reads_back(x); }
    lemma_find_field(cs, slots, tags, 14);
    lemma_find_field(cs, slots, tags, 15);
    lemma_find_field(cs, slots, tags, 16);
    lemma_find_field(cs, slots, tags, 17);
    lemma_find_field(cs, slots, tags, 18);
    lemma_find_field(cs, slots, tags, 19);
    lemma_find_field(cs, slots, tags, 20);
    lemma_find_field(cs, slots, tags, 21);
    lemma_find_field(cs, slots, tags, 22);
    lemma_find_field(cs, slots, tags, 23);
}

/// Whatever children decode to, it is a valid `HostInfo`.
pub proof fn lemma_host_info_decoded_valid(cs: Seq<Element>)
    ensures
        host_info_valid(host_info_of(cs)),
{
}

/// Encoding a decoded `HostInfo` keeps what the tree said: children in the
/// shape of the decoded record decode to that same record.
pub proof fn lemma_host_info_reencode(cs: Seq<Element>, encoded: Seq<Element>)
    requires
        all_fit_flat(encoded, flatten(host_info_slots(host_info_of(cs)))),
    ensures
        host_info_of(encoded) == host_info_of(cs),
{
    lemma_host_info_decoded_valid(cs);
    lemma_host_info_round_trip(host_info_of(cs), encoded);
}

/// Decoding ignores children whose tags a `HostInfo` does not hold: children
/// that, once those are left out, are in the shape of `v`'s fields decode
/// to `v`, wherever the unknown children stand.
pub proof fn lemma_host_info_round_trip_among_unknown(v: HostInfoView, cs: Seq<Element>)
    requires
        host_info_valid(v),
        all_fit_flat(known_only(cs, host_info_tags()), flatten(host_info_slots(v))),
    ensures
        host_info_of(cs) == v,
{
    let tags = host_info_tags();
    lemma_host_info_round_trip(v, known_only(cs, tags));
    lemma_last_named_known(cs, tags, 0);
    assert(tags[0] == "timezone"@);
    lemma_last_named_known(cs, tags, 1);
    assert(tags[1] == "domain_name"@);
    lemma_last_named_known(cs, tags, 2);
    assert(tags[2] == "serialnum"@);
    lemma_last_named_known(cs, tags, 3);
    assert(tags[3] == "ip_addr"@);
    lemma_last_named_known(cs, tags, 4);
    assert(tags[4] == "host_cpid"@);
    lemma_last_named_known(cs, tags, 5);
    assert(tags[5] == "p_ncpus"@);
    lemma_last_named_known(cs, tags, 6);
    assert(tags[6] == "p_vendor"@);
    lemma_last_named_known(cs, tags, 7);
    assert(tags[7] == "p_model"@);
    lemma_last_named_known(cs, tags, 8);
    assert(tags[8] == "p_features"@);
    lemma_last_named_known(cs, tags, 9);
    assert(tags[9] == "p_fpops"@);
    lemma_last_named_known(cs, tags, 10);
    assert(tags[10] == "p_iops"@);
    lemma_last_named_known(cs, tags, 11);
    assert(tags[11] == "p_membw"@);
    lemma_last_named_known(cs, tags, 12);
    assert(tags[12] == "p_calculated"@);
    lemma_last_named_known(cs, tags, 13);
    assert(tags[13] == "p_vm_extensions_disabled"@);
    lemma_last_named_known(cs, tags, 14);
    assert(tags[14] == "m_nbytes"@);
    lemma_last_named_known(cs, tags, 15);
    assert(tags[15] == "m_cache"@);
    lemma_last_named_known(cs, tags, 16);
    assert(tags[16] == "m_swap"@);
    lemma_last_named_known(cs, tags, 17);
    assert(tags[17] == "d_total"@);
    lemma_last_named_known(cs, tags, 18);
    assert(tags[18] == "d_free"@);
    lemma_last_named_known(cs, tags, 19);
    assert(tags[19] == "os_name"@);
    lemma_last_named_known(cs, tags, 20);
    assert(tags[20] == "os_version"@);
    lemma_last_named_known(cs, tags, 21);
    assert(tags[21] == "product_name"@);
    lemma_last_named_known(cs, tags, 22);
    assert(tags[22] == "mac_address"@);
    lemma_last_named_known(cs, tags, 23);
    assert(tags[23] == "virtualbox_version"@);
}

impl HostInfo {
    /// Decodes the children of `node`: each field from the last child
    /// with its tag, absent when there is none or its text does not read.
    pub fn from_element(node: &Element) -> (r: HostInfo)
        ensures
            r@ == host_info_of(node.children@),
    {
        HostInfo {
            tz_shift: match last_child_named(node, "timezone") { Some(c) => eval_node_contents(c), None => None },
            domain_name: match last_child_named(node, "domain_name") { Some(c) => copy_text(&c.text), None => None },
            serialnum: match last_child_named(node, "serialnum") { Some(c) => copy_text(&c.text), None => None },
            ip_addr: match last_child_named(node, "ip_addr") { Some(c) => copy_text(&c.text), None => None },
            host_cpid: match last_child_named(node, "host_cpid") { Some(c) => copy_text(&c.text), None => None },
            p_ncpus: match last_child_named(node, "p_ncpus") { Some(c) => eval_node_contents(c), None => None },
            p_vendor: match last_child_named(node, "p_vendor") { Some(c) => copy_text(&c.text), None => None },
            p_model: match last_child_named(node, "p_model") { Some(c) => copy_text(&c.text), None => None },
            p_features: match last_child_named(node, "p_features") { Some(c) => copy_text(&c.text), None => None },
            p_fpops: match last_child_named(node, "p_fpops") { Some(c) => copy_text(&c.text), None => None },
            p_iops: match last_child_named(node, "p_iops") { Some(c) => copy_text(&c.text), None => None },
            p_membw: match last_child_named(node, "p_membw") { Some(c) => copy_text(&c.text), None => None },
            p_calculated: match last_child_named(node, "p_calculated") { Some(c) => copy_text(&c.text), None => None },
            p_vm_extensions_disabled: match last_child_named(node, "p_vm_extensions_disabled") { Some(c) => eval_node_bool(c), None => None },
            m_nbytes: match last_child_named(node, "m_nbytes") { Some(c) => copy_text(&c.text), None => None },
            m_cache: match last_child_named(node, "m_cache") { Some(c) => copy_text(&c.text), None => None },
            m_swap: match last_child_named(node, "m_swap") { Some(c) => copy_text(&c.text), None => None },
            d_total: match last_child_named(node, "d_total") { Some(c) => copy_text(&c.text), None => None },
            d_free: match last_child_named(node, "d_free") { Some(c) => copy_text(&c.text), None => None },
            os_name: match last_child_named(node, "os_name") { Some(c) => copy_text(&c.text), None => None },
            os_version: match last_child_named(node, "os_version") { Some(c) => copy_text(&c.text), None => None },
            product_name: match last_child_named(node, "product_name") { Some(c) => copy_text(&c.text), None => None },
            mac_address: match last_child_named(node, "mac_address") { Some(c) => copy_text(&c.text), None => None },
            virtualbox_version: match last_child_named(node, "virtualbox_version") { Some(c) => copy_text(&c.text), None => None },
        }
    }

    /// Encodes the record as an element tagged `tag`, one child per
    /// present field in field order; absent fields are left out.
    pub fn to_element(&self, tag: &str) -> (r: Element)
        ensures
            r.name@ == tag@,
            r.text is None,
            r.cdata is None,
            all_fit_flat(r.children@, flatten(host_info_slots(self@))),
    {
        let ghost slots = host_info_slots(self@);
        let mut r = Element::new(tag);
        assert(slots.subrange(0, 0) =~= Seq::<Option<Shape>>::empty());
        self.encode_tz_shift(&mut r);
        self.encode_domain_name(&mut r);
        self.encode_serialnum(&mut r);
        self.encode_ip_addr(&mut r);
        self.encode_host_cpid(&mut r);
        self.encode_p_ncpus(&mut r);
        self.encode_p_vendor(&mut r);
        self.encode_p_model(&mut r);
        self.encode_p_features(&mut r);
        self.encode_p_fpops(&mut r);
        self.encode_p_iops(&mut r);
        self.encode_p_membw(&mut r);
        self.encode_p_calculated(&mut r);
        self.encode_p_vm_extensions_disabled(&mut r);
        self.encode_m_nbytes(&mut r);
        self.encode_m_cache(&mut r);
        self.encode_m_swap(&mut r);
        self.encode_d_total(&mut r);
        self.encode_d_free(&mut r);
        self.encode_os_name(&mut r);
        self.encode_os_version(&mut r);
        self.encode_product_name(&mut r);
        self.encode_mac_address(&mut r);
        self.encode_virtualbox_version(&mut r);
        assert(slots.subrange(0, 24) =~= slots);
        r
    }

    /// Appends the child encoding `tz_shift`, when it is present.
    fn encode_tz_shift(&self, r: &mut Element)
        requires
            all_fit_flat(old(r).children@, flatten(host_info_slots(self@).subrange(0, 0))),
        ensures
            final(r).name == old(r).name,
            final(r).text == old(r).text,
            final(r).cdata == old(r).cdata,
            all_fit_flat(final(r).children@, flatten(host_info_slots(self@).subrange(0, 1))),
    {
        let c = match &self.tz_shift { Some(x) => Some(text_child("timezone", format_i64(*x))), None => None };
        proof { lemma_push_slot_flat(r.children@, host_info_slots(self@), 0, c); }
        if let Some(e) = c {
            r.push(e);
        }
    }

    /// Appends the child encoding `domain_name`, when it is present.
    fn encode_domain_name(&self, r: &mut Element)
        requires
            all_fit_flat(old(r).children@, flatten(host_info_slots(self@).subrange(0, 1))),
        ensures
            final(r).name == old(r).name,
            final(r).text == old(r).text,
            final(r).cdata == old(r).cdata,
            all_fit_flat(final(r).children@, flatten(host_info_slots(self@).subrange(0, 2))),
    {
        let c = match &self.domain_name { Some(x) => Some(text_child("domain_name", x.clone())), None => None };
        proof { lemma_push_slot_flat(r.children@, host_info_slots(self@), 1, c); }
        if let Some(e) = c {
            r.push(e);
        }
    }

    /// Appends the child encoding `serialnum`, when it is present.
    fn encode_serialnum(&self, r: &mut Element)
        requires
            all_fit_flat(old(r).children@, flatten(host_info_slots(self@).subrange(0, 2))),
        ensures
            final(r).name == old(r).name,
            final(r).text == old(r).text,
            final(r).cdata == old(r).cdata,
            all_fit_flat(final(r).children@, flatten(host_info_slots(self@).subrange(0, 3))),
    {
        let c = match &self.serialnum { Some(x) => Some(text_child("serialnum", x.clone())), None => None };
        proof { lemma_push_slot_flat(r.children@, host_info_slots(self@), 2, c); }
        if let Some(e) = c {
            r.push(e);
        }
    }

    /// Appends the child encoding `ip_addr`, when it is present.
    fn encode_ip_addr(&self, r: &mut Element)
        requires
            all_fit_flat(old(r).children@, flatten(host_info_slots(self@).subrange(0, 3))),
        ensures
            final(r).name == old(r).name,
            final(r).text == old(r).text,
            final(r).cdata == old(r).cdata,
            all_fit_flat(final(r).children@, flatten(host_info_slots(self@).subrange(0, 4))),
    {
        let c = match &self.ip_addr { Some(x) => Some(text_child("ip_addr", x.clone())), None => None };
        proof { lemma_push_slot_flat(r.children@, host_info_slots(self@), 3, c); }
        if let Some(e) = c {
            r.push(e);
        }
    }

    /// Appends the child encoding `host_cpid`, when it is present.
    fn encode_host_cpid(&self, r: &mut Element)
        requires
            all_fit_flat(old(r).children@, flatten(host_info_slots(self@).subrange(0, 4))),
        ensures
            final(r).name == old(r).name,
            final(r).text == old(r).text,
            final(r).cdata == old(r).cdata,
            all_fit_flat(final(r).children@, flatten(host_info_slots(self@).subrange(0, 5))),
    {
        let c = match &self.host_cpid { Some(x) => Some(text_child("host_cpid", x.clone())), None => None };
        proof { lemma_push_slot_flat(r.children@, host_info_slots(self@), 4, c); }
        if let Some(e) = c {
            r.push(e);
        }
    }

    /// Appends the child encoding `p_ncpus`, when it is present.
    fn encode_p_ncpus(&self, r: &mut Element)
        requires
            all_fit_flat(old(r).children@, flatten(host_info_slots(self@).subrange(0, 5))),
        ensures
            final(r).name == old(r).name,
            final(r).text == old(r).text,
            final(r).cdata == old(r).cdata,
            all_fit_flat(final(r).children@, flatten(host_info_slots(self@).subrange(0, 6))),
    {
        let c = match &self.p_ncpus { Some(x) => Some(text_child("p_ncpus", format_i64(*x))), None => None };
        proof { lemma_push_slot_flat(r.children@, host_info_slots(self@), 5, c); }
        if let Some(e) = c {
            r.push(e);
        }
    }

    /// Appends the child encoding `p_vendor`, when it is present.
    fn encode_p_vendor(&self, r: &mut Element)
        requires
            all_fit_flat(old(r).children@, flatten(host_info_slots(self@).subrange(0, 6))),
        ensures
            final(r).name == old(r).name,
            final(r).text == old(r).text,
            final(r).cdata == old(r).cdata,
            all_fit_flat(final(r).children@, flatten(host_info_slots(self@).subrange(0, 7))),
    {
        let c = match &self.p_vendor { Some(x) => Some(text_child("p_vendor", x.clone())), None => None };
        proof { lemma_push_slot_flat(r.children@, host_info_slots(self@), 6, c); }
        if let Some(e) = c {
            r.push(e);
        }
    }

    /// Appends the child encoding `p_model`, when it is present.
    fn encode_p_model(&self, r: &mut Element)
        requires
            all_fit_flat(old(r).children@, flatten(host_info_slots(self@).subrange(0, 7))),
        ensures
            final(r).name == old(r).name,
            final(r).text == old(r).text,
            final(r).cdata == old(r).cdata,
            all_fit_flat(final(r).children@, flatten(host_info_slots(self@).subrange(0, 8))),
    {
        let c = match &self.p_model { Some(x) => Some(text_child("p_model", x.clone())), None => None };
        proof { lemma_push_slot_flat(r.children@, host_info_slots(self@), 7, c); }
        if let Some(e) = c {
            r.push(e);
        }
    }

    /// Appends the child encoding `p_features`, when it is present.
    fn encode_p_features(&self, r: &mut Element)
        requires
            all_fit_flat(old(r).children@, flatten(host_info_slots(self@).subrange(0, 8))),
        ensures
            final(r).name == old(r).name,
            final(r).text == old(r).text,
            final(r).cdata == old(r).cdata,
            all_fit_flat(final(r).children@, flatten(host_info_slots(self@).subrange(0, 9))),
    {
        let c = match &self.p_features { Some(x) => Some(text_child("p_features", x.clone())), None => None };
        proof { lemma_push_slot_flat(r.children@, host_info_slots(self@), 8, c); }
        if let Some(e) = c {
            r.push(e);
        }
    }

    /// Appends the child encoding `p_fpops`, when it is present.
    fn encode_p_fpops(&self, r: &mut Element)
        requires
            all_fit_flat(old(r).children@, flatten(host_info_slots(self@).subrange(0, 9))),
        ensures
            final(r).name == old(r).name,
            final(r).text == old(r).text,
            final(r).cdata == old(r).cdata,
            all_fit_flat(final(r).children@, flatten(host_info_slots(self@).subrange(0, 10))),
    {
        let c = match &self.p_fpops { Some(x) => Some(text_child("p_fpops", x.clone())), None => None };
        proof { lemma_push_slot_flat(r.children@, host_info_slots(self@), 9, c); }
        if let Some(e) = c {
            r.push(e);
        }
    }

    /// Appends the child encoding `p_iops`, when it is present.
    fn encode_p_iops(&self, r: &mut Element)
        requires
            all_fit_flat(old(r).children@, flatten(host_info_slots(self@).subrange(0, 10))),
        ensures
            final(r).name == old(r).name,
            final(r).text == old(r).text,
            final(r).cdata == old(r).cdata,
            all_fit_flat(final(r).children@, flatten(host_info_slots(self@).subrange(0, 11))),
    {
        let c = match &self.p_iops { Some(x) => Some(text_child("p_iops", x.clone())), None => None };
        proof { lemma_push_slot_flat(r.children@, host_info_slots(self@), 10, c); }
        if let Some(e) = c {
            r.push(e);
        }
    }

    /// Appends the child encoding `p_membw`, when it is present.
    fn encode_p_membw(&self, r: &mut Element)
        requires
            all_fit_flat(old(r).children@, flatten(host_info_slots(self@).subrange(0, 11))),
        ensures
            final(r).name == old(r).name,
            final(r).text == old(r).text,
            final(r).cdata == old(r).cdata,
            all_fit_flat(final(r).children@, flatten(host_info_slots(self@).subrange(0, 12))),
    {
        let c = match &self.p_membw { Some(x) => Some(text_child("p_membw", x.clone())), None => None };
        proof { lemma_push_slot_flat(r.children@, host_info_slots(self@), 11, c); }
        if let Some(e) = c {
            r.push(e);
        }
    }

    /// Appends the child encoding `p_calculated`, when it is present.
    fn encode_p_calculated(&self, r: &mut Element)
        requires
            all_fit_flat(old(r).children@, flatten(host_info_slots(self@).subrange(0, 12))),
        ensures
            final(r).name == old(r).name,
            final(r).text == old(r).text,
            final(r).cdata == old(r).cdata,
            all_fit_flat(final(r).children@, flatten(host_info_slots(self@).subrange(0, 13))),
    {
        let c = match &self.p_calculated { Some(x) => Some(text_child("p_calculated", x.clone())), None => None };
        proof { lemma_push_slot_flat(r.children@, host_info_slots(self@), 12, c); }
        if let Some(e) = c {
            r.push(e);
        }
    }

    /// Appends the child encoding `p_vm_extensions_disabled`, when it is present.
    fn encode_p_vm_extensions_disabled(&self, r: &mut Element)
        requires
            all_fit_flat(old(r).children@, flatten(host_info_slots(self@).subrange(0, 13))),
        ensures
            final(r).name == old(r).name,
            final(r).text == old(r).text,
            final(r).cdata == old(r).cdata,
            all_fit_flat(final(r).children@, flatten(host_info_slots(self@).subrange(0, 14))),
    {
        let c = match &self.p_vm_extensions_disabled { Some(x) => Some(text_child("p_vm_extensions_disabled", format_bool(*x))), None => None };
        proof { lemma_push_slot_flat(r.children@, host_info_slots(self@), 13, c); }
        if let Some(e) = c {
            r.push(e);
        }
    }

    /// Appends the child encoding `m_nbytes`, when it is present.
    fn encode_m_nbytes(&self, r: &mut Element)
        requires
            all_fit_flat(old(r).children@, flatten(host_info_slots(self@).subrange(0, 14))),
        ensures
            final(r).name == old(r).name,
            final(r).text == old(r).text,
            final(r).cdata == old(r).cdata,
            all_fit_flat(final(r).children@, flatten(host_info_slots(self@).subrange(0, 15))),
    {
        let c = match &self.m_nbytes { Some(x) => Some(text_child("m_nbytes", x.clone())), None => None };
        proof { lemma_push_slot_flat(r.children@, host_info_slots(self@), 14, c); }
        if let Some(e) = c {
            r.push(e);
        }
    }

    /// Appends the child encoding `m_cache`, when it is present.
    fn encode_m_cache(&self, r: &mut Element)
        requires
            all_fit_flat(old(r).children@, flatten(host_info_slots(self@).subrange(0, 15))),
        ensures
            final(r).name == old(r).name,
            final(r).text == old(r).text,
            final(r).cdata == old(r).cdata,
            all_fit_flat(final(r).children@, flatten(host_info_slots(self@).subrange(0, 16))),
    {
        let c = match &self.m_cache { Some(x) => Some(text_child("m_cache", x.clone())), None => None };
        proof { lemma_push_slot_flat(r.children@, host_info_slots(self@), 15, c); }
        if let Some(e) = c {
            r.push(e);
        }
    }

    /// Appends the child encoding `m_swap`, when it is present.
    fn encode_m_swap(&self, r: &mut Element)
        requires
            all_fit_flat(old(r).children@, flatten(host_info_slots(self@).subrange(0, 16))),
        ensures
            final(r).name == old(r).name,
            final(r).text == old(r).text,
            final(r).cdata == old(r).cdata,
            all_fit_flat(final(r).children@, flatten(host_info_slots(self@).subrange(0, 17))),
    {
        let c = match &self.m_swap { Some(x) => Some(text_child("m_swap", x.clone())), None => None };
        proof { lemma_push_slot_flat(r.children@, host_info_slots(self@), 16, c); }
        if let Some(e) = c {
            r.push(e);
        }
    }

    /// Appends the child encoding `d_total`, when it is present.
    fn encode_d_total(&self, r: &mut Element)
        requires
            all_fit_flat(old(r).children@, flatten(host_info_slots(self@).subrange(0, 17))),
        ensures
            final(r).name == old(r).name,
            final(r).text == old(r).text,
            final(r).cdata == old(r).cdata,
            all_fit_flat(final(r).children@, flatten(host_info_slots(self@).subrange(0, 18))),
    {
        let c = match &self.d_total { Some(x) => Some(text_child("d_total", x.clone())), None => None };
        proof { lemma_push_slot_flat(r.children@, host_info_slots(self@), 17, c); }
        if let Some(e) = c {
            r.push(e);
        }
    }

    /// Appends the child encoding `d_free`, when it is present.
    fn encode_d_free(&self, r: &mut Element)
        requires
            all_fit_flat(old(r).children@, flatten(host_info_slots(self@).subrange(0, 18))),
        ensures
            final(r).name == old(r).name,
            final(r).text == old(r).text,
            final(r).cdata == old(r).cdata,
            all_fit_flat(final(r).children@, flatten(host_info_slots(self@).subrange(0, 19))),
    {
        let c = match &self.d_free { Some(x) => Some(text_child("d_free", x.clone())), None => None };
        proof { lemma_push_slot_flat(r.children@, host_info_slots(self@), 18, c); }
        if let Some(e) = c {
            r.push(e);
        }
    }

    /// Appends the child encoding `os_name`, when it is present.
    fn encode_os_name(&self, r: &mut Element)
        requires
            all_fit_flat(old(r).children@, flatten(host_info_slots(self@).subrange(0, 19))),
        ensures
            final(r).name == old(r).name,
            final(r).text == old(r).text,
            final(r).cdata == old(r).cdata,
            all_fit_flat(final(r).children@, flatten(host_info_slots(self@).subrange(0, 20))),
    {
        let c = match &self.os_name { Some(x) => Some(text_child("os_name", x.clone())), None => None };
        proof { lemma_push_slot_flat(r.children@, host_info_slots(self@), 19, c); }
        if let Some(e) = c {
            r.push(e);
        }
    }

    /// Appends the child encoding `os_version`, when it is present.
    fn encode_os_version(&self, r: &mut Element)
        requires
            all_fit_flat(old(r).children@, flatten(host_info_slots(self@).subrange(0, 20))),
        ensures
            final(r).name == old(r).name,
            final(r).text == old(r).text,
            final(r).cdata == old(r).cdata,
            all_fit_flat(final(r).children@, flatten(host_info_slots(self@).subrange(0, 21))),
    {
        let c = match &self.os_version { Some(x) => Some(text_child("os_version", x.clone())), None => None };
        proof { lemma_push_slot_flat(r.children@, host_info_slots(self@), 20, c); }
        if let Some(e) = c {
            r.push(e);
        }
    }

    /// Appends the child encoding `product_name`, when it is present.
    fn encode_product_name(&self, r: &mut Element)
        requires
            all_fit_flat(old(r).children@, flatten(host_info_slots(self@).subrange(0, 21))),
        ensures
            final(r).name == old(r).name,
            final(r).text == old(r).text,
            final(r).cdata == old(r).cdata,
            all_fit_flat(final(r).children@, flatten(host_info_slots(self@).subrange(0, 22))),
    {
        let c = match &self.product_name { Some(x) => Some(text_child("product_name", x.clone())), None => None };
        proof { lemma_push_slot_flat(r.children@, host_info_slots(self@), 21, c); }
        if let Some(e) = c {
            r.push(e);
        }
    }

    /// Appends the child encoding `mac_address`, when it is present.
    fn encode_mac_address(&self, r: &mut Element)
        requires
            all_fit_flat(old(r).children@, flatten(host_info_slots(self@).subrange(0, 22))),
        ensures
            final(r).name == old(r).name,
            final(r).text == old(r).text,
            final(r).cdata == old(r).cdata,
            all_fit_flat(final(r).children@, flatten(host_info_slots(self@).subrange(0, 23))),
    {
        let c = match &self.mac_address { Some(x) => Some(text_child("mac_address", x.clone())), None => None };
        proof { lemma_push_slot_flat(r.children@, host_info_slots(self@), 22, c); }
        if let Some(e) = c {
            r.push(e);
        }
    }

    /// Appends the child encoding `virtualbox_version`, when it is present.
    fn encode_virtualbox_version(&self, r: &mut Element)
        requires
            all_fit_flat(old(r).children@, flatten(host_info_slots(self@).subrange(0, 23))),
        ensures
            final(r).name == old(r).name,
            final(r).text == old(r).text,
            final(r).cdata == old(r).cdata,
            all_fit_flat(final(r).children@, flatten(host_info_slots(self@).subrange(0, 24))),
    {
        let c = match &self.virtualbox_version { Some(x) => Some(text_child("virtualbox_version", x.clone())), None => None };
        proof { lemma_push_slot_flat(r.children@, host_info_slots(self@), 23, c); }
        if let Some(e) = c {
            r.push(e);
        }
    }
}

/// A project of the daemon's project list. Every field is optional: an absent element leaves it unknown.
#[derive(Clone, Debug, Default, PartialEq)]
pub struct ProjectInfo {
    pub name: Option<String>,
    pub summary: Option<String>,
    pub url: Option<String>,
    pub general_area: Option<String>,
    pub specific_area: Option<String>,
    pub description: Option<String>,
    pub home: Option<String>,
    /// The texts of the `platform` children of the `platfroms` element; the tag keeps this spelling, which the client has always read and written.
    pub platforms: Option<Vec<String>>,
    pub image: Option<String>,
}

/// The fields of a `ProjectInfo` as mathematical values.
pub struct ProjectInfoView {
    pub name: Option<Seq<char>>,
    pub summary: Option<Seq<char>>,
    pub url: Option<Seq<char>>,
    pub general_area: Option<Seq<char>>,
    pub specific_area: Option<Seq<char>>,
    pub description: Option<Seq<char>>,
    pub home: Option<Seq<char>>,
    pub platforms: Option<Seq<Seq<char>>>,
    pub image: Option<Seq<char>>,
}

impl View for ProjectInfo {
    type V = ProjectInfoView;

    open spec fn view(&self) -> ProjectInfoView {
        ProjectInfoView {
            name: text_view(self.name),
            summary: text_view(self.summary),
            url: text_view(self.url),
            general_area: text_view(self.general_area),
            specific_area: text_view(self.specific_area),
            description: text_view(self.description),
            home: text_view(self.home),
            platforms: match self.platforms { Some(v) => Some(texts_view(v@)), None => None },
            image: text_view(self.image),
        }
    }
}

/// The `ProjectInfo` that children `cs` decode to: each field from the last
/// child with its tag; unknown tags are ignored.
pub open spec fn project_info_of(cs: Seq<Element>) -> ProjectInfoView {
    ProjectInfoView {
        name: match last_named(cs, "name"@) { Some(c) => trim_opt(any_text_of(c)), None => None },
        summary: match last_named(cs, "summary"@) { Some(c) => trim_opt(any_text_of(c)), None => None },
        url: match last_named(cs, "url"@) { Some(c) => trim_opt(any_text_of(c)), None => None },
        general_area: match last_named(cs, "general_area"@) { Some(c) => trim_opt(any_text_of(c)), None => None },
        specific_area: match last_named(cs, "specific_area"@) { Some(c) => trim_opt(any_text_of(c)), None => None },
        description: match last_named(cs, "description"@) { Some(c) => trim_opt(any_text_of(c)), None => None },
        home: match last_named(cs, "home"@) { Some(c) => trim_opt(any_text_of(c)), None => None },
        platforms: match last_named(cs, "platfroms"@) { Some(c) => Some(platform_texts(c.children@)), None => None },
        image: match last_named(cs, "image"@) { Some(c) => trim_opt(any_text_of(c)), None => None },
    }
}

/// The tag of field `k` of a `ProjectInfo`.
pub open spec fn project_info_tag(k: int) -> Seq<char> {
    if k == 0 {
        "name"@
    } else if k == 1 {
        "summary"@
    } else if k == 2 {
        "url"@
    } else if k == 3 {
        "general_area"@
    } else if k == 4 {
        "specific_area"@
    } else if k == 5 {
        "description"@
    } else if k == 6 {
        "home"@
    } else if k == 7 {
        "platfroms"@
    } else if k == 8 {
        "image"@
    } else {
        Seq::empty()
    }
}

/// The tags of the fields of a `ProjectInfo`, in field order.
pub open spec fn project_info_tags() -> Seq<Seq<char>> {
    Seq::new(9, |k: int| project_info_tag(k))
}

/// The shape of field `k` of an encoded `ProjectInfo`; none when it is absent.
pub open spec fn project_info_slot(v: ProjectInfoView, k: int) -> Option<Shape> {
    if k == 0 {
        match v.name { Some(x) => Some(Shape::Text("name"@, x)), None => None }
    } else if k == 1 {
        match v.summary { Some(x) => Some(Shape::Text("summary"@, x)), None => None }
    } else if k == 2 {
        match v.url { Some(x) => Some(Shape::Text("url"@, x)), None => None }
    } else if k == 3 {
        match v.general_area { Some(x) => Some(Shape::Text("general_area"@, x)), None => None }
    } else if k == 4 {
        match v.specific_area { Some(x) => Some(Shape::Text("specific_area"@, x)), None => None }
    } else if k == 5 {
        match v.description { Some(x) => Some(Shape::Text("description"@, x)), None => None }
    } else if k == 6 {
        match v.home { Some(x) => Some(Shape::Text("home"@, x)), None => None }
    } else if k == 7 {
        match v.platforms { Some(x) => Some(Shape::List("platfroms"@, "platform"@, x)), None => None }
    } else if k == 8 {
        match v.image { Some(x) => Some(Shape::Text("image"@, x)), None => None }
    } else {
        None
    }
}

/// The shapes of the fields of an encoded `ProjectInfo`, in field order.
pub open spec fn project_info_slots(v: ProjectInfoView) -> Seq<Option<Shape>> {
    Seq::new(9, |k: int| project_info_slot(v, k))
}

/// Whether encoding `v` keeps all it holds: trimmed texts are trimmed
/// and presence flags are set.
pub open spec fn project_info_valid(v: ProjectInfoView) -> bool {
    &&& match v.name { Some(s) => is_trimmed(s), None => true }
    &&& match v.summary { Some(s) => is_trimmed(s), None => true }
    &&& match v.url { Some(s) => is_trimmed(s), None => true }
    &&& match v.general_area { Some(s) => is_trimmed(s), None => true }
    &&& match v.specific_area { Some(s) => is_trimmed(s), None => true }
    &&& match v.description { Some(s) => is_trimmed(s), None => true }
    &&& match v.home { Some(s) => is_trimmed(s), None => true }
    &&& match v.image { Some(s) => is_trimmed(s), None => true }
}

/// The place of a tag among the fields of a `ProjectInfo`.
spec fn project_info_tag_code(s: Seq<char>) -> int {
    if s == "name"@ {
        0
    } else if s == "summary"@ {
        1
    } else if s == "url"@ {
        2
    } else if s == "general_area"@ {
        3
    } else if s == "specific_area"@ {
        4
    } else if s == "description"@ {
        5
    } else if s == "home"@ {
        6
    } else if s == "platfroms"@ {
        7
    } else if s == "image"@ {
        8
    } else {
        -1
    }
}

proof fn lemma_project_info_tags_distinct()
    ensures
        distinct(project_info_tags()),
{
    reveal_strlit("description");
    reveal_strlit("general_area");
    reveal_strlit("home");
    reveal_strlit("image");
    reveal_strlit("name");
    reveal_strlit("platfroms");
    reveal_strlit("specific_area");
    reveal_strlit("summary");
    reveal_strlit("url");
    let tags = project_info_tags();
    // One case per field; tags of equal length differ at the character given.
    assert forall|i: int| 0 <= i < tags.len() implies project_info_tag_code(#[trigger] tags[i]) == i by {
        if i == 0 {
            assert(tags[i] == "name"@);
        } else if i == 1 {
            assert(tags[i] == "summary"@);
        } else if i == 2 {
            assert(tags[i] == "url"@);
        } else if i == 3 {
            assert(tags[i] == "general_area"@);
        } else if i == 4 {
            assert(tags[i] == "specific_area"@);
        } else if i == 5 {
            assert(tags[i] == "description"@);
        } else if i == 6 {
            assert(tags[i] == "home"@);
            assert("home"@[0] != "name"@[0]);
        } else if i == 7 {
            assert(tags[i] == "platfroms"@);
        } else if i == 8 {
            assert(tags[i] == "image"@);
        }
    }
    lemma_distinct_by_code(tags, |s: Seq<char>| project_info_tag_code(s));
}

proof fn lemma_project_info_slots_tagged(v: ProjectInfoView)
    ensures
        slots_tagged(project_info_slots(v), project_info_tags()),
{
    let slots = project_info_slots(v);
    let tags = project_info_tags();
    // One case per field, so that each slot and tag is evaluated.
    assert forall|k: int| 0 <= k < slots.len() && #[trigger] slots[k] is Some implies shape_tag(slots[k]->0) == tags[k] by {
        if k == 0 {
        } else if k == 1 {
        } else if k == 2 {
        } else if k == 3 {
        } else if k == 4 {
        } else if k == 5 {
        } else if k == 6 {
        } else if k == 7 {
        } else if k == 8 {
        }
    }
}

/// Decoding the encoding of a `ProjectInfo` gives it back: children in the
/// shape of its fields decode to it, field for field.
pub proof fn lemma_project_info_round_trip(v: ProjectInfoView, cs: Seq<Element>)
    requires
        project_info_valid(v),
        all_fit_flat(cs, flatten(project_info_slots(v))),
    ensures
        project_info_of(cs) == v,
{
    lemma_flat_fits(cs, flatten(project_info_slots(v)));
    lemma_project_info_tags_distinct();
    lemma_project_info_slots_tagged(v);
    let slots = project_info_slots(v);
    let tags = project_info_tags();
    lemma_find_field(cs, slots, tags, 0);
    if let Some(x) = v.name { lemma_trimmed(x); }
    lemma_find_field(cs, slots, tags, 1);
    if let Some(x) = v.summary { lemma_trimmed(x); }
    lemma_find_field(cs, slots, tags, 2);
    if let Some(x) = v.url { lemma_trimmed(x); }
    lemma_find_field(cs, slots, tags, 3);
    if let Some(x) = v.general_area { lemma_trimmed(x); }
    lemma_find_field(cs, slots, tags, 4);
    if let Some(x) = v.specific_area { lemma_trimmed(x); }
    lemma_find_field(cs, slots, tags, 5);
    if let Some(x) = v.description { lemma_trimmed(x); }
    lemma_find_field(cs, slots, tags, 6);
    if let Some(x) = v.home { lemma_trimmed(x); }
    lemma_find_field(cs, slots, tags, 7);
    if let Some(x) = v.platforms {
        let c = last_named(cs, "platfroms"@)->0;
        lemma_platform_texts(c.children@, x);
    }
    lemma_find_field(cs, slots, tags, 8);
    if let Some(x) = v.image { lemma_trimmed(x); }
}

/// Whatever children decode to, it is a valid `ProjectInfo`.
pub proof fn lemma_project_info_decoded_valid(cs: Seq<Element>)
    ensures
        project_info_valid(project_info_of(cs)),
{
    if let Some(c) = last_named(cs, "name"@) {
        if let Some(x) = any_text_of(c) { lemma_trimmed(x); }
    }
    if let Some(c) = last_named(cs, "summary"@) {
        if let Some(x) = any_text_of(c) { lemma_trimmed(x); }
    }
    if let Some(c) = last_named(cs, "url"@) {
        if let Some(x) = any_text_of(c) { lemma_trimmed(x); }
    }
    if let Some(c) = last_named(cs, "general_area"@) {
        if let Some(x) = any_text_of(c) { lemma_trimmed(x); }
    }
    if let Some(c) = last_named(cs, "specific_area"@) {
        if let Some(x) = any_text_of(c) { lemma_trimmed(x); }
    }
    if let Some(c) = last_named(cs, "description"@) {
        if let Some(x) = any_text_of(c) { lemma_trimmed(x); }
    }
    if let Some(c) = last_named(cs, "home"@) {
        if let Some(x) = any_text_of(c) { lemma_trimmed(x); }
    }
    if let Some(c) = last_named(cs, "image"@) {
        if let Some(x) = any_text_of(c) { lemma_trimmed(x); }
    }
}

/// Encoding a decoded `ProjectInfo` keeps what the tree said: children in the
/// shape of the decoded record decode to that same record.
pub proof fn lemma_project_info_reencode(cs: Seq<Element>, encoded: Seq<Element>)
    requires
        all_fit_flat(encoded, flatten(project_info_slots(project_info_of(cs)))),
    ensures
        project_info_of(encoded) == project_info_of(cs),
{
    lemma_project_info_decoded_valid(cs);
    lemma_project_info_round_trip(project_info_of(cs), encoded);
}

/// Decoding ignores children whose tags a `ProjectInfo` does not hold: children
/// that, once those are left out, are in the shape of `v`'s fields decode
/// to `v`, wherever the unknown children stand.
pub proof fn lemma_project_info_round_trip_among_unknown(v: ProjectInfoView, cs: Seq<Element>)
    requires
        project_info_valid(v),
        all_fit_flat(known_only(cs, project_info_tags()), flatten(project_info_slots(v))),
    ensures
        project_info_of(cs) == v,
{
    let tags = project_info_tags();
    lemma_project_info_round_trip(v, known_only(cs, tags));
    lemma_last_named_known(cs, tags, 0);
    assert(tags[0] == "name"@);
    lemma_last_named_known(cs, tags, 1);
    assert(tags[1] == "summary"@);
    lemma_last_named_known(cs, tags, 2);
    assert(tags[2] == "url"@);
    lemma_last_named_known(cs, tags, 3);
    assert(tags[3] == "general_area"@);
    lemma_last_named_known(cs, tags, 4);
    assert(tags[4] == "specific_area"@);
    lemma_last_named_known(cs, tags, 5);
    assert(tags[5] == "description"@);
    lemma_last_named_known(cs, tags, 6);
    assert(tags[6] == "home"@);
    lemma_last_named_known(cs, tags, 7);
    assert(tags[7] == "platfroms"@);
    lemma_last_named_known(cs, tags, 8);
    assert(tags[8] == "image"@);
}

impl ProjectInfo {
    /// Decodes the children of `node`: each field from the last child
    /// with its tag, absent when there is none or its text does not read.
    pub fn from_element(node: &Element) -> (r: ProjectInfo)
        ensures
            r@ == project_info_of(node.children@),
    {
        ProjectInfo {
            name: match last_child_named(node, "name") { Some(c) => trimmed_optional(&any_text(c)), None => None },
            summary: match last_child_named(node, "summary") { Some(c) => trimmed_optional(&any_text(c)), None => None },
            url: match last_child_named(node, "url") { Some(c) => trimmed_optional(&any_text(c)), None => None },
            general_area: match last_child_named(node, "general_area") { Some(c) => trimmed_optional(&any_text(c)), None => None },
            specific_area: match last_child_named(node, "specific_area") { Some(c) => trimmed_optional(&any_text(c)), None => None },
            description: match last_child_named(node, "description") { Some(c) => trimmed_optional(&any_text(c)), None => None },
            home: match last_child_named(node, "home") { Some(c) => trimmed_optional(&any_text(c)), None => None },
            platforms: match last_child_named(node, "platfroms") { Some(c) => Some(platform_texts_of(c)), None => None },
            image: match last_child_named(node, "image") { Some(c) => trimmed_optional(&any_text(c)), None => None },
        }
    }

    /// Encodes the record as an element tagged `tag`, one child per
    /// present field in field order; absent fields are left out.
    pub fn to_element(&self, tag: &str) -> (r: Element)
        ensures
            r.name@ == tag@,
            r.text is None,
            r.cdata is None,
            all_fit_flat(r.children@, flatten(project_info_slots(self@))),
    {
        let ghost slots = project_info_slots(self@);
        let mut r = Element::new(tag);
        assert(slots.subrange(0, 0) =~= Seq::<Option<Shape>>::empty());
        self.encode_name(&mut r);
        self.encode_summary(&mut r);
        self.encode_url(&mut r);
        self.encode_general_area(&mut r);
        self.encode_specific_area(&mut r);
        self.encode_description(&mut r);
        self.encode_home(&mut r);
        self.encode_platforms(&mut r);
        self.encode_image(&mut r);
        assert(slots.subrange(0, 9) =~= slots);
        r
    }

    /// Appends the child encoding `name`, when it is present.
    fn encode_name(&self, r: &mut Element)
        requires
            all_fit_flat(old(r).children@, flatten(project_info_slots(self@).subrange(0, 0))),
        ensures
            final(r).name == old(r).name,
            final(r).text == old(r).text,
            final(r).cdata == old(r).cdata,
            all_fit_flat(final(r).children@, flatten(project_info_slots(self@).subrange(0, 1))),
    {
        let c = match &self.name { Some(x) => Some(text_child("name", x.clone())), None => None };
        proof { lemma_push_slot_flat(r.children@, project_info_slots(self@), 0, c); }
        if let Some(e) = c {
            r.push(e);
        }
    }

    /// Appends the child encoding `summary`, when it is present.
    fn encode_summary(&self, r: &mut Element)
        requires
            all_fit_flat(old(r).children@, flatten(project_info_slots(self@).subrange(0, 1))),
        ensures
            final(r).name == old(r).name,
            final(r).text == old(r).text,
            final(r).cdata == old(r).cdata,
            all_fit_flat(final(r).children@, flatten(project_info_slots(self@).subrange(0, 2))),
    {
        let c = match &self.summary { Some(x) => Some(text_child("summary", x.clone())), None => None };
        proof { lemma_push_slot_flat(r.children@, project_info_slots(self@), 1, c); }
        if let Some(e) = c {
            r.push(e);
        }
    }

    /// Appends the child encoding `url`, when it is present.
    fn encode_url(&self, r: &mut Element)
        requires
            all_fit_flat(old(r).children@, flatten(project_info_slots(self@).subrange(0, 2))),
        ensures
            final(r).name == old(r).name,
            final(r).text == old(r).text,
            final(r).cdata == old(r).cdata,
            all_fit_flat(final(r).children@, flatten(project_info_slots(self@).subrange(0, 3))),
    {
        let c = match &self.url { Some(x) => Some(text_child("url", x.clone())), None => None };
        proof { lemma_push_slot_flat(r.children@, project_info_slots(self@), 2, c); }
        if let Some(e) = c {
            r.push(e);
        }
    }

    /// Appends the child encoding `general_area`, when it is present.
    fn encode_general_area(&self, r: &mut Element)
        requires
            all_fit_flat(old(r).children@, flatten(project_info_slots(self@).subrange(0, 3))),
        ensures
            final(r).name == old(r).name,
            final(r).text == old(r).text,
            final(r).cdata == old(r).cdata,
            all_fit_flat(final(r).children@, flatten(project_info_slots(self@).subrange(0, 4))),
    {
        let c = match &self.general_area { Some(x) => Some(text_child("general_area", x.clone())), None => None };
        proof { lemma_push_slot_flat(r.children@, project_info_slots(self@), 3, c); }
        if let Some(e) = c {
            r.push(e);
        }
    }

    /// Appends the child encoding `specific_area`, when it is present.
    fn encode_specific_area(&self, r: &mut Element)
        requires
            all_fit_flat(old(r).children@, flatten(project_info_slots(self@).subrange(0, 4))),
        ensures
            final(r).name == old(r).name,
            final(r).text == old(r).text,
            final(r).cdata == old(r).cdata,
            all_fit_flat(final(r).children@, flatten(project_info_slots(self@).subrange(0, 5))),
    {
        let c = match &self.specific_area { Some(x) => Some(text_child("specific_area", x.clone())), None => None };
        proof { lemma_push_slot_flat(r.children@, project_info_slots(self@), 4, c); }
        if let Some(e) = c {
            r.push(e);
        }
    }

    /// Appends the child encoding `description`, when it is present.
    fn encode_description(&self, r: &mut Element)
        requires
            all_fit_flat(old(r).children@, flatten(project_info_slots(self@).subrange(0, 5))),
        ensures
            final(r).name == old(r).name,
            final(r).text == old(r).text,
            final(r).cdata == old(r).cdata,
            all_fit_flat(final(r).children@, flatten(project_info_slots(self@).subrange(0, 6))),
    {
        let c = match &self.description { Some(x) => Some(text_child("description", x.clone())), None => None };
        proof { lemma_push_slot_flat(r.children@, project_info_slots(self@), 5, c); }
        if let Some(e) = c {
            r.push(e);
        }
    }

    /// Appends the child encoding `home`, when it is present.
    fn encode_home(&self, r: &mut Element)
        requires
            all_fit_flat(old(r).children@, flatten(project_info_slots(self@).subrange(0, 6))),
        ensures
            final(r).name == old(r).name,
            final(r).text == old(r).text,
            final(r).cdata == old(r).cdata,
            all_fit_flat(final(r).children@, flatten(project_info_slots(self@).subrange(0, 7))),
    {
        let c = match &self.home { Some(x) => Some(text_child("home", x.clone())), None => None };
        proof { lemma_push_slot_flat(r.children@, project_info_slots(self@), 6, c); }
        if let Some(e) = c {
            r.push(e);
        }
    }

    /// Appends the child encoding `platforms`, when it is present.
    fn encode_platforms(&self, r: &mut Element)
        requires
            all_fit_flat(old(r).children@, flatten(project_info_slots(self@).subrange(0, 7))),
        ensures
            final(r).name == old(r).name,
            final(r).text == old(r).text,
            final(r).cdata == old(r).cdata,
            all_fit_flat(final(r).children@, flatten(project_info_slots(self@).subrange(0, 8))),
    {
        let c = match &self.platforms { Some(x) => Some(list_child("platfroms", "platform", x)), None => None };
        proof { lemma_push_slot_flat(r.children@, project_info_slots(self@), 7, c); }
        if let Some(e) = c {
            r.push(e);
        }
    }

    /// Appends the child encoding `image`, when it is present.
    fn encode_image(&self, r: &mut Element)
        requires
            all_fit_flat(old(r).children@, flatten(project_info_slots(self@).subrange(0, 8))),
        ensures
            final(r).name == old(r).name,
            final(r).text == old(r).text,
            final(r).cdata == old(r).cdata,
            all_fit_flat(final(r).children@, flatten(project_info_slots(self@).subrange(0, 9))),
    {
        let c = match &self.image { Some(x) => Some(text_child("image", x.clone())), None => None };
        proof { lemma_push_slot_flat(r.children@, project_info_slots(self@), 8, c); }
        if let Some(e) = c {
            r.push(e);
        }
    }
}

/// The account manager the daemon is attached to. Every field is optional: an absent element leaves it unknown.
#[derive(Clone, Debug, Default, PartialEq)]
pub struct AccountManagerInfo {
    pub url: Option<String>,
    pub name: Option<String>,
    /// Set when the element is present.
    pub have_credentials: Option<bool>,
    /// Set when the element is present.
    pub cookie_required: Option<bool>,
    pub cookie_failure_url: Option<String>,
}

/// The fields of a `AccountManagerInfo` as mathematical values.
pub struct AccountManagerInfoView {
    pub url: Option<Seq<char>>,
    pub name: Option<Seq<char>>,
    pub have_credentials: Option<bool>,
    pub cookie_required: Option<bool>,
    pub cookie_failure_url: Option<Seq<char>>,
}

impl View for AccountManagerInfo {
    type V = AccountManagerInfoView;

    open spec fn view(&self) -> AccountManagerInfoView {
        AccountManagerInfoView {
            url: text_view(self.url),
            name: text_view(self.name),
            have_credentials: self.have_credentials,
            cookie_required: self.cookie_required,
            cookie_failure_url: text_view(self.cookie_failure_url),
        }
    }
}

/// The `AccountManagerInfo` that children `cs` decode to: each field from the last
/// child with its tag; unknown tags are ignored.
pub open spec fn account_manager_info_of(cs: Seq<Element>) -> AccountManagerInfoView {
    AccountManagerInfoView {
        url: match last_named(cs, "acct_mgr_url"@) { Some(c) => trim_opt(any_text_of(c)), None => None },
        name: match last_named(cs, "acct_mgr_name"@) { Some(c) => trim_opt(any_text_of(c)), None => None },
        have_credentials: match last_named(cs, "have_credentials"@) { Some(_) => Some(true), None => None },
        cookie_required: match last_named(cs, "cookie_required"@) { Some(_) => Some(true), None => None },
        cookie_failure_url: match last_named(cs, "cookie_failure_url"@) { Some(c) => trim_opt(any_text_of(c)), None => None },
    }
}

/// The tag of field `k` of a `AccountManagerInfo`.
pub open spec fn account_manager_info_tag(k: int) -> Seq<char> {
    if k == 0 {
        "acct_mgr_url"@
    } else if k == 1 {
        "acct_mgr_name"@
    } else if k == 2 {
        "have_credentials"@
    } else if k == 3 {
        "cookie_required"@
    } else if k == 4 {
        "cookie_failure_url"@
    } else {
        Seq::empty()
    }
}

/// The tags of the fields of a `AccountManagerInfo`, in field order.
pub open spec fn account_manager_info_tags() -> Seq<Seq<char>> {
    Seq::new(5, |k: int| account_manager_info_tag(k))
}

/// The shape of field `k` of an encoded `AccountManagerInfo`; none when it is absent.
pub open spec fn account_manager_info_slot(v: AccountManagerInfoView, k: int) -> Option<Shape> {
    if k == 0 {
        match v.url { Some(x) => Some(Shape::Text("acct_mgr_url"@, x)), None => None }
    } else if k == 1 {
        match v.name { Some(x) => Some(Shape::Text("acct_mgr_name"@, x)), None => None }
    } else if k == 2 {
        match v.have_credentials { Some(x) => Some(Shape::Text("have_credentials"@, bool_text(x))), None => None }
    } else if k == 3 {
        match v.cookie_required { Some(x) => Some(Shape::Text("cookie_required"@, bool_text(x))), None => None }
    } else if k == 4 {
        match v.cookie_failure_url { Some(x) => Some(Shape::Text("cookie_failure_url"@, x)), None => None }
    } else {
        None
    }
}

/// The shapes of the fields of an encoded `AccountManagerInfo`, in field order.
pub open spec fn account_manager_info_slots(v: AccountManagerInfoView) -> Seq<Option<Shape>> {
    Seq::new(5, |k: int| account_manager_info_slot(v, k))
}

/// Whether encoding `v` keeps all it holds: trimmed texts are trimmed
/// and presence flags are set.
pub open spec fn account_manager_info_valid(v: AccountManagerInfoView) -> bool {
    &&& match v.url { Some(s) => is_trimmed(s), None => true }
    &&& match v.name { Some(s) => is_trimmed(s), None => true }
    &&& v.have_credentials != Some(false)
    &&& v.cookie_required != Some(false)
    &&& match v.cookie_failure_url { Some(s) => is_trimmed(s), None => true }
}

/// The place of a tag among the fields of a `AccountManagerInfo`.
spec fn account_manager_info_tag_code(s: Seq<char>) -> int {
    if s == "acct_mgr_url"@ {
        0
    } else if s == "acct_mgr_name"@ {
        1
    } else if s == "have_credentials"@ {
        2
    } else if s == "cookie_required"@ {
        3
    } else if s == "cookie_failure_url"@ {
        4
    } else {
        -1
    }
}

proof fn lemma_account_manager_info_tags_distinct()
    ensures
        distinct(account_manager_info_tags()),
{
    reveal_strlit("acct_mgr_name");
    reveal_strlit("acct_mgr_url");
    reveal_strlit("cookie_failure_url");
    reveal_strlit("cookie_required");
    reveal_strlit("have_credentials");
    let tags = account_manager_info_tags();
    // One case per field; tags of equal length differ at the character given.
    assert forall|i: int| 0 <= i < tags.len() implies account_manager_info_tag_code(#[trigger] tags[i]) == i by {
        if i == 0 {
            assert(tags[i] == "acct_mgr_url"@);
        } else if i == 1 {
            assert(tags[i] == "acct_mgr_name"@);
        } else if i == 2 {
            assert(tags[i] == "have_credentials"@);
        } else if i == 3 {
            assert(tags[i] == "cookie_required"@);
        } else if i == 4 {
            assert(tags[i] == "cookie_failure_url"@);
        }
    }
    lemma_distinct_by_code(tags, |s: Seq<char>| account_manager_info_tag_code(s));
}

proof fn lemma_account_manager_info_slots_tagged(v: AccountManagerInfoView)
    ensures
        slots_tagged(account_manager_info_slots(v), account_manager_info_tags()),
{
    let slots = account_manager_info_slots(v);
    let tags = account_manager_info_tags();
    // One case per field, so that each slot and tag is evaluated.
    assert forall|k: int| 0 <= k < slots.len() && #[trigger] slots[k] is Some implies shape_tag(slots[k]->0) == tags[k] by {
        if k == 0 {
        } else if k == 1 {
        } else if k == 2 {
        } else if k == 3 {
        } else if k == 4 {
        }
    }
}

/// Decoding the encoding of a `AccountManagerInfo` gives it back: children in the
/// shape of its fields decode to it, field for field.
pub proof fn lemma_account_manager_info_round_trip(v: AccountManagerInfoView, cs: Seq<Element>)
    requires
        account_manager_info_valid(v),
        all_fit_flat(cs, flatten(account_manager_info_slots(v))),
    ensures
        account_manager_info_of(cs) == v,
{
    lemma_flat_fits(cs, flatten(account_manager_info_slots(v)));
    lemma_account_manager_info_tags_distinct();
    lemma_account_manager_info_slots_tagged(v);
    let slots = account_manager_info_slots(v);
    let tags = account_manager_info_tags();
    lemma_find_field(cs, slots, tags, 0);
    if let Some(x) = v.url { lemma_trimmed(x); }
    lemma_find_field(cs, slots, tags, 1);
    if let Some(x) = v.name { lemma_trimmed(x); }
    lemma_find_field(cs, slots, tags, 2);
    if let Some(x) = v.have_credentials { lemma_bool_text_reads_back(x); }
    lemma_find_field(cs, slots, tags, 3);
    if let Some(x) = v.cookie_required { lemma_bool_text_reads_back(x); }
    lemma_find_field(cs, slots, tags, 4);
    if let Some(x) = v.cookie_failure_url { lemma_trimmed(x); }
}

/// Whatever children decode to, it is a valid `AccountManagerInfo`.
pub proof fn lemma_account_manager_info_decoded_valid(cs: Seq<Element>)
    ensures
        account_manager_info_valid(account_manager_info_of(cs)),
{
    if let Some(c) = last_named(cs, "acct_mgr_url"@) {
        if let Some(x) = any_text_of(c) { lemma_trimmed(x); }
    }
    if let Some(c) = last_named(cs, "acct_mgr_name"@) {
        if let Some(x) = any_text_of(c) { lemma_trimmed(x); }
    }
    if let Some(c) = last_named(cs, "cookie_failure_url"@) {
        if let Some(x) = any_text_of(c) { lemma_trimmed(x); }
    }
}

/// Encoding a decoded `AccountManagerInfo` keeps what the tree said: children in the
/// shape of the decoded record decode to that same record.
pub proof fn lemma_account_manager_info_reencode(cs: Seq<Element>, encoded: Seq<Element>)
    requires
        all_fit_flat(encoded, flatten(account_manager_info_slots(account_manager_info_of(cs)))),
    ensures
        account_manager_info_of(encoded) == account_manager_info_of(cs),
{
    lemma_account_manager_info_decoded_valid(cs);
    lemma_account_manager_info_round_trip(account_manager_info_of(cs), encoded);
}

/// Decoding ignores children whose tags a `AccountManagerInfo` does not hold: children
/// that, once those are left out, are in the shape of `v`'s fields decode
/// to `v`, wherever the unknown children stand.
pub proof fn lemma_account_manager_info_round_trip_among_unknown(v: AccountManagerInfoView, cs: Seq<Element>)
    requires
        account_manager_info_valid(v),
        all_fit_flat(known_only(cs, account_manager_info_tags()), flatten(account_manager_info_slots(v))),
    ensures
        account_manager_info_of(cs) == v,
{
    let tags = account_manager_info_tags();
    lemma_account_manager_info_round_trip(v, known_only(cs, tags));
    lemma_last_named_known(cs, tags, 0);
    assert(tags[0] == "acct_mgr_url"@);
    lemma_last_named_known(cs, tags, 1);
    assert(tags[1] == "acct_mgr_name"@);
    lemma_last_named_known(cs, tags, 2);
    assert(tags[2] == "have_credentials"@);
    lemma_last_named_known(cs, tags, 3);
    assert(tags[3] == "cookie_required"@);
    lemma_last_named_known(cs, tags, 4);
    assert(tags[4] == "cookie_failure_url"@);
}

impl AccountManagerInfo {
    /// Decodes the children of `node`: each field from the last child
    /// with its tag, absent when there is none or its text does not read.
    pub fn from_element(node: &Element) -> (r: AccountManagerInfo)
        ensures
            r@ == account_manager_info_of(node.children@),
    {
        AccountManagerInfo {
            url: match last_child_named(node, "acct_mgr_url") { Some(c) => trimmed_optional(&any_text(c)), None => None },
            name: match last_child_named(node, "acct_mgr_name") { Some(c) => trimmed_optional(&any_text(c)), None => None },
            have_credentials: match last_child_named(node, "have_credentials") { Some(_) => Some(true), None => None },
            cookie_required: match last_child_named(node, "cookie_required") { Some(_) => Some(true), None => None },
            cookie_failure_url: match last_child_named(node, "cookie_failure_url") { Some(c) => trimmed_optional(&any_text(c)), None => None },
        }
    }

    /// Encodes the record as an element tagged `tag`, one child per
    /// present field in field order; absent fields are left out.
    pub fn to_element(&self, tag: &str) -> (r: Element)
        ensures
            r.name@ == tag@,
            r.text is None,
            r.cdata is None,
            all_fit_flat(r.children@, flatten(account_manager_info_slots(self@))),
    {
        let ghost slots = account_manager_info_slots(self@);
        let mut r = Element::new(tag);
        assert(slots.subrange(0, 0) =~= Seq::<Option<Shape>>::empty());
        self.encode_url(&mut r);
        self.encode_name(&mut r);
        self.encode_have_credentials(&mut r);
        self.encode_cookie_required(&mut r);
        self.encode_cookie_failure_url(&mut r);
        assert(slots.subrange(0, 5) =~= slots);
        r
    }

    /// Appends the child encoding `url`, when it is present.
    fn encode_url(&self, r: &mut Element)
        requires
            all_fit_flat(old(r).children@, flatten(account_manager_info_slots(self@).subrange(0, 0))),
        ensures
            final(r).name == old(r).name,
            final(r).text == old(r).text,
            final(r).cdata == old(r).cdata,
            all_fit_flat(final(r).children@, flatten(account_manager_info_slots(self@).subrange(0, 1))),
    {
        let c = match &self.url { Some(x) => Some(text_child("acct_mgr_url", x.clone())), None => None };
        proof { lemma_push_slot_flat(r.children@, account_manager_info_slots(self@), 0, c); }
        if let Some(e) = c {
            r.push(e);
        }
    }

    /// Appends the child encoding `name`, when it is present.
    fn encode_name(&self, r: &mut Element)
        requires
            all_fit_flat(old(r).children@, flatten(account_manager_info_slots(self@).subrange(0, 1))),
        ensures
            final(r).name == old(r).name,
            final(r).text == old(r).text,
            final(r).cdata == old(r).cdata,
            all_fit_flat(final(r).children@, flatten(account_manager_info_slots(self@).subrange(0, 2))),
    {
        let c = match &self.name { Some(x) => Some(text_child("acct_mgr_name", x.clone())), None => None };
        proof { lemma_push_slot_flat(r.children@, account_manager_info_slots(self@), 1, c); }
        if let Some(e) = c {
            r.push(e);
        }
    }

    /// Appends the child encoding `have_credentials`, when it is present.
    fn encode_have_credentials(&self, r: &mut Element)
        requires
            all_fit_flat(old(r).children@, flatten(account_manager_info_slots(self@).subrange(0, 2))),
        ensures
            final(r).name == old(r).name,
            final(r).text == old(r).text,
            final(r).cdata == old(r).cdata,
            all_fit_flat(final(r).children@, flatten(account_manager_info_slots(self@).subrange(0, 3))),
    {
        let c = match &self.have_credentials { Some(x) => Some(text_child("have_credentials", format_bool(*x))), None => None };
        proof { lemma_push_slot_flat(r.children@, account_manager_info_slots(self@), 2, c); }
        if let Some(e) = c {
            r.push(e);
        }
    }

    /// Appends the child encoding `cookie_required`, when it is present.
    fn encode_cookie_required(&self, r: &mut Element)
        requires
            all_fit_flat(old(r).children@, flatten(account_manager_info_slots(self@).subrange(0, 3))),
        ensures
            final(r).name == old(r).name,
            final(r).text == old(r).text,
            final(r).cdata == old(r).cdata,
            all_fit_flat(final(r).children@, flatten(account_manager_info_slots(self@).subrange(0, 4))),
    {
        let c = match &self.cookie_required { Some(x) => Some(text_child("cookie_required", format_bool(*x))), None => None };
        proof { lemma_push_slot_flat(r.children@, account_manager_info_slots(self@), 3, c); }
        if let Some(e) = c {
            r.push(e);
        }
    }

    /// Appends the child encoding `cookie_failure_url`, when it is present.
    fn encode_cookie_failure_url(&self, r: &mut Element)
        requires
            all_fit_flat(old(r).children@, flatten(account_manager_info_slots(self@).subrange(0, 4))),
        ensures
            final(r).name == old(r).name,
            final(r).text == old(r).text,
            final(r).cdata == old(r).cdata,
            all_fit_flat(final(r).children@, flatten(account_manager_info_slots(self@).subrange(0, 5))),
    {
        let c = match &self.cookie_failure_url { Some(x) => Some(text_child("cookie_failure_url", x.clone())), None => None };
        proof { lemma_push_slot_flat(r.children@, account_manager_info_slots(self@), 4, c); }
        if let Some(e) = c {
            r.push(e);
        }
    }
}

/// One message of the daemon's log. Every field is optional: an absent element leaves it unknown.
#[derive(Clone, Debug, Default, PartialEq)]
pub struct Message {
    pub project_name: Option<String>,
    pub priority: Option<i64>,
    pub msg_number: Option<i64>,
    pub body: Option<String>,
    pub timestamp: Option<i64>,
}

/// The fields of a `Message` as mathematical values.
pub struct MessageView {
    pub project_name: Option<Seq<char>>,
    pub priority: Option<i64>,
    pub msg_number: Option<i64>,
    pub body: Option<Seq<char>>,
    pub timestamp: Option<i64>,
}

impl View for Message {
    type V = MessageView;

    open spec fn view(&self) -> MessageView {
        MessageView {
            project_name: text_view(self.project_name),
            priority: self.priority,
            msg_number: self.msg_number,
            body: text_view(self.body),
            timestamp: self.timestamp,
        }
    }
}

/// The `Message` that children `cs` decode to: each field from the last
/// child with its tag; unknown tags are ignored.
pub open spec fn message_of(cs: Seq<Element>) -> MessageView {
    MessageView {
        project_name: match last_named(cs, "project"@) { Some(c) => trim_opt(text_view(c.text)), None => None },
        priority: match last_named(cs, "pri"@) { Some(c) => text_i64(c), None => None },
        msg_number: match last_named(cs, "seqno"@) { Some(c) => text_i64(c), None => None },
        body: match last_named(cs, "body"@) { Some(c) => trim_opt(text_view(c.cdata)), None => None },
        timestamp: match last_named(cs, "time"@) { Some(c) => text_i64(c), None => None },
    }
}

/// The tag of field `k` of a `Message`.
pub open spec fn message_tag(k: int) -> Seq<char> {
    if k == 0 {
        "project"@
    } else if k == 1 {
        "pri"@
    } else if k == 2 {
        "seqno"@
    } else if k == 3 {
        "body"@
    } else if k == 4 {
        "time"@
    } else {
        Seq::empty()
    }
}

/// The tags of the fields of a `Message`, in field order.
pub open spec fn message_tags() -> Seq<Seq<char>> {
    Seq::new(5, |k: int| message_tag(k))
}

/// The shape of field `k` of an encoded `Message`; none when it is absent.
pub open spec fn message_slot(v: MessageView, k: int) -> Option<Shape> {
    if k == 0 {
        match v.project_name { Some(x) => Some(Shape::Text("project"@, x)), None => None }
    } else if k == 1 {
        match v.priority { Some(x) => Some(Shape::Text("pri"@, int_text(x as int))), None => None }
    } else if k == 2 {
        match v.msg_number { Some(x) => Some(Shape::Text("seqno"@, int_text(x as int))), None => None }
    } else if k == 3 {
        match v.body { Some(x) => Some(Shape::Raw("body"@, x)), None => None }
    } else if k == 4 {
        match v.timestamp { Some(x) => Some(Shape::Text("time"@, int_text(x as int))), None => None }
    } else {
        None
    }
}

/// The shapes of the fields of an encoded `Message`, in field order.
pub open spec fn message_slots(v: MessageView) -> Seq<Option<Shape>> {
    Seq::new(5, |k: int| message_slot(v, k))
}

/// Whether encoding `v` keeps all it holds: trimmed texts are trimmed
/// and presence flags are set.
pub open spec fn message_valid(v: MessageView) -> bool {
    &&& match v.project_name { Some(s) => is_trimmed(s), None => true }
    &&& match v.body { Some(s) => is_trimmed(s), None => true }
}

/// The place of a tag among the fields of a `Message`.
spec fn message_tag_code(s: Seq<char>) -> int {
    if s == "project"@ {
        0
    } else if s == "pri"@ {
        1
    } else if s == "seqno"@ {
        2
    } else if s == "body"@ {
        3
    } else if s == "time"@ {
        4
    } else {
        -1
    }
}

proof fn lemma_message_tags_distinct()
    ensures
        distinct(message_tags()),
{
    reveal_strlit("body");
    reveal_strlit("pri");
    reveal_strlit("project");
    reveal_strlit("seqno");
    reveal_strlit("time");
    let tags = message_tags();
    // One case per field; tags of equal length differ at the character given.
    assert forall|i: int| 0 <= i < tags.len() implies message_tag_code(#[trigger] tags[i]) == i by {
        if i == 0 {
            assert(tags[i] == "project"@);
        } else if i == 1 {
            assert(tags[i] == "pri"@);
        } else if i == 2 {
            assert(tags[i] == "seqno"@);
        } else if i == 3 {
            assert(tags[i] == "body"@);
        } else if i == 4 {
            assert(tags[i] == "time"@);
            assert("time"@[0] != "body"@[0]);
        }
    }
    lemma_distinct_by_code(tags, |s: Seq<char>| message_tag_code(s));
}

proof fn lemma_message_slots_tagged(v: MessageView)
    ensures
        slots_tagged(message_slots(v), message_tags()),
{
    let slots = message_slots(v);
    let tags = message_tags();
    // One case per field, so that each slot and tag is evaluated.
    assert forall|k: int| 0 <= k < slots.len() && #[trigger] slots[k] is Some implies shape_tag(slots[k]->0) == tags[k] by {
        if k == 0 {
        } else if k == 1 {
        } else if k == 2 {
        } else if k == 3 {
        } else if k == 4 {
        }
    }
}

/// Decoding the encoding of a `Message` gives it back: children in the
/// shape of its fields decode to it, field for field.
pub proof fn lemma_message_round_trip(v: MessageView, cs: Seq<Element>)
    requires
        message_valid(v),
        all_fit_flat(cs, flatten(message_slots(v))),
    ensures
        message_of(cs) == v,
{
    lemma_flat_fits(cs, flatten(message_slots(v)));
    lemma_message_tags_distinct();
    lemma_message_slots_tagged(v);
    let slots = message_slots(v);
    let tags = message_tags();
    lemma_find_field(cs, slots, tags, 0);
    if let Some(x) = v.project_name { lemma_trimmed(x); }
    lemma_find_field(cs, slots, tags, 1);
    if let Some(x) = v.priority { lemma_int_text_reads_back(x as int); }
    lemma_find_field(cs, slots, tags, 2);
    if let Some(x) = v.msg_number { lemma_int_text_reads_back(x as int); }
    lemma_find_field(cs, slots, tags, 3);
    if let Some(x) = v.body { lemma_trimmed(x); }
    lemma_find_field(cs, slots, tags, 4);
    if let Some(x) = v.timestamp { lemma_int_text_reads_back(x as int); }
}

/// Whatever children decode to, it is a valid `Message`.
pub proof fn lemma_message_decoded_valid(cs: Seq<Element>)
    ensures
        message_valid(message_of(cs)),
{
    if let Some(c) = last_named(cs, "project"@) {
        if let Some(x) = text_view(c.text) { lemma_trimmed(x); }
    }
    if let Some(c) = last_named(cs, "body"@) {
        if let Some(x) = text_view(c.cdata) { lemma_trimmed(x); }
    }
}

/// Encoding a decoded `Message` keeps what the tree said: children in the
/// shape of the decoded record decode to that same record.
pub proof fn lemma_message_reencode(cs: Seq<Element>, encoded: Seq<Element>)
    requires
        all_fit_flat(encoded, flatten(message_slots(message_of(cs)))),
    ensures
        message_of(encoded) == message_of(cs),
{
    lemma_message_decoded_valid(cs);
    lemma_message_round_trip(message_of(cs), encoded);
}

/// Decoding ignores children whose tags a `Message` does not hold: children
/// that, once those are left out, are in the shape of `v`'s fields decode
/// to `v`, wherever the unknown children stand.
pub proof fn lemma_message_round_trip_among_unknown(v: MessageView, cs: Seq<Element>)
    requires
        message_valid(v),
        all_fit_flat(known_only(cs, message_tags()), flatten(message_slots(v))),
    ensures
        message_of(cs) == v,
{
    let tags = message_tags();
    lemma_message_round_trip(v, known_only(cs, tags));
    lemma_last_named_known(cs, tags, 0);
    assert(tags[0] == "project"@);
    lemma_last_named_known(cs, tags, 1);
    assert(tags[1] == "pri"@);
    lemma_last_named_known(cs, tags, 2);
    assert(tags[2] == "seqno"@);
    lemma_last_named_known(cs, tags, 3);
    assert(tags[3] == "body"@);
    lemma_last_named_known(cs, tags, 4);
    assert(tags[4] == "time"@);
}

impl Message {
    /// Decodes the children of `node`: each field from the last child
    /// with its tag, absent when there is none or its text does not read.
    pub fn from_element(node: &Element) -> (r: Message)
        ensures
            r@ == message_of(node.children@),
    {
        Message {
            project_name: match last_child_named(node, "project") { Some(c) => trimmed_optional(&c.text), None => None },
            priority: match last_child_named(node, "pri") { Some(c) => eval_node_contents(c), None => None },
            msg_number: match last_child_named(node, "seqno") { Some(c) => eval_node_contents(c), None => None },
            body: match last_child_named(node, "body") { Some(c) => trimmed_optional(&c.cdata), None => None },
            timestamp: match last_child_named(node, "time") { Some(c) => eval_node_contents(c), None => None },
        }
    }

    /// Encodes the record as an element tagged `tag`, one child per
    /// present field in field order; absent fields are left out.
    pub fn to_element(&self, tag: &str) -> (r: Element)
        ensures
            r.name@ == tag@,
            r.text is None,
            r.cdata is None,
            all_fit_flat(r.children@, flatten(message_slots(self@))),
    {
        let ghost slots = message_slots(self@);
        let mut r = Element::new(tag);
        assert(slots.subrange(0, 0) =~= Seq::<Option<Shape>>::empty());
        self.encode_project_name(&mut r);
        self.encode_priority(&mut r);
        self.encode_msg_number(&mut r);
        self.encode_body(&mut r);
        self.encode_timestamp(&mut r);
        assert(slots.subrange(0, 5) =~= slots);
        r
    }

    /// Appends the child encoding `project_name`, when it is present.
    fn encode_project_name(&self, r: &mut Element)
        requires
            all_fit_flat(old(r).children@, flatten(message_slots(self@).subrange(0, 0))),
        ensures
            final(r).name == old(r).name,
            final(r).text == old(r).text,
            final(r).cdata == old(r).cdata,
            all_fit_flat(final(r).children@, flatten(message_slots(self@).subrange(0, 1))),
    {
        let c = match &self.project_name { Some(x) => Some(text_child("project", x.clone())), None => None };
        proof { lemma_push_slot_flat(r.children@, message_slots(self@), 0, c); }
        if let Some(e) = c {
            r.push(e);
        }
    }

    /// Appends the child encoding `priority`, when it is present.
    fn encode_priority(&self, r: &mut Element)
        requires
            all_fit_flat(old(r).children@, flatten(message_slots(self@).subrange(0, 1))),
        ensures
            final(r).name == old(r).name,
            final(r).text == old(r).text,
            final(r).cdata == old(r).cdata,
            all_fit_flat(final(r).children@, flatten(message_slots(self@).subrange(0, 2))),
    {
        let c = match &self.priority { Some(x) => Some(text_child("pri", format_i64(*x))), None => None };
        proof { lemma_push_slot_flat(r.children@, message_slots(self@), 1, c); }
        if let Some(e) = c {
            r.push(e);
        }
    }

    /// Appends the child encoding `msg_number`, when it is present.
    fn encode_msg_number(&self, r: &mut Element)
        requires
            all_fit_flat(old(r).children@, flatten(message_slots(self@).subrange(0, 2))),
        ensures
            final(r).name == old(r).name,
            final(r).text == old(r).text,
            final(r).cdata == old(r).cdata,
            all_fit_flat(final(r).children@, flatten(message_slots(self@).subrange(0, 3))),
    {
        let c = match &self.msg_number { Some(x) => Some(text_child("seqno", format_i64(*x))), None => None };
        proof { lemma_push_slot_flat(r.children@, message_slots(self@), 2, c); }
        if let Some(e) = c {
            r.push(e);
        }
    }

    /// Appends the child encoding `body`, when it is present.
    fn encode_body(&self, r: &mut Element)
        requires
            all_fit_flat(old(r).children@, flatten(message_slots(self@).subrange(0, 3))),
        ensures
            final(r).name == old(r).name,
            final(r).text == old(r).text,
            final(r).cdata == old(r).cdata,
            all_fit_flat(final(r).children@, flatten(message_slots(self@).subrange(0, 4))),
    {
        let c = match &self.body { Some(x) => Some(raw_child("body", x.clone())), None => None };
        proof { lemma_push_slot_flat(r.children@, message_slots(self@), 3, c); }
        if let Some(e) = c {
            r.push(e);
        }
    }

    /// Appends the child encoding `timestamp`, when it is present.
    fn encode_timestamp(&self, r: &mut Element)
        requires
            all_fit_flat(old(r).children@, flatten(message_slots(self@).subrange(0, 4))),
        ensures
            final(r).name == old(r).name,
            final(r).text == old(r).text,
            final(r).cdata == old(r).cdata,
            all_fit_flat(final(r).children@, flatten(message_slots(self@).subrange(0, 5))),
    {
        let c = match &self.timestamp { Some(x) => Some(text_child("time", format_i64(*x))), None => None };
        proof { lemma_push_slot_flat(r.children@, message_slots(self@), 4, c); }
        if let Some(e) = c {
            r.push(e);
        }
    }
}

/// The running state of a task. Every field is optional: an absent element leaves it unknown.
#[derive(Clone, Debug, Default, PartialEq)]
pub struct ActiveTask {
    pub active_task_state: Option<String>,
    pub app_version_num: Option<String>,
    pub slot: Option<u64>,
    pub pid: Option<u64>,
    pub scheduler_state: Option<String>,
    /// Decimal text of a floating-point quantity, as the daemon sent it.
    pub checkpoint_cpu_time: Option<String>,
    /// Decimal text of a floating-point quantity, as the daemon sent it.
    pub fraction_done: Option<String>,
    /// Decimal text of a floating-point quantity, as the daemon sent it.
    pub current_cpu_time: Option<String>,
    /// Decimal text of a floating-point quantity, as the daemon sent it.
    pub elapsed_time: Option<String>,
    /// Decimal text of a floating-point quantity, as the daemon sent it.
    pub swap_size: Option<String>,
    /// Decimal text of a floating-point quantity, as the daemon sent it.
    pub working_set_size: Option<String>,
    /// Decimal text of a floating-point quantity, as the daemon sent it.
    pub working_set_size_smoothed: Option<String>,
    /// Decimal text of a floating-point quantity, as the daemon sent it.
    pub page_fault_rate: Option<String>,
    /// Decimal text of a floating-point quantity, as the daemon sent it.
    pub bytes_sent: Option<String>,
    /// Decimal text of a floating-point quantity, as the daemon sent it.
    pub bytes_received: Option<String>,
    /// Decimal text of a floating-point quantity, as the daemon sent it.
    pub progress_rate: Option<String>,
}

/// The fields of a `ActiveTask` as mathematical values.
pub struct ActiveTaskView {
    pub active_task_state: Option<Seq<char>>,
    pub app_version_num: Option<Seq<char>>,
    pub slot: Option<u64>,
    pub pid: Option<u64>,
    pub scheduler_state: Option<Seq<char>>,
    pub checkpoint_cpu_time: Option<Seq<char>>,
    pub fraction_done: Option<Seq<char>>,
    pub current_cpu_time: Option<Seq<char>>,
    pub elapsed_time: Option<Seq<char>>,
    pub swap_size: Option<Seq<char>>,
    pub working_set_size: Option<Seq<char>>,
    pub working_set_size_smoothed: Option<Seq<char>>,
    pub page_fault_rate: Option<Seq<char>>,
    pub bytes_sent: Option<Seq<char>>,
    pub bytes_received: Option<Seq<char>>,
    pub progress_rate: Option<Seq<char>>,
}

impl View for ActiveTask {
    type V = ActiveTaskView;

    open spec fn view(&self) -> ActiveTaskView {
        ActiveTaskView {
            active_task_state: text_view(self.active_task_state),
            app_version_num: text_view(self.app_version_num),
            slot: self.slot,
            pid: self.pid,
            scheduler_state: text_view(self.scheduler_state),
            checkpoint_cpu_time: text_view(self.checkpoint_cpu_time),
            fraction_done: text_view(self.fraction_done),
            current_cpu_time: text_view(self.current_cpu_time),
            elapsed_time: text_view(self.elapsed_time),
            swap_size: text_view(self.swap_size),
            working_set_size: text_view(self.working_set_size),
            working_set_size_smoothed: text_view(self.working_set_size_smoothed),
            page_fault_rate: text_view(self.page_fault_rate),
            bytes_sent: text_view(self.bytes_sent),
            bytes_received: text_view(self.bytes_received),
            progress_rate: text_view(self.progress_rate),
        }
    }
}

/// The `ActiveTask` that children `cs` decode to: each field from the last
/// child with its tag; unknown tags are ignored.
pub open spec fn active_task_of(cs: Seq<Element>) -> ActiveTaskView {
    ActiveTaskView {
        active_task_state: match last_named(cs, "active_task_state"@) { Some(c) => trim_opt(text_view(c.text)), None => None },
        app_version_num: match last_named(cs, "app_version_num"@) { Some(c) => trim_opt(text_view(c.text)), None => None },
        slot: match last_named(cs, "slot"@) { Some(c) => text_u64(c), None => None },
        pid: match last_named(cs, "pid"@) { Some(c) => text_u64(c), None => None },
        scheduler_state: match last_named(cs, "scheduler_state"@) { Some(c) => trim_opt(text_view(c.text)), None => None },
        checkpoint_cpu_time: match last_named(cs, "checkpoint_cpu_time"@) { Some(c) => text_view(c.text), None => None },
        fraction_done: match last_named(cs, "fraction_done"@) { Some(c) => text_view(c.text), None => None },
        current_cpu_time: match last_named(cs, "current_cpu_time"@) { Some(c) => text_view(c.text), None => None },
        elapsed_time: match last_named(cs, "elapsed_time"@) { Some(c) => text_view(c.text), None => None },
        swap_size: match last_named(cs, "swap_size"@) { Some(c) => text_view(c.text), None => None },
        working_set_size: match last_named(cs, "working_set_size"@) { Some(c) => text_view(c.text), None => None },
        working_set_size_smoothed: match last_named(cs, "working_set_size_smoothed"@) { Some(c) => text_view(c.text), None => None },
        page_fault_rate: match last_named(cs, "page_fault_rate"@) { Some(c) => text_view(c.text), None => None },
        bytes_sent: match last_named(cs, "bytes_sent"@) { Some(c) => text_view(c.text), None => None },
        bytes_received: match last_named(cs, "bytes_received"@) { Some(c) => text_view(c.text), None => None },
        progress_rate: match last_named(cs, "progress_rate"@) { Some(c) => text_view(c.text), None => None },
    }
}

/// The tag of field `k` of a `ActiveTask`.
pub open spec fn active_task_tag(k: int) -> Seq<char> {
    if k == 0 {
        "active_task_state"@
    } else if k == 1 {
        "app_version_num"@
    } else if k == 2 {
        "slot"@
    } else if k == 3 {
        "pid"@
    } else if k == 4 {
        "scheduler_state"@
    } else if k == 5 {
        "checkpoint_cpu_time"@
    } else if k == 6 {
        "fraction_done"@
    } else if k == 7 {
        "current_cpu_time"@
    } else if k == 8 {
        "elapsed_time"@
    } else if k == 9 {
        "swap_size"@
    } else if k == 10 {
        "working_set_size"@
    } else if k == 11 {
        "working_set_size_smoothed"@
    } else if k == 12 {
        "page_fault_rate"@
    } else if k == 13 {
        "bytes_sent"@
    } else if k == 14 {
        "bytes_received"@
    } else if k == 15 {
        "progress_rate"@
    } else {
        Seq::empty()
    }
}

/// The tags of the fields of a `ActiveTask`, in field order.
pub open spec fn active_task_tags() -> Seq<Seq<char>> {
    Seq::new(16, |k: int| active_task_tag(k))
}

/// The shape of field `k` of an encoded `ActiveTask`; none when it is absent.
pub open spec fn active_task_slot(v: ActiveTaskView, k: int) -> Option<Shape> {
    if k == 0 {
        match v.active_task_state { Some(x) => Some(Shape::Text("active_task_state"@, x)), None => None }
    } else if k == 1 {
        match v.app_version_num { Some(x) => Some(Shape::Text("app_version_num"@, x)), None => None }
    } else if k == 2 {
        match v.slot { Some(x) => Some(Shape::Text("slot"@, int_text(x as int))), None => None }
    } else if k == 3 {
        match v.pid { Some(x) => Some(Shape::Text("pid"@, int_text(x as int))), None => None }
    } else if k == 4 {
        match v.scheduler_state { Some(x) => Some(Shape::Text("scheduler_state"@, x)), None => None }
    } else if k == 5 {
        match v.checkpoint_cpu_time { Some(x) => Some(Shape::Text("checkpoint_cpu_time"@, x)), None => None }
    } else if k == 6 {
        match v.fraction_done { Some(x) => Some(Shape::Text("fraction_done"@, x)), None => None }
    } else if k == 7 {
        match v.current_cpu_time { Some(x) => Some(Shape::Text("current_cpu_time"@, x)), None => None }
    } else if k == 8 {
        match v.elapsed_time { Some(x) => Some(Shape::Text("elapsed_time"@, x)), None => None }
    } else if k == 9 {
        match v.swap_size { Some(x) => Some(Shape::Text("swap_size"@, x)), None => None }
    } else if k == 10 {
        match v.working_set_size { Some(x) => Some(Shape::Text("working_set_size"@, x)), None => None }
    } else if k == 11 {
        match v.working_set_size_smoothed { Some(x) => Some(Shape::Text("working_set_size_smoothed"@, x)), None => None }
    } else if k == 12 {
        match v.page_fault_rate { Some(x) => Some(Shape::Text("page_fault_rate"@, x)), None => None }
    } else if k == 13 {
        match v.bytes_sent { Some(x) => Some(Shape::Text("bytes_sent"@, x)), None => None }
    } else if k == 14 {
        match v.bytes_received { Some(x) => Some(Shape::Text("bytes_received"@, x)), None => None }
    } else if k == 15 {
        match v.progress_rate { Some(x) => Some(Shape::Text("progress_rate"@, x)), None => None }
    } else {
        None
    }
}

/// The shapes of the fields of an encoded `ActiveTask`, in field order.
pub open spec fn active_task_slots(v: ActiveTaskView) -> Seq<Option<Shape>> {
    Seq::new(16, |k: int| active_task_slot(v, k))
}

/// Whether encoding `v` keeps all it holds: trimmed texts are trimmed
/// and presence flags are set.
pub open spec fn active_task_valid(v: ActiveTaskView) -> bool {
    &&& match v.active_task_state { Some(s) => is_trimmed(s), None => true }
    &&& match v.app_version_num { Some(s) => is_trimmed(s), None => true }
    &&& match v.scheduler_state { Some(s) => is_trimmed(s), None => true }
}

/// The place of a tag among the fields of a `ActiveTask`.
spec fn active_task_tag_code(s: Seq<char>) -> int {
    if s == "active_task_state"@ {
        0
    } else if s == "app_version_num"@ {
        1
    } else if s == "slot"@ {
        2
    } else if s == "pid"@ {
        3
    } else if s == "scheduler_state"@ {
        4
    } else if s == "checkpoint_cpu_time"@ {
        5
    } else if s == "fraction_done"@ {
        6
    } else if s == "current_cpu_time"@ {
        7
    } else if s == "elapsed_time"@ {
        8
    } else if s == "swap_size"@ {
        9
    } else if s == "working_set_size"@ {
        10
    } else if s == "working_set_size_smoothed"@ {
        11
    } else if s == "page_fault_rate"@ {
        12
    } else if s == "bytes_sent"@ {
        13
    } else if s == "bytes_received"@ {
        14
    } else if s == "progress_rate"@ {
        15
    } else {
        -1
    }
}

proof fn lemma_active_task_tags_distinct()
    ensures
        distinct(active_task_tags()),
{
    reveal_strlit("active_task_state");
    reveal_strlit("app_version_num");
    reveal_strlit("bytes_received");
    reveal_strlit("bytes_sent");
    reveal_strlit("checkpoint_cpu_time");
    reveal_strlit("current_cpu_time");
    reveal_strlit("elapsed_time");
    reveal_strlit("fraction_done");
    reveal_strlit("page_fault_rate");
    reveal_strlit("pid");
    reveal_strlit("progress_rate");
    reveal_strlit("scheduler_state");
    reveal_strlit("slot");
    reveal_strlit("swap_size");
    reveal_strlit("working_set_size");
    reveal_strlit("working_set_size_smoothed");
    let tags = active_task_tags();
    // One case per field; tags of equal length differ at the character given.
    assert forall|i: int| 0 <= i < tags.len() implies active_task_tag_code(#[trigger] tags[i]) == i by {
        if i == 0 {
            assert(tags[i] == "active_task_state"@);
        } else if i == 1 {
            assert(tags[i] == "app_version_num"@);
        } else if i == 2 {
            assert(tags[i] == "slot"@);
        } else if i == 3 {
            assert(tags[i] == "pid"@);
        } else if i == 4 {
            assert(tags[i] == "scheduler_state"@);
            assert("scheduler_state"@[0] != "app_version_num"@[0]);
        } else if i == 5 {
            assert(tags[i] == "checkpoint_cpu_time"@);
        } else if i == 6 {
            assert(tags[i] == "fraction_done"@);
        } else if i == 7 {
            assert(tags[i] == "current_cpu_time"@);
        } else if i == 8 {
            assert(tags[i] == "elapsed_time"@);
        } else if i == 9 {
            assert(tags[i] == "swap_size"@);
        } else if i == 10 {
            assert(tags[i] == "working_set_size"@);
            assert("working_set_size"@[0] != "current_cpu_time"@[0]);
        } else if i == 11 {
            assert(tags[i] == "working_set_size_smoothed"@);
        } else if i == 12 {
            assert(tags[i] == "page_fault_rate"@);
            assert("page_fault_rate"@[0] != "app_version_num"@[0]);
            assert("page_fault_rate"@[0] != "scheduler_state"@[0]);
        } else if i == 13 {
            assert(tags[i] == "bytes_sent"@);
        } else if i == 14 {
            assert(tags[i] == "bytes_received"@);
        } else if i == 15 {
            assert(tags[i] == "progress_rate"@);
            assert("progress_rate"@[0] != "fraction_done"@[0]);
        }
    }
    lemma_distinct_by_code(tags, |s: Seq<char>| active_task_tag_code(s));
}

proof fn lemma_active_task_slots_tagged(v: ActiveTaskView)
    ensures
        slots_tagged(active_task_slots(v), active_task_tags()),
{
    let slots = active_task_slots(v);
    let tags = active_task_tags();
    // One case per field, so that each slot and tag is evaluated.
    assert forall|k: int| 0 <= k < slots.len() && #[trigger] slots[k] is Some implies shape_tag(slots[k]->0) == tags[k] by {
        if k == 0 {
        } else if k == 1 {
        } else if k == 2 {
        } else if k == 3 {
        } else if k == 4 {
        } else if k == 5 {
        } else if k == 6 {
        } else if k == 7 {
        } else if k == 8 {
        } else if k == 9 {
        } else if k == 10 {
        } else if k == 11 {
        } else if k == 12 {
        } else if k == 13 {
        } else if k == 14 {
        } else if k == 15 {
        }
    }
}

/// Decoding the encoding of a `ActiveTask` gives it back: children in the
/// shape of its fields decode to it, field for field.
pub proof fn lemma_active_task_round_trip(v: ActiveTaskView, cs: Seq<Element>)
    requires
        active_task_valid(v),
        all_fit_flat(cs, flatten(active_task_slots(v))),
    ensures
        active_task_of(cs) == v,
{
    lemma_flat_fits(cs, flatten(active_task_slots(v)));
    lemma_active_task_tags_distinct();
    lemma_active_task_slots_tagged(v);
    let slots = active_task_slots(v);
    let tags = active_task_tags();
    lemma_find_field(cs, slots, tags, 0);
    if let Some(x) = v.active_task_state { lemma_trimmed(x); }
    lemma_find_field(cs, slots, tags, 1);
    if let Some(x) = v.app_version_num { lemma_trimmed(x); }
    lemma_find_field(cs, slots, tags, 2);
    if let Some(x) = v.slot { lemma_int_text_reads_back(x as int); }
    lemma_find_field(cs, slots, tags, 3);
    if let Some(x) = v.pid { lemma_int_text_reads_back(x as int); }
    lemma_find_field(cs, slots, tags, 4);
    if let Some(x) = v.scheduler_state { lemma_trimmed(x); }
    lemma_find_field(cs, slots, tags, 5);
    lemma_find_field(cs, slots, tags, 6);
    lemma_find_field(cs, slots, tags, 7);
    lemma_find_field(cs, slots, tags, 8);
    lemma_find_field(cs, slots, tags, 9);
    lemma_find_field(cs, slots, tags, 10);
    lemma_find_field(cs, slots, tags, 11);
    lemma_find_field(cs, slots, tags, 12);
    lemma_find_field(cs, slots, tags, 13);
    lemma_find_field(cs, slots, tags, 14);
    lemma_find_field(cs, slots, tags, 15);
}

/// Whatever children decode to, it is a valid `ActiveTask`.
pub proof fn lemma_active_task_decoded_valid(cs: Seq<Element>)
    ensures
        active_task_valid(active_task_of(cs)),
{
    if let Some(c) = last_named(cs, "active_task_state"@) {
        if let Some(x) = text_view(c.text) { lemma_trimmed(x); }
    }
    if let Some(c) = last_named(cs, "app_version_num"@) {
        if let Some(x) = text_view(c.text) { lemma_trimmed(x); }
    }
    if let Some(c) = last_named(cs, "scheduler_state"@) {
        if let Some(x) = text_view(c.text) { lemma_trimmed(x); }
    }
}

/// Encoding a decoded `ActiveTask` keeps what the tree said: children in the
/// shape of the decoded record decode to that same record.
pub proof fn lemma_active_task_reencode(cs: Seq<Element>, encoded: Seq<Element>)
    requires
        all_fit_flat(encoded, flatten(active_task_slots(active_task_of(cs)))),
    ensures
        active_task_of(encoded) == active_task_of(cs),
{
    lemma_active_task_decoded_valid(cs);
    lemma_active_task_round_trip(active_task_of(cs), encoded);
}

/// Decoding ignores children whose tags a `ActiveTask` does not hold: children
/// that, once those are left out, are in the shape of `v`'s fields decode
/// to `v`, wherever the unknown children stand.
pub proof fn lemma_active_task_round_trip_among_unknown(v: ActiveTaskView, cs: Seq<Element>)
    requires
        active_task_valid(v),
        all_fit_flat(known_only(cs, active_task_tags()), flatten(active_task_slots(v))),
    ensures
        active_task_of(cs) == v,
{
    let tags = active_task_tags();
    lemma_active_task_round_trip(v, known_only(cs, tags));
    lemma_last_named_known(cs, tags, 0);
    assert(tags[0] == "active_task_state"@);
    lemma_last_named_known(cs, tags, 1);
    assert(tags[1] == "app_version_num"@);
    lemma_last_named_known(cs, tags, 2);
    assert(tags[2] == "slot"@);
    lemma_last_named_known(cs, tags, 3);
    assert(tags[3] == "pid"@);
    lemma_last_named_known(cs, tags, 4);
    assert(tags[4] == "scheduler_state"@);
    lemma_last_named_known(cs, tags, 5);
    assert(tags[5] == "checkpoint_cpu_time"@);
    lemma_last_named_known(cs, tags, 6);
    assert(tags[6] == "fraction_done"@);
    lemma_last_named_known(cs, tags, 7);
    assert(tags[7] == "current_cpu_time"@);
    lemma_last_named_known(cs, tags, 8);
    assert(tags[8] == "elapsed_time"@);
    lemma_last_named_known(cs, tags, 9);
    assert(tags[9] == "swap_size"@);
    lemma_last_named_known(cs, tags, 10);
    assert(tags[10] == "working_set_size"@);
    lemma_last_named_known(cs, tags, 11);
    assert(tags[11] == "working_set_size_smoothed"@);
    lemma_last_named_known(cs, tags, 12);
    assert(tags[12] == "page_fault_rate"@);
    lemma_last_named_known(cs, tags, 13);
    assert(tags[13] == "bytes_sent"@);
    lemma_last_named_known(cs, tags, 14);
    assert(tags[14] == "bytes_received"@);
    lemma_last_named_known(cs, tags, 15);
    assert(tags[15] == "progress_rate"@);
}

impl ActiveTask {
    /// Decodes the children of `node`: each field from the last child
    /// with its tag, absent when there is none or its text does not read.
    pub fn from_element(node: &Element) -> (r: ActiveTask)
        ensures
            r@ == active_task_of(node.children@),
    {
        ActiveTask {
            active_task_state: match last_child_named(node, "active_task_state") { Some(c) => trimmed_optional(&c.text), None => None },
            app_version_num: match last_child_named(node, "app_version_num") { Some(c) => trimmed_optional(&c.text), None => None },
            slot: match last_child_named(node, "slot") { Some(c) => eval_node_u64(c), None => None },
            pid: match last_child_named(node, "pid") { Some(c) => eval_node_u64(c), None => None },
            scheduler_state: match last_child_named(node, "scheduler_state") { Some(c) => trimmed_optional(&c.text), None => None },
            checkpoint_cpu_time: match last_child_named(node, "checkpoint_cpu_time") { Some(c) => copy_text(&c.text), None => None },
            fraction_done: match last_child_named(node, "fraction_done") { Some(c) => copy_text(&c.text), None => None },
            current_cpu_time: match last_child_named(node, "current_cpu_time") { Some(c) => copy_text(&c.text), None => None },
            elapsed_time: match last_child_named(node, "elapsed_time") { Some(c) => copy_text(&c.text), None => None },
            swap_size: match last_child_named(node, "swap_size") { Some(c) => copy_text(&c.text), None => None },
            working_set_size: match last_child_named(node, "working_set_size") { Some(c) => copy_text(&c.text), None => None },
            working_set_size_smoothed: match last_child_named(node, "working_set_size_smoothed") { Some(c) => copy_text(&c.text), None => None },
            page_fault_rate: match last_child_named(node, "page_fault_rate") { Some(c) => copy_text(&c.text), None => None },
            bytes_sent: match last_child_named(node, "bytes_sent") { Some(c) => copy_text(&c.text), None => None },
            bytes_received: match last_child_named(node, "bytes_received") { Some(c) => copy_text(&c.text), None => None },
            progress_rate: match last_child_named(node, "progress_rate") { Some(c) => copy_text(&c.text), None => None },
        }
    }

    /// Encodes the record as an element tagged `tag`, one child per
    /// present field in field order; absent fields are left out.
    pub fn to_element(&self, tag: &str) -> (r: Element)
        ensures
            r.name@ == tag@,
            r.text is None,
            r.cdata is None,
            all_fit_flat(r.children@, flatten(active_task_slots(self@))),
    {
        let ghost slots = active_task_slots(self@);
        let mut r = Element::new(tag);
        assert(slots.subrange(0, 0) =~= Seq::<Option<Shape>>::empty());
        self.encode_active_task_state(&mut r);
        self.encode_app_version_num(&mut r);
        self.encode_slot(&mut r);
        self.encode_pid(&mut r);
        self.encode_scheduler_state(&mut r);
        self.encode_checkpoint_cpu_time(&mut r);
        self.encode_fraction_done(&mut r);
        self.encode_current_cpu_time(&mut r);
        self.encode_elapsed_time(&mut r);
        self.encode_swap_size(&mut r);
        self.encode_working_set_size(&mut r);
        self.encode_working_set_size_smoothed(&mut r);
        self.encode_page_fault_rate(&mut r);
        self.encode_bytes_sent(&mut r);
        self.encode_bytes_received(&mut r);
        self.encode_progress_rate(&mut r);
        assert(slots.subrange(0, 16) =~= slots);
        r
    }

    /// Appends the child encoding `active_task_state`, when it is present.
    fn encode_active_task_state(&self, r: &mut Element)
        requires
            all_fit_flat(old(r).children@, flatten(active_task_slots(self@).subrange(0, 0))),
        ensures
            final(r).name == old(r).name,
            final(r).text == old(r).text,
            final(r).cdata == old(r).cdata,
            all_fit_flat(final(r).children@, flatten(active_task_slots(self@).subrange(0, 1))),
    {
        let c = match &self.active_task_state { Some(x) => Some(text_child("active_task_state", x.clone())), None => None };
        proof { lemma_push_slot_flat(r.children@, active_task_slots(self@), 0, c); }
        if let Some(e) = c {
            r.push(e);
        }
    }

    /// Appends the child encoding `app_version_num`, when it is present.
    fn encode_app_version_num(&self, r: &mut Element)
        requires
            all_fit_flat(old(r).children@, flatten(active_task_slots(self@).subrange(0, 1))),
        ensures
            final(r).name == old(r).name,
            final(r).text == old(r).text,
            final(r).cdata == old(r).cdata,
            all_fit_flat(final(r).children@, flatten(active_task_slots(self@).subrange(0, 2))),
    {
        let c = match &self.app_version_num { Some(x) => Some(text_child("app_version_num", x.clone())), None => None };
        proof { lemma_push_slot_flat(r.children@, active_task_slots(self@), 1, c); }
        if let Some(e) = c {
            r.push(e);
        }
    }

    /// Appends the child encoding `slot`, when it is present.
    fn encode_slot(&self, r: &mut Element)
        requires
            all_fit_flat(old(r).children@, flatten(active_task_slots(self@).subrange(0, 2))),
        ensures
            final(r).name == old(r).name,
            final(r).text == old(r).text,
            final(r).cdata == old(r).cdata,
            all_fit_flat(final(r).children@, flatten(active_task_slots(self@).subrange(0, 3))),
    {
        let c = match &self.slot { Some(x) => Some(text_child("slot", format_u64(*x))), None => None };
        proof { lemma_push_slot_flat(r.children@, active_task_slots(self@), 2, c); }
        if let Some(e) = c {
            r.push(e);
        }
    }

    /// Appends the child encoding `pid`, when it is present.
    fn encode_pid(&self, r: &mut Element)
        requires
            all_fit_flat(old(r).children@, flatten(active_task_slots(self@).subrange(0, 3))),
        ensures
            final(r).name == old(r).name,
            final(r).text == old(r).text,
            final(r).cdata == old(r).cdata,
            all_fit_flat(final(r).children@, flatten(active_task_slots(self@).subrange(0, 4))),
    {
        let c = match &self.pid { Some(x) => Some(text_child("pid", format_u64(*x))), None => None };
        proof { lemma_push_slot_flat(r.children@, active_task_slots(self@), 3, c); }
        if let Some(e) = c {
            r.push(e);
        }
    }

    /// Appends the child encoding `scheduler_state`, when it is present.
    fn encode_scheduler_state(&self, r: &mut Element)
        requires
            all_fit_flat(old(r).children@, flatten(active_task_slots(self@).subrange(0, 4))),
        ensures
            final(r).name == old(r).name,
            final(r).text == old(r).text,
            final(r).cdata == old(r).cdata,
            all_fit_flat(final(r).children@, flatten(active_task_slots(self@).subrange(0, 5))),
    {
        let c = match &self.scheduler_state { Some(x) => Some(text_child("scheduler_state", x.clone())), None => None };
        proof { lemma_push_slot_flat(r.children@, active_task_slots(self@), 4, c); }
        if let Some(e) = c {
            r.push(e);
        }
    }

    /// Appends the child encoding `checkpoint_cpu_time`, when it is present.
    fn encode_checkpoint_cpu_time(&self, r: &mut Element)
        requires
            all_fit_flat(old(r).children@, flatten(active_task_slots(self@).subrange(0, 5))),
        ensures
            final(r).name == old(r).name,
            final(r).text == old(r).text,
            final(r).cdata == old(r).cdata,
            all_fit_flat(final(r).children@, flatten(active_task_slots(self@).subrange(0, 6))),
    {
        let c = match &self.checkpoint_cpu_time { Some(x) => Some(text_child("checkpoint_cpu_time", x.clone())), None => None };
        proof { lemma_push_slot_flat(r.children@, active_task_slots(self@), 5, c); }
        if let Some(e) = c {
            r.push(e);
        }
    }

    /// Appends the child encoding `fraction_done`, when it is present.
    fn encode_fraction_done(&self, r: &mut Element)
        requires
            all_fit_flat(old(r).children@, flatten(active_task_slots(self@).subrange(0, 6))),
        ensures
            final(r).name == old(r).name,
            final(r).text == old(r).text,
            final(r).cdata == old(r).cdata,
            all_fit_flat(final(r).children@, flatten(active_task_slots(self@).subrange(0, 7))),
    {
        let c = match &self.fraction_done { Some(x) => Some(text_child("fraction_done", x.clone())), None => None };
        proof { lemma_push_slot_flat(r.children@, active_task_slots(self@), 6, c); }
        if let Some(e) = c {
            r.push(e);
        }
    }

    /// Appends the child encoding `current_cpu_time`, when it is present.
    fn encode_current_cpu_time(&self, r: &mut Element)
        requires
            all_fit_flat(old(r).children@, flatten(active_task_slots(self@).subrange(0, 7))),
        ensures
            final(r).name == old(r).name,
            final(r).text == old(r).text,
            final(r).cdata == old(r).cdata,
            all_fit_flat(final(r).children@, flatten(active_task_slots(self@).subrange(0, 8))),
    {
        let c = match &self.current_cpu_time { Some(x) => Some(text_child("current_cpu_time", x.clone())), None => None };
        proof { lemma_push_slot_flat(r.children@, active_task_slots(self@), 7, c); }
        if let Some(e) = c {
            r.push(e);
        }
    }

    /// Appends the child encoding `elapsed_time`, when it is present.
    fn encode_elapsed_time(&self, r: &mut Element)
        requires
            all_fit_flat(old(r).children@, flatten(active_task_slots(self@).subrange(0, 8))),
        ensures
            final(r).name == old(r).name,
            final(r).text == old(r).text,
            final(r).cdata == old(r).cdata,
            all_fit_flat(final(r).children@, flatten(active_task_slots(self@).subrange(0, 9))),
    {
        let c = match &self.elapsed_time { Some(x) => Some(text_child("elapsed_time", x.clone())), None => None };
        proof { lemma_push_slot_flat(r.children@, active_task_slots(self@), 8, c); }
        if let Some(e) = c {
            r.push(e);
        }
    }

    /// Appends the child encoding `swap_size`, when it is present.
    fn encode_swap_size(&self, r: &mut Element)
        requires
            all_fit_flat(old(r).children@, flatten(active_task_slots(self@).subrange(0, 9))),
        ensures
            final(r).name == old(r).name,
            final(r).text == old(r).text,
            final(r).cdata == old(r).cdata,
            all_fit_flat(final(r).children@, flatten(active_task_slots(self@).subrange(0, 10))),
    {
        let c = match &self.swap_size { Some(x) => Some(text_child("swap_size", x.clone())), None => None };
        proof { lemma_push_slot_flat(r.children@, active_task_slots(self@), 9, c); }
        if let Some(e) = c {
            r.push(e);
        }
    }

    /// Appends the child encoding `working_set_size`, when it is present.
    fn encode_working_set_size(&self, r: &mut Element)
        requires
            all_fit_flat(old(r).children@, flatten(active_task_slots(self@).subrange(0, 10))),
        ensures
            final(r).name == old(r).name,
            final(r).text == old(r).text,
            final(r).cdata == old(r).cdata,
            all_fit_flat(final(r).children@, flatten(active_task_slots(self@).subrange(0, 11))),
    {
        let c = match &self.working_set_size { Some(x) => Some(text_child("working_set_size", x.clone())), None => None };
        proof { lemma_push_slot_flat(r.children@, active_task_slots(self@), 10, c); }
        if let Some(e) = c {
            r.push(e);
        }
    }

    /// Appends the child encoding `working_set_size_smoothed`, when it is present.
    fn encode_working_set_size_smoothed(&self, r: &mut Element)
        requires
            all_fit_flat(old(r).children@, flatten(active_task_slots(self@).subrange(0, 11))),
        ensures
            final(r).name == old(r).name,
            final(r).text == old(r).text,
            final(r).cdata == old(r).cdata,
            all_fit_flat(final(r).children@, flatten(active_task_slots(self@).subrange(0, 12))),
    {
        let c = match &self.working_set_size_smoothed { Some(x) => Some(text_child("working_set_size_smoothed", x.clone())), None => None };
        proof { lemma_push_slot_flat(r.children@, active_task_slots(self@), 11, c); }
        if let Some(e) = c {
            r.push(e);
        }
    }

    /// Appends the child encoding `page_fault_rate`, when it is present.
    fn encode_page_fault_rate(&self, r: &mut Element)
        requires
            all_fit_flat(old(r).children@, flatten(active_task_slots(self@).subrange(0, 12))),
        ensures
            final(r).name == old(r).name,
            final(r).text == old(r).text,
            final(r).cdata == old(r).cdata,
            all_fit_flat(final(r).children@, flatten(active_task_slots(self@).subrange(0, 13))),
    {
        let c = match &self.page_fault_rate { Some(x) => Some(text_child("page_fault_rate", x.clone())), None => None };
        proof { lemma_push_slot_flat(r.children@, active_task_slots(self@), 12, c); }
        if let Some(e) = c {
            r.push(e);
        }
    }

    /// Appends the child encoding `bytes_sent`, when it is present.
    fn encode_bytes_sent(&self, r: &mut Element)
        requires
            all_fit_flat(old(r).children@, flatten(active_task_slots(self@).subrange(0, 13))),
        ensures
            final(r).name == old(r).name,
            final(r).text == old(r).text,
            final(r).cdata == old(r).cdata,
            all_fit_flat(final(r).children@, flatten(active_task_slots(self@).subrange(0, 14))),
    {
        let c = match &self.bytes_sent { Some(x) => Some(text_child("bytes_sent", x.clone())), None => None };
        proof { lemma_push_slot_flat(r.children@, active_task_slots(self@), 13, c); }
        if let Some(e) = c {
            r.push(e);
        }
    }

    /// Appends the child encoding `bytes_received`, when it is present.
    fn encode_bytes_received(&self, r: &mut Element)
        requires
            all_fit_flat(old(r).children@, flatten(active_task_slots(self@).subrange(0, 14))),
        ensures
            final(r).name == old(r).name,
            final(r).text == old(r).text,
            final(r).cdata == old(r).cdata,
            all_fit_flat(final(r).children@, flatten(active_task_slots(self@).subrange(0, 15))),
    {
        let c = match &self.bytes_received { Some(x) => Some(text_child("bytes_received", x.clone())), None => None };
        proof { lemma_push_slot_flat(r.children@, active_task_slots(self@), 14, c); }
        if let Some(e) = c {
            r.push(e);
        }
    }

    /// Appends the child encoding `progress_rate`, when it is present.
    fn encode_progress_rate(&self, r: &mut Element)
        requires
            all_fit_flat(old(r).children@, flatten(active_task_slots(self@).subrange(0, 15))),
        ensures
            final(r).name == old(r).name,
            final(r).text == old(r).text,
            final(r).cdata == old(r).cdata,
            all_fit_flat(final(r).children@, flatten(active_task_slots(self@).subrange(0, 16))),
    {
        let c = match &self.progress_rate { Some(x) => Some(text_child("progress_rate", x.clone())), None => None };
        proof { lemma_push_slot_flat(r.children@, active_task_slots(self@), 15, c); }
        if let Some(e) = c {
            r.push(e);
        }
    }
}

/// A task of the daemon, with its running state when it runs. Every field is optional: an absent element leaves it unknown.
#[derive(Clone, Debug, Default, PartialEq)]
pub struct TaskResult {
    pub name: Option<String>,
    pub wu_name: Option<String>,
    pub platform: Option<String>,
    pub version_num: Option<i64>,
    pub plan_class: Option<String>,
    pub project_url: Option<String>,
    /// Decimal text of a floating-point quantity, as the daemon sent it.
    pub final_cpu_time: Option<String>,
    /// Decimal text of a floating-point quantity, as the daemon sent it.
    pub final_elapsed_time: Option<String>,
    pub exit_status: Option<i64>,
    pub state: Option<i64>,
    /// Decimal text of a floating-point quantity, as the daemon sent it.
    pub report_deadline: Option<String>,
    /// Decimal text of a floating-point quantity, as the daemon sent it.
    pub received_time: Option<String>,
    /// Decimal text of a floating-point quantity, as the daemon sent it.
    pub estimated_cpu_time_remaining: Option<String>,
    /// Decimal text of a floating-point quantity, as the daemon sent it.
    pub completed_time: Option<String>,
    pub active_task: Option<ActiveTask>,
}

/// The fields of a `TaskResult` as mathematical values.
pub struct TaskResultView {
    pub name: Option<Seq<char>>,
    pub wu_name: Option<Seq<char>>,
    pub platform: Option<Seq<char>>,
    pub version_num: Option<i64>,
    pub plan_class: Option<Seq<char>>,
    pub project_url: Option<Seq<char>>,
    pub final_cpu_time: Option<Seq<char>>,
    pub final_elapsed_time: Option<Seq<char>>,
    pub exit_status: Option<i64>,
    pub state: Option<i64>,
    pub report_deadline: Option<Seq<char>>,
    pub received_time: Option<Seq<char>>,
    pub estimated_cpu_time_remaining: Option<Seq<char>>,
    pub completed_time: Option<Seq<char>>,
    pub active_task: Option<ActiveTaskView>,
}

impl View for TaskResult {
    type V = TaskResultView;

    open spec fn view(&self) -> TaskResultView {
        TaskResultView {
            name: text_view(self.name),
            wu_name: text_view(self.wu_name),
            platform: text_view(self.platform),
            version_num: self.version_num,
            plan_class: text_view(self.plan_class),
            project_url: text_view(self.project_url),
            final_cpu_time: text_view(self.final_cpu_time),
            final_elapsed_time: text_view(self.final_elapsed_time),
            exit_status: self.exit_status,
            state: self.state,
            report_deadline: text_view(self.report_deadline),
            received_time: text_view(self.received_time),
            estimated_cpu_time_remaining: text_view(self.estimated_cpu_time_remaining),
            completed_time: text_view(self.completed_time),
            active_task: match self.active_task { Some(a) => Some(a@), None => None },
        }
    }
}

/// The `TaskResult` that children `cs` decode to: each field from the last
/// child with its tag; unknown tags are ignored.
pub open spec fn task_result_of(cs: Seq<Element>) -> TaskResultView {
    TaskResultView {
        name: match last_named(cs, "name"@) { Some(c) => trim_opt(text_view(c.text)), None => None },
        wu_name: match last_named(cs, "wu_name"@) { Some(c) => trim_opt(text_view(c.text)), None => None },
        platform: match last_named(cs, "platform"@) { Some(c) => trim_opt(text_view(c.text)), None => None },
        version_num: match last_named(cs, "version_num"@) { Some(c) => text_i64(c), None => None },
        plan_class: match last_named(cs, "plan_class"@) { Some(c) => trim_opt(text_view(c.text)), None => None },
        project_url: match last_named(cs, "project_url"@) { Some(c) => trim_opt(text_view(c.text)), None => None },
        final_cpu_time: match last_named(cs, "final_cpu_time"@) { Some(c) => text_view(c.text), None => None },
        final_elapsed_time: match last_named(cs, "final_elapsed_time"@) { Some(c) => text_view(c.text), None => None },
        exit_status: match last_named(cs, "exit_status"@) { Some(c) => text_i64(c), None => None },
        state: match last_named(cs, "state"@) { Some(c) => text_i64(c), None => None },
        report_deadline: match last_named(cs, "report_deadline"@) { Some(c) => text_view(c.text), None => None },
        received_time: match last_named(cs, "received_time"@) { Some(c) => text_view(c.text), None => None },
        estimated_cpu_time_remaining: match last_named(cs, "estimated_cpu_time_remaining"@) { Some(c) => text_view(c.text), None => None },
        completed_time: match last_named(cs, "completed_time"@) { Some(c) => text_view(c.text), None => None },
        active_task: match last_named(cs, "active_task"@) { Some(c) => Some(active_task_of(c.children@)), None => None },
    }
}

/// The tag of field `k` of a `TaskResult`.
pub open spec fn task_result_tag(k: int) -> Seq<char> {
    if k == 0 {
        "name"@
    } else if k == 1 {
        "wu_name"@
    } else if k == 2 {
        "platform"@
    } else if k == 3 {
        "version_num"@
    } else if k == 4 {
        "plan_class"@
    } else if k == 5 {
        "project_url"@
    } else if k == 6 {
        "final_cpu_time"@
    } else if k == 7 {
        "final_elapsed_time"@
    } else if k == 8 {
        "exit_status"@
    } else if k == 9 {
        "state"@
    } else if k == 10 {
        "report_deadline"@
    } else if k == 11 {
        "received_time"@
    } else if k == 12 {
        "estimated_cpu_time_remaining"@
    } else if k == 13 {
        "completed_time"@
    } else if k == 14 {
        "active_task"@
    } else {
        Seq::empty()
    }
}

/// The tags of the fields of a `TaskResult`, in field order.
pub open spec fn task_result_tags() -> Seq<Seq<char>> {
    Seq::new(15, |k: int| task_result_tag(k))
}

/// The shape of field `k` of an encoded `TaskResult`; none when it is absent.
pub open spec fn task_result_slot(v: TaskResultView, k: int) -> Option<Shape> {
    if k == 0 {
        match v.name { Some(x) => Some(Shape::Text("name"@, x)), None => None }
    } else if k == 1 {
        match v.wu_name { Some(x) => Some(Shape::Text("wu_name"@, x)), None => None }
    } else if k == 2 {
        match v.platform { Some(x) => Some(Shape::Text("platform"@, x)), None => None }
    } else if k == 3 {
        match v.version_num { Some(x) => Some(Shape::Text("version_num"@, int_text(x as int))), None => None }
    } else if k == 4 {
        match v.plan_class { Some(x) => Some(Shape::Text("plan_class"@, x)), None => None }
    } else if k == 5 {
        match v.project_url { Some(x) => Some(Shape::Text("project_url"@, x)), None => None }
    } else if k == 6 {
        match v.final_cpu_time { Some(x) => Some(Shape::Text("final_cpu_time"@, x)), None => None }
    } else if k == 7 {
        match v.final_elapsed_time { Some(x) => Some(Shape::Text("final_elapsed_time"@, x)), None => None }
    } else if k == 8 {
        match v.exit_status { Some(x) => Some(Shape::Text("exit_status"@, int_text(x as int))), None => None }
    } else if k == 9 {
        match v.state { Some(x) => Some(Shape::Text("state"@, int_text(x as int))), None => None }
    } else if k == 10 {
        match v.report_deadline { Some(x) => Some(Shape::Text("report_deadline"@, x)), None => None }
    } else if k == 11 {
        match v.received_time { Some(x) => Some(Shape::Text("received_time"@, x)), None => None }
    } else if k == 12 {
        match v.estimated_cpu_time_remaining { Some(x) => Some(Shape::Text("estimated_cpu_time_remaining"@, x)), None => None }
    } else if k == 13 {
        match v.completed_time { Some(x) => Some(Shape::Text("completed_time"@, x)), None => None }
    } else if k == 14 {
        match v.active_task { Some(x) => Some(Shape::Nested("active_task"@, flatten(active_task_slots(x)))), None => None }
    } else {
        None
    }
}

/// The shapes of the fields of an encoded `TaskResult`, in field order.
pub open spec fn task_result_slots(v: TaskResultView) -> Seq<Option<Shape>> {
    Seq::new(15, |k: int| task_result_slot(v, k))
}

/// Whether encoding `v` keeps all it holds: trimmed texts are trimmed
/// and presence flags are set.
pub open spec fn task_result_valid(v: TaskResultView) -> bool {
    &&& match v.name { Some(s) => is_trimmed(s), None => true }
    &&& match v.wu_name { Some(s) => is_trimmed(s), None => true }
    &&& match v.platform { Some(s) => is_trimmed(s), None => true }
    &&& match v.plan_class { Some(s) => is_trimmed(s), None => true }
    &&& match v.project_url { Some(s) => is_trimmed(s), None => true }
    &&& match v.active_task { Some(a) => active_task_valid(a), None => true }
}

/// The place of a tag among the fields of a `TaskResult`.
spec fn task_result_tag_code(s: Seq<char>) -> int {
    if s == "name"@ {
        0
    } else if s == "wu_name"@ {
        1
    } else if s == "platform"@ {
        2
    } else if s == "version_num"@ {
        3
    } else if s == "plan_class"@ {
        4
    } else if s == "project_url"@ {
        5
    } else if s == "final_cpu_time"@ {
        6
    } else if s == "final_elapsed_time"@ {
        7
    } else if s == "exit_status"@ {
        8
    } else if s == "state"@ {
        9
    } else if s == "report_deadline"@ {
        10
    } else if s == "received_time"@ {
        11
    } else if s == "estimated_cpu_time_remaining"@ {
        12
    } else if s == "completed_time"@ {
        13
    } else if s == "active_task"@ {
        14
    } else {
        -1
    }
}

proof fn lemma_task_result_tags_distinct()
    ensures
        distinct(task_result_tags()),
{
    reveal_strlit("active_task");
    reveal_strlit("completed_time");
    reveal_strlit("estimated_cpu_time_remaining");
    reveal_strlit("exit_status");
    reveal_strlit("final_cpu_time");
    reveal_strlit("final_elapsed_time");
    reveal_strlit("name");
    reveal_strlit("plan_class");
    reveal_strlit("platform");
    reveal_strlit("project_url");
    reveal_strlit("received_time");
    reveal_strlit("report_deadline");
    reveal_strlit("state");
    reveal_strlit("version_num");
    reveal_strlit("wu_name");
    let tags = task_result_tags();
    // One case per field; tags of equal length differ at the character given.
    assert forall|i: int| 0 <= i < tags.len() implies task_result_tag_code(#[trigger] tags[i]) == i by {
        if i == 0 {
            assert(tags[i] == "name"@);
        } else if i == 1 {
            assert(tags[i] == "wu_name"@);
        } else if i == 2 {
            assert(tags[i] == "platform"@);
        } else if i == 3 {
            assert(tags[i] == "version_num"@);
        } else if i == 4 {
            assert(tags[i] == "plan_class"@);
        } else if i == 5 {
            assert(tags[i] == "project_url"@);
            assert("project_url"@[0] != "version_num"@[0]);
        } else if i == 6 {
            assert(tags[i] == "final_cpu_time"@);
        } else if i == 7 {
            assert(tags[i] == "final_elapsed_time"@);
        } else if i == 8 {
            assert(tags[i] == "exit_status"@);
            assert("exit_status"@[0] != "version_num"@[0]);
            assert("exit_status"@[0] != "project_url"@[0]);
        } else if i == 9 {
            assert(tags[i] == "state"@);
        } else if i == 10 {
            assert(tags[i] == "report_deadline"@);
        } else if i == 11 {
            assert(tags[i] == "received_time"@);
        } else if i == 12 {
            assert(tags[i] == "estimated_cpu_time_remaining"@);
        } else if i == 13 {
            assert(tags[i] == "completed_time"@);
            assert("completed_time"@[0] != "final_cpu_time"@[0]);
        } else if i == 14 {
            assert(tags[i] == "active_task"@);
            assert("active_task"@[0] != "version_num"@[0]);
            assert("active_task"@[0] != "project_url"@[0]);
            assert("active_task"@[0] != "exit_status"@[0]);
        }
    }
    lemma_distinct_by_code(tags, |s: Seq<char>| task_result_tag_code(s));
}

proof fn lemma_task_result_slots_tagged(v: TaskResultView)
    ensures
        slots_tagged(task_result_slots(v), task_result_tags()),
{
    let slots = task_result_slots(v);
    let tags = task_result_tags();
    // One case per field, so that each slot and tag is evaluated.
    assert forall|k: int| 0 <= k < slots.len() && #[trigger] slots[k] is Some implies shape_tag(slots[k]->0) == tags[k] by {
        if k == 0 {
        } else if k == 1 {
        } else if k == 2 {
        } else if k == 3 {
        } else if k == 4 {
        } else if k == 5 {
        } else if k == 6 {
        } else if k == 7 {
        } else if k == 8 {
        } else if k == 9 {
        } else if k == 10 {
        } else if k == 11 {
        } else if k == 12 {
        } else if k == 13 {
        } else if k == 14 {
        }
    }
}

/// Decoding the encoding of a `TaskResult` gives it back: children in the
/// shape of its fields decode to it, field for field.
pub proof fn lemma_task_result_round_trip(v: TaskResultView, cs: Seq<Element>)
    requires
        task_result_valid(v),
        all_fit(cs, flatten(task_result_slots(v))),
    ensures
        task_result_of(cs) == v,
{
    lemma_task_result_tags_distinct();
    lemma_task_result_slots_tagged(v);
    let slots = task_result_slots(v);
    let tags = task_result_tags();
    lemma_find_field(cs, slots, tags, 0);
    if let Some(x) = v.name { lemma_trimmed(x); }
    lemma_find_field(cs, slots, tags, 1);
    if let Some(x) = v.wu_name { lemma_trimmed(x); }
    lemma_find_field(cs, slots, tags, 2);
    if let Some(x) = v.platform { lemma_trimmed(x); }
    lemma_find_field(cs, slots, tags, 3);
    if let Some(x) = v.version_num { lemma_int_text_reads_back(x as int); }
    lemma_find_field(cs, slots, tags, 4);
    if let Some(x) = v.plan_class { lemma_trimmed(x); }
    lemma_find_field(cs, slots, tags, 5);
    if let Some(x) = v.project_url { lemma_trimmed(x); }
    lemma_find_field(cs, slots, tags, 6);
    lemma_find_field(cs, slots, tags, 7);
    lemma_find_field(cs, slots, tags, 8);
    if let Some(x) = v.exit_status { lemma_int_text_reads_back(x as int); }
    lemma_find_field(cs, slots, tags, 9);
    if let Some(x) = v.state { lemma_int_text_reads_back(x as int); }
    lemma_find_field(cs, slots, tags, 10);
    lemma_find_field(cs, slots, tags, 11);
    lemma_find_field(cs, slots, tags, 12);
    lemma_find_field(cs, slots, tags, 13);
    lemma_find_field(cs, slots, tags, 14);
    if let Some(x) = v.active_task {
        let c = last_named(cs, "active_task"@)->0;
        lemma_active_task_round_trip(x, c.children@);
    }
}

/// Whatever children decode to, it is a valid `TaskResult`.
pub proof fn lemma_task_result_decoded_valid(cs: Seq<Element>)
    ensures
        task_result_valid(task_result_of(cs)),
{
    if let Some(c) = last_named(cs, "name"@) {
        if let Some(x) = text_view(c.text) { lemma_trimmed(x); }
    }
    if let Some(c) = last_named(cs, "wu_name"@) {
        if let Some(x) = text_view(c.text) { lemma_trimmed(x); }
    }
    if let Some(c) = last_named(cs, "platform"@) {
        if let Some(x) = text_view(c.text) { lemma_trimmed(x); }
    }
    if let Some(c) = last_named(cs, "plan_class"@) {
        if let Some(x) = text_view(c.text) { lemma_trimmed(x); }
    }
    if let Some(c) = last_named(cs, "project_url"@) {
        if let Some(x) = text_view(c.text) { lemma_trimmed(x); }
    }
    if let Some(c) = last_named(cs, "active_task"@) { lemma_active_task_decoded_valid(c.children@); }
}

/// Encoding a decoded `TaskResult` keeps what the tree said: children in the
/// shape of the decoded record decode to that same record.
pub proof fn lemma_task_result_reencode(cs: Seq<Element>, encoded: Seq<Element>)
    requires
        all_fit(encoded, flatten(task_result_slots(task_result_of(cs)))),
    ensures
        task_result_of(encoded) == task_result_of(cs),
{
    lemma_task_result_decoded_valid(cs);
    lemma_task_result_round_trip(task_result_of(cs), encoded);
}

/// Decoding ignores children whose tags a `TaskResult` does not hold: children
/// that, once those are left out, are in the shape of `v`'s fields decode
/// to `v`, wherever the unknown children stand.
pub proof fn lemma_task_result_round_trip_among_unknown(v: TaskResultView, cs: Seq<Element>)
    requires
        task_result_valid(v),
        all_fit(known_only(cs, task_result_tags()), flatten(task_result_slots(v))),
    ensures
        task_result_of(cs) == v,
{
    let tags = task_result_tags();
    lemma_task_result_round_trip(v, known_only(cs, tags));
    lemma_last_named_known(cs, tags, 0);
    assert(tags[0] == "name"@);
    lemma_last_named_known(cs, tags, 1);
    assert(tags[1] == "wu_name"@);
    lemma_last_named_known(cs, tags, 2);
    assert(tags[2] == "platform"@);
    lemma_last_named_known(cs, tags, 3);
    assert(tags[3] == "version_num"@);
    lemma_last_named_known(cs, tags, 4);
    assert(tags[4] == "plan_class"@);
    lemma_last_named_known(cs, tags, 5);
    assert(tags[5] == "project_url"@);
    lemma_last_named_known(cs, tags, 6);
    assert(tags[6] == "final_cpu_time"@);
    lemma_last_named_known(cs, tags, 7);
    assert(tags[7] == "final_elapsed_time"@);
    lemma_last_named_known(cs, tags, 8);
    assert(tags[8] == "exit_status"@);
    lemma_last_named_known(cs, tags, 9);
    assert(tags[9] == "state"@);
    lemma_last_named_known(cs, tags, 10);
    assert(tags[10] == "report_deadline"@);
    lemma_last_named_known(cs, tags, 11);
    assert(tags[11] == "received_time"@);
    lemma_last_named_known(cs, tags, 12);
    assert(tags[12] == "estimated_cpu_time_remaining"@);
    lemma_last_named_known(cs, tags, 13);
    assert(tags[13] == "completed_time"@);
    lemma_last_named_known(cs, tags, 14);
    assert(tags[14] == "active_task"@);
}

impl TaskResult {
    /// Decodes the children of `node`: each field from the last child
    /// with its tag, absent when there is none or its text does not read.
    pub fn from_element(node: &Element) -> (r: TaskResult)
        ensures
            r@ == task_result_of(node.children@),
    {
        TaskResult {
            name: match last_child_named(node, "name") { Some(c) => trimmed_optional(&c.text), None => None },
            wu_name: match last_child_named(node, "wu_name") { Some(c) => trimmed_optional(&c.text), None => None },
            platform: match last_child_named(node, "platform") { Some(c) => trimmed_optional(&c.text), None => None },
            version_num: match last_child_named(node, "version_num") { Some(c) => eval_node_contents(c), None => None },
            plan_class: match last_child_named(node, "plan_class") { Some(c) => trimmed_optional(&c.text), None => None },
            project_url: match last_child_named(node, "project_url") { Some(c) => trimmed_optional(&c.text), None => None },
            final_cpu_time: match last_child_named(node, "final_cpu_time") { Some(c) => copy_text(&c.text), None => None },
            final_elapsed_time: match last_child_named(node, "final_elapsed_time") { Some(c) => copy_text(&c.text), None => None },
            exit_status: match last_child_named(node, "exit_status") { Some(c) => eval_node_contents(c), None => None },
            state: match last_child_named(node, "state") { Some(c) => eval_node_contents(c), None => None },
            report_deadline: match last_child_named(node, "report_deadline") { Some(c) => copy_text(&c.text), None => None },
            received_time: match last_child_named(node, "received_time") { Some(c) => copy_text(&c.text), None => None },
            estimated_cpu_time_remaining: match last_child_named(node, "estimated_cpu_time_remaining") { Some(c) => copy_text(&c.text), None => None },
            completed_time: match last_child_named(node, "completed_time") { Some(c) => copy_text(&c.text), None => None },
            active_task: match last_child_named(node, "active_task") { Some(c) => Some(ActiveTask::from_element(c)), None => None },
        }
    }

    /// Encodes the record as an element tagged `tag`, one child per
    /// present field in field order; absent fields are left out.
    pub fn to_element(&self, tag: &str) -> (r: Element)
        ensures
            r.name@ == tag@,
            r.text is None,
            r.cdata is None,
            all_fit(r.children@, flatten(task_result_slots(self@))),
    {
        let ghost slots = task_result_slots(self@);
        let mut r = Element::new(tag);
        assert(slots.subrange(0, 0) =~= Seq::<Option<Shape>>::empty());
        self.encode_name(&mut r);
        self.encode_wu_name(&mut r);
        self.encode_platform(&mut r);
        self.encode_version_num(&mut r);
        self.encode_plan_class(&mut r);
        self.encode_project_url(&mut r);
        self.encode_final_cpu_time(&mut r);
        self.encode_final_elapsed_time(&mut r);
        self.encode_exit_status(&mut r);
        self.encode_state(&mut r);
        self.encode_report_deadline(&mut r);
        self.encode_received_time(&mut r);
        self.encode_estimated_cpu_time_remaining(&mut r);
        self.encode_completed_time(&mut r);
        self.encode_active_task(&mut r);
        assert(slots.subrange(0, 15) =~= slots);
        r
    }

    /// Appends the child encoding `name`, when it is present.
    fn encode_name(&self, r: &mut Element)
        requires
            all_fit(old(r).children@, flatten(task_result_slots(self@).subrange(0, 0))),
        ensures
            final(r).name == old(r).name,
            final(r).text == old(r).text,
            final(r).cdata == old(r).cdata,
            all_fit(final(r).children@, flatten(task_result_slots(self@).subrange(0, 1))),
    {
        let c = match &self.name { Some(x) => Some(text_child("name", x.clone())), None => None };
        proof { lemma_push_slot(r.children@, task_result_slots(self@), 0, c); }
        if let Some(e) = c {
            r.push(e);
        }
    }

    /// Appends the child encoding `wu_name`, when it is present.
    fn encode_wu_name(&self, r: &mut Element)
        requires
            all_fit(old(r).children@, flatten(task_result_slots(self@).subrange(0, 1))),
        ensures
            final(r).name == old(r).name,
            final(r).text == old(r).text,
            final(r).cdata == old(r).cdata,
            all_fit(final(r).children@, flatten(task_result_slots(self@).subrange(0, 2))),
    {
        let c = match &self.wu_name { Some(x) => Some(text_child("wu_name", x.clone())), None => None };
        proof { lemma_push_slot(r.children@, task_result_slots(self@), 1, c); }
        if let Some(e) = c {
            r.push(e);
        }
    }

    /// Appends the child encoding `platform`, when it is present.
    fn encode_platform(&self, r: &mut Element)
        requires
            all_fit(old(r).children@, flatten(task_result_slots(self@).subrange(0, 2))),
        ensures
            final(r).name == old(r).name,
            final(r).text == old(r).text,
            final(r).cdata == old(r).cdata,
            all_fit(final(r).children@, flatten(task_result_slots(self@).subrange(0, 3))),
    {
        let c = match &self.platform { Some(x) => Some(text_child("platform", x.clone())), None => None };
        proof { lemma_push_slot(r.children@, task_result_slots(self@), 2, c); }
        if let Some(e) = c {
            r.push(e);
        }
    }

    /// Appends the child encoding `version_num`, when it is present.
    fn encode_version_num(&self, r: &mut Element)
        requires
            all_fit(old(r).children@, flatten(task_result_slots(self@).subrange(0, 3))),
        ensures
            final(r).name == old(r).name,
            final(r).text == old(r).text,
            final(r).cdata == old(r).cdata,
            all_fit(final(r).children@, flatten(task_result_slots(self@).subrange(0, 4))),
    {
        let c = match &self.version_num { Some(x) => Some(text_child("version_num", format_i64(*x))), None => None };
        proof { lemma_push_slot(r.children@, task_result_slots(self@), 3, c); }
        if let Some(e) = c {
            r.push(e);
        }
    }

    /// Appends the child encoding `plan_class`, when it is present.
    fn encode_plan_class(&self, r: &mut Element)
        requires
            all_fit(old(r).children@, flatten(task_result_slots(self@).subrange(0, 4))),
        ensures
            final(r).name == old(r).name,
            final(r).text == old(r).text,
            final(r).cdata == old(r).cdata,
            all_fit(final(r).children@, flatten(task_result_slots(self@).subrange(0, 5))),
    {
        let c = match &self.plan_class { Some(x) => Some(text_child("plan_class", x.clone())), None => None };
        proof { lemma_push_slot(r.children@, task_result_slots(self@), 4, c); }
        if let Some(e) = c {
            r.push(e);
        }
    }

    /// Appends the child encoding `project_url`, when it is present.
    fn encode_project_url(&self, r: &mut Element)
        requires
            all_fit(old(r).children@, flatten(task_result_slots(self@).subrange(0, 5))),
        ensures
            final(r).name == old(r).name,
            final(r).text == old(r).text,
            final(r).cdata == old(r).cdata,
            all_fit(final(r).children@, flatten(task_result_slots(self@).subrange(0, 6))),
    {
        let c = match &self.project_url { Some(x) => Some(text_child("project_url", x.clone())), None => None };
        proof { lemma_push_slot(r.children@, task_result_slots(self@), 5, c); }
        if let Some(e) = c {
            r.push(e);
        }
    }

    /// Appends the child encoding `final_cpu_time`, when it is present.
    fn encode_final_cpu_time(&self, r: &mut Element)
        requires
            all_fit(old(r).children@, flatten(task_result_slots(self@).subrange(0, 6))),
        ensures
            final(r).name == old(r).name,
            final(r).text == old(r).text,
            final(r).cdata == old(r).cdata,
            all_fit(final(r).children@, flatten(task_result_slots(self@).subrange(0, 7))),
    {
        let c = match &self.final_cpu_time { Some(x) => Some(text_child("final_cpu_time", x.clone())), None => None };
        proof { lemma_push_slot(r.children@, task_result_slots(self@), 6, c); }
        if let Some(e) = c {
            r.push(e);
        }
    }

    /// Appends the child encoding `final_elapsed_time`, when it is present.
    fn encode_final_elapsed_time(&self, r: &mut Element)
        requires
            all_fit(old(r).children@, flatten(task_result_slots(self@).subrange(0, 7))),
        ensures
            final(r).name == old(r).name,
            final(r).text == old(r).text,
            final(r).cdata == old(r).cdata,
            all_fit(final(r).children@, flatten(task_result_slots(self@).subrange(0, 8))),
    {
        let c = match &self.final_elapsed_time { Some(x) => Some(text_child("final_elapsed_time", x.clone())), None => None };
        proof { lemma_push_slot(r.children@, task_result_slots(self@), 7, c); }
        if let Some(e) = c {
            r.push(e);
        }
    }

    /// Appends the child encoding `exit_status`, when it is present.
    fn encode_exit_status(&self, r: &mut Element)
        requires
            all_fit(old(r).children@, flatten(task_result_slots(self@).subrange(0, 8))),
        ensures
            final(r).name == old(r).name,
            final(r).text == old(r).text,
            final(r).cdata == old(r).cdata,
            all_fit(final(r).children@, flatten(task_result_slots(self@).subrange(0, 9))),
    {
        let c = match &self.exit_status { Some(x) => Some(text_child("exit_status", format_i64(*x))), None => None };
        proof { lemma_push_slot(r.children@, task_result_slots(self@), 8, c); }
        if let Some(e) = c {
            r.push(e);
        }
    }

    /// Appends the child encoding `state`, when it is present.
    fn encode_state(&self, r: &mut Element)
        requires
            all_fit(old(r).children@, flatten(task_result_slots(self@).subrange(0, 9))),
        ensures
            final(r).name == old(r).name,
            final(r).text == old(r).text,
            final(r).cdata == old(r).cdata,
            all_fit(final(r).children@, flatten(task_result_slots(self@).subrange(0, 10))),
    {
        let c = match &self.state { Some(x) => Some(text_child("state", format_i64(*x))), None => None };
        proof { lemma_push_slot(r.children@, task_result_slots(self@), 9, c); }
        if let Some(e) = c {
            r.push(e);
        }
    }

    /// Appends the child encoding `report_deadline`, when it is present.
    fn encode_report_deadline(&self, r: &mut Element)
        requires
            all_fit(old(r).children@, flatten(task_result_slots(self@).subrange(0, 10))),
        ensures
            final(r).name == old(r).name,
            final(r).text == old(r).text,
            final(r).cdata == old(r).cdata,
            all_fit(final(r).children@, flatten(task_result_slots(self@).subrange(0, 11))),
    {
        let c = match &self.report_deadline { Some(x) => Some(text_child("report_deadline", x.clone())), None => None };
        proof { lemma_push_slot(r.children@, task_result_slots(self@), 10, c); }
        if let Some(e) = c {
            r.push(e);
        }
    }

    /// Appends the child encoding `received_time`, when it is present.
    fn encode_received_time(&self, r: &mut Element)
        requires
            all_fit(old(r).children@, flatten(task_result_slots(self@).subrange(0, 11))),
        ensures
            final(r).name == old(r).name,
            final(r).text == old(r).text,
            final(r).cdata == old(r).cdata,
            all_fit(final(r).children@, flatten(task_result_slots(self@).subrange(0, 12))),
    {
        let c = match &self.received_time { Some(x) => Some(text_child("received_time", x.clone())), None => None };
        proof { lemma_push_slot(r.children@, task_result_slots(self@), 11, c); }
        if let Some(e) = c {
            r.push(e);
        }
    }

    /// Appends the child encoding `estimated_cpu_time_remaining`, when it is present.
    fn encode_estimated_cpu_time_remaining(&self, r: &mut Element)
        requires
            all_fit(old(r).children@, flatten(task_result_slots(self@).subrange(0, 12))),
        ensures
            final(r).name == old(r).name,
            final(r).text == old(r).text,
            final(r).cdata == old(r).cdata,
            all_fit(final(r).children@, flatten(task_result_slots(self@).subrange(0, 13))),
    {
        let c = match &self.estimated_cpu_time_remaining { Some(x) => Some(text_child("estimated_cpu_time_remaining", x.clone())), None => None };
        proof { lemma_push_slot(r.children@, task_result_slots(self@), 12, c); }
        if let Some(e) = c {
            r.push(e);
        }
    }

    /// Appends the child encoding `completed_time`, when it is present.
    fn encode_completed_time(&self, r: &mut Element)
        requires
            all_fit(old(r).children@, flatten(task_result_slots(self@).subrange(0, 13))),
        ensures
            final(r).name == old(r).name,
            final(r).text == old(r).text,
            final(r).cdata == old(r).cdata,
            all_fit(final(r).children@, flatten(task_result_slots(self@).subrange(0, 14))),
    {
        let c = match &self.completed_time { Some(x) => Some(text_child("completed_time", x.clone())), None => None };
        proof { lemma_push_slot(r.children@, task_result_slots(self@), 13, c); }
        if let Some(e) = c {
            r.push(e);
        }
    }

    /// Appends the child encoding `active_task`, when it is present.
    fn encode_active_task(&self, r: &mut Element)
        requires
            all_fit(old(r).children@, flatten(task_result_slots(self@).subrange(0, 14))),
        ensures
            final(r).name == old(r).name,
            final(r).text == old(r).text,
            final(r).cdata == old(r).cdata,
            all_fit(final(r).children@, flatten(task_result_slots(self@).subrange(0, 15))),
    {
        let c = match &self.active_task { Some(x) => Some(x.to_element("active_task")), None => None };
        proof { lemma_push_slot(r.children@, task_result_slots(self@), 14, c); }
        if let Some(e) = c {
            r.push(e);
        }
    }
}
} // verus!
