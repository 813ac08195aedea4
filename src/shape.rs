//! Shapes of encoded records: what the children of an encoded record look
//! like, field by field, and how decoding by tag finds each field again.
use vstd::prelude::*;
use crate::text::text_view;
use crate::tree::{Element, last_named};

verus! {

/// The shape of one encoded field.
pub enum Shape {
    /// A child `tag` holding plain text.
    Text(Seq<char>, Seq<char>),
    /// A child `tag` holding raw (CDATA) text.
    Raw(Seq<char>, Seq<char>),
    /// A child `tag` whose children are `item` children holding the texts.
    List(Seq<char>, Seq<char>, Seq<Seq<char>>),
    /// A child `tag` whose children have the flat shapes given.
    Nested(Seq<char>, Seq<Shape>),
}

pub open spec fn shape_tag(s: Shape) -> Seq<char> {
    match s {
        Shape::Text(t, _) => t,
        Shape::Raw(t, _) => t,
        Shape::List(t, _, _) => t,
        Shape::Nested(t, _) => t,
    }
}

/// Whether `e` is a childless element tagged `tag` with exactly this plain text.
pub open spec fn is_text_child(e: Element, tag: Seq<char>, text: Seq<char>) -> bool {
    &&& e.name@ == tag
    &&& text_view(e.text) == Some(text)
    &&& e.cdata is None
    &&& e.children@.len() == 0
}

/// Whether `e` has a shape other than `Nested`.
pub open spec fn fits_flat(e: Element, s: Shape) -> bool {
    match s {
        Shape::Text(tag, text) => is_text_child(e, tag, text),
        Shape::Raw(tag, text) => {
            &&& e.name@ == tag
            &&& e.text is None
            &&& text_view(e.cdata) == Some(text)
            &&& e.children@.len() == 0
        },
        Shape::List(tag, item, texts) => {
            &&& e.name@ == tag
            &&& e.text is None
            &&& e.cdata is None
            &&& e.children@.len() == texts.len()
            &&& forall|i: int|
                0 <= i < texts.len() ==> is_text_child(#[trigger] e.children@[i], item, texts[i])
        },
        Shape::Nested(_, _) => false,
    }
}

/// Whether each element has the flat shape at its place.
pub open spec fn all_fit_flat(es: Seq<Element>, ss: Seq<Shape>) -> bool {
    &&& es.len() == ss.len()
    &&& forall|i: int| 0 <= i < es.len() ==> fits_flat(#[trigger] es[i], ss[i])
}

/// Whether `e` has the shape `s`.
pub open spec fn fits(e: Element, s: Shape) -> bool {
    match s {
        Shape::Nested(tag, inner) => {
            &&& e.name@ == tag
            &&& e.text is None
            &&& e.cdata is None
            &&& all_fit_flat(e.children@, inner)
        },
        _ => fits_flat(e, s),
    }
}

/// Whether each element has the shape at its place.
pub open spec fn all_fit(es: Seq<Element>, ss: Seq<Shape>) -> bool {
    &&& es.len() == ss.len()
    &&& forall|i: int| 0 <= i < es.len() ==> fits(#[trigger] es[i], ss[i])
}

/// The shapes of the present fields, in field order.
pub open spec fn flatten(slots: Seq<Option<Shape>>) -> Seq<Shape>
    decreases slots.len(),
{
    if slots.len() == 0 {
        Seq::empty()
    } else {
        match slots.last() {
            Some(s) => flatten(slots.drop_last()).push(s),
            None => flatten(slots.drop_last()),
        }
    }
}

/// Whether every present field's shape carries the field's tag.
pub open spec fn slots_tagged(slots: Seq<Option<Shape>>, tags: Seq<Seq<char>>) -> bool {
    &&& slots.len() == tags.len()
    &&& forall|k: int|
        0 <= k < slots.len() && #[trigger] slots[k] is Some ==> shape_tag(slots[k]->0) == tags[k]
}

/// Whether no two tags are the same.
pub open spec fn distinct(tags: Seq<Seq<char>>) -> bool {
    forall|i: int, j: int| 0 <= i < j < tags.len() ==> #[trigger] tags[i] != #[trigger] tags[j]
}

proof fn lemma_absent(es: Seq<Element>, t: Seq<char>)
    requires
        forall|i: int| 0 <= i < es.len() ==> (#[trigger] es[i]).name@ != t,
    ensures
        last_named(es, t) is None,
    decreases es.len(),
{
    if es.len() > 0 {
        let d = es.drop_last();
        assert forall|i: int| 0 <= i < d.len() implies (#[trigger] d[i]).name@ != t by {
            assert(d[i] == es[i]);
        }
        lemma_absent(d, t);
    }
}

/// Decoding by tag finds every field of an encoded record: where the fields'
/// tags are distinct, the last child tagged like a field is the child
/// encoding it, and there is none when the field is absent.
pub proof fn lemma_find_field(es: Seq<Element>, slots: Seq<Option<Shape>>, tags: Seq<Seq<char>>, k: int)
    requires
        slots_tagged(slots, tags),
        distinct(tags),
        all_fit(es, flatten(slots)),
        0 <= k < slots.len(),
    ensures
        match slots[k] {
            Some(s) => last_named(es, tags[k]) matches Some(c) && fits(c, s),
            None => last_named(es, tags[k]) is None,
        },
    decreases slots.len(),
{
    let n = slots.len();
    let ps = slots.drop_last();
    let pt = tags.drop_last();
    assert(slots_tagged(ps, pt)) by {
        assert forall|j: int| 0 <= j < ps.len() && #[trigger] ps[j] is Some implies shape_tag(ps[j]->0) == pt[j] by {
            assert(ps[j] == slots[j]);
            assert(slots[j] is Some);
        }
    }
    assert(distinct(pt)) by {
        assert forall|i: int, j: int| 0 <= i < j < pt.len() implies #[trigger] pt[i] != #[trigger] pt[j] by {
            assert(pt[i] == tags[i] && pt[j] == tags[j]);
        }
    }
    let pe = match slots.last() {
        Some(_) => es.drop_last(),
        None => es,
    };
    assert(all_fit(pe, flatten(ps))) by {
        if slots.last() is Some {
            assert forall|i: int| 0 <= i < pe.len() implies fits(#[trigger] pe[i], flatten(ps)[i]) by {
                assert(pe[i] == es[i]);
                assert(flatten(slots)[i] == flatten(ps)[i]);
            }
        }
    }
    if k == n - 1 {
        match slots[k] {
            Some(s) => {
                assert(flatten(slots).last() == s);
                assert(fits(es.last(), s));
                assert(es.last().name@ == tags[k]);
            },
            None => {
                assert forall|i: int| 0 <= i < es.len() implies (#[trigger] es[i]).name@ != tags[k] by {
                    lemma_tags_before(es, ps, pt, i, tags[k]);
                }
                lemma_absent(es, tags[k]);
            },
        }
    } else {
        assert(ps[k] == slots[k]);
        assert(pt[k] == tags[k]);
        lemma_find_field(pe, ps, pt, k);
        if slots.last() is Some {
            let s = slots.last()->0;
            assert(flatten(slots).last() == s);
            assert(fits(es.last(), s));
            assert(es.last().name@ == tags[n - 1]);
            assert(tags[k] != tags[n - 1]);
            assert(es.drop_last() == pe);
        }
    }
}

proof fn lemma_tags_before(es: Seq<Element>, slots: Seq<Option<Shape>>, tags: Seq<Seq<char>>, i: int, t: Seq<char>)
    requires
        slots_tagged(slots, tags),
        all_fit(es, flatten(slots)),
        0 <= i < es.len(),
        forall|j: int| 0 <= j < tags.len() ==> #[trigger] tags[j] != t,
    ensures
        es[i].name@ != t,
    decreases slots.len(),
{
    let n = slots.len();
    if n > 0 {
        let ps = slots.drop_last();
        let pt = tags.drop_last();
        assert(slots_tagged(ps, pt)) by {
            assert forall|j: int| 0 <= j < ps.len() && #[trigger] ps[j] is Some implies shape_tag(ps[j]->0) == pt[j] by {
                assert(ps[j] == slots[j]);
                assert(slots[j] is Some);
            }
        }
        assert forall|j: int| 0 <= j < pt.len() implies #[trigger] pt[j] != t by {
            assert(pt[j] == tags[j]);
        }
        match slots.last() {
            Some(s) => {
                if i == es.len() - 1 {
                    assert(flatten(slots).last() == s);
                    assert(fits(es[i], s));
                    assert(slots[n - 1] is Some);
                    assert(tags[n - 1] != t);
                } else {
                    let pe = es.drop_last();
                    assert forall|m: int| 0 <= m < pe.len() implies fits(#[trigger] pe[m], flatten(ps)[m]) by {
                        assert(pe[m] == es[m]);
                        assert(flatten(slots)[m] == flatten(ps)[m]);
                    }
                    lemma_tags_before(pe, ps, pt, i, t);
                    assert(pe[i] == es[i]);
                }
            },
            None => {
                lemma_tags_before(es, ps, pt, i, t);
            },
        }
    } else {
        assert(false);
    }
}

/// Appending the child of the next field keeps the children in shape.
pub proof fn lemma_push_slot(es: Seq<Element>, slots: Seq<Option<Shape>>, k: int, c: Option<Element>)
    requires
        0 <= k < slots.len(),
        all_fit(es, flatten(slots.subrange(0, k))),
        match slots[k] {
            Some(s) => c matches Some(e) && fits(e, s),
            None => c is None,
        },
    ensures
        all_fit(
            match c {
                Some(e) => es.push(e),
                None => es,
            },
            flatten(slots.subrange(0, k + 1)),
        ),
{
    let nx = slots.subrange(0, k + 1);
    assert(nx.drop_last() =~= slots.subrange(0, k));
    assert(nx.last() == slots[k]);
    match c {
        Some(e) => {
            let es2 = es.push(e);
            assert forall|i: int| 0 <= i < es2.len() implies fits(#[trigger] es2[i], flatten(nx)[i]) by {
                if i < es.len() {
                    assert(es2[i] == es[i]);
                }
            }
        },
        None => {},
    }
}

/// Appending the child of the next field keeps the children in flat shape.
pub proof fn lemma_push_slot_flat(es: Seq<Element>, slots: Seq<Option<Shape>>, k: int, c: Option<Element>)
    requires
        0 <= k < slots.len(),
        all_fit_flat(es, flatten(slots.subrange(0, k))),
        match slots[k] {
            Some(s) => c matches Some(e) && fits_flat(e, s),
            None => c is None,
        },
    ensures
        all_fit_flat(
            match c {
                Some(e) => es.push(e),
                None => es,
            },
            flatten(slots.subrange(0, k + 1)),
        ),
{
    let nx = slots.subrange(0, k + 1);
    assert(nx.drop_last() =~= slots.subrange(0, k));
    assert(nx.last() == slots[k]);
    match c {
        Some(e) => {
            let es2 = es.push(e);
            assert forall|i: int| 0 <= i < es2.len() implies fits_flat(#[trigger] es2[i], flatten(nx)[i]) by {
                if i < es.len() {
                    assert(es2[i] == es[i]);
                }
            }
        },
        None => {},
    }
}

/// Tags are distinct when a code numbers each by its place.
pub proof fn lemma_distinct_by_code(tags: Seq<Seq<char>>, code: spec_fn(Seq<char>) -> int)
    requires
        forall|i: int| 0 <= i < tags.len() ==> code(#[trigger] tags[i]) == i,
    ensures
        distinct(tags),
{
    assert forall|i: int, j: int| 0 <= i < j < tags.len() implies #[trigger] tags[i] != #[trigger] tags[j] by {
        assert(code(tags[i]) == i);
        assert(code(tags[j]) == j);
    }
}

/// Flat shapes are shapes.
pub proof fn lemma_flat_fits(es: Seq<Element>, ss: Seq<Shape>)
    requires
        all_fit_flat(es, ss),
    ensures
        all_fit(es, ss),
{
    assert forall|i: int| 0 <= i < es.len() implies fits(#[trigger] es[i], ss[i]) by {
        assert(fits_flat(es[i], ss[i]));
    }
}

/// A childless element tagged `tag` holding plain `text`.
pub fn text_child(tag: &str, text: String) -> (r: Element)
    ensures
        fits(r, Shape::Text(tag@, text@)),
        fits_flat(r, Shape::Text(tag@, text@)),
{
    Element::with_text(tag, text)
}

/// A childless element tagged `tag` holding raw `text`.
pub fn raw_child(tag: &str, text: String) -> (r: Element)
    ensures
        fits(r, Shape::Raw(tag@, text@)),
        fits_flat(r, Shape::Raw(tag@, text@)),
{
    Element { name: tag.to_owned(), text: None, cdata: Some(text), children: Vec::new() }
}

/// The texts of a list of strings.
pub open spec fn texts_view(v: Seq<String>) -> Seq<Seq<char>> {
    v.map_values(|s: String| s@)
}

/// An element tagged `tag` with one `item` child per text.
pub fn list_child(tag: &str, item: &str, texts: &Vec<String>) -> (r: Element)
    ensures
        fits(r, Shape::List(tag@, item@, texts_view(texts@))),
{
    let mut r = Element::new(tag);
    let mut i: usize = 0;
    while i < texts.len()
        invariant
            i <= texts@.len(),
            r.name@ == tag@,
            r.text is None,
            r.cdata is None,
            r.children@.len() == i,
            forall|j: int| 0 <= j < i ==> is_text_child(#[trigger] r.children@[j], item@, texts@[j]@),
        decreases texts@.len() - i,
    {
        let c = Element::with_text(item, texts[i].clone());
        r.push(c);
        i = i + 1;
    }
    r
}

/// Whether `name` is one of the tags.
pub open spec fn has_tag(tags: Seq<Seq<char>>, name: Seq<char>) -> bool {
    exists|k: int| 0 <= k < tags.len() && #[trigger] tags[k] == name
}

/// The elements of `es` whose tags are among `tags`, in order.
pub open spec fn known_only(es: Seq<Element>, tags: Seq<Seq<char>>) -> Seq<Element>
    decreases es.len(),
{
    if es.len() == 0 {
        Seq::empty()
    } else if has_tag(tags, es.last().name@) {
        known_only(es.drop_last(), tags).push(es.last())
    } else {
        known_only(es.drop_last(), tags)
    }
}

/// Leaving out elements with unknown tags does not change which element is
/// the last one with a known tag.
pub proof fn lemma_last_named_known(es: Seq<Element>, tags: Seq<Seq<char>>, k: int)
    requires
        0 <= k < tags.len(),
    ensures
        last_named(es, tags[k]) == last_named(known_only(es, tags), tags[k]),
    decreases es.len(),
{
    if es.len() > 0 {
        let last = es.last();
        lemma_last_named_known(es.drop_last(), tags, k);
        if last.name@ == tags[k] {
            assert(has_tag(tags, last.name@));
            assert(known_only(es, tags).last() == last);
        } else if has_tag(tags, last.name@) {
            let ko = known_only(es, tags);
            assert(ko.drop_last() =~= known_only(es.drop_last(), tags));
        }
    }
}

} // verus!
