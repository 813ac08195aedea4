//! The element tree: the protocol's one data representation.
use vstd::prelude::*;
use crate::text::{
    bool_of_text, i32_of_text, i64_of_text, parse_bool, parse_i32, parse_i64, parse_u64,
    same_text, text_view, u64_of_text,
};

verus! {

/// One node: a tag name, optional plain text, optional raw (CDATA) text, and
/// children in document order. Tags among children need not be unique.
#[derive(Debug)]
pub struct Element {
    pub name: String,
    pub text: Option<String>,
    pub cdata: Option<String>,
    pub children: Vec<Element>,
}

impl Element {
    /// An element with the given tag and nothing else.
    pub fn new(name: &str) -> (r: Element)
        ensures
            r.name@ == name@,
            r.text is None,
            r.cdata is None,
            r.children@.len() == 0,
    {
        Element { name: name.to_owned(), text: None, cdata: None, children: Vec::new() }
    }

    /// An element with the given tag and plain text.
    pub fn with_text(name: &str, text: String) -> (r: Element)
        ensures
            r.name@ == name@,
            r.text == Some(text),
            r.cdata is None,
            r.children@.len() == 0,
    {
        Element { name: name.to_owned(), text: Some(text), cdata: None, children: Vec::new() }
    }

    /// Appends a child after the present ones.
    pub fn push(&mut self, child: Element)
        ensures
            final(self).name == old(self).name,
            final(self).text == old(self).text,
            final(self).cdata == old(self).cdata,
            final(self).children@ == old(self).children@.push(child),
    {
        self.children.push(child);
    }
}

/// The last element of `s` tagged `name`.
pub open spec fn last_named(s: Seq<Element>, name: Seq<char>) -> Option<Element>
    decreases s.len(),
{
    if s.len() == 0 {
        None
    } else if s.last().name@ == name {
        Some(s.last())
    } else {
        last_named(s.drop_last(), name)
    }
}

/// The first element of `s` tagged `name`.
pub open spec fn first_named(s: Seq<Element>, name: Seq<char>) -> Option<Element>
    decreases s.len(),
{
    if s.len() == 0 {
        None
    } else if s[0].name@ == name {
        Some(s[0])
    } else {
        first_named(s.drop_first(), name)
    }
}

/// Whether the element's tag is `name`.
pub fn has_name(e: &Element, name: &str) -> (r: bool)
    ensures
        r == (e.name@ == name@),
{
    same_text(e.name.as_str(), name)
}

/// The last child of `node` tagged `name`.
pub fn last_child_named<'a>(node: &'a Element, name: &str) -> (r: Option<&'a Element>)
    ensures
        match r {
            Some(c) => last_named(node.children@, name@) == Some(*c),
            None => last_named(node.children@, name@) is None,
        },
{
    let mut i: usize = node.children.len();
    assert(node.children@.subrange(0, i as int) =~= node.children@);
    while i > 0
        invariant
            i <= node.children@.len(),
            last_named(node.children@, name@) == last_named(
                node.children@.subrange(0, i as int),
                name@,
            ),
        decreases i,
    {
        let ghost s = node.children@.subrange(0, i as int);
        assert(s.last() == node.children@[i - 1]);
        assert(s.drop_last() =~= node.children@.subrange(0, i - 1));
        if has_name(&node.children[i - 1], name) {
            return Some(&node.children[i - 1]);
        }
        i = i - 1;
    }
    None
}

/// The first element of `s` tagged `name`.
pub fn first_named_in<'a>(s: &'a Vec<Element>, name: &str) -> (r: Option<&'a Element>)
    ensures
        match r {
            Some(c) => first_named(s@, name@) == Some(*c),
            None => first_named(s@, name@) is None,
        },
{
    let mut i: usize = 0;
    assert(s@.subrange(0, s@.len() as int) =~= s@);
    while i < s.len()
        invariant
            i <= s@.len(),
            first_named(s@, name@) == first_named(s@.subrange(i as int, s@.len() as int), name@),
        decreases s@.len() - i,
    {
        let ghost t = s@.subrange(i as int, s@.len() as int);
        assert(t[0] == s@[i as int]);
        assert(t.drop_first() =~= s@.subrange(i + 1, s@.len() as int));
        if has_name(&s[i], name) {
            return Some(&s[i]);
        }
        i = i + 1;
    }
    None
}

/// The plain text of `e` read as an `i64`.
pub open spec fn text_i64(e: Element) -> Option<i64> {
    match e.text {
        Some(t) => i64_of_text(t@),
        None => None,
    }
}

/// The plain text of `e` read as an `i32`.
pub open spec fn text_i32(e: Element) -> Option<i32> {
    match e.text {
        Some(t) => i32_of_text(t@),
        None => None,
    }
}

/// The plain text of `e` read as a `u64`.
pub open spec fn text_u64(e: Element) -> Option<u64> {
    match e.text {
        Some(t) => u64_of_text(t@),
        None => None,
    }
}

/// The plain text of `e` read as a `bool`.
pub open spec fn text_bool(e: Element) -> Option<bool> {
    match e.text {
        Some(t) => bool_of_text(t@),
        None => None,
    }
}

/// The raw text of `e` if it has any, else its plain text.
pub open spec fn any_text_of(e: Element) -> Option<Seq<char>> {
    if e.cdata is Some {
        text_view(e.cdata)
    } else {
        text_view(e.text)
    }
}

/// The node's plain text read as an `i64`; absent when there is no text or
/// it does not read.
pub fn eval_node_contents(node: &Element) -> (r: Option<i64>)
    ensures
        r == text_i64(*node),
{
    match &node.text {
        Some(t) => parse_i64(t.as_str()),
        None => None,
    }
}

/// The node's plain text read as an `i32`.
pub fn eval_node_i32(node: &Element) -> (r: Option<i32>)
    ensures
        r == text_i32(*node),
{
    match &node.text {
        Some(t) => parse_i32(t.as_str()),
        None => None,
    }
}

/// The node's plain text read as a `u64`.
pub fn eval_node_u64(node: &Element) -> (r: Option<u64>)
    ensures
        r == text_u64(*node),
{
    match &node.text {
        Some(t) => parse_u64(t.as_str()),
        None => None,
    }
}

/// The node's plain text read as a `bool`.
pub fn eval_node_bool(node: &Element) -> (r: Option<bool>)
    ensures
        r == text_bool(*node),
{
    match &node.text {
        Some(t) => parse_bool(t.as_str()),
        None => None,
    }
}

/// The node's raw text if it has any, else its plain text.
pub fn any_text(node: &Element) -> (r: Option<String>)
    ensures
        text_view(r) == any_text_of(*node),
{
    match &node.cdata {
        Some(c) => Some(c.clone()),
        None => match &node.text {
            Some(t) => Some(t.clone()),
            None => None,
        },
    }
}

/// The last child of `node` tagged `name`, its text read as an `i64`.
/// When several children share the tag, the last one decides.
pub fn parse_node(name: &str, node: &Element) -> (r: Option<i64>)
    ensures
        r == match last_named(node.children@, name@) {
            Some(c) => text_i64(c),
            None => None,
        },
{
    match last_child_named(node, name) {
        Some(c) => eval_node_contents(c),
        None => None,
    }
}

/// Appends a child tagged `name` holding `value`, when there is one.
pub fn add_element(parent: &mut Element, name: &str, value: &Option<String>)
    ensures
        final(parent).name == old(parent).name,
        final(parent).text == old(parent).text,
        final(parent).cdata == old(parent).cdata,
        match value {
            Some(v) => {
                let c = final(parent).children@.last();
                &&& final(parent).children@ == old(parent).children@.push(c)
                &&& c.name@ == name@
                &&& c.text == Some(*v)
                &&& c.cdata is None
                &&& c.children@.len() == 0
            },
            None => final(parent).children@ == old(parent).children@,
        },
{
    if let Some(v) = value {
        let c = Element::with_text(name, v.clone());
        parent.push(c);
    }
}

/// Among siblings sharing a tag, the later one wins: with `b` after the
/// elements `before` and no element tagged alike after it, the last element
/// with its tag is `b`.
pub proof fn lemma_later_sibling_wins(before: Seq<Element>, b: Element, after: Seq<Element>)
    requires
        forall|i: int| 0 <= i < after.len() ==> (#[trigger] after[i]).name@ != b.name@,
    ensures
        last_named(before + seq![b] + after, b.name@) == Some(b),
    decreases after.len(),
{
    let s = before + seq![b] + after;
    if after.len() == 0 {
        assert(s.last() == b);
    } else {
        let a2 = after.drop_last();
        assert forall|i: int| 0 <= i < a2.len() implies (#[trigger] a2[i]).name@ != b.name@ by {
            assert(a2[i] == after[i]);
        }
        lemma_later_sibling_wins(before, b, a2);
        assert(s.drop_last() =~= before + seq![b] + a2);
        assert(s.last() == after.last());
    }
}

} // verus!
