//! Classification of reply elements into success or a typed failure, and
//! extraction of the requested objects.
use vstd::prelude::*;
use crate::errors::{Error, Failure, outcome};
use crate::text::{text_view, same_text};
use crate::tree::{Element, eval_node_i32, first_named, first_named_in, has_name, last_named, text_i32};

verus! {

/// The failure that a known daemon error text maps to.
pub open spec fn error_text_failure(t: Seq<char>) -> Failure {
    if t == "unauthorized"@ || t == "Missing authenticator"@ {
        Failure::Auth(t)
    } else if t == "Missing URL"@ {
        Failure::InvalidURL(t)
    } else if t == "Already attached to project"@ {
        Failure::AlreadyAttached(t)
    } else {
        Failure::DataParse(t)
    }
}

/// The failure that one reply element ends the scan with, if any.
pub open spec fn element_failure(e: Element) -> Option<Failure> {
    if e.name@ == "status"@ {
        Some(
            Failure::Status(
                match text_i32(e) {
                    Some(c) => c,
                    None => 9999,
                },
            ),
        )
    } else if e.name@ == "unauthorized"@ {
        Some(Failure::Auth(Seq::empty()))
    } else if e.name@ == "error"@ {
        match text_view(e.text) {
            Some(t) => Some(error_text_failure(t)),
            None => Some(Failure::Daemon("Unknown error"@)),
        }
    } else {
        None
    }
}

/// The verdict on reply elements scanned in document order: the first
/// element that fails decides; otherwise whether a `success` tag was seen.
pub open spec fn reply_verdict(s: Seq<Element>) -> Result<bool, Failure>
    decreases s.len(),
{
    if s.len() == 0 {
        Ok(false)
    } else {
        match element_failure(s[0]) {
            Some(f) => Err(f),
            None => match reply_verdict(s.drop_first()) {
                Ok(b) => Ok(b || s[0].name@ == "success"@),
                Err(f) => Err(f),
            },
        }
    }
}

fn element_check(e: &Element) -> (r: Option<Error>)
    ensures
        match r {
            Some(err) => element_failure(*e) == Some(err@),
            None => element_failure(*e) is None,
        },
{
    if has_name(e, "status") {
        let code = match eval_node_i32(e) {
            Some(c) => c,
            None => 9999,
        };
        Some(Error::Status(code))
    } else if has_name(e, "unauthorized") {
        Some(Error::Auth(String::new()))
    } else if has_name(e, "error") {
        match &e.text {
            None => Some(Error::Daemon(String::from_str("Unknown error"))),
            Some(msg) => {
                let m = msg.as_str();
                if same_text(m, "unauthorized") || same_text(m, "Missing authenticator") {
                    Some(Error::Auth(msg.clone()))
                } else if same_text(m, "Missing URL") {
                    Some(Error::InvalidURL(msg.clone()))
                } else if same_text(m, "Already attached to project") {
                    Some(Error::AlreadyAttached(msg.clone()))
                } else {
                    Some(Error::DataParse(msg.clone()))
                }
            },
        }
    } else {
        None
    }
}

/// Checks reply elements: `Ok(true)` when a `success` tag was seen and none
/// failed, `Ok(false)` when neither happened, else the first failure.
pub fn verify_rpc_reply_contents(data: &Vec<Element>) -> (r: Result<bool, Error>)
    ensures
        outcome(r) == reply_verdict(data@),
{
    let mut success = false;
    let mut i: usize = 0;
    assert(data@.subrange(0, data@.len() as int) =~= data@);
    while i < data.len()
        invariant
            i <= data@.len(),
            reply_verdict(data@) == match reply_verdict(
                data@.subrange(i as int, data@.len() as int),
            ) {
                Ok(b) => Ok(b || success),
                Err(f) => Err(f),
            },
        decreases data@.len() - i,
    {
        let ghost t = data@.subrange(i as int, data@.len() as int);
        assert(t[0] == data@[i as int]);
        assert(t.drop_first() =~= data@.subrange(i + 1, data@.len() as int));
        match element_check(&data[i]) {
            Some(err) => {
                return Err(err);
            },
            None => {},
        }
        if has_name(&data[i], "success") {
            success = true;
        }
        i = i + 1;
    }
    Ok(success)
}

/// The outcome of asking for the object tagged `tag`: the reply's failure if
/// it has one, else its first element so tagged, else "object not found".
pub open spec fn object_outcome(s: Seq<Element>, tag: Seq<char>) -> Result<Element, Failure> {
    match reply_verdict(s) {
        Err(f) => Err(f),
        Ok(_) => match first_named(s, tag) {
            Some(e) => Ok(e),
            None => Err(Failure::DataParse("Object not found."@)),
        },
    }
}

/// Finds the requested object in a reply, after checking the reply.
pub fn find_object<'a>(data: &'a Vec<Element>, tag: &str) -> (r: Result<&'a Element, Error>)
    ensures
        match r {
            Ok(e) => object_outcome(data@, tag@) == Ok::<Element, Failure>(*e),
            Err(err) => object_outcome(data@, tag@) == Err::<Element, Failure>(err@),
        },
{
    match verify_rpc_reply_contents(data) {
        Err(e) => Err(e),
        Ok(_) => match first_named_in(data, tag) {
            Some(e) => Ok(e),
            None => Err(Error::DataParse(String::from_str("Object not found."))),
        },
    }
}

/// The elements of `s` tagged `tag`, in order.
pub open spec fn named_in(s: Seq<Element>, tag: Seq<char>) -> Seq<Element>
    decreases s.len(),
{
    if s.len() == 0 {
        Seq::empty()
    } else if s.last().name@ == tag {
        named_in(s.drop_last(), tag).push(s.last())
    } else {
        named_in(s.drop_last(), tag)
    }
}

/// The children tagged `item` of every element of `s` tagged `list`, in
/// document order.
pub open spec fn list_items(s: Seq<Element>, list: Seq<char>, item: Seq<char>) -> Seq<Element>
    decreases s.len(),
{
    if s.len() == 0 {
        Seq::empty()
    } else if s.last().name@ == list {
        list_items(s.drop_last(), list, item) + named_in(s.last().children@, item)
    } else {
        list_items(s.drop_last(), list, item)
    }
}

/// Whether some element of `s` is tagged `tag`.
pub open spec fn has_named(s: Seq<Element>, tag: Seq<char>) -> bool {
    exists|i: int| 0 <= i < s.len() && #[trigger] s[i].name@ == tag
}

/// The outcome of asking for a list: the reply's failure if it has one, else
/// the items of its list elements, else "objects not found".
pub open spec fn list_outcome(s: Seq<Element>, list: Seq<char>, item: Seq<char>) -> Result<
    Seq<Element>,
    Failure,
> {
    match reply_verdict(s) {
        Err(f) => Err(f),
        Ok(_) => if has_named(s, list) {
            Ok(list_items(s, list, item))
        } else {
            Err(Failure::DataParse("Objects not found."@))
        },
    }
}

fn push_named<'a>(out: &mut Vec<&'a Element>, s: &'a Vec<Element>, tag: &str)
    ensures
        final(out)@.map_values(|e: &Element| *e) == old(out)@.map_values(|e: &Element| *e)
            + named_in(s@, tag@),
{
    let ghost start = out@.map_values(|e: &Element| *e);
    let mut i: usize = 0;
    while i < s.len()
        invariant
            i <= s@.len(),
            out@.map_values(|e: &Element| *e) == start + named_in(s@.subrange(0, i as int), tag@),
        decreases s@.len() - i,
    {
        let ghost before = out@;
        assert(s@.subrange(0, i + 1).drop_last() =~= s@.subrange(0, i as int));
        if has_name(&s[i], tag) {
            out.push(&s[i]);
            assert(out@.map_values(|e: &Element| *e) =~= before.map_values(|e: &Element| *e).push(s@[i as int]));
        }
        i = i + 1;
    }
    assert(s@.subrange(0, s@.len() as int) =~= s@);
}

/// Gathers the items of a list reply, after checking the reply.
pub fn find_list<'a>(data: &'a Vec<Element>, list: &str, item: &str) -> (r: Result<
    Vec<&'a Element>,
    Error,
>)
    ensures
        match r {
            Ok(v) => list_outcome(data@, list@, item@) == Ok::<Seq<Element>, Failure>(
                v@.map_values(|e: &Element| *e),
            ),
            Err(err) => list_outcome(data@, list@, item@) == Err::<Seq<Element>, Failure>(err@),
        },
{
    match verify_rpc_reply_contents(data) {
        Err(e) => { return Err(e); },
        Ok(_) => {},
    }
    let mut out: Vec<&'a Element> = Vec::new();
    let mut found = false;
    let mut i: usize = 0;
    while i < data.len()
        invariant
            i <= data@.len(),
            out@.map_values(|e: &Element| *e) == list_items(data@.subrange(0, i as int), list@, item@),
            found == has_named(data@.subrange(0, i as int), list@),
        decreases data@.len() - i,
    {
        let ghost pre = data@.subrange(0, i as int);
        let ghost next = data@.subrange(0, i + 1);
        assert(next.drop_last() =~= pre);
        assert(next.last() == data@[i as int]);
        if has_name(&data[i], list) {
            found = true;
            push_named(&mut out, &data[i].children, item);
            assert(has_named(next, list@)) by {
                assert(next[i as int].name@ == list@);
            }
        } else {
            assert(has_named(next, list@) == has_named(pre, list@)) by {
                if has_named(next, list@) {
                    let j = choose|j: int| 0 <= j < next.len() && #[trigger] next[j].name@ == list@;
                    assert(pre[j].name@ == list@);
                }
                if has_named(pre, list@) {
                    let j = choose|j: int| 0 <= j < pre.len() && #[trigger] pre[j].name@ == list@;
                    assert(next[j].name@ == list@);
                }
            }
        }
        i = i + 1;
    }
    assert(data@.subrange(0, data@.len() as int) =~= data@);
    if !found {
        return Err(Error::DataParse(String::from_str("Objects not found.")));
    }
    Ok(out)
}

/// The status code in an account manager poll reply: the last `error_num`
/// inside its `acct_mgr_rpc_reply` elements, read as an integer.
pub open spec fn rpc_status_outcome(s: Seq<Element>) -> Result<i32, Failure> {
    match reply_verdict(s) {
        Err(f) => Err(f),
        Ok(_) => match last_named(list_items(s, "acct_mgr_rpc_reply"@, "error_num"@), "error_num"@) {
            Some(e) => match text_i32(e) {
                Some(v) => Ok(v),
                None => Err(Failure::DataParse("acct_mgr_rpc_reply node not found"@)),
            },
            None => Err(Failure::DataParse("acct_mgr_rpc_reply node not found"@)),
        },
    }
}

/// Reads the status code of an account manager poll reply.
pub fn account_manager_rpc_status(data: &Vec<Element>) -> (r: Result<i32, Error>)
    ensures
        outcome(r) == rpc_status_outcome(data@),
{
    match verify_rpc_reply_contents(data) {
        Err(e) => { return Err(e); },
        Ok(_) => {},
    }
    let mut v: Option<i32> = None;
    let mut i: usize = 0;
    while i < data.len()
        invariant
            i <= data@.len(),
            v == match last_named(list_items(data@.subrange(0, i as int), "acct_mgr_rpc_reply"@, "error_num"@), "error_num"@) {
                Some(e) => text_i32(e),
                None => None::<i32>,
            },
        decreases data@.len() - i,
    {
        let ghost pre = data@.subrange(0, i as int);
        let ghost next = data@.subrange(0, i + 1);
        assert(next.drop_last() =~= pre);
        assert(next.last() == data@[i as int]);
        if has_name(&data[i], "acct_mgr_rpc_reply") {
            let kids = &data[i].children;
            let mut j: usize = 0;
            while j < kids.len()
                invariant
                    j <= kids@.len(),
                    kids@ == data@[i as int].children@,
                    v == match last_named(list_items(pre, "acct_mgr_rpc_reply"@, "error_num"@) + named_in(kids@.subrange(0, j as int), "error_num"@), "error_num"@) {
                        Some(e) => text_i32(e),
                        None => None::<i32>,
                    },
                decreases kids@.len() - j,
            {
                let ghost a = list_items(pre, "acct_mgr_rpc_reply"@, "error_num"@);
                assert(kids@.subrange(0, j + 1).drop_last() =~= kids@.subrange(0, j as int));
                if has_name(&kids[j], "error_num") {
                    let ghost b = a + named_in(kids@.subrange(0, j + 1), "error_num"@);
                    assert(b.drop_last() =~= a + named_in(kids@.subrange(0, j as int), "error_num"@));
                    assert(b.last() == kids@[j as int]);
                    v = eval_node_i32(&kids[j]);
                } else {
                    assert(a + named_in(kids@.subrange(0, j + 1), "error_num"@) =~= a + named_in(kids@.subrange(0, j as int), "error_num"@));
                }
                j = j + 1;
            }
            assert(kids@.subrange(0, kids@.len() as int) =~= kids@);
        }
        i = i + 1;
    }
    assert(data@.subrange(0, data@.len() as int) =~= data@);
    match v {
        Some(code) => Ok(code),
        None => Err(Error::DataParse(String::from_str("acct_mgr_rpc_reply node not found"))),
    }
}

/// A `status` element fails the reply with its code, whatever follows it:
/// once no element before it has failed, the verdict is a status failure
/// carrying the element's integer (9999 when its text is not one).
pub proof fn lemma_status_fails_reply(s: Seq<Element>, i: int)
    requires
        0 <= i < s.len(),
        s[i].name@ == "status"@,
        forall|j: int| 0 <= j < i ==> element_failure(#[trigger] s[j]) is None,
    ensures
        reply_verdict(s) == Err::<bool, Failure>(
            Failure::Status(
                match text_i32(s[i]) {
                    Some(c) => c,
                    None => 9999,
                },
            ),
        ),
    decreases i,
{
    if i > 0 {
        let t = s.drop_first();
        assert forall|j: int| 0 <= j < i - 1 implies element_failure(#[trigger] t[j]) is None by {
            assert(t[j] == s[j + 1]);
        }
        assert(element_failure(s[0]) is None);
        lemma_status_fails_reply(t, i - 1);
    }
}

/// A reply that reports success but lacks the requested object fails as
/// "object not found", not as a success.
pub proof fn lemma_success_without_object(s: Seq<Element>, tag: Seq<char>)
    requires
        reply_verdict(s) == Ok::<bool, Failure>(true),
        forall|i: int| 0 <= i < s.len() ==> (#[trigger] s[i]).name@ != tag,
    ensures
        object_outcome(s, tag) == Err::<Element, Failure>(Failure::DataParse("Object not found."@)),
{
    lemma_first_named_absent(s, tag);
}

proof fn lemma_first_named_absent(s: Seq<Element>, tag: Seq<char>)
    requires
        forall|i: int| 0 <= i < s.len() ==> (#[trigger] s[i]).name@ != tag,
    ensures
        first_named(s, tag) is None,
    decreases s.len(),
{
    if s.len() > 0 {
        let t = s.drop_first();
        assert forall|i: int| 0 <= i < t.len() implies (#[trigger] t[i]).name@ != tag by {
            assert(t[i] == s[i + 1]);
        }
        assert(s[0].name@ != tag);
        lemma_first_named_absent(t, tag);
    }
}

} // verus!
