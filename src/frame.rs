//! Framing: a request or reply is one element tree in text form, ended by a
//! single delimiter byte. Replies may arrive in chunks of any size.
use vstd::prelude::*;
use crate::errors::Error;
use crate::tree::Element;

verus! {

/// The byte that ends every frame.
pub const DELIMITER: u8 = 3;

/// The bytes of `s` before its first delimiter, when it has one.
pub open spec fn frame_of(s: Seq<u8>) -> Option<Seq<u8>>
    decreases s.len(),
{
    if s.len() == 0 {
        None
    } else if s[0] == DELIMITER {
        Some(Seq::empty())
    } else {
        match frame_of(s.drop_first()) {
            Some(f) => Some(seq![s[0]] + f),
            None => None,
        }
    }
}

/// What one chunk does to the pending bytes of a reader: the bytes pending
/// afterwards, and the frame completed by it, if any. The bytes after the
/// delimiter stay pending.
pub open spec fn feed_step(pending: Seq<u8>, chunk: Seq<u8>) -> (Seq<u8>, Option<Seq<u8>>) {
    let all = pending + chunk;
    match frame_of(all) {
        Some(f) => (all.subrange(f.len() as int + 1, all.len() as int), Some(f)),
        None => (all, None),
    }
}

/// The first frame that a reader holding `pending` completes when handed
/// `chunks` one after another.
pub open spec fn first_frame(pending: Seq<u8>, chunks: Seq<Seq<u8>>) -> Option<Seq<u8>>
    decreases chunks.len(),
{
    if chunks.len() == 0 {
        None
    } else {
        let (next, out) = feed_step(pending, chunks[0]);
        if out is Some {
            out
        } else {
            first_frame(next, chunks.drop_first())
        }
    }
}

/// The chunks joined in order.
pub open spec fn joined(chunks: Seq<Seq<u8>>) -> Seq<u8>
    decreases chunks.len(),
{
    if chunks.len() == 0 {
        Seq::empty()
    } else {
        chunks[0] + joined(chunks.drop_first())
    }
}

proof fn lemma_frame_at(s: Seq<u8>, k: int)
    requires
        0 <= k < s.len(),
        s[k] == DELIMITER,
        forall|j: int| 0 <= j < k ==> s[j] != DELIMITER,
    ensures
        frame_of(s) == Some(s.subrange(0, k)),
    decreases k,
{
    if k > 0 {
        let t = s.drop_first();
        assert forall|j: int| 0 <= j < k - 1 implies t[j] != DELIMITER by {
            assert(t[j] == s[j + 1]);
        }
        lemma_frame_at(t, k - 1);
        assert(seq![s[0]] + t.subrange(0, k - 1) =~= s.subrange(0, k));
    } else {
        assert(s.subrange(0, 0) =~= Seq::<u8>::empty());
    }
}

proof fn lemma_no_frame(s: Seq<u8>)
    requires
        forall|j: int| 0 <= j < s.len() ==> s[j] != DELIMITER,
    ensures
        frame_of(s) is None,
    decreases s.len(),
{
    if s.len() > 0 {
        let t = s.drop_first();
        assert forall|j: int| 0 <= j < t.len() implies t[j] != DELIMITER by {
            assert(t[j] == s[j + 1]);
        }
        lemma_no_frame(t);
    }
}

proof fn lemma_frame_extends(a: Seq<u8>, b: Seq<u8>)
    requires
        frame_of(a) is Some,
    ensures
        frame_of(a + b) == frame_of(a),
    decreases a.len(),
{
    if a[0] != DELIMITER {
        lemma_frame_extends(a.drop_first(), b);
        assert((a + b).drop_first() =~= a.drop_first() + b);
    }
    assert((a + b)[0] == a[0]);
}

proof fn lemma_first_frame(pending: Seq<u8>, chunks: Seq<Seq<u8>>)
    requires
        frame_of(pending) is None,
    ensures
        first_frame(pending, chunks) == frame_of(pending + joined(chunks)),
    decreases chunks.len(),
{
    if chunks.len() == 0 {
        assert(pending + joined(chunks) =~= pending);
    } else {
        let all = pending + chunks[0];
        let rest = joined(chunks.drop_first());
        assert(pending + joined(chunks) =~= all + rest);
        if frame_of(all) is Some {
            lemma_frame_extends(all, rest);
        } else {
            lemma_first_frame(all, chunks.drop_first());
        }
    }
}

/// Reading is independent of how the bytes are cut into chunks: a reader
/// that starts empty and is handed the chunks one by one completes, as its
/// first frame, exactly the frame of all the bytes read at once.
pub proof fn lemma_chunking_invariant(chunks: Seq<Seq<u8>>)
    ensures
        first_frame(Seq::empty(), chunks) == frame_of(joined(chunks)),
{
    lemma_first_frame(Seq::empty(), chunks);
    assert(Seq::<u8>::empty() + joined(chunks) =~= joined(chunks));
}

/// A request frame: the request's text followed by the delimiter.
pub fn frame_request(text: Vec<u8>) -> (r: Vec<u8>)
    ensures
        r@ == text@.push(DELIMITER),
{
    let mut r = text;
    r.push(DELIMITER);
    r
}

/// The request envelope around the operations to run.
pub fn request_envelope(ops: Vec<Element>) -> (r: Element)
    ensures
        r.name@ == "boinc_gui_rpc_request"@,
        r.text is None,
        r.cdata is None,
        r.children@ == ops@,
{
    Element {
        name: String::from_str("boinc_gui_rpc_request"),
        text: None,
        cdata: None,
        children: ops,
    }
}

/// The payload of a reply: the children of its envelope element.
pub fn reply_children(root: Element) -> (r: Vec<Element>)
    ensures
        r@ == root.children@,
{
    root.children
}

/// Collects the bytes of reply frames as they arrive.
pub struct FrameReader {
    pending: Vec<u8>,
}

impl View for FrameReader {
    type V = Seq<u8>;

    /// The bytes received and not yet handed out in a frame.
    closed spec fn view(&self) -> Seq<u8> {
        self.pending@
    }
}

impl FrameReader {
    /// A reader that holds nothing.
    pub fn new() -> (r: FrameReader)
        ensures
            r@ == Seq::<u8>::empty(),
    {
        FrameReader { pending: Vec::new() }
    }

    /// Takes one chunk of received bytes; returns the frame that it
    /// completes, if any.
    pub fn feed(&mut self, chunk: &[u8]) -> (r: Option<Vec<u8>>)
        ensures
            (final(self)@, match r {
                Some(f) => Some(f@),
                None => None::<Seq<u8>>,
            }) == feed_step(old(self)@, chunk@),
    {
        let ghost start = self.pending@;
        let mut i: usize = 0;
        while i < chunk.len()
            invariant
                i <= chunk@.len(),
                self.pending@ == start + chunk@.subrange(0, i as int),
            decreases chunk@.len() - i,
        {
            self.pending.push(chunk[i]);
            assert(start + chunk@.subrange(0, i + 1) =~= (start + chunk@.subrange(0, i as int)).push(chunk@[i as int]));
            i = i + 1;
        }
        assert(chunk@.subrange(0, chunk@.len() as int) =~= chunk@);
        let ghost all = self.pending@;
        let n = self.pending.len();
        let mut k: usize = 0;
        while k < n && self.pending[k] != DELIMITER
            invariant
                k <= n,
                n == all.len(),
                self.pending@ == all,
                forall|j: int| 0 <= j < k ==> all[j] != DELIMITER,
            decreases n - k,
        {
            k = k + 1;
        }
        if k == n {
            proof { lemma_no_frame(all); }
            return None;
        }
        proof { lemma_frame_at(all, k as int); }
        let mut frame: Vec<u8> = Vec::new();
        let mut j: usize = 0;
        while j < k
            invariant
                j <= k < n,
                n == all.len(),
                self.pending@ == all,
                frame@ == all.subrange(0, j as int),
            decreases k - j,
        {
            frame.push(self.pending[j]);
            assert(all.subrange(0, j + 1) =~= all.subrange(0, j as int).push(all[j as int]));
            j = j + 1;
        }
        let mut rest: Vec<u8> = Vec::new();
        let mut j: usize = k + 1;
        while j < n
            invariant
                k + 1 <= j <= n,
                n == all.len(),
                self.pending@ == all,
                rest@ == all.subrange(k + 1, j as int),
            decreases n - j,
        {
            rest.push(self.pending[j]);
            assert(all.subrange(k + 1, j + 1) =~= all.subrange(k + 1, j as int).push(all[j as int]));
            j = j + 1;
        }
        self.pending = rest;
        Some(frame)
    }

    /// The failure when the stream ends before a frame is complete.
    pub fn closed_early(&self) -> (r: Error)
        ensures
            r@ == crate::errors::Failure::Network("connection closed before the reply was complete"@),
    {
        Error::Network(String::from_str("connection closed before the reply was complete"))
    }
}

} // verus!
