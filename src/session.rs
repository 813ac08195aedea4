//! The session's handshake and query gate. The socket itself is driven by the
//! caller: this state machine says what to send and what a reply means.
use vstd::prelude::*;
use crate::errors::{Error, Failure, outcome};
use crate::reply::{has_named, reply_verdict, verify_rpc_reply_contents};
use crate::text::text_view;
use crate::tree::{Element, first_named, first_named_in, has_name};

verus! {

/// The lowercase hexadecimal MD5 digest of the UTF-8 bytes of a text.
pub uninterp spec fn md5_hex_of(s: Seq<char>) -> Seq<char>;

/// Relies on `md5::compute` for the digest and on its `LowerHex` format for
/// the text: the result depends on the input alone.
#[verifier::external_body]
fn md5_hex(s: &str) -> (r: String)
    ensures
        r@ == md5_hex_of(s@),
{
    format!("{:x}", md5::compute(s.as_bytes()))
}

/// Where a session stands.
#[derive(PartialEq, Eq, Structural, Clone, Copy, Debug)]
pub enum Phase {
    /// Nothing sent yet.
    Start,
    /// The begin-auth request was sent; the nonce is awaited.
    AwaitingNonce,
    /// The digest was sent; the verdict is awaited.
    AwaitingVerdict,
    /// Queries may run.
    Ready,
    /// The handshake failed; the session stays unusable.
    Rejected,
    /// A query failed after the handshake; the session stays unusable.
    Broken,
}

/// One connection's protocol state and its password.
pub struct Session {
    password: Option<String>,
    phase: Phase,
}

/// The nonce that a begin-auth reply carries, or why there is none.
pub open spec fn nonce_outcome(reply: Seq<Element>) -> Result<Seq<char>, Failure> {
    match reply_verdict(reply) {
        Err(f) => Err(f),
        Ok(_) => match first_named(reply, "nonce"@) {
            Some(e) => match text_view(e.text) {
                Some(t) => Ok(t),
                None => Err(Failure::DataParse("nonce not found"@)),
            },
            None => Err(Failure::DataParse("nonce not found"@)),
        },
    }
}

/// The verdict that a complete-auth reply carries.
pub open spec fn authorization_outcome(reply: Seq<Element>) -> Result<(), Failure> {
    match reply_verdict(reply) {
        Err(f) => Err(f),
        Ok(_) => if has_named(reply, "authorized"@) {
            Ok(())
        } else {
            Err(Failure::Auth(Seq::empty()))
        },
    }
}

/// Whether `r` is the complete-auth request for the given nonce and password.
pub open spec fn is_auth_reply_request(r: Element, nonce: Seq<char>, password: Seq<char>) -> bool {
    &&& r.name@ == "auth2"@
    &&& r.text is None
    &&& r.cdata is None
    &&& r.children@.len() == 1
    &&& r.children@[0].name@ == "nonce_hash"@
    &&& text_view(r.children@[0].text) == Some(md5_hex_of(nonce + password))
    &&& r.children@[0].cdata is None
    &&& r.children@[0].children@.len() == 0
}

/// The begin-auth request.
pub fn auth_begin_request() -> (r: Element)
    ensures
        r.name@ == "auth1"@,
        r.text is None,
        r.cdata is None,
        r.children@.len() == 0,
{
    Element::new("auth1")
}

/// The complete-auth request: the digest of the nonce followed by the password.
pub fn auth_reply_request(nonce: &str, password: &str) -> (r: Element)
    ensures
        is_auth_reply_request(r, nonce@, password@),
{
    let joined = nonce.to_owned().concat(password);
    let hash = Element::with_text("nonce_hash", md5_hex(joined.as_str()));
    let mut r = Element::new("auth2");
    r.push(hash);
    r
}

/// Reads the nonce out of a begin-auth reply.
pub fn nonce_of(reply: &Vec<Element>) -> (r: Result<String, Error>)
    ensures
        match r {
            Ok(s) => nonce_outcome(reply@) == Ok::<Seq<char>, Failure>(s@),
            Err(e) => nonce_outcome(reply@) == Err::<Seq<char>, Failure>(e@),
        },
{
    match verify_rpc_reply_contents(reply) {
        Err(e) => { return Err(e); },
        Ok(_) => {},
    }
    match first_named_in(reply, "nonce") {
        Some(e) => match &e.text {
            Some(t) => Ok(t.clone()),
            None => Err(Error::DataParse(String::from_str("nonce not found"))),
        },
        None => Err(Error::DataParse(String::from_str("nonce not found"))),
    }
}

/// Checks the verdict of a complete-auth reply.
pub fn check_authorized(reply: &Vec<Element>) -> (r: Result<(), Error>)
    ensures
        outcome(r) == authorization_outcome(reply@),
{
    match verify_rpc_reply_contents(reply) {
        Err(e) => { return Err(e); },
        Ok(_) => {},
    }
    let mut i: usize = 0;
    while i < reply.len()
        invariant
            i <= reply@.len(),
            reply_verdict(reply@) is Ok,
            forall|j: int| 0 <= j < i ==> reply@[j].name@ != "authorized"@,
        decreases reply@.len() - i,
    {
        if has_name(&reply[i], "authorized") {
            assert(reply@[i as int].name@ == "authorized"@);
            assert(has_named(reply@, "authorized"@));
            return Ok(());
        }
        i = i + 1;
    }
    Err(Error::Auth(String::new()))
}

/// The phase that one handshake reply leads to.
pub open spec fn next_phase(p: Phase, reply: Seq<Element>) -> Phase {
    match p {
        Phase::AwaitingNonce => if nonce_outcome(reply) is Ok {
            Phase::AwaitingVerdict
        } else {
            Phase::Rejected
        },
        Phase::AwaitingVerdict => if authorization_outcome(reply) is Ok {
            Phase::Ready
        } else {
            Phase::Rejected
        },
        _ => p,
    }
}

/// The phase after the handshake replies, in order.
pub open spec fn phase_after(p: Phase, replies: Seq<Seq<Element>>) -> Phase
    decreases replies.len(),
{
    if replies.len() == 0 {
        p
    } else {
        phase_after(next_phase(p, replies[0]), replies.drop_first())
    }
}

/// Whether, along the replies, a verdict reply granted authorization.
pub open spec fn authorized_along(p: Phase, replies: Seq<Seq<Element>>) -> bool
    decreases replies.len(),
{
    if replies.len() == 0 {
        false
    } else {
        (p == Phase::AwaitingVerdict && authorization_outcome(replies[0]) is Ok) || authorized_along(
            next_phase(p, replies[0]),
            replies.drop_first(),
        )
    }
}

impl Session {
    #[verifier::type_invariant]
    spec fn wf(self) -> bool {
        (self.phase == Phase::AwaitingNonce || self.phase == Phase::AwaitingVerdict)
            ==> self.password is Some
    }

    pub closed spec fn phase_view(&self) -> Phase {
        self.phase
    }

    pub closed spec fn password_view(&self) -> Option<Seq<char>> {
        text_view(self.password)
    }

    /// A session that has sent nothing yet.
    pub fn new(password: Option<String>) -> (r: Session)
        ensures
            r.phase_view() == Phase::Start,
            r.password_view() == text_view(password),
    {
        Session { password, phase: Phase::Start }
    }

    /// Where the session stands.
    pub fn phase(&self) -> (r: Phase)
        ensures
            r == self.phase_view(),
    {
        self.phase
    }

    /// Starts the handshake: the request to send, or none when no password is
    /// set and queries may run at once.
    pub fn begin(&mut self) -> (r: Result<Option<Element>, Error>)
        ensures
            final(self).password_view() == old(self).password_view(),
            old(self).phase_view() == Phase::Start ==> match old(self).password_view() {
                None => r == Ok::<Option<Element>, Error>(None) && final(self).phase_view()
                    == Phase::Ready,
                Some(_) => r matches Ok(Some(q)) && q.name@ == "auth1"@ && q.children@.len() == 0
                    && q.text is None && q.cdata is None && final(self).phase_view()
                    == Phase::AwaitingNonce,
            },
            old(self).phase_view() != Phase::Start ==> r is Err && final(self).phase_view()
                == old(self).phase_view(),
    {
        if self.phase != Phase::Start {
            return Err(Error::Null(String::from_str("the handshake has already begun")));
        }
        match &self.password {
            None => {
                self.phase = Phase::Ready;
                Ok(None)
            },
            Some(_) => {
                self.phase = Phase::AwaitingNonce;
                Ok(Some(auth_begin_request()))
            },
        }
    }

    /// Takes the reply to the last handshake request: the next request to
    /// send, or none when the handshake is complete. Any failure leaves the
    /// session rejected.
    pub fn on_reply(&mut self, reply: &Vec<Element>) -> (r: Result<Option<Element>, Error>)
        ensures
            final(self).password_view() == old(self).password_view(),
            final(self).phase_view() == next_phase(old(self).phase_view(), reply@),
            old(self).phase_view() == Phase::AwaitingNonce ==> match nonce_outcome(reply@) {
                Ok(nonce) => r matches Ok(Some(q)) && is_auth_reply_request(
                    q,
                    nonce,
                    old(self).password_view()->0,
                ) && final(self).phase_view() == Phase::AwaitingVerdict,
                Err(f) => r matches Err(e) && e@ == f && final(self).phase_view()
                    == Phase::Rejected,
            },
            old(self).phase_view() == Phase::AwaitingVerdict ==> match authorization_outcome(
                reply@,
            ) {
                Ok(_) => r == Ok::<Option<Element>, Error>(None) && final(self).phase_view()
                    == Phase::Ready,
                Err(f) => r matches Err(e) && e@ == f && final(self).phase_view()
                    == Phase::Rejected,
            },
            old(self).phase_view() != Phase::AwaitingNonce && old(self).phase_view()
                != Phase::AwaitingVerdict ==> r is Err && final(self).phase_view()
                == old(self).phase_view(),
    {
        proof {
            use_type_invariant(&*self);
        }
        if self.phase == Phase::AwaitingNonce {
            let password = match &self.password {
                Some(p) => p,
                None => {
                    return Err(Error::Null(String::from_str("no password is set")));
                },
            };
            match nonce_of(reply) {
                Ok(nonce) => {
                    let q = auth_reply_request(nonce.as_str(), password.as_str());
                    self.phase = Phase::AwaitingVerdict;
                    Ok(Some(q))
                },
                Err(e) => {
                    self.phase = Phase::Rejected;
                    Err(e)
                },
            }
        } else if self.phase == Phase::AwaitingVerdict {
            match check_authorized(reply) {
                Ok(()) => {
                    self.phase = Phase::Ready;
                    Ok(None)
                },
                Err(e) => {
                    self.phase = Phase::Rejected;
                    Err(e)
                },
            }
        } else {
            Err(Error::Null(String::from_str("no handshake reply is awaited")))
        }
    }

    /// Whether a query may run now: only once the handshake has completed.
    pub fn query_gate(&self) -> (r: Result<(), Error>)
        ensures
            r is Ok <==> self.phase_view() == Phase::Ready,
            self.phase_view() == Phase::Broken ==> (r matches Err(e) && e@ is Network),
            self.phase_view() != Phase::Ready && self.phase_view() != Phase::Broken ==> (r matches Err(
                e,
            ) && e@ is Auth),
    {
        match self.phase {
            Phase::Ready => Ok(()),
            Phase::Broken => Err(Error::Network(String::from_str("the session failed earlier"))),
            _ => Err(Error::Auth(String::from_str("the handshake has not completed"))),
        }
    }

    /// Records the outcome of a query: a failure leaves the session broken.
    pub fn after_query<T>(&mut self, result: &Result<T, Error>)
        ensures
            final(self).password_view() == old(self).password_view(),
            result is Err ==> final(self).phase_view() == Phase::Broken,
            result is Ok ==> final(self).phase_view() == old(self).phase_view(),
    {
        if result.is_err() {
            self.phase = Phase::Broken;
        }
    }
}

/// A session with a password serves no query before its handshake has
/// completed: whatever replies the daemon sends after the begin-auth
/// request, unless one of them grants authorization to the digest, the
/// session does not reach `Ready` (nor `Broken`), so its gate fails every
/// query with an authorization error.
pub proof fn lemma_query_before_handshake_fails(replies: Seq<Seq<Element>>)
    ensures
        !authorized_along(Phase::AwaitingNonce, replies) ==> {
            let p = phase_after(Phase::AwaitingNonce, replies);
            p != Phase::Ready && p != Phase::Broken
        },
{
    lemma_unauthorized_stays_out(Phase::AwaitingNonce, replies);
}

proof fn lemma_unauthorized_stays_out(p: Phase, replies: Seq<Seq<Element>>)
    requires
        p != Phase::Ready,
        p != Phase::Broken,
    ensures
        !authorized_along(p, replies) ==> {
            let q = phase_after(p, replies);
            q != Phase::Ready && q != Phase::Broken
        },
    decreases replies.len(),
{
    if replies.len() > 0 && !authorized_along(p, replies) {
        lemma_unauthorized_stays_out(next_phase(p, replies[0]), replies.drop_first());
    }
}

} // verus!
