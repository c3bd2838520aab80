//! Visitor identity: the session identifier that a request carries in a cookie,
//! and the cookie that is issued when it carries none.

use vstd::prelude::*;
use vstd::utf8::encode_utf8;

use crate::text::{
    decimal_chars, decimal_text, lemma_parse_inverts_decimal, parse_usize, parsed_usize, same_text,
};

verus! {

/// The name of the cookie that carries the session identifier.
pub const SESSION_ID_KEY: &'static str = "session_id";

/// Identifies one visitor's todo list.
#[derive(Clone, Copy, Debug, PartialEq, Eq, Structural)]
pub struct SessionId(pub usize);

/// A cookie: a name and a value.
#[derive(Clone, Debug, PartialEq, Eq)]
pub struct Cookie {
    pub name: String,
    pub value: String,
}

/// A cookie, with its name and value as sequences of characters.
pub struct CookieView {
    pub name: Seq<char>,
    pub value: Seq<char>,
}

impl View for Cookie {
    type V = CookieView;

    open spec fn view(&self) -> CookieView {
        CookieView { name: self.name@, value: self.value@ }
    }
}

/// The value under a name in a sequence of cookies. Where several cookies share
/// the name, the one added last counts.
pub open spec fn value_of(cookies: Seq<CookieView>, name: Seq<char>) -> Option<Seq<char>>
    decreases cookies.len(),
{
    if cookies.len() == 0 {
        None
    } else if cookies.last().name == name {
        Some(cookies.last().value)
    } else {
        value_of(cookies.drop_last(), name)
    }
}

/// The cookies of a request or of a response, in the order in which they were
/// added.
#[derive(Clone, Debug, PartialEq, Eq)]
pub struct CookieJar {
    pub cookies: Vec<Cookie>,
}

impl View for CookieJar {
    type V = Seq<CookieView>;

    open spec fn view(&self) -> Seq<CookieView> {
        self.cookies@.map_values(|cookie: Cookie| cookie@)
    }
}

impl CookieJar {
    /// A jar without cookies.
    pub fn new() -> (jar: CookieJar)
        ensures
            jar@ == Seq::<CookieView>::empty(),
    {
        let jar = CookieJar { cookies: Vec::new() };
        assert(jar@ =~= Seq::<CookieView>::empty());
        jar
    }

    /// Adds a cookie. It takes the place of any earlier cookie of the same name.
    pub fn add(&mut self, cookie: Cookie)
        ensures
            final(self)@ == old(self)@.push(cookie@),
            value_of(final(self)@, cookie@.name) == Some(cookie@.value),
    {
        let ghost before = self@;
        let ghost added = cookie@;
        self.cookies.push(cookie);
        assert(self@ =~= before.push(added));
    }

    /// The value of the cookie with this name, if the jar has one.
    pub fn get(&self, name: &str) -> (value: Option<&str>)
        ensures
            match value {
                Some(text) => value_of(self@, name@) == Some(text@),
                None => value_of(self@, name@).is_none(),
            },
    {
        let mut i: usize = self.cookies.len();
        proof {
            assert(self@.take(i as int) =~= self@);
        }
        while i > 0
            invariant
                i <= self.cookies@.len(),
                value_of(self@, name@) == value_of(self@.take(i as int), name@),
            decreases i,
        {
            i -= 1;
            proof {
                assert(self@.take(i + 1).drop_last() =~= self@.take(i as int));
                assert(self@.take(i + 1).last() == self.cookies@[i as int]@);
            }
            if same_text(self.cookies[i].name.as_str(), name) {
                return Some(self.cookies[i].value.as_str());
            }
        }
        None
    }
}

/// The session identifier that a request's cookies carry: the number that the
/// session cookie writes in decimal. There is none where the cookie is missing
/// or its value is no such number.
pub open spec fn carried_id(cookies: Seq<CookieView>) -> Option<SessionId> {
    match value_of(cookies, SESSION_ID_KEY@) {
        Some(value) => match parsed_usize(encode_utf8(value)) {
            Some(number) => Some(SessionId(number)),
            None => None,
        },
        None => None,
    }
}

/// The cookie that tells a visitor its session identifier.
pub open spec fn session_cookie(id: SessionId) -> CookieView {
    CookieView { name: SESSION_ID_KEY@, value: decimal_chars(id.0 as nat) }
}

/// A request that carries the cookie issued for an identifier resolves to that
/// identifier, whatever other cookies came before.
pub proof fn lemma_issued_cookie_is_carried(cookies: Seq<CookieView>, id: SessionId)
    ensures
        carried_id(cookies.push(session_cookie(id))) == Some(id),
{
    lemma_parse_inverts_decimal(id.0);
}

/// The session identifier of a request, as its cookies settled it.
#[derive(Debug, PartialEq, Eq)]
pub struct CookieSessionId(SessionId);

impl View for CookieSessionId {
    type V = SessionId;

    closed spec fn view(&self) -> SessionId {
        self.0
    }
}

impl From<CookieSessionId> for SessionId {
    fn from(id: CookieSessionId) -> (session: SessionId) {
        id.0
    }
}

impl vstd::std_specs::convert::FromSpecImpl<CookieSessionId> for SessionId {
    open spec fn obeys_from_spec() -> bool {
        true
    }

    open spec fn from_spec(id: CookieSessionId) -> SessionId {
        id@
    }
}

/// A number drawn by `rand::random`, from the generator of the calling thread.
/// Nothing is claimed of the number.
#[verifier::external_body]
fn random_number() -> usize {
    rand::random::<usize>()
}

impl CookieSessionId {
    /// The session identifier.
    pub fn id(&self) -> (id: SessionId)
        ensures
            id == self@,
    {
        self.0
    }

    /// The identifier that the request's cookies carry, if they carry one.
    pub fn carried(request: &CookieJar) -> (carried: Option<SessionId>)
        ensures
            carried == carried_id(request@),
    {
        match request.get(SESSION_ID_KEY) {
            Some(value) => match parse_usize(value) {
                Some(number) => Some(SessionId(number)),
                None => None,
            },
            None => None,
        }
    }

    /// Puts the cookie for a new session into the response.
    fn issue(response: &mut CookieJar, fresh: SessionId) -> (id: CookieSessionId)
        ensures
            id@ == fresh,
            final(response)@ == old(response)@.push(session_cookie(fresh)),
    {
        response.add(
            Cookie { name: SESSION_ID_KEY.to_owned(), value: decimal_text(fresh.0) },
        );
        CookieSessionId(fresh)
    }

    /// Settles the session of a request, with `fresh` as the identifier to use
    /// for a new session. A request that carries an identifier keeps it, and
    /// the response gets no cookie. Any other request starts the session
    /// `fresh`, and the response gets the one cookie that tells the visitor so.
    pub fn resolve(request: &CookieJar, response: &mut CookieJar, fresh: SessionId) -> (id:
        CookieSessionId)
        ensures
            match carried_id(request@) {
                Some(carried) => id@ == carried && final(response)@ == old(response)@,
                None => id@ == fresh && final(response)@ == old(response)@.push(
                    session_cookie(fresh),
                ),
            },
    {
        match Self::carried(request) {
            Some(carried) => CookieSessionId(carried),
            None => Self::issue(response, fresh),
        }
    }

    /// Settles the session of a request. A request that carries an identifier
    /// keeps it, and the response gets no cookie. Any other request starts a
    /// session under a random identifier, and the response gets the one cookie
    /// that tells the visitor which.
    pub fn from_request(request: &CookieJar, response: &mut CookieJar) -> (id: CookieSessionId)
        ensures
            match carried_id(request@) {
                Some(carried) => id@ == carried && final(response)@ == old(response)@,
                None => final(response)@ == old(response)@.push(session_cookie(id@)),
            },
    {
        match Self::carried(request) {
            Some(carried) => CookieSessionId(carried),
            None => Self::issue(response, SessionId(random_number())),
        }
    }
}

} // verus!
