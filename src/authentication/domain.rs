//! Header, claims and the decoded token.
use std::time::SystemTime;
use vstd::prelude::*;

verus! {

pub const TOKEN_DELIMETER: &'static str = ".";

pub const DEFAULT_TOKEN_ALG: &'static str = "RS256";

pub const DEFAULT_TOKEN_TYPE: &'static str = "JWT";

/// One hour.
pub const DEFAULT_TOKEN_TTL: u64 = 3600;

pub struct Header {
    pub alg: String,
    pub typ: String,
}

/// Claims: the subject's name and the expiry, in seconds since the Unix epoch.
pub struct Payload {
    pub name: String,
    pub exp: u64,
}

pub struct Token {
    pub header: Header,
    pub payload: Payload,
}

/// How tokens are issued: how long, in seconds, their claims live.
pub struct Options {
    pub expires_in: u64,
}

#[derive(Debug, Clone, Copy, PartialEq, Eq, Structural)]
pub enum TokenError {
    /// The text is not a token: `decode` refuses it.
    InvalidFormat,
    InvalidAlg,
    InvalidTyp,
    InvalidSignature,
    Expired,
    MissingRequiredClaims,
    InvalidIssuer,
}

impl View for Header {
    /// `(alg, typ)`
    type V = (Seq<char>, Seq<char>);

    open spec fn view(&self) -> (Seq<char>, Seq<char>) {
        (self.alg@, self.typ@)
    }
}

impl View for Payload {
    /// `(name, exp)`
    type V = (Seq<char>, u64);

    open spec fn view(&self) -> (Seq<char>, u64) {
        (self.name@, self.exp)
    }
}

impl View for Token {
    type V = ((Seq<char>, Seq<char>), (Seq<char>, u64));

    open spec fn view(&self) -> ((Seq<char>, Seq<char>), (Seq<char>, u64)) {
        (self.header@, self.payload@)
    }
}

/// The header that every token is signed with.
pub open spec fn default_header() -> (Seq<char>, Seq<char>) {
    (DEFAULT_TOKEN_ALG@, DEFAULT_TOKEN_TYPE@)
}

/// The expiry of claims issued at `now` for `ttl` seconds; it stays at the
/// largest time where the sum does not fit.
pub open spec fn expiry(now: u64, ttl: u64) -> u64 {
    if now + ttl <= u64::MAX {
        (now + ttl) as u64
    } else {
        u64::MAX
    }
}

/// Claims that expire at `exp` have expired at `now`.
pub open spec fn expired_at(exp: u64, now: u64) -> bool {
    exp < now
}

/// Relies on `SystemTime::now` and `SystemTime::duration_since(UNIX_EPOCH)`:
/// the clock in whole seconds since the Unix epoch, or `None` where the clock
/// reads before the epoch, which std reports as an error.
#[verifier::external_body]
pub(crate) fn get_sys_time_in_secs() -> Option<u64> {
    match SystemTime::now().duration_since(SystemTime::UNIX_EPOCH) {
        Ok(d) => Some(d.as_secs()),
        Err(_) => None,
    }
}

fn get_expired_unix_timestamp(now: u64, ttl: u64) -> (r: u64)
    ensures
        r == expiry(now, ttl),
{
    now.saturating_add(ttl)
}

impl Header {
    pub fn new() -> (r: Header)
        ensures
            r@ == default_header(),
    {
        Header { alg: DEFAULT_TOKEN_ALG.to_owned(), typ: DEFAULT_TOKEN_TYPE.to_owned() }
    }
}

impl Options {
    pub fn new() -> (r: Options)
        ensures
            r.expires_in == DEFAULT_TOKEN_TTL,
    {
        Options { expires_in: DEFAULT_TOKEN_TTL }
    }
}

impl Payload {
    /// Claims for `name` that expire `options.expires_in` seconds after the
    /// clock's present reading; `None` where the clock reads before the
    /// epoch, when no expiry can be given.
    pub fn with_options(name: String, options: &Options) -> (r: Option<Payload>)
        ensures
            r matches Some(p) ==> p.name@ == name@ && exists|now: u64|
                p.exp == #[trigger] expiry(now, options.expires_in),
    {
        match get_sys_time_in_secs() {
            Some(now) => Some(Payload::issued_at(name, now, options.expires_in)),
            None => None,
        }
    }

    /// Claims for `name` that expire `DEFAULT_TOKEN_TTL` seconds after the
    /// clock's present reading; `None` where the clock reads before the
    /// epoch.
    pub fn new(name: String) -> (r: Option<Payload>)
        ensures
            r matches Some(p) ==> p.name@ == name@ && exists|now: u64|
                p.exp == #[trigger] expiry(now, DEFAULT_TOKEN_TTL),
    {
        match get_sys_time_in_secs() {
            Some(now) => Some(Payload::issued_at(name, now, DEFAULT_TOKEN_TTL)),
            None => None,
        }
    }

    /// Claims for `name` issued at `now` that expire `ttl` seconds later.
    pub fn issued_at(name: String, now: u64, ttl: u64) -> (r: Payload)
        ensures
            r.name@ == name@,
            r.exp == expiry(now, ttl),
    {
        Payload { name, exp: get_expired_unix_timestamp(now, ttl) }
    }

    /// The same claims, expiring `ttl` seconds after the clock's present
    /// reading; `None` where the clock reads before the epoch.
    pub fn set_exp(self, ttl: u64) -> (r: Option<Payload>)
        ensures
            r matches Some(p) ==> p.name@ == self.name@ && exists|now: u64|
                p.exp == #[trigger] expiry(now, ttl),
    {
        match get_sys_time_in_secs() {
            Some(now) => Some(Payload::issued_at(self.name, now, ttl)),
            None => None,
        }
    }
}

impl Token {
    pub fn new(header: Header, payload: Payload) -> (r: Token)
        ensures
            r@ == (header@, payload@),
    {
        Token { header, payload }
    }

    /// Whether the claims expired before the clock's present reading. A clock
    /// before the epoch is earlier than every expiry.
    pub fn is_expired(&self) -> (r: bool)
        ensures
            exists|now: u64| r == #[trigger] expired_at(self.payload.exp, now),
    {
        match get_sys_time_in_secs() {
            Some(now) => self.is_expired_at(now),
            None => {
                assert(!expired_at(self.payload.exp, 0));
                false
            },
        }
    }

    /// Whether the claims expired before `now`.
    pub fn is_expired_at(&self, now: u64) -> (r: bool)
        ensures
            r == expired_at(self.payload.exp, now),
    {
        self.payload.exp < now
    }
}

/// Tokens issued at a later time, for the same lifetime, expire strictly
/// later, as long as the later expiry fits in a `u64`.
pub proof fn lemma_expiry_increases(t1: u64, t2: u64, ttl: u64)
    requires
        t1 < t2,
        t2 + ttl <= u64::MAX,
    ensures
        expiry(t1, ttl) < expiry(t2, ttl),
{
}

} // verus!
