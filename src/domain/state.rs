//! The booking session as a typestate: a session's type names its state, so
//! only the transitions legal in that state exist for it.
//! `Initial --checkin--> Ongoing --finish--> Done`, `Ongoing --cancel--> Cancelled`.
use std::marker::PhantomData;
use uuid::Uuid;
use vstd::prelude::*;

verus! {

pub trait BookingState {}

#[derive(Debug)]
pub struct UserId(pub String);

#[derive(Debug)]
pub struct Session<State: BookingState = Initial> {
    pub id: String,
    pub user_id: Option<UserId>,
    pub marker: PhantomData<State>,
}

#[derive(Debug, Default)]
pub struct Initial;

#[derive(Debug, Default)]
pub struct Ongoing;

#[derive(Debug, Default)]
pub struct Cancelled;

#[derive(Debug, Default)]
pub struct Done;

impl BookingState for Initial {}

impl BookingState for Ongoing {}

impl BookingState for Cancelled {}

impl BookingState for Done {}

pub open spec fn is_lower_hex(c: char) -> bool {
    ('0' <= c && c <= '9') || ('a' <= c && c <= 'f')
}

/// The hyphenated lowercase text of a random (version 4, RFC 4122 variant)
/// UUID: `xxxxxxxx-xxxx-4xxx-Nxxx-xxxxxxxxxxxx`, `N` one of `8 9 a b`.
pub open spec fn is_uuid_v4_text(s: Seq<char>) -> bool {
    &&& s.len() == 36
    &&& forall|i: int|
        #![trigger s[i]]
        0 <= i < 36 ==> if i == 8 || i == 13 || i == 18 || i == 23 {
            s[i] == '-'
        } else {
            is_lower_hex(s[i])
        }
    &&& s[14] == '4'
    &&& (s[19] == '8' || s[19] == '9' || s[19] == 'a' || s[19] == 'b')
}

/// Relies on uuid's `Uuid::new_v4`, which sets the version and variant bits
/// of random bits, and its `Display`, the hyphenated lowercase form.
#[verifier::external_body]
fn fresh_session_id() -> (r: String)
    ensures
        is_uuid_v4_text(r@),
{
    Uuid::new_v4().to_string()
}

impl Session {
    /// A session in its initial state, under a fresh random UUID, with no
    /// user.
    pub fn new() -> (r: Session<Initial>)
        ensures
            r.user_id is None,
            is_uuid_v4_text(r.id@),
    {
        Session::<Initial> { id: fresh_session_id(), user_id: None, marker: PhantomData }
    }
}

impl Session<Initial> {
    /// Checks a user in: the session goes on under the same identifier.
    pub fn checkin(self) -> (r: Session<Ongoing>)
        ensures
            r.id@ == self.id@,
            r.user_id is Some,
    {
        let user = UserId(String::from_str("test"));
        Session::<Ongoing> { id: self.id, user_id: Some(user), marker: PhantomData }
    }
}

impl Session<Ongoing> {
    pub fn finish(self) -> (r: Session<Done>)
        ensures
            r.id@ == self.id@,
            r.user_id == self.user_id,
    {
        Session::<Done> { id: self.id, user_id: self.user_id, marker: PhantomData }
    }

    pub fn cancel(self) -> (r: Session<Cancelled>)
        ensures
            r.id@ == self.id@,
            r.user_id == self.user_id,
    {
        Session::<Cancelled> { id: self.id, user_id: self.user_id, marker: PhantomData }
    }
}

impl Session<Done> {
    pub fn completed(self) -> (r: bool)
        ensures
            r,
    {
        true
    }
}

impl Session<Cancelled> {
    pub fn cancelled(self) -> (r: bool)
        ensures
            r,
    {
        true
    }
}

} // verus!
