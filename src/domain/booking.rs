//! Hosts (hotels and guest houses) and their names.
use crate::text::str_eq;
use unicode_segmentation::UnicodeSegmentation;
use uuid::Uuid;
use vstd::prelude::*;
use vstd::string::StringExecFns;

verus! {

/// The number of extended grapheme clusters of `s`.
pub uninterp spec fn extended_grapheme_count(s: Seq<char>) -> nat;

/// Relies on unicode-segmentation's `UnicodeSegmentation::graphemes` with
/// extended clusters: how many clusters the text splits into.
#[verifier::external_body]
fn grapheme_count(s: &str) -> (r: usize)
    ensures
        r as nat == extended_grapheme_count(s@),
{
    s.graphemes(true).count()
}

pub open spec fn is_forbidden_char(c: char) -> bool {
    c == '/' || c == '(' || c == ')' || c == '"' || c == '<' || c == '>' || c == '\\' || c == '{'
        || c == '}'
}

pub open spec fn has_forbidden_char(s: Seq<char>) -> bool {
    exists|i: int| 0 <= i < s.len() && #[trigger] is_forbidden_char(s[i])
}

/// A name: not empty, at most 256 grapheme clusters (of which `s` has
/// `graphemes`), and none of `/ ( ) " < > \ { }`.
pub open spec fn is_general_name(s: Seq<char>, graphemes: nat) -> bool {
    s.len() > 0 && graphemes <= 256 && !has_forbidden_char(s)
}

/// A validated name of a host or a room.
#[derive(Debug)]
pub struct GeneralName(String);

/// The kind of a host. A room belongs to a hotel or to a guest house, not
/// both.
#[derive(Debug, Clone, Copy, PartialEq, Eq, Structural)]
pub enum HostCategory {
    Hotel,
    GuestHouse,
}

#[verifier::external_type_specification]
#[verifier::external_body]
pub struct ExUuid(uuid::Uuid);

/// A host is only a room's container: its kind and its name.
pub struct Host {
    pub id: Uuid,
    pub category: HostCategory,
    pub name: GeneralName,
}

pub struct NewHost {
    pub name: GeneralName,
    pub category: HostCategory,
}

pub struct Room {
    pub id: Uuid,
    pub container: Host,
    pub name: GeneralName,
    pub description: String,
    pub number_of_beds: u16,
}

pub struct NewRoom {
    pub host_id: Uuid,
    pub name: GeneralName,
    pub description: String,
    pub number_of_beds: u16,
}

fn contains_forbidden_char(s: &str) -> (r: bool)
    ensures
        r == has_forbidden_char(s@),
{
    let mut found = false;
    for c in it: s.chars()
        invariant
            it.seq() == s@,
            found == exists|i: int| 0 <= i < it.index() && #[trigger] is_forbidden_char(s@[i]),
    {
        let forbidden = c == '/' || c == '(' || c == ')' || c == '"' || c == '<' || c == '>' || c
            == '\\' || c == '{' || c == '}';
        proof {
            assert(c == s@[it.index() as int]);
            assert(forbidden == is_forbidden_char(s@[it.index() as int]));
        }
        found = found || forbidden;
    }
    found
}

/// Whether `s`, which has `graphemes` grapheme clusters, is a valid name.
pub fn is_valid_general_name(s: &str, graphemes: usize) -> (r: bool)
    ensures
        r == is_general_name(s@, graphemes as nat),
{
    !s.is_empty() && graphemes <= 256 && !contains_forbidden_char(s)
}

impl GeneralName {
    pub closed spec fn view(&self) -> Seq<char> {
        self.0@
    }

    pub fn parse(s: String) -> (r: Result<GeneralName, String>)
        ensures
            match r {
                Ok(n) => n.view() == s@ && is_general_name(s@, extended_grapheme_count(s@)),
                Err(e) => !is_general_name(s@, extended_grapheme_count(s@)) && e@ == s@
                    + " is not a valid Subscriber's name"@,
            },
    {
        let graphemes = grapheme_count(s.as_str());
        if is_valid_general_name(s.as_str(), graphemes) {
            Ok(GeneralName(s))
        } else {
            Err(s.concat(" is not a valid Subscriber's name"))
        }
    }

    pub fn as_str(&self) -> (r: &str)
        ensures
            r@ == self.view(),
    {
        self.0.as_str()
    }
}

pub open spec fn category_name(c: HostCategory) -> Seq<char> {
    match c {
        HostCategory::Hotel => "hotel"@,
        HostCategory::GuestHouse => "guest_house"@,
    }
}

impl HostCategory {
    pub fn parse(s: &str) -> (r: Result<HostCategory, String>)
        ensures
            match r {
                Ok(c) => category_name(c) == s@,
                Err(e) => s@ != "hotel"@ && s@ != "guest_house"@ && e@ == s@
                    + " is not a valid host category!"@,
            },
    {
        if str_eq(s, "hotel") {
            Ok(HostCategory::Hotel)
        } else if str_eq(s, "guest_house") {
            Ok(HostCategory::GuestHouse)
        } else {
            Err(s.to_owned().concat(" is not a valid host category!"))
        }
    }

    pub fn as_str(&self) -> (r: &'static str)
        ensures
            r@ == category_name(*self),
    {
        match self {
            HostCategory::GuestHouse => "guest_house",
            HostCategory::Hotel => "hotel",
        }
    }
}

impl NewHost {
    /// A host from its submitted name and category, each validated in turn.
    pub fn parse(name: String, category: &str) -> (r: Result<NewHost, String>)
        ensures
            match r {
                Ok(h) => h.name.view() == name@ && is_general_name(
                    name@,
                    extended_grapheme_count(name@),
                ) && category_name(h.category) == category@,
                Err(e) => if !is_general_name(name@, extended_grapheme_count(name@)) {
                    e@ == name@ + " is not a valid Subscriber's name"@
                } else {
                    category@ != "hotel"@ && category@ != "guest_house"@ && e@ == category@
                        + " is not a valid host category!"@
                },
            },
    {
        let name = match GeneralName::parse(name) {
            Ok(n) => n,
            Err(e) => {
                return Err(e);
            },
        };
        let category = match HostCategory::parse(category) {
            Ok(c) => c,
            Err(e) => {
                return Err(e);
            },
        };
        Ok(NewHost { name, category })
    }
}

impl NewRoom {
    /// A room of host `host_id` from its submitted fields; the name is
    /// validated, the rest taken as it is.
    pub fn parse(host_id: Uuid, name: String, description: String, number_of_beds: u16) -> (r:
        Result<NewRoom, String>)
        ensures
            match r {
                Ok(room) => room.host_id == host_id && room.name.view() == name@ && is_general_name(
                    name@,
                    extended_grapheme_count(name@),
                ) && room.description@ == description@ && room.number_of_beds == number_of_beds,
                Err(e) => !is_general_name(name@, extended_grapheme_count(name@)) && e@ == name@
                    + " is not a valid Subscriber's name"@,
            },
    {
        let name = match GeneralName::parse(name) {
            Ok(n) => n,
            Err(e) => {
                return Err(e);
            },
        };
        Ok(NewRoom { host_id, name, description, number_of_beds })
    }
}

} // verus!
