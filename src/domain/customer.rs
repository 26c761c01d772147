//! Customers, known by their email address.
use vstd::prelude::*;
use vstd::string::StringExecFns;

verus! {

/// Whether `s` is an email address by the HTML5 rule (at most 64 characters
/// before the last `@`, at most 255 after it).
pub uninterp spec fn html5_email(s: Seq<char>) -> bool;

/// Relies on validator's `validate_email`, which refuses outright an empty
/// text and one without `@`, and refuses one that starts with `@`: the part
/// before the last `@` is then empty or starts with `@`, and its user pattern
/// wants one or more characters, none of them `@`.
#[verifier::external_body]
fn email_is_valid(s: &str) -> (r: bool)
    ensures
        r == html5_email(s@),
        s@.len() == 0 ==> !r,
        !s@.contains('@') ==> !r,
        s@.len() > 0 && s@[0] == '@' ==> !r,
{
    validator::validate_email(s)
}

/// A customer's validated email address.
#[derive(Debug)]
pub struct CustomerEmail(String);

impl CustomerEmail {
    pub closed spec fn view(&self) -> Seq<char> {
        self.0@
    }

    pub fn parse(s: String) -> (r: Result<CustomerEmail, String>)
        ensures
            match r {
                Ok(e) => e.view() == s@ && html5_email(s@),
                Err(e) => !html5_email(s@) && e@ == s@ + " is not a valid subscriber email"@,
            },
            s@.len() == 0 ==> r is Err,
            !s@.contains('@') ==> r is Err,
            s@.len() > 0 && s@[0] == '@' ==> r is Err,
    {
        if email_is_valid(s.as_str()) {
            Ok(CustomerEmail(s))
        } else {
            Err(s.concat(" is not a valid subscriber email"))
        }
    }

    pub fn as_str(&self) -> (r: &str)
        ensures
            r@ == self.view(),
    {
        self.0.as_str()
    }
}

} // verus!
