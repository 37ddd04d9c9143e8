//! What the relay asks of the identity provider and what it makes of the
//! answer. The request itself is made elsewhere: here are the words of the
//! request and the choice among the readings of the answer.

use crate::types::UserProfile;
use vstd::prelude::*;
use vstd::string::StringExecFns;

verus! {

/// The address that the identity provider answers at.
pub fn identity_endpoint() -> (url: &'static str)
    ensures
        url@ == "https://api.yumana.my.id/me"@,
{
    "https://api.yumana.my.id/me"
}

/// The value of the `Authorization` header for a token.
pub open spec fn bearer(token: Seq<char>) -> Seq<char> {
    "Bearer "@ + token
}

/// The value of the `Authorization` header for a token: the word `Bearer`, a
/// space, and the token.
pub fn authorization_value(token: &str) -> (value: String)
    ensures
        value@ == bearer(token@),
{
    let mut value = "Bearer ".to_owned();
    value.append(token);
    value
}

/// The profile that an answer of the identity provider gives: none unless
/// the answer reports success; else the one that stands under `user`, if the
/// body reads so, else the one that the body is, if it reads so.
pub open spec fn chosen_profile(
    success: bool,
    wrapped: Option<UserProfile>,
    bare: Option<UserProfile>,
) -> Option<UserProfile> {
    if !success {
        None
    } else if wrapped is Some {
        wrapped
    } else {
        bare
    }
}

/// Chooses among the readings of an answer of the identity provider.
/// `success` says whether the answer's status reports success, `wrapped` is
/// the body read as a profile under `user`, `bare` the body read as a
/// profile.
pub fn select_profile(
    success: bool,
    wrapped: Option<UserProfile>,
    bare: Option<UserProfile>,
) -> (profile: Option<UserProfile>)
    ensures
        profile == chosen_profile(success, wrapped, bare),
{
    if !success {
        None
    } else {
        match wrapped {
            Some(user) => Some(user),
            None => bare,
        }
    }
}

} // verus!
