//! Checks on what a user types in when registering.

use vstd::prelude::*;

verus! {

broadcast use vstd::string::group_string_axioms;

/// Whether a character is alphanumeric, as Unicode has it: a letter or a
/// number of any script.
pub uninterp spec fn is_alphanumeric(c: char) -> bool;

/// `char::is_alphanumeric`.
#[verifier::external_body]
fn char_is_alphanumeric(c: char) -> (r: bool)
    ensures
        r == is_alphanumeric(c),
{
    c.is_alphanumeric()
}

/// A character that a username may hold.
pub open spec fn username_char(c: char) -> bool {
    is_alphanumeric(c) || c == '_'
}

/// A valid username: 3 to 32 bytes of UTF-8, made of alphanumeric characters
/// and underscores.
pub open spec fn valid_username(username: Seq<char>) -> bool {
    &&& 3 <= vstd::utf8::encode_utf8(username).len() <= 32
    &&& forall|i: int| 0 <= i < username.len() ==> username_char(#[trigger] username[i])
}

/// A valid email address: 3 to 320 bytes of UTF-8 with an `@` among them.
pub open spec fn valid_email(email: Seq<char>) -> bool {
    &&& 3 <= vstd::utf8::encode_utf8(email).len() <= 320
    &&& email.contains('@')
}

/// Validates a username is valid.
pub fn validate_username(username: &str) -> (r: bool)
    ensures
        r == valid_username(username@),
{
    let bytes = username.as_bytes().len();
    if bytes < 3 || bytes > 32 {
        return false;
    }
    let mut ok = true;
    for c in it: username.chars()
        invariant
            it.seq() == username@,
            ok <==> forall|i: int| 0 <= i < it.index() ==> username_char(#[trigger] username@[i]),
    {
        if !(char_is_alphanumeric(c) || c == '_') {
            ok = false;
        }
    }
    ok
}

/// Validates an email conforms to a standard / *could* exist.
///
/// Does not check if it actually exists or send out a verification email.
pub fn validate_email(email: &str) -> (r: bool)
    ensures
        r == valid_email(email@),
{
    let bytes = email.as_bytes().len();
    if bytes < 3 || bytes > 320 {
        return false;
    }
    let mut found = false;
    for c in it: email.chars()
        invariant
            it.seq() == email@,
            found <==> exists|i: int| 0 <= i < it.index() && #[trigger] email@[i] == '@',
    {
        if c == '@' {
            found = true;
        }
    }
    found
}

} // verus!
