//! Passwords: the check on what a user may choose, and the hash that is
//! stored in place of the password.

use crate::snowflake_text::{all_digits, digit_of, digit_value, lemma_one_more, value_of};
use vstd::prelude::*;

verus! {

broadcast use vstd::string::group_string_axioms;

/// The least number of bytes of a password.
pub const MIN_PASSWORD_LEN: usize = 8;

/// The greatest number of bytes of a password.
pub const MAX_PASSWORD_LEN: usize = 64;

/// The memory that one hash takes, in KiB.
pub const HASH_MEMORY_KIB: u32 = 15000;

/// The number of passes over that memory.
pub const HASH_PASSES: u32 = 2;

/// The number of lanes that one hash is computed in.
pub const HASH_LANES: u32 = 1;

/// The greatest number of lanes that a hash can be computed in.
pub const MAX_LANES: u32 = 0xFF_FFFF;

/// The text names a number of lanes before `start`: it reads `p=` there.
pub open spec fn names_lanes(text: Seq<char>, start: int) -> bool {
    2 <= start <= text.len() && text[start - 2] == 'p' && text[start - 1] == '='
}

/// No number of lanes that the text names is above the bound: wherever the
/// text reads `p=`, the decimal digits that follow stand for a number of at
/// most `MAX_LANES`, however many of them are read.
///
/// A PHC string names its costs as `m=`, `t=` and `p=` with a decimal number
/// each, so a PHC string that meets this asks for no more lanes than a hash
/// can have.
pub open spec fn lanes_bounded(phc: Seq<char>) -> bool {
    forall|start: int, end: int|
        names_lanes(phc, start) && start <= end <= phc.len() && all_digits(
            #[trigger] phc.subrange(start, end),
        ) ==> value_of(phc.subrange(start, end)) <= MAX_LANES
}

/// What checking `password` against the PHC string `phc` under the secret
/// `pepper` gives: whether the password is the one that was hashed, or `None`
/// where the string is no PHC string or the pepper is too long to be used.
pub uninterp spec fn password_verdict(password: Seq<char>, phc: Seq<char>, pepper: Seq<u8>) -> Option<
    bool,
>;

/// `argon2::PasswordHasher::hash_password` of an `Argon2` context made by
/// `Argon2::new_with_secret` (Argon2id, version 0x13, `Params::new` with the
/// three costs), with a salt from `SaltString::generate` on
/// `rand::thread_rng()`. The result is the hash as a PHC string, or `None`
/// where one of the calls fails.
///
/// The salt is random, so two calls differ. Every hash that comes back
/// checks against the password it was made from, under the same pepper: the
/// PHC string carries algorithm, version, costs and salt, and the check
/// computes the hash again from them. The string reads `p=` once, before the
/// number of lanes: salt and hash are base64 without padding.
///
/// `Params::new` multiplies the lanes by 8 in 32 bits before it holds them to
/// their bound, so a number of lanes above the bound is not handed to it.
#[verifier::external_body]
fn hash_with_pepper(password: &str, pepper: &[u8], memory_kib: u32, passes: u32, lanes: u32) -> (r:
    Option<String>)
    requires
        lanes <= MAX_LANES,
    ensures
        r is Some ==> lanes_bounded(r.unwrap()@) && password_verdict(
            password@,
            r.unwrap()@,
            pepper@,
        ) == Some(true),
{
    let params = argon2::Params::new(memory_kib, passes, lanes, None).ok()?;
    let hasher = argon2::Argon2::new_with_secret(
        pepper,
        argon2::Algorithm::Argon2id,
        argon2::Version::V0x13,
        params,
    ).ok()?;
    let salt = password_hash::SaltString::generate(&mut rand::thread_rng());
    let hash = argon2::PasswordHasher::hash_password(&hasher, password.as_bytes(), &salt).ok()?;
    Some(hash.to_string())
}

/// `argon2::PasswordVerifier::verify_password` of an `Argon2` context made
/// by `Argon2::new_with_secret` (Argon2id, version 0x13, default costs),
/// against `argon2::PasswordHash::new(phc)`. The result is whether the
/// password matches, or `None` where the string does not parse or the pepper
/// is refused. It is a function of the three arguments.
///
/// The check takes the costs from the PHC string and hands them to
/// `Params::new`, which multiplies the lanes by 8 in 32 bits before it holds
/// them to their bound. So a string that names more lanes than the bound is
/// not handed to it.
#[verifier::external_body]
fn verify_with_pepper(password: &str, phc: &str, pepper: &[u8]) -> (r: Option<bool>)
    requires
        lanes_bounded(phc@),
    ensures
        r == password_verdict(password@, phc@, pepper@),
{
    let expected = argon2::PasswordHash::new(phc).ok()?;
    let verifier = argon2::Argon2::new_with_secret(
        pepper,
        argon2::Algorithm::Argon2id,
        argon2::Version::V0x13,
        argon2::Params::default(),
    ).ok()?;
    Some(argon2::PasswordVerifier::verify_password(&verifier, password.as_bytes(), &expected).is_ok())
}

/// The characters of a text.
fn chars_of(text: &str) -> (r: Vec<char>)
    ensures
        r@ == text@,
{
    let mut out: Vec<char> = Vec::new();
    assert(text@.take(0) =~= Seq::<char>::empty());
    for c in it: text.chars()
        invariant
            it.seq() == text@,
            out@ == text@.take(it.index()),
    {
        proof {
            assert(text@.take(it.index() + 1) =~= text@.take(it.index()).push(c));
        }
        out.push(c);
    }
    proof {
        assert(text@.take(text@.len() as int) =~= text@);
    }
    out
}

/// Whether no number of lanes that a PHC string names is above the bound.
pub fn lanes_in_bound(phc: &str) -> (r: bool)
    ensures
        r == lanes_bounded(phc@),
{
    let cs = chars_of(phc);
    let n = cs.len();
    if n < 2 {
        return true;
    }
    let mut at: usize = 0;
    while at < n - 1
        invariant
            2 <= n,
            at <= n - 1,
            cs@ == phc@,
            n == cs@.len(),
            forall|s: int, e: int|
                2 <= s < at + 2 && names_lanes(phc@, s) && s <= e <= n && all_digits(
                    #[trigger] phc@.subrange(s, e),
                ) ==> value_of(phc@.subrange(s, e)) <= MAX_LANES,
        decreases n - at,
    {
        let start = at + 2;
        if cs[at] == 'p' && cs[at + 1] == '=' {
            let mut end: usize = start;
            let mut acc: u32 = 0;
            let mut open = true;
            proof {
                assert(phc@.subrange(start as int, start as int) =~= Seq::<char>::empty());
            }
            while open && end < n
                invariant
                    2 <= start <= end <= n,
                    cs@ == phc@,
                    n == cs@.len(),
                    names_lanes(phc@, start as int),
                    acc <= MAX_LANES,
                    all_digits(phc@.subrange(start as int, end as int)),
                    acc == value_of(phc@.subrange(start as int, end as int)),
                    forall|e: int|
                        start <= e <= end ==> value_of(#[trigger] phc@.subrange(start as int, e))
                            <= MAX_LANES,
                    !open ==> end < n && digit_value(cs@[end as int]) is None,
                decreases
                        n - end + if open {
                            1int
                        } else {
                            0int
                        },
            {
                match digit_of(cs[end]) {
                    None => {
                        open = false;
                    },
                    Some(d) => {
                        let next = acc * 10 + d as u32;
                        proof {
                            let read = phc@.subrange(start as int, end as int);
                            assert(phc@.subrange(start as int, end + 1) =~= read.push(cs@[end as int]));
                            lemma_one_more(read, cs@[end as int]);
                        }
                        if next > MAX_LANES {
                            proof {
                                assert(all_digits(phc@.subrange(start as int, end + 1)));
                                assert(value_of(phc@.subrange(start as int, end + 1)) > MAX_LANES);
                            }
                            return false;
                        }
                        acc = next;
                        end = end + 1;
                    },
                }
            }
            proof {
                assert forall|e: int|
                    start <= e <= n && all_digits(
                        #[trigger] phc@.subrange(start as int, e),
                    ) implies value_of(phc@.subrange(start as int, e)) <= MAX_LANES by {
                    if e > end {
                        assert(phc@.subrange(start as int, e)[end - start] == cs@[end as int]);
                    }
                }
            }
        }
        at = at + 1;
    }
    true
}

/// An error that can occur when validating a password.
#[derive(Clone, Copy, Debug, PartialEq, Eq, Structural)]
pub enum PasswordError {
    /// The password being validated was too short.
    TooShort,
    /// The password being validated was too long.
    TooLong,
    /// The password being validated was too common.
    TooCommon,
    /// The password being validated was too similar to the username.
    TooSimilarToUsername,
    /// The password being validated was too similar to the email.
    TooSimilarToEmail,
    /// The password being validated was too weak.
    TooWeak,
}

/// What validating a password of `bytes` bytes gives.
pub open spec fn validated(bytes: nat) -> Result<(), PasswordError> {
    if bytes < MIN_PASSWORD_LEN {
        Err(PasswordError::TooShort)
    } else if bytes > MAX_PASSWORD_LEN {
        Err(PasswordError::TooLong)
    } else {
        Ok(())
    }
}

/// A struct for password generation and validation.
pub struct Password<'pw> {
    password: &'pw str,
}

impl<'pw> View for Password<'pw> {
    type V = Seq<char>;

    closed spec fn view(&self) -> Seq<char> {
        self.password@
    }
}

impl<'pw> Password<'pw> {
    pub fn new(password: &'pw str) -> (r: Self)
        ensures
            r@ == password@,
    {
        Self { password }
    }

    /// Validates that a password has a valid format: 8 to 64 bytes of UTF-8.
    /// The username and the email address do not enter into it.
    pub fn validate(&self, _username: &str, _email: &str) -> (r: Result<(), PasswordError>)
        ensures
            r == validated(vstd::utf8::encode_utf8(self@).len()),
    {
        let bytes = self.password.as_bytes().len();
        if bytes < MIN_PASSWORD_LEN {
            return Err(PasswordError::TooShort);
        }
        if bytes > MAX_PASSWORD_LEN {
            return Err(PasswordError::TooLong);
        }
        Ok(())
    }

    /// Generates a new hash for the given password, under the secret
    /// `pepper`. Gives `None` where the password cannot be hashed.
    ///
    /// Every call salts anew, so the hash differs from call to call; each one
    /// verifies against this password.
    pub fn generate(&self, pepper: &[u8]) -> (r: Option<String>)
        ensures
            r is Some ==> lanes_bounded(r.unwrap()@) && password_verdict(
                self@,
                r.unwrap()@,
                pepper@,
            ) == Some(true),
    {
        hash_with_pepper(self.password, pepper, HASH_MEMORY_KIB, HASH_PASSES, HASH_LANES)
    }

    /// Verifies this password matches a PHC string, under the secret
    /// `pepper`. Gives `None` where the string is no PHC string, names more
    /// lanes than a hash can have, or the pepper cannot be used.
    pub fn verify(&self, phc: &str, pepper: &[u8]) -> (r: Option<bool>)
        ensures
            r == if lanes_bounded(phc@) {
                password_verdict(self@, phc@, pepper@)
            } else {
                None
            },
    {
        if !lanes_in_bound(phc) {
            return None;
        }
        verify_with_pepper(self.password, phc, pepper)
    }
}

impl<'pw> From<&'pw str> for Password<'pw> {
    fn from(password: &'pw str) -> (r: Self) {
        Self { password }
    }
}

impl<'pw> vstd::std_specs::convert::FromSpecImpl<&'pw str> for Password<'pw> {
    open spec fn obeys_from_spec() -> bool {
        true
    }

    closed spec fn from_spec(password: &'pw str) -> Self {
        Password { password }
    }
}

} // verus!
