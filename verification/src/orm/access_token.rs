//! Session tokens.
//!
//! A session is a random number, stored with the user it belongs to. What the
//! client holds is that number in a signed envelope (a JSON web token with the
//! one claim `tkn`). The signature keeps a client from making up or changing
//! a number; it says nothing on whether the session still stands. That is
//! decided by the row alone: a token whose row is gone is no longer valid,
//! and nothing else ends a session, so the envelope carries no expiry.

use crate::ordered_list::StoreError;
use crate::snowflake::Snowflake;
use crate::time;
use vstd::prelude::*;

verus! {

/// `jsonwebtoken::errors::Error`, carried through as it is.
#[verifier::external_type_specification]
#[verifier::external_body]
pub struct ExJwtError(jsonwebtoken::errors::Error);

/// The envelope that holds the one claim `claim` with value `value`, signed
/// with `secret`; `None` where signing fails.
pub uninterp spec fn signed_envelope(claim: Seq<char>, value: i64, secret: Seq<u8>) -> Option<
    Seq<char>,
>;

/// What opening `token` with `secret` gives: `None` where the token is not
/// an envelope or its signature is not that of `secret`; `Some(None)` where
/// it is but holds no claim `claim` that is an integer of 64 bits; else the
/// value of the claim. An expiry is not looked at and no claim is asked for;
/// claims of other names are passed over.
pub uninterp spec fn envelope_claim(token: Seq<char>, claim: Seq<char>, secret: Seq<u8>) -> Option<
    Option<i64>,
>;

/// The text has no full stop from `from` on.
pub open spec fn no_stop_from(text: Seq<char>, from: int) -> bool {
    forall|i: int| from <= i < text.len() ==> text[i] != '.'
}

/// `other` is `token` under another signature: the two are the same up to
/// the last full stop of `token`, which is the last of `other` too, and
/// differ after it. The signature of an envelope is what follows its last
/// full stop.
pub open spec fn resigned(token: Seq<char>, other: Seq<char>) -> bool {
    exists|stop: int|
        0 <= stop < token.len() && stop < other.len() && #[trigger] token[stop] == '.'
            && no_stop_from(token, stop + 1) && no_stop_from(other, stop + 1) && other.subrange(
            0,
            stop + 1,
        ) == token.subrange(0, stop + 1) && other != token
}

/// `jsonwebtoken::encode` with the default header (HS256), the claims
/// `{claim: value}` and `EncodingKey::from_secret(secret)`.
///
/// The result is a function of the three arguments: the header is constant,
/// the claims are written as JSON and HMAC has no randomness. An envelope
/// that comes back opens again under the same secret and gives the claim
/// back: `decode` recomputes the signature over the same text, and reads the
/// JSON that `encode` wrote.
///
/// The same envelope under any other signature does not open: `decode`
/// computes the signature of the text before the last full stop anew and
/// holds what follows the full stop against it, character by character.
#[verifier::external_body]
fn encode_claim(claim: &str, value: i64, secret: &[u8]) -> (r: Result<
    String,
    jsonwebtoken::errors::Error,
>)
    ensures
        match r {
            Ok(token) => {
                &&& signed_envelope(claim@, value, secret@) == Some(token@)
                &&& envelope_claim(token@, claim@, secret@) == Some(Some(value))
                &&& forall|other: Seq<char>| #[trigger]
                    resigned(token@, other) ==> envelope_claim(other, claim@, secret@) is None
            },
            Err(_) => signed_envelope(claim@, value, secret@) is None,
        },
{
    let claims = std::collections::BTreeMap::from([(claim, value)]);
    let key = jsonwebtoken::EncodingKey::from_secret(secret);
    jsonwebtoken::encode(&jsonwebtoken::Header::default(), &claims, &key)
}

/// `jsonwebtoken::decode` with `DecodingKey::from_secret(secret)` and the
/// default validation (HS256), in which the check of the expiry is set as
/// `check_expiry` says and the claims that must be there are those of
/// `required`. The claims are read as a JSON object of any values, and the
/// one named `claim` is picked if it is an integer of 64 bits.
///
/// Without a check of the expiry `decode` reads no clock, so the result is a
/// function of the arguments. With one it would hang on the time of the
/// call, so that is not handed in.
#[verifier::external_body]
fn decode_claim(
    token: &str,
    claim: &str,
    secret: &[u8],
    check_expiry: bool,
    required: &Vec<String>,
) -> (r: Result<Option<i64>, jsonwebtoken::errors::Error>)
    requires
        !check_expiry,
        required@.len() == 0,
    ensures
        match r {
            Ok(value) => envelope_claim(token@, claim@, secret@) == Some(value),
            Err(_) => envelope_claim(token@, claim@, secret@) is None,
        },
{
    let mut validation = jsonwebtoken::Validation::default();
    validation.validate_exp = check_expiry;
    validation.set_required_spec_claims(required);
    let key = jsonwebtoken::DecodingKey::from_secret(secret);
    let data = jsonwebtoken::decode::<std::collections::HashMap<String, serde_json::Value>>(
        token,
        &key,
        &validation,
    )?;
    Ok(data.claims.get(claim).and_then(serde_json::Value::as_i64))
}

/// `rand::Rng::gen_range` on `rand::thread_rng()`: a random number from
/// `low` up to, not including, `high`.
#[verifier::external_body]
fn random_in_range(low: i64, high: i64) -> (r: i64)
    requires
        low < high,
    ensures
        low <= r < high,
{
    rand::Rng::gen_range(&mut rand::thread_rng(), low..high)
}

/// The name of the one claim of an envelope.
pub open spec fn claim_name() -> Seq<char> {
    "tkn"@
}

/// Whether an envelope is refused once the expiry that it may carry has
/// passed. It is not: a session ends when its row is deleted, and by nothing
/// else.
pub const CHECK_EXPIRY: bool = false;

/// The envelope opens under no other signature than its own.
pub open spec fn sealed(bearer: Seq<char>, secret: Seq<u8>) -> bool {
    forall|other: Seq<char>| #[trigger]
        resigned(bearer, other) ==> envelope_claim(other, claim_name(), secret) is None
}

/// What an envelope holds: the number of a session.
#[derive(Debug, PartialEq)]
pub struct Auth {
    pub tkn: i64,
}

/// Why an envelope could not be opened.
#[derive(Debug)]
pub enum EnvelopeError {
    /// The token is malformed or its signature does not match.
    Rejected(jsonwebtoken::errors::Error),
    /// The token is well signed but holds no session number.
    MissingClaim,
}

impl Auth {
    pub fn new(tkn: i64) -> (r: Self)
        ensures
            r.tkn == tkn,
    {
        Self { tkn }
    }

    /// Construct a new JWT from the access token, signed with `secret`.
    pub fn encode(&self, secret: &[u8]) -> (r: Result<String, jsonwebtoken::errors::Error>)
        ensures
            match r {
                Ok(token) => signed_envelope(claim_name(), self.tkn, secret@) == Some(token@)
                    && envelope_claim(token@, claim_name(), secret@) == Some(Some(self.tkn))
                    && sealed(token@, secret@),
                Err(_) => signed_envelope(claim_name(), self.tkn, secret@) is None,
            },
    {
        encode_claim("tkn", self.tkn, secret)
    }

    /// Decode a JWT into an access token. An expiry is not checked, and no
    /// claim is asked for but the session number: the envelope is there to
    /// keep the number from being made up or changed, not to end a session.
    pub fn decode(token: &str, secret: &[u8]) -> (r: Result<Self, EnvelopeError>)
        ensures
            match envelope_claim(token@, claim_name(), secret@) {
                Some(Some(tkn)) => r is Ok && r.unwrap().tkn == tkn,
                Some(None) => r is Err && r.unwrap_err() is MissingClaim,
                None => r is Err && r.unwrap_err() is Rejected,
            },
    {
        let required: Vec<String> = Vec::new();
        match decode_claim(token, "tkn", secret, CHECK_EXPIRY, &required) {
            Ok(Some(tkn)) => Ok(Self { tkn }),
            Ok(None) => Err(EnvelopeError::MissingClaim),
            Err(e) => Err(EnvelopeError::Rejected(e)),
        }
    }
}

/// Why no token was created.
#[derive(Debug)]
pub enum CreateError {
    /// The JSON web token could not be encoded.
    JwtEncoding(jsonwebtoken::errors::Error),
    /// The entry was not inserted into the database.
    NotInserted,
    /// An error occurred while querying the database.
    DatabaseError(StoreError),
}

/// Why a token was not accepted.
#[derive(Debug)]
pub enum CheckError {
    /// The JSON web token is invalid (revoked or never existed).
    InvalidToken,
    /// The JSON web token could not be decoded.
    JwtDecoding(EnvelopeError),
    /// An error occurred while querying the database.
    DatabaseError(StoreError),
}

/// One row of the `access_tokens` table.
#[derive(Clone, Copy, Debug, PartialEq, Eq, Structural)]
pub struct TokenRow {
    /// The session number: random, and the key of the row.
    pub token: i64,
    /// The number of the user that the session belongs to.
    pub user_id: i64,
    /// When the token was issued, in milliseconds since the database epoch.
    pub created_at: i64,
}

/// No two rows have the same token.
pub open spec fn distinct_tokens(rows: Seq<TokenRow>) -> bool {
    forall|i: int, j: int| 0 <= i < j < rows.len() ==> rows[i].token != rows[j].token
}

/// Some row has the token.
pub open spec fn has_token(rows: Seq<TokenRow>, token: i64) -> bool {
    exists|i: int| 0 <= i < rows.len() && #[trigger] rows[i].token == token
}

/// The user of the row with the token, if there is such a row.
pub open spec fn user_of(rows: Seq<TokenRow>, token: i64) -> Option<i64> {
    if has_token(rows, token) {
        Some(rows[choose|i: int| 0 <= i < rows.len() && #[trigger] rows[i].token == token].user_id)
    } else {
        None
    }
}

/// What is to be said of a bearer token.
pub enum Verdict {
    /// The envelope opens and the session stands.
    Valid { user_id: i64, token: i64 },
    /// The envelope opens, but there is no such session: it was revoked or
    /// never existed.
    Invalid,
    /// The envelope does not open.
    Undecodable,
}

/// What is to be said of `bearer`, given the rows and the secret.
pub open spec fn verdict(rows: Seq<TokenRow>, bearer: Seq<char>, secret: Seq<u8>) -> Verdict {
    match envelope_claim(bearer, claim_name(), secret) {
        Some(Some(token)) => match user_of(rows, token) {
            Some(user_id) => Verdict::Valid { user_id, token },
            None => Verdict::Invalid,
        },
        _ => Verdict::Undecodable,
    }
}

/// The result of a check says what the verdict says.
pub open spec fn tells(r: Result<(Snowflake, i64), CheckError>, v: Verdict) -> bool {
    match v {
        Verdict::Valid { user_id, token } => r is Ok && r.unwrap() == (
            Snowflake::unpacked(user_id as u64),
            token,
        ),
        Verdict::Invalid => r is Err && r.unwrap_err() is InvalidToken,
        Verdict::Undecodable => r is Err && r.unwrap_err() is JwtDecoding,
    }
}

/// Draws the number of a new session: a random number of 63 bits that is
/// not negative.
pub fn new_token() -> (r: i64)
    ensures
        0 <= r < i64::MAX,
{
    random_in_range(0, i64::MAX)
}

/// Why the session `token` is not stored: it has a row already, or else its
/// envelope cannot be signed.
pub open spec fn refused(rows: Seq<TokenRow>, token: i64, secret: Seq<u8>, e: CreateError) -> bool {
    if has_token(rows, token) {
        e == CreateError::DatabaseError(StoreError::DuplicateId)
    } else {
        e is JwtEncoding && signed_envelope(claim_name(), token, secret) is None
    }
}

/// Whether a write that was to add one token did so, from the number of rows
/// that the store reports as changed.
pub fn inserted(rows_affected: u64) -> (r: Result<(), CreateError>)
    ensures
        rows_affected == 1 <==> r is Ok,
        r is Err ==> r.unwrap_err() is NotInserted,
{
    if rows_affected != 1 {
        return Err(CreateError::NotInserted);
    }
    Ok(())
}

/// The bearer token for a session that has been stored: its number in an
/// envelope signed with `secret`.
pub fn envelope(token: i64, secret: &[u8]) -> (r: Result<String, CreateError>)
    ensures
        match r {
            Ok(bearer) => signed_envelope(claim_name(), token, secret@) == Some(bearer@)
                && envelope_claim(bearer@, claim_name(), secret@) == Some(Some(token)) && sealed(
                bearer@,
                secret@,
            ),
            Err(e) => signed_envelope(claim_name(), token, secret@) is None && e is JwtEncoding,
        },
{
    let auth = Auth::new(token);
    match auth.encode(secret) {
        Ok(bearer) => Ok(bearer),
        Err(e) => Err(CreateError::JwtEncoding(e)),
    }
}

/// The session that a token stands for, from the number in its envelope and
/// the user that the store found for that number.
pub fn session(found: Option<i64>, token: i64) -> (r: Result<(Snowflake, i64), CheckError>)
    ensures
        match found {
            Some(user_id) => r is Ok && r.unwrap() == (Snowflake::unpacked(user_id as u64), token),
            None => r is Err && r.unwrap_err() is InvalidToken,
        },
{
    match found {
        Some(user_id) => Ok((Snowflake::from_number(user_id as u64), token)),
        None => Err(CheckError::InvalidToken),
    }
}

/// The `access_tokens` table, held in memory.
pub struct AccessToken {
    rows: Vec<TokenRow>,
}

impl View for AccessToken {
    type V = Seq<TokenRow>;

    closed spec fn view(&self) -> Seq<TokenRow> {
        self.rows@
    }
}

impl AccessToken {
    /// No two rows have the same token.
    pub open spec fn wf(&self) -> bool {
        distinct_tokens(self@)
    }

    /// Creates a table without rows.
    pub fn new() -> (r: Self)
        ensures
            r.wf(),
            r@ == Seq::<TokenRow>::empty(),
    {
        Self { rows: Vec::new() }
    }

    /// The user of the row with the token, if there is such a row.
    pub fn user_of(&self, token: i64) -> (r: Option<i64>)
        requires
            self.wf(),
        ensures
            r == user_of(self@, token),
    {
        let mut i: usize = 0;
        while i < self.rows.len()
            invariant
                i <= self.rows.len(),
                distinct_tokens(self@),
                forall|j: int| 0 <= j < i ==> #[trigger] self@[j].token != token,
            decreases self.rows.len() - i,
        {
            if self.rows[i].token == token {
                proof {
                    let c = choose|c: int| 0 <= c < self@.len() && #[trigger] self@[c].token == token;
                    assert(self@[c].token == self@[i as int].token);
                }
                return Some(self.rows[i].user_id);
            }
            i = i + 1;
        }
        None
    }

    /// Stores the session `token` for the user and returns its bearer token.
    ///
    /// Fails, and stores nothing, where a row with the token exists already
    /// or the envelope cannot be signed.
    pub fn create_with(
        &mut self,
        user_id: Snowflake,
        token: i64,
        created_at: i64,
        secret: &[u8],
    ) -> (r: Result<String, CreateError>)
        requires
            old(self).wf(),
        ensures
            final(self).wf(),
            match r {
                Ok(bearer) => {
                    &&& !has_token(old(self)@, token)
                    &&& signed_envelope(claim_name(), token, secret@) == Some(bearer@)
                    &&& final(self)@ == old(self)@.push(
                        TokenRow { token, user_id: user_id.packed(), created_at },
                    )
                    &&& verdict(final(self)@, bearer@, secret@) == (Verdict::Valid {
                        user_id: user_id.packed(),
                        token,
                    })
                    &&& sealed(bearer@, secret@)
                },
                Err(e) => final(self)@ == old(self)@ && refused(old(self)@, token, secret@, e),
            },
    {
        if self.user_of(token).is_some() {
            return Err(CreateError::DatabaseError(StoreError::DuplicateId));
        }
        let bearer = envelope(token, secret)?;
        let row = TokenRow { token, user_id: user_id.into_number(), created_at };
        self.rows.push(row);
        proof {
            let n = old(self)@.len() as int;
            assert(self@[n].token == token);
            assert(has_token(self@, token));
            let c = choose|c: int| 0 <= c < self@.len() && #[trigger] self@[c].token == token;
            assert(c == n) by {
                if c < n {
                    assert(old(self)@[c].token == token);
                }
            }
        }
        match inserted(1) {
            Ok(()) => Ok(bearer),
            Err(e) => Err(e),
        }
    }

    /// Inserts a new access token for the given user and returns the JWT.
    ///
    /// The session number is drawn at random from the 63-bit numbers that
    /// are not negative. The bearer token that comes back is valid from then
    /// on: checking it gives the user and the number. A call fails, and
    /// stores nothing, where the number that was drawn has a row already or
    /// its envelope cannot be signed.
    pub fn create(&mut self, user_id: Snowflake, secret: &[u8]) -> (r: Result<String, CreateError>)
        requires
            old(self).wf(),
        ensures
            final(self).wf(),
            match r {
                Ok(bearer) => exists|token: i64, created_at: i64|
                    {
                        &&& 0 <= token < i64::MAX
                        &&& !has_token(old(self)@, token)
                        &&& signed_envelope(claim_name(), token, secret@) == Some(bearer@)
                        &&& #[trigger] old(self)@.push(
                            TokenRow { token, user_id: user_id.packed(), created_at },
                        ) == final(self)@
                        &&& verdict(final(self)@, bearer@, secret@) == (Verdict::Valid {
                            user_id: user_id.packed(),
                            token,
                        })
                        &&& sealed(bearer@, secret@)
                    },
                Err(e) => final(self)@ == old(self)@ && exists|token: i64|
                    0 <= token < i64::MAX && #[trigger] refused(old(self)@, token, secret@, e),
            },
    {
        let token = new_token();
        let created_at = time::now();
        let r = self.create_with(user_id, token, created_at, secret);
        proof {
            if r is Ok {
                assert(old(self)@.push(TokenRow { token, user_id: user_id.packed(), created_at })
                    == self@);
            } else {
                assert(refused(old(self)@, token, secret@, r.unwrap_err()));
            }
        }
        r
    }

    /// Checks a JWT and returns the user ID and the session number if it is
    /// valid.
    pub fn check(&self, token: &str, secret: &[u8]) -> (r: Result<(Snowflake, i64), CheckError>)
        requires
            self.wf(),
        ensures
            tells(r, verdict(self@, token@, secret@)),
    {
        let auth = match Auth::decode(token, secret) {
            Ok(auth) => auth,
            Err(e) => {
                return Err(CheckError::JwtDecoding(e));
            },
        };
        session(self.user_of(auth.tkn), auth.tkn)
    }

    /// Revokes the session `token`: deletes its row. Returns the number of
    /// rows deleted.
    pub fn revoke(&mut self, token: i64) -> (r: u64)
        requires
            old(self).wf(),
        ensures
            final(self).wf(),
            !has_token(final(self)@, token),
            if has_token(old(self)@, token) {
                r == 1 && exists|at: int|
                    0 <= at < old(self)@.len() && (#[trigger] old(self)@[at]).token == token
                        && final(self)@ == old(self)@.remove(at)
            } else {
                r == 0 && final(self)@ == old(self)@
            },
            forall|other: i64| other != token ==> user_of(final(self)@, other) == user_of(
                old(self)@,
                other,
            ),
    {
        let mut i: usize = 0;
        while i < self.rows.len()
            invariant
                i <= self.rows.len(),
                self.rows@ == old(self)@,
                distinct_tokens(self@),
                forall|j: int| 0 <= j < i ==> #[trigger] self@[j].token != token,
            decreases self.rows.len() - i,
        {
            if self.rows[i].token == token {
                let removed = self.rows.remove(i);
                proof {
                    let before = old(self)@;
                    let after = self@;
                    assert(after =~= before.remove(i as int));
                    assert(forall|j: int| 0 <= j < i ==> after[j] == before[j]);
                    assert(forall|j: int| i <= j < after.len() ==> after[j] == before[j + 1]);
                    assert(has_token(before, token));
                    assert(!has_token(after, token)) by {
                        if has_token(after, token) {
                            let w = choose|w: int|
                                0 <= w < after.len() && #[trigger] after[w].token == token;
                            if w < i {
                                assert(before[w].token == token);
                            } else {
                                assert(before[w + 1].token == token);
                            }
                        }
                    }
                    assert forall|other: i64| other != token implies user_of(after, other)
                        == user_of(before, other) by {
                        lemma_user_of_after_remove(before, i as int, other);
                    }
                    assert(before[i as int].token == token && after == before.remove(i as int));
                }
                return 1;
            }
            i = i + 1;
        }
        0
    }
}

/// Taking one row out leaves the user of every other token as it was.
pub proof fn lemma_user_of_after_remove(rows: Seq<TokenRow>, at: int, other: i64)
    requires
        distinct_tokens(rows),
        0 <= at < rows.len(),
        rows[at].token != other,
    ensures
        distinct_tokens(rows.remove(at)),
        user_of(rows.remove(at), other) == user_of(rows, other),
{
    let after = rows.remove(at);
    assert(forall|j: int| 0 <= j < at ==> after[j] == rows[j]);
    assert(forall|j: int| at <= j < after.len() ==> after[j] == rows[j + 1]);
    if has_token(rows, other) {
        let c = choose|c: int| 0 <= c < rows.len() && #[trigger] rows[c].token == other;
        let c2 = if c < at {
            c
        } else {
            c - 1
        };
        assert(after[c2].token == other);
        assert(has_token(after, other));
        let d = choose|d: int| 0 <= d < after.len() && #[trigger] after[d].token == other;
        let d2 = if d < at {
            d
        } else {
            d + 1
        };
        assert(rows[d2].token == other);
        assert(d2 == c);
    } else {
        if has_token(after, other) {
            let d = choose|d: int| 0 <= d < after.len() && #[trigger] after[d].token == other;
            let d2 = if d < at {
                d
            } else {
                d + 1
            };
            assert(rows[d2].token == other);
        }
    }
}

/// Revocation: once the row of a session is gone, its bearer token is
/// invalid, however well it is signed.
pub proof fn law_revoked_token_is_invalid(
    rows: Seq<TokenRow>,
    bearer: Seq<char>,
    secret: Seq<u8>,
    token: i64,
)
    requires
        envelope_claim(bearer, claim_name(), secret) == Some(Some(token)),
        !has_token(rows, token),
    ensures
        verdict(rows, bearer, secret) == Verdict::Invalid,
{
}

/// An envelope with one character of its signature changed, and not into a
/// full stop, is the envelope under another signature.
pub proof fn lemma_changed_character_resigns(bearer: Seq<char>, stop: int, at: int, c: char)
    requires
        0 <= stop < at < bearer.len(),
        bearer[stop] == '.',
        no_stop_from(bearer, stop + 1),
        c != '.',
        c != bearer[at],
    ensures
        resigned(bearer, bearer.update(at, c)),
{
    let other = bearer.update(at, c);
    assert(other[at] != bearer[at]);
    assert(other.subrange(0, stop + 1) =~= bearer.subrange(0, stop + 1));
    assert forall|i: int| stop + 1 <= i < other.len() implies other[i] != '.' by {
        if i != at {
            assert(other[i] == bearer[i]);
        }
    }
}

/// Tamper rejection, for the signature: an envelope that was issued does not
/// open under any other signature, so whatever rows the store holds, the
/// envelope with its signature changed is undecodable and opens no session.
pub proof fn law_changed_signature_is_undecodable(
    rows: Seq<TokenRow>,
    bearer: Seq<char>,
    other: Seq<char>,
    secret: Seq<u8>,
)
    requires
        sealed(bearer, secret),
        resigned(bearer, other),
    ensures
        verdict(rows, other, secret) == Verdict::Undecodable,
{
}

} // verus!
