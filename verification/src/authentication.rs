//! The authentication service: verifies login credentials against the user
//! store and, on success, mints a token asserting the matched user's id.

use vstd::prelude::*;
use vstd::utf8::encode_utf8;
use crate::ascii::str_eq;
use crate::claims::valid_subject;
use crate::errors::AuthError;
use crate::hashing::encrypt_password;
use crate::hashing::md5_hex_of;
use crate::token::issue;
use crate::token::token_of;

verus! {

/// The body of a login request.
#[derive(Debug)]
pub struct Login {
    pub email: String,
    pub password: String,
}

/// The body of a successful login answer.
#[derive(Debug)]
pub struct JwtToken {
    pub token: String,
}

/// A stored user record as the authentication core reads it: its id (the
/// token subject), its unique account identifier, and the password digest —
/// never the plaintext — under the historical column name.
#[derive(Debug)]
pub struct UserRecord {
    pub id: String,
    pub email: String,
    pub password: String,
}

/// Exact equality on both fields at once: the combined login predicate.
pub open spec fn credentials_match(u: UserRecord, email: Seq<char>, digest: Seq<char>) -> bool {
    u.email@ == email && u.password@ == digest
}

/// An in-memory user store exposing the one lookup login needs.
#[derive(Debug)]
pub struct UserStore {
    pub users: Vec<UserRecord>,
}

impl UserStore {
    /// Every stored id can stand as a token subject.
    pub open spec fn wf(&self) -> bool {
        forall|i: int|
            0 <= i < self.users@.len() ==> valid_subject(
                encode_utf8(#[trigger] self.users@[i].id@),
            )
    }

    /// Find-one by the combined predicate: the first record whose account
    /// identifier and stored digest both equal the given values exactly.
    pub fn find_by_credentials(&self, email: &str, digest: &str) -> (r: Option<usize>)
        ensures
            match r {
                Some(i) => i < self.users@.len() && credentials_match(
                    self.users@[i as int],
                    email@,
                    digest@,
                ) && forall|j: int|
                    0 <= j < i ==> !credentials_match(#[trigger] self.users@[j], email@, digest@),
                None => forall|j: int|
                    0 <= j < self.users@.len() ==> !credentials_match(
                        #[trigger] self.users@[j],
                        email@,
                        digest@,
                    ),
            },
    {
        let mut i: usize = 0;
        while i < self.users.len()
            invariant
                i <= self.users@.len(),
                forall|j: int|
                    0 <= j < i ==> !credentials_match(#[trigger] self.users@[j], email@, digest@),
            decreases self.users@.len() - i,
        {
            let same_email = str_eq(self.users[i].email.as_str(), email);
            let same_digest = str_eq(self.users[i].password.as_str(), digest);
            if same_email && same_digest {
                return Some(i);
            }
            i = i + 1;
        }
        None
    }

    /// Login against this store: hash the submitted password, look the pair
    /// up, and mint a token for the matched user's id, valid from `now` for
    /// `ttl_minutes` minutes. Exactly the requests whose email and password
    /// digest match a record get a token; all others are rejected.
    pub fn login(
        &self,
        login: &Login,
        now: u64,
        ttl_minutes: u64,
        secret: &str,
    ) -> (r: Result<JwtToken, AuthError>)
        requires
            self.wf(),
            now + ttl_minutes * 60 <= u64::MAX,
        ensures
            match r {
                Ok(out) => exists|i: int|
                    0 <= i < self.users@.len() && credentials_match(
                        #[trigger] self.users@[i],
                        login.email@,
                        md5_hex_of(login.password@),
                    ) && encode_utf8(out.token@) == token_of(
                        encode_utf8(self.users@[i].id@),
                        now,
                        (now + ttl_minutes * 60) as u64,
                        encode_utf8(secret@),
                    ),
                Err(e) => e == AuthError::InvalidCredentials && forall|j: int|
                    0 <= j < self.users@.len() ==> !credentials_match(
                        #[trigger] self.users@[j],
                        login.email@,
                        md5_hex_of(login.password@),
                    ),
            },
    {
        let digest = encrypt_password(login.password.clone());
        match self.find_by_credentials(login.email.as_str(), digest.as_str()) {
            Some(i) => {
                let token = issue(self.users[i].id.as_str(), now, ttl_minutes, secret);
                Ok(JwtToken { token })
            },
            None => Err(AuthError::InvalidCredentials),
        }
    }
}

/// What the external store answered to the combined login lookup.
#[derive(Debug)]
pub enum LookupOutcome {
    /// Exactly one record matched; its id.
    Found(String),
    /// No record matched the pair.
    NotFound,
    /// The store call itself failed.
    Failed,
}

/// The login decision once the store has answered: a matched record gets a
/// token for its id, no match is `InvalidCredentials`, and a store failure
/// is surfaced as `StoreUnavailable` — reported, never retried.
pub fn login_from_lookup(
    outcome: &LookupOutcome,
    now: u64,
    ttl_minutes: u64,
    secret: &str,
) -> (r: Result<JwtToken, AuthError>)
    requires
        (outcome matches LookupOutcome::Found(id) ==> valid_subject(encode_utf8(id@))),
        now + ttl_minutes * 60 <= u64::MAX,
    ensures
        match outcome {
            LookupOutcome::Found(id) => r matches Ok(out) && encode_utf8(out.token@) == token_of(
                encode_utf8(id@),
                now,
                (now + ttl_minutes * 60) as u64,
                encode_utf8(secret@),
            ),
            LookupOutcome::NotFound => r == Err::<JwtToken, AuthError>(
                AuthError::InvalidCredentials,
            ),
            LookupOutcome::Failed => r == Err::<JwtToken, AuthError>(AuthError::StoreUnavailable),
        },
{
    match outcome {
        LookupOutcome::Found(id) => {
            let token = issue(id.as_str(), now, ttl_minutes, secret);
            Ok(JwtToken { token })
        },
        LookupOutcome::NotFound => Err(AuthError::InvalidCredentials),
        LookupOutcome::Failed => Err(AuthError::StoreUnavailable),
    }
}

} // verus!
