//! Users' credentials and login sessions. A session is stored under the
//! SHA-256 of its token; the token itself is never kept.
use vstd::prelude::*;
use vstd::string::StringSliceAdditionalSpecFns;
use argon2::{PasswordHasher, PasswordVerifier};
use rand::RngCore;
use crate::digest::{bytes_equal, sha256, sha256_of};
use crate::format::{bytes_to_hex, hex_of};

verus! {

/// Claims of an API token.
pub struct Claims {
    pub sub: String,
    pub iat: i64,
    pub exp: i64,
    pub scope: Vec<String>,
}

/// Why a credential operation failed.
#[derive(Debug, PartialEq, Eq, Structural)]
pub enum AuthError {
    /// The stored password hash is not in PHC string format.
    MalformedHash,
    /// Hashing the password failed.
    HashingFailed,
}

/// Argon2 accepts `password` against the PHC string `hash`.
pub uninterp spec fn argon2_accepts(password: Seq<char>, hash: Seq<char>) -> bool;

/// `hash` is a well-formed PHC string.
pub uninterp spec fn phc_parses(hash: Seq<char>) -> bool;

/// Relies on `argon2::PasswordHash::new` to read the PHC string (none when
/// it is malformed) and on `Argon2::verify_password` to check the password.
#[verifier::external_body]
fn argon2_verify(password: &str, hash: &str) -> (r: Option<bool>)
    ensures
        r is None <==> !phc_parses(hash@),
        r is Some ==> r->Some_0 == argon2_accepts(password@, hash@),
{
    let parsed = argon2::PasswordHash::new(hash).ok()?;
    Some(argon2::Argon2::default().verify_password(password.as_bytes(), &parsed).is_ok())
}

/// Relies on `OsRng::try_fill_bytes` for 16 salt bytes, on
/// `SaltString::encode_b64` and on `Argon2::hash_password`: a PHC string
/// that `verify_password` accepts for this password; none when the
/// operating system gives no random bytes or hashing fails.
#[verifier::external_body]
fn argon2_hash(password: &str) -> (r: Option<String>)
    ensures
        r is Some ==> phc_parses(r->Some_0@) && argon2_accepts(password@, r->Some_0@),
{
    let mut bytes = [0u8; 16];
    rand::rngs::OsRng.try_fill_bytes(&mut bytes).ok()?;
    let salt = argon2::password_hash::SaltString::encode_b64(&bytes).ok()?;
    argon2::Argon2::default().hash_password(password.as_bytes(), &salt).ok().map(|h| h.to_string())
}

/// Relies on `rand::rngs::OsRng::try_fill_bytes`: 32 random bytes, none
/// when the operating system gives none.
#[verifier::external_body]
fn random_token_bytes() -> (r: Option<Vec<u8>>)
    ensures
        r is Some ==> r->Some_0@.len() == 32,
{
    let mut bytes = [0u8; 32];
    rand::rngs::OsRng.try_fill_bytes(&mut bytes).ok()?;
    Some(bytes.to_vec())
}

/// Hashes a password with Argon2 and a fresh salt.
pub fn hash_password(password: &str) -> (r: Result<String, AuthError>)
    ensures
        r is Ok ==> phc_parses(r->Ok_0@) && argon2_accepts(password@, r->Ok_0@),
        r is Err ==> r == Err::<String, AuthError>(AuthError::HashingFailed),
{
    match argon2_hash(password) {
        Some(h) => Ok(h),
        None => Err(AuthError::HashingFailed),
    }
}

/// Checks a password against its stored Argon2 hash.
pub fn verify_password(password: &str, hash: &str) -> (r: Result<bool, AuthError>)
    ensures
        r is Ok ==> r->Ok_0 == argon2_accepts(password@, hash@),
        r is Err <==> !phc_parses(hash@),
        r is Err ==> r == Err::<bool, AuthError>(AuthError::MalformedHash),
{
    match argon2_verify(password, hash) {
        Some(ok) => Ok(ok),
        None => Err(AuthError::MalformedHash),
    }
}

/// Key under which the session of `token` is stored.
pub open spec fn token_key(token: Seq<char>) -> Seq<u8> {
    sha256_of(vstd::utf8::encode_utf8(token))
}

/// SHA-256 of the token's UTF-8 bytes.
pub fn token_hash(token: &str) -> (r: Vec<u8>)
    ensures
        r@ == token_key(token@),
        r@.len() == 32,
{
    sha256(token.as_bytes())
}

/// A session token made of `bytes` (written in hex) and its stored key.
pub fn session_token_from(bytes: &[u8]) -> (r: (String, Vec<u8>))
    ensures
        r.0@ == hex_of(bytes@),
        r.0@.len() == 2 * bytes@.len(),
        r.1@ == token_key(r.0@),
        r.1@.len() == 32,
{
    let token = bytes_to_hex(bytes);
    let hash = token_hash(token.as_str());
    (token, hash)
}

/// A fresh random session token (the hex of 32 random bytes) and its
/// stored key; none when the operating system gives no random bytes.
pub fn generate_session_token() -> (r: Option<(String, Vec<u8>)>)
    ensures
        r is Some ==> {
            let (token, key) = r->Some_0;
            &&& token@.len() == 64
            &&& exists|b: Seq<u8>| b.len() == 32 && token@ == hex_of(b)
            &&& key@ == token_key(token@)
            &&& key@.len() == 32
        },
{
    match random_token_bytes() {
        Some(bytes) => {
            let (token, key) = session_token_from(bytes.as_slice());
            assert(token@ == hex_of(bytes@));
            Some((token, key))
        },
        None => None,
    }
}

/// A login session.
pub struct Session {
    pub token_hash: Vec<u8>,
    pub username: String,
    pub issued_at: i64,
    pub expires_at: i64,
}

/// User of the first live session stored under `key` at time `now`.
pub open spec fn session_user(s: Seq<Session>, key: Seq<u8>, now: i64) -> Option<Seq<char>>
    decreases s.len(),
{
    if s.len() == 0 {
        None
    } else if s[0].token_hash@ == key && s[0].expires_at > now {
        Some(s[0].username@)
    } else {
        session_user(s.drop_first(), key, now)
    }
}

/// The sessions of `s` that are not stored under `key`, in order.
pub open spec fn without_key(s: Seq<Session>, key: Seq<u8>) -> Seq<Session>
    decreases s.len(),
{
    if s.len() == 0 {
        s
    } else if s.last().token_hash@ == key {
        without_key(s.drop_last(), key)
    } else {
        without_key(s.drop_last(), key).push(s.last())
    }
}

/// The sessions of `s` still live at `now`, in order.
pub open spec fn live_at(s: Seq<Session>, now: i64) -> Seq<Session>
    decreases s.len(),
{
    if s.len() == 0 {
        s
    } else if s.last().expires_at > now {
        live_at(s.drop_last(), now).push(s.last())
    } else {
        live_at(s.drop_last(), now)
    }
}

/// Sessions of a node.
pub struct SessionStore {
    sessions: Vec<Session>,
}

impl SessionStore {
    pub closed spec fn spec_sessions(&self) -> Seq<Session> {
        self.sessions@
    }

    pub fn new() -> (r: SessionStore)
        ensures
            r.spec_sessions().len() == 0,
    {
        SessionStore { sessions: Vec::new() }
    }

    /// Keeps the sessions whose key differs from `key`.
    fn remove_key(&mut self, key: &[u8])
        ensures
            final(self).spec_sessions() == without_key(old(self).spec_sessions(), key@),
    {
        let ghost olds = self.sessions@;
        let ghost n = olds.len();
        let mut i: usize = 0;
        let ghost mut j: int = 0;
        while i < self.sessions.len()
            invariant
                0 <= j <= n == olds.len(),
                i <= self.sessions@.len(),
                self.sessions@ == without_key(olds.subrange(0, j), key@) + olds.subrange(j, n as int),
                i == without_key(olds.subrange(0, j), key@).len(),
            decreases self.sessions@.len() - i,
        {
            let ghost kept = without_key(olds.subrange(0, j), key@);
            assert(self.sessions@[i as int] == olds[j]);
            assert(olds.subrange(0, j + 1).drop_last() =~= olds.subrange(0, j));
            assert(olds.subrange(0, j + 1).last() == olds[j]);
            if bytes_equal(self.sessions[i].token_hash.as_slice(), key) {
                self.sessions.remove(i);
                assert(self.sessions@ =~= kept + olds.subrange(j + 1, n as int));
            } else {
                assert(self.sessions@ =~= kept.push(olds[j]) + olds.subrange(j + 1, n as int));
                i = i + 1;
            }
            proof {
                j = j + 1;
            }
        }
        assert(olds.subrange(j, n as int).len() == 0);
        assert(olds.subrange(0, j) =~= olds);
        assert(self.sessions@ =~= without_key(olds, key@));
    }

    /// Stores a session for `username` under the hash of `token`, replacing
    /// any session stored under the same hash.
    pub fn save_session(&mut self, token: &str, username: String, issued_at: i64, expires_at: i64)
        ensures
            final(self).spec_sessions() == without_key(old(self).spec_sessions(), token_key(token@)).push(
                Session { token_hash: final(self).spec_sessions().last().token_hash, username, issued_at, expires_at },
            ),
            final(self).spec_sessions().last().token_hash@ == token_key(token@),
    {
        let key = token_hash(token);
        self.remove_key(key.as_slice());
        self.sessions.push(Session { token_hash: key, username, issued_at, expires_at });
    }

    /// Drops expired sessions (those with `expires_at <= now`), then returns
    /// the user of the session of `token`, if it is live.
    pub fn lookup(&mut self, token: &str, now: i64) -> (r: Option<String>)
        ensures
            final(self).spec_sessions() == live_at(old(self).spec_sessions(), now),
            r is None <==> session_user(old(self).spec_sessions(), token_key(token@), now) is None,
            r is Some ==> session_user(old(self).spec_sessions(), token_key(token@), now) == Some(
                r->Some_0@,
            ),
    {
        let key = token_hash(token);
        let ghost olds = self.sessions@;
        let ghost n = olds.len();
        let mut found: Option<String> = None;
        let mut i: usize = 0;
        let ghost mut j: int = 0;
        assert(olds.subrange(0, n as int) =~= olds);
        while i < self.sessions.len()
            invariant
                0 <= j <= n == olds.len(),
                i <= self.sessions@.len(),
                key@ == token_key(token@),
                self.sessions@ == live_at(olds.subrange(0, j), now) + olds.subrange(j, n as int),
                i == live_at(olds.subrange(0, j), now).len(),
                found is None ==> session_user(olds, key@, now) == session_user(
                    olds.subrange(j, n as int),
                    key@,
                    now,
                ),
                found is Some ==> session_user(olds, key@, now) == Some(found->Some_0@),
            decreases self.sessions@.len() - i,
        {
            let ghost kept = live_at(olds.subrange(0, j), now);
            assert(self.sessions@[i as int] == olds[j]);
            assert(olds.subrange(0, j + 1).drop_last() =~= olds.subrange(0, j));
            assert(olds.subrange(0, j + 1).last() == olds[j]);
            let ghost rest = olds.subrange(j, n as int);
            assert(rest[0] == olds[j]);
            assert(rest.drop_first() =~= olds.subrange(j + 1, n as int));
            if self.sessions[i].expires_at > now {
                if found.is_none() && bytes_equal(self.sessions[i].token_hash.as_slice(), key.as_slice()) {
                    found = Some(self.sessions[i].username.clone());
                }
                assert(self.sessions@ =~= kept.push(olds[j]) + olds.subrange(j + 1, n as int));
                i = i + 1;
            } else {
                self.sessions.remove(i);
                assert(self.sessions@ =~= kept + olds.subrange(j + 1, n as int));
            }
            proof {
                j = j + 1;
            }
        }
        assert(olds.subrange(j, n as int).len() == 0);
        assert(olds.subrange(0, j) =~= olds);
        assert(self.sessions@ =~= live_at(olds, now));
        found
    }

    /// Deletes the session of `token` (logout).
    pub fn drop_session(&mut self, token: &str)
        ensures
            final(self).spec_sessions() == without_key(old(self).spec_sessions(), token_key(token@)),
    {
        let key = token_hash(token);
        self.remove_key(key.as_slice());
    }
}

proof fn lemma_without_key_excludes(s: Seq<Session>, key: Seq<u8>)
    ensures
        forall|i: int| 0 <= i < without_key(s, key).len() ==> (#[trigger] without_key(s, key)[i]).token_hash@ != key,
    decreases s.len(),
{
    if s.len() > 0 {
        lemma_without_key_excludes(s.drop_last(), key);
        let w = without_key(s.drop_last(), key);
        if s.last().token_hash@ != key {
            assert forall|i: int| 0 <= i < w.push(s.last()).len() implies (#[trigger] w.push(
                s.last(),
            )[i]).token_hash@ != key by {
                if i < w.len() {
                    assert(w.push(s.last())[i] == w[i]);
                }
            }
        }
    }
}

proof fn lemma_user_after_others(t: Seq<Session>, x: Session, key: Seq<u8>, now: i64)
    requires
        forall|i: int| 0 <= i < t.len() ==> (#[trigger] t[i]).token_hash@ != key,
        x.token_hash@ == key,
    ensures
        session_user(t.push(x), key, now) == (if x.expires_at > now {
            Some(x.username@)
        } else {
            None
        }),
    decreases t.len(),
{
    if t.len() == 0 {
        assert(t.push(x).drop_first() =~= Seq::<Session>::empty());
        assert(session_user(t.push(x).drop_first(), key, now) is None);
        assert(t.push(x)[0] == x);
    } else {
        assert(t.push(x)[0] == t[0]);
        assert(t.push(x).drop_first() =~= t.drop_first().push(x));
        assert forall|i: int| 0 <= i < t.drop_first().len() implies (#[trigger] t.drop_first()[i]).token_hash@ != key by {
            assert(t.drop_first()[i] == t[i + 1]);
        }
        lemma_user_after_others(t.drop_first(), x, key, now);
    }
}

/// A saved session answers for its user until it expires: looking up the
/// token after saving it gives the user while `now < expires_at`, and
/// nothing from then on.
pub proof fn lemma_session_lookup(
    before: Seq<Session>,
    token: Seq<char>,
    saved: Session,
    now: i64,
)
    requires
        saved.token_hash@ == token_key(token),
    ensures
        session_user(without_key(before, token_key(token)).push(saved), token_key(token), now) == (
        if now < saved.expires_at {
            Some(saved.username@)
        } else {
            None
        }),
{
    lemma_without_key_excludes(before, token_key(token));
    lemma_user_after_others(without_key(before, token_key(token)), saved, token_key(token), now);
}

} // verus!
