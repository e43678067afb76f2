//! User accounts: registration, login (credentials checked against the stored
//! salted hash, answered with a signed token), self retrieval, credential
//! update and soft delete. Accounts are never hard-deleted; a non-deleted
//! name is unique among non-deleted accounts.

use vstd::prelude::*;
use crate::store::MetadataStore;
use crate::store::has_user_named;
use crate::store::mark_user_deleted;
use crate::store::rename_user;
use crate::store::user_at;
use crate::store::user_index;
use crate::store::user_named;
use crate::token::TokenCodec;
use crate::token::jwt_claims_of;
use crate::token::jwt_of;

verus! {

/// How long an issued login token lasts, in seconds.
pub const TOKEN_TTL_SECONDS: i64 = 3600;

/// The credentials a registration or login request carries.
#[derive(Debug)]
pub struct User {
    pub username: String,
    pub password: String,
}

/// The verified identity a request acts under: the authenticated subject and
/// the expiry of the token that proved it.
#[derive(Clone, Copy, PartialEq, Eq, Structural, Debug)]
pub struct Authorization {
    pub sub: i32,
    pub exp: i64,
}

/// The classified failures a user operation can surface.
#[derive(Clone, Copy, PartialEq, Eq, Structural, Debug)]
pub enum UserError {
    /// A non-deleted account already bears the requested name.
    Conflict,
    /// No matching live account.
    NotFound,
    /// The account exists but the password does not match its stored hash.
    InvalidPassword,
    /// A stored hash could not be read, or another internal fault.
    Internal,
    /// The store rejected the write.
    StorageFailure,
}

/// The three ways a password checks against a stored hash.
#[derive(Clone, Copy, PartialEq, Eq, Structural, Debug)]
pub enum PasswordCheck {
    Match,
    Mismatch,
    UnreadableHash,
}

/// What the outside password verifier answers for a password and a stored
/// hash: `Some(true)` for a match, `Some(false)` for a mismatch, `None` for a
/// hash it cannot parse; deterministic in its arguments.
pub uninterp spec fn password_match(password: Seq<char>, hash: Seq<char>) -> Option<bool>;

/// Relies on password_auth::verify_password: deterministic in the password
/// and the hash; `Ok` means the password matches the hash,
/// `VerifyError::PasswordInvalid` a mismatch, `VerifyError::Parse` a stored
/// hash that cannot be read.
#[verifier::external_body]
fn check_password(password: &str, hash: &str) -> (r: PasswordCheck)
    ensures
        r == PasswordCheck::Match <==> password_match(password@, hash@) == Some(true),
        r == PasswordCheck::Mismatch <==> password_match(password@, hash@) == Some(false),
        r == PasswordCheck::UnreadableHash <==> password_match(password@, hash@) is None,
{
    match password_auth::verify_password(password, hash) {
        Ok(()) => PasswordCheck::Match,
        Err(password_auth::VerifyError::PasswordInvalid) => PasswordCheck::Mismatch,
        Err(password_auth::VerifyError::Parse(_)) => PasswordCheck::UnreadableHash,
    }
}

/// Relies on password_auth::generate_hash: a freshly salted hash, different on
/// every call, but every outcome verifies against the password it was
/// generated from.
#[verifier::external_body]
fn hash_password(password: &str) -> (r: String)
    ensures
        password_match(password@, r@) == Some(true),
{
    password_auth::generate_hash(password)
}

/// Registers a new account: rejected with `Conflict` iff a non-deleted user
/// already bears the name; otherwise the store assigns the id, and the stored
/// hash verifies against the chosen password.
pub fn create_user(m: &mut MetadataStore, user: &User, now: i64, fail: bool) -> (r: Result<
    i32,
    UserError,
>)
    requires
        old(m).wf(),
        old(m)@.next_user_id < i32::MAX,
    ensures
        final(m).wf(),
        has_user_named(old(m)@.users, user.username@) ==> r == Err::<i32, UserError>(
            UserError::Conflict,
        ) && final(m)@ == old(m)@,
        !has_user_named(old(m)@.users, user.username@) && fail ==> r == Err::<i32, UserError>(
            UserError::StorageFailure,
        ) && final(m)@ == old(m)@,
        !has_user_named(old(m)@.users, user.username@) && !fail ==> r == Ok::<i32, UserError>(
            old(m)@.next_user_id,
        ) && final(m)@.users == old(m)@.users.push(final(m)@.users.last())
            && final(m)@.users.last().id == old(m)@.next_user_id && final(m)@.users.last().name
            == user.username@ && final(m)@.users.last().deleted == false
            && final(m)@.users.last().created_at == now && password_match(
            user.password@,
            final(m)@.users.last().hash,
        ) == Some(true) && final(m)@.recipes == old(m)@.recipes && final(m)@.next_user_id == old(
            m,
        )@.next_user_id + 1 && final(m)@.next_recipe_id == old(m)@.next_recipe_id,
{
    if m.get_user_named(&user.username).is_some() {
        return Err(UserError::Conflict);
    }
    let hash = hash_password(user.password.as_str());
    match m.insert_user(user.username.clone(), hash, now, fail) {
        Ok(id) => Ok(id),
        Err(_) => Err(UserError::StorageFailure),
    }
}

/// Checks the credentials against the stored non-deleted account and answers
/// with a signed token for the account's id, expiring `TOKEN_TTL_SECONDS`
/// after `now`. No such account is `NotFound`; a wrong password is
/// `InvalidPassword`; a stored hash that cannot be read is `Internal`.
pub fn login(m: &MetadataStore, codec: &TokenCodec, user: &User, now: i64) -> (r: Result<
    String,
    UserError,
>)
    requires
        m.wf(),
        0 <= now <= i64::MAX - TOKEN_TTL_SECONDS,
    ensures
        user_named(m@.users, user.username@) is None ==> r == Err::<String, UserError>(
            UserError::NotFound,
        ),
        user_named(m@.users, user.username@) matches Some(u) ==> match password_match(
            user.password@,
            u.hash,
        ) {
            Some(true) => r matches Ok(t) && t@ == jwt_of(
                u.id,
                (now + TOKEN_TTL_SECONDS) as i64,
                codec.key(),
            ) && jwt_claims_of(t@, codec.key()) == Some((u.id, (now + TOKEN_TTL_SECONDS) as i64)),
            Some(false) => r == Err::<String, UserError>(UserError::InvalidPassword),
            None => r == Err::<String, UserError>(UserError::Internal),
        },
{
    let row = match m.get_user_named(&user.username) {
        None => {
            return Err(UserError::NotFound);
        },
        Some(u) => u,
    };
    match check_password(user.password.as_str(), row.hash.as_str()) {
        PasswordCheck::Match => Ok(codec.issue(row.id, TOKEN_TTL_SECONDS, now)),
        PasswordCheck::Mismatch => Err(UserError::InvalidPassword),
        PasswordCheck::UnreadableHash => Err(UserError::Internal),
    }
}

/// The public projection of a live account.
#[derive(Debug)]
pub struct UserResponse {
    pub name: String,
    pub id: i32,
    pub created_at: i64,
}

/// Fetches the authenticated subject's own live account row.
pub fn retrieve_self_user(m: &MetadataStore, subject: i32) -> (r: Result<UserResponse, UserError>)
    requires
        m.wf(),
    ensures
        user_at(m@.users, subject) matches Some(u) ==> (u.deleted || (r matches Ok(p) && p.id
            == u.id && p.name@ == u.name && p.created_at == u.created_at)),
        (user_at(m@.users, subject) is None || user_at(m@.users, subject).unwrap().deleted) ==> r
            == Err::<UserResponse, UserError>(UserError::NotFound),
{
    match m.get_user(subject) {
        None => Err(UserError::NotFound),
        Some(u) => {
            if u.deleted {
                Err(UserError::NotFound)
            } else {
                Ok(UserResponse { name: u.name.clone(), id: u.id, created_at: u.created_at })
            }
        },
    }
}

/// Soft-deletes the authenticated subject's own account: `deleted` flips
/// false to true exactly once; an absent or already-deleted account is
/// `NotFound`.
pub fn delete_user(m: &mut MetadataStore, subject: i32) -> (r: Result<(), UserError>)
    requires
        old(m).wf(),
    ensures
        final(m).wf(),
        r is Ok <==> (user_at(old(m)@.users, subject) matches Some(u) && !u.deleted),
        r is Err ==> r == Err::<(), UserError>(UserError::NotFound) && final(m)@ == old(m)@,
        r is Ok ==> final(m)@.users == old(m)@.users.update(
            user_index(old(m)@.users, subject),
            mark_user_deleted(old(m)@.users[user_index(old(m)@.users, subject)]),
        ) && final(m)@.recipes == old(m)@.recipes && final(m)@.next_user_id == old(
            m,
        )@.next_user_id && final(m)@.next_recipe_id == old(m)@.next_recipe_id,
{
    if m.set_user_deleted(subject) {
        Ok(())
    } else {
        Err(UserError::NotFound)
    }
}

/// Another live account already bears the name, so a rename onto it must be
/// rejected.
pub open spec fn rename_conflicts(m: crate::store::MetadataStoreV, name: Seq<char>, id: i32) -> bool {
    user_named(m.users, name) matches Some(u) && u.id != id
}

/// Replaces the authenticated subject's name and password. A rename onto
/// another live account's name is `Conflict` (the store's unique index);
/// an id with no row at all is `NotFound`. The row is replaced even when it is
/// already soft-deleted, as the store's unconditional update statement has it.
pub fn update_user(m: &mut MetadataStore, subject: i32, user: &User, fail: bool) -> (r: Result<
    (),
    UserError,
>)
    requires
        old(m).wf(),
    ensures
        final(m).wf(),
        rename_conflicts(old(m)@, user.username@, subject) ==> r == Err::<(), UserError>(
            UserError::Conflict,
        ) && final(m)@ == old(m)@,
        !rename_conflicts(old(m)@, user.username@, subject) && fail ==> r == Err::<(), UserError>(
            UserError::StorageFailure,
        ) && final(m)@ == old(m)@,
        !rename_conflicts(old(m)@, user.username@, subject) && !fail && !crate::store::has_user(
            old(m)@.users,
            subject,
        ) ==> r == Err::<(), UserError>(UserError::NotFound) && final(m)@ == old(m)@,
        !rename_conflicts(old(m)@, user.username@, subject) && !fail && crate::store::has_user(
            old(m)@.users,
            subject,
        ) ==> r is Ok && final(m)@.users == old(m)@.users.update(
            user_index(old(m)@.users, subject),
            rename_user(
                old(m)@.users[user_index(old(m)@.users, subject)],
                user.username@,
                final(m)@.users[user_index(old(m)@.users, subject)].hash,
            ),
        ) && password_match(
            user.password@,
            final(m)@.users[user_index(old(m)@.users, subject)].hash,
        ) == Some(true) && final(m)@.recipes == old(m)@.recipes && final(m)@.next_user_id == old(
            m,
        )@.next_user_id && final(m)@.next_recipe_id == old(m)@.next_recipe_id,
{
    match m.get_user_named(&user.username) {
        Some(u) => {
            if u.id != subject {
                return Err(UserError::Conflict);
            }
        },
        None => {},
    }
    proof {
        assert forall|j: int|
            0 <= j < m@.users.len() && !m@.users[j].deleted && m@.users[j].id != subject implies m@.users[j].name
            != user.username@ by {
            if m@.users[j].name == user.username@ {
                assert(crate::store::has_user_named(m@.users, user.username@));
                let k = crate::store::user_named_index(m@.users, user.username@);
                if j < k {
                    assert(m@.users[j].name != m@.users[k].name);
                } else if k < j {
                    assert(m@.users[k].name != m@.users[j].name);
                }
            }
        }
    }
    let hash = hash_password(user.password.as_str());
    match m.update_user_row(subject, user.username.clone(), hash, fail) {
        Ok(true) => Ok(()),
        Ok(false) => Err(UserError::NotFound),
        Err(_) => Err(UserError::StorageFailure),
    }
}

} // verus!
