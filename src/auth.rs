//! Accounts: registering a user and checking a login.

use vstd::prelude::*;
use vstd::string::*;
use vstd::utf8::encode_utf8;
use crate::text::chars_of;

verus! {

/// The error type of the `bcrypt` crate, carried through unopened.
#[verifier::external_type_specification]
#[verifier::external_body]
pub struct ExBcryptError(bcrypt::BcryptError);

/// What a user may do in one category.
#[derive(Clone, Copy, Debug, PartialEq, Eq, Structural)]
pub struct Role {
    pub editor: bool,
    pub verificator: bool,
}

/// An account: its mail, the bcrypt hash of its password, and its role in
/// each category, by category name.
#[derive(Debug)]
pub struct User {
    pub mail: String,
    pub password_hash: String,
    pub roles: Vec<(String, Role)>,
}

/// Why a registration was refused.
#[derive(Clone, Copy, Debug, PartialEq, Eq, Structural)]
pub enum AuthError {
    /// The mail has no `@`.
    InvalidMail,
    /// The password is shorter than six bytes.
    PasswordTooShort,
    /// An account with this mail exists.
    MailTaken,
    /// The password could not be hashed.
    HashFailed,
}

/// Whether `bcrypt::verify` accepts the password against the stored hash.
pub uninterp spec fn password_matches(password: Seq<char>, hash: Seq<char>) -> bool;

/// Relies on `bcrypt::verify`: whether the password hashes, with the cost
/// and salt that the stored hash carries, to that hash. The answer depends
/// on the two strings alone; a malformed hash gives an error.
#[verifier::external_body]
fn bcrypt_verify(password: &str, hash: &str) -> (r: Result<bool, bcrypt::BcryptError>)
    ensures
        (r matches Ok(b) && b) == password_matches(password@, hash@),
{
    bcrypt::verify(password, hash)
}

/// Relies on `bcrypt::hash` with the default cost. The salt is random, so
/// the hash itself is not named; `bcrypt::verify` accepts the password
/// against it, since both hash the password the same way with that salt.
#[verifier::external_body]
fn bcrypt_hash(password: &str) -> (r: Result<String, bcrypt::BcryptError>)
    ensures
        r matches Ok(h) ==> password_matches(password@, h@),
{
    bcrypt::hash(password, bcrypt::DEFAULT_COST)
}

/// Index of the first user with the given mail whose stored hash accepts the
/// password.
pub open spec fn login_index(users: Seq<User>, mail: Seq<char>, password: Seq<char>) -> Option<
    int,
> {
    if exists|i: int|
        0 <= i < users.len() && (#[trigger] users[i]).mail@ == mail && password_matches(
            password,
            users[i].password_hash@,
        ) {
        Some(
            choose|i: int|
                0 <= i < users.len() && (#[trigger] users[i]).mail@ == mail && password_matches(
                    password,
                    users[i].password_hash@,
                ) && forall|j: int|
                    0 <= j < i ==> !((#[trigger] users[j]).mail@ == mail && password_matches(
                        password,
                        users[j].password_hash@,
                    )),
        )
    } else {
        None
    }
}

/// The account that a login with this mail and password opens, if any.
pub fn login(users: &Vec<User>, mail: &str, password: &str) -> (r: Option<usize>)
    ensures
        r matches Some(i) ==> login_index(users@, mail@, password@) == Some(i as int),
        r is None ==> login_index(users@, mail@, password@) is None,
{
    let target = mail.to_owned();
    let mut i: usize = 0;
    while i < users.len()
        invariant
            target@ == mail@,
            i <= users@.len(),
            forall|j: int|
                0 <= j < i ==> !((#[trigger] users@[j]).mail@ == mail@ && password_matches(
                    password@,
                    users@[j].password_hash@,
                )),
        decreases users@.len() - i,
    {
        if users[i].mail == target {
            let ok = match bcrypt_verify(password, users[i].password_hash.as_str()) {
                Ok(b) => b,
                Err(_) => false,
            };
            if ok {
                proof {
                    let k = choose|k: int|
                        0 <= k < users@.len() && (#[trigger] users@[k]).mail@ == mail@
                            && password_matches(password@, users@[k].password_hash@) && forall|j: int|
                            0 <= j < k ==> !((#[trigger] users@[j]).mail@ == mail@
                                && password_matches(password@, users@[j].password_hash@));
                    if k > i {
                        assert(!(users@[i as int].mail@ == mail@ && password_matches(
                            password@,
                            users@[i as int].password_hash@,
                        )));
                    }
                }
                return Some(i);
            }
        }
        i += 1;
    }
    None
}

fn has_at_sign(s: &str) -> (r: bool)
    ensures
        r == s@.contains('@'),
{
    let cs = chars_of(s);
    let mut i: usize = 0;
    while i < cs.len()
        invariant
            cs@ == s@,
            i <= cs@.len(),
            forall|j: int| 0 <= j < i ==> cs@[j] != '@',
        decreases cs@.len() - i,
    {
        if cs[i] == '@' {
            return true;
        }
        i += 1;
    }
    false
}

fn mail_in_use(users: &Vec<User>, mail: &String) -> (r: bool)
    ensures
        r == exists|i: int| 0 <= i < users@.len() && (#[trigger] users@[i]).mail@ == mail@,
{
    let mut i: usize = 0;
    while i < users.len()
        invariant
            i <= users@.len(),
            forall|j: int| 0 <= j < i ==> (#[trigger] users@[j]).mail@ != mail@,
        decreases users@.len() - i,
    {
        if users[i].mail == *mail {
            return true;
        }
        i += 1;
    }
    false
}

/// Registers an account. The mail must hold an `@`, the password must be
/// six bytes or longer, and no account may have the mail yet; the checks
/// are made in that order. The account keeps a bcrypt hash of the password.
pub fn register_user(
    users: &mut Vec<User>,
    mail: String,
    password: String,
    roles: Vec<(String, Role)>,
) -> (r: Result<(), AuthError>)
    requires
        encode_utf8(password@).len() <= usize::MAX,
    ensures
        !mail@.contains('@') ==> r == Err::<(), AuthError>(AuthError::InvalidMail),
        mail@.contains('@') && encode_utf8(password@).len() < 6 ==> r == Err::<(), AuthError>(
            AuthError::PasswordTooShort,
        ),
        mail@.contains('@') && encode_utf8(password@).len() >= 6 && (exists|i: int|
            0 <= i < old(users)@.len() && (#[trigger] old(users)@[i]).mail@ == mail@) ==> r
            == Err::<(), AuthError>(AuthError::MailTaken),
        mail@.contains('@') && encode_utf8(password@).len() >= 6 && !(exists|i: int|
            0 <= i < old(users)@.len() && (#[trigger] old(users)@[i]).mail@ == mail@) ==> (r is Ok
            || r == Err::<(), AuthError>(AuthError::HashFailed)),
        r is Ok ==> final(users)@.len() == old(users)@.len() + 1 && final(users)@.subrange(
            0,
            old(users)@.len() as int,
        ) == old(users)@ && final(users)@.last().mail@ == mail@ && final(users)@.last().roles
            == roles && password_matches(password@, final(users)@.last().password_hash@),
        r is Err ==> final(users)@ == old(users)@,
{
    if !has_at_sign(mail.as_str()) {
        return Err(AuthError::InvalidMail);
    }
    if password.as_str().len() < 6 {
        return Err(AuthError::PasswordTooShort);
    }
    if mail_in_use(users, &mail) {
        return Err(AuthError::MailTaken);
    }
    match bcrypt_hash(password.as_str()) {
        Ok(h) => {
            users.push(User { mail, password_hash: h, roles });
            assert(users@.subrange(0, old(users)@.len() as int) =~= old(users)@);
            Ok(())
        },
        Err(_) => Err(AuthError::HashFailed),
    }
}

} // verus!
