use crate::error::Error;
use crate::types::database_ids::{DatabaseIdTrait, PasswordHash, UserId};
use crate::types::enc_string::EncString;
use crate::types::percent::{encoded_text, lemma_self_encoded};
use crate::types::text::is_alnum;
use vstd::prelude::*;

verus! {

/// A user account.
#[derive(Debug)]
pub struct User {
    id: UserId,
    pub email: EncString,
    pub display_name: EncString,
    password_hash: PasswordHash,
}

/// The mathematical value of a [`User`].
pub ghost struct UserView {
    pub id: UserId,
    pub email: Seq<char>,
    pub display_name: Seq<char>,
    pub password_hash: Seq<char>,
}

impl View for User {
    type V = UserView;

    closed spec fn view(&self) -> UserView {
        UserView {
            id: self.id,
            email: self.email@,
            display_name: self.display_name@,
            password_hash: self.password_hash@,
        }
    }
}

impl User {
    pub fn id(&self) -> (r: &UserId)
        ensures
            *r == self@.id,
    {
        &self.id
    }

    /// Gives the user its key. Fails where it already has one.
    pub fn set_id(&mut self, id: UserId) -> (r: Result<(), Error>)
        ensures
            match r {
                Ok(_) => !old(self)@.id.spec_is_valid() && final(self)@ == (UserView {
                    id,
                    ..old(self)@
                }),
                Err(e) => e == Error::InvalidArgument && old(self)@.id.spec_is_valid()
                    && final(self)@ == old(self)@,
            },
    {
        if self.id.is_valid() {
            Err(Error::InvalidArgument)
        } else {
            self.id = id;
            Ok(())
        }
    }

    pub fn update_password(&mut self, password: PasswordHash)
        ensures
            final(self)@ == (UserView { password_hash: password@, ..old(self)@ }),
    {
        self.password_hash = password
    }

    pub fn password(&self) -> (r: &PasswordHash)
        ensures
            r@ == self@.password_hash,
    {
        &self.password_hash
    }

    /// A user with the given address and name, no key and no password.
    pub fn new(email: EncString, display_name: EncString) -> (r: Self)
        ensures
            r@ == (UserView {
                id: UserId(0),
                email: email@,
                display_name: display_name@,
                password_hash: Seq::empty(),
            }),
    {
        User { id: UserId(0), email, display_name, password_hash: PasswordHash::default() }
    }

    /// Whether the user can be stored: whether it has a display name.
    /// Fails with `InvalidArgument` where the name is empty.
    pub fn check_name(&self) -> (r: Result<(), Error>)
        ensures
            match r {
                Ok(_) => self@.display_name.len() > 0,
                Err(e) => e == Error::InvalidArgument && self@.display_name.len() == 0,
            },
    {
        if self.display_name.is_empty() {
            Err(Error::InvalidArgument)
        } else {
            Ok(())
        }
    }

    /// What a comparison of a password with the stored hash means for a
    /// sign-in: the user where they are the same, `NotFound` where they
    /// differ, and the failure of the comparison where it failed.
    pub fn with_verdict(self, verdict: Result<bool, Error>) -> (r: Result<User, Error>)
        ensures
            match r {
                Ok(user) => verdict == Ok::<bool, Error>(true) && user@ == self@,
                Err(e) => match verdict {
                    Ok(same) => !same && e == Error::NotFound,
                    Err(failure) => e == failure,
                },
            },
    {
        match verdict {
            Ok(true) => Ok(self),
            Ok(false) => Err(Error::NotFound),
            Err(e) => Err(e),
        }
    }
}

impl Clone for User {
    fn clone(&self) -> (r: Self)
        ensures
            r@ == self@,
    {
        User {
            id: self.id,
            email: self.email.clone(),
            display_name: self.display_name.clone(),
            password_hash: self.password_hash.clone(),
        }
    }
}

impl Default for User {
    fn default() -> (r: Self)
        ensures
            r@ == (UserView {
                id: UserId(0),
                email: Seq::empty(),
                display_name: Seq::empty(),
                password_hash: Seq::empty(),
            }),
    {
        User::new(EncString::default(), EncString::default())
    }
}

/// A text of ASCII letters and digits of the given length.
pub open spec fn is_token(text: Seq<char>, len: int) -> bool {
    text.len() == len && forall|i: int| 0 <= i < text.len() ==> is_alnum(#[trigger] text[i])
}

/// `rand::distr::Alphanumeric.sample_string` on the generator of the
/// thread: a text of `len` characters, each an ASCII letter or digit,
/// drawn at random.
#[verifier::external_body]
fn random_alphanumeric(len: usize) -> (r: String)
    ensures
        is_token(r@, len as int),
{
    rand::distr::SampleString::sample_string(&rand::distr::Alphanumeric, &mut rand::rng(), len)
}

/// `rand::random::<i64>`: a number drawn at random.
#[verifier::external_body]
fn random_number() -> (r: i64) {
    rand::random::<i64>()
}

/// A text of letters and digits is its own encoding.
pub proof fn lemma_token_is_plain(text: Seq<char>, len: int)
    requires
        is_token(text, len),
    ensures
        encoded_text(text) == text,
{
    assert forall|i: int| 0 <= i < text.len() implies crate::types::percent::is_plain_char(
        #[trigger] text[i],
    ) by {
        assert(is_alnum(text[i]));
        lemma_alnum_is_plain(text[i]);
    }
    lemma_self_encoded(text);
}

proof fn lemma_alnum_is_plain(c: char)
    requires
        is_alnum(c),
    ensures
        crate::types::percent::is_plain_char(c),
{
}

/// A text of `len` letters and digits drawn at random, as an encoded text.
/// It is for the caller to see that the text is not in use yet.
pub fn random_text(len: usize) -> (r: EncString)
    ensures
        is_token(r@, len as int),
{
    let text = random_alphanumeric(len);
    proof {
        lemma_token_is_plain(text@, len as int);
    }
    EncString::encode(text.as_str())
}

/// How many characters a token of a signed-in device has.
pub const AUTH_TOKEN_LENGTH: usize = 64;

/// How many characters a code to set a new password has.
pub const RESET_CODE_LENGTH: usize = 8;

/// The key that a number drawn at random stands for: its distance from
/// zero. None for the one number whose distance `i64` does not hold.
pub fn key_of_random(raw: i64) -> (r: Option<UserId>)
    ensures
        match r {
            Some(key) => raw > i64::MIN && key.0 >= 0 && (key.0 == raw || key.0 == -raw),
            None => raw == i64::MIN,
        },
{
    if raw == i64::MIN {
        None
    } else if raw < 0 {
        Some(UserId(-raw))
    } else {
        Some(UserId(raw))
    }
}

/// A key drawn at random for a new user. It is for the caller to see that
/// no user has it yet.
pub fn random_user_key() -> (r: Option<UserId>)
    ensures
        r is Some ==> r.unwrap().value_spec() >= 0,
{
    key_of_random(random_number())
}

/// The token that a signed-in device shows with each request.
#[derive(Debug)]
pub struct AuthToken {
    owner: UserId,
    pub token: EncString,
    pub device: EncString,
    pub expdate: i64,
}

impl AuthToken {
    /// The user to whom the token was given.
    pub closed spec fn spec_owner(&self) -> UserId {
        self.owner
    }

    pub fn owner(&self) -> (r: &UserId)
        ensures
            *r == self.spec_owner(),
    {
        &self.owner
    }

    pub closed spec fn spec_token(&self) -> Seq<char> {
        self.token@
    }

    pub closed spec fn spec_device(&self) -> Seq<char> {
        self.device@
    }

    pub closed spec fn spec_expdate(&self) -> i64 {
        self.expdate
    }

    /// The token of a user for a device.
    pub fn new(owner: UserId, token: EncString, device: EncString, expdate: i64) -> (r: Self)
        ensures
            r.spec_owner() == owner,
            r.spec_token() == token@,
            r.spec_device() == device@,
            r.spec_expdate() == expdate,
    {
        AuthToken { owner, token, device, expdate }
    }

    /// A new token for a user and a device, made at the time `now`: 64
    /// letters and digits drawn at random. It is for the caller to see that
    /// no other token has the same text.
    pub fn generate(owner: UserId, device: &EncString, now: i64) -> (r: Self)
        ensures
            r.spec_owner() == owner,
            is_token(r.spec_token(), AUTH_TOKEN_LENGTH as int),
            r.spec_device() == device@,
            r.spec_expdate() == now,
    {
        AuthToken {
            owner,
            token: random_text(AUTH_TOKEN_LENGTH),
            device: device.clone(),
            expdate: now,
        }
    }
}

impl Clone for AuthToken {
    fn clone(&self) -> (r: Self)
        ensures
            r.spec_owner() == self.spec_owner(),
    {
        AuthToken {
            owner: self.owner,
            token: self.token.clone(),
            device: self.device.clone(),
            expdate: self.expdate,
        }
    }
}

/// What a user sends to sign in.
#[derive(Debug)]
pub struct LoginInfos {
    pub login: EncString,
    pub password: EncString,
    pub device: Option<EncString>,
}

/// What a user gets back on signing in.
#[derive(Debug)]
pub struct LoginResult {
    pub token: AuthToken,
    pub user: User,
}

/// The name and the password that a user sends to confirm a request.
#[derive(Debug)]
pub struct UserCredentials {
    pub login: EncString,
    pub password: EncString,
    pub device: Option<EncString>,
}

/// A request to set a new password, with the code that was mailed to the
/// user and the time at which the code stops being good.
#[derive(Debug)]
pub struct ResetPasswords {
    user_id: UserId,
    code: String,
    expdate: i64,
}

/// How long a code to set a new password is good, in seconds.
pub const RESET_CODE_LIFETIME: i64 = 900;

impl ResetPasswords {
    pub closed spec fn spec_user_id(&self) -> UserId {
        self.user_id
    }

    pub closed spec fn spec_code(&self) -> Seq<char> {
        self.code@
    }

    pub closed spec fn spec_expdate(&self) -> i64 {
        self.expdate
    }

    /// The request of a user, made at the time `now` in seconds, with the
    /// given code. None where the time is too near the end of time for the
    /// code to have a last second.
    pub fn new(user_id: UserId, code: String, now: i64) -> (r: Option<Self>)
        ensures
            match r {
                Some(request) => now + RESET_CODE_LIFETIME <= i64::MAX && request.spec_user_id()
                    == user_id && request.spec_code() == code@ && request.spec_expdate() == now
                    + RESET_CODE_LIFETIME,
                None => now + RESET_CODE_LIFETIME > i64::MAX,
            },
    {
        match now.checked_add(RESET_CODE_LIFETIME) {
            Some(expdate) => Some(ResetPasswords { user_id, code, expdate }),
            None => None,
        }
    }

    /// A new request of a user, made at the time `now` in seconds, with a
    /// code of eight letters and digits drawn at random.
    pub fn create(user_id: UserId, now: i64) -> (r: Option<Self>)
        ensures
            match r {
                Some(request) => now + RESET_CODE_LIFETIME <= i64::MAX && request.spec_user_id()
                    == user_id && is_token(request.spec_code(), RESET_CODE_LENGTH as int)
                    && request.spec_expdate() == now + RESET_CODE_LIFETIME,
                None => now + RESET_CODE_LIFETIME > i64::MAX,
            },
    {
        Self::new(user_id, random_alphanumeric(RESET_CODE_LENGTH), now)
    }

    /// The request as it is stored.
    pub fn from_stored(user_id: UserId, code: String, expdate: i64) -> (r: Self)
        ensures
            r.spec_user_id() == user_id,
            r.spec_code() == code@,
            r.spec_expdate() == expdate,
    {
        ResetPasswords { user_id, code, expdate }
    }

    pub fn user_id(&self) -> (r: &UserId)
        ensures
            *r == self.spec_user_id(),
    {
        &self.user_id
    }

    pub fn code(&self) -> (r: &String)
        ensures
            r@ == self.spec_code(),
    {
        &self.code
    }

    pub fn expdate(&self) -> (r: i64)
        ensures
            r == self.spec_expdate(),
    {
        self.expdate
    }

    /// Whether the code has stopped being good at the time `now`.
    pub fn is_outdated(&self, now: i64) -> (r: bool)
        ensures
            r == (self.spec_expdate() < now),
    {
        self.expdate < now
    }

    /// Lets the request through while its code is good. Fails with
    /// `InvalidArgument` once it is outdated.
    pub fn check(&self, now: i64) -> (r: Result<(), Error>)
        ensures
            match r {
                Ok(_) => self.spec_expdate() >= now,
                Err(e) => e == Error::InvalidArgument && self.spec_expdate() < now,
            },
    {
        if self.is_outdated(now) {
            Err(Error::InvalidArgument)
        } else {
            Ok(())
        }
    }
}

} // verus!
