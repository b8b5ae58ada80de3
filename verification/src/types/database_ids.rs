use crate::error::Error;
use crate::types::enc_string::EncString;
use vstd::prelude::*;
use vstd::std_specs::convert::FromSpecImpl;

verus! {

/// A 64-bit surrogate key. Zero stands for "not yet assigned".
pub type DatabaseId = i64;

/// What every kind of key offers: whether it has been assigned.
pub trait DatabaseIdTrait {
    /// True where the key is not the zero key.
    spec fn spec_is_valid(&self) -> bool;

    fn is_valid(&self) -> (r: bool)
        ensures
            r == self.spec_is_valid(),
    ;
}

impl DatabaseIdTrait for DatabaseId {
    open spec fn spec_is_valid(&self) -> bool {
        *self != 0
    }

    fn is_valid(&self) -> (r: bool) {
        *self != 0
    }
}

/// The key of an item of a repository's tree.
#[derive(Clone, Copy, Debug, PartialEq, Eq, Hash, Structural)]
pub struct ItemId(pub DatabaseId);

impl ItemId {
    /// The raw key.
    pub fn value(&self) -> (r: DatabaseId)
        ensures
            r == self.0,
    {
        self.0
    }
}

impl DatabaseIdTrait for ItemId {
    open spec fn spec_is_valid(&self) -> bool {
        self.0 != 0
    }

    fn is_valid(&self) -> (r: bool) {
        self.0 != 0
    }
}

impl Default for ItemId {
    fn default() -> (r: Self)
        ensures
            r.0 == 0,
    {
        ItemId(0)
    }
}

impl From<DatabaseId> for ItemId {
    fn from(value: DatabaseId) -> (r: Self) {
        ItemId(value)
    }
}

impl FromSpecImpl<DatabaseId> for ItemId {
    open spec fn obeys_from_spec() -> bool {
        true
    }

    open spec fn from_spec(value: DatabaseId) -> Self {
        ItemId(value)
    }
}

/// The key of a stored content object.
#[derive(Clone, Copy, Debug, PartialEq, Eq, Hash, Structural)]
pub struct ObjectId(pub DatabaseId);

impl ObjectId {
    /// The raw key.
    pub fn value(&self) -> (r: DatabaseId)
        ensures
            r == self.0,
    {
        self.0
    }
}

impl DatabaseIdTrait for ObjectId {
    open spec fn spec_is_valid(&self) -> bool {
        self.0 != 0
    }

    fn is_valid(&self) -> (r: bool) {
        self.0 != 0
    }
}

impl Default for ObjectId {
    fn default() -> (r: Self)
        ensures
            r.0 == 0,
    {
        ObjectId(0)
    }
}

impl From<DatabaseId> for ObjectId {
    fn from(value: DatabaseId) -> (r: Self) {
        ObjectId(value)
    }
}

impl FromSpecImpl<DatabaseId> for ObjectId {
    open spec fn obeys_from_spec() -> bool {
        true
    }

    open spec fn from_spec(value: DatabaseId) -> Self {
        ObjectId(value)
    }
}

/// The key of a repository.
#[derive(Clone, Copy, Debug, PartialEq, Eq, Hash, Structural)]
pub struct RepositoryId(pub DatabaseId);

impl RepositoryId {
    /// The raw key.
    pub fn value(&self) -> (r: DatabaseId)
        ensures
            r == self.0,
    {
        self.0
    }
}

impl DatabaseIdTrait for RepositoryId {
    open spec fn spec_is_valid(&self) -> bool {
        self.0 != 0
    }

    fn is_valid(&self) -> (r: bool) {
        self.0 != 0
    }
}

impl Default for RepositoryId {
    fn default() -> (r: Self)
        ensures
            r.0 == 0,
    {
        RepositoryId(0)
    }
}

impl From<DatabaseId> for RepositoryId {
    fn from(value: DatabaseId) -> (r: Self) {
        RepositoryId(value)
    }
}

impl FromSpecImpl<DatabaseId> for RepositoryId {
    open spec fn obeys_from_spec() -> bool {
        true
    }

    open spec fn from_spec(value: DatabaseId) -> Self {
        RepositoryId(value)
    }
}

/// The key of a user account.
#[derive(Clone, Copy, Debug, PartialEq, Eq, Hash, Structural)]
pub struct UserId(pub DatabaseId);

impl UserId {
    /// The raw key.
    pub fn value(&self) -> (r: DatabaseId)
        ensures
            r == self.0,
    {
        self.0
    }

    pub open spec fn value_spec(&self) -> DatabaseId {
        self.0
    }
}

impl DatabaseIdTrait for UserId {
    open spec fn spec_is_valid(&self) -> bool {
        self.0 != 0
    }

    fn is_valid(&self) -> (r: bool) {
        self.0 != 0
    }
}

impl Default for UserId {
    fn default() -> (r: Self)
        ensures
            r.0 == 0,
    {
        UserId(0)
    }
}

impl From<DatabaseId> for UserId {
    fn from(value: DatabaseId) -> (r: Self) {
        UserId(value)
    }
}

impl FromSpecImpl<DatabaseId> for UserId {
    open spec fn obeys_from_spec() -> bool {
        true
    }

    open spec fn from_spec(value: DatabaseId) -> Self {
        UserId(value)
    }
}

/// The key of a planning.
#[derive(Clone, Copy, Debug, PartialEq, Eq, Hash, Structural)]
pub struct PlanningId(pub DatabaseId);

impl PlanningId {
    /// The raw key.
    pub fn value(&self) -> (r: DatabaseId)
        ensures
            r == self.0,
    {
        self.0
    }
}

impl DatabaseIdTrait for PlanningId {
    open spec fn spec_is_valid(&self) -> bool {
        self.0 != 0
    }

    fn is_valid(&self) -> (r: bool) {
        self.0 != 0
    }
}

impl Default for PlanningId {
    fn default() -> (r: Self)
        ensures
            r.0 == 0,
    {
        PlanningId(0)
    }
}

impl From<DatabaseId> for PlanningId {
    fn from(value: DatabaseId) -> (r: Self) {
        PlanningId(value)
    }
}

impl FromSpecImpl<DatabaseId> for PlanningId {
    open spec fn obeys_from_spec() -> bool {
        true
    }

    open spec fn from_spec(value: DatabaseId) -> Self {
        PlanningId(value)
    }
}

/// The key of a participant of a planning.
#[derive(Clone, Copy, Debug, PartialEq, Eq, Hash, Structural)]
pub struct PlanningUserId(pub DatabaseId);

impl PlanningUserId {
    /// The raw key.
    pub fn value(&self) -> (r: DatabaseId)
        ensures
            r == self.0,
    {
        self.0
    }
}

impl DatabaseIdTrait for PlanningUserId {
    open spec fn spec_is_valid(&self) -> bool {
        self.0 != 0
    }

    fn is_valid(&self) -> (r: bool) {
        self.0 != 0
    }
}

impl Default for PlanningUserId {
    fn default() -> (r: Self)
        ensures
            r.0 == 0,
    {
        PlanningUserId(0)
    }
}

impl From<DatabaseId> for PlanningUserId {
    fn from(value: DatabaseId) -> (r: Self) {
        PlanningUserId(value)
    }
}

impl FromSpecImpl<DatabaseId> for PlanningUserId {
    open spec fn obeys_from_spec() -> bool {
        true
    }

    open spec fn from_spec(value: DatabaseId) -> Self {
        PlanningUserId(value)
    }
}

/// The key of a calendar.
#[derive(Clone, Copy, Debug, PartialEq, Eq, Hash, Structural)]
pub struct CalendarId(pub DatabaseId);

impl CalendarId {
    /// The raw key.
    pub fn value(&self) -> (r: DatabaseId)
        ensures
            r == self.0,
    {
        self.0
    }
}

impl DatabaseIdTrait for CalendarId {
    open spec fn spec_is_valid(&self) -> bool {
        self.0 != 0
    }

    fn is_valid(&self) -> (r: bool) {
        self.0 != 0
    }
}

impl Default for CalendarId {
    fn default() -> (r: Self)
        ensures
            r.0 == 0,
    {
        CalendarId(0)
    }
}

impl From<DatabaseId> for CalendarId {
    fn from(value: DatabaseId) -> (r: Self) {
        CalendarId(value)
    }
}

impl FromSpecImpl<DatabaseId> for CalendarId {
    open spec fn obeys_from_spec() -> bool {
        true
    }

    open spec fn from_spec(value: DatabaseId) -> Self {
        CalendarId(value)
    }
}

/// The key of a participant of a calendar.
#[derive(Clone, Copy, Debug, PartialEq, Eq, Hash, Structural)]
pub struct CalendarUserId(pub DatabaseId);

impl CalendarUserId {
    /// The raw key.
    pub fn value(&self) -> (r: DatabaseId)
        ensures
            r == self.0,
    {
        self.0
    }
}

impl DatabaseIdTrait for CalendarUserId {
    open spec fn spec_is_valid(&self) -> bool {
        self.0 != 0
    }

    fn is_valid(&self) -> (r: bool) {
        self.0 != 0
    }
}

impl Default for CalendarUserId {
    fn default() -> (r: Self)
        ensures
            r.0 == 0,
    {
        CalendarUserId(0)
    }
}

impl From<DatabaseId> for CalendarUserId {
    fn from(value: DatabaseId) -> (r: Self) {
        CalendarUserId(value)
    }
}

impl FromSpecImpl<DatabaseId> for CalendarUserId {
    open spec fn obeys_from_spec() -> bool {
        true
    }

    open spec fn from_spec(value: DatabaseId) -> Self {
        CalendarUserId(value)
    }
}

/// The key of a slot of a planning.
#[derive(Clone, Copy, Debug, PartialEq, Eq, Hash, Structural)]
pub struct SlotId(pub DatabaseId);

impl SlotId {
    /// The raw key.
    pub fn value(&self) -> (r: DatabaseId)
        ensures
            r == self.0,
    {
        self.0
    }
}

impl DatabaseIdTrait for SlotId {
    open spec fn spec_is_valid(&self) -> bool {
        self.0 != 0
    }

    fn is_valid(&self) -> (r: bool) {
        self.0 != 0
    }
}

impl Default for SlotId {
    fn default() -> (r: Self)
        ensures
            r.0 == 0,
    {
        SlotId(0)
    }
}

impl From<DatabaseId> for SlotId {
    fn from(value: DatabaseId) -> (r: Self) {
        SlotId(value)
    }
}

impl FromSpecImpl<DatabaseId> for SlotId {
    open spec fn obeys_from_spec() -> bool {
        true
    }

    open spec fn from_spec(value: DatabaseId) -> Self {
        SlotId(value)
    }
}

/// The key of an event of a calendar.
#[derive(Clone, Copy, Debug, PartialEq, Eq, Hash, Structural)]
pub struct EventId(pub DatabaseId);

impl EventId {
    /// The raw key.
    pub fn value(&self) -> (r: DatabaseId)
        ensures
            r == self.0,
    {
        self.0
    }
}

impl DatabaseIdTrait for EventId {
    open spec fn spec_is_valid(&self) -> bool {
        self.0 != 0
    }

    fn is_valid(&self) -> (r: bool) {
        self.0 != 0
    }
}

impl Default for EventId {
    fn default() -> (r: Self)
        ensures
            r.0 == 0,
    {
        EventId(0)
    }
}

impl From<DatabaseId> for EventId {
    fn from(value: DatabaseId) -> (r: Self) {
        EventId(value)
    }
}

impl FromSpecImpl<DatabaseId> for EventId {
    open spec fn obeys_from_spec() -> bool {
        true
    }

    open spec fn from_spec(value: DatabaseId) -> Self {
        EventId(value)
    }
}

/// The hash of a password, as it is stored.
#[derive(Debug)]
pub struct PasswordHash(String);

impl View for PasswordHash {
    type V = Seq<char>;

    closed spec fn view(&self) -> Seq<char> {
        self.0@
    }
}

/// What `bcrypt::verify` answers for a password and a stored hash: whether
/// the password is the one that was hashed, or nothing where the stored
/// text is no bcrypt hash.
pub uninterp spec fn bcrypt_verdict(password: Seq<char>, hash: Seq<char>) -> Option<bool>;

/// `bcrypt::hash` at the default cost. The salt is drawn at random, so the
/// text that comes back differs from call to call; whatever the salt, the
/// text names it with the cost, and `bcrypt::verify` reads both back and
/// answers that the password is the one that was hashed. The call fails
/// only where the system gives no random bytes.
#[verifier::external_body]
fn bcrypt_hash(password: &str) -> (r: Option<String>)
    ensures
        r is Some ==> bcrypt_verdict(password@, r->0@) == Some(true),
{
    match bcrypt::hash(password, bcrypt::DEFAULT_COST) {
        Ok(hash) => Some(hash),
        Err(_) => None,
    }
}

/// `bcrypt::verify`: hashes the password with the cost and the salt that
/// the stored hash names, and compares. It fails where the stored text
/// does not read as a bcrypt hash.
#[verifier::external_body]
fn bcrypt_verify(password: &str, hash: &str) -> (r: Option<bool>)
    ensures
        r == bcrypt_verdict(password@, hash@),
{
    match bcrypt::verify(password, hash) {
        Ok(same) => Some(same),
        Err(_) => None,
    }
}

impl PasswordHash {
    /// Hashes a password: the hash that comes back is one that the
    /// password verifies against. Fails with `Upstream` where no hash
    /// could be made.
    pub fn new(password_string: &EncString) -> (r: Result<Self, Error>)
        ensures
            match r {
                Ok(hash) => bcrypt_verdict(password_string@, hash@) == Some(true),
                Err(e) => e == Error::Upstream,
            },
    {
        Self::from_outcome(bcrypt_hash(password_string.encoded().as_str()))
    }

    /// The stored hash that the outcome of hashing stands for.
    pub fn from_outcome(outcome: Option<String>) -> (r: Result<Self, Error>)
        ensures
            match r {
                Ok(hash) => outcome is Some && hash@ == outcome->0@,
                Err(e) => e == Error::Upstream && outcome is None,
            },
    {
        match outcome {
            Some(hash) => Ok(PasswordHash(hash)),
            None => Err(Error::Upstream),
        }
    }

    /// Whether the password is the one that this hash was made of. Fails
    /// with `InvalidArgument` where this text is no hash.
    pub fn verify(&self, password: &EncString) -> (r: Result<bool, Error>)
        ensures
            r == Self::verdict_of(bcrypt_verdict(password@, self@)),
    {
        Self::verdict(bcrypt_verify(password.encoded().as_str(), self.0.as_str()))
    }

    /// What the outcome of a comparison means to the caller.
    pub open spec fn verdict_of(outcome: Option<bool>) -> Result<bool, Error> {
        match outcome {
            Some(same) => Ok(same),
            None => Err(Error::InvalidArgument),
        }
    }

    pub fn verdict(outcome: Option<bool>) -> (r: Result<bool, Error>)
        ensures
            r == Self::verdict_of(outcome),
    {
        match outcome {
            Some(same) => Ok(same),
            None => Err(Error::InvalidArgument),
        }
    }

    /// The stored text.
    pub fn as_str(&self) -> (r: &str)
        ensures
            r@ == self@,
    {
        self.0.as_str()
    }

    /// The hash that a stored text holds.
    pub fn from_stored(text: String) -> (r: Self)
        ensures
            r@ == text@,
    {
        PasswordHash(text)
    }
}

impl Clone for PasswordHash {
    fn clone(&self) -> (r: Self)
        ensures
            r@ == self@,
    {
        PasswordHash(self.0.clone())
    }
}

impl Default for PasswordHash {
    fn default() -> (r: Self)
        ensures
            r@ == Seq::<char>::empty(),
    {
        PasswordHash(String::new())
    }
}

} // verus!
