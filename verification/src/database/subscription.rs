use crate::database::{Database, subscription_key};
use crate::database::table::{kept, lemma_kept_distinct, lemma_kept_holds};
use crate::error::Error;
use crate::types::database_ids::{RepositoryId, UserId};
use crate::types::text::text_eq;
use vstd::prelude::*;
use vstd::std_specs::convert::FromSpecImpl;

verus! {

/// The tier of a grant of access below ownership.
#[derive(Clone, Copy, Debug, PartialEq, Eq, PartialOrd, Structural)]
pub enum SubscriptionAccessType {
    ReadOnly,
    Contributor,
    Moderator,
}

impl SubscriptionAccessType {
    /// The name under which the tier is stored.
    pub open spec fn spec_name(&self) -> Seq<char> {
        match self {
            SubscriptionAccessType::ReadOnly => "read-only"@,
            SubscriptionAccessType::Contributor => "contributor"@,
            SubscriptionAccessType::Moderator => "moderator"@,
        }
    }

    /// The tier that a stored name stands for; `ReadOnly` for any name that
    /// is not one of the three.
    pub open spec fn of_name(name: Seq<char>) -> SubscriptionAccessType {
        if name == "contributor"@ {
            SubscriptionAccessType::Contributor
        } else if name == "moderator"@ {
            SubscriptionAccessType::Moderator
        } else {
            SubscriptionAccessType::ReadOnly
        }
    }

    pub fn name(&self) -> (r: &'static str)
        ensures
            r@ == self.spec_name(),
    {
        match self {
            SubscriptionAccessType::ReadOnly => "read-only",
            SubscriptionAccessType::Contributor => "contributor",
            SubscriptionAccessType::Moderator => "moderator",
        }
    }

    /// The tier that a stored name stands for.
    pub fn from_name(name: &str) -> (r: Self)
        ensures
            r == Self::of_name(name@),
    {
        if text_eq(name, "contributor") {
            SubscriptionAccessType::Contributor
        } else if text_eq(name, "moderator") {
            SubscriptionAccessType::Moderator
        } else {
            SubscriptionAccessType::ReadOnly
        }
    }

    /// Reading the stored name of a tier gives the tier back.
    pub proof fn lemma_name_round_trip(self)
        ensures
            Self::of_name(self.spec_name()) == self,
    {
        reveal_strlit("read-only");
        reveal_strlit("contributor");
        reveal_strlit("moderator");
        assert("read-only"@[0] == 'r');
        assert("contributor"@[0] == 'c');
        assert("moderator"@[0] == 'm');
    }
}

impl Default for SubscriptionAccessType {
    fn default() -> (r: Self)
        ensures
            r == SubscriptionAccessType::ReadOnly,
    {
        SubscriptionAccessType::ReadOnly
    }
}

impl From<String> for SubscriptionAccessType {
    fn from(value: String) -> (r: Self) {
        Self::from_name(value.as_str())
    }
}

impl FromSpecImpl<String> for SubscriptionAccessType {
    open spec fn obeys_from_spec() -> bool {
        true
    }

    open spec fn from_spec(value: String) -> Self {
        Self::of_name(value@)
    }
}

/// A grant of access to a repository, held by a user who does not own it.
#[derive(Clone, Copy, Debug, PartialEq, Eq, Structural)]
pub struct Subscription {
    pub owner: UserId,
    pub repository: RepositoryId,
    pub access_type: SubscriptionAccessType,
}

impl Default for Subscription {
    fn default() -> (r: Self)
        ensures
            r == (Subscription {
                owner: UserId(0),
                repository: RepositoryId(0),
                access_type: SubscriptionAccessType::ReadOnly,
            }),
    {
        Subscription {
            owner: UserId(0),
            repository: RepositoryId(0),
            access_type: SubscriptionAccessType::ReadOnly,
        }
    }
}

/// For each subscription, whether a user holds it.
pub open spec fn holder_flags(subscriptions: Seq<Subscription>, user: UserId) -> Seq<bool> {
    Seq::new(subscriptions.len(), |i: int| subscriptions[i].owner == user)
}

/// For each subscription, whether it grants access to a repository.
pub open spec fn grant_flags(subscriptions: Seq<Subscription>, repository: RepositoryId) -> Seq<
    bool,
> {
    Seq::new(subscriptions.len(), |i: int| subscriptions[i].repository == repository)
}

/// For each subscription, whether it is the grant of a repository to a user.
pub open spec fn pair_flags(
    subscriptions: Seq<Subscription>,
    user: UserId,
    repository: RepositoryId,
) -> Seq<bool> {
    Seq::new(
        subscriptions.len(),
        |i: int| subscriptions[i].owner == user && subscriptions[i].repository == repository,
    )
}

/// For each subscription, whether it is not the grant of a repository to a
/// user.
pub open spec fn other_pair_flags(
    subscriptions: Seq<Subscription>,
    user: UserId,
    repository: RepositoryId,
) -> Seq<bool> {
    Seq::new(
        subscriptions.len(),
        |i: int| !(subscriptions[i].owner == user && subscriptions[i].repository == repository),
    )
}

/// For each subscription, whether it grants access to another repository.
pub open spec fn other_grant_flags(
    subscriptions: Seq<Subscription>,
    repository: RepositoryId,
) -> Seq<bool> {
    Seq::new(subscriptions.len(), |i: int| subscriptions[i].repository != repository)
}

/// The subscriptions that a user holds.
pub open spec fn subscriptions_of(subscriptions: Seq<Subscription>, user: UserId) -> Seq<
    Subscription,
> {
    kept(subscriptions, holder_flags(subscriptions, user), subscriptions.len() as int)
}

/// The subscriptions to a repository.
pub open spec fn subscriptions_to(subscriptions: Seq<Subscription>, repository: RepositoryId) -> Seq<
    Subscription,
> {
    kept(subscriptions, grant_flags(subscriptions, repository), subscriptions.len() as int)
}

/// The subscriptions of a user to a repository.
pub open spec fn subscriptions_between(
    subscriptions: Seq<Subscription>,
    user: UserId,
    repository: RepositoryId,
) -> Seq<Subscription> {
    kept(subscriptions, pair_flags(subscriptions, user, repository), subscriptions.len() as int)
}

/// The table without the subscriptions of a user to a repository.
pub open spec fn subscriptions_without(
    subscriptions: Seq<Subscription>,
    user: UserId,
    repository: RepositoryId,
) -> Seq<Subscription> {
    kept(
        subscriptions,
        other_pair_flags(subscriptions, user, repository),
        subscriptions.len() as int,
    )
}

/// The table without the subscriptions to a repository.
pub open spec fn subscriptions_elsewhere(
    subscriptions: Seq<Subscription>,
    repository: RepositoryId,
) -> Seq<Subscription> {
    kept(subscriptions, other_grant_flags(subscriptions, repository), subscriptions.len() as int)
}

/// What a read or a removal of subscriptions asks for.
#[derive(Clone, Copy, Debug)]
pub enum SubscriptionQuery {
    /// The subscriptions that a user holds.
    Holder(UserId),
    /// The subscriptions to a repository.
    Grant(RepositoryId),
    /// The subscriptions of a user to a repository.
    Pair(UserId, RepositoryId),
    /// All but the subscriptions of a user to a repository.
    OtherPair(UserId, RepositoryId),
    /// All but the subscriptions to a repository.
    OtherGrant(RepositoryId),
}

impl SubscriptionQuery {
    /// For each subscription, whether the query takes it.
    pub open spec fn flags(&self, subscriptions: Seq<Subscription>) -> Seq<bool> {
        match self {
            SubscriptionQuery::Holder(user) => holder_flags(subscriptions, *user),
            SubscriptionQuery::Grant(repository) => grant_flags(subscriptions, *repository),
            SubscriptionQuery::Pair(user, repository) => pair_flags(
                subscriptions,
                *user,
                *repository,
            ),
            SubscriptionQuery::OtherPair(user, repository) => other_pair_flags(
                subscriptions,
                *user,
                *repository,
            ),
            SubscriptionQuery::OtherGrant(repository) => other_grant_flags(
                subscriptions,
                *repository,
            ),
        }
    }

    pub fn takes(&self, row: &Subscription) -> (r: bool)
        ensures
            r == match self {
                SubscriptionQuery::Holder(user) => row.owner == *user,
                SubscriptionQuery::Grant(repository) => row.repository == *repository,
                SubscriptionQuery::Pair(user, repository) => row.owner == *user && row.repository
                    == *repository,
                SubscriptionQuery::OtherPair(user, repository) => !(row.owner == *user
                    && row.repository == *repository),
                SubscriptionQuery::OtherGrant(repository) => row.repository != *repository,
            },
    {
        match self {
            SubscriptionQuery::Holder(user) => row.owner == *user,
            SubscriptionQuery::Grant(repository) => row.repository == *repository,
            SubscriptionQuery::Pair(user, repository) => row.owner == *user && row.repository
                == *repository,
            SubscriptionQuery::OtherPair(user, repository) => !(row.owner == *user
                && row.repository == *repository),
            SubscriptionQuery::OtherGrant(repository) => row.repository != *repository,
        }
    }
}

impl Database {
    /// The subscriptions that the query takes, in the order of the table.
    pub fn select_subscriptions(&self, query: SubscriptionQuery) -> (r: Vec<Subscription>)
        ensures
            r@ == kept(
                self@.subscriptions,
                query.flags(self@.subscriptions),
                self@.subscriptions.len() as int,
            ),
    {
        proof {
            self.lemma_view();
        }
        let ghost rows = self@.subscriptions;
        let ghost flags = query.flags(rows);
        let n = self.subscriptions.len();
        let mut out: Vec<Subscription> = Vec::new();
        let mut i: usize = 0;
        while i < n
            invariant
                i <= n,
                n == self.subscriptions@.len(),
                rows == self.subscriptions@,
                flags == query.flags(rows),
                flags.len() == n,
                out@ == kept(rows, flags, i as int),
            decreases n - i,
        {
            let row = self.subscriptions[i];
            if query.takes(&row) {
                out.push(row);
            }
            i = i + 1;
        }
        out
    }

    /// Leaves in the table the subscriptions that the query takes.
    pub(crate) fn retain_subscriptions(&mut self, query: SubscriptionQuery)
        requires
            old(self).inv(),
        ensures
            final(self).inv(),
            final(self)@.schema_name == old(self)@.schema_name,
            final(self)@.repositories == old(self)@.repositories,
            final(self)@.items == old(self)@.items,
            final(self)@.objects == old(self)@.objects,
            final(self)@.subscriptions == kept(
                old(self)@.subscriptions,
                query.flags(old(self)@.subscriptions),
                old(self)@.subscriptions.len() as int,
            ),
    {
        let ghost start = *self;
        let rest = self.select_subscriptions(query);
        proof {
            self.lemma_view();
            self.lemma_keys();
            lemma_kept_distinct(
                self@.subscriptions,
                query.flags(self@.subscriptions),
                self@.subscriptions.len() as int,
                subscription_key(),
            );
        }
        self.subscriptions = rest;
        proof {
            self.lemma_view();
            self.lemma_keys();
            start.lemma_view();
        }
    }
}

/// The one subscription of a read that must be unique.
pub fn single_subscription(rows: Vec<Subscription>) -> (r: Result<Subscription, Error>)
    ensures
        match r {
            Ok(row) => rows@.len() == 1 && row == rows@[0],
            Err(e) => (e == Error::NotFound && rows@.len() == 0) || (e == Error::Inconsistent
                && rows@.len() > 1),
        },
{
    if rows.len() > 1 {
        Err(Error::Inconsistent)
    } else if rows.len() == 1 {
        Ok(rows[0])
    } else {
        Err(Error::NotFound)
    }
}

impl Subscription {
    /// The subscription of a user to a repository. Fails with `NotFound`
    /// where the user holds none.
    pub fn find(db: &Database, id: &UserId, repository: &RepositoryId) -> (r: Result<Self, Error>)
        ensures
            ({
                let rows = subscriptions_between(db@.subscriptions, *id, *repository);
                match r {
                    Ok(row) => rows.len() == 1 && row == rows[0],
                    Err(e) => (e == Error::NotFound && rows.len() == 0) || (e
                        == Error::Inconsistent && rows.len() > 1),
                }
            }),
    {
        single_subscription(db.select_subscriptions(SubscriptionQuery::Pair(*id, *repository)))
    }

    /// The subscriptions that a user holds.
    pub fn from_user(db: &Database, id: &UserId) -> (r: Result<Vec<Self>, Error>)
        ensures
            r is Ok,
            r->Ok_0@ == subscriptions_of(db@.subscriptions, *id),
    {
        Ok(db.select_subscriptions(SubscriptionQuery::Holder(*id)))
    }

    /// The subscriptions to a repository.
    pub fn from_repository(db: &Database, repository: &RepositoryId) -> (r: Result<
        Vec<Self>,
        Error,
    >)
        ensures
            r is Ok,
            r->Ok_0@ == subscriptions_to(db@.subscriptions, *repository),
    {
        Ok(db.select_subscriptions(SubscriptionQuery::Grant(*repository)))
    }

    /// Records the subscription. Fails with `Upstream` where its user
    /// already holds one to its repository; nothing changes then.
    pub fn push(&mut self, db: &mut Database) -> (r: Result<(), Error>)
        requires
            old(db).inv(),
        ensures
            final(db).inv(),
            *final(self) == *old(self),
            final(db)@.schema_name == old(db)@.schema_name,
            final(db)@.repositories == old(db)@.repositories,
            final(db)@.items == old(db)@.items,
            final(db)@.objects == old(db)@.objects,
            ({
                let held = subscriptions_between(
                    old(db)@.subscriptions,
                    old(self).owner,
                    old(self).repository,
                );
                match r {
                    Ok(_) => held.len() == 0 && final(db)@.subscriptions == old(
                        db,
                    )@.subscriptions.push(*old(self)),
                    Err(e) => e == Error::Upstream && held.len() > 0 && final(db)@ == old(db)@,
                }
            }),
    {
        let ghost start = *db;
        let held = db.select_subscriptions(SubscriptionQuery::Pair(self.owner, self.repository));
        if held.len() > 0 {
            return Err(Error::Upstream);
        }
        let ghost before = db@.subscriptions;
        proof {
            db.lemma_view();
            db.lemma_keys();
            assert forall|i: int| 0 <= i < before.len() implies subscription_key()(
                #[trigger] before[i],
            ) != (self.owner, self.repository) by {
                let flags = pair_flags(before, self.owner, self.repository);
                if flags[i] {
                    lemma_kept_holds(before, flags, before.len() as int, i);
                }
            }
        }
        db.subscriptions.push(*self);
        proof {
            db.lemma_view();
            db.lemma_keys();
            start.lemma_keys();
            assert forall|a: int, b: int|
                0 <= a < b < db@.subscriptions.len() implies subscription_key()(
                #[trigger] db@.subscriptions[a],
            ) != subscription_key()(#[trigger] db@.subscriptions[b]) by {
                if b < before.len() {
                    assert(subscription_key()(before[a]) != subscription_key()(before[b]));
                } else {
                    assert(subscription_key()(before[a]) != (self.owner, self.repository));
                }
            }
        }
        Ok(())
    }

    /// Takes back the subscription of its user to its repository. Taking
    /// back what is not held changes nothing.
    pub fn delete(&self, db: &mut Database) -> (r: Result<(), Error>)
        requires
            old(db).inv(),
        ensures
            r is Ok,
            final(db).inv(),
            final(db)@.schema_name == old(db)@.schema_name,
            final(db)@.repositories == old(db)@.repositories,
            final(db)@.items == old(db)@.items,
            final(db)@.objects == old(db)@.objects,
            final(db)@.subscriptions == subscriptions_without(
                old(db)@.subscriptions,
                self.owner,
                self.repository,
            ),
    {
        db.retain_subscriptions(SubscriptionQuery::OtherPair(self.owner, self.repository));
        Ok(())
    }
}

} // verus!
