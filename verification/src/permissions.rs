use crate::database::Database;
use crate::database::item::{DbItem, Trash};
use crate::database::model::{ItemQueryView, select_all};
use crate::database::repository::{
    DbRepository, is_subscribed, repositories_taken, RepositoryQueryView,
};
use crate::database::subscription::{Subscription, SubscriptionAccessType};
use crate::error::Error;
use crate::types::database_ids::{ItemId, PlanningId, RepositoryId, UserId};
use crate::types::item::ItemView;
use crate::types::repository::{Repository, RepositoryStatus, RepositoryView};
use vstd::prelude::*;

verus! {

/// The answer of the permission gate.
#[derive(Clone, Copy, Debug, PartialEq, Eq, Structural)]
pub enum PermissionResult {
    Granted,
    Denied,
}

impl PermissionResult {
    /// Turns a denial into the failure `PermissionDenied`.
    pub fn require(&self) -> (r: Result<(), Error>)
        ensures
            match r {
                Ok(_) => *self == PermissionResult::Granted,
                Err(e) => e == Error::PermissionDenied && *self == PermissionResult::Denied,
            },
    {
        match self {
            PermissionResult::Denied => Err(Error::PermissionDenied),
            _ => Ok(()),
        }
    }

    pub fn granted(&self) -> (r: bool)
        ensures
            r == (*self == PermissionResult::Granted),
    {
        match self {
            PermissionResult::Granted => true,
            _ => false,
        }
    }

    /// The answer that stands for a decision.
    pub open spec fn of(allowed: bool) -> PermissionResult {
        if allowed {
            PermissionResult::Granted
        } else {
            PermissionResult::Denied
        }
    }

    pub fn from_bool(allowed: bool) -> (r: Self)
        ensures
            r == Self::of(allowed),
    {
        if allowed {
            PermissionResult::Granted
        } else {
            PermissionResult::Denied
        }
    }
}

/// The user holds a subscription of the given tier to the repository.
pub open spec fn has_tier(
    subscriptions: Seq<Subscription>,
    user: UserId,
    repository: RepositoryId,
    tier: SubscriptionAccessType,
) -> bool {
    exists|i: int|
        0 <= i < subscriptions.len() && (#[trigger] subscriptions[i]).owner == user
            && subscriptions[i].repository == repository && subscriptions[i].access_type == tier
}

/// The caller is the user who owns what `owner` owns.
pub open spec fn is_owner(caller: Option<UserId>, owner: UserId) -> bool {
    caller == Some(owner)
}

/// The caller may read the repository: it is public or hidden, or the
/// caller owns it or holds any subscription to it.
pub open spec fn may_view(
    repository: RepositoryView,
    caller: Option<UserId>,
    subscriptions: Seq<Subscription>,
) -> bool {
    ||| repository.status != RepositoryStatus::Private
    ||| is_owner(caller, repository.owner)
    ||| (caller is Some && is_subscribed(subscriptions, caller->0, repository.id))
}

/// The caller may change the repository: the caller may read it, and owns
/// it or holds a moderator subscription to it.
pub open spec fn may_edit(
    repository: RepositoryView,
    caller: Option<UserId>,
    subscriptions: Seq<Subscription>,
) -> bool {
    &&& may_view(repository, caller, subscriptions)
    &&& {
        ||| is_owner(caller, repository.owner)
        ||| (caller is Some && has_tier(
            subscriptions,
            caller->0,
            repository.id,
            SubscriptionAccessType::Moderator,
        ))
    }
}

/// The caller may add files to the repository: the caller may read it, and
/// owns it, or it takes uploads from visitors, or the caller holds a
/// contributor or a moderator subscription to it.
pub open spec fn may_upload(
    repository: RepositoryView,
    caller: Option<UserId>,
    subscriptions: Seq<Subscription>,
) -> bool {
    &&& may_view(repository, caller, subscriptions)
    &&& {
        ||| is_owner(caller, repository.owner)
        ||| repository.allow_visitor_upload
        ||| (caller is Some && has_tier(
            subscriptions,
            caller->0,
            repository.id,
            SubscriptionAccessType::Contributor,
        ))
        ||| (caller is Some && has_tier(
            subscriptions,
            caller->0,
            repository.id,
            SubscriptionAccessType::Moderator,
        ))
    }
}

/// The caller may change the item: the caller may change its repository,
/// or owns the item.
pub open spec fn may_edit_item(
    item: ItemView,
    repository: RepositoryView,
    caller: Option<UserId>,
    subscriptions: Seq<Subscription>,
) -> bool {
    may_edit(repository, caller, subscriptions) || is_owner(caller, item.owner)
}

/// A private repository is closed to a caller who is not signed in.
pub proof fn lemma_private_denies_anonymous(
    repository: RepositoryView,
    subscriptions: Seq<Subscription>,
)
    requires
        repository.status == RepositoryStatus::Private,
    ensures
        !may_view(repository, None, subscriptions),
        !may_edit(repository, None, subscriptions),
        !may_upload(repository, None, subscriptions),
{
}

/// The owner may read, change and add to the repository, whatever its
/// status and whatever subscriptions there are.
pub proof fn lemma_owner_is_granted(repository: RepositoryView, subscriptions: Seq<Subscription>)
    ensures
        may_view(repository, Some(repository.owner), subscriptions),
        may_edit(repository, Some(repository.owner), subscriptions),
        may_upload(repository, Some(repository.owner), subscriptions),
{
}

/// A user who does not own the repository and whose only subscription to
/// it is read-only may read it and may not change it.
pub proof fn lemma_read_only_subscriber(
    repository: RepositoryView,
    user: UserId,
    subscriptions: Seq<Subscription>,
)
    requires
        user != repository.owner,
        has_tier(subscriptions, user, repository.id, SubscriptionAccessType::ReadOnly),
        !has_tier(subscriptions, user, repository.id, SubscriptionAccessType::Moderator),
    ensures
        may_view(repository, Some(user), subscriptions),
        !may_edit(repository, Some(user), subscriptions),
{
    let i = choose|i: int|
        0 <= i < subscriptions.len() && (#[trigger] subscriptions[i]).owner == user
            && subscriptions[i].repository == repository.id && subscriptions[i].access_type
            == SubscriptionAccessType::ReadOnly;
    assert(subscriptions[i].owner == user && subscriptions[i].repository == repository.id);
}

/// The capabilities lie one inside the other: who may change a repository
/// may add to it, and who may add to it may read it.
pub proof fn lemma_capabilities_nest(
    repository: RepositoryView,
    caller: Option<UserId>,
    subscriptions: Seq<Subscription>,
)
    ensures
        may_edit(repository, caller, subscriptions) ==> may_upload(
            repository,
            caller,
            subscriptions,
        ),
        may_upload(repository, caller, subscriptions) ==> may_view(
            repository,
            caller,
            subscriptions,
        ),
{
}

/// One more subscription takes no capability away: there is no grant that
/// denies.
pub proof fn lemma_grants_only_add(
    repository: RepositoryView,
    caller: Option<UserId>,
    subscriptions: Seq<Subscription>,
    more: Subscription,
)
    ensures
        may_view(repository, caller, subscriptions) ==> may_view(
            repository,
            caller,
            subscriptions.push(more),
        ),
        may_edit(repository, caller, subscriptions) ==> may_edit(
            repository,
            caller,
            subscriptions.push(more),
        ),
        may_upload(repository, caller, subscriptions) ==> may_upload(
            repository,
            caller,
            subscriptions.push(more),
        ),
{
    let longer = subscriptions.push(more);
    if caller is Some {
        let user = caller->0;
        if is_subscribed(subscriptions, user, repository.id) {
            let i = choose|i: int|
                0 <= i < subscriptions.len() && (#[trigger] subscriptions[i]).owner == user
                    && subscriptions[i].repository == repository.id;
            assert(longer[i] == subscriptions[i]);
        }
        if has_tier(subscriptions, user, repository.id, SubscriptionAccessType::Moderator) {
            let i = choose|i: int|
                0 <= i < subscriptions.len() && (#[trigger] subscriptions[i]).owner == user
                    && subscriptions[i].repository == repository.id
                    && subscriptions[i].access_type == SubscriptionAccessType::Moderator;
            assert(longer[i] == subscriptions[i]);
        }
        if has_tier(subscriptions, user, repository.id, SubscriptionAccessType::Contributor) {
            let i = choose|i: int|
                0 <= i < subscriptions.len() && (#[trigger] subscriptions[i]).owner == user
                    && subscriptions[i].repository == repository.id
                    && subscriptions[i].access_type == SubscriptionAccessType::Contributor;
            assert(longer[i] == subscriptions[i]);
        }
    }
}

/// The capabilities of one caller, made once for a request.
#[derive(Clone, Copy, Debug)]
pub struct Permissions {
    connected_user: Option<UserId>,
}

impl Permissions {
    /// The user on whose behalf the request is made, if one is signed in.
    pub closed spec fn caller(&self) -> Option<UserId> {
        self.connected_user
    }

    /// The capabilities of the given user, or of a caller who is not signed
    /// in.
    pub fn new(connected_user: Option<UserId>) -> (r: Self)
        ensures
            r.caller() == connected_user,
    {
        Permissions { connected_user }
    }

    pub fn connected_user(&self) -> (r: Option<UserId>)
        ensures
            r == self.caller(),
    {
        self.connected_user
    }

    /// Whether the caller may read the repository.
    pub fn can_view(&self, db: &Database, repository: &Repository) -> (r: bool)
        ensures
            r == may_view(repository@, self.caller(), db@.subscriptions),
    {
        match repository.status() {
            RepositoryStatus::Private => match self.connected_user {
                Some(user) => user == repository.owner() || db.holds_subscription(
                    user,
                    *repository.id(),
                ),
                None => false,
            },
            _ => true,
        }
    }

    /// Whether the caller may change the repository.
    pub fn can_edit(&self, db: &Database, repository: &Repository) -> (r: bool)
        ensures
            r == may_edit(repository@, self.caller(), db@.subscriptions),
    {
        if !self.can_view(db, repository) {
            return false;
        }
        match self.connected_user {
            Some(user) => user == repository.owner() || db.holds_tier(
                user,
                *repository.id(),
                SubscriptionAccessType::Moderator,
            ),
            None => false,
        }
    }

    /// Whether the caller may add files to the repository.
    pub fn can_upload(&self, db: &Database, repository: &Repository) -> (r: bool)
        ensures
            r == may_upload(repository@, self.caller(), db@.subscriptions),
    {
        if !self.can_view(db, repository) {
            return false;
        }
        if repository.allow_visitor_upload() {
            return true;
        }
        match self.connected_user {
            Some(user) => user == repository.owner() || db.holds_tier(
                user,
                *repository.id(),
                SubscriptionAccessType::Contributor,
            ) || db.holds_tier(user, *repository.id(), SubscriptionAccessType::Moderator),
            None => false,
        }
    }

    /// Whether the caller may read the repository with the given key.
    /// Fails with `NotFound` where there is no such repository.
    pub fn view_repository(&self, db: &Database, repository_id: &RepositoryId) -> (r: Result<
        PermissionResult,
        Error,
    >)
        ensures
            ({
                let rows = repositories_taken(
                    db@.repositories,
                    db@.subscriptions,
                    RepositoryQueryView::Id(*repository_id),
                );
                match r {
                    Ok(answer) => rows.len() == 1 && answer == PermissionResult::of(
                        may_view(rows[0], self.caller(), db@.subscriptions),
                    ),
                    Err(e) => (e == Error::NotFound && rows.len() == 0) || (e
                        == Error::Inconsistent && rows.len() > 1),
                }
            }),
    {
        match DbRepository::from_id(db, repository_id) {
            Ok(repository) => Ok(PermissionResult::from_bool(self.can_view(db, &repository))),
            Err(e) => Err(e),
        }
    }

    /// Whether the caller may change the repository with the given key.
    /// Fails with `NotFound` where there is no such repository.
    pub fn edit_repository(&self, db: &Database, repository_id: &RepositoryId) -> (r: Result<
        PermissionResult,
        Error,
    >)
        ensures
            ({
                let rows = repositories_taken(
                    db@.repositories,
                    db@.subscriptions,
                    RepositoryQueryView::Id(*repository_id),
                );
                match r {
                    Ok(answer) => rows.len() == 1 && answer == PermissionResult::of(
                        may_edit(rows[0], self.caller(), db@.subscriptions),
                    ),
                    Err(e) => (e == Error::NotFound && rows.len() == 0) || (e
                        == Error::Inconsistent && rows.len() > 1),
                }
            }),
    {
        match DbRepository::from_id(db, repository_id) {
            Ok(repository) => Ok(PermissionResult::from_bool(self.can_edit(db, &repository))),
            Err(e) => Err(e),
        }
    }

    /// Whether the caller may add files to the repository with the given
    /// key. Fails with `NotFound` where there is no such repository.
    pub fn upload_to_repository(&self, db: &Database, repository_id: &RepositoryId) -> (r: Result<
        PermissionResult,
        Error,
    >)
        ensures
            ({
                let rows = repositories_taken(
                    db@.repositories,
                    db@.subscriptions,
                    RepositoryQueryView::Id(*repository_id),
                );
                match r {
                    Ok(answer) => rows.len() == 1 && answer == PermissionResult::of(
                        may_upload(rows[0], self.caller(), db@.subscriptions),
                    ),
                    Err(e) => (e == Error::NotFound && rows.len() == 0) || (e
                        == Error::Inconsistent && rows.len() > 1),
                }
            }),
    {
        match DbRepository::from_id(db, repository_id) {
            Ok(repository) => Ok(PermissionResult::from_bool(self.can_upload(db, &repository))),
            Err(e) => Err(e),
        }
    }

    /// Whether the caller may read the item with the given key: whether the
    /// caller may read its repository. Fails with `NotFound` where there is
    /// no such item, or no repository for it.
    pub fn view_item(&self, db: &Database, item_id: &ItemId) -> (r: Result<
        PermissionResult,
        Error,
    >)
        ensures
            ({
                let items = select_all(db@.items, ItemQueryView::Id(*item_id), Trash::Both);
                if items.len() == 1 {
                    let rows = repositories_taken(
                        db@.repositories,
                        db@.subscriptions,
                        RepositoryQueryView::Id(items[0].repository),
                    );
                    match r {
                        Ok(answer) => rows.len() == 1 && answer == PermissionResult::of(
                            may_view(rows[0], self.caller(), db@.subscriptions),
                        ),
                        Err(e) => (e == Error::NotFound && rows.len() == 0) || (e
                            == Error::Inconsistent && rows.len() > 1),
                    }
                } else {
                    r is Err && ((r->Err_0 == Error::NotFound && items.len() == 0) || (r->Err_0
                        == Error::Inconsistent && items.len() > 1))
                }
            }),
    {
        match DbItem::from_id(db, item_id, Trash::Both) {
            Ok(item) => self.view_repository(db, &item.repository()),
            Err(e) => Err(e),
        }
    }

    /// Whether the caller may change the item with the given key: whether
    /// the caller may change its repository, or owns the item. Fails with
    /// `NotFound` where there is no such item, or no repository for it.
    pub fn edit_item(&self, db: &Database, item_id: &ItemId) -> (r: Result<
        PermissionResult,
        Error,
    >)
        ensures
            ({
                let items = select_all(db@.items, ItemQueryView::Id(*item_id), Trash::Both);
                if items.len() == 1 {
                    let rows = repositories_taken(
                        db@.repositories,
                        db@.subscriptions,
                        RepositoryQueryView::Id(items[0].repository),
                    );
                    match r {
                        Ok(answer) => rows.len() == 1 && answer == PermissionResult::of(
                            may_edit_item(items[0], rows[0], self.caller(), db@.subscriptions),
                        ),
                        Err(e) => (e == Error::NotFound && rows.len() == 0) || (e
                            == Error::Inconsistent && rows.len() > 1),
                    }
                } else {
                    r is Err && ((r->Err_0 == Error::NotFound && items.len() == 0) || (r->Err_0
                        == Error::Inconsistent && items.len() > 1))
                }
            }),
    {
        match DbItem::from_id(db, item_id, Trash::Both) {
            Ok(item) => match DbRepository::from_id(db, &item.repository()) {
                Ok(repository) => {
                    let owns = match self.connected_user {
                        Some(user) => user == item.owner(),
                        None => false,
                    };
                    Ok(PermissionResult::from_bool(self.can_edit(db, &repository) || owns))
                },
                Err(e) => Err(e),
            },
            Err(e) => Err(e),
        }
    }

    /// Whether the caller may read the planning with the given key. No
    /// caller may.
    pub fn view_planning(&self, db: &Database, repository_id: &PlanningId) -> (r: Result<
        PermissionResult,
        Error,
    >)
        ensures
            r == Ok::<PermissionResult, Error>(PermissionResult::Denied),
    {
        Ok(PermissionResult::Denied)
    }
}

} // verus!
