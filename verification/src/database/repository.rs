use crate::database::{Database, item_views, repository_key, repository_views};
use crate::database::item::{DbItem, Trash};
use crate::database::model::{ItemQueryView, items_after_delete, objects_after_delete, select_all};
use crate::database::object::ObjectView;
use crate::database::stats::{rank_contributors, rank_extensions, RepositoryStats, stats_of};
use crate::database::subscription::{
    Subscription, SubscriptionAccessType, SubscriptionQuery, subscriptions_elsewhere,
};
use crate::database::table::{kept, kept_row, lemma_kept_distinct, lemma_kept_member};
use crate::error::Error;
use crate::permissions::has_tier;
use crate::types::database_ids::{DatabaseIdTrait, ItemId, RepositoryId, UserId};
use crate::types::enc_string::{EncString, transliterated};
use crate::types::percent::{decoded_text, encoded_text};
use crate::types::item::ItemView;
use crate::types::repository::{Repository, RepositoryStatus, RepositoryView};
use crate::types::text::{eq_ignore_case, lowered, slug};
use vstd::prelude::*;

verus! {

/// What a read or a removal of repositories asks for.
pub enum RepositoryQuery<'a> {
    /// The repository with a key.
    Id(RepositoryId),
    /// The repositories that a user owns.
    Owner(UserId),
    /// The repository with a URL name, whatever the case of its letters.
    UrlName(&'a EncString),
    /// The repositories to which a user holds a subscription.
    SharedWith(UserId),
    /// The repositories that everyone may read.
    Public,
    /// All repositories but the one with a key.
    OtherThan(RepositoryId),
}

/// The mathematical value of a [`RepositoryQuery`].
pub ghost enum RepositoryQueryView {
    Id(RepositoryId),
    Owner(UserId),
    UrlName(Seq<char>),
    SharedWith(UserId),
    Public,
    OtherThan(RepositoryId),
}

impl<'a> View for RepositoryQuery<'a> {
    type V = RepositoryQueryView;

    open spec fn view(&self) -> RepositoryQueryView {
        match self {
            RepositoryQuery::Id(id) => RepositoryQueryView::Id(*id),
            RepositoryQuery::Owner(owner) => RepositoryQueryView::Owner(*owner),
            RepositoryQuery::UrlName(name) => RepositoryQueryView::UrlName(name@),
            RepositoryQuery::SharedWith(user) => RepositoryQueryView::SharedWith(*user),
            RepositoryQuery::Public => RepositoryQueryView::Public,
            RepositoryQuery::OtherThan(id) => RepositoryQueryView::OtherThan(*id),
        }
    }
}

/// The user holds a subscription to the repository.
pub open spec fn is_subscribed(
    subscriptions: Seq<Subscription>,
    user: UserId,
    repository: RepositoryId,
) -> bool {
    exists|i: int|
        0 <= i < subscriptions.len() && (#[trigger] subscriptions[i]).owner == user
            && subscriptions[i].repository == repository
}

/// True where the query takes the repository.
pub open spec fn repository_taken(
    subscriptions: Seq<Subscription>,
    query: RepositoryQueryView,
    row: RepositoryView,
) -> bool {
    match query {
        RepositoryQueryView::Id(id) => row.id == id,
        RepositoryQueryView::Owner(owner) => row.owner == owner,
        RepositoryQueryView::UrlName(name) => lowered(row.url_name) == lowered(name),
        RepositoryQueryView::SharedWith(user) => is_subscribed(subscriptions, user, row.id),
        RepositoryQueryView::Public => row.status == RepositoryStatus::Public,
        RepositoryQueryView::OtherThan(id) => row.id != id,
    }
}

/// For each repository, whether the query takes it.
pub open spec fn repository_flags(
    repositories: Seq<RepositoryView>,
    subscriptions: Seq<Subscription>,
    query: RepositoryQueryView,
) -> Seq<bool> {
    Seq::new(
        repositories.len(),
        |i: int| repository_taken(subscriptions, query, repositories[i]),
    )
}

/// The repositories that the query takes, in the order of the table.
pub open spec fn repositories_taken(
    repositories: Seq<RepositoryView>,
    subscriptions: Seq<Subscription>,
    query: RepositoryQueryView,
) -> Seq<RepositoryView> {
    kept(
        repositories,
        repository_flags(repositories, subscriptions, query),
        repositories.len() as int,
    )
}

/// The URL name that a repository gets from the name that it is shown
/// under: the slug of the transliteration of the plain name, encoded.
/// There is none where the name does not decode.
pub open spec fn url_name_for(name: Seq<char>) -> Option<Seq<char>> {
    match decoded_text(name) {
        Some(plain) => Some(encoded_text(slug(transliterated(plain)))),
        None => None,
    }
}

/// Some repository has the key.
pub open spec fn has_repository(repositories: Seq<RepositoryView>, id: RepositoryId) -> bool {
    exists|i: int| 0 <= i < repositories.len() && (#[trigger] repositories[i]).id == id
}

/// The table after the row has been written under its key: the row takes
/// the place of the row that had the key, or comes last where no row had it.
pub open spec fn repository_upserted(
    repositories: Seq<RepositoryView>,
    row: RepositoryView,
) -> Seq<RepositoryView> {
    if has_repository(repositories, row.id) {
        Seq::new(
            repositories.len(),
            |i: int|
                if repositories[i].id == row.id {
                    row
                } else {
                    repositories[i]
                },
        )
    } else {
        repositories.push(row)
    }
}

/// The keys of the given items.
pub open spec fn keys_of(items: Seq<ItemView>) -> Seq<ItemId> {
    items.map_values(|row: ItemView| row.id)
}

/// The item table after the subtrees of the first `n` of the given items
/// have been deleted one after the other.
pub open spec fn items_after_deletes(items: Seq<ItemView>, roots: Seq<ItemId>, n: int) -> Seq<
    ItemView,
>
    decreases n,
{
    if n <= 0 {
        items
    } else {
        items_after_delete(items_after_deletes(items, roots, n - 1), roots[n - 1])
    }
}

/// The object table after the subtrees of the first `n` of the given items
/// have been deleted one after the other.
pub open spec fn objects_after_deletes(
    items: Seq<ItemView>,
    objects: Seq<ObjectView>,
    roots: Seq<ItemId>,
    n: int,
) -> Seq<ObjectView>
    decreases n,
{
    if n <= 0 {
        objects
    } else {
        objects_after_delete(
            items_after_deletes(items, roots, n - 1),
            objects_after_deletes(items, objects, roots, n - 1),
            roots[n - 1],
        )
    }
}

impl Database {
    /// The place in the table of the repository with the key `id`.
    pub(crate) fn find_repository(&self, id: RepositoryId) -> (r: Option<usize>)
        ensures
            match r {
                Some(k) => k < self@.repositories.len() && self@.repositories[k as int].id == id,
                None => !has_repository(self@.repositories, id),
            },
    {
        proof {
            self.lemma_view();
        }
        let n = self.repositories.len();
        let mut i: usize = 0;
        while i < n
            invariant
                i <= n,
                n == self.repositories@.len(),
                self@.repositories == repository_views(self.repositories@),
                forall|j: int| 0 <= j < i ==> (#[trigger] self@.repositories[j]).id != id,
            decreases n - i,
        {
            if *self.repositories[i].id() == id {
                return Some(i);
            }
            i = i + 1;
        }
        None
    }

    /// Whether the user holds a subscription to the repository.
    pub(crate) fn holds_subscription(&self, user: UserId, repository: RepositoryId) -> (r: bool)
        ensures
            r == is_subscribed(self@.subscriptions, user, repository),
    {
        proof {
            self.lemma_view();
        }
        let n = self.subscriptions.len();
        let mut i: usize = 0;
        while i < n
            invariant
                i <= n,
                n == self.subscriptions@.len(),
                self@.subscriptions == self.subscriptions@,
                forall|j: int|
                    0 <= j < i ==> !((#[trigger] self@.subscriptions[j]).owner == user
                        && self@.subscriptions[j].repository == repository),
            decreases n - i,
        {
            if self.subscriptions[i].owner == user && self.subscriptions[i].repository
                == repository {
                return true;
            }
            i = i + 1;
        }
        false
    }

    /// Whether the user holds a subscription of the given tier to the
    /// repository.
    pub(crate) fn holds_tier(
        &self,
        user: UserId,
        repository: RepositoryId,
        tier: SubscriptionAccessType,
    ) -> (r: bool)
        ensures
            r == has_tier(self@.subscriptions, user, repository, tier),
    {
        proof {
            self.lemma_view();
        }
        let n = self.subscriptions.len();
        let mut i: usize = 0;
        while i < n
            invariant
                i <= n,
                n == self.subscriptions@.len(),
                self@.subscriptions == self.subscriptions@,
                forall|j: int|
                    0 <= j < i ==> !((#[trigger] self@.subscriptions[j]).owner == user
                        && self@.subscriptions[j].repository == repository
                        && self@.subscriptions[j].access_type == tier),
            decreases n - i,
        {
            if self.subscriptions[i].owner == user && self.subscriptions[i].repository
                == repository && self.subscriptions[i].access_type == tier {
                return true;
            }
            i = i + 1;
        }
        false
    }

    /// True where the query takes the repository.
    pub(crate) fn takes_repository(&self, query: &RepositoryQuery, row: &Repository) -> (r: bool)
        ensures
            r == repository_taken(self@.subscriptions, query@, row@),
    {
        match query {
            RepositoryQuery::Id(id) => *row.id() == *id,
            RepositoryQuery::Owner(owner) => row.owner() == *owner,
            RepositoryQuery::UrlName(name) => eq_ignore_case(
                row.url_name().encoded().as_str(),
                name.encoded().as_str(),
            ),
            RepositoryQuery::SharedWith(user) => self.holds_subscription(*user, *row.id()),
            RepositoryQuery::Public => match row.status() {
                RepositoryStatus::Public => true,
                _ => false,
            },
            RepositoryQuery::OtherThan(id) => *row.id() != *id,
        }
    }

    /// The repositories that the query takes, in the order of the table.
    pub fn select_repositories(&self, query: &RepositoryQuery) -> (r: Vec<Repository>)
        ensures
            repository_views(r@) == repositories_taken(
                self@.repositories,
                self@.subscriptions,
                query@,
            ),
    {
        proof {
            self.lemma_view();
        }
        let ghost rows = self@.repositories;
        let ghost flags = repository_flags(rows, self@.subscriptions, query@);
        let n = self.repositories.len();
        let mut out: Vec<Repository> = Vec::new();
        let mut i: usize = 0;
        proof {
            assert(repository_views(out@) =~= Seq::<RepositoryView>::empty());
        }
        while i < n
            invariant
                i <= n,
                n == self.repositories@.len(),
                rows == self@.repositories,
                rows == repository_views(self.repositories@),
                flags == repository_flags(rows, self@.subscriptions, query@),
                repository_views(out@) == kept(rows, flags, i as int),
            decreases n - i,
        {
            if self.takes_repository(query, &self.repositories[i]) {
                let row = self.repositories[i].clone();
                proof {
                    assert(repository_views(out@.push(row)) =~= repository_views(out@).push(
                        row@,
                    ));
                }
                out.push(row);
            }
            i = i + 1;
        }
        out
    }
}

/// The one repository of a read that must be unique.
pub fn single_repository(mut rows: Vec<Repository>) -> (r: Result<Repository, Error>)
    ensures
        match r {
            Ok(row) => rows@.len() == 1 && row@ == rows@[0]@,
            Err(e) => (e == Error::NotFound && rows@.len() == 0) || (e == Error::Inconsistent
                && rows@.len() > 1),
        },
{
    if rows.len() > 1 {
        return Err(Error::Inconsistent);
    }
    match rows.pop() {
        Some(row) => Ok(row),
        None => Err(Error::NotFound),
    }
}

/// The reads and writes of the repository table.
pub struct DbRepository;

impl DbRepository {
    /// The repository with the key `id`. Fails with `NotFound` where there
    /// is none.
    pub fn from_id(db: &Database, id: &RepositoryId) -> (r: Result<Repository, Error>)
        ensures
            ({
                let rows = repositories_taken(
                    db@.repositories,
                    db@.subscriptions,
                    RepositoryQueryView::Id(*id),
                );
                match r {
                    Ok(row) => rows.len() == 1 && row@ == rows[0],
                    Err(e) => (e == Error::NotFound && rows.len() == 0) || (e
                        == Error::Inconsistent && rows.len() > 1),
                }
            }),
    {
        let rows = db.select_repositories(&RepositoryQuery::Id(*id));
        proof {
            if rows@.len() > 0 {
                assert(repository_views(rows@)[0] == rows@[0]@);
            }
        }
        single_repository(rows)
    }

    /// The repositories that a user owns.
    pub fn from_user(db: &Database, user: &UserId) -> (r: Result<Vec<Repository>, Error>)
        ensures
            r is Ok,
            repository_views(r->Ok_0@) == repositories_taken(
                db@.repositories,
                db@.subscriptions,
                RepositoryQueryView::Owner(*user),
            ),
    {
        Ok(db.select_repositories(&RepositoryQuery::Owner(*user)))
    }

    /// The repositories to which a user holds a subscription.
    pub fn shared_with(db: &Database, user: &UserId) -> (r: Result<Vec<Repository>, Error>)
        ensures
            r is Ok,
            repository_views(r->Ok_0@) == repositories_taken(
                db@.repositories,
                db@.subscriptions,
                RepositoryQueryView::SharedWith(*user),
            ),
    {
        Ok(db.select_repositories(&RepositoryQuery::SharedWith(*user)))
    }

    /// The repository with the URL name `name`, whatever the case of its
    /// letters. Fails with `NotFound` where there is none, with
    /// `Inconsistent` where there are several.
    pub fn from_url_name(db: &Database, name: &EncString) -> (r: Result<Repository, Error>)
        ensures
            ({
                let rows = repositories_taken(
                    db@.repositories,
                    db@.subscriptions,
                    RepositoryQueryView::UrlName(name@),
                );
                match r {
                    Ok(row) => rows.len() == 1 && row@ == rows[0],
                    Err(e) => (e == Error::NotFound && rows.len() == 0) || (e
                        == Error::Inconsistent && rows.len() > 1),
                }
            }),
    {
        let rows = db.select_repositories(&RepositoryQuery::UrlName(name));
        proof {
            if rows@.len() > 0 {
                assert(repository_views(rows@)[0] == rows@[0]@);
            }
        }
        single_repository(rows)
    }

    /// The repositories that everyone may read.
    pub fn public(db: &Database) -> (r: Result<Vec<Repository>, Error>)
        ensures
            r is Ok,
            repository_views(r->Ok_0@) == repositories_taken(
                db@.repositories,
                db@.subscriptions,
                RepositoryQueryView::Public,
            ),
    {
        Ok(db.select_repositories(&RepositoryQuery::Public))
    }

    /// Creates a repository for an owner. Its URL name is made of the name
    /// that it is shown under; no two repositories that are created have
    /// the same URL name, whatever the case of its letters. Fails with
    /// `InvalidArgument` where the name gives no URL name or one that is
    /// taken, and with `Upstream` where the store has no key left to give;
    /// nothing changes then.
    pub fn create(
        db: &mut Database,
        name: &EncString,
        owner: UserId,
        status: RepositoryStatus,
    ) -> (r: Result<Repository, Error>)
        requires
            old(db).inv(),
        ensures
            final(db).inv(),
            final(db)@.schema_name == old(db)@.schema_name,
            final(db)@.items == old(db)@.items,
            final(db)@.objects == old(db)@.objects,
            final(db)@.subscriptions == old(db)@.subscriptions,
            ({
                let url_name = url_name_for(name@);
                let free = url_name is Some && url_name->0.len() > 0 && repositories_taken(
                    old(db)@.repositories,
                    old(db)@.subscriptions,
                    RepositoryQueryView::UrlName(url_name->0),
                ).len() == 0;
                match r {
                    Ok(repository) => {
                        &&& free
                        &&& old(db).has_repository_key()
                        &&& repository@ == (RepositoryView {
                            id: old(db).next_repository_key(),
                            url_name: url_name->0,
                            owner,
                            description: None,
                            status,
                            display_name: name@,
                            max_file_size: None,
                            visitor_file_lifetime: None,
                            allow_visitor_upload: false,
                        })
                        &&& repository@.id.spec_is_valid()
                        &&& final(db)@.repositories == old(db)@.repositories.push(repository@)
                    },
                    Err(e) => {
                        &&& final(db)@ == old(db)@
                        &&& if free {
                            e == Error::Upstream && !old(db).has_repository_key()
                        } else {
                            e == Error::InvalidArgument
                        }
                    },
                }
            }),
    {
        let url_name = match name.url_formated() {
            Ok(url_name) => url_name,
            Err(_) => {
                return Err(Error::InvalidArgument);
            },
        };
        if url_name.is_empty() {
            return Err(Error::InvalidArgument);
        }
        let same = db.select_repositories(&RepositoryQuery::UrlName(&url_name));
        if same.len() > 0 {
            proof {
                assert(repository_views(same@).len() == same@.len());
            }
            return Err(Error::InvalidArgument);
        }
        proof {
            assert(repository_views(same@).len() == same@.len());
        }
        let mut repository = Repository::new(url_name, name.clone(), owner, status);
        match Self::push(&mut repository, db) {
            Ok(_) => Ok(repository),
            Err(e) => Err(e),
        }
    }

    /// Writes the repository to the store. A repository without a key is
    /// inserted and gets the next key of the store. A repository with a key
    /// takes the place of the row with that key; where there is no such row
    /// it is inserted under its key. Fails with `InvalidArgument` where the
    /// URL name is empty, and with `Upstream` where the store has no key
    /// left to give; nothing changes then.
    pub fn push(repository: &mut Repository, db: &mut Database) -> (r: Result<(), Error>)
        requires
            old(db).inv(),
        ensures
            final(db).inv(),
            final(db)@.schema_name == old(db)@.schema_name,
            final(db)@.items == old(db)@.items,
            final(db)@.objects == old(db)@.objects,
            final(db)@.subscriptions == old(db)@.subscriptions,
            match r {
                Ok(_) => {
                    &&& old(repository)@.url_name.len() > 0
                    &&& if old(repository)@.id.spec_is_valid() {
                        &&& final(repository)@ == old(repository)@
                        &&& final(db)@.repositories == repository_upserted(
                            old(db)@.repositories,
                            old(repository)@,
                        )
                    } else {
                        let key = old(db).next_repository_key();
                        &&& old(db).has_repository_key()
                        &&& key.spec_is_valid()
                        &&& !has_repository(old(db)@.repositories, key)
                        &&& final(repository)@ == (RepositoryView { id: key, ..old(repository)@ })
                        &&& final(db)@.repositories == old(db)@.repositories.push(
                            final(repository)@,
                        )
                    }
                },
                Err(e) => {
                    &&& final(db)@ == old(db)@
                    &&& final(repository)@ == old(repository)@
                    &&& if old(repository)@.url_name.len() == 0 {
                        e == Error::InvalidArgument
                    } else {
                        e == Error::Upstream && !old(repository)@.id.spec_is_valid() && !old(
                            db,
                        ).has_repository_key()
                    }
                },
            },
    {
        proof {
            db.lemma_view();
            db.lemma_keys();
        }
        let ghost start = *db;
        let ghost before = db@.repositories;
        if repository.url_name().is_empty() {
            return Err(Error::InvalidArgument);
        }
        let id = *repository.id();
        if id.is_valid() {
            match db.find_repository(id) {
                Some(k) => {
                    let row = repository.clone();
                    proof {
                        assert forall|i: int| 0 <= i < before.len() && i != k implies (
                        #[trigger] before[i]).id != id by {
                            if i < k {
                                assert(repository_key()(before[i]) != repository_key()(
                                    before[k as int],
                                ));
                            } else {
                                assert(repository_key()(before[k as int]) != repository_key()(
                                    before[i],
                                ));
                            }
                        }
                        assert(repository_views(db.repositories@.update(k as int, row))
                            =~= repository_upserted(before, repository@));
                    }
                    db.repositories.set(k, row);
                    proof {
                        db.lemma_view();
                        db.lemma_keys();
                        start.lemma_keys();
                        let after = db@.repositories;
                        assert forall|a: int, b: int|
                            0 <= a < b < after.len() implies repository_key()(
                            #[trigger] after[a],
                        ) != repository_key()(#[trigger] after[b]) by {
                            assert(repository_key()(before[a]) != repository_key()(before[b]));
                        }
                        assert forall|i: int| 0 <= i < after.len() implies (
                        #[trigger] after[i]).id.0 != 0 && after[i].url_name.len() > 0 && (
                        db.has_repository_key() ==> after[i].id.0 < db.next_repository_key().0) by {
                            assert(before[i].id.0 != 0);
                        }
                    }
                },
                None => {
                    let row = repository.clone();
                    proof {
                        assert(repository_views(db.repositories@.push(row)) =~= before.push(
                            row@,
                        ));
                    }
                    if id.0 >= db.next_repository {
                        db.next_repository = if id.0 == i64::MAX {
                            i64::MAX
                        } else {
                            id.0 + 1
                        };
                    }
                    db.repositories.push(row);
                    proof {
                        db.lemma_view();
                        db.lemma_keys();
                        start.lemma_keys();
                        let after = db@.repositories;
                        assert forall|a: int, b: int|
                            0 <= a < b < after.len() implies repository_key()(
                            #[trigger] after[a],
                        ) != repository_key()(#[trigger] after[b]) by {
                            if b < before.len() {
                                assert(repository_key()(before[a]) != repository_key()(
                                    before[b],
                                ));
                            } else {
                                assert(before[a].id != id);
                            }
                        }
                        assert forall|i: int| 0 <= i < after.len() implies (
                        #[trigger] after[i]).id.0 != 0 && after[i].url_name.len() > 0 && (
                        db.has_repository_key() ==> after[i].id.0 < db.next_repository_key().0) by {
                            if i < before.len() {
                                assert(before[i].id.0 != 0);
                            }
                        }
                    }
                },
            }
            Ok(())
        } else {
            if db.next_repository == i64::MAX {
                return Err(Error::Upstream);
            }
            let key = RepositoryId(db.next_repository);
            let row = repository.stored_as(key);
            proof {
                assert(repository_views(db.repositories@.push(row)) =~= before.push(row@));
                assert forall|i: int| 0 <= i < before.len() implies (#[trigger] before[i]).id
                    != key by {
                    assert(before[i].id.0 < key.0);
                }
            }
            db.next_repository = db.next_repository + 1;
            db.repositories.push(row);
            let set = repository.set_id(key);
            proof {
                db.lemma_view();
                db.lemma_keys();
                start.lemma_keys();
                let after = db@.repositories;
                assert forall|a: int, b: int| 0 <= a < b < after.len() implies repository_key()(
                    #[trigger] after[a],
                ) != repository_key()(#[trigger] after[b]) by {
                    if b < before.len() {
                        assert(repository_key()(before[a]) != repository_key()(before[b]));
                    } else {
                        assert(before[a].id.0 < key.0);
                    }
                }
                assert forall|i: int| 0 <= i < after.len() implies (#[trigger] after[i]).id.0
                    != 0 && after[i].url_name.len() > 0 && (db.has_repository_key()
                    ==> after[i].id.0 < db.next_repository_key().0) by {
                    if i < before.len() {
                        assert(before[i].id.0 != 0);
                        assert(before[i].id.0 < key.0);
                    }
                }
            }
            Ok(())
        }
    }

    /// The figures of the repository: how many files and directories it
    /// holds in and out of the trash, how large the files are, how many
    /// items each user owns and how many files have each media type. A
    /// repository without items has figures of zero.
    pub fn stats(repository: &Repository, db: &Database) -> (r: Result<RepositoryStats, Error>)
        ensures
            r is Ok,
            r->Ok_0@ == stats_of(db@.items, repository@.id),
    {
        let id = *repository.id();
        Ok(
            RepositoryStats {
                trash_items: db.count_items(id, true, true),
                trash_directories: db.count_items(id, true, false),
                trash_size: db.sum_file_sizes(id, true),
                items: db.count_items(id, false, true),
                directories: db.count_items(id, false, false),
                size: db.sum_file_sizes(id, false),
                contributors: rank_contributors(db.tally_owners(id)),
                extensions: rank_extensions(db.tally_mimetypes(id)),
            },
        )
    }

    /// Deletes the repository with all that belongs to it: first each of
    /// its items with its subtree, in the order of the table, then the
    /// subscriptions to it, then the repository itself.
    pub fn delete(repository: &Repository, db: &mut Database) -> (r: Result<(), Error>)
        requires
            old(db).inv(),
        ensures
            r is Ok,
            final(db).inv(),
            final(db)@.schema_name == old(db)@.schema_name,
            ({
                let roots = keys_of(
                    select_all(
                        old(db)@.items,
                        ItemQueryView::Repository(repository@.id),
                        Trash::Both,
                    ),
                );
                &&& final(db)@.items == items_after_deletes(
                    old(db)@.items,
                    roots,
                    roots.len() as int,
                )
                &&& final(db)@.objects == objects_after_deletes(
                    old(db)@.items,
                    old(db)@.objects,
                    roots,
                    roots.len() as int,
                )
            }),
            final(db)@.subscriptions == subscriptions_elsewhere(
                old(db)@.subscriptions,
                repository@.id,
            ),
            final(db)@.repositories == repositories_taken(
                old(db)@.repositories,
                old(db)@.subscriptions,
                RepositoryQueryView::OtherThan(repository@.id),
            ),
    {
        let id = *repository.id();
        let ghost start = db@;
        let listed = match DbItem::from_repository(db, &id, Trash::Both) {
            Ok(rows) => rows,
            Err(_) => Vec::new(),
        };
        let ghost roots = keys_of(item_views(listed@));
        let n = listed.len();
        let mut i: usize = 0;
        while i < n
            invariant
                i <= n,
                n == listed@.len(),
                roots == keys_of(item_views(listed@)),
                db.inv(),
                db@.schema_name == start.schema_name,
                db@.repositories == start.repositories,
                db@.subscriptions == start.subscriptions,
                db@.items == items_after_deletes(start.items, roots, i as int),
                db@.objects == objects_after_deletes(start.items, start.objects, roots, i as int),
            decreases n - i,
        {
            proof {
                assert(roots[i as int] == listed@[i as int]@.id);
            }
            let done = DbItem::delete(&listed[i], db);
            i = i + 1;
        }
        db.retain_subscriptions(SubscriptionQuery::OtherGrant(id));
        proof {
            assert(repository_flags(
                start.repositories,
                db@.subscriptions,
                RepositoryQueryView::OtherThan(id),
            ) =~= repository_flags(
                start.repositories,
                start.subscriptions,
                RepositoryQueryView::OtherThan(id),
            ));
        }
        db.remove_repository(id);
        Ok(())
    }
}

impl Database {
    /// Takes the repository with the key `id` out of its table.
    pub(crate) fn remove_repository(&mut self, id: RepositoryId)
        requires
            old(self).inv(),
        ensures
            final(self).inv(),
            final(self)@.schema_name == old(self)@.schema_name,
            final(self)@.items == old(self)@.items,
            final(self)@.objects == old(self)@.objects,
            final(self)@.subscriptions == old(self)@.subscriptions,
            final(self)@.repositories == repositories_taken(
                old(self)@.repositories,
                old(self)@.subscriptions,
                RepositoryQueryView::OtherThan(id),
            ),
    {
        let ghost start = *self;
        let ghost before = self@.repositories;
        let ghost flags = repository_flags(
            before,
            self@.subscriptions,
            RepositoryQueryView::OtherThan(id),
        );
        let rest = self.select_repositories(&RepositoryQuery::OtherThan(id));
        proof {
            self.lemma_view();
            self.lemma_keys();
            lemma_kept_distinct(before, flags, before.len() as int, repository_key());
            lemma_kept_member(before, flags, before.len() as int);
            let after = repository_views(rest@);
            assert forall|j: int| 0 <= j < after.len() implies (#[trigger] after[j]).id.0 != 0
                && after[j].url_name.len() > 0 && (self.has_repository_key() ==> after[j].id.0
                < self.next_repository_key().0) by {
                assert(kept_row(before, flags, before.len() as int, after[j]));
                let k = choose|k: int|
                    0 <= k < before.len() && #[trigger] flags[k] && before[k] == after[j];
                assert(before[k].id.0 != 0);
            }
        }
        self.repositories = rest;
        proof {
            self.lemma_view();
            self.lemma_keys();
            start.lemma_view();
            start.lemma_keys();
        }
    }
}

} // verus!
