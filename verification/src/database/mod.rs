use crate::database::object::{Object, object_views, ObjectView};
use crate::database::subscription::Subscription;
use crate::database::table::{
    all_different, are_all_assigned, are_all_different, distinct_by, key_above,
};
use crate::error::Error;
use crate::types::database_ids::{ItemId, ObjectId, RepositoryId, UserId};
use crate::types::item::{Item, ItemView};
use crate::types::repository::{Repository, RepositoryView};
use crate::types::text::{replace_text, replaced};
use vstd::prelude::*;

pub mod item;
pub mod laws;
pub mod migrations;
pub mod model;
pub mod object;
pub mod repository;
pub mod stats;
pub mod subscription;
pub mod sync;
pub mod table;

verus! {

/// The row store of the engine: one table for each kind of entity, each
/// row under the key that the store gave it.
pub struct Database {
    pub(crate) schema_name: String,
    pub(crate) repositories: Vec<Repository>,
    pub(crate) items: Vec<Item>,
    pub(crate) objects: Vec<Object>,
    pub(crate) subscriptions: Vec<Subscription>,
    pub(crate) next_repository: i64,
    pub(crate) next_item: i64,
    pub(crate) next_object: i64,
}

/// The mathematical value of a [`Database`]: its tables, as sequences of
/// rows in the order in which they were inserted.
pub ghost struct DatabaseView {
    pub schema_name: Seq<char>,
    pub repositories: Seq<RepositoryView>,
    pub items: Seq<ItemView>,
    pub objects: Seq<ObjectView>,
    pub subscriptions: Seq<Subscription>,
}

pub open spec fn item_views(items: Seq<Item>) -> Seq<ItemView> {
    items.map_values(|i: Item| i@)
}

pub open spec fn repository_views(repositories: Seq<Repository>) -> Seq<RepositoryView> {
    repositories.map_values(|r: Repository| r@)
}

pub open spec fn item_key() -> spec_fn(ItemView) -> ItemId {
    |row: ItemView| row.id
}

pub open spec fn object_key() -> spec_fn(ObjectView) -> ObjectId {
    |row: ObjectView| row.id
}

pub open spec fn repository_key() -> spec_fn(RepositoryView) -> RepositoryId {
    |row: RepositoryView| row.id
}

pub open spec fn subscription_key() -> spec_fn(Subscription) -> (UserId, RepositoryId) {
    |row: Subscription| (row.owner, row.repository)
}

/// Each item has an assigned key that no other item has, and is a file or
/// a directory and not both.
pub open spec fn items_well_formed(items: Seq<ItemView>) -> bool {
    &&& forall|i: int|
        0 <= i < items.len() ==> (#[trigger] items[i]).id.0 != 0 && items[i].has_one_kind()
    &&& distinct_by(items, item_key())
}

/// Each object has an assigned key that no other object has.
pub open spec fn objects_well_formed(objects: Seq<ObjectView>) -> bool {
    &&& forall|i: int| 0 <= i < objects.len() ==> (#[trigger] objects[i]).id.0 != 0
    &&& distinct_by(objects, object_key())
}

/// Each repository has an assigned key that no other repository has, and a
/// URL name that is not empty.
pub open spec fn repositories_well_formed(repositories: Seq<RepositoryView>) -> bool {
    &&& forall|i: int|
        0 <= i < repositories.len() ==> (#[trigger] repositories[i]).id.0 != 0
            && repositories[i].url_name.len() > 0
    &&& distinct_by(repositories, repository_key())
}

/// No user holds two subscriptions to one repository.
pub open spec fn subscriptions_well_formed(subscriptions: Seq<Subscription>) -> bool {
    distinct_by(subscriptions, subscription_key())
}

/// None of the keys is the zero key.
pub open spec fn are_all_assigned_spec(keys: Seq<i64>) -> bool {
    forall|i: int| 0 <= i < keys.len() ==> keys[i] != 0
}

impl DatabaseView {
    /// What holds of every store.
    pub open spec fn well_formed(&self) -> bool {
        &&& items_well_formed(self.items)
        &&& objects_well_formed(self.objects)
        &&& repositories_well_formed(self.repositories)
        &&& subscriptions_well_formed(self.subscriptions)
    }
}

impl View for Database {
    type V = DatabaseView;

    closed spec fn view(&self) -> DatabaseView {
        DatabaseView {
            schema_name: self.schema_name@,
            repositories: repository_views(self.repositories@),
            items: item_views(self.items@),
            objects: object_views(self.objects@),
            subscriptions: self.subscriptions@,
        }
    }
}

impl Database {
    /// What holds of every store that this library hands out: its tables
    /// are well formed, and the keys of its rows lie below the keys that it
    /// will give next, as long as it has keys left to give.
    pub open spec fn inv(&self) -> bool {
        &&& self@.well_formed()
        &&& self.has_item_key() ==> forall|i: int|
            0 <= i < self@.items.len() ==> (#[trigger] self@.items[i]).id.0
                < self.next_item_key().0
        &&& self.has_object_key() ==> forall|i: int|
            0 <= i < self@.objects.len() ==> (#[trigger] self@.objects[i]).id.0
                < self.next_object_key().0
        &&& self.has_repository_key() ==> forall|i: int|
            0 <= i < self@.repositories.len() ==> (#[trigger] self@.repositories[i]).id.0
                < self.next_repository_key().0
        &&& self.next_item_key().0 >= 1
        &&& self.next_object_key().0 >= 1
        &&& self.next_repository_key().0 >= 1
    }

    /// The key that the next item to be inserted gets.
    pub closed spec fn next_item_key(&self) -> ItemId {
        ItemId(self.next_item)
    }

    /// True where the store can still give an item a key.
    pub closed spec fn has_item_key(&self) -> bool {
        self.next_item < i64::MAX
    }

    /// The key that the next object to be inserted gets.
    pub closed spec fn next_object_key(&self) -> ObjectId {
        ObjectId(self.next_object)
    }

    /// True where the store can still give an object a key.
    pub closed spec fn has_object_key(&self) -> bool {
        self.next_object < i64::MAX
    }

    /// The key that the next repository to be inserted gets.
    pub closed spec fn next_repository_key(&self) -> RepositoryId {
        RepositoryId(self.next_repository)
    }

    /// True where the store can still give a repository a key.
    pub closed spec fn has_repository_key(&self) -> bool {
        self.next_repository < i64::MAX
    }

    /// What the counters are made of.
    pub(crate) proof fn lemma_keys(&self)
        ensures
            self.next_item_key() == ItemId(self.next_item),
            self.has_item_key() == (self.next_item < i64::MAX),
            self.next_object_key() == ObjectId(self.next_object),
            self.has_object_key() == (self.next_object < i64::MAX),
            self.next_repository_key() == RepositoryId(self.next_repository),
            self.has_repository_key() == (self.next_repository < i64::MAX),
    {
    }

    /// What the view is made of.
    pub(crate) proof fn lemma_view(&self)
        ensures
            self@.schema_name == self.schema_name@,
            self@.repositories == repository_views(self.repositories@),
            self@.items == item_views(self.items@),
            self@.objects == object_views(self.objects@),
            self@.subscriptions == self.subscriptions@,
    {
    }

    /// An empty store under the given schema name.
    pub fn new(schema_name: String) -> (r: Self)
        ensures
            r@.schema_name == schema_name@,
            r@.repositories.len() == 0,
            r@.items.len() == 0,
            r@.objects.len() == 0,
            r@.subscriptions.len() == 0,
            r.inv(),
            r.has_item_key() && r.next_item_key() == ItemId(1),
            r.has_object_key() && r.next_object_key() == ObjectId(1),
            r.has_repository_key() && r.next_repository_key() == RepositoryId(1),
    {
        Database {
            schema_name,
            repositories: Vec::new(),
            items: Vec::new(),
            objects: Vec::new(),
            subscriptions: Vec::new(),
            next_repository: 1,
            next_item: 1,
            next_object: 1,
        }
    }

    /// The store that holds the given tables. Fails with `Inconsistent`
    /// where the tables are not well formed.
    pub fn from_tables(
        schema_name: String,
        repositories: Vec<Repository>,
        items: Vec<Item>,
        objects: Vec<Object>,
        subscriptions: Vec<Subscription>,
    ) -> (r: Result<Self, Error>)
        ensures
            ({
                let tables = DatabaseView {
                    schema_name: schema_name@,
                    repositories: repository_views(repositories@),
                    items: item_views(items@),
                    objects: object_views(objects@),
                    subscriptions: subscriptions@,
                };
                match r {
                    Ok(db) => db@ == tables && db.inv(),
                    Err(e) => e == Error::Inconsistent && !tables.well_formed(),
                }
            }),
    {
        let ghost item_rows = item_views(items@);
        let ghost object_rows = object_views(objects@);
        let ghost repository_rows = repository_views(repositories@);
        let mut item_keys: Vec<i64> = Vec::new();
        let mut i: usize = 0;
        while i < items.len()
            invariant
                i <= items@.len(),
                item_rows == item_views(items@),
                item_keys@.len() == i,
                forall|k: int| 0 <= k < i ==> item_keys@[k] == (#[trigger] item_rows[k]).id.0,
                forall|k: int| 0 <= k < i ==> (#[trigger] item_rows[k]).has_one_kind(),
            decreases items@.len() - i,
        {
            let item = &items[i];
            if item.file().is_some() == item.directory().is_some() {
                proof {
                    assert(!item_rows[i as int].has_one_kind());
                }
                return Err(Error::Inconsistent);
            }
            item_keys.push(item.id().0);
            i = i + 1;
        }
        let mut object_keys: Vec<i64> = Vec::new();
        let mut i: usize = 0;
        while i < objects.len()
            invariant
                i <= objects@.len(),
                object_rows == object_views(objects@),
                object_keys@.len() == i,
                forall|k: int| 0 <= k < i ==> object_keys@[k] == (#[trigger] object_rows[k]).id.0,
            decreases objects@.len() - i,
        {
            object_keys.push(objects[i].id().0);
            i = i + 1;
        }
        let mut repository_keys: Vec<i64> = Vec::new();
        let mut i: usize = 0;
        while i < repositories.len()
            invariant
                i <= repositories@.len(),
                repository_rows == repository_views(repositories@),
                repository_keys@.len() == i,
                forall|k: int|
                    0 <= k < i ==> repository_keys@[k] == (#[trigger] repository_rows[k]).id.0,
                forall|k: int| 0 <= k < i ==> (#[trigger] repository_rows[k]).url_name.len() > 0,
            decreases repositories@.len() - i,
        {
            if repositories[i].url_name().is_empty() {
                proof {
                    assert(repository_rows[i as int].url_name.len() == 0);
                }
                return Err(Error::Inconsistent);
            }
            repository_keys.push(repositories[i].id().0);
            i = i + 1;
        }
        let mut j: usize = 0;
        while j < subscriptions.len()
            invariant
                j <= subscriptions@.len(),
                forall|a: int, b: int|
                    0 <= a < b < j ==> subscription_key()(#[trigger] subscriptions@[a])
                        != subscription_key()(#[trigger] subscriptions@[b]),
            decreases subscriptions@.len() - j,
        {
            let mut i: usize = 0;
            while i < j
                invariant
                    i <= j,
                    j < subscriptions@.len(),
                    forall|a: int|
                        0 <= a < i ==> subscription_key()(#[trigger] subscriptions@[a])
                            != subscription_key()(subscriptions@[j as int]),
                decreases j - i,
            {
                if subscriptions[i].owner == subscriptions[j].owner && subscriptions[i].repository
                    == subscriptions[j].repository {
                    proof {
                        assert(subscription_key()(subscriptions@[i as int]) == subscription_key()(
                            subscriptions@[j as int],
                        ));
                    }
                    return Err(Error::Inconsistent);
                }
                i = i + 1;
            }
            j = j + 1;
        }
        let sound = are_all_assigned(&item_keys) && are_all_different(&item_keys)
            && are_all_assigned(&object_keys) && are_all_different(&object_keys)
            && are_all_assigned(&repository_keys) && are_all_different(&repository_keys);
        proof {
            if !are_all_assigned_spec(item_keys@) {
                let k = choose|k: int| 0 <= k < item_keys@.len() && item_keys@[k] == 0;
                assert(item_rows[k].id.0 == 0);
            } else if !all_different(item_keys@) {
                let (a, b) = choose|a: int, b: int|
                    0 <= a < b < item_keys@.len() && item_keys@[a] == item_keys@[b];
                assert(item_key()(item_rows[a]) == item_key()(item_rows[b]));
            } else if !are_all_assigned_spec(object_keys@) {
                let k = choose|k: int| 0 <= k < object_keys@.len() && object_keys@[k] == 0;
                assert(object_rows[k].id.0 == 0);
            } else if !all_different(object_keys@) {
                let (a, b) = choose|a: int, b: int|
                    0 <= a < b < object_keys@.len() && object_keys@[a] == object_keys@[b];
                assert(object_key()(object_rows[a]) == object_key()(object_rows[b]));
            } else if !are_all_assigned_spec(repository_keys@) {
                let k = choose|k: int|
                    0 <= k < repository_keys@.len() && repository_keys@[k] == 0;
                assert(repository_rows[k].id.0 == 0);
            } else if !all_different(repository_keys@) {
                let (a, b) = choose|a: int, b: int|
                    0 <= a < b < repository_keys@.len() && repository_keys@[a]
                        == repository_keys@[b];
                assert(repository_key()(repository_rows[a]) == repository_key()(
                    repository_rows[b],
                ));
            }
        }
        if !sound {
            return Err(Error::Inconsistent);
        }
        let next_item = key_above(&item_keys);
        let next_object = key_above(&object_keys);
        let next_repository = key_above(&repository_keys);
        let db = Database {
            schema_name,
            repositories,
            items,
            objects,
            subscriptions,
            next_repository,
            next_item,
            next_object,
        };
        proof {
            assert forall|a: int, b: int| 0 <= a < b < item_rows.len() implies item_key()(
                #[trigger] item_rows[a],
            ) != item_key()(#[trigger] item_rows[b]) by {
                assert(item_keys@[a] != item_keys@[b]);
            }
            assert forall|a: int, b: int| 0 <= a < b < object_rows.len() implies object_key()(
                #[trigger] object_rows[a],
            ) != object_key()(#[trigger] object_rows[b]) by {
                assert(object_keys@[a] != object_keys@[b]);
            }
            assert forall|a: int, b: int|
                0 <= a < b < repository_rows.len() implies repository_key()(
                #[trigger] repository_rows[a],
            ) != repository_key()(#[trigger] repository_rows[b]) by {
                assert(repository_keys@[a] != repository_keys@[b]);
            }
            assert forall|k: int| 0 <= k < item_rows.len() implies (#[trigger] item_rows[k]).id.0
                != 0 && (next_item < i64::MAX ==> item_rows[k].id.0 < next_item) by {
                assert(item_keys@[k] == item_rows[k].id.0);
            }
            assert forall|k: int| 0 <= k < object_rows.len() implies (
            #[trigger] object_rows[k]).id.0 != 0 && (next_object < i64::MAX
                ==> object_rows[k].id.0 < next_object) by {
                assert(object_keys@[k] == object_rows[k].id.0);
            }
            assert forall|k: int| 0 <= k < repository_rows.len() implies (
            #[trigger] repository_rows[k]).id.0 != 0 && (next_repository < i64::MAX
                ==> repository_rows[k].id.0 < next_repository) by {
                assert(repository_keys@[k] == repository_rows[k].id.0);
            }
        }
        Ok(db)
    }

    /// The repositories, in the order of their table.
    pub fn repositories(&self) -> (r: &Vec<Repository>)
        ensures
            repository_views(r@) == self@.repositories,
    {
        &self.repositories
    }

    /// The items as they are stored, in the order of their table.
    pub fn items(&self) -> (r: &Vec<Item>)
        ensures
            item_views(r@) == self@.items,
    {
        &self.items
    }

    /// The objects, in the order of their table.
    pub fn objects(&self) -> (r: &Vec<Object>)
        ensures
            object_views(r@) == self@.objects,
    {
        &self.objects
    }

    /// The subscriptions, in the order of their table.
    pub fn subscriptions(&self) -> (r: &Vec<Subscription>)
        ensures
            r@ == self@.subscriptions,
    {
        &self.subscriptions
    }

    /// The statement with the name of the schema put in the place of each
    /// `SCHEMA_NAME`.
    pub fn statement(&self, query: &str) -> (r: String)
        ensures
            r@ == replaced(query@, "SCHEMA_NAME"@, self@.schema_name),
    {
        proof {
            reveal_strlit("SCHEMA_NAME");
        }
        replace_text(query, "SCHEMA_NAME", self.schema_name.as_str())
    }

    /// The name of the schema that holds the tables.
    pub fn schema_name(&self) -> (r: &String)
        ensures
            r@ == self@.schema_name,
    {
        &self.schema_name
    }
}

} // verus!
