use crate::database::{Database, item_key, item_views};
use crate::database::model::{
    absolute_path_of, chain, child_count, child_size, clamp_i64, in_scope, in_subtree,
    ItemQueryView, items_after_delete, items_with_trash, ItemSearchRepositoryView, ItemSearchView,
    lemma_lookup_found, lemma_lookup_skip, lookup, materialized, objects_after_delete,
    outside_flags, owner_passes, query_takes, reaches, released, scope_takes, search_takes,
    select_all, selected, text_passes, under_some_root, unreleased_flags, upserted, used_outside,
};
use crate::database::object::{Object, other_flags};
use crate::database::table::{
    kept_row, lemma_kept_distinct, lemma_kept_map, lemma_kept_member, retain_flagged,
};
use crate::error::Error;
use crate::types::database_ids::{DatabaseIdTrait, ItemId, ObjectId, RepositoryId, UserId};
use crate::types::enc_path::{encoded_texts, EncPath};
use crate::types::enc_string::EncString;
use crate::types::item::{DirectoryData, Item, ItemView, option_text};
use crate::types::text::text_contains_ignore_case;
use vstd::prelude::*;

verus! {

/// Which items a read takes, by their trash state.
#[derive(Clone, Copy, Debug, PartialEq, Eq, Structural)]
pub enum Trash {
    /// Only the items in the trash.
    Yes,
    /// Only the items out of the trash.
    No,
    /// All items.
    Both,
}

impl Trash {
    /// True where the filter takes an item in the given trash state.
    pub open spec fn admits(&self, in_trash: bool) -> bool {
        match self {
            Trash::Yes => in_trash,
            Trash::No => !in_trash,
            Trash::Both => true,
        }
    }

    pub fn allows(&self, in_trash: bool) -> (r: bool)
        ensures
            r == self.admits(in_trash),
    {
        match self {
            Trash::Yes => in_trash,
            Trash::No => !in_trash,
            Trash::Both => true,
        }
    }

    /// The condition that the filter adds to a query on the item table.
    pub open spec fn spec_clause(&self) -> Seq<char> {
        match self {
            Trash::Yes => "AND in_trash"@,
            Trash::No => "AND NOT in_trash"@,
            Trash::Both => ""@,
        }
    }

    pub fn to_string(&self) -> (r: String)
        ensures
            r@ == self.spec_clause(),
    {
        match self {
            Trash::Yes => "AND in_trash".to_owned(),
            Trash::No => "AND NOT in_trash".to_owned(),
            Trash::Both => "".to_owned(),
        }
    }
}

/// A scope of a search: a repository, and the items below which the search
/// looks; the whole repository where none is named.
#[derive(Debug)]
pub struct ItemSearchRepositoryField {
    pub repository: RepositoryId,
    pub root_items: Vec<ItemId>,
}

impl View for ItemSearchRepositoryField {
    type V = ItemSearchRepositoryView;

    open spec fn view(&self) -> ItemSearchRepositoryView {
        ItemSearchRepositoryView { repository: self.repository, root_items: self.root_items@ }
    }
}

/// A search filter: the conditions that a file must meet, all of them.
#[derive(Debug)]
pub struct ItemSearchData {
    pub repositories: Vec<ItemSearchRepositoryField>,
    pub name_filter: Option<EncString>,
    pub before: Option<i64>,
    pub after: Option<i64>,
    pub max_size: Option<i64>,
    pub min_size: Option<i64>,
    pub mime_type: Option<EncString>,
    pub owners: Option<Vec<UserId>>,
}

pub open spec fn scope_views(scopes: Seq<ItemSearchRepositoryField>) -> Seq<
    ItemSearchRepositoryView,
> {
    scopes.map_values(|s: ItemSearchRepositoryField| s@)
}

pub open spec fn option_users(users: Option<Vec<UserId>>) -> Option<Seq<UserId>> {
    match users {
        Some(u) => Some(u@),
        None => None,
    }
}

impl View for ItemSearchData {
    type V = ItemSearchView;

    open spec fn view(&self) -> ItemSearchView {
        ItemSearchView {
            repositories: scope_views(self.repositories@),
            name_filter: option_text(self.name_filter),
            before: self.before,
            after: self.after,
            max_size: self.max_size,
            min_size: self.min_size,
            mime_type: option_text(self.mime_type),
            owners: option_users(self.owners),
        }
    }
}

/// Whether the text holds the filter text, whatever the case of letters.
pub fn passes_text(filter: &Option<EncString>, text: &EncString) -> (r: bool)
    ensures
        r == text_passes(option_text(*filter), text@),
{
    match filter {
        Some(f) => text_contains_ignore_case(text.encoded().as_str(), f.encoded().as_str()),
        None => true,
    }
}

/// Whether the owner is one of the given users, where any are given.
pub fn passes_owner(owners: &Option<Vec<UserId>>, owner: UserId) -> (r: bool)
    ensures
        r == owner_passes(option_users(*owners), owner),
{
    match owners {
        Some(users) => {
            let n = users.len();
            let mut i: usize = 0;
            while i < n
                invariant
                    i <= n,
                    n == users@.len(),
                    option_users(*owners) == Some(users@),
                    forall|k: int| 0 <= k < i ==> users@[k] != owner,
                decreases n - i,
            {
                if users[i] == owner {
                    proof {
                        assert(users@[i as int] == owner);
                    }
                    return true;
                }
                i = i + 1;
            }
            false
        },
        None => true,
    }
}

/// What a read of the item table asks for.
pub enum ItemQuery<'a> {
    /// The item with a key.
    Id(ItemId),
    /// The item at a path of a repository.
    Path(&'a EncPath, RepositoryId),
    /// The items of a repository.
    Repository(RepositoryId),
    /// The items that a user owns.
    Owner(UserId),
    /// The files whose content is an object.
    Object(ObjectId),
    /// The children of an item.
    Parent(ItemId),
    /// The items of a repository that have no parent.
    Roots(RepositoryId),
    /// The topmost items of the trashed subtrees of a repository.
    TrashRoots(RepositoryId),
    /// The files that a search filter takes.
    Search(&'a ItemSearchData),
}

impl<'a> View for ItemQuery<'a> {
    type V = ItemQueryView;

    open spec fn view(&self) -> ItemQueryView {
        match self {
            ItemQuery::Id(id) => ItemQueryView::Id(*id),
            ItemQuery::Path(path, repository) => ItemQueryView::Path(path@, *repository),
            ItemQuery::Repository(repository) => ItemQueryView::Repository(*repository),
            ItemQuery::Owner(owner) => ItemQueryView::Owner(*owner),
            ItemQuery::Object(object) => ItemQueryView::Object(*object),
            ItemQuery::Parent(parent) => ItemQueryView::Parent(*parent),
            ItemQuery::Roots(repository) => ItemQueryView::Roots(*repository),
            ItemQuery::TrashRoots(repository) => ItemQueryView::TrashRoots(*repository),
            ItemQuery::Search(filter) => ItemQueryView::Search(filter@),
        }
    }
}

/// The one row of a read that must be unique.
pub fn single(mut rows: Vec<Item>) -> (r: Result<Item, Error>)
    ensures
        match r {
            Ok(item) => rows@.len() == 1 && item@ == rows@[0]@,
            Err(e) => (e == Error::NotFound && rows@.len() == 0) || (e == Error::Inconsistent
                && rows@.len() > 1),
        },
{
    if rows.len() > 1 {
        return Err(Error::Inconsistent);
    }
    match rows.pop() {
        Some(item) => Ok(item),
        None => Err(Error::NotFound),
    }
}

impl Database {
    /// Whether the path lies at or below one of the given items.
    pub(crate) fn is_under_some_root(&self, roots: &Vec<ItemId>, path: &EncPath) -> (r: bool)
        ensures
            r == under_some_root(self@.items, roots@, path@),
    {
        let n = roots.len();
        let mut i: usize = 0;
        while i < n
            invariant
                i <= n,
                n == roots@.len(),
                forall|k: int|
                    0 <= k < i ==> !(lookup(self@.items, #[trigger] roots@[k]) is Some
                        && absolute_path_of(self@.items, roots@[k]).is_prefix_of(path@)),
            decreases n - i,
        {
            match self.find_item(roots[i]) {
                Some(_) => {
                    let root_path = self.path_of(roots[i]);
                    if path.starts_with(&root_path) {
                        return true;
                    }
                },
                None => {},
            }
            i = i + 1;
        }
        false
    }

    /// Whether one of the scopes takes the row.
    pub(crate) fn is_in_scope(
        &self,
        scopes: &Vec<ItemSearchRepositoryField>,
        row: &Item,
    ) -> (r: bool)
        ensures
            r == in_scope(self@.items, scope_views(scopes@), row@),
    {
        let n = scopes.len();
        let mut i: usize = 0;
        while i < n
            invariant
                i <= n,
                n == scopes@.len(),
                forall|k: int|
                    0 <= k < i ==> !scope_takes(
                        self@.items,
                        #[trigger] scope_views(scopes@)[k],
                        row@,
                    ),
            decreases n - i,
        {
            let scope = &scopes[i];
            proof {
                assert(scope_views(scopes@)[i as int] == scope@);
            }
            if row.repository() == scope.repository && (scope.root_items.len() == 0
                || self.is_under_some_root(&scope.root_items, row.absolute_path())) {
                return true;
            }
            i = i + 1;
        }
        false
    }

    /// Whether the search filter takes the row.
    pub(crate) fn search_accepts(&self, filter: &ItemSearchData, row: &Item) -> (r: bool)
        ensures
            r == search_takes(self@.items, filter@, row@),
    {
        match row.file() {
            None => false,
            Some(f) => {
                self.is_in_scope(&filter.repositories, row) && passes_text(
                    &filter.name_filter,
                    row.name(),
                ) && (match filter.before {
                    Some(b) => f.timestamp <= b,
                    None => true,
                }) && (match filter.after {
                    Some(a) => f.timestamp >= a,
                    None => true,
                }) && (match filter.max_size {
                    Some(m) => f.size <= m,
                    None => true,
                }) && (match filter.min_size {
                    Some(m) => f.size >= m,
                    None => true,
                }) && passes_text(&filter.mime_type, &f.mimetype) && passes_owner(
                    &filter.owners,
                    row.owner(),
                )
            },
        }
    }

    /// True where the query takes the row, which is given as a reader sees it.
    pub(crate) fn takes(&self, query: &ItemQuery, row: &Item) -> (r: bool)
        ensures
            r == query_takes(self@.items, query@, row@),
    {
        match query {
            ItemQuery::Id(id) => *row.id() == *id,
            ItemQuery::Path(path, repository) => row.absolute_path().same_as(path)
                && row.repository() == *repository,
            ItemQuery::Repository(repository) => row.repository() == *repository,
            ItemQuery::Owner(owner) => row.owner() == *owner,
            ItemQuery::Object(object) => match row.file() {
                Some(f) => f.object == *object,
                None => false,
            },
            ItemQuery::Parent(parent) => row.parent_item() == Some(*parent),
            ItemQuery::Roots(repository) => row.parent_item().is_none() && row.repository()
                == *repository,
            ItemQuery::TrashRoots(repository) => {
                if !row.in_trash() || row.repository() != *repository {
                    false
                } else {
                    match row.parent_item() {
                        None => true,
                        Some(parent) => match self.find_item(parent) {
                            Some(k) => {
                                proof {
                                    self.lemma_view();
                                }
                                self.items[k].repository() == *repository
                                    && !self.items[k].in_trash()
                            },
                            None => false,
                        },
                    }
                }
            },
            ItemQuery::Search(filter) => self.search_accepts(filter, row),
        }
    }

    /// The rows that the query and the trash filter take, each as a reader
    /// sees it, in the order of the table.
    pub fn select(&self, query: &ItemQuery, trash: Trash) -> (r: Vec<Item>)
        ensures
            item_views(r@) == select_all(self@.items, query@, trash),
    {
        proof {
            self.lemma_view();
        }
        let n = self.items.len();
        let mut out: Vec<Item> = Vec::new();
        let mut i: usize = 0;
        proof {
            assert(item_views(out@) =~= Seq::<ItemView>::empty());
        }
        while i < n
            invariant
                i <= n,
                n == self.items@.len(),
                self@.items == item_views(self.items@),
                item_views(out@) == selected(self@.items, query@, trash, i as int),
            decreases n - i,
        {
            if trash.allows(self.items[i].in_trash()) {
                let row = self.materialize(i);
                if self.takes(query, &row) {
                    proof {
                        assert(item_views(out@.push(row)) =~= item_views(out@).push(row@));
                    }
                    out.push(row);
                }
            }
            i = i + 1;
        }
        out
    }

    /// Whether the walk from the item `id` up comes to `root`.
    pub(crate) fn is_in_subtree(&self, root: ItemId, id: ItemId) -> (r: bool)
        ensures
            r == in_subtree(self@.items, root, id),
    {
        proof {
            self.lemma_view();
        }
        let n = self.items.len();
        let mut cur = id;
        let mut fuel: usize = n;
        loop
            invariant
                n == self@.items.len(),
                self@.items == item_views(self.items@),
                fuel <= n,
                in_subtree(self@.items, root, id) == reaches(self@.items, cur, root, fuel as nat),
            decreases fuel,
        {
            if cur == root {
                return true;
            }
            if fuel == 0 {
                return false;
            }
            match self.find_item(cur) {
                Some(k) => match self.items[k].parent_item() {
                    Some(parent) => {
                        cur = parent;
                        fuel = fuel - 1;
                    },
                    None => {
                        return false;
                    },
                },
                None => {
                    return false;
                },
            }
        }
    }

    /// Whether a file outside the subtree of `root` has the object as its
    /// content; `inside` marks the rows of the subtree.
    pub(crate) fn is_used_outside(
        &self,
        inside: &Vec<bool>,
        root: ItemId,
        object: ObjectId,
    ) -> (r: bool)
        requires
            inside@.len() == self@.items.len(),
            forall|j: int|
                0 <= j < inside@.len() ==> inside@[j] == in_subtree(
                    self@.items,
                    root,
                    (#[trigger] self@.items[j]).id,
                ),
        ensures
            r == used_outside(self@.items, root, object),
    {
        proof {
            self.lemma_view();
        }
        let n = self.items.len();
        let mut i: usize = 0;
        while i < n
            invariant
                i <= n,
                n == self.items@.len(),
                self@.items == item_views(self.items@),
                inside@.len() == n,
                forall|j: int|
                    0 <= j < n ==> inside@[j] == in_subtree(
                        self@.items,
                        root,
                        (#[trigger] self@.items[j]).id,
                    ),
                forall|j: int|
                    0 <= j < i ==> !(!in_subtree(self@.items, root, (#[trigger] self@.items[j]).id)
                        && self@.items[j].file is Some && self@.items[j].file->0.object
                        == object),
            decreases n - i,
        {
            if !inside[i] {
                match self.items[i].file() {
                    Some(f) => {
                        if f.object == object {
                            proof {
                                assert(self@.items[i as int] == self.items@[i as int]@);
                            }
                            return true;
                        }
                    },
                    None => {},
                }
            }
            i = i + 1;
        }
        false
    }

    /// For each row of the table, whether it lies in the subtree of `root`.
    pub(crate) fn subtree_flags(&self, root: ItemId) -> (r: Vec<bool>)
        ensures
            r@.len() == self@.items.len(),
            forall|i: int|
                0 <= i < r@.len() ==> r@[i] == in_subtree(
                    self@.items,
                    root,
                    (#[trigger] self@.items[i]).id,
                ),
    {
        proof {
            self.lemma_view();
        }
        let n = self.items.len();
        let mut flags: Vec<bool> = Vec::new();
        let mut i: usize = 0;
        while i < n
            invariant
                i <= n,
                n == self.items@.len(),
                self@.items == item_views(self.items@),
                flags@.len() == i,
                forall|j: int|
                    0 <= j < i ==> flags@[j] == in_subtree(
                        self@.items,
                        root,
                        (#[trigger] self@.items[j]).id,
                    ),
            decreases n - i,
        {
            let flag = self.is_in_subtree(root, *self.items[i].id());
            flags.push(flag);
            i = i + 1;
        }
        flags
    }

    /// The place in the table of the first row with the key `id`.
    pub(crate) fn find_item(&self, id: ItemId) -> (r: Option<usize>)
        ensures
            match r {
                Some(k) => k < self@.items.len() && lookup(self@.items, id) == Some(
                    self@.items[k as int],
                ) && self@.items[k as int].id == id,
                None => lookup(self@.items, id) is None,
            },
    {
        proof {
            self.lemma_view();
            assert(self@.items.skip(0) =~= self@.items);
        }
        let n = self.items.len();
        let mut i: usize = 0;
        while i < n
            invariant
                i <= n,
                n == self.items@.len(),
                self@.items == item_views(self.items@),
                lookup(self@.items, id) == lookup(self@.items.skip(i as int), id),
            decreases n - i,
        {
            proof {
                lemma_lookup_skip(self@.items, id, i as int);
            }
            if *self.items[i].id() == id {
                return Some(i);
            }
            i = i + 1;
        }
        None
    }

    /// The absolute path of the item `id`.
    pub(crate) fn path_of(&self, id: ItemId) -> (r: EncPath)
        ensures
            r@ == absolute_path_of(self@.items, id),
    {
        proof {
            self.lemma_view();
        }
        let n = self.items.len();
        let mut names: Vec<EncString> = Vec::new();
        let mut cur: Option<ItemId> = Some(id);
        let mut fuel: usize = n;
        let ghost items = self@.items;
        proof {
            assert(encoded_texts(names@) =~= Seq::<Seq<char>>::empty());
            assert(Seq::<Seq<char>>::empty() + chain(items, id, n as nat) =~= chain(
                items,
                id,
                n as nat,
            ));
        }
        while fuel > 0 && cur.is_some()
            invariant
                items == self@.items,
                items == item_views(self.items@),
                n == items.len(),
                fuel <= n,
                encoded_texts(names@) + (match cur {
                    Some(c) => chain(items, c, fuel as nat),
                    None => Seq::empty(),
                }) == chain(items, id, n as nat),
            decreases fuel,
        {
            let c = cur.unwrap();
            match self.find_item(c) {
                Some(k) => {
                    let name = self.items[k].name().clone();
                    let ghost before = encoded_texts(names@);
                    proof {
                        assert(encoded_texts(names@.push(name)) =~= before.push(name@));
                        let rest = match items[k as int].parent_item {
                            Some(p) => chain(items, p, (fuel - 1) as nat),
                            None => Seq::empty(),
                        };
                        assert(before + (seq![name@] + rest) =~= before.push(name@) + rest);
                        assert(seq![name@] + Seq::<Seq<char>>::empty() =~= seq![name@]);
                    }
                    names.push(name);
                    cur = self.items[k].parent_item();
                },
                None => {
                    cur = None;
                },
            }
            fuel = fuel - 1;
        }
        proof {
            assert(encoded_texts(names@) + Seq::<Seq<char>>::empty() =~= encoded_texts(names@));
        }
        let ghost all = encoded_texts(names@);
        let mut out: Vec<EncString> = Vec::new();
        proof {
            assert(encoded_texts(out@) + all.reverse() =~= all.reverse());
        }
        while names.len() > 0
            invariant
                encoded_texts(out@) + encoded_texts(names@).reverse() == all.reverse(),
            decreases names.len(),
        {
            let ghost before = encoded_texts(names@);
            let ghost done = encoded_texts(out@);
            let name = names.pop().unwrap();
            proof {
                assert(encoded_texts(names@) =~= before.drop_last());
                assert(before.last() == name@);
                assert(before.reverse() =~= seq![name@] + before.drop_last().reverse());
                assert(encoded_texts(out@.push(name)) =~= done.push(name@));
                assert(done.push(name@) + before.drop_last().reverse() =~= done + (seq![name@]
                    + before.drop_last().reverse()));
            }
            out.push(name);
        }
        proof {
            assert(encoded_texts(names@).reverse() =~= Seq::<Seq<char>>::empty());
            assert(encoded_texts(out@) + Seq::<Seq<char>>::empty() =~= encoded_texts(out@));
        }
        EncPath::from_segments(out)
    }

    /// The number of children of the item `dir` and the size of the files
    /// among them.
    pub(crate) fn children_of(&self, dir: ItemId) -> (r: (i64, i64))
        ensures
            r.0 == clamp_i64(child_count(self@.items, dir, self@.items.len() as int)),
            r.1 == clamp_i64(child_size(self@.items, dir, self@.items.len() as int)),
    {
        proof {
            self.lemma_view();
        }
        let n = self.items.len();
        let mut count: usize = 0;
        let mut size: i128 = 0;
        let mut i: usize = 0;
        while i < n
            invariant
                i <= n,
                n == self.items@.len(),
                self@.items == item_views(self.items@),
                count == child_count(self@.items, dir, i as int),
                count <= i,
                size == child_size(self@.items, dir, i as int),
                -(i as int) * 0x8000_0000_0000_0000 <= size <= (i as int) * 0x8000_0000_0000_0000,
            decreases n - i,
        {
            let item = &self.items[i];
            if item.parent_item() == Some(dir) {
                count = count + 1;
                match item.file() {
                    Some(f) => {
                        size = size + f.size as i128;
                    },
                    None => {},
                }
            }
            i = i + 1;
        }
        let wide: u128 = count as u128;
        let c: i64 = if wide > 0x7FFF_FFFF_FFFF_FFFF {
            i64::MAX
        } else {
            wide as i64
        };
        let s: i64 = if size < -0x8000_0000_0000_0000 {
            i64::MIN
        } else if size > 0x7FFF_FFFF_FFFF_FFFF {
            i64::MAX
        } else {
            size as i64
        };
        (c, s)
    }

    /// The row at place `k` as a reader sees it.
    pub(crate) fn materialize(&self, k: usize) -> (r: Item)
        requires
            k < self@.items.len(),
        ensures
            r@ == materialized(self@.items, self@.items[k as int]),
    {
        proof {
            self.lemma_view();
        }
        let item = &self.items[k];
        let id = *item.id();
        let path = self.path_of(id);
        let directory = match item.directory() {
            Some(d) => {
                let (num_items, content_size) = self.children_of(id);
                Some(DirectoryData { open_upload: d.open_upload, num_items, content_size })
            },
            None => None,
        };
        item.with_computed(path, directory)
    }
}

/// The reads and writes of the item tree.
pub struct DbItem;

impl DbItem {
    /// The files that the filter takes: those that lie in one of its
    /// scopes and meet each of its conditions, in or out of the trash.
    /// Fails with `InvalidArgument` where the filter names no repository.
    pub fn search(db: &Database, filter: ItemSearchData) -> (r: Result<Vec<Item>, Error>)
        ensures
            match r {
                Ok(rows) => filter@.repositories.len() > 0 && item_views(rows@) == select_all(
                    db@.items,
                    ItemQueryView::Search(filter@),
                    Trash::Both,
                ),
                Err(e) => e == Error::InvalidArgument && filter@.repositories.len() == 0,
            },
    {
        if filter.repositories.len() == 0 {
            return Err(Error::InvalidArgument);
        }
        Ok(db.select(&ItemQuery::Search(&filter), Trash::Both))
    }

    /// Writes the item to the store. An item without a key is inserted and
    /// gets the next key of the store. An item with a key takes the place of
    /// the row with that key, whose repository it keeps; where there is no
    /// such row it is inserted under its key. Fails with `InvalidArgument`
    /// where the item is neither a file nor a directory, and with `Upstream`
    /// where the store has no key left to give; nothing changes then.
    pub fn push(item: &mut Item, db: &mut Database) -> (r: Result<(), Error>)
        requires
            old(db).inv(),
        ensures
            final(db)@.schema_name == old(db)@.schema_name,
            final(db)@.repositories == old(db)@.repositories,
            final(db)@.objects == old(db)@.objects,
            final(db)@.subscriptions == old(db)@.subscriptions,
            final(db).inv(),
            match r {
                Ok(_) => {
                    &&& old(item)@.file is Some || old(item)@.directory is Some
                    &&& if old(item)@.id.spec_is_valid() {
                        &&& final(item)@ == old(item)@
                        &&& final(db)@.items == upserted(
                            old(db)@.items,
                            old(item)@.stored_as(old(item)@.id),
                        )
                    } else {
                        let key = old(db).next_item_key();
                        &&& old(db).has_item_key()
                        &&& key.spec_is_valid()
                        &&& lookup(old(db)@.items, key) is None
                        &&& final(item)@ == (ItemView { id: key, ..old(item)@ })
                        &&& final(db)@.items == old(db)@.items.push(old(item)@.stored_as(key))
                    }
                },
                Err(e) => {
                    &&& final(db)@ == old(db)@
                    &&& final(item)@ == old(item)@
                    &&& if old(item)@.file is None && old(item)@.directory is None {
                        e == Error::InvalidArgument
                    } else {
                        e == Error::Upstream && !old(item)@.id.spec_is_valid()
                            && !old(db).has_item_key()
                    }
                },
            },
    {
        proof {
            db.lemma_view();
            db.lemma_keys();
        }
        let ghost start = *db;
        if item.directory().is_none() && item.file().is_none() {
            return Err(Error::InvalidArgument);
        }
        let id = *item.id();
        if id.is_valid() {
            match db.find_item(id) {
                Some(k) => {
                    let row = item.stored_as(id).in_repository(db.items[k].repository());
                    let ghost before = db@.items;
                    proof {
                        assert forall|i: int| 0 <= i < before.len() && i != k implies (
                        #[trigger] before[i]).id != id by {
                            if i < k {
                                assert(item_key()(before[i]) != item_key()(before[k as int]));
                            } else {
                                assert(item_key()(before[k as int]) != item_key()(before[i]));
                            }
                        }
                        assert(item_views(db.items@.update(k as int, row)) =~= upserted(
                            before,
                            item@.stored_as(id),
                        ));
                        assert(item_views(db.items@.update(k as int, row)) =~= before.update(
                            k as int,
                            row@,
                        ));
                    }
                    db.items.set(k, row);
                    proof {
                        db.lemma_view();
                        db.lemma_keys();
                        start.lemma_keys();
                    }
                },
                None => {
                    let row = item.stored_as(id);
                    let ghost before = db@.items;
                    proof {
                        lemma_lookup_found(before, id);
                        assert(item_views(db.items@.push(row)) =~= before.push(row@));
                    }
                    if id.0 >= db.next_item {
                        db.next_item = if id.0 == i64::MAX {
                            i64::MAX
                        } else {
                            id.0 + 1
                        };
                    }
                    db.items.push(row);
                    proof {
                        db.lemma_view();
                        db.lemma_keys();
                        start.lemma_keys();
                        assert forall|a: int, b: int|
                            0 <= a < b < db@.items.len() implies item_key()(
                            #[trigger] db@.items[a],
                        ) != item_key()(#[trigger] db@.items[b]) by {
                            if b < before.len() {
                                assert(item_key()(before[a]) != item_key()(before[b]));
                            } else {
                                assert(before[a].id != id);
                            }
                        }
                    }
                },
            }
            Ok(())
        } else {
            if db.next_item == i64::MAX {
                return Err(Error::Upstream);
            }
            let key = ItemId(db.next_item);
            let row = item.stored_as(key);
            let ghost before = db@.items;
            proof {
                lemma_lookup_found(before, key);
                assert(item_views(db.items@.push(row)) =~= before.push(row@));
                if lookup(before, key) is Some {
                    let found = lookup(before, key)->0;
                    let j = choose|j: int| 0 <= j < before.len() && before[j] == found;
                    assert(before[j].id.0 < db.next_item);
                }
            }
            db.next_item = db.next_item + 1;
            db.items.push(row);
            let set = item.set_id(key);
            proof {
                db.lemma_view();
                db.lemma_keys();
                start.lemma_keys();
                assert forall|a: int, b: int| 0 <= a < b < db@.items.len() implies item_key()(
                    #[trigger] db@.items[a],
                ) != item_key()(#[trigger] db@.items[b]) by {
                    if b < before.len() {
                        assert(item_key()(before[a]) != item_key()(before[b]));
                    } else {
                        assert(before[a].id.0 < key.0);
                    }
                }
            }
            Ok(())
        }
    }

    /// Deletes the item with all that lies below it, and releases every
    /// object that a file of that subtree had as its content and no file
    /// outside it has. Deleting what is already gone changes nothing.
    pub fn delete(item: &Item, db: &mut Database) -> (r: Result<(), Error>)
        requires
            old(db).inv(),
        ensures
            r is Ok,
            final(db)@.schema_name == old(db)@.schema_name,
            final(db)@.repositories == old(db)@.repositories,
            final(db)@.subscriptions == old(db)@.subscriptions,
            final(db)@.items == items_after_delete(old(db)@.items, item@.id),
            final(db)@.objects == objects_after_delete(
                old(db)@.items,
                old(db)@.objects,
                item@.id,
            ),
            final(db).inv(),
    {
        let root = *item.id();
        let ghost objects = db@.objects;
        let ghost items = db@.items;
        let gone = Self::remove_item(db, root);
        proof {
            assert(other_flags(objects, gone@) =~= unreleased_flags(items, objects, root));
        }
        Object::delete_objects(db, &gone)
    }

    /// Takes the subtree of `root` out of the item table, and returns the
    /// keys of the objects that this releases.
    pub fn remove_item(db: &mut Database, root: ItemId) -> (gone: Vec<ObjectId>)
        requires
            old(db).inv(),
        ensures
            final(db)@.schema_name == old(db)@.schema_name,
            final(db)@.repositories == old(db)@.repositories,
            final(db)@.subscriptions == old(db)@.subscriptions,
            final(db)@.objects == old(db)@.objects,
            final(db)@.items == items_after_delete(old(db)@.items, root),
            final(db).inv(),
            forall|object: ObjectId|
                gone@.contains(object) <==> released(old(db)@.items, root, object),
    {
        proof {
            db.lemma_view();
        }
        let ghost items = db@.items;
        let ghost start = *db;
        proof {
            db.lemma_keys();
        }
        let inside = db.subtree_flags(root);
        let n = db.items.len();
        let mut gone: Vec<ObjectId> = Vec::new();
        let mut keep: Vec<bool> = Vec::new();
        let mut i: usize = 0;
        while i < n
            invariant
                i <= n,
                n == db.items@.len(),
                items == db@.items,
                items == item_views(db.items@),
                inside@.len() == n,
                forall|j: int|
                    0 <= j < n ==> inside@[j] == in_subtree(items, root, (#[trigger] items[j]).id),
                keep@ == outside_flags(items, root).take(i as int),
                forall|object: ObjectId|
                    gone@.contains(object) <==> (!used_outside(items, root, object) && exists|
                        j: int,
                    |
                        0 <= j < i && in_subtree(items, root, (#[trigger] items[j]).id)
                            && items[j].file is Some && items[j].file->0.object == object),
            decreases n - i,
        {
            let ghost before = gone@;
            proof {
                assert(outside_flags(items, root).take(i + 1) =~= outside_flags(
                    items,
                    root,
                ).take(i as int).push(!inside@[i as int]));
            }
            keep.push(!inside[i]);
            let mut added: Option<ObjectId> = None;
            if inside[i] {
                match db.items[i].file() {
                    Some(f) => {
                        let object = f.object;
                        if !db.is_used_outside(&inside, root, object) {
                            gone.push(object);
                            added = Some(object);
                        }
                    },
                    None => {},
                }
            }
            proof {
                assert forall|object: ObjectId|
                    gone@.contains(object) <==> (!used_outside(items, root, object) && exists|
                        j: int,
                    |
                        0 <= j < i + 1 && in_subtree(items, root, (#[trigger] items[j]).id)
                            && items[j].file is Some && items[j].file->0.object == object) by {
                    let new_row = in_subtree(items, root, items[i as int].id) && items[i as int].file is Some
                        && items[i as int].file->0.object == object;
                    if gone@.contains(object) {
                        if before.contains(object) {
                            let j = choose|j: int|
                                0 <= j < i && in_subtree(items, root, (#[trigger] items[j]).id)
                                    && items[j].file is Some && items[j].file->0.object
                                    == object;
                            assert(0 <= j < i + 1);
                        } else {
                            let k = choose|k: int| 0 <= k < gone@.len() && gone@[k] == object;
                            assert(k == before.len());
                            assert(added == Some(object));
                            assert(new_row);
                        }
                    }
                    if !used_outside(items, root, object) && exists|j: int|
                        0 <= j < i + 1 && in_subtree(items, root, (#[trigger] items[j]).id)
                            && items[j].file is Some && items[j].file->0.object == object {
                        let j = choose|j: int|
                            0 <= j < i + 1 && in_subtree(items, root, (#[trigger] items[j]).id)
                                && items[j].file is Some && items[j].file->0.object == object;
                        if j < i {
                            assert(before.contains(object));
                            let k = choose|k: int| 0 <= k < before.len() && before[k] == object;
                            assert(gone@[k] == object);
                        } else {
                            assert(added == Some(object));
                            assert(gone@[gone@.len() - 1] == object);
                        }
                    }
                }
            }
            i = i + 1;
        }
        proof {
            assert(outside_flags(items, root).take(n as int) =~= outside_flags(items, root));
            assert forall|object: ObjectId|
                gone@.contains(object) <==> released(items, root, object) by {
                if released(items, root, object) {
                    let j = choose|j: int|
                        0 <= j < items.len() && in_subtree(items, root, (#[trigger] items[j]).id)
                            && items[j].file is Some && items[j].file->0.object == object;
                    assert(0 <= j < n);
                }
            }
            lemma_kept_map(db.items@, keep@, n as int, |i: Item| i@);
            lemma_kept_distinct(items, keep@, n as int, item_key());
            lemma_kept_member(items, keep@, n as int);
        }
        let mut rows: Vec<Item> = Vec::new();
        core::mem::swap(&mut db.items, &mut rows);
        let rest = retain_flagged(rows, &keep);
        proof {
            assert(item_views(rest@) == items_after_delete(items, root));
            let after = items_after_delete(items, root);
            assert forall|j: int| 0 <= j < after.len() implies (#[trigger] after[j]).id.0 != 0
                && after[j].has_one_kind() && (db.next_item < i64::MAX ==> after[j].id.0
                < db.next_item) by {
                assert(kept_row(items, keep@, n as int, after[j]));
                let k = choose|k: int| 0 <= k < n && #[trigger] keep@[k] && items[k] == after[j];
                assert(items[k].id.0 != 0);
                assert(rows@[k]@ == items[k]);
            }
            assert forall|j: int| 0 <= j < rest@.len() implies (db.next_item < i64::MAX ==> (
            #[trigger] rest@[j])@.id.0 < db.next_item) by {
                assert(item_views(rest@)[j] == rest@[j]@);
            }
        }
        db.items = rest;
        proof {
            db.lemma_view();
            db.lemma_keys();
            start.lemma_view();
        }
        gone
    }

    /// Puts the item with all that lies below it in the trash, or takes it
    /// all out again.
    pub fn set_in_trash(item: &Item, db: &mut Database, in_trash: bool) -> (r: Result<(), Error>)
        requires
            old(db).inv(),
        ensures
            r is Ok,
            final(db)@.schema_name == old(db)@.schema_name,
            final(db)@.repositories == old(db)@.repositories,
            final(db)@.subscriptions == old(db)@.subscriptions,
            final(db)@.objects == old(db)@.objects,
            final(db)@.items == items_with_trash(old(db)@.items, item@.id, in_trash),
            final(db).inv(),
    {
        proof {
            db.lemma_view();
        }
        let root = *item.id();
        let ghost items = db@.items;
        let ghost start = *db;
        proof {
            db.lemma_keys();
        }
        let inside = db.subtree_flags(root);
        let n = db.items.len();
        let mut rows: Vec<Item> = Vec::new();
        let mut i: usize = 0;
        proof {
            assert(item_views(rows@) =~= items_with_trash(items, root, in_trash).take(0));
        }
        while i < n
            invariant
                i <= n,
                n == db.items@.len(),
                items == db@.items,
                items == item_views(db.items@),
                inside@.len() == n,
                forall|j: int|
                    0 <= j < n ==> inside@[j] == in_subtree(items, root, (#[trigger] items[j]).id),
                item_views(rows@) == items_with_trash(items, root, in_trash).take(i as int),
            decreases n - i,
        {
            let row = if inside[i] {
                db.items[i].with_trash(in_trash)
            } else {
                db.items[i].clone()
            };
            proof {
                assert(item_views(rows@.push(row)) =~= item_views(rows@).push(row@));
                assert(items_with_trash(items, root, in_trash).take(i + 1)
                    =~= items_with_trash(items, root, in_trash).take(i as int).push(row@));
            }
            rows.push(row);
            i = i + 1;
        }
        proof {
            let after = items_with_trash(items, root, in_trash);
            assert(after.take(n as int) =~= after);
            assert forall|a: int, b: int| 0 <= a < b < after.len() implies item_key()(
                #[trigger] after[a],
            ) != item_key()(#[trigger] after[b]) by {
                assert(item_key()(items[a]) != item_key()(items[b]));
            }
            assert forall|j: int| 0 <= j < after.len() implies (#[trigger] after[j]).id.0 != 0
                && after[j].has_one_kind() by {
                assert(items[j].id.0 != 0);
            }
            assert forall|j: int| 0 <= j < rows@.len() implies (db.next_item < i64::MAX ==> (
            #[trigger] rows@[j])@.id.0 < db.next_item) by {
                assert(item_views(rows@)[j] == rows@[j]@);
                assert(db.items@[j]@ == items[j]);
            }
        }
        db.items = rows;
        proof {
            db.lemma_view();
            db.lemma_keys();
            start.lemma_view();
        }
        Ok(())
    }

    /// The item with the key `id`. Fails with `NotFound` where the filter
    /// takes no such item.
    pub fn from_id(db: &Database, id: &ItemId, filter: Trash) -> (r: Result<Item, Error>)
        ensures
            ({
                let rows = select_all(db@.items, ItemQueryView::Id(*id), filter);
                match r {
                    Ok(item) => rows.len() == 1 && item@ == rows[0],
                    Err(e) => (e == Error::NotFound && rows.len() == 0) || (e
                        == Error::Inconsistent && rows.len() > 1),
                }
            }),
    {
        let rows = db.select(&ItemQuery::Id(*id), filter);
        proof {
            if rows@.len() > 0 {
                assert(item_views(rows@)[0] == rows@[0]@);
            }
        }
        single(rows)
    }

    /// The item at `path` in a repository. Fails with `NotFound` where the
    /// filter takes no such item, with `Inconsistent` where it takes more
    /// than one.
    pub fn from_path(
        db: &Database,
        path: &EncPath,
        repository: &RepositoryId,
        filter: Trash,
    ) -> (r: Result<Item, Error>)
        ensures
            ({
                let rows = select_all(db@.items, ItemQueryView::Path(path@, *repository), filter);
                match r {
                    Ok(item) => rows.len() == 1 && item@ == rows[0],
                    Err(e) => (e == Error::NotFound && rows.len() == 0) || (e
                        == Error::Inconsistent && rows.len() > 1),
                }
            }),
    {
        let rows = db.select(&ItemQuery::Path(path, *repository), filter);
        proof {
            if rows@.len() > 0 {
                assert(item_views(rows@)[0] == rows@[0]@);
            }
        }
        single(rows)
    }

    /// The items of a repository.
    pub fn from_repository(db: &Database, id: &RepositoryId, filter: Trash) -> (r: Result<
        Vec<Item>,
        Error,
    >)
        ensures
            r is Ok,
            item_views(r->Ok_0@) == select_all(db@.items, ItemQueryView::Repository(*id), filter),
    {
        Ok(db.select(&ItemQuery::Repository(*id), filter))
    }

    /// The items that a user owns.
    pub fn from_user(db: &Database, id: &UserId, filter: Trash) -> (r: Result<Vec<Item>, Error>)
        ensures
            r is Ok,
            item_views(r->Ok_0@) == select_all(db@.items, ItemQueryView::Owner(*id), filter),
    {
        Ok(db.select(&ItemQuery::Owner(*id), filter))
    }

    /// The files whose content is the object `id`.
    pub fn from_object(db: &Database, id: &ObjectId, filter: Trash) -> (r: Result<
        Vec<Item>,
        Error,
    >)
        ensures
            r is Ok,
            item_views(r->Ok_0@) == select_all(db@.items, ItemQueryView::Object(*id), filter),
    {
        Ok(db.select(&ItemQuery::Object(*id), filter))
    }

    /// The children of an item.
    pub fn from_parent(db: &Database, parent_directory: &ItemId, filter: Trash) -> (r: Result<
        Vec<Item>,
        Error,
    >)
        ensures
            r is Ok,
            item_views(r->Ok_0@) == select_all(
                db@.items,
                ItemQueryView::Parent(*parent_directory),
                filter,
            ),
    {
        Ok(db.select(&ItemQuery::Parent(*parent_directory), filter))
    }

    /// The items of a repository that have no parent.
    pub fn repository_root(db: &Database, repository: &RepositoryId, filter: Trash) -> (r: Result<
        Vec<Item>,
        Error,
    >)
        ensures
            r is Ok,
            item_views(r->Ok_0@) == select_all(
                db@.items,
                ItemQueryView::Roots(*repository),
                filter,
            ),
    {
        Ok(db.select(&ItemQuery::Roots(*repository), filter))
    }

    /// The topmost items of the trashed subtrees of a repository: what the
    /// user put in the trash, without what went there with it.
    pub fn repository_trash_root(db: &Database, repository: &RepositoryId) -> (r: Result<
        Vec<Item>,
        Error,
    >)
        ensures
            r is Ok,
            item_views(r->Ok_0@) == select_all(
                db@.items,
                ItemQueryView::TrashRoots(*repository),
                Trash::Both,
            ),
    {
        Ok(db.select(&ItemQuery::TrashRoots(*repository), Trash::Both))
    }
}

} // verus!
