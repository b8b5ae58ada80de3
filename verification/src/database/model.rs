use crate::database::item::Trash;
use crate::database::object::ObjectView;
use crate::database::table::kept;
use crate::types::database_ids::{ItemId, ObjectId, RepositoryId, UserId};
use crate::types::item::{DirectoryData, ItemView};
use crate::types::text::{contains_text, lowered};
use vstd::prelude::*;

verus! {

/// The first row of the table that has the key `id`.
pub open spec fn lookup(items: Seq<ItemView>, id: ItemId) -> Option<ItemView>
    decreases items.len(),
{
    if items.len() == 0 {
        None
    } else if items[0].id == id {
        Some(items[0])
    } else {
        lookup(items.drop_first(), id)
    }
}

/// The names on the way from the item `id` up to its root, the item's own
/// name first. The walk follows parent references and ends at an item
/// without one, at a reference to no row, or after `fuel` steps.
pub open spec fn chain(items: Seq<ItemView>, id: ItemId, fuel: nat) -> Seq<Seq<char>>
    decreases fuel,
{
    if fuel == 0 {
        Seq::empty()
    } else {
        match lookup(items, id) {
            None => Seq::empty(),
            Some(row) => match row.parent_item {
                Some(parent) => seq![row.name] + chain(items, parent, (fuel - 1) as nat),
                None => seq![row.name],
            },
        }
    }
}

/// The absolute path of the item `id`: the names of its ancestors from the
/// root down, then its own.
pub open spec fn absolute_path_of(items: Seq<ItemView>, id: ItemId) -> Seq<Seq<char>> {
    chain(items, id, items.len()).reverse()
}

/// How many of the first `n` rows are children of the item `dir`.
pub open spec fn child_count(items: Seq<ItemView>, dir: ItemId, n: int) -> int
    decreases n,
{
    if n <= 0 {
        0
    } else {
        child_count(items, dir, n - 1) + if items[n - 1].parent_item == Some(dir) {
            1int
        } else {
            0int
        }
    }
}

/// The sizes, added up, of the files among the first `n` rows that are
/// children of the item `dir`.
pub open spec fn child_size(items: Seq<ItemView>, dir: ItemId, n: int) -> int
    decreases n,
{
    if n <= 0 {
        0
    } else {
        child_size(items, dir, n - 1) + if items[n - 1].parent_item == Some(dir) && items[n
            - 1].file is Some {
            items[n - 1].file->0.size as int
        } else {
            0int
        }
    }
}

/// The value of type `i64` that is nearest to `v`.
pub open spec fn clamp_i64(v: int) -> i64 {
    if v < i64::MIN {
        i64::MIN
    } else if v > i64::MAX {
        i64::MAX
    } else {
        v as i64
    }
}

/// The row as a reader sees it: the absolute path is that of the item, and
/// a directory carries the number of its children and the size of the
/// files among them.
pub open spec fn materialized(items: Seq<ItemView>, row: ItemView) -> ItemView {
    ItemView {
        absolute_path: absolute_path_of(items, row.id),
        directory: match row.directory {
            Some(d) => Some(
                DirectoryData {
                    open_upload: d.open_upload,
                    num_items: clamp_i64(child_count(items, row.id, items.len() as int)),
                    content_size: clamp_i64(child_size(items, row.id, items.len() as int)),
                },
            ),
            None => None,
        },
        ..row
    }
}

/// True where the walk from the item `id` up through parent references
/// comes to `root` within `fuel` steps. An item is in reach of itself.
pub open spec fn reaches(items: Seq<ItemView>, id: ItemId, root: ItemId, fuel: nat) -> bool
    decreases fuel,
{
    id == root || (fuel > 0 && match lookup(items, id) {
        Some(row) => match row.parent_item {
            Some(parent) => reaches(items, parent, root, (fuel - 1) as nat),
            None => false,
        },
        None => false,
    })
}

/// The row with key `id` belongs to the subtree below and including `root`.
pub open spec fn in_subtree(items: Seq<ItemView>, root: ItemId, id: ItemId) -> bool {
    reaches(items, id, root, items.len())
}

/// What a read of the item table asks for.
pub ghost enum ItemQueryView {
    /// The item with a key.
    Id(ItemId),
    /// The item at a path of a repository.
    Path(Seq<Seq<char>>, RepositoryId),
    /// The items of a repository.
    Repository(RepositoryId),
    /// The items that a user owns.
    Owner(UserId),
    /// The files whose content is an object.
    Object(ObjectId),
    /// The children of an item.
    Parent(ItemId),
    /// The items of a repository that have no parent.
    Roots(RepositoryId),
    /// The topmost items of the trashed subtrees of a repository.
    TrashRoots(RepositoryId),
    /// The files that a search filter takes.
    Search(ItemSearchView),
}

/// The mathematical value of a scope of a search: a repository, and the
/// items below which the search looks; the whole repository where none is
/// named.
pub ghost struct ItemSearchRepositoryView {
    pub repository: RepositoryId,
    pub root_items: Seq<ItemId>,
}

/// The mathematical value of a search filter.
pub ghost struct ItemSearchView {
    pub repositories: Seq<ItemSearchRepositoryView>,
    pub name_filter: Option<Seq<char>>,
    pub before: Option<i64>,
    pub after: Option<i64>,
    pub max_size: Option<i64>,
    pub min_size: Option<i64>,
    pub mime_type: Option<Seq<char>>,
    pub owners: Option<Seq<UserId>>,
}

/// The path lies at or below one of the given items.
pub open spec fn under_some_root(items: Seq<ItemView>, roots: Seq<ItemId>, path: Seq<Seq<char>>) -> bool {
    exists|k: int|
        0 <= k < roots.len() && lookup(items, #[trigger] roots[k]) is Some && absolute_path_of(
            items,
            roots[k],
        ).is_prefix_of(path)
}

/// The scope takes the row: the row belongs to its repository, and lies at
/// or below one of its items where it names any.
pub open spec fn scope_takes(items: Seq<ItemView>, scope: ItemSearchRepositoryView, row: ItemView) -> bool {
    row.repository == scope.repository && (scope.root_items.len() == 0 || under_some_root(
        items,
        scope.root_items,
        row.absolute_path,
    ))
}

/// One of the scopes takes the row.
pub open spec fn in_scope(items: Seq<ItemView>, scopes: Seq<ItemSearchRepositoryView>, row: ItemView) -> bool {
    exists|k: int| 0 <= k < scopes.len() && scope_takes(items, #[trigger] scopes[k], row)
}

/// The text holds the filter text, whatever the case of the ASCII letters
/// of the two; every text does where there is no filter text.
pub open spec fn text_passes(filter: Option<Seq<char>>, text: Seq<char>) -> bool {
    match filter {
        Some(f) => contains_text(lowered(text), lowered(f)),
        None => true,
    }
}

/// The value is not above the bound, where there is one.
pub open spec fn at_most(bound: Option<i64>, value: i64) -> bool {
    match bound {
        Some(b) => value <= b,
        None => true,
    }
}

/// The value is not below the bound, where there is one.
pub open spec fn at_least(bound: Option<i64>, value: i64) -> bool {
    match bound {
        Some(b) => value >= b,
        None => true,
    }
}

/// The owner is one of the given users, where any are given.
pub open spec fn owner_passes(owners: Option<Seq<UserId>>, owner: UserId) -> bool {
    match owners {
        Some(users) => users.contains(owner),
        None => true,
    }
}

/// The search filter takes the row: a file that lies in one of the scopes
/// and meets every condition that the filter states.
pub open spec fn search_takes(items: Seq<ItemView>, filter: ItemSearchView, row: ItemView) -> bool {
    &&& row.file is Some
    &&& in_scope(items, filter.repositories, row)
    &&& text_passes(filter.name_filter, row.name)
    &&& at_most(filter.before, row.file->0.timestamp)
    &&& at_least(filter.after, row.file->0.timestamp)
    &&& at_most(filter.max_size, row.file->0.size)
    &&& at_least(filter.min_size, row.file->0.size)
    &&& text_passes(filter.mime_type, row.file->0.mimetype)
    &&& owner_passes(filter.owners, row.owner)
}

/// A trash root of the repository: an item in the trash that has no
/// parent, or whose parent is an item of the repository out of the trash.
pub open spec fn is_trash_root(items: Seq<ItemView>, repository: RepositoryId, row: ItemView) -> bool {
    &&& row.in_trash
    &&& row.repository == repository
    &&& match row.parent_item {
        None => true,
        Some(parent) => match lookup(items, parent) {
            Some(p) => p.repository == repository && !p.in_trash,
            None => false,
        },
    }
}

/// True where the query takes the row, which is given as a reader sees it.
pub open spec fn query_takes(items: Seq<ItemView>, query: ItemQueryView, row: ItemView) -> bool {
    match query {
        ItemQueryView::Id(id) => row.id == id,
        ItemQueryView::Path(path, repository) => row.absolute_path == path && row.repository
            == repository,
        ItemQueryView::Repository(repository) => row.repository == repository,
        ItemQueryView::Owner(owner) => row.owner == owner,
        ItemQueryView::Object(object) => row.file is Some && row.file->0.object == object,
        ItemQueryView::Parent(parent) => row.parent_item == Some(parent),
        ItemQueryView::Roots(repository) => row.parent_item is None && row.repository
            == repository,
        ItemQueryView::TrashRoots(repository) => is_trash_root(items, repository, row),
        ItemQueryView::Search(filter) => search_takes(items, filter, row),
    }
}

/// The rows among the first `n` that the query and the trash filter take,
/// each as a reader sees it, in the order of the table.
pub open spec fn selected(items: Seq<ItemView>, query: ItemQueryView, trash: Trash, n: int) -> Seq<
    ItemView,
>
    decreases n,
{
    if n <= 0 {
        Seq::empty()
    } else {
        let before = selected(items, query, trash, n - 1);
        let row = materialized(items, items[n - 1]);
        if trash.admits(row.in_trash) && query_takes(items, query, row) {
            before.push(row)
        } else {
            before
        }
    }
}

/// All rows that the query and the trash filter take.
pub open spec fn select_all(items: Seq<ItemView>, query: ItemQueryView, trash: Trash) -> Seq<
    ItemView,
> {
    selected(items, query, trash, items.len() as int)
}

/// The table after the row has been written under its key: the row takes
/// the place of the row that had the key, whose repository it keeps, or
/// comes last where no row had it.
pub open spec fn upserted(items: Seq<ItemView>, row: ItemView) -> Seq<ItemView> {
    match lookup(items, row.id) {
        Some(_) => Seq::new(
            items.len(),
            |i: int|
                if items[i].id == row.id {
                    ItemView { repository: items[i].repository, ..row }
                } else {
                    items[i]
                },
        ),
        None => items.push(row),
    }
}

/// For each row, whether it lies outside the subtree of `root`.
pub open spec fn outside_flags(items: Seq<ItemView>, root: ItemId) -> Seq<bool> {
    Seq::new(items.len(), |i: int| !in_subtree(items, root, items[i].id))
}

/// The table after the subtree of `root` has been deleted.
pub open spec fn items_after_delete(items: Seq<ItemView>, root: ItemId) -> Seq<ItemView> {
    kept(items, outside_flags(items, root), items.len() as int)
}

/// A file inside the subtree of `root` has the object as its content.
pub open spec fn used_inside(items: Seq<ItemView>, root: ItemId, object: ObjectId) -> bool {
    exists|i: int|
        0 <= i < items.len() && in_subtree(items, root, (#[trigger] items[i]).id)
            && items[i].file is Some && items[i].file->0.object == object
}

/// A file outside the subtree of `root` has the object as its content.
pub open spec fn used_outside(items: Seq<ItemView>, root: ItemId, object: ObjectId) -> bool {
    exists|i: int|
        0 <= i < items.len() && !in_subtree(items, root, (#[trigger] items[i]).id)
            && items[i].file is Some && items[i].file->0.object == object
}

/// Deleting the subtree of `root` releases the object: a file of the
/// subtree refers to it and no file outside does.
pub open spec fn released(items: Seq<ItemView>, root: ItemId, object: ObjectId) -> bool {
    used_inside(items, root, object) && !used_outside(items, root, object)
}

/// For each object, whether deleting the subtree of `root` leaves it.
pub open spec fn unreleased_flags(
    items: Seq<ItemView>,
    objects: Seq<ObjectView>,
    root: ItemId,
) -> Seq<bool> {
    Seq::new(objects.len(), |i: int| !released(items, root, objects[i].id))
}

/// The object table after the subtree of `root` has been deleted.
pub open spec fn objects_after_delete(
    items: Seq<ItemView>,
    objects: Seq<ObjectView>,
    root: ItemId,
) -> Seq<ObjectView> {
    kept(objects, unreleased_flags(items, objects, root), objects.len() as int)
}

/// The table with each row of the subtree of `root` put in or out of the
/// trash.
pub open spec fn items_with_trash(items: Seq<ItemView>, root: ItemId, in_trash: bool) -> Seq<
    ItemView,
> {
    Seq::new(
        items.len(),
        |i: int|
            if in_subtree(items, root, items[i].id) {
                ItemView { in_trash, ..items[i] }
            } else {
                items[i]
            },
    )
}

pub proof fn lemma_lookup_skip(items: Seq<ItemView>, id: ItemId, i: int)
    requires
        0 <= i < items.len(),
        lookup(items, id) == lookup(items.skip(i), id),
    ensures
        items[i].id == id ==> lookup(items, id) == Some(items[i]),
        items[i].id != id ==> lookup(items, id) == lookup(items.skip(i + 1), id),
{
    assert(items.skip(i)[0] == items[i]);
    assert(items.skip(i).drop_first() =~= items.skip(i + 1));
}

/// A row that `lookup` finds is a row of the table, with the key asked for.
pub proof fn lemma_lookup_found(items: Seq<ItemView>, id: ItemId)
    ensures
        match lookup(items, id) {
            Some(row) => row.id == id && items.contains(row),
            None => forall|i: int| 0 <= i < items.len() ==> (#[trigger] items[i]).id != id,
        },
    decreases items.len(),
{
    if items.len() > 0 {
        if items[0].id == id {
            assert(items.contains(items[0]));
        } else {
            let rest = items.drop_first();
            lemma_lookup_found(rest, id);
            match lookup(rest, id) {
                Some(row) => {
                    let k = choose|k: int| 0 <= k < rest.len() && rest[k] == row;
                    assert(items[k + 1] == row);
                },
                None => {
                    assert forall|i: int| 0 <= i < items.len() implies (#[trigger] items[i]).id
                        != id by {
                        if i > 0 {
                            assert(rest[i - 1] == items[i]);
                        }
                    }
                },
            }
        }
    }
}

} // verus!
