use crate::database::item_key;
use crate::database::item::Trash;
use crate::database::model::{
    in_subtree, is_trash_root, ItemQueryView, items_after_delete, items_with_trash, lookup,
    materialized, objects_after_delete, outside_flags, query_takes, reaches, released, select_all,
    selected, unreleased_flags, used_inside, used_outside,
};
use crate::database::object::{objects_without, ObjectView, other_flags};
use crate::database::repository::{items_after_deletes, keys_of, objects_after_deletes};
use crate::database::table::{
    distinct_by, kept_row, lemma_kept_all, lemma_kept_distinct, lemma_kept_holds, lemma_kept_member,
};
use crate::types::database_ids::{ItemId, ObjectId, RepositoryId};
use crate::types::item::ItemView;
use vstd::prelude::*;

verus! {

/// The row at place `i` is one that the query and the trash filter take.
pub open spec fn row_taken(items: Seq<ItemView>, query: ItemQueryView, trash: Trash, i: int) -> bool {
    trash.admits(items[i].in_trash) && query_takes(
        items,
        query,
        materialized(items, items[i]),
    )
}

/// The row stands for one of the first `n` rows of the table that the
/// query and the trash filter take.
pub open spec fn read_from(
    items: Seq<ItemView>,
    query: ItemQueryView,
    trash: Trash,
    n: int,
    row: ItemView,
) -> bool {
    exists|i: int|
        0 <= i < n && #[trigger] row_taken(items, query, trash, i) && row == materialized(
            items,
            items[i],
        )
}

/// A read returns the rows of the table that the query and the trash
/// filter take, each as a reader sees it, and nothing else.
pub proof fn lemma_selected_rows(items: Seq<ItemView>, query: ItemQueryView, trash: Trash, n: int)
    requires
        0 <= n <= items.len(),
    ensures
        forall|j: int|
            0 <= j < selected(items, query, trash, n).len() ==> read_from(
                items,
                query,
                trash,
                n,
                #[trigger] selected(items, query, trash, n)[j],
            ),
        forall|i: int|
            0 <= i < n && #[trigger] row_taken(items, query, trash, i) ==> selected(
                items,
                query,
                trash,
                n,
            ).contains(materialized(items, items[i])),
    decreases n,
{
    if n > 0 {
        lemma_selected_rows(items, query, trash, n - 1);
        let before = selected(items, query, trash, n - 1);
        let now = selected(items, query, trash, n);
        assert forall|j: int| 0 <= j < now.len() implies read_from(
            items,
            query,
            trash,
            n,
            #[trigger] now[j],
        ) by {
            if j < before.len() {
                assert(now[j] == before[j]);
                assert(read_from(items, query, trash, n - 1, before[j]));
                let i = choose|i: int|
                    0 <= i < n - 1 && #[trigger] row_taken(items, query, trash, i) && before[j]
                        == materialized(items, items[i]);
                assert(0 <= i < n && row_taken(items, query, trash, i));
            } else {
                assert(row_taken(items, query, trash, n - 1));
            }
        }
        assert forall|i: int| 0 <= i < n && #[trigger] row_taken(items, query, trash, i) implies now.contains(
            materialized(items, items[i]),
        ) by {
            if i < n - 1 {
                assert(before.contains(materialized(items, items[i])));
                let j = choose|j: int|
                    0 <= j < before.len() && before[j] == materialized(items, items[i]);
                assert(now[j] == before[j]);
            } else {
                assert(now[now.len() - 1] == materialized(items, items[i]));
            }
        }
    }
}

/// The boundary of the trash. The listing of the trash of a repository
/// holds a row of it exactly where the row is in the trash and has no
/// parent, or has a parent of the same repository that is out of the
/// trash. So an item that went to the trash with its parent is not listed
/// beside it, and an item that went there alone is.
pub proof fn lemma_trash_root_boundary(items: Seq<ItemView>, repository: RepositoryId, i: int)
    requires
        0 <= i < items.len(),
    ensures
        is_trash_root(items, repository, items[i]) ==> select_all(
            items,
            ItemQueryView::TrashRoots(repository),
            Trash::Both,
        ).contains(materialized(items, items[i])),
        items[i].parent_item is Some && lookup(items, items[i].parent_item->0) is Some && lookup(
            items,
            items[i].parent_item->0,
        )->0.in_trash ==> !is_trash_root(items, repository, items[i]),
        items[i].in_trash && items[i].repository == repository && items[i].parent_item is None
            ==> is_trash_root(items, repository, items[i]),
        forall|j: int|
            #![trigger select_all(items, ItemQueryView::TrashRoots(repository), Trash::Both)[j]]
            0 <= j < select_all(
                items,
                ItemQueryView::TrashRoots(repository),
                Trash::Both,
            ).len() ==> is_trash_root(
                items,
                repository,
                select_all(items, ItemQueryView::TrashRoots(repository), Trash::Both)[j],
            ),
{
    let query = ItemQueryView::TrashRoots(repository);
    let n = items.len() as int;
    lemma_selected_rows(items, query, Trash::Both, n);
    let listed = select_all(items, query, Trash::Both);
    if is_trash_root(items, repository, items[i]) {
        assert(is_trash_root(items, repository, materialized(items, items[i])));
        assert(row_taken(items, query, Trash::Both, i));
    }
    assert forall|j: int| 0 <= j < listed.len() implies is_trash_root(
        items,
        repository,
        #[trigger] listed[j],
    ) by {
        assert(read_from(items, query, Trash::Both, n, listed[j]));
    }
}

/// Deleting a subtree is complete and touches nothing else. Of the items,
/// those of the subtree are gone and all others stay as they were. Of the
/// objects, one is gone exactly where a file of the subtree had it as its
/// content and no file outside it has: an object that a file elsewhere
/// refers to survives.
pub proof fn lemma_delete_is_complete(
    items: Seq<ItemView>,
    objects: Seq<ObjectView>,
    root: ItemId,
)
    ensures
        forall|j: int|
            0 <= j < items_after_delete(items, root).len() ==> items.contains(
                #[trigger] items_after_delete(items, root)[j],
            ) && !in_subtree(items, root, items_after_delete(items, root)[j].id),
        forall|i: int|
            0 <= i < items.len() && !in_subtree(items, root, (#[trigger] items[i]).id)
                ==> items_after_delete(items, root).contains(items[i]),
        forall|j: int|
            0 <= j < objects_after_delete(items, objects, root).len() ==> objects.contains(
                #[trigger] objects_after_delete(items, objects, root)[j],
            ) && !released(items, root, objects_after_delete(items, objects, root)[j].id),
        forall|i: int|
            0 <= i < objects.len() && !released(items, root, (#[trigger] objects[i]).id)
                ==> objects_after_delete(items, objects, root).contains(objects[i]),
        forall|i: int|
            0 <= i < objects.len() && used_outside(items, root, (#[trigger] objects[i]).id)
                ==> objects_after_delete(items, objects, root).contains(objects[i]),
{
    let n = items.len() as int;
    let keep = outside_flags(items, root);
    let after = items_after_delete(items, root);
    lemma_kept_member(items, keep, n);
    assert forall|j: int| 0 <= j < after.len() implies items.contains(#[trigger] after[j])
        && !in_subtree(items, root, after[j].id) by {
        assert(kept_row(items, keep, n, after[j]));
        let k = choose|k: int| 0 <= k < n && #[trigger] keep[k] && items[k] == after[j];
        assert(items[k] == after[j]);
    }
    assert forall|i: int|
        0 <= i < items.len() && !in_subtree(items, root, (#[trigger] items[i]).id) implies after.contains(
        items[i],
    ) by {
        assert(keep[i]);
        lemma_kept_holds(items, keep, n, i);
    }
    let m = objects.len() as int;
    let stay = unreleased_flags(items, objects, root);
    let left = objects_after_delete(items, objects, root);
    lemma_kept_member(objects, stay, m);
    assert forall|j: int| 0 <= j < left.len() implies objects.contains(#[trigger] left[j])
        && !released(items, root, left[j].id) by {
        assert(kept_row(objects, stay, m, left[j]));
        let k = choose|k: int| 0 <= k < m && #[trigger] stay[k] && objects[k] == left[j];
        assert(objects[k] == left[j]);
    }
    assert forall|i: int|
        0 <= i < objects.len() && !released(items, root, (#[trigger] objects[i]).id) implies left.contains(
        objects[i],
    ) by {
        assert(stay[i]);
        lemma_kept_holds(objects, stay, m, i);
    }
}

/// Deleting subtrees one after the other leaves only rows that the table
/// had, and none that has the key of one of the deleted items.
pub proof fn lemma_deletes_remove_roots(items: Seq<ItemView>, roots: Seq<ItemId>, n: int)
    requires
        0 <= n <= roots.len(),
    ensures
        forall|j: int|
            0 <= j < items_after_deletes(items, roots, n).len() ==> items.contains(
                #[trigger] items_after_deletes(items, roots, n)[j],
            ) && forall|k: int|
                0 <= k < n ==> items_after_deletes(items, roots, n)[j].id != #[trigger] roots[k],
    decreases n,
{
    if n > 0 {
        lemma_deletes_remove_roots(items, roots, n - 1);
        let before = items_after_deletes(items, roots, n - 1);
        let after = items_after_deletes(items, roots, n);
        let root = roots[n - 1];
        lemma_delete_is_complete(before, Seq::<ObjectView>::empty(), root);
        assert forall|j: int| 0 <= j < after.len() implies items.contains(#[trigger] after[j])
            && forall|k: int| 0 <= k < n ==> after[j].id != #[trigger] roots[k] by {
            assert(before.contains(after[j]));
            let i = choose|i: int| 0 <= i < before.len() && before[i] == after[j];
            assert(items.contains(before[i]));
            assert(!in_subtree(before, root, after[j].id));
            assert forall|k: int| 0 <= k < n implies after[j].id != #[trigger] roots[k] by {
                if k < n - 1 {
                    assert(before[i].id != roots[k]);
                }
            }
        }
    } else {
        let after = items_after_deletes(items, roots, n);
        assert forall|j: int| 0 <= j < after.len() implies items.contains(#[trigger] after[j]) by {
            assert(items[j] == after[j]);
        }
    }
}

/// Deleting a repository leaves none of its items: after the subtree of
/// each item of the repository has been deleted, no row of the item table
/// belongs to the repository.
pub proof fn lemma_repository_delete_leaves_no_item(
    items: Seq<ItemView>,
    repository: RepositoryId,
)
    ensures
        ({
            let roots = keys_of(
                select_all(items, ItemQueryView::Repository(repository), Trash::Both),
            );
            let after = items_after_deletes(items, roots, roots.len() as int);
            forall|j: int| 0 <= j < after.len() ==> (#[trigger] after[j]).repository != repository
        }),
{
    let query = ItemQueryView::Repository(repository);
    let listed = select_all(items, query, Trash::Both);
    let roots = keys_of(listed);
    let after = items_after_deletes(items, roots, roots.len() as int);
    lemma_deletes_remove_roots(items, roots, roots.len() as int);
    lemma_selected_rows(items, query, Trash::Both, items.len() as int);
    assert forall|j: int| 0 <= j < after.len() implies (#[trigger] after[j]).repository
        != repository by {
        if after[j].repository == repository {
            assert(items.contains(after[j]));
            let i = choose|i: int| 0 <= i < items.len() && items[i] == after[j];
            assert(row_taken(items, query, Trash::Both, i));
            let seen = materialized(items, items[i]);
            assert(listed.contains(seen));
            let k = choose|k: int| 0 <= k < listed.len() && listed[k] == seen;
            assert(roots[k] == seen.id);
            assert(after[j].id != roots[k]);
        }
    }
}

/// No row among the first `n` has the key: a read by the key takes none
/// of them.
pub proof fn lemma_key_not_among(items: Seq<ItemView>, key: ItemId, n: int)
    requires
        0 <= n <= items.len(),
        forall|i: int| 0 <= i < n ==> (#[trigger] items[i]).id != key,
    ensures
        selected(items, ItemQueryView::Id(key), Trash::Both, n) == Seq::<ItemView>::empty(),
    decreases n,
{
    if n > 0 {
        lemma_key_not_among(items, key, n - 1);
        assert(items[n - 1].id != key);
    }
}

/// A key, once given, finds its item. After an item has been inserted
/// under a key that no row had, a read by that key returns that item and
/// no other, with the key it was given, in or out of the trash.
pub proof fn lemma_inserted_is_found(items: Seq<ItemView>, row: ItemView)
    requires
        lookup(items, row.id) is None,
    ensures
        select_all(items.push(row), ItemQueryView::Id(row.id), Trash::Both) == seq![
            materialized(items.push(row), row),
        ],
        select_all(items.push(row), ItemQueryView::Id(row.id), Trash::Both)[0].id == row.id,
{
    let longer = items.push(row);
    let n = items.len() as int;
    crate::database::model::lemma_lookup_found(items, row.id);
    assert forall|i: int| 0 <= i < n implies (#[trigger] longer[i]).id != row.id by {
        assert(longer[i] == items[i]);
    }
    lemma_key_not_among(longer, row.id, n);
    assert(longer[n] == row);
    assert(select_all(longer, ItemQueryView::Id(row.id), Trash::Both) =~= seq![
        materialized(longer, row),
    ]);
}

/// Releasing objects twice is releasing them once: the keys that were
/// released name no object any more.
pub proof fn lemma_release_is_idempotent(objects: Seq<ObjectView>, ids: Seq<ObjectId>)
    ensures
        objects_without(objects_without(objects, ids), ids) == objects_without(objects, ids),
{
    let once = objects_without(objects, ids);
    let flags = other_flags(objects, ids);
    lemma_kept_member(objects, flags, objects.len() as int);
    let again = other_flags(once, ids);
    assert forall|i: int| 0 <= i < once.len() implies again[i] by {
        assert(kept_row(objects, flags, objects.len() as int, once[i]));
        let k = choose|k: int| 0 <= k < objects.len() && #[trigger] flags[k] && objects[k] == once[i];
        assert(!ids.contains(objects[k].id));
    }
    lemma_kept_all(once, again, once.len() as int);
    assert(once.take(once.len() as int) =~= once);
}

/// The trash takes a whole subtree or none of it. After an item has been
/// put in the trash or taken out of it, each row of its subtree is in the
/// state asked for, each other row is as it was, and no row has changed
/// but in its trash state.
pub proof fn lemma_trash_takes_the_subtree(items: Seq<ItemView>, root: ItemId, in_trash: bool)
    ensures
        items_with_trash(items, root, in_trash).len() == items.len(),
        forall|i: int|
            0 <= i < items.len() ==> (#[trigger] items_with_trash(items, root, in_trash)[i])
                == (if in_subtree(items, root, items[i].id) {
                ItemView { in_trash, ..items[i] }
            } else {
                items[i]
            }),
        forall|i: int|
            0 <= i < items.len() && in_subtree(items, root, items[i].id) ==> (
            #[trigger] items_with_trash(items, root, in_trash)[i]).in_trash == in_trash,
{
}

/// A row and what the trash made of it have the same key and parent.
pub proof fn lemma_trash_keeps_the_tree(
    items: Seq<ItemView>,
    root: ItemId,
    in_trash: bool,
    id: ItemId,
)
    ensures
        match (lookup(items, id), lookup(items_with_trash(items, root, in_trash), id)) {
            (Some(before), Some(after)) => before.id == after.id && before.parent_item
                == after.parent_item,
            (None, None) => true,
            _ => false,
        },
    decreases items.len(),
{
    let after = items_with_trash(items, root, in_trash);
    lemma_lookup_places(items, id);
    lemma_lookup_places(after, id);
    match lookup(items, id) {
        Some(_) => {
            let k = first_place(items, id);
            assert(after[k].id == id);
            assert forall|j: int| 0 <= j < k implies (#[trigger] after[j]).id != id by {
                assert(items[j].id != id);
            }
            lemma_place_is_lookup(after, id, k);
        },
        None => {
            assert forall|j: int| 0 <= j < after.len() implies (#[trigger] after[j]).id != id by {
                assert(items[j].id != id);
            }
            lemma_no_place(after, id);
        },
    }
}

/// The place of the first row with the key, or the length of the table.
pub open spec fn first_place(items: Seq<ItemView>, id: ItemId) -> int
    decreases items.len(),
{
    if items.len() == 0 || items[0].id == id {
        0
    } else {
        1 + first_place(items.drop_first(), id)
    }
}

/// `lookup` returns the first row with the key.
pub proof fn lemma_lookup_places(items: Seq<ItemView>, id: ItemId)
    ensures
        0 <= first_place(items, id) <= items.len(),
        forall|j: int| 0 <= j < first_place(items, id) ==> (#[trigger] items[j]).id != id,
        match lookup(items, id) {
            Some(row) => first_place(items, id) < items.len() && row == items[first_place(
                items,
                id,
            )] && row.id == id,
            None => first_place(items, id) == items.len(),
        },
    decreases items.len(),
{
    if items.len() > 0 && items[0].id != id {
        let rest = items.drop_first();
        lemma_lookup_places(rest, id);
        assert forall|j: int| 0 <= j < first_place(items, id) implies (#[trigger] items[j]).id
            != id by {
            if j > 0 {
                assert(items[j] == rest[j - 1]);
            }
        }
    }
}

/// The first row with the key is what `lookup` returns.
pub proof fn lemma_place_is_lookup(items: Seq<ItemView>, id: ItemId, k: int)
    requires
        0 <= k < items.len(),
        items[k].id == id,
        forall|j: int| 0 <= j < k ==> (#[trigger] items[j]).id != id,
    ensures
        lookup(items, id) == Some(items[k]),
    decreases items.len(),
{
    if k > 0 {
        assert(items[0].id != id);
        let rest = items.drop_first();
        assert forall|j: int| 0 <= j < k - 1 implies (#[trigger] rest[j]).id != id by {
            assert(rest[j] == items[j + 1]);
        }
        lemma_place_is_lookup(rest, id, k - 1);
    }
}

/// Where no row has the key, `lookup` finds none.
pub proof fn lemma_no_place(items: Seq<ItemView>, id: ItemId)
    requires
        forall|j: int| 0 <= j < items.len() ==> (#[trigger] items[j]).id != id,
    ensures
        lookup(items, id) is None,
    decreases items.len(),
{
    if items.len() > 0 {
        assert(items[0].id != id);
        let rest = items.drop_first();
        assert forall|j: int| 0 <= j < rest.len() implies (#[trigger] rest[j]).id != id by {
            assert(rest[j] == items[j + 1]);
        }
        lemma_no_place(rest, id);
    }
}

/// The trash moves no item: what lies below an item before it is put in
/// the trash or taken out lies below it afterwards, and nothing else.
pub proof fn lemma_trash_keeps_subtrees(
    items: Seq<ItemView>,
    root: ItemId,
    in_trash: bool,
    id: ItemId,
    above: ItemId,
    fuel: nat,
)
    ensures
        reaches(items_with_trash(items, root, in_trash), id, above, fuel) == reaches(
            items,
            id,
            above,
            fuel,
        ),
    decreases fuel,
{
    let after = items_with_trash(items, root, in_trash);
    lemma_trash_keeps_the_tree(items, root, in_trash, id);
    if id != above && fuel > 0 {
        match lookup(items, id) {
            Some(row) => match row.parent_item {
                Some(parent) => {
                    lemma_trash_keeps_subtrees(
                        items,
                        root,
                        in_trash,
                        parent,
                        above,
                        (fuel - 1) as nat,
                    );
                },
                None => {},
            },
            None => {},
        }
    }
}

/// Taking out of the trash what was put there gives the table back, where
/// no item of the subtree was in the trash before.
pub proof fn lemma_restore_undoes_trash(items: Seq<ItemView>, root: ItemId)
    requires
        forall|i: int|
            0 <= i < items.len() && in_subtree(items, root, (#[trigger] items[i]).id)
                ==> !items[i].in_trash,
    ensures
        items_with_trash(items_with_trash(items, root, true), root, false) == items,
{
    let trashed = items_with_trash(items, root, true);
    let restored = items_with_trash(trashed, root, false);
    assert forall|i: int| 0 <= i < items.len() implies restored[i] == items[i] by {
        lemma_trash_keeps_subtrees(items, root, true, items[i].id, root, items.len());
        assert(trashed[i].id == items[i].id);
        assert(in_subtree(trashed, root, trashed[i].id) == in_subtree(items, root, items[i].id));
    }
    assert(restored =~= items);
}

/// A walk that comes to `above` comes to it with more steps allowed too.
pub proof fn lemma_more_fuel(items: Seq<ItemView>, id: ItemId, above: ItemId, fuel: nat, more: nat)
    requires
        fuel <= more,
        reaches(items, id, above, fuel),
    ensures
        reaches(items, id, above, more),
    decreases fuel,
{
    if id != above {
        match lookup(items, id) {
            Some(row) => match row.parent_item {
                Some(parent) => {
                    lemma_more_fuel(
                        items,
                        parent,
                        above,
                        (fuel - 1) as nat,
                        (more - 1) as nat,
                    );
                },
                None => {},
            },
            None => {},
        }
    }
}

/// A row that is left after a delete is the row that its key named before.
proof fn lemma_left_row_is_old_row(items: Seq<ItemView>, root: ItemId, id: ItemId)
    requires
        distinct_by(items, item_key()),
        lookup(items_after_delete(items, root), id) is Some,
    ensures
        lookup(items, id) == lookup(items_after_delete(items, root), id),
        !in_subtree(items, root, id),
{
    let left = items_after_delete(items, root);
    let row = lookup(left, id)->0;
    lemma_lookup_places(left, id);
    lemma_lookup_places(items, id);
    lemma_delete_is_complete(items, Seq::<ObjectView>::empty(), root);
    let j = first_place(left, id);
    assert(left[j] == row);
    assert(items.contains(left[j]));
    let k = choose|k: int| 0 <= k < items.len() && items[k] == row;
    let first = first_place(items, id);
    assert(first <= k);
    if first < k {
        assert(item_key()(items[first]) != item_key()(items[k]));
    }
    assert(!in_subtree(items, root, left[j].id));
}

/// A walk in the table that a delete left is a walk in the table before.
proof fn lemma_walk_after_delete(
    items: Seq<ItemView>,
    root: ItemId,
    id: ItemId,
    above: ItemId,
    fuel: nat,
)
    requires
        distinct_by(items, item_key()),
        reaches(items_after_delete(items, root), id, above, fuel),
    ensures
        reaches(items, id, above, fuel),
    decreases fuel,
{
    let left = items_after_delete(items, root);
    if id != above {
        lemma_left_row_is_old_row(items, root, id);
        let row = lookup(left, id)->0;
        lemma_walk_after_delete(items, root, row.parent_item->0, above, (fuel - 1) as nat);
    }
}

/// Deleting twice is deleting once. After the subtree of an item has been
/// deleted, deleting it again takes away no item and releases no object.
pub proof fn lemma_delete_is_idempotent(
    items: Seq<ItemView>,
    objects: Seq<ObjectView>,
    root: ItemId,
)
    requires
        distinct_by(items, item_key()),
    ensures
        items_after_delete(items_after_delete(items, root), root) == items_after_delete(
            items,
            root,
        ),
        objects_after_delete(
            items_after_delete(items, root),
            objects_after_delete(items, objects, root),
            root,
        ) == objects_after_delete(items, objects, root),
{
    let left = items_after_delete(items, root);
    let kept_objects = objects_after_delete(items, objects, root);
    lemma_delete_is_complete(items, objects, root);
    lemma_kept_member(items, outside_flags(items, root), items.len() as int);
    assert(left.len() <= items.len());
    assert forall|i: int| 0 <= i < left.len() implies !in_subtree(
        left,
        root,
        (#[trigger] left[i]).id,
    ) by {
        if in_subtree(left, root, left[i].id) {
            lemma_walk_after_delete(items, root, left[i].id, root, left.len());
            lemma_more_fuel(items, left[i].id, root, left.len(), items.len());
            assert(!in_subtree(items, root, left[i].id));
        }
    }
    let flags = outside_flags(left, root);
    assert forall|i: int| 0 <= i < left.len() implies flags[i] by {
        assert(!in_subtree(left, root, left[i].id));
    }
    lemma_kept_all(left, flags, left.len() as int);
    assert(left.take(left.len() as int) =~= left);
    let stay = unreleased_flags(left, kept_objects, root);
    assert forall|i: int| 0 <= i < kept_objects.len() implies stay[i] by {
        if used_inside(left, root, kept_objects[i].id) {
            let j = choose|j: int|
                0 <= j < left.len() && in_subtree(left, root, (#[trigger] left[j]).id)
                    && left[j].file is Some && left[j].file->0.object == kept_objects[i].id;
            assert(!in_subtree(left, root, left[j].id));
        }
    }
    lemma_kept_all(kept_objects, stay, kept_objects.len() as int);
    assert(kept_objects.take(kept_objects.len() as int) =~= kept_objects);
}

/// Each item whose parent is in the table belongs to the repository of its
/// parent: no tree reaches from one repository into another.
pub open spec fn parents_share_repository(items: Seq<ItemView>) -> bool {
    forall|i: int|
        0 <= i < items.len() && (#[trigger] items[i]).parent_item is Some ==> match lookup(
            items,
            items[i].parent_item->0,
        ) {
            Some(parent) => parent.repository == items[i].repository,
            None => true,
        }
}

/// Each of the keys is the key of an item of the repository.
pub open spec fn keys_in_repository(
    items: Seq<ItemView>,
    repository: RepositoryId,
    roots: Seq<ItemId>,
) -> bool {
    forall|k: int|
        0 <= k < roots.len() ==> lookup(items, #[trigger] roots[k]) is Some && lookup(
            items,
            roots[k],
        )->0.repository == repository
}

/// Some file of the table has the object as its content.
pub open spec fn is_used(items: Seq<ItemView>, object: ObjectId) -> bool {
    exists|i: int|
        0 <= i < items.len() && (#[trigger] items[i]).file is Some && items[i].file->0.object
            == object
}

/// Where no tree reaches from one repository into another, a walk up from
/// an item never comes to an item of another repository.
pub proof fn lemma_walk_stays_in_repository(
    items: Seq<ItemView>,
    id: ItemId,
    root: ItemId,
    fuel: nat,
)
    requires
        parents_share_repository(items),
        lookup(items, id) is Some,
        lookup(items, root) is Some,
        lookup(items, id)->0.repository != lookup(items, root)->0.repository,
    ensures
        !reaches(items, id, root, fuel),
    decreases fuel,
{
    assert(id != root);
    if fuel > 0 {
        let row = lookup(items, id)->0;
        crate::database::model::lemma_lookup_found(items, id);
        let k = choose|k: int| 0 <= k < items.len() && items[k] == row;
        assert(items[k].parent_item == row.parent_item);
        match row.parent_item {
            Some(parent) => match lookup(items, parent) {
                Some(above) => {
                    assert(above.repository == row.repository);
                    lemma_walk_stays_in_repository(items, parent, root, (fuel - 1) as nat);
                },
                None => {
                    assert(parent != root);
                    assert(!reaches(items, parent, root, (fuel - 1) as nat));
                },
            },
            None => {},
        }
    }
}

/// The row at a place of a table without two equal keys is the row that
/// its key names.
pub proof fn lemma_row_is_named(items: Seq<ItemView>, i: int)
    requires
        distinct_by(items, item_key()),
        0 <= i < items.len(),
    ensures
        lookup(items, items[i].id) == Some(items[i]),
{
    assert forall|j: int| 0 <= j < i implies (#[trigger] items[j]).id != items[i].id by {
        assert(item_key()(items[j]) != item_key()(items[i]));
    }
    lemma_place_is_lookup(items, items[i].id, i);
}

/// The tables that deletes leave have no two equal keys and grow no longer.
pub proof fn lemma_tables_after_deletes(items: Seq<ItemView>, roots: Seq<ItemId>, n: int)
    requires
        distinct_by(items, item_key()),
        0 <= n <= roots.len(),
    ensures
        distinct_by(items_after_deletes(items, roots, n), item_key()),
        items_after_deletes(items, roots, n).len() <= items.len(),
    decreases n,
{
    if n > 0 {
        lemma_tables_after_deletes(items, roots, n - 1);
        let before = items_after_deletes(items, roots, n - 1);
        let flags = outside_flags(before, roots[n - 1]);
        lemma_kept_distinct(before, flags, before.len() as int, item_key());
        lemma_kept_member(before, flags, before.len() as int);
    }
}

/// A walk in a table that deletes left is a walk in the table before them.
proof fn lemma_walk_after_deletes(
    items: Seq<ItemView>,
    roots: Seq<ItemId>,
    n: int,
    id: ItemId,
    above: ItemId,
    fuel: nat,
)
    requires
        distinct_by(items, item_key()),
        0 <= n <= roots.len(),
        reaches(items_after_deletes(items, roots, n), id, above, fuel),
    ensures
        reaches(items, id, above, fuel),
    decreases n,
{
    if n > 0 {
        lemma_tables_after_deletes(items, roots, n - 1);
        lemma_walk_after_delete(
            items_after_deletes(items, roots, n - 1),
            roots[n - 1],
            id,
            above,
            fuel,
        );
        lemma_walk_after_deletes(items, roots, n - 1, id, above, fuel);
    }
}

/// In a table that deletes of items of a repository left, an item of
/// another repository lies below none of the items of that repository.
proof fn lemma_other_is_outside(
    items: Seq<ItemView>,
    repository: RepositoryId,
    roots: Seq<ItemId>,
    n: int,
    k: int,
    i: int,
)
    requires
        distinct_by(items, item_key()),
        parents_share_repository(items),
        keys_in_repository(items, repository, roots),
        0 <= n <= roots.len(),
        0 <= k < roots.len(),
        0 <= i < items.len(),
        items[i].repository != repository,
    ensures
        !in_subtree(items_after_deletes(items, roots, n), roots[k], items[i].id),
{
    let table = items_after_deletes(items, roots, n);
    if in_subtree(table, roots[k], items[i].id) {
        lemma_walk_after_deletes(items, roots, n, items[i].id, roots[k], table.len());
        lemma_row_is_named(items, i);
        assert(lookup(items, roots[k]) is Some);
        lemma_walk_stays_in_repository(items, items[i].id, roots[k], table.len());
    }
}

/// Deletes of items of a repository leave each item of another repository.
proof fn lemma_others_stay(
    items: Seq<ItemView>,
    repository: RepositoryId,
    roots: Seq<ItemId>,
    n: int,
    i: int,
)
    requires
        distinct_by(items, item_key()),
        parents_share_repository(items),
        keys_in_repository(items, repository, roots),
        0 <= n <= roots.len(),
        0 <= i < items.len(),
        items[i].repository != repository,
    ensures
        items_after_deletes(items, roots, n).contains(items[i]),
    decreases n,
{
    if n > 0 {
        lemma_others_stay(items, repository, roots, n - 1, i);
        let before = items_after_deletes(items, roots, n - 1);
        let j = choose|j: int| 0 <= j < before.len() && before[j] == items[i];
        lemma_other_is_outside(items, repository, roots, n - 1, n - 1, i);
        let flags = outside_flags(before, roots[n - 1]);
        assert(flags[j]);
        lemma_kept_holds(before, flags, before.len() as int, j);
    } else {
        assert(items_after_deletes(items, roots, n)[i] == items[i]);
    }
}

/// The keys of the items of a repository, as a read lists them, are keys
/// of items of the repository.
pub proof fn lemma_listed_keys(items: Seq<ItemView>, repository: RepositoryId)
    requires
        distinct_by(items, item_key()),
    ensures
        keys_in_repository(
            items,
            repository,
            keys_of(select_all(items, ItemQueryView::Repository(repository), Trash::Both)),
        ),
{
    let query = ItemQueryView::Repository(repository);
    let listed = select_all(items, query, Trash::Both);
    let roots = keys_of(listed);
    lemma_selected_rows(items, query, Trash::Both, items.len() as int);
    assert forall|k: int| 0 <= k < roots.len() implies lookup(items, #[trigger] roots[k])
        is Some && lookup(items, roots[k])->0.repository == repository by {
        assert(read_from(items, query, Trash::Both, items.len() as int, listed[k]));
        let i = choose|i: int|
            0 <= i < items.len() && #[trigger] row_taken(items, query, Trash::Both, i)
                && listed[k] == materialized(items, items[i]);
        lemma_row_is_named(items, i);
        assert(roots[k] == items[i].id);
    }
}

/// Deleting a repository leaves the items of the other repositories, where
/// no tree reaches from one repository into another.
pub proof fn lemma_repository_delete_keeps_others(
    items: Seq<ItemView>,
    repository: RepositoryId,
)
    requires
        distinct_by(items, item_key()),
        parents_share_repository(items),
    ensures
        ({
            let roots = keys_of(
                select_all(items, ItemQueryView::Repository(repository), Trash::Both),
            );
            let after = items_after_deletes(items, roots, roots.len() as int);
            forall|i: int|
                0 <= i < items.len() && (#[trigger] items[i]).repository != repository
                    ==> after.contains(items[i])
        }),
{
    let roots = keys_of(select_all(items, ItemQueryView::Repository(repository), Trash::Both));
    let after = items_after_deletes(items, roots, roots.len() as int);
    lemma_listed_keys(items, repository);
    assert forall|i: int|
        0 <= i < items.len() && (#[trigger] items[i]).repository != repository implies after.contains(
        items[i],
    ) by {
        lemma_others_stay(items, repository, roots, roots.len() as int, i);
    }
}

/// Deletes of items of a repository leave each object that a file of
/// another repository has as its content.
proof fn lemma_used_objects_stay(
    items: Seq<ItemView>,
    objects: Seq<ObjectView>,
    repository: RepositoryId,
    roots: Seq<ItemId>,
    n: int,
    m: int,
    i: int,
)
    requires
        distinct_by(items, item_key()),
        parents_share_repository(items),
        keys_in_repository(items, repository, roots),
        0 <= n <= roots.len(),
        0 <= m < objects.len(),
        0 <= i < items.len(),
        items[i].repository != repository,
        items[i].file is Some,
        items[i].file->0.object == objects[m].id,
    ensures
        objects_after_deletes(items, objects, roots, n).contains(objects[m]),
    decreases n,
{
    if n > 0 {
        lemma_used_objects_stay(items, objects, repository, roots, n - 1, m, i);
        let table = items_after_deletes(items, roots, n - 1);
        let before = objects_after_deletes(items, objects, roots, n - 1);
        let root = roots[n - 1];
        let j = choose|j: int| 0 <= j < before.len() && before[j] == objects[m];
        lemma_others_stay(items, repository, roots, n - 1, i);
        let t = choose|t: int| 0 <= t < table.len() && table[t] == items[i];
        lemma_other_is_outside(items, repository, roots, n - 1, n - 1, i);
        assert(!in_subtree(table, root, table[t].id));
        assert(used_outside(table, root, objects[m].id));
        let flags = unreleased_flags(table, before, root);
        assert(flags[j]);
        lemma_kept_holds(before, flags, before.len() as int, j);
    } else {
        assert(objects_after_deletes(items, objects, roots, n)[m] == objects[m]);
    }
}

/// Deleting a repository leaves each object that a file of another
/// repository has as its content, where no tree reaches from one
/// repository into another.
pub proof fn lemma_repository_delete_keeps_used_objects(
    items: Seq<ItemView>,
    objects: Seq<ObjectView>,
    repository: RepositoryId,
)
    requires
        distinct_by(items, item_key()),
        parents_share_repository(items),
    ensures
        ({
            let roots = keys_of(
                select_all(items, ItemQueryView::Repository(repository), Trash::Both),
            );
            let after = objects_after_deletes(items, objects, roots, roots.len() as int);
            forall|m: int, i: int|
                0 <= m < objects.len() && 0 <= i < items.len() && (
                #[trigger] items[i]).repository != repository && items[i].file is Some
                    && items[i].file->0.object == (#[trigger] objects[m]).id ==> after.contains(
                    objects[m],
                )
        }),
{
    let roots = keys_of(select_all(items, ItemQueryView::Repository(repository), Trash::Both));
    let after = objects_after_deletes(items, objects, roots, roots.len() as int);
    lemma_listed_keys(items, repository);
    assert forall|m: int, i: int|
        0 <= m < objects.len() && 0 <= i < items.len() && (#[trigger] items[i]).repository
            != repository && items[i].file is Some && items[i].file->0.object == (
        #[trigger] objects[m]).id implies after.contains(objects[m]) by {
        lemma_used_objects_stay(items, objects, repository, roots, roots.len() as int, m, i);
    }
}

/// Once deletes have taken away every file that had an object as its
/// content, the object is released.
proof fn lemma_unused_object_is_released(
    items: Seq<ItemView>,
    objects: Seq<ObjectView>,
    roots: Seq<ItemId>,
    n: int,
    object: ObjectId,
)
    requires
        0 <= n <= roots.len(),
        is_used(items, object),
        !is_used(items_after_deletes(items, roots, n), object),
    ensures
        forall|j: int|
            0 <= j < objects_after_deletes(items, objects, roots, n).len() ==> (
            #[trigger] objects_after_deletes(items, objects, roots, n)[j]).id != object,
    decreases n,
{
    if n > 0 {
        let table = items_after_deletes(items, roots, n - 1);
        let left = items_after_deletes(items, roots, n);
        let before = objects_after_deletes(items, objects, roots, n - 1);
        let after = objects_after_deletes(items, objects, roots, n);
        let root = roots[n - 1];
        let flags = unreleased_flags(table, before, root);
        lemma_kept_member(before, flags, before.len() as int);
        assert forall|t: int|
            0 <= t < table.len() && (#[trigger] table[t]).file is Some && table[t].file->0.object
                == object implies in_subtree(table, root, table[t].id) by {
            if !in_subtree(table, root, table[t].id) {
                let keep = outside_flags(table, root);
                assert(keep[t]);
                lemma_kept_holds(table, keep, table.len() as int, t);
                let u = choose|u: int| 0 <= u < left.len() && left[u] == table[t];
                assert(left[u].file is Some && left[u].file->0.object == object);
            }
        }
        if is_used(table, object) {
            let t = choose|t: int|
                0 <= t < table.len() && (#[trigger] table[t]).file is Some
                    && table[t].file->0.object == object;
            assert(in_subtree(table, root, table[t].id));
            assert(used_inside(table, root, object));
            assert(!used_outside(table, root, object));
            assert forall|j: int| 0 <= j < after.len() implies (#[trigger] after[j]).id
                != object by {
                assert(kept_row(before, flags, before.len() as int, after[j]));
                let k = choose|k: int|
                    0 <= k < before.len() && #[trigger] flags[k] && before[k] == after[j];
                assert(!released(table, root, before[k].id));
            }
        } else {
            lemma_unused_object_is_released(items, objects, roots, n - 1, object);
            assert forall|j: int| 0 <= j < after.len() implies (#[trigger] after[j]).id
                != object by {
                assert(kept_row(before, flags, before.len() as int, after[j]));
                let k = choose|k: int|
                    0 <= k < before.len() && #[trigger] flags[k] && before[k] == after[j];
                assert(before[k].id != object);
            }
        }
    }
}

/// Deleting a repository releases each object that only its files had as
/// their content: where a file of the repository has the object and no
/// file of another repository has it, no object with that key is left.
pub proof fn lemma_repository_delete_releases_objects(
    items: Seq<ItemView>,
    objects: Seq<ObjectView>,
    repository: RepositoryId,
    object: ObjectId,
)
    requires
        is_used(items, object),
        forall|i: int|
            0 <= i < items.len() && (#[trigger] items[i]).file is Some && items[i].file->0.object
                == object ==> items[i].repository == repository,
    ensures
        ({
            let roots = keys_of(
                select_all(items, ItemQueryView::Repository(repository), Trash::Both),
            );
            let after = objects_after_deletes(items, objects, roots, roots.len() as int);
            forall|j: int| 0 <= j < after.len() ==> (#[trigger] after[j]).id != object
        }),
{
    let roots = keys_of(select_all(items, ItemQueryView::Repository(repository), Trash::Both));
    let n = roots.len() as int;
    let left = items_after_deletes(items, roots, n);
    lemma_repository_delete_leaves_no_item(items, repository);
    lemma_deletes_remove_roots(items, roots, n);
    if is_used(left, object) {
        let u = choose|u: int|
            0 <= u < left.len() && (#[trigger] left[u]).file is Some && left[u].file->0.object
                == object;
        assert(items.contains(left[u]));
        let i = choose|i: int| 0 <= i < items.len() && items[i] == left[u];
        assert(items[i].repository == repository);
        assert(left[u].repository != repository);
    }
    lemma_unused_object_is_released(items, objects, roots, n, object);
}

} // verus!
