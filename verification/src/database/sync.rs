use crate::database::{Database, item_views, repository_views};
use crate::database::object::{object_views, ObjectView};
use crate::database::subscription::Subscription;
use crate::database::table::kept;
use crate::error::Error;
use crate::types::item::ItemView;
use crate::types::repository::RepositoryView;
use vstd::prelude::*;

verus! {

/// What a read that must be unique found: nothing, or the one row. Fails
/// with `Inconsistent` where there is more than one row.
pub fn one_of<T>(mut rows: Vec<T>) -> (r: Result<Option<T>, Error>)
    ensures
        match r {
            Ok(Some(row)) => rows@.len() == 1 && row == rows@[0],
            Ok(None) => rows@.len() == 0,
            Err(e) => e == Error::Inconsistent && rows@.len() > 1,
        },
{
    if rows.len() > 1 {
        return Err(Error::Inconsistent);
    }
    Ok(rows.pop())
}

/// For each of the keys, whether it is none of the other keys.
pub open spec fn missing_flags(keys: Seq<i64>, others: Seq<i64>) -> Seq<bool> {
    Seq::new(keys.len(), |i: int| !others.contains(keys[i]))
}

/// The keys that are none of the other keys, in their order.
pub open spec fn missing_keys(keys: Seq<i64>, others: Seq<i64>) -> Seq<i64> {
    kept(keys, missing_flags(keys, others), keys.len() as int)
}

/// For each of the subscriptions, whether it is none of the others.
pub open spec fn missing_grant_flags(rows: Seq<Subscription>, others: Seq<Subscription>) -> Seq<
    bool,
> {
    Seq::new(rows.len(), |i: int| !others.contains(rows[i]))
}

/// The subscriptions that are none of the others, in their order.
pub open spec fn missing_grants(rows: Seq<Subscription>, others: Seq<Subscription>) -> Seq<
    Subscription,
> {
    kept(rows, missing_grant_flags(rows, others), rows.len() as int)
}

/// The keys of the given items.
pub open spec fn item_numbers(items: Seq<ItemView>) -> Seq<i64> {
    items.map_values(|row: ItemView| row.id.0)
}

/// The keys of the given objects.
pub open spec fn object_numbers(objects: Seq<ObjectView>) -> Seq<i64> {
    objects.map_values(|row: ObjectView| row.id.0)
}

/// The keys of the given repositories.
pub open spec fn repository_numbers(repositories: Seq<RepositoryView>) -> Seq<i64> {
    repositories.map_values(|row: RepositoryView| row.id.0)
}

/// Whether `key` is one of `keys`.
pub fn has_key(keys: &Vec<i64>, key: i64) -> (r: bool)
    ensures
        r == keys@.contains(key),
{
    let n = keys.len();
    let mut i: usize = 0;
    while i < n
        invariant
            i <= n,
            n == keys@.len(),
            forall|j: int| 0 <= j < i ==> keys@[j] != key,
        decreases n - i,
    {
        if keys[i] == key {
            return true;
        }
        i = i + 1;
    }
    false
}

/// The keys that are none of the other keys: the keys of the rows that a
/// change took away, where `keys` are those before it and `others` those
/// after it, and the keys of the rows that it added the other way round.
pub fn keys_missing(keys: &Vec<i64>, others: &Vec<i64>) -> (r: Vec<i64>)
    ensures
        r@ == missing_keys(keys@, others@),
{
    let ghost flags = missing_flags(keys@, others@);
    let n = keys.len();
    let mut out: Vec<i64> = Vec::new();
    let mut i: usize = 0;
    while i < n
        invariant
            i <= n,
            n == keys@.len(),
            flags == missing_flags(keys@, others@),
            out@ == kept(keys@, flags, i as int),
        decreases n - i,
    {
        if !has_key(others, keys[i]) {
            out.push(keys[i]);
        }
        i = i + 1;
    }
    out
}

/// The subscriptions that are none of the others.
pub fn subscriptions_missing(rows: &Vec<Subscription>, others: &Vec<Subscription>) -> (r: Vec<
    Subscription,
>)
    ensures
        r@ == missing_grants(rows@, others@),
{
    let ghost flags = missing_grant_flags(rows@, others@);
    let n = rows.len();
    let m = others.len();
    let mut out: Vec<Subscription> = Vec::new();
    let mut i: usize = 0;
    while i < n
        invariant
            i <= n,
            n == rows@.len(),
            m == others@.len(),
            flags == missing_grant_flags(rows@, others@),
            out@ == kept(rows@, flags, i as int),
        decreases n - i,
    {
        let row = rows[i];
        let mut found = false;
        let mut j: usize = 0;
        while j < m
            invariant
                j <= m,
                m == others@.len(),
                found == (exists|k: int| 0 <= k < j && others@[k] == row),
            decreases m - j,
        {
            if others[j] == row {
                found = true;
            }
            j = j + 1;
        }
        proof {
            assert(found == others@.contains(row));
        }
        if !found {
            out.push(row);
        }
        i = i + 1;
    }
    out
}

impl Database {
    /// The keys of the items, in the order of their table.
    pub fn item_keys(&self) -> (r: Vec<i64>)
        ensures
            r@ == item_numbers(self@.items),
    {
        proof {
            self.lemma_view();
        }
        let n = self.items.len();
        let mut out: Vec<i64> = Vec::new();
        let mut i: usize = 0;
        while i < n
            invariant
                i <= n,
                n == self.items@.len(),
                self@.items == item_views(self.items@),
                out@ == item_numbers(self@.items).take(i as int),
            decreases n - i,
        {
            proof {
                assert(item_numbers(self@.items).take(i + 1) =~= item_numbers(self@.items).take(
                    i as int,
                ).push(self@.items[i as int].id.0));
            }
            out.push(self.items[i].id().0);
            i = i + 1;
        }
        proof {
            assert(item_numbers(self@.items).take(n as int) =~= item_numbers(self@.items));
        }
        out
    }

    /// The keys of the objects, in the order of their table.
    pub fn object_keys(&self) -> (r: Vec<i64>)
        ensures
            r@ == object_numbers(self@.objects),
    {
        proof {
            self.lemma_view();
        }
        let n = self.objects.len();
        let mut out: Vec<i64> = Vec::new();
        let mut i: usize = 0;
        while i < n
            invariant
                i <= n,
                n == self.objects@.len(),
                self@.objects == object_views(self.objects@),
                out@ == object_numbers(self@.objects).take(i as int),
            decreases n - i,
        {
            proof {
                assert(object_numbers(self@.objects).take(i + 1) =~= object_numbers(
                    self@.objects,
                ).take(i as int).push(self@.objects[i as int].id.0));
            }
            out.push(self.objects[i].id().0);
            i = i + 1;
        }
        proof {
            assert(object_numbers(self@.objects).take(n as int) =~= object_numbers(self@.objects));
        }
        out
    }

    /// The keys of the repositories, in the order of their table.
    pub fn repository_keys(&self) -> (r: Vec<i64>)
        ensures
            r@ == repository_numbers(self@.repositories),
    {
        proof {
            self.lemma_view();
        }
        let n = self.repositories.len();
        let mut out: Vec<i64> = Vec::new();
        let mut i: usize = 0;
        while i < n
            invariant
                i <= n,
                n == self.repositories@.len(),
                self@.repositories == repository_views(self.repositories@),
                out@ == repository_numbers(self@.repositories).take(i as int),
            decreases n - i,
        {
            proof {
                assert(repository_numbers(self@.repositories).take(i + 1) =~= repository_numbers(
                    self@.repositories,
                ).take(i as int).push(self@.repositories[i as int].id.0));
            }
            out.push(self.repositories[i].id().0);
            i = i + 1;
        }
        proof {
            assert(repository_numbers(self@.repositories).take(n as int) =~= repository_numbers(
                self@.repositories,
            ));
        }
        out
    }
}

} // verus!
