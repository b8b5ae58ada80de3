use crate::database::{Database, object_key};
use crate::database::table::{
    kept, kept_row, lemma_kept_distinct, lemma_kept_map, lemma_kept_member, retain_flagged,
};
use crate::error::Error;
use crate::types::database_ids::{ItemId, ObjectId};
use vstd::prelude::*;

verus! {

/// A stored content blob, addressed by the hash of its content.
#[derive(Debug)]
pub struct Object {
    id: ObjectId,
    pub hash: String,
}

/// The mathematical value of an [`Object`].
pub ghost struct ObjectView {
    pub id: ObjectId,
    pub hash: Seq<char>,
}

impl View for Object {
    type V = ObjectView;

    closed spec fn view(&self) -> ObjectView {
        ObjectView { id: self.id, hash: self.hash@ }
    }
}

pub open spec fn object_views(objects: Seq<Object>) -> Seq<ObjectView> {
    objects.map_values(|o: Object| o@)
}

/// For each object, whether its key is none of `ids`.
pub open spec fn other_flags(objects: Seq<ObjectView>, ids: Seq<ObjectId>) -> Seq<bool> {
    Seq::new(objects.len(), |i: int| !ids.contains(objects[i].id))
}

/// The table without the objects whose key is one of `ids`.
pub open spec fn objects_without(objects: Seq<ObjectView>, ids: Seq<ObjectId>) -> Seq<ObjectView> {
    kept(objects, other_flags(objects, ids), objects.len() as int)
}

impl Object {
    pub fn id(&self) -> (r: &ObjectId)
        ensures
            *r == self@.id,
    {
        &self.id
    }

    pub fn hash(&self) -> (r: &String)
        ensures
            r@ == self@.hash,
    {
        &self.hash
    }

    /// The record of the content with the given hash under the key `id`.
    pub fn stored(id: ObjectId, hash: String) -> (r: Self)
        ensures
            r@ == (ObjectView { id, hash: hash@ }),
    {
        Object { id, hash }
    }
}

/// For each object, whether its key has the given number.
pub open spec fn key_flags(objects: Seq<ObjectView>, key: i64) -> Seq<bool> {
    Seq::new(objects.len(), |i: int| objects[i].id.0 == key)
}

/// The objects whose key has the given number.
pub open spec fn objects_with_key(objects: Seq<ObjectView>, key: i64) -> Seq<ObjectView> {
    kept(objects, key_flags(objects, key), objects.len() as int)
}

/// For each object, whether it has the given hash.
pub open spec fn hash_flags(objects: Seq<ObjectView>, hash: Seq<char>) -> Seq<bool> {
    Seq::new(objects.len(), |i: int| objects[i].hash == hash)
}

/// The objects with the given hash.
pub open spec fn objects_with_hash(objects: Seq<ObjectView>, hash: Seq<char>) -> Seq<ObjectView> {
    kept(objects, hash_flags(objects, hash), objects.len() as int)
}

impl Database {
    /// Copies of the objects that are marked.
    pub(crate) fn copy_objects(&self, keep: &Vec<bool>) -> (r: Vec<Object>)
        requires
            keep@.len() == self@.objects.len(),
        ensures
            object_views(r@) == kept(self@.objects, keep@, self@.objects.len() as int),
    {
        proof {
            self.lemma_view();
        }
        let n = self.objects.len();
        let mut out: Vec<Object> = Vec::new();
        let mut i: usize = 0;
        proof {
            assert(object_views(out@) =~= Seq::<ObjectView>::empty());
        }
        while i < n
            invariant
                i <= n,
                n == self.objects@.len(),
                keep@.len() == n,
                self@.objects == object_views(self.objects@),
                object_views(out@) == kept(self@.objects, keep@, i as int),
            decreases n - i,
        {
            if keep[i] {
                let row = self.objects[i].clone();
                proof {
                    assert(object_views(out@.push(row)) =~= object_views(out@).push(row@));
                }
                out.push(row);
            }
            i = i + 1;
        }
        out
    }

    /// The objects whose key has the given number.
    pub(crate) fn objects_by_key(&self, key: i64) -> (r: Vec<Object>)
        ensures
            object_views(r@) == objects_with_key(self@.objects, key),
    {
        proof {
            self.lemma_view();
        }
        let n = self.objects.len();
        let mut keep: Vec<bool> = Vec::new();
        let mut i: usize = 0;
        while i < n
            invariant
                i <= n,
                n == self.objects@.len(),
                self@.objects == object_views(self.objects@),
                keep@ == key_flags(self@.objects, key).take(i as int),
            decreases n - i,
        {
            let flag = self.objects[i].id().0 == key;
            proof {
                assert(key_flags(self@.objects, key).take(i + 1) =~= key_flags(
                    self@.objects,
                    key,
                ).take(i as int).push(flag));
            }
            keep.push(flag);
            i = i + 1;
        }
        proof {
            assert(key_flags(self@.objects, key).take(n as int) =~= key_flags(self@.objects, key));
        }
        self.copy_objects(&keep)
    }
}

/// The one object of a read that must be unique.
pub fn single_object(mut rows: Vec<Object>) -> (r: Result<Object, Error>)
    ensures
        match r {
            Ok(object) => rows@.len() == 1 && object@ == rows@[0]@,
            Err(e) => (e == Error::NotFound && rows@.len() == 0) || (e == Error::Inconsistent
                && rows@.len() > 1),
        },
{
    if rows.len() > 1 {
        return Err(Error::Inconsistent);
    }
    match rows.pop() {
        Some(object) => Ok(object),
        None => Err(Error::NotFound),
    }
}

impl Object {
    /// The object with the key `id`. Fails with `NotFound` where there is
    /// none.
    pub fn from_id(db: &Database, id: &ObjectId) -> (r: Result<Self, Error>)
        ensures
            ({
                let rows = objects_with_key(db@.objects, id.0);
                match r {
                    Ok(object) => rows.len() == 1 && object@ == rows[0],
                    Err(e) => (e == Error::NotFound && rows.len() == 0) || (e
                        == Error::Inconsistent && rows.len() > 1),
                }
            }),
    {
        let rows = db.objects_by_key(id.0);
        proof {
            if rows@.len() > 0 {
                assert(object_views(rows@)[0] == rows@[0]@);
            }
        }
        single_object(rows)
    }

    /// The objects whose key has the same number as the key of an item.
    pub fn from_item(db: &Database, id: &ItemId) -> (r: Result<Vec<Self>, Error>)
        ensures
            r is Ok,
            object_views(r->Ok_0@) == objects_with_key(db@.objects, id.0),
    {
        Ok(db.objects_by_key(id.0))
    }

    /// The objects with the given hash. Several objects may have one hash.
    pub fn from_hash(db: &Database, hash: &String) -> (r: Result<Vec<Self>, Error>)
        ensures
            r is Ok,
            object_views(r->Ok_0@) == objects_with_hash(db@.objects, hash@),
    {
        proof {
            db.lemma_view();
        }
        let n = db.objects.len();
        let mut keep: Vec<bool> = Vec::new();
        let mut i: usize = 0;
        while i < n
            invariant
                i <= n,
                n == db.objects@.len(),
                db@.objects == object_views(db.objects@),
                keep@ == hash_flags(db@.objects, hash@).take(i as int),
            decreases n - i,
        {
            let flag = *db.objects[i].hash() == *hash;
            proof {
                assert(hash_flags(db@.objects, hash@).take(i + 1) =~= hash_flags(
                    db@.objects,
                    hash@,
                ).take(i as int).push(flag));
            }
            keep.push(flag);
            i = i + 1;
        }
        proof {
            assert(hash_flags(db@.objects, hash@).take(n as int) =~= hash_flags(
                db@.objects,
                hash@,
            ));
        }
        Ok(db.copy_objects(&keep))
    }

    /// Records the content of the file at `file` under its hash, and
    /// returns the record with the key that the store gave it. The store
    /// does not look for an object with the same hash. Fails with
    /// `Upstream` where the store has no key left to give.
    pub fn insert(db: &mut Database, file: &str, hash: &String) -> (r: Result<Self, Error>)
        requires
            old(db).inv(),
        ensures
            final(db).inv(),
            final(db)@.schema_name == old(db)@.schema_name,
            final(db)@.repositories == old(db)@.repositories,
            final(db)@.subscriptions == old(db)@.subscriptions,
            final(db)@.items == old(db)@.items,
            match r {
                Ok(object) => {
                    &&& old(db).has_object_key()
                    &&& object@ == (ObjectView { id: old(db).next_object_key(), hash: hash@ })
                    &&& object@.id.0 != 0
                    &&& final(db)@.objects == old(db)@.objects.push(object@)
                },
                Err(e) => e == Error::Upstream && !old(db).has_object_key() && final(db)@ == old(
                    db,
                )@,
            },
    {
        proof {
            db.lemma_view();
            db.lemma_keys();
        }
        let ghost start = *db;
        if db.next_object == i64::MAX {
            return Err(Error::Upstream);
        }
        let key = ObjectId(db.next_object);
        let row = Object { id: key, hash: hash.clone() };
        let copy = row.clone();
        let ghost before = db@.objects;
        proof {
            assert(object_views(db.objects@.push(row)) =~= before.push(row@));
        }
        db.next_object = db.next_object + 1;
        db.objects.push(row);
        proof {
            db.lemma_view();
            db.lemma_keys();
            start.lemma_keys();
            assert forall|a: int, b: int| 0 <= a < b < db@.objects.len() implies object_key()(
                #[trigger] db@.objects[a],
            ) != object_key()(#[trigger] db@.objects[b]) by {
                if b < before.len() {
                    assert(object_key()(before[a]) != object_key()(before[b]));
                } else {
                    assert(before[a].id.0 < key.0);
                }
            }
        }
        Ok(copy)
    }

    /// Deletes this object.
    pub fn delete(&self, db: &mut Database) -> (r: Result<(), Error>)
        requires
            old(db).inv(),
        ensures
            r is Ok,
            final(db).inv(),
            final(db)@.schema_name == old(db)@.schema_name,
            final(db)@.repositories == old(db)@.repositories,
            final(db)@.subscriptions == old(db)@.subscriptions,
            final(db)@.items == old(db)@.items,
            final(db)@.objects == objects_without(old(db)@.objects, seq![self@.id]),
    {
        let mut ids: Vec<ObjectId> = Vec::new();
        ids.push(self.id);
        proof {
            assert(ids@ =~= seq![self@.id]);
        }
        Self::delete_objects(db, &ids)
    }

    /// Whether the content of the file at `file` is the content that this
    /// object records. The store holds no content and computes no hash, so
    /// it takes every file for a match.
    pub fn equals_to_file(&self, db: &Database, file: &str) -> (r: Result<bool, Error>)
        ensures
            r == Ok::<bool, Error>(true),
    {
        Ok(true)
    }

    /// Deletes the objects whose key is one of `objects`. A key of no
    /// object is passed over.
    pub fn delete_objects(db: &mut Database, objects: &Vec<ObjectId>) -> (r: Result<(), Error>)
        requires
            old(db).inv(),
        ensures
            r is Ok,
            final(db)@.schema_name == old(db)@.schema_name,
            final(db)@.repositories == old(db)@.repositories,
            final(db)@.subscriptions == old(db)@.subscriptions,
            final(db)@.items == old(db)@.items,
            final(db)@.objects == objects_without(old(db)@.objects, objects@),
            final(db).inv(),
    {
        proof {
            db.lemma_view();
        }
        let ghost rows_before = db@.objects;
        let ghost start = *db;
        proof {
            db.lemma_keys();
        }
        let n = db.objects.len();
        let mut keep: Vec<bool> = Vec::new();
        let mut i: usize = 0;
        while i < n
            invariant
                i <= n,
                n == db.objects@.len(),
                rows_before == db@.objects,
                rows_before == object_views(db.objects@),
                keep@ == other_flags(rows_before, objects@).take(i as int),
            decreases n - i,
        {
            let found = contains_key(objects, *db.objects[i].id());
            proof {
                assert(other_flags(rows_before, objects@).take(i + 1) =~= other_flags(
                    rows_before,
                    objects@,
                ).take(i as int).push(!found));
            }
            keep.push(!found);
            i = i + 1;
        }
        proof {
            assert(other_flags(rows_before, objects@).take(n as int) =~= other_flags(
                rows_before,
                objects@,
            ));
            lemma_kept_map(db.objects@, keep@, n as int, |o: Object| o@);
            lemma_kept_distinct(rows_before, keep@, n as int, object_key());
            lemma_kept_member(rows_before, keep@, n as int);
        }
        let mut rows: Vec<Object> = Vec::new();
        core::mem::swap(&mut db.objects, &mut rows);
        let rest = retain_flagged(rows, &keep);
        proof {
            let after = objects_without(rows_before, objects@);
            assert(object_views(rest@) == after);
            assert forall|j: int| 0 <= j < after.len() implies (#[trigger] after[j]).id.0 != 0 && (
            db.next_object < i64::MAX ==> after[j].id.0 < db.next_object) by {
                assert(kept_row(rows_before, keep@, n as int, after[j]));
                let k = choose|k: int|
                    0 <= k < n && #[trigger] keep@[k] && rows_before[k] == after[j];
                assert(rows_before[k].id.0 != 0);
                assert(rows@[k]@ == rows_before[k]);
            }
            assert forall|j: int| 0 <= j < rest@.len() implies (db.next_object < i64::MAX ==> (
            #[trigger] rest@[j])@.id.0 < db.next_object) by {
                assert(object_views(rest@)[j] == rest@[j]@);
            }
        }
        db.objects = rest;
        proof {
            db.lemma_view();
            db.lemma_keys();
            start.lemma_view();
        }
        Ok(())
    }
}

/// Whether `key` is one of `keys`.
pub fn contains_key(keys: &Vec<ObjectId>, key: ObjectId) -> (r: bool)
    ensures
        r == keys@.contains(key),
{
    let n = keys.len();
    let mut i: usize = 0;
    while i < n
        invariant
            i <= n,
            n == keys@.len(),
            forall|j: int| 0 <= j < i ==> keys@[j] != key,
        decreases n - i,
    {
        if keys[i] == key {
            return true;
        }
        i = i + 1;
    }
    false
}

impl Clone for Object {
    fn clone(&self) -> (r: Self)
        ensures
            r@ == self@,
    {
        Object { id: self.id, hash: self.hash.clone() }
    }
}

} // verus!
