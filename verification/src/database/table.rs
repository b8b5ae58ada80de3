use vstd::prelude::*;

verus! {

/// The rows among the first `n` that are marked to be kept, in their order.
pub open spec fn kept<T>(rows: Seq<T>, keep: Seq<bool>, n: int) -> Seq<T>
    decreases n,
{
    if n <= 0 {
        Seq::empty()
    } else if keep[n - 1] {
        kept(rows, keep, n - 1).push(rows[n - 1])
    } else {
        kept(rows, keep, n - 1)
    }
}

/// No two rows have the same key.
pub open spec fn distinct_by<T, K>(rows: Seq<T>, key: spec_fn(T) -> K) -> bool {
    forall|i: int, j: int|
        0 <= i < j < rows.len() ==> key(#[trigger] rows[i]) != key(#[trigger] rows[j])
}

/// The row is one of the first `n` rows, and marked to be kept.
pub open spec fn kept_row<T>(rows: Seq<T>, keep: Seq<bool>, n: int, row: T) -> bool {
    exists|i: int| 0 <= i < n && #[trigger] keep[i] && rows[i] == row
}

/// Each row that is kept is one of the rows, marked to be kept.
pub proof fn lemma_kept_member<T>(rows: Seq<T>, keep: Seq<bool>, n: int)
    requires
        0 <= n <= rows.len(),
        keep.len() == rows.len(),
    ensures
        kept(rows, keep, n).len() <= n,
        forall|j: int|
            0 <= j < kept(rows, keep, n).len() ==> kept_row(
                rows,
                keep,
                n,
                #[trigger] kept(rows, keep, n)[j],
            ),
    decreases n,
{
    if n > 0 {
        lemma_kept_member(rows, keep, n - 1);
        let before = kept(rows, keep, n - 1);
        let now = kept(rows, keep, n);
        assert forall|j: int| 0 <= j < now.len() implies kept_row(rows, keep, n, #[trigger] now[j]) by {
            if j < before.len() {
                assert(before[j] == now[j]);
                assert(kept_row(rows, keep, n - 1, before[j]));
                let i = choose|i: int| 0 <= i < n - 1 && #[trigger] keep[i] && rows[i] == before[j];
                assert(0 <= i < n && keep[i] && rows[i] == now[j]);
            } else {
                assert(keep[n - 1] && rows[n - 1] == now[j]);
            }
        }
    }
}

/// Each row that is marked to be kept is among the rows that are kept.
pub proof fn lemma_kept_holds<T>(rows: Seq<T>, keep: Seq<bool>, n: int, i: int)
    requires
        0 <= i < n <= rows.len(),
        keep.len() == rows.len(),
        keep[i],
    ensures
        kept(rows, keep, n).contains(rows[i]),
    decreases n,
{
    let now = kept(rows, keep, n);
    if i == n - 1 {
        assert(now[now.len() - 1] == rows[i]);
    } else {
        lemma_kept_holds(rows, keep, n - 1, i);
        let before = kept(rows, keep, n - 1);
        let j = choose|j: int| 0 <= j < before.len() && before[j] == rows[i];
        assert(now[j] == rows[i]);
    }
}

/// Keeping some rows of a table without two equal keys leaves a table
/// without two equal keys.
pub proof fn lemma_kept_distinct<T, K>(rows: Seq<T>, keep: Seq<bool>, n: int, key: spec_fn(T) -> K)
    requires
        0 <= n <= rows.len(),
        keep.len() == rows.len(),
        distinct_by(rows, key),
    ensures
        distinct_by(kept(rows, keep, n), key),
    decreases n,
{
    if n > 0 {
        lemma_kept_distinct(rows, keep, n - 1, key);
        let before = kept(rows, keep, n - 1);
        let now = kept(rows, keep, n);
        lemma_kept_member(rows, keep, n - 1);
        assert forall|a: int, b: int| 0 <= a < b < now.len() implies key(#[trigger] now[a])
            != key(#[trigger] now[b]) by {
            if b < before.len() {
                assert(now[a] == before[a] && now[b] == before[b]);
            } else {
                assert(now[a] == before[a]);
                assert(kept_row(rows, keep, n - 1, before[a]));
                let i = choose|i: int| 0 <= i < n - 1 && #[trigger] keep[i] && rows[i] == before[a];
                assert(now[b] == rows[n - 1]);
                assert(key(rows[i]) != key(rows[n - 1]));
            }
        }
    }
}

/// Keeping every row leaves the rows as they are.
pub proof fn lemma_kept_all<T>(rows: Seq<T>, keep: Seq<bool>, n: int)
    requires
        0 <= n <= rows.len(),
        keep.len() == rows.len(),
        forall|i: int| 0 <= i < n ==> keep[i],
    ensures
        kept(rows, keep, n) == rows.take(n),
    decreases n,
{
    if n > 0 {
        lemma_kept_all(rows, keep, n - 1);
        assert(rows.take(n) =~= rows.take(n - 1).push(rows[n - 1]));
    } else {
        assert(rows.take(n) =~= Seq::<T>::empty());
    }
}

/// Keeping rows and then reading them is reading the rows and then keeping.
pub proof fn lemma_kept_map<T, V>(rows: Seq<T>, keep: Seq<bool>, n: int, read: spec_fn(T) -> V)
    requires
        0 <= n <= rows.len(),
        keep.len() == rows.len(),
    ensures
        kept(rows, keep, n).map_values(read) == kept(rows.map_values(read), keep, n),
    decreases n,
{
    if n > 0 {
        lemma_kept_map(rows, keep, n - 1, read);
        let before = kept(rows, keep, n - 1);
        assert(before.push(rows[n - 1]).map_values(read) =~= before.map_values(read).push(
            read(rows[n - 1]),
        ));
    }
    assert(kept(rows, keep, n).map_values(read) =~= kept(rows.map_values(read), keep, n));
}

/// The rows that are marked to be kept, in their order.
pub fn retain_flagged<T>(rows: Vec<T>, keep: &Vec<bool>) -> (r: Vec<T>)
    requires
        keep@.len() == rows@.len(),
    ensures
        r@ == kept(rows@, keep@, rows@.len() as int),
{
    let mut out: Vec<T> = Vec::new();
    let ghost all = rows@;
    let total = rows.len();
    let mut pos: usize = 0;
    for row in it: rows
        invariant
            it.seq() == all,
            all.len() == total,
            pos == it.index(),
            0 <= pos <= all.len(),
            keep@.len() == all.len(),
            out@ == kept(all, keep@, pos as int),
    {
        assert(pos < all.len());
        if keep[pos] {
            out.push(row);
        }
        pos = pos + 1;
    }
    out
}

/// No two of the keys are the same.
pub open spec fn all_different(keys: Seq<i64>) -> bool {
    forall|i: int, j: int| 0 <= i < j < keys.len() ==> keys[i] != keys[j]
}

/// Whether no two of the keys are the same.
pub fn are_all_different(keys: &Vec<i64>) -> (r: bool)
    ensures
        r == all_different(keys@),
{
    let n = keys.len();
    let mut j: usize = 0;
    while j < n
        invariant
            j <= n,
            n == keys@.len(),
            forall|a: int, b: int| 0 <= a < b < j ==> keys@[a] != keys@[b],
        decreases n - j,
    {
        let mut i: usize = 0;
        while i < j
            invariant
                i <= j,
                j < n,
                n == keys@.len(),
                forall|a: int| 0 <= a < i ==> keys@[a] != keys@[j as int],
            decreases j - i,
        {
            if keys[i] == keys[j] {
                return false;
            }
            i = i + 1;
        }
        j = j + 1;
    }
    true
}

/// Whether none of the keys is the zero key.
pub fn are_all_assigned(keys: &Vec<i64>) -> (r: bool)
    ensures
        r == (forall|i: int| 0 <= i < keys@.len() ==> keys@[i] != 0),
{
    let n = keys.len();
    let mut i: usize = 0;
    while i < n
        invariant
            i <= n,
            n == keys@.len(),
            forall|a: int| 0 <= a < i ==> keys@[a] != 0,
        decreases n - i,
    {
        if keys[i] == 0 {
            return false;
        }
        i = i + 1;
    }
    true
}

/// A key above all the given keys and above zero; the largest key there
/// is where one of the given keys is that.
pub fn key_above(keys: &Vec<i64>) -> (r: i64)
    ensures
        r >= 1,
        r < i64::MAX ==> forall|i: int| 0 <= i < keys@.len() ==> keys@[i] < r,
{
    let n = keys.len();
    let mut next: i64 = 1;
    let mut i: usize = 0;
    while i < n
        invariant
            i <= n,
            n == keys@.len(),
            next >= 1,
            next < i64::MAX ==> forall|a: int| 0 <= a < i ==> keys@[a] < next,
        decreases n - i,
    {
        if keys[i] >= next {
            next = if keys[i] == i64::MAX {
                i64::MAX
            } else {
                keys[i] + 1
            };
        }
        i = i + 1;
    }
    next
}

} // verus!
