use crate::database::{Database, item_views};
use crate::database::model::clamp_i64;
use crate::types::database_ids::{RepositoryId, UserId};
use crate::types::enc_string::EncString;
use crate::types::item::ItemView;
use vstd::prelude::*;

verus! {

/// How many items of a repository a user owns.
#[derive(Clone, Copy, Debug, PartialEq, Eq, Structural)]
pub struct RepositoryContributorStats {
    pub id: UserId,
    pub count: i64,
}

/// How many files of a repository have a media type.
#[derive(Debug)]
pub struct RepositoryExtensionStats {
    pub mimetype: EncString,
    pub count: i64,
}

/// The figures of a repository.
#[derive(Debug)]
pub struct RepositoryStats {
    pub trash_items: usize,
    pub trash_directories: usize,
    pub trash_size: usize,
    pub items: usize,
    pub directories: usize,
    pub size: usize,
    pub contributors: Vec<RepositoryContributorStats>,
    pub extensions: Vec<RepositoryExtensionStats>,
}

/// The mathematical value of a [`RepositoryStats`].
pub ghost struct RepositoryStatsView {
    pub trash_items: int,
    pub trash_directories: int,
    pub trash_size: int,
    pub items: int,
    pub directories: int,
    pub size: int,
    pub contributors: Seq<(UserId, i64)>,
    pub extensions: Seq<(Seq<char>, i64)>,
}

pub open spec fn contributor_views(rows: Seq<RepositoryContributorStats>) -> Seq<(UserId, i64)> {
    rows.map_values(|c: RepositoryContributorStats| (c.id, c.count))
}

pub open spec fn extension_views(rows: Seq<RepositoryExtensionStats>) -> Seq<(Seq<char>, i64)> {
    rows.map_values(|e: RepositoryExtensionStats| (e.mimetype@, e.count))
}

impl View for RepositoryStats {
    type V = RepositoryStatsView;

    open spec fn view(&self) -> RepositoryStatsView {
        RepositoryStatsView {
            trash_items: self.trash_items as int,
            trash_directories: self.trash_directories as int,
            trash_size: self.trash_size as int,
            items: self.items as int,
            directories: self.directories as int,
            size: self.size as int,
            contributors: contributor_views(self.contributors@),
            extensions: extension_views(self.extensions@),
        }
    }
}

/// The row counts for the aggregate: an item of the repository, in the
/// given trash state, of the given kind.
pub open spec fn counts_for(row: ItemView, repository: RepositoryId, trashed: bool, files: bool) -> bool {
    row.repository == repository && row.in_trash == trashed && (row.file is Some) == files
}

/// How many of the first `n` rows are items of the repository in the given
/// trash state and of the given kind.
pub open spec fn count_rows(
    items: Seq<ItemView>,
    repository: RepositoryId,
    trashed: bool,
    files: bool,
    n: int,
) -> int
    decreases n,
{
    if n <= 0 {
        0
    } else {
        count_rows(items, repository, trashed, files, n - 1) + if counts_for(
            items[n - 1],
            repository,
            trashed,
            files,
        ) {
            1int
        } else {
            0int
        }
    }
}

/// The sizes, added up, of the files among the first `n` rows that belong
/// to the repository and are in the given trash state.
pub open spec fn sum_sizes(items: Seq<ItemView>, repository: RepositoryId, trashed: bool, n: int) -> int
    decreases n,
{
    if n <= 0 {
        0
    } else {
        sum_sizes(items, repository, trashed, n - 1) + if counts_for(
            items[n - 1],
            repository,
            trashed,
            true,
        ) {
            items[n - 1].file->0.size as int
        } else {
            0int
        }
    }
}

/// The value of type `usize` that is nearest to `v`.
pub open spec fn clamp_usize(v: int) -> usize {
    if v < 0 {
        0
    } else if v > usize::MAX {
        usize::MAX
    } else {
        v as usize
    }
}

/// Some entry of the tally is for the key.
pub open spec fn has_entry<K>(entries: Seq<(K, int)>, key: K) -> bool {
    exists|i: int| 0 <= i < entries.len() && (#[trigger] entries[i]).0 == key
}

/// The tally after one more occurrence of the key: its entry counts one
/// more, or a new entry for it comes last.
pub open spec fn counted<K>(entries: Seq<(K, int)>, key: K) -> Seq<(K, int)> {
    if has_entry(entries, key) {
        Seq::new(
            entries.len(),
            |i: int|
                if entries[i].0 == key {
                    (key, entries[i].1 + 1)
                } else {
                    entries[i]
                },
        )
    } else {
        entries.push((key, 1int))
    }
}

/// For each owner of an item of the repository among the first `n` rows,
/// how many of these items the owner has; the owners in the order in which
/// the table first names them.
pub open spec fn owner_tally(items: Seq<ItemView>, repository: RepositoryId, n: int) -> Seq<
    (UserId, int),
>
    decreases n,
{
    if n <= 0 {
        Seq::empty()
    } else if items[n - 1].repository == repository {
        counted(owner_tally(items, repository, n - 1), items[n - 1].owner)
    } else {
        owner_tally(items, repository, n - 1)
    }
}

/// For each media type of a file of the repository among the first `n`
/// rows, how many of these files have it; the media types in the order in
/// which the table first names them.
pub open spec fn mimetype_tally(items: Seq<ItemView>, repository: RepositoryId, n: int) -> Seq<
    (Seq<char>, int),
>
    decreases n,
{
    if n <= 0 {
        Seq::empty()
    } else if items[n - 1].repository == repository && items[n - 1].file is Some {
        counted(mimetype_tally(items, repository, n - 1), items[n - 1].file->0.mimetype)
    } else {
        mimetype_tally(items, repository, n - 1)
    }
}

/// The tally with each count brought into the range of `i64`.
pub open spec fn clamped<K>(entries: Seq<(K, int)>) -> Seq<(K, i64)> {
    Seq::new(entries.len(), |i: int| (entries[i].0, clamp_i64(entries[i].1)))
}

/// How many entries at the head of the list count `count` or more.
pub open spec fn lead<K>(sorted: Seq<(K, i64)>, count: i64) -> int
    decreases sorted.len(),
{
    if sorted.len() == 0 || sorted[0].1 < count {
        0
    } else {
        1 + lead(sorted.drop_first(), count)
    }
}

/// The list with the entry put behind the entries at its head that count
/// as much or more.
pub open spec fn placed<K>(sorted: Seq<(K, i64)>, entry: (K, i64)) -> Seq<(K, i64)> {
    sorted.insert(lead(sorted, entry.1), entry)
}

/// The first `n` entries, the larger counts first; entries that count the
/// same stay in their order.
pub open spec fn ranked<K>(entries: Seq<(K, i64)>, n: int) -> Seq<(K, i64)>
    decreases n,
{
    if n <= 0 {
        Seq::empty()
    } else {
        placed(ranked(entries, n - 1), entries[n - 1])
    }
}

/// The entries, the larger counts first; entries that count the same stay
/// in their order.
pub open spec fn by_count<K>(entries: Seq<(K, i64)>) -> Seq<(K, i64)> {
    ranked(entries, entries.len() as int)
}

/// No entry counts more than an entry before it.
pub open spec fn is_descending<K>(entries: Seq<(K, i64)>) -> bool {
    forall|a: int, b: int| 0 <= a < b < entries.len() ==> entries[a].1 >= entries[b].1
}

/// Where the entries at the head that count `count` or more end.
pub proof fn lemma_lead<K>(sorted: Seq<(K, i64)>, count: i64)
    ensures
        0 <= lead(sorted, count) <= sorted.len(),
        forall|k: int| 0 <= k < lead(sorted, count) ==> sorted[k].1 >= count,
        lead(sorted, count) < sorted.len() ==> sorted[lead(sorted, count)].1 < count,
    decreases sorted.len(),
{
    if sorted.len() > 0 && sorted[0].1 >= count {
        let rest = sorted.drop_first();
        lemma_lead(rest, count);
        assert forall|k: int| 0 <= k < lead(sorted, count) implies sorted[k].1 >= count by {
            if k > 0 {
                assert(sorted[k] == rest[k - 1]);
            }
        }
        if lead(sorted, count) < sorted.len() {
            assert(sorted[lead(sorted, count)] == rest[lead(rest, count)]);
        }
    }
}

/// Putting an entry in its place keeps a descending list descending, and
/// adds the entry and nothing else.
pub proof fn lemma_placed<K>(sorted: Seq<(K, i64)>, entry: (K, i64))
    requires
        is_descending(sorted),
    ensures
        is_descending(placed(sorted, entry)),
        placed(sorted, entry).len() == sorted.len() + 1,
        forall|e: (K, i64)|
            #[trigger] placed(sorted, entry).contains(e) <==> (e == entry || sorted.contains(e)),
{
    lemma_lead(sorted, entry.1);
    let p = lead(sorted, entry.1);
    let after = placed(sorted, entry);
    assert forall|a: int, b: int| 0 <= a < b < after.len() implies after[a].1 >= after[b].1 by {
        if b < p {
            assert(after[a] == sorted[a] && after[b] == sorted[b]);
        } else if b == p {
            assert(after[a] == sorted[a]);
        } else if a < p {
            assert(after[a] == sorted[a] && after[b] == sorted[b - 1]);
        } else if a == p {
            assert(after[b] == sorted[b - 1]);
            assert(sorted[p].1 >= sorted[b - 1].1 || p == b - 1);
        } else {
            assert(after[a] == sorted[a - 1] && after[b] == sorted[b - 1]);
        }
    }
    assert forall|e: (K, i64)| after.contains(e) <==> (e == entry || sorted.contains(e)) by {
        if after.contains(e) {
            let k = choose|k: int| 0 <= k < after.len() && after[k] == e;
            if k < p {
                assert(sorted[k] == e);
            } else if k > p {
                assert(sorted[k - 1] == e);
            }
        }
        if e == entry {
            assert(after[p] == e);
        }
        if sorted.contains(e) {
            let k = choose|k: int| 0 <= k < sorted.len() && sorted[k] == e;
            if k < p {
                assert(after[k] == e);
            } else {
                assert(after[k + 1] == e);
            }
        }
    }
}

/// The ranked list holds the entries and nothing else, as many as there
/// are, and no entry of it counts more than an entry before it.
pub proof fn lemma_ranked<K>(entries: Seq<(K, i64)>, n: int)
    requires
        0 <= n <= entries.len(),
    ensures
        is_descending(ranked(entries, n)),
        ranked(entries, n).len() == n,
        forall|e: (K, i64)|
            #[trigger] ranked(entries, n).contains(e) <==> entries.take(n).contains(e),
    decreases n,
{
    if n > 0 {
        lemma_ranked(entries, n - 1);
        let before = ranked(entries, n - 1);
        lemma_placed(before, entries[n - 1]);
        let now = ranked(entries, n);
        assert forall|e: (K, i64)| now.contains(e) <==> entries.take(n).contains(e) by {
            let longer = entries.take(n);
            let shorter = entries.take(n - 1);
            assert(now == placed(before, entries[n - 1]));
            assert(placed(before, entries[n - 1]).contains(e) <==> (e == entries[n - 1]
                || before.contains(e)));
            assert(ranked(entries, n - 1).contains(e) <==> shorter.contains(e));
            if longer.contains(e) {
                let k = choose|k: int| 0 <= k < longer.len() && longer[k] == e;
                if k < n - 1 {
                    assert(shorter[k] == e);
                    assert(shorter.contains(e));
                } else {
                    assert(e == entries[n - 1]);
                }
            }
            if shorter.contains(e) {
                let k = choose|k: int| 0 <= k < shorter.len() && shorter[k] == e;
                assert(longer[k] == e);
                assert(longer.contains(e));
            }
            if e == entries[n - 1] {
                assert(longer[n - 1] == e);
                assert(longer.contains(e));
            }
        }
    } else {
        assert forall|e: (K, i64)| !entries.take(n).contains(e) by {}
    }
}

/// The figures of a repository, as the item table gives them.
pub open spec fn stats_of(items: Seq<ItemView>, repository: RepositoryId) -> RepositoryStatsView {
    let n = items.len() as int;
    RepositoryStatsView {
        trash_items: count_rows(items, repository, true, true, n),
        trash_directories: count_rows(items, repository, true, false, n),
        trash_size: clamp_usize(sum_sizes(items, repository, true, n)) as int,
        items: count_rows(items, repository, false, true, n),
        directories: count_rows(items, repository, false, false, n),
        size: clamp_usize(sum_sizes(items, repository, false, n)) as int,
        contributors: by_count(clamped(owner_tally(items, repository, n))),
        extensions: by_count(clamped(mimetype_tally(items, repository, n))),
    }
}

/// No item belongs to the repository.
pub open spec fn is_empty_repository(items: Seq<ItemView>, repository: RepositoryId) -> bool {
    forall|i: int| 0 <= i < items.len() ==> (#[trigger] items[i]).repository != repository
}

/// Nothing is counted among the first `n` rows where no item belongs to
/// the repository.
pub proof fn lemma_nothing_counted(items: Seq<ItemView>, repository: RepositoryId, n: int)
    requires
        is_empty_repository(items, repository),
        0 <= n <= items.len(),
    ensures
        forall|trashed: bool, files: bool|
            #[trigger] count_rows(items, repository, trashed, files, n) == 0,
        forall|trashed: bool| #[trigger] sum_sizes(items, repository, trashed, n) == 0,
        owner_tally(items, repository, n) == Seq::<(UserId, int)>::empty(),
        mimetype_tally(items, repository, n) == Seq::<(Seq<char>, int)>::empty(),
    decreases n,
{
    if n > 0 {
        lemma_nothing_counted(items, repository, n - 1);
        assert(items[n - 1].repository != repository);
        assert forall|trashed: bool, files: bool|
            #[trigger] count_rows(items, repository, trashed, files, n) == 0 by {
            assert(count_rows(items, repository, trashed, files, n - 1) == 0);
        }
        assert forall|trashed: bool| #[trigger] sum_sizes(items, repository, trashed, n) == 0 by {
            assert(sum_sizes(items, repository, trashed, n - 1) == 0);
        }
    }
}

/// The figures of a repository without items are all zero, and name no
/// contributor and no media type.
pub proof fn lemma_stats_of_empty_repository(items: Seq<ItemView>, repository: RepositoryId)
    requires
        is_empty_repository(items, repository),
    ensures
        stats_of(items, repository) == (RepositoryStatsView {
            trash_items: 0,
            trash_directories: 0,
            trash_size: 0,
            items: 0,
            directories: 0,
            size: 0,
            contributors: Seq::empty(),
            extensions: Seq::empty(),
        }),
{
    let n = items.len() as int;
    lemma_nothing_counted(items, repository, n);
    assert(count_rows(items, repository, true, true, n) == 0);
    assert(count_rows(items, repository, true, false, n) == 0);
    assert(count_rows(items, repository, false, true, n) == 0);
    assert(count_rows(items, repository, false, false, n) == 0);
    assert(sum_sizes(items, repository, true, n) == 0);
    assert(sum_sizes(items, repository, false, n) == 0);
    assert(clamped(Seq::<(UserId, int)>::empty()) =~= Seq::<(UserId, i64)>::empty());
    assert(clamped(Seq::<(Seq<char>, int)>::empty()) =~= Seq::<(Seq<char>, i64)>::empty());
    assert(by_count(Seq::<(UserId, i64)>::empty()) =~= Seq::<(UserId, i64)>::empty());
    assert(by_count(Seq::<(Seq<char>, i64)>::empty()) =~= Seq::<(Seq<char>, i64)>::empty());
}

/// One more than `count`, but not more than `i64` holds.
pub fn one_more(count: i64) -> (r: i64)
    ensures
        r == if count < i64::MAX {
            (count + 1) as i64
        } else {
            count
        },
{
    if count < i64::MAX {
        count + 1
    } else {
        count
    }
}

/// Where an entry that counts `count` goes in a descending list.
pub fn place_of_contributor(sorted: &Vec<RepositoryContributorStats>, count: i64) -> (r: usize)
    ensures
        r == lead(contributor_views(sorted@), count),
{
    let ghost rows = contributor_views(sorted@);
    let n = sorted.len();
    let mut p: usize = 0;
    proof {
        assert(rows.skip(0) =~= rows);
    }
    while p < n && sorted[p].count >= count
        invariant
            p <= n,
            n == sorted@.len(),
            rows == contributor_views(sorted@),
            lead(rows, count) == p + lead(rows.skip(p as int), count),
        decreases n - p,
    {
        proof {
            assert(rows.skip(p as int)[0] == rows[p as int]);
            assert(rows.skip(p as int).drop_first() =~= rows.skip(p + 1));
        }
        p = p + 1;
    }
    proof {
        if p < n {
            assert(rows.skip(p as int)[0] == rows[p as int]);
        }
    }
    p
}

/// Where an entry that counts `count` goes in a descending list.
pub fn place_of_extension(sorted: &Vec<RepositoryExtensionStats>, count: i64) -> (r: usize)
    ensures
        r == lead(extension_views(sorted@), count),
{
    let ghost rows = extension_views(sorted@);
    let n = sorted.len();
    let mut p: usize = 0;
    proof {
        assert(rows.skip(0) =~= rows);
    }
    while p < n && sorted[p].count >= count
        invariant
            p <= n,
            n == sorted@.len(),
            rows == extension_views(sorted@),
            lead(rows, count) == p + lead(rows.skip(p as int), count),
        decreases n - p,
    {
        proof {
            assert(rows.skip(p as int)[0] == rows[p as int]);
            assert(rows.skip(p as int).drop_first() =~= rows.skip(p + 1));
        }
        p = p + 1;
    }
    proof {
        if p < n {
            assert(rows.skip(p as int)[0] == rows[p as int]);
        }
    }
    p
}

/// The entries, the larger counts first.
pub fn rank_contributors(rows: Vec<RepositoryContributorStats>) -> (r: Vec<
    RepositoryContributorStats,
>)
    ensures
        contributor_views(r@) == by_count(contributor_views(rows@)),
{
    let ghost all = contributor_views(rows@);
    let n = rows.len();
    let mut out: Vec<RepositoryContributorStats> = Vec::new();
    let mut i: usize = 0;
    proof {
        assert(contributor_views(out@) =~= ranked(all, 0));
    }
    while i < n
        invariant
            i <= n,
            n == rows@.len(),
            all == contributor_views(rows@),
            contributor_views(out@) == ranked(all, i as int),
        decreases n - i,
    {
        let entry = rows[i];
        let p = place_of_contributor(&out, entry.count);
        proof {
            lemma_lead(contributor_views(out@), entry.count);
            assert(contributor_views(out@.insert(p as int, entry)) =~= contributor_views(
                out@,
            ).insert(p as int, (entry.id, entry.count)));
        }
        out.insert(p, entry);
        i = i + 1;
    }
    out
}

/// The entries, the larger counts first.
pub fn rank_extensions(rows: Vec<RepositoryExtensionStats>) -> (r: Vec<RepositoryExtensionStats>)
    ensures
        extension_views(r@) == by_count(extension_views(rows@)),
{
    let ghost all = extension_views(rows@);
    let mut out: Vec<RepositoryExtensionStats> = Vec::new();
    let total = rows.len();
    let mut pos: usize = 0;
    proof {
        assert(extension_views(out@) =~= ranked(all, 0));
    }
    for entry in it: rows
        invariant
            it.seq().len() == total,
            extension_views(it.seq()) == all,
            pos == it.index(),
            pos <= total,
            extension_views(out@) == ranked(all, pos as int),
    {
        let p = place_of_extension(&out, entry.count);
        proof {
            assert(pos < total);
            assert(all[pos as int] == (entry.mimetype@, entry.count));
            lemma_lead(extension_views(out@), entry.count);
            assert(extension_views(out@.insert(p as int, entry)) =~= extension_views(
                out@,
            ).insert(p as int, (entry.mimetype@, entry.count)));
        }
        out.insert(p, entry);
        pos = pos + 1;
    }
    out
}

impl Database {
    /// How many items of the repository are in the given trash state and
    /// of the given kind.
    pub fn count_items(&self, repository: RepositoryId, trashed: bool, files: bool) -> (r: usize)
        ensures
            r == count_rows(self@.items, repository, trashed, files, self@.items.len() as int),
    {
        proof {
            self.lemma_view();
        }
        let n = self.items.len();
        let mut count: usize = 0;
        let mut i: usize = 0;
        while i < n
            invariant
                i <= n,
                n == self.items@.len(),
                self@.items == item_views(self.items@),
                count == count_rows(self@.items, repository, trashed, files, i as int),
                count <= i,
            decreases n - i,
        {
            let item = &self.items[i];
            if item.repository() == repository && item.in_trash() == trashed
                && item.file().is_some() == files {
                count = count + 1;
            }
            i = i + 1;
        }
        count
    }

    /// The size of all files of the repository in the given trash state.
    pub fn sum_file_sizes(&self, repository: RepositoryId, trashed: bool) -> (r: usize)
        ensures
            r == clamp_usize(sum_sizes(self@.items, repository, trashed, self@.items.len() as int)),
    {
        proof {
            self.lemma_view();
        }
        let n = self.items.len();
        let mut size: i128 = 0;
        let mut i: usize = 0;
        while i < n
            invariant
                i <= n,
                n == self.items@.len(),
                self@.items == item_views(self.items@),
                size == sum_sizes(self@.items, repository, trashed, i as int),
                -(i as int) * 0x8000_0000_0000_0000 <= size <= (i as int) * 0x8000_0000_0000_0000,
            decreases n - i,
        {
            let item = &self.items[i];
            if item.repository() == repository && item.in_trash() == trashed {
                match item.file() {
                    Some(f) => {
                        size = size + f.size as i128;
                    },
                    None => {},
                }
            }
            i = i + 1;
        }
        if size < 0 {
            0
        } else if size > usize::MAX as i128 {
            usize::MAX
        } else {
            size as usize
        }
    }

    /// For each owner of an item of the repository, how many of its items
    /// the owner has.
    pub fn tally_owners(&self, repository: RepositoryId) -> (r: Vec<RepositoryContributorStats>)
        ensures
            contributor_views(r@) == clamped(
                owner_tally(self@.items, repository, self@.items.len() as int),
            ),
    {
        proof {
            self.lemma_view();
        }
        let n = self.items.len();
        let mut out: Vec<RepositoryContributorStats> = Vec::new();
        let mut i: usize = 0;
        proof {
            assert(contributor_views(out@) =~= clamped(owner_tally(self@.items, repository, 0)));
        }
        while i < n
            invariant
                i <= n,
                n == self.items@.len(),
                self@.items == item_views(self.items@),
                contributor_views(out@) == clamped(
                    owner_tally(self@.items, repository, i as int),
                ),
                forall|j: int|
                    0 <= j < owner_tally(self@.items, repository, i as int).len() ==> (
                    #[trigger] owner_tally(self@.items, repository, i as int)[j]).1 >= 1,
            decreases n - i,
        {
            let item = &self.items[i];
            if item.repository() == repository {
                let owner = item.owner();
                let ghost before = owner_tally(self@.items, repository, i as int);
                let ghost start = out@;
                let m = out.len();
                let mut found = false;
                let mut j: usize = 0;
                proof {
                    assert(contributor_views(start).len() == start.len());
                }
                while j < m
                    invariant
                        j <= m,
                        m == out@.len(),
                        m == before.len(),
                        contributor_views(start) == clamped(before),
                        start.len() == m,
                        forall|k: int| 0 <= k < before.len() ==> (#[trigger] before[k]).1 >= 1,
                        found == (exists|k: int| 0 <= k < j && (#[trigger] before[k]).0 == owner),
                        forall|k: int|
                            0 <= k < j ==> (#[trigger] out@[k]).id == before[k].0 && out@[k].count
                                == clamp_i64(
                                if before[k].0 == owner {
                                    before[k].1 + 1
                                } else {
                                    before[k].1
                                },
                            ),
                        forall|k: int| j <= k < m ==> #[trigger] out@[k] == start[k],
                    decreases m - j,
                {
                    proof {
                        assert(contributor_views(start)[j as int] == clamped(before)[j as int]);
                        assert(before[j as int].1 >= 1);
                    }
                    if out[j].id == owner {
                        let bumped = RepositoryContributorStats {
                            id: owner,
                            count: one_more(out[j].count),
                        };
                        out.set(j, bumped);
                        found = true;
                    }
                    j = j + 1;
                }
                if !found {
                    out.push(RepositoryContributorStats { id: owner, count: 1 });
                }
                proof {
                    let after = counted(before, owner);
                    assert(owner_tally(self@.items, repository, i + 1) == after);
                    assert(found == has_entry(before, owner));
                    assert(contributor_views(out@) =~= clamped(after));
                    assert forall|k: int| 0 <= k < after.len() implies (#[trigger] after[k]).1
                        >= 1 by {
                        if k < before.len() {
                            assert(before[k].1 >= 1);
                        }
                    }
                }
            }
            i = i + 1;
        }
        out
    }

    /// For each media type of a file of the repository, how many of its
    /// files have it.
    pub fn tally_mimetypes(&self, repository: RepositoryId) -> (r: Vec<RepositoryExtensionStats>)
        ensures
            extension_views(r@) == clamped(
                mimetype_tally(self@.items, repository, self@.items.len() as int),
            ),
    {
        proof {
            self.lemma_view();
        }
        let n = self.items.len();
        let mut out: Vec<RepositoryExtensionStats> = Vec::new();
        let mut i: usize = 0;
        proof {
            assert(extension_views(out@) =~= clamped(mimetype_tally(self@.items, repository, 0)));
        }
        while i < n
            invariant
                i <= n,
                n == self.items@.len(),
                self@.items == item_views(self.items@),
                extension_views(out@) == clamped(
                    mimetype_tally(self@.items, repository, i as int),
                ),
                forall|j: int|
                    0 <= j < mimetype_tally(self@.items, repository, i as int).len() ==> (
                    #[trigger] mimetype_tally(self@.items, repository, i as int)[j]).1 >= 1,
            decreases n - i,
        {
            let item = &self.items[i];
            if item.repository() == repository {
                match item.file() {
                    Some(f) => {
                        let ghost key = f.mimetype@;
                        let ghost before = mimetype_tally(self@.items, repository, i as int);
                        let ghost start = extension_views(out@);
                        let m = out.len();
                        let mut found = false;
                        let mut j: usize = 0;
                        proof {
                            assert(start.len() == out@.len());
                            assert(clamped(before).len() == before.len());
                        }
                        while j < m
                            invariant
                                j <= m,
                                m == out@.len(),
                                m == before.len(),
                                key == f.mimetype@,
                                start == clamped(before),
                                forall|k: int|
                                    0 <= k < before.len() ==> (#[trigger] before[k]).1 >= 1,
                                found == (exists|k: int|
                                    0 <= k < j && (#[trigger] before[k]).0 == key),
                                forall|k: int|
                                    0 <= k < j ==> (#[trigger] out@[k]).mimetype@ == before[k].0
                                        && out@[k].count == clamp_i64(
                                        if before[k].0 == key {
                                            before[k].1 + 1
                                        } else {
                                            before[k].1
                                        },
                                    ),
                                forall|k: int|
                                    j <= k < m ==> (#[trigger] out@[k]).mimetype@ == start[k].0
                                        && out@[k].count == start[k].1,
                            decreases m - j,
                        {
                            proof {
                                assert(start[j as int] == clamped(before)[j as int]);
                                assert(before[j as int].1 >= 1);
                            }
                            if out[j].mimetype == f.mimetype {
                                let bumped = RepositoryExtensionStats {
                                    mimetype: f.mimetype.clone(),
                                    count: one_more(out[j].count),
                                };
                                out.set(j, bumped);
                                found = true;
                            }
                            j = j + 1;
                        }
                        if !found {
                            out.push(
                                RepositoryExtensionStats { mimetype: f.mimetype.clone(), count: 1 },
                            );
                        }
                        proof {
                            let after = counted(before, key);
                            assert(self@.items[i as int].file->0.mimetype == key);
                            assert(mimetype_tally(self@.items, repository, i + 1) == after);
                            assert(found == has_entry(before, key));
                            assert(extension_views(out@) =~= clamped(after));
                            assert forall|k: int| 0 <= k < after.len() implies (
                            #[trigger] after[k]).1 >= 1 by {
                                if k < before.len() {
                                    assert(before[k].1 >= 1);
                                }
                            }
                        }
                    },
                    None => {},
                }
            }
            i = i + 1;
        }
        out
    }
}

} // verus!
