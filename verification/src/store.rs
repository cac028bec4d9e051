//! A table of mapping rows held in memory, shared by all repositories.

use vstd::prelude::*;
use vstd::slice::slice_to_vec;
use crate::entry::{BonsaiGitMappingEntry, BonsaisOrGitShas};
use crate::errors::AddGitMappingErrorKind;
use crate::hash::{ChangesetId, GitSha1, RepositoryId};

verus! {

/// One row of the table: an entry and the repository that it belongs to.
#[derive(Clone, Copy, Debug, PartialEq, Eq, Hash)]
pub struct MappingRow {
    pub repo_id: RepositoryId,
    pub entry: BonsaiGitMappingEntry,
}

impl MappingRow {
    /// Whether this is the same row as `other`.
    pub fn equals(&self, other: &MappingRow) -> (r: bool)
        ensures
            r == (*self == *other),
    {
        self.repo_id == other.repo_id && self.entry.equals(&other.entry)
    }
}

/// Two entries cannot stand in one repository: they agree on one side and differ on the
/// other.
pub open spec fn entries_conflict(a: BonsaiGitMappingEntry, b: BonsaiGitMappingEntry) -> bool {
    (a.git_sha1 == b.git_sha1) != (a.bcs_id == b.bcs_id)
}

/// Two rows cannot stand in one table: they are of one repository and their entries conflict.
pub open spec fn rows_conflict(a: MappingRow, b: MappingRow) -> bool {
    a.repo_id == b.repo_id && entries_conflict(a.entry, b.entry)
}

/// Within the set each changeset id has one git hash and each git hash one changeset id.
pub open spec fn consistent(entries: Set<BonsaiGitMappingEntry>) -> bool {
    forall|a: BonsaiGitMappingEntry, b: BonsaiGitMappingEntry|
        #![trigger entries.contains(a), entries.contains(b)]
        entries.contains(a) && entries.contains(b) ==> !entries_conflict(a, b)
}

/// Within each repository of the set each changeset id has one git hash and each git hash
/// one changeset id.
pub open spec fn rows_consistent(rows: Set<MappingRow>) -> bool {
    forall|a: MappingRow, b: MappingRow|
        #![trigger rows.contains(a), rows.contains(b)]
        rows.contains(a) && rows.contains(b) ==> !rows_conflict(a, b)
}

/// The entries that `rows` holds for `repo_id`.
pub open spec fn entries_of(rows: Seq<MappingRow>, repo_id: RepositoryId) -> Set<
    BonsaiGitMappingEntry,
> {
    Set::new(|e: BonsaiGitMappingEntry| rows.contains(MappingRow { repo_id, entry: e }))
}

/// `entries`, each as a row of `repo_id`.
pub open spec fn rows_for(repo_id: RepositoryId, entries: Seq<BonsaiGitMappingEntry>) -> Seq<
    MappingRow,
> {
    entries.map_values(|e: BonsaiGitMappingEntry| MappingRow { repo_id, entry: e })
}

/// The rows of each repository stand in ascending order of their git hashes, and no two of
/// them share a git hash or a changeset id.
pub open spec fn table_wf(rows: Seq<MappingRow>) -> bool {
    forall|i: int, j: int|
        #![trigger rows[i], rows[j]]
        0 <= i < j < rows.len() && rows[i].repo_id == rows[j].repo_id ==> rows[i].entry.git_sha1.value()
            < rows[j].entry.git_sha1.value() && rows[i].entry.bcs_id != rows[j].entry.bcs_id
}

/// A well-formed table holds no row twice and no two rows that conflict.
pub proof fn lemma_table_wf(rows: Seq<MappingRow>)
    requires
        table_wf(rows),
    ensures
        rows.no_duplicates(),
        rows_consistent(rows.to_set()),
        forall|repo_id: RepositoryId| consistent(#[trigger] entries_of(rows, repo_id)),
{
    assert forall|i: int, j: int| 0 <= i < rows.len() && 0 <= j < rows.len() && i != j implies rows[i]
        != rows[j] by {
        if i < j {
            assert(rows[i].repo_id == rows[j].repo_id ==> rows[i].entry.bcs_id != rows[j].entry.bcs_id);
        } else {
            assert(rows[j].repo_id == rows[i].repo_id ==> rows[j].entry.bcs_id != rows[i].entry.bcs_id);
        }
    }
    assert forall|a: MappingRow, b: MappingRow|
        rows.to_set().contains(a) && rows.to_set().contains(b) implies !rows_conflict(a, b) by {
        let i = choose|i: int| 0 <= i < rows.len() && rows[i] == a;
        let j = choose|j: int| 0 <= j < rows.len() && rows[j] == b;
        GitSha1::lemma_eq_by_view(a.entry.git_sha1, b.entry.git_sha1);
        if i < j {
            assert(rows[i].repo_id == rows[j].repo_id ==> rows[i].entry.bcs_id != rows[j].entry.bcs_id);
        } else if j < i {
            assert(rows[j].repo_id == rows[i].repo_id ==> rows[j].entry.bcs_id != rows[i].entry.bcs_id);
        }
    }
    assert forall|repo_id: RepositoryId| consistent(#[trigger] entries_of(rows, repo_id)) by {
        let s = entries_of(rows, repo_id);
        assert forall|a: BonsaiGitMappingEntry, b: BonsaiGitMappingEntry|
            s.contains(a) && s.contains(b) implies !entries_conflict(a, b) by {
            let ra = MappingRow { repo_id, entry: a };
            let rb = MappingRow { repo_id, entry: b };
            assert(rows.to_set().contains(ra) && rows.to_set().contains(rb));
            assert(!rows_conflict(ra, rb));
        }
    }
}

/// Each row of `batch` can stand beside every row of `existing` and of `batch`.
pub open spec fn rows_admit(existing: Set<MappingRow>, batch: Set<MappingRow>) -> bool {
    forall|a: MappingRow, b: MappingRow|
        #![trigger existing.union(batch).contains(a), batch.contains(b)]
        existing.union(batch).contains(a) && batch.contains(b) ==> !rows_conflict(a, b)
}

/// A consistent set stays so with a batch exactly where it admits the batch.
pub proof fn lemma_rows_admit(existing: Set<MappingRow>, batch: Set<MappingRow>)
    requires
        rows_consistent(existing),
    ensures
        rows_admit(existing, batch) <==> rows_consistent(existing.union(batch)),
{
    let all = existing.union(batch);
    if rows_admit(existing, batch) {
        assert forall|a: MappingRow, b: MappingRow|
            all.contains(a) && all.contains(b) implies !rows_conflict(a, b) by {
            if batch.contains(b) {
            } else if batch.contains(a) {
                assert(all.contains(b) && batch.contains(a));
                assert(!rows_conflict(b, a));
            } else {
                assert(existing.contains(a) && existing.contains(b));
            }
        }
    }
    if rows_consistent(all) {
        assert forall|a: MappingRow, b: MappingRow|
            #![trigger existing.union(batch).contains(a), batch.contains(b)]
            existing.union(batch).contains(a) && batch.contains(b) implies !rows_conflict(a, b) by {
            assert(all.contains(a) && all.contains(b));
        }
    }
}

/// `hash` lies in the closed range from `low` to `high`.
pub open spec fn in_range(hash: GitSha1, low: GitSha1, high: GitSha1) -> bool {
    low.value() <= hash.value() <= high.value()
}

/// `found` is what a scan of the rows of `repo_id` for the git hashes between `low` and
/// `high` gives, where at most `limit` hashes are wanted: those hashes in ascending order,
/// all of them, or the `limit` smallest where there are more.
pub open spec fn is_range_scan(
    table: Set<MappingRow>,
    repo_id: RepositoryId,
    low: GitSha1,
    high: GitSha1,
    limit: nat,
    found: Seq<GitSha1>,
) -> bool {
    &&& found.len() <= limit
    &&& forall|i: int, j: int|
        #![trigger found[i], found[j]]
        0 <= i < j < found.len() ==> found[i].value() < found[j].value()
    &&& forall|i: int|
        0 <= i < found.len() ==> in_range(#[trigger] found[i], low, high) && exists|
            row: MappingRow,
        |
            #[trigger] table.contains(row) && row.repo_id == repo_id && row.entry.git_sha1
                == found[i]
    &&& forall|row: MappingRow| #[trigger]
        table.contains(row) && row.repo_id == repo_id && in_range(row.entry.git_sha1, low, high)
            ==> found.contains(row.entry.git_sha1) || (found.len() == limit && forall|i: int|
            0 <= i < found.len() ==> (#[trigger] found[i]).value() < row.entry.git_sha1.value())
}

/// `found` is what a lookup of the git hash of `bcs_id` gives: the git hash of a row of
/// `repo_id` with that changeset id, and nothing only where there is no such row.
pub open spec fn is_git_sha1_of(
    table: Set<MappingRow>,
    repo_id: RepositoryId,
    bcs_id: ChangesetId,
    found: Option<GitSha1>,
) -> bool {
    match found {
        Some(git_sha1) => table.contains(
            MappingRow { repo_id, entry: BonsaiGitMappingEntry { git_sha1, bcs_id } },
        ),
        None => forall|row: MappingRow| #[trigger]
            table.contains(row) && row.repo_id == repo_id ==> row.entry.bcs_id != bcs_id,
    }
}

/// `found` is what a lookup of the changeset id of `git_sha1` gives: the changeset id of a
/// row of `repo_id` with that git hash, and nothing only where there is no such row.
pub open spec fn is_bonsai_of(
    table: Set<MappingRow>,
    repo_id: RepositoryId,
    git_sha1: GitSha1,
    found: Option<ChangesetId>,
) -> bool {
    match found {
        Some(bcs_id) => table.contains(
            MappingRow { repo_id, entry: BonsaiGitMappingEntry { git_sha1, bcs_id } },
        ),
        None => forall|row: MappingRow| #[trigger]
            table.contains(row) && row.repo_id == repo_id ==> row.entry.git_sha1 != git_sha1,
    }
}

/// The git hashes between `low` and `high` that the table has for `repo_id`.
pub open spec fn hashes_in_range(
    table: Set<MappingRow>,
    repo_id: RepositoryId,
    low: GitSha1,
    high: GitSha1,
) -> Set<GitSha1> {
    Set::new(
        |hash: GitSha1|
            in_range(hash, low, high) && exists|row: MappingRow|
                #[trigger] table.contains(row) && row.repo_id == repo_id && row.entry.git_sha1
                    == hash,
    )
}

/// `found` holds, each once, the entries that the table has for `repo_id` and that `key`
/// asks for.
pub open spec fn is_selection(
    table: Set<MappingRow>,
    repo_id: RepositoryId,
    key: BonsaisOrGitShas,
    found: Seq<BonsaiGitMappingEntry>,
) -> bool {
    &&& found.no_duplicates()
    &&& forall|e: BonsaiGitMappingEntry| #[trigger]
        found.contains(e) <==> table.contains(MappingRow { repo_id, entry: e }) && key.selects(e)
}

/// Whether two rows cannot stand in one table.
pub fn conflict(a: &MappingRow, b: &MappingRow) -> (r: bool)
    ensures
        r == rows_conflict(*a, *b),
{
    a.repo_id == b.repo_id && (a.entry.git_sha1.equals(&b.entry.git_sha1)
        != a.entry.bcs_id.equals(&b.entry.bcs_id))
}

/// Whether `key` asks for `entry`.
pub fn selected(key: &BonsaisOrGitShas, entry: &BonsaiGitMappingEntry) -> (r: bool)
    ensures
        r == key.selects(*entry),
{
    match key {
        BonsaisOrGitShas::Bonsai(ids) => crate::convert::contains_bcs_id(ids, &entry.bcs_id),
        BonsaisOrGitShas::GitSha1(ids) => crate::convert::contains_git_sha1(ids, &entry.git_sha1),
    }
}

/// The entries of `rows`, in their order.
pub open spec fn entries_in(rows: Seq<MappingRow>) -> Seq<BonsaiGitMappingEntry> {
    rows.map_values(|row: MappingRow| row.entry)
}

/// The entries, each as a row of `repo_id`.
pub fn tag_rows(repo_id: RepositoryId, entries: &[BonsaiGitMappingEntry]) -> (rows: Vec<MappingRow>)
    ensures
        rows@ == rows_for(repo_id, entries@),
{
    let mut rows: Vec<MappingRow> = Vec::with_capacity(entries.len());
    let mut i: usize = 0;
    while i < entries.len()
        invariant
            0 <= i <= entries@.len(),
            rows@.len() == i,
            forall|j: int|
                0 <= j < i ==> rows@[j] == (MappingRow { repo_id, entry: entries@[j] }),
        decreases entries@.len() - i,
    {
        rows.push(MappingRow { repo_id, entry: entries[i] });
        i += 1;
    }
    assert(rows@ =~= rows_for(repo_id, entries@));
    rows
}

/// The entries of the rows, in their order.
pub fn untag_rows(rows: &[MappingRow]) -> (entries: Vec<BonsaiGitMappingEntry>)
    ensures
        entries@ == entries_in(rows@),
{
    let mut entries: Vec<BonsaiGitMappingEntry> = Vec::with_capacity(rows.len());
    let mut i: usize = 0;
    while i < rows.len()
        invariant
            0 <= i <= rows@.len(),
            entries@.len() == i,
            forall|j: int| 0 <= j < i ==> entries@[j] == rows@[j].entry,
        decreases rows@.len() - i,
    {
        entries.push(rows[i].entry);
        i += 1;
    }
    assert(entries@ =~= entries_in(rows@));
    entries
}

/// Writes that were issued and are not in the table yet. Whoever holds the transaction
/// decides whether they get there: `MappingStore::commit` puts them in, all or none;
/// `rollback` drops them.
#[derive(Debug)]
pub struct Transaction {
    pending: Vec<MappingRow>,
}

impl View for Transaction {
    type V = Seq<MappingRow>;

    closed spec fn view(&self) -> Seq<MappingRow> {
        self.pending@
    }
}

impl Transaction {
    /// A transaction without writes.
    pub fn new() -> (r: Self)
        ensures
            r@ == Seq::<MappingRow>::empty(),
    {
        Transaction { pending: Vec::new() }
    }

    /// The rows that wait in the transaction, in the order in which they were issued.
    pub fn pending(&self) -> (rows: &[MappingRow])
        ensures
            rows@ == self@,
    {
        self.pending.as_slice()
    }

    /// The transaction with `rows` issued after what it held.
    pub fn stage(self, rows: &[MappingRow]) -> (r: Self)
        ensures
            r@ == self@ + rows@,
    {
        let mut pending = self.pending;
        let ghost before = pending@;
        let mut i: usize = 0;
        while i < rows.len()
            invariant
                0 <= i <= rows@.len(),
                pending@ == before + rows@.take(i as int),
            decreases rows@.len() - i,
        {
            pending.push(rows[i]);
            assert(pending@ =~= before + rows@.take(i + 1));
            i += 1;
        }
        assert(rows@.take(i as int) =~= rows@);
        Transaction { pending }
    }

    /// Gives the transaction up. Returns how many rows it held; none of them reaches a table.
    pub fn rollback(self) -> (dropped: usize)
        ensures
            dropped == self@.len(),
    {
        self.pending.len()
    }
}

/// The table of all mapping rows, of every repository.
#[derive(Clone, Debug)]
pub struct MappingStore {
    rows: Vec<MappingRow>,
}

impl View for MappingStore {
    type V = Seq<MappingRow>;

    closed spec fn view(&self) -> Seq<MappingRow> {
        self.rows@
    }
}

impl MappingStore {
    /// The invariant of the table.
    pub open spec fn wf(&self) -> bool {
        table_wf(self@)
    }

    /// The entries that the table holds for `repo_id`.
    pub open spec fn entries(&self, repo_id: RepositoryId) -> Set<BonsaiGitMappingEntry> {
        entries_of(self@, repo_id)
    }

    /// The table without rows.
    pub fn new() -> (r: Self)
        ensures
            r.wf(),
            r@ == Seq::<MappingRow>::empty(),
    {
        MappingStore { rows: Vec::new() }
    }

    /// The number of rows.
    pub fn len(&self) -> (n: usize)
        ensures
            n == self@.len(),
    {
        self.rows.len()
    }

    /// Whether the table holds `row`.
    pub fn contains_row(&self, row: &MappingRow) -> (r: bool)
        ensures
            r == self@.contains(*row),
    {
        let mut i: usize = 0;
        while i < self.rows.len()
            invariant
                0 <= i <= self@.len(),
                forall|j: int| 0 <= j < i ==> self@[j] != *row,
            decreases self@.len() - i,
        {
            if self.rows[i].equals(row) {
                return true;
            }
            i += 1;
        }
        false
    }

    /// Whether some row of the table cannot stand beside `row`.
    pub fn conflicts_with(&self, row: &MappingRow) -> (r: bool)
        ensures
            r == exists|j: int| 0 <= j < self@.len() && rows_conflict(#[trigger] self@[j], *row),
    {
        let mut i: usize = 0;
        while i < self.rows.len()
            invariant
                0 <= i <= self@.len(),
                forall|j: int| 0 <= j < i ==> !rows_conflict(#[trigger] self@[j], *row),
            decreases self@.len() - i,
        {
            if conflict(&self.rows[i], row) {
                return true;
            }
            i += 1;
        }
        false
    }

    /// Whether each row of `batch` can stand beside the rows of the table, of `pending` and
    /// of `batch`.
    pub fn admits(&self, pending: &[MappingRow], batch: &[MappingRow]) -> (r: bool)
        ensures
            r == rows_admit(self@.to_set().union(pending@.to_set()), batch@.to_set()),
    {
        let ghost existing = self@.to_set().union(pending@.to_set());
        let mut k: usize = 0;
        while k < batch.len()
            invariant
                0 <= k <= batch@.len(),
                existing == self@.to_set().union(pending@.to_set()),
                forall|a: MappingRow, n: int|
                    #![trigger existing.contains(a), batch@[n]]
                    existing.contains(a) && 0 <= n < k ==> !rows_conflict(a, batch@[n]),
                forall|m: int, n: int|
                    #![trigger batch@[m], batch@[n]]
                    0 <= m < n < k ==> !rows_conflict(batch@[m], batch@[n]),
            decreases batch@.len() - k,
        {
            let row = &batch[k];
            if self.conflicts_with(row) {
                proof {
                    let j = choose|j: int|
                        0 <= j < self@.len() && rows_conflict(#[trigger] self@[j], *row);
                    assert(self@.to_set().contains(self@[j]));
                    assert(existing.union(batch@.to_set()).contains(self@[j]));
                    assert(batch@.to_set().contains(batch@[k as int]));
                }
                return false;
            }
            let mut j: usize = 0;
            while j < pending.len()
                invariant
                    0 <= j <= pending@.len(),
                    0 <= k < batch@.len(),
                    *row == batch@[k as int],
                    existing == self@.to_set().union(pending@.to_set()),
                    forall|i: int| 0 <= i < j ==> !rows_conflict(#[trigger] pending@[i], *row),
                decreases pending@.len() - j,
            {
                if conflict(&pending[j], row) {
                    proof {
                        assert(pending@.to_set().contains(pending@[j as int]));
                        assert(existing.union(batch@.to_set()).contains(pending@[j as int]));
                        assert(batch@.to_set().contains(batch@[k as int]));
                    }
                    return false;
                }
                j += 1;
            }
            let mut m: usize = 0;
            while m < k
                invariant
                    0 <= m <= k < batch@.len(),
                    *row == batch@[k as int],
                    existing == self@.to_set().union(pending@.to_set()),
                    forall|i: int| 0 <= i < m ==> !rows_conflict(#[trigger] batch@[i], *row),
                decreases k - m,
            {
                if conflict(&batch[m], row) {
                    proof {
                        assert(batch@.to_set().contains(batch@[m as int]));
                        assert(existing.union(batch@.to_set()).contains(batch@[m as int]));
                        assert(batch@.to_set().contains(batch@[k as int]));
                    }
                    return false;
                }
                m += 1;
            }
            proof {
                assert forall|a: MappingRow, n: int|
                    #![trigger existing.contains(a), batch@[n]]
                    existing.contains(a) && 0 <= n < k + 1 implies !rows_conflict(a, batch@[n]) by {
                    if n == k {
                        if self@.to_set().contains(a) {
                            let i = choose|i: int| 0 <= i < self@.len() && self@[i] == a;
                            assert(!rows_conflict(self@[i], *row));
                        } else {
                            let i = choose|i: int| 0 <= i < pending@.len() && pending@[i] == a;
                            assert(!rows_conflict(pending@[i], *row));
                        }
                    }
                }
            }
            k += 1;
        }
        proof {
            let new_rows = batch@.to_set();
            assert forall|a: MappingRow, b: MappingRow|
                existing.union(new_rows).contains(a) && new_rows.contains(b) implies !rows_conflict(
                a,
                b,
            ) by {
                let n = choose|n: int| 0 <= n < batch@.len() && batch@[n] == b;
                if existing.contains(a) {
                    assert(!rows_conflict(a, batch@[n]));
                } else {
                    let m = choose|m: int| 0 <= m < batch@.len() && batch@[m] == a;
                    if m < n {
                        assert(!rows_conflict(batch@[m], batch@[n]));
                    } else if n < m {
                        assert(!rows_conflict(batch@[n], batch@[m]));
                    }
                }
            }
        }
        true
    }

    /// Adds the rows of `batch`, all of them or none: none where the table does not admit
    /// them. A row that the table holds already is not added again.
    pub fn add_rows(&mut self, batch: &[MappingRow]) -> (added: bool)
        requires
            old(self).wf(),
        ensures
            final(self).wf(),
            added == rows_admit(old(self)@.to_set(), batch@.to_set()),
            added ==> final(self)@.to_set() == old(self)@.to_set().union(batch@.to_set()),
            !added ==> final(self)@ == old(self)@,
    {
        let none: Vec<MappingRow> = Vec::new();
        assert(self@.to_set().union(none@.to_set()) =~= self@.to_set());
        if !self.admits(none.as_slice(), batch) {
            return false;
        }
        proof {
            lemma_table_wf(self@);
            lemma_rows_admit(self@.to_set(), batch@.to_set());
        }
        let ghost all = self@.to_set().union(batch@.to_set());
        let mut k: usize = 0;
        while k < batch.len()
            invariant
                0 <= k <= batch@.len(),
                self.wf(),
                all == old(self)@.to_set().union(batch@.to_set()),
                rows_consistent(all),
                self@.to_set() == old(self)@.to_set().union(batch@.take(k as int).to_set()),
            decreases batch@.len() - k,
        {
            let row = batch[k];
            proof {
                assert(batch@.take(k + 1).to_set() =~= batch@.take(k as int).to_set().insert(row)) by {
                    let longer = batch@.take(k + 1);
                    let shorter = batch@.take(k as int);
                    assert forall|r: MappingRow| longer.to_set().contains(r)
                        <==> shorter.to_set().insert(row).contains(r) by {
                        if longer.contains(r) {
                            let i = choose|i: int| 0 <= i < longer.len() && longer[i] == r;
                            if i < k {
                                assert(shorter[i] == r);
                            }
                        }
                        if shorter.contains(r) {
                            let i = choose|i: int| 0 <= i < shorter.len() && shorter[i] == r;
                            assert(longer[i] == r);
                        }
                        if r == row {
                            assert(longer[k as int] == r);
                        }
                    }
                }
                assert(batch@.to_set().contains(batch@[k as int]));
            }
            if !self.contains_row(&row) {
                proof {
                    assert forall|j: int| 0 <= j < self@.len() implies !rows_conflict(
                        #[trigger] self@[j],
                        row,
                    ) by {
                        assert(self@.to_set().contains(self@[j]));
                        if old(self)@.to_set().contains(self@[j]) {
                        } else {
                            let t = batch@.take(k as int);
                            let i = choose|i: int| 0 <= i < t.len() && t[i] == self@[j];
                            assert(batch@[i] == self@[j]);
                            assert(batch@.to_set().contains(self@[j]));
                        }
                        assert(all.contains(self@[j]) && all.contains(row));
                    }
                }
                self.insert_row(row);
            } else {
                assert(self@.to_set().insert(row) =~= self@.to_set());
            }
            assert(self@.to_set() =~= old(self)@.to_set().union(batch@.take(k + 1).to_set()));
            k += 1;
        }
        assert(batch@.take(k as int) =~= batch@);
        true
    }

    /// The entries that the table has for `repo_id` and that `key` asks for, in ascending
    /// order of their git hashes.
    pub fn get(&self, repo_id: RepositoryId, key: &BonsaisOrGitShas) -> (found: Vec<
        BonsaiGitMappingEntry,
    >)
        requires
            self.wf(),
        ensures
            is_selection(self@.to_set(), repo_id, *key, found@),
            forall|i: int, j: int|
                #![trigger found@[i], found@[j]]
                0 <= i < j < found@.len() ==> found@[i].git_sha1.value()
                    < found@[j].git_sha1.value(),
    {
        let mut found: Vec<BonsaiGitMappingEntry> = Vec::new();
        let ghost mut origin: Seq<int> = Seq::empty();
        let mut i: usize = 0;
        while i < self.rows.len()
            invariant
                0 <= i <= self@.len(),
                self.wf(),
                origin.len() == found@.len(),
                forall|k: int|
                    0 <= k < found@.len() ==> 0 <= #[trigger] origin[k] < i && self@[origin[k]]
                        == (MappingRow { repo_id, entry: found@[k] }) && key.selects(found@[k]),
                forall|k: int, l: int|
                    #![trigger origin[k], origin[l]]
                    0 <= k < l < found@.len() ==> origin[k] < origin[l],
                forall|j: int|
                    0 <= j < i && (#[trigger] self@[j]).repo_id == repo_id && key.selects(
                        self@[j].entry,
                    ) ==> found@.contains(self@[j].entry),
            decreases self@.len() - i,
        {
            let row = &self.rows[i];
            if row.repo_id == repo_id && selected(key, &row.entry) {
                let ghost before = found@;
                found.push(row.entry);
                proof {
                    origin = origin.push(i as int);
                    assert forall|j: int|
                        0 <= j < i + 1 && (#[trigger] self@[j]).repo_id == repo_id && key.selects(
                            self@[j].entry,
                        ) implies found@.contains(self@[j].entry) by {
                        if j < i {
                            let k = choose|k: int| 0 <= k < before.len() && before[k] == self@[j].entry;
                            assert(found@[k] == self@[j].entry);
                        } else {
                            assert(found@[found@.len() - 1] == self@[j].entry);
                        }
                    }
                }
            }
            i += 1;
        }
        proof {
            lemma_table_wf(self@);
            assert forall|k: int, l: int|
                #![trigger found@[k], found@[l]]
                0 <= k < l < found@.len() implies found@[k].git_sha1.value()
                < found@[l].git_sha1.value() by {
                assert(origin[k] < origin[l]);
                assert(self@[origin[k]].repo_id == self@[origin[l]].repo_id);
            }
            assert forall|k: int, l: int| 0 <= k < found@.len() && 0 <= l < found@.len() && k
                != l implies found@[k] != found@[l] by {
                if k < l {
                    assert(found@[k].git_sha1.value() < found@[l].git_sha1.value());
                } else {
                    assert(found@[l].git_sha1.value() < found@[k].git_sha1.value());
                }
            }
            assert forall|e: BonsaiGitMappingEntry| #[trigger]
                found@.contains(e) <==> self@.to_set().contains(MappingRow { repo_id, entry: e })
                    && key.selects(e) by {
                if found@.contains(e) {
                    let k = choose|k: int| 0 <= k < found@.len() && found@[k] == e;
                    assert(self@[origin[k]] == MappingRow { repo_id, entry: e });
                }
                if self@.contains(MappingRow { repo_id, entry: e }) && key.selects(e) {
                    let j = choose|j: int|
                        0 <= j < self@.len() && self@[j] == (MappingRow { repo_id, entry: e });
                    assert(found@.contains(self@[j].entry));
                }
            }
        }
        found
    }

    /// The git hashes between `low` and `high` that the table has for `repo_id`, in ascending
    /// order; the `limit` smallest where there are more.
    pub fn get_in_range(
        &self,
        repo_id: RepositoryId,
        low: &GitSha1,
        high: &GitSha1,
        limit: usize,
    ) -> (found: Vec<GitSha1>)
        requires
            self.wf(),
        ensures
            is_range_scan(self@.to_set(), repo_id, *low, *high, limit as nat, found@),
    {
        let mut found: Vec<GitSha1> = Vec::new();
        let ghost mut origin: Seq<int> = Seq::empty();
        let mut i: usize = 0;
        while i < self.rows.len() && found.len() < limit
            invariant
                0 <= i <= self@.len(),
                self.wf(),
                found@.len() <= limit,
                origin.len() == found@.len(),
                forall|k: int|
                    0 <= k < found@.len() ==> 0 <= #[trigger] origin[k] < i
                        && self@[origin[k]].repo_id == repo_id && self@[origin[k]].entry.git_sha1
                        == found@[k] && in_range(found@[k], *low, *high),
                forall|k: int, l: int|
                    #![trigger origin[k], origin[l]]
                    0 <= k < l < found@.len() ==> origin[k] < origin[l],
                forall|j: int|
                    0 <= j < i && (#[trigger] self@[j]).repo_id == repo_id && in_range(
                        self@[j].entry.git_sha1,
                        *low,
                        *high,
                    ) ==> found@.contains(self@[j].entry.git_sha1),
            decreases self@.len() - i,
        {
            let row = &self.rows[i];
            if row.repo_id == repo_id && row.entry.git_sha1.is_within(low, high) {
                let ghost before = found@;
                found.push(row.entry.git_sha1);
                proof {
                    origin = origin.push(i as int);
                    assert forall|j: int|
                        0 <= j < i + 1 && (#[trigger] self@[j]).repo_id == repo_id && in_range(
                            self@[j].entry.git_sha1,
                            *low,
                            *high,
                        ) implies found@.contains(self@[j].entry.git_sha1) by {
                        if j < i {
                            let k = choose|k: int|
                                0 <= k < before.len() && before[k] == self@[j].entry.git_sha1;
                            assert(found@[k] == self@[j].entry.git_sha1);
                        } else {
                            assert(found@[found@.len() - 1] == self@[j].entry.git_sha1);
                        }
                    }
                }
            }
            i += 1;
        }
        proof {
            let table = self@.to_set();
            assert forall|k: int, l: int|
                #![trigger found@[k], found@[l]]
                0 <= k < l < found@.len() implies found@[k].value() < found@[l].value() by {
                assert(origin[k] < origin[l]);
                assert(self@[origin[k]].repo_id == self@[origin[l]].repo_id);
            }
            assert forall|k: int| 0 <= k < found@.len() implies in_range(
                #[trigger] found@[k],
                *low,
                *high,
            ) && exists|row: MappingRow|
                #[trigger] table.contains(row) && row.repo_id == repo_id && row.entry.git_sha1
                    == found@[k] by {
                assert(table.contains(self@[origin[k]]));
            }
            assert forall|row: MappingRow| #[trigger]
                table.contains(row) && row.repo_id == repo_id && in_range(
                    row.entry.git_sha1,
                    *low,
                    *high,
                ) implies found@.contains(row.entry.git_sha1) || (found@.len() == limit && forall|
                k: int,
            |
                0 <= k < found@.len() ==> (#[trigger] found@[k]).value()
                    < row.entry.git_sha1.value()) by {
                let j = choose|j: int| 0 <= j < self@.len() && self@[j] == row;
                if j < i {
                    assert(found@.contains(self@[j].entry.git_sha1));
                } else {
                    assert forall|k: int| 0 <= k < found@.len() implies (
                    #[trigger] found@[k]).value() < row.entry.git_sha1.value() by {
                        assert(origin[k] < j);
                        assert(self@[origin[k]].repo_id == self@[j].repo_id);
                    }
                }
            }
        }
        found
    }

    /// Issues the entries as writes for `repo_id` in `transaction`, unless some entry
    /// cannot stand beside the rows of the table, those that wait in the transaction, and the
    /// other entries. The table itself stays as it is.
    pub fn stage(
        &self,
        repo_id: RepositoryId,
        entries: &[BonsaiGitMappingEntry],
        transaction: Transaction,
    ) -> (r: Result<Transaction, AddGitMappingErrorKind>)
        ensures
            match r {
                Ok(t) => rows_admit(
                    self@.to_set().union(transaction@.to_set()),
                    rows_for(repo_id, entries@).to_set(),
                ) && t@ == transaction@ + rows_for(repo_id, entries@),
                Err(AddGitMappingErrorKind::Conflict(refused)) => !rows_admit(
                    self@.to_set().union(transaction@.to_set()),
                    rows_for(repo_id, entries@).to_set(),
                ) && refused@ == entries@,
                Err(AddGitMappingErrorKind::StorageError(_)) => false,
            },
    {
        let rows = tag_rows(repo_id, entries);
        if self.admits(transaction.pending(), rows.as_slice()) {
            Ok(transaction.stage(rows.as_slice()))
        } else {
            Err(AddGitMappingErrorKind::Conflict(slice_to_vec(entries)))
        }
    }

    /// Puts the rows that wait in `transaction` into the table, all of them or none: none
    /// where the table does not admit them.
    pub fn commit(&mut self, transaction: Transaction) -> (r: Result<(), AddGitMappingErrorKind>)
        requires
            old(self).wf(),
        ensures
            final(self).wf(),
            match r {
                Ok(()) => rows_admit(old(self)@.to_set(), transaction@.to_set()) && final(self)@.to_set()
                    == old(self)@.to_set().union(transaction@.to_set()),
                Err(AddGitMappingErrorKind::Conflict(refused)) => !rows_admit(
                    old(self)@.to_set(),
                    transaction@.to_set(),
                ) && final(self)@ == old(self)@ && refused@ == entries_in(transaction@),
                Err(AddGitMappingErrorKind::StorageError(_)) => false,
            },
    {
        if self.add_rows(transaction.pending()) {
            Ok(())
        } else {
            Err(AddGitMappingErrorKind::Conflict(untag_rows(transaction.pending())))
        }
    }

    /// Adds the entries as rows of `repo_id` in a transaction of their own: all of them or
    /// none.
    pub fn bulk_add(&mut self, repo_id: RepositoryId, entries: &[BonsaiGitMappingEntry]) -> (r:
        Result<(), AddGitMappingErrorKind>)
        requires
            old(self).wf(),
        ensures
            final(self).wf(),
            match r {
                Ok(()) => rows_admit(old(self)@.to_set(), rows_for(repo_id, entries@).to_set())
                    && final(self)@.to_set() == old(self)@.to_set().union(
                    rows_for(repo_id, entries@).to_set(),
                ),
                Err(AddGitMappingErrorKind::Conflict(refused)) => !rows_admit(
                    old(self)@.to_set(),
                    rows_for(repo_id, entries@).to_set(),
                ) && final(self)@ == old(self)@ && refused@ == entries@,
                Err(AddGitMappingErrorKind::StorageError(_)) => false,
            },
    {
        let begun = Transaction::new();
        assert(self@.to_set().union(begun@.to_set()) =~= self@.to_set());
        assert(begun@ + rows_for(repo_id, entries@) =~= rows_for(repo_id, entries@));
        match self.stage(repo_id, entries, begun) {
            Ok(transaction) => {
                match self.commit(transaction) {
                    Ok(()) => Ok(()),
                    Err(e) => {
                        assert(false);
                        Err(e)
                    },
                }
            },
            Err(e) => Err(e),
        }
    }

    /// Puts `row` where the order of its repository's rows wants it.
    fn insert_row(&mut self, row: MappingRow)
        requires
            old(self).wf(),
            !old(self)@.contains(row),
            forall|j: int| 0 <= j < old(self)@.len() ==> !rows_conflict(#[trigger] old(self)@[j], row),
        ensures
            final(self).wf(),
            final(self)@.to_set() == old(self)@.to_set().insert(row),
            final(self)@.len() == old(self)@.len() + 1,
    {
        let mut p: usize = 0;
        while p < self.rows.len() && !(self.rows[p].repo_id == row.repo_id
            && row.entry.git_sha1.precedes(&self.rows[p].entry.git_sha1))
            invariant
                *self == *old(self),
                0 <= p <= self@.len(),
                forall|j: int|
                    0 <= j < p && self@[j].repo_id == row.repo_id ==> !(row.entry.git_sha1.value() < (
                    #[trigger] self@[j]).entry.git_sha1.value()),
            decreases self@.len() - p,
        {
            p += 1;
        }
        let ghost before = self@;
        self.rows.insert(p, row);
        proof {
            let after = self@;
            assert(after == before.insert(p as int, row));
            assert forall|i: int, j: int|
                #![trigger after[i], after[j]]
                0 <= i < j < after.len() && after[i].repo_id == after[j].repo_id implies after[i].entry.git_sha1.value()
                < after[j].entry.git_sha1.value() && after[i].entry.bcs_id
                != after[j].entry.bcs_id by {
                let oi = if i < p { i } else { i - 1 };
                let oj = if j < p { j } else { j - 1 };
                if i == p {
                    // the new row against a later one
                    assert(after[j] == before[oj]);
                    assert(!rows_conflict(before[oj], row));
                    assert(before[oj] != row);
                    GitSha1::lemma_eq_by_view(before[oj].entry.git_sha1, row.entry.git_sha1);
                    if oj > p {
                        assert(before[p as int].entry.git_sha1.value()
                            < before[oj].entry.git_sha1.value());
                    }
                } else if j == p {
                    // an earlier row against the new one
                    assert(after[i] == before[oi]);
                    assert(!rows_conflict(before[oi], row));
                    assert(before[oi] != row);
                    GitSha1::lemma_eq_by_view(before[oi].entry.git_sha1, row.entry.git_sha1);
                } else {
                    assert(after[i] == before[oi]);
                    assert(after[j] == before[oj]);
                }
            }
            assert(after.to_set() =~= before.to_set().insert(row)) by {
                assert forall|r: MappingRow| after.to_set().contains(r) <==> before.to_set().insert(
                    row,
                ).contains(r) by {
                    if after.contains(r) {
                        let k = choose|k: int| 0 <= k < after.len() && after[k] == r;
                        if k < p {
                            assert(before[k] == r);
                        } else if k > p {
                            assert(before[k - 1] == r);
                        }
                    }
                    if before.contains(r) {
                        let k = choose|k: int| 0 <= k < before.len() && before[k] == r;
                        if k < p {
                            assert(after[k] == r);
                        } else {
                            assert(after[k + 1] == r);
                        }
                    }
                    if r == row {
                        assert(after[p as int] == r);
                    }
                }
            }
        }
    }
}

} // verus!
