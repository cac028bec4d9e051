//! What holds of the mapping whatever the backend: laws over the tables and the results
//! that the operations speak of.

use vstd::prelude::*;
use vstd::set_lib::{lemma_len_subset, lemma_set_disjoint_lens, lemma_set_subset_finite};
use crate::convert::{bcs_ids_of, git_sha1s_of, lemma_unresolved, unresolved};
use crate::entry::{BonsaiGitMappingEntry, BonsaisOrGitShas};
use crate::hash::{ChangesetId, GitSha1, RepositoryId};
use crate::nodehash::{classify, spec_probe_limit, ResolvedView};
use crate::store::{
    entries_conflict, hashes_in_range, in_range, is_bonsai_of, is_git_sha1_of, is_range_scan,
    is_selection, rows_admit, rows_conflict, rows_consistent, rows_for, MappingRow,
};

verus! {

/// Round trip. In a table that holds `entry` for a repository, a lookup of the entry's
/// changeset id gives its git hash, and a lookup of its git hash gives its changeset id.
pub proof fn law_round_trip(
    table: Set<MappingRow>,
    repo_id: RepositoryId,
    entry: BonsaiGitMappingEntry,
    git_found: Option<GitSha1>,
    bonsai_found: Option<ChangesetId>,
)
    requires
        rows_consistent(table),
        table.contains(MappingRow { repo_id, entry }),
        is_git_sha1_of(table, repo_id, entry.bcs_id, git_found),
        is_bonsai_of(table, repo_id, entry.git_sha1, bonsai_found),
    ensures
        git_found == Some(entry.git_sha1),
        bonsai_found == Some(entry.bcs_id),
{
    let row = MappingRow { repo_id, entry };
    match git_found {
        Some(git_sha1) => {
            let other = MappingRow {
                repo_id,
                entry: BonsaiGitMappingEntry { git_sha1, bcs_id: entry.bcs_id },
            };
            assert(table.contains(row) && table.contains(other));
            assert(!rows_conflict(row, other));
        },
        None => {
            assert(table.contains(row) && row.repo_id == repo_id);
        },
    }
    match bonsai_found {
        Some(bcs_id) => {
            let other = MappingRow {
                repo_id,
                entry: BonsaiGitMappingEntry { git_sha1: entry.git_sha1, bcs_id },
            };
            assert(table.contains(row) && table.contains(other));
            assert(!rows_conflict(row, other));
        },
        None => {
            assert(table.contains(row) && row.repo_id == repo_id);
        },
    }
}

/// Bijection conflict. A table that holds, for a repository, a row with the changeset id of
/// `entry` and another git hash, or with its git hash and another changeset id, does not
/// admit `entry` for that repository: adding it is refused, and the table stays as it is.
pub proof fn law_conflict(
    table: Set<MappingRow>,
    repo_id: RepositoryId,
    held: BonsaiGitMappingEntry,
    entry: BonsaiGitMappingEntry,
)
    requires
        table.contains(MappingRow { repo_id, entry: held }),
        (held.bcs_id == entry.bcs_id && held.git_sha1 != entry.git_sha1) || (held.git_sha1
            == entry.git_sha1 && held.bcs_id != entry.bcs_id),
    ensures
        entries_conflict(held, entry),
        !rows_admit(table, set![MappingRow { repo_id, entry }]),
        !rows_admit(table, rows_for(repo_id, seq![entry]).to_set()),
{
    let a = MappingRow { repo_id, entry: held };
    let b = MappingRow { repo_id, entry };
    assert(rows_conflict(a, b));
    assert(table.union(set![b]).contains(a) && set![b].contains(b));
    let batch = rows_for(repo_id, seq![entry]);
    assert(batch[0] == b);
    assert(batch.to_set().contains(b));
    assert(table.union(batch.to_set()).contains(a));
}

/// An entry that a table holds already for a repository is admitted again, where the
/// table is consistent: adding a row twice is no conflict.
pub proof fn law_add_is_idempotent(
    table: Set<MappingRow>,
    repo_id: RepositoryId,
    entry: BonsaiGitMappingEntry,
)
    requires
        rows_consistent(table),
        table.contains(MappingRow { repo_id, entry }),
    ensures
        rows_admit(table, set![MappingRow { repo_id, entry }]),
        table.union(set![MappingRow { repo_id, entry }]) == table,
{
    let row = MappingRow { repo_id, entry };
    assert(table.union(set![row]) =~= table);
    assert forall|a: MappingRow, b: MappingRow|
        #![trigger table.union(set![row]).contains(a), set![row].contains(b)]
        table.union(set![row]).contains(a) && set![row].contains(b) implies !rows_conflict(a, b) by {
        assert(table.contains(a) && table.contains(b));
    }
}

/// What a scan for a range gave tells how many hashes the range holds: all of them came
/// back where fewer came back than were asked for, and else at least as many exist.
pub proof fn lemma_range_scan_count(
    table: Set<MappingRow>,
    repo_id: RepositoryId,
    low: GitSha1,
    high: GitSha1,
    limit: nat,
    found: Seq<GitSha1>,
)
    requires
        table.finite(),
        is_range_scan(table, repo_id, low, high, limit, found),
    ensures
        hashes_in_range(table, repo_id, low, high).finite(),
        found.no_duplicates(),
        found.to_set().subset_of(hashes_in_range(table, repo_id, low, high)),
        found.len() < limit ==> found.to_set() == hashes_in_range(table, repo_id, low, high)
            && hashes_in_range(table, repo_id, low, high).len() == found.len(),
        found.len() == limit ==> hashes_in_range(table, repo_id, low, high).len() >= limit,
{
    let all = hashes_in_range(table, repo_id, low, high);
    let git_sha1_of = |row: MappingRow| row.entry.git_sha1;
    table.lemma_map_finite(git_sha1_of);
    assert(all.subset_of(table.map(git_sha1_of))) by {
        assert forall|hash: GitSha1| all.contains(hash) implies table.map(git_sha1_of).contains(
            hash,
        ) by {
            let row = choose|row: MappingRow|
                #[trigger] table.contains(row) && row.repo_id == repo_id && row.entry.git_sha1
                    == hash;
            assert(table.contains(row) && git_sha1_of(row) == hash);
        }
    }
    lemma_set_subset_finite(table.map(git_sha1_of), all);
    assert forall|i: int, j: int| 0 <= i < found.len() && 0 <= j < found.len() && i
        != j implies found[i] != found[j] by {
        if i < j {
            assert(found[i].value() < found[j].value());
        } else {
            assert(found[j].value() < found[i].value());
        }
    }
    assert forall|hash: GitSha1| found.to_set().contains(hash) implies all.contains(hash) by {
        let i = choose|i: int| 0 <= i < found.len() && found[i] == hash;
        assert(in_range(found[i], low, high));
    }
    found.unique_seq_to_set();
    if found.len() < limit {
        assert forall|hash: GitSha1| all.contains(hash) implies found.to_set().contains(hash) by {
            let row = choose|row: MappingRow|
                #[trigger] table.contains(row) && row.repo_id == repo_id && row.entry.git_sha1
                    == hash;
            assert(table.contains(row) && row.repo_id == repo_id && in_range(
                row.entry.git_sha1,
                low,
                high,
            ));
        }
        assert(found.to_set() =~= all);
    } else {
        lemma_len_subset(found.to_set(), all);
    }
}

/// Two scans of one range agree at every index that both have.
proof fn lemma_range_scans_agree_at(
    table: Set<MappingRow>,
    repo_id: RepositoryId,
    low: GitSha1,
    high: GitSha1,
    limit: nat,
    a: Seq<GitSha1>,
    b: Seq<GitSha1>,
    i: int,
)
    requires
        is_range_scan(table, repo_id, low, high, limit, a),
        is_range_scan(table, repo_id, low, high, limit, b),
        0 <= i < a.len(),
        i < b.len(),
    ensures
        a[i] == b[i],
    decreases i,
{
    assert forall|k: int| 0 <= k < i implies a[k] == b[k] by {
        lemma_range_scans_agree_at(table, repo_id, low, high, limit, a, b, k);
    }
    GitSha1::lemma_eq_by_view(a[i], b[i]);
    lemma_scan_holds_smaller(table, repo_id, low, high, limit, a, b, i);
    lemma_scan_holds_smaller(table, repo_id, low, high, limit, b, a, i);
}

/// Where two scans of one range agree before `i`, the hash at `i` of the second is not
/// larger than that of the first.
proof fn lemma_scan_holds_smaller(
    table: Set<MappingRow>,
    repo_id: RepositoryId,
    low: GitSha1,
    high: GitSha1,
    limit: nat,
    a: Seq<GitSha1>,
    b: Seq<GitSha1>,
    i: int,
)
    requires
        is_range_scan(table, repo_id, low, high, limit, a),
        is_range_scan(table, repo_id, low, high, limit, b),
        0 <= i < a.len(),
        i < b.len(),
        forall|k: int| 0 <= k < i ==> a[k] == b[k],
    ensures
        b[i].value() <= a[i].value(),
{
    if a[i].value() < b[i].value() {
        assert(in_range(a[i], low, high));
        let row = choose|row: MappingRow|
            #[trigger] table.contains(row) && row.repo_id == repo_id && row.entry.git_sha1 == a[i];
        assert(table.contains(row) && row.repo_id == repo_id && in_range(
            row.entry.git_sha1,
            low,
            high,
        ));
        if b.contains(a[i]) {
            let m = choose|m: int| 0 <= m < b.len() && b[m] == a[i];
            if m < i {
                assert(a[m] == b[m]);
                assert(a[m].value() < a[i].value());
            } else if m > i {
                assert(b[i].value() < b[m].value());
            }
        } else {
            assert(b[i].value() < row.entry.git_sha1.value());
        }
    }
}

/// A range has one scan: what `get_in_range` gives is fixed by the table, the range and the
/// limit.
pub proof fn law_range_scan_is_unique(
    table: Set<MappingRow>,
    repo_id: RepositoryId,
    low: GitSha1,
    high: GitSha1,
    limit: nat,
    a: Seq<GitSha1>,
    b: Seq<GitSha1>,
)
    requires
        is_range_scan(table, repo_id, low, high, limit, a),
        is_range_scan(table, repo_id, low, high, limit, b),
    ensures
        a == b,
{
    assert forall|i: int| 0 <= i < a.len() && i < b.len() implies a[i] == b[i] by {
        lemma_range_scans_agree_at(table, repo_id, low, high, limit, a, b, i);
    }
    lemma_scan_is_not_shorter(table, repo_id, low, high, limit, a, b);
    lemma_scan_is_not_shorter(table, repo_id, low, high, limit, b, a);
    assert(a =~= b);
}

/// Of two scans of one range that agree where both have a hash, the second is not longer.
proof fn lemma_scan_is_not_shorter(
    table: Set<MappingRow>,
    repo_id: RepositoryId,
    low: GitSha1,
    high: GitSha1,
    limit: nat,
    a: Seq<GitSha1>,
    b: Seq<GitSha1>,
)
    requires
        is_range_scan(table, repo_id, low, high, limit, a),
        is_range_scan(table, repo_id, low, high, limit, b),
        forall|i: int| 0 <= i < a.len() && i < b.len() ==> a[i] == b[i],
    ensures
        b.len() <= a.len(),
{
    if a.len() < b.len() {
        let n = a.len() as int;
        assert(in_range(b[n], low, high));
        let row = choose|row: MappingRow|
            #[trigger] table.contains(row) && row.repo_id == repo_id && row.entry.git_sha1 == b[n];
        assert(table.contains(row) && row.repo_id == repo_id && in_range(
            row.entry.git_sha1,
            low,
            high,
        ));
        if a.contains(b[n]) {
            let m = choose|m: int| 0 <= m < a.len() && a[m] == b[n];
            assert(a[m] == b[m]);
            assert(b[m].value() < b[n].value());
        }
    }
}

/// Two lookups with one key find the same entries, the same number of them: only their
/// order is the backend's.
pub proof fn law_selection_is_unique(
    table: Set<MappingRow>,
    repo_id: RepositoryId,
    key: BonsaisOrGitShas,
    a: Seq<BonsaiGitMappingEntry>,
    b: Seq<BonsaiGitMappingEntry>,
)
    requires
        is_selection(table, repo_id, key, a),
        is_selection(table, repo_id, key, b),
    ensures
        a.to_set() == b.to_set(),
        a.len() == b.len(),
{
    assert(a.to_set() =~= b.to_set()) by {
        assert forall|e: BonsaiGitMappingEntry| a.to_set().contains(e) <==> b.to_set().contains(
            e,
        ) by {
            assert(a.contains(e) <==> b.contains(e));
        }
    }
    a.unique_seq_to_set();
    b.unique_seq_to_set();
}

/// Prefix classification. Where a repository holds `n` hashes in the range of a prefix and
/// at most `limit` are wanted, resolving reports: no match for `n == 0`; the one hash for
/// `n == 1`; all `n` hashes, in ascending order, for `n` from 2 to `limit`; and for more than
/// `limit`, where `limit` is not 0, the `limit` smallest in ascending order, without the one
/// that was fetched beyond them.
pub proof fn law_prefix_classification(
    table: Set<MappingRow>,
    repo_id: RepositoryId,
    low: GitSha1,
    high: GitSha1,
    limit: usize,
    fetched: Seq<GitSha1>,
)
    requires
        table.finite(),
        limit < usize::MAX,
        is_range_scan(table, repo_id, low, high, spec_probe_limit(limit) as nat, fetched),
    ensures
        hashes_in_range(table, repo_id, low, high).finite(),
        hashes_in_range(table, repo_id, low, high).len() == 0 ==> classify(fetched, limit as nat)
            == ResolvedView::NoMatch,
        hashes_in_range(table, repo_id, low, high).len() == 1 ==> classify(fetched, limit as nat)
            == ResolvedView::Single(fetched[0]) && hashes_in_range(
            table,
            repo_id,
            low,
            high,
        ).contains(fetched[0]),
        2 <= hashes_in_range(table, repo_id, low, high).len() <= limit ==> classify(
            fetched,
            limit as nat,
        ) == ResolvedView::Multiple(fetched) && fetched.len() == hashes_in_range(
            table,
            repo_id,
            low,
            high,
        ).len() && fetched.to_set() == hashes_in_range(table, repo_id, low, high),
        hashes_in_range(table, repo_id, low, high).len() > limit >= 1 ==> classify(
            fetched,
            limit as nat,
        ) == ResolvedView::TooMany(fetched.take(limit as int)) && fetched.len() == limit + 1
            && fetched.take(limit as int).len() == limit && fetched.take(
            limit as int,
        ).to_set().subset_of(hashes_in_range(table, repo_id, low, high)) && !fetched.take(
            limit as int,
        ).contains(fetched[limit as int]),
{
    let probe = (limit + 1) as nat;
    assert(spec_probe_limit(limit) as nat == probe);
    lemma_range_scan_count(table, repo_id, low, high, probe, fetched);
    let all = hashes_in_range(table, repo_id, low, high);
    let n = all.len();
    if fetched.len() < probe {
        assert(n == fetched.len());
        if n == 1 {
            assert(fetched.to_set().contains(fetched[0]));
        }
    } else {
        assert(fetched.len() == limit + 1);
        assert(n >= limit + 1);
        if n == 1 {
            assert(fetched.to_set().contains(fetched[0]));
            assert(all.contains(fetched[0]));
        }
        if limit >= 1 {
            let first = fetched.take(limit as int);
            assert forall|hash: GitSha1| first.to_set().contains(hash) implies all.contains(
                hash,
            ) by {
                let i = choose|i: int| 0 <= i < first.len() && first[i] == hash;
                assert(fetched[i] == hash);
                assert(fetched.to_set().contains(hash));
            }
            if first.contains(fetched[limit as int]) {
                let i = choose|i: int| 0 <= i < first.len() && first[i] == fetched[limit as int];
                assert(fetched[i].value() < fetched[limit as int].value());
            }
        }
    }
}

/// All or nothing. Where `requested` names `n` git hashes, none twice, and the lookup found
/// the rows of `m` of them, the hashes without a row are `n - m`: they are what a
/// conversion of all hashes reports as missing, and the conversion of the available ones
/// has `m` ids.
pub proof fn law_all_or_nothing(
    table: Set<MappingRow>,
    repo_id: RepositoryId,
    key: BonsaisOrGitShas,
    found: Seq<BonsaiGitMappingEntry>,
)
    requires
        rows_consistent(table),
        key is GitSha1,
        key->GitSha1_0@.no_duplicates(),
        is_selection(table, repo_id, key, found),
    ensures
        ({
            let requested = key->GitSha1_0@;
            let missing = unresolved(requested, git_sha1s_of(found));
            &&& missing.len() == requested.len() - found.len()
            &&& missing.no_duplicates()
            &&& forall|id: GitSha1| #[trigger]
                missing.contains(id) <==> requested.contains(id) && is_bonsai_of(
                    table,
                    repo_id,
                    id,
                    None,
                )
        }),
{
    let requested = key->GitSha1_0@;
    let resolved = git_sha1s_of(found);
    let missing = unresolved(requested, resolved);
    lemma_unresolved(requested, resolved);
    assert forall|i: int, j: int| 0 <= i < resolved.len() && 0 <= j < resolved.len() && i
        != j implies resolved[i] != resolved[j] by {
        assert(found.contains(found[i]) && found.contains(found[j]));
        let a = MappingRow { repo_id, entry: found[i] };
        let b = MappingRow { repo_id, entry: found[j] };
        assert(table.contains(a) && table.contains(b));
        assert(!rows_conflict(a, b));
        assert(found[i] != found[j]);
    }
    assert forall|id: GitSha1| #[trigger]
        missing.contains(id) <==> requested.contains(id) && is_bonsai_of(
            table,
            repo_id,
            id,
            None,
        ) by {
        if requested.contains(id) && !resolved.contains(id) {
            assert forall|row: MappingRow| #[trigger]
                table.contains(row) && row.repo_id == repo_id implies row.entry.git_sha1 != id by {
                if row.entry.git_sha1 == id {
                    assert(key.selects(row.entry));
                    assert(found.contains(row.entry));
                    let k = choose|k: int| 0 <= k < found.len() && found[k] == row.entry;
                    assert(resolved[k] == id);
                }
            }
        }
        if requested.contains(id) && resolved.contains(id) {
            let k = choose|k: int| 0 <= k < resolved.len() && resolved[k] == id;
            assert(found.contains(found[k]));
            assert(table.contains(MappingRow { repo_id, entry: found[k] }));
        }
    }
    let a = missing.to_set();
    let b = resolved.to_set();
    assert(a.disjoint(b));
    assert(a + b =~= requested.to_set()) by {
        assert forall|id: GitSha1| b.contains(id) implies requested.contains(id) by {
            let k = choose|k: int| 0 <= k < resolved.len() && resolved[k] == id;
            assert(found.contains(found[k]));
            assert(key.selects(found[k]));
        }
    }
    lemma_set_disjoint_lens(a, b);
    missing.unique_seq_to_set();
    resolved.unique_seq_to_set();
    requested.unique_seq_to_set();
}

/// All or nothing, from changeset ids: where `requested` names `n` changeset ids, none
/// twice, and the lookup found the rows of `m` of them, the ids without a row are `n - m`.
pub proof fn law_all_or_nothing_from_bonsai(
    table: Set<MappingRow>,
    repo_id: RepositoryId,
    key: BonsaisOrGitShas,
    found: Seq<BonsaiGitMappingEntry>,
)
    requires
        rows_consistent(table),
        key is Bonsai,
        key->Bonsai_0@.no_duplicates(),
        is_selection(table, repo_id, key, found),
    ensures
        ({
            let requested = key->Bonsai_0@;
            let missing = unresolved(requested, bcs_ids_of(found));
            &&& missing.len() == requested.len() - found.len()
            &&& missing.no_duplicates()
            &&& forall|id: ChangesetId| #[trigger]
                missing.contains(id) <==> requested.contains(id) && is_git_sha1_of(
                    table,
                    repo_id,
                    id,
                    None,
                )
        }),
{
    let requested = key->Bonsai_0@;
    let resolved = bcs_ids_of(found);
    let missing = unresolved(requested, resolved);
    lemma_unresolved(requested, resolved);
    assert forall|i: int, j: int| 0 <= i < resolved.len() && 0 <= j < resolved.len() && i
        != j implies resolved[i] != resolved[j] by {
        assert(found.contains(found[i]) && found.contains(found[j]));
        let a = MappingRow { repo_id, entry: found[i] };
        let b = MappingRow { repo_id, entry: found[j] };
        assert(table.contains(a) && table.contains(b));
        assert(!rows_conflict(a, b));
        assert(found[i] != found[j]);
    }
    assert forall|id: ChangesetId| #[trigger]
        missing.contains(id) <==> requested.contains(id) && is_git_sha1_of(
            table,
            repo_id,
            id,
            None,
        ) by {
        if requested.contains(id) && !resolved.contains(id) {
            assert forall|row: MappingRow| #[trigger]
                table.contains(row) && row.repo_id == repo_id implies row.entry.bcs_id != id by {
                if row.entry.bcs_id == id {
                    assert(key.selects(row.entry));
                    assert(found.contains(row.entry));
                    let k = choose|k: int| 0 <= k < found.len() && found[k] == row.entry;
                    assert(resolved[k] == id);
                }
            }
        }
        if requested.contains(id) && resolved.contains(id) {
            let k = choose|k: int| 0 <= k < resolved.len() && resolved[k] == id;
            assert(found.contains(found[k]));
            assert(table.contains(MappingRow { repo_id, entry: found[k] }));
        }
    }
    let a = missing.to_set();
    let b = resolved.to_set();
    assert(a.disjoint(b));
    assert(a + b =~= requested.to_set()) by {
        assert forall|id: ChangesetId| b.contains(id) implies requested.contains(id) by {
            let k = choose|k: int| 0 <= k < resolved.len() && resolved[k] == id;
            assert(found.contains(found[k]));
            assert(key.selects(found[k]));
        }
    }
    lemma_set_disjoint_lens(a, b);
    missing.unique_seq_to_set();
    resolved.unique_seq_to_set();
    requested.unique_seq_to_set();
}

/// Repository isolation. Rows that are added for one repository change nothing of what
/// the lookups and the range scans of another repository give, whatever the changeset ids
/// and git hashes of those rows.
pub proof fn law_repository_isolation(
    table: Set<MappingRow>,
    writer: RepositoryId,
    added: Seq<BonsaiGitMappingEntry>,
    reader: RepositoryId,
    key: BonsaisOrGitShas,
    found: Seq<BonsaiGitMappingEntry>,
    low: GitSha1,
    high: GitSha1,
    limit: nat,
    hashes: Seq<GitSha1>,
)
    requires
        writer != reader,
    ensures
        is_selection(table.union(rows_for(writer, added).to_set()), reader, key, found)
            <==> is_selection(table, reader, key, found),
        is_range_scan(table.union(rows_for(writer, added).to_set()), reader, low, high, limit, hashes)
            <==> is_range_scan(table, reader, low, high, limit, hashes),
        forall|bcs_id: ChangesetId, git_found: Option<GitSha1>|
            is_git_sha1_of(table.union(rows_for(writer, added).to_set()), reader, bcs_id, git_found)
                <==> is_git_sha1_of(table, reader, bcs_id, git_found),
        forall|git_sha1: GitSha1, bonsai_found: Option<ChangesetId>|
            is_bonsai_of(table.union(rows_for(writer, added).to_set()), reader, git_sha1, bonsai_found)
                <==> is_bonsai_of(table, reader, git_sha1, bonsai_found),
{
    let batch = rows_for(writer, added).to_set();
    let after = table.union(batch);
    assert forall|row: MappingRow| row.repo_id == reader implies (after.contains(row)
        <==> table.contains(row)) by {
        if batch.contains(row) {
            let i = choose|i: int|
                0 <= i < rows_for(writer, added).len() && rows_for(writer, added)[i] == row;
            assert(row.repo_id == writer);
        }
    }
    assert(is_selection(after, reader, key, found) <==> is_selection(table, reader, key, found));
    assert(is_range_scan(after, reader, low, high, limit, hashes) <==> is_range_scan(
        table,
        reader,
        low,
        high,
        limit,
        hashes,
    ));
}

} // verus!
