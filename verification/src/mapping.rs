//! What a backend of the mapping offers, and what follows from it for every backend.

use vstd::prelude::*;
use crate::convert::{
    all_bonsai_to_git, all_git_to_bonsai, bcs_ids_of, git_sha1s_of, to_bcs_ids, to_git_sha1s,
    unresolved,
};
use crate::entry::{BonsaiGitMappingEntry, BonsaisOrGitShas};
use crate::errors::{AddGitMappingErrorKind, MappingError, StorageError};
use crate::extra::{entry_keys, importable, plan_import, BonsaiChangeset};
use crate::git_map::{lemma_entries_to_map, BonsaiToGitMap};
use crate::hash::{ChangesetId, GitSha1, RepositoryId};
use crate::nodehash::{classify, probe_limit, GitSha1Prefix, GitSha1sResolvedFromPrefix};
use crate::store::{
    is_bonsai_of, is_git_sha1_of, is_range_scan, is_selection, rows_admit, rows_consistent,
    rows_for, MappingRow, Transaction,
};

verus! {

/// The mapping between the changeset ids and the git hashes of one repository.
///
/// A backend holds a table of rows and offers four operations on the rows of its
/// repository: `bulk_add`, `bulk_add_git_mapping_in_transaction`, `get` and `get_in_range`.
/// The other operations are written here once, for every backend.
pub trait BonsaiGitMapping {
    /// The rows of the table that the backend works on, of every repository.
    spec fn table(&self) -> Set<MappingRow>;

    /// The repository whose rows the backend reads and writes.
    spec fn spec_repo_id(&self) -> RepositoryId;

    /// The invariant of the backend.
    spec fn wf(&self) -> bool;

    /// The backend cannot fail: none of its operations gives a `StorageError`.
    spec fn infallible(&self) -> bool;

    /// The table of a backend has finitely many rows, and in it each changeset id of a
    /// repository has one git hash, and each git hash one changeset id.
    proof fn lemma_table_consistent(&self)
        requires
            self.wf(),
        ensures
            self.table().finite(),
            rows_consistent(self.table()),
    ;

    /// The repository whose rows the backend reads and writes.
    fn repo_id(&self) -> (id: RepositoryId)
        ensures
            id == self.spec_repo_id(),
    ;

    /// Adds the entries as rows of the repository, all of them or none. They are refused as
    /// a conflict exactly where some entry cannot stand beside the rows of the table and the
    /// other entries.
    fn bulk_add(&mut self, entries: &[BonsaiGitMappingEntry]) -> (r: Result<
        (),
        AddGitMappingErrorKind,
    >)
        requires
            old(self).wf(),
        ensures
            final(self).wf(),
            final(self).spec_repo_id() == old(self).spec_repo_id(),
            final(self).infallible() == old(self).infallible(),
            old(self).infallible() ==> !(r matches Err(AddGitMappingErrorKind::StorageError(_))),
            match r {
                Ok(()) => rows_admit(
                    old(self).table(),
                    rows_for(old(self).spec_repo_id(), entries@).to_set(),
                ) && final(self).table() == old(self).table().union(
                    rows_for(old(self).spec_repo_id(), entries@).to_set(),
                ),
                Err(AddGitMappingErrorKind::Conflict(refused)) => !rows_admit(
                    old(self).table(),
                    rows_for(old(self).spec_repo_id(), entries@).to_set(),
                ) && final(self).table() == old(self).table() && refused@ == entries@,
                Err(AddGitMappingErrorKind::StorageError(_)) => final(self).table()
                    == old(self).table(),
            },
    ;

    /// Issues the entries as writes in a transaction that the caller began, and hands the
    /// transaction back: the caller commits it or rolls it back. The table stays as it is.
    fn bulk_add_git_mapping_in_transaction(
        &self,
        entries: &[BonsaiGitMappingEntry],
        transaction: Transaction,
    ) -> (r: Result<Transaction, AddGitMappingErrorKind>)
        requires
            self.wf(),
        ensures
            self.infallible() ==> !(r matches Err(AddGitMappingErrorKind::StorageError(_))),
            match r {
                Ok(t) => rows_admit(
                    self.table().union(transaction@.to_set()),
                    rows_for(self.spec_repo_id(), entries@).to_set(),
                ) && t@ == transaction@ + rows_for(self.spec_repo_id(), entries@),
                Err(AddGitMappingErrorKind::Conflict(refused)) => !rows_admit(
                    self.table().union(transaction@.to_set()),
                    rows_for(self.spec_repo_id(), entries@).to_set(),
                ) && refused@ == entries@,
                Err(AddGitMappingErrorKind::StorageError(_)) => true,
            },
    ;

    /// The entries of the repository that `field` asks for. An id without a row gives no
    /// entry and no error.
    fn get(&self, field: BonsaisOrGitShas) -> (r: Result<Vec<BonsaiGitMappingEntry>, StorageError>)
        requires
            self.wf(),
        ensures
            self.infallible() ==> r is Ok,
            r matches Ok(found) ==> is_selection(self.table(), self.spec_repo_id(), field, found@),
    ;

    /// The git hashes of the repository between `low` and `high`, in ascending order; the
    /// `limit` smallest where there are more.
    fn get_in_range(&self, low: GitSha1, high: GitSha1, limit: usize) -> (r: Result<
        Vec<GitSha1>,
        StorageError,
    >)
        requires
            self.wf(),
        ensures
            self.infallible() ==> r is Ok,
            r matches Ok(found) ==> is_range_scan(
                self.table(),
                self.spec_repo_id(),
                low,
                high,
                limit as nat,
                found@,
            ),
    ;

    /// Adds one entry.
    fn add(&mut self, entry: BonsaiGitMappingEntry) -> (r: Result<(), AddGitMappingErrorKind>)
        requires
            old(self).wf(),
        ensures
            final(self).wf(),
            final(self).spec_repo_id() == old(self).spec_repo_id(),
            final(self).infallible() == old(self).infallible(),
            old(self).infallible() ==> !(r matches Err(AddGitMappingErrorKind::StorageError(_))),
            match r {
                Ok(()) => rows_admit(
                    old(self).table(),
                    set![MappingRow { repo_id: old(self).spec_repo_id(), entry }],
                ) && final(self).table() == old(self).table().insert(
                    MappingRow { repo_id: old(self).spec_repo_id(), entry },
                ),
                Err(AddGitMappingErrorKind::Conflict(refused)) => !rows_admit(
                    old(self).table(),
                    set![MappingRow { repo_id: old(self).spec_repo_id(), entry }],
                ) && final(self).table() == old(self).table() && refused@ == seq![entry],
                Err(AddGitMappingErrorKind::StorageError(_)) => final(self).table()
                    == old(self).table(),
            },
    {
        let batch: Vec<BonsaiGitMappingEntry> = vec![entry];
        proof {
            let row = MappingRow { repo_id: self.spec_repo_id(), entry };
            assert(rows_for(self.spec_repo_id(), batch@) =~= seq![row]);
            assert(seq![row].to_set() =~= set![row]) by {
                assert(seq![row][0] == row);
            }
            assert(self.table().union(set![row]) =~= self.table().insert(row));
            assert(batch@ =~= seq![entry]);
        }
        self.bulk_add(batch.as_slice())
    }

    /// The git hash of a changeset id, if the repository has a row for it.
    fn get_git_sha1_from_bonsai(&self, bcs_id: ChangesetId) -> (r: Result<
        Option<GitSha1>,
        StorageError,
    >)
        requires
            self.wf(),
        ensures
            self.infallible() ==> r is Ok,
            r matches Ok(found) ==> is_git_sha1_of(
                self.table(),
                self.spec_repo_id(),
                bcs_id,
                found,
            ),
    {
        let key = BonsaisOrGitShas::Bonsai(vec![bcs_id]);
        assert(key->Bonsai_0@[0] == bcs_id);
        match self.get(key) {
            Err(e) => Err(e),
            Ok(found) => {
                if found.len() > 0 {
                    assert(found@.contains(found@[0]));
                    Ok(Some(found[0].git_sha1))
                } else {
                    assert forall|row: MappingRow| #[trigger]
                        self.table().contains(row) && row.repo_id
                            == self.spec_repo_id() implies row.entry.bcs_id != bcs_id by {
                        if row.entry.bcs_id == bcs_id {
                            assert(key.selects(row.entry));
                            assert(found@.contains(row.entry));
                        }
                    }
                    Ok(None)
                }
            },
        }
    }

    /// The changeset id of a git hash, if the repository has a row for it.
    fn get_bonsai_from_git_sha1(&self, git_sha1: GitSha1) -> (r: Result<
        Option<ChangesetId>,
        StorageError,
    >)
        requires
            self.wf(),
        ensures
            self.infallible() ==> r is Ok,
            r matches Ok(found) ==> is_bonsai_of(
                self.table(),
                self.spec_repo_id(),
                git_sha1,
                found,
            ),
    {
        let key = BonsaisOrGitShas::GitSha1(vec![git_sha1]);
        assert(key->GitSha1_0@[0] == git_sha1);
        match self.get(key) {
            Err(e) => Err(e),
            Ok(found) => {
                if found.len() > 0 {
                    assert(found@.contains(found@[0]));
                    Ok(Some(found[0].bcs_id))
                } else {
                    assert forall|row: MappingRow| #[trigger]
                        self.table().contains(row) && row.repo_id
                            == self.spec_repo_id() implies row.entry.git_sha1 != git_sha1 by {
                        if row.entry.git_sha1 == git_sha1 {
                            assert(key.selects(row.entry));
                            assert(found@.contains(row.entry));
                        }
                    }
                    Ok(None)
                }
            },
        }
    }

    /// Resolves a prefix: asks for the git hashes of its range, for one more than `limit`,
    /// and reports what came back.
    fn get_many_git_sha1_by_prefix(&self, cs_prefix: GitSha1Prefix, limit: usize) -> (r: Result<
        GitSha1sResolvedFromPrefix,
        StorageError,
    >)
        requires
            self.wf(),
        ensures
            self.infallible() ==> r is Ok,
            r matches Ok(resolved) ==> exists|fetched: Seq<GitSha1>|
                #![trigger classify(fetched, limit as nat)]
                is_range_scan(
                    self.table(),
                    self.spec_repo_id(),
                    cs_prefix.spec_min(),
                    cs_prefix.spec_max(),
                    probe_limit(limit) as nat,
                    fetched,
                ) && resolved@ == classify(fetched, limit as nat),
    {
        match self.get_in_range(cs_prefix.min_cs(), cs_prefix.max_cs(), probe_limit(limit)) {
            Err(e) => Err(e),
            Ok(fetched) => {
                let ghost seen = fetched@;
                let resolved = GitSha1sResolvedFromPrefix::from_fetched(fetched, limit);
                assert(resolved@ == classify(seen, limit as nat));
                Ok(resolved)
            },
        }
    }

    /// Adds a row for each commit whose extras embed a git hash. A commit whose extras embed
    /// none, or something that is no git hash, is passed over and does not stop the import.
    fn bulk_import_from_bonsai(&mut self, changesets: &[BonsaiChangeset]) -> (r: Result<
        (),
        AddGitMappingErrorKind,
    >)
        requires
            old(self).wf(),
        ensures
            final(self).wf(),
            final(self).spec_repo_id() == old(self).spec_repo_id(),
            final(self).infallible() == old(self).infallible(),
            old(self).infallible() ==> !(r matches Err(AddGitMappingErrorKind::StorageError(_))),
            exists|entries: Seq<BonsaiGitMappingEntry>|
                #![trigger entry_keys(entries)]
                entry_keys(entries) == importable(changesets@) && match r {
                    Ok(()) => rows_admit(
                        old(self).table(),
                        rows_for(old(self).spec_repo_id(), entries).to_set(),
                    ) && final(self).table() == old(self).table().union(
                        rows_for(old(self).spec_repo_id(), entries).to_set(),
                    ),
                    Err(AddGitMappingErrorKind::Conflict(refused)) => !rows_admit(
                        old(self).table(),
                        rows_for(old(self).spec_repo_id(), entries).to_set(),
                    ) && final(self).table() == old(self).table() && refused@ == entries,
                    Err(AddGitMappingErrorKind::StorageError(_)) => final(self).table()
                        == old(self).table(),
                },
    {
        let plan = plan_import(changesets);
        let r = self.bulk_add(plan.entries.as_slice());
        assert(entry_keys(plan.entries@) == importable(changesets@));
        r
    }

    /// Converts git hashes to changeset ids. A hash without a row is left out.
    fn convert_available_git_to_bonsai(&self, git_sha1s: Vec<GitSha1>) -> (r: Result<
        Vec<ChangesetId>,
        StorageError,
    >)
        requires
            self.wf(),
        ensures
            self.infallible() ==> r is Ok,
            r matches Ok(ids) ==> exists|found: Seq<BonsaiGitMappingEntry>|
                #![trigger bcs_ids_of(found)]
                is_selection(
                    self.table(),
                    self.spec_repo_id(),
                    BonsaisOrGitShas::GitSha1(git_sha1s),
                    found,
                ) && ids@ == bcs_ids_of(found),
    {
        match self.get(BonsaisOrGitShas::GitSha1(git_sha1s)) {
            Err(e) => Err(e),
            Ok(found) => Ok(to_bcs_ids(&found)),
        }
    }

    /// Converts git hashes to changeset ids, all of them: a hash without a row is an error
    /// that names each such hash.
    fn convert_all_git_to_bonsai(&self, git_sha1s: Vec<GitSha1>) -> (r: Result<
        Vec<ChangesetId>,
        MappingError,
    >)
        requires
            self.wf(),
        ensures
            self.infallible() ==> !(r matches Err(MappingError::StorageError(_))),
            match r {
                Ok(ids) => exists|found: Seq<BonsaiGitMappingEntry>|
                    #![trigger bcs_ids_of(found)]
                    is_selection(
                        self.table(),
                        self.spec_repo_id(),
                        BonsaisOrGitShas::GitSha1(git_sha1s),
                        found,
                    ) && unresolved(git_sha1s@, git_sha1s_of(found)).len() == 0 && ids@
                        == bcs_ids_of(found),
                Err(MappingError::MissingMapping { ids }) => exists|
                    found: Seq<BonsaiGitMappingEntry>,
                |
                    #![trigger git_sha1s_of(found)]
                    is_selection(
                        self.table(),
                        self.spec_repo_id(),
                        BonsaisOrGitShas::GitSha1(git_sha1s),
                        found,
                    ) && (ids matches BonsaisOrGitShas::GitSha1(missing) && missing@.len() > 0
                        && missing@ == unresolved(git_sha1s@, git_sha1s_of(found))),
                Err(MappingError::StorageError(_)) => true,
            },
    {
        let key = BonsaisOrGitShas::GitSha1(git_sha1s.clone());
        match self.get(key) {
            Err(e) => Err(MappingError::StorageError(e)),
            Ok(found) => {
                assert(is_selection(
                    self.table(),
                    self.spec_repo_id(),
                    BonsaisOrGitShas::GitSha1(git_sha1s),
                    found@,
                ));
                match all_git_to_bonsai(&git_sha1s, &found) {
                    Ok(ids) => {
                        assert(ids@ == bcs_ids_of(found@));
                        Ok(ids)
                    },
                    Err(ids) => {
                        assert(ids->GitSha1_0@ == unresolved(git_sha1s@, git_sha1s_of(found@)));
                        Err(MappingError::MissingMapping { ids })
                    },
                }
            },
        }
    }

    /// Converts changeset ids to git hashes. An id without a row is left out.
    fn convert_available_bonsai_to_git(&self, bcs_ids: Vec<ChangesetId>) -> (r: Result<
        Vec<GitSha1>,
        StorageError,
    >)
        requires
            self.wf(),
        ensures
            self.infallible() ==> r is Ok,
            r matches Ok(ids) ==> exists|found: Seq<BonsaiGitMappingEntry>|
                #![trigger git_sha1s_of(found)]
                is_selection(
                    self.table(),
                    self.spec_repo_id(),
                    BonsaisOrGitShas::Bonsai(bcs_ids),
                    found,
                ) && ids@ == git_sha1s_of(found),
    {
        match self.get(BonsaisOrGitShas::Bonsai(bcs_ids)) {
            Err(e) => Err(e),
            Ok(found) => Ok(to_git_sha1s(&found)),
        }
    }

    /// Converts changeset ids to git hashes, all of them: an id without a row is an error
    /// that names each such id.
    fn convert_all_bonsai_to_hg(&self, bcs_ids: Vec<ChangesetId>) -> (r: Result<
        Vec<GitSha1>,
        MappingError,
    >)
        requires
            self.wf(),
        ensures
            self.infallible() ==> !(r matches Err(MappingError::StorageError(_))),
            match r {
                Ok(ids) => exists|found: Seq<BonsaiGitMappingEntry>|
                    #![trigger git_sha1s_of(found)]
                    is_selection(
                        self.table(),
                        self.spec_repo_id(),
                        BonsaisOrGitShas::Bonsai(bcs_ids),
                        found,
                    ) && unresolved(bcs_ids@, bcs_ids_of(found)).len() == 0 && ids@
                        == git_sha1s_of(found),
                Err(MappingError::MissingMapping { ids }) => exists|
                    found: Seq<BonsaiGitMappingEntry>,
                |
                    #![trigger bcs_ids_of(found)]
                    is_selection(
                        self.table(),
                        self.spec_repo_id(),
                        BonsaisOrGitShas::Bonsai(bcs_ids),
                        found,
                    ) && (ids matches BonsaisOrGitShas::Bonsai(missing) && missing@.len() > 0
                        && missing@ == unresolved(bcs_ids@, bcs_ids_of(found))),
                Err(MappingError::StorageError(_)) => true,
            },
    {
        let key = BonsaisOrGitShas::Bonsai(bcs_ids.clone());
        match self.get(key) {
            Err(e) => Err(MappingError::StorageError(e)),
            Ok(found) => {
                assert(is_selection(
                    self.table(),
                    self.spec_repo_id(),
                    BonsaisOrGitShas::Bonsai(bcs_ids),
                    found@,
                ));
                match all_bonsai_to_git(&bcs_ids, &found) {
                    Ok(ids) => {
                        assert(ids@ == git_sha1s_of(found@));
                        Ok(ids)
                    },
                    Err(ids) => {
                        assert(ids->Bonsai_0@ == unresolved(bcs_ids@, bcs_ids_of(found@)));
                        Err(MappingError::MissingMapping { ids })
                    },
                }
            },
        }
    }
    /// The association from each of the changeset ids that has a row to its git hash.
    fn get_bonsai_to_git_map(&self, bcs_ids: Vec<ChangesetId>) -> (r: Result<
        BonsaiToGitMap,
        StorageError,
    >)
        requires
            self.wf(),
        ensures
            self.infallible() ==> r is Ok,
            r matches Ok(map) ==> map.wf() && forall|bcs_id: ChangesetId, git_sha1: GitSha1| #[trigger]
                map@.contains_pair(bcs_id, git_sha1) <==> bcs_ids@.contains(bcs_id)
                    && self.table().contains(
                    MappingRow {
                        repo_id: self.spec_repo_id(),
                        entry: BonsaiGitMappingEntry { git_sha1, bcs_id },
                    },
                ),
    {
        let key = BonsaisOrGitShas::Bonsai(bcs_ids);
        match self.get(key) {
            Err(e) => Err(e),
            Ok(found) => {
                proof {
                    self.lemma_table_consistent();
                    let repo_id = self.spec_repo_id();
                    assert forall|i: int, j: int|
                        #![trigger found@[i], found@[j]]
                        0 <= i < j < found@.len() implies found@[i].bcs_id != found@[j].bcs_id by {
                        assert(found@.contains(found@[i]) && found@.contains(found@[j]));
                        let a = MappingRow { repo_id, entry: found@[i] };
                        let b = MappingRow { repo_id, entry: found@[j] };
                        assert(self.table().contains(a) && self.table().contains(b));
                        assert(!crate::store::rows_conflict(a, b));
                        assert(found@[i] != found@[j]);
                    }
                    lemma_entries_to_map(found@);
                }
                Ok(BonsaiToGitMap::from_entries(&found))
            },
        }
    }
}

} // verus!
