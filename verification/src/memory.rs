//! A backend of the mapping that holds its table in memory.

use vstd::prelude::*;
use crate::entry::{BonsaiGitMappingEntry, BonsaisOrGitShas};
use crate::errors::{AddGitMappingErrorKind, StorageError};
use crate::hash::{GitSha1, RepositoryId};
use crate::mapping::BonsaiGitMapping;
use crate::store::{lemma_table_wf, rows_admit, MappingRow, MappingStore, Transaction};

verus! {

/// The mapping of one repository over a table in memory. The table holds the rows of every
/// repository: hand it from one repository's mapping to another's with `into_store` and
/// `with_store`.
#[derive(Debug)]
pub struct MemBonsaiGitMapping {
    repo_id: RepositoryId,
    store: MappingStore,
}

impl MemBonsaiGitMapping {
    /// The table that the mapping works on.
    pub closed spec fn spec_store(&self) -> MappingStore {
        self.store
    }

    /// The mapping of `repo_id` over an empty table.
    pub fn new(repo_id: RepositoryId) -> (r: Self)
        ensures
            r.wf(),
            r.infallible(),
            r.spec_repo_id() == repo_id,
            r.table() == Set::<MappingRow>::empty(),
    {
        let store = MappingStore::new();
        assert(store@.to_set() =~= Set::<MappingRow>::empty());
        MemBonsaiGitMapping { repo_id, store }
    }

    /// The mapping of `repo_id` over `store`.
    pub fn with_store(repo_id: RepositoryId, store: MappingStore) -> (r: Self)
        requires
            store.wf(),
        ensures
            r.wf(),
            r.infallible(),
            r.spec_repo_id() == repo_id,
            r.spec_store() == store,
            r.table() == store@.to_set(),
    {
        MemBonsaiGitMapping { repo_id, store }
    }

    /// The table, for another repository's mapping to work on.
    pub fn into_store(self) -> (store: MappingStore)
        requires
            self.wf(),
        ensures
            store.wf(),
            store == self.spec_store(),
            store@.to_set() == self.table(),
    {
        self.store
    }

    /// Puts the rows that wait in `transaction` into the table, all of them or none: none
    /// where the table does not admit them.
    pub fn commit(&mut self, transaction: Transaction) -> (r: Result<(), AddGitMappingErrorKind>)
        requires
            old(self).wf(),
        ensures
            final(self).wf(),
            final(self).spec_repo_id() == old(self).spec_repo_id(),
            final(self).infallible(),
            match r {
                Ok(()) => rows_admit(old(self).table(), transaction@.to_set())
                    && final(self).table() == old(self).table().union(transaction@.to_set()),
                Err(AddGitMappingErrorKind::Conflict(refused)) => !rows_admit(
                    old(self).table(),
                    transaction@.to_set(),
                ) && final(self).table() == old(self).table() && refused@
                    == crate::store::entries_in(transaction@),
                Err(AddGitMappingErrorKind::StorageError(_)) => false,
            },
    {
        self.store.commit(transaction)
    }
}

impl BonsaiGitMapping for MemBonsaiGitMapping {
    closed spec fn table(&self) -> Set<MappingRow> {
        self.store@.to_set()
    }

    closed spec fn spec_repo_id(&self) -> RepositoryId {
        self.repo_id
    }

    closed spec fn wf(&self) -> bool {
        self.store.wf()
    }

    /// A table in memory does not fail.
    open spec fn infallible(&self) -> bool {
        true
    }

    proof fn lemma_table_consistent(&self) {
        lemma_table_wf(self.store@);
        vstd::seq_lib::seq_to_set_is_finite(self.store@);
    }

    fn repo_id(&self) -> (id: RepositoryId) {
        self.repo_id
    }

    fn bulk_add(&mut self, entries: &[BonsaiGitMappingEntry]) -> (r: Result<
        (),
        AddGitMappingErrorKind,
    >) {
        self.store.bulk_add(self.repo_id, entries)
    }

    fn bulk_add_git_mapping_in_transaction(
        &self,
        entries: &[BonsaiGitMappingEntry],
        transaction: Transaction,
    ) -> (r: Result<Transaction, AddGitMappingErrorKind>) {
        self.store.stage(self.repo_id, entries, transaction)
    }

    /// The table in memory gives the entries in ascending order of their git hashes.
    fn get(&self, field: BonsaisOrGitShas) -> (r: Result<Vec<BonsaiGitMappingEntry>, StorageError>)
        ensures
            forall|i: int, j: int|
                #![trigger r->Ok_0@[i], r->Ok_0@[j]]
                0 <= i < j < r->Ok_0@.len() ==> r->Ok_0@[i].git_sha1.value()
                    < r->Ok_0@[j].git_sha1.value(),
    {
        Ok(self.store.get(self.repo_id, &field))
    }

    fn get_in_range(&self, low: GitSha1, high: GitSha1, limit: usize) -> (r: Result<
        Vec<GitSha1>,
        StorageError,
    >) {
        Ok(self.store.get_in_range(self.repo_id, &low, &high, limit))
    }
}

} // verus!
