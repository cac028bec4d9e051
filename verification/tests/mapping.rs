use bonsai_git_mapping::convert::{
    all_bonsai_to_git, all_git_to_bonsai, missing_bcs_ids, missing_git_sha1s,
};
use bonsai_git_mapping::git_map::BonsaiToGitMap;
use bonsai_git_mapping::nodehash::probe_limit;
use bonsai_git_mapping::store::{MappingRow, MappingStore, Transaction};
use bonsai_git_mapping::{
    AddGitMappingErrorKind, BonsaiChangeset, BonsaiGitMapping, BonsaiGitMappingEntry,
    BonsaisOrGitShas, ChangesetId, GitSha1, GitSha1Prefix, GitSha1sResolvedFromPrefix,
    MappingError, MemBonsaiGitMapping, RepositoryId,
};

const REPO: RepositoryId = RepositoryId(1);
const OTHER_REPO: RepositoryId = RepositoryId(2);

fn sha(first: u8, last: u8) -> GitSha1 {
    let mut bytes = [0u8; 20];
    bytes[0] = first;
    bytes[19] = last;
    GitSha1::from_byte_array(bytes)
}

fn cs(n: u8) -> ChangesetId {
    ChangesetId::new([n; 32])
}

fn entry(first: u8, last: u8, bcs: u8) -> BonsaiGitMappingEntry {
    BonsaiGitMappingEntry::new(sha(first, last), cs(bcs))
}

fn mapping_with(entries: &[BonsaiGitMappingEntry]) -> MemBonsaiGitMapping {
    let mut mapping = MemBonsaiGitMapping::new(REPO);
    mapping.bulk_add(entries).unwrap();
    mapping
}

#[test]
fn added_entry_is_found_from_both_sides() {
    let mut mapping = MemBonsaiGitMapping::new(REPO);
    assert_eq!(mapping.repo_id(), REPO);
    let e = entry(0xab, 1, 7);
    assert_eq!(mapping.add(e), Ok(()));
    assert_eq!(mapping.get_git_sha1_from_bonsai(e.bcs_id), Ok(Some(e.git_sha1)));
    assert_eq!(mapping.get_bonsai_from_git_sha1(e.git_sha1), Ok(Some(e.bcs_id)));
    assert_eq!(mapping.get_git_sha1_from_bonsai(cs(8)), Ok(None));
    assert_eq!(mapping.get_bonsai_from_git_sha1(sha(0xab, 2)), Ok(None));
}

#[test]
fn adding_the_same_entry_again_is_no_conflict() {
    let e = entry(1, 1, 1);
    let mut mapping = mapping_with(&[e]);
    assert_eq!(mapping.add(e), Ok(()));
    assert_eq!(mapping.bulk_add(&[e, e]), Ok(()));
    assert_eq!(mapping.get(BonsaisOrGitShas::from(e.bcs_id)), Ok(vec![e]));
}

#[test]
fn second_git_hash_for_a_changeset_is_a_conflict() {
    let held = entry(1, 1, 1);
    let mut mapping = mapping_with(&[held]);
    let clash = entry(2, 2, 1);
    assert_eq!(
        mapping.add(clash),
        Err(AddGitMappingErrorKind::Conflict(vec![clash]))
    );
    assert_eq!(mapping.get_git_sha1_from_bonsai(cs(1)), Ok(Some(held.git_sha1)));
    assert_eq!(mapping.get_bonsai_from_git_sha1(clash.git_sha1), Ok(None));
}

#[test]
fn second_changeset_for_a_git_hash_is_a_conflict() {
    let held = entry(1, 1, 1);
    let mut mapping = mapping_with(&[held]);
    let clash = entry(1, 1, 2);
    assert_eq!(
        mapping.add(clash),
        Err(AddGitMappingErrorKind::Conflict(vec![clash]))
    );
    assert_eq!(mapping.get_bonsai_from_git_sha1(held.git_sha1), Ok(Some(cs(1))));
    assert_eq!(mapping.get_git_sha1_from_bonsai(cs(2)), Ok(None));
}

#[test]
fn bulk_add_adds_all_rows_or_none() {
    let mut mapping = mapping_with(&[entry(1, 1, 1)]);
    let batch = [entry(2, 2, 2), entry(3, 3, 1), entry(4, 4, 4)];
    assert_eq!(
        mapping.bulk_add(&batch),
        Err(AddGitMappingErrorKind::Conflict(batch.to_vec()))
    );
    assert_eq!(mapping.get_git_sha1_from_bonsai(cs(2)), Ok(None));
    assert_eq!(mapping.get_git_sha1_from_bonsai(cs(4)), Ok(None));
    assert_eq!(mapping.into_store().len(), 1);
}

#[test]
fn bulk_add_refuses_a_batch_that_conflicts_with_itself() {
    let mut mapping = MemBonsaiGitMapping::new(REPO);
    let batch = [entry(1, 1, 1), entry(1, 1, 2)];
    assert_eq!(
        mapping.bulk_add(&batch),
        Err(AddGitMappingErrorKind::Conflict(batch.to_vec()))
    );
    assert_eq!(mapping.into_store().len(), 0);
}

#[test]
fn get_omits_ids_without_a_row() {
    let mapping = mapping_with(&[entry(3, 0, 3), entry(1, 0, 1), entry(2, 0, 2)]);
    assert_eq!(
        mapping.get(BonsaisOrGitShas::from(vec![cs(3), cs(9), cs(1)])),
        Ok(vec![entry(1, 0, 1), entry(3, 0, 3)])
    );
    assert_eq!(
        mapping.get(BonsaisOrGitShas::from(vec![sha(2, 0), sha(9, 9)])),
        Ok(vec![entry(2, 0, 2)])
    );
    assert_eq!(mapping.get(BonsaisOrGitShas::GitSha1(vec![])), Ok(vec![]));
}

#[test]
fn get_in_range_is_ascending_and_limited() {
    let mapping = mapping_with(&[
        entry(5, 0, 5),
        entry(1, 0, 1),
        entry(3, 0, 3),
        entry(2, 0, 2),
        entry(4, 0, 4),
    ]);
    assert_eq!(
        mapping.get_in_range(sha(2, 0), sha(4, 0), 10),
        Ok(vec![sha(2, 0), sha(3, 0), sha(4, 0)])
    );
    assert_eq!(
        mapping.get_in_range(sha(0, 0), sha(0xff, 0xff), 2),
        Ok(vec![sha(1, 0), sha(2, 0)])
    );
    assert_eq!(mapping.get_in_range(sha(6, 0), sha(9, 0), 10), Ok(vec![]));
    assert_eq!(mapping.get_in_range(sha(0, 0), sha(9, 0), 0), Ok(vec![]));
}

#[test]
fn prefix_without_a_match_resolves_to_no_match() {
    let mapping = mapping_with(&[entry(0xab, 1, 1)]);
    assert_eq!(
        mapping.get_many_git_sha1_by_prefix(GitSha1Prefix::from_str("ac").unwrap(), 5),
        Ok(GitSha1sResolvedFromPrefix::NoMatch)
    );
}

#[test]
fn prefix_with_one_match_resolves_to_single() {
    let mapping = mapping_with(&[entry(0xab, 1, 1), entry(0xac, 1, 2)]);
    assert_eq!(
        mapping.get_many_git_sha1_by_prefix(GitSha1Prefix::from_str("ab").unwrap(), 5),
        Ok(GitSha1sResolvedFromPrefix::Single(sha(0xab, 1)))
    );
    assert_eq!(
        mapping.get_many_git_sha1_by_prefix(GitSha1Prefix::from_str("ab").unwrap(), 0),
        Ok(GitSha1sResolvedFromPrefix::Single(sha(0xab, 1)))
    );
}

#[test]
fn prefix_with_as_many_matches_as_the_limit_resolves_to_multiple() {
    let mapping = mapping_with(&[
        entry(0xab, 3, 3),
        entry(0xab, 1, 1),
        entry(0xab, 2, 2),
        entry(0xac, 1, 4),
    ]);
    assert_eq!(
        mapping.get_many_git_sha1_by_prefix(GitSha1Prefix::from_str("ab").unwrap(), 3),
        Ok(GitSha1sResolvedFromPrefix::Multiple(vec![
            sha(0xab, 1),
            sha(0xab, 2),
            sha(0xab, 3)
        ]))
    );
}

#[test]
fn prefix_with_one_match_more_than_the_limit_resolves_to_too_many() {
    let mapping = mapping_with(&[
        entry(0xab, 3, 3),
        entry(0xab, 1, 1),
        entry(0xab, 4, 4),
        entry(0xab, 2, 2),
    ]);
    assert_eq!(
        mapping.get_many_git_sha1_by_prefix(GitSha1Prefix::from_str("ab").unwrap(), 3),
        Ok(GitSha1sResolvedFromPrefix::TooMany(vec![
            sha(0xab, 1),
            sha(0xab, 2),
            sha(0xab, 3)
        ]))
    );
    assert_eq!(
        mapping.get_many_git_sha1_by_prefix(GitSha1Prefix::from_str("a").unwrap(), 1),
        Ok(GitSha1sResolvedFromPrefix::TooMany(vec![sha(0xab, 1)]))
    );
}

#[test]
fn odd_prefix_fixes_half_a_byte() {
    let mapping = mapping_with(&[entry(0xa0, 0, 1), entry(0xaf, 0, 2), entry(0xb0, 0, 3)]);
    assert_eq!(
        mapping.get_many_git_sha1_by_prefix(GitSha1Prefix::from_str("a").unwrap(), 5),
        Ok(GitSha1sResolvedFromPrefix::Multiple(vec![
            sha(0xa0, 0),
            sha(0xaf, 0)
        ]))
    );
}

#[test]
fn classification_by_number_of_fetched_hashes() {
    let three = vec![sha(1, 0), sha(2, 0), sha(3, 0)];
    assert_eq!(
        GitSha1sResolvedFromPrefix::from_fetched(vec![], 2),
        GitSha1sResolvedFromPrefix::NoMatch
    );
    assert_eq!(
        GitSha1sResolvedFromPrefix::from_fetched(three.clone(), 3),
        GitSha1sResolvedFromPrefix::Multiple(three.clone())
    );
    let resolved = GitSha1sResolvedFromPrefix::from_fetched(three.clone(), 2);
    assert_eq!(
        resolved,
        GitSha1sResolvedFromPrefix::TooMany(vec![sha(1, 0), sha(2, 0)])
    );
    assert_eq!(resolved.to_vec(), vec![sha(1, 0), sha(2, 0)]);
    assert_eq!(probe_limit(2), 3);
    assert_eq!(probe_limit(usize::MAX), usize::MAX);
}

#[test]
fn convert_available_leaves_out_what_has_no_row() {
    let mapping = mapping_with(&[entry(1, 0, 1), entry(2, 0, 2), entry(3, 0, 3)]);
    assert_eq!(
        mapping.convert_available_git_to_bonsai(vec![sha(3, 0), sha(7, 0), sha(1, 0)]),
        Ok(vec![cs(1), cs(3)])
    );
    assert_eq!(
        mapping.convert_available_bonsai_to_git(vec![cs(2), cs(8)]),
        Ok(vec![sha(2, 0)])
    );
}

#[test]
fn convert_all_gives_every_id_while_all_have_rows() {
    let mapping = mapping_with(&[entry(1, 0, 1), entry(2, 0, 2), entry(3, 0, 3)]);
    assert_eq!(
        mapping.convert_all_git_to_bonsai(vec![sha(3, 0), sha(1, 0)]),
        Ok(vec![cs(1), cs(3)])
    );
    assert_eq!(
        mapping.convert_all_bonsai_to_hg(vec![cs(2), cs(1)]),
        Ok(vec![sha(1, 0), sha(2, 0)])
    );
    assert_eq!(mapping.convert_all_bonsai_to_hg(vec![]), Ok(vec![]));
}

#[test]
fn convert_all_names_every_missing_id() {
    let mapping = mapping_with(&[entry(1, 0, 1), entry(2, 0, 2)]);
    assert_eq!(
        mapping.convert_all_git_to_bonsai(vec![
            sha(9, 0),
            sha(1, 0),
            sha(8, 0),
            sha(2, 0),
            sha(7, 0)
        ]),
        Err(MappingError::MissingMapping {
            ids: BonsaisOrGitShas::GitSha1(vec![sha(9, 0), sha(8, 0), sha(7, 0)])
        })
    );
    assert_eq!(
        mapping.convert_available_git_to_bonsai(vec![
            sha(9, 0),
            sha(1, 0),
            sha(8, 0),
            sha(2, 0),
            sha(7, 0)
        ]),
        Ok(vec![cs(1), cs(2)])
    );
    assert_eq!(
        mapping.convert_all_bonsai_to_hg(vec![cs(1), cs(5), cs(5)]),
        Err(MappingError::MissingMapping {
            ids: BonsaisOrGitShas::Bonsai(vec![cs(5)])
        })
    );
}

#[test]
fn conversion_with_rows_that_a_lookup_returned() {
    let rows = vec![entry(1, 0, 1), entry(2, 0, 2)];
    assert_eq!(
        all_git_to_bonsai(&vec![sha(2, 0), sha(1, 0), sha(2, 0)], &rows),
        Ok(vec![cs(1), cs(2)])
    );
    assert_eq!(
        all_bonsai_to_git(&vec![cs(3), cs(1)], &rows),
        Err(BonsaisOrGitShas::Bonsai(vec![cs(3)]))
    );
    assert_eq!(
        missing_git_sha1s(&vec![sha(5, 0), sha(1, 0), sha(5, 0), sha(6, 0)], &rows),
        vec![sha(5, 0), sha(6, 0)]
    );
    assert_eq!(missing_bcs_ids(&vec![cs(1), cs(2)], &rows), vec![]);
}

#[test]
fn bonsai_to_git_map_has_one_pair_for_each_row_found() {
    let mapping = mapping_with(&[entry(1, 0, 1), entry(2, 0, 2), entry(3, 0, 3)]);
    let map = mapping
        .get_bonsai_to_git_map(vec![cs(3), cs(4), cs(1)])
        .unwrap();
    assert_eq!(map.len(), 2);
    assert_eq!(map.get(&cs(1)), Some(sha(1, 0)));
    assert_eq!(map.get(&cs(3)), Some(sha(3, 0)));
    assert_eq!(map.get(&cs(2)), None);
    assert_eq!(map.get(&cs(4)), None);
    let as_std: std::collections::HashMap<ChangesetId, GitSha1> =
        map.into_pairs().into_iter().collect();
    assert_eq!(as_std.len(), 2);
    assert_eq!(as_std[&cs(3)], sha(3, 0));
}

#[test]
fn map_keeps_the_value_inserted_last() {
    let map = BonsaiToGitMap::from_entries(&vec![
        entry(1, 0, 1),
        entry(2, 0, 2),
        entry(3, 0, 1),
    ]);
    assert_eq!(map.len(), 2);
    assert_eq!(map.get(&cs(1)), Some(sha(3, 0)));
    assert_eq!(map.get(&cs(2)), Some(sha(2, 0)));
    let mut map = BonsaiToGitMap::new();
    assert_eq!(map.len(), 0);
    map.insert(cs(1), sha(1, 0));
    map.insert(cs(1), sha(2, 0));
    assert_eq!(map.into_pairs(), vec![(cs(1), sha(2, 0))]);
}

#[test]
fn import_adds_rows_for_the_other_commits_where_one_is_malformed() {
    let first = "1111111111111111111111111111111111111111";
    let third = "3333333333333333333333333333333333333333";
    let git = |text: &str| {
        vec![
            ("hg-git-rename-source".to_string(), b"git".to_vec()),
            ("convert_revision".to_string(), text.as_bytes().to_vec()),
        ]
    };
    let commits = [
        BonsaiChangeset::new(cs(1), git(first)),
        BonsaiChangeset::new(cs(2), git("not a git hash")),
        BonsaiChangeset::new(cs(3), git(third)),
    ];
    let mut mapping = MemBonsaiGitMapping::new(REPO);
    assert_eq!(mapping.bulk_import_from_bonsai(&commits), Ok(()));
    assert_eq!(
        mapping.get_git_sha1_from_bonsai(cs(1)),
        Ok(Some(GitSha1::from_str(first).unwrap()))
    );
    assert_eq!(mapping.get_git_sha1_from_bonsai(cs(2)), Ok(None));
    assert_eq!(
        mapping.get_git_sha1_from_bonsai(cs(3)),
        Ok(Some(GitSha1::from_str(third).unwrap()))
    );
    assert_eq!(mapping.into_store().len(), 2);
}

#[test]
fn import_of_commits_without_hashes_adds_nothing() {
    let commits = [BonsaiChangeset::new(cs(1), vec![])];
    let mut mapping = MemBonsaiGitMapping::new(REPO);
    assert_eq!(mapping.bulk_import_from_bonsai(&commits), Ok(()));
    assert_eq!(mapping.into_store().len(), 0);
}

#[test]
fn rows_of_one_repository_are_not_seen_from_another() {
    let e = entry(1, 1, 1);
    let mut a = MemBonsaiGitMapping::new(REPO);
    a.add(e).unwrap();
    let mut b = MemBonsaiGitMapping::with_store(OTHER_REPO, a.into_store());
    assert_eq!(b.repo_id(), OTHER_REPO);
    assert_eq!(b.get_git_sha1_from_bonsai(e.bcs_id), Ok(None));
    assert_eq!(b.get_bonsai_from_git_sha1(e.git_sha1), Ok(None));
    assert_eq!(b.get(BonsaisOrGitShas::from(e.git_sha1)), Ok(vec![]));
    assert_eq!(b.get_in_range(sha(0, 0), sha(0xff, 0xff), 10), Ok(vec![]));
    assert_eq!(
        b.get_many_git_sha1_by_prefix(GitSha1Prefix::from_str("").unwrap(), 10),
        Ok(GitSha1sResolvedFromPrefix::NoMatch)
    );
    // the same changeset id with another git hash is no conflict in another repository
    let other = entry(2, 2, 1);
    assert_eq!(b.add(other), Ok(()));
    assert_eq!(b.get_git_sha1_from_bonsai(cs(1)), Ok(Some(other.git_sha1)));
    let a = MemBonsaiGitMapping::with_store(REPO, b.into_store());
    assert_eq!(a.get_git_sha1_from_bonsai(cs(1)), Ok(Some(e.git_sha1)));
    assert_eq!(a.get(BonsaisOrGitShas::from(cs(1))), Ok(vec![e]));
}

#[test]
fn rows_issued_in_a_transaction_wait_for_the_commit() {
    let mut mapping = mapping_with(&[entry(1, 0, 1)]);
    let transaction = mapping
        .bulk_add_git_mapping_in_transaction(&[entry(2, 0, 2)], Transaction::new())
        .unwrap();
    let transaction = mapping
        .bulk_add_git_mapping_in_transaction(&[entry(3, 0, 3)], transaction)
        .unwrap();
    assert_eq!(
        transaction.pending(),
        &[
            MappingRow { repo_id: REPO, entry: entry(2, 0, 2) },
            MappingRow { repo_id: REPO, entry: entry(3, 0, 3) },
        ]
    );
    assert_eq!(mapping.get_git_sha1_from_bonsai(cs(2)), Ok(None));
    assert_eq!(mapping.commit(transaction), Ok(()));
    assert_eq!(mapping.get_git_sha1_from_bonsai(cs(2)), Ok(Some(sha(2, 0))));
    assert_eq!(mapping.get_git_sha1_from_bonsai(cs(3)), Ok(Some(sha(3, 0))));
}

#[test]
fn transaction_refuses_rows_that_conflict_with_what_waits_in_it() {
    let mapping = mapping_with(&[entry(1, 0, 1)]);
    let transaction = mapping
        .bulk_add_git_mapping_in_transaction(&[entry(2, 0, 2)], Transaction::new())
        .unwrap();
    assert_eq!(
        mapping
            .bulk_add_git_mapping_in_transaction(&[entry(9, 0, 2)], transaction)
            .map(|t| t.pending().len()),
        Err(AddGitMappingErrorKind::Conflict(vec![entry(9, 0, 2)]))
    );
    assert_eq!(
        mapping
            .bulk_add_git_mapping_in_transaction(&[entry(1, 0, 5)], Transaction::new())
            .map(|t| t.pending().len()),
        Err(AddGitMappingErrorKind::Conflict(vec![entry(1, 0, 5)]))
    );
}

#[test]
fn rolled_back_transaction_leaves_no_row() {
    let mapping = mapping_with(&[entry(1, 0, 1)]);
    let transaction = mapping
        .bulk_add_git_mapping_in_transaction(&[entry(2, 0, 2)], Transaction::new())
        .unwrap();
    assert_eq!(transaction.rollback(), 1);
    assert_eq!(mapping.get_git_sha1_from_bonsai(cs(2)), Ok(None));
}

#[test]
fn commit_is_refused_whole_when_the_table_changed_against_it() {
    let mut mapping = MemBonsaiGitMapping::new(REPO);
    let transaction = mapping
        .bulk_add_git_mapping_in_transaction(&[entry(1, 0, 1), entry(2, 0, 2)], Transaction::new())
        .unwrap();
    mapping.add(entry(9, 0, 2)).unwrap();
    assert_eq!(
        mapping.commit(transaction),
        Err(AddGitMappingErrorKind::Conflict(vec![
            entry(1, 0, 1),
            entry(2, 0, 2)
        ]))
    );
    assert_eq!(mapping.get_git_sha1_from_bonsai(cs(1)), Ok(None));
    assert_eq!(mapping.get_git_sha1_from_bonsai(cs(2)), Ok(Some(sha(9, 0))));
}

#[test]
fn store_holds_the_rows_of_every_repository_in_order() {
    let mut store = MappingStore::new();
    assert_eq!(store.bulk_add(REPO, &[entry(2, 0, 2), entry(1, 0, 1)]), Ok(()));
    assert_eq!(store.bulk_add(OTHER_REPO, &[entry(1, 0, 1)]), Ok(()));
    assert_eq!(store.len(), 3);
    assert!(store.contains_row(&MappingRow { repo_id: OTHER_REPO, entry: entry(1, 0, 1) }));
    assert!(!store.contains_row(&MappingRow { repo_id: OTHER_REPO, entry: entry(2, 0, 2) }));
    assert!(store.conflicts_with(&MappingRow { repo_id: REPO, entry: entry(2, 0, 3) }));
    assert!(!store.conflicts_with(&MappingRow { repo_id: RepositoryId(3), entry: entry(2, 0, 3) }));
    assert_eq!(
        store.get(REPO, &BonsaisOrGitShas::from(vec![cs(1), cs(2)])),
        vec![entry(1, 0, 1), entry(2, 0, 2)]
    );
    assert!(!store.add_rows(&[MappingRow { repo_id: REPO, entry: entry(1, 0, 9) }]));
    assert!(store.add_rows(&[MappingRow { repo_id: REPO, entry: entry(3, 0, 3) }]));
    assert_eq!(
        store.get_in_range(REPO, &sha(0, 0), &sha(9, 0), 5),
        vec![sha(1, 0), sha(2, 0), sha(3, 0)]
    );
}
