use bonsai_git_mapping::extra::{
    git_sha1_from_revision, plan_import, same_str, SkipReason, SkippedChangeset,
};
use bonsai_git_mapping::{
    extract_git_sha1_from_bonsai_extra, BonsaiChangeset, BonsaiGitMappingEntry, ChangesetId,
    GitSha1, ParseError, CONVERT_REVISION_EXTRA, HGGIT_SOURCE_EXTRA,
};

const REVISION: &str = "0123456789abcdef0123456789abcdef01234567";

fn pair(key: &str, value: &[u8]) -> (String, Vec<u8>) {
    (key.to_string(), value.to_vec())
}

fn commit(n: u8, extra: Vec<(String, Vec<u8>)>) -> BonsaiChangeset {
    BonsaiChangeset::new(ChangesetId::new([n; 32]), extra)
}

#[test]
fn watched_keys_are_the_ones_of_the_converter() {
    assert_eq!(HGGIT_SOURCE_EXTRA, "hg-git-rename-source");
    assert_eq!(CONVERT_REVISION_EXTRA, "convert_revision");
}

#[test]
fn extract_gives_the_hash_of_a_git_commit() {
    let extra = vec![
        pair("hg-git-rename-source", b"git"),
        pair("convert_revision", REVISION.as_bytes()),
    ];
    assert_eq!(
        extract_git_sha1_from_bonsai_extra(&extra),
        Ok(Some(GitSha1::from_str(REVISION).unwrap()))
    );
}

#[test]
fn extract_does_not_mind_the_order_of_the_extras() {
    let extra = vec![
        pair("convert_revision", REVISION.as_bytes()),
        pair("branch", b"default"),
        pair("hg-git-rename-source", b"git"),
    ];
    assert_eq!(
        extract_git_sha1_from_bonsai_extra(&extra),
        Ok(Some(GitSha1::from_str(REVISION).unwrap()))
    );
}

#[test]
fn extract_gives_nothing_without_the_source() {
    let extra = vec![pair("convert_revision", REVISION.as_bytes())];
    assert_eq!(extract_git_sha1_from_bonsai_extra(&extra), Ok(None));
}

#[test]
fn extract_gives_nothing_without_the_revision() {
    let extra = vec![pair("hg-git-rename-source", b"git")];
    assert_eq!(extract_git_sha1_from_bonsai_extra(&extra), Ok(None));
}

#[test]
fn extract_gives_nothing_for_another_source() {
    let extra = vec![
        pair("hg-git-rename-source", b"svn"),
        pair("convert_revision", b"not a hash at all"),
    ];
    assert_eq!(extract_git_sha1_from_bonsai_extra(&extra), Ok(None));
}

#[test]
fn extract_gives_nothing_for_no_extras() {
    assert_eq!(extract_git_sha1_from_bonsai_extra(&[]), Ok(None));
}

#[test]
fn extract_takes_the_value_seen_last() {
    let other = "ffffffffffffffffffffffffffffffffffffffff";
    let extra = vec![
        pair("hg-git-rename-source", b"svn"),
        pair("convert_revision", other.as_bytes()),
        pair("hg-git-rename-source", b"git"),
        pair("convert_revision", REVISION.as_bytes()),
    ];
    assert_eq!(
        extract_git_sha1_from_bonsai_extra(&extra),
        Ok(Some(GitSha1::from_str(REVISION).unwrap()))
    );
    let extra = vec![
        pair("hg-git-rename-source", b"git"),
        pair("convert_revision", REVISION.as_bytes()),
        pair("hg-git-rename-source", b"hg"),
    ];
    assert_eq!(extract_git_sha1_from_bonsai_extra(&extra), Ok(None));
}

#[test]
fn extract_fails_on_a_revision_that_is_not_hex() {
    let extra = vec![
        pair("hg-git-rename-source", b"git"),
        pair("convert_revision", b"0123456789abcdef0123456789abcdef0123456z"),
    ];
    assert_eq!(
        extract_git_sha1_from_bonsai_extra(&extra),
        Err(ParseError::InvalidHex { position: 39 })
    );
}

#[test]
fn extract_fails_on_a_revision_of_another_length() {
    let extra = vec![
        pair("hg-git-rename-source", b"git"),
        pair("convert_revision", b"0123"),
    ];
    assert_eq!(
        extract_git_sha1_from_bonsai_extra(&extra),
        Err(ParseError::InvalidLength { len: 4 })
    );
}

#[test]
fn extract_fails_on_a_revision_that_is_not_ascii() {
    let extra = vec![
        pair("hg-git-rename-source", b"git"),
        pair("convert_revision", &[0x30, 0x31, 0xc3, 0xa9]),
    ];
    assert_eq!(
        extract_git_sha1_from_bonsai_extra(&extra),
        Err(ParseError::NotAscii { valid_up_to: 2 })
    );
}

#[test]
fn revision_text_is_checked_for_ascii_first() {
    let mut text = REVISION.as_bytes().to_vec();
    text[7] = 0x80;
    assert_eq!(
        git_sha1_from_revision(&text),
        Err(ParseError::NotAscii { valid_up_to: 7 })
    );
    assert_eq!(
        git_sha1_from_revision(REVISION.as_bytes()),
        Ok(GitSha1::from_str(REVISION).unwrap())
    );
}

#[test]
fn same_str_compares_strings() {
    assert!(same_str("convert_revision", "convert_revision"));
    assert!(!same_str("convert_revision", "convert_revisio"));
    assert!(!same_str("é", "e"));
}

#[test]
fn plan_import_passes_over_commits_without_a_hash() {
    let good = vec![
        pair("hg-git-rename-source", b"git"),
        pair("convert_revision", REVISION.as_bytes()),
    ];
    let malformed = vec![
        pair("hg-git-rename-source", b"git"),
        pair("convert_revision", b"zz"),
    ];
    let plain = vec![pair("branch", b"default")];
    let plan = plan_import(&[
        commit(1, good),
        commit(2, malformed),
        commit(3, plain),
    ]);
    assert_eq!(
        plan.entries,
        vec![BonsaiGitMappingEntry::new(
            GitSha1::from_str(REVISION).unwrap(),
            ChangesetId::new([1; 32])
        )]
    );
    assert_eq!(
        plan.skipped,
        vec![
            SkippedChangeset {
                changeset_id: ChangesetId::new([2; 32]),
                reason: SkipReason::Malformed(ParseError::InvalidLength { len: 2 }),
            },
            SkippedChangeset {
                changeset_id: ChangesetId::new([3; 32]),
                reason: SkipReason::MissingMapping,
            },
        ]
    );
}

#[test]
fn bonsai_changeset_gives_back_what_it_was_made_of() {
    let extra = vec![pair("a", b"b")];
    let bcs = commit(9, extra.clone());
    assert_eq!(bcs.get_changeset_id(), ChangesetId::new([9; 32]));
    assert_eq!(bcs.hg_extra(), extra.as_slice());
}
