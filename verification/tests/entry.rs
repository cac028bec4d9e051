use bonsai_git_mapping::{
    BonsaiGitMappingEntry, BonsaisOrGitShas, ChangesetId, GitSha1, ParseError,
};

fn sha(n: u8) -> GitSha1 {
    GitSha1::from_byte_array([n; 20])
}

fn cs(n: u8) -> ChangesetId {
    ChangesetId::new([n; 32])
}

#[test]
fn entry_new_keeps_both_sides() {
    let e = BonsaiGitMappingEntry::new(sha(1), cs(2));
    assert_eq!(e.git_sha1, sha(1));
    assert_eq!(e.bcs_id, cs(2));
    assert!(e.equals(&BonsaiGitMappingEntry::new(sha(1), cs(2))));
    assert!(!e.equals(&BonsaiGitMappingEntry::new(sha(1), cs(3))));
    assert!(!e.equals(&BonsaiGitMappingEntry::new(sha(2), cs(2))));
}

#[test]
fn single_ids_make_keys_of_one_id() {
    assert_eq!(
        BonsaisOrGitShas::from(cs(1)),
        BonsaisOrGitShas::Bonsai(vec![cs(1)])
    );
    assert_eq!(
        BonsaisOrGitShas::from(sha(1)),
        BonsaisOrGitShas::GitSha1(vec![sha(1)])
    );
    assert_eq!(
        BonsaisOrGitShas::from(vec![cs(1), cs(2)]),
        BonsaisOrGitShas::Bonsai(vec![cs(1), cs(2)])
    );
    assert_eq!(
        BonsaisOrGitShas::from(vec![sha(1), sha(2)]),
        BonsaisOrGitShas::GitSha1(vec![sha(1), sha(2)])
    );
}

#[test]
fn count_and_is_empty_go_by_the_list() {
    let none: Vec<ChangesetId> = vec![];
    assert!(BonsaisOrGitShas::from(none).is_empty());
    assert_eq!(BonsaisOrGitShas::GitSha1(vec![]).count(), 0);
    assert!(BonsaisOrGitShas::GitSha1(vec![]).is_empty());
    let key = BonsaisOrGitShas::from(vec![sha(1), sha(2), sha(1)]);
    assert_eq!(key.count(), 3);
    assert!(!key.is_empty());
    assert_eq!(BonsaisOrGitShas::from(cs(4)).count(), 1);
}

#[test]
fn from_object_ids_takes_the_digests() {
    let a = gix_hash::ObjectId::from_hex(b"0123456789abcdef0123456789abcdef01234567").unwrap();
    let b = gix_hash::ObjectId::null(gix_hash::Kind::Sha1);
    assert_eq!(
        BonsaisOrGitShas::from_object_ids(&[a, b]),
        Ok(BonsaisOrGitShas::GitSha1(vec![
            GitSha1::from_str("0123456789abcdef0123456789abcdef01234567").unwrap(),
            sha(0),
        ]))
    );
    assert_eq!(
        BonsaisOrGitShas::from_object_ids(&[]),
        Ok(BonsaisOrGitShas::GitSha1(vec![]))
    );
}

#[test]
fn from_sha1_digests_refuses_the_first_of_another_length() {
    assert_eq!(
        BonsaisOrGitShas::from_sha1_digests(&vec![vec![1u8; 20], vec![2u8; 20]]),
        Ok(BonsaisOrGitShas::GitSha1(vec![sha(1), sha(2)]))
    );
    assert_eq!(
        BonsaisOrGitShas::from_sha1_digests(&vec![vec![1u8; 20], vec![2u8; 32], vec![3u8; 5]]),
        Err(ParseError::InvalidLength { len: 32 })
    );
}
