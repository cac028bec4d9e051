use bonsai_git_mapping::{PushRedirectionConfigEntry, RepositoryId, RowId};

#[test]
fn row_id_wraps_a_column_value() {
    let id = RowId::new(42);
    assert_eq!(id, RowId(42));
    assert_eq!(id.commit(), RowId(42));
    assert_eq!(id.rollback(), 42);
    assert_eq!(u64::from(id), 42);
}

#[test]
fn row_id_prints_in_decimal() {
    assert_eq!(RowId(0).to_string(), "0");
    assert_eq!(RowId(1203).to_string(), "1203");
    assert_eq!(RowId(u64::MAX).to_string(), "18446744073709551615");
}

#[test]
fn config_entry_holds_its_fields() {
    let e = PushRedirectionConfigEntry {
        id: RowId(1),
        repo_id: RepositoryId::new(7),
        draft_push: true,
        public_push: false,
    };
    assert_eq!(e.clone(), e);
    assert!(e.draft_push && !e.public_push);
}
