use aemm::error::AppError;
use aemm::metadata::{
    checked_i64, lifecycle_from_database, lifecycle_to_database, metadata_source_from_database,
    metadata_source_to_database, non_negative_u64, validate_local_metadata, LocalModMetadata, MetadataSourceKind,
    ModLifecycleState,
};

#[test]
fn normalizes_and_deduplicates_local_tags() {
    let metadata = validate_local_metadata(LocalModMetadata {
        display_name_override: Some("  Local Name  ".to_owned()),
        tags: vec!["Character".to_owned(), "character".to_owned()],
        ..LocalModMetadata::default()
    })
    .unwrap();
    assert_eq!(metadata.display_name_override.as_deref(), Some("Local Name"));
    assert_eq!(metadata.tags, vec!["Character"]);
}

#[test]
fn blank_overrides_become_absent() {
    let metadata = validate_local_metadata(LocalModMetadata {
        category_override: Some("   ".to_owned()),
        ..LocalModMetadata::default()
    })
    .unwrap();
    assert!(metadata.category_override.is_none());
}

#[test]
fn lifecycle_states_round_trip_through_the_database_text() {
    for state in [
        ModLifecycleState::Installing,
        ModLifecycleState::Installed,
        ModLifecycleState::Broken,
        ModLifecycleState::Removing,
    ] {
        assert_eq!(lifecycle_from_database(lifecycle_to_database(state)).unwrap(), state);
    }
    assert_eq!(lifecycle_to_database(ModLifecycleState::Broken), "broken");
    assert!(matches!(lifecycle_from_database("gone"), Err(AppError::DataIntegrity(_))));
}

#[test]
fn metadata_sources_round_trip_through_the_database_text() {
    for kind in [MetadataSourceKind::ModJson, MetadataSourceKind::Inferred] {
        assert_eq!(metadata_source_from_database(metadata_source_to_database(kind)).unwrap(), kind);
    }
    assert!(metadata_source_from_database("other").is_err());
}

#[test]
fn database_integers_are_range_checked() {
    assert_eq!(checked_i64(5, "size").unwrap(), 5);
    assert!(checked_i64(u64::MAX, "size").is_err());
    assert_eq!(non_negative_u64(7, "size").unwrap(), 7);
    assert!(non_negative_u64(-1, "size").is_err());
}
