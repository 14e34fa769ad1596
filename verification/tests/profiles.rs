use aemm::profiles::validate_profile_name;

#[test]
fn normalizes_and_validates_profile_names() {
    assert_eq!(validate_profile_name("  截图配置  ".to_owned()).ok().as_deref(), Some("截图配置"));
    assert!(validate_profile_name(" \n ".to_owned()).is_err());
    assert!(validate_profile_name("a".repeat(65)).is_err());
    assert!(validate_profile_name("bad\0name".to_owned()).is_err());
}

#[test]
fn profile_name_of_exactly_sixty_four_characters_is_accepted() {
    assert_eq!(validate_profile_name("a".repeat(64)).unwrap(), "a".repeat(64));
}
