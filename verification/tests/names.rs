use aemm::names::{enabled_directory_name, is_disabled_name, strip_disabled_prefix};

#[test]
fn disabled_prefix_is_case_insensitive_and_normalized() {
    assert_eq!(strip_disabled_prefix("disabled__My Mod"), "My Mod");
    assert!(is_disabled_name("DiSaBlEd-My Mod"));
}

#[test]
fn enabled_name_drops_the_disabled_prefix() {
    assert_eq!(enabled_directory_name("DISABLED My Mod"), "My Mod");
    assert_eq!(enabled_directory_name("Plain"), "Plain");
    assert!(!is_disabled_name("Enabled Mod"));
}
