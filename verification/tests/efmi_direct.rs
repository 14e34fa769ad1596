use aemm::efmi_direct::{direct_child_name, ensure_same_root, EfmiDirectDeploymentStrategy};
use aemm::error::AppError;

#[test]
fn enables_and_disables_by_directory_name() {
    let strategy = EfmiDirectDeploymentStrategy::new(r"C:\EFMI\Mods".to_owned());
    assert_eq!(strategy.mods_root(), r"C:\EFMI\Mods");
    assert_eq!(strategy.enabled_destination(r"C:\EFMI\Mods\DISABLED_My Mod").unwrap(), r"C:\EFMI\Mods/My Mod");
    assert_eq!(strategy.disabled_destination(r"C:\EFMI\Mods\My Mod").unwrap(), r"C:\EFMI\Mods/DISABLED_My Mod");
    assert!(strategy.disabled_destination(r"C:\EFMI\Mods\disabled_x").is_err());
    assert!(strategy.enabled_destination(r"C:\EFMI\Mods\Plain").is_err());
}

#[test]
fn only_direct_children_of_mods_are_managed() {
    assert_eq!(direct_child_name(r"C:\EFMI\Mods", r"C:\EFMI\Mods\A").unwrap(), "A");
    assert!(matches!(direct_child_name(r"C:\EFMI\Mods", r"C:\EFMI\Mods\A\B"), Err(AppError::UnsafePath(_))));
    assert!(ensure_same_root(r"C:\EFMI\Mods", "C:/EFMI/Mods/").is_ok());
    assert!(ensure_same_root(r"C:\EFMI\Mods", r"C:\EFMI\Other").is_err());
}

#[test]
fn inventory_records_size_and_digest() {
    let entry = aemm::efmi_direct::inventory_entry("sub/a.ini", b"data").unwrap();
    assert_eq!(entry.source_relative, "sub/a.ini");
    assert_eq!(entry.destination_relative, "sub/a.ini");
    assert_eq!(entry.size_bytes, 4);
    assert_eq!(entry.content_hash, blake3::hash(b"data").to_hex().to_string());
    assert!(matches!(aemm::efmi_direct::inventory_entry("../a.ini", b"data"), Err(AppError::UnsafePath(_))));
}
