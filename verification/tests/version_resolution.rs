use dracut_stub_manager::EfiStubBuildConfig;
use dracut_stub_manager::KernelVersion;
use dracut_stub_manager::get_newest_installed_kernels;
use dracut_stub_manager::is_valid_installation;

fn pairs(raw: Vec<(&str, &str)>) -> Vec<(String, String)> {
    raw.into_iter().map(|(a, b)| (String::from(a), String::from(b))).collect()
}

fn config_with(mappings: Vec<(&str, &str)>) -> EfiStubBuildConfig {
    EfiStubBuildConfig {
        kernel_modules_dir: String::from("/usr/lib/modules"),
        efi_dir: String::from("/boot/efi"),
        build_mappings: pairs(mappings),
    }
}

fn names(raw: Vec<&str>) -> Vec<String> {
    raw.into_iter().map(String::from).collect()
}

#[test]
fn parse_extracts_version_and_revision() {
    let kv = KernelVersion::parse("5.15.0-2-lts");
    assert_eq!(kv.major, 5);
    assert_eq!(kv.minor, 15);
    assert_eq!(kv.patch, 0);
    assert_eq!(kv.revision, 2);
    assert_eq!(kv.full_name, "5.15.0-2-lts");
}

#[test]
fn parse_revision_after_nonnumeric_part() {
    let kv = KernelVersion::parse("6.1.4-arch1-1");
    assert_eq!(kv.major, 6);
    assert_eq!(kv.minor, 1);
    assert_eq!(kv.patch, 4);
    assert_eq!(kv.revision, 1);
}

#[test]
fn parse_defaults_without_numeric_run() {
    let kv = KernelVersion::parse("custom-kernel");
    assert_eq!(kv.major, 0);
    assert_eq!(kv.minor, 0);
    assert_eq!(kv.patch, 0);
    assert_eq!(kv.revision, 0);
    assert_eq!(kv.full_name, "custom-kernel");
}

#[test]
fn parse_missing_revision_defaults_to_zero() {
    let kv = KernelVersion::parse("5.10.3");
    assert_eq!(kv.major, 5);
    assert_eq!(kv.minor, 10);
    assert_eq!(kv.patch, 3);
    assert_eq!(kv.revision, 0);
}

#[test]
fn resolver_picks_newest_revision() {
    let settings = config_with(vec![("lts", "linux-lts.efi")]);
    let candidates = names(vec!["5.15.0-1-lts", "5.15.0-2-lts"]);
    let resolved = get_newest_installed_kernels(&settings, &candidates);
    assert_eq!(resolved.len(), 1);
    assert_eq!(resolved[0].0, "lts");
    assert_eq!(resolved[0].1, "5.15.0-2-lts");
}

#[test]
fn resolver_keeps_first_seen_on_ties() {
    let settings = config_with(vec![("lts", "linux-lts.efi")]);
    let candidates = names(vec!["5.15.0-2-lts-a", "5.15.0-2-lts-b"]);
    let resolved = get_newest_installed_kernels(&settings, &candidates);
    assert_eq!(resolved.len(), 1);
    assert_eq!(resolved[0].1, "5.15.0-2-lts-a");
}

#[test]
fn resolver_omits_identifier_without_candidates() {
    let settings = config_with(vec![("lts", "linux-lts.efi"), ("zen", "linux-zen.efi")]);
    let candidates = names(vec!["5.15.0-1-lts"]);
    let resolved = get_newest_installed_kernels(&settings, &candidates);
    assert_eq!(resolved.len(), 1);
    assert_eq!(resolved[0].0, "lts");
}

#[test]
fn resolver_associates_directory_with_every_identifier() {
    let settings = config_with(vec![("linux", "linux.efi"), ("zen", "linux-zen.efi")]);
    let candidates = names(vec!["6.2.1-linux-zen"]);
    let resolved = get_newest_installed_kernels(&settings, &candidates);
    assert_eq!(resolved.len(), 2);
    assert_eq!(resolved[0].0, "linux");
    assert_eq!(resolved[0].1, "6.2.1-linux-zen");
    assert_eq!(resolved[1].0, "zen");
    assert_eq!(resolved[1].1, "6.2.1-linux-zen");
}

#[test]
fn resolver_orders_by_major_before_revision() {
    let settings = config_with(vec![("lts", "linux-lts.efi")]);
    let candidates = names(vec!["5.15.0-9-lts", "6.1.0-1-lts"]);
    let resolved = get_newest_installed_kernels(&settings, &candidates);
    assert_eq!(resolved[0].1, "6.1.0-1-lts");
}

#[test]
fn valid_installation_needs_kernel_image() {
    let with_image = names(vec!["modules.alias", "vmlinuz", "kernel"]);
    let without_image = names(vec!["modules.alias", "kernel"]);
    assert!(is_valid_installation(&with_image));
    assert!(!is_valid_installation(&without_image));
}
