use dracut_stub_manager::EfiStubBuildConfig;
use dracut_stub_manager::ModuleDirEntry;
use dracut_stub_manager::get_newest_installed_kernels;
use dracut_stub_manager::join_path;
use dracut_stub_manager::plan_builds;
use dracut_stub_manager::plan_clean;
use dracut_stub_manager::stale_module_dirs;

fn pairs(raw: Vec<(&str, &str)>) -> Vec<(String, String)> {
    raw.into_iter().map(|(a, b)| (String::from(a), String::from(b))).collect()
}

fn names(raw: Vec<&str>) -> Vec<String> {
    raw.into_iter().map(String::from).collect()
}

fn config_with(mappings: Vec<(&str, &str)>) -> EfiStubBuildConfig {
    EfiStubBuildConfig {
        kernel_modules_dir: String::from("/usr/lib/modules"),
        efi_dir: String::from("/boot/efi"),
        build_mappings: pairs(mappings),
    }
}

#[test]
fn join_inserts_separator_only_when_needed() {
    assert_eq!(join_path("/boot/efi", "linux.efi"), "/boot/efi/linux.efi");
    assert_eq!(join_path("/boot/efi/", "linux.efi"), "/boot/efi/linux.efi");
    assert_eq!(join_path("", "linux.efi"), "linux.efi");
}

#[test]
fn build_jobs_follow_resolved_kernels() {
    let settings = config_with(vec![("lts", "linux-lts.efi"), ("zen", "linux-zen.efi")]);
    let resolved = pairs(vec![("lts", "5.15.0-2-lts")]);
    let jobs = plan_builds(&settings, &resolved);
    assert_eq!(jobs.len(), 1);
    assert_eq!(jobs[0].kernel_version, "5.15.0-2-lts");
    assert_eq!(jobs[0].destination, "/boot/efi/linux-lts.efi");
}

#[test]
fn unresolved_identifier_becomes_clean_candidate() {
    // "zen" is configured but no module directory matches it: resolve omits
    // it, and clean offers its destination for removal since the file exists.
    let settings = config_with(vec![("lts", "linux-lts.efi"), ("zen", "linux-zen.efi")]);
    let candidates = names(vec!["5.15.0-1-lts"]);
    let resolved = get_newest_installed_kernels(&settings, &candidates);
    assert!(resolved.iter().all(|(ident, _)| ident != "zen"));
    let listing = names(vec!["linux-lts.efi", "linux-zen.efi"]);
    let actions = plan_clean(&settings, &resolved, &listing);
    assert_eq!(actions.len(), 1);
    assert_eq!(actions[0].ident, "zen");
    assert_eq!(actions[0].destination, "/boot/efi/linux-zen.efi");
    assert!(actions[0].present);
}

#[test]
fn clean_candidate_without_file_is_not_present() {
    let settings = config_with(vec![("zen", "linux-zen.efi")]);
    let resolved: Vec<(String, String)> = vec![];
    let listing = names(vec!["linux-lts.efi"]);
    let actions = plan_clean(&settings, &resolved, &listing);
    assert_eq!(actions.len(), 1);
    assert!(!actions[0].present);
}

#[test]
fn resolved_identifier_is_not_cleaned() {
    let settings = config_with(vec![("lts", "linux-lts.efi")]);
    let resolved = pairs(vec![("lts", "5.15.0-1-lts")]);
    let listing = names(vec!["linux-lts.efi"]);
    assert!(plan_clean(&settings, &resolved, &listing).is_empty());
}

#[test]
fn stale_directories_spare_current_kernel() {
    let entries = vec![
        ModuleDirEntry { name: String::from("5.15.0-1-lts"), has_kernel_image: false },
        ModuleDirEntry { name: String::from("5.15.0-2-lts"), has_kernel_image: true },
        ModuleDirEntry { name: String::from("6.1.0-running"), has_kernel_image: false },
    ];
    let stale = stale_module_dirs(&entries, "6.1.0-running");
    assert_eq!(stale, vec![String::from("5.15.0-1-lts")]);
}
