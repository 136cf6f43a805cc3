use dracut_stub_manager::get_efi_binaries;
use dracut_stub_manager::is_efi_binary;
use dracut_stub_manager::normalize_path;
use dracut_stub_manager::to_uefi_path;

#[test]
fn normalization_round_trip() {
    assert_eq!(
        normalize_path("\\EFI\\BOOT\\BOOTX64.EFI"),
        normalize_path("EFI/BOOT/BOOTX64.EFI")
    );
}

#[test]
fn normalization_strips_one_leading_separator() {
    assert_eq!(normalize_path("/EFI/BOOT/BOOTX64.EFI"), "EFI/BOOT/BOOTX64.EFI");
    assert_eq!(normalize_path("\\EFI"), "EFI");
    assert_eq!(normalize_path("EFI"), "EFI");
}

#[test]
fn uefi_path_gets_backslashes_and_leading_separator() {
    assert_eq!(to_uefi_path("EFI/BOOT/BOOTX64.EFI"), "\\EFI\\BOOT\\BOOTX64.EFI");
    assert_eq!(normalize_path(&to_uefi_path("EFI/BOOT/BOOTX64.EFI")), "EFI/BOOT/BOOTX64.EFI");
}

#[test]
fn efi_extension_is_case_insensitive() {
    assert!(is_efi_binary("EFI/BOOT/BOOTX64.EFI"));
    assert!(is_efi_binary("boot/grub.efi"));
    assert!(is_efi_binary("a/b/c.Efi"));
    assert!(!is_efi_binary("boot/grub.ef"));
    assert!(!is_efi_binary("boot/grubefi"));
    assert!(!is_efi_binary("boot/grub.efi.bak"));
}

#[test]
fn bare_dotfile_is_no_binary() {
    assert!(!is_efi_binary(".efi"));
    assert!(!is_efi_binary("dir/.efi"));
    assert!(is_efi_binary("dir/a.efi"));
}

#[test]
fn filter_keeps_only_efi_binaries() {
    let paths: Vec<String> = vec![
        String::from("EFI/BOOT/BOOTX64.EFI"),
        String::from("EFI/README.txt"),
        String::from("loader/dracut.efi"),
        String::from("loader/entries.conf"),
    ];
    let binaries = get_efi_binaries(&paths);
    assert_eq!(binaries, vec![
        String::from("EFI/BOOT/BOOTX64.EFI"),
        String::from("loader/dracut.efi"),
    ]);
}
