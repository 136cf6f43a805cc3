use dracut_stub_manager::DevicePathList;
use dracut_stub_manager::EfiPartitionInfo;
use dracut_stub_manager::HardDriveNode;
use dracut_stub_manager::SignatureKind;
use dracut_stub_manager::UefiBootEntry;
use dracut_stub_manager::boot::HARD_DRIVE_FORMAT_GPT;
use dracut_stub_manager::boot::LOAD_OPTION_ACTIVE;

const GUID_A: u128 = 0x11111111_2222_3333_4444_555555555555;
const GUID_B: u128 = 0x99999999_8888_7777_6666_555555555555;

fn esp(guid: u128, first_lba: u64, last_lba: u64) -> EfiPartitionInfo {
    EfiPartitionInfo {
        part_nr: 1,
        disk_device: String::from("/dev/sda"),
        part_guid: guid,
        first_lba,
        last_lba,
    }
}

fn entry_for(guid: u128, uefi_path: &str) -> UefiBootEntry {
    UefiBootEntry {
        attributes: LOAD_OPTION_ACTIVE,
        description: String::from("existing entry"),
        file_path_list: Some(DevicePathList {
            file_path: String::from(uefi_path),
            hard_drive: HardDriveNode {
                partition_number: 1,
                partition_start: 2048,
                partition_size: 100,
                partition_sig: guid,
                format: HARD_DRIVE_FORMAT_GPT,
                sig_kind: SignatureKind::Gpt,
            },
        }),
    }
}

#[test]
fn synthesized_entry_uses_inclusive_partition_size() {
    let part = esp(GUID_A, 100, 199);
    let entry = part.gen_boot_entry("EFI/BOOT/BOOTX64.EFI", String::from("dracut"));
    let fpl = entry.file_path_list.expect("device path expected");
    assert_eq!(fpl.hard_drive.partition_size, 100);
    assert_eq!(fpl.hard_drive.partition_start, 100);
    assert_eq!(fpl.hard_drive.partition_sig, GUID_A);
    assert_eq!(fpl.file_path, "\\EFI\\BOOT\\BOOTX64.EFI");
    assert_eq!(entry.attributes, LOAD_OPTION_ACTIVE);
    assert_eq!(entry.description, "dracut");
}

#[test]
fn matching_entry_is_existing_not_missing() {
    let part = esp(GUID_A, 2048, 4095);
    let entries = vec![entry_for(GUID_A, "\\EFI\\BOOT\\BOOTX64.EFI")];
    let binaries = vec![String::from("EFI/BOOT/BOOTX64.EFI")];
    let existing = part.existing_boot_entries(&entries, &binaries);
    let missing = part.missing_boot_entries(&entries, &binaries);
    assert_eq!(existing.len(), 1);
    assert_eq!(existing[0].0, "EFI/BOOT/BOOTX64.EFI");
    assert_eq!(existing[0].1.description, "existing entry");
    assert!(missing.is_empty());
}

#[test]
fn entry_on_other_partition_leaves_binary_missing() {
    let part = esp(GUID_A, 2048, 4095);
    let entries = vec![entry_for(GUID_B, "\\EFI\\BOOT\\BOOTX64.EFI")];
    let binaries = vec![String::from("EFI/BOOT/BOOTX64.EFI")];
    assert!(part.existing_boot_entries(&entries, &binaries).is_empty());
    assert_eq!(
        part.missing_boot_entries(&entries, &binaries),
        vec![String::from("EFI/BOOT/BOOTX64.EFI")]
    );
}

#[test]
fn path_spelling_does_not_hide_a_match() {
    let part = esp(GUID_A, 2048, 4095);
    let entries = vec![entry_for(GUID_A, "\\loader\\dracut.efi")];
    let binaries = vec![String::from("loader/dracut.efi"), String::from("EFI/other.efi")];
    let existing = part.existing_boot_entries(&entries, &binaries);
    assert_eq!(existing.len(), 1);
    assert_eq!(existing[0].0, "loader/dracut.efi");
    assert_eq!(
        part.missing_boot_entries(&entries, &binaries),
        vec![String::from("EFI/other.efi")]
    );
}

#[test]
fn synthesized_entry_reconciles_against_its_binary() {
    let part = esp(GUID_A, 2048, 4095);
    let binary = String::from("EFI/dracut/linux.efi");
    let entry = part.gen_boot_entry(&binary, String::from("dracut"));
    let entries = vec![entry];
    let binaries = vec![binary.clone()];
    let existing = part.existing_boot_entries(&entries, &binaries);
    assert_eq!(existing.len(), 1);
    assert_eq!(existing[0].0, binary);
    assert!(part.missing_boot_entries(&entries, &binaries).is_empty());
}

#[test]
fn entry_without_device_path_matches_nothing() {
    let part = esp(GUID_A, 2048, 4095);
    let entries = vec![UefiBootEntry {
        attributes: 0,
        description: String::from("bare"),
        file_path_list: None,
    }];
    let binaries = vec![String::from("EFI/BOOT/BOOTX64.EFI")];
    assert!(part.existing_boot_entries(&entries, &binaries).is_empty());
    assert_eq!(part.missing_boot_entries(&entries, &binaries).len(), 1);
}
