use dracut_stub_manager::BlockDeviceEntry;
use dracut_stub_manager::DiskPartitions;
use dracut_stub_manager::PartitionRecord;
use dracut_stub_manager::get_disk_device_paths;
use dracut_stub_manager::get_efi_partitions;
use dracut_stub_manager::get_mount_dir;
use dracut_stub_manager::scanner::ESP_TYPE_GUID;
use dracut_stub_manager::scanner::parse_partition_index;

const ROOT_TYPE_GUID: u128 = 0x0FC63DAF_8483_4772_8E79_3D69D8477DE4;

#[test]
fn only_esp_rows_survive_the_scan() {
    let disks = vec![DiskPartitions {
        device: String::from("/dev/sda"),
        partitions: vec![
            PartitionRecord {
                part_nr: 1,
                type_guid: ESP_TYPE_GUID,
                part_guid: 0xAA,
                first_lba: 2048,
                last_lba: 4095,
            },
            PartitionRecord {
                part_nr: 2,
                type_guid: ROOT_TYPE_GUID,
                part_guid: 0xBB,
                first_lba: 4096,
                last_lba: 8191,
            },
        ],
    }];
    let esps = get_efi_partitions(&disks);
    assert_eq!(esps.len(), 1);
    assert_eq!(esps[0].part_nr, 1);
    assert_eq!(esps[0].part_guid, 0xAA);
    assert_eq!(esps[0].disk_device, "/dev/sda");
    assert_eq!(esps[0].first_lba, 2048);
    assert_eq!(esps[0].last_lba, 4095);
}

#[test]
fn disk_listing_skips_partitions_and_dot_entries() {
    let entries = vec![
        BlockDeviceEntry { name: String::from("."), is_dir: true, partition_attr: None },
        BlockDeviceEntry { name: String::from(".."), is_dir: true, partition_attr: None },
        BlockDeviceEntry { name: String::from("sda"), is_dir: true, partition_attr: None },
        BlockDeviceEntry {
            name: String::from("sda1"),
            is_dir: true,
            partition_attr: Some(String::from("1\n")),
        },
        BlockDeviceEntry { name: String::from("stat"), is_dir: false, partition_attr: None },
    ];
    assert_eq!(get_disk_device_paths(&entries), vec![String::from("/dev/sda")]);
}

#[test]
fn partition_number_maps_back_to_device_node() {
    let part = dracut_stub_manager::EfiPartitionInfo {
        part_nr: 2,
        disk_device: String::from("/dev/sda"),
        part_guid: 0xAA,
        first_lba: 2048,
        last_lba: 4095,
    };
    let children = vec![
        BlockDeviceEntry {
            name: String::from("sda1"),
            is_dir: true,
            partition_attr: Some(String::from("1\n")),
        },
        BlockDeviceEntry {
            name: String::from("sda2"),
            is_dir: true,
            partition_attr: Some(String::from("2\n")),
        },
    ];
    assert_eq!(part.partition_device_for(&children), Some(String::from("/dev/sda2")));
    let unrelated = vec![BlockDeviceEntry {
        name: String::from("sda1"),
        is_dir: true,
        partition_attr: Some(String::from("1\n")),
    }];
    assert_eq!(part.partition_device_for(&unrelated), None);
}

#[test]
fn partition_attribute_parsing() {
    assert_eq!(parse_partition_index("3\n"), Some(3));
    assert_eq!(parse_partition_index("  12  "), Some(12));
    assert_eq!(parse_partition_index(""), None);
    assert_eq!(parse_partition_index("x3"), None);
    assert_eq!(parse_partition_index("3x"), None);
    assert_eq!(parse_partition_index("99999999999999999999"), None);
}

#[test]
fn mount_table_lookup() {
    let mounts = "proc /proc proc rw 0 0\n/dev/sda1 /boot vfat rw 0 0\n/dev/sda2 / ext4 rw 0 0\n";
    assert_eq!(get_mount_dir(mounts, "/dev/sda1"), Some(String::from("/boot")));
    assert_eq!(get_mount_dir(mounts, "/dev/sda2"), Some(String::from("/")));
    assert_eq!(get_mount_dir(mounts, "/dev/sdb1"), None);
}

#[test]
fn mount_lookup_takes_first_matching_line() {
    let mounts = "/dev/sda1 /boot vfat rw 0 0\n/dev/sda1 /mnt/tmp vfat rw 0 0\n";
    assert_eq!(get_mount_dir(mounts, "/dev/sda1"), Some(String::from("/boot")));
}
