//! Keeps a machine's UEFI boot configuration in step with its installed
//! kernels: resolving the newest kernel per configured identifier, filtering
//! EFI system partitions out of partition tables, locating `.efi` binaries,
//! reconciling them against NVRAM boot entries, synthesizing new entries, and
//! allocating boot-order ids.
//!
//! All functions here are pure: the surrounding binary performs the directory
//! reads, mounts and firmware-variable writes, and hands the results in as
//! plain values.
//!
//! UEFI NVRAM is global state shared with the firmware and with any other
//! writer on the machine. The engine takes no lock on it: it assumes a
//! single operator and no concurrent invocation.

pub mod boot;
pub mod jobs;
pub mod mounts;
pub mod order;
pub mod resolver;
pub mod paths;
pub mod scanner;
pub mod strutil;
pub mod version;

pub use paths::normalize_path;
pub use paths::to_uefi_path;
pub use paths::is_efi_binary;
pub use paths::get_efi_binaries;
pub use order::get_free_boot_id;
pub use order::insert_or_append;
pub use order::boot_order_items;
pub use order::apply_boot_order_selection;
pub use version::KernelVersion;
pub use resolver::is_valid_installation;
pub use resolver::get_newest_installed_kernels;
pub use scanner::EfiPartitionInfo;
pub use scanner::PartitionRecord;
pub use scanner::DiskPartitions;
pub use scanner::BlockDeviceEntry;
pub use scanner::get_efi_partitions;
pub use scanner::get_disk_device_paths;
pub use boot::UefiBootEntry;
pub use boot::DevicePathList;
pub use boot::HardDriveNode;
pub use boot::SignatureKind;
pub use jobs::EfiStubBuildConfig;
pub use jobs::BuildJob;
pub use jobs::CleanAction;
pub use jobs::ModuleDirEntry;
pub use jobs::join_path;
pub use jobs::plan_builds;
pub use jobs::plan_clean;
pub use jobs::stale_module_dirs;
pub use mounts::get_mount_dir;
