//! NVRAM boot entries: the library's model of one entry, synthesis of a new
//! entry for a discovered binary, and reconciliation of discovered binaries
//! against the entries already present.

use vstd::prelude::*;

use crate::paths::lemma_uefi_round_trip;
use crate::paths::normalize;
use crate::paths::normalize_path;
use crate::paths::to_uefi_path;
use crate::paths::uefi_path_of;
use crate::scanner::EfiPartitionInfo;
use crate::strutil::str_eq;

verus! {

/// How the partition is identified in a device path's signature field.
#[derive(Clone, Copy, PartialEq, Eq, Structural)]
pub enum SignatureKind {
    Gpt,
    Mbr,
}

/// Attribute bit marking an entry the firmware offers at boot.
pub const LOAD_OPTION_ACTIVE: u32 = 1;

/// Device-path hard-drive format code for a GPT partition entry.
pub const HARD_DRIVE_FORMAT_GPT: u8 = 2;

/// The hard-drive node of a boot entry's device path: which partition the
/// entry points into.
#[derive(Clone, Copy)]
pub struct HardDriveNode {
    pub partition_number: u32,
    pub partition_start: u64,
    pub partition_size: u64,
    pub partition_sig: u128,
    pub format: u8,
    pub sig_kind: SignatureKind,
}

/// The file-path part of a boot entry: a path inside the partition, in UEFI
/// spelling, plus the hard-drive node.
pub struct DevicePathList {
    pub file_path: String,
    pub hard_drive: HardDriveNode,
}

/// One UEFI NVRAM boot entry, as this engine models it.
pub struct UefiBootEntry {
    pub attributes: u32,
    pub description: String,
    pub file_path_list: Option<DevicePathList>,
}

impl UefiBootEntry {
    /// A field-for-field copy.
    pub fn duplicate(&self) -> (r: UefiBootEntry)
        ensures
            r == *self,
    {
        UefiBootEntry {
            attributes: self.attributes,
            description: self.description.clone(),
            file_path_list: match &self.file_path_list {
                Some(f) => Some(
                    DevicePathList { file_path: f.file_path.clone(), hard_drive: f.hard_drive },
                ),
                None => None,
            },
        }
    }
}

/// An entry is for a binary on a partition when it carries a device path
/// whose signature is the partition's GUID and whose file path, normalized,
/// is the binary's normalized relative path.
pub open spec fn entry_matches(e: UefiBootEntry, guid: u128, bin: Seq<char>) -> bool {
    match e.file_path_list {
        Some(f) => f.hard_drive.partition_sig == guid && normalize(f.file_path@) == normalize(bin),
        None => false,
    }
}

/// The last entry in the list matching a binary, if any: when several match,
/// the one read latest wins.
pub open spec fn last_match(entries: Seq<UefiBootEntry>, guid: u128, bin: Seq<char>) -> Option<
    UefiBootEntry,
>
    decreases entries.len(),
{
    if entries.len() == 0 {
        None
    } else if entry_matches(entries.last(), guid, bin) {
        Some(entries.last())
    } else {
        last_match(entries.drop_last(), guid, bin)
    }
}

/// The reconciler's positive result: each binary that has a matching entry,
/// in discovery order, paired with that entry.
pub open spec fn spec_existing(
    entries: Seq<UefiBootEntry>,
    bins: Seq<String>,
    guid: u128,
) -> Seq<(String, UefiBootEntry)>
    decreases bins.len(),
{
    if bins.len() == 0 {
        Seq::empty()
    } else {
        let rest = spec_existing(entries, bins.drop_last(), guid);
        match last_match(entries, guid, bins.last()@) {
            Some(e) => rest.push((bins.last(), e)),
            None => rest,
        }
    }
}

/// The reconciler's negative result: the binaries no entry matches, in
/// discovery order.
pub open spec fn spec_missing(
    entries: Seq<UefiBootEntry>,
    bins: Seq<String>,
    guid: u128,
) -> Seq<String> {
    bins.filter(|b: String| last_match(entries, guid, b@) is None)
}

/// Scans the entries for the last one matching `bin` on partition `guid`.
fn find_last_match(entries: &Vec<UefiBootEntry>, guid: u128, bin: &str) -> (r: Option<
    UefiBootEntry,
>)
    ensures
        r == last_match(entries@, guid, bin@),
{
    let nbin = normalize_path(bin);
    let mut found: Option<UefiBootEntry> = None;
    let mut j: usize = 0;
    while j < entries.len()
        invariant
            0 <= j <= entries@.len(),
            nbin@ == normalize(bin@),
            found == last_match(entries@.take(j as int), guid, bin@),
        decreases entries@.len() - j,
    {
        let e = &entries[j];
        let m = match &e.file_path_list {
            Some(f) => {
                if f.hard_drive.partition_sig == guid {
                    let nf = normalize_path(f.file_path.as_str());
                    str_eq(nf.as_str(), nbin.as_str())
                } else {
                    false
                }
            },
            None => false,
        };
        proof {
            assert(entries@.take(j + 1).drop_last() =~= entries@.take(j as int));
            assert(entries@.take(j + 1).last() == entries@[j as int]);
            assert(m == entry_matches(entries@[j as int], guid, bin@));
        }
        if m {
            found = Some(entries[j].duplicate());
        }
        j += 1;
    }
    proof {
        assert(entries@.take(entries@.len() as int) =~= entries@);
    }
    found
}

impl EfiPartitionInfo {
    /// Which discovered binaries already have a boot entry on this
    /// partition: each such binary, in discovery order, with the last entry
    /// whose device path matches it.
    pub fn existing_boot_entries(
        &self,
        entries: &Vec<UefiBootEntry>,
        binaries: &Vec<String>,
    ) -> (r: Vec<(String, UefiBootEntry)>)
        ensures
            r@ == spec_existing(entries@, binaries@, self.part_guid),
    {
        let mut out: Vec<(String, UefiBootEntry)> = Vec::new();
        let mut i: usize = 0;
        while i < binaries.len()
            invariant
                0 <= i <= binaries@.len(),
                out@ =~= spec_existing(entries@, binaries@.take(i as int), self.part_guid),
            decreases binaries@.len() - i,
        {
            proof {
                assert(binaries@.take(i + 1).drop_last() =~= binaries@.take(i as int));
                assert(binaries@.take(i + 1).last() == binaries@[i as int]);
            }
            match find_last_match(entries, self.part_guid, binaries[i].as_str()) {
                Some(e) => {
                    out.push((binaries[i].clone(), e));
                },
                None => {},
            }
            i += 1;
        }
        proof {
            assert(binaries@.take(binaries@.len() as int) =~= binaries@);
        }
        out
    }

    /// Which discovered binaries still need a boot entry on this partition,
    /// in discovery order.
    pub fn missing_boot_entries(
        &self,
        entries: &Vec<UefiBootEntry>,
        binaries: &Vec<String>,
    ) -> (r: Vec<String>)
        ensures
            r@ == spec_missing(entries@, binaries@, self.part_guid),
    {
        let mut out: Vec<String> = Vec::new();
        let mut i: usize = 0;
        while i < binaries.len()
            invariant
                0 <= i <= binaries@.len(),
                out@ =~= spec_missing(entries@, binaries@.take(i as int), self.part_guid),
            decreases binaries@.len() - i,
        {
            proof {
                reveal(Seq::filter);
                assert(binaries@.take(i + 1).drop_last() =~= binaries@.take(i as int));
                assert(binaries@.take(i + 1).last() == binaries@[i as int]);
            }
            match find_last_match(entries, self.part_guid, binaries[i].as_str()) {
                Some(_) => {},
                None => {
                    out.push(binaries[i].clone());
                },
            }
            i += 1;
        }
        proof {
            assert(binaries@.take(binaries@.len() as int) =~= binaries@);
        }
        out
    }

    /// Builds a fresh, active boot entry for a binary on this partition. The
    /// device path carries the binary's path in UEFI spelling, the
    /// partition's start, its inclusive-range size
    /// `last_lba - first_lba + 1`, and its GUID under the GPT signature
    /// kind. The id is assigned later, by the boot-order allocator.
    pub fn gen_boot_entry(&self, efi_bin: &str, name: String) -> (e: UefiBootEntry)
        requires
            self.first_lba <= self.last_lba < u64::MAX,
        ensures
            e.attributes == LOAD_OPTION_ACTIVE,
            e.description == name,
            e.file_path_list is Some,
            e.file_path_list->0.file_path@ == uefi_path_of(efi_bin@),
            e.file_path_list->0.hard_drive == (HardDriveNode {
                partition_number: self.part_nr,
                partition_start: self.first_lba,
                partition_size: (self.last_lba - self.first_lba + 1) as u64,
                partition_sig: self.part_guid,
                format: HARD_DRIVE_FORMAT_GPT,
                sig_kind: SignatureKind::Gpt,
            }),
            // the reconciler recognizes the new entry as the binary's own
            (efi_bin@.len() > 0 ==> efi_bin@[0] != '/' && efi_bin@[0] != '\\') ==> entry_matches(
                e,
                self.part_guid,
                efi_bin@,
            ),
    {
        proof {
            if efi_bin@.len() == 0 || (efi_bin@[0] != '/' && efi_bin@[0] != '\\') {
                lemma_uefi_round_trip(efi_bin@);
            }
        }
        UefiBootEntry {
            attributes: LOAD_OPTION_ACTIVE,
            description: name,
            file_path_list: Some(
                DevicePathList {
                    file_path: to_uefi_path(efi_bin),
                    hard_drive: HardDriveNode {
                        partition_number: self.part_nr,
                        partition_start: self.first_lba,
                        partition_size: (self.last_lba + 1) - self.first_lba,
                        partition_sig: self.part_guid,
                        format: HARD_DRIVE_FORMAT_GPT,
                        sig_kind: SignatureKind::Gpt,
                    },
                },
            ),
        }
    }
}

} // verus!
