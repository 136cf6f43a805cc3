//! Disk and partition scanning logic: filtering EFI system partitions out of
//! partition tables, picking whole-disk block devices out of a sysfs-style
//! listing, and mapping a partition number back to its device node.

use vstd::prelude::*;

use crate::strutil::str_eq;
use crate::version::is_digit;
use crate::version::is_digit_char;
use crate::version::num_val;
use crate::version::sat64;

verus! {

/// The partition-type GUID that marks an EFI System Partition, as the
/// canonical text form `C12A7328-F81F-11D2-BA4B-00A0C93EC93B` reads as one
/// 128-bit number.
pub const ESP_TYPE_GUID: u128 = 0xC12A7328_F81F_11D2_BA4B_00A0C93EC93B;

/// One row of a disk's partition table, as plain values.
#[derive(Clone, Copy)]
pub struct PartitionRecord {
    pub part_nr: u32,
    pub type_guid: u128,
    pub part_guid: u128,
    pub first_lba: u64,
    pub last_lba: u64,
}

/// One whole disk with its partition table.
pub struct DiskPartitions {
    pub device: String,
    pub partitions: Vec<PartitionRecord>,
}

/// One discovered EFI System Partition. Its identity for matching purposes
/// is `part_guid`, unique per ESP on the system.
pub struct EfiPartitionInfo {
    pub part_nr: u32,
    pub disk_device: String,
    pub part_guid: u128,
    pub first_lba: u64,
    pub last_lba: u64,
}

/// One entry of a sysfs-style block-device listing: its name, whether it is
/// a directory, and the content of its `partition` attribute when the entry
/// has one (partitions do, whole disks do not).
pub struct BlockDeviceEntry {
    pub name: String,
    pub is_dir: bool,
    pub partition_attr: Option<String>,
}

/// The rows of a partition table that describe an ESP.
pub open spec fn esp_records(parts: Seq<PartitionRecord>) -> Seq<PartitionRecord> {
    parts.filter(|p: PartitionRecord| p.type_guid == ESP_TYPE_GUID)
}

/// The ESP infos one disk contributes.
pub open spec fn infos_of_disk(device: String, parts: Seq<PartitionRecord>) -> Seq<
    EfiPartitionInfo,
> {
    esp_records(parts).map_values(
        |p: PartitionRecord|
            (EfiPartitionInfo {
                part_nr: p.part_nr,
                disk_device: device,
                part_guid: p.part_guid,
                first_lba: p.first_lba,
                last_lba: p.last_lba,
            }),
    )
}

/// All ESP infos of all disks, in disk order, table order within a disk.
pub open spec fn spec_esp_infos(disks: Seq<DiskPartitions>) -> Seq<EfiPartitionInfo>
    decreases disks.len(),
{
    if disks.len() == 0 {
        Seq::empty()
    } else {
        spec_esp_infos(disks.drop_last()) + infos_of_disk(
            disks.last().device,
            disks.last().partitions@,
        )
    }
}

/// Keeps, from every disk's partition table, the entries whose type GUID is
/// the EFI System Partition type, as `EfiPartitionInfo` rows.
pub fn get_efi_partitions(disks: &Vec<DiskPartitions>) -> (r: Vec<EfiPartitionInfo>)
    ensures
        r@ == spec_esp_infos(disks@),
{
    let mut out: Vec<EfiPartitionInfo> = Vec::new();
    let mut di: usize = 0;
    while di < disks.len()
        invariant
            0 <= di <= disks@.len(),
            out@ =~= spec_esp_infos(disks@.take(di as int)),
        decreases disks@.len() - di,
    {
        let disk = &disks[di];
        let mut pi: usize = 0;
        while pi < disk.partitions.len()
            invariant
                0 <= di < disks@.len(),
                0 <= pi <= disks@[di as int].partitions@.len(),
                disk == disks@[di as int],
                out@ =~= spec_esp_infos(disks@.take(di as int)) + infos_of_disk(
                    disks@[di as int].device,
                    disks@[di as int].partitions@.take(pi as int),
                ),
            decreases disks@[di as int].partitions@.len() - pi,
        {
            let ghost parts = disks@[di as int].partitions@;
            let p = disk.partitions[pi];
            proof {
                reveal(Seq::filter);
                assert(parts.take(pi + 1).drop_last() =~= parts.take(pi as int));
                assert(parts.take(pi + 1).last() == parts[pi as int]);
            }
            if p.type_guid == ESP_TYPE_GUID {
                out.push(
                    EfiPartitionInfo {
                        part_nr: p.part_nr,
                        disk_device: disk.device.clone(),
                        part_guid: p.part_guid,
                        first_lba: p.first_lba,
                        last_lba: p.last_lba,
                    },
                );
                proof {
                    assert(out@ =~= spec_esp_infos(disks@.take(di as int)) + infos_of_disk(
                        disks@[di as int].device,
                        parts.take(pi + 1),
                    ));
                }
            } else {
                proof {
                    assert(esp_records(parts.take(pi + 1)) =~= esp_records(parts.take(pi as int)));
                }
            }
            pi += 1;
        }
        proof {
            let ghost parts = disks@[di as int].partitions@;
            assert(parts.take(parts.len() as int) =~= parts);
            assert(disks@.take(di + 1).drop_last() =~= disks@.take(di as int));
            assert(disks@.take(di + 1).last() == disks@[di as int]);
        }
        di += 1;
    }
    proof {
        assert(disks@.take(disks@.len() as int) =~= disks@);
    }
    out
}

/// A listing entry that stands for a whole disk: a real directory that
/// carries no `partition` attribute.
pub open spec fn is_disk_entry(e: BlockDeviceEntry) -> bool {
    e.is_dir && e.name@ != "."@ && e.name@ != ".."@ && e.partition_attr is None
}

/// The `/dev` paths of the whole-disk entries, in listing order.
pub open spec fn spec_disk_paths(entries: Seq<BlockDeviceEntry>) -> Seq<Seq<char>> {
    entries.filter(|e: BlockDeviceEntry| is_disk_entry(e)).map_values(
        |e: BlockDeviceEntry| "/dev/"@ + e.name@,
    )
}

/// Picks the whole-disk block devices out of a listing and names their
/// device nodes under `/dev`.
pub fn get_disk_device_paths(entries: &Vec<BlockDeviceEntry>) -> (r: Vec<String>)
    ensures
        r.deep_view() == spec_disk_paths(entries@),
{
    let mut out: Vec<String> = Vec::new();
    let mut i: usize = 0;
    while i < entries.len()
        invariant
            0 <= i <= entries@.len(),
            out.deep_view() =~= spec_disk_paths(entries@.take(i as int)),
        decreases entries@.len() - i,
    {
        let e = &entries[i];
        proof {
            reveal(Seq::filter);
            assert(entries@.take(i + 1).drop_last() =~= entries@.take(i as int));
            assert(entries@.take(i + 1).last() == entries@[i as int]);
        }
        let ghost old_deep = out.deep_view();
        let is_disk = e.is_dir && !str_eq(e.name.as_str(), ".") && !str_eq(e.name.as_str(), "..")
            && e.partition_attr.is_none();
        proof {
            assert(is_disk == is_disk_entry(entries@[i as int]));
        }
        if is_disk {
            let mut path = String::from_str("/dev/");
            path.append(e.name.as_str());
            proof {
                assert(path@ == "/dev/"@ + entries@[i as int].name@);
            }
            out.push(path);
            proof {
                assert(out.deep_view() =~= old_deep.push("/dev/"@ + entries@[i as int].name@));
                assert(out.deep_view() =~= spec_disk_paths(entries@.take(i + 1)));
            }
        } else {
            proof {
                let pred = |e: BlockDeviceEntry| is_disk_entry(e);
                assert(entries@.take(i + 1).filter(pred) =~= entries@.take(i as int).filter(pred));
                assert(out.deep_view() =~= spec_disk_paths(entries@.take(i + 1)));
            }
        }
        i += 1;
    }
    proof {
        assert(entries@.take(entries@.len() as int) =~= entries@);
    }
    out
}

/// ASCII whitespace, as a sysfs attribute may pad its value with.
pub open spec fn is_space(c: char) -> bool {
    c == ' ' || c == '\t' || c == '\n' || c == '\r'
}

/// The string with trailing whitespace removed.
pub open spec fn strip_trailing(s: Seq<char>) -> Seq<char>
    decreases s.len(),
{
    if s.len() > 0 && is_space(s.last()) {
        strip_trailing(s.drop_last())
    } else {
        s
    }
}

/// The string with leading whitespace removed.
pub open spec fn strip_leading(s: Seq<char>) -> Seq<char>
    decreases s.len(),
{
    if s.len() > 0 && is_space(s[0]) {
        strip_leading(s.skip(1))
    } else {
        s
    }
}

/// The string with whitespace removed from both ends.
pub open spec fn trimmed(s: Seq<char>) -> Seq<char> {
    strip_leading(strip_trailing(s))
}

/// The partition index a sysfs `partition` attribute denotes: its trimmed
/// content read as a decimal number, provided that content is a nonempty
/// digit run whose value fits a `u32`.
pub open spec fn spec_parse_index(s: Seq<char>) -> Option<u32> {
    let t = trimmed(s);
    if t.len() > 0 && (forall|j: int| 0 <= j < t.len() ==> is_digit(#[trigger] t[j])) && num_val(t)
        <= u32::MAX {
        Some(num_val(t) as u32)
    } else {
        None
    }
}

proof fn lemma_strip_trailing_exact(s: Seq<char>, hi: int)
    requires
        0 <= hi <= s.len(),
        forall|j: int| hi <= j < s.len() ==> is_space(#[trigger] s[j]),
        hi == 0 || !is_space(s[hi - 1]),
    ensures
        strip_trailing(s) =~= s.take(hi),
    decreases s.len(),
{
    if s.len() > 0 && is_space(s.last()) {
        assert(hi < s.len());
        lemma_strip_trailing_exact(s.drop_last(), hi);
        assert(s.drop_last().take(hi) =~= s.take(hi));
    } else {
        assert(hi == s.len());
    }
}

proof fn lemma_strip_leading_exact(s: Seq<char>, lo: int)
    requires
        0 <= lo <= s.len(),
        forall|j: int| 0 <= j < lo ==> is_space(#[trigger] s[j]),
        lo == s.len() || !is_space(s[lo]),
    ensures
        strip_leading(s) =~= s.skip(lo),
    decreases s.len(),
{
    if s.len() > 0 && is_space(s[0]) {
        assert(lo >= 1);
        lemma_strip_leading_exact(s.skip(1), lo - 1);
        assert(s.skip(1).skip(lo - 1) =~= s.skip(lo));
    } else {
        assert(lo == 0);
    }
}

/// Exec test for ASCII whitespace.
fn is_space_char(c: char) -> (r: bool)
    ensures
        r == is_space(c),
{
    c == ' ' || c == '\t' || c == '\n' || c == '\r'
}

/// Reads a sysfs `partition` attribute: the trimmed content as a decimal
/// partition index, or nothing when it is not a plain number fitting a
/// `u32`.
pub fn parse_partition_index(content: &str) -> (r: Option<u32>)
    ensures
        r == spec_parse_index(content@),
{
    let len = content.unicode_len();
    let mut hi = len;
    while hi > 0 && is_space_char(content.get_char(hi - 1))
        invariant
            0 <= hi <= len,
            len == content@.len(),
            forall|j: int| hi <= j < len ==> is_space(#[trigger] content@[j]),
        decreases hi,
    {
        hi -= 1;
    }
    proof {
        lemma_strip_trailing_exact(content@, hi as int);
    }
    let mut lo: usize = 0;
    while lo < hi && is_space_char(content.get_char(lo))
        invariant
            0 <= lo <= hi <= len,
            len == content@.len(),
            forall|j: int| 0 <= j < lo ==> is_space(#[trigger] content@[j]),
        decreases hi - lo,
    {
        lo += 1;
    }
    let ghost t = trimmed(content@);
    proof {
        lemma_strip_leading_exact(content@.take(hi as int), lo as int);
        assert(t =~= content@.subrange(lo as int, hi as int));
    }
    if lo == hi {
        return None;
    }
    let mut j = lo;
    while j < hi
        invariant
            lo <= j <= hi <= len,
            len == content@.len(),
            t == trimmed(content@),
            t == content@.subrange(lo as int, hi as int),
            forall|k: int| lo <= k < j ==> is_digit(#[trigger] content@[k]),
        decreases hi - j,
    {
        if !is_digit_char(content.get_char(j)) {
            proof {
                assert(t[j - lo] == content@[j as int]);
            }
            return None;
        }
        j += 1;
    }
    proof {
        assert(forall|k: int| 0 <= k < t.len() ==> is_digit(#[trigger] t[k]));
    }
    let v = crate::version::parse_number(content, lo, hi);
    proof {
        crate::version::lemma_num_val_nonneg(t);
        assert(v == sat64(num_val(t)));
    }
    if v <= u32::MAX as u64 {
        Some(v as u32)
    } else {
        None
    }
}

impl EfiPartitionInfo {
    /// Finds, in a listing of a disk's child block devices, the device node
    /// of the first child whose `partition` attribute names this
    /// partition's number; nothing when no child does (the device may have
    /// gone away between scan and use).
    pub fn partition_device_for(&self, entries: &Vec<BlockDeviceEntry>) -> (r: Option<String>)
        ensures
            match r {
                Some(s) => spec_partition_device(entries@, self.part_nr) == Some(s@),
                None => spec_partition_device(entries@, self.part_nr) is None,
            },
    {
        let mut i: usize = 0;
        proof {
            assert(entries@.skip(0) =~= entries@);
        }
        while i < entries.len()
            invariant
                0 <= i <= entries@.len(),
                spec_partition_device(entries@, self.part_nr) == spec_partition_device(
                    entries@.skip(i as int),
                    self.part_nr,
                ),
            decreases entries@.len() - i,
        {
            let e = &entries[i];
            proof {
                assert(entries@.skip(i as int)[0] == entries@[i as int]);
                assert(entries@.skip(i as int).skip(1) =~= entries@.skip(i + 1));
            }
            let matched = if e.is_dir && !str_eq(e.name.as_str(), ".") && !str_eq(
                e.name.as_str(),
                "..",
            ) {
                match &e.partition_attr {
                    Some(content) => {
                        match parse_partition_index(content.as_str()) {
                            Some(nr) => nr == self.part_nr,
                            None => false,
                        }
                    },
                    None => false,
                }
            } else {
                false
            };
            proof {
                assert(matched == is_partition_match(entries@[i as int], self.part_nr));
            }
            if matched {
                let mut path = String::from_str("/dev/");
                path.append(e.name.as_str());
                return Some(path);
            }
            i += 1;
        }
        proof {
            assert(entries@.skip(entries@.len() as int) =~= Seq::<BlockDeviceEntry>::empty());
        }
        None
    }
}

/// A child entry that names the wanted partition: a real directory whose
/// `partition` attribute reads as exactly that number.
pub open spec fn is_partition_match(e: BlockDeviceEntry, nr: u32) -> bool {
    e.is_dir && e.name@ != "."@ && e.name@ != ".."@ && match e.partition_attr {
        Some(c) => spec_parse_index(c@) == Some(nr),
        None => false,
    }
}

/// The `/dev` path of the first child entry naming partition `nr`.
pub open spec fn spec_partition_device(entries: Seq<BlockDeviceEntry>, nr: u32) -> Option<
    Seq<char>,
>
    decreases entries.len(),
{
    if entries.len() == 0 {
        None
    } else if is_partition_match(entries[0], nr) {
        Some("/dev/"@ + entries[0].name@)
    } else {
        spec_partition_device(entries.skip(1), nr)
    }
}

} // verus!
