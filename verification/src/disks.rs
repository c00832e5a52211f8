//! Block-device topology: disks, their partitions, sector-accurate
//! geometry, stable identifiers, and classification of the on-media
//! partition table (MBR, GPT, or unknown).
//!
//! All functions are pure: the caller reads the kernel-exposed attribute
//! files, symlink directories and raw device sectors, and hands the bytes
//! or text in as plain values.

use vstd::prelude::*;
use vstd::string::*;
use crate::strutil::{
    contains_str, is_digit, is_digit_char, lemma_rindex_of_upto, lemma_start_of_digit_run,
    parse_u32, parse_u64, rfind_char, rindex_of, spec_contains, spec_parse_u32, spec_parse_u64,
    spec_starts_with, start_of_digit_run, start_of_digit_run_exec, starts_with_str, str_eq,
    trim_spec, trim_str,
};
use vstd::arithmetic::div_mod::{lemma_fundamental_div_mod, lemma_mod_bound};
use vstd::arithmetic::mul::lemma_mul_inequality;

verus! {

/// The partition-table format found on a disk.
#[derive(Debug, Clone, PartialEq, Eq, Structural)]
pub enum DiskLabel {
    GPT,
    MBR,
    Unknown,
}

/// The failure conditions of this module. Identity failures are advisory
/// and are absorbed into placeholder strings; the others are structural
/// and propagate to the caller.
#[derive(Debug, Clone, Copy, PartialEq, Eq, Structural)]
pub enum DiskError {
    /// The requested device or partition does not exist.
    NotFound,
    /// A required numeric attribute is missing, unparseable, or would
    /// make the size arithmetic overflow.
    GeometryUnavailable,
    /// The first sector does not carry the boot-signature magic bytes.
    InvalidSignature,
    /// No stable identifier matched the device.
    IdentityUnresolved,
    /// The partition-type attribute is empty or unreadable.
    PartitionTypeUnavailable,
}

/// One partition of a disk: an immutable snapshot.
#[derive(Debug, Clone, PartialEq)]
pub struct Partition {
    pub name: String,
    /// First sector, inclusive.
    pub start: u64,
    /// Last sector, inclusive: `start + sectors - 1`.
    pub end: u64,
    /// Sector count, the authoritative figure.
    pub sectors: u64,
    /// Bytes: `sectors` times the owning disk's sector size.
    pub size: u64,
    pub uuid: String,
    pub part_type: String,
}

/// One block device and its partitions: an immutable snapshot.
#[derive(Debug, Clone, PartialEq)]
pub struct Disk {
    pub name: String,
    pub uuid: String,
    pub model: String,
    pub disklabel_type: DiskLabel,
    /// Bytes: `n_sectors * sector_size`.
    pub size: u64,
    /// Bytes per logical sector.
    pub sector_size: u64,
    pub n_sectors: u64,
    /// Device-reported optimal transfer size, carried through unmodified.
    pub io_size: u32,
    pub partitions: Vec<Partition>,
}

impl DiskLabel {
    /// The conventional name of the format.
    pub fn to_string(&self) -> (r: String)
        ensures
            self is GPT ==> r@ == "GPT"@,
            self is MBR ==> r@ == "MBR"@,
            self is Unknown ==> r@ == "Unknown"@,
    {
        match self {
            DiskLabel::GPT => String::from_str("GPT"),
            DiskLabel::MBR => String::from_str("MBR"),
            DiskLabel::Unknown => String::from_str("Unknown"),
        }
    }
}

// ---------------------------------------------------------------------
// Disklabel classification
// ---------------------------------------------------------------------

/// The ASCII bytes of the GPT header signature.
pub open spec fn gpt_signature() -> Seq<u8> {
    seq![0x45u8, 0x46u8, 0x49u8, 0x20u8, 0x50u8, 0x41u8, 0x52u8, 0x54u8]
}

/// The first sector ends in the boot-signature magic bytes.
pub open spec fn spec_boot_signature_ok(s: Seq<u8>) -> bool {
    s[510] == 0x55 && s[511] == 0xaa
}

/// The first legacy partition-table entry carries the GPT-protective
/// type byte.
pub open spec fn spec_protective_entry(s: Seq<u8>) -> bool {
    s[450] == 0xee
}

/// The classification verdict for a first sector `s` and the eight bytes
/// `g` that follow it: an invalid boot signature is an error; a
/// protective entry followed by the GPT header signature is GPT; every
/// other case is MBR.
pub open spec fn spec_detect_disklabel(s: Seq<u8>, g: Seq<u8>) -> Result<DiskLabel, DiskError> {
    if !spec_boot_signature_ok(s) {
        Err(DiskError::InvalidSignature)
    } else if spec_protective_entry(s) && g == gpt_signature() {
        Ok(DiskLabel::GPT)
    } else {
        Ok(DiskLabel::MBR)
    }
}

/// The boot-signature test of the first sector.
pub fn has_valid_boot_signature(sector0: &Vec<u8>) -> (r: bool)
    requires
        sector0@.len() == 512,
    ensures
        r == spec_boot_signature_ok(sector0@),
{
    sector0[510] == 0x55 && sector0[511] == 0xaa
}

/// Whether the first partition-table entry marks the disk as
/// GPT-protective, so that the GPT header must be inspected.
pub fn has_protective_mbr_entry(sector0: &Vec<u8>) -> (r: bool)
    requires
        sector0@.len() == 512,
    ensures
        r == spec_protective_entry(sector0@),
{
    sector0[450] == 0xee
}

/// Whether eight bytes spell the GPT header signature.
pub fn is_gpt_signature(g: &Vec<u8>) -> (r: bool)
    requires
        g@.len() == 8,
    ensures
        r == (g@ == gpt_signature()),
{
    let r = g[0] == 0x45 && g[1] == 0x46 && g[2] == 0x49 && g[3] == 0x20 && g[4] == 0x50
        && g[5] == 0x41 && g[6] == 0x52 && g[7] == 0x54;
    proof {
        if r {
            assert(g@ =~= gpt_signature());
        } else {
            assert(g@ != gpt_signature()) by {
                if g@ == gpt_signature() {
                    assert(g@[0] == 0x45 && g@[1] == 0x46 && g@[2] == 0x49 && g@[3] == 0x20
                        && g@[4] == 0x50 && g@[5] == 0x41 && g@[6] == 0x52 && g@[7] == 0x54);
                }
            }
        }
    }
    r
}

/// Classify a disk's partition table from its first sector and the eight
/// bytes that immediately follow it. When the first sector carries no
/// protective entry the trailing bytes are irrelevant; a caller that
/// never read them may pass any eight bytes.
pub fn detect_disklabel(sector0: &Vec<u8>, gpt_head: &Vec<u8>) -> (r: Result<DiskLabel, DiskError>)
    requires
        sector0@.len() == 512,
        gpt_head@.len() == 8,
    ensures
        r == spec_detect_disklabel(sector0@, gpt_head@),
{
    if !has_valid_boot_signature(sector0) {
        return Err(DiskError::InvalidSignature);
    }
    if has_protective_mbr_entry(sector0) && is_gpt_signature(gpt_head) {
        Ok(DiskLabel::GPT)
    } else {
        Ok(DiskLabel::MBR)
    }
}

/// Classification depends on the raw bytes alone: the same first sector
/// and the same trailing bytes always yield the same verdict.
pub proof fn lemma_detect_disklabel_deterministic(
    s1: Seq<u8>,
    g1: Seq<u8>,
    s2: Seq<u8>,
    g2: Seq<u8>,
)
    requires
        s1 == s2,
        g1 == g2,
    ensures
        spec_detect_disklabel(s1, g1) == spec_detect_disklabel(s2, g2),
{
}

// ---------------------------------------------------------------------
// Partition names
// ---------------------------------------------------------------------

/// NVMe-style partition name: a last 'p' whose remainder parses as an
/// unsigned integer, as in "nvme0n1p3".
pub open spec fn spec_is_nvme_partition_name(n: Seq<char>) -> bool {
    let lp = rindex_of(n, 'p');
    lp >= 0 && lp + 1 < n.len() && spec_parse_u64(n.subrange(lp + 1, n.len() as int)) is Some
}

/// Whether a device name denotes a partition: never for loop-backed
/// names; for NVMe-style names by the trailing "p<digits>" segment; for
/// every other scheme the name must exceed the minimal device-name
/// length of three and end in a decimal digit.
pub open spec fn spec_is_partition(n: Seq<char>) -> bool {
    if spec_starts_with(n, "loop"@) {
        false
    } else if spec_is_nvme_partition_name(n) {
        true
    } else {
        n.len() > 3 && is_digit(n[n.len() - 1])
    }
}

/// The parent disk of a partition name: everything before the last 'p'
/// for NVMe-style names, otherwise the name with its trailing run of
/// decimal digits stripped.
pub open spec fn spec_parent_disk(n: Seq<char>) -> Seq<char> {
    if spec_is_nvme_partition_name(n) {
        n.subrange(0, rindex_of(n, 'p'))
    } else {
        n.subrange(0, start_of_digit_run(n, n.len() as int))
    }
}

/// Whether `name` denotes a partition of some parent disk.
pub fn is_partition(name: &str) -> (r: bool)
    ensures
        r == spec_is_partition(name@),
{
    if starts_with_str(name, "loop") {
        return false;
    }
    let len = name.unicode_len();
    let nvme = match rfind_char(name, 'p') {
        Some(lp) => {
            proof {
                lemma_rindex_of_upto(name@, 'p', name@.len() - 1);
            }
            if lp + 1 < len {
                let suffix = name.substring_char(lp + 1, len);
                parse_u64(suffix).is_some()
            } else {
                false
            }
        },
        None => false,
    };
    if nvme {
        true
    } else {
        if len > 3 {
            is_digit_char(name.get_char(len - 1))
        } else {
            false
        }
    }
}

/// The parent disk's name for a partition name.
pub fn parent_disk_name(name: &str) -> (r: String)
    ensures
        r@ == spec_parent_disk(name@),
{
    let len = name.unicode_len();
    let nvme_split: Option<usize> = match rfind_char(name, 'p') {
        Some(lp) => {
            proof {
                lemma_rindex_of_upto(name@, 'p', name@.len() - 1);
            }
            if lp + 1 < len {
                let suffix = name.substring_char(lp + 1, len);
                if parse_u64(suffix).is_some() {
                    Some(lp)
                } else {
                    None
                }
            } else {
                None
            }
        },
        None => None,
    };
    match nvme_split {
        Some(lp) => String::from_str(name.substring_char(0, lp)),
        None => {
            proof {
                lemma_start_of_digit_run(name@, name@.len() as int);
            }
            let b = start_of_digit_run_exec(name, len);
            String::from_str(name.substring_char(0, b))
        },
    }
}

/// Whether a device name denotes a loop-backed pseudo-device, which
/// block-device enumeration leaves out.
pub fn is_loop_device(name: &str) -> (r: bool)
    ensures
        r == spec_starts_with(name@, "loop"@),
{
    starts_with_str(name, "loop")
}

/// Whether a directory entry under a device's tree is a partition of
/// that very device: it extends the device's name as a proper prefix,
/// it is a partition name in its own right, and deriving its parent
/// disk gives the device back.
pub fn is_partition_of(entry: &str, device: &str) -> (r: bool)
    ensures
        r == (entry@ != device@ && spec_starts_with(entry@, device@) && spec_is_partition(entry@)
            && spec_parent_disk(entry@) == device@),
{
    if str_eq(entry, device) || !starts_with_str(entry, device) || !is_partition(entry) {
        return false;
    }
    let parent = parent_disk_name(entry);
    str_eq(parent.as_str(), device)
}

/// A loop-backed pseudo-device is never classified as a partition.
pub proof fn lemma_loop_name_never_partition(n: Seq<char>)
    requires
        spec_starts_with(n, "loop"@),
    ensures
        !spec_is_partition(n),
{
}

// ---------------------------------------------------------------------
// Identity resolution
// ---------------------------------------------------------------------

/// One entry of a symlink-identifier directory: the link's own name and
/// the path its target resolves to.
#[derive(Debug, Clone, PartialEq)]
pub struct LinkEntry {
    pub name: String,
    pub target: String,
}

/// The name of the first entry whose link target mentions the device.
pub open spec fn spec_first_match(entries: Seq<LinkEntry>, dev: Seq<char>) -> Option<Seq<char>>
    decreases entries.len(),
{
    if entries.len() == 0 {
        None
    } else if spec_contains(entries[0].target@, dev) {
        Some(entries[0].name@)
    } else {
        spec_first_match(entries.drop_first(), dev)
    }
}

/// Scan a symlink-identifier directory's entries for the first one whose
/// target references the device, and return that entry's name.
pub fn get_uuid_from_dir(entries: &Vec<LinkEntry>, device: &str) -> (r: Option<String>)
    ensures
        match r {
            Some(u) => spec_first_match(entries@, device@) == Some(u@),
            None => spec_first_match(entries@, device@) is None,
        },
{
    let n = entries.len();
    proof {
        assert(entries@.skip(0) =~= entries@);
    }
    let mut i: usize = 0;
    while i < n
        invariant
            n == entries@.len(),
            0 <= i <= n,
            spec_first_match(entries@.skip(i as int), device@) == spec_first_match(
                entries@,
                device@,
            ),
        decreases n - i,
    {
        proof {
            assert(entries@.skip(i as int)[0] == entries@[i as int]);
            assert(entries@.skip(i as int).drop_first() =~= entries@.skip(i + 1));
        }
        if contains_str(entries[i].target.as_str(), device) {
            return Some(entries[i].name.clone());
        }
        i += 1;
    }
    None
}

/// The suffix after the last hyphen, or the whole name when there is
/// none: the trailing serial or UUID of a by-id link name.
pub open spec fn spec_id_suffix(u: Seq<char>) -> Seq<char> {
    u.subrange(rindex_of(u, '-') + 1, u.len() as int)
}

/// The resolved identifier for a device: a by-id match reduced to its
/// trailing suffix, else a by-uuid match kept whole, else unresolved.
pub open spec fn spec_device_uuid(
    by_id: Seq<LinkEntry>,
    by_uuid: Seq<LinkEntry>,
    dev: Seq<char>,
) -> Result<Seq<char>, DiskError> {
    match spec_first_match(by_id, dev) {
        Some(u) => Ok(spec_id_suffix(u)),
        None => match spec_first_match(by_uuid, dev) {
            Some(u) => Ok(u),
            None => Err(DiskError::IdentityUnresolved),
        },
    }
}

/// Resolve a device's stable identifier from the two symlink-identifier
/// directories: by-id semantics preferred, keeping only the suffix after
/// the last hyphen; the by-uuid fallback is returned unmodified.
pub fn get_device_uuid(
    by_id: &Vec<LinkEntry>,
    by_uuid: &Vec<LinkEntry>,
    device: &str,
) -> (r: Result<String, DiskError>)
    ensures
        match r {
            Ok(u) => spec_device_uuid(by_id@, by_uuid@, device@) == Ok::<_, DiskError>(u@),
            Err(e) => spec_device_uuid(by_id@, by_uuid@, device@) == Err::<Seq<char>, _>(e),
        },
{
    match get_uuid_from_dir(by_id, device) {
        Some(u) => {
            let ulen = u.as_str().unicode_len();
            match rfind_char(u.as_str(), '-') {
                Some(k) => {
                    proof {
                        lemma_rindex_of_upto(u@, '-', u@.len() - 1);
                    }
                    Ok(String::from_str(u.as_str().substring_char(k + 1, ulen)))
                },
                None => {
                    proof {
                        assert(u@.subrange(0, u@.len() as int) =~= u@);
                    }
                    Ok(u)
                },
            }
        },
        None => match get_uuid_from_dir(by_uuid, device) {
            Some(u) => Ok(u),
            None => Err(DiskError::IdentityUnresolved),
        },
    }
}

/// A partition's identifier from the by-uuid entries, or the diagnostic
/// placeholder: identity is advisory and never blocks construction.
pub fn partition_uuid_or_placeholder(by_uuid: &Vec<LinkEntry>, part: &str) -> (r: String)
    ensures
        match spec_first_match(by_uuid@, part@) {
            Some(u) => r@ == u,
            None => r@ == "UUID not found for partition: "@ + part@,
        },
{
    match get_uuid_from_dir(by_uuid, part) {
        Some(u) => u,
        None => String::from_str("UUID not found for partition: ").concat(part),
    }
}

/// A disk's identifier, or the diagnostic placeholder when neither
/// directory resolves one.
pub fn device_uuid_or_placeholder(
    by_id: &Vec<LinkEntry>,
    by_uuid: &Vec<LinkEntry>,
    device: &str,
) -> (r: String)
    ensures
        match spec_device_uuid(by_id@, by_uuid@, device@) {
            Ok(u) => r@ == u,
            Err(_) => r@ == "UUID not found for device: "@ + device@,
        },
{
    match get_device_uuid(by_id, by_uuid, device) {
        Ok(u) => u,
        Err(_) => String::from_str("UUID not found for device: ").concat(device),
    }
}

// ---------------------------------------------------------------------
// Attribute readings
// ---------------------------------------------------------------------

/// The numeric reading of a kernel attribute file: its text trimmed and
/// parsed as a decimal count. An unparseable reading is a geometry
/// error, never a silent default, because the size arithmetic depends
/// on it.
pub fn parse_geometry_attr(text: &str) -> (r: Result<u64, DiskError>)
    ensures
        match r {
            Ok(v) => spec_parse_u64(trim_spec(text@)) == Some(v),
            Err(e) => spec_parse_u64(trim_spec(text@)) is None && e
                == DiskError::GeometryUnavailable,
        },
{
    let t = trim_str(text);
    match parse_u64(t.as_str()) {
        Some(v) => Ok(v),
        None => Err(DiskError::GeometryUnavailable),
    }
}

/// The optimal-transfer-size reading of a kernel attribute file, parsed
/// as the narrower count the kernel reports it in.
pub fn parse_io_size_attr(text: &str) -> (r: Result<u32, DiskError>)
    ensures
        match r {
            Ok(v) => spec_parse_u32(trim_spec(text@)) == Some(v),
            Err(e) => spec_parse_u32(trim_spec(text@)) is None && e
                == DiskError::GeometryUnavailable,
        },
{
    let t = trim_str(text);
    match parse_u32(t.as_str()) {
        Some(v) => Ok(v),
        None => Err(DiskError::GeometryUnavailable),
    }
}

/// The partition-type reading: empty text is an explicit error, never a
/// silent default, because the type code steers downstream
/// interpretation; anything else is kept trimmed.
pub fn partition_type_from_attr(text: &str) -> (r: Result<String, DiskError>)
    ensures
        match r {
            Ok(t) => text@.len() > 0 && t@ == trim_spec(text@),
            Err(e) => text@.len() == 0 && e == DiskError::PartitionTypeUnavailable,
        },
{
    if text.unicode_len() == 0 {
        Err(DiskError::PartitionTypeUnavailable)
    } else {
        Ok(trim_str(text))
    }
}

/// The last sector of a span: `start + sectors - 1`, a geometry error
/// when that value has no representation.
pub fn end_sector(start: u64, sectors: u64) -> (r: Result<u64, DiskError>)
    ensures
        (r is Ok <==> (start + sectors >= 1 && start + sectors - 1 <= u64::MAX)),
        r matches Ok(v) ==> v == start + sectors - 1,
        r matches Err(e) ==> e == DiskError::GeometryUnavailable,
{
    if start == 0 && sectors == 0 {
        return Err(DiskError::GeometryUnavailable);
    }
    if sectors <= u64::MAX - start {
        Ok(start + sectors - 1)
    } else if sectors - (u64::MAX - start) == 1 {
        Ok(u64::MAX)
    } else {
        Err(DiskError::GeometryUnavailable)
    }
}

/// A device's capacity in bytes from its two attribute readings: the
/// sector count times the sector size, exactly when both readings parse
/// and the product is representable. An unreadable sector size is a
/// geometry error, never a silent default: the capacity must use the
/// device's own value.
pub open spec fn spec_capacity(sector_size_text: Seq<char>, size_text: Seq<char>) -> Result<
    u64,
    DiskError,
> {
    match spec_parse_u64(trim_spec(sector_size_text)) {
        Some(ss) => match spec_parse_u64(trim_spec(size_text)) {
            Some(n) => if n * ss <= u64::MAX {
                Ok((n * ss) as u64)
            } else {
                Err(DiskError::GeometryUnavailable)
            },
            None => Err(DiskError::GeometryUnavailable),
        },
        None => Err(DiskError::GeometryUnavailable),
    }
}

/// Compute a device's byte capacity from the texts of its sector-size
/// and sector-count attribute files.
pub fn capacity_from_attrs(sector_size_text: &str, size_text: &str) -> (r: Result<u64, DiskError>)
    ensures
        r == spec_capacity(sector_size_text@, size_text@),
{
    let ss = match parse_geometry_attr(sector_size_text) {
        Ok(v) => v,
        Err(e) => {
            return Err(e);
        },
    };
    let n = match parse_geometry_attr(size_text) {
        Ok(v) => v,
        Err(e) => {
            return Err(e);
        },
    };
    if ss == 0 {
        return Ok(0);
    }
    if n <= u64::MAX / ss {
        proof {
            lemma_mul_le_max(n, ss);
        }
        Ok(n * ss)
    } else {
        proof {
            lemma_mul_gt_max(n, ss);
        }
        Err(DiskError::GeometryUnavailable)
    }
}

// ---------------------------------------------------------------------
// Geometry and construction
// ---------------------------------------------------------------------

/// Sector arithmetic of a partition against its owning disk's sector
/// size: the last sector is `start + sectors - 1`, and the byte size is
/// the sector count times the disk's sector size.
pub open spec fn partition_wf(p: Partition, sector_size: u64) -> bool {
    &&& p.end == p.start + p.sectors - 1
    &&& p.size == p.sectors * sector_size
}

/// Total sector count of a sequence of partitions.
pub open spec fn sum_sectors(parts: Seq<Partition>) -> int
    decreases parts.len(),
{
    if parts.len() == 0 {
        0
    } else {
        sum_sectors(parts.drop_last()) + parts.last().sectors
    }
}

pub proof fn lemma_sum_sectors_prefix(parts: Seq<Partition>, j: int)
    requires
        0 <= j <= parts.len(),
    ensures
        sum_sectors(parts.subrange(0, j)) <= sum_sectors(parts),
    decreases parts.len(),
{
    if j < parts.len() {
        assert(parts.drop_last().subrange(0, j) =~= parts.subrange(0, j));
        lemma_sum_sectors_prefix(parts.drop_last(), j);
    } else {
        assert(parts.subrange(0, j) =~= parts);
    }
}

/// Whether a partition survives the loop-device filter.
pub open spec fn keeps_partition(p: Partition) -> bool {
    !spec_contains(p.name@, "loop"@)
}

/// The partitions whose names do not mention a loop device, in order.
pub open spec fn non_loop_partitions(parts: Seq<Partition>) -> Seq<Partition>
    decreases parts.len(),
{
    if parts.len() == 0 {
        Seq::empty()
    } else {
        let rest = non_loop_partitions(parts.drop_first());
        if keeps_partition(parts[0]) {
            seq![parts[0]] + rest
        } else {
            rest
        }
    }
}

pub proof fn lemma_non_loop_partitions_keep(parts: Seq<Partition>)
    ensures
        forall|i: int|
            0 <= i < non_loop_partitions(parts).len() ==> keeps_partition(
                #[trigger] non_loop_partitions(parts)[i],
            ),
    decreases parts.len(),
{
    if parts.len() > 0 {
        lemma_non_loop_partitions_keep(parts.drop_first());
        let rest = non_loop_partitions(parts.drop_first());
        if keeps_partition(parts[0]) {
            assert forall|i: int| 0 <= i < non_loop_partitions(parts).len() implies keeps_partition(
                #[trigger] non_loop_partitions(parts)[i],
            ) by {
                if i > 0 {
                    assert(non_loop_partitions(parts)[i] == rest[i - 1]);
                }
            }
        }
    }
}

impl Disk {
    /// The structural invariants of a constructed snapshot: the byte
    /// size follows from the sector geometry, every partition's
    /// arithmetic uses this disk's sector size, no loop-backed entry is
    /// present, and the partitions never account for more sectors than
    /// the disk has.
    pub open spec fn wf(self) -> bool {
        &&& self.size == self.n_sectors * self.sector_size
        &&& forall|i: int|
            0 <= i < self.partitions@.len() ==> partition_wf(
                #[trigger] self.partitions@[i],
                self.sector_size,
            )
        &&& forall|i: int|
            0 <= i < self.partitions@.len() ==> keeps_partition(#[trigger] self.partitions@[i])
        &&& sum_sectors(self.partitions@) <= self.n_sectors
    }
}

proof fn lemma_mul_le_max(a: u64, b: u64)
    requires
        b > 0,
        a <= u64::MAX as int / b as int,
    ensures
        a * b <= u64::MAX,
{
    lemma_fundamental_div_mod(u64::MAX as int, b as int);
    lemma_mod_bound(u64::MAX as int, b as int);
    lemma_mul_inequality(a as int, u64::MAX as int / b as int, b as int);
}

proof fn lemma_mul_gt_max(a: u64, b: u64)
    requires
        b > 0,
        a > u64::MAX as int / b as int,
    ensures
        a * b > u64::MAX,
{
    let q = u64::MAX as int / b as int;
    lemma_fundamental_div_mod(u64::MAX as int, b as int);
    lemma_mod_bound(u64::MAX as int, b as int);
    lemma_mul_inequality(q + 1, a as int, b as int);
    assert((q + 1) * b == q * b + b) by (nonlinear_arith);
    assert(q * b == b * q) by (nonlinear_arith);
}

/// Everything `Partition::new` promises of its result.
pub open spec fn partition_new_post(
    r: Result<Partition, DiskError>,
    name: Seq<char>,
    start: u64,
    sectors: u64,
    sector_size: u64,
    uuid: Seq<char>,
    part_type: Seq<char>,
) -> bool {
    &&& (r is Ok <==> (start + sectors >= 1 && start + sectors - 1 <= u64::MAX && sectors
        * sector_size <= u64::MAX))
    &&& match r {
        Ok(p) => {
            &&& p.name@ == name
            &&& p.start == start
            &&& p.sectors == sectors
            &&& p.end == start + sectors - 1
            &&& p.size == sectors * sector_size
            &&& p.uuid@ == uuid
            &&& p.part_type@ == part_type
            &&& partition_wf(p, sector_size)
        },
        Err(e) => e == DiskError::GeometryUnavailable,
    }
}

impl Partition {
    /// Build one partition from its kernel-exposed readings: the start
    /// sector and authoritative sector count, the owning disk's sector
    /// size, and the resolved identity and type strings. The last sector
    /// and the byte size are derived; readings whose arithmetic cannot
    /// be represented are a geometry error.
    pub fn new(
        name: String,
        start: u64,
        sectors: u64,
        sector_size: u64,
        uuid: String,
        part_type: String,
    ) -> (r: Result<Partition, DiskError>)
        ensures
            partition_new_post(r, name@, start, sectors, sector_size, uuid@, part_type@),
    {
        let end: u64 = match end_sector(start, sectors) {
            Ok(v) => v,
            Err(e) => {
                return Err(e);
            },
        };
        let size: u64;
        if sector_size == 0 {
            size = 0;
        } else {
            if sectors <= u64::MAX / sector_size {
                proof {
                    lemma_mul_le_max(sectors, sector_size);
                }
                size = sectors * sector_size;
            } else {
                proof {
                    lemma_mul_gt_max(sectors, sector_size);
                }
                return Err(DiskError::GeometryUnavailable);
            }
        }
        proof {
            assert(start + sectors >= 1);
            assert(end == start + sectors - 1);
            assert(start + sectors - 1 <= u64::MAX);
            assert(sectors * sector_size <= u64::MAX);
            assert(size == sectors * sector_size);
        }
        Ok(Partition { name, start, end, sectors, size, uuid, part_type })
    }
}

/// Everything `Disk::new` promises of its result.
pub open spec fn disk_new_post(
    r: Result<Disk, DiskError>,
    name: Seq<char>,
    uuid: Seq<char>,
    model: Seq<char>,
    label: DiskLabel,
    n_sectors: u64,
    sector_size: u64,
    io_size: u32,
    parts: Seq<Partition>,
) -> bool {
    let kept = non_loop_partitions(parts);
    let ok = {
        &&& n_sectors * sector_size <= u64::MAX
        &&& forall|i: int|
            0 <= i < kept.len() ==> partition_wf(#[trigger] kept[i], sector_size)
        &&& sum_sectors(kept) <= n_sectors
    };
    &&& (r is Ok <==> ok)
    &&& match r {
        Ok(d) => {
            &&& d.name@ == name
            &&& d.uuid@ == uuid
            &&& d.model@ == model
            &&& d.disklabel_type == label
            &&& d.size == n_sectors * sector_size
            &&& d.sector_size == sector_size
            &&& d.n_sectors == n_sectors
            &&& d.io_size == io_size
            &&& d.partitions@ == kept
            &&& d.wf()
        },
        Err(e) => e == DiskError::GeometryUnavailable,
    }
}

/// The partitions that survive the loop-device filter, in order.
fn filter_non_loop(parts: Vec<Partition>) -> (r: Vec<Partition>)
    ensures
        r@ == non_loop_partitions(parts@),
    decreases parts@.len(),
{
    let mut parts = parts;
    if parts.len() == 0 {
        let r: Vec<Partition> = Vec::new();
        proof {
            assert(r@ =~= non_loop_partitions(parts@));
        }
        r
    } else {
        let ghost orig = parts@;
        let p = parts.remove(0);
        proof {
            assert(parts@ =~= orig.drop_first());
        }
        let keep = !contains_str(p.name.as_str(), "loop");
        let mut rest = filter_non_loop(parts);
        if keep {
            let mut r: Vec<Partition> = Vec::new();
            r.push(p);
            r.append(&mut rest);
            proof {
                assert(r@ =~= non_loop_partitions(orig));
            }
            r
        } else {
            rest
        }
    }
}

/// Whether every partition's arithmetic agrees with the disk's sector
/// size and the partitions together stay within the disk's sector count.
fn geometry_consistent(kept: &Vec<Partition>, sector_size: u64, n_sectors: u64) -> (r: bool)
    ensures
        r == ((forall|i: int|
            0 <= i < kept@.len() ==> partition_wf(#[trigger] kept@[i], sector_size))
            && sum_sectors(kept@) <= n_sectors),
{
    let mut total: u64 = 0;
    let mut i: usize = 0;
    while i < kept.len()
        invariant
            0 <= i <= kept@.len(),
            forall|j: int| 0 <= j < i ==> partition_wf(#[trigger] kept@[j], sector_size),
            total == sum_sectors(kept@.subrange(0, i as int)),
        decreases kept@.len() - i,
    {
        let p = &kept[i];
        let end_ok: bool;
        if p.start == 0 && p.sectors == 0 {
            end_ok = false;
        } else if p.sectors <= u64::MAX - p.start {
            end_ok = p.end == p.start + p.sectors - 1;
        } else {
            end_ok = p.end == u64::MAX && p.sectors - (u64::MAX - p.start) == 1;
        }
        proof {
            assert(end_ok == (p.end == p.start + p.sectors - 1));
        }
        let size_ok: bool;
        if sector_size == 0 {
            size_ok = p.size == 0;
        } else if p.sectors <= u64::MAX / sector_size {
            proof {
                lemma_mul_le_max(p.sectors, sector_size);
            }
            size_ok = p.size == p.sectors * sector_size;
        } else {
            proof {
                lemma_mul_gt_max(p.sectors, sector_size);
            }
            size_ok = false;
        }
        proof {
            assert(size_ok == (p.size == p.sectors * sector_size));
        }
        if !end_ok || !size_ok {
            proof {
                assert(!partition_wf(kept@[i as int], sector_size));
            }
            return false;
        }
        let ghost pre = kept@.subrange(0, i as int);
        let ghost post = kept@.subrange(0, i + 1);
        proof {
            assert(post.drop_last() =~= pre);
            assert(post.last() == kept@[i as int]);
        }
        if p.sectors <= u64::MAX - total {
            total = total + p.sectors;
        } else {
            proof {
                assert(sum_sectors(post) > u64::MAX);
                lemma_sum_sectors_prefix(kept@, i + 1);
            }
            return false;
        }
        i += 1;
    }
    proof {
        assert(kept@.subrange(0, kept@.len() as int) =~= kept@);
    }
    total <= n_sectors
}

impl Disk {
    /// Build one disk from its kernel-exposed readings: the resolved
    /// identity and model, the classified disklabel, the sector count
    /// and sector size, the reported optimal transfer size, and the
    /// already-built partitions. Loop-backed pseudo-partitions are
    /// excluded; the byte size is derived as sectors times sector size;
    /// readings whose arithmetic cannot be represented, partitions that
    /// disagree with this disk's sector size, and partitions accounting
    /// for more sectors than the disk has are a geometry error.
    pub fn new(
        name: String,
        uuid: String,
        model: String,
        disklabel_type: DiskLabel,
        n_sectors: u64,
        sector_size: u64,
        io_size: u32,
        partitions: Vec<Partition>,
    ) -> (r: Result<Disk, DiskError>)
        ensures
            disk_new_post(
                r,
                name@,
                uuid@,
                model@,
                disklabel_type,
                n_sectors,
                sector_size,
                io_size,
                partitions@,
            ),
    {
        let ghost orig = partitions@;
        let kept = filter_non_loop(partitions);
        if sector_size > 0 && n_sectors > u64::MAX / sector_size {
            proof {
                lemma_mul_gt_max(n_sectors, sector_size);
            }
            return Err(DiskError::GeometryUnavailable);
        }
        let size: u64;
        if sector_size == 0 {
            size = 0;
        } else {
            proof {
                lemma_mul_le_max(n_sectors, sector_size);
            }
            size = n_sectors * sector_size;
        }
        if !geometry_consistent(&kept, sector_size, n_sectors) {
            return Err(DiskError::GeometryUnavailable);
        }
        proof {
            lemma_non_loop_partitions_keep(orig);
        }
        Ok(Disk { name, uuid, model, disklabel_type, size, sector_size, n_sectors, io_size, partitions: kept })
    }
}

// ---------------------------------------------------------------------
// Laws
// ---------------------------------------------------------------------

/// A constructed disk's byte size is its sector count times its sector
/// size, and every contained partition's last sector and byte size
/// follow from its start, its sector count and the disk's sector size.
pub proof fn lemma_disk_geometry(d: Disk)
    requires
        d.wf(),
    ensures
        d.size == d.n_sectors * d.sector_size,
        forall|i: int|
            0 <= i < d.partitions@.len() ==> (#[trigger] d.partitions@[i]).end == d.partitions@[
                i
            ].start + d.partitions@[i].sectors - 1,
        forall|i: int|
            0 <= i < d.partitions@.len() ==> (#[trigger] d.partitions@[i]).size == d.partitions@[
                i
            ].sectors * d.sector_size,
{
    assert forall|i: int| 0 <= i < d.partitions@.len() implies (#[trigger] d.partitions@[i]).end
        == d.partitions@[i].start + d.partitions@[i].sectors - 1 && d.partitions@[i].size
        == d.partitions@[i].sectors * d.sector_size by {
        assert(partition_wf(d.partitions@[i], d.sector_size));
    }
}

/// The partitions of a well-formed disk never account for more sectors
/// than the disk itself has: summing each partition's sector count stays
/// within the disk's own count.
pub proof fn lemma_partition_sectors_bounded(d: Disk)
    requires
        d.wf(),
    ensures
        sum_sectors(d.partitions@) <= d.n_sectors,
{
}

/// Field-by-field agreement of two disk snapshots.
pub open spec fn disks_equivalent(d1: Disk, d2: Disk) -> bool {
    &&& d1.name@ == d2.name@
    &&& d1.uuid@ == d2.uuid@
    &&& d1.model@ == d2.model@
    &&& d1.disklabel_type == d2.disklabel_type
    &&& d1.size == d2.size
    &&& d1.sector_size == d2.sector_size
    &&& d1.n_sectors == d2.n_sectors
    &&& d1.io_size == d2.io_size
    &&& d1.partitions@ == d2.partitions@
}

/// Two constructions from the same readings of an unchanged host agree:
/// both succeed with structurally identical disk trees, or both fail
/// with the same error.
pub proof fn lemma_disk_construction_idempotent(
    r1: Result<Disk, DiskError>,
    r2: Result<Disk, DiskError>,
    name: Seq<char>,
    uuid: Seq<char>,
    model: Seq<char>,
    label: DiskLabel,
    n_sectors: u64,
    sector_size: u64,
    io_size: u32,
    parts: Seq<Partition>,
)
    requires
        disk_new_post(r1, name, uuid, model, label, n_sectors, sector_size, io_size, parts),
        disk_new_post(r2, name, uuid, model, label, n_sectors, sector_size, io_size, parts),
    ensures
        r1 is Ok <==> r2 is Ok,
        r1 is Ok ==> disks_equivalent(r1->Ok_0, r2->Ok_0),
        r1 is Err ==> r1 == r2,
{
}

} // verus!
