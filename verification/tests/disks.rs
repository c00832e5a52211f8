use hostinfo::disks::{
    detect_disklabel, device_uuid_or_placeholder, get_device_uuid, get_uuid_from_dir,
    has_protective_mbr_entry, has_valid_boot_signature, is_gpt_signature, is_partition,
    is_loop_device, is_partition_of, parent_disk_name, parse_geometry_attr, parse_io_size_attr,
    partition_type_from_attr, partition_uuid_or_placeholder, capacity_from_attrs, end_sector,
    Disk, DiskError, DiskLabel, LinkEntry, Partition,
};

fn sector_with(entries: &[(usize, u8)]) -> Vec<u8> {
    let mut s = vec![0u8; 512];
    for &(i, b) in entries {
        s[i] = b;
    }
    s
}

fn valid_sector(type_byte: u8) -> Vec<u8> {
    sector_with(&[(450, type_byte), (510, 0x55), (511, 0xAA)])
}

#[test]
fn plain_mbr_sector_classifies_as_mbr() {
    let s = valid_sector(0x00);
    let g = vec![0u8; 8];
    let r = detect_disklabel(&s, &g);
    assert_eq!(r, Ok(DiskLabel::MBR));
}

#[test]
fn protective_mbr_with_efi_part_classifies_as_gpt() {
    let s = valid_sector(0xEE);
    let g = b"EFI PART".to_vec();
    let r = detect_disklabel(&s, &g);
    assert_eq!(r, Ok(DiskLabel::GPT));
}

#[test]
fn protective_mbr_without_efi_part_classifies_as_mbr() {
    let s = valid_sector(0xEE);
    let g = vec![0xDE, 0xAD, 0xBE, 0xEF, 0x01, 0x02, 0x03, 0x04];
    let r = detect_disklabel(&s, &g);
    assert_eq!(r, Ok(DiskLabel::MBR));
}

#[test]
fn missing_boot_signature_is_invalid_signature_error() {
    let s = sector_with(&[(450, 0xEE)]);
    let g = b"EFI PART".to_vec();
    let r = detect_disklabel(&s, &g);
    assert_eq!(r, Err(DiskError::InvalidSignature));
}

#[test]
fn half_boot_signature_is_invalid_signature_error() {
    let s = sector_with(&[(510, 0x55)]);
    let g = vec![0u8; 8];
    assert_eq!(detect_disklabel(&s, &g), Err(DiskError::InvalidSignature));
}

#[test]
fn classification_is_deterministic_for_equal_bytes() {
    let s = valid_sector(0xEE);
    let g = b"EFI PART".to_vec();
    assert_eq!(detect_disklabel(&s, &g), detect_disklabel(&s.clone(), &g.clone()));
}

#[test]
fn staged_predicates_match_protocol() {
    let s = valid_sector(0xEE);
    assert!(has_valid_boot_signature(&s));
    assert!(has_protective_mbr_entry(&s));
    assert!(is_gpt_signature(&b"EFI PART".to_vec()));
    assert!(!is_gpt_signature(&b"EFI QART".to_vec()));
    let plain = valid_sector(0x83);
    assert!(!has_protective_mbr_entry(&plain));
}

#[test]
fn disklabel_to_string_names() {
    assert_eq!(DiskLabel::GPT.to_string(), "GPT");
    assert_eq!(DiskLabel::MBR.to_string(), "MBR");
    assert_eq!(DiskLabel::Unknown.to_string(), "Unknown");
}

#[test]
fn nvme_partition_name_derives_parent() {
    assert!(is_partition("nvme0n1p3"));
    assert_eq!(parent_disk_name("nvme0n1p3"), "nvme0n1");
}

#[test]
fn classic_partition_name_derives_parent() {
    assert!(is_partition("sda1"));
    assert_eq!(parent_disk_name("sda1"), "sda");
    assert!(is_partition("sda12"));
    assert_eq!(parent_disk_name("sda12"), "sda");
}

#[test]
fn bare_device_name_is_not_a_partition() {
    assert!(!is_partition("sda"));
    assert!(!is_partition("sdb"));
}

#[test]
fn loop_names_are_never_partitions() {
    assert!(!is_partition("loop0"));
    assert!(!is_partition("loop12"));
    assert!(!is_partition("loop0p1"));
}

#[test]
fn partition_new_derives_end_and_size() {
    let p = Partition::new(
        "sda1".to_string(),
        2048,
        1024,
        512,
        "u".to_string(),
        "0x83".to_string(),
    )
    .unwrap();
    assert_eq!(p.name, "sda1");
    assert_eq!(p.start, 2048);
    assert_eq!(p.sectors, 1024);
    assert_eq!(p.end, 2048 + 1024 - 1);
    assert_eq!(p.size, 1024 * 512);
    assert_eq!(p.uuid, "u");
    assert_eq!(p.part_type, "0x83");
}

#[test]
fn partition_new_rejects_empty_geometry_at_origin() {
    let r = Partition::new("x".to_string(), 0, 0, 512, String::new(), String::new());
    assert_eq!(r.err(), Some(DiskError::GeometryUnavailable));
}

#[test]
fn partition_new_rejects_unrepresentable_size() {
    let r = Partition::new("x".to_string(), 0, u64::MAX, 2, String::new(), String::new());
    assert_eq!(r.err(), Some(DiskError::GeometryUnavailable));
}

fn part(name: &str, start: u64, sectors: u64, sector_size: u64) -> Partition {
    Partition::new(
        name.to_string(),
        start,
        sectors,
        sector_size,
        "uuid".to_string(),
        "t".to_string(),
    )
    .unwrap()
}

#[test]
fn disk_new_upholds_size_invariant() {
    let parts = vec![part("sda1", 2048, 1000, 512), part("sda2", 4096, 2000, 512)];
    let d = Disk::new(
        "sda".to_string(),
        "u".to_string(),
        "model".to_string(),
        DiskLabel::MBR,
        10000,
        512,
        4096,
        parts,
    )
    .unwrap();
    assert_eq!(d.size, d.n_sectors * d.sector_size);
    assert_eq!(d.size, 10000 * 512);
    assert_eq!(d.partitions.len(), 2);
    for p in &d.partitions {
        assert_eq!(p.end, p.start + p.sectors - 1);
        assert_eq!(p.size, p.sectors * d.sector_size);
    }
}

#[test]
fn disk_new_filters_loop_backed_partitions() {
    let parts = vec![part("sda1", 2048, 1000, 512), part("loop0p1", 0, 100, 512)];
    let d = Disk::new(
        "sda".to_string(),
        "u".to_string(),
        "m".to_string(),
        DiskLabel::GPT,
        10000,
        512,
        0,
        parts,
    )
    .unwrap();
    assert_eq!(d.partitions.len(), 1);
    assert_eq!(d.partitions[0].name, "sda1");
}

#[test]
fn disk_new_rejects_partitions_exceeding_disk_sectors() {
    let parts = vec![part("sda1", 0, 9000, 512), part("sda2", 9000, 2000, 512)];
    let r = Disk::new(
        "sda".to_string(),
        "u".to_string(),
        "m".to_string(),
        DiskLabel::MBR,
        10000,
        512,
        0,
        parts,
    );
    assert_eq!(r.err(), Some(DiskError::GeometryUnavailable));
}

#[test]
fn disk_new_rejects_partition_with_foreign_sector_size() {
    // Built against 4096-byte sectors, checked against a 512-byte disk.
    let parts = vec![part("sda1", 0, 100, 4096)];
    let r = Disk::new(
        "sda".to_string(),
        "u".to_string(),
        "m".to_string(),
        DiskLabel::MBR,
        10000,
        512,
        0,
        parts,
    );
    assert_eq!(r.err(), Some(DiskError::GeometryUnavailable));
}

#[test]
fn disk_new_partition_sectors_never_exceed_disk_sectors() {
    let parts = vec![part("sda1", 0, 4000, 512), part("sda2", 4000, 6000, 512)];
    let d = Disk::new(
        "sda".to_string(),
        "u".to_string(),
        "m".to_string(),
        DiskLabel::MBR,
        10000,
        512,
        0,
        parts,
    )
    .unwrap();
    let total: u64 = d.partitions.iter().map(|p| p.sectors).sum();
    assert!(total <= d.n_sectors);
}

#[test]
fn two_queries_of_unchanged_readings_are_identical() {
    let mk = || {
        Disk::new(
            "sda".to_string(),
            "u".to_string(),
            "m".to_string(),
            DiskLabel::GPT,
            10000,
            512,
            4096,
            vec![part("sda1", 2048, 1000, 512)],
        )
        .unwrap()
    };
    assert_eq!(mk(), mk());
}

fn entry(name: &str, target: &str) -> LinkEntry {
    LinkEntry {
        name: name.to_string(),
        target: target.to_string(),
    }
}

#[test]
fn uuid_from_dir_takes_first_matching_entry() {
    let entries = vec![
        entry("wwn-0x5000c5", "../../sdb"),
        entry("ata-Disk_One-1111", "../../sda"),
        entry("ata-Disk_Two-2222", "../../sda"),
    ];
    assert_eq!(
        get_uuid_from_dir(&entries, "sda"),
        Some("ata-Disk_One-1111".to_string())
    );
    assert_eq!(get_uuid_from_dir(&entries, "sdc"), None);
}

#[test]
fn device_uuid_keeps_suffix_after_last_hyphen() {
    let by_id = vec![entry("ata-Samsung_SSD_860-1234ABC", "../../sda")];
    let by_uuid = vec![];
    assert_eq!(
        get_device_uuid(&by_id, &by_uuid, "sda"),
        Ok("1234ABC".to_string())
    );
}

#[test]
fn device_uuid_without_hyphen_is_kept_whole() {
    let by_id = vec![entry("plainid", "../../sda")];
    assert_eq!(get_device_uuid(&by_id, &vec![], "sda"), Ok("plainid".to_string()));
}

#[test]
fn device_uuid_falls_back_to_by_uuid_unmodified() {
    let by_id = vec![entry("ata-Other-9", "../../sdb")];
    let by_uuid = vec![entry("f00d-cafe", "../../sda")];
    assert_eq!(
        get_device_uuid(&by_id, &by_uuid, "sda"),
        Ok("f00d-cafe".to_string())
    );
}

#[test]
fn device_uuid_unmatched_is_identity_unresolved() {
    let r = get_device_uuid(&vec![], &vec![], "sda");
    assert_eq!(r, Err(DiskError::IdentityUnresolved));
}

#[test]
fn uuid_placeholders_degrade_gracefully() {
    assert_eq!(
        partition_uuid_or_placeholder(&vec![], "sda1"),
        "UUID not found for partition: sda1"
    );
    assert_eq!(
        device_uuid_or_placeholder(&vec![], &vec![], "sda"),
        "UUID not found for device: sda"
    );
    let by_uuid = vec![entry("ab12-cd34", "../../sda1")];
    assert_eq!(partition_uuid_or_placeholder(&by_uuid, "sda1"), "ab12-cd34");
}

#[test]
fn geometry_attr_parses_trimmed_decimal() {
    assert_eq!(parse_geometry_attr("512\n"), Ok(512));
    assert_eq!(parse_geometry_attr("  4096  "), Ok(4096));
    assert_eq!(parse_geometry_attr("fast\n"), Err(DiskError::GeometryUnavailable));
    assert_eq!(parse_geometry_attr(""), Err(DiskError::GeometryUnavailable));
    assert_eq!(parse_io_size_attr("0\n"), Ok(0));
    assert_eq!(parse_io_size_attr("33554432\n"), Ok(33554432));
    assert_eq!(parse_io_size_attr("99999999999\n"), Err(DiskError::GeometryUnavailable));
}

#[test]
fn empty_partition_type_is_an_explicit_error() {
    assert_eq!(partition_type_from_attr("0x83\n"), Ok("0x83".to_string()));
    assert_eq!(
        partition_type_from_attr(""),
        Err(DiskError::PartitionTypeUnavailable)
    );
}

#[test]
fn loop_devices_are_recognised() {
    assert!(is_loop_device("loop0"));
    assert!(!is_loop_device("sda"));
}

#[test]
fn enumeration_keeps_only_true_children() {
    assert!(is_partition_of("sda1", "sda"));
    assert!(is_partition_of("sda12", "sda"));
    assert!(is_partition_of("nvme0n1p3", "nvme0n1"));
    assert!(!is_partition_of("sda", "sda"));
    assert!(!is_partition_of("sdb1", "sda"));
    // Extends the name but is no partition at all.
    assert!(!is_partition_of("sdax", "sda"));
    assert!(!is_partition_of("nvme0n1x", "nvme0n1"));
    // A partition, but of another parent.
    assert!(!is_partition_of("sda11", "sda1"));
    assert!(!is_partition_of("loop0p1", "loop0"));
}

#[test]
fn capacity_comes_from_the_device_readings_alone() {
    assert_eq!(capacity_from_attrs("512\n", "10000\n"), Ok(512 * 10000));
    assert_eq!(capacity_from_attrs("4096\n", "8\n"), Ok(4096 * 8));
    // An unreadable sector size is an error, never a 512-byte default.
    assert_eq!(
        capacity_from_attrs("", "10000\n"),
        Err(DiskError::GeometryUnavailable)
    );
    assert_eq!(
        capacity_from_attrs("junk\n", "10000\n"),
        Err(DiskError::GeometryUnavailable)
    );
    assert_eq!(
        capacity_from_attrs("512\n", "junk\n"),
        Err(DiskError::GeometryUnavailable)
    );
    assert_eq!(
        capacity_from_attrs("18446744073709551615\n", "2\n"),
        Err(DiskError::GeometryUnavailable)
    );
}

#[test]
fn end_sector_is_start_plus_count_minus_one() {
    assert_eq!(end_sector(2048, 1024), Ok(2048 + 1024 - 1));
    assert_eq!(end_sector(0, 1), Ok(0));
    assert_eq!(end_sector(0, 0), Err(DiskError::GeometryUnavailable));
    assert_eq!(end_sector(u64::MAX, 1), Ok(u64::MAX));
    assert_eq!(end_sector(u64::MAX, 2), Err(DiskError::GeometryUnavailable));
}
