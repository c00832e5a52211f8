use hostinfo::memory::{
    get_kb_default, parse_line, parse_meminfo, parse_transparent_hugepages, MemoryInfo, VmTunables,
};

#[test]
fn meminfo_line_parses_to_bytes() {
    assert_eq!(
        parse_line("MemTotal:       16317004 kB"),
        Some(("MemTotal".to_string(), 16317004 * 1024))
    );
}

#[test]
fn meminfo_line_rejects_malformed_input() {
    assert_eq!(parse_line(""), None);
    assert_eq!(parse_line("MemTotal 16317004 kB"), None);
    assert_eq!(parse_line("MemTotal: 16317004"), None);
    assert_eq!(parse_line("MemTotal: 16317004 MB"), None);
    assert_eq!(parse_line("MemTotal: lots kB"), None);
    assert_eq!(parse_line("HugePages_Total: 0"), None);
}

#[test]
fn meminfo_map_lookup_defaults_to_zero() {
    let text = "MemTotal:       16317004 kB\nMemFree:         8000000 kB\nHugePages_Total:       0\n";
    let m = parse_meminfo(text);
    assert_eq!(m.len(), 2);
    assert_eq!(get_kb_default(&m, "MemTotal"), 16317004 * 1024);
    assert_eq!(get_kb_default(&m, "MemFree"), 8000000 * 1024);
    assert_eq!(get_kb_default(&m, "HugePages_Total"), 0);
    assert_eq!(get_kb_default(&m, "Missing"), 0);
}

fn tunables() -> VmTunables {
    VmTunables {
        dirty_ratio: 20,
        dirty_background_ratio: 10,
        max_map_count: 65530,
        overcommit_ratio: 50,
        swappiness: 60,
        nr_hugepages: 0,
        transparent_hugepages: true,
    }
}

#[test]
fn memory_info_combines_meminfo_and_tunables() {
    let text = "MemTotal:       100 kB\nMemFree:          40 kB\nSwapTotal:        10 kB\nHugepagesize:      2048 kB\n";
    let info = MemoryInfo::new(text, &tunables());
    assert_eq!(info.total, 100 * 1024);
    assert_eq!(info.free, 40 * 1024);
    assert_eq!(info.available, 0);
    assert_eq!(info.swap_total, 10 * 1024);
    assert_eq!(info.hugepage_size, 2048 * 1024);
    assert_eq!(info.dirty_ratio, 20);
    assert_eq!(info.dirty_background_ratio, 10);
    assert_eq!(info.max_map_count, 65530);
    assert_eq!(info.overcommit_ratio, 50);
    assert_eq!(info.swappiness, 60);
    assert_eq!(info.nr_hugepages, 0);
    assert!(info.transparent_hugepages);
}

#[test]
fn thp_bracketed_mode_decides() {
    assert!(parse_transparent_hugepages("[always] madvise never"));
    assert!(parse_transparent_hugepages("always [madvise] never"));
    assert!(!parse_transparent_hugepages("always madvise [never]"));
}

#[test]
fn thp_without_brackets_scans_for_modes() {
    assert!(parse_transparent_hugepages("always"));
    assert!(parse_transparent_hugepages("madvise"));
    assert!(!parse_transparent_hugepages("nothing here"));
}
