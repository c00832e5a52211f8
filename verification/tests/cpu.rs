use hostinfo::cpu::{
    cache_value, kv_lookup, match_cpu_arch, parse_cache_sizes, parse_lscpu, Architecture,
    ByteOrder, KvEntry,
};

#[test]
fn arch_matching_recognises_common_names() {
    assert_eq!(match_cpu_arch("x86_64"), Architecture::AMD64);
    assert_eq!(match_cpu_arch("amd64"), Architecture::AMD64);
    assert_eq!(match_cpu_arch("x64"), Architecture::AMD64);
    assert_eq!(match_cpu_arch("i386"), Architecture::I386);
    assert_eq!(match_cpu_arch("i686"), Architecture::I686);
    assert_eq!(match_cpu_arch("aarch64"), Architecture::ARM64);
    assert_eq!(match_cpu_arch("arm32"), Architecture::ARM32);
    assert_eq!(match_cpu_arch("riscv64"), Architecture::RISCV);
    assert_eq!(match_cpu_arch("risc-v"), Architecture::RISCV);
    assert_eq!(match_cpu_arch("ppc64le"), Architecture::PPC64);
    assert_eq!(match_cpu_arch("s390x"), Architecture::S390X);
    assert_eq!(match_cpu_arch("sparc64"), Architecture::SPARC64);
}

#[test]
fn arch_matching_ignores_ascii_case() {
    assert_eq!(match_cpu_arch("X86_64"), Architecture::AMD64);
    assert_eq!(match_cpu_arch("AArch64"), Architecture::ARM64);
    assert_eq!(match_cpu_arch("PPC64LE"), Architecture::PPC64);
}

#[test]
fn arch_matching_rejects_strangers() {
    assert_eq!(match_cpu_arch("vax"), Architecture::Unknown);
    assert_eq!(match_cpu_arch(""), Architecture::Unknown);
    assert_eq!(match_cpu_arch("x86_64\n"), Architecture::Unknown);
}

#[test]
fn byte_order_probe_is_decisive() {
    let bo = ByteOrder::current();
    assert!(matches!(bo, ByteOrder::LittleEndian | ByteOrder::BigEndian));
}

#[test]
fn lscpu_parse_trims_and_strips_commas() {
    let out = "Architecture:        x86_64\nCPU op-mode(s):      32-bit, 64-bit\nNo colon line\n";
    let info = parse_lscpu(out);
    assert_eq!(info.len(), 2);
    assert_eq!(info[0].key, "Architecture");
    assert_eq!(info[0].value, "x86_64");
    assert_eq!(info[1].key, "CPU op-mode(s)");
    assert_eq!(info[1].value, "32-bit 64-bit");
}

#[test]
fn kv_lookup_prefers_later_duplicate() {
    let info = vec![
        KvEntry {
            key: "Model".to_string(),
            value: "old".to_string(),
        },
        KvEntry {
            key: "Model".to_string(),
            value: "new".to_string(),
        },
    ];
    assert_eq!(kv_lookup(&info, "Model"), Some("new".to_string()));
    assert_eq!(kv_lookup(&info, "Vendor"), None);
}

#[test]
fn cache_sizes_sum_l1_and_default_to_zero() {
    let out = "L1d cache:  32768 (1 instance)\nL1i cache:  65536 (1 instance)\nL2 cache:   262144\n";
    let info = parse_lscpu(out);
    assert_eq!(cache_value(&info, "L1d cache"), 32768);
    assert_eq!(cache_value(&info, "L1i cache"), 65536);
    let (l1, l2, l3) = parse_cache_sizes(&info);
    assert_eq!(l1, 32768 + 65536);
    assert_eq!(l2, 262144);
    assert_eq!(l3, 0);
}

#[test]
fn cache_value_of_unparseable_reading_is_zero() {
    let info = parse_lscpu("L3 cache: lots\n");
    assert_eq!(cache_value(&info, "L3 cache"), 0);
}
