//! CPU identification: the machine's architecture and byte order, and
//! the parsing of `lscpu`-style "key: value" output into typed lookups.
//!
//! The caller runs the external tool and reads the kernel files; the
//! functions here work on the captured text alone.

use vstd::prelude::*;
use vstd::string::*;
use crate::strutil::{
    eq_lowered, find_char_from, index_of_from, lemma_index_of_from, lines_from, lines_of,
    lower_seq, parse_u64, remove_char, remove_char_spec, spec_parse_u64, split_ws, split_ws_from,
    str_eq, trim_spec, trim_str,
};

verus! {

/// The processor architecture families recognised here.
#[derive(Debug, Clone, PartialEq, Eq, Structural, Default)]
pub enum Architecture {
    AMD64,
    ARM64,
    RISCV,
    PPC64,
    S390X,
    SPARC64,
    I386,
    I686,
    ARM32,
    #[default]
    Unknown,
}

/// The byte order of a machine.
#[derive(Debug, Clone, PartialEq, Eq, Structural, Default)]
pub enum ByteOrder {
    LittleEndian,
    BigEndian,
    #[default]
    Unknown,
}

/// The architecture named by an identifier string, compared ASCII
/// case-insensitively against the conventional spellings.
pub open spec fn spec_match_cpu_arch(s: Seq<char>) -> Architecture {
    let l = lower_seq(s);
    if l == "x86_64"@ || l == "amd64"@ || l == "x64"@ {
        Architecture::AMD64
    } else if l == "x86"@ || l == "intel386"@ || l == "i386"@ {
        Architecture::I386
    } else if l == "intel686"@ || l == "i686"@ {
        Architecture::I686
    } else if l == "aarch64"@ || l == "arm64"@ {
        Architecture::ARM64
    } else if l == "aarch32"@ || l == "arm32"@ {
        Architecture::ARM32
    } else if l == "risc-v"@ || l == "riscv"@ || l == "risc-v64"@ || l == "riscv64"@ {
        Architecture::RISCV
    } else if l == "powerpc64"@ || l == "ppc64"@ || l == "ppc64le"@ {
        Architecture::PPC64
    } else if l == "s390x"@ || l == "s360x"@ {
        Architecture::S390X
    } else if l == "sparc64"@ {
        Architecture::SPARC64
    } else {
        Architecture::Unknown
    }
}

/// Map an architecture identifier to its family, ignoring ASCII case.
pub fn match_cpu_arch(arch: &str) -> (r: Architecture)
    ensures
        r == spec_match_cpu_arch(arch@),
{
    if eq_lowered(arch, "x86_64") || eq_lowered(arch, "amd64") || eq_lowered(arch, "x64") {
        Architecture::AMD64
    } else if eq_lowered(arch, "x86") || eq_lowered(arch, "intel386") || eq_lowered(arch, "i386") {
        Architecture::I386
    } else if eq_lowered(arch, "intel686") || eq_lowered(arch, "i686") {
        Architecture::I686
    } else if eq_lowered(arch, "aarch64") || eq_lowered(arch, "arm64") {
        Architecture::ARM64
    } else if eq_lowered(arch, "aarch32") || eq_lowered(arch, "arm32") {
        Architecture::ARM32
    } else if eq_lowered(arch, "risc-v") || eq_lowered(arch, "riscv") || eq_lowered(
        arch,
        "risc-v64",
    ) || eq_lowered(arch, "riscv64") {
        Architecture::RISCV
    } else if eq_lowered(arch, "powerpc64") || eq_lowered(arch, "ppc64") || eq_lowered(
        arch,
        "ppc64le",
    ) {
        Architecture::PPC64
    } else if eq_lowered(arch, "s390x") || eq_lowered(arch, "s360x") {
        Architecture::S390X
    } else if eq_lowered(arch, "sparc64") {
        Architecture::SPARC64
    } else {
        Architecture::Unknown
    }
}

/// Relies on `u16::to_ne_bytes`: the native-order byte pair of `1u16`
/// is [1, 0] on a little-endian machine and [0, 1] on a big-endian one.
#[verifier::external_body]
fn native_order_probe() -> (r: Vec<u8>)
    ensures
        r@ == seq![1u8, 0u8] || r@ == seq![0u8, 1u8],
{
    1u16.to_ne_bytes().to_vec()
}

impl ByteOrder {
    /// The byte order of the machine running this process. The probe
    /// always distinguishes the two orders, so `Unknown` never comes
    /// out of this constructor.
    pub fn current() -> (r: ByteOrder)
        ensures
            r is LittleEndian || r is BigEndian,
    {
        let probe = native_order_probe();
        if probe[0] == 1 {
            ByteOrder::LittleEndian
        } else {
            ByteOrder::BigEndian
        }
    }
}

/// One "key: value" entry of captured tool output.
#[derive(Debug, Clone, PartialEq)]
pub struct KvEntry {
    pub key: String,
    pub value: String,
}

/// The mathematical content of one entry.
pub open spec fn kv_view(e: KvEntry) -> (Seq<char>, Seq<char>) {
    (e.key@, e.value@)
}

/// The mathematical content of an entry list.
pub open spec fn kvs_view(s: Seq<KvEntry>) -> Seq<(Seq<char>, Seq<char>)> {
    s.map_values(|e: KvEntry| kv_view(e))
}

/// One line parsed as "key: value": the text before the first colon,
/// trimmed, and the text after it, trimmed and with commas removed.
pub open spec fn spec_lscpu_entry(l: Seq<char>) -> Option<(Seq<char>, Seq<char>)> {
    let idx = index_of_from(l, ':', 0);
    if idx < l.len() {
        Some(
            (
                trim_spec(l.subrange(0, idx)),
                remove_char_spec(trim_spec(l.subrange(idx + 1, l.len() as int)), ','),
            ),
        )
    } else {
        None
    }
}

/// The entries of "key: value" lines, in order; lines without a colon
/// are skipped.
pub open spec fn spec_parse_lscpu(lines: Seq<Seq<char>>) -> Seq<(Seq<char>, Seq<char>)>
    decreases lines.len(),
{
    if lines.len() == 0 {
        Seq::empty()
    } else {
        let rest = spec_parse_lscpu(lines.drop_first());
        match spec_lscpu_entry(lines[0]) {
            Some(e) => seq![e] + rest,
            None => rest,
        }
    }
}

/// Parse one "key: value" line, when it has a colon.
fn parse_lscpu_line(line: &str) -> (r: Option<KvEntry>)
    ensures
        match r {
            Some(e) => spec_lscpu_entry(line@) == Some(kv_view(e)),
            None => spec_lscpu_entry(line@) is None,
        },
{
    let len = line.unicode_len();
    proof {
        lemma_index_of_from(line@, ':', 0);
    }
    let idx = find_char_from(line, ':', 0);
    if idx < len {
        let key = trim_str(line.substring_char(0, idx));
        let trimmed = trim_str(line.substring_char(idx + 1, len));
        let value = remove_char(trimmed.as_str(), ',');
        Some(KvEntry { key, value })
    } else {
        None
    }
}

/// Parse captured "key: value" tool output into its entry list, in
/// order of appearance; lines without a colon are skipped.
pub fn parse_lscpu(output: &str) -> (r: Vec<KvEntry>)
    ensures
        kvs_view(r@) == spec_parse_lscpu(lines_from(output@, 0)),
{
    let lines = lines_of(output);
    let ghost ldv = lines.deep_view();
    let n = lines.len();
    let mut out: Vec<KvEntry> = Vec::new();
    proof {
        assert(ldv.skip(0) =~= ldv);
        assert(kvs_view(out@) =~= Seq::<(Seq<char>, Seq<char>)>::empty());
    }
    let mut i: usize = 0;
    while i < n
        invariant
            n == lines@.len(),
            ldv == lines.deep_view(),
            0 <= i <= n,
            kvs_view(out@) + spec_parse_lscpu(ldv.skip(i as int)) == spec_parse_lscpu(ldv),
        decreases n - i,
    {
        proof {
            assert(ldv[i as int] == lines@[i as int]@);
            assert(ldv.skip(i as int)[0] == ldv[i as int]);
            assert(ldv.skip(i as int).drop_first() =~= ldv.skip(i + 1));
        }
        let ghost pre = kvs_view(out@);
        match parse_lscpu_line(lines[i].as_str()) {
            Some(e) => {
                out.push(e);
                proof {
                    assert(kvs_view(out@) =~= pre.push(kv_view(e)));
                    assert(kvs_view(out@) + spec_parse_lscpu(ldv.skip(i + 1)) =~= pre + (seq![
                        kv_view(e),
                    ] + spec_parse_lscpu(ldv.skip(i + 1))));
                }
            },
            None => {},
        }
        i += 1;
    }
    proof {
        assert(ldv.skip(n as int).len() == 0);
        assert(kvs_view(out@) + spec_parse_lscpu(ldv.skip(n as int)) =~= kvs_view(out@));
    }
    out
}

/// The value of the last entry carrying the key, as a map built by
/// repeated insertion would report it.
pub open spec fn spec_kv_lookup(
    entries: Seq<(Seq<char>, Seq<char>)>,
    key: Seq<char>,
) -> Option<Seq<char>>
    decreases entries.len(),
{
    if entries.len() == 0 {
        None
    } else if entries.last().0 == key {
        Some(entries.last().1)
    } else {
        spec_kv_lookup(entries.drop_last(), key)
    }
}

fn kv_lookup_upto(info: &Vec<KvEntry>, key: &str, j: usize) -> (r: Option<String>)
    requires
        j <= info@.len(),
    ensures
        match r {
            Some(v) => spec_kv_lookup(kvs_view(info@).subrange(0, j as int), key@) == Some(v@),
            None => spec_kv_lookup(kvs_view(info@).subrange(0, j as int), key@) is None,
        },
    decreases j,
{
    if j == 0 {
        proof {
            assert(kvs_view(info@).subrange(0, 0).len() == 0);
        }
        return None;
    }
    let ghost pre = kvs_view(info@).subrange(0, j as int);
    proof {
        assert(pre.last() == kvs_view(info@)[j - 1]);
        assert(kvs_view(info@)[j - 1] == kv_view(info@[j - 1]));
        assert(pre.drop_last() =~= kvs_view(info@).subrange(0, j - 1));
    }
    if str_eq(info[j - 1].key.as_str(), key) {
        Some(info[j - 1].value.clone())
    } else {
        kv_lookup_upto(info, key, j - 1)
    }
}

/// Look a key up in the parsed entries; a key listed twice reports its
/// later value.
pub fn kv_lookup(info: &Vec<KvEntry>, key: &str) -> (r: Option<String>)
    ensures
        match r {
            Some(v) => spec_kv_lookup(kvs_view(info@), key@) == Some(v@),
            None => spec_kv_lookup(kvs_view(info@), key@) is None,
        },
{
    proof {
        assert(kvs_view(info@).subrange(0, info@.len() as int) =~= kvs_view(info@));
    }
    kv_lookup_upto(info, key, info.len())
}

/// The numeric reading of a cache-size entry: the first
/// whitespace-separated token of the value, parsed as a decimal byte
/// count, zero when the key is absent or its value does not parse.
pub open spec fn spec_cache_value(entries: Seq<(Seq<char>, Seq<char>)>, key: Seq<char>) -> u64 {
    match spec_kv_lookup(entries, key) {
        Some(v) => {
            let toks = split_ws_from(v, 0);
            if toks.len() > 0 {
                match spec_parse_u64(toks[0]) {
                    Some(x) => x,
                    None => 0,
                }
            } else {
                0
            }
        },
        None => 0,
    }
}

/// The byte count reported under one cache key, zero when missing or
/// unparseable.
pub fn cache_value(info: &Vec<KvEntry>, key: &str) -> (r: u64)
    ensures
        r == spec_cache_value(kvs_view(info@), key@),
{
    match kv_lookup(info, key) {
        Some(v) => {
            let toks = split_ws(v.as_str());
            if toks.len() > 0 {
                proof {
                    assert(toks.deep_view()[0] == toks@[0]@);
                }
                match parse_u64(toks[0].as_str()) {
                    Some(x) => x,
                    None => 0,
                }
            } else {
                0
            }
        },
        None => 0,
    }
}

/// The level-1, level-2 and level-3 cache sizes of parsed tool output:
/// level 1 is the data cache plus the instruction cache, each reading
/// taken as `cache_value` does, zero when absent.
pub fn parse_cache_sizes(info: &Vec<KvEntry>) -> (r: (u64, u64, u64))
    requires
        spec_cache_value(kvs_view(info@), "L1d cache"@) + spec_cache_value(
            kvs_view(info@),
            "L1i cache"@,
        ) <= u64::MAX,
    ensures
        r.0 == spec_cache_value(kvs_view(info@), "L1d cache"@) + spec_cache_value(
            kvs_view(info@),
            "L1i cache"@,
        ),
        r.1 == spec_cache_value(kvs_view(info@), "L2 cache"@),
        r.2 == spec_cache_value(kvs_view(info@), "L3 cache"@),
{
    let l1d = cache_value(info, "L1d cache");
    let l1i = cache_value(info, "L1i cache");
    let l2 = cache_value(info, "L2 cache");
    let l3 = cache_value(info, "L3 cache");
    (l1d + l1i, l2, l3)
}

} // verus!
