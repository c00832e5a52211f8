//! System memory statistics and VM tunables, built from the text of the
//! kernel's memory-information file and from tunable readings the
//! caller supplies; missing entries default to zero.

use vstd::prelude::*;
use vstd::string::*;
use crate::strutil::{
    find_char_from, index_of_from, lemma_index_of_from, lines_from, lines_of, parse_u64,
    spec_contains, spec_parse_u64, split_ws, split_ws_from, str_eq, strip_trailing_char,
    end_strip_char_at, contains_str,
};

verus! {

/// Memory statistics and VM tunables, in bytes where the source reports
/// kilobytes; defaults of zero (or false) stand in for unreadable
/// values.
#[derive(Debug, Clone, PartialEq, Eq, Structural)]
pub struct MemoryInfo {
    pub total: u64,
    pub free: u64,
    pub available: u64,
    pub buffers: u64,
    pub cached: u64,
    pub swap_total: u64,
    pub swap_free: u64,
    pub anon_pages: u64,
    pub kernel_stack: u64,
    pub hugepage_size: u64,
    pub dirty_ratio: u64,
    pub dirty_background_ratio: u64,
    pub max_map_count: u64,
    pub overcommit_ratio: u64,
    pub swappiness: u64,
    pub nr_hugepages: u64,
    pub transparent_hugepages: bool,
}

/// The VM tunables as the caller read them, each already defaulted on a
/// read failure.
#[derive(Debug, Clone, Copy, PartialEq, Eq, Structural)]
pub struct VmTunables {
    pub dirty_ratio: u64,
    pub dirty_background_ratio: u64,
    pub max_map_count: u64,
    pub overcommit_ratio: u64,
    pub swappiness: u64,
    pub nr_hugepages: u64,
    pub transparent_hugepages: bool,
}

/// One parsed memory-information entry: the key and its value in bytes.
#[derive(Debug, Clone, PartialEq)]
pub struct MemEntry {
    pub key: String,
    pub value: u64,
}

/// The mathematical content of one entry.
pub open spec fn mem_view(e: MemEntry) -> (Seq<char>, u64) {
    (e.key@, e.value)
}

/// The mathematical content of an entry list.
pub open spec fn mems_view(s: Seq<MemEntry>) -> Seq<(Seq<char>, u64)> {
    s.map_values(|e: MemEntry| mem_view(e))
}

/// One "Key: <value> kB" line: at least three whitespace-separated
/// fields, the first ending in a colon, the third exactly "kB", and the
/// second a decimal kilobyte count whose byte value fits; the key keeps
/// no trailing colons.
pub open spec fn spec_parse_line(l: Seq<char>) -> Option<(Seq<char>, u64)> {
    let parts = split_ws_from(l, 0);
    if parts.len() >= 3 && parts[0].len() > 0 && parts[0].last() == ':' && parts[2] == "kB"@ {
        let key = parts[0].subrange(0, end_strip_char_at(parts[0], ':', parts[0].len() as int));
        match spec_parse_u64(parts[1]) {
            Some(kb) => if kb * 1024 <= u64::MAX {
                Some((key, (kb * 1024) as u64))
            } else {
                None
            },
            None => None,
        }
    } else {
        None
    }
}

/// Parse one "Key: <value> kB" line into its key and byte value.
pub fn parse_line(line: &str) -> (r: Option<(String, u64)>)
    ensures
        match r {
            Some(p) => spec_parse_line(line@) == Some((p.0@, p.1)),
            None => spec_parse_line(line@) is None,
        },
{
    let parts = split_ws(line);
    if parts.len() < 3 {
        return None;
    }
    proof {
        assert(parts.deep_view()[0] == parts@[0]@);
        assert(parts.deep_view()[1] == parts@[1]@);
        assert(parts.deep_view()[2] == parts@[2]@);
    }
    let p0 = parts[0].as_str();
    let p0len = p0.unicode_len();
    if p0len == 0 {
        return None;
    }
    if p0.get_char(p0len - 1) != ':' {
        return None;
    }
    if !str_eq(parts[2].as_str(), "kB") {
        return None;
    }
    let key = strip_trailing_char(p0, ':');
    match parse_u64(parts[1].as_str()) {
        Some(kb) => {
            if kb <= u64::MAX / 1024 {
                Some((key, kb * 1024))
            } else {
                None
            }
        },
        None => None,
    }
}

/// The entries of the parsed lines, in order, unreadable lines skipped.
pub open spec fn spec_parse_meminfo(lines: Seq<Seq<char>>) -> Seq<(Seq<char>, u64)>
    decreases lines.len(),
{
    if lines.len() == 0 {
        Seq::empty()
    } else {
        let rest = spec_parse_meminfo(lines.drop_first());
        match spec_parse_line(lines[0]) {
            Some(e) => seq![e] + rest,
            None => rest,
        }
    }
}

/// Parse memory-information text into its entries, in order of
/// appearance, skipping lines that do not carry a kilobyte reading.
pub fn parse_meminfo(text: &str) -> (r: Vec<MemEntry>)
    ensures
        mems_view(r@) == spec_parse_meminfo(lines_from(text@, 0)),
{
    let lines = lines_of(text);
    let ghost ldv = lines.deep_view();
    let n = lines.len();
    let mut out: Vec<MemEntry> = Vec::new();
    proof {
        assert(ldv.skip(0) =~= ldv);
        assert(mems_view(out@) =~= Seq::<(Seq<char>, u64)>::empty());
    }
    let mut i: usize = 0;
    while i < n
        invariant
            n == lines@.len(),
            ldv == lines.deep_view(),
            0 <= i <= n,
            mems_view(out@) + spec_parse_meminfo(ldv.skip(i as int)) == spec_parse_meminfo(ldv),
        decreases n - i,
    {
        proof {
            assert(ldv[i as int] == lines@[i as int]@);
            assert(ldv.skip(i as int)[0] == ldv[i as int]);
            assert(ldv.skip(i as int).drop_first() =~= ldv.skip(i + 1));
        }
        let ghost pre = mems_view(out@);
        match parse_line(lines[i].as_str()) {
            Some(kv) => {
                let e = MemEntry { key: kv.0, value: kv.1 };
                out.push(e);
                proof {
                    assert(mems_view(out@) =~= pre.push(mem_view(e)));
                    assert(mems_view(out@) + spec_parse_meminfo(ldv.skip(i + 1)) =~= pre + (seq![
                        mem_view(e),
                    ] + spec_parse_meminfo(ldv.skip(i + 1))));
                }
            },
            None => {},
        }
        i += 1;
    }
    proof {
        assert(ldv.skip(n as int).len() == 0);
        assert(mems_view(out@) + spec_parse_meminfo(ldv.skip(n as int)) =~= mems_view(out@));
    }
    out
}

/// The byte value of the last entry carrying the key, as a map built by
/// repeated insertion would report it.
pub open spec fn spec_mem_lookup(entries: Seq<(Seq<char>, u64)>, key: Seq<char>) -> Option<u64>
    decreases entries.len(),
{
    if entries.len() == 0 {
        None
    } else if entries.last().0 == key {
        Some(entries.last().1)
    } else {
        spec_mem_lookup(entries.drop_last(), key)
    }
}

/// The byte value under a key, defaulting to zero.
pub open spec fn spec_get_kb(entries: Seq<(Seq<char>, u64)>, key: Seq<char>) -> u64 {
    match spec_mem_lookup(entries, key) {
        Some(v) => v,
        None => 0,
    }
}

fn mem_lookup_upto(map: &Vec<MemEntry>, key: &str, j: usize) -> (r: Option<u64>)
    requires
        j <= map@.len(),
    ensures
        r == spec_mem_lookup(mems_view(map@).subrange(0, j as int), key@),
    decreases j,
{
    if j == 0 {
        proof {
            assert(mems_view(map@).subrange(0, 0).len() == 0);
        }
        return None;
    }
    let ghost pre = mems_view(map@).subrange(0, j as int);
    proof {
        assert(pre.last() == mems_view(map@)[j - 1]);
        assert(mems_view(map@)[j - 1] == mem_view(map@[j - 1]));
        assert(pre.drop_last() =~= mems_view(map@).subrange(0, j - 1));
    }
    if str_eq(map[j - 1].key.as_str(), key) {
        Some(map[j - 1].value)
    } else {
        mem_lookup_upto(map, key, j - 1)
    }
}

/// Look a key up in the parsed entries, defaulting to zero; a key
/// listed twice reports its later value.
pub fn get_kb_default(map: &Vec<MemEntry>, key: &str) -> (r: u64)
    ensures
        r == spec_get_kb(mems_view(map@), key@),
{
    proof {
        assert(mems_view(map@).subrange(0, map@.len() as int) =~= mems_view(map@));
    }
    match mem_lookup_upto(map, key, map.len()) {
        Some(v) => v,
        None => 0,
    }
}

/// Whether a transparent-hugepage state line reports the feature as
/// enabled: the bracketed mode, when one is present and closed, counts
/// unless it is "never"; otherwise any mention of "always" or "madvise"
/// counts.
pub open spec fn spec_thp_enabled(s: Seq<char>) -> bool {
    let a = index_of_from(s, '[', 0);
    if a < s.len() {
        let b = index_of_from(s, ']', a + 1);
        if b < s.len() {
            s.subrange(a + 1, b) != "never"@
        } else {
            spec_contains(s, "always"@) || spec_contains(s, "madvise"@)
        }
    } else {
        spec_contains(s, "always"@) || spec_contains(s, "madvise"@)
    }
}

/// Decide from the transparent-hugepage state text whether the feature
/// is enabled.
pub fn parse_transparent_hugepages(text: &str) -> (r: bool)
    ensures
        r == spec_thp_enabled(text@),
{
    let len = text.unicode_len();
    proof {
        lemma_index_of_from(text@, '[', 0);
    }
    let a = find_char_from(text, '[', 0);
    if a < len {
        proof {
            lemma_index_of_from(text@, ']', a + 1);
        }
        let b = find_char_from(text, ']', a + 1);
        if b < len {
            let mode = text.substring_char(a + 1, b);
            !str_eq(mode, "never")
        } else {
            contains_str(text, "always") || contains_str(text, "madvise")
        }
    } else {
        contains_str(text, "always") || contains_str(text, "madvise")
    }
}

impl MemoryInfo {
    /// Assemble the memory statistics from the memory-information text
    /// and the tunables the caller read, each entry defaulting to zero
    /// when absent.
    pub fn new(meminfo_text: &str, tunables: &VmTunables) -> (r: MemoryInfo)
        ensures
            ({
                let m = spec_parse_meminfo(lines_from(meminfo_text@, 0));
                &&& r.total == spec_get_kb(m, "MemTotal"@)
                &&& r.free == spec_get_kb(m, "MemFree"@)
                &&& r.available == spec_get_kb(m, "MemAvailable"@)
                &&& r.buffers == spec_get_kb(m, "Buffers"@)
                &&& r.cached == spec_get_kb(m, "Cached"@)
                &&& r.swap_total == spec_get_kb(m, "SwapTotal"@)
                &&& r.swap_free == spec_get_kb(m, "SwapFree"@)
                &&& r.anon_pages == spec_get_kb(m, "AnonPages"@)
                &&& r.kernel_stack == spec_get_kb(m, "KernelStack"@)
                &&& r.hugepage_size == spec_get_kb(m, "Hugepagesize"@)
                &&& r.dirty_ratio == tunables.dirty_ratio
                &&& r.dirty_background_ratio == tunables.dirty_background_ratio
                &&& r.max_map_count == tunables.max_map_count
                &&& r.overcommit_ratio == tunables.overcommit_ratio
                &&& r.swappiness == tunables.swappiness
                &&& r.nr_hugepages == tunables.nr_hugepages
                &&& r.transparent_hugepages == tunables.transparent_hugepages
            }),
    {
        let m = parse_meminfo(meminfo_text);
        MemoryInfo {
            total: get_kb_default(&m, "MemTotal"),
            free: get_kb_default(&m, "MemFree"),
            available: get_kb_default(&m, "MemAvailable"),
            buffers: get_kb_default(&m, "Buffers"),
            cached: get_kb_default(&m, "Cached"),
            swap_total: get_kb_default(&m, "SwapTotal"),
            swap_free: get_kb_default(&m, "SwapFree"),
            anon_pages: get_kb_default(&m, "AnonPages"),
            kernel_stack: get_kb_default(&m, "KernelStack"),
            hugepage_size: get_kb_default(&m, "Hugepagesize"),
            dirty_ratio: tunables.dirty_ratio,
            dirty_background_ratio: tunables.dirty_background_ratio,
            max_map_count: tunables.max_map_count,
            overcommit_ratio: tunables.overcommit_ratio,
            swappiness: tunables.swappiness,
            nr_hugepages: tunables.nr_hugepages,
            transparent_hugepages: tunables.transparent_hugepages,
        }
    }
}

} // verus!
