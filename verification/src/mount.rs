//! The mount table: parsing the lines of the kernel's mounts file into
//! typed records. The caller reads the file and hands the text in.

use vstd::prelude::*;
use vstd::string::*;
use crate::strutil::{
    lines_from, lines_of, spec_parse_u32, parse_u32, split_char, split_char_from, split_ws,
    split_ws_from,
};

verus! {

/// One mounted filesystem, as one line of the mounts file reports it.
#[derive(Debug, Clone, PartialEq)]
pub struct Mount {
    pub source: String,
    pub target: String,
    pub fs_type: String,
    pub options: Vec<String>,
    pub dump: u32,
    pub pass: u32,
}

/// The mathematical content of one mount record.
pub open spec fn mount_view(m: Mount) -> (
    Seq<char>,
    Seq<char>,
    Seq<char>,
    Seq<Seq<char>>,
    u32,
    u32,
) {
    (m.source@, m.target@, m.fs_type@, m.options.deep_view(), m.dump, m.pass)
}

/// The mathematical content of a mount list.
pub open spec fn mounts_view(s: Seq<Mount>) -> Seq<
    (Seq<char>, Seq<char>, Seq<char>, Seq<Seq<char>>, u32, u32),
> {
    s.map_values(|m: Mount| mount_view(m))
}

/// One mounts line: at least six whitespace-separated fields — source,
/// target, filesystem type, comma-separated options, and two decimal
/// fields that default to zero when they do not parse.
pub open spec fn spec_parse_mount_line(l: Seq<char>) -> Option<
    (Seq<char>, Seq<char>, Seq<char>, Seq<Seq<char>>, u32, u32),
> {
    let parts = split_ws_from(l, 0);
    if parts.len() < 6 {
        None
    } else {
        Some(
            (
                parts[0],
                parts[1],
                parts[2],
                split_char_from(parts[3], ',', 0),
                match spec_parse_u32(parts[4]) {
                    Some(d) => d,
                    None => 0,
                },
                match spec_parse_u32(parts[5]) {
                    Some(p) => p,
                    None => 0,
                },
            ),
        )
    }
}

impl Mount {
    /// Parse one line of the mounts file.
    pub fn new(line: &str) -> (r: Option<Mount>)
        ensures
            match r {
                Some(m) => spec_parse_mount_line(line@) == Some(mount_view(m)),
                None => spec_parse_mount_line(line@) is None,
            },
    {
        let parts = split_ws(line);
        if parts.len() < 6 {
            return None;
        }
        proof {
            assert(parts.deep_view()[0] == parts@[0]@);
            assert(parts.deep_view()[1] == parts@[1]@);
            assert(parts.deep_view()[2] == parts@[2]@);
            assert(parts.deep_view()[3] == parts@[3]@);
            assert(parts.deep_view()[4] == parts@[4]@);
            assert(parts.deep_view()[5] == parts@[5]@);
        }
        let source = parts[0].clone();
        let target = parts[1].clone();
        let fs_type = parts[2].clone();
        let options = split_char(parts[3].as_str(), ',');
        let dump: u32 = match parse_u32(parts[4].as_str()) {
            Some(d) => d,
            None => 0,
        };
        let pass: u32 = match parse_u32(parts[5].as_str()) {
            Some(p) => p,
            None => 0,
        };
        Some(Mount { source, target, fs_type, options, dump, pass })
    }
}

/// The records of the parsed lines, in order, unparseable lines
/// skipped.
pub open spec fn spec_parse_mounts(lines: Seq<Seq<char>>) -> Seq<
    (Seq<char>, Seq<char>, Seq<char>, Seq<Seq<char>>, u32, u32),
>
    decreases lines.len(),
{
    if lines.len() == 0 {
        Seq::empty()
    } else {
        let rest = spec_parse_mounts(lines.drop_first());
        match spec_parse_mount_line(lines[0]) {
            Some(m) => seq![m] + rest,
            None => rest,
        }
    }
}

/// Parse the full text of the mounts file into mount records, in order,
/// skipping lines with fewer than six fields.
pub fn get_mounts(text: &str) -> (r: Vec<Mount>)
    ensures
        mounts_view(r@) == spec_parse_mounts(lines_from(text@, 0)),
{
    let lines = lines_of(text);
    let ghost ldv = lines.deep_view();
    let n = lines.len();
    let mut out: Vec<Mount> = Vec::new();
    proof {
        assert(ldv.skip(0) =~= ldv);
        assert(mounts_view(out@) =~= Seq::<
            (Seq<char>, Seq<char>, Seq<char>, Seq<Seq<char>>, u32, u32),
        >::empty());
    }
    let mut i: usize = 0;
    while i < n
        invariant
            n == lines@.len(),
            ldv == lines.deep_view(),
            0 <= i <= n,
            mounts_view(out@) + spec_parse_mounts(ldv.skip(i as int)) == spec_parse_mounts(ldv),
        decreases n - i,
    {
        proof {
            assert(ldv[i as int] == lines@[i as int]@);
            assert(ldv.skip(i as int)[0] == ldv[i as int]);
            assert(ldv.skip(i as int).drop_first() =~= ldv.skip(i + 1));
        }
        let ghost pre = mounts_view(out@);
        match Mount::new(lines[i].as_str()) {
            Some(m) => {
                let ghost mv = mount_view(m);
                out.push(m);
                proof {
                    assert(mounts_view(out@) =~= pre.push(mv));
                    assert(mounts_view(out@) + spec_parse_mounts(ldv.skip(i + 1)) =~= pre + (seq![
                        mv,
                    ] + spec_parse_mounts(ldv.skip(i + 1))));
                }
            },
            None => {},
        }
        i += 1;
    }
    proof {
        assert(ldv.skip(n as int).len() == 0);
        assert(mounts_view(out@) + spec_parse_mounts(ldv.skip(n as int)) =~= mounts_view(out@));
    }
    out
}

} // verus!
