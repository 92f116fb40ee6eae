//! Version probing: finding a version number in command output and
//! comparing two version strings component by component.

use vstd::prelude::*;
use crate::text::contains_seq;
use crate::text::spec_lines;
use crate::text::spec_parse_u32;
use crate::text::spec_split;
use crate::text::split_lines;
use crate::text::split_on;
use crate::text::str_contains;
use crate::text::str_eq;
use crate::text::str_views;
use crate::text::parse_u32_digits;

verus! {

/// The first substring of `s` shaped like a version number — digits, dot,
/// digits, dot, digits — or nothing when none occurs.
pub uninterp spec fn semver_find(s: Seq<char>) -> Option<Seq<char>>;

/// Relies on `regex::Regex::captures` with the fixed pattern
/// `(\d+\.\d+\.\d+)`: the leftmost match of that pattern, a function of the
/// text alone.
#[verifier::external_body]
fn find_version_match(text: &str) -> (r: Option<String>)
    ensures
        r is Some <==> semver_find(text@) is Some,
        r matches Some(v) ==> (semver_find(text@) matches Some(m) && v@ == m),
{
    match regex::Regex::new(r"(\d+\.\d+\.\d+)") {
        Ok(re) => re.captures(text).and_then(|c| c.get(1)).map(|m| m.as_str().to_string()),
        Err(_) => None,
    }
}

/// The first version-shaped substring of `text`.
pub fn extract_version(text: &str) -> (r: Option<String>)
    ensures
        r is Some <==> semver_find(text@) is Some,
        r matches Some(v) ==> (semver_find(text@) matches Some(m) && v@ == m),
{
    find_version_match(text)
}

// ---------------------------------------------------------------------------
// Per-tool version extraction from the status listing
// ---------------------------------------------------------------------------

/// The heading that introduces each tool's block in the status listing.
pub open spec fn spec_tool_marker(tool: Seq<char>) -> Option<Seq<char>> {
    if tool == "cc-cli"@ {
        Some("CC CLI"@)
    } else if tool == "codex"@ {
        Some("CodeX"@)
    } else if tool == "gemini-cli"@ {
        Some("Gemini CLI"@)
    } else {
        None
    }
}

/// Line `0` starts a hit: it holds the marker and is followed by a version
/// line.
pub open spec fn hit_here(lines: Seq<Seq<char>>, marker: Seq<char>) -> bool {
    lines.len() >= 2 && contains_seq(lines[0], marker) && contains_seq(lines[1], "版本:"@)
}

/// The first line index where the marker is followed by a version line, or
/// `lines.len()` when there is none.
pub open spec fn first_hit(lines: Seq<Seq<char>>, marker: Seq<char>) -> int
    decreases lines.len(),
{
    if lines.len() == 0 {
        0
    } else if hit_here(lines, marker) {
        0
    } else {
        1 + first_hit(lines.drop_first(), marker)
    }
}

proof fn lemma_first_hit_is(lines: Seq<Seq<char>>, marker: Seq<char>, k: int)
    requires
        0 <= k <= lines.len(),
        forall|j: int|
            0 <= j < k ==> !(j + 1 < lines.len() && contains_seq(#[trigger] lines[j], marker)
                && contains_seq(lines[j + 1], "版本:"@)),
        k < lines.len() ==> k + 1 < lines.len() && contains_seq(lines[k], marker) && contains_seq(
            lines[k + 1],
            "版本:"@,
        ),
    ensures
        first_hit(lines, marker) == k,
        k < lines.len() ==> hit_here(lines.skip(k), marker),
    decreases k,
{
    if k == 0 {
        if lines.len() > 0 && !hit_here(lines, marker) {
            assert(!(0 + 1 < lines.len() && contains_seq(lines[0], marker) && contains_seq(
                lines[1],
                "版本:"@,
            )));
            assert(k < lines.len() ==> false);
        }
        assert(lines.skip(0) =~= lines);
    } else {
        assert(!hit_here(lines, marker));
        assert forall|j: int|
            0 <= j < k - 1 implies !(j + 1 < lines.drop_first().len() && contains_seq(
            #[trigger] lines.drop_first()[j],
            marker,
        ) && contains_seq(lines.drop_first()[j + 1], "版本:"@)) by {
            assert(lines.drop_first()[j] == lines[j + 1]);
            if j + 2 < lines.len() {
                assert(lines.drop_first()[j + 1] == lines[j + 2]);
            }
        }
        if k - 1 < lines.drop_first().len() {
            assert(lines.drop_first()[k - 1] == lines[k]);
            if k < lines.drop_first().len() {
                assert(lines.drop_first()[k] == lines[k + 1]);
            }
        }
        lemma_first_hit_is(lines.drop_first(), marker, k - 1);
        assert(lines.drop_first().skip(k - 1) =~= lines.skip(k));
    }
}

/// The tool's version in the status listing: the version number on the line
/// after the first heading line that names the tool and is followed by a
/// version line.
pub open spec fn spec_extract_version_for_tool(text: Seq<char>, tool: Seq<char>) -> Option<
    Seq<char>,
> {
    match spec_tool_marker(tool) {
        None => None,
        Some(marker) => {
            let lines = spec_lines(text);
            let i = first_hit(lines, marker);
            if i < lines.len() {
                semver_find(lines[i + 1])
            } else {
                None
            }
        },
    }
}

/// Finds the version of one tool in the status listing `text`.
#[verifier::loop_isolation(false)]
pub fn extract_version_for_tool(text: &str, tool: &str) -> (r: Option<String>)
    ensures
        r is Some <==> spec_extract_version_for_tool(text@, tool@) is Some,
        r matches Some(v) ==> (spec_extract_version_for_tool(text@, tool@) matches Some(m) && v@
            == m),
{
    let marker: &str = if str_eq(tool, "cc-cli") {
        "CC CLI"
    } else if str_eq(tool, "codex") {
        "CodeX"
    } else if str_eq(tool, "gemini-cli") {
        "Gemini CLI"
    } else {
        return None;
    };
    let lines = split_lines(text);
    let ghost lv = str_views(lines@);
    let n = lines.len();
    let mut i: usize = 0;
    while n > 0 && i < n - 1
        invariant
            0 <= i <= n,
            forall|j: int|
                0 <= j < i ==> !(j + 1 < lv.len() && contains_seq(#[trigger] lv[j], marker@)
                    && contains_seq(lv[j + 1], "版本:"@)),
        decreases n - i,
    {
        if str_contains(lines[i].as_str(), marker) && str_contains(lines[i + 1].as_str(), "版本:")
        {
            proof {
                lemma_first_hit_is(lv, marker@, i as int);
            }
            return extract_version(lines[i + 1].as_str());
        }
        i += 1;
    }
    proof {
        lemma_first_hit_is(lv, marker@, n as int);
    }
    None
}

// ---------------------------------------------------------------------------
// Version comparison
// ---------------------------------------------------------------------------

/// The numeric components of a split version string: each dot-separated
/// field that parses as a plain decimal number, in order; fields that do not
/// parse are dropped.
pub open spec fn spec_version_parts(parts: Seq<Seq<char>>) -> Seq<u32>
    decreases parts.len(),
{
    if parts.len() == 0 {
        Seq::empty()
    } else {
        let rest = spec_version_parts(parts.drop_first());
        match spec_parse_u32(parts[0]) {
            Some(v) => seq![v] + rest,
            None => rest,
        }
    }
}

/// The component at `i`, with missing components read as `0`.
pub open spec fn part_or_zero(v: Seq<u32>, i: int) -> u32 {
    if 0 <= i < v.len() {
        v[i]
    } else {
        0
    }
}

/// Whether `lat` is strictly newer than `cur` on the first three
/// components.
pub open spec fn spec_newer(cur: Seq<u32>, lat: Seq<u32>) -> bool {
    if part_or_zero(lat, 0) != part_or_zero(cur, 0) {
        part_or_zero(lat, 0) > part_or_zero(cur, 0)
    } else if part_or_zero(lat, 1) != part_or_zero(cur, 1) {
        part_or_zero(lat, 1) > part_or_zero(cur, 1)
    } else {
        part_or_zero(lat, 2) > part_or_zero(cur, 2)
    }
}

/// Whether `latest` is strictly newer than `current`.
pub open spec fn spec_compare_versions(current: Seq<char>, latest: Seq<char>) -> bool {
    spec_newer(
        spec_version_parts(spec_split(current, '.')),
        spec_version_parts(spec_split(latest, '.')),
    )
}

/// The numeric components of a version string.
#[verifier::loop_isolation(false)]
fn version_parts(s: &str) -> (r: Vec<u32>)
    ensures
        r@ == spec_version_parts(spec_split(s@, '.')),
{
    let parts = split_on(s, '.');
    let ghost pv = str_views(parts@);
    let mut out: Vec<u32> = Vec::new();
    let n = parts.len();
    let mut i: usize = 0;
    proof {
        assert(pv.skip(0) =~= pv);
        assert(out@ + spec_version_parts(pv) =~= spec_version_parts(pv));
    }
    while i < n
        invariant
            0 <= i <= n,
            out@ + spec_version_parts(pv.skip(i as int)) == spec_version_parts(pv),
        decreases n - i,
    {
        proof {
            assert(pv.skip(i as int).drop_first() =~= pv.skip(i + 1));
            assert(pv.skip(i as int)[0] == pv[i as int]);
        }
        match parse_u32_digits(parts[i].as_str()) {
            Some(v) => {
                out.push(v);
                proof {
                    assert(out@ =~= out@.drop_last() + seq![v]);
                    assert(out@.drop_last() + (seq![v] + spec_version_parts(pv.skip(i + 1)))
                        =~= out@ + spec_version_parts(pv.skip(i + 1)));
                }
            },
            None => {},
        }
        i += 1;
    }
    proof {
        assert(pv.skip(n as int) =~= Seq::<Seq<char>>::empty());
        assert(out@ + Seq::<u32>::empty() =~= out@);
    }
    out
}

/// Whether `latest` is a strictly newer version than `current`: the first
/// three numeric components decide, missing ones read as zero.
pub fn compare_versions(current: &str, latest: &str) -> (r: bool)
    ensures
        r == spec_compare_versions(current@, latest@),
{
    let cur = version_parts(current);
    let lat = version_parts(latest);
    let c0 = if cur.len() > 0 {
        cur[0]
    } else {
        0
    };
    let c1 = if cur.len() > 1 {
        cur[1]
    } else {
        0
    };
    let c2 = if cur.len() > 2 {
        cur[2]
    } else {
        0
    };
    let l0 = if lat.len() > 0 {
        lat[0]
    } else {
        0
    };
    let l1 = if lat.len() > 1 {
        lat[1]
    } else {
        0
    };
    let l2 = if lat.len() > 2 {
        lat[2]
    } else {
        0
    };
    if l0 != c0 {
        l0 > c0
    } else if l1 != c1 {
        l1 > c1
    } else {
        l2 > c2
    }
}

} // verus!
