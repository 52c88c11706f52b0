//! Parsing the package listings that package managers print, into
//! name/version pairs.
//!
//! Running the package manager and capturing its output is the surrounding
//! binary's business; the text is parsed here. The pairs a parser returns may
//! repeat a name when the listing does; `dedup_packages` turns them into a
//! proper state.

use vstd::prelude::*;

use crate::package_diff::Package;
use crate::text::{spec_lines, spec_tokens, split_lines, split_tokens, views_of};

verus! {

/// The name/version views of a parsed listing.
pub open spec fn pairs_of(v: Seq<Package>) -> Seq<(Seq<char>, Seq<char>)> {
    v.map_values(|p: Package| (p.name@, p.version@))
}

/// The pairs a pacman-style listing yields: of every line with at least two
/// whitespace-separated tokens, the first token is the name and the second
/// the version.
pub open spec fn spec_pacman_pairs(lines: Seq<Seq<char>>) -> Seq<(Seq<char>, Seq<char>)>
    decreases lines.len(),
{
    if lines.len() == 0 {
        seq![]
    } else {
        let t = spec_tokens(lines[0]);
        (if t.len() >= 2 {
            seq![(t[0], t[1])]
        } else {
            seq![]
        }) + spec_pacman_pairs(lines.drop_first())
    }
}

/// A line of a dpkg-style listing that names an installed package: it starts
/// with the installed marker `ii` and has at least three tokens.
pub open spec fn spec_dpkg_line_selected(l: Seq<char>) -> bool {
    l.len() >= 2 && l[0] == 'i' && l[1] == 'i' && spec_tokens(l).len() >= 3
}

/// The pairs a dpkg-style listing yields: of every installed-package line,
/// the second token is the name and the third the version.
pub open spec fn spec_dpkg_pairs(lines: Seq<Seq<char>>) -> Seq<(Seq<char>, Seq<char>)>
    decreases lines.len(),
{
    if lines.len() == 0 {
        seq![]
    } else {
        let t = spec_tokens(lines[0]);
        (if spec_dpkg_line_selected(lines[0]) {
            seq![(t[1], t[2])]
        } else {
            seq![]
        }) + spec_dpkg_pairs(lines.drop_first())
    }
}

/// Parses the listing a pacman-style query prints, one `name version` pair
/// per line; lines with fewer than two tokens carry no package and are
/// skipped.
pub fn parse_pacman_list(output: &str) -> (r: Vec<Package>)
    ensures
        pairs_of(r@) == spec_pacman_pairs(spec_lines(output@)),
{
    let ghost l = spec_lines(output@);
    let lines = split_lines(output);
    let nl: usize = lines.len();
    let mut out: Vec<Package> = Vec::new();
    let mut i: usize = 0;
    proof {
        assert(l.skip(0) =~= l);
        assert(pairs_of(out@) + spec_pacman_pairs(l) =~= spec_pacman_pairs(l));
    }
    while i < nl
        invariant
            nl == lines@.len(),
            i <= nl,
            views_of(lines@) == l,
            spec_pacman_pairs(l) == pairs_of(out@) + spec_pacman_pairs(l.skip(i as int)),
        decreases nl - i,
    {
        proof {
            assert(l.skip(i as int)[0] == l[i as int]);
            assert(l[i as int] == lines@[i as int]@);
            assert(l.skip(i as int).drop_first() =~= l.skip(i as int + 1));
        }
        let tokens = split_tokens(lines[i].as_str());
        proof {
            assert(views_of(tokens@).len() == tokens@.len());
        }
        if tokens.len() >= 2 {
            proof {
                assert(views_of(tokens@)[0] == tokens@[0]@);
                assert(views_of(tokens@)[1] == tokens@[1]@);
            }
            out.push(Package { name: tokens[0].clone(), version: tokens[1].clone() });
            proof {
                assert(pairs_of(out@) =~= pairs_of(out@.drop_last()).push(
                    (spec_tokens(l[i as int])[0], spec_tokens(l[i as int])[1])));
                assert(pairs_of(out@.drop_last()) + (seq![
                    (spec_tokens(l[i as int])[0], spec_tokens(l[i as int])[1]),
                ] + spec_pacman_pairs(l.skip(i as int + 1))) =~= pairs_of(out@)
                    + spec_pacman_pairs(l.skip(i as int + 1)));
            }
        }
        i = i + 1;
    }
    proof {
        assert(l.skip(nl as int) =~= Seq::<Seq<char>>::empty());
        assert(pairs_of(out@) + spec_pacman_pairs(Seq::<Seq<char>>::empty()) =~= pairs_of(out@));
    }
    out
}

/// The index of the last dash of `l`, or `-1` when there is none.
pub open spec fn spec_last_dash(l: Seq<char>) -> int
    decreases l.len(),
{
    if l.len() == 0 {
        -1
    } else if l.last() == '-' {
        l.len() - 1
    } else {
        spec_last_dash(l.drop_last())
    }
}

/// The first position at or after `k` that holds no dash (the end of the
/// run of dashes starting at `k`).
pub open spec fn spec_skip_dashes(l: Seq<char>, k: int) -> int
    decreases l.len() - k,
{
    if !(0 <= k < l.len()) {
        k
    } else if l[k] == '-' {
        spec_skip_dashes(l, k + 1)
    } else {
        k
    }
}

/// A line of an rpm listing that names a package: `name-version-release`,
/// which asks for at least two dashes.
pub open spec fn spec_rpm_line_selected(l: Seq<char>) -> bool {
    spec_last_dash(l) >= 0 && spec_last_dash(l.subrange(0, spec_last_dash(l))) >= 0
}

/// The pair a selected rpm line yields: the name is everything before the
/// second-to-last dash, and the version is the rest with its leading dashes
/// stripped.
pub open spec fn spec_rpm_pair(l: Seq<char>) -> (Seq<char>, Seq<char>) {
    let j2 = spec_last_dash(l.subrange(0, spec_last_dash(l)));
    (l.subrange(0, j2), l.subrange(spec_skip_dashes(l, j2), l.len() as int))
}

/// The pairs an rpm-style listing yields, line by line.
pub open spec fn spec_rpm_pairs(lines: Seq<Seq<char>>) -> Seq<(Seq<char>, Seq<char>)>
    decreases lines.len(),
{
    if lines.len() == 0 {
        seq![]
    } else {
        (if spec_rpm_line_selected(lines[0]) {
            seq![spec_rpm_pair(lines[0])]
        } else {
            seq![]
        }) + spec_rpm_pairs(lines.drop_first())
    }
}

/// The last dash of `s` before position `end`, if any.
fn find_last_dash(s: &str, end: usize) -> (r: Option<usize>)
    requires
        end <= s@.len(),
    ensures
        r is Some ==> r->0 < end && spec_last_dash(s@.subrange(0, end as int)) == r->0,
        r is None ==> spec_last_dash(s@.subrange(0, end as int)) == -1,
{
    let mut k: usize = end;
    while k > 0
        invariant
            k <= end <= s@.len(),
            spec_last_dash(s@.subrange(0, end as int)) == spec_last_dash(
                s@.subrange(0, k as int)),
        decreases k,
    {
        proof {
            assert(s@.subrange(0, k as int).last() == s@[k as int - 1]);
            assert(s@.subrange(0, k as int).drop_last() =~= s@.subrange(0, k as int - 1));
        }
        if s.get_char(k - 1) == '-' {
            return Some(k - 1);
        }
        k = k - 1;
    }
    proof {
        assert(s@.subrange(0, 0).len() == 0);
    }
    None
}

/// Splits one rpm listing line of the shape `name-version-release` into its
/// name and version, if it has the two dashes that shape asks for.
fn rpm_split(line: &str) -> (r: Option<(String, String)>)
    ensures
        r is Some <==> spec_rpm_line_selected(line@),
        r is Some ==> ({
            let p = r->0;
            (p.0@, p.1@) == spec_rpm_pair(line@)
        }),
{
    let n: usize = line.unicode_len();
    proof {
        assert(line@.subrange(0, n as int) =~= line@);
    }
    let j1 = match find_last_dash(line, n) {
        Some(j) => j,
        None => {
            return None;
        },
    };
    let j2 = match find_last_dash(line, j1) {
        Some(j) => j,
        None => {
            return None;
        },
    };
    let mut vs: usize = j2;
    while vs < n && line.get_char(vs) == '-'
        invariant
            j2 <= vs <= n,
            n == line@.len(),
            spec_skip_dashes(line@, j2 as int) == spec_skip_dashes(line@, vs as int),
        decreases n - vs,
    {
        vs = vs + 1;
    }
    let name = String::from_str(line.substring_char(0, j2));
    let version = String::from_str(line.substring_char(vs, n));
    Some((name, version))
}

/// Parses the listing an rpm-style query prints, one
/// `name-version-release.arch` entry per line; a line without the two
/// dashes that shape asks for is skipped.
pub fn parse_rpm_list(output: &str) -> (r: Vec<Package>)
    ensures
        pairs_of(r@) == spec_rpm_pairs(spec_lines(output@)),
{
    let ghost l = spec_lines(output@);
    let lines = split_lines(output);
    let nl: usize = lines.len();
    let mut out: Vec<Package> = Vec::new();
    let mut i: usize = 0;
    proof {
        assert(l.skip(0) =~= l);
        assert(pairs_of(out@) + spec_rpm_pairs(l) =~= spec_rpm_pairs(l));
    }
    while i < nl
        invariant
            nl == lines@.len(),
            i <= nl,
            views_of(lines@) == l,
            spec_rpm_pairs(l) == pairs_of(out@) + spec_rpm_pairs(l.skip(i as int)),
        decreases nl - i,
    {
        proof {
            assert(l.skip(i as int)[0] == l[i as int]);
            assert(l[i as int] == lines@[i as int]@);
            assert(l.skip(i as int).drop_first() =~= l.skip(i as int + 1));
        }
        match rpm_split(lines[i].as_str()) {
            Some(pair) => {
                out.push(Package { name: pair.0, version: pair.1 });
                proof {
                    assert(pairs_of(out@) =~= pairs_of(out@.drop_last()).push(
                        spec_rpm_pair(l[i as int])));
                    assert(pairs_of(out@.drop_last()) + (seq![spec_rpm_pair(l[i as int])]
                        + spec_rpm_pairs(l.skip(i as int + 1))) =~= pairs_of(out@)
                        + spec_rpm_pairs(l.skip(i as int + 1)));
                }
            },
            None => {},
        }
        i = i + 1;
    }
    proof {
        assert(l.skip(nl as int) =~= Seq::<Seq<char>>::empty());
        assert(pairs_of(out@) + spec_rpm_pairs(Seq::<Seq<char>>::empty()) =~= pairs_of(out@));
    }
    out
}

/// Parses the listing a dpkg-style query prints: of each line marked `ii`
/// (an installed package) the second token is the name and the third the
/// version; every other line is skipped.
pub fn parse_dpkg_list(output: &str) -> (r: Vec<Package>)
    ensures
        pairs_of(r@) == spec_dpkg_pairs(spec_lines(output@)),
{
    let ghost l = spec_lines(output@);
    let lines = split_lines(output);
    let nl: usize = lines.len();
    let mut out: Vec<Package> = Vec::new();
    let mut i: usize = 0;
    proof {
        assert(l.skip(0) =~= l);
        assert(pairs_of(out@) + spec_dpkg_pairs(l) =~= spec_dpkg_pairs(l));
    }
    while i < nl
        invariant
            nl == lines@.len(),
            i <= nl,
            views_of(lines@) == l,
            spec_dpkg_pairs(l) == pairs_of(out@) + spec_dpkg_pairs(l.skip(i as int)),
        decreases nl - i,
    {
        proof {
            assert(l.skip(i as int)[0] == l[i as int]);
            assert(l[i as int] == lines@[i as int]@);
            assert(l.skip(i as int).drop_first() =~= l.skip(i as int + 1));
        }
        let line = lines[i].as_str();
        let marked = line.unicode_len() >= 2 && line.get_char(0) == 'i' && line.get_char(1)
            == 'i';
        let tokens = split_tokens(line);
        proof {
            assert(views_of(tokens@).len() == tokens@.len());
        }
        if marked && tokens.len() >= 3 {
            proof {
                assert(spec_dpkg_line_selected(l[i as int]));
                assert(views_of(tokens@)[1] == tokens@[1]@);
                assert(views_of(tokens@)[2] == tokens@[2]@);
            }
            out.push(Package { name: tokens[1].clone(), version: tokens[2].clone() });
            proof {
                assert(pairs_of(out@) =~= pairs_of(out@.drop_last()).push(
                    (spec_tokens(l[i as int])[1], spec_tokens(l[i as int])[2])));
                assert(pairs_of(out@.drop_last()) + (seq![
                    (spec_tokens(l[i as int])[1], spec_tokens(l[i as int])[2]),
                ] + spec_dpkg_pairs(l.skip(i as int + 1))) =~= pairs_of(out@) + spec_dpkg_pairs(
                    l.skip(i as int + 1)));
            }
        } else {
            proof {
                assert(!spec_dpkg_line_selected(l[i as int]));
            }
        }
        i = i + 1;
    }
    proof {
        assert(l.skip(nl as int) =~= Seq::<Seq<char>>::empty());
        assert(pairs_of(out@) + spec_dpkg_pairs(Seq::<Seq<char>>::empty()) =~= pairs_of(out@));
    }
    out
}

} // verus!
