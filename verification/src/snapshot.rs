//! Snapshots and the snapshot backend.
//!
//! A snapshot is plain data: an identifier, a creation timestamp, an
//! optional description and, when known, the package state it captures.
//! Discovering which backend tool exists on the machine and enumerating its
//! snapshots is process and filesystem work done by the surrounding binary;
//! the choice among the findings is made here.

use vstd::multiset::Multiset;
use vstd::prelude::*;

use crate::errors::TraceError;
use crate::package_diff::Package;
use crate::text::{
    contains_substr, join_with_spaces, lemma_lex_le_total, lemma_lex_le_trans, lex_le,
    spec_contains, spec_fields, spec_join_sp, spec_lex_le, spec_lines, spec_tokens, spec_trim,
    split_fields, split_lines, split_tokens, trim_str, views_of,
};

verus! {

broadcast use vstd::seq_lib::group_to_multiset_ensures;

/// One system snapshot, as listed by a backend.
#[derive(Debug, PartialEq, Eq)]
pub struct Snapshot {
    pub id: String,
    pub created_at: String,
    pub description: Option<String>,
    /// The package state the snapshot captures, when it is known.
    pub packages: Option<Vec<Package>>,
    pub package_count: Option<usize>,
}

impl Clone for Snapshot {
    fn clone(&self) -> (r: Self)
        ensures
            r.id == self.id,
            r.created_at == self.created_at,
            r.description == self.description,
            r.package_count == self.package_count,
            r.packages is Some <==> self.packages is Some,
            r.packages is Some ==> r.packages->0@ == self.packages->0@,
    {
        let description = match &self.description {
            Some(d) => Some(d.clone()),
            None => None,
        };
        let packages = match &self.packages {
            Some(ps) => Some(clone_packages(ps)),
            None => None,
        };
        Snapshot {
            id: self.id.clone(),
            created_at: self.created_at.clone(),
            description,
            packages,
            package_count: self.package_count,
        }
    }
}

fn clone_packages(ps: &Vec<Package>) -> (r: Vec<Package>)
    ensures
        r@ == ps@,
{
    let mut out: Vec<Package> = Vec::new();
    let mut i: usize = 0;
    while i < ps.len()
        invariant
            i <= ps@.len(),
            out@ == ps@.subrange(0, i as int),
        decreases ps@.len() - i,
    {
        out.push(ps[i].clone());
        proof {
            assert(out@ =~= ps@.subrange(0, i as int + 1));
        }
        i = i + 1;
    }
    proof {
        assert(ps@.subrange(0, ps@.len() as int) =~= ps@);
    }
    out
}

/// The package state recorded in a snapshot, where one is recorded. Where
/// none is, the surrounding binary falls back to reading the live system's
/// package list.
pub fn get_packages_for_snapshot(snapshot: &Snapshot) -> (r: Option<&Vec<Package>>)
    ensures
        r is Some <==> snapshot.packages is Some,
        r is Some ==> *r->0 == snapshot.packages->0,
{
    snapshot.packages.as_ref()
}

/// A token without its leading `@` markers.
pub open spec fn spec_trim_at(t: Seq<char>) -> Seq<char>
    decreases t.len(),
{
    if t.len() > 0 && t[0] == '@' {
        spec_trim_at(t.drop_first())
    } else {
        t
    }
}

/// A line of a timeshift listing that names a snapshot: it holds an `@`, is
/// no comment, and has at least two tokens.
pub open spec fn spec_timeshift_line_selected(l: Seq<char>) -> bool {
    spec_contains(l, "@"@) && !(l.len() > 0 && l[0] == '#') && spec_tokens(l).len() >= 2
}

/// The (id, timestamp) pairs named by a timeshift listing's lines: per
/// selected line, the first token without its leading `@`s and the remaining
/// tokens joined by blanks.
pub open spec fn spec_timeshift_entries(lines: Seq<Seq<char>>) -> Seq<(Seq<char>, Seq<char>)>
    decreases lines.len(),
{
    if lines.len() == 0 {
        seq![]
    } else {
        let t = spec_tokens(lines[0]);
        (if spec_timeshift_line_selected(lines[0]) {
            seq![(spec_trim_at(t[0]), spec_join_sp(t.skip(1)))]
        } else {
            seq![]
        }) + spec_timeshift_entries(lines.drop_first())
    }
}

/// The id and timestamp views of a listing.
pub open spec fn snap_entries_of(v: Seq<Snapshot>) -> Seq<(Seq<char>, Seq<char>)> {
    v.map_values(|s: Snapshot| (s.id@, s.created_at@))
}

/// The columns of a snapper table row: the `|`-separated fields, trimmed.
pub open spec fn spec_snapper_fields(l: Seq<char>) -> Seq<Seq<char>> {
    spec_fields(l).map_values(|f: Seq<char>| spec_trim(f))
}

/// The (id, timestamp, description) triples named by a snapper listing's
/// rows from index `from` on: per row with at least five columns, the first,
/// fourth and fifth column.
pub open spec fn spec_snapper_entries(lines: Seq<Seq<char>>, from: int) -> Seq<
    (Seq<char>, Seq<char>, Seq<char>),
>
    decreases lines.len() - from,
{
    if from < 0 || from >= lines.len() {
        seq![]
    } else {
        let f = spec_snapper_fields(lines[from]);
        (if f.len() >= 5 {
            seq![(f[0], f[3], f[4])]
        } else {
            seq![]
        }) + spec_snapper_entries(lines, from + 1)
    }
}

/// The id, timestamp and description views of a listing, a missing
/// description standing as the empty string.
pub open spec fn snap_full_entries_of(v: Seq<Snapshot>) -> Seq<(Seq<char>, Seq<char>, Seq<char>)> {
    v.map_values(
        |s: Snapshot|
            (
                s.id@,
                s.created_at@,
                match s.description {
                    Some(d) => d@,
                    None => Seq::<char>::empty(),
                },
            ),
    )
}

/// A token without its leading `@` markers.
fn trim_at_signs(s: &str) -> (r: String)
    ensures
        r@ == spec_trim_at(s@),
{
    let n: usize = s.unicode_len();
    let mut a: usize = 0;
    proof {
        assert(s@.skip(0) =~= s@);
    }
    while a < n && s.get_char(a) == '@'
        invariant
            a <= n,
            n == s@.len(),
            spec_trim_at(s@) == spec_trim_at(s@.skip(a as int)),
        decreases n - a,
    {
        proof {
            assert(s@.skip(a as int)[0] == s@[a as int]);
            assert(s@.skip(a as int).drop_first() =~= s@.skip(a as int + 1));
        }
        a = a + 1;
    }
    proof {
        if a < n {
            assert(s@.skip(a as int)[0] == s@[a as int]);
        } else {
            assert(s@.skip(a as int) =~= Seq::<char>::empty());
        }
        assert(spec_trim_at(s@) == s@.skip(a as int));
        assert(s@.skip(a as int) =~= s@.subrange(a as int, n as int));
    }
    String::from_str(s.substring_char(a, n))
}

/// The listing is ordered newest first: the creation timestamps never grow
/// along it.
pub open spec fn spec_sorted_by_date_desc(v: Seq<Snapshot>) -> bool {
    forall|i: int, j: int|
        0 <= i < j < v.len() ==> spec_lex_le(
            (#[trigger] v[j]).created_at@, (#[trigger] v[i]).created_at@)
}

/// Orders a listing newest first, by creation timestamp: the result holds
/// exactly the given snapshots, with the timestamps never growing along it.
/// Timestamps in a year-month-day hour-minute-second shape order
/// chronologically under this lexicographic comparison.
pub fn sort_snapshots_by_date(snapshots: Vec<Snapshot>) -> (r: Vec<Snapshot>)
    ensures
        spec_sorted_by_date_desc(r@),
        r@.to_multiset() == snapshots@.to_multiset(),
{
    let mut rest = snapshots;
    let mut out: Vec<Snapshot> = Vec::new();
    proof {
        assert(out@.to_multiset().add(rest@.to_multiset()) =~= rest@.to_multiset());
    }
    while rest.len() > 0
        invariant
            spec_sorted_by_date_desc(out@),
            out@.to_multiset().add(rest@.to_multiset()) == snapshots@.to_multiset(),
        decreases rest@.len(),
    {
        let ghost old_rest = rest@;
        let ghost old_out = out@;
        let x = rest.remove(0);
        proof {
            assert(old_rest[0] == x);
            assert(old_rest.contains(x));
            assert(rest@ =~= old_rest.remove(0));
            assert(rest@.to_multiset() =~= old_rest.to_multiset().remove(x));
        }
        let mut j: usize = 0;
        while j < out.len() && lex_le(x.created_at.as_str(), out[j].created_at.as_str())
            invariant
                j <= out@.len(),
                forall|k: int|
                    0 <= k < j ==> spec_lex_le(x.created_at@, (#[trigger] out@[k]).created_at@),
            decreases out@.len() - j,
        {
            j = j + 1;
        }
        proof {
            if j < out@.len() {
                lemma_lex_le_total(x.created_at@, out@[j as int].created_at@);
                assert(spec_lex_le(out@[j as int].created_at@, x.created_at@));
            }
        }
        out.insert(j, x);
        proof {
            assert(out@ == old_out.insert(j as int, x));
            assert forall|p: int, q: int| 0 <= p < q < out@.len() implies spec_lex_le(
                (#[trigger] out@[q]).created_at@, (#[trigger] out@[p]).created_at@) by {
                if q < j {
                    assert(out@[p] == old_out[p] && out@[q] == old_out[q]);
                } else if p > j {
                    assert(out@[p] == old_out[p - 1] && out@[q] == old_out[q - 1]);
                } else if p < j && q == j {
                    assert(out@[p] == old_out[p]);
                    assert(out@[q] == x);
                } else if p == j && q > j {
                    assert(out@[p] == x);
                    assert(out@[q] == old_out[q - 1]);
                    if q - 1 > j {
                        assert(spec_lex_le(old_out[q - 1].created_at@, old_out[
                            j as int].created_at@));
                        lemma_lex_le_trans(
                            old_out[q - 1].created_at@,
                            old_out[j as int].created_at@,
                            x.created_at@,
                        );
                    }
                } else {
                    assert(p < j && q > j);
                    assert(out@[p] == old_out[p]);
                    assert(out@[q] == old_out[q - 1]);
                    if q - 1 > p {
                        assert(spec_lex_le(old_out[q - 1].created_at@, old_out[p].created_at@));
                    }
                }
            }
            let t = old_out.insert(j as int, x);
            assert(t.remove(j as int) =~= old_out);
            assert(t.remove(j as int).to_multiset() =~= t.to_multiset().remove(t[j as int]));
            assert(t[j as int] == x);
            assert(t.contains(x));
            assert(t.to_multiset().count(x) > 0);
            assert(t.to_multiset() =~= old_out.to_multiset().insert(x));
            assert(out@.to_multiset().add(rest@.to_multiset()) =~= old_out.to_multiset().add(
                old_rest.to_multiset()));
        }
    }
    proof {
        assert(rest@.to_multiset() =~= Multiset::<Snapshot>::empty());
        assert(out@.to_multiset().add(Multiset::<Snapshot>::empty()) =~= out@.to_multiset());
    }
    out
}

/// The snapshot tools this library knows of.
#[derive(Debug, Clone, Copy, PartialEq, Eq, Structural)]
pub enum SnapshotBackend {
    Timeshift,
    Snapper,
    Btrfs,
    Lvm,
}

/// Which backend serves this machine, chosen once from what probing found.
#[derive(Debug)]
pub struct SnapshotManager {
    backend: SnapshotBackend,
}

/// The backend picked from the probe results, by priority: a timeshift
/// installation wins, then snapper, then a btrfs snapshot directory.
pub open spec fn spec_backend_choice(
    timeshift_available: bool,
    snapper_available: bool,
    btrfs_snapshots_present: bool,
) -> Option<SnapshotBackend> {
    if timeshift_available {
        Some(SnapshotBackend::Timeshift)
    } else if snapper_available {
        Some(SnapshotBackend::Snapper)
    } else if btrfs_snapshots_present {
        Some(SnapshotBackend::Btrfs)
    } else {
        None
    }
}

/// Some snapshot of the listing carries this id.
pub open spec fn has_id(s: Seq<Snapshot>, id: Seq<char>) -> bool {
    exists|i: int| 0 <= i < s.len() && (#[trigger] s[i].id)@ == id
}

/// The first snapshot of the listing carrying this id (meaningful only when
/// one exists).
pub open spec fn lookup_snapshot(s: Seq<Snapshot>, id: Seq<char>) -> Snapshot
    decreases s.len(),
{
    if s.len() == 0 {
        arbitrary()
    } else if s[0].id@ == id {
        s[0]
    } else {
        lookup_snapshot(s.drop_first(), id)
    }
}

proof fn lemma_lookup_snapshot_first(s: Seq<Snapshot>, id: Seq<char>, i: int)
    requires
        0 <= i < s.len(),
        s[i].id@ == id,
        forall|k: int| 0 <= k < i ==> (#[trigger] s[k].id)@ != id,
    ensures
        has_id(s, id),
        lookup_snapshot(s, id) == s[i],
    decreases i,
{
    if i > 0 {
        assert(forall|k: int| 0 <= k < i - 1 ==> (#[trigger] s.drop_first()[k].id)@ == s[k
            + 1].id@);
        lemma_lookup_snapshot_first(s.drop_first(), id, i - 1);
        assert(s.drop_first()[i - 1] == s[i]);
    }
}

impl SnapshotManager {
    /// The chosen backend.
    pub closed spec fn spec_backend(&self) -> SnapshotBackend {
        self.backend
    }

    /// Picks the backend from what probing the machine found, failing with
    /// `NoSnapshotBackend` when there is none to use.
    pub fn new(
        timeshift_available: bool,
        snapper_available: bool,
        btrfs_snapshots_present: bool,
    ) -> (r: Result<SnapshotManager, TraceError>)
        ensures
            r is Ok <==> spec_backend_choice(
                timeshift_available, snapper_available, btrfs_snapshots_present) is Some,
            r is Ok ==> Some(r->Ok_0.spec_backend()) == spec_backend_choice(
                timeshift_available, snapper_available, btrfs_snapshots_present),
            r is Err ==> r->Err_0 == TraceError::NoSnapshotBackend,
    {
        if timeshift_available {
            Ok(SnapshotManager { backend: SnapshotBackend::Timeshift })
        } else if snapper_available {
            Ok(SnapshotManager { backend: SnapshotBackend::Snapper })
        } else if btrfs_snapshots_present {
            Ok(SnapshotManager { backend: SnapshotBackend::Btrfs })
        } else {
            Err(TraceError::NoSnapshotBackend)
        }
    }

    /// The backend's display name.
    pub fn backend_name(&self) -> (r: &'static str)
        ensures
            self.spec_backend() == SnapshotBackend::Timeshift ==> r@ == "Timeshift"@,
            self.spec_backend() == SnapshotBackend::Snapper ==> r@ == "Snapper"@,
            self.spec_backend() == SnapshotBackend::Btrfs ==> r@ == "BTRFS"@,
            self.spec_backend() == SnapshotBackend::Lvm ==> r@ == "LVM"@,
    {
        match self.backend {
            SnapshotBackend::Timeshift => "Timeshift",
            SnapshotBackend::Snapper => "Snapper",
            SnapshotBackend::Btrfs => "BTRFS",
            SnapshotBackend::Lvm => "LVM",
        }
    }

    /// Parses the listing the timeshift tool prints. Every line that holds an
    /// `@`, is no comment and has at least two tokens names a snapshot: the
    /// first token, without its leading `@`s, is the id, and the remaining
    /// tokens joined by blanks are the creation timestamp.
    pub fn list_timeshift_snapshots(&self, output: &str) -> (r: Vec<Snapshot>)
        ensures
            snap_entries_of(r@) == spec_timeshift_entries(spec_lines(output@)),
            forall|k: int|
                0 <= k < r@.len() ==> (#[trigger] r@[k]).description is None && r@[k].packages
                    is None && r@[k].package_count is None,
    {
        let ghost l = spec_lines(output@);
        let lines = split_lines(output);
        let nl: usize = lines.len();
        let mut out: Vec<Snapshot> = Vec::new();
        let mut i: usize = 0;
        proof {
            assert(l.skip(0) =~= l);
            assert(snap_entries_of(out@) + spec_timeshift_entries(l) =~= spec_timeshift_entries(
                l));
        }
        while i < nl
            invariant
                nl == lines@.len(),
                i <= nl,
                views_of(lines@) == l,
                spec_timeshift_entries(l) == snap_entries_of(out@) + spec_timeshift_entries(
                    l.skip(i as int)),
                forall|k: int|
                    0 <= k < out@.len() ==> (#[trigger] out@[k]).description is None
                        && out@[k].packages is None && out@[k].package_count is None,
            decreases nl - i,
        {
            proof {
                assert(l.skip(i as int)[0] == l[i as int]);
                assert(l[i as int] == lines@[i as int]@);
                assert(l.skip(i as int).drop_first() =~= l.skip(i as int + 1));
            }
            let line = lines[i].as_str();
            let has_at = contains_substr(line, "@");
            let comment = line.unicode_len() > 0 && line.get_char(0) == '#';
            let tokens = split_tokens(line);
            proof {
                assert(views_of(tokens@).len() == tokens@.len());
            }
            if has_at && !comment && tokens.len() >= 2 {
                proof {
                    assert(spec_timeshift_line_selected(l[i as int]));
                    assert(views_of(tokens@)[0] == tokens@[0]@);
                }
                let id = trim_at_signs(tokens[0].as_str());
                let date = join_with_spaces(&tokens, 1);
                proof {
                    assert(views_of(tokens@).skip(1) =~= spec_tokens(l[i as int]).skip(1));
                }
                out.push(
                    Snapshot {
                        id,
                        created_at: date,
                        description: None,
                        packages: None,
                        package_count: None,
                    },
                );
                proof {
                    let t = spec_tokens(l[i as int]);
                    assert(snap_entries_of(out@) =~= snap_entries_of(out@.drop_last()).push(
                        (spec_trim_at(t[0]), spec_join_sp(t.skip(1)))));
                    assert(snap_entries_of(out@.drop_last()) + (seq![
                        (spec_trim_at(t[0]), spec_join_sp(t.skip(1))),
                    ] + spec_timeshift_entries(l.skip(i as int + 1))) =~= snap_entries_of(out@)
                        + spec_timeshift_entries(l.skip(i as int + 1)));
                }
            } else {
                proof {
                    assert(!spec_timeshift_line_selected(l[i as int]));
                }
            }
            i = i + 1;
        }
        proof {
            assert(l.skip(nl as int) =~= Seq::<Seq<char>>::empty());
            assert(snap_entries_of(out@) + spec_timeshift_entries(Seq::<Seq<char>>::empty())
                =~= snap_entries_of(out@));
        }
        out
    }

    /// Parses the listing the snapper tool prints: a table with `|`-separated
    /// columns and two header lines. Of every later row with at least five
    /// columns, trimmed of whitespace, the first is the id, the fourth the
    /// creation timestamp and the fifth the description (none when blank).
    pub fn list_snapper_snapshots(&self, output: &str) -> (r: Vec<Snapshot>)
        ensures
            ({
                let entries = spec_snapper_entries(spec_lines(output@), 2);
                &&& r@.len() == entries.len()
                &&& forall|k: int|
                    0 <= k < r@.len() ==> {
                        &&& (#[trigger] r@[k]).id@ == entries[k].0
                        &&& r@[k].created_at@ == entries[k].1
                        &&& (r@[k].description is Some <==> entries[k].2.len() > 0)
                        &&& (r@[k].description is Some ==> r@[k].description->0@ == entries[k].2)
                        &&& r@[k].packages is None
                        &&& r@[k].package_count is None
                    }
            }),
    {
        let ghost l = spec_lines(output@);
        let lines = split_lines(output);
        let nl: usize = lines.len();
        let mut out: Vec<Snapshot> = Vec::new();
        let mut i: usize = 2;
        proof {
            assert(snap_full_entries_of(out@) + spec_snapper_entries(l, 2)
                =~= spec_snapper_entries(l, 2));
        }
        while i < nl
            invariant
                nl == lines@.len(),
                2 <= i,
                i <= nl || i == 2,
                views_of(lines@) == l,
                spec_snapper_entries(l, 2) == snap_full_entries_of(out@) + spec_snapper_entries(
                    l, i as int),
                forall|k: int|
                    0 <= k < out@.len() ==> (#[trigger] out@[k]).packages is None
                        && out@[k].package_count is None && (out@[k].description is Some
                        ==> out@[k].description->0@.len() > 0),
            decreases nl - i,
        {
            proof {
                assert(l[i as int] == lines@[i as int]@);
            }
            let line = lines[i].as_str();
            let fields = split_fields(line);
            let mut trimmed: Vec<String> = Vec::new();
            let mut j: usize = 0;
            while j < fields.len()
                invariant
                    j <= fields@.len(),
                    views_of(trimmed@) == views_of(fields@).subrange(0, j as int).map_values(
                        |f: Seq<char>| spec_trim(f)),
                decreases fields@.len() - j,
            {
                let ghost old_trimmed = trimmed@;
                proof {
                    assert(views_of(old_trimmed).len() == old_trimmed.len());
                    assert(views_of(fields@).subrange(0, j as int).map_values(
                        |f: Seq<char>| spec_trim(f)).len() == j as int);
                    assert(old_trimmed.len() == j as int);
                }
                trimmed.push(trim_str(fields[j].as_str()));
                proof {
                    assert(trimmed@[j as int]@ == spec_trim(fields@[j as int]@));
                    assert forall|t: int| 0 <= t < trimmed@.len() implies views_of(trimmed@)[t]
                        == views_of(fields@).subrange(0, j as int + 1).map_values(
                        |f: Seq<char>| spec_trim(f))[t] by {
                        if t < j {
                            assert(views_of(old_trimmed)[t] == views_of(fields@).subrange(
                                0, j as int).map_values(|f: Seq<char>| spec_trim(f))[t]);
                        }
                    }
                    assert(views_of(trimmed@) =~= views_of(fields@).subrange(
                        0, j as int + 1).map_values(|f: Seq<char>| spec_trim(f)));
                }
                j = j + 1;
            }
            proof {
                assert(views_of(fields@).subrange(0, fields@.len() as int) =~= views_of(fields@));
                assert(views_of(trimmed@) =~= spec_snapper_fields(l[i as int]));
            }
            if trimmed.len() >= 5 {
                let id = trimmed[0].clone();
                let date = trimmed[3].clone();
                let description = if trimmed[4].as_str().unicode_len() > 0 {
                    Some(trimmed[4].clone())
                } else {
                    None
                };
                proof {
                    assert(views_of(trimmed@)[0] == trimmed@[0]@);
                    assert(views_of(trimmed@)[3] == trimmed@[3]@);
                    assert(views_of(trimmed@)[4] == trimmed@[4]@);
                }
                out.push(
                    Snapshot {
                        id,
                        created_at: date,
                        description,
                        packages: None,
                        package_count: None,
                    },
                );
                proof {
                    let f = spec_snapper_fields(l[i as int]);
                    assert(out@.last().id@ == f[0]);
                    assert(out@.last().created_at@ == f[3]);
                    assert((match out@.last().description {
                        Some(d) => d@,
                        None => Seq::<char>::empty(),
                    }) == f[4]) by {
                        if out@.last().description is None {
                            assert(f[4].len() == 0);
                            assert(f[4] =~= Seq::<char>::empty());
                        }
                    }
                    assert(snap_full_entries_of(out@) =~= snap_full_entries_of(
                        out@.drop_last()).push((f[0], f[3], f[4])));
                    assert(snap_full_entries_of(out@.drop_last()) + (seq![(f[0], f[3], f[4])]
                        + spec_snapper_entries(l, i as int + 1)) =~= snap_full_entries_of(out@)
                        + spec_snapper_entries(l, i as int + 1));
                }
            }
            i = i + 1;
        }
        proof {
            assert(snap_full_entries_of(out@) + spec_snapper_entries(l, i as int)
                =~= snap_full_entries_of(out@));
            let entries = spec_snapper_entries(l, 2);
            assert(forall|k: int|
                0 <= k < out@.len() ==> snap_full_entries_of(out@)[k] == (
                (#[trigger] out@[k]).id@, out@[k].created_at@, match out@[k].description {
                    Some(d) => d@,
                    None => Seq::<char>::empty(),
                }));
        }
        out
    }

    /// LVM snapshots are not enumerated by this build: the listing is empty.
    pub fn list_lvm_snapshots(&self) -> (r: Vec<Snapshot>)
        ensures
            r@.len() == 0,
    {
        Vec::new()
    }

    /// Finds a snapshot by id in a listing the backend produced, failing
    /// with `SnapshotNotFound` when the listing has no such id.
    pub fn get_snapshot(&self, snapshots: &Vec<Snapshot>, id: &String) -> (r: Result<
        Snapshot,
        TraceError,
    >)
        ensures
            r is Ok <==> has_id(snapshots@, id@),
            r is Ok ==> ({
                let found = lookup_snapshot(snapshots@, id@);
                &&& r->Ok_0.id == found.id
                &&& r->Ok_0.created_at == found.created_at
                &&& r->Ok_0.description == found.description
                &&& r->Ok_0.package_count == found.package_count
                &&& (r->Ok_0.packages is Some <==> found.packages is Some)
                &&& (r->Ok_0.packages is Some ==> r->Ok_0.packages->0@ == found.packages->0@)
            }),
            r is Err ==> r->Err_0 == TraceError::SnapshotNotFound,
    {
        let n: usize = snapshots.len();
        let mut i: usize = 0;
        while i < n
            invariant
                n == snapshots@.len(),
                i <= n,
                forall|k: int| 0 <= k < i ==> (#[trigger] snapshots@[k].id)@ != id@,
            decreases n - i,
        {
            if snapshots[i].id == *id {
                proof {
                    lemma_lookup_snapshot_first(snapshots@, id@, i as int);
                }
                return Ok(snapshots[i].clone());
            }
            i = i + 1;
        }
        Err(TraceError::SnapshotNotFound)
    }
}

} // verus!
