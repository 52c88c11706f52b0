//! Classifying the environment the tool runs in: a normally booted system, a
//! live USB with the broken system mounted, a chroot, a rescue boot, or a
//! boot into an old snapshot.
//!
//! Probing the machine — looking for marker paths, reading mounts, asking
//! the service manager — is filesystem and process work that the surrounding
//! binary performs; it hands the findings here as plain facts, and this
//! module owns every decision made from them.

use vstd::prelude::*;

use crate::errors::TraceError;
use crate::text::{contains_substr, spec_contains, spec_lines, split_lines, views_of};

verus! {

#[derive(Debug, Clone, Copy, PartialEq, Eq, Structural)]
pub enum RecoveryType {
    /// The system booted normally.
    Normal,
    /// Running from a live USB, with the broken system mounted elsewhere.
    LiveUSB,
    /// Running inside a chroot environment.
    Chroot,
    /// A rescue or emergency (single-user) boot.
    RecoveryMode,
    /// Booted into an old snapshot of the system.
    SnapshotBoot,
}

/// What probing the running system found: plain facts, established by the
/// surrounding binary.
pub struct RecoveryProbe {
    /// A live-USB marker path is present.
    pub live_usb_markers: bool,
    /// The process appears to run inside a chroot.
    pub is_chroot: bool,
    /// The default service-manager target is a rescue or emergency target.
    pub rescue_target: bool,
    /// The root filesystem is mounted from a snapshot.
    pub snapshot_boot: bool,
    /// Where a mounted system was found, if anywhere.
    pub mounted_root: Option<String>,
}

/// How the recovery situation is classified, by priority: live-USB markers
/// win, then a chroot, then a rescue target, then a snapshot boot; otherwise
/// the boot is normal.
pub open spec fn spec_recovery_type(p: RecoveryProbe) -> RecoveryType {
    if p.live_usb_markers {
        RecoveryType::LiveUSB
    } else if p.is_chroot {
        RecoveryType::Chroot
    } else if p.rescue_target {
        RecoveryType::RecoveryMode
    } else if p.snapshot_boot {
        RecoveryType::SnapshotBoot
    } else {
        RecoveryType::Normal
    }
}

/// Where the system to analyze is rooted: on a live USB or in a chroot, the
/// discovered mount point (or the conventional default); otherwise the real
/// root.
pub open spec fn spec_system_root(t: RecoveryType, mounted_root: Option<String>) -> Seq<char> {
    match t {
        RecoveryType::LiveUSB | RecoveryType::Chroot => match mounted_root {
            Some(m) => m@,
            None => "/mnt"@,
        },
        _ => "/"@,
    }
}

/// The classified environment.
#[derive(Debug)]
pub struct RecoveryContext {
    pub is_recovery: bool,
    pub is_chroot: bool,
    pub recovery_type: RecoveryType,
    pub system_root: String,
}

impl RecoveryContext {
    /// Classifies the probe's findings into a recovery context.
    pub fn detect(probe: RecoveryProbe) -> (r: RecoveryContext)
        ensures
            r.recovery_type == spec_recovery_type(probe),
            r.is_recovery == (spec_recovery_type(probe) != RecoveryType::Normal),
            r.is_chroot == probe.is_chroot,
            r.system_root@ == spec_system_root(spec_recovery_type(probe), probe.mounted_root),
    {
        let recovery_type = if probe.live_usb_markers {
            RecoveryType::LiveUSB
        } else if probe.is_chroot {
            RecoveryType::Chroot
        } else if probe.rescue_target {
            RecoveryType::RecoveryMode
        } else if probe.snapshot_boot {
            RecoveryType::SnapshotBoot
        } else {
            RecoveryType::Normal
        };
        let is_recovery = match recovery_type {
            RecoveryType::Normal => false,
            _ => true,
        };
        let system_root = Self::find_system_root(&recovery_type, probe.mounted_root);
        RecoveryContext { is_recovery, is_chroot: probe.is_chroot, recovery_type, system_root }
    }

    /// Picks the root of the system to analyze from the classification and
    /// the discovered mount point, if any.
    pub fn find_system_root(recovery_type: &RecoveryType, mounted_root: Option<String>) -> (r:
        String)
        ensures
            r@ == spec_system_root(*recovery_type, mounted_root),
    {
        match recovery_type {
            RecoveryType::LiveUSB | RecoveryType::Chroot => match mounted_root {
                Some(m) => m,
                None => String::from_str("/mnt"),
            },
            _ => String::from_str("/"),
        }
    }

    /// On a live USB the system to analyze must already be mounted at the
    /// expected root; `system_root_present` says whether it is. Everywhere
    /// else there is nothing to check.
    pub fn ensure_mounted(&self, system_root_present: bool) -> (r: Result<(), TraceError>)
        ensures
            r is Err <==> (self.recovery_type == RecoveryType::LiveUSB && !system_root_present),
            r is Err ==> r->Err_0 == TraceError::SystemNotMounted,
    {
        match self.recovery_type {
            RecoveryType::LiveUSB => {
                if !system_root_present {
                    Err(TraceError::SystemNotMounted)
                } else {
                    Ok(())
                }
            },
            _ => Ok(()),
        }
    }
}

/// A line of an os-release text that states the distribution id.
pub open spec fn spec_id_line(l: Seq<char>) -> bool {
    l.len() >= 3 && l[0] == 'I' && l[1] == 'D' && l[2] == '='
}

/// The line with its leading `ID=` markers removed.
pub open spec fn spec_strip_id_prefix(l: Seq<char>) -> Seq<char>
    decreases l.len(),
{
    if spec_id_line(l) {
        spec_strip_id_prefix(l.skip(3))
    } else {
        l
    }
}

/// The value with its leading double quotes removed.
pub open spec fn spec_trim_quotes_front(t: Seq<char>) -> Seq<char>
    decreases t.len(),
{
    if t.len() > 0 && t[0] == '"' {
        spec_trim_quotes_front(t.drop_first())
    } else {
        t
    }
}

/// The value with its trailing double quotes removed.
pub open spec fn spec_trim_quotes_back(t: Seq<char>) -> Seq<char>
    decreases t.len(),
{
    if t.len() > 0 && t.last() == '"' {
        spec_trim_quotes_back(t.drop_last())
    } else {
        t
    }
}

/// The value without its surrounding double quotes.
pub open spec fn spec_trim_quotes(t: Seq<char>) -> Seq<char> {
    spec_trim_quotes_back(spec_trim_quotes_front(t))
}

/// The distribution id an os-release text states: the first `ID=` line's
/// value, unquoted.
pub open spec fn spec_os_release_id(lines: Seq<Seq<char>>) -> Option<Seq<char>>
    decreases lines.len(),
{
    if lines.len() == 0 {
        None
    } else if spec_id_line(lines[0]) {
        Some(spec_trim_quotes(spec_strip_id_prefix(lines[0])))
    } else {
        spec_os_release_id(lines.drop_first())
    }
}

fn trim_quotes(s: &str) -> (r: String)
    ensures
        r@ == spec_trim_quotes(s@),
{
    let n: usize = s.unicode_len();
    let mut a: usize = 0;
    proof {
        assert(s@.skip(0) =~= s@);
    }
    while a < n && s.get_char(a) == '"'
        invariant
            a <= n,
            n == s@.len(),
            spec_trim_quotes_front(s@) == spec_trim_quotes_front(s@.skip(a as int)),
        decreases n - a,
    {
        proof {
            assert(s@.skip(a as int)[0] == s@[a as int]);
            assert(s@.skip(a as int).drop_first() =~= s@.skip(a as int + 1));
        }
        a = a + 1;
    }
    proof {
        if a < n {
            assert(s@.skip(a as int)[0] == s@[a as int]);
        } else {
            assert(s@.skip(a as int) =~= Seq::<char>::empty());
        }
        assert(spec_trim_quotes_front(s@) == s@.skip(a as int));
        assert(s@.skip(a as int) =~= s@.subrange(a as int, n as int));
    }
    let mut b: usize = n;
    while b > a && s.get_char(b - 1) == '"'
        invariant
            a <= b <= n,
            n == s@.len(),
            spec_trim_quotes(s@) == spec_trim_quotes_back(s@.subrange(a as int, b as int)),
        decreases b,
    {
        proof {
            assert(s@.subrange(a as int, b as int).last() == s@[b as int - 1]);
            assert(s@.subrange(a as int, b as int).drop_last() =~= s@.subrange(
                a as int, b as int - 1));
        }
        b = b - 1;
    }
    proof {
        if b > a {
            assert(s@.subrange(a as int, b as int).last() == s@[b as int - 1]);
        }
        assert(spec_trim_quotes(s@) == s@.subrange(a as int, b as int));
    }
    String::from_str(s.substring_char(a, b))
}

fn strip_id_prefix(line: &str) -> (r: String)
    ensures
        r@ == spec_strip_id_prefix(line@),
{
    let n: usize = line.unicode_len();
    let mut a: usize = 0;
    proof {
        assert(line@.skip(0) =~= line@);
    }
    while n - a >= 3 && line.get_char(a) == 'I' && line.get_char(a + 1) == 'D' && line.get_char(
        a + 2,
    ) == '='
        invariant
            a <= n,
            n == line@.len(),
            spec_strip_id_prefix(line@) == spec_strip_id_prefix(line@.skip(a as int)),
        decreases n - a,
    {
        proof {
            let rest = line@.skip(a as int);
            assert(rest[0] == line@[a as int]);
            assert(rest[1] == line@[a as int + 1]);
            assert(rest[2] == line@[a as int + 2]);
            assert(rest.skip(3) =~= line@.skip(a as int + 3));
        }
        a = a + 3;
    }
    proof {
        let rest = line@.skip(a as int);
        if n - a >= 3 {
            assert(rest[0] == line@[a as int]);
            assert(rest[1] == line@[a as int + 1]);
            assert(rest[2] == line@[a as int + 2]);
        }
        assert(!spec_id_line(rest));
        assert(spec_strip_id_prefix(line@) == rest);
        assert(rest =~= line@.subrange(a as int, n as int));
    }
    String::from_str(line.substring_char(a, n))
}

/// Reads the distribution id out of an os-release text: the value of its
/// first `ID=` line, unquoted, or nothing when no line states one.
pub fn parse_os_release_id(text: &str) -> (r: Option<String>)
    ensures
        r is Some <==> spec_os_release_id(spec_lines(text@)) is Some,
        r is Some ==> Some(r->0@) == spec_os_release_id(spec_lines(text@)),
{
    let ghost l = spec_lines(text@);
    let lines = split_lines(text);
    let nl: usize = lines.len();
    let mut i: usize = 0;
    proof {
        assert(l.skip(0) =~= l);
    }
    while i < nl
        invariant
            nl == lines@.len(),
            i <= nl,
            views_of(lines@) == l,
            l == spec_lines(text@),
            spec_os_release_id(l) == spec_os_release_id(l.skip(i as int)),
        decreases nl - i,
    {
        proof {
            assert(l.skip(i as int)[0] == l[i as int]);
            assert(l[i as int] == lines@[i as int]@);
            assert(l.skip(i as int).drop_first() =~= l.skip(i as int + 1));
        }
        let line = lines[i].as_str();
        let marked = line.unicode_len() >= 3 && line.get_char(0) == 'I' && line.get_char(1)
            == 'D' && line.get_char(2) == '=';
        if marked {
            proof {
                assert(spec_id_line(l[i as int]));
                assert(spec_os_release_id(l.skip(i as int)) == Some(spec_trim_quotes(
                    spec_strip_id_prefix(l[i as int]))));
            }
            let stripped = strip_id_prefix(line);
            return Some(trim_quotes(stripped.as_str()));
        }
        proof {
            assert(!spec_id_line(l[i as int]));
        }
        i = i + 1;
    }
    proof {
        assert(l.skip(nl as int) =~= Seq::<Seq<char>>::empty());
    }
    None
}

/// Whether a root filesystem source string points into a snapshot: it names
/// a snapshot-tool subvolume or a snapshot directory.
pub fn source_is_snapshot(source: &str) -> (r: bool)
    ensures
        r == (spec_contains(source@, "@timeshift"@) || spec_contains(source@, "snapshots"@)),
{
    contains_substr(source, "@timeshift") || contains_substr(source, "snapshots")
}

} // verus!
