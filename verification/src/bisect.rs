//! The bisection engine: binary search over an ordered change list, driven by
//! an external yes/no oracle, narrowing a half-open window `[low, high)` until
//! one change is left.
//!
//! The engine is oracle-agnostic: each step takes the oracle's answer for the
//! question "does the regression occur when only the first `mid` changes are
//! applied?" and shrinks the window accordingly. Asking the oracle — a human
//! test-and-confirm cycle or a scripted test — is the surrounding binary's
//! business. Correctness assumes a monotonic oracle; a flaky or multi-culprit
//! answer sequence still terminates but may converge on the wrong change.

use vstd::prelude::*;

use crate::errors::TraceError;
use crate::package_diff::{
    compute_diff, spec_added, spec_downgraded, spec_removed, spec_upgraded, unique_names, Package,
    PackageChange,
};

verus! {

/// The ceiling of the base-two logarithm (zero for arguments below two).
pub open spec fn log2_ceil(n: nat) -> nat
    decreases n,
{
    if n <= 1 {
        0
    } else {
        1 + log2_ceil((n + 1) / 2)
    }
}

/// `log2_ceil` is monotone.
pub proof fn lemma_log2_ceil_mono(m: nat, n: nat)
    requires
        m <= n,
    ensures
        log2_ceil(m) <= log2_ceil(n),
    decreases n,
{
    if m > 1 {
        lemma_log2_ceil_mono((m + 1) / 2, (n + 1) / 2);
    }
}

/// `log2_ceil` never exceeds its argument.
pub proof fn lemma_log2_ceil_le(n: nat)
    ensures
        log2_ceil(n) <= n,
    decreases n,
{
    if n > 1 {
        lemma_log2_ceil_le((n + 1) / 2);
    }
}

/// The change list a session bisects over, derived from two states: the
/// diff's collections in their fixed order (added, removed, upgraded,
/// downgraded).
pub open spec fn spec_changes_of(a: Seq<Package>, b: Seq<Package>) -> Seq<PackageChange> {
    spec_added(a, b).map_values(|p: Package| PackageChange::Added(p)) + spec_removed(
        a, b).map_values(|p: Package| PackageChange::Removed(p)) + spec_upgraded(a, b).map_values(
        |t: (Package, String, String)| PackageChange::Upgraded(t.0, t.1, t.2)) + spec_downgraded(
        a, b).map_values(|t: (Package, String, String)| PackageChange::Downgraded(t.0, t.1, t.2))
}

/// One bisection session: an immutable ordered change list and a shrinking
/// half-open window `[low, high)` that always contains the culprit (under the
/// monotonic-oracle assumption). The window is owned by the session alone and
/// moves only through `step`.
pub struct BisectSession {
    changes: Vec<PackageChange>,
    low: usize,
    high: usize,
}

impl BisectSession {
    /// The ordered change list under bisection.
    pub closed spec fn changes_seq(&self) -> Seq<PackageChange> {
        self.changes@
    }

    pub closed spec fn spec_low(&self) -> int {
        self.low as int
    }

    pub closed spec fn spec_high(&self) -> int {
        self.high as int
    }

    /// The session invariant: a nonempty window inside the change list.
    pub open spec fn wf(&self) -> bool {
        0 <= self.spec_low() < self.spec_high() <= self.changes_seq().len()
    }

    /// The search is over: exactly one candidate is left.
    pub open spec fn spec_found(&self) -> bool {
        self.spec_high() - self.spec_low() == 1
    }

    /// Builds a session over the difference between two states, rejecting the
    /// pair with `EmptyChangeSet` when nothing changed.
    pub fn new(good_state: &Vec<Package>, bad_state: &Vec<Package>) -> (r: Result<
        BisectSession,
        TraceError,
    >)
        requires
            unique_names(good_state@),
            unique_names(bad_state@),
        ensures
            r is Err <==> spec_changes_of(good_state@, bad_state@).len() == 0,
            r is Err ==> r->Err_0 == TraceError::EmptyChangeSet,
            r is Ok ==> {
                &&& r->Ok_0.wf()
                &&& r->Ok_0.changes_seq() == spec_changes_of(good_state@, bad_state@)
                &&& r->Ok_0.spec_low() == 0
                &&& r->Ok_0.spec_high() == r->Ok_0.changes_seq().len()
            },
    {
        let diff = compute_diff(good_state, bad_state);
        let changes = diff.all_changes();
        Self::from_changes(changes)
    }

    /// Builds a session over an already linearized change list, rejecting the
    /// empty list with `EmptyChangeSet`: bisecting nothing is meaningless.
    pub fn from_changes(changes: Vec<PackageChange>) -> (r: Result<BisectSession, TraceError>)
        ensures
            r is Err <==> changes@.len() == 0,
            r is Err ==> r->Err_0 == TraceError::EmptyChangeSet,
            r is Ok ==> {
                &&& r->Ok_0.wf()
                &&& r->Ok_0.changes_seq() == changes@
                &&& r->Ok_0.spec_low() == 0
                &&& r->Ok_0.spec_high() == changes@.len()
            },
    {
        if changes.len() == 0 {
            Err(TraceError::EmptyChangeSet)
        } else {
            let high = changes.len();
            Ok(BisectSession { changes, low: 0, high })
        }
    }

    /// Rebuilds a session from a persisted window over the same change
    /// list, so that a search interrupted before an oracle answer can resume
    /// where it stopped. A window that holds no change is rejected with
    /// `EmptyChangeSet`.
    pub fn resume(changes: Vec<PackageChange>, low: usize, high: usize) -> (r: Result<
        BisectSession,
        TraceError,
    >)
        ensures
            r is Ok <==> low < high <= changes@.len(),
            r is Err ==> r->Err_0 == TraceError::EmptyChangeSet,
            r is Ok ==> {
                &&& r->Ok_0.wf()
                &&& r->Ok_0.changes_seq() == changes@
                &&& r->Ok_0.spec_low() == low
                &&& r->Ok_0.spec_high() == high
            },
    {
        if low < high && high <= changes.len() {
            Ok(BisectSession { changes, low, high })
        } else {
            Err(TraceError::EmptyChangeSet)
        }
    }

    /// How many changes the session bisects over.
    pub fn total_packages(&self) -> (r: usize)
        ensures
            r == self.changes_seq().len(),
    {
        self.changes.len()
    }

    /// The lower bound of the current window.
    pub fn low_index(&self) -> (r: usize)
        ensures
            r == self.spec_low(),
    {
        self.low
    }

    /// The upper bound of the current window.
    pub fn high_index(&self) -> (r: usize)
        ensures
            r == self.spec_high(),
    {
        self.high
    }

    /// The prefix length to hand to the oracle for the next step.
    pub fn current_mid(&self) -> (r: usize)
        requires
            self.wf(),
        ensures
            r == (self.spec_low() + self.spec_high()) / 2,
    {
        self.low + (self.high - self.low) / 2
    }

    /// Whether the window has shrunk to a single change.
    pub fn found(&self) -> (r: bool)
        requires
            self.wf(),
        ensures
            r == self.spec_found(),
    {
        self.high - self.low == 1
    }

    /// The change at a given position of the list (for display of a test
    /// prefix).
    pub fn change_at(&self, i: usize) -> (r: &PackageChange)
        requires
            i < self.changes_seq().len(),
        ensures
            *r == self.changes_seq()[i as int],
    {
        &self.changes[i]
    }

    /// One bisection step, given the oracle's answer for the prefix of length
    /// `mid = (low + high) / 2`: a reproduced regression confines the culprit
    /// to `[low, mid)`, a clean run to `[mid, high)`. The window shrinks
    /// strictly, and its `log2_ceil` drops by at least one.
    pub fn step(&mut self, reproduces: bool)
        requires
            old(self).wf(),
            !old(self).spec_found(),
        ensures
            final(self).wf(),
            final(self).changes_seq() == old(self).changes_seq(),
            reproduces ==> final(self).spec_low() == old(self).spec_low() && final(
                self).spec_high() == (old(self).spec_low() + old(self).spec_high()) / 2,
            !reproduces ==> final(self).spec_low() == (old(self).spec_low() + old(
                self).spec_high()) / 2 && final(self).spec_high() == old(self).spec_high(),
            final(self).spec_high() - final(self).spec_low() < old(self).spec_high() - old(
                self).spec_low(),
            log2_ceil((final(self).spec_high() - final(self).spec_low()) as nat) < log2_ceil((
                old(self).spec_high() - old(self).spec_low()) as nat),
    {
        let mid = self.low + (self.high - self.low) / 2;
        proof {
            let w = old(self).spec_high() - old(self).spec_low();
            assert(w >= 2);
            assert(mid - old(self).spec_low() <= (w + 1) / 2);
            assert(old(self).spec_high() - mid <= (w + 1) / 2);
            lemma_log2_ceil_mono((mid - old(self).spec_low()) as nat, ((w + 1) / 2) as nat);
            lemma_log2_ceil_mono((old(self).spec_high() - mid) as nat, ((w + 1) / 2) as nat);
        }
        if reproduces {
            self.high = mid;
        } else {
            self.low = mid;
        }
    }

    /// The identified culprit, once the window holds a single change.
    pub fn culprit(&self) -> (r: &PackageChange)
        requires
            self.wf(),
            self.spec_found(),
        ensures
            *r == self.changes_seq()[self.spec_low()],
    {
        &self.changes[self.low]
    }
}

/// Law: for any change list of length `N >= 1` and any true culprit index
/// `k < N`, a monotonic oracle — answering that the regression reproduces for
/// a prefix of length `mid` exactly when `k < mid` — drives the session from
/// `Searching(0, N)` to `Found(k)`, in at most `log2_ceil(N)` steps. Returns
/// the found index and the number of steps taken.
pub fn simulate_monotonic_bisect(changes: Vec<PackageChange>, k: usize) -> (r: (usize, usize))
    requires
        k < changes@.len(),
    ensures
        r.0 == k,
        r.1 <= log2_ceil(changes@.len() as nat),
{
    let ghost n: nat = changes@.len() as nat;
    let session = BisectSession::from_changes(changes);
    let mut session = match session {
        Ok(s) => s,
        Err(_) => vstd::pervasive::unreached(),
    };
    let mut steps: usize = 0;
    proof {
        lemma_log2_ceil_mono((session.spec_high() - session.spec_low()) as nat, n);
        lemma_log2_ceil_le(n);
    }
    while !session.found()
        invariant
            session.wf(),
            session.changes_seq().len() == n,
            session.spec_low() <= k < session.spec_high(),
            steps + log2_ceil((session.spec_high() - session.spec_low()) as nat) <= log2_ceil(n),
            log2_ceil(n) <= n <= usize::MAX,
        decreases session.spec_high() - session.spec_low(),
    {
        let mid = session.current_mid();
        session.step(k < mid);
        steps = steps + 1;
    }
    (session.low_index(), steps)
}

} // verus!
