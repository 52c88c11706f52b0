//! The structured difference between two package states.
//!
//! A state is a mapping from package name to version, carried as a vector of
//! packages with pairwise distinct names. `compute_diff` splits the
//! difference between two states into four disjoint collections — added,
//! removed, upgraded, downgraded — and `all_changes` linearizes a diff into
//! the single ordered change list that a bisection partitions over.

use vstd::prelude::*;

use crate::version::{spec_is_upgrade, version_compare};

verus! {

/// One installed package: a name, unique within a state, and its version.
#[derive(Debug, PartialEq, Eq)]
pub struct Package {
    pub name: String,
    pub version: String,
}

impl Clone for Package {
    fn clone(&self) -> (r: Self)
        ensures
            r == *self,
    {
        Package { name: self.name.clone(), version: self.version.clone() }
    }
}

/// One change between two states. Exactly one variant per changed name.
#[derive(Debug, PartialEq, Eq)]
pub enum PackageChange {
    Added(Package),
    Removed(Package),
    /// The package (with its new version), the old version, the new version.
    Upgraded(Package, String, String),
    Downgraded(Package, String, String),
}

impl Clone for PackageChange {
    fn clone(&self) -> (r: Self)
        ensures
            r == *self,
    {
        match self {
            PackageChange::Added(p) => PackageChange::Added(p.clone()),
            PackageChange::Removed(p) => PackageChange::Removed(p.clone()),
            PackageChange::Upgraded(p, o, n) => PackageChange::Upgraded(
                p.clone(),
                o.clone(),
                n.clone(),
            ),
            PackageChange::Downgraded(p, o, n) => PackageChange::Downgraded(
                p.clone(),
                o.clone(),
                n.clone(),
            ),
        }
    }
}

impl PackageChange {
    /// The package the change is about.
    pub open spec fn spec_package(&self) -> Package {
        match self {
            PackageChange::Added(p) => *p,
            PackageChange::Removed(p) => *p,
            PackageChange::Upgraded(p, _, _) => *p,
            PackageChange::Downgraded(p, _, _) => *p,
        }
    }

    /// The name of the package the change is about.
    pub open spec fn spec_name(&self) -> Seq<char> {
        match self {
            PackageChange::Added(p) => p.name@,
            PackageChange::Removed(p) => p.name@,
            PackageChange::Upgraded(p, _, _) => p.name@,
            PackageChange::Downgraded(p, _, _) => p.name@,
        }
    }

    pub fn name(&self) -> (r: &str)
        ensures
            r@ == self.spec_name(),
    {
        match self {
            PackageChange::Added(p) => p.name.as_str(),
            PackageChange::Removed(p) => p.name.as_str(),
            PackageChange::Upgraded(p, _, _) => p.name.as_str(),
            PackageChange::Downgraded(p, _, _) => p.name.as_str(),
        }
    }
}

/// The names of a state are pairwise distinct: it is a mapping.
pub open spec fn unique_names(s: Seq<Package>) -> bool {
    forall|i: int, j: int|
        0 <= i < j < s.len() ==> (#[trigger] s[i].name)@ != (#[trigger] s[j].name)@
}

/// Some package of the state carries this name.
pub open spec fn has_name(s: Seq<Package>, n: Seq<char>) -> bool {
    exists|i: int| 0 <= i < s.len() && (#[trigger] s[i].name)@ == n
}

/// The first package of the state carrying this name (meaningful only when
/// one exists).
pub open spec fn lookup_pkg(s: Seq<Package>, n: Seq<char>) -> Package
    decreases s.len(),
{
    if s.len() == 0 {
        arbitrary()
    } else if s[0].name@ == n {
        s[0]
    } else {
        lookup_pkg(s.drop_first(), n)
    }
}

/// The version the state assigns to this name.
pub open spec fn version_of(s: Seq<Package>, n: Seq<char>) -> Seq<char> {
    lookup_pkg(s, n).version@
}

/// The packages of `b` whose names `a` does not have, in `b`'s order.
pub open spec fn spec_added(a: Seq<Package>, b: Seq<Package>) -> Seq<Package>
    decreases b.len(),
{
    if b.len() == 0 {
        seq![]
    } else if !has_name(a, b[0].name@) {
        seq![b[0]] + spec_added(a, b.drop_first())
    } else {
        spec_added(a, b.drop_first())
    }
}

/// The packages of `a` whose names `b` does not have, in `a`'s order.
pub open spec fn spec_removed(a: Seq<Package>, b: Seq<Package>) -> Seq<Package>
    decreases a.len(),
{
    if a.len() == 0 {
        seq![]
    } else if !has_name(b, a[0].name@) {
        seq![a[0]] + spec_removed(a.drop_first(), b)
    } else {
        spec_removed(a.drop_first(), b)
    }
}

/// A name of both states whose version changed, classified by the version
/// comparator: an upgrade when `upgrade` is true, a downgrade otherwise.
pub open spec fn changed_as(a_pkg: Package, b: Seq<Package>, upgrade: bool) -> bool {
    &&& has_name(b, a_pkg.name@)
    &&& version_of(b, a_pkg.name@) != a_pkg.version@
    &&& spec_is_upgrade(version_of(b, a_pkg.name@), a_pkg.version@) == upgrade
}

/// The upgrade (or downgrade) triple recorded for a package of `a` whose
/// version changed in `b`: the package under its new version, the old
/// version, the new version.
pub open spec fn change_triple(a_pkg: Package, b: Seq<Package>) -> (Package, String, String) {
    (
        Package { name: a_pkg.name, version: lookup_pkg(b, a_pkg.name@).version },
        a_pkg.version,
        lookup_pkg(b, a_pkg.name@).version,
    )
}

/// The upgrade triples, in `a`'s order.
pub open spec fn spec_upgraded(a: Seq<Package>, b: Seq<Package>) -> Seq<(Package, String, String)>
    decreases a.len(),
{
    if a.len() == 0 {
        seq![]
    } else if changed_as(a[0], b, true) {
        seq![change_triple(a[0], b)] + spec_upgraded(a.drop_first(), b)
    } else {
        spec_upgraded(a.drop_first(), b)
    }
}

/// The downgrade triples, in `a`'s order.
pub open spec fn spec_downgraded(a: Seq<Package>, b: Seq<Package>) -> Seq<
    (Package, String, String),
>
    decreases a.len(),
{
    if a.len() == 0 {
        seq![]
    } else if changed_as(a[0], b, false) {
        seq![change_triple(a[0], b)] + spec_downgraded(a.drop_first(), b)
    } else {
        spec_downgraded(a.drop_first(), b)
    }
}

/// The structured difference between two states: four disjoint ordered
/// collections. The order within each is the iteration order of the input
/// states — not semantically meaningful, but stable within one run.
#[derive(Debug, PartialEq, Eq)]
pub struct PackageDiff {
    pub added: Vec<Package>,
    pub removed: Vec<Package>,
    pub upgraded: Vec<(Package, String, String)>,
    pub downgraded: Vec<(Package, String, String)>,
}

/// The first package of `list` named `name`, if any.
fn find_package<'a>(list: &'a Vec<Package>, name: &String) -> (r: Option<&'a Package>)
    ensures
        match r {
            Some(p) => has_name(list@, name@) && *p == lookup_pkg(list@, name@),
            None => !has_name(list@, name@),
        },
{
    let n: usize = list.len();
    let mut i: usize = 0;
    while i < n
        invariant
            n == list@.len(),
            i <= n,
            forall|k: int| 0 <= k < i ==> (#[trigger] list@[k].name)@ != name@,
        decreases n - i,
    {
        if list[i].name == *name {
            proof {
                lemma_lookup_first(list@, name@, i as int);
            }
            return Some(&list[i]);
        }
        i = i + 1;
    }
    None
}

/// `lookup_pkg` finds the first index whose name matches.
proof fn lemma_lookup_first(s: Seq<Package>, n: Seq<char>, i: int)
    requires
        0 <= i < s.len(),
        s[i].name@ == n,
        forall|k: int| 0 <= k < i ==> (#[trigger] s[k].name)@ != n,
    ensures
        has_name(s, n),
        lookup_pkg(s, n) == s[i],
    decreases i,
{
    if i == 0 {
    } else {
        assert(forall|k: int|
            0 <= k < i - 1 ==> (#[trigger] s.drop_first()[k].name)@ == s[k + 1].name@);
        lemma_lookup_first(s.drop_first(), n, i - 1);
        assert(s.drop_first()[i - 1] == s[i]);
    }
}

/// Computes the structured difference between two states: packages of `b`
/// that `a` lacks are added; packages of `a` that `b` lacks are removed; a
/// name of both whose version differs is classified by the version
/// comparator. Never fails; the diff of a state against itself is empty.
pub fn compute_diff(state_a: &Vec<Package>, state_b: &Vec<Package>) -> (r: PackageDiff)
    requires
        unique_names(state_a@),
        unique_names(state_b@),
    ensures
        r.added@ == spec_added(state_a@, state_b@),
        r.removed@ == spec_removed(state_a@, state_b@),
        r.upgraded@ == spec_upgraded(state_a@, state_b@),
        r.downgraded@ == spec_downgraded(state_a@, state_b@),
{
    let na: usize = state_a.len();
    let nb: usize = state_b.len();

    let mut added: Vec<Package> = Vec::new();
    let mut i: usize = 0;
    proof {
        assert(state_b@.skip(0) =~= state_b@);
        assert(added@ + spec_added(state_a@, state_b@) =~= spec_added(state_a@, state_b@));
    }
    while i < nb
        invariant
            nb == state_b@.len(),
            i <= nb,
            spec_added(state_a@, state_b@) == added@ + spec_added(
                state_a@, state_b@.skip(i as int)),
        decreases nb - i,
    {
        proof {
            assert(state_b@.skip(i as int)[0] == state_b@[i as int]);
            assert(state_b@.skip(i as int).drop_first() =~= state_b@.skip(i as int + 1));
        }
        if find_package(state_a, &state_b[i].name).is_none() {
            let p = Package {
                name: state_b[i].name.clone(),
                version: state_b[i].version.clone(),
            };
            proof {
                assert(p == state_b@[i as int]);
            }
            added.push(p);
            proof {
                assert(added@.drop_last() + (seq![state_b@[i as int]] + spec_added(
                    state_a@, state_b@.skip(i as int + 1))) =~= added@ + spec_added(
                    state_a@, state_b@.skip(i as int + 1)));
            }
        }
        i = i + 1;
    }
    proof {
        assert(state_b@.skip(nb as int) =~= Seq::<Package>::empty());
        assert(added@ + spec_added(state_a@, Seq::<Package>::empty()) =~= added@);
    }

    let mut removed: Vec<Package> = Vec::new();
    let mut j: usize = 0;
    proof {
        assert(state_a@.skip(0) =~= state_a@);
        assert(removed@ + spec_removed(state_a@, state_b@) =~= spec_removed(state_a@, state_b@));
    }
    while j < na
        invariant
            na == state_a@.len(),
            j <= na,
            spec_removed(state_a@, state_b@) == removed@ + spec_removed(
                state_a@.skip(j as int), state_b@),
        decreases na - j,
    {
        proof {
            assert(state_a@.skip(j as int)[0] == state_a@[j as int]);
            assert(state_a@.skip(j as int).drop_first() =~= state_a@.skip(j as int + 1));
        }
        if find_package(state_b, &state_a[j].name).is_none() {
            let p = Package {
                name: state_a[j].name.clone(),
                version: state_a[j].version.clone(),
            };
            proof {
                assert(p == state_a@[j as int]);
            }
            removed.push(p);
            proof {
                assert(removed@.drop_last() + (seq![state_a@[j as int]] + spec_removed(
                    state_a@.skip(j as int + 1), state_b@)) =~= removed@ + spec_removed(
                    state_a@.skip(j as int + 1), state_b@));
            }
        }
        j = j + 1;
    }
    proof {
        assert(state_a@.skip(na as int) =~= Seq::<Package>::empty());
        assert(removed@ + spec_removed(Seq::<Package>::empty(), state_b@) =~= removed@);
    }

    let mut upgraded: Vec<(Package, String, String)> = Vec::new();
    let mut downgraded: Vec<(Package, String, String)> = Vec::new();
    let mut k: usize = 0;
    proof {
        assert(state_a@.skip(0) =~= state_a@);
        assert(upgraded@ + spec_upgraded(state_a@, state_b@) =~= spec_upgraded(
            state_a@, state_b@));
        assert(downgraded@ + spec_downgraded(state_a@, state_b@) =~= spec_downgraded(
            state_a@, state_b@));
    }
    while k < na
        invariant
            na == state_a@.len(),
            k <= na,
            spec_upgraded(state_a@, state_b@) == upgraded@ + spec_upgraded(
                state_a@.skip(k as int), state_b@),
            spec_downgraded(state_a@, state_b@) == downgraded@ + spec_downgraded(
                state_a@.skip(k as int), state_b@),
        decreases na - k,
    {
        proof {
            assert(state_a@.skip(k as int)[0] == state_a@[k as int]);
            assert(state_a@.skip(k as int).drop_first() =~= state_a@.skip(k as int + 1));
        }
        let found = find_package(state_b, &state_a[k].name);
        match found {
            Some(bp) => {
                if bp.version != state_a[k].version {
                    let p = Package {
                        name: state_a[k].name.clone(),
                        version: bp.version.clone(),
                    };
                    let old_ver = state_a[k].version.clone();
                    let new_ver = bp.version.clone();
                    proof {
                        assert((p, old_ver, new_ver) == change_triple(
                            state_a@[k as int], state_b@));
                    }
                    if version_compare(new_ver.as_str(), old_ver.as_str()) {
                        upgraded.push((p, old_ver, new_ver));
                        proof {
                            assert(upgraded@.drop_last() + (seq![change_triple(
                                state_a@[k as int], state_b@)] + spec_upgraded(
                                state_a@.skip(k as int + 1), state_b@)) =~= upgraded@
                                + spec_upgraded(state_a@.skip(k as int + 1), state_b@));
                        }
                    } else {
                        downgraded.push((p, old_ver, new_ver));
                        proof {
                            assert(downgraded@.drop_last() + (seq![change_triple(
                                state_a@[k as int], state_b@)] + spec_downgraded(
                                state_a@.skip(k as int + 1), state_b@)) =~= downgraded@
                                + spec_downgraded(state_a@.skip(k as int + 1), state_b@));
                        }
                    }
                }
            },
            None => {},
        }
        k = k + 1;
    }
    proof {
        assert(state_a@.skip(na as int) =~= Seq::<Package>::empty());
        assert(upgraded@ + spec_upgraded(Seq::<Package>::empty(), state_b@) =~= upgraded@);
        assert(downgraded@ + spec_downgraded(Seq::<Package>::empty(), state_b@) =~= downgraded@);
    }

    PackageDiff { added, removed, upgraded, downgraded }
}

/// The change list of a diff: added, removed, upgraded, downgraded, in that
/// fixed order.
pub open spec fn spec_all_changes(d: PackageDiff) -> Seq<PackageChange> {
    d.added@.map_values(|p: Package| PackageChange::Added(p)) + d.removed@.map_values(
        |p: Package| PackageChange::Removed(p)) + d.upgraded@.map_values(
        |t: (Package, String, String)| PackageChange::Upgraded(t.0, t.1, t.2))
        + d.downgraded@.map_values(
        |t: (Package, String, String)| PackageChange::Downgraded(t.0, t.1, t.2))
}

impl PackageDiff {
    /// The number of changes the diff records, over all four collections.
    pub fn total_changes(&self) -> (r: usize)
        requires
            self.added@.len() + self.removed@.len() + self.upgraded@.len()
                + self.downgraded@.len() <= usize::MAX,
        ensures
            r == self.added@.len() + self.removed@.len() + self.upgraded@.len()
                + self.downgraded@.len(),
    {
        self.added.len() + self.removed.len() + self.upgraded.len() + self.downgraded.len()
    }

    /// Linearizes the diff into the single ordered change list a bisection
    /// partitions over: added, then removed, then upgraded, then downgraded.
    /// The order is arbitrary but stable for the lifetime of the diff.
    pub fn all_changes(&self) -> (r: Vec<PackageChange>)
        ensures
            r@ == spec_all_changes(*self),
    {
        let mut changes: Vec<PackageChange> = Vec::new();

        let mut i: usize = 0;
        while i < self.added.len()
            invariant
                i <= self.added@.len(),
                changes@ == self.added@.subrange(0, i as int).map_values(
                    |p: Package| PackageChange::Added(p)),
            decreases self.added@.len() - i,
        {
            changes.push(PackageChange::Added(self.added[i].clone()));
            proof {
                assert(changes@ =~= self.added@.subrange(0, i as int + 1).map_values(
                    |p: Package| PackageChange::Added(p)));
            }
            i = i + 1;
        }
        proof {
            assert(self.added@.subrange(0, self.added@.len() as int) =~= self.added@);
        }

        let ghost part1 = changes@;
        let mut i: usize = 0;
        while i < self.removed.len()
            invariant
                i <= self.removed@.len(),
                changes@ == part1 + self.removed@.subrange(0, i as int).map_values(
                    |p: Package| PackageChange::Removed(p)),
            decreases self.removed@.len() - i,
        {
            changes.push(PackageChange::Removed(self.removed[i].clone()));
            proof {
                assert(changes@ =~= part1 + self.removed@.subrange(0, i as int + 1).map_values(
                    |p: Package| PackageChange::Removed(p)));
            }
            i = i + 1;
        }
        proof {
            assert(self.removed@.subrange(0, self.removed@.len() as int) =~= self.removed@);
        }

        let ghost part2 = changes@;
        let mut i: usize = 0;
        while i < self.upgraded.len()
            invariant
                i <= self.upgraded@.len(),
                changes@ == part2 + self.upgraded@.subrange(0, i as int).map_values(
                    |t: (Package, String, String)| PackageChange::Upgraded(t.0, t.1, t.2)),
            decreases self.upgraded@.len() - i,
        {
            let t = &self.upgraded[i];
            changes.push(PackageChange::Upgraded(t.0.clone(), t.1.clone(), t.2.clone()));
            proof {
                assert(changes@ =~= part2 + self.upgraded@.subrange(0, i as int + 1).map_values(
                    |t: (Package, String, String)| PackageChange::Upgraded(t.0, t.1, t.2)));
            }
            i = i + 1;
        }
        proof {
            assert(self.upgraded@.subrange(0, self.upgraded@.len() as int) =~= self.upgraded@);
        }

        let ghost part3 = changes@;
        let mut i: usize = 0;
        while i < self.downgraded.len()
            invariant
                i <= self.downgraded@.len(),
                changes@ == part3 + self.downgraded@.subrange(0, i as int).map_values(
                    |t: (Package, String, String)| PackageChange::Downgraded(t.0, t.1, t.2)),
            decreases self.downgraded@.len() - i,
        {
            let t = &self.downgraded[i];
            changes.push(PackageChange::Downgraded(t.0.clone(), t.1.clone(), t.2.clone()));
            proof {
                assert(changes@ =~= part3 + self.downgraded@.subrange(0, i as int + 1).map_values(
                    |t: (Package, String, String)| PackageChange::Downgraded(t.0, t.1, t.2)));
            }
            i = i + 1;
        }
        proof {
            assert(self.downgraded@.subrange(0, self.downgraded@.len() as int)
                =~= self.downgraded@);
            assert(changes@ =~= spec_all_changes(*self));
        }

        changes
    }
}

/// Some triple of the collection is about this name.
pub open spec fn triples_has_name(s: Seq<(Package, String, String)>, n: Seq<char>) -> bool {
    exists|i: int| 0 <= i < s.len() && (#[trigger] s[i].0.name)@ == n
}

/// The name whose presence or version differs between the two states.
pub open spec fn spec_changed(a: Seq<Package>, b: Seq<Package>, n: Seq<char>) -> bool {
    (has_name(a, n) != has_name(b, n)) || (has_name(a, n) && has_name(b, n) && version_of(a, n)
        != version_of(b, n))
}

proof fn lemma_unique_drop_first(s: Seq<Package>)
    requires
        unique_names(s),
        s.len() > 0,
    ensures
        unique_names(s.drop_first()),
{
    assert(forall|x: int, y: int|
        0 <= x < y < s.drop_first().len() ==> s.drop_first()[x] == s[x + 1] && s.drop_first()[y]
            == s[y + 1]);
}

proof fn lemma_has_name_cons(s: Seq<Package>, n: Seq<char>)
    requires
        s.len() > 0,
    ensures
        has_name(s, n) <==> (s[0].name@ == n || has_name(s.drop_first(), n)),
{
    if s[0].name@ == n {
        assert(has_name(s, n));
    }
    if has_name(s.drop_first(), n) {
        let i = choose|i: int|
            0 <= i < s.drop_first().len() && (#[trigger] s.drop_first()[i].name)@ == n;
        assert(s[i + 1].name@ == n);
    }
    if has_name(s, n) && s[0].name@ != n {
        let i = choose|i: int| 0 <= i < s.len() && (#[trigger] s[i].name)@ == n;
        assert(s.drop_first()[i - 1].name@ == n);
    }
}

proof fn lemma_triples_has_name_cons(s: Seq<(Package, String, String)>, n: Seq<char>)
    requires
        s.len() > 0,
    ensures
        triples_has_name(s, n) <==> (s[0].0.name@ == n || triples_has_name(s.drop_first(), n)),
{
    if s[0].0.name@ == n {
        assert(triples_has_name(s, n));
    }
    if triples_has_name(s.drop_first(), n) {
        let i = choose|i: int|
            0 <= i < s.drop_first().len() && (#[trigger] s.drop_first()[i].0.name)@ == n;
        assert(s[i + 1].0.name@ == n);
    }
    if triples_has_name(s, n) && s[0].0.name@ != n {
        let i = choose|i: int| 0 <= i < s.len() && (#[trigger] s[i].0.name)@ == n;
        assert(s.drop_first()[i - 1].0.name@ == n);
    }
}

proof fn lemma_added_membership(a: Seq<Package>, b: Seq<Package>, n: Seq<char>)
    ensures
        has_name(spec_added(a, b), n) <==> (has_name(b, n) && !has_name(a, n)),
    decreases b.len(),
{
    if b.len() == 0 {
        assert(!has_name(b, n));
        assert(!has_name(spec_added(a, b), n));
    } else {
        lemma_added_membership(a, b.drop_first(), n);
        lemma_has_name_cons(b, n);
        if !has_name(a, b[0].name@) {
            let s = spec_added(a, b);
            assert(s == seq![b[0]] + spec_added(a, b.drop_first()));
            assert(s[0] == b[0]);
            assert(s.drop_first() =~= spec_added(a, b.drop_first()));
            lemma_has_name_cons(s, n);
        }
    }
}

proof fn lemma_removed_membership(a: Seq<Package>, b: Seq<Package>, n: Seq<char>)
    ensures
        has_name(spec_removed(a, b), n) <==> (has_name(a, n) && !has_name(b, n)),
    decreases a.len(),
{
    if a.len() == 0 {
        assert(!has_name(a, n));
        assert(!has_name(spec_removed(a, b), n));
    } else {
        lemma_removed_membership(a.drop_first(), b, n);
        lemma_has_name_cons(a, n);
        if !has_name(b, a[0].name@) {
            let s = spec_removed(a, b);
            assert(s == seq![a[0]] + spec_removed(a.drop_first(), b));
            assert(s[0] == a[0]);
            assert(s.drop_first() =~= spec_removed(a.drop_first(), b));
            lemma_has_name_cons(s, n);
        }
    }
}

proof fn lemma_classified_membership(a: Seq<Package>, b: Seq<Package>, n: Seq<char>, up: bool)
    requires
        unique_names(a),
    ensures
        triples_has_name(if up { spec_upgraded(a, b) } else { spec_downgraded(a, b) }, n) <==> (
            has_name(a, n) && changed_as(lookup_pkg(a, n), b, up)),
    decreases a.len(),
{
    let s = if up { spec_upgraded(a, b) } else { spec_downgraded(a, b) };
    if a.len() == 0 {
        assert(!has_name(a, n));
        assert(!triples_has_name(s, n));
    } else {
        lemma_unique_drop_first(a);
        lemma_classified_membership(a.drop_first(), b, n, up);
        lemma_has_name_cons(a, n);
        if a[0].name@ == n {
            // By uniqueness the rest of `a` does not carry `n`.
            assert(!has_name(a.drop_first(), n)) by {
                if has_name(a.drop_first(), n) {
                    let i = choose|i: int|
                        0 <= i < a.drop_first().len() && (#[trigger] a.drop_first()[i].name)@ == n;
                    assert(a[i + 1].name@ == n);
                    assert(a[0].name@ == a[i + 1].name@);
                }
            }
            assert(lookup_pkg(a, n) == a[0]);
            if changed_as(a[0], b, up) {
                assert(s == seq![change_triple(a[0], b)] + (if up {
                    spec_upgraded(a.drop_first(), b)
                } else {
                    spec_downgraded(a.drop_first(), b)
                }));
                assert(s[0].0.name@ == n);
                assert(triples_has_name(s, n));
            } else {
                assert(s == (if up {
                    spec_upgraded(a.drop_first(), b)
                } else {
                    spec_downgraded(a.drop_first(), b)
                }));
            }
        } else {
            assert(lookup_pkg(a, n) == lookup_pkg(a.drop_first(), n));
            if changed_as(a[0], b, up) {
                assert(s == seq![change_triple(a[0], b)] + (if up {
                    spec_upgraded(a.drop_first(), b)
                } else {
                    spec_downgraded(a.drop_first(), b)
                }));
                assert(s[0].0.name@ == a[0].name@);
                assert(s.drop_first() =~= (if up {
                    spec_upgraded(a.drop_first(), b)
                } else {
                    spec_downgraded(a.drop_first(), b)
                }));
                lemma_triples_has_name_cons(s, n);
            }
        }
    }
}

/// When the state has the name at all, the package `lookup_pkg` finds does
/// carry it.
proof fn lemma_lookup_name(s: Seq<Package>, n: Seq<char>)
    requires
        has_name(s, n),
    ensures
        lookup_pkg(s, n).name@ == n,
    decreases s.len(),
{
    if s.len() > 0 && s[0].name@ != n {
        lemma_has_name_cons(s, n);
        lemma_lookup_name(s.drop_first(), n);
    }
}

/// How the four collections of a diff partition the names: a name is in
/// `added` iff only the new state has it; in `removed` iff only the old state
/// has it; in `upgraded` or `downgraded` iff both states have it with
/// different versions, split by the version comparator. In particular the
/// four name-sets are pairwise disjoint, and a name is in some collection iff
/// its presence or version differs between the two states.
pub proof fn lemma_diff_partition(a: Seq<Package>, b: Seq<Package>, n: Seq<char>)
    requires
        unique_names(a),
        unique_names(b),
    ensures
        has_name(spec_added(a, b), n) <==> (has_name(b, n) && !has_name(a, n)),
        has_name(spec_removed(a, b), n) <==> (has_name(a, n) && !has_name(b, n)),
        triples_has_name(spec_upgraded(a, b), n) <==> (has_name(a, n) && has_name(b, n)
            && version_of(b, n) != version_of(a, n) && spec_is_upgrade(
            version_of(b, n), version_of(a, n))),
        triples_has_name(spec_downgraded(a, b), n) <==> (has_name(a, n) && has_name(b, n)
            && version_of(b, n) != version_of(a, n) && !spec_is_upgrade(
            version_of(b, n), version_of(a, n))),
        !(has_name(spec_added(a, b), n) && has_name(spec_removed(a, b), n)),
        !(has_name(spec_added(a, b), n) && triples_has_name(spec_upgraded(a, b), n)),
        !(has_name(spec_added(a, b), n) && triples_has_name(spec_downgraded(a, b), n)),
        !(has_name(spec_removed(a, b), n) && triples_has_name(spec_upgraded(a, b), n)),
        !(has_name(spec_removed(a, b), n) && triples_has_name(spec_downgraded(a, b), n)),
        !(triples_has_name(spec_upgraded(a, b), n) && triples_has_name(spec_downgraded(a, b), n)),
        (has_name(spec_added(a, b), n) || has_name(spec_removed(a, b), n) || triples_has_name(
            spec_upgraded(a, b), n) || triples_has_name(spec_downgraded(a, b), n)) <==>
            spec_changed(a, b, n),
{
    lemma_added_membership(a, b, n);
    lemma_removed_membership(a, b, n);
    lemma_classified_membership(a, b, n, true);
    lemma_classified_membership(a, b, n, false);
    if has_name(a, n) {
        lemma_lookup_name(a, n);
    }
}

/// A diff is empty exactly when the two states agree on every name: same
/// names, same versions. In particular the diff of a state against itself is
/// empty, and a nonempty diff exhibits a name that differs.
pub proof fn lemma_empty_diff_iff_equal_states(a: Seq<Package>, b: Seq<Package>)
    requires
        unique_names(a),
        unique_names(b),
    ensures
        (spec_added(a, b).len() == 0 && spec_removed(a, b).len() == 0 && spec_upgraded(
            a, b).len() == 0 && spec_downgraded(a, b).len() == 0) <==> (forall|n: Seq<char>|
            !(#[trigger] spec_changed(a, b, n))),
{
    if spec_added(a, b).len() == 0 && spec_removed(a, b).len() == 0 && spec_upgraded(a, b).len()
        == 0 && spec_downgraded(a, b).len() == 0 {
        assert forall|n: Seq<char>| !(#[trigger] spec_changed(a, b, n)) by {
            lemma_diff_partition(a, b, n);
        }
    } else {
        if spec_added(a, b).len() > 0 {
            let n = spec_added(a, b)[0].name@;
            assert(has_name(spec_added(a, b), n));
            lemma_diff_partition(a, b, n);
            assert(spec_changed(a, b, n));
        } else if spec_removed(a, b).len() > 0 {
            let n = spec_removed(a, b)[0].name@;
            assert(has_name(spec_removed(a, b), n));
            lemma_diff_partition(a, b, n);
            assert(spec_changed(a, b, n));
        } else if spec_upgraded(a, b).len() > 0 {
            let n = spec_upgraded(a, b)[0].0.name@;
            assert(triples_has_name(spec_upgraded(a, b), n));
            lemma_diff_partition(a, b, n);
            assert(spec_changed(a, b, n));
        } else {
            let n = spec_downgraded(a, b)[0].0.name@;
            assert(triples_has_name(spec_downgraded(a, b), n));
            lemma_diff_partition(a, b, n);
            assert(spec_changed(a, b, n));
        }
    }
}

/// The last package of the sequence carrying this name (meaningful only when
/// one exists): what a mapping built by repeated insertion would hold.
pub open spec fn lookup_last(s: Seq<Package>, n: Seq<char>) -> Package
    decreases s.len(),
{
    if s.len() == 0 {
        arbitrary()
    } else if s.last().name@ == n {
        s.last()
    } else {
        lookup_last(s.drop_last(), n)
    }
}

proof fn lemma_lookup_push(s: Seq<Package>, x: Package, n: Seq<char>)
    ensures
        has_name(s.push(x), n) <==> (has_name(s, n) || x.name@ == n),
        has_name(s, n) ==> lookup_pkg(s.push(x), n) == lookup_pkg(s, n),
        (!has_name(s, n) && x.name@ == n) ==> lookup_pkg(s.push(x), n) == x,
    decreases s.len(),
{
    if s.len() == 0 {
        assert(s.push(x)[0] == x);
        if has_name(s.push(x), n) {
            let i = choose|i: int| 0 <= i < s.push(x).len() && (#[trigger] s.push(x)[i].name)@
                == n;
            assert(i == 0);
        }
        if x.name@ == n {
            assert(s.push(x)[0].name@ == n);
        }
    } else {
        assert(s.push(x)[0] == s[0]);
        assert(s.push(x).drop_first() =~= s.drop_first().push(x));
        lemma_lookup_push(s.drop_first(), x, n);
        lemma_has_name_cons(s.push(x), n);
        lemma_has_name_cons(s, n);
    }
}

proof fn lemma_lookup_last_front(s: Seq<Package>, n: Seq<char>)
    requires
        s.len() > 0,
    ensures
        has_name(s.drop_first(), n) ==> lookup_last(s, n) == lookup_last(s.drop_first(), n),
        (!has_name(s.drop_first(), n) && s[0].name@ == n) ==> lookup_last(s, n) == s[0],
    decreases s.len(),
{
    if s.len() == 1 {
        assert(s.drop_first() =~= Seq::<Package>::empty());
        assert(!has_name(s.drop_first(), n));
        assert(s.last() == s[0]);
    } else {
        let t = s.drop_last();
        let d = s.drop_first();
        assert(d.last() == s.last());
        assert(d.drop_last() =~= t.drop_first());
        assert(t[0] == s[0]);
        if s.last().name@ == n {
            assert(d[d.len() - 1].name@ == n);
            assert(has_name(d, n));
        } else {
            lemma_lookup_last_front(t, n);
            if has_name(d, n) {
                let i = choose|i: int| 0 <= i < d.len() && (#[trigger] d[i].name)@ == n;
                assert(i < d.len() - 1);
                assert(t.drop_first()[i] == d[i]);
                assert(has_name(t.drop_first(), n));
            }
            if has_name(t.drop_first(), n) {
                let i = choose|i: int|
                    0 <= i < t.drop_first().len() && (#[trigger] t.drop_first()[i].name)@ == n;
                assert(d[i] == t.drop_first()[i]);
                assert(has_name(d, n));
            }
        }
    }
}

/// Turns a parsed name/version listing, which may repeat a name, into a
/// proper state: the names become unique, every listed name is kept, and a
/// repeated name keeps its last listed version, as a mapping built by
/// repeated insertion would.
pub fn dedup_packages(pairs: &Vec<Package>) -> (r: Vec<Package>)
    ensures
        unique_names(r@),
        forall|n: Seq<char>| #![trigger has_name(r@, n)] #![trigger has_name(pairs@, n)]
            has_name(r@, n) <==> has_name(pairs@, n),
        forall|n: Seq<char>|
            has_name(pairs@, n) ==> #[trigger] version_of(r@, n) == lookup_last(
                pairs@, n).version@,
{
    let np: usize = pairs.len();
    let mut out: Vec<Package> = Vec::new();
    let mut i: usize = np;
    proof {
        assert(pairs@.skip(np as int) =~= Seq::<Package>::empty());
        assert(forall|m: Seq<char>| !has_name(Seq::<Package>::empty(), m));
    }
    while i > 0
        invariant
            i <= np,
            np == pairs@.len(),
            unique_names(out@),
            forall|m: Seq<char>| #![trigger has_name(out@, m)]
                has_name(out@, m) <==> has_name(pairs@.skip(i as int), m),
            forall|m: Seq<char>|
                has_name(pairs@.skip(i as int), m) ==> #[trigger] version_of(out@, m)
                    == lookup_last(pairs@.skip(i as int), m).version@,
        decreases i,
    {
        i = i - 1;
        let ghost prev = pairs@.skip(i as int + 1);
        let ghost cur = pairs@.skip(i as int);
        let ghost p = pairs@[i as int];
        proof {
            assert(cur[0] == p);
            assert(cur.drop_first() =~= prev);
        }
        let ghost old_out = out@;
        if find_package(&out, &pairs[i].name).is_none() {
            out.push(Package { name: pairs[i].name.clone(), version: pairs[i].version.clone() });
            proof {
                assert(out@.last() == p);
                assert(out@.drop_last() == old_out);
                assert(unique_names(out@)) by {
                    assert(forall|x: int, y: int|
                        0 <= x < y < out@.len() && y < out@.len() - 1 ==> (
                        #[trigger] out@[x].name)@ != (#[trigger] out@[y].name)@);
                    assert forall|x: int| 0 <= x < out@.len() - 1 implies (
                        #[trigger] out@[x].name)@ != p.name@ by {
                        if out@[x].name@ == p.name@ {
                            assert(old_out[x].name@ == p.name@);
                            assert(has_name(old_out, p.name@));
                        }
                    }
                }
                assert forall|m: Seq<char>|
                    has_name(out@, m) <==> has_name(cur, m) by {
                    lemma_lookup_push(old_out, p, m);
                    lemma_has_name_cons(cur, m);
                }
                assert forall|m: Seq<char>| has_name(cur, m) implies #[trigger] version_of(
                    out@, m) == lookup_last(cur, m).version@ by {
                    lemma_lookup_push(old_out, p, m);
                    lemma_has_name_cons(cur, m);
                    lemma_lookup_last_front(cur, m);
                    if has_name(prev, m) {
                        assert(has_name(old_out, m));
                        assert(lookup_pkg(out@, m) == lookup_pkg(old_out, m));
                        assert(version_of(old_out, m) == lookup_last(prev, m).version@);
                        assert(lookup_last(cur, m) == lookup_last(prev, m));
                    } else {
                        assert(p.name@ == m);
                        assert(!has_name(old_out, m));
                        assert(lookup_pkg(out@, m) == p);
                        assert(lookup_last(cur, m) == p);
                    }
                }
            }
        } else {
            proof {
                assert(has_name(old_out, p.name@));
                assert forall|m: Seq<char>|
                    has_name(out@, m) <==> has_name(cur, m) by {
                    lemma_has_name_cons(cur, m);
                }
                assert forall|m: Seq<char>| has_name(cur, m) implies #[trigger] version_of(
                    out@, m) == lookup_last(cur, m).version@ by {
                    lemma_has_name_cons(cur, m);
                    lemma_lookup_last_front(cur, m);
                    if m == p.name@ {
                        assert(has_name(out@, m));
                        assert(has_name(prev, m));
                    } else {
                        assert(has_name(prev, m));
                    }
                    assert(lookup_last(cur, m) == lookup_last(prev, m));
                    assert(version_of(out@, m) == lookup_last(prev, m).version@);
                }
            }
        }
    }
    proof {
        assert(pairs@.skip(0) =~= pairs@);
    }
    out
}

/// The diff of any state against itself is empty in all four collections.
pub proof fn lemma_diff_self_empty(a: Seq<Package>)
    requires
        unique_names(a),
    ensures
        spec_added(a, a).len() == 0,
        spec_removed(a, a).len() == 0,
        spec_upgraded(a, a).len() == 0,
        spec_downgraded(a, a).len() == 0,
{
    assert(forall|n: Seq<char>| !(#[trigger] spec_changed(a, a, n)));
    lemma_empty_diff_iff_equal_states(a, a);
}

} // verus!
