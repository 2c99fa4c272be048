//! The manifest — the durable record of a resolution — and the local
//! package ledger, the record of what is unpacked on disk. The ledger is
//! diffed against a freshly decided manifest to find the packages to prune,
//! and the stored manifest's requirement snapshot is compared with the
//! current requirement set to decide between reuse and re-resolution.

use vstd::prelude::*;

use crate::table::Table;
use crate::table::has_name;
use crate::table::lemma_map_of;
use crate::text::str_eq;
use crate::version::Version;

verus! {

/// The durable resolution record: the requirement set that produced it and
/// the exact version selected for every package, direct and transitive.
pub struct Manifest {
    /// Snapshot of the requirement set (name to constraint) that this
    /// resolution answered.
    pub requirements: Table,
    /// Exact version selected for every package.
    pub packages: Table,
}

impl Manifest {
    /// Well-formed: both tables are.
    pub open spec fn wf(self) -> bool {
        self.requirements.wf() && self.packages.wf()
    }

    /// The record a fresh resolution produces: the current requirement set
    /// and the solver's flat name-to-version answer.
    pub fn from_resolution(requirements: Table, packages: Table) -> (r: Manifest)
        ensures
            r.requirements == requirements,
            r.packages == packages,
    {
        Manifest { requirements, packages }
    }

    /// Adds one solved package to the record. Succeeds exactly when the
    /// name is valid and not already present.
    pub fn insert_package(&mut self, name: String, version: Version) -> (r: bool)
        requires
            old(self).wf(),
            version.wf(),
        ensures
            final(self).wf(),
            final(self).requirements == old(self).requirements,
            r == (crate::text::valid_name(name@) && !old(self).packages@.contains_key(name@)),
            r ==> final(self).packages@ == old(self).packages@.insert(name@, version@),
            !r ==> *final(self) == *old(self),
    {
        self.packages.insert(name, version.text())
    }
}

/// The ledger of packages presently unpacked at the local location, kept in
/// lockstep with the most recently written manifest.
pub struct LocalPackages {
    /// Name to exact version of everything unpacked.
    pub packages: Table,
}

/// Whether the new manifest keeps a locally unpacked package `(k, v)`: it
/// must list `k` at exactly the version `v`. Anything else makes the local
/// copy stale.
pub open spec fn stale(pkgs: Map<Seq<char>, Seq<char>>, k: Seq<char>, v: Seq<char>) -> bool {
    !(pkgs.contains_key(k) && pkgs[k] == v)
}

/// Whether `(nk, nv)` is the view of a stale ledger entry among the first
/// `upto` entries of `e`.
pub open spec fn from_stale_entry(
    e: Seq<(String, String)>,
    pkgs: Map<Seq<char>, Seq<char>>,
    upto: int,
    nk: Seq<char>,
    nv: Seq<char>,
) -> bool {
    exists|j: int| 0 <= j < upto && nk == e[j].0@ && nv == e[j].1@ && stale(pkgs, e[j].0@, e[j].1@)
}

impl LocalPackages {
    /// Well-formed: the table is.
    pub open spec fn wf(self) -> bool {
        self.packages.wf()
    }

    /// An empty ledger.
    pub fn new() -> (r: LocalPackages)
        ensures
            r.wf(),
            r.packages@ == Map::<Seq<char>, Seq<char>>::empty(),
    {
        LocalPackages { packages: Table::new() }
    }

    /// The ledger that mirrors a manifest: exactly its packages.
    pub fn from_manifest(manifest: Manifest) -> (r: LocalPackages)
        ensures
            r.packages == manifest.packages,
    {
        LocalPackages { packages: manifest.packages }
    }

    /// The set difference that drives pruning: exactly the `(name, version)`
    /// pairs unpacked locally that the new manifest does not keep — the name
    /// is absent, or listed at another version. Order aside, the result is
    /// `{(n, v) in self.packages | manifest.packages.get(n) != v}`, each
    /// name at most once.
    pub fn extra_local_packages(&self, manifest: &Manifest) -> (r: Vec<(String, String)>)
        requires
            self.wf(),
            manifest.wf(),
        ensures
            forall|p: int|
                0 <= p < r@.len() ==> self.packages@.contains_key(#[trigger] r@[p].0@)
                    && self.packages@[r@[p].0@] == r@[p].1@ && stale(
                    manifest.packages@,
                    r@[p].0@,
                    r@[p].1@,
                ),
            forall|k: Seq<char>|
                #[trigger] self.packages@.contains_key(k) && stale(
                    manifest.packages@,
                    k,
                    self.packages@[k],
                ) ==> exists|p: int| 0 <= p < r@.len() && r@[p].0@ == k,
            forall|p: int, q: int| 0 <= p < q < r@.len() ==> r@[p].0@ != r@[q].0@,
    {
        let ghost e = self.packages.entries@;
        let ghost m = manifest.packages@;
        proof {
            lemma_map_of(e);
            lemma_map_of(manifest.packages.entries@);
        }
        let mut r: Vec<(String, String)> = Vec::new();
        let n = self.packages.entries.len();
        let mut i: usize = 0;
        while i < n
            invariant
                i <= n,
                n == e.len(),
                e == self.packages.entries@,
                m == manifest.packages@,
                self.wf(),
                manifest.wf(),
                forall|p: int|
                    0 <= p < r@.len() ==> from_stale_entry(
                        e,
                        m,
                        i as int,
                        #[trigger] r@[p].0@,
                        r@[p].1@,
                    ),
                forall|j: int|
                    #![trigger e[j]]
                    0 <= j < i && stale(m, e[j].0@, e[j].1@) ==> exists|p: int|
                        0 <= p < r@.len() && r@[p].0@ == e[j].0@,
                forall|p: int, q: int| 0 <= p < q < r@.len() ==> r@[p].0@ != r@[q].0@,
            decreases n - i,
        {
            let name = &self.packages.entries[i].0;
            let version = &self.packages.entries[i].1;
            let keep: bool = match manifest.packages.get(name.as_str()) {
                Some(v) => str_eq(v.as_str(), version.as_str()),
                None => false,
            };
            proof {
                assert(keep == !stale(m, e[i as int].0@, e[i as int].1@));
            }
            if !keep {
                proof {
                    assert(stale(m, e[i as int].0@, e[i as int].1@));
                    assert forall|p: int| 0 <= p < r@.len() implies r@[p].0@
                        != e[i as int].0@ by {
                        assert(from_stale_entry(e, m, i as int, r@[p].0@, r@[p].1@));
                        let j = choose|j: int|
                            0 <= j < i as int && r@[p].0@ == e[j].0@ && r@[p].1@ == e[j].1@
                                && stale(m, e[j].0@, e[j].1@);
                    }
                }
                let ghost r_old = r@;
                r.push((name.clone(), version.clone()));
                proof {
                    assert forall|j: int|
                        #![trigger e[j]]
                        0 <= j < i + 1 && stale(m, e[j].0@, e[j].1@) implies exists|p: int|
                        0 <= p < r@.len() && r@[p].0@ == e[j].0@ by {
                        if j == i {
                            assert(r@[r@.len() - 1].0@ == e[j].0@);
                        } else {
                            let p = choose|p: int| 0 <= p < r_old.len() && r_old[p].0@ == e[j].0@;
                            assert(r@[p] == r_old[p]);
                            assert(r@[p].0@ == e[j].0@);
                        }
                    }
                }
            }
            i += 1;
        }
        proof {
            assert forall|p: int|
                0 <= p < r@.len() implies self.packages@.contains_key(#[trigger] r@[p].0@)
                && self.packages@[r@[p].0@] == r@[p].1@ && stale(m, r@[p].0@, r@[p].1@) by {
                assert(from_stale_entry(e, m, n as int, r@[p].0@, r@[p].1@));
                let j = choose|j: int|
                    0 <= j < n as int && r@[p].0@ == e[j].0@ && r@[p].1@ == e[j].1@ && stale(
                        m,
                        e[j].0@,
                        e[j].1@,
                    );
                assert(e[j] == self.packages.entries@[j]);
            }
            assert forall|k: Seq<char>|
                #[trigger] self.packages@.contains_key(k) && stale(
                    m,
                    k,
                    self.packages@[k],
                ) implies exists|p: int| 0 <= p < r@.len() && r@[p].0@ == k by {
                assert(has_name(e, k));
                let j = choose|j: int| 0 <= j < e.len() && e[j].0@ == k;
                assert(self.packages@[e[j].0@] == e[j].1@);
                assert(stale(m, e[j].0@, e[j].1@));
            }
        }
        r
    }
}

/// What the resolution decision engine answers.
pub enum Decision {
    /// The stored manifest's requirement snapshot equals the current
    /// requirement set: reuse it verbatim, no resolution, no lookups.
    Reuse,
    /// No manifest is stored, or the requirements changed: resolve anew.
    Resolve,
}

/// Whether a fresh resolution is needed: there is no stored manifest, or
/// its requirement snapshot differs from the current requirement set.
pub open spec fn needs_resolution(
    current: Map<Seq<char>, Seq<char>>,
    stored: Option<Manifest>,
) -> bool {
    match stored {
        Option::None => true,
        Option::Some(m) => m.requirements@ != current,
    }
}

/// The resolution decision: reuse the stored manifest exactly when one is
/// stored and its requirement snapshot structurally equals the current
/// requirement set; resolve otherwise.
pub fn decide(current: &Table, stored: &Option<Manifest>) -> (d: Decision)
    requires
        current.wf(),
        stored matches Some(m) ==> m.wf(),
    ensures
        d is Resolve <==> needs_resolution(current@, *stored),
        d is Reuse <==> !needs_resolution(current@, *stored),
{
    match stored {
        Option::None => Decision::Resolve,
        Option::Some(m) => {
            if m.requirements.same_mapping(current) {
                Decision::Reuse
            } else {
                Decision::Resolve
            }
        },
    }
}

/// Reuse idempotence: a stored manifest whose requirement snapshot equals
/// the current requirement set is reused verbatim — the decision is never
/// to resolve, so no registry lookup happens, and rewriting the unchanged
/// record reproduces the stored bytes, rendering being a function of the
/// record alone.
pub proof fn lemma_reuse_idempotence(current: Table, m: Manifest)
    requires
        m.requirements@ == current@,
    ensures
        !needs_resolution(current@, Some(m)),
{
}

/// Change sensitivity: requirement sets that differ at even one name — one
/// has it and the other does not, or they constrain it differently — never
/// reuse a stored manifest; resolution is re-triggered.
pub proof fn lemma_change_sensitivity(current: Table, m: Manifest, k: Seq<char>)
    requires
        m.requirements@.contains_key(k) != current@.contains_key(k) || (
        m.requirements@.contains_key(k) && current@.contains_key(k) && m.requirements@[k]
            != current@[k]),
    ensures
        needs_resolution(current@, Some(m)),
{
}

} // verus!
