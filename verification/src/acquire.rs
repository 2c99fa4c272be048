//! The acquisition pipeline's decisions: which packages of a resolved
//! manifest must actually be downloaded (everything not already unpacked in
//! the shared cache), and how a batch of per-package outcomes folds into one
//! result — the count of newly fetched packages, or the first failure.
//! The downloads themselves are I/O and live with the command shell; they
//! hand back one outcome per planned package.

use vstd::prelude::*;

use crate::error::Error;
use crate::error::Stage;
use crate::manifest::Manifest;
use crate::table::lemma_map_of;
use crate::table::has_name;
use crate::text::str_eq;

verus! {

/// Whether the shared cache holds the exact `(name, version)` pair, fully
/// unpacked.
pub open spec fn cache_has(cache: Seq<(String, String)>, k: Seq<char>, v: Seq<char>) -> bool {
    exists|i: int| 0 <= i < cache.len() && cache[i].0@ == k && cache[i].1@ == v
}

/// Linear scan of a cache listing for an exact `(name, version)` pair.
pub fn cache_contains(cache: &Vec<(String, String)>, name: &str, version: &str) -> (r: bool)
    ensures
        r == cache_has(cache@, name@, version@),
{
    let n = cache.len();
    let mut i: usize = 0;
    while i < n
        invariant
            i <= n,
            n == cache@.len(),
            forall|j: int| 0 <= j < i ==> !(#[trigger] cache@[j].0@ == name@ && cache@[j].1@ == version@),
        decreases n - i,
    {
        if str_eq(cache[i].0.as_str(), name) && str_eq(cache[i].1.as_str(), version) {
            return true;
        }
        i += 1;
    }
    false
}

/// Whether `(nk, nv)` is the view of a cache-missing package among the
/// first `upto` entries of `e`.
pub open spec fn from_missing_entry(
    e: Seq<(String, String)>,
    cache: Seq<(String, String)>,
    upto: int,
    nk: Seq<char>,
    nv: Seq<char>,
) -> bool {
    exists|j: int|
        0 <= j < upto && nk == e[j].0@ && nv == e[j].1@ && !cache_has(cache, e[j].0@, e[j].1@)
}

/// What a correct download plan is: exactly the manifest's packages that
/// the cache does not already hold at that version, each name once.
pub open spec fn plan_correct(
    pkgs: Map<Seq<char>, Seq<char>>,
    cache: Seq<(String, String)>,
    r: Seq<(String, String)>,
) -> bool {
    &&& forall|p: int|
        0 <= p < r.len() ==> pkgs.contains_key(#[trigger] r[p].0@) && pkgs[r[p].0@] == r[p].1@
            && !cache_has(cache, r[p].0@, r[p].1@)
    &&& forall|k: Seq<char>|
        #[trigger] pkgs.contains_key(k) && !cache_has(cache, k, pkgs[k]) ==> exists|p: int|
            0 <= p < r.len() && r[p].0@ == k
    &&& forall|p: int, q: int| 0 <= p < q < r.len() ==> r[p].0@ != r[q].0@
}

/// The download plan: every `(name, version)` of the manifest that the
/// shared cache does not already hold, and nothing else. Its length is the
/// number of downloads the pipeline will perform — packages already
/// unpacked are skipped, so repeated runs do no redundant network work.
pub fn packages_to_fetch(manifest: &Manifest, cache: &Vec<(String, String)>) -> (r: Vec<
    (String, String),
>)
    requires
        manifest.wf(),
    ensures
        plan_correct(manifest.packages@, cache@, r@),
{
    let ghost e = manifest.packages.entries@;
    let ghost c = cache@;
    proof {
        lemma_map_of(e);
    }
    let mut r: Vec<(String, String)> = Vec::new();
    let n = manifest.packages.entries.len();
    let mut i: usize = 0;
    while i < n
        invariant
            i <= n,
            n == e.len(),
            e == manifest.packages.entries@,
            c == cache@,
            manifest.wf(),
            forall|p: int|
                0 <= p < r@.len() ==> from_missing_entry(e, c, i as int, #[trigger] r@[p].0@, r@[p].1@),
            forall|j: int|
                #![trigger e[j]]
                0 <= j < i && !cache_has(c, e[j].0@, e[j].1@) ==> exists|p: int|
                    0 <= p < r@.len() && r@[p].0@ == e[j].0@,
            forall|p: int, q: int| 0 <= p < q < r@.len() ==> r@[p].0@ != r@[q].0@,
        decreases n - i,
    {
        let name = &manifest.packages.entries[i].0;
        let version = &manifest.packages.entries[i].1;
        let present = cache_contains(cache, name.as_str(), version.as_str());
        proof {
            assert(present == cache_has(c, e[i as int].0@, e[i as int].1@));
        }
        if !present {
            proof {
                assert forall|p: int| 0 <= p < r@.len() implies r@[p].0@ != e[i as int].0@ by {
                    assert(from_missing_entry(e, c, i as int, r@[p].0@, r@[p].1@));
                    let j = choose|j: int|
                        0 <= j < i as int && r@[p].0@ == e[j].0@ && r@[p].1@ == e[j].1@
                            && !cache_has(c, e[j].0@, e[j].1@);
                }
            }
            let ghost r_old = r@;
            r.push((name.clone(), version.clone()));
            proof {
                assert forall|j: int|
                    #![trigger e[j]]
                    0 <= j < i + 1 && !cache_has(c, e[j].0@, e[j].1@) implies exists|p: int|
                    0 <= p < r@.len() && r@[p].0@ == e[j].0@ by {
                    if j == i {
                        assert(r@[r@.len() - 1].0@ == e[j].0@);
                    } else {
                        let p = choose|p: int| 0 <= p < r_old.len() && r_old[p].0@ == e[j].0@;
                        assert(r@[p] == r_old[p]);
                        assert(r@[p].0@ == e[j].0@);
                    }
                }
            }
        }
        i += 1;
    }
    proof {
        assert forall|p: int|
            0 <= p < r@.len() implies manifest.packages@.contains_key(#[trigger] r@[p].0@)
            && manifest.packages@[r@[p].0@] == r@[p].1@ && !cache_has(c, r@[p].0@, r@[p].1@) by {
            assert(from_missing_entry(e, c, n as int, r@[p].0@, r@[p].1@));
            let j = choose|j: int|
                0 <= j < n as int && r@[p].0@ == e[j].0@ && r@[p].1@ == e[j].1@ && !cache_has(
                    c,
                    e[j].0@,
                    e[j].1@,
                );
            assert(e[j] == manifest.packages.entries@[j]);
        }
        assert forall|k: Seq<char>|
            #[trigger] manifest.packages@.contains_key(k) && !cache_has(
                c,
                k,
                manifest.packages@[k],
            ) implies exists|p: int| 0 <= p < r@.len() && r@[p].0@ == k by {
            assert(has_name(e, k));
            let j = choose|j: int| 0 <= j < e.len() && e[j].0@ == k;
            assert(manifest.packages@[e[j].0@] == e[j].1@);
            assert(!cache_has(c, e[j].0@, e[j].1@));
        }
    }
    r
}

/// Cache-hit skip: when the cache already holds every package of the
/// manifest at its exact version, a correct plan is empty — zero downloads,
/// and the newly-fetched count is zero.
pub proof fn lemma_cache_hit_skip(
    pkgs: Map<Seq<char>, Seq<char>>,
    cache: Seq<(String, String)>,
    r: Seq<(String, String)>,
)
    requires
        plan_correct(pkgs, cache, r),
        forall|k: Seq<char>| #[trigger] pkgs.contains_key(k) ==> cache_has(cache, k, pkgs[k]),
    ensures
        r.len() == 0,
{
    if r.len() > 0 {
        assert(pkgs.contains_key(r[0].0@));
        assert(cache_has(cache, r[0].0@, pkgs[r[0].0@]));
        assert(false);
    }
}

/// How the acquisition of one planned package ended.
pub enum FetchStatus {
    /// Downloaded, verified against the trusted key, unpacked and moved
    /// into its final cache location.
    Fetched,
    /// Failed at the given stage.
    Failed(Stage),
}

/// The reported outcome for one planned `(name, version)`.
pub struct FetchOutcome {
    pub name: String,
    pub version: String,
    pub status: FetchStatus,
}

/// Every outcome of the batch reports success.
pub open spec fn all_fetched(s: Seq<FetchOutcome>) -> bool {
    forall|i: int| 0 <= i < s.len() ==> (#[trigger] s[i].status) is Fetched
}

/// `e` is the error for the first failed outcome, at position `i`.
pub open spec fn first_failure_error(s: Seq<FetchOutcome>, i: int, e: Error) -> bool {
    &&& 0 <= i < s.len()
    &&& forall|j: int| 0 <= j < i ==> (#[trigger] s[j].status) is Fetched
    &&& (e matches Error::PackageFailed { package, version, stage } && package@ == s[i].name@
        && version@ == s[i].version@ && s[i].status == FetchStatus::Failed(stage))
}

/// Folds a batch of per-package outcomes: the count of packages fetched if
/// every one succeeded, else the failure of the first package that did not
/// — acquisition is all-or-nothing, a failed package is never skipped.
pub fn collect_batch(outcomes: &Vec<FetchOutcome>) -> (r: Result<usize, Error>)
    ensures
        r is Ok <==> all_fetched(outcomes@),
        r matches Ok(c) ==> c == outcomes@.len(),
        r matches Err(e) ==> exists|i: int| first_failure_error(outcomes@, i, e),
{
    let n = outcomes.len();
    let mut i: usize = 0;
    while i < n
        invariant
            i <= n,
            n == outcomes@.len(),
            forall|j: int| 0 <= j < i ==> (#[trigger] outcomes@[j].status) is Fetched,
        decreases n - i,
    {
        match &outcomes[i].status {
            FetchStatus::Fetched => {},
            FetchStatus::Failed(stage) => {
                let e = Error::PackageFailed {
                    package: outcomes[i].name.clone(),
                    version: outcomes[i].version.clone(),
                    stage: *stage,
                };
                proof {
                    assert(first_failure_error(outcomes@, i as int, e));
                }
                return Err(e);
            },
        }
        i += 1;
    }
    Ok(n)
}

/// The archive-unpacking capability of the acquisition pipeline. Reading a
/// tarball's entries and unpacking them are I/O and live with the command
/// shell; this marker names that capability where the pipeline is wired up.
pub struct Untar;

impl Untar {
    /// The unpacker, boxed the way the download pipeline takes it.
    pub fn boxed() -> (r: Box<Untar>)
        ensures
            *r == (Untar {}),
    {
        Box::new(Untar {})
    }
}

} // verus!
