//! The persisted state a reconciliation cycle owns: the manifest file and
//! the ledger file, modelled as the text they hold. The command shell
//! mirrors this store to disk with whole-file reads and writes; everything
//! that decides *what* the files hold is here, so persistence is
//! all-or-nothing by construction.

use vstd::prelude::*;

use crate::acquire::FetchOutcome;
use crate::acquire::all_fetched;
use crate::acquire::collect_batch;
use crate::acquire::first_failure_error;
use crate::codec::ledger_text;
use crate::codec::manifest_text;
use crate::codec::render_ledger;
use crate::codec::render_manifest;
use crate::error::Error;
use crate::manifest::LocalPackages;
use crate::manifest::Manifest;

verus! {

/// The two record files, each absent or holding its full text.
pub struct Store {
    /// The manifest file at its fixed project-relative path.
    pub manifest_file: Option<String>,
    /// The ledger file at its fixed cache-relative path.
    pub ledger_file: Option<String>,
}

impl Store {
    /// A store with neither record present.
    pub fn new() -> (r: Store)
        ensures
            r.manifest_file is None,
            r.ledger_file is None,
    {
        Store { manifest_file: None, ledger_file: None }
    }

    /// Reads the stored manifest: nothing when no manifest file exists —
    /// the caller then resolves anew — and the parsed record when one does.
    /// A file that exists but does not parse is a fatal error, never
    /// treated as absent.
    pub fn read_manifest(&self) -> (r: Result<Option<Manifest>, Error>)
        ensures
            (r matches Ok(o) && o is None) <==> self.manifest_file is None,
            r matches Ok(Some(m)) ==> m.wf() && (self.manifest_file matches Some(t)
                && crate::codec::parse_manifest_from(t@, 0, 0, Seq::empty(), Seq::empty()) == Some(
                (
                crate::table::views_of(m.requirements.entries@),
                crate::table::views_of(m.packages.entries@),
            ))),
            r is Err ==> (self.manifest_file matches Some(t) && crate::codec::parse_manifest_from(
                t@,
                0,
                0,
                Seq::empty(),
                Seq::empty(),
            ) is None),
    {
        match &self.manifest_file {
            None => Ok(None),
            Some(t) => match crate::codec::parse_manifest(t.as_str()) {
                Ok(m) => Ok(Some(m)),
                Err(e) => Err(e),
            },
        }
    }

    /// Reads the stored ledger, under the same rules as the manifest.
    pub fn read_ledger(&self) -> (r: Result<Option<LocalPackages>, Error>)
        ensures
            (r matches Ok(o) && o is None) <==> self.ledger_file is None,
            r matches Ok(Some(l)) ==> l.wf() && (self.ledger_file matches Some(t)
                && crate::codec::parse_ledger_from(t@, 0, 0, Seq::empty()) == Some(
                crate::table::views_of(l.packages.entries@),
            )),
            r is Err ==> (self.ledger_file matches Some(t) && crate::codec::parse_ledger_from(
                t@,
                0,
                0,
                Seq::empty(),
            ) is None),
    {
        match &self.ledger_file {
            None => Ok(None),
            Some(t) => match crate::codec::parse_ledger(t.as_str()) {
                Ok(l) => Ok(Some(l)),
                Err(e) => Err(e),
            },
        }
    }

    /// Ends a reconciliation cycle, all or nothing. When every outcome of
    /// the acquisition batch reports success, both records are rewritten —
    /// the manifest, and the ledger derived from it — and the count of
    /// newly fetched packages is returned. When any package failed, its
    /// first failure is returned and neither file changes, so a crashed or
    /// failed run leaves the previously persisted state intact and a retry
    /// starts from it.
    pub fn commit(&mut self, manifest: &Manifest, outcomes: &Vec<FetchOutcome>) -> (r: Result<
        usize,
        Error,
    >)
        requires
            manifest.wf(),
        ensures
            r is Ok <==> all_fetched(outcomes@),
            r matches Ok(c) ==> c == outcomes@.len(),
            r is Ok ==> (final(self).manifest_file matches Some(t) && t@ == manifest_text(
                *manifest,
            )),
            r is Ok ==> (final(self).ledger_file matches Some(t) && t@ == ledger_text(
                (LocalPackages { packages: manifest.packages }),
            )),
            r matches Err(e) ==> *final(self) == *old(self) && exists|i: int|
                first_failure_error(outcomes@, i, e),
    {
        match collect_batch(outcomes) {
            Ok(count) => {
                let ledger = LocalPackages { packages: manifest.packages.duplicate() };
                proof {
                    assert(ledger_text(ledger) == ledger_text(
                        (LocalPackages { packages: manifest.packages }),
                    ));
                }
                self.manifest_file = Some(render_manifest(manifest));
                self.ledger_file = Some(render_ledger(&ledger));
                Ok(count)
            },
            Err(e) => Err(e),
        }
    }
}

} // verus!
