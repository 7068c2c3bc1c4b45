//! The course of one scan: fingerprints and read failures come in file by
//! file, and the report comes out.

use crate::error::{IoError, ScanError};
use crate::fingerprint::Fingerprint;
use crate::group::{entries_model, get_sha_256_hashmap, grouping, Entry, ScanResult};
use vstd::prelude::*;

verus! {

/// What a scan does about a file that cannot be read.
#[derive(Clone, Copy, Debug, PartialEq, Eq, Structural)]
pub enum Policy {
    /// Leave the file out of every group, note the failure, and go on.
    Skip,
    /// Stop the scan with the failure.
    Strict,
}

/// The paths and causes of a list of read failures.
pub open spec fn failures_model(errors: Seq<IoError>) -> Seq<(Seq<char>, Seq<char>)> {
    Seq::new(errors.len(), |i: int| errors[i]@)
}

/// What a scan found.
#[derive(Debug)]
pub struct ScanReport {
    /// The groups of files with the same content.
    pub duplicates: ScanResult,
    /// The files that were left out because they could not be read.
    pub errors: Vec<IoError>,
    /// Whether the scan was ended before all files were seen.
    pub partial: bool,
}

/// A scan in progress.
#[derive(Debug)]
pub struct Scan {
    policy: Policy,
    files: Vec<(String, Fingerprint)>,
    errors: Vec<IoError>,
}

impl Scan {
    /// The policy that the scan was started with.
    pub closed spec fn policy(&self) -> Policy {
        self.policy
    }

    /// The files fingerprinted so far, in the order in which they came.
    pub closed spec fn entries(&self) -> Seq<Entry> {
        entries_model(self.files@)
    }

    /// The read failures noted so far, in the order in which they came.
    pub closed spec fn failures(&self) -> Seq<(Seq<char>, Seq<char>)> {
        failures_model(self.errors@)
    }

    /// Starts a scan, with nothing seen.
    pub fn new(policy: Policy) -> (scan: Scan)
        ensures
            scan.policy() == policy,
            scan.entries() == Seq::<Entry>::empty(),
            scan.failures() == Seq::<(Seq<char>, Seq<char>)>::empty(),
    {
        Scan { policy, files: Vec::new(), errors: Vec::new() }
    }

    /// Takes the outcome of fingerprinting the file at `path`: the
    /// fingerprint, or the cause for which the file could not be read.
    ///
    /// A fingerprint is kept for grouping. A failure is noted under `Skip`;
    /// under `Strict` it is handed back as the error that ends the scan.
    pub fn record(&mut self, path: String, outcome: Result<Fingerprint, String>) -> (verdict:
        Result<(), ScanError>)
        ensures
            final(self).policy() == old(self).policy(),
            match outcome {
                Ok(fp) => {
                    &&& verdict is Ok
                    &&& final(self).entries() == old(self).entries().push((path@, fp@))
                    &&& final(self).failures() == old(self).failures()
                },
                Err(cause) => {
                    &&& final(self).entries() == old(self).entries()
                    &&& match old(self).policy() {
                        Policy::Skip => {
                            &&& verdict is Ok
                            &&& final(self).failures() == old(self).failures().push(
                                (path@, cause@),
                            )
                        },
                        Policy::Strict => {
                            &&& verdict matches Err(ScanError::Io(e)) && e@ == (path@, cause@)
                            &&& final(self).failures() == old(self).failures()
                        },
                    }
                },
            },
    {
        match outcome {
            Ok(fp) => {
                self.files.push((path, fp));
                Ok(())
            },
            Err(cause) => {
                let error = IoError { path, cause };
                match self.policy {
                    Policy::Skip => {
                        self.errors.push(error);
                        Ok(())
                    },
                    Policy::Strict => Err(ScanError::Io(error)),
                }
            },
        }
    }

    /// Ends the scan after the last file: groups what was fingerprinted and
    /// lists what was left out.
    pub fn finish(self) -> (report: ScanReport)
        ensures
            report.duplicates.groups() == grouping(self.entries()),
            failures_model(report.errors@) == self.failures(),
            !report.partial,
    {
        ScanReport {
            duplicates: get_sha_256_hashmap(&self.files),
            errors: self.errors,
            partial: false,
        }
    }

    /// Ends the scan before the last file. The report covers the files seen
    /// so far and says that it is partial.
    pub fn cancel(self) -> (report: ScanReport)
        ensures
            report.duplicates.groups() == grouping(self.entries()),
            failures_model(report.errors@) == self.failures(),
            report.partial,
    {
        ScanReport {
            duplicates: get_sha_256_hashmap(&self.files),
            errors: self.errors,
            partial: true,
        }
    }
}

} // verus!
