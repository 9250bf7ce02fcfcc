//! Aggregation of per-domain reports into one mapping.
//!
//! The workers that probe the domains run outside this library; once each
//! has produced its report, the aggregation here pairs every domain with its
//! report and guarantees that no entry is lost or duplicated.

use vstd::prelude::*;
use crate::report::ResponseInfo;
use crate::strutil::str_eq;

verus! {

/// A mapping from domain name to report, with unique keys.
pub struct BatchResult {
    /// `(domain, report)` pairs, one per input domain.
    pub entries: Vec<(String, ResponseInfo)>,
}

impl BatchResult {
    /// The keys are pairwise distinct, so the entries form a mapping.
    pub open spec fn wf(self) -> bool {
        forall|i: int, j: int|
            0 <= i < j < self.entries@.len() ==> self.entries@[i].0@ != self.entries@[j].0@
    }

    /// Number of domains reported on.
    pub fn len(&self) -> (n: usize)
        ensures
            n == self.entries@.len(),
    {
        self.entries.len()
    }

    /// The report for `domain`, when the batch contains one.
    pub fn get(&self, domain: &str) -> (r: Option<&ResponseInfo>)
        ensures
            match r {
                Some(report) => exists|i: int|
                    0 <= i < self.entries@.len() && #[trigger] self.entries@[i].0@ == domain@
                        && *report == self.entries@[i].1,
                None => forall|i: int|
                    0 <= i < self.entries@.len() ==> #[trigger] self.entries@[i].0@ != domain@,
            },
    {
        let n = self.entries.len();
        let mut i: usize = 0;
        while i < n
            invariant
                0 <= i <= n,
                n == self.entries@.len(),
                forall|j: int| 0 <= j < i ==> #[trigger] self.entries@[j].0@ != domain@,
            decreases n - i,
        {
            let entry = &self.entries[i];
            if str_eq(entry.0.as_str(), domain) {
                return Some(&entry.1);
            }
            i = i + 1;
        }
        None
    }
}

/// Collects the reports of a batch of distinct domains into one mapping:
/// exactly one entry per input domain, each domain paired with its own
/// report, none lost and none invented.
pub fn run_batch(domains: Vec<String>, reports: Vec<ResponseInfo>) -> (r: BatchResult)
    requires
        domains@.len() == reports@.len(),
        forall|i: int, j: int| 0 <= i < j < domains@.len() ==> domains@[i]@ != domains@[j]@,
    ensures
        r.wf(),
        r.entries@.len() == domains@.len(),
        forall|i: int|
            0 <= i < domains@.len() ==> #[trigger] r.entries@[i].0@ == domains@[i]@
                && r.entries@[i].1 == reports@[i],
{
    let ghost all_reports = reports@;
    let mut remaining = reports;
    let mut entries: Vec<(String, ResponseInfo)> = Vec::new();
    let n = domains.len();
    let mut i: usize = 0;
    while i < n
        invariant
            0 <= i <= n,
            n == domains@.len(),
            all_reports.len() == n,
            remaining@ =~= all_reports.skip(i as int),
            entries@.len() == i,
            forall|j: int|
                0 <= j < i ==> #[trigger] entries@[j].0@ == domains@[j]@ && entries@[j].1
                    == all_reports[j],
        decreases n - i,
    {
        let domain = domains[i].clone();
        let report = remaining.remove(0);
        proof {
            assert(all_reports.skip(i as int)[0] == all_reports[i as int]);
            assert(all_reports.skip(i as int).remove(0) =~= all_reports.skip(i + 1));
        }
        entries.push((domain, report));
        i = i + 1;
    }
    BatchResult { entries }
}

} // verus!
