//! The fixed-shape diagnostic record produced for one domain.

use vstd::prelude::*;

verus! {

/// The diagnostic report for one domain.  Every field is always present;
/// a probe that could not complete degrades its own field to the documented
/// default (`0`, `false`, `None` or empty) and never touches the others.
pub struct ResponseInfo {
    /// HTTP status of the probe request; 0 means the probe could not
    /// complete at the transport level.
    pub http_status: u16,
    /// A TLS certificate was retrieved and its expiry is in the future.
    pub cert_valid: bool,
    /// Second token of the vendor version header, when the header was
    /// present and well-formed.
    pub layer_0_version: Option<String>,
    /// Entries of the vendor timing header, when the header was present and
    /// well-formed: keys ending in `t`, each with its decoded value, keys
    /// unique, in order of first appearance.
    pub layer_0_timings: Option<Vec<(String, u16)>>,
    /// Textual IP addresses the domain resolves to; empty when resolution
    /// failed.
    pub ips: Vec<String>,
}

/// The entries form a mapping: their keys are pairwise distinct.
pub open spec fn unique_keys(entries: Seq<(Seq<char>, u16)>) -> bool {
    forall|i: int, j: int| 0 <= i < j < entries.len() ==> entries[i].0 != entries[j].0
}

pub ghost struct ReportView {
    pub http_status: u16,
    pub cert_valid: bool,
    pub layer_0_version: Option<Seq<char>>,
    pub layer_0_timings: Option<Seq<(Seq<char>, u16)>>,
    pub ips: Seq<Seq<char>>,
}

impl ReportView {
    /// The timing field, when present, is a genuine mapping.
    pub open spec fn wf(self) -> bool {
        self.layer_0_timings matches Some(t) ==> unique_keys(t)
    }
}

impl View for ResponseInfo {
    type V = ReportView;

    open spec fn view(&self) -> ReportView {
        ReportView {
            http_status: self.http_status,
            cert_valid: self.cert_valid,
            layer_0_version: self.layer_0_version.deep_view(),
            layer_0_timings: self.layer_0_timings.deep_view(),
            ips: self.ips.deep_view(),
        }
    }
}

impl DeepView for ResponseInfo {
    type V = ReportView;

    open spec fn deep_view(&self) -> ReportView {
        self.view()
    }
}

/// The report of a domain about which nothing could be learned.
pub open spec fn spec_default_report() -> ReportView {
    ReportView {
        http_status: 0,
        cert_valid: false,
        layer_0_version: None,
        layer_0_timings: None,
        ips: Seq::empty(),
    }
}

impl Default for ResponseInfo {
    /// Every field at its failure default.
    fn default() -> (r: Self)
        ensures
            r@ == spec_default_report(),
    {
        let r = ResponseInfo {
            http_status: 0,
            cert_valid: false,
            layer_0_version: None,
            layer_0_timings: None,
            ips: Vec::new(),
        };
        proof {
            assert(r@.ips =~= spec_default_report().ips);
        }
        r
    }
}

} // verus!
