//! Merging the outcomes of the independent probes of one domain into its
//! report.
//!
//! Each probe either completed with a value or failed; the merge gives every
//! failed probe's field its documented default and never lets one probe's
//! failure touch another field.

use vstd::prelude::*;
use crate::decode::{layer0_timing, layer0_version, spec_layer0_timing, spec_layer0_version};
use crate::report::{spec_default_report, ReportView, ResponseInfo};
use crate::response::{get_status, HttpResponse, HttpResponseView};

verus! {

/// The report that the probe outcomes merge to:
/// - no HTTP response (transport failure) forces status 0 and both vendor
///   fields absent; otherwise they are the response's status and its decoded
///   headers;
/// - the certificate is valid exactly when one was retrieved and was not
///   expired;
/// - failed resolution leaves the address list empty.
pub open spec fn spec_build_report(
    http: Option<HttpResponseView>,
    cert_expired: Option<bool>,
    ips: Option<Seq<Seq<char>>>,
) -> ReportView {
    ReportView {
        http_status: match http {
            Some(h) => h.status,
            None => 0,
        },
        cert_valid: cert_expired == Some(false),
        layer_0_version: match http {
            Some(h) => spec_layer0_version(h),
            None => None,
        },
        layer_0_timings: match http {
            Some(h) => spec_layer0_timing(h),
            None => None,
        },
        ips: match ips {
            Some(addrs) => addrs,
            None => Seq::empty(),
        },
    }
}

/// Merges the probe outcomes for one domain into its report.
///
/// `http` is the HTTP probe's response when the request completed at the
/// transport level (whatever its status code); `cert_expired` is whether the
/// retrieved TLS certificate had expired, when one could be retrieved;
/// `ips` is the resolved address list, when resolution succeeded.
pub fn build_report(
    http: Option<HttpResponse>,
    cert_expired: Option<bool>,
    ips: Option<Vec<String>>,
) -> (r: ResponseInfo)
    ensures
        r@ == spec_build_report(http.deep_view(), cert_expired, ips.deep_view()),
        r@.wf(),
{
    let (http_status, layer_0_version, layer_0_timings) = match &http {
        Some(response) => (
            get_status(response),
            layer0_version(response),
            layer0_timing(response),
        ),
        None => (0u16, None, None),
    };
    let cert_valid = match cert_expired {
        Some(expired) => !expired,
        None => false,
    };
    let addr_list = match ips {
        Some(addrs) => addrs,
        None => Vec::new(),
    };
    let r = ResponseInfo {
        http_status,
        cert_valid,
        layer_0_version,
        layer_0_timings,
        ips: addr_list,
    };
    proof {
        assert(r@.ips =~= spec_build_report(http.deep_view(), cert_expired, ips.deep_view()).ips);
    }
    r
}

/// Field independence: each field of the merged report depends only on its
/// own probe's outcome.  Two merges that agree on one probe agree on that
/// probe's fields, however the other probes fared.
pub proof fn lemma_field_independence(
    http1: Option<HttpResponseView>,
    cert1: Option<bool>,
    ips1: Option<Seq<Seq<char>>>,
    http2: Option<HttpResponseView>,
    cert2: Option<bool>,
    ips2: Option<Seq<Seq<char>>>,
)
    ensures
        http1 == http2 ==> spec_build_report(http1, cert1, ips1).http_status == spec_build_report(
            http2,
            cert2,
            ips2,
        ).http_status,
        http1 == http2 ==> spec_build_report(http1, cert1, ips1).layer_0_version
            == spec_build_report(http2, cert2, ips2).layer_0_version,
        http1 == http2 ==> spec_build_report(http1, cert1, ips1).layer_0_timings
            == spec_build_report(http2, cert2, ips2).layer_0_timings,
        cert1 == cert2 ==> spec_build_report(http1, cert1, ips1).cert_valid == spec_build_report(
            http2,
            cert2,
            ips2,
        ).cert_valid,
        ips1 == ips2 ==> spec_build_report(http1, cert1, ips1).ips == spec_build_report(
            http2,
            cert2,
            ips2,
        ).ips,
{
}

/// A transport failure of the HTTP probe forces status 0 and both vendor
/// header fields absent, while the certificate and address fields still
/// reflect their own probes' outcomes alone.
pub proof fn lemma_transport_failure(cert_expired: Option<bool>, ips: Option<Seq<Seq<char>>>)
    ensures
        spec_build_report(None, cert_expired, ips).http_status == 0,
        spec_build_report(None, cert_expired, ips).layer_0_version is None,
        spec_build_report(None, cert_expired, ips).layer_0_timings is None,
        spec_build_report(None, cert_expired, ips).cert_valid == (cert_expired == Some(false)),
        spec_build_report(None, cert_expired, ips).ips == match ips {
            Some(addrs) => addrs,
            None => Seq::<Seq<char>>::empty(),
        },
{
}

/// When every probe fails, the merge is exactly the default report.
pub proof fn lemma_all_failed_is_default()
    ensures
        spec_build_report(None, None, None) == spec_default_report(),
{
}

/// Building a report is deterministic: two reports built from the same
/// probe outcomes are equal.  With stable server-side state the probes
/// return the same outcomes, so repeated builds return identical reports.
pub proof fn lemma_build_report_idempotent(
    http: Option<HttpResponseView>,
    cert_expired: Option<bool>,
    ips: Option<Seq<Seq<char>>>,
    r1: ReportView,
    r2: ReportView,
)
    requires
        r1 == spec_build_report(http, cert_expired, ips),
        r2 == spec_build_report(http, cert_expired, ips),
    ensures
        r1 == r2,
{
}

} // verus!
