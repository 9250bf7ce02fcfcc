use domain_info::batch::run_batch;
use domain_info::builder::build_report;
use domain_info::report::ResponseInfo;
use domain_info::response::HttpResponse;

fn response_with(status: u16, headers: Vec<(&str, &str)>) -> HttpResponse {
    HttpResponse {
        status,
        headers: headers.into_iter().map(|(n, v)| (n.to_string(), v.to_string())).collect(),
    }
}

#[test]
fn transport_failure_degrades_http_fields_only() {
    let ips = vec!["192.0.2.1".to_string()];
    let r = build_report(None, Some(false), Some(ips.clone()));
    assert_eq!(r.http_status, 0);
    assert_eq!(r.layer_0_version, None);
    assert_eq!(r.layer_0_timings, None);
    assert!(r.cert_valid);
    assert_eq!(r.ips, ips);
}

#[test]
fn successful_probes_fill_every_field() {
    let resp = response_with(
        200,
        vec![("x-0-version", "name value"), ("x-0-t", "k1t=10,k2=20,k3t=30")],
    );
    let r = build_report(
        Some(resp),
        Some(false),
        Some(vec!["192.0.2.1".to_string(), "2001:db8::1".to_string()]),
    );
    assert_eq!(r.http_status, 200);
    assert!(r.cert_valid);
    assert_eq!(r.layer_0_version, Some("value".to_string()));
    assert_eq!(
        r.layer_0_timings,
        Some(vec![("k1t".to_string(), 10u16), ("k3t".to_string(), 30u16)])
    );
    assert_eq!(r.ips, vec!["192.0.2.1".to_string(), "2001:db8::1".to_string()]);
}

#[test]
fn non_success_status_is_kept() {
    let resp = response_with(503, vec![]);
    let r = build_report(Some(resp), None, None);
    assert_eq!(r.http_status, 503);
}

#[test]
fn expired_certificate_is_invalid() {
    let r = build_report(None, Some(true), None);
    assert!(!r.cert_valid);
}

#[test]
fn unreachable_certificate_is_invalid() {
    let r = build_report(None, None, None);
    assert!(!r.cert_valid);
}

#[test]
fn failed_resolution_gives_empty_ips() {
    let r = build_report(Some(response_with(200, vec![])), Some(false), None);
    assert_eq!(r.ips, Vec::<String>::new());
}

#[test]
fn default_report_has_every_failure_default() {
    let r = ResponseInfo::default();
    assert_eq!(r.http_status, 0);
    assert!(!r.cert_valid);
    assert_eq!(r.layer_0_version, None);
    assert_eq!(r.layer_0_timings, None);
    assert_eq!(r.ips, Vec::<String>::new());
}

#[test]
fn repeated_builds_are_identical() {
    let make = || {
        build_report(
            Some(response_with(301, vec![("x-0-version", "name value")])),
            Some(false),
            Some(vec!["192.0.2.7".to_string()]),
        )
    };
    let a = make();
    let b = make();
    assert_eq!(a.http_status, b.http_status);
    assert_eq!(a.cert_valid, b.cert_valid);
    assert_eq!(a.layer_0_version, b.layer_0_version);
    assert_eq!(a.layer_0_timings, b.layer_0_timings);
    assert_eq!(a.ips, b.ips);
}

#[test]
fn batch_has_one_entry_per_domain() {
    let domains = vec!["a.example".to_string(), "b.example".to_string(), "c.example".to_string()];
    let reports = vec![
        build_report(Some(response_with(200, vec![])), Some(false), None),
        build_report(None, None, None),
        build_report(Some(response_with(404, vec![])), Some(true), None),
    ];
    let batch = run_batch(domains.clone(), reports);
    assert_eq!(batch.len(), 3);
    assert_eq!(batch.get("a.example").expect("present").http_status, 200);
    assert_eq!(batch.get("b.example").expect("present").http_status, 0);
    assert_eq!(batch.get("c.example").expect("present").http_status, 404);
    assert!(batch.get("d.example").is_none());
    for (i, (domain, _)) in batch.entries.iter().enumerate() {
        assert_eq!(domain, &domains[i]);
    }
}

#[test]
fn empty_batch_is_empty() {
    let batch = run_batch(vec![], vec![]);
    assert_eq!(batch.len(), 0);
    assert!(batch.get("a.example").is_none());
}
