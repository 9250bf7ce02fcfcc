use domain_info::decode::{
    layer0_timing, layer0_timing_with, layer0_version, layer0_version_with, DecodeError,
    MalformedPolicy,
};
use domain_info::response::{get_status, HttpResponse};
use domain_info::url::clean_url;

fn response_with(headers: Vec<(&str, &str)>) -> HttpResponse {
    HttpResponse {
        status: 200,
        headers: headers.into_iter().map(|(n, v)| (n.to_string(), v.to_string())).collect(),
    }
}

#[test]
fn version_two_tokens() {
    let r = response_with(vec![("x-0-version", "name value")]);
    assert_eq!(layer0_version(&r), Some("value".to_string()));
}

#[test]
fn version_single_token_is_absent() {
    let r = response_with(vec![("x-0-version", "nameonly")]);
    assert_eq!(layer0_version(&r), None);
}

#[test]
fn version_missing_header_is_absent() {
    let r = response_with(vec![("content-type", "text/html")]);
    assert_eq!(layer0_version(&r), None);
}

#[test]
fn version_takes_second_token_of_many() {
    let r = response_with(vec![("x-0-version", "name value extra")]);
    assert_eq!(layer0_version(&r), Some("value".to_string()));
}

#[test]
fn version_header_name_is_case_insensitive() {
    let r = response_with(vec![("X-0-Version", "name value")]);
    assert_eq!(layer0_version(&r), Some("value".to_string()));
}

#[test]
fn timings_keep_keys_ending_in_t() {
    let r = response_with(vec![("x-0-t", "k1t=10,k2=20,k3t=30")]);
    let t = layer0_timing(&r).expect("well-formed header");
    assert_eq!(
        t,
        vec![("k1t".to_string(), 10u16), ("k3t".to_string(), 30u16)]
    );
}

#[test]
fn timings_missing_header_is_absent() {
    let r = response_with(vec![("content-type", "text/html")]);
    assert_eq!(layer0_timing(&r), None);
}

#[test]
fn timings_non_numeric_value_fails_whole_field() {
    let r = response_with(vec![("x-0-t", "k1t=10,k2t=abc")]);
    assert_eq!(layer0_timing(&r), None);
}

#[test]
fn timings_missing_eq_on_kept_key_fails_whole_field() {
    let r = response_with(vec![("x-0-t", "k1t=10,k2t")]);
    assert_eq!(layer0_timing(&r), None);
}

#[test]
fn timings_missing_eq_on_dropped_key_is_skipped() {
    let r = response_with(vec![("x-0-t", "k1t=10,k2")]);
    let t = layer0_timing(&r).expect("segment without t is skipped");
    assert_eq!(t, vec![("k1t".to_string(), 10u16)]);
}

#[test]
fn timings_value_range() {
    let r = response_with(vec![("x-0-t", "at=65535")]);
    assert_eq!(
        layer0_timing(&r),
        Some(vec![("at".to_string(), 65535u16)])
    );
    let r = response_with(vec![("x-0-t", "at=65536")]);
    assert_eq!(layer0_timing(&r), None);
}

#[test]
fn timings_leading_plus_parses() {
    let r = response_with(vec![("x-0-t", "at=+7")]);
    assert_eq!(layer0_timing(&r), Some(vec![("at".to_string(), 7u16)]));
}

#[test]
fn timings_duplicate_key_keeps_last_value() {
    let r = response_with(vec![("x-0-t", "at=1,at=2")]);
    assert_eq!(layer0_timing(&r), Some(vec![("at".to_string(), 2u16)]));
}

#[test]
fn timings_extra_eq_takes_second_piece() {
    let r = response_with(vec![("x-0-t", "at=5=9")]);
    assert_eq!(layer0_timing(&r), Some(vec![("at".to_string(), 5u16)]));
}

#[test]
fn timings_empty_value_has_no_entries() {
    let r = response_with(vec![("x-0-t", "")]);
    assert_eq!(layer0_timing(&r), Some(vec![]));
}

#[test]
fn version_policy_picks_absent_or_error() {
    let malformed = response_with(vec![("x-0-version", "nameonly")]);
    assert_eq!(layer0_version_with(&malformed, MalformedPolicy::Absent), Ok(None));
    assert_eq!(
        layer0_version_with(&malformed, MalformedPolicy::Error),
        Err(DecodeError::MalformedVersion)
    );
    let missing = response_with(vec![]);
    assert_eq!(layer0_version_with(&missing, MalformedPolicy::Error), Ok(None));
    let well_formed = response_with(vec![("x-0-version", "name value")]);
    assert_eq!(
        layer0_version_with(&well_formed, MalformedPolicy::Error),
        Ok(Some("value".to_string()))
    );
}

#[test]
fn timing_policy_picks_absent_or_error() {
    let malformed = response_with(vec![("x-0-t", "kt=abc")]);
    assert_eq!(layer0_timing_with(&malformed, MalformedPolicy::Absent), Ok(None));
    assert_eq!(
        layer0_timing_with(&malformed, MalformedPolicy::Error),
        Err(DecodeError::MalformedTiming)
    );
    let missing = response_with(vec![]);
    assert_eq!(layer0_timing_with(&missing, MalformedPolicy::Error), Ok(None));
    let well_formed = response_with(vec![("x-0-t", "k1t=10")]);
    assert_eq!(
        layer0_timing_with(&well_formed, MalformedPolicy::Error),
        Ok(Some(vec![("k1t".to_string(), 10u16)]))
    );
}

#[test]
fn status_is_read_back() {
    let r = HttpResponse { status: 404, headers: vec![] };
    assert_eq!(get_status(&r), 404);
}

#[test]
fn clean_url_prefixes_bare_domain() {
    assert_eq!(clean_url("example.com"), "http://example.com");
}

#[test]
fn clean_url_keeps_existing_scheme() {
    assert_eq!(clean_url("http://example.com"), "http://example.com");
    assert_eq!(clean_url("https://example.com"), "https://example.com");
}

#[test]
fn clean_url_prefixes_non_http_schemes() {
    assert_eq!(clean_url("ftp://example.com"), "http://ftp://example.com");
}
