//! Normalization of a bare domain name into a probe URL.

use vstd::prelude::*;
use crate::strutil::{spec_starts_with, starts_with};

verus! {

/// The URL a domain is probed at: the domain itself when it already carries
/// an HTTP scheme prefix (`http://` or `https://`), otherwise the domain
/// prefixed with `http://`.
pub open spec fn spec_clean_url(u: Seq<char>) -> Seq<char> {
    if spec_starts_with(u, "http://"@) || spec_starts_with(u, "https://"@) {
        u
    } else {
        "http://"@ + u
    }
}

/// Normalizes a domain into the URL the HTTP probe requests.
pub fn clean_url(url: &str) -> (r: String)
    ensures
        r@ == spec_clean_url(url@),
{
    if starts_with(url, "http://") || starts_with(url, "https://") {
        url.to_owned()
    } else {
        let mut s = "http://".to_owned();
        s.append(url);
        s
    }
}

} // verus!
