//! The slice of an HTTP response that the diagnostics read: the status code
//! and the response headers, as plain values.

use vstd::prelude::*;
use crate::strutil::{eq_nocase, str_eq_nocase};

verus! {

/// The status and headers of one HTTP response.  The transport layer that
/// performed the request hands them over as plain values; everything read
/// from them afterwards is verified.
pub struct HttpResponse {
    pub status: u16,
    /// Header `(name, value)` pairs, in response order.
    pub headers: Vec<(String, String)>,
}

pub ghost struct HttpResponseView {
    pub status: u16,
    pub headers: Seq<(Seq<char>, Seq<char>)>,
}

impl View for HttpResponse {
    type V = HttpResponseView;

    open spec fn view(&self) -> HttpResponseView {
        HttpResponseView { status: self.status, headers: self.headers.deep_view() }
    }
}

impl DeepView for HttpResponse {
    type V = HttpResponseView;

    open spec fn deep_view(&self) -> HttpResponseView {
        self.view()
    }
}

/// The value of the first header whose name matches `name` up to ASCII
/// case, as HTTP defines header-name equality.
pub open spec fn spec_header_value(headers: Seq<(Seq<char>, Seq<char>)>, name: Seq<char>) -> Option<
    Seq<char>,
>
    decreases headers.len(),
{
    if headers.len() == 0 {
        None
    } else if eq_nocase(headers[0].0, name) {
        Some(headers[0].1)
    } else {
        spec_header_value(headers.drop_first(), name)
    }
}

impl HttpResponse {
    /// Looks `name` up among the headers, ASCII-case-insensitively.
    pub fn header(&self, name: &str) -> (r: Option<&String>)
        ensures
            match r {
                Some(v) => spec_header_value(self@.headers, name@) == Some(v@),
                None => spec_header_value(self@.headers, name@) is None,
            },
    {
        let ghost all = self@.headers;
        proof {
            assert(all.skip(0) =~= all);
        }
        let n = self.headers.len();
        let mut i: usize = 0;
        while i < n
            invariant
                0 <= i <= n,
                n == self.headers.len(),
                all == self@.headers,
                spec_header_value(all, name@) == spec_header_value(
                    all.skip(i as int),
                    name@,
                ),
            decreases n - i,
        {
            let entry = &self.headers[i];
            proof {
                assert(all.skip(i as int)[0] == all[i as int]);
                assert(all.skip(i as int).drop_first() =~= all.skip(i + 1));
            }
            if str_eq_nocase(entry.0.as_str(), name) {
                return Some(&entry.1);
            }
            i = i + 1;
        }
        proof {
            assert(all.skip(n as int) =~= Seq::<(Seq<char>, Seq<char>)>::empty());
        }
        None
    }
}

/// The HTTP status code a response carries.
pub fn get_status(response: &HttpResponse) -> (r: u16)
    ensures
        r == response@.status,
{
    response.status
}

} // verus!
