//! Decoders for the two vendor diagnostic response headers.
//!
//! Both decoders fail soft: a missing header, and malformed header content,
//! make the decoded field absent; neither ever aborts the report.

use vstd::prelude::*;
use crate::report::unique_keys;
use crate::response::{spec_header_value, HttpResponse, HttpResponseView};
use crate::strutil::{
    ends_with_char, find_char, lemma_find_char, lemma_split_on_len, parse_u16, spec_ends_with,
    spec_parse_u16, split_on, split_str,
};

verus! {

/// Name of the vendor version header.
pub open spec fn version_header_name() -> Seq<char> {
    "x-0-version"@
}

/// Name of the vendor timing header.
pub open spec fn timing_header_name() -> Seq<char> {
    "x-0-t"@
}

/// What a well-formed version header value decodes to: its second
/// space-separated token.  A value with fewer than two tokens is malformed
/// and decodes to nothing.
pub open spec fn spec_version_of(value: Seq<char>) -> Option<Seq<char>> {
    let parts = split_on(value, ' ');
    if parts.len() >= 2 {
        Some(parts[1])
    } else {
        None
    }
}

/// The decoded vendor version of a response: present exactly when the
/// version header is present and well-formed.
pub open spec fn spec_layer0_version(r: HttpResponseView) -> Option<Seq<char>> {
    match spec_header_value(r.headers, version_header_name()) {
        Some(value) => spec_version_of(value),
        None => None,
    }
}

/// Decodes one version header value.
fn decode_version_value(value: &str) -> (r: Option<String>)
    ensures
        r.deep_view() == spec_version_of(value@),
{
    let parts = split_str(value, ' ');
    if parts.len() >= 2 {
        let token = parts[1].clone();
        proof {
            assert(token@ == parts.deep_view()[1]);
        }
        Some(token)
    } else {
        None
    }
}

/// Decodes the vendor version header of a response.  A malformed value is
/// treated as absent; `layer0_version_with` offers the policy choice.
pub fn layer0_version(response: &HttpResponse) -> (r: Option<String>)
    ensures
        r.deep_view() == spec_layer0_version(response@),
{
    match response.header("x-0-version") {
        Some(value) => decode_version_value(value.as_str()),
        None => None,
    }
}

/// Every well-formed version header decodes to its value: a header built
/// from a name token and a value token, neither containing a space, decodes
/// to exactly the value token.
pub proof fn lemma_version_decodes(name: Seq<char>, value: Seq<char>)
    requires
        !name.contains(' '),
        !value.contains(' '),
    ensures
        spec_version_of(name.push(' ') + value) == Some(value),
{
    let h = name.push(' ') + value;
    assert forall|i: int| 0 <= i < name.len() implies h[i] != ' ' by {
        assert(h[i] == name[i]);
        assert(!name.contains(' '));
    }
    assert(h[name.len() as int] == ' ');
    lemma_find_char(h, ' ');
    let f = find_char(h, ' ');
    assert(f == name.len());
    assert(h.subrange(0, f) =~= name);
    let rest = h.subrange(f + 1, h.len() as int);
    assert(rest =~= value);
    lemma_find_char(value, ' ');
    if find_char(value, ' ') != -1 {
        assert(value.contains(' '));
    }
    assert(split_on(value, ' ') == seq![value]);
    assert(split_on(h, ' ') == seq![name] + seq![value]);
    assert(split_on(h, ' ') =~= seq![name, value]);
}

/// Index of the entry holding `key`, or -1 when no entry does.
pub open spec fn find_key(entries: Seq<(Seq<char>, u16)>, key: Seq<char>) -> int
    decreases entries.len(),
{
    if entries.len() == 0 {
        -1
    } else if entries[0].0 == key {
        0
    } else {
        let r = find_key(entries.drop_first(), key);
        if r == -1 {
            -1
        } else {
            r + 1
        }
    }
}

/// `find_key` returns -1 exactly when the key is absent, and otherwise the
/// first position holding it.
pub proof fn lemma_find_key(entries: Seq<(Seq<char>, u16)>, key: Seq<char>)
    ensures
        find_key(entries, key) == -1 ==> forall|i: int|
            0 <= i < entries.len() ==> entries[i].0 != key,
        find_key(entries, key) != -1 ==> 0 <= find_key(entries, key) < entries.len() && entries[
            find_key(entries, key)
        ].0 == key && (forall|i: int| 0 <= i < find_key(entries, key) ==> entries[i].0 != key),
    decreases entries.len(),
{
    if entries.len() > 0 && entries[0].0 != key {
        lemma_find_key(entries.drop_first(), key);
        let r = find_key(entries.drop_first(), key);
        if r == -1 {
            assert forall|i: int| 0 <= i < entries.len() implies entries[i].0 != key by {
                if i > 0 {
                    assert(entries.drop_first()[i - 1] == entries[i]);
                }
            }
        } else {
            assert(entries.drop_first()[r] == entries[r + 1]);
            assert forall|i: int| 0 <= i < r + 1 implies entries[i].0 != key by {
                if i > 0 {
                    assert(entries.drop_first()[i - 1] == entries[i]);
                }
            }
        }
    }
}

/// `entries` with `key` bound to `val`: the first entry holding `key` is
/// updated in place, or a new entry is appended.
pub open spec fn spec_upsert(entries: Seq<(Seq<char>, u16)>, key: Seq<char>, val: u16) -> Seq<
    (Seq<char>, u16),
> {
    let i = find_key(entries, key);
    if 0 <= i < entries.len() {
        entries.update(i, (key, val))
    } else {
        entries.push((key, val))
    }
}

/// The timing entries decoded from the comma-separated segments `segs`,
/// accumulated onto `acc`.  A segment whose part before the first `=` does
/// not end in `t` is skipped; one that does end in `t` must carry a value
/// that parses as a 16-bit integer, else the whole decode fails.
pub open spec fn spec_timings_from(
    segs: Seq<Seq<char>>,
    acc: Seq<(Seq<char>, u16)>,
) -> Option<Seq<(Seq<char>, u16)>>
    decreases segs.len(),
{
    if segs.len() == 0 {
        Some(acc)
    } else {
        let kv = split_on(segs[0], '=');
        if !spec_ends_with(kv[0], 't') {
            spec_timings_from(segs.drop_first(), acc)
        } else if kv.len() < 2 {
            None
        } else {
            match spec_parse_u16(kv[1]) {
                Some(v) => spec_timings_from(segs.drop_first(), spec_upsert(acc, kv[0], v)),
                None => None,
            }
        }
    }
}

/// What a timing header value decodes to.
pub open spec fn spec_timings_of(value: Seq<char>) -> Option<Seq<(Seq<char>, u16)>> {
    spec_timings_from(split_on(value, ','), Seq::empty())
}

/// The decoded vendor timings of a response: present exactly when the
/// timing header is present and well-formed.
pub open spec fn spec_layer0_timing(r: HttpResponseView) -> Option<Seq<(Seq<char>, u16)>> {
    match spec_header_value(r.headers, timing_header_name()) {
        Some(value) => spec_timings_of(value),
        None => None,
    }
}

/// Binding a key preserves mapping-hood: entries with pairwise distinct
/// keys stay pairwise distinct.
pub proof fn lemma_upsert_unique(entries: Seq<(Seq<char>, u16)>, key: Seq<char>, val: u16)
    requires
        unique_keys(entries),
    ensures
        unique_keys(spec_upsert(entries, key, val)),
{
    lemma_find_key(entries, key);
    let k = find_key(entries, key);
    if 0 <= k < entries.len() {
        let up = entries.update(k, (key, val));
        assert(entries[k].0 == key);
        assert forall|i: int, j: int| 0 <= i < j < up.len() implies up[i].0 != up[j].0 by {
            assert(up[i].0 == entries[i].0);
            assert(up[j].0 == entries[j].0);
        }
    } else {
        let up = entries.push((key, val));
        assert forall|i: int, j: int| 0 <= i < j < up.len() implies up[i].0 != up[j].0 by {
            if j == entries.len() {
                assert(entries[i].0 != key);
            }
        }
    }
}

/// Decoding preserves mapping-hood: whatever segments are decoded onto a
/// mapping, the result (when the decode succeeds) is again a mapping.
pub proof fn lemma_timings_unique(segs: Seq<Seq<char>>, acc: Seq<(Seq<char>, u16)>)
    requires
        unique_keys(acc),
    ensures
        spec_timings_from(segs, acc) matches Some(t) ==> unique_keys(t),
    decreases segs.len(),
{
    if segs.len() > 0 {
        let kv = split_on(segs[0], '=');
        if !spec_ends_with(kv[0], 't') {
            lemma_timings_unique(segs.drop_first(), acc);
        } else if kv.len() >= 2 {
            match spec_parse_u16(kv[1]) {
                Some(v) => {
                    lemma_upsert_unique(acc, kv[0], v);
                    lemma_timings_unique(segs.drop_first(), spec_upsert(acc, kv[0], v));
                },
                None => {},
            }
        }
    }
}

/// Every key the decoder keeps ends in `t`: segments whose key does not are
/// dropped, so no decode result ever holds such a key.
pub proof fn lemma_timings_keys_end_in_t(segs: Seq<Seq<char>>, acc: Seq<(Seq<char>, u16)>)
    requires
        forall|i: int| 0 <= i < acc.len() ==> spec_ends_with(#[trigger] acc[i].0, 't'),
    ensures
        spec_timings_from(segs, acc) matches Some(t) ==> forall|i: int|
            0 <= i < t.len() ==> spec_ends_with(#[trigger] t[i].0, 't'),
    decreases segs.len(),
{
    if segs.len() > 0 {
        let kv = split_on(segs[0], '=');
        if !spec_ends_with(kv[0], 't') {
            lemma_timings_keys_end_in_t(segs.drop_first(), acc);
        } else if kv.len() >= 2 {
            match spec_parse_u16(kv[1]) {
                Some(v) => {
                    let up = spec_upsert(acc, kv[0], v);
                    assert forall|i: int| 0 <= i < up.len() implies spec_ends_with(
                        #[trigger] up[i].0,
                        't',
                    ) by {
                        lemma_find_key(acc, kv[0]);
                        if i < acc.len() {
                            assert(up[i].0 == acc[i].0 || up[i].0 == kv[0]);
                        }
                    }
                    lemma_timings_keys_end_in_t(segs.drop_first(), up);
                },
                None => {},
            }
        }
    }
}

/// The pairs a list of timing segments is expected to decode to: for each
/// segment whose part before the first `=` ends in `t` and whose value
/// parses, the pair of that key and value, in segment order.
pub open spec fn spec_retained_pairs(segs: Seq<Seq<char>>) -> Seq<(Seq<char>, u16)>
    decreases segs.len(),
{
    if segs.len() == 0 {
        Seq::empty()
    } else {
        let kv = split_on(segs[0], '=');
        let rest = spec_retained_pairs(segs.drop_first());
        if spec_ends_with(kv[0], 't') && kv.len() >= 2 {
            match spec_parse_u16(kv[1]) {
                Some(v) => seq![(kv[0], v)] + rest,
                None => rest,
            }
        } else {
            rest
        }
    }
}

/// Every segment whose key is retained (ends in `t`) carries a value and
/// that value parses as a 16-bit integer.
pub open spec fn retained_segments_well_formed(segs: Seq<Seq<char>>) -> bool {
    forall|i: int|
        0 <= i < segs.len() ==> {
            let kv = split_on(#[trigger] segs[i], '=');
            spec_ends_with(kv[0], 't') ==> kv.len() >= 2 && spec_parse_u16(kv[1]) is Some
        }
}

proof fn lemma_timings_from_exact(segs: Seq<Seq<char>>, acc: Seq<(Seq<char>, u16)>)
    requires
        retained_segments_well_formed(segs),
        unique_keys(acc + spec_retained_pairs(segs)),
    ensures
        spec_timings_from(segs, acc) == Some(acc + spec_retained_pairs(segs)),
    decreases segs.len(),
{
    if segs.len() == 0 {
        assert(acc + spec_retained_pairs(segs) =~= acc);
    } else {
        let rest = segs.drop_first();
        assert forall|i: int|
            0 <= i < rest.len() implies {
            let kv = split_on(#[trigger] rest[i], '=');
            spec_ends_with(kv[0], 't') ==> kv.len() >= 2 && spec_parse_u16(kv[1]) is Some
        } by {
            assert(rest[i] == segs[i + 1]);
        }
        let kv = split_on(segs[0], '=');
        if !spec_ends_with(kv[0], 't') {
            lemma_timings_from_exact(rest, acc);
        } else {
            let v = spec_parse_u16(kv[1]).unwrap();
            let pair = (kv[0], v);
            let whole = acc + spec_retained_pairs(segs);
            assert(spec_retained_pairs(segs) == seq![pair] + spec_retained_pairs(rest));
            assert(whole[acc.len() as int] == pair);
            lemma_find_key(acc, kv[0]);
            let k = find_key(acc, kv[0]);
            if k != -1 {
                assert(whole[k] == acc[k]);
                assert(whole[k].0 == whole[acc.len() as int].0);
                assert(false);
            }
            let acc2 = acc.push(pair);
            assert(spec_timings_from(segs, acc) == spec_timings_from(rest, acc2));
            assert(acc2 + spec_retained_pairs(rest) =~= whole);
            lemma_timings_from_exact(rest, acc2);
        }
    }
}

/// On a timing header all of whose retained segments are well-formed and
/// whose retained keys are pairwise distinct, the decode succeeds and
/// yields exactly the retained pairs, in segment order: no retained segment
/// is lost, and no filtered or invented entry appears.  (Under duplicate
/// retained keys no such exact list exists: the decoder then keeps one
/// entry per key, the last value winning.)
pub proof fn lemma_timings_exact(value: Seq<char>)
    requires
        retained_segments_well_formed(split_on(value, ',')),
        unique_keys(spec_retained_pairs(split_on(value, ','))),
    ensures
        spec_timings_of(value) == Some(spec_retained_pairs(split_on(value, ','))),
{
    let segs = split_on(value, ',');
    let empty = Seq::<(Seq<char>, u16)>::empty();
    assert(empty + spec_retained_pairs(segs) =~= spec_retained_pairs(segs));
    lemma_timings_from_exact(segs, empty);
}

/// Binds `key` to `val` among the entries, updating the first entry with
/// that key or appending a new one.
fn upsert(entries: &mut Vec<(String, u16)>, key: String, val: u16)
    ensures
        final (entries).deep_view() == spec_upsert(old(entries).deep_view(), key@, val),
{
    let ghost dv = old(entries).deep_view();
    let n = entries.len();
    let mut i: usize = 0;
    while i < n
        invariant
            0 <= i <= n,
            n == entries.len(),
            dv == entries.deep_view(),
            dv == old(entries).deep_view(),
            forall|j: int| 0 <= j < i ==> dv[j].0 != key@,
        decreases n - i,
    {
        if crate::strutil::str_eq(entries[i].0.as_str(), key.as_str()) {
            proof {
                lemma_find_key(dv, key@);
                assert(dv[i as int].0 == key@);
                assert(find_key(dv, key@) == i);
            }
            vstd::std_specs::core::index_set(entries, i, (key, val));
            proof {
                assert(entries.deep_view() =~= spec_upsert(dv, dv[i as int].0, val));
            }
            return ;
        }
        i = i + 1;
    }
    proof {
        lemma_find_key(dv, key@);
        assert(find_key(dv, key@) == -1);
    }
    entries.push((key, val));
    proof {
        assert(entries.deep_view() =~= dv.push((key@, val)));
    }
}

/// Decodes one timing header value.
fn decode_timing_value(value: &str) -> (r: Option<Vec<(String, u16)>>)
    ensures
        r.deep_view() == spec_timings_of(value@),
        r.deep_view() matches Some(t) ==> unique_keys(t),
        r.deep_view() matches Some(t) ==> forall|i: int|
            0 <= i < t.len() ==> spec_ends_with(#[trigger] t[i].0, 't'),
{
    let ghost hv = value@;
    let segs = split_str(value, ',');
    let mut entries: Vec<(String, u16)> = Vec::new();
    let n = segs.len();
    proof {
        assert(segs.deep_view().skip(0) =~= segs.deep_view());
        assert(entries.deep_view() =~= Seq::<(Seq<char>, u16)>::empty());
    }
    let mut i: usize = 0;
    while i < n
        invariant
            0 <= i <= n,
            n == segs.len(),
            hv == value@,
            segs.deep_view() == split_on(hv, ','),
            spec_timings_from(segs.deep_view().skip(i as int), entries.deep_view())
                == spec_timings_of(hv),
        decreases n - i,
    {
        let ghost rem = segs.deep_view().skip(i as int);
        proof {
            assert(rem[0] == segs.deep_view()[i as int]);
            assert(rem.drop_first() =~= segs.deep_view().skip(i + 1));
        }
        let kv = split_str(segs[i].as_str(), '=');
        proof {
            lemma_split_on_len(rem[0], '=');
            assert(kv.deep_view()[0] == split_on(rem[0], '=')[0]);
        }
        if ends_with_char(kv[0].as_str(), 't') {
            if kv.len() < 2 {
                return None;
            }
            proof {
                assert(kv.deep_view()[1] == split_on(rem[0], '=')[1]);
            }
            match parse_u16(kv[1].as_str()) {
                Some(v) => {
                    let key = kv[0].clone();
                    upsert(&mut entries, key, v);
                },
                None => {
                    return None;
                },
            }
        }
        i = i + 1;
    }
    proof {
        assert(segs.deep_view().skip(n as int) =~= Seq::<Seq<char>>::empty());
        lemma_timings_unique(segs.deep_view(), Seq::empty());
        lemma_timings_keys_end_in_t(segs.deep_view(), Seq::empty());
    }
    Some(entries)
}

/// Decodes the vendor timing header of a response.  A decoded timing field
/// is a mapping (its keys are pairwise distinct), and every key it holds
/// ends in `t`.  A malformed value is treated as absent; `layer0_timing_with`
/// offers the policy choice.
pub fn layer0_timing(response: &HttpResponse) -> (r: Option<Vec<(String, u16)>>)
    ensures
        r.deep_view() == spec_layer0_timing(response@),
        r.deep_view() matches Some(t) ==> unique_keys(t),
        r.deep_view() matches Some(t) ==> forall|i: int|
            0 <= i < t.len() ==> spec_ends_with(#[trigger] t[i].0, 't'),
{
    match response.header("x-0-t") {
        Some(value) => decode_timing_value(value.as_str()),
        None => None,
    }
}

/// What to do with a vendor header that is present but malformed.
#[derive(Clone, Copy, Debug, PartialEq, Eq)]
pub enum MalformedPolicy {
    /// The decoded field becomes absent, as if the header were missing.
    /// This is the policy the report builder applies.
    Absent,
    /// The decode reports a field-scoped error naming the header.
    Error,
}

/// A field-scoped decode failure: the named header was present but
/// malformed.  It concerns one field only and never aborts a report.
#[derive(Clone, Copy, Debug, PartialEq, Eq)]
pub enum DecodeError {
    MalformedVersion,
    MalformedTiming,
}

/// The version decode under a malformed-header policy: a missing header is
/// absent under either policy; a malformed one is absent or an error as the
/// policy says.
pub open spec fn spec_version_with(r: HttpResponseView, policy: MalformedPolicy) -> Result<
    Option<Seq<char>>,
    DecodeError,
> {
    match spec_header_value(r.headers, version_header_name()) {
        None => Ok(None),
        Some(value) => match spec_version_of(value) {
            Some(token) => Ok(Some(token)),
            None => match policy {
                MalformedPolicy::Absent => Ok(None),
                MalformedPolicy::Error => Err(DecodeError::MalformedVersion),
            },
        },
    }
}

/// Decodes the vendor version header under the given malformed-header
/// policy.
pub fn layer0_version_with(response: &HttpResponse, policy: MalformedPolicy) -> (r: Result<
    Option<String>,
    DecodeError,
>)
    ensures
        match r {
            Ok(v) => spec_version_with(response@, policy) == Ok::<Option<Seq<char>>, DecodeError>(
                v.deep_view(),
            ),
            Err(e) => spec_version_with(response@, policy) == Err::<
                Option<Seq<char>>,
                DecodeError,
            >(e),
        },
{
    match response.header("x-0-version") {
        Some(value) => match decode_version_value(value.as_str()) {
            Some(token) => Ok(Some(token)),
            None => match policy {
                MalformedPolicy::Absent => Ok(None),
                MalformedPolicy::Error => Err(DecodeError::MalformedVersion),
            },
        },
        None => Ok(None),
    }
}

/// The timing decode under a malformed-header policy, as `spec_version_with`
/// is for the version header.
pub open spec fn spec_timing_with(r: HttpResponseView, policy: MalformedPolicy) -> Result<
    Option<Seq<(Seq<char>, u16)>>,
    DecodeError,
> {
    match spec_header_value(r.headers, timing_header_name()) {
        None => Ok(None),
        Some(value) => match spec_timings_of(value) {
            Some(t) => Ok(Some(t)),
            None => match policy {
                MalformedPolicy::Absent => Ok(None),
                MalformedPolicy::Error => Err(DecodeError::MalformedTiming),
            },
        },
    }
}

/// Decodes the vendor timing header under the given malformed-header
/// policy.
pub fn layer0_timing_with(response: &HttpResponse, policy: MalformedPolicy) -> (r: Result<
    Option<Vec<(String, u16)>>,
    DecodeError,
>)
    ensures
        match r {
            Ok(v) => spec_timing_with(response@, policy) == Ok::<
                Option<Seq<(Seq<char>, u16)>>,
                DecodeError,
            >(v.deep_view()),
            Err(e) => spec_timing_with(response@, policy) == Err::<
                Option<Seq<(Seq<char>, u16)>>,
                DecodeError,
            >(e),
        },
{
    match response.header("x-0-t") {
        Some(value) => match decode_timing_value(value.as_str()) {
            Some(entries) => Ok(Some(entries)),
            None => match policy {
                MalformedPolicy::Absent => Ok(None),
                MalformedPolicy::Error => Err(DecodeError::MalformedTiming),
            },
        },
        None => Ok(None),
    }
}

} // verus!
