//! The DID-linked-resource query grammar:
//! `did:<method>:<sub-method>:<hex-identity>[/resources/<id>][?<parameters>]`.
//! The scheme must be the lowercase `did`.
//!
//! Parameter names and values are percent-decoded (`%XX` with two hex
//! digits; `+` reads as a space; a stray `%` is an error), `versionTime`
//! must be an RFC 3339 timestamp, and four parameters carry `true` or
//! `false`. Unknown parameter names are rejected.
use vstd::prelude::*;

use crate::datetime::{spec_parse_rfc3339, UtcDateTime};
use crate::errors::DlrError;
use crate::identity::{full_did_into_did_identity, spec_parse_identity, DidIdentity};
use crate::identity::hex_char_value;
use crate::strutil::{all_below_128, str_eq};

verus! {

/// The optional filter parameters of a resource query.
#[derive(Debug, Clone, PartialEq, Eq)]
pub struct ResourceQueryParameters {
    pub resource_id: Option<String>,
    pub resource_name: Option<String>,
    pub resource_type: Option<String>,
    pub resource_version_id: Option<String>,
    pub version_time: Option<UtcDateTime>,
    pub version_id: Option<String>,
    pub linked_resource: Option<bool>,
    pub resource_metadata: Option<bool>,
    pub latest_resource_version: Option<bool>,
    pub all_resource_versions: Option<bool>,
}

/// A parsed resource query: the target identity and its filter parameters.
#[derive(Debug, Clone, PartialEq, Eq)]
pub struct ResourceQuery {
    pub did_identity: DidIdentity,
    pub parameters: ResourceQueryParameters,
}

/// The mathematical shape of parsed query parameters.
#[verifier::ext_equal]
pub ghost struct QueryParametersView {
    pub resource_id: Option<Seq<char>>,
    pub resource_name: Option<Seq<char>>,
    pub resource_type: Option<Seq<char>>,
    pub resource_version_id: Option<Seq<char>>,
    pub version_time: Option<int>,
    pub version_id: Option<Seq<char>>,
    pub linked_resource: Option<bool>,
    pub resource_metadata: Option<bool>,
    pub latest_resource_version: Option<bool>,
    pub all_resource_versions: Option<bool>,
}

/// The mathematical shape of a parsed query.
#[verifier::ext_equal]
pub ghost struct ResourceQueryView {
    pub did_identity: Seq<u8>,
    pub parameters: QueryParametersView,
}

impl View for ResourceQueryParameters {
    type V = QueryParametersView;

    open spec fn view(&self) -> QueryParametersView {
        QueryParametersView {
            resource_id: match self.resource_id {
                Some(ref s) => Some(s@),
                None => None,
            },
            resource_name: match self.resource_name {
                Some(ref s) => Some(s@),
                None => None,
            },
            resource_type: match self.resource_type {
                Some(ref s) => Some(s@),
                None => None,
            },
            resource_version_id: match self.resource_version_id {
                Some(ref s) => Some(s@),
                None => None,
            },
            version_time: match self.version_time {
                Some(ref t) => Some(t@),
                None => None,
            },
            version_id: match self.version_id {
                Some(ref s) => Some(s@),
                None => None,
            },
            linked_resource: self.linked_resource,
            resource_metadata: self.resource_metadata,
            latest_resource_version: self.latest_resource_version,
            all_resource_versions: self.all_resource_versions,
        }
    }
}

impl View for ResourceQuery {
    type V = ResourceQueryView;

    open spec fn view(&self) -> ResourceQueryView {
        ResourceQueryView { did_identity: self.did_identity@, parameters: self.parameters@ }
    }
}

/// Query parameters with no filter set.
pub open spec fn empty_parameters() -> QueryParametersView {
    QueryParametersView {
        resource_id: None,
        resource_name: None,
        resource_type: None,
        resource_version_id: None,
        version_time: None,
        version_id: None,
        linked_resource: None,
        resource_metadata: None,
        latest_resource_version: None,
        all_resource_versions: None,
    }
}

/// The first position of `c` in `s[from..upto]`, or `upto` if it does not
/// occur there.
pub open spec fn index_of_char_in(s: Seq<char>, c: char, from: int, upto: int) -> int
    decreases upto - from,
{
    if from < 0 || from >= upto || from >= s.len() {
        upto
    } else if s[from] == c {
        from
    } else {
        index_of_char_in(s, c, from + 1, upto)
    }
}

/// Percent-decoding: `%XX` with two hexadecimal digits becomes the character
/// of that code, `+` becomes a space, anything else stands for itself; a `%`
/// not followed by two hexadecimal digits does not decode.
pub open spec fn spec_percent_decode(s: Seq<char>) -> Option<Seq<char>>
    decreases s.len(),
{
    if s.len() == 0 {
        Some(Seq::empty())
    } else if s[0] == '%' {
        if s.len() >= 3 && hex_char_value(s[1]).is_some() && hex_char_value(s[2]).is_some() {
            let b = hex_char_value(s[1]).unwrap() * 16 + hex_char_value(s[2]).unwrap();
            match spec_percent_decode(s.skip(3)) {
                Some(rest) => Some(seq![b as char] + rest),
                None => None,
            }
        } else {
            None
        }
    } else {
        let decoded = if s[0] == '+' {
            ' '
        } else {
            s[0]
        };
        match spec_percent_decode(s.skip(1)) {
            Some(rest) => Some(seq![decoded] + rest),
            None => None,
        }
    }
}

/// A character that percent-encoding passes through unchanged: letters,
/// digits, `-`, `.`, `_` and `~`.
pub open spec fn is_unreserved(c: char) -> bool {
    ('a' <= c && c <= 'z') || ('A' <= c && c <= 'Z') || ('0' <= c && c <= '9') || c == '-' || c
        == '.' || c == '_' || c == '~'
}

/// The uppercase hexadecimal digit for a value below 16.
pub open spec fn hex_digit_char_upper(v: u8) -> char
    recommends
        v < 16,
{
    if v < 10 {
        (48 + v) as char
    } else {
        (55 + v) as char
    }
}

/// Percent-encoding of a string of characters below 128: unreserved
/// characters stand for themselves, every other character becomes `%XX`
/// with two uppercase hexadecimal digits.
pub open spec fn spec_percent_encode(s: Seq<char>) -> Seq<char>
    decreases s.len(),
{
    if s.len() == 0 {
        Seq::empty()
    } else {
        let head = if is_unreserved(s[0]) {
            seq![s[0]]
        } else {
            seq![
                '%',
                hex_digit_char_upper((s[0] as u32 / 16) as u8),
                hex_digit_char_upper((s[0] as u32 % 16) as u8),
            ]
        };
        head + spec_percent_encode(s.skip(1))
    }
}

/// Round trip: decoding the percent-encoding of any string of characters
/// below 128 gives the string back.
pub proof fn lemma_percent_encode_round_trip(s: Seq<char>)
    requires
        all_below_128(s),
    ensures
        spec_percent_decode(spec_percent_encode(s)) == Some(s),
    decreases s.len(),
{
    if s.len() == 0 {
        assert(spec_percent_encode(s) =~= Seq::<char>::empty());
    } else {
        let tail = s.skip(1);
        assert forall|i: int| 0 <= i < tail.len() implies ((#[trigger] tail[i]) as u32) < 128 by {
            assert(tail[i] == s[i + 1]);
        }
        lemma_percent_encode_round_trip(tail);
        let enc = spec_percent_encode(s);
        let c = s[0];
        if is_unreserved(c) {
            assert(enc =~= seq![c] + spec_percent_encode(tail));
            assert(enc[0] == c);
            assert(c != '%' && c != '+');
            assert(enc.skip(1) =~= spec_percent_encode(tail));
            assert(seq![c] + tail =~= s);
        } else {
            let hi = (c as u32 / 16) as u8;
            let lo = (c as u32 % 16) as u8;
            assert(hi < 8 && lo < 16);
            assert(enc =~= seq!['%', hex_digit_char_upper(hi), hex_digit_char_upper(lo)]
                + spec_percent_encode(tail));
            assert(enc[0] == '%' && enc[1] == hex_digit_char_upper(hi) && enc[2]
                == hex_digit_char_upper(lo));
            lemma_upper_hex_digit_value(hi);
            lemma_upper_hex_digit_value(lo);
            assert(enc.skip(3) =~= spec_percent_encode(tail));
            assert(hi * 16 + lo == c as u32);
            vstd::utf8::char_u32_cast(c, c as u32);
            assert(((hi * 16 + lo) as u8) as char == c);
            assert(seq![c] + tail =~= s);
        }
    }
}

/// Reading an uppercase hexadecimal digit back gives the value it renders.
proof fn lemma_upper_hex_digit_value(v: u8)
    requires
        v < 16,
    ensures
        hex_char_value(hex_digit_char_upper(v)) == Some(v),
{
    if v < 10 {
        let c = (48 + v) as char;
        assert(c as u8 == 48 + v);
        assert('0' <= c && c <= '9');
    } else {
        let c = (55 + v) as char;
        assert(c as u8 == 55 + v);
        assert('A' <= c && c <= 'F');
        assert(!('0' <= c && c <= '9') && !('a' <= c && c <= 'f'));
    }
}

/// Percent-encodes a string whose characters are all below 128; `None` for
/// any other string.
pub fn percent_encode(s: &str) -> (r: Option<String>)
    ensures
        match r {
            Some(out) => all_below_128(s@) && out@ == spec_percent_encode(s@),
            None => !all_below_128(s@),
        },
{
    let n = s.unicode_len();
    let mut out = String::from_str("");
    proof {
        reveal_strlit("");
        assert(out@ =~= Seq::<char>::empty());
        assert(s@.skip(0) =~= s@);
    }
    let mut i: usize = 0;
    while i < n
        invariant
            i <= n,
            n == s@.len(),
            forall|j: int| 0 <= j < i ==> ((#[trigger] s@[j]) as u32) < 128,
            spec_percent_encode(s@) == out@ + spec_percent_encode(s@.skip(i as int)),
        decreases n - i,
    {
        let ghost tail = s@.skip(i as int);
        proof {
            assert(tail[0] == s@[i as int]);
            assert(tail.skip(1) =~= s@.skip(i + 1));
        }
        let c = s.get_char(i);
        let code = c as u32;
        if code >= 128 {
            return None;
        }
        let ghost out_old = out@;
        if ('a' <= c && c <= 'z') || ('A' <= c && c <= 'Z') || ('0' <= c && c <= '9') || c == '-'
            || c == '.' || c == '_' || c == '~' {
            crate::strutil::push_char(&mut out, c);
            proof {
                assert(out_old + (seq![c] + spec_percent_encode(s@.skip(i + 1))) =~= out@
                    + spec_percent_encode(s@.skip(i + 1)));
            }
        } else {
            crate::strutil::push_char(&mut out, '%');
            crate::strutil::push_char(&mut out, upper_hex_digit((code / 16) as u8));
            crate::strutil::push_char(&mut out, upper_hex_digit((code % 16) as u8));
            proof {
                let head = seq![
                    '%',
                    hex_digit_char_upper((code / 16) as u8),
                    hex_digit_char_upper((code % 16) as u8),
                ];
                assert(out_old + (head + spec_percent_encode(s@.skip(i + 1))) =~= out@
                    + spec_percent_encode(s@.skip(i + 1)));
            }
        }
        i = i + 1;
    }
    proof {
        assert(s@.skip(n as int) =~= Seq::<char>::empty());
        assert(out@ + Seq::<char>::empty() =~= out@);
    }
    Some(out)
}

fn upper_hex_digit(v: u8) -> (c: char)
    requires
        v < 16,
    ensures
        c == hex_digit_char_upper(v),
{
    if v < 10 {
        (48 + v) as char
    } else {
        (55 + v) as char
    }
}

/// Reads a boolean parameter value: exactly `true` or `false`.
pub open spec fn spec_parse_bool(v: Seq<char>) -> Option<bool> {
    if v == "true"@ {
        Some(true)
    } else if v == "false"@ {
        Some(false)
    } else {
        None
    }
}

/// Applies one decoded `name=value` parameter to the query parameters;
/// unknown names and malformed values are rejected.
pub open spec fn spec_apply_named(
    p: QueryParametersView,
    name: Seq<char>,
    value: Seq<char>,
) -> Option<QueryParametersView> {
    if name == "resourceId"@ {
        Some(QueryParametersView { resource_id: Some(value), ..p })
    } else if name == "resourceName"@ {
        Some(QueryParametersView { resource_name: Some(value), ..p })
    } else if name == "resourceType"@ {
        Some(QueryParametersView { resource_type: Some(value), ..p })
    } else if name == "resourceVersionId"@ {
        Some(QueryParametersView { resource_version_id: Some(value), ..p })
    } else if name == "versionTime"@ {
        match spec_parse_rfc3339(value) {
            Some(t) => Some(QueryParametersView { version_time: Some(t), ..p }),
            None => None,
        }
    } else if name == "versionId"@ {
        Some(QueryParametersView { version_id: Some(value), ..p })
    } else if name == "linkedResource"@ {
        match spec_parse_bool(value) {
            Some(b) => Some(QueryParametersView { linked_resource: Some(b), ..p }),
            None => None,
        }
    } else if name == "resourceMetadata"@ {
        match spec_parse_bool(value) {
            Some(b) => Some(QueryParametersView { resource_metadata: Some(b), ..p }),
            None => None,
        }
    } else if name == "latestResourceVersion"@ {
        match spec_parse_bool(value) {
            Some(b) => Some(QueryParametersView { latest_resource_version: Some(b), ..p }),
            None => None,
        }
    } else if name == "allResourceVersions"@ {
        match spec_parse_bool(value) {
            Some(b) => Some(QueryParametersView { all_resource_versions: Some(b), ..p }),
            None => None,
        }
    } else {
        None
    }
}

/// Applies one raw `name[=value]` pair: both sides are percent-decoded, a
/// missing `=` means an empty value.
pub open spec fn spec_apply_pair(p: QueryParametersView, seg: Seq<char>) -> Option<
    QueryParametersView,
> {
    let eq = index_of_char_in(seg, '=', 0, seg.len() as int);
    let rawname = seg.subrange(0, eq);
    let rawval = if eq == seg.len() {
        Seq::empty()
    } else {
        seg.subrange(eq + 1, seg.len() as int)
    };
    match spec_percent_decode(rawname) {
        Some(name) => match spec_percent_decode(rawval) {
            Some(value) => spec_apply_named(p, name, value),
            None => None,
        },
        None => None,
    }
}

/// `index_of_char_in` stays within its bounds and marks an occurrence.
pub proof fn lemma_index_of_char_in_bounds(s: Seq<char>, c: char, from: int, upto: int)
    requires
        0 <= from <= upto,
    ensures
        from <= index_of_char_in(s, c, from, upto) <= upto,
        index_of_char_in(s, c, from, upto) < upto && index_of_char_in(s, c, from, upto) < s.len()
            ==> s[index_of_char_in(s, c, from, upto)] == c,
        forall|j: int|
            from <= j < index_of_char_in(s, c, from, upto) && j < s.len() ==> s[j] != c,
    decreases upto - from,
{
    if from < 0 || from >= upto || from >= s.len() {
    } else if s[from] == c {
    } else {
        lemma_index_of_char_in_bounds(s, c, from + 1, upto);
    }
}

/// Applies the `&`-separated pairs standing in `s[from..]`; empty segments
/// are skipped; later pairs overwrite earlier ones.
pub open spec fn spec_apply_query(p: QueryParametersView, s: Seq<char>, from: int) -> Option<
    QueryParametersView,
>
    decreases s.len() - from,
    via spec_apply_query_decreases
{
    if from < 0 || from >= s.len() {
        Some(p)
    } else {
        let e = index_of_char_in(s, '&', from, s.len() as int);
        let applied = if e == from {
            Some(p)
        } else {
            spec_apply_pair(p, s.subrange(from, e))
        };
        match applied {
            None => None,
            Some(pp) => if e >= s.len() {
                Some(pp)
            } else {
                spec_apply_query(pp, s, e + 1)
            },
        }
    }
}

#[via_fn]
proof fn spec_apply_query_decreases(p: QueryParametersView, s: Seq<char>, from: int) {
    if 0 <= from < s.len() {
        lemma_index_of_char_in_bounds(s, '&', from, s.len() as int);
    }
}

/// The path portion of the grammar: what the parameters hold after the
/// optional `/resources/<id>` segment, before any query parameters.
pub open spec fn spec_parse_query_path_part(s: Seq<char>, qpos: int, slash: int) -> Option<
    QueryParametersView,
> {
    if slash == qpos {
        Some(empty_parameters())
    } else {
        let slash2 = index_of_char_in(s, '/', slash + 1, qpos);
        if slash2 == qpos {
            None
        } else if s.subrange(slash + 1, slash2) != "resources"@ {
            None
        } else if index_of_char_in(s, '/', slash2 + 1, qpos) != qpos {
            None
        } else {
            Some(
                QueryParametersView {
                    resource_id: Some(s.subrange(slash2 + 1, qpos)),
                    ..empty_parameters()
                },
            )
        }
    }
}

/// Reads a whole query string: the `did:` scheme, the identity, an optional
/// `/resources/<id>` path, and the query parameters.
pub open spec fn spec_parse_query(s: Seq<char>) -> Option<ResourceQueryView> {
    if s.len() < 4 || s.subrange(0, 4) != "did:"@ {
        None
    } else {
        let qpos = index_of_char_in(s, '?', 4, s.len() as int);
        let slash = index_of_char_in(s, '/', 4, qpos);
        match spec_parse_identity(s.subrange(4, slash)) {
            None => None,
            Some(identity) => {
                let with_path = spec_parse_query_path_part(s, qpos, slash);
                match with_path {
                    None => None,
                    Some(p0) => {
                        let params = if qpos >= s.len() {
                            Some(p0)
                        } else {
                            spec_apply_query(p0, s, qpos + 1)
                        };
                        match params {
                            None => None,
                            Some(pp) => Some(
                                ResourceQueryView { did_identity: identity, parameters: pp },
                            ),
                        }
                    },
                }
            },
        }
    }
}

/// Builds the time-travel query that asks for the named and typed resource
/// as of an instant:
/// `{did}?resourceName={name}&resourceType={type}&versionTime={t}`, with
/// the RFC 3339 timestamp percent-encoded. The status-list reader fetches
/// "the list as of a proof's creation time" with exactly this query.
pub fn versioned_resource_query(
    did: &str,
    resource_name: &str,
    resource_type: &str,
    version_time: &UtcDateTime,
) -> (r: String)
    requires
        crate::datetime::RFC3339_MIN_EPOCH <= version_time@
            <= crate::datetime::RFC3339_MAX_EPOCH,
    ensures
        exists|rendered: Seq<char>|
            {
                &&& r@ == did@ + "?resourceName="@ + resource_name@ + "&resourceType="@
                    + resource_type@ + "&versionTime="@ + #[trigger] spec_percent_encode(rendered)
                &&& spec_parse_rfc3339(rendered) == Some(version_time@)
                &&& rendered.len() == 25
                &&& rendered.skip(19) == "+00:00"@
            },
{
    let rendered = version_time.to_rfc3339();
    proof {
        crate::datetime::lemma_rfc3339_text_ascii(rendered@);
    }
    let encoded = match percent_encode(rendered.as_str()) {
        Some(encoded) => encoded,
        None => {
            proof {
                assert(false);
            }
            rendered
        },
    };
    let ghost rendered_view = rendered@;
    let mut out = String::from_str(did);
    out.append("?resourceName=");
    out.append(resource_name);
    out.append("&resourceType=");
    out.append(resource_type);
    out.append("&versionTime=");
    out.append(encoded.as_str());
    proof {
        assert(out@ == did@ + "?resourceName="@ + resource_name@ + "&resourceType="@
            + resource_type@ + "&versionTime="@ + spec_percent_encode(rendered_view));
    }
    out
}

/// The first position of `c` in `s[from..upto]`, or `upto` if it does not
/// occur there, as executable code.
pub(crate) fn find_char_in(s: &str, c: char, from: usize, upto: usize) -> (r: usize)
    requires
        from <= upto <= s@.len(),
    ensures
        r as int == index_of_char_in(s@, c, from as int, upto as int),
        from <= r <= upto,
        r < upto ==> s@[r as int] == c,
{
    let mut i: usize = from;
    while i < upto
        invariant
            from <= i <= upto <= s@.len(),
            index_of_char_in(s@, c, from as int, upto as int) == index_of_char_in(
                s@,
                c,
                i as int,
                upto as int,
            ),
        decreases upto - i,
    {
        if s.get_char(i) == c {
            return i;
        }
        i = i + 1;
    }
    i
}

/// Percent-decodes `s[from..upto]`, as executable code.
fn percent_decode_range(s: &str, from: usize, upto: usize) -> (r: Option<String>)
    requires
        from <= upto <= s@.len(),
    ensures
        match r {
            Some(out) => spec_percent_decode(s@.subrange(from as int, upto as int)) == Some(out@),
            None => spec_percent_decode(s@.subrange(from as int, upto as int)) is None,
        },
{
    let ghost whole = s@.subrange(from as int, upto as int);
    let mut out = String::from_str("");
    proof {
        reveal_strlit("");
        assert(out@ =~= Seq::<char>::empty());
        assert(whole.skip(0) =~= whole);
    }
    let mut i: usize = from;
    while i < upto
        invariant
            from <= i <= upto <= s@.len(),
            whole == s@.subrange(from as int, upto as int),
            spec_percent_decode(whole) == match spec_percent_decode(whole.skip(i - from)) {
                Some(rest) => Some(out@ + rest),
                None => None::<Seq<char>>,
            },
        decreases upto - i,
    {
        let ghost tail = whole.skip(i - from);
        proof {
            assert(tail.len() == upto - i);
            assert forall|j: int| 0 <= j < tail.len() implies tail[j] == s@[i + j] by {}
        }
        let c = s.get_char(i);
        if c == '%' {
            if upto - i < 3 {
                proof {
                    assert(spec_percent_decode(tail) is None);
                }
                return None;
            }
            let hi = match hex_value(s.get_char(i + 1)) {
                Some(v) => v,
                None => {
                    proof {
                        assert(hex_char_value(tail[1]) is None);
                        assert(spec_percent_decode(tail) is None);
                    }
                    return None;
                },
            };
            let lo = match hex_value(s.get_char(i + 2)) {
                Some(v) => v,
                None => {
                    proof {
                        assert(hex_char_value(tail[2]) is None);
                        assert(spec_percent_decode(tail) is None);
                    }
                    return None;
                },
            };
            let decoded_char = byte_as_char(hi * 16 + lo);
            let ghost out_old = out@;
            crate::strutil::push_char(&mut out, decoded_char);
            proof {
                assert(tail.skip(3) =~= whole.skip(i + 3 - from));
                match spec_percent_decode(whole.skip(i + 3 - from)) {
                    Some(rest) => {
                        assert(spec_percent_decode(tail) == Some(seq![decoded_char] + rest));
                        assert(out_old + (seq![decoded_char] + rest) =~= out@ + rest);
                    },
                    None => {
                        assert(spec_percent_decode(tail) is None);
                    },
                }
            }
            i = i + 3;
        } else {
            let decoded_char = if c == '+' {
                ' '
            } else {
                c
            };
            let ghost out_old = out@;
            crate::strutil::push_char(&mut out, decoded_char);
            proof {
                assert(tail.skip(1) =~= whole.skip(i + 1 - from));
                match spec_percent_decode(whole.skip(i + 1 - from)) {
                    Some(rest) => {
                        assert(spec_percent_decode(tail) == Some(seq![decoded_char] + rest));
                        assert(out_old + (seq![decoded_char] + rest) =~= out@ + rest);
                    },
                    None => {
                        assert(spec_percent_decode(tail) is None);
                    },
                }
            }
            i = i + 1;
        }
    }
    proof {
        assert(whole.skip(upto - from) =~= Seq::<char>::empty());
        assert(out@ + Seq::<char>::empty() =~= out@);
    }
    Some(out)
}

/// The numeric value of a hexadecimal digit character, as executable code.
fn hex_value(c: char) -> (r: Option<u8>)
    ensures
        r == hex_char_value(c),
{
    if '0' <= c && c <= '9' {
        Some(c as u8 - 48)
    } else if 'a' <= c && c <= 'f' {
        Some(c as u8 - 87)
    } else if 'A' <= c && c <= 'F' {
        Some(c as u8 - 55)
    } else {
        None
    }
}

/// A byte as the character of its code.
fn byte_as_char(b: u8) -> (r: char)
    ensures
        r == (b as char),
{
    b as char
}

/// Searching inside a subrange finds the same position, shifted.
proof fn lemma_index_shift(s: Seq<char>, c: char, a: int, b: int, from: int)
    requires
        0 <= a <= from <= b <= s.len(),
    ensures
        index_of_char_in(s.subrange(a, b), c, from - a, b - a) == index_of_char_in(
            s,
            c,
            from,
            b,
        ) - a,
    decreases b - from,
{
    let seg = s.subrange(a, b);
    if from >= b {
    } else {
        assert(seg[from - a] == s[from]);
        if s[from] == c {
        } else {
            lemma_index_shift(s, c, a, b, from + 1);
        }
    }
}

impl ResourceQuery {
    /// Parses a DID query string. No side effects; used for both exact-id
    /// and time-travel queries.
    pub fn parse_from_str(did_query: &str) -> (r: Result<ResourceQuery, DlrError>)
        ensures
            match r {
                Ok(q) => spec_parse_query(did_query@) == Some(q@),
                Err(e) => e == DlrError::ParseError && spec_parse_query(did_query@) is None,
            },
    {
        let s = did_query;
        let n = s.unicode_len();
        // the scheme
        if n < 4 || s.get_char(0) != 'd' || s.get_char(1) != 'i' || s.get_char(2) != 'd'
            || s.get_char(3) != ':' {
            proof {
                reveal_strlit("did:");
                if n >= 4 && s@.subrange(0, 4) == "did:"@ {
                    assert(s@[0] == s@.subrange(0, 4)[0]);
                    assert(s@[1] == s@.subrange(0, 4)[1]);
                    assert(s@[2] == s@.subrange(0, 4)[2]);
                    assert(s@[3] == s@.subrange(0, 4)[3]);
                }
            }
            return Err(DlrError::ParseError);
        }
        proof {
            reveal_strlit("did:");
            assert(s@.subrange(0, 4) =~= "did:"@);
        }
        let qpos = find_char_in(s, '?', 4, n);
        let slash = find_char_in(s, '/', 4, qpos);
        proof {
            lemma_index_of_char_in_bounds(s@, '?', 4, n as int);
            lemma_index_of_char_in_bounds(s@, '/', 4, qpos as int);
        }
        // the identity, from the method-and-identity segment
        let first_seg = s.substring_char(4, slash);
        let identity = match full_did_into_did_identity(first_seg) {
            Ok(id) => id,
            Err(_) => {
                return Err(DlrError::ParseError);
            },
        };
        // the optional /resources/<id> path
        let mut params = ResourceQueryParameters {
            resource_id: None,
            resource_name: None,
            resource_type: None,
            resource_version_id: None,
            version_time: None,
            version_id: None,
            linked_resource: None,
            resource_metadata: None,
            latest_resource_version: None,
            all_resource_versions: None,
        };
        proof {
            assert(params@ =~= empty_parameters());
        }
        if slash < qpos {
            let slash2 = find_char_in(s, '/', slash + 1, qpos);
            proof {
                lemma_index_of_char_in_bounds(s@, '/', slash + 1, qpos as int);
            }
            if slash2 == qpos {
                return Err(DlrError::ParseError);
            }
            let seg = s.substring_char(slash + 1, slash2);
            if !str_eq(seg, "resources") {
                return Err(DlrError::ParseError);
            }
            let slash3 = find_char_in(s, '/', slash2 + 1, qpos);
            if slash3 != qpos {
                return Err(DlrError::ParseError);
            }
            let id_str = s.substring_char(slash2 + 1, qpos);
            params.resource_id = Some(String::from_str(id_str));
            proof {
                assert(params@ =~~= QueryParametersView {
                    resource_id: Some(s@.subrange(slash2 + 1, qpos as int)),
                    ..empty_parameters()
                });
            }
        }
        let ghost p0 = params@;
        proof {
            assert(spec_parse_query_path_part(s@, qpos as int, slash as int) == Some(p0));
        }
        // the query parameters
        if qpos < n {
            let mut pos: usize = qpos + 1;
            loop
                invariant
                    s@ == did_query@,
                    qpos + 1 <= pos <= n,
                    n == s@.len(),
                    4 <= qpos < n,
                    s@.len() >= 4 && s@.subrange(0, 4) == "did:"@,
                    qpos as int == index_of_char_in(s@, '?', 4, s@.len() as int),
                    slash as int == index_of_char_in(s@, '/', 4, qpos as int),
                    spec_parse_identity(s@.subrange(4, slash as int)) == Some(identity@),
                    spec_parse_query_path_part(s@, qpos as int, slash as int) == Some(p0),
                    spec_apply_query(p0, s@, qpos + 1) == spec_apply_query(
                        params@,
                        s@,
                        pos as int,
                    ),
                ensures
                    pos == n,
                    spec_apply_query(p0, s@, qpos + 1) == spec_apply_query(
                        params@,
                        s@,
                        pos as int,
                    ),
                decreases n - pos,
            {
                if pos >= n {
                    break;
                }
                let e = find_char_in(s, '&', pos, n);
                proof {
                    lemma_index_of_char_in_bounds(s@, '&', pos as int, n as int);
                }
                let ghost before = params@;
                if e > pos {
                    // one name[=value] pair
                    let eq_abs = find_char_in(s, '=', pos, e);
                    proof {
                        lemma_index_of_char_in_bounds(s@, '=', pos as int, e as int);
                        lemma_index_shift(s@, '=', pos as int, e as int, pos as int);
                    }
                    let name = match percent_decode_range(s, pos, eq_abs) {
                        Some(v) => v,
                        None => {
                            proof {
                                lemma_pair_rawname(s@, pos as int, e as int, eq_abs as int);
                                assert(spec_apply_pair(params@, s@.subrange(pos as int, e as int))
                                    is None);
                                assert(spec_apply_query(params@, s@, pos as int) is None);
                                assert(spec_parse_query(s@) is None);
                            }
                            return Err(DlrError::ParseError);
                        },
                    };
                    let value = if eq_abs == e {
                        let empty_value = String::from_str("");
                        proof {
                            reveal_strlit("");
                            assert(empty_value@ =~= Seq::<char>::empty());
                            assert(spec_percent_decode(Seq::<char>::empty()) == Some(
                                Seq::<char>::empty(),
                            ));
                        }
                        empty_value
                    } else {
                        match percent_decode_range(s, eq_abs + 1, e) {
                            Some(v) => v,
                            None => {
                                proof {
                                    lemma_pair_rawname(s@, pos as int, e as int, eq_abs as int);
                                    assert(spec_apply_pair(params@, s@.subrange(
                                        pos as int,
                                        e as int,
                                    )) is None);
                                    assert(spec_apply_query(params@, s@, pos as int) is None);
                                    assert(spec_parse_query(s@) is None);
                                }
                                return Err(DlrError::ParseError);
                            },
                        }
                    };
                    proof {
                        lemma_pair_rawname(s@, pos as int, e as int, eq_abs as int);
                    }
                    if !apply_named_parameter(&mut params, name, value) {
                        proof {
                            assert(spec_apply_pair(before, s@.subrange(pos as int, e as int))
                                is None);
                            assert(spec_apply_query(before, s@, pos as int) is None);
                            assert(spec_parse_query(s@) is None);
                        }
                        return Err(DlrError::ParseError);
                    }
                    proof {
                        assert(spec_apply_pair(before, s@.subrange(pos as int, e as int))
                            == Some(params@));
                    }
                }
                if e < n {
                    pos = e + 1;
                } else {
                    pos = n;
                }
            }
            proof {
                assert(spec_apply_query(params@, s@, pos as int) == Some(params@));
                assert(spec_apply_query(p0, s@, qpos + 1) == Some(params@));
            }
        }
        let q = ResourceQuery { did_identity: identity, parameters: params };
        proof {
            if qpos < n {
                assert(spec_apply_query(p0, s@, qpos + 1) == Some(params@));
            } else {
                assert(params@ == p0);
            }
            assert(q@.parameters =~= params@);
            assert(spec_parse_query(s@) == Some(q@));
        }
        Ok(q)
    }
}

/// Links a pair's raw name and value, as the specification slices them from
/// the segment, to their absolute positions in the whole string.
proof fn lemma_pair_rawname(s: Seq<char>, from: int, e: int, eq_abs: int)
    requires
        0 <= from <= e <= s.len(),
        from <= eq_abs <= e,
        eq_abs == index_of_char_in(s, '=', from, e),
    ensures
        ({
            let seg = s.subrange(from, e);
            let eq = index_of_char_in(seg, '=', 0, seg.len() as int);
            &&& eq == eq_abs - from
            &&& seg.subrange(0, eq) =~= s.subrange(from, eq_abs)
            &&& (eq_abs < e ==> seg.subrange(eq + 1, seg.len() as int) =~= s.subrange(
                eq_abs + 1,
                e,
            ))
        }),
{
    lemma_index_shift(s, '=', from, e, from);
}

/// Applies one decoded parameter to the query being built; `false` reports
/// an unknown name or a malformed value, leaving the parameters unread.
fn apply_named_parameter(
    params: &mut ResourceQueryParameters,
    name: String,
    value: String,
) -> (r: bool)
    ensures
        match spec_apply_named(old(params)@, name@, value@) {
            Some(pp) => r && final(params)@ == pp,
            None => !r && final(params)@ == old(params)@,
        },
{
    if str_eq(name.as_str(), "resourceId") {
        params.resource_id = Some(value);
        proof {
            assert(params@ =~= QueryParametersView { resource_id: Some(value@), ..old(params)@ });
        }
        true
    } else if str_eq(name.as_str(), "resourceName") {
        params.resource_name = Some(value);
        proof {
            assert(params@ =~= QueryParametersView {
                resource_name: Some(value@),
                ..old(params)@
            });
        }
        true
    } else if str_eq(name.as_str(), "resourceType") {
        params.resource_type = Some(value);
        proof {
            assert(params@ =~= QueryParametersView {
                resource_type: Some(value@),
                ..old(params)@
            });
        }
        true
    } else if str_eq(name.as_str(), "resourceVersionId") {
        params.resource_version_id = Some(value);
        proof {
            assert(params@ =~= QueryParametersView {
                resource_version_id: Some(value@),
                ..old(params)@
            });
        }
        true
    } else if str_eq(name.as_str(), "versionTime") {
        match UtcDateTime::parse_rfc3339(value.as_str()) {
            Some(t) => {
                params.version_time = Some(t);
                proof {
                    assert(params@ =~= QueryParametersView {
                        version_time: Some(t@),
                        ..old(params)@
                    });
                }
                true
            },
            None => false,
        }
    } else if str_eq(name.as_str(), "versionId") {
        params.version_id = Some(value);
        proof {
            assert(params@ =~= QueryParametersView { version_id: Some(value@), ..old(params)@ });
        }
        true
    } else if str_eq(name.as_str(), "linkedResource") {
        match parse_bool_value(value.as_str()) {
            Some(b) => {
                params.linked_resource = Some(b);
                proof {
                    assert(params@ =~= QueryParametersView {
                        linked_resource: Some(b),
                        ..old(params)@
                    });
                }
                true
            },
            None => false,
        }
    } else if str_eq(name.as_str(), "resourceMetadata") {
        match parse_bool_value(value.as_str()) {
            Some(b) => {
                params.resource_metadata = Some(b);
                proof {
                    assert(params@ =~= QueryParametersView {
                        resource_metadata: Some(b),
                        ..old(params)@
                    });
                }
                true
            },
            None => false,
        }
    } else if str_eq(name.as_str(), "latestResourceVersion") {
        match parse_bool_value(value.as_str()) {
            Some(b) => {
                params.latest_resource_version = Some(b);
                proof {
                    assert(params@ =~= QueryParametersView {
                        latest_resource_version: Some(b),
                        ..old(params)@
                    });
                }
                true
            },
            None => false,
        }
    } else if str_eq(name.as_str(), "allResourceVersions") {
        match parse_bool_value(value.as_str()) {
            Some(b) => {
                params.all_resource_versions = Some(b);
                proof {
                    assert(params@ =~= QueryParametersView {
                        all_resource_versions: Some(b),
                        ..old(params)@
                    });
                }
                true
            },
            None => false,
        }
    } else {
        false
    }
}

/// Reads a boolean parameter value, as executable code.
fn parse_bool_value(v: &str) -> (r: Option<bool>)
    ensures
        r == spec_parse_bool(v@),
{
    if str_eq(v, "true") {
        Some(true)
    } else if str_eq(v, "false") {
        Some(false)
    } else {
        None
    }
}

} // verus!
