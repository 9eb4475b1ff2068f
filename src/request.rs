use vstd::prelude::*;
use vstd::string::StringSliceAdditionalSpecFns;
use crate::bytes::{
    COLON,
    SLASH,
    SPACE,
    copy_range,
    eq_ignore_ascii_case,
    find_first,
    has_prefix,
    has_suffix,
    lower_seq,
    starts_with,
    ends_with,
    trim,
    trim_bytes,
    until,
};

verus! {

pub open spec fn method_prefix() -> Seq<u8> {
    "GET ".spec_bytes()
}

pub open spec fn version_suffix() -> Seq<u8> {
    " HTTP/1.1".spec_bytes()
}

/// The resource of a request line that reads, once trimmed, exactly
/// `GET <resource> HTTP/1.1` with a resource free of spaces; `None` for any other line.
pub open spec fn request_target(line: Seq<u8>) -> Option<Seq<u8>> {
    let t = trim(line);
    let lo = method_prefix().len();
    let hi = t.len() - version_suffix().len();
    if lo + version_suffix().len() <= t.len() && starts_with(t, method_prefix()) && ends_with(
        t,
        version_suffix(),
    ) && forall|j: int| lo <= j < hi ==> t[j] != SPACE {
        Some(t.subrange(lo as int, hi))
    } else {
        None
    }
}

pub open spec fn host_key() -> Seq<u8> {
    "host: ".spec_bytes()
}

pub open spec fn scheme_prefix() -> Seq<u8> {
    "http://".spec_bytes()
}

/// The host name of a `Host` header line (key matched without regard to case):
/// the value without a leading `http://`, cut at the first `/`, then at the first `:`.
/// `None` for a line that is no `Host` header.
pub open spec fn host_of(header: Seq<u8>) -> Option<Seq<u8>> {
    let n = host_key().len();
    if n <= header.len() && lower_seq(header.take(n as int)) == lower_seq(host_key()) {
        let v = header.skip(n as int);
        let w = if starts_with(v, scheme_prefix()) {
            v.skip(scheme_prefix().len() as int)
        } else {
            v
        };
        Some(until(until(w, SLASH), COLON))
    } else {
        None
    }
}

/// The host name given by the first `Host` header among `headers`.
pub open spec fn first_host(headers: Seq<Seq<u8>>) -> Option<Seq<u8>>
    decreases headers.len(),
{
    if headers.len() == 0 {
        None
    } else {
        match host_of(headers[0]) {
            Some(h) => Some(h),
            None => first_host(headers.drop_first()),
        }
    }
}

pub open spec fn close_header() -> Seq<u8> {
    "Connection: close".spec_bytes()
}

/// Some header line is `Connection: close`, without regard to case.
pub open spec fn asks_close(headers: Seq<Seq<u8>>) -> bool {
    exists|i: int| 0 <= i < headers.len() && lower_seq(#[trigger] headers[i]) == lower_seq(close_header())
}

/// The byte contents of a list of lines.
pub open spec fn lines_view(v: Seq<Vec<u8>>) -> Seq<Seq<u8>> {
    v.map_values(|l: Vec<u8>| l@)
}

/// Whether a line holds nothing but whitespace.
pub fn is_blank(line: &[u8]) -> (r: bool)
    ensures
        r == (trim(line@).len() == 0),
{
    let t = trim_bytes(line);
    t.len() == 0
}

/// A header line without surrounding whitespace; `None` for the blank line that
/// ends the headers.
pub fn header_line(line: &[u8]) -> (r: Option<Vec<u8>>)
    ensures
        r is None <==> trim(line@).len() == 0,
        r matches Some(h) ==> h@ == trim(line@),
{
    let t = trim_bytes(line);
    if t.len() == 0 {
        None
    } else {
        Some(t)
    }
}

/// The resource named by a request line, when it is a `GET` request of HTTP/1.1.
pub fn parse_request_line(line: &[u8]) -> (r: Option<Vec<u8>>)
    ensures
        r is None <==> request_target(line@) is None,
        r matches Some(res) ==> request_target(line@) == Some(res@),
{
    let t = trim_bytes(line);
    let pre = "GET ".as_bytes();
    let suf = " HTTP/1.1".as_bytes();
    if t.len() < pre.len() || t.len() - pre.len() < suf.len() {
        return None;
    }
    if !has_prefix(t.as_slice(), pre) || !has_suffix(t.as_slice(), suf) {
        return None;
    }
    let lo = pre.len();
    let hi = t.len() - suf.len();
    let mut j: usize = lo;
    while j < hi
        invariant
            lo <= j <= hi <= t@.len(),
            t@ == trim(line@),
            lo == method_prefix().len(),
            hi == t@.len() - version_suffix().len(),
            forall|k: int| lo <= k < j ==> t@[k] != SPACE,
        decreases hi - j,
    {
        if t[j] == SPACE {
            assert(t@[j as int] == SPACE);
            return None;
        }
        j += 1;
    }
    Some(copy_range(t.as_slice(), lo, hi))
}

/// The host name of a `Host` header line; `None` for any other line.
pub fn parse_host_address(header: &[u8]) -> (r: Option<Vec<u8>>)
    ensures
        r is None <==> host_of(header@) is None,
        r matches Some(h) ==> host_of(header@) == Some(h@),
{
    let key = "host: ".as_bytes();
    let n = key.len();
    if n > header.len() {
        return None;
    }
    let head = copy_range(header, 0, n);
    assert(head@ == header@.take(n as int));
    if !eq_ignore_ascii_case(head.as_slice(), key) {
        return None;
    }
    let v = copy_range(header, n, header.len());
    assert(v@ =~= header@.skip(n as int));
    let scheme = "http://".as_bytes();
    let w = if has_prefix(v.as_slice(), scheme) {
        let r = copy_range(v.as_slice(), scheme.len(), v.len());
        assert(r@ =~= v@.skip(scheme@.len() as int));
        r
    } else {
        v
    };
    let a = find_first(w.as_slice(), SLASH);
    let name = copy_range(w.as_slice(), 0, a);
    let b = find_first(name.as_slice(), COLON);
    Some(copy_range(name.as_slice(), 0, b))
}

/// The host name of the first `Host` header among `headers`.
pub fn find_host(headers: &Vec<Vec<u8>>) -> (r: Option<Vec<u8>>)
    ensures
        r is None <==> first_host(lines_view(headers@)) is None,
        r matches Some(h) ==> first_host(lines_view(headers@)) == Some(h@),
{
    let ghost all = lines_view(headers@);
    let mut i: usize = 0;
    assert(all.skip(0) =~= all);
    while i < headers.len()
        invariant
            i <= headers@.len(),
            all == lines_view(headers@),
            first_host(all) == first_host(all.skip(i as int)),
        decreases headers.len() - i,
    {
        let ghost rest = all.skip(i as int);
        assert(rest[0] == headers@[i as int]@);
        assert(rest.drop_first() =~= all.skip(i + 1));
        let found = parse_host_address(headers[i].as_slice());
        if found.is_some() {
            return found;
        }
        i += 1;
    }
    assert(all.skip(i as int).len() == 0);
    None
}

/// Whether some header line is `Connection: close`, without regard to case.
pub fn wants_close(headers: &Vec<Vec<u8>>) -> (r: bool)
    ensures
        r == asks_close(lines_view(headers@)),
{
    let ghost all = lines_view(headers@);
    let target = "Connection: close".as_bytes();
    let mut i: usize = 0;
    while i < headers.len()
        invariant
            i <= headers@.len(),
            all == lines_view(headers@),
            target@ == close_header(),
            forall|k: int| 0 <= k < i ==> lower_seq(#[trigger] all[k]) != lower_seq(close_header()),
        decreases headers.len() - i,
    {
        assert(all[i as int] == headers@[i as int]@);
        if eq_ignore_ascii_case(headers[i].as_slice(), target) {
            assert(lower_seq(all[i as int]) == lower_seq(close_header()));
            return true;
        }
        i += 1;
    }
    false
}

} // verus!
