//! Reading one cookie, with its attributes, from its `Set-Cookie` form.
use crate::cookie::{bare_cookie, Cookie, CookieView, SameSite};
use crate::error::{MissingPair, ParseError, ParseFailure, ParseSameSiteError};
use crate::text::{
    chars_of, eq_ignore_ascii_case, eq_ignore_ascii_case_at, find_char, index_of, is_u64_text,
    split, string_of, trim, trim_bounds, u64_text_value,
};
use std::num::ParseIntError;
use vstd::prelude::*;

verus! {

/// `seg` cut at its first `=`: the text before it, and the text after it where there is one.
pub open spec fn split_pair(seg: Seq<char>) -> (Seq<char>, Option<Seq<char>>) {
    let i = index_of(seg, '=');
    if i < seg.len() {
        (seg.subrange(0, i), Some(seg.subrange(i + 1, seg.len() as int)))
    } else {
        (seg, None)
    }
}

pub open spec fn trim_opt(v: Option<Seq<char>>) -> Option<Seq<char>> {
    match v {
        Some(x) => Some(trim(x)),
        None => None,
    }
}

/// The `SameSite` setting that a value names, up to ASCII case.
pub open spec fn same_site_of(v: Seq<char>) -> Option<SameSite> {
    if eq_ignore_ascii_case(v, "strict"@) {
        Some(SameSite::Strict)
    } else if eq_ignore_ascii_case(v, "lax"@) {
        Some(SameSite::Lax)
    } else if eq_ignore_ascii_case(v, "none"@) {
        Some(SameSite::Unrestricted)
    } else {
        None
    }
}

/// The cookie after one attribute segment is applied to `c`, or the failure it causes.
pub open spec fn apply_attribute(c: CookieView, seg: Seq<char>, strict: bool) -> Result<
    CookieView,
    ParseFailure,
> {
    let name = trim(split_pair(seg).0);
    let value = trim_opt(split_pair(seg).1);
    if eq_ignore_ascii_case(name, "Domain"@) {
        match value {
            Some(v) => Ok(CookieView { domain: Some(v), ..c }),
            None => Err(ParseFailure::MissingPair(MissingPair::Domain)),
        }
    } else if eq_ignore_ascii_case(name, "Expires"@) {
        match value {
            Some(v) => Ok(CookieView { expires: Some(v), ..c }),
            None => Err(ParseFailure::MissingPair(MissingPair::Expires)),
        }
    } else if eq_ignore_ascii_case(name, "HttpOnly"@) {
        Ok(CookieView { http_only: Some(true), ..c })
    } else if eq_ignore_ascii_case(name, "Max-Age"@) {
        match value {
            Some(v) => if is_u64_text(v) {
                Ok(CookieView { max_age: Some(u64_text_value(v) as u64), ..c })
            } else {
                Err(ParseFailure::MaxAge)
            },
            None => Err(ParseFailure::MissingPair(MissingPair::MaxAge)),
        }
    } else if eq_ignore_ascii_case(name, "Partitioned"@) {
        Ok(CookieView { partitioned: Some(true), ..c })
    } else if eq_ignore_ascii_case(name, "Path"@) {
        match value {
            Some(v) => Ok(CookieView { path: Some(v), ..c }),
            None => Err(ParseFailure::MissingPair(MissingPair::Path)),
        }
    } else if eq_ignore_ascii_case(name, "Secure"@) {
        Ok(CookieView { secure: Some(true), ..c })
    } else if eq_ignore_ascii_case(name, "SameSite"@) {
        match value {
            Some(v) => match same_site_of(v) {
                Some(s) => Ok(CookieView { same_site: Some(s), ..c }),
                None => Err(ParseFailure::UnknownSameSite(v)),
            },
            None => Err(ParseFailure::MissingPair(MissingPair::SameSite)),
        }
    } else if strict {
        Err(ParseFailure::UnknownAttribute(name))
    } else {
        Ok(c)
    }
}

/// The attribute segments applied in order to `c`; the first failure ends it.
pub open spec fn apply_attributes(c: CookieView, segs: Seq<Seq<char>>, strict: bool) -> Result<
    CookieView,
    ParseFailure,
>
    decreases segs.len(),
{
    if segs.len() == 0 {
        Ok(c)
    } else {
        match apply_attribute(c, segs[0], strict) {
            Ok(d) => apply_attributes(d, segs.drop_first(), strict),
            Err(e) => Err(e),
        }
    }
}

/// The leading `name=value` pair as a cookie: cut at the first `=`, both sides trimmed.
pub open spec fn parse_name_value(seg: Seq<char>) -> Result<CookieView, ParseFailure> {
    match split_pair(seg).1 {
        None => Err(ParseFailure::MissingPair(MissingPair::NameValue)),
        Some(v) => if trim(split_pair(seg).0).len() == 0 {
            Err(ParseFailure::EmptyName)
        } else {
            Ok(bare_cookie(trim(split_pair(seg).0), trim(v)))
        },
    }
}

/// What parsing `s` gives: `s` is cut at every `;`, the first piece is the name/value pair and
/// the others are attributes. In strict mode an unknown attribute is a failure; otherwise it
/// is skipped.
pub open spec fn parse_model(s: Seq<char>, strict: bool) -> Result<CookieView, ParseFailure> {
    let segs = split(s, ';');
    match parse_name_value(segs[0]) {
        Ok(c) => apply_attributes(c, segs.drop_first(), strict),
        Err(e) => Err(e),
    }
}

pub open spec fn parse_result_view(r: Result<Cookie, ParseError>) -> Result<
    CookieView,
    ParseFailure,
> {
    match r {
        Ok(c) => Ok(c@),
        Err(e) => Err(e@),
    }
}

/// Relies on `u64::from_str` (through `str::parse`): it accepts an optional `+` followed by
/// one or more ASCII digits whose value fits in a `u64`, and gives that value; it fails on
/// any other text.
#[verifier::external_body]
fn parse_u64(s: &str) -> (r: Result<u64, ParseIntError>)
    ensures
        r is Ok <==> is_u64_text(s@),
        r is Ok ==> r->Ok_0 == u64_text_value(s@),
{
    s.parse::<u64>()
}

impl SameSite {
    /// Reads a `SameSite` value: `Strict`, `Lax` or `None`, in any ASCII case.
    pub fn parse(value: &str) -> (r: Result<SameSite, ParseSameSiteError>)
        ensures
            match r {
                Ok(s) => same_site_of(value@) == Some(s),
                Err(e) => same_site_of(value@) is None && e@ == value@,
            },
    {
        let v = chars_of(value);
        proof {
            assert(v@.subrange(0, v@.len() as int) == v@);
        }
        if eq_ignore_ascii_case_at(&v, 0, v.len(), &chars_of("strict")) {
            Ok(SameSite::Strict)
        } else if eq_ignore_ascii_case_at(&v, 0, v.len(), &chars_of("lax")) {
            Ok(SameSite::Lax)
        } else if eq_ignore_ascii_case_at(&v, 0, v.len(), &chars_of("none")) {
            Ok(SameSite::Unrestricted)
        } else {
            Err(ParseSameSiteError::UnknownValue(value.to_owned()))
        }
    }
}

fn is_keyword(v: &Vec<char>, lo: usize, hi: usize, keyword: &str) -> (r: bool)
    requires
        lo <= hi <= v.len(),
    ensures
        r == eq_ignore_ascii_case(v@.subrange(lo as int, hi as int), keyword@),
{
    eq_ignore_ascii_case_at(v, lo, hi, &chars_of(keyword))
}

/// Applies the attribute segment `v[start..end]` to `cookie`.
fn apply_attribute_at(cookie: &mut Cookie, v: &Vec<char>, start: usize, end: usize, strict: bool) -> (r: Result<(), ParseError>)
    requires
        start <= end <= v.len(),
    ensures
        match r {
            Ok(_) => apply_attribute(old(cookie)@, v@.subrange(start as int, end as int), strict) == Ok::<CookieView, ParseFailure>(final(cookie)@),
            Err(e) => apply_attribute(old(cookie)@, v@.subrange(start as int, end as int), strict) == Err::<CookieView, ParseFailure>(e@),
        },
{
    let ghost seg = v@.subrange(start as int, end as int);
    let eq = find_char(v, start, end, '=');
    let (a, b) = trim_bounds(v, start, eq);
    let has_value = eq < end;
    let (c, d) = if has_value {
        trim_bounds(v, eq + 1, end)
    } else {
        (end, end)
    };
    proof {
        let i = eq - start;
        assert(index_of(seg, '=') == i);
        assert(seg.subrange(0, i) == v@.subrange(start as int, eq as int));
        if has_value {
            assert(seg.subrange(i + 1, seg.len() as int) == v@.subrange(eq + 1, end as int));
        } else {
            assert(seg == v@.subrange(start as int, eq as int));
        }
    }
    let ghost name = trim(split_pair(seg).0);
    let ghost value = trim_opt(split_pair(seg).1);
    assert(name == v@.subrange(a as int, b as int));
    assert(has_value ==> value == Some(v@.subrange(c as int, d as int)));
    assert(!has_value ==> value is None);
    if is_keyword(v, a, b, "Domain") {
        if !has_value {
            return Err(ParseError::MissingPair(MissingPair::Domain));
        }
        cookie.set_domain(string_of(v, c, d).as_str());
    } else if is_keyword(v, a, b, "Expires") {
        if !has_value {
            return Err(ParseError::MissingPair(MissingPair::Expires));
        }
        cookie.set_expires(string_of(v, c, d).as_str());
    } else if is_keyword(v, a, b, "HttpOnly") {
        cookie.set_http_only(true);
    } else if is_keyword(v, a, b, "Max-Age") {
        if !has_value {
            return Err(ParseError::MissingPair(MissingPair::MaxAge));
        }
        match parse_u64(string_of(v, c, d).as_str()) {
            Ok(n) => cookie.set_max_age(n),
            Err(e) => return Err(ParseError::ParseMaxAgeError(e)),
        }
    } else if is_keyword(v, a, b, "Partitioned") {
        cookie.set_partitioned(true);
    } else if is_keyword(v, a, b, "Path") {
        if !has_value {
            return Err(ParseError::MissingPair(MissingPair::Path));
        }
        cookie.set_path(string_of(v, c, d).as_str());
    } else if is_keyword(v, a, b, "Secure") {
        cookie.set_secure(true);
    } else if is_keyword(v, a, b, "SameSite") {
        if !has_value {
            return Err(ParseError::MissingPair(MissingPair::SameSite));
        }
        match SameSite::parse(string_of(v, c, d).as_str()) {
            Ok(s) => cookie.set_same_site(s),
            Err(e) => return Err(ParseError::ParseSameSiteError(e)),
        }
    } else if strict {
        return Err(ParseError::UnknownAttribute(string_of(v, a, b)));
    }
    Ok(())
}

/// The attribute segments of `s` that follow the separator at `pos`; none where `pos` is the
/// end of `s`.
pub open spec fn segments_after(s: Seq<char>, pos: int) -> Seq<Seq<char>> {
    if pos < s.len() {
        split(s.subrange(pos + 1, s.len() as int), ';')
    } else {
        Seq::empty()
    }
}

/// For `0 <= pos <= s.len()` with `s[pos] == ';'` or `pos == s.len()`: the segment that
/// starts after `pos`, ending at `end`, and those after it.
proof fn lemma_next_segment(s: Seq<char>, pos: int, end: int)
    requires
        0 <= pos < s.len(),
        pos + 1 <= end <= s.len(),
        end - (pos + 1) == index_of(s.subrange(pos + 1, s.len() as int), ';'),
        end < s.len() ==> s[end] == ';',
    ensures
        segments_after(s, pos).len() > 0,
        segments_after(s, pos)[0] == s.subrange(pos + 1, end),
        segments_after(s, pos).drop_first() == segments_after(s, end),
{
    let t = s.subrange(pos + 1, s.len() as int);
    let i = end - (pos + 1);
    assert(t.subrange(0, i) == s.subrange(pos + 1, end));
    if end < s.len() {
        assert(t.subrange(i + 1, t.len() as int) == s.subrange(end + 1, s.len() as int));
        assert((seq![t.subrange(0, i)] + split(t.subrange(i + 1, t.len() as int), ';')).drop_first()
            == split(t.subrange(i + 1, t.len() as int), ';'));
    } else {
        assert(t.subrange(0, i) == t);
    }
}

/// Reads `v[lo..hi]` as a name/value pair.
pub(crate) fn parse_name_value_at(v: &Vec<char>, lo: usize, hi: usize) -> (r: Result<Cookie, ParseError>)
    requires
        lo <= hi <= v.len(),
    ensures
        parse_result_view(r) == parse_name_value(v@.subrange(lo as int, hi as int)),
{
    let ghost seg = v@.subrange(lo as int, hi as int);
    let eq = find_char(v, lo, hi, '=');
    if eq == hi {
        return Err(ParseError::MissingPair(MissingPair::NameValue));
    }
    let (a, b) = trim_bounds(v, lo, eq);
    proof {
        let i = eq - lo;
        assert(seg.subrange(0, i) == v@.subrange(lo as int, eq as int));
        assert(seg.subrange(i + 1, seg.len() as int) == v@.subrange(eq + 1, hi as int));
    }
    if a == b {
        return Err(ParseError::EmptyName);
    }
    let (c, d) = trim_bounds(v, eq + 1, hi);
    Ok(Cookie::new(string_of(v, a, b).as_str(), string_of(v, c, d).as_str()))
}

/// Parses the cookie held in `v`.
fn parse_cookie(v: &Vec<char>, strict: bool) -> (r: Result<Cookie, ParseError>)
    ensures
        parse_result_view(r) == parse_model(v@, strict),
{
    let n = v.len();
    let e0 = find_char(v, 0, n, ';');
    let ghost segs = split(v@, ';');
    proof {
        assert(v@.subrange(0, n as int) == v@);
        if e0 < n {
            assert(segs[0] == v@.subrange(0, e0 as int));
            assert(segs.drop_first() == segments_after(v@, e0 as int));
        } else {
            assert(segs == seq![v@]);
            assert(segs.drop_first() == Seq::<Seq<char>>::empty());
            assert(v@.subrange(0, e0 as int) == v@);
        }
    }
    let mut cookie = match parse_name_value_at(v, 0, e0) {
        Ok(c) => c,
        Err(e) => return Err(e),
    };
    let mut pos = e0;
    while pos < n
        invariant
            n == v.len(),
            pos <= n,
            pos < n ==> v@[pos as int] == ';',
            parse_model(v@, strict) == apply_attributes(cookie@, segments_after(v@, pos as int), strict),
        decreases n - pos,
    {
        let start = pos + 1;
        let end = find_char(v, start, n, ';');
        proof {
            lemma_next_segment(v@, pos as int, end as int);
        }
        let step = apply_attribute_at(&mut cookie, v, start, end, strict);
        match step {
            Ok(_) => {},
            Err(e) => return Err(e),
        }
        pos = end;
    }
    Ok(cookie)
}

impl Cookie {
    /// Parses a cookie in lenient mode: an unknown attribute is skipped.
    pub fn parse(value: &str) -> (r: Result<Cookie, ParseError>)
        ensures
            parse_result_view(r) == parse_model(value@, false),
    {
        parse_cookie(&chars_of(value), false)
    }

    /// Parses a cookie in strict mode: an unknown attribute is an error.
    pub fn parse_strict(value: &str) -> (r: Result<Cookie, ParseError>)
        ensures
            parse_result_view(r) == parse_model(value@, true),
    {
        parse_cookie(&chars_of(value), true)
    }
}

} // verus!
