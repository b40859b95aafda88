//! The `Set-Cookie` form of a cookie reads back as the same cookie.
use crate::cookie::{
    attribute_text, bare_cookie, flag_text, max_age_text, same_site_attribute_text, same_site_text, serialize,
    CookieView, SameSite,
};
use crate::error::ParseFailure;
use crate::parse::{
    apply_attribute, apply_attributes, parse_model, parse_name_value, same_site_of, split_pair,
    trim_opt,
};
use crate::text::{
    ascii_lower, decimal_of, eq_ignore_ascii_case, is_digit, is_white_space, lemma_decimal_round_trip,
    lemma_index_of, lemma_u64_text_round_trip, split, trim, trim_start,
};
use vstd::prelude::*;
use vstd::seq_lib::lemma_concat_associative;

verus! {

/// A text that holds no `c`.
pub open spec fn free_of(s: Seq<char>, c: char) -> bool {
    forall|i: int| 0 <= i < s.len() ==> #[trigger] s[i] != c
}

/// A text that an attribute or a value can carry through the `Set-Cookie` form: no `;`, and no
/// white space at either end.
pub open spec fn clean(s: Seq<char>) -> bool {
    free_of(s, ';') && trim(s) == s
}

proof fn lemma_trim_fixed(s: Seq<char>)
    requires
        s.len() > 0,
        !is_white_space(s[0]),
        !is_white_space(s.last()),
    ensures
        trim(s) == s,
{
}

/// A space, then `key`, then `=` and `x`: the segment reads as `key` with the value `x`.
proof fn lemma_pair_segment(key: Seq<char>, x: Seq<char>)
    requires
        key.len() > 0,
        free_of(key, '='),
        !is_white_space(key[0]),
        !is_white_space(key.last()),
        trim(x) == x,
    ensures
        trim(split_pair(seq![' '] + key + seq!['='] + x).0) == key,
        trim_opt(split_pair(seq![' '] + key + seq!['='] + x).1) == Some(x),
{
    let seg = seq![' '] + key + seq!['='] + x;
    let i: int = key.len() as int + 1;
    assert forall|j: int| 0 <= j < i implies #[trigger] seg[j] != '=' by {
        if j > 0 {
            assert(seg[j] == key[j - 1]);
        }
    }
    lemma_index_of(seg, '=', i);
    let head = seg.subrange(0, i);
    assert(head.drop_first() == key);
    assert(trim_start(head) == trim_start(key));
    lemma_trim_fixed(key);
    assert(trim_start(key) == key);
    assert(seg.subrange(i + 1, seg.len() as int) == x);
}

/// A space, then `key`: the segment reads as `key` with no value.
proof fn lemma_flag_segment(key: Seq<char>)
    requires
        key.len() > 0,
        free_of(key, '='),
        !is_white_space(key[0]),
        !is_white_space(key.last()),
    ensures
        trim(split_pair(seq![' '] + key).0) == key,
        trim_opt(split_pair(seq![' '] + key).1) is None,
{
    let seg = seq![' '] + key;
    assert forall|j: int| 0 <= j < seg.len() implies #[trigger] seg[j] != '=' by {
        if j > 0 {
            assert(seg[j] == key[j - 1]);
        }
    }
    lemma_index_of(seg, '=', seg.len() as int);
    assert(seg.drop_first() == key);
    lemma_trim_fixed(key);
    assert(trim_start(key) == key);
}

/// A keyword as the serializer writes it: non-empty, with no `=` and no white space at either
/// end.
pub open spec fn plain_keyword(k: Seq<char>) -> bool {
    k.len() > 0 && free_of(k, '=') && !is_white_space(k[0]) && !is_white_space(k.last())
}

proof fn lemma_keywords()
    ensures
        plain_keyword("Domain"@),
        plain_keyword("Expires"@),
        plain_keyword("HttpOnly"@),
        plain_keyword("Max-Age"@),
        plain_keyword("Partitioned"@),
        plain_keyword("Path"@),
        plain_keyword("Secure"@),
        plain_keyword("SameSite"@),
        !eq_ignore_ascii_case("Expires"@, "Domain"@),
        !eq_ignore_ascii_case("HttpOnly"@, "Domain"@),
        !eq_ignore_ascii_case("HttpOnly"@, "Expires"@),
        !eq_ignore_ascii_case("Max-Age"@, "Domain"@),
        !eq_ignore_ascii_case("Max-Age"@, "Expires"@),
        !eq_ignore_ascii_case("Max-Age"@, "HttpOnly"@),
        !eq_ignore_ascii_case("Partitioned"@, "Domain"@),
        !eq_ignore_ascii_case("Partitioned"@, "Expires"@),
        !eq_ignore_ascii_case("Partitioned"@, "HttpOnly"@),
        !eq_ignore_ascii_case("Partitioned"@, "Max-Age"@),
        !eq_ignore_ascii_case("Path"@, "Domain"@),
        !eq_ignore_ascii_case("Path"@, "Expires"@),
        !eq_ignore_ascii_case("Path"@, "HttpOnly"@),
        !eq_ignore_ascii_case("Path"@, "Max-Age"@),
        !eq_ignore_ascii_case("Path"@, "Partitioned"@),
        !eq_ignore_ascii_case("Secure"@, "Domain"@),
        !eq_ignore_ascii_case("Secure"@, "Expires"@),
        !eq_ignore_ascii_case("Secure"@, "HttpOnly"@),
        !eq_ignore_ascii_case("Secure"@, "Max-Age"@),
        !eq_ignore_ascii_case("Secure"@, "Partitioned"@),
        !eq_ignore_ascii_case("Secure"@, "Path"@),
        !eq_ignore_ascii_case("SameSite"@, "Domain"@),
        !eq_ignore_ascii_case("SameSite"@, "Expires"@),
        !eq_ignore_ascii_case("SameSite"@, "HttpOnly"@),
        !eq_ignore_ascii_case("SameSite"@, "Max-Age"@),
        !eq_ignore_ascii_case("SameSite"@, "Partitioned"@),
        !eq_ignore_ascii_case("SameSite"@, "Path"@),
        !eq_ignore_ascii_case("SameSite"@, "Secure"@),
{
    reveal_strlit("Domain");
    reveal_strlit("Expires");
    reveal_strlit("HttpOnly");
    reveal_strlit("Max-Age");
    reveal_strlit("Partitioned");
    reveal_strlit("Path");
    reveal_strlit("Secure");
    reveal_strlit("SameSite");
    assert(("Max-Age"@)[0] == 'M' && ("Expires"@)[0] == 'E');
    assert(("Secure"@)[0] == 'S' && ("Domain"@)[0] == 'D');
    assert(("SameSite"@)[0] == 'S' && ("HttpOnly"@)[0] == 'H');
}

/// The segment that the serializer writes for an attribute with a value.
pub open spec fn pair_segment(key: Seq<char>, x: Seq<char>) -> Seq<char> {
    seq![' '] + key + seq!['='] + x
}

/// The segment that the serializer writes for a flag set to true.
pub open spec fn flag_segment(key: Seq<char>) -> Seq<char> {
    seq![' '] + key
}

proof fn lemma_same_site_text(x: SameSite)
    ensures
        same_site_of(same_site_text(x)) == Some(x),
        trim(same_site_text(x)) == same_site_text(x),
{
    reveal_strlit("Strict");
    reveal_strlit("Lax");
    reveal_strlit("None");
    reveal_strlit("strict");
    reveal_strlit("lax");
    reveal_strlit("none");
    let t = same_site_text(x);
    match x {
        SameSite::Strict => {
            assert forall|i: int| 0 <= i < t.len() implies #[trigger] ascii_lower(t[i])
                == ascii_lower("strict"@[i]) by {
                if i == 0 {
                    assert(t[0] == 'S' && "strict"@[0] == 's');
                }
            }
        },
        SameSite::Lax => {
            assert forall|i: int| 0 <= i < t.len() implies #[trigger] ascii_lower(t[i])
                == ascii_lower("lax"@[i]) by {
                if i == 0 {
                    assert(t[0] == 'L' && "lax"@[0] == 'l');
                }
            }
        },
        SameSite::Unrestricted => {
            assert forall|i: int| 0 <= i < t.len() implies #[trigger] ascii_lower(t[i])
                == ascii_lower("none"@[i]) by {
                if i == 0 {
                    assert(t[0] == 'N' && "none"@[0] == 'n');
                }
            }
        },
    }
    lemma_trim_fixed(t);
}

proof fn lemma_decimal_trimmed(n: nat)
    ensures
        trim(decimal_of(n)) == decimal_of(n),
{
    lemma_decimal_round_trip(n);
    let d = decimal_of(n);
    assert(is_digit(d[0]));
    assert(is_digit(d[d.len() - 1]));
    lemma_trim_fixed(d);
}

proof fn lemma_apply_domain(c: CookieView, x: Seq<char>, strict: bool)
    requires
        trim(x) == x,
    ensures
        apply_attribute(c, pair_segment("Domain"@, x), strict) == Ok::<CookieView, ParseFailure>(
            CookieView { domain: Some(x), ..c },
        ),
{
    lemma_keywords();
    lemma_pair_segment("Domain"@, x);
}

proof fn lemma_apply_expires(c: CookieView, x: Seq<char>, strict: bool)
    requires
        trim(x) == x,
    ensures
        apply_attribute(c, pair_segment("Expires"@, x), strict) == Ok::<CookieView, ParseFailure>(
            CookieView { expires: Some(x), ..c },
        ),
{
    lemma_keywords();
    lemma_pair_segment("Expires"@, x);
}

proof fn lemma_apply_http_only(c: CookieView, strict: bool)
    ensures
        apply_attribute(c, flag_segment("HttpOnly"@), strict) == Ok::<CookieView, ParseFailure>(
            CookieView { http_only: Some(true), ..c },
        ),
{
    lemma_keywords();
    lemma_flag_segment("HttpOnly"@);
}

proof fn lemma_apply_max_age(c: CookieView, n: u64, strict: bool)
    ensures
        apply_attribute(c, pair_segment("Max-Age"@, decimal_of(n as nat)), strict) == Ok::<
            CookieView,
            ParseFailure,
        >(CookieView { max_age: Some(n), ..c }),
{
    lemma_keywords();
    lemma_decimal_trimmed(n as nat);
    lemma_pair_segment("Max-Age"@, decimal_of(n as nat));
    lemma_u64_text_round_trip(n);
}

proof fn lemma_apply_partitioned(c: CookieView, strict: bool)
    ensures
        apply_attribute(c, flag_segment("Partitioned"@), strict) == Ok::<CookieView, ParseFailure>(
            CookieView { partitioned: Some(true), ..c },
        ),
{
    lemma_keywords();
    lemma_flag_segment("Partitioned"@);
}

proof fn lemma_apply_path(c: CookieView, x: Seq<char>, strict: bool)
    requires
        trim(x) == x,
    ensures
        apply_attribute(c, pair_segment("Path"@, x), strict) == Ok::<CookieView, ParseFailure>(
            CookieView { path: Some(x), ..c },
        ),
{
    lemma_keywords();
    lemma_pair_segment("Path"@, x);
}

proof fn lemma_apply_same_site(c: CookieView, ss: SameSite, strict: bool)
    ensures
        apply_attribute(c, pair_segment("SameSite"@, same_site_text(ss)), strict) == Ok::<
            CookieView,
            ParseFailure,
        >(CookieView { same_site: Some(ss), ..c }),
{
    lemma_keywords();
    lemma_same_site_text(ss);
    lemma_pair_segment("SameSite"@, same_site_text(ss));
}

proof fn lemma_apply_secure(c: CookieView, strict: bool)
    ensures
        apply_attribute(c, flag_segment("Secure"@), strict) == Ok::<CookieView, ParseFailure>(
            CookieView { secure: Some(true), ..c },
        ),
{
    lemma_keywords();
    lemma_flag_segment("Secure"@);
}

/// The segments, each after a `;`.
pub open spec fn join_segments(l: Seq<Seq<char>>) -> Seq<char>
    decreases l.len(),
{
    if l.len() == 0 {
        Seq::empty()
    } else {
        seq![';'] + l[0] + join_segments(l.drop_first())
    }
}

proof fn lemma_join_append(l1: Seq<Seq<char>>, l2: Seq<Seq<char>>)
    ensures
        join_segments(l1 + l2) == join_segments(l1) + join_segments(l2),
    decreases l1.len(),
{
    if l1.len() == 0 {
        assert(l1 + l2 == l2);
    } else {
        assert((l1 + l2).drop_first() == l1.drop_first() + l2);
        lemma_join_append(l1.drop_first(), l2);
        assert((l1 + l2)[0] == l1[0]);
    }
}

proof fn lemma_split_join(x: Seq<char>, l: Seq<Seq<char>>)
    requires
        free_of(x, ';'),
        forall|i: int| 0 <= i < l.len() ==> free_of(#[trigger] l[i], ';'),
    ensures
        split(x + join_segments(l), ';') == seq![x] + l,
    decreases l.len(),
{
    let s = x + join_segments(l);
    if l.len() == 0 {
        assert(s == x);
        lemma_index_of(s, ';', s.len() as int);
        assert(seq![x] + l == seq![x]);
    } else {
        let rest = l[0] + join_segments(l.drop_first());
        assert(s == x + seq![';'] + rest);
        assert forall|j: int| 0 <= j < x.len() implies #[trigger] s[j] != ';' by {
            assert(s[j] == x[j]);
        }
        lemma_index_of(s, ';', x.len() as int);
        assert(s.subrange(0, x.len() as int) == x);
        assert(s.subrange(x.len() as int + 1, s.len() as int) == rest);
        assert forall|i: int| 0 <= i < l.drop_first().len() implies free_of(
            #[trigger] l.drop_first()[i],
            ';',
        ) by {
            assert(l.drop_first()[i] == l[i + 1]);
        }
        lemma_split_join(l[0], l.drop_first());
        assert(seq![x] + (seq![l[0]] + l.drop_first()) == seq![x] + l);
    }
}

proof fn lemma_apply_append(c: CookieView, l1: Seq<Seq<char>>, l2: Seq<Seq<char>>, strict: bool)
    ensures
        apply_attributes(c, l1 + l2, strict) == match apply_attributes(c, l1, strict) {
            Ok(d) => apply_attributes(d, l2, strict),
            Err(e) => Err(e),
        },
    decreases l1.len(),
{
    if l1.len() == 0 {
        assert(l1 + l2 == l2);
    } else {
        assert((l1 + l2).drop_first() == l1.drop_first() + l2);
        assert((l1 + l2)[0] == l1[0]);
        match apply_attribute(c, l1[0], strict) {
            Ok(d) => {
                lemma_apply_append(d, l1.drop_first(), l2, strict);
            },
            Err(_) => {},
        }
    }
}

pub open spec fn optional_segment(present: bool, seg: Seq<char>) -> Seq<Seq<char>> {
    if present {
        seq![seg]
    } else {
        Seq::empty()
    }
}

/// The attribute segments of a cookie's `Set-Cookie` form, in the order they are written.
pub open spec fn attribute_segments(c: CookieView) -> Seq<Seq<char>> {
    optional_segment(c.domain is Some, pair_segment("Domain"@, c.domain->0))
        + optional_segment(c.expires is Some, pair_segment("Expires"@, c.expires->0))
        + optional_segment(c.http_only == Some(true), flag_segment("HttpOnly"@))
        + optional_segment(c.max_age is Some, pair_segment("Max-Age"@, decimal_of(c.max_age->0 as nat)))
        + optional_segment(c.partitioned == Some(true), flag_segment("Partitioned"@))
        + optional_segment(c.path is Some, pair_segment("Path"@, c.path->0))
        + optional_segment(c.same_site is Some, pair_segment("SameSite"@, same_site_text(c.same_site->0)))
        + optional_segment(c.secure == Some(true), flag_segment("Secure"@))
}

proof fn lemma_join_optional(present: bool, seg: Seq<char>)
    ensures
        join_segments(optional_segment(present, seg)) == if present {
            seq![';'] + seg
        } else {
            Seq::<char>::empty()
        },
{
    if present {
        assert(seq![seg].drop_first() == Seq::<Seq<char>>::empty());
        assert(join_segments(Seq::<Seq<char>>::empty()) == Seq::<char>::empty());
        assert(seq![';'] + seg + Seq::<char>::empty() == seq![';'] + seg);
    }
}

proof fn lemma_attribute_literals()
    ensures
        "; Domain="@ == seq![';'] + pair_segment("Domain"@, Seq::empty()),
        "; Expires="@ == seq![';'] + pair_segment("Expires"@, Seq::empty()),
        "; HttpOnly"@ == seq![';'] + flag_segment("HttpOnly"@),
        "; Max-Age="@ == seq![';'] + pair_segment("Max-Age"@, Seq::empty()),
        "; Partitioned"@ == seq![';'] + flag_segment("Partitioned"@),
        "; Path="@ == seq![';'] + pair_segment("Path"@, Seq::empty()),
        "; SameSite="@ == seq![';'] + pair_segment("SameSite"@, Seq::empty()),
        "; Secure"@ == seq![';'] + flag_segment("Secure"@),
{
    reveal_strlit("Domain");
    reveal_strlit("Expires");
    reveal_strlit("HttpOnly");
    reveal_strlit("Max-Age");
    reveal_strlit("Partitioned");
    reveal_strlit("Path");
    reveal_strlit("Secure");
    reveal_strlit("SameSite");
    reveal_strlit("; Domain=");
    reveal_strlit("; Expires=");
    reveal_strlit("; HttpOnly");
    reveal_strlit("; Max-Age=");
    reveal_strlit("; Partitioned");
    reveal_strlit("; Path=");
    reveal_strlit("; SameSite=");
    reveal_strlit("; Secure");
    assert("; Domain="@ =~= seq![';'] + pair_segment("Domain"@, Seq::empty()));
    assert("; Expires="@ =~= seq![';'] + pair_segment("Expires"@, Seq::empty()));
    assert("; HttpOnly"@ =~= seq![';'] + flag_segment("HttpOnly"@));
    assert("; Max-Age="@ =~= seq![';'] + pair_segment("Max-Age"@, Seq::empty()));
    assert("; Partitioned"@ =~= seq![';'] + flag_segment("Partitioned"@));
    assert("; Path="@ =~= seq![';'] + pair_segment("Path"@, Seq::empty()));
    assert("; SameSite="@ =~= seq![';'] + pair_segment("SameSite"@, Seq::empty()));
    assert("; Secure"@ =~= seq![';'] + flag_segment("Secure"@));
}

proof fn lemma_pair_text(lit: Seq<char>, key: Seq<char>, v: Option<Seq<char>>)
    requires
        lit == seq![';'] + pair_segment(key, Seq::empty()),
    ensures
        attribute_text(lit, v) == join_segments(optional_segment(v is Some, pair_segment(key, v->0))),
{
    lemma_join_optional(v is Some, pair_segment(key, v->0));
    if v is Some {
        assert(lit + v->0 =~= seq![';'] + pair_segment(key, v->0));
    }
}

proof fn lemma_flag_text(lit: Seq<char>, key: Seq<char>, f: Option<bool>)
    requires
        lit == seq![';'] + flag_segment(key),
    ensures
        flag_text(lit, f) == join_segments(optional_segment(f == Some(true), flag_segment(key))),
{
    lemma_join_optional(f == Some(true), flag_segment(key));
}

proof fn lemma_join_step(h: Seq<char>, done: Seq<Seq<char>>, next: Seq<Seq<char>>, t: Seq<char>)
    requires
        t == join_segments(next),
    ensures
        h + join_segments(done) + t == h + join_segments(done + next),
{
    lemma_join_append(done, next);
    lemma_concat_associative(h, join_segments(done), t);
}

/// The `Set-Cookie` form is `name=value`, then each attribute segment after a `;`.
proof fn lemma_serialize_segments(c: CookieView)
    ensures
        serialize(c) == c.name + seq!['='] + c.value + join_segments(attribute_segments(c)),
{
    lemma_attribute_literals();
    let h = c.name + seq!['='] + c.value;
    let a1 = optional_segment(c.domain is Some, pair_segment("Domain"@, c.domain->0));
    let a2 = optional_segment(c.expires is Some, pair_segment("Expires"@, c.expires->0));
    let a3 = optional_segment(c.http_only == Some(true), flag_segment("HttpOnly"@));
    let a4 = optional_segment(c.max_age is Some, pair_segment("Max-Age"@, decimal_of(c.max_age->0 as nat)));
    let a5 = optional_segment(c.partitioned == Some(true), flag_segment("Partitioned"@));
    let a6 = optional_segment(c.path is Some, pair_segment("Path"@, c.path->0));
    let a7 = optional_segment(c.same_site is Some, pair_segment("SameSite"@, same_site_text(c.same_site->0)));
    let a8 = optional_segment(c.secure == Some(true), flag_segment("Secure"@));
    let t1 = attribute_text("; Domain="@, c.domain);
    let t2 = attribute_text("; Expires="@, c.expires);
    let t3 = flag_text("; HttpOnly"@, c.http_only);
    let t4 = max_age_text(c.max_age);
    let t5 = flag_text("; Partitioned"@, c.partitioned);
    let t6 = attribute_text("; Path="@, c.path);
    let t7 = same_site_attribute_text(c.same_site);
    let t8 = flag_text("; Secure"@, c.secure);
    lemma_pair_text("; Domain="@, "Domain"@, c.domain);
    lemma_pair_text("; Expires="@, "Expires"@, c.expires);
    lemma_flag_text("; HttpOnly"@, "HttpOnly"@, c.http_only);
    let m = match c.max_age {
        Some(n) => Some(decimal_of(n as nat)),
        None => None,
    };
    lemma_pair_text("; Max-Age="@, "Max-Age"@, m);
    assert(t4 == attribute_text("; Max-Age="@, m));
    lemma_flag_text("; Partitioned"@, "Partitioned"@, c.partitioned);
    lemma_pair_text("; Path="@, "Path"@, c.path);
    let ss = match c.same_site {
        Some(x) => Some(same_site_text(x)),
        None => None,
    };
    lemma_pair_text("; SameSite="@, "SameSite"@, ss);
    assert(t7 == attribute_text("; SameSite="@, ss));
    lemma_flag_text("; Secure"@, "Secure"@, c.secure);
    assert(serialize(c) == h + t1 + t2 + t3 + t4 + t5 + t6 + t7 + t8);
    lemma_join_step(h, a1, a2, t2);
    lemma_join_step(h, a1 + a2, a3, t3);
    lemma_join_step(h, a1 + a2 + a3, a4, t4);
    lemma_join_step(h, a1 + a2 + a3 + a4, a5, t5);
    lemma_join_step(h, a1 + a2 + a3 + a4 + a5, a6, t6);
    lemma_join_step(h, a1 + a2 + a3 + a4 + a5 + a6, a7, t7);
    lemma_join_step(h, a1 + a2 + a3 + a4 + a5 + a6 + a7, a8, t8);
}

/// A cookie that its `Set-Cookie` form carries whole: a non-empty name without `=`, texts
/// without `;` or white space at either end, and no flag set to false (false and unset are
/// written alike).
pub open spec fn clean_cookie(c: CookieView) -> bool {
    &&& c.name.len() > 0
    &&& free_of(c.name, '=')
    &&& clean(c.name)
    &&& clean(c.value)
    &&& (c.domain is Some ==> clean(c.domain->0))
    &&& (c.expires is Some ==> clean(c.expires->0))
    &&& (c.path is Some ==> clean(c.path->0))
    &&& c.http_only != Some(false)
    &&& c.partitioned != Some(false)
    &&& c.secure != Some(false)
}

proof fn lemma_apply_optional(d: CookieView, present: bool, seg: Seq<char>, e: CookieView, strict: bool)
    requires
        present ==> apply_attribute(d, seg, strict) == Ok::<CookieView, ParseFailure>(e),
        !present ==> e == d,
    ensures
        apply_attributes(d, optional_segment(present, seg), strict) == Ok::<CookieView, ParseFailure>(e),
{
    if present {
        assert(seq![seg].drop_first() == Seq::<Seq<char>>::empty());
        assert(apply_attributes(e, Seq::<Seq<char>>::empty(), strict) == Ok::<CookieView, ParseFailure>(e));
    }
}

proof fn lemma_flag(f: Option<bool>)
    requires
        f != Some(false),
    ensures
        f != Some(true) ==> f is None,
{
    if let Some(b) = f {
        assert(b);
    }
}

proof fn lemma_chain_step(
    c0: CookieView,
    done: Seq<Seq<char>>,
    d: CookieView,
    present: bool,
    seg: Seq<char>,
    e: CookieView,
    strict: bool,
)
    requires
        apply_attributes(c0, done, strict) == Ok::<CookieView, ParseFailure>(d),
        present ==> apply_attribute(d, seg, strict) == Ok::<CookieView, ParseFailure>(e),
        !present ==> e == d,
    ensures
        apply_attributes(c0, done + optional_segment(present, seg), strict) == Ok::<CookieView, ParseFailure>(e),
{
    lemma_apply_optional(d, present, seg, e, strict);
    lemma_apply_append(c0, done, optional_segment(present, seg), strict);
}

proof fn lemma_apply_chain(c: CookieView, strict: bool)
    requires
        clean_cookie(c),
    ensures
        apply_attributes(bare_cookie(c.name, c.value), attribute_segments(c), strict) == Ok::<
            CookieView,
            ParseFailure,
        >(c),
{
    let n = c.max_age->0;
    let ss = c.same_site->0;
    lemma_flag(c.http_only);
    lemma_flag(c.partitioned);
    lemma_flag(c.secure);
    let c0 = bare_cookie(c.name, c.value);
    let c1 = CookieView { domain: c.domain, ..c0 };
    let c2 = CookieView { expires: c.expires, ..c1 };
    let c3 = CookieView { http_only: c.http_only, ..c2 };
    let c4 = CookieView { max_age: c.max_age, ..c3 };
    let c5 = CookieView { partitioned: c.partitioned, ..c4 };
    let c6 = CookieView { path: c.path, ..c5 };
    let c7 = CookieView { same_site: c.same_site, ..c6 };
    let c8 = CookieView { secure: c.secure, ..c7 };
    assert(c8 == c);
    let s1 = pair_segment("Domain"@, c.domain->0);
    let s2 = pair_segment("Expires"@, c.expires->0);
    let s3 = flag_segment("HttpOnly"@);
    let s4 = pair_segment("Max-Age"@, decimal_of(n as nat));
    let s5 = flag_segment("Partitioned"@);
    let s6 = pair_segment("Path"@, c.path->0);
    let s7 = pair_segment("SameSite"@, same_site_text(ss));
    let s8 = flag_segment("Secure"@);
    let a1 = optional_segment(c.domain is Some, s1);
    let a2 = optional_segment(c.expires is Some, s2);
    let a3 = optional_segment(c.http_only == Some(true), s3);
    let a4 = optional_segment(c.max_age is Some, s4);
    let a5 = optional_segment(c.partitioned == Some(true), s5);
    let a6 = optional_segment(c.path is Some, s6);
    let a7 = optional_segment(c.same_site is Some, s7);
    let a8 = optional_segment(c.secure == Some(true), s8);
    let empty = Seq::<Seq<char>>::empty();
    assert(empty + a1 == a1);
    if c.domain is Some {
        lemma_apply_domain(c0, c.domain->0, strict);
    }
    lemma_chain_step(c0, empty, c0, c.domain is Some, s1, c1, strict);
    if c.expires is Some {
        lemma_apply_expires(c1, c.expires->0, strict);
    }
    lemma_chain_step(c0, a1, c1, c.expires is Some, s2, c2, strict);
    lemma_apply_http_only(c2, strict);
    lemma_chain_step(c0, a1 + a2, c2, c.http_only == Some(true), s3, c3, strict);
    lemma_apply_max_age(c3, n, strict);
    lemma_chain_step(c0, a1 + a2 + a3, c3, c.max_age is Some, s4, c4, strict);
    lemma_apply_partitioned(c4, strict);
    lemma_chain_step(c0, a1 + a2 + a3 + a4, c4, c.partitioned == Some(true), s5, c5, strict);
    if c.path is Some {
        lemma_apply_path(c5, c.path->0, strict);
    }
    lemma_chain_step(c0, a1 + a2 + a3 + a4 + a5, c5, c.path is Some, s6, c6, strict);
    lemma_apply_same_site(c6, ss, strict);
    lemma_chain_step(c0, a1 + a2 + a3 + a4 + a5 + a6, c6, c.same_site is Some, s7, c7, strict);
    lemma_apply_secure(c7, strict);
    lemma_chain_step(c0, a1 + a2 + a3 + a4 + a5 + a6 + a7, c7, c.secure == Some(true), s8, c8, strict);
}

pub open spec fn all_free(l: Seq<Seq<char>>) -> bool {
    forall|i: int| 0 <= i < l.len() ==> free_of(#[trigger] l[i], ';')
}

proof fn lemma_all_free_append(l1: Seq<Seq<char>>, l2: Seq<Seq<char>>)
    requires
        all_free(l1),
        all_free(l2),
    ensures
        all_free(l1 + l2),
{
    assert forall|i: int| 0 <= i < (l1 + l2).len() implies free_of(#[trigger] (l1 + l2)[i], ';') by {
        if i >= l1.len() {
            assert((l1 + l2)[i] == l2[i - l1.len()]);
        }
    }
}

proof fn lemma_pair_segment_free(key: Seq<char>, x: Seq<char>)
    requires
        free_of(key, ';'),
        free_of(x, ';'),
    ensures
        free_of(pair_segment(key, x), ';'),
{
    let s = pair_segment(key, x);
    assert forall|i: int| 0 <= i < s.len() implies #[trigger] s[i] != ';' by {
        if 1 <= i < key.len() + 1 {
            assert(s[i] == key[i - 1]);
        } else if i > key.len() + 1 {
            assert(s[i] == x[i - key.len() - 2]);
        }
    }
}

proof fn lemma_flag_segment_free(key: Seq<char>)
    requires
        free_of(key, ';'),
    ensures
        free_of(flag_segment(key), ';'),
{
    let s = flag_segment(key);
    assert forall|i: int| 0 <= i < s.len() implies #[trigger] s[i] != ';' by {
        if i >= 1 {
            assert(s[i] == key[i - 1]);
        }
    }
}

proof fn lemma_optional_free(present: bool, seg: Seq<char>)
    requires
        free_of(seg, ';'),
    ensures
        all_free(optional_segment(present, seg)),
{
}

proof fn lemma_fixed_texts_free(n: nat, ss: SameSite)
    ensures
        free_of("Domain"@, ';'),
        free_of("Expires"@, ';'),
        free_of("HttpOnly"@, ';'),
        free_of("Max-Age"@, ';'),
        free_of("Partitioned"@, ';'),
        free_of("Path"@, ';'),
        free_of("SameSite"@, ';'),
        free_of("Secure"@, ';'),
        free_of(decimal_of(n), ';'),
        free_of(same_site_text(ss), ';'),
{
    reveal_strlit("Domain");
    reveal_strlit("Expires");
    reveal_strlit("HttpOnly");
    reveal_strlit("Max-Age");
    reveal_strlit("Partitioned");
    reveal_strlit("Path");
    reveal_strlit("Secure");
    reveal_strlit("SameSite");
    reveal_strlit("Strict");
    reveal_strlit("Lax");
    reveal_strlit("None");
    lemma_decimal_round_trip(n);
    assert forall|i: int| 0 <= i < decimal_of(n).len() implies #[trigger] decimal_of(n)[i] != ';' by {
        assert(is_digit(decimal_of(n)[i]));
    }
}

proof fn lemma_segments_free(c: CookieView)
    requires
        clean_cookie(c),
    ensures
        all_free(attribute_segments(c)),
{
    let n = c.max_age->0;
    let ss = c.same_site->0;
    lemma_fixed_texts_free(n as nat, ss);
    let s1 = pair_segment("Domain"@, c.domain->0);
    let s2 = pair_segment("Expires"@, c.expires->0);
    let s3 = flag_segment("HttpOnly"@);
    let s4 = pair_segment("Max-Age"@, decimal_of(n as nat));
    let s5 = flag_segment("Partitioned"@);
    let s6 = pair_segment("Path"@, c.path->0);
    let s7 = pair_segment("SameSite"@, same_site_text(ss));
    let s8 = flag_segment("Secure"@);
    let a1 = optional_segment(c.domain is Some, s1);
    let a2 = optional_segment(c.expires is Some, s2);
    let a3 = optional_segment(c.http_only == Some(true), s3);
    let a4 = optional_segment(c.max_age is Some, s4);
    let a5 = optional_segment(c.partitioned == Some(true), s5);
    let a6 = optional_segment(c.path is Some, s6);
    let a7 = optional_segment(c.same_site is Some, s7);
    let a8 = optional_segment(c.secure == Some(true), s8);
    if c.domain is Some {
        lemma_pair_segment_free("Domain"@, c.domain->0);
        lemma_optional_free(true, s1);
    }
    if c.expires is Some {
        lemma_pair_segment_free("Expires"@, c.expires->0);
        lemma_optional_free(true, s2);
    }
    lemma_flag_segment_free("HttpOnly"@);
    lemma_optional_free(c.http_only == Some(true), s3);
    lemma_pair_segment_free("Max-Age"@, decimal_of(n as nat));
    lemma_optional_free(c.max_age is Some, s4);
    lemma_flag_segment_free("Partitioned"@);
    lemma_optional_free(c.partitioned == Some(true), s5);
    if c.path is Some {
        lemma_pair_segment_free("Path"@, c.path->0);
        lemma_optional_free(true, s6);
    }
    lemma_pair_segment_free("SameSite"@, same_site_text(ss));
    lemma_optional_free(c.same_site is Some, s7);
    lemma_flag_segment_free("Secure"@);
    lemma_optional_free(c.secure == Some(true), s8);
    lemma_all_free_append(a1, a2);
    lemma_all_free_append(a1 + a2, a3);
    lemma_all_free_append(a1 + a2 + a3, a4);
    lemma_all_free_append(a1 + a2 + a3 + a4, a5);
    lemma_all_free_append(a1 + a2 + a3 + a4 + a5, a6);
    lemma_all_free_append(a1 + a2 + a3 + a4 + a5 + a6, a7);
    lemma_all_free_append(a1 + a2 + a3 + a4 + a5 + a6 + a7, a8);
}

/// A clean cookie comes back unchanged from its `Set-Cookie` form, in either mode: every
/// attribute it has set, and `Max-Age` as the same number of seconds.
pub proof fn lemma_round_trip(c: CookieView, strict: bool)
    requires
        clean_cookie(c),
    ensures
        parse_model(serialize(c), strict) == Ok::<CookieView, ParseFailure>(c),
{
    lemma_serialize_segments(c);
    let h = c.name + seq!['='] + c.value;
    let segs = attribute_segments(c);
    assert forall|j: int| 0 <= j < h.len() implies #[trigger] h[j] != ';' by {
        if j < c.name.len() {
            assert(h[j] == c.name[j]);
        } else if j > c.name.len() {
            assert(h[j] == c.value[j - c.name.len() - 1]);
        }
    }
    lemma_segments_free(c);
    lemma_split_join(h, segs);
    assert((seq![h] + segs)[0] == h);
    assert((seq![h] + segs).drop_first() == segs);
    assert forall|j: int| 0 <= j < c.name.len() implies #[trigger] h[j] != '=' by {
        assert(h[j] == c.name[j]);
    }
    lemma_index_of(h, '=', c.name.len() as int);
    assert(h.subrange(0, c.name.len() as int) == c.name);
    assert(h.subrange(c.name.len() as int + 1, h.len() as int) == c.value);
    assert(parse_name_value(h) == Ok::<CookieView, ParseFailure>(bare_cookie(c.name, c.value)));
    lemma_apply_chain(c, strict);
}

/// A cookie with only a name and a value comes back unchanged from its `Set-Cookie` form, in
/// either mode, where the name is non-empty and holds no `=`, neither text holds a `;`, and
/// neither starts or ends with white space.
pub proof fn lemma_name_value_round_trip(name: Seq<char>, value: Seq<char>, strict: bool)
    requires
        name.len() > 0,
        free_of(name, '='),
        clean(name),
        clean(value),
    ensures
        parse_model(serialize(bare_cookie(name, value)), strict) == Ok::<CookieView, ParseFailure>(
            bare_cookie(name, value),
        ),
{
    lemma_round_trip(bare_cookie(name, value), strict);
}

/// `Max-Age` is written as its whole number of seconds, and that text reads back as the same
/// number, for every `u64`.
pub proof fn lemma_max_age_round_trip(c: CookieView, n: u64, strict: bool)
    requires
        clean_cookie(c),
    ensures
        max_age_text(Some(n)) == "; Max-Age="@ + decimal_of(n as nat),
        parse_model(serialize(CookieView { max_age: Some(n), ..c }), strict) matches Ok(d) && d.max_age
            == Some(n),
{
    lemma_round_trip(CookieView { max_age: Some(n), ..c }, strict);
}

} // verus!
