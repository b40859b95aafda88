use cookie_rs::change::CookieChange;
use cookie_rs::cookie::{Cookie, SameSite};
use cookie_rs::error::{MissingPair, ParseError, ParseSameSiteError};
use cookie_rs::jar::CookieJar;

#[test]
fn name_value_round_trip() {
    let cookie = Cookie::new("session", "abc123");
    let text = cookie.to_string();
    assert_eq!(text, "session=abc123");
    assert_eq!(Cookie::parse(&text), Ok(cookie.clone()));
    assert_eq!(Cookie::parse_strict(&text), Ok(cookie));
}

#[test]
fn attribute_coverage_getters() {
    let cookie =
        Cookie::parse("name=value; Domain=example.com; Path=/path; Secure; HttpOnly; SameSite=None")
            .unwrap();
    assert_eq!(cookie.domain(), Some("example.com"));
    assert_eq!(cookie.path(), Some("/path"));
    assert_eq!(cookie.secure(), Some(true));
    assert_eq!(cookie.http_only(), Some(true));
    assert_eq!(cookie.same_site(), Some(SameSite::Unrestricted));
    assert_eq!(cookie.partitioned(), None);
    assert_eq!(cookie.max_age(), None);
    assert_eq!(cookie.expires(), None);
}

#[test]
fn attribute_names_ignore_case() {
    let lower = Cookie::parse("name=value; secure; httponly; samesite=Lax");
    let canonical = Cookie::parse("name=value; Secure; HttpOnly; SameSite=Lax");
    assert_eq!(lower, canonical);
    let mixed = Cookie::parse("name=value; DOMAIN=a.org; mAx-AgE=5; SAMESITE=strict").unwrap();
    assert_eq!(mixed.domain(), Some("a.org"));
    assert_eq!(mixed.max_age(), Some(5));
    assert_eq!(mixed.same_site(), Some(SameSite::Strict));
}

#[test]
fn last_attribute_wins() {
    let cookie = Cookie::parse("name=value; Path=/first; Path=/second").unwrap();
    assert_eq!(cookie.path(), Some("/second"));
}

#[test]
fn strict_and_lenient_unknown_attribute() {
    assert_eq!(
        Cookie::parse("name=value; UnknownAttr"),
        Ok(Cookie::new("name", "value"))
    );
    assert_eq!(
        Cookie::parse_strict("name=value; UnknownAttr"),
        Err(ParseError::UnknownAttribute("UnknownAttr".to_string()))
    );
    assert_eq!(
        Cookie::parse_strict("name=value;"),
        Err(ParseError::UnknownAttribute(String::new()))
    );
    assert_eq!(
        Cookie::parse_strict("name=value; Secure"),
        Ok(Cookie::new("name", "value").with_secure(true))
    );
}

#[test]
fn missing_pair_for_each_attribute() {
    let cases = [
        ("n=v; Domain", MissingPair::Domain),
        ("n=v; Expires", MissingPair::Expires),
        ("n=v; Max-Age", MissingPair::MaxAge),
        ("n=v; Path", MissingPair::Path),
        ("n=v; SameSite", MissingPair::SameSite),
        ("n", MissingPair::NameValue),
    ];
    for (input, which) in cases {
        assert_eq!(Cookie::parse(input), Err(ParseError::MissingPair(which)));
    }
}

#[test]
fn flags_ignore_attached_values() {
    let cookie = Cookie::parse("n=v; Secure=no; HttpOnly=0; Partitioned=x").unwrap();
    assert_eq!(cookie.secure(), Some(true));
    assert_eq!(cookie.http_only(), Some(true));
    assert_eq!(cookie.partitioned(), Some(true));
}

#[test]
fn required_pair_failures() {
    assert_eq!(
        Cookie::parse(""),
        Err(ParseError::MissingPair(MissingPair::NameValue))
    );
    assert_eq!(
        Cookie::parse("namevalue"),
        Err(ParseError::MissingPair(MissingPair::NameValue))
    );
    assert_eq!(Cookie::parse("=value"), Err(ParseError::EmptyName));
    assert_eq!(Cookie::parse("   =value"), Err(ParseError::EmptyName));
}

#[test]
fn only_first_equals_splits() {
    let cookie = Cookie::parse("a=b=c; Path=/x=y").unwrap();
    assert_eq!(cookie.name(), "a");
    assert_eq!(cookie.value(), "b=c");
    assert_eq!(cookie.path(), Some("/x=y"));
}

#[test]
fn max_age_text_forms() {
    assert_eq!(Cookie::parse("n=v; Max-Age=+42").unwrap().max_age(), Some(42));
    assert_eq!(Cookie::parse("n=v; Max-Age= 7 ").unwrap().max_age(), Some(7));
    assert_eq!(
        Cookie::parse("n=v; Max-Age=18446744073709551615").unwrap().max_age(),
        Some(u64::MAX)
    );
    assert_eq!(
        Cookie::parse("n=v; Max-Age=18446744073709551616"),
        Err(ParseError::ParseMaxAgeError(
            "18446744073709551616".parse::<u64>().unwrap_err()
        ))
    );
    assert_eq!(
        Cookie::parse("n=v; Max-Age=-1"),
        Err(ParseError::ParseMaxAgeError("-1".parse::<u64>().unwrap_err()))
    );
    assert_eq!(
        Cookie::parse("n=v; Max-Age="),
        Err(ParseError::ParseMaxAgeError("".parse::<u64>().unwrap_err()))
    );
}

#[test]
fn max_age_numeric_fidelity() {
    let cookie = Cookie::new("name", "value").with_max_age(3600);
    let text = cookie.to_string();
    assert_eq!(text, "name=value; Max-Age=3600");
    let back = Cookie::parse(&text).unwrap();
    assert_eq!(back.max_age(), Some(3600));
    assert_eq!(back, cookie);
    let zero = Cookie::new("n", "v").with_max_age(0);
    assert_eq!(zero.to_string(), "n=v; Max-Age=0");
    let big = Cookie::new("n", "v").with_max_age(u64::MAX);
    assert_eq!(big.to_string(), "n=v; Max-Age=18446744073709551615");
    assert_eq!(Cookie::parse(&big.to_string()).unwrap().max_age(), Some(u64::MAX));
}

#[test]
fn same_site_values() {
    assert_eq!(SameSite::parse("LAX"), Ok(SameSite::Lax));
    assert_eq!(SameSite::parse("strict"), Ok(SameSite::Strict));
    assert_eq!(SameSite::parse("None"), Ok(SameSite::Unrestricted));
    assert_eq!(
        SameSite::parse("bogus"),
        Err(ParseSameSiteError::UnknownValue("bogus".to_string()))
    );
    assert_eq!(SameSite::Unrestricted.as_str(), "None");
    assert_eq!(
        Cookie::parse("n=v; SameSite=Whatever"),
        Err(ParseError::ParseSameSiteError(ParseSameSiteError::UnknownValue(
            "Whatever".to_string()
        )))
    );
}

#[test]
fn full_serialization_order() {
    let cookie = Cookie::new("n", "v")
        .with_secure(true)
        .with_same_site(SameSite::Strict)
        .with_path("/p")
        .with_partitioned(true)
        .with_max_age(10)
        .with_http_only(true)
        .with_expires("Wed, 21 Oct 2025 07:28:00 GMT")
        .with_domain("d.org");
    assert_eq!(
        cookie.to_string(),
        "n=v; Domain=d.org; Expires=Wed, 21 Oct 2025 07:28:00 GMT; HttpOnly; Max-Age=10; Partitioned; Path=/p; SameSite=Strict; Secure"
    );
    assert_eq!(Cookie::parse(&cookie.to_string()), Ok(cookie));
}

#[test]
fn false_flags_are_not_emitted() {
    let cookie = Cookie::new("n", "v")
        .with_secure(false)
        .with_http_only(false)
        .with_partitioned(false);
    assert_eq!(cookie.to_string(), "n=v");
    assert_eq!(cookie.secure(), Some(false));
    assert_ne!(Cookie::parse("n=v").unwrap(), cookie);
}

#[test]
fn equality_domain_and_path_ignore_case() {
    let a = Cookie::new("n", "v").with_domain("Example.COM").with_path("/A");
    let b = Cookie::new("n", "v").with_domain("example.com").with_path("/a");
    assert_eq!(a, b);
    let c = Cookie::new("n", "v").with_expires("X");
    let d = Cookie::new("n", "v").with_expires("x");
    assert_ne!(c, d);
    assert_ne!(Cookie::new("N", "v"), Cookie::new("n", "v"));
    assert_ne!(Cookie::new("n", "v"), Cookie::new("n", "v").with_domain("a"));
}

#[test]
fn setters_replace_values() {
    let mut cookie = Cookie::new("n", "v");
    cookie.set_domain("a.org");
    cookie.set_domain("b.org");
    cookie.set_max_age(1);
    cookie.set_same_site(SameSite::Lax);
    cookie.set_path("/");
    cookie.set_expires("later");
    cookie.set_http_only(true);
    cookie.set_partitioned(false);
    cookie.set_secure(true);
    assert_eq!(cookie.domain(), Some("b.org"));
    assert_eq!(cookie.max_age(), Some(1));
    assert_eq!(cookie.same_site(), Some(SameSite::Lax));
    assert_eq!(cookie.path(), Some("/"));
    assert_eq!(cookie.expires(), Some("later"));
    assert_eq!(cookie.http_only(), Some(true));
    assert_eq!(cookie.partitioned(), Some(false));
    assert_eq!(cookie.secure(), Some(true));
}

#[test]
fn unicode_white_space_is_trimmed() {
    let cookie = Cookie::parse("\u{3000}name\t=\u{a0}value\u{2003}; Path=\n/x ").unwrap();
    assert_eq!(cookie.name(), "name");
    assert_eq!(cookie.value(), "value");
    assert_eq!(cookie.path(), Some("/x"));
}

#[test]
fn default_cookie_is_empty() {
    let cookie = Cookie::default();
    assert_eq!(cookie.name(), "");
    assert_eq!(cookie.value(), "");
    assert_eq!(cookie.to_string(), "=");
}

#[test]
fn last_add_wins_in_jar() {
    let mut jar = CookieJar::default();
    jar.add(Cookie::new("name", "first"));
    jar.add(Cookie::new("name", "second"));
    assert_eq!(jar.get("name"), Some(&Cookie::new("name", "second")));
    assert_eq!(jar.changes().len(), 1);
}

#[test]
fn remove_after_add_masks_cookie() {
    let mut jar = CookieJar::default();
    jar.add(Cookie::new("name", "value"));
    jar.remove("name");
    assert_eq!(jar.get("name"), None);
    assert_eq!(jar.as_header_values(), vec!["name=removed; Max-Age=0".to_string()]);
}

#[test]
fn remove_masks_committed_cookie() {
    let mut jar = CookieJar::parse("a=1; b=2").unwrap();
    jar.remove("a");
    assert_eq!(jar.get("a"), None);
    assert_eq!(jar.get("b"), Some(&Cookie::new("b", "2")));
    assert_eq!(jar.cookie(), vec![Cookie::new("b", "2")]);
    jar.set(Cookie::new("a", "3"));
    assert_eq!(jar.get("a"), Some(&Cookie::new("a", "3")));
}

#[test]
fn header_emission_exact() {
    let mut jar = CookieJar::default();
    jar.add(Cookie::new("name", "value").with_path("/").with_secure(true));
    assert_eq!(jar.as_header_values(), vec!["name=value; Path=/; Secure".to_string()]);
    let mut other = CookieJar::default();
    other.remove("name");
    assert_eq!(other.as_header_values(), vec!["name=removed; Max-Age=0".to_string()]);
}

#[test]
fn header_values_in_name_order() {
    let mut jar = CookieJar::default();
    jar.add(Cookie::new("b", "2"));
    jar.remove("c");
    jar.add(Cookie::new("a", "1"));
    jar.add(Cookie::new("B", "0"));
    assert_eq!(
        jar.as_header_values(),
        vec![
            "B=0".to_string(),
            "a=1".to_string(),
            "b=2".to_string(),
            "c=removed; Max-Age=0".to_string()
        ]
    );
}

#[test]
fn snapshot_merges_committed_and_pending() {
    let mut jar = CookieJar::parse("z=26; b=2; a=1").unwrap();
    jar.add(Cookie::new("c", "3"));
    jar.add(Cookie::new("a", "one"));
    jar.remove("b");
    assert_eq!(
        jar.cookie(),
        vec![
            Cookie::new("a", "one"),
            Cookie::new("c", "3"),
            Cookie::new("z", "26")
        ]
    );
}

#[test]
fn jar_parse_keeps_first_of_a_name() {
    let jar = CookieJar::parse("a=1; a=2;; b = x=y ").unwrap();
    assert_eq!(jar.get("a"), Some(&Cookie::new("a", "1")));
    assert_eq!(jar.get("b"), Some(&Cookie::new("b", "x=y")));
    assert_eq!(jar.cookie().len(), 2);
    assert!(jar.changes().is_empty());
}

#[test]
fn jar_parse_errors() {
    assert_eq!(
        CookieJar::parse("a=1; b").map(|j| j.cookie().len()),
        Err(ParseError::MissingPair(MissingPair::NameValue))
    );
    assert_eq!(
        CookieJar::parse_strict("a=1; =x").map(|j| j.cookie().len()),
        Err(ParseError::EmptyName)
    );
    assert_eq!(
        CookieJar::parse_strict("a=1;b=2").map(|j| j.cookie().len()),
        Ok(2)
    );
}

#[test]
fn jar_new_keeps_first_of_a_name() {
    let jar = CookieJar::new(vec![
        Cookie::new("s", "1"),
        Cookie::new("r", "2"),
        Cookie::new("s", "3"),
    ]);
    assert_eq!(jar.get("s"), Some(&Cookie::new("s", "1")));
    assert_eq!(
        jar.cookie(),
        vec![Cookie::new("r", "2"), Cookie::new("s", "1")]
    );
}

#[test]
fn change_accessors() {
    let create = CookieChange::create(Cookie::new("n", "v").with_http_only(true));
    let remove = CookieChange::remove("n");
    assert!(create.is_create());
    assert!(!create.is_remove());
    assert!(remove.is_remove());
    assert_eq!(create.name(), "n");
    assert_eq!(remove.name(), "n");
    assert_eq!(create, remove);
    assert_eq!(create.as_header_value(), "n=v; HttpOnly");
    assert_eq!(remove.as_header_value(), "n=removed; Max-Age=0");
    assert_eq!(create.cookie(), Some(&Cookie::new("n", "v").with_http_only(true)));
    assert_eq!(remove.cookie(), None);
    assert_eq!(remove.into_cookie(), None);
    assert_eq!(create.into_cookie(), Some(Cookie::new("n", "v").with_http_only(true)));
}

#[test]
fn error_messages() {
    assert_eq!(ParseError::EmptyName.to_string(), "the provided name is empty.");
    assert_eq!(
        ParseError::MissingPair(MissingPair::MaxAge).to_string(),
        "missed pair: Max-Age"
    );
    assert_eq!(MissingPair::NameValue.as_str(), "Name-Value");
    assert_eq!(
        ParseError::UnknownAttribute("Foo".to_string()).to_string(),
        "unknown attribute: Foo"
    );
    assert_eq!(
        ParseError::ParseSameSiteError(ParseSameSiteError::UnknownValue("x".to_string())).to_string(),
        "failed to parse SameSite: unknown SameSite value: x"
    );
    let err = "abc".parse::<u64>().unwrap_err();
    assert_eq!(
        ParseError::ParseMaxAgeError(err.clone()).to_string(),
        format!("failed to parse Max-Age: {}", err)
    );
}

#[test]
fn ordering_is_by_name_only() {
    let a = Cookie::new("a", "9");
    let b = Cookie::new("b", "0");
    assert!(a < b);
    assert!(b > a);
    let a2 = Cookie::new("a", "1").with_secure(true);
    assert_eq!(a.partial_cmp(&a2), Some(std::cmp::Ordering::Equal));
    assert_ne!(a, a2);
    assert!(Cookie::new("Z", "") < Cookie::new("a", ""));
    assert!(Cookie::new("ab", "") > Cookie::new("a", ""));
    assert!(CookieChange::remove("x") > CookieChange::create(Cookie::new("w", "")));
}
