//! The cookie entity: its attributes, its equality and its `Set-Cookie` form.
use crate::text::{
    chars_of, decimal_of, eq_ignore_ascii_case, eq_ignore_ascii_case_at, order_text, push_char,
    push_decimal, text_order,
};
use vstd::prelude::*;
use vstd::string::StringExecFns;

verus! {

#[derive(Debug, Clone, Copy, PartialEq, Eq, Structural)]
pub enum SameSite {
    Strict,
    Lax,
    Unrestricted,
}

/// The model of a cookie: its text as character sequences, its flags and its `Max-Age` in
/// whole seconds.
pub struct CookieView {
    pub name: Seq<char>,
    pub value: Seq<char>,
    pub domain: Option<Seq<char>>,
    pub expires: Option<Seq<char>>,
    pub http_only: Option<bool>,
    pub max_age: Option<u64>,
    pub partitioned: Option<bool>,
    pub path: Option<Seq<char>>,
    pub same_site: Option<SameSite>,
    pub secure: Option<bool>,
}

/// A cookie with the given name and value and no attribute set.
pub open spec fn bare_cookie(name: Seq<char>, value: Seq<char>) -> CookieView {
    CookieView {
        name,
        value,
        domain: None,
        expires: None,
        http_only: None,
        max_age: None,
        partitioned: None,
        path: None,
        same_site: None,
        secure: None,
    }
}

pub open spec fn opt_view(o: Option<String>) -> Option<Seq<char>> {
    match o {
        Some(s) => Some(s@),
        None => None,
    }
}

pub open spec fn opt_str_view(o: Option<&str>) -> Option<Seq<char>> {
    match o {
        Some(s) => Some(s@),
        None => None,
    }
}

/// Two optional texts that are both absent, or both present and equal up to ASCII case.
pub open spec fn opt_eq_ignore_ascii_case(a: Option<Seq<char>>, b: Option<Seq<char>>) -> bool {
    match (a, b) {
        (Some(x), Some(y)) => eq_ignore_ascii_case(x, y),
        (None, None) => true,
        _ => false,
    }
}

/// Cookie equality: every field equal, `domain` and `path` up to ASCII case.
pub open spec fn cookie_eq(a: CookieView, b: CookieView) -> bool {
    &&& opt_eq_ignore_ascii_case(a.domain, b.domain)
    &&& opt_eq_ignore_ascii_case(a.path, b.path)
    &&& a.name == b.name
    &&& a.value == b.value
    &&& a.expires == b.expires
    &&& a.http_only == b.http_only
    &&& a.max_age == b.max_age
    &&& a.partitioned == b.partitioned
    &&& a.same_site == b.same_site
    &&& a.secure == b.secure
}

pub open spec fn same_site_text(s: SameSite) -> Seq<char> {
    match s {
        SameSite::Strict => "Strict"@,
        SameSite::Lax => "Lax"@,
        SameSite::Unrestricted => "None"@,
    }
}

/// `key` followed by the text, where there is one.
pub open spec fn attribute_text(key: Seq<char>, v: Option<Seq<char>>) -> Seq<char> {
    match v {
        Some(x) => key + x,
        None => Seq::empty(),
    }
}

/// `key` where the flag is set to true; nothing where it is false or unset.
pub open spec fn flag_text(key: Seq<char>, f: Option<bool>) -> Seq<char> {
    if f == Some(true) {
        key
    } else {
        Seq::empty()
    }
}

pub open spec fn max_age_text(m: Option<u64>) -> Seq<char> {
    match m {
        Some(n) => "; Max-Age="@ + decimal_of(n as nat),
        None => Seq::empty(),
    }
}

pub open spec fn same_site_attribute_text(s: Option<SameSite>) -> Seq<char> {
    match s {
        Some(x) => "; SameSite="@ + same_site_text(x),
        None => Seq::empty(),
    }
}

/// The `Set-Cookie` form of a cookie: `name=value`, then each attribute that is set, in a
/// fixed order.
pub open spec fn serialize(c: CookieView) -> Seq<char> {
    c.name + seq!['='] + c.value
        + attribute_text("; Domain="@, c.domain)
        + attribute_text("; Expires="@, c.expires)
        + flag_text("; HttpOnly"@, c.http_only)
        + max_age_text(c.max_age)
        + flag_text("; Partitioned"@, c.partitioned)
        + attribute_text("; Path="@, c.path)
        + same_site_attribute_text(c.same_site)
        + flag_text("; Secure"@, c.secure)
}

/// An HTTP cookie: a name, a value and optional attributes.
#[derive(Debug)]
pub struct Cookie {
    name: String,
    value: String,
    domain: Option<String>,
    expires: Option<String>,
    http_only: Option<bool>,
    max_age: Option<u64>,
    partitioned: Option<bool>,
    path: Option<String>,
    same_site: Option<SameSite>,
    secure: Option<bool>,
}

impl View for Cookie {
    type V = CookieView;

    closed spec fn view(&self) -> CookieView {
        CookieView {
            name: self.name@,
            value: self.value@,
            domain: opt_view(self.domain),
            expires: opt_view(self.expires),
            http_only: self.http_only,
            max_age: self.max_age,
            partitioned: self.partitioned,
            path: opt_view(self.path),
            same_site: self.same_site,
            secure: self.secure,
        }
    }
}

fn copy_text(o: &Option<String>) -> (r: Option<String>)
    ensures
        opt_view(r) == opt_view(*o),
{
    match o {
        Some(s) => Some(s.clone()),
        None => None,
    }
}

fn text_ref(o: &Option<String>) -> (r: Option<&str>)
    ensures
        opt_str_view(r) == opt_view(*o),
{
    match o {
        Some(s) => Some(s.as_str()),
        None => None,
    }
}

fn opt_text_eq_ignore_ascii_case(a: &Option<String>, b: &Option<String>) -> (r: bool)
    ensures
        r == opt_eq_ignore_ascii_case(opt_view(*a), opt_view(*b)),
{
    match (a, b) {
        (Some(x), Some(y)) => {
            let v = chars_of(x.as_str());
            let w = chars_of(y.as_str());
            proof {
                assert(v@.subrange(0, v@.len() as int) == v@);
            }
            eq_ignore_ascii_case_at(&v, 0, v.len(), &w)
        },
        (None, None) => true,
        _ => false,
    }
}

fn opt_text_eq(a: &Option<String>, b: &Option<String>) -> (r: bool)
    ensures
        r == (opt_view(*a) == opt_view(*b)),
{
    match (a, b) {
        (Some(x), Some(y)) => *x == *y,
        (None, None) => true,
        _ => false,
    }
}

fn opt_flag_eq(a: Option<bool>, b: Option<bool>) -> (r: bool)
    ensures
        r == (a == b),
{
    match (a, b) {
        (Some(x), Some(y)) => x == y,
        (None, None) => true,
        _ => false,
    }
}

fn opt_seconds_eq(a: Option<u64>, b: Option<u64>) -> (r: bool)
    ensures
        r == (a == b),
{
    match (a, b) {
        (Some(x), Some(y)) => x == y,
        (None, None) => true,
        _ => false,
    }
}

fn opt_same_site_eq(a: Option<SameSite>, b: Option<SameSite>) -> (r: bool)
    ensures
        r == (a == b),
{
    match (a, b) {
        (Some(x), Some(y)) => x == y,
        (None, None) => true,
        _ => false,
    }
}

impl Clone for Cookie {
    fn clone(&self) -> (r: Self)
        ensures
            r@ == self@,
    {
        Cookie {
            name: self.name.clone(),
            value: self.value.clone(),
            domain: copy_text(&self.domain),
            expires: copy_text(&self.expires),
            http_only: self.http_only,
            max_age: self.max_age,
            partitioned: self.partitioned,
            path: copy_text(&self.path),
            same_site: self.same_site,
            secure: self.secure,
        }
    }
}

impl PartialEq for Cookie {
    fn eq(&self, other: &Cookie) -> (r: bool)
        ensures
            r == cookie_eq(self@, other@),
    {
        opt_text_eq_ignore_ascii_case(&self.domain, &other.domain)
            && opt_text_eq_ignore_ascii_case(&self.path, &other.path)
            && self.name == other.name
            && self.value == other.value
            && opt_text_eq(&self.expires, &other.expires)
            && opt_flag_eq(self.http_only, other.http_only)
            && opt_seconds_eq(self.max_age, other.max_age)
            && opt_flag_eq(self.partitioned, other.partitioned)
            && opt_same_site_eq(self.same_site, other.same_site)
            && opt_flag_eq(self.secure, other.secure)
    }
}

impl vstd::std_specs::cmp::PartialEqSpecImpl for Cookie {
    open spec fn obeys_eq_spec() -> bool {
        true
    }

    open spec fn eq_spec(&self, other: &Cookie) -> bool {
        cookie_eq(self@, other@)
    }
}

impl Eq for Cookie {
}

/// Cookies are ordered by name alone: two cookies of one name compare as equal under this
/// order even where `==` tells them apart. A jar holds one cookie per name on the same
/// grounds.
impl PartialOrd for Cookie {
    fn partial_cmp(&self, other: &Cookie) -> (r: Option<core::cmp::Ordering>)
        ensures
            r == Some(text_order(self@.name, other@.name)),
    {
        Some(order_text(self.name.as_str(), other.name.as_str()))
    }
}

impl vstd::std_specs::cmp::PartialOrdSpecImpl for Cookie {
    open spec fn obeys_partial_cmp_spec() -> bool {
        true
    }

    open spec fn partial_cmp_spec(&self, other: &Cookie) -> Option<core::cmp::Ordering> {
        Some(text_order(self@.name, other@.name))
    }
}

impl Default for Cookie {
    fn default() -> (r: Cookie)
        ensures
            r@ == bare_cookie(Seq::empty(), Seq::empty()),
    {
        proof {
            reveal_strlit("");
            assert(""@ =~= Seq::<char>::empty());
        }
        Cookie::new("", "")
    }
}

impl Cookie {
    /// A cookie with the given name and value and no attribute set.
    pub fn new(name: &str, value: &str) -> (r: Cookie)
        ensures
            r@ == bare_cookie(name@, value@),
    {
        Cookie {
            name: name.to_owned(),
            value: value.to_owned(),
            domain: None,
            expires: None,
            http_only: None,
            max_age: None,
            partitioned: None,
            path: None,
            same_site: None,
            secure: None,
        }
    }
}

impl SameSite {
    /// The attribute value that names this setting.
    pub fn as_str(&self) -> (r: &'static str)
        ensures
            r@ == same_site_text(*self),
    {
        match self {
            SameSite::Strict => "Strict",
            SameSite::Lax => "Lax",
            SameSite::Unrestricted => "None",
        }
    }
}

fn push_attribute(s: &mut String, key: &str, v: &Option<String>)
    ensures
        final(s)@ == old(s)@ + attribute_text(key@, opt_view(*v)),
{
    match v {
        Some(x) => {
            s.append(key);
            s.append(x.as_str());
            assert(final(s)@ =~= old(s)@ + (key@ + x@));
        },
        None => {
            assert(final(s)@ =~= old(s)@ + Seq::<char>::empty());
        },
    }
}

fn push_flag(s: &mut String, key: &str, f: Option<bool>)
    ensures
        final(s)@ == old(s)@ + flag_text(key@, f),
{
    if f == Some(true) {
        s.append(key);
    } else {
        assert(final(s)@ =~= old(s)@ + Seq::<char>::empty());
    }
}

impl Cookie {
    /// The `Set-Cookie` form: `name=value`, then `; Domain=`, `; Expires=`, `; HttpOnly`,
    /// `; Max-Age=`, `; Partitioned`, `; Path=`, `; SameSite=` and `; Secure`, each where set
    /// (a flag where set to true). No text is escaped.
    pub fn to_string(&self) -> (r: String)
        ensures
            r@ == serialize(self@),
    {
        let mut s = self.name.clone();
        push_char(&mut s, '=');
        s.append(self.value.as_str());
        let ghost head = s@;
        push_attribute(&mut s, "; Domain=", &self.domain);
        push_attribute(&mut s, "; Expires=", &self.expires);
        push_flag(&mut s, "; HttpOnly", self.http_only);
        let ghost before_max_age = s@;
        match self.max_age {
            Some(n) => {
                s.append("; Max-Age=");
                push_decimal(&mut s, n);
                assert(s@ =~= before_max_age + max_age_text(self.max_age));
            },
            None => {
                assert(s@ =~= before_max_age + max_age_text(self.max_age));
            },
        }
        push_flag(&mut s, "; Partitioned", self.partitioned);
        push_attribute(&mut s, "; Path=", &self.path);
        let ghost before_same_site = s@;
        match self.same_site {
            Some(x) => {
                s.append("; SameSite=");
                s.append(x.as_str());
                assert(s@ =~= before_same_site + same_site_attribute_text(self.same_site));
            },
            None => {
                assert(s@ =~= before_same_site + same_site_attribute_text(self.same_site));
            },
        }
        push_flag(&mut s, "; Secure", self.secure);
        assert(head =~= self.name@ + seq!['='] + self.value@);
        assert(s@ =~= serialize(self@));
        s
    }
}

impl Cookie {
    /// Sets the `Domain` attribute.
    pub fn set_domain(&mut self, domain: &str)
        ensures
            final(self)@ == (CookieView { domain: Some(domain@), ..old(self)@ }),
    {
        self.domain = Some(domain.to_owned());
    }

    /// Sets the `Expires` attribute, kept as given.
    pub fn set_expires(&mut self, expires: &str)
        ensures
            final(self)@ == (CookieView { expires: Some(expires@), ..old(self)@ }),
    {
        self.expires = Some(expires.to_owned());
    }

    /// Sets the `HttpOnly` flag.
    pub fn set_http_only(&mut self, http_only: bool)
        ensures
            final(self)@ == (CookieView { http_only: Some(http_only), ..old(self)@ }),
    {
        self.http_only = Some(http_only);
    }

    /// Sets the `Max-Age` attribute, in whole seconds.
    pub fn set_max_age(&mut self, max_age: u64)
        ensures
            final(self)@ == (CookieView { max_age: Some(max_age), ..old(self)@ }),
    {
        self.max_age = Some(max_age);
    }

    /// Sets the `Partitioned` flag.
    pub fn set_partitioned(&mut self, partitioned: bool)
        ensures
            final(self)@ == (CookieView { partitioned: Some(partitioned), ..old(self)@ }),
    {
        self.partitioned = Some(partitioned);
    }

    /// Sets the `Path` attribute.
    pub fn set_path(&mut self, path: &str)
        ensures
            final(self)@ == (CookieView { path: Some(path@), ..old(self)@ }),
    {
        self.path = Some(path.to_owned());
    }

    /// Sets the `SameSite` attribute.
    pub fn set_same_site(&mut self, same_site: SameSite)
        ensures
            final(self)@ == (CookieView { same_site: Some(same_site), ..old(self)@ }),
    {
        self.same_site = Some(same_site);
    }

    /// Sets the `Secure` flag.
    pub fn set_secure(&mut self, secure: bool)
        ensures
            final(self)@ == (CookieView { secure: Some(secure), ..old(self)@ }),
    {
        self.secure = Some(secure);
    }

    /// Sets the `Domain` attribute. Returns the cookie.
    pub fn with_domain(self, domain: &str) -> (r: Cookie)
        ensures
            r@ == (CookieView { domain: Some(domain@), ..self@ }),
    {
        let mut c = self;
        c.set_domain(domain);
        c
    }

    /// Sets the `Expires` attribute, kept as given. Returns the cookie.
    pub fn with_expires(self, expires: &str) -> (r: Cookie)
        ensures
            r@ == (CookieView { expires: Some(expires@), ..self@ }),
    {
        let mut c = self;
        c.set_expires(expires);
        c
    }

    /// Sets the `HttpOnly` flag. Returns the cookie.
    pub fn with_http_only(self, http_only: bool) -> (r: Cookie)
        ensures
            r@ == (CookieView { http_only: Some(http_only), ..self@ }),
    {
        let mut c = self;
        c.set_http_only(http_only);
        c
    }

    /// Sets the `Max-Age` attribute, in whole seconds. Returns the cookie.
    pub fn with_max_age(self, max_age: u64) -> (r: Cookie)
        ensures
            r@ == (CookieView { max_age: Some(max_age), ..self@ }),
    {
        let mut c = self;
        c.set_max_age(max_age);
        c
    }

    /// Sets the `Partitioned` flag. Returns the cookie.
    pub fn with_partitioned(self, partitioned: bool) -> (r: Cookie)
        ensures
            r@ == (CookieView { partitioned: Some(partitioned), ..self@ }),
    {
        let mut c = self;
        c.set_partitioned(partitioned);
        c
    }

    /// Sets the `Path` attribute. Returns the cookie.
    pub fn with_path(self, path: &str) -> (r: Cookie)
        ensures
            r@ == (CookieView { path: Some(path@), ..self@ }),
    {
        let mut c = self;
        c.set_path(path);
        c
    }

    /// Sets the `SameSite` attribute. Returns the cookie.
    pub fn with_same_site(self, same_site: SameSite) -> (r: Cookie)
        ensures
            r@ == (CookieView { same_site: Some(same_site), ..self@ }),
    {
        let mut c = self;
        c.set_same_site(same_site);
        c
    }

    /// Sets the `Secure` flag. Returns the cookie.
    pub fn with_secure(self, secure: bool) -> (r: Cookie)
        ensures
            r@ == (CookieView { secure: Some(secure), ..self@ }),
    {
        let mut c = self;
        c.set_secure(secure);
        c
    }

    pub fn name(&self) -> (r: &str)
        ensures
            r@ == self@.name,
    {
        self.name.as_str()
    }

    pub fn value(&self) -> (r: &str)
        ensures
            r@ == self@.value,
    {
        self.value.as_str()
    }

    pub fn domain(&self) -> (r: Option<&str>)
        ensures
            opt_str_view(r) == self@.domain,
    {
        text_ref(&self.domain)
    }

    pub fn expires(&self) -> (r: Option<&str>)
        ensures
            opt_str_view(r) == self@.expires,
    {
        text_ref(&self.expires)
    }

    pub fn http_only(&self) -> (r: Option<bool>)
        ensures
            r == self@.http_only,
    {
        self.http_only
    }

    pub fn max_age(&self) -> (r: Option<u64>)
        ensures
            r == self@.max_age,
    {
        self.max_age
    }

    pub fn partitioned(&self) -> (r: Option<bool>)
        ensures
            r == self@.partitioned,
    {
        self.partitioned
    }

    pub fn path(&self) -> (r: Option<&str>)
        ensures
            opt_str_view(r) == self@.path,
    {
        text_ref(&self.path)
    }

    pub fn same_site(&self) -> (r: Option<SameSite>)
        ensures
            r == self@.same_site,
    {
        self.same_site
    }

    pub fn secure(&self) -> (r: Option<bool>)
        ensures
            r == self@.secure,
    {
        self.secure
    }
}

} // verus!
