//! A chained way to build a cookie with attributes.
use crate::cookie::{bare_cookie, Cookie, CookieView, SameSite};
use vstd::prelude::*;

verus! {

/// Builds a `Cookie` by chained calls, one per attribute.
pub struct CookieBuilder(Cookie);

impl View for CookieBuilder {
    type V = CookieView;

    closed spec fn view(&self) -> CookieView {
        self.0@
    }
}

impl CookieBuilder {
    /// A builder for a cookie with the given name and value and no attribute set.
    pub fn new(name: &str, value: &str) -> (r: CookieBuilder)
        ensures
            r@ == bare_cookie(name@, value@),
    {
        CookieBuilder(Cookie::new(name, value))
    }

    /// Sets the `Domain` attribute.
    pub fn domain(self, domain: &str) -> (r: CookieBuilder)
        ensures
            r@ == (CookieView { domain: Some(domain@), ..self@ }),
    {
        CookieBuilder(self.0.with_domain(domain))
    }

    /// Sets the `Expires` attribute, kept as given.
    pub fn expires(self, expires: &str) -> (r: CookieBuilder)
        ensures
            r@ == (CookieView { expires: Some(expires@), ..self@ }),
    {
        CookieBuilder(self.0.with_expires(expires))
    }

    /// Sets the `HttpOnly` flag.
    pub fn http_only(self, http_only: bool) -> (r: CookieBuilder)
        ensures
            r@ == (CookieView { http_only: Some(http_only), ..self@ }),
    {
        CookieBuilder(self.0.with_http_only(http_only))
    }

    /// Sets the `Max-Age` attribute, in whole seconds.
    pub fn max_age(self, max_age: u64) -> (r: CookieBuilder)
        ensures
            r@ == (CookieView { max_age: Some(max_age), ..self@ }),
    {
        CookieBuilder(self.0.with_max_age(max_age))
    }

    /// Sets the `Partitioned` flag.
    pub fn partitioned(self, partitioned: bool) -> (r: CookieBuilder)
        ensures
            r@ == (CookieView { partitioned: Some(partitioned), ..self@ }),
    {
        CookieBuilder(self.0.with_partitioned(partitioned))
    }

    /// Sets the `Path` attribute.
    pub fn path(self, path: &str) -> (r: CookieBuilder)
        ensures
            r@ == (CookieView { path: Some(path@), ..self@ }),
    {
        CookieBuilder(self.0.with_path(path))
    }

    /// Sets the `SameSite` attribute.
    pub fn same_site(self, same_site: SameSite) -> (r: CookieBuilder)
        ensures
            r@ == (CookieView { same_site: Some(same_site), ..self@ }),
    {
        CookieBuilder(self.0.with_same_site(same_site))
    }

    /// Sets the `Secure` flag.
    pub fn secure(self, secure: bool) -> (r: CookieBuilder)
        ensures
            r@ == (CookieView { secure: Some(secure), ..self@ }),
    {
        CookieBuilder(self.0.with_secure(secure))
    }

    /// The cookie built.
    pub fn build(self) -> (r: Cookie)
        ensures
            r@ == self@,
    {
        self.0
    }
}

impl Cookie {
    /// A builder for a cookie with the given name and value.
    pub fn builder(name: &str, value: &str) -> (r: CookieBuilder)
        ensures
            r@ == bare_cookie(name@, value@),
    {
        CookieBuilder::new(name, value)
    }
}

} // verus!
