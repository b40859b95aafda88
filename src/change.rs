//! A pending change to a jar: a cookie to create, or a name to remove.
use crate::cookie::{serialize, Cookie, CookieView};
use crate::text::{chars_of, compare_text, order_text, text_order};
use vstd::prelude::*;
use vstd::string::StringExecFns;

verus! {

#[derive(Debug)]
pub enum CookieChange {
    Create(Cookie),
    Remove(String),
}

/// The model of a `CookieChange`.
pub enum ChangeView {
    Create(CookieView),
    Remove(Seq<char>),
}

impl ChangeView {
    /// The name that a change is keyed by.
    pub open spec fn name(self) -> Seq<char> {
        match self {
            ChangeView::Create(c) => c.name,
            ChangeView::Remove(n) => n,
        }
    }
}

/// The header value that a change emits: the cookie's `Set-Cookie` form, or the removal idiom
/// `<name>=removed; Max-Age=0`.
pub open spec fn header_of(c: ChangeView) -> Seq<char> {
    match c {
        ChangeView::Create(k) => serialize(k),
        ChangeView::Remove(n) => n + "=removed; Max-Age=0"@,
    }
}

pub open spec fn opt_cookie_view(o: Option<&Cookie>) -> Option<CookieView> {
    match o {
        Some(c) => Some(c@),
        None => None,
    }
}

impl View for CookieChange {
    type V = ChangeView;

    open spec fn view(&self) -> ChangeView {
        match self {
            CookieChange::Create(c) => ChangeView::Create(c@),
            CookieChange::Remove(n) => ChangeView::Remove(n@),
        }
    }
}

impl Clone for CookieChange {
    fn clone(&self) -> (r: Self)
        ensures
            r@ == self@,
    {
        match self {
            CookieChange::Create(c) => CookieChange::Create(c.clone()),
            CookieChange::Remove(n) => CookieChange::Remove(n.clone()),
        }
    }
}

impl PartialEq for CookieChange {
    /// Changes are keyed by name: two changes of one name are equal.
    fn eq(&self, other: &CookieChange) -> (r: bool)
        ensures
            r == (self@.name() == other@.name()),
    {
        let a = chars_of(self.name());
        let b = chars_of(other.name());
        compare_text(&a, &b) == 0
    }
}

impl vstd::std_specs::cmp::PartialEqSpecImpl for CookieChange {
    open spec fn obeys_eq_spec() -> bool {
        true
    }

    open spec fn eq_spec(&self, other: &CookieChange) -> bool {
        self@.name() == other@.name()
    }
}

impl Eq for CookieChange {
}

/// Changes are ordered by name, the order in which a jar emits them.
impl PartialOrd for CookieChange {
    fn partial_cmp(&self, other: &CookieChange) -> (r: Option<core::cmp::Ordering>)
        ensures
            r == Some(text_order(self@.name(), other@.name())),
    {
        Some(order_text(self.name(), other.name()))
    }
}

impl vstd::std_specs::cmp::PartialOrdSpecImpl for CookieChange {
    open spec fn obeys_partial_cmp_spec() -> bool {
        true
    }

    open spec fn partial_cmp_spec(&self, other: &CookieChange) -> Option<core::cmp::Ordering> {
        Some(text_order(self@.name(), other@.name()))
    }
}

impl CookieChange {
    pub fn create(cookie: Cookie) -> (r: CookieChange)
        ensures
            r@ == ChangeView::Create(cookie@),
    {
        CookieChange::Create(cookie)
    }

    pub fn remove(name: &str) -> (r: CookieChange)
        ensures
            r@ == ChangeView::Remove(name@),
    {
        CookieChange::Remove(name.to_owned())
    }

    /// The cookie that a `Create` holds.
    pub fn cookie(&self) -> (r: Option<&Cookie>)
        ensures
            opt_cookie_view(r) == match self@ {
                ChangeView::Create(c) => Some(c),
                ChangeView::Remove(_) => None::<CookieView>,
            },
    {
        match self {
            CookieChange::Create(c) => Some(c),
            CookieChange::Remove(_) => None,
        }
    }

    pub fn name(&self) -> (r: &str)
        ensures
            r@ == self@.name(),
    {
        match self {
            CookieChange::Create(c) => c.name(),
            CookieChange::Remove(n) => n.as_str(),
        }
    }

    pub fn is_create(&self) -> (r: bool)
        ensures
            r == self@ is Create,
    {
        match self {
            CookieChange::Create(_) => true,
            CookieChange::Remove(_) => false,
        }
    }

    pub fn is_remove(&self) -> (r: bool)
        ensures
            r == self@ is Remove,
    {
        !self.is_create()
    }

    pub fn into_cookie(self) -> (r: Option<Cookie>)
        ensures
            match self@ {
                ChangeView::Create(c) => r is Some && r->0@ == c,
                ChangeView::Remove(_) => r is None,
            },
    {
        match self {
            CookieChange::Create(c) => Some(c),
            CookieChange::Remove(_) => None,
        }
    }

    /// The header value this change emits.
    pub fn as_header_value(&self) -> (r: String)
        ensures
            r@ == header_of(self@),
    {
        match self {
            CookieChange::Create(c) => c.to_string(),
            CookieChange::Remove(n) => {
                let mut s = n.clone();
                s.append("=removed; Max-Age=0");
                s
            },
        }
    }
}

} // verus!
