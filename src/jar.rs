//! The change-tracking jar: committed cookies, pending changes, and the views built from them.
use crate::change::{header_of, opt_cookie_view, ChangeView, CookieChange};
use crate::cookie::{Cookie, CookieView};
use crate::error::{ParseError, ParseFailure};
use crate::parse::{parse_name_value, parse_name_value_at};
use crate::text::{
    chars_of, compare_text, find_char, index_of, split, trim, trim_bounds, lemma_index_of, lemma_index_of_bounds, lemma_index_of_push,
    lemma_text_lt_irreflexive, lemma_text_lt_total, lemma_text_lt_transitive, text_lt,
};
use vstd::pervasive::VecAdditionalExecFns;
use vstd::prelude::*;

verus! {

pub open spec fn cookies_view(v: Seq<Cookie>) -> Seq<CookieView> {
    v.map_values(|c: Cookie| c@)
}

pub open spec fn changes_view(v: Seq<CookieChange>) -> Seq<ChangeView> {
    v.map_values(|c: CookieChange| c@)
}

pub open spec fn cookie_names(s: Seq<CookieView>) -> Seq<Seq<char>> {
    s.map_values(|c: CookieView| c.name)
}

pub open spec fn change_names(s: Seq<ChangeView>) -> Seq<Seq<char>> {
    s.map_values(|c: ChangeView| c.name())
}

/// Names in strictly ascending order, hence each at most once.
pub open spec fn strictly_sorted(names: Seq<Seq<char>>) -> bool {
    forall|i: int, j: int| 0 <= i < j < names.len() ==> text_lt(names[i], names[j])
}

/// The first cookie named `k`.
pub open spec fn find_cookie(s: Seq<CookieView>, k: Seq<char>) -> Option<CookieView> {
    let i = index_of(cookie_names(s), k);
    if i < s.len() {
        Some(s[i])
    } else {
        None
    }
}

/// The first change keyed by `k`.
pub open spec fn find_change(s: Seq<ChangeView>, k: Seq<char>) -> Option<ChangeView> {
    let i = index_of(change_names(s), k);
    if i < s.len() {
        Some(s[i])
    } else {
        None
    }
}

/// Where the names are strictly sorted, the first index of a name is its only index.
proof fn lemma_index_of_sorted(names: Seq<Seq<char>>, i: int)
    requires
        strictly_sorted(names),
        0 <= i < names.len(),
    ensures
        index_of(names, names[i]) == i,
{
    assert forall|j: int| 0 <= j < i implies #[trigger] names[j] != names[i] by {
        lemma_text_lt_irreflexive(names[i]);
    }
    lemma_index_of(names, names[i], i);
}

/// Inserting `key` at `p`, between the names below it and those above, keeps the names sorted
/// and moves each other name's position by the insertion.
proof fn lemma_sorted_insert(names: Seq<Seq<char>>, p: int, key: Seq<char>)
    requires
        strictly_sorted(names),
        0 <= p <= names.len(),
        forall|i: int| 0 <= i < p ==> text_lt(#[trigger] names[i], key),
        p < names.len() ==> text_lt(key, names[p]),
    ensures
        strictly_sorted(names.insert(p, key)),
        index_of(names.insert(p, key), key) == p,
        forall|k: Seq<char>|
            k != key ==> #[trigger] index_of(names.insert(p, key), k) == if index_of(names, k) < p {
                index_of(names, k)
            } else {
                index_of(names, k) + 1
            },
{
    let t = names.insert(p, key);
    assert forall|i: int, j: int| 0 <= i < j < t.len() implies text_lt(t[i], t[j]) by {
        if j < p {
        } else if j == p {
        } else if i < p {
            if j - 1 > p {
                lemma_text_lt_transitive(key, names[p], names[j - 1]);
            }
            lemma_text_lt_transitive(t[i], key, t[j]);
        } else if i == p {
            if j - 1 > p {
                lemma_text_lt_transitive(key, names[p], names[j - 1]);
            }
        } else {
        }
    }
    lemma_index_of_sorted(t, p);
    assert forall|k: Seq<char>| k != key implies #[trigger] index_of(t, k) == if index_of(names, k) < p {
        index_of(names, k)
    } else {
        index_of(names, k) + 1
    } by {
        lemma_index_of_bounds(names, k);
        let i = index_of(names, k);
        if i < names.len() {
            if i < p {
                assert(t[i] == names[i]);
                lemma_index_of_sorted(t, i);
            } else {
                assert(t[i + 1] == names[i]);
                lemma_index_of_sorted(t, i + 1);
            }
        } else {
            assert forall|j: int| 0 <= j < t.len() implies #[trigger] t[j] != k by {
                if j < p {
                    assert(t[j] == names[j]);
                } else if j > p {
                    assert(t[j] == names[j - 1]);
                }
            }
            lemma_index_of(t, k, t.len() as int);
        }
    }
}

/// The position of the first change keyed by `key`, or the length where there is none.
fn position_change(v: &Vec<CookieChange>, key: &Vec<char>) -> (r: usize)
    ensures
        r == index_of(change_names(changes_view(v@)), key@),
{
    let ghost names = change_names(changes_view(v@));
    let mut i: usize = 0;
    while i < v.len()
        invariant
            i <= v.len(),
            names == change_names(changes_view(v@)),
            forall|j: int| 0 <= j < i ==> names[j] != key@,
        decreases v.len() - i,
    {
        let n = chars_of(v[i].name());
        if compare_text(&n, key) == 0 {
            proof {
                lemma_index_of(names, key@, i as int);
            }
            return i;
        }
        i = i + 1;
    }
    proof {
        lemma_index_of(names, key@, i as int);
    }
    i
}

/// The position of the first cookie named `key`, or the length where there is none.
fn position_cookie(v: &Vec<Cookie>, key: &Vec<char>) -> (r: usize)
    ensures
        r == index_of(cookie_names(cookies_view(v@)), key@),
{
    let ghost names = cookie_names(cookies_view(v@));
    let mut i: usize = 0;
    while i < v.len()
        invariant
            i <= v.len(),
            names == cookie_names(cookies_view(v@)),
            forall|j: int| 0 <= j < i ==> names[j] != key@,
        decreases v.len() - i,
    {
        let n = chars_of(v[i].name());
        if compare_text(&n, key) == 0 {
            proof {
                lemma_index_of(names, key@, i as int);
            }
            return i;
        }
        i = i + 1;
    }
    proof {
        lemma_index_of(names, key@, i as int);
    }
    i
}

/// The number of changes whose name comes before `key`.
fn rank_change(v: &Vec<CookieChange>, key: &Vec<char>) -> (r: usize)
    requires
        strictly_sorted(change_names(changes_view(v@))),
    ensures
        r <= v.len(),
        forall|i: int| 0 <= i < r ==> text_lt(#[trigger] change_names(changes_view(v@))[i], key@),
        r < v.len() ==> !text_lt(change_names(changes_view(v@))[r as int], key@),
{
    let ghost names = change_names(changes_view(v@));
    let mut i: usize = 0;
    while i < v.len()
        invariant
            i <= v.len(),
            names == change_names(changes_view(v@)),
            forall|j: int| 0 <= j < i ==> text_lt(#[trigger] names[j], key@),
        decreases v.len() - i,
    {
        let n = chars_of(v[i].name());
        if compare_text(&n, key) >= 0 {
            return i;
        }
        i = i + 1;
    }
    i
}

/// The number of cookies whose name comes before `key`.
fn rank_cookie(v: &Vec<Cookie>, key: &Vec<char>) -> (r: usize)
    requires
        strictly_sorted(cookie_names(cookies_view(v@))),
    ensures
        r <= v.len(),
        forall|i: int| 0 <= i < r ==> text_lt(#[trigger] cookie_names(cookies_view(v@))[i], key@),
        r < v.len() ==> !text_lt(cookie_names(cookies_view(v@))[r as int], key@),
{
    let ghost names = cookie_names(cookies_view(v@));
    let mut i: usize = 0;
    while i < v.len()
        invariant
            i <= v.len(),
            names == cookie_names(cookies_view(v@)),
            forall|j: int| 0 <= j < i ==> text_lt(#[trigger] names[j], key@),
        decreases v.len() - i,
    {
        let n = chars_of(v[i].name());
        if compare_text(&n, key) >= 0 {
            return i;
        }
        i = i + 1;
    }
    i
}

/// Puts `ch` in the sorted changes, in place of any change of the same name.
fn upsert_change(v: &mut Vec<CookieChange>, ch: CookieChange)
    requires
        strictly_sorted(change_names(changes_view(old(v)@))),
    ensures
        strictly_sorted(change_names(changes_view(final(v)@))),
        forall|k: Seq<char>|
            #[trigger] find_change(changes_view(final(v)@), k) == if k == ch@.name() {
                Some(ch@)
            } else {
                find_change(changes_view(old(v)@), k)
            },
{
    let ghost old_view = changes_view(v@);
    let ghost names = change_names(old_view);
    let ghost item = ch@;
    let key = chars_of(ch.name());
    let p = rank_change(v, &key);
    let same = p < v.len() && compare_text(&chars_of(v[p].name()), &key) == 0;
    if same {
        v.set(p, ch);
        proof {
            let new_view = changes_view(v@);
            assert(new_view == old_view.update(p as int, item));
            assert(change_names(new_view) == names);
            lemma_index_of_sorted(names, p as int);
            assert forall|k: Seq<char>|
                #[trigger] find_change(new_view, k) == if k == item.name() {
                    Some(item)
                } else {
                    find_change(old_view, k)
                } by {
                lemma_index_of_bounds(names, k);
            }
        }
    } else {
        v.insert(p, ch);
        proof {
            let new_view = changes_view(v@);
            assert(new_view == old_view.insert(p as int, item));
            assert(change_names(new_view) == names.insert(p as int, key@));
            if p < names.len() {
                lemma_text_lt_total(names[p as int], key@);
            }
            lemma_sorted_insert(names, p as int, key@);
            assert forall|k: Seq<char>|
                #[trigger] find_change(new_view, k) == if k == item.name() {
                    Some(item)
                } else {
                    find_change(old_view, k)
                } by {
                lemma_index_of_bounds(names, k);
            }
        }
    }
}

/// Puts `c` in the sorted cookies unless a cookie of the same name is there already.
fn insert_cookie(v: &mut Vec<Cookie>, c: Cookie)
    requires
        strictly_sorted(cookie_names(cookies_view(old(v)@))),
    ensures
        strictly_sorted(cookie_names(cookies_view(final(v)@))),
        forall|k: Seq<char>|
            #[trigger] find_cookie(cookies_view(final(v)@), k) == if k == c@.name && find_cookie(
                cookies_view(old(v)@),
                k,
            ) is None {
                Some(c@)
            } else {
                find_cookie(cookies_view(old(v)@), k)
            },
{
    let ghost old_view = cookies_view(v@);
    let ghost names = cookie_names(old_view);
    let ghost item = c@;
    let key = chars_of(c.name());
    let p = rank_cookie(v, &key);
    let same = p < v.len() && compare_text(&chars_of(v[p].name()), &key) == 0;
    if same {
        proof {
            lemma_index_of_sorted(names, p as int);
        }
    } else {
        v.insert(p, c);
        proof {
            let new_view = cookies_view(v@);
            assert(new_view == old_view.insert(p as int, item));
            assert(cookie_names(new_view) == names.insert(p as int, key@));
            if p < names.len() {
                lemma_text_lt_total(names[p as int], key@);
            }
            lemma_sorted_insert(names, p as int, key@);
            assert forall|k: Seq<char>|
                #[trigger] find_cookie(new_view, k) == if k == item.name && find_cookie(old_view, k) is None {
                    Some(item)
                } else {
                    find_cookie(old_view, k)
                } by {
                lemma_index_of_bounds(names, k);
                if k == item.name {
                    assert forall|j: int| 0 <= j < names.len() implies names[j] != k by {
                        if j < p {
                            lemma_text_lt_irreflexive(k);
                        } else {
                            if j > p {
                                lemma_text_lt_transitive(key@, names[p as int], names[j]);
                            }
                            lemma_text_lt_irreflexive(k);
                        }
                    }
                    lemma_index_of(names, k, names.len() as int);
                }
            }
        }
    }
}

proof fn lemma_find_cookie_push(s: Seq<CookieView>, x: CookieView, k: Seq<char>)
    ensures
        find_cookie(s.push(x), k) == if find_cookie(s, k) is Some {
            find_cookie(s, k)
        } else if x.name == k {
            Some(x)
        } else {
            None
        },
{
    assert(cookie_names(s.push(x)) == cookie_names(s).push(x.name));
    lemma_index_of_push(cookie_names(s), x.name, k);
    lemma_index_of_bounds(cookie_names(s), k);
}

proof fn lemma_find_change_push(s: Seq<ChangeView>, x: ChangeView, k: Seq<char>)
    ensures
        find_change(s.push(x), k) == if find_change(s, k) is Some {
            find_change(s, k)
        } else if x.name() == k {
            Some(x)
        } else {
            None
        },
{
    assert(change_names(s.push(x)) == change_names(s).push(x.name()));
    lemma_index_of_push(change_names(s), x.name(), k);
    lemma_index_of_bounds(change_names(s), k);
}

/// In sorted names, no name occurs before its own position.
proof fn lemma_sorted_prefix_absent(names: Seq<Seq<char>>, i: int)
    requires
        strictly_sorted(names),
        0 <= i < names.len(),
    ensures
        index_of(names.take(i), names[i]) == i,
{
    let t = names.take(i);
    assert forall|j: int| 0 <= j < i implies #[trigger] t[j] != names[i] by {
        lemma_text_lt_irreflexive(names[i]);
    }
    lemma_index_of(t, names[i], i);
}

/// `after` is `before` with `change` made the pending change for its name: the committed
/// cookies and the other names' changes stay as they were.
pub open spec fn changed_by(before: CookieJar, after: CookieJar, change: ChangeView) -> bool {
    &&& after.wf()
    &&& after.committed() == before.committed()
    &&& forall|k: Seq<char>|
        #[trigger] find_change(after.pending(), k) == if k == change.name() {
            Some(change)
        } else {
            find_change(before.pending(), k)
        }
}

/// A cookie jar: the cookies committed when it was made, and the changes pending since.
#[derive(Debug)]
pub struct CookieJar {
    cookie: Vec<Cookie>,
    changes: Vec<CookieChange>,
}

impl CookieJar {
    /// The committed cookies, in ascending name order.
    pub closed spec fn committed(&self) -> Seq<CookieView> {
        cookies_view(self.cookie@)
    }

    /// The pending changes, in ascending name order.
    pub closed spec fn pending(&self) -> Seq<ChangeView> {
        changes_view(self.changes@)
    }

    /// Both the committed cookies and the pending changes are sorted by name, one per name.
    pub open spec fn wf(&self) -> bool {
        &&& strictly_sorted(cookie_names(self.committed()))
        &&& strictly_sorted(change_names(self.pending()))
    }

    /// The cookie that the jar holds under `k`: a pending creation, none where a removal is
    /// pending, else the committed cookie.
    pub open spec fn lookup(&self, k: Seq<char>) -> Option<CookieView> {
        match find_change(self.pending(), k) {
            Some(ChangeView::Create(c)) => Some(c),
            Some(ChangeView::Remove(_)) => None,
            None => find_cookie(self.committed(), k),
        }
    }

    /// A jar committed to the given cookies, with nothing pending. Of several cookies with one
    /// name the first is kept.
    pub fn new(cookies: Vec<Cookie>) -> (r: CookieJar)
        ensures
            r.wf(),
            r.pending().len() == 0,
            forall|k: Seq<char>|
                #[trigger] find_cookie(r.committed(), k) == find_cookie(cookies_view(cookies@), k),
    {
        let ghost input = cookies_view(cookies@);
        let mut committed: Vec<Cookie> = Vec::new();
        let mut i: usize = 0;
        while i < cookies.len()
            invariant
                i <= cookies.len(),
                input == cookies_view(cookies@),
                strictly_sorted(cookie_names(cookies_view(committed@))),
                forall|k: Seq<char>|
                    #[trigger] find_cookie(cookies_view(committed@), k) == find_cookie(input.take(i as int), k),
            decreases cookies.len() - i,
        {
            let c = cookies[i].clone();
            insert_cookie(&mut committed, c);
            proof {
                assert(input.take(i + 1) == input.take(i as int).push(input[i as int]));
                assert forall|k: Seq<char>|
                    #[trigger] find_cookie(cookies_view(committed@), k) == find_cookie(input.take(i + 1), k) by {
                    lemma_find_cookie_push(input.take(i as int), input[i as int], k);
                }
            }
            i = i + 1;
        }
        assert(input.take(i as int) == input);
        let r = CookieJar { cookie: committed, changes: Vec::new() };
        assert(r.pending() == Seq::<ChangeView>::empty());
        r
    }

    /// The cookie that the jar holds under `name`: a pending creation first; nothing where a
    /// removal is pending; else the committed cookie.
    pub fn get(&self, name: &str) -> (r: Option<&Cookie>)
        ensures
            opt_cookie_view(r) == self.lookup(name@),
    {
        let key = chars_of(name);
        let i = position_change(&self.changes, &key);
        if i < self.changes.len() {
            match &self.changes[i] {
                CookieChange::Create(c) => {
                    return Some(c);
                },
                CookieChange::Remove(_) => {
                    return None;
                },
            }
        }
        let j = position_cookie(&self.cookie, &key);
        if j < self.cookie.len() {
            Some(&self.cookie[j])
        } else {
            None
        }
    }

    /// Makes `cookie` the pending change for its name, in place of any earlier one.
    pub fn add(&mut self, cookie: Cookie)
        requires
            old(self).wf(),
        ensures
            changed_by(*old(self), *final(self), ChangeView::Create(cookie@)),
    {
        upsert_change(&mut self.changes, CookieChange::create(cookie));
    }

    /// The same as `add`.
    pub fn set(&mut self, cookie: Cookie)
        requires
            old(self).wf(),
        ensures
            changed_by(*old(self), *final(self), ChangeView::Create(cookie@)),
    {
        self.add(cookie);
    }

    /// Makes the removal of `name` the pending change for that name, in place of any earlier
    /// one. The committed cookies stay as they are.
    pub fn remove(&mut self, name: &str)
        requires
            old(self).wf(),
        ensures
            changed_by(*old(self), *final(self), ChangeView::Remove(name@)),
    {
        upsert_change(&mut self.changes, CookieChange::remove(name));
    }

    /// The cookies in effect, in ascending name order: each pending creation, and each
    /// committed cookie with no pending change of its name.
    pub fn cookie(&self) -> (r: Vec<Cookie>)
        requires
            self.wf(),
        ensures
            strictly_sorted(cookie_names(cookies_view(r@))),
            forall|k: Seq<char>| #[trigger] find_cookie(cookies_view(r@), k) == self.lookup(k),
    {
        let ghost pending = self.pending();
        let ghost committed = self.committed();
        let mut r: Vec<Cookie> = Vec::new();
        let mut i: usize = 0;
        while i < self.changes.len()
            invariant
                self.wf(),
                pending == self.pending(),
                i <= self.changes.len(),
                strictly_sorted(cookie_names(cookies_view(r@))),
                forall|k: Seq<char>|
                    #[trigger] find_cookie(cookies_view(r@), k) == match find_change(pending.take(i as int), k) {
                        Some(ChangeView::Create(c)) => Some(c),
                        _ => None,
                    },
            decreases self.changes.len() - i,
        {
            let ghost before = cookies_view(r@);
            let ghost x = pending[i as int];
            proof {
                assert(pending.take(i + 1) == pending.take(i as int).push(x));
                assert(change_names(pending.take(i as int)) == change_names(pending).take(i as int));
                lemma_sorted_prefix_absent(change_names(pending), i as int);
                lemma_index_of_bounds(change_names(pending.take(i as int)), x.name());
            }
            match &self.changes[i] {
                CookieChange::Create(c) => {
                    insert_cookie(&mut r, c.clone());
                },
                CookieChange::Remove(_) => {},
            }
            proof {
                assert forall|k: Seq<char>|
                    #[trigger] find_cookie(cookies_view(r@), k) == match find_change(pending.take(i + 1), k) {
                        Some(ChangeView::Create(c)) => Some(c),
                        _ => None,
                    } by {
                    lemma_find_change_push(pending.take(i as int), x, k);
                    assert(find_cookie(before, k) == match find_change(pending.take(i as int), k) {
                        Some(ChangeView::Create(c)) => Some(c),
                        _ => None,
                    });
                }
            }
            i = i + 1;
        }
        assert(pending.take(i as int) == pending);
        let mut j: usize = 0;
        while j < self.cookie.len()
            invariant
                self.wf(),
                pending == self.pending(),
                committed == self.committed(),
                j <= self.cookie.len(),
                strictly_sorted(cookie_names(cookies_view(r@))),
                forall|k: Seq<char>|
                    #[trigger] find_cookie(cookies_view(r@), k) == match find_change(pending, k) {
                        Some(ChangeView::Create(c)) => Some(c),
                        Some(ChangeView::Remove(_)) => None,
                        None => find_cookie(committed.take(j as int), k),
                    },
            decreases self.cookie.len() - j,
        {
            let ghost before = cookies_view(r@);
            let ghost x = committed[j as int];
            proof {
                assert(committed.take(j + 1) == committed.take(j as int).push(x));
                assert(cookie_names(committed.take(j as int)) == cookie_names(committed).take(j as int));
                lemma_sorted_prefix_absent(cookie_names(committed), j as int);
                lemma_index_of_bounds(cookie_names(committed.take(j as int)), x.name);
            }
            let c = &self.cookie[j];
            let key = chars_of(c.name());
            assert(key@ == x.name);
            assert(cookie_names(committed)[j as int] == x.name);
            let p = position_change(&self.changes, &key);
            if p == self.changes.len() {
                assert(find_change(pending, x.name) is None);
                assert(find_cookie(committed.take(j as int), x.name) is None);
                insert_cookie(&mut r, c.clone());
            } else {
                proof {
                    lemma_index_of_bounds(change_names(pending), x.name);
                }
                assert(find_change(pending, x.name) is Some);
            }
            proof {
                assert forall|k: Seq<char>|
                    #[trigger] find_cookie(cookies_view(r@), k) == match find_change(pending, k) {
                        Some(ChangeView::Create(c)) => Some(c),
                        Some(ChangeView::Remove(_)) => None,
                        None => find_cookie(committed.take(j + 1), k),
                    } by {
                    lemma_find_cookie_push(committed.take(j as int), x, k);
                    assert(find_cookie(before, k) == match find_change(pending, k) {
                        Some(ChangeView::Create(c)) => Some(c),
                        Some(ChangeView::Remove(_)) => None,
                        None => find_cookie(committed.take(j as int), k),
                    });
                }
            }
            j = j + 1;
        }
        assert(committed.take(j as int) == committed);
        r
    }

    /// The pending changes, in ascending name order.
    pub fn changes(&self) -> (r: &Vec<CookieChange>)
        ensures
            changes_view(r@) == self.pending(),
    {
        &self.changes
    }

    /// One header value per pending change, in ascending name order.
    pub fn as_header_values(&self) -> (r: Vec<String>)
        ensures
            r.len() == self.pending().len(),
            forall|i: int| 0 <= i < r.len() ==> #[trigger] r[i]@ == header_of(self.pending()[i]),
    {
        let mut r: Vec<String> = Vec::new();
        let mut i: usize = 0;
        while i < self.changes.len()
            invariant
                i <= self.changes.len(),
                r.len() == i,
                forall|j: int| 0 <= j < i ==> #[trigger] r[j]@ == header_of(self.pending()[j]),
            decreases self.changes.len() - i,
        {
            r.push(self.changes[i].as_header_value());
            i = i + 1;
        }
        r
    }
}

impl Default for CookieJar {
    fn default() -> (r: CookieJar)
        ensures
            r.wf(),
            r.committed().len() == 0,
            r.pending().len() == 0,
    {
        let r = CookieJar { cookie: Vec::new(), changes: Vec::new() };
        assert(r.committed() == Seq::<CookieView>::empty());
        assert(r.pending() == Seq::<ChangeView>::empty());
        r
    }
}

/// The cookies that the pieces of a `Cookie` request header list, in order: each piece is
/// trimmed, an empty one is skipped, and each other one is read as a name/value pair. The
/// first piece that fails ends the list with its failure.
pub open spec fn list_cookies(segs: Seq<Seq<char>>) -> Result<Seq<CookieView>, ParseFailure>
    decreases segs.len(),
{
    if segs.len() == 0 {
        Ok(Seq::empty())
    } else if trim(segs[0]).len() == 0 {
        list_cookies(segs.drop_first())
    } else {
        match parse_name_value(trim(segs[0])) {
            Err(e) => Err(e),
            Ok(c) => match list_cookies(segs.drop_first()) {
                Ok(cs) => Ok(seq![c] + cs),
                Err(e) => Err(e),
            },
        }
    }
}

/// The cookies that a `Cookie` request header lists: it is cut at every `;`.
pub open spec fn header_cookies(s: Seq<char>) -> Result<Seq<CookieView>, ParseFailure> {
    list_cookies(split(s, ';'))
}

pub open spec fn prepend(p: Seq<CookieView>, r: Result<Seq<CookieView>, ParseFailure>) -> Result<
    Seq<CookieView>,
    ParseFailure,
> {
    match r {
        Ok(cs) => Ok(p + cs),
        Err(e) => Err(e),
    }
}

/// What parsing a `Cookie` request header gives: a jar committed to the cookies it lists (the
/// first of each name), with nothing pending; or the failure of the first bad piece.
pub open spec fn jar_parsed(r: Result<CookieJar, ParseError>, s: Seq<char>) -> bool {
    match r {
        Ok(j) => {
            &&& header_cookies(s) is Ok
            &&& j.wf()
            &&& j.pending().len() == 0
            &&& forall|k: Seq<char>|
                #[trigger] find_cookie(j.committed(), k) == find_cookie(header_cookies(s)->Ok_0, k)
        },
        Err(e) => header_cookies(s) == Err::<Seq<CookieView>, ParseFailure>(e@),
    }
}

/// Parses the `Cookie` request header held in `v`.
fn parse_jar(v: &Vec<char>) -> (r: Result<CookieJar, ParseError>)
    ensures
        jar_parsed(r, v@),
{
    let n = v.len();
    let mut parsed: Vec<Cookie> = Vec::new();
    let mut start: usize = 0;
    proof {
        assert(v@.subrange(0, n as int) == v@);
        assert(cookies_view(parsed@) + header_cookies(v@)->Ok_0 == header_cookies(v@)->Ok_0);
    }
    loop
        invariant
            n == v.len(),
            start <= n,
            header_cookies(v@) == prepend(cookies_view(parsed@), list_cookies(split(v@.subrange(start as int, n as int), ';'))),
        decreases n - start,
    {
        let ghost t = v@.subrange(start as int, n as int);
        let ghost before = cookies_view(parsed@);
        let end = find_char(v, start, n, ';');
        let ghost piece = v@.subrange(start as int, end as int);
        let ghost rest = if end < n {
            split(v@.subrange(end + 1, n as int), ';')
        } else {
            Seq::<Seq<char>>::empty()
        };
        proof {
            let i = end - start;
            assert(t.subrange(0, i) == piece);
            if end < n {
                assert(t.subrange(i + 1, t.len() as int) == v@.subrange(end + 1, n as int));
            } else {
                assert(t == piece);
            }
            assert(split(t, ';') == seq![piece] + rest);
            assert((seq![piece] + rest)[0] == piece);
            assert((seq![piece] + rest).drop_first() == rest);
        }
        let (a, b) = trim_bounds(v, start, end);
        if a < b {
            match parse_name_value_at(v, a, b) {
                Ok(c) => {
                    parsed.push(c);
                    proof {
                        assert(cookies_view(parsed@) == before.push(cookies_view(parsed@).last()));
                        match list_cookies(rest) {
                            Ok(cs) => {
                                assert(before + (seq![cookies_view(parsed@).last()] + cs) == cookies_view(parsed@) + cs);
                            },
                            Err(_) => {},
                        }
                    }
                },
                Err(e) => {
                    return Err(e);
                },
            }
        }
        if end == n {
            proof {
                assert(rest.len() == 0);
                assert(cookies_view(parsed@) + Seq::<CookieView>::empty() == cookies_view(parsed@));
            }
            return Ok(CookieJar::new(parsed));
        }
        start = end + 1;
    }
}

impl CookieJar {
    /// Parses a `Cookie` request header, `name1=value1; name2=value2`, into a jar committed to
    /// the cookies it lists. Only the first `=` of a piece counts; no attribute is read. An
    /// empty or blank piece is skipped.
    pub fn parse(value: &str) -> (r: Result<CookieJar, ParseError>)
        ensures
            jar_parsed(r, value@),
    {
        parse_jar(&chars_of(value))
    }

    /// The same as `parse`: a request header carries no attributes, so there are none to
    /// reject.
    pub fn parse_strict(value: &str) -> (r: Result<CookieJar, ParseError>)
        ensures
            jar_parsed(r, value@),
    {
        parse_jar(&chars_of(value))
    }
}

/// Of two changes to one name, the later decides what the jar holds under it: after `add(a)`
/// then `add(b)`, `get` gives `b`; after `add(a)` then `remove`, it gives nothing.
pub proof fn lemma_last_change_wins(
    j0: CookieJar,
    j1: CookieJar,
    j2: CookieJar,
    first: ChangeView,
    second: ChangeView,
)
    requires
        changed_by(j0, j1, first),
        changed_by(j1, j2, second),
        first.name() == second.name(),
    ensures
        j2.lookup(second.name()) == match second {
            ChangeView::Create(c) => Some(c),
            ChangeView::Remove(_) => None::<CookieView>,
        },
{
    assert(find_change(j2.pending(), second.name()) == Some(second));
}

} // verus!
