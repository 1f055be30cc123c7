//! Cookies and the cookie jar.
//!
//! The jar groups cookies by the domain they were stored under, in the order
//! in which each domain was first seen. Within a domain a cookie is
//! identified by its name and path: storing a cookie replaces the one with
//! the same domain, name and path.
use vstd::prelude::*;

use crate::text::{
    chars_eq, chars_of, copy_opt_string, ends_with, has_prefix, has_suffix, opt_view, push_chars,
    push_str, split_chars, split_once, split_once_chars, starts_with, string_of, strip_prefix,
    strip_prefix_chars, sub_chars, trim, trim_chars, to_lowercase, lowercase_of, split_char,
    lemma_split_nonempty,
};
use crate::json::{json_array_len, json_array_len_of};
use crate::urls::{parse_url, parsed_url};

verus! {

/// The `SameSite` attribute of a cookie.
#[derive(Debug, Clone, Copy, PartialEq, Eq, Structural)]
pub enum SameSite {
    Strict,
    Lax,
    /// `SameSite=None`: the cookie is sent with cross-site requests too.
    NoRestriction,
}

impl Default for SameSite {
    /// `Lax`, the attribute a cookie has when `Set-Cookie` names none.
    fn default() -> (r: Self)
        ensures
            r == SameSite::Lax,
    {
        SameSite::Lax
    }
}

/// The text of a `SameSite` value.
pub open spec fn same_site_text(s: SameSite) -> Seq<char> {
    match s {
        SameSite::Strict => "Strict"@,
        SameSite::Lax => "Lax"@,
        SameSite::NoRestriction => "None"@,
    }
}

impl SameSite {
    /// The text of the value: `Strict`, `Lax` or `None`.
    pub fn to_string(&self) -> (r: String)
        ensures
            r@ == same_site_text(*self),
    {
        match self {
            SameSite::Strict => String::from_str("Strict"),
            SameSite::Lax => String::from_str("Lax"),
            SameSite::NoRestriction => String::from_str("None"),
        }
    }
}

/// A cookie.
#[derive(Debug, Clone)]
pub struct Cookie {
    pub name: String,
    pub value: String,
    pub domain: String,
    pub path: String,
    pub secure: bool,
    pub http_only: bool,
    pub same_site: SameSite,
    pub expires: Option<String>,
}

/// A cookie as plain values.
pub struct CookieView {
    pub name: Seq<char>,
    pub value: Seq<char>,
    pub domain: Seq<char>,
    pub path: Seq<char>,
    pub secure: bool,
    pub http_only: bool,
    pub same_site: SameSite,
    pub expires: Option<Seq<char>>,
}

impl View for Cookie {
    type V = CookieView;

    open spec fn view(&self) -> CookieView {
        CookieView {
            name: self.name@,
            value: self.value@,
            domain: self.domain@,
            path: self.path@,
            secure: self.secure,
            http_only: self.http_only,
            same_site: self.same_site,
            expires: opt_view(self.expires),
        }
    }
}

/// The text of a cookie:
/// `name=value; domain=D; path=P[; Secure][; HttpOnly]; SameSite=S`.
pub open spec fn cookie_text(c: CookieView) -> Seq<char> {
    c.name + "="@ + c.value + "; domain="@ + c.domain + "; path="@ + c.path + (if c.secure {
        "; Secure"@
    } else {
        Seq::empty()
    }) + (if c.http_only {
        "; HttpOnly"@
    } else {
        Seq::empty()
    }) + "; SameSite="@ + same_site_text(c.same_site)
}

/// A cookie whose path is `cookie_path` is sent with a request for
/// `request_path`: the cookie path is `/`, equals the request path, or is a
/// prefix of it that ends in `/` or is followed by `/`.
pub open spec fn path_matches_spec(cookie_path: Seq<char>, request_path: Seq<char>) -> bool {
    ||| cookie_path == "/"@
    ||| request_path == cookie_path
    ||| (starts_with(request_path, cookie_path) && (ends_with(cookie_path, "/"@)
        || request_path.len() == cookie_path.len() || request_path[cookie_path.len() as int]
        == '/'))
}

/// A cookie stored under `cookie_domain` applies to `host`: the two are
/// equal, or the domain starts with `.` and the host equals the rest of it
/// or ends with the whole domain.
pub open spec fn domain_matches_spec(host: Seq<char>, cookie_domain: Seq<char>) -> bool {
    ||| host == cookie_domain
    ||| (starts_with(cookie_domain, "."@) && (host == cookie_domain.drop_first() || ends_with(
        host,
        cookie_domain,
    )))
}

impl Cookie {
    /// A copy of the cookie.
    pub fn duplicate(&self) -> (r: Cookie)
        ensures
            r@ == self@,
    {
        Cookie {
            name: self.name.clone(),
            value: self.value.clone(),
            domain: self.domain.clone(),
            path: self.path.clone(),
            secure: self.secure,
            http_only: self.http_only,
            same_site: self.same_site,
            expires: copy_opt_string(&self.expires),
        }
    }

    /// Whether the cookie is sent with a request for `request_path`.
    pub fn path_matches(&self, request_path: &str) -> (r: bool)
        ensures
            r == path_matches_spec(self.path@, request_path@),
    {
        let p = chars_of(self.path.as_str());
        let rp = chars_of(request_path);
        let root = chars_of("/");
        if chars_eq(&p, &root) {
            return true;
        }
        if chars_eq(&rp, &p) {
            return true;
        }
        if has_prefix(&rp, &p) {
            if has_suffix(&p, &root) {
                return true;
            }
            return p.len() == rp.len() || rp[p.len()] == '/';
        }
        false
    }

    /// The text of the cookie (see `cookie_text`).
    pub fn to_string(&self) -> (r: String)
        ensures
            r@ == cookie_text(self@),
    {
        let mut out: Vec<char> = Vec::new();
        push_str(&mut out, self.name.as_str());
        push_str(&mut out, "=");
        push_str(&mut out, self.value.as_str());
        push_str(&mut out, "; domain=");
        push_str(&mut out, self.domain.as_str());
        push_str(&mut out, "; path=");
        push_str(&mut out, self.path.as_str());
        let ghost before_flags = out@;
        if self.secure {
            push_str(&mut out, "; Secure");
        }
        let ghost after_secure = out@;
        if self.http_only {
            push_str(&mut out, "; HttpOnly");
        }
        let ghost after_http = out@;
        push_str(&mut out, "; SameSite=");
        let ss = self.same_site.to_string();
        push_str(&mut out, ss.as_str());
        proof {
            let secure_part = if self.secure {
                "; Secure"@
            } else {
                Seq::<char>::empty()
            };
            let http_part = if self.http_only {
                "; HttpOnly"@
            } else {
                Seq::<char>::empty()
            };
            assert(after_secure =~= before_flags + secure_part);
            assert(after_http =~= after_secure + http_part);
            assert(out@ =~= cookie_text(self@));
        }
        string_of(&out)
    }
}

// ---------------------------------------------------------------------------
// The jar as plain values.
// ---------------------------------------------------------------------------

/// The jar: for every domain, in order of first appearance, its cookies in
/// order of storage.
pub type JarView = Seq<(Seq<char>, Seq<CookieView>)>;

/// Two cookies occupy the same slot of a domain: same name and path.
pub open spec fn same_slot(a: CookieView, b: CookieView) -> bool {
    a.name == b.name && a.path == b.path
}

/// `cs` without the cookies in the slot of `c`, order kept.
pub open spec fn remove_slot(cs: Seq<CookieView>, c: CookieView) -> Seq<CookieView>
    decreases cs.len(),
{
    if cs.len() == 0 {
        cs
    } else {
        let r = remove_slot(cs.drop_last(), c);
        if same_slot(cs.last(), c) {
            r
        } else {
            r.push(cs.last())
        }
    }
}

/// The index of the entry for domain `d`, or -1.
pub open spec fn domain_index(j: JarView, d: Seq<char>) -> int
    decreases j.len(),
{
    if j.len() == 0 {
        -1
    } else {
        let r = domain_index(j.drop_last(), d);
        if r >= 0 {
            r
        } else if j.last().0 == d {
            j.len() - 1
        } else {
            -1
        }
    }
}

/// The jar after storing `c`: in the entry of its domain the cookie with
/// the same name and path is removed and `c` is appended; a domain not yet
/// present gets a new entry at the end.
pub open spec fn jar_insert(j: JarView, c: CookieView) -> JarView {
    let i = domain_index(j, c.domain);
    if i >= 0 {
        j.update(i, (c.domain, remove_slot(j[i].1, c).push(c)))
    } else {
        j.push((c.domain, seq![c]))
    }
}

/// The number of cookies in the jar.
pub open spec fn jar_total(j: JarView) -> nat
    decreases j.len(),
{
    if j.len() == 0 {
        0
    } else {
        jar_total(j.drop_last()) + j.last().1.len()
    }
}

/// The cookie `x` is in the jar.
pub open spec fn jar_contains(j: JarView, x: CookieView) -> bool {
    exists|a: int, k: int| 0 <= a < j.len() && 0 <= k < j[a].1.len() && #[trigger] j[a].1[k] == x
}

/// The jar is well formed: domains are distinct, no entry is empty, every
/// cookie is stored under its own domain, and within a domain no two
/// cookies share a name and path.
pub open spec fn jar_wf(j: JarView) -> bool {
    &&& forall|a: int, b: int| 0 <= a < b < j.len() ==> #[trigger] j[a].0 != #[trigger] j[b].0
    &&& forall|a: int| 0 <= a < j.len() ==> #[trigger] j[a].1.len() > 0
    &&& forall|a: int, k: int|
        0 <= a < j.len() && 0 <= k < j[a].1.len() ==> (#[trigger] j[a].1[k]).domain == j[a].0
    &&& forall|a: int, k: int, m: int|
        0 <= a < j.len() && 0 <= k < m < j[a].1.len() ==> !same_slot(
            #[trigger] j[a].1[k],
            #[trigger] j[a].1[m],
        )
}

// ---------------------------------------------------------------------------
// Lemmas about the jar.
// ---------------------------------------------------------------------------

/// The sum of the counts of a listing of domains.
pub open spec fn listed_total(r: Seq<(&str, usize)>) -> nat
    decreases r.len(),
{
    if r.len() == 0 {
        0
    } else {
        listed_total(r.drop_last()) + r.last().1 as nat
    }
}

/// In a well-formed jar each domain is listed once, holds at least one
/// cookie, and holds exactly the cookies stored under it, each with that
/// domain; the cookies of all domains add up to the jar's total.
pub proof fn lemma_jar_listing(j: JarView)
    requires
        jar_wf(j),
    ensures
        forall|a: int, b: int| 0 <= a < b < j.len() ==> #[trigger] j[a].0 != #[trigger] j[b].0,
        forall|a: int|
            0 <= a < j.len() ==> #[trigger] j[a].1.len() >= 1 && domain_index(j, j[a].0) == a
                && domain_cookies(j, j[a].0) == j[a].1,
        forall|a: int, k: int|
            0 <= a < j.len() && 0 <= k < j[a].1.len() ==> (#[trigger] j[a].1[k]).domain == j[a].0,
        jar_total(j) == j.map_values(|e: (Seq<char>, Seq<CookieView>)| e.1.len() as int).fold_left(
            0int,
            |acc: int, n: int| acc + n,
        ),
{
    assert forall|a: int| 0 <= a < j.len() implies #[trigger] j[a].1.len() >= 1 && domain_index(
        j,
        j[a].0,
    ) == a && domain_cookies(j, j[a].0) == j[a].1 by {
        lemma_domain_index(j, j[a].0);
        let i = domain_index(j, j[a].0);
        if i != a {
            if i < a {
                assert(j[i].0 != j[a].0);
            }
        }
    }
    lemma_jar_total_fold(j);
}

proof fn lemma_jar_total_fold(j: JarView)
    ensures
        jar_total(j) == j.map_values(|e: (Seq<char>, Seq<CookieView>)| e.1.len() as int).fold_left(
            0int,
            |acc: int, n: int| acc + n,
        ),
    decreases j.len(),
{
    if j.len() > 0 {
        lemma_jar_total_fold(j.drop_last());
        let f = |e: (Seq<char>, Seq<CookieView>)| e.1.len() as int;
        assert(j.map_values(f).drop_last() =~= j.drop_last().map_values(f));
    }
}

proof fn lemma_domain_index(j: JarView, d: Seq<char>)
    ensures
        -1 <= domain_index(j, d) < j.len(),
        domain_index(j, d) >= 0 ==> j[domain_index(j, d)].0 == d,
        forall|a: int|
            0 <= a < j.len() && (domain_index(j, d) < 0 || a < domain_index(j, d)) ==> j[a].0 != d,
    decreases j.len(),
{
    if j.len() > 0 {
        lemma_domain_index(j.drop_last(), d);
        assert forall|a: int| 0 <= a < j.len() - 1 implies j[a] == j.drop_last()[a] by {}
    }
}

proof fn lemma_remove_slot(cs: Seq<CookieView>, c: CookieView)
    ensures
        remove_slot(cs, c).len() <= cs.len(),
        forall|k: int|
            0 <= k < remove_slot(cs, c).len() ==> !same_slot(#[trigger] remove_slot(cs, c)[k], c),
        forall|k: int|
            0 <= k < remove_slot(cs, c).len() ==> exists|m: int|
                0 <= m < cs.len() && cs[m] == #[trigger] remove_slot(cs, c)[k],
        forall|m: int|
            0 <= m < cs.len() && !same_slot(#[trigger] cs[m], c) ==> exists|k: int|
                0 <= k < remove_slot(cs, c).len() && remove_slot(cs, c)[k] == cs[m],
    decreases cs.len(),
{
    if cs.len() > 0 {
        let t = cs.drop_last();
        lemma_remove_slot(t, c);
        let r = remove_slot(cs, c);
        let rt = remove_slot(t, c);
        assert forall|k: int| 0 <= k < r.len() implies exists|m: int|
            0 <= m < cs.len() && cs[m] == #[trigger] r[k] by {
            if k < rt.len() {
                let m = choose|m: int| 0 <= m < t.len() && t[m] == rt[k];
                assert(cs[m] == r[k]);
            } else {
                assert(cs[cs.len() - 1] == r[k]);
            }
        }
        assert forall|m: int| 0 <= m < cs.len() && !same_slot(#[trigger] cs[m], c) implies exists|
            k: int,
        | 0 <= k < r.len() && r[k] == cs[m] by {
            if m < cs.len() - 1 {
                assert(t[m] == cs[m]);
                let k = choose|k: int| 0 <= k < rt.len() && rt[k] == t[m];
                assert(r[k] == cs[m]);
            } else {
                assert(r[r.len() - 1] == cs[m]);
            }
        }
    }
}

proof fn lemma_remove_slot_distinct(cs: Seq<CookieView>, c: CookieView)
    requires
        forall|k: int, m: int|
            0 <= k < m < cs.len() ==> !same_slot(#[trigger] cs[k], #[trigger] cs[m]),
    ensures
        forall|k: int, m: int|
            0 <= k < m < remove_slot(cs, c).len() ==> !same_slot(
                #[trigger] remove_slot(cs, c)[k],
                #[trigger] remove_slot(cs, c)[m],
            ),
    decreases cs.len(),
{
    if cs.len() > 0 {
        let t = cs.drop_last();
        assert forall|k: int, m: int| 0 <= k < m < t.len() implies !same_slot(
            #[trigger] t[k],
            #[trigger] t[m],
        ) by {
            assert(t[k] == cs[k] && t[m] == cs[m]);
        }
        lemma_remove_slot_distinct(t, c);
        lemma_remove_slot(t, c);
        let r = remove_slot(cs, c);
        let rt = remove_slot(t, c);
        assert forall|k: int, m: int| 0 <= k < m < r.len() implies !same_slot(
            #[trigger] r[k],
            #[trigger] r[m],
        ) by {
            if m < rt.len() {
                assert(r[k] == rt[k] && r[m] == rt[m]);
            } else {
                assert(r[m] == cs.last());
                assert(r[k] == rt[k]);
                let q = choose|q: int| 0 <= q < t.len() && t[q] == rt[k];
                assert(cs[q] == t[q]);
                assert(!same_slot(cs[q], cs[cs.len() - 1]));
            }
        }
    }
}

proof fn lemma_remove_slot_domain(cs: Seq<CookieView>, c: CookieView, d: Seq<char>)
    requires
        forall|k: int| 0 <= k < cs.len() ==> (#[trigger] cs[k]).domain == d,
    ensures
        forall|k: int|
            0 <= k < remove_slot(cs, c).len() ==> (#[trigger] remove_slot(cs, c)[k]).domain == d,
{
    lemma_remove_slot(cs, c);
    assert forall|k: int| 0 <= k < remove_slot(cs, c).len() implies (#[trigger] remove_slot(
        cs,
        c,
    )[k]).domain == d by {
        let m = choose|m: int| 0 <= m < cs.len() && cs[m] == remove_slot(cs, c)[k];
    }
}

/// Storing a cookie keeps the jar well formed.
pub proof fn lemma_insert_wf(j: JarView, c: CookieView)
    requires
        jar_wf(j),
    ensures
        jar_wf(jar_insert(j, c)),
{
    lemma_domain_index(j, c.domain);
    let i = domain_index(j, c.domain);
    let j2 = jar_insert(j, c);
    if i >= 0 {
        let cs = j[i].1;
        assert forall|k: int, m: int| 0 <= k < m < cs.len() implies !same_slot(
            #[trigger] cs[k],
            #[trigger] cs[m],
        ) by {
            assert(!same_slot(j[i].1[k], j[i].1[m]));
        }
        assert forall|k: int| 0 <= k < cs.len() implies (#[trigger] cs[k]).domain == c.domain by {
            assert(j[i].1[k].domain == j[i].0);
        }
        lemma_remove_slot(cs, c);
        lemma_remove_slot_distinct(cs, c);
        lemma_remove_slot_domain(cs, c, c.domain);
        let ns = remove_slot(cs, c).push(c);
        assert forall|k: int, m: int| 0 <= k < m < ns.len() implies !same_slot(
            #[trigger] ns[k],
            #[trigger] ns[m],
        ) by {
            if m < ns.len() - 1 {
                assert(ns[k] == remove_slot(cs, c)[k] && ns[m] == remove_slot(cs, c)[m]);
            } else {
                assert(ns[k] == remove_slot(cs, c)[k]);
                assert(!same_slot(remove_slot(cs, c)[k], c));
            }
        }
        assert forall|a: int, k: int| 0 <= a < j2.len() && 0 <= k < j2[a].1.len() implies (
        #[trigger] j2[a].1[k]).domain == j2[a].0 by {
            if a == i {
                if k < ns.len() - 1 {
                    assert(ns[k] == remove_slot(cs, c)[k]);
                }
            } else {
                assert(j2[a] == j[a]);
            }
        }
        assert forall|a: int, k: int, m: int|
            0 <= a < j2.len() && 0 <= k < m < j2[a].1.len() implies !same_slot(
            #[trigger] j2[a].1[k],
            #[trigger] j2[a].1[m],
        ) by {
            if a != i {
                assert(j2[a] == j[a]);
            }
        }
        assert forall|a: int, b: int| 0 <= a < b < j2.len() implies #[trigger] j2[a].0
            != #[trigger] j2[b].0 by {
            assert(j[a].0 != j[b].0);
        }
        assert forall|a: int| 0 <= a < j2.len() implies #[trigger] j2[a].1.len() > 0 by {
            if a != i {
                assert(j2[a] == j[a]);
            }
        }
    } else {
        assert forall|a: int, b: int| 0 <= a < b < j2.len() implies #[trigger] j2[a].0
            != #[trigger] j2[b].0 by {
            if b == j.len() {
                assert(j[a].0 != c.domain);
            } else {
                assert(j[a].0 != j[b].0);
            }
        }
        assert forall|a: int| 0 <= a < j2.len() implies #[trigger] j2[a].1.len() > 0 by {
            if a < j.len() {
                assert(j2[a] == j[a]);
            }
        }
        assert forall|a: int, k: int| 0 <= a < j2.len() && 0 <= k < j2[a].1.len() implies (
        #[trigger] j2[a].1[k]).domain == j2[a].0 by {
            if a < j.len() {
                assert(j2[a] == j[a]);
            }
        }
        assert forall|a: int, k: int, m: int|
            0 <= a < j2.len() && 0 <= k < m < j2[a].1.len() implies !same_slot(
            #[trigger] j2[a].1[k],
            #[trigger] j2[a].1[m],
        ) by {
            if a < j.len() {
                assert(j2[a] == j[a]);
            }
        }
    }
}

/// What storing a cookie does to the contents of a well-formed jar: the
/// stored cookie is in the jar and is the only one in its slot (same
/// domain, name and path); every other cookie stays; nothing else appears.
pub proof fn lemma_insert_contents(j: JarView, c: CookieView)
    requires
        jar_wf(j),
    ensures
        jar_contains(jar_insert(j, c), c),
        forall|x: CookieView|
            jar_contains(jar_insert(j, c), x) && x.domain == c.domain && same_slot(x, c) ==> x
                == c,
        forall|x: CookieView|
            jar_contains(j, x) && !(x.domain == c.domain && same_slot(x, c)) ==> jar_contains(
                jar_insert(j, c),
                x,
            ),
        forall|x: CookieView| jar_contains(jar_insert(j, c), x) ==> x == c || jar_contains(j, x),
{
    lemma_domain_index(j, c.domain);
    lemma_insert_wf(j, c);
    let i = domain_index(j, c.domain);
    let j2 = jar_insert(j, c);
    if i >= 0 {
        let cs = j[i].1;
        lemma_remove_slot(cs, c);
        let ns = remove_slot(cs, c).push(c);
        assert(j2[i].1[ns.len() - 1] == c);
        assert forall|x: CookieView|
            jar_contains(j2, x) && x.domain == c.domain && same_slot(x, c) implies x == c by {
            let (a, k) = choose|a: int, k: int|
                0 <= a < j2.len() && 0 <= k < j2[a].1.len() && #[trigger] j2[a].1[k] == x;
            if a != i {
                assert(j2[a] == j[a]);
                assert(j[a].1[k].domain == j[a].0);
            } else if k < ns.len() - 1 {
                assert(ns[k] == remove_slot(cs, c)[k]);
            }
        }
        assert forall|x: CookieView|
            jar_contains(j, x) && !(x.domain == c.domain && same_slot(x, c)) implies jar_contains(
            j2,
            x,
        ) by {
            let (a, k) = choose|a: int, k: int|
                0 <= a < j.len() && 0 <= k < j[a].1.len() && #[trigger] j[a].1[k] == x;
            if a != i {
                assert(j2[a] == j[a]);
                assert(j2[a].1[k] == x);
            } else {
                assert(cs[k] == x);
                assert(x.domain == c.domain) by {
                    assert(j[a].1[k].domain == j[a].0);
                }
                let q = choose|q: int| 0 <= q < remove_slot(cs, c).len() && remove_slot(cs, c)[q]
                    == cs[k];
                assert(j2[i].1[q] == x);
            }
        }
        assert forall|x: CookieView| jar_contains(j2, x) implies x == c || jar_contains(j, x) by {
            let (a, k) = choose|a: int, k: int|
                0 <= a < j2.len() && 0 <= k < j2[a].1.len() && #[trigger] j2[a].1[k] == x;
            if a != i {
                assert(j2[a] == j[a]);
                assert(j[a].1[k] == x);
            } else if k < ns.len() - 1 {
                assert(ns[k] == remove_slot(cs, c)[k]);
                let m = choose|m: int| 0 <= m < cs.len() && cs[m] == remove_slot(cs, c)[k];
                assert(j[i].1[m] == x);
            }
        }
    } else {
        assert(j2[j.len() as int].1[0] == c);
        assert forall|x: CookieView|
            jar_contains(j2, x) && x.domain == c.domain && same_slot(x, c) implies x == c by {
            let (a, k) = choose|a: int, k: int|
                0 <= a < j2.len() && 0 <= k < j2[a].1.len() && #[trigger] j2[a].1[k] == x;
            if a < j.len() {
                assert(j2[a] == j[a]);
                assert(j[a].1[k].domain == j[a].0);
            }
        }
        assert forall|x: CookieView|
            jar_contains(j, x) && !(x.domain == c.domain && same_slot(x, c)) implies jar_contains(
            j2,
            x,
        ) by {
            let (a, k) = choose|a: int, k: int|
                0 <= a < j.len() && 0 <= k < j[a].1.len() && #[trigger] j[a].1[k] == x;
            assert(j2[a] == j[a]);
            assert(j2[a].1[k] == x);
        }
        assert forall|x: CookieView| jar_contains(j2, x) implies x == c || jar_contains(j, x) by {
            let (a, k) = choose|a: int, k: int|
                0 <= a < j2.len() && 0 <= k < j2[a].1.len() && #[trigger] j2[a].1[k] == x;
            if a < j.len() {
                assert(j2[a] == j[a]);
                assert(j[a].1[k] == x);
            }
        }
    }
}


// ---------------------------------------------------------------------------
// Queries on the jar as plain values.
// ---------------------------------------------------------------------------

/// The jar without the entry of domain `d`, if it has one.
pub open spec fn jar_without_domain(j: JarView, d: Seq<char>) -> JarView {
    let i = domain_index(j, d);
    if i >= 0 {
        j.remove(i)
    } else {
        j
    }
}

/// The cookies that `cookies_for_domain(d)` returns: those stored under `d`;
/// failing that, those under `.d`; failing that, when `d` starts with `.`,
/// those under `d` without its dot; otherwise none.
pub open spec fn domain_cookies(j: JarView, d: Seq<char>) -> Seq<CookieView> {
    let i = domain_index(j, d);
    let i2 = domain_index(j, "."@ + d);
    if i >= 0 {
        j[i].1
    } else if i2 >= 0 {
        j[i2].1
    } else if starts_with(d, "."@) && domain_index(j, d.drop_first()) >= 0 {
        j[domain_index(j, d.drop_first())].1
    } else {
        Seq::empty()
    }
}

/// A cookie is sent with a request for `path` over a connection that is
/// secure (`https`) or not.
pub open spec fn cookie_selected(c: CookieView, https: bool, path: Seq<char>) -> bool {
    path_matches_spec(c.path, path) && (!c.secure || https)
}

/// The cookies of one domain that are sent, in order.
pub open spec fn select_in(cs: Seq<CookieView>, https: bool, path: Seq<char>) -> Seq<CookieView>
    decreases cs.len(),
{
    if cs.len() == 0 {
        cs
    } else {
        let r = select_in(cs.drop_last(), https, path);
        if cookie_selected(cs.last(), https, path) {
            r.push(cs.last())
        } else {
            r
        }
    }
}

/// The cookies of the jar that are sent to `host`, domain by domain.
pub open spec fn select_cookies(j: JarView, host: Seq<char>, https: bool, path: Seq<char>) -> Seq<
    CookieView,
>
    decreases j.len(),
{
    if j.len() == 0 {
        Seq::empty()
    } else {
        select_cookies(j.drop_last(), host, https, path) + if domain_matches_spec(
            host,
            j.last().0,
        ) {
            select_in(j.last().1, https, path)
        } else {
            Seq::empty()
        }
    }
}

/// The cookies sent with a request to `url`: none when the URL does not
/// parse; otherwise those whose domain matches the URL's host (empty when
/// it has none), whose path matches the URL's path, and that are not
/// `Secure` unless the scheme is `https`.
pub open spec fn url_cookies(j: JarView, url: Seq<char>) -> Seq<CookieView> {
    match parsed_url(url) {
        None => Seq::empty(),
        Some(p) => select_cookies(
            j,
            match p.1 {
                Some(h) => h,
                None => Seq::empty(),
            },
            p.0 == "https"@,
            p.2,
        ),
    }
}

/// `name=value` of a cookie.
pub open spec fn cookie_pair(c: CookieView) -> Seq<char> {
    c.name + "="@ + c.value
}

/// The `name=value` pairs of the cookies, joined by `; `.
pub open spec fn header_text(cs: Seq<CookieView>) -> Seq<char>
    decreases cs.len(),
{
    if cs.len() == 0 {
        Seq::empty()
    } else if cs.len() == 1 {
        cookie_pair(cs[0])
    } else {
        header_text(cs.drop_last()) + "; "@ + cookie_pair(cs.last())
    }
}


/// Every cookie chosen from one domain's list is in that list, matches the
/// request path, and is not `Secure` unless the connection is.
proof fn lemma_select_in(cs: Seq<CookieView>, https: bool, path: Seq<char>)
    ensures
        forall|k: int|
            0 <= k < select_in(cs, https, path).len() ==> cookie_selected(
                #[trigger] select_in(cs, https, path)[k],
                https,
                path,
            ) && cs.contains(select_in(cs, https, path)[k]),
    decreases cs.len(),
{
    if cs.len() > 0 {
        let t = cs.drop_last();
        lemma_select_in(t, https, path);
        let r = select_in(cs, https, path);
        let rt = select_in(t, https, path);
        assert forall|k: int| 0 <= k < r.len() implies cookie_selected(#[trigger] r[k], https, path)
            && cs.contains(r[k]) by {
            if k < rt.len() {
                assert(r[k] == rt[k]);
                let m = choose|m: int| 0 <= m < t.len() && t[m] == rt[k];
                assert(cs[m] == t[m]);
            } else {
                assert(r[k] == cs[cs.len() - 1]);
            }
        }
    }
}

proof fn lemma_select_cookies(j: JarView, host: Seq<char>, https: bool, path: Seq<char>)
    ensures
        forall|k: int|
            0 <= k < select_cookies(j, host, https, path).len() ==> cookie_selected(
                #[trigger] select_cookies(j, host, https, path)[k],
                https,
                path,
            ) && jar_contains(j, select_cookies(j, host, https, path)[k]),
    decreases j.len(),
{
    if j.len() > 0 {
        let t = j.drop_last();
        lemma_select_cookies(t, host, https, path);
        lemma_select_in(j.last().1, https, path);
        let r = select_cookies(j, host, https, path);
        let rt = select_cookies(t, host, https, path);
        assert forall|k: int| 0 <= k < r.len() implies cookie_selected(#[trigger] r[k], https, path)
            && jar_contains(j, r[k]) by {
            if k < rt.len() {
                assert(r[k] == rt[k]);
                let (a, q) = choose|a: int, q: int|
                    0 <= a < t.len() && 0 <= q < t[a].1.len() && #[trigger] t[a].1[q] == rt[k];
                assert(j[a] == t[a]);
                assert(j[a].1[q] == r[k]);
            } else {
                let s = select_in(j.last().1, https, path);
                assert(r[k] == s[k - rt.len()]);
                let m = choose|m: int| 0 <= m < j.last().1.len() && j.last().1[m] == s[k - rt.len()];
                assert(j[j.len() - 1].1[m] == r[k]);
            }
        }
    }
}

/// Cookies sent with a request come from the jar, match the request's path,
/// and a `Secure` cookie is only sent to an `https` URL.
proof fn lemma_select_in_keeps(cs: Seq<CookieView>, https: bool, path: Seq<char>, k: int)
    requires
        0 <= k < cs.len(),
        cookie_selected(cs[k], https, path),
    ensures
        select_in(cs, https, path).contains(cs[k]),
    decreases cs.len(),
{
    let t = cs.drop_last();
    if k < cs.len() - 1 {
        assert(t[k] == cs[k]);
        lemma_select_in_keeps(t, https, path, k);
        let m = choose|m: int| 0 <= m < select_in(t, https, path).len() && select_in(t, https, path)[m] == cs[k];
        if cookie_selected(cs.last(), https, path) {
            assert(select_in(cs, https, path)[m] == cs[k]);
        } else {
            assert(select_in(cs, https, path)[m] == cs[k]);
        }
    } else {
        let r = select_in(cs, https, path);
        assert(r[r.len() - 1] == cs[k]);
    }
}

proof fn lemma_select_cookies_keeps(j: JarView, host: Seq<char>, https: bool, path: Seq<char>, a: int, k: int)
    requires
        0 <= a < j.len(),
        0 <= k < j[a].1.len(),
        domain_matches_spec(host, j[a].0),
        cookie_selected(j[a].1[k], https, path),
    ensures
        select_cookies(j, host, https, path).contains(j[a].1[k]),
    decreases j.len(),
{
    let t = j.drop_last();
    let x = j[a].1[k];
    let rt = select_cookies(t, host, https, path);
    let last = if domain_matches_spec(host, j.last().0) {
        select_in(j.last().1, https, path)
    } else {
        Seq::empty()
    };
    assert(select_cookies(j, host, https, path) == rt + last);
    if a < j.len() - 1 {
        assert(t[a] == j[a]);
        lemma_select_cookies_keeps(t, host, https, path, a, k);
        let m = choose|m: int| 0 <= m < rt.len() && rt[m] == x;
        assert((rt + last)[m] == x);
    } else {
        lemma_select_in_keeps(j.last().1, https, path, k);
        let m = choose|m: int| 0 <= m < last.len() && last[m] == x;
        assert((rt + last)[rt.len() + m] == x);
    }
}

/// Every cookie sent for a URL has a path that is `/` or a prefix of the
/// URL's path, and is `Secure` only over `https`.
pub proof fn lemma_sent_path_is_prefix(j: JarView, url: Seq<char>)
    ensures
        forall|k: int|
            0 <= k < url_cookies(j, url).len() ==> {
                let x = #[trigger] url_cookies(j, url)[k];
                let p = parsed_url(url)->0;
                &&& parsed_url(url) is Some
                &&& (x.path == "/"@ || (x.path.len() <= p.2.len() && p.2.subrange(
                    0,
                    x.path.len() as int,
                ) == x.path))
                &&& (x.secure ==> p.0 == "https"@)
            },
{
    lemma_sent_cookies(j, url);
}

/// A cookie stored under a dotted domain `.h` is sent to the bare host `h`
/// itself, not only to its subdomains: for any URL whose host is `h`, a
/// cookie stored under `.h` with path `/` that is not `Secure` is among the
/// cookies sent.
pub proof fn lemma_dotted_domain_sent_to_bare_host(j: JarView, a: int, k: int, url: Seq<char>, h: Seq<char>)
    requires
        0 <= a < j.len(),
        0 <= k < j[a].1.len(),
        j[a].0 == "."@ + h,
        j[a].1[k].path == "/"@,
        !j[a].1[k].secure,
        parsed_url(url) is Some,
        (parsed_url(url)->0).1 == Some(h),
    ensures
        url_cookies(j, url).contains(j[a].1[k]),
{
    let p = parsed_url(url)->0;
    reveal_strlit(".");
    assert(("."@ + h).drop_first() =~= h);
    assert(("."@ + h).subrange(0, 1) =~= "."@);
    assert(starts_with("."@ + h, "."@));
    lemma_select_cookies_keeps(j, h, p.0 == "https"@, p.2, a, k);
}

/// A cookie stored under a domain is sent to a URL whose host is exactly
/// that domain, or (for a dotted domain `.d`) ends with `.d`, whenever its
/// path is `/` and it is not `Secure`.
pub proof fn lemma_cookie_sent_to_matching_host(j: JarView, a: int, k: int, url: Seq<char>, h: Seq<char>)
    requires
        0 <= a < j.len(),
        0 <= k < j[a].1.len(),
        h == j[a].0 || (j[a].0.len() > 0 && j[a].0[0] == '.' && h.len() >= j[a].0.len()
            && h.subrange(h.len() - j[a].0.len(), h.len() as int) == j[a].0),
        j[a].1[k].path == "/"@,
        !j[a].1[k].secure,
        parsed_url(url) is Some,
        (parsed_url(url)->0).1 == Some(h),
    ensures
        url_cookies(j, url).contains(j[a].1[k]),
{
    let p = parsed_url(url)->0;
    reveal_strlit(".");
    if h != j[a].0 {
        assert(j[a].0.subrange(0, 1) =~= "."@);
        assert(starts_with(j[a].0, "."@));
        assert(ends_with(h, j[a].0));
    }
    lemma_select_cookies_keeps(j, h, p.0 == "https"@, p.2, a, k);
}

pub proof fn lemma_sent_cookies(j: JarView, url: Seq<char>)
    ensures
        forall|k: int|
            0 <= k < url_cookies(j, url).len() ==> {
                &&& jar_contains(j, #[trigger] url_cookies(j, url)[k])
                &&& parsed_url(url) is Some
                &&& path_matches_spec(url_cookies(j, url)[k].path, (parsed_url(url)->0).2)
                &&& (url_cookies(j, url)[k].secure ==> (parsed_url(url)->0).0 == "https"@)
            },
{
    match parsed_url(url) {
        None => {},
        Some(p) => {
            let host = match p.1 {
                Some(h) => h,
                None => Seq::empty(),
            };
            lemma_select_cookies(j, host, p.0 == "https"@, p.2);
        },
    }
}

// ---------------------------------------------------------------------------
// Parsing `Set-Cookie`.
// ---------------------------------------------------------------------------

/// The attributes collected from a `Set-Cookie` header.
pub struct CookieAttrs {
    pub domain: Seq<char>,
    pub path: Seq<char>,
    pub secure: bool,
    pub http_only: bool,
    pub same_site: SameSite,
    pub expires: Option<Seq<char>>,
}

/// The attributes before any is read: no domain, path `/`, not secure, not
/// HTTP-only, `SameSite=Lax`, no expiry.
pub open spec fn default_attrs() -> CookieAttrs {
    CookieAttrs {
        domain: Seq::empty(),
        path: "/"@,
        secure: false,
        http_only: false,
        same_site: SameSite::Lax,
        expires: None,
    }
}

/// The `SameSite` value named by the (lowercased) text after `samesite=`.
pub open spec fn same_site_of(v: Seq<char>) -> SameSite {
    if v == "strict"@ {
        SameSite::Strict
    } else if v == "none"@ {
        SameSite::NoRestriction
    } else {
        SameSite::Lax
    }
}

/// The attributes after reading one `;`-separated attribute. The attribute
/// is trimmed and lowercased; `httponly` and `secure` set their flags;
/// `samesite=`, `domain=`, `path=` and `expires=` set their values (trimmed);
/// anything else is ignored.
pub open spec fn apply_attr(a: CookieAttrs, part: Seq<char>) -> CookieAttrs {
    let lower = lowercase_of(trim(part));
    if lower == "httponly"@ {
        CookieAttrs { http_only: true, ..a }
    } else if lower == "secure"@ {
        CookieAttrs { secure: true, ..a }
    } else if strip_prefix(lower, "samesite="@) is Some {
        CookieAttrs { same_site: same_site_of(strip_prefix(lower, "samesite="@)->0), ..a }
    } else if strip_prefix(lower, "domain="@) is Some {
        CookieAttrs { domain: trim(strip_prefix(lower, "domain="@)->0), ..a }
    } else if strip_prefix(lower, "path="@) is Some {
        CookieAttrs { path: trim(strip_prefix(lower, "path="@)->0), ..a }
    } else if strip_prefix(lower, "expires="@) is Some {
        CookieAttrs { expires: Some(trim(strip_prefix(lower, "expires="@)->0)), ..a }
    } else {
        a
    }
}

/// The attributes after reading `parts` in order.
pub open spec fn apply_attrs(a: CookieAttrs, parts: Seq<Seq<char>>) -> CookieAttrs
    decreases parts.len(),
{
    if parts.len() == 0 {
        a
    } else {
        apply_attr(apply_attrs(a, parts.drop_last()), parts.last())
    }
}

/// The name and value of the first part of a `Set-Cookie` header: split at
/// the first `=` and trimmed, or the whole trimmed part with an empty value.
pub open spec fn name_value_of(first: Seq<char>) -> (Seq<char>, Seq<char>) {
    let nv = trim(first);
    match split_once(nv, '=') {
        Some(p) => (trim(p.0), trim(p.1)),
        None => (nv, Seq::empty()),
    }
}

/// The host of `url`, or empty when it does not parse or has no host.
pub open spec fn url_host(url: Seq<char>) -> Seq<char> {
    match parsed_url(url) {
        Some(p) => match p.1 {
            Some(h) => h,
            None => Seq::empty(),
        },
        None => Seq::empty(),
    }
}

/// The cookie a `Set-Cookie` header describes, received for `url`: `None`
/// when its name is empty. Without a `Domain` attribute the cookie belongs
/// to the host of `url`.
pub open spec fn set_cookie_of(header: Seq<char>, url: Seq<char>) -> Option<CookieView> {
    let parts = split_char(header, ';');
    let nv = name_value_of(parts[0]);
    let a = apply_attrs(default_attrs(), parts.skip(1));
    if nv.0.len() == 0 {
        None
    } else {
        Some(
            CookieView {
                name: nv.0,
                value: nv.1,
                domain: if a.domain.len() == 0 {
                    url_host(url)
                } else {
                    a.domain
                },
                path: a.path,
                secure: a.secure,
                http_only: a.http_only,
                same_site: a.same_site,
                expires: a.expires,
            },
        )
    }
}

/// What storing a `Set-Cookie` header does to a jar.
pub open spec fn jar_set_cookie(j: JarView, header: Seq<char>, url: Seq<char>) -> JarView {
    match set_cookie_of(header, url) {
        Some(c) => jar_insert(j, c),
        None => j,
    }
}

// ---------------------------------------------------------------------------
// The jar.
// ---------------------------------------------------------------------------

/// The views of a list of cookies.
pub open spec fn cookies_view(v: Seq<Cookie>) -> Seq<CookieView> {
    v.map_values(|c: Cookie| c@)
}

/// The views of a list of cookie references.
pub open spec fn refs_view(v: Seq<&Cookie>) -> Seq<CookieView> {
    v.map_values(|c: &Cookie| c@)
}

/// The view of the jar's entries.
pub open spec fn entries_view(v: Seq<(String, Vec<Cookie>)>) -> JarView {
    v.map_values(|e: (String, Vec<Cookie>)| (e.0@, cookies_view(e.1@)))
}

/// A cookie jar: cookies grouped by domain.
#[derive(Debug)]
pub struct CookieJar {
    cookies: Vec<(String, Vec<Cookie>)>,
}

impl View for CookieJar {
    type V = JarView;

    closed spec fn view(&self) -> JarView {
        entries_view(self.cookies@)
    }
}

impl Default for CookieJar {
    /// An empty jar.
    fn default() -> (r: Self)
        ensures
            r@ == Seq::<(Seq<char>, Seq<CookieView>)>::empty(),
    {
        CookieJar::new()
    }
}


impl Clone for CookieJar {
    /// A copy of the jar with the same contents.
    fn clone(&self) -> (r: Self)
        ensures
            r@ == self@,
    {
        proof {
            use_type_invariant(self);
        }
        let mut out: Vec<(String, Vec<Cookie>)> = Vec::new();
        let mut i: usize = 0;
        while i < self.cookies.len()
            invariant
                i <= self.cookies@.len(),
                self@.len() == self.cookies@.len(),
                out@.len() == i,
                forall|a: int| 0 <= a < i ==> entries_view(out@)[a] == #[trigger] self@[a],
            decreases self.cookies.len() - i,
        {
            let list = &self.cookies[i].1;
            let mut copy: Vec<Cookie> = Vec::new();
            let mut k: usize = 0;
            while k < list.len()
                invariant
                    k <= list@.len(),
                    copy@.len() == k,
                    forall|m: int| 0 <= m < k ==> (#[trigger] copy@[m])@ == list@[m]@,
                decreases list.len() - k,
            {
                copy.push(list[k].duplicate());
                k = k + 1;
            }
            proof {
                assert(cookies_view(copy@) =~= cookies_view(list@));
            }
            out.push((self.cookies[i].0.clone(), copy));
            proof {
                assert(entries_view(out@)[i as int] == self@[i as int]);
                assert forall|a: int| 0 <= a < i + 1 implies entries_view(out@)[a] == #[trigger] self@[a] by {
                    if a < i {
                        assert(out@[a] == out@.drop_last()[a]);
                    }
                }
            }
            i = i + 1;
        }
        proof {
            assert(entries_view(out@) =~= self@);
        }
        CookieJar { cookies: out }
    }
}

proof fn lemma_without_domain_wf(j: JarView, d: Seq<char>)
    requires
        jar_wf(j),
    ensures
        jar_wf(jar_without_domain(j, d)),
{
    lemma_domain_index(j, d);
    let i = domain_index(j, d);
    if i >= 0 {
        let j2 = j.remove(i);
        assert forall|a: int, b: int| 0 <= a < b < j2.len() implies #[trigger] j2[a].0
            != #[trigger] j2[b].0 by {
            let a0 = if a < i {
                a
            } else {
                a + 1
            };
            let b0 = if b < i {
                b
            } else {
                b + 1
            };
            assert(j[a0].0 != j[b0].0);
        }
        assert forall|a: int| 0 <= a < j2.len() implies #[trigger] j2[a].1.len() > 0 by {
            let a0 = if a < i {
                a
            } else {
                a + 1
            };
            assert(j2[a] == j[a0]);
        }
        assert forall|a: int, k: int| 0 <= a < j2.len() && 0 <= k < j2[a].1.len() implies (
        #[trigger] j2[a].1[k]).domain == j2[a].0 by {
            let a0 = if a < i {
                a
            } else {
                a + 1
            };
            assert(j2[a] == j[a0]);
            assert(j[a0].1[k].domain == j[a0].0);
        }
        assert forall|a: int, k: int, m: int|
            0 <= a < j2.len() && 0 <= k < m < j2[a].1.len() implies !same_slot(
            #[trigger] j2[a].1[k],
            #[trigger] j2[a].1[m],
        ) by {
            let a0 = if a < i {
                a
            } else {
                a + 1
            };
            assert(j2[a] == j[a0]);
            assert(!same_slot(j[a0].1[k], j[a0].1[m]));
        }
    }
}

impl CookieJar {
    /// The jar is well formed (see `jar_wf`).
    #[verifier::type_invariant]
    spec fn inv(&self) -> bool {
        jar_wf(entries_view(self.cookies@))
    }

    /// An empty jar.
    pub fn new() -> (r: Self)
        ensures
            r@ == Seq::<(Seq<char>, Seq<CookieView>)>::empty(),
    {
        let v: Vec<(String, Vec<Cookie>)> = Vec::new();
        proof {
            assert(entries_view(v@) =~= Seq::<(Seq<char>, Seq<CookieView>)>::empty());
        }
        CookieJar { cookies: v }
    }

    /// The index of the entry of domain `d`, if any.
    fn domain_position(&self, d: &[char]) -> (r: Option<usize>)
        ensures
            match r {
                Some(i) => i as int == domain_index(self@, d@) && i < self@.len(),
                None => domain_index(self@, d@) < 0,
            },
    {
        proof {
            lemma_domain_index(self@, d@);
        }
        let mut i: usize = 0;
        while i < self.cookies.len()
            invariant
                i <= self.cookies@.len(),
                self@.len() == self.cookies@.len(),
                forall|a: int| 0 <= a < i ==> self@[a].0 != d@,
                -1 <= domain_index(self@, d@) < self@.len(),
                domain_index(self@, d@) >= 0 ==> self@[domain_index(self@, d@)].0 == d@,
                forall|a: int|
                    0 <= a < self@.len() && (domain_index(self@, d@) < 0 || a < domain_index(
                        self@,
                        d@,
                    )) ==> self@[a].0 != d@,
            decreases self.cookies.len() - i,
        {
            let k = chars_of(self.cookies[i].0.as_str());
            proof {
                assert(self@[i as int].0 == self.cookies@[i as int].0@);
            }
            if chars_eq(&k, d) {
                return Some(i);
            }
            i = i + 1;
        }
        None
    }

    /// Copies of the cookies of `list` that are not in the slot of `c`.
    fn without_slot(list: &Vec<Cookie>, c: &Cookie) -> (r: Vec<Cookie>)
        ensures
            cookies_view(r@) == remove_slot(cookies_view(list@), c@),
    {
        let name = chars_of(c.name.as_str());
        let path = chars_of(c.path.as_str());
        let mut out: Vec<Cookie> = Vec::new();
        let mut i: usize = 0;
        proof {
            assert(cookies_view(list@).take(0) =~= Seq::<CookieView>::empty());
            assert(cookies_view(out@) =~= Seq::<CookieView>::empty());
        }
        while i < list.len()
            invariant
                i <= list@.len(),
                name@ == c.name@,
                path@ == c.path@,
                cookies_view(out@) == remove_slot(cookies_view(list@).take(i as int), c@),
            decreases list.len() - i,
        {
            let ghost cv = cookies_view(list@);
            proof {
                assert(cv.take(i as int + 1).drop_last() =~= cv.take(i as int));
                assert(cv.take(i as int + 1).last() == list@[i as int]@);
            }
            let n = chars_of(list[i].name.as_str());
            let p = chars_of(list[i].path.as_str());
            if !(chars_eq(&n, &name) && chars_eq(&p, &path)) {
                let d = list[i].duplicate();
                out.push(d);
                proof {
                    assert(cookies_view(out@) =~= remove_slot(cv.take(i as int), c@).push(
                        list@[i as int]@,
                    ));
                }
            }
            i = i + 1;
        }
        proof {
            assert(cookies_view(list@).take(list@.len() as int) =~= cookies_view(list@));
        }
        out
    }

    /// Stores `cookie`, replacing the cookie with the same domain, name and
    /// path (see `jar_insert` and `lemma_insert_contents`).
    pub fn insert(&mut self, cookie: Cookie)
        ensures
            final(self)@ == jar_insert(old(self)@, cookie@),
            jar_wf(final(self)@),
    {
        proof {
            use_type_invariant(&*self);
            lemma_insert_wf(self@, cookie@);
            lemma_domain_index(self@, cookie@.domain);
        }
        let d = chars_of(cookie.domain.as_str());
        let pos = self.domain_position(&d);
        let mut cookies: Vec<(String, Vec<Cookie>)> = Vec::new();
        std::mem::swap(&mut cookies, &mut self.cookies);
        match pos {
            Some(i) => {
                let kept = CookieJar::without_slot(&cookies[i].1, &cookie);
                let ghost before = cookies@;
                let (key, _old) = cookies.remove(i);
                let mut list = kept;
                list.push(cookie);
                proof {
                    assert(cookies_view(list@) =~= remove_slot(
                        cookies_view(before[i as int].1@),
                        cookie@,
                    ).push(cookie@));
                    assert(key@ == old(self)@[i as int].0);
                }
                cookies.insert(i, (key, list));
                proof {
                    assert(cookies@ =~= before.update(i as int, (key, list)));
                    assert(entries_view(cookies@) =~= jar_insert(old(self)@, cookie@));
                }
            },
            None => {
                let key = cookie.domain.clone();
                let mut list: Vec<Cookie> = Vec::new();
                list.push(cookie);
                cookies.push((key, list));
                proof {
                    assert(cookies_view(list@) =~= seq![cookie@]);
                    assert(entries_view(cookies@) =~= jar_insert(old(self)@, cookie@));
                }
            },
        }
        self.cookies = cookies;
    }

    /// Removes every cookie.
    pub fn clear(&mut self)
        ensures
            final(self)@ == Seq::<(Seq<char>, Seq<CookieView>)>::empty(),
    {
        let v: Vec<(String, Vec<Cookie>)> = Vec::new();
        proof {
            assert(entries_view(v@) =~= Seq::<(Seq<char>, Seq<CookieView>)>::empty());
        }
        self.cookies = v;
    }

    /// Removes the cookies stored under `domain`.
    pub fn clear_domain(&mut self, domain: &str)
        ensures
            final(self)@ == jar_without_domain(old(self)@, domain@),
    {
        proof {
            use_type_invariant(&*self);
            lemma_without_domain_wf(self@, domain@);
        }
        let d = chars_of(domain);
        let pos = self.domain_position(&d);
        let mut cookies: Vec<(String, Vec<Cookie>)> = Vec::new();
        std::mem::swap(&mut cookies, &mut self.cookies);
        match pos {
            Some(i) => {
                let _removed = cookies.remove(i);
                proof {
                    assert(entries_view(cookies@) =~= jar_without_domain(old(self)@, domain@));
                }
            },
            None => {
                proof {
                    assert(entries_view(cookies@) =~= jar_without_domain(old(self)@, domain@));
                }
            },
        }
        self.cookies = cookies;
    }

    /// The number of domains that hold cookies.
    pub fn domain_count(&self) -> (r: usize)
        ensures
            r == self@.len(),
            jar_wf(self@),
    {
        proof {
            use_type_invariant(self);
        }
        self.cookies.len()
    }

    /// The number of cookies.
    pub fn total_count(&self) -> (r: usize)
        requires
            jar_total(self@) <= usize::MAX,
        ensures
            r == jar_total(self@),
    {
        let mut total: usize = 0;
        let mut i: usize = 0;
        while i < self.cookies.len()
            invariant
                i <= self.cookies@.len(),
                self@.len() == self.cookies@.len(),
                jar_total(self@) <= usize::MAX,
                total == jar_total(self@.take(i as int)),
            decreases self.cookies.len() - i,
        {
            proof {
                assert(self@.take(i as int + 1).drop_last() =~= self@.take(i as int));
                lemma_total_prefix(self@, i as int + 1);
            }
            total = total + self.cookies[i].1.len();
            i = i + 1;
        }
        proof {
            assert(self@.take(i as int) =~= self@);
        }
        total
    }

    /// Every domain with the number of its cookies.
    pub fn domains(&self) -> (r: Vec<(&str, usize)>)
        ensures
            jar_wf(self@),
            r@.len() == self@.len(),
            forall|a: int|
                0 <= a < r@.len() ==> (#[trigger] r@[a]).0@ == self@[a].0 && r@[a].1
                    == self@[a].1.len(),
            forall|a: int, b: int| 0 <= a < b < r@.len() ==> (#[trigger] r@[a]).0@ != (
            #[trigger] r@[b]).0@,
            forall|a: int|
                0 <= a < r@.len() ==> (#[trigger] r@[a]).1 >= 1 && r@[a].1 == domain_cookies(
                    self@,
                    r@[a].0@,
                ).len(),
            listed_total(r@) == jar_total(self@),
    {
        proof {
            use_type_invariant(self);
            lemma_jar_listing(self@);
        }
        let mut out: Vec<(&str, usize)> = Vec::new();
        let mut i: usize = 0;
        while i < self.cookies.len()
            invariant
                i <= self.cookies@.len(),
                self@.len() == self.cookies@.len(),
                out@.len() == i,
                forall|a: int|
                    0 <= a < i ==> (#[trigger] out@[a]).0@ == self@[a].0 && out@[a].1
                        == self@[a].1.len(),
                listed_total(out@) == jar_total(self@.take(i as int)),
            decreases self.cookies.len() - i,
        {
            let ghost before = out@;
            out.push((self.cookies[i].0.as_str(), self.cookies[i].1.len()));
            proof {
                assert(out@.drop_last() =~= before);
                assert(self@.take(i + 1).drop_last() =~= self@.take(i as int));
            }
            i = i + 1;
        }
        proof {
            assert(self@.take(self@.len() as int) =~= self@);
        }
        out
    }

    /// References to the cookies of entry `i`.
    fn entry_refs(&self, i: usize) -> (r: Vec<&Cookie>)
        requires
            i < self@.len(),
        ensures
            refs_view(r@) == self@[i as int].1,
    {
        let list = &self.cookies[i].1;
        let mut out: Vec<&Cookie> = Vec::new();
        let mut k: usize = 0;
        while k < list.len()
            invariant
                k <= list@.len(),
                out@.len() == k,
                forall|m: int| 0 <= m < k ==> (#[trigger] out@[m])@ == list@[m]@,
            decreases list.len() - k,
        {
            out.push(&list[k]);
            k = k + 1;
        }
        proof {
            assert(refs_view(out@) =~= cookies_view(list@));
        }
        out
    }

    /// The cookies stored for `domain` (see `domain_cookies`).
    pub fn cookies_for_domain(&self, domain: &str) -> (r: Vec<&Cookie>)
        ensures
            refs_view(r@) == domain_cookies(self@, domain@),
            jar_wf(self@),
    {
        proof {
            use_type_invariant(self);
        }
        let d = chars_of(domain);
        if let Some(i) = self.domain_position(&d) {
            return self.entry_refs(i);
        }
        let mut dotted: Vec<char> = Vec::new();
        dotted.push('.');
        push_chars(&mut dotted, &d);
        proof {
            assert(dotted@ =~= "."@ + domain@) by {
                reveal_strlit(".");
            }
        }
        if let Some(i) = self.domain_position(&dotted) {
            return self.entry_refs(i);
        }
        let dot = chars_of(".");
        if let Some(stripped) = strip_prefix_chars(&d, &dot) {
            proof {
                reveal_strlit(".");
                assert(stripped@ =~= domain@.drop_first());
            }
            if let Some(i) = self.domain_position(&stripped) {
                return self.entry_refs(i);
            }
        }
        proof {
            reveal_strlit(".");
        }
        Vec::new()
    }

    /// Whether a cookie stored under `cookie_domain` applies to `host`.
    fn domain_matches(&self, host: &[char], cookie_domain: &[char]) -> (r: bool)
        ensures
            r == domain_matches_spec(host@, cookie_domain@),
    {
        if chars_eq(host, cookie_domain) {
            return true;
        }
        let dot = chars_of(".");
        if has_prefix(cookie_domain, &dot) {
            proof {
                reveal_strlit(".");
            }
            let rest = sub_chars(cookie_domain, 1, cookie_domain.len());
            proof {
                assert(rest@ =~= cookie_domain@.drop_first());
            }
            if chars_eq(host, &rest) {
                return true;
            }
            return has_suffix(host, cookie_domain);
        }
        false
    }

    /// The cookies sent with a request to `url` (see `url_cookies`).
    pub fn get_cookies_for_url(&self, url: &str) -> (r: Vec<&Cookie>)
        ensures
            refs_view(r@) == url_cookies(self@, url@),
            jar_wf(self@),
    {
        proof {
            use_type_invariant(self);
        }
        let parts = match parse_url(url) {
            Some(p) => p,
            None => {
                proof {
                    assert(refs_view(Seq::<&Cookie>::empty()) =~= Seq::<CookieView>::empty());
                }
                return Vec::new();
            },
        };
        let host: Vec<char> = match &parts.host {
            Some(h) => chars_of(h.as_str()),
            None => Vec::new(),
        };
        let https_text = chars_of("https");
        let scheme = chars_of(parts.scheme.as_str());
        let is_secure = chars_eq(&scheme, &https_text);
        let ghost path = parts.path@;
        let mut out: Vec<&Cookie> = Vec::new();
        let mut a: usize = 0;
        proof {
            assert(self@.take(0) =~= Seq::<(Seq<char>, Seq<CookieView>)>::empty());
            assert(refs_view(out@) =~= Seq::<CookieView>::empty());
        }
        while a < self.cookies.len()
            invariant
                a <= self.cookies@.len(),
                self@.len() == self.cookies@.len(),
                path == parts.path@,
                refs_view(out@) == select_cookies(self@.take(a as int), host@, is_secure, path),
            decreases self.cookies.len() - a,
        {
            proof {
                assert(self@.take(a as int + 1).drop_last() =~= self@.take(a as int));
            }
            let d = chars_of(self.cookies[a].0.as_str());
            if self.domain_matches(&host, &d) {
                let list = &self.cookies[a].1;
                let ghost base = refs_view(out@);
                let ghost cs = self@[a as int].1;
                let mut k: usize = 0;
                proof {
                    assert(cs.take(0) =~= Seq::<CookieView>::empty());
                    assert(base + select_in(cs.take(0), is_secure, path) =~= base);
                }
                while k < list.len()
                    invariant
                        k <= list@.len(),
                        cs == cookies_view(list@),
                        path == parts.path@,
                        refs_view(out@) == base + select_in(cs.take(k as int), is_secure, path),
                    decreases list.len() - k,
                {
                    proof {
                        assert(cs.take(k as int + 1).drop_last() =~= cs.take(k as int));
                        assert(cs.take(k as int + 1).last() == list@[k as int]@);
                    }
                    let c = &list[k];
                    if c.path_matches(parts.path.as_str()) && (!c.secure || is_secure) {
                        let ghost before = out@;
                        out.push(c);
                        proof {
                            assert(refs_view(out@) =~= refs_view(before).push(c@));
                            assert(refs_view(out@) =~= base + select_in(
                                cs.take(k as int),
                                is_secure,
                                path,
                            ).push(c@));
                        }
                    }
                    k = k + 1;
                }
                proof {
                    assert(cs.take(list@.len() as int) =~= cs);
                    assert(self@.take(a as int + 1).last() == self@[a as int]);
                }
            } else {
                proof {
                    assert(refs_view(out@) =~= select_cookies(
                        self@.take(a as int + 1),
                        host@,
                        is_secure,
                        path,
                    ));
                }
            }
            a = a + 1;
        }
        proof {
            assert(self@.take(a as int) =~= self@);
            reveal_strlit("https");
        }
        out
    }


    /// Compares `lower` with a literal and strips a literal prefix.
    fn attr_value(lower: &[char], prefix: &str) -> (r: Option<Vec<char>>)
        ensures
            match r {
                Some(v) => strip_prefix(lower@, prefix@) == Some(v@),
                None => strip_prefix(lower@, prefix@) is None,
            },
    {
        let p = chars_of(prefix);
        strip_prefix_chars(lower, &p)
    }

    /// Stores the cookie described by a `Set-Cookie` header received for
    /// `request_url` (see `set_cookie_of`); a header whose cookie name is
    /// empty is ignored.
    pub fn insert_from_set_cookie(&mut self, set_cookie_header: &str, request_url: &str)
        ensures
            final(self)@ == jar_set_cookie(old(self)@, set_cookie_header@, request_url@),
    {
        let header = chars_of(set_cookie_header);
        let parts = split_chars(&header, ';');
        let ghost sp = split_char(header@, ';');
        proof {
            lemma_split_nonempty(header@, ';');
        }
        let first = trim_chars(&parts[0]);
        let (name, value) = match split_once_chars(&first, '=') {
            Some((k, v)) => (trim_chars(&k), trim_chars(&v)),
            None => (first, Vec::new()),
        };
        proof {
            assert(name@ == name_value_of(sp[0]).0);
            assert(value@ == name_value_of(sp[0]).1);
        }
        if name.len() == 0 {
            return;
        }
        let mut domain: Vec<char> = Vec::new();
        let mut path: Vec<char> = chars_of("/");
        let mut secure = false;
        let mut http_only = false;
        let mut same_site = SameSite::Lax;
        let mut expires: Option<Vec<char>> = None;
        let ghost rest = sp.skip(1);
        let mut i: usize = 1;
        proof {
            assert(rest.take(0) =~= Seq::<Seq<char>>::empty());
        }
        while i < parts.len()
            invariant
                1 <= i <= parts@.len(),
                parts@.len() == sp.len(),
                forall|k: int| 0 <= k < parts@.len() ==> #[trigger] parts@[k]@ == sp[k],
                rest == sp.skip(1),
                apply_attrs(default_attrs(), rest.take(i - 1)) == (CookieAttrs {
                    domain: domain@,
                    path: path@,
                    secure,
                    http_only,
                    same_site,
                    expires: match expires {
                        Some(e) => Some(e@),
                        None => None,
                    },
                }),
            decreases parts.len() - i,
        {
            proof {
                assert(rest.take(i as int).drop_last() =~= rest.take(i - 1));
                assert(rest.take(i as int).last() == parts@[i as int]@);
            }
            let part = trim_chars(&parts[i]);
            let part_text = string_of(&part);
            let lower_text = to_lowercase(part_text.as_str());
            let lower = chars_of(lower_text.as_str());
            let httponly_text = chars_of("httponly");
            let secure_text = chars_of("secure");
            if chars_eq(&lower, &httponly_text) {
                http_only = true;
            } else if chars_eq(&lower, &secure_text) {
                secure = true;
            } else if let Some(v) = CookieJar::attr_value(&lower, "samesite=") {
                let strict_text = chars_of("strict");
                let none_text = chars_of("none");
                same_site = if chars_eq(&v, &strict_text) {
                    SameSite::Strict
                } else if chars_eq(&v, &none_text) {
                    SameSite::NoRestriction
                } else {
                    SameSite::Lax
                };
            } else if let Some(v) = CookieJar::attr_value(&lower, "domain=") {
                domain = trim_chars(&v);
            } else if let Some(v) = CookieJar::attr_value(&lower, "path=") {
                path = trim_chars(&v);
            } else if let Some(v) = CookieJar::attr_value(&lower, "expires=") {
                expires = Some(trim_chars(&v));
            }
            i = i + 1;
        }
        proof {
            assert(rest.take(parts@.len() - 1) =~= rest);
        }
        let domain_final: Vec<char> = if domain.len() == 0 {
            match parse_url(request_url) {
                Some(u) => match &u.host {
                    Some(h) => chars_of(h.as_str()),
                    None => Vec::new(),
                },
                None => Vec::new(),
            }
        } else {
            domain
        };
        let cookie = Cookie {
            name: string_of(&name),
            value: string_of(&value),
            domain: string_of(&domain_final),
            path: string_of(&path),
            secure,
            http_only,
            same_site,
            expires: match &expires {
                Some(e) => Some(string_of(e)),
                None => None,
            },
        };
        proof {
            assert(set_cookie_of(set_cookie_header@, request_url@) == Some(cookie@));
        }
        self.insert(cookie);
    }

    /// The `Cookie` request header for `url`: the `name=value` pairs of the
    /// cookies sent with the request, joined by `; `, or `None` when no
    /// cookie is sent.
    pub fn to_cookie_header(&self, url: &str) -> (r: Option<String>)
        ensures
            match r {
                None => url_cookies(self@, url@).len() == 0,
                Some(h) => url_cookies(self@, url@).len() > 0 && h@ == header_text(
                    url_cookies(self@, url@),
                ),
            },
    {
        let cookies = self.get_cookies_for_url(url);
        if cookies.len() == 0 {
            return None;
        }
        let ghost cs = refs_view(cookies@);
        let mut out: Vec<char> = Vec::new();
        let mut i: usize = 0;
        while i < cookies.len()
            invariant
                i <= cookies@.len(),
                cs == refs_view(cookies@),
                out@ == header_text(cs.take(i as int)),
            decreases cookies.len() - i,
        {
            proof {
                assert(cs.take(i as int + 1).drop_last() =~= cs.take(i as int));
                assert(cs.take(i as int + 1).last() == cookies@[i as int]@);
            }
            let ghost before = out@;
            if i > 0 {
                push_str(&mut out, "; ");
            }
            push_str(&mut out, cookies[i].name.as_str());
            push_str(&mut out, "=");
            push_str(&mut out, cookies[i].value.as_str());
            proof {
                if i == 0 {
                    assert(out@ =~= header_text(cs.take(1)));
                } else {
                    assert(out@ =~= header_text(cs.take(i as int + 1)));
                }
            }
            i = i + 1;
        }
        proof {
            assert(cs.take(i as int) =~= cs);
        }
        Some(string_of(&out))
    }
}

proof fn lemma_total_prefix(j: JarView, n: int)
    requires
        0 <= n <= j.len(),
    ensures
        jar_total(j.take(n)) <= jar_total(j),
    decreases j.len() - n,
{
    if n < j.len() {
        lemma_total_prefix(j, n + 1);
        assert(j.take(n + 1).drop_last() =~= j.take(n));
    } else {
        assert(j.take(n) =~= j);
    }
}

/// The number of cookies in a saved session's cookie list: the length of
/// the JSON array, or 0 when the text is not one.
pub fn count_cookies(cookies_json: &str) -> (r: usize)
    ensures
        r as nat == match json_array_len_of(cookies_json@) {
            Some(n) => n,
            None => 0,
        },
{
    match json_array_len(cookies_json) {
        Some(n) => n,
        None => 0,
    }
}

} // verus!
