//! The proxy settings the HTTP client is built with.

use vstd::prelude::*;

verus! {

/// The proxies the system gives for HTTP and HTTPS, without the special
/// `direct://` entry that means no proxy.
pub struct ProxySettings {
    pub http_proxy: Vec<String>,
    pub https_proxy: Vec<String>,
}

/// The proxies of a list other than `direct://`, in order.
pub open spec fn without_direct(s: Seq<Seq<char>>) -> Seq<Seq<char>> {
    s.filter(|p: Seq<char>| p != "direct://"@)
}

/// The strings of a list other than `direct://`, in order.
fn filter_direct(v: Vec<String>) -> (r: Vec<String>)
    ensures
        r.deep_view() == without_direct(v.deep_view()),
{
    let ghost orig = v.deep_view();
    let mut r: Vec<String> = Vec::new();
    let mut i: usize = 0;
    while i < v.len()
        invariant
            i <= v.len(),
            orig == v.deep_view(),
            r.deep_view() == orig.take(i as int).filter(|p: Seq<char>| p != "direct://"@),
        decreases v.len() - i,
    {
        proof {
            reveal_with_fuel(Seq::<Seq<char>>::filter, 1);
            assert(orig.take(i + 1 as int).drop_last() =~= orig.take(i as int));
            assert(orig.take(i + 1 as int).last() == orig[i as int]);
        }
        let ghost prev = r.deep_view();
        let keep = !crate::text::str_eq(v[i].as_str(), "direct://");
        if keep {
            r.push(v[i].clone());
            assert(r.deep_view() =~= prev.push(orig[i as int]));
        }
        assert(r.deep_view() =~= orig.take(i + 1 as int).filter(|p: Seq<char>| p != "direct://"@));
        i = i + 1;
    }
    assert(orig.take(v.len() as int) =~= orig);
    r
}

impl ProxySettings {
    /// The settings for the proxies the system gives, leaving out
    /// `direct://`.
    pub fn new(http_proxy: Vec<String>, https_proxy: Vec<String>) -> (s: ProxySettings)
        ensures
            s.http_proxy.deep_view() == without_direct(http_proxy.deep_view()),
            s.https_proxy.deep_view() == without_direct(https_proxy.deep_view()),
    {
        ProxySettings { http_proxy: filter_direct(http_proxy), https_proxy: filter_direct(https_proxy) }
    }

    /// The proxies the client uses: the first of each kind, as the client
    /// takes one proxy of each kind.
    pub fn proxies_to_apply(&self) -> (r: (Option<String>, Option<String>))
        ensures
            r.0.deep_view() == (if self.http_proxy@.len() > 0 {
                Some(self.http_proxy.deep_view()[0])
            } else {
                None
            }),
            r.1.deep_view() == (if self.https_proxy@.len() > 0 {
                Some(self.https_proxy.deep_view()[0])
            } else {
                None
            }),
    {
        let h = if self.http_proxy.len() > 0 {
            Some(self.http_proxy[0].clone())
        } else {
            None
        };
        let s = if self.https_proxy.len() > 0 {
            Some(self.https_proxy[0].clone())
        } else {
            None
        };
        (h, s)
    }

    /// Whether two settings name the same proxies.
    pub fn same_as(&self, other: &ProxySettings) -> (r: bool)
        ensures
            r == (self.http_proxy.deep_view() == other.http_proxy.deep_view()
                && self.https_proxy.deep_view() == other.https_proxy.deep_view()),
    {
        same_strings(&self.http_proxy, &other.http_proxy) && same_strings(
            &self.https_proxy,
            &other.https_proxy,
        )
    }
}

/// Whether two lists of strings are equal.
fn same_strings(a: &Vec<String>, b: &Vec<String>) -> (r: bool)
    ensures
        r == (a.deep_view() == b.deep_view()),
{
    if a.len() != b.len() {
        assert(a.deep_view().len() != b.deep_view().len());
        return false;
    }
    let mut i: usize = 0;
    while i < a.len()
        invariant
            i <= a.len(),
            a.len() == b.len(),
            forall|j: int| 0 <= j < i ==> a.deep_view()[j] == b.deep_view()[j],
        decreases a.len() - i,
    {
        if !crate::text::str_eq(a[i].as_str(), b[i].as_str()) {
            assert(a.deep_view()[i as int] != b.deep_view()[i as int]);
            return false;
        }
        i = i + 1;
    }
    assert(a.deep_view() =~= b.deep_view());
    true
}

} // verus!
