use vstd::prelude::*;

use rand::seq::IteratorRandom;

use crate::anime::strings;
use crate::cli::search::nonempty;
use crate::error::UrlError;
use crate::text::{chars_of, decimal, decimal_string, split, split_by, string_of, views, CharClass};

verus! {

/// Where and how to ask for a list of proxies.
#[derive(Debug, Clone, Copy)]
pub struct ProxyConfig {
    base_url: &'static str,
    request: &'static str,
    proxy_type: &'static str,
    timeout: u32,
    country: &'static str,
    ssl: &'static str,
    anonymity: &'static str,
}

/// What a proxy configuration holds.
pub struct ProxyView {
    pub base_url: Seq<char>,
    pub request: Seq<char>,
    pub proxy_type: Seq<char>,
    pub timeout: u32,
    pub country: Seq<char>,
    pub ssl: Seq<char>,
    pub anonymity: Seq<char>,
}

impl View for ProxyConfig {
    type V = ProxyView;

    closed spec fn view(&self) -> ProxyView {
        ProxyView {
            base_url: self.base_url@,
            request: self.request@,
            proxy_type: self.proxy_type@,
            timeout: self.timeout,
            country: self.country@,
            ssl: self.ssl@,
            anonymity: self.anonymity@,
        }
    }
}

/// The query that asks for the list.
pub open spec fn proxy_query(c: ProxyView) -> Seq<(Seq<char>, Seq<char>)> {
    seq![
        ("request"@, c.request),
        ("proxytype"@, c.proxy_type),
        ("timeout"@, decimal(c.timeout as nat)),
        ("country"@, c.country),
        ("ssl"@, c.ssl),
        ("anonymity"@, c.anonymity),
    ]
}

/// The URL `base` parsed by `url::Url::parse`, with the pairs appended to its query by
/// `query_pairs_mut().append_pair`, written out: `None` where `base` is not a URL.
pub uninterp spec fn url_with_query(base: Seq<char>, pairs: Seq<(Seq<char>, Seq<char>)>) -> Option<Seq<char>>;

/// The views of a list of string pairs.
pub open spec fn pair_views(v: Seq<(String, String)>) -> Seq<(Seq<char>, Seq<char>)> {
    v.map_values(|p: (String, String)| (p.0@, p.1@))
}

/// The view of an optional string.
pub open spec fn opt_view(r: Option<String>) -> Option<Seq<char>> {
    match r {
        Some(s) => Some(s@),
        None => None,
    }
}

/// Parses `base` with `reqwest::Url::parse`, appends each pair with
/// `query_pairs_mut().append_pair` and writes the URL out.
#[verifier::external_body]
fn query_url(base: &str, pairs: &Vec<(String, String)>) -> (r: Option<String>)
    ensures
        opt_view(r) == url_with_query(base@, pair_views(pairs@)),
{
    let mut url = reqwest::Url::parse(base).ok()?;
    {
        let mut query = url.query_pairs_mut();
        for (k, v) in pairs {
            query.append_pair(k, v);
        }
    }
    Some(url.to_string())
}

impl ProxyConfig {
    /// The settings of the proxy list service.
    pub fn new() -> (r: Self)
        ensures
            r@.base_url == "https://api.proxyscrape.com/"@,
            r@.request == "getproxies"@,
            r@.proxy_type == "http"@,
            r@.timeout == 2000,
            r@.country == "all"@,
            r@.ssl == "all"@,
            r@.anonymity == "elite"@,
    {
        ProxyConfig {
            base_url: "https://api.proxyscrape.com/",
            request: "getproxies",
            proxy_type: "http",
            timeout: 2000,
            country: "all",
            ssl: "all",
            anonymity: "elite",
        }
    }

    /// The URL that asks the service for the list.
    pub fn to_url(&self) -> (r: Result<String, UrlError>)
        ensures
            match url_with_query(self@.base_url, proxy_query(self@)) {
                Some(u) => r matches Ok(x) && x@ == u,
                None => r == Err::<String, UrlError>(UrlError::Unparsable),
            },
    {
        let mut pairs: Vec<(String, String)> = Vec::new();
        pairs.push(("request".to_owned(), self.request.to_owned()));
        pairs.push(("proxytype".to_owned(), self.proxy_type.to_owned()));
        pairs.push(("timeout".to_owned(), decimal_string(self.timeout as u64)));
        pairs.push(("country".to_owned(), self.country.to_owned()));
        pairs.push(("ssl".to_owned(), self.ssl.to_owned()));
        pairs.push(("anonymity".to_owned(), self.anonymity.to_owned()));
        assert(pair_views(pairs@) =~= proxy_query(self@));
        match query_url(self.base_url, &pairs) {
            Some(u) => Ok(u),
            None => Err(UrlError::Unparsable),
        }
    }
}

impl Default for ProxyConfig {
    fn default() -> (r: Self)
        ensures
            r@.base_url == "https://api.proxyscrape.com/"@,
            r@.request == "getproxies"@,
            r@.proxy_type == "http"@,
            r@.timeout == 2000,
            r@.country == "all"@,
            r@.ssl == "all"@,
            r@.anonymity == "elite"@,
    {
        ProxyConfig::new()
    }
}

/// Picks one of `n` items at random, with `rand::seq::IteratorRandom::choose` over `0..n`
/// and the thread's generator. Which one comes out is left open: only that it is one of them,
/// and that nothing comes out only where there are none.
#[verifier::external_body]
fn random_index(n: usize) -> (r: Option<usize>)
    ensures
        match r {
            Some(i) => i < n,
            None => n == 0,
        },
{
    (0..n).choose(&mut rand::rng())
}

/// The addresses in the list that the service sends: its non-empty pieces between ASCII
/// white space.
pub open spec fn listed_proxies(list: Seq<char>) -> Seq<Seq<char>> {
    nonempty(split_by(list, CharClass::AsciiWhitespace))
}

/// The address of a proxy, as the scraper uses it.
pub open spec fn proxy_address(p: Seq<char>) -> Seq<char> {
    "https://"@ + p
}

/// The addresses in the list that the service sends.
pub fn proxy_list(list: &str) -> (r: Vec<String>)
    ensures
        strings(r@) == listed_proxies(list@),
{
    let cs = chars_of(list);
    let pieces = split(cs.as_slice(), CharClass::AsciiWhitespace);
    let ghost ps = views(pieces@);
    let mut out: Vec<String> = Vec::new();
    let mut i: usize = 0;
    while i < pieces.len()
        invariant
            i <= pieces.len(),
            ps == views(pieces@),
            ps.len() == pieces.len(),
            strings(out@) == nonempty(ps.take(i as int)),
        decreases pieces.len() - i,
    {
        assert(ps.take(i + 1).drop_last() == ps.take(i as int));
        assert(ps.take(i + 1).last() == pieces@[i as int]@);
        if pieces[i].len() > 0 {
            let ghost before = out@;
            out.push(string_of(pieces[i].as_slice()));
            assert(strings(out@) =~= strings(before).push(pieces@[i as int]@));
        }
        i += 1;
    }
    assert(ps.take(pieces.len() as int) == ps);
    out
}

/// The address of a proxy.
pub fn proxy_url(p: &str) -> (r: String)
    ensures
        r@ == proxy_address(p@),
{
    let mut out = chars_of("https://");
    let ghost base = out@;
    let ps = chars_of(p);
    let mut i: usize = 0;
    while i < ps.len()
        invariant
            i <= ps.len(),
            out@ == base + ps@.take(i as int),
        decreases ps.len() - i,
    {
        out.push(ps[i]);
        i += 1;
        assert(out@ =~= base + ps@.take(i as int));
    }
    assert(ps@.take(i as int) =~= ps@);
    string_of(out.as_slice())
}

/// Picks one of the proxies that the service listed, at random; `None` where it listed none.
pub fn choose_proxy(list: &str) -> (r: Option<String>)
    ensures
        listed_proxies(list@).len() == 0 <==> r is None,
        r matches Some(p) ==> exists|i: int| 0 <= i < listed_proxies(list@).len() && p@ == proxy_address(#[trigger] listed_proxies(list@)[i]),
{
    let proxies = proxy_list(list);
    assert(strings(proxies@).len() == proxies@.len());
    match random_index(proxies.len()) {
        Some(i) => {
            let p = proxy_url(proxies[i].as_str());
            assert(strings(proxies@)[i as int] == proxies@[i as int]@);
            Some(p)
        },
        None => None,
    }
}

} // verus!
