use crate::encoding::strings_view;
use crate::ip::{IpAddress, spec_localhost};
use core::time::Duration;
use reqwest::Proxy;
use reqwest::header::{HeaderMap, HeaderValue};
use vstd::arithmetic::div_mod::lemma_fundamental_div_mod_converse;
use vstd::prelude::*;

verus! {

/// A proxy setting, carried through to the HTTP clients as it is.
#[verifier::external_type_specification]
#[verifier::external_body]
pub struct ExProxy(Proxy);

/// Default headers, carried through to the HTTP clients as they are.
#[verifier::external_type_specification]
#[verifier::external_body]
#[verifier::reject_recursive_types(T)]
pub struct ExHeaderMap<T>(HeaderMap<T>);

/// A header value, the value type of `HeaderMap`.
#[verifier::external_type_specification]
#[verifier::external_body]
pub struct ExHeaderValue(HeaderValue);

/// Builder for configuring a Jito client: the endpoints, how requests reach
/// them, and which local addresses send them.
pub struct JitoClientBuilder {
    url: Vec<String>,
    broadcast: bool,
    interval: Option<Duration>,
    timeout: Option<Duration>,
    proxy: Option<Proxy>,
    headers: Option<HeaderMap>,
    ip: Vec<IpAddress>,
    headers_with_separator: Option<String>,
    error_read_headers: bool,
    error_read_body: bool,
}

/// The settings that a builder holds.
pub struct BuilderView {
    /// Target URLs.
    pub url: Seq<Seq<char>>,
    /// Whether each request goes to every URL.
    pub broadcast: bool,
    /// Least time between two uses of one entry; `None` for no limit.
    pub interval: Option<Duration>,
    /// Request timeout.
    pub timeout: Option<Duration>,
    /// Proxy of every request.
    pub proxy: Option<Proxy>,
    /// Headers of every request.
    pub headers: Option<HeaderMap>,
    /// Local addresses that requests are bound to; none for the default route.
    pub ip: Seq<IpAddress>,
    /// Separator after which a URL encodes headers.
    pub headers_with_separator: Option<Seq<char>>,
    /// Whether a failure reports the response headers.
    pub error_read_headers: bool,
    /// Whether a failure reports the response body.
    pub error_read_body: bool,
}

/// The characters of an optional string.
pub open spec fn opt_string_view(s: Option<String>) -> Option<Seq<char>> {
    match s {
        Some(t) => Some(t@),
        None => None,
    }
}

impl View for JitoClientBuilder {
    type V = BuilderView;

    closed spec fn view(&self) -> BuilderView {
        BuilderView {
            url: strings_view(self.url@),
            broadcast: self.broadcast,
            interval: self.interval,
            timeout: self.timeout,
            proxy: self.proxy,
            headers: self.headers,
            ip: self.ip@,
            headers_with_separator: opt_string_view(self.headers_with_separator),
            error_read_headers: self.error_read_headers,
            error_read_body: self.error_read_body,
        }
    }
}

/// One load-balancing entry that a client will hold: the URLs that a request
/// through it goes to (all of them at once where there are several), and the
/// local address that it is bound to.
pub struct EntryPlan {
    pub urls: Vec<String>,
    pub ip: IpAddress,
    /// Whether requests are bound to `ip`; when not, `ip` is `127.0.0.1`
    /// and the system picks the route.
    pub bind: bool,
}

/// An entry as plain values.
pub struct EntrySpec {
    pub urls: Seq<Seq<char>>,
    pub ip: IpAddress,
    pub bind: bool,
}

impl EntryPlan {
    pub open spec fn spec_view(&self) -> EntrySpec {
        EntrySpec { urls: strings_view(self.urls@), ip: self.ip, bind: self.bind }
    }
}

/// Everything a client is made from: its entries and the settings that every
/// request shares.
pub struct ClientPlan {
    pub entries: Vec<EntryPlan>,
    /// Least time between two uses of one entry; `None` for no limit.
    pub interval: Option<Duration>,
    pub timeout: Option<Duration>,
    pub proxy: Option<Proxy>,
    pub headers: Option<HeaderMap>,
    pub headers_with_separator: Option<String>,
    pub error_read_headers: bool,
    pub error_read_body: bool,
}

/// The entries of a plan as plain values.
pub open spec fn entries_view(entries: Seq<EntryPlan>) -> Seq<EntrySpec> {
    entries.map_values(|e: EntryPlan| e.spec_view())
}

/// The entries that a client has. In broadcast mode, one entry per local
/// address (one unbound entry when there is none), each sending to every
/// URL. Otherwise one entry per URL and local address, URL by URL, each
/// sending to its one URL.
pub open spec fn planned_entries(urls: Seq<Seq<char>>, ips: Seq<IpAddress>, broadcast: bool) -> Seq<
    EntrySpec,
> {
    if broadcast {
        if ips.len() == 0 {
            seq![EntrySpec { urls: urls, ip: spec_localhost(), bind: false }]
        } else {
            Seq::new(ips.len(), |j: int| EntrySpec { urls: urls, ip: ips[j], bind: true })
        }
    } else {
        if ips.len() == 0 {
            Seq::new(
                urls.len(),
                |i: int| EntrySpec { urls: seq![urls[i]], ip: spec_localhost(), bind: false },
            )
        } else {
            Seq::new(
                urls.len() * ips.len(),
                |k: int|
                    EntrySpec {
                        urls: seq![urls[k / ips.len() as int]],
                        ip: ips[k % ips.len() as int],
                        bind: true,
                    },
            )
        }
    }
}

fn clone_strings(v: &Vec<String>) -> (r: Vec<String>)
    ensures
        strings_view(r@) == strings_view(v@),
{
    let mut r: Vec<String> = Vec::new();
    let mut i: usize = 0;
    while i < v.len()
        invariant
            i <= v@.len(),
            strings_view(r@) == strings_view(v@).take(i as int),
        decreases v@.len() - i,
    {
        let ghost before = r@;
        let s = v[i].clone();
        r.push(s);
        assert(strings_view(r@) =~= strings_view(before).push(s@));
        assert(strings_view(v@).take(i + 1) =~= strings_view(v@).take(i as int).push(
            strings_view(v@)[i as int],
        ));
        i = i + 1;
    }
    assert(strings_view(v@).take(v@.len() as int) =~= strings_view(v@));
    r
}

fn single_url(u: &String) -> (r: Vec<String>)
    ensures
        strings_view(r@) == seq![u@],
{
    let mut r: Vec<String> = Vec::new();
    r.push(u.clone());
    assert(strings_view(r@) =~= seq![u@]);
    r
}

impl JitoClientBuilder {
    /// A builder with the default settings: the mainnet block engine, no
    /// broadcast, no rate limit, no timeout, proxy or headers, no local
    /// address, and failures that report the status alone.
    pub fn new() -> (r: Self)
        ensures
            r@ == (BuilderView {
                url: seq!["https://mainnet.block-engine.jito.wtf"@],
                broadcast: false,
                interval: None,
                timeout: None,
                proxy: None,
                headers: None,
                ip: seq![],
                headers_with_separator: None,
                error_read_headers: false,
                error_read_body: false,
            }),
    {
        let mut url: Vec<String> = Vec::new();
        url.push("https://mainnet.block-engine.jito.wtf".to_owned());
        let r = JitoClientBuilder {
            url,
            broadcast: false,
            interval: None,
            timeout: None,
            proxy: None,
            headers: None,
            ip: Vec::new(),
            headers_with_separator: None,
            error_read_headers: false,
            error_read_body: false,
        };
        assert(r@.url =~= seq!["https://mainnet.block-engine.jito.wtf"@]);
        assert(r@.ip =~= Seq::<IpAddress>::empty());
        r
    }

    /// Sets the target URLs.
    pub fn url(self, url: &[&str]) -> (r: Self)
        ensures
            r@ == (BuilderView { url: url@.map_values(|s: &str| s@), ..self@ }),
    {
        let mut v: Vec<String> = Vec::new();
        let mut i: usize = 0;
        while i < url.len()
            invariant
                i <= url@.len(),
                strings_view(v@) == url@.map_values(|s: &str| s@).take(i as int),
            decreases url@.len() - i,
        {
            let ghost before = v@;
            let s = url[i].to_owned();
            v.push(s);
            assert(strings_view(v@) =~= strings_view(before).push(s@));
            assert(url@.map_values(|s: &str| s@).take(i + 1) =~= url@.map_values(|s: &str| s@).take(
                i as int,
            ).push(url@[i as int]@));
            i = i + 1;
        }
        assert(url@.map_values(|s: &str| s@).take(url@.len() as int) =~= url@.map_values(
            |s: &str| s@,
        ));
        JitoClientBuilder { url: v, ..self }
    }

    /// Sets the least time between two uses of one entry (zero for no
    /// limit); 200 ms allows 5 requests per second through each entry.
    pub fn interval(self, interval: Duration) -> (r: Self)
        ensures
            r@ == (BuilderView { interval: Some(interval), ..self@ }),
    {
        JitoClientBuilder { interval: Some(interval), ..self }
    }

    /// Sets the local addresses that outgoing requests are bound to.
    pub fn ip(self, ip: Vec<IpAddress>) -> (r: Self)
        ensures
            r@ == (BuilderView { ip: ip@, ..self@ }),
    {
        JitoClientBuilder { ip, ..self }
    }

    /// Whether each request goes to all the URLs at once.
    pub fn broadcast(self, broadcast: bool) -> (r: Self)
        ensures
            r@ == (BuilderView { broadcast, ..self@ }),
    {
        JitoClientBuilder { broadcast, ..self }
    }

    /// Sets the timeout of every request.
    pub fn timeout(self, timeout: Duration) -> (r: Self)
        ensures
            r@ == (BuilderView { timeout: Some(timeout), ..self@ }),
    {
        JitoClientBuilder { timeout: Some(timeout), ..self }
    }

    /// Sets the proxy of every request.
    pub fn proxy(self, proxy: Proxy) -> (r: Self)
        ensures
            r@ == (BuilderView { proxy: Some(proxy), ..self@ }),
    {
        JitoClientBuilder { proxy: Some(proxy), ..self }
    }

    /// Sets the headers of every request.
    pub fn headers(self, headers: HeaderMap) -> (r: Self)
        ensures
            r@ == (BuilderView { headers: Some(headers), ..self@ }),
    {
        JitoClientBuilder { headers: Some(headers), ..self }
    }

    /// Whether a failed request reports the response headers.
    pub fn error_read_headers(self, error_read_headers: bool) -> (r: Self)
        ensures
            r@ == (BuilderView { error_read_headers, ..self@ }),
    {
        JitoClientBuilder { error_read_headers, ..self }
    }

    /// Whether a failed request reports the response body.
    pub fn error_read_body(self, error_read_body: bool) -> (r: Self)
        ensures
            r@ == (BuilderView { error_read_body, ..self@ }),
    {
        JitoClientBuilder { error_read_body, ..self }
    }

    /// Sets the separator after which a URL encodes headers, e.g. with `":"`,
    /// `https://google.com:key1=value1&key2=value2` sends the headers
    /// `key1: value1` and `key2: value2` to `https://google.com`.
    pub fn headers_with_separator(self, headers_with_separator: &str) -> (r: Self)
        ensures
            r@ == (BuilderView { headers_with_separator: Some(headers_with_separator@), ..self@ }),
    {
        JitoClientBuilder { headers_with_separator: Some(headers_with_separator.to_owned()), ..self }
    }

    /// The entries and shared settings of the client that this builder
    /// configures.
    pub fn plan(self) -> (r: ClientPlan)
        ensures
            entries_view(r.entries@) == planned_entries(self@.url, self@.ip, self@.broadcast),
            r.interval == self@.interval,
            r.timeout == self@.timeout,
            r.proxy == self@.proxy,
            r.headers == self@.headers,
            opt_string_view(r.headers_with_separator) == self@.headers_with_separator,
            r.error_read_headers == self@.error_read_headers,
            r.error_read_body == self@.error_read_body,
    {
        let ghost urls = strings_view(self.url@);
        let ghost ips = self.ip@;
        let mut entries: Vec<EntryPlan> = Vec::new();
        if self.broadcast {
            if self.ip.len() == 0 {
                entries.push(
                    EntryPlan { urls: clone_strings(&self.url), ip: IpAddress::localhost(), bind: false },
                );
                assert(entries_view(entries@) =~= planned_entries(urls, ips, true));
            } else {
                let mut j: usize = 0;
                while j < self.ip.len()
                    invariant
                        j <= ips.len(),
                        ips == self.ip@,
                        urls == strings_view(self.url@),
                        entries_view(entries@) =~= planned_entries(urls, ips, true).take(j as int),
                    decreases ips.len() - j,
                {
                    let ghost before = entries@;
                    let e = EntryPlan { urls: clone_strings(&self.url), ip: self.ip[j], bind: true };
                    entries.push(e);
                    assert(entries_view(entries@) =~= entries_view(before).push(e.spec_view()));
                    assert(planned_entries(urls, ips, true).take(j + 1) =~= planned_entries(
                        urls,
                        ips,
                        true,
                    ).take(j as int).push(e.spec_view()));
                    j = j + 1;
                }
                assert(planned_entries(urls, ips, true).take(ips.len() as int) =~= planned_entries(
                    urls,
                    ips,
                    true,
                ));
            }
        } else {
            let n = self.ip.len();
            let mut i: usize = 0;
            while i < self.url.len()
                invariant
                    i <= urls.len(),
                    n == ips.len(),
                    ips == self.ip@,
                    urls == strings_view(self.url@),
                    entries_view(entries@) =~= planned_entries(urls, ips, false).take(
                        i * (if n == 0 { 1 } else { n }),
                    ),
                decreases urls.len() - i,
            {
                if n == 0 {
                    let ghost before = entries@;
                    let e = EntryPlan {
                        urls: single_url(&self.url[i]),
                        ip: IpAddress::localhost(),
                        bind: false,
                    };
                    entries.push(e);
                    assert(entries_view(entries@) =~= entries_view(before).push(e.spec_view()));
                    assert(planned_entries(urls, ips, false).take(i + 1) =~= planned_entries(
                        urls,
                        ips,
                        false,
                    ).take(i as int).push(e.spec_view()));
                } else {
                    let mut j: usize = 0;
                    while j < n
                        invariant
                            j <= n,
                            i < urls.len(),
                            n == ips.len(),
                            n > 0,
                            ips == self.ip@,
                            urls == strings_view(self.url@),
                            entries_view(entries@) =~= planned_entries(urls, ips, false).take(
                                i * n + j,
                            ),
                        decreases n - j,
                    {
                        proof {
                            lemma_fundamental_div_mod_converse(
                                i * n + j,
                                n as int,
                                i as int,
                                j as int,
                            );
                            assert(i * n + j < urls.len() * n) by (nonlinear_arith)
                                requires
                                    i < urls.len(),
                                    j < n,
                            ;
                        }
                        let ghost before = entries@;
                        let e = EntryPlan {
                            urls: single_url(&self.url[i]),
                            ip: self.ip[j],
                            bind: true,
                        };
                        entries.push(e);
                        assert(entries_view(entries@) =~= entries_view(before).push(e.spec_view()));
                        assert(planned_entries(urls, ips, false).take(i * n + j + 1)
                            =~= planned_entries(urls, ips, false).take(i * n + j).push(
                            e.spec_view(),
                        ));
                        j = j + 1;
                    }
                    assert((i + 1) * n == i * n + n) by (nonlinear_arith);
                }
                i = i + 1;
            }
            assert(planned_entries(urls, ips, false).take(
                urls.len() * (if n == 0 { 1 } else { n }),
            ) =~= planned_entries(urls, ips, false));
        }
        ClientPlan {
            entries,
            interval: self.interval,
            timeout: self.timeout,
            proxy: self.proxy,
            headers: self.headers,
            headers_with_separator: self.headers_with_separator,
            error_read_headers: self.error_read_headers,
            error_read_body: self.error_read_body,
        }
    }
}

/// Law: a client has one entry per local address in broadcast mode and one
/// per URL and local address otherwise (with one unbound entry standing for
/// no address), so with 3 URLs and 1 address it has 3 entries, each allowed
/// one request per interval.
pub proof fn lemma_entry_count(urls: Seq<Seq<char>>, ips: Seq<IpAddress>, broadcast: bool)
    ensures
        planned_entries(urls, ips, broadcast).len() == if broadcast {
            if ips.len() == 0 { 1 } else { ips.len() as int }
        } else {
            urls.len() * (if ips.len() == 0 { 1 } else { ips.len() as int })
        },
{
}

/// Law: in broadcast mode every entry sends to all the URLs, one entry per
/// local address in order (or one unbound entry); otherwise each entry sends
/// to exactly one URL: with no local address, entry `i` sends to URL `i`
/// unbound, and with local addresses, every pair of a URL and an address has
/// its entry, URL by URL. An entry is bound to a local address exactly when
/// local addresses are set.
pub proof fn lemma_entries_cover_urls_and_addresses(
    urls: Seq<Seq<char>>,
    ips: Seq<IpAddress>,
    broadcast: bool,
)
    ensures
        forall|k: int|
            0 <= k < planned_entries(urls, ips, broadcast).len() ==> {
                let e = #[trigger] planned_entries(urls, ips, broadcast)[k];
                &&& e.bind == (ips.len() > 0)
                &&& broadcast ==> e.urls == urls
                &&& !broadcast ==> e.urls.len() == 1
            },
        !broadcast && ips.len() == 0 ==> forall|i: int|
            0 <= i < urls.len() ==> #[trigger] planned_entries(urls, ips, broadcast)[i] == (
            EntrySpec { urls: seq![urls[i]], ip: spec_localhost(), bind: false }),
        broadcast && ips.len() > 0 ==> forall|j: int|
            0 <= j < ips.len() ==> #[trigger] planned_entries(urls, ips, broadcast)[j] == (
            EntrySpec { urls: urls, ip: ips[j], bind: true }),
        broadcast && ips.len() == 0 ==> planned_entries(urls, ips, broadcast) == seq![
            EntrySpec { urls: urls, ip: spec_localhost(), bind: false },
        ],
        !broadcast && ips.len() > 0 ==> forall|i: int, j: int|
            0 <= i < urls.len() && 0 <= j < ips.len() ==> {
                let e = #[trigger] planned_entries(urls, ips, broadcast)[i * ips.len() + j];
                &&& e.urls == seq![urls[i]]
                &&& e.ip == ips[j]
            },
{
    if !broadcast && ips.len() > 0 {
        let n = ips.len() as int;
        assert forall|i: int, j: int| 0 <= i < urls.len() && 0 <= j < ips.len() implies {
            let e = #[trigger] planned_entries(urls, ips, broadcast)[i * ips.len() + j];
            &&& e.urls == seq![urls[i]]
            &&& e.ip == ips[j]
        } by {
            lemma_fundamental_div_mod_converse(i * n + j, n, i, j);
            assert(i * n + j < urls.len() * n) by (nonlinear_arith)
                requires
                    0 <= i < urls.len(),
                    0 <= j < n,
            ;
        }
    }
}

} // verus!
