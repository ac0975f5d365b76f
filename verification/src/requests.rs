use crate::headers::{HeaderError, HeaderFault, opt_str_view, pairs_view, split_url, split_url_spec};
use vstd::prelude::*;

verus! {

/// Where on a block engine a request is sent.
pub enum Endpoint {
    /// The target URL itself.
    Base,
    /// The target URL followed by this path.
    Api(String),
    /// The transactions API; with `bundle_only`, the request carries the
    /// query `bundleOnly=true`.
    Transactions { bundle_only: bool },
    /// The bundles API.
    Bundles,
}

/// The path that an endpoint appends to the target URL.
pub open spec fn endpoint_path(e: Endpoint) -> Seq<char> {
    match e {
        Endpoint::Base => seq![],
        Endpoint::Api(p) => p@,
        Endpoint::Transactions { .. } => "/api/v1/transactions"@,
        Endpoint::Bundles => "/api/v1/bundles"@,
    }
}

/// Whether an endpoint's requests carry the query `bundleOnly=true`.
pub open spec fn endpoint_bundle_only(e: Endpoint) -> bool {
    match e {
        Endpoint::Transactions { bundle_only } => bundle_only,
        _ => false,
    }
}

/// A POST request to send: its URL, its own headers (canonical names, each
/// once), and whether it carries the query `bundleOnly=true`.
pub struct PostRequest {
    pub url: String,
    pub headers: Vec<(String, String)>,
    pub bundle_only: bool,
}

/// A request as plain values.
pub struct PostView {
    pub url: Seq<char>,
    pub headers: Seq<(Seq<char>, Seq<char>)>,
    pub bundle_only: bool,
}

impl PostRequest {
    pub open spec fn spec_view(&self) -> PostView {
        PostView { url: self.url@, headers: pairs_view(self.headers@), bundle_only: self.bundle_only }
    }
}

/// The request that a target URL and an endpoint give: the URL proper (the
/// target without its encoded headers) followed by the endpoint's path, with
/// the encoded headers.
pub open spec fn planned_post(target: Seq<char>, separator: Option<Seq<char>>, e: Endpoint) -> Result<
    PostView,
    HeaderFault,
> {
    match split_url_spec(target, separator) {
        Ok((base, headers)) => Ok(
            PostView {
                url: base + endpoint_path(e),
                headers: headers,
                bundle_only: endpoint_bundle_only(e),
            },
        ),
        Err(f) => Err(f),
    }
}

/// Whether a planned request agrees with its specification.
pub open spec fn post_matches(r: Result<PostRequest, HeaderError>, s: Result<PostView, HeaderFault>) -> bool {
    match (r, s) {
        (Ok(p), Ok(v)) => p.spec_view() == v,
        (Err(e), Err(f)) => e.fault() == f,
        _ => false,
    }
}

/// The POST request to one target URL for an endpoint; the headers encoded
/// in the target after `separator` are refused if invalid.
pub fn plan_post(target: &str, separator: Option<&str>, endpoint: &Endpoint) -> (r: Result<
    PostRequest,
    HeaderError,
>)
    ensures
        post_matches(r, planned_post(target@, opt_str_view(separator), *endpoint)),
{
    match split_url(target, separator) {
        Err(e) => Err(e),
        Ok((base, headers)) => {
            let mut url = base;
            let bundle_only = match endpoint {
                Endpoint::Base => false,
                Endpoint::Api(path) => {
                    url.append(path.as_str());
                    false
                },
                Endpoint::Transactions { bundle_only } => {
                    url.append("/api/v1/transactions");
                    *bundle_only
                },
                Endpoint::Bundles => {
                    url.append("/api/v1/bundles");
                    false
                },
            };
            proof {
                if let Endpoint::Base = endpoint {
                    assert(url@ =~= url@ + endpoint_path(*endpoint));
                }
            }
            Ok(PostRequest { url, headers, bundle_only })
        },
    }
}

/// The POST requests of one send through an entry: one per target URL of the
/// entry, in order.
pub fn plan_posts(targets: &Vec<String>, separator: Option<&str>, endpoint: &Endpoint) -> (r: Vec<
    Result<PostRequest, HeaderError>,
>)
    ensures
        r@.len() == targets@.len(),
        forall|i: int|
            0 <= i < targets@.len() ==> post_matches(
                #[trigger] r@[i],
                planned_post(targets@[i]@, opt_str_view(separator), *endpoint),
            ),
{
    let mut r: Vec<Result<PostRequest, HeaderError>> = Vec::new();
    let mut i: usize = 0;
    while i < targets.len()
        invariant
            i <= targets@.len(),
            r@.len() == i,
            forall|k: int|
                0 <= k < i ==> post_matches(
                    #[trigger] r@[k],
                    planned_post(targets@[k]@, opt_str_view(separator), *endpoint),
                ),
        decreases targets@.len() - i,
    {
        let p = plan_post(targets[i].as_str(), separator, endpoint);
        r.push(p);
        i = i + 1;
    }
    r
}

/// Law: each endpoint sends to the URL proper followed by its own fixed
/// path, with the headers that the target encodes: the transactions API to
/// `/api/v1/transactions` whether or not the request is bundle-only (the
/// flag only adds the query), the bundles API to `/api/v1/bundles`, an API
/// path to that path, and the base endpoint to the URL proper itself. Only
/// the transactions API with `bundle_only` asks for the query. A target whose
/// headers are refused is refused for every endpoint, the same way.
pub proof fn lemma_planned_post_paths(
    target: Seq<char>,
    separator: Option<Seq<char>>,
    bundle_only: bool,
    path: String,
)
    ensures
        match split_url_spec(target, separator) {
            Ok((base, h)) => {
                &&& planned_post(target, separator, Endpoint::Transactions { bundle_only })
                    == Ok::<PostView, HeaderFault>(
                    PostView { url: base + "/api/v1/transactions"@, headers: h, bundle_only },
                )
                &&& planned_post(target, separator, Endpoint::Bundles) == Ok::<
                    PostView,
                    HeaderFault,
                >(PostView { url: base + "/api/v1/bundles"@, headers: h, bundle_only: false })
                &&& planned_post(target, separator, Endpoint::Api(path)) == Ok::<
                    PostView,
                    HeaderFault,
                >(PostView { url: base + path@, headers: h, bundle_only: false })
                &&& planned_post(target, separator, Endpoint::Base) == Ok::<PostView, HeaderFault>(
                    PostView { url: base, headers: h, bundle_only: false },
                )
            },
            Err(f) => {
                &&& planned_post(target, separator, Endpoint::Transactions { bundle_only })
                    == Err::<PostView, HeaderFault>(f)
                &&& planned_post(target, separator, Endpoint::Bundles) == Err::<
                    PostView,
                    HeaderFault,
                >(f)
                &&& planned_post(target, separator, Endpoint::Api(path)) == Err::<
                    PostView,
                    HeaderFault,
                >(f)
                &&& planned_post(target, separator, Endpoint::Base) == Err::<PostView, HeaderFault>(
                    f,
                )
            },
        },
{
    if let Ok((base, h)) = split_url_spec(target, separator) {
        assert(base + Seq::<char>::empty() =~= base);
    }
}

} // verus!
