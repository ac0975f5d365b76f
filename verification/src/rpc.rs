use crate::text::push_char;
use vstd::prelude::*;

verus! {

/// The first parameter of a JSON-RPC call: one string or a list of strings.
pub enum RpcData {
    One(String),
    Many(Vec<String>),
}

/// A JSON-RPC call to a block engine: `{"id", "jsonrpc", "method", "params"}`
/// where `params` is `[data]`, followed by `{"encoding": "base64"}` when
/// `base64_encoded`.
pub struct RpcCall {
    pub id: u64,
    pub jsonrpc: String,
    pub method: String,
    pub data: RpcData,
    pub base64_encoded: bool,
}

/// A call of `method` with the standard header (`id` 1, JSON-RPC 2.0).
pub open spec fn is_call(c: RpcCall, method: Seq<char>, base64_encoded: bool) -> bool {
    &&& c.id == 1
    &&& c.jsonrpc@ == "2.0"@
    &&& c.method@ == method
    &&& c.base64_encoded == base64_encoded
}

fn call(method: &str, data: RpcData, base64_encoded: bool) -> (r: RpcCall)
    ensures
        is_call(r, method@, base64_encoded),
        r.data == data,
{
    RpcCall { id: 1, jsonrpc: "2.0".to_owned(), method: method.to_owned(), data, base64_encoded }
}

/// The call that sends one base64-encoded transaction.
pub fn transaction_call(data: String) -> (r: RpcCall)
    ensures
        is_call(r, "sendTransaction"@, true),
        r.data == RpcData::One(data),
{
    call("sendTransaction", RpcData::One(data), true)
}

/// The call that sends base64-encoded transactions as one bundle.
pub fn bundle_call(data: Vec<String>) -> (r: RpcCall)
    ensures
        is_call(r, "sendBundle"@, true),
        r.data == RpcData::Many(data),
{
    call("sendBundle", RpcData::Many(data), true)
}

/// The URL and call that ask the mainnet block engine for the statuses of
/// bundles.
pub fn bundle_statuses_call(bundle_ids: Vec<String>) -> (r: (String, RpcCall))
    ensures
        r.0@ == "https://mainnet.block-engine.jito.wtf/api/v1/getBundleStatuses"@,
        is_call(r.1, "getBundleStatuses"@, false),
        r.1.data == RpcData::Many(bundle_ids),
{
    (
        "https://mainnet.block-engine.jito.wtf/api/v1/getBundleStatuses".to_owned(),
        call("getBundleStatuses", RpcData::Many(bundle_ids), false),
    )
}

/// The URL and call that ask the mainnet block engine for the statuses of
/// in-flight bundles.
pub fn inflight_bundle_statuses_call(bundle_ids: Vec<String>) -> (r: (String, RpcCall))
    ensures
        r.0@ == "https://mainnet.block-engine.jito.wtf/api/v1/getInflightBundleStatuses"@,
        is_call(r.1, "getInflightBundleStatuses"@, false),
        r.1.data == RpcData::Many(bundle_ids),
{
    (
        "https://mainnet.block-engine.jito.wtf/api/v1/getInflightBundleStatuses".to_owned(),
        call("getInflightBundleStatuses", RpcData::Many(bundle_ids), false),
    )
}

/// Whether an HTTP status code reports success (`200` to `299`), as
/// `StatusCode::is_success` defines it.
pub fn is_success_status(code: u16) -> (r: bool)
    ensures
        r == (200 <= code < 300),
{
    200 <= code && code < 300
}

/// The message of a failed request: the status line, then the response
/// headers and body where they are reported, one per line.
pub open spec fn failure_text(
    status: Seq<char>,
    headers: Seq<char>,
    body: Seq<char>,
    read_headers: bool,
    read_body: bool,
) -> Seq<char> {
    match (read_headers, read_body) {
        (true, true) => status + "\n"@ + headers + "\n"@ + body,
        (true, false) => status + "\n"@ + headers,
        (false, true) => status + "\n"@ + body,
        (false, false) => status,
    }
}

/// The message of a failed request, from its status line and, where
/// reported, its formatted headers and its body.
pub fn failure_message(
    status: &str,
    headers: &str,
    body: &str,
    read_headers: bool,
    read_body: bool,
) -> (r: String)
    ensures
        r@ == failure_text(status@, headers@, body@, read_headers, read_body),
{
    let mut r = status.to_owned();
    if read_headers {
        r.append("\n");
        r.append(headers);
    }
    if read_body {
        r.append("\n");
        r.append(body);
    }
    r
}

/// Why no bundle id came back.
#[derive(Debug, Clone, Copy, PartialEq, Eq)]
pub enum BundleIdError {
    /// The response has no `x-bundle-id` header.
    MissingHeader,
    /// The `x-bundle-id` header is not visible ASCII.
    InvalidHeader,
    /// The JSON-RPC reply has no text `result`.
    MissingResult,
}

/// A byte that a header value may hold when read as text: visible ASCII or
/// horizontal tab (what `HeaderValue::to_str` accepts).
pub open spec fn is_visible_ascii(b: u8) -> bool {
    (32 <= b < 127) || b == 9
}

/// The characters of ASCII bytes.
pub open spec fn ascii_text(b: Seq<u8>) -> Seq<char> {
    b.map_values(|x: u8| x as char)
}

/// Whether every byte of `b` is visible ASCII or tab.
pub open spec fn all_visible_ascii(b: Seq<u8>) -> bool {
    forall|i: int| 0 <= i < b.len() ==> is_visible_ascii(#[trigger] b[i])
}

/// The bundle id that an `x-bundle-id` header with bytes `value` names, if the
/// header is there.
pub open spec fn bundle_id_of(value: Option<Seq<u8>>) -> Result<Seq<char>, BundleIdError> {
    match value {
        None => Err(BundleIdError::MissingHeader),
        Some(b) => if all_visible_ascii(b) {
            Ok(ascii_text(b))
        } else {
            Err(BundleIdError::InvalidHeader)
        },
    }
}

/// The bundle id that a transaction response names in its `x-bundle-id`
/// header, whose bytes are `value` if it has one.
pub fn bundle_id_from_header(value: Option<&[u8]>) -> (r: Result<String, BundleIdError>)
    ensures
        match (r, bundle_id_of(
            match value {
                Some(b) => Some(b@),
                None => None,
            },
        )) {
            (Ok(s), Ok(t)) => s@ == t,
            (Err(e), Err(f)) => e == f,
            _ => false,
        },
{
    match value {
        None => Err(BundleIdError::MissingHeader),
        Some(b) => {
            let mut s = String::new();
            let mut i: usize = 0;
            while i < b.len()
                invariant
                    value == Some(b),
                    i <= b@.len(),
                    s@ == ascii_text(b@.take(i as int)),
                    forall|k: int| 0 <= k < i ==> is_visible_ascii(#[trigger] b@[k]),
                decreases b@.len() - i,
            {
                let x = b[i];
                if !((32 <= x && x < 127) || x == 9) {
                    assert(!is_visible_ascii(b@[i as int]));
                    assert(!all_visible_ascii(b@));
                    return Err(BundleIdError::InvalidHeader);
                }
                push_char(&mut s, x as char);
                assert(ascii_text(b@.take(i + 1)) =~= ascii_text(b@.take(i as int)).push(
                    x as char,
                ));
                i = i + 1;
            }
            assert(b@.take(b@.len() as int) == b@);
            Ok(s)
        },
    }
}

/// The bundle id that a `sendBundle` reply names in its `result` field,
/// given as text where the field holds text: that text, or `MissingResult`.
pub fn bundle_id_from_result(result: Option<&str>) -> (r: Result<String, BundleIdError>)
    ensures
        match result {
            Some(t) => r matches Ok(s) && s@ == t@,
            None => r == Err::<String, BundleIdError>(BundleIdError::MissingResult),
        },
{
    match result {
        Some(t) => Ok(t.to_string()),
        None => Err(BundleIdError::MissingResult),
    }
}

impl BundleIdError {
    /// The message of this error.
    pub fn message(&self) -> (r: &'static str)
        ensures
            r@ == match self {
                BundleIdError::MissingHeader => "missing `x-bundle-id` header"@,
                BundleIdError::InvalidHeader => "invalid `x-bundle-id` header: failed to convert header to a str"@,
                BundleIdError::MissingResult => "missing bundle result"@,
            },
    {
        match self {
            BundleIdError::MissingHeader => "missing `x-bundle-id` header",
            BundleIdError::InvalidHeader => "invalid `x-bundle-id` header: failed to convert header to a str",
            BundleIdError::MissingResult => "missing bundle result",
        }
    }
}

/// Law: a missing `x-bundle-id` header is reported as missing; a header
/// whose bytes are all visible ASCII or tab, of any length, gives exactly
/// those characters, one per byte; a header with any other byte is refused
/// as invalid.
pub proof fn lemma_bundle_id_of(b: Seq<u8>)
    ensures
        bundle_id_of(None) == Err::<Seq<char>, BundleIdError>(BundleIdError::MissingHeader),
        (forall|i: int| 0 <= i < b.len() ==> (32 <= #[trigger] b[i] < 127 || b[i] == 9))
            ==> bundle_id_of(Some(b)) == Ok::<Seq<char>, BundleIdError>(
            Seq::new(b.len(), |i: int| b[i] as char),
        ),
        (exists|i: int| 0 <= i < b.len() && !(32 <= #[trigger] b[i] < 127 || b[i] == 9))
            ==> bundle_id_of(Some(b)) == Err::<Seq<char>, BundleIdError>(
            BundleIdError::InvalidHeader,
        ),
{
    assert(ascii_text(b) =~= Seq::new(b.len(), |i: int| b[i] as char));
}

} // verus!
