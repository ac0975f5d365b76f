use crate::text::{
    chars_of, find_first_from, first_occurrence_from, lemma_first_occurrence_from, occurs_at,
    string_from_char_range,
};
use reqwest::header::{HeaderName, HeaderValue, InvalidHeaderName, InvalidHeaderValue};
use vstd::prelude::*;
use vstd::utf8::encode_utf8;

verus! {

/// The error of `HeaderName::from_bytes`, carried through as it is.
#[verifier::external_type_specification]
#[verifier::external_body]
pub struct ExInvalidHeaderName(InvalidHeaderName);

/// The error of `HeaderValue::from_str`, carried through as it is.
#[verifier::external_type_specification]
#[verifier::external_body]
pub struct ExInvalidHeaderValue(InvalidHeaderValue);

/// The name/value pairs of an `application/x-www-form-urlencoded` text, as
/// `form_urlencoded::parse` decodes them.
pub uninterp spec fn form_urlencoded_pairs(input: Seq<u8>) -> Seq<(Seq<char>, Seq<char>)>;

/// The pairs of `v` as character sequences.
pub open spec fn pairs_view(v: Seq<(String, String)>) -> Seq<(Seq<char>, Seq<char>)> {
    v.map_values(|p: (String, String)| (p.0@, p.1@))
}

/// `form_urlencoded::parse` followed by `into_owned`: the decoded name/value
/// pairs of `input`, in order. What the decoding gives (splitting on `&` and
/// `=`, `+` as space, percent-decoding, lossy UTF-8) is left to the name
/// `form_urlencoded_pairs`; it depends on `input` alone.
#[verifier::external_body]
fn form_pairs(input: &[u8]) -> (r: Vec<(String, String)>)
    ensures
        pairs_view(r@) == form_urlencoded_pairs(input@),
{
    form_urlencoded::parse(input).into_owned().collect()
}

/// A character that may stand in an HTTP header name (an RFC 7230 `tchar`).
pub open spec fn is_token_char(c: char) -> bool {
    let n = c as u32;
    ||| 'a' as u32 <= n <= 'z' as u32
    ||| 'A' as u32 <= n <= 'Z' as u32
    ||| '0' as u32 <= n <= '9' as u32
    ||| c == '!' || c == '#' || c == '$' || c == '%' || c == '&' || c == '\'' || c == '*'
    ||| c == '+' || c == '-' || c == '.' || c == '^' || c == '_' || c == '`' || c == '|'
    ||| c == '~'
}

/// A valid HTTP header name: 1 to 65535 token characters.
pub open spec fn valid_header_name(k: Seq<char>) -> bool {
    &&& 0 < k.len() <= 65535
    &&& forall|i: int| 0 <= i < k.len() ==> is_token_char(#[trigger] k[i])
}

/// ASCII upper case letters in lower case; other characters unchanged.
pub open spec fn ascii_lowercase(c: char) -> char {
    if 'A' as u32 <= c as u32 <= 'Z' as u32 {
        ((c as u32) + 32) as char
    } else {
        c
    }
}

/// The canonical (lower case) form of a header name.
pub open spec fn canonical_header_name(k: Seq<char>) -> Seq<char> {
    k.map_values(|c: char| ascii_lowercase(c))
}

/// A valid HTTP header value: no control character but horizontal tab.
pub open spec fn valid_header_value(v: Seq<char>) -> bool {
    forall|i: int|
        0 <= i < v.len() ==> ((#[trigger] v[i] as u32 >= 32 && v[i] as u32 != 127) || v[i]
            == '\t')
}

/// `HeaderName::from_bytes` on the UTF-8 bytes of `k`, read back with
/// `as_str`: it accepts exactly 1 to 65535 token characters and gives them in
/// lower case.
#[verifier::external_body]
fn header_name(k: &str) -> (r: Result<String, InvalidHeaderName>)
    ensures
        r is Ok <==> valid_header_name(k@),
        r matches Ok(n) ==> n@ == canonical_header_name(k@),
{
    match HeaderName::from_bytes(k.as_bytes()) {
        Ok(n) => Ok(n.as_str().to_string()),
        Err(e) => Err(e),
    }
}

/// `HeaderValue::from_str` (what `str::parse` calls): it accepts exactly the
/// texts whose UTF-8 bytes are tab or at least 32 and not 127, that is the
/// texts without a control character but tab.
#[verifier::external_body]
fn header_value(v: &str) -> (r: Result<(), InvalidHeaderValue>)
    ensures
        r is Ok <==> valid_header_value(v@),
{
    match v.parse::<HeaderValue>() {
        Ok(_) => Ok(()),
        Err(e) => Err(e),
    }
}

/// Why the headers encoded in a URL were refused.
#[derive(Debug)]
pub enum HeaderError {
    /// A header name is not a valid HTTP header name.
    InvalidName(InvalidHeaderName),
    /// A header value is not a valid HTTP header value.
    InvalidValue(InvalidHeaderValue),
}

/// The kind of a refused header.
#[derive(Debug, Clone, Copy, PartialEq, Eq)]
pub enum HeaderFault {
    InvalidName,
    InvalidValue,
}

impl HeaderError {
    /// The kind of this error.
    pub open spec fn fault(&self) -> HeaderFault {
        match self {
            HeaderError::InvalidName(_) => HeaderFault::InvalidName,
            HeaderError::InvalidValue(_) => HeaderFault::InvalidValue,
        }
    }
}

/// The headers that the pairs give, in order, with canonical names: the first
/// pair with an invalid name or value (the name is checked first) refuses
/// them all.
pub open spec fn checked_headers(pairs: Seq<(Seq<char>, Seq<char>)>) -> Result<
    Seq<(Seq<char>, Seq<char>)>,
    HeaderFault,
>
    decreases pairs.len(),
{
    if pairs.len() == 0 {
        Ok(seq![])
    } else {
        match checked_headers(pairs.drop_last()) {
            Err(f) => Err(f),
            Ok(prev) => {
                let (k, v) = pairs.last();
                if !valid_header_name(k) {
                    Err(HeaderFault::InvalidName)
                } else if !valid_header_value(v) {
                    Err(HeaderFault::InvalidValue)
                } else {
                    Ok(prev.push((canonical_header_name(k), v)))
                }
            },
        }
    }
}

/// An ASCII letter.
pub open spec fn is_ascii_letter(c: char) -> bool {
    ||| 'a' as u32 <= c as u32 <= 'z' as u32
    ||| 'A' as u32 <= c as u32 <= 'Z' as u32
}

/// A character that may stand in a URL scheme after its first letter
/// (RFC 3986: a letter, a digit, `+`, `-` or `.`).
pub open spec fn is_scheme_char(c: char) -> bool {
    ||| is_ascii_letter(c)
    ||| '0' as u32 <= c as u32 <= '9' as u32
    ||| c == '+' || c == '-' || c == '.'
}

/// `url` starts with a scheme of `k` characters followed by `://`.
pub open spec fn scheme_of_length(url: Seq<char>, k: int) -> bool {
    &&& 1 <= k
    &&& k + 3 <= url.len()
    &&& is_ascii_letter(url[0])
    &&& forall|i: int| 0 <= i < k ==> is_scheme_char(#[trigger] url[i])
    &&& url[k] == ':' && url[k + 1] == '/' && url[k + 2] == '/'
}

/// Where the search for the header separator starts in a URL: just after
/// the `://` of the scheme that the URL starts with (so that a separator
/// such as `:` is not taken from the scheme), or at the start where the URL
/// does not start with a scheme.
pub open spec fn scheme_end(url: Seq<char>) -> int {
    if exists|k: int| scheme_of_length(url, k) {
        (choose|k: int| scheme_of_length(url, k)) + 3
    } else {
        0
    }
}

/// A URL starts with at most one scheme: its length is the number of
/// scheme characters that the URL starts with.
proof fn lemma_scheme_length_unique(url: Seq<char>, n: int, k: int)
    requires
        0 <= n <= url.len(),
        forall|i: int| 0 <= i < n ==> is_scheme_char(#[trigger] url[i]),
        n == url.len() || !is_scheme_char(url[n]),
        scheme_of_length(url, k),
    ensures
        k == n,
{
    if k < n {
        assert(is_scheme_char(url[k]));
    } else if n < k {
        assert(is_scheme_char(url[n]));
    }
}

/// `scheme_end` of the characters `cs`.
fn find_scheme_end(cs: &[char]) -> (r: usize)
    ensures
        r == scheme_end(cs@),
        r <= cs@.len(),
{
    let len = cs.len();
    let mut n: usize = 0;
    while n < len && (is_scheme_char_exec(cs[n]))
        invariant
            len == cs@.len(),
            n <= len,
            forall|i: int| 0 <= i < n ==> is_scheme_char(#[trigger] cs@[i]),
        decreases len - n,
    {
        n = n + 1;
    }
    let found = n >= 1 && n < len && len - n >= 3 && is_ascii_letter_exec(cs[0]) && cs[n] == ':' && cs[n + 1]
        == '/' && cs[n + 2] == '/';
    if found {
        assert(scheme_of_length(cs@, n as int));
        proof {
            let k = choose|k: int| scheme_of_length(cs@, k);
            lemma_scheme_length_unique(cs@, n as int, k);
        }
        n + 3
    } else {
        proof {
            if exists|k: int| scheme_of_length(cs@, k) {
                let k = choose|k: int| scheme_of_length(cs@, k);
                lemma_scheme_length_unique(cs@, n as int, k);
            }
        }
        0
    }
}

fn is_ascii_letter_exec(c: char) -> (r: bool)
    ensures
        r == is_ascii_letter(c),
{
    ('a' <= c && c <= 'z') || ('A' <= c && c <= 'Z')
}

fn is_scheme_char_exec(c: char) -> (r: bool)
    ensures
        r == is_scheme_char(c),
{
    is_ascii_letter_exec(c) || ('0' <= c && c <= '9') || c == '+' || c == '-' || c == '.'
}

/// Where the headers encoded in a URL start: the first occurrence of the
/// separator after the scheme.
pub open spec fn header_split(url: Seq<char>, sep: Seq<char>) -> Option<int> {
    first_occurrence_from(url, sep, scheme_end(url))
}

/// How a target URL splits into the URL proper and the headers encoded after
/// the first occurrence of the separator after the scheme, one per name.
pub open spec fn split_url_spec(url: Seq<char>, separator: Option<Seq<char>>) -> Result<
    (Seq<char>, Seq<(Seq<char>, Seq<char>)>),
    HeaderFault,
> {
    match separator {
        None => Ok((url, seq![])),
        Some(sep) => match header_split(url, sep) {
            None => Ok((url, seq![])),
            Some(i) => match checked_headers(
                form_urlencoded_pairs(encode_utf8(url.skip(i + sep.len()))),
            ) {
                Ok(headers) => Ok((url.take(i), header_entries(headers))),
                Err(f) => Err(f),
            },
        },
    }
}

/// The characters of an optional text.
pub open spec fn opt_str_view(s: Option<&str>) -> Option<Seq<char>> {
    match s {
        Some(t) => Some(t@),
        None => None,
    }
}

/// Once a prefix of the pairs is refused, all of them are refused the same
/// way.
proof fn lemma_checked_headers_failure_persists(pairs: Seq<(Seq<char>, Seq<char>)>, n: int)
    requires
        0 <= n <= pairs.len(),
        checked_headers(pairs.take(n)) is Err,
    ensures
        checked_headers(pairs) == checked_headers(pairs.take(n)),
    decreases pairs.len() - n,
{
    if n < pairs.len() {
        assert(pairs.take(n + 1).drop_last() == pairs.take(n));
        lemma_checked_headers_failure_persists(pairs, n + 1);
    } else {
        assert(pairs.take(n) == pairs);
    }
}

fn check_headers(pairs: &Vec<(String, String)>) -> (r: Result<Vec<(String, String)>, HeaderError>)
    ensures
        match (r, checked_headers(pairs_view(pairs@))) {
            (Ok(h), Ok(t)) => pairs_view(h@) == t,
            (Err(e), Err(f)) => e.fault() == f,
            _ => false,
        },
{
    let ghost all = pairs_view(pairs@);
    let mut out: Vec<(String, String)> = Vec::new();
    let mut i: usize = 0;
    assert(all.take(0) =~= Seq::<(Seq<char>, Seq<char>)>::empty());
    assert(pairs_view(out@) =~= Seq::<(Seq<char>, Seq<char>)>::empty());
    while i < pairs.len()
        invariant
            i <= pairs@.len(),
            all == pairs_view(pairs@),
            checked_headers(all.take(i as int)) == Ok::<
                Seq<(Seq<char>, Seq<char>)>,
                HeaderFault,
            >(pairs_view(out@)),
        decreases pairs@.len() - i,
    {
        let ghost before = out@;
        proof {
            assert(all.take(i + 1).drop_last() == all.take(i as int));
            assert(all.take(i + 1).last() == all[i as int]);
        }
        let (k, v) = &pairs[i];
        match header_name(k.as_str()) {
            Err(e) => {
                proof {
                    lemma_checked_headers_failure_persists(all, i + 1);
                }
                return Err(HeaderError::InvalidName(e));
            },
            Ok(name) => {
                match header_value(v.as_str()) {
                    Err(e) => {
                        proof {
                            lemma_checked_headers_failure_persists(all, i + 1);
                        }
                        return Err(HeaderError::InvalidValue(e));
                    },
                    Ok(()) => {
                        let value = v.clone();
                        out.push((name, value));
                        assert(all[i as int] == (k@, v@));
                        assert(pairs_view(out@) =~= pairs_view(before).push(
                            (canonical_header_name(k@), v@),
                        ));
                    },
                }
            },
        }
        i = i + 1;
    }
    assert(all.take(pairs@.len() as int) == all);
    Ok(out)
}

/// Splits a target URL at the first occurrence of `separator` after the
/// scheme that it starts with (`https://` and the like), or from its start
/// where it starts with none, into the URL proper and the headers that the
/// form-encoded text after the separator names, e.g. with separator `":"`,
/// `https://google.com:key1=value1&key2=value2` gives `https://google.com`
/// and the headers `key1: value1`, `key2: value2`; with `"~"`,
/// `https://x~a=b~c` gives `https://x` and the header `a: b~c`, and
/// `h~a=://` gives `h` and the header `a: ://`. Without a separator, or
/// where it does not occur, the URL is kept whole with no header. A name
/// given twice is sent once, with its last value, at the place where it
/// first came (see `header_entries`).
pub fn split_url(url: &str, separator: Option<&str>) -> (r: Result<
    (String, Vec<(String, String)>),
    HeaderError,
>)
    ensures
        match (r, split_url_spec(url@, opt_str_view(separator))) {
            (Ok((base, headers)), Ok((b, h))) => base@ == b && pairs_view(headers@) == h,
            (Err(e), Err(f)) => e.fault() == f,
            _ => false,
        },
{
    match separator {
        None => {
            assert(pairs_view(Seq::<(String, String)>::empty()) =~= Seq::empty());
            Ok((url.to_owned(), Vec::new()))
        },
        Some(sep) => {
            let cs = chars_of(url);
            let ps = chars_of(sep);
            let start = find_scheme_end(cs.as_slice());
            match find_first_from(cs.as_slice(), ps.as_slice(), start) {
                None => {
                    assert(pairs_view(Seq::<(String, String)>::empty()) =~= Seq::empty());
                    Ok((url.to_owned(), Vec::new()))
                },
                Some(i) => {
                    proof {
                        lemma_first_occurrence_from(cs@, ps@, start as int);
                    }
                    let base = string_from_char_range(cs.as_slice(), 0, i);
                    let n = cs.len();
                    assert(i + ps@.len() <= n);
                    let rest = string_from_char_range(cs.as_slice(), i + ps.len(), n);
                    assert(url@.take(i as int) == cs@.subrange(0, i as int));
                    assert(url@.skip(i + ps@.len()) == cs@.subrange(
                        i + ps@.len(),
                        cs@.len() as int,
                    ));
                    let pairs = form_pairs(rest.as_str().as_bytes());
                    match check_headers(&pairs) {
                        Ok(headers) => Ok((base, merge_headers(headers))),
                        Err(e) => Err(e),
                    }
                },
            }
        },
    }
}

/// Law: accepted headers correspond one to one, in order, to the decoded
/// pairs: each name is a valid header name in canonical form and each value a
/// valid header value. Headers are refused exactly when some pair is invalid.
pub proof fn lemma_checked_headers_elementwise(pairs: Seq<(Seq<char>, Seq<char>)>)
    ensures
        checked_headers(pairs) is Ok <==> forall|i: int|
            0 <= i < pairs.len() ==> valid_header_name(#[trigger] pairs[i].0) && valid_header_value(
                pairs[i].1,
            ),
        checked_headers(pairs) matches Ok(h) ==> h.len() == pairs.len() && forall|i: int|
            0 <= i < pairs.len() ==> #[trigger] h[i] == (
                canonical_header_name(pairs[i].0),
                pairs[i].1,
            ),
    decreases pairs.len(),
{
    if pairs.len() > 0 {
        let p = pairs.drop_last();
        lemma_checked_headers_elementwise(p);
        assert forall|i: int| 0 <= i < p.len() implies #[trigger] p[i] == pairs[i] by {}
        if let Ok(h) = checked_headers(pairs) {
            let prev = checked_headers(p)->Ok_0;
            assert forall|i: int| 0 <= i < pairs.len() implies valid_header_name(
                #[trigger] pairs[i].0,
            ) && valid_header_value(pairs[i].1) && h[i] == (
                canonical_header_name(pairs[i].0),
                pairs[i].1,
            ) by {
                if i < p.len() {
                    assert(p[i] == pairs[i]);
                    assert(h[i] == prev[i]);
                }
            }
        } else {
            if forall|i: int|
                0 <= i < pairs.len() ==> valid_header_name(#[trigger] pairs[i].0)
                    && valid_header_value(pairs[i].1) {
                assert(pairs[pairs.len() - 1] == pairs.last());
                assert forall|i: int| 0 <= i < p.len() implies valid_header_name(
                    #[trigger] p[i].0,
                ) && valid_header_value(p[i].1) by {
                    assert(p[i] == pairs[i]);
                }
            }
        }
    }
}

/// Law: where the separator occurs after the scheme, the URL is the returned
/// URL, the separator and the header text, in that order; the split lies
/// after the scheme and no occurrence of the separator lies between the scheme
/// and the split. Where it does not occur after the scheme, or no separator
/// is set, the URL comes back whole with no header.
pub proof fn lemma_split_url_reassembles(url: Seq<char>, separator: Option<Seq<char>>)
    ensures
        0 <= scheme_end(url) <= url.len(),
        match separator {
            None => split_url_spec(url, separator) == Ok::<
                (Seq<char>, Seq<(Seq<char>, Seq<char>)>),
                HeaderFault,
            >((url, seq![])),
            Some(sep) => match header_split(url, sep) {
                None => {
                    &&& split_url_spec(url, separator) == Ok::<
                        (Seq<char>, Seq<(Seq<char>, Seq<char>)>),
                        HeaderFault,
                    >((url, seq![]))
                    &&& forall|j: int| scheme_end(url) <= j ==> !#[trigger] occurs_at(url, sep, j)
                },
                Some(i) => {
                    &&& url == url.take(i) + sep + url.skip(i + sep.len())
                    &&& scheme_end(url) <= i
                    &&& forall|j: int| scheme_end(url) <= j < i ==> !#[trigger] occurs_at(url, sep, j)
                    &&& split_url_spec(url, separator) matches Ok((base, _)) ==> base == url.take(i)
                },
            },
        },
{
    if let Some(sep) = separator {
        lemma_first_occurrence_from(url, sep, scheme_end(url));
        if let Some(i) = header_split(url, sep) {
            assert(url =~= url.take(i) + sep + url.skip(i + sep.len()));
        }
    }
}

/// Law: a URL made of a base, the separator and a header text, where no
/// occurrence of the separator starts between the end of the scheme and the
/// end of the base, splits into that base and the headers of that text, e.g.
/// `https://x~a=b~c` with `~` into `https://x` and the header `a: b~c`.
pub proof fn lemma_split_url_at_first(base: Seq<char>, sep: Seq<char>, text: Seq<char>)
    requires
        scheme_end(base + sep + text) <= base.len(),
        forall|j: int|
            scheme_end(base + sep + text) <= j < base.len() ==> !#[trigger] occurs_at(
                base + sep + text,
                sep,
                j,
            ),
    ensures
        split_url_spec(base + sep + text, Some(sep)) == match checked_headers(
            form_urlencoded_pairs(encode_utf8(text)),
        ) {
            Ok(h) => Ok::<(Seq<char>, Seq<(Seq<char>, Seq<char>)>), HeaderFault>(
                (base, header_entries(h)),
            ),
            Err(f) => Err(f),
        },
{
    let url = base + sep + text;
    lemma_split_url_reassembles(url, Some(sep));
    lemma_first_occurrence_from(url, sep, scheme_end(url));
    let n = base.len() as int;
    assert(url.subrange(n, n + sep.len()) =~= sep);
    assert(occurs_at(url, sep, n));
    assert(header_split(url, sep) == Some(n));
    assert(url.take(n) =~= base);
    assert(url.skip(n + sep.len()) =~= text);
}

/// The headers that a request sends for the given pairs, inserted in order:
/// a name given more than once keeps its last value.
pub open spec fn header_map_of(h: Seq<(Seq<char>, Seq<char>)>) -> Map<Seq<char>, Seq<char>>
    decreases h.len(),
{
    if h.len() == 0 {
        Map::empty()
    } else {
        header_map_of(h.drop_last()).insert(h.last().0, h.last().1)
    }
}

/// Law: the headers sent hold exactly the names of the pairs, each with the
/// value of its last pair.
pub proof fn lemma_header_map_keeps_last_value(h: Seq<(Seq<char>, Seq<char>)>)
    ensures
        forall|k: Seq<char>|
            #[trigger] header_map_of(h).contains_key(k) <==> exists|i: int|
                0 <= i < h.len() && #[trigger] h[i].0 == k,
        forall|i: int|
            0 <= i < h.len() && (forall|j: int| i < j < h.len() ==> #[trigger] h[j].0 != h[i].0)
                ==> header_map_of(h).contains_key(#[trigger] h[i].0) && header_map_of(h)[h[i].0]
                == h[i].1,
    decreases h.len(),
{
    if h.len() > 0 {
        let p = h.drop_last();
        lemma_header_map_keeps_last_value(p);
        assert(header_map_of(h) == header_map_of(p).insert(h.last().0, h.last().1));
        assert forall|i: int| 0 <= i < p.len() implies #[trigger] p[i] == h[i] by {}
        assert forall|k: Seq<char>|
            #[trigger] header_map_of(h).contains_key(k) <==> exists|i: int|
                0 <= i < h.len() && #[trigger] h[i].0 == k by {
            if header_map_of(h).contains_key(k) {
                if k == h.last().0 {
                    assert(h[h.len() - 1].0 == k);
                } else {
                    let i = choose|i: int| 0 <= i < p.len() && #[trigger] p[i].0 == k;
                    assert(h[i].0 == k);
                }
            }
            if exists|i: int| 0 <= i < h.len() && #[trigger] h[i].0 == k {
                let i = choose|i: int| 0 <= i < h.len() && #[trigger] h[i].0 == k;
                if i < p.len() {
                    assert(p[i].0 == k);
                }
            }
        }
        assert forall|i: int|
            0 <= i < h.len() && (forall|j: int| i < j < h.len() ==> #[trigger] h[j].0 != h[i].0)
                implies header_map_of(h).contains_key(#[trigger] h[i].0) && header_map_of(h)[h[i].0]
            == h[i].1 by {
            if i < p.len() {
                assert(h[h.len() - 1].0 != h[i].0);
                assert(p[i] == h[i]);
                assert forall|j: int| i < j < p.len() implies #[trigger] p[j].0 != p[i].0 by {
                    assert(p[j] == h[j]);
                    assert(h[j].0 != h[i].0);
                }
            }
        }
    }
}

/// The place of the pair named `k` among `p`, if some pair is named so.
pub open spec fn name_index(p: Seq<(Seq<char>, Seq<char>)>, k: Seq<char>) -> Option<int> {
    if exists|j: int| 0 <= j < p.len() && #[trigger] p[j].0 == k {
        Some(choose|j: int| 0 <= j < p.len() && #[trigger] p[j].0 == k)
    } else {
        None
    }
}

/// No name occurs twice among `p`.
pub open spec fn distinct_names(p: Seq<(Seq<char>, Seq<char>)>) -> bool {
    forall|a: int, b: int| 0 <= a < b < p.len() ==> #[trigger] p[a].0 != #[trigger] p[b].0
}

/// The headers that the pairs `h` make when they are inserted one by one
/// into a header map: each name once, in the order in which the names first
/// occur, with the value of the last pair of that name.
pub open spec fn header_entries(h: Seq<(Seq<char>, Seq<char>)>) -> Seq<(Seq<char>, Seq<char>)>
    decreases h.len(),
{
    if h.len() == 0 {
        seq![]
    } else {
        let p = header_entries(h.drop_last());
        match name_index(p, h.last().0) {
            Some(j) => p.update(j, h.last()),
            None => p.push(h.last()),
        }
    }
}

/// The headers that `h` makes name each name once.
proof fn lemma_header_entries_distinct(h: Seq<(Seq<char>, Seq<char>)>)
    ensures
        distinct_names(header_entries(h)),
    decreases h.len(),
{
    if h.len() > 0 {
        let p = header_entries(h.drop_last());
        lemma_header_entries_distinct(h.drop_last());
        match name_index(p, h.last().0) {
            Some(j) => {
                let q = p.update(j, h.last());
                assert forall|a: int, b: int| 0 <= a < b < q.len() implies #[trigger] q[a].0
                    != #[trigger] q[b].0 by {
                    assert(q[a].0 == p[a].0);
                    assert(q[b].0 == p[b].0);
                }
            },
            None => {
                let q = p.push(h.last());
                assert forall|a: int, b: int| 0 <= a < b < q.len() implies #[trigger] q[a].0
                    != #[trigger] q[b].0 by {
                    if b == p.len() {
                        assert(q[a].0 == p[a].0);
                    } else {
                        assert(q[a].0 == p[a].0);
                        assert(q[b].0 == p[b].0);
                    }
                }
            },
        }
    }
}

/// Where the names are distinct, the map that the pairs make holds each
/// pair's value under its name.
proof fn lemma_distinct_header_map(p: Seq<(Seq<char>, Seq<char>)>)
    requires
        distinct_names(p),
    ensures
        forall|k: Seq<char>|
            #[trigger] header_map_of(p).contains_key(k) <==> exists|i: int|
                0 <= i < p.len() && #[trigger] p[i].0 == k,
        forall|i: int|
            0 <= i < p.len() ==> #[trigger] header_map_of(p)[p[i].0] == p[i].1,
{
    lemma_header_map_keeps_last_value(p);
    assert forall|i: int| 0 <= i < p.len() implies #[trigger] header_map_of(p)[p[i].0]
        == p[i].1 by {
        assert forall|j: int| i < j < p.len() implies #[trigger] p[j].0 != p[i].0 by {
            assert(p[i].0 != p[j].0);
        }
    }
}

/// Law: the headers that the pairs `h` make name each name once and form the
/// same map as inserting the pairs one by one: every name of `h`, each with
/// the value of its last pair.
pub proof fn lemma_header_entries(h: Seq<(Seq<char>, Seq<char>)>)
    ensures
        distinct_names(header_entries(h)),
        header_map_of(header_entries(h)) == header_map_of(h),
    decreases h.len(),
{
    lemma_header_entries_distinct(h);
    if h.len() > 0 {
        let h0 = h.drop_last();
        let p = header_entries(h0);
        let (k, v) = h.last();
        lemma_header_entries(h0);
        assert(header_map_of(h) == header_map_of(h0).insert(k, v));
        match name_index(p, k) {
            Some(j) => {
                let q = p.update(j, (k, v));
                assert(header_entries(h) == q);
                lemma_distinct_header_map(p);
                lemma_distinct_header_map(q);
                assert(p[j].0 == k);
                let m = header_map_of(p).insert(k, v);
                assert forall|n: Seq<char>| #[trigger] header_map_of(q).contains_key(n)
                    <==> m.contains_key(n) by {
                    if header_map_of(q).contains_key(n) {
                        let i = choose|i: int| 0 <= i < q.len() && #[trigger] q[i].0 == n;
                        if i != j {
                            assert(p[i].0 == n);
                        }
                    }
                    if m.contains_key(n) && n != k {
                        let i = choose|i: int| 0 <= i < p.len() && #[trigger] p[i].0 == n;
                        assert(q[i].0 == n);
                    }
                    if n == k {
                        assert(q[j].0 == n);
                    }
                }
                assert forall|n: Seq<char>| #[trigger] header_map_of(q).contains_key(n)
                    implies header_map_of(q)[n] == m[n] by {
                    let i = choose|i: int| 0 <= i < q.len() && #[trigger] q[i].0 == n;
                    assert(header_map_of(q)[q[i].0] == q[i].1);
                    if i != j {
                        assert(p[i] == q[i]);
                        assert(header_map_of(p)[p[i].0] == p[i].1);
                    }
                }
                assert(header_map_of(q) =~= m);
            },
            None => {
                let q = p.push((k, v));
                assert(header_entries(h) == q);
                assert(q.drop_last() == p);
            },
        }
    }
}

/// The headers that the pairs make, as `header_entries` says.
fn merge_headers(pairs: Vec<(String, String)>) -> (r: Vec<(String, String)>)
    ensures
        pairs_view(r@) == header_entries(pairs_view(pairs@)),
{
    let ghost all = pairs_view(pairs@);
    let mut out: Vec<(String, String)> = Vec::new();
    let mut i: usize = 0;
    assert(all.take(0) =~= Seq::<(Seq<char>, Seq<char>)>::empty());
    assert(pairs_view(out@) =~= Seq::<(Seq<char>, Seq<char>)>::empty());
    while i < pairs.len()
        invariant
            i <= pairs@.len(),
            all == pairs_view(pairs@),
            pairs_view(out@) == header_entries(all.take(i as int)),
        decreases pairs@.len() - i,
    {
        let ghost p = pairs_view(out@);
        proof {
            lemma_header_entries_distinct(all.take(i as int));
            assert(all.take(i + 1).drop_last() == all.take(i as int));
            assert(all.take(i + 1).last() == all[i as int]);
        }
        let k = pairs[i].0.clone();
        let v = pairs[i].1.clone();
        assert(all[i as int] == (k@, v@));
        let mut j: usize = 0;
        let mut found = false;
        while j < out.len()
            invariant_except_break
                !found,
            invariant
                j <= out@.len(),
                p == pairs_view(out@),
                forall|a: int| 0 <= a < j ==> #[trigger] p[a].0 != k@,
            ensures
                found ==> j < out@.len() && p[j as int].0 == k@,
                !found ==> j == out@.len(),
            decreases out@.len() - j,
        {
            if out[j].0 == k {
                found = true;
                break;
            }
            j = j + 1;
        }
        if found {
            assert(p[j as int].0 == k@);
            proof {
                let c = choose|c: int| 0 <= c < p.len() && #[trigger] p[c].0 == k@;
                if c != j {
                    assert(p[c].0 != p[j as int].0);
                }
            }
            out.set(j, (k, v));
            assert(pairs_view(out@) =~= p.update(j as int, (k@, v@)));
        } else {
            out.push((k, v));
            assert(pairs_view(out@) =~= p.push((k@, v@)));
        }
        i = i + 1;
    }
    assert(all.take(pairs@.len() as int) == all);
    out
}

} // verus!
