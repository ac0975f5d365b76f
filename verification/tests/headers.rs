use jito_client::{HeaderError, split_url};

fn pairs(v: &[(&str, &str)]) -> Vec<(String, String)> {
    v.iter().map(|(k, v)| (k.to_string(), v.to_string())).collect()
}

#[test]
fn documented_colon_separator() {
    let (base, headers) =
        split_url("https://google.com:key1=value1&key2=value2", Some(":")).unwrap();
    assert_eq!(base, "https://google.com");
    assert_eq!(headers, pairs(&[("key1", "value1"), ("key2", "value2")]));
}

#[test]
fn documented_tilde_separator() {
    let (base, headers) =
        split_url("https://mainnet.block-engine.jito.wtf~key=value", Some("~")).unwrap();
    assert_eq!(base, "https://mainnet.block-engine.jito.wtf");
    assert_eq!(headers, pairs(&[("key", "value")]));
}

#[test]
fn no_separator_keeps_url() {
    let (base, headers) = split_url("https://a.example~k=v", None).unwrap();
    assert_eq!(base, "https://a.example~k=v");
    assert!(headers.is_empty());
}

#[test]
fn absent_separator_keeps_url() {
    let (base, headers) = split_url("https://a.example", Some("~")).unwrap();
    assert_eq!(base, "https://a.example");
    assert!(headers.is_empty());
}

#[test]
fn multi_character_separator() {
    let (base, headers) = split_url("https://a.example|#|auth=secret", Some("|#|")).unwrap();
    assert_eq!(base, "https://a.example");
    assert_eq!(headers, pairs(&[("auth", "secret")]));
}

#[test]
fn names_are_lower_cased_and_values_decoded() {
    let (base, headers) =
        split_url("https://a.example~X-Auth=a+b%20c&&Empty=&Flag", Some("~")).unwrap();
    assert_eq!(base, "https://a.example");
    assert_eq!(headers, pairs(&[("x-auth", "a b c"), ("empty", ""), ("flag", "")]));
}

#[test]
fn empty_header_text_gives_no_header() {
    let (base, headers) = split_url("https://a.example~", Some("~")).unwrap();
    assert_eq!(base, "https://a.example");
    assert!(headers.is_empty());
}

#[test]
fn invalid_header_name_is_refused() {
    let r = split_url("https://a.example~bad%20name=x", Some("~"));
    assert!(matches!(r, Err(HeaderError::InvalidName(_))));
    let r = split_url("https://a.example~=x", Some("~"));
    assert!(matches!(r, Err(HeaderError::InvalidName(_))));
}

#[test]
fn invalid_header_value_is_refused() {
    let r = split_url("https://a.example~key=line%0Abreak", Some("~"));
    assert!(matches!(r, Err(HeaderError::InvalidValue(_))));
}

#[test]
fn name_is_checked_before_value() {
    let r = split_url("https://a.example~ok=fine&bad%20name=line%0Abreak", Some("~"));
    assert!(matches!(r, Err(HeaderError::InvalidName(_))));
}

#[test]
fn splits_at_first_separator_after_scheme() {
    let (base, headers) = split_url("https://x~a=b~c", Some("~")).unwrap();
    assert_eq!(base, "https://x");
    assert_eq!(headers, pairs(&[("a", "b~c")]));
}

#[test]
fn url_without_scheme_splits_at_first_separator() {
    let (base, headers) = split_url("host:k=v:w", Some(":")).unwrap();
    assert_eq!(base, "host");
    assert_eq!(headers, pairs(&[("k", "v:w")]));
}

#[test]
fn repeated_name_keeps_last_value() {
    let (base, headers) = split_url("https://a.example~k=1&K=2", Some("~")).unwrap();
    assert_eq!(base, "https://a.example");
    assert_eq!(headers, pairs(&[("k", "2")]));
}

#[test]
fn repeated_name_stays_where_it_first_came() {
    let (_, headers) = split_url("https://a.example~a=1&b=2&a=3", Some("~")).unwrap();
    assert_eq!(headers, pairs(&[("a", "3"), ("b", "2")]));
}

#[test]
fn scheme_marker_after_separator_is_header_text() {
    let (base, headers) = split_url("h~a=://", Some("~")).unwrap();
    assert_eq!(base, "h");
    assert_eq!(headers, pairs(&[("a", "://")]));
}

#[test]
fn separator_inside_scheme_is_skipped() {
    let (base, headers) = split_url("https://x/a=b", Some("/")).unwrap();
    assert_eq!(base, "https://x");
    assert_eq!(headers, pairs(&[("a", "b")]));
}
