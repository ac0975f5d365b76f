use jito_client::{
    BundleIdError, Endpoint, IpAddress, JitoClientBuilder, RpcData, bundle_call,
    bundle_id_from_header, bundle_id_from_result, bundle_statuses_call, failure_message,
    inflight_bundle_statuses_call, is_success_status, plan_post, plan_posts, transaction_call,
};
use std::time::Duration;

const MAIN: &str = "https://mainnet.block-engine.jito.wtf";
const AMS: &str = "https://amsterdam.mainnet.block-engine.jito.wtf";
const TOKYO: &str = "https://tokyo.mainnet.block-engine.jito.wtf";

fn urls(e: &jito_client::EntryPlan) -> Vec<&str> {
    e.urls.iter().map(|s| s.as_str()).collect()
}

#[test]
fn default_plan_has_one_unbound_mainnet_entry() {
    let plan = JitoClientBuilder::new().plan();
    assert_eq!(plan.entries.len(), 1);
    assert_eq!(urls(&plan.entries[0]), vec![MAIN]);
    assert_eq!(plan.entries[0].ip, IpAddress::V4([127, 0, 0, 1]));
    assert!(!plan.entries[0].bind);
    assert!(plan.interval.is_none());
    assert!(plan.timeout.is_none());
    assert!(plan.proxy.is_none());
    assert!(plan.headers.is_none());
    assert!(plan.headers_with_separator.is_none());
    assert!(!plan.error_read_headers && !plan.error_read_body);
}

#[test]
fn one_entry_per_url_and_address() {
    let a = IpAddress::V4([10, 0, 0, 1]);
    let b = IpAddress::V4([10, 0, 0, 2]);
    let plan = JitoClientBuilder::new()
        .interval(Duration::from_millis(200))
        .ip(vec![a, b])
        .url(&[MAIN, AMS, TOKYO])
        .plan();
    assert_eq!(plan.entries.len(), 6);
    let expect = [(MAIN, a), (MAIN, b), (AMS, a), (AMS, b), (TOKYO, a), (TOKYO, b)];
    for (e, (u, ip)) in plan.entries.iter().zip(expect.iter()) {
        assert_eq!(urls(e), vec![*u]);
        assert_eq!(e.ip, *ip);
        assert!(e.bind);
    }
    assert_eq!(plan.interval, Some(Duration::from_millis(200)));
}

#[test]
fn three_urls_one_address_give_three_entries() {
    let plan = JitoClientBuilder::new()
        .ip(vec![IpAddress::V4([10, 0, 0, 1])])
        .url(&[MAIN, AMS, TOKYO])
        .plan();
    assert_eq!(plan.entries.len(), 3);
}

#[test]
fn urls_without_address_are_unbound() {
    let plan = JitoClientBuilder::new().url(&[AMS, TOKYO]).plan();
    assert_eq!(plan.entries.len(), 2);
    assert_eq!(urls(&plan.entries[0]), vec![AMS]);
    assert_eq!(urls(&plan.entries[1]), vec![TOKYO]);
    assert!(plan.entries.iter().all(|e| !e.bind && e.ip == IpAddress::localhost()));
}

#[test]
fn broadcast_entries_send_everywhere() {
    let plan = JitoClientBuilder::new().broadcast(true).url(&[MAIN, AMS, TOKYO]).plan();
    assert_eq!(plan.entries.len(), 1);
    assert_eq!(urls(&plan.entries[0]), vec![MAIN, AMS, TOKYO]);
    assert!(!plan.entries[0].bind);
    let ips = vec![IpAddress::V4([10, 0, 0, 1]), IpAddress::V6([0xfe80, 0, 0, 0, 0, 0, 0, 9])];
    let plan = JitoClientBuilder::new()
        .broadcast(true)
        .ip(ips.clone())
        .url(&[MAIN, AMS])
        .plan();
    assert_eq!(plan.entries.len(), 2);
    for (e, ip) in plan.entries.iter().zip(ips.iter()) {
        assert_eq!(urls(e), vec![MAIN, AMS]);
        assert_eq!(e.ip, *ip);
        assert!(e.bind);
    }
}

#[test]
fn no_url_gives_no_entry_unless_broadcast() {
    assert_eq!(JitoClientBuilder::new().url(&[]).plan().entries.len(), 0);
    let plan = JitoClientBuilder::new().broadcast(true).url(&[]).plan();
    assert_eq!(plan.entries.len(), 1);
    assert!(plan.entries[0].urls.is_empty());
}

#[test]
fn shared_settings_pass_through() {
    let plan = JitoClientBuilder::new()
        .timeout(Duration::from_secs(8))
        .headers_with_separator("~")
        .error_read_headers(true)
        .error_read_body(true)
        .plan();
    assert_eq!(plan.timeout, Some(Duration::from_secs(8)));
    assert_eq!(plan.headers_with_separator.as_deref(), Some("~"));
    assert!(plan.error_read_headers && plan.error_read_body);
}

#[test]
fn transaction_post_paths() {
    let p = plan_post(MAIN, None, &Endpoint::Transactions { bundle_only: true }).unwrap();
    assert_eq!(p.url, format!("{}/api/v1/transactions", MAIN));
    assert!(p.bundle_only);
    assert!(p.headers.is_empty());
    let p = plan_post(MAIN, None, &Endpoint::Transactions { bundle_only: false }).unwrap();
    assert!(!p.bundle_only);
    let p = plan_post(MAIN, None, &Endpoint::Bundles).unwrap();
    assert_eq!(p.url, format!("{}/api/v1/bundles", MAIN));
    assert!(!p.bundle_only);
    let p = plan_post(MAIN, None, &Endpoint::Base).unwrap();
    assert_eq!(p.url, MAIN);
    let p = plan_post(MAIN, None, &Endpoint::Api("/api/v1/getTipAccounts".to_string())).unwrap();
    assert_eq!(p.url, format!("{}/api/v1/getTipAccounts", MAIN));
}

#[test]
fn post_with_url_headers() {
    let target = format!("{}~x-jito-auth=secret", AMS);
    let p = plan_post(&target, Some("~"), &Endpoint::Bundles).unwrap();
    assert_eq!(p.url, format!("{}/api/v1/bundles", AMS));
    assert_eq!(p.headers, vec![("x-jito-auth".to_string(), "secret".to_string())]);
    assert!(plan_post(&format!("{}~a b=c", AMS), Some("~"), &Endpoint::Bundles).is_err());
}

#[test]
fn one_post_per_target() {
    let targets = vec![MAIN.to_string(), format!("{}~k=v", AMS), format!("{}~k=%0A", TOKYO)];
    let posts = plan_posts(&targets, Some("~"), &Endpoint::Transactions { bundle_only: true });
    assert_eq!(posts.len(), 3);
    assert_eq!(posts[0].as_ref().unwrap().url, format!("{}/api/v1/transactions", MAIN));
    assert_eq!(posts[1].as_ref().unwrap().url, format!("{}/api/v1/transactions", AMS));
    assert!(posts[2].is_err());
}

#[test]
fn rpc_calls() {
    let c = transaction_call("AAAA".to_string());
    assert_eq!((c.id, c.jsonrpc.as_str(), c.method.as_str()), (1, "2.0", "sendTransaction"));
    assert!(c.base64_encoded);
    assert!(matches!(c.data, RpcData::One(ref s) if s == "AAAA"));
    let c = bundle_call(vec!["A".to_string(), "B".to_string()]);
    assert_eq!(c.method, "sendBundle");
    assert!(c.base64_encoded);
    assert!(matches!(c.data, RpcData::Many(ref v) if v.len() == 2));
    let (url, c) = bundle_statuses_call(vec!["id".to_string()]);
    assert_eq!(url, "https://mainnet.block-engine.jito.wtf/api/v1/getBundleStatuses");
    assert_eq!(c.method, "getBundleStatuses");
    assert!(!c.base64_encoded);
    let (url, c) = inflight_bundle_statuses_call(vec![]);
    assert_eq!(url, "https://mainnet.block-engine.jito.wtf/api/v1/getInflightBundleStatuses");
    assert_eq!(c.method, "getInflightBundleStatuses");
}

#[test]
fn success_statuses() {
    assert!(is_success_status(200));
    assert!(is_success_status(204));
    assert!(is_success_status(299));
    assert!(!is_success_status(199));
    assert!(!is_success_status(300));
    assert!(!is_success_status(429));
    assert!(!is_success_status(500));
}

#[test]
fn failure_messages() {
    let s = "429 Too Many Requests";
    assert_eq!(failure_message(s, "H", "B", false, false), s);
    assert_eq!(failure_message(s, "H", "B", true, false), format!("{}\nH", s));
    assert_eq!(failure_message(s, "H", "B", false, true), format!("{}\nB", s));
    assert_eq!(failure_message(s, "H", "B", true, true), format!("{}\nH\nB", s));
}

#[test]
fn bundle_id_header() {
    assert_eq!(bundle_id_from_header(None), Err(BundleIdError::MissingHeader));
    assert_eq!(bundle_id_from_header(Some(b"abc-123")).unwrap(), "abc-123");
    assert_eq!(bundle_id_from_header(Some(b"")).unwrap(), "");
    assert_eq!(bundle_id_from_header(Some(&[0x61, 0xff])), Err(BundleIdError::InvalidHeader));
    assert_eq!(bundle_id_from_header(Some(&[0x61, 0x0a])), Err(BundleIdError::InvalidHeader));
    assert_eq!(BundleIdError::MissingHeader.message(), "missing `x-bundle-id` header");
    assert_eq!(
        BundleIdError::InvalidHeader.message(),
        "invalid `x-bundle-id` header: failed to convert header to a str"
    );
}

#[test]
fn balancer_without_interval_always_offers_first_entry() {
    let b = jito_client::EntryBalancer::new(3, Duration::ZERO);
    assert_eq!(b.len(), 3);
    for _ in 0..5 {
        assert_eq!(b.try_pick(), Some(0));
    }
}

#[test]
fn balancer_offers_each_entry_once_per_interval() {
    let b = jito_client::EntryBalancer::new(3, Duration::from_secs(3600));
    assert_eq!(b.try_pick(), Some(0));
    assert_eq!(b.try_pick(), Some(1));
    assert_eq!(b.try_pick(), Some(2));
    assert_eq!(b.try_pick(), None);
}

#[test]
fn empty_balancer_offers_nothing() {
    let b = jito_client::EntryBalancer::new(0, Duration::ZERO);
    assert_eq!(b.len(), 0);
    assert_eq!(b.try_pick(), None);
}

#[test]
fn bundle_id_from_reply_result() {
    assert_eq!(bundle_id_from_result(Some("b-42")).unwrap(), "b-42");
    assert_eq!(bundle_id_from_result(None), Err(BundleIdError::MissingResult));
    assert_eq!(BundleIdError::MissingResult.message(), "missing bundle result");
}
