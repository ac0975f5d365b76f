use jito_client::{IpAddress, get_ip_list, get_ipv4_list, get_ipv6_list};

fn sample() -> Vec<IpAddress> {
    vec![
        IpAddress::V4([127, 0, 0, 1]),
        IpAddress::V4([192, 168, 1, 10]),
        IpAddress::V6([0, 0, 0, 0, 0, 0, 0, 1]),
        IpAddress::V6([0xfe80, 0, 0, 0, 1, 2, 3, 4]),
        IpAddress::V4([127, 5, 5, 5]),
        IpAddress::V4([10, 0, 0, 2]),
    ]
}

#[test]
fn loopback_addresses() {
    assert!(IpAddress::V4([127, 0, 0, 1]).is_loopback());
    assert!(IpAddress::V4([127, 255, 0, 9]).is_loopback());
    assert!(!IpAddress::V4([128, 0, 0, 1]).is_loopback());
    assert!(IpAddress::V6([0, 0, 0, 0, 0, 0, 0, 1]).is_loopback());
    assert!(!IpAddress::V6([0, 0, 0, 0, 0, 0, 0, 2]).is_loopback());
    assert!(!IpAddress::V6([1, 0, 0, 0, 0, 0, 0, 1]).is_loopback());
    assert_eq!(IpAddress::localhost(), IpAddress::V4([127, 0, 0, 1]));
}

#[test]
fn all_non_loopback_addresses() {
    assert_eq!(
        get_ip_list(&sample()),
        vec![
            IpAddress::V4([192, 168, 1, 10]),
            IpAddress::V6([0xfe80, 0, 0, 0, 1, 2, 3, 4]),
            IpAddress::V4([10, 0, 0, 2]),
        ]
    );
}

#[test]
fn family_lists() {
    assert_eq!(
        get_ipv4_list(&sample()),
        vec![IpAddress::V4([192, 168, 1, 10]), IpAddress::V4([10, 0, 0, 2])]
    );
    assert_eq!(get_ipv6_list(&sample()), vec![IpAddress::V6([0xfe80, 0, 0, 0, 1, 2, 3, 4])]);
    let all = get_ip_list(&sample());
    assert_eq!(get_ipv4_list(&sample()).len() + get_ipv6_list(&sample()).len(), all.len());
}

#[test]
fn empty_interface_list() {
    assert!(get_ip_list(&[]).is_empty());
    assert!(get_ipv4_list(&[]).is_empty());
    assert!(get_ipv6_list(&[]).is_empty());
}

#[test]
fn family_lists_together_hold_every_usable_address() {
    let mut joined = get_ipv4_list(&sample());
    joined.extend(get_ipv6_list(&sample()));
    let all = get_ip_list(&sample());
    assert_eq!(joined.len(), all.len());
    for a in &all {
        let in_all = all.iter().filter(|b| *b == a).count();
        let in_joined = joined.iter().filter(|b| *b == a).count();
        assert_eq!(in_all, in_joined);
    }
}
