use llm_relay::ip::{ip_text_is_local, parse_ipv4, parse_ipv6};
use llm_relay::text::to_chars;

fn v4(s: &str) -> Option<Vec<u8>> {
    parse_ipv4(&to_chars(s))
}

fn v6(s: &str) -> Option<Vec<u16>> {
    parse_ipv6(&to_chars(s))
}

fn local(s: &str) -> bool {
    ip_text_is_local(&to_chars(s))
}

#[test]
fn dotted_ipv4() {
    assert_eq!(v4("192.168.0.1"), Some(vec![192, 168, 0, 1]));
    assert_eq!(v4("0.0.0.0"), Some(vec![0, 0, 0, 0]));
    assert_eq!(v4("256.0.0.1"), None);
    assert_eq!(v4("01.0.0.1"), None);
    assert_eq!(v4("1.2.3"), None);
    assert_eq!(v4("1.2.3.4.5"), None);
    assert_eq!(v4("1.2..4"), None);
    assert_eq!(v4("1.2.3.4 "), None);
}

#[test]
fn ipv6_forms() {
    assert_eq!(v6("::"), Some(vec![0; 8]));
    assert_eq!(v6("::1"), Some(vec![0, 0, 0, 0, 0, 0, 0, 1]));
    assert_eq!(v6("fe80::1:2"), Some(vec![0xfe80, 0, 0, 0, 0, 0, 1, 2]));
    assert_eq!(v6("1:2:3:4:5:6:7:8"), Some(vec![1, 2, 3, 4, 5, 6, 7, 8]));
    assert_eq!(v6("1:2:3:4:5:6:7::"), Some(vec![1, 2, 3, 4, 5, 6, 7, 0]));
    assert_eq!(v6("::ffff:10.0.0.1"), Some(vec![0, 0, 0, 0, 0, 0xffff, 0x0a00, 1]));
    assert_eq!(v6("1:2:3:4:5:6:1.2.3.4"), Some(vec![1, 2, 3, 4, 5, 6, 0x0102, 0x0304]));
    assert_eq!(v6("1:2:3:4:5:6:7:8:9"), None);
    assert_eq!(v6("1::2::3"), None);
    assert_eq!(v6(":1::"), None);
    assert_eq!(v6("1:2:3:4:5:6::1.2.3.4"), None);
    assert_eq!(v6("1::2:3:4:5:6:7:8"), None);
    assert_eq!(v6("12345::"), None);
    assert_eq!(v6("1.2.3.4::"), None);
    assert_eq!(v6("[::1]"), None);
}

#[test]
fn local_addresses() {
    assert!(local("10.0.0.1"));
    assert!(local("172.31.255.255"));
    assert!(!local("172.15.0.1"));
    assert!(local("127.8.8.8"));
    assert!(local("::1"));
    assert!(local("::"));
    assert!(local("fd12::1"));
    assert!(local("fe80::abcd"));
    assert!(!local("fec0::1"));
    assert!(!local("2001:db8::1"));
    assert!(!local("8.8.8.8"));
    assert!(!local("example.com"));
}
