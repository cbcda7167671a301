use aerospike::host::{port_text, Host};
use aerospike::string_map::StringMap;
use aerospike::text::{chars_of, parse_port, parse_signed};

#[test]
fn ports_parse_as_u16() {
    assert_eq!(parse_port("3000"), Some(3000));
    assert_eq!(parse_port("+80"), Some(80));
    assert_eq!(parse_port("0"), Some(0));
    assert_eq!(parse_port("0065535"), Some(65535));
    assert_eq!(parse_port("65536"), None);
    assert_eq!(parse_port(""), None);
    assert_eq!(parse_port("+"), None);
    assert_eq!(parse_port("-1"), None);
    assert_eq!(parse_port("12a"), None);
    assert_eq!(parse_port(" 12"), None);
    assert_eq!(parse_port("99999999999999999999999"), None);
}

#[test]
fn parsing_agrees_with_std() {
    for s in ["1", "+1", "-1", "", "+", "-", "65535", "65536", "-0", "007", "1_0", "٣", "9223372036854775807", "-9223372036854775808", "9223372036854775808"] {
        assert_eq!(parse_port(s), s.parse::<u16>().ok(), "{}", s);
        assert_eq!(parse_signed(s), s.parse::<isize>().ok(), "{}", s);
    }
}

#[test]
fn signed_numbers_parse_as_isize() {
    assert_eq!(parse_signed("-1"), Some(-1));
    assert_eq!(parse_signed("42"), Some(42));
    assert_eq!(parse_signed("+7"), Some(7));
    assert_eq!(parse_signed("-"), None);
    assert_eq!(parse_signed(&isize::MAX.to_string()), Some(isize::MAX));
    assert_eq!(parse_signed(&isize::MIN.to_string()), Some(isize::MIN));
    assert_eq!(parse_signed("1e3"), None);
}

#[test]
fn port_text_is_decimal() {
    assert_eq!(port_text(0), "0");
    assert_eq!(port_text(7), "7");
    assert_eq!(port_text(3000), "3000");
    assert_eq!(port_text(65535), "65535");
    assert_eq!(Host::new("h", 10).text(), "h:10");
}

#[test]
fn hosts_compare_by_name_and_port() {
    let a = Host::new("h", 1);
    assert!(a.same_as(&Host::new("h", 1)));
    assert!(!a.same_as(&Host::new("h", 2)));
    assert!(!a.same_as(&Host::new("g", 1)));
    assert!(a.duplicate().same_as(&a));
}

#[test]
fn chars_of_keeps_every_character() {
    assert_eq!(chars_of("añb"), vec!['a', 'ñ', 'b']);
    assert!(chars_of("").is_empty());
}

#[test]
fn string_map_later_values_replace_earlier_ones() {
    let mut m = StringMap::new();
    assert!(m.get("k").is_none());
    m.insert("k".to_string(), "1".to_string());
    m.insert("j".to_string(), "2".to_string());
    m.insert("k".to_string(), "3".to_string());
    assert_eq!(m.get("k").unwrap(), "3");
    assert_eq!(m.get("j").unwrap(), "2");
    assert!(m.contains_key("j"));
    assert!(!m.contains_key("x"));
}
