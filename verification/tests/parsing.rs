use icmp_pacer::address::Address;
use icmp_pacer::address::parse_address;
use icmp_pacer::address::parse_ipv4;
use icmp_pacer::whitelist::parse_whitelist;

#[test]
fn ipv4_valid() {
    assert_eq!(parse_ipv4(b"10.0.0.1"), Some(0x0a000001));
    assert_eq!(parse_ipv4(b"0.0.0.0"), Some(0));
    assert_eq!(parse_ipv4(b"255.255.255.255"), Some(0xffffffff));
    assert_eq!(parse_ipv4(b"192.168.1.42"), Some(0xc0a8012a));
}

#[test]
fn ipv4_invalid() {
    assert_eq!(parse_ipv4(b""), None);
    assert_eq!(parse_ipv4(b"256.0.0.1"), None);
    assert_eq!(parse_ipv4(b"1.2.3"), None);
    assert_eq!(parse_ipv4(b"1.2.3.4.5"), None);
    assert_eq!(parse_ipv4(b"01.2.3.4"), None);
    assert_eq!(parse_ipv4(b"1.2.3.4 "), None);
    assert_eq!(parse_ipv4(b"1..2.3"), None);
    assert_eq!(parse_ipv4(b"1234.1.1.1"), None);
}

#[test]
fn ipv6_valid() {
    assert_eq!(parse_address(b"::1"), Some(Address::V6(0, 0, 0, 0, 0, 0, 0, 1)));
    assert_eq!(parse_address(b"::"), Some(Address::V6(0, 0, 0, 0, 0, 0, 0, 0)));
    assert_eq!(parse_address(b"1::"), Some(Address::V6(1, 0, 0, 0, 0, 0, 0, 0)));
    assert_eq!(
        parse_address(b"1:2:3:4:5:6:7:8"),
        Some(Address::V6(1, 2, 3, 4, 5, 6, 7, 8))
    );
    assert_eq!(
        parse_address(b"2001:db8::8a2e:370:7334"),
        Some(Address::V6(0x2001, 0x0db8, 0, 0, 0, 0x8a2e, 0x0370, 0x7334))
    );
    assert_eq!(
        parse_address(b"::ffff:192.168.1.1"),
        Some(Address::V6(0, 0, 0, 0, 0, 0xffff, 0xc0a8, 0x0101))
    );
    assert_eq!(
        parse_address(b"1:2:3:4:5:6:1.2.3.4"),
        Some(Address::V6(1, 2, 3, 4, 5, 6, 0x0102, 0x0304))
    );
    assert_eq!(
        parse_address(b"1:2:3:4:5:6:7::"),
        Some(Address::V6(1, 2, 3, 4, 5, 6, 7, 0))
    );
}

#[test]
fn ipv6_invalid() {
    assert_eq!(parse_address(b":"), None);
    assert_eq!(parse_address(b":::"), None);
    assert_eq!(parse_address(b"1:2:3:4:5:6:7:8:9"), None);
    assert_eq!(parse_address(b"1:2:3:4:5:6:7"), None);
    assert_eq!(parse_address(b"12345::"), None);
    assert_eq!(parse_address(b"1::2::3"), None);
    assert_eq!(parse_address(b"g::1"), None);
    assert_eq!(parse_address(b"1:"), None);
    assert_eq!(parse_address(b"1:2:3:4:5:6:7:1.2.3.4"), None);
}

#[test]
fn address_family_split() {
    let v4 = parse_address(b"10.1.2.3").unwrap();
    assert_eq!(v4.ipv4(), Some(0x0a010203));
    let v6 = parse_address(b"::1").unwrap();
    assert_eq!(v6.ipv4(), None);
}

#[test]
fn whitelist_json_two_entries() {
    let pool = parse_whitelist(b"[\"10.0.0.1\",\"10.0.0.2\"]");
    assert_eq!(pool, vec![Address::V4(0x0a000001), Address::V4(0x0a000002)]);
}

#[test]
fn whitelist_lines_two_entries() {
    let pool = parse_whitelist(b"10.0.0.1\n10.0.0.2\n");
    assert_eq!(pool, vec![Address::V4(0x0a000001), Address::V4(0x0a000002)]);
}

#[test]
fn whitelist_formats_agree() {
    let from_json = parse_whitelist(b"[\"10.0.0.1\",\"10.0.0.2\"]");
    let from_lines = parse_whitelist(b"10.0.0.1\n10.0.0.2\n");
    assert_eq!(from_json, from_lines);
}

#[test]
fn whitelist_bad_entry_dropped_in_order() {
    let pool = parse_whitelist(b"10.0.0.1\nnot-an-address\n10.0.0.2\n");
    assert_eq!(pool, vec![Address::V4(0x0a000001), Address::V4(0x0a000002)]);
    let pool = parse_whitelist(b"[\"10.0.0.1\",\"999.0.0.1\",\"10.0.0.2\"]");
    assert_eq!(pool, vec![Address::V4(0x0a000001), Address::V4(0x0a000002)]);
}

#[test]
fn whitelist_trims_and_skips_blank_lines() {
    let pool = parse_whitelist(b"  10.0.0.1 \r\n\n\t10.0.0.2\n   \n::1");
    assert_eq!(
        pool,
        vec![
            Address::V4(0x0a000001),
            Address::V4(0x0a000002),
            Address::V6(0, 0, 0, 0, 0, 0, 0, 1)
        ]
    );
}

#[test]
fn whitelist_malformed_json_falls_back_to_lines() {
    // not a JSON array of strings: read as one (unparseable) line
    let pool = parse_whitelist(b"[1,2]");
    assert_eq!(pool, vec![]);
}

#[test]
fn whitelist_empty_inputs() {
    assert_eq!(parse_whitelist(b""), vec![]);
    assert_eq!(parse_whitelist(b"[]"), vec![]);
}
