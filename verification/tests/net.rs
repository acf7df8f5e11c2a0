use cczuvpnproto::net::{parse_ip, parse_ipv4, IpAddr, Ipv4Addr, Ipv6Addr};

fn v6(groups: [u16; 8]) -> Option<IpAddr> {
    Some(IpAddr::V6(Ipv6Addr { groups }))
}

#[test]
fn reads_dotted_address() {
    assert_eq!(
        parse_ip("10.22.1.99"),
        Some(IpAddr::V4(Ipv4Addr::new(10, 22, 1, 99)))
    );
    assert_eq!(parse_ipv4("255.255.255.255"), Some(Ipv4Addr { bits: 0xffff_ffff }));
}

#[test]
fn dotted_address_has_four_plain_octets() {
    let wrong = [
        "", "1.2.3", "1.2.3.4.5", "1.2.3.256", "01.2.3.4", "1.2.3.4 ", "+1.2.3.4", "1..2.3",
        "1.2.3.0000", "a.b.c.d",
    ];
    for text in wrong {
        assert_eq!(parse_ipv4(text), None);
    }
}

#[test]
fn octets_come_in_order() {
    assert_eq!(Ipv4Addr::new(1, 2, 3, 4).octets(), [1, 2, 3, 4]);
    assert_eq!(Ipv4Addr::new(1, 2, 3, 4).bits, 0x0102_0304);
}

#[test]
fn reads_grouped_address() {
    assert_eq!(parse_ip("::"), v6([0; 8]));
    assert_eq!(parse_ip("::1"), v6([0, 0, 0, 0, 0, 0, 0, 1]));
    assert_eq!(parse_ip("2001:db8::1"), v6([0x2001, 0xdb8, 0, 0, 0, 0, 0, 1]));
    assert_eq!(parse_ip("1:2:3:4:5:6:7:8"), v6([1, 2, 3, 4, 5, 6, 7, 8]));
    assert_eq!(parse_ip("1:2:3:4:5:6:7::"), v6([1, 2, 3, 4, 5, 6, 7, 0]));
    assert_eq!(
        parse_ip("::ffff:192.0.2.1"),
        v6([0, 0, 0, 0, 0, 0xffff, 0xc000, 0x0201])
    );
}

#[test]
fn grouped_address_is_checked() {
    let wrong = [
        ":", ":::", "1:2", "1:2:3:4:5:6:7:8:9", "1::2::3", "12345::", "g::", "1:2:3:4:5:6:7:8::",
        "::1.2.3", "1.2.3.4::", "fe80::1%eth0",
    ];
    for text in wrong {
        assert_eq!(parse_ip(text), None);
    }
}

#[test]
fn address_text_is_canonical() {
    let cases = [
        ("0:0:0:0:0:0:0:0", "::"),
        ("2001:DB8:0:0:1:0:0:1", "2001:db8::1:0:0:1"),
        ("1:0:0:2:0:0:0:3", "1:0:0:2::3"),
        ("1:2:3:0:5:6:7:8", "1:2:3:0:5:6:7:8"),
        ("0:0:0:0:0:ffff:c000:201", "::ffff:192.0.2.1"),
        ("10.22.1.99", "10.22.1.99"),
    ];
    for (text, canonical) in cases {
        let address = parse_ip(text).expect("address should parse");
        assert_eq!(address.text(), canonical);
        assert_eq!(parse_ip(canonical), Some(address));
    }
}
