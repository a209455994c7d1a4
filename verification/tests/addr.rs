use yggdrasil::addr::{parse_v4, parse_v6, IpAddr, Ipv4Addr, Ipv6Addr, SocketAddr, SocketAddrV6};

#[test]
fn v4_text_and_back() {
    let a = Ipv4Addr::new(203, 0, 113, 7);
    assert_eq!(a.to_text(), "203.0.113.7");
    assert_eq!(parse_v4("203.0.113.7"), Some(a));
    for bad in ["", "1.2.3", "1.2.3.4.5", "01.2.3.4", "1.2.3.256", "1.2.3.+4", "1..2.3", "1.2.3.0004"] {
        assert_eq!(parse_v4(bad), None, "{bad}");
    }
}

#[test]
fn v6_text_is_the_shortest() {
    let cases = [
        (Ipv6Addr::new(0x2001, 0xdb8, 0, 0, 0, 0, 0, 1), "2001:db8::1"),
        (Ipv6Addr::new(0, 0, 0, 0, 0, 0, 0, 0), "::"),
        (Ipv6Addr::new(0, 0, 0, 0, 0, 0, 0, 1), "::1"),
        (Ipv6Addr::new(1, 0, 0, 0, 0, 0, 0, 0), "1::"),
        (Ipv6Addr::new(1, 0, 0, 2, 0, 0, 0, 3), "1:0:0:2::3"),
        (Ipv6Addr::new(1, 0, 0, 2, 3, 0, 0, 4), "1::2:3:0:0:4"),
        (Ipv6Addr::new(1, 0, 2, 3, 4, 5, 6, 7), "1:0:2:3:4:5:6:7"),
        (Ipv6Addr::new(0, 0, 0, 0, 0, 0xffff, 0xc0a8, 0x10a), "::ffff:192.168.1.10"),
        (Ipv6Addr::new(0xABCD, 0xef, 1, 2, 3, 4, 5, 6), "abcd:ef:1:2:3:4:5:6"),
    ];
    for (a, text) in cases {
        assert_eq!(a.to_text(), text);
        assert_eq!(parse_v6(text), Some(a), "{text}");
    }
}

#[test]
fn v6_grammar_edges() {
    assert_eq!(parse_v6("ABCD::"), Some(Ipv6Addr::new(0xabcd, 0, 0, 0, 0, 0, 0, 0)));
    assert_eq!(
        parse_v6("1:2:3:4:5:6:1.2.3.4"),
        Some(Ipv6Addr::new(1, 2, 3, 4, 5, 6, 0x102, 0x304))
    );
    assert_eq!(parse_v6("::1:2:3:4:5:6:7"), Some(Ipv6Addr::new(0, 1, 2, 3, 4, 5, 6, 7)));
    for bad in [
        "", ":", ":::", "1", "1:2:3:4:5:6:7", "1:2:3:4:5:6:7:8:9", "1:2:3:4:5:6:7:8::", "12345::",
        "1::2::3", "g::", "1.2.3.4::", "::1.2.3.4:5", ":1::", "1::2:",
    ] {
        assert_eq!(parse_v6(bad), None, "{bad}");
    }
}

#[test]
fn socket_addr_text() {
    let a = SocketAddr::new(IpAddr::V4(Ipv4Addr::new(1, 2, 3, 4)), 80);
    assert_eq!(a.to_text(), "1.2.3.4:80");
    assert_eq!(a.port(), 80);
    let six = Ipv6Addr::new(0xfe80, 0, 0, 0, 0, 0, 0, 1);
    assert_eq!(SocketAddr::new(IpAddr::V6(six), 443).to_text(), "[fe80::1]:443");
    let scoped = SocketAddr::V6(SocketAddrV6 { ip: six, port: 443, flowinfo: 0, scope_id: 2 });
    assert_eq!(scoped.to_text(), "[fe80::1%2]:443");
    assert_ne!(scoped.key(), SocketAddr::new(IpAddr::V6(six), 443).key());
    assert_eq!(scoped.ip(), IpAddr::V6(six));
}
