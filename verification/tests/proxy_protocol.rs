use yggdrasil::addr::{parse_v4, parse_v6, IpAddr, SocketAddr};
use yggdrasil::proxy_protocol::{
    decode_step, decode_v2_from_datagram, encode_header, encode_v1, encode_v2,
    read_optional_header, DecodeError, Parsed, ProxyEndpoints, V1_MAX_LINE, V2_SIG,
};
use yggdrasil::rule::ProxyProto;

fn v4(a: &str) -> SocketAddr {
    let (ip, port) = a.split_once(':').unwrap();
    SocketAddr::new(IpAddr::V4(parse_v4(ip).unwrap()), port.parse().unwrap())
}

fn v6(a: &str) -> SocketAddr {
    let (ip, port) = a[1..].split_once("]:").unwrap();
    SocketAddr::new(IpAddr::V6(parse_v6(ip).unwrap()), port.parse().unwrap())
}

#[test]
fn v1_ipv4_header_matches_spec() {
    let h = encode_v1(v4("203.0.113.7:54321"), v4("198.51.100.4:443"));
    let s = std::str::from_utf8(&h).unwrap();
    assert_eq!(s, "PROXY TCP4 203.0.113.7 198.51.100.4 54321 443\r\n");
    assert!(h.len() <= 107);
}

#[test]
fn v1_ipv6_header_matches_spec() {
    let h = encode_v1(v6("[2001:db8::1]:54321"), v6("[2001:db8::2]:443"));
    let s = std::str::from_utf8(&h).unwrap();
    assert_eq!(s, "PROXY TCP6 2001:db8::1 2001:db8::2 54321 443\r\n");
    assert!(h.len() <= 107);
}

#[test]
fn v1_mixed_family_emits_unknown() {
    let h = encode_v1(v4("203.0.113.7:54321"), v6("[2001:db8::2]:443"));
    assert_eq!(h, b"PROXY UNKNOWN\r\n");
}

#[test]
fn v2_ipv4_header_has_correct_layout() {
    let h = encode_v2(v4("203.0.113.7:54321"), v4("198.51.100.4:443"));
    assert_eq!(h.len(), 28);
    assert_eq!(&h[..12], &V2_SIG);
    assert_eq!(h[12], 0x21);
    assert_eq!(h[13], 0x11);
    assert_eq!(u16::from_be_bytes([h[14], h[15]]), 12);
    assert_eq!(&h[16..20], &[203, 0, 113, 7]);
    assert_eq!(&h[20..24], &[198, 51, 100, 4]);
    assert_eq!(u16::from_be_bytes([h[24], h[25]]), 54321);
    assert_eq!(u16::from_be_bytes([h[26], h[27]]), 443);
}

#[test]
fn v2_ipv6_header_has_correct_layout() {
    let h = encode_v2(v6("[2001:db8::1]:54321"), v6("[2001:db8::2]:443"));
    assert_eq!(h.len(), 52);
    assert_eq!(&h[..12], &V2_SIG);
    assert_eq!(h[12], 0x21);
    assert_eq!(h[13], 0x21);
    assert_eq!(u16::from_be_bytes([h[14], h[15]]), 36);
}

#[test]
fn v2_mixed_family_emits_local_command() {
    let h = encode_v2(v4("203.0.113.7:54321"), v6("[2001:db8::2]:443"));
    assert_eq!(h.len(), 16);
    assert_eq!(h[12], 0x20);
    assert_eq!(h[13], 0x00);
    assert_eq!(u16::from_be_bytes([h[14], h[15]]), 0);
}

#[test]
fn encode_dispatches_on_version() {
    let c = v4("203.0.113.7:1");
    let s = v4("198.51.100.4:1");
    let v1 = encode_header(ProxyProto::V1, c, s);
    let v2 = encode_header(ProxyProto::V2, c, s);
    assert!(v1.starts_with(b"PROXY TCP4"));
    assert_eq!(&v2[..12], &V2_SIG);
}

#[test]
fn write_header_emits_v1_bytes() {
    let buf = encode_header(ProxyProto::V1, v4("203.0.113.7:1"), v4("198.51.100.4:443"));
    assert_eq!(buf, b"PROXY TCP4 203.0.113.7 198.51.100.4 1 443\r\n");
}

#[test]
fn decode_v1_round_trips_through_encode() {
    let header = encode_v1(v4("203.0.113.7:54321"), v4("198.51.100.4:443"));
    let (out, taken) = read_optional_header(&header).unwrap();
    assert_eq!(
        out.endpoints,
        Some(ProxyEndpoints {
            client: v4("203.0.113.7:54321"),
            server: v4("198.51.100.4:443"),
        })
    );
    assert!(out.leftover.is_empty());
    assert_eq!(taken, header.len());
}

#[test]
fn decode_v1_v6_round_trips() {
    let header = encode_v1(v6("[2001:db8::1]:54321"), v6("[2001:db8::2]:443"));
    let (out, _) = read_optional_header(&header).unwrap();
    assert_eq!(
        out.endpoints,
        Some(ProxyEndpoints {
            client: v6("[2001:db8::1]:54321"),
            server: v6("[2001:db8::2]:443"),
        })
    );
}

#[test]
fn decode_v1_unknown_is_header_present_but_no_endpoints() {
    let (out, taken) = read_optional_header(b"PROXY UNKNOWN\r\n").unwrap();
    assert_eq!(out.endpoints, None);
    assert!(out.leftover.is_empty());
    assert_eq!(taken, 15);
}

#[test]
fn decode_v2_v4_round_trips() {
    let header = encode_v2(v4("203.0.113.7:54321"), v4("198.51.100.4:443"));
    let (out, _) = read_optional_header(&header).unwrap();
    assert_eq!(
        out.endpoints,
        Some(ProxyEndpoints {
            client: v4("203.0.113.7:54321"),
            server: v4("198.51.100.4:443"),
        })
    );
    assert!(out.leftover.is_empty());
}

#[test]
fn decode_v2_v6_round_trips() {
    let header = encode_v2(v6("[2001:db8::1]:54321"), v6("[2001:db8::2]:443"));
    let (out, _) = read_optional_header(&header).unwrap();
    assert_eq!(
        out.endpoints,
        Some(ProxyEndpoints {
            client: v6("[2001:db8::1]:54321"),
            server: v6("[2001:db8::2]:443"),
        })
    );
}

#[test]
fn decode_v2_local_is_header_present_but_no_endpoints() {
    let header = encode_v2(v4("203.0.113.7:1"), v6("[2001:db8::2]:1"));
    let (out, _) = read_optional_header(&header).unwrap();
    assert_eq!(out.endpoints, None);
    assert!(out.leftover.is_empty());
}

#[test]
fn decode_no_header_returns_peeked_bytes_as_leftover() {
    let (out, taken) = read_optional_header(b"GET / HTTP/1.1\r\n").unwrap();
    assert_eq!(out.endpoints, None);
    assert_eq!(out.leftover, b"G");
    assert_eq!(taken, 1);
}

#[test]
fn decode_v1_garbage_after_proxy_is_error() {
    let err = read_optional_header(b"PROXY ZZZZ 1 2 3 4\r\n").unwrap_err();
    assert_eq!(err, DecodeError::UnknownFamily);
}

#[test]
fn decode_v1_too_long_is_error() {
    let mut bad = b"PROXY TCP4 ".to_vec();
    bad.extend(std::iter::repeat(b'X').take(200));
    bad.extend_from_slice(b"\r\n");
    let err = read_optional_header(&bad).unwrap_err();
    assert_eq!(err, DecodeError::LineTooLong);
    assert_eq!(err.message(), "PROXY v1 header exceeds 107 bytes");
}

#[test]
fn v1_line_length_limit_is_exact() {
    // "PROXY UNKNOWN" padded so that the line, CRLF counted, has the wanted length.
    let line = |len: usize| {
        let mut b = b"PROXY UNKNOWN".to_vec();
        b.resize(len - 2, b' ');
        b.extend_from_slice(b"\r\n");
        b
    };
    let ok = line(V1_MAX_LINE);
    assert_eq!(ok.len(), 107);
    assert_eq!(decode_step(&ok), Parsed::Header(107, None));
    let long = line(V1_MAX_LINE + 1);
    assert_eq!(decode_step(&long), Parsed::Bad(DecodeError::LineTooLong));
}

#[test]
fn lookalikes_are_handed_back_whole() {
    let (out, taken) = read_optional_header(b"POST / HTTP/1.1\r\n").unwrap();
    assert_eq!(out.leftover, b"POST /");
    assert_eq!(taken, 6);
    let (out, taken) = read_optional_header(b"\r\n\r\nhello world!").unwrap();
    assert_eq!(out.leftover, b"\r\n\r\nhello wo");
    assert_eq!(taken, 12);
}

#[test]
fn short_streams_are_eof() {
    let (out, taken) = read_optional_header(b"").unwrap();
    assert!(out.leftover.is_empty() && out.endpoints.is_none() && taken == 0);
    for s in [&b"P"[..], b"PROXY TCP4 1.2.3.4", b"\r\n\r\n", &V2_SIG] {
        assert_eq!(read_optional_header(s).unwrap_err(), DecodeError::UnexpectedEof);
    }
}

#[test]
fn v1_errors_name_what_is_wrong() {
    let err = |line: &str| read_optional_header(line.as_bytes()).unwrap_err();
    assert_eq!(err("PROXY TCP4\r\n"), DecodeError::MissingClient);
    assert_eq!(err("PROXY TCP4 1.2.3.4\r\n"), DecodeError::MissingServer);
    assert_eq!(err("PROXY TCP4 1.2.3.4 5.6.7.8\r\n"), DecodeError::MissingClientPort);
    assert_eq!(err("PROXY TCP4 1.2.3.4 5.6.7.8 1\r\n"), DecodeError::MissingServerPort);
    assert_eq!(err("PROXY TCP4 1.2.3.400 5.6.7.8 1 2\r\n"), DecodeError::BadIpv4);
    assert_eq!(err("PROXY TCP6 ::1::2 ::1 1 2\r\n"), DecodeError::BadIpv6);
    assert_eq!(err("PROXY TCP4 1.2.3.4 5.6.7.8 65536 2\r\n"), DecodeError::BadPort);
    assert_eq!(
        read_optional_header(b"PROXY UNKNOWN \xff\r\n").unwrap_err(),
        DecodeError::NotUtf8
    );
    assert_eq!(DecodeError::NotUtf8.message(), "PROXY v1 not UTF-8");
    // Leading plus sign, leading zeros and further fields are tolerated.
    let (out, _) = read_optional_header(b"PROXY TCP4 1.2.3.4 5.6.7.8 +0080 2 extra\r\n").unwrap();
    assert_eq!(out.endpoints.unwrap().client, v4("1.2.3.4:80"));
}

#[test]
fn v2_errors_name_what_is_wrong() {
    let mut b = V2_SIG.to_vec();
    b.extend_from_slice(&[0x11, 0x11, 0, 0]);
    assert_eq!(read_optional_header(&b).unwrap_err(), DecodeError::WrongVersion);
    let mut b = V2_SIG.to_vec();
    b.extend_from_slice(&[0x21, 0x11, 2, 25]);
    assert_eq!(read_optional_header(&b).unwrap_err(), DecodeError::AddrLenTooLarge);
    let mut b = V2_SIG.to_vec();
    b.extend_from_slice(&[0x21, 0x11, 0, 2, 1, 2]);
    assert_eq!(read_optional_header(&b).unwrap_err(), DecodeError::Tcp4Short);
    let mut b = V2_SIG.to_vec();
    b.extend_from_slice(&[0x21, 0x21, 0, 2, 1, 2]);
    assert_eq!(read_optional_header(&b).unwrap_err(), DecodeError::Tcp6Short);
    // Another family is a header without endpoints.
    let mut b = V2_SIG.to_vec();
    b.extend_from_slice(&[0x21, 0x31, 0, 2, 1, 2]);
    assert_eq!(decode_step(&b), Parsed::Header(18, None));
}

#[test]
fn reading_as_asked_never_passes_the_header() {
    for header in [
        encode_v1(v4("203.0.113.7:54321"), v4("198.51.100.4:443")),
        encode_v1(v6("[::ffff:1.2.3.4]:1"), v6("[fe80::]:65535")),
        encode_v2(v6("[2001:db8::1]:54321"), v6("[2001:db8::2]:443")),
    ] {
        let mut stream = header.clone();
        stream.extend_from_slice(b"application data");
        let mut have = 0;
        loop {
            match decode_step(&stream[..have]) {
                Parsed::Short(n) => have += n,
                Parsed::Header(n, e) => {
                    assert_eq!(n, have);
                    assert_eq!(n, header.len());
                    assert!(e.is_some());
                    break;
                }
                other => panic!("{other:?}"),
            }
        }
    }
}

#[test]
fn datagrams_announce_only_as_v2() {
    let h = encode_v2(v4("203.0.113.7:54321"), v4("198.51.100.4:443"));
    assert_eq!(
        decode_v2_from_datagram(&h).unwrap().client,
        v4("203.0.113.7:54321")
    );
    assert_eq!(decode_v2_from_datagram(&h[..20]), None);
    assert_eq!(decode_v2_from_datagram(b"\xc3quic initial packet bytes"), None);
    let local = encode_v2(v4("203.0.113.7:1"), v6("[2001:db8::2]:1"));
    assert_eq!(decode_v2_from_datagram(&local), None);
}
