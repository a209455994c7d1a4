//! PROXY-protocol headers: emission in front of an upstream connection, and
//! detection and decoding in front of an accepted one.
//!
//! Both wire forms are covered: v1, one ASCII line of at most 107 bytes, and
//! v2, a sixteen-byte binary prefix followed by an address block. The decoder
//! is a function of the bytes read so far. It says how many more bytes it
//! needs, never asks for a byte beyond the header, and hands back what it read
//! where there is no header.

use vstd::prelude::*;
use vstd::string::*;
use vstd::utf8::*;

use crate::addr::{
    addr_char, addr_chars, addr_ip, addr_of, addr_port, law_v4_text_reads_back,
    law_v6_text_reads_back, lemma_v4_text_shape, lemma_v6_text_shape, parse_v6, v4_of_text,
    v4_text, v6_of_text, v6_text, IpAddr, Ipv4Addr, Ipv6Addr, SocketAddr,
};
use crate::rule::ProxyProto;
use crate::text::{
    begins, begins_with, chars_of, chars_views, cut, dec, dec_string, digit_val, is_num, join,
    lemma_dec_len, lemma_digits_num, lemma_split_join, num, parse_num, same, split, split_chars,
    string_of, utf8_text,
};

verus! {

broadcast use vstd::string::group_string_axioms;

/// Magic v2 signature.
pub const V2_SIG: [u8; 12] = [
    0x0D, 0x0A, 0x0D, 0x0A, 0x00, 0x0D, 0x0A, 0x51, 0x55, 0x49, 0x54, 0x0A,
];

/// Maximum length of a v1 line, CRLF counted.
pub const V1_MAX_LINE: usize = 107;

/// Maximum v2 address payload accepted.
pub const V2_MAX_ADDR: usize = 536;

/// Outcome of a successful PROXY-protocol parse.
#[derive(Clone, Copy, Debug, PartialEq, Eq, Structural)]
pub struct ProxyEndpoints {
    /// Original client (source) address asserted by the upstream proxy.
    pub client: SocketAddr,
    /// Local-facing (destination) address asserted by the upstream proxy.
    pub server: SocketAddr,
}

/// Detection and decode result. Where there was no header, `leftover` holds
/// the bytes that were read; they belong in front of the rest of the stream.
#[derive(Debug)]
pub struct ProxyDecode {
    pub endpoints: Option<ProxyEndpoints>,
    pub leftover: Vec<u8>,
}

/// Why a header was refused.
#[derive(Clone, Copy, Debug, PartialEq, Eq, Structural)]
pub enum DecodeError {
    UnexpectedEof,
    LineTooLong,
    NotUtf8,
    MissingClient,
    MissingServer,
    MissingClientPort,
    MissingServerPort,
    BadIpv4,
    BadIpv6,
    BadPort,
    UnknownFamily,
    WrongVersion,
    AddrLenTooLarge,
    Tcp4Short,
    Tcp6Short,
}

/// What the bytes read so far amount to.
#[derive(Clone, Copy, Debug, PartialEq, Eq, Structural)]
pub enum Parsed {
    /// Not decided yet: read this many more bytes.
    Short(usize),
    /// No header: this many leading bytes were looked at.
    Plain(usize),
    /// A header of this many bytes, with the endpoints that it asserts, if any.
    Header(usize, Option<ProxyEndpoints>),
    /// A malformed header.
    Bad(DecodeError),
}

/// The text of a decode error.
pub open spec fn decode_message(e: DecodeError) -> Seq<char> {
    match e {
        DecodeError::UnexpectedEof => "early eof"@,
        DecodeError::LineTooLong => "PROXY v1 header exceeds 107 bytes"@,
        DecodeError::NotUtf8 => "PROXY v1 not UTF-8"@,
        DecodeError::MissingClient => "v1 missing client"@,
        DecodeError::MissingServer => "v1 missing server"@,
        DecodeError::MissingClientPort => "v1 missing cport"@,
        DecodeError::MissingServerPort => "v1 missing sport"@,
        DecodeError::BadIpv4 => "v1 bad ipv4"@,
        DecodeError::BadIpv6 => "v1 bad ipv6"@,
        DecodeError::BadPort => "v1 bad port"@,
        DecodeError::UnknownFamily => "v1 unknown family"@,
        DecodeError::WrongVersion => "v2 wrong version"@,
        DecodeError::AddrLenTooLarge => "v2 addr_len too large"@,
        DecodeError::Tcp4Short => "v2 TCP4 short payload"@,
        DecodeError::Tcp6Short => "v2 TCP6 short payload"@,
    }
}

impl DecodeError {
    /// The text of the error.
    pub fn message(&self) -> (r: String)
        ensures
            r@ == decode_message(*self),
    {
        let s = match self {
            DecodeError::UnexpectedEof => "early eof",
            DecodeError::LineTooLong => "PROXY v1 header exceeds 107 bytes",
            DecodeError::NotUtf8 => "PROXY v1 not UTF-8",
            DecodeError::MissingClient => "v1 missing client",
            DecodeError::MissingServer => "v1 missing server",
            DecodeError::MissingClientPort => "v1 missing cport",
            DecodeError::MissingServerPort => "v1 missing sport",
            DecodeError::BadIpv4 => "v1 bad ipv4",
            DecodeError::BadIpv6 => "v1 bad ipv6",
            DecodeError::BadPort => "v1 bad port",
            DecodeError::UnknownFamily => "v1 unknown family",
            DecodeError::WrongVersion => "v2 wrong version",
            DecodeError::AddrLenTooLarge => "v2 addr_len too large",
            DecodeError::Tcp4Short => "v2 TCP4 short payload",
            DecodeError::Tcp6Short => "v2 TCP6 short payload",
        };
        s.to_owned()
    }
}

// ---- emission -----------------------------------------------------------

/// The fields of a v1 line after `PROXY `.
pub open spec fn v1_fields(client: SocketAddr, server: SocketAddr) -> Seq<Seq<char>> {
    match (addr_ip(client), addr_ip(server)) {
        (IpAddr::V4(c), IpAddr::V4(s)) => seq![
            "TCP4"@,
            v4_text(c),
            v4_text(s),
            dec(addr_port(client) as nat),
            dec(addr_port(server) as nat),
        ],
        (IpAddr::V6(c), IpAddr::V6(s)) => seq![
            "TCP6"@,
            v6_text(c),
            v6_text(s),
            dec(addr_port(client) as nat),
            dec(addr_port(server) as nat),
        ],
        _ => seq!["UNKNOWN"@],
    }
}

/// A v1 line: the keyword, the space-separated fields and CRLF.
pub open spec fn v1_line(client: SocketAddr, server: SocketAddr) -> Seq<char> {
    "PROXY "@ + join(v1_fields(client, server), ' ') + seq!['\r', '\n']
}

/// The bytes of an ASCII text.
pub open spec fn ascii_bytes(s: Seq<char>) -> Seq<u8> {
    Seq::new(s.len(), |i: int| s[i] as u8)
}

/// The v1 header.
pub open spec fn v1_header(client: SocketAddr, server: SocketAddr) -> Seq<u8> {
    ascii_bytes(v1_line(client, server))
}

/// Big-endian bytes of a sixteen-bit number.
pub open spec fn be16(n: u16) -> Seq<u8> {
    seq![(n / 256) as u8, (n % 256) as u8]
}

/// The octets of an IPv4 address.
pub open spec fn v4_octets(x: Ipv4Addr) -> Seq<u8> {
    seq![x.a, x.b, x.c, x.d]
}

/// The octets of an IPv6 address.
#[verifier::opaque]
pub open spec fn v6_octets(x: Ipv6Addr) -> Seq<u8> {
    be16(x.s0) + be16(x.s1) + be16(x.s2) + be16(x.s3) + be16(x.s4) + be16(x.s5) + be16(x.s6) + be16(
        x.s7,
    )
}

/// The v2 header. A pair of mixed family is announced as a LOCAL connection
/// with an empty address block.
pub open spec fn v2_header(client: SocketAddr, server: SocketAddr) -> Seq<u8> {
    let ports = be16(addr_port(client)) + be16(addr_port(server));
    match (addr_ip(client), addr_ip(server)) {
        (IpAddr::V4(c), IpAddr::V4(s)) => V2_SIG@ + seq![0x21u8, 0x11u8] + be16(12) + v4_octets(c)
            + v4_octets(s) + ports,
        (IpAddr::V6(c), IpAddr::V6(s)) => V2_SIG@ + seq![0x21u8, 0x21u8] + be16(36) + v6_octets(c)
            + v6_octets(s) + ports,
        _ => V2_SIG@ + seq![0x20u8, 0x00u8] + be16(0),
    }
}

/// The header of the given version.
pub open spec fn proxy_header(
    version: ProxyProto,
    client: SocketAddr,
    server: SocketAddr,
) -> Seq<u8> {
    match version {
        ProxyProto::V1 => v1_header(client, server),
        ProxyProto::V2 => v2_header(client, server),
    }
}

/// A printable ASCII character or a space.
pub open spec fn plain_char(c: char) -> bool {
    ' ' <= c && c <= '~'
}

/// Every character of `s` is printable ASCII or a space.
pub open spec fn plain_text(s: Seq<char>) -> bool {
    forall|i: int| 0 <= i < s.len() ==> plain_char(#[trigger] s[i])
}

/// An address character is printable and no space.
proof fn lemma_addr_plain(s: Seq<char>)
    requires
        addr_chars(s),
    ensures
        plain_text(s),
        !s.contains(' '),
{
    assert forall|i: int| 0 <= i < s.len() implies plain_char(#[trigger] s[i]) by {
        assert(addr_char(s[i]));
    }
    if s.contains(' ') {
        let i = choose|i: int| 0 <= i < s.len() && s[i] == ' ';
        assert(addr_char(s[i]));
        assert(digit_val(' ') == 16);
    }
}

/// The notation of a port is printable, short, and holds no space.
proof fn lemma_port_text(p: u16)
    ensures
        plain_text(dec(p as nat)),
        !dec(p as nat).contains(' '),
        1 <= dec(p as nat).len() <= 5,
        port_of(dec(p as nat)) == Some(p),
{
    let s = dec(p as nat);
    lemma_digits_num(p as nat, 10);
    lemma_dec_len(p as nat);
    assert(addr_chars(s));
    lemma_addr_plain(s);
    assert(digit_val(s[0]) < 10);
    assert(s[0] != '+');
}

/// The shape of the fields of a v1 line.
proof fn lemma_v1_fields(client: SocketAddr, server: SocketAddr)
    ensures
        ({
            let f = v1_fields(client, server);
            &&& forall|i: int| 0 <= i < f.len() ==> !(#[trigger] f[i]).contains(' ')
            &&& forall|i: int| 0 <= i < f.len() ==> plain_text(#[trigger] f[i])
            &&& plain_text(join(f, ' '))
            &&& join(f, ' ').len() <= 96
        }),
{
    reveal_strlit("TCP4");
    reveal_strlit("TCP6");
    reveal_strlit("UNKNOWN");
    let f = v1_fields(client, server);
    lemma_port_text(addr_port(client));
    lemma_port_text(addr_port(server));
    match (addr_ip(client), addr_ip(server)) {
        (IpAddr::V4(c), IpAddr::V4(s)) => {
            lemma_v4_text_shape(c);
            lemma_v4_text_shape(s);
            lemma_addr_plain(v4_text(c));
            lemma_addr_plain(v4_text(s));
        },
        (IpAddr::V6(c), IpAddr::V6(s)) => {
            lemma_v6_text_shape(c);
            lemma_v6_text_shape(s);
            lemma_addr_plain(v6_text(c));
            lemma_addr_plain(v6_text(s));
        },
        _ => {},
    }
    assert forall|i: int| 0 <= i < f.len() implies !(#[trigger] f[i]).contains(' ') && plain_text(
        f[i],
    ) by {
        assert(i == 0 || i == 1 || i == 2 || i == 3 || i == 4);
    }
    crate::text::lemma_join_all(f, ' ', |c: char| plain_char(c));
    if f.len() == 5 {
        let f1 = f.drop_first();
        let f2 = f1.drop_first();
        let f3 = f2.drop_first();
        let f4 = f3.drop_first();
        assert(join(f4, ' ') == f[4]);
        assert(join(f3, ' ').len() == f[3].len() + 1 + f[4].len());
        assert(join(f2, ' ').len() == f[2].len() + 1 + join(f3, ' ').len());
        assert(join(f1, ' ').len() == f[1].len() + 1 + join(f2, ' ').len());
        assert(join(f, ' ').len() == f[0].len() + 1 + join(f1, ' ').len());
    }
}

/// Law: a v1 header never exceeds the longest line that the decoder accepts.
pub proof fn law_v1_header_fits(client: SocketAddr, server: SocketAddr)
    ensures
        v1_header(client, server).len() <= V1_MAX_LINE,
{
    reveal_strlit("PROXY ");
    lemma_v1_fields(client, server);
}

/// The bytes of an ASCII text are its UTF-8 encoding.
proof fn lemma_ascii_bytes(s: Seq<char>)
    requires
        is_ascii_chars(s),
    ensures
        encode_utf8(s) == ascii_bytes(s),
        valid_utf8(ascii_bytes(s)),
        decode_utf8(ascii_bytes(s)) == s,
{
    is_ascii_chars_encode_utf8(s);
    assert(encode_utf8(s) =~= ascii_bytes(s));
    encode_utf8_valid_utf8(s);
    encode_utf8_decode_utf8(s);
}

/// A v1 line with five fields.
fn five_field_line(fam: &str, a: &str, b: &str, cp: &str, sp: &str) -> (r: String)
    ensures
        r@ == "PROXY "@ + join(seq![fam@, a@, b@, cp@, sp@], ' ') + seq!['\r', '\n'],
{
    let mut s = "PROXY ".to_owned();
    s.append(fam);
    s.append(" ");
    s.append(a);
    s.append(" ");
    s.append(b);
    s.append(" ");
    s.append(cp);
    s.append(" ");
    s.append(sp);
    s.append("\r\n");
    proof {
        reveal_strlit(" ");
        reveal_strlit("\r\n");
        assert(" "@ =~= seq![' ']);
        assert("\r\n"@ =~= seq!['\r', '\n']);
        let f = seq![fam@, a@, b@, cp@, sp@];
        let f1 = f.drop_first();
        let f2 = f1.drop_first();
        let f3 = f2.drop_first();
        let f4 = f3.drop_first();
        assert(join(f4, ' ') == sp@);
        assert(join(f3, ' ') == cp@.push(' ') + sp@);
        assert(join(f2, ' ') == b@.push(' ') + join(f3, ' '));
        assert(join(f1, ' ') == a@.push(' ') + join(f2, ' '));
        assert(join(f, ' ') == fam@.push(' ') + join(f1, ' '));
        assert(s@ =~= "PROXY "@ + join(f, ' ') + seq!['\r', '\n']);
    }
    s
}

/// A v1 line is ASCII.
proof fn lemma_v1_line_ascii(client: SocketAddr, server: SocketAddr)
    ensures
        is_ascii_chars(v1_line(client, server)),
{
    reveal_strlit("PROXY ");
    lemma_v1_fields(client, server);
    let b = join(v1_fields(client, server), ' ');
    let s = v1_line(client, server);
    assert forall|i: int| 0 <= i < s.len() implies '\0' <= #[trigger] s[i] <= '\u{7f}' by {
        if 6 <= i < 6 + b.len() {
            assert(s[i] == b[i - 6]);
            assert(plain_char(b[i - 6]));
        }
    }
}

/// Encodes a v1 header.
pub fn encode_v1(client: SocketAddr, server: SocketAddr) -> (r: Vec<u8>)
    ensures
        r@ == v1_header(client, server),
{
    let cp = dec_string(client.port() as u64);
    let sp = dec_string(server.port() as u64);
    let s: String = match (client.ip(), server.ip()) {
        (IpAddr::V4(c), IpAddr::V4(srv)) => {
            let a = c.to_text();
            let b = srv.to_text();
            five_field_line("TCP4", a.as_str(), b.as_str(), cp.as_str(), sp.as_str())
        },
        (IpAddr::V6(c), IpAddr::V6(srv)) => {
            let a = c.to_text();
            let b = srv.to_text();
            five_field_line("TCP6", a.as_str(), b.as_str(), cp.as_str(), sp.as_str())
        },
        _ => {
            proof {
                reveal_strlit("PROXY UNKNOWN\r\n");
                reveal_strlit("PROXY ");
                reveal_strlit("UNKNOWN");
                assert("PROXY UNKNOWN\r\n"@ =~= "PROXY "@ + "UNKNOWN"@ + seq!['\r', '\n']);
            }
            "PROXY UNKNOWN\r\n".to_owned()
        },
    };
    assert(s@ == v1_line(client, server));
    proof {
        lemma_v1_line_ascii(client, server);
        lemma_ascii_bytes(s@);
    }
    s.as_str().as_bytes_vec()
}

fn push_be16(out: &mut Vec<u8>, n: u16)
    ensures
        final(out)@ == old(out)@ + be16(n),
{
    let ghost before = out@;
    out.push((n / 256) as u8);
    out.push((n % 256) as u8);
    assert(out@ =~= before + be16(n));
}

fn push_v4(out: &mut Vec<u8>, x: Ipv4Addr)
    ensures
        final(out)@ == old(out)@ + v4_octets(x),
{
    let ghost before = out@;
    out.push(x.a);
    out.push(x.b);
    out.push(x.c);
    out.push(x.d);
    assert(out@ =~= before + v4_octets(x));
}

fn push_v6(out: &mut Vec<u8>, x: Ipv6Addr)
    ensures
        final(out)@ == old(out)@ + v6_octets(x),
{
    let ghost before = out@;
    push_be16(out, x.s0);
    push_be16(out, x.s1);
    push_be16(out, x.s2);
    push_be16(out, x.s3);
    push_be16(out, x.s4);
    push_be16(out, x.s5);
    push_be16(out, x.s6);
    push_be16(out, x.s7);
    reveal(v6_octets);
    assert(out@ =~= before + v6_octets(x));
}

/// Encodes a v2 header.
pub fn encode_v2(client: SocketAddr, server: SocketAddr) -> (r: Vec<u8>)
    ensures
        r@ == v2_header(client, server),
{
    let mut out: Vec<u8> = Vec::with_capacity(32);
    for i in 0..12usize
        invariant
            out@ == V2_SIG@.subrange(0, i as int),
    {
        out.push(V2_SIG[i]);
        assert(out@ =~= V2_SIG@.subrange(0, i + 1));
    }
    assert(out@ =~= V2_SIG@);
    match (client.ip(), server.ip()) {
        (IpAddr::V4(c), IpAddr::V4(s)) => {
            out.push(0x21);
            out.push(0x11);
            push_be16(&mut out, 12);
            push_v4(&mut out, c);
            push_v4(&mut out, s);
            push_be16(&mut out, client.port());
            push_be16(&mut out, server.port());
        },
        (IpAddr::V6(c), IpAddr::V6(s)) => {
            out.push(0x21);
            out.push(0x21);
            push_be16(&mut out, 36);
            push_v6(&mut out, c);
            push_v6(&mut out, s);
            push_be16(&mut out, client.port());
            push_be16(&mut out, server.port());
        },
        _ => {
            out.push(0x20);
            out.push(0x00);
            push_be16(&mut out, 0);
        },
    }
    assert(out@ =~= v2_header(client, server));
    out
}

/// Encodes a PROXY-protocol header for the `client` connection accepted on
/// `server_listen`.
pub fn encode_header(
    version: ProxyProto,
    client: SocketAddr,
    server_listen: SocketAddr,
) -> (r: Vec<u8>)
    ensures
        r@ == proxy_header(version, client, server_listen),
{
    match version {
        ProxyProto::V1 => encode_v1(client, server_listen),
        ProxyProto::V2 => encode_v2(client, server_listen),
    }
}

/// The port that a decimal text denotes; one leading `+` is allowed.
pub open spec fn port_of(s: Seq<char>) -> Option<u16> {
    let d = if s.len() > 1 && s[0] == '+' {
        s.subrange(1, s.len() as int)
    } else {
        s
    };
    if is_num(d, 10) && num(d, 10) <= 0xffff {
        Some(num(d, 10) as u16)
    } else {
        None
    }
}

// ---- decoding -----------------------------------------------------------

/// The endpoint that an IPv4 address field and a port field denote.
#[verifier::opaque]
pub open spec fn v4_endpoint(a: Seq<char>, p: Seq<char>) -> Result<SocketAddr, DecodeError> {
    if v4_of_text(a) is None {
        Err(DecodeError::BadIpv4)
    } else if port_of(p) is None {
        Err(DecodeError::BadPort)
    } else {
        Ok(addr_of(IpAddr::V4(v4_of_text(a)->0), port_of(p)->0))
    }
}

/// The endpoint that an IPv6 address field and a port field denote.
#[verifier::opaque]
pub open spec fn v6_endpoint(a: Seq<char>, p: Seq<char>) -> Result<SocketAddr, DecodeError> {
    if v6_of_text(a) is None {
        Err(DecodeError::BadIpv6)
    } else if port_of(p) is None {
        Err(DecodeError::BadPort)
    } else {
        Ok(addr_of(IpAddr::V6(v6_of_text(a)->0), port_of(p)->0))
    }
}

/// Both endpoints, or the first error.
pub open spec fn both(
    client: Result<SocketAddr, DecodeError>,
    server: Result<SocketAddr, DecodeError>,
) -> Result<Option<ProxyEndpoints>, DecodeError> {
    match (client, server) {
        (Err(e), _) => Err(e),
        (_, Err(e)) => Err(e),
        (Ok(client), Ok(server)) => Ok(Some(ProxyEndpoints { client, server })),
    }
}

/// What the text of a v1 line after `PROXY ` asserts. Fields beyond the fifth
/// are ignored.
pub open spec fn v1_endpoints(rest: Seq<char>) -> Result<Option<ProxyEndpoints>, DecodeError> {
    let f = split(rest, ' ');
    if begins(rest, "UNKNOWN"@) {
        Ok(None)
    } else if f.len() < 2 {
        Err(DecodeError::MissingClient)
    } else if f.len() < 3 {
        Err(DecodeError::MissingServer)
    } else if f.len() < 4 {
        Err(DecodeError::MissingClientPort)
    } else if f.len() < 5 {
        Err(DecodeError::MissingServerPort)
    } else if f[0] == "TCP4"@ {
        both(v4_endpoint(f[1], f[3]), v4_endpoint(f[2], f[4]))
    } else if f[0] == "TCP6"@ {
        both(v6_endpoint(f[1], f[3]), v6_endpoint(f[2], f[4]))
    } else {
        Err(DecodeError::UnknownFamily)
    }
}

/// What the bytes of a v1 line between `PROXY ` and CRLF assert.
pub open spec fn v1_body(body: Seq<u8>) -> Result<Option<ProxyEndpoints>, DecodeError> {
    if !valid_utf8(body) {
        Err(DecodeError::NotUtf8)
    } else {
        v1_endpoints(decode_utf8(body))
    }
}

/// The line that starts with six bytes of keyword ends, CRLF counted, at `n`.
pub open spec fn line_ends_at(b: Seq<u8>, n: int) -> bool {
    8 <= n <= b.len() && b[n - 2] == 0x0D && b[n - 1] == 0x0A
}

/// The first end of line at or after `n`, or -1.
pub open spec fn line_end(b: Seq<u8>, n: int) -> int
    decreases b.len() + 1 - n,
{
    if n > b.len() {
        -1
    } else if line_ends_at(b, n) {
        n
    } else {
        line_end(b, n + 1)
    }
}

/// What bytes that begin with `P` amount to.
pub open spec fn parse_v1(b: Seq<u8>) -> Parsed {
    if b.len() < 6 {
        Parsed::Short((6 - b.len()) as usize)
    } else if b.subrange(0, 6) != ascii_bytes("PROXY "@) {
        Parsed::Plain(6)
    } else {
        let n = line_end(b, 8);
        if 0 <= n <= V1_MAX_LINE {
            match v1_body(b.subrange(6, n - 2)) {
                Ok(e) => Parsed::Header(n as usize, e),
                Err(e) => Parsed::Bad(e),
            }
        } else if b.len() > V1_MAX_LINE {
            Parsed::Bad(DecodeError::LineTooLong)
        } else {
            Parsed::Short(1)
        }
    }
}

/// The sixteen-bit number in two big-endian bytes.
pub open spec fn u16_be(hi: u8, lo: u8) -> u16 {
    (hi * 256 + lo) as u16
}

/// The IPv4 address in the four bytes at `i`.
pub open spec fn v4_at(b: Seq<u8>, i: int) -> Ipv4Addr {
    Ipv4Addr { a: b[i], b: b[i + 1], c: b[i + 2], d: b[i + 3] }
}

/// The IPv6 address in the sixteen bytes at `i`.
pub open spec fn v6_at(b: Seq<u8>, i: int) -> Ipv6Addr {
    Ipv6Addr {
        s0: u16_be(b[i], b[i + 1]),
        s1: u16_be(b[i + 2], b[i + 3]),
        s2: u16_be(b[i + 4], b[i + 5]),
        s3: u16_be(b[i + 6], b[i + 7]),
        s4: u16_be(b[i + 8], b[i + 9]),
        s5: u16_be(b[i + 10], b[i + 11]),
        s6: u16_be(b[i + 12], b[i + 13]),
        s7: u16_be(b[i + 14], b[i + 15]),
    }
}

/// What a v2 header with command `cmd`, family byte `fam` and an address
/// block of `len` bytes from the seventeenth byte of `b` on asserts. Only TCP over IPv4 and IPv6 yields endpoints;
/// bytes beyond the addresses are ignored.
pub open spec fn v2_endpoints(cmd: u8, fam: u8, b: Seq<u8>, len: int) -> Result<
    Option<ProxyEndpoints>,
    DecodeError,
> {
    if cmd == 0 {
        Ok(None)
    } else if fam == 0x11 {
        if len < 12 {
            Err(DecodeError::Tcp4Short)
        } else {
            Ok(
                Some(
                    ProxyEndpoints {
                        client: addr_of(IpAddr::V4(v4_at(b, 16)), u16_be(b[24], b[25])),
                        server: addr_of(IpAddr::V4(v4_at(b, 20)), u16_be(b[26], b[27])),
                    },
                ),
            )
        }
    } else if fam == 0x21 {
        if len < 36 {
            Err(DecodeError::Tcp6Short)
        } else {
            Ok(
                Some(
                    ProxyEndpoints {
                        client: addr_of(IpAddr::V6(v6_at(b, 16)), u16_be(b[48], b[49])),
                        server: addr_of(IpAddr::V6(v6_at(b, 32)), u16_be(b[50], b[51])),
                    },
                ),
            )
        }
    } else {
        Ok(None)
    }
}

/// What bytes that begin with a carriage return amount to.
pub open spec fn parse_v2(b: Seq<u8>) -> Parsed {
    if b.len() < 12 {
        Parsed::Short((12 - b.len()) as usize)
    } else if b.subrange(0, 12) != V2_SIG@ {
        Parsed::Plain(12)
    } else if b.len() < 16 {
        Parsed::Short((16 - b.len()) as usize)
    } else if b[12] / 16 != 2 {
        Parsed::Bad(DecodeError::WrongVersion)
    } else {
        let len = u16_be(b[14], b[15]) as int;
        if len > V2_MAX_ADDR {
            Parsed::Bad(DecodeError::AddrLenTooLarge)
        } else if b.len() < 16 + len {
            Parsed::Short((16 + len - b.len()) as usize)
        } else {
            match v2_endpoints(b[12] % 16, b[13], b, len) {
                Ok(e) => Parsed::Header((16 + len) as usize, e),
                Err(e) => Parsed::Bad(e),
            }
        }
    }
}

/// What the leading bytes of a connection amount to.
pub open spec fn parse(b: Seq<u8>) -> Parsed {
    if b.len() == 0 {
        Parsed::Short(1)
    } else if b[0] == 0x50 {
        parse_v1(b)
    } else if b[0] == 0x0D {
        parse_v2(b)
    } else {
        Parsed::Plain(1)
    }
}

/// Reads a port field.
fn parse_port(v: &[char]) -> (r: Option<u16>)
    ensures
        r == port_of(v@),
{
    let mut start: usize = 0;
    if v.len() > 1 && v[0] == '+' {
        start = 1;
    }
    let d = cut(v, start, v.len());
    assert(v@.subrange(0, v@.len() as int) =~= v@);
    match parse_num(d.as_slice(), 10, 0xffff) {
        Some(n) => Some(n as u16),
        None => None,
    }
}

fn read_v4_endpoint(a: &Vec<char>, p: &Vec<char>) -> (r: Result<SocketAddr, DecodeError>)
    ensures
        r == v4_endpoint(a@, p@),
{
    reveal(v4_endpoint);
    match crate::addr::parse_v4_chars(a.as_slice()) {
        None => Err(DecodeError::BadIpv4),
        Some(ip) => match parse_port(p.as_slice()) {
            None => Err(DecodeError::BadPort),
            Some(port) => Ok(SocketAddr::new(IpAddr::V4(ip), port)),
        },
    }
}

fn read_v6_endpoint(a: &Vec<char>, p: &Vec<char>) -> (r: Result<SocketAddr, DecodeError>)
    ensures
        r == v6_endpoint(a@, p@),
{
    reveal(v6_endpoint);
    let t = string_of(a.as_slice());
    match parse_v6(t.as_str()) {
        None => Err(DecodeError::BadIpv6),
        Some(ip) => match parse_port(p.as_slice()) {
            None => Err(DecodeError::BadPort),
            Some(port) => Ok(SocketAddr::new(IpAddr::V6(ip), port)),
        },
    }
}

fn pair(
    client: Result<SocketAddr, DecodeError>,
    server: Result<SocketAddr, DecodeError>,
) -> (r: Result<Option<ProxyEndpoints>, DecodeError>)
    ensures
        r == both(client, server),
{
    match client {
        Err(e) => Err(e),
        Ok(client) => match server {
            Err(e) => Err(e),
            Ok(server) => Ok(Some(ProxyEndpoints { client, server })),
        },
    }
}

/// Reads the text of a v1 line after `PROXY `.
fn decode_v1_text(rest: &str) -> (r: Result<Option<ProxyEndpoints>, DecodeError>)
    ensures
        r == v1_endpoints(rest@),
{
    if begins_with(rest, "UNKNOWN") {
        return Ok(None);
    }
    let v = chars_of(rest);
    let f = split_chars(v.as_slice(), ' ');
    let ghost g = chars_views(f@);
    assert(g.len() == f@.len());
    if f.len() < 2 {
        return Err(DecodeError::MissingClient);
    }
    if f.len() < 3 {
        return Err(DecodeError::MissingServer);
    }
    if f.len() < 4 {
        return Err(DecodeError::MissingClientPort);
    }
    if f.len() < 5 {
        return Err(DecodeError::MissingServerPort);
    }
    assert(g[0] == f@[0]@ && g[1] == f@[1]@ && g[2] == f@[2]@ && g[3] == f@[3]@ && g[4] == f@[4]@);
    let fam = string_of(f[0].as_slice());
    if same(fam.as_str(), "TCP4") {
        pair(read_v4_endpoint(&f[1], &f[3]), read_v4_endpoint(&f[2], &f[4]))
    } else if same(fam.as_str(), "TCP6") {
        pair(read_v6_endpoint(&f[1], &f[3]), read_v6_endpoint(&f[2], &f[4]))
    } else {
        Err(DecodeError::UnknownFamily)
    }
}

/// The bytes of `v` from `a` up to `b`.
pub fn cut_bytes(v: &[u8], a: usize, b: usize) -> (r: Vec<u8>)
    requires
        a <= b <= v@.len(),
    ensures
        r@ == v@.subrange(a as int, b as int),
{
    let mut out: Vec<u8> = Vec::new();
    for i in a..b
        invariant
            a <= b <= v@.len(),
            out@ == v@.subrange(a as int, i as int),
    {
        out.push(v[i]);
        assert(out@ =~= v@.subrange(a as int, i + 1));
    }
    out
}

/// What [`line_end`] returns.
proof fn lemma_line_end(b: Seq<u8>, n: int)
    ensures
        line_end(b, n) == -1 || (n <= line_end(b, n) <= b.len() && line_ends_at(b, line_end(b, n))),
        line_end(b, n) == -1 ==> forall|j: int| n <= j ==> !line_ends_at(b, j),
        line_end(b, n) >= 0 ==> forall|j: int| n <= j < line_end(b, n) ==> !line_ends_at(b, j),
    decreases b.len() + 1 - n,
{
    if n <= b.len() && !line_ends_at(b, n) {
        lemma_line_end(b, n + 1);
    }
}

/// [`line_end`] is the only end with its properties.
proof fn lemma_line_end_unique(b: Seq<u8>, n: int)
    requires
        line_ends_at(b, n),
        forall|j: int| 8 <= j < n ==> !line_ends_at(b, j),
    ensures
        line_end(b, 8) == n,
{
    lemma_line_end(b, 8);
    let e = line_end(b, 8);
    if 0 <= e < n {
        assert(!line_ends_at(b, e));
    } else if e > n {
        assert(!line_ends_at(b, n));
    }
}

/// Decodes bytes that begin with `P`.
pub fn decode_v1(b: &[u8]) -> (r: Parsed)
    ensures
        r == parse_v1(b@),
{
    if b.len() < 6 {
        return Parsed::Short(6 - b.len());
    }
    proof {
        reveal_strlit("PROXY ");
        lemma_line_end(b@, 8);
        assert(b@.subrange(0, 6).len() == 6);
        if b@[0] == 0x50 && b@[1] == 0x52 && b@[2] == 0x4F && b@[3] == 0x58 && b@[4] == 0x59 && b@[5]
            == 0x20 {
            assert(b@.subrange(0, 6) =~= ascii_bytes("PROXY "@));
        } else {
            let s = b@.subrange(0, 6);
            let k = ascii_bytes("PROXY "@);
            assert(k[0] == 0x50 && k[1] == 0x52 && k[2] == 0x4F && k[3] == 0x58 && k[4] == 0x59
                && k[5] == 0x20);
            assert(s[0] != k[0] || s[1] != k[1] || s[2] != k[2] || s[3] != k[3] || s[4] != k[4]
                || s[5] != k[5]);
        }
    }
    if !(b[0] == 0x50 && b[1] == 0x52 && b[2] == 0x4F && b[3] == 0x58 && b[4] == 0x59 && b[5]
        == 0x20) {
        return Parsed::Plain(6);
    }
    let mut n: usize = 8;
    while n <= V1_MAX_LINE && n <= b.len() && !(b[n - 2] == 0x0D && b[n - 1] == 0x0A)
        invariant
            8 <= n <= V1_MAX_LINE + 1,
            n <= b@.len() + 1 || n == 8,
            forall|j: int| 8 <= j < n ==> !line_ends_at(b@, j),
        decreases V1_MAX_LINE + 1 - n,
    {
        n += 1;
    }
    if n <= V1_MAX_LINE && n <= b.len() {
        proof {
            lemma_line_end_unique(b@, n as int);
        }
        let body = cut_bytes(b, 6, n - 2);
        match utf8_text(body.as_slice()) {
            None => Parsed::Bad(DecodeError::NotUtf8),
            Some(t) => match decode_v1_text(t.as_str()) {
                Ok(e) => Parsed::Header(n, e),
                Err(e) => Parsed::Bad(e),
            },
        }
    } else {
        proof {
            let e = line_end(b@, 8);
            if 0 <= e <= V1_MAX_LINE {
                assert(line_ends_at(b@, e));
                assert(e < n);
            }
        }
        if b.len() > V1_MAX_LINE {
            Parsed::Bad(DecodeError::LineTooLong)
        } else {
            Parsed::Short(1)
        }
    }
}

fn read_u16(hi: u8, lo: u8) -> (r: u16)
    ensures
        r == u16_be(hi, lo),
{
    assert(hi * 256 + lo <= 0xffff);
    hi as u16 * 256 + lo as u16
}

fn read_v4(b: &[u8], i: usize) -> (r: Ipv4Addr)
    requires
        i + 4 <= b@.len(),
    ensures
        r == v4_at(b@, i as int),
{
    Ipv4Addr { a: b[i], b: b[i + 1], c: b[i + 2], d: b[i + 3] }
}

fn read_v6(b: &[u8], i: usize) -> (r: Ipv6Addr)
    requires
        i + 16 <= b@.len(),
    ensures
        r == v6_at(b@, i as int),
{
    Ipv6Addr {
        s0: read_u16(b[i], b[i + 1]),
        s1: read_u16(b[i + 2], b[i + 3]),
        s2: read_u16(b[i + 4], b[i + 5]),
        s3: read_u16(b[i + 6], b[i + 7]),
        s4: read_u16(b[i + 8], b[i + 9]),
        s5: read_u16(b[i + 10], b[i + 11]),
        s6: read_u16(b[i + 12], b[i + 13]),
        s7: read_u16(b[i + 14], b[i + 15]),
    }
}

/// Decodes bytes that begin with a carriage return.
pub fn decode_v2(b: &[u8]) -> (r: Parsed)
    ensures
        r == parse_v2(b@),
{
    if b.len() < 12 {
        return Parsed::Short(12 - b.len());
    }
    for i in 0..12usize
        invariant
            b@.len() >= 12,
            forall|j: int| 0 <= j < i ==> b@[j] == V2_SIG@[j],
    {
        if b[i] != V2_SIG[i] {
            assert(b@.subrange(0, 12)[i as int] != V2_SIG@[i as int]);
            return Parsed::Plain(12);
        }
    }
    assert(b@.subrange(0, 12) =~= V2_SIG@);
    if b.len() < 16 {
        return Parsed::Short(16 - b.len());
    }
    if b[12] / 16 != 2 {
        return Parsed::Bad(DecodeError::WrongVersion);
    }
    let len: usize = read_u16(b[14], b[15]) as usize;
    if len > V2_MAX_ADDR {
        return Parsed::Bad(DecodeError::AddrLenTooLarge);
    }
    if b.len() < 16 + len {
        return Parsed::Short(16 + len - b.len());
    }
    if b[12] % 16 == 0 {
        return Parsed::Header(16 + len, None);
    }
    match b[13] {
        0x11 => {
            if len < 12 {
                return Parsed::Bad(DecodeError::Tcp4Short);
            }
            let client = SocketAddr::new(IpAddr::V4(read_v4(b, 16)), read_u16(b[24], b[25]));
            let server = SocketAddr::new(IpAddr::V4(read_v4(b, 20)), read_u16(b[26], b[27]));
            Parsed::Header(16 + len, Some(ProxyEndpoints { client, server }))
        },
        0x21 => {
            if len < 36 {
                return Parsed::Bad(DecodeError::Tcp6Short);
            }
            let client = SocketAddr::new(IpAddr::V6(read_v6(b, 16)), read_u16(b[48], b[49]));
            let server = SocketAddr::new(IpAddr::V6(read_v6(b, 32)), read_u16(b[50], b[51]));
            Parsed::Header(16 + len, Some(ProxyEndpoints { client, server }))
        },
        _ => Parsed::Header(16 + len, None),
    }
}

/// Decides what the bytes read so far amount to. A reader that holds no byte
/// yet, and each time reads as many bytes as the answer asks for, learns
/// whether there is a header without reading past it.
pub fn decode_step(b: &[u8]) -> (r: Parsed)
    ensures
        r == parse(b@),
{
    if b.len() == 0 {
        return Parsed::Short(1);
    }
    match b[0] {
        0x50 => decode_v1(b),
        0x0D => decode_v2(b),
        _ => Parsed::Plain(1),
    }
}

/// What reading an optional header from a finished stream `input` gives: the
/// decode result and the number of bytes taken off the stream.
pub open spec fn optional_header(input: Seq<u8>) -> Result<
    (Option<ProxyEndpoints>, Seq<u8>, int),
    DecodeError,
> {
    match parse(input) {
        Parsed::Short(_) => if input.len() == 0 {
            Ok((None, Seq::empty(), 0int))
        } else {
            Err(DecodeError::UnexpectedEof)
        },
        Parsed::Plain(n) => Ok((None, input.subrange(0, n as int), n as int)),
        Parsed::Header(n, e) => Ok((e, Seq::empty(), n as int)),
        Parsed::Bad(e) => Err(e),
    }
}

/// Reads an optional PROXY-protocol header from the front of `input`, taken as
/// the whole stream. Gives the decode result and the number of bytes taken off
/// the stream.
pub fn read_optional_header(input: &[u8]) -> (r: Result<(ProxyDecode, usize), DecodeError>)
    ensures
        match optional_header(input@) {
            Ok((endpoints, leftover, taken)) => r is Ok && r->Ok_0.0.endpoints == endpoints
                && r->Ok_0.0.leftover@ == leftover && r->Ok_0.1 == taken,
            Err(e) => r == Err::<(ProxyDecode, usize), DecodeError>(e),
        },
{
    proof {
        lemma_parse_bounds(input@);
    }
    match decode_step(input) {
        Parsed::Short(_) => {
            if input.len() == 0 {
                let leftover: Vec<u8> = Vec::new();
                assert(leftover@ =~= Seq::<u8>::empty());
                Ok((ProxyDecode { endpoints: None, leftover }, 0))
            } else {
                Err(DecodeError::UnexpectedEof)
            }
        },
        Parsed::Plain(n) => {
            let leftover = cut_bytes(input, 0, n);
            Ok((ProxyDecode { endpoints: None, leftover }, n))
        },
        Parsed::Header(n, endpoints) => {
            let leftover: Vec<u8> = Vec::new();
            assert(leftover@ =~= Seq::<u8>::empty());
            Ok((ProxyDecode { endpoints, leftover }, n))
        },
        Parsed::Bad(e) => Err(e),
    }
}

/// What a whole datagram that is a v2 header for a TCP pair asserts.
pub open spec fn datagram_endpoints(datagram: Seq<u8>) -> Option<ProxyEndpoints> {
    match parse_v2(datagram) {
        Parsed::Header(_, e) => e,
        _ => None,
    }
}

/// The endpoints that a datagram announces. Anything that is not a well-formed
/// v2 header with endpoints gives none: such a datagram is payload.
pub fn decode_v2_from_datagram(datagram: &[u8]) -> (r: Option<ProxyEndpoints>)
    ensures
        r == datagram_endpoints(datagram@),
{
    match decode_v2(datagram) {
        Parsed::Header(_, e) => e,
        _ => None,
    }
}

/// A header, or the bytes that were looked at, lie within the input.
pub proof fn lemma_parse_bounds(b: Seq<u8>)
    ensures
        parse(b) is Plain ==> 1 <= parse(b)->Plain_0 <= b.len(),
        parse(b) is Header ==> 1 <= parse(b)->Header_0 <= b.len(),
        parse(b) is Short ==> parse(b)->Short_0 >= 1,
{
    lemma_line_end(b, 8);
}

/// Law: where there is no header, what was read and the rest of the stream
/// make up the stream again.
pub proof fn law_leftover_splices(input: Seq<u8>)
    requires
        parse(input) is Plain,
    ensures
        optional_header(input) is Ok,
        ({
            let (endpoints, leftover, taken) = optional_header(input)->Ok_0;
            endpoints is None && leftover + input.subrange(taken, input.len() as int) == input
        }),
{
    lemma_parse_bounds(input);
    let n = parse(input)->Plain_0 as int;
    assert(input.subrange(0, n) + input.subrange(n, input.len() as int) =~= input);
}

/// Law: once decided, the outcome does not depend on what follows.
pub proof fn law_decision_is_stable(b: Seq<u8>, rest: Seq<u8>)
    requires
        !(parse(b) is Short),
    ensures
        parse(b + rest) == parse(b),
{
    let w = b + rest;
    assert(b.len() > 0);
    assert(w[0] == b[0]);
    if b[0] == 0x50 {
        assert(w.subrange(0, 6) =~= b.subrange(0, 6));
        lemma_line_end_extends(b, rest);
        lemma_line_end(b, 8);
        lemma_line_end(w, 8);
        let n = line_end(b, 8);
        if b.subrange(0, 6) == ascii_bytes("PROXY "@) && 0 <= n <= V1_MAX_LINE {
            assert(w.subrange(6, n - 2) =~= b.subrange(6, n - 2));
        }
    } else if b[0] == 0x0D {
        assert(w.subrange(0, 12) =~= b.subrange(0, 12));
        if b.len() >= 16 {
            assert(w[12] == b[12] && w[13] == b[13] && w[14] == b[14] && w[15] == b[15]);
            let len = u16_be(b[14], b[15]) as int;
            if b.len() >= 16 + len {
                assert forall|i: int| 0 <= i < 16 + len implies w[i] == b[i] by {}
            }
        }
    }
}

/// An end of line within `b`, or the absence of one in the longest accepted
/// line, is the same in any extension.
proof fn lemma_line_end_extends(b: Seq<u8>, rest: Seq<u8>)
    ensures
        line_end(b, 8) >= 0 ==> line_end(b + rest, 8) == line_end(b, 8),
        line_end(b, 8) < 0 ==> line_end(b + rest, 8) < 0 || line_end(b + rest, 8) > b.len(),
{
    let w = b + rest;
    lemma_line_end(b, 8);
    lemma_line_end(w, 8);
    let n = line_end(b, 8);
    let m = line_end(w, 8);
    if n >= 0 {
        assert forall|j: int| 8 <= j < n implies !line_ends_at(w, j) by {
            assert(!line_ends_at(b, j));
        }
        assert(line_ends_at(w, n));
        lemma_line_end_unique(w, n);
    } else if 0 <= m <= b.len() {
        assert(line_ends_at(b, m));
    }
}

/// Law: a reader that takes as many bytes as it is asked for never reads past
/// the header, nor past the bytes that it hands back.
pub proof fn law_reader_stays_in_header(b: Seq<u8>, rest: Seq<u8>)
    requires
        parse(b) is Short,
    ensures
        parse(b + rest) is Header ==> parse(b + rest)->Header_0 >= b.len() + parse(b)->Short_0,
        parse(b + rest) is Plain ==> parse(b + rest)->Plain_0 >= b.len() + parse(b)->Short_0,
        rest.len() < parse(b)->Short_0 ==> parse(b + rest) is Short,
{
    let w = b + rest;
    lemma_parse_bounds(w);
    if b.len() > 0 {
        assert(w[0] == b[0]);
        if b[0] == 0x50 {
            lemma_line_end(w, 8);
            lemma_line_end(b, 8);
            lemma_line_end_extends(b, rest);
            if b.len() >= 6 {
                assert(w.subrange(0, 6) =~= b.subrange(0, 6));
                if rest.len() == 0 {
                    assert(w =~= b);
                }
            }
        } else if b[0] == 0x0D {
            if b.len() >= 12 {
                assert(w.subrange(0, 12) =~= b.subrange(0, 12));
            }
            if b.len() >= 16 {
                assert(w[12] == b[12] && w[13] == b[13] && w[14] == b[14] && w[15] == b[15]);
            }
        }
    }
}

/// What a decoder can recover of an address: no flow label, no scope.
pub open spec fn bare(x: SocketAddr) -> SocketAddr {
    addr_of(addr_ip(x), addr_port(x))
}

/// The endpoints that the header for a pair of addresses asserts.
pub open spec fn asserted(client: SocketAddr, server: SocketAddr) -> Option<ProxyEndpoints> {
    match (addr_ip(client), addr_ip(server)) {
        (IpAddr::V4(_), IpAddr::V4(_)) | (IpAddr::V6(_), IpAddr::V6(_)) => Some(
            ProxyEndpoints { client: bare(client), server: bare(server) },
        ),
        _ => None,
    }
}

/// Five fields whose first is an address family split again and are no
/// `UNKNOWN`.
proof fn lemma_five_fields(f: Seq<Seq<char>>)
    requires
        f.len() == 5,
        f[0] == "TCP4"@ || f[0] == "TCP6"@,
        forall|i: int| 0 <= i < f.len() ==> !(#[trigger] f[i]).contains(' '),
    ensures
        split(join(f, ' '), ' ') == f,
        !begins(join(f, ' '), "UNKNOWN"@),
{
    reveal_strlit("TCP4");
    reveal_strlit("TCP6");
    reveal_strlit("UNKNOWN");
    let t = join(f, ' ');
    lemma_split_join(f, ' ');
    assert(t == f[0].push(' ') + join(f.drop_first(), ' '));
    assert(t[0] == 'T');
    if begins(t, "UNKNOWN"@) {
        assert(t.subrange(0, 7)[0] == t[0]);
        assert("UNKNOWN"@[0] == 'U');
    }
}

proof fn lemma_v1_v4_read_back(c: Ipv4Addr, s: Ipv4Addr, cp: u16, sp: u16)
    ensures
        v4_endpoint(v4_text(c), dec(cp as nat)) == Ok::<SocketAddr, DecodeError>(
            addr_of(IpAddr::V4(c), cp),
        ),
        v4_endpoint(v4_text(s), dec(sp as nat)) == Ok::<SocketAddr, DecodeError>(
            addr_of(IpAddr::V4(s), sp),
        ),
{
    lemma_port_text(cp);
    lemma_port_text(sp);
    law_v4_text_reads_back(c);
    law_v4_text_reads_back(s);
    reveal(v4_endpoint);
}

proof fn lemma_v1_v6_read_back(c: Ipv6Addr, s: Ipv6Addr, cp: u16, sp: u16)
    ensures
        v6_endpoint(v6_text(c), dec(cp as nat)) == Ok::<SocketAddr, DecodeError>(
            addr_of(IpAddr::V6(c), cp),
        ),
        v6_endpoint(v6_text(s), dec(sp as nat)) == Ok::<SocketAddr, DecodeError>(
            addr_of(IpAddr::V6(s), sp),
        ),
        "TCP4"@ != "TCP6"@,
{
    lemma_port_text(cp);
    lemma_port_text(sp);
    law_v6_text_reads_back(c);
    law_v6_text_reads_back(s);
    reveal(v6_endpoint);
    reveal_strlit("TCP4");
    reveal_strlit("TCP6");
    assert("TCP4"@[3] != "TCP6"@[3]);
}

/// Five fields of a known family denote what their address and port fields do.
proof fn lemma_five_endpoints(
    f: Seq<Seq<char>>,
    client: Result<SocketAddr, DecodeError>,
    server: Result<SocketAddr, DecodeError>,
)
    requires
        f.len() == 5,
        forall|i: int| 0 <= i < f.len() ==> !(#[trigger] f[i]).contains(' '),
        ({
            ||| f[0] == "TCP4"@ && client == v4_endpoint(f[1], f[3]) && server == v4_endpoint(
                f[2],
                f[4],
            )
            ||| f[0] == "TCP6"@ && f[0] != "TCP4"@ && client == v6_endpoint(f[1], f[3]) && server
                == v6_endpoint(f[2], f[4])
        }),
    ensures
        v1_endpoints(join(f, ' ')) == both(client, server),
{
    lemma_five_fields(f);
}

/// The fields of an emitted v1 line hold no space.
proof fn lemma_v1_no_space(client: SocketAddr, server: SocketAddr)
    ensures
        forall|i: int|
            0 <= i < v1_fields(client, server).len() ==> !(#[trigger] v1_fields(
                client,
                server,
            )[i]).contains(' '),
{
    lemma_v1_fields(client, server);
}

/// The fields of an emitted v1 line read back.
proof fn lemma_v1_fields_read_back(client: SocketAddr, server: SocketAddr)
    ensures
        v1_endpoints(join(v1_fields(client, server), ' ')) == Ok::<
            Option<ProxyEndpoints>,
            DecodeError,
        >(asserted(client, server)),
{
    let f = v1_fields(client, server);
    let cp = addr_port(client);
    let sp = addr_port(server);
    lemma_v1_no_space(client, server);
    match (addr_ip(client), addr_ip(server)) {
        (IpAddr::V4(c), IpAddr::V4(s)) => {
            lemma_v1_v4_read_back(c, s, cp, sp);
            lemma_five_endpoints(
                f,
                Ok(addr_of(IpAddr::V4(c), cp)),
                Ok(addr_of(IpAddr::V4(s), sp)),
            );
        },
        (IpAddr::V6(c), IpAddr::V6(s)) => {
            lemma_v1_v6_read_back(c, s, cp, sp);
            lemma_five_endpoints(
                f,
                Ok(addr_of(IpAddr::V6(c), cp)),
                Ok(addr_of(IpAddr::V6(s), sp)),
            );
        },
        _ => {
            let t = "UNKNOWN"@;
            assert(join(f, ' ') == t);
            assert(t.subrange(0, t.len() as int) =~= t);
        },
    }
}

/// Law: an emitted v1 header, whatever follows it, decodes to the addresses
/// that it was made from, or to none for a pair of mixed family.
pub proof fn law_v1_round_trip(client: SocketAddr, server: SocketAddr, rest: Seq<u8>)
    ensures
        parse(v1_header(client, server) + rest) == Parsed::Header(
            v1_header(client, server).len() as usize,
            asserted(client, server),
        ),
{
    reveal_strlit("PROXY ");
    let h = v1_header(client, server);
    let t = join(v1_fields(client, server), ' ');
    let line = v1_line(client, server);
    lemma_v1_fields(client, server);
    law_v1_header_fits(client, server);
    lemma_v1_fields_read_back(client, server);
    let n = h.len() as int;
    assert(n == 6 + t.len() + 2);
    assert(is_ascii_chars(t)) by {
        assert forall|i: int| 0 <= i < t.len() implies '\0' <= #[trigger] t[i] <= '\u{7f}' by {
            assert(plain_char(t[i]));
        }
    }
    lemma_ascii_bytes(t);
    assert(h.subrange(0, 6) =~= ascii_bytes("PROXY "@));
    assert(h.subrange(6, n - 2) =~= ascii_bytes(t)) by {
        assert forall|i: int| 0 <= i < t.len() implies h[6 + i] == t[i] as u8 by {
            assert(line[6 + i] == t[i]);
        }
    }
    assert(h[0] == 0x50);
    assert(line[n - 2] == '\r' && line[n - 1] == '\n');
    assert(line_ends_at(h, n));
    assert forall|j: int| 8 <= j < n implies !line_ends_at(h, j) by {
        let k = j - 2;
        assert(line[k] == t[k - 6]);
        assert(plain_char(t[k - 6]));
        assert(h[k] == t[k - 6] as u8);
    }
    lemma_line_end_unique(h, n);
    assert(parse(h) == Parsed::Header(n as usize, asserted(client, server)));
    law_decision_is_stable(h, rest);
}

/// An IPv4 address reads back from its octets.
proof fn lemma_v4_at(pre: Seq<u8>, x: Ipv4Addr, post: Seq<u8>)
    ensures
        v4_at(pre + v4_octets(x) + post, pre.len() as int) == x,
{
}

/// A number reads back from its big-endian bytes.
proof fn lemma_u16_at(pre: Seq<u8>, n: u16, post: Seq<u8>)
    ensures
        u16_be(
            (pre + be16(n) + post)[pre.len() as int],
            (pre + be16(n) + post)[pre.len() as int + 1],
        ) == n,
{
}

/// An IPv6 address reads back from its octets.
proof fn lemma_v6_at(pre: Seq<u8>, x: Ipv6Addr, post: Seq<u8>)
    ensures
        v6_at(pre + v6_octets(x) + post, pre.len() as int) == x,
        v6_octets(x).len() == 16,
{
    let w = pre + v6_octets(x) + post;
    let o = v6_octets(x);
    let n = pre.len() as int;
    reveal(v6_octets);
    assert(o.len() == 16);
    assert forall|i: int| 0 <= i < 16 implies w[n + i] == o[i] by {}
    assert(u16_be(o[0], o[1]) == x.s0);
    assert(u16_be(o[2], o[3]) == x.s1);
    assert(u16_be(o[4], o[5]) == x.s2);
    assert(u16_be(o[6], o[7]) == x.s3);
    assert(u16_be(o[8], o[9]) == x.s4);
    assert(u16_be(o[10], o[11]) == x.s5);
    assert(u16_be(o[12], o[13]) == x.s6);
    assert(u16_be(o[14], o[15]) == x.s7);
}

proof fn lemma_v2_v4(c: Ipv4Addr, s: Ipv4Addr, cp: u16, sp: u16)
    ensures
        ({
            let h = V2_SIG@ + seq![0x21u8, 0x11u8] + be16(12) + v4_octets(c) + v4_octets(s) + (be16(
                cp,
            ) + be16(sp));
            parse(h) == Parsed::Header(
                28,
                Some(
                    ProxyEndpoints {
                        client: addr_of(IpAddr::V4(c), cp),
                        server: addr_of(IpAddr::V4(s), sp),
                    },
                ),
            ) && h.len() == 28
        }),
{
    let p0 = V2_SIG@ + seq![0x21u8, 0x11u8];
    let p1 = p0 + be16(12);
    let p2 = p1 + v4_octets(c);
    let p3 = p2 + v4_octets(s);
    let h = p3 + (be16(cp) + be16(sp));
    assert(h =~= p1 + v4_octets(c) + (v4_octets(s) + (be16(cp) + be16(sp))));
    lemma_v4_at(p1, c, v4_octets(s) + (be16(cp) + be16(sp)));
    lemma_v4_at(p2, s, be16(cp) + be16(sp));
    assert(h =~= p3 + be16(cp) + be16(sp));
    lemma_u16_at(p3, cp, be16(sp));
    assert(h =~= (p3 + be16(cp)) + be16(sp) + Seq::<u8>::empty());
    lemma_u16_at(p3 + be16(cp), sp, Seq::<u8>::empty());
    assert(h.subrange(0, 12) =~= V2_SIG@);
    assert(h[0] == V2_SIG@[0]);
    assert(h[12] == 0x21 && h[13] == 0x11 && h[14] == 0 && h[15] == 12);
}

/// Bytes that hold a v2 TCP6 header denote the addresses at its offsets.
proof fn lemma_v2_v6_bytes(h: Seq<u8>, c: Ipv6Addr, s: Ipv6Addr, cp: u16, sp: u16)
    requires
        h.len() == 52,
        h.subrange(0, 12) == V2_SIG@,
        h[0] == 0x0D,
        h[12] == 0x21,
        h[13] == 0x21,
        h[14] == 0,
        h[15] == 36,
        v6_at(h, 16) == c,
        v6_at(h, 32) == s,
        u16_be(h[48], h[49]) == cp,
        u16_be(h[50], h[51]) == sp,
    ensures
        parse(h) == Parsed::Header(
            52,
            Some(
                ProxyEndpoints {
                    client: addr_of(IpAddr::V6(c), cp),
                    server: addr_of(IpAddr::V6(s), sp),
                },
            ),
        ),
{
}

proof fn lemma_v2_v6(c: Ipv6Addr, s: Ipv6Addr, cp: u16, sp: u16)
    ensures
        ({
            let h = V2_SIG@ + seq![0x21u8, 0x21u8] + be16(36) + v6_octets(c) + v6_octets(s) + (be16(
                cp,
            ) + be16(sp));
            parse(h) == Parsed::Header(
                52,
                Some(
                    ProxyEndpoints {
                        client: addr_of(IpAddr::V6(c), cp),
                        server: addr_of(IpAddr::V6(s), sp),
                    },
                ),
            ) && h.len() == 52
        }),
{
    lemma_v6_at(seq![], c, seq![]);
    lemma_v6_at(seq![], s, seq![]);
    let a = be16(cp);
    let b = be16(sp);
    let h = V2_SIG@ + seq![0x21u8, 0x21u8] + be16(36) + v6_octets(c) + v6_octets(s) + (a + b);
    assert(u16_be(a[0], a[1]) == cp);
    assert(u16_be(b[0], b[1]) == sp);
    lemma_v2_v6_layout(v6_octets(c), v6_octets(s), a, b, c, s);
    lemma_v2_v6_bytes(h, c, s, cp, sp);
}

/// Where the parts of a v2 TCP6 header stand.
proof fn lemma_v2_v6_layout(
    oc: Seq<u8>,
    os: Seq<u8>,
    cp: Seq<u8>,
    sp: Seq<u8>,
    c: Ipv6Addr,
    s: Ipv6Addr,
)
    requires
        oc == v6_octets(c),
        os == v6_octets(s),
        oc.len() == 16,
        os.len() == 16,
        cp.len() == 2,
        sp.len() == 2,
    ensures
        ({
            let h = V2_SIG@ + seq![0x21u8, 0x21u8] + be16(36) + oc + os + (cp + sp);
            &&& h.len() == 52
            &&& h.subrange(0, 12) == V2_SIG@
            &&& h[0] == 0x0D
            &&& h[12] == 0x21
            &&& h[13] == 0x21
            &&& h[14] == 0
            &&& h[15] == 36
            &&& h[48] == cp[0]
            &&& h[49] == cp[1]
            &&& h[50] == sp[0]
            &&& h[51] == sp[1]
            &&& v6_at(h, 16) == c
            &&& v6_at(h, 32) == s
        }),
{
    let p1 = V2_SIG@ + seq![0x21u8, 0x21u8] + be16(36);
    let p2 = p1 + oc;
    let ports = cp + sp;
    let h = p2 + os + ports;
    assert(p1.len() == 16);
    assert(h =~= p1 + oc + (os + ports));
    lemma_v6_at(p1, c, os + ports);
    lemma_v6_at(p2, s, ports);
    assert(h.subrange(0, 12) =~= V2_SIG@);
    assert(h[0] == V2_SIG@[0]);
}

/// Law: an emitted v2 header, whatever follows it, decodes to the addresses
/// that it was made from, or to none for a pair of mixed family.
pub proof fn law_v2_round_trip(client: SocketAddr, server: SocketAddr, rest: Seq<u8>)
    ensures
        parse(v2_header(client, server) + rest) == Parsed::Header(
            v2_header(client, server).len() as usize,
            asserted(client, server),
        ),
{
    let h = v2_header(client, server);
    match (addr_ip(client), addr_ip(server)) {
        (IpAddr::V4(c), IpAddr::V4(s)) => {
            lemma_v2_v4(c, s, addr_port(client), addr_port(server));
        },
        (IpAddr::V6(c), IpAddr::V6(s)) => {
            lemma_v2_v6(c, s, addr_port(client), addr_port(server));
        },
        _ => {
            assert(h.subrange(0, 12) =~= V2_SIG@);
            assert(h[0] == V2_SIG@[0]);
            assert(h.len() == 16);
        },
    }
    law_decision_is_stable(h, rest);
}

/// Law: a v2 header for two IPv4 addresses is twenty-eight bytes: the
/// signature, version and command, family, length, the client's octets, the
/// server's, the client's port and the server's, all big-endian.
pub proof fn law_v2_layout_of_ipv4(client: SocketAddr, server: SocketAddr)
    requires
        client is V4,
        server is V4,
    ensures
        ({
            let h = v2_header(client, server);
            let c = client->V4_0;
            let s = server->V4_0;
            &&& h.len() == 28
            &&& h.subrange(0, 16) == seq![
                0x0Du8,
                0x0Au8,
                0x0Du8,
                0x0Au8,
                0x00u8,
                0x0Du8,
                0x0Au8,
                0x51u8,
                0x55u8,
                0x49u8,
                0x54u8,
                0x0Au8,
                0x21u8,
                0x11u8,
                0u8,
                12u8,
            ]
            &&& h[16] == c.ip.a && h[17] == c.ip.b && h[18] == c.ip.c && h[19] == c.ip.d
            &&& h[20] == s.ip.a && h[21] == s.ip.b && h[22] == s.ip.c && h[23] == s.ip.d
            &&& h[24] * 256 + h[25] == c.port
            &&& h[26] * 256 + h[27] == s.port
        }),
{
    let h = v2_header(client, server);
    assert(h.subrange(0, 16) =~= seq![
        0x0Du8,
        0x0Au8,
        0x0Du8,
        0x0Au8,
        0x00u8,
        0x0Du8,
        0x0Au8,
        0x51u8,
        0x55u8,
        0x49u8,
        0x54u8,
        0x0Au8,
        0x21u8,
        0x11u8,
        0u8,
        12u8,
    ]);
}

/// Law: a v2 header for two IPv6 addresses is fifty-two bytes, laid out as one
/// for IPv4 with sixteen octets for each address.
pub proof fn law_v2_layout_of_ipv6(client: SocketAddr, server: SocketAddr)
    requires
        client is V6,
        server is V6,
    ensures
        ({
            let h = v2_header(client, server);
            let c = client->V6_0;
            let s = server->V6_0;
            let group = |i: int| h[i] * 256 + h[i + 1];
            &&& h.len() == 52
            &&& h.subrange(0, 16) == seq![
                0x0Du8,
                0x0Au8,
                0x0Du8,
                0x0Au8,
                0x00u8,
                0x0Du8,
                0x0Au8,
                0x51u8,
                0x55u8,
                0x49u8,
                0x54u8,
                0x0Au8,
                0x21u8,
                0x21u8,
                0u8,
                36u8,
            ]
            &&& group(16) == c.ip.s0 && group(18) == c.ip.s1 && group(20) == c.ip.s2 && group(22)
                == c.ip.s3 && group(24) == c.ip.s4 && group(26) == c.ip.s5 && group(28) == c.ip.s6
                && group(30) == c.ip.s7
            &&& group(32) == s.ip.s0 && group(34) == s.ip.s1 && group(36) == s.ip.s2 && group(38)
                == s.ip.s3 && group(40) == s.ip.s4 && group(42) == s.ip.s5 && group(44) == s.ip.s6
                && group(46) == s.ip.s7
            &&& group(48) == c.port
            &&& group(50) == s.port
        }),
{
    reveal(v6_octets);
    let h = v2_header(client, server);
    assert(h.subrange(0, 16) =~= seq![
        0x0Du8,
        0x0Au8,
        0x0Du8,
        0x0Au8,
        0x00u8,
        0x0Du8,
        0x0Au8,
        0x51u8,
        0x55u8,
        0x49u8,
        0x54u8,
        0x0Au8,
        0x21u8,
        0x21u8,
        0u8,
        36u8,
    ]);
}

/// Law: a v2 header for addresses of two families asserts none: it is sixteen
/// bytes, with the LOCAL command and no address block.
pub proof fn law_v2_layout_of_a_mixed_pair(client: SocketAddr, server: SocketAddr)
    requires
        client is V4 != server is V4,
    ensures
        v2_header(client, server) == seq![
            0x0Du8,
            0x0Au8,
            0x0Du8,
            0x0Au8,
            0x00u8,
            0x0Du8,
            0x0Au8,
            0x51u8,
            0x55u8,
            0x49u8,
            0x54u8,
            0x0Au8,
            0x20u8,
            0u8,
            0u8,
            0u8,
        ],
{
    assert(v2_header(client, server) =~= seq![
        0x0Du8,
        0x0Au8,
        0x0Du8,
        0x0Au8,
        0x00u8,
        0x0Du8,
        0x0Au8,
        0x51u8,
        0x55u8,
        0x49u8,
        0x54u8,
        0x0Au8,
        0x20u8,
        0u8,
        0u8,
        0u8,
    ]);
}

/// Law: a v1 header is one line that names the family, the client's address,
/// the server's, the client's port and the server's; for addresses of two
/// families it says `UNKNOWN`.
pub proof fn law_v1_line_reads(client: SocketAddr, server: SocketAddr)
    ensures
        client is V4 && server is V4 ==> v1_line(client, server) == "PROXY TCP4 "@ + v4_text(
            client->V4_0.ip,
        ) + " "@ + v4_text(server->V4_0.ip) + " "@ + dec(client->V4_0.port as nat) + " "@ + dec(
            server->V4_0.port as nat,
        ) + "\r\n"@,
        client is V6 && server is V6 ==> v1_line(client, server) == "PROXY TCP6 "@ + v6_text(
            client->V6_0.ip,
        ) + " "@ + v6_text(server->V6_0.ip) + " "@ + dec(client->V6_0.port as nat) + " "@ + dec(
            server->V6_0.port as nat,
        ) + "\r\n"@,
        client is V4 != server is V4 ==> v1_line(client, server) == "PROXY UNKNOWN\r\n"@,
        v1_header(client, server).len() == v1_line(client, server).len(),
        forall|i: int|
            0 <= i < v1_line(client, server).len() ==> v1_header(client, server)[i] as nat
                == #[trigger] v1_line(client, server)[i] as nat,
{
    reveal_strlit("PROXY ");
    reveal_strlit("PROXY TCP4 ");
    reveal_strlit("PROXY TCP6 ");
    reveal_strlit("PROXY UNKNOWN\r\n");
    reveal_strlit("TCP4");
    reveal_strlit("TCP6");
    reveal_strlit("UNKNOWN");
    reveal_strlit(" ");
    reveal_strlit("\r\n");
    let f = v1_fields(client, server);
    let line = v1_line(client, server);
    if f.len() == 5 {
        let f1 = f.drop_first();
        let f2 = f1.drop_first();
        let f3 = f2.drop_first();
        let f4 = f3.drop_first();
        assert(join(f4, ' ') == f[4]);
        assert(join(f3, ' ') == f[3].push(' ') + f[4]);
        assert(join(f2, ' ') == f[2].push(' ') + join(f3, ' '));
        assert(join(f1, ' ') == f[1].push(' ') + join(f2, ' '));
        assert(join(f, ' ') == f[0].push(' ') + join(f1, ' '));
        assert(line =~= "PROXY "@ + f[0] + " "@ + f[1] + " "@ + f[2] + " "@ + f[3] + " "@ + f[4]
            + "\r\n"@);
        assert("PROXY "@ + "TCP4"@ + " "@ =~= "PROXY TCP4 "@);
        assert("PROXY "@ + "TCP6"@ + " "@ =~= "PROXY TCP6 "@);
    } else {
        assert(line =~= "PROXY UNKNOWN\r\n"@);
    }
    lemma_v1_line_ascii(client, server);
    assert forall|i: int| 0 <= i < line.len() implies v1_header(client, server)[i] as nat
        == #[trigger] line[i] as nat by {
        assert('\0' <= line[i] <= '\u{7f}');
    }
}

/// Law: the version that is asked for is the one that is emitted: v1 begins
/// with `P`, v2 with a carriage return.
pub proof fn law_version_is_the_one_asked_for(client: SocketAddr, server: SocketAddr)
    ensures
        proxy_header(ProxyProto::V1, client, server)[0] == 0x50,
        proxy_header(ProxyProto::V2, client, server)[0] == 0x0D,
        proxy_header(ProxyProto::V1, client, server) == v1_header(client, server),
        proxy_header(ProxyProto::V2, client, server) == v2_header(client, server),
{
    reveal_strlit("PROXY ");
    assert(v1_line(client, server)[0] == 'P');
    assert('P' as u8 == 0x50);
}

/// Law: a connection that does not open with one of the two signatures is not
/// touched, and no more of it is looked at than it takes to tell.
pub proof fn law_other_openings_are_plain(b: Seq<u8>)
    requires
        b.len() > 0,
    ensures
        b[0] != 0x50 && b[0] != 0x0D ==> parse(b) == Parsed::Plain(1),
        b[0] == 0x50 && b.len() >= 6 && !(b[1] == 0x52 && b[2] == 0x4F && b[3] == 0x58 && b[4]
            == 0x59 && b[5] == 0x20) ==> parse(b) == Parsed::Plain(6),
        b[0] == 0x0D && b.len() >= 12 && !(b[1] == 0x0A && b[2] == 0x0D && b[3] == 0x0A && b[4]
            == 0x00 && b[5] == 0x0D && b[6] == 0x0A && b[7] == 0x51 && b[8] == 0x55 && b[9] == 0x49
            && b[10] == 0x54 && b[11] == 0x0A) ==> parse(b) == Parsed::Plain(12),
        b[0] == 0x50 && b.len() < 6 ==> parse(b) == Parsed::Short((6 - b.len()) as usize),
        b[0] == 0x0D && b.len() < 12 ==> parse(b) == Parsed::Short((12 - b.len()) as usize),
{
    reveal_strlit("PROXY ");
    if b[0] == 0x50 && b.len() >= 6 {
        let k = ascii_bytes("PROXY "@);
        assert(k =~= seq![0x50u8, 0x52u8, 0x4Fu8, 0x58u8, 0x59u8, 0x20u8]);
        if b.subrange(0, 6) == k {
            assert(b[1] == k[1] && b[2] == k[2] && b[3] == k[3] && b[4] == k[4] && b[5] == k[5])
                by {
                assert(b.subrange(0, 6)[1] == b[1]);
                assert(b.subrange(0, 6)[2] == b[2]);
                assert(b.subrange(0, 6)[3] == b[3]);
                assert(b.subrange(0, 6)[4] == b[4]);
                assert(b.subrange(0, 6)[5] == b[5]);
            }
        }
    }
    if b[0] == 0x0D && b.len() >= 12 {
        let t = b.subrange(0, 12);
        if t == V2_SIG@ {
            assert(t[1] == b[1] && t[2] == b[2] && t[3] == b[3] && t[4] == b[4] && t[5] == b[5]
                && t[6] == b[6] && t[7] == b[7] && t[8] == b[8] && t[9] == b[9] && t[10] == b[10]
                && t[11] == b[11]);
        }
    }
}

/// Law: a v2 header is refused for another version or an address block of more
/// than 536 bytes; its length is read from its last two bytes. A LOCAL command
/// asserts nothing, whatever the family is; nor does any family but TCP over
/// IPv4 or IPv6, for which a short block is refused. What is asserted stands in
/// the block: the client's address, the server's, and their ports.
pub proof fn law_v2_header_reads(b: Seq<u8>)
    requires
        b.len() >= 16,
        b.subrange(0, 12) == seq![
            0x0Du8,
            0x0Au8,
            0x0Du8,
            0x0Au8,
            0x00u8,
            0x0Du8,
            0x0Au8,
            0x51u8,
            0x55u8,
            0x49u8,
            0x54u8,
            0x0Au8,
        ],
    ensures
        ({
            let version = b[12] / 16;
            let command = b[12] % 16;
            let len = b[14] * 256 + b[15];
            let whole = version == 2 && len <= 536 && b.len() >= 16 + len;
            let r = parse(b);
            &&& version != 2 ==> r == Parsed::Bad(DecodeError::WrongVersion)
            &&& version == 2 && len > 536 ==> r == Parsed::Bad(DecodeError::AddrLenTooLarge)
            &&& version == 2 && len <= 536 && b.len() < 16 + len ==> r == Parsed::Short(
                (16 + len - b.len()) as usize,
            )
            &&& whole && command == 0 ==> r == Parsed::Header((16 + len) as usize, None)
            &&& whole && b[13] != 0x11 && b[13] != 0x21 ==> r == Parsed::Header(
                (16 + len) as usize,
                None,
            )
            &&& whole && command != 0 && b[13] == 0x11 && len < 12 ==> r == Parsed::Bad(
                DecodeError::Tcp4Short,
            )
            &&& whole && command != 0 && b[13] == 0x21 && len < 36 ==> r == Parsed::Bad(
                DecodeError::Tcp6Short,
            )
            &&& whole && command != 0 && b[13] == 0x11 && len >= 12 ==> {
                let e = r->Header_1->0;
                &&& r is Header && r->Header_0 == 16 + len && r->Header_1 is Some
                &&& e.client is V4 && e.client->V4_0.ip == (Ipv4Addr {
                    a: b[16],
                    b: b[17],
                    c: b[18],
                    d: b[19],
                }) && e.client->V4_0.port == b[24] * 256 + b[25]
                &&& e.server is V4 && e.server->V4_0.ip == (Ipv4Addr {
                    a: b[20],
                    b: b[21],
                    c: b[22],
                    d: b[23],
                }) && e.server->V4_0.port == b[26] * 256 + b[27]
            }
            &&& whole && command != 0 && b[13] == 0x21 && len >= 36 ==> {
                let e = r->Header_1->0;
                let c = e.client->V6_0;
                let s = e.server->V6_0;
                let group = |i: int| b[i] * 256 + b[i + 1];
                &&& r is Header && r->Header_0 == 16 + len && r->Header_1 is Some
                &&& e.client is V6 && c.port == group(48) && c.flowinfo == 0 && c.scope_id == 0
                &&& c.ip.s0 == group(16) && c.ip.s1 == group(18) && c.ip.s2 == group(20) && c.ip.s3
                    == group(22) && c.ip.s4 == group(24) && c.ip.s5 == group(26) && c.ip.s6
                    == group(28) && c.ip.s7 == group(30)
                &&& e.server is V6 && s.port == group(50) && s.flowinfo == 0 && s.scope_id == 0
                &&& s.ip.s0 == group(32) && s.ip.s1 == group(34) && s.ip.s2 == group(36) && s.ip.s3
                    == group(38) && s.ip.s4 == group(40) && s.ip.s5 == group(42) && s.ip.s6
                    == group(44) && s.ip.s7 == group(46)
            }
        }),
{
    let sig = seq![
        0x0Du8,
        0x0Au8,
        0x0Du8,
        0x0Au8,
        0x00u8,
        0x0Du8,
        0x0Au8,
        0x51u8,
        0x55u8,
        0x49u8,
        0x54u8,
        0x0Au8,
    ];
    assert(V2_SIG@ =~= sig);
    assert(b[0] == b.subrange(0, 12)[0]);
}

/// Law: a datagram announces a client exactly where it opens with a whole v2
/// header that asserts one, and it is that client.
pub proof fn law_datagram_announces_what_its_header_asserts(b: Seq<u8>, n: usize, e: ProxyEndpoints)
    requires
        b.len() > 0,
        b[0] == 0x0D,
    ensures
        parse(b) == Parsed::Header(n, Some(e)) ==> datagram_endpoints(b) == Some(e),
        parse(b) == Parsed::Header(n, None) ==> datagram_endpoints(b) is None,
        !(parse(b) is Header) ==> datagram_endpoints(b) is None,
{
}

/// Law: a line that opens with the keyword is refused where it does not end
/// within 107 bytes, and read on byte by byte until then; one that ends is
/// taken off whole, with its line end.
pub proof fn law_v1_line_ends_in_time(b: Seq<u8>, n: int)
    requires
        b.len() >= 6,
        b.subrange(0, 6) == seq![0x50u8, 0x52u8, 0x4Fu8, 0x58u8, 0x59u8, 0x20u8],
    ensures
        ({
            let ends = |i: int| b[i - 2] == 0x0D && b[i - 1] == 0x0A;
            &&& (forall|i: int| 8 <= i <= b.len() && i <= 107 ==> !#[trigger] ends(i)) ==> parse(b)
                == (if b.len() > 107 {
                Parsed::Bad(DecodeError::LineTooLong)
            } else {
                Parsed::Short(1)
            })
            &&& 8 <= n <= b.len() && n <= 107 && ends(n) && (forall|i: int|
                8 <= i < n ==> !#[trigger] ends(i)) ==> {
                let body = b.subrange(6, n - 2);
                &&& !valid_utf8(body) ==> parse(b) == Parsed::Bad(DecodeError::NotUtf8)
                &&& valid_utf8(body) && v1_endpoints(decode_utf8(body)) is Ok ==> parse(b)
                    == Parsed::Header(n as usize, v1_endpoints(decode_utf8(body))->Ok_0)
                &&& valid_utf8(body) && v1_endpoints(decode_utf8(body)) is Err ==> parse(b)
                    == Parsed::Bad(v1_endpoints(decode_utf8(body))->Err_0)
            }
        }),
{
    reveal_strlit("PROXY ");
    let k = ascii_bytes("PROXY "@);
    assert(k =~= seq![0x50u8, 0x52u8, 0x4Fu8, 0x58u8, 0x59u8, 0x20u8]);
    assert(b[0] == b.subrange(0, 6)[0]);
    let ends = |i: int| b[i - 2] == 0x0D && b[i - 1] == 0x0A;
    lemma_line_end(b, 8);
    let m = line_end(b, 8);
    if forall|i: int| 8 <= i <= b.len() && i <= 107 ==> !#[trigger] ends(i) {
        if 0 <= m <= 107 {
            assert(ends(m));
        }
    }
    if 8 <= n <= b.len() && n <= 107 && ends(n) && (forall|i: int|
        8 <= i < n ==> !#[trigger] ends(i)) {
        assert forall|j: int| 8 <= j < n implies !line_ends_at(b, j) by {
            assert(!ends(j));
        }
        assert(line_ends_at(b, n));
        lemma_line_end_unique(b, n);
    }
}

/// The text of some fields splits into those fields, and does not begin with
/// `UNKNOWN` where the first of them is shorter than that.
proof fn lemma_fields_split(f: Seq<Seq<char>>)
    requires
        f.len() > 0,
        f[0].len() < 7,
        forall|i: int| 0 <= i < f.len() ==> !(#[trigger] f[i]).contains(' '),
    ensures
        split(join(f, ' '), ' ') == f,
        !begins(join(f, ' '), "UNKNOWN"@),
{
    reveal_strlit("UNKNOWN");
    lemma_split_join(f, ' ');
    let t = join(f, ' ');
    if begins(t, "UNKNOWN"@) {
        assert(t.subrange(0, 7) == "UNKNOWN"@);
        if f.len() == 1 {
            assert(t == f[0]);
        } else {
            assert(t == f[0].push(' ') + join(f.drop_first(), ' '));
            let k = f[0].len() as int;
            assert(t[k] == ' ');
            assert(t.subrange(0, 7)[k] == ' ');
        }
        assert(false);
    }
}

/// Law: a v1 line that says `UNKNOWN` asserts nothing, whatever follows; one
/// with too few fields is refused for the first that is missing, and one of
/// another family than TCP over IPv4 or IPv6 for that.
pub proof fn law_v1_line_has_five_fields(
    family: Seq<char>,
    client: Seq<char>,
    server: Seq<char>,
    client_port: Seq<char>,
    server_port: Seq<char>,
    rest: Seq<char>,
)
    requires
        family.len() < 7,
        !family.contains(' '),
        !client.contains(' '),
        !server.contains(' '),
        !client_port.contains(' '),
        !server_port.contains(' '),
    ensures
        v1_endpoints("UNKNOWN"@ + rest) == Ok::<Option<ProxyEndpoints>, DecodeError>(None),
        v1_endpoints(join(seq![family], ' ')) == Err::<Option<ProxyEndpoints>, DecodeError>(
            DecodeError::MissingClient,
        ),
        v1_endpoints(join(seq![family, client], ' ')) == Err::<Option<ProxyEndpoints>, DecodeError>(
            DecodeError::MissingServer,
        ),
        v1_endpoints(join(seq![family, client, server], ' ')) == Err::<
            Option<ProxyEndpoints>,
            DecodeError,
        >(DecodeError::MissingClientPort),
        v1_endpoints(join(seq![family, client, server, client_port], ' ')) == Err::<
            Option<ProxyEndpoints>,
            DecodeError,
        >(DecodeError::MissingServerPort),
        family != "TCP4"@ && family != "TCP6"@ ==> v1_endpoints(
            join(seq![family, client, server, client_port, server_port], ' '),
        ) == Err::<Option<ProxyEndpoints>, DecodeError>(DecodeError::UnknownFamily),
{
    reveal_strlit("UNKNOWN");
    assert(begins("UNKNOWN"@ + rest, "UNKNOWN"@)) by {
        assert(("UNKNOWN"@ + rest).subrange(0, 7) =~= "UNKNOWN"@);
    }
    lemma_fields_split(seq![family]);
    lemma_fields_split(seq![family, client]);
    lemma_fields_split(seq![family, client, server]);
    lemma_fields_split(seq![family, client, server, client_port]);
    lemma_fields_split(seq![family, client, server, client_port, server_port]);
}

/// Law: the fields of a v1 line for IPv4 are the client's address, the server's,
/// the client's port and the server's. The client's are looked at first, and
/// an address before its port.
pub proof fn law_v1_ipv4_fields(
    client: Seq<char>,
    server: Seq<char>,
    client_port: Seq<char>,
    server_port: Seq<char>,
)
    requires
        !client.contains(' '),
        !server.contains(' '),
        !client_port.contains(' '),
        !server_port.contains(' '),
    ensures
        ({
            let r = v1_endpoints(
                join(seq!["TCP4"@, client, server, client_port, server_port], ' '),
            );
            let c = v4_of_text(client);
            let s = v4_of_text(server);
            let cp = port_of(client_port);
            let sp = port_of(server_port);
            &&& c is Some && s is Some && cp is Some && sp is Some ==> r == Ok::<
                Option<ProxyEndpoints>,
                DecodeError,
            >(
                Some(
                    ProxyEndpoints {
                        client: addr_of(IpAddr::V4(c->0), cp->0),
                        server: addr_of(IpAddr::V4(s->0), sp->0),
                    },
                ),
            )
            &&& c is None || (cp is Some && s is None) ==> r == Err::<
                Option<ProxyEndpoints>,
                DecodeError,
            >(DecodeError::BadIpv4)
            &&& c is Some && (cp is None || (s is Some && sp is None)) ==> r == Err::<
                Option<ProxyEndpoints>,
                DecodeError,
            >(DecodeError::BadPort)
        }),
{
    reveal_strlit("TCP4");
    reveal(v4_endpoint);
    lemma_fields_split(seq!["TCP4"@, client, server, client_port, server_port]);
}

/// Law: the fields of a v1 line for IPv6 are the client's address, the server's,
/// the client's port and the server's. The client's are looked at first, and
/// an address before its port.
pub proof fn law_v1_ipv6_fields(
    client: Seq<char>,
    server: Seq<char>,
    client_port: Seq<char>,
    server_port: Seq<char>,
)
    requires
        !client.contains(' '),
        !server.contains(' '),
        !client_port.contains(' '),
        !server_port.contains(' '),
    ensures
        ({
            let r = v1_endpoints(
                join(seq!["TCP6"@, client, server, client_port, server_port], ' '),
            );
            let c = v6_of_text(client);
            let s = v6_of_text(server);
            let cp = port_of(client_port);
            let sp = port_of(server_port);
            &&& c is Some && s is Some && cp is Some && sp is Some ==> r == Ok::<
                Option<ProxyEndpoints>,
                DecodeError,
            >(
                Some(
                    ProxyEndpoints {
                        client: addr_of(IpAddr::V6(c->0), cp->0),
                        server: addr_of(IpAddr::V6(s->0), sp->0),
                    },
                ),
            )
            &&& c is None || (cp is Some && s is None) ==> r == Err::<
                Option<ProxyEndpoints>,
                DecodeError,
            >(DecodeError::BadIpv6)
            &&& c is Some && (cp is None || (s is Some && sp is None)) ==> r == Err::<
                Option<ProxyEndpoints>,
                DecodeError,
            >(DecodeError::BadPort)
        }),
{
    reveal_strlit("TCP4");
    reveal_strlit("TCP6");
    reveal(v6_endpoint);
    let f = seq!["TCP6"@, client, server, client_port, server_port];
    assert("TCP6"@[3] == '6' && "TCP4"@[3] == '4');
    lemma_fields_split(f);
}

/// Law: a port is read from its decimal notation, with or without a plus sign
/// in front, up to the largest there is.
pub proof fn law_port_is_read(n: nat)
    ensures
        n <= 0xffff ==> port_of(dec(n)) == Some(n as u16) && port_of("+"@ + dec(n)) == Some(
            n as u16,
        ),
        n > 0xffff ==> port_of(dec(n)) is None && port_of("+"@ + dec(n)) is None,
        port_of(""@) is None,
        port_of("+"@) is None,
{
    reveal_strlit("+");
    reveal_strlit("");
    lemma_digits_num(n, 10);
    let s = dec(n);
    let t = "+"@ + s;
    assert(t.subrange(1, t.len() as int) =~= s);
    assert(s[0] != '+') by {
        assert(digit_val(s[0]) < 10);
    }
    assert(digit_val("+"@[0]) == 16);
}

/// Law: a stream that ends before it is decided is an error, unless nothing
/// came at all; a header is taken off the stream, and what was looked at of any
/// other opening is handed back.
pub proof fn law_header_is_taken_off_the_stream(input: Seq<u8>)
    ensures
        input.len() == 0 ==> optional_header(input) is Ok && (optional_header(input)->Ok_0).0 is None
            && (optional_header(input)->Ok_0).1.len() == 0 && (optional_header(input)->Ok_0).2 == 0,
        input.len() > 0 && parse(input) is Short ==> optional_header(input) is Err
            && optional_header(input)->Err_0 == DecodeError::UnexpectedEof,
        parse(input) is Bad ==> optional_header(input) is Err && optional_header(input)->Err_0
            == parse(input)->Bad_0,
        parse(input) is Header ==> optional_header(input) is Ok && (optional_header(input)->Ok_0).0
            == parse(input)->Header_1 && (optional_header(input)->Ok_0).1.len() == 0 && (
        optional_header(input)->Ok_0).2 == parse(input)->Header_0,
        parse(input) is Plain ==> optional_header(input) is Ok && (optional_header(
            input,
        )->Ok_0).0 is None && (optional_header(input)->Ok_0).2 == parse(input)->Plain_0 && (
        optional_header(input)->Ok_0).1 == input.subrange(0, parse(input)->Plain_0 as int),
{
}

} // verus!
