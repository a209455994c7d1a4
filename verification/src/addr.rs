//! Network addresses as plain values, with their text notation.
//!
//! The notation is the usual one: dotted decimal for IPv4, and for IPv6 the
//! shortest lowercase form, in which the first longest run of two or more zero
//! groups becomes `::` and an IPv4-mapped address keeps its dotted tail.

use vstd::prelude::*;
use vstd::string::*;

use crate::text::{
    chars_of, chars_views, cut, dec, dec_string, digit_val, hex, hex_string, is_num, join, join2,
    join3, lemma_dec_len, lemma_digits_lead, lemma_digits_num, lemma_hex_len, lemma_join_all,
    lemma_join_chars, lemma_join_len, lemma_split_cons, lemma_split_join, lemma_split_single, num,
    parse_num, split, split_chars,
};

verus! {

broadcast use vstd::string::group_string_axioms;

/// An IPv4 address, one field per octet.
#[derive(Clone, Copy, Debug, PartialEq, Eq, Structural, Hash, PartialOrd, Ord)]
pub struct Ipv4Addr {
    pub a: u8,
    pub b: u8,
    pub c: u8,
    pub d: u8,
}

/// An IPv6 address, one field per sixteen-bit group.
#[derive(Clone, Copy, Debug, PartialEq, Eq, Structural, Hash, PartialOrd, Ord)]
pub struct Ipv6Addr {
    pub s0: u16,
    pub s1: u16,
    pub s2: u16,
    pub s3: u16,
    pub s4: u16,
    pub s5: u16,
    pub s6: u16,
    pub s7: u16,
}

/// An address of either family.
#[derive(Clone, Copy, Debug, PartialEq, Eq, Structural, Hash, PartialOrd, Ord)]
pub enum IpAddr {
    V4(Ipv4Addr),
    V6(Ipv6Addr),
}

/// An IPv4 address and a port.
#[derive(Clone, Copy, Debug, PartialEq, Eq, Structural, Hash, PartialOrd, Ord)]
pub struct SocketAddrV4 {
    pub ip: Ipv4Addr,
    pub port: u16,
}

/// An IPv6 address and a port, with the flow label and the scope that a kernel
/// may attach to a peer address.
#[derive(Clone, Copy, Debug, PartialEq, Eq, Structural, Hash, PartialOrd, Ord)]
pub struct SocketAddrV6 {
    pub ip: Ipv6Addr,
    pub port: u16,
    pub flowinfo: u32,
    pub scope_id: u32,
}

/// An address and a port of either family.
#[derive(Clone, Copy, Debug, PartialEq, Eq, Structural, Hash, PartialOrd, Ord)]
pub enum SocketAddr {
    V4(SocketAddrV4),
    V6(SocketAddrV6),
}

/// The four pieces of a dotted-decimal notation.
pub open spec fn v4_pieces(x: Ipv4Addr) -> Seq<Seq<char>> {
    seq![dec(x.a as nat), dec(x.b as nat), dec(x.c as nat), dec(x.d as nat)]
}

/// Dotted-decimal notation.
pub open spec fn v4_text(x: Ipv4Addr) -> Seq<char> {
    join(v4_pieces(x), '.')
}

/// A piece of a dotted-decimal notation: one to three decimal digits, no
/// leading zero, at most 255.
pub open spec fn octet_of(s: Seq<char>) -> Option<u8> {
    if is_num(s, 10) && s.len() <= 3 && (s.len() == 1 || s[0] != '0') && num(s, 10) <= 255 {
        Some(num(s, 10) as u8)
    } else {
        None
    }
}

/// The address that a dotted-decimal text denotes, if it denotes one.
pub open spec fn v4_of_text(s: Seq<char>) -> Option<Ipv4Addr> {
    let p = split(s, '.');
    if p.len() == 4 && octet_of(p[0]) is Some && octet_of(p[1]) is Some && octet_of(p[2]) is Some
        && octet_of(p[3]) is Some {
        Some(
            Ipv4Addr {
                a: octet_of(p[0])->0,
                b: octet_of(p[1])->0,
                c: octet_of(p[2])->0,
                d: octet_of(p[3])->0,
            },
        )
    } else {
        None
    }
}

impl Ipv4Addr {
    /// The address with the given octets.
    pub fn new(a: u8, b: u8, c: u8, d: u8) -> (r: Ipv4Addr)
        ensures
            r == (Ipv4Addr { a, b, c, d }),
    {
        Ipv4Addr { a, b, c, d }
    }

    /// Dotted-decimal notation.
    pub fn to_text(&self) -> (r: String)
        ensures
            r@ == v4_text(*self),
    {
        let d3 = dec_string(self.d as u64);
        let c3 = dec_string(self.c as u64);
        let b3 = dec_string(self.b as u64);
        let a3 = dec_string(self.a as u64);
        let t2 = join3(c3.as_str(), ".", d3.as_str());
        let t1 = join3(b3.as_str(), ".", t2.as_str());
        let r = join3(a3.as_str(), ".", t1.as_str());
        proof {
            reveal_strlit(".");
            let p = v4_pieces(*self);
            assert("."@ =~= seq!['.']);
            assert(p.drop_first() =~= seq![p[1], p[2], p[3]]);
            assert(p.drop_first().drop_first() =~= seq![p[2], p[3]]);
            assert(p.drop_first().drop_first().drop_first() =~= seq![p[3]]);
            assert(join(seq![p[3]], '.') == p[3]);
            assert(join(seq![p[2], p[3]], '.') =~= t2@);
            assert(join(seq![p[1], p[2], p[3]], '.') =~= t1@);
            assert(join(p, '.') =~= r@);
        }
        r
    }
}

/// Reads one piece of a dotted-decimal notation.
fn parse_octet(v: &[char]) -> (r: Option<u8>)
    ensures
        r == octet_of(v@),
{
    if v.len() > 3 || v.len() == 0 {
        return None;
    }
    if v.len() > 1 && v[0] == '0' {
        return None;
    }
    match parse_num(v, 10, 255) {
        Some(n) => Some(n as u8),
        None => None,
    }
}

/// Reads a dotted-decimal notation.
pub fn parse_v4_chars(v: &[char]) -> (r: Option<Ipv4Addr>)
    ensures
        r == v4_of_text(v@),
{
    let p = split_chars(v, '.');
    assert(chars_views(p@).len() == p@.len());
    if p.len() != 4 {
        return None;
    }
    assert(forall|i: int| 0 <= i < 4 ==> chars_views(p@)[i] == (#[trigger] p@[i])@);
    let a = parse_octet(p[0].as_slice());
    let b = parse_octet(p[1].as_slice());
    let c = parse_octet(p[2].as_slice());
    let d = parse_octet(p[3].as_slice());
    match (a, b, c, d) {
        (Some(a), Some(b), Some(c), Some(d)) => Some(Ipv4Addr { a, b, c, d }),
        _ => None,
    }
}

/// Reads a dotted-decimal notation.
pub fn parse_v4(s: &str) -> (r: Option<Ipv4Addr>)
    ensures
        r == v4_of_text(s@),
{
    let v = chars_of(s);
    parse_v4_chars(v.as_slice())
}

/// The decimal notation of an octet reads back.
proof fn lemma_octet(n: u8)
    ensures
        octet_of(dec(n as nat)) == Some(n),
        !dec(n as nat).contains('.'),
        !dec(n as nat).contains(':'),
        dec(n as nat).len() <= 3,
{
    lemma_digits_num(n as nat, 10);
    lemma_digits_lead(n as nat, 10);
    lemma_dec_len(n as nat);
    lemma_num_chars(dec(n as nat), 10);
}

/// A run of digits holds neither separator.
proof fn lemma_num_chars(s: Seq<char>, b: nat)
    requires
        is_num(s, b),
        b <= 16,
    ensures
        !s.contains('.'),
        !s.contains(':'),
        !s.contains(' '),
{
    if s.contains('.') {
        let i = choose|i: int| 0 <= i < s.len() && s[i] == '.';
        assert(digit_val(s[i]) == 16);
    }
    if s.contains(':') {
        let i = choose|i: int| 0 <= i < s.len() && s[i] == ':';
        assert(digit_val(s[i]) == 16);
    }
    if s.contains(' ') {
        let i = choose|i: int| 0 <= i < s.len() && s[i] == ' ';
        assert(digit_val(s[i]) == 16);
    }
}

/// Law: reading the dotted-decimal notation of an address gives the address.
pub proof fn law_v4_text_reads_back(x: Ipv4Addr)
    ensures
        v4_of_text(v4_text(x)) == Some(x),
{
    let p = v4_pieces(x);
    lemma_octet(x.a);
    lemma_octet(x.b);
    lemma_octet(x.c);
    lemma_octet(x.d);
    assert forall|i: int| 0 <= i < p.len() implies !(#[trigger] p[i]).contains('.') by {
        assert(i == 0 || i == 1 || i == 2 || i == 3);
    }
    lemma_split_join(p, '.');
}

/// The eight groups of an address.
pub open spec fn segs(x: Ipv6Addr) -> Seq<u16> {
    seq![x.s0, x.s1, x.s2, x.s3, x.s4, x.s5, x.s6, x.s7]
}

/// The address with the given eight groups.
pub open spec fn v6_of_segs(s: Seq<u16>) -> Ipv6Addr {
    Ipv6Addr {
        s0: s[0],
        s1: s[1],
        s2: s[2],
        s3: s[3],
        s4: s[4],
        s5: s[5],
        s6: s[6],
        s7: s[7],
    }
}

/// Number of consecutive zero groups from position `i` on.
pub open spec fn zero_run(s: Seq<u16>, i: int) -> int
    decreases s.len() - i,
{
    if 0 <= i < s.len() && s[i] == 0 {
        1 + zero_run(s, i + 1)
    } else {
        0
    }
}

/// Start of the first longest zero run among the first `n` positions.
pub open spec fn longest_run(s: Seq<u16>, n: int) -> int
    decreases n,
{
    if n <= 1 {
        0
    } else {
        let m = longest_run(s, n - 1);
        if zero_run(s, n - 1) > zero_run(s, m) {
            n - 1
        } else {
            m
        }
    }
}

/// The hexadecimal pieces of a list of groups.
pub open spec fn hex_pieces(s: Seq<u16>) -> Seq<Seq<char>> {
    Seq::new(s.len(), |i: int| hex(s[i] as nat))
}

/// A list of groups, colon-separated.
pub open spec fn groups_text(s: Seq<u16>) -> Seq<char> {
    join(hex_pieces(s), ':')
}

/// The address is an IPv4-mapped one.
pub open spec fn is_mapped(x: Ipv6Addr) -> bool {
    x.s0 == 0 && x.s1 == 0 && x.s2 == 0 && x.s3 == 0 && x.s4 == 0 && x.s5 == 0xffff
}

/// The IPv4 address in the last two groups.
pub open spec fn low_v4(x: Ipv6Addr) -> Ipv4Addr {
    Ipv4Addr {
        a: (x.s6 / 256) as u8,
        b: (x.s6 % 256) as u8,
        c: (x.s7 / 256) as u8,
        d: (x.s7 % 256) as u8,
    }
}

/// The notation of an IPv6 address.
pub open spec fn v6_text(x: Ipv6Addr) -> Seq<char> {
    let s = segs(x);
    let start = longest_run(s, 8);
    let len = zero_run(s, start);
    if is_mapped(x) {
        seq![':', ':', 'f', 'f', 'f', 'f', ':'] + v4_text(low_v4(x))
    } else if len > 1 {
        groups_text(s.subrange(0, start)) + seq![':', ':'] + groups_text(s.subrange(start + len, 8))
    } else {
        groups_text(s)
    }
}

/// One group: one to four hexadecimal digits.
pub open spec fn group_of(p: Seq<char>) -> Option<u16> {
    if is_num(p, 16) && p.len() <= 4 && num(p, 16) <= 0xffff {
        Some(num(p, 16) as u16)
    } else {
        None
    }
}

/// The two groups that an IPv4 address fills.
pub open spec fn v4_groups(x: Ipv4Addr) -> Seq<u16> {
    seq![(x.a * 256 + x.b) as u16, (x.c * 256 + x.d) as u16]
}

/// The groups that the pieces denote; with `dotted`, the last piece may be an
/// IPv4 address, which fills two groups.
pub open spec fn groups_of(ps: Seq<Seq<char>>, dotted: bool) -> Option<Seq<u16>>
    decreases ps.len(),
{
    if ps.len() == 0 {
        Some(Seq::empty())
    } else if ps.len() == 1 && dotted && v4_of_text(ps[0]) is Some {
        Some(v4_groups(v4_of_text(ps[0])->0))
    } else if group_of(ps[0]) is None {
        None
    } else {
        match groups_of(ps.drop_first(), dotted) {
            Some(rest) => Some(seq![group_of(ps[0])->0] + rest),
            None => None,
        }
    }
}

/// The groups that a colon-separated text denotes; the empty text denotes none.
pub open spec fn groups_of_text(t: Seq<char>, dotted: bool) -> Option<Seq<u16>> {
    if t.len() == 0 {
        Some(Seq::empty())
    } else {
        groups_of(split(t, ':'), dotted)
    }
}

/// Two colons stand at position `i`.
pub open spec fn gap_at(t: Seq<char>, i: int) -> bool {
    0 <= i && i + 1 < t.len() && t[i] == ':' && t[i + 1] == ':'
}

/// Position of the first two adjacent colons; the length where there are none.
pub open spec fn gap(t: Seq<char>) -> int
    decreases t.len(),
{
    if t.len() < 2 {
        t.len() as int
    } else if t[0] == ':' && t[1] == ':' {
        0
    } else {
        1 + gap(t.drop_first())
    }
}

/// `n` zero groups.
pub open spec fn zeros(n: int) -> Seq<u16> {
    Seq::new(n as nat, |i: int| 0u16)
}

/// The IPv6 address that a text denotes, if it denotes one: eight groups, or
/// fewer with one `::` that stands for at least one zero group.
pub open spec fn v6_of_text(t: Seq<char>) -> Option<Ipv6Addr> {
    let g = gap(t);
    if g < t.len() {
        match (
            groups_of_text(t.subrange(0, g), false),
            groups_of_text(t.subrange(g + 2, t.len() as int), true),
        ) {
            (Some(head), Some(tail)) => if head.len() + tail.len() <= 7 {
                Some(v6_of_segs(head + zeros(8 - head.len() - tail.len()) + tail))
            } else {
                None
            },
            _ => None,
        }
    } else {
        match groups_of_text(t, true) {
            Some(all) => if all.len() == 8 {
                Some(v6_of_segs(all))
            } else {
                None
            },
            None => None,
        }
    }
}

/// What [`gap`] returns.
proof fn lemma_gap(t: Seq<char>)
    ensures
        0 <= gap(t) <= t.len(),
        gap(t) < t.len() ==> gap_at(t, gap(t)),
        forall|j: int| 0 <= j < gap(t) ==> !gap_at(t, j),
    decreases t.len(),
{
    if t.len() >= 2 && !(t[0] == ':' && t[1] == ':') {
        let u = t.drop_first();
        lemma_gap(u);
        assert forall|j: int| 0 <= j < gap(t) implies !gap_at(t, j) by {
            if j > 0 {
                assert(!gap_at(u, j - 1));
            }
        }
    }
}

/// [`gap`] is the only position with its properties.
proof fn lemma_gap_unique(t: Seq<char>, k: int)
    requires
        0 <= k <= t.len(),
        k < t.len() ==> gap_at(t, k),
        forall|j: int| 0 <= j < k ==> !gap_at(t, j),
    ensures
        gap(t) == k,
{
    lemma_gap(t);
    let f = gap(t);
    if f < k {
        assert(!gap_at(t, f));
    } else if k < f {
        assert(!gap_at(t, k));
    }
}

/// What [`zero_run`] counts.
proof fn lemma_zero_run(s: Seq<u16>, i: int)
    requires
        0 <= i <= s.len(),
    ensures
        0 <= zero_run(s, i) <= s.len() - i,
        forall|j: int| i <= j < i + zero_run(s, i) ==> s[j] == 0,
        i + zero_run(s, i) < s.len() ==> s[i + zero_run(s, i)] != 0,
    decreases s.len() - i,
{
    if i < s.len() && s[i] == 0 {
        lemma_zero_run(s, i + 1);
    }
}

/// Where [`longest_run`] can lie.
proof fn lemma_longest_run(s: Seq<u16>, n: int)
    ensures
        0 <= longest_run(s, n),
        n >= 1 ==> longest_run(s, n) < n,
    decreases n,
{
    if n > 1 {
        lemma_longest_run(s, n - 1);
    }
}

/// A hexadecimal piece reads back and holds no separator.
proof fn lemma_hex_piece(n: u16)
    ensures
        group_of(hex(n as nat)) == Some(n),
        !hex(n as nat).contains(':'),
        !hex(n as nat).contains('.'),
        !hex(n as nat).contains(' '),
        1 <= hex(n as nat).len() <= 4,
        v4_of_text(hex(n as nat)) is None,
{
    lemma_digits_num(n as nat, 16);
    lemma_hex_len(n as nat);
    lemma_num_chars(hex(n as nat), 16);
    lemma_split_single(hex(n as nat), '.');
}

/// The hexadecimal pieces of a list of groups denote the groups.
proof fn lemma_groups_of(s: Seq<u16>, dotted: bool)
    ensures
        groups_of(hex_pieces(s), dotted) == Some(s),
    decreases s.len(),
{
    let ps = hex_pieces(s);
    if s.len() > 0 {
        lemma_hex_piece(s[0]);
        lemma_groups_of(s.drop_first(), dotted);
        assert(ps.drop_first() =~= hex_pieces(s.drop_first()));
        assert(seq![s[0]] + s.drop_first() =~= s);
    } else {
        assert(s =~= Seq::<u16>::empty());
    }
}

/// A list of groups reads back from its text, which has no two adjacent colons
/// and neither begins nor ends with one.
proof fn lemma_groups_text(s: Seq<u16>, dotted: bool)
    ensures
        groups_of_text(groups_text(s), dotted) == Some(s),
        forall|j: int| !gap_at(groups_text(s), j),
        s.len() > 0 ==> groups_text(s).len() > 0 && groups_text(s).last() != ':'
            && groups_text(s)[0] != ':',
        s.len() == 0 ==> groups_text(s).len() == 0,
        groups_text(s).len() <= 5 * s.len(),
        s.len() > 0 ==> groups_text(s).len() + 1 <= 5 * s.len(),
{
    let ps = hex_pieces(s);
    assert forall|i: int| 0 <= i < ps.len() implies !(#[trigger] ps[i]).contains(':') && 1
        <= ps[i].len() <= 4 by {
        lemma_hex_piece(s[i]);
    }
    lemma_groups_of(s, dotted);
    lemma_join_len(ps, ':', 4);
    assert(ps.len() * (4 + 1) == 5 * s.len()) by (nonlinear_arith)
        requires
            ps.len() == s.len(),
    ;
    lemma_join_gap(ps);
    if s.len() > 0 {
        lemma_split_join(ps, ':');
    } else {
        assert(s =~= Seq::<u16>::empty());
    }
}

/// Joining non-empty pieces without colons leaves no two adjacent colons.
proof fn lemma_join_gap(ps: Seq<Seq<char>>)
    requires
        forall|i: int|
            0 <= i < ps.len() ==> !(#[trigger] ps[i]).contains(':') && 1 <= ps[i].len(),
    ensures
        forall|j: int| !gap_at(join(ps, ':'), j),
        ps.len() > 0 ==> join(ps, ':').len() > 0 && join(ps, ':').last() != ':' && join(ps, ':')[0]
            != ':',
    decreases ps.len(),
{
    let t = join(ps, ':');
    if ps.len() >= 1 {
        assert forall|j: int| 0 <= j < ps[0].len() implies ps[0][j] != ':' by {
            assert(ps[0].contains(ps[0][j]));
        }
    }
    if ps.len() > 1 {
        let rest = ps.drop_first();
        assert forall|i: int| 0 <= i < rest.len() implies !(#[trigger] rest[i]).contains(':') && 1
            <= rest[i].len() by {
            assert(rest[i] == ps[i + 1]);
        }
        lemma_join_gap(rest);
        let u = join(rest, ':');
        let n = ps[0].len() as int;
        assert forall|j: int| !gap_at(t, j) by {
            if gap_at(t, j) {
                if j < n {
                    assert(t[j] == ps[0][j]);
                } else if j == n {
                    assert(t[j + 1] == u[0]);
                } else {
                    assert(t[j] == u[j - n - 1]);
                    assert(t[j + 1] == u[j - n]);
                    assert(gap_at(u, j - n - 1));
                }
            }
        }
        assert(t.last() == u.last());
        assert(t[0] == ps[0][0]);
    } else if ps.len() == 1 {
        assert forall|j: int| !gap_at(t, j) by {
            if gap_at(t, j) {
                assert(t[j] == ps[0][j]);
            }
        }
    }
}

/// A text with one `::` between two gap-free parts splits there.
proof fn lemma_gap_between(h: Seq<char>, t: Seq<char>)
    requires
        forall|j: int| !gap_at(h, j),
        h.len() > 0 ==> h.last() != ':',
    ensures
        gap(h + seq![':', ':'] + t) == h.len(),
        (h + seq![':', ':'] + t).subrange(0, h.len() as int) == h,
        (h + seq![':', ':'] + t).subrange(
            h.len() as int + 2,
            (h + seq![':', ':'] + t).len() as int,
        ) == t,
{
    let u = h + seq![':', ':'] + t;
    assert forall|j: int| 0 <= j < h.len() implies !gap_at(u, j) by {
        if gap_at(u, j) {
            assert(u[j] == h[j]);
            if j + 1 < h.len() {
                assert(u[j + 1] == h[j + 1]);
                assert(gap_at(h, j));
            }
        }
    }
    assert(gap_at(u, h.len() as int));
    lemma_gap_unique(u, h.len() as int);
    assert(u.subrange(0, h.len() as int) =~= h);
    assert(u.subrange(h.len() as int + 2, u.len() as int) =~= t);
}

/// The dotted-decimal notation holds only digits and dots.
proof fn lemma_v4_text_chars(x: Ipv4Addr)
    ensures
        !v4_text(x).contains(':'),
        !v4_text(x).contains(' '),
        1 <= v4_text(x).len() <= 15,
{
    let p = v4_pieces(x);
    lemma_octet(x.a);
    lemma_octet(x.b);
    lemma_octet(x.c);
    lemma_octet(x.d);
    lemma_digits_num(x.a as nat, 10);
    lemma_digits_num(x.b as nat, 10);
    lemma_digits_num(x.c as nat, 10);
    lemma_digits_num(x.d as nat, 10);
    assert forall|i: int| 0 <= i < p.len() implies !(#[trigger] p[i]).contains(':')
        && !p[i].contains(' ') && p[i].len() <= 3 by {
        assert(i == 0 || i == 1 || i == 2 || i == 3);
        lemma_num_chars(p[i], 10);
    }
    lemma_join_chars(p, '.', ':');
    lemma_join_chars(p, '.', ' ');
    lemma_join_len(p, '.', 3);
}

/// The tail of an IPv4-mapped notation denotes three groups.
proof fn lemma_mapped_tail(v: Ipv4Addr)
    ensures
        ({
            let tail = seq!['f', 'f', 'f', 'f', ':'] + v4_text(v);
            groups_of_text(tail, true) == Some(seq![0xffffu16] + v4_groups(v))
        }),
{
    let ff = seq!['f', 'f', 'f', 'f'];
    let tail = seq!['f', 'f', 'f', 'f', ':'] + v4_text(v);
    assert(tail =~= ff.push(':') + v4_text(v));
    law_v4_text_reads_back(v);
    lemma_v4_text_chars(v);
    lemma_split_single(v4_text(v), ':');
    assert(!ff.contains(':'));
    lemma_split_cons(ff, ':', v4_text(v));
    let ps = split(tail, ':');
    assert(ps =~= seq![ff, v4_text(v)]);
    assert(ps.drop_first() =~= seq![v4_text(v)]);
    assert(group_of(ff) == Some(0xffffu16)) by {
        assert(ff.drop_last() =~= seq!['f', 'f', 'f']);
        assert(seq!['f', 'f', 'f'].drop_last() =~= seq!['f', 'f']);
        assert(seq!['f', 'f'].drop_last() =~= seq!['f']);
        assert(seq!['f'].drop_last() =~= Seq::<char>::empty());
        reveal_with_fuel(num, 5);
    }
    assert(groups_of(ps.drop_first(), true) == Some(v4_groups(v)));
    assert(groups_of(ps, true) == Some(seq![0xffffu16] + v4_groups(v)));
}

proof fn lemma_mapped_reads_back(x: Ipv6Addr)
    requires
        is_mapped(x),
    ensures
        v6_of_text(v6_text(x)) == Some(x),
{
    let v = low_v4(x);
    let tail = seq!['f', 'f', 'f', 'f', ':'] + v4_text(v);
    let h = Seq::<char>::empty();
    let u = h + seq![':', ':'] + tail;
    assert(v6_text(x) =~= u);
    lemma_gap_between(h, tail);
    lemma_mapped_tail(v);
    let e = Seq::<u16>::empty();
    let back = e + zeros(5) + (seq![0xffffu16] + v4_groups(v));
    assert(v.a * 256 + v.b == x.s6);
    assert(v.c * 256 + v.d == x.s7);
    assert(back.len() == 8);
    assert(back[0] == 0 && back[1] == 0 && back[2] == 0 && back[3] == 0 && back[4] == 0);
    assert(back[5] == 0xffffu16 && back[6] == x.s6 && back[7] == x.s7);
    assert(groups_of_text(h, false) == Some(e));
    assert(v6_of_segs(back) == x);
}

/// A character of an address notation.
pub open spec fn addr_char(c: char) -> bool {
    digit_val(c) < 16 || c == '.' || c == ':'
}

/// Every character of `s` can stand in an address notation.
pub open spec fn addr_chars(s: Seq<char>) -> bool {
    forall|i: int| 0 <= i < s.len() ==> addr_char(#[trigger] s[i])
}

/// The characters and the length of a dotted-decimal notation.
pub proof fn lemma_v4_text_shape(x: Ipv4Addr)
    ensures
        addr_chars(v4_text(x)),
        v4_text(x).len() <= 15,
{
    let p = v4_pieces(x);
    lemma_v4_text_chars(x);
    lemma_digits_num(x.a as nat, 10);
    lemma_digits_num(x.b as nat, 10);
    lemma_digits_num(x.c as nat, 10);
    lemma_digits_num(x.d as nat, 10);
    assert forall|i: int, j: int| 0 <= i < p.len() && 0 <= j < p[i].len() implies addr_char(
        #[trigger] p[i][j],
    ) by {
        assert(i == 0 || i == 1 || i == 2 || i == 3);
    }
    lemma_join_all(p, '.', |c: char| addr_char(c));
}

/// The characters of a list of groups.
proof fn lemma_groups_text_shape(s: Seq<u16>)
    ensures
        addr_chars(groups_text(s)),
{
    let p = hex_pieces(s);
    assert forall|i: int, j: int| 0 <= i < p.len() && 0 <= j < p[i].len() implies addr_char(
        #[trigger] p[i][j],
    ) by {
        lemma_digits_num(s[i] as nat, 16);
    }
    lemma_join_all(p, ':', |c: char| addr_char(c));
}

/// The characters and the length of an IPv6 notation.
pub proof fn lemma_v6_text_shape(x: Ipv6Addr)
    ensures
        addr_chars(v6_text(x)),
        v6_text(x).len() <= 39,
{
    let s = segs(x);
    let start = longest_run(s, 8);
    let len = zero_run(s, start);
    lemma_longest_run(s, 8);
    lemma_zero_run(s, start);
    if is_mapped(x) {
        lemma_v4_text_shape(low_v4(x));
    } else if len > 1 {
        let a = s.subrange(0, start);
        let b = s.subrange(start + len, 8);
        lemma_groups_text_shape(a);
        lemma_groups_text_shape(b);
        lemma_groups_text(a, false);
        lemma_groups_text(b, true);
        let t = groups_text(a) + seq![':', ':'];
        assert(addr_chars(t));
    } else {
        lemma_groups_text_shape(s);
        lemma_groups_text(s, true);
    }
}

/// Law: reading the notation of an IPv6 address gives the address.
pub proof fn law_v6_text_reads_back(x: Ipv6Addr)
    ensures
        v6_of_text(v6_text(x)) == Some(x),
{
    let s = segs(x);
    let start = longest_run(s, 8);
    let len = zero_run(s, start);
    lemma_longest_run(s, 8);
    lemma_zero_run(s, start);
    assert(v6_of_segs(s) == x);
    if is_mapped(x) {
        lemma_mapped_reads_back(x);
    } else if len > 1 {
        let a = s.subrange(0, start);
        let b = s.subrange(start + len, 8);
        lemma_groups_text(a, false);
        lemma_groups_text(b, true);
        lemma_gap_between(groups_text(a), groups_text(b));
        assert(a + zeros(8 - a.len() - b.len()) + b =~= s);
    } else {
        lemma_groups_text(s, true);
        lemma_gap_unique(groups_text(s), groups_text(s).len() as int);
    }
}

/// The colon-separated text of a list of groups.
fn groups_string(s: &[u16]) -> (r: String)
    ensures
        r@ == groups_text(s@),
{
    let mut out = String::new();
    let n: usize = s.len();
    let mut i: usize = n;
    assert(hex_pieces(s@.subrange(n as int, n as int)) =~= Seq::<Seq<char>>::empty());
    while i > 0
        invariant
            i <= n,
            n == s@.len(),
            out@ == groups_text(s@.subrange(i as int, n as int)),
        decreases i,
    {
        let h = hex_string(s[i - 1] as u64);
        proof {
            reveal_strlit(":");
            assert(":"@ =~= seq![':']);
            let ps = hex_pieces(s@.subrange(i - 1, n as int));
            assert(ps.drop_first() =~= hex_pieces(s@.subrange(i as int, n as int)));
            assert(ps[0] == h@);
            if i < n {
                assert(join(ps, ':') =~= h@ + ":"@ + out@);
            }
        }
        if i == n {
            out = h;
        } else {
            out = join3(h.as_str(), ":", out.as_str());
        }
        i -= 1;
    }
    assert(s@.subrange(0, n as int) =~= s@);
    out
}

/// Decides [`zero_run`].
fn zero_run_len(s: &[u16], i: usize) -> (r: usize)
    requires
        i <= s@.len(),
    ensures
        r == zero_run(s@, i as int),
    decreases s@.len() - i,
{
    if i < s.len() && s[i] == 0 {
        proof {
            lemma_zero_run(s@, i + 1);
        }
        1 + zero_run_len(s, i + 1)
    } else {
        0
    }
}

/// The groups from `a` up to `b`.
fn cut_groups(s: &[u16], a: usize, b: usize) -> (r: Vec<u16>)
    requires
        a <= b <= s@.len(),
    ensures
        r@ == s@.subrange(a as int, b as int),
{
    let mut out: Vec<u16> = Vec::new();
    for i in a..b
        invariant
            a <= b <= s@.len(),
            out@ == s@.subrange(a as int, i as int),
    {
        out.push(s[i]);
        assert(out@ =~= s@.subrange(a as int, i + 1));
    }
    out
}

/// Decides [`gap`].
fn gap_of(t: &[char]) -> (r: usize)
    ensures
        r == gap(t@),
{
    let n: usize = t.len();
    let mut i: usize = 0;
    while i < n
        invariant
            i <= n,
            n == t@.len(),
            forall|j: int| 0 <= j < i ==> !gap_at(t@, j),
        decreases n - i,
    {
        if n - i >= 2 && t[i] == ':' && t[i + 1] == ':' {
            proof {
                lemma_gap_unique(t@, i as int);
            }
            return i;
        }
        i += 1;
    }
    proof {
        lemma_gap_unique(t@, n as int);
    }
    n
}

/// Reads one group.
fn parse_group(v: &[char]) -> (r: Option<u16>)
    ensures
        r == group_of(v@),
{
    if v.len() > 4 {
        return None;
    }
    match parse_num(v, 16, 0xffff) {
        Some(n) => Some(n as u16),
        None => None,
    }
}

/// Decides [`groups_of_text`].
fn parse_groups(t: &[char], dotted: bool) -> (r: Option<Vec<u16>>)
    ensures
        r is Some <==> groups_of_text(t@, dotted) is Some,
        r is Some ==> groups_of_text(t@, dotted) == Some(r->0@),
{
    let mut out: Vec<u16> = Vec::new();
    if t.len() == 0 {
        assert(out@ =~= Seq::<u16>::empty());
        return Some(out);
    }
    let ps = split_chars(t, ':');
    let ghost all = chars_views(ps@);
    let n: usize = ps.len();
    let mut i: usize = 0;
    assert(all.subrange(0, n as int) =~= all);
    assert forall|r: Seq<u16>| #[trigger] (out@ + r) == r by {
        assert(out@ + r =~= r);
    }
    while i < n
        invariant
            i <= n,
            n == ps@.len(),
            all == chars_views(ps@),
            all == split(t@, ':'),
            t@.len() > 0,
            groups_of(all, dotted) is Some <==> groups_of(
                all.subrange(i as int, n as int),
                dotted,
            ) is Some,
            groups_of(all, dotted) is Some ==> groups_of(all, dotted)->0 == out@ + groups_of(
                all.subrange(i as int, n as int),
                dotted,
            )->0,
        decreases n - i,
    {
        let ghost rest = all.subrange(i as int, n as int);
        assert(rest[0] == ps@[i as int]@);
        assert(rest.drop_first() =~= all.subrange(i + 1, n as int));
        if i == n - 1 && dotted {
            if let Some(x) = parse_v4_chars(ps[i].as_slice()) {
                let ghost before = out@;
                assert(x.a * 256 + x.b <= 0xffff);
                assert(x.c * 256 + x.d <= 0xffff);
                out.push(x.a as u16 * 256 + x.b as u16);
                out.push(x.c as u16 * 256 + x.d as u16);
                assert(out@ =~= before + v4_groups(x));
                return Some(out);
            }
        }
        match parse_group(ps[i].as_slice()) {
            Some(g) => {
                let ghost before = out@;
                out.push(g);
                proof {
                    if groups_of(rest.drop_first(), dotted) is Some {
                        let tail = groups_of(rest.drop_first(), dotted)->0;
                        assert(before + (seq![g] + tail) =~= out@ + tail);
                    }
                }
            },
            None => {
                return None;
            },
        }
        i += 1;
    }
    assert(all.subrange(n as int, n as int) =~= Seq::<Seq<char>>::empty());
    assert(out@ + Seq::<u16>::empty() =~= out@);
    Some(out)
}

/// The address with the given eight groups.
fn v6_from_groups(s: &Vec<u16>) -> (r: Ipv6Addr)
    requires
        s@.len() == 8,
    ensures
        r == v6_of_segs(s@),
{
    Ipv6Addr {
        s0: s[0],
        s1: s[1],
        s2: s[2],
        s3: s[3],
        s4: s[4],
        s5: s[5],
        s6: s[6],
        s7: s[7],
    }
}

/// Reads an IPv6 notation.
pub fn parse_v6(s: &str) -> (r: Option<Ipv6Addr>)
    ensures
        r == v6_of_text(s@),
{
    let t = chars_of(s);
    let g: usize = gap_of(t.as_slice());
    proof {
        lemma_gap(t@);
    }
    if g < t.len() {
        let h = cut(t.as_slice(), 0, g);
        let l = cut(t.as_slice(), g + 2, t.len());
        let head = parse_groups(h.as_slice(), false);
        let tail = parse_groups(l.as_slice(), true);
        match (head, tail) {
            (Some(head), Some(tail)) => {
                if head.len() > 7 || tail.len() > 7 - head.len() {
                    return None;
                }
                let k: usize = 8 - head.len() - tail.len();
                let ghost h0 = head@;
                let mut all = head;
                for i in 0..k
                    invariant
                        all@ == h0 + zeros(i as int),
                {
                    all.push(0);
                    assert(all@ =~= h0 + zeros(i + 1));
                }
                for i in 0..tail.len()
                    invariant
                        all@ == h0 + zeros(k as int) + tail@.subrange(0, i as int),
                {
                    all.push(tail[i]);
                    assert(all@ =~= h0 + zeros(k as int) + tail@.subrange(0, i + 1));
                }
                assert(tail@.subrange(0, tail@.len() as int) =~= tail@);
                Some(v6_from_groups(&all))
            },
            _ => None,
        }
    } else {
        match parse_groups(t.as_slice(), true) {
            Some(all) => {
                if all.len() == 8 {
                    Some(v6_from_groups(&all))
                } else {
                    None
                }
            },
            None => None,
        }
    }
}

impl Ipv6Addr {
    /// The address with the given groups.
    pub fn new(
        s0: u16,
        s1: u16,
        s2: u16,
        s3: u16,
        s4: u16,
        s5: u16,
        s6: u16,
        s7: u16,
    ) -> (r: Ipv6Addr)
        ensures
            r == (Ipv6Addr { s0, s1, s2, s3, s4, s5, s6, s7 }),
    {
        Ipv6Addr { s0, s1, s2, s3, s4, s5, s6, s7 }
    }

    /// The notation of the address.
    pub fn to_text(&self) -> (r: String)
        ensures
            r@ == v6_text(*self),
    {
        if self.s0 == 0 && self.s1 == 0 && self.s2 == 0 && self.s3 == 0 && self.s4 == 0 && self.s5
            == 0xffff {
            let v = Ipv4Addr {
                a: (self.s6 / 256) as u8,
                b: (self.s6 % 256) as u8,
                c: (self.s7 / 256) as u8,
                d: (self.s7 % 256) as u8,
            };
            let t = v.to_text();
            proof {
                reveal_strlit("::ffff:");
                assert("::ffff:"@ =~= seq![':', ':', 'f', 'f', 'f', 'f', ':']);
            }
            return join2("::ffff:", t.as_str());
        }
        let s: Vec<u16> = vec![
            self.s0,
            self.s1,
            self.s2,
            self.s3,
            self.s4,
            self.s5,
            self.s6,
            self.s7,
        ];
        assert(s@ =~= segs(*self));
        let mut start: usize = 0;
        let mut len: usize = zero_run_len(s.as_slice(), 0);
        for i in 1..8usize
            invariant
                s@.len() == 8,
                start == longest_run(s@, i as int),
                len == zero_run(s@, start as int),
                start < 8,
        {
            let here: usize = zero_run_len(s.as_slice(), i);
            if here > len {
                start = i;
                len = here;
            }
        }
        if len > 1 {
            proof {
                lemma_zero_run(s@, start as int);
                reveal_strlit("::");
                assert("::"@ =~= seq![':', ':']);
            }
            let a = cut_groups(s.as_slice(), 0, start);
            let b = cut_groups(s.as_slice(), start + len, 8);
            let x = groups_string(a.as_slice());
            let y = groups_string(b.as_slice());
            join3(x.as_str(), "::", y.as_str())
        } else {
            groups_string(s.as_slice())
        }
    }
}

/// The notation of an address of either family.
pub open spec fn ip_text(x: IpAddr) -> Seq<char> {
    match x {
        IpAddr::V4(v) => v4_text(v),
        IpAddr::V6(v) => v6_text(v),
    }
}

impl IpAddr {
    /// The notation of the address.
    pub fn to_text(&self) -> (r: String)
        ensures
            r@ == ip_text(*self),
    {
        match self {
            IpAddr::V4(v) => v.to_text(),
            IpAddr::V6(v) => v.to_text(),
        }
    }

    /// Whether the address is an IPv4 one.
    pub fn is_ipv4(&self) -> (r: bool)
        ensures
            r == (self is V4),
    {
        matches!(self, IpAddr::V4(_))
    }
}

/// The address part.
pub open spec fn addr_ip(x: SocketAddr) -> IpAddr {
    match x {
        SocketAddr::V4(v) => IpAddr::V4(v.ip),
        SocketAddr::V6(v) => IpAddr::V6(v.ip),
    }
}

/// The port part.
pub open spec fn addr_port(x: SocketAddr) -> u16 {
    match x {
        SocketAddr::V4(v) => v.port,
        SocketAddr::V6(v) => v.port,
    }
}

/// The address and port without flow label and scope.
pub open spec fn addr_of(ip: IpAddr, port: u16) -> SocketAddr {
    match ip {
        IpAddr::V4(v) => SocketAddr::V4(SocketAddrV4 { ip: v, port }),
        IpAddr::V6(v) => SocketAddr::V6(SocketAddrV6 { ip: v, port, flowinfo: 0, scope_id: 0 }),
    }
}

/// A socket address as nested integers: groups or octets, then family, port,
/// flow label and scope.
pub type AddrKey = ((u16, u16, u16, u16, u16, u16, u16, u16), (u8, u16, u32, u32));

/// The integers that stand for an address.
pub open spec fn addr_key(x: SocketAddr) -> AddrKey {
    match x {
        SocketAddr::V4(v) => (
            (v.ip.a as u16, v.ip.b as u16, v.ip.c as u16, v.ip.d as u16, 0u16, 0u16, 0u16, 0u16),
            (4u8, v.port, 0u32, 0u32),
        ),
        SocketAddr::V6(v) => (
            (v.ip.s0, v.ip.s1, v.ip.s2, v.ip.s3, v.ip.s4, v.ip.s5, v.ip.s6, v.ip.s7),
            (6u8, v.port, v.flowinfo, v.scope_id),
        ),
    }
}

/// Distinct addresses have distinct keys.
pub proof fn lemma_addr_key_injective(x: SocketAddr, y: SocketAddr)
    ensures
        addr_key(x) == addr_key(y) <==> x == y,
{
}

/// The notation of an address and a port; IPv6 in brackets, with the scope
/// where there is one.
pub open spec fn addr_text(x: SocketAddr) -> Seq<char> {
    match x {
        SocketAddr::V4(v) => v4_text(v.ip) + seq![':'] + dec(v.port as nat),
        SocketAddr::V6(v) => if v.scope_id == 0 {
            seq!['['] + v6_text(v.ip) + seq![']', ':'] + dec(v.port as nat)
        } else {
            seq!['['] + v6_text(v.ip) + seq!['%'] + dec(v.scope_id as nat) + seq![']', ':'] + dec(
                v.port as nat,
            )
        },
    }
}

impl SocketAddr {
    /// The address and port without flow label and scope.
    pub fn new(ip: IpAddr, port: u16) -> (r: SocketAddr)
        ensures
            r == addr_of(ip, port),
    {
        match ip {
            IpAddr::V4(v) => SocketAddr::V4(SocketAddrV4 { ip: v, port }),
            IpAddr::V6(v) => SocketAddr::V6(
                SocketAddrV6 { ip: v, port, flowinfo: 0, scope_id: 0 },
            ),
        }
    }

    /// The address part.
    pub fn ip(&self) -> (r: IpAddr)
        ensures
            r == addr_ip(*self),
    {
        match self {
            SocketAddr::V4(v) => IpAddr::V4(v.ip),
            SocketAddr::V6(v) => IpAddr::V6(v.ip),
        }
    }

    /// The integers that stand for the address.
    pub fn key(&self) -> (r: AddrKey)
        ensures
            r == addr_key(*self),
    {
        match self {
            SocketAddr::V4(v) => (
                (v.ip.a as u16, v.ip.b as u16, v.ip.c as u16, v.ip.d as u16, 0, 0, 0, 0),
                (4, v.port, 0, 0),
            ),
            SocketAddr::V6(v) => (
                (v.ip.s0, v.ip.s1, v.ip.s2, v.ip.s3, v.ip.s4, v.ip.s5, v.ip.s6, v.ip.s7),
                (6, v.port, v.flowinfo, v.scope_id),
            ),
        }
    }

    /// The port part.
    pub fn port(&self) -> (r: u16)
        ensures
            r == addr_port(*self),
    {
        match self {
            SocketAddr::V4(v) => v.port,
            SocketAddr::V6(v) => v.port,
        }
    }

    /// The notation of the address and port.
    pub fn to_text(&self) -> (r: String)
        ensures
            r@ == addr_text(*self),
    {
        proof {
            reveal_strlit(":");
            reveal_strlit("[");
            reveal_strlit("]:");
            reveal_strlit("%");
            assert(":"@ =~= seq![':']);
            assert("["@ =~= seq!['[']);
            assert("]:"@ =~= seq![']', ':']);
            assert("%"@ =~= seq!['%']);
        }
        match self {
            SocketAddr::V4(v) => {
                let a = v.ip.to_text();
                let p = dec_string(v.port as u64);
                join3(a.as_str(), ":", p.as_str())
            },
            SocketAddr::V6(v) => {
                let a = v.ip.to_text();
                let p = dec_string(v.port as u64);
                let mut out = join2("[", a.as_str());
                if v.scope_id != 0 {
                    let z = dec_string(v.scope_id as u64);
                    out.append("%");
                    out.append(z.as_str());
                }
                out.append("]:");
                out.append(p.as_str());
                out
            },
        }
    }
}

/// Law: the notation of an IPv4 address is its four octets in decimal with a
/// dot between each two, and no other text denotes the address.
pub proof fn law_v4_notation_is_unique(t: Seq<char>, x: Ipv4Addr)
    ensures
        v4_text(x) == dec(x.a as nat) + "."@ + dec(x.b as nat) + "."@ + dec(x.c as nat) + "."@
            + dec(x.d as nat),
        v4_of_text(t) == Some(x) <==> t == v4_text(x),
{
    reveal_strlit(".");
    let q = v4_pieces(x);
    let q1 = q.drop_first();
    let q2 = q1.drop_first();
    let q3 = q2.drop_first();
    assert(join(q3, '.') == q[3]);
    assert(join(q2, '.') == q[2].push('.') + join(q3, '.'));
    assert(join(q1, '.') == q[1].push('.') + join(q2, '.'));
    assert(join(q, '.') == q[0].push('.') + join(q1, '.'));
    assert(v4_text(x) =~= dec(x.a as nat) + "."@ + dec(x.b as nat) + "."@ + dec(x.c as nat) + "."@
        + dec(x.d as nat));
    law_v4_text_reads_back(x);
    if v4_of_text(t) == Some(x) {
        let p = split(t, '.');
        crate::text::lemma_dec_unique(p[0]);
        crate::text::lemma_dec_unique(p[1]);
        crate::text::lemma_dec_unique(p[2]);
        crate::text::lemma_dec_unique(p[3]);
        assert(p =~= q);
        crate::text::lemma_join_split(t, '.');
    }
}

/// What [`longest_run`] gives.
proof fn lemma_run_is_longest(s: Seq<u16>, n: int, i: int)
    requires
        0 <= i < n,
    ensures
        zero_run(s, i) <= zero_run(s, longest_run(s, n)),
        i < longest_run(s, n) ==> zero_run(s, i) < zero_run(s, longest_run(s, n)),
    decreases n,
{
    lemma_longest_run(s, n);
    if n > 1 {
        lemma_longest_run(s, n - 1);
        lemma_run_is_longest(s, n - 1, longest_run(s, n - 1));
        if i < n - 1 {
            lemma_run_is_longest(s, n - 1, i);
        }
    }
}

/// The groups of a run are zero, and the one behind it is not.
proof fn lemma_run_is_zero(s: Seq<u16>, i: int)
    requires
        0 <= i <= s.len(),
    ensures
        0 <= zero_run(s, i) <= s.len() - i,
        forall|j: int| i <= j < i + zero_run(s, i) ==> #[trigger] s[j] == 0,
        i + zero_run(s, i) < s.len() ==> s[i + zero_run(s, i)] != 0,
    decreases s.len() - i,
{
    if i < s.len() && s[i] == 0 {
        lemma_run_is_zero(s, i + 1);
    }
}

/// A stretch of zero groups is no longer than the run that it begins.
proof fn lemma_run_covers(s: Seq<u16>, i: int, len: int)
    requires
        0 <= i,
        0 <= len,
        i + len <= s.len(),
        forall|j: int| i <= j < i + len ==> #[trigger] s[j] == 0,
    ensures
        zero_run(s, i) >= len,
    decreases len,
{
    if len > 0 {
        assert(s[i] == 0);
        lemma_run_covers(s, i + 1, len - 1);
    } else {
        lemma_run_is_zero(s, i);
    }
}

/// Law: an IPv6 address is written as its groups in lowercase hexadecimal with
/// a colon between each two. Two colons stand for the first of the longest
/// stretches of zero groups, where that is two groups or more. An IPv4-mapped
/// address ends in dotted decimal.
pub proof fn law_v6_notation(x: Ipv6Addr, start: int, len: int, v: Ipv4Addr)
    ensures
        ({
            let s = seq![x.s0, x.s1, x.s2, x.s3, x.s4, x.s5, x.s6, x.s7];
            let mapped = x.s0 == 0 && x.s1 == 0 && x.s2 == 0 && x.s3 == 0 && x.s4 == 0 && x.s5
                == 0xffff;
            let zero = |i: int, n: int|
                0 <= i && i + n <= 8 && forall|j: int| i <= j < i + n ==> #[trigger] s[j] == 0;
            &&& mapped && x.s6 == v.a * 256 + v.b && x.s7 == v.c * 256 + v.d ==> v6_text(x)
                == "::ffff:"@ + v4_text(v)
            &&& !mapped && len >= 2 && zero(start, len) && (forall|i: int|
                0 <= i < start ==> !#[trigger] zero(i, len)) && (forall|i: int|
                0 <= i < 8 ==> !#[trigger] zero(i, len + 1)) ==> v6_text(x) == groups_text(
                s.subrange(0, start),
            ) + "::"@ + groups_text(s.subrange(start + len, 8))
            &&& !mapped && (forall|i: int|
                0 <= i < 7 && #[trigger] s[i] == 0 ==> s[i + 1] != 0) ==> v6_text(x)
                == groups_text(s)
        }),
{
    reveal_strlit("::ffff:");
    reveal_strlit("::");
    let s = seq![x.s0, x.s1, x.s2, x.s3, x.s4, x.s5, x.s6, x.s7];
    assert(s =~= segs(x));
    assert("::ffff:"@ =~= seq![':', ':', 'f', 'f', 'f', 'f', ':']);
    assert("::"@ =~= seq![':', ':']);
    let zero = |i: int, n: int|
        0 <= i && i + n <= 8 && forall|j: int| i <= j < i + n ==> #[trigger] s[j] == 0;
    let m = longest_run(s, 8);
    lemma_longest_run(s, 8);
    lemma_run_is_zero(s, m);
    let l = zero_run(s, m);
    if x.s6 == v.a * 256 + v.b && x.s7 == v.c * 256 + v.d {
        assert(low_v4(x) == v);
    }
    if len >= 2 && zero(start, len) && (forall|i: int| 0 <= i < start ==> !#[trigger] zero(i, len))
        && (forall|i: int| 0 <= i < 8 ==> !#[trigger] zero(i, len + 1)) {
        lemma_run_covers(s, start, len);
        lemma_run_is_longest(s, 8, start);
        if l > len {
            assert(zero(m, len + 1));
        }
        assert(l == len);
        if m < start {
            assert(zero(m, len));
        }
        assert(m == start);
    }
    if forall|i: int| 0 <= i < 7 && #[trigger] s[i] == 0 ==> s[i + 1] != 0 {
        if l > 1 {
            assert(s[m] == 0 && s[m + 1] == 0);
        }
    }
}

/// Law: a list of groups is written in lowercase hexadecimal without leading
/// zeros, with a colon between each two.
pub proof fn law_groups_notation(first: u16, rest: Seq<u16>)
    ensures
        groups_text(seq![first]) == hex(first as nat),
        rest.len() > 0 ==> groups_text(seq![first] + rest) == hex(first as nat) + ":"@ + groups_text(
            rest,
        ),
        groups_text(Seq::empty()).len() == 0,
{
    reveal_strlit(":");
    let all = hex_pieces(seq![first] + rest);
    assert(hex_pieces(seq![first])[0] == hex(first as nat));
    if rest.len() > 0 {
        assert(all.drop_first() =~= hex_pieces(rest));
        assert(all[0] == hex(first as nat));
        assert(join(all, ':') =~= hex(first as nat) + ":"@ + groups_text(rest));
    }
}

/// Law: a socket address keeps its two parts, and is written with its port
/// behind a colon; an IPv6 address stands in brackets, with its scope where it
/// has one.
pub proof fn law_socket_address_notation(
    v4: Ipv4Addr,
    v6: Ipv6Addr,
    port: u16,
    flowinfo: u32,
    scope_id: u32,
)
    ensures
        addr_text(SocketAddr::V4(SocketAddrV4 { ip: v4, port })) == v4_text(v4) + ":"@ + dec(
            port as nat,
        ),
        addr_text(SocketAddr::V6(SocketAddrV6 { ip: v6, port, flowinfo, scope_id })) == "["@
            + v6_text(v6) + (if scope_id == 0 {
            Seq::empty()
        } else {
            "%"@ + dec(scope_id as nat)
        }) + "]:"@ + dec(port as nat),
        addr_of(IpAddr::V4(v4), port) == SocketAddr::V4(SocketAddrV4 { ip: v4, port }),
        addr_of(IpAddr::V6(v6), port) == SocketAddr::V6(
            SocketAddrV6 { ip: v6, port, flowinfo: 0, scope_id: 0 },
        ),
        addr_ip(SocketAddr::V4(SocketAddrV4 { ip: v4, port })) == IpAddr::V4(v4),
        addr_ip(SocketAddr::V6(SocketAddrV6 { ip: v6, port, flowinfo, scope_id })) == IpAddr::V6(v6),
        addr_port(SocketAddr::V4(SocketAddrV4 { ip: v4, port })) == port,
        addr_port(SocketAddr::V6(SocketAddrV6 { ip: v6, port, flowinfo, scope_id })) == port,
        ip_text(IpAddr::V4(v4)) == v4_text(v4),
        ip_text(IpAddr::V6(v6)) == v6_text(v6),
{
    reveal_strlit(":");
    reveal_strlit("[");
    reveal_strlit("%");
    reveal_strlit("]:");
    assert(":"@ =~= seq![':']);
    let x = SocketAddr::V6(SocketAddrV6 { ip: v6, port, flowinfo, scope_id });
    assert(addr_text(x) =~= "["@ + v6_text(v6) + (if scope_id == 0 {
        Seq::empty()
    } else {
        "%"@ + dec(scope_id as nat)
    }) + "]:"@ + dec(port as nat));
}

} // verus!
