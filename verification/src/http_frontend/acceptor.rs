//! Decisions of the TLS connection acceptor.

use vstd::prelude::*;
use vstd::string::*;

use crate::addr::SocketAddr;
use crate::proxy_protocol::{cut_bytes, ProxyEndpoints};
use crate::text::{contains_text, occurs_at, occurs_in};

verus! {

broadcast use vstd::string::group_string_axioms;

/// The client behind a connection: the one that a PROXY header asserts, else
/// the peer itself.
pub open spec fn client_of(endpoints: Option<ProxyEndpoints>, peer: SocketAddr) -> SocketAddr {
    match endpoints {
        Some(e) => e.client,
        None => peer,
    }
}

/// The client behind a connection.
pub fn client_addr(endpoints: Option<ProxyEndpoints>, peer: SocketAddr) -> (r: SocketAddr)
    ensures
        r == client_of(endpoints, peer),
{
    match endpoints {
        Some(e) => e.client,
        None => peer,
    }
}

/// The metrics label of a failed handshake, from the text of its error.
pub open spec fn tls_error_label(text: Seq<char>) -> Seq<char> {
    if occurs_in(text, "UnrecognizedName"@) || occurs_in(text, "unrecognized_name"@) {
        "unknown_sni"@
    } else {
        "alert"@
    }
}

/// The metrics label of a failed handshake, from the text of its error.
pub fn classify_tls_error(text: &str) -> (r: &'static str)
    ensures
        r@ == tls_error_label(text@),
{
    if contains_text(text, "UnrecognizedName") || contains_text(text, "unrecognized_name") {
        "unknown_sni"
    } else {
        "alert"
    }
}

/// Whether the negotiated protocol is HTTP/2.
pub fn alpn_is_h2(alpn: Option<&[u8]>) -> (r: bool)
    ensures
        r == (alpn is Some && alpn->0@ == seq![0x68u8, 0x32u8]),
{
    match alpn {
        None => false,
        Some(p) => {
            if p.len() == 2 && p[0] == 0x68 && p[1] == 0x32 {
                assert(p@ =~= seq![0x68u8, 0x32u8]);
                true
            } else {
                assert(p@.len() != 2 || p@[0] != seq![0x68u8, 0x32u8][0] || p@[1] != seq![
                    0x68u8,
                    0x32u8,
                ][1]);
                false
            }
        },
    }
}

/// A stream in front of which bytes are put back. Reads drain those bytes
/// first, then go to the stream.
pub struct PrefixedStream<S> {
    pub prefix: Vec<u8>,
    pub prefix_pos: usize,
    pub inner: S,
}

impl<S> PrefixedStream<S> {
    /// The bytes that are still to be read in front of the stream.
    pub open spec fn rest(&self) -> Seq<u8> {
        self.prefix@.subrange(self.prefix_pos as int, self.prefix@.len() as int)
    }

    /// The position lies within the prefix.
    pub open spec fn wf(&self) -> bool {
        self.prefix_pos <= self.prefix@.len()
    }

    /// Puts `prefix` in front of `inner`.
    pub fn new(prefix: Vec<u8>, inner: S) -> (r: Self)
        ensures
            r.wf(),
            r.rest() == prefix@,
            r.inner == inner,
    {
        let r = PrefixedStream { prefix, prefix_pos: 0, inner };
        assert(r.rest() =~= prefix@);
        r
    }

    /// Takes up to `room` bytes off the prefix; none when it is drained, and
    /// the read goes to the stream.
    pub fn take_prefix(&mut self, room: usize) -> (r: Option<Vec<u8>>)
        requires
            old(self).wf(),
        ensures
            final(self).wf(),
            final(self).inner == old(self).inner,
            r is Some <==> old(self).rest().len() > 0,
            r is None ==> final(self).rest() == old(self).rest(),
            r is Some ==> r->0@ + final(self).rest() == old(self).rest() && r->0@.len() == (if room
                < old(self).rest().len() {
                room as nat
            } else {
                old(self).rest().len()
            }),
    {
        let n: usize = self.prefix.len();
        if self.prefix_pos >= n {
            return None;
        }
        let left: usize = n - self.prefix_pos;
        let k: usize = if room < left {
            room
        } else {
            left
        };
        let end: usize = self.prefix_pos + k;
        let out = cut_bytes(self.prefix.as_slice(), self.prefix_pos, end);
        let ghost before = self.rest();
        self.prefix_pos = end;
        assert(out@ + self.rest() =~= before);
        Some(out)
    }
}

/// Law: the address that a PROXY header asserts as the client stands for the
/// connection, never the one it asserts as the server; without a header the
/// peer does.
pub proof fn law_header_speaks_for_the_client(
    client: SocketAddr,
    server: SocketAddr,
    peer: SocketAddr,
)
    ensures
        client_of(Some(ProxyEndpoints { client, server }), peer) == client,
        client_of(None, peer) == peer,
{
}

/// Law: a handshake is counted as one for an unknown name exactly where the
/// text of its error holds the alert's name in one of its two spellings.
pub proof fn law_unknown_name_is_told_apart(before: Seq<char>, after: Seq<char>, text: Seq<char>)
    ensures
        tls_error_label(before + "UnrecognizedName"@ + after) == "unknown_sni"@,
        tls_error_label(before + "unrecognized_name"@ + after) == "unknown_sni"@,
        (forall|i: int, j: int|
            0 <= i <= j <= text.len() ==> #[trigger] text.subrange(i, j) != "UnrecognizedName"@
                && text.subrange(i, j) != "unrecognized_name"@) ==> tls_error_label(text)
            == "alert"@,
{
    let a = "UnrecognizedName"@;
    let b = "unrecognized_name"@;
    let at = before.len() as int;
    let ta = before + a + after;
    let tb = before + b + after;
    assert(ta.subrange(at, at + a.len()) =~= a);
    assert(tb.subrange(at, at + b.len()) =~= b);
    assert(occurs_at(ta, a, at));
    assert(occurs_at(tb, b, at));
    if occurs_in(text, a) {
        let i = choose|i: int| #[trigger] occurs_at(text, a, i);
        assert(text.subrange(i, i + a.len()) == a);
    }
    if occurs_in(text, b) {
        let i = choose|i: int| #[trigger] occurs_at(text, b, i);
        assert(text.subrange(i, i + b.len()) == b);
    }
}

} // verus!
