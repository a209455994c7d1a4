//! HTTP-01 challenge responses.
//!
//! A pending challenge is a token with its key authorization. While it is
//! registered, the companion listener answers
//! `/.well-known/acme-challenge/<token>` with the key authorization.

use vstd::prelude::*;
use vstd::string::*;

use crate::strmap::StrMap;
use crate::text::{begins, begins_with, chars_of};

verus! {

broadcast use vstd::string::group_string_axioms;

/// The prefix of every challenge path.
pub const HTTP01_PATH_PREFIX: &'static str = "/.well-known/acme-challenge/";

/// A character of a challenge token.
pub open spec fn challenge_char(c: char) -> bool {
    ('a' <= c && c <= 'z') || ('A' <= c && c <= 'Z') || ('0' <= c && c <= '9') || c == '_' || c
        == '-'
}

/// A challenge token: base64url characters, at least one.
pub open spec fn challenge_token(s: Seq<char>) -> bool {
    s.len() > 0 && forall|i: int| 0 <= i < s.len() ==> challenge_char(#[trigger] s[i])
}

/// The token in a challenge path.
pub open spec fn path_token(path: Seq<char>) -> Option<Seq<char>> {
    let p = HTTP01_PATH_PREFIX@;
    if begins(path, p) && challenge_token(path.subrange(p.len() as int, path.len() as int)) {
        Some(path.subrange(p.len() as int, path.len() as int))
    } else {
        None
    }
}

/// The token in a challenge path; none for any other path, and none where what
/// follows the prefix is no token.
pub fn parse_challenge_path(path: &str) -> (r: Option<&str>)
    ensures
        r is Some <==> path_token(path@) is Some,
        r is Some ==> r->0@ == path_token(path@)->0,
{
    if !begins_with(path, HTTP01_PATH_PREFIX) {
        return None;
    }
    let n: usize = path.unicode_len();
    let k: usize = HTTP01_PATH_PREFIX.unicode_len();
    let rest = path.substring_char(k, n);
    let v = chars_of(rest);
    if v.len() == 0 {
        return None;
    }
    for i in 0..v.len()
        invariant
            v@ == rest@,
            forall|j: int| 0 <= j < i ==> challenge_char(#[trigger] v@[j]),
            rest@ == path@.subrange(HTTP01_PATH_PREFIX@.len() as int, path@.len() as int),
    {
        let c = v[i];
        if !(('a' <= c && c <= 'z') || ('A' <= c && c <= 'Z') || ('0' <= c && c <= '9') || c == '_'
            || c == '-') {
            assert(!challenge_char(rest@[i as int]));
            return None;
        }
    }
    Some(rest)
}

/// The pending challenges.
pub struct AcmeResponder {
    inner: StrMap<String>,
}

impl View for AcmeResponder {
    type V = Map<Seq<char>, Seq<char>>;

    closed spec fn view(&self) -> Map<Seq<char>, Seq<char>> {
        self.inner@.map_values(|s: String| s@)
    }
}

impl AcmeResponder {
    /// The table is in order.
    pub closed spec fn table_wf(&self) -> bool {
        self.inner.wf()
    }

    /// The table is in order, and finite.
    pub open spec fn wf(&self) -> bool {
        self.table_wf() && self@.dom().finite()
    }

    /// No pending challenge.
    pub fn new() -> (r: Self)
        ensures
            r.wf(),
            r@ == Map::<Seq<char>, Seq<char>>::empty(),
    {
        let r = AcmeResponder { inner: StrMap::new() };
        assert(r@ =~= Map::<Seq<char>, Seq<char>>::empty());
        r
    }

    /// Registers a challenge.
    pub fn register(&mut self, token: &str, key_auth: &str)
        requires
            old(self).wf(),
        ensures
            final(self).wf(),
            final(self)@ == old(self)@.insert(token@, key_auth@),
    {
        let ghost before = self@;
        let _ = self.inner.insert(token.to_owned(), key_auth.to_owned());
        assert(self@ =~= before.insert(token@, key_auth@));
    }

    /// Forgets a challenge; nothing happens for an unknown token.
    pub fn deregister(&mut self, token: &str)
        requires
            old(self).wf(),
        ensures
            final(self).wf(),
            final(self)@ == old(self)@.remove(token@),
    {
        let ghost before = self@;
        let _ = self.inner.remove(token);
        assert(self@ =~= before.remove(token@));
    }

    /// The key authorization of a pending challenge.
    pub fn lookup(&self, token: &str) -> (r: Option<String>)
        requires
            self.wf(),
        ensures
            r is Some <==> self@.contains_key(token@),
            r is Some ==> r->0@ == self@[token@],
    {
        match self.inner.get(token) {
            Some(s) => Some(s.clone()),
            None => None,
        }
    }

    /// Number of pending challenges.
    pub fn len(&self) -> (r: usize)
        requires
            self.wf(),
        ensures
            r == self@.dom().len(),
    {
        assert(self@.dom() =~= self.inner@.dom());
        self.inner.len()
    }

    /// Whether no challenge is pending.
    pub fn is_empty(&self) -> (r: bool)
        requires
            self.wf(),
        ensures
            r == (self@.dom().len() == 0),
    {
        self.len() == 0
    }
}

/// Law: a token path is answered exactly by what was registered last for it,
/// and not at all once it is deregistered.
pub proof fn law_register_lookup_deregister(
    m: Map<Seq<char>, Seq<char>>,
    token: Seq<char>,
    key_auth: Seq<char>,
)
    ensures
        m.insert(token, key_auth)[token] == key_auth,
        !m.insert(token, key_auth).remove(token).contains_key(token),
        !m.contains_key(token) ==> m.insert(token, key_auth).remove(token) == m,
{
    if !m.contains_key(token) {
        assert(m.insert(token, key_auth).remove(token) =~= m);
    }
}

/// Law: the path made of the prefix and a token yields that token, and a path
/// with a further slash or a dot yields none.
pub proof fn law_challenge_path_yields_its_token(token: Seq<char>)
    ensures
        challenge_token(token) ==> path_token(HTTP01_PATH_PREFIX@ + token) == Some(token),
        token.contains('/') || token.contains('.') ==> path_token(HTTP01_PATH_PREFIX@ + token)
            is None,
{
    let p = HTTP01_PATH_PREFIX@;
    let path = p + token;
    assert(path.subrange(0, p.len() as int) =~= p);
    assert(path.subrange(p.len() as int, path.len() as int) =~= token);
    if token.contains('/') {
        let i = choose|i: int| 0 <= i < token.len() && token[i] == '/';
        assert(!challenge_char(token[i]));
    }
    if token.contains('.') {
        let i = choose|i: int| 0 <= i < token.len() && token[i] == '.';
        assert(!challenge_char(token[i]));
    }
}

/// Law: challenges are answered below `/.well-known/acme-challenge/` only, and
/// there for every non-empty text of letters, digits, hyphens and underscores,
/// and for no other.
pub proof fn law_challenge_paths(token: Seq<char>, path: Seq<char>)
    ensures
        path_token("/.well-known/acme-challenge/"@ + token) is Some <==> token.len() > 0 && forall|
            i: int,
        |
            0 <= i < token.len() ==> {
                let c = #[trigger] token[i];
                ('a' <= c && c <= 'z') || ('A' <= c && c <= 'Z') || ('0' <= c && c <= '9') || c
                    == '-' || c == '_'
            },
        path_token("/.well-known/acme-challenge/"@ + token) is Some ==> path_token(
            "/.well-known/acme-challenge/"@ + token,
        )->0 == token,
        path_token(path) is Some ==> path == "/.well-known/acme-challenge/"@ + path_token(path)->0,
{
    let p = "/.well-known/acme-challenge/"@;
    let t = p + token;
    assert(t.subrange(0, p.len() as int) =~= p);
    assert(t.subrange(p.len() as int, t.len() as int) =~= token);
    if path_token(path) is Some {
        assert(path.subrange(0, p.len() as int) == p);
        assert(path =~= p + path.subrange(p.len() as int, path.len() as int));
    }
}

} // verus!
