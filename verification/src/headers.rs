//! Header maps and URIs of the `http` crate, as far as the proxy's logic
//! needs them.
//!
//! A header map is modelled by the values of each name, in order, under the
//! lowercase name.

use http::header::{HeaderMap, HeaderName, HeaderValue};
use vstd::prelude::*;
use vstd::string::*;

use crate::text::lower;

verus! {

/// A multimap of `http`.
#[verifier::external_type_specification]
#[verifier::external_body]
#[verifier::reject_recursive_types(T)]
pub struct ExHeaderMap<T>(HeaderMap<T>);

/// A header value of `http`.
#[verifier::external_type_specification]
#[verifier::external_body]
pub struct ExHeaderValue(HeaderValue);

/// The values of each header, in order, under the lowercase name.
pub type HeaderModel = Map<Seq<char>, Seq<Seq<u8>>>;

/// What a header map holds.
pub uninterp spec fn header_map(h: HeaderMap<HeaderValue>) -> HeaderModel;

/// How many distinct names a header map holds.
pub uninterp spec fn header_names(h: HeaderMap<HeaderValue>) -> nat;

/// As many names as a header map can hold before an insertion may be refused
/// for lack of room.
pub const HEADER_NAMES_MAX: usize = 6553;

/// Views of a list of byte strings.
pub open spec fn bytes_views(v: Seq<Vec<u8>>) -> Seq<Seq<u8>> {
    Seq::new(v.len(), |i: int| v[i]@)
}

/// The values under `name`; none where the name is absent.
pub open spec fn values_of(m: HeaderModel, name: Seq<char>) -> Seq<Seq<u8>> {
    if m.contains_key(name) {
        m[name]
    } else {
        Seq::empty()
    }
}

/// A character of a header name.
pub open spec fn token_char(c: char) -> bool {
    ||| 'a' <= c && c <= 'z'
    ||| 'A' <= c && c <= 'Z'
    ||| '0' <= c && c <= '9'
    ||| c == '!'
    ||| c == '#'
    ||| c == '$'
    ||| c == '%'
    ||| c == '&'
    ||| c == '\''
    ||| c == '*'
    ||| c == '+'
    ||| c == '-'
    ||| c == '.'
    ||| c == '^'
    ||| c == '_'
    ||| c == '`'
    ||| c == '|'
    ||| c == '~'
}

/// A header name, in either case: a non-empty token of at most 65535
/// characters.
pub open spec fn name_ok(s: Seq<char>) -> bool {
    0 < s.len() <= 65535 && forall|i: int| 0 <= i < s.len() ==> token_char(#[trigger] s[i])
}

/// A byte that a header value can hold.
pub open spec fn value_byte(b: u8) -> bool {
    b >= 32 && b != 127 || b == 9
}

/// A header value.
pub open spec fn value_ok(v: Seq<u8>) -> bool {
    forall|i: int| 0 <= i < v.len() ==> value_byte(#[trigger] v[i])
}

/// A value that can be read as text: visible ASCII, spaces and tabs.
pub open spec fn value_is_text(v: Seq<u8>) -> bool {
    forall|i: int| 0 <= i < v.len() ==> (32 <= #[trigger] v[i] < 127 || v[i] == 9)
}

/// The text of an ASCII value.
pub open spec fn value_text(v: Seq<u8>) -> Seq<char> {
    Seq::new(v.len(), |i: int| v[i] as char)
}

/// `HeaderMap::get_all`: copies of the values under `name`, in order. A name
/// that is present has at least one value.
#[verifier::external_body]
pub(crate) fn header_values(h: &HeaderMap<HeaderValue>, name: &str) -> (r: Vec<Vec<u8>>)
    requires
        name_ok(name@),
    ensures
        bytes_views(r@) == values_of(header_map(*h), lower(name@)),
        r@.len() > 0 <==> header_map(*h).contains_key(lower(name@)),
{
    h.get_all(name).iter().map(|v| v.as_bytes().to_vec()).collect()
}

/// `HeaderMap::remove`: takes all values under `name` out.
#[verifier::external_body]
pub(crate) fn header_remove(h: &mut HeaderMap<HeaderValue>, name: &str)
    requires
        name_ok(name@),
    ensures
        header_map(*final(h)) == header_map(*old(h)).remove(lower(name@)),
        header_names(*final(h)) <= header_names(*old(h)),
{
    h.remove(name);
}

/// `HeaderMap::insert`: puts `value` under `name` in place of all values there.
/// With few enough names in the map there is always room.
#[verifier::external_body]
pub(crate) fn header_insert(h: &mut HeaderMap<HeaderValue>, name: &str, value: &[u8])
    requires
        name_ok(name@),
        value_ok(value@),
        header_names(*old(h)) <= HEADER_NAMES_MAX,
    ensures
        header_map(*final(h)) == header_map(*old(h)).insert(lower(name@), seq![value@]),
        header_names(*final(h)) <= header_names(*old(h)) + 1,
{
    let name = HeaderName::from_bytes(name.as_bytes()).unwrap();
    h.insert(name, HeaderValue::from_bytes(value).unwrap());
}

/// `HeaderMap::keys_len`: how many distinct names there are.
#[verifier::external_body]
pub(crate) fn header_name_count(h: &HeaderMap<HeaderValue>) -> (r: usize)
    ensures
        r == header_names(*h),
{
    h.keys_len()
}

/// Whether there is room for an insertion after `extra` more names.
pub fn has_room(h: &HeaderMap<HeaderValue>, extra: usize) -> (r: bool)
    ensures
        r == (header_names(*h) + extra <= HEADER_NAMES_MAX),
{
    extra <= HEADER_NAMES_MAX && header_name_count(h) <= HEADER_NAMES_MAX - extra
}

/// Decides [`token_char`].
fn is_token_char(c: char) -> (r: bool)
    ensures
        r == token_char(c),
{
    ('a' <= c && c <= 'z') || ('A' <= c && c <= 'Z') || ('0' <= c && c <= '9') || c == '!' || c
        == '#' || c == '$' || c == '%' || c == '&' || c == '\'' || c == '*' || c == '+' || c == '-'
        || c == '.' || c == '^' || c == '_' || c == '`' || c == '|' || c == '~'
}

/// Decides [`name_ok`].
pub fn is_header_name(v: &[char]) -> (r: bool)
    ensures
        r == name_ok(v@),
{
    if v.len() == 0 || v.len() > 65535 {
        return false;
    }
    for i in 0..v.len()
        invariant
            forall|j: int| 0 <= j < i ==> token_char(#[trigger] v@[j]),
    {
        if !is_token_char(v[i]) {
            return false;
        }
    }
    true
}

/// Decides [`value_ok`].
pub fn is_header_value(v: &[u8]) -> (r: bool)
    ensures
        r == value_ok(v@),
{
    for i in 0..v.len()
        invariant
            forall|j: int| 0 <= j < i ==> value_byte(#[trigger] v@[j]),
    {
        let b: u8 = v[i];
        if !(b >= 32 && b != 127 || b == 9) {
            assert(!value_byte(v@[i as int]));
            return false;
        }
    }
    true
}

/// The value as text, where it can be read as text.
pub fn value_to_text(v: &[u8]) -> (r: Option<String>)
    ensures
        r is Some <==> value_is_text(v@),
        r is Some ==> r->0@ == value_text(v@),
{
    let mut out = String::new();
    for i in 0..v.len()
        invariant
            forall|j: int| 0 <= j < i ==> (32 <= #[trigger] v@[j] < 127 || v@[j] == 9),
            out@ == value_text(v@).subrange(0, i as int),
    {
        let b: u8 = v[i];
        if !(32 <= b && b < 127 || b == 9) {
            assert(!(32 <= v@[i as int] < 127 || v@[i as int] == 9));
            return None;
        }
        out.push(b as char);
        assert(out@ =~= value_text(v@).subrange(0, i + 1));
    }
    assert(out@ =~= value_text(v@));
    Some(out)
}

/// The first value under `name` as text: none where the name is absent or its
/// first value cannot be read as text.
pub open spec fn first_text(m: HeaderModel, name: Seq<char>) -> Option<Seq<char>> {
    if m.contains_key(name) && m[name].len() > 0 && value_is_text(m[name][0]) {
        Some(value_text(m[name][0]))
    } else {
        None
    }
}

/// Reads the first value under a lowercase `name` as text.
pub fn header_text(h: &HeaderMap<HeaderValue>, name: &str) -> (r: Option<String>)
    requires
        name_ok(name@),
    ensures
        r is Some <==> first_text(header_map(*h), lower(name@)) is Some,
        r is Some ==> r->0@ == first_text(header_map(*h), lower(name@))->0,
{
    let vs = header_values(h, name);
    let ghost m = header_map(*h);
    assert(bytes_views(vs@).len() == vs@.len());
    if vs.len() == 0 {
        return None;
    }
    assert(bytes_views(vs@)[0] == vs@[0]@);
    value_to_text(vs[0].as_slice())
}

/// Whether `name` is present.
pub fn header_present(h: &HeaderMap<HeaderValue>, name: &str) -> (r: bool)
    requires
        name_ok(name@),
    ensures
        r == header_map(*h).contains_key(lower(name@)),
{
    header_values(h, name).len() > 0
}

/// Lowercasing leaves a lowercase name as it is.
pub proof fn lemma_lower_fixed(s: Seq<char>)
    requires
        forall|i: int| 0 <= i < s.len() ==> !('A' <= #[trigger] s[i] && s[i] <= 'Z'),
    ensures
        lower(s) == s,
{
    assert(lower(s) =~= s);
}

/// Lowercasing keeps a name a name, and is idempotent.
pub proof fn lemma_lower_name(s: Seq<char>)
    requires
        name_ok(s),
    ensures
        name_ok(lower(s)),
        lower(lower(s)) == lower(s),
{
    assert forall|i: int| 0 <= i < lower(s).len() implies token_char(#[trigger] lower(s)[i]) by {
        assert(token_char(s[i]));
    }
    assert(lower(lower(s)) =~= lower(s));
}

/// Law: of several values the first is read, and none where that is no text or
/// there is none.
pub proof fn law_first_value_is_read(m: HeaderModel, name: Seq<char>, v: Seq<u8>, rest: Seq<Seq<u8>>)
    ensures
        value_is_text(v) ==> first_text(m.insert(name, seq![v] + rest), name) == Some(value_text(v)),
        !value_is_text(v) ==> first_text(m.insert(name, seq![v] + rest), name) is None,
        !m.contains_key(name) ==> first_text(m, name) is None,
        value_text(v).len() == v.len(),
        forall|i: int|
            0 <= i < v.len() && v[i] < 128 ==> #[trigger] value_text(v)[i] as nat == v[i] as nat,
{
    let t = m.insert(name, seq![v] + rest);
    assert(t[name][0] == v);
}

/// Law: a value of visible characters and spaces can be sent and read as text;
/// one with a line end or another control character can be neither.
pub proof fn law_values_hold_no_control_characters(v: Seq<u8>, i: int)
    ensures
        (forall|j: int| 0 <= j < v.len() ==> 32 <= #[trigger] v[j] < 127) ==> value_ok(v)
            && value_is_text(v),
        0 <= i < v.len() && (v[i] < 32 && v[i] != 9 || v[i] == 127) ==> !value_ok(v)
            && !value_is_text(v),
        0 <= i < v.len() && v[i] >= 128 ==> !value_is_text(v),
        (forall|j: int| 0 <= j < v.len() ==> #[trigger] v[j] >= 128 || v[j] == 9) ==> value_ok(v),
{
}

/// Law: a name of letters, digits and hyphens is a header name; one with a
/// space, a colon, a line end or a character beyond ASCII is not, nor is the
/// empty one.
pub proof fn law_names_hold_no_separators(s: Seq<char>, i: int)
    ensures
        0 < s.len() <= 65535 && (forall|j: int|
            0 <= j < s.len() ==> ('a' <= #[trigger] s[j] && s[j] <= 'z') || ('A' <= s[j] && s[j]
                <= 'Z') || ('0' <= s[j] && s[j] <= '9') || s[j] == '-' || s[j] == '_') ==> name_ok(
            s,
        ),
        0 <= i < s.len() && (s[i] <= ' ' || s[i] == ':' || s[i] == ',' || s[i] == ';' || s[i] == '"'
            || s[i] == '/' || s[i] == '=' || s[i] > '~') ==> !name_ok(s),
        s.len() == 0 ==> !name_ok(s),
{
    if 0 <= i < s.len() && (s[i] <= ' ' || s[i] == ':' || s[i] == ',' || s[i] == ';' || s[i] == '"'
        || s[i] == '/' || s[i] == '=' || s[i] > '~') {
        assert(!token_char(s[i]));
    }
}

} // verus!
