//! Text primitives shared by the rest of the crate.
//!
//! Text is modelled as the sequence of its characters (`Seq<char>`).

use vstd::prelude::*;
use vstd::string::*;
use vstd::utf8::*;

verus! {

broadcast use vstd::string::group_string_axioms;

/// Every character is an ASCII one.
pub open spec fn ascii(s: Seq<char>) -> bool {
    forall|i: int| 0 <= i < s.len() ==> #[trigger] s[i] as u32 <= 127
}

/// The lowercase digit character for `d` in a base of at most sixteen.
pub open spec fn digit_char(d: nat) -> char
    recommends
        d < 16,
{
    if d < 10 {
        ('0' as nat + d) as char
    } else {
        ('a' as nat + d - 10) as char
    }
}

/// The value of a digit character, hexadecimal letters in either case; sixteen
/// for a character that is no digit.
pub open spec fn digit_val(c: char) -> nat {
    if '0' <= c && c <= '9' {
        (c as nat - '0' as nat) as nat
    } else if 'a' <= c && c <= 'f' {
        (c as nat - 'a' as nat + 10) as nat
    } else if 'A' <= c && c <= 'F' {
        (c as nat - 'A' as nat + 10) as nat
    } else {
        16
    }
}

/// Notation of `n` in base `b`, without leading zeros.
pub open spec fn digits(n: nat, b: nat) -> Seq<char>
    recommends
        2 <= b <= 16,
    decreases n,
{
    if b < 2 || n < b || n / b >= n {
        seq![digit_char(n)]
    } else {
        digits(n / b, b).push(digit_char(n % b))
    }
}

/// Decimal notation of `n`.
pub open spec fn dec(n: nat) -> Seq<char> {
    digits(n, 10)
}

/// Lowercase hexadecimal notation of `n`.
pub open spec fn hex(n: nat) -> Seq<char> {
    digits(n, 16)
}

/// Octal notation of `n`.
pub open spec fn oct(n: nat) -> Seq<char> {
    digits(n, 8)
}

/// A non-empty run of base-`b` digits.
pub open spec fn is_num(s: Seq<char>, b: nat) -> bool {
    s.len() > 0 && forall|i: int| 0 <= i < s.len() ==> digit_val(#[trigger] s[i]) < b
}

/// The number that the digits `s` denote in base `b`.
pub open spec fn num(s: Seq<char>, b: nat) -> nat
    decreases s.len(),
{
    if s.len() == 0 {
        0
    } else {
        num(s.drop_last(), b) * b + digit_val(s.last())
    }
}

/// ASCII lowercase of one character; every other character is unchanged.
pub open spec fn lower_char(c: char) -> char {
    if 'A' <= c && c <= 'Z' {
        (c as u32 + 32) as char
    } else {
        c
    }
}

/// ASCII lowercase of a text.
pub open spec fn lower(s: Seq<char>) -> Seq<char> {
    Seq::new(s.len(), |i: int| lower_char(s[i]))
}

/// Strict lexicographic order by code point.
pub open spec fn text_lt(a: Seq<char>, b: Seq<char>) -> bool
    decreases a.len(),
{
    if b.len() == 0 {
        false
    } else if a.len() == 0 {
        true
    } else if a[0] == b[0] {
        text_lt(a.drop_first(), b.drop_first())
    } else {
        a[0] < b[0]
    }
}

/// `needle` occurs in `hay` starting at position `i`.
pub open spec fn occurs_at(hay: Seq<char>, needle: Seq<char>, i: int) -> bool {
    0 <= i && i + needle.len() <= hay.len() && hay.subrange(i, i + needle.len()) == needle
}

/// `needle` occurs somewhere in `hay`.
pub open spec fn occurs_in(hay: Seq<char>, needle: Seq<char>) -> bool {
    exists|i: int| occurs_at(hay, needle, i)
}

/// Position of the first `c` in `s`; the length of `s` where there is none.
pub open spec fn find(s: Seq<char>, c: char) -> int
    decreases s.len(),
{
    if s.len() == 0 || s[0] == c {
        0
    } else {
        1 + find(s.drop_first(), c)
    }
}

/// Position of the last `c` in `s`, or -1 where there is none.
pub open spec fn rfind(s: Seq<char>, c: char) -> int
    decreases s.len(),
{
    if s.len() == 0 {
        -1
    } else if s.last() == c {
        s.len() - 1
    } else {
        rfind(s.drop_last(), c)
    }
}

/// Splits `s` at every occurrence of `sep`; a text without `sep` is one piece.
pub open spec fn split(s: Seq<char>, sep: char) -> Seq<Seq<char>>
    decreases s.len(),
{
    let i = find(s, sep);
    if 0 <= i < s.len() {
        seq![s.subrange(0, i)] + split(s.subrange(i + 1, s.len() as int), sep)
    } else {
        seq![s]
    }
}

/// The pieces with `sep` between each two.
pub open spec fn join(pieces: Seq<Seq<char>>, sep: char) -> Seq<char>
    decreases pieces.len(),
{
    if pieces.len() == 0 {
        Seq::empty()
    } else if pieces.len() == 1 {
        pieces[0]
    } else {
        pieces[0].push(sep) + join(pieces.drop_first(), sep)
    }
}

/// A space or a tab.
pub open spec fn blank(c: char) -> bool {
    c == ' ' || c == '\t'
}

/// The text without leading blanks.
pub open spec fn trim_start(s: Seq<char>) -> Seq<char>
    decreases s.len(),
{
    if s.len() > 0 && blank(s[0]) {
        trim_start(s.drop_first())
    } else {
        s
    }
}

/// The text without trailing blanks.
pub open spec fn trim_end(s: Seq<char>) -> Seq<char>
    decreases s.len(),
{
    if s.len() > 0 && blank(s.last()) {
        trim_end(s.drop_last())
    } else {
        s
    }
}

/// The text without leading and trailing blanks.
pub open spec fn trim(s: Seq<char>) -> Seq<char> {
    trim_end(trim_start(s))
}

/// The text without trailing dots.
pub open spec fn trim_dots(s: Seq<char>) -> Seq<char>
    decreases s.len(),
{
    if s.len() > 0 && s.last() == '.' {
        trim_dots(s.drop_last())
    } else {
        s
    }
}

/// The text before the last colon; the whole text where there is none.
pub open spec fn before_last_colon(s: Seq<char>) -> Seq<char> {
    let i = rfind(s, ':');
    if i >= 0 {
        s.subrange(0, i)
    } else {
        s
    }
}

/// The text `s` begins with `p`.
pub open spec fn begins(s: Seq<char>, p: Seq<char>) -> bool {
    p.len() <= s.len() && s.subrange(0, p.len() as int) == p
}

/// `String::push`: appends one character.
pub assume_specification[ String::push ](s: &mut String, c: char)
    ensures
        final(s)@ == old(s)@.push(c),
;

/// The text that `b` encodes, by `core::str::from_utf8`; none where `b` is not
/// well-formed UTF-8.
#[verifier::external_body]
pub(crate) fn utf8_text(b: &[u8]) -> (r: Option<String>)
    ensures
        r is Some <==> valid_utf8(b@),
        r is Some ==> r->0@ == decode_utf8(b@),
{
    core::str::from_utf8(b).ok().map(|s| s.to_owned())
}

/// The characters of `s`, in order.
pub fn chars_of(s: &str) -> (r: Vec<char>)
    ensures
        r@ == s@,
{
    let mut out: Vec<char> = Vec::new();
    for c in it: s.chars()
        invariant
            it.seq() == s@,
            out@ == s@.subrange(0, it.index()),
    {
        out.push(c);
        assert(out@ =~= s@.subrange(0, it.index() + 1));
    }
    assert(out@ =~= s@);
    out
}

/// The text made of the characters `v`.
pub fn string_of(v: &[char]) -> (r: String)
    ensures
        r@ == v@,
{
    let mut out = String::new();
    for i in 0..v.len()
        invariant
            out@ == v@.subrange(0, i as int),
    {
        out.push(v[i]);
        assert(out@ =~= v@.subrange(0, i + 1));
    }
    assert(out@ =~= v@);
    out
}

/// Text equality.
pub fn same(a: &str, b: &str) -> (r: bool)
    ensures
        r == (a@ == b@),
{
    a.to_owned() == b.to_owned()
}

/// The concatenation of two texts.
pub fn join2(a: &str, b: &str) -> (r: String)
    ensures
        r@ == a@ + b@,
{
    let mut out = a.to_owned();
    out.append(b);
    out
}

/// The concatenation of three texts.
pub fn join3(a: &str, b: &str, c: &str) -> (r: String)
    ensures
        r@ == a@ + b@ + c@,
{
    let mut out = a.to_owned();
    out.append(b);
    out.append(c);
    out
}

/// The digit character for `d`.
fn digit_char_of(d: u8) -> (r: char)
    requires
        d < 16,
    ensures
        r == digit_char(d as nat),
{
    if d < 10 {
        (48u8 + d) as char
    } else {
        (87u8 + d) as char
    }
}

/// The value of a digit character.
fn digit_val_of(c: char) -> (r: u32)
    ensures
        r == digit_val(c),
{
    if '0' <= c && c <= '9' {
        c as u32 - 48
    } else if 'a' <= c && c <= 'f' {
        c as u32 - 87
    } else if 'A' <= c && c <= 'F' {
        c as u32 - 55
    } else {
        16
    }
}

/// Text of `n` in base `b`.
fn digits_string(n: u64, b: u64) -> (r: String)
    requires
        2 <= b <= 16,
    ensures
        r@ == digits(n as nat, b as nat),
    decreases n,
{
    let c = digit_char_of((n % b) as u8);
    if n < b {
        let mut out = String::new();
        out.push(c);
        assert(n % b == n) by (nonlinear_arith)
            requires
                n < b,
        ;
        assert(out@ =~= digits(n as nat, b as nat));
        out
    } else {
        assert(n / b < n) by (nonlinear_arith)
            requires
                n >= b,
                b >= 2,
        ;
        let mut out = digits_string(n / b, b);
        out.push(c);
        out
    }
}

/// Decimal text of `n`.
pub fn dec_string(n: u64) -> (r: String)
    ensures
        r@ == dec(n as nat),
{
    digits_string(n, 10)
}

/// Hexadecimal text of `n`.
pub fn hex_string(n: u64) -> (r: String)
    ensures
        r@ == hex(n as nat),
{
    digits_string(n, 16)
}

/// Octal text of `n`.
pub fn oct_string(n: u64) -> (r: String)
    ensures
        r@ == oct(n as nat),
{
    digits_string(n, 8)
}

/// Reads `v` as a base-`b` number of at most `cap`.
pub fn parse_num(v: &[char], b: u32, cap: u32) -> (r: Option<u32>)
    requires
        2 <= b <= 16,
        cap <= 0xffff,
    ensures
        r == (if is_num(v@, b as nat) && num(v@, b as nat) <= cap {
            Some(num(v@, b as nat) as u32)
        } else {
            None::<u32>
        }),
{
    if v.len() == 0 {
        return None;
    }
    let mut acc: u32 = 0;
    for i in 0..v.len()
        invariant
            2 <= b <= 16,
            cap <= 0xffff,
            acc <= cap,
            acc == num(v@.subrange(0, i as int), b as nat),
            forall|j: int| 0 <= j < i ==> digit_val(#[trigger] v@[j]) < b,
    {
        let d = digit_val_of(v[i]);
        if d >= b {
            return None;
        }
        proof {
            let part = v@.subrange(0, i + 1);
            assert(part.drop_last() =~= v@.subrange(0, i as int));
            assert(num(part, b as nat) == num(part.drop_last(), b as nat) * b + d);
            assert(acc * b <= 0xffff * 16) by (nonlinear_arith)
                requires
                    acc <= 0xffff,
                    b <= 16,
            ;
        }
        let next: u32 = acc * b + d;
        if next > cap {
            proof {
                lemma_num_prefix(v@, b as nat, i + 1);
            }
            return None;
        }
        acc = next;
    }
    assert(v@.subrange(0, v@.len() as int) =~= v@);
    Some(acc)
}

/// A prefix of a digit run denotes no more than the whole run.
pub proof fn lemma_num_prefix(s: Seq<char>, b: nat, k: int)
    requires
        b >= 1,
        0 <= k <= s.len(),
    ensures
        num(s.subrange(0, k), b) <= num(s, b),
    decreases s.len() - k,
{
    if k == s.len() {
        assert(s.subrange(0, k) =~= s);
    } else {
        let part = s.subrange(0, k + 1);
        assert(part.drop_last() =~= s.subrange(0, k));
        lemma_num_prefix(s, b, k + 1);
        let x = num(s.subrange(0, k), b);
        assert(x <= x * b) by (nonlinear_arith)
            requires
                b >= 1,
        ;
    }
}

/// Reading back the notation of a number gives the number.
pub proof fn lemma_digits_num(n: nat, b: nat)
    requires
        2 <= b <= 16,
    ensures
        is_num(digits(n, b), b),
        num(digits(n, b), b) == n,
    decreases n,
{
    let s = digits(n, b);
    if n < b {
        assert(s.drop_last() =~= Seq::<char>::empty());
        assert(num(s.drop_last(), b) * b == 0) by (nonlinear_arith)
            requires
                num(s.drop_last(), b) == 0,
        ;
        assert(digit_val(digit_char(n)) == n);
    } else {
        assert(n / b < n && n % b < b && n == (n / b) * b + n % b) by (nonlinear_arith)
            requires
                n >= b,
                b >= 2,
        ;
        lemma_digits_num(n / b, b);
        assert(s.drop_last() =~= digits(n / b, b));
        assert(digit_val(digit_char(n % b)) == n % b);
        assert forall|i: int| 0 <= i < s.len() implies digit_val(#[trigger] s[i]) < b by {
            if i < s.len() - 1 {
                assert(s[i] == digits(n / b, b)[i]);
            }
        }
    }
}

/// The notation of a number has no leading zero, but for zero itself.
pub proof fn lemma_digits_lead(n: nat, b: nat)
    requires
        2 <= b <= 16,
    ensures
        digits(n, b).len() > 0,
        n > 0 ==> digits(n, b)[0] != '0',
        n < b ==> digits(n, b).len() == 1,
    decreases n,
{
    if n >= b {
        assert(n / b < n && n / b > 0) by (nonlinear_arith)
            requires
                n >= b,
                b >= 2,
        ;
        lemma_digits_lead(n / b, b);
        assert(digits(n, b)[0] == digits(n / b, b)[0]);
    }
}

/// Bounds on the length of a notation.
pub proof fn lemma_dec_len(n: nat)
    ensures
        n < 100 ==> dec(n).len() <= 2,
        n < 1000 ==> dec(n).len() <= 3,
        n < 10000 ==> dec(n).len() <= 4,
        n < 100000 ==> dec(n).len() <= 5,
{
    reveal_with_fuel(digits, 6);
}

/// Bounds on the length of a hexadecimal notation.
pub proof fn lemma_hex_len(n: nat)
    ensures
        n < 0x10000 ==> 1 <= hex(n).len() <= 4,
{
    reveal_with_fuel(digits, 5);
}

/// ASCII-lowercases one character.
pub fn to_lower_char(c: char) -> (r: char)
    ensures
        r == lower_char(c),
{
    if 'A' <= c && c <= 'Z' {
        ((c as u8) + 32) as char
    } else {
        c
    }
}

/// ASCII-lowercases a text.
pub fn to_lower(s: &str) -> (r: String)
    ensures
        r@ == lower(s@),
{
    let mut out = String::new();
    for c in it: s.chars()
        invariant
            it.seq() == s@,
            out@ == lower(s@).subrange(0, it.index()),
    {
        out.push(to_lower_char(c));
        assert(out@ =~= lower(s@).subrange(0, it.index() + 1));
    }
    assert(out@ =~= lower(s@));
    out
}

/// Decides [`text_lt`] on character slices.
fn chars_lt(a: &[char], b: &[char]) -> (r: bool)
    ensures
        r == text_lt(a@, b@),
{
    let mut i: usize = 0;
    assert(a@.subrange(0, a@.len() as int) =~= a@);
    assert(b@.subrange(0, b@.len() as int) =~= b@);
    while i < a.len() && i < b.len() && a[i] == b[i]
        invariant
            i <= a.len(),
            i <= b.len(),
            text_lt(a@, b@) == text_lt(
                a@.subrange(i as int, a@.len() as int),
                b@.subrange(i as int, b@.len() as int),
            ),
        decreases a.len() - i,
    {
        assert(a@.subrange(i as int, a@.len() as int).drop_first() =~= a@.subrange(
            i + 1,
            a@.len() as int,
        ));
        assert(b@.subrange(i as int, b@.len() as int).drop_first() =~= b@.subrange(
            i + 1,
            b@.len() as int,
        ));
        i += 1;
    }
    if i >= b.len() {
        false
    } else if i >= a.len() {
        true
    } else {
        a[i] < b[i]
    }
}

/// Decides [`text_lt`].
pub fn less(a: &str, b: &str) -> (r: bool)
    ensures
        r == text_lt(a@, b@),
{
    let x = chars_of(a);
    let y = chars_of(b);
    chars_lt(x.as_slice(), y.as_slice())
}

/// [`text_lt`] is irreflexive.
pub proof fn lemma_text_lt_irreflexive(a: Seq<char>)
    ensures
        !text_lt(a, a),
    decreases a.len(),
{
    if a.len() > 0 {
        lemma_text_lt_irreflexive(a.drop_first());
    }
}

/// [`text_lt`] is transitive.
pub proof fn lemma_text_lt_transitive(a: Seq<char>, b: Seq<char>, c: Seq<char>)
    requires
        text_lt(a, b),
        text_lt(b, c),
    ensures
        text_lt(a, c),
    decreases a.len(),
{
    if a.len() > 0 && b.len() > 0 && c.len() > 0 && a[0] == b[0] && b[0] == c[0] {
        lemma_text_lt_transitive(a.drop_first(), b.drop_first(), c.drop_first());
    }
}

/// [`text_lt`] is total on distinct texts.
pub proof fn lemma_text_lt_total(a: Seq<char>, b: Seq<char>)
    ensures
        text_lt(a, b) || text_lt(b, a) || a == b,
    decreases a.len(),
{
    if a.len() > 0 && b.len() > 0 && a[0] == b[0] {
        lemma_text_lt_total(a.drop_first(), b.drop_first());
        if a.drop_first() == b.drop_first() {
            assert(a =~= seq![a[0]] + a.drop_first());
            assert(b =~= seq![b[0]] + b.drop_first());
        }
    } else if a.len() == 0 && b.len() == 0 {
        assert(a =~= b);
    }
}

/// What [`find`] returns.
pub proof fn lemma_find(s: Seq<char>, c: char)
    ensures
        0 <= find(s, c) <= s.len(),
        find(s, c) < s.len() ==> s[find(s, c)] == c,
        forall|j: int| 0 <= j < find(s, c) ==> s[j] != c,
        find(s, c) < s.len() <==> s.contains(c),
    decreases s.len(),
{
    if s.len() > 0 && s[0] != c {
        let t = s.drop_first();
        lemma_find(t, c);
        assert forall|j: int| 0 <= j < find(s, c) implies s[j] != c by {
            if j > 0 {
                assert(s[j] == t[j - 1]);
            }
        }
        if s.contains(c) {
            let k = choose|k: int| 0 <= k < s.len() && s[k] == c;
            assert(t[k - 1] == c);
        }
    }
}

/// [`find`] is the only position with its properties.
pub proof fn lemma_find_unique(s: Seq<char>, c: char, k: int)
    requires
        0 <= k <= s.len(),
        k < s.len() ==> s[k] == c,
        forall|j: int| 0 <= j < k ==> s[j] != c,
    ensures
        find(s, c) == k,
{
    lemma_find(s, c);
    let f = find(s, c);
    if f < k {
        assert(s[f] != c);
    } else if k < f {
        assert(s[k] != c);
    }
}

/// What [`rfind`] returns.
pub proof fn lemma_rfind(s: Seq<char>, c: char)
    ensures
        -1 <= rfind(s, c) < s.len(),
        rfind(s, c) >= 0 ==> s[rfind(s, c)] == c,
        forall|j: int| rfind(s, c) < j < s.len() ==> s[j] != c,
    decreases s.len(),
{
    if s.len() > 0 && s.last() != c {
        let t = s.drop_last();
        lemma_rfind(t, c);
        assert forall|j: int| rfind(s, c) < j < s.len() implies s[j] != c by {
            if j < s.len() - 1 {
                assert(t[j] == s[j]);
            }
        }
    }
}

/// A piece, a separator and more text split into the piece and the rest.
pub proof fn lemma_split_cons(p: Seq<char>, sep: char, rest: Seq<char>)
    requires
        !p.contains(sep),
    ensures
        split(p.push(sep) + rest, sep) == seq![p] + split(rest, sep),
{
    let s = p.push(sep) + rest;
    assert forall|j: int| 0 <= j < p.len() implies s[j] != sep by {
        assert(s[j] == p[j]);
        assert(p.contains(p[j]));
    }
    lemma_find_unique(s, sep, p.len() as int);
    assert(s.subrange(0, p.len() as int) =~= p);
    assert(s.subrange(p.len() as int + 1, s.len() as int) =~= rest);
}

/// Two texts with a separator between them split into the pieces of both.
pub proof fn lemma_split_concat(a: Seq<char>, sep: char, b: Seq<char>)
    ensures
        split(a.push(sep) + b, sep) == split(a, sep) + split(b, sep),
    decreases a.len(),
{
    lemma_find(a, sep);
    let i = find(a, sep);
    if i < a.len() {
        let p = a.subrange(0, i);
        let rest = a.subrange(i + 1, a.len() as int);
        assert(!p.contains(sep));
        lemma_split_concat(rest, sep, b);
        lemma_split_cons(p, sep, rest.push(sep) + b);
        assert(a.push(sep) + b =~= p.push(sep) + (rest.push(sep) + b));
        assert(seq![p] + (split(rest, sep) + split(b, sep)) =~= (seq![p] + split(rest, sep))
            + split(b, sep));
    } else {
        assert(!a.contains(sep));
        lemma_split_cons(a, sep, b);
    }
}

/// No piece holds the separator.
pub proof fn lemma_split_pieces(s: Seq<char>, sep: char)
    ensures
        split(s, sep).len() >= 1,
        forall|i: int|
            0 <= i < split(s, sep).len() ==> !(#[trigger] split(s, sep)[i]).contains(sep),
    decreases s.len(),
{
    lemma_find(s, sep);
    let i = find(s, sep);
    if i < s.len() {
        let p = s.subrange(0, i);
        let rest = s.subrange(i + 1, s.len() as int);
        assert(!p.contains(sep));
        lemma_split_pieces(rest, sep);
        assert forall|j: int| 0 <= j < split(s, sep).len() implies !(#[trigger] split(
            s,
            sep,
        )[j]).contains(sep) by {
            if j > 0 {
                assert(split(s, sep)[j] == split(rest, sep)[j - 1]);
            }
        }
    } else {
        assert(!s.contains(sep));
    }
}

/// Splitting undoes joining.
pub proof fn lemma_split_join(pieces: Seq<Seq<char>>, sep: char)
    requires
        pieces.len() > 0,
        forall|i: int| 0 <= i < pieces.len() ==> !(#[trigger] pieces[i]).contains(sep),
    ensures
        split(join(pieces, sep), sep) == pieces,
    decreases pieces.len(),
{
    if pieces.len() == 1 {
        lemma_find(pieces[0], sep);
        assert(split(pieces[0], sep) =~= pieces);
    } else {
        let rest = pieces.drop_first();
        assert forall|i: int| 0 <= i < rest.len() implies !(#[trigger] rest[i]).contains(sep) by {
            assert(rest[i] == pieces[i + 1]);
        }
        lemma_split_join(rest, sep);
        lemma_split_cons(pieces[0], sep, join(rest, sep));
        assert(seq![pieces[0]] + rest =~= pieces);
    }
}

/// A joined text holds only the separator and characters of its pieces.
pub proof fn lemma_join_chars(pieces: Seq<Seq<char>>, sep: char, c: char)
    requires
        c != sep,
        forall|i: int| 0 <= i < pieces.len() ==> !(#[trigger] pieces[i]).contains(c),
    ensures
        !join(pieces, sep).contains(c),
    decreases pieces.len(),
{
    if pieces.len() > 1 {
        let rest = pieces.drop_first();
        assert forall|i: int| 0 <= i < rest.len() implies !(#[trigger] rest[i]).contains(c) by {
            assert(rest[i] == pieces[i + 1]);
        }
        lemma_join_chars(rest, sep, c);
        let t = join(pieces, sep);
        let tail = join(rest, sep);
        if t.contains(c) {
            let k = choose|k: int| 0 <= k < t.len() && t[k] == c;
            let n = pieces[0].len() as int;
            if k < n {
                assert(pieces[0][k] == c);
                assert(pieces[0].contains(c));
            } else if k > n {
                assert(tail[k - n - 1] == c);
                assert(tail.contains(c));
            }
        }
    }
}

/// A property of the separator and of all pieces' characters is one of the
/// joined text's characters.
pub proof fn lemma_join_all(pieces: Seq<Seq<char>>, sep: char, p: spec_fn(char) -> bool)
    requires
        p(sep),
        forall|i: int, j: int|
            0 <= i < pieces.len() && 0 <= j < pieces[i].len() ==> p(#[trigger] pieces[i][j]),
    ensures
        forall|j: int| 0 <= j < join(pieces, sep).len() ==> p(#[trigger] join(pieces, sep)[j]),
    decreases pieces.len(),
{
    let t = join(pieces, sep);
    if pieces.len() > 1 {
        let rest = pieces.drop_first();
        assert forall|i: int, j: int| 0 <= i < rest.len() && 0 <= j < rest[i].len() implies p(
            #[trigger] rest[i][j],
        ) by {
            assert(rest[i][j] == pieces[i + 1][j]);
        }
        lemma_join_all(rest, sep, p);
        let n = pieces[0].len() as int;
        assert forall|j: int| 0 <= j < t.len() implies p(#[trigger] t[j]) by {
            if j < n {
                assert(t[j] == pieces[0][j]);
            } else if j > n {
                assert(t[j] == join(rest, sep)[j - n - 1]);
            }
        }
    } else if pieces.len() == 1 {
        assert forall|j: int| 0 <= j < t.len() implies p(#[trigger] t[j]) by {
            assert(t[j] == pieces[0][j]);
        }
    }
}

/// The length of a joined text whose pieces are at most `w` long.
pub proof fn lemma_join_len(pieces: Seq<Seq<char>>, sep: char, w: nat)
    requires
        forall|i: int| 0 <= i < pieces.len() ==> (#[trigger] pieces[i]).len() <= w,
    ensures
        join(pieces, sep).len() <= pieces.len() * (w + 1),
        pieces.len() > 0 ==> join(pieces, sep).len() + 1 <= pieces.len() * (w + 1),
    decreases pieces.len(),
{
    if pieces.len() == 0 {
        assert(pieces.len() * (w + 1) == 0) by (nonlinear_arith)
            requires
                pieces.len() == 0,
        ;
    } else if pieces.len() == 1 {
        assert(pieces.len() * (w + 1) == w + 1) by (nonlinear_arith)
            requires
                pieces.len() == 1,
        ;
    } else {
        let rest = pieces.drop_first();
        assert forall|i: int| 0 <= i < rest.len() implies (#[trigger] rest[i]).len() <= w by {
            assert(rest[i] == pieces[i + 1]);
        }
        lemma_join_len(rest, sep, w);
        assert(pieces.len() * (w + 1) == rest.len() * (w + 1) + (w + 1)) by (nonlinear_arith)
            requires
                pieces.len() == rest.len() + 1,
        ;
    }
}

/// A text without the separator is one piece.
pub proof fn lemma_split_single(s: Seq<char>, sep: char)
    requires
        !s.contains(sep),
    ensures
        split(s, sep) == seq![s],
{
    lemma_find(s, sep);
}

/// The characters of `v` from `a` up to `b`.
pub fn cut(v: &[char], a: usize, b: usize) -> (r: Vec<char>)
    requires
        a <= b <= v@.len(),
    ensures
        r@ == v@.subrange(a as int, b as int),
{
    let mut out: Vec<char> = Vec::new();
    for i in a..b
        invariant
            a <= b <= v@.len(),
            out@ == v@.subrange(a as int, i as int),
    {
        out.push(v[i]);
        assert(out@ =~= v@.subrange(a as int, i + 1));
    }
    out
}

/// Decides [`find`].
pub fn find_char(v: &[char], c: char) -> (r: usize)
    ensures
        r == find(v@, c),
{
    let mut i: usize = 0;
    while i < v.len() && v[i] != c
        invariant
            i <= v.len(),
            forall|j: int| 0 <= j < i ==> v@[j] != c,
        decreases v.len() - i,
    {
        i += 1;
    }
    proof {
        lemma_find_unique(v@, c, i as int);
    }
    i
}

/// Decides [`rfind`].
pub fn rfind_char(v: &[char], c: char) -> (r: Option<usize>)
    ensures
        r == (if rfind(v@, c) >= 0 {
            Some(rfind(v@, c) as usize)
        } else {
            None::<usize>
        }),
{
    let mut i: usize = v.len();
    assert(v@.subrange(0, i as int) =~= v@);
    proof {
        lemma_rfind(v@, c);
    }
    while i > 0
        invariant
            i <= v.len(),
            rfind(v@, c) == rfind(v@.subrange(0, i as int), c),
            -1 <= rfind(v@, c) < v@.len(),
        decreases i,
    {
        assert(v@.subrange(0, i as int).drop_last() =~= v@.subrange(0, i - 1));
        if v[i - 1] == c {
            return Some(i - 1);
        }
        i -= 1;
    }
    None
}

/// Views of a list of character vectors.
pub open spec fn chars_views(v: Seq<Vec<char>>) -> Seq<Seq<char>> {
    Seq::new(v.len(), |i: int| v[i]@)
}

/// View of an optional text.
pub open spec fn opt_view(s: Option<String>) -> Option<Seq<char>> {
    match s {
        Some(t) => Some(t@),
        None => None,
    }
}

/// Views of a list of texts.
pub open spec fn texts(v: Seq<String>) -> Seq<Seq<char>> {
    Seq::new(v.len(), |i: int| v[i]@)
}

/// Decides [`split`].
pub fn split_chars(v: &[char], sep: char) -> (r: Vec<Vec<char>>)
    ensures
        chars_views(r@) == split(v@, sep),
        r@.len() >= 1,
{
    let mut out: Vec<Vec<char>> = Vec::new();
    let mut start: usize = 0;
    let mut i: usize = 0;
    assert(v@.subrange(0, v@.len() as int) =~= v@);
    assert(chars_views(out@) + split(v@, sep) =~= split(v@, sep));
    while i < v.len()
        invariant
            start <= i <= v@.len(),
            forall|j: int| start <= j < i ==> v@[j] != sep,
            chars_views(out@) + split(v@.subrange(start as int, v@.len() as int), sep) == split(
                v@,
                sep,
            ),
        decreases v@.len() - i,
    {
        if v[i] == sep {
            let piece = cut(v, start, i);
            proof {
                let rest = v@.subrange(start as int, v@.len() as int);
                let after = v@.subrange(i + 1, v@.len() as int);
                assert(rest =~= piece@.push(sep) + after);
                assert(!piece@.contains(sep));
                lemma_split_cons(piece@, sep, after);
                assert(chars_views(out@.push(piece)) =~= chars_views(out@).push(piece@));
                assert(chars_views(out@) + (seq![piece@] + split(after, sep)) =~= chars_views(
                    out@,
                ).push(piece@) + split(after, sep));
            }
            out.push(piece);
            start = i + 1;
        }
        i += 1;
    }
    let piece = cut(v, start, v.len());
    proof {
        lemma_split_single(piece@, sep);
        assert(chars_views(out@.push(piece)) =~= chars_views(out@) + seq![piece@]);
    }
    out.push(piece);
    out
}

/// Decides [`trim`].
pub fn trim_chars(v: &[char]) -> (r: Vec<char>)
    ensures
        r@ == trim(v@),
{
    let n: usize = v.len();
    let mut a: usize = 0;
    assert(v@.subrange(0, n as int) =~= v@);
    while a < n && (v[a] == ' ' || v[a] == '\t')
        invariant
            a <= n,
            n == v@.len(),
            trim_start(v@) == trim_start(v@.subrange(a as int, n as int)),
        decreases n - a,
    {
        assert(v@.subrange(a as int, n as int).drop_first() =~= v@.subrange(a + 1, n as int));
        a += 1;
    }
    assert(trim_start(v@) == v@.subrange(a as int, n as int));
    let mut b: usize = n;
    while b > a && (v[b - 1] == ' ' || v[b - 1] == '\t')
        invariant
            a <= b <= n,
            n == v@.len(),
            trim(v@) == trim_end(v@.subrange(a as int, b as int)),
        decreases b,
    {
        assert(v@.subrange(a as int, b as int).drop_last() =~= v@.subrange(a as int, b - 1));
        b -= 1;
    }
    cut(v, a, b)
}

/// Decides [`trim_dots`].
pub fn trim_dots_chars(v: &[char]) -> (r: Vec<char>)
    ensures
        r@ == trim_dots(v@),
{
    let mut b: usize = v.len();
    assert(v@.subrange(0, b as int) =~= v@);
    while b > 0 && v[b - 1] == '.'
        invariant
            b <= v@.len(),
            trim_dots(v@) == trim_dots(v@.subrange(0, b as int)),
        decreases b,
    {
        assert(v@.subrange(0, b as int).drop_last() =~= v@.subrange(0, b - 1));
        b -= 1;
    }
    cut(v, 0, b)
}

/// Decides [`before_last_colon`].
pub fn cut_last_colon(v: &[char]) -> (r: Vec<char>)
    ensures
        r@ == before_last_colon(v@),
{
    let n: usize = v.len();
    proof {
        lemma_rfind(v@, ':');
        assert(v@.subrange(0, n as int) =~= v@);
    }
    match rfind_char(v, ':') {
        Some(i) => cut(v, 0, i),
        None => cut(v, 0, n),
    }
}

/// Whether `v` begins with `p`.
pub fn begins_with(v: &str, p: &str) -> (r: bool)
    ensures
        r == begins(v@, p@),
{
    let a = chars_of(v);
    let b = chars_of(p);
    if b.len() > a.len() {
        return false;
    }
    for i in 0..b.len()
        invariant
            b@.len() <= a@.len(),
            a@ == v@,
            b@ == p@,
            forall|j: int| 0 <= j < i ==> a@[j] == b@[j],
    {
        if a[i] != b[i] {
            assert(v@.subrange(0, p@.len() as int)[i as int] != p@[i as int]);
            return false;
        }
    }
    assert(v@.subrange(0, p@.len() as int) =~= p@);
    true
}

/// Whether `needle` occurs in `hay`.
pub fn contains_text(hay: &str, needle: &str) -> (r: bool)
    ensures
        r == occurs_in(hay@, needle@),
{
    let a = chars_of(hay);
    let b = chars_of(needle);
    if b.len() > a.len() {
        return false;
    }
    let n: usize = a.len();
    let last: usize = n - b.len();
    let mut i: usize = 0;
    while i <= last
        invariant
            a@ == hay@,
            b@ == needle@,
            last == a@.len() - b@.len(),
            i <= last + 1,
            n == a@.len(),
            forall|k: int| 0 <= k < i ==> !occurs_at(hay@, needle@, k),
        decreases last + 1 - i,
    {
        let mut k: usize = 0;
        while k < b.len() && a[i + k] == b[k]
            invariant
                a@ == hay@,
                b@ == needle@,
                last == a@.len() - b@.len(),
                i <= last,
                k <= b@.len(),
                a@.len() <= usize::MAX,
                forall|j: int| 0 <= j < k ==> a@[i + j] == b@[j],
            decreases b@.len() - k,
        {
            k += 1;
        }
        if k == b.len() {
            assert(hay@.subrange(i as int, i + needle@.len()) =~= needle@);
            assert(occurs_at(hay@, needle@, i as int));
            return true;
        }
        assert(hay@.subrange(i as int, i + needle@.len())[k as int] != needle@[k as int]);
        if i == last {
            assert forall|k: int| !occurs_at(hay@, needle@, k) by {}
            return false;
        }
        i += 1;
    }
    false
}

/// Law: lowercase adds thirty-two to the code of each of the letters `A` to
/// `Z`, and touches nothing else.
pub proof fn law_lowercase_touches_capitals_only(s: Seq<char>, i: int)
    requires
        0 <= i < s.len(),
    ensures
        lower(s).len() == s.len(),
        'A' <= s[i] && s[i] <= 'Z' ==> lower(s)[i] as nat == s[i] as nat + 32,
        !('A' <= s[i] && s[i] <= 'Z') ==> lower(s)[i] == s[i],
{
}

/// Law: the decimal notation of a number below ten is its digit, and that of
/// any other ends in the digit of its remainder.
pub proof fn law_decimal_notation(n: nat, d: nat)
    requires
        d < 10,
    ensures
        dec(d) == seq!["0123456789"@[d as int]],
        n > 0 ==> dec(10 * n + d) == dec(n).push("0123456789"@[d as int]),
{
    reveal_strlit("0123456789");
    assert((10 * n + d) / 10 == n);
    assert((10 * n + d) % 10 == d);
    assert(digit_char(d) == "0123456789"@[d as int]);
}

/// Law: what stands behind the last colon of a text is cut off with it, and a
/// text without a colon stays whole.
pub proof fn law_port_is_cut_off(host: Seq<char>, port: Seq<char>)
    requires
        !port.contains(':'),
    ensures
        before_last_colon(host + ":"@ + port) == host,
        before_last_colon(port) == port,
    decreases port.len(),
{
    reveal_strlit(":");
    let s = host + ":"@ + port;
    if port.len() == 0 {
        assert(s.last() == ':');
        assert(s.subrange(0, s.len() - 1) =~= host);
    } else {
        let shorter = port.drop_last();
        assert forall|i: int| 0 <= i < shorter.len() implies shorter[i] != ':' by {
            assert(shorter[i] == port[i]);
            assert(port.contains(port[i]));
        }
        assert(port.contains(port.last()));
        law_port_is_cut_off(host, shorter);
        assert(s.drop_last() =~= host + ":"@ + shorter);
        assert(s.last() == port.last());
        lemma_rfind(host + ":"@ + shorter, ':');
        lemma_rfind(shorter, ':');
        let t = host + ":"@ + shorter;
        assert(t[host.len() as int] == ':');
        assert(rfind(s, ':') == rfind(t, ':'));
        assert(s.subrange(0, rfind(t, ':')) =~= t.subrange(0, rfind(t, ':')));
        lemma_rfind(port, ':');
        if rfind(port, ':') >= 0 {
            assert(port.contains(port[rfind(port, ':')]));
        }
    }
}

/// Law: what stands between the spaces and tabs at the two ends of a text is
/// what is left of it.
pub proof fn law_blanks_at_the_ends_go(left: Seq<char>, core: Seq<char>, right: Seq<char>)
    requires
        forall|i: int| 0 <= i < left.len() ==> #[trigger] left[i] == ' ' || left[i] == '\t',
        forall|i: int| 0 <= i < right.len() ==> #[trigger] right[i] == ' ' || right[i] == '\t',
        core.len() > 0,
        core[0] != ' ' && core[0] != '\t',
        core.last() != ' ' && core.last() != '\t',
    ensures
        trim(left + core + right) == core,
    decreases left.len() + right.len(),
{
    let s = left + core + right;
    if left.len() > 0 {
        assert(s[0] == left[0]);
        let less = left.drop_first();
        assert forall|i: int| 0 <= i < less.len() implies #[trigger] less[i] == ' ' || less[i]
            == '\t' by {
            assert(less[i] == left[i + 1]);
        }
        law_blanks_at_the_ends_go(less, core, right);
        assert(s.drop_first() =~= less + core + right);
    } else {
        assert(s[0] == core[0]);
        assert(trim_start(s) == s);
        if right.len() > 0 {
            assert(s.last() == right.last());
            let less = right.drop_last();
            assert forall|i: int| 0 <= i < less.len() implies #[trigger] less[i] == ' ' || less[i]
                == '\t' by {
                assert(less[i] == right[i]);
            }
            law_blanks_at_the_ends_go(left, core, less);
            let t = left + core + less;
            assert(t[0] == core[0]);
            assert(trim_start(t) == t);
            assert(s.drop_last() =~= t);
        } else {
            assert(s =~= core);
        }
    }
}

/// Law: exactly the dots that a text ends in are taken off.
pub proof fn law_trailing_dots_go(core: Seq<char>, dots: Seq<char>)
    requires
        forall|i: int| 0 <= i < dots.len() ==> #[trigger] dots[i] == '.',
        core.len() == 0 || core.last() != '.',
    ensures
        trim_dots(core + dots) == core,
    decreases dots.len(),
{
    if dots.len() > 0 {
        let s = core + dots;
        assert(s.last() == dots.last());
        law_trailing_dots_go(core, dots.drop_last());
        assert(s.drop_last() =~= core + dots.drop_last());
    } else {
        assert(core + dots =~= core);
    }
}

/// Joining undoes splitting.
pub proof fn lemma_join_split(s: Seq<char>, sep: char)
    ensures
        join(split(s, sep), sep) == s,
    decreases s.len(),
{
    lemma_find(s, sep);
    let i = find(s, sep);
    if i < s.len() {
        let p = s.subrange(0, i);
        let rest = s.subrange(i + 1, s.len() as int);
        lemma_join_split(rest, sep);
        lemma_split_pieces(rest, sep);
        let all = split(s, sep);
        assert(all.drop_first() =~= split(rest, sep));
        assert(all[0] == p);
        assert(join(all, sep) =~= s);
    }
}

/// A run of decimal digits without a leading zero is the notation of the
/// number that it denotes.
pub proof fn lemma_dec_unique(s: Seq<char>)
    requires
        is_num(s, 10),
        s.len() == 1 || s[0] != '0',
    ensures
        dec(num(s, 10)) == s,
        s.len() > 1 ==> num(s, 10) >= 10,
        s[0] != '0' ==> num(s, 10) >= 1,
    decreases s.len(),
{
    let d = digit_val(s.last());
    assert(d < 10) by {
        assert(digit_val(s[s.len() - 1]) < 10);
    }
    assert(digit_char(d) == s.last());
    let t = s.drop_last();
    if s.len() == 1 {
        assert(t =~= Seq::<char>::empty());
        assert(num(t, 10) == 0);
        assert(s =~= seq![s.last()]);
    } else {
        assert forall|i: int| 0 <= i < t.len() implies digit_val(#[trigger] t[i]) < 10 by {
            assert(t[i] == s[i]);
        }
        assert(t[0] == s[0]);
        lemma_dec_unique(t);
        let n = num(t, 10);
        assert((n * 10 + d) / 10 == n && (n * 10 + d) % 10 == d);
        assert(digits(num(s, 10), 10) == digits(n, 10).push(digit_char(d)));
        assert(t.push(s.last()) =~= s);
    }
}

/// Law: texts are ordered by the first character in which they differ; a text
/// comes before its extensions, and not before itself.
pub proof fn law_texts_are_ordered(p: Seq<char>, c: char, d: char, x: Seq<char>, y: Seq<char>)
    ensures
        c < d ==> text_lt(p + (seq![c] + x), p + (seq![d] + y)),
        c < d ==> !text_lt(p + (seq![d] + y), p + (seq![c] + x)),
        text_lt(p, p + (seq![c] + x)),
        !text_lt(p + (seq![c] + x), p),
        !text_lt(p, p),
    decreases p.len(),
{
    let a = p + (seq![c] + x);
    let b = p + (seq![d] + y);
    if p.len() > 0 {
        let q = p.drop_first();
        law_texts_are_ordered(q, c, d, x, y);
        assert(a.drop_first() =~= q + (seq![c] + x));
        assert(b.drop_first() =~= q + (seq![d] + y));
    } else {
        assert(a[0] == c && b[0] == d);
    }
}

/// Law: a text occurs in another exactly where something can be put before and
/// after it to make the other.
pub proof fn law_occurrence_is_a_part(hay: Seq<char>, needle: Seq<char>, left: Seq<char>, right: Seq<char>)
    ensures
        occurs_in(left + needle + right, needle),
        occurs_in(hay, needle) ==> exists|a: Seq<char>, b: Seq<char>|
            hay == #[trigger] (a + needle + b),
{
    let t = left + needle + right;
    let at = left.len() as int;
    assert(t.subrange(at, at + needle.len()) =~= needle);
    assert(occurs_at(t, needle, at));
    if occurs_in(hay, needle) {
        let i = choose|i: int| #[trigger] occurs_at(hay, needle, i);
        let a = hay.subrange(0, i);
        let b = hay.subrange(i + needle.len(), hay.len() as int);
        assert(hay =~= a + hay.subrange(i, i + needle.len()) + b);
        assert(hay == a + needle + b);
    }
}

/// Law: a text is split at every separator: what stands before the first is the
/// first piece, and the rest is split on.
pub proof fn law_split_at_every_separator(first: Seq<char>, sep: char, rest: Seq<char>)
    requires
        !first.contains(sep),
    ensures
        split(first, sep) == seq![first],
        split(first + seq![sep] + rest, sep) == seq![first] + split(rest, sep),
{
    lemma_split_single(first, sep);
    lemma_split_cons(first, sep, rest);
    assert(first + seq![sep] + rest =~= first.push(sep) + rest);
}

} // verus!
