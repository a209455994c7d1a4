//! File paths as text, with `/` as the separator.

use vstd::prelude::*;
use vstd::string::*;

use crate::text::{
    chars_of, chars_views, join2, join3, lemma_split_concat, lemma_split_pieces,
    lemma_split_single, same, split, split_chars, string_of,
};

verus! {

broadcast use vstd::string::group_string_axioms;

/// `base` extended by `name`: an absolute `name` stands alone, and a separator
/// is put between the two where there is none.
pub open spec fn path_join(base: Seq<char>, name: Seq<char>) -> Seq<char> {
    if name.len() > 0 && name[0] == '/' {
        name
    } else if base.len() == 0 || base.last() == '/' {
        base + name
    } else {
        base + seq!['/'] + name
    }
}

/// Extends `base` by `name`.
pub fn join_path(base: &str, name: &str) -> (r: String)
    ensures
        r@ == path_join(base@, name@),
{
    let nb: usize = base.unicode_len();
    let nn: usize = name.unicode_len();
    if nn > 0 && name.get_char(0) == '/' {
        return name.to_owned();
    }
    if nb == 0 || base.get_char(nb - 1) == '/' {
        join2(base, name)
    } else {
        proof {
            reveal_strlit("/");
            assert("/"@ =~= seq!['/']);
        }
        join3(base, "/", name)
    }
}

/// Whether the piece at `i`, of those between the separators of a path, counts:
/// an empty one does not, and `.` only where the path begins with it.
pub open spec fn counts(pieces: Seq<Seq<char>>, i: int) -> bool {
    pieces[i].len() > 0 && (i == 0 || pieces[i] != "."@)
}

/// `root` extended by those of the first `n` pieces that count.
pub open spec fn plain_upto(root: Seq<char>, pieces: Seq<Seq<char>>, n: int) -> Seq<char>
    decreases n,
{
    if n <= 0 {
        root
    } else {
        let before = plain_upto(root, pieces, n - 1);
        if counts(pieces, n - 1) {
            path_join(before, pieces[n - 1])
        } else {
            before
        }
    }
}

/// What an absolute path begins with; nothing for any other path.
pub open spec fn root_of(path: Seq<char>) -> Seq<char> {
    if path.len() > 0 && path[0] == '/' {
        seq!['/']
    } else {
        Seq::empty()
    }
}

/// A path in its plain spelling: without repeated and trailing separators, and
/// without `.` but at the beginning. Two paths are equal, component by
/// component, where their plain spellings are the same.
pub open spec fn plain_path(path: Seq<char>) -> Seq<char> {
    plain_upto(root_of(path), split(path, '/'), split(path, '/').len() as int)
}

/// The plain spellings of a list of paths.
pub open spec fn plain_paths(paths: Seq<Seq<char>>) -> Seq<Seq<char>> {
    paths.map_values(|p: Seq<char>| plain_path(p))
}

/// Spells a path plainly.
pub fn to_plain(path: &str) -> (r: String)
    ensures
        r@ == plain_path(path@),
{
    let v = chars_of(path);
    let pieces = split_chars(v.as_slice(), '/');
    let ghost all = split(path@, '/');
    let ghost root = root_of(path@);
    assert(all == chars_views(pieces@));
    let mut out = String::new();
    if v.len() > 0 && v[0] == '/' {
        out.push('/');
    }
    assert(out@ =~= root);
    let n: usize = pieces.len();
    for i in 0..n
        invariant
            n == pieces@.len(),
            all == chars_views(pieces@),
            out@ == plain_upto(root, all, i as int),
    {
        assert(all[i as int] == pieces@[i as int]@);
        let piece = string_of(pieces[i].as_slice());
        if pieces[i].len() > 0 && (i == 0 || !same(piece.as_str(), ".")) {
            out = join_path(out.as_str(), piece.as_str());
        }
    }
    out
}

/// Spells a list of paths plainly.
pub fn all_plain(paths: &Vec<String>) -> (r: Vec<String>)
    ensures
        crate::text::texts(r@) == plain_paths(crate::text::texts(paths@)),
{
    let mut out: Vec<String> = Vec::new();
    let ghost all = plain_paths(crate::text::texts(paths@));
    for i in 0..paths.len()
        invariant
            all == plain_paths(crate::text::texts(paths@)),
            crate::text::texts(out@) == all.subrange(0, i as int),
    {
        let ghost done = out@;
        let p = to_plain(paths[i].as_str());
        assert(p@ == all[i as int]);
        out.push(p);
        assert(crate::text::texts(out@) =~= crate::text::texts(done).push(all[i as int]));
        assert(crate::text::texts(out@) =~= all.subrange(0, i + 1));
    }
    assert(all.subrange(0, paths@.len() as int) =~= all);
    out
}

/// Only the first `n` pieces matter.
proof fn lemma_plain_prefix(root: Seq<char>, a: Seq<Seq<char>>, b: Seq<Seq<char>>, n: int)
    requires
        n <= a.len(),
        n <= b.len(),
        forall|i: int| 0 <= i < n ==> a[i] == b[i],
    ensures
        plain_upto(root, a, n) == plain_upto(root, b, n),
    decreases n,
{
    if n > 0 {
        lemma_plain_prefix(root, a, b, n - 1);
    }
}

/// A piece after the first that does not count may as well be left out.
proof fn lemma_plain_without(
    root: Seq<char>,
    a: Seq<Seq<char>>,
    x: Seq<char>,
    b: Seq<Seq<char>>,
    k: int,
)
    requires
        a.len() >= 1,
        x.len() == 0 || x == "."@,
        0 <= k <= b.len(),
    ensures
        plain_upto(root, a + (seq![x] + b), a.len() + 1 + k) == plain_upto(
            root,
            a + b,
            a.len() + k,
        ),
    decreases k,
{
    let long = a + (seq![x] + b);
    let short = a + b;
    if k == 0 {
        assert(long[a.len() as int] == x);
        lemma_plain_prefix(root, long, short, a.len() as int);
    } else {
        lemma_plain_without(root, a, x, b, k - 1);
        assert(long[a.len() + k] == b[k - 1]);
        assert(short[a.len() + k - 1] == b[k - 1]);
    }
}

/// Law: a repeated separator, a `.` between separators and a trailing separator
/// do not change which file a path names.
pub proof fn law_plain_path_ignores_separators(a: Seq<char>, b: Seq<char>)
    ensures
        plain_path(a + seq!['/', '/'] + b) == plain_path(a + seq!['/'] + b),
        plain_path(a + seq!['/', '.', '/'] + b) == plain_path(a + seq!['/'] + b),
        a.len() > 0 ==> plain_path(a + seq!['/']) == plain_path(a),
{
    let pa = split(a, '/');
    let pb = split(b, '/');
    let none = Seq::<char>::empty();
    reveal_strlit(".");
    let dot = seq!['.'];
    assert(dot =~= "."@);
    lemma_split_pieces(a, '/');
    assert(!none.contains('/'));
    assert(!dot.contains('/'));
    lemma_split_single(none, '/');
    lemma_split_single(dot, '/');
    let p0 = a + seq!['/'] + b;
    let p1 = a + seq!['/', '/'] + b;
    let p2 = a + seq!['/', '.', '/'] + b;
    let p3 = a + seq!['/'];
    assert(p0 =~= a.push('/') + b);
    lemma_split_concat(a, '/', b);
    assert(p1 =~= a.push('/') + (none.push('/') + b));
    lemma_split_concat(none, '/', b);
    lemma_split_concat(a, '/', none.push('/') + b);
    assert(p2 =~= a.push('/') + (dot.push('/') + b));
    lemma_split_concat(dot, '/', b);
    lemma_split_concat(a, '/', dot.push('/') + b);
    assert(p3 =~= a.push('/') + none);
    lemma_split_concat(a, '/', none);
    assert(root_of(p1) == root_of(p0) && root_of(p2) == root_of(p0));
    lemma_plain_without(root_of(p0), pa, none, pb, pb.len() as int);
    lemma_plain_without(root_of(p0), pa, dot, pb, pb.len() as int);
    if a.len() > 0 {
        assert(root_of(p3) == root_of(a));
        assert(split(p3, '/')[pa.len() as int] == none);
        lemma_plain_prefix(root_of(a), split(p3, '/'), pa, pa.len() as int);
    }
}

/// Law: a plain spelling is its own plain spelling.
pub proof fn law_plain_path_is_idempotent(path: Seq<char>)
    ensures
        plain_path(plain_path(path)) == plain_path(path),
{
    let pieces = split(path, '/');
    lemma_split_pieces(path, '/');
    if path.len() > 0 && path[0] == '/' {
        let none = Seq::<char>::empty();
        let rest = path.drop_first();
        assert(path =~= none.push('/') + rest);
        assert(!none.contains('/'));
        crate::text::lemma_split_cons(none, '/', rest);
        assert(pieces[0] == none);
    }
    lemma_plain_is_plain(root_of(path), pieces, pieces.len() as int);
}

/// What the first `n` pieces make is plain.
proof fn lemma_plain_is_plain(root: Seq<char>, pieces: Seq<Seq<char>>, n: int)
    requires
        0 <= n <= pieces.len(),
        root.len() == 0 || root == seq!['/'] && pieces.len() > 0 && pieces[0].len() == 0,
        forall|i: int| 0 <= i < pieces.len() ==> !(#[trigger] pieces[i]).contains('/'),
    ensures
        ({
            let q = plain_upto(root, pieces, n);
            &&& plain_path(q) == q
            &&& q.len() > 0 && q.last() == '/' ==> q == root
            &&& n == 0 ==> q == root
        }),
    decreases n,
{
    let none = Seq::<char>::empty();
    assert(!none.contains('/'));
    lemma_split_single(none, '/');
    reveal_with_fuel(plain_upto, 3);
    if n == 0 {
        if root.len() == 0 {
            assert(root =~= none);
        } else {
            assert(root =~= none.push('/') + none);
            lemma_split_concat(none, '/', none);
        }
        assert(plain_path(root) =~= root);
    } else {
        lemma_plain_is_plain(root, pieces, n - 1);
        let q0 = plain_upto(root, pieces, n - 1);
        let x = pieces[n - 1];
        if counts(pieces, n - 1) {
            let q = plain_upto(root, pieces, n);
            assert(!x.contains('/'));
            assert(x.contains(x[0]) && x.contains(x.last()));
            lemma_split_single(x, '/');
            if q0.len() == 0 {
                assert(q =~= x);
                assert(plain_path(q) =~= q);
            } else if q0.last() == '/' {
                assert(q =~= none.push('/') + x);
                lemma_split_concat(none, '/', x);
                assert(plain_path(q) =~= q);
            } else {
                assert(q =~= q0.push('/') + x);
                lemma_split_concat(q0, '/', x);
                let s0 = split(q0, '/');
                let s = split(q, '/');
                assert(s =~= s0.push(x));
                lemma_split_pieces(q0, '/');
                lemma_plain_prefix(root_of(q0), s, s0, s0.len() as int);
                assert(root_of(q) == root_of(q0));
                assert(s[s0.len() as int] == x);
            }
        }
    }
}

/// The text of the directory that `std::path::Path::parent` gives for a path,
/// if it gives one.
pub uninterp spec fn parent_of(path: Seq<char>) -> Option<Seq<char>>;

/// `std::path::Path::parent`: the path without its final component.
#[verifier::external_body]
pub(crate) fn parent_dir(path: &str) -> (r: Option<String>)
    ensures
        crate::text::opt_view(r) == parent_of(path@),
{
    std::path::Path::new(path).parent().map(|p| p.to_string_lossy().into_owned())
}

/// The text of the path that `std::path::Path::with_extension` gives.
pub uninterp spec fn extended_path(path: Seq<char>, extension: Seq<char>) -> Seq<char>;

/// `std::path::Path::with_extension`: the path with the extension of its file
/// name added or replaced. The extension holds no separator.
#[verifier::external_body]
pub(crate) fn with_extension(path: &str, extension: &str) -> (r: String)
    requires
        !extension@.contains('/'),
        !extension@.contains('\\'),
    ensures
        r@ == extended_path(path@, extension@),
{
    std::path::Path::new(path).with_extension(extension).to_string_lossy().into_owned()
}

/// The text of a path as Rust's `Debug` prints a path, quotes and escapes
/// included.
pub uninterp spec fn path_debug_text(path: Seq<char>) -> Seq<char>;

/// `std::path::Path`'s `Debug` notation.
#[verifier::external_body]
pub(crate) fn quoted_path(path: &str) -> (r: String)
    ensures
        r@ == path_debug_text(path@),
{
    format!("{:?}", std::path::Path::new(path))
}

/// The text of `s` as Rust's `Debug` prints it, quotes and escapes included.
pub uninterp spec fn debug_text(s: Seq<char>) -> Seq<char>;

/// `str`'s `Debug` notation.
#[verifier::external_body]
pub(crate) fn quoted(s: &str) -> (r: String)
    ensures
        r@ == debug_text(s@),
{
    format!("{:?}", s)
}

/// Law: a name is put behind its directory with one separator between them,
/// whether or not the directory ends in one; an absolute name stands alone.
pub proof fn law_name_goes_below_its_directory(base: Seq<char>, name: Seq<char>)
    requires
        name.len() > 0,
    ensures
        name[0] == '/' ==> path_join(base, name) == name,
        name[0] != '/' && base.len() > 0 && base.last() != '/' ==> path_join(base, name) == base
            + "/"@ + name,
        name[0] != '/' ==> path_join(base + "/"@, name) == base + "/"@ + name,
        name[0] != '/' ==> path_join(""@, name) == name,
{
    reveal_strlit("/");
    reveal_strlit("");
    assert("/"@ =~= seq!['/']);
    assert((base + "/"@).last() == '/');
    assert(""@ + name =~= name);
}

} // verus!
