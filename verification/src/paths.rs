//! Dotted module paths and the text helpers the rest of the crate shares.

use vstd::prelude::*;

verus! {

/// `ancestor` names `path` itself or a package that encloses it: it is a
/// prefix of `path` that ends where a segment of `path` ends.
pub open spec fn is_ancestor_path(ancestor: Seq<char>, path: Seq<char>) -> bool {
    &&& ancestor.len() <= path.len()
    &&& path.subrange(0, ancestor.len() as int) == ancestor
    &&& (ancestor.len() == path.len() || path[ancestor.len() as int] == '.')
}

/// The characters of `s`, in order.
pub fn chars_of(s: &str) -> (r: Vec<char>)
    ensures
        r@ == s@,
{
    let mut out: Vec<char> = Vec::new();
    for c in it: s.chars()
        invariant
            out@ == it.seq().take(it.index() as int),
    {
        out.push(c);
    }
    out
}

/// Whether the first `len` characters of `a` and of `b` agree.
pub fn same_prefix(a: &Vec<char>, b: &Vec<char>, len: usize) -> (r: bool)
    requires
        len <= a.len(),
        len <= b.len(),
    ensures
        r == (a@.subrange(0, len as int) == b@.subrange(0, len as int)),
{
    let mut i: usize = 0;
    while i < len
        invariant
            i <= len,
            len <= a.len(),
            len <= b.len(),
            a@.subrange(0, i as int) == b@.subrange(0, i as int),
        decreases len - i,
    {
        if a[i] != b[i] {
            assert(a@.subrange(0, len as int)[i as int] != b@.subrange(0, len as int)[i as int]);
            return false;
        }
        assert(a@.subrange(0, i + 1) =~= a@.subrange(0, i as int).push(a@[i as int]));
        assert(b@.subrange(0, i + 1) =~= b@.subrange(0, i as int).push(b@[i as int]));
        i += 1;
    }
    true
}

/// Whether `a` and `b` hold the same text.
pub fn same_text(a: &str, b: &str) -> (r: bool)
    ensures
        r == (a@ == b@),
{
    let x = chars_of(a);
    let y = chars_of(b);
    if x.len() != y.len() {
        return false;
    }
    let r = same_prefix(&x, &y, x.len());
    assert(x@.subrange(0, x.len() as int) =~= x@);
    assert(y@.subrange(0, y.len() as int) =~= y@);
    r
}

/// Whether `ancestor` names `path` or a package that encloses it.
pub fn is_ancestor(ancestor: &str, path: &str) -> (r: bool)
    ensures
        r == is_ancestor_path(ancestor@, path@),
{
    let a = chars_of(ancestor);
    let p = chars_of(path);
    if a.len() > p.len() {
        return false;
    }
    let same = same_prefix(&a, &p, a.len());
    assert(a@.subrange(0, a.len() as int) =~= a@);
    same && (a.len() == p.len() || p[a.len()] == '.')
}

/// Two ancestors of one path are nested, and equally long ones are equal.
pub proof fn lemma_ancestors_nest(a: Seq<char>, b: Seq<char>, path: Seq<char>)
    requires
        is_ancestor_path(a, path),
        is_ancestor_path(b, path),
        a.len() <= b.len(),
    ensures
        is_ancestor_path(a, b),
        a.len() == b.len() ==> a == b,
{
    assert(b.subrange(0, a.len() as int) =~= path.subrange(0, a.len() as int)) by {
        assert forall|i: int| 0 <= i < a.len() implies b.subrange(0, a.len() as int)[i]
            == path.subrange(0, a.len() as int)[i] by {
            assert(path.subrange(0, b.len() as int)[i] == b[i]);
        }
    }
    if a.len() < b.len() {
        assert(path.subrange(0, b.len() as int)[a.len() as int] == b[a.len() as int]);
    } else {
        assert(b.subrange(0, a.len() as int) =~= b);
    }
}

} // verus!
