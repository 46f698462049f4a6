//! Unix paths held as byte strings: absoluteness, joining a single component,
//! component-wise containment and order of canonical paths.
use crate::digest::append_bytes;
use vstd::prelude::*;

verus! {

/// The path separator `/`.
pub open spec fn is_sep(b: u8) -> bool {
    b == 47
}

/// A path is absolute when it starts with the root separator.
pub open spec fn spec_is_absolute(p: Seq<u8>) -> bool {
    p.len() > 0 && is_sep(p[0])
}

/// Joining one relative component: a separator is inserted unless the base is
/// empty or already ends with one.
pub open spec fn spec_join(base: Seq<u8>, name: Seq<u8>) -> Seq<u8> {
    if base.len() == 0 || is_sep(base.last()) {
        base + name
    } else {
        base + seq![47u8] + name
    }
}

/// Component-wise prefix of normalized paths: `p` is `home` itself or lies
/// below it.
pub open spec fn spec_within(p: Seq<u8>, home: Seq<u8>) -> bool {
    ||| p == home
    ||| {
        &&& home.len() < p.len()
        &&& p.take(home.len() as int) == home
        &&& (home.len() > 0 && is_sep(home.last()) || is_sep(p[home.len() as int]))
    }
}

/// The characters of a string, in order.
pub fn chars_of(s: &str) -> (v: Vec<char>)
    ensures
        v@ == s@,
{
    let mut v: Vec<char> = Vec::new();
    for c in it: s.chars()
        invariant
            v@ == it.seq().take(it.index() as int),
            it.seq() == s@,
    {
        v.push(c);
    }
    v
}

/// Whether a path is absolute.
pub fn is_absolute(p: &[u8]) -> (r: bool)
    ensures
        r == spec_is_absolute(p@),
{
    p.len() > 0 && p[0] == 47
}

/// Joins one relative component onto `base`.
pub fn join(base: &[u8], name: &[u8]) -> (r: Vec<u8>)
    ensures
        r@ == spec_join(base@, name@),
{
    let mut r: Vec<u8> = Vec::new();
    append_bytes(&mut r, base);
    if !(base.len() == 0 || base[base.len() - 1] == 47) {
        r.push(47);
    }
    append_bytes(&mut r, name);
    r
}

/// Whether two byte strings are equal.
pub fn same_bytes(a: &[u8], b: &[u8]) -> (r: bool)
    ensures
        r == (a@ == b@),
{
    if a.len() != b.len() {
        return false;
    }
    let n = a.len();
    let mut i: usize = 0;
    while i < n
        invariant
            n == a@.len(),
            n == b@.len(),
            i <= n,
            forall|j: int| 0 <= j < i ==> a@[j] == b@[j],
        decreases n - i,
    {
        if a[i] != b[i] {
            return false;
        }
        i = i + 1;
    }
    assert(a@ =~= b@);
    true
}

/// Whether the normalized path `p` is `home` or lies below it.
pub fn within(p: &[u8], home: &[u8]) -> (r: bool)
    ensures
        r == spec_within(p@, home@),
{
    let n = home.len();
    if p.len() < n {
        return false;
    }
    let mut i: usize = 0;
    while i < n
        invariant
            n == home@.len(),
            n <= p@.len(),
            i <= n,
            forall|j: int| 0 <= j < i ==> p@[j] == home@[j],
        decreases n - i,
    {
        if p[i] != home[i] {
            assert(p@.take(n as int)[i as int] != home@[i as int]);
            assert(p@.take(n as int) != home@);
            assert(p@ != home@);
            return false;
        }
        i = i + 1;
    }
    assert(p@.take(n as int) =~= home@);
    if p.len() == n {
        assert(p@ =~= home@);
        return true;
    }
    (n > 0 && home[n - 1] == 47) || p[n] == 47
}

/// The rank of a byte in path order: the separator sorts before every other
/// byte, which sort by value.
pub open spec fn byte_rank(b: u8) -> int {
    if is_sep(b) {
        0
    } else {
        b as int + 1
    }
}

/// The order of normalized paths: component by component, which for paths
/// without empty components is the lexicographic order of their bytes with
/// the separator sorting first.
pub open spec fn path_lt(a: Seq<u8>, b: Seq<u8>) -> bool
    decreases a.len(),
{
    if a.len() == 0 {
        b.len() > 0
    } else if b.len() == 0 {
        false
    } else if a[0] != b[0] {
        byte_rank(a[0]) < byte_rank(b[0])
    } else {
        path_lt(a.drop_first(), b.drop_first())
    }
}

/// Path order is a strict total order.
pub proof fn lemma_path_lt_order(a: Seq<u8>, b: Seq<u8>, c: Seq<u8>)
    ensures
        !path_lt(a, a),
        path_lt(a, b) ==> !path_lt(b, a),
        a != b ==> path_lt(a, b) || path_lt(b, a),
        path_lt(a, b) && path_lt(b, c) ==> path_lt(a, c),
    decreases a.len(),
{
    if a.len() > 0 && b.len() > 0 && c.len() > 0 {
        lemma_path_lt_order(a.drop_first(), b.drop_first(), c.drop_first());
        if a[0] == b[0] && a.drop_first() == b.drop_first() {
            assert(a =~= seq![a[0]] + a.drop_first());
            assert(b =~= seq![b[0]] + b.drop_first());
        }
    } else if a.len() > 0 && b.len() > 0 {
        lemma_path_lt_order(a.drop_first(), b.drop_first(), c);
        if a[0] == b[0] && a.drop_first() == b.drop_first() {
            assert(a =~= seq![a[0]] + a.drop_first());
            assert(b =~= seq![b[0]] + b.drop_first());
        }
    } else if a.len() > 0 {
        lemma_path_lt_order(a.drop_first(), a.drop_first(), c);
    } else {
        if b.len() == 0 {
            assert(a =~= b);
        }
    }
}

/// Whether `a` sorts before `b` in path order.
pub fn path_less(a: &[u8], b: &[u8]) -> (r: bool)
    ensures
        r == path_lt(a@, b@),
{
    let mut i: usize = 0;
    assert(a@.skip(0) =~= a@);
    assert(b@.skip(0) =~= b@);
    while i < a.len() && i < b.len()
        invariant
            i <= a@.len(),
            i <= b@.len(),
            path_lt(a@, b@) == path_lt(a@.skip(i as int), b@.skip(i as int)),
        decreases a@.len() - i,
    {
        assert(a@.skip(i as int).drop_first() =~= a@.skip(i + 1));
        assert(b@.skip(i as int).drop_first() =~= b@.skip(i + 1));
        if a[i] != b[i] {
            let ra: u16 = if a[i] == 47 { 0 } else { a[i] as u16 + 1 };
            let rb: u16 = if b[i] == 47 { 0 } else { b[i] as u16 + 1 };
            assert(a@.skip(i as int)[0] == a@[i as int]);
            assert(b@.skip(i as int)[0] == b@[i as int]);
            return ra < rb;
        }
        i = i + 1;
    }
    i == a.len() && i < b.len()
}


/// Joining a component onto a base that does not end with `/` puts exactly
/// one `/` between them; onto one that does, none.
pub proof fn lemma_join_separates(base: Seq<u8>, name: Seq<u8>)
    ensures
        spec_join(base, name).take(base.len() as int) == base,
        spec_join(base, name).skip(spec_join(base, name).len() - name.len()) == name,
        base.len() > 0 && base.last() != 47 ==> spec_join(base, name).len() == base.len() + 1 + name.len()
            && spec_join(base, name)[base.len() as int] == 47,
        (base.len() == 0 || base.last() == 47) ==> spec_join(base, name) == base + name,
{
    let j = spec_join(base, name);
    assert(j.take(base.len() as int) =~= base);
    assert(j.skip(j.len() - name.len()) =~= name);
}

/// A path is within a home exactly when it is the home, or starts with the
/// home followed by a separator (or the home itself ends with one). So
/// `/h/ab` is not within `/h/a`, while `/h/a/b` is.
pub proof fn lemma_within_components(p: Seq<u8>, home: Seq<u8>)
    ensures
        spec_within(home, home),
        spec_within(p, home) ==> p.len() >= home.len() && p.take(home.len() as int) == home,
        home.len() < p.len() && p.take(home.len() as int) == home && p[home.len() as int] == 47 ==> spec_within(p, home),
        home.len() > 0 && home.last() != 47 && home.len() < p.len() && p[home.len() as int] != 47 ==> !spec_within(p, home),
{
    if spec_within(p, home) && p == home {
        assert(p.take(home.len() as int) =~= home);
    }
}

/// Joining a component onto a (non-empty) home gives a path within that home.
pub proof fn lemma_join_within(home: Seq<u8>, name: Seq<u8>)
    requires
        home.len() > 0,
        name.len() > 0,
    ensures
        spec_within(spec_join(home, name), home),
{
    let j = spec_join(home, name);
    assert(j.take(home.len() as int) =~= home);
    if !is_sep(home.last()) {
        assert(j[home.len() as int] == 47);
    }
}
} // verus!
