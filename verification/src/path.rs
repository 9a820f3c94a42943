//! Byte-level paths: splitting, joining and component-wise comparison.
//!
//! `join` follows `PathBuf::push` on Unix (an absolute argument replaces the
//! base, otherwise a `/` is inserted unless the base is empty or already ends
//! in one). `components` follows `Path::components` on Unix: a leading `/` is
//! the root, a leading `.` segment is kept, and after that empty and `.`
//! segments vanish. Two paths are the same path when their components agree.
use vstd::prelude::*;
use vstd::slice::slice_to_vec;

verus! {

/// The path separator, `/`.
pub const SLASH: u8 = 0x2f;

/// `.`, the current directory.
pub const DOT: u8 = 0x2e;

/// Offset of the first `sep` in `s`, or `s.len()` when there is none.
pub open spec fn first_index(s: Seq<u8>, sep: u8) -> nat
    decreases s.len(),
{
    if s.len() == 0 {
        0
    } else if s[0] == sep {
        0
    } else {
        1 + first_index(s.drop_first(), sep)
    }
}

/// The pieces of `s` between occurrences of `sep`, as `<[u8]>::split` yields
/// them: `n` separators give `n + 1` pieces, empty ones included.
pub open spec fn split(s: Seq<u8>, sep: u8) -> Seq<Seq<u8>>
    decreases s.len(),
{
    let i = first_index(s, sep);
    if i >= s.len() {
        seq![s]
    } else {
        seq![s.take(i as int)] + split(s.skip(i + 1 as int), sep)
    }
}

pub proof fn lemma_first_index(s: Seq<u8>, sep: u8)
    ensures
        first_index(s, sep) <= s.len(),
        first_index(s, sep) < s.len() ==> s[first_index(s, sep) as int] == sep,
        forall|j: int| 0 <= j < first_index(s, sep) ==> s[j] != sep,
    decreases s.len(),
{
    if s.len() > 0 && s[0] != sep {
        lemma_first_index(s.drop_first(), sep);
        assert forall|j: int| 0 <= j < first_index(s, sep) implies s[j] != sep by {
            if j > 0 {
                assert(s[j] == s.drop_first()[j - 1]);
            }
        }
    }
}

/// `first_index` is determined by the two facts that characterise it.
pub proof fn lemma_first_index_is(s: Seq<u8>, sep: u8, i: int)
    requires
        0 <= i <= s.len(),
        i < s.len() ==> s[i] == sep,
        forall|j: int| 0 <= j < i ==> s[j] != sep,
    ensures
        first_index(s, sep) == i,
{
    lemma_first_index(s, sep);
    let f = first_index(s, sep) as int;
    if f < i {
        assert(s[f] != sep);
    }
    if i < f {
        assert(s[i] != sep);
    }
}

/// Splitting at a separator splits the pieces.
pub proof fn lemma_split_concat(a: Seq<u8>, b: Seq<u8>, sep: u8)
    ensures
        split(a + seq![sep] + b, sep) == split(a, sep) + split(b, sep),
    decreases a.len(),
{
    let s = a + seq![sep] + b;
    lemma_first_index(a, sep);
    let i = first_index(a, sep) as int;
    if i >= a.len() {
        assert forall|j: int| 0 <= j < a.len() implies s[j] != sep by {
            assert(s[j] == a[j]);
        }
        lemma_first_index_is(s, sep, a.len() as int);
        assert(s.take(a.len() as int) =~= a);
        assert(s.skip(a.len() as int + 1) =~= b);
        assert(split(a, sep) == seq![a]);
    } else {
        assert forall|j: int| 0 <= j < i implies s[j] != sep by {
            assert(s[j] == a[j]);
        }
        lemma_first_index_is(s, sep, i);
        let a2 = a.skip(i + 1);
        lemma_split_concat(a2, b, sep);
        assert(s.take(i) =~= a.take(i));
        assert(s.skip(i + 1) =~= a2 + seq![sep] + b);
        assert(split(s, sep) =~= seq![a.take(i)] + (split(a2, sep) + split(b, sep)));
        assert(split(a, sep) =~= seq![a.take(i)] + split(a2, sep));
        assert(split(s, sep) =~= split(a, sep) + split(b, sep));
    }
}

/// One step of splitting a range of `s`: either no separator is left, or
/// the first piece ends at the separator found.
pub proof fn lemma_split_step(s: Seq<u8>, lo: int, e: int, sep: u8)
    requires
        0 <= lo <= e <= s.len(),
        e == lo + first_index(s.subrange(lo, s.len() as int), sep),
    ensures
        e == s.len() ==> split(s.subrange(lo, s.len() as int), sep) == seq![s.subrange(lo, e)],
        e < s.len() ==> s[e] == sep && split(s.subrange(lo, s.len() as int), sep) == seq![
            s.subrange(lo, e),
        ] + split(s.subrange(e + 1, s.len() as int), sep),
{
    let sub = s.subrange(lo, s.len() as int);
    lemma_first_index(sub, sep);
    if e == s.len() {
        assert(sub =~= s.subrange(lo, e));
    } else {
        assert(sub[e - lo] == s[e]);
        assert(sub.take(e - lo) =~= s.subrange(lo, e));
        assert(sub.skip(e - lo + 1) =~= s.subrange(e + 1, s.len() as int));
    }
}

/// Position of the first `sep` in `s[lo..hi]`, or `hi` when there is none.
pub fn find_byte(s: &[u8], lo: usize, hi: usize, sep: u8) -> (r: usize)
    requires
        lo <= hi <= s@.len(),
    ensures
        lo <= r <= hi,
        r == lo + first_index(s@.subrange(lo as int, hi as int), sep),
{
    let mut i = lo;
    while i < hi && s[i] != sep
        invariant
            lo <= i <= hi <= s@.len(),
            forall|j: int| lo <= j < i ==> s@[j] != sep,
        decreases hi - i,
    {
        i += 1;
    }
    proof {
        let sub = s@.subrange(lo as int, hi as int);
        assert forall|j: int| 0 <= j < i - lo implies sub[j] != sep by {
            assert(sub[j] == s@[lo + j]);
        }
        if i < hi {
            assert(sub[i - lo] == s@[i as int]);
        }
        lemma_first_index_is(sub, sep, i - lo);
    }
    i
}

/// The deep view of a byte vector is its view.
pub proof fn lemma_bytes_deep_view(v: Vec<u8>)
    ensures
        v.deep_view() == v@,
{
    assert(v.deep_view() =~= v@);
}

/// `base.join(p)` on Unix.
pub open spec fn join_spec(base: Seq<u8>, p: Seq<u8>) -> Seq<u8> {
    if p.len() > 0 && p[0] == SLASH {
        p
    } else if base.len() > 0 && base.last() != SLASH {
        base + seq![SLASH] + p
    } else {
        base + p
    }
}

/// A path segment that stands as a component of its own.
pub open spec fn is_normal(c: Seq<u8>) -> bool {
    c.len() > 0 && c != seq![DOT]
}

/// The segments that stand as components, in order.
pub open spec fn normals(segs: Seq<Seq<u8>>) -> Seq<Seq<u8>>
    decreases segs.len(),
{
    if segs.len() == 0 {
        seq![]
    } else {
        let rest = normals(segs.drop_last());
        if is_normal(segs.last()) {
            rest.push(segs.last())
        } else {
            rest
        }
    }
}

/// `Path::components` on Unix; the root is written `/` and a leading current
/// directory `.`, which no other component can be.
pub open spec fn components(p: Seq<u8>) -> Seq<Seq<u8>> {
    if p.len() > 0 && p[0] == SLASH {
        seq![seq![SLASH]] + normals(split(p.skip(1), SLASH))
    } else if p.len() > 0 && p[0] == DOT && (p.len() == 1 || p[1] == SLASH) {
        seq![seq![DOT]] + normals(split(p.skip(1), SLASH))
    } else {
        normals(split(p, SLASH))
    }
}

/// Whether `a` and `b` name the same path, as `Path`'s `==` decides it.
pub open spec fn same_path_spec(a: Seq<u8>, b: Seq<u8>) -> bool {
    components(a) == components(b)
}

/// `base.join(p)` on Unix.
pub fn join(base: &[u8], p: &[u8]) -> (r: Vec<u8>)
    ensures
        r@ == join_spec(base@, p@),
{
    if p.len() > 0 && p[0] == SLASH {
        return slice_to_vec(p);
    }
    let mut r = slice_to_vec(base);
    if base.len() > 0 && base[base.len() - 1] != SLASH {
        r.push(SLASH);
    }
    let ghost head = r@;
    let mut i: usize = 0;
    while i < p.len()
        invariant
            i <= p@.len(),
            r@ == head + p@.take(i as int),
        decreases p@.len() - i,
    {
        r.push(p[i]);
        i += 1;
        assert(r@ =~= head + p@.take(i as int));
    }
    assert(p@.take(p@.len() as int) =~= p@);
    r
}

/// The components of the segments of `p` from offset `lo` on.
fn normals_from(p: &[u8], lo: usize) -> (r: Vec<Vec<u8>>)
    requires
        lo <= p@.len(),
    ensures
        r.deep_view() == normals(split(p@.subrange(lo as int, p@.len() as int), SLASH)),
{
    let len = p.len();
    let mut out: Vec<Vec<u8>> = Vec::new();
    let mut start = lo;
    let ghost mut done: Seq<Seq<u8>> = seq![];
    loop
        invariant
            lo <= start <= len,
            len == p@.len(),
            split(p@.subrange(lo as int, len as int), SLASH) == done + split(
                p@.subrange(start as int, len as int),
                SLASH,
            ),
            out.deep_view() == normals(done),
        decreases len - start,
    {
        let e = find_byte(p, start, len, SLASH);
        proof {
            lemma_split_step(p@, start as int, e as int, SLASH);
        }
        let seg = slice_to_vec(&p[start..e]);
        let ghost prev = done;
        proof {
            done = done.push(seg@);
            assert(done.drop_last() =~= prev);
        }
        if seg.len() > 0 && !(seg.len() == 1 && seg[0] == DOT) {
            proof {
                assert(is_normal(seg@)) by {
                    if seg@ == seq![DOT] {
                        assert(seg@[0] == DOT);
                    }
                }
            }
            let ghost before = out.deep_view();
            proof {
                lemma_bytes_deep_view(seg);
            }
            out.push(seg);
            assert(out.deep_view() =~= before.push(seg@));
        } else {
            proof {
                if seg@.len() == 1 {
                    assert(seg@ =~= seq![DOT]);
                }
            }
        }
        if e == len {
            assert(split(p@.subrange(lo as int, len as int), SLASH) =~= done);
            return out;
        }
        assert(split(p@.subrange(lo as int, len as int), SLASH) =~= done + split(
            p@.subrange(e + 1, len as int),
            SLASH,
        ));
        start = e + 1;
    }
}

/// `Path::components` of `p`, each component as its bytes.
pub fn components_of(p: &[u8]) -> (r: Vec<Vec<u8>>)
    ensures
        r.deep_view() == components(p@),
{
    let n = p.len();
    if n > 0 && p[0] == SLASH {
        let rest = normals_from(p, 1);
        let mut r: Vec<Vec<u8>> = Vec::new();
        let first = vec![SLASH];
        proof {
            lemma_bytes_deep_view(first);
            assert(first@ =~= seq![SLASH]);
        }
        r.push(first);
        let ghost rv = rest.deep_view();
        let mut rest = rest;
        r.append(&mut rest);
        assert(r.deep_view() =~= seq![seq![SLASH]] + rv);
        assert(p@.skip(1) =~= p@.subrange(1, n as int));
        assert(r.deep_view() =~= components(p@));
        r
    } else if n > 0 && p[0] == DOT && (n == 1 || p[1] == SLASH) {
        let rest = normals_from(p, 1);
        let mut r: Vec<Vec<u8>> = Vec::new();
        let first = vec![DOT];
        proof {
            lemma_bytes_deep_view(first);
            assert(first@ =~= seq![DOT]);
        }
        r.push(first);
        let ghost rv = rest.deep_view();
        let mut rest = rest;
        r.append(&mut rest);
        assert(r.deep_view() =~= seq![seq![DOT]] + rv);
        assert(p@.skip(1) =~= p@.subrange(1, n as int));
        assert(r.deep_view() =~= components(p@));
        r
    } else {
        let r = normals_from(p, 0);
        assert(p@ =~= p@.subrange(0, n as int));
        r
    }
}

/// Whether two byte strings are equal.
pub fn bytes_eq(a: &[u8], b: &[u8]) -> (r: bool)
    ensures
        r == (a@ == b@),
{
    if a.len() != b.len() {
        return false;
    }
    let mut i: usize = 0;
    while i < a.len()
        invariant
            i <= a@.len(),
            a@.len() == b@.len(),
            forall|j: int| 0 <= j < i ==> a@[j] == b@[j],
        decreases a@.len() - i,
    {
        if a[i] != b[i] {
            return false;
        }
        i += 1;
    }
    assert(a@ =~= b@);
    true
}

/// Whether `a` and `b` name the same path, as `Path`'s `==` decides it.
pub fn same_path(a: &[u8], b: &[u8]) -> (r: bool)
    ensures
        r == same_path_spec(a@, b@),
{
    let ca = components_of(a);
    let cb = components_of(b);
    if ca.len() != cb.len() {
        assert(ca.deep_view().len() != cb.deep_view().len());
        return false;
    }
    let mut i: usize = 0;
    while i < ca.len()
        invariant
            i <= ca.len(),
            ca.len() == cb.len(),
            ca.deep_view() == components(a@),
            cb.deep_view() == components(b@),
            forall|j: int| 0 <= j < i ==> ca.deep_view()[j] == cb.deep_view()[j],
        decreases ca.len() - i,
    {
        proof {
            lemma_bytes_deep_view(ca@[i as int]);
            lemma_bytes_deep_view(cb@[i as int]);
        }
        if !bytes_eq(ca[i].as_slice(), cb[i].as_slice()) {
            assert(ca.deep_view()[i as int] != cb.deep_view()[i as int]);
            return false;
        }
        i += 1;
    }
    assert(ca.deep_view() =~= cb.deep_view());
    true
}

} // verus!
