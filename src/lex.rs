use vstd::prelude::*;
use vstd::string::*;
use vstd::utf8::*;
use core::cmp::Ordering;

verus! {

/// Lexicographic order on byte strings: a proper prefix comes first.
pub open spec fn bytes_lt(a: Seq<u8>, b: Seq<u8>) -> bool
    decreases a.len(),
{
    if a.len() == 0 {
        b.len() > 0
    } else if b.len() == 0 {
        false
    } else if a[0] != b[0] {
        a[0] < b[0]
    } else {
        bytes_lt(a.drop_first(), b.drop_first())
    }
}

/// The order in which paths are listed: that of their UTF-8 encodings, which is the
/// order of `str`'s `Ord`.
pub open spec fn path_lt(a: Seq<char>, b: Seq<char>) -> bool {
    bytes_lt(encode_utf8(a), encode_utf8(b))
}

/// Strictly increasing under `path_lt`, hence without repeats.
pub open spec fn strictly_sorted(s: Seq<Seq<char>>) -> bool {
    forall|i: int, j: int| 0 <= i < j < s.len() ==> path_lt(#[trigger] s[i], #[trigger] s[j])
}

pub proof fn lemma_bytes_lt_irreflexive(a: Seq<u8>)
    ensures
        !bytes_lt(a, a),
    decreases a.len(),
{
    if a.len() > 0 {
        lemma_bytes_lt_irreflexive(a.drop_first());
    }
}

pub proof fn lemma_bytes_lt_transitive(a: Seq<u8>, b: Seq<u8>, c: Seq<u8>)
    requires
        bytes_lt(a, b),
        bytes_lt(b, c),
    ensures
        bytes_lt(a, c),
    decreases a.len(),
{
    if a.len() > 0 && b.len() > 0 && c.len() > 0 {
        if a[0] == b[0] && b[0] == c[0] {
            lemma_bytes_lt_transitive(a.drop_first(), b.drop_first(), c.drop_first());
        }
    }
}

pub proof fn lemma_bytes_lt_asymmetric(a: Seq<u8>, b: Seq<u8>)
    requires
        bytes_lt(a, b),
    ensures
        !bytes_lt(b, a),
{
    if bytes_lt(b, a) {
        lemma_bytes_lt_transitive(a, b, a);
        lemma_bytes_lt_irreflexive(a);
    }
}

pub proof fn lemma_path_lt_irreflexive(a: Seq<char>)
    ensures
        !path_lt(a, a),
{
    lemma_bytes_lt_irreflexive(encode_utf8(a));
}

pub proof fn lemma_path_lt_transitive(a: Seq<char>, b: Seq<char>, c: Seq<char>)
    requires
        path_lt(a, b),
        path_lt(b, c),
    ensures
        path_lt(a, c),
{
    lemma_bytes_lt_transitive(encode_utf8(a), encode_utf8(b), encode_utf8(c));
}

/// Three-way comparison of two paths in listing order.
pub fn compare_paths(a: &str, b: &str) -> (r: Ordering)
    ensures
        (r == Ordering::Less) == path_lt(a@, b@),
        (r == Ordering::Equal) == (a@ == b@),
        (r == Ordering::Greater) == path_lt(b@, a@),
{
    let x = a.as_bytes();
    let y = b.as_bytes();
    let ghost ea = encode_utf8(a@);
    let ghost eb = encode_utf8(b@);
    assert(x@ == ea);
    assert(y@ == eb);
    let n = x.len();
    let m = y.len();
    assert(ea.subrange(0, n as int) =~= ea);
    assert(eb.subrange(0, m as int) =~= eb);
    let mut i: usize = 0;
    while i < n && i < m && x[i] == y[i]
        invariant
            x@ == ea,
            y@ == eb,
            n == ea.len(),
            m == eb.len(),
            i <= n,
            i <= m,
            ea.subrange(0, i as int) == eb.subrange(0, i as int),
            bytes_lt(ea, eb) == bytes_lt(ea.subrange(i as int, n as int), eb.subrange(i as int, m as int)),
            bytes_lt(eb, ea) == bytes_lt(eb.subrange(i as int, m as int), ea.subrange(i as int, n as int)),
        decreases n - i,
    {
        let ghost ra = ea.subrange(i as int, n as int);
        let ghost rb = eb.subrange(i as int, m as int);
        assert(ra.drop_first() =~= ea.subrange(i + 1, n as int));
        assert(rb.drop_first() =~= eb.subrange(i + 1, m as int));
        assert(ea.subrange(0, i + 1) =~= ea.subrange(0, i as int).push(x@[i as int]));
        assert(eb.subrange(0, i + 1) =~= eb.subrange(0, i as int).push(y@[i as int]));
        i = i + 1;
    }
    let ghost ra = ea.subrange(i as int, n as int);
    let ghost rb = eb.subrange(i as int, m as int);
    let r = if i == n && i == m {
        assert(ea =~= ea.subrange(0, i as int));
        assert(eb =~= eb.subrange(0, i as int));
        Ordering::Equal
    } else if i == n {
        Ordering::Less
    } else if i == m {
        Ordering::Greater
    } else {
        assert(ra[0] == x@[i as int]);
        assert(rb[0] == y@[i as int]);
        if x[i] < y[i] {
            Ordering::Less
        } else {
            Ordering::Greater
        }
    };
    proof {
        encode_utf8_decode_utf8(a@);
        encode_utf8_decode_utf8(b@);
        lemma_bytes_lt_irreflexive(ea);
        if r == Ordering::Less {
            lemma_bytes_lt_asymmetric(ea, eb);
        } else if r == Ordering::Greater {
            lemma_bytes_lt_asymmetric(eb, ea);
        }
    }
    r
}


/// Whether two strings hold the same characters.
pub fn paths_equal(a: &str, b: &str) -> (r: bool)
    ensures
        r == (a@ == b@),
{
    match compare_paths(a, b) {
        Ordering::Equal => true,
        _ => false,
    }
}

} // verus!
