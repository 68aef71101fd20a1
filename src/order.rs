use vstd::prelude::*;

verus! {

/// Lexicographic order on byte strings, bytes compared as unsigned numbers; a
/// proper prefix comes first.
pub open spec fn bytes_lt(a: Seq<u8>, b: Seq<u8>) -> bool
    decreases a.len(),
{
    if b.len() == 0 {
        false
    } else if a.len() == 0 {
        true
    } else if a[0] != b[0] {
        a[0] < b[0]
    } else {
        bytes_lt(a.drop_first(), b.drop_first())
    }
}

pub proof fn lemma_bytes_lt_irreflexive(a: Seq<u8>)
    ensures
        !bytes_lt(a, a),
    decreases a.len(),
{
    if a.len() > 0 {
        lemma_bytes_lt_irreflexive(a.drop_first());
    }
}

pub proof fn lemma_bytes_lt_transitive(a: Seq<u8>, b: Seq<u8>, c: Seq<u8>)
    requires
        bytes_lt(a, b),
        bytes_lt(b, c),
    ensures
        bytes_lt(a, c),
    decreases a.len(),
{
    if a.len() > 0 && a[0] == b[0] && b[0] == c[0] {
        lemma_bytes_lt_transitive(a.drop_first(), b.drop_first(), c.drop_first());
    }
}

pub proof fn lemma_bytes_lt_total(a: Seq<u8>, b: Seq<u8>)
    ensures
        a == b || bytes_lt(a, b) || bytes_lt(b, a),
    decreases a.len(),
{
    if a.len() == 0 && b.len() == 0 {
        assert(a =~= b);
    } else if a.len() > 0 && b.len() > 0 && a[0] == b[0] {
        lemma_bytes_lt_total(a.drop_first(), b.drop_first());
        if a.drop_first() == b.drop_first() {
            assert(a =~= seq![a[0]] + a.drop_first());
            assert(b =~= seq![b[0]] + b.drop_first());
        }
    }
}

pub proof fn lemma_bytes_lt_asymmetric(a: Seq<u8>, b: Seq<u8>)
    requires
        bytes_lt(a, b),
    ensures
        !bytes_lt(b, a),
{
    if bytes_lt(b, a) {
        lemma_bytes_lt_transitive(a, b, a);
        lemma_bytes_lt_irreflexive(a);
    }
}

/// The order of migrations: by app, then by name.
pub open spec fn key_lt(x: (Seq<u8>, Seq<u8>), y: (Seq<u8>, Seq<u8>)) -> bool {
    bytes_lt(x.0, y.0) || (x.0 == y.0 && bytes_lt(x.1, y.1))
}

pub open spec fn key_le(x: (Seq<u8>, Seq<u8>), y: (Seq<u8>, Seq<u8>)) -> bool {
    key_lt(x, y) || x == y
}

pub proof fn lemma_key_total(x: (Seq<u8>, Seq<u8>), y: (Seq<u8>, Seq<u8>))
    ensures
        key_lt(x, y) || key_le(y, x),
{
    lemma_bytes_lt_total(x.0, y.0);
    lemma_bytes_lt_total(x.1, y.1);
}

pub proof fn lemma_key_lt_le(x: (Seq<u8>, Seq<u8>), y: (Seq<u8>, Seq<u8>), z: (Seq<u8>, Seq<u8>))
    requires
        key_lt(x, y),
        key_le(y, z),
    ensures
        key_lt(x, z),
{
    if y != z {
        if bytes_lt(x.0, y.0) && bytes_lt(y.0, z.0) {
            lemma_bytes_lt_transitive(x.0, y.0, z.0);
        }
        if x.0 == y.0 && y.0 == z.0 && bytes_lt(x.1, y.1) && bytes_lt(y.1, z.1) {
            lemma_bytes_lt_transitive(x.1, y.1, z.1);
        }
    }
}

pub proof fn lemma_key_lt_irreflexive(x: (Seq<u8>, Seq<u8>))
    ensures
        !key_lt(x, x),
{
    lemma_bytes_lt_irreflexive(x.0);
    lemma_bytes_lt_irreflexive(x.1);
}

pub fn less_bytes(a: &[u8], b: &[u8]) -> (r: bool)
    ensures
        r == bytes_lt(a@, b@),
{
    let mut i: usize = 0;
    assert(a@.subrange(0, a@.len() as int) =~= a@);
    assert(b@.subrange(0, b@.len() as int) =~= b@);
    while i < a.len() && i < b.len() && a[i] == b[i]
        invariant
            i <= a@.len(),
            i <= b@.len(),
            bytes_lt(a@, b@) == bytes_lt(a@.subrange(i as int, a@.len() as int), b@.subrange(
                i as int,
                b@.len() as int,
            )),
        decreases a.len() - i,
    {
        let ghost sa = a@.subrange(i as int, a@.len() as int);
        let ghost sb = b@.subrange(i as int, b@.len() as int);
        assert(sa.drop_first() =~= a@.subrange(i + 1, a@.len() as int));
        assert(sb.drop_first() =~= b@.subrange(i + 1, b@.len() as int));
        i = i + 1;
    }
    if i == b.len() {
        false
    } else if i == a.len() {
        true
    } else {
        a[i] < b[i]
    }
}

} // verus!
