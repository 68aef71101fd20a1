use vstd::prelude::*;

verus! {

pub const NEWLINE: u8 = 10;

pub const QUOTE: u8 = 34;

pub const COMMA: u8 = 44;

/// A byte that can appear in a bare-word token: an ASCII letter, digit or underscore.
pub open spec fn is_word_byte(b: u8) -> bool {
    (97 <= b && b <= 122) || (65 <= b && b <= 90) || (48 <= b && b <= 57) || b == 95
}

/// ASCII whitespace: space, tab, line feed, vertical tab, form feed, carriage return.
pub open spec fn is_space_byte(b: u8) -> bool {
    b == 32 || (9 <= b && b <= 13)
}

pub fn word_byte(b: u8) -> (r: bool)
    ensures
        r == is_word_byte(b),
{
    (97 <= b && b <= 122) || (65 <= b && b <= 90) || (48 <= b && b <= 57) || b == 95
}

pub fn space_byte(b: u8) -> (r: bool)
    ensures
        r == is_space_byte(b),
{
    b == 32 || (9 <= b && b <= 13)
}

/// `needle` occurs in `hay` starting at position `i`.
pub open spec fn occurs_at(hay: Seq<u8>, needle: Seq<u8>, i: int) -> bool {
    0 <= i && i + needle.len() <= hay.len() && hay.subrange(i, i + needle.len()) == needle
}

pub open spec fn contains_bytes(hay: Seq<u8>, needle: Seq<u8>) -> bool {
    exists|i: int| occurs_at(hay, needle, i)
}

pub open spec fn ends_with(s: Seq<u8>, suffix: Seq<u8>) -> bool {
    occurs_at(s, suffix, s.len() - suffix.len())
}

pub fn matches_at(hay: &[u8], needle: &[u8], i: usize) -> (r: bool)
    ensures
        r == occurs_at(hay@, needle@, i as int),
{
    if i > hay.len() || needle.len() > hay.len() - i {
        return false;
    }
    let mut j: usize = 0;
    while j < needle.len()
        invariant
            j <= needle.len(),
            i + needle.len() <= hay.len(),
            forall|k: int| 0 <= k < j ==> hay@[i + k] == needle@[k],
        decreases needle.len() - j,
    {
        if hay[i + j] != needle[j] {
            assert(hay@.subrange(i as int, i + needle.len())[j as int] != needle@[j as int]);
            return false;
        }
        j = j + 1;
    }
    assert(hay@.subrange(i as int, i + needle.len()) =~= needle@);
    true
}

pub fn contains(hay: &[u8], needle: &[u8]) -> (r: bool)
    ensures
        r == contains_bytes(hay@, needle@),
{
    let mut i: usize = 0;
    while i < hay.len()
        invariant
            i <= hay.len(),
            forall|k: int| 0 <= k < i ==> !occurs_at(hay@, needle@, k),
        decreases hay.len() - i,
    {
        if matches_at(hay, needle, i) {
            return true;
        }
        i = i + 1;
    }
    let r = matches_at(hay, needle, i);
    assert(r ==> occurs_at(hay@, needle@, i as int));
    assert(!r ==> forall|k: int| !occurs_at(hay@, needle@, k)) by {
        if !r {
            assert forall|k: int| !occurs_at(hay@, needle@, k) by {
                if 0 <= k && k < i {
                }
            }
        }
    }
    r
}

/// The byte contents of each vector of `v`.
pub open spec fn views(v: Seq<Vec<u8>>) -> Seq<Seq<u8>> {
    v.map_values(|x: Vec<u8>| x@)
}

/// The pieces of `s` between newline bytes, in order. A text without a
/// newline is one piece; a trailing newline leaves an empty last piece.
pub open spec fn split_lines(s: Seq<u8>) -> Seq<Seq<u8>>
    decreases s.len(),
{
    if s.len() == 0 {
        seq![Seq::empty()]
    } else {
        let prev = split_lines(s.drop_last());
        if s.last() == NEWLINE {
            prev.push(Seq::empty())
        } else {
            prev.update(prev.len() - 1, prev.last().push(s.last()))
        }
    }
}

pub proof fn lemma_split_lines_nonempty(s: Seq<u8>)
    ensures
        split_lines(s).len() >= 1,
    decreases s.len(),
{
    if s.len() > 0 {
        lemma_split_lines_nonempty(s.drop_last());
    }
}

pub fn lines(s: &[u8]) -> (r: Vec<Vec<u8>>)
    ensures
        views(r@) == split_lines(s@),
{
    let mut done: Vec<Vec<u8>> = Vec::new();
    let mut cur: Vec<u8> = Vec::new();
    let mut i: usize = 0;
    while i < s.len()
        invariant
            i <= s.len(),
            views(done@).push(cur@) == split_lines(s@.subrange(0, i as int)),
        decreases s.len() - i,
    {
        let ghost before = s@.subrange(0, i as int);
        proof {
            assert(s@.subrange(0, i + 1).drop_last() =~= before);
            lemma_split_lines_nonempty(before);
        }
        let ghost old_done = views(done@);
        if s[i] == NEWLINE {
            let ghost piece = cur@;
            done.push(cur);
            cur = Vec::new();
            assert(views(done@) =~= old_done.push(piece));
            assert(views(done@).push(cur@) =~= split_lines(before).push(Seq::empty()));
        } else {
            cur.push(s[i]);
            assert(views(done@).push(cur@) =~= split_lines(before).update(
                split_lines(before).len() - 1,
                split_lines(before).last().push(s@[i as int]),
            ));
        }
        i = i + 1;
    }
    assert(s@.subrange(0, s@.len() as int) =~= s@);
    let ghost old_done = views(done@);
    let ghost last = cur@;
    done.push(cur);
    assert(views(done@) =~= old_done.push(last));
    done
}

} // verus!

verus! {

pub fn copy_range(s: &[u8], a: usize, b: usize) -> (r: Vec<u8>)
    requires
        a <= b <= s@.len(),
    ensures
        r@ == s@.subrange(a as int, b as int),
{
    let mut r: Vec<u8> = Vec::new();
    let mut i: usize = a;
    while i < b
        invariant
            a <= i <= b <= s@.len(),
            r@ == s@.subrange(a as int, i as int),
        decreases b - i,
    {
        r.push(s[i]);
        assert(r@ =~= s@.subrange(a as int, i + 1));
        i = i + 1;
    }
    r
}

pub fn append_bytes(out: &mut Vec<u8>, s: &[u8])
    ensures
        final(out)@ == old(out)@ + s@,
{
    let ghost start = out@;
    let mut i: usize = 0;
    while i < s.len()
        invariant
            i <= s@.len(),
            out@ == start + s@.subrange(0, i as int),
        decreases s.len() - i,
    {
        out.push(s[i]);
        assert(out@ =~= start + s@.subrange(0, i + 1));
        i = i + 1;
    }
    assert(s@.subrange(0, i as int) =~= s@);
}

} // verus!

verus! {

pub fn same_bytes(a: &[u8], b: &[u8]) -> (r: bool)
    ensures
        r == (a@ == b@),
{
    if a.len() != b.len() {
        return false;
    }
    let r = matches_at(a, b, 0);
    assert(a@.subrange(0, b@.len() as int) =~= a@);
    r
}

} // verus!
