use vstd::prelude::*;
use crate::text::{
    contains, contains_bytes, copy_range, is_space_byte, is_word_byte, lines, space_byte,
    split_lines, views, word_byte, COMMA, QUOTE,
};

verus! {

/// A reference, from inside a migration's source, to the migration it depends on.
pub struct DependencyTuple {
    pub app: Vec<u8>,
    pub name: Vec<u8>,
}

impl View for DependencyTuple {
    type V = (Seq<u8>, Seq<u8>);

    open spec fn view(&self) -> (Seq<u8>, Seq<u8>) {
        (self.app@, self.name@)
    }
}

pub open spec fn tuple_views(s: Seq<DependencyTuple>) -> Seq<(Seq<u8>, Seq<u8>)> {
    s.map_values(|t: DependencyTuple| t@)
}

pub open spec fn opt_tuple_view(o: Option<DependencyTuple>) -> Option<(Seq<u8>, Seq<u8>)> {
    match o {
        Some(t) => Some(t@),
        None => None,
    }
}

/// The text that opens the dependency list: `dependencies = [`.
pub open spec fn list_opener() -> Seq<u8> {
    seq![100u8, 101, 112, 101, 110, 100, 101, 110, 99, 105, 101, 115, 32, 61, 32, 91]
}

/// The text that closes the dependency list: `]`.
pub open spec fn list_closer() -> Seq<u8> {
    seq![93u8]
}

/// The end of the run of word bytes that starts at `i`.
pub open spec fn word_end(line: Seq<u8>, i: int) -> int
    decreases line.len() - i,
{
    if 0 <= i < line.len() && is_word_byte(line[i]) {
        word_end(line, i + 1)
    } else {
        i
    }
}

/// The tuple `"app", "name"` written at position `i` of `line`, if one is:
/// a quoted word, a comma, one whitespace byte, a quoted word.
pub open spec fn tuple_at(line: Seq<u8>, i: int) -> Option<(Seq<u8>, Seq<u8>)> {
    let a0 = i + 1;
    let a1 = word_end(line, a0);
    let b0 = a1 + 4;
    let b1 = word_end(line, b0);
    if 0 <= i && b1 < line.len() && line[i] == QUOTE && a1 > a0 && line[a1] == QUOTE
        && line[a1 + 1] == COMMA && is_space_byte(line[a1 + 2]) && line[a1 + 3] == QUOTE && b1
        > b0 && line[b1] == QUOTE {
        Some((line.subrange(a0, a1), line.subrange(b0, b1)))
    } else {
        None
    }
}

/// The leftmost tuple of `line` that starts at `i` or later.
pub open spec fn first_tuple(line: Seq<u8>, i: nat) -> Option<(Seq<u8>, Seq<u8>)>
    decreases line.len() - i,
{
    if i >= line.len() {
        None
    } else {
        match tuple_at(line, i as int) {
            Some(t) => Some(t),
            None => first_tuple(line, i + 1),
        }
    }
}

/// The tuples of `ls`, one for each line that holds one, in order.
pub open spec fn tuples_in(ls: Seq<Seq<u8>>) -> Seq<(Seq<u8>, Seq<u8>)>
    decreases ls.len(),
{
    if ls.len() == 0 {
        Seq::empty()
    } else {
        let rest = tuples_in(ls.drop_last());
        match first_tuple(ls.last(), 0) {
            Some(t) => rest.push(t),
            None => rest,
        }
    }
}

/// The index of the first line at or after `from` that contains `needle`,
/// or the number of lines where none does.
pub open spec fn first_with(ls: Seq<Seq<u8>>, needle: Seq<u8>, from: nat) -> nat
    decreases ls.len() - from,
{
    if from >= ls.len() {
        ls.len()
    } else if contains_bytes(ls[from as int], needle) {
        from
    } else {
        first_with(ls, needle, from + 1)
    }
}

/// The lines of the dependency block: from the first line that opens the
/// list through the next line (the same one included) that closes it, or
/// through the last line if none does. Empty where no line opens the list.
pub open spec fn dependency_block(ls: Seq<Seq<u8>>) -> Seq<Seq<u8>> {
    let s = first_with(ls, list_opener(), 0);
    let e = first_with(ls, list_closer(), s);
    if s >= ls.len() {
        Seq::empty()
    } else if e >= ls.len() {
        ls.subrange(s as int, ls.len() as int)
    } else {
        ls.subrange(s as int, e + 1 as int)
    }
}

/// The dependency tuples declared in a migration's source text, in order.
pub open spec fn declared_dependencies(contents: Seq<u8>) -> Seq<(Seq<u8>, Seq<u8>)> {
    tuples_in(dependency_block(split_lines(contents)))
}

fn skip_word(line: &[u8], i: usize) -> (r: usize)
    requires
        i <= line@.len(),
    ensures
        r as int == word_end(line@, i as int),
        i <= r <= line@.len(),
{
    let mut j: usize = i;
    while j < line.len() && word_byte(line[j])
        invariant
            i <= j <= line@.len(),
            word_end(line@, i as int) == word_end(line@, j as int),
        decreases line.len() - j,
    {
        j = j + 1;
    }
    j
}

fn tuple_starting_at(line: &[u8], i: usize) -> (r: Option<DependencyTuple>)
    requires
        i < line@.len(),
    ensures
        opt_tuple_view(r) == tuple_at(line@, i as int),
{
    if line[i] != QUOTE {
        return None;
    }
    let a0 = i + 1;
    let a1 = skip_word(line, a0);
    if a1 == a0 || line.len() - a1 < 5 {
        return None;
    }
    if line[a1] != QUOTE || line[a1 + 1] != COMMA || !space_byte(line[a1 + 2]) || line[a1 + 3]
        != QUOTE {
        return None;
    }
    let b0 = a1 + 4;
    let b1 = skip_word(line, b0);
    if b1 == b0 || b1 >= line.len() || line[b1] != QUOTE {
        return None;
    }
    let app = copy_range(line, a0, a1);
    let name = copy_range(line, b0, b1);
    Some(DependencyTuple { app, name })
}

/// The first tuple `"app", "name"` written on `line`, quotes taken off.
pub fn parse_tuple(line: &[u8]) -> (r: Option<DependencyTuple>)
    ensures
        opt_tuple_view(r) == first_tuple(line@, 0),
{
    let mut i: usize = 0;
    while i < line.len()
        invariant
            i <= line@.len(),
            first_tuple(line@, 0) == first_tuple(line@, i as nat),
        decreases line.len() - i,
    {
        let t = tuple_starting_at(line, i);
        if t.is_some() {
            return t;
        }
        i = i + 1;
    }
    None
}

fn find_line(ls: &Vec<Vec<u8>>, needle: &[u8], from: usize) -> (r: usize)
    requires
        from <= ls@.len(),
    ensures
        r as nat == first_with(views(ls@), needle@, from as nat),
        from <= r <= ls@.len(),
{
    let mut i: usize = from;
    while i < ls.len()
        invariant
            from <= i <= ls@.len(),
            first_with(views(ls@), needle@, from as nat) == first_with(views(ls@), needle@, i as nat),
        decreases ls.len() - i,
    {
        if contains(ls[i].as_slice(), needle) {
            return i;
        }
        i = i + 1;
    }
    i
}

/// The bounds `(start, end)` of the dependency block among `ls`.
pub fn block_bounds(ls: &Vec<Vec<u8>>) -> (r: (usize, usize))
    ensures
        r.0 <= r.1 <= ls@.len(),
        views(ls@).subrange(r.0 as int, r.1 as int) == dependency_block(views(ls@)),
{
    let opener: [u8; 16] = [100, 101, 112, 101, 110, 100, 101, 110, 99, 105, 101, 115, 32, 61, 32, 91];
    let closer: [u8; 1] = [93];
    assert(opener@ =~= list_opener());
    assert(closer@ =~= list_closer());
    let s = find_line(ls, opener.as_slice(), 0);
    if s == ls.len() {
        assert(views(ls@).subrange(s as int, s as int) =~= Seq::<Seq<u8>>::empty());
        return (s, s);
    }
    let e = find_line(ls, closer.as_slice(), s);
    if e == ls.len() {
        (s, e)
    } else {
        (s, e + 1)
    }
}

/// The dependency tuples declared in a migration's source text, in the order
/// they are written. Lines of the block that hold no tuple are passed over.
pub fn extract_dependencies(contents: &[u8]) -> (r: Vec<DependencyTuple>)
    ensures
        tuple_views(r@) == declared_dependencies(contents@),
{
    let ls = lines(contents);
    let (s, e) = block_bounds(&ls);
    let ghost block = views(ls@).subrange(s as int, e as int);
    let mut r: Vec<DependencyTuple> = Vec::new();
    let mut k: usize = s;
    while k < e
        invariant
            s <= k <= e <= ls@.len(),
            block == views(ls@).subrange(s as int, e as int),
            tuple_views(r@) == tuples_in(block.subrange(0, k - s)),
        decreases e - k,
    {
        let t = parse_tuple(ls[k].as_slice());
        let ghost prev = r@;
        assert(block.subrange(0, k + 1 - s).drop_last() =~= block.subrange(0, k - s));
        assert(block.subrange(0, k + 1 - s).last() == ls@[k as int]@);
        match t {
            Some(t) => {
                r.push(t);
                assert(tuple_views(r@) =~= tuple_views(prev).push(r@.last()@));
            },
            None => {},
        }
        k = k + 1;
    }
    assert(block.subrange(0, e - s) =~= block);
    r
}

} // verus!
