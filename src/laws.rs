use vstd::prelude::*;
use crate::graph::{sorted, unique_keys, NodeRef};
use crate::order::{bytes_lt, key_le, lemma_bytes_lt_irreflexive};
use crate::render::{
    block_lines, body_lines, dedup, diagram_lines, edge_line, incoming, join_lines, label, opening,
    predecessor, Direction,
};

verus! {

broadcast use vstd::seq_lib::group_to_multiset_ensures;

proof fn lemma_block_line_drawn(s: Seq<(NodeRef, Seq<NodeRef>)>, n: nat, i: int, k: int)
    requires
        0 <= i < n <= s.len(),
        0 <= k < block_lines(s, i).len(),
    ensures
        body_lines(s, n).contains(block_lines(s, i)[k]),
    decreases n,
{
    let prev = body_lines(s, (n - 1) as nat);
    let block = block_lines(s, n - 1);
    assert(body_lines(s, n) == prev + block);
    if i < n - 1 {
        lemma_block_line_drawn(s, (n - 1) as nat, i, k);
        let t = choose|t: int| 0 <= t < prev.len() && prev[t] == block_lines(s, i)[k];
        assert((prev + block)[t] == block_lines(s, i)[k]);
    } else {
        assert((prev + block)[prev.len() + k] == block[k]);
    }
}

/// Every line drawn for the migration at position `i` is a line of the diagram.
proof fn lemma_diagram_has_block_line(
    s: Seq<(NodeRef, Seq<NodeRef>)>,
    dir: Direction,
    i: int,
    k: int,
)
    requires
        0 <= i < s.len(),
        0 <= k < block_lines(s, i).len(),
    ensures
        diagram_lines(s, dir).contains(block_lines(s, i)[k]),
{
    lemma_block_line_drawn(s, s.len(), i, k);
    let body = body_lines(s, s.len());
    let t = choose|t: int| 0 <= t < body.len() && body[t] == block_lines(s, i)[k];
    let head = seq![crate::render::fence_open(), crate::render::flowchart_line(dir)];
    let tail = seq![crate::render::end_line(), crate::render::fence_close()];
    assert(diagram_lines(s, dir) == head + body + tail);
    assert((head + body + tail)[2 + t] == block_lines(s, i)[k]);
}

/// Every migration that goes into the assembly is drawn as a node of the
/// diagram, and every migration of the assembly is one that went in: the
/// assembly holds the same migrations as its input, the diagram of an
/// ordering draws each of its migrations, and the line at each node position
/// is the node line of a migration of the input.
pub proof fn lemma_every_migration_drawn(
    input: Seq<(NodeRef, Seq<NodeRef>)>,
    ordered: Seq<(NodeRef, Seq<NodeRef>)>,
    dir: Direction,
)
    requires
        ordered.to_multiset() == input.to_multiset(),
    ensures
        forall|m: (NodeRef, Seq<NodeRef>)| #[trigger]
            input.contains(m) ==> diagram_lines(ordered, dir).contains(label(m.0)),
        forall|m: (NodeRef, Seq<NodeRef>)| #[trigger] ordered.contains(m) ==> input.contains(m),
        forall|k: int|
            0 <= k < ordered.len() ==> #[trigger] diagram_lines(ordered, dir)[node_position(
                ordered,
                k,
            )] == label(ordered[k].0) && input.contains(ordered[k]),
{
    assert forall|m: (NodeRef, Seq<NodeRef>)| #[trigger]
        input.contains(m) implies diagram_lines(ordered, dir).contains(label(m.0)) by {
        assert(ordered.to_multiset().count(m) > 0);
        let i = choose|i: int| 0 <= i < ordered.len() && ordered[i] == m;
        let k = opening(ordered, i).len() as int;
        assert(block_lines(ordered, i)[k] == label(m.0));
        lemma_diagram_has_block_line(ordered, dir, i, k);
    }
    assert forall|m: (NodeRef, Seq<NodeRef>)| #[trigger] ordered.contains(m) implies input.contains(
        m,
    ) by {
        assert(input.to_multiset().count(m) > 0);
    }
    assert forall|k: int| 0 <= k < ordered.len() implies #[trigger] diagram_lines(
        ordered,
        dir,
    )[node_position(ordered, k)] == label(ordered[k].0) && input.contains(ordered[k]) by {
        lemma_node_line(ordered, dir, k);
        assert(ordered.contains(ordered[k]));
    }
}

/// Within one app, an ordering of migrations with distinct names lists them
/// in strictly increasing order of name.
pub proof fn lemma_names_strictly_ordered_within_app(s: Seq<(NodeRef, Seq<NodeRef>)>)
    requires
        sorted(s),
        unique_keys(s),
    ensures
        forall|i: int, j: int|
            0 <= i < j < s.len() && #[trigger] s[i].0.0 == #[trigger] s[j].0.0 ==> bytes_lt(
                s[i].0.1,
                s[j].0.1,
            ),
{
    assert forall|i: int, j: int|
        0 <= i < j < s.len() && #[trigger] s[i].0.0 == #[trigger] s[j].0.0 implies bytes_lt(
        s[i].0.1,
        s[j].0.1,
    ) by {
        assert(key_le(s[i].0, s[j].0));
        assert(s[i].0 != s[j].0);
        lemma_bytes_lt_irreflexive(s[i].0.0);
    }
}

proof fn lemma_dedup_contains(d: Seq<NodeRef>)
    ensures
        forall|x: NodeRef| #[trigger] dedup(d).contains(x) <==> d.contains(x),
        dedup(d).no_duplicates(),
    decreases d.len(),
{
    if d.len() > 0 {
        let init = d.drop_last();
        lemma_dedup_contains(init);
        assert(d =~= init.push(d.last()));
        assert forall|x: NodeRef| #[trigger] dedup(d).contains(x) <==> d.contains(x) by {
            if d.contains(x) && x != d.last() {
                let k = choose|k: int| 0 <= k < d.len() && d[k] == x;
                assert(init[k] == x);
            }
            if init.contains(x) {
                let k = choose|k: int| 0 <= k < init.len() && init[k] == x;
                assert(d[k] == x);
            }
            if !init.contains(d.last()) {
                let r = dedup(init);
                if r.push(d.last()).contains(x) && x != d.last() {
                    let k = choose|k: int| 0 <= k < r.push(d.last()).len() && r.push(d.last())[k] == x;
                    assert(r[k] == x);
                }
                if x == d.last() {
                    assert(r.push(d.last())[r.len() as int] == x);
                }
                if r.contains(x) {
                    let k = choose|k: int| 0 <= k < r.len() && r[k] == x;
                    assert(r.push(d.last())[k] == x);
                }
            }
        }
        if !init.contains(d.last()) {
            let r = dedup(init);
            assert(!r.contains(d.last()));
            assert forall|a: int, b: int|
                0 <= a < b < r.push(d.last()).len() implies r.push(d.last())[a] != r.push(
                d.last(),
            )[b] by {
                if b == r.len() {
                    if r[a] == d.last() {
                        assert(r.contains(d.last()));
                    }
                }
            }
        }
    }
}

/// No edge into a migration is drawn twice: the sources of the edges into
/// each migration are distinct.
pub proof fn lemma_incoming_distinct(s: Seq<(NodeRef, Seq<NodeRef>)>, i: int)
    requires
        0 <= i < s.len(),
    ensures
        incoming(s, i).no_duplicates(),
{
    let d = s[i].1;
    let r = dedup(d);
    lemma_dedup_contains(d);
    match predecessor(s, i) {
        Some(p) => {
            if d.contains(p) {
                assert(incoming(s, i) =~= r);
            } else {
                assert(incoming(s, i) =~= seq![p] + r);
                assert forall|a: int, b: int|
                    0 <= a < b < (seq![p] + r).len() implies (seq![p] + r)[a] != (seq![p]
                    + r)[b] by {
                    if a == 0 {
                        assert((seq![p] + r)[b] == r[b - 1]);
                        assert(!r.contains(p));
                        if r[b - 1] == p {
                            assert(r.contains(p));
                        }
                    } else {
                        assert((seq![p] + r)[a] == r[a - 1]);
                        assert((seq![p] + r)[b] == r[b - 1]);
                    }
                }
            }
        },
        None => {
            assert(incoming(s, i) =~= r);
        },
    }
}

/// Where two migrations of one app stand next to each other, the diagram has
/// the line `<app>.<earlier> --> <app>.<later>`, and it is drawn once among
/// the edges into the later one.
pub proof fn lemma_chain_edge_drawn(s: Seq<(NodeRef, Seq<NodeRef>)>, i: int, dir: Direction)
    requires
        0 < i < s.len(),
        s[i - 1].0.0 == s[i].0.0,
    ensures
        diagram_lines(s, dir).contains(edge_line(s[i - 1].0, s[i].0)),
        incoming(s, i).no_duplicates(),
{
    lemma_chain_edge_once(s, i);
    let into = incoming(s, i);
    let e = choose|e: int| 0 <= e < into.len() && into[e] == s[i - 1].0;
    let head = opening(s, i) + seq![label(s[i].0)];
    let edges = crate::render::edge_lines(into, s[i].0);
    assert(block_lines(s, i) == head + edges);
    assert(edges[e] == edge_line(s[i - 1].0, s[i].0));
    assert(block_lines(s, i)[head.len() + e] == edge_line(s[i - 1].0, s[i].0));
    lemma_diagram_has_block_line(s, dir, i, head.len() + e);
}

/// Where two migrations of one app stand next to each other, the later one
/// has exactly one edge from the earlier: the chain edge, or the declared
/// edge that stands in for it.
pub proof fn lemma_chain_edge_once(s: Seq<(NodeRef, Seq<NodeRef>)>, i: int)
    requires
        0 < i < s.len(),
        s[i - 1].0.0 == s[i].0.0,
    ensures
        incoming(s, i).contains(s[i - 1].0),
        incoming(s, i).no_duplicates(),
{
    let p = s[i - 1].0;
    let d = s[i].1;
    lemma_dedup_contains(d);
    lemma_incoming_distinct(s, i);
    assert(predecessor(s, i) == Some(p));
    if d.contains(p) {
        assert(incoming(s, i) =~= dedup(d));
    } else {
        assert(incoming(s, i) =~= seq![p] + dedup(d));
        assert((seq![p] + dedup(d))[0] == p);
    }
}

} // verus!

verus! {

proof fn lemma_key_antisymmetric(x: NodeRef, y: NodeRef)
    requires
        key_le(x, y),
        key_le(y, x),
    ensures
        x == y,
{
    if x != y {
        crate::order::lemma_key_lt_le(x, y, x);
        crate::order::lemma_key_lt_irreflexive(x);
    }
}

/// Two orderings of the same migrations, each sorted by app and name, with no
/// app and name found twice, are one and the same; so the diagram of a run
/// does not depend on the order in which its migrations were found, and two
/// runs over an unchanged tree draw byte-identical diagrams.
pub proof fn lemma_ordering_unique(
    first: Seq<(NodeRef, Seq<NodeRef>)>,
    second: Seq<(NodeRef, Seq<NodeRef>)>,
    dir: Direction,
)
    requires
        sorted(first),
        sorted(second),
        unique_keys(first),
        first.to_multiset() == second.to_multiset(),
    ensures
        first == second,
        join_lines(diagram_lines(first, dir)) == join_lines(diagram_lines(second, dir)),
    decreases first.len(),
{
    broadcast use vstd::multiset::group_multiset_axioms;

    if first.len() == 0 {
        vstd::seq_lib::to_multiset_len(second);
        assert(first =~= second);
    } else {
        vstd::seq_lib::to_multiset_len(first);
        vstd::seq_lib::to_multiset_len(second);
        assert(second.len() == first.len());
        assert(first.to_multiset().contains(second[0]));
        assert(second.to_multiset().contains(first[0]));
        let i = choose|i: int| 0 <= i < first.len() && first[i] == second[0];
        let j = choose|j: int| 0 <= j < second.len() && second[j] == first[0];
        if i > 0 {
            assert(key_le(first[0].0, first[i].0));
        }
        if j > 0 {
            assert(key_le(second[0].0, second[j].0));
        }
        lemma_key_antisymmetric(first[0].0, second[0].0);
        if i > 0 {
            assert(first[0].0 != first[i].0);
        }
        assert(first[0] == second[0]);
        let a = first.drop_first();
        let b = second.drop_first();
        vstd::seq_lib::to_multiset_remove(first, 0);
        vstd::seq_lib::to_multiset_remove(second, 0);
        assert(first.remove(0) =~= a);
        assert(second.remove(0) =~= b);
        assert(sorted(a)) by {
            assert forall|p: int, q: int| 0 <= p < q < a.len() implies key_le(
                #[trigger] a[p].0,
                #[trigger] a[q].0,
            ) by {
                assert(key_le(first[p + 1].0, first[q + 1].0));
            }
        }
        assert(sorted(b)) by {
            assert forall|p: int, q: int| 0 <= p < q < b.len() implies key_le(
                #[trigger] b[p].0,
                #[trigger] b[q].0,
            ) by {
                assert(key_le(second[p + 1].0, second[q + 1].0));
            }
        }
        assert(unique_keys(a)) by {
            assert forall|p: int, q: int| 0 <= p < q < a.len() implies #[trigger] a[p].0
                != #[trigger] a[q].0 by {
                assert(first[p + 1].0 != first[q + 1].0);
            }
        }
        lemma_ordering_unique(a, b, dir);
        assert(first =~= second) by {
            assert forall|k: int| 0 <= k < first.len() implies first[k] == second[k] by {
                if k > 0 {
                    assert(a[k - 1] == b[k - 1]);
                }
            }
        }
    }
}

} // verus!

verus! {

/// The index among the diagram's lines of the node line of the migration at
/// position `i`.
pub open spec fn node_position(s: Seq<(NodeRef, Seq<NodeRef>)>, i: int) -> int {
    (2 + body_lines(s, i as nat).len() + opening(s, i).len()) as int
}

proof fn lemma_body_prefix(s: Seq<(NodeRef, Seq<NodeRef>)>, m: nat, n: nat)
    requires
        m <= n <= s.len(),
    ensures
        body_lines(s, m).len() <= body_lines(s, n).len(),
        body_lines(s, n).subrange(0, body_lines(s, m).len() as int) == body_lines(s, m),
    decreases n,
{
    if m < n {
        lemma_body_prefix(s, m, (n - 1) as nat);
        let prev = body_lines(s, (n - 1) as nat);
        let block = block_lines(s, n - 1);
        assert(body_lines(s, n) == prev + block);
        assert((prev + block).subrange(0, body_lines(s, m).len() as int) =~= prev.subrange(
            0,
            body_lines(s, m).len() as int,
        ));
    } else {
        assert(body_lines(s, n).subrange(0, body_lines(s, n).len() as int) =~= body_lines(s, n));
    }
}

/// The line at the node position of the migration at position `k` is its
/// node line.
pub proof fn lemma_node_line(s: Seq<(NodeRef, Seq<NodeRef>)>, dir: Direction, k: int)
    requires
        0 <= k < s.len(),
    ensures
        0 <= node_position(s, k) < diagram_lines(s, dir).len(),
        diagram_lines(s, dir)[node_position(s, k)] == label(s[k].0),
{
    let head = seq![crate::render::fence_open(), crate::render::flowchart_line(dir)];
    let tail = seq![crate::render::end_line(), crate::render::fence_close()];
    let body = body_lines(s, s.len());
    assert(diagram_lines(s, dir) == head + body + tail);
    let before = body_lines(s, k as nat);
    let upto = body_lines(s, (k + 1) as nat);
    assert(upto == before + block_lines(s, k));
    let o = opening(s, k).len() as int;
    assert(block_lines(s, k)[o] == label(s[k].0));
    assert(upto[before.len() + o] == label(s[k].0));
    lemma_body_prefix(s, (k + 1) as nat, s.len());
    assert(body[before.len() + o] == upto[before.len() + o]);
    assert((head + body + tail)[2 + before.len() + o] == body[before.len() + o]);
}

/// The diagram draws the migrations' node lines in the order of the
/// migrations: the node line of each stands at its node position, and the
/// positions increase along the ordering. With the names of one app in
/// strictly increasing order, each grouping lists its members by name.
pub proof fn lemma_nodes_drawn_in_order(
    s: Seq<(NodeRef, Seq<NodeRef>)>,
    dir: Direction,
    i: int,
    j: int,
)
    requires
        0 <= i < j < s.len(),
    ensures
        diagram_lines(s, dir)[node_position(s, i)] == label(s[i].0),
        diagram_lines(s, dir)[node_position(s, j)] == label(s[j].0),
        node_position(s, i) < node_position(s, j),
{
    lemma_node_line(s, dir, i);
    lemma_node_line(s, dir, j);
    lemma_body_prefix(s, (i + 1) as nat, j as nat);
    let upto_i = body_lines(s, (i + 1) as nat);
    assert(upto_i == body_lines(s, i as nat) + block_lines(s, i));
}

} // verus!
