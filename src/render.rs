use vstd::prelude::*;
use crate::extract::{tuple_views, DependencyTuple};
use crate::graph::{migration_views, Graph, Migration, NodeRef};
use crate::text::{append_bytes, same_bytes, NEWLINE};

verus! {

/// The direction in which the flowchart is laid out.
pub enum Direction {
    TopBottom,
    LeftRight,
}

/// "```mermaid"
pub open spec fn fence_open() -> Seq<u8> {
    seq![96u8, 96, 96, 109, 101, 114, 109, 97, 105, 100]
}

/// "```"
pub open spec fn fence_close() -> Seq<u8> {
    seq![96u8, 96, 96]
}

/// "flowchart TB" or "flowchart LR"
pub open spec fn flowchart_line(dir: Direction) -> Seq<u8> {
    seq![102u8, 108, 111, 119, 99, 104, 97, 114, 116, 32] + match dir {
        Direction::TopBottom => seq![84u8, 66],
        Direction::LeftRight => seq![76u8, 82],
    }
}

/// "subgraph <app>"
pub open spec fn subgraph_line(app: Seq<u8>) -> Seq<u8> {
    seq![115u8, 117, 98, 103, 114, 97, 112, 104, 32] + app
}

/// "end"
pub open spec fn end_line() -> Seq<u8> {
    seq![101u8, 110, 100]
}

/// "<app>.<name>"
pub open spec fn label(n: NodeRef) -> Seq<u8> {
    n.0 + seq![46u8] + n.1
}

/// " --> "
pub open spec fn arrow() -> Seq<u8> {
    seq![32u8, 45, 45, 62, 32]
}

/// "<from> --> <to>"
pub open spec fn edge_line(from: NodeRef, to: NodeRef) -> Seq<u8> {
    label(from) + arrow() + label(to)
}

/// `d` with every element after its first occurrence left out.
pub open spec fn dedup(d: Seq<NodeRef>) -> Seq<NodeRef>
    decreases d.len(),
{
    if d.len() == 0 {
        Seq::empty()
    } else {
        let r = dedup(d.drop_last());
        if d.drop_last().contains(d.last()) {
            r
        } else {
            r.push(d.last())
        }
    }
}

/// The migration just before position `i` in the same app, if there is one.
pub open spec fn predecessor(s: Seq<(NodeRef, Seq<NodeRef>)>, i: int) -> Option<NodeRef> {
    if 0 < i < s.len() && s[i - 1].0.0 == s[i].0.0 {
        Some(s[i - 1].0)
    } else {
        None
    }
}

/// The sources of the edges into the migration at position `i`, in the order
/// they are drawn: the chain edge from its predecessor, unless it is declared
/// too, then each declared dependency once.
pub open spec fn incoming(s: Seq<(NodeRef, Seq<NodeRef>)>, i: int) -> Seq<NodeRef> {
    let chain = match predecessor(s, i) {
        Some(p) => if s[i].1.contains(p) {
            Seq::empty()
        } else {
            seq![p]
        },
        None => Seq::empty(),
    };
    chain + dedup(s[i].1)
}

/// The lines that open the grouping of the migration at position `i`, where
/// it is the first of its app.
pub open spec fn opening(s: Seq<(NodeRef, Seq<NodeRef>)>, i: int) -> Seq<Seq<u8>> {
    if i == 0 {
        seq![subgraph_line(s[i].0.0)]
    } else if s[i - 1].0.0 != s[i].0.0 {
        seq![end_line(), subgraph_line(s[i].0.0)]
    } else {
        Seq::empty()
    }
}

pub open spec fn edge_lines(froms: Seq<NodeRef>, to: NodeRef) -> Seq<Seq<u8>> {
    froms.map_values(|f: NodeRef| edge_line(f, to))
}

/// The lines drawn for the migration at position `i`.
pub open spec fn block_lines(s: Seq<(NodeRef, Seq<NodeRef>)>, i: int) -> Seq<Seq<u8>> {
    opening(s, i) + seq![label(s[i].0)] + edge_lines(incoming(s, i), s[i].0)
}

/// The lines drawn for the first `n` migrations.
pub open spec fn body_lines(s: Seq<(NodeRef, Seq<NodeRef>)>, n: nat) -> Seq<Seq<u8>>
    decreases n,
{
    if n == 0 {
        Seq::empty()
    } else {
        body_lines(s, (n - 1) as nat) + block_lines(s, n - 1)
    }
}

/// The lines of the diagram of the ordered migrations `s`; none where `s` is
/// empty.
pub open spec fn diagram_lines(s: Seq<(NodeRef, Seq<NodeRef>)>, dir: Direction) -> Seq<Seq<u8>> {
    if s.len() == 0 {
        Seq::empty()
    } else {
        seq![fence_open(), flowchart_line(dir)] + body_lines(s, s.len()) + seq![
            end_line(),
            fence_close(),
        ]
    }
}

/// Each line followed by a newline.
pub open spec fn join_lines(ls: Seq<Seq<u8>>) -> Seq<u8>
    decreases ls.len(),
{
    if ls.len() == 0 {
        Seq::empty()
    } else {
        join_lines(ls.drop_last()) + ls.last().push(NEWLINE)
    }
}

pub proof fn lemma_join_push(ls: Seq<Seq<u8>>, l: Seq<u8>)
    ensures
        join_lines(ls.push(l)) == join_lines(ls) + l.push(NEWLINE),
{
    assert(ls.push(l).drop_last() =~= ls);
}

pub proof fn lemma_join_append(a: Seq<Seq<u8>>, b: Seq<Seq<u8>>)
    ensures
        join_lines(a + b) == join_lines(a) + join_lines(b),
    decreases b.len(),
{
    if b.len() == 0 {
        assert(a + b =~= a);
        assert(join_lines(a) + join_lines(b) =~= join_lines(a));
    } else {
        assert((a + b).drop_last() =~= a + b.drop_last());
        lemma_join_append(a, b.drop_last());
        assert(join_lines(a + b) =~= join_lines(a) + join_lines(b));
    }
}

fn emit(out: &mut Vec<u8>, line: &[u8])
    ensures
        final(out)@ == old(out)@ + line@.push(NEWLINE),
{
    append_bytes(out, line);
    out.push(NEWLINE);
    assert(out@ =~= old(out)@ + line@.push(NEWLINE));
}

fn label_bytes(app: &[u8], name: &[u8]) -> (r: Vec<u8>)
    ensures
        r@ == label((app@, name@)),
{
    let mut r: Vec<u8> = Vec::new();
    append_bytes(&mut r, app);
    r.push(46);
    append_bytes(&mut r, name);
    assert(r@ =~= label((app@, name@)));
    r
}

fn edge_bytes(from_app: &[u8], from_name: &[u8], to_app: &[u8], to_name: &[u8]) -> (r: Vec<u8>)
    ensures
        r@ == edge_line((from_app@, from_name@), (to_app@, to_name@)),
{
    let arrow_bytes: [u8; 5] = [32, 45, 45, 62, 32];
    let mut r = label_bytes(from_app, from_name);
    append_bytes(&mut r, arrow_bytes.as_slice());
    let to = label_bytes(to_app, to_name);
    append_bytes(&mut r, to.as_slice());
    assert(r@ =~= edge_line((from_app@, from_name@), (to_app@, to_name@)));
    r
}

/// Whether one of the first `upto` dependencies of `deps` is `(app, name)`.
fn has_dep(deps: &Vec<DependencyTuple>, upto: usize, app: &[u8], name: &[u8]) -> (r: bool)
    requires
        upto <= deps@.len(),
    ensures
        r == tuple_views(deps@).subrange(0, upto as int).contains((app@, name@)),
{
    let ghost d = tuple_views(deps@).subrange(0, upto as int);
    let mut i: usize = 0;
    while i < upto
        invariant
            i <= upto <= deps@.len(),
            d == tuple_views(deps@).subrange(0, upto as int),
            forall|k: int| 0 <= k < i ==> d[k] != (app@, name@),
        decreases upto - i,
    {
        if same_bytes(deps[i].app.as_slice(), app) && same_bytes(deps[i].name.as_slice(), name) {
            assert(d[i as int] == (app@, name@));
            return true;
        }
        i = i + 1;
    }
    false
}

fn emit_block(out: &mut Vec<u8>, ms: &Vec<Migration>, i: usize)
    requires
        i < ms@.len(),
    ensures
        final(out)@ == old(out)@ + join_lines(block_lines(migration_views(ms@), i as int)),
{
    let ghost s = migration_views(ms@);
    let ghost start = old(out)@;
    let ghost mut emitted: Seq<Seq<u8>> = Seq::empty();
    let m = &ms[i];
    let app = m.record.app.as_slice();
    let name = m.record.name.as_slice();
    assert(s[i as int] == m@);
    let first_of_app = i == 0 || !same_bytes(ms[i - 1].record.app.as_slice(), app);
    if first_of_app {
        if i > 0 {
            let end_bytes: [u8; 3] = [101, 110, 100];
            assert(end_bytes@ =~= end_line());
            emit(out, end_bytes.as_slice());
            proof {
                lemma_join_push(emitted, end_line());
                emitted = emitted.push(end_line());
            }
        }
        let mut head: Vec<u8> = Vec::new();
        let sub_bytes: [u8; 9] = [115, 117, 98, 103, 114, 97, 112, 104, 32];
        append_bytes(&mut head, sub_bytes.as_slice());
        append_bytes(&mut head, app);
        assert(head@ =~= subgraph_line(app@));
        emit(out, head.as_slice());
        proof {
            lemma_join_push(emitted, head@);
            emitted = emitted.push(head@);
        }
    }
    assert(emitted =~= opening(s, i as int));
    let node = label_bytes(app, name);
    emit(out, node.as_slice());
    proof {
        lemma_join_push(emitted, node@);
        emitted = emitted.push(node@);
    }
    let ghost top = emitted;
    assert(out@ == start + join_lines(emitted));
    let deps = &m.deps;
    let ghost d = tuple_views(deps@);
    let ghost mut chain: Seq<NodeRef> = Seq::empty();
    if i > 0 && !first_of_app {
        let prev = &ms[i - 1].record;
        assert(s[i - 1] == ms@[i - 1]@);
        if !has_dep(deps, deps.len(), prev.app.as_slice(), prev.name.as_slice()) {
            let e = edge_bytes(prev.app.as_slice(), prev.name.as_slice(), app, name);
            emit(out, e.as_slice());
            proof {
                lemma_join_push(emitted, e@);
                emitted = emitted.push(e@);
                chain = seq![prev@];
            }
        }
        assert(d.subrange(0, d.len() as int) =~= d);
    }
    assert(edge_lines(chain, m.record@) =~= emitted.subrange(top.len() as int, emitted.len() as int));
    let mut j: usize = 0;
    while j < deps.len()
        invariant
            j <= deps@.len(),
            d == tuple_views(deps@),
            emitted == top + edge_lines(chain + dedup(d.subrange(0, j as int)), (app@, name@)),
            out@ == start + join_lines(emitted),
        decreases deps.len() - j,
    {
        let t = &deps[j];
        let ghost sub = d.subrange(0, j + 1);
        assert(sub.drop_last() =~= d.subrange(0, j as int));
        assert(sub.last() == t@);
        if !has_dep(deps, j, t.app.as_slice(), t.name.as_slice()) {
            let e = edge_bytes(t.app.as_slice(), t.name.as_slice(), app, name);
            emit(out, e.as_slice());
            proof {
                lemma_join_push(emitted, e@);
                let before = chain + dedup(d.subrange(0, j as int));
                assert(chain + dedup(sub) =~= before.push(t@));
                assert(edge_lines(before.push(t@), (app@, name@)) =~= edge_lines(before, (app@, name@)).push(e@));
                emitted = emitted.push(e@);
            }
        }
        j = j + 1;
    }
    assert(d.subrange(0, d.len() as int) =~= d);
    assert(emitted =~= block_lines(s, i as int));
}

/// The diagram of `g`: a fenced flowchart with one grouping per app, each
/// migration's node and the edges into it; nothing where `g` is empty.
pub fn render(g: &Graph, dir: Direction) -> (out: Vec<u8>)
    ensures
        out@ == join_lines(diagram_lines(g.nodes(), dir)),
{
    let ms = &g.migrations;
    let ghost s = g.nodes();
    let mut out: Vec<u8> = Vec::new();
    if ms.len() == 0 {
        return out;
    }
    let fence: [u8; 10] = [96, 96, 96, 109, 101, 114, 109, 97, 105, 100];
    let mut flow: Vec<u8> = Vec::new();
    let flow_bytes: [u8; 10] = [102, 108, 111, 119, 99, 104, 97, 114, 116, 32];
    append_bytes(&mut flow, flow_bytes.as_slice());
    match dir {
        Direction::TopBottom => {
            flow.push(84);
            flow.push(66);
        },
        Direction::LeftRight => {
            flow.push(76);
            flow.push(82);
        },
    }
    assert(fence@ =~= fence_open());
    assert(flow@ =~= flowchart_line(dir));
    emit(&mut out, fence.as_slice());
    emit(&mut out, flow.as_slice());
    let ghost head = seq![fence_open(), flowchart_line(dir)];
    proof {
        lemma_join_push(Seq::empty(), fence_open());
        lemma_join_push(seq![fence_open()], flowchart_line(dir));
        assert(seq![fence_open()] =~= Seq::<Seq<u8>>::empty().push(fence_open()));
        assert(head =~= seq![fence_open()].push(flowchart_line(dir)));
        assert(out@ =~= join_lines(head));
    }
    let mut i: usize = 0;
    while i < ms.len()
        invariant
            i <= ms@.len(),
            s == migration_views(ms@),
            out@ == join_lines(head + body_lines(s, i as nat)),
        decreases ms.len() - i,
    {
        emit_block(&mut out, ms, i);
        proof {
            lemma_join_append(head + body_lines(s, i as nat), block_lines(s, i as int));
            assert(body_lines(s, (i + 1) as nat) == body_lines(s, i as nat) + block_lines(s, i as int));
            assert(head + body_lines(s, (i + 1) as nat) =~= head + body_lines(s, i as nat) + block_lines(s, i as int));
        }
        i = i + 1;
    }
    let end_bytes: [u8; 3] = [101, 110, 100];
    let close: [u8; 3] = [96, 96, 96];
    assert(end_bytes@ =~= end_line());
    assert(close@ =~= fence_close());
    emit(&mut out, end_bytes.as_slice());
    emit(&mut out, close.as_slice());
    proof {
        let b = head + body_lines(s, s.len());
        lemma_join_push(b, end_line());
        lemma_join_push(b.push(end_line()), fence_close());
        assert(diagram_lines(s, dir) =~= b.push(end_line()).push(fence_close()));
    }
    out
}

} // verus!
