use vstd::prelude::*;
use crate::discovery::MigrationRecord;
use crate::extract::{declared_dependencies, extract_dependencies};
use crate::graph::{assemble, migration_views, sorted, Migration, NodeRef};
use crate::render::{diagram_lines, join_lines, render, Direction};

verus! {

/// A discovered migration with the dependencies declared in its source text.
pub fn migration_from_source(record: MigrationRecord, contents: &[u8]) -> (m: Migration)
    ensures
        m@ == (record@, declared_dependencies(contents@)),
{
    let deps = extract_dependencies(contents);
    Migration { record, deps }
}

/// The diagram of a run: the migrations ordered by app and name, then drawn.
pub fn diagram(migrations: Vec<Migration>, dir: Direction) -> (out: Vec<u8>)
    ensures
        exists|ordered: Seq<(NodeRef, Seq<NodeRef>)>|
            #![trigger diagram_lines(ordered, dir)]
            sorted(ordered) && ordered.to_multiset() == migration_views(migrations@).to_multiset()
                && out@ == join_lines(diagram_lines(ordered, dir)),
{
    let g = assemble(migrations);
    let out = render(&g, dir);
    assert(out@ == join_lines(diagram_lines(g.nodes(), dir)));
    out
}

} // verus!
