use vstd::prelude::*;
use crate::discovery::MigrationRecord;
use crate::extract::{tuple_views, DependencyTuple};
use crate::order::{key_le, key_lt, lemma_key_lt_le, lemma_key_total, less_bytes};

verus! {

broadcast use vstd::seq_lib::to_multiset_insert;

/// A node of the diagram: an app and a migration name.
pub type NodeRef = (Seq<u8>, Seq<u8>);

/// A migration together with the dependencies declared in its source.
pub struct Migration {
    pub record: MigrationRecord,
    pub deps: Vec<DependencyTuple>,
}

impl View for Migration {
    type V = (NodeRef, Seq<NodeRef>);

    open spec fn view(&self) -> (NodeRef, Seq<NodeRef>) {
        (self.record@, tuple_views(self.deps@))
    }
}

pub open spec fn migration_views(s: Seq<Migration>) -> Seq<(NodeRef, Seq<NodeRef>)> {
    s.map_values(|m: Migration| m@)
}

/// Migrations in order of app, then name.
pub open spec fn sorted(s: Seq<(NodeRef, Seq<NodeRef>)>) -> bool {
    forall|i: int, j: int| 0 <= i < j < s.len() ==> key_le(#[trigger] s[i].0, #[trigger] s[j].0)
}

/// No two migrations share an app and a name.
pub open spec fn unique_keys(s: Seq<(NodeRef, Seq<NodeRef>)>) -> bool {
    forall|i: int, j: int| 0 <= i < j < s.len() ==> #[trigger] s[i].0 != #[trigger] s[j].0
}

/// The migrations of a run, grouped by app and ordered by name within each app.
pub struct Graph {
    pub migrations: Vec<Migration>,
}

impl Graph {
    pub open spec fn nodes(&self) -> Seq<(NodeRef, Seq<NodeRef>)> {
        migration_views(self.migrations@)
    }

    pub open spec fn wf(&self) -> bool {
        sorted(self.nodes())
    }
}

fn key_less(a: &MigrationRecord, b: &MigrationRecord) -> (r: bool)
    ensures
        r == key_lt(a@, b@),
{
    if less_bytes(a.app.as_slice(), b.app.as_slice()) {
        true
    } else if less_bytes(b.app.as_slice(), a.app.as_slice()) {
        proof {
            crate::order::lemma_bytes_lt_asymmetric(b.app@, a.app@);
        }
        false
    } else {
        proof {
            crate::order::lemma_bytes_lt_total(a.app@, b.app@);
        }
        less_bytes(a.name.as_slice(), b.name.as_slice())
    }
}

/// The position at which `x` goes in the sorted `s`: after every migration
/// that does not come after it.
fn insertion_point(s: &Vec<Migration>, x: &MigrationRecord) -> (r: usize)
    requires
        sorted(migration_views(s@)),
    ensures
        r <= s@.len(),
        forall|k: int| 0 <= k < r ==> key_le(#[trigger] s@[k].record@, x@),
        forall|k: int| r <= k < s@.len() ==> key_lt(x@, #[trigger] s@[k].record@),
{
    let mut i: usize = 0;
    while i < s.len()
        invariant
            i <= s@.len(),
            sorted(migration_views(s@)),
            forall|k: int| 0 <= k < i ==> key_le(#[trigger] s@[k].record@, x@),
        decreases s.len() - i,
    {
        if key_less(x, &s[i].record) {
            assert forall|k: int| i <= k < s@.len() implies key_lt(x@, #[trigger] s@[k].record@) by {
                if k > i {
                    assert(migration_views(s@).len() == s@.len());
                    assert(migration_views(s@)[i as int].0 == s@[i as int].record@);
                    assert(migration_views(s@)[k].0 == s@[k].record@);
                    assert(key_le(migration_views(s@)[i as int].0, migration_views(s@)[k].0));
                    lemma_key_lt_le(x@, s@[i as int].record@, s@[k].record@);
                }
            }
            return i;
        }
        proof {
            lemma_key_total(x@, s@[i as int].record@);
        }
        i = i + 1;
    }
    i
}

/// Orders the migrations of a run: by app, and by name within each app, over
/// the same migrations.
pub fn assemble(migrations: Vec<Migration>) -> (g: Graph)
    ensures
        g.wf(),
        g.nodes().to_multiset() == migration_views(migrations@).to_multiset(),
{
    let ghost input = migration_views(migrations@);
    let total = migrations.len();
    let ghost n = total as int;
    let mut rest = migrations;
    let mut out: Vec<Migration> = Vec::new();
    let mut k: usize = 0;
    assert(migration_views(out@) =~= Seq::empty());
    assert(input.subrange(0, 0) =~= Seq::empty());
    while rest.len() > 0
        invariant
            n == input.len(),
            n <= usize::MAX,
            k + rest@.len() == n,
            migration_views(rest@) == input.subrange(k as int, n as int),
            sorted(migration_views(out@)),
            migration_views(out@).to_multiset() == input.subrange(0, k as int).to_multiset(),
        decreases rest@.len(),
    {
        let ghost before = out@;
        let ghost old_rest = rest@;
        let x = rest.remove(0);
        assert(migration_views(old_rest)[0] == x@);
        assert(input.subrange(k as int, n as int)[0] == input[k as int]);
        assert(migration_views(rest@) =~= migration_views(old_rest).subrange(1, old_rest.len() as int));
        assert(migration_views(rest@) =~= input.subrange(k + 1, n as int));
        let p = insertion_point(&out, &x.record);
        out.insert(p, x);
        assert(migration_views(out@) =~= migration_views(before).insert(p as int, input[k as int]));
        assert(input.subrange(0, k + 1) =~= input.subrange(0, k as int).push(input[k as int]));
        assert(input.subrange(0, k as int).push(input[k as int]) =~= input.subrange(0, k as int).insert(k as int, input[k as int]));
        assert forall|i: int, j: int| 0 <= i < j < out@.len() implies key_le(
            #[trigger] migration_views(out@)[i].0,
            #[trigger] migration_views(out@)[j].0,
        ) by {
            let v = migration_views(before);
            if j < p {
                assert(key_le(v[i].0, v[j].0));
            } else if j == p {
                assert(key_le(before[i].record@, x@.0));
            } else if i < p {
                assert(key_le(v[i].0, v[j - 1].0));
            } else if i == p {
                assert(key_lt(x@.0, before[j - 1].record@));
            } else {
                assert(key_le(v[i - 1].0, v[j - 1].0));
            }
        }
        k = k + 1;
    }
    assert(input.subrange(0, n as int) =~= input);
    Graph { migrations: out }
}

} // verus!
