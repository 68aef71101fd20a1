use migration_graph::discovery::{discover, MigrationRecord};
use migration_graph::extract::{extract_dependencies, parse_tuple, DependencyTuple};
use migration_graph::graph::{assemble, Migration};
use migration_graph::pipeline::{diagram, migration_from_source};
use migration_graph::render::{render, Direction};

fn b(s: &str) -> Vec<u8> {
    s.as_bytes().to_vec()
}

fn text(v: &[u8]) -> String {
    String::from_utf8(v.to_vec()).unwrap()
}

fn path(segments: &[&str]) -> Vec<Vec<u8>> {
    segments.iter().map(|s| b(s)).collect()
}

fn record(app: &str, name: &str) -> MigrationRecord {
    MigrationRecord { app: b(app), name: b(name) }
}

fn dep(app: &str, name: &str) -> DependencyTuple {
    DependencyTuple { app: b(app), name: b(name) }
}

fn migration(app: &str, name: &str, deps: &[(&str, &str)]) -> Migration {
    Migration { record: record(app, name), deps: deps.iter().map(|(a, n)| dep(a, n)).collect() }
}

fn edge_count(out: &str, edge: &str) -> usize {
    out.lines().filter(|l| *l == edge).count()
}

#[test]
fn discovers_migration_file() {
    let r = discover(&path(&["root", "billing", "migrations", "0001_init.py"])).unwrap();
    assert_eq!(text(&r.app), "billing");
    assert_eq!(text(&r.name), "0001_init");
}

#[test]
fn discovery_skips_initializer() {
    assert!(discover(&path(&["root", "billing", "migrations", "__init__.py"])).is_none());
}

#[test]
fn discovery_keeps_names_that_only_begin_like_initializer() {
    let r = discover(&path(&["root", "billing", "migrations", "__init__old.py"])).unwrap();
    assert_eq!(text(&r.app), "billing");
    assert_eq!(text(&r.name), "__init__old");
    assert!(discover(&path(&["root", "billing", "migrations", "__init__.pyc"])).is_none());
}

#[test]
fn discovery_needs_migrations_directory() {
    assert!(discover(&path(&["root", "billing", "models", "0001_init.py"])).is_none());
    assert!(discover(&path(&["root", "billing", "my_migrations", "0001_init.py"])).is_none());
}

#[test]
fn discovery_needs_script_extension() {
    assert!(discover(&path(&["root", "billing", "migrations", "0001_init.txt"])).is_none());
    assert!(discover(&path(&["root", "billing", "migrations", "notes"])).is_none());
}

#[test]
fn discovery_needs_depth() {
    assert!(discover(&path(&["migrations", "0001_init.py"])).is_none());
}

#[test]
fn parses_quoted_pair() {
    let t = parse_tuple(b"        (\"billing\", \"0001_init\"),").unwrap();
    assert_eq!(text(&t.app), "billing");
    assert_eq!(text(&t.name), "0001_init");
}

#[test]
fn parse_rejects_malformed_entries() {
    assert!(parse_tuple(b"        migrations.swappable_dependency(settings.AUTH_USER_MODEL),").is_none());
    assert!(parse_tuple(b"(\"billing\",\"0001_init\"),").is_none());
    assert!(parse_tuple(b"(\"\", \"0001_init\"),").is_none());
    assert!(parse_tuple(b"(\"bill-ing\", \"0001\"),").is_none());
    assert!(parse_tuple(b"").is_none());
}

#[test]
fn parse_takes_leftmost_pair() {
    let t = parse_tuple(b"(\"a\", \"b\"), (\"c\", \"d\")").unwrap();
    assert_eq!(text(&t.app), "a");
    assert_eq!(text(&t.name), "b");
}

const SOURCE: &str = "from django.db import migrations\n\
\n\
class Migration(migrations.Migration):\n\
    dependencies = [\n\
        migrations.swappable_dependency(settings.AUTH_USER_MODEL),\n\
        (\"billing\", \"0001_init\"),\n\
        # a comment\n\
        (\"orders\", \"0003_items\"),\n\
    ]\n\
\n\
    operations = [\n\
        (\"ignored\", \"outside\"),\n\
    ]\n";

#[test]
fn extracts_dependencies_in_order() {
    let deps = extract_dependencies(SOURCE.as_bytes());
    let got: Vec<(String, String)> = deps.iter().map(|d| (text(&d.app), text(&d.name))).collect();
    assert_eq!(
        got,
        vec![
            ("billing".to_string(), "0001_init".to_string()),
            ("orders".to_string(), "0003_items".to_string())
        ]
    );
}

#[test]
fn extraction_without_block_is_empty() {
    assert!(extract_dependencies(b"class Migration:\n    initial = True\n").is_empty());
    assert!(extract_dependencies(b"").is_empty());
}

#[test]
fn extraction_of_one_line_block() {
    let deps = extract_dependencies(b"    dependencies = [(\"a\", \"0001\")]\n    x = (\"b\", \"c\")\n");
    assert_eq!(deps.len(), 1);
    assert_eq!(text(&deps[0].app), "a");
    assert_eq!(text(&deps[0].name), "0001");
}

#[test]
fn extraction_of_empty_block() {
    assert!(extract_dependencies(b"    dependencies = []\n    (\"a\", \"b\")\n").is_empty());
}

#[test]
fn extraction_recognizes_one_block_only() {
    let src = b"dependencies = [\n(\"a\", \"b\"),\n]\ndependencies = [\n(\"c\", \"d\"),\n]\n";
    let deps = extract_dependencies(src);
    assert_eq!(deps.len(), 1);
    assert_eq!(text(&deps[0].app), "a");
}

#[test]
fn unclosed_block_runs_to_end() {
    let deps = extract_dependencies(b"dependencies = [\n(\"a\", \"b\"),\n(\"c\", \"d\"),");
    assert_eq!(deps.len(), 2);
    assert_eq!(text(&deps[1].name), "d");
}

#[test]
fn marker_entry_yields_no_edge() {
    let src = "dependencies = [\n    migrations.swappable_dependency(settings.AUTH_USER_MODEL),\n    (\"billing\", \"0001_init\"),\n]\n";
    let m = migration_from_source(record("orders", "0001_init"), src.as_bytes());
    assert_eq!(m.deps.len(), 1);
    let out = text(&diagram(vec![m], Direction::TopBottom));
    let edges: Vec<&str> = out.lines().filter(|l| l.contains(" --> ")).collect();
    assert_eq!(edges, vec!["billing.0001_init --> orders.0001_init"]);
}

#[test]
fn declared_chain_edge_drawn_once() {
    let ms = vec![
        migration("billing", "0002_add_table", &[("billing", "0001_init")]),
        migration("billing", "0001_init", &[]),
    ];
    let out = text(&diagram(ms, Direction::TopBottom));
    assert_eq!(edge_count(&out, "billing.0001_init --> billing.0002_add_table"), 1);
}

#[test]
fn cross_app_edge_without_chain_edge() {
    let ms = vec![
        migration("orders", "0001_init", &[("billing", "0002_add_table")]),
        migration("billing", "0001_init", &[]),
        migration("billing", "0002_add_table", &[("billing", "0001_init")]),
    ];
    let out = text(&diagram(ms, Direction::TopBottom));
    assert_eq!(edge_count(&out, "billing.0002_add_table --> orders.0001_init"), 1);
    let lines: Vec<&str> = out.lines().collect();
    let start = lines.iter().position(|l| *l == "subgraph orders").unwrap();
    let group: Vec<&str> = lines[start + 1..].iter().take_while(|l| **l != "end").cloned().collect();
    assert_eq!(group, vec!["orders.0001_init", "billing.0002_add_table --> orders.0001_init"]);
}

#[test]
fn full_diagram_text() {
    let ms = vec![
        migration("orders", "0001_init", &[("billing", "0002_add_table")]),
        migration("billing", "0002_add_table", &[]),
        migration("billing", "0001_init", &[]),
    ];
    let out = text(&diagram(ms, Direction::TopBottom));
    let expected = "```mermaid\n\
flowchart TB\n\
subgraph billing\n\
billing.0001_init\n\
billing.0002_add_table\n\
billing.0001_init --> billing.0002_add_table\n\
end\n\
subgraph orders\n\
orders.0001_init\n\
billing.0002_add_table --> orders.0001_init\n\
end\n\
```\n";
    assert_eq!(out, expected);
}

#[test]
fn left_to_right_header() {
    let out = text(&diagram(vec![migration("a", "0001", &[])], Direction::LeftRight));
    assert_eq!(out, "```mermaid\nflowchart LR\nsubgraph a\na.0001\nend\n```\n");
}

#[test]
fn empty_run_draws_nothing() {
    assert!(diagram(vec![], Direction::TopBottom).is_empty());
}

#[test]
fn dangling_reference_still_drawn() {
    let out = text(&diagram(vec![migration("a", "0001", &[("ghost", "0009")])], Direction::TopBottom));
    assert_eq!(edge_count(&out, "ghost.0009 --> a.0001"), 1);
}

#[test]
fn repeated_declaration_drawn_once() {
    let out = text(&diagram(
        vec![migration("a", "0001", &[("b", "0001"), ("b", "0001"), ("c", "0001")])],
        Direction::TopBottom,
    ));
    assert_eq!(edge_count(&out, "b.0001 --> a.0001"), 1);
    assert_eq!(edge_count(&out, "c.0001 --> a.0001"), 1);
}

#[test]
fn every_migration_is_drawn() {
    let names = ["z.0002", "a.0001", "m.0001", "a.0003", "a.0002", "z.0001"];
    let ms: Vec<Migration> = names
        .iter()
        .map(|n| {
            let (app, name) = n.split_once('.').unwrap();
            migration(app, name, &[])
        })
        .collect();
    let out = text(&diagram(ms, Direction::TopBottom));
    for n in names.iter() {
        assert_eq!(out.lines().filter(|l| l == n).count(), 1);
    }
    assert_eq!(out.lines().filter(|l| l.contains('.') && !l.contains(" --> ")).count(), names.len());
}

#[test]
fn assembly_orders_by_app_then_name() {
    let g = assemble(vec![
        migration("b", "0002", &[]),
        migration("a", "0010", &[]),
        migration("b", "0001", &[]),
        migration("a", "0002", &[]),
        migration("ab", "0001", &[]),
    ]);
    let got: Vec<String> = g
        .migrations
        .iter()
        .map(|m| format!("{}.{}", text(&m.record.app), text(&m.record.name)))
        .collect();
    assert_eq!(got, vec!["a.0002", "a.0010", "ab.0001", "b.0001", "b.0002"]);
}

#[test]
fn chain_edges_between_neighbours() {
    let out = text(&diagram(
        vec![migration("a", "0003", &[]), migration("a", "0001", &[]), migration("a", "0002", &[])],
        Direction::TopBottom,
    ));
    assert_eq!(edge_count(&out, "a.0001 --> a.0002"), 1);
    assert_eq!(edge_count(&out, "a.0002 --> a.0003"), 1);
    assert_eq!(edge_count(&out, "a.0001 --> a.0003"), 0);
}

#[test]
fn same_output_for_any_discovery_order() {
    let run = |order: &[usize]| {
        let all = [
            ("orders", "0001_init", vec![("billing", "0002_add_table")]),
            ("billing", "0001_init", vec![]),
            ("billing", "0002_add_table", vec![("billing", "0001_init")]),
            ("orders", "0002_more", vec![]),
        ];
        let ms: Vec<Migration> = order
            .iter()
            .map(|&i| migration(all[i].0, all[i].1, &all[i].2))
            .collect();
        diagram(ms, Direction::TopBottom)
    };
    let first = run(&[0, 1, 2, 3]);
    assert_eq!(first, run(&[3, 2, 1, 0]));
    assert_eq!(first, run(&[2, 0, 3, 1]));
    assert_eq!(first, run(&[0, 1, 2, 3]));
}

#[test]
fn render_of_assembled_graph_matches_diagram() {
    let make = || vec![migration("x", "0002", &[]), migration("x", "0001", &[])];
    let g = assemble(make());
    assert_eq!(render(&g, Direction::LeftRight), diagram(make(), Direction::LeftRight));
}
