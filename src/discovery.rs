use vstd::prelude::*;
use crate::text::{copy_range, ends_with, matches_at, same_bytes, views};

verus! {

/// A migration found on disk: the app it belongs to and its name.
pub struct MigrationRecord {
    pub app: Vec<u8>,
    pub name: Vec<u8>,
}

impl View for MigrationRecord {
    type V = (Seq<u8>, Seq<u8>);

    open spec fn view(&self) -> (Seq<u8>, Seq<u8>) {
        (self.app@, self.name@)
    }
}

/// `migrations`
pub open spec fn migrations_dir() -> Seq<u8> {
    seq![109u8, 105, 103, 114, 97, 116, 105, 111, 110, 115]
}

/// `.py`
pub open spec fn script_ext() -> Seq<u8> {
    seq![46u8, 112, 121]
}

/// `__init__.py`, the package initializer.
pub open spec fn initializer_file() -> Seq<u8> {
    seq![95u8, 95, 105, 110, 105, 116, 95, 95] + script_ext()
}

/// A path, given as its segments with the file name last, names a migration:
/// one of its directories is `migrations`, the file is a script other than
/// the package initializer `__init__.py`, and it lies at least two
/// directories deep.
pub open spec fn is_migration_path(p: Seq<Seq<u8>>) -> bool {
    &&& p.len() >= 3
    &&& exists|i: int| 0 <= i < p.len() - 1 && p[i] == migrations_dir()
    &&& ends_with(p.last(), script_ext())
    &&& p.last() != initializer_file()
}

/// The record of a migration path: the app is the directory two levels above
/// the file, the name is the file name without its extension.
pub open spec fn record_of(p: Seq<Seq<u8>>) -> (Seq<u8>, Seq<u8>) {
    (p[p.len() - 3], p.last().subrange(0, p.last().len() - script_ext().len()))
}

fn has_dir(path: &Vec<Vec<u8>>, dir: &[u8]) -> (r: bool)
    requires
        path@.len() >= 1,
    ensures
        r == exists|i: int| 0 <= i < path@.len() - 1 && views(path@)[i] == dir@,
{
    let n = path.len();
    let mut i: usize = 0;
    while i < n - 1
        invariant
            n == path@.len(),
            i <= n - 1,
            forall|k: int| 0 <= k < i ==> views(path@)[k] != dir@,
        decreases n - 1 - i,
    {
        if same_bytes(path[i].as_slice(), dir) {
            assert(views(path@)[i as int] == dir@);
            return true;
        }
        i = i + 1;
    }
    false
}

/// The migration that the path with segments `path` holds, if it holds one.
pub fn discover(path: &Vec<Vec<u8>>) -> (r: Option<MigrationRecord>)
    ensures
        r.is_some() == is_migration_path(views(path@)),
        r.is_some() ==> r.unwrap()@ == record_of(views(path@)),
{
    let ghost p = views(path@);
    let dir: [u8; 10] = [109, 105, 103, 114, 97, 116, 105, 111, 110, 115];
    let ext: [u8; 3] = [46, 112, 121];
    let init: [u8; 11] = [95, 95, 105, 110, 105, 116, 95, 95, 46, 112, 121];
    assert(dir@ =~= migrations_dir());
    assert(ext@ =~= script_ext());
    assert(init@ =~= initializer_file());
    let n = path.len();
    if n < 3 {
        return None;
    }
    let file = path[n - 1].as_slice();
    assert(file@ == p.last());
    if file.len() < 3 || !matches_at(file, ext.as_slice(), file.len() - 3) {
        return None;
    }
    if same_bytes(file, init.as_slice()) {
        return None;
    }
    if !has_dir(path, dir.as_slice()) {
        return None;
    }
    let app = copy_range(path[n - 3].as_slice(), 0, path[n - 3].len());
    assert(app@ =~= p[n - 3]);
    let name = copy_range(file, 0, file.len() - 3);
    Some(MigrationRecord { app, name })
}

} // verus!
