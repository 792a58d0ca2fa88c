//! Directories: path resolution against the parent-pointer table, and the
//! directory operations built on it.
use vstd::prelude::*;

use crate::database::{
    dir_lookup, dir_model, lemma_dir_lookup_at, lemma_dir_lookup_some, Database, DatabaseView, DirModel,
};
use crate::dir::Directory;
use crate::path::{components, components_of, name_lt, sort_by_name, sorted_by_name, string_views};
use crate::database::file::{file_by_id, full_path_of, lemma_file_by_id_at, shows_row};
use crate::file::File;
use crate::CabinetError;

verus! {

/// Where the names `comps` lead from the root: `Some(None)` is the root
/// itself, `Some(Some(id))` a directory, `None` a name that is missing.
pub open spec fn resolved(dirs: Seq<DirModel>, comps: Seq<Seq<char>>) -> Option<Option<usize>>
    decreases comps.len(),
{
    if comps.len() == 0 {
        Some(None)
    } else {
        match resolved(dirs, comps.drop_last()) {
            Some(parent) => match dir_lookup(dirs, comps.last(), parent) {
                Some(id) => Some(Some(id)),
                None => None,
            },
            None => None,
        }
    }
}

/// A prefix of a resolved path resolves too.
pub proof fn lemma_resolved_prefix(dirs: Seq<DirModel>, comps: Seq<Seq<char>>, k: int)
    requires
        resolved(dirs, comps) is Some,
        0 <= k <= comps.len(),
    ensures
        resolved(dirs, comps.take(k)) is Some,
    decreases comps.len(),
{
    if k == comps.len() {
        assert(comps.take(k) =~= comps);
    } else {
        lemma_resolved_prefix(dirs, comps.drop_last(), k);
        assert(comps.drop_last().take(k) =~= comps.take(k));
    }
}

/// Adding a directory row keeps every path that resolved where it was.
pub proof fn lemma_resolved_grow(v0: DatabaseView, v1: DatabaseView, row: DirModel, comps: Seq<Seq<char>>)
    requires
        v0.wf(),
        v1.wf(),
        v1.dirs == v0.dirs.push(row),
        resolved(v0.dirs, comps) is Some,
    ensures
        resolved(v1.dirs, comps) == resolved(v0.dirs, comps),
    decreases comps.len(),
{
    if comps.len() > 0 {
        lemma_resolved_grow(v0, v1, row, comps.drop_last());
        let parent = resolved(v0.dirs, comps.drop_last())->0;
        lemma_dir_lookup_some(v0.dirs, comps.last(), parent);
        let i = choose|i: int|
            0 <= i < v0.dirs.len() && v0.dirs[i].name == comps.last() && v0.dirs[i].parent == parent
                && v0.dirs[i].id == dir_lookup(v0.dirs, comps.last(), parent)->0;
        assert(v1.dirs[i] == v0.dirs[i]);
        lemma_dir_lookup_at(v1, i);
    }
}

/// Resolving a path after a row was added: the prefix before the row's name
/// led to the row's parent, so the longer prefix now leads to the row.
pub proof fn lemma_resolved_step(v: DatabaseView, comps: Seq<Seq<char>>, i: int, parent: Option<usize>)
    requires
        v.wf(),
        0 <= i < comps.len(),
        resolved(v.dirs, comps.take(i)) == Some(parent),
    ensures
        resolved(v.dirs, comps.take(i + 1)) == match dir_lookup(v.dirs, comps[i], parent) {
            Some(id) => Some(Some(id)),
            None => None::<Option<usize>>,
        },
{
    assert(comps.take(i + 1).drop_last() =~= comps.take(i));
}

/// Directory `id` is where one of the first `n` prefixes of `comps` leads
/// in `after`, and that prefix was missing in `before`.
pub open spec fn created_on_path(
    before: Seq<DirModel>,
    after: Seq<DirModel>,
    comps: Seq<Seq<char>>,
    n: int,
    id: usize,
) -> bool {
    exists|j: int|
        1 <= j <= n && resolved(before, comps.take(j)) is None && #[trigger] resolved(
            after,
            comps.take(j),
        ) == Some(Some(id))
}

/// The directory table of `v1` is that of `v0` with, added at its end, rows
/// for directories along `comps` that were missing in `v0`, at most one
/// for each name; the next free id moves on by one for each row added.
pub open spec fn dirs_grown(v0: DatabaseView, v1: DatabaseView, comps: Seq<Seq<char>>) -> bool {
    &&& v0.dirs.len() <= v1.dirs.len() <= v0.dirs.len() + comps.len()
    &&& v1.dirs.take(v0.dirs.len() as int) == v0.dirs
    &&& v1.next_dir == v0.next_dir + (v1.dirs.len() - v0.dirs.len())
    &&& forall|k: int|
        v0.dirs.len() <= k < v1.dirs.len() ==> created_on_path(
            v0.dirs,
            v1.dirs,
            comps,
            comps.len() as int,
            #[trigger] v1.dirs[k].id,
        )
    &&& resolved(v0.dirs, comps) is Some ==> v1.dirs == v0.dirs && v1.next_dir == v0.next_dir
}

/// What creating the directories along `comps` did: other tables and old
/// rows are untouched, every added row is a directory of the path that was
/// missing before, and the path now leads to the id returned. A path that
/// already resolved changes nothing. Creation fails only when the directory
/// ids are used up.
pub open spec fn ensure_post(
    v0: DatabaseView,
    v1: DatabaseView,
    comps: Seq<Seq<char>>,
    r: Result<Option<usize>, CabinetError>,
) -> bool {
    &&& v1.files == v0.files
    &&& v1.boilerplates == v0.boilerplates
    &&& v1.next_file == v0.next_file
    &&& v1.next_boilerplate == v0.next_boilerplate
    &&& dirs_grown(v0, v1, comps)
    &&& resolved(v0.dirs, comps) is Some ==> v1 == v0 && r == Ok::<Option<usize>, CabinetError>(
        resolved(v0.dirs, comps)->0,
    )
    &&& match r {
        Ok(p) => resolved(v1.dirs, comps) == Some(p),
        Err(e) => e is InternalError && v1.next_dir == usize::MAX,
    }
}

/// Where `path` leads, without creating anything: `Some(None)` is the root.
pub fn resolve(db: &Database, path: &str) -> (r: Option<Option<usize>>)
    requires
        db.wf(),
    ensures
        r == resolved(db@.dirs, components(path@)),
{
    let comps = components_of(path);
    resolve_components(db, &comps)
}

/// Where the names `comps` lead from the root.
pub fn resolve_components(db: &Database, comps: &Vec<String>) -> (r: Option<Option<usize>>)
    requires
        db.wf(),
    ensures
        r == resolved(db@.dirs, string_views(comps@)),
{
    let ghost cs = string_views(comps@);
    let mut cur: Option<usize> = None;
    let mut i: usize = 0;
    assert(cs.take(0) =~= Seq::<Seq<char>>::empty());
    while i < comps.len()
        invariant
            db.wf(),
            i <= comps.len(),
            cs == string_views(comps@),
            resolved(db@.dirs, cs.take(i as int)) == Some(cur),
        decreases comps.len() - i,
    {
        proof {
            lemma_resolved_step(db@, cs, i as int, cur);
        }
        match db.find_dir(&comps[i], cur) {
            Some(id) => {
                cur = Some(id);
            },
            None => {
                proof {
                    lemma_none_extends(db@.dirs, cs, i as int + 1);
                }
                return None;
            },
        }
        i = i + 1;
    }
    assert(cs.take(comps.len() as int) =~= cs);
    Some(cur)
}

/// Once a prefix of a path is missing, the whole path is.
pub proof fn lemma_none_extends(dirs: Seq<DirModel>, comps: Seq<Seq<char>>, k: int)
    requires
        0 <= k <= comps.len(),
        resolved(dirs, comps.take(k)) is None,
    ensures
        resolved(dirs, comps) is None,
{
    if resolved(dirs, comps) is Some {
        lemma_resolved_prefix(dirs, comps, k);
    }
}

/// Walk `path` from the root, creating each missing directory with the one
/// before it as parent. A path without names leads to the root.
pub fn ensure(db: &mut Database, path: &str) -> (r: Result<Option<usize>, CabinetError>)
    requires
        old(db).wf(),
    ensures
        final(db).wf(),
        ensure_post(old(db)@, final(db)@, components(path@), r),
{
    let comps = components_of(path);
    ensure_components(db, &comps)
}

/// Walk the names `comps` from the root, creating each missing directory.
pub fn ensure_components(db: &mut Database, comps: &Vec<String>) -> (r: Result<
    Option<usize>,
    CabinetError,
>)
    requires
        old(db).wf(),
    ensures
        final(db).wf(),
        ensure_post(old(db)@, final(db)@, string_views(comps@), r),
{
    let ghost v0 = db@;
    let ghost cs = string_views(comps@);
    let mut cur: Option<usize> = None;
    let mut i: usize = 0;
    assert(cs.take(0) =~= Seq::<Seq<char>>::empty());
    while i < comps.len()
        invariant
            db.wf(),
            v0.wf(),
            old(db)@ == v0,
            i <= comps.len(),
            cs == string_views(comps@),
            cs.len() == comps.len(),
            resolved(db@.dirs, cs.take(i as int)) == Some(cur),
            db@.files == v0.files,
            db@.boilerplates == v0.boilerplates,
            db@.next_file == v0.next_file,
            db@.next_boilerplate == v0.next_boilerplate,
            v0.dirs.len() <= db@.dirs.len() <= v0.dirs.len() + i,
            db@.dirs.take(v0.dirs.len() as int) == v0.dirs,
            db@.next_dir == v0.next_dir + (db@.dirs.len() - v0.dirs.len()),
            forall|k: int|
                v0.dirs.len() <= k < db@.dirs.len() ==> created_on_path(
                    v0.dirs,
                    db@.dirs,
                    cs,
                    i as int,
                    #[trigger] db@.dirs[k].id,
                ),
            resolved(v0.dirs, cs) is Some ==> db@ == v0,
        decreases comps.len() - i,
    {
        proof {
            lemma_resolved_step(db@, cs, i as int, cur);
        }
        match db.find_dir(&comps[i], cur) {
            Some(id) => {
                cur = Some(id);
            },
            None => {
                let ghost v1 = db@;
                proof {
                    if resolved(v0.dirs, cs) is Some {
                        lemma_resolved_prefix(v0.dirs, cs, i as int + 1);
                        assert(false);
                    }
                    if resolved(v0.dirs, cs.take(i as int + 1)) is Some {
                        lemma_resolved_prefix_take(v0, v1, cs, i as int + 1);
                        assert(false);
                    }
                    lemma_dir_lookup_parent_exists(v1, cs, i as int, cur);
                }
                match db.insert_dir(comps[i].clone(), cur) {
                    Some(id) => {
                        let ghost v2 = db@;
                        let ghost row = DirModel { id, name: cs[i as int], parent: cur };
                        proof {
                            lemma_dir_lookup_at(v2, v1.dirs.len() as int);
                            assert(v2.dirs[v1.dirs.len() as int] == row);
                            lemma_resolved_grow(v1, v2, row, cs.take(i as int));
                            lemma_resolved_step(v2, cs, i as int, cur);
                            assert forall|k: int| v0.dirs.len() <= k < v2.dirs.len() implies created_on_path(
                                v0.dirs,
                                v2.dirs,
                                cs,
                                i as int + 1,
                                #[trigger] v2.dirs[k].id,
                            ) by {
                                if k == v1.dirs.len() {
                                    assert(resolved(v2.dirs, cs.take(i as int + 1)) == Some(Some(id)));
                                } else {
                                    assert(v2.dirs[k] == v1.dirs[k]);
                                    let j = choose|j: int|
                                        1 <= j <= i && resolved(v0.dirs, cs.take(j)) is None && #[trigger] resolved(
                                            v1.dirs,
                                            cs.take(j),
                                        ) == Some(Some(v1.dirs[k].id));
                                    lemma_resolved_grow(v1, v2, row, cs.take(j));
                                }
                            }
                            assert(v2.dirs.take(v0.dirs.len() as int) =~= v0.dirs) by {
                                assert(v2.dirs.take(v0.dirs.len() as int) =~= v1.dirs.take(v0.dirs.len() as int));
                            }
                        }
                        cur = Some(id);
                    },
                    None => {
                        proof {
                            assert forall|k: int| v0.dirs.len() <= k < db@.dirs.len() implies created_on_path(
                                v0.dirs,
                                db@.dirs,
                                cs,
                                cs.len() as int,
                                #[trigger] db@.dirs[k].id,
                            ) by {
                                assert(created_on_path(v0.dirs, db@.dirs, cs, i as int, db@.dirs[k].id));
                                let j = choose|j: int|
                                    1 <= j <= i && resolved(v0.dirs, cs.take(j)) is None && #[trigger] resolved(
                                        db@.dirs,
                                        cs.take(j),
                                    ) == Some(Some(db@.dirs[k].id));
                                assert(resolved(db@.dirs, cs.take(j)) == Some(Some(db@.dirs[k].id)));
                            }
                        }
                        let e = CabinetError::InternalError(String::from_str("directory ids are used up"));
                        return Err(e);
                    },
                }
            },
        }
        i = i + 1;
    }
    assert(cs.take(comps.len() as int) =~= cs);
    proof {
        if resolved(v0.dirs, cs) is Some {
            assert(resolved(v0.dirs, cs) == Some(cur));
        }
    }
    Ok(cur)
}

/// Rows kept from `v0` resolve the prefixes that resolved in `v0` the same way.
pub proof fn lemma_resolved_prefix_take(v0: DatabaseView, v1: DatabaseView, cs: Seq<Seq<char>>, k: int)
    requires
        v0.wf(),
        v1.wf(),
        v0.dirs.len() <= v1.dirs.len(),
        v1.dirs.take(v0.dirs.len() as int) == v0.dirs,
        0 <= k <= cs.len(),
        resolved(v0.dirs, cs.take(k)) is Some,
    ensures
        resolved(v1.dirs, cs.take(k)) == resolved(v0.dirs, cs.take(k)),
    decreases k,
{
    if k > 0 {
        assert(cs.take(k).drop_last() =~= cs.take(k - 1));
        lemma_resolved_prefix_take(v0, v1, cs, k - 1);
        let parent = resolved(v0.dirs, cs.take(k - 1))->0;
        lemma_dir_lookup_some(v0.dirs, cs[k - 1], parent);
        let i = choose|i: int|
            0 <= i < v0.dirs.len() && v0.dirs[i].name == cs[k - 1] && v0.dirs[i].parent == parent
                && v0.dirs[i].id == dir_lookup(v0.dirs, cs[k - 1], parent)->0;
        assert(v1.dirs[i] == v1.dirs.take(v0.dirs.len() as int)[i]);
        lemma_dir_lookup_at(v1, i);
    }
}

/// The directory a resolved prefix leads to is a row of the table.
pub proof fn lemma_dir_lookup_parent_exists(v: DatabaseView, cs: Seq<Seq<char>>, i: int, cur: Option<usize>)
    requires
        v.wf(),
        0 <= i <= cs.len(),
        resolved(v.dirs, cs.take(i)) == Some(cur),
    ensures
        v.parent_ok(cur),
{
    if i > 0 {
        assert(cs.take(i).drop_last() =~= cs.take(i - 1));
        let parent = resolved(v.dirs, cs.take(i - 1))->0;
        lemma_dir_lookup_some(v.dirs, cs[i - 1], parent);
    }
}

/// Ensuring a path and then resolving it gives the id that ensuring
/// returned; ensuring it again changes nothing and returns the same id.
pub proof fn lemma_ensure_then_resolve(
    v0: DatabaseView,
    v1: DatabaseView,
    v2: DatabaseView,
    comps: Seq<Seq<char>>,
    r1: Result<Option<usize>, CabinetError>,
    r2: Result<Option<usize>, CabinetError>,
)
    requires
        ensure_post(v0, v1, comps, r1),
        r1 is Ok,
        ensure_post(v1, v2, comps, r2),
    ensures
        resolved(v1.dirs, comps) == Some(r1->Ok_0),
        v2 == v1,
        r2 == r1,
{
}

/// A directory named by its row id or by its path.
#[derive(Debug, Clone, Copy)]
pub enum DirIdentifier<'a> {
    Id(usize),
    Path(&'a str),
}

/// The row id a path leads to; the root, which has no row, gives `None`.
pub open spec fn path_dir_id(v: DatabaseView, p: Seq<char>) -> Option<usize> {
    match resolved(v.dirs, components(p)) {
        Some(Some(id)) => Some(id),
        _ => None,
    }
}

/// The row id an identifier names, if any.
pub open spec fn dir_target(v: DatabaseView, ident: DirIdentifier) -> Option<usize> {
    match ident {
        DirIdentifier::Id(id) => Some(id),
        DirIdentifier::Path(p) => path_dir_id(v, p@),
    }
}

/// The identifier names an existing directory row.
pub open spec fn dir_present(v: DatabaseView, ident: DirIdentifier) -> bool {
    match dir_target(v, ident) {
        Some(id) => v.has_dir(id),
        None => false,
    }
}

/// The id of the directory at `path`; `None` when it is missing or is the root.
pub fn get_id(db: &Database, path: &str) -> (r: Option<usize>)
    requires
        db.wf(),
    ensures
        r == path_dir_id(db@, path@),
{
    match resolve(db, path) {
        Some(Some(id)) => Some(id),
        _ => None,
    }
}

fn target_id(db: &Database, ident: &DirIdentifier) -> (r: Option<usize>)
    requires
        db.wf(),
    ensures
        r == dir_target(db@, *ident),
{
    match ident {
        DirIdentifier::Id(id) => Some(*id),
        DirIdentifier::Path(p) => get_id(db, p),
    }
}

/// Whether the identified directory exists.
pub fn present(db: &Database, ident: DirIdentifier) -> (r: bool)
    requires
        db.wf(),
    ensures
        r == dir_present(db@, ident),
{
    match target_id(db, &ident) {
        Some(id) => db.dir_position(id).is_some(),
        None => false,
    }
}

/// The identified directory's row; `NotFound` when there is none.
pub fn fetch(db: &Database, ident: DirIdentifier) -> (r: Result<Directory, CabinetError>)
    requires
        db.wf(),
    ensures
        r is Ok <==> dir_present(db@, ident),
        r matches Ok(d) ==> dir_target(db@, ident) == Some(d.id) && db@.dirs.contains(dir_model(d)),
        r matches Err(e) ==> e is NotFound,
{
    match target_id(db, &ident) {
        Some(id) => match db.dir_position(id) {
            Some(i) => {
                let d = db.dir_at(i);
                assert(db@.dirs[i as int] == dir_model(d));
                Ok(d)
            },
            None => Err(CabinetError::NotFound),
        },
        None => Err(CabinetError::NotFound),
    }
}

/// What creating the directory at a path with names did, in the terms of `ensure_post`.
pub open spec fn create_post(
    v0: DatabaseView,
    v1: DatabaseView,
    comps: Seq<Seq<char>>,
    r: Result<usize, CabinetError>,
) -> bool {
    ensure_post(
        v0,
        v1,
        comps,
        match r {
            Ok(id) => Ok(Some(id)),
            Err(e) => Err(e),
        },
    )
}

/// Create the directory at `path` and every missing directory above it.
/// A path without names (the root) is refused as an internal error.
pub fn create(db: &mut Database, path: &str) -> (r: Result<usize, CabinetError>)
    requires
        old(db).wf(),
    ensures
        final(db).wf(),
        components(path@).len() == 0 ==> final(db)@ == old(db)@ && (r matches Err(e) && e is InternalError),
        components(path@).len() > 0 ==> create_post(old(db)@, final(db)@, components(path@), r),
{
    let comps = components_of(path);
    if comps.len() == 0 {
        return Err(CabinetError::InternalError(String::from_str("cannot create the root directory")));
    }
    match ensure_components(db, &comps) {
        Ok(Some(id)) => Ok(id),
        Ok(None) => {
            proof {
                let cs = string_views(comps@);
                assert(cs.len() > 0);
                assert(resolved(db@.dirs, cs) != Some(None::<usize>));
            }
            Err(CabinetError::InternalError(String::from_str("cannot create the root directory")))
        },
        Err(e) => Err(e),
    }
}

/// Delete the identified directory's row; the number of rows deleted is
/// returned. The caller sees to it that nothing sits below the directory.
pub fn delete(db: &mut Database, ident: DirIdentifier) -> (r: usize)
    requires
        old(db).wf(),
        dir_target(old(db)@, ident) matches Some(id) ==> !old(db)@.has_children(id),
    ensures
        final(db).wf(),
        dir_present(old(db)@, ident) ==> r == 1 && exists|i: int|
            0 <= i < old(db)@.dirs.len() && Some(old(db)@.dirs[i].id) == dir_target(old(db)@, ident)
                && final(db)@ == (DatabaseView { dirs: old(db)@.dirs.remove(i), ..old(db)@ }),
        !dir_present(old(db)@, ident) ==> r == 0 && final(db)@ == old(db)@,
{
    match target_id(db, &ident) {
        Some(id) => match db.dir_position(id) {
            Some(i) => {
                db.remove_dir_at(i);
                1
            },
            None => 0,
        },
        None => 0,
    }
}

/// The number of directory rows.
pub fn count(db: &Database) -> (r: usize)
    ensures
        r == db@.dirs.len(),
{
    db.dir_count()
}

/// An entry of a directory listing.
#[derive(Debug, Clone, PartialEq, Eq)]
pub enum DirContent {
    Dir(Directory),
    File(File),
}

impl DirContent {
    /// The entry as a listing shows it: a directory's name followed by a
    /// slash, or a file's name.
    pub fn to_display_string(&self) -> (r: String)
        ensures
            match self {
                DirContent::Dir(d) => r@ == d.name@ + seq!['/'],
                DirContent::File(f) => r@ == crate::path::last_segment(f.path@),
            },
    {
        match self {
            DirContent::Dir(d) => {
                let mut s = d.name.clone();
                proof {
                    reveal_strlit("/");
                }
                s.append("/");
                s
            },
            DirContent::File(f) => {
                let (_, name) = crate::path::split_last(f.path.as_str());
                name
            },
        }
    }
}

/// The name a listing entry is ordered by: its row's name.
pub open spec fn entry_key(v: DatabaseView, e: DirContent) -> Seq<char> {
    match e {
        DirContent::Dir(d) => d.name@,
        DirContent::File(f) => match file_by_id(v.files, f.id) {
            Some(row) => row.name,
            None => Seq::empty(),
        },
    }
}

/// `c` lists directory `id`: the directories directly inside it, then the
/// files directly inside it, each part in name order.
pub open spec fn listing_ok(v: DatabaseView, id: usize, c: Seq<DirContent>) -> bool {
    &&& forall|k: int|
        0 <= k < c.len() ==> match #[trigger] c[k] {
            DirContent::Dir(d) => v.dirs.contains(dir_model(d)) && d.parent == Some(id),
            DirContent::File(f) => file_by_id(v.files, f.id) matches Some(row) && (row.parent == Some(id)
                && shows_row(v, f, row)),
        }
    &&& forall|a: int, b: int|
        0 <= a < b < c.len() && #[trigger] c[a] is File ==> #[trigger] c[b] is File
    &&& forall|i: int|
        0 <= i < v.dirs.len() && #[trigger] v.dirs[i].parent == Some(id) ==> exists|k: int|
            0 <= k < c.len() && (#[trigger] c[k] matches DirContent::Dir(d) && dir_model(d) == v.dirs[i])
    &&& forall|i: int|
        0 <= i < v.files.len() && #[trigger] v.files[i].parent == Some(id) ==> exists|k: int|
            0 <= k < c.len() && (#[trigger] c[k] matches DirContent::File(f) && f.id == v.files[i].id)
    &&& forall|a: int, b: int|
        0 <= a < b < c.len() && (#[trigger] c[a] is Dir) == (#[trigger] c[b] is Dir) ==> name_lt(
            entry_key(v, c[a]),
            entry_key(v, c[b]),
        )
}

/// The names and positions of the directory rows directly inside `id`.
fn child_dirs(db: &Database, id: usize) -> (r: Vec<(String, usize)>)
    requires
        db.wf(),
    ensures
        forall|k: int|
            0 <= k < r.len() ==> (#[trigger] r@[k]).1 < db@.dirs.len() && db@.dirs[r@[k].1 as int].parent
                == Some(id) && r@[k].0@ == db@.dirs[r@[k].1 as int].name,
        forall|i: int|
            0 <= i < db@.dirs.len() && #[trigger] db@.dirs[i].parent == Some(id) ==> exists|k: int|
                0 <= k < r.len() && (#[trigger] r@[k]).1 == i,
        forall|a: int, b: int|
            0 <= a < r.len() && 0 <= b < r.len() && a != b ==> #[trigger] r@[a].0@ != #[trigger] r@[b].0@,
{
    let mut r: Vec<(String, usize)> = Vec::new();
    let mut i: usize = 0;
    let n = db.dir_count();
    while i < n
        invariant
            db.wf(),
            n == db@.dirs.len(),
            i <= n,
            forall|k: int|
                0 <= k < r.len() ==> (#[trigger] r@[k]).1 < i && db@.dirs[r@[k].1 as int].parent == Some(id)
                    && r@[k].0@ == db@.dirs[r@[k].1 as int].name,
            forall|j: int|
                0 <= j < i && #[trigger] db@.dirs[j].parent == Some(id) ==> exists|k: int|
                    0 <= k < r.len() && (#[trigger] r@[k]).1 == j,
            forall|a: int, b: int| 0 <= a < b < r.len() ==> #[trigger] r@[a].1 < #[trigger] r@[b].1,
        decreases n - i,
    {
        let d = db.dir_at(i);
        if d.parent == Some(id) {
            let ghost before = r@;
            r.push((d.name, i));
            assert(r@[r.len() - 1] == (d.name, i));
            assert forall|j: int| 0 <= j < i + 1 && #[trigger] db@.dirs[j].parent == Some(id) implies exists|k: int|
                0 <= k < r.len() && (#[trigger] r@[k]).1 == j by {
                if j < i {
                    let k = choose|k: int| 0 <= k < before.len() && (#[trigger] before[k]).1 == j;
                    assert(r@[k] == before[k]);
                } else {
                    assert(r@[r.len() - 1].1 == j);
                }
            }
        }
        i = i + 1;
    }
    assert forall|a: int, b: int|
        0 <= a < r.len() && 0 <= b < r.len() && a != b implies #[trigger] r@[a].0@ != #[trigger] r@[b].0@ by {
        let pa = r@[a].1 as int;
        let pb = r@[b].1 as int;
        if a < b {
            assert(pa < pb);
        } else {
            assert(pb < pa);
        }
        assert(db@.dirs[pa].parent == db@.dirs[pb].parent);
        assert(db@.dirs[pa].id != db@.dirs[pb].id);
    }
    r
}

/// The names and positions of the file rows directly inside `id`.
fn child_files(db: &Database, id: usize) -> (r: Vec<(String, usize)>)
    requires
        db.wf(),
    ensures
        forall|k: int|
            0 <= k < r.len() ==> (#[trigger] r@[k]).1 < db@.files.len() && db@.files[r@[k].1 as int].parent
                == Some(id) && r@[k].0@ == db@.files[r@[k].1 as int].name,
        forall|i: int|
            0 <= i < db@.files.len() && #[trigger] db@.files[i].parent == Some(id) ==> exists|k: int|
                0 <= k < r.len() && (#[trigger] r@[k]).1 == i,
        forall|a: int, b: int|
            0 <= a < r.len() && 0 <= b < r.len() && a != b ==> #[trigger] r@[a].0@ != #[trigger] r@[b].0@,
{
    let mut r: Vec<(String, usize)> = Vec::new();
    let mut i: usize = 0;
    let n = db.file_count();
    while i < n
        invariant
            db.wf(),
            n == db@.files.len(),
            i <= n,
            forall|k: int|
                0 <= k < r.len() ==> (#[trigger] r@[k]).1 < i && db@.files[r@[k].1 as int].parent == Some(id)
                    && r@[k].0@ == db@.files[r@[k].1 as int].name,
            forall|j: int|
                0 <= j < i && #[trigger] db@.files[j].parent == Some(id) ==> exists|k: int|
                    0 <= k < r.len() && (#[trigger] r@[k]).1 == j,
            forall|a: int, b: int| 0 <= a < b < r.len() ==> #[trigger] r@[a].1 < #[trigger] r@[b].1,
        decreases n - i,
    {
        let f = db.file_at(i);
        if f.parent == Some(id) {
            let ghost before = r@;
            r.push((f.name, i));
            assert(r@[r.len() - 1] == (f.name, i));
            assert forall|j: int| 0 <= j < i + 1 && #[trigger] db@.files[j].parent == Some(id) implies exists|k: int|
                0 <= k < r.len() && (#[trigger] r@[k]).1 == j by {
                if j < i {
                    let k = choose|k: int| 0 <= k < before.len() && (#[trigger] before[k]).1 == j;
                    assert(r@[k] == before[k]);
                } else {
                    assert(r@[r.len() - 1].1 == j);
                }
            }
        }
        i = i + 1;
    }
    assert forall|a: int, b: int|
        0 <= a < r.len() && 0 <= b < r.len() && a != b implies #[trigger] r@[a].0@ != #[trigger] r@[b].0@ by {
        let pa = r@[a].1 as int;
        let pb = r@[b].1 as int;
        if a < b {
            assert(pa < pb);
        } else {
            assert(pb < pa);
        }
        assert(db@.files[pa].parent == db@.files[pb].parent);
        assert(db@.files[pa].id != db@.files[pb].id);
    }
    r
}

/// The listing of the identified directory: the directories directly in
/// it, then the files directly in it, each sorted by name; `NotFound` when
/// it does not exist.
pub fn content(db: &Database, ident: DirIdentifier) -> (r: Result<Vec<DirContent>, CabinetError>)
    requires
        db.wf(),
    ensures
        r is Ok <==> dir_present(db@, ident),
        r matches Ok(c) ==> listing_ok(db@, dir_target(db@, ident)->0, c@),
        r matches Err(e) ==> e is NotFound,
{
    if !present(db, ident) {
        return Err(CabinetError::NotFound);
    }
    let id = match target_id(db, &ident) {
        Some(id) => id,
        None => {
            return Err(CabinetError::NotFound);
        },
    };
    let cdirs = child_dirs(db, id);
    let ghost ud = cdirs@;
    let dirs = sort_by_name(cdirs);
    let cfiles = child_files(db, id);
    let ghost uf = cfiles@;
    let files = sort_by_name(cfiles);
    proof {
        lemma_sorted_dirs(db@, id, ud, dirs@);
        lemma_sorted_files(db@, id, uf, files@);
    }
    let mut out: Vec<DirContent> = Vec::new();
    let mut k: usize = 0;
    while k < dirs.len()
        invariant
            db.wf(),
            k <= dirs.len(),
            out.len() == k,
            forall|j: int|
                0 <= j < dirs.len() ==> (#[trigger] dirs@[j]).1 < db@.dirs.len() && db@.dirs[dirs@[j].1 as int].parent
                    == Some(id) && dirs@[j].0@ == db@.dirs[dirs@[j].1 as int].name,
            forall|j: int|
                0 <= j < k ==> (#[trigger] out@[j] matches DirContent::Dir(d) && dir_model(d)
                    == db@.dirs[dirs@[j].1 as int]),
        decreases dirs.len() - k,
    {
        let d = db.dir_at(dirs[k].1);
        out.push(DirContent::Dir(d));
        k = k + 1;
    }
    let nd = out.len();
    let mut m: usize = 0;
    while m < files.len()
        invariant
            db.wf(),
            m <= files.len(),
            out.len() == nd + m,
            nd == dirs.len(),
            forall|j: int|
                0 <= j < nd ==> (#[trigger] out@[j] matches DirContent::Dir(d) && dir_model(d)
                    == db@.dirs[dirs@[j].1 as int]),
            forall|j: int|
                0 <= j < files.len() ==> (#[trigger] files@[j]).1 < db@.files.len() && db@.files[files@[j].1 as int].parent
                    == Some(id) && files@[j].0@ == db@.files[files@[j].1 as int].name,
            forall|j: int|
                0 <= j < m ==> (#[trigger] out@[nd + j] matches DirContent::File(f) && f.id
                    == db@.files[files@[j].1 as int].id && shows_row(db@, f, db@.files[files@[j].1 as int])),
        decreases files.len() - m,
    {
        let p = files[m].1;
        let row = db.file_at(p);
        proof {
            assert(db@.files_wf());
            assert(db@.parent_ok(db@.files[p as int].parent));
        }
        let path = full_path_of(db, row.parent, &row.name);
        let f = File { id: row.id, path, content: row.content, mode: row.mode, modified: row.modified };
        let ghost before = out@;
        out.push(DirContent::File(f));
        assert forall|j: int| 0 <= j < nd implies (#[trigger] out@[j] matches DirContent::Dir(d) && dir_model(d)
            == db@.dirs[dirs@[j].1 as int]) by {
            assert(out@[j] == before[j]);
        }
        assert forall|j: int| 0 <= j < m + 1 implies (#[trigger] out@[nd + j] matches DirContent::File(f) && f.id
            == db@.files[files@[j].1 as int].id && shows_row(db@, f, db@.files[files@[j].1 as int])) by {
            if j < m {
                assert(out@[nd + j] == before[nd + j]);
            }
        }
        m = m + 1;
    }
    proof {
        lemma_listing(db@, id, dirs@, files@, out@);
    }
    Ok(out)
}

/// Sorted, the children keep what is known of each and all are there.
proof fn lemma_sorted_dirs(v: DatabaseView, id: usize, ud: Seq<(String, usize)>, sd: Seq<(String, usize)>)
    requires
        forall|k: int|
            0 <= k < ud.len() ==> (#[trigger] ud[k]).1 < v.dirs.len() && v.dirs[ud[k].1 as int].parent
                == Some(id) && ud[k].0@ == v.dirs[ud[k].1 as int].name,
        forall|i: int|
            0 <= i < v.dirs.len() && #[trigger] v.dirs[i].parent == Some(id) ==> exists|k: int|
                0 <= k < ud.len() && (#[trigger] ud[k]).1 == i,
        forall|x: (String, usize)| sd.contains(x) <==> ud.contains(x),
    ensures
        forall|j: int|
            0 <= j < sd.len() ==> (#[trigger] sd[j]).1 < v.dirs.len() && v.dirs[sd[j].1 as int].parent
                == Some(id) && sd[j].0@ == v.dirs[sd[j].1 as int].name,
        forall|i: int|
            0 <= i < v.dirs.len() && #[trigger] v.dirs[i].parent == Some(id) ==> exists|k: int|
                0 <= k < sd.len() && (#[trigger] sd[k]).1 == i,
{
    assert forall|j: int| 0 <= j < sd.len() implies (#[trigger] sd[j]).1 < v.dirs.len() && v.dirs[sd[j].1 as int].parent
        == Some(id) && sd[j].0@ == v.dirs[sd[j].1 as int].name by {
        assert(sd.contains(sd[j]));
        let k = choose|k: int| 0 <= k < ud.len() && ud[k] == sd[j];
        assert(ud[k] == sd[j]);
    }
    assert forall|i: int| 0 <= i < v.dirs.len() && #[trigger] v.dirs[i].parent == Some(id) implies exists|k: int|
        0 <= k < sd.len() && (#[trigger] sd[k]).1 == i by {
        let k = choose|k: int| 0 <= k < ud.len() && (#[trigger] ud[k]).1 == i;
        assert(ud.contains(ud[k]));
        let k2 = choose|k2: int| 0 <= k2 < sd.len() && sd[k2] == ud[k];
        assert(sd[k2].1 == i);
    }
}

/// Sorted, the children keep what is known of each and all are there.
proof fn lemma_sorted_files(v: DatabaseView, id: usize, uf: Seq<(String, usize)>, sf: Seq<(String, usize)>)
    requires
        forall|k: int|
            0 <= k < uf.len() ==> (#[trigger] uf[k]).1 < v.files.len() && v.files[uf[k].1 as int].parent
                == Some(id) && uf[k].0@ == v.files[uf[k].1 as int].name,
        forall|i: int|
            0 <= i < v.files.len() && #[trigger] v.files[i].parent == Some(id) ==> exists|k: int|
                0 <= k < uf.len() && (#[trigger] uf[k]).1 == i,
        forall|x: (String, usize)| sf.contains(x) <==> uf.contains(x),
    ensures
        forall|j: int|
            0 <= j < sf.len() ==> (#[trigger] sf[j]).1 < v.files.len() && v.files[sf[j].1 as int].parent
                == Some(id) && sf[j].0@ == v.files[sf[j].1 as int].name,
        forall|i: int|
            0 <= i < v.files.len() && #[trigger] v.files[i].parent == Some(id) ==> exists|k: int|
                0 <= k < sf.len() && (#[trigger] sf[k]).1 == i,
{
    assert forall|j: int| 0 <= j < sf.len() implies (#[trigger] sf[j]).1 < v.files.len() && v.files[sf[j].1 as int].parent
        == Some(id) && sf[j].0@ == v.files[sf[j].1 as int].name by {
        assert(sf.contains(sf[j]));
        let k = choose|k: int| 0 <= k < uf.len() && uf[k] == sf[j];
        assert(uf[k] == sf[j]);
    }
    assert forall|i: int| 0 <= i < v.files.len() && #[trigger] v.files[i].parent == Some(id) implies exists|k: int|
        0 <= k < sf.len() && (#[trigger] sf[k]).1 == i by {
        let k = choose|k: int| 0 <= k < uf.len() && (#[trigger] uf[k]).1 == i;
        assert(uf.contains(uf[k]));
        let k2 = choose|k2: int| 0 <= k2 < sf.len() && sf[k2] == uf[k];
        assert(sf[k2].1 == i);
    }
}

/// Entries built from the sorted children make a listing of the directory.
proof fn lemma_listing(
    v: DatabaseView,
    id: usize,
    dirs: Seq<(String, usize)>,
    files: Seq<(String, usize)>,
    c: Seq<DirContent>,
)
    requires
        v.wf(),
        c.len() == dirs.len() + files.len(),
        sorted_by_name(dirs),
        sorted_by_name(files),
        forall|j: int|
            0 <= j < dirs.len() ==> (#[trigger] dirs[j]).1 < v.dirs.len() && v.dirs[dirs[j].1 as int].parent
                == Some(id) && dirs[j].0@ == v.dirs[dirs[j].1 as int].name,
        forall|i: int|
            0 <= i < v.dirs.len() && #[trigger] v.dirs[i].parent == Some(id) ==> exists|k: int|
                0 <= k < dirs.len() && (#[trigger] dirs[k]).1 == i,
        forall|j: int|
            0 <= j < files.len() ==> (#[trigger] files[j]).1 < v.files.len() && v.files[files[j].1 as int].parent
                == Some(id) && files[j].0@ == v.files[files[j].1 as int].name,
        forall|i: int|
            0 <= i < v.files.len() && #[trigger] v.files[i].parent == Some(id) ==> exists|k: int|
                0 <= k < files.len() && (#[trigger] files[k]).1 == i,
        forall|j: int|
            0 <= j < dirs.len() ==> (#[trigger] c[j] matches DirContent::Dir(d) && dir_model(d)
                == v.dirs[dirs[j].1 as int]),
        forall|j: int|
            0 <= j < files.len() ==> (#[trigger] c[dirs.len() + j] matches DirContent::File(f) && f.id
                == v.files[files[j].1 as int].id && shows_row(v, f, v.files[files[j].1 as int])),
    ensures
        listing_ok(v, id, c),
{
    let nd = dirs.len() as int;
    assert forall|j: int| 0 <= j < files.len() implies file_by_id(v.files, v.files[(#[trigger] files[j]).1 as int].id)
        == Some(v.files[files[j].1 as int]) by {
        lemma_file_by_id_at(v, files[j].1 as int);
    }
    assert forall|k: int| 0 <= k < c.len() implies match #[trigger] c[k] {
        DirContent::Dir(d) => v.dirs.contains(dir_model(d)) && d.parent == Some(id),
        DirContent::File(f) => file_by_id(v.files, f.id) matches Some(row) && (row.parent == Some(id)
            && shows_row(v, f, row)),
    } by {
        if k < nd {
            assert(dirs[k].1 < v.dirs.len());
            assert(v.dirs[dirs[k].1 as int] == v.dirs[dirs[k].1 as int]);
        } else {
            let j = k - nd;
            assert(c[nd + j] == c[k]);
            assert(files[j].1 < v.files.len());
        }
    }
    assert forall|a: int, b: int| 0 <= a < b < c.len() && #[trigger] c[a] is File implies #[trigger] c[b] is File by {
        if a < nd {
            assert(c[a] is Dir);
        } else {
            assert(c[nd + (b - nd)] == c[b]);
        }
    }
    assert forall|i: int| 0 <= i < v.dirs.len() && #[trigger] v.dirs[i].parent == Some(id) implies exists|k: int|
        0 <= k < c.len() && (#[trigger] c[k] matches DirContent::Dir(d) && dir_model(d) == v.dirs[i]) by {
        let k = choose|k: int| 0 <= k < dirs.len() && (#[trigger] dirs[k]).1 == i;
        assert(c[k] matches DirContent::Dir(d) && dir_model(d) == v.dirs[i]);
    }
    assert forall|i: int| 0 <= i < v.files.len() && #[trigger] v.files[i].parent == Some(id) implies exists|k: int|
        0 <= k < c.len() && (#[trigger] c[k] matches DirContent::File(f) && f.id == v.files[i].id) by {
        let k = choose|k: int| 0 <= k < files.len() && (#[trigger] files[k]).1 == i;
        assert(c[nd + k] matches DirContent::File(f) && f.id == v.files[i].id);
    }
    assert forall|a: int, b: int|
        0 <= a < b < c.len() && (#[trigger] c[a] is Dir) == (#[trigger] c[b] is Dir) implies name_lt(
        entry_key(v, c[a]),
        entry_key(v, c[b]),
    ) by {
        if b < nd {
            assert(name_lt(dirs[a].0@, dirs[b].0@));
        } else if a >= nd {
            let ja = a - nd;
            let jb = b - nd;
            assert(c[nd + ja] == c[a]);
            assert(c[nd + jb] == c[b]);
            assert(name_lt(files[ja].0@, files[jb].0@));
        } else {
            assert(c[a] is Dir);
            assert(c[nd + (b - nd)] == c[b]);
        }
    }
}

} // verus!
