//! Files: rows keyed by directory and name, whose full paths are derived
//! from the directory chain above them.
use vstd::prelude::*;

use crate::database::dir::{dirs_grown, ensure_components, resolve_components, resolved};
use crate::database::{
    file_lookup, lemma_file_lookup_at, Database, DatabaseView, DirModel, FileModel,
};
use crate::file::{File, NewFile};
use crate::path::{
    is_file_path, is_normal, last_segment, parent_components,
    split_last, string_views,
};
use crate::CabinetError;

verus! {

/// The directory row with id `id`, if any.
pub open spec fn dir_by_id(dirs: Seq<DirModel>, id: usize) -> Option<DirModel> {
    if exists|i: int| 0 <= i < dirs.len() && dirs[i].id == id {
        Some(dirs[choose|i: int| 0 <= i < dirs.len() && dirs[i].id == id])
    } else {
        None
    }
}

/// The file row with id `id`, if any.
pub open spec fn file_by_id(files: Seq<FileModel>, id: usize) -> Option<FileModel> {
    if exists|i: int| 0 <= i < files.len() && files[i].id == id {
        Some(files[choose|i: int| 0 <= i < files.len() && files[i].id == id])
    } else {
        None
    }
}

/// The path of directory `id`: the names from the root down, joined by `/`.
pub open spec fn dir_path(dirs: Seq<DirModel>, id: usize) -> Seq<char>
    decreases id,
{
    match dir_by_id(dirs, id) {
        Some(d) => match d.parent {
            Some(p) => if p < id {
                dir_path(dirs, p) + seq!['/'] + d.name
            } else {
                d.name
            },
            None => d.name,
        },
        None => Seq::empty(),
    }
}

/// What stands before a name in directory `parent`: its path and a slash,
/// or nothing at the root.
pub open spec fn dir_prefix(dirs: Seq<DirModel>, parent: Option<usize>) -> Seq<char> {
    match parent {
        Some(id) => dir_path(dirs, id) + seq!['/'],
        None => Seq::empty(),
    }
}

/// The full path of an entry named `name` in directory `parent`.
pub open spec fn full_path(dirs: Seq<DirModel>, parent: Option<usize>, name: Seq<char>) -> Seq<char> {
    dir_prefix(dirs, parent) + name
}

/// The id of the file at path `p`, if there is one.
pub open spec fn path_file_id(v: DatabaseView, p: Seq<char>) -> Option<usize> {
    if is_file_path(p) {
        match resolved(v.dirs, parent_components(p)) {
            Some(parent) => file_lookup(v.files, last_segment(p), parent),
            None => None,
        }
    } else {
        None
    }
}

/// `f` shows the file row `row` of `v`, with its derived path.
pub open spec fn shows_row(v: DatabaseView, f: File, row: FileModel) -> bool {
    &&& f.id == row.id
    &&& f.path@ == full_path(v.dirs, row.parent, row.name)
    &&& f.content@ == row.content
    &&& f.mode == row.mode
    &&& f.modified == row.modified
}

pub proof fn lemma_dir_by_id_at(v: DatabaseView, i: int)
    requires
        v.wf(),
        0 <= i < v.dirs.len(),
    ensures
        dir_by_id(v.dirs, v.dirs[i].id) == Some(v.dirs[i]),
{
}

pub proof fn lemma_file_by_id_at(v: DatabaseView, i: int)
    requires
        v.wf(),
        0 <= i < v.files.len(),
    ensures
        file_by_id(v.files, v.files[i].id) == Some(v.files[i]),
{
}

/// The full path of an entry named `name` in directory `parent`, built by
/// walking up the parent chain.
pub fn full_path_of(db: &Database, parent: Option<usize>, name: &String) -> (r: String)
    requires
        db.wf(),
        db@.parent_ok(parent),
    ensures
        r@ == full_path(db@.dirs, parent, name@),
{
    let mut acc = name.clone();
    let mut cur = parent;
    while cur.is_some()
        invariant
            db.wf(),
            db@.parent_ok(cur),
            full_path(db@.dirs, parent, name@) == dir_prefix(db@.dirs, cur) + acc@,
        decreases match cur {
            Some(id) => id as int + 1,
            None => 0,
        },
    {
        let id = cur.unwrap();
        match db.dir_position(id) {
            Some(i) => {
                let d = db.dir_at(i);
                proof {
                    lemma_dir_by_id_at(db@, i as int);
                    assert(db@.dirs[i as int].parent == d.parent);
                }
                let ghost old_acc = acc@;
                proof {
                    reveal_strlit("/");
                }
                let mut s = d.name.clone();
                s.append("/");
                s.append(acc.as_str());
                acc = s;
                assert(dir_path(db@.dirs, id) == dir_prefix(db@.dirs, d.parent) + d.name@) by {
                    if let Some(p) = d.parent {
                        assert(p < id);
                    } else {
                        assert(dir_prefix(db@.dirs, d.parent) + d.name@ =~= d.name@);
                    }
                }
                assert(dir_prefix(db@.dirs, cur) + old_acc =~= dir_prefix(db@.dirs, d.parent) + acc@);
                cur = d.parent;
            },
            None => {
                assert(false);
                cur = None;
            },
        }
    }
    assert(dir_prefix(db@.dirs, cur) + acc@ =~= acc@);
    acc
}

/// A file named by its row id or by its path.
#[derive(Debug, Clone, Copy)]
pub enum FileIdentifier<'a> {
    Id(usize),
    Path(&'a str),
}

/// The row id an identifier names, if any.
pub open spec fn file_target(v: DatabaseView, ident: FileIdentifier) -> Option<usize> {
    match ident {
        FileIdentifier::Id(id) => Some(id),
        FileIdentifier::Path(p) => path_file_id(v, p@),
    }
}

/// The identifier names an existing file row.
pub open spec fn file_present(v: DatabaseView, ident: FileIdentifier) -> bool {
    match file_target(v, ident) {
        Some(id) => v.has_file(id),
        None => false,
    }
}

/// Where the file at `path` goes: its parent directory's names and its own
/// name; `None` when no name can be taken from the path.
fn file_location(path: &str) -> (r: Option<(Vec<String>, String)>)
    ensures
        is_file_path(path@) <==> r is Some,
        r matches Some((dirs, name)) ==> string_views(dirs@) == parent_components(path@) && name@
            == last_segment(path@),
{
    let (dirs, name) = split_last(path);
    let normal = name_is_normal(&name);
    if normal {
        Some((dirs, name))
    } else {
        None
    }
}

fn name_is_normal(name: &String) -> (r: bool)
    ensures
        r == is_normal(name@),
{
    let s = name.as_str();
    let n = s.unicode_len();
    if n == 0 {
        false
    } else if n == 1 {
        let c = s.get_char(0);
        assert(seq!['.'].len() == 1 && seq!['.'][0] == '.');
        if c == '.' {
            assert(name@ =~= seq!['.']);
        }
        c != '.'
    } else if n == 2 {
        let c0 = s.get_char(0);
        let c1 = s.get_char(1);
        assert(seq!['.', '.'].len() == 2 && seq!['.', '.'][0] == '.' && seq!['.', '.'][1] == '.');
        if c0 == '.' && c1 == '.' {
            assert(name@ =~= seq!['.', '.']);
        }
        !(c0 == '.' && c1 == '.')
    } else {
        assert(seq!['.'].len() == 1);
        assert(seq!['.', '.'].len() == 2);
        true
    }
}

/// The id of the file at `path`.
pub fn get_id(db: &Database, path: &str) -> (r: Option<usize>)
    requires
        db.wf(),
    ensures
        r == path_file_id(db@, path@),
{
    match file_location(path) {
        Some((dirs, name)) => match resolve_components(db, &dirs) {
            Some(parent) => db.find_file(&name, parent),
            None => None,
        },
        None => None,
    }
}

impl<'a> FileIdentifier<'a> {
    /// The row id this identifier names, if any.
    pub fn get_id(&self, db: &Database) -> (r: Option<usize>)
        requires
            db.wf(),
        ensures
            r == file_target(db@, *self),
    {
        match self {
            FileIdentifier::Id(id) => Some(*id),
            FileIdentifier::Path(p) => get_id(db, p),
        }
    }
}

/// Whether the identified file exists.
pub fn present(db: &Database, ident: FileIdentifier) -> (r: bool)
    requires
        db.wf(),
    ensures
        r == file_present(db@, ident),
{
    match ident.get_id(db) {
        Some(id) => db.file_position(id).is_some(),
        None => false,
    }
}

/// The identified file, with its full path; `NotFound` when there is none.
pub fn fetch(db: &Database, ident: FileIdentifier) -> (r: Result<File, CabinetError>)
    requires
        db.wf(),
    ensures
        r is Ok <==> file_present(db@, ident),
        r matches Ok(f) ==> file_target(db@, ident) == Some(f.id) && (file_by_id(db@.files, f.id) matches Some(
            row,
        ) && shows_row(db@, f, row)),
        r matches Err(e) ==> e is NotFound,
{
    match ident.get_id(db) {
        Some(id) => match db.file_position(id) {
            Some(i) => {
                let row = db.file_at(i);
                proof {
                    lemma_file_by_id_at(db@, i as int);
                    assert(db@.files_wf());
                    assert(db@.parent_ok(db@.files[i as int].parent));
                }
                let path = full_path_of(db, row.parent, &row.name);
                Ok(File {
                    id: row.id,
                    path,
                    content: row.content,
                    mode: row.mode,
                    modified: row.modified,
                })
            },
            None => Err(CabinetError::NotFound),
        },
        None => Err(CabinetError::NotFound),
    }
}

/// What creating a file at `path` did. Directories missing above it were
/// created; on success the new row, with the next file id, holds what was
/// given. It fails, as an internal error, when no name can be taken from the
/// path, when a file is already there, or when ids are used up.
pub open spec fn create_file_post(
    v0: DatabaseView,
    v1: DatabaseView,
    path: Seq<char>,
    content: Seq<u8>,
    mode: u32,
    modified: u64,
    r: Result<(), CabinetError>,
) -> bool {
    &&& !is_file_path(path) ==> v1 == v0
    &&& is_file_path(path) ==> dirs_grown(v0, v1, parent_components(path))
    &&& v1.boilerplates == v0.boilerplates
    &&& v1.next_boilerplate == v0.next_boilerplate
    &&& match r {
        Ok(_) => {
            &&& is_file_path(path)
            &&& path_file_id(v0, path) is None
            &&& resolved(v1.dirs, parent_components(path)) matches Some(parent)
            &&& v1.files == v0.files.push(
                FileModel {
                    id: v0.next_file,
                    name: last_segment(path),
                    parent,
                    content,
                    mode,
                    modified,
                },
            )
            &&& v1.next_file == v0.next_file + 1
        },
        Err(e) => {
            &&& e is InternalError
            &&& v1.files == v0.files
            &&& v1.next_file == v0.next_file
            &&& !is_file_path(path) || path_file_id(v1, path) is Some || v1.next_dir == usize::MAX
                || v0.next_file == usize::MAX
        },
    }
}

/// Store a new file: its parent directories are resolved, and created where
/// missing, then the row is inserted.
pub fn create(db: &mut Database, file: &NewFile) -> (r: Result<(), CabinetError>)
    requires
        old(db).wf(),
    ensures
        final(db).wf(),
        create_file_post(
            old(db)@,
            final(db)@,
            file.path@,
            file.content@,
            file.mode,
            file.modified,
            r,
        ),
{
    let ghost v0 = db@;
    let (dirs, name) = match file_location(file.path.as_str()) {
        Some(loc) => loc,
        None => {
            return Err(CabinetError::InternalError(String::from_str("no file name in the path")));
        },
    };
    let parent = match ensure_components(db, &dirs) {
        Ok(p) => p,
        Err(e) => {
            return Err(e);
        },
    };
    let ghost v1 = db@;
    proof {
        lemma_parent_exists(v1, string_views(dirs@), parent);
    }
    if db.find_file(&name, parent).is_some() {
        return Err(CabinetError::InternalError(String::from_str("a file already exists at the path")));
    }
    proof {
        if resolved(v0.dirs, parent_components(file.path@)) is Some {
            assert(v1 == v0);
        }
        assert(path_file_id(v0, file.path@) is None);
    }
    match db.insert_file(name, parent, crate::database::copy_bytes(&file.content), file.mode, file.modified) {
        Some(_) => {
            Ok(())
        },
        None => Err(CabinetError::InternalError(String::from_str("file ids are used up"))),
    }
}

/// The directory a resolved path leads to is the root or a row of the table.
pub proof fn lemma_parent_exists(v: DatabaseView, cs: Seq<Seq<char>>, parent: Option<usize>)
    requires
        v.wf(),
        resolved(v.dirs, cs) == Some(parent),
    ensures
        v.parent_ok(parent),
{
    assert(cs.take(cs.len() as int) =~= cs);
    crate::database::dir::lemma_dir_lookup_parent_exists(v, cs, cs.len() as int, parent);
}

/// What updating file `id` to lie at `path` with the given content did.
/// An absent id is `NotFound` with nothing changed; otherwise directories
/// missing above `path` were created, and on success the row keeps its id
/// and holds what was given. It fails, as an internal error, when no name
/// can be taken from the path, when another file is there, or when ids are
/// used up.
pub open spec fn update_file_post(
    v0: DatabaseView,
    v1: DatabaseView,
    id: usize,
    path: Seq<char>,
    content: Seq<u8>,
    mode: u32,
    modified: u64,
    r: Result<(), CabinetError>,
) -> bool {
    &&& !v0.has_file(id) ==> v1 == v0 && r == Err::<(), CabinetError>(CabinetError::NotFound)
    &&& v0.has_file(id) && !is_file_path(path) ==> v1 == v0
    &&& v0.has_file(id) && is_file_path(path) ==> dirs_grown(v0, v1, parent_components(path))
    &&& v1.boilerplates == v0.boilerplates
    &&& v1.next_boilerplate == v0.next_boilerplate
    &&& v1.next_file == v0.next_file
    &&& match r {
        Ok(_) => {
            &&& is_file_path(path)
            &&& resolved(v1.dirs, parent_components(path)) matches Some(parent)
            &&& exists|i: int|
                0 <= i < v0.files.len() && v0.files[i].id == id && v1.files == v0.files.update(
                    i,
                    FileModel { id, name: last_segment(path), parent, content, mode, modified },
                )
        },
        Err(e) => {
            &&& v1.files == v0.files
            &&& e is NotFound <==> !v0.has_file(id)
            &&& e is NotFound || e is InternalError
            &&& e is InternalError ==> !is_file_path(path) || v1.next_dir == usize::MAX || (path_file_id(v1, path) matches Some(
                other,
            ) && other != id)
        },
    }
}

/// Overwrite the row of `file.id`: it may move to another directory, which
/// is created where missing, and its content is replaced.
pub fn update(db: &mut Database, file: &File) -> (r: Result<(), CabinetError>)
    requires
        old(db).wf(),
    ensures
        final(db).wf(),
        update_file_post(
            old(db)@,
            final(db)@,
            file.id,
            file.path@,
            file.content@,
            file.mode,
            file.modified,
            r,
        ),
{
    if db.file_position(file.id).is_none() {
        return Err(CabinetError::NotFound);
    }
    let (dirs, name) = match file_location(file.path.as_str()) {
        Some(loc) => loc,
        None => {
            return Err(CabinetError::InternalError(String::from_str("no file name in the path")));
        },
    };
    let parent = match ensure_components(db, &dirs) {
        Ok(p) => p,
        Err(e) => {
            return Err(e);
        },
    };
    let ghost v1 = db@;
    proof {
        lemma_parent_exists(v1, string_views(dirs@), parent);
    }
    match db.find_file(&name, parent) {
        Some(other) => {
            if other != file.id {
                return Err(CabinetError::InternalError(String::from_str("another file exists at the path")));
            }
        },
        None => {},
    }
    match db.file_position(file.id) {
        Some(i) => {
            db.replace_file_at(
                i,
                name,
                parent,
                crate::database::copy_bytes(&file.content),
                file.mode,
                file.modified,
            );
            Ok(())
        },
        None => Err(CabinetError::NotFound),
    }
}

/// Delete the identified file's row and return the number of rows deleted.
/// The caller sees to it that no boilerplate maps the file.
pub fn delete(db: &mut Database, ident: FileIdentifier) -> (r: Result<usize, CabinetError>)
    requires
        old(db).wf(),
        file_target(old(db)@, ident) matches Some(id) ==> !old(db)@.is_referenced(id),
    ensures
        final(db).wf(),
        file_target(old(db)@, ident) is None ==> r == Err::<usize, CabinetError>(CabinetError::NotFound)
            && final(db)@ == old(db)@,
        file_present(old(db)@, ident) ==> r == Ok::<usize, CabinetError>(1) && exists|i: int|
            0 <= i < old(db)@.files.len() && Some(old(db)@.files[i].id) == file_target(old(db)@, ident)
                && final(db)@ == (DatabaseView { files: old(db)@.files.remove(i), ..old(db)@ }),
        file_target(old(db)@, ident) is Some && !file_present(old(db)@, ident) ==> r == Ok::<
            usize,
            CabinetError,
        >(0) && final(db)@ == old(db)@,
{
    match ident.get_id(db) {
        Some(id) => match db.file_position(id) {
            Some(i) => {
                db.remove_file_at(i);
                Ok(1)
            },
            None => Ok(0),
        },
        None => Err(CabinetError::NotFound),
    }
}

/// The number of file rows.
pub fn count(db: &Database) -> (r: usize)
    ensures
        r == db@.files.len(),
{
    db.file_count()
}

/// After a file is created at a path, that path leads to a file whose
/// content is the content given, so its entity tag is the digest of it.
pub proof fn lemma_create_then_fetch(
    v0: DatabaseView,
    v1: DatabaseView,
    path: Seq<char>,
    content: Seq<u8>,
    mode: u32,
    modified: u64,
    r: Result<(), CabinetError>,
)
    requires
        v1.wf(),
        create_file_post(v0, v1, path, content, mode, modified, r),
        r is Ok,
    ensures
        path_file_id(v1, path) == Some(v0.next_file),
        file_by_id(v1.files, v0.next_file) matches Some(row) && (row.content == content
            && crate::file::etag_of(row.content) == crate::file::etag_of(content) && row.mode == mode
            && row.modified == modified),
{
    let last = v1.files.len() - 1;
    assert(v1.files[last].id == v0.next_file);
    lemma_file_lookup_at(v1, last);
    lemma_file_by_id_at(v1, last);
}

} // verus!
