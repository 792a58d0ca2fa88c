//! The relational tables behind the store: directories, files, boilerplates
//! and the mappings from boilerplates to files.
//!
//! This module owns the rows and keeps the tables well formed; the modules
//! below it build the path-addressed operations on top of these primitives.
use vstd::prelude::*;

use crate::dir::Directory;

pub mod boilerplate;
pub mod dir;
pub mod file;

verus! {

/// A directory row, as the contracts see it.
pub struct DirModel {
    pub id: usize,
    pub name: Seq<char>,
    pub parent: Option<usize>,
}

/// A file row, as the contracts see it.
pub struct FileModel {
    pub id: usize,
    pub name: Seq<char>,
    pub parent: Option<usize>,
    pub content: Seq<u8>,
    pub mode: u32,
    pub modified: u64,
}

/// A boilerplate row, as the contracts see it, with its mappings: each
/// pairs a location on the client with the id of the file placed there.
pub struct BoilerplateModel {
    pub id: usize,
    pub name: Seq<char>,
    pub modified: u64,
    pub script: Option<Seq<char>>,
    pub files: Seq<(Seq<char>, usize)>,
}

/// The whole content of the tables, with the next id each table hands out.
pub struct DatabaseView {
    pub dirs: Seq<DirModel>,
    pub files: Seq<FileModel>,
    pub boilerplates: Seq<BoilerplateModel>,
    pub next_dir: usize,
    pub next_file: usize,
    pub next_boilerplate: usize,
}

pub open spec fn view_of_option_string(s: Option<String>) -> Option<Seq<char>> {
    match s {
        Some(t) => Some(t@),
        None => None,
    }
}

pub open spec fn dir_model(d: Directory) -> DirModel {
    DirModel { id: d.id, name: d.name@, parent: d.parent }
}

impl DatabaseView {
    pub open spec fn has_dir(self, id: usize) -> bool {
        exists|i: int| 0 <= i < self.dirs.len() && #[trigger] self.dirs[i].id == id
    }

    pub open spec fn has_file(self, id: usize) -> bool {
        exists|i: int| 0 <= i < self.files.len() && #[trigger] self.files[i].id == id
    }

    pub open spec fn has_boilerplate(self, id: usize) -> bool {
        exists|i: int| 0 <= i < self.boilerplates.len() && #[trigger] self.boilerplates[i].id == id
    }

    /// Some directory or file has `id` as its parent.
    pub open spec fn has_children(self, id: usize) -> bool {
        (exists|i: int| 0 <= i < self.dirs.len() && #[trigger] self.dirs[i].parent == Some(id))
            || (exists|i: int|
            0 <= i < self.files.len() && #[trigger] self.files[i].parent == Some(id))
    }

    /// Some boilerplate maps the file `id`.
    pub open spec fn is_referenced(self, id: usize) -> bool {
        exists|i: int, k: int|
            0 <= i < self.boilerplates.len() && 0 <= k < self.boilerplates[i].files.len()
                && #[trigger] self.boilerplates[i].files[k].1 == id
    }

    /// Mappings name existing files, each location at most once.
    pub open spec fn mappings_ok(self, files: Seq<(Seq<char>, usize)>) -> bool {
        &&& forall|k: int| 0 <= k < files.len() ==> self.has_file(#[trigger] files[k].1)
        &&& forall|a: int, b: int|
            0 <= a < files.len() && 0 <= b < files.len() && a != b ==> #[trigger] files[a].0
                != #[trigger] files[b].0
    }

    pub open spec fn parent_ok(self, parent: Option<usize>) -> bool {
        match parent {
            Some(p) => self.has_dir(p),
            None => true,
        }
    }

    pub open spec fn dirs_wf(self) -> bool {
        &&& forall|i: int| 0 <= i < self.dirs.len() ==> #[trigger] self.dirs[i].id < self.next_dir
        &&& forall|i: int|
            0 <= i < self.dirs.len() ==> match #[trigger] self.dirs[i].parent {
                Some(p) => p < self.dirs[i].id && self.has_dir(p),
                None => true,
            }
        &&& forall|i: int, j: int|
            0 <= i < self.dirs.len() && 0 <= j < self.dirs.len() && i != j ==> #[trigger] self.dirs[i].id
                != #[trigger] self.dirs[j].id && !(self.dirs[i].name == self.dirs[j].name
                && self.dirs[i].parent == self.dirs[j].parent)
    }

    pub open spec fn files_wf(self) -> bool {
        &&& forall|i: int| 0 <= i < self.files.len() ==> #[trigger] self.files[i].id < self.next_file
        &&& forall|i: int| 0 <= i < self.files.len() ==> self.parent_ok(#[trigger] self.files[i].parent)
        &&& forall|i: int, j: int|
            0 <= i < self.files.len() && 0 <= j < self.files.len() && i != j ==> #[trigger] self.files[i].id
                != #[trigger] self.files[j].id && !(self.files[i].name == self.files[j].name
                && self.files[i].parent == self.files[j].parent)
    }

    pub open spec fn boilerplates_wf(self) -> bool {
        &&& forall|i: int|
            0 <= i < self.boilerplates.len() ==> #[trigger] self.boilerplates[i].id
                < self.next_boilerplate
        &&& forall|i: int, j: int|
            0 <= i < self.boilerplates.len() && 0 <= j < self.boilerplates.len() && i != j
                ==> #[trigger] self.boilerplates[i].id != #[trigger] self.boilerplates[j].id
                && self.boilerplates[i].name != self.boilerplates[j].name
        &&& forall|i: int|
            0 <= i < self.boilerplates.len() ==> self.mappings_ok(#[trigger] self.boilerplates[i].files)
    }

    /// Ids are unique and below the next id, `(name, parent)` pairs and
    /// boilerplate names are unique, every parent and every mapped file and
    /// boilerplate exists, and a parent's id is below its child's.
    pub open spec fn wf(self) -> bool {
        &&& self.dirs_wf()
        &&& self.files_wf()
        &&& self.boilerplates_wf()
    }
}

/// The id of the directory named `name` under `parent`, if there is one.
pub open spec fn dir_lookup(dirs: Seq<DirModel>, name: Seq<char>, parent: Option<usize>) -> Option<
    usize,
> {
    if exists|i: int| 0 <= i < dirs.len() && dirs[i].name == name && dirs[i].parent == parent {
        let i = choose|i: int| 0 <= i < dirs.len() && dirs[i].name == name && dirs[i].parent == parent;
        Some(dirs[i].id)
    } else {
        None
    }
}

/// The id of the file named `name` under `parent`, if there is one.
pub open spec fn file_lookup(files: Seq<FileModel>, name: Seq<char>, parent: Option<usize>) -> Option<
    usize,
> {
    if exists|i: int| 0 <= i < files.len() && files[i].name == name && files[i].parent == parent {
        let i = choose|i: int|
            0 <= i < files.len() && files[i].name == name && files[i].parent == parent;
        Some(files[i].id)
    } else {
        None
    }
}

/// The id of the boilerplate called `name`, if there is one.
pub open spec fn boilerplate_lookup(bps: Seq<BoilerplateModel>, name: Seq<char>) -> Option<usize> {
    if exists|i: int| 0 <= i < bps.len() && bps[i].name == name {
        let i = choose|i: int| 0 <= i < bps.len() && bps[i].name == name;
        Some(bps[i].id)
    } else {
        None
    }
}

pub proof fn lemma_dir_lookup_at(v: DatabaseView, i: int)
    requires
        v.wf(),
        0 <= i < v.dirs.len(),
    ensures
        dir_lookup(v.dirs, v.dirs[i].name, v.dirs[i].parent) == Some(v.dirs[i].id),
{
}

pub proof fn lemma_file_lookup_at(v: DatabaseView, i: int)
    requires
        v.wf(),
        0 <= i < v.files.len(),
    ensures
        file_lookup(v.files, v.files[i].name, v.files[i].parent) == Some(v.files[i].id),
{
}

pub proof fn lemma_boilerplate_lookup_at(v: DatabaseView, i: int)
    requires
        v.wf(),
        0 <= i < v.boilerplates.len(),
    ensures
        boilerplate_lookup(v.boilerplates, v.boilerplates[i].name) == Some(v.boilerplates[i].id),
{
}

/// A looked-up directory exists and carries the name and parent asked for.
pub proof fn lemma_dir_lookup_some(dirs: Seq<DirModel>, name: Seq<char>, parent: Option<usize>)
    requires
        dir_lookup(dirs, name, parent) is Some,
    ensures
        exists|i: int|
            0 <= i < dirs.len() && dirs[i].name == name && dirs[i].parent == parent && dirs[i].id
                == dir_lookup(dirs, name, parent)->0,
{
}

/// A file row.
pub(crate) struct FileRow {
    pub(crate) id: usize,
    pub(crate) name: String,
    pub(crate) parent: Option<usize>,
    pub(crate) content: Vec<u8>,
    pub(crate) mode: u32,
    pub(crate) modified: u64,
}

/// A boilerplate row with its mappings (client location, file id).
pub(crate) struct BoilerplateRow {
    pub(crate) id: usize,
    pub(crate) name: String,
    pub(crate) modified: u64,
    pub(crate) script: Option<String>,
    pub(crate) files: Vec<(String, usize)>,
}

pub(crate) open spec fn file_model(f: FileRow) -> FileModel {
    FileModel {
        id: f.id,
        name: f.name@,
        parent: f.parent,
        content: f.content@,
        mode: f.mode,
        modified: f.modified,
    }
}

/// The names of the boilerplates `bps`, in order.
pub open spec fn names_of(bps: Seq<BoilerplateModel>) -> Seq<Seq<char>> {
    bps.map_values(|b: BoilerplateModel| b.name)
}

/// The views of mappings held as (location, file id).
pub open spec fn mapping_views(files: Seq<(String, usize)>) -> Seq<(Seq<char>, usize)> {
    files.map_values(|p: (String, usize)| (p.0@, p.1))
}

pub(crate) open spec fn boilerplate_model(b: BoilerplateRow) -> BoilerplateModel {
    BoilerplateModel {
        id: b.id,
        name: b.name@,
        modified: b.modified,
        script: view_of_option_string(b.script),
        files: mapping_views(b.files@),
    }
}

/// A copy of a byte vector.
pub fn copy_bytes(v: &Vec<u8>) -> (r: Vec<u8>)
    ensures
        r@ == v@,
{
    let mut r: Vec<u8> = Vec::new();
    let mut i: usize = 0;
    while i < v.len()
        invariant
            i <= v.len(),
            r@ == v@.take(i as int),
        decreases v.len() - i,
    {
        r.push(v[i]);
        i = i + 1;
        assert(r@ =~= v@.take(i as int));
    }
    assert(v@.take(v.len() as int) =~= v@);
    r
}

/// A copy of an optional string.
pub fn copy_option_string(s: &Option<String>) -> (r: Option<String>)
    ensures
        view_of_option_string(r) == view_of_option_string(*s),
{
    match s {
        Some(t) => Some(t.clone()),
        None => None,
    }
}

/// The store's tables.
pub struct Database {
    dirs: Vec<Directory>,
    files: Vec<FileRow>,
    boilerplates: Vec<BoilerplateRow>,
    next_dir: usize,
    next_file: usize,
    next_boilerplate: usize,
}

impl View for Database {
    type V = DatabaseView;

    closed spec fn view(&self) -> DatabaseView {
        DatabaseView {
            dirs: self.dirs@.map_values(|d: Directory| dir_model(d)),
            files: self.files@.map_values(|f: FileRow| file_model(f)),
            boilerplates: self.boilerplates@.map_values(|b: BoilerplateRow| boilerplate_model(b)),
            next_dir: self.next_dir,
            next_file: self.next_file,
            next_boilerplate: self.next_boilerplate,
        }
    }
}

impl Database {
    pub open spec fn wf(&self) -> bool {
        self@.wf()
    }

    /// A store with empty tables.
    pub fn new() -> (r: Database)
        ensures
            r.wf(),
            r@.dirs.len() == 0,
            r@.files.len() == 0,
            r@.boilerplates.len() == 0,
            r@.next_dir == 1 && r@.next_file == 1 && r@.next_boilerplate == 1,
    {
        let r = Database {
            dirs: Vec::new(),
            files: Vec::new(),
            boilerplates: Vec::new(),
            next_dir: 1,
            next_file: 1,
            next_boilerplate: 1,
        };
        assert(r@.dirs.len() == 0);
        r
    }

    // ----- directories -----
    pub fn dir_count(&self) -> (r: usize)
        ensures
            r == self@.dirs.len(),
    {
        self.dirs.len()
    }

    /// The id of the directory named `name` under `parent`.
    pub(crate) fn find_dir(&self, name: &String, parent: Option<usize>) -> (r: Option<usize>)
        requires
            self.wf(),
        ensures
            r == dir_lookup(self@.dirs, name@, parent),
    {
        let mut i: usize = 0;
        while i < self.dirs.len()
            invariant
                self.wf(),
                i <= self.dirs.len(),
                forall|k: int|
                    0 <= k < i ==> !(#[trigger] self@.dirs[k].name == name@ && self@.dirs[k].parent
                        == parent),
            decreases self.dirs.len() - i,
        {
            let d = &self.dirs[i];
            if d.parent == parent && d.name.eq(name) {
                proof {
                    lemma_dir_lookup_at(self@, i as int);
                }
                return Some(d.id);
            }
            i = i + 1;
        }
        None
    }

    /// The position of the directory row with id `id`.
    pub(crate) fn dir_position(&self, id: usize) -> (r: Option<usize>)
        ensures
            match r {
                Some(i) => i < self@.dirs.len() && self@.dirs[i as int].id == id,
                None => !self@.has_dir(id),
            },
    {
        let mut i: usize = 0;
        while i < self.dirs.len()
            invariant
                i <= self.dirs.len(),
                forall|k: int| 0 <= k < i ==> #[trigger] self@.dirs[k].id != id,
            decreases self.dirs.len() - i,
        {
            if self.dirs[i].id == id {
                return Some(i);
            }
            i = i + 1;
        }
        None
    }

    /// A copy of the directory row at position `i`.
    pub(crate) fn dir_at(&self, i: usize) -> (r: Directory)
        requires
            i < self@.dirs.len(),
        ensures
            dir_model(r) == self@.dirs[i as int],
    {
        let d = &self.dirs[i];
        Directory { id: d.id, name: d.name.clone(), parent: d.parent }
    }

    /// Add a directory row with a fresh id.
    pub(crate) fn insert_dir(&mut self, name: String, parent: Option<usize>) -> (r: Option<usize>)
        requires
            old(self).wf(),
            dir_lookup(old(self)@.dirs, name@, parent) is None,
            old(self)@.parent_ok(parent),
        ensures
            final(self).wf(),
            match r {
                Some(id) => id == old(self)@.next_dir && id < usize::MAX && final(self)@ == (DatabaseView {
                    dirs: old(self)@.dirs.push(DirModel { id, name: name@, parent }),
                    next_dir: (id + 1) as usize,
                    ..old(self)@
                }),
                None => final(self)@ == old(self)@ && old(self)@.next_dir == usize::MAX,
            },
    {
        if self.next_dir == usize::MAX {
            return None;
        }
        let id = self.next_dir;
        let ghost name_v = name@;
        let ghost v0 = self@;
        self.dirs.push(Directory { id, name, parent });
        self.next_dir = id + 1;
        let ghost row = DirModel { id, name: name_v, parent };
        assert(self@.dirs =~= v0.dirs.push(row));
        assert(self@ =~= DatabaseView { dirs: v0.dirs.push(row), next_dir: (id + 1) as usize, ..v0 });
        assert forall|p: usize| v0.has_dir(p) implies self@.has_dir(p) by {
            let k = choose|k: int| 0 <= k < v0.dirs.len() && v0.dirs[k].id == p;
            assert(self@.dirs[k].id == p);
        }
        assert(self@.dirs_wf()) by {
            assert forall|i: int, j: int|
                0 <= i < self@.dirs.len() && 0 <= j < self@.dirs.len() && i != j implies #[trigger] self@.dirs[i].id
                != #[trigger] self@.dirs[j].id && !(self@.dirs[i].name == self@.dirs[j].name
                && self@.dirs[i].parent == self@.dirs[j].parent) by {
                if i == v0.dirs.len() as int {
                    assert(v0.dirs[j].id < v0.next_dir);
                    assert(!(v0.dirs[j].name == name_v && v0.dirs[j].parent == parent));
                } else if j == v0.dirs.len() as int {
                    assert(v0.dirs[i].id < v0.next_dir);
                    assert(!(v0.dirs[i].name == name_v && v0.dirs[i].parent == parent));
                }
            }
            assert forall|i: int| 0 <= i < self@.dirs.len() implies match #[trigger] self@.dirs[i].parent {
                Some(p) => p < self@.dirs[i].id && self@.has_dir(p),
                None => true,
            } by {
                if i == v0.dirs.len() as int {
                    if let Some(p) = parent {
                        let k = choose|k: int| 0 <= k < v0.dirs.len() && v0.dirs[k].id == p;
                        assert(v0.dirs[k].id < v0.next_dir);
                    }
                }
            }
        }
        assert(self@.files_wf());
        assert(self@.boilerplates_wf());
        Some(id)
    }

    /// Whether a directory or file row has `id` as its parent.
    pub(crate) fn has_children(&self, id: usize) -> (r: bool)
        ensures
            r == self@.has_children(id),
    {
        let mut i: usize = 0;
        while i < self.dirs.len()
            invariant
                i <= self.dirs.len(),
                forall|k: int| 0 <= k < i ==> #[trigger] self@.dirs[k].parent != Some(id),
            decreases self.dirs.len() - i,
        {
            if self.dirs[i].parent == Some(id) {
                assert(self@.dirs[i as int].parent == Some(id));
                return true;
            }
            i = i + 1;
        }
        let mut j: usize = 0;
        while j < self.files.len()
            invariant
                j <= self.files.len(),
                forall|k: int| 0 <= k < self@.dirs.len() ==> #[trigger] self@.dirs[k].parent != Some(id),
                forall|k: int| 0 <= k < j ==> #[trigger] self@.files[k].parent != Some(id),
            decreases self.files.len() - j,
        {
            if self.files[j].parent == Some(id) {
                assert(self@.files[j as int].parent == Some(id));
                return true;
            }
            j = j + 1;
        }
        false
    }

    /// Remove the directory row at position `i`; nothing may sit below it.
    pub(crate) fn remove_dir_at(&mut self, i: usize)
        requires
            old(self).wf(),
            i < old(self)@.dirs.len(),
            !old(self)@.has_children(old(self)@.dirs[i as int].id),
        ensures
            final(self).wf(),
            final(self)@ == (DatabaseView { dirs: old(self)@.dirs.remove(i as int), ..old(self)@ }),
    {
        let ghost v0 = self@;
        let ghost gone = v0.dirs[i as int].id;
        self.dirs.remove(i);
        assert(self@.dirs =~= v0.dirs.remove(i as int));
        assert(self@ =~= DatabaseView { dirs: v0.dirs.remove(i as int), ..v0 });
        assert forall|p: usize| v0.has_dir(p) && p != gone implies self@.has_dir(p) by {
            let k = choose|k: int| 0 <= k < v0.dirs.len() && v0.dirs[k].id == p;
            if k < i {
                assert(self@.dirs[k].id == p);
            } else {
                assert(k != i);
                assert(self@.dirs[k - 1].id == p);
            }
        }
        assert forall|k: int| 0 <= k < self@.dirs.len() implies #[trigger] self@.dirs[k].parent != Some(gone) by {
            if k < i {
                assert(v0.dirs[k].parent != Some(gone));
            } else {
                assert(v0.dirs[k + 1].parent != Some(gone));
            }
        }
        assert(self@.dirs_wf()) by {
            assert forall|k: int| 0 <= k < self@.dirs.len() implies #[trigger] self@.dirs[k].id < self@.next_dir by {
                let kk = if k < i { k } else { k + 1 };
                assert(self@.dirs[k] == v0.dirs[kk]);
            }
            assert forall|k: int| 0 <= k < self@.dirs.len() implies match #[trigger] self@.dirs[k].parent {
                Some(p) => p < self@.dirs[k].id && self@.has_dir(p),
                None => true,
            } by {
                let kk = if k < i { k } else { k + 1 };
                assert(self@.dirs[k] == v0.dirs[kk]);
            }
            assert forall|a: int, b: int|
                0 <= a < self@.dirs.len() && 0 <= b < self@.dirs.len() && a != b implies #[trigger] self@.dirs[a].id
                != #[trigger] self@.dirs[b].id && !(self@.dirs[a].name == self@.dirs[b].name
                && self@.dirs[a].parent == self@.dirs[b].parent) by {
                let aa = if a < i { a } else { a + 1 };
                let bb = if b < i { b } else { b + 1 };
                assert(self@.dirs[a] == v0.dirs[aa]);
                assert(self@.dirs[b] == v0.dirs[bb]);
            }
        }
        assert(self@.files_wf()) by {
            assert(self@.files == v0.files);
            assert forall|k: int| 0 <= k < self@.files.len() implies self@.parent_ok(#[trigger] self@.files[k].parent) by {
                assert(v0.files[k].parent != Some(gone));
            }
        }
        assert(self@.boilerplates_wf());
    }

    // ----- files -----
    pub fn file_count(&self) -> (r: usize)
        ensures
            r == self@.files.len(),
    {
        self.files.len()
    }

    /// The id of the file named `name` under `parent`.
    pub(crate) fn find_file(&self, name: &String, parent: Option<usize>) -> (r: Option<usize>)
        requires
            self.wf(),
        ensures
            r == file_lookup(self@.files, name@, parent),
    {
        let mut i: usize = 0;
        while i < self.files.len()
            invariant
                self.wf(),
                i <= self.files.len(),
                forall|k: int|
                    0 <= k < i ==> !(#[trigger] self@.files[k].name == name@ && self@.files[k].parent
                        == parent),
            decreases self.files.len() - i,
        {
            let f = &self.files[i];
            if f.parent == parent && f.name.eq(name) {
                proof {
                    lemma_file_lookup_at(self@, i as int);
                }
                return Some(f.id);
            }
            i = i + 1;
        }
        None
    }

    /// The position of the file row with id `id`.
    pub(crate) fn file_position(&self, id: usize) -> (r: Option<usize>)
        ensures
            match r {
                Some(i) => i < self@.files.len() && self@.files[i as int].id == id,
                None => !self@.has_file(id),
            },
    {
        let mut i: usize = 0;
        while i < self.files.len()
            invariant
                i <= self.files.len(),
                forall|k: int| 0 <= k < i ==> #[trigger] self@.files[k].id != id,
            decreases self.files.len() - i,
        {
            if self.files[i].id == id {
                return Some(i);
            }
            i = i + 1;
        }
        None
    }

    /// A copy of the file row at position `i`.
    pub(crate) fn file_at(&self, i: usize) -> (r: FileRow)
        requires
            i < self@.files.len(),
        ensures
            file_model(r) == self@.files[i as int],
    {
        let f = &self.files[i];
        FileRow {
            id: f.id,
            name: f.name.clone(),
            parent: f.parent,
            content: copy_bytes(&f.content),
            mode: f.mode,
            modified: f.modified,
        }
    }

    /// Add a file row with a fresh id.
    pub(crate) fn insert_file(
        &mut self,
        name: String,
        parent: Option<usize>,
        content: Vec<u8>,
        mode: u32,
        modified: u64,
    ) -> (r: Option<usize>)
        requires
            old(self).wf(),
            file_lookup(old(self)@.files, name@, parent) is None,
            old(self)@.parent_ok(parent),
        ensures
            final(self).wf(),
            match r {
                Some(id) => id == old(self)@.next_file && id < usize::MAX && final(self)@ == (DatabaseView {
                    files: old(self)@.files.push(
                        FileModel { id, name: name@, parent, content: content@, mode, modified },
                    ),
                    next_file: (id + 1) as usize,
                    ..old(self)@
                }),
                None => final(self)@ == old(self)@ && old(self)@.next_file == usize::MAX,
            },
    {
        if self.next_file == usize::MAX {
            return None;
        }
        let id = self.next_file;
        let ghost row = FileModel { id, name: name@, parent, content: content@, mode, modified };
        let ghost v0 = self@;
        self.files.push(FileRow { id, name, parent, content, mode, modified });
        self.next_file = id + 1;
        assert(self@.files =~= v0.files.push(row));
        assert(self@ =~= DatabaseView { files: v0.files.push(row), next_file: (id + 1) as usize, ..v0 });
        assert forall|p: usize| v0.has_file(p) implies self@.has_file(p) by {
            let k = choose|k: int| 0 <= k < v0.files.len() && v0.files[k].id == p;
            assert(self@.files[k].id == p);
        }
        assert(self@.files_wf()) by {
            assert forall|i: int| 0 <= i < self@.files.len() implies #[trigger] self@.files[i].id < self@.next_file by {
                if i < v0.files.len() {
                    assert(self@.files[i] == v0.files[i]);
                }
            }
            assert forall|i: int, j: int|
                0 <= i < self@.files.len() && 0 <= j < self@.files.len() && i != j implies #[trigger] self@.files[i].id
                != #[trigger] self@.files[j].id && !(self@.files[i].name == self@.files[j].name
                && self@.files[i].parent == self@.files[j].parent) by {
                if i == v0.files.len() as int {
                    assert(v0.files[j].id < v0.next_file);
                    assert(!(v0.files[j].name == row.name && v0.files[j].parent == parent));
                } else if j == v0.files.len() as int {
                    assert(v0.files[i].id < v0.next_file);
                    assert(!(v0.files[i].name == row.name && v0.files[i].parent == parent));
                }
            }
        }
        assert(self@.dirs_wf());
        assert(self@.boilerplates_wf());
        Some(id)
    }

    /// Overwrite the file row at position `i`, keeping its id.
    pub(crate) fn replace_file_at(
        &mut self,
        i: usize,
        name: String,
        parent: Option<usize>,
        content: Vec<u8>,
        mode: u32,
        modified: u64,
    )
        requires
            old(self).wf(),
            i < old(self)@.files.len(),
            file_lookup(old(self)@.files, name@, parent) is None || file_lookup(
                old(self)@.files,
                name@,
                parent,
            ) == Some(old(self)@.files[i as int].id),
            old(self)@.parent_ok(parent),
        ensures
            final(self).wf(),
            final(self)@ == (DatabaseView {
                files: old(self)@.files.update(
                    i as int,
                    FileModel {
                        id: old(self)@.files[i as int].id,
                        name: name@,
                        parent,
                        content: content@,
                        mode,
                        modified,
                    },
                ),
                ..old(self)@
            }),
    {
        let ghost v0 = self@;
        let id = self.files[i].id;
        let ghost row = FileModel { id, name: name@, parent, content: content@, mode, modified };
        self.files.set(i, FileRow { id, name, parent, content, mode, modified });
        assert(self@.files =~= v0.files.update(i as int, row));
        assert(self@ =~= DatabaseView { files: v0.files.update(i as int, row), ..v0 });
        assert forall|p: usize| v0.has_file(p) implies self@.has_file(p) by {
            let k = choose|k: int| 0 <= k < v0.files.len() && v0.files[k].id == p;
            assert(self@.files[k].id == p);
        }
        assert(self@.files_wf()) by {
            assert forall|a: int, b: int|
                0 <= a < self@.files.len() && 0 <= b < self@.files.len() && a != b implies #[trigger] self@.files[a].id
                != #[trigger] self@.files[b].id && !(self@.files[a].name == self@.files[b].name
                && self@.files[a].parent == self@.files[b].parent) by {
                if a == i as int {
                    if v0.files[b].name == row.name && v0.files[b].parent == parent {
                        lemma_file_lookup_at(v0, b);
                    }
                } else if b == i as int {
                    if v0.files[a].name == row.name && v0.files[a].parent == parent {
                        lemma_file_lookup_at(v0, a);
                    }
                }
            }
            assert forall|k: int| 0 <= k < self@.files.len() implies #[trigger] self@.files[k].id < self@.next_file by {
                assert(self@.files[k].id == v0.files[k].id);
            }
        }
        assert(self@.dirs_wf());
        assert(self@.boilerplates_wf());
    }

    /// Whether some boilerplate maps file `id`.
    pub(crate) fn is_referenced(&self, id: usize) -> (r: bool)
        ensures
            r == self@.is_referenced(id),
    {
        let mut i: usize = 0;
        while i < self.boilerplates.len()
            invariant
                i <= self.boilerplates.len(),
                forall|a: int, k: int|
                    0 <= a < i && 0 <= k < self@.boilerplates[a].files.len()
                        ==> #[trigger] self@.boilerplates[a].files[k].1 != id,
            decreases self.boilerplates.len() - i,
        {
            let files = &self.boilerplates[i].files;
            let mut k: usize = 0;
            while k < files.len()
                invariant
                    i < self.boilerplates.len(),
                    files == self.boilerplates@[i as int].files,
                    k <= files.len(),
                    forall|a: int, kk: int|
                        0 <= a < i && 0 <= kk < self@.boilerplates[a].files.len()
                            ==> #[trigger] self@.boilerplates[a].files[kk].1 != id,
                    forall|kk: int| 0 <= kk < k ==> #[trigger] self@.boilerplates[i as int].files[kk].1 != id,
                decreases files.len() - k,
            {
                if files[k].1 == id {
                    assert(self@.boilerplates[i as int].files[k as int].1 == id);
                    return true;
                }
                k = k + 1;
            }
            i = i + 1;
        }
        false
    }

    /// Remove the file row at position `i`; no mapping may refer to it.
    pub(crate) fn remove_file_at(&mut self, i: usize)
        requires
            old(self).wf(),
            i < old(self)@.files.len(),
            !old(self)@.is_referenced(old(self)@.files[i as int].id),
        ensures
            final(self).wf(),
            final(self)@ == (DatabaseView { files: old(self)@.files.remove(i as int), ..old(self)@ }),
    {
        let ghost v0 = self@;
        let ghost gone = v0.files[i as int].id;
        self.files.remove(i);
        assert(self@.files =~= v0.files.remove(i as int));
        assert(self@ =~= DatabaseView { files: v0.files.remove(i as int), ..v0 });
        assert forall|p: usize| v0.has_file(p) && p != gone implies self@.has_file(p) by {
            let k = choose|k: int| 0 <= k < v0.files.len() && v0.files[k].id == p;
            if k < i {
                assert(self@.files[k].id == p);
            } else {
                assert(k != i);
                assert(self@.files[k - 1].id == p);
            }
        }
        assert(self@.files_wf()) by {
            assert forall|k: int| 0 <= k < self@.files.len() implies #[trigger] self@.files[k].id < self@.next_file by {
                let kk = if k < i { k } else { k + 1 };
                assert(self@.files[k] == v0.files[kk]);
            }
            assert forall|k: int| 0 <= k < self@.files.len() implies self@.parent_ok(#[trigger] self@.files[k].parent) by {
                let kk = if k < i { k } else { k + 1 };
                assert(self@.files[k] == v0.files[kk]);
            }
            assert forall|a: int, b: int|
                0 <= a < self@.files.len() && 0 <= b < self@.files.len() && a != b implies #[trigger] self@.files[a].id
                != #[trigger] self@.files[b].id && !(self@.files[a].name == self@.files[b].name
                && self@.files[a].parent == self@.files[b].parent) by {
                let aa = if a < i { a } else { a + 1 };
                let bb = if b < i { b } else { b + 1 };
                assert(self@.files[a] == v0.files[aa]);
                assert(self@.files[b] == v0.files[bb]);
            }
        }
        assert(self@.boilerplates_wf()) by {
            assert forall|b: int| 0 <= b < self@.boilerplates.len() implies self@.mappings_ok(#[trigger] self@.boilerplates[b].files) by {
                let fs = v0.boilerplates[b].files;
                assert(v0.mappings_ok(fs));
                assert forall|k: int| 0 <= k < fs.len() implies self@.has_file(#[trigger] fs[k].1) by {
                    assert(fs[k].1 != gone);
                    assert(v0.has_file(fs[k].1));
                }
            }
        }
        assert(self@.dirs_wf());
    }

    // ----- boilerplates -----
    pub fn boilerplate_count(&self) -> (r: usize)
        ensures
            r == self@.boilerplates.len(),
    {
        self.boilerplates.len()
    }

    /// The id of the boilerplate called `name`.
    pub(crate) fn find_boilerplate(&self, name: &String) -> (r: Option<usize>)
        requires
            self.wf(),
        ensures
            r == boilerplate_lookup(self@.boilerplates, name@),
    {
        let mut i: usize = 0;
        while i < self.boilerplates.len()
            invariant
                self.wf(),
                i <= self.boilerplates.len(),
                forall|k: int| 0 <= k < i ==> #[trigger] self@.boilerplates[k].name != name@,
            decreases self.boilerplates.len() - i,
        {
            let b = &self.boilerplates[i];
            if b.name.eq(name) {
                proof {
                    lemma_boilerplate_lookup_at(self@, i as int);
                }
                return Some(b.id);
            }
            i = i + 1;
        }
        None
    }

    /// The position of the boilerplate row with id `id`.
    pub(crate) fn boilerplate_position(&self, id: usize) -> (r: Option<usize>)
        ensures
            match r {
                Some(i) => i < self@.boilerplates.len() && self@.boilerplates[i as int].id == id,
                None => !self@.has_boilerplate(id),
            },
    {
        let mut i: usize = 0;
        while i < self.boilerplates.len()
            invariant
                i <= self.boilerplates.len(),
                forall|k: int| 0 <= k < i ==> #[trigger] self@.boilerplates[k].id != id,
            decreases self.boilerplates.len() - i,
        {
            if self.boilerplates[i].id == id {
                return Some(i);
            }
            i = i + 1;
        }
        None
    }

    /// A copy of the boilerplate row at position `i`.
    pub(crate) fn boilerplate_at(&self, i: usize) -> (r: BoilerplateRow)
        requires
            i < self@.boilerplates.len(),
        ensures
            boilerplate_model(r) == self@.boilerplates[i as int],
    {
        let b = &self.boilerplates[i];
        let mut files: Vec<(String, usize)> = Vec::new();
        let mut k: usize = 0;
        while k < b.files.len()
            invariant
                k <= b.files.len(),
                files@.len() == k,
                mapping_views(files@) == mapping_views(b.files@).take(k as int),
            decreases b.files.len() - k,
        {
            let loc = b.files[k].0.clone();
            let ghost before = files@;
            files.push((loc, b.files[k].1));
            assert(files@ == before.push((loc, b.files@[k as int].1)));
            assert(mapping_views(files@)[k as int] == mapping_views(b.files@)[k as int]);
            k = k + 1;
            assert(mapping_views(files@) =~= mapping_views(b.files@).take(k as int));
        }
        assert(mapping_views(b.files@).take(b.files.len() as int) =~= mapping_views(b.files@));
        BoilerplateRow {
            id: b.id,
            name: b.name.clone(),
            modified: b.modified,
            script: copy_option_string(&b.script),
            files,
        }
    }

    /// Add a boilerplate row with a fresh id.
    pub(crate) fn insert_boilerplate(
        &mut self,
        name: String,
        modified: u64,
        script: Option<String>,
        files: Vec<(String, usize)>,
    ) -> (r: Option<usize>)
        requires
            old(self).wf(),
            boilerplate_lookup(old(self)@.boilerplates, name@) is None,
            old(self)@.mappings_ok(mapping_views(files@)),
        ensures
            final(self).wf(),
            match r {
                Some(id) => id == old(self)@.next_boilerplate && id < usize::MAX && final(self)@ == (
                DatabaseView {
                    boilerplates: old(self)@.boilerplates.push(
                        BoilerplateModel {
                            id,
                            name: name@,
                            modified,
                            script: view_of_option_string(script),
                            files: mapping_views(files@),
                        },
                    ),
                    next_boilerplate: (id + 1) as usize,
                    ..old(self)@
                }),
                None => final(self)@ == old(self)@ && old(self)@.next_boilerplate == usize::MAX,
            },
    {
        if self.next_boilerplate == usize::MAX {
            return None;
        }
        let id = self.next_boilerplate;
        let ghost row = BoilerplateModel {
            id,
            name: name@,
            modified,
            script: view_of_option_string(script),
            files: mapping_views(files@),
        };
        let ghost v0 = self@;
        self.boilerplates.push(BoilerplateRow { id, name, modified, script, files });
        self.next_boilerplate = id + 1;
        assert(self@.boilerplates =~= v0.boilerplates.push(row));
        assert(self@ =~= DatabaseView {
            boilerplates: v0.boilerplates.push(row),
            next_boilerplate: (id + 1) as usize,
            ..v0
        });
        assert(self@.boilerplates_wf()) by {
            assert forall|i: int| 0 <= i < self@.boilerplates.len() implies #[trigger] self@.boilerplates[i].id < self@.next_boilerplate by {
                if i < v0.boilerplates.len() {
                    assert(self@.boilerplates[i] == v0.boilerplates[i]);
                }
            }
            assert forall|i: int, j: int|
                0 <= i < self@.boilerplates.len() && 0 <= j < self@.boilerplates.len() && i != j implies #[trigger] self@.boilerplates[i].id
                != #[trigger] self@.boilerplates[j].id && self@.boilerplates[i].name != self@.boilerplates[j].name by {
                if i == v0.boilerplates.len() as int {
                    assert(v0.boilerplates[j].id < v0.next_boilerplate);
                    assert(v0.boilerplates[j].name != row.name);
                } else if j == v0.boilerplates.len() as int {
                    assert(v0.boilerplates[i].id < v0.next_boilerplate);
                    assert(v0.boilerplates[i].name != row.name);
                }
            }
            assert forall|b: int| 0 <= b < self@.boilerplates.len() implies self@.mappings_ok(#[trigger] self@.boilerplates[b].files) by {
                if b < v0.boilerplates.len() {
                    assert(v0.mappings_ok(v0.boilerplates[b].files));
                }
            }
        }
        assert(self@.dirs_wf());
        assert(self@.files_wf());
        Some(id)
    }

    /// Overwrite the boilerplate row at position `i`, keeping its id.
    pub(crate) fn set_boilerplate_at(
        &mut self,
        i: usize,
        name: String,
        modified: u64,
        script: Option<String>,
        files: Vec<(String, usize)>,
    )
        requires
            old(self).wf(),
            i < old(self)@.boilerplates.len(),
            boilerplate_lookup(old(self)@.boilerplates, name@) is None || boilerplate_lookup(
                old(self)@.boilerplates,
                name@,
            ) == Some(old(self)@.boilerplates[i as int].id),
            old(self)@.mappings_ok(mapping_views(files@)),
        ensures
            final(self).wf(),
            final(self)@ == (DatabaseView {
                boilerplates: old(self)@.boilerplates.update(
                    i as int,
                    BoilerplateModel {
                        id: old(self)@.boilerplates[i as int].id,
                        name: name@,
                        modified,
                        script: view_of_option_string(script),
                        files: mapping_views(files@),
                    },
                ),
                ..old(self)@
            }),
    {
        let ghost v0 = self@;
        let id = self.boilerplates[i].id;
        let ghost row = BoilerplateModel {
            id,
            name: name@,
            modified,
            script: view_of_option_string(script),
            files: mapping_views(files@),
        };
        self.boilerplates.set(i, BoilerplateRow { id, name, modified, script, files });
        assert(self@.boilerplates =~= v0.boilerplates.update(i as int, row));
        assert(self@ =~= DatabaseView { boilerplates: v0.boilerplates.update(i as int, row), ..v0 });
        assert(self@.boilerplates_wf()) by {
            assert forall|k: int| 0 <= k < self@.boilerplates.len() implies #[trigger] self@.boilerplates[k].id < self@.next_boilerplate by {
                assert(self@.boilerplates[k].id == v0.boilerplates[k].id);
            }
            assert forall|a: int, b: int|
                0 <= a < self@.boilerplates.len() && 0 <= b < self@.boilerplates.len() && a != b implies #[trigger] self@.boilerplates[a].id
                != #[trigger] self@.boilerplates[b].id && self@.boilerplates[a].name != self@.boilerplates[b].name by {
                if a == i as int {
                    if v0.boilerplates[b].name == row.name {
                        lemma_boilerplate_lookup_at(v0, b);
                    }
                } else if b == i as int {
                    if v0.boilerplates[a].name == row.name {
                        lemma_boilerplate_lookup_at(v0, a);
                    }
                }
            }
            assert forall|b: int| 0 <= b < self@.boilerplates.len() implies self@.mappings_ok(#[trigger] self@.boilerplates[b].files) by {
                if b != i as int {
                    assert(v0.mappings_ok(v0.boilerplates[b].files));
                }
            }
        }
        assert(self@.dirs_wf());
        assert(self@.files_wf());
    }

    /// Remove the boilerplate row at position `i`, mappings and all.
    pub(crate) fn remove_boilerplate_at(&mut self, i: usize)
        requires
            old(self).wf(),
            i < old(self)@.boilerplates.len(),
        ensures
            final(self).wf(),
            final(self)@ == (DatabaseView {
                boilerplates: old(self)@.boilerplates.remove(i as int),
                ..old(self)@
            }),
    {
        let ghost v0 = self@;
        self.boilerplates.remove(i);
        assert(self@.boilerplates =~= v0.boilerplates.remove(i as int));
        assert(self@ =~= DatabaseView { boilerplates: v0.boilerplates.remove(i as int), ..v0 });
        assert(self@.boilerplates_wf()) by {
            assert forall|k: int| 0 <= k < self@.boilerplates.len() implies #[trigger] self@.boilerplates[k].id < self@.next_boilerplate by {
                let kk = if k < i { k } else { k + 1 };
                assert(self@.boilerplates[k] == v0.boilerplates[kk]);
            }
            assert forall|a: int, b: int|
                0 <= a < self@.boilerplates.len() && 0 <= b < self@.boilerplates.len() && a != b implies #[trigger] self@.boilerplates[a].id
                != #[trigger] self@.boilerplates[b].id && self@.boilerplates[a].name != self@.boilerplates[b].name by {
                let aa = if a < i { a } else { a + 1 };
                let bb = if b < i { b } else { b + 1 };
                assert(self@.boilerplates[a] == v0.boilerplates[aa]);
                assert(self@.boilerplates[b] == v0.boilerplates[bb]);
                assert(aa != bb);
                assert(v0.boilerplates[aa].id != v0.boilerplates[bb].id);
            }
            assert forall|b: int| 0 <= b < self@.boilerplates.len() implies self@.mappings_ok(#[trigger] self@.boilerplates[b].files) by {
                let bb = if b < i { b } else { b + 1 };
                assert(self@.boilerplates[b] == v0.boilerplates[bb]);
                assert(v0.mappings_ok(v0.boilerplates[bb].files));
            }
        }
        assert(self@.dirs_wf());
        assert(self@.files_wf());
    }

    /// The names of all boilerplates, in table order.
    pub(crate) fn boilerplate_names(&self) -> (r: Vec<String>)
        ensures
            crate::path::string_views(r@) == names_of(self@.boilerplates),
    {
        let mut r: Vec<String> = Vec::new();
        let mut i: usize = 0;
        while i < self.boilerplates.len()
            invariant
                i <= self.boilerplates.len(),
                r@.len() == i,
                crate::path::string_views(r@) == names_of(self@.boilerplates).take(i as int),
            decreases self.boilerplates.len() - i,
        {
            let name = self.boilerplates[i].name.clone();
            let ghost before = r@;
            r.push(name);
            assert(r@ == before.push(name));
            assert(crate::path::string_views(r@)[i as int] == names_of(self@.boilerplates)[i as int]);
            i = i + 1;
            assert(crate::path::string_views(r@) =~= names_of(self@.boilerplates).take(i as int));
        }
        assert(names_of(self@.boilerplates).take(i as int) =~= names_of(self@.boilerplates));
        r
    }
}

} // verus!
