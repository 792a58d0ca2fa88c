//! Boilerplates: named rows whose mapping sets are replaced as a whole, all
//! or nothing.
use vstd::prelude::*;

use crate::boilerplate::{distinct_locations, pair_views, Boilerplate, NewBoilerplate};
use crate::database::file::{
    dir_by_id, file_by_id, full_path, full_path_of, get_id as file_get_id, lemma_dir_by_id_at,
    lemma_file_by_id_at, path_file_id,
};
use crate::database::{
    boilerplate_lookup, boilerplate_model, copy_option_string,
    mapping_views, names_of, view_of_option_string, BoilerplateModel, Database, DatabaseView, DirModel,
};
use crate::path::string_views;
use crate::CabinetError;

verus! {

/// Every server path of `files` leads to a stored file.
pub open spec fn all_present(v: DatabaseView, files: Seq<(Seq<char>, Seq<char>)>) -> bool {
    forall|k: int| 0 <= k < files.len() ==> path_file_id(v, #[trigger] files[k].1) is Some
}

/// The server path of entry `k` of `files` is the first that leads nowhere.
pub open spec fn first_missing(v: DatabaseView, files: Seq<(Seq<char>, Seq<char>)>, k: int) -> bool {
    &&& 0 <= k < files.len()
    &&& path_file_id(v, files[k].1) is None
    &&& forall|j: int| 0 <= j < k ==> path_file_id(v, #[trigger] files[j].1) is Some
}

/// The mappings `files` with each server path replaced by its file's id.
pub open spec fn resolved_mappings(v: DatabaseView, files: Seq<(Seq<char>, Seq<char>)>) -> Seq<
    (Seq<char>, usize),
> {
    files.map_values(|p: (Seq<char>, Seq<char>)| (p.0, path_file_id(v, p.1)->0))
}

/// The reason given for a mapping to the missing server path `p`.
pub open spec fn missing_message(p: Seq<char>) -> Seq<char> {
    "Boilerplate references non-existing file: "@ + p
}

/// The full path of file `id`.
pub open spec fn file_path_of(v: DatabaseView, id: usize) -> Seq<char> {
    match file_by_id(v.files, id) {
        Some(f) => full_path(v.dirs, f.parent, f.name),
        None => Seq::empty(),
    }
}

/// The mappings of a boilerplate row, with full server paths.
pub open spec fn shown_mappings(v: DatabaseView, files: Seq<(Seq<char>, usize)>) -> Seq<
    (Seq<char>, Seq<char>),
> {
    files.map_values(|m: (Seq<char>, usize)| (m.0, file_path_of(v, m.1)))
}

/// The boilerplate row with id `id`, if any.
pub open spec fn boilerplate_by_id(bps: Seq<BoilerplateModel>, id: usize) -> Option<BoilerplateModel> {
    if exists|i: int| 0 <= i < bps.len() && bps[i].id == id {
        Some(bps[choose|i: int| 0 <= i < bps.len() && bps[i].id == id])
    } else {
        None
    }
}

/// Some mapping of `b` places file `file`.
pub open spec fn maps_file(b: BoilerplateModel, file: usize) -> bool {
    exists|k: int| 0 <= k < b.files.len() && #[trigger] b.files[k].1 == file
}

/// The names of the boilerplates in `bps` that map file `file`, in order.
pub open spec fn users_of(bps: Seq<BoilerplateModel>, file: usize) -> Seq<Seq<char>>
    decreases bps.len(),
{
    if bps.len() == 0 {
        Seq::empty()
    } else if maps_file(bps.last(), file) {
        users_of(bps.drop_last(), file).push(bps.last().name)
    } else {
        users_of(bps.drop_last(), file)
    }
}

/// A file that a path leads to is a row of the table.
pub proof fn lemma_path_file_exists(v: DatabaseView, p: Seq<char>)
    requires
        path_file_id(v, p) is Some,
    ensures
        v.has_file(path_file_id(v, p)->0),
{
}

/// Boilerplates use a file exactly when some mapping places it.
pub proof fn lemma_users_iff_referenced(v: DatabaseView, file: usize)
    ensures
        users_of(v.boilerplates, file).len() > 0 <==> v.is_referenced(file),
{
    lemma_users_nonempty(v.boilerplates, file);
    if v.is_referenced(file) {
        let (i, k) = choose|i: int, k: int|
            0 <= i < v.boilerplates.len() && 0 <= k < v.boilerplates[i].files.len()
                && #[trigger] v.boilerplates[i].files[k].1 == file;
        assert(maps_file(v.boilerplates[i], file));
    }
    if users_of(v.boilerplates, file).len() > 0 {
        let i = choose|i: int| 0 <= i < v.boilerplates.len() && maps_file(v.boilerplates[i], file);
        let k = choose|k: int| 0 <= k < v.boilerplates[i].files.len() && #[trigger] v.boilerplates[i].files[k].1 == file;
        assert(v.boilerplates[i].files[k].1 == file);
    }
}

proof fn lemma_users_nonempty(bps: Seq<BoilerplateModel>, file: usize)
    ensures
        users_of(bps, file).len() > 0 <==> exists|i: int| 0 <= i < bps.len() && maps_file(bps[i], file),
    decreases bps.len(),
{
    if bps.len() > 0 {
        lemma_users_nonempty(bps.drop_last(), file);
        if exists|i: int| 0 <= i < bps.len() && maps_file(bps[i], file) {
            let i = choose|i: int| 0 <= i < bps.len() && maps_file(bps[i], file);
            if i < bps.len() - 1 {
                assert(bps.drop_last()[i] == bps[i]);
            }
        }
        if exists|i: int| 0 <= i < bps.drop_last().len() && maps_file(bps.drop_last()[i], file) {
            let i = choose|i: int| 0 <= i < bps.drop_last().len() && maps_file(bps.drop_last()[i], file);
            assert(bps[i] == bps.drop_last()[i]);
        }
    }
}

/// The file ids the server paths of `files` lead to, or the reason the
/// first path that leads nowhere is refused.
fn resolve_mappings(db: &Database, files: &Vec<(String, String)>) -> (r: Result<Vec<(String, usize)>, String>)
    requires
        db.wf(),
    ensures
        r matches Ok(m) ==> all_present(db@, pair_views(files@)) && mapping_views(m@)
            == resolved_mappings(db@, pair_views(files@)),
        r matches Err(msg) ==> exists|k: int|
            first_missing(db@, pair_views(files@), k) && msg@ == missing_message(
                pair_views(files@)[k].1,
            ),
{
    let ghost fs = pair_views(files@);
    let mut out: Vec<(String, usize)> = Vec::new();
    let mut i: usize = 0;
    while i < files.len()
        invariant
            db.wf(),
            fs == pair_views(files@),
            i <= files.len(),
            out@.len() == i,
            forall|j: int| 0 <= j < i ==> path_file_id(db@, #[trigger] fs[j].1) is Some,
            mapping_views(out@) == resolved_mappings(db@, fs).take(i as int),
        decreases files.len() - i,
    {
        assert(fs[i as int].1 == files@[i as int].1@);
        match file_get_id(db, files[i].1.as_str()) {
            Some(id) => {
                let loc = files[i].0.clone();
                let ghost before = out@;
                out.push((loc, id));
                assert(out@ == before.push((loc, id)));
                assert(mapping_views(out@)[i as int] == resolved_mappings(db@, fs)[i as int]);
                i = i + 1;
                assert(mapping_views(out@) =~= resolved_mappings(db@, fs).take(i as int));
            },
            None => {
                let mut msg = String::from_str("Boilerplate references non-existing file: ");
                msg.append(files[i].1.as_str());
                assert(first_missing(db@, fs, i as int));
                return Err(msg);
            },
        }
    }
    assert(resolved_mappings(db@, fs).take(i as int) =~= resolved_mappings(db@, fs));
    Ok(out)
}

/// Resolved mappings of distinct locations are valid mappings.
pub proof fn lemma_resolved_mappings_ok(v: DatabaseView, files: Seq<(Seq<char>, Seq<char>)>)
    requires
        all_present(v, files),
        distinct_locations(files),
    ensures
        v.mappings_ok(resolved_mappings(v, files)),
{
    let m = resolved_mappings(v, files);
    assert forall|k: int| 0 <= k < m.len() implies v.has_file(#[trigger] m[k].1) by {
        assert(path_file_id(v, files[k].1) is Some);
        lemma_path_file_exists(v, files[k].1);
    }
    assert forall|a: int, b: int| 0 <= a < m.len() && 0 <= b < m.len() && a != b implies #[trigger] m[a].0
        != #[trigger] m[b].0 by {
        assert(files[a].0 != files[b].0);
    }
}

/// What creating a boilerplate did. On any error nothing changed. A taken
/// name is an internal error; a server path that leads nowhere is a bad
/// request naming the first such path; otherwise the row is added with the
/// next id, its mappings resolved to file ids.
pub open spec fn create_boilerplate_post(
    v0: DatabaseView,
    v1: DatabaseView,
    name: Seq<char>,
    script: Option<Seq<char>>,
    files: Seq<(Seq<char>, Seq<char>)>,
    modified: u64,
    r: Result<usize, CabinetError>,
) -> bool {
    &&& r is Err ==> v1 == v0
    &&& boilerplate_lookup(v0.boilerplates, name) is Some ==> (r matches Err(e) && e is InternalError)
    &&& boilerplate_lookup(v0.boilerplates, name) is None && !all_present(v0, files) ==> (r matches Err(
        CabinetError::BadRequest(m),
    ) && exists|k: int| first_missing(v0, files, k) && m@ == missing_message(files[k].1))
    &&& boilerplate_lookup(v0.boilerplates, name) is None && all_present(v0, files) ==> (r matches Ok(
        id,
    ) && id == v0.next_boilerplate && v1 == (DatabaseView {
        boilerplates: v0.boilerplates.push(
            BoilerplateModel { id, name, modified, script, files: resolved_mappings(v0, files) },
        ),
        next_boilerplate: (id + 1) as usize,
        ..v0
    })) || (r matches Err(e) && e is InternalError && v0.next_boilerplate == usize::MAX)
}

/// Store a new boilerplate, modified at `modified`, with all its mappings,
/// or nothing at all.
pub fn create(db: &mut Database, new: &NewBoilerplate, modified: u64) -> (r: Result<usize, CabinetError>)
    requires
        old(db).wf(),
        distinct_locations(pair_views(new.files@)),
    ensures
        final(db).wf(),
        create_boilerplate_post(
            old(db)@,
            final(db)@,
            new.name@,
            view_of_option_string(new.script),
            pair_views(new.files@),
            modified,
            r,
        ),
{
    if db.find_boilerplate(&new.name).is_some() {
        return Err(CabinetError::InternalError(String::from_str("a boilerplate of that name exists")));
    }
    let files = match resolve_mappings(db, &new.files) {
        Ok(files) => files,
        Err(msg) => {
            return Err(CabinetError::BadRequest(msg));
        },
    };
    proof {
        lemma_resolved_mappings_ok(db@, pair_views(new.files@));
    }
    match db.insert_boilerplate(new.name.clone(), modified, copy_option_string(&new.script), files) {
        Some(id) => Ok(id),
        None => Err(CabinetError::InternalError(String::from_str("boilerplate ids are used up"))),
    }
}

/// What updating boilerplate `id` did. On any error nothing changed. An
/// absent id is `NotFound`; a name taken by another boilerplate is an
/// internal error; a server path that leads nowhere is a bad request naming
/// the first such path; otherwise the row keeps its id and gets the name,
/// time, script and resolved mappings given, its old mappings all dropped.
pub open spec fn update_boilerplate_post(
    v0: DatabaseView,
    v1: DatabaseView,
    id: usize,
    name: Seq<char>,
    script: Option<Seq<char>>,
    files: Seq<(Seq<char>, Seq<char>)>,
    modified: u64,
    r: Result<usize, CabinetError>,
) -> bool {
    let name_free = match boilerplate_lookup(v0.boilerplates, name) {
        Some(other) => other == id,
        None => true,
    };
    &&& r is Err ==> v1 == v0
    &&& !v0.has_boilerplate(id) ==> r == Err::<usize, CabinetError>(CabinetError::NotFound)
    &&& v0.has_boilerplate(id) && !name_free ==> (r matches Err(e) && e is InternalError)
    &&& v0.has_boilerplate(id) && name_free && !all_present(v0, files) ==> (r matches Err(
        CabinetError::BadRequest(m),
    ) && exists|k: int| first_missing(v0, files, k) && m@ == missing_message(files[k].1))
    &&& v0.has_boilerplate(id) && name_free && all_present(v0, files) ==> r == Ok::<
        usize,
        CabinetError,
    >(id) && exists|i: int|
        0 <= i < v0.boilerplates.len() && v0.boilerplates[i].id == id && v1 == (DatabaseView {
            boilerplates: v0.boilerplates.update(
                i,
                BoilerplateModel { id, name, modified, script, files: resolved_mappings(v0, files) },
            ),
            ..v0
        })
}

/// Replace boilerplate `bp.id`'s name, script and whole mapping set, as
/// modified at `modified`, or change nothing at all.
pub fn update(db: &mut Database, bp: &Boilerplate, modified: u64) -> (r: Result<usize, CabinetError>)
    requires
        old(db).wf(),
        distinct_locations(pair_views(bp.files@)),
    ensures
        final(db).wf(),
        update_boilerplate_post(
            old(db)@,
            final(db)@,
            bp.id,
            bp.name@,
            view_of_option_string(bp.script),
            pair_views(bp.files@),
            modified,
            r,
        ),
{
    let i = match db.boilerplate_position(bp.id) {
        Some(i) => i,
        None => {
            return Err(CabinetError::NotFound);
        },
    };
    match db.find_boilerplate(&bp.name) {
        Some(other) => {
            if other != bp.id {
                return Err(CabinetError::InternalError(String::from_str("a boilerplate of that name exists")));
            }
        },
        None => {},
    }
    let files = match resolve_mappings(db, &bp.files) {
        Ok(files) => files,
        Err(msg) => {
            return Err(CabinetError::BadRequest(msg));
        },
    };
    proof {
        lemma_resolved_mappings_ok(db@, pair_views(bp.files@));
    }
    db.set_boilerplate_at(i, bp.name.clone(), modified, copy_option_string(&bp.script), files);
    Ok(bp.id)
}

/// An update that names a missing server path changes nothing: every
/// boilerplate keeps the mapping set it had.
pub proof fn lemma_failed_update_keeps_mappings(
    v0: DatabaseView,
    v1: DatabaseView,
    id: usize,
    name: Seq<char>,
    script: Option<Seq<char>>,
    files: Seq<(Seq<char>, Seq<char>)>,
    modified: u64,
    r: Result<usize, CabinetError>,
)
    requires
        update_boilerplate_post(v0, v1, id, name, script, files, modified, r),
        !all_present(v0, files),
    ensures
        r is Err,
        v1.boilerplates.len() == v0.boilerplates.len(),
        forall|i: int| 0 <= i < v0.boilerplates.len() ==> #[trigger] v1.boilerplates[i].files == v0.boilerplates[i].files,
{
}

/// A boilerplate named by its row id or by its name.
#[derive(Debug, Clone, Copy)]
pub enum BoilerplateIdentifier<'a> {
    Id(usize),
    Name(&'a str),
}

/// The row id an identifier names, if any.
pub open spec fn boilerplate_target(v: DatabaseView, ident: BoilerplateIdentifier) -> Option<usize> {
    match ident {
        BoilerplateIdentifier::Id(id) => Some(id),
        BoilerplateIdentifier::Name(n) => boilerplate_lookup(v.boilerplates, n@),
    }
}

/// The identifier names an existing boilerplate row.
pub open spec fn boilerplate_present(v: DatabaseView, ident: BoilerplateIdentifier) -> bool {
    match boilerplate_target(v, ident) {
        Some(id) => v.has_boilerplate(id),
        None => false,
    }
}

/// The id of the boilerplate called `name`.
pub fn get_id(db: &Database, name: &str) -> (r: Option<usize>)
    requires
        db.wf(),
    ensures
        r == boilerplate_lookup(db@.boilerplates, name@),
{
    db.find_boilerplate(&name.to_owned())
}

fn target_id(db: &Database, ident: &BoilerplateIdentifier) -> (r: Option<usize>)
    requires
        db.wf(),
    ensures
        r == boilerplate_target(db@, *ident),
{
    match ident {
        BoilerplateIdentifier::Id(id) => Some(*id),
        BoilerplateIdentifier::Name(n) => get_id(db, n),
    }
}

/// Whether the identified boilerplate exists.
pub fn present(db: &Database, ident: BoilerplateIdentifier) -> (r: bool)
    requires
        db.wf(),
    ensures
        r == boilerplate_present(db@, ident),
{
    match target_id(db, &ident) {
        Some(id) => db.boilerplate_position(id).is_some(),
        None => false,
    }
}

/// `b` shows the boilerplate row `row` of `v`, with full server paths.
pub open spec fn shows_boilerplate(v: DatabaseView, b: Boilerplate, row: BoilerplateModel) -> bool {
    &&& b.id == row.id
    &&& b.name@ == row.name
    &&& b.modified == row.modified
    &&& view_of_option_string(b.script) == row.script
    &&& pair_views(b.files@) == shown_mappings(v, row.files)
}

/// The identified boilerplate with its mappings; `NotFound` when there is none.
pub fn fetch(db: &Database, ident: BoilerplateIdentifier) -> (r: Result<Boilerplate, CabinetError>)
    requires
        db.wf(),
    ensures
        r is Ok <==> boilerplate_present(db@, ident),
        r matches Ok(b) ==> boilerplate_target(db@, ident) == Some(b.id) && (boilerplate_by_id(
            db@.boilerplates,
            b.id,
        ) matches Some(row) && shows_boilerplate(db@, b, row)),
        r matches Err(e) ==> e is NotFound,
{
    let id = match target_id(db, &ident) {
        Some(id) => id,
        None => {
            return Err(CabinetError::NotFound);
        },
    };
    let i = match db.boilerplate_position(id) {
        Some(i) => i,
        None => {
            return Err(CabinetError::NotFound);
        },
    };
    let row = db.boilerplate_at(i);
    let ghost mrow = db@.boilerplates[i as int];
    proof {
        assert(db@.boilerplates_wf());
        assert(db@.mappings_ok(mrow.files));
    }
    let mut files: Vec<(String, String)> = Vec::new();
    let mut k: usize = 0;
    while k < row.files.len()
        invariant
            db.wf(),
            boilerplate_model(row) == mrow,
            db@.mappings_ok(mrow.files),
            k <= row.files.len(),
            files@.len() == k,
            pair_views(files@) == shown_mappings(db@, mrow.files).take(k as int),
        decreases row.files.len() - k,
    {
        let fid = row.files[k].1;
        assert(mrow.files[k as int].1 == fid);
        assert(db@.has_file(mrow.files[k as int].1));
        match db.file_position(fid) {
            Some(p) => {
                let f = db.file_at(p);
                proof {
                    crate::database::file::lemma_file_by_id_at(db@, p as int);
                    assert(db@.files_wf());
                    assert(db@.parent_ok(db@.files[p as int].parent));
                }
                let path = full_path_of(db, f.parent, &f.name);
                let loc = row.files[k].0.clone();
                let ghost before = files@;
                files.push((loc, path));
                assert(files@ == before.push((loc, path)));
                assert(pair_views(files@)[k as int] == shown_mappings(db@, mrow.files)[k as int]);
                k = k + 1;
                assert(pair_views(files@) =~= shown_mappings(db@, mrow.files).take(k as int));
            },
            None => {
                assert(false);
                k = k + 1;
            },
        }
    }
    assert(shown_mappings(db@, mrow.files).take(k as int) =~= shown_mappings(db@, mrow.files));
    proof {
        crate::database::lemma_boilerplate_lookup_at(db@, i as int);
        assert(boilerplate_by_id(db@.boilerplates, id) == Some(mrow));
    }
    Ok(Boilerplate { id: row.id, name: row.name, modified: row.modified, script: row.script, files })
}

/// Delete the identified boilerplate with its mappings. A name that no
/// boilerplate has is `NotFound`; an absent id deletes nothing.
pub fn delete(db: &mut Database, ident: BoilerplateIdentifier) -> (r: Result<(), CabinetError>)
    requires
        old(db).wf(),
    ensures
        final(db).wf(),
        boilerplate_target(old(db)@, ident) is None ==> r == Err::<(), CabinetError>(
            CabinetError::NotFound,
        ) && final(db)@ == old(db)@,
        boilerplate_present(old(db)@, ident) ==> r is Ok && exists|i: int|
            0 <= i < old(db)@.boilerplates.len() && Some(old(db)@.boilerplates[i].id)
                == boilerplate_target(old(db)@, ident) && final(db)@ == (DatabaseView {
                boilerplates: old(db)@.boilerplates.remove(i),
                ..old(db)@
            }),
        boilerplate_target(old(db)@, ident) is Some && !boilerplate_present(old(db)@, ident) ==> r is Ok
            && final(db)@ == old(db)@,
{
    match target_id(db, &ident) {
        Some(id) => {
            match db.boilerplate_position(id) {
                Some(i) => db.remove_boilerplate_at(i),
                None => {},
            }
            Ok(())
        },
        None => Err(CabinetError::NotFound),
    }
}

/// The names of the boilerplates that map file `file_id`, in table order.
pub fn file_used_in_boilerplates(db: &Database, file_id: usize) -> (r: Vec<String>)
    requires
        db.wf(),
    ensures
        string_views(r@) == users_of(db@.boilerplates, file_id),
{
    let n = db.boilerplate_count();
    let mut names: Vec<String> = Vec::new();
    let mut i: usize = 0;
    assert(db@.boilerplates.take(0) =~= Seq::<BoilerplateModel>::empty());
    while i < n
        invariant
            db.wf(),
            n == db@.boilerplates.len(),
            i <= n,
            string_views(names@) == users_of(db@.boilerplates.take(i as int), file_id),
        decreases n - i,
    {
        let row = db.boilerplate_at(i);
        let ghost b = db@.boilerplates[i as int];
        assert(db@.boilerplates.take(i + 1).drop_last() =~= db@.boilerplates.take(i as int));
        assert(db@.boilerplates.take(i + 1).last() == b);
        let mut found = false;
        let mut k: usize = 0;
        while k < row.files.len()
            invariant
                boilerplate_model(row) == b,
                k <= row.files.len(),
                found <==> exists|kk: int| 0 <= kk < k && #[trigger] b.files[kk].1 == file_id,
            decreases row.files.len() - k,
        {
            assert(b.files[k as int].1 == row.files@[k as int].1);
            if row.files[k].1 == file_id {
                found = true;
            }
            k = k + 1;
        }
        if found {
            let ghost before = names@;
            names.push(row.name);
            assert(string_views(names@) =~= string_views(before).push(b.name));
        }
        i = i + 1;
    }
    assert(db@.boilerplates.take(n as int) =~= db@.boilerplates);
    names
}

/// The names of all boilerplates.
pub fn all_names(db: &Database) -> (r: Vec<String>)
    ensures
        string_views(r@) == names_of(db@.boilerplates),
{
    db.boilerplate_names()
}

/// The number of boilerplate rows.
pub fn count(db: &Database) -> (r: usize)
    ensures
        r == db@.boilerplates.len(),
{
    db.boilerplate_count()
}

/// Directory `dir` is directory `id` or one of the directories above it.
pub open spec fn chain_from(dirs: Seq<DirModel>, id: usize, dir: usize) -> bool
    decreases id,
{
    id == dir || match dir_by_id(dirs, id) {
        Some(d) => match d.parent {
            Some(p) => p < id && chain_from(dirs, p, dir),
            None => false,
        },
        None => false,
    }
}

/// File `id` lies somewhere below directory `dir`.
pub open spec fn file_under(v: DatabaseView, id: usize, dir: usize) -> bool {
    match file_by_id(v.files, id) {
        Some(f) => match f.parent {
            Some(p) => chain_from(v.dirs, p, dir),
            None => false,
        },
        None => false,
    }
}

/// Some mapping of `b` places a file that lies below directory `dir`.
pub open spec fn maps_under(v: DatabaseView, b: BoilerplateModel, dir: usize) -> bool {
    exists|k: int| 0 <= k < b.files.len() && file_under(v, #[trigger] b.files[k].1, dir)
}

/// The names of the boilerplates among `bps` that place a file below
/// directory `dir`, in order.
pub open spec fn dir_users_of(v: DatabaseView, bps: Seq<BoilerplateModel>, dir: usize) -> Seq<Seq<char>>
    decreases bps.len(),
{
    if bps.len() == 0 {
        Seq::empty()
    } else if maps_under(v, bps.last(), dir) {
        dir_users_of(v, bps.drop_last(), dir).push(bps.last().name)
    } else {
        dir_users_of(v, bps.drop_last(), dir)
    }
}

/// Whether file `id` lies below directory `dir`.
fn is_file_under(db: &Database, id: usize, dir: usize) -> (r: bool)
    requires
        db.wf(),
    ensures
        r == file_under(db@, id, dir),
{
    let pos = match db.file_position(id) {
        Some(p) => p,
        None => {
            return false;
        },
    };
    let row = db.file_at(pos);
    proof {
        lemma_file_by_id_at(db@, pos as int);
        assert(db@.files_wf());
        assert(db@.parent_ok(db@.files[pos as int].parent));
    }
    let mut cur = row.parent;
    while cur.is_some()
        invariant
            db.wf(),
            db@.parent_ok(cur),
            file_under(db@, id, dir) == match cur {
                Some(c) => chain_from(db@.dirs, c, dir),
                None => false,
            },
        decreases match cur {
            Some(c) => c as int + 1,
            None => 0,
        },
    {
        let c = cur.unwrap();
        if c == dir {
            return true;
        }
        match db.dir_position(c) {
            Some(i) => {
                let d = db.dir_at(i);
                proof {
                    lemma_dir_by_id_at(db@, i as int);
                    assert(db@.dirs[i as int].parent == d.parent);
                }
                cur = d.parent;
            },
            None => {
                assert(false);
                cur = None;
            },
        }
    }
    false
}

/// The names of the boilerplates that place a file below directory
/// `dir_id`, in table order.
pub fn dir_used_in_boilerplates(db: &Database, dir_id: usize) -> (r: Vec<String>)
    requires
        db.wf(),
    ensures
        string_views(r@) == dir_users_of(db@, db@.boilerplates, dir_id),
{
    let n = db.boilerplate_count();
    let mut names: Vec<String> = Vec::new();
    let mut i: usize = 0;
    assert(db@.boilerplates.take(0) =~= Seq::<BoilerplateModel>::empty());
    while i < n
        invariant
            db.wf(),
            n == db@.boilerplates.len(),
            i <= n,
            string_views(names@) == dir_users_of(db@, db@.boilerplates.take(i as int), dir_id),
        decreases n - i,
    {
        let row = db.boilerplate_at(i);
        let ghost b = db@.boilerplates[i as int];
        assert(db@.boilerplates.take(i + 1).drop_last() =~= db@.boilerplates.take(i as int));
        assert(db@.boilerplates.take(i + 1).last() == b);
        let mut found = false;
        let mut k: usize = 0;
        while k < row.files.len()
            invariant
                db.wf(),
                boilerplate_model(row) == b,
                k <= row.files.len(),
                found <==> exists|kk: int| 0 <= kk < k && file_under(db@, #[trigger] b.files[kk].1, dir_id),
            decreases row.files.len() - k,
        {
            assert(b.files[k as int].1 == row.files@[k as int].1);
            if is_file_under(db, row.files[k].1, dir_id) {
                found = true;
            }
            k = k + 1;
        }
        if found {
            let ghost before = names@;
            names.push(row.name);
            assert(string_views(names@) =~= string_views(before).push(b.name));
        }
        i = i + 1;
    }
    assert(db@.boilerplates.take(n as int) =~= db@.boilerplates);
    names
}

/// A directory reached by walking up from another one has a child row.
proof fn lemma_chain_has_child(v: DatabaseView, p: usize, dir: usize)
    requires
        v.wf(),
        chain_from(v.dirs, p, dir),
        p != dir,
    ensures
        v.has_children(dir),
    decreases p,
{
    let d = dir_by_id(v.dirs, p)->0;
    let q = d.parent->0;
    let i = choose|i: int| 0 <= i < v.dirs.len() && v.dirs[i].id == p;
    lemma_dir_by_id_at(v, i);
    if q == dir {
        assert(v.dirs[i].parent == Some(dir));
    } else {
        lemma_chain_has_child(v, q, dir);
    }
}

/// Nothing lies below a directory without children, so no boilerplate
/// places a file below it.
pub proof fn lemma_empty_dir_unused(v: DatabaseView, dir: usize)
    requires
        v.wf(),
        !v.has_children(dir),
    ensures
        dir_users_of(v, v.boilerplates, dir).len() == 0,
{
    assert forall|id: usize| !file_under(v, id, dir) by {
        if file_under(v, id, dir) {
            let f = file_by_id(v.files, id)->0;
            let i = choose|i: int| 0 <= i < v.files.len() && v.files[i].id == id;
            lemma_file_by_id_at(v, i);
            let p = f.parent->0;
            if p == dir {
                assert(v.files[i].parent == Some(dir));
            } else {
                lemma_chain_has_child(v, p, dir);
            }
        }
    }
    lemma_no_dir_users(v, v.boilerplates, dir);
}

proof fn lemma_no_dir_users(v: DatabaseView, bps: Seq<BoilerplateModel>, dir: usize)
    requires
        forall|id: usize| !file_under(v, id, dir),
    ensures
        dir_users_of(v, bps, dir).len() == 0,
    decreases bps.len(),
{
    if bps.len() > 0 {
        lemma_no_dir_users(v, bps.drop_last(), dir);
    }
}

} // verus!
