//! Requests on directories: creation, which is idempotent, and deletion of
//! empty directories.
use vstd::prelude::*;

use crate::database::dir::{
    content, create, create_post, dir_present, dir_target, fetch, listing_ok, DirContent, DirIdentifier,
};
use crate::database::file::path_file_id;
use crate::database::{Database, DatabaseView};
use crate::path::components;
use crate::database::boilerplate::{dir_used_in_boilerplates, lemma_empty_dir_unused};
use crate::request_handlers::{join_lines, PutOutcome};
use crate::CabinetError;

verus! {

/// GET of the directory at `path`: its listing; a bad request when a file
/// is there instead, else `NotFound`.
pub fn get(db: &Database, path: &str) -> (r: Result<Vec<DirContent>, CabinetError>)
    requires
        db.wf(),
    ensures
        r is Ok <==> dir_present(db@, DirIdentifier::Path(path)),
        r matches Ok(c) ==> listing_ok(db@, dir_target(db@, DirIdentifier::Path(path))->0, c@),
        r matches Err(e) ==> if path_file_id(db@, path@) is Some {
            e is BadRequest
        } else {
            e is NotFound
        },
{
    match content(db, DirIdentifier::Path(path)) {
        Ok(c) => Ok(c),
        Err(e) => {
            if crate::database::file::get_id(db, path).is_some() {
                Err(CabinetError::BadRequest(String::from_str("not a directory")))
            } else {
                Err(e)
            }
        },
    }
}

/// PUT of the directory at `path`: an existing one is left as it is; a
/// missing one is created with the directories above it.
pub fn put(db: &mut Database, path: &str) -> (r: Result<PutOutcome, CabinetError>)
    requires
        old(db).wf(),
    ensures
        final(db).wf(),
        dir_present(old(db)@, DirIdentifier::Path(path)) ==> r == Ok::<PutOutcome, CabinetError>(
            PutOutcome::Replaced,
        ) && final(db)@ == old(db)@,
        !dir_present(old(db)@, DirIdentifier::Path(path)) && components(path@).len() == 0 ==> final(db)@
            == old(db)@ && (r matches Err(e) && e is InternalError),
        !dir_present(old(db)@, DirIdentifier::Path(path)) && components(path@).len() > 0 ==> {
            &&& r matches Ok(o) ==> o == PutOutcome::Created && exists|id: usize|
                create_post(old(db)@, final(db)@, components(path@), Ok(id))
            &&& r matches Err(e) ==> create_post(old(db)@, final(db)@, components(path@), Err(e))
        },
{
    if crate::database::dir::present(db, DirIdentifier::Path(path)) {
        return Ok(PutOutcome::Replaced);
    }
    match create(db, path) {
        Ok(_) => Ok(PutOutcome::Created),
        Err(e) => Err(e),
    }
}

/// DELETE of the directory at `path`: `NotFound` when there is none, a bad
/// request when something sits below it, else its row is deleted. Nothing
/// can lie below an empty directory, so the guard against boilerplates
/// that use files below it never refuses here.
pub fn delete(db: &mut Database, path: &str) -> (r: Result<(), CabinetError>)
    requires
        old(db).wf(),
    ensures
        final(db).wf(),
        !dir_present(old(db)@, DirIdentifier::Path(path)) ==> r == Err::<(), CabinetError>(
            CabinetError::NotFound,
        ) && final(db)@ == old(db)@,
        dir_present(old(db)@, DirIdentifier::Path(path)) ==> {
            let id = dir_target(old(db)@, DirIdentifier::Path(path))->0;
            &&& old(db)@.has_children(id) ==> final(db)@ == old(db)@ && (r matches Err(
                CabinetError::BadRequest(m),
            ) && m@ == "directory not empty"@)
            &&& !old(db)@.has_children(id) ==> r == Ok::<(), CabinetError>(()) && exists|i: int|
                0 <= i < old(db)@.dirs.len() && old(db)@.dirs[i].id == id && final(db)@ == (DatabaseView {
                    dirs: old(db)@.dirs.remove(i),
                    ..old(db)@
                })
        },
{
    let d = match fetch(db, DirIdentifier::Path(path)) {
        Ok(d) => d,
        Err(e) => {
            return Err(e);
        },
    };
    if db.has_children(d.id) {
        return Err(CabinetError::BadRequest(String::from_str("directory not empty")));
    }
    proof {
        lemma_empty_dir_unused(db@, d.id);
    }
    let users = dir_used_in_boilerplates(db, d.id);
    if users.len() > 0 {
        let mut msg = String::from_str("directory is used in boilerplates:\n");
        let names = join_lines(&users);
        msg.append(names.as_str());
        return Err(CabinetError::BadRequest(msg));
    }
    crate::database::dir::delete(db, DirIdentifier::Id(d.id));
    Ok(())
}

} // verus!
