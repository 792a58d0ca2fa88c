//! Requests on files: reads answered with validators, and writes and
//! deletes guarded by preconditions.
use vstd::prelude::*;

use crate::conditional::{
    evaluate_read, evaluate_write, read_not_modified, write_precondition_failed, Preconditions,
    Validators,
};
use crate::database::boilerplate::{file_used_in_boilerplates, lemma_users_iff_referenced, users_of};
use crate::database::file::{
    create, create_file_post, fetch, file_by_id, full_path, lemma_file_by_id_at, path_file_id,
    FileIdentifier,
};
use crate::database::{lemma_file_lookup_at, Database, DatabaseView, FileModel};
use crate::file::{etag_of, mime_type_of, NewFile};
use crate::path::string_views;
use crate::request_handlers::{join_lines, joined_lines, PutOutcome};
use crate::CabinetError;

verus! {

/// A file as a read answers it: content and the headers that go with it.
#[derive(Debug, Clone, PartialEq, Eq)]
pub struct FileReply {
    pub etag: String,
    pub last_modified: u64,
    pub content_type: String,
    pub content: Vec<u8>,
}

/// The reason a file that boilerplates use is not deleted.
pub open spec fn in_use_message(names: Seq<Seq<char>>) -> Seq<char> {
    "file is used in boilerplates:\n"@ + joined_lines(names)
}

/// The file `path` leads to is row `row` of `v`.
pub open spec fn file_at_path(v: DatabaseView, path: Seq<char>, row: FileModel) -> bool {
    path_file_id(v, path) == Some(row.id) && file_by_id(v.files, row.id) == Some(row)
}

/// GET or HEAD of the file at `path`: `NotFound` when there is none,
/// `NotModified` when the preconditions say so, else the content with its
/// entity tag, modification time and guessed MIME type.
pub fn head_or_get(db: &Database, path: &str, pre: &Preconditions) -> (r: Result<FileReply, CabinetError>)
    requires
        db.wf(),
    ensures
        path_file_id(db@, path@) is None <==> (r matches Err(e) && e is NotFound),
        forall|row: FileModel|
            #[trigger] file_at_path(db@, path@, row) ==> {
                &&& (r matches Err(e) && e is NotModified) <==> read_not_modified(
                    Some(etag_of(row.content)),
                    Some(row.modified),
                    *pre,
                )
                &&& r matches Ok(reply) ==> reply.content@ == row.content && reply.etag@ == etag_of(
                    row.content,
                ) && reply.last_modified == row.modified && reply.content_type@ == mime_type_of(
                    full_path(db@.dirs, row.parent, row.name),
                )
            },
        r is Ok || (r matches Err(e) && (e is NotFound || e is NotModified)),
{
    let f = match fetch(db, FileIdentifier::Path(path)) {
        Ok(f) => f,
        Err(e) => {
            return Err(e);
        },
    };
    let etag = f.content_hash();
    let content_type = f.content_type();
    let current = Validators { etag: Some(etag), last_modified: Some(f.modified) };
    if evaluate_read(&current, pre) {
        return Err(CabinetError::NotModified);
    }
    let etag = match current.etag {
        Some(t) => t,
        None => String::new(),
    };
    Ok(FileReply { etag, last_modified: f.modified, content_type, content: f.content })
}

/// PUT of `body` at `path`, arriving at time `now`. An existing file whose
/// preconditions hold gets the new content and time, keeping its place and
/// mode; a missing one is created with mode 0, with its directories.
pub fn put(
    db: &mut Database,
    path: &str,
    body: Vec<u8>,
    now: u64,
    pre: &Preconditions,
) -> (r: Result<PutOutcome, CabinetError>)
    requires
        old(db).wf(),
    ensures
        final(db).wf(),
        path_file_id(old(db)@, path@) is Some ==> exists|i: int|
            0 <= i < old(db)@.files.len() && Some(old(db)@.files[i].id) == path_file_id(old(db)@, path@)
                && if write_precondition_failed(
                Some(etag_of(old(db)@.files[i].content)),
                Some(old(db)@.files[i].modified),
                *pre,
            ) {
                r == Err::<PutOutcome, CabinetError>(CabinetError::PreconditionFailed) && final(db)@
                    == old(db)@
            } else {
                r == Ok::<PutOutcome, CabinetError>(PutOutcome::Replaced) && final(db)@ == (DatabaseView {
                    files: old(db)@.files.update(
                        i,
                        FileModel { content: body@, modified: now, ..old(db)@.files[i] },
                    ),
                    ..old(db)@
                })
            },
        path_file_id(old(db)@, path@) is None ==> create_file_post(
            old(db)@,
            final(db)@,
            path@,
            body@,
            0,
            now,
            match r {
                Ok(_) => Ok(()),
                Err(e) => Err(e),
            },
        ) && (r is Ok ==> r == Ok::<PutOutcome, CabinetError>(PutOutcome::Created)),
{
    match crate::database::file::get_id(db, path) {
        Some(id) => {
            let i = match db.file_position(id) {
                Some(i) => i,
                None => {
                    proof {
                        crate::database::boilerplate::lemma_path_file_exists(db@, path@);
                    }
                    return Err(CabinetError::NotFound);
                },
            };
            let row = db.file_at(i);
            let f = crate::file::File {
                id: row.id,
                path: String::new(),
                content: row.content,
                mode: row.mode,
                modified: row.modified,
            };
            let current = Validators { etag: Some(f.content_hash()), last_modified: Some(f.modified) };
            if evaluate_write(&current, pre) {
                return Err(CabinetError::PreconditionFailed);
            }
            proof {
                lemma_file_lookup_at(db@, i as int);
            }
            db.replace_file_at(i, row.name, row.parent, body, f.mode, now);
            assert(db@.files =~= old(db)@.files.update(
                i as int,
                FileModel { content: body@, modified: now, ..old(db)@.files[i as int] },
            ));
            Ok(PutOutcome::Replaced)
        },
        None => {
            let new_file = NewFile { path: path.to_owned(), content: body, mode: 0, modified: now };
            match create(db, &new_file) {
                Ok(()) => Ok(PutOutcome::Created),
                Err(e) => Err(e),
            }
        },
    }
}

/// DELETE of the file at `path`: `NotFound` when there is none; a bad
/// request naming the boilerplates that use it, if any do; a failed
/// precondition; else the file's row is deleted.
pub fn delete(db: &mut Database, path: &str, pre: &Preconditions) -> (r: Result<(), CabinetError>)
    requires
        old(db).wf(),
    ensures
        final(db).wf(),
        path_file_id(old(db)@, path@) is None ==> r == Err::<(), CabinetError>(CabinetError::NotFound)
            && final(db)@ == old(db)@,
        forall|row: FileModel|
            #[trigger] file_at_path(old(db)@, path@, row) ==> {
                &&& old(db)@.is_referenced(row.id) ==> final(db)@ == old(db)@ && (r matches Err(
                    CabinetError::BadRequest(m),
                ) && m@ == in_use_message(users_of(old(db)@.boilerplates, row.id)))
                &&& !old(db)@.is_referenced(row.id) && write_precondition_failed(
                    Some(etag_of(row.content)),
                    Some(row.modified),
                    *pre,
                ) ==> final(db)@ == old(db)@ && r == Err::<(), CabinetError>(
                    CabinetError::PreconditionFailed,
                )
                &&& !old(db)@.is_referenced(row.id) && !write_precondition_failed(
                    Some(etag_of(row.content)),
                    Some(row.modified),
                    *pre,
                ) ==> r == Ok::<(), CabinetError>(()) && exists|i: int|
                    0 <= i < old(db)@.files.len() && old(db)@.files[i] == row && final(db)@ == (
                    DatabaseView { files: old(db)@.files.remove(i), ..old(db)@ })
            },
{
    let f = match fetch(db, FileIdentifier::Path(path)) {
        Ok(f) => f,
        Err(e) => {
            return Err(e);
        },
    };
    let users = file_used_in_boilerplates(db, f.id);
    proof {
        lemma_users_iff_referenced(db@, f.id);
    }
    if users.len() > 0 {
        let mut msg = String::from_str("file is used in boilerplates:\n");
        let names = join_lines(&users);
        msg.append(names.as_str());
        return Err(CabinetError::BadRequest(msg));
    }
    let current = Validators { etag: Some(f.content_hash()), last_modified: Some(f.modified) };
    if evaluate_write(&current, pre) {
        return Err(CabinetError::PreconditionFailed);
    }
    let ghost v0 = db@;
    match crate::database::file::delete(db, FileIdentifier::Id(f.id)) {
        Ok(_) => {
            proof {
                let i = choose|i: int|
                    0 <= i < v0.files.len() && Some(v0.files[i].id) == Some(f.id) && db@ == (DatabaseView {
                        files: v0.files.remove(i),
                        ..v0
                    });
                lemma_file_by_id_at(v0, i);
            }
            Ok(())
        },
        Err(e) => Err(e),
    }
}

} // verus!
