//! Requests on boilerplates: reads answered by modification time, and
//! replacements and deletes guarded by `If-Unmodified-Since`.
use vstd::prelude::*;

use crate::boilerplate::{json_string_map, Boilerplate, NewBoilerplate};
use crate::conditional::{
    evaluate_read, evaluate_write, read_not_modified, write_precondition_failed, Preconditions,
    Validators,
};
use crate::database::boilerplate::{
    all_names, boilerplate_by_id, create, create_boilerplate_post, fetch, shows_boilerplate,
    update, update_boilerplate_post, BoilerplateIdentifier,
};
use crate::database::{
    boilerplate_lookup, names_of, BoilerplateModel, Database,
    DatabaseView,
};
use crate::path::string_views;
use crate::request_handlers::PutOutcome;
use crate::CabinetError;

verus! {

/// The boilerplate called `name` is row `row` of `v`.
pub open spec fn boilerplate_named(v: DatabaseView, name: Seq<char>, row: BoilerplateModel) -> bool {
    boilerplate_lookup(v.boilerplates, name) == Some(row.id) && boilerplate_by_id(v.boilerplates, row.id)
        == Some(row)
}

/// The names of all boilerplates.
pub fn get_all_boilerplates(db: &Database) -> (r: Vec<String>)
    ensures
        string_views(r@) == names_of(db@.boilerplates),
{
    all_names(db)
}

/// GET of boilerplate `name`: `NotFound` when there is none, `NotModified`
/// when `If-Modified-Since` says so, else the boilerplate.
pub fn get(db: &Database, name: &str, pre: &Preconditions) -> (r: Result<Boilerplate, CabinetError>)
    requires
        db.wf(),
    ensures
        boilerplate_lookup(db@.boilerplates, name@) is None <==> (r matches Err(e) && e is NotFound),
        forall|row: BoilerplateModel|
            #[trigger] boilerplate_named(db@, name@, row) ==> {
                &&& (r matches Err(e) && e is NotModified) <==> read_not_modified(
                    None,
                    Some(row.modified),
                    *pre,
                )
                &&& r matches Ok(b) ==> shows_boilerplate(db@, b, row)
            },
        r is Ok || (r matches Err(e) && (e is NotFound || e is NotModified)),
{
    let bp = match fetch(db, BoilerplateIdentifier::Name(name)) {
        Ok(bp) => bp,
        Err(e) => {
            return Err(e);
        },
    };
    let current = Validators { etag: None, last_modified: Some(bp.modified) };
    if evaluate_read(&current, pre) {
        return Err(CabinetError::NotModified);
    }
    Ok(bp)
}

/// PUT of boilerplate `name` with the JSON object of strings in `body`,
/// arriving at time `now`. A body that is no such object is a bad request.
/// An existing boilerplate whose preconditions hold gets the new mappings
/// and no script; a missing one is created.
pub fn put(
    db: &mut Database,
    name: &str,
    body: &[u8],
    now: u64,
    pre: &Preconditions,
) -> (r: Result<PutOutcome, CabinetError>)
    requires
        old(db).wf(),
    ensures
        final(db).wf(),
        json_string_map(body@) is None ==> final(db)@ == old(db)@ && (r matches Err(e) && e is BadRequest),
        json_string_map(body@) matches Some(files) ==> {
            &&& boilerplate_lookup(old(db)@.boilerplates, name@) is None ==> create_boilerplate_post(
                old(db)@,
                final(db)@,
                name@,
                None,
                files,
                now,
                match r {
                    Ok(_) => Ok(old(db)@.next_boilerplate),
                    Err(e) => Err(e),
                },
            ) && (r is Ok ==> r == Ok::<PutOutcome, CabinetError>(PutOutcome::Created))
            &&& forall|row: BoilerplateModel|
                #[trigger] boilerplate_named(old(db)@, name@, row) ==> if write_precondition_failed(
                    None,
                    Some(row.modified),
                    *pre,
                ) {
                    r == Err::<PutOutcome, CabinetError>(CabinetError::PreconditionFailed) && final(db)@
                        == old(db)@
                } else {
                    update_boilerplate_post(
                        old(db)@,
                        final(db)@,
                        row.id,
                        name@,
                        None,
                        files,
                        now,
                        match r {
                            Ok(_) => Ok(row.id),
                            Err(e) => Err(e),
                        },
                    ) && (r is Ok ==> r == Ok::<PutOutcome, CabinetError>(PutOutcome::Replaced))
                }
        },
{
    let new = match NewBoilerplate::from_json(name, None, body) {
        Ok(bp) => bp,
        Err(e) => {
            return Err(e);
        },
    };
    match fetch(db, BoilerplateIdentifier::Name(name)) {
        Ok(entry) => {
            let current = Validators { etag: None, last_modified: Some(entry.modified) };
            if evaluate_write(&current, pre) {
                return Err(CabinetError::PreconditionFailed);
            }
            let changed = Boilerplate {
                id: entry.id,
                name: entry.name,
                modified: entry.modified,
                script: None,
                files: new.files,
            };
            match update(db, &changed, now) {
                Ok(_) => Ok(PutOutcome::Replaced),
                Err(e) => Err(e),
            }
        },
        Err(_) => {
            match create(db, &new, now) {
                Ok(_) => Ok(PutOutcome::Created),
                Err(e) => Err(e),
            }
        },
    }
}

/// DELETE of boilerplate `name`: `NotFound` when there is none, a failed
/// precondition when `If-Unmodified-Since` says so, else it is deleted.
pub fn delete(db: &mut Database, name: &str, pre: &Preconditions) -> (r: Result<(), CabinetError>)
    requires
        old(db).wf(),
    ensures
        final(db).wf(),
        boilerplate_lookup(old(db)@.boilerplates, name@) is None ==> r == Err::<(), CabinetError>(
            CabinetError::NotFound,
        ) && final(db)@ == old(db)@,
        forall|row: BoilerplateModel|
            #[trigger] boilerplate_named(old(db)@, name@, row) ==> if write_precondition_failed(
                None,
                Some(row.modified),
                *pre,
            ) {
                r == Err::<(), CabinetError>(CabinetError::PreconditionFailed) && final(db)@ == old(db)@
            } else {
                r == Ok::<(), CabinetError>(()) && exists|i: int|
                    0 <= i < old(db)@.boilerplates.len() && old(db)@.boilerplates[i] == row && final(db)@
                        == (DatabaseView { boilerplates: old(db)@.boilerplates.remove(i), ..old(db)@ })
            },
{
    let bp = match fetch(db, BoilerplateIdentifier::Name(name)) {
        Ok(bp) => bp,
        Err(e) => {
            return Err(e);
        },
    };
    proof {
        assert forall|row: BoilerplateModel| #[trigger] boilerplate_named(db@, name@, row) implies row.modified == bp.modified by {
            assert(row.id == bp.id);
        }
    }
    let current = Validators { etag: None, last_modified: Some(bp.modified) };
    if evaluate_write(&current, pre) {
        return Err(CabinetError::PreconditionFailed);
    }
    let ghost v0 = db@;
    let r = crate::database::boilerplate::delete(db, BoilerplateIdentifier::Id(bp.id));
    proof {
        let i = choose|i: int|
            0 <= i < v0.boilerplates.len() && Some(v0.boilerplates[i].id) == Some(bp.id) && db@ == (
            DatabaseView { boilerplates: v0.boilerplates.remove(i), ..v0 });
        lemma_boilerplate_by_id_at(v0, i);
        assert forall|row: BoilerplateModel| #[trigger] boilerplate_named(v0, name@, row) implies v0.boilerplates[i] == row by {
            assert(row.id == bp.id);
        }
    }
    match r {
        Ok(_) => Ok(()),
        Err(e) => Err(e),
    }
}

pub proof fn lemma_boilerplate_by_id_at(v: DatabaseView, i: int)
    requires
        v.wf(),
        0 <= i < v.boilerplates.len(),
    ensures
        boilerplate_by_id(v.boilerplates, v.boilerplates[i].id) == Some(v.boilerplates[i]),
{
}

} // verus!
