use cabinet::conditional::Preconditions;
use cabinet::database::dir::{present, DirIdentifier};
use cabinet::database::Database;
use cabinet::request_handlers::file::{delete as delete_file, head_or_get, put as put_file};
use cabinet::request_handlers::{body_fits, boilerplate, dir, status, PutOutcome, MAX_SIZE};
use cabinet::CabinetError;

fn none() -> Preconditions {
    Preconditions::default()
}

#[test]
fn put_then_get_of_a_new_file() {
    let mut db = Database::new();
    let r = put_file(&mut db, "a/b/c.txt", b"hi".to_vec(), 10, &none());
    assert_eq!(r, Ok(PutOutcome::Created));
    assert!(present(&db, DirIdentifier::Path("a")));
    assert!(present(&db, DirIdentifier::Path("a/b")));
    let reply = head_or_get(&db, "a/b/c.txt", &none()).unwrap();
    assert_eq!(reply.content, b"hi".to_vec());
    assert_eq!(reply.etag, "c22b5f9178342609428d6f51b2c5af4c0bde6a42");
    assert_eq!(reply.last_modified, 10);
    assert_eq!(reply.content_type, "text/plain");
}

#[test]
fn put_over_an_existing_file_replaces_it() {
    let mut db = Database::new();
    put_file(&mut db, "x.txt", b"one".to_vec(), 10, &none()).unwrap();
    assert_eq!(put_file(&mut db, "x.txt", b"two".to_vec(), 20, &none()), Ok(PutOutcome::Replaced));
    let reply = head_or_get(&db, "x.txt", &none()).unwrap();
    assert_eq!(reply.content, b"two".to_vec());
    assert_eq!(reply.last_modified, 20);
}

#[test]
fn conditional_get_by_tag() {
    let mut db = Database::new();
    put_file(&mut db, "x.txt", b"hi".to_vec(), 10, &none()).unwrap();
    let tag = "\"c22b5f9178342609428d6f51b2c5af4c0bde6a42\"".to_string();
    let pre = Preconditions { if_none_match: Some(vec![tag]), ..Default::default() };
    assert_eq!(head_or_get(&db, "x.txt", &pre), Err(CabinetError::NotModified));
    let pre = Preconditions { if_none_match: Some(vec!["\"xyz\"".to_string()]), ..Default::default() };
    assert_eq!(head_or_get(&db, "x.txt", &pre).unwrap().content, b"hi".to_vec());
    assert_eq!(head_or_get(&db, "y.txt", &none()), Err(CabinetError::NotFound));
}

#[test]
fn conditional_put_by_date() {
    let mut db = Database::new();
    let t: u64 = 1000;
    put_file(&mut db, "x.txt", b"one".to_vec(), t, &none()).unwrap();
    let at = |d: u64| Preconditions { if_unmodified_since: Some(d), ..Default::default() };
    assert_eq!(put_file(&mut db, "x.txt", b"two".to_vec(), t + 5, &at(t - 1)), Err(CabinetError::PreconditionFailed));
    assert_eq!(head_or_get(&db, "x.txt", &none()).unwrap().content, b"one".to_vec());
    assert_eq!(put_file(&mut db, "x.txt", b"two".to_vec(), t + 5, &at(t)), Ok(PutOutcome::Replaced));
    assert_eq!(put_file(&mut db, "x.txt", b"three".to_vec(), t + 9, &at(t + 100)), Ok(PutOutcome::Replaced));
}

#[test]
fn a_put_to_a_new_path_ignores_preconditions() {
    let mut db = Database::new();
    let pre = Preconditions { if_match: Some(vec!["\"nothing\"".to_string()]), ..Default::default() };
    assert_eq!(put_file(&mut db, "new.txt", Vec::new(), 1, &pre), Ok(PutOutcome::Created));
}

#[test]
fn delete_of_a_file_used_by_a_boilerplate_is_refused() {
    let mut db = Database::new();
    put_file(&mut db, "a/b/c.txt", b"hi".to_vec(), 10, &none()).unwrap();
    let r = boilerplate::put(&mut db, "demo", br#"{"client/x": "a/b/c.txt"}"#, 11, &none());
    assert_eq!(r, Ok(PutOutcome::Created));
    let r = delete_file(&mut db, "a/b/c.txt", &none());
    assert_eq!(r, Err(CabinetError::BadRequest("file is used in boilerplates:\ndemo".to_string())));
    assert!(head_or_get(&db, "a/b/c.txt", &none()).is_ok());
}

#[test]
fn delete_of_an_unused_file_succeeds() {
    let mut db = Database::new();
    put_file(&mut db, "a/c.txt", b"hi".to_vec(), 10, &none()).unwrap();
    assert_eq!(delete_file(&mut db, "a/c.txt", &none()), Ok(()));
    assert_eq!(head_or_get(&db, "a/c.txt", &none()), Err(CabinetError::NotFound));
    assert_eq!(delete_file(&mut db, "a/c.txt", &none()), Err(CabinetError::NotFound));
}

#[test]
fn delete_of_a_file_checks_its_tag() {
    let mut db = Database::new();
    put_file(&mut db, "c.txt", b"hi".to_vec(), 10, &none()).unwrap();
    let pre = Preconditions { if_match: Some(vec!["\"other\"".to_string()]), ..Default::default() };
    assert_eq!(delete_file(&mut db, "c.txt", &pre), Err(CabinetError::PreconditionFailed));
    let pre = Preconditions {
        if_match: Some(vec!["\"c22b5f9178342609428d6f51b2c5af4c0bde6a42\"".to_string()]),
        ..Default::default()
    };
    assert_eq!(delete_file(&mut db, "c.txt", &pre), Ok(()));
}

#[test]
fn delete_of_a_non_empty_directory_is_refused_until_emptied() {
    let mut db = Database::new();
    put_file(&mut db, "d/e/f.txt", b"x".to_vec(), 1, &none()).unwrap();
    assert_eq!(dir::delete(&mut db, "d"), Err(CabinetError::BadRequest("directory not empty".to_string())));
    assert_eq!(dir::delete(&mut db, "d/e"), Err(CabinetError::BadRequest("directory not empty".to_string())));
    delete_file(&mut db, "d/e/f.txt", &none()).unwrap();
    assert_eq!(dir::delete(&mut db, "d/e"), Ok(()));
    assert_eq!(dir::delete(&mut db, "d"), Ok(()));
    assert_eq!(dir::delete(&mut db, "d"), Err(CabinetError::NotFound));
}

#[test]
fn put_of_a_directory_is_idempotent() {
    let mut db = Database::new();
    assert_eq!(dir::put(&mut db, "p/q"), Ok(PutOutcome::Created));
    assert_eq!(dir::put(&mut db, "p/q"), Ok(PutOutcome::Replaced));
    assert_eq!(dir::put(&mut db, "p"), Ok(PutOutcome::Replaced));
    assert!(matches!(dir::put(&mut db, ""), Err(CabinetError::InternalError(_))));
}

#[test]
fn boilerplate_put_get_and_delete() {
    let mut db = Database::new();
    put_file(&mut db, "a/b/c.txt", b"hi".to_vec(), 10, &none()).unwrap();
    assert_eq!(boilerplate::put(&mut db, "demo", br#"{"client/x": "a/b/c.txt"}"#, 100, &none()), Ok(PutOutcome::Created));
    let bp = boilerplate::get(&db, "demo", &none()).unwrap();
    assert_eq!(bp.files, vec![("client/x".to_string(), "a/b/c.txt".to_string())]);
    assert_eq!(bp.modified, 100);
    let since = |t: u64| Preconditions { if_modified_since: Some(t), ..Default::default() };
    assert_eq!(boilerplate::get(&db, "demo", &since(100)), Err(CabinetError::NotModified));
    assert!(boilerplate::get(&db, "demo", &since(99)).is_ok());
    assert_eq!(boilerplate::get_all_boilerplates(&db), vec!["demo".to_string()]);

    let until = |t: u64| Preconditions { if_unmodified_since: Some(t), ..Default::default() };
    assert_eq!(
        boilerplate::put(&mut db, "demo", br#"{}"#, 200, &until(99)),
        Err(CabinetError::PreconditionFailed)
    );
    assert_eq!(boilerplate::put(&mut db, "demo", br#"{}"#, 200, &until(100)), Ok(PutOutcome::Replaced));
    assert!(boilerplate::get(&db, "demo", &none()).unwrap().files.is_empty());
    assert_eq!(boilerplate::delete(&mut db, "demo", &until(199)), Err(CabinetError::PreconditionFailed));
    assert_eq!(boilerplate::delete(&mut db, "demo", &none()), Ok(()));
    assert_eq!(boilerplate::get(&db, "demo", &none()), Err(CabinetError::NotFound));
    assert_eq!(boilerplate::delete(&mut db, "demo", &none()), Err(CabinetError::NotFound));
}

#[test]
fn boilerplate_put_with_a_missing_file_or_bad_json() {
    let mut db = Database::new();
    let r = boilerplate::put(&mut db, "demo", br#"{"client/x": "a/b/c.txt"}"#, 1, &none());
    assert_eq!(r, Err(CabinetError::BadRequest("Boilerplate references non-existing file: a/b/c.txt".to_string())));
    assert!(matches!(boilerplate::put(&mut db, "demo", b"not json", 1, &none()), Err(CabinetError::BadRequest(_))));
    assert_eq!(boilerplate::get(&db, "demo", &none()), Err(CabinetError::NotFound));
}

#[test]
fn status_counts_each_table() {
    let mut db = Database::new();
    put_file(&mut db, "a/b/c.txt", b"hi".to_vec(), 10, &none()).unwrap();
    boilerplate::put(&mut db, "demo", br#"{"x": "a/b/c.txt"}"#, 11, &none()).unwrap();
    let s = status::get(&db);
    assert_eq!((s.files, s.directories, s.boilerplates), (1, 2, 1));
}

#[test]
fn body_size_is_capped() {
    assert!(body_fits(0, MAX_SIZE));
    assert!(!body_fits(1, MAX_SIZE));
    assert!(body_fits(100, 200));
    assert!(!body_fits(MAX_SIZE, 1));
    assert_eq!(MAX_SIZE, 262144);
}

#[test]
fn directory_listing_is_sorted_dirs_then_files() {
    let mut db = Database::new();
    for p in ["top/b.txt", "top/a.txt", "top/zdir/x", "top/adir/y", "top/é.txt", "top/Z.txt"] {
        put_file(&mut db, p, b"x".to_vec(), 1, &none()).unwrap();
    }
    let entries = dir::get(&db, "top").unwrap();
    let names: Vec<String> = entries.iter().map(|e| e.to_display_string()).collect();
    assert_eq!(names, vec!["adir/", "zdir/", "Z.txt", "a.txt", "b.txt", "é.txt"]);
    assert_eq!(dir::get(&db, "nothing"), Err(CabinetError::NotFound));
    assert!(dir::get(&db, "top/adir").unwrap().len() == 1);
}

#[test]
fn listing_a_file_is_a_bad_request() {
    let mut db = Database::new();
    put_file(&mut db, "a/f.txt", b"x".to_vec(), 1, &none()).unwrap();
    assert_eq!(dir::get(&db, "a/f.txt"), Err(CabinetError::BadRequest("not a directory".to_string())));
}
