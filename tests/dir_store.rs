use cabinet::database::dir::{create, delete, ensure, fetch, get_id, present, resolve, DirIdentifier};
use cabinet::database::Database;
use cabinet::dir::Directory;
use cabinet::path::components_of;
use cabinet::CabinetError;

#[test]
fn test_fetch() {
    let mut db = Database::new();
    let ident = DirIdentifier::Path("mydir/foodir");

    // Should return error before the directory is created
    assert!(fetch(&db, ident).is_err());

    let mydir = create(&mut db, "mydir").unwrap();
    create(&mut db, "mydir/foodir").unwrap();

    // Should exist and have mydir as parent
    let dir: Directory = fetch(&db, ident).unwrap();
    assert_eq!(dir.parent, Some(mydir));
}

#[test]
fn test_exists() {
    let mut db = Database::new();
    let ident1 = DirIdentifier::Path("mydir");
    let ident2 = DirIdentifier::Path("mydir/foodir");

    // No directories should exist before created
    assert!(!present(&db, ident1));
    assert!(!present(&db, ident2));

    create(&mut db, "mydir").unwrap();
    create(&mut db, "mydir/foodir").unwrap();

    // Should exist after created
    assert!(present(&db, ident1));
    assert!(present(&db, ident2));
}

#[test]
fn all_dir_functions() {
    let mut db = Database::new();
    let ident1 = DirIdentifier::Path("mydir");
    let ident2 = DirIdentifier::Path("foodir");
    let ident3 = DirIdentifier::Path("foodir/bardir");

    assert!(!present(&db, ident1));
    create(&mut db, "mydir").unwrap();
    assert!(present(&db, ident1));

    create(&mut db, "foodir/bardir").unwrap();
    let d1: Directory = fetch(&db, ident2).unwrap();
    let d2: Directory = fetch(&db, ident3).unwrap();
    assert_eq!(d2.parent, Some(d1.id));

    create(&mut db, "mydir/foodir").unwrap();
    let cont = cabinet::database::dir::content(&db, ident1).unwrap();
    println!("mydir content: {:?}", &cont);
    assert_eq!(cont.len(), 1);

    // Empty the directories before deleting them.
    let inner = get_id(&db, "mydir/foodir").unwrap();
    delete(&mut db, DirIdentifier::Id(inner));
    delete(&mut db, ident1);
    assert!(!present(&db, ident1));

    delete(&mut db, ident3);
    delete(&mut db, ident2);
    assert!(!present(&db, ident2));
    let ident3 = DirIdentifier::Id(d2.id);
    assert!(!present(&db, ident3));
}

#[test]
fn ensure_then_resolve_gives_the_same_id() {
    let mut db = Database::new();
    let id = ensure(&mut db, "a/b/c").unwrap();
    assert!(id.is_some());
    assert_eq!(resolve(&db, "a/b/c"), Some(id));
    let again = ensure(&mut db, "a/b/c").unwrap();
    assert_eq!(again, id);
    assert_eq!(cabinet::database::dir::count(&db), 3);
}

#[test]
fn ensure_skips_dot_and_empty_segments() {
    let mut db = Database::new();
    let id = ensure(&mut db, "/a//./b/").unwrap();
    assert_eq!(resolve(&db, "a/b"), Some(id));
    assert_eq!(resolve(&db, "a/../b"), Some(id));
    assert_eq!(resolve(&db, "b"), None);
    assert_eq!(cabinet::database::dir::count(&db), 2);
}

#[test]
fn ensure_of_the_root_creates_nothing() {
    let mut db = Database::new();
    assert_eq!(ensure(&mut db, "").unwrap(), None);
    assert_eq!(ensure(&mut db, "/").unwrap(), None);
    assert_eq!(resolve(&db, "/"), Some(None));
    assert_eq!(cabinet::database::dir::count(&db), 0);
}

#[test]
fn resolve_stops_at_the_first_missing_name() {
    let mut db = Database::new();
    create(&mut db, "a").unwrap();
    assert_eq!(resolve(&db, "a/b/c"), None);
    assert_eq!(get_id(&db, "a/b"), None);
    assert_eq!(cabinet::database::dir::count(&db), 1);
}

#[test]
fn creating_the_root_is_an_internal_error() {
    let mut db = Database::new();
    assert!(matches!(create(&mut db, "/"), Err(CabinetError::InternalError(_))));
}

#[test]
fn fetch_of_a_missing_directory_is_not_found() {
    let db = Database::new();
    assert_eq!(fetch(&db, DirIdentifier::Id(7)), Err(CabinetError::NotFound));
}

#[test]
fn components_skip_dots_and_empty_segments() {
    assert_eq!(components_of("/a//./b/../c/"), vec!["a".to_string(), "b".to_string(), "c".to_string()]);
    assert!(components_of("").is_empty());
    assert_eq!(components_of("..."), vec!["...".to_string()]);
}

#[test]
fn delete_of_an_absent_directory_deletes_nothing() {
    let mut db = Database::new();
    assert_eq!(delete(&mut db, DirIdentifier::Path("nothing")), 0);
    create(&mut db, "x").unwrap();
    assert_eq!(delete(&mut db, DirIdentifier::Path("x")), 1);
}
