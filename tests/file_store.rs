use cabinet::database::file::{create, delete, fetch, get_id, present, update, FileIdentifier};
use cabinet::database::Database;
use cabinet::file::{File, NewFile};
use cabinet::CabinetError;

/// Wed, 21 Oct 2015 02:22:00 GMT
const OCT_21_2015: u64 = 1445394120;

#[test]
fn all() {
    let mut db = Database::new();
    cabinet::database::dir::create(&mut db, "mydir").unwrap();
    let path_ident1 = FileIdentifier::Path("mydir/myfile");
    let path_ident2 = FileIdentifier::Path("foo.txt");

    assert!(!present(&db, path_ident1));
    create(
        &mut db,
        &NewFile {
            path: "mydir/myfile".into(),
            content: vec![104, 101, 108, 108, 111, 32, 119, 111, 114, 108, 100],
            mode: 0o755,
            modified: OCT_21_2015,
        },
    )
    .unwrap();
    assert!(present(&db, path_ident1));

    let mut f: File = fetch(&db, path_ident1).unwrap();
    assert_eq!(f.path, "mydir/myfile".to_string());
    assert_eq!(f.mode, 0o755);

    let id_ident = FileIdentifier::Id(f.id);

    f.path = "foo.txt".to_string();
    update(&mut db, &f).unwrap();
    let res = fetch(&db, path_ident1);
    assert!(res.is_err());

    assert_eq!(f, fetch(&db, id_ident).unwrap());
    assert_eq!(f, fetch(&db, path_ident2).unwrap());

    delete(&mut db, id_ident).unwrap();
    assert!(!present(&db, id_ident));
}

#[test]
fn create_then_fetch_gives_the_content_and_its_digest() {
    let mut db = Database::new();
    let new = NewFile { path: "a/b/c.txt".into(), content: b"hi".to_vec(), mode: 0, modified: 5 };
    create(&mut db, &new).unwrap();
    let f = fetch(&db, FileIdentifier::Path("a/b/c.txt")).unwrap();
    assert_eq!(f.content, b"hi".to_vec());
    assert_eq!(f.path, "a/b/c.txt");
    assert_eq!(f.content_hash(), "c22b5f9178342609428d6f51b2c5af4c0bde6a42");
    assert_eq!(cabinet::database::dir::count(&db), 2);
}

#[test]
fn content_hash_of_hello_world() {
    let f = File { id: 1, path: "x".into(), content: b"hello world".to_vec(), mode: 0, modified: 0 };
    assert_eq!(f.content_hash(), "2aae6c35c94fcfb415dbe95f408b9ce91ee846ed");
    let empty = File { id: 1, path: "x".into(), content: Vec::new(), mode: 0, modified: 0 };
    assert_eq!(empty.content_hash(), "da39a3ee5e6b4b0d3255bfef95601890afd80709");
}

#[test]
fn content_type_is_guessed_from_the_extension() {
    let mut f = File { id: 1, path: "a/b/page.html".into(), content: Vec::new(), mode: 0, modified: 0 };
    assert_eq!(f.content_type(), "text/html");
    f.path = "notes".into();
    assert_eq!(f.content_type(), "text/plain");
    f.path = "a/b/c.txt".into();
    assert_eq!(f.content_type(), "text/plain");
}

#[test]
fn a_path_ending_in_a_slash_has_no_file_name() {
    let mut db = Database::new();
    let new = NewFile { path: "a/b/".into(), content: Vec::new(), mode: 0, modified: 0 };
    assert!(matches!(create(&mut db, &new), Err(CabinetError::InternalError(_))));
    assert_eq!(cabinet::database::dir::count(&db), 0);
    assert_eq!(cabinet::database::file::count(&db), 0);
}

#[test]
fn creating_a_file_twice_fails() {
    let mut db = Database::new();
    let new = NewFile { path: "x.txt".into(), content: Vec::new(), mode: 0, modified: 0 };
    create(&mut db, &new).unwrap();
    assert!(matches!(create(&mut db, &new), Err(CabinetError::InternalError(_))));
    assert_eq!(cabinet::database::file::count(&db), 1);
}

#[test]
fn update_of_an_absent_id_is_not_found() {
    let mut db = Database::new();
    let f = File { id: 42, path: "x.txt".into(), content: Vec::new(), mode: 0, modified: 0 };
    assert_eq!(update(&mut db, &f), Err(CabinetError::NotFound));
}

#[test]
fn delete_by_path_of_a_missing_file_is_not_found() {
    let mut db = Database::new();
    assert_eq!(delete(&mut db, FileIdentifier::Path("nope")), Err(CabinetError::NotFound));
    assert_eq!(delete(&mut db, FileIdentifier::Id(3)), Ok(0));
    assert_eq!(get_id(&db, "nope"), None);
}
