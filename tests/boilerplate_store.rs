use cabinet::boilerplate::{Boilerplate, NewBoilerplate};
use cabinet::database::boilerplate::{
    all_names, create, fetch, file_used_in_boilerplates, present, update, BoilerplateIdentifier,
};
use cabinet::database::file::FileIdentifier;
use cabinet::database::Database;
use cabinet::file::NewFile;
use cabinet::CabinetError;

fn db() -> Database {
    let mut db = Database::new();
    let f = NewFile { path: "myfile".into(), content: Vec::new(), mode: 493, modified: 164123532 };
    cabinet::database::file::create(&mut db, &f).unwrap();
    db
}

#[test]
fn all_boilerplate_functions() {
    let mut conn = db();
    let files = vec![("myfile".to_string(), "myfile".to_string())];

    let new_bp = NewBoilerplate { name: "Boilerplate 1".into(), script: None, files: files.clone() };
    let name_ident = BoilerplateIdentifier::Name(&new_bp.name);

    assert!(!present(&conn, name_ident));
    create(&mut conn, &new_bp, 1000).unwrap();
    assert!(present(&conn, name_ident));

    let mut bp = fetch(&conn, name_ident).unwrap();
    assert_eq!(new_bp.name, bp.name);
    assert_eq!(new_bp.script, bp.script);
    assert_eq!(new_bp.files, bp.files);

    let id_ident = BoilerplateIdentifier::Id(bp.id);
    bp.name = "Updated Boilerplate".into();
    bp.script = Some("sudo apt get awesomeness".into());
    let modified = bp.modified;
    update(&mut conn, &bp, modified).unwrap();
    assert_eq!(bp, fetch(&conn, id_ident).unwrap());

    let names = vec![bp.name];
    let res = all_names(&conn);
    assert_eq!(res, names);

    let file_id = cabinet::database::file::get_id(&conn, "myfile").unwrap();
    let res = file_used_in_boilerplates(&conn, file_id);
    assert_eq!(res, names);
}

#[test]
fn failed_update_keeps_the_previous_mappings() {
    let mut conn = db();
    let new_bp = NewBoilerplate {
        name: "demo".into(),
        script: None,
        files: vec![("client/x".to_string(), "myfile".to_string())],
    };
    create(&mut conn, &new_bp, 10).unwrap();
    let before = fetch(&conn, BoilerplateIdentifier::Name("demo")).unwrap();

    let changed = Boilerplate {
        files: vec![
            ("client/x".to_string(), "myfile".to_string()),
            ("client/y".to_string(), "missing.txt".to_string()),
        ],
        ..before.clone()
    };
    let r = update(&mut conn, &changed, 20);
    assert_eq!(
        r,
        Err(CabinetError::BadRequest("Boilerplate references non-existing file: missing.txt".to_string()))
    );
    assert_eq!(fetch(&conn, BoilerplateIdentifier::Name("demo")).unwrap(), before);
}

#[test]
fn create_with_a_missing_file_stores_nothing() {
    let mut conn = db();
    let new_bp = NewBoilerplate {
        name: "demo".into(),
        script: None,
        files: vec![("a".to_string(), "nothing/here".to_string())],
    };
    assert!(matches!(create(&mut conn, &new_bp, 1), Err(CabinetError::BadRequest(_))));
    assert!(!present(&conn, BoilerplateIdentifier::Name("demo")));
    assert_eq!(cabinet::database::boilerplate::count(&conn), 0);
}

#[test]
fn create_with_a_taken_name_fails() {
    let mut conn = db();
    let new_bp = NewBoilerplate { name: "demo".into(), script: None, files: Vec::new() };
    create(&mut conn, &new_bp, 1).unwrap();
    assert!(matches!(create(&mut conn, &new_bp, 2), Err(CabinetError::InternalError(_))));
    assert_eq!(cabinet::database::boilerplate::count(&conn), 1);
}

#[test]
fn delete_removes_the_mappings_with_the_boilerplate() {
    let mut conn = db();
    let new_bp = NewBoilerplate {
        name: "demo".into(),
        script: None,
        files: vec![("x".to_string(), "myfile".to_string())],
    };
    create(&mut conn, &new_bp, 1).unwrap();
    let file_id = cabinet::database::file::get_id(&conn, "myfile").unwrap();
    assert_eq!(file_used_in_boilerplates(&conn, file_id), vec!["demo".to_string()]);
    cabinet::database::boilerplate::delete(&mut conn, BoilerplateIdentifier::Name("demo")).unwrap();
    assert!(file_used_in_boilerplates(&conn, file_id).is_empty());
    assert_eq!(
        cabinet::database::boilerplate::delete(&mut conn, BoilerplateIdentifier::Name("demo")),
        Err(CabinetError::NotFound)
    );
    cabinet::database::file::delete(&mut conn, FileIdentifier::Id(file_id)).unwrap();
}

#[test]
fn from_json_reads_an_object_of_strings() {
    let bp = NewBoilerplate::from_json("demo", None, br#"{"client/x": "a/b/c.txt"}"#).unwrap();
    assert_eq!(bp.name, "demo");
    assert_eq!(bp.files, vec![("client/x".to_string(), "a/b/c.txt".to_string())]);
    assert!(matches!(NewBoilerplate::from_json("demo", None, b"[1, 2]"), Err(CabinetError::BadRequest(_))));
    assert!(matches!(NewBoilerplate::from_json("demo", None, b"{"), Err(CabinetError::BadRequest(_))));
}

#[test]
fn directories_used_through_files_below_them() {
    let mut conn = db();
    let f = NewFile { path: "a/b/c.txt".into(), content: Vec::new(), mode: 0, modified: 0 };
    cabinet::database::file::create(&mut conn, &f).unwrap();
    cabinet::database::dir::create(&mut conn, "other").unwrap();
    let new_bp = NewBoilerplate {
        name: "demo".into(),
        script: None,
        files: vec![("client/x".to_string(), "a/b/c.txt".to_string())],
    };
    create(&mut conn, &new_bp, 1).unwrap();
    let a = cabinet::database::dir::get_id(&conn, "a").unwrap();
    let ab = cabinet::database::dir::get_id(&conn, "a/b").unwrap();
    let other = cabinet::database::dir::get_id(&conn, "other").unwrap();
    let demo = vec!["demo".to_string()];
    assert_eq!(cabinet::database::boilerplate::dir_used_in_boilerplates(&conn, a), demo);
    assert_eq!(cabinet::database::boilerplate::dir_used_in_boilerplates(&conn, ab), demo);
    assert!(cabinet::database::boilerplate::dir_used_in_boilerplates(&conn, other).is_empty());
}
