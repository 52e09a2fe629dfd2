use kerchief::config::{FetchError, Identifier, Path, ReadIdentifier};

#[test]
fn read_reports_name_and_id() {
    let ident = Identifier::new(Some(String::from("Datorgrafik")), Some(23838));
    assert_eq!(
        ident.read(),
        ReadIdentifier::NameAndId { name: String::from("Datorgrafik"), id: 23838 }
    );
}

#[test]
fn read_reports_name_only() {
    let ident = Identifier::new(Some(String::from("Assignment 1")), None);
    assert_eq!(ident.read(), ReadIdentifier::NameOnly { name: String::from("Assignment 1") });
}

#[test]
fn read_reports_id_only() {
    let ident = Identifier::new(None, Some(7));
    assert_eq!(ident.read(), ReadIdentifier::IdOnly { id: 7 });
}

#[test]
fn read_reports_neither() {
    let ident = Identifier::new(None, None);
    assert_eq!(ident.read(), ReadIdentifier::Neither);
}

#[test]
fn is_none_only_when_both_fields_absent() {
    assert!(Identifier::new(None, None).is_none());
    assert!(!Identifier::new(Some(String::from("A")), None).is_none());
    assert!(!Identifier::new(None, Some(1)).is_none());
    assert!(!Identifier::new(Some(String::from("A")), Some(1)).is_none());
}

#[test]
fn default_identifier_has_neither_field() {
    let ident = Identifier::default();
    assert!(ident.is_none());
}

#[test]
fn flat_path_has_no_options() {
    let p = Path::Flat(String::from("group.txt"));
    assert_eq!(p.path(), "group.txt");
    assert_eq!(p.options(), Vec::<String>::new());
}

#[test]
fn optioned_path_lists_its_flags() {
    let p = Path::Optioned {
        path: String::from("assignment1"),
        options: Some(vec![String::from("zip")]),
    };
    assert_eq!(p.path(), "assignment1");
    assert_eq!(p.options(), vec![String::from("zip")]);
}

#[test]
fn optioned_path_without_flag_list_has_no_options() {
    let p = Path::Optioned { path: String::from("notes.txt"), options: None };
    assert_eq!(p.path(), "notes.txt");
    assert_eq!(p.options(), Vec::<String>::new());
}

#[test]
fn fetch_error_carries_the_missing_key() {
    let e = FetchError::NoSuchAssignmentKey(String::from("hw1"));
    assert_eq!(e, FetchError::NoSuchAssignmentKey(String::from("hw1")));
}
