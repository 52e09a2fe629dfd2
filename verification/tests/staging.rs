use kerchief::archive::{build_archive, ArchiveError, PayloadEntry};
use kerchief::paths::{find_root, FileOption, FileOptionError, IncludeError, IncludePath, PathStatus};
use kerchief::stage::{
    apply_include_transforms, base_name, parse_options, stage_includes, EntryKind, StageAction,
    StageEntry, WalkEntry,
};

fn walk(rel: &str, full: &str, kind: EntryKind) -> WalkEntry {
    WalkEntry { rel_path: rel.to_string(), full_path: full.to_string(), kind }
}

#[test]
fn try_find_classifies_by_probe() {
    let path = String::from("src/report.txt");
    assert_eq!(
        IncludePath::try_find(&path, PathStatus::IsFile),
        Ok(IncludePath::File(path.clone()))
    );
    assert_eq!(
        IncludePath::try_find(&path, PathStatus::IsDir),
        Ok(IncludePath::Dir(path.clone()))
    );
    assert_eq!(
        IncludePath::try_find(&path, PathStatus::Missing),
        Err(IncludeError::NotPresent(path.clone()))
    );
}

#[test]
fn include_path_accessors() {
    let f = IncludePath::File(String::from("a.txt"));
    let d = IncludePath::Dir(String::from("work"));
    assert!(f.is_file());
    assert!(!f.is_dir());
    assert!(d.is_dir());
    assert!(!d.is_file());
    assert_eq!(f.path(), "a.txt");
    assert_eq!(d.path(), "work");
}

#[test]
fn file_option_recognizes_only_zip() {
    assert_eq!(FileOption::try_from(&String::from("zip")), Ok(FileOption::Zip));
    assert_eq!(
        FileOption::try_from(&String::from("tar")),
        Err(FileOptionError::Unexpected(String::from("tar")))
    );
}

#[test]
fn parse_options_reports_each_bad_flag_and_keeps_zip() {
    let opts = vec![String::from("tar"), String::from("zip"), String::from("gz")];
    let (has_zip, issues) = parse_options(&opts);
    assert!(has_zip);
    assert_eq!(
        issues,
        vec![
            FileOptionError::Unexpected(String::from("tar")),
            FileOptionError::Unexpected(String::from("gz")),
        ]
    );
}

#[test]
fn base_name_takes_the_last_component() {
    assert_eq!(base_name(&String::from("a/b/report.txt")), "report.txt");
    assert_eq!(base_name(&String::from("report.txt")), "report.txt");
    assert_eq!(base_name(&String::from("a\\b\\report.txt")), "report.txt");
    assert_eq!(base_name(&String::from("")), "");
}

#[test]
fn repeated_bad_flag_is_reported_per_occurrence() {
    let opts = vec![String::from("rar"), String::from("rar")];
    let (has_zip, issues) = parse_options(&opts);
    assert!(!has_zip);
    assert_eq!(
        issues,
        vec![
            FileOptionError::Unexpected(String::from("rar")),
            FileOptionError::Unexpected(String::from("rar")),
        ]
    );
}

#[test]
fn plain_file_is_planned_as_one_copy_under_its_base_name() {
    let target = IncludePath::File(String::from("notes/report.txt"));
    let acts = apply_include_transforms(&target, false, &Vec::new());
    assert_eq!(acts.len(), 1);
    match &acts[0] {
        StageAction::CopyFile { source, target_name } => {
            assert_eq!(source, "notes/report.txt");
            assert_eq!(target_name, "report.txt");
        }
        _ => panic!("expected a copy action"),
    }
}

#[test]
fn zipped_file_is_planned_as_one_single_item_archive() {
    let target = IncludePath::File(String::from("notes/report.txt"));
    let acts = apply_include_transforms(&target, true, &Vec::new());
    assert_eq!(acts.len(), 1);
    match &acts[0] {
        StageAction::BuildArchive { target_name, items } => {
            assert_eq!(target_name, "report.txt.zip");
            assert_eq!(items.len(), 1);
            assert_eq!(items[0].name, "report.txt");
            assert_eq!(items[0].source.as_deref(), Some("notes/report.txt"));
        }
        _ => panic!("expected an archive action"),
    }
}

#[test]
fn zipped_dir_archives_every_entry_under_its_relative_path() {
    let target = IncludePath::Dir(String::from("work/proj"));
    let listing = vec![
        walk("a.txt", "work/proj/a.txt", EntryKind::File),
        walk("sub", "work/proj/sub", EntryKind::Dir),
        walk("sub/b.txt", "work/proj/sub/b.txt", EntryKind::File),
        walk("link", "work/proj/link", EntryKind::Symlink),
    ];
    let acts = apply_include_transforms(&target, true, &listing);
    assert_eq!(acts.len(), 1);
    match &acts[0] {
        StageAction::BuildArchive { target_name, items } => {
            assert_eq!(target_name, "proj.zip");
            assert_eq!(items.len(), 3);
            assert_eq!(items[0].name, "a.txt");
            assert_eq!(items[0].source.as_deref(), Some("work/proj/a.txt"));
            assert_eq!(items[1].name, "sub");
            assert_eq!(items[1].source, None);
            assert_eq!(items[2].name, "sub/b.txt");
            assert_eq!(items[2].source.as_deref(), Some("work/proj/sub/b.txt"));
        }
        _ => panic!("expected an archive action"),
    }
}

#[test]
fn plain_dir_copies_every_file_flattened() {
    let target = IncludePath::Dir(String::from("work/proj"));
    let listing = vec![
        walk("a.txt", "work/proj/a.txt", EntryKind::File),
        walk("sub", "work/proj/sub", EntryKind::Dir),
        walk("sub/b.txt", "work/proj/sub/b.txt", EntryKind::File),
        walk("link", "work/proj/link", EntryKind::Symlink),
    ];
    let acts = apply_include_transforms(&target, false, &listing);
    assert_eq!(acts.len(), 2);
    match &acts[0] {
        StageAction::CopyFile { source, target_name } => {
            assert_eq!(source, "work/proj/a.txt");
            assert_eq!(target_name, "a.txt");
        }
        _ => panic!("expected a copy action"),
    }
    match &acts[1] {
        StageAction::CopyFile { source, target_name } => {
            assert_eq!(source, "work/proj/sub/b.txt");
            assert_eq!(target_name, "b.txt");
        }
        _ => panic!("expected a copy action"),
    }
}

#[test]
fn missing_entry_is_skipped_and_siblings_still_stage() {
    let entries = vec![
        StageEntry {
            resolved: Err(IncludeError::NotPresent(String::from("gone.txt"))),
            options: Vec::new(),
            listing: Vec::new(),
        },
        StageEntry {
            resolved: Ok(IncludePath::File(String::from("kept.txt"))),
            options: Vec::new(),
            listing: Vec::new(),
        },
    ];
    let plan = stage_includes(&entries);
    assert_eq!(plan.skipped, vec![IncludeError::NotPresent(String::from("gone.txt"))]);
    assert_eq!(plan.actions.len(), 1);
    match &plan.actions[0] {
        StageAction::CopyFile { source, target_name } => {
            assert_eq!(source, "kept.txt");
            assert_eq!(target_name, "kept.txt");
        }
        _ => panic!("expected a copy action"),
    }
    assert!(plan.flag_issues.is_empty());
}

#[test]
fn bad_flag_never_unstages_its_entry() {
    let entries = vec![StageEntry {
        resolved: Ok(IncludePath::File(String::from("kept.txt"))),
        options: vec![String::from("rar")],
        listing: Vec::new(),
    }];
    let plan = stage_includes(&entries);
    assert_eq!(plan.flag_issues, vec![FileOptionError::Unexpected(String::from("rar"))]);
    assert_eq!(plan.actions.len(), 1);
    assert!(plan.skipped.is_empty());
}

#[test]
fn archive_of_one_file_reads_back_byte_for_byte() {
    let entries = vec![PayloadEntry {
        name: String::from("hello.txt"),
        data: Some(b"hello world".to_vec()),
    }];
    let bytes = build_archive(&entries).unwrap();
    let mut ar = zip::ZipArchive::new(std::io::Cursor::new(bytes)).unwrap();
    assert_eq!(ar.len(), 1);
    let mut f = ar.by_index(0).unwrap();
    assert_eq!(f.name(), "hello.txt");
    let mut out = Vec::new();
    std::io::Read::read_to_end(&mut f, &mut out).unwrap();
    assert_eq!(out, b"hello world");
}

#[test]
fn archive_of_a_tree_keeps_relative_paths_and_bytes() {
    let entries = vec![
        PayloadEntry { name: String::from("a.txt"), data: Some(b"alpha".to_vec()) },
        PayloadEntry { name: String::from("sub"), data: None },
        PayloadEntry { name: String::from("sub/b.txt"), data: Some(b"beta".to_vec()) },
    ];
    let bytes = build_archive(&entries).unwrap();
    let mut ar = zip::ZipArchive::new(std::io::Cursor::new(bytes)).unwrap();
    assert_eq!(ar.len(), 3);
    {
        let f = ar.by_name("sub/").unwrap();
        assert!(f.is_dir());
    }
    {
        let mut f = ar.by_name("a.txt").unwrap();
        let mut out = Vec::new();
        std::io::Read::read_to_end(&mut f, &mut out).unwrap();
        assert_eq!(out, b"alpha");
    }
    {
        let mut f = ar.by_name("sub/b.txt").unwrap();
        let mut out = Vec::new();
        std::io::Read::read_to_end(&mut f, &mut out).unwrap();
        assert_eq!(out, b"beta");
    }
}

#[test]
fn duplicate_archive_names_fail_the_build() {
    let entries = vec![
        PayloadEntry { name: String::from("same.txt"), data: Some(b"one".to_vec()) },
        PayloadEntry { name: String::from("same.txt"), data: Some(b"two".to_vec()) },
    ];
    match build_archive(&entries) {
        Err(ArchiveError::Zip(_)) => {}
        Ok(_) => panic!("expected the duplicate name to fail the build"),
    }
}

#[test]
fn find_root_picks_the_nearest_marked_ancestor() {
    assert_eq!(find_root(&vec![false, true, true, false]), Some(1));
    assert_eq!(find_root(&vec![true]), Some(0));
}

#[test]
fn find_root_reports_an_unmarked_chain() {
    assert_eq!(find_root(&vec![false, false, false]), None);
    assert_eq!(find_root(&Vec::new()), None);
}
