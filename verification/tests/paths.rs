use weave::error::ErrorClass;
use weave::path::{ensure_no_indirection, PathPart, RepoPath, StepKind};

#[test]
fn accepts_ordinary_paths() {
    assert!(RepoPath::new("slides/07-pricing.tsx").is_ok());
    assert!(RepoPath::new("README.md").is_ok());
    assert!(RepoPath::new("a/b/c/d.json").is_ok());
}

#[test]
fn rejects_traversal_and_git() {
    assert!(RepoPath::new("../escape").is_err());
    assert!(RepoPath::new("a/../b").is_err());
    assert!(RepoPath::new(".git/config").is_err());
    assert!(RepoPath::new("nested/.git/hooks/x").is_err());
    assert!(RepoPath::new("/absolute").is_err());
    assert!(RepoPath::new("C:/x").is_err());
}

#[test]
fn rejects_windows_hostile_names() {
    assert!(RepoPath::new("com1.txt").is_err());
    assert!(RepoPath::new("NUL").is_err());
    assert!(RepoPath::new("dir/trailing ").is_err());
    assert!(RepoPath::new("dir/trailing.").is_err());
    assert!(RepoPath::new("we:ird.txt").is_err());
    assert!(RepoPath::new("back\\slash.txt").is_err());
}

#[test]
fn collision_key_folds_case_and_normalizes() {
    let a = RepoPath::new("Slide.tsx").unwrap();
    let b = RepoPath::new("slide.tsx").unwrap();
    assert_eq!(a.collision_key(), b.collision_key());

    // NFD "é" and NFC "é" must fold together.
    let nfc = RepoPath::new("caf\u{e9}.md").unwrap();
    let nfd = RepoPath::new("cafe\u{301}.md").unwrap();
    assert_eq!(nfc.collision_key(), nfd.collision_key());
    assert_eq!(nfd.collision_key(), "caf\u{e9}.md");
}

#[test]
fn parent_dirs_are_ordered_outermost_first() {
    let p = RepoPath::new("a/b/c.txt").unwrap();
    assert_eq!(p.parent_dirs(), vec!["a".to_string(), "a/b".to_string()]);
}

#[test]
fn a_device_name_is_refused_in_any_case() {
    for raw in ["nul", "Con.txt", "a/LPT9.log", "aux/b"] {
        assert!(RepoPath::new(raw).is_err(), "{raw}");
    }
    assert!(RepoPath::new("console.txt").is_ok());
}

#[test]
fn a_relative_path_of_the_file_system_is_joined_with_slashes() {
    let parts = vec![
        PathPart::CurDir,
        PathPart::Normal(Some("src".to_string())),
        PathPart::Normal(Some("lib.rs".to_string())),
    ];
    assert_eq!(RepoPath::from_relative(&parts, "./src/lib.rs").unwrap().as_str(), "src/lib.rs");
    assert!(RepoPath::from_relative(&vec![PathPart::Other], "..").is_err());
    assert!(RepoPath::from_relative(&vec![PathPart::Normal(None)], "?").is_err());
}

#[test]
fn a_link_on_the_way_is_refused() {
    let p = RepoPath::new("a/b/c.txt").unwrap();
    assert!(ensure_no_indirection(&p, &vec![StepKind::Plain, StepKind::Plain]).is_ok());
    let e = ensure_no_indirection(&p, &vec![StepKind::Plain, StepKind::Link]).unwrap_err();
    assert_eq!(e.class, ErrorClass::UnsupportedError);
}
