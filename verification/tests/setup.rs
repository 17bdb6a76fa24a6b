use std::collections::HashSet;

use weave::bootstrap::{apply, BEGIN, END};
use weave::doctor::{
    as_clause, check_disk_space, check_git, ensure_ready, fail, install_report, not_ready_error,
    parse_git_version, pass, print_report, run_briefly, split, warn, BriefRun, BundleFacts,
    CheckStatus, ExeFacts, InstallFacts, Launch, Report, Scope, Sqlite,
};
use weave::error::ErrorClass;
use weave::install::{
    bundled_cloudflared_in, bundled_names, cloudflared, support_dirs, support_dirs_for,
    supported_platform, CloudflaredSource, Machine,
};

fn machine() -> Machine {
    Machine {
        os: "linux".to_string(),
        arch: "x86_64".to_string(),
        exe_suffix: "".to_string(),
        exe_stem: Some("weave".to_string()),
        exe_dir: Some("/usr/bin".to_string()),
        real_exe_dir: Some("/usr/bin".to_string()),
    }
}

// ------------------------------------------------------------- installation

#[test]
fn support_dirs_are_anchored_on_the_executable() {
    let dirs = support_dirs(&machine());
    assert!(!dirs.is_empty());
    assert_eq!(dirs[0], "/usr/bin", "the executable's own directory comes first");
}

#[test]
fn support_dirs_contain_no_duplicates() {
    let dirs = support_dirs(&machine());
    let mut seen = HashSet::new();
    for dir in &dirs {
        assert!(seen.insert(dir.clone()), "{dir} listed twice");
    }
}

#[test]
fn the_documented_package_layouts_resolve() {
    // Windows: cloudflared.exe sits beside weave.exe.
    let windows = support_dirs_for(r"C:\Users\a\AppData\Local\Programs\Weave");
    assert_eq!(windows[0], r"C:\Users\a\AppData\Local\Programs\Weave");

    // Linux .deb: /usr/bin/weave -> /usr/lib/weave/cloudflared.
    let linux = support_dirs_for("/usr/bin");
    assert!(linux.contains(&"/usr/lib/weave".to_string()));

    // macOS .pkg: /usr/local/bin/weave -> /usr/local/libexec/weave/.
    let macos = support_dirs_for("/usr/local/bin");
    assert!(macos.contains(&"/usr/local/libexec/weave".to_string()));

    // Portable tarball, run in place.
    let tarball = support_dirs_for("/opt/weave-linux-x64/bin");
    assert!(tarball.contains(&"/opt/weave-linux-x64/lib/weave".to_string()));
}

#[test]
fn the_architecture_qualified_name_is_preferred() {
    let mut m = machine();
    m.exe_suffix = ".exe".to_string();
    let names = bundled_names(&m);
    assert_eq!(names[0], "cloudflared-x86_64.exe");
    assert_eq!(names[1], "cloudflared.exe");
}

#[test]
fn nothing_is_found_in_an_empty_installation() {
    let empty = vec!["/tmp/weave-empty-install-probe".to_string()];
    assert!(bundled_cloudflared_in(&machine(), &empty, &Vec::new()).is_none());
}

#[test]
fn a_bundled_tunnel_wins_over_the_path_and_an_override_over_both() {
    let files = vec!["/usr/lib/weave/cloudflared".to_string()];
    let on_path = Some("/usr/local/bin/cloudflared".to_string());
    let found = cloudflared(&machine(), None, on_path.clone(), &files).unwrap();
    assert_eq!(found.source, CloudflaredSource::Bundled);
    assert_eq!(found.path, "/usr/lib/weave/cloudflared");
    let found = cloudflared(&machine(), None, on_path.clone(), &Vec::new()).unwrap();
    assert_eq!(found.source, CloudflaredSource::Path);
    // An override that points nowhere is a mistake, not a wish for another one.
    let chosen = Some("/opt/cf".to_string());
    assert!(cloudflared(&machine(), chosen.clone(), on_path.clone(), &files).is_none());
    let files = vec!["/usr/lib/weave/cloudflared".to_string(), "/opt/cf".to_string()];
    let found = cloudflared(&machine(), chosen, on_path, &files).unwrap();
    assert_eq!(found.source, CloudflaredSource::Override);
}

#[test]
fn only_the_packaged_platforms_are_supported() {
    assert!(supported_platform(&machine()));
    let mut m = machine();
    m.os = "windows".to_string();
    m.arch = "aarch64".to_string();
    assert!(!supported_platform(&m));
}

// -------------------------------------------------------------------- doctor

#[test]
fn git_versions_parse() {
    assert_eq!(parse_git_version("git version 2.51.0"), Some((2, 51)));
    assert_eq!(parse_git_version("git version 2.39.5 (Apple Git-154)"), Some((2, 39)));
    assert_eq!(parse_git_version("git version 2.47.1.windows.2"), Some((2, 47)));
    assert_eq!(parse_git_version("git version broken"), None);
}

#[test]
fn only_a_leading_determiner_is_lowered() {
    assert_eq!(
        as_clause("This directory is not inside a Git repository."),
        "this directory is not inside a Git repository."
    );
    assert_eq!(
        as_clause("The .git directory is unusable."),
        "the .git directory is unusable."
    );
    assert_eq!(as_clause("Git was not found on PATH."), "Git was not found on PATH.");
    assert_eq!(as_clause("SQLite is unusable."), "SQLite is unusable.");
    assert_eq!(as_clause(""), "");
}

#[test]
fn a_report_is_ready_only_without_failures() {
    let ready = Report::new(Scope::Install, vec![pass("a", ""), warn("b", "")]);
    assert!(ready.ready);
    assert!(ready.first_failure().is_none());

    let broken = Report::new(Scope::Install, vec![pass("a", ""), fail("b", "boom")]);
    assert!(!broken.ready);
    assert_eq!(broken.first_failure().map(|c| c.name.as_str()), Some("b"));
}

#[test]
fn preflight_reports_warnings_separately_from_blockers() {
    let split = split(vec![
        pass("fine", ""),
        warn("noisy", "worth saying"),
        fail("broken", "stop"),
    ]);
    assert_eq!(split.blockers.len(), 1);
    assert_eq!(split.warnings.len(), 1);
    assert!(!split.ok());
}

fn install_facts() -> InstallFacts {
    InstallFacts {
        machine: machine(),
        exe: ExeFacts {
            path: Some("/usr/bin/weave".to_string()),
            readable: true,
            as_weave: false,
            launch: Launch::Reported("weave 1.0.0".to_string()),
            version: "1.0.0".to_string(),
        },
        bundle: BundleFacts {
            weave_version: "1.0.0".to_string(),
            bundle: None,
            found: None,
            override_set: false,
            support_dirs: vec!["/usr/bin".to_string()],
            run: BriefRun::Errored,
            notice: None,
        },
        git: Some("git version 2.51.0".to_string()),
        sqlite: Sqlite::Version("3.46.0".to_string()),
    }
}

#[test]
fn the_installation_report_needs_no_repository() {
    let report = install_report(&install_facts());
    assert_eq!(report.scope, Scope::Install);
    assert!(report.checks.iter().any(|c| c.name == "Platform"));
    assert!(report.checks.iter().any(|c| c.name == "Git"));
}

#[test]
fn an_old_git_fails_and_a_missing_one_too() {
    assert_eq!(check_git(&Some("git version 2.51.0".to_string())).status, CheckStatus::Pass);
    assert_eq!(check_git(&Some("git version 2.24.9".to_string())).status, CheckStatus::Fail);
    assert_eq!(check_git(&None).status, CheckStatus::Fail);
}

#[test]
fn little_disk_space_is_worth_a_warning() {
    assert_eq!(check_disk_space(Some(u64::MAX)).status, CheckStatus::Pass);
    assert_ne!(check_disk_space(Some(0)).status, CheckStatus::Pass);
}

#[test]
fn a_failure_makes_the_machine_not_ready() {
    let broken = Report::new(Scope::Install, vec![fail("Git", "boom")]);
    let e = not_ready_error(&broken);
    assert_eq!(e.class, ErrorClass::RepositoryError);
    assert_eq!(e.detail.as_deref(), Some("Git — boom"));
    assert!(!print_report(&broken).is_empty());
    assert!(ensure_ready(&split(vec![warn("w", "x")])).is_ok());
    assert!(ensure_ready(&split(vec![fail("f", "The disk is full.")])).is_err());
}

#[test]
fn the_first_line_of_a_program_is_what_it_said() {
    match run_briefly(true, "cloudflared version 2026.8.2\nmore", "") {
        BriefRun::Said(s) => assert_eq!(s, "cloudflared version 2026.8.2"),
        other => panic!("unexpected {other:?}"),
    }
    assert!(matches!(run_briefly(false, "", ""), BriefRun::Errored));
}

// ----------------------------------------------------------------- bootstrap

#[test]
fn creates_then_updates_without_touching_other_text() {
    let result = apply(&None);
    assert!(result.created);

    let mut text = result.content.unwrap();
    text.insert_str(0, "# Project instructions\n\nDo the thing.\n\n");

    // Corrupt the managed block and re-apply.
    let text = text.replace("## Weave collaboration", "## Stale heading");

    let result = apply(&Some(text));
    assert!(result.updated);
    let final_text = result.content.unwrap();
    assert!(final_text.starts_with("# Project instructions"));
    assert!(final_text.contains("Do the thing."));
    assert!(final_text.contains("## Weave collaboration"));
    assert_eq!(final_text.matches(BEGIN).count(), 1);
}

#[test]
fn appends_when_no_block_present() {
    let text = apply(&Some("# Existing\n".to_string())).content.unwrap();
    assert!(text.starts_with("# Existing"));
    assert!(text.contains(BEGIN));
    assert!(text.contains(END));
}

#[test]
fn an_up_to_date_block_is_left_alone() {
    let text = apply(&None).content.unwrap();
    let again = apply(&Some(text));
    assert!(!again.created && !again.updated);
    assert!(again.content.is_none());
}

#[test]
fn a_second_bootstrap_changes_nothing_and_opens_one_block() {
    let stale = format!("# Notes\n\n{BEGIN}\nold\n{END}\nrest\n");
    for existing in [None, Some("# Notes".to_string()), Some(stale.clone())] {
        let first = apply(&existing);
        let text = first.content.expect("something had to be written");
        assert_eq!(first.created, existing.is_none());
        assert!(first.updated);
        assert_eq!(text.matches(BEGIN).count(), 1);
        let second = apply(&Some(text));
        assert!(second.content.is_none());
        assert!(!second.created && !second.updated);
    }
    let replaced = apply(&Some(stale)).content.unwrap();
    assert!(replaced.starts_with("# Notes\n\n"));
    assert!(replaced.ends_with("\nrest\n"));
    assert!(!replaced.contains("\nold\n"));
    assert!(replaced.contains(weave::bootstrap::managed_block().as_str()));
}
