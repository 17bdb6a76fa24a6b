use weave::blobs::BlobStore;
use weave::cli::{
    bootstrap_line, key_to_get, name_to_set, read_invite, run, uses_json, Command, CommitCommand,
    ConfigKey, ConflictCommand, JsonArgs, Plan, ResolveChoice, Show, TaskCommand, TunnelCommand,
};
use weave::client_ipc::{find_by_id, overlapping_tasks, parse_scopes};
use weave::daemon::{
    describe_connect_failure, foreign_host, handle_ipc_command, local_ip, next_backoff, run_host,
    run_join, run_resume, version_refusal, InvitePayload, Resume, Route, SessionRecord, StartFacts,
    TransportMode,
};
use weave::error::ErrorClass;
use weave::gitx::{
    dirty_entries, merge_file, operation_in_progress, push, remote_of, require, GitOutput,
    MergeOutcome, OperationMarkers,
};
use weave::ipc::{no_daemon, IpcCommand, IpcResponse, ResolveSource};
use weave::model::{Role, Task, TaskStatus, PROTOCOL_VERSION};
use weave::proto::SessionInfo;
use weave::recover::{self, print_report, rebuilt_line, CanonicalFacts, ReplicaFacts};
use weave::render::plural;
use weave::store_client::ClientStore;

// -------------------------------------------------------------------- scopes

#[test]
fn parses_file_and_range_scopes() {
    let scopes = parse_scopes(&vec![
        "slides/07-pricing.tsx".to_string(),
        "slides/07-pricing.tsx:50-110".to_string(),
    ])
    .unwrap();
    assert_eq!(scopes.len(), 2);
    assert!(scopes[0].line_start.is_none());
    assert_eq!(scopes[1].line_start, Some(50));
    assert_eq!(scopes[1].line_end, Some(110));
}

#[test]
fn rejects_bad_ranges() {
    assert!(parse_scopes(&vec!["a.txt:10-2".to_string()]).is_err());
    assert!(parse_scopes(&vec!["../escape.txt".to_string()]).is_err());
}

#[test]
fn blank_scopes_are_left_out_and_backslashes_read_as_slashes() {
    let scopes = parse_scopes(&vec!["  ".to_string(), " a\\b.txt ".to_string()]).unwrap();
    assert_eq!(scopes.len(), 1);
    assert_eq!(scopes[0].path.as_str(), "a/b.txt");
}

#[test]
fn a_short_identifier_names_a_record() {
    let ids: Vec<u128> = vec![0xA1B2_C3D4 << 96, 0x0102_0304 << 96];
    assert_eq!(find_by_id(&ids, 'T', "T-A1B2", "Task").unwrap(), 0);
    let e = find_by_id(&ids, 'T', "T-FFFF", "Task").unwrap_err();
    assert_eq!(e.class, ErrorClass::UsageError);
}

fn a_task(id: u128, actor_id: u128, scope: &str) -> Task {
    Task {
        id,
        actor_id,
        description: "edit".to_string(),
        status: TaskStatus::Active,
        created_at_ms: 0,
        updated_at_ms: 0,
        created_revision: 0,
        completed_revision: None,
        scopes: parse_scopes(&vec![scope.to_string()]).unwrap(),
        touched_paths: Vec::new(),
        first_accepted_revision: None,
        last_accepted_revision: None,
    }
}

#[test]
fn only_tasks_on_the_same_lines_overlap() {
    let mine = a_task(1, 1, "a.txt:10-20");
    let tasks =
        vec![a_task(1, 1, "a.txt:10-20"), a_task(2, 2, "a.txt:20-30"), a_task(3, 3, "a.txt:21-30")];
    let found = overlapping_tasks(&tasks, &mine);
    let ids: Vec<u128> = found.iter().map(|o| o.task_id).collect();
    assert_eq!(ids, vec![2]);
}

// -------------------------------------------------------------- command line

#[test]
fn a_task_update_without_files_keeps_its_scopes() {
    let command = Command::Task(TaskCommand::Update {
        id: "T-1".to_string(),
        description: None,
        files: Vec::new(),
        json: true,
    });
    assert!(uses_json(&command));
    match run(command).unwrap() {
        Plan::Call { command, follow_up, timeout_s, show, json } => {
            assert!(matches!(command, IpcCommand::TaskUpdate { scopes: None, .. }));
            assert!(matches!(follow_up, Some(IpcCommand::TaskShow { .. })));
            assert_eq!((timeout_s, show, json), (120, Show::TaskShow, true));
        }
        other => panic!("unexpected {other:?}"),
    }
}

#[test]
fn a_named_file_wins_over_any_other_source() {
    let resolve = |file: Option<String>| {
        run(Command::Conflict(ConflictCommand::Resolve {
            id: "C-1".to_string(),
            source: ResolveChoice::Incoming,
            content_file: file,
            json: false,
        }))
        .unwrap()
    };
    let source = |plan: Plan| match plan {
        Plan::Call { command: IpcCommand::ConflictResolve { source, .. }, .. } => source,
        other => panic!("unexpected {other:?}"),
    };
    assert_eq!(source(resolve(None)), ResolveSource::Incoming);
    assert_eq!(source(resolve(Some("x.txt".to_string()))), ResolveSource::Supplied);
}

#[test]
fn a_commit_needs_a_message() {
    let create = |message: Option<String>, message_stdin: bool| {
        run(Command::Commit(CommitCommand::Create {
            prepare_id: "P-1".to_string(),
            message,
            message_stdin,
            json: false,
        }))
    };
    let e = create(None, false).unwrap_err();
    assert_eq!(e.class, ErrorClass::UsageError);
    assert_eq!(e.message, "A commit message is required.");
    assert!(matches!(create(None, true).unwrap(), Plan::CreateFromStdin { .. }));
    assert!(matches!(create(Some("docs: x".to_string()), false).unwrap(), Plan::Call { .. }));
}

#[test]
fn a_new_tunnel_may_take_longer() {
    let command = Command::Tunnel(TunnelCommand::Restart(JsonArgs { json: false }));
    match run(command).unwrap() {
        Plan::Call { timeout_s, .. } => assert_eq!(timeout_s, 180),
        other => panic!("unexpected {other:?}"),
    }
}

#[test]
fn configuration_keys_are_known_or_refused() {
    assert_eq!(key_to_get("actor-id").unwrap(), ConfigKey::ActorId);
    assert_eq!(key_to_get("display_name").unwrap(), ConfigKey::DisplayName);
    assert_eq!(key_to_get("color").unwrap_err().class, ErrorClass::UsageError);
    assert_eq!(name_to_set("display_name", " Ada ").unwrap(), Some("Ada".to_string()));
    assert_eq!(name_to_set("display-name", "  ").unwrap(), None);
    assert!(name_to_set("actor_id", "x").is_err());
}

#[test]
fn an_invite_that_was_asked_for_has_to_be_there() {
    assert_eq!(read_invite(" abc\n", true).unwrap(), "abc");
    assert_eq!(read_invite("", true).unwrap_err().message, "No invite was entered.");
    assert_eq!(read_invite("", false).unwrap(), "");
}

#[test]
fn a_bootstrap_says_what_it_did() {
    let made = weave::bootstrap::apply(&None);
    assert_eq!(
        bootstrap_line("AGENTS.md", &made),
        "Created AGENTS.md with the Weave collaboration block."
    );
}

#[test]
fn an_answer_is_a_result() {
    assert_eq!(IpcResponse::ok("{}".to_string()).into_result().unwrap(), "{}");
    let e = IpcResponse::error(&no_daemon()).into_result().unwrap_err();
    assert_eq!(e.class, no_daemon().class);
}

// -------------------------------------------------------------------- daemon

fn facts() -> StartFacts {
    StartFacts {
        unsupported: Ok(Vec::new()),
        operation: None,
        branch: Some("main".to_string()),
        dirty: Ok(Vec::new()),
        head: Some("1111111111".to_string()),
    }
}

fn session() -> SessionInfo {
    SessionInfo {
        session_id: 5,
        repo_name: "deck".to_string(),
        branch: "main".to_string(),
        base_commit: "1111111111".to_string(),
        host_actor_id: 1,
        host_display_name: "Ada".to_string(),
        created_at_ms: 7,
    }
}

fn record(role: Role, mode: TransportMode) -> SessionRecord {
    SessionRecord {
        role,
        session: session(),
        secret: "s".to_string(),
        endpoint: Some("wss://host".to_string()),
        mode,
        created_at_ms: 7,
    }
}

#[test]
fn a_new_session_starts_from_a_clean_branch() {
    let start = run_host(&facts(), &None).unwrap();
    assert!(!start.resuming);
    assert_eq!((start.branch.as_str(), start.head.as_str()), ("main", "1111111111"));

    let mut dirty = facts();
    dirty.dirty = Ok(vec!["a.txt".to_string()]);
    assert!(run_host(&dirty, &None).is_err());
    // A session that exists already expects a working tree in motion.
    let again = Some(record(Role::Host, TransportMode::Lan));
    assert!(run_host(&dirty, &again).unwrap().resuming);

    let mut detached = facts();
    detached.branch = None;
    assert!(run_host(&detached, &None).is_err());
}

#[test]
fn a_participant_joins_from_the_same_commit() {
    let invite = InvitePayload {
        protocol_version: PROTOCOL_VERSION,
        url: "wss://host".to_string(),
        session_id: 5,
        secret: "s".to_string(),
        base_commit: "1111111111".to_string(),
        branch: "main".to_string(),
        repo_name: "deck".to_string(),
    };
    assert!(!run_join(&facts(), &invite, &None).unwrap());
    let mut elsewhere = facts();
    elsewhere.branch = Some("other".to_string());
    assert!(run_join(&elsewhere, &invite, &None).is_err());
    let mut behind = facts();
    behind.head = Some("2222222222".to_string());
    assert!(run_join(&behind, &invite, &None).is_err());
    let back = Some(record(Role::Participant, TransportMode::Tunnel));
    assert!(run_join(&behind, &invite, &back).unwrap());
}

#[test]
fn a_session_is_resumed_in_its_role_and_mode() {
    match run_resume(&Some(record(Role::Host, TransportMode::Lan))).unwrap() {
        Resume::Host(o) => assert!(o.lan && !o.local_only),
        other => panic!("unexpected {other:?}"),
    }
    match run_resume(&Some(record(Role::Participant, TransportMode::Tunnel))).unwrap() {
        Resume::Join(p) => {
            assert_eq!(p.url, "wss://host");
            assert_eq!(p.session_id, 5);
        }
        other => panic!("unexpected {other:?}"),
    }
    assert_eq!(run_resume(&None).unwrap_err().class, ErrorClass::SessionError);
}

#[test]
fn another_protocol_is_refused_on_both_sides() {
    assert!(version_refusal(PROTOCOL_VERSION).is_none());
    assert!(version_refusal(PROTOCOL_VERSION + 1).is_some());
    assert!(foreign_host(PROTOCOL_VERSION).is_none());
    assert!(foreign_host(0).is_some());
}

#[test]
fn retries_back_off_up_to_a_limit() {
    assert_eq!(next_backoff(8, true), 1);
    let mut n = 1;
    for _ in 0..6 {
        n = next_backoff(n, false);
    }
    assert_eq!(n, 8);
}

#[test]
fn a_refused_connection_says_why() {
    let e = describe_connect_failure(Some(401), "");
    assert_eq!(e.class, ErrorClass::ProtocolError);
    let e = describe_connect_failure(None, "connection refused");
    assert_eq!(e.class, ErrorClass::NetworkError);
}

#[test]
fn commands_of_the_daemon_never_reach_the_replica() {
    assert!(matches!(handle_ipc_command(IpcCommand::Stop), Route::Stop));
    assert!(matches!(handle_ipc_command(IpcCommand::Status), Route::Engine(IpcCommand::Status)));
    assert_eq!(local_ip(&Some("10.0.0.9".to_string()), "192.168.0.2"), "10.0.0.9");
}

// ------------------------------------------------------------------- recover

#[test]
fn a_replica_without_problems_is_healthy() {
    let replica = ReplicaFacts {
        problems: Vec::new(),
        incomplete: Vec::new(),
        missing: 0,
        pending: 2,
    };
    let r = recover::run(
        Some("host".to_string()),
        &Some(replica),
        &None,
        "Blob store: 0 objects, 0.0 MiB".to_string(),
        vec![rebuilt_line(3)],
        None,
    );
    assert!(r.healthy);
    assert_eq!(r.findings[0], "Replica database integrity: ok");
    assert_eq!(r.findings[3], "Outbox: 2 path(s) with unconfirmed local work");
    let lines = print_report(&r);
    assert_eq!(lines[0], "Session role: host");
    assert_eq!(lines[lines.len() - 1], "No integrity problems found.");
    assert!(lines.contains(
        &"Rebuilt the canonical manifest from durable revision history (3 file(s)).".to_string()
    ));
}

#[test]
fn missing_content_is_a_problem_and_only_ten_are_listed() {
    let missing: Vec<String> = (0..12).map(|i| format!("file{i}")).collect();
    let canonical = CanonicalFacts {
        problems: vec!["page 3".to_string()],
        missing,
        revision: 4,
        files: 5,
        publications: 1,
        open_conflicts: 0,
    };
    let r = recover::run(None, &None, &Some(canonical), "Blob store".to_string(), vec![], None);
    assert!(!r.healthy);
    assert_eq!(r.findings[0], "Canonical database problems: page 3");
    assert_eq!(r.findings[1], "IntegrityError: 12 canonical blob reference(s) are missing");
    assert_eq!(r.findings[11], "  file9");
    assert_eq!(r.findings[13], "Canonical files: 5");
}

#[test]
fn an_untouched_replica_misses_nothing() {
    assert_eq!(recover::missing_local(&ClientStore::new(), &BlobStore::open("/b")), 0);
}

// ----------------------------------------------------------------------- git

fn output(status: i32, stdout: &[u8], stderr: &str) -> GitOutput {
    GitOutput { status, stdout: stdout.to_vec(), stderr: stderr.to_string() }
}

#[test]
fn a_merge_is_clean_or_a_conflict_or_an_error() {
    assert_eq!(merge_file(output(0, b"AB", "")).unwrap(), MergeOutcome::Clean(b"AB".to_vec()));
    assert_eq!(merge_file(output(2, b"<<<<", "")).unwrap(), MergeOutcome::Conflict);
    assert!(merge_file(output(255, b"", "boom")).is_err());
}

#[test]
fn a_rejected_push_is_told_from_a_failed_one() {
    assert!(push(output(0, b"", "")).ok);
    let diverged = push(output(1, b"", "! [rejected] main -> main (non-fast-forward)"));
    assert!(!diverged.ok && diverged.diverged);
    let failed = push(output(128, b"", "fatal: could not resolve host"));
    assert!(!failed.ok && !failed.diverged);
}

#[test]
fn a_git_failure_names_the_command() {
    let e = require(&vec!["status".to_string()], output(1, b"", "fatal: boom\n")).unwrap_err();
    assert_eq!(e.class, ErrorClass::GitError);
    assert!(e.message.contains("status"));
}

#[test]
fn an_operation_in_progress_is_named() {
    let mut m = OperationMarkers {
        merge_head: false,
        cherry_pick_head: false,
        revert_head: false,
        bisect_log: false,
        rebase_merge: false,
        rebase_apply: false,
    };
    assert!(operation_in_progress(m).is_none());
    m.rebase_apply = true;
    assert_eq!(operation_in_progress(m).unwrap(), "rebase");
}

#[test]
fn changed_files_are_listed() {
    let found = dirty_entries(output(0, b" M a.txt\0?? b c.txt\0", "")).unwrap();
    assert_eq!(found.len(), 2);
    assert_eq!(remote_of("origin/main"), "origin");
}

#[test]
fn one_is_not_many() {
    assert_eq!(plural(1, "file"), "1 file");
    assert_eq!(plural(0, "file"), "0 files");
}

#[test]
fn what_git_writes_is_read_as_text_even_when_it_is_not() {
    let found = dirty_entries(output(0, b" M \xff.txt\0", "")).unwrap();
    assert_eq!(found, vec![" M \u{fffd}.txt".to_string()]);
}

#[test]
fn an_identifier_is_found_in_any_notation_and_case() {
    let ids: Vec<u128> = vec![0xA1B2_C3D4 << 96, 0x0102_0304 << 96];
    assert_eq!(find_by_id(&ids, 'T', "a1b2c3d4", "Task").unwrap(), 0);
    assert_eq!(find_by_id(&ids, 'T', "t-0102", "Task").unwrap(), 1);
    let full = weave::util::uuid_text(ids[1]);
    assert_eq!(full, "01020304-0000-0000-0000-000000000000");
    assert_eq!(find_by_id(&ids, 'T', &full, "Task").unwrap(), 1);
    let many: Vec<u128> = vec![0xAA << 120, 0xAA << 120 | 1];
    assert!(find_by_id(&many, 'T', "aa", "Task").unwrap_err().message.contains("matches 2 Tasks"));
}

#[test]
fn a_renamed_file_is_one_change() {
    let found =
        dirty_entries(output(0, b"R  new.txt\0old.txt\0 M b.txt\0C  c.txt\0d.txt\0", "")).unwrap();
    assert_eq!(found, vec!["R  new.txt", " M b.txt", "C  c.txt"]);
}

#[test]
fn a_scope_is_shown_as_it_was_written() {
    let mut scopes =
        parse_scopes(&vec!["src/a b.rs:3-12".to_string(), "README.md".to_string()]).unwrap();
    assert_eq!(scopes[0].display(), "src/a b.rs:3-12");
    assert_eq!(scopes[1].display(), "README.md");
    scopes[0].stale = true;
    assert_eq!(scopes[0].display(), "src/a b.rs:3-12 (stale, file-level)");
    scopes[0].line_end = None;
    assert_eq!(scopes[0].display(), "src/a b.rs");
}

#[test]
fn an_identifier_is_read_in_all_its_notations() {
    let ids: Vec<u128> = vec![1, 0x936d_a01f_9abd_4d9d_80c7_02af_85c8_22a8];
    for raw in [
        "936da01f9abd4d9d80c702af85c822a8",
        "936DA01F-9abd-4d9d-80c7-02af85c822a8",
        "{936da01f-9abd-4d9d-80c7-02AF85c822a8}",
        "URN:uuid:936da01f-9abd-4d9d-80c7-02af85c822a8",
    ] {
        assert_eq!(find_by_id(&ids, 'T', raw, "Task").unwrap(), 1, "{raw}");
    }
    for raw in [
        "936da01f9abd4d9d80c702af85c822ag",
        "{936da01f9abd4d9d80c702af85c822a8}",
        "urn:936da01f-9abd-4d9d-80c7-02af85c822a8",
        "936da01f-9abd-4d9d-80c702af-85c822a8",
    ] {
        assert!(find_by_id(&ids, 'T', raw, "Task").is_err(), "{raw}");
    }
}

#[test]
fn a_commit_is_dated_by_its_description() {
    let mut d = weave::model::CommitDescriptor {
        prepare_id: 1,
        target_revision: 1,
        parent_commit_oid: "0".repeat(40),
        tree_oid: "1".repeat(40),
        commit_oid: String::new(),
        author_name: "Ada".to_string(),
        author_email: "ada@example.com".to_string(),
        committer_name: "Host".to_string(),
        committer_email: "host@example.com".to_string(),
        timestamp: 1_700_000_000,
        timezone: "+0000".to_string(),
        message: "m".to_string(),
        contributing_task_ids: Vec::new(),
        branch: "main".to_string(),
    };
    let env = |d: &weave::model::CommitDescriptor| {
        let who = weave::gitx::signatures_of(d);
        let c = weave::gitx::commit_tree_command("/r", &d.tree_oid, None, &d.message, &who);
        c.env
            .into_iter()
            .map(|(k, v)| format!("{k}={v}"))
            .collect::<Vec<String>>()
    };
    // What every command sets comes first.
    assert_eq!(
        env(&d)[4..],
        [
            "GIT_AUTHOR_NAME=Ada",
            "GIT_AUTHOR_EMAIL=ada@example.com",
            "GIT_AUTHOR_DATE=1700000000 +0000",
            "GIT_COMMITTER_NAME=Host",
            "GIT_COMMITTER_EMAIL=host@example.com",
            "GIT_COMMITTER_DATE=1700000000 +0000",
        ]
    );
    d.timestamp = -5;
    assert!(env(&d).contains(&"GIT_AUTHOR_DATE=-5 +0000".to_string()));
    d.timestamp = i64::MIN;
    assert!(env(&d).contains(&"GIT_COMMITTER_DATE=-9223372036854775808 +0000".to_string()));
    assert_eq!(weave::gitx::branch_ref("feature/x"), "refs/heads/feature/x");
}

#[test]
fn a_resumed_session_expects_its_newest_publication() {
    assert_eq!(weave::daemon::expected_head(&None, "abc"), "abc");
    assert_eq!(weave::daemon::shown_name(&None, "Git Name"), "Git Name");
    assert_eq!(weave::daemon::shown_name(&Some("Ada".to_string()), "Git Name"), "Ada");
}

#[test]
fn references_to_lost_content_are_listed() {
    let mut blobs = weave::blobs::BlobStore::open("/blobs");
    let row = |p: &str, bytes: &[u8]| weave::proto::ManifestEntry {
        path: weave::path::RepoPath::new(p).unwrap(),
        entry: weave::model::FileEntry::from_bytes(bytes, weave::model::GitMode::Regular),
    };
    blobs.put(b"here");
    let lines =
        weave::recover::missing_canonical(&vec![row("a.txt", b"here"), row("b.txt", b"gone")], &blobs);
    assert_eq!(lines, vec![format!("b.txt -> {}", weave::util::sha256_hex(b"gone"))]);
}
