//! When a session can start, be joined, invited to or repaired, and what the
//! checks say of a machine.

use vstd::prelude::*;

use crate::ipc::IpcCommand;
use crate::gitx::Unsupported;
use crate::daemon::{
    address_for, connect_error, head_fault, host_fault, intent_of, invite_fault, join_fault,
    mode_for, reach_lines, rejoins, restart_fault, resumes, route_of, HostOptions, InviteView,
    Route, SessionRecord, StartFacts, TransportMode,
};
use crate::doctor::{
    absent_check, any_failed, branch_check, daemon_check, disk_check, executable_check, git_check,
    git_dir_check, git_version, host_cloudflared_check, last_under, licenses_check, operation_check,
    package_check, path_problems, platform_check, preflight_checks, runs_check, sqlite_check,
    storage_check, supported_checks, tree_check, used_check, verdict, version_of, version_word,
    with_status, writable_check, BriefRun, BundleFacts, CheckStatus, CheckView, ExeFacts, Intent,
    Notice, RepoFacts, Scope, Sqlite,
};
use crate::error::{ErrorClass, Result, WeaveError};
use crate::install::{
    cloudflared_of, first_file, first_in_dir, is_supported, Bundle, Cloudflared, CloudflaredSource,
    Machine,
};
use crate::model::Role;
use crate::path::{below, key_of, path_fault};
use crate::recover::{findings_of, is_healthy, is_problem, CanonicalFacts, ReplicaFacts};
use crate::text::{
    all_digits, contains_text, decimal, find_char, found_at, is_space, lemma_find_char,
    lemma_find_char_is, lemma_find_space_is, lemma_trim_start, split, texts, views,
};
use crate::text_laws::a_number_reads_back;
use crate::util::Uuid;

verus! {

// ---------------------------------------------------------------------------
// Starting and joining
// ---------------------------------------------------------------------------

/// Whether a repository is one Weave can work in: nothing unsupported in it, and
/// no operation of Git under way.
pub open spec fn is_workable(f: StartFacts) -> bool {
    f.unsupported is Ok && f.unsupported->Ok_0@.len() == 0 && f.operation is None
}

/// Whether the working tree is known to be clean.
pub open spec fn is_clean(f: StartFacts) -> bool {
    f.dirty is Ok && f.dirty->Ok_0@.len() == 0
}

/// A session can be hosted exactly in a repository Weave can work in, on a
/// branch, at a commit, and, unless one goes on, with a clean tree.
pub proof fn a_session_starts_in_a_clean_repository(f: StartFacts, resuming: bool)
    ensures
        (host_fault(f, resuming) is None) == (is_workable(f) && f.branch is Some && f.head is Some
            && (resuming || is_clean(f))),
{
}

/// A session can be joined exactly in a repository Weave can work in, on the
/// branch of the session, and, by whoever is new to it, with a clean tree at its
/// base commit.
pub proof fn a_session_is_joined_at_its_base(f: StartFacts, invite: InviteView, rejoining: bool)
    ensures
        (join_fault(f, invite, rejoining) is None) == (is_workable(f) && f.branch is Some
            && f.branch->0@ == invite.branch && (rejoining || is_clean(f) && (f.head is Some
            && f.head->0@ == invite.base_commit || f.head is None && invite.base_commit.len() == 0))),
{
    if f.head is None && invite.base_commit.len() == 0 {
        assert(invite.base_commit =~= Seq::<char>::empty());
    }
}

/// A record makes this machine go on as host exactly when it says it was, and
/// lets it rejoin exactly the session it names.
pub proof fn a_record_says_what_goes_on(record: Option<SessionRecord>, session_id: Uuid)
    ensures
        resumes(record) == (record is Some && record->0.role == Role::Host),
        rejoins(record, session_id) == (record is Some && record->0.session.session_id
            == session_id),
{
}

/// A session goes on only where Git still is where it left it.
pub proof fn a_session_goes_on_where_it_left_git(expected: Seq<char>, head: Seq<char>)
    ensures
        (head_fault(expected, head) is None) == (head == expected),
        head_fault(expected, head) matches Some(e) ==> e.class == ErrorClass::RepositoryError,
{
}

/// Only a host with an address to come to can invite, and only one with a tunnel
/// can replace it.
pub proof fn only_a_reachable_host_invites(role: Role, record: Option<SessionRecord>)
    ensures
        (invite_fault(record) is None) == (record is Some && record->0.role == Role::Host
            && record->0.endpoint is Some),
        (restart_fault(role, record) is None) == (role == Role::Host && record is Some
            && record->0.mode == TransportMode::Tunnel),
{
}

/// A host that answers like an unencrypted one is never fallen back to; any
/// other failure is one of the network.
pub proof fn an_unencrypted_host_is_refused(status: Option<u16>, said: Seq<char>)
    ensures
        (connect_error(status, said).class == ErrorClass::ProtocolError) == (status == Some(404u16)
            || status == Some(401u16)),
        (connect_error(status, said).class == ErrorClass::NetworkError) == !(status == Some(404u16)
            || status == Some(401u16)),
{
}

// ---------------------------------------------------------------------------
// Checks
// ---------------------------------------------------------------------------

/// Git reports its version as the first word that begins with a number, and the
/// numbers before and behind its first dot are read.
pub proof fn the_version_of_git_is_read(a: u32, b: u32, tail: Seq<char>)
    requires
        forall|k: int| 0 <= k < tail.len() ==> !is_space(#[trigger] tail[k]),
        tail.len() > 0 ==> tail[0] == '.',
    ensures
        git_version("git version "@ + decimal(a as nat) + "."@ + decimal(b as nat) + tail) == Some(
            (a, b),
        ),
{
    let x = decimal(a as nat);
    let y = decimal(b as nat);
    a_number_reads_back(a as nat);
    a_number_reads_back(b as nat);
    reveal_strlit("git version ");
    reveal_strlit(".");
    let w = x + "."@ + y + tail;
    let text = "git version "@ + x + "."@ + y + tail;
    assert(text =~= "git version "@ + w);
    assert forall|k: int| 0 <= k < w.len() implies !is_space(#[trigger] w[k]) by {
        if k < x.len() {
            assert(w[k] == x[k]);
        } else if k == x.len() {
            assert(w[k] == '.');
        } else if k < x.len() + 1 + y.len() {
            assert(w[k] == y[k - x.len() - 1]);
        } else {
            assert(w[k] == tail[k - x.len() - 1 - y.len()]);
        }
    }
    // Neither word before the version is one.
    lemma_skip_word(text, 0, 3);
    let rest = text.skip(3);
    assert(rest[0] == ' ' && rest[1] == 'v');
    lemma_skip_word(rest, 1, 7);
    let last = rest.skip(8);
    assert(last =~= seq![' '] + w);
    assert(w.take(x.len() as int) =~= x);
    assert forall|k: int| 0 <= k < x.len() implies w[k] != '.' by {
        assert(w[k] == x[k]);
    }
    assert(w[x.len() as int] == '.');
    lemma_find_char_is(w, '.', x.len() as int);
    lemma_digits(x);
    lemma_take_word(last, w);
    lemma_version_numbers(a, b, tail);
}

/// A word that begins with a letter is passed over.
proof fn lemma_skip_word(s: Seq<char>, blank: int, word: int)
    requires
        0 <= blank,
        0 < word,
        blank + word < s.len(),
        forall|k: int| 0 <= k < blank ==> is_space(#[trigger] s[k]),
        forall|k: int| blank <= k < blank + word ==> !is_space(#[trigger] s[k]),
        is_space(s[blank + word]),
        s[blank] == 'g' || s[blank] == 'v',
    ensures
        version_word(s) == version_word(s.skip(blank + word)),
{
    lemma_trim_start(s, blank);
    let t = s.skip(blank);
    assert forall|k: int| 0 <= k < word implies !is_space(#[trigger] t[k]) by {
        assert(t[k] == s[blank + k]);
    }
    lemma_find_space_is(t, word);
    lemma_not_version(t.take(word));
    let rest = t.skip(word);
    assert(rest =~= s.skip(blank + word));
    crate::text_laws::trimming_the_start_takes_blanks_only(rest);
}

/// A word that begins like a version is the version.
proof fn lemma_take_word(s: Seq<char>, w: Seq<char>)
    requires
        s == seq![' '] + w,
        w.len() > 0,
        forall|k: int| 0 <= k < w.len() ==> !is_space(#[trigger] w[k]),
        crate::doctor::is_version(w),
    ensures
        version_word(s) == Some(w),
{
    assert(s[0] == ' ');
    assert(s[1] == w[0]);
    lemma_trim_start(s, 1);
    assert(s.skip(1) =~= w);
    lemma_find_space_is(w, w.len() as int);
    assert(w.take(w.len() as int) =~= w);
}

proof fn lemma_version_numbers(a: u32, b: u32, tail: Seq<char>)
    requires
        tail.len() > 0 ==> tail[0] == '.',
    ensures
        version_of(decimal(a as nat) + "."@ + decimal(b as nat) + tail) == Some((a, b)),
{
    let x = decimal(a as nat);
    let y = decimal(b as nat);
    a_number_reads_back(a as nat);
    a_number_reads_back(b as nat);
    reveal_strlit(".");
    let w = x + "."@ + y + tail;
    assert forall|k: int| 0 <= k < x.len() implies w[k] != '.' by {
        assert(w[k] == x[k]);
    }
    assert(w[x.len() as int] == '.');
    lemma_find_char_is(w, '.', x.len() as int);
    assert(w.take(x.len() as int) =~= x);
    let parts = split(w, '.');
    assert(parts[0] == x);
    let more = w.skip((x.len() + 1) as int);
    assert(more =~= y + tail);
    assert forall|k: int| 0 <= k < y.len() implies more[k] != '.' by {
        assert(more[k] == y[k]);
    }
    lemma_find_char_is(more, '.', y.len() as int);
    assert(more.take(y.len() as int) =~= y);
    if tail.len() == 0 {
        assert(more =~= y);
    }
    assert(split(more, '.')[0] == y);
    assert(split(more, '.').len() >= 1) by {
        crate::text::split_then_join(more, '.');
    }
    assert(parts[1] == y);
    lemma_digits(y);
    assert(crate::text::is_digit(y[y.len() - 1]));
    assert(crate::doctor::up_to_digit(y) == y);
}

proof fn lemma_digits(x: Seq<char>)
    requires
        x.len() > 0,
        forall|i: int| 0 <= i < x.len() ==> '0' <= #[trigger] x[i] <= '9',
    ensures
        all_digits(x),
{
}

proof fn lemma_not_version(w: Seq<char>)
    requires
        w.len() > 0,
        w[0] == 'g' || w[0] == 'v',
    ensures
        !crate::doctor::is_version(w),
{
    lemma_find_char(w, '.');
    let head = w.take(find_char(w, '.'));
    if head.len() > 0 {
        assert(head[0] == w[0]);
        assert(!crate::text::is_digit(head[0]));
    }
}

/// Git is good enough exactly when it is there and its version, where it can be
/// read, is 2.25 or newer.
pub proof fn an_old_git_fails(reported: Option<Seq<char>>)
    ensures
        (git_check(reported).status == CheckStatus::Fail) == {
            let v = git_version(reported->0);
            ||| reported is None
            ||| v is Some && ((v->0).0 < 2 || (v->0).0 == 2 && (v->0).1 < 25)
        },
        (git_check(reported).status == CheckStatus::Warn) == (reported is Some && git_version(
            reported->0,
        ) is None),
{
}

/// A tree with changes is a warning where no session explains them; too little
/// space is one; neither stops anything.
pub proof fn changes_and_space_only_warn(dirty: Result<usize>, active: bool, free: Option<u64>)
    ensures
        tree_check(dirty, active).status != CheckStatus::Fail,
        (tree_check(dirty, active).status == CheckStatus::Warn) == (dirty is Err || dirty->Ok_0 > 0
            && !active),
        disk_check(free).status != CheckStatus::Fail,
        (disk_check(free).status == CheckStatus::Warn) == (free is Some && free->0 < 3 * 10 * 1024
            * 1024),
{
}

/// Weave may start exactly when Git is good enough, the repository is whole and
/// supported and on a branch with nothing under way, its files can be written, no
/// other daemon runs, and, to be reached from afar, the tunnel is there.
pub proof fn weave_starts_when_nothing_fails(
    git: Option<Seq<char>>,
    found: Result<RepoFacts>,
    intent: Intent,
    cloudflared: Option<Cloudflared>,
)
    ensures
        any_failed(preflight_checks(git, found, intent, cloudflared)) == !({
            let f = found->Ok_0;
            &&& git_check(git).status != CheckStatus::Fail
            &&& found is Ok
            &&& f.git_dir_usable
            &&& f.branch is Ok && f.branch->Ok_0 is Some
            &&& !(f.operation is Ok && f.operation->Ok_0 is Some)
            &&& !(f.unsupported is Ok && f.unsupported->Ok_0@.len() > 0)
            &&& f.storage is Ok
            &&& f.write_fault is None
            &&& f.other_daemon is None
            &&& intent == Intent::HostRemote ==> cloudflared is Some
        }),
{
    let all = preflight_checks(git, found, intent, cloudflared);
    assert(all[0] == git_check(git));
    if git_check(git).status != CheckStatus::Fail {
        match found {
            Err(e) => {
                assert(all[1].status == CheckStatus::Fail);
            },
            Ok(f) => {
                let mid = crate::doctor::supported_checks(f.unsupported);
                let n = mid.len() as int;
                assert(all[1] == crate::doctor::git_dir_check(f.git_dir@, f.git_dir_usable));
                assert(all[2] == crate::doctor::branch_check(f.branch));
                assert(all[3] == crate::doctor::operation_check(f.operation));
                assert forall|k: int| 0 <= k < n implies all[4 + k] == mid[k] by {
                }
                assert(all[4] == mid[0]);
                assert(all[4 + n] == crate::doctor::storage_check(f.storage));
                assert(all[5 + n] == crate::doctor::writable_check(
                    f.root@,
                    crate::text::opt_view(f.write_fault),
                ));
                assert(all[6 + n] == crate::doctor::daemon_check(f.other_daemon));
                assert(all[7 + n] == crate::doctor::portable_check(f.paths));
                if intent == Intent::HostRemote {
                    assert(all[8 + n] == crate::doctor::host_cloudflared_check(cloudflared));
                    assert(all.len() == 9 + n);
                } else {
                    assert(all.len() == 8 + n);
                }
                if any_failed(all) {
                    let k = choose|k: int|
                        0 <= k < all.len() && (#[trigger] all[k]).status == CheckStatus::Fail;
                    assert(k == 0 || k == 1 || k == 2 || k == 3 || 4 <= k < 4 + n || k == 4 + n || k
                        == 5 + n || k == 6 + n || k == 7 + n || k == 8 + n);
                    if 4 <= k < 4 + n {
                        assert(all[k] == mid[k - 4]);
                    }
                }
            },
        }
    } else {
        assert(all[0].status == CheckStatus::Fail);
    }
}

/// What is picked out of a list by its status is all of that status, and nothing
/// else.
pub proof fn checks_are_picked_by_status(list: Seq<CheckView>, status: CheckStatus, c: CheckView)
    ensures
        with_status(list, status).contains(c) == (list.contains(c) && c.status == status),
    decreases list.len(),
{
    if list.len() > 0 {
        let front = list.drop_last();
        let last = list.last();
        let before = with_status(front, status);
        checks_are_picked_by_status(front, status, c);
        assert(list =~= front.push(last));
        if front.contains(c) {
            let i = choose|i: int| 0 <= i < front.len() && front[i] == c;
            assert(list[i] == c);
        }
        if list.contains(c) {
            let i = choose|i: int| 0 <= i < list.len() && list[i] == c;
            if i < front.len() {
                assert(front[i] == c);
            }
        }
        let all = with_status(list, status);
        if before.contains(c) {
            let i = choose|i: int| 0 <= i < before.len() && before[i] == c;
            assert(all[i] == c);
        }
        if last.status == status {
            assert(all[before.len() as int] == last);
            assert(list[list.len() - 1] == last);
        }
        if all.contains(c) {
            let i = choose|i: int| 0 <= i < all.len() && all[i] == c;
            if i < before.len() {
                assert(before[i] == c);
            }
        }
    }
}

// ---------------------------------------------------------------------------
// Finding programs
// ---------------------------------------------------------------------------

/// A file is looked for in one directory after another, under one name after
/// another, and found exactly when one of them has it.
pub proof fn a_file_is_found_where_one_is(
    dirs: Seq<Seq<char>>,
    names: Seq<Seq<char>>,
    files: Seq<Seq<char>>,
)
    ensures
        match first_file(dirs, names, files) {
            Some(path) => files.contains(path) && exists|i: int, j: int|
                0 <= i < dirs.len() && 0 <= j < names.len() && path == below(
                    #[trigger] dirs[i],
                    #[trigger] names[j],
                ),
            None => forall|i: int, j: int|
                0 <= i < dirs.len() && 0 <= j < names.len() ==> !files.contains(
                    below(#[trigger] dirs[i], #[trigger] names[j]),
                ),
        },
    decreases dirs.len(),
{
    if dirs.len() > 0 {
        let rest = dirs.drop_first();
        a_file_is_found_where_one_is(rest, names, files);
        lemma_in_dir(dirs[0], names, files);
        match first_in_dir(dirs[0], names, files) {
            Some(path) => {
                let j = choose|j: int|
                    0 <= j < names.len() && path == below(dirs[0], #[trigger] names[j]);
                assert(path == below(dirs[0], names[j]));
            },
            None => match first_file(rest, names, files) {
                Some(path) => {
                    let (i, j) = choose|i: int, j: int|
                        0 <= i < rest.len() && 0 <= j < names.len() && path == below(
                            #[trigger] rest[i],
                            #[trigger] names[j],
                        );
                    assert(rest[i] == dirs[i + 1]);
                    assert(path == below(dirs[i + 1], names[j]));
                },
                None => {
                    assert forall|i: int, j: int|
                        0 <= i < dirs.len() && 0 <= j < names.len() implies !files.contains(
                        below(#[trigger] dirs[i], #[trigger] names[j]),
                    ) by {
                        if i > 0 {
                            assert(rest[i - 1] == dirs[i]);
                            assert(!files.contains(below(rest[i - 1], names[j])));
                        }
                    }
                },
            },
        }
    }
}

proof fn lemma_in_dir(dir: Seq<char>, names: Seq<Seq<char>>, files: Seq<Seq<char>>)
    ensures
        match first_in_dir(dir, names, files) {
            Some(path) => files.contains(path) && exists|j: int|
                0 <= j < names.len() && path == below(dir, #[trigger] names[j]),
            None => forall|j: int|
                0 <= j < names.len() ==> !files.contains(below(dir, #[trigger] names[j])),
        },
    decreases names.len(),
{
    if names.len() > 0 {
        let rest = names.drop_first();
        lemma_in_dir(dir, rest, files);
        if files.contains(below(dir, names[0])) {
            assert(below(dir, names[0]) == below(dir, names[0]));
        } else {
            match first_in_dir(dir, rest, files) {
                Some(path) => {
                    let j = choose|j: int|
                        0 <= j < rest.len() && path == below(dir, #[trigger] rest[j]);
                    assert(rest[j] == names[j + 1]);
                },
                None => {
                    assert forall|j: int| 0 <= j < names.len() implies !files.contains(
                        below(dir, #[trigger] names[j]),
                    ) by {
                        if j > 0 {
                            assert(rest[j - 1] == names[j]);
                        }
                    }
                },
            }
        }
    }
}

/// What the user chose is used or nothing is; otherwise the bundled copy comes
/// before one on the path.
pub proof fn the_users_choice_comes_first(
    m: Machine,
    chosen: Option<Seq<char>>,
    on_path: Option<Seq<char>>,
    files: Seq<Seq<char>>,
)
    ensures
        ({
            let c = cloudflared_of(m, chosen, on_path, files);
            let bundled = first_file(
                crate::install::support_dirs_of(m),
                crate::install::bundled_names_of(m),
                files,
            );
            &&& chosen is Some && files.contains(chosen->0) ==> c == Some(
                (chosen->0, CloudflaredSource::Override),
            )
            &&& chosen is Some && !files.contains(chosen->0) ==> c is None
            &&& chosen is None && bundled is Some ==> c == Some(
                (bundled->0, CloudflaredSource::Bundled),
            )
            &&& chosen is None && bundled is None && on_path is Some ==> c == Some(
                (on_path->0, CloudflaredSource::Path),
            )
            &&& chosen is None && bundled is None && on_path is None ==> c is None
        }),
{
}

// ---------------------------------------------------------------------------
// Recovery
// ---------------------------------------------------------------------------

/// A machine with a broken database, an interrupted publication or canonical
/// content that is lost is never called healthy.
pub proof fn a_broken_machine_is_not_healthy(
    replica: Option<ReplicaFacts>,
    canonical: Option<CanonicalFacts>,
    blobs: Seq<char>,
)
    ensures
        replica matches Some(f) ==> f.problems@.len() > 0 || f.incomplete@.len() > 0 ==> !is_healthy(
            findings_of(replica, canonical, blobs),
        ),
        canonical matches Some(f) ==> f.problems@.len() > 0 || f.missing@.len() > 0 ==> !is_healthy(
            findings_of(replica, canonical, blobs),
        ),
{
    let all = findings_of(replica, canonical, blobs);
    if let Some(f) = replica {
        let mine = crate::recover::replica_findings(f);
        assert forall|k: int| 0 <= k < mine.len() implies all[k] == mine[k] by {
        }
        if f.problems@.len() > 0 {
            assert(texts(f.problems@).len() > 0);
            lemma_database("Replica"@, texts(f.problems@));
            assert(all[0] == mine[0]);
            assert(is_problem(all[0]));
        }
        if f.incomplete@.len() > 0 {
            let rows = views(f.incomplete@);
            assert(rows.len() > 0);
            lemma_interrupted(rows[0]);
            assert(mine[1] == crate::recover::interrupted_line(rows[0]));
            assert(all[1] == mine[1]);
            assert(is_problem(all[1]));
        }
    }
    if let Some(f) = canonical {
        let theirs = crate::recover::canonical_findings(f);
        let n = match replica {
            Some(r) => crate::recover::replica_findings(r).len() as int,
            None => 0,
        };
        assert forall|k: int| 0 <= k < theirs.len() implies all[n + k] == theirs[k] by {
        }
        if f.problems@.len() > 0 {
            assert(texts(f.problems@).len() > 0);
            lemma_database("Canonical"@, texts(f.problems@));
            assert(all[n + 0] == theirs[0]);
            assert(is_problem(all[n + 0]));
        }
        if f.missing@.len() > 0 {
            let list = texts(f.missing@);
            assert(list.len() > 0);
            let line = "IntegrityError: "@ + decimal(list.len())
                + " canonical blob reference(s) are missing"@;
            assert(theirs[1] == line);
            reveal_strlit("IntegrityError: ");
            reveal_strlit("IntegrityError");
            assert(line.subrange(0, 14) =~= "IntegrityError"@);
            assert(found_at(line, "IntegrityError"@, 0));
            assert(all[n + 1] == theirs[1]);
            assert(is_problem(all[n + 1]));
        }
    }
}

proof fn lemma_database(what: Seq<char>, problems: Seq<Seq<char>>)
    requires
        problems.len() > 0,
    ensures
        is_problem(crate::recover::database_finding(what, problems)),
{
    let line = crate::recover::database_finding(what, problems);
    reveal_strlit(" database problems: ");
    reveal_strlit("problems:");
    let at = (what.len() + 10) as int;
    assert(line.subrange(at, at + 9) =~= "problems:"@);
    assert(found_at(line, "problems:"@, at));
}

proof fn lemma_interrupted(j: crate::store_client::JournalView)
    ensures
        is_problem(crate::recover::interrupted_line(j)),
{
    let line = crate::recover::interrupted_line(j);
    reveal_strlit("Interrupted Git publication ");
    reveal_strlit("Interrupted");
    assert(line.subrange(0, 11) =~= "Interrupted"@);
    assert(found_at(line, "Interrupted"@, 0));
}

// ---------------------------------------------------------------------------
// How a session is offered
// ---------------------------------------------------------------------------

/// A session listens beyond this machine only when it is offered to the local
/// network, and needs a tunnel exactly when it is offered to neither.
pub proof fn a_session_is_offered_as_asked(opts: HostOptions)
    ensures
        (address_for(opts) == "127.0.0.1:0"@) == !opts.lan,
        (address_for(opts) == "0.0.0.0:0"@) == opts.lan,
        (intent_of(opts) == Intent::HostRemote) == (!opts.local_only && !opts.lan),
        (mode_for(opts) == TransportMode::Tunnel) == (intent_of(opts) == Intent::HostRemote),
        (mode_for(opts) == TransportMode::Local) == opts.local_only,
{
    reveal_strlit("127.0.0.1:0");
    reveal_strlit("0.0.0.0:0");
    assert("127.0.0.1:0"@[0] == '1');
    assert("0.0.0.0:0"@[0] == '0');
}

/// A host shows its invite exactly when the session can be reached from
/// elsewhere.
pub proof fn an_invite_is_shown_where_it_works(
    mode: TransportMode,
    invite: Seq<char>,
    address: Seq<char>,
)
    ensures
        mode == TransportMode::Tunnel || mode == TransportMode::Lan ==> reach_lines(
            mode,
            invite,
            address,
        ).contains(invite),
        mode == TransportMode::Lan ==> reach_lines(mode, invite, address).contains(address),
        mode == TransportMode::Local ==> reach_lines(mode, invite, address) == seq![
            "Local session: no remote endpoint is exposed."@,
        ],
{
    let lines = reach_lines(mode, invite, address);
    if mode == TransportMode::Tunnel {
        assert(lines[2] == invite);
    }
    if mode == TransportMode::Lan {
        assert(lines[3] == address);
        assert(lines[7] == invite);
    }
}

/// The daemon answers for the session itself; the replica answers everything
/// else, as it was asked.
pub proof fn a_command_is_answered_by_whom_it_concerns(command: IpcCommand)
    ensures
        (route_of(command) is Stop) == (command is Stop),
        (route_of(command) is Leave) == (command is Leave),
        (route_of(command) is Invite) == (command is Invite),
        (route_of(command) is TunnelRestart) == (command is TunnelRestart),
        !(command is Stop) && !(command is Leave) && !(command is Invite) && !(command
            is TunnelRestart) ==> route_of(command) == Route::Engine(command),
{
}

// ---------------------------------------------------------------------------
// Checks of the machine
// ---------------------------------------------------------------------------

/// The repository passes each check exactly when it is as it should be: on a
/// branch, with no operation of Git under way, with a usable directory and
/// storage, and writable.
pub proof fn a_repository_passes_as_it_should(
    branch: Result<Option<String>>,
    op: Result<Option<String>>,
    other: Option<WeaveError>,
    storage: Result<String>,
    dir: Seq<char>,
    usable: bool,
    fault: Option<Seq<char>>,
)
    ensures
        (branch_check(branch).status == CheckStatus::Pass) == (branch is Ok && branch->Ok_0 is Some),
        (branch_check(branch).status == CheckStatus::Fail) == !(branch is Ok && branch->Ok_0
            is Some),
        (operation_check(op).status == CheckStatus::Pass) == (op is Ok && op->Ok_0 is None),
        (operation_check(op).status == CheckStatus::Fail) == (op is Ok && op->Ok_0 is Some),
        (daemon_check(other).status == CheckStatus::Pass) == other is None,
        (daemon_check(other).status == CheckStatus::Fail) == other is Some,
        (storage_check(storage).status == CheckStatus::Pass) == storage is Ok,
        (storage_check(storage).status == CheckStatus::Fail) == storage is Err,
        (git_dir_check(dir, usable).status == CheckStatus::Pass) == usable,
        (git_dir_check(dir, usable).status == CheckStatus::Fail) == !usable,
        (writable_check(dir, fault).status == CheckStatus::Pass) == fault is None,
        (writable_check(dir, fault).status == CheckStatus::Fail) == fault is Some,
{
}

/// The installation passes each check exactly when it is whole: an executable
/// that can be read and reports its own version, a supported platform, a usable
/// database, a package of this version.
pub proof fn an_installation_passes_when_it_is_whole(
    x: ExeFacts,
    m: Machine,
    s: Sqlite,
    b: Option<Bundle>,
    version: Seq<char>,
    notice: Option<Notice>,
)
    ensures
        (executable_check(x).status == CheckStatus::Pass) == (x.path is Some && x.readable && (
        !x.as_weave || x.launch is Reported && contains_text(x.launch->Reported_0@, x.version@))),
        executable_check(x).status == CheckStatus::Pass || executable_check(x).status
            == CheckStatus::Fail,
        (platform_check(m).status == CheckStatus::Pass) == is_supported(m.os@, m.arch@),
        (platform_check(m).status == CheckStatus::Fail) == !is_supported(m.os@, m.arch@),
        (sqlite_check(s).status == CheckStatus::Pass) == s is Version,
        (sqlite_check(s).status == CheckStatus::Fail) == s is Unusable,
        (package_check(b, version).status == CheckStatus::Fail) == (b is Some && b->0.weave_version@
            != version),
        (package_check(b, version).status == CheckStatus::Warn) == b is None,
        (licenses_check(notice).status == CheckStatus::Pass) == (notice is Some
            && notice->0.readable),
        (licenses_check(notice).status == CheckStatus::Fail) == !(notice is Some
            && notice->0.readable),
{
}

/// A platform is supported exactly when it is Windows on x86-64, or macOS or
/// Linux on x86-64 or 64-bit Arm.
pub proof fn a_platform_is_supported_when_it_is_listed(os: Seq<char>, arch: Seq<char>)
    ensures
        is_supported(os, arch) == {
            ||| arch == "x86_64"@ && (os == "windows"@ || os == "macos"@ || os == "linux"@)
            ||| arch == "aarch64"@ && (os == "macos"@ || os == "linux"@)
        },
{
}

/// The program that makes tunnels passes when it runs and is the one that was
/// shipped; where it is needed and none is found, that fails.
pub proof fn a_tunnel_program_has_to_run(
    found: Cloudflared,
    bundle: Option<Bundle>,
    run: BriefRun,
    any: Option<Cloudflared>,
    f: BundleFacts,
)
    ensures
        (host_cloudflared_check(any).status == CheckStatus::Pass) == any is Some,
        (host_cloudflared_check(any).status == CheckStatus::Fail) == any is None,
        !(run is Said) ==> runs_check(found, bundle, run).status == CheckStatus::Fail,
        run is Said ==> (runs_check(found, bundle, run).status == CheckStatus::Pass) == !(bundle
            is Some && found.source == CloudflaredSource::Bundled && !contains_text(
            run->Said_0@,
            bundle->0.cloudflared_version@,
        )),
        (used_check(found, bundle is Some).status == CheckStatus::Warn) == (bundle is Some
            && found.source != CloudflaredSource::Bundled),
        used_check(found, bundle is Some).status != CheckStatus::Fail,
        (absent_check(f).status == CheckStatus::Fail) == (f.override_set || f.bundle is Some),
        absent_check(f).status != CheckStatus::Pass,
{
}

/// A repository with features that are not supported fails; one that could not be
/// looked at is only warned of.
pub proof fn an_unsupported_repository_fails(found: Result<Vec<Unsupported>>)
    ensures
        found is Ok && found->Ok_0@.len() > 0 ==> supported_checks(found).len() == 1
            && supported_checks(found)[0].status == CheckStatus::Fail,
        found is Ok && found->Ok_0@.len() == 0 ==> supported_checks(found).len() == 2
            && supported_checks(found)[0].status == CheckStatus::Pass && supported_checks(
            found,
        )[1].status == CheckStatus::Pass,
        found is Err ==> supported_checks(found).len() == 1 && supported_checks(found)[0].status
            == CheckStatus::Warn,
{
}

/// A repository's paths are without problems exactly when each is portable and
/// no two mean the same elsewhere.
pub proof fn portable_paths_have_no_problems(list: Seq<Seq<char>>)
    ensures
        (path_problems(list).len() == 0) == {
            &&& forall|i: int| 0 <= i < list.len() ==> path_fault(#[trigger] list[i]) is None
            &&& forall|i: int, j: int|
                0 <= i < j < list.len() && key_of(#[trigger] list[i]) == key_of(#[trigger] list[j])
                    ==> list[i] == list[j]
        },
        path_problems(list).len() <= list.len(),
    decreases list.len(),
{
    if list.len() > 0 {
        let front = list.drop_last();
        let raw = list[list.len() - 1];
        portable_paths_have_no_problems(front);
        lemma_last_under(front, key_of(raw));
        assert forall|i: int| 0 <= i < front.len() implies #[trigger] front[i] == list[i] by {
        }
        let clean = {
            &&& forall|i: int| 0 <= i < list.len() ==> path_fault(#[trigger] list[i]) is None
            &&& forall|i: int, j: int|
                0 <= i < j < list.len() && key_of(#[trigger] list[i]) == key_of(#[trigger] list[j])
                    ==> list[i] == list[j]
        };
        if clean {
            assert forall|i: int| 0 <= i < front.len() implies path_fault(
                #[trigger] front[i],
            ) is None by {
                assert(path_fault(list[i]) is None);
            }
            assert forall|i: int, j: int|
                0 <= i < j < front.len() && key_of(#[trigger] front[i]) == key_of(
                    #[trigger] front[j],
                ) implies front[i] == front[j] by {
                assert(key_of(list[i]) == key_of(list[j]));
            }
            assert(path_problems(front).len() == 0);
            assert(path_fault(raw) is None);
            match last_under(front, key_of(raw)) {
                Some(other) => {
                    let k = choose|k: int|
                        0 <= k < front.len() && #[trigger] front[k] == other && key_of(other)
                            == key_of(raw);
                    assert(key_of(list[k]) == key_of(list[list.len() - 1]));
                },
                None => {},
            }
        }
        if path_problems(list).len() == 0 {
            assert(path_fault(raw) is None);
            assert forall|i: int| 0 <= i < list.len() implies path_fault(
                #[trigger] list[i],
            ) is None by {
                if i < front.len() {
                    assert(path_fault(front[i]) is None);
                }
            }
            assert forall|i: int, j: int|
                0 <= i < j < list.len() && key_of(#[trigger] list[i]) == key_of(#[trigger] list[j])
                implies list[i] == list[j] by {
                if j < front.len() {
                    assert(key_of(front[i]) == key_of(front[j]));
                } else {
                    assert(path_fault(front[i]) is None && key_of(front[i]) == key_of(raw));
                    let other = last_under(front, key_of(raw))->0;
                    let k = choose|k: int|
                        0 <= k < front.len() && #[trigger] front[k] == other && key_of(other)
                            == key_of(raw);
                    if k < i {
                        assert(key_of(front[k]) == key_of(front[i]));
                    } else if i < k {
                        assert(key_of(front[i]) == key_of(front[k]));
                    }
                }
            }
        }
    }
}

proof fn lemma_last_under(list: Seq<Seq<char>>, key: Seq<char>)
    ensures
        match last_under(list, key) {
            Some(other) => exists|k: int|
                0 <= k < list.len() && #[trigger] list[k] == other && key_of(other) == key,
            None => forall|k: int|
                0 <= k < list.len() && path_fault(#[trigger] list[k]) is None ==> key_of(list[k])
                    != key,
        },
    decreases list.len(),
{
    if list.len() > 0 {
        let front = list.drop_last();
        lemma_last_under(front, key);
        if path_fault(list.last()) is None && key_of(list.last()) == key {
            assert(list[list.len() - 1] == list.last());
        } else {
            match last_under(front, key) {
                Some(other) => {
                    let k = choose|k: int|
                        0 <= k < front.len() && #[trigger] front[k] == other && key_of(other) == key;
                    assert(list[k] == other);
                },
                None => {
                    assert forall|k: int|
                        0 <= k < list.len() && path_fault(#[trigger] list[k]) is None implies key_of(
                        list[k],
                    ) != key by {
                        if k < front.len() {
                            assert(front[k] == list[k]);
                        }
                    }
                },
            }
        }
    }
}

/// A report says that all is well exactly when it is.
pub proof fn a_verdict_says_how_it_went(ready: bool, scope: Scope)
    ensures
        (verdict(ready, scope) == "Weave is not ready. Fix the items marked \u{2717} above."@)
            == !ready,
        ready && scope == Scope::Install ==> verdict(ready, scope)
            == "The Weave installation is healthy."@,
        ready && scope != Scope::Install ==> verdict(ready, scope) == "Weave is ready."@,
{
    reveal_strlit("Weave is not ready. Fix the items marked \u{2717} above.");
    reveal_strlit("The Weave installation is healthy.");
    reveal_strlit("Weave is ready.");
    assert("Weave is not ready. Fix the items marked \u{2717} above."@[9] == 'n');
    assert("The Weave installation is healthy."@[0] == 'T');
    assert("Weave is ready."@[9] == 'r');
}

} // verus!
