//! What Weave asks of the installed `git` executable, and how it reads the
//! answers.
//!
//! External Git behaviour is delegated to Git rather than reimplemented, and
//! publication uses Git plumbing instead of staging the live working tree.
//! Each operation is a [`GitCommand`] to run and a reading of its
//! [`GitOutput`].

use vstd::prelude::*;
use vstd::utf8::{decode_utf8, encode_utf8, valid_utf8};

use crate::error::{
    detailed, git as git_err, integrity, plain, repository, ErrorClass, ErrorView, Result,
};
use crate::model::{entry_ref, CommitDescriptor, EntryView, FileEntry, GitMode};
use crate::path::RepoPath;
use crate::text::{
    chars_of, contains_text, decimal, decimal_text, distinct, equal_ignoring_case, field_texts,
    fields, find_char, first_line, first_line_text, first_word, first_word_text, has_text, join,
    join_text, lemma_texts_push, lower_ascii, lower_ascii_text, position_from, same_ignoring_case,
    same_text, signed_decimal, signed_decimal_text, sorted, sorted_set, split, split_text, text_of,
    texts, trim, trim_text,
};

verus! {

// ---------------------------------------------------------------------------
// Running git
// ---------------------------------------------------------------------------

/// One invocation of git.
#[derive(Debug)]
pub struct GitCommand {
    pub args: Vec<String>,
    /// Variables set on top of the inherited environment.
    pub env: Vec<(String, String)>,
    /// Bytes for standard input; it is closed when there are none.
    pub input: Option<Vec<u8>>,
}

/// An invocation as plain sequences.
pub struct CommandView {
    pub args: Seq<Seq<char>>,
    pub env: Seq<(Seq<char>, Seq<char>)>,
    pub input: Option<Seq<u8>>,
}

pub open spec fn pairs(list: Seq<(String, String)>) -> Seq<(Seq<char>, Seq<char>)> {
    list.map_values(|p: (String, String)| (p.0@, p.1@))
}

impl View for GitCommand {
    type V = CommandView;

    open spec fn view(&self) -> CommandView {
        CommandView {
            args: texts(self.args@),
            env: pairs(self.env@),
            input: match self.input {
                Some(bytes) => Some(bytes@),
                None => None,
            },
        }
    }
}

/// Deterministic, non-interactive behaviour that never touches the index lock.
pub open spec fn base_env() -> Seq<(Seq<char>, Seq<char>)> {
    seq![
        ("GIT_OPTIONAL_LOCKS"@, "0"@),
        ("GIT_TERMINAL_PROMPT"@, "0"@),
        ("GIT_PAGER"@, "cat"@),
        ("LC_ALL"@, "C"@),
    ]
}

/// Running git in `root`.
pub open spec fn git_call(
    root: Seq<char>,
    args: Seq<Seq<char>>,
    env: Seq<(Seq<char>, Seq<char>)>,
    input: Option<Seq<u8>>,
) -> CommandView {
    CommandView { args: seq!["-C"@, root] + args, env: base_env() + env, input }
}

/// Running git in `root` without input or further environment.
pub open spec fn plain_call(root: Seq<char>, args: Seq<Seq<char>>) -> CommandView {
    git_call(root, args, Seq::empty(), None)
}

/// The given words as owned strings.
pub fn words(list: Vec<&str>) -> (out: Vec<String>)
    ensures
        texts(out@) == list@.map_values(|s: &str| s@),
{
    let mut out: Vec<String> = Vec::new();
    let ghost all = list@.map_values(|s: &str| s@);
    let mut i: usize = 0;
    proof {
        assert(texts(out@) =~= all.take(0));
    }
    while i < list.len()
        invariant
            all == list@.map_values(|s: &str| s@),
            i <= list@.len(),
            texts(out@) == all.take(i as int),
        decreases list@.len() - i,
    {
        let ghost before = out@;
        let t = list[i].to_owned();
        out.push(t);
        proof {
            lemma_texts_push(before, t);
            assert(all.take(i + 1) =~= all.take(i as int).push(t@));
        }
        i = i + 1;
    }
    proof {
        assert(all.take(i as int) =~= all);
    }
    out
}

fn build(root: &str, args: Vec<String>, env: Vec<(String, String)>, input: Option<Vec<u8>>) -> (c:
    GitCommand)
    ensures
        c@ == git_call(
            root@,
            texts(args@),
            pairs(env@),
            match input {
                Some(bytes) => Some(bytes@),
                None => None,
            },
        ),
{
    let mut all: Vec<String> = words(vec!["-C", root]);
    let mut args = args;
    let ghost given = args@;
    let ghost head = all@;
    all.append(&mut args);
    let mut vars: Vec<(String, String)> = Vec::new();
    vars.push(("GIT_OPTIONAL_LOCKS".to_owned(), "0".to_owned()));
    vars.push(("GIT_TERMINAL_PROMPT".to_owned(), "0".to_owned()));
    vars.push(("GIT_PAGER".to_owned(), "cat".to_owned()));
    vars.push(("LC_ALL".to_owned(), "C".to_owned()));
    proof {
        assert(pairs(vars@) =~= base_env());
        assert(texts(head) =~= seq!["-C"@, root@]);
        assert(texts(all@) =~= texts(head) + texts(given));
    }
    let ghost base = vars@;
    let mut env = env;
    let ghost more = env@;
    vars.append(&mut env);
    proof {
        assert(pairs(vars@) =~= pairs(base) + pairs(more));
    }
    GitCommand { args: all, env: vars, input }
}

/// Run git, capturing output.
pub fn run(root: &str, args: Vec<String>) -> (c: GitCommand)
    ensures
        c@ == plain_call(root@, texts(args@)),
{
    run_env(root, args, Vec::new())
}

/// Run git with further environment variables.
pub fn run_env(root: &str, args: Vec<String>, env: Vec<(String, String)>) -> (c: GitCommand)
    ensures
        c@ == git_call(root@, texts(args@), pairs(env@), None),
        env@.len() == 0 ==> c@ == plain_call(root@, texts(args@)),
{
    proof {
        if env@.len() == 0 {
            assert(pairs(env@) =~= Seq::<(Seq<char>, Seq<char>)>::empty());
        }
    }
    build(root, args, env, None)
}

/// Run git feeding `input` on stdin.
pub fn run_stdin(root: &str, args: Vec<String>, input: Vec<u8>) -> (c: GitCommand)
    ensures
        c@ == git_call(root@, texts(args@), Seq::empty(), Some(input@)),
{
    let none: Vec<(String, String)> = Vec::new();
    proof {
        assert(pairs(none@) =~= Seq::<(Seq<char>, Seq<char>)>::empty());
    }
    run_stdin_env(root, args, input, none)
}

/// Run git feeding `input` on stdin, with further environment variables.
pub fn run_stdin_env(
    root: &str,
    args: Vec<String>,
    input: Vec<u8>,
    env: Vec<(String, String)>,
) -> (c: GitCommand)
    ensures
        c@ == git_call(root@, texts(args@), pairs(env@), Some(input@)),
{
    build(root, args, env, Some(input))
}

/// Raw result of a git invocation.
#[derive(Debug)]
pub struct GitOutput {
    pub status: i32,
    pub stdout: Vec<u8>,
    pub stderr: String,
}

/// Bytes as text, as `String::from_utf8_lossy` reads them.
pub uninterp spec fn lossy_text(bytes: Seq<u8>) -> Seq<char>;

/// `String::from_utf8_lossy`: the text of some bytes, a function of the bytes
/// alone, and exactly their decoding when they are valid UTF-8.
#[verifier::external_body]
fn from_utf8_lossy(bytes: &[u8]) -> (s: String)
    ensures
        s@ == lossy_text(bytes@),
        valid_utf8(bytes@) ==> s@ == decode_utf8(bytes@),
{
    String::from_utf8_lossy(bytes).to_string()
}

impl GitOutput {
    /// What git wrote, as text.
    pub open spec fn text(&self) -> Seq<char> {
        lossy_text(self.stdout@)
    }

    /// What git wrote, without the white space around it.
    pub open spec fn answer(&self) -> Seq<char> {
        trim(self.text())
    }

    pub fn stdout_str(&self) -> (s: String)
        ensures
            s@ == self.text(),
    {
        from_utf8_lossy(self.stdout.as_slice())
    }

    pub fn trimmed(&self) -> (s: String)
        ensures
            s@ == self.answer(),
    {
        trim_text(self.stdout_str().as_str())
    }

    pub fn ok(&self) -> (yes: bool)
        ensures
            yes == (self.status == 0),
    {
        self.status == 0
    }
}

/// The error of a command that had to succeed: what git said, on stderr or
/// else on stdout.
pub open spec fn require_error(args: Seq<Seq<char>>, out: GitOutput) -> ErrorView {
    detailed(
        ErrorClass::GitError,
        "git "@ + join(args, " "@) + " failed"@,
        if out.stderr@.len() == 0 {
            out.text()
        } else {
            out.stderr@
        },
    )
}

/// Require success of a command run with `args`.
pub fn require(args: &Vec<String>, out: GitOutput) -> (r: Result<GitOutput>)
    ensures
        match r {
            Ok(o) => out.status == 0 && o == out,
            Err(e) => out.status != 0 && e@ == require_error(texts(args@), out),
        },
{
    if !out.ok() {
        let mut m = "git ".to_owned();
        m.push_str(join_text(args, " ").as_str());
        m.push_str(" failed");
        let detail = if out.stderr.as_str().is_empty() {
            out.stdout_str()
        } else {
            out.stderr.clone()
        };
        return Err(git_err(m.as_str()).with_detail(detail));
    }
    Ok(out)
}

// ---------------------------------------------------------------------------
// Discovery
// ---------------------------------------------------------------------------

/// The answer to "where is the repository that contains this directory?".
pub fn discover_root(out: &GitOutput) -> (r: Result<String>)
    ensures
        match r {
            Ok(top) => out.status == 0 && out.answer().len() > 0 && top@ == out.answer(),
            Err(e) => if out.status != 0 {
                e@ == detailed(
                    ErrorClass::RepositoryError,
                    "This directory is not inside a Git repository."@,
                    "Weave operates on an existing Git repository. Run `git init` or change into a repository and retry."@,
                )
            } else {
                out.answer().len() == 0 && e@ == plain(
                    ErrorClass::RepositoryError,
                    "This directory is not inside a Git repository."@,
                )
            },
        },
{
    if !out.ok() {
        return Err(
            repository("This directory is not inside a Git repository.").with_detail(
                "Weave operates on an existing Git repository. Run `git init` or change into a repository and retry.".to_owned(),
            ),
        );
    }
    let top = out.trimmed();
    if top.as_str().is_empty() {
        return Err(repository("This directory is not inside a Git repository."));
    }
    Ok(top)
}

pub fn discover_root_command(start: &str) -> (c: GitCommand)
    ensures
        c@ == plain_call(start@, seq!["rev-parse"@, "--show-toplevel"@]),
{
    let args = words(vec!["rev-parse", "--show-toplevel"]);
    proof {
        assert(texts(args@) =~= seq!["rev-parse"@, "--show-toplevel"@]);
    }
    run(start, args)
}

/// The arguments that ask for the `.git` directory.
pub open spec fn git_dir_args() -> Seq<Seq<char>> {
    seq!["rev-parse"@, "--absolute-git-dir"@]
}

/// The arguments that ask for the directory linked worktrees share.
pub open spec fn git_common_dir_args() -> Seq<Seq<char>> {
    seq!["rev-parse"@, "--path-format=absolute"@, "--git-common-dir"@]
}

/// A command that had to succeed, answered with one trimmed line.
pub open spec fn required_answer(
    args: Seq<Seq<char>>,
    out: GitOutput,
    r: Result<String>,
) -> bool {
    match r {
        Ok(s) => out.status == 0 && s@ == out.answer(),
        Err(e) => out.status != 0 && e@ == require_error(args, out),
    }
}

/// The `.git` directory (absolute).
pub fn git_dir(out: GitOutput) -> (r: Result<String>)
    ensures
        required_answer(git_dir_args(), out, r),
{
    let args = words(vec!["rev-parse", "--absolute-git-dir"]);
    proof {
        assert(texts(args@) =~= git_dir_args());
    }
    match require(&args, out) {
        Ok(o) => Ok(o.trimmed()),
        Err(e) => Err(e),
    }
}

pub fn git_dir_command(root: &str) -> (c: GitCommand)
    ensures
        c@ == plain_call(root@, git_dir_args()),
{
    let args = words(vec!["rev-parse", "--absolute-git-dir"]);
    proof {
        assert(texts(args@) =~= git_dir_args());
    }
    run(root, args)
}

/// The Git directory that linked worktrees share (absolute).
pub fn git_common_dir(out: GitOutput) -> (r: Result<String>)
    ensures
        required_answer(git_common_dir_args(), out, r),
{
    let args = words(vec!["rev-parse", "--path-format=absolute", "--git-common-dir"]);
    proof {
        assert(texts(args@) =~= git_common_dir_args());
    }
    match require(&args, out) {
        Ok(o) => Ok(o.trimmed()),
        Err(e) => Err(e),
    }
}

pub fn git_common_dir_command(root: &str) -> (c: GitCommand)
    ensures
        c@ == plain_call(root@, git_common_dir_args()),
{
    let args = words(vec!["rev-parse", "--path-format=absolute", "--git-common-dir"]);
    proof {
        assert(texts(args@) =~= git_common_dir_args());
    }
    run(root, args)
}

pub fn version(out: GitOutput) -> (r: Result<String>)
    ensures
        required_answer(seq!["--version"@], out, r),
{
    let args = words(vec!["--version"]);
    proof {
        assert(texts(args@) =~= seq!["--version"@]);
    }
    match require(&args, out) {
        Ok(o) => Ok(o.trimmed()),
        Err(e) => Err(e),
    }
}

pub fn version_command(root: &str) -> (c: GitCommand)
    ensures
        c@ == plain_call(root@, seq!["--version"@]),
{
    let args = words(vec!["--version"]);
    proof {
        assert(texts(args@) =~= seq!["--version"@]);
    }
    run(root, args)
}

// ---------------------------------------------------------------------------
// Repository state
// ---------------------------------------------------------------------------

/// The branch HEAD is on; git fails where HEAD is detached.
pub open spec fn branch_named(out: GitOutput) -> Option<Seq<char>> {
    if out.status == 0 {
        Some(out.answer())
    } else {
        None
    }
}

/// The checked-out branch; `None` when HEAD is detached.
pub fn current_branch(out: &GitOutput) -> (branch: Option<String>)
    ensures
        reads(branch, branch_named(*out)),
{
    if out.ok() {
        Some(out.trimmed())
    } else {
        None
    }
}

pub fn current_branch_command(root: &str) -> (c: GitCommand)
    ensures
        c@ == plain_call(root@, seq!["symbolic-ref"@, "--quiet"@, "--short"@, "HEAD"@]),
{
    let args = words(vec!["symbolic-ref", "--quiet", "--short", "HEAD"]);
    proof {
        assert(texts(args@) =~= seq!["symbolic-ref"@, "--quiet"@, "--short"@, "HEAD"@]);
    }
    run(root, args)
}

/// A question that may have no answer: failure and an empty answer both mean
/// none.
pub open spec fn optional_answer(out: GitOutput) -> Option<Seq<char>> {
    if out.status == 0 && out.answer().len() > 0 {
        Some(out.answer())
    } else {
        None
    }
}

/// Whether an optional string reads as an optional sequence.
pub open spec fn reads(s: Option<String>, v: Option<Seq<char>>) -> bool {
    match s {
        Some(t) => v == Some(t@),
        None => v is None,
    }
}

fn answer_of(out: &GitOutput) -> (s: Option<String>)
    ensures
        reads(s, optional_answer(*out)),
{
    if out.ok() {
        let s = out.trimmed();
        if s.as_str().is_empty() {
            None
        } else {
            Some(s)
        }
    } else {
        None
    }
}

/// The commit HEAD names, if there is one.
pub fn head_oid(out: &GitOutput) -> (oid: Option<String>)
    ensures
        reads(oid, optional_answer(*out)),
{
    answer_of(out)
}

pub fn head_oid_command(root: &str) -> (c: GitCommand)
    ensures
        c@ == plain_call(root@, seq!["rev-parse"@, "--verify"@, "--quiet"@, "HEAD"@]),
{
    rev_parse_command(root, "HEAD")
}

/// The object a revision names, if there is one.
pub fn rev_parse(out: &GitOutput) -> (oid: Option<String>)
    ensures
        reads(oid, optional_answer(*out)),
{
    answer_of(out)
}

pub fn rev_parse_command(root: &str, rev: &str) -> (c: GitCommand)
    ensures
        c@ == plain_call(root@, seq!["rev-parse"@, "--verify"@, "--quiet"@, rev@]),
{
    let args = words(vec!["rev-parse", "--verify", "--quiet", rev]);
    proof {
        assert(texts(args@) =~= seq!["rev-parse"@, "--verify"@, "--quiet"@, rev@]);
    }
    run(root, args)
}

pub fn object_exists(out: &GitOutput) -> (yes: bool)
    ensures
        yes == (out.status == 0),
{
    out.ok()
}

pub fn object_exists_command(root: &str, oid: &str) -> (c: GitCommand)
    ensures
        c@ == plain_call(root@, seq!["cat-file"@, "-e"@, oid@ + "^{object}"@]),
{
    let mut spec_text = oid.to_owned();
    spec_text.push_str("^{object}");
    let args = words(vec!["cat-file", "-e", spec_text.as_str()]);
    proof {
        assert(texts(args@) =~= seq!["cat-file"@, "-e"@, oid@ + "^{object}"@]);
    }
    run(root, args)
}

/// Which marker files of an unfinished operation are in the Git directory.
#[derive(Debug, Clone, Copy)]
pub struct OperationMarkers {
    pub merge_head: bool,
    pub cherry_pick_head: bool,
    pub revert_head: bool,
    pub bisect_log: bool,
    pub rebase_merge: bool,
    pub rebase_apply: bool,
}

pub open spec fn operation_named(m: OperationMarkers) -> Option<Seq<char>> {
    if m.merge_head {
        Some("merge"@)
    } else if m.cherry_pick_head {
        Some("cherry-pick"@)
    } else if m.revert_head {
        Some("revert"@)
    } else if m.bisect_log {
        Some("bisect"@)
    } else if m.rebase_merge || m.rebase_apply {
        Some("rebase"@)
    } else {
        None
    }
}

/// The Git operation currently in progress, if any.
pub fn operation_in_progress(m: OperationMarkers) -> (name: Option<String>)
    ensures
        reads(name, operation_named(m)),
{
    if m.merge_head {
        Some("merge".to_owned())
    } else if m.cherry_pick_head {
        Some("cherry-pick".to_owned())
    } else if m.revert_head {
        Some("revert".to_owned())
    } else if m.bisect_log {
        Some("bisect".to_owned())
    } else if m.rebase_merge || m.rebase_apply {
        Some("rebase".to_owned())
    } else {
        None
    }
}

pub open spec fn status_args() -> Seq<Seq<char>> {
    seq!["status"@, "--porcelain=v1"@, "--untracked-files=normal"@, "-z"@]
}

/// Whether a status record is of a rename or a copy: the path it came from
/// follows as a field of its own.
pub open spec fn has_origin(record: Seq<char>) -> bool {
    record.len() >= 2 && (record[0] == 'R' || record[0] == 'C' || record[1] == 'R' || record[1]
        == 'C')
}

/// The status records among the fields of a status: one for each changed entry.
pub open spec fn status_records(list: Seq<Seq<char>>) -> Seq<Seq<char>>
    decreases list.len(),
{
    if list.len() == 0 {
        Seq::empty()
    } else if has_origin(list[0]) && list.len() >= 2 {
        seq![list[0]] + status_records(list.skip(2))
    } else {
        seq![list[0]] + status_records(list.skip(1))
    }
}

fn names_origin(record: &str) -> (yes: bool)
    ensures
        yes == has_origin(record@),
{
    let chars = chars_of(record);
    chars.len() >= 2 && (chars[0] == 'R' || chars[0] == 'C' || chars[1] == 'R' || chars[1] == 'C')
}

fn keep_records(list: &Vec<String>) -> (out: Vec<String>)
    ensures
        texts(out@) == status_records(texts(list@)),
{
    let mut out: Vec<String> = Vec::new();
    let ghost all = texts(list@);
    let mut i: usize = 0;
    proof {
        assert(all.skip(0) =~= all);
        assert(texts(out@) + status_records(all) =~= status_records(all));
    }
    while i < list.len()
        invariant
            all == texts(list@),
            i <= list@.len(),
            texts(out@) + status_records(all.skip(i as int)) == status_records(all),
        decreases list@.len() - i,
    {
        let record = list[i].clone();
        let ghost before = out@;
        let ghost rest = all.skip(i as int);
        let two = names_origin(record.as_str()) && list.len() - i >= 2;
        let step: usize = if two {
            2
        } else {
            1
        };
        proof {
            assert(rest[0] == record@);
            assert(rest.skip(step as int) =~= all.skip(i + step));
            lemma_texts_push(before, record);
        }
        out.push(record);
        proof {
            assert(texts(out@) + status_records(all.skip(i + step)) =~= texts(before)
                + status_records(rest));
        }
        i = i + step;
    }
    proof {
        assert(status_records(all.skip(i as int)) =~= Seq::<Seq<char>>::empty());
        assert(texts(out@) + Seq::<Seq<char>>::empty() =~= texts(out@));
    }
    out
}

/// The porcelain status lines that make the tree unclean, one for each changed
/// entry.
pub fn dirty_entries(out: GitOutput) -> (r: Result<Vec<String>>)
    ensures
        match r {
            Ok(list) => out.status == 0 && texts(list@) == status_records(
                fields(out.text(), '\0'),
            ),
            Err(e) => out.status != 0 && e@ == require_error(status_args(), out),
        },
{
    let args = words(vec!["status", "--porcelain=v1", "--untracked-files=normal", "-z"]);
    proof {
        assert(texts(args@) =~= status_args());
    }
    match require(&args, out) {
        Ok(o) => Ok(keep_records(&field_texts(o.stdout_str().as_str(), '\0'))),
        Err(e) => Err(e),
    }
}

/// A tree is clean exactly when no entry is reported.
pub proof fn a_clean_tree_reports_nothing(list: Seq<Seq<char>>)
    ensures
        status_records(list).len() == 0 <==> list.len() == 0,
        status_records(list).len() <= list.len(),
    decreases list.len(),
{
    if list.len() > 0 {
        if list.len() >= 2 {
            a_clean_tree_reports_nothing(list.skip(2));
        }
        a_clean_tree_reports_nothing(list.skip(1));
    }
}

pub fn dirty_entries_command(root: &str) -> (c: GitCommand)
    ensures
        c@ == plain_call(root@, status_args()),
{
    let args = words(vec!["status", "--porcelain=v1", "--untracked-files=normal", "-z"]);
    proof {
        assert(texts(args@) =~= status_args());
    }
    run(root, args)
}

/// What git's status says of the index: one means that it differs from HEAD.
pub open spec fn says_staged(status: i32) -> bool {
    status == 1
}

/// True when the index differs from HEAD. Zero means no differences, one means
/// differences, anything else is an error (such as no HEAD yet).
pub fn has_staged_changes(out: &GitOutput) -> (yes: bool)
    ensures
        yes == says_staged(out.status),
{
    out.status == 1
}

pub fn has_staged_changes_command(root: &str) -> (c: GitCommand)
    ensures
        c@ == plain_call(
            root@,
            seq!["diff"@, "--cached"@, "--quiet"@, "--no-ext-diff"@, "HEAD"@],
        ),
{
    let args = words(vec!["diff", "--cached", "--quiet", "--no-ext-diff", "HEAD"]);
    proof {
        assert(texts(args@) =~= seq![
            "diff"@,
            "--cached"@,
            "--quiet"@,
            "--no-ext-diff"@,
            "HEAD"@,
        ]);
    }
    run(root, args)
}

/// Upstream tracking branch, such as `origin/main`.
pub fn upstream_of(out: &GitOutput) -> (upstream: Option<String>)
    ensures
        reads(upstream, optional_answer(*out)),
{
    answer_of(out)
}

pub fn upstream_of_command(root: &str, branch: &str) -> (c: GitCommand)
    ensures
        c@ == plain_call(
            root@,
            seq![
                "rev-parse"@,
                "--abbrev-ref"@,
                "--symbolic-full-name"@,
                branch@ + "@{upstream}"@,
            ],
        ),
{
    let mut wanted = branch.to_owned();
    wanted.push_str("@{upstream}");
    let args = words(vec!["rev-parse", "--abbrev-ref", "--symbolic-full-name", wanted.as_str()]);
    proof {
        assert(texts(args@) =~= seq![
            "rev-parse"@,
            "--abbrev-ref"@,
            "--symbolic-full-name"@,
            branch@ + "@{upstream}"@,
        ]);
    }
    run(root, args)
}

/// The remote an upstream such as `origin/main` lives on.
pub fn remote_of(upstream: &str) -> (remote: String)
    ensures
        remote@ == upstream@.take(find_char(upstream@, '/')),
{
    let chars = chars_of(upstream);
    let at = position_from(&chars, '/', 0);
    let remote = text_of(&chars, 0, at);
    proof {
        assert(chars@.skip(0) =~= chars@);
        assert(remote@ =~= upstream@.take(at as int));
    }
    remote
}

pub fn config_get(out: &GitOutput) -> (value: Option<String>)
    ensures
        reads(value, optional_answer(*out)),
{
    answer_of(out)
}

pub fn config_get_command(root: &str, key: &str) -> (c: GitCommand)
    ensures
        c@ == plain_call(root@, seq!["config"@, "--get"@, key@]),
{
    let args = words(vec!["config", "--get", key]);
    proof {
        assert(texts(args@) =~= seq!["config"@, "--get"@, key@]);
    }
    run(root, args)
}

// ---------------------------------------------------------------------------
// File enumeration and ignore semantics
// ---------------------------------------------------------------------------

pub open spec fn list_args() -> Seq<Seq<char>> {
    seq!["ls-files"@, "-z"@, "--cached"@, "--others"@, "--exclude-standard"@]
}

/// Every path Git considers part of the repository, in order: tracked files
/// plus untracked files that are not ignored.
pub fn list_repository_paths(out: GitOutput) -> (r: Result<Vec<String>>)
    ensures
        match r {
            Ok(list) => {
                &&& out.status == 0
                &&& sorted(texts(list@))
                &&& distinct(texts(list@))
                &&& forall|p: Seq<char>|
                    texts(list@).contains(p) == fields(out.text(), '\0').contains(p)
            },
            Err(e) => out.status != 0 && e@ == require_error(list_args(), out),
        },
{
    let args = words(vec!["ls-files", "-z", "--cached", "--others", "--exclude-standard"]);
    proof {
        assert(texts(args@) =~= list_args());
    }
    match require(&args, out) {
        Ok(o) => {
            let found = field_texts(o.stdout_str().as_str(), '\0');
            Ok(sorted_set(&found))
        },
        Err(e) => Err(e),
    }
}

pub fn list_repository_paths_command(root: &str) -> (c: GitCommand)
    ensures
        c@ == plain_call(root@, list_args()),
{
    let args = words(vec!["ls-files", "-z", "--cached", "--others", "--exclude-standard"]);
    proof {
        assert(texts(args@) =~= list_args());
    }
    run(root, args)
}

/// Paths as git reads them from standard input: each followed by a NUL byte.
pub open spec fn nul_list(paths: Seq<Seq<char>>) -> Seq<u8>
    decreases paths.len(),
{
    if paths.len() == 0 {
        Seq::empty()
    } else {
        nul_list(paths.drop_last()) + encode_utf8(paths.last()) + seq![0u8]
    }
}

fn nul_bytes(paths: &Vec<String>) -> (out: Vec<u8>)
    ensures
        out@ == nul_list(texts(paths@)),
{
    let mut out: Vec<u8> = Vec::new();
    let mut i: usize = 0;
    while i < paths.len()
        invariant
            i <= paths@.len(),
            out@ == nul_list(texts(paths@).take(i as int)),
        decreases paths@.len() - i,
    {
        let ghost before = out@;
        proof {
            let now = texts(paths@).take(i + 1);
            assert(now.drop_last() =~= texts(paths@).take(i as int));
            assert(now.last() == paths@[i as int]@);
        }
        out.extend_from_slice(paths[i].as_str().as_bytes());
        out.push(0);
        proof {
            assert(out@ =~= before + encode_utf8(paths@[i as int]@) + seq![0u8]);
        }
        i = i + 1;
    }
    proof {
        assert(texts(paths@).take(i as int) =~= texts(paths@));
    }
    out
}

/// How the ignored paths read: each ends at a NUL.
pub open spec fn ignored_read(out: GitOutput, r: Result<Vec<String>>) -> bool {
    match r {
        Ok(list) => out.status != 128 && texts(list@) == fields(out.text(), '\0'),
        Err(e) => out.status == 128 && e@ == detailed(
            ErrorClass::GitError,
            "git check-ignore failed"@,
            out.stderr@,
        ),
    }
}

/// The paths Git considers ignored. Status 128 is an error; any other says
/// whether there are some.
pub fn filter_ignored(out: &GitOutput) -> (r: Result<Vec<String>>)
    ensures
        ignored_read(*out, r),
{
    if out.status == 128 {
        return Err(git_err("git check-ignore failed").with_detail(out.stderr.clone()));
    }
    Ok(field_texts(out.stdout_str().as_str(), '\0'))
}

/// The question behind [`filter_ignored`]; there is nothing to ask about no
/// paths.
pub fn filter_ignored_command(root: &str, paths: &Vec<String>) -> (c: Option<GitCommand>)
    ensures
        match c {
            None => paths@.len() == 0,
            Some(c) => paths@.len() > 0 && c@ == git_call(
                root@,
                seq!["check-ignore"@, "-z"@, "--stdin"@],
                Seq::empty(),
                Some(nul_list(texts(paths@))),
            ),
        },
{
    if paths.len() == 0 {
        return None;
    }
    let args = words(vec!["check-ignore", "-z", "--stdin"]);
    proof {
        assert(texts(args@) =~= seq!["check-ignore"@, "-z"@, "--stdin"@]);
    }
    Some(run_stdin(root, args, nul_bytes(paths)))
}

// ---------------------------------------------------------------------------
// Attributes
// ---------------------------------------------------------------------------

/// One attribute of one path.
#[derive(Debug)]
pub struct Attribute {
    pub path: String,
    pub name: String,
    pub value: String,
}

/// An attribute as plain values.
pub struct AttributeView {
    pub path: Seq<char>,
    pub name: Seq<char>,
    pub value: Seq<char>,
}

impl View for Attribute {
    type V = AttributeView;

    open spec fn view(&self) -> AttributeView {
        AttributeView { path: self.path@, name: self.name@, value: self.value@ }
    }
}

/// Whether a triple says something concrete about a path.
pub open spec fn is_concrete(a: AttributeView) -> bool {
    &&& a.path.len() > 0
    &&& a.value != "unspecified"@
    &&& a.value != "unset"@
    &&& a.value.len() > 0
}

/// The concrete attributes in a flat stream of path, attribute and value.
pub open spec fn concrete_attributes(stream: Seq<Seq<char>>) -> Seq<AttributeView>
    decreases stream.len(),
{
    if stream.len() < 3 {
        Seq::empty()
    } else {
        let a = AttributeView { path: stream[0], name: stream[1], value: stream[2] };
        let rest = concrete_attributes(stream.skip(3));
        if is_concrete(a) {
            seq![a] + rest
        } else {
            rest
        }
    }
}

/// The attributes git reported. A failed question is one without answers.
pub open spec fn reported_attributes(out: GitOutput) -> Seq<AttributeView> {
    if out.status == 0 {
        concrete_attributes(split(out.text(), '\0'))
    } else {
        Seq::empty()
    }
}

/// Which attributes are set for which paths. Only attributes with a concrete
/// value are returned; `unspecified` and `unset` are omitted.
pub fn check_attr(out: &GitOutput) -> (list: Vec<Attribute>)
    ensures
        crate::text::views(list@) == reported_attributes(*out),
{
    let mut list: Vec<Attribute> = Vec::new();
    if !out.ok() {
        proof {
            assert(crate::text::views(list@) =~= Seq::<AttributeView>::empty());
        }
        return list;
    }
    let stream = split_text(out.stdout_str().as_str(), '\0');
    let ghost all = texts(stream@);
    let mut i: usize = 0;
    proof {
        assert(all.skip(0) =~= all);
        assert(crate::text::views(list@) + concrete_attributes(all) =~= concrete_attributes(all));
    }
    while i < stream.len() && stream.len() - i >= 3
        invariant
            all == texts(stream@),
            i <= stream@.len(),
            crate::text::views(list@) + concrete_attributes(all.skip(i as int))
                == concrete_attributes(all),
        decreases stream@.len() - i,
    {
        let ghost before = list@;
        let ghost rest = all.skip(i as int);
        proof {
            assert(all.len() == stream@.len());
            assert(rest.skip(3) =~= all.skip(i + 3));
            assert(rest[0] == stream@[i as int]@);
            assert(rest[1] == stream@[i + 1]@);
            assert(rest[2] == stream@[i + 2]@);
        }
        let path = stream[i].as_str();
        let value = stream[i + 2].as_str();
        if !path.is_empty() && !same_text(value, "unspecified") && !same_text(value, "unset")
            && !value.is_empty() {
            let a = Attribute {
                path: path.to_owned(),
                name: stream[i + 1].clone(),
                value: value.to_owned(),
            };
            list.push(a);
            proof {
                crate::text::lemma_views_push(before, a);
                assert(crate::text::views(before) + (seq![a@] + concrete_attributes(all.skip(i + 3)))
                    =~= crate::text::views(list@) + concrete_attributes(all.skip(i + 3)));
            }
        }
        i = i + 3;
    }
    proof {
        assert(all.len() == stream@.len());
        assert(concrete_attributes(all.skip(i as int)) =~= Seq::<AttributeView>::empty());
        assert(crate::text::views(list@) + Seq::<AttributeView>::empty() =~= crate::text::views(
            list@,
        ));
    }
    list
}

/// The question behind [`check_attr`]; there is nothing to ask about no paths
/// or no attributes.
pub fn check_attr_command(root: &str, paths: &Vec<String>, attributes: &Vec<String>) -> (c: Option<
    GitCommand,
>)
    ensures
        match c {
            None => paths@.len() == 0 || attributes@.len() == 0,
            Some(c) => paths@.len() > 0 && attributes@.len() > 0 && c@ == git_call(
                root@,
                seq!["check-attr"@, "-z"@, "--stdin"@] + texts(attributes@),
                Seq::empty(),
                Some(nul_list(texts(paths@))),
            ),
        },
{
    if paths.len() == 0 || attributes.len() == 0 {
        return None;
    }
    let mut args = words(vec!["check-attr", "-z", "--stdin"]);
    let ghost head = args@;
    let mut more = crate::model::copy_texts(attributes);
    args.append(&mut more);
    proof {
        assert(texts(head) =~= seq!["check-attr"@, "-z"@, "--stdin"@]);
        assert(texts(args@) =~= texts(head) + texts(attributes@));
    }
    Some(run_stdin(root, args, nul_bytes(paths)))
}

// ---------------------------------------------------------------------------
// Unsupported repository features
// ---------------------------------------------------------------------------

/// A single unsupported-feature finding.
#[derive(Debug)]
pub struct Unsupported {
    pub feature: String,
    pub detail: String,
}

/// A finding as plain values.
pub struct UnsupportedView {
    pub feature: Seq<char>,
    pub detail: Seq<char>,
}

impl View for Unsupported {
    type V = UnsupportedView;

    open spec fn view(&self) -> UnsupportedView {
        UnsupportedView { feature: self.feature@, detail: self.detail@ }
    }
}

/// Everything about a repository that decides whether Weave supports it.
#[derive(Debug)]
pub struct RepositoryFacts {
    pub git_dir: String,
    pub common_dir: String,
    /// What `ls-files --stage -z` wrote.
    pub index: GitOutput,
    /// Whether `.gitmodules` is in the working tree.
    pub has_gitmodules: bool,
    /// `core.sparseCheckout`, under both of its spellings.
    pub sparse: Option<String>,
    pub sparse_lower: Option<String>,
    /// The concrete `filter` and `working-tree-encoding` attributes.
    pub attributes: Vec<Attribute>,
}

pub open spec fn stage_args() -> Seq<Seq<char>> {
    seq!["ls-files"@, "--stage"@, "-z"@]
}

pub fn index_command(root: &str) -> (c: GitCommand)
    ensures
        c@ == plain_call(root@, stage_args()),
{
    let args = words(vec!["ls-files", "--stage", "-z"]);
    proof {
        assert(texts(args@) =~= stage_args());
    }
    run(root, args)
}

/// The paths of the index records with one file mode. A record is
/// `<mode> <oid> <stage>`, a tab, and the path.
pub open spec fn paths_with_mode(records: Seq<Seq<char>>, mode: Seq<char>) -> Seq<Seq<char>>
    decreases records.len(),
{
    if records.len() == 0 {
        Seq::empty()
    } else {
        let before = paths_with_mode(records.drop_last(), mode);
        let record = records.last();
        let tab = find_char(record, '\t');
        if tab < record.len() && first_word(record.take(tab)) == mode {
            before.push(record.skip(tab + 1))
        } else {
            before
        }
    }
}

fn index_paths(records: &Vec<String>, mode: &str) -> (list: Vec<String>)
    ensures
        texts(list@) == paths_with_mode(texts(records@), mode@),
{
    let mut list: Vec<String> = Vec::new();
    let mut i: usize = 0;
    proof {
        assert(texts(list@) =~= paths_with_mode(texts(records@).take(0), mode@));
    }
    while i < records.len()
        invariant
            i <= records@.len(),
            texts(list@) == paths_with_mode(texts(records@).take(i as int), mode@),
        decreases records@.len() - i,
    {
        let ghost before = list@;
        let ghost record = records@[i as int]@;
        proof {
            let now = texts(records@).take(i + 1);
            assert(now.drop_last() =~= texts(records@).take(i as int));
            assert(now.last() == record);
        }
        let chars = chars_of(records[i].as_str());
        let tab = position_from(&chars, '\t', 0);
        proof {
            assert(chars@.skip(0) =~= chars@);
        }
        if tab < chars.len() {
            let meta = text_of(&chars, 0, tab);
            proof {
                assert(meta@ =~= record.take(tab as int));
            }
            if same_text(first_word_text(meta.as_str()).as_str(), mode) {
                let path = text_of(&chars, tab + 1, chars.len());
                list.push(path);
                proof {
                    assert(path@ =~= record.skip(tab + 1));
                    lemma_texts_push(before, path);
                }
            }
        }
        i = i + 1;
    }
    proof {
        assert(texts(records@).take(i as int) =~= texts(records@));
    }
    list
}

/// What the attributes of one kind lead to: how many paths, and the first.
pub open spec fn lfs_paths(list: Seq<AttributeView>) -> Seq<Seq<char>>
    decreases list.len(),
{
    if list.len() == 0 {
        Seq::empty()
    } else if list.last().name == "filter"@ && list.last().value == "lfs"@ {
        lfs_paths(list.drop_last()).push(list.last().path)
    } else {
        lfs_paths(list.drop_last())
    }
}

pub open spec fn filtered_paths(list: Seq<AttributeView>) -> Seq<Seq<char>>
    decreases list.len(),
{
    if list.len() == 0 {
        Seq::empty()
    } else if list.last().name == "filter"@ && list.last().value != "lfs"@ {
        filtered_paths(list.drop_last()).push(
            list.last().path + " (filter="@ + list.last().value + ")"@,
        )
    } else {
        filtered_paths(list.drop_last())
    }
}

pub open spec fn encoded_paths(list: Seq<AttributeView>) -> Seq<Seq<char>>
    decreases list.len(),
{
    if list.len() == 0 {
        Seq::empty()
    } else if list.last().name == "working-tree-encoding"@ {
        encoded_paths(list.drop_last()).push(list.last().path + " ("@ + list.last().value + ")"@)
    } else {
        encoded_paths(list.drop_last())
    }
}

/// A finding about some paths, when there are any: how many, and the first.
pub open spec fn counted_finding(
    feature: Seq<char>,
    list: Seq<Seq<char>>,
    noun: Seq<char>,
) -> Seq<UnsupportedView> {
    if list.len() == 0 {
        Seq::empty()
    } else {
        seq![
            UnsupportedView {
                feature,
                detail: decimal(list.len()) + noun + ", e.g. "@ + list[0],
            },
        ]
    }
}

/// A finding, when it applies.
pub open spec fn finding(applies: bool, feature: Seq<char>, detail: Seq<char>) -> Seq<
    UnsupportedView,
> {
    if applies {
        seq![UnsupportedView { feature, detail }]
    } else {
        Seq::empty()
    }
}

pub open spec fn is_true(v: Option<String>) -> bool {
    v matches Some(t) && same_ignoring_case(t@, "true"@)
}

/// Everything Weave refuses about a repository, in the order it is reported.
pub open spec fn unsupported_features(f: RepositoryFacts) -> Seq<UnsupportedView> {
    let records = fields(f.index.text(), '\0');
    let attributes = crate::text::views(f.attributes@);
    finding(
        f.git_dir@ != f.common_dir@,
        "secondary Git worktree"@,
        "This checkout is a linked worktree ("@ + f.git_dir@
            + "). Run Weave from the primary worktree."@,
    ) + counted_finding(
        "tracked symlinks"@,
        paths_with_mode(records, "120000"@),
        " tracked symlink(s)"@,
    ) + counted_finding(
        "submodules / gitlinks"@,
        paths_with_mode(records, "160000"@),
        " gitlink(s)"@,
    ) + finding(f.has_gitmodules, "submodules"@, ".gitmodules is present."@) + finding(
        is_true(f.sparse) || is_true(f.sparse_lower),
        "sparse checkout"@,
        "core.sparseCheckout is enabled."@,
    ) + counted_finding("Git LFS"@, lfs_paths(attributes), " path(s) use filter=lfs"@)
        + counted_finding(
        "custom clean/smudge filters"@,
        filtered_paths(attributes),
        " path(s)"@,
    ) + counted_finding("working-tree-encoding"@, encoded_paths(attributes), " path(s)"@)
}

fn add_finding(list: &mut Vec<Unsupported>, applies: bool, feature: &str, detail: &str)
    ensures
        crate::text::views(final(list)@) == crate::text::views(old(list)@) + finding(
            applies,
            feature@,
            detail@,
        ),
{
    if applies {
        let u = Unsupported { feature: feature.to_owned(), detail: detail.to_owned() };
        let ghost before = list@;
        list.push(u);
        proof {
            crate::text::lemma_views_push(before, u);
            assert(crate::text::views(before).push(u@) =~= crate::text::views(before) + seq![u@]);
        }
    } else {
        proof {
            assert(crate::text::views(list@) + Seq::<UnsupportedView>::empty()
                =~= crate::text::views(list@));
        }
    }
}

fn add_counted(list: &mut Vec<Unsupported>, feature: &str, paths: &Vec<String>, noun: &str)
    ensures
        crate::text::views(final(list)@) == crate::text::views(old(list)@) + counted_finding(
            feature@,
            texts(paths@),
            noun@,
        ),
{
    if paths.len() == 0 {
        add_finding(list, false, feature, "");
    } else {
        let mut detail = decimal_text(paths.len() as u64);
        detail.push_str(noun);
        detail.push_str(", e.g. ");
        detail.push_str(paths[0].as_str());
        proof {
            assert(texts(paths@)[0] == paths@[0]@);
        }
        add_finding(list, true, feature, detail.as_str());
    }
}

fn enabled(v: &Option<String>) -> (yes: bool)
    ensures
        yes == is_true(*v),
{
    match v {
        Some(t) => equal_ignoring_case(t.as_str(), "true"),
        None => false,
    }
}

/// The attribute findings: LFS, other filters, encodings.
fn attribute_paths(list: &Vec<Attribute>) -> (r: (Vec<String>, Vec<String>, Vec<String>))
    ensures
        texts(r.0@) == lfs_paths(crate::text::views(list@)),
        texts(r.1@) == filtered_paths(crate::text::views(list@)),
        texts(r.2@) == encoded_paths(crate::text::views(list@)),
{
    let mut lfs: Vec<String> = Vec::new();
    let mut filters: Vec<String> = Vec::new();
    let mut encodings: Vec<String> = Vec::new();
    let ghost all = crate::text::views(list@);
    let mut i: usize = 0;
    proof {
        assert(texts(lfs@) =~= lfs_paths(all.take(0)));
        assert(texts(filters@) =~= filtered_paths(all.take(0)));
        assert(texts(encodings@) =~= encoded_paths(all.take(0)));
        reveal_strlit("filter");
        reveal_strlit("working-tree-encoding");
    }
    while i < list.len()
        invariant
            all == crate::text::views(list@),
            i <= list@.len(),
            texts(lfs@) == lfs_paths(all.take(i as int)),
            texts(filters@) == filtered_paths(all.take(i as int)),
            texts(encodings@) == encoded_paths(all.take(i as int)),
            "filter"@.len() == 6,
            "working-tree-encoding"@.len() == 21,
        decreases list@.len() - i,
    {
        let ghost l0 = lfs@;
        let ghost f0 = filters@;
        let ghost e0 = encodings@;
        proof {
            assert(all.take(i + 1).drop_last() =~= all.take(i as int));
            assert(all.take(i + 1).last() == list@[i as int]@);
        }
        let a = &list[i];
        if same_text(a.name.as_str(), "filter") {
            if same_text(a.value.as_str(), "lfs") {
                let t = a.path.clone();
                lfs.push(t);
                proof {
                    lemma_texts_push(l0, t);
                }
            } else {
                let mut t = a.path.clone();
                t.push_str(" (filter=");
                t.push_str(a.value.as_str());
                t.push_str(")");
                filters.push(t);
                proof {
                    lemma_texts_push(f0, t);
                }
            }
        } else if same_text(a.name.as_str(), "working-tree-encoding") {
            let mut t = a.path.clone();
            t.push_str(" (");
            t.push_str(a.value.as_str());
            t.push_str(")");
            encodings.push(t);
            proof {
                lemma_texts_push(e0, t);
            }
        }
        i = i + 1;
    }
    proof {
        assert(all.take(i as int) =~= all);
    }
    (lfs, filters, encodings)
}

/// Detect every repository feature Weave refuses to synchronize.
pub fn detect_unsupported(facts: &RepositoryFacts) -> (r: Result<Vec<Unsupported>>)
    ensures
        match r {
            Ok(list) => facts.index.status == 0 && crate::text::views(list@)
                == unsupported_features(*facts),
            Err(e) => facts.index.status != 0 && e@ == require_error(stage_args(), facts.index),
        },
{
    if !facts.index.ok() {
        let args = words(vec!["ls-files", "--stage", "-z"]);
        proof {
            assert(texts(args@) =~= stage_args());
        }
        let mut m = "git ".to_owned();
        m.push_str(join_text(&args, " ").as_str());
        m.push_str(" failed");
        let detail = if facts.index.stderr.as_str().is_empty() {
            facts.index.stdout_str()
        } else {
            facts.index.stderr.clone()
        };
        return Err(git_err(m.as_str()).with_detail(detail));
    }
    let mut found: Vec<Unsupported> = Vec::new();
    proof {
        assert(crate::text::views(found@) =~= Seq::<UnsupportedView>::empty());
    }

    // Secondary worktree: the git dir differs from the common dir.
    let mut linked = "This checkout is a linked worktree (".to_owned();
    linked.push_str(facts.git_dir.as_str());
    linked.push_str("). Run Weave from the primary worktree.");
    add_finding(
        &mut found,
        !same_text(facts.git_dir.as_str(), facts.common_dir.as_str()),
        "secondary Git worktree",
        linked.as_str(),
    );

    // Submodules, gitlinks and tracked symlinks, from the index.
    let records = field_texts(facts.index.stdout_str().as_str(), '\0');
    let symlinks = index_paths(&records, "120000");
    let gitlinks = index_paths(&records, "160000");
    add_counted(&mut found, "tracked symlinks", &symlinks, " tracked symlink(s)");
    add_counted(&mut found, "submodules / gitlinks", &gitlinks, " gitlink(s)");
    add_finding(&mut found, facts.has_gitmodules, "submodules", ".gitmodules is present.");

    // Sparse checkout.
    add_finding(
        &mut found,
        enabled(&facts.sparse) || enabled(&facts.sparse_lower),
        "sparse checkout",
        "core.sparseCheckout is enabled.",
    );

    // Attributes that request transformations Weave cannot reproduce. Asking
    // Git itself is the only reliable test.
    let (lfs, filters, encodings) = attribute_paths(&facts.attributes);
    add_counted(&mut found, "Git LFS", &lfs, " path(s) use filter=lfs");
    add_counted(&mut found, "custom clean/smudge filters", &filters, " path(s)");
    add_counted(&mut found, "working-tree-encoding", &encodings, " path(s)");
    proof {
        assert(crate::text::views(found@) =~= unsupported_features(*facts));
    }
    Ok(found)
}

// ---------------------------------------------------------------------------
// Three-way text merge
// ---------------------------------------------------------------------------

/// What a line-level merge of three texts produced.
#[derive(Debug, PartialEq, Eq)]
pub enum MergeOutcome {
    /// Every edit applied; these are the merged bytes.
    Clean(Vec<u8>),
    /// Overlapping edits. Whatever the tool wrote is not kept.
    Conflict,
}

/// How the result of `git merge-file` reads: the number of clashes is its
/// status, and what it wrote counts only where there are none.
pub open spec fn merge_read(out: GitOutput, r: Result<MergeOutcome>) -> bool {
    match r {
        Ok(MergeOutcome::Clean(bytes)) => out.status == 0 && bytes == out.stdout,
        Ok(MergeOutcome::Conflict) => 0 < out.status < 128,
        Err(e) => (out.status < 0 || out.status >= 128) && e@ == detailed(
            ErrorClass::GitError,
            "git merge-file failed"@,
            out.stderr@,
        ),
    }
}

/// Read the result of `git merge-file`. Conflicted output is discarded: the
/// working tree never receives generated conflict markers.
pub fn merge_file(out: GitOutput) -> (r: Result<MergeOutcome>)
    ensures
        merge_read(out, r),
{
    if out.status == 0 {
        Ok(MergeOutcome::Clean(out.stdout))
    } else if out.status > 0 && out.status < 128 {
        Ok(MergeOutcome::Conflict)
    } else {
        Err(git_err("git merge-file failed").with_detail(out.stderr))
    }
}

/// The arguments that merge three files and print the result.
pub open spec fn merge_args(current: Seq<char>, base: Seq<char>, incoming: Seq<char>) -> Seq<
    Seq<char>,
> {
    seq![
        "merge-file"@,
        "-p"@,
        "--quiet"@,
        "-L"@,
        "canonical"@,
        "-L"@,
        "base"@,
        "-L"@,
        "incoming"@,
        current,
        base,
        incoming,
    ]
}

/// Merge the files holding the three contents.
pub fn merge_file_command(root: &str, current: &str, base: &str, incoming: &str) -> (c: GitCommand)
    ensures
        c@ == plain_call(root@, merge_args(current@, base@, incoming@)),
{
    let args = words(
        vec![
            "merge-file",
            "-p",
            "--quiet",
            "-L",
            "canonical",
            "-L",
            "base",
            "-L",
            "incoming",
            current,
            base,
            incoming,
        ],
    );
    proof {
        assert(texts(args@) =~= seq![
            "merge-file"@,
            "-p"@,
            "--quiet"@,
            "-L"@,
            "canonical"@,
            "-L"@,
            "base"@,
            "-L"@,
            "incoming"@,
            current@,
            base@,
            incoming@,
        ]);
    }
    run(root, args)
}

// ---------------------------------------------------------------------------
// Object construction
// ---------------------------------------------------------------------------

/// One trimmed answer, or an error with what git said.
pub open spec fn answer_or(out: GitOutput, message: Seq<char>, r: Result<String>) -> bool {
    match r {
        Ok(s) => out.status == 0 && s@ == out.answer(),
        Err(e) => out.status != 0 && e@ == detailed(ErrorClass::GitError, message, out.stderr@),
    }
}

fn answer_or_error(out: GitOutput, message: &str) -> (r: Result<String>)
    ensures
        answer_or(out, message@, r),
{
    if !out.ok() {
        return Err(git_err(message).with_detail(out.stderr));
    }
    Ok(out.trimmed())
}

/// The Git blob made from stored content.
pub fn hash_object(path: &RepoPath, out: GitOutput) -> (r: Result<String>)
    ensures
        answer_or(out, "Could not create a Git blob for "@ + path@, r),
{
    let mut m = "Could not create a Git blob for ".to_owned();
    m.push_str(path.as_str());
    answer_or_error(out, m.as_str())
}

/// Create a Git blob from the stored file `source`. The repository path
/// selects the attributes Git applies.
pub fn hash_object_command(root: &str, path: &RepoPath, source: &str) -> (c: GitCommand)
    ensures
        c@ == plain_call(
            root@,
            seq![
                "hash-object"@,
                "-w"@,
                "-t"@,
                "blob"@,
                "--path"@,
                path@,
                "--"@,
                source@,
            ],
        ),
{
    let args = words(
        vec!["hash-object", "-w", "-t", "blob", "--path", path.as_str(), "--", source],
    );
    proof {
        assert(texts(args@) =~= seq![
            "hash-object"@,
            "-w"@,
            "-t"@,
            "blob"@,
            "--path"@,
            path@,
            "--"@,
            source@,
        ]);
    }
    run(root, args)
}

/// One file of a tree under construction.
#[derive(Debug)]
pub struct TreeEntry {
    pub path: RepoPath,
    pub mode: GitMode,
    pub oid: String,
}

pub open spec fn tree_line(e: TreeEntry) -> Seq<char> {
    e.mode.name() + " "@ + e.oid@ + "\t"@ + e.path@ + "\n"@
}

pub open spec fn tree_text(list: Seq<TreeEntry>) -> Seq<char>
    decreases list.len(),
{
    if list.len() == 0 {
        Seq::empty()
    } else {
        tree_text(list.drop_last()) + tree_line(list.last())
    }
}

/// What `update-index --index-info` reads to build the tree in a temporary
/// index, so the live working tree and the real index are untouched.
pub fn write_tree_input(list: &Vec<TreeEntry>) -> (s: String)
    ensures
        s@ == tree_text(list@),
{
    let mut s = String::new();
    let mut i: usize = 0;
    while i < list.len()
        invariant
            i <= list@.len(),
            s@ == tree_text(list@.take(i as int)),
        decreases list@.len() - i,
    {
        proof {
            assert(list@.take(i + 1).drop_last() =~= list@.take(i as int));
            assert(list@.take(i + 1).last() == list@[i as int]);
        }
        let ghost before = s@;
        s.push_str(list[i].mode.as_str());
        s.push_str(" ");
        s.push_str(list[i].oid.as_str());
        s.push_str("\t");
        s.push_str(list[i].path.as_str());
        s.push_str("\n");
        proof {
            assert(s@ =~= before + tree_line(list@[i as int]));
        }
        i = i + 1;
    }
    proof {
        assert(list@.take(i as int) =~= list@);
    }
    s
}

/// The tree, read from the two steps that build it.
pub fn write_tree(index: GitOutput, tree: GitOutput) -> (r: Result<String>)
    ensures
        if index.status != 0 {
            r matches Err(e) && e@ == detailed(
                ErrorClass::GitError,
                "Could not build the Git index for publication"@,
                index.stderr@,
            )
        } else {
            answer_or(tree, "Could not write the Git tree"@, r)
        },
{
    if !index.ok() {
        return Err(
            git_err("Could not build the Git index for publication").with_detail(index.stderr),
        );
    }
    answer_or_error(tree, "Could not write the Git tree")
}

/// Who a commit is by, and when.
#[derive(Debug)]
pub struct Signatures {
    pub author_name: String,
    pub author_email: String,
    pub committer_name: String,
    pub committer_email: String,
    /// Seconds since the epoch.
    pub timestamp: i64,
    pub timezone: String,
}

/// A moment as git reads it: seconds since the epoch, then the time zone.
pub open spec fn date_form(timestamp: i64, timezone: Seq<char>) -> Seq<char> {
    signed_decimal(timestamp as int) + " "@ + timezone
}

fn date_text(timestamp: i64, timezone: &str) -> (s: String)
    ensures
        s@ == date_form(timestamp, timezone@),
{
    let mut s = signed_decimal_text(timestamp);
    s.push_str(" ");
    s.push_str(timezone);
    s
}

/// The signatures a described commit carries.
pub fn signatures_of(d: &CommitDescriptor) -> (s: Signatures)
    ensures
        s.author_name@ == d.author_name@,
        s.author_email@ == d.author_email@,
        s.committer_name@ == d.committer_name@,
        s.committer_email@ == d.committer_email@,
        s.timestamp == d.timestamp,
        s.timezone@ == d.timezone@,
{
    Signatures {
        author_name: d.author_name.clone(),
        author_email: d.author_email.clone(),
        committer_name: d.committer_name.clone(),
        committer_email: d.committer_email.clone(),
        timestamp: d.timestamp,
        timezone: d.timezone.clone(),
    }
}

/// The full name of a branch.
pub open spec fn branch_ref_form(branch: Seq<char>) -> Seq<char> {
    "refs/heads/"@ + branch
}

pub fn branch_ref(branch: &str) -> (s: String)
    ensures
        s@ == branch_ref_form(branch@),
{
    let mut s = "refs/heads/".to_owned();
    s.push_str(branch);
    s
}

/// The commit object, read from what git answered.
pub fn commit_tree(out: GitOutput) -> (r: Result<String>)
    ensures
        answer_or(out, "Could not create the Git commit object"@, r),
{
    answer_or_error(out, "Could not create the Git commit object")
}

/// The arguments that make a commit of a tree.
pub open spec fn commit_args(tree: Seq<char>, parent: Option<&str>) -> Seq<Seq<char>> {
    match parent {
        Some(p) => seq!["commit-tree"@, tree, "-p"@, p@],
        None => seq!["commit-tree"@, tree],
    }
}

/// What git is told of who made a commit and when.
pub open spec fn signature_env(who: Signatures) -> Seq<(Seq<char>, Seq<char>)> {
    seq![
        ("GIT_AUTHOR_NAME"@, who.author_name@),
        ("GIT_AUTHOR_EMAIL"@, who.author_email@),
        ("GIT_AUTHOR_DATE"@, date_form(who.timestamp, who.timezone@)),
        ("GIT_COMMITTER_NAME"@, who.committer_name@),
        ("GIT_COMMITTER_EMAIL"@, who.committer_email@),
        ("GIT_COMMITTER_DATE"@, date_form(who.timestamp, who.timezone@)),
    ]
}

/// Create a commit of `tree` on top of `parent`. Author and committer share
/// one date, so the same commit is made whoever makes it.
pub fn commit_tree_command(
    root: &str,
    tree: &str,
    parent: Option<&str>,
    message: &str,
    who: &Signatures,
) -> (c: GitCommand)
    ensures
        c@ == git_call(
            root@,
            commit_args(tree@, parent),
            signature_env(*who),
            Some(encode_utf8(message@)),
        ),
{
    let args = match parent {
        Some(p) => {
            let a = words(vec!["commit-tree", tree, "-p", p]);
            proof {
                assert(texts(a@) =~= seq!["commit-tree"@, tree@, "-p"@, p@]);
            }
            a
        },
        None => {
            let a = words(vec!["commit-tree", tree]);
            proof {
                assert(texts(a@) =~= seq!["commit-tree"@, tree@]);
            }
            a
        },
    };
    let mut env: Vec<(String, String)> = Vec::new();
    env.push(("GIT_AUTHOR_NAME".to_owned(), who.author_name.clone()));
    env.push(("GIT_AUTHOR_EMAIL".to_owned(), who.author_email.clone()));
    env.push(("GIT_AUTHOR_DATE".to_owned(), date_text(who.timestamp, who.timezone.as_str())));
    env.push(("GIT_COMMITTER_NAME".to_owned(), who.committer_name.clone()));
    env.push(("GIT_COMMITTER_EMAIL".to_owned(), who.committer_email.clone()));
    env.push(
        ("GIT_COMMITTER_DATE".to_owned(), date_text(who.timestamp, who.timezone.as_str())),
    );
    proof {
        assert(pairs(env@) =~= seq![
            ("GIT_AUTHOR_NAME"@, who.author_name@),
            ("GIT_AUTHOR_EMAIL"@, who.author_email@),
            ("GIT_AUTHOR_DATE"@, date_form(who.timestamp, who.timezone@)),
            ("GIT_COMMITTER_NAME"@, who.committer_name@),
            ("GIT_COMMITTER_EMAIL"@, who.committer_email@),
            ("GIT_COMMITTER_DATE"@, date_form(who.timestamp, who.timezone@)),
        ]);
    }
    let mut input: Vec<u8> = Vec::new();
    input.extend_from_slice(message.as_bytes());
    proof {
        assert(input@ =~= encode_utf8(message@));
    }
    run_stdin_env(root, args, input, env)
}

/// The object name that stands for "no such ref yet".
pub open spec fn zero_oid() -> Seq<char> {
    "0000000000000000000000000000000000000000"@
}

pub open spec fn expected_oid(expected: Option<&str>) -> Seq<char> {
    match expected {
        Some(o) => o@,
        None => zero_oid(),
    }
}

/// How moving a reference went: git refuses where it was not where it was
/// expected to be.
pub open spec fn ref_moved(
    refname: Seq<char>,
    old_oid: Seq<char>,
    out: GitOutput,
    r: Result<()>,
) -> bool {
    match r {
        Ok(_) => out.status == 0,
        Err(e) => out.status != 0 && e@ == detailed(
            ErrorClass::IntegrityError,
            "GitIntegrityError: "@ + refname + " did not match the expected previous commit"@,
            "Expected "@ + old_oid + "\n\n"@ + out.stderr@
                + "\n\nWeave paused this replica rather than rewriting Git state."@,
        ),
    }
}

/// Read the result of a compare-and-swap branch update.
pub fn update_ref_cas(refname: &str, expected_old: Option<&str>, out: &GitOutput) -> (r: Result<()>)
    ensures
        ref_moved(refname@, expected_oid(expected_old), *out, r),
{
    if !out.ok() {
        let mut m = "GitIntegrityError: ".to_owned();
        m.push_str(refname);
        m.push_str(" did not match the expected previous commit");
        let mut d = "Expected ".to_owned();
        d.push_str(
            match expected_old {
                Some(o) => o,
                None => "0000000000000000000000000000000000000000",
            },
        );
        d.push_str("\n\n");
        d.push_str(out.stderr.as_str());
        d.push_str("\n\nWeave paused this replica rather than rewriting Git state.");
        return Err(integrity(m.as_str()).with_detail(d));
    }
    Ok(())
}

/// The arguments that move a reference from where it is expected to be.
pub open spec fn update_ref_args(
    refname: Seq<char>,
    new_oid: Seq<char>,
    old_oid: Seq<char>,
) -> Seq<Seq<char>> {
    seq!["update-ref"@, "-m"@, "weave publication"@, refname, new_oid, old_oid]
}

/// Compare-and-swap branch update: git refuses unless the branch is still at
/// the expected commit.
pub fn update_ref_cas_command(root: &str, refname: &str, new_oid: &str, expected_old: Option<&str>) -> (c:
    GitCommand)
    ensures
        c@ == plain_call(root@, update_ref_args(refname@, new_oid@, expected_oid(expected_old))),
{
    let old_oid: &str = match expected_old {
        Some(o) => o,
        None => "0000000000000000000000000000000000000000",
    };
    let args = words(vec!["update-ref", "-m", "weave publication", refname, new_oid, old_oid]);
    proof {
        assert(texts(args@) =~= seq![
            "update-ref"@,
            "-m"@,
            "weave publication"@,
            refname@,
            new_oid@,
            expected_oid(expected_old),
        ]);
    }
    run(root, args)
}

/// How reading a tree into the index went.
pub open spec fn index_read(out: GitOutput, r: Result<()>) -> bool {
    match r {
        Ok(_) => out.status == 0,
        Err(e) => out.status != 0 && e@ == detailed(
            ErrorClass::GitError,
            "Could not update the Git index to the published tree"@,
            out.stderr@,
        ),
    }
}

/// Read the result of moving the index to a tree.
pub fn read_tree_into_index(out: GitOutput) -> (r: Result<()>)
    ensures
        index_read(out, r),
{
    if !out.ok() {
        return Err(
            git_err("Could not update the Git index to the published tree").with_detail(out.stderr),
        );
    }
    Ok(())
}

/// Update the index to a tree without touching working-tree files.
pub fn read_tree_command(root: &str, tree: &str) -> (c: GitCommand)
    ensures
        c@ == plain_call(root@, seq!["read-tree"@, tree@]),
{
    let args = words(vec!["read-tree", tree]);
    proof {
        assert(texts(args@) =~= seq!["read-tree"@, tree@]);
    }
    run(root, args)
}

/// The revisions to pack: everything reachable from `commit` but not from
/// `parent`.
pub open spec fn pack_revisions(commit: Seq<char>, parent: Option<&str>) -> Seq<char> {
    match parent {
        Some(p) => commit + "\n"@ + "^"@ + p@ + "\n"@,
        None => commit + "\n"@,
    }
}

/// What `pack-objects` reads to pack the objects a commit introduced.
pub fn pack_objects_to(commit: &str, parent: Option<&str>) -> (s: String)
    ensures
        s@ == pack_revisions(commit@, parent),
{
    let mut revs = commit.to_owned();
    revs.push_str("\n");
    if let Some(p) = parent {
        revs.push_str("^");
        revs.push_str(p);
        revs.push_str("\n");
    }
    revs
}

/// Pack the objects a commit introduced.
pub fn pack_objects_command(root: &str, revisions: &str) -> (c: GitCommand)
    ensures
        c@ == git_call(
            root@,
            seq!["pack-objects"@, "--revs"@, "--stdout"@, "--delta-base-offset"@, "-q"@],
            Seq::empty(),
            Some(encode_utf8(revisions@)),
        ),
{
    let args = words(
        vec!["pack-objects", "--revs", "--stdout", "--delta-base-offset", "-q"],
    );
    let none: Vec<(String, String)> = Vec::new();
    proof {
        assert(texts(args@) =~= seq![
            "pack-objects"@,
            "--revs"@,
            "--stdout"@,
            "--delta-base-offset"@,
            "-q"@,
        ]);
        assert(pairs(none@) =~= Seq::<(Seq<char>, Seq<char>)>::empty());
    }
    let mut input: Vec<u8> = Vec::new();
    input.extend_from_slice(revisions.as_bytes());
    proof {
        assert(input@ =~= encode_utf8(revisions@));
    }
    run_stdin_env(root, args, input, none)
}

/// How the result of packing reads.
pub open spec fn pack_read(out: GitOutput, r: Result<Vec<u8>>) -> bool {
    match r {
        Ok(pack) => out.status == 0 && pack == out.stdout,
        Err(e) => out.status != 0 && e@ == detailed(
            ErrorClass::GitError,
            "Could not pack Git objects for distribution"@,
            trim(out.stderr@),
        ),
    }
}

/// Read the result of packing: the pack.
pub fn pack_objects(out: GitOutput) -> (r: Result<Vec<u8>>)
    ensures
        pack_read(out, r),
{
    if !out.ok() {
        return Err(
            git_err("Could not pack Git objects for distribution").with_detail(
                trim_text(out.stderr.as_str()),
            ),
        );
    }
    Ok(out.stdout)
}

/// Install the exact objects the host produced, from a pack on standard input.
pub fn unpack_objects_command(root: &str, pack: Vec<u8>) -> (c: GitCommand)
    ensures
        c@ == git_call(
            root@,
            seq!["unpack-objects"@, "-q"@],
            Seq::empty(),
            Some(pack@),
        ),
{
    let args = words(vec!["unpack-objects", "-q"]);
    let none: Vec<(String, String)> = Vec::new();
    proof {
        assert(texts(args@) =~= seq!["unpack-objects"@, "-q"@]);
        assert(pairs(none@) =~= Seq::<(Seq<char>, Seq<char>)>::empty());
    }
    run_stdin_env(root, args, pack, none)
}

/// Read the result of installing objects.
pub fn unpack_objects(out: GitOutput) -> (r: Result<()>)
    ensures
        match r {
            Ok(_) => out.status == 0,
            Err(e) => out.status != 0 && e@ == detailed(
                ErrorClass::GitError,
                "Could not install the Git objects sent by the host"@,
                trim(out.stderr@),
            ),
        },
{
    if !out.ok() {
        return Err(
            git_err("Could not install the Git objects sent by the host").with_detail(
                trim_text(out.stderr.as_str()),
            ),
        );
    }
    Ok(())
}

// ---------------------------------------------------------------------------
// Remote
// ---------------------------------------------------------------------------

#[derive(Debug)]
pub struct PushResult {
    pub ok: bool,
    pub diverged: bool,
    pub message: String,
}

/// Whether what git said about a refused push means the remote moved on.
pub open spec fn says_diverged(stderr: Seq<char>) -> bool {
    let lower = lower_ascii(stderr);
    ||| contains_text(lower, "non-fast-forward"@)
    ||| contains_text(lower, "fetch first"@)
    ||| contains_text(lower, "rejected"@)
    ||| contains_text(lower, "behind"@)
}

/// How the result of a push reads.
pub open spec fn push_read(out: GitOutput, r: PushResult) -> bool {
    &&& r.ok == (out.status == 0)
    &&& r.diverged == (out.status != 0 && says_diverged(out.stderr@))
    &&& r.message == out.stderr
}

/// Read the result of a push. A remote that moved is reported, never forced.
pub fn push(out: GitOutput) -> (r: PushResult)
    ensures
        push_read(out, r),
{
    if out.ok() {
        return PushResult { ok: true, diverged: false, message: out.stderr };
    }
    let lower = lower_ascii_text(out.stderr.as_str());
    let diverged = has_text(lower.as_str(), "non-fast-forward") || has_text(
        lower.as_str(),
        "fetch first",
    ) || has_text(lower.as_str(), "rejected") || has_text(lower.as_str(), "behind");
    PushResult { ok: false, diverged, message: out.stderr }
}

/// The arguments that push a branch to its namesake.
pub open spec fn push_args(remote: Seq<char>, branch: Seq<char>) -> Seq<Seq<char>> {
    seq!["push"@, remote, "refs/heads/"@ + branch + ":refs/heads/"@ + branch]
}

/// Push a branch to its namesake, without force.
pub fn push_command(root: &str, remote: &str, branch: &str) -> (c: GitCommand)
    ensures
        c@ == plain_call(root@, push_args(remote@, branch@)),
{
    let mut refspec = "refs/heads/".to_owned();
    refspec.push_str(branch);
    refspec.push_str(":refs/heads/");
    refspec.push_str(branch);
    let args = words(vec!["push", remote, refspec.as_str()]);
    proof {
        assert(texts(args@) =~= seq![
            "push"@,
            remote@,
            "refs/heads/"@ + branch@ + ":refs/heads/"@ + branch@,
        ]);
    }
    run(root, args)
}

/// The commit a remote branch is at: the first word of the first line.
pub open spec fn remote_oid(out: GitOutput) -> Option<Seq<char>> {
    if out.status == 0 && first_word(first_line(out.answer())).len() > 0 {
        Some(first_word(first_line(out.answer())))
    } else {
        None
    }
}

pub fn remote_branch_oid(out: &GitOutput) -> (oid: Option<String>)
    ensures
        reads(oid, remote_oid(*out)),
{
    if !out.ok() {
        return None;
    }
    let line = first_line_text(out.trimmed().as_str());
    let word = first_word_text(line.as_str());
    if word.as_str().is_empty() {
        None
    } else {
        Some(word)
    }
}

pub fn remote_branch_oid_command(root: &str, remote: &str, branch: &str) -> (c: GitCommand)
    ensures
        c@ == plain_call(
            root@,
            seq!["ls-remote"@, "--heads"@, remote@, branch_ref_form(branch@)],
        ),
{
    let refname = branch_ref(branch);
    let args = words(vec!["ls-remote", "--heads", remote, refname.as_str()]);
    proof {
        assert(texts(args@) =~= seq![
            "ls-remote"@,
            "--heads"@,
            remote@,
            branch_ref_form(branch@),
        ]);
    }
    run(root, args)
}

// ---------------------------------------------------------------------------
// Entry helpers
// ---------------------------------------------------------------------------

/// The mode of a file on disk: its executable bits where the platform has
/// them, else the mode it had.
pub open spec fn disk_mode(permissions: Option<u32>, previous: Option<EntryView>) -> GitMode {
    match permissions {
        Some(bits) => if bits & 0o111 != 0 {
            GitMode::Executable
        } else {
            GitMode::Regular
        },
        None => match previous {
            Some(e) => e.git_mode,
            None => GitMode::Regular,
        },
    }
}

/// The Git mode a file on disk should be recorded with. `permissions` are its
/// Unix permission bits, on a platform that has them.
pub fn mode_for_disk_file(permissions: Option<u32>, previous: Option<&FileEntry>) -> (mode: GitMode)
    ensures
        mode == disk_mode(permissions, entry_ref(previous)),
{
    match permissions {
        Some(bits) => if bits & 0o111 != 0 {
            GitMode::Executable
        } else {
            GitMode::Regular
        },
        None => match previous {
            Some(e) => e.git_mode,
            None => GitMode::Regular,
        },
    }
}

} // verus!
