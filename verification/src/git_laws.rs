//! How what git says is read: status, index, attributes, and a refused push.

use vstd::prelude::*;

use crate::error::{ErrorClass, Result};
use crate::gitx::{
    base_env, branch_named, commit_args, concrete_attributes, encoded_paths, expected_oid,
    filtered_paths, git_call, ignored_read, index_read, lfs_paths, merge_args, merge_read, nul_list,
    operation_named, optional_answer, pack_read, pack_revisions, paths_with_mode, push_args,
    push_read, ref_moved, remote_oid, says_diverged, says_staged, signature_env, status_records,
    tree_line, tree_text, unsupported_features, update_ref_args, AttributeView, GitOutput,
    MergeOutcome, OperationMarkers, PushResult, RepositoryFacts, Signatures, TreeEntry,
};
use crate::model::GitMode;
use crate::text::{
    contains_text, first_word, found_at, is_space, lemma_find_char_is, lemma_find_space_is,
    lemma_trim_start, lower_ascii, lower_letter, same_ignoring_case, same_letter, texts,
};
use crate::text_laws::{is_blank, trimming_takes_blanks_only};

verus! {

/// A record of a status says that the entry was renamed or copied, by an R or a
/// C in either of its two columns.
pub open spec fn says_moved(record: Seq<char>) -> bool {
    record.len() >= 2 && exists|k: int| 0 <= k < 2 && (#[trigger] record[k] == 'R' || record[k] == 'C')
}

/// The fields of a status: each record, followed by where the entry came from
/// if it was renamed or copied.
pub open spec fn status_fields(records: Seq<(Seq<char>, Seq<char>)>) -> Seq<Seq<char>>
    decreases records.len(),
{
    if records.len() == 0 {
        Seq::empty()
    } else if says_moved(records[0].0) {
        seq![records[0].0, records[0].1] + status_fields(records.drop_first())
    } else {
        seq![records[0].0] + status_fields(records.drop_first())
    }
}

/// A status is read back as the records it was written from: every changed
/// entry once, and where an entry came from is no entry.
pub proof fn a_status_is_read_back(records: Seq<(Seq<char>, Seq<char>)>)
    ensures
        status_records(status_fields(records)) == records.map_values(
            |r: (Seq<char>, Seq<char>)| r.0,
        ),
    decreases records.len(),
{
    let all = status_fields(records);
    let names = records.map_values(|r: (Seq<char>, Seq<char>)| r.0);
    if records.len() == 0 {
        assert(names =~= Seq::<Seq<char>>::empty());
    } else {
        let rest = records.drop_first();
        a_status_is_read_back(rest);
        let r = records[0].0;
        if r.len() >= 2 {
            assert(r[0] == 'R' || r[0] == 'C' || r[1] == 'R' || r[1] == 'C' ==> says_moved(r));
        }
        if says_moved(r) {
            assert(all.skip(2) =~= status_fields(rest));
        } else {
            assert(all.skip(1) =~= status_fields(rest));
        }
        assert(names =~= seq![r] + rest.map_values(|x: (Seq<char>, Seq<char>)| x.0));
    }
}

/// A word: characters, none of which is white space.
pub open spec fn is_word(s: Seq<char>) -> bool {
    s.len() > 0 && forall|k: int| 0 <= k < s.len() ==> !is_space(#[trigger] s[k])
}

/// A record of the index, or of a tree to be: a mode, a blank and more, then a
/// tab and the path.
pub open spec fn is_record(record: Seq<char>, mode: Seq<char>, more: Seq<char>, path: Seq<char>) -> bool {
    &&& is_word(mode)
    &&& forall|k: int| 0 <= k < more.len() ==> #[trigger] more[k] != '\t'
    &&& record == mode + seq![' '] + more + seq!['\t'] + path
}

/// The path of an index record is listed under the record's mode and under no
/// other.
pub proof fn an_index_record_is_listed_under_its_mode(
    records: Seq<Seq<char>>,
    mode: Seq<char>,
    more: Seq<char>,
    path: Seq<char>,
    wanted: Seq<char>,
)
    requires
        records.len() > 0,
        is_record(records.last(), mode, more, path),
    ensures
        paths_with_mode(records, wanted) == if wanted == mode {
            paths_with_mode(records.drop_last(), wanted).push(path)
        } else {
            paths_with_mode(records.drop_last(), wanted)
        },
{
    let record = records.last();
    let tab = (mode.len() + 1 + more.len()) as int;
    assert(record[tab] == '\t');
    assert forall|k: int| 0 <= k < tab implies record[k] != '\t' by {
        if k < mode.len() {
            assert(record[k] == mode[k]);
            assert(!is_space(mode[k]));
        } else if k > mode.len() {
            assert(record[k] == more[k - mode.len() - 1]);
        }
    }
    lemma_find_char_is(record, '\t', tab);
    let head = record.take(tab);
    assert(head =~= mode + seq![' '] + more);
    assert(head[0] == mode[0]);
    lemma_trim_start(head, 0);
    assert(head.skip(0) =~= head);
    assert forall|k: int| 0 <= k < mode.len() implies !is_space(#[trigger] head[k]) by {
        assert(head[k] == mode[k]);
    }
    lemma_find_space_is(head, mode.len() as int);
    assert(first_word(head) =~= mode);
    assert(record.skip(tab + 1) =~= path);
}

/// A line of a tree to be is a record that names the entry's mode and path, and
/// ends with a line break.
pub proof fn a_tree_line_names_mode_and_path(e: TreeEntry)
    requires
        forall|k: int| 0 <= k < e.oid@.len() ==> #[trigger] e.oid@[k] != '\t',
    ensures
        ({
            let line = tree_line(e);
            &&& line.last() == '\n'
            &&& is_record(line.drop_last(), e.mode.name(), e.oid@, e.path@)
            &&& paths_with_mode(seq![line.drop_last()], e.mode.name()) == seq![e.path@]
            &&& e.mode == GitMode::Executable ==> paths_with_mode(
                seq![line.drop_last()],
                "100755"@,
            ) == seq![e.path@]
            &&& e.mode == GitMode::Regular ==> paths_with_mode(seq![line.drop_last()], "100644"@)
                == seq![e.path@]
        }),
{
    reveal_strlit(" ");
    reveal_strlit("\t");
    reveal_strlit("\n");
    reveal_strlit("100644");
    reveal_strlit("100755");
    let line = tree_line(e);
    let mode = e.mode.name();
    assert(is_word(mode)) by {
        assert forall|k: int| 0 <= k < mode.len() implies !is_space(#[trigger] mode[k]) by {
            assert(k == 0 || k == 1 || k == 2 || k == 3 || k == 4 || k == 5);
        }
    }
    assert(line.drop_last() =~= mode + seq![' '] + e.oid@ + seq!['\t'] + e.path@);
    let list = seq![line.drop_last()];
    assert(list.last() == line.drop_last());
    assert(list.drop_last() =~= Seq::<Seq<char>>::empty());
    an_index_record_is_listed_under_its_mode(list, mode, e.oid@, e.path@, mode);
    assert(Seq::<Seq<char>>::empty().push(e.path@) =~= seq![e.path@]);
}

/// An attribute is reported exactly when it is one of the triples, is about a
/// path, and has a value.
pub proof fn an_attribute_with_a_value_is_reported(stream: Seq<Seq<char>>, a: AttributeView)
    ensures
        concrete_attributes(stream).contains(a) == (a.path.len() > 0 && a.value.len() > 0 && a.value
            != "unset"@ && a.value != "unspecified"@ && exists|k: int|
            0 <= k && 3 * k + 2 < stream.len() && stream[3 * k] == a.path && stream[3 * k + 1]
                == a.name && #[trigger] stream[3 * k + 2] == a.value),
    decreases stream.len(),
{
    let valued = a.path.len() > 0 && a.value.len() > 0 && a.value != "unset"@ && a.value
        != "unspecified"@;
    if stream.len() >= 3 {
        let rest = stream.skip(3);
        an_attribute_with_a_value_is_reported(rest, a);
        let first = AttributeView { path: stream[0], name: stream[1], value: stream[2] };
        let tail = concrete_attributes(rest);
        let all = concrete_attributes(stream);
        if all.contains(a) {
            let i = choose|i: int| 0 <= i < all.len() && all[i] == a;
            if crate::gitx::is_concrete(first) {
                if i == 0 {
                    let z: int = 0;
                    assert(stream[3 * z + 2] == a.value);
                } else {
                    assert(tail[i - 1] == a);
                    assert(tail.contains(a));
                }
            }
            if tail.contains(a) {
                let k = choose|k: int|
                    0 <= k && 3 * k + 2 < rest.len() && rest[3 * k] == a.path && rest[3 * k + 1]
                        == a.name && #[trigger] rest[3 * k + 2] == a.value;
                assert(stream[3 * (k + 1) + 2] == a.value);
                assert(stream[3 * (k + 1)] == a.path);
                assert(stream[3 * (k + 1) + 1] == a.name);
            }
        }
        if valued && exists|k: int|
            0 <= k && 3 * k + 2 < stream.len() && stream[3 * k] == a.path && stream[3 * k + 1] == a.name
                && #[trigger] stream[3 * k + 2] == a.value {
            let k = choose|k: int|
                0 <= k && 3 * k + 2 < stream.len() && stream[3 * k] == a.path && stream[3 * k + 1]
                    == a.name && #[trigger] stream[3 * k + 2] == a.value;
            if k == 0 {
                assert(first == a);
                assert(all[0] == a);
            } else {
                assert(rest[3 * (k - 1) + 2] == a.value);
                assert(rest[3 * (k - 1)] == a.path);
                assert(rest[3 * (k - 1) + 1] == a.name);
                assert(tail.contains(a));
                let i = choose|i: int| 0 <= i < tail.len() && tail[i] == a;
                if crate::gitx::is_concrete(first) {
                    assert(all[i + 1] == a);
                } else {
                    assert(all[i] == a);
                }
            }
        }
    }
}

/// Whether a word stands in a text, in letters of either case.
pub open spec fn mentions(s: Seq<char>, word: Seq<char>) -> bool {
    exists|at: int|
        0 <= at && at + word.len() <= s.len() && same_ignoring_case(
            #[trigger] s.subrange(at, at + word.len()),
            word,
        )
}

/// A refused push means that the remote went its own way exactly when git
/// mentions one of the words for it.
pub proof fn a_diverged_remote_is_told_by_gits_words(stderr: Seq<char>)
    ensures
        says_diverged(stderr) == (mentions(stderr, "rejected"@) || mentions(stderr, "behind"@)
            || mentions(stderr, "fetch first"@) || mentions(stderr, "non-fast-forward"@)),
{
    reveal_strlit("rejected");
    reveal_strlit("behind");
    reveal_strlit("fetch first");
    reveal_strlit("non-fast-forward");
    lemma_mentions(stderr, "rejected"@);
    lemma_mentions(stderr, "behind"@);
    lemma_mentions(stderr, "fetch first"@);
    lemma_mentions(stderr, "non-fast-forward"@);
}

proof fn lemma_mentions(s: Seq<char>, word: Seq<char>)
    requires
        forall|k: int| 0 <= k < word.len() ==> !('A' <= #[trigger] word[k] && word[k] <= 'Z'),
    ensures
        contains_text(lower_ascii(s), word) == mentions(s, word),
{
    let lower = lower_ascii(s);
    assert forall|at: int| 0 <= at && at + word.len() <= s.len() implies found_at(lower, word, at)
        == same_ignoring_case(#[trigger] s.subrange(at, at + word.len()), word) by {
        let piece = s.subrange(at, at + word.len());
        let low = lower.subrange(at, at + word.len());
        assert forall|k: int| 0 <= k < word.len() implies (low[k] == word[k]) == same_letter(
            piece[k],
            word[k],
        ) by {
            assert(low[k] == lower_letter(piece[k]));
        }
        if low == word {
            assert forall|k: int| 0 <= k < piece.len() implies #[trigger] same_letter(
                piece[k],
                word[k],
            ) by {
                assert(low[k] == word[k]);
            }
        }
        if same_ignoring_case(piece, word) {
            assert forall|k: int| 0 <= k < word.len() implies low[k] == word[k] by {
                assert(same_letter(piece[k], word[k]));
            }
            assert(low =~= word);
        }
    }
    if contains_text(lower, word) {
        let at = choose|at: int| found_at(lower, word, at);
        assert(same_ignoring_case(s.subrange(at, at + word.len()), word));
    }
    if mentions(s, word) {
        let at = choose|at: int|
            0 <= at && at + word.len() <= s.len() && same_ignoring_case(
                #[trigger] s.subrange(at, at + word.len()),
                word,
            );
        assert(found_at(lower, word, at));
    }
}

/// A question git may leave unanswered has an answer exactly when git succeeded
/// and said something, and the answer is what it said without the white space
/// around it.
pub proof fn silence_is_no_answer(out: GitOutput)
    ensures
        (optional_answer(out) is Some) == (out.status == 0 && !is_blank(out.text())),
        optional_answer(out) matches Some(a) ==> a == crate::text::trim(out.text()) && a.len() > 0,
{
    trimming_takes_blanks_only(out.text());
}

/// An operation is in progress exactly when git left one of its marks.
pub proof fn an_operation_is_known_by_its_marks(m: OperationMarkers)
    ensures
        (operation_named(m) is Some) == (m.merge_head || m.cherry_pick_head || m.revert_head
            || m.bisect_log || m.rebase_merge || m.rebase_apply),
        operation_named(m) == Some("merge"@) ==> m.merge_head,
        m.merge_head ==> operation_named(m) == Some("merge"@),
{
    reveal_strlit("merge");
    reveal_strlit("cherry-pick");
    reveal_strlit("revert");
    reveal_strlit("bisect");
    reveal_strlit("rebase");
    if !m.merge_head {
        if operation_named(m) == Some("merge"@) {
            assert("merge"@.len() == 5);
            assert("cherry-pick"@.len() == 11);
            assert("revert"@.len() == 6);
            assert("bisect"@.len() == 6);
            assert("rebase"@.len() == 6);
        }
    }
}

// ---------------------------------------------------------------------------
// What git is asked, and how its answers count
// ---------------------------------------------------------------------------

/// HEAD is on a branch exactly when git succeeds, and then on the one it names.
pub proof fn a_branch_is_what_git_names(out: GitOutput)
    ensures
        (branch_named(out) is Some) == (out.status == 0),
        out.status == 0 ==> branch_named(out) == Some(out.answer()),
{
}

/// Something is staged exactly when git says that the index differs; a failure
/// says nothing.
pub proof fn the_index_differs_when_git_says_so(status: i32)
    ensures
        says_staged(status) == (status == 1),
{
}

/// A merge is clean exactly when git met no clash, and its result is then all
/// that git wrote; it clashes where git counts clashes, and anything else is a
/// failure of git.
pub proof fn a_merge_is_clean_without_clashes(out: GitOutput, r: Result<MergeOutcome>)
    requires
        merge_read(out, r),
    ensures
        (r is Ok && r->Ok_0 is Clean) == (out.status == 0),
        r is Ok && r->Ok_0 is Clean ==> r->Ok_0->Clean_0@ == out.stdout@,
        (r is Ok && r->Ok_0 is Conflict) == (1 <= out.status <= 127),
        r is Err == (out.status < 0 || out.status > 127),
        r is Err ==> r->Err_0@.class == ErrorClass::GitError,
{
}

/// A merge is asked of git with what is canonical first, the common origin
/// second and what is incoming last, and printed rather than written.
pub proof fn a_merge_is_asked_in_its_order(
    current: Seq<char>,
    base: Seq<char>,
    incoming: Seq<char>,
)
    ensures
        ({
            let args = merge_args(current, base, incoming);
            let n = args.len() as int;
            &&& n >= 4
            &&& args[0] == "merge-file"@
            &&& args[1] == "-p"@
            &&& args[n - 3] == current
            &&& args[n - 2] == base
            &&& args[n - 1] == incoming
        }),
{
}

/// A push went through exactly when git succeeded; one that failed diverged
/// exactly when git says that the remote moved on. What git said is kept.
pub proof fn a_push_went_through_when_git_succeeded(out: GitOutput, r: PushResult)
    requires
        push_read(out, r),
    ensures
        r.ok == (out.status == 0),
        r.diverged ==> !r.ok,
        !r.ok ==> r.diverged == says_diverged(out.stderr@),
        r.message@ == out.stderr@,
{
}

/// A push names the remote, and one branch for its namesake, and nothing that
/// would force it.
pub proof fn a_push_never_forces(remote: Seq<char>, branch: Seq<char>)
    ensures
        push_args(remote, branch).len() == 3,
        push_args(remote, branch)[0] == "push"@,
        push_args(remote, branch)[1] == remote,
        push_args(remote, branch)[2] == "refs/heads/"@ + branch + ":refs/heads/"@ + branch,
        push_args(remote, branch)[2][0] != '+',
{
    reveal_strlit("refs/heads/");
}

/// A reference is moved to the new commit only from the one it is expected at;
/// where none is expected, from none.
pub proof fn a_reference_is_moved_from_where_it_is_expected(
    refname: Seq<char>,
    new_oid: Seq<char>,
    expected: Option<&str>,
)
    ensures
        ({
            let args = update_ref_args(refname, new_oid, expected_oid(expected));
            let n = args.len() as int;
            &&& n >= 4
            &&& args[0] == "update-ref"@
            &&& args[n - 3] == refname
            &&& args[n - 2] == new_oid
            &&& expected is Some ==> args[n - 1] == expected->0@
            &&& expected is None ==> args[n - 1].len() == 40 && forall|i: int|
                0 <= i < 40 ==> #[trigger] args[n - 1][i] == '0'
        }),
{
    reveal_strlit("0000000000000000000000000000000000000000");
}

/// A reference has moved exactly when git succeeded; otherwise the replica's Git
/// state is not what it should be.
pub proof fn a_reference_moved_when_git_succeeded(
    refname: Seq<char>,
    old_oid: Seq<char>,
    out: GitOutput,
    r: Result<()>,
)
    requires
        ref_moved(refname, old_oid, out, r),
    ensures
        r is Ok == (out.status == 0),
        r is Err ==> r->Err_0@.class == ErrorClass::IntegrityError,
{
}

/// The index follows, and a pack is made, exactly when git succeeded; the pack is
/// all that git wrote.
pub proof fn the_index_and_the_pack_come_from_git(
    out: GitOutput,
    index: Result<()>,
    pack: Result<Vec<u8>>,
)
    requires
        index_read(out, index),
        pack_read(out, pack),
    ensures
        index is Ok == (out.status == 0),
        pack is Ok == (out.status == 0),
        pack is Ok ==> pack->Ok_0@ == out.stdout@,
{
}

/// The ignored paths are all that git lists, unless git failed.
pub proof fn ignored_paths_are_what_git_lists(out: GitOutput, r: Result<Vec<String>>)
    requires
        ignored_read(out, r),
    ensures
        r is Ok == (out.status != 128),
        r is Ok ==> texts(r->Ok_0@) == crate::text::fields(out.text(), '\0'),
{
}

/// A commit is made of its tree, after its parent where it has one, by its
/// author and its committer at one moment.
pub proof fn a_commit_is_made_of_its_tree(tree: Seq<char>, parent: Option<&str>, who: Signatures)
    ensures
        commit_args(tree, parent)[0] == "commit-tree"@,
        commit_args(tree, parent)[1] == tree,
        parent is None ==> commit_args(tree, parent).len() == 2,
        parent is Some ==> commit_args(tree, parent).len() == 4 && commit_args(tree, parent)[2]
            == "-p"@ && commit_args(tree, parent)[3] == parent->0@,
        signature_env(who).contains(("GIT_AUTHOR_NAME"@, who.author_name@)),
        signature_env(who).contains(("GIT_AUTHOR_EMAIL"@, who.author_email@)),
        signature_env(who).contains(("GIT_COMMITTER_NAME"@, who.committer_name@)),
        signature_env(who).contains(("GIT_COMMITTER_EMAIL"@, who.committer_email@)),
        signature_env(who)[2].1 == signature_env(who)[5].1,
        signature_env(who)[2].0 == "GIT_AUTHOR_DATE"@,
        signature_env(who)[5].0 == "GIT_COMMITTER_DATE"@,
{
    let env = signature_env(who);
    assert(env[0] == ("GIT_AUTHOR_NAME"@, who.author_name@));
    assert(env[1] == ("GIT_AUTHOR_EMAIL"@, who.author_email@));
    assert(env[3] == ("GIT_COMMITTER_NAME"@, who.committer_name@));
    assert(env[4] == ("GIT_COMMITTER_EMAIL"@, who.committer_email@));
}

/// Every command runs in the repository, with what it was given, and never waits
/// for a terminal.
pub proof fn a_command_runs_in_the_repository(
    root: Seq<char>,
    args: Seq<Seq<char>>,
    env: Seq<(Seq<char>, Seq<char>)>,
    input: Option<Seq<u8>>,
    i: int,
)
    ensures
        ({
            let c = git_call(root, args, env, input);
            &&& c.args.len() == args.len() + 2
            &&& c.args[0] == "-C"@
            &&& c.args[1] == root
            &&& 0 <= i < args.len() ==> c.args[i + 2] == args[i]
            &&& 0 <= i < env.len() ==> c.env.contains(env[i])
            &&& c.env.contains(("GIT_TERMINAL_PROMPT"@, "0"@))
            &&& c.env.contains(("LC_ALL"@, "C"@))
            &&& c.input == input
        }),
{
    let c = git_call(root, args, env, input);
    let b = base_env();
    assert(c.env[1] == ("GIT_TERMINAL_PROMPT"@, "0"@));
    assert(c.env[3] == ("LC_ALL"@, "C"@));
    if 0 <= i < env.len() {
        assert(c.env[b.len() + i] == env[i]);
    }
}

/// A remote branch is at a commit exactly when git succeeded and named one, and
/// then at the first it named.
pub proof fn a_remote_branch_is_where_git_says(out: GitOutput)
    ensures
        (remote_oid(out) is Some) == (out.status == 0 && first_word(
            crate::text::first_line(out.answer()),
        ).len() > 0),
        remote_oid(out) is Some ==> remote_oid(out)->0 == first_word(
            crate::text::first_line(out.answer()),
        ),
{
}

/// The pack of a commit holds what the commit reaches and its parent does not.
pub proof fn a_pack_is_what_the_commit_adds(commit: Seq<char>, parent: Option<&str>)
    ensures
        parent is None ==> pack_revisions(commit, parent) == commit + "\n"@,
        parent is Some ==> pack_revisions(commit, parent) == commit + "\n"@ + "^"@ + parent->0@
            + "\n"@,
{
}

/// The tree handed to git has one line for each entry, in their order.
pub proof fn a_tree_is_written_line_by_line(list: Seq<TreeEntry>, e: TreeEntry)
    ensures
        tree_text(Seq::<TreeEntry>::empty()).len() == 0,
        tree_text(list.push(e)) == tree_text(list) + tree_line(e),
{
    assert(list.push(e).drop_last() =~= list);
}

/// The paths handed to git are each followed by a NUL byte, in their order.
pub proof fn paths_are_handed_over_one_by_one(list: Seq<Seq<char>>, path: Seq<char>)
    ensures
        nul_list(Seq::<Seq<char>>::empty()).len() == 0,
        nul_list(list.push(path)) == nul_list(list) + vstd::utf8::encode_utf8(path) + seq![0u8],
{
    assert(list.push(path).drop_last() =~= list);
}

// ---------------------------------------------------------------------------
// What is not supported
// ---------------------------------------------------------------------------

proof fn lemma_attributes(list: Seq<AttributeView>)
    ensures
        (lfs_paths(list).len() > 0) == exists|i: int|
            0 <= i < list.len() && (#[trigger] list[i]).name == "filter"@ && list[i].value == "lfs"@,
        (filtered_paths(list).len() > 0) == exists|i: int|
            0 <= i < list.len() && (#[trigger] list[i]).name == "filter"@ && list[i].value != "lfs"@,
        (encoded_paths(list).len() > 0) == exists|i: int|
            0 <= i < list.len() && (#[trigger] list[i]).name == "working-tree-encoding"@,
    decreases list.len(),
{
    if list.len() > 0 {
        let front = list.drop_last();
        let last = list[list.len() - 1];
        lemma_attributes(front);
        assert forall|i: int| 0 <= i < front.len() implies #[trigger] front[i] == list[i] by {
        }
        if lfs_paths(front).len() > 0 {
            let i = choose|i: int|
                0 <= i < front.len() && (#[trigger] front[i]).name == "filter"@ && front[i].value
                    == "lfs"@;
            assert(list[i] == front[i]);
        }
        if filtered_paths(front).len() > 0 {
            let i = choose|i: int|
                0 <= i < front.len() && (#[trigger] front[i]).name == "filter"@ && front[i].value
                    != "lfs"@;
            assert(list[i] == front[i]);
        }
        if encoded_paths(front).len() > 0 {
            let i = choose|i: int|
                0 <= i < front.len() && (#[trigger] front[i]).name == "working-tree-encoding"@;
            assert(list[i] == front[i]);
        }
        if exists|i: int|
            0 <= i < list.len() && (#[trigger] list[i]).name == "filter"@ && list[i].value == "lfs"@ {
            let i = choose|i: int|
                0 <= i < list.len() && (#[trigger] list[i]).name == "filter"@ && list[i].value
                    == "lfs"@;
            if i < front.len() {
                assert(front[i] == list[i]);
            }
        }
        if exists|i: int|
            0 <= i < list.len() && (#[trigger] list[i]).name == "filter"@ && list[i].value != "lfs"@ {
            let i = choose|i: int|
                0 <= i < list.len() && (#[trigger] list[i]).name == "filter"@ && list[i].value
                    != "lfs"@;
            if i < front.len() {
                assert(front[i] == list[i]);
            }
        }
        if exists|i: int|
            0 <= i < list.len() && (#[trigger] list[i]).name == "working-tree-encoding"@ {
            let i = choose|i: int|
                0 <= i < list.len() && (#[trigger] list[i]).name == "working-tree-encoding"@;
            if i < front.len() {
                assert(front[i] == list[i]);
            }
        }
    }
}

/// A repository is supported exactly when it is no linked worktree, tracks no
/// symbolic link or other repository, has no sparse checkout, and none of its
/// files passes a filter or has an encoding of its own.
pub proof fn a_plain_repository_is_supported(f: RepositoryFacts)
    ensures
        (unsupported_features(f).len() == 0) == {
            let records = crate::text::fields(f.index.text(), '\0');
            let attributes = crate::text::views(f.attributes@);
            &&& f.git_dir@ == f.common_dir@
            &&& paths_with_mode(records, "120000"@).len() == 0
            &&& paths_with_mode(records, "160000"@).len() == 0
            &&& !f.has_gitmodules
            &&& !(f.sparse is Some && same_ignoring_case(f.sparse->0@, "true"@))
            &&& !(f.sparse_lower is Some && same_ignoring_case(f.sparse_lower->0@, "true"@))
            &&& forall|i: int|
                0 <= i < attributes.len() ==> (#[trigger] attributes[i]).name != "filter"@
                    && attributes[i].name != "working-tree-encoding"@
        },
{
    let attributes = crate::text::views(f.attributes@);
    lemma_attributes(attributes);
    if forall|i: int|
        0 <= i < attributes.len() ==> (#[trigger] attributes[i]).name != "filter"@
            && attributes[i].name != "working-tree-encoding"@ {
    } else {
        let i = choose|i: int|
            0 <= i < attributes.len() && !((#[trigger] attributes[i]).name != "filter"@
                && attributes[i].name != "working-tree-encoding"@);
        assert(attributes[i].name == "filter"@ || attributes[i].name == "working-tree-encoding"@);
        if attributes[i].name == "filter"@ {
            if attributes[i].value == "lfs"@ {
                assert(lfs_paths(attributes).len() > 0);
            } else {
                assert(filtered_paths(attributes).len() > 0);
            }
        }
    }
}

} // verus!
