//! `weave agent bootstrap`: a clearly delimited managed block in `AGENTS.md`,
//! with every unrelated instruction left untouched.
//!
//! The block says "check `weave status`", never "a session is active", so it
//! can stay committed permanently.

use vstd::prelude::*;

use crate::text::{chars_of, find_text, found_at, opt_view, same_text, text_of};

verus! {

pub const BEGIN: &'static str = "<!-- weave:begin -->";

pub const END: &'static str = "<!-- weave:end -->";

/// How the block opens: when to ask whether a session is active.
pub const OPENING: &'static str = "\n## Weave collaboration\n\nThis repository supports Weave live collaboration.\n\nBefore substantial file modifications, run:\n\n    weave status --json\n\nIf a Weave session is active:\n\n";

/// What shared live state asks for.
pub const SHARING: &'static str = "- Treat the working tree as shared live state; other people and agents are editing it now.\n- Follow the installed Weave collaboration/task/conflict/commit skills.\n- Create a Weave Task before substantial changes:\n";

/// How tasks are started and looked at.
pub const TASKS: &'static str = "  `weave task start --description \"...\" --file <path>`.\n- Inspect overlapping active Tasks with `weave task list --json`; overlap is context, not a lock.\n";

/// Which Git commands are out.
pub const GIT_WRITES: &'static str = "- Re-read important files before finalizing changes when concurrent activity occurred.\n- Never perform raw Git write operations: no `git add`, `commit`, `pull`, `push`, `merge`,\n";

/// The rest of those, and which ones stay allowed.
pub const GIT_READS: &'static str = "  `rebase`, `cherry-pick`, `reset`, `checkout`, `switch` or `stash`.\n  Read-only Git (`status`, `diff`, `log`, `show`) stays allowed.\n";

/// How a commit is published and a conflict resolved.
pub const PUBLISHING: &'static str = "- Use Weave for Git publication: `weave commit prepare` then `weave commit create <prepare_id>`.\n- Resolve conflicts with `weave conflict show/resolve`; never write Git conflict markers by hand.\n\n";

/// Who publishes, and what holds without a session.
pub const CLOSING: &'static str = "A non-host may request a Weave commit, but only the host coordinator builds the canonical Git\nobjects, updates the branch and pushes.\n\nIf no Weave session is active, normal Git workflows apply.\n";

/// The body between the markers.
pub open spec fn body_form() -> Seq<char> {
    OPENING@ + SHARING@ + TASKS@ + GIT_WRITES@ + GIT_READS@ + PUBLISHING@ + CLOSING@
}

pub open spec fn block_form() -> Seq<char> {
    BEGIN@ + "\n"@ + body_form() + "\n"@ + END@
}

pub fn managed_block() -> (s: String)
    ensures
        s@ == block_form(),
{
    let mut s = BEGIN.to_owned();
    s.push_str("\n");
    s.push_str(OPENING);
    s.push_str(SHARING);
    s.push_str(TASKS);
    s.push_str(GIT_WRITES);
    s.push_str(GIT_READS);
    s.push_str(PUBLISHING);
    s.push_str(CLOSING);
    proof {
        assert(s@ =~= BEGIN@ + "\n"@ + body_form());
    }
    s.push_str("\n");
    s.push_str(END);
    s
}

/// What becomes of the file.
#[derive(Debug)]
pub struct BootstrapResult {
    /// What has to be written, when anything has.
    pub content: Option<String>,
    pub created: bool,
    pub updated: bool,
}

/// The first place a text stands at.
pub open spec fn first_at(s: Seq<char>, needle: Seq<char>, at: int) -> bool {
    found_at(s, needle, at) && forall|k: int| 0 <= k < at ==> !#[trigger] found_at(s, needle, k)
}

/// Whether a text has a managed block: from its first begin marker to its
/// first end marker.
pub open spec fn block_at(s: Seq<char>, start: int, end: int) -> bool {
    first_at(s, BEGIN@, start) && first_at(s, END@, end) && end > start
}

pub open spec fn has_block(s: Seq<char>) -> bool {
    exists|start: int, end: int| #[trigger] block_at(s, start, end)
}

/// A text with the block put behind it.
pub open spec fn appended(s: Seq<char>) -> Seq<char> {
    let lines = if s.len() > 0 && s.last() == '\n' {
        s
    } else {
        s.push('\n')
    };
    lines.push('\n') + block_form() + "\n"@
}

/// What the file holds once the block has been applied.
pub open spec fn applied(existing: Option<Seq<char>>) -> Seq<char> {
    match existing {
        None => block_form() + "\n"@,
        Some(s) => if has_block(s) {
            let (start, end) = choose|start: int, end: int| #[trigger] block_at(s, start, end);
            s.take(start) + block_form() + s.skip(end + END@.len())
        } else {
            appended(s)
        },
    }
}

/// Create or update the managed block, given the file's text if there is one.
/// A file without a block gets it at the end; a stale block is replaced where
/// it stands; a current one needs nothing.
pub fn apply(existing: &Option<String>) -> (r: BootstrapResult)
    ensures
        match r.content {
            Some(text) => text@ == applied(opt_view(*existing)),
            None => opt_view(*existing) == Some(applied(opt_view(*existing))),
        },
        r.updated == (opt_view(*existing) != Some(applied(opt_view(*existing)))),
        match *existing {
            None => {
                &&& r.created
                &&& r.updated
                &&& opt_view(r.content) == Some(block_form() + "\n"@)
            },
            Some(text) => {
                &&& !r.created
                &&& r.updated == r.content is Some
                &&& !has_block(text@) ==> opt_view(r.content) == Some(appended(text@))
                &&& forall|start: int, end: int| #[trigger]
                    block_at(text@, start, end) ==> {
                        let after = end + END@.len();
                        opt_view(r.content) == if text@.subrange(start, after) == block_form() {
                            None
                        } else {
                            Some(text@.take(start) + block_form() + text@.skip(after))
                        }
                    }
            },
        },
{
    let block = managed_block();
    match existing {
        None => {
            let mut content = block;
            content.push_str("\n");
            BootstrapResult { content: Some(content), created: true, updated: true }
        },
        Some(text) => {
            let chars = chars_of(text.as_str());
            let begin = chars_of(BEGIN);
            let end_marker = chars_of(END);
            let start = find_text(&chars, &begin);
            let end = find_text(&chars, &end_marker);
            match (start, end) {
                (Some(start), Some(end)) => {
                    proof {
                        lemma_first_is_one(text@, BEGIN@, start as int);
                        lemma_first_is_one(text@, END@, end as int);
                    }
                    if end > start {
                        assert(chars.len() <= usize::MAX);
                        let after: usize = end + end_marker.len();
                        let current = text_of(&chars, start, after);
                        proof {
                            assert(current@ =~= text@.subrange(start as int, after as int));
                            assert(block_at(text@, start as int, end as int));
                        }
                        proof {
                            lemma_one_block(text@, start as int, end as int);
                        }
                        if same_text(current.as_str(), block.as_str()) {
                            return BootstrapResult { content: None, created: false, updated: false };
                        }
                        let mut next = text_of(&chars, 0, start);
                        let rest = text_of(&chars, after, chars.len());
                        proof {
                            assert(next@ =~= text@.take(start as int));
                            assert(rest@ =~= text@.skip(after as int));
                        }
                        next.push_str(block.as_str());
                        next.push_str(rest.as_str());
                        return BootstrapResult { content: Some(next), created: false, updated: true };
                    }
                },
                _ => {},
            }
            proof {
                assert forall|a: int, b: int| !#[trigger] block_at(text@, a, b) by {
                    if block_at(text@, a, b) {
                        assert(found_at(text@, BEGIN@, a));
                        assert(found_at(text@, END@, b));
                    }
                }
            }
            let mut next = text.clone();
            let n = chars.len();
            if n == 0 || chars[n - 1] != '\n' {
                next.push('\n');
            }
            next.push('\n');
            next.push_str(block.as_str());
            next.push_str("\n");
            BootstrapResult { content: Some(next), created: false, updated: true }
        },
    }
}

proof fn lemma_first_is_one(s: Seq<char>, needle: Seq<char>, at: int)
    requires
        first_at(s, needle, at),
    ensures
        forall|k: int| #[trigger] first_at(s, needle, k) ==> k == at,
{
    assert forall|k: int| #[trigger] first_at(s, needle, k) implies k == at by {
        if k < at {
            assert(!found_at(s, needle, k));
        } else if at < k {
            assert(!found_at(s, needle, at));
        }
    }
}

/// What applying does to a text with a block, and that it changes the text
/// exactly where the block is not the current one.
proof fn lemma_one_block(s: Seq<char>, start: int, end: int)
    requires
        block_at(s, start, end),
    ensures
        ({
            let after = end + END@.len();
            let next = s.take(start) + block_form() + s.skip(after);
            &&& applied(Some(s)) == next
            &&& (next == s) == (s.subrange(start, after) == block_form())
        }),
{
    let after = end + END@.len();
    let next = s.take(start) + block_form() + s.skip(after);
    let (a, b) = choose|a: int, b: int| #[trigger] block_at(s, a, b);
    assert(block_at(s, a, b));
    lemma_first_is_one(s, BEGIN@, start);
    lemma_first_is_one(s, END@, end);
    if s.subrange(start, after) == block_form() {
        assert(next =~= s);
    }
    if next == s {
        assert(block_form().len() == after - start);
        assert(next.subrange(start, after) =~= block_form());
    }
}

/// Text outside the block is left alone: whatever stood before and behind it
/// stands there afterwards.
pub proof fn unrelated_text_is_kept(s: Seq<char>, start: int, end: int)
    requires
        block_at(s, start, end),
    ensures
        ({
            let after = end + END@.len();
            let next = s.take(start) + block_form() + s.skip(after);
            &&& next.take(start) == s.take(start)
            &&& next.skip(start + block_form().len()) == s.skip(after)
        }),
{
    let after = end + END@.len();
    let next = s.take(start) + block_form() + s.skip(after);
    assert(next.take(start) =~= s.take(start));
    assert(next.skip(start + block_form().len()) =~= s.skip(after));
}

/// No character from `lo` to `hi` is an exclamation mark.
spec fn calm(s: Seq<char>, lo: int, hi: int) -> bool
    decreases hi - lo,
{
    if hi <= lo {
        true
    } else if hi == lo + 1 {
        s[lo] != '!'
    } else {
        let mid = (lo + hi) / 2;
        calm(s, lo, mid) && calm(s, mid, hi)
    }
}

proof fn lemma_calm(s: Seq<char>, lo: int, hi: int, k: int)
    requires
        calm(s, lo, hi),
        lo <= k < hi,
    ensures
        s[k] != '!',
    decreases hi - lo,
{
    if hi > lo + 1 {
        let mid = (lo + hi) / 2;
        if k < mid {
            lemma_calm(s, lo, mid, k);
        } else {
            lemma_calm(s, mid, hi, k);
        }
    }
}

proof fn lemma_opening()
    ensures
        calm(OPENING@, 0, OPENING@.len() as int),
{
    reveal_strlit("\n## Weave collaboration\n\nThis repository supports Weave live collaboration.\n\nBefore substantial file modifications, run:\n\n    weave status --json\n\nIf a Weave session is active:\n\n");
    reveal_with_fuel(calm, 10);
}

proof fn lemma_sharing()
    ensures
        calm(SHARING@, 0, SHARING@.len() as int),
{
    reveal_strlit("- Treat the working tree as shared live state; other people and agents are editing it now.\n- Follow the installed Weave collaboration/task/conflict/commit skills.\n- Create a Weave Task before substantial changes:\n");
    reveal_with_fuel(calm, 10);
}

proof fn lemma_tasks()
    ensures
        calm(TASKS@, 0, TASKS@.len() as int),
{
    reveal_strlit("  `weave task start --description \"...\" --file <path>`.\n- Inspect overlapping active Tasks with `weave task list --json`; overlap is context, not a lock.\n");
    reveal_with_fuel(calm, 10);
}

proof fn lemma_git_writes()
    ensures
        calm(GIT_WRITES@, 0, GIT_WRITES@.len() as int),
{
    reveal_strlit("- Re-read important files before finalizing changes when concurrent activity occurred.\n- Never perform raw Git write operations: no `git add`, `commit`, `pull`, `push`, `merge`,\n");
    reveal_with_fuel(calm, 10);
}

proof fn lemma_git_reads()
    ensures
        calm(GIT_READS@, 0, GIT_READS@.len() as int),
{
    reveal_strlit("  `rebase`, `cherry-pick`, `reset`, `checkout`, `switch` or `stash`.\n  Read-only Git (`status`, `diff`, `log`, `show`) stays allowed.\n");
    reveal_with_fuel(calm, 10);
}

proof fn lemma_publishing()
    ensures
        calm(PUBLISHING@, 0, PUBLISHING@.len() as int),
{
    reveal_strlit("- Use Weave for Git publication: `weave commit prepare` then `weave commit create <prepare_id>`.\n- Resolve conflicts with `weave conflict show/resolve`; never write Git conflict markers by hand.\n\n");
    reveal_with_fuel(calm, 10);
}

proof fn lemma_closing()
    ensures
        calm(CLOSING@, 0, CLOSING@.len() as int),
{
    reveal_strlit("A non-host may request a Weave commit, but only the host coordinator builds the canonical Git\nobjects, updates the branch and pushes.\n\nIf no Weave session is active, normal Git workflows apply.\n");
    reveal_with_fuel(calm, 10);
}

proof fn lemma_body(k: int)
    requires
        0 <= k < body_form().len(),
    ensures
        body_form()[k] != '!',
{
    lemma_opening();
    lemma_sharing();
    lemma_tasks();
    lemma_git_writes();
    lemma_git_reads();
    lemma_publishing();
    lemma_closing();
    let a = OPENING@;
    let b = a + SHARING@;
    let c = b + TASKS@;
    let d = c + GIT_WRITES@;
    let e = d + GIT_READS@;
    let f = e + PUBLISHING@;
    assert(body_form() == f + CLOSING@);
    if k < a.len() {
        lemma_calm(OPENING@, 0, OPENING@.len() as int, k);
    } else if k < b.len() {
        lemma_calm(SHARING@, 0, SHARING@.len() as int, k - a.len());
    } else if k < c.len() {
        lemma_calm(TASKS@, 0, TASKS@.len() as int, k - b.len());
    } else if k < d.len() {
        lemma_calm(GIT_WRITES@, 0, GIT_WRITES@.len() as int, k - c.len());
    } else if k < e.len() {
        lemma_calm(GIT_READS@, 0, GIT_READS@.len() as int, k - d.len());
    } else if k < f.len() {
        lemma_calm(PUBLISHING@, 0, PUBLISHING@.len() as int, k - e.len());
    } else {
        lemma_calm(CLOSING@, 0, CLOSING@.len() as int, k - f.len());
    }
}

/// A marker: an opening bracket and an exclamation mark, then no other bracket
/// and no line break.
spec fn is_marker(m: Seq<char>) -> bool {
    &&& m.len() > 11
    &&& m[0] == '<'
    &&& m[1] == '!'
    &&& forall|j: int| 0 < j < m.len() ==> #[trigger] m[j] != '<'
    &&& forall|j: int| 0 <= j < m.len() ==> #[trigger] m[j] != '\n'
}

proof fn lemma_markers()
    ensures
        BEGIN@.len() == 20,
        END@.len() == 18,
        is_marker(BEGIN@),
        is_marker(END@),
        BEGIN@[11] != END@[11],
        END@[17] == '>',
{
    reveal_strlit("<!-- weave:begin -->");
    reveal_strlit("<!-- weave:end -->");
    assert forall|j: int| 0 < j < 20 implies #[trigger] BEGIN@[j] != '<' by {
        lemma_below_twenty(j);
    }
    assert forall|j: int| 0 <= j < 20 implies #[trigger] BEGIN@[j] != '\n' by {
        lemma_below_twenty(j);
    }
    assert forall|j: int| 0 < j < 18 implies #[trigger] END@[j] != '<' by {
        lemma_below_twenty(j);
    }
    assert forall|j: int| 0 <= j < 18 implies #[trigger] END@[j] != '\n' by {
        lemma_below_twenty(j);
    }
}

proof fn lemma_below_twenty(j: int)
    requires
        0 <= j < 20,
    ensures
        j == 0 || j == 1 || j == 2 || j == 3 || j == 4 || j == 5 || j == 6 || j == 7 || j == 8 || j == 9
            || j == 10 || j == 11 || j == 12 || j == 13 || j == 14 || j == 15 || j == 16 || j == 17 || j
            == 18 || j == 19,
{
}

/// Inside the block a marker can only stand at either end.
proof fn lemma_block(k: int)
    requires
        0 <= k < block_form().len() - 1,
        block_form()[k] == '<',
        block_form()[k + 1] == '!',
    ensures
        k == 0 || k == block_form().len() - 18,
{
    lemma_markers();
    reveal_strlit("\n");
    let n = body_form().len() as int;
    let g = block_form();
    if 0 < k < 20 {
        assert(g[k] == BEGIN@[k]);
    } else if k == 20 {
        assert(g[k] == '\n');
    } else if 20 < k < 20 + n {
        assert(g[k + 1] == body_form()[k + 1 - 21]);
        lemma_body(k + 1 - 21);
    } else if k == 20 + n {
        assert(g[k + 1] == '\n');
    } else if k == 21 + n {
        assert(g[k] == '\n');
    } else if k > 22 + n {
        assert(g[k] == END@[k - 22 - n]);
    }
}

/// Where a marker stands in a text that holds the block: in the text before
/// it, in the text behind it, or at the one end of it that is that marker.
proof fn lemma_places(a: Seq<char>, z: Seq<char>, m: Seq<char>, k: int)
    requires
        m == BEGIN@ || m == END@,
        found_at(a + block_form() + z, m, k),
    ensures
        ({
            let n = block_form().len();
            ||| found_at(a, m, k)
            ||| m == BEGIN@ && k == a.len()
            ||| m == END@ && k == a.len() + n - 18
            ||| k >= a.len() + n && found_at(z, m, k - a.len() - n)
        }),
{
    let g = block_form();
    let n = g.len() as int;
    let u = a + g + z;
    let p = a.len() as int;
    lemma_markers();
    reveal_strlit("\n");
    let here = u.subrange(k, k + m.len());
    assert forall|j: int| 0 <= j < m.len() implies #[trigger] m[j] == u[k + j] by {
        assert(here[j] == u[k + j]);
    }
    assert(g[0] == BEGIN@[0]);
    assert(g[11] == BEGIN@[11]);
    assert(g[n - 18] == END@[0]);
    assert(g[n - 18 + 11] == END@[11]);
    assert(g[n - 1] == END@[17]);
    if k + m.len() <= p {
        assert(a.subrange(k, k + m.len()) =~= here);
    } else if k < p {
        assert(u[p] == g[0]);
        assert(m[p - k] == u[k + (p - k)]);
    } else if k < p + n {
        assert(m[0] == u[k + 0]);
        assert(m[1] == u[k + 1]);
        assert(u[k] == g[k - p]);
        if k < p + n - 1 {
            assert(u[k + 1] == g[k - p + 1]);
            lemma_block(k - p);
            assert(m[11] == u[k + 11]);
            assert(u[k + 11] == g[k - p + 11]);
        }
    } else {
        assert(z.subrange(k - p - n, k - p - n + m.len()) =~= here);
    }
}

/// The block's own markers stand where it stands.
proof fn lemma_block_stands(a: Seq<char>, z: Seq<char>)
    ensures
        ({
            let u = a + block_form() + z;
            let n = block_form().len();
            &&& n >= 40
            &&& found_at(u, BEGIN@, a.len() as int)
            &&& found_at(u, END@, a.len() + n - 18)
            &&& u.subrange(a.len() as int, (a.len() + n) as int) == block_form()
            &&& u.take(a.len() as int) == a
            &&& u.skip((a.len() + n) as int) == z
        }),
{
    lemma_markers();
    reveal_strlit("\n");
    let g = block_form();
    let n = g.len() as int;
    let u = a + g + z;
    let p = a.len() as int;
    assert(u.subrange(p, p + 20) =~= BEGIN@);
    assert(u.subrange(p + n - 18, p + n) =~= END@);
    assert(u.subrange(p, p + n) =~= g);
    assert(u.take(p) =~= a);
    assert(u.skip(p + n) =~= z);
}

/// A block behind a text that holds no marker is the text's one block, and is
/// left alone from then on.
proof fn lemma_settled(a: Seq<char>, z: Seq<char>)
    requires
        forall|k: int| !#[trigger] found_at(a, BEGIN@, k),
        forall|k: int| !#[trigger] found_at(a, END@, k),
    ensures
        ({
            let u = a + block_form() + z;
            &&& block_at(u, a.len() as int, a.len() + block_form().len() - 18)
            &&& applied(Some(u)) == u
        }),
{
    let n = block_form().len() as int;
    let p = a.len() as int;
    let u = a + block_form() + z;
    lemma_markers();
    lemma_block_stands(a, z);
    assert forall|k: int| 0 <= k < p implies !#[trigger] found_at(u, BEGIN@, k) by {
        if found_at(u, BEGIN@, k) {
            lemma_places(a, z, BEGIN@, k);
        }
    }
    assert forall|k: int| 0 <= k < p + n - 18 implies !#[trigger] found_at(u, END@, k) by {
        if found_at(u, END@, k) {
            lemma_places(a, z, END@, k);
        }
    }
    assert(block_at(u, p, p + n - 18));
    lemma_first_is_one(u, BEGIN@, p);
    lemma_first_is_one(u, END@, p + n - 18);
    let (start, end) = choose|start: int, end: int| #[trigger] block_at(u, start, end);
    assert(block_at(u, start, end));
    assert(start == p && end == p + n - 18);
}

/// Whether a text holds neither marker.
pub open spec fn unmarked(s: Seq<char>) -> bool {
    &&& forall|k: int| !#[trigger] found_at(s, BEGIN@, k)
    &&& forall|k: int| !#[trigger] found_at(s, END@, k)
}

/// The text before an appended block, as unmarked as the file was.
proof fn lemma_unmarked_lines(s: Seq<char>, a: Seq<char>, m: Seq<char>, k: int)
    requires
        m == BEGIN@ || m == END@,
        a.len() > s.len(),
        a.take(s.len() as int) == s,
        forall|j: int| s.len() <= j < a.len() ==> #[trigger] a[j] == '\n',
        found_at(a, m, k),
    ensures
        found_at(s, m, k),
{
    lemma_markers();
    let here = a.subrange(k, k + m.len());
    if k + m.len() > s.len() {
        let j = m.len() - 1;
        assert(here[j] == a[k + j]);
        assert(a[k + j] == '\n');
    } else {
        assert(s.subrange(k, k + m.len()) =~= here) by {
            assert(a.take(s.len() as int).subrange(k, k + m.len()) =~= here);
        }
    }
}

/// Applying twice is applying once: on a missing file, on one without any
/// marker and on one with a block. A stray marker without a block is left out,
/// since the appended block may pair with it.
pub proof fn a_second_application_changes_nothing(existing: Option<Seq<char>>)
    requires
        existing matches Some(s) ==> unmarked(s) || has_block(s),
    ensures
        has_block(applied(existing)),
        applied(Some(applied(existing))) == applied(existing),
{
    lemma_markers();
    let u = applied(existing);
    match existing {
        None => {
            let a = Seq::<char>::empty();
            assert(a + block_form() + "\n"@ =~= u);
            lemma_settled(a, "\n"@);
        },
        Some(s) => {
            if has_block(s) {
                let (start, end) = choose|start: int, end: int| #[trigger] block_at(s, start, end);
                let a = s.take(start);
                let z = s.skip(end + END@.len());
                assert forall|k: int| !#[trigger] found_at(a, BEGIN@, k) by {
                    if found_at(a, BEGIN@, k) {
                        assert(s.subrange(k, k + 20) =~= a.subrange(k, k + 20));
                        assert(found_at(s, BEGIN@, k));
                    }
                }
                assert forall|k: int| !#[trigger] found_at(a, END@, k) by {
                    if found_at(a, END@, k) {
                        assert(s.subrange(k, k + 18) =~= a.subrange(k, k + 18));
                        assert(found_at(s, END@, k));
                    }
                }
                assert(u == a + block_form() + z);
                lemma_settled(a, z);
            } else {
                let a = lines_before(s);
                lemma_appended(s);
                lemma_settled(a, "\n"@);
            }
        },
    }
}

spec fn lines_before(s: Seq<char>) -> Seq<char> {
    if s.len() > 0 && s.last() == '\n' {
        s.push('\n')
    } else {
        s.push('\n').push('\n')
    }
}

proof fn lemma_appended(s: Seq<char>)
    ensures
        appended(s) == lines_before(s) + block_form() + "\n"@,
        unmarked(s) ==> unmarked(lines_before(s)),
{
    let a = lines_before(s);
    assert(a.take(s.len() as int) =~= s);
    if unmarked(s) {
        assert forall|k: int| !#[trigger] found_at(a, BEGIN@, k) by {
            if found_at(a, BEGIN@, k) {
                lemma_unmarked_lines(s, a, BEGIN@, k);
            }
        }
        assert forall|k: int| !#[trigger] found_at(a, END@, k) by {
            if found_at(a, END@, k) {
                lemma_unmarked_lines(s, a, END@, k);
            }
        }
    }
}

/// The block opens once: a file that had no begin marker, or one only, with a
/// block, has exactly one afterwards.
pub proof fn one_block_opens(existing: Option<Seq<char>>)
    requires
        existing matches Some(s) ==> unmarked(s) || has_block(s) && forall|j: int, k: int|
            #[trigger] found_at(s, BEGIN@, j) && #[trigger] found_at(s, BEGIN@, k) ==> j == k,
    ensures
        exists|at: int|
            first_at(applied(existing), BEGIN@, at) && forall|k: int|
                #[trigger] found_at(applied(existing), BEGIN@, k) ==> k == at,
{
    lemma_markers();
    reveal_strlit("\n");
    let u = applied(existing);
    a_second_application_changes_nothing(existing);
    let (a, z) = match existing {
        None => (Seq::<char>::empty(), "\n"@),
        Some(s) => if has_block(s) {
            let (start, end) = choose|start: int, end: int| #[trigger] block_at(s, start, end);
            (s.take(start), s.skip(end + END@.len()))
        } else {
            (lines_before(s), "\n"@)
        },
    };
    let p = a.len() as int;
    match existing {
        None => {
            assert(a + block_form() + z =~= u);
        },
        Some(s) => {
            if has_block(s) {
                let (start, end) = choose|start: int, end: int| #[trigger] block_at(s, start, end);
                let after = end + 18;
                assert(found_at(s, BEGIN@, start));
                assert forall|k: int| !#[trigger] found_at(a, BEGIN@, k) by {
                    if found_at(a, BEGIN@, k) {
                        assert(s.subrange(k, k + 20) =~= a.subrange(k, k + 20));
                        assert(found_at(s, BEGIN@, k));
                    }
                }
                assert forall|k: int| !#[trigger] found_at(z, BEGIN@, k) by {
                    if found_at(z, BEGIN@, k) {
                        assert(s.subrange(after + k, after + k + 20) =~= z.subrange(k, k + 20));
                        assert(found_at(s, BEGIN@, after + k));
                    }
                }
            } else {
                lemma_appended(s);
            }
        },
    }
    lemma_block_stands(a, z);
    assert forall|k: int| #[trigger] found_at(u, BEGIN@, k) implies k == p by {
        lemma_places(a, z, BEGIN@, k);
    }
    assert(first_at(u, BEGIN@, p));
}

/// Without a block, all that is in the file stays in it, before the new one.
pub proof fn a_block_is_added_behind(s: Seq<char>)
    requires
        !has_block(s),
    ensures
        applied(Some(s)).take(s.len() as int) == s,
        applied(Some(s)).skip(applied(Some(s)).len() - block_form().len() - 1) == block_form() + "\n"@,
{
    lemma_appended(s);
    reveal_strlit("\n");
    assert(applied(Some(s)).take(s.len() as int) =~= s);
    assert(applied(Some(s)).skip(lines_before(s).len() as int) =~= block_form() + "\n"@);
}

} // verus!
