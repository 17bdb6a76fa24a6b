//! What the replica answers to commands.
//!
//! Commands that need the host are forwarded; their answer is delivered when
//! the host answers.

use vstd::prelude::*;

use crate::client_rules::{
    active_task_in, full_rescan, my_task, needs_of, send_with, AnswerView, ClientView,
    PendingRequest, WorkView,
};
use crate::error::{
    detailed, network, plain, unsupported, usage, ErrorClass, ErrorView, Result, WeaveError,
};
use crate::ipc::{IpcCommand, ResolveSource};
use crate::model::{
    kind_of, Conflict, ConflictStatus, ConflictView, EntryView, FileEntry, FileKind, GitMode,
    GitPublication, Ingested, PeerInfo, PeerView, PublicationView, Role, ScopeView, SyncState,
    SyncView, Task, TaskScope, TaskStatus, TaskView, MAX_SYNCED_FILE,
};
use crate::path::{path_error, path_fault, to_uppercase, uppercase, RepoPath};
use crate::proto::{hash_of_rows, ClientMessageView};
use crate::scan::{RejectedPath, RejectedView};
use crate::store_client::{count_working, drafted};
use crate::text::{
    begins_with, chars_of, decimal, decimal_text, digit, equal_ignoring_case, find_char, has_prefix,
    is_digit, lemma_find_char, lemma_texts_push, lemma_views_push, lower_ascii, lower_ascii_text,
    number, opt_view, parse_number, position_from, same_ignoring_case, text_of, texts, trim,
    trim_text, views,
};
use crate::util::{
    hex_number, hex_number_text, parse_uuid, parsed_uuid, short_form, short_id, upper_hex, Uuid,
};

verus! {

// ---------------------------------------------------------------------------
// Task scopes
// ---------------------------------------------------------------------------

/// The position of the last `c`, or -1.
pub open spec fn last_char(s: Seq<char>, c: char) -> int
    decreases s.len(),
{
    if s.len() == 0 {
        -1
    } else if s.last() == c {
        s.len() - 1
    } else {
        last_char(s.drop_last(), c)
    }
}

/// The path of a scope argument, and its line range if it has one.
pub open spec fn scope_parts(item: Seq<char>) -> (Seq<char>, Option<Seq<char>>) {
    let at = last_char(item, ':');
    if at >= 0 {
        let r = item.skip(at + 1);
        if r.contains('-') && is_digit(r[0]) {
            (item.take(at), Some(r))
        } else {
            (item, None)
        }
    } else {
        (item, None)
    }
}

/// Backslashes read as slashes.
pub open spec fn slashed(s: Seq<char>) -> Seq<char> {
    s.map_values(
        |c: char|
            if c == '\\' {
                '/'
            } else {
                c
            },
    )
}

pub open spec fn line_number(s: Seq<char>) -> Option<u32> {
    match number(trim(s)) {
        Some(n) => if n <= u32::MAX {
            Some(n as u32)
        } else {
            None
        },
        None => None,
    }
}

/// The lines of a range, or why it is none.
pub open spec fn lines_of(item: Seq<char>, range: Seq<char>) -> core::result::Result<
    (u32, u32),
    ErrorView,
> {
    let at = find_char(range, '-');
    match line_number(range.take(at)) {
        None => Err(
            plain(ErrorClass::UsageError, "`"@ + item + "` has a non-numeric start line."@),
        ),
        Some(a) => match line_number(range.skip(at + 1)) {
            None => Err(
                plain(ErrorClass::UsageError, "`"@ + item + "` has a non-numeric end line."@),
            ),
            Some(b) => if a == 0 || b < a {
                Err(
                    plain(
                        ErrorClass::UsageError,
                        "`"@ + item + "` has an empty or inverted line range."@,
                    ),
                )
            } else {
                Ok((a, b))
            },
        },
    }
}

/// The scope a trimmed argument stands for.
pub open spec fn scope_of(item: Seq<char>) -> core::result::Result<ScopeView, ErrorView> {
    let (part, range) = scope_parts(item);
    let path = slashed(part);
    match path_fault(path) {
        Some(why) => Err(path_error(path, why)),
        None => match range {
            None => Ok(
                ScopeView {
                    path,
                    line_start: None,
                    line_end: None,
                    declared_against: None,
                    stale: false,
                },
            ),
            Some(r) => match lines_of(item, r) {
                Err(e) => Err(e),
                Ok((a, b)) => Ok(
                    ScopeView {
                        path,
                        line_start: Some(a),
                        line_end: Some(b),
                        declared_against: None,
                        stale: false,
                    },
                ),
            },
        },
    }
}

/// The scopes of a list of arguments; blank ones are left out, and the first
/// one that is none ends it.
pub open spec fn scopes_of(raw: Seq<Seq<char>>) -> core::result::Result<Seq<ScopeView>, ErrorView>
    decreases raw.len(),
{
    if raw.len() == 0 {
        Ok(Seq::empty())
    } else {
        match scopes_of(raw.drop_last()) {
            Err(e) => Err(e),
            Ok(before) => {
                let item = trim(raw.last());
                if item.len() == 0 {
                    Ok(before)
                } else {
                    match scope_of(item) {
                        Err(e) => Err(e),
                        Ok(scope) => Ok(before.push(scope)),
                    }
                }
            },
        }
    }
}

fn last_position(chars: &Vec<char>, c: char) -> (at: Option<usize>)
    ensures
        last_char(chars@, c) == match at {
            Some(i) => i as int,
            None => -1,
        },
        at matches Some(i) ==> i < chars@.len(),
{
    let mut i: usize = chars.len();
    proof {
        assert(chars@.take(i as int) =~= chars@);
    }
    while i > 0
        invariant
            i <= chars@.len(),
            last_char(chars@, c) == last_char(chars@.take(i as int), c),
        decreases i,
    {
        proof {
            assert(chars@.take(i as int).last() == chars@[i - 1]);
            assert(chars@.take(i as int).drop_last() =~= chars@.take(i - 1));
        }
        if chars[i - 1] == c {
            return Some(i - 1);
        }
        i = i - 1;
    }
    None
}

fn with_slashes(chars: &Vec<char>, to: usize) -> (s: String)
    requires
        to <= chars@.len(),
    ensures
        s@ == slashed(chars@.take(to as int)),
{
    let mut s = String::new();
    let ghost all = slashed(chars@.take(to as int));
    let mut i: usize = 0;
    proof {
        assert(s@ =~= all.take(0));
    }
    while i < to
        invariant
            to <= chars@.len(),
            all == slashed(chars@.take(to as int)),
            i <= to,
            s@ == all.take(i as int),
        decreases to - i,
    {
        let c = if chars[i] == '\\' {
            '/'
        } else {
            chars[i]
        };
        s.push(c);
        proof {
            assert(all.take(i + 1) =~= all.take(i as int).push(c));
        }
        i = i + 1;
    }
    proof {
        assert(all.take(i as int) =~= all);
    }
    s
}

fn quoted(item: &str, rest: &str) -> (s: String)
    ensures
        s@ == "`"@ + item@ + rest@,
{
    let mut s = "`".to_owned();
    s.push_str(item);
    s.push_str(rest);
    s
}

fn parse_line(s: &str) -> (n: Option<u32>)
    ensures
        n == line_number(s@),
{
    match parse_number(trim_text(s).as_str(), 4294967295) {
        Some(v) => Some(v as u32),
        None => None,
    }
}

fn parse_lines(item: &str, range: &str) -> (r: Result<(u32, u32)>)
    requires
        range@.contains('-'),
    ensures
        match r {
            Ok(lines) => lines_of(item@, range@) == Ok::<(u32, u32), ErrorView>(lines),
            Err(e) => lines_of(item@, range@) == Err::<(u32, u32), ErrorView>(e@),
        },
{
    let chars = chars_of(range);
    let at = position_from(&chars, '-', 0);
    proof {
        assert(range@.skip(0) =~= range@);
        let k = choose|k: int| 0 <= k < range@.len() && range@[k] == '-';
        assert(chars@[k] == '-');
        assert(at <= k);
    }
    assert(at < chars.len());
    let first = text_of(&chars, 0, at);
    let second = text_of(&chars, at + 1, chars.len());
    proof {
        assert(first@ =~= range@.take(at as int));
        assert(second@ =~= range@.skip(at + 1));
    }
    let a: u32 = match parse_line(first.as_str()) {
        Some(n) => n,
        None => {
            return Err(usage(quoted(item, "` has a non-numeric start line.").as_str()));
        },
    };
    let b: u32 = match parse_line(second.as_str()) {
        Some(n) => n,
        None => {
            return Err(usage(quoted(item, "` has a non-numeric end line.").as_str()));
        },
    };
    if a == 0 || b < a {
        return Err(usage(quoted(item, "` has an empty or inverted line range.").as_str()));
    }
    Ok((a, b))
}

/// Take an argument apart: the path, and the range of lines behind it.
fn split_scope(item: &str) -> (r: (String, Option<String>))
    ensures
        r.0@ == slashed(scope_parts(item@).0),
        opt_view(r.1) == scope_parts(item@).1,
        r.1 matches Some(range) ==> range@.contains('-'),
{
    let chars = chars_of(item);
    proof {
        assert(chars@ == item@);
        assert(item@.take(item@.len() as int) =~= item@);
    }
    if let Some(at) = last_position(&chars, ':') {
        let range = text_of(&chars, at + 1, chars.len());
        proof {
            assert(range@ =~= item@.skip(at + 1));
            lemma_find_char(range@, '-');
        }
        let dash = position_from(&chars, '-', at + 1);
        if dash < chars.len() && digit(chars[at + 1]) {
            proof {
                assert(range@[dash - (at + 1)] == '-');
                assert(range@[0] == item@[at + 1]);
            }
            return (with_slashes(&chars, at), Some(range));
        }
        proof {
            if range@.contains('-') {
                let k = choose|k: int| 0 <= k < range@.len() && range@[k] == '-';
                assert(item@[at + 1 + k] == '-');
            }
            if range@.len() > 0 {
                assert(range@[0] == item@[at + 1]);
            }
        }
    }
    (with_slashes(&chars, chars.len()), None)
}

fn parse_scope(item: &str) -> (r: Result<TaskScope>)
    ensures
        match r {
            Ok(scope) => scope_of(item@) == Ok::<ScopeView, ErrorView>(scope@),
            Err(e) => scope_of(item@) == Err::<ScopeView, ErrorView>(e@),
        },
{
    let (text, range) = split_scope(item);
    let path = match RepoPath::new(text.as_str()) {
        Ok(p) => p,
        Err(e) => {
            return Err(e);
        },
    };
    match range {
        None => Ok(
            TaskScope {
                path,
                line_start: None,
                line_end: None,
                declared_against: None,
                stale: false,
            },
        ),
        Some(r) => match parse_lines(item, r.as_str()) {
            Err(e) => Err(e),
            Ok((a, b)) => Ok(
                TaskScope {
                    path,
                    line_start: Some(a),
                    line_end: Some(b),
                    declared_against: None,
                    stale: false,
                },
            ),
        },
    }
}

/// Parse `path` or `path:START-END` scope arguments.
pub fn parse_scopes(raw: &Vec<String>) -> (r: Result<Vec<TaskScope>>)
    ensures
        match r {
            Ok(list) => scopes_of(texts(raw@)) == Ok::<Seq<ScopeView>, ErrorView>(views(list@)),
            Err(e) => scopes_of(texts(raw@)) == Err::<Seq<ScopeView>, ErrorView>(e@),
        },
{
    let mut out: Vec<TaskScope> = Vec::new();
    let ghost all = texts(raw@);
    let mut i: usize = 0;
    proof {
        assert(views(out@) =~= Seq::<ScopeView>::empty());
        assert(all.take(0) =~= Seq::<Seq<char>>::empty());
    }
    while i < raw.len()
        invariant
            all == texts(raw@),
            i <= raw@.len(),
            scopes_of(all.take(i as int)) == Ok::<Seq<ScopeView>, ErrorView>(views(out@)),
        decreases raw@.len() - i,
    {
        let ghost before = out@;
        proof {
            assert(all.take(i + 1).drop_last() =~= all.take(i as int));
            assert(all.take(i + 1).last() == raw@[i as int]@);
        }
        let item = trim_text(raw[i].as_str());
        if !item.as_str().is_empty() {
            match parse_scope(item.as_str()) {
                Ok(scope) => {
                    out.push(scope);
                    proof {
                        lemma_views_push(before, scope);
                    }
                },
                Err(e) => {
                    proof {
                        lemma_first_fault(all, i + 1);
                    }
                    return Err(e);
                },
            }
        }
        i = i + 1;
    }
    proof {
        assert(all.take(i as int) =~= all);
    }
    Ok(out)
}

/// Nothing after the first argument that is no scope matters.
proof fn lemma_first_fault(raw: Seq<Seq<char>>, i: int)
    requires
        0 <= i <= raw.len(),
        scopes_of(raw.take(i)) is Err,
    ensures
        scopes_of(raw) == scopes_of(raw.take(i)),
    decreases raw.len(),
{
    if i == raw.len() {
        assert(raw.take(i) =~= raw);
    } else {
        assert(raw.drop_last().take(i) =~= raw.take(i));
        lemma_first_fault(raw.drop_last(), i);
    }
}

// ---------------------------------------------------------------------------
// Finding things by their identifier
// ---------------------------------------------------------------------------

pub open spec fn is_mark(c: char) -> bool {
    c == 'C' || c == 'T' || c == 'P' || c == '-'
}

/// A short identifier without its leading marks.
pub open spec fn without_marks(s: Seq<char>) -> Seq<char>
    decreases s.len(),
{
    if s.len() > 0 && is_mark(s[0]) {
        without_marks(s.drop_first())
    } else {
        s
    }
}

/// An identifier in upper-case hexadecimal.
pub open spec fn plain_form(id: Uuid) -> Seq<char> {
    hex_number(id as nat, 32).map_values(|c: char| upper_hex(c))
}

/// Whether what a person wrote names an item: its short identifier with or
/// without the mark, or the beginning of the full one.
pub open spec fn names(letter: char, id: Uuid, needle: Seq<char>) -> bool {
    let upper = uppercase(needle);
    ||| same_ignoring_case(short_form(letter, id), needle)
    ||| same_ignoring_case(without_marks(short_form(letter, id)), upper)
    ||| begins_with(plain_form(id), upper)
}

/// How many items a needle names.
pub open spec fn count_named(ids: Seq<Uuid>, letter: char, needle: Seq<char>) -> nat
    decreases ids.len(),
{
    if ids.len() == 0 {
        0
    } else if names(letter, ids.last(), needle) {
        count_named(ids.drop_last(), letter, needle) + 1
    } else {
        count_named(ids.drop_last(), letter, needle)
    }
}

/// The first item a needle names.
pub open spec fn first_named(ids: Seq<Uuid>, letter: char, needle: Seq<char>) -> int
    decreases ids.len(),
{
    if ids.len() == 0 {
        0
    } else if names(letter, ids[0], needle) {
        0
    } else {
        1 + first_named(ids.drop_first(), letter, needle)
    }
}

/// The first item with an identifier.
pub open spec fn id_position(ids: Seq<Uuid>, id: Uuid) -> int
    decreases ids.len(),
{
    if ids.len() == 0 {
        0
    } else if ids[0] == id {
        0
    } else {
        1 + id_position(ids.drop_first(), id)
    }
}

pub open spec fn nothing_named(needle: Seq<char>, label: Seq<char>) -> ErrorView {
    detailed(
        ErrorClass::UsageError,
        "No Weave "@ + label + " matches `"@ + needle + "`."@,
        lower_ascii("Run `weave "@ + label + " list` to see the current identifiers."@),
    )
}

/// The position of the one item a needle names, or why there is none.
pub open spec fn find_rule(ids: Seq<Uuid>, letter: char, raw: Seq<char>, label: Seq<char>) -> core::result::Result<
    int,
    ErrorView,
> {
    let needle = trim(raw);
    if parsed_uuid(needle) is Some && id_position(ids, parsed_uuid(needle)->0) < ids.len() {
        Ok(id_position(ids, parsed_uuid(needle)->0))
    } else {
        let n = count_named(ids, letter, needle);
        if n == 1 {
            Ok(first_named(ids, letter, needle))
        } else if n == 0 {
            Err(nothing_named(needle, label))
        } else {
            Err(
                plain(
                    ErrorClass::UsageError,
                    "`"@ + needle + "` matches "@ + decimal(n) + " "@ + label
                        + "s; use the full identifier."@,
                ),
            )
        }
    }
}

fn strip_marks(s: &str) -> (t: String)
    ensures
        t@ == without_marks(s@),
{
    let chars = chars_of(s);
    let mut i: usize = 0;
    proof {
        assert(s@.skip(0) =~= s@);
    }
    while i < chars.len() && (chars[i] == 'C' || chars[i] == 'T' || chars[i] == 'P' || chars[i]
        == '-')
        invariant
            chars@ == s@,
            i <= chars@.len(),
            without_marks(s@) == without_marks(s@.skip(i as int)),
        decreases chars@.len() - i,
    {
        proof {
            assert(s@.skip(i as int)[0] == chars@[i as int]);
            assert(s@.skip(i as int).drop_first() =~= s@.skip(i + 1));
        }
        i = i + 1;
    }
    let t = text_of(&chars, i, chars.len());
    proof {
        assert(t@ =~= s@.skip(i as int));
        if i < chars.len() {
            assert(s@.skip(i as int)[0] == chars@[i as int]);
        }
    }
    t
}

fn is_named(letter: char, id: Uuid, needle: &str, upper: &str) -> (yes: bool)
    requires
        upper@ == uppercase(needle@),
    ensures
        yes == names(letter, id, needle@),
{
    let short = short_id(letter, id);
    if equal_ignoring_case(short.as_str(), needle) {
        return true;
    }
    if equal_ignoring_case(strip_marks(short.as_str()).as_str(), upper) {
        return true;
    }
    let full = crate::util::upper_text(hex_number_text(id, 32).as_str());
    has_prefix(full.as_str(), upper)
}

/// Find the one item a person meant.
pub fn find_by_id(ids: &Vec<Uuid>, letter: char, raw: &str, label: &str) -> (r: Result<usize>)
    ensures
        match r {
            Ok(at) => at < ids@.len() && find_rule(ids@, letter, raw@, label@) == Ok::<
                int,
                ErrorView,
            >(at as int),
            Err(e) => find_rule(ids@, letter, raw@, label@) == Err::<int, ErrorView>(e@),
        },
{
    let needle = trim_text(raw);
    match parse_uuid(needle.as_str()) {
        Some(id) => {
            let mut i: usize = 0;
            proof {
                assert(ids@.skip(0) =~= ids@);
            }
            while i < ids.len()
                invariant
                    needle@ == trim(raw@),
                    parsed_uuid(needle@) == Some(id),
                    i <= ids@.len(),
                    id_position(ids@, id) == i + id_position(ids@.skip(i as int), id),
                decreases ids@.len() - i,
            {
                proof {
                    assert(ids@.skip(i as int)[0] == ids@[i as int]);
                    assert(ids@.skip(i as int).drop_first() =~= ids@.skip(i + 1));
                }
                if ids[i] == id {
                    return Ok(i);
                }
                i = i + 1;
            }
        },
        None => {},
    }
    let upper = to_uppercase(needle.as_str());
    let mut n: usize = 0;
    let mut first: usize = 0;
    let mut i: usize = 0;
    proof {
        assert(ids@.skip(0) =~= ids@);
        assert(count_named(ids@.take(0), letter, needle@) == 0);
    }
    while i < ids.len()
        invariant
            upper@ == uppercase(needle@),
            i <= ids@.len(),
            n <= i,
            n == count_named(ids@.take(i as int), letter, needle@),
            n == 0 ==> first_named(ids@, letter, needle@) == i + first_named(
                ids@.skip(i as int),
                letter,
                needle@,
            ),
            n > 0 ==> first < i && first_named(ids@, letter, needle@) == first,
        decreases ids@.len() - i,
    {
        proof {
            assert(ids@.take(i + 1).drop_last() =~= ids@.take(i as int));
            assert(ids@.take(i + 1).last() == ids@[i as int]);
            assert(ids@.skip(i as int)[0] == ids@[i as int]);
            assert(ids@.skip(i as int).drop_first() =~= ids@.skip(i + 1));
        }
        if is_named(letter, ids[i], needle.as_str(), upper.as_str()) {
            if n == 0 {
                first = i;
            }
            n = n + 1;
        }
        i = i + 1;
    }
    proof {
        assert(ids@.take(i as int) =~= ids@);
    }
    if n == 1 {
        return Ok(first);
    }
    if n == 0 {
        let mut m = "No Weave ".to_owned();
        m.push_str(label);
        m.push_str(" matches `");
        m.push_str(needle.as_str());
        m.push_str("`.");
        let mut d = "Run `weave ".to_owned();
        d.push_str(label);
        d.push_str(" list` to see the current identifiers.");
        return Err(usage(m.as_str()).with_detail(lower_ascii_text(d.as_str())));
    }
    let mut m = "`".to_owned();
    m.push_str(needle.as_str());
    m.push_str("` matches ");
    m.push_str(decimal_text(n as u64).as_str());
    m.push_str(" ");
    m.push_str(label);
    m.push_str("s; use the full identifier.");
    Err(usage(m.as_str()))
}

// ---------------------------------------------------------------------------
// Tasks
// ---------------------------------------------------------------------------

/// Another task with scopes that overlap.
#[derive(Debug)]
pub struct Overlap {
    pub task_id: Uuid,
    pub short_id: String,
    pub description: String,
    pub actor_id: Uuid,
    pub scopes: Vec<String>,
}

pub struct OverlapView {
    pub task_id: Uuid,
    pub short_id: Seq<char>,
    pub description: Seq<char>,
    pub actor_id: Uuid,
    pub scopes: Seq<Seq<char>>,
}

impl View for Overlap {
    type V = OverlapView;

    open spec fn view(&self) -> OverlapView {
        OverlapView {
            task_id: self.task_id,
            short_id: self.short_id@,
            description: self.description@,
            actor_id: self.actor_id,
            scopes: texts(self.scopes@),
        }
    }
}

pub open spec fn touches(mine: Seq<ScopeView>, s: ScopeView) -> bool {
    exists|i: int| 0 <= i < mine.len() && (#[trigger] mine[i]).overlapping(s)
}

/// The scopes of another task that overlap mine.
pub open spec fn touching(mine: Seq<ScopeView>, other: Seq<ScopeView>) -> Seq<Seq<char>>
    decreases other.len(),
{
    if other.len() == 0 {
        Seq::empty()
    } else if touches(mine, other.last()) {
        touching(mine, other.drop_last()).push(other.last().form())
    } else {
        touching(mine, other.drop_last())
    }
}

/// The active tasks that overlap one.
pub open spec fn overlaps_of(tasks: Seq<TaskView>, task: TaskView) -> Seq<OverlapView>
    decreases tasks.len(),
{
    if tasks.len() == 0 {
        Seq::empty()
    } else {
        let before = overlaps_of(tasks.drop_last(), task);
        let other = tasks.last();
        let scopes = touching(task.scopes, other.scopes);
        if other.id == task.id || other.status != TaskStatus::Active || scopes.len() == 0 {
            before
        } else {
            before.push(
                OverlapView {
                    task_id: other.id,
                    short_id: short_form('T', other.id),
                    description: other.description,
                    actor_id: other.actor_id,
                    scopes,
                },
            )
        }
    }
}

fn touched_by(mine: &Vec<TaskScope>, s: &TaskScope) -> (yes: bool)
    ensures
        yes == touches(views(mine@), s@),
{
    let mut i: usize = 0;
    while i < mine.len()
        invariant
            i <= mine@.len(),
            forall|k: int| 0 <= k < i ==> !(#[trigger] views(mine@)[k]).overlapping(s@),
        decreases mine@.len() - i,
    {
        if mine[i].overlaps(s) {
            proof {
                assert(views(mine@)[i as int].overlapping(s@));
            }
            return true;
        }
        i = i + 1;
    }
    false
}

fn touching_scopes(mine: &Vec<TaskScope>, other: &Vec<TaskScope>) -> (list: Vec<String>)
    ensures
        texts(list@) == touching(views(mine@), views(other@)),
{
    let mut list: Vec<String> = Vec::new();
    let ghost all = views(other@);
    let mut i: usize = 0;
    proof {
        assert(texts(list@) =~= touching(views(mine@), all.take(0)));
    }
    while i < other.len()
        invariant
            all == views(other@),
            i <= other@.len(),
            texts(list@) == touching(views(mine@), all.take(i as int)),
        decreases other@.len() - i,
    {
        let ghost before = list@;
        proof {
            assert(all.take(i + 1).drop_last() =~= all.take(i as int));
            assert(all.take(i + 1).last() == other@[i as int]@);
        }
        if touched_by(mine, &other[i]) {
            let s = other[i].display();
            list.push(s);
            proof {
                lemma_texts_push(before, s);
            }
        }
        i = i + 1;
    }
    proof {
        assert(all.take(i as int) =~= all);
    }
    list
}

/// The active tasks that overlap one.
pub fn overlapping_tasks(tasks: &Vec<Task>, task: &Task) -> (list: Vec<Overlap>)
    ensures
        views(list@) == overlaps_of(views(tasks@), task@),
{
    let mut list: Vec<Overlap> = Vec::new();
    let ghost all = views(tasks@);
    let mut i: usize = 0;
    proof {
        assert(views(list@) =~= overlaps_of(all.take(0), task@));
    }
    while i < tasks.len()
        invariant
            all == views(tasks@),
            i <= tasks@.len(),
            views(list@) == overlaps_of(all.take(i as int), task@),
        decreases tasks@.len() - i,
    {
        let ghost before = list@;
        proof {
            assert(all.take(i + 1).drop_last() =~= all.take(i as int));
            assert(all.take(i + 1).last() == tasks@[i as int]@);
        }
        let other = &tasks[i];
        let scopes = touching_scopes(&task.scopes, &other.scopes);
        proof {
            assert(texts(scopes@).len() == scopes@.len());
        }
        if other.id != task.id && other.status == TaskStatus::Active && scopes.len() > 0 {
            let o = Overlap {
                task_id: other.id,
                short_id: other.short_id(),
                description: other.description.clone(),
                actor_id: other.actor_id,
                scopes,
            };
            list.push(o);
            proof {
                lemma_views_push(before, o);
            }
        }
        i = i + 1;
    }
    proof {
        assert(all.take(i as int) =~= all);
    }
    list
}

pub open spec fn count_active(tasks: Seq<TaskView>) -> nat
    decreases tasks.len(),
{
    if tasks.len() == 0 {
        0
    } else if tasks.last().status == TaskStatus::Active {
        count_active(tasks.drop_last()) + 1
    } else {
        count_active(tasks.drop_last())
    }
}

pub fn active_tasks(tasks: &Vec<Task>) -> (n: usize)
    ensures
        n == count_active(views(tasks@)),
{
    let mut n: usize = 0;
    let ghost all = views(tasks@);
    let mut i: usize = 0;
    proof {
        assert(count_active(all.take(0)) == 0);
    }
    while i < tasks.len()
        invariant
            all == views(tasks@),
            i <= tasks@.len(),
            n <= i,
            n == count_active(all.take(i as int)),
        decreases tasks@.len() - i,
    {
        proof {
            assert(all.take(i + 1).drop_last() =~= all.take(i as int));
            assert(all.take(i + 1).last() == tasks@[i as int]@);
        }
        if tasks[i].status == TaskStatus::Active {
            n = n + 1;
        }
        i = i + 1;
    }
    proof {
        assert(all.take(i as int) =~= all);
    }
    n
}

pub open spec fn count_open(list: Seq<ConflictView>) -> nat
    decreases list.len(),
{
    if list.len() == 0 {
        0
    } else if list.last().status == ConflictStatus::Open {
        count_open(list.drop_last()) + 1
    } else {
        count_open(list.drop_last())
    }
}

pub fn open_conflicts(list: &Vec<Conflict>) -> (n: usize)
    ensures
        n == count_open(views(list@)),
{
    let mut n: usize = 0;
    let ghost all = views(list@);
    let mut i: usize = 0;
    proof {
        assert(count_open(all.take(0)) == 0);
    }
    while i < list.len()
        invariant
            all == views(list@),
            i <= list@.len(),
            n <= i,
            n == count_open(all.take(i as int)),
        decreases list@.len() - i,
    {
        proof {
            assert(all.take(i + 1).drop_last() =~= all.take(i as int));
            assert(all.take(i + 1).last() == list@[i as int]@);
        }
        if list[i].status == ConflictStatus::Open {
            n = n + 1;
        }
        i = i + 1;
    }
    proof {
        assert(all.take(i as int) =~= all);
    }
    n
}

// ---------------------------------------------------------------------------
// Status
// ---------------------------------------------------------------------------

/// Everything `weave status` tells.
#[derive(Debug)]
pub struct Status {
    pub role: Role,
    pub actor_id: Uuid,
    pub display_name: String,
    pub session_id: Uuid,
    pub host: String,
    pub branch: String,
    pub base_commit: String,
    pub publication: Option<GitPublication>,
    pub published_revision: u64,
    pub live_revision: u64,
    pub revisions_ahead: u64,
    pub state: String,
    pub connected: bool,
    pub connection_note: String,
    pub sync_state: SyncState,
    pub participants: Vec<PeerInfo>,
    pub active_task: Option<Task>,
    pub tasks_active: usize,
    pub outbox_pending: usize,
    pub conflicts_open: usize,
    pub conflict_drafts: Vec<String>,
    pub rejected_paths: Vec<RejectedPath>,
    pub notices: Vec<String>,
    pub file_count: usize,
}

pub struct StatusView {
    pub role: Role,
    pub actor_id: Uuid,
    pub display_name: Seq<char>,
    pub session_id: Uuid,
    pub host: Seq<char>,
    pub branch: Seq<char>,
    pub base_commit: Seq<char>,
    pub publication: Option<PublicationView>,
    pub published_revision: u64,
    pub live_revision: u64,
    pub revisions_ahead: u64,
    pub state: Seq<char>,
    pub connected: bool,
    pub connection_note: Seq<char>,
    pub sync_state: SyncView,
    pub participants: Seq<PeerView>,
    pub active_task: Option<TaskView>,
    pub tasks_active: nat,
    pub outbox_pending: nat,
    pub conflicts_open: nat,
    pub conflict_drafts: Seq<Seq<char>>,
    pub rejected_paths: Seq<RejectedView>,
    pub notices: Seq<Seq<char>>,
    pub file_count: nat,
}

impl View for Status {
    type V = StatusView;

    open spec fn view(&self) -> StatusView {
        StatusView {
            role: self.role,
            actor_id: self.actor_id,
            display_name: self.display_name@,
            session_id: self.session_id,
            host: self.host@,
            branch: self.branch@,
            base_commit: self.base_commit@,
            publication: opt_view(self.publication),
            published_revision: self.published_revision,
            live_revision: self.live_revision,
            revisions_ahead: self.revisions_ahead,
            state: self.state@,
            connected: self.connected,
            connection_note: self.connection_note@,
            sync_state: self.sync_state@,
            participants: views(self.participants@),
            active_task: opt_view(self.active_task),
            tasks_active: self.tasks_active as nat,
            outbox_pending: self.outbox_pending as nat,
            conflicts_open: self.conflicts_open as nat,
            conflict_drafts: texts(self.conflict_drafts@),
            rejected_paths: views(self.rejected_paths@),
            notices: texts(self.notices@),
            file_count: self.file_count as nat,
        }
    }
}

pub open spec fn tasks_of(v: ClientView) -> Seq<TaskView> {
    match v.control {
        Some(c) => c.tasks,
        None => Seq::empty(),
    }
}

pub open spec fn conflicts_of(v: ClientView) -> Seq<ConflictView> {
    match v.control {
        Some(c) => c.conflicts,
        None => Seq::empty(),
    }
}

/// A paused or degraded replica says so; otherwise the host's state shows.
#[verifier::opaque]
pub open spec fn status_of(v: ClientView) -> StatusView {
    let publication = match v.control {
        Some(c) => c.publication,
        None => None,
    };
    let published = match publication {
        Some(p) => p.descriptor.target_revision,
        None => 0,
    };
    let live = v.replica.last_applied_revision;
    StatusView {
        role: v.role,
        actor_id: v.actor_id,
        display_name: v.display_name,
        session_id: v.session.session_id,
        host: v.session.host_display_name,
        branch: v.branch,
        base_commit: v.session.base_commit,
        publication,
        published_revision: published,
        live_revision: live,
        revisions_ahead: if live > published {
            (live - published) as u64
        } else {
            0
        },
        state: hash_of_rows(v.replica.manifest()),
        connected: v.connected,
        connection_note: v.connection_note,
        sync_state: if v.paused() {
            v.local_state
        } else {
            v.host_state
        },
        participants: v.peers,
        active_task: active_task_in(tasks_of(v), v.actor_id),
        tasks_active: count_active(tasks_of(v)),
        outbox_pending: count_working(v.replica.states),
        conflicts_open: count_open(conflicts_of(v)),
        conflict_drafts: drafted(v.replica.states),
        rejected_paths: v.rejected,
        notices: v.notices,
        file_count: v.replica.manifest().len(),
    }
}

// ---------------------------------------------------------------------------
// Conflicts
// ---------------------------------------------------------------------------

/// The largest text a candidate is shown of.
pub const MAX_PREVIEW: u64 = 262144;

/// Everything `weave conflict show` tells, apart from the candidates' content.
#[derive(Debug)]
pub struct ConflictDetail {
    pub conflict: Conflict,
    pub short_id: String,
    pub kind_description: String,
    pub incoming_actor: Option<String>,
    pub incoming_task: Option<Task>,
    pub current_canonical: Option<FileEntry>,
    pub in_conflict_draft: bool,
}

pub struct DetailView {
    pub conflict: ConflictView,
    pub short_id: Seq<char>,
    pub kind_description: Seq<char>,
    pub incoming_actor: Option<Seq<char>>,
    pub incoming_task: Option<TaskView>,
    pub current_canonical: Option<EntryView>,
    pub in_conflict_draft: bool,
}

impl View for ConflictDetail {
    type V = DetailView;

    open spec fn view(&self) -> DetailView {
        DetailView {
            conflict: self.conflict@,
            short_id: self.short_id@,
            kind_description: self.kind_description@,
            incoming_actor: opt_view(self.incoming_actor),
            incoming_task: opt_view(self.incoming_task),
            current_canonical: crate::model::entry_view(self.current_canonical),
            in_conflict_draft: self.in_conflict_draft,
        }
    }
}

/// The name of a participant, when it is known.
pub open spec fn peer_name(peers: Seq<PeerView>, actor_id: Uuid) -> Option<Seq<char>>
    decreases peers.len(),
{
    if peers.len() == 0 {
        None
    } else if peers[0].actor_id == actor_id {
        Some(peers[0].display_name)
    } else {
        peer_name(peers.drop_first(), actor_id)
    }
}

pub fn find_peer(peers: &Vec<PeerInfo>, actor_id: Uuid) -> (n: Option<String>)
    ensures
        opt_view(n) == peer_name(views(peers@), actor_id),
{
    let ghost all = views(peers@);
    let mut i: usize = 0;
    proof {
        assert(all.skip(0) =~= all);
    }
    while i < peers.len()
        invariant
            all == views(peers@),
            i <= peers@.len(),
            peer_name(all, actor_id) == peer_name(all.skip(i as int), actor_id),
        decreases peers@.len() - i,
    {
        proof {
            assert(all.skip(i as int)[0] == peers@[i as int]@);
            assert(all.skip(i as int).drop_first() =~= all.skip(i + 1));
        }
        if peers[i].actor_id == actor_id {
            return Some(peers[i].display_name.clone());
        }
        i = i + 1;
    }
    None
}

#[verifier::opaque]
pub open spec fn detail_of(v: ClientView, c: ConflictView) -> DetailView {
    DetailView {
        conflict: c,
        short_id: short_form('C', c.id),
        kind_description: c.kind.description(),
        incoming_actor: peer_name(v.peers, c.incoming_actor_id),
        incoming_task: match c.incoming_task_id {
            Some(id) => crate::store_host::found::<Task>(tasks_of(v), id),
            None => None,
        },
        current_canonical: v.state(c.path).confirmed,
        in_conflict_draft: v.state(c.path).conflict_draft is Some,
    }
}

/// The last component of a path.
pub open spec fn base_name(path: Seq<char>) -> Seq<char> {
    path.skip(last_char(path, '/') + 1)
}

/// The file a candidate of a conflict is written to.
pub fn candidate_name(label: &str, path: &RepoPath) -> (s: String)
    ensures
        s@ == label@ + "-"@ + base_name(path@),
{
    let chars = chars_of(path.as_str());
    let from: usize = match last_position(&chars, '/') {
        Some(at) => at + 1,
        None => 0,
    };
    let name = text_of(&chars, from, chars.len());
    proof {
        assert(name@ =~= base_name(path@));
    }
    let mut s = label.to_owned();
    s.push_str("-");
    s.push_str(name.as_str());
    s
}

/// Whether a candidate's content is shown along with it.
pub fn is_previewable(e: &FileEntry) -> (yes: bool)
    ensures
        yes == (e@.file_kind == FileKind::Text && e@.size <= MAX_PREVIEW),
{
    e.file_kind == FileKind::Text && e.size <= MAX_PREVIEW
}

pub open spec fn not_available() -> ErrorView {
    detailed(
        ErrorClass::UsageError,
        "That candidate's content is not available on this machine."@,
        "Run `weave conflict show <id>` to write the available candidates to .git/weave/conflicts, edit the working file, then resolve from the working tree."@,
    )
}

/// What a resolution resolves to.
pub enum Chosen {
    Entry(Option<EntryView>),
    /// The working file has to be read.
    WorkingTree,
    /// A file has to be taken in.
    File(Seq<char>),
    Fault(ErrorView),
}

pub open spec fn require_blob(v: ClientView, e: Option<EntryView>) -> Chosen {
    match e {
        Some(x) => if v.holds(x.blob_hash) {
            Chosen::Entry(e)
        } else {
            Chosen::Fault(not_available())
        },
        None => Chosen::Entry(e),
    }
}

/// What a resolution of a conflict resolves to.
pub open spec fn resolution_entry(
    v: ClientView,
    c: ConflictView,
    source: ResolveSource,
    file: Option<Seq<char>>,
) -> Chosen {
    match source {
        ResolveSource::Delete => Chosen::Entry(None),
        ResolveSource::Canonical => Chosen::Entry(v.state(c.path).confirmed),
        ResolveSource::Incoming => require_blob(v, c.incoming_entry),
        ResolveSource::LocalCandidate => require_blob(
            v,
            match c.latest_local_candidate {
                Some(e) => Some(e),
                None => c.incoming_entry,
            },
        ),
        ResolveSource::Supplied => match file {
            Some(f) => Chosen::File(f),
            None => Chosen::Fault(
                plain(ErrorClass::UsageError, "No resolved content was supplied."@),
            ),
        },
        ResolveSource::WorkingTree => Chosen::WorkingTree,
    }
}

/// The entry of a supplied resolution, or why there is none.
pub open spec fn supplied_entry(c: ConflictView, file: Seq<char>, ingested: Option<Ingested>) -> core::result::Result<
    EntryView,
    ErrorView,
> {
    match ingested {
        None => Err(plain(ErrorClass::UsageError, "No such file: "@ + file)),
        Some(i) => if i.size > MAX_SYNCED_FILE {
            Err(
                plain(
                    ErrorClass::UnsupportedError,
                    "The supplied resolution is above the Weave file size limit."@,
                ),
            )
        } else {
            Ok(
                EntryView {
                    blob_hash: i.hash@,
                    size: i.size,
                    git_mode: match c.canonical_entry {
                        Some(e) => e.git_mode,
                        None => GitMode::Regular,
                    },
                    file_kind: kind_of(i.prefix@),
                },
            )
        },
    }
}

pub fn take_supplied(c: &Conflict, file: &str, ingested: &Option<Ingested>) -> (r: Result<FileEntry>)
    ensures
        match r {
            Ok(e) => supplied_entry(c@, file@, *ingested) == Ok::<EntryView, ErrorView>(e@),
            Err(e) => supplied_entry(c@, file@, *ingested) == Err::<EntryView, ErrorView>(e@),
        },
{
    match ingested {
        None => {
            let mut m = "No such file: ".to_owned();
            m.push_str(file);
            Err(usage(m.as_str()))
        },
        Some(i) => {
            if i.size > MAX_SYNCED_FILE {
                return Err(
                    unsupported("The supplied resolution is above the Weave file size limit."),
                );
            }
            let mode = match &c.canonical_entry {
                Some(e) => e.git_mode,
                None => GitMode::Regular,
            };
            Ok(FileEntry::from_ingested(i, mode))
        },
    }
}

// ---------------------------------------------------------------------------
// Commands
// ---------------------------------------------------------------------------

pub open spec fn not_connected() -> ErrorView {
    detailed(
        ErrorClass::NetworkError,
        "Not connected to the Weave host."@,
        "Local editing continues and local changes are queued. Retry when the session reconnects."@,
    )
}

pub fn not_connected_error() -> (e: WeaveError)
    ensures
        e@ == not_connected(),
{
    network("Not connected to the Weave host.").with_detail(
        "Local editing continues and local changes are queued. Retry when the session reconnects.".to_owned(),
    )
}

/// A command forwarded to the host: its answer will come.
pub open spec fn forward(v: ClientView, call: u64, request_id: Uuid, m: ClientMessageView) -> ClientView {
    ClientView {
        requests: v.requests.push(PendingRequest { request_id, call }),
        ..v
    }.send(m)
}

pub open spec fn refuse(v: ClientView, call: u64, e: ErrorView) -> ClientView {
    v.answer(call, AnswerView::Failed(e))
}

pub open spec fn task_ids(tasks: Seq<TaskView>) -> Seq<Uuid> {
    tasks.map_values(|t: TaskView| t.id)
}

pub open spec fn conflict_ids(list: Seq<ConflictView>) -> Seq<Uuid> {
    list.map_values(|c: ConflictView| c.id)
}

pub open spec fn find_task(v: ClientView, needle: Seq<char>) -> core::result::Result<
    TaskView,
    ErrorView,
> {
    match find_rule(task_ids(tasks_of(v)), 'T', needle, "Task"@) {
        Ok(at) => Ok(tasks_of(v)[at]),
        Err(e) => Err(e),
    }
}

pub open spec fn find_conflict(v: ClientView, needle: Seq<char>) -> core::result::Result<
    ConflictView,
    ErrorView,
> {
    match find_rule(conflict_ids(conflicts_of(v)), 'C', needle, "conflict"@) {
        Ok(at) => Ok(conflicts_of(v)[at]),
        Err(e) => Err(e),
    }
}

/// Send a resolution, behind its content.
#[verifier::opaque]
pub open spec fn resolve_with(
    v: ClientView,
    call: u64,
    c: ConflictView,
    entry: Option<EntryView>,
    request_id: Uuid,
    operation_id: Uuid,
) -> ClientView {
    send_with(
        ClientView { requests: v.requests.push(PendingRequest { request_id, call }), ..v },
        request_id,
        needs_of(entry),
        ClientMessageView::ResolveConflict {
            request_id,
            conflict_id: c.id,
            operation_id,
            expected_canonical: v.state(c.path).confirmed,
            resolved_entry: entry,
        },
    )
}

/// A command that needs the host, when the host cannot be reached.
pub open spec fn offline(v: ClientView, call: u64) -> ClientView {
    refuse(v, call, not_connected())
}

#[verifier::opaque]
pub open spec fn show_task(v: ClientView, call: u64, id: Seq<char>) -> ClientView {
    match find_task(v, id) {
        Err(e) => refuse(v, call, e),
        Ok(task) => v.answer(
            call,
            AnswerView::Task { task, overlaps: overlaps_of(tasks_of(v), task) },
        ),
    }
}

#[verifier::opaque]
pub open spec fn start_task(
    v: ClientView,
    call: u64,
    description: Seq<char>,
    scopes: Seq<Seq<char>>,
    first: Uuid,
    second: Uuid,
) -> ClientView {
    if !v.connected {
        offline(v, call)
    } else if trim(description).len() == 0 {
        refuse(
            v,
            call,
            detailed(
                ErrorClass::UsageError,
                "A Task description is required."@,
                "Pass --description \"what you intend to change\"."@,
            ),
        )
    } else {
        match scopes_of(scopes) {
            Err(e) => refuse(v, call, e),
            Ok(list) => forward(
                v,
                call,
                first,
                ClientMessageView::TaskStart {
                    request_id: first,
                    task_id: second,
                    description,
                    scopes: list,
                },
            ),
        }
    }
}

#[verifier::opaque]
pub open spec fn update_task(
    v: ClientView,
    call: u64,
    id: Seq<char>,
    description: Option<Seq<char>>,
    scopes: Option<Seq<Seq<char>>>,
    first: Uuid,
) -> ClientView {
    if !v.connected {
        offline(v, call)
    } else {
        match find_task(v, id) {
            Err(e) => refuse(v, call, e),
            Ok(task) => match scopes {
                None => forward(
                    v,
                    call,
                    first,
                    ClientMessageView::TaskUpdate {
                        request_id: first,
                        task_id: task.id,
                        description,
                        scopes: None,
                    },
                ),
                Some(raw) => match scopes_of(raw) {
                    Err(e) => refuse(v, call, e),
                    Ok(list) => forward(
                        v,
                        call,
                        first,
                        ClientMessageView::TaskUpdate {
                            request_id: first,
                            task_id: task.id,
                            description,
                            scopes: Some(list),
                        },
                    ),
                },
            },
        }
    }
}

/// Complete or cancel a task.
#[verifier::opaque]
pub open spec fn end_task(v: ClientView, call: u64, id: Seq<char>, completed: bool, first: Uuid) -> ClientView {
    if !v.connected {
        offline(v, call)
    } else {
        match find_task(v, id) {
            Err(e) => refuse(v, call, e),
            Ok(task) => forward(
                v,
                call,
                first,
                if completed {
                    ClientMessageView::TaskComplete { request_id: first, task_id: task.id }
                } else {
                    ClientMessageView::TaskCancel { request_id: first, task_id: task.id }
                },
            ),
        }
    }
}

#[verifier::opaque]
pub open spec fn show_conflict(v: ClientView, call: u64, id: Seq<char>) -> ClientView {
    match find_conflict(v, id) {
        Err(e) => refuse(v, call, e),
        Ok(c) => v.answer(call, AnswerView::Conflict(detail_of(v, c))),
    }
}

#[verifier::opaque]
pub open spec fn dismiss_conflict(v: ClientView, call: u64, id: Seq<char>, first: Uuid) -> ClientView {
    if !v.connected {
        offline(v, call)
    } else {
        match find_conflict(v, id) {
            Err(e) => refuse(v, call, e),
            Ok(c) => forward(
                v,
                call,
                first,
                ClientMessageView::DismissConflict { request_id: first, conflict_id: c.id },
            ),
        }
    }
}

pub open spec fn already_settled(c: ConflictView) -> ErrorView {
    plain(
        ErrorClass::UsageError,
        "Conflict "@ + short_form('C', c.id) + " is already "@ + c.status.name() + "."@,
    )
}

#[verifier::opaque]
pub open spec fn resolve_conflict(
    v: ClientView,
    call: u64,
    id: Seq<char>,
    source: ResolveSource,
    file: Option<Seq<char>>,
    first: Uuid,
    second: Uuid,
) -> ClientView {
    if !v.connected {
        offline(v, call)
    } else {
        match find_conflict(v, id) {
            Err(e) => refuse(v, call, e),
            Ok(c) => if c.status != ConflictStatus::Open {
                refuse(v, call, already_settled(c))
            } else {
                match resolution_entry(v, c, source, file) {
                    Chosen::Fault(e) => refuse(v, call, e),
                    Chosen::Entry(entry) => resolve_with(v, call, c, entry, first, second),
                    Chosen::WorkingTree => v.first(
                        seq![WorkView::ResolveRead { call, conflict: c }],
                    ),
                    Chosen::File(f) => v.first(
                        seq![WorkView::ResolveIngest { call, conflict: c, file: f }],
                    ),
                }
            },
        }
    }
}

#[verifier::opaque]
pub open spec fn create_commit(
    v: ClientView,
    call: u64,
    prepare_id: Seq<char>,
    message: Seq<char>,
    first: Uuid,
) -> ClientView {
    if !v.connected {
        offline(v, call)
    } else {
        match parsed_uuid(trim(prepare_id)) {
            None => refuse(
                v,
                call,
                detailed(
                    ErrorClass::UsageError,
                    "`"@ + prepare_id + "` is not a Weave preparation identifier."@,
                    "Use the `prepare_id` reported by `weave commit prepare --json`."@,
                ),
            ),
            Some(id) => forward(
                v,
                call,
                first,
                ClientMessageView::CommitCreate { request_id: first, prepare_id: id, message },
            ),
        }
    }
}

/// A command without arguments for the host.
#[verifier::opaque]
pub open spec fn ask_host(v: ClientView, call: u64, first: Uuid, m: ClientMessageView) -> ClientView {
    if !v.connected {
        offline(v, call)
    } else {
        forward(v, call, first, m)
    }
}

pub open spec fn wrong_role() -> ErrorView {
    plain(ErrorClass::UsageError, "That command is not available in this session role."@)
}

/// One command. `first` and `second` name whatever it creates.
pub open spec fn dispatch_rule(
    v: ClientView,
    call: u64,
    command: IpcCommand,
    now_ms: i64,
    first: Uuid,
    second: Uuid,
) -> ClientView {
    match command {
        IpcCommand::Status => v.answer(call, AnswerView::Status(status_of(v))),
        IpcCommand::Peers => v.answer(call, AnswerView::Peers { peers: v.peers }),
        IpcCommand::Rescan => full_rescan(
            v.first(seq![WorkView::AnswerRescan { call }]),
            now_ms,
        ),
        IpcCommand::TaskList => v.answer(
            call,
            AnswerView::Tasks { tasks: tasks_of(v), active: my_task(v) },
        ),
        IpcCommand::TaskShow { id } => show_task(v, call, id@),
        IpcCommand::TaskStart { description, scopes } => start_task(
            v,
            call,
            description@,
            texts(scopes@),
            first,
            second,
        ),
        IpcCommand::TaskUpdate { id, description, scopes } => update_task(
            v,
            call,
            id@,
            opt_view(description),
            match scopes {
                Some(list) => Some(texts(list@)),
                None => None,
            },
            first,
        ),
        IpcCommand::TaskComplete { id } => end_task(v, call, id@, true, first),
        IpcCommand::TaskCancel { id } => end_task(v, call, id@, false, first),
        IpcCommand::ConflictList => v.answer(
            call,
            AnswerView::Conflicts {
                conflicts: conflicts_of(v),
                open: count_open(conflicts_of(v)),
            },
        ),
        IpcCommand::ConflictShow { id } => show_conflict(v, call, id@),
        IpcCommand::ConflictDismiss { id } => dismiss_conflict(v, call, id@, first),
        IpcCommand::ConflictResolve { id, source, content_file } => resolve_conflict(
            v,
            call,
            id@,
            source,
            opt_view(content_file),
            first,
            second,
        ),
        IpcCommand::CommitPrepare { allow_active_tasks } => ask_host(
            v,
            call,
            first,
            ClientMessageView::CommitPrepare { request_id: first, allow_active_tasks },
        ),
        IpcCommand::CommitCreate { prepare_id, message } => create_commit(
            v,
            call,
            prepare_id@,
            message@,
            first,
        ),
        IpcCommand::Push => ask_host(
            v,
            call,
            first,
            ClientMessageView::PushRequest { request_id: first },
        ),
        // Handled by the daemon before they get here.
        IpcCommand::Invite => refuse(v, call, wrong_role()),
        IpcCommand::TunnelRestart => refuse(v, call, wrong_role()),
        IpcCommand::Stop => refuse(v, call, wrong_role()),
        IpcCommand::Leave => refuse(v, call, wrong_role()),
    }
}

} // verus!
