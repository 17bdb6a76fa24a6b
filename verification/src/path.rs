//! Canonical repository paths and the portable filename policy.
//!
//! A session may mix Windows, macOS and Linux machines, so Weave enforces the
//! intersection of what those platforms can represent unambiguously. Paths
//! that would be legal on one platform but not another are rejected up front
//! rather than failing halfway through synchronization.

use unicode_normalization::UnicodeNormalization;
use vstd::prelude::*;
use vstd::utf8::encode_utf8;

use crate::error::{detailed, plain, unsupported, ErrorClass, ErrorView, Result, WeaveError};
use crate::text::{
    chars_of, equal_ignoring_case, find_char, join, join_text, position_from, same_ignoring_case,
    same_letter, same_text, split, split_text, text_of, texts,
};

verus! {

// ---------------------------------------------------------------------------
// The policy
// ---------------------------------------------------------------------------

/// Windows device names that cannot be used as a filename component.
pub open spec fn is_reserved(stem: Seq<char>) -> bool {
    ||| same_ignoring_case(stem, "CON"@)
    ||| same_ignoring_case(stem, "PRN"@)
    ||| same_ignoring_case(stem, "AUX"@)
    ||| same_ignoring_case(stem, "NUL"@)
    ||| same_ignoring_case(stem, "COM1"@)
    ||| same_ignoring_case(stem, "COM2"@)
    ||| same_ignoring_case(stem, "COM3"@)
    ||| same_ignoring_case(stem, "COM4"@)
    ||| same_ignoring_case(stem, "COM5"@)
    ||| same_ignoring_case(stem, "COM6"@)
    ||| same_ignoring_case(stem, "COM7"@)
    ||| same_ignoring_case(stem, "COM8"@)
    ||| same_ignoring_case(stem, "COM9"@)
    ||| same_ignoring_case(stem, "LPT1"@)
    ||| same_ignoring_case(stem, "LPT2"@)
    ||| same_ignoring_case(stem, "LPT3"@)
    ||| same_ignoring_case(stem, "LPT4"@)
    ||| same_ignoring_case(stem, "LPT5"@)
    ||| same_ignoring_case(stem, "LPT6"@)
    ||| same_ignoring_case(stem, "LPT7"@)
    ||| same_ignoring_case(stem, "LPT8"@)
    ||| same_ignoring_case(stem, "LPT9"@)
}

fn reserved(stem: &str) -> (yes: bool)
    ensures
        yes == is_reserved(stem@),
{
    equal_ignoring_case(stem, "CON") || equal_ignoring_case(stem, "PRN") || equal_ignoring_case(
        stem,
        "AUX",
    ) || equal_ignoring_case(stem, "NUL") || equal_ignoring_case(stem, "COM1")
        || equal_ignoring_case(stem, "COM2") || equal_ignoring_case(stem, "COM3")
        || equal_ignoring_case(stem, "COM4") || equal_ignoring_case(stem, "COM5")
        || equal_ignoring_case(stem, "COM6") || equal_ignoring_case(stem, "COM7")
        || equal_ignoring_case(stem, "COM8") || equal_ignoring_case(stem, "COM9")
        || equal_ignoring_case(stem, "LPT1") || equal_ignoring_case(stem, "LPT2")
        || equal_ignoring_case(stem, "LPT3") || equal_ignoring_case(stem, "LPT4")
        || equal_ignoring_case(stem, "LPT5") || equal_ignoring_case(stem, "LPT6")
        || equal_ignoring_case(stem, "LPT7") || equal_ignoring_case(stem, "LPT8")
        || equal_ignoring_case(stem, "LPT9")
}

/// Control characters.
pub open spec fn is_control(c: char) -> bool {
    (c as int) < 0x20 || c == '\u{7f}'
}

/// Characters Windows forbids in filenames.
pub open spec fn is_windows_invalid(c: char) -> bool {
    c == '<' || c == '>' || c == ':' || c == '"' || c == '|' || c == '?' || c == '*' || c == '\\'
}

fn control(c: char) -> (yes: bool)
    ensures
        yes == is_control(c),
{
    c < '\u{20}' || c == '\u{7f}'
}

fn windows_invalid(c: char) -> (yes: bool)
    ensures
        yes == is_windows_invalid(c),
{
    c == '<' || c == '>' || c == ':' || c == '"' || c == '|' || c == '?' || c == '*' || c == '\\'
}

/// Why the characters of a component are refused: the first offending one
/// decides.
pub open spec fn char_fault(s: Seq<char>) -> Option<Seq<char>>
    decreases s.len(),
{
    if s.len() == 0 {
        None
    } else if is_control(s[0]) {
        Some("A path component contains a control character."@)
    } else if is_windows_invalid(s[0]) {
        Some(
            "A path component contains `"@.push(s[0])
                + "`, which is not a legal Windows filename character."@,
        )
    } else {
        char_fault(s.drop_first())
    }
}

/// The part of a component before its first dot.
pub open spec fn stem_of(component: Seq<char>) -> Seq<char> {
    component.take(find_char(component, '.'))
}

/// Why one component of a path is refused.
pub open spec fn component_fault(c: Seq<char>) -> Option<Seq<char>> {
    if c.len() == 0 {
        Some("The path contains an empty component (`//` or a trailing `/`)."@)
    } else if c == "."@ || c == ".."@ {
        Some("The path contains a `.` or `..` traversal component."@)
    } else if same_ignoring_case(c, ".git"@) {
        Some("The path targets Git internal storage."@)
    } else if c.last() == ' ' {
        Some("A path component ends with a space, which Windows silently strips."@)
    } else if c.last() == '.' {
        Some("A path component ends with a dot, which Windows silently strips."@)
    } else if char_fault(c) is Some {
        char_fault(c)
    } else if is_reserved(stem_of(c)) {
        Some("`"@ + c + "` uses a Windows reserved device name."@)
    } else {
        None
    }
}

/// The fault of the first faulty component.
pub open spec fn first_fault(parts: Seq<Seq<char>>) -> Option<Seq<char>>
    decreases parts.len(),
{
    if parts.len() == 0 {
        None
    } else if component_fault(parts[0]) is Some {
        component_fault(parts[0])
    } else {
        first_fault(parts.drop_first())
    }
}

/// Why a raw path is refused, or `None` when it is a canonical, portable
/// repository path.
pub open spec fn path_fault(raw: Seq<char>) -> Option<Seq<char>> {
    if raw.len() == 0 {
        Some("The path is empty."@)
    } else if encode_utf8(raw).len() > 1024 {
        Some("The path is longer than 1024 bytes."@)
    } else if raw[0] == '/' {
        Some("The path is absolute; repository paths must be relative."@)
    } else if raw.contains('\0') {
        Some("The path contains a NUL byte."@)
    } else if encode_utf8(raw).len() >= 2 && encode_utf8(raw)[1] == 0x3a {
        Some("The path looks like a Windows drive-absolute path."@)
    } else {
        first_fault(split(raw, '/'))
    }
}

/// Whether `raw` is a canonical, portable repository path.
pub open spec fn valid_path(raw: Seq<char>) -> bool {
    path_fault(raw) is None
}

/// The error a refused path is answered with.
pub open spec fn path_error(raw: Seq<char>, why: Seq<char>) -> ErrorView {
    detailed(
        ErrorClass::UnsupportedError,
        "Unsupported repository path: "@ + raw,
        why
            + "\n\nWeave enforces a portable filename subset so that Windows, macOS and Linux participants can hold the same working tree. Rename the file and retry."@,
    )
}

fn reject(raw: &str, why: &str) -> (e: WeaveError)
    ensures
        e@ == path_error(raw@, why@),
{
    let mut message = "Unsupported repository path: ".to_owned();
    message.push_str(raw);
    let mut detail = why.to_owned();
    detail.push_str(
        "\n\nWeave enforces a portable filename subset so that Windows, macOS and Linux participants can hold the same working tree. Rename the file and retry.",
    );
    unsupported(message.as_str()).with_detail(detail)
}

fn find_char_fault(chars: &Vec<char>) -> (fault: Option<String>)
    ensures
        match fault {
            Some(f) => char_fault(chars@) == Some(f@),
            None => char_fault(chars@) is None,
        },
{
    let mut i: usize = 0;
    proof {
        assert(chars@.skip(0) =~= chars@);
    }
    while i < chars.len()
        invariant
            i <= chars@.len(),
            char_fault(chars@) == char_fault(chars@.skip(i as int)),
        decreases chars@.len() - i,
    {
        let c = chars[i];
        if control(c) {
            return Some("A path component contains a control character.".to_owned());
        }
        if windows_invalid(c) {
            let mut why = "A path component contains `".to_owned();
            why.push(c);
            why.push_str("`, which is not a legal Windows filename character.");
            return Some(why);
        }
        proof {
            assert(chars@.skip(i as int).drop_first() =~= chars@.skip(i + 1));
        }
        i = i + 1;
    }
    None
}

fn find_component_fault(component: &str) -> (fault: Option<String>)
    ensures
        match fault {
            Some(f) => component_fault(component@) == Some(f@),
            None => component_fault(component@) is None,
        },
{
    let chars = chars_of(component);
    if chars.len() == 0 {
        return Some("The path contains an empty component (`//` or a trailing `/`).".to_owned());
    }
    if same_text(component, ".") || same_text(component, "..") {
        return Some("The path contains a `.` or `..` traversal component.".to_owned());
    }
    if equal_ignoring_case(component, ".git") {
        return Some("The path targets Git internal storage.".to_owned());
    }
    let last = chars[chars.len() - 1];
    if last == ' ' {
        return Some(
            "A path component ends with a space, which Windows silently strips.".to_owned(),
        );
    }
    if last == '.' {
        return Some("A path component ends with a dot, which Windows silently strips.".to_owned());
    }
    let in_chars = find_char_fault(&chars);
    if in_chars.is_some() {
        return in_chars;
    }
    let dot = position_from(&chars, '.', 0);
    let stem = text_of(&chars, 0, dot);
    proof {
        assert(chars@.skip(0) =~= chars@);
        assert(stem@ =~= stem_of(component@));
    }
    if reserved(stem.as_str()) {
        let mut why = "`".to_owned();
        why.push_str(component);
        why.push_str("` uses a Windows reserved device name.");
        return Some(why);
    }
    None
}

/// Full canonical and portability validation of a raw path string.
pub fn validate(raw: &str) -> (r: Result<()>)
    ensures
        match r {
            Ok(_) => valid_path(raw@),
            Err(e) => path_fault(raw@) matches Some(why) && e@ == path_error(raw@, why),
        },
{
    let chars = chars_of(raw);
    let bytes = raw.as_bytes();
    if chars.len() == 0 {
        return Err(reject(raw, "The path is empty."));
    }
    if bytes.len() > 1024 {
        return Err(reject(raw, "The path is longer than 1024 bytes."));
    }
    if chars[0] == '/' {
        return Err(reject(raw, "The path is absolute; repository paths must be relative."));
    }
    let nul = position_from(&chars, '\0', 0);
    if nul < chars.len() {
        assert(raw@[nul as int] == '\0');
        return Err(reject(raw, "The path contains a NUL byte."));
    }
    if bytes.len() >= 2 && bytes[1] == 0x3a {
        return Err(reject(raw, "The path looks like a Windows drive-absolute path."));
    }
    let parts = split_text(raw, '/');
    let ghost all = split(raw@, '/');
    let mut i: usize = 0;
    proof {
        assert(all.skip(0) =~= all);
    }
    while i < parts.len()
        invariant
            i <= parts@.len(),
            texts(parts@) == all,
            all == split(raw@, '/'),
            path_fault(raw@) == first_fault(all.skip(i as int)),
        decreases parts@.len() - i,
    {
        proof {
            assert(all.len() == parts@.len());
            assert(all.skip(i as int)[0] == parts@[i as int]@);
            assert(all.skip(i as int).drop_first() =~= all.skip(i + 1));
        }
        match find_component_fault(parts[i].as_str()) {
            Some(why) => {
                return Err(reject(raw, why.as_str()));
            },
            None => {},
        }
        i = i + 1;
    }
    Ok(())
}

// ---------------------------------------------------------------------------
// Collision keys
// ---------------------------------------------------------------------------

/// The Unicode normalization form C of a string, as the
/// `unicode_normalization` crate computes it.
pub uninterp spec fn nfc_form(s: Seq<char>) -> Seq<char>;

/// `UnicodeNormalization::nfc`: the characters of `raw` in normalization form
/// C, a function of `raw` alone.
#[verifier::external_body]
fn nfc(raw: &str) -> (s: String)
    ensures
        s@ == nfc_form(raw@),
{
    raw.nfc().collect::<String>()
}

/// The Unicode lower case of a string, as `str::to_lowercase` computes it.
pub uninterp spec fn lowercase(s: Seq<char>) -> Seq<char>;

/// `str::to_lowercase`: the lower case of `s`, a function of `s` alone.
#[verifier::external_body]
fn to_lowercase(s: &str) -> (t: String)
    ensures
        t@ == lowercase(s@),
{
    s.to_lowercase()
}

/// The Unicode upper case of a string, as `str::to_uppercase` computes it.
pub uninterp spec fn uppercase(s: Seq<char>) -> Seq<char>;

/// `str::to_uppercase`: the upper case of `s`, a function of `s` alone.
#[verifier::external_body]
pub(crate) fn to_uppercase(s: &str) -> (t: String)
    ensures
        t@ == uppercase(s@),
{
    s.to_uppercase()
}

/// The key two paths collide on: normalization form C, then lower case.
pub open spec fn key_of(raw: Seq<char>) -> Seq<char> {
    lowercase(nfc_form(raw))
}

pub fn collision_key_of(raw: &str) -> (key: String)
    ensures
        key@ == key_of(raw@),
{
    to_lowercase(nfc(raw).as_str())
}

// ---------------------------------------------------------------------------
// Repository paths
// ---------------------------------------------------------------------------

/// A repository-relative, `/`-separated, validated path.
///
/// There is no way to make one that breaks the policy, so a path that arrived
/// over the wire can never bypass the portability and traversal rules.
#[derive(Debug, PartialEq, Eq, PartialOrd, Ord, Hash)]
pub struct RepoPath {
    raw: String,
}

impl View for RepoPath {
    type V = Seq<char>;

    closed spec fn view(&self) -> Seq<char> {
        self.raw@
    }
}

impl Clone for RepoPath {
    fn clone(&self) -> (copy: RepoPath)
        ensures
            copy == *self,
    {
        proof {
            use_type_invariant(self);
        }
        RepoPath { raw: self.raw.clone() }
    }
}

/// One component of a native path, as the platform reports it.
pub enum PathPart {
    /// An ordinary name; `None` when it is not valid UTF-8.
    Normal(Option<String>),
    /// `.`
    CurDir,
    /// A root, a prefix or `..`.
    Other,
}

/// What the file system says about one step of a path.
pub enum StepKind {
    Plain,
    Link,
    ReparsePoint,
    Missing,
    Unreadable(WeaveError),
}

/// The names among the components of a native path.
pub open spec fn part_names(parts: Seq<PathPart>) -> Seq<Seq<char>>
    decreases parts.len(),
{
    if parts.len() == 0 {
        Seq::empty()
    } else {
        match parts.last() {
            PathPart::Normal(Some(name)) => part_names(parts.drop_last()).push(name@),
            _ => part_names(parts.drop_last()),
        }
    }
}

/// Why a native path is not repository-relative: the first offending component
/// decides.
pub open spec fn part_fault(parts: Seq<PathPart>, shown: Seq<char>) -> Option<ErrorView>
    decreases parts.len(),
{
    if parts.len() == 0 {
        None
    } else if part_fault(parts.drop_last(), shown) is Some {
        part_fault(parts.drop_last(), shown)
    } else {
        match parts.last() {
            PathPart::Normal(Some(_)) => None,
            PathPart::CurDir => None,
            PathPart::Normal(None) => Some(
                plain(
                    ErrorClass::UnsupportedError,
                    "Path is not valid UTF-8 and cannot be synchronized: "@ + shown,
                ),
            ),
            PathPart::Other => Some(
                plain(
                    ErrorClass::UnsupportedError,
                    "Path is not repository-relative: "@ + shown,
                ),
            ),
        }
    }
}

pub proof fn lemma_part_fault_kept(parts: Seq<PathPart>, shown: Seq<char>, i: int)
    requires
        0 <= i <= parts.len(),
        part_fault(parts.take(i), shown) is Some,
    ensures
        part_fault(parts, shown) == part_fault(parts.take(i), shown),
    decreases parts.len(),
{
    if i == parts.len() {
        assert(parts.take(i) =~= parts);
    } else {
        assert(parts.drop_last().take(i) =~= parts.take(i));
        lemma_part_fault_kept(parts.drop_last(), shown, i);
    }
}

/// `rel` below `base`, with exactly one separator between them.
pub open spec fn below(base: Seq<char>, rel: Seq<char>) -> Seq<char> {
    if base.len() == 0 || base.last() == '/' {
        base + rel
    } else {
        base + "/"@ + rel
    }
}

pub fn join_path(base: &str, rel: &str) -> (s: String)
    ensures
        s@ == below(base@, rel@),
{
    let chars = chars_of(base);
    let mut s = base.to_owned();
    if chars.len() > 0 && chars[chars.len() - 1] != '/' {
        s.push_str("/");
    }
    s.push_str(rel);
    s
}

impl RepoPath {
    #[verifier::type_invariant]
    closed spec fn is_valid(self) -> bool {
        valid_path(self.raw@)
    }

    /// Validate and construct a canonical repository path.
    pub fn new(raw: &str) -> (r: Result<RepoPath>)
        ensures
            match r {
                Ok(path) => valid_path(raw@) && path@ == raw@,
                Err(e) => path_fault(raw@) matches Some(why) && e@ == path_error(raw@, why),
            },
    {
        match validate(raw) {
            Ok(_) => Ok(RepoPath { raw: raw.to_owned() }),
            Err(e) => Err(e),
        }
    }

    pub fn as_str(&self) -> (s: &str)
        ensures
            s@ == self@,
            valid_path(s@),
    {
        proof {
            use_type_invariant(self);
        }
        self.raw.as_str()
    }

    pub fn into_string(self) -> (s: String)
        ensures
            s@ == self@,
            valid_path(s@),
    {
        proof {
            use_type_invariant(&self);
        }
        self.raw
    }

    /// Whether two paths name the same file.
    pub fn same(&self, other: &RepoPath) -> (yes: bool)
        ensures
            yes == (self@ == other@),
    {
        same_text(self.raw.as_str(), other.raw.as_str())
    }

    /// Resolve against a repository root, producing a file system path.
    pub fn to_fs_path(&self, root: &str) -> (s: String)
        ensures
            s@ == below(root@, self@),
    {
        join_path(root, self.raw.as_str())
    }

    /// The key used to detect paths that cannot coexist on every platform.
    pub fn collision_key(&self) -> (key: String)
        ensures
            key@ == key_of(self@),
    {
        collision_key_of(self.raw.as_str())
    }

    /// The parent directories of this path, outermost first.
    pub fn parent_dirs(&self) -> (dirs: Vec<String>)
        ensures
            dirs@.len() == split(self@, '/').len() - 1,
            forall|i: int|
                0 <= i < dirs@.len() ==> (#[trigger] dirs@[i])@ == join(
                    split(self@, '/').take(i + 1),
                    "/"@,
                ),
    {
        proof {
            use_type_invariant(self);
            lemma_first_fault(split(self@, '/'));
        }
        let parts = split_text(self.raw.as_str(), '/');
        let ghost all = split(self@, '/');
        let mut out: Vec<String> = Vec::new();
        let mut acc = String::new();
        let mut i: usize = 0;
        while i < parts.len() - 1
            invariant
                parts@.len() >= 1,
                texts(parts@) == all,
                all == split(self@, '/'),
                i <= parts@.len() - 1,
                forall|k: int| 0 <= k < all.len() ==> (#[trigger] all[k]).len() > 0,
                out@.len() == i,
                i == 0 ==> acc@.len() == 0,
                i > 0 ==> acc@ == join(all.take(i as int), "/"@) && acc@.len() > 0,
                forall|k: int|
                    0 <= k < i ==> (#[trigger] out@[k])@ == join(all.take(k + 1), "/"@),
            decreases parts@.len() - i,
        {
            proof {
                assert(all.len() == parts@.len());
                assert(all[i as int] == parts@[i as int]@);
                assert(all.take(i + 1).drop_last() =~= all.take(i as int));
                assert(all.take(i + 1).last() == all[i as int]);
            }
            if !acc.as_str().is_empty() {
                acc.push_str("/");
            }
            acc.push_str(parts[i].as_str());
            proof {
                if i == 0 {
                    assert(acc@ =~= all[0]);
                    assert(all.take(1) =~= seq![all[0]]);
                }
            }
            out.push(acc.clone());
            i = i + 1;
        }
        out
    }

    /// Convert the components of a native relative path into a canonical
    /// repository path. `shown` is how messages display the native path.
    pub fn from_relative(parts: &Vec<PathPart>, shown: &str) -> (r: Result<RepoPath>)
        ensures
            match part_fault(parts@, shown@) {
                Some(fault) => r matches Err(e) && e@ == fault,
                None => {
                    let raw = join(part_names(parts@), "/"@);
                    match r {
                        Ok(path) => valid_path(raw) && path@ == raw,
                        Err(e) => path_fault(raw) matches Some(why) && e@ == path_error(raw, why),
                    }
                },
            },
    {
        let mut names: Vec<String> = Vec::new();
        let mut i: usize = 0;
        proof {
            assert(parts@.take(0) =~= Seq::<PathPart>::empty());
            assert(texts(names@) =~= part_names(parts@.take(0)));
        }
        while i < parts.len()
            invariant
                i <= parts@.len(),
                texts(names@) == part_names(parts@.take(i as int)),
                part_fault(parts@.take(i as int), shown@) is None,
            decreases parts@.len() - i,
        {
            let ghost now = parts@.take(i + 1);
            proof {
                assert(now.drop_last() =~= parts@.take(i as int));
                assert(now.last() == parts@[i as int]);
            }
            match &parts[i] {
                PathPart::Normal(Some(name)) => {
                    let ghost before = names@;
                    names.push(name.clone());
                    proof {
                        crate::text::lemma_texts_push(before, *name);
                    }
                },
                PathPart::Normal(None) => {
                    proof {
                        lemma_part_fault_kept(parts@, shown@, i + 1);
                    }
                    let mut message = "Path is not valid UTF-8 and cannot be synchronized: ".to_owned();
                    message.push_str(shown);
                    return Err(unsupported(message.as_str()));
                },
                PathPart::CurDir => {},
                PathPart::Other => {
                    proof {
                        lemma_part_fault_kept(parts@, shown@, i + 1);
                    }
                    let mut message = "Path is not repository-relative: ".to_owned();
                    message.push_str(shown);
                    return Err(unsupported(message.as_str()));
                },
            }
            i = i + 1;
        }
        proof {
            assert(parts@.take(parts@.len() as int) =~= parts@);
        }
        let raw = join_text(&names, "/");
        RepoPath::new(raw.as_str())
    }
}

/// A path without faults has only faultless components, and none of them is
/// empty.
pub proof fn lemma_first_fault(parts: Seq<Seq<char>>)
    requires
        first_fault(parts) is None,
    ensures
        forall|i: int|
            0 <= i < parts.len() ==> component_fault(#[trigger] parts[i]) is None && parts[i].len()
                > 0,
    decreases parts.len(),
{
    if parts.len() > 0 {
        lemma_first_fault(parts.drop_first());
        assert forall|i: int| 0 <= i < parts.len() implies component_fault(#[trigger] parts[i])
            is None && parts[i].len() > 0 by {
            if i > 0 {
                assert(parts[i] == parts.drop_first()[i - 1]);
            }
        }
    }
}

/// The outcome of walking the steps of a path: the first step that is not a
/// plain entry decides.
pub open spec fn indirection(path: Seq<char>, steps: Seq<StepKind>) -> Option<ErrorView>
    decreases steps.len(),
{
    if steps.len() == 0 {
        None
    } else {
        match steps[0] {
            StepKind::Plain => indirection(path, steps.drop_first()),
            StepKind::Missing => None,
            StepKind::Link => Some(
                detailed(
                    ErrorClass::UnsupportedError,
                    "Refusing to follow a link inside the repository: "@ + path,
                    "Weave V1 does not synchronize symlinks, Windows junctions or other reparse points, and never traverses them."@,
                ),
            ),
            StepKind::ReparsePoint => Some(
                plain(
                    ErrorClass::UnsupportedError,
                    "Refusing to follow a reparse point inside the repository: "@ + path,
                ),
            ),
            StepKind::Unreadable(e) => Some(e@),
        }
    }
}

/// Verify that no step of `path`, outermost first, is a symlink, junction or
/// other reparse point: Weave never traverses an indirect file system path
/// that could escape the repository root.
pub fn ensure_no_indirection(path: &RepoPath, steps: &Vec<StepKind>) -> (r: Result<()>)
    ensures
        match r {
            Ok(_) => indirection(path@, steps@) is None,
            Err(e) => indirection(path@, steps@) == Some(e@),
        },
{
    let mut i: usize = 0;
    proof {
        assert(steps@.skip(0) =~= steps@);
    }
    while i < steps.len()
        invariant
            i <= steps@.len(),
            indirection(path@, steps@) == indirection(path@, steps@.skip(i as int)),
        decreases steps@.len() - i,
    {
        proof {
            assert(steps@.skip(i as int).drop_first() =~= steps@.skip(i + 1));
        }
        match &steps[i] {
            StepKind::Plain => {},
            StepKind::Missing => {
                return Ok(());
            },
            StepKind::Link => {
                let mut message = "Refusing to follow a link inside the repository: ".to_owned();
                message.push_str(path.as_str());
                return Err(
                    unsupported(message.as_str()).with_detail(
                        "Weave V1 does not synchronize symlinks, Windows junctions or other reparse points, and never traverses them.".to_owned(),
                    ),
                );
            },
            StepKind::ReparsePoint => {
                let mut message = "Refusing to follow a reparse point inside the repository: ".to_owned();
                message.push_str(path.as_str());
                return Err(unsupported(message.as_str()));
            },
            StepKind::Unreadable(e) => {
                return Err(e.clone());
            },
        }
        i = i + 1;
    }
    Ok(())
}

// ---------------------------------------------------------------------------
// What a valid path guarantees
// ---------------------------------------------------------------------------

/// A valid path cannot leave the repository: it is relative, it has no empty
/// component, and no component is `.`, `..` or Git's own directory.
pub proof fn a_valid_path_stays_inside(raw: Seq<char>)
    requires
        valid_path(raw),
    ensures
        raw.len() > 0,
        raw[0] != '/',
        forall|i: int|
            0 <= i < split(raw, '/').len() ==> {
                let c = #[trigger] split(raw, '/')[i];
                c.len() > 0 && c != "."@ && c != ".."@ && !same_ignoring_case(c, ".git"@)
            },
{
    lemma_first_fault(split(raw, '/'));
}

/// A valid path holds nothing that one of the platforms cannot represent: no
/// control character, no character Windows forbids, no reserved device name,
/// no trailing dot or space in any component.
pub proof fn a_valid_path_is_portable(raw: Seq<char>)
    requires
        valid_path(raw),
    ensures
        encode_utf8(raw).len() <= 1024,
        forall|i: int|
            0 <= i < split(raw, '/').len() ==> {
                let c = #[trigger] split(raw, '/')[i];
                &&& c.last() != ' '
                &&& c.last() != '.'
                &&& !is_reserved(stem_of(c))
                &&& forall|k: int|
                    0 <= k < c.len() ==> !is_control(#[trigger] c[k]) && !is_windows_invalid(c[k])
            },
{
    lemma_first_fault(split(raw, '/'));
    assert forall|i: int| 0 <= i < split(raw, '/').len() implies {
        let c = #[trigger] split(raw, '/')[i];
        forall|k: int|
            0 <= k < c.len() ==> !is_control(#[trigger] c[k]) && !is_windows_invalid(c[k])
    } by {
        lemma_char_fault(split(raw, '/')[i]);
    }
}

pub proof fn lemma_char_fault(s: Seq<char>)
    requires
        char_fault(s) is None,
    ensures
        forall|k: int|
            0 <= k < s.len() ==> !is_control(#[trigger] s[k]) && !is_windows_invalid(s[k]),
    decreases s.len(),
{
    if s.len() > 0 {
        lemma_char_fault(s.drop_first());
        assert forall|k: int| 0 <= k < s.len() implies !is_control(#[trigger] s[k])
            && !is_windows_invalid(s[k]) by {
            if k > 0 {
                assert(s[k] == s.drop_first()[k - 1]);
            }
        }
    }
}

/// A device name of Windows, in letters of either case: CON, PRN, AUX, NUL, and
/// COM or LPT with a digit from one to nine.
pub open spec fn is_device(stem: Seq<char>) -> bool {
    ||| stem.len() == 3 && {
        ||| same_ignoring_case(stem, "CON"@)
        ||| same_ignoring_case(stem, "PRN"@)
        ||| same_ignoring_case(stem, "AUX"@)
        ||| same_ignoring_case(stem, "NUL"@)
    }
    ||| {
        &&& stem.len() == 4
        &&& same_ignoring_case(stem.take(3), "COM"@) || same_ignoring_case(stem.take(3), "LPT"@)
        &&& '1' <= stem[3] <= '9'
    }
}

/// What a component of a portable path may be: neither empty nor a step up or
/// on the spot nor Git's own directory; no blank or dot at its end; no control
/// character and none that Windows forbids; and before its first dot no device.
pub open spec fn is_portable_name(c: Seq<char>) -> bool {
    &&& c.len() > 0
    &&& c != "."@
    &&& c != ".."@
    &&& !(c.len() == 4 && same_ignoring_case(c, ".git"@))
    &&& c[c.len() - 1] != ' '
    &&& c[c.len() - 1] != '.'
    &&& forall|k: int|
        0 <= k < c.len() ==> #[trigger] c[k] >= ' ' && c[k] != '\u{7f}' && !"<>:\"|?*\\"@.contains(
            c[k],
        )
    &&& forall|n: int|
        0 <= n <= c.len() && (forall|k: int| 0 <= k < n ==> c[k] != '.') && (n < c.len() ==> c[n]
            == '.') ==> !is_device(#[trigger] c.take(n))
}

/// The policy is sound and complete: a path is valid exactly when it is not
/// empty, not longer than 1024 bytes, not absolute, and every component is a
/// portable name.
pub proof fn a_path_is_valid_exactly_when_it_is_portable(raw: Seq<char>)
    ensures
        valid_path(raw) == {
            &&& raw.len() > 0
            &&& encode_utf8(raw).len() <= 1024
            &&& raw[0] != '/'
            &&& !(encode_utf8(raw).len() >= 2 && encode_utf8(raw)[1] == 0x3a)
            &&& forall|i: int|
                0 <= i < split(raw, '/').len() ==> is_portable_name(#[trigger] split(raw, '/')[i])
        },
{
    let parts = split(raw, '/');
    assert forall|i: int| 0 <= i < parts.len() implies is_portable_name(#[trigger] parts[i])
        == (component_fault(parts[i]) is None) by {
        lemma_portable_name(parts[i]);
    }
    if first_fault(parts) is None {
        lemma_first_fault(parts);
    }
    if forall|i: int| 0 <= i < parts.len() ==> is_portable_name(#[trigger] parts[i]) {
        assert forall|i: int| 0 <= i < parts.len() implies component_fault(#[trigger] parts[i])
            is None by {
            assert(is_portable_name(parts[i]));
        }
        lemma_no_fault(parts);
        lemma_split_holds_all(raw, '\0');
        if raw.contains('\0') {
            let i = choose|i: int|
                0 <= i < parts.len() && (#[trigger] parts[i]).contains('\0');
            assert(is_portable_name(parts[i]));
            let k = choose|k: int| 0 <= k < parts[i].len() && parts[i][k] == '\0';
            assert(parts[i][k] >= ' ');
        }
    }
}

proof fn lemma_no_fault(parts: Seq<Seq<char>>)
    requires
        forall|i: int| 0 <= i < parts.len() ==> component_fault(#[trigger] parts[i]) is None,
    ensures
        first_fault(parts) is None,
    decreases parts.len(),
{
    if parts.len() > 0 {
        assert(component_fault(parts[0]) is None);
        let rest = parts.drop_first();
        assert forall|i: int| 0 <= i < rest.len() implies component_fault(#[trigger] rest[i])
            is None by {
            assert(rest[i] == parts[i + 1]);
        }
        lemma_no_fault(rest);
    }
}

/// A character of a text that is no separator stands in one of its pieces.
proof fn lemma_split_holds_all(s: Seq<char>, c: char)
    requires
        c != '/',
    ensures
        s.contains(c) ==> exists|i: int|
            0 <= i < split(s, '/').len() && (#[trigger] split(s, '/')[i]).contains(c),
    decreases s.len(),
{
    let at = find_char(s, '/');
    crate::text::lemma_find_char(s, '/');
    let parts = split(s, '/');
    if s.contains(c) {
        let k = choose|k: int| 0 <= k < s.len() && s[k] == c;
        if at < s.len() {
            let rest = s.skip(at + 1);
            let tail = split(rest, '/');
            if k < at {
                assert(s.take(at)[k] == c);
                assert(parts[0] == s.take(at));
                assert(parts[0].contains(c));
            } else {
                assert(rest[k - at - 1] == c);
                lemma_split_holds_all(rest, c);
                let i = choose|i: int| 0 <= i < tail.len() && (#[trigger] tail[i]).contains(c);
                assert(parts[i + 1] == tail[i]);
            }
        } else {
            assert(parts[0] == s);
        }
    }
}

proof fn lemma_portable_name(c: Seq<char>)
    ensures
        is_portable_name(c) == (component_fault(c) is None),
{
    reveal_strlit(".git");
    reveal_strlit("<>:\"|?*\\");
    if c.len() > 0 {
        let n = find_char(c, '.');
        crate::text::lemma_find_char(c, '.');
        lemma_device(stem_of(c));
        assert(stem_of(c) == c.take(n));
        assert forall|m: int|
            0 <= m <= c.len() && (forall|k: int| 0 <= k < m ==> c[k] != '.') && (m < c.len() ==> c[m]
                == '.') implies m == n by {
            if m < n {
                assert(c[m] != '.');
            } else if n < m {
                assert(c[n] == '.');
            }
        }
        assert forall|k: int| 0 <= k < c.len() implies (!is_control(#[trigger] c[k])
            && !is_windows_invalid(c[k])) == (c[k] >= ' ' && c[k] != '\u{7f}'
            && !"<>:\"|?*\\"@.contains(c[k])) by {
            lemma_forbidden(c[k]);
        }
        if char_fault(c) is None {
            lemma_char_fault(c);
        }
        if forall|k: int| 0 <= k < c.len() ==> !is_control(#[trigger] c[k]) && !is_windows_invalid(
            c[k],
        ) {
            lemma_no_char_fault(c);
        }
        if is_portable_name(c) {
            assert(!is_device(c.take(n)));
            assert forall|k: int| 0 <= k < c.len() implies !is_control(#[trigger] c[k])
                && !is_windows_invalid(c[k]) by {
                assert(c[k] >= ' ');
            }
        }
    }
}

proof fn lemma_no_char_fault(s: Seq<char>)
    requires
        forall|k: int| 0 <= k < s.len() ==> !is_control(#[trigger] s[k]) && !is_windows_invalid(s[k]),
    ensures
        char_fault(s) is None,
    decreases s.len(),
{
    if s.len() > 0 {
        assert(!is_control(s[0]));
        let rest = s.drop_first();
        assert forall|k: int| 0 <= k < rest.len() implies !is_control(#[trigger] rest[k])
            && !is_windows_invalid(rest[k]) by {
            assert(rest[k] == s[k + 1]);
        }
        lemma_no_char_fault(rest);
    }
}

proof fn lemma_forbidden(c: char)
    ensures
        is_windows_invalid(c) == "<>:\"|?*\\"@.contains(c),
{
    reveal_strlit("<>:\"|?*\\");
    let all = "<>:\"|?*\\"@;
    assert(all[0] == '<' && all[1] == '>' && all[2] == ':' && all[3] == '"' && all[4] == '|' && all[5]
        == '?' && all[6] == '*' && all[7] == '\\');
    if all.contains(c) {
        let k = choose|k: int| 0 <= k < all.len() && all[k] == c;
        assert(k == 0 || k == 1 || k == 2 || k == 3 || k == 4 || k == 5 || k == 6 || k == 7);
    }
}

proof fn lemma_device(stem: Seq<char>)
    ensures
        is_device(stem) == is_reserved(stem),
{
    reveal_strlit("CON");
    reveal_strlit("PRN");
    reveal_strlit("AUX");
    reveal_strlit("NUL");
    reveal_strlit("COM");
    reveal_strlit("LPT");
    reveal_strlit("COM1");
    lemma_numbered(stem, "COM"@, "COM1"@, '1');
    reveal_strlit("COM2");
    lemma_numbered(stem, "COM"@, "COM2"@, '2');
    reveal_strlit("COM3");
    lemma_numbered(stem, "COM"@, "COM3"@, '3');
    reveal_strlit("COM4");
    lemma_numbered(stem, "COM"@, "COM4"@, '4');
    reveal_strlit("COM5");
    lemma_numbered(stem, "COM"@, "COM5"@, '5');
    reveal_strlit("COM6");
    lemma_numbered(stem, "COM"@, "COM6"@, '6');
    reveal_strlit("COM7");
    lemma_numbered(stem, "COM"@, "COM7"@, '7');
    reveal_strlit("COM8");
    lemma_numbered(stem, "COM"@, "COM8"@, '8');
    reveal_strlit("COM9");
    lemma_numbered(stem, "COM"@, "COM9"@, '9');
    reveal_strlit("LPT1");
    lemma_numbered(stem, "LPT"@, "LPT1"@, '1');
    reveal_strlit("LPT2");
    lemma_numbered(stem, "LPT"@, "LPT2"@, '2');
    reveal_strlit("LPT3");
    lemma_numbered(stem, "LPT"@, "LPT3"@, '3');
    reveal_strlit("LPT4");
    lemma_numbered(stem, "LPT"@, "LPT4"@, '4');
    reveal_strlit("LPT5");
    lemma_numbered(stem, "LPT"@, "LPT5"@, '5');
    reveal_strlit("LPT6");
    lemma_numbered(stem, "LPT"@, "LPT6"@, '6');
    reveal_strlit("LPT7");
    lemma_numbered(stem, "LPT"@, "LPT7"@, '7');
    reveal_strlit("LPT8");
    lemma_numbered(stem, "LPT"@, "LPT8"@, '8');
    reveal_strlit("LPT9");
    lemma_numbered(stem, "LPT"@, "LPT9"@, '9');
}

proof fn lemma_numbered(stem: Seq<char>, port: Seq<char>, name: Seq<char>, digit: char)
    requires
        port.len() == 3,
        name =~= port.push(digit),
        '1' <= digit <= '9',
    ensures
        same_ignoring_case(stem, name) == (stem.len() == 4 && same_ignoring_case(stem.take(3), port)
            && stem[3] == digit),
{
    if same_ignoring_case(stem, name) {
        assert forall|i: int| 0 <= i < 3 implies #[trigger] same_letter(stem.take(3)[i], port[i]) by {
            assert(same_letter(stem[i], name[i]));
        }
        assert(same_letter(stem[3], name[3]));
    }
    if stem.len() == 4 && same_ignoring_case(stem.take(3), port) && stem[3] == digit {
        assert forall|i: int| 0 <= i < 4 implies #[trigger] same_letter(stem[i], name[i]) by {
            if i < 3 {
                assert(same_letter(stem.take(3)[i], port[i]));
            }
        }
    }
}

} // verus!
