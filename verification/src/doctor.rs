//! Diagnostics.
//!
//! Installation checks answer "is the product on this machine intact?" and
//! need no repository. Repository checks answer "can a session start here?".
//! Hosting and joining run the subset that must hold before a session starts.
//! Everything is built from the same checks, so that they cannot drift apart.
//! What was found on the machine is handed in; these functions judge it.

use vstd::prelude::*;

use crate::error::{detailed, repository, ErrorClass, ErrorView, Result, WeaveError};
use crate::gitx::{Unsupported, UnsupportedView};
use crate::install::{
    is_supported, parent_dir, parent_of, platform_description, platform_form, supported_platform,
    Bundle, Cloudflared, CloudflaredSource, Machine,
};
use crate::model::DEFAULT_MAX_FILE_SIZE;
use crate::path::{key_of, path_error, path_fault, RepoPath};
use crate::text::{
    all_digits, chars_of, contains_text, decimal, decimal_text, digit, find_char, find_space,
    first_line, first_line_text, has_text, is_digit, is_space, join, join_text, lemma_texts_push,
    lemma_views_push, lower_ascii, lower_ascii_text, number, opt_view, parse_number, position_from,
    same_text, split_text, text_of, texts, trim, trim_start, trim_text, views,
};
use crate::util::{format_size, size_form};

verus! {

#[derive(Debug, Clone, Copy, PartialEq, Eq, Structural)]
pub enum CheckStatus {
    Pass,
    Warn,
    Fail,
}

/// Which family of checks a report contains.
#[derive(Debug, Clone, Copy, PartialEq, Eq, Structural)]
pub enum Scope {
    /// Installation and machine only; no repository required.
    Install,
    /// Installation plus this repository.
    Full,
}

#[derive(Debug)]
pub struct Check {
    pub name: String,
    pub status: CheckStatus,
    pub detail: String,
    /// What to do about it, when there is something to do.
    pub hint: Option<String>,
}

/// A check as plain values.
pub struct CheckView {
    pub name: Seq<char>,
    pub status: CheckStatus,
    pub detail: Seq<char>,
    pub hint: Option<Seq<char>>,
}

impl View for Check {
    type V = CheckView;

    open spec fn view(&self) -> CheckView {
        CheckView {
            name: self.name@,
            status: self.status,
            detail: self.detail@,
            hint: opt_view(self.hint),
        }
    }
}

pub open spec fn passed(name: Seq<char>, detail: Seq<char>) -> CheckView {
    CheckView { name, status: CheckStatus::Pass, detail, hint: None }
}

pub open spec fn warned(name: Seq<char>, detail: Seq<char>) -> CheckView {
    CheckView { name, status: CheckStatus::Warn, detail, hint: None }
}

pub open spec fn failed(name: Seq<char>, detail: Seq<char>) -> CheckView {
    CheckView { name, status: CheckStatus::Fail, detail, hint: None }
}

pub fn pass(name: &str, detail: &str) -> (c: Check)
    ensures
        c@ == passed(name@, detail@),
{
    Check {
        name: name.to_owned(),
        status: CheckStatus::Pass,
        detail: detail.to_owned(),
        hint: None,
    }
}

pub fn warn(name: &str, detail: &str) -> (c: Check)
    ensures
        c@ == warned(name@, detail@),
{
    Check {
        name: name.to_owned(),
        status: CheckStatus::Warn,
        detail: detail.to_owned(),
        hint: None,
    }
}

pub fn fail(name: &str, detail: &str) -> (c: Check)
    ensures
        c@ == failed(name@, detail@),
{
    Check {
        name: name.to_owned(),
        status: CheckStatus::Fail,
        detail: detail.to_owned(),
        hint: None,
    }
}

impl CheckView {
    pub open spec fn hinted(self, hint: Seq<char>) -> CheckView {
        CheckView { hint: Some(hint), ..self }
    }
}

impl Check {
    pub fn with_hint(self, hint: &str) -> (c: Check)
        ensures
            c@ == self@.hinted(hint@),
    {
        let mut c = self;
        c.hint = Some(hint.to_owned());
        c
    }
}

#[derive(Debug)]
pub struct Report {
    pub scope: Scope,
    pub checks: Vec<Check>,
    pub ready: bool,
}

/// Whether any check failed.
pub open spec fn any_failed(list: Seq<CheckView>) -> bool {
    exists|i: int| 0 <= i < list.len() && (#[trigger] list[i]).status == CheckStatus::Fail
}

impl Report {
    /// A report is ready when nothing in it failed.
    pub fn new(scope: Scope, checks: Vec<Check>) -> (r: Report)
        ensures
            r.scope == scope,
            r.checks == checks,
            r.ready == !any_failed(views(checks@)),
    {
        let ready = failure_at(&checks).is_none();
        Report { scope, checks, ready }
    }

    /// The first check that makes Weave unusable, if any.
    pub fn first_failure(&self) -> (c: Option<&Check>)
        ensures
            match c {
                Some(x) => exists|i: int|
                    0 <= i < self.checks@.len() && *x == #[trigger] self.checks@[i] && x@.status
                        == CheckStatus::Fail && !any_failed(views(self.checks@).take(i)),
                None => !any_failed(views(self.checks@)),
            },
    {
        match failure_at(&self.checks) {
            Some(i) => Some(&self.checks[i]),
            None => None,
        }
    }
}

fn failure_at(checks: &Vec<Check>) -> (at: Option<usize>)
    ensures
        match at {
            Some(i) => i < checks@.len() && checks@[i as int]@.status == CheckStatus::Fail
                && !any_failed(views(checks@).take(i as int)) && any_failed(views(checks@)),
            None => !any_failed(views(checks@)),
        },
{
    let mut i: usize = 0;
    while i < checks.len()
        invariant
            i <= checks@.len(),
            forall|k: int|
                0 <= k < i ==> (#[trigger] views(checks@)[k]).status != CheckStatus::Fail,
        decreases checks@.len() - i,
    {
        if checks[i].status == CheckStatus::Fail {
            proof {
                assert(views(checks@)[i as int].status == CheckStatus::Fail);
                assert forall|k: int| 0 <= k < i implies (#[trigger] views(checks@).take(
                    i as int,
                )[k]).status != CheckStatus::Fail by {
                    assert(views(checks@).take(i as int)[k] == views(checks@)[k]);
                }
            }
            return Some(i);
        }
        i = i + 1;
    }
    None
}

// ---------------------------------------------------------------------------
// Installation checks
// ---------------------------------------------------------------------------

/// What came of launching a program for its version.
#[derive(Debug)]
pub enum Launch {
    /// It answered.
    Reported(String),
    /// It ended with this status.
    Exited(String),
    /// It could not be started.
    NotStarted(String),
}

/// The running executable.
#[derive(Debug)]
pub struct ExeFacts {
    pub path: Option<String>,
    pub readable: bool,
    /// Whether it is an installed `weave` and not a program that links it.
    pub as_weave: bool,
    pub launch: Launch,
    pub version: String,
}

pub open spec fn executable_check(x: ExeFacts) -> CheckView {
    let name = "Weave executable"@;
    match x.path {
        None => failed(name, "The running executable has no path."@).hinted("Reinstall Weave."@),
        Some(exe) => if !x.readable {
            failed(name, exe@ + " cannot be read."@).hinted("Reinstall Weave."@)
        } else if !x.as_weave {
            passed(name, exe@ + " (weave "@ + x.version@ + ")"@)
        } else {
            match x.launch {
                Launch::Reported(said) => if contains_text(said@, x.version@) {
                    passed(name, exe@ + " ("@ + said@ + ")"@)
                } else {
                    failed(
                        name,
                        exe@ + " reports `"@ + said@ + "`, but this build is "@ + x.version@ + "."@,
                    ).hinted("Reinstall Weave; the installation looks mixed."@)
                },
                Launch::Exited(status) => failed(
                    name,
                    exe@ + " exited with "@ + status@ + " when asked for its version."@,
                ).hinted("Reinstall Weave."@),
                Launch::NotStarted(e) => failed(
                    name,
                    exe@ + " could not be started: "@ + e@,
                ).hinted("Reinstall Weave."@),
            }
        },
    }
}

/// The running executable is where it says it is, and starts.
pub fn check_executable(x: &ExeFacts) -> (c: Check)
    ensures
        c@ == executable_check(*x),
{
    let name = "Weave executable";
    let exe = match &x.path {
        None => {
            return fail(name, "The running executable has no path.").with_hint("Reinstall Weave.");
        },
        Some(e) => e,
    };
    let mut d = exe.clone();
    if !x.readable {
        d.push_str(" cannot be read.");
        return fail(name, d.as_str()).with_hint("Reinstall Weave.");
    }
    if !x.as_weave {
        d.push_str(" (weave ");
        d.push_str(x.version.as_str());
        d.push_str(")");
        return pass(name, d.as_str());
    }
    match &x.launch {
        Launch::Reported(said) => {
            if has_text(said.as_str(), x.version.as_str()) {
                d.push_str(" (");
                d.push_str(said.as_str());
                d.push_str(")");
                pass(name, d.as_str())
            } else {
                d.push_str(" reports `");
                d.push_str(said.as_str());
                d.push_str("`, but this build is ");
                d.push_str(x.version.as_str());
                d.push_str(".");
                fail(name, d.as_str()).with_hint("Reinstall Weave; the installation looks mixed.")
            }
        },
        Launch::Exited(status) => {
            d.push_str(" exited with ");
            d.push_str(status.as_str());
            d.push_str(" when asked for its version.");
            fail(name, d.as_str()).with_hint("Reinstall Weave.")
        },
        Launch::NotStarted(e) => {
            d.push_str(" could not be started: ");
            d.push_str(e.as_str());
            fail(name, d.as_str()).with_hint("Reinstall Weave.")
        },
    }
}

pub open spec fn platform_check(m: Machine) -> CheckView {
    if is_supported(m.os@, m.arch@) {
        passed("Platform"@, platform_form(m))
    } else {
        failed(
            "Platform"@,
            platform_form(m) + " is not a supported Weave platform."@,
        ).hinted(
            "Weave supports Windows x86_64, macOS arm64/x86_64 and Linux x86_64/arm64."@,
        )
    }
}

pub fn check_platform(m: &Machine) -> (c: Check)
    ensures
        c@ == platform_check(*m),
{
    let mut d = platform_description(m);
    if supported_platform(m) {
        pass("Platform", d.as_str())
    } else {
        d.push_str(" is not a supported Weave platform.");
        fail("Platform", d.as_str()).with_hint(
            "Weave supports Windows x86_64, macOS arm64/x86_64 and Linux x86_64/arm64.",
        )
    }
}

/// What came of running a helper for one short question.
#[derive(Debug)]
pub enum BriefRun {
    Said(String),
    /// It ran and failed.
    Errored,
    /// It could not be run at all.
    NotStarted(String),
}

/// The answer of a helper: the first line of what it printed, on its error
/// stream where its output is blank.
pub open spec fn brief_form(stdout: Seq<char>, stderr: Seq<char>) -> Seq<char> {
    let text = if trim(stdout).len() == 0 {
        trim(stderr)
    } else {
        trim(stdout)
    };
    first_line(text)
}

pub fn run_briefly(success: bool, stdout: &str, stderr: &str) -> (r: BriefRun)
    ensures
        match r {
            BriefRun::Said(s) => success && s@ == brief_form(stdout@, stderr@),
            BriefRun::Errored => !success,
            BriefRun::NotStarted(_) => false,
        },
{
    if !success {
        return BriefRun::Errored;
    }
    let mut text = trim_text(stdout);
    if text.as_str().is_empty() {
        text = trim_text(stderr);
    }
    BriefRun::Said(first_line_text(text.as_str()))
}

/// The notice of the bundled `cloudflared`.
#[derive(Debug)]
pub struct Notice {
    pub path: String,
    pub readable: bool,
}

/// What was found of the bundle.
#[derive(Debug)]
pub struct BundleFacts {
    pub weave_version: String,
    pub bundle: Option<Bundle>,
    pub found: Option<Cloudflared>,
    /// Whether `WEAVE_CLOUDFLARED` is set.
    pub override_set: bool,
    pub support_dirs: Vec<String>,
    pub run: BriefRun,
    pub notice: Option<Notice>,
}

pub open spec fn package_check(b: Option<Bundle>, version: Seq<char>) -> CheckView {
    let name = "Weave package"@;
    match b {
        Some(x) => if x.weave_version@ != version {
            failed(
                name,
                x.path@ + " describes Weave "@ + x.weave_version@ + ", but this executable is "@
                    + version + "."@,
            ).hinted("Reinstall Weave; the installation is mixed."@)
        } else {
            passed(name, x.package@ + " (weave "@ + version + ")"@)
        },
        None => warned(
            name,
            "no package manifest; this is a build from source, not an installed package"@,
        ),
    }
}

pub fn check_package(b: &Option<Bundle>, version: &str) -> (c: Check)
    ensures
        c@ == package_check(*b, version@),
{
    match b {
        Some(x) => {
            if !same_text(x.weave_version.as_str(), version) {
                let mut d = x.path.clone();
                d.push_str(" describes Weave ");
                d.push_str(x.weave_version.as_str());
                d.push_str(", but this executable is ");
                d.push_str(version);
                d.push_str(".");
                fail("Weave package", d.as_str()).with_hint(
                    "Reinstall Weave; the installation is mixed.",
                )
            } else {
                let mut d = x.package.clone();
                d.push_str(" (weave ");
                d.push_str(version);
                d.push_str(")");
                pass("Weave package", d.as_str())
            }
        },
        None => warn(
            "Weave package",
            "no package manifest; this is a build from source, not an installed package",
        ),
    }
}

/// At most the first three of a list.
pub open spec fn head(list: Seq<Seq<char>>, n: nat) -> Seq<Seq<char>> {
    if list.len() <= n {
        list
    } else {
        list.take(n as int)
    }
}

fn head_texts(list: &Vec<String>, n: usize) -> (out: Vec<String>)
    ensures
        texts(out@) == head(texts(list@), n as nat),
{
    let mut out: Vec<String> = Vec::new();
    let ghost all = head(texts(list@), n as nat);
    let mut i: usize = 0;
    proof {
        assert(texts(out@) =~= all.take(0));
    }
    while i < list.len() && i < n
        invariant
            all == head(texts(list@), n as nat),
            i <= all.len(),
            i <= list@.len(),
            texts(out@) == all.take(i as int),
        decreases list@.len() - i,
    {
        let ghost before = out@;
        let t = list[i].clone();
        out.push(t);
        proof {
            lemma_texts_push(before, t);
            assert(all.take(i + 1) =~= all.take(i as int).push(t@));
        }
        i = i + 1;
    }
    proof {
        assert(all.take(i as int) =~= all);
    }
    out
}

/// No `cloudflared` was found.
pub open spec fn absent_check(f: BundleFacts) -> CheckView {
    let name = "Bundled cloudflared"@;
    if f.override_set {
        failed(name, "WEAVE_CLOUDFLARED points at a file that does not exist."@).hinted(
            "Unset WEAVE_CLOUDFLARED to use the copy bundled with Weave."@,
        )
    } else if f.bundle is Some {
        failed(
            name,
            "no cloudflared in this installation (looked in "@ + join(
                head(texts(f.support_dirs@), 3),
                ", "@,
            ) + ")."@,
        ).hinted("Reinstall Weave; the package is incomplete."@)
    } else {
        warned(name, "not bundled and none on PATH; remote sessions need it"@).hinted(
            "Install a Weave package, or use `weave host --lan`."@,
        )
    }
}

fn check_absent(f: &BundleFacts) -> (c: Check)
    ensures
        c@ == absent_check(*f),
{
    let name = "Bundled cloudflared";
    if f.override_set {
        fail(name, "WEAVE_CLOUDFLARED points at a file that does not exist.").with_hint(
            "Unset WEAVE_CLOUDFLARED to use the copy bundled with Weave.",
        )
    } else if f.bundle.is_some() {
        let shown = head_texts(&f.support_dirs, 3);
        let mut d = "no cloudflared in this installation (looked in ".to_owned();
        d.push_str(join_text(&shown, ", ").as_str());
        d.push_str(").");
        fail(name, d.as_str()).with_hint("Reinstall Weave; the package is incomplete.")
    } else {
        warn(name, "not bundled and none on PATH; remote sessions need it").with_hint(
            "Install a Weave package, or use `weave host --lan`.",
        )
    }
}

/// Which `cloudflared` is used.
pub open spec fn used_check(found: Cloudflared, packaged: bool) -> CheckView {
    let name = "Bundled cloudflared"@;
    if packaged && found.source != CloudflaredSource::Bundled {
        warned(
            name,
            "using "@ + found.path@ + " ("@ + found.source.description()
                + ") instead of the bundled copy"@,
        ).hinted("Unset WEAVE_CLOUDFLARED to use the copy Weave ships."@)
    } else {
        passed(name, found.path@ + " ("@ + found.source.description() + ")"@)
    }
}

fn check_used(found: &Cloudflared, packaged: bool) -> (c: Check)
    ensures
        c@ == used_check(*found, packaged),
{
    let name = "Bundled cloudflared";
    if packaged && found.source != CloudflaredSource::Bundled {
        let mut d = "using ".to_owned();
        d.push_str(found.path.as_str());
        d.push_str(" (");
        d.push_str(found.source.describe());
        d.push_str(") instead of the bundled copy");
        warn(name, d.as_str()).with_hint("Unset WEAVE_CLOUDFLARED to use the copy Weave ships.")
    } else {
        let mut d = found.path.clone();
        d.push_str(" (");
        d.push_str(found.source.describe());
        d.push_str(")");
        pass(name, d.as_str())
    }
}

/// Present is not the same as usable: the one that was found has to run, and
/// a bundled one has to be the version its package says.
pub open spec fn runs_check(found: Cloudflared, bundle: Option<Bundle>, run: BriefRun) -> CheckView {
    let name = "cloudflared runs"@;
    match run {
        BriefRun::Errored => failed(name, found.path@ + " exited with an error."@).hinted(
            "Reinstall Weave; the bundled cloudflared is damaged."@,
        ),
        BriefRun::NotStarted(e) => failed(
            name,
            found.path@ + " could not be started: "@ + e@,
        ).hinted("Reinstall Weave; the bundled cloudflared is damaged."@),
        BriefRun::Said(reported) => if bundle matches Some(b) && found.source
            == CloudflaredSource::Bundled && !contains_text(reported@, b.cloudflared_version@) {
            failed(
                name,
                "the package ships cloudflared "@ + bundle->0.cloudflared_version@
                    + ", but the binary reports `"@ + reported@ + "`."@,
            ).hinted("Reinstall Weave; the installation is mixed."@)
        } else {
            passed(name, reported@)
        },
    }
}

pub fn check_cloudflared_runs(found: &Cloudflared, bundle: &Option<Bundle>, run: &BriefRun) -> (c:
    Check)
    ensures
        c@ == runs_check(*found, *bundle, *run),
{
    let name = "cloudflared runs";
    match run {
        BriefRun::Errored => {
            let mut d = found.path.clone();
            d.push_str(" exited with an error.");
            fail(name, d.as_str()).with_hint("Reinstall Weave; the bundled cloudflared is damaged.")
        },
        BriefRun::NotStarted(e) => {
            let mut d = found.path.clone();
            d.push_str(" could not be started: ");
            d.push_str(e.as_str());
            fail(name, d.as_str()).with_hint("Reinstall Weave; the bundled cloudflared is damaged.")
        },
        BriefRun::Said(reported) => {
            match bundle {
                Some(b) => {
                    if found.source == CloudflaredSource::Bundled && !has_text(
                        reported.as_str(),
                        b.cloudflared_version.as_str(),
                    ) {
                        let mut d = "the package ships cloudflared ".to_owned();
                        d.push_str(b.cloudflared_version.as_str());
                        d.push_str(", but the binary reports `");
                        d.push_str(reported.as_str());
                        d.push_str("`.");
                        return fail(name, d.as_str()).with_hint(
                            "Reinstall Weave; the installation is mixed.",
                        );
                    }
                },
                None => {},
            }
            pass(name, reported.as_str())
        },
    }
}

/// The third-party notices a package is required to carry.
pub open spec fn licenses_check(notice: Option<Notice>) -> CheckView {
    let name = "Third-party licences"@;
    match notice {
        Some(n) => if n.readable {
            passed(
                name,
                match parent_of(n.path@) {
                    Some(d) => d,
                    None => n.path@,
                },
            )
        } else {
            failed(name, n.path@ + " cannot be read."@).hinted("Reinstall Weave."@)
        },
        None => failed(
            name,
            "the bundled cloudflared licence and notice are missing."@,
        ).hinted("Reinstall Weave; the package is incomplete."@),
    }
}

pub fn check_licenses(notice: &Option<Notice>) -> (c: Check)
    ensures
        c@ == licenses_check(*notice),
{
    let name = "Third-party licences";
    match notice {
        Some(n) => {
            if n.readable {
                match parent_dir(n.path.as_str()) {
                    Some(d) => pass(name, d.as_str()),
                    None => pass(name, n.path.as_str()),
                }
            } else {
                let mut d = n.path.clone();
                d.push_str(" cannot be read.");
                fail(name, d.as_str()).with_hint("Reinstall Weave.")
            }
        },
        None => fail(name, "the bundled cloudflared licence and notice are missing.").with_hint(
            "Reinstall Weave; the package is incomplete.",
        ),
    }
}

/// The bundled runtime dependencies.
pub open spec fn bundle_checks(f: BundleFacts) -> Seq<CheckView> {
    let package = package_check(f.bundle, f.weave_version@);
    match f.found {
        None => seq![package, absent_check(f)],
        Some(found) => {
            let run = seq![
                package,
                used_check(found, f.bundle is Some),
                runs_check(found, f.bundle, f.run),
            ];
            if f.bundle is Some {
                run.push(licenses_check(f.notice))
            } else {
                run
            }
        },
    }
}

pub fn check_bundle(f: &BundleFacts) -> (list: Vec<Check>)
    ensures
        views(list@) == bundle_checks(*f),
{
    let mut list: Vec<Check> = Vec::new();
    list.push(check_package(&f.bundle, f.weave_version.as_str()));
    match &f.found {
        None => {
            list.push(check_absent(f));
        },
        Some(found) => {
            list.push(check_used(found, f.bundle.is_some()));
            list.push(check_cloudflared_runs(found, &f.bundle, &f.run));
            if f.bundle.is_some() {
                list.push(check_licenses(&f.notice));
            }
        },
    }
    proof {
        assert(views(list@) =~= bundle_checks(*f));
    }
    list
}

/// The oldest Git whose plumbing behaves the way Weave relies on.
pub const MIN_GIT_MAJOR: u32 = 2;

pub const MIN_GIT_MINOR: u32 = 25;

/// Whether a word begins like a version: digits up to the first dot.
pub open spec fn is_version(w: Seq<char>) -> bool {
    all_digits(w.take(find_char(w, '.')))
}

/// The first word of a text that begins like a version.
pub open spec fn version_word(s: Seq<char>) -> Option<Seq<char>>
    decreases trim_start(s).len(),
{
    let t = trim_start(s);
    if t.len() == 0 {
        None
    } else {
        let w = t.take(find_space(t));
        let rest = t.skip(find_space(t));
        if is_version(w) {
            Some(w)
        } else if trim_start(rest).len() < t.len() {
            version_word(rest)
        } else {
            None
        }
    }
}

pub open spec fn small(n: Option<nat>) -> Option<u32> {
    match n {
        Some(v) => if v <= u32::MAX {
            Some(v as u32)
        } else {
            None
        },
        None => None,
    }
}

/// A text without what is no digit at its end.
pub open spec fn up_to_digit(s: Seq<char>) -> Seq<char>
    decreases s.len(),
{
    if s.len() > 0 && !is_digit(s.last()) {
        up_to_digit(s.drop_last())
    } else {
        s
    }
}

/// The version numbers of a version word.
pub open spec fn version_of(w: Seq<char>) -> Option<(u32, u32)> {
    let parts = crate::text::split(w, '.');
    match small(number(parts[0])) {
        None => None,
        Some(major) => Some(
            (
                major,
                if parts.len() > 1 {
                    match small(number(up_to_digit(parts[1]))) {
                        Some(minor) => minor,
                        None => 0,
                    }
                } else {
                    0
                },
            ),
        ),
    }
}

/// The version of Git, as it reports it.
pub open spec fn git_version(text: Seq<char>) -> Option<(u32, u32)> {
    match version_word(text) {
        Some(w) => version_of(w),
        None => None,
    }
}

fn begins_like_version(chars: &Vec<char>, from: usize, to: usize) -> (yes: bool)
    requires
        from <= to <= chars@.len(),
    ensures
        yes == is_version(chars@.subrange(from as int, to as int)),
{
    let ghost w = chars@.subrange(from as int, to as int);
    let mut i: usize = from;
    while i < to && chars[i] != '.'
        invariant
            from <= i <= to <= chars@.len(),
            w == chars@.subrange(from as int, to as int),
            forall|k: int| 0 <= k < i - from ==> w[k] != '.' && is_digit(#[trigger] w[k]),
        decreases to - i,
    {
        proof {
            assert(w[i - from] == chars@[i as int]);
        }
        if !digit(chars[i]) {
            proof {
                crate::text::lemma_find_char(w, '.');
                let at = find_char(w, '.');
                if at <= i - from {
                    if at < i - from {
                        assert(w[at] != '.');
                    }
                }
                assert(w.take(at)[i - from] == w[i - from]);
            }
            return false;
        }
        i = i + 1;
    }
    proof {
        if i < to {
            assert(w[i - from] == chars@[i as int]);
        }
        crate::text::lemma_find_char_is(w, '.', i - from);
        let head = w.take(i - from);
        assert forall|k: int| 0 <= k < head.len() implies is_digit(#[trigger] head[k]) by {
            assert(head[k] == w[k]);
        }
    }
    i > from
}

fn find_version_word(s: &str) -> (w: Option<String>)
    ensures
        opt_view(w) == version_word(s@),
{
    let chars = chars_of(s);
    let mut at: usize = 0;
    proof {
        assert(s@.skip(0) =~= s@);
    }
    while at < chars.len()
        invariant
            chars@ == s@,
            at <= chars@.len(),
            version_word(s@) == version_word(s@.skip(at as int)),
        decreases chars@.len() - at,
    {
        let ghost rest = s@.skip(at as int);
        let mut from: usize = at;
        while from < chars.len() && crate::text::space(chars[from])
            invariant
                chars@ == s@,
                rest == s@.skip(at as int),
                at <= from <= chars@.len(),
                forall|k: int| 0 <= k < from - at ==> is_space(#[trigger] rest[k]),
            decreases chars@.len() - from,
        {
            proof {
                assert(rest[from - at] == chars@[from as int]);
            }
            from = from + 1;
        }
        proof {
            if from < chars.len() {
                assert(rest[from - at] == chars@[from as int]);
            }
            crate::text::lemma_trim_start(rest, from - at);
            assert(rest.skip(from - at) =~= s@.skip(from as int));
        }
        if from == chars.len() {
            proof {
                assert(trim_start(rest).len() == 0);
            }
            return None;
        }
        let ghost t = s@.skip(from as int);
        let mut to: usize = from;
        while to < chars.len() && !crate::text::space(chars[to])
            invariant
                chars@ == s@,
                t == s@.skip(from as int),
                from <= to <= chars@.len(),
                forall|k: int| 0 <= k < to - from ==> !is_space(#[trigger] t[k]),
            decreases chars@.len() - to,
        {
            proof {
                assert(t[to - from] == chars@[to as int]);
            }
            to = to + 1;
        }
        proof {
            if to < chars.len() {
                assert(t[to - from] == chars@[to as int]);
            }
            crate::text::lemma_find_space_is(t, to - from);
            assert(t.take(to - from) =~= chars@.subrange(from as int, to as int));
            assert(t.skip(to - from) =~= s@.skip(to as int));
            lemma_trim_shorter(s@.skip(to as int));
            assert(to > from);
        }
        if begins_like_version(&chars, from, to) {
            return Some(text_of(&chars, from, to));
        }
        at = to;
    }
    proof {
        assert(s@.skip(at as int).len() == 0);
        assert(trim_start(s@.skip(at as int)).len() == 0);
    }
    None
}

proof fn lemma_trim_shorter(s: Seq<char>)
    ensures
        trim_start(s).len() <= s.len(),
    decreases s.len(),
{
    if s.len() > 0 && is_space(s[0]) {
        lemma_trim_shorter(s.drop_first());
    }
}

fn strip_to_digit(s: &str) -> (t: String)
    ensures
        t@ == up_to_digit(s@),
{
    let chars = chars_of(s);
    let mut n: usize = chars.len();
    proof {
        assert(s@.take(n as int) =~= s@);
    }
    while n > 0 && !digit(chars[n - 1])
        invariant
            chars@ == s@,
            n <= chars@.len(),
            up_to_digit(s@) == up_to_digit(s@.take(n as int)),
        decreases n,
    {
        proof {
            assert(s@.take(n as int).last() == chars@[n - 1]);
            assert(s@.take(n as int).drop_last() =~= s@.take(n - 1));
        }
        n = n - 1;
    }
    proof {
        if n > 0 {
            assert(s@.take(n as int).last() == chars@[n - 1]);
        }
    }
    let t = text_of(&chars, 0, n);
    proof {
        assert(t@ =~= s@.take(n as int));
    }
    t
}

fn parse_small(s: &str) -> (n: Option<u32>)
    ensures
        n == small(number(s@)),
{
    match parse_number(s, 4294967295) {
        Some(v) => Some(v as u32),
        None => None,
    }
}

pub fn parse_git_version(text: &str) -> (v: Option<(u32, u32)>)
    ensures
        v == git_version(text@),
{
    let w = match find_version_word(text) {
        Some(w) => w,
        None => {
            return None;
        },
    };
    let parts = split_text(w.as_str(), '.');
    proof {
        lemma_split_nonempty(w@);
        assert(texts(parts@).len() == parts@.len());
        assert(texts(parts@)[0] == parts@[0]@);
    }
    match parse_small(parts[0].as_str()) {
        None => None,
        Some(major) => {
            let minor: u32 = if parts.len() > 1 {
                proof {
                    assert(texts(parts@)[1] == parts@[1]@);
                }
                match parse_small(strip_to_digit(parts[1].as_str()).as_str()) {
                    Some(m) => m,
                    None => 0,
                }
            } else {
                0
            };
            Some((major, minor))
        },
    }
}

proof fn lemma_split_nonempty(s: Seq<char>)
    ensures
        crate::text::split(s, '.').len() > 0,
{
    reveal_with_fuel(crate::text::split, 1);
}

pub open spec fn older(v: (u32, u32)) -> bool {
    v.0 < MIN_GIT_MAJOR || (v.0 == MIN_GIT_MAJOR && v.1 < MIN_GIT_MINOR)
}

/// What `git --version` said, when it could be asked.
pub open spec fn git_check(reported: Option<Seq<char>>) -> CheckView {
    match reported {
        None => failed("Git"@, "Git was not found on PATH."@).hinted(
            "Install Git and reopen your terminal."@,
        ),
        Some(said) => match git_version(said) {
            Some(v) => if older(v) {
                failed(
                    "Git"@,
                    said + " is older than the Git "@ + decimal(MIN_GIT_MAJOR as nat) + "."@
                        + decimal(MIN_GIT_MINOR as nat) + " Weave needs."@,
                ).hinted("Upgrade Git."@)
            } else {
                passed("Git"@, said)
            },
            None => warned("Git"@, said + " (version could not be parsed)"@),
        },
    }
}

pub fn check_git(reported: &Option<String>) -> (c: Check)
    ensures
        c@ == git_check(opt_view(*reported)),
{
    match reported {
        None => fail("Git", "Git was not found on PATH.").with_hint(
            "Install Git and reopen your terminal.",
        ),
        Some(said) => match parse_git_version(said.as_str()) {
            Some((major, minor)) => {
                if major < MIN_GIT_MAJOR || (major == MIN_GIT_MAJOR && minor < MIN_GIT_MINOR) {
                    let mut d = said.clone();
                    d.push_str(" is older than the Git ");
                    d.push_str(decimal_text(MIN_GIT_MAJOR as u64).as_str());
                    d.push_str(".");
                    d.push_str(decimal_text(MIN_GIT_MINOR as u64).as_str());
                    d.push_str(" Weave needs.");
                    fail("Git", d.as_str()).with_hint("Upgrade Git.")
                } else {
                    pass("Git", said.as_str())
                }
            },
            None => {
                let mut d = said.clone();
                d.push_str(" (version could not be parsed)");
                warn("Git", d.as_str())
            },
        },
    }
}

/// The version of the linked SQLite, or why it cannot be opened.
#[derive(Debug)]
pub enum Sqlite {
    Version(String),
    Unusable(String),
}

pub open spec fn sqlite_check(s: Sqlite) -> CheckView {
    match s {
        Sqlite::Version(v) => passed("SQLite"@, "bundled "@ + v@),
        Sqlite::Unusable(e) => failed("SQLite"@, e@).hinted("Reinstall Weave."@),
    }
}

pub fn check_sqlite(s: &Sqlite) -> (c: Check)
    ensures
        c@ == sqlite_check(*s),
{
    match s {
        Sqlite::Version(v) => {
            let mut d = "bundled ".to_owned();
            d.push_str(v.as_str());
            pass("SQLite", d.as_str())
        },
        Sqlite::Unusable(e) => fail("SQLite", e.as_str()).with_hint("Reinstall Weave."),
    }
}

/// What was found of the installation.
#[derive(Debug)]
pub struct InstallFacts {
    pub machine: Machine,
    pub exe: ExeFacts,
    pub bundle: BundleFacts,
    pub git: Option<String>,
    pub sqlite: Sqlite,
}

pub open spec fn install_checks(f: InstallFacts) -> Seq<CheckView> {
    seq![executable_check(f.exe), platform_check(f.machine)] + bundle_checks(f.bundle) + seq![
        git_check(opt_view(f.git)),
        sqlite_check(f.sqlite),
    ]
}

/// Everything that must be true of the installed product, independent of any
/// repository.
pub fn install_report(f: &InstallFacts) -> (r: Report)
    ensures
        r.scope == Scope::Install,
        views(r.checks@) == install_checks(*f),
        r.ready == !any_failed(install_checks(*f)),
{
    let mut list: Vec<Check> = Vec::new();
    list.push(check_executable(&f.exe));
    list.push(check_platform(&f.machine));
    let mut more = check_bundle(&f.bundle);
    let ghost first = views(list@);
    let ghost second = views(more@);
    proof {
        assert(first =~= seq![executable_check(f.exe), platform_check(f.machine)]);
    }
    list.append(&mut more);
    proof {
        assert(views(list@) =~= first + second);
    }
    list.push(check_git(&f.git));
    list.push(check_sqlite(&f.sqlite));
    proof {
        assert(views(list@) =~= install_checks(*f));
    }
    Report::new(Scope::Install, list)
}

// ---------------------------------------------------------------------------
// Repository checks
// ---------------------------------------------------------------------------

pub open spec fn disk_check(free: Option<u64>) -> CheckView {
    let name = "Disk space"@;
    match free {
        None => passed(name, "not reported by this platform"@),
        Some(n) => if n < DEFAULT_MAX_FILE_SIZE {
            warned(
                name,
                size_form(n) + " free, less than the "@ + size_form(DEFAULT_MAX_FILE_SIZE)
                    + " a single file may reach"@,
            ).hinted(
                "Free some space, or run the session with a smaller limit: `weave host --max-file-size <size>`."@,
            )
        } else if n < 3 * DEFAULT_MAX_FILE_SIZE {
            warned(name, size_form(n) + " free"@).hinted(
                "Weave keeps a working copy and a content-addressed copy of every file."@,
            )
        } else {
            passed(name, size_form(n) + " free"@)
        },
    }
}

/// Room to work in: one working copy, one blob, one partial. Never a hard
/// failure; the number is a snapshot.
pub fn check_disk_space(free: Option<u64>) -> (c: Check)
    ensures
        c@ == disk_check(free),
{
    let name = "Disk space";
    match free {
        None => pass(name, "not reported by this platform"),
        Some(n) => {
            let mut d = format_size(n);
            if n < DEFAULT_MAX_FILE_SIZE {
                d.push_str(" free, less than the ");
                d.push_str(format_size(DEFAULT_MAX_FILE_SIZE).as_str());
                d.push_str(" a single file may reach");
                return warn(name, d.as_str()).with_hint(
                    "Free some space, or run the session with a smaller limit: `weave host --max-file-size <size>`.",
                );
            }
            d.push_str(" free");
            if n < 3 * DEFAULT_MAX_FILE_SIZE {
                return warn(name, d.as_str()).with_hint(
                    "Weave keeps a working copy and a content-addressed copy of every file.",
                );
            }
            pass(name, d.as_str())
        },
    }
}

pub open spec fn git_dir_check(git_dir: Seq<char>, usable: bool) -> CheckView {
    if usable {
        passed("Git directory"@, git_dir)
    } else {
        failed("Git directory"@, git_dir + " is not a usable directory."@).hinted(
            "Weave cannot run in a repository whose .git state is broken."@,
        )
    }
}

pub fn check_git_dir(git_dir: &str, usable: bool) -> (c: Check)
    ensures
        c@ == git_dir_check(git_dir@, usable),
{
    if usable {
        pass("Git directory", git_dir)
    } else {
        let mut d = git_dir.to_owned();
        d.push_str(" is not a usable directory.");
        fail("Git directory", d.as_str()).with_hint(
            "Weave cannot run in a repository whose .git state is broken.",
        )
    }
}

pub open spec fn branch_check(branch: Result<Option<String>>) -> CheckView {
    match branch {
        Ok(Some(b)) => passed("Branch"@, b@),
        Ok(None) => failed("Branch"@, "HEAD is detached; Weave needs one branch."@).hinted(
            "Run `git switch <branch>`."@,
        ),
        Err(e) => failed("Branch"@, e@.message).hinted(
            "Check the repository with `git status`."@,
        ),
    }
}

pub fn check_branch(branch: &Result<Option<String>>) -> (c: Check)
    ensures
        c@ == branch_check(*branch),
{
    match branch {
        Ok(Some(b)) => pass("Branch", b.as_str()),
        Ok(None) => fail("Branch", "HEAD is detached; Weave needs one branch.").with_hint(
            "Run `git switch <branch>`.",
        ),
        Err(e) => fail("Branch", e.message.as_str()).with_hint(
            "Check the repository with `git status`.",
        ),
    }
}

pub open spec fn operation_check(op: Result<Option<String>>) -> CheckView {
    let name = "No Git operation in progress"@;
    match op {
        Ok(None) => passed(name, ""@),
        Ok(Some(op)) => failed(name, "A Git "@ + op@ + " is in progress."@).hinted(
            "Finish or abort it before starting a Weave session."@,
        ),
        Err(e) => warned(name, e@.message),
    }
}

pub fn check_no_operation(op: &Result<Option<String>>) -> (c: Check)
    ensures
        c@ == operation_check(*op),
{
    let name = "No Git operation in progress";
    match op {
        Ok(None) => pass(name, ""),
        Ok(Some(op)) => {
            let mut d = "A Git ".to_owned();
            d.push_str(op.as_str());
            d.push_str(" is in progress.");
            fail(name, d.as_str()).with_hint("Finish or abort it before starting a Weave session.")
        },
        Err(e) => warn(name, e.message.as_str()),
    }
}

pub open spec fn tree_check(dirty: Result<usize>, session_active: bool) -> CheckView {
    match dirty {
        Ok(n) => if n == 0 {
            passed("Working tree clean"@, ""@)
        } else if session_active {
            passed(
                "Working tree"@,
                decimal(n as nat) + " live change(s) ahead of the last publication"@,
            )
        } else {
            warned(
                "Working tree clean"@,
                decimal(n as nat)
                    + " uncommitted change(s). A new Weave session requires a clean tree."@,
            ).hinted("Commit, stash or discard them before starting a session."@)
        },
        Err(e) => warned("Working tree clean"@, e@.message),
    }
}

/// Working tree cleanliness: a requirement for a new session, and merely
/// informational once one is live.
pub fn check_working_tree(dirty: &Result<usize>, session_active: bool) -> (c: Check)
    ensures
        c@ == tree_check(*dirty, session_active),
{
    match dirty {
        Ok(n) => {
            if *n == 0 {
                return pass("Working tree clean", "");
            }
            let mut d = decimal_text(*n as u64);
            if session_active {
                d.push_str(" live change(s) ahead of the last publication");
                pass("Working tree", d.as_str())
            } else {
                d.push_str(" uncommitted change(s). A new Weave session requires a clean tree.");
                warn("Working tree clean", d.as_str()).with_hint(
                    "Commit, stash or discard them before starting a session.",
                )
            }
        },
        Err(e) => warn("Working tree clean", e.message.as_str()),
    }
}

pub open spec fn feature_lines(list: Seq<UnsupportedView>) -> Seq<Seq<char>> {
    list.map_values(|u: UnsupportedView| u.feature + ": "@ + u.detail)
}

pub open spec fn supported_checks(found: Result<Vec<Unsupported>>) -> Seq<CheckView> {
    let name = "Supported repository features"@;
    match found {
        Ok(list) => if list@.len() == 0 {
            seq![passed("Supported Git attributes"@, ""@), passed(name, ""@)]
        } else {
            seq![
                failed(name, join(feature_lines(views(list@)), "; "@)).hinted(
                    "Weave V1 refuses these features rather than corrupting them."@,
                ),
            ]
        },
        Err(e) => seq![warned(name, e@.message)],
    }
}

pub fn check_supported(found: &Result<Vec<Unsupported>>) -> (out: Vec<Check>)
    ensures
        views(out@) == supported_checks(*found),
{
    let name = "Supported repository features";
    let mut out: Vec<Check> = Vec::new();
    match found {
        Ok(list) => {
            if list.len() == 0 {
                out.push(pass("Supported Git attributes", ""));
                out.push(pass(name, ""));
            } else {
                let mut lines: Vec<String> = Vec::new();
                let ghost all = feature_lines(views(list@));
                let mut i: usize = 0;
                proof {
                    assert(texts(lines@) =~= all.take(0));
                }
                while i < list.len()
                    invariant
                        all == feature_lines(views(list@)),
                        i <= list@.len(),
                        texts(lines@) == all.take(i as int),
                    decreases list@.len() - i,
                {
                    let ghost before = lines@;
                    let mut line = list[i].feature.clone();
                    line.push_str(": ");
                    line.push_str(list[i].detail.as_str());
                    lines.push(line);
                    proof {
                        lemma_texts_push(before, line);
                        assert(line@ == all[i as int]);
                        assert(all.take(i + 1) =~= all.take(i as int).push(line@));
                    }
                    i = i + 1;
                }
                proof {
                    assert(all.take(i as int) =~= all);
                }
                out.push(
                    fail(name, join_text(&lines, "; ").as_str()).with_hint(
                        "Weave V1 refuses these features rather than corrupting them.",
                    ),
                );
            }
        },
        Err(e) => {
            out.push(warn(name, e.message.as_str()));
        },
    }
    proof {
        assert(views(out@) =~= supported_checks(*found));
    }
    out
}

/// The last portable path of a list under a collision key.
pub open spec fn last_under(list: Seq<Seq<char>>, key: Seq<char>) -> Option<Seq<char>>
    decreases list.len(),
{
    if list.len() == 0 {
        None
    } else if path_fault(list.last()) is None && key_of(list.last()) == key {
        Some(list.last())
    } else {
        last_under(list.drop_last(), key)
    }
}

/// What is wrong with the paths of a list.
pub open spec fn path_problems(list: Seq<Seq<char>>) -> Seq<Seq<char>>
    decreases list.len(),
{
    if list.len() == 0 {
        Seq::empty()
    } else {
        let before = path_problems(list.drop_last());
        let raw = list.last();
        match path_fault(raw) {
            Some(why) => before.push(raw + ": "@ + path_error(raw, why).message),
            None => match last_under(list.drop_last(), key_of(raw)) {
                Some(other) => if other != raw {
                    before.push(raw + " collides with "@ + other)
                } else {
                    before
                },
                None => before,
            },
        }
    }
}

pub open spec fn portable_check(listed: Result<Vec<String>>) -> CheckView {
    let name = "Portable paths"@;
    match listed {
        Err(e) => warned(name, e@.message),
        Ok(list) => {
            let problems = path_problems(texts(list@));
            if problems.len() == 0 {
                passed(name, decimal(list@.len()) + " file(s)"@)
            } else {
                warned(name, join(head(problems, 10), "; "@)).hinted(
                    "These files stay out of the session; everything else synchronizes normally."@,
                )
            }
        },
    }
}

fn find_last_under(list: &Vec<String>, upto: usize, key: &str) -> (p: Option<String>)
    requires
        upto <= list@.len(),
    ensures
        opt_view(p) == last_under(texts(list@).take(upto as int), key@),
{
    let ghost all = texts(list@);
    let mut i: usize = upto;
    while i > 0
        invariant
            all == texts(list@),
            i <= upto <= list@.len(),
            last_under(all.take(upto as int), key@) == last_under(all.take(i as int), key@),
        decreases i,
    {
        proof {
            assert(all.take(i as int).last() == list@[i - 1]@);
            assert(all.take(i as int).drop_last() =~= all.take(i - 1));
        }
        match RepoPath::new(list[i - 1].as_str()) {
            Ok(path) => {
                if same_text(path.collision_key().as_str(), key) {
                    return Some(list[i - 1].clone());
                }
            },
            Err(_) => {},
        }
        i = i - 1;
    }
    None
}

fn find_path_problems(list: &Vec<String>) -> (out: Vec<String>)
    ensures
        texts(out@) == path_problems(texts(list@)),
{
    let mut out: Vec<String> = Vec::new();
    let ghost all = texts(list@);
    let mut i: usize = 0;
    proof {
        assert(texts(out@) =~= path_problems(all.take(0)));
    }
    while i < list.len()
        invariant
            all == texts(list@),
            i <= list@.len(),
            texts(out@) == path_problems(all.take(i as int)),
        decreases list@.len() - i,
    {
        let ghost before = out@;
        proof {
            assert(all.take(i + 1).drop_last() =~= all.take(i as int));
            assert(all.take(i + 1).last() == list@[i as int]@);
        }
        match RepoPath::new(list[i].as_str()) {
            Ok(path) => {
                let key = path.collision_key();
                match find_last_under(list, i, key.as_str()) {
                    Some(other) => {
                        if !same_text(other.as_str(), list[i].as_str()) {
                            let mut line = list[i].clone();
                            line.push_str(" collides with ");
                            line.push_str(other.as_str());
                            out.push(line);
                            proof {
                                lemma_texts_push(before, line);
                            }
                        }
                    },
                    None => {},
                }
            },
            Err(e) => {
                let mut line = list[i].clone();
                line.push_str(": ");
                line.push_str(e.message.as_str());
                out.push(line);
                proof {
                    lemma_texts_push(before, line);
                }
            },
        }
        i = i + 1;
    }
    proof {
        assert(all.take(i as int) =~= all);
    }
    out
}

/// Path portability across Windows, macOS and Linux participants.
pub fn check_portable_paths(listed: &Result<Vec<String>>) -> (c: Check)
    ensures
        c@ == portable_check(*listed),
{
    let name = "Portable paths";
    match listed {
        Err(e) => warn(name, e.message.as_str()),
        Ok(list) => {
            let problems = find_path_problems(list);
            proof {
                assert(texts(problems@).len() == problems@.len());
            }
            if problems.len() == 0 {
                let mut d = decimal_text(list.len() as u64);
                d.push_str(" file(s)");
                pass(name, d.as_str())
            } else {
                let shown = head_texts(&problems, 10);
                warn(name, join_text(&shown, "; ").as_str()).with_hint(
                    "These files stay out of the session; everything else synchronizes normally.",
                )
            }
        },
    }
}

pub open spec fn storage_check(storage: Result<String>) -> CheckView {
    match storage {
        Ok(d) => passed("Weave storage"@, d@),
        Err(e) => failed("Weave storage"@, e@.message).hinted(
            "Weave needs to write inside .git/weave."@,
        ),
    }
}

pub fn check_storage(storage: &Result<String>) -> (c: Check)
    ensures
        c@ == storage_check(*storage),
{
    match storage {
        Ok(d) => pass("Weave storage", d.as_str()),
        Err(e) => fail("Weave storage", e.message.as_str()).with_hint(
            "Weave needs to write inside .git/weave.",
        ),
    }
}

pub open spec fn writable_check(root: Seq<char>, fault: Option<Seq<char>>) -> CheckView {
    let name = "Working tree writable"@;
    match fault {
        None => passed(name, root),
        Some(e) => failed(name, root + " is not writable: "@ + e).hinted(
            "Weave writes shared content into the working tree."@,
        ),
    }
}

/// A read-only checkout is a blocker rather than something to discover
/// mid-session.
pub fn check_working_tree_writable(root: &str, fault: &Option<String>) -> (c: Check)
    ensures
        c@ == writable_check(root@, opt_view(*fault)),
{
    let name = "Working tree writable";
    match fault {
        None => pass(name, root),
        Some(e) => {
            let mut d = root.to_owned();
            d.push_str(" is not writable: ");
            d.push_str(e.as_str());
            fail(name, d.as_str()).with_hint("Weave writes shared content into the working tree.")
        },
    }
}

pub open spec fn daemon_check(other: Option<WeaveError>) -> CheckView {
    match other {
        None => passed("No other Weave daemon"@, ""@),
        Some(e) => failed("No other Weave daemon"@, e@.message).hinted(
            "Run `weave status` to inspect it, or `weave stop` to shut it down."@,
        ),
    }
}

/// Another daemon already owning this working tree.
pub fn check_no_other_daemon(other: &Option<WeaveError>) -> (c: Check)
    ensures
        c@ == daemon_check(*other),
{
    match other {
        None => pass("No other Weave daemon", ""),
        Some(e) => fail("No other Weave daemon", e.message.as_str()).with_hint(
            "Run `weave status` to inspect it, or `weave stop` to shut it down.",
        ),
    }
}

/// What was found of a repository.
#[derive(Debug)]
pub struct RepoFacts {
    pub root: String,
    pub git_dir: String,
    pub git_dir_usable: bool,
    pub branch: Result<Option<String>>,
    pub operation: Result<Option<String>>,
    pub dirty: Result<usize>,
    pub session_active: bool,
    pub unsupported: Result<Vec<Unsupported>>,
    pub paths: Result<Vec<String>>,
    pub storage: Result<String>,
    pub free_space: Option<u64>,
    pub write_fault: Option<String>,
    pub other_daemon: Option<WeaveError>,
}

pub open spec fn no_repository(e: WeaveError) -> CheckView {
    failed("Repository"@, e@.message).hinted("Run Weave from inside a Git working tree."@)
}

fn check_no_repository(e: &WeaveError) -> (c: Check)
    ensures
        c@ == no_repository(*e),
{
    fail("Repository", e.message.as_str()).with_hint("Run Weave from inside a Git working tree.")
}

pub open spec fn repository_checks(found: Result<RepoFacts>) -> Seq<CheckView> {
    match found {
        Err(e) => seq![no_repository(e)],
        Ok(f) => seq![
            passed("Repository"@, f.root@),
            git_dir_check(f.git_dir@, f.git_dir_usable),
            branch_check(f.branch),
            operation_check(f.operation),
            tree_check(f.dirty, f.session_active),
        ] + supported_checks(f.unsupported) + seq![
            portable_check(f.paths),
            storage_check(f.storage),
            disk_check(f.free_space),
            writable_check(f.root@, opt_view(f.write_fault)),
        ],
    }
}

pub fn check_repository(found: &Result<RepoFacts>) -> (list: Vec<Check>)
    ensures
        views(list@) == repository_checks(*found),
{
    let mut list: Vec<Check> = Vec::new();
    match found {
        Err(e) => {
            list.push(check_no_repository(e));
        },
        Ok(f) => {
            list.push(pass("Repository", f.root.as_str()));
            list.push(check_git_dir(f.git_dir.as_str(), f.git_dir_usable));
            list.push(check_branch(&f.branch));
            list.push(check_no_operation(&f.operation));
            list.push(check_working_tree(&f.dirty, f.session_active));
            let ghost first = views(list@);
            let mut more = check_supported(&f.unsupported);
            let ghost second = views(more@);
            list.append(&mut more);
            proof {
                assert(views(list@) =~= first + second);
            }
            list.push(check_portable_paths(&f.paths));
            list.push(check_storage(&f.storage));
            list.push(check_disk_space(f.free_space));
            list.push(check_working_tree_writable(f.root.as_str(), &f.write_fault));
        },
    }
    proof {
        assert(views(list@) =~= repository_checks(*found));
    }
    list
}

// ---------------------------------------------------------------------------
// The full report
// ---------------------------------------------------------------------------

/// Installation and this repository: what `weave doctor` prints.
pub fn run(install: &InstallFacts, found: &Result<RepoFacts>) -> (r: Report)
    ensures
        r.scope == Scope::Full,
        views(r.checks@) == install_checks(*install) + repository_checks(*found),
        r.ready == !any_failed(install_checks(*install) + repository_checks(*found)),
{
    let first = install_report(install);
    let mut list = first.checks;
    let ghost head = views(list@);
    let mut more = check_repository(found);
    let ghost tail = views(more@);
    list.append(&mut more);
    proof {
        assert(views(list@) =~= head + tail);
    }
    Report::new(Scope::Full, list)
}

/// This repository only.
pub fn repository_report(found: &Result<RepoFacts>) -> (r: Report)
    ensures
        r.scope == Scope::Full,
        views(r.checks@) == repository_checks(*found),
        r.ready == !any_failed(repository_checks(*found)),
{
    Report::new(Scope::Full, check_repository(found))
}

pub open spec fn mark_of(s: CheckStatus) -> Seq<char> {
    match s {
        CheckStatus::Pass => "\u{2713}"@,
        CheckStatus::Warn => "!"@,
        CheckStatus::Fail => "\u{2717}"@,
    }
}

/// The lines of one check.
pub open spec fn check_lines(c: CheckView) -> Seq<Seq<char>> {
    let line = if c.detail.len() == 0 {
        mark_of(c.status) + " "@ + c.name
    } else {
        mark_of(c.status) + " "@ + c.name + " — "@ + c.detail
    };
    if c.status != CheckStatus::Pass && c.hint is Some {
        seq![line, "    "@ + c.hint->0]
    } else {
        seq![line]
    }
}

pub open spec fn all_lines(list: Seq<CheckView>) -> Seq<Seq<char>>
    decreases list.len(),
{
    if list.len() == 0 {
        Seq::empty()
    } else {
        all_lines(list.drop_last()) + check_lines(list.last())
    }
}

pub open spec fn verdict(ready: bool, scope: Scope) -> Seq<char> {
    if !ready {
        "Weave is not ready. Fix the items marked \u{2717} above."@
    } else if scope == Scope::Install {
        "The Weave installation is healthy."@
    } else {
        "Weave is ready."@
    }
}

/// A report as a person reads it, line by line.
pub fn print_report(r: &Report) -> (lines: Vec<String>)
    ensures
        texts(lines@) == all_lines(views(r.checks@)) + seq![""@, verdict(r.ready, r.scope)],
{
    let mut lines: Vec<String> = Vec::new();
    let ghost all = views(r.checks@);
    let mut i: usize = 0;
    proof {
        assert(texts(lines@) =~= all_lines(all.take(0)));
    }
    while i < r.checks.len()
        invariant
            all == views(r.checks@),
            i <= r.checks@.len(),
            texts(lines@) == all_lines(all.take(i as int)),
        decreases r.checks@.len() - i,
    {
        let ghost before = texts(lines@);
        proof {
            assert(all.take(i + 1).drop_last() =~= all.take(i as int));
            assert(all.take(i + 1).last() == r.checks@[i as int]@);
        }
        let c = &r.checks[i];
        let mut line = match c.status {
            CheckStatus::Pass => "\u{2713}",
            CheckStatus::Warn => "!",
            CheckStatus::Fail => "\u{2717}",
        }.to_owned();
        line.push_str(" ");
        line.push_str(c.name.as_str());
        if !c.detail.as_str().is_empty() {
            line.push_str(" — ");
            line.push_str(c.detail.as_str());
        }
        let ghost first = line@;
        lines.push(line);
        proof {
            assert(texts(lines@) =~= before.push(first));
        }
        let ghost mut added = seq![first];
        if c.status != CheckStatus::Pass {
            match &c.hint {
                Some(hint) => {
                    let mut extra = "    ".to_owned();
                    extra.push_str(hint.as_str());
                    let ghost second = extra@;
                    lines.push(extra);
                    proof {
                        assert(texts(lines@) =~= before.push(first).push(second));
                        added = seq![first, second];
                    }
                },
                None => {},
            }
        }
        proof {
            assert(added == check_lines(c@));
            assert(texts(lines@) =~= before + added);
        }
        i = i + 1;
    }
    proof {
        assert(all.take(i as int) =~= all);
    }
    let ghost before = texts(lines@);
    lines.push("".to_owned());
    let end = if !r.ready {
        "Weave is not ready. Fix the items marked \u{2717} above.".to_owned()
    } else {
        match r.scope {
            Scope::Install => "The Weave installation is healthy.".to_owned(),
            Scope::Full => "Weave is ready.".to_owned(),
        }
    };
    lines.push(end);
    proof {
        assert(texts(lines@) =~= before + seq![""@, verdict(r.ready, r.scope)]);
    }
    lines
}

// ---------------------------------------------------------------------------
// Preflight
// ---------------------------------------------------------------------------

/// What a session is about to do, which decides whether `cloudflared` matters.
#[derive(Debug, Clone, Copy, PartialEq, Eq, Structural)]
pub enum Intent {
    /// `weave host`, exposing a tunnel.
    HostRemote,
    /// `weave host --lan` or `weave host --local`.
    HostLocal,
    /// `weave join`, which never launches `cloudflared`.
    Join,
}

/// What blocks the session, and what is merely worth saying.
#[derive(Debug)]
pub struct Preflight {
    pub blockers: Vec<Check>,
    pub warnings: Vec<Check>,
}

impl Preflight {
    pub fn ok(&self) -> (yes: bool)
        ensures
            yes == (self.blockers@.len() == 0),
    {
        self.blockers.len() == 0
    }
}

pub open spec fn host_cloudflared_check(found: Option<Cloudflared>) -> CheckView {
    match found {
        Some(c) => passed("cloudflared"@, c.path@ + " ("@ + c.source.description() + ")"@),
        None => failed("cloudflared"@, "cloudflared was not found."@).hinted(
            "Install Weave from a package, which bundles it, or start a local-network session with `weave host --lan`."@,
        ),
    }
}

/// Hosting remotely launches `cloudflared` at once, so a missing one blocks.
pub fn check_cloudflared_for_host(found: &Option<Cloudflared>) -> (c: Check)
    ensures
        c@ == host_cloudflared_check(*found),
{
    match found {
        Some(x) => {
            let mut d = x.path.clone();
            d.push_str(" (");
            d.push_str(x.source.describe());
            d.push_str(")");
            pass("cloudflared", d.as_str())
        },
        None => fail("cloudflared", "cloudflared was not found.").with_hint(
            "Install Weave from a package, which bundles it, or start a local-network session with `weave host --lan`.",
        ),
    }
}

/// The checks of a preflight. Git comes first, then the repository: whoever
/// stands in the wrong directory should be told that.
pub open spec fn preflight_checks(
    git: Option<Seq<char>>,
    found: Result<RepoFacts>,
    intent: Intent,
    cloudflared: Option<Cloudflared>,
) -> Seq<CheckView> {
    let first = git_check(git);
    if first.status == CheckStatus::Fail {
        seq![first]
    } else {
        match found {
            Err(e) => seq![first, no_repository(e)],
            Ok(f) => {
                let all = seq![
                    first,
                    git_dir_check(f.git_dir@, f.git_dir_usable),
                    branch_check(f.branch),
                    operation_check(f.operation),
                ] + supported_checks(f.unsupported) + seq![
                    storage_check(f.storage),
                    writable_check(f.root@, opt_view(f.write_fault)),
                    daemon_check(f.other_daemon),
                    portable_check(f.paths),
                ];
                if intent == Intent::HostRemote {
                    all.push(host_cloudflared_check(cloudflared))
                } else {
                    all
                }
            },
        }
    }
}

pub open spec fn with_status(list: Seq<CheckView>, status: CheckStatus) -> Seq<CheckView>
    decreases list.len(),
{
    if list.len() == 0 {
        Seq::empty()
    } else if list.last().status == status {
        with_status(list.drop_last(), status).push(list.last())
    } else {
        with_status(list.drop_last(), status)
    }
}

/// Part the checks: failures block, warnings are said, passes are dropped.
pub fn split(checks: Vec<Check>) -> (p: Preflight)
    ensures
        views(p.blockers@) == with_status(views(checks@), CheckStatus::Fail),
        views(p.warnings@) == with_status(views(checks@), CheckStatus::Warn),
{
    let mut blockers: Vec<Check> = Vec::new();
    let mut warnings: Vec<Check> = Vec::new();
    let ghost all = views(checks@);
    let mut left = checks;
    let ghost mut done: int = 0;
    proof {
        assert(views(blockers@) =~= with_status(all.take(0), CheckStatus::Fail));
        assert(views(warnings@) =~= with_status(all.take(0), CheckStatus::Warn));
        assert(all.skip(0) =~= all);
    }
    while left.len() > 0
        invariant
            0 <= done <= all.len(),
            left@.len() == all.len() - done,
            views(left@) == all.skip(done),
            views(blockers@) == with_status(all.take(done), CheckStatus::Fail),
            views(warnings@) == with_status(all.take(done), CheckStatus::Warn),
        decreases left@.len(),
    {
        let ghost before = left@;
        let ghost b0 = blockers@;
        let ghost w0 = warnings@;
        proof {
            assert(all.take(done + 1).drop_last() =~= all.take(done));
            assert(views(left@)[0] == left@[0]@);
            assert(all.skip(done)[0] == all[done]);
        }
        let c = left.remove(0);
        proof {
            assert(views(left@) =~= views(before).remove(0));
            assert(all.skip(done).remove(0) =~= all.skip(done + 1));
        }
        match c.status {
            CheckStatus::Fail => {
                blockers.push(c);
                proof {
                    lemma_views_push(b0, c);
                }
            },
            CheckStatus::Warn => {
                warnings.push(c);
                proof {
                    lemma_views_push(w0, c);
                }
            },
            CheckStatus::Pass => {},
        }
        proof {
            done = done + 1;
        }
    }
    proof {
        assert(all.take(done) =~= all);
    }
    Preflight { blockers, warnings }
}

/// Run the checks that must hold before a session starts.
pub fn preflight(
    git: &Option<String>,
    found: &Result<RepoFacts>,
    intent: Intent,
    cloudflared: &Option<Cloudflared>,
) -> (p: Preflight)
    ensures
        views(p.blockers@) == with_status(
            preflight_checks(opt_view(*git), *found, intent, *cloudflared),
            CheckStatus::Fail,
        ),
        views(p.warnings@) == with_status(
            preflight_checks(opt_view(*git), *found, intent, *cloudflared),
            CheckStatus::Warn,
        ),
{
    let mut list: Vec<Check> = Vec::new();
    let first = check_git(git);
    let stop = first.status == CheckStatus::Fail;
    list.push(first);
    if !stop {
        match found {
            Err(e) => {
                list.push(check_no_repository(e));
            },
            Ok(f) => {
                list.push(check_git_dir(f.git_dir.as_str(), f.git_dir_usable));
                list.push(check_branch(&f.branch));
                list.push(check_no_operation(&f.operation));
                let ghost head = views(list@);
                let mut more = check_supported(&f.unsupported);
                let ghost tail = views(more@);
                list.append(&mut more);
                proof {
                    assert(views(list@) =~= head + tail);
                }
                list.push(check_storage(&f.storage));
                list.push(check_working_tree_writable(f.root.as_str(), &f.write_fault));
                list.push(check_no_other_daemon(&f.other_daemon));
                list.push(check_portable_paths(&f.paths));
                if intent == Intent::HostRemote {
                    list.push(check_cloudflared_for_host(cloudflared));
                }
            },
        }
    }
    proof {
        assert(views(list@) =~= preflight_checks(opt_view(*git), *found, intent, *cloudflared));
    }
    split(list)
}

pub open spec fn is_determiner(w: Seq<char>) -> bool {
    w == "This"@ || w == "That"@ || w == "The"@ || w == "A"@ || w == "An"@
}

/// A check's sentence in the middle of another one: only a leading determiner
/// is lowered.
pub open spec fn clause_form(detail: Seq<char>) -> Seq<char> {
    let at = find_char(detail, ' ');
    if at < detail.len() && is_determiner(detail.take(at)) {
        lower_ascii(detail.take(at)) + " "@ + detail.skip(at + 1)
    } else {
        detail
    }
}

/// Fold a check's standalone sentence into the middle of another one.
pub fn as_clause(detail: &str) -> (s: String)
    ensures
        s@ == clause_form(detail@),
{
    let chars = chars_of(detail);
    let at = position_from(&chars, ' ', 0);
    proof {
        assert(detail@.skip(0) =~= detail@);
    }
    if at < chars.len() {
        let first = text_of(&chars, 0, at);
        proof {
            assert(first@ =~= detail@.take(at as int));
        }
        let w = first.as_str();
        if same_text(w, "This") || same_text(w, "That") || same_text(w, "The") || same_text(w, "A")
            || same_text(w, "An") {
            let rest = text_of(&chars, at + 1, chars.len());
            proof {
                assert(rest@ =~= detail@.skip(at + 1));
            }
            let mut s = lower_ascii_text(w);
            s.push_str(" ");
            s.push_str(rest.as_str());
            return s;
        }
    }
    detail.to_owned()
}

/// The error the first blocker becomes.
pub open spec fn blocked_error(c: CheckView) -> ErrorView {
    detailed(
        ErrorClass::RepositoryError,
        "Weave cannot start: "@ + clause_form(c.detail),
        (match c.hint {
            Some(h) => h + "\n\n"@,
            None => Seq::empty(),
        }) + "Run `weave doctor` for full diagnostics."@,
    )
}

/// Continue quietly, or refuse with one actionable line.
pub fn ensure_ready(p: &Preflight) -> (r: Result<()>)
    ensures
        match r {
            Ok(_) => p.blockers@.len() == 0,
            Err(e) => p.blockers@.len() > 0 && e@ == blocked_error(p.blockers@[0]@),
        },
{
    if p.blockers.len() == 0 {
        return Ok(());
    }
    let c = &p.blockers[0];
    let mut d = String::new();
    match &c.hint {
        Some(h) => {
            d.push_str(h.as_str());
            d.push_str("\n\n");
        },
        None => {},
    }
    d.push_str("Run `weave doctor` for full diagnostics.");
    let mut m = "Weave cannot start: ".to_owned();
    m.push_str(as_clause(c.detail.as_str()).as_str());
    proof {
        assert(d@ =~= blocked_error(c@).detail->0);
    }
    Err(repository(m.as_str()).with_detail(d))
}

pub open spec fn warning_form(c: CheckView) -> Seq<Seq<char>> {
    let line = "! "@ + c.name + " — "@ + c.detail;
    match c.hint {
        Some(h) => seq![line, "  "@ + h],
        None => seq![line],
    }
}

/// The lines of one warning.
pub fn warning_lines(c: &Check) -> (lines: Vec<String>)
    ensures
        texts(lines@) == warning_form(c@),
{
    let mut lines: Vec<String> = Vec::new();
    let mut line = "! ".to_owned();
    line.push_str(c.name.as_str());
    line.push_str(" — ");
    line.push_str(c.detail.as_str());
    lines.push(line);
    match &c.hint {
        Some(h) => {
            let mut extra = "  ".to_owned();
            extra.push_str(h.as_str());
            lines.push(extra);
        },
        None => {},
    }
    proof {
        assert(texts(lines@) =~= warning_form(c@));
    }
    lines
}

/// The first failed check of a list.
pub open spec fn first_failed(list: Seq<CheckView>) -> Option<CheckView>
    decreases list.len(),
{
    if list.len() == 0 {
        None
    } else if list[0].status == CheckStatus::Fail {
        Some(list[0])
    } else {
        first_failed(list.drop_first())
    }
}

proof fn lemma_first_failed(list: Seq<CheckView>, at: int)
    requires
        0 <= at <= list.len(),
        forall|k: int| 0 <= k < at ==> (#[trigger] list[k]).status != CheckStatus::Fail,
        at < list.len() ==> list[at].status == CheckStatus::Fail,
    ensures
        first_failed(list) == if at < list.len() {
            Some(list[at])
        } else {
            None
        },
    decreases list.len(),
{
    if at > 0 {
        let rest = list.drop_first();
        assert(list[0].status != CheckStatus::Fail);
        assert forall|k: int| 0 <= k < at - 1 implies (#[trigger] rest[k]).status
            != CheckStatus::Fail by {
            assert(rest[k] == list[k + 1]);
        }
        lemma_first_failed(rest, at - 1);
    }
}

pub open spec fn not_ready(scope: Scope, list: Seq<CheckView>) -> ErrorView {
    detailed(
        ErrorClass::RepositoryError,
        match scope {
            Scope::Install => "The Weave installation is not healthy."@,
            Scope::Full => "Weave is not ready in this repository."@,
        },
        match first_failed(list) {
            Some(c) => c.name + " — "@ + c.detail,
            None => "See the checklist above."@,
        },
    )
}

/// The error `weave doctor` itself returns when something is not ready.
pub fn not_ready_error(r: &Report) -> (e: WeaveError)
    ensures
        e@ == not_ready(r.scope, views(r.checks@)),
{
    let summary = match r.scope {
        Scope::Install => "The Weave installation is not healthy.",
        Scope::Full => "Weave is not ready in this repository.",
    };
    let at = failure_at(&r.checks);
    proof {
        let all = views(r.checks@);
        match at {
            Some(i) => {
                assert forall|k: int| 0 <= k < i implies (#[trigger] all[k]).status
                    != CheckStatus::Fail by {
                    assert(all.take(i as int)[k] == all[k]);
                }
                lemma_first_failed(all, i as int);
            },
            None => {
                lemma_first_failed(all, all.len() as int);
            },
        }
    }
    let d = match at {
        Some(i) => {
            let mut d = r.checks[i].name.clone();
            d.push_str(" — ");
            d.push_str(r.checks[i].detail.as_str());
            d
        },
        None => "See the checklist above.".to_owned(),
    };
    repository(summary).with_detail(d)
}

/// A warning never blocks, and a failure always does.
pub proof fn only_failures_block(list: Seq<CheckView>)
    ensures
        with_status(list, CheckStatus::Fail).len() > 0 <==> any_failed(list),
    decreases list.len(),
{
    if list.len() > 0 {
        let front = list.drop_last();
        only_failures_block(front);
        if any_failed(list) {
            let i = choose|i: int|
                0 <= i < list.len() && (#[trigger] list[i]).status == CheckStatus::Fail;
            if i < front.len() {
                assert(front[i] == list[i]);
                assert(any_failed(front));
            }
        }
        if any_failed(front) {
            let i = choose|i: int|
                0 <= i < front.len() && (#[trigger] front[i]).status == CheckStatus::Fail;
            assert(list[i] == front[i]);
        }
        if list.last().status == CheckStatus::Fail {
            assert(list[list.len() - 1].status == CheckStatus::Fail);
        }
    }
}

} // verus!
