//! Where a packaged Weave installation keeps its own files.
//!
//! Weave ships `cloudflared` inside its own installation. Discovery is
//! anchored on the running executable rather than on `PATH`: whichever `weave`
//! was launched uses its own `cloudflared`.

use vstd::prelude::*;

use crate::path::{below, join_path};
use crate::text::{
    chars_of, distinct, lemma_texts_push, listed, opt_view, same_text, text_of, texts,
};

verus! {

/// The `cloudflared` release Weave bundles.
pub const CLOUDFLARED_VERSION: &'static str = "2026.8.2";

/// The file every Weave package drops beside its bundled `cloudflared`. Its
/// presence tells a package from a build.
pub const BUNDLE_MANIFEST: &'static str = "weave-bundle.json";

/// What a package recorded about itself when it was built.
#[derive(Debug)]
pub struct Bundle {
    /// The Weave version this package was built from.
    pub weave_version: String,
    /// The `cloudflared` release this package carries.
    pub cloudflared_version: String,
    /// Which package produced this installation.
    pub package: String,
    pub built_at: Option<String>,
    /// Where the manifest was read from.
    pub path: String,
}

/// How the `cloudflared` Weave is about to run was found.
#[derive(Debug, Clone, Copy, PartialEq, Eq, Structural)]
pub enum CloudflaredSource {
    /// Selected explicitly with `WEAVE_CLOUDFLARED`.
    Override,
    /// Shipped inside this Weave installation.
    Bundled,
    /// A system installation found on `PATH`; never what a packaged
    /// installation relies on.
    Path,
}

impl CloudflaredSource {
    pub open spec fn description(self) -> Seq<char> {
        match self {
            CloudflaredSource::Override => "WEAVE_CLOUDFLARED"@,
            CloudflaredSource::Bundled => "bundled with Weave"@,
            CloudflaredSource::Path => "found on PATH"@,
        }
    }

    pub fn describe(self) -> (s: &'static str)
        ensures
            s@ == self.description(),
    {
        match self {
            CloudflaredSource::Override => "WEAVE_CLOUDFLARED",
            CloudflaredSource::Bundled => "bundled with Weave",
            CloudflaredSource::Path => "found on PATH",
        }
    }
}

#[derive(Debug)]
pub struct Cloudflared {
    pub path: String,
    pub source: CloudflaredSource,
}

/// The machine Weave runs on, and where its executable is: the directory it
/// was launched from, and the one its links lead to.
#[derive(Debug)]
pub struct Machine {
    pub os: String,
    pub arch: String,
    pub exe_suffix: String,
    /// The name of the running executable, without its suffix.
    pub exe_stem: Option<String>,
    pub exe_dir: Option<String>,
    pub real_exe_dir: Option<String>,
}

/// True when the running executable looks like an installed `weave`.
pub fn running_as_weave(m: &Machine) -> (yes: bool)
    ensures
        yes == (opt_view(m.exe_stem) == Some("weave"@)),
{
    match &m.exe_stem {
        Some(s) => same_text(s.as_str(), "weave"),
        None => false,
    }
}

// ---------------------------------------------------------------------------
// Directories
// ---------------------------------------------------------------------------

/// A path without the separators at its end; the root stays.
pub open spec fn unslashed(p: Seq<char>) -> Seq<char>
    decreases p.len(),
{
    if p.len() > 1 && p.last() == '/' {
        unslashed(p.drop_last())
    } else {
        p
    }
}

/// The position of the last separator, or -1.
pub open spec fn last_slash(p: Seq<char>) -> int
    decreases p.len(),
{
    if p.len() == 0 {
        -1
    } else if p.last() == '/' {
        p.len() - 1
    } else {
        last_slash(p.drop_last())
    }
}

/// The directory a path is in.
pub open spec fn parent_of(path: Seq<char>) -> Option<Seq<char>> {
    let p = unslashed(path);
    let at = last_slash(p);
    if p.len() == 0 || p == seq!['/'] {
        None
    } else if at < 0 {
        Some(Seq::empty())
    } else if at == 0 {
        Some(seq!['/'])
    } else {
        Some(unslashed(p.take(at)))
    }
}

fn unslashed_len(chars: &Vec<char>, upto: usize) -> (n: usize)
    requires
        upto <= chars@.len(),
    ensures
        n <= upto,
        chars@.take(n as int) == unslashed(chars@.take(upto as int)),
{
    let mut n: usize = upto;
    while n > 1 && chars[n - 1] == '/'
        invariant
            n <= upto <= chars@.len(),
            unslashed(chars@.take(n as int)) == unslashed(chars@.take(upto as int)),
        decreases n,
    {
        proof {
            assert(chars@.take(n as int).last() == chars@[n - 1]);
            assert(chars@.take(n as int).drop_last() =~= chars@.take(n - 1));
        }
        n = n - 1;
    }
    proof {
        if n > 0 {
            assert(chars@.take(n as int).last() == chars@[n - 1]);
        }
    }
    n
}

/// The directory a path is in.
pub fn parent_dir(path: &str) -> (d: Option<String>)
    ensures
        opt_view(d) == parent_of(path@),
{
    let chars = chars_of(path);
    proof {
        assert(chars@.take(chars@.len() as int) =~= chars@);
    }
    let n = unslashed_len(&chars, chars.len());
    let ghost p = unslashed(path@);
    if n == 0 || (n == 1 && chars[0] == '/') {
        proof {
            if n == 1 {
                assert(p =~= seq!['/']);
            }
        }
        return None;
    }
    let mut i: usize = n;
    proof {
        assert(p.take(n as int) =~= p);
        if p == seq!['/'] {
            assert(p[0] == '/');
        }
    }
    while i > 0 && chars[i - 1] != '/'
        invariant
            chars@ == path@,
            p == chars@.take(n as int),
            i <= n <= chars@.len(),
            last_slash(p) == last_slash(p.take(i as int)),
        decreases i,
    {
        proof {
            assert(p.take(i as int).last() == chars@[i - 1]);
            assert(p.take(i as int).drop_last() =~= p.take(i - 1));
        }
        i = i - 1;
    }
    if i == 0 {
        let d = String::new();
        proof {
            assert(d@ =~= Seq::<char>::empty());
        }
        return Some(d);
    }
    proof {
        assert(p.take(i as int).last() == chars@[i - 1]);
    }
    if i == 1 {
        let d = "/".to_owned();
        proof {
            reveal_strlit("/");
            assert(d@ =~= seq!['/']);
        }
        return Some(d);
    }
    let m = unslashed_len(&chars, i - 1);
    let d = text_of(&chars, 0, m);
    proof {
        assert(d@ =~= chars@.take(m as int));
        assert(chars@.take(i - 1) =~= p.take(i - 1));
    }
    Some(d)
}

/// A list with one more directory, unless it is there.
pub open spec fn with_dir(dirs: Seq<Seq<char>>, dir: Seq<char>) -> Seq<Seq<char>> {
    if dirs.contains(dir) {
        dirs
    } else {
        dirs.push(dir)
    }
}

pub open spec fn with_dirs(dirs: Seq<Seq<char>>, more: Seq<Seq<char>>) -> Seq<Seq<char>>
    decreases more.len(),
{
    if more.len() == 0 {
        dirs
    } else {
        with_dir(with_dirs(dirs, more.drop_last()), more.last())
    }
}

pub fn push_unique(dirs: &mut Vec<String>, dir: String)
    ensures
        texts(final(dirs)@) == with_dir(texts(old(dirs)@), dir@),
{
    if !listed(dirs, dir.as_str()) {
        let ghost before = dirs@;
        dirs.push(dir);
        proof {
            lemma_texts_push(before, dir);
        }
    }
}

fn push_all(dirs: &mut Vec<String>, more: &Vec<String>)
    ensures
        texts(final(dirs)@) == with_dirs(texts(old(dirs)@), texts(more@)),
{
    let ghost start = texts(dirs@);
    let ghost all = texts(more@);
    let mut i: usize = 0;
    proof {
        assert(all.take(0) =~= Seq::<Seq<char>>::empty());
    }
    while i < more.len()
        invariant
            all == texts(more@),
            i <= more@.len(),
            texts(dirs@) == with_dirs(start, all.take(i as int)),
        decreases more@.len() - i,
    {
        proof {
            assert(all.take(i + 1).drop_last() =~= all.take(i as int));
            assert(all.take(i + 1).last() == more@[i as int]@);
        }
        push_unique(dirs, more[i].clone());
        i = i + 1;
    }
    proof {
        assert(all.take(i as int) =~= all);
    }
}

/// The directories that may hold the executable.
pub open spec fn exe_dirs_of(m: Machine) -> Seq<Seq<char>> {
    let first = match m.exe_dir {
        Some(d) => seq![d@],
        None => Seq::empty(),
    };
    match m.real_exe_dir {
        Some(d) => with_dir(first, d@),
        None => first,
    }
}

fn exe_dirs(m: &Machine) -> (dirs: Vec<String>)
    ensures
        texts(dirs@) == exe_dirs_of(*m),
{
    let mut dirs: Vec<String> = Vec::new();
    proof {
        assert(texts(dirs@) =~= Seq::<Seq<char>>::empty());
    }
    match &m.exe_dir {
        Some(d) => {
            let d = d.clone();
            dirs.push(d);
            proof {
                assert(texts(dirs@) =~= seq![d@]);
            }
        },
        None => {},
    }
    match &m.real_exe_dir {
        Some(d) => {
            push_unique(&mut dirs, d.clone());
        },
        None => {},
    }
    dirs
}

/// The support directories implied by one executable directory: itself, then
/// the Linux and the macOS layout below its prefix.
pub open spec fn support_of(exe_dir: Seq<char>) -> Seq<Seq<char>> {
    let own = seq![exe_dir];
    match parent_of(exe_dir) {
        Some(prefix) => with_dir(
            with_dir(own, below(below(prefix, "lib"@), "weave"@)),
            below(below(prefix, "libexec"@), "weave"@),
        ),
        None => own,
    }
}

/// The support directories implied by one executable directory.
pub fn support_dirs_for(exe_dir: &str) -> (dirs: Vec<String>)
    ensures
        texts(dirs@) == support_of(exe_dir@),
{
    let mut dirs: Vec<String> = Vec::new();
    let own = exe_dir.to_owned();
    dirs.push(own);
    proof {
        assert(texts(dirs@) =~= seq![exe_dir@]);
    }
    match parent_dir(exe_dir) {
        Some(prefix) => {
            let lib = join_path(prefix.as_str(), "lib");
            push_unique(&mut dirs, join_path(lib.as_str(), "weave"));
            let libexec = join_path(prefix.as_str(), "libexec");
            push_unique(&mut dirs, join_path(libexec.as_str(), "weave"));
        },
        None => {},
    }
    dirs
}

pub open spec fn support_of_all(exe_dirs: Seq<Seq<char>>) -> Seq<Seq<char>>
    decreases exe_dirs.len(),
{
    if exe_dirs.len() == 0 {
        Seq::empty()
    } else {
        with_dirs(support_of_all(exe_dirs.drop_last()), support_of(exe_dirs.last()))
    }
}

/// Every directory that may hold this installation's private runtime files, in
/// the order they should be trusted. The fixed ones serve a `weave` that was
/// copied elsewhere while its package is still installed.
pub open spec fn support_dirs_of(m: Machine) -> Seq<Seq<char>> {
    let dirs = support_of_all(exe_dirs_of(m));
    if m.os@ == "macos"@ {
        with_dir(dirs, "/usr/local/libexec/weave"@)
    } else if m.os@ == "linux"@ {
        with_dir(with_dir(dirs, "/usr/lib/weave"@), "/usr/local/lib/weave"@)
    } else {
        dirs
    }
}

/// Every directory that may hold this installation's private runtime files.
pub fn support_dirs(m: &Machine) -> (dirs: Vec<String>)
    ensures
        texts(dirs@) == support_dirs_of(*m),
{
    let mut dirs: Vec<String> = Vec::new();
    let homes = exe_dirs(m);
    let ghost all = texts(homes@);
    let mut i: usize = 0;
    proof {
        assert(texts(dirs@) =~= support_of_all(all.take(0)));
    }
    while i < homes.len()
        invariant
            all == texts(homes@),
            i <= homes@.len(),
            texts(dirs@) == support_of_all(all.take(i as int)),
        decreases homes@.len() - i,
    {
        proof {
            assert(all.take(i + 1).drop_last() =~= all.take(i as int));
            assert(all.take(i + 1).last() == homes@[i as int]@);
        }
        let more = support_dirs_for(homes[i].as_str());
        push_all(&mut dirs, &more);
        i = i + 1;
    }
    proof {
        assert(all.take(i as int) =~= all);
    }
    if same_text(m.os.as_str(), "macos") {
        push_unique(&mut dirs, "/usr/local/libexec/weave".to_owned());
    } else if same_text(m.os.as_str(), "linux") {
        push_unique(&mut dirs, "/usr/lib/weave".to_owned());
        push_unique(&mut dirs, "/usr/local/lib/weave".to_owned());
    }
    dirs
}

pub open spec fn licenses_below(support: Seq<Seq<char>>) -> Seq<Seq<char>>
    decreases support.len(),
{
    if support.len() == 0 {
        Seq::empty()
    } else {
        with_dir(licenses_below(support.drop_last()), below(support.last(), "licenses"@))
    }
}

/// Where a prefix keeps third-party notices.
pub open spec fn third_party(prefix: Seq<char>) -> Seq<char> {
    below(below(below(below(prefix, "share"@), "doc"@), "weave"@), "third-party"@)
}

pub open spec fn with_third_party(dirs: Seq<Seq<char>>, exe_dirs: Seq<Seq<char>>) -> Seq<Seq<char>>
    decreases exe_dirs.len(),
{
    if exe_dirs.len() == 0 {
        dirs
    } else {
        let before = with_third_party(dirs, exe_dirs.drop_last());
        match parent_of(exe_dirs.last()) {
            Some(prefix) => with_dir(before, third_party(prefix)),
            None => before,
        }
    }
}

/// Every directory that may hold third-party licence texts.
pub open spec fn licenses_dirs_of(m: Machine) -> Seq<Seq<char>> {
    let dirs = with_third_party(licenses_below(support_dirs_of(m)), exe_dirs_of(m));
    if m.os@ == "linux"@ {
        with_dir(dirs, "/usr/share/doc/weave/third-party"@)
    } else {
        dirs
    }
}

/// Every directory that may hold third-party licence texts.
pub fn licenses_dirs(m: &Machine) -> (dirs: Vec<String>)
    ensures
        texts(dirs@) == licenses_dirs_of(*m),
{
    let mut dirs: Vec<String> = Vec::new();
    let support = support_dirs(m);
    let ghost all = texts(support@);
    let mut i: usize = 0;
    proof {
        assert(texts(dirs@) =~= licenses_below(all.take(0)));
    }
    while i < support.len()
        invariant
            all == texts(support@),
            i <= support@.len(),
            texts(dirs@) == licenses_below(all.take(i as int)),
        decreases support@.len() - i,
    {
        proof {
            assert(all.take(i + 1).drop_last() =~= all.take(i as int));
            assert(all.take(i + 1).last() == support@[i as int]@);
        }
        push_unique(&mut dirs, join_path(support[i].as_str(), "licenses"));
        i = i + 1;
    }
    proof {
        assert(all.take(i as int) =~= all);
    }
    let ghost start = texts(dirs@);
    let homes = exe_dirs(m);
    let ghost places = texts(homes@);
    let mut k: usize = 0;
    proof {
        assert(texts(dirs@) == with_third_party(start, places.take(0)));
    }
    while k < homes.len()
        invariant
            places == texts(homes@),
            k <= homes@.len(),
            texts(dirs@) == with_third_party(start, places.take(k as int)),
        decreases homes@.len() - k,
    {
        proof {
            assert(places.take(k + 1).drop_last() =~= places.take(k as int));
            assert(places.take(k + 1).last() == homes@[k as int]@);
        }
        match parent_dir(homes[k].as_str()) {
            Some(prefix) => {
                let share = join_path(prefix.as_str(), "share");
                let doc = join_path(share.as_str(), "doc");
                let weave = join_path(doc.as_str(), "weave");
                push_unique(&mut dirs, join_path(weave.as_str(), "third-party"));
            },
            None => {},
        }
        k = k + 1;
    }
    proof {
        assert(places.take(k as int) =~= places);
    }
    if same_text(m.os.as_str(), "linux") {
        push_unique(&mut dirs, "/usr/share/doc/weave/third-party".to_owned());
    }
    dirs
}

// ---------------------------------------------------------------------------
// Files
// ---------------------------------------------------------------------------

/// The first file that exists among some names in some directories, directory
/// by directory.
pub open spec fn first_in_dir(dir: Seq<char>, names: Seq<Seq<char>>, files: Seq<Seq<char>>) -> Option<
    Seq<char>,
>
    decreases names.len(),
{
    if names.len() == 0 {
        None
    } else if files.contains(below(dir, names[0])) {
        Some(below(dir, names[0]))
    } else {
        first_in_dir(dir, names.drop_first(), files)
    }
}

pub open spec fn first_file(
    dirs: Seq<Seq<char>>,
    names: Seq<Seq<char>>,
    files: Seq<Seq<char>>,
) -> Option<Seq<char>>
    decreases dirs.len(),
{
    if dirs.len() == 0 {
        None
    } else if first_in_dir(dirs[0], names, files) is Some {
        first_in_dir(dirs[0], names, files)
    } else {
        first_file(dirs.drop_first(), names, files)
    }
}

fn find_in_dir(dir: &str, names: &Vec<String>, files: &Vec<String>) -> (f: Option<String>)
    ensures
        opt_view(f) == first_in_dir(dir@, texts(names@), texts(files@)),
{
    let ghost all = texts(names@);
    let mut i: usize = 0;
    proof {
        assert(all.skip(0) =~= all);
    }
    while i < names.len()
        invariant
            all == texts(names@),
            i <= names@.len(),
            first_in_dir(dir@, all, texts(files@)) == first_in_dir(
                dir@,
                all.skip(i as int),
                texts(files@),
            ),
        decreases names@.len() - i,
    {
        proof {
            assert(all.skip(i as int)[0] == names@[i as int]@);
            assert(all.skip(i as int).drop_first() =~= all.skip(i + 1));
        }
        let candidate = join_path(dir, names[i].as_str());
        if listed(files, candidate.as_str()) {
            return Some(candidate);
        }
        i = i + 1;
    }
    None
}

fn find_file(dirs: &Vec<String>, names: &Vec<String>, files: &Vec<String>) -> (f: Option<String>)
    ensures
        opt_view(f) == first_file(texts(dirs@), texts(names@), texts(files@)),
{
    let ghost all = texts(dirs@);
    let mut i: usize = 0;
    proof {
        assert(all.skip(0) =~= all);
    }
    while i < dirs.len()
        invariant
            all == texts(dirs@),
            i <= dirs@.len(),
            first_file(all, texts(names@), texts(files@)) == first_file(
                all.skip(i as int),
                texts(names@),
                texts(files@),
            ),
        decreases dirs@.len() - i,
    {
        proof {
            assert(all.skip(i as int)[0] == dirs@[i as int]@);
            assert(all.skip(i as int).drop_first() =~= all.skip(i + 1));
        }
        let found = find_in_dir(dirs[i].as_str(), names, files);
        if found.is_some() {
            return found;
        }
        i = i + 1;
    }
    None
}

/// The names a bundled `cloudflared` may have, most specific first.
pub open spec fn bundled_names_of(m: Machine) -> Seq<Seq<char>> {
    seq!["cloudflared-"@ + m.arch@ + m.exe_suffix@, "cloudflared"@ + m.exe_suffix@]
}

/// The names a bundled `cloudflared` may have, most specific first: a package
/// may carry one file per architecture.
pub fn bundled_names(m: &Machine) -> (names: Vec<String>)
    ensures
        texts(names@) == bundled_names_of(*m),
{
    let mut qualified = "cloudflared-".to_owned();
    qualified.push_str(m.arch.as_str());
    qualified.push_str(m.exe_suffix.as_str());
    let mut plain = "cloudflared".to_owned();
    plain.push_str(m.exe_suffix.as_str());
    let mut names: Vec<String> = Vec::new();
    names.push(qualified);
    names.push(plain);
    proof {
        assert(texts(names@) =~= bundled_names_of(*m));
    }
    names
}

/// The bundled `cloudflared`, ignoring `PATH` and the environment override.
/// `files` are the files that exist.
pub fn bundled_cloudflared(m: &Machine, files: &Vec<String>) -> (f: Option<String>)
    ensures
        opt_view(f) == first_file(support_dirs_of(*m), bundled_names_of(*m), texts(files@)),
{
    let dirs = support_dirs(m);
    bundled_cloudflared_in(m, &dirs, files)
}

/// [`bundled_cloudflared`], searching directories the caller chooses.
pub fn bundled_cloudflared_in(m: &Machine, dirs: &Vec<String>, files: &Vec<String>) -> (f: Option<
    String,
>)
    ensures
        opt_view(f) == first_file(texts(dirs@), bundled_names_of(*m), texts(files@)),
{
    let names = bundled_names(m);
    find_file(dirs, &names, files)
}

pub open spec fn notice_names() -> Seq<Seq<char>> {
    seq!["cloudflared/NOTICE"@, "cloudflared/LICENSE"@]
}

/// The bundled third-party notice for `cloudflared`, if this installation
/// carries one.
pub fn cloudflared_notice(m: &Machine, files: &Vec<String>) -> (f: Option<String>)
    ensures
        opt_view(f) == first_file(licenses_dirs_of(*m), notice_names(), texts(files@)),
{
    let dirs = licenses_dirs(m);
    let mut names: Vec<String> = Vec::new();
    names.push("cloudflared/NOTICE".to_owned());
    names.push("cloudflared/LICENSE".to_owned());
    proof {
        assert(texts(names@) =~= notice_names());
    }
    find_file(&dirs, &names, files)
}

/// The `cloudflared` this Weave should run: its path and how it was found. A
/// bundled copy wins over `PATH`; an override that points nowhere is a mistake,
/// not an invitation to use another binary.
pub open spec fn cloudflared_of(
    m: Machine,
    chosen: Option<Seq<char>>,
    on_path: Option<Seq<char>>,
    files: Seq<Seq<char>>,
) -> Option<(Seq<char>, CloudflaredSource)> {
    match chosen {
        Some(path) => if files.contains(path) {
            Some((path, CloudflaredSource::Override))
        } else {
            None
        },
        None => match first_file(support_dirs_of(m), bundled_names_of(m), files) {
            Some(path) => Some((path, CloudflaredSource::Bundled)),
            None => match on_path {
                Some(path) => Some((path, CloudflaredSource::Path)),
                None => None,
            },
        },
    }
}

pub open spec fn found_view(c: Option<Cloudflared>) -> Option<(Seq<char>, CloudflaredSource)> {
    match c {
        Some(x) => Some((x.path@, x.source)),
        None => None,
    }
}

/// Resolve the `cloudflared` this Weave should run. `chosen` is what
/// `WEAVE_CLOUDFLARED` says, `on_path` the one found on `PATH`, and `files` are
/// the files that exist.
pub fn cloudflared(
    m: &Machine,
    chosen: Option<String>,
    on_path: Option<String>,
    files: &Vec<String>,
) -> (c: Option<Cloudflared>)
    ensures
        found_view(c) == cloudflared_of(*m, opt_view(chosen), opt_view(on_path), texts(files@)),
{
    match chosen {
        Some(path) => {
            if listed(files, path.as_str()) {
                return Some(Cloudflared { path, source: CloudflaredSource::Override });
            }
            return None;
        },
        None => {},
    }
    match bundled_cloudflared(m, files) {
        Some(path) => {
            return Some(Cloudflared { path, source: CloudflaredSource::Bundled });
        },
        None => {},
    }
    match on_path {
        Some(path) => Some(Cloudflared { path, source: CloudflaredSource::Path }),
        None => None,
    }
}

// ---------------------------------------------------------------------------
// Platforms
// ---------------------------------------------------------------------------

pub open spec fn is_supported(os: Seq<char>, arch: Seq<char>) -> bool {
    ||| os == "windows"@ && arch == "x86_64"@
    ||| os == "macos"@ && (arch == "x86_64"@ || arch == "aarch64"@)
    ||| os == "linux"@ && (arch == "x86_64"@ || arch == "aarch64"@)
}

/// Whether Weave supports this operating system and processor architecture.
pub fn supported_platform(m: &Machine) -> (yes: bool)
    ensures
        yes == is_supported(m.os@, m.arch@),
{
    let x86 = same_text(m.arch.as_str(), "x86_64");
    let arm = same_text(m.arch.as_str(), "aarch64");
    (same_text(m.os.as_str(), "windows") && x86) || (same_text(m.os.as_str(), "macos") && (x86
        || arm)) || (same_text(m.os.as_str(), "linux") && (x86 || arm))
}

pub open spec fn platform_form(m: Machine) -> Seq<char> {
    m.os@ + " "@ + m.arch@
}

pub fn platform_description(m: &Machine) -> (s: String)
    ensures
        s@ == platform_form(*m),
{
    let mut s = m.os.clone();
    s.push_str(" ");
    s.push_str(m.arch.as_str());
    s
}

// ---------------------------------------------------------------------------
// What holds of the directories
// ---------------------------------------------------------------------------

proof fn lemma_with_dir(dirs: Seq<Seq<char>>, dir: Seq<char>)
    requires
        distinct(dirs),
    ensures
        distinct(with_dir(dirs, dir)),
        dirs.len() > 0 ==> with_dir(dirs, dir).len() > 0 && with_dir(dirs, dir)[0] == dirs[0],
{
    let all = with_dir(dirs, dir);
    assert forall|i: int, j: int| 0 <= i < j < all.len() implies #[trigger] all[i]
        != #[trigger] all[j] by {
        if j == dirs.len() {
            assert(dirs.contains(dirs[i]));
        }
    }
}

proof fn lemma_with_dirs(dirs: Seq<Seq<char>>, more: Seq<Seq<char>>)
    requires
        distinct(dirs),
    ensures
        distinct(with_dirs(dirs, more)),
        dirs.len() > 0 ==> with_dirs(dirs, more).len() > 0 && with_dirs(dirs, more)[0] == dirs[0],
        dirs.len() == 0 && more.len() > 0 ==> with_dirs(dirs, more).len() > 0 && with_dirs(
            dirs,
            more,
        )[0] == more[0],
    decreases more.len(),
{
    if more.len() > 0 {
        lemma_with_dirs(dirs, more.drop_last());
        lemma_with_dir(with_dirs(dirs, more.drop_last()), more.last());
    }
}

proof fn lemma_support_of(exe_dir: Seq<char>)
    ensures
        distinct(support_of(exe_dir)),
        support_of(exe_dir).len() > 0,
        support_of(exe_dir)[0] == exe_dir,
{
    let own = seq![exe_dir];
    match parent_of(exe_dir) {
        Some(prefix) => {
            lemma_with_dir(own, below(below(prefix, "lib"@), "weave"@));
            lemma_with_dir(
                with_dir(own, below(below(prefix, "lib"@), "weave"@)),
                below(below(prefix, "libexec"@), "weave"@),
            );
        },
        None => {},
    }
}

proof fn lemma_support_of_all(exe_dirs: Seq<Seq<char>>)
    ensures
        distinct(support_of_all(exe_dirs)),
        exe_dirs.len() > 0 ==> support_of_all(exe_dirs).len() > 0 && support_of_all(exe_dirs)[0]
            == exe_dirs[0],
    decreases exe_dirs.len(),
{
    if exe_dirs.len() > 0 {
        lemma_support_of_all(exe_dirs.drop_last());
        lemma_support_of(exe_dirs.last());
        lemma_with_dirs(support_of_all(exe_dirs.drop_last()), support_of(exe_dirs.last()));
    }
}

/// No directory is searched twice, and the executable's own comes first: a
/// `weave` uses what was installed with it.
pub proof fn the_own_installation_comes_first(m: Machine)
    ensures
        distinct(support_dirs_of(m)),
        m.exe_dir matches Some(d) ==> support_dirs_of(m).len() > 0 && support_dirs_of(m)[0] == d@,
{
    let homes = exe_dirs_of(m);
    let dirs = support_of_all(homes);
    lemma_support_of_all(homes);
    lemma_with_dir(dirs, "/usr/local/libexec/weave"@);
    lemma_with_dir(dirs, "/usr/lib/weave"@);
    lemma_with_dir(with_dir(dirs, "/usr/lib/weave"@), "/usr/local/lib/weave"@);
}

/// A bundled `cloudflared` wins over any other, and an override that points
/// nowhere finds nothing.
pub proof fn a_bundled_copy_wins(
    m: Machine,
    on_path: Option<Seq<char>>,
    files: Seq<Seq<char>>,
    chosen: Seq<char>,
)
    ensures
        first_file(support_dirs_of(m), bundled_names_of(m), files) matches Some(p)
            ==> cloudflared_of(m, None, on_path, files) == Some((p, CloudflaredSource::Bundled)),
        !files.contains(chosen) ==> cloudflared_of(m, Some(chosen), on_path, files) is None,
{
}

} // verus!
