//! Reading the working tree.
//!
//! The watcher is a hint; a full rescan is authoritative. Metadata may answer
//! for a file that has not moved since it was last hashed; the hash stays the
//! only truth.

use vstd::prelude::*;

use crate::blobs::{corrupt_blob, missing_blob, BlobStore};
use crate::error::{plain, unsupported, ErrorClass, ErrorView, Result, WeaveError};
use crate::gitx::{disk_mode, mode_for_disk_file};
use crate::model::{entry_ref, entry_view, kind_of, EntryView, FileEntry, GitMode, Ingested};
use crate::path::{
    ensure_no_indirection, indirection, key_of, path_error, path_fault, RepoPath, StepKind,
};
use crate::proto::{OversizeReport, ReportView};
use crate::store_client::{drop_record, locate, put, put_record, record_of, Placed};
use crate::text::{distinct, join, lemma_texts_push, same_text, split, texts, views};

verus! {

/// A path Weave refuses to synchronize, with an actionable reason.
#[derive(Debug)]
pub struct RejectedPath {
    pub path: String,
    pub reason: String,
}

/// A refused path as plain values.
pub struct RejectedView {
    pub path: Seq<char>,
    pub reason: Seq<char>,
}

impl View for RejectedPath {
    type V = RejectedView;

    open spec fn view(&self) -> RejectedView {
        RejectedView { path: self.path@, reason: self.reason@ }
    }
}

impl Clone for RejectedPath {
    fn clone(&self) -> (copy: RejectedPath)
        ensures
            copy == *self,
    {
        RejectedPath { path: self.path.clone(), reason: self.reason.clone() }
    }
}

/// Filesystem timestamp resolution, generously rounded up. Content whose
/// modification time is within this of being read is never cached.
pub const RACY_WINDOW_MS: i64 = 2000;

#[derive(Debug, Clone, Copy, PartialEq, Eq, Structural)]
pub enum MetaKind {
    File,
    Directory,
    Symlink,
    Other,
}

/// What the filesystem says of a path. Without a usable timestamp there is no
/// modification time.
#[derive(Debug, Clone, Copy, PartialEq, Eq, Structural)]
pub struct FileMeta {
    pub kind: MetaKind,
    pub size: u64,
    pub mtime_ms: Option<i64>,
}

// ---------------------------------------------------------------------------
// The metadata cache
// ---------------------------------------------------------------------------

/// What the filesystem said about a path the last time its content was hashed.
#[derive(Debug)]
pub struct Stat {
    pub path: RepoPath,
    pub size: u64,
    pub mtime_ms: i64,
    pub entry: FileEntry,
}

/// A cached path as plain values.
pub struct StatView {
    pub path: Seq<char>,
    pub size: u64,
    pub mtime_ms: i64,
    pub entry: EntryView,
}

impl View for Stat {
    type V = StatView;

    open spec fn view(&self) -> StatView {
        StatView {
            path: self.path@,
            size: self.size,
            mtime_ms: self.mtime_ms,
            entry: self.entry@,
        }
    }
}

impl Placed for Stat {
    open spec fn place_of(v: StatView) -> Seq<char> {
        v.path
    }

    fn place(&self) -> &RepoPath {
        &self.path
    }
}

/// A metadata cache in front of the hash. It is never persisted: every entry
/// is one this process hashed itself.
#[derive(Debug)]
pub struct ScanCache {
    entries: Vec<Stat>,
}

impl View for ScanCache {
    type V = Seq<StatView>;

    closed spec fn view(&self) -> Seq<StatView> {
        views(self.entries@)
    }
}

/// What the cache answers: the size and the time are exactly what they were,
/// and the content is still there to be sent or written.
pub open spec fn hit_rule(
    cache: Seq<StatView>,
    path: Seq<char>,
    meta: FileMeta,
    held: Map<Seq<char>, u64>,
) -> Option<EntryView> {
    match record_of::<Stat>(cache, path) {
        Some(s) => if s.size == meta.size && meta.mtime_ms == Some(s.mtime_ms) && held.contains_key(
            s.entry.blob_hash,
        ) {
            Some(s.entry)
        } else {
            None
        },
        None => None,
    }
}

/// What is remembered of a file that was just hashed. A file touched within
/// the resolution of its timestamp is racily clean and not remembered at all.
pub open spec fn remember_rule(
    cache: Seq<StatView>,
    path: Seq<char>,
    meta: FileMeta,
    entry: EntryView,
    now_ms: i64,
) -> Seq<StatView> {
    match meta.mtime_ms {
        None => drop_record::<Stat>(cache, path),
        Some(mtime_ms) => if now_ms - mtime_ms < RACY_WINDOW_MS {
            drop_record::<Stat>(cache, path)
        } else {
            put_record::<Stat>(cache, StatView { path, size: meta.size, mtime_ms, entry })
        },
    }
}

impl ScanCache {
    pub fn new() -> (c: ScanCache)
        ensures
            c@ == Seq::<StatView>::empty(),
    {
        let c = ScanCache { entries: Vec::new() };
        proof {
            assert(c@ =~= Seq::<StatView>::empty());
        }
        c
    }

    pub fn forget(&mut self, path: &RepoPath)
        ensures
            final(self)@ == drop_record::<Stat>(old(self)@, path@),
    {
        let at = locate(&self.entries, path);
        if at < self.entries.len() {
            let ghost before = self.entries@;
            let _ = self.entries.remove(at);
            proof {
                assert(views(self.entries@) =~= views(before).remove(at as int));
            }
        }
    }

    pub fn len(&self) -> (n: usize)
        ensures
            n == self@.len(),
    {
        self.entries.len()
    }

    pub fn is_empty(&self) -> (yes: bool)
        ensures
            yes == (self@.len() == 0),
    {
        self.entries.len() == 0
    }

    /// What the cache knows of a path. `held` says whether content is still in
    /// the blob store.
    pub fn hit(&self, path: &RepoPath, meta: &FileMeta, blobs: &BlobStore) -> (e: Option<FileEntry>)
        ensures
            entry_view(e) == hit_rule(self@, path@, *meta, blobs.sizes()),
    {
        let at = locate(&self.entries, path);
        if at >= self.entries.len() {
            return None;
        }
        let stat = &self.entries[at];
        let same_time = match meta.mtime_ms {
            Some(m) => m == stat.mtime_ms,
            None => false,
        };
        if stat.size != meta.size || !same_time {
            return None;
        }
        if !blobs.has(stat.entry.blob_hash.as_str()) {
            return None;
        }
        Some(stat.entry.clone())
    }

    /// Remember a file that was just hashed.
    pub fn remember(&mut self, path: &RepoPath, meta: &FileMeta, entry: &FileEntry, now_ms: i64)
        requires
            now_ms >= 0,
        ensures
            final(self)@ == remember_rule(old(self)@, path@, *meta, entry@, now_ms),
    {
        match meta.mtime_ms {
            None => {
                self.forget(path);
            },
            Some(mtime_ms) => {
                if mtime_ms > now_ms - RACY_WINDOW_MS {
                    self.forget(path);
                } else {
                    put(
                        &mut self.entries,
                        Stat {
                            path: path.clone(),
                            size: meta.size,
                            mtime_ms,
                            entry: entry.clone(),
                        },
                    );
                }
            },
        }
    }
}

// ---------------------------------------------------------------------------
// Reading one path
// ---------------------------------------------------------------------------

/// What a look at a path leads to.
#[derive(Debug)]
pub enum Looked {
    /// There is no file.
    Absent,
    /// The metadata answers.
    Known(FileEntry),
    /// The content has to be read; this is its mode.
    Ingest(GitMode),
}

/// What a look at a path leads to, as plain values.
pub enum LookedView {
    Absent,
    Known(EntryView),
    Ingest(GitMode),
}

impl View for Looked {
    type V = LookedView;

    open spec fn view(&self) -> LookedView {
        match *self {
            Looked::Absent => LookedView::Absent,
            Looked::Known(e) => LookedView::Known(e@),
            Looked::Ingest(m) => LookedView::Ingest(m),
        }
    }
}

pub open spec fn symlink_error(path: Seq<char>) -> ErrorView {
    plain(
        ErrorClass::UnsupportedError,
        path + " is a symlink; Weave V1 does not synchronize symlinks."@,
    )
}

/// What reading a path comes to, before any byte is read, and the cache
/// afterwards. `previous` supplies the mode to preserve on platforms that
/// cannot represent the executable bit; the mode is taken anew on every hit.
pub open spec fn look_rule(
    cache: Seq<StatView>,
    held: Map<Seq<char>, u64>,
    path: Seq<char>,
    steps: Seq<StepKind>,
    meta: Option<FileMeta>,
    permissions: Option<u32>,
    previous: Option<EntryView>,
) -> (Seq<StatView>, core::result::Result<LookedView, ErrorView>) {
    if indirection(path, steps) is Some {
        (cache, Err(indirection(path, steps)->0))
    } else {
        match meta {
            None => (drop_record::<Stat>(cache, path), Ok(LookedView::Absent)),
            Some(m) => if m.kind == MetaKind::Symlink {
                (drop_record::<Stat>(cache, path), Err(symlink_error(path)))
            } else if m.kind == MetaKind::Directory {
                (drop_record::<Stat>(cache, path), Ok(LookedView::Absent))
            } else {
                let mode = disk_mode(permissions, previous);
                (
                    cache,
                    match hit_rule(cache, path, m, held) {
                        Some(e) => Ok(LookedView::Known(EntryView { git_mode: mode, ..e })),
                        None => Ok(LookedView::Ingest(mode)),
                    },
                )
            },
        }
    }
}

/// Look at one repository path: what the filesystem says of it, and of every
/// directory on the way.
pub fn read_path(
    path: &RepoPath,
    steps: &Vec<StepKind>,
    meta: &Option<FileMeta>,
    permissions: Option<u32>,
    previous: Option<&FileEntry>,
    blobs: &BlobStore,
    cache: &mut ScanCache,
) -> (r: Result<Looked>)
    ensures
        final(cache)@ == look_rule(
            old(cache)@,
            blobs.sizes(),
            path@,
            steps@,
            *meta,
            permissions,
            entry_ref(previous),
        ).0,
        match r {
            Ok(l) => look_rule(
                old(cache)@,
                blobs.sizes(),
                path@,
                steps@,
                *meta,
                permissions,
                entry_ref(previous),
            ).1 == Ok::<LookedView, ErrorView>(l@),
            Err(e) => look_rule(
                old(cache)@,
                blobs.sizes(),
                path@,
                steps@,
                *meta,
                permissions,
                entry_ref(previous),
            ).1 == Err::<LookedView, ErrorView>(e@),
        },
{
    match ensure_no_indirection(path, steps) {
        Err(e) => {
            return Err(e);
        },
        Ok(_) => {},
    }
    match meta {
        None => {
            cache.forget(path);
            Ok(Looked::Absent)
        },
        Some(m) => {
            if m.kind == MetaKind::Symlink {
                cache.forget(path);
                let mut s = path.as_str().to_owned();
                s.push_str(" is a symlink; Weave V1 does not synchronize symlinks.");
                return Err(unsupported(s.as_str()));
            }
            if m.kind == MetaKind::Directory {
                cache.forget(path);
                return Ok(Looked::Absent);
            }
            let mode = mode_for_disk_file(permissions, previous);
            match cache.hit(path, m, blobs) {
                Some(e) => {
                    let mut e = e;
                    e.git_mode = mode;
                    Ok(Looked::Known(e))
                },
                None => Ok(Looked::Ingest(mode)),
            }
        },
    }
}

/// The content was read into the blob store, or the file was gone by then.
pub fn finish_read(
    path: &RepoPath,
    meta: &FileMeta,
    mode: GitMode,
    ingested: &Option<Ingested>,
    observed_ms: i64,
    cache: &mut ScanCache,
) -> (e: Option<FileEntry>)
    requires
        observed_ms >= 0,
    ensures
        match *ingested {
            None => e is None && final(cache)@ == drop_record::<Stat>(old(cache)@, path@),
            Some(i) => e is Some && e->0@ == (EntryView {
                blob_hash: i.hash@,
                size: i.size,
                git_mode: mode,
                file_kind: kind_of(i.prefix@),
            }) && final(cache)@ == remember_rule(old(cache)@, path@, *meta, e->0@, observed_ms),
        },
{
    match ingested {
        None => {
            cache.forget(path);
            None
        },
        Some(i) => {
            let entry = FileEntry::from_ingested(i, mode);
            cache.remember(path, meta, &entry, observed_ms);
            Some(entry)
        },
    }
}

// ---------------------------------------------------------------------------
// Writing
// ---------------------------------------------------------------------------

/// Why canonical content may not replace a working file, or `None`: a link on
/// the way, or bytes that are provably not the canonical ones.
pub open spec fn write_fault(
    path: Seq<char>,
    steps: Seq<StepKind>,
    blobs: BlobStore,
    blob_hash: Seq<char>,
    actual: Seq<char>,
) -> Option<ErrorView> {
    if indirection(path, steps) is Some {
        indirection(path, steps)
    } else if !blobs.holds(blob_hash) {
        Some(missing_blob(blobs.place(), blob_hash))
    } else if actual != blob_hash {
        Some(corrupt_blob(blob_hash, actual))
    } else {
        None
    }
}

/// Decide whether a blob that was streamed out of the store may replace the
/// working file. `actual` is the hash of the bytes as they streamed.
pub fn materialize_file(
    path: &RepoPath,
    steps: &Vec<StepKind>,
    blobs: &BlobStore,
    blob_hash: &str,
    actual: &str,
) -> (r: Result<()>)
    ensures
        match r {
            Ok(_) => write_fault(path@, steps@, *blobs, blob_hash@, actual@) is None,
            Err(e) => write_fault(path@, steps@, *blobs, blob_hash@, actual@) == Some(e@),
        },
{
    match ensure_no_indirection(path, steps) {
        Err(e) => Err(e),
        Ok(_) => blobs.copy_out(blob_hash, actual),
    }
}

/// The permissions of a file of this mode: executable for everybody or nobody,
/// and otherwise as they were.
pub open spec fn mode_bits(current: u32, mode: GitMode) -> u32 {
    if mode == GitMode::Executable {
        current | 0o111
    } else {
        current & !0o111u32
    }
}

/// The permissions a file has to get, when they change.
pub fn apply_mode(current: u32, mode: GitMode) -> (bits: Option<u32>)
    ensures
        bits == if mode_bits(current, mode) == current {
            None
        } else {
            Some(mode_bits(current, mode))
        },
{
    let desired: u32 = if mode.is_executable() {
        current | 0o111
    } else {
        current & !0o111u32
    };
    if desired == current {
        None
    } else {
        Some(desired)
    }
}

/// The directories above a path, outermost first.
pub open spec fn ancestors(path: Seq<char>) -> Seq<Seq<char>> {
    Seq::new(
        (split(path, '/').len() - 1) as nat,
        |i: int| join(split(path, '/').take(i + 1), "/"@),
    )
}

/// The directories a removed path leaves empty, innermost first. `bare` says of
/// each directory above the path, outermost first, whether it holds nothing but
/// the way to the path.
pub open spec fn emptied(dirs: Seq<Seq<char>>, bare: Seq<bool>) -> Seq<Seq<char>>
    decreases dirs.len(),
{
    if dirs.len() == 0 || bare.len() < dirs.len() || !bare[dirs.len() - 1] {
        Seq::empty()
    } else {
        seq![dirs.last()] + emptied(dirs.drop_last(), bare)
    }
}

/// Which directories to prune once a path is removed. The first one that holds
/// anything else ends it, and the root is never among them.
pub fn materialize_delete(path: &RepoPath, bare: &Vec<bool>) -> (dirs: Vec<String>)
    ensures
        texts(dirs@) == emptied(ancestors(path@), bare@),
{
    let all = path.parent_dirs();
    let ghost names = texts(all@);
    proof {
        assert(names =~= ancestors(path@));
    }
    let mut dirs: Vec<String> = Vec::new();
    let mut i: usize = all.len();
    proof {
        assert(names.take(i as int) =~= names);
        assert(texts(dirs@) + emptied(names, bare@) =~= emptied(names, bare@));
    }
    while i > 0 && i <= bare.len() && bare[i - 1]
        invariant
            names == texts(all@),
            i <= all@.len(),
            texts(dirs@) + emptied(names.take(i as int), bare@) == emptied(names, bare@),
        decreases i,
    {
        let name = all[i - 1].clone();
        let ghost before = dirs@;
        let ghost at = names.take(i as int);
        proof {
            assert(at.last() == name@);
            assert(at.drop_last() =~= names.take(i - 1));
            lemma_texts_push(before, name);
        }
        dirs.push(name);
        proof {
            assert(texts(dirs@) + emptied(names.take(i - 1), bare@) =~= texts(before) + emptied(
                at,
                bare@,
            ));
        }
        i = i - 1;
    }
    proof {
        assert(emptied(names.take(i as int), bare@) =~= Seq::<Seq<char>>::empty());
        assert(texts(dirs@) + Seq::<Seq<char>>::empty() =~= texts(dirs@));
    }
    dirs
}

// ---------------------------------------------------------------------------
// The full rescan
// ---------------------------------------------------------------------------

/// A path that was found, with its entry.
#[derive(Debug)]
pub struct Found {
    pub path: RepoPath,
    pub entry: FileEntry,
}

/// A found path as plain values.
pub struct FoundView {
    pub path: Seq<char>,
    pub entry: EntryView,
}

impl View for Found {
    type V = FoundView;

    open spec fn view(&self) -> FoundView {
        FoundView { path: self.path@, entry: self.entry@ }
    }
}

/// Result of a full repository rescan.
#[derive(Debug)]
pub struct ScanResult {
    pub entries: Vec<Found>,
    pub rejected: Vec<RejectedPath>,
}

/// The result of a rescan as plain values.
pub struct ScanView {
    pub entries: Seq<FoundView>,
    pub rejected: Seq<RejectedView>,
}

impl View for ScanResult {
    type V = ScanView;

    open spec fn view(&self) -> ScanView {
        ScanView { entries: views(self.entries@), rejected: views(self.rejected@) }
    }
}

/// What reading one listed path came to.
#[derive(Debug)]
pub enum Seen {
    File(FileEntry),
    Absent,
    Unreadable(WeaveError),
}

pub enum SeenView {
    File(EntryView),
    Absent,
    Unreadable(ErrorView),
}

impl View for Seen {
    type V = SeenView;

    open spec fn view(&self) -> SeenView {
        match *self {
            Seen::File(e) => SeenView::File(e@),
            Seen::Absent => SeenView::Absent,
            Seen::Unreadable(e) => SeenView::Unreadable(e@),
        }
    }
}

/// The newest file found under a portable name.
pub open spec fn holder_of(found: Seq<FoundView>, key: Seq<char>) -> Option<Seq<char>>
    decreases found.len(),
{
    if found.len() == 0 {
        None
    } else if key_of(found.last().path) == key {
        Some(found.last().path)
    } else {
        holder_of(found.drop_last(), key)
    }
}

/// Whether a listed path is looked at: it is portable, and no other file was
/// found under the same portable name.
pub open spec fn considered(v: ScanView, raw: Seq<char>) -> Option<RejectedView> {
    match path_fault(raw) {
        Some(fault) => Some(RejectedView { path: raw, reason: path_error(raw, fault).message }),
        None => match holder_of(v.entries, key_of(raw)) {
            Some(other) => if other != raw {
                Some(
                    RejectedView {
                        path: raw,
                        reason: "Collides with "@ + other
                            + " under portable case-insensitive comparison."@,
                    },
                )
            } else {
                None
            },
            None => None,
        },
    }
}

/// One listed path, with what reading it came to.
pub open spec fn scan_step(v: ScanView, raw: Seq<char>, seen: SeenView) -> ScanView {
    match considered(v, raw) {
        Some(r) => ScanView { rejected: v.rejected.push(r), ..v },
        None => match seen {
            SeenView::File(entry) => ScanView {
                entries: v.entries.push(FoundView { path: raw, entry }),
                ..v
            },
            SeenView::Absent => v,
            SeenView::Unreadable(e) => ScanView {
                rejected: v.rejected.push(RejectedView { path: raw, reason: e.message }),
                ..v
            },
        },
    }
}

impl ScanResult {
    pub fn new() -> (r: ScanResult)
        ensures
            r@ == (ScanView { entries: Seq::empty(), rejected: Seq::empty() }),
    {
        let r = ScanResult { entries: Vec::new(), rejected: Vec::new() };
        proof {
            assert(r@.entries =~= Seq::<FoundView>::empty());
            assert(r@.rejected =~= Seq::<RejectedView>::empty());
        }
        r
    }

    fn holder(&self, key: &str) -> (p: Option<&RepoPath>)
        ensures
            holder_of(self@.entries, key@) == match p {
                Some(x) => Some(x@),
                None => None,
            },
    {
        let ghost all = self@.entries;
        let mut i: usize = self.entries.len();
        proof {
            assert(all.take(i as int) =~= all);
        }
        while i > 0
            invariant
                all == self@.entries,
                i <= self.entries@.len(),
                holder_of(all, key@) == holder_of(all.take(i as int), key@),
            decreases i,
        {
            proof {
                assert(all.take(i as int).last() == self.entries@[i - 1]@);
                assert(all.take(i as int).drop_last() =~= all.take(i - 1));
            }
            if same_text(self.entries[i - 1].path.collision_key().as_str(), key) {
                return Some(&self.entries[i - 1].path);
            }
            i = i - 1;
        }
        None
    }

    /// Whether a listed path is to be looked at; otherwise it is refused.
    pub fn consider(&mut self, raw: &str) -> (p: Option<RepoPath>)
        ensures
            match considered(old(self)@, raw@) {
                None => p is Some && p->0@ == raw@ && final(self)@ == old(self)@,
                Some(r) => p is None && final(self)@ == (ScanView {
                    rejected: old(self)@.rejected.push(r),
                    ..old(self)@
                }),
            },
    {
        let ghost before = self.rejected@;
        let path = match RepoPath::new(raw) {
            Ok(p) => p,
            Err(e) => {
                let r = RejectedPath { path: raw.to_owned(), reason: e.message };
                self.rejected.push(r);
                proof {
                    crate::text::lemma_views_push(before, r);
                }
                return None;
            },
        };
        let key = path.collision_key();
        let clash: Option<String> = match self.holder(key.as_str()) {
            Some(other) => {
                if !other.same(&path) {
                    let mut s = "Collides with ".to_owned();
                    s.push_str(other.as_str());
                    s.push_str(" under portable case-insensitive comparison.");
                    Some(s)
                } else {
                    None
                }
            },
            None => None,
        };
        match clash {
            Some(reason) => {
                let r = RejectedPath { path: path.into_string(), reason };
                self.rejected.push(r);
                proof {
                    crate::text::lemma_views_push(before, r);
                }
                None
            },
            None => Some(path),
        }
    }

    /// Record what reading a considered path came to.
    pub fn record(&mut self, path: RepoPath, seen: Seen)
        requires
            considered(old(self)@, path@) is None,
        ensures
            final(self)@ == scan_step(old(self)@, path@, seen@),
    {
        let ghost found0 = self.entries@;
        let ghost rejected0 = self.rejected@;
        match seen {
            Seen::File(entry) => {
                let f = Found { path, entry };
                self.entries.push(f);
                proof {
                    crate::text::lemma_views_push(found0, f);
                }
            },
            Seen::Absent => {},
            Seen::Unreadable(e) => {
                let r = RejectedPath { path: path.into_string(), reason: e.message };
                self.rejected.push(r);
                proof {
                    crate::text::lemma_views_push(rejected0, r);
                }
            },
        }
    }
}

/// A rescan under a size limit: what is above it is set aside without being
/// read.
#[derive(Debug)]
pub struct Listing {
    pub limit: u64,
    pub result: ScanResult,
    pub oversize: Vec<OversizeReport>,
}

/// A rescan under a size limit as plain values.
pub struct ListingView {
    pub limit: u64,
    pub result: ScanView,
    pub oversize: Seq<ReportView>,
}

impl View for Listing {
    type V = ListingView;

    open spec fn view(&self) -> ListingView {
        ListingView {
            limit: self.limit,
            result: self.result@,
            oversize: views(self.oversize@),
        }
    }
}

/// One listed path: refused, set aside for its size, or looked at. `size` is
/// what the disk says of it, where there is a file.
pub open spec fn listing_step(
    v: ListingView,
    raw: Seq<char>,
    size: Option<u64>,
    canonical: bool,
    seen: SeenView,
) -> ListingView {
    if considered(v.result, raw) is None && above(size, v.limit) {
        ListingView {
            oversize: v.oversize.push(ReportView { path: raw, size: size->0, canonical }),
            ..v
        }
    } else {
        ListingView { result: scan_step(v.result, raw, seen), ..v }
    }
}

pub open spec fn above(size: Option<u64>, limit: u64) -> bool {
    size matches Some(n) && n > limit
}

impl Listing {
    pub fn new(limit: u64) -> (l: Listing)
        ensures
            l@ == (ListingView {
                limit,
                result: ScanView { entries: Seq::empty(), rejected: Seq::empty() },
                oversize: Seq::empty(),
            }),
    {
        let l = Listing { limit, result: ScanResult::new(), oversize: Vec::new() };
        proof {
            assert(l@.oversize =~= Seq::<ReportView>::empty());
        }
        l
    }

    /// Whether a listed path is to be looked at; otherwise it is refused.
    pub fn consider(&mut self, raw: &str) -> (p: Option<RepoPath>)
        ensures
            match considered(old(self)@.result, raw@) {
                None => p is Some && p->0@ == raw@ && final(self)@ == old(self)@,
                Some(_) => p is None && forall|size: Option<u64>, canonical: bool, seen: SeenView|
                    final(self)@ == #[trigger] listing_step(
                        old(self)@,
                        raw@,
                        size,
                        canonical,
                        seen,
                    ),
            },
    {
        self.result.consider(raw)
    }

    /// Whether a considered path is to be read; otherwise it is set aside.
    pub fn weigh(&mut self, path: RepoPath, size: Option<u64>, canonical: bool) -> (p: Option<RepoPath>)
        requires
            considered(old(self)@.result, path@) is None,
        ensures
            if above(size, old(self)@.limit) {
                p is None && forall|seen: SeenView|
                    final(self)@ == #[trigger] listing_step(
                        old(self)@,
                        path@,
                        size,
                        canonical,
                        seen,
                    )
            } else {
                p is Some && p->0@ == path@ && final(self)@ == old(self)@
            },
    {
        match size {
            Some(n) => {
                if n > self.limit {
                    let ghost before = self.oversize@;
                    let r = OversizeReport { path, size: n, canonical };
                    self.oversize.push(r);
                    proof {
                        crate::text::lemma_views_push(before, r);
                    }
                    return None;
                }
            },
            None => {},
        }
        Some(path)
    }

    /// Record what reading a path came to.
    pub fn record(&mut self, path: RepoPath, seen: Seen)
        requires
            considered(old(self)@.result, path@) is None,
        ensures
            forall|size: Option<u64>, canonical: bool|
                !above(size, old(self)@.limit) ==> final(self)@ == #[trigger] listing_step(
                    old(self)@,
                    path@,
                    size,
                    canonical,
                    seen@,
                ),
    {
        self.result.record(path, seen);
    }

    /// The paths that were found.
    pub fn found(&self) -> (list: Vec<RepoPath>)
        ensures
            views(list@) == self@.result.entries.map_values(|f: FoundView| f.path),
    {
        let mut list: Vec<RepoPath> = Vec::new();
        let ghost all = self@.result.entries.map_values(|f: FoundView| f.path);
        let mut i: usize = 0;
        proof {
            assert(views(list@) =~= all.take(0));
        }
        while i < self.result.entries.len()
            invariant
                i <= self.result.entries@.len(),
                all == self@.result.entries.map_values(|f: FoundView| f.path),
                views(list@) == all.take(i as int),
            decreases self.result.entries@.len() - i,
        {
            let p = self.result.entries[i].path.clone();
            let ghost before = list@;
            list.push(p);
            proof {
                assert(self@.result.entries[i as int] == self.result.entries@[i as int]@);
                assert(views(list@) =~= views(before).push(p@));
                assert(all.take(i + 1) =~= all.take(i as int).push(p@));
            }
            i = i + 1;
        }
        proof {
            assert(all.take(i as int) =~= all);
        }
        list
    }
}

/// A file above the limit is set aside as it is: nothing is recorded of its
/// content, and nothing else changes.
pub proof fn a_file_above_the_limit_is_not_looked_at(
    v: ListingView,
    raw: Seq<char>,
    size: u64,
    canonical: bool,
    seen: SeenView,
)
    requires
        size > v.limit,
    ensures
        listing_step(v, raw, Some(size), canonical, seen).result.entries == v.result.entries,
        forall|other: SeenView|
            listing_step(v, raw, Some(size), canonical, seen) == #[trigger] listing_step(
                v,
                raw,
                Some(size),
                canonical,
                other,
            ),
{
}

/// What a whole rescan comes to, given what reading each listed path would
/// come to.
pub open spec fn scan_rule(raw: Seq<Seq<char>>, seen: Seq<SeenView>) -> ScanView
    recommends
        raw.len() == seen.len(),
    decreases raw.len(),
{
    if raw.len() == 0 {
        ScanView { entries: Seq::empty(), rejected: Seq::empty() }
    } else {
        scan_step(scan_rule(raw.drop_last(), seen.drop_last()), raw.last(), seen.last())
    }
}

/// Files that were found never collide: under one portable name there is one
/// path, and one file only where no path was listed twice.
pub proof fn found_files_never_collide(raw: Seq<Seq<char>>, seen: Seq<SeenView>)
    requires
        raw.len() == seen.len(),
    ensures
        ({
            let found = scan_rule(raw, seen).entries;
            &&& forall|i: int, j: int|
                0 <= i < j < found.len() && key_of((#[trigger] found[i]).path) == key_of(
                    (#[trigger] found[j]).path,
                ) ==> found[i].path == found[j].path
            &&& distinct(raw) ==> forall|i: int, j: int|
                0 <= i < j < found.len() ==> key_of((#[trigger] found[i]).path) != key_of(
                    (#[trigger] found[j]).path,
                )
            &&& forall|i: int| 0 <= i < found.len() ==> raw.contains((#[trigger] found[i]).path)
        }),
    decreases raw.len(),
{
    if raw.len() > 0 {
        let front = raw.drop_last();
        let before = scan_rule(front, seen.drop_last()).entries;
        let found = scan_rule(raw, seen).entries;
        let last = raw.last();
        found_files_never_collide(front, seen.drop_last());
        assert forall|i: int| 0 <= i < before.len() implies raw.contains(
            (#[trigger] before[i]).path,
        ) by {
            let k = choose|k: int| 0 <= k < front.len() && front[k] == before[i].path;
            assert(raw[k] == before[i].path);
        }
        assert(raw[raw.len() - 1] == last);
        if distinct(raw) {
            assert forall|i: int, j: int| 0 <= i < j < front.len() implies #[trigger] front[i]
                != #[trigger] front[j] by {
                assert(raw[i] != raw[j]);
            }
        }
        if found != before {
            assert forall|i: int|
                0 <= i < before.len() && key_of((#[trigger] before[i]).path) == key_of(
                    last,
                ) implies before[i].path == last && !distinct(raw) by {
                lemma_holder(before, key_of(last), i);
                let k = choose|k: int| 0 <= k < front.len() && front[k] == before[i].path;
                assert(raw[k] == raw[raw.len() - 1]);
            }
        }
    }
}

/// The holder of a name is among those found under it.
proof fn lemma_holder(found: Seq<FoundView>, key: Seq<char>, i: int)
    requires
        0 <= i < found.len(),
        key_of(found[i].path) == key,
        forall|a: int, b: int|
            0 <= a < b < found.len() && key_of((#[trigger] found[a]).path) == key_of(
                (#[trigger] found[b]).path,
            ) ==> found[a].path == found[b].path,
    ensures
        holder_of(found, key) == Some(found[i].path),
    decreases found.len(),
{
    let n = found.len() - 1;
    if key_of(found.last().path) == key {
        if i < n {
            assert(found[i].path == found[n].path);
        }
    } else {
        let front = found.drop_last();
        assert forall|a: int, b: int|
            0 <= a < b < front.len() && key_of((#[trigger] front[a]).path) == key_of(
                (#[trigger] front[b]).path,
            ) implies front[a].path == front[b].path by {
            assert(found[a].path == found[b].path);
        }
        lemma_holder(front, key, i);
    }
}

/// Every listed path is accounted for: found, refused with a reason, or absent.
pub proof fn every_listed_path_is_accounted_for(raw: Seq<Seq<char>>, seen: Seq<SeenView>, i: int)
    requires
        raw.len() == seen.len(),
        0 <= i < raw.len(),
    ensures
        ({
            let r = scan_rule(raw, seen);
            ||| seen[i] is Absent
            ||| exists|k: int| 0 <= k < r.entries.len() && (#[trigger] r.entries[k]).path == raw[i]
            ||| exists|k: int|
                0 <= k < r.rejected.len() && (#[trigger] r.rejected[k]).path == raw[i]
        }),
    decreases raw.len(),
{
    let before = scan_rule(raw.drop_last(), seen.drop_last());
    let r = scan_rule(raw, seen);
    if i < raw.len() - 1 {
        every_listed_path_is_accounted_for(raw.drop_last(), seen.drop_last(), i);
        if exists|k: int| 0 <= k < before.entries.len() && (#[trigger] before.entries[k]).path == raw[i] {
            let k = choose|k: int|
                0 <= k < before.entries.len() && (#[trigger] before.entries[k]).path == raw[i];
            assert(r.entries[k] == before.entries[k]);
        } else if exists|k: int|
            0 <= k < before.rejected.len() && (#[trigger] before.rejected[k]).path == raw[i] {
            let k = choose|k: int|
                0 <= k < before.rejected.len() && (#[trigger] before.rejected[k]).path == raw[i];
            assert(r.rejected[k] == before.rejected[k]);
        }
    } else if r.entries.len() > before.entries.len() {
        assert(r.entries[r.entries.len() - 1].path == raw[i]);
    } else if r.rejected.len() > before.rejected.len() {
        assert(r.rejected[r.rejected.len() - 1].path == raw[i]);
    }
}

/// Enumerate every synchronizable file among the listed paths, given what
/// reading each of them came to. A path that is refused beforehand is not
/// looked at.
pub fn scan_repository(raw: &Vec<String>, seen: Vec<Seen>) -> (r: ScanResult)
    requires
        raw@.len() == seen@.len(),
    ensures
        r@ == scan_rule(texts(raw@), views(seen@)),
{
    let mut result = ScanResult::new();
    let ghost names = texts(raw@);
    let ghost all = views(seen@);
    let mut left = seen;
    let mut i: usize = 0;
    proof {
        assert(names.take(0) =~= Seq::<Seq<char>>::empty());
        assert(all.skip(0) =~= all);
    }
    while i < raw.len()
        invariant
            names == texts(raw@),
            all.len() == raw@.len(),
            i <= raw@.len(),
            views(left@) == all.skip(i as int),
            result@ == scan_rule(names.take(i as int), all.take(i as int)),
        decreases raw@.len() - i,
    {
        let ghost before = left@;
        proof {
            assert(names.take(i + 1).drop_last() =~= names.take(i as int));
            assert(names.take(i + 1).last() == raw@[i as int]@);
            assert(all.take(i + 1).drop_last() =~= all.take(i as int));
            assert(views(left@).len() == left@.len());
            assert(left@.len() == all.len() - i);
            assert(views(left@)[0] == left@[0]@);
            assert(all.skip(i as int)[0] == all[i as int]);
        }
        let one = left.remove(0);
        proof {
            assert(views(left@) =~= views(before).remove(0));
            assert(all.skip(i as int).remove(0) =~= all.skip(i + 1));
        }
        match result.consider(raw[i].as_str()) {
            Some(path) => {
                result.record(path, one);
            },
            None => {},
        }
        i = i + 1;
    }
    proof {
        assert(names.take(i as int) =~= names);
        assert(all.take(i as int) =~= all);
    }
    result
}

// ---------------------------------------------------------------------------
// What the cache promises
// ---------------------------------------------------------------------------

/// A hit is an entry this cache was given, for a file whose size and time are
/// what they were then, and whose content is held.
pub proof fn a_hit_was_hashed_here(
    cache: Seq<StatView>,
    path: Seq<char>,
    meta: FileMeta,
    entry: EntryView,
    hashed_ms: i64,
    later: FileMeta,
    held: Map<Seq<char>, u64>,
)
    ensures
        ({
            let kept = remember_rule(cache, path, meta, entry, hashed_ms);
            hit_rule(kept, path, later, held) matches Some(e) && meta.mtime_ms is Some && hashed_ms
                - meta.mtime_ms->0 >= RACY_WINDOW_MS ==> {
                &&& hit_rule(kept, path, later, held) == Some(entry)
                &&& later.size == meta.size
                &&& later.mtime_ms == meta.mtime_ms
                &&& held.contains_key(entry.blob_hash)
            }
        }),
{
    if meta.mtime_ms is Some {
        let s = StatView { path, size: meta.size, mtime_ms: meta.mtime_ms->0, entry };
        crate::store_client::put_is_found::<Stat>(cache, s, path);
    }
}

} // verus!
