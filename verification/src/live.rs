//! What content somebody can still name, and so has to be kept.

use vstd::prelude::*;

use crate::blobs::{is_stale, partial_path, Claims, EntryKind, Listed, Place, GC_GRACE_MS};
use crate::client::ClientEngine;
use crate::client_blobs::{forgotten_rule, stored_rule, sweepable};
use crate::client_rules::{AwaitedView, ClientView};
use crate::model::{
    entry_view, Conflict, ConflictView, EntryView, FileEntry, Revision, RevisionView,
};
use crate::proto::{rows, ManifestEntry, RowView};
use crate::store_client::{PathRowView, PathState, StateView};
use crate::store_host::{span_of, HostStore, StoreView};
use crate::text::{begins_with, byte_len, lemma_lists, lemma_texts_push, texts, views};

verus! {

/// Whether an entry names the content.
pub open spec fn names(e: Option<EntryView>, hash: Seq<char>) -> bool {
    e matches Some(x) && x.blob_hash == hash
}

/// Whether a path's state names the content.
pub open spec fn state_names(s: StateView, hash: Seq<char>) -> bool {
    ||| names(s.confirmed, hash)
    ||| names(s.materialized, hash)
    ||| s.in_flight matches Some(f) && (names(f.base_entry, hash) || names(f.desired, hash))
    ||| s.pending_local matches Some(p) && names(p.desired, hash)
    ||| s.conflict_draft matches Some(d) && names(d.entry, hash)
}

/// Whether a conflict names the content.
pub open spec fn conflict_names(c: ConflictView, hash: Seq<char>) -> bool {
    ||| names(c.base_entry, hash)
    ||| names(c.canonical_entry, hash)
    ||| names(c.incoming_entry, hash)
    ||| names(c.latest_local_candidate, hash)
}

/// Whether one of the first `n` paths names the content.
pub open spec fn states_name(list: Seq<PathRowView>, n: int, hash: Seq<char>) -> bool {
    exists|k: int| 0 <= k < n && state_names((#[trigger] list[k]).state, hash)
}

/// Whether one of the first `n` conflicts names the content.
pub open spec fn conflicts_name(list: Seq<ConflictView>, n: int, hash: Seq<char>) -> bool {
    exists|k: int| 0 <= k < n && conflict_names(#[trigger] list[k], hash)
}

/// Whether one of the first `n` publications waits for the content.
pub open spec fn packs_name(list: Seq<AwaitedView>, n: int, hash: Seq<char>) -> bool {
    exists|k: int| 0 <= k < n && (#[trigger] list[k]).hash == hash
}

/// Whether one of the first `n` rows names the content.
pub open spec fn rows_name(list: Seq<RowView>, n: int, hash: Seq<char>) -> bool {
    exists|k: int| 0 <= k < n && (#[trigger] list[k]).entry.blob_hash == hash
}

/// Whether one of the first `n` revisions names the content, on either side.
pub open spec fn log_names(list: Seq<RevisionView>, n: int, hash: Seq<char>) -> bool {
    exists|k: int|
        0 <= k < n && (names((#[trigger] list[k]).before, hash) || names(list[k].after, hash))
}

/// What canonical state can name: the manifest, the far side of every
/// revision, and the entries of every conflict.
pub open spec fn host_names(v: StoreView, hash: Seq<char>) -> bool {
    ||| rows_name(v.rows, v.rows.len() as int, hash)
    ||| log_names(v.log, v.log.len() as int, hash)
    ||| conflicts_name(v.conflicts, v.conflicts.len() as int, hash)
}

/// What a replica can name: its paths, the conflicts it heard of, and packs of
/// publications that are still queued.
pub open spec fn replica_names(v: ClientView, hash: Seq<char>) -> bool {
    ||| states_name(v.replica.states, v.replica.states.len() as int, hash)
    ||| (v.control matches Some(c) && conflicts_name(
        c.conflicts,
        c.conflicts.len() as int,
        hash,
    ))
    ||| packs_name(v.awaiting_pack, v.awaiting_pack.len() as int, hash)
}

/// Whether an entry of the blob store may go: a temporary or a partial that
/// nobody writes any more, or content that nothing can name, each only once it
/// is old; a partial of installed content at once.
pub open spec fn abandoned(
    v: ClientView,
    item: Listed,
    host: Seq<Seq<char>>,
    claims: Claims,
    now_ms: u64,
) -> bool {
    match item.place {
        Place::Root => {
            &&& item.kind != EntryKind::Directory
            &&& begins_with(item.name@, ".part-"@)
            &&& is_stale(item.modified_ms, now_ms, GC_GRACE_MS)
        },
        Place::PartialDir => {
            &&& !claims.claims(partial_path(v.traffic.place, item.name@))
            &&& item.kind == EntryKind::File
            &&& {
                ||| byte_len(item.name@) == 64 && v.traffic.store.contains_key(item.name@)
                ||| is_stale(item.modified_ms, now_ms, GC_GRACE_MS)
            }
        },
        Place::Shard(name) => {
            &&& byte_len(name@) == 2
            &&& byte_len(item.name@) == 64
            &&& !replica_names(v, item.name@)
            &&& !host.contains(item.name@)
            &&& item.kind == EntryKind::File
            &&& is_stale(item.modified_ms, now_ms, GC_GRACE_MS)
        },
    }
}

// ---------------------------------------------------------------------------
// Collecting names
// ---------------------------------------------------------------------------

proof fn lemma_contains_push(list: Seq<Seq<char>>, x: Seq<char>)
    ensures
        forall|h: Seq<char>|
            #[trigger] list.push(x).contains(h) <==> (list.contains(h) || h == x),
{
    assert forall|h: Seq<char>| #[trigger] list.push(x).contains(h) <==> (list.contains(h) || h
        == x) by {
        if list.contains(h) {
            let k = choose|k: int| 0 <= k < list.len() && list[k] == h;
            assert(list.push(x)[k] == h);
        }
        assert(list.push(x)[list.len() as int] == x);
        if list.push(x).contains(h) && h != x {
            let k = choose|k: int| 0 <= k < list.push(x).len() && list.push(x)[k] == h;
            assert(list[k] == h);
        }
    }
}

fn note_hash(list: &mut Vec<String>, hash: &str)
    ensures
        forall|h: Seq<char>|
            #[trigger] texts(final(list)@).contains(h) <==> (texts(old(list)@).contains(h) || h
                == hash@),
{
    let ghost before = list@;
    let s = hash.to_owned();
    list.push(s);
    proof {
        lemma_texts_push(before, s);
        lemma_contains_push(texts(before), hash@);
    }
}

fn note(list: &mut Vec<String>, e: &Option<FileEntry>)
    ensures
        forall|h: Seq<char>|
            #[trigger] texts(final(list)@).contains(h) <==> (texts(old(list)@).contains(h) || names(
                entry_view(*e),
                h,
            )),
{
    match e {
        Some(x) => note_hash(list, x.blob_hash.as_str()),
        None => {},
    }
}

fn note_state(list: &mut Vec<String>, s: &PathState)
    ensures
        forall|h: Seq<char>|
            #[trigger] texts(final(list)@).contains(h) <==> (texts(old(list)@).contains(h)
                || state_names(s@, h)),
{
    note(list, &s.confirmed);
    note(list, &s.materialized);
    match &s.in_flight {
        Some(f) => {
            note(list, &f.base_entry);
            note(list, &f.desired);
        },
        None => {},
    }
    match &s.pending_local {
        Some(p) => note(list, &p.desired),
        None => {},
    }
    match &s.conflict_draft {
        Some(d) => note(list, &d.entry),
        None => {},
    }
}

fn note_conflict(list: &mut Vec<String>, c: &Conflict)
    ensures
        forall|h: Seq<char>|
            #[trigger] texts(final(list)@).contains(h) <==> (texts(old(list)@).contains(h)
                || conflict_names(c@, h)),
{
    note(list, &c.base_entry);
    note(list, &c.canonical_entry);
    note(list, &c.incoming_entry);
    note(list, &c.latest_local_candidate);
}

fn note_conflicts(list: &mut Vec<String>, conflicts: &Vec<Conflict>)
    ensures
        forall|h: Seq<char>|
            #[trigger] texts(final(list)@).contains(h) <==> (texts(old(list)@).contains(h)
                || conflicts_name(views(conflicts@), conflicts@.len() as int, h)),
{
    let ghost start = texts(list@);
    let mut i: usize = 0;
    while i < conflicts.len()
        invariant
            i <= conflicts@.len(),
            forall|h: Seq<char>|
                #[trigger] texts(list@).contains(h) <==> (start.contains(h) || conflicts_name(
                    views(conflicts@),
                    i as int,
                    h,
                )),
        decreases conflicts@.len() - i,
    {
        note_conflict(list, &conflicts[i]);
        proof {
            assert(views(conflicts@)[i as int] == conflicts@[i as int]@);
            assert forall|h: Seq<char>|
                conflicts_name(views(conflicts@), i + 1, h) <==> (#[trigger] conflicts_name(
                    views(conflicts@),
                    i as int,
                    h,
                ) || conflict_names(conflicts@[i as int]@, h)) by {
                if conflict_names(conflicts@[i as int]@, h) {
                    assert(conflict_names(views(conflicts@)[i as int], h));
                }
            }
        }
        i = i + 1;
    }
}

fn note_rows(list: &mut Vec<String>, manifest: &Vec<ManifestEntry>)
    ensures
        forall|h: Seq<char>|
            #[trigger] texts(final(list)@).contains(h) <==> (texts(old(list)@).contains(h)
                || rows_name(rows(manifest@), manifest@.len() as int, h)),
{
    let ghost start = texts(list@);
    let mut i: usize = 0;
    while i < manifest.len()
        invariant
            i <= manifest@.len(),
            forall|h: Seq<char>|
                #[trigger] texts(list@).contains(h) <==> (start.contains(h) || rows_name(
                    rows(manifest@),
                    i as int,
                    h,
                )),
        decreases manifest@.len() - i,
    {
        note_hash(list, manifest[i].entry.blob_hash.as_str());
        proof {
            let hash = rows(manifest@)[i as int].entry.blob_hash;
            assert(hash == manifest@[i as int].entry.blob_hash@);
            assert forall|h: Seq<char>|
                rows_name(rows(manifest@), i + 1, h) <==> (#[trigger] rows_name(
                    rows(manifest@),
                    i as int,
                    h,
                ) || h == hash) by {
                if h == hash {
                    assert(rows(manifest@)[i as int].entry.blob_hash == h);
                }
            }
        }
        i = i + 1;
    }
}

fn note_log(list: &mut Vec<String>, log: &Vec<Revision>)
    ensures
        forall|h: Seq<char>|
            #[trigger] texts(final(list)@).contains(h) <==> (texts(old(list)@).contains(h)
                || log_names(views(log@), log@.len() as int, h)),
{
    let ghost start = texts(list@);
    let mut i: usize = 0;
    while i < log.len()
        invariant
            i <= log@.len(),
            forall|h: Seq<char>|
                #[trigger] texts(list@).contains(h) <==> (start.contains(h) || log_names(
                    views(log@),
                    i as int,
                    h,
                )),
        decreases log@.len() - i,
    {
        note(list, &log[i].before);
        note(list, &log[i].after);
        proof {
            let r = log@[i as int]@;
            assert(views(log@)[i as int] == r);
            assert forall|h: Seq<char>|
                log_names(views(log@), i + 1, h) <==> (#[trigger] log_names(
                    views(log@),
                    i as int,
                    h,
                ) || names(r.before, h) || names(r.after, h)) by {
                if names(r.before, h) || names(r.after, h) {
                    assert(names(views(log@)[i as int].before, h) || names(
                        views(log@)[i as int].after,
                        h,
                    ));
                }
            }
        }
        i = i + 1;
    }
}

proof fn lemma_whole_span(log: Seq<RevisionView>, upto: u64)
    requires
        log.len() <= upto,
        forall|i: int| 0 <= i < log.len() ==> (#[trigger] log[i]).revision == i + 1,
    ensures
        span_of(log, 0, upto) == log,
    decreases log.len(),
{
    reveal(Seq::filter);
    if log.len() > 0 {
        let rest = log.drop_last();
        assert forall|i: int| 0 <= i < rest.len() implies (#[trigger] rest[i]).revision == i
            + 1 by {
            assert(rest[i] == log[i]);
        }
        lemma_whole_span(rest, upto);
        assert(log.last().revision == log.len());
        assert(rest.push(log.last()) =~= log);
    }
    assert(span_of(log, 0, upto) =~= log);
}

/// Every hash that canonical state can name.
pub fn host_referenced(store: &HostStore) -> (list: Vec<String>)
    requires
        store@.ok(),
    ensures
        forall|h: Seq<char>| #[trigger] texts(list@).contains(h) <==> host_names(store@, h),
{
    let mut list: Vec<String> = Vec::new();
    let manifest = store.manifest_all();
    let log = store.span(0, store.current_revision());
    let conflicts = store.conflicts();
    proof {
        lemma_whole_span(store@.log, store@.revision());
        assert(texts(list@) =~= Seq::<Seq<char>>::empty());
        assert(rows(manifest@).len() == manifest@.len());
        assert(views(log@).len() == log@.len());
        assert(views(conflicts@).len() == conflicts@.len());
    }
    note_rows(&mut list, &manifest);
    note_log(&mut list, &log);
    note_conflicts(&mut list, &conflicts);
    list
}

impl ClientEngine {
    /// Every hash that this replica, or canonical state on the same machine,
    /// can name. Packs of publications that are installed are in nobody's
    /// list: they are derived from objects the repository still holds.
    pub fn live_hashes(&self, host: &Vec<String>) -> (list: Vec<String>)
        ensures
            forall|h: Seq<char>|
                #[trigger] texts(list@).contains(h) <==> (replica_names(self@, h) || texts(
                    host@,
                ).contains(h)),
    {
        let mut list = crate::model::copy_texts(host);
        let states = self.store.all_rows();
        let ghost all = self@.replica.states;
        proof {
            assert(views(states@).len() == states@.len());
        }
        let mut i: usize = 0;
        while i < states.len()
            invariant
                i <= states@.len(),
                views(states@) == all,
                all.len() == states@.len(),
                forall|h: Seq<char>|
                    #[trigger] texts(list@).contains(h) <==> (texts(host@).contains(h)
                        || states_name(all, i as int, h)),
            decreases states@.len() - i,
        {
            note_state(&mut list, &states[i].state);
            proof {
                let s = states@[i as int].state@;
                assert(views(states@)[i as int].state == s);
                assert forall|h: Seq<char>|
                    states_name(all, i + 1, h) <==> (#[trigger] states_name(all, i as int, h)
                        || state_names(s, h)) by {
                    if state_names(s, h) {
                        assert(state_names(all[i as int].state, h));
                    }
                }
            }
            i = i + 1;
        }
        let ghost known = texts(list@);
        match &self.control {
            Some(c) => {
                proof {
                    assert(views(c.conflicts@).len() == c.conflicts@.len());
                }
                note_conflicts(&mut list, &c.conflicts);
            },
            None => {},
        }
        let ghost start = texts(list@);
        let ghost packs = self@.awaiting_pack;
        let mut k: usize = 0;
        while k < self.awaiting_pack.len()
            invariant
                k <= self.awaiting_pack@.len(),
                packs == views(self.awaiting_pack@),
                forall|h: Seq<char>|
                    #[trigger] texts(list@).contains(h) <==> (start.contains(h) || packs_name(
                        packs,
                        k as int,
                        h,
                    )),
            decreases self.awaiting_pack@.len() - k,
        {
            note_hash(&mut list, self.awaiting_pack[k].hash.as_str());
            proof {
                let hash = self.awaiting_pack@[k as int].hash@;
                assert(packs[k as int].hash == hash);
                assert forall|h: Seq<char>|
                    packs_name(packs, k + 1, h) <==> (#[trigger] packs_name(packs, k as int, h)
                        || h == hash) by {
                    if h == hash {
                        assert(packs[k as int].hash == h);
                    }
                }
            }
            k = k + 1;
        }
        list
    }

    /// Which entries of the blob store nothing can reach any more, by position.
    /// `host` is what canonical state on this machine names.
    pub fn collect_garbage(
        &self,
        items: &Vec<Listed>,
        host: &Vec<String>,
        claims: &Claims,
        now_ms: u64,
    ) -> (doomed: Vec<usize>)
        ensures
            forall|k: int|
                0 <= k < doomed@.len() ==> (#[trigger] doomed@[k]) < items@.len() && abandoned(
                    self@,
                    items@[doomed@[k] as int],
                    texts(host@),
                    *claims,
                    now_ms,
                ),
            forall|i: int|
                0 <= i < items@.len() && abandoned(
                    self@,
                    #[trigger] items@[i],
                    texts(host@),
                    *claims,
                    now_ms,
                ) ==> doomed@.contains(i as usize),
            forall|a: int, b: int| 0 <= a < b < doomed@.len() ==> doomed@[a] < doomed@[b],
    {
        let live = self.live_hashes(host);
        let doomed = self.traffic.collect_garbage(items, &live, claims, now_ms, GC_GRACE_MS);
        proof {
            assert forall|i: int| 0 <= i < items@.len() implies sweepable(
                self@.traffic,
                #[trigger] items@[i],
                live@,
                *claims,
                now_ms,
                GC_GRACE_MS,
            ) == abandoned(self@, items@[i], texts(host@), *claims, now_ms) by {
                lemma_lists(live@, items@[i].name@);
            }
        }
        doomed
    }

    /// Content was put into the blob store by somebody else on this machine.
    pub fn content_stored(&mut self, hash: &str, size: u64)
        requires
            old(self).wf(),
        ensures
            final(self).wf(),
            final(self)@ == (ClientView {
                traffic: stored_rule(old(self)@.traffic, hash@, size),
                ..old(self)@
            }),
    {
        self.traffic.stored(hash, size);
    }

    /// Content was removed from the store.
    pub fn collected(&mut self, hash: &str)
        requires
            old(self).wf(),
        ensures
            final(self).wf(),
            final(self)@ == (ClientView {
                traffic: forgotten_rule(old(self)@.traffic, hash@),
                ..old(self)@
            }),
    {
        self.traffic.forget(hash);
    }
}

// ---------------------------------------------------------------------------
// What the sweep guarantees
// ---------------------------------------------------------------------------

/// Content that a replica or canonical state can still name is kept, however
/// old it is.
pub proof fn what_is_named_is_kept(
    v: ClientView,
    item: Listed,
    host: Seq<Seq<char>>,
    claims: Claims,
    now_ms: u64,
)
    requires
        item.place is Shard,
        replica_names(v, item.name@) || host.contains(item.name@),
    ensures
        !abandoned(v, item, host, claims, now_ms),
{
}

/// Work that has not been answered is never swept: the bytes of an operation
/// in flight, of what was coalesced behind it, and of a draft.
pub proof fn unanswered_work_is_kept(
    v: ClientView,
    at: int,
    item: Listed,
    host: Seq<Seq<char>>,
    claims: Claims,
    now_ms: u64,
)
    requires
        item.place is Shard,
        0 <= at < v.replica.states.len(),
        ({
            let s = v.replica.states[at].state;
            ||| s.in_flight matches Some(f) && names(f.desired, item.name@)
            ||| s.pending_local matches Some(p) && names(p.desired, item.name@)
            ||| s.conflict_draft matches Some(d) && names(d.entry, item.name@)
        }),
    ensures
        !abandoned(v, item, host, claims, now_ms),
{
    assert(state_names(v.replica.states[at].state, item.name@));
    assert(states_name(v.replica.states, v.replica.states.len() as int, item.name@));
}

} // verus!
