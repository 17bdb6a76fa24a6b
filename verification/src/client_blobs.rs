//! A participant's half of the blob plane.
//!
//! Two directions, one shape. Uploads run before the control message that
//! depends on them, so the host never has to park an operation waiting for
//! content. Downloads run behind the control message that revealed the gap, so
//! a broadcast stays small whatever the file it announces.
//!
//! Concurrency is bounded here rather than at the host, because the receiver is
//! the side that owns the partial file, and therefore the side that knows how
//! many transfers it can have open at once. Both bounds sit below
//! [`crate::blobwire::MAX_OPEN_TRANSFERS`] so a peer never has to refuse a
//! transfer this side considers legitimate.

use vstd::prelude::*;

use crate::blobs::{
    is_stale, missing_blob, partial_path, with_blob, BlobStore, BlobWriter, Claims, EntryKind, Held,
    Listed, Place,
};
use crate::blobwire::{
    after_frame, decode, decoded, offer_fault, resumed, BlobReceiver, Delivered, DeliveredView,
    Incoming, OpenTransfers, TransferIds, TransferView,
};
use crate::proto::{BlobControl, BlobView, ClientMessage, ClientMessageView};
use crate::text::{begins_with, byte_len, listed, lists, same_text, texts};
use crate::util::Uuid;

verus! {

pub const MAX_CONCURRENT_DOWNLOADS: usize = 8;

pub const MAX_CONCURRENT_UPLOADS: usize = 8;

/// A blob to stream to the peer.
#[derive(Debug)]
pub struct PumpJob {
    pub transfer_id: u64,
    pub hash: String,
    pub from_offset: u64,
}

/// A job as plain values.
pub struct JobView {
    pub transfer_id: u64,
    pub hash: Seq<char>,
    pub from_offset: u64,
}

impl View for PumpJob {
    type V = JobView;

    open spec fn view(&self) -> JobView {
        JobView {
            transfer_id: self.transfer_id,
            hash: self.hash@,
            from_offset: self.from_offset,
        }
    }
}

/// A control message held back until the content it names is durable at the
/// host.
pub struct Deferred {
    /// Identifies the work this message belongs to, so a retry of the same
    /// operation replaces its predecessor instead of queueing beside it.
    pub key: Uuid,
    pub needs: Vec<String>,
    pub message: ClientMessage,
}

/// A held-back message as plain values.
pub struct DeferredView {
    pub key: Uuid,
    pub needs: Seq<Seq<char>>,
    pub message: ClientMessageView,
}

impl View for Deferred {
    type V = DeferredView;

    open spec fn view(&self) -> DeferredView {
        DeferredView { key: self.key, needs: texts(self.needs@), message: self.message@ }
    }
}

/// An offer made and not yet answered.
pub struct Upload {
    pub transfer_id: u64,
    pub hash: String,
}

pub struct UploadView {
    pub transfer_id: u64,
    pub hash: Seq<char>,
}

impl View for Upload {
    type V = UploadView;

    open spec fn view(&self) -> UploadView {
        UploadView { transfer_id: self.transfer_id, hash: self.hash@ }
    }
}

/// What the engine should do as a result of one blob-plane event.
///
/// Returned rather than performed so this type never needs a handle on the
/// engine that owns it.
pub struct Emitted {
    pub messages: Vec<ClientMessage>,
    pub jobs: Vec<PumpJob>,
    /// Blobs that became available locally during this event.
    pub installed: Vec<String>,
    /// Content the host refused, with its reason.
    pub refused: Vec<(String, String)>,
}

/// What an event led to, as plain values.
pub struct EmittedView {
    pub messages: Seq<ClientMessageView>,
    pub jobs: Seq<JobView>,
    pub installed: Seq<Seq<char>>,
    pub refused: Seq<(Seq<char>, Seq<char>)>,
}

pub open spec fn out_views(list: Seq<ClientMessage>) -> Seq<ClientMessageView> {
    list.map_values(|m: ClientMessage| m@)
}

pub open spec fn job_views(list: Seq<PumpJob>) -> Seq<JobView> {
    list.map_values(|j: PumpJob| j@)
}

pub open spec fn pair_views(list: Seq<(String, String)>) -> Seq<(Seq<char>, Seq<char>)> {
    list.map_values(|p: (String, String)| (p.0@, p.1@))
}

impl View for Emitted {
    type V = EmittedView;

    open spec fn view(&self) -> EmittedView {
        EmittedView {
            messages: out_views(self.messages@),
            jobs: job_views(self.jobs@),
            installed: texts(self.installed@),
            refused: pair_views(self.refused@),
        }
    }
}

/// Nothing to do.
pub open spec fn nothing() -> EmittedView {
    EmittedView {
        messages: Seq::empty(),
        jobs: Seq::empty(),
        installed: Seq::empty(),
        refused: Seq::empty(),
    }
}

/// One message to send.
pub open spec fn just(m: ClientMessageView) -> EmittedView {
    EmittedView { messages: seq![m], ..nothing() }
}

/// First what `a` asks for, then what `b` asks for.
pub open spec fn both(a: EmittedView, b: EmittedView) -> EmittedView {
    EmittedView {
        messages: a.messages + b.messages,
        jobs: a.jobs + b.jobs,
        installed: a.installed + b.installed,
        refused: a.refused + b.refused,
    }
}

/// `a` with one more message at the end.
pub open spec fn and_send(a: EmittedView, m: ClientMessageView) -> EmittedView {
    EmittedView { messages: a.messages.push(m), ..a }
}

/// `a` with one more refusal at the end.
pub open spec fn and_refuse(a: EmittedView, hash: Seq<char>, reason: Seq<char>) -> EmittedView {
    EmittedView { refused: a.refused.push((hash, reason)), ..a }
}

impl Emitted {
    pub fn new() -> (e: Emitted)
        ensures
            e@ == nothing(),
    {
        let e = Emitted {
            messages: Vec::new(),
            jobs: Vec::new(),
            installed: Vec::new(),
            refused: Vec::new(),
        };
        proof {
            assert(e@.messages =~= nothing().messages);
            assert(e@.jobs =~= nothing().jobs);
            assert(e@.installed =~= nothing().installed);
            assert(e@.refused =~= nothing().refused);
        }
        e
    }

    pub fn merge(&mut self, other: Emitted)
        ensures
            final(self)@ == both(old(self)@, other@),
    {
        let mut other = other;
        let ghost o = other@;
        self.messages.append(&mut other.messages);
        self.jobs.append(&mut other.jobs);
        self.installed.append(&mut other.installed);
        self.refused.append(&mut other.refused);
        proof {
            let b = both(old(self)@, o);
            assert(self@.messages =~= b.messages);
            assert(self@.jobs =~= b.jobs);
            assert(self@.installed =~= b.installed);
            assert(self@.refused =~= b.refused);
        }
    }

    pub fn message(message: ClientMessage) -> (e: Emitted)
        ensures
            e@ == just(message@),
    {
        let mut e = Emitted::new();
        e.send(message);
        proof {
            assert(e@.messages =~= seq![message@]);
        }
        e
    }

    /// One more message at the end.
    pub fn send(&mut self, message: ClientMessage)
        ensures
            final(self)@ == and_send(old(self)@, message@),
    {
        self.messages.push(message);
        proof {
            assert(self@.messages =~= old(self)@.messages.push(message@));
        }
    }

    /// One more refusal at the end.
    pub fn refuse(&mut self, hash: String, reason: String)
        ensures
            final(self)@ == and_refuse(old(self)@, hash@, reason@),
    {
        self.refused.push((hash, reason));
        proof {
            assert(self@.refused =~= old(self)@.refused.push((hash@, reason@)));
        }
    }

    pub fn is_empty(&self) -> (yes: bool)
        ensures
            yes == (self@ == nothing()),
    {
        let yes = self.messages.len() == 0 && self.jobs.len() == 0 && self.installed.len() == 0
            && self.refused.len() == 0;
        proof {
            assert(out_views(self.messages@).len() == self.messages@.len());
            assert(job_views(self.jobs@).len() == self.jobs@.len());
            assert(texts(self.installed@).len() == self.installed@.len());
            assert(pair_views(self.refused@).len() == self.refused@.len());
            if yes {
                assert(self@.messages =~= nothing().messages);
                assert(self@.jobs =~= nothing().jobs);
                assert(self@.installed =~= nothing().installed);
                assert(self@.refused =~= nothing().refused);
            }
        }
        yes
    }
}

// ---------------------------------------------------------------------------
// The machine as plain values
// ---------------------------------------------------------------------------

/// The state of one participant's blob traffic.
pub struct TrafficView {
    /// Where the local store is.
    pub place: Seq<char>,
    /// What the local store holds.
    pub store: Map<Seq<char>, u64>,
    pub last_id: u64,
    pub transfers: OpenTransfers,
    /// Hashes to fetch, beyond those already asked for.
    pub wanted: Seq<Seq<char>>,
    /// Hashes asked for and not yet resolved one way or the other.
    pub requested: Seq<Seq<char>>,
    /// Hashes to upload, beyond those already offered.
    pub to_upload: Seq<Seq<char>>,
    /// Offers made and not yet answered.
    pub uploading: Seq<UploadView>,
    /// Hashes the host has confirmed it holds, on this connection.
    pub at_host: Seq<Seq<char>>,
    pub deferred: Seq<DeferredView>,
}

/// The content has to be fetched, unless it is here, queued or asked for.
pub open spec fn enqueue_want_rule(v: TrafficView, hash: Seq<char>) -> TrafficView {
    if v.store.contains_key(hash) || v.wanted.contains(hash) || v.requested.contains(hash) {
        v
    } else {
        TrafficView { wanted: v.wanted.push(hash), ..v }
    }
}

pub open spec fn enqueue_wants_rule(v: TrafficView, hashes: Seq<Seq<char>>) -> TrafficView
    decreases hashes.len(),
{
    if hashes.len() == 0 {
        v
    } else {
        enqueue_want_rule(enqueue_wants_rule(v, hashes.drop_last()), hashes.last())
    }
}

/// Ask for queued content while slots are free. What arrived by another route
/// since it was queued is skipped.
pub open spec fn pump_wants_from(v: TrafficView, batch: Seq<Seq<char>>) -> (
    TrafficView,
    Seq<Seq<char>>,
)
    decreases v.wanted.len(),
{
    if v.requested.len() + batch.len() < MAX_CONCURRENT_DOWNLOADS && v.wanted.len() > 0 {
        let hash = v.wanted[0];
        let rest = TrafficView { wanted: v.wanted.drop_first(), ..v };
        if v.store.contains_key(hash) {
            pump_wants_from(rest, batch)
        } else {
            pump_wants_from(
                TrafficView { requested: v.requested.push(hash), ..rest },
                batch.push(hash),
            )
        }
    } else {
        (v, batch)
    }
}

pub open spec fn pump_wants_rule(v: TrafficView) -> (TrafficView, EmittedView) {
    let (next, batch) = pump_wants_from(v, Seq::empty());
    (
        next,
        if batch.len() == 0 {
            nothing()
        } else {
            just(ClientMessageView::RequestBlobs { hashes: batch })
        },
    )
}

/// Whether some offer of `hash` is not answered yet.
pub open spec fn is_uploading(list: Seq<UploadView>, hash: Seq<char>) -> bool {
    exists|i: int| 0 <= i < list.len() && (#[trigger] list[i]).hash == hash
}

/// The content has to be uploaded, unless the host has it or it is under way.
pub open spec fn enqueue_upload_rule(v: TrafficView, hash: Seq<char>) -> TrafficView {
    if v.at_host.contains(hash) || v.to_upload.contains(hash) || is_uploading(v.uploading, hash) {
        v
    } else {
        TrafficView { to_upload: v.to_upload.push(hash), ..v }
    }
}

pub open spec fn enqueue_uploads_rule(v: TrafficView, hashes: Seq<Seq<char>>) -> TrafficView
    decreases hashes.len(),
{
    if hashes.len() == 0 {
        v
    } else {
        enqueue_upload_rule(enqueue_uploads_rule(v, hashes.drop_last()), hashes.last())
    }
}

/// The held-back messages that do not need `hash`.
pub open spec fn without_needing(list: Seq<DeferredView>, hash: Seq<char>) -> Seq<DeferredView> {
    list.filter(|d: DeferredView| !d.needs.contains(hash))
}

/// Offer queued content while slots are free. Content that is no longer on
/// disk can never be uploaded: it is reported, and what waited for it dropped.
pub open spec fn pump_uploads_from(v: TrafficView, out: EmittedView) -> (TrafficView, EmittedView)
    decreases v.to_upload.len(),
{
    if v.uploading.len() < MAX_CONCURRENT_UPLOADS && v.to_upload.len() > 0 {
        let hash = v.to_upload[0];
        let rest = TrafficView { to_upload: v.to_upload.drop_first(), ..v };
        if !v.store.contains_key(hash) {
            pump_uploads_from(
                TrafficView { deferred: without_needing(v.deferred, hash), ..rest },
                and_refuse(out, hash, missing_blob(v.place, hash).message),
            )
        } else {
            let transfer_id = (v.last_id + 1) as u64;
            pump_uploads_from(
                TrafficView {
                    last_id: transfer_id,
                    uploading: v.uploading.push(UploadView { transfer_id, hash }),
                    ..rest
                },
                and_send(
                    out,
                    ClientMessageView::Blob { blob: BlobView::Offer { transfer_id, hash, size: v.store[hash] } },
                ),
            )
        }
    } else {
        (v, out)
    }
}

pub open spec fn pump_uploads_rule(v: TrafficView) -> (TrafficView, EmittedView) {
    pump_uploads_from(v, nothing())
}

/// Whether everything a message needs is at the host.
pub open spec fn all_at_host(needs: Seq<Seq<char>>, at_host: Seq<Seq<char>>) -> bool {
    forall|i: int| 0 <= i < needs.len() ==> at_host.contains(#[trigger] needs[i])
}

/// The messages whose content is at the host, oldest first.
pub open spec fn released(list: Seq<DeferredView>, at_host: Seq<Seq<char>>) -> Seq<ClientMessageView>
    decreases list.len(),
{
    if list.len() == 0 {
        Seq::empty()
    } else if all_at_host(list.last().needs, at_host) {
        released(list.drop_last(), at_host).push(list.last().message)
    } else {
        released(list.drop_last(), at_host)
    }
}

pub open spec fn still_waiting(list: Seq<DeferredView>, at_host: Seq<Seq<char>>) -> Seq<
    DeferredView,
> {
    list.filter(|d: DeferredView| !all_at_host(d.needs, at_host))
}

pub open spec fn drain_rule(v: TrafficView) -> (TrafficView, EmittedView) {
    (
        TrafficView { deferred: still_waiting(v.deferred, v.at_host), ..v },
        EmittedView { messages: released(v.deferred, v.at_host), ..nothing() },
    )
}

/// A set kept as a list: `hash` is added once.
pub open spec fn with_hash(set: Seq<Seq<char>>, hash: Seq<char>) -> Seq<Seq<char>> {
    if set.contains(hash) {
        set
    } else {
        set.push(hash)
    }
}

pub open spec fn without_upload(list: Seq<UploadView>, transfer_id: u64) -> Seq<UploadView> {
    list.filter(|u: UploadView| u.transfer_id != transfer_id)
}

/// The host holds `hash` now: release what waited for it, offer the next.
pub open spec fn confirm_rule(v: TrafficView, transfer_id: u64, hash: Seq<char>) -> (
    TrafficView,
    EmittedView,
) {
    let confirmed = TrafficView {
        uploading: without_upload(v.uploading, transfer_id),
        at_host: with_hash(v.at_host, hash),
        ..v
    };
    let (drained, first) = drain_rule(confirmed);
    let (next, second) = pump_uploads_rule(drained);
    (next, both(first, second))
}

/// A set kept as a list: `hash` is taken out.
pub open spec fn without_hash(set: Seq<Seq<char>>, hash: Seq<char>) -> Seq<Seq<char>> {
    set.filter(|h: Seq<char>| h != hash)
}

/// Free the slot a download occupied and start the next one.
pub open spec fn resolve_rule(v: TrafficView, hash: Seq<char>) -> (TrafficView, EmittedView) {
    if v.requested.contains(hash) {
        pump_wants_rule(
            TrafficView { requested: without_hash(v.requested, hash), ..v },
        )
    } else {
        (v, nothing())
    }
}

/// The first unanswered offer with this id.
pub open spec fn upload_of(list: Seq<UploadView>, transfer_id: u64) -> Option<Seq<char>>
    decreases list.len(),
{
    if list.len() == 0 {
        None
    } else if list[0].transfer_id == transfer_id {
        Some(list[0].hash)
    } else {
        upload_of(list.drop_first(), transfer_id)
    }
}

/// What one control message from the host leads to. `held` is the prefix of
/// the offered content the disk already holds, `free` the disk space left.
pub open spec fn control_rule(v: TrafficView, blob: BlobView, free: Option<u64>, held: Held) -> (
    TrafficView,
    EmittedView,
) {
    match blob {
        BlobView::Offer { transfer_id, hash, size } => if v.store.contains_key(hash) {
            let (next, out) = resolve_rule(v, hash);
            (next, and_send(out, ClientMessageView::Blob { blob: BlobView::Have { transfer_id, hash } }))
        } else {
            match offer_fault(v.transfers, transfer_id, hash, size, free) {
                None => {
                    let kept = resumed(held.content, size);
                    (
                        TrafficView {
                            transfers: v.transfers.insert(
                                transfer_id,
                                TransferView {
                                    hash,
                                    remaining: (size - kept.len()) as u64,
                                    content: kept,
                                    resumable: held.resumable,
                                },
                            ),
                            ..v
                        },
                        just(
                            ClientMessageView::Blob { blob: 
                                BlobView::Want { transfer_id, from_offset: kept.len() as u64 },
                             },
                        ),
                    )
                },
                Some(fault) => {
                    let (next, out) = resolve_rule(v, hash);
                    (
                        enqueue_want_rule(next, hash),
                        and_send(
                            out,
                            ClientMessageView::Blob { blob: 
                                BlobView::Failed { transfer_id, hash, reason: fault.message },
                             },
                        ),
                    )
                },
            }
        },
        BlobView::Want { transfer_id, from_offset } => match upload_of(v.uploading, transfer_id) {
            None => (v, nothing()),
            Some(hash) => (
                v,
                EmittedView { jobs: seq![JobView { transfer_id, hash, from_offset }], ..nothing() },
            ),
        },
        BlobView::Have { transfer_id, hash } => confirm_rule(v, transfer_id, hash),
        BlobView::Done { transfer_id, hash } => confirm_rule(v, transfer_id, hash),
        BlobView::Failed { transfer_id, hash, reason } => {
            let (next, out) = pump_uploads_rule(
                TrafficView {
                    uploading: without_upload(v.uploading, transfer_id),
                    deferred: without_needing(v.deferred, hash),
                    ..v
                },
            );
            (next, and_refuse(out, hash, reason))
        },
        BlobView::Unavailable { hash, reason } => {
            let (next, out) = resolve_rule(v, hash);
            (next, and_refuse(out, hash, reason))
        },
    }
}

/// What one frame off the blob plane leads to.
pub open spec fn data_rule(v: TrafficView, frame: Seq<u8>) -> (TrafficView, EmittedView) {
    match decoded(frame) {
        Err(_) => (v, nothing()),
        Ok(incoming) => {
            let (transfers, delivered) = after_frame(v.transfers, incoming);
            let w = TrafficView { transfers, ..v };
            match delivered {
                DeliveredView::More => (w, nothing()),
                DeliveredView::Stray { .. } => (w, nothing()),
                DeliveredView::Installed { transfer_id, hash } => {
                    let stored = with_blob(
                        v.store,
                        hash,
                        v.transfers[transfer_id].content.len() as u64,
                    );
                    let (next, out) = resolve_rule(TrafficView { store: stored, ..w }, hash);
                    let sent = and_send(out, ClientMessageView::Blob { blob: BlobView::Done { transfer_id, hash } });
                    (next, EmittedView { installed: sent.installed.push(hash), ..sent })
                },
                DeliveredView::Failed { transfer_id, hash, reason } => {
                    let (resolved, first) = resolve_rule(w, hash);
                    let (next, second) = pump_wants_rule(enqueue_want_rule(resolved, hash));
                    let sent = and_send(
                        both(first, second),
                        ClientMessageView::Blob { blob: BlobView::Failed { transfer_id, hash, reason } },
                    );
                    (next, and_refuse(sent, hash, reason))
                },
            }
        },
    }
}

/// The content every held-back message needs, in order.
pub open spec fn needed_by(list: Seq<DeferredView>) -> Seq<Seq<char>>
    decreases list.len(),
{
    if list.len() == 0 {
        Seq::empty()
    } else {
        needed_by(list.drop_last()) + list.last().needs
    }
}

pub open spec fn upload_hashes(list: Seq<UploadView>) -> Seq<Seq<char>> {
    list.map_values(|u: UploadView| u.hash)
}

/// A fresh connection: every transfer restarts and nothing is forgotten.
pub open spec fn reconnect_rule(v: TrafficView) -> (TrafficView, EmittedView) {
    let cleared = TrafficView {
        transfers: OpenTransfers::empty(),
        requested: Seq::empty(),
        ..v
    };
    let wanting = enqueue_wants_rule(cleared, v.requested);
    let offering = enqueue_uploads_rule(
        TrafficView { uploading: Seq::empty(), ..wanting },
        upload_hashes(v.uploading),
    );
    let ready = enqueue_uploads_rule(
        TrafficView { at_host: Seq::empty(), ..offering },
        needed_by(v.deferred),
    );
    let (asked, first) = pump_wants_rule(ready);
    let (next, second) = pump_uploads_rule(asked);
    (next, both(first, second))
}

/// Content is in the local store, unless it was already.
pub open spec fn stored_rule(v: TrafficView, hash: Seq<char>, size: u64) -> TrafficView {
    TrafficView { store: with_blob(v.store, hash, size), ..v }
}

/// Content is no longer in the local store.
pub open spec fn forgotten_rule(v: TrafficView, hash: Seq<char>) -> TrafficView {
    TrafficView { store: v.store.remove(hash), ..v }
}

/// Whether an entry of the local store may be deleted.
pub open spec fn sweepable(
    v: TrafficView,
    item: Listed,
    live: Seq<String>,
    claims: Claims,
    now_ms: u64,
    min_age_ms: u64,
) -> bool {
    match item.place {
        Place::Root => {
            &&& item.kind != EntryKind::Directory
            &&& begins_with(item.name@, ".part-"@)
            &&& is_stale(item.modified_ms, now_ms, min_age_ms)
        },
        Place::PartialDir => {
            &&& !claims.claims(partial_path(v.place, item.name@))
            &&& item.kind == EntryKind::File
            &&& {
                ||| byte_len(item.name@) == 64 && v.store.contains_key(item.name@)
                ||| is_stale(item.modified_ms, now_ms, min_age_ms)
            }
        },
        Place::Shard(name) => {
            &&& byte_len(name@) == 2
            &&& byte_len(item.name@) == 64
            &&& !lists(live, item.name@)
            &&& item.kind == EntryKind::File
            &&& is_stale(item.modified_ms, now_ms, min_age_ms)
        },
    }
}

/// Send `message` once everything it needs is at the host.
pub open spec fn send_rule(
    v: TrafficView,
    key: Uuid,
    needs: Seq<Seq<char>>,
    message: ClientMessageView,
) -> (TrafficView, EmittedView) {
    let kept = TrafficView {
        deferred: v.deferred.filter(|d: DeferredView| d.key != key),
        ..v
    };
    if all_at_host(needs, v.at_host) {
        (kept, just(message))
    } else {
        let queued = enqueue_uploads_rule(kept, needs);
        pump_uploads_rule(
            TrafficView {
                deferred: queued.deferred.push(DeferredView { key, needs, message }),
                ..queued
            },
        )
    }
}

// ---------------------------------------------------------------------------
// The machine
// ---------------------------------------------------------------------------

pub struct BlobTraffic {
    blobs: BlobStore,
    ids: TransferIds,
    receiver: BlobReceiver,
    wanted: Vec<String>,
    requested: Vec<String>,
    to_upload: Vec<String>,
    uploading: Vec<Upload>,
    at_host: Vec<String>,
    deferred: Vec<Deferred>,
}

pub open spec fn upload_views(list: Seq<Upload>) -> Seq<UploadView> {
    list.map_values(|u: Upload| u@)
}

pub open spec fn deferred_views(list: Seq<Deferred>) -> Seq<DeferredView> {
    list.map_values(|d: Deferred| d@)
}

/// What the disk says when content is offered: the space left, where the
/// platform says, and a writer fed with the prefix already held.
pub struct DiskFacts {
    pub free: Option<u64>,
    pub writer: BlobWriter,
}

/// What holds of every state the machine can be in.
pub open spec fn traffic_ok(v: TrafficView) -> bool {
    v.uploading.len() <= MAX_CONCURRENT_UPLOADS
}

/// Transfer ids are left for a full round of offers.
pub open spec fn ids_left(v: TrafficView) -> bool {
    v.last_id + MAX_CONCURRENT_UPLOADS <= u64::MAX
}

/// Traffic that has not begun.
pub open spec fn fresh_traffic(blobs: BlobStore) -> TrafficView {
    TrafficView {
        place: blobs.place(),
        store: blobs.sizes(),
        last_id: 0,
        transfers: OpenTransfers::empty(),
        wanted: Seq::empty(),
        requested: Seq::empty(),
        to_upload: Seq::empty(),
        uploading: Seq::empty(),
        at_host: Seq::empty(),
        deferred: Seq::empty(),
    }
}

impl View for BlobTraffic {
    type V = TrafficView;

    closed spec fn view(&self) -> TrafficView {
        TrafficView {
            place: self.blobs.place(),
            store: self.blobs.sizes(),
            last_id: self.ids.last_id(),
            transfers: self.receiver.transfers(),
            wanted: texts(self.wanted@),
            requested: texts(self.requested@),
            to_upload: texts(self.to_upload@),
            uploading: upload_views(self.uploading@),
            at_host: texts(self.at_host@),
            deferred: deferred_views(self.deferred@),
        }
    }
}

impl BlobTraffic {
    pub closed spec fn wf(&self) -> bool {
        &&& self.blobs.wf()
        &&& self.receiver.wf()
        &&& traffic_ok(self@)
    }

    pub fn new(blobs: BlobStore) -> (t: BlobTraffic)
        requires
            blobs.wf(),
        ensures
            t.wf(),
            t@ == fresh_traffic(blobs),
    {
        let t = BlobTraffic {
            blobs,
            ids: TransferIds::default(),
            receiver: BlobReceiver::new(),
            wanted: Vec::new(),
            requested: Vec::new(),
            to_upload: Vec::new(),
            uploading: Vec::new(),
            at_host: Vec::new(),
            deferred: Vec::new(),
        };
        proof {
            assert(t@.wanted =~= Seq::<Seq<char>>::empty());
            assert(t@.uploading =~= Seq::<UploadView>::empty());
            assert(t@.deferred =~= Seq::<DeferredView>::empty());
        }
        t
    }

    // ------------------------------------------------------------- downloads

    fn enqueue_want(&mut self, hash: String)
        requires
            old(self).wf(),
        ensures
            final(self).wf(),
            final(self)@ == enqueue_want_rule(old(self)@, hash@),
    {
        if self.blobs.has(hash.as_str()) || listed(&self.wanted, hash.as_str()) || listed(
            &self.requested,
            hash.as_str(),
        ) {
            return;
        }
        let ghost before = self.wanted@;
        self.wanted.push(hash);
        proof {
            crate::text::lemma_texts_push(before, hash);
        }
    }

    fn pump_wants(&mut self) -> (out: Emitted)
        requires
            old(self).wf(),
        ensures
            final(self).wf(),
            (final(self)@, out@) == pump_wants_rule(old(self)@),
    {
        let mut batch: Vec<String> = Vec::new();
        proof {
            assert(texts(batch@) =~= Seq::<Seq<char>>::empty());
        }
        while self.requested.len() < MAX_CONCURRENT_DOWNLOADS - batch.len() && self.wanted.len()
            > 0
            invariant
                self.wf(),
                pump_wants_from(self@, texts(batch@)) == pump_wants_from(
                    old(self)@,
                    Seq::empty(),
                ),
                batch@.len() <= MAX_CONCURRENT_DOWNLOADS,
            decreases self.wanted@.len(),
        {
            let ghost v = self@;
            let ghost was = self.wanted@;
            let ghost asked = self.requested@;
            let ghost taken = batch@;
            let hash = self.wanted.remove(0);
            proof {
                assert(texts(self.wanted@) =~= v.wanted.drop_first());
            }
            // It may have arrived by another route since it was queued.
            if self.blobs.has(hash.as_str()) {
                proof {
                    assert(self@ == (TrafficView { wanted: v.wanted.drop_first(), ..v }));
                }
            } else {
                let copy = hash.clone();
                self.requested.push(copy);
                batch.push(hash);
                proof {
                    crate::text::lemma_texts_push(asked, copy);
                    crate::text::lemma_texts_push(taken, hash);
                    assert(self@ == (TrafficView {
                        wanted: v.wanted.drop_first(),
                        requested: v.requested.push(hash@),
                        ..v
                    }));
                }
            }
        }
        proof {
            assert(texts(batch@).len() == batch@.len());
        }
        if batch.len() == 0 {
            proof {
                assert(texts(batch@) =~= Seq::<Seq<char>>::empty());
            }
            return Emitted::new();
        }
        Emitted::message(ClientMessage::RequestBlobs { hashes: batch })
    }

    /// Note that this content has to reach the working tree.
    pub fn want(&mut self, hashes: Vec<String>) -> (out: Emitted)
        requires
            old(self).wf(),
        ensures
            final(self).wf(),
            (final(self)@, out@) == pump_wants_rule(
                enqueue_wants_rule(old(self)@, texts(hashes@)),
            ),
    {
        self.enqueue_wants(&hashes);
        self.pump_wants()
    }

    fn enqueue_wants(&mut self, hashes: &Vec<String>)
        requires
            old(self).wf(),
        ensures
            final(self).wf(),
            final(self)@ == enqueue_wants_rule(old(self)@, texts(hashes@)),
    {
        let mut i: usize = 0;
        while i < hashes.len()
            invariant
                self.wf(),
                i <= hashes@.len(),
                self@ == enqueue_wants_rule(old(self)@, texts(hashes@).take(i as int)),
            decreases hashes@.len() - i,
        {
            proof {
                let now = texts(hashes@).take(i + 1);
                assert(now.drop_last() =~= texts(hashes@).take(i as int));
                assert(now.last() == hashes@[i as int]@);
            }
            self.enqueue_want(hashes[i].clone());
            i = i + 1;
        }
        proof {
            assert(texts(hashes@).take(i as int) =~= texts(hashes@));
        }
    }

    /// True while content the working tree needs has still to arrive.
    pub fn waiting_for_content(&self) -> (yes: bool)
        ensures
            yes == (self@.wanted.len() > 0 || self@.requested.len() > 0),
    {
        self.wanted.len() > 0 || self.requested.len() > 0
    }

    /// Whether transfer numbers are left for a full round of offers.
    pub fn has_ids(&self) -> (yes: bool)
        ensures
            yes == ids_left(self@),
    {
        self.ids.last() <= u64::MAX - MAX_CONCURRENT_UPLOADS as u64
    }

    /// Whether content is here.
    pub fn holds(&self, hash: &str) -> (yes: bool)
        ensures
            yes == self@.store.contains_key(hash@),
    {
        self.blobs.has(hash)
    }

    /// Content was put into the store from the working tree.
    pub fn stored(&mut self, hash: &str, size: u64)
        requires
            old(self).wf(),
        ensures
            final(self).wf(),
            final(self)@ == stored_rule(old(self)@, hash@, size),
    {
        let _ = self.blobs.install(hash, size);
    }

    /// Content was removed from the store.
    pub fn forget(&mut self, hash: &str)
        requires
            old(self).wf(),
        ensures
            final(self).wf(),
            final(self)@ == forgotten_rule(old(self)@, hash@),
    {
        self.blobs.forget(hash);
    }

    /// Which entries of the local store may be deleted, by position.
    pub fn collect_garbage(
        &self,
        items: &Vec<Listed>,
        live: &Vec<String>,
        claims: &Claims,
        now_ms: u64,
        min_age_ms: u64,
    ) -> (doomed: Vec<usize>)
        ensures
            forall|k: int|
                0 <= k < doomed@.len() ==> (#[trigger] doomed@[k]) < items@.len() && sweepable(
                    self@,
                    items@[doomed@[k] as int],
                    live@,
                    *claims,
                    now_ms,
                    min_age_ms,
                ),
            forall|i: int|
                0 <= i < items@.len() && sweepable(
                    self@,
                    #[trigger] items@[i],
                    live@,
                    *claims,
                    now_ms,
                    min_age_ms,
                ) ==> doomed@.contains(i as usize),
            forall|a: int, b: int| 0 <= a < b < doomed@.len() ==> doomed@[a] < doomed@[b],
    {
        self.blobs.collect_garbage(items, live, claims, now_ms, min_age_ms)
    }

    // --------------------------------------------------------------- uploads

    fn offered(&self, hash: &str) -> (yes: bool)
        ensures
            yes == is_uploading(self@.uploading, hash@),
    {
        let mut i: usize = 0;
        while i < self.uploading.len()
            invariant
                i <= self.uploading@.len(),
                forall|k: int| 0 <= k < i ==> (#[trigger] self@.uploading[k]).hash != hash@,
            decreases self.uploading@.len() - i,
        {
            if same_text(self.uploading[i].hash.as_str(), hash) {
                assert(self@.uploading[i as int].hash == hash@);
                return true;
            }
            i = i + 1;
        }
        false
    }

    fn enqueue_upload(&mut self, hash: String)
        requires
            old(self).wf(),
        ensures
            final(self).wf(),
            final(self)@ == enqueue_upload_rule(old(self)@, hash@),
    {
        if listed(&self.at_host, hash.as_str()) || listed(&self.to_upload, hash.as_str())
            || self.offered(hash.as_str()) {
            return;
        }
        let ghost before = self.to_upload@;
        self.to_upload.push(hash);
        proof {
            crate::text::lemma_texts_push(before, hash);
        }
    }

    fn enqueue_uploads(&mut self, hashes: &Vec<String>)
        requires
            old(self).wf(),
        ensures
            final(self).wf(),
            final(self)@ == enqueue_uploads_rule(old(self)@, texts(hashes@)),
    {
        let mut i: usize = 0;
        while i < hashes.len()
            invariant
                self.wf(),
                i <= hashes@.len(),
                self@ == enqueue_uploads_rule(old(self)@, texts(hashes@).take(i as int)),
            decreases hashes@.len() - i,
        {
            proof {
                let now = texts(hashes@).take(i + 1);
                assert(now.drop_last() =~= texts(hashes@).take(i as int));
                assert(now.last() == hashes@[i as int]@);
            }
            self.enqueue_upload(hashes[i].clone());
            i = i + 1;
        }
        proof {
            assert(texts(hashes@).take(i as int) =~= texts(hashes@));
        }
    }

    fn drop_deferred_needing(&mut self, hash: &str)
        requires
            old(self).wf(),
        ensures
            final(self).wf(),
            final(self)@ == (TrafficView {
                deferred: without_needing(old(self)@.deferred, hash@),
                ..old(self)@
            }),
    {
        let ghost v = self@;
        let ghost keep = |d: DeferredView| !d.needs.contains(hash@);
        let mut pending: Vec<Deferred> = Vec::new();
        std::mem::swap(&mut pending, &mut self.deferred);
        let ghost all = deferred_views(pending@);
        let mut kept: Vec<Deferred> = Vec::new();
        proof {
            reveal(Seq::filter);
            assert(deferred_views(kept@) =~= all.take(0).filter(keep));
            assert(all.skip(0) =~= all);
            assert(deferred_views(pending@) =~= all.skip(0));
        }
        let ghost mut done: int = 0;
        while pending.len() > 0
            invariant
                0 <= done <= all.len(),
                done + pending@.len() == all.len(),
                deferred_views(pending@) == all.skip(done),
                keep == (|d: DeferredView| !d.needs.contains(hash@)),
                deferred_views(kept@) == all.take(done).filter(keep),
            decreases pending@.len(),
        {
            let ghost waiting = pending@;
            let ghost before = kept@;
            let d = pending.remove(0);
            proof {
                assert(d@ == deferred_views(waiting)[0]);
                assert(d@ == all[done]);
                assert forall|k: int| 0 <= k < pending@.len() implies deferred_views(pending@)[k]
                    == all.skip(done + 1)[k] by {
                    assert(pending@[k] == waiting[k + 1]);
                    assert(deferred_views(waiting)[k + 1] == all.skip(done)[k + 1]);
                }
                assert(deferred_views(pending@) =~= all.skip(done + 1));
                reveal(Seq::filter);
                assert(all.take(done + 1).drop_last() =~= all.take(done));
                assert(all.take(done + 1).last() == all[done]);
            }
            if !listed(&d.needs, hash) {
                kept.push(d);
                proof {
                    assert(deferred_views(kept@) =~= deferred_views(before).push(d@));
                }
            }
            proof {
                done = done + 1;
            }
        }
        proof {
            assert(all.take(done) =~= all);
        }
        self.deferred = kept;
    }

    fn pump_uploads(&mut self) -> (out: Emitted)
        requires
            old(self).wf(),
            ids_left(old(self)@),
        ensures
            final(self).wf(),
            (final(self)@, out@) == pump_uploads_rule(old(self)@),
    {
        let mut out = Emitted::new();
        while self.uploading.len() < MAX_CONCURRENT_UPLOADS && self.to_upload.len() > 0
            invariant
                self.wf(),
                ids_left(old(self)@),
                self@.last_id - self@.uploading.len() == old(self)@.last_id
                    - old(self)@.uploading.len(),
                pump_uploads_from(self@, out@) == pump_uploads_from(old(self)@, nothing()),
            decreases self.to_upload@.len(),
        {
            let ghost v = self@;
            let hash = self.to_upload.remove(0);
            proof {
                assert(v.to_upload[0] == hash@);
                assert(texts(self.to_upload@) =~= v.to_upload.drop_first());
                assert(self@ == (TrafficView { to_upload: v.to_upload.drop_first(), ..v }));
                assert(upload_views(self.uploading@).len() == self.uploading@.len());
            }
            match self.blobs.size_of(hash.as_str()) {
                Ok(size) => {
                    let ghost offers = self.uploading@;
                    let transfer_id = self.ids.next_id();
                    let u = Upload { transfer_id, hash: hash.clone() };
                    self.uploading.push(u);
                    proof {
                        assert(upload_views(self.uploading@) =~= upload_views(offers).push(u@));
                    }
                    let ghost name = hash@;
                    out.send(
                        ClientMessage::Blob { blob: BlobControl::Offer { transfer_id, hash, size } },
                    );
                    proof {
                        assert(v.store[name] == size);
                        assert(self@ == (TrafficView {
                            last_id: transfer_id,
                            to_upload: v.to_upload.drop_first(),
                            uploading: v.uploading.push(UploadView { transfer_id, hash: name }),
                            ..v
                        }));
                    }
                },
                Err(e) => {
                    // Content this replica captured is no longer on disk. The
                    // message that needs it can never be honoured, so drop it
                    // rather than leave the caller waiting forever; the outbox
                    // rebuilds the operation from the working tree.
                    let name = hash.clone();
                    out.refuse(hash, e.message);
                    self.drop_deferred_needing(name.as_str());
                },
            }
        }
        proof {
            assert(upload_views(self.uploading@).len() == self.uploading@.len());
            assert(texts(self.to_upload@).len() == self.to_upload@.len());
        }
        out
    }

    /// Send `message` once every hash in `needs` is durable at the host.
    ///
    /// The message goes out immediately when the host already holds the
    /// content, which is the common case for a repeated edit or a revert.
    pub fn send_when_uploaded(
        &mut self,
        key: Uuid,
        needs: Vec<String>,
        message: ClientMessage,
    ) -> (out: Emitted)
        requires
            old(self).wf(),
            ids_left(old(self)@),
        ensures
            final(self).wf(),
            (final(self)@, out@) == send_rule(old(self)@, key, texts(needs@), message@),
    {
        self.forget_key(key);
        if self.has_all(&needs) {
            return Emitted::message(message);
        }
        self.enqueue_uploads(&needs);
        proof {
            lemma_enqueue_uploads_frame(
                TrafficView {
                    deferred: old(self)@.deferred.filter(|d: DeferredView| d.key != key),
                    ..old(self)@
                },
                texts(needs@),
            );
        }
        let ghost before = self.deferred@;
        let ghost names = texts(needs@);
        let d = Deferred { key, needs, message };
        self.deferred.push(d);
        proof {
            assert(deferred_views(self.deferred@) =~= deferred_views(before).push(d@));
        }
        self.pump_uploads()
    }

    fn forget_key(&mut self, key: Uuid)
        requires
            old(self).wf(),
        ensures
            final(self).wf(),
            final(self)@ == (TrafficView {
                deferred: old(self)@.deferred.filter(|d: DeferredView| d.key != key),
                ..old(self)@
            }),
    {
        let ghost keep = |d: DeferredView| d.key != key;
        let mut pending: Vec<Deferred> = Vec::new();
        std::mem::swap(&mut pending, &mut self.deferred);
        let ghost all = deferred_views(pending@);
        let mut kept: Vec<Deferred> = Vec::new();
        proof {
            reveal(Seq::filter);
            assert(deferred_views(kept@) =~= all.take(0).filter(keep));
            assert(deferred_views(pending@) =~= all.skip(0));
        }
        let ghost mut done: int = 0;
        while pending.len() > 0
            invariant
                0 <= done <= all.len(),
                done + pending@.len() == all.len(),
                deferred_views(pending@) == all.skip(done),
                keep == (|d: DeferredView| d.key != key),
                deferred_views(kept@) == all.take(done).filter(keep),
            decreases pending@.len(),
        {
            let ghost waiting = pending@;
            let ghost before = kept@;
            let d = pending.remove(0);
            proof {
                assert(d@ == deferred_views(waiting)[0]);
                assert(d@ == all[done]);
                assert forall|k: int| 0 <= k < pending@.len() implies deferred_views(pending@)[k]
                    == all.skip(done + 1)[k] by {
                    assert(pending@[k] == waiting[k + 1]);
                    assert(deferred_views(waiting)[k + 1] == all.skip(done)[k + 1]);
                }
                assert(deferred_views(pending@) =~= all.skip(done + 1));
                reveal(Seq::filter);
                assert(all.take(done + 1).drop_last() =~= all.take(done));
                assert(all.take(done + 1).last() == all[done]);
            }
            if d.key != key {
                kept.push(d);
                proof {
                    assert(deferred_views(kept@) =~= deferred_views(before).push(d@));
                }
            }
            proof {
                done = done + 1;
            }
        }
        proof {
            assert(all.take(done) =~= all);
        }
        self.deferred = kept;
    }

    fn has_all(&self, needs: &Vec<String>) -> (yes: bool)
        ensures
            yes == all_at_host(texts(needs@), self@.at_host),
    {
        let mut i: usize = 0;
        while i < needs.len()
            invariant
                i <= needs@.len(),
                forall|k: int|
                    0 <= k < i ==> self@.at_host.contains(#[trigger] texts(needs@)[k]),
            decreases needs@.len() - i,
        {
            if !listed(&self.at_host, needs[i].as_str()) {
                assert(!self@.at_host.contains(texts(needs@)[i as int]));
                return false;
            }
            i = i + 1;
        }
        true
    }

    fn drain_deferred(&mut self) -> (out: Emitted)
        requires
            old(self).wf(),
        ensures
            final(self).wf(),
            (final(self)@, out@) == drain_rule(old(self)@),
    {
        let mut out = Emitted::new();
        let ghost host = self@.at_host;
        let ghost keep = |d: DeferredView| !all_at_host(d.needs, host);
        let mut pending: Vec<Deferred> = Vec::new();
        std::mem::swap(&mut pending, &mut self.deferred);
        let ghost all = deferred_views(pending@);
        let mut kept: Vec<Deferred> = Vec::new();
        proof {
            reveal(Seq::filter);
            assert(deferred_views(kept@) =~= all.take(0).filter(keep));
            assert(deferred_views(pending@) =~= all.skip(0));
            assert(out@.messages =~= released(all.take(0), host));
        }
        let ghost mut done: int = 0;
        while pending.len() > 0
            invariant
                0 <= done <= all.len(),
                done + pending@.len() == all.len(),
                host == self@.at_host,
                deferred_views(pending@) == all.skip(done),
                keep == (|d: DeferredView| !all_at_host(d.needs, host)),
                deferred_views(kept@) == all.take(done).filter(keep),
                out@ == (EmittedView { messages: released(all.take(done), host), ..nothing() }),
            decreases pending@.len(),
        {
            let ghost waiting = pending@;
            let ghost before = kept@;
            let d = pending.remove(0);
            proof {
                assert(d@ == deferred_views(waiting)[0]);
                assert(d@ == all[done]);
                assert forall|k: int| 0 <= k < pending@.len() implies deferred_views(pending@)[k]
                    == all.skip(done + 1)[k] by {
                    assert(pending@[k] == waiting[k + 1]);
                    assert(deferred_views(waiting)[k + 1] == all.skip(done)[k + 1]);
                }
                assert(deferred_views(pending@) =~= all.skip(done + 1));
                reveal(Seq::filter);
                assert(all.take(done + 1).drop_last() =~= all.take(done));
                assert(all.take(done + 1).last() == all[done]);
            }
            if self.has_all(&d.needs) {
                out.send(d.message);
            } else {
                kept.push(d);
                proof {
                    assert(deferred_views(kept@) =~= deferred_views(before).push(d@));
                }
            }
            proof {
                done = done + 1;
            }
        }
        proof {
            assert(all.take(done) =~= all);
        }
        self.deferred = kept;
        out
    }

    fn remove_upload(&mut self, transfer_id: u64)
        requires
            old(self).wf(),
        ensures
            final(self).wf(),
            final(self)@ == (TrafficView {
                uploading: without_upload(old(self)@.uploading, transfer_id),
                ..old(self)@
            }),
            final(self)@.uploading.len() <= old(self)@.uploading.len(),
    {
        let ghost keep = |u: UploadView| u.transfer_id != transfer_id;
        let mut pending: Vec<Upload> = Vec::new();
        std::mem::swap(&mut pending, &mut self.uploading);
        let ghost all = upload_views(pending@);
        let mut kept: Vec<Upload> = Vec::new();
        proof {
            reveal(Seq::filter);
            assert(upload_views(kept@) =~= all.take(0).filter(keep));
            assert(upload_views(pending@) =~= all.skip(0));
        }
        let ghost mut done: int = 0;
        while pending.len() > 0
            invariant
                0 <= done <= all.len(),
                done + pending@.len() == all.len(),
                upload_views(pending@) == all.skip(done),
                keep == (|u: UploadView| u.transfer_id != transfer_id),
                upload_views(kept@) == all.take(done).filter(keep),
                kept@.len() <= done,
            decreases pending@.len(),
        {
            let ghost waiting = pending@;
            let ghost before = kept@;
            let u = pending.remove(0);
            proof {
                assert(u@ == upload_views(waiting)[0]);
                assert(u@ == all[done]);
                assert forall|k: int| 0 <= k < pending@.len() implies upload_views(pending@)[k]
                    == all.skip(done + 1)[k] by {
                    assert(pending@[k] == waiting[k + 1]);
                    assert(upload_views(waiting)[k + 1] == all.skip(done)[k + 1]);
                }
                assert(upload_views(pending@) =~= all.skip(done + 1));
                reveal(Seq::filter);
                assert(all.take(done + 1).drop_last() =~= all.take(done));
                assert(all.take(done + 1).last() == all[done]);
            }
            if u.transfer_id != transfer_id {
                kept.push(u);
                proof {
                    assert(upload_views(kept@) =~= upload_views(before).push(u@));
                }
            }
            proof {
                done = done + 1;
            }
        }
        proof {
            assert(all.take(done) =~= all);
        }
        self.uploading = kept;
    }

    fn confirm_at_host(&mut self, transfer_id: u64, hash: String) -> (out: Emitted)
        requires
            old(self).wf(),
            ids_left(old(self)@),
        ensures
            final(self).wf(),
            (final(self)@, out@) == confirm_rule(old(self)@, transfer_id, hash@),
    {
        self.remove_upload(transfer_id);
        if !listed(&self.at_host, hash.as_str()) {
            let ghost before = self.at_host@;
            self.at_host.push(hash);
            proof {
                crate::text::lemma_texts_push(before, hash);
            }
        }
        let mut out = self.drain_deferred();
        let more = self.pump_uploads();
        out.merge(more);
        out
    }

    // -------------------------------------------------------------- incoming

    /// Free the slot a download occupied and start the next one.
    fn resolve_download(&mut self, hash: &str) -> (out: Emitted)
        requires
            old(self).wf(),
        ensures
            final(self).wf(),
            (final(self)@, out@) == resolve_rule(old(self)@, hash@),
            final(self)@.last_id == old(self)@.last_id,
    {
        proof {
            lemma_pump_wants_frame(
                TrafficView {
                    requested: without_hash(old(self)@.requested, hash@),
                    ..old(self)@
                },
                Seq::empty(),
            );
        }
        if !listed(&self.requested, hash) {
            return Emitted::new();
        }
        let ghost all = texts(self.requested@);
        let ghost keep = |h: Seq<char>| h != hash@;
        let mut kept: Vec<String> = Vec::new();
        let mut i: usize = 0;
        proof {
            reveal(Seq::filter);
            assert(texts(kept@) =~= all.take(0).filter(keep));
        }
        while i < self.requested.len()
            invariant
                i <= self.requested@.len(),
                all == texts(self.requested@),
                keep == (|h: Seq<char>| h != hash@),
                texts(kept@) == all.take(i as int).filter(keep),
            decreases self.requested@.len() - i,
        {
            let ghost before = kept@;
            proof {
                reveal(Seq::filter);
                assert(all.take(i + 1).drop_last() =~= all.take(i as int));
                assert(all.take(i + 1).last() == self.requested@[i as int]@);
            }
            if !same_text(self.requested[i].as_str(), hash) {
                let t = self.requested[i].clone();
                kept.push(t);
                proof {
                    crate::text::lemma_texts_push(before, t);
                }
            }
            i = i + 1;
        }
        proof {
            assert(all.take(i as int) =~= all);
        }
        self.requested = kept;
        self.pump_wants()
    }

    fn upload_hash(&self, transfer_id: u64) -> (hash: Option<String>)
        ensures
            match hash {
                Some(h) => upload_of(self@.uploading, transfer_id) == Some(h@),
                None => upload_of(self@.uploading, transfer_id) is None,
            },
    {
        let mut i: usize = 0;
        proof {
            assert(self@.uploading.skip(0) =~= self@.uploading);
        }
        while i < self.uploading.len()
            invariant
                i <= self.uploading@.len(),
                upload_of(self@.uploading, transfer_id) == upload_of(
                    self@.uploading.skip(i as int),
                    transfer_id,
                ),
            decreases self.uploading@.len() - i,
        {
            proof {
                assert(self@.uploading.len() == self.uploading@.len());
                assert(self@.uploading.skip(i as int)[0] == self.uploading@[i as int]@);
                assert(self@.uploading.skip(i as int).drop_first() =~= self@.uploading.skip(i + 1));
            }
            if self.uploading[i].transfer_id == transfer_id {
                return Some(self.uploading[i].hash.clone());
            }
            i = i + 1;
        }
        None
    }

    /// One blob-plane control message from the host.
    pub fn on_control(&mut self, blob: BlobControl, disk: DiskFacts) -> (out: Emitted)
        requires
            old(self).wf(),
            ids_left(old(self)@),
            disk.writer.wf(),
        ensures
            final(self).wf(),
            (final(self)@, out@) == control_rule(
                old(self)@,
                blob@,
                disk.free,
                disk.writer.held(),
            ),
    {
        match blob {
            // The host is offering content this replica asked for.
            BlobControl::Offer { transfer_id, hash, size } => {
                if self.blobs.has(hash.as_str()) {
                    let mut out = self.resolve_download(hash.as_str());
                    out.send(ClientMessage::Blob { blob: BlobControl::Have { transfer_id, hash } });
                    return out;
                }
                let accepted = self.receiver.accept_offer(
                    transfer_id,
                    hash.as_str(),
                    size,
                    &self.blobs,
                    disk.free,
                    disk.writer,
                );
                match accepted {
                    Ok(from_offset) => {
                        Emitted::message(
                            ClientMessage::Blob {
                                blob: BlobControl::Want { transfer_id, from_offset },
                            },
                        )
                    },
                    Err(e) => {
                        // Refusing here loses nothing: the hash stays wanted
                        // and the next rescan asks again with a free slot.
                        proof {
                            assert(self@ == old(self)@);
                        }
                        let mut out = self.resolve_download(hash.as_str());
                        self.enqueue_want(hash.clone());
                        out.send(
                            ClientMessage::Blob {
                                blob: BlobControl::Failed { transfer_id, hash, reason: e.message },
                            },
                        );
                        out
                    },
                }
            },
            // The host is ready to receive something this replica offered.
            BlobControl::Want { transfer_id, from_offset } => {
                match self.upload_hash(transfer_id) {
                    None => Emitted::new(),
                    Some(hash) => {
                        let mut out = Emitted::new();
                        let job = PumpJob { transfer_id, hash, from_offset };
                        out.jobs.push(job);
                        proof {
                            assert(out@.jobs =~= seq![job@]);
                        }
                        out
                    },
                }
            },
            BlobControl::Have { transfer_id, hash } => self.confirm_at_host(transfer_id, hash),
            BlobControl::Done { transfer_id, hash } => self.confirm_at_host(transfer_id, hash),
            BlobControl::Failed { transfer_id, hash, reason } => {
                self.remove_upload(transfer_id);
                self.drop_deferred_needing(hash.as_str());
                let mut out = self.pump_uploads();
                out.refuse(hash, reason);
                out
            },
            BlobControl::Unavailable { hash, reason } => {
                let mut out = self.resolve_download(hash.as_str());
                out.refuse(hash, reason);
                out
            },
        }
    }

    /// One frame off the blob plane.
    pub fn on_data(&mut self, frame: &[u8]) -> (out: Emitted)
        requires
            old(self).wf(),
        ensures
            final(self).wf(),
            (final(self)@, out@) == data_rule(old(self)@, frame@),
    {
        let incoming = match decode(frame) {
            Ok(incoming) => incoming,
            Err(_) => {
                return Emitted::new();
            },
        };
        let size: u64 = match &incoming {
            Incoming::End { transfer_id } => self.receiver.received(*transfer_id),
            _ => 0,
        };
        let ghost v = self@;
        let ghost seen = incoming@;
        match self.receiver.accept(incoming) {
            Delivered::More => Emitted::new(),
            Delivered::Installed { transfer_id, hash } => {
                let _ = self.blobs.install(hash.as_str(), size);
                let mut out = self.resolve_download(hash.as_str());
                out.send(
                    ClientMessage::Blob {
                        blob: BlobControl::Done { transfer_id, hash: hash.clone() },
                    },
                );
                let ghost sent = out@;
                out.installed.push(hash);
                proof {
                    assert(out@.installed =~= sent.installed.push(hash@));
                }
                out
            },
            Delivered::Failed { transfer_id, hash, reason } => {
                // Nothing was installed. Requeue: a corrupt or interrupted
                // transfer must be retried, not silently abandoned.
                let mut out = self.resolve_download(hash.as_str());
                self.enqueue_want(hash.clone());
                let more = self.pump_wants();
                out.merge(more);
                out.send(
                    ClientMessage::Blob {
                        blob: BlobControl::Failed {
                            transfer_id,
                            hash: hash.clone(),
                            reason: reason.clone(),
                        },
                    },
                );
                out.refuse(hash, reason);
                out
            },
            Delivered::Stray { transfer_id } => Emitted::new(),
        }
    }

    /// Start again on a fresh connection.
    ///
    /// Transfer ids mean nothing across sockets, so every transfer restarts.
    /// Nothing is forgotten: what was in flight goes back into the queue it
    /// came from, and deferred messages re-offer their content.
    pub fn reconnected(&mut self) -> (out: Emitted)
        requires
            old(self).wf(),
            ids_left(old(self)@),
        ensures
            final(self).wf(),
            (final(self)@, out@) == reconnect_rule(old(self)@),
    {
        let ghost v = self@;
        self.receiver.clear();
        let mut again: Vec<String> = Vec::new();
        std::mem::swap(&mut again, &mut self.requested);
        proof {
            assert(texts(self.requested@) =~= Seq::<Seq<char>>::empty());
        }
        self.enqueue_wants(&again);
        let ghost wanting = self@;
        proof {
            lemma_enqueue_wants_frame(
                TrafficView { transfers: OpenTransfers::empty(), requested: Seq::empty(), ..v },
                v.requested,
            );
        }
        let mut offers: Vec<Upload> = Vec::new();
        std::mem::swap(&mut offers, &mut self.uploading);
        let mut names: Vec<String> = Vec::new();
        let mut i: usize = 0;
        while i < offers.len()
            invariant
                i <= offers@.len(),
                names@.len() == i,
                forall|k: int| 0 <= k < i ==> (#[trigger] names@[k])@ == offers@[k].hash@,
            decreases offers@.len() - i,
        {
            names.push(offers[i].hash.clone());
            i = i + 1;
        }
        proof {
            assert(texts(names@) =~= upload_hashes(v.uploading));
            assert(upload_views(self.uploading@) =~= Seq::<UploadView>::empty());
        }
        self.enqueue_uploads(&names);
        proof {
            lemma_enqueue_uploads_frame(
                TrafficView { uploading: Seq::empty(), ..wanting },
                texts(names@),
            );
        }
        self.at_host.clear();
        proof {
            assert(texts(self.at_host@) =~= Seq::<Seq<char>>::empty());
        }
        let needed = self.all_needed();
        let ghost offering = self@;
        self.enqueue_uploads(&needed);
        proof {
            lemma_enqueue_uploads_frame(offering, texts(needed@));
            lemma_pump_wants_frame(self@, Seq::empty());
        }
        let mut out = self.pump_wants();
        let more = self.pump_uploads();
        out.merge(more);
        out
    }

    fn all_needed(&self) -> (needed: Vec<String>)
        requires
            self.wf(),
        ensures
            texts(needed@) == needed_by(self@.deferred),
    {
        let mut needed: Vec<String> = Vec::new();
        let mut i: usize = 0;
        proof {
            assert(texts(needed@) =~= needed_by(self@.deferred.take(0)));
        }
        while i < self.deferred.len()
            invariant
                self.wf(),
                i <= self.deferred@.len(),
                texts(needed@) == needed_by(self@.deferred.take(i as int)),
            decreases self.deferred@.len() - i,
        {
            let ghost before = texts(needed@);
            let ghost d = self.deferred@[i as int];
            proof {
                assert(self@.deferred.len() == self.deferred@.len());
                assert(self@.deferred[i as int] == d@);
                assert(self@.deferred.take(i + 1).drop_last() =~= self@.deferred.take(i as int));
                assert(self@.deferred.take(i + 1).last() == d@);
            }
            let mut k: usize = 0;
            proof {
                assert(before + texts(d.needs@).take(0) =~= before);
            }
            while k < self.deferred[i].needs.len()
                invariant
                    i < self.deferred@.len(),
                    d == self.deferred@[i as int],
                    k <= d.needs@.len(),
                    texts(needed@) == before + texts(d.needs@).take(k as int),
                decreases d.needs@.len() - k,
            {
                let ghost was = needed@;
                let t = self.deferred[i].needs[k].clone();
                needed.push(t);
                proof {
                    crate::text::lemma_texts_push(was, t);
                    assert(before + texts(d.needs@).take(k + 1) =~= (before + texts(d.needs@).take(
                        k as int,
                    )).push(t@));
                }
                k = k + 1;
            }
            proof {
                assert(texts(d.needs@).take(k as int) =~= texts(d.needs@));
            }
            i = i + 1;
        }
        proof {
            assert(self@.deferred.take(i as int) =~= self@.deferred);
        }
        needed
    }
}

// ---------------------------------------------------------------------------
// What each step leaves alone
// ---------------------------------------------------------------------------

pub proof fn lemma_enqueue_wants_frame(v: TrafficView, hashes: Seq<Seq<char>>)
    ensures
        enqueue_wants_rule(v, hashes) == (TrafficView {
            wanted: enqueue_wants_rule(v, hashes).wanted,
            ..v
        }),
    decreases hashes.len(),
{
    if hashes.len() > 0 {
        lemma_enqueue_wants_frame(v, hashes.drop_last());
    }
}

pub proof fn lemma_enqueue_uploads_frame(v: TrafficView, hashes: Seq<Seq<char>>)
    ensures
        enqueue_uploads_rule(v, hashes) == (TrafficView {
            to_upload: enqueue_uploads_rule(v, hashes).to_upload,
            ..v
        }),
    decreases hashes.len(),
{
    if hashes.len() > 0 {
        lemma_enqueue_uploads_frame(v, hashes.drop_last());
    }
}

pub proof fn lemma_pump_wants_frame(v: TrafficView, batch: Seq<Seq<char>>)
    ensures
        pump_wants_from(v, batch).0 == (TrafficView {
            wanted: pump_wants_from(v, batch).0.wanted,
            requested: pump_wants_from(v, batch).0.requested,
            ..v
        }),
    decreases v.wanted.len(),
{
    if v.requested.len() + batch.len() < MAX_CONCURRENT_DOWNLOADS && v.wanted.len() > 0 {
        let hash = v.wanted[0];
        let rest = TrafficView { wanted: v.wanted.drop_first(), ..v };
        if v.store.contains_key(hash) {
            lemma_pump_wants_frame(rest, batch);
        } else {
            lemma_pump_wants_frame(
                TrafficView { requested: v.requested.push(hash), ..rest },
                batch.push(hash),
            );
        }
    }
}

// ---------------------------------------------------------------------------
// What the machine guarantees
// ---------------------------------------------------------------------------

/// Content that still has to arrive: queued or asked for.
pub open spec fn outstanding(v: TrafficView, hash: Seq<char>) -> bool {
    v.wanted.contains(hash) || v.requested.contains(hash)
}

/// Starting downloads neither forgets nor invents content, but for what is
/// here already.
pub proof fn pumping_loses_nothing(v: TrafficView, batch: Seq<Seq<char>>, hash: Seq<char>)
    requires
        !v.store.contains_key(hash),
    ensures
        outstanding(pump_wants_from(v, batch).0, hash) == outstanding(v, hash),
    decreases v.wanted.len(),
{
    if v.requested.len() + batch.len() < MAX_CONCURRENT_DOWNLOADS && v.wanted.len() > 0 {
        let first = v.wanted[0];
        let rest = TrafficView { wanted: v.wanted.drop_first(), ..v };
        assert(v.wanted.contains(hash) == (first == hash || rest.wanted.contains(hash))) by {
            if v.wanted.contains(hash) && first != hash {
                let i = choose|i: int| 0 <= i < v.wanted.len() && v.wanted[i] == hash;
                assert(rest.wanted[i - 1] == hash);
            }
            if rest.wanted.contains(hash) {
                let i = choose|i: int| 0 <= i < rest.wanted.len() && rest.wanted[i] == hash;
                assert(v.wanted[i + 1] == hash);
            }
        }
        if v.store.contains_key(first) {
            pumping_loses_nothing(rest, batch, hash);
        } else {
            let asked = TrafficView { requested: v.requested.push(first), ..rest };
            lemma_pushed(v.requested, first, hash);
            pumping_loses_nothing(asked, batch.push(first), hash);
        }
    }
}

proof fn lemma_pushed(list: Seq<Seq<char>>, t: Seq<char>, hash: Seq<char>)
    ensures
        list.push(t).contains(hash) == (list.contains(hash) || t == hash),
{
    if list.contains(hash) {
        let i = choose|i: int| 0 <= i < list.len() && list[i] == hash;
        assert(list.push(t)[i] == hash);
    }
    if t == hash {
        assert(list.push(t)[list.len() as int] == hash);
    }
}

/// No more downloads are under way than the limit, whatever is queued.
pub proof fn downloads_are_bounded(v: TrafficView, batch: Seq<Seq<char>>)
    requires
        v.requested.len() <= MAX_CONCURRENT_DOWNLOADS,
    ensures
        pump_wants_from(v, batch).0.requested.len() <= MAX_CONCURRENT_DOWNLOADS,
    decreases v.wanted.len(),
{
    if v.requested.len() + batch.len() < MAX_CONCURRENT_DOWNLOADS && v.wanted.len() > 0 {
        let first = v.wanted[0];
        let rest = TrafficView { wanted: v.wanted.drop_first(), ..v };
        if v.store.contains_key(first) {
            downloads_are_bounded(rest, batch);
        } else {
            downloads_are_bounded(
                TrafficView { requested: v.requested.push(first), ..rest },
                batch.push(first),
            );
        }
    }
}

proof fn lemma_enqueued(v: TrafficView, hashes: Seq<Seq<char>>, hash: Seq<char>)
    requires
        !v.store.contains_key(hash),
    ensures
        outstanding(enqueue_wants_rule(v, hashes), hash) == (outstanding(v, hash)
            || hashes.contains(hash)),
    decreases hashes.len(),
{
    lemma_enqueue_wants_frame(v, hashes);
    if hashes.len() > 0 {
        let front = hashes.drop_last();
        lemma_enqueued(v, front, hash);
        lemma_enqueue_wants_frame(v, front);
        let w = enqueue_wants_rule(v, front);
        lemma_pushed(w.wanted, hashes.last(), hash);
        lemma_pushed(front, hashes.last(), hash);
        assert(hashes =~= front.push(hashes.last()));
    }
}

/// A reconnect forgets no download: whatever was queued or asked for is queued
/// or asked for again, but for what is here already.
pub proof fn a_reconnect_forgets_no_download(v: TrafficView, hash: Seq<char>)
    requires
        !v.store.contains_key(hash),
    ensures
        outstanding(reconnect_rule(v).0, hash) == outstanding(v, hash),
{
    let cleared = TrafficView {
        transfers: OpenTransfers::empty(),
        requested: Seq::empty(),
        ..v
    };
    lemma_enqueued(cleared, v.requested, hash);
    lemma_enqueue_wants_frame(cleared, v.requested);
    let wanting = enqueue_wants_rule(cleared, v.requested);
    let w1 = TrafficView { uploading: Seq::empty(), ..wanting };
    lemma_enqueue_uploads_frame(w1, upload_hashes(v.uploading));
    let offering = enqueue_uploads_rule(w1, upload_hashes(v.uploading));
    let w2 = TrafficView { at_host: Seq::empty(), ..offering };
    lemma_enqueue_uploads_frame(w2, needed_by(v.deferred));
    let ready = enqueue_uploads_rule(w2, needed_by(v.deferred));
    pumping_loses_nothing(ready, Seq::empty(), hash);
    lemma_pump_wants_frame(ready, Seq::empty());
    let asked = pump_wants_rule(ready).0;
    lemma_pump_uploads_frame(asked, nothing());
}

pub proof fn lemma_pump_uploads_frame(v: TrafficView, out: EmittedView)
    ensures
        pump_uploads_from(v, out).0 == (TrafficView {
            last_id: pump_uploads_from(v, out).0.last_id,
            to_upload: pump_uploads_from(v, out).0.to_upload,
            uploading: pump_uploads_from(v, out).0.uploading,
            deferred: pump_uploads_from(v, out).0.deferred,
            ..v
        }),
    decreases v.to_upload.len(),
{
    if v.uploading.len() < MAX_CONCURRENT_UPLOADS && v.to_upload.len() > 0 {
        let hash = v.to_upload[0];
        let rest = TrafficView { to_upload: v.to_upload.drop_first(), ..v };
        if !v.store.contains_key(hash) {
            lemma_pump_uploads_frame(
                TrafficView { deferred: without_needing(v.deferred, hash), ..rest },
                and_refuse(out, hash, missing_blob(v.place, hash).message),
            );
        } else {
            let transfer_id = (v.last_id + 1) as u64;
            lemma_pump_uploads_frame(
                TrafficView {
                    last_id: transfer_id,
                    uploading: v.uploading.push(UploadView { transfer_id, hash }),
                    ..rest
                },
                and_send(
                    out,
                    ClientMessageView::Blob { blob: BlobView::Offer { transfer_id, hash, size: v.store[hash] } },
                ),
            );
        }
    }
}

/// A transfer that failed is retried: its content is still to arrive.
pub proof fn a_failed_transfer_is_retried(v: TrafficView, frame: Seq<u8>)
    ensures
        decoded(frame) matches Ok(incoming) ==> after_frame(v.transfers, incoming).1 matches DeliveredView::Failed {
            transfer_id,
            hash,
            reason,
        } ==> v.store.contains_key(hash) || outstanding(data_rule(v, frame).0, hash),
{
    if let Ok(incoming) = decoded(frame) {
        let (transfers, delivered) = after_frame(v.transfers, incoming);
        let w = TrafficView { transfers, ..v };
        if let DeliveredView::Failed { transfer_id, hash, reason } = delivered {
            if !v.store.contains_key(hash) {
                let resolved = resolve_rule(w, hash).0;
                let less = TrafficView {
                    requested: without_hash(w.requested, hash),
                    ..w
                };
                lemma_pump_wants_frame(less, Seq::empty());
                assert(resolved.store == v.store) by {
                    if w.requested.contains(hash) {
                        assert(resolve_rule(w, hash) == pump_wants_rule(less));
                        assert(resolved == pump_wants_from(less, Seq::empty()).0);
                    }
                }
                let queued = enqueue_want_rule(resolved, hash);
                lemma_pushed(resolved.wanted, hash, hash);
                pumping_loses_nothing(queued, Seq::empty(), hash);
            }
        }
    }
}

/// A message goes out only when everything it needs is at the host.
pub proof fn no_message_precedes_its_content(
    list: Seq<DeferredView>,
    at_host: Seq<Seq<char>>,
    i: int,
)
    requires
        0 <= i < released(list, at_host).len(),
    ensures
        exists|k: int|
            0 <= k < list.len() && all_at_host((#[trigger] list[k]).needs, at_host) && released(
                list,
                at_host,
            )[i] == list[k].message,
    decreases list.len(),
{
    let front = list.drop_last();
    let last = list.len() - 1;
    if all_at_host(list.last().needs, at_host) && i == released(front, at_host).len() {
        assert(all_at_host(list[last].needs, at_host));
    } else {
        no_message_precedes_its_content(front, at_host, i);
        let k = choose|k: int|
            0 <= k < front.len() && all_at_host((#[trigger] front[k]).needs, at_host) && released(
                front,
                at_host,
            )[i] == front[k].message;
        assert(list[k] == front[k]);
    }
}

/// A message whose content is at the host already goes out at once, and one
/// whose content is not is held back.
pub proof fn submission_waits_for_content(
    v: TrafficView,
    key: Uuid,
    needs: Seq<Seq<char>>,
    message: ClientMessageView,
)
    ensures
        all_at_host(needs, v.at_host) ==> send_rule(v, key, needs, message).1 == just(
            message,
        ),
        !all_at_host(needs, v.at_host) ==> forall|i: int|
            0 <= i < send_rule(v, key, needs, message).1.messages.len() ==> (#[trigger] send_rule(
                v,
                key,
                needs,
                message,
            ).1.messages[i]) is Blob,
{
    if !all_at_host(needs, v.at_host) {
        let kept = TrafficView {
            deferred: v.deferred.filter(|d: DeferredView| d.key != key),
            ..v
        };
        let queued = enqueue_uploads_rule(kept, needs);
        lemma_offers_only(
            TrafficView {
                deferred: queued.deferred.push(DeferredView { key, needs, message }),
                ..queued
            },
            nothing(),
        );
    }
}

proof fn lemma_offers_only(v: TrafficView, out: EmittedView)
    requires
        forall|i: int| 0 <= i < out.messages.len() ==> (#[trigger] out.messages[i]) is Blob,
    ensures
        forall|i: int|
            0 <= i < pump_uploads_from(v, out).1.messages.len() ==> (#[trigger] pump_uploads_from(
                v,
                out,
            ).1.messages[i]) is Blob,
    decreases v.to_upload.len(),
{
    if v.uploading.len() < MAX_CONCURRENT_UPLOADS && v.to_upload.len() > 0 {
        let hash = v.to_upload[0];
        let rest = TrafficView { to_upload: v.to_upload.drop_first(), ..v };
        if !v.store.contains_key(hash) {
            lemma_offers_only(
                TrafficView { deferred: without_needing(v.deferred, hash), ..rest },
                and_refuse(out, hash, missing_blob(v.place, hash).message),
            );
        } else {
            let transfer_id = (v.last_id + 1) as u64;
            lemma_offers_only(
                TrafficView {
                    last_id: transfer_id,
                    uploading: v.uploading.push(UploadView { transfer_id, hash }),
                    ..rest
                },
                and_send(
                    out,
                    ClientMessageView::Blob { blob: BlobView::Offer { transfer_id, hash, size: v.store[hash] } },
                ),
            );
        }
    }
}

} // verus!
