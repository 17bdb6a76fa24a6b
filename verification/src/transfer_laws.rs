//! How content travels: which offers are taken, what a frame does, what a
//! message waits for, and what a sweep takes away.

use vstd::prelude::*;

use crate::coordination_laws::{a_connection_is_found_by_its_number, one_connection_is_changed};
use crate::host_rules::{blob_rule, conn_of, ConnView, EffectView, HostView};
use crate::blobs::{
    is_reference, is_stale, room_needed, BlobStore, Claims, EntryKind, Held, Listed, Place,
};
use crate::blobwire::{
    after_frame, offer_fault, resumed, DeliveredView, IncomingView, OpenTransfers,
};
use crate::client_blobs::{
    confirm_rule, control_rule, drain_rule, enqueue_upload_rule, enqueue_want_rule, is_uploading,
    pump_uploads_from, pump_uploads_rule, pump_wants_from, pump_wants_rule, released, resolve_rule,
    send_rule, still_waiting, upload_of, with_hash, without_needing, DeferredView, EmittedView,
    TrafficView, UploadView,
};
use crate::host_blobs::{link_step, LinkStep, LinkView};
use crate::proto::{BlobView, ClientMessageView, HostMessageView};
use crate::text::{byte_len, lists};
use crate::util::{content_hash, Uuid};

verus! {

/// Room for content is twice its size and 64 mebibytes, for the working copy, the
/// stored one and a margin; more than can be counted is never there.
pub proof fn content_needs_room_for_two(size: u64)
    ensures
        size as int * 2 + 64 * 1024 * 1024 <= u64::MAX ==> room_needed(size) == size as int * 2 + 64
            * 1024 * 1024,
        size as int * 2 + 64 * 1024 * 1024 > u64::MAX ==> room_needed(size) == u64::MAX,
{
}

/// An offer is taken exactly when it names content by a full reference, under a
/// number that is not in use, while fewer than sixteen transfers are open and
/// the disk has room, or does not say.
pub proof fn an_offer_is_taken_when_there_is_room(
    open: OpenTransfers,
    transfer_id: u64,
    hash: Seq<char>,
    size: u64,
    free: Option<u64>,
)
    ensures
        (offer_fault(open, transfer_id, hash, size, free) is None) == {
            &&& is_reference(hash)
            &&& !open.contains_key(transfer_id)
            &&& open.len() < 16
            &&& free is None || free->0 as int >= room_needed(size)
        },
{
}

/// A reference is sixty-four hexadecimal digits.
pub proof fn a_reference_is_a_digest_in_digits(hash: Seq<char>)
    ensures
        is_reference(hash) == (hash.len() == 64 && forall|i: int|
            0 <= i < 64 ==> ('0' <= #[trigger] hash[i] && hash[i] <= '9' || 'a' <= hash[i] && hash[i]
                <= 'f' || 'A' <= hash[i] && hash[i] <= 'F')),
{
    if is_reference(hash) {
        assert forall|i: int| 0 <= i < 64 implies ('0' <= #[trigger] hash[i] && hash[i] <= '9' || 'a'
            <= hash[i] && hash[i] <= 'f' || 'A' <= hash[i] && hash[i] <= 'F') by {
            assert(crate::blobs::is_any_hex(hash[i]));
        }
    }
    if hash.len() == 64 && forall|i: int|
        0 <= i < 64 ==> ('0' <= #[trigger] hash[i] && hash[i] <= '9' || 'a' <= hash[i] && hash[i] <= 'f'
            || 'A' <= hash[i] && hash[i] <= 'F') {
        assert forall|i: int| 0 <= i < 64 implies crate::blobs::is_any_hex(#[trigger] hash[i]) by {
        }
    }
}

/// A transfer goes on from what is held exactly when that is no longer than what
/// is on offer.
pub proof fn a_transfer_goes_on_from_what_is_held(held: Seq<u8>, size: u64)
    ensures
        held.len() <= size ==> resumed(held, size) == held,
        held.len() > size ==> resumed(held, size).len() == 0,
{
}

/// A chunk adds its bytes to its transfer, unless they are more than were
/// announced; then the transfer is over. The end of a transfer installs its
/// content exactly when all of it came and it hashes to its name. No other
/// transfer is touched.
pub proof fn a_frame_does_what_it_says(open: OpenTransfers, frame: IncomingView, other: u64)
    ensures
        ({
            let (next, out) = after_frame(open, frame);
            let id = match frame {
                IncomingView::Chunk { transfer_id, .. } => transfer_id,
                IncomingView::End { transfer_id } => transfer_id,
                IncomingView::Abort { transfer_id } => transfer_id,
            };
            let t = open[id];
            &&& !open.contains_key(id) ==> next == open && out == (DeliveredView::Stray {
                transfer_id: id,
            })
            &&& other != id ==> next.contains_key(other) == open.contains_key(other) && (
            open.contains_key(other) ==> next[other] == open[other])
            &&& open.contains_key(id) ==> match frame {
                IncomingView::Chunk { bytes, .. } => {
                    &&& bytes.len() <= t.remaining ==> {
                        &&& out is More
                        &&& next.contains_key(id)
                        &&& next[id].content == t.content + bytes
                        &&& next[id].remaining as int == t.remaining - bytes.len()
                        &&& next[id].hash == t.hash
                        &&& next[id].resumable == t.resumable
                    }
                    &&& bytes.len() > t.remaining ==> out is Failed && !next.contains_key(id)
                },
                IncomingView::End { .. } => {
                    &&& !next.contains_key(id)
                    &&& t.remaining == 0 && content_hash(t.content) == t.hash ==> out == (
                    DeliveredView::Installed { transfer_id: id, hash: t.hash })
                    &&& !(t.remaining == 0 && content_hash(t.content) == t.hash) ==> out is Failed
                },
                IncomingView::Abort { .. } => out is Failed && !next.contains_key(id),
            }
        }),
{
}

// ---------------------------------------------------------------------------
// The replica's side
// ---------------------------------------------------------------------------

/// Content is asked for exactly when it is neither held nor asked for nor about
/// to be.
pub proof fn content_is_asked_for_once(v: TrafficView, hash: Seq<char>)
    ensures
        ({
            let next = enqueue_want_rule(v, hash);
            let known = v.store.contains_key(hash) || v.wanted.contains(hash) || v.requested.contains(
                hash,
            );
            &&& known ==> next == v
            &&& !known ==> next.wanted == v.wanted.push(hash)
            &&& next.requested == v.requested
            &&& next.store == v.store
        }),
{
}

/// Content is offered exactly when the host is not known to hold it and it is
/// not on its way.
pub proof fn content_is_offered_once(v: TrafficView, hash: Seq<char>)
    ensures
        ({
            let next = enqueue_upload_rule(v, hash);
            let known = v.at_host.contains(hash) || v.to_upload.contains(hash) || exists|i: int|
                0 <= i < v.uploading.len() && (#[trigger] v.uploading[i]).hash == hash;
            &&& known ==> next == v
            &&& !known ==> next.to_upload == v.to_upload.push(hash)
            &&& next.at_host == v.at_host
            &&& next.uploading == v.uploading
        }),
{
    if is_uploading(v.uploading, hash) {
        assert(exists|i: int| 0 <= i < v.uploading.len() && (#[trigger] v.uploading[i]).hash == hash);
    }
}

/// Content offered to a replica that holds it is declined; otherwise it is
/// wanted from where the disk's part of it ends, or refused where it cannot be
/// taken.
pub proof fn an_offer_is_answered(
    v: TrafficView,
    transfer_id: u64,
    hash: Seq<char>,
    size: u64,
    free: Option<u64>,
    held: Held,
)
    ensures
        ({
            let (next, out) = control_rule(
                v,
                BlobView::Offer { transfer_id, hash, size },
                free,
                held,
            );
            let fault = offer_fault(v.transfers, transfer_id, hash, size, free);
            let kept = resumed(held.content, size);
            &&& out.messages.len() > 0
            &&& v.store.contains_key(hash) ==> out.messages.last() == (ClientMessageView::Blob {
                blob: BlobView::Have { transfer_id, hash },
            }) && next.transfers == v.transfers
            &&& !v.store.contains_key(hash) && fault is None ==> {
                &&& out.messages.last() == (ClientMessageView::Blob {
                    blob: BlobView::Want { transfer_id, from_offset: kept.len() as u64 },
                })
                &&& next.transfers.contains_key(transfer_id)
                &&& next.transfers[transfer_id].hash == hash
                &&& next.transfers[transfer_id].content == kept
                &&& next.transfers[transfer_id].remaining as int == size - kept.len()
            }
            &&& !v.store.contains_key(hash) && fault is Some ==> out.messages.last() == (
            ClientMessageView::Blob {
                blob: BlobView::Failed { transfer_id, hash, reason: fault->0.message },
            }) && !next.transfers.contains_key(transfer_id) || v.transfers.contains_key(transfer_id)
                || v.store.contains_key(hash) || fault is None
        }),
{
    lemma_resolve(v, hash);
}

proof fn lemma_resolve(v: TrafficView, hash: Seq<char>)
    ensures
        resolve_rule(v, hash).0.transfers == v.transfers,
{
    crate::client_blobs::lemma_pump_wants_frame(
        TrafficView { requested: crate::client_blobs::without_hash(v.requested, hash), ..v },
        Seq::empty(),
    );
}

/// The offer with a number is the first that has it.
proof fn lemma_upload_of(list: Seq<UploadView>, id: u64)
    ensures
        match upload_of(list, id) {
            Some(hash) => exists|i: int|
                0 <= i < list.len() && (#[trigger] list[i]).transfer_id == id && list[i].hash == hash,
            None => forall|i: int| 0 <= i < list.len() ==> (#[trigger] list[i]).transfer_id != id,
        },
    decreases list.len(),
{
    if list.len() > 0 {
        let rest = list.drop_first();
        lemma_upload_of(rest, id);
        if list[0].transfer_id == id {
            assert(list[0].transfer_id == id && list[0].hash == list[0].hash);
        } else {
            match upload_of(rest, id) {
                Some(hash) => {
                    let i = choose|i: int|
                        0 <= i < rest.len() && (#[trigger] rest[i]).transfer_id == id && rest[i].hash
                            == hash;
                    assert(list[i + 1] == rest[i]);
                },
                None => {
                    assert forall|i: int| 0 <= i < list.len() implies (#[trigger] list[i]).transfer_id
                        != id by {
                        if i > 0 {
                            assert(rest[i - 1] == list[i]);
                        }
                    }
                },
            }
        }
    }
}

/// Content the host wants of an offer is streamed from where it asked, and
/// nothing is for a number that was not offered.
pub proof fn wanted_content_is_streamed(
    v: TrafficView,
    transfer_id: u64,
    from_offset: u64,
    free: Option<u64>,
    held: Held,
)
    ensures
        ({
            let (next, out) = control_rule(
                v,
                BlobView::Want { transfer_id, from_offset },
                free,
                held,
            );
            let offered = exists|i: int|
                0 <= i < v.uploading.len() && (#[trigger] v.uploading[i]).transfer_id == transfer_id;
            &&& next == v
            &&& out.messages.len() == 0
            &&& offered ==> out.jobs.len() == 1 && out.jobs[0].transfer_id == transfer_id
                && out.jobs[0].from_offset == from_offset && exists|i: int|
                0 <= i < v.uploading.len() && (#[trigger] v.uploading[i]).transfer_id == transfer_id
                    && v.uploading[i].hash == out.jobs[0].hash
            &&& !offered ==> out.jobs.len() == 0
        }),
{
    lemma_upload_of(v.uploading, transfer_id);
}

/// A message whose content is at the host goes out at once; any other waits, and
/// waits with all it needs.
pub proof fn a_message_waits_for_its_content(
    v: TrafficView,
    key: Uuid,
    needs: Seq<Seq<char>>,
    message: ClientMessageView,
)
    requires
        forall|i: int| 0 <= i < needs.len() ==> v.at_host.contains(#[trigger] needs[i]),
    ensures
        ({
            let (next, out) = send_rule(v, key, needs, message);
            &&& out.messages == seq![message]
            &&& out.jobs.len() == 0
            &&& next.to_upload == v.to_upload
            &&& next.uploading == v.uploading
        }),
{
    assert(seq![message] =~= crate::client_blobs::just(message).messages);
}

/// Content the host has confirmed is at the host, and what waited for nothing
/// else goes out.
pub proof fn confirmed_content_lets_messages_go(v: TrafficView, transfer_id: u64, hash: Seq<char>)
    ensures
        ({
            let (next, out) = confirm_rule(v, transfer_id, hash);
            let there = with_hash(v.at_host, hash);
            &&& there.contains(hash)
            &&& forall|h: Seq<char>|
                h != hash ==> #[trigger] there.contains(h) == v.at_host.contains(h)
            &&& next.at_host == there
            &&& out.messages.len() >= released(v.deferred, there).len()
            &&& out.messages.take(released(v.deferred, there).len() as int) == released(
                v.deferred,
                there,
            )
        }),
{
    let there = with_hash(v.at_host, hash);
    assert(v.at_host.push(hash)[v.at_host.len() as int] == hash);
    assert forall|h: Seq<char>| h != hash implies #[trigger] there.contains(h) == v.at_host.contains(
        h,
    ) by {
        crate::text::lemma_push_contains(v.at_host, hash, h);
    }
    let confirmed = TrafficView {
        uploading: crate::client_blobs::without_upload(v.uploading, transfer_id),
        at_host: there,
        ..v
    };
    let (drained, first) = drain_rule(confirmed);
    crate::client_blobs::lemma_pump_uploads_frame(drained, crate::client_blobs::nothing());
    let (next, second) = pump_uploads_rule(drained);
    let all = crate::client_blobs::both(first, second).messages;
    assert(all.take(first.messages.len() as int) =~= first.messages);
}

/// Which messages are let go: those whose every need is at the host, oldest
/// first; the others stay.
pub proof fn what_is_let_go_has_all_it_needs(
    list: Seq<DeferredView>,
    at_host: Seq<Seq<char>>,
    d: DeferredView,
)
    ensures
        list.contains(d) && (forall|i: int|
            0 <= i < d.needs.len() ==> at_host.contains(#[trigger] d.needs[i])) ==> released(
            list,
            at_host,
        ).contains(d.message) && !still_waiting(list, at_host).contains(d),
        list.contains(d) && !(forall|i: int|
            0 <= i < d.needs.len() ==> at_host.contains(#[trigger] d.needs[i])) ==> still_waiting(
            list,
            at_host,
        ).contains(d),
{
    let waits = |x: DeferredView| !crate::client_blobs::all_at_host(x.needs, at_host);
    if list.contains(d) {
        let k = choose|k: int| 0 <= k < list.len() && list[k] == d;
        if crate::client_blobs::all_at_host(d.needs, at_host) {
            lemma_released(list, at_host, k);
            if still_waiting(list, at_host).contains(d) {
                let i = choose|i: int|
                    0 <= i < still_waiting(list, at_host).len() && still_waiting(list, at_host)[i]
                        == d;
                list.lemma_filter_pred(waits, i);
            }
        } else {
            list.lemma_filter_contains(waits, k);
        }
    }
}

proof fn lemma_released(list: Seq<DeferredView>, at_host: Seq<Seq<char>>, k: int)
    requires
        0 <= k < list.len(),
        crate::client_blobs::all_at_host(list[k].needs, at_host),
    ensures
        released(list, at_host).contains(list[k].message),
    decreases list.len(),
{
    let front = list.drop_last();
    let before = released(front, at_host);
    let all = released(list, at_host);
    if k == list.len() - 1 {
        assert(all[before.len() as int] == list[k].message);
    } else {
        lemma_released(front, at_host, k);
        let i = choose|i: int| 0 <= i < before.len() && before[i] == list[k].message;
        assert(all[i] == list[k].message);
    }
}

proof fn lemma_pump_wants(v: TrafficView, batch: Seq<Seq<char>>)
    ensures
        ({
            let (n, b) = pump_wants_from(v, batch);
            let k = v.wanted.len() - n.wanted.len();
            &&& 0 <= k <= v.wanted.len()
            &&& n.wanted == v.wanted.skip(k)
            &&& b.len() >= batch.len()
            &&& b.take(batch.len() as int) == batch
            &&& n.requested == v.requested + b.skip(batch.len() as int)
            &&& forall|i: int|
                0 <= i < k ==> v.store.contains_key(#[trigger] v.wanted[i]) || b.contains(v.wanted[i])
            &&& forall|j: int|
                batch.len() <= j < b.len() ==> !v.store.contains_key(#[trigger] b[j])
                    && v.wanted.contains(b[j])
            &&& n.wanted.len() == 0 || n.requested.len() + b.len() >= 8
        }),
    decreases v.wanted.len(),
{
    let (n, b) = pump_wants_from(v, batch);
    if v.requested.len() + batch.len() < 8 && v.wanted.len() > 0 {
        let hash = v.wanted[0];
        let rest = TrafficView { wanted: v.wanted.drop_first(), ..v };
        let k = v.wanted.len() - n.wanted.len();
        if v.store.contains_key(hash) {
            lemma_pump_wants(rest, batch);
            assert(rest.wanted.skip(k - 1) =~= v.wanted.skip(k));
        } else {
            let asked = TrafficView { requested: v.requested.push(hash), ..rest };
            lemma_pump_wants(asked, batch.push(hash));
            assert(rest.wanted.skip(k - 1) =~= v.wanted.skip(k));
            let m = batch.len() as int;
            assert(b.take(m + 1) == batch.push(hash));
            assert(b.take(m) =~= b.take(m + 1).take(m));
            assert(batch.push(hash).take(m) =~= batch);
            assert(b[m] == b.take(m + 1)[m]);
            assert(v.requested + b.skip(m) =~= v.requested.push(hash) + b.skip(m + 1));
        }
        assert forall|i: int| 0 <= i < k implies v.store.contains_key(#[trigger] v.wanted[i])
            || b.contains(v.wanted[i]) by {
            if i > 0 {
                assert(rest.wanted[i - 1] == v.wanted[i]);
            } else if !v.store.contains_key(hash) {
                assert(b[batch.len() as int] == hash);
            }
        }
        assert forall|j: int| batch.len() <= j < b.len() implies !v.store.contains_key(
            #[trigger] b[j],
        ) && v.wanted.contains(b[j]) by {
            if rest.wanted.contains(b[j]) {
                let x = choose|x: int| 0 <= x < rest.wanted.len() && rest.wanted[x] == b[j];
                assert(v.wanted[x + 1] == b[j]);
            } else {
                assert(v.wanted[0] == hash);
            }
        }
    } else {
        assert(v.wanted.skip(0) =~= v.wanted);
        assert(batch.take(batch.len() as int) =~= batch);
        assert(v.requested + batch.skip(batch.len() as int) =~= v.requested);
    }
}

/// What is wanted is asked for in its order, as far as there is room: whatever
/// leaves the list is held or asked for, all that is asked for was wanted and is
/// not held, and nothing is left wanting while there is room.
pub proof fn what_is_wanted_is_asked_for(v: TrafficView)
    ensures
        ({
            let (next, out) = pump_wants_rule(v);
            let k = v.wanted.len() - next.wanted.len();
            let asked = next.requested.skip(v.requested.len() as int);
            &&& 0 <= k <= v.wanted.len()
            &&& next.wanted == v.wanted.skip(k)
            &&& next.requested == v.requested + asked
            &&& forall|i: int|
                0 <= i < k ==> v.store.contains_key(#[trigger] v.wanted[i]) || asked.contains(
                    v.wanted[i],
                )
            &&& forall|j: int|
                0 <= j < asked.len() ==> !v.store.contains_key(#[trigger] asked[j])
                    && v.wanted.contains(asked[j])
            &&& next.wanted.len() == 0 || next.requested.len() + asked.len() >= 8
            &&& asked.len() == 0 ==> out.messages.len() == 0
            &&& asked.len() > 0 ==> out.messages == seq![
                ClientMessageView::RequestBlobs { hashes: asked },
            ]
        }),
{
    lemma_pump_wants(v, Seq::empty());
    let (n, b) = pump_wants_from(v, Seq::empty());
    assert(b.skip(0) =~= b);
    assert(n.requested.skip(v.requested.len() as int) =~= b);
    assert(crate::client_blobs::just(ClientMessageView::RequestBlobs { hashes: b }).messages
        =~= seq![ClientMessageView::RequestBlobs { hashes: b }]);
}

/// A message that needs content which is lost is given up, and no other.
pub proof fn a_message_without_its_content_is_given_up(
    list: Seq<DeferredView>,
    hash: Seq<char>,
    d: DeferredView,
)
    ensures
        without_needing(list, hash).contains(d) == (list.contains(d) && !d.needs.contains(hash)),
{
    let keep = |x: DeferredView| !x.needs.contains(hash);
    let kept = without_needing(list, hash);
    if kept.contains(d) {
        let i = choose|i: int| 0 <= i < kept.len() && kept[i] == d;
        list.lemma_filter_pred(keep, i);
        list.lemma_filter_contains_rev(keep, d);
    }
    if list.contains(d) && !d.needs.contains(hash) {
        let i = choose|i: int| 0 <= i < list.len() && list[i] == d;
        list.lemma_filter_contains(keep, i);
    }
}

/// Content that is offered leaves the list in its order, under a number of its
/// own, while fewer than eight are on their way.
pub proof fn the_next_upload_is_offered(v: TrafficView)
    requires
        v.uploading.len() < 8,
        v.to_upload.len() == 1,
        v.store.contains_key(v.to_upload[0]),
        v.last_id < u64::MAX,
    ensures
        ({
            let (next, out) = pump_uploads_rule(v);
            let id = (v.last_id + 1) as u64;
            &&& next.to_upload.len() == 0
            &&& next.uploading == v.uploading.push(
                UploadView { transfer_id: id, hash: v.to_upload[0] },
            )
            &&& next.last_id == id
            &&& out.messages == seq![
                ClientMessageView::Blob {
                    blob: BlobView::Offer {
                        transfer_id: id,
                        hash: v.to_upload[0],
                        size: v.store[v.to_upload[0]],
                    },
                },
            ]
        }),
{
    reveal_with_fuel(pump_uploads_from, 2);
    let m = ClientMessageView::Blob {
        blob: BlobView::Offer {
            transfer_id: (v.last_id + 1) as u64,
            hash: v.to_upload[0],
            size: v.store[v.to_upload[0]],
        },
    };
    assert(crate::client_blobs::and_send(crate::client_blobs::nothing(), m).messages =~= seq![m]);
}

/// Uploads wait only while eight are on their way, and none that is on its way
/// is given up for another.
pub proof fn uploads_are_bounded(v: TrafficView, out: EmittedView)
    ensures
        pump_uploads_from(v, out).0.to_upload.len() == 0 || pump_uploads_from(
            v,
            out,
        ).0.uploading.len() >= 8,
        pump_uploads_from(v, out).0.uploading.len() >= v.uploading.len(),
    decreases v.to_upload.len(),
{
    if v.uploading.len() < 8 && v.to_upload.len() > 0 {
        let hash = v.to_upload[0];
        let rest = TrafficView { to_upload: v.to_upload.drop_first(), ..v };
        if !v.store.contains_key(hash) {
            uploads_are_bounded(
                TrafficView { deferred: without_needing(v.deferred, hash), ..rest },
                crate::client_blobs::and_refuse(
                    out,
                    hash,
                    crate::blobs::missing_blob(v.place, hash).message,
                ),
            );
        } else {
            let transfer_id = (v.last_id + 1) as u64;
            uploads_are_bounded(
                TrafficView {
                    last_id: transfer_id,
                    uploading: v.uploading.push(UploadView { transfer_id, hash }),
                    ..rest
                },
                crate::client_blobs::and_send(
                    out,
                    ClientMessageView::Blob {
                        blob: BlobView::Offer { transfer_id, hash, size: v.store[hash] },
                    },
                ),
            );
        }
    }
}

// ---------------------------------------------------------------------------
// The coordinator's side
// ---------------------------------------------------------------------------

/// An offer to the coordinator is answered like one to a replica.
pub proof fn the_coordinator_answers_an_offer(
    l: LinkView,
    store: Map<Seq<char>, u64>,
    transfer_id: u64,
    hash: Seq<char>,
    size: u64,
    free: Option<u64>,
    held: Held,
)
    ensures
        ({
            let (next, step) = link_step(
                l,
                store,
                BlobView::Offer { transfer_id, hash, size },
                free,
                held,
            );
            let fault = offer_fault(l.transfers, transfer_id, hash, size, free);
            let kept = resumed(held.content, size);
            &&& store.contains_key(hash) ==> next == l && step == LinkStep::Answer(
                BlobView::Have { transfer_id, hash },
            )
            &&& !store.contains_key(hash) && fault is Some ==> next == l && step
                == LinkStep::Answer(
                BlobView::Failed { transfer_id, hash, reason: fault->0.message },
            )
            &&& !store.contains_key(hash) && fault is None ==> {
                &&& step == LinkStep::Answer(
                    BlobView::Want { transfer_id, from_offset: kept.len() as u64 },
                )
                &&& next.transfers.contains_key(transfer_id)
                &&& next.transfers[transfer_id].hash == hash
                &&& next.transfers[transfer_id].content == kept
                &&& next.transfers[transfer_id].remaining as int == size - kept.len()
            }
            &&& next.offers == l.offers
        }),
{
}

// ---------------------------------------------------------------------------
// Sweeps
// ---------------------------------------------------------------------------

/// Something is old enough to go when it was last touched the given time ago or
/// longer; what is said to be of the future is young, and without a least age
/// everything is old.
pub proof fn age_is_counted_from_the_last_touch(modified: Option<u64>, now_ms: u64, least: u64)
    ensures
        least == 0 ==> is_stale(modified, now_ms, least),
        least > 0 && modified is None ==> !is_stale(modified, now_ms, least),
        least > 0 && modified is Some ==> is_stale(modified, now_ms, least) == (modified->0 as int
            + least as int <= now_ms as int),
{
}

/// A sweep takes away exactly what is of no use: old temporaries, partials that
/// nobody writes and that are old or installed, and old content that nothing
/// names. Everything else stays.
pub proof fn a_sweep_takes_what_is_of_no_use(
    store: BlobStore,
    item: Listed,
    live: Seq<String>,
    claims: Claims,
    now_ms: u64,
    least: u64,
)
    ensures
        store.collectable(item, live, claims, now_ms, least) == match item.place {
            Place::Root => item.kind != EntryKind::Directory && is_stale(
                item.modified_ms,
                now_ms,
                least,
            ) && item.name@.len() >= 6 && item.name@.take(6) == ".part-"@,
            Place::PartialDir => item.kind == EntryKind::File && !claims.claims(
                crate::blobs::partial_path(store.place(), item.name@),
            ) && (is_stale(item.modified_ms, now_ms, least) || byte_len(item.name@) == 64
                && store.holds(item.name@)),
            Place::Shard(shard) => item.kind == EntryKind::File && byte_len(shard@) == 2 && byte_len(
                item.name@,
            ) == 64 && is_stale(item.modified_ms, now_ms, least) && !lists(live, item.name@),
        },
{
    reveal_strlit(".part-");
    let name = item.name@;
    if name.len() >= 6 {
        assert(name.subrange(0, 6) =~= name.take(6));
    }
}

/// Whatever a participant says of a transfer changes that participant's link and
/// no other, and is carried out.
pub proof fn a_transfer_is_kept_on_its_link(
    h: HostView,
    conn_id: u64,
    blob: BlobView,
    free: Option<u64>,
    held: Held,
)
    requires
        conn_of(h.conns, conn_id) is Some,
    ensures
        ({
            let c = conn_of(h.conns, conn_id)->0;
            let (link, step) = link_step(c.link, h.blobs, blob, free, held);
            let next = blob_rule(h, conn_id, blob, free, held);
            &&& conn_of(next.conns, conn_id) is Some
            &&& conn_of(next.conns, conn_id)->0 == (ConnView { link, ..c })
            &&& next.conns.len() == h.conns.len()
            &&& step matches LinkStep::Answer(b) ==> next.outbox == h.outbox.push(
                EffectView::Send { to: seq![conn_id], message: HostMessageView::Blob { blob: b } },
            )
            &&& step matches LinkStep::Stream(job) ==> next.outbox == h.outbox.push(
                EffectView::Stream { to: conn_id, job },
            )
        }),
{
    let c = conn_of(h.conns, conn_id)->0;
    let (link, step) = link_step(c.link, h.blobs, blob, free, held);
    a_connection_is_found_by_its_number(h.conns, conn_id);
    let k = choose|k: int| 0 <= k < h.conns.len() && #[trigger] h.conns[k] == c;
    one_connection_is_changed(h.conns, conn_id, ConnView { link, ..c }, k);
}

} // verus!
