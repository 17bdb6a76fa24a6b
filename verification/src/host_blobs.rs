//! The host's half of the blob plane, for one connection.
//!
//! A participant pulls canonical content it does not hold, and pushes content
//! before the operation that names it. Both directions are negotiated per
//! connection and mean nothing across sockets.

use vstd::prelude::*;

use crate::blobs::{BlobStore, Held};
use crate::blobwire::{
    after_frame, decode, decoded, offer_fault, resumed, BlobReceiver, Delivered, DeliveredView,
    Incoming, OpenTransfers, TransferIds, TransferView,
};
use crate::client_blobs::{
    upload_of, upload_views, without_upload, DiskFacts, JobView, PumpJob, Upload, UploadView,
};
use crate::proto::{BlobControl, BlobView};

verus! {

/// One connection's transfers.
pub struct LinkView {
    pub last_id: u64,
    /// Offers made and not yet answered.
    pub offers: Seq<UploadView>,
    pub transfers: OpenTransfers,
}

/// A connection without transfers.
pub open spec fn fresh_link() -> LinkView {
    LinkView { last_id: 0, offers: Seq::empty(), transfers: OpenTransfers::empty() }
}

/// What one step of a transfer leads to.
pub enum LinkStep {
    Nothing,
    Answer(BlobView),
    Stream(JobView),
    /// The content arrived and is what it was announced as.
    Installed { transfer_id: u64, hash: Seq<char>, size: u64 },
}

/// Offer content to the other side.
pub open spec fn offer_step(l: LinkView, hash: Seq<char>, size: u64) -> (LinkView, BlobView) {
    let transfer_id = (l.last_id + 1) as u64;
    (
        LinkView {
            last_id: transfer_id,
            offers: l.offers.push(UploadView { transfer_id, hash }),
            ..l
        },
        BlobView::Offer { transfer_id, hash, size },
    )
}

/// One control message of a transfer. `held` is the prefix of the offered
/// content that is on disk, `free` the disk space left.
pub open spec fn link_step(
    l: LinkView,
    store: Map<Seq<char>, u64>,
    blob: BlobView,
    free: Option<u64>,
    held: Held,
) -> (LinkView, LinkStep) {
    match blob {
        BlobView::Offer { transfer_id, hash, size } => if store.contains_key(hash) {
            (l, LinkStep::Answer(BlobView::Have { transfer_id, hash }))
        } else {
            match offer_fault(l.transfers, transfer_id, hash, size, free) {
                Some(fault) => (
                    l,
                    LinkStep::Answer(
                        BlobView::Failed { transfer_id, hash, reason: fault.message },
                    ),
                ),
                None => {
                    let kept = resumed(held.content, size);
                    (
                        LinkView {
                            transfers: l.transfers.insert(
                                transfer_id,
                                TransferView {
                                    hash,
                                    remaining: (size - kept.len()) as u64,
                                    content: kept,
                                    resumable: held.resumable,
                                },
                            ),
                            ..l
                        },
                        LinkStep::Answer(
                            BlobView::Want { transfer_id, from_offset: kept.len() as u64 },
                        ),
                    )
                },
            }
        },
        BlobView::Want { transfer_id, from_offset } => match upload_of(l.offers, transfer_id) {
            Some(hash) => (l, LinkStep::Stream(JobView { transfer_id, hash, from_offset })),
            None => (l, LinkStep::Nothing),
        },
        BlobView::Have { transfer_id, .. } => (
            LinkView { offers: without_upload(l.offers, transfer_id), ..l },
            LinkStep::Nothing,
        ),
        BlobView::Done { transfer_id, .. } => (
            LinkView { offers: without_upload(l.offers, transfer_id), ..l },
            LinkStep::Nothing,
        ),
        BlobView::Failed { transfer_id, .. } => (
            LinkView { offers: without_upload(l.offers, transfer_id), ..l },
            LinkStep::Nothing,
        ),
        BlobView::Unavailable { .. } => (l, LinkStep::Nothing),
    }
}

/// One frame of content.
pub open spec fn link_data(l: LinkView, frame: Seq<u8>) -> (LinkView, LinkStep) {
    match decoded(frame) {
        Err(_) => (l, LinkStep::Nothing),
        Ok(incoming) => {
            let (transfers, delivered) = after_frame(l.transfers, incoming);
            (
                LinkView { transfers, ..l },
                match delivered {
                    DeliveredView::More => LinkStep::Nothing,
                    DeliveredView::Stray { .. } => LinkStep::Nothing,
                    DeliveredView::Installed { transfer_id, hash } => LinkStep::Installed {
                        transfer_id,
                        hash,
                        size: l.transfers[transfer_id].content.len() as u64,
                    },
                    DeliveredView::Failed { transfer_id, hash, reason } => LinkStep::Answer(
                        BlobView::Failed { transfer_id, hash, reason },
                    ),
                },
            )
        },
    }
}

/// One connection's transfers.
pub struct BlobLink {
    ids: TransferIds,
    offers: Vec<Upload>,
    receiver: BlobReceiver,
}

impl View for BlobLink {
    type V = LinkView;

    closed spec fn view(&self) -> LinkView {
        LinkView {
            last_id: self.ids.last_id(),
            offers: upload_views(self.offers@),
            transfers: self.receiver.transfers(),
        }
    }
}

/// What one step of a transfer leads to.
pub enum LinkAction {
    Nothing,
    Answer(BlobControl),
    Stream(PumpJob),
    Installed { transfer_id: u64, hash: String, size: u64 },
}

impl View for LinkAction {
    type V = LinkStep;

    open spec fn view(&self) -> LinkStep {
        match *self {
            LinkAction::Nothing => LinkStep::Nothing,
            LinkAction::Answer(b) => LinkStep::Answer(b@),
            LinkAction::Stream(j) => LinkStep::Stream(j@),
            LinkAction::Installed { transfer_id, hash, size } => LinkStep::Installed {
                transfer_id,
                hash: hash@,
                size,
            },
        }
    }
}

impl BlobLink {
    pub closed spec fn wf(&self) -> bool {
        self.receiver.wf()
    }

    pub fn new() -> (l: BlobLink)
        ensures
            l.wf(),
            l@ == fresh_link(),
    {
        let l = BlobLink {
            ids: TransferIds::default(),
            offers: Vec::new(),
            receiver: BlobReceiver::new(),
        };
        proof {
            assert(l@.offers =~= Seq::<UploadView>::empty());
        }
        l
    }

    /// The newest transfer number of this side.
    pub fn last_id(&self) -> (n: u64)
        ensures
            n == self@.last_id,
    {
        self.ids.last()
    }

    /// Offer content to the other side.
    pub fn offer(&mut self, hash: &str, size: u64) -> (b: BlobControl)
        requires
            old(self).wf(),
            old(self)@.last_id < u64::MAX,
        ensures
            final(self).wf(),
            (final(self)@, b@) == offer_step(old(self)@, hash@, size),
    {
        let transfer_id = self.ids.next_id();
        let ghost before = self.offers@;
        let u = Upload { transfer_id, hash: hash.to_owned() };
        self.offers.push(u);
        proof {
            assert(upload_views(self.offers@) =~= upload_views(before).push(u@));
        }
        BlobControl::Offer { transfer_id, hash: hash.to_owned(), size }
    }

    fn offered(&self, transfer_id: u64) -> (hash: Option<String>)
        ensures
            match hash {
                Some(h) => upload_of(self@.offers, transfer_id) == Some(h@),
                None => upload_of(self@.offers, transfer_id) is None,
            },
    {
        let mut i: usize = 0;
        proof {
            assert(self@.offers.skip(0) =~= self@.offers);
        }
        while i < self.offers.len()
            invariant
                i <= self.offers@.len(),
                upload_of(self@.offers, transfer_id) == upload_of(
                    self@.offers.skip(i as int),
                    transfer_id,
                ),
            decreases self.offers@.len() - i,
        {
            proof {
                assert(self@.offers.len() == self.offers@.len());
                assert(self@.offers.skip(i as int)[0] == self.offers@[i as int]@);
                assert(self@.offers.skip(i as int).drop_first() =~= self@.offers.skip(i + 1));
            }
            if self.offers[i].transfer_id == transfer_id {
                return Some(self.offers[i].hash.clone());
            }
            i = i + 1;
        }
        None
    }

    fn answered(&mut self, transfer_id: u64)
        requires
            old(self).wf(),
        ensures
            final(self).wf(),
            final(self)@ == (LinkView {
                offers: without_upload(old(self)@.offers, transfer_id),
                ..old(self)@
            }),
    {
        let ghost all = upload_views(self.offers@);
        let ghost keep = |u: UploadView| u.transfer_id != transfer_id;
        let mut kept: Vec<Upload> = Vec::new();
        let mut i: usize = 0;
        proof {
            reveal(Seq::filter);
            assert(upload_views(kept@) =~= all.take(0).filter(keep));
        }
        while i < self.offers.len()
            invariant
                i <= self.offers@.len(),
                all == upload_views(self.offers@),
                keep == (|u: UploadView| u.transfer_id != transfer_id),
                upload_views(kept@) == all.take(i as int).filter(keep),
            decreases self.offers@.len() - i,
        {
            let ghost before = kept@;
            proof {
                reveal(Seq::filter);
                assert(all.take(i + 1).drop_last() =~= all.take(i as int));
                assert(all.take(i + 1).last() == self.offers@[i as int]@);
            }
            if self.offers[i].transfer_id != transfer_id {
                let u = Upload {
                    transfer_id: self.offers[i].transfer_id,
                    hash: self.offers[i].hash.clone(),
                };
                kept.push(u);
                proof {
                    assert(upload_views(kept@) =~= upload_views(before).push(u@));
                }
            }
            i = i + 1;
        }
        proof {
            assert(all.take(i as int) =~= all);
        }
        self.offers = kept;
    }

    /// One control message of a transfer.
    pub fn on_control(&mut self, store: &BlobStore, blob: BlobControl, disk: DiskFacts) -> (a:
        LinkAction)
        requires
            old(self).wf(),
            disk.writer.wf(),
        ensures
            final(self).wf(),
            (final(self)@, a@) == link_step(
                old(self)@,
                store.sizes(),
                blob@,
                disk.free,
                disk.writer.held(),
            ),
    {
        match blob {
            BlobControl::Offer { transfer_id, hash, size } => {
                if store.has(hash.as_str()) {
                    return LinkAction::Answer(BlobControl::Have { transfer_id, hash });
                }
                match self.receiver.accept_offer(
                    transfer_id,
                    hash.as_str(),
                    size,
                    store,
                    disk.free,
                    disk.writer,
                ) {
                    Ok(from_offset) => LinkAction::Answer(
                        BlobControl::Want { transfer_id, from_offset },
                    ),
                    Err(e) => LinkAction::Answer(
                        BlobControl::Failed { transfer_id, hash, reason: e.message },
                    ),
                }
            },
            BlobControl::Want { transfer_id, from_offset } => match self.offered(transfer_id) {
                Some(hash) => LinkAction::Stream(PumpJob { transfer_id, hash, from_offset }),
                None => LinkAction::Nothing,
            },
            BlobControl::Have { transfer_id, hash } => {
                self.answered(transfer_id);
                LinkAction::Nothing
            },
            BlobControl::Done { transfer_id, hash } => {
                self.answered(transfer_id);
                LinkAction::Nothing
            },
            BlobControl::Failed { transfer_id, hash, reason } => {
                self.answered(transfer_id);
                LinkAction::Nothing
            },
            BlobControl::Unavailable { hash, reason } => LinkAction::Nothing,
        }
    }

    /// One frame of content.
    pub fn on_data(&mut self, frame: &[u8]) -> (a: LinkAction)
        requires
            old(self).wf(),
        ensures
            final(self).wf(),
            (final(self)@, a@) == link_data(old(self)@, frame@),
    {
        let incoming = match decode(frame) {
            Ok(x) => x,
            Err(_) => {
                return LinkAction::Nothing;
            },
        };
        let size: u64 = match &incoming {
            Incoming::End { transfer_id } => self.receiver.received(*transfer_id),
            _ => 0,
        };
        match self.receiver.accept(incoming) {
            Delivered::More => LinkAction::Nothing,
            Delivered::Stray { transfer_id } => LinkAction::Nothing,
            Delivered::Installed { transfer_id, hash } => LinkAction::Installed {
                transfer_id,
                hash,
                size,
            },
            Delivered::Failed { transfer_id, hash, reason } => LinkAction::Answer(
                BlobControl::Failed { transfer_id, hash, reason },
            ),
        }
    }
}

/// Content is reported installed only when it hashes to its name.
pub proof fn host_installs_verified_content(l: LinkView, frame: Seq<u8>)
    ensures
        link_data(l, frame).1 matches LinkStep::Installed { transfer_id, hash, size } ==> {
            &&& l.transfers.contains_key(transfer_id)
            &&& l.transfers[transfer_id].hash == hash
            &&& crate::util::content_hash(l.transfers[transfer_id].content) == hash
        },
{
    if let Ok(incoming) = decoded(frame) {
        crate::blobwire::installed_content_was_verified(l.transfers, incoming);
    }
}

} // verus!
