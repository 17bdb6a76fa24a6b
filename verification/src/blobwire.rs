//! The data plane: how blob bytes are framed, and how a receiver installs them.
//!
//! Content is streamed beside the control messages, in frames the control
//! plane may overtake at any point, and referenced everywhere else by hash
//! alone.
//!
//! Both ends run the same two half-machines, because both ends both send and
//! receive: a participant uploads a blob before submitting the operation that
//! references it, and downloads canonical blobs it does not hold. Only the
//! receiving half needs state, and it lives here.

use std::collections::HashMap;
use vstd::prelude::*;

use crate::blobs::{
    announced_mismatch, is_reference, malformed_reference, no_room, room_needed, well_formed,
    BlobStore, BlobWriter,
};
use crate::error::{plain, protocol, ErrorClass, ErrorView, Result};
use crate::text::{decimal, decimal_text};
use crate::util::content_hash;

verus! {

broadcast use vstd::std_specs::hash::group_hash_axioms;

/// Largest plaintext that still fits one encrypted message on the wire.
pub const MAX_DATA_MESSAGE: usize = 65518;

/// `[kind][transfer_id]`, big-endian.
pub const HEADER: usize = 9;

/// Payload bytes in one data frame: whatever is left of a single message after
/// the header.
pub const WIRE_CHUNK: usize = 65509;

pub const KIND_CHUNK: u8 = 0;

pub const KIND_END: u8 = 1;

pub const KIND_ABORT: u8 = 2;

/// Transfers one peer may have open towards this one at the same time. Each
/// costs one partial file and one hasher, so this is a bound on what an
/// authenticated peer can make the other side hold.
pub const MAX_OPEN_TRANSFERS: usize = 16;

// ---------------------------------------------------------------------------
// Framing
// ---------------------------------------------------------------------------

/// The last `width` bytes of a number, most significant first.
pub open spec fn big_endian(n: nat, width: nat) -> Seq<u8>
    decreases width,
{
    if width == 0 {
        Seq::empty()
    } else {
        big_endian(n / 256, (width - 1) as nat).push((n % 256) as u8)
    }
}

/// The number some bytes stand for, most significant first.
pub open spec fn big_endian_value(bytes: Seq<u8>) -> nat
    decreases bytes.len(),
{
    if bytes.len() == 0 {
        0
    } else {
        big_endian_value(bytes.drop_last()) * 256 + bytes.last() as nat
    }
}

pub open spec fn pow256(k: nat) -> nat
    decreases k,
{
    if k == 0 {
        1
    } else {
        256 * pow256((k - 1) as nat)
    }
}

pub proof fn lemma_big_endian(n: nat, width: nat)
    requires
        n < pow256(width),
    ensures
        big_endian(n, width).len() == width,
        big_endian_value(big_endian(n, width)) == n,
    decreases width,
{
    if width > 0 {
        lemma_big_endian(n / 256, (width - 1) as nat);
        assert(big_endian(n, width).drop_last() =~= big_endian(n / 256, (width - 1) as nat));
    }
}

pub proof fn lemma_big_endian_back(bytes: Seq<u8>)
    ensures
        big_endian_value(bytes) < pow256(bytes.len()),
        big_endian(big_endian_value(bytes), bytes.len()) == bytes,
    decreases bytes.len(),
{
    if bytes.len() > 0 {
        lemma_big_endian_back(bytes.drop_last());
        let v = big_endian_value(bytes);
        let w = big_endian_value(bytes.drop_last());
        assert(v / 256 == w && v % 256 == bytes.last());
        assert(bytes =~= bytes.drop_last().push(bytes.last()));
    } else {
        assert(big_endian(0, 0) =~= bytes);
    }
}

pub proof fn lemma_pow256_8()
    ensures
        pow256(8) == 0x1_0000_0000_0000_0000,
{
    reveal_with_fuel(pow256, 9);
}

/// A data frame on the wire.
pub open spec fn frame_bytes(kind: u8, transfer_id: u64, payload: Seq<u8>) -> Seq<u8> {
    seq![kind] + big_endian(transfer_id as nat, 8) + payload
}

fn push_big_endian(out: &mut Vec<u8>, n: u64, width: usize)
    ensures
        final(out)@ == old(out)@ + big_endian(n as nat, width as nat),
    decreases width,
{
    if width == 0 {
        proof {
            assert(out@ =~= old(out)@ + big_endian(n as nat, 0));
        }
    } else {
        push_big_endian(out, n / 256, width - 1);
        out.push((n % 256) as u8);
        proof {
            assert(out@ =~= old(out)@ + big_endian(n as nat, width as nat));
        }
    }
}

/// One data frame. Any kind can be framed; only the three known ones decode.
pub fn frame(kind: u8, transfer_id: u64, payload: &[u8]) -> (out: Vec<u8>)
    ensures
        out@ == frame_bytes(kind, transfer_id, payload@),
{
    let mut out: Vec<u8> = Vec::new();
    out.push(kind);
    push_big_endian(&mut out, transfer_id, 8);
    out.extend_from_slice(payload);
    proof {
        assert(out@ =~= frame_bytes(kind, transfer_id, payload@));
    }
    out
}

pub fn chunk_frame(transfer_id: u64, payload: &[u8]) -> (out: Vec<u8>)
    requires
        payload@.len() <= WIRE_CHUNK,
    ensures
        out@ == encoded(IncomingView::Chunk { transfer_id, bytes: payload@ }),
        out@.len() <= MAX_DATA_MESSAGE,
{
    let out = frame(KIND_CHUNK, transfer_id, payload);
    proof {
        lemma_pow256_8();
        lemma_big_endian(transfer_id as nat, 8);
    }
    out
}

pub fn end_frame(transfer_id: u64) -> (out: Vec<u8>)
    ensures
        out@ == encoded(IncomingView::End { transfer_id }),
{
    let none: Vec<u8> = Vec::new();
    frame(KIND_END, transfer_id, none.as_slice())
}

pub fn abort_frame(transfer_id: u64) -> (out: Vec<u8>)
    ensures
        out@ == encoded(IncomingView::Abort { transfer_id }),
{
    let none: Vec<u8> = Vec::new();
    frame(KIND_ABORT, transfer_id, none.as_slice())
}

/// A decoded data frame, borrowing the payload rather than copying it.
#[derive(Debug, PartialEq, Eq)]
pub enum Incoming<'a> {
    Chunk { transfer_id: u64, bytes: &'a [u8] },
    /// Every byte has been sent. In-band, not a control message: control has
    /// strict priority and an end marker sent that way would overtake the
    /// chunks it terminates.
    End { transfer_id: u64 },
    /// The sender gave up. Also in-band, for the same reason.
    Abort { transfer_id: u64 },
}

/// A decoded frame as plain values.
pub enum IncomingView {
    Chunk { transfer_id: u64, bytes: Seq<u8> },
    End { transfer_id: u64 },
    Abort { transfer_id: u64 },
}

impl<'a> View for Incoming<'a> {
    type V = IncomingView;

    open spec fn view(&self) -> IncomingView {
        match *self {
            Incoming::Chunk { transfer_id, bytes } => IncomingView::Chunk {
                transfer_id,
                bytes: bytes@,
            },
            Incoming::End { transfer_id } => IncomingView::End { transfer_id },
            Incoming::Abort { transfer_id } => IncomingView::Abort { transfer_id },
        }
    }
}

/// What some bytes decode to, or the message they are refused with.
pub open spec fn decoded(bytes: Seq<u8>) -> std::result::Result<IncomingView, Seq<char>> {
    if bytes.len() < HEADER {
        Err("Truncated Weave data frame."@)
    } else {
        let transfer_id = big_endian_value(bytes.subrange(1, 9)) as u64;
        let payload = bytes.skip(9);
        if bytes[0] == KIND_CHUNK {
            Ok(IncomingView::Chunk { transfer_id, bytes: payload })
        } else if bytes[0] == KIND_END && payload.len() == 0 {
            Ok(IncomingView::End { transfer_id })
        } else if bytes[0] == KIND_ABORT && payload.len() == 0 {
            Ok(IncomingView::Abort { transfer_id })
        } else {
            Err("Unknown Weave data frame."@)
        }
    }
}

pub fn decode(bytes: &[u8]) -> (r: Result<Incoming<'_>>)
    ensures
        match r {
            Ok(x) => decoded(bytes@) == Ok::<IncomingView, Seq<char>>(x@),
            Err(e) => decoded(bytes@) matches Err(why) && e@ == plain(
                ErrorClass::ProtocolError,
                why,
            ),
        },
{
    if bytes.len() < HEADER {
        return Err(protocol("Truncated Weave data frame."));
    }
    let mut transfer_id: u64 = 0;
    let mut i: usize = 1;
    let ghost head = bytes@.subrange(1, 9);
    proof {
        lemma_pow256_8();
        assert(head.take(0) =~= Seq::<u8>::empty());
    }
    while i < HEADER
        invariant
            1 <= i <= HEADER,
            bytes@.len() >= HEADER,
            head == bytes@.subrange(1, 9),
            transfer_id == big_endian_value(head.take(i - 1)),
            pow256(8) == 0x1_0000_0000_0000_0000,
        decreases HEADER - i,
    {
        proof {
            assert(head.take(i as int).drop_last() =~= head.take(i - 1));
            assert(head.take(i as int).last() == bytes@[i as int]);
            lemma_big_endian_back(head.take(i as int));
            lemma_pow256_grows((i as nat), 8);
        }
        transfer_id = transfer_id * 256 + bytes[i] as u64;
        i = i + 1;
    }
    proof {
        assert(head.take(8) =~= head);
    }
    let payload = vstd::slice::slice_subrange(bytes, HEADER, bytes.len());
    proof {
        assert(payload@ =~= bytes@.skip(9));
    }
    if bytes[0] == KIND_CHUNK {
        return Ok(Incoming::Chunk { transfer_id, bytes: payload });
    }
    if bytes[0] == KIND_END && payload.len() == 0 {
        return Ok(Incoming::End { transfer_id });
    }
    if bytes[0] == KIND_ABORT && payload.len() == 0 {
        return Ok(Incoming::Abort { transfer_id });
    }
    Err(protocol("Unknown Weave data frame."))
}

pub proof fn lemma_pow256_grows(a: nat, b: nat)
    requires
        a <= b,
    ensures
        pow256(a) <= pow256(b),
        pow256(a) >= 1,
    decreases b,
{
    if a < b {
        lemma_pow256_grows(a, (b - 1) as nat);
    } else if a > 0 {
        lemma_pow256_grows((a - 1) as nat, (b - 1) as nat);
    }
}

/// The frame that stands for a decoded value.
pub open spec fn encoded(x: IncomingView) -> Seq<u8> {
    match x {
        IncomingView::Chunk { transfer_id, bytes } => frame_bytes(KIND_CHUNK, transfer_id, bytes),
        IncomingView::End { transfer_id } => frame_bytes(KIND_END, transfer_id, Seq::empty()),
        IncomingView::Abort { transfer_id } => frame_bytes(KIND_ABORT, transfer_id, Seq::empty()),
    }
}

/// Decoding a frame gives back what was framed, the empty payload included.
pub proof fn frames_round_trip(x: IncomingView)
    ensures
        decoded(encoded(x)) == Ok::<IncomingView, Seq<char>>(x),
{
    let (kind, id, payload) = match x {
        IncomingView::Chunk { transfer_id, bytes } => (KIND_CHUNK, transfer_id, bytes),
        IncomingView::End { transfer_id } => (KIND_END, transfer_id, Seq::<u8>::empty()),
        IncomingView::Abort { transfer_id } => (KIND_ABORT, transfer_id, Seq::<u8>::empty()),
    };
    lemma_pow256_8();
    lemma_big_endian(id as nat, 8);
    let f = frame_bytes(kind, id, payload);
    assert(f.subrange(1, 9) =~= big_endian(id as nat, 8));
    assert(f.skip(9) =~= payload);
}

/// Only frames decode: whatever is accepted is exactly the frame of what it
/// was read as, so two different byte strings never mean the same.
pub proof fn only_frames_decode(bytes: Seq<u8>)
    ensures
        decoded(bytes) matches Ok(x) ==> encoded(x) == bytes,
{
    if let Ok(x) = decoded(bytes) {
        lemma_pow256_8();
        let head = bytes.subrange(1, 9);
        lemma_big_endian_back(head);
        let id = big_endian_value(head) as u64;
        let payload = bytes.skip(9);
        assert(frame_bytes(bytes[0], id, payload) =~= bytes);
        if bytes[0] != KIND_CHUNK {
            assert(payload =~= Seq::<u8>::empty());
        }
    }
}

// ---------------------------------------------------------------------------
// Receiving
// ---------------------------------------------------------------------------

/// What accepting one frame produced.
#[derive(Debug, PartialEq, Eq)]
pub enum Delivered {
    /// Bytes were written; the transfer continues.
    More,
    /// Everything arrived and hashes to what was announced; the content may be
    /// installed under that name.
    Installed { transfer_id: u64, hash: String },
    /// The transfer is over and installs nothing.
    Failed { transfer_id: u64, hash: String, reason: String },
    /// A frame for a transfer this side never opened, or already finished.
    /// Not fatal: an abort and a late chunk can cross.
    Stray { transfer_id: u64 },
}

/// What accepting a frame produced, as plain values.
pub enum DeliveredView {
    More,
    Installed { transfer_id: u64, hash: Seq<char> },
    Failed { transfer_id: u64, hash: Seq<char>, reason: Seq<char> },
    Stray { transfer_id: u64 },
}

impl View for Delivered {
    type V = DeliveredView;

    open spec fn view(&self) -> DeliveredView {
        match *self {
            Delivered::More => DeliveredView::More,
            Delivered::Installed { transfer_id, hash } => DeliveredView::Installed {
                transfer_id,
                hash: hash@,
            },
            Delivered::Failed { transfer_id, hash, reason } => DeliveredView::Failed {
                transfer_id,
                hash: hash@,
                reason: reason@,
            },
            Delivered::Stray { transfer_id } => DeliveredView::Stray { transfer_id },
        }
    }
}

/// One open transfer.
pub struct Transfer {
    pub hash: String,
    /// Bytes still expected. A sender that overshoots it is refused before
    /// anything is written, so the announced size bounds the disk one transfer
    /// can use.
    pub remaining: u64,
    pub writer: BlobWriter,
}

/// An open transfer as plain values.
pub struct TransferView {
    pub hash: Seq<char>,
    pub remaining: u64,
    pub content: Seq<u8>,
    /// Whether what has arrived is kept when the transfer breaks off.
    pub resumable: bool,
}

impl View for Transfer {
    type V = TransferView;

    open spec fn view(&self) -> TransferView {
        TransferView {
            hash: self.hash@,
            remaining: self.remaining,
            content: self.writer.content(),
            resumable: self.writer.is_resumable(),
        }
    }
}

/// The receiving half of the data plane for one peer.
///
/// Transfers are keyed by the sender's `transfer_id` and hold nothing in
/// common, so concurrent transfers cannot affect each other.
pub struct BlobReceiver {
    open: HashMap<u64, Transfer>,
}

/// The state of the open transfers.
pub type OpenTransfers = Map<u64, TransferView>;

/// Why an offer is refused, or `None`.
pub open spec fn offer_fault(
    open: OpenTransfers,
    transfer_id: u64,
    hash: Seq<char>,
    size: u64,
    free: Option<u64>,
) -> Option<ErrorView> {
    if !is_reference(hash) {
        Some(plain(ErrorClass::ProtocolError, malformed_reference(hash)))
    } else if open.len() >= MAX_OPEN_TRANSFERS && !open.contains_key(transfer_id) {
        Some(
            plain(
                ErrorClass::ProtocolError,
                "Too many Weave blob transfers at once (limit "@ + decimal(
                    MAX_OPEN_TRANSFERS as nat,
                ) + ")."@,
            ),
        )
    } else if open.contains_key(transfer_id) {
        Some(
            plain(
                ErrorClass::ProtocolError,
                "Weave blob transfer "@ + decimal(transfer_id as nat) + " is already open."@,
            ),
        )
    } else {
        match free {
            Some(f) => if f < room_needed(size) {
                Some(no_room(size, f))
            } else {
                None
            },
            None => None,
        }
    }
}

/// The part of a held prefix an offer of `size` bytes continues: all of it, or
/// nothing when it is longer than what is on offer and so cannot be a prefix.
pub open spec fn resumed(held: Seq<u8>, size: u64) -> Seq<u8> {
    if held.len() > size {
        Seq::empty()
    } else {
        held
    }
}

/// The open transfers after one frame, and what the frame produced.
pub open spec fn after_frame(open: OpenTransfers, frame: IncomingView) -> (
    OpenTransfers,
    DeliveredView,
) {
    match frame {
        IncomingView::Chunk { transfer_id, bytes } => if !open.contains_key(transfer_id) {
            (open, DeliveredView::Stray { transfer_id })
        } else {
            let t = open[transfer_id];
            if bytes.len() > t.remaining {
                (
                    open.remove(transfer_id),
                    DeliveredView::Failed {
                        transfer_id,
                        hash: t.hash,
                        reason: "the sender exceeded the announced size"@,
                    },
                )
            } else {
                (
                    open.insert(
                        transfer_id,
                        TransferView {
                            hash: t.hash,
                            remaining: (t.remaining - bytes.len()) as u64,
                            content: t.content + bytes,
                            resumable: t.resumable,
                        },
                    ),
                    DeliveredView::More,
                )
            }
        },
        IncomingView::End { transfer_id } => if !open.contains_key(transfer_id) {
            (open, DeliveredView::Stray { transfer_id })
        } else {
            let t = open[transfer_id];
            (
                open.remove(transfer_id),
                if t.remaining != 0 {
                    DeliveredView::Failed {
                        transfer_id,
                        hash: t.hash,
                        reason: decimal(t.remaining as nat) + " byte(s) never arrived"@,
                    }
                } else if content_hash(t.content) == t.hash {
                    DeliveredView::Installed { transfer_id, hash: t.hash }
                } else {
                    DeliveredView::Failed {
                        transfer_id,
                        hash: t.hash,
                        reason: announced_mismatch(t.hash, content_hash(t.content)),
                    }
                },
            )
        },
        IncomingView::Abort { transfer_id } => if !open.contains_key(transfer_id) {
            (open, DeliveredView::Stray { transfer_id })
        } else {
            (
                open.remove(transfer_id),
                DeliveredView::Failed {
                    transfer_id,
                    hash: open[transfer_id].hash,
                    reason: "the sender aborted the transfer"@,
                },
            )
        },
    }
}

impl BlobReceiver {
    /// The open transfers.
    pub closed spec fn transfers(&self) -> OpenTransfers {
        self.open@.map_values(|t: Transfer| t@)
    }

    /// Every writer's count is right, no transfer can outgrow a 64-bit length,
    /// and there are never more than the limit.
    pub closed spec fn wf(&self) -> bool {
        &&& forall|id: u64| #[trigger]
            self.open@.contains_key(id) ==> self.open@[id].writer.wf()
                && self.open@[id].writer.count() + self.open@[id].remaining <= u64::MAX
        &&& self.open@.dom().finite()
        &&& self.open@.len() <= MAX_OPEN_TRANSFERS
    }

    pub fn new() -> (r: BlobReceiver)
        ensures
            r.wf(),
            r.transfers() == OpenTransfers::empty(),
    {
        let r = BlobReceiver { open: HashMap::new() };
        proof {
            assert(r.transfers() =~= OpenTransfers::empty());
        }
        r
    }

    pub fn open_count(&self) -> (n: usize)
        requires
            self.wf(),
        ensures
            n == self.transfers().len(),
            n <= MAX_OPEN_TRANSFERS,
    {
        proof {
            self.lemma_same_ids();
        }
        self.open.len()
    }

    proof fn lemma_same_ids(&self)
        ensures
            self.transfers().dom() == self.open@.dom(),
            self.transfers().len() == self.open@.len(),
    {
        assert(self.transfers().dom() =~= self.open@.dom());
    }

    pub fn is_open(&self, transfer_id: u64) -> (yes: bool)
        ensures
            yes == self.transfers().contains_key(transfer_id),
    {
        proof {
            self.lemma_same_ids();
        }
        self.open.contains_key(&transfer_id)
    }

    /// How much of a transfer has arrived.
    pub fn received(&self, transfer_id: u64) -> (n: u64)
        requires
            self.wf(),
        ensures
            n == if self.transfers().contains_key(transfer_id) {
                self.transfers()[transfer_id].content.len() as u64
            } else {
                0
            },
    {
        match self.open.get(&transfer_id) {
            Some(t) => t.writer.written(),
            None => 0,
        }
    }

    /// Accept an offer and prepare to receive, returning the offset the sender
    /// should start from. `writer` has been fed with whatever prefix of this
    /// content the disk already holds, and `free` is the disk space left, where
    /// the platform says.
    ///
    /// The receiver chooses the offset because only it knows what it already
    /// holds. The offset is what the writer has hashed off the disk, never what
    /// a previous run claimed to have written, so resuming can only ever
    /// install bytes this side has verified end to end.
    pub fn accept_offer(
        &mut self,
        transfer_id: u64,
        hash: &str,
        size: u64,
        store: &BlobStore,
        free: Option<u64>,
        writer: BlobWriter,
    ) -> (r: Result<u64>)
        requires
            old(self).wf(),
            writer.wf(),
        ensures
            final(self).wf(),
            match offer_fault(old(self).transfers(), transfer_id, hash@, size, free) {
                Some(fault) => r matches Err(e) && e@ == fault && final(self).transfers() == old(
                    self,
                ).transfers(),
                None => {
                    let held = resumed(writer.content(), size);
                    &&& r matches Ok(offset) && offset == held.len()
                    &&& final(self).transfers() == old(self).transfers().insert(
                        transfer_id,
                        TransferView {
                            hash: hash@,
                            remaining: (size - held.len()) as u64,
                            content: held,
                            resumable: writer.is_resumable(),
                        },
                    )
                },
            },
    {
        proof {
            self.lemma_same_ids();
        }
        if !well_formed(hash) {
            let mut m = "Malformed blob reference: ".to_owned();
            m.push_str(hash);
            return Err(protocol(m.as_str()));
        }
        if self.open.len() >= MAX_OPEN_TRANSFERS && !self.open.contains_key(&transfer_id) {
            let mut m = "Too many Weave blob transfers at once (limit ".to_owned();
            m.push_str(decimal_text(MAX_OPEN_TRANSFERS as u64).as_str());
            m.push_str(").");
            return Err(protocol(m.as_str()));
        }
        // Re-offering an open transfer id would silently orphan the writer
        // already under it, and with it the bytes already received.
        if self.open.contains_key(&transfer_id) {
            let mut m = "Weave blob transfer ".to_owned();
            m.push_str(decimal_text(transfer_id).as_str());
            m.push_str(" is already open.");
            return Err(protocol(m.as_str()));
        }
        match store.ensure_room_for(size, free) {
            Ok(_) => {},
            Err(e) => {
                return Err(e);
            },
        }
        let mut writer = writer;
        let mut from_offset: u64 = writer.written();
        if from_offset > size {
            // Longer than what is on offer, so it cannot be a prefix of it,
            // whatever it is. Continuing could only produce a mismatch.
            writer.reset();
            from_offset = 0;
        }
        let t = Transfer { hash: hash.to_owned(), remaining: size - from_offset, writer };
        let ghost before = self.open@;
        self.open.insert(transfer_id, t);
        proof {
            assert(self.open@ == before.insert(transfer_id, t));
            assert(self.transfers() =~= old(self).transfers().insert(transfer_id, t@));
        }
        Ok(from_offset)
    }

    /// Apply one decoded data frame.
    ///
    /// Nothing here can install content that does not hash to the announced
    /// value. A caller that then fails to store the bytes reports it with
    /// [`BlobReceiver::fail`].
    pub fn accept(&mut self, frame: Incoming<'_>) -> (d: Delivered)
        requires
            old(self).wf(),
        ensures
            final(self).wf(),
            (final(self).transfers(), d@) == after_frame(old(self).transfers(), frame@),
    {
        match frame {
            Incoming::Chunk { transfer_id, bytes } => self.chunk(transfer_id, bytes),
            Incoming::End { transfer_id } => self.end(transfer_id),
            Incoming::Abort { transfer_id } => {
                proof {
                    self.lemma_same_ids();
                }
                let ghost before = self.open@;
                match self.open.remove(&transfer_id) {
                    Some(transfer) => {
                        proof {
                            lemma_removed(before, transfer_id);
                            assert(self.transfers() =~= old(self).transfers().remove(transfer_id));
                        }
                        Delivered::Failed {
                            transfer_id,
                            hash: transfer.hash,
                            reason: "the sender aborted the transfer".to_owned(),
                        }
                    },
                    None => {
                        proof {
                            assert(self.transfers() =~= old(self).transfers());
                        }
                        Delivered::Stray { transfer_id }
                    },
                }
            },
        }
    }

    fn chunk(&mut self, transfer_id: u64, bytes: &[u8]) -> (d: Delivered)
        requires
            old(self).wf(),
        ensures
            final(self).wf(),
            (final(self).transfers(), d@) == after_frame(
                old(self).transfers(),
                IncomingView::Chunk { transfer_id, bytes: bytes@ },
            ),
    {
        proof {
            self.lemma_same_ids();
        }
        let ghost before = self.open@;
        match self.open.remove(&transfer_id) {
            None => {
                proof {
                    assert(self.transfers() =~= old(self).transfers());
                }
                Delivered::Stray { transfer_id }
            },
            Some(mut transfer) => {
                proof {
                    lemma_removed(before, transfer_id);
                }
                if bytes.len() as u64 > transfer.remaining {
                    proof {
                        assert(self.transfers() =~= old(self).transfers().remove(transfer_id));
                    }
                    return Delivered::Failed {
                        transfer_id,
                        hash: transfer.hash,
                        reason: "the sender exceeded the announced size".to_owned(),
                    };
                }
                transfer.writer.write(bytes);
                transfer.remaining = transfer.remaining - bytes.len() as u64;
                let ghost grown = transfer@;
                self.open.insert(transfer_id, transfer);
                proof {
                    assert(self.transfers() =~= old(self).transfers().insert(transfer_id, grown));
                }
                Delivered::More
            },
        }
    }

    fn end(&mut self, transfer_id: u64) -> (d: Delivered)
        requires
            old(self).wf(),
        ensures
            final(self).wf(),
            (final(self).transfers(), d@) == after_frame(
                old(self).transfers(),
                IncomingView::End { transfer_id },
            ),
    {
        proof {
            self.lemma_same_ids();
        }
        let ghost before = self.open@;
        match self.open.remove(&transfer_id) {
            None => {
                proof {
                    assert(self.transfers() =~= old(self).transfers());
                }
                Delivered::Stray { transfer_id }
            },
            Some(transfer) => {
                proof {
                    lemma_removed(before, transfer_id);
                    assert(self.transfers() =~= old(self).transfers().remove(transfer_id));
                }
                if transfer.remaining != 0 {
                    let mut reason = decimal_text(transfer.remaining);
                    reason.push_str(" byte(s) never arrived");
                    return Delivered::Failed { transfer_id, hash: transfer.hash, reason };
                }
                match transfer.writer.finish_expecting(transfer.hash.as_str()) {
                    Ok(_) => Delivered::Installed { transfer_id, hash: transfer.hash },
                    Err(e) => Delivered::Failed {
                        transfer_id,
                        hash: transfer.hash,
                        reason: e.message,
                    },
                }
            },
        }
    }

    /// End a transfer whose bytes could not be stored.
    pub fn fail(&mut self, transfer_id: u64, reason: &str) -> (d: Delivered)
        requires
            old(self).wf(),
        ensures
            final(self).wf(),
            final(self).transfers() == old(self).transfers().remove(transfer_id),
            d@ == (DeliveredView::Failed {
                transfer_id,
                hash: if old(self).transfers().contains_key(transfer_id) {
                    old(self).transfers()[transfer_id].hash
                } else {
                    Seq::empty()
                },
                reason: reason@,
            }),
    {
        proof {
            self.lemma_same_ids();
        }
        let ghost before = self.open@;
        let hash = match self.open.remove(&transfer_id) {
            Some(t) => t.hash,
            None => String::new(),
        };
        proof {
            lemma_removed(before, transfer_id);
            assert(self.transfers() =~= old(self).transfers().remove(transfer_id));
        }
        Delivered::Failed { transfer_id, hash, reason: reason.to_owned() }
    }

    /// Abandon one transfer without installing anything.
    pub fn cancel(&mut self, transfer_id: u64)
        requires
            old(self).wf(),
        ensures
            final(self).wf(),
            final(self).transfers() == old(self).transfers().remove(transfer_id),
    {
        let ghost before = self.open@;
        let _ = self.open.remove(&transfer_id);
        proof {
            lemma_removed(before, transfer_id);
            assert(self.transfers() =~= old(self).transfers().remove(transfer_id));
        }
    }

    /// Abandon every open transfer, installing nothing. Transfer ids mean
    /// nothing across sockets, so every transfer has to be renegotiated.
    pub fn clear(&mut self)
        ensures
            final(self).wf(),
            final(self).transfers() == OpenTransfers::empty(),
    {
        self.open.clear();
        proof {
            assert(self.transfers() =~= OpenTransfers::empty());
        }
    }
}

proof fn lemma_removed(open: Map<u64, Transfer>, id: u64)
    requires
        open.dom().finite(),
    ensures
        open.remove(id).len() <= open.len(),
        open.contains_key(id) ==> open.remove(id).len() + 1 == open.len(),
        open.remove(id).dom().finite(),
{
    assert(open.remove(id).dom() =~= open.dom().remove(id));
}

// ---------------------------------------------------------------------------
// What the receiver guarantees
// ---------------------------------------------------------------------------

/// Content is installed only when everything that was announced arrived and
/// it hashes to the announced name.
pub proof fn installed_content_was_verified(open: OpenTransfers, frame: IncomingView)
    ensures
        after_frame(open, frame).1 matches DeliveredView::Installed { transfer_id, hash } ==> {
            &&& open.contains_key(transfer_id)
            &&& open[transfer_id].hash == hash
            &&& open[transfer_id].remaining == 0
            &&& content_hash(open[transfer_id].content) == hash
            &&& !after_frame(open, frame).0.contains_key(transfer_id)
        },
{
}

/// A frame touches no transfer but its own.
pub proof fn transfers_are_independent(open: OpenTransfers, frame: IncomingView, other: u64)
    requires
        other != match frame {
            IncomingView::Chunk { transfer_id, .. } => transfer_id,
            IncomingView::End { transfer_id } => transfer_id,
            IncomingView::Abort { transfer_id } => transfer_id,
        },
    ensures
        after_frame(open, frame).0.contains_key(other) == open.contains_key(other),
        open.contains_key(other) ==> after_frame(open, frame).0[other] == open[other],
{
}

/// A sender never gets more than the announced size written: what is held and
/// what is still expected always add up to the same.
pub proof fn a_transfer_never_outgrows_its_offer(open: OpenTransfers, frame: IncomingView, id: u64)
    requires
        open.contains_key(id),
        after_frame(open, frame).0.contains_key(id),
    ensures
        after_frame(open, frame).0[id].content.len() + after_frame(open, frame).0[id].remaining
            == open[id].content.len() + open[id].remaining,
        after_frame(open, frame).0[id].hash == open[id].hash,
{
}

/// Frames for a transfer that is not open change nothing.
pub proof fn stray_frames_change_nothing(open: OpenTransfers, frame: IncomingView)
    ensures
        after_frame(open, frame).1 is Stray ==> after_frame(open, frame).0 == open,
{
}

/// A transfer sent as one chunk and an end marker installs exactly when the
/// bytes hash to the announced name.
pub proof fn an_honest_transfer_installs(open: OpenTransfers, id: u64, bytes: Seq<u8>, tail: Seq<u8>)
    requires
        open.contains_key(id),
        open[id].remaining == tail.len(),
        open[id].content + tail == bytes,
        open[id].hash == content_hash(bytes),
    ensures
        ({
            let (mid, first) = after_frame(open, IncomingView::Chunk { transfer_id: id, bytes: tail });
            let (done, second) = after_frame(mid, IncomingView::End { transfer_id: id });
            &&& first == DeliveredView::More
            &&& second == (DeliveredView::Installed { transfer_id: id, hash: content_hash(bytes) })
            &&& done =~= open.remove(id)
        }),
{
}

// ---------------------------------------------------------------------------
// Sending
// ---------------------------------------------------------------------------

/// Allocates transfer ids for one direction of one connection.
///
/// Ids are only ever interpreted by the peer they were sent to, so each sender
/// numbering from one is enough to keep them unambiguous.
#[derive(Debug)]
pub struct TransferIds {
    last: u64,
}

impl Default for TransferIds {
    fn default() -> (ids: TransferIds)
        ensures
            ids.last_id() == 0,
    {
        TransferIds { last: 0 }
    }
}

impl TransferIds {
    /// The id handed out last; zero before the first.
    pub closed spec fn last_id(&self) -> u64 {
        self.last
    }

    /// The newest number that was given out, or zero.
    pub fn last(&self) -> (id: u64)
        ensures
            id == self.last_id(),
    {
        self.last
    }

    pub fn next_id(&mut self) -> (id: u64)
        requires
            old(self).last_id() < u64::MAX,
        ensures
            id == old(self).last_id() + 1,
            final(self).last_id() == id,
    {
        self.last = self.last + 1;
        self.last
    }
}

} // verus!
