//! The life of a connection, on either side: what is done with each thing that
//! can happen to it.
//!
//! The handshake comes first. Until it has succeeded nothing of the repository
//! is sent, nothing the other side says is trusted, and the session does not
//! know of the connection. From then on nothing is accepted outside the
//! encrypted channel.

use vstd::prelude::*;

use crate::blobwire::{
    abort_frame, chunk_frame, end_frame, frame_bytes, KIND_ABORT, KIND_CHUNK, KIND_END, WIRE_CHUNK,
};
use crate::daemon::{
    connect_error, describe_connect_failure, foreign_host, next_backoff, version_error,
    version_refusal, MAX_BACKOFF,
};
use crate::error::{detailed, plain, ErrorClass, ErrorView, WeaveError};
use crate::model::PROTOCOL_VERSION;
use crate::proto::{HostMessage, HostMessageView};
use crate::text::{decimal, opt_view};

verus! {

// ---------------------------------------------------------------------------
// What arrives
// ---------------------------------------------------------------------------

/// What decrypting a frame gave.
#[derive(Debug)]
pub enum Opened {
    /// A part of a message; more frames follow.
    Partial,
    /// A control message of this protocol version.
    Control { version: u32 },
    /// A control message that does not read.
    Malformed(String),
    /// Blob traffic.
    Data,
    Undecryptable(String),
}

/// What arrived on a socket.
#[derive(Debug)]
pub enum Arrived {
    Binary(Opened),
    Text,
    KeepAlive,
    Closed,
    Lost(String),
    /// There is nothing more.
    Ended,
}

// ---------------------------------------------------------------------------
// The participant's side
// ---------------------------------------------------------------------------

#[derive(Debug, Clone, Copy, PartialEq, Eq, Structural)]
pub enum Stage {
    /// Until the next attempt.
    Waiting,
    Connecting,
    Handshaking,
    Open,
}

#[derive(Debug)]
pub enum LinkEvent {
    /// The wait is over.
    Due,
    BadAddress(String),
    /// The host did not take the connection.
    Refused { status: Option<u16>, said: String },
    Upgraded,
    /// The first message of the handshake could not be sent.
    NotSent(String),
    /// Something arrived while the handshake was awaited.
    Reply(Arrived),
    TimedOut,
    HandshakeFailed(WeaveError),
    Secured,
    Frame(Arrived),
    /// The outgoing queue was closed.
    QueueClosed,
    /// Whoever serves the connection stopped without a word.
    Crashed,
}

/// What is to be done.
#[derive(Debug)]
pub enum LinkAction {
    Nothing,
    Connect,
    /// Send the first message of the handshake.
    Handshake,
    /// Finish the handshake with what arrived.
    FinishHandshake,
    /// Tell the replica that it is connected.
    Join,
    /// Hand the control message to the replica.
    Deliver,
    /// Hand the blob traffic to the replica.
    DeliverData,
    /// Close, tell the replica why, and try again after a while.
    Drop { reason: String, wait_s: u64 },
}

/// An action as plain values.
pub enum ActionView {
    Nothing,
    Connect,
    Handshake,
    FinishHandshake,
    Join,
    Deliver,
    DeliverData,
    Drop { reason: Seq<char>, wait_s: u64 },
}

impl View for LinkAction {
    type V = ActionView;

    open spec fn view(&self) -> ActionView {
        match *self {
            LinkAction::Nothing => ActionView::Nothing,
            LinkAction::Connect => ActionView::Connect,
            LinkAction::Handshake => ActionView::Handshake,
            LinkAction::FinishHandshake => ActionView::FinishHandshake,
            LinkAction::Join => ActionView::Join,
            LinkAction::Deliver => ActionView::Deliver,
            LinkAction::DeliverData => ActionView::DeliverData,
            LinkAction::Drop { reason, wait_s } => ActionView::Drop { reason: reason@, wait_s },
        }
    }
}

/// The connection of a participant.
#[derive(Debug, Clone, Copy, PartialEq, Eq, Structural)]
pub struct Link {
    pub stage: Stage,
    /// Seconds until the next attempt.
    pub backoff: u64,
}

/// The wait after an attempt.
pub open spec fn waits(backoff: u64, was_open: bool) -> u64 {
    if was_open {
        1
    } else if 2 * backoff < MAX_BACKOFF {
        (2 * backoff) as u64
    } else {
        MAX_BACKOFF
    }
}

/// How long to wait before whoever serves the connection is started again.
pub const RESTART_WAIT: u64 = 2;

pub open spec fn dropped(l: Link, reason: Seq<char>) -> (Link, ActionView) {
    let wait_s = waits(l.backoff, l.stage == Stage::Open);
    (Link { stage: Stage::Waiting, backoff: wait_s }, ActionView::Drop { reason, wait_s })
}

pub open spec fn no_handshake() -> ErrorView {
    detailed(
        ErrorClass::NetworkError,
        "The Weave host did not answer with a handshake."@,
        "The endpoint answered, but not as a Weave 2 host. Check the invite."@,
    )
}

pub open spec fn foreign(version: u32) -> Seq<char> {
    "host speaks Weave protocol version "@ + decimal(version as nat)
}

/// What is done with a reply while the handshake is awaited.
pub open spec fn replied(l: Link, a: Arrived) -> (Link, ActionView) {
    match a {
        Arrived::Binary(_) => (l, ActionView::FinishHandshake),
        Arrived::KeepAlive => (l, ActionView::Nothing),
        Arrived::Text | Arrived::Closed => dropped(l, no_handshake().message),
        Arrived::Lost(e) => dropped(
            l,
            "The connection ended during the Weave handshake: "@ + e@,
        ),
        Arrived::Ended => dropped(
            l,
            "The Weave host closed the connection during the handshake."@,
        ),
    }
}

/// What is done with what arrives on an open connection.
pub open spec fn heard(l: Link, a: Arrived) -> (Link, ActionView) {
    match a {
        Arrived::Binary(Opened::Partial) | Arrived::Binary(Opened::Malformed(_)) => (
            l,
            ActionView::Nothing,
        ),
        Arrived::Binary(Opened::Control { version }) => if version != PROTOCOL_VERSION {
            dropped(l, foreign(version))
        } else {
            (l, ActionView::Deliver)
        },
        Arrived::Binary(Opened::Data) => (l, ActionView::DeliverData),
        Arrived::Binary(Opened::Undecryptable(why)) => dropped(l, why@),
        Arrived::Text => dropped(l, "the host sent an unencrypted frame"@),
        Arrived::KeepAlive => (l, ActionView::Nothing),
        Arrived::Lost(e) => dropped(l, "connection lost: "@ + e@),
        Arrived::Closed | Arrived::Ended => dropped(l, "disconnected"@),
    }
}

/// What happens to a connection. An event that does not belong to the stage
/// changes nothing.
pub open spec fn link_rule(l: Link, e: LinkEvent) -> (Link, ActionView) {
    match (l.stage, e) {
        (_, LinkEvent::Crashed) => (
            Link { stage: Stage::Waiting, backoff: 1 },
            ActionView::Drop { reason: "connection task restarted"@, wait_s: RESTART_WAIT },
        ),
        (Stage::Waiting, LinkEvent::Due) => (
            Link { stage: Stage::Connecting, ..l },
            ActionView::Connect,
        ),
        (Stage::Connecting, LinkEvent::BadAddress(why)) => dropped(
            l,
            "Invalid Weave host URL: "@ + why@,
        ),
        (Stage::Connecting, LinkEvent::Refused { status, said }) => dropped(
            l,
            connect_error(status, said@).message,
        ),
        (Stage::Connecting, LinkEvent::Upgraded) => (
            Link { stage: Stage::Handshaking, ..l },
            ActionView::Handshake,
        ),
        (Stage::Handshaking, LinkEvent::NotSent(why)) => dropped(
            l,
            "Could not start the Weave handshake: "@ + why@,
        ),
        (Stage::Handshaking, LinkEvent::Reply(a)) => replied(l, a),
        (Stage::Handshaking, LinkEvent::TimedOut) => dropped(
            l,
            "The Weave handshake timed out."@,
        ),
        (Stage::Handshaking, LinkEvent::HandshakeFailed(why)) => dropped(l, why@.message),
        (Stage::Handshaking, LinkEvent::Secured) => (
            Link { stage: Stage::Open, ..l },
            ActionView::Join,
        ),
        (Stage::Open, LinkEvent::Frame(a)) => heard(l, a),
        (Stage::Open, LinkEvent::QueueClosed) => dropped(l, "disconnected"@),
        _ => (l, ActionView::Nothing),
    }
}

fn joined(start: &str, end: &str) -> (s: String)
    ensures
        s@ == start@ + end@,
{
    let mut s = start.to_owned();
    s.push_str(end);
    s
}

impl Link {
    /// A participant that is about to connect.
    pub fn new() -> (l: Link)
        ensures
            l == (Link { stage: Stage::Waiting, backoff: 1 }),
            l.ok(),
    {
        Link { stage: Stage::Waiting, backoff: 1 }
    }

    /// The wait stays short.
    pub open spec fn ok(self) -> bool {
        1 <= self.backoff <= MAX_BACKOFF
    }

    fn drop_with(&mut self, reason: String) -> (a: LinkAction)
        requires
            old(self).ok(),
        ensures
            final(self).ok(),
            (*final(self), a@) == dropped(*old(self), reason@),
    {
        let wait_s = next_backoff(self.backoff, self.stage == Stage::Open);
        self.stage = Stage::Waiting;
        self.backoff = wait_s;
        LinkAction::Drop { reason, wait_s }
    }

    fn on_reply(&mut self, a: Arrived) -> (r: LinkAction)
        requires
            old(self).ok(),
        ensures
            final(self).ok(),
            (*final(self), r@) == replied(*old(self), a),
    {
        match a {
            Arrived::Binary(_) => LinkAction::FinishHandshake,
            Arrived::KeepAlive => LinkAction::Nothing,
            Arrived::Text | Arrived::Closed => self.drop_with(
                "The Weave host did not answer with a handshake.".to_owned(),
            ),
            Arrived::Lost(e) => self.drop_with(
                joined("The connection ended during the Weave handshake: ", e.as_str()),
            ),
            Arrived::Ended => self.drop_with(
                "The Weave host closed the connection during the handshake.".to_owned(),
            ),
        }
    }

    fn on_frame(&mut self, a: Arrived) -> (r: LinkAction)
        requires
            old(self).ok(),
        ensures
            final(self).ok(),
            (*final(self), r@) == heard(*old(self), a),
    {
        match a {
            Arrived::Binary(opened) => match opened {
                Opened::Partial | Opened::Malformed(_) => LinkAction::Nothing,
                Opened::Control { version } => match foreign_host(version) {
                    Some(reason) => self.drop_with(reason),
                    None => LinkAction::Deliver,
                },
                Opened::Data => LinkAction::DeliverData,
                Opened::Undecryptable(why) => self.drop_with(why),
            },
            Arrived::Text => self.drop_with("the host sent an unencrypted frame".to_owned()),
            Arrived::KeepAlive => LinkAction::Nothing,
            Arrived::Lost(e) => self.drop_with(joined("connection lost: ", e.as_str())),
            Arrived::Closed | Arrived::Ended => self.drop_with("disconnected".to_owned()),
        }
    }

    /// One event of the connection.
    pub fn on_event(&mut self, e: LinkEvent) -> (a: LinkAction)
        requires
            old(self).ok(),
        ensures
            final(self).ok(),
            (*final(self), a@) == link_rule(*old(self), e),
    {
        match (self.stage, e) {
            (_, LinkEvent::Crashed) => {
                self.stage = Stage::Waiting;
                self.backoff = 1;
                LinkAction::Drop {
                    reason: "connection task restarted".to_owned(),
                    wait_s: RESTART_WAIT,
                }
            },
            (Stage::Waiting, LinkEvent::Due) => {
                self.stage = Stage::Connecting;
                LinkAction::Connect
            },
            (Stage::Connecting, LinkEvent::BadAddress(why)) => self.drop_with(
                joined("Invalid Weave host URL: ", why.as_str()),
            ),
            (Stage::Connecting, LinkEvent::Refused { status, said }) => {
                let e = describe_connect_failure(status, said.as_str());
                self.drop_with(e.message)
            },
            (Stage::Connecting, LinkEvent::Upgraded) => {
                self.stage = Stage::Handshaking;
                LinkAction::Handshake
            },
            (Stage::Handshaking, LinkEvent::NotSent(why)) => self.drop_with(
                joined("Could not start the Weave handshake: ", why.as_str()),
            ),
            (Stage::Handshaking, LinkEvent::Reply(a)) => self.on_reply(a),
            (Stage::Handshaking, LinkEvent::TimedOut) => self.drop_with(
                "The Weave handshake timed out.".to_owned(),
            ),
            (Stage::Handshaking, LinkEvent::HandshakeFailed(why)) => self.drop_with(why.message),
            (Stage::Handshaking, LinkEvent::Secured) => {
                self.stage = Stage::Open;
                LinkAction::Join
            },
            (Stage::Open, LinkEvent::Frame(a)) => self.on_frame(a),
            (Stage::Open, LinkEvent::QueueClosed) => self.drop_with("disconnected".to_owned()),
            _ => LinkAction::Nothing,
        }
    }
}

// ---------------------------------------------------------------------------
// The host's side
// ---------------------------------------------------------------------------

/// Who may come in: a bounded number of handshakes at once, and a fresh number
/// for every connection that completes one.
#[derive(Debug, Clone, Copy, PartialEq, Eq, Structural)]
pub struct Entrance {
    pub pending: usize,
    pub limit: usize,
    pub next_conn: u64,
}

#[derive(Debug, Clone, Copy, PartialEq, Eq, Structural)]
pub enum PeerStage {
    Handshaking,
    Open(u64),
    Over,
}

#[derive(Debug)]
pub enum PeerEvent {
    Reply(Arrived),
    TimedOut,
    HandshakeFailed,
    Secured,
    Frame(Arrived),
    QueueClosed,
}

/// What is to be done.
#[derive(Debug)]
pub enum PeerAction {
    Nothing,
    /// Answer the handshake with what arrived.
    Answer,
    /// Close a connection that the session never knew of.
    HangUp,
    /// Tell the session of a new connection.
    Join { conn_id: u64 },
    Deliver { conn_id: u64 },
    DeliverData { conn_id: u64 },
    /// Say what is wrong with a message.
    Complain(HostMessage),
    /// Close, and tell the session; where there is a message, say it first.
    Leave { conn_id: u64, last_word: Option<HostMessage> },
}

/// An action as plain values.
pub enum PeerActionView {
    Nothing,
    Answer,
    HangUp,
    Join { conn_id: u64 },
    Deliver { conn_id: u64 },
    DeliverData { conn_id: u64 },
    Complain(HostMessageView),
    Leave { conn_id: u64, last_word: Option<HostMessageView> },
}

impl View for PeerAction {
    type V = PeerActionView;

    open spec fn view(&self) -> PeerActionView {
        match *self {
            PeerAction::Nothing => PeerActionView::Nothing,
            PeerAction::Answer => PeerActionView::Answer,
            PeerAction::HangUp => PeerActionView::HangUp,
            PeerAction::Join { conn_id } => PeerActionView::Join { conn_id },
            PeerAction::Deliver { conn_id } => PeerActionView::Deliver { conn_id },
            PeerAction::DeliverData { conn_id } => PeerActionView::DeliverData { conn_id },
            PeerAction::Complain(m) => PeerActionView::Complain(m@),
            PeerAction::Leave { conn_id, last_word } => PeerActionView::Leave {
                conn_id,
                last_word: opt_view(last_word),
            },
        }
    }
}

/// The handshake is over, one way or the other.
pub open spec fn freed(g: Entrance) -> Entrance {
    Entrance {
        pending: if g.pending == 0 {
            0
        } else {
            (g.pending - 1) as usize
        },
        ..g
    }
}

pub open spec fn hung_up(g: Entrance) -> (Entrance, PeerStage, PeerActionView) {
    (freed(g), PeerStage::Over, PeerActionView::HangUp)
}

pub open spec fn left(g: Entrance, conn_id: u64, last_word: Option<HostMessageView>) -> (
    Entrance,
    PeerStage,
    PeerActionView,
) {
    (g, PeerStage::Over, PeerActionView::Leave { conn_id, last_word })
}

pub open spec fn spoken(e: ErrorView) -> HostMessageView {
    HostMessageView::Error { request_id: None, error: e }
}

/// What is done with what arrives on an open connection.
pub open spec fn peer_heard(g: Entrance, conn_id: u64, a: Arrived) -> (
    Entrance,
    PeerStage,
    PeerActionView,
) {
    let same = PeerStage::Open(conn_id);
    match a {
        Arrived::Binary(Opened::Partial) => (g, same, PeerActionView::Nothing),
        Arrived::Binary(Opened::Control { version }) => if version != PROTOCOL_VERSION {
            left(g, conn_id, Some(spoken(version_error(version))))
        } else {
            (g, same, PeerActionView::Deliver { conn_id })
        },
        Arrived::Binary(Opened::Malformed(why)) => (
            g,
            same,
            PeerActionView::Complain(
                spoken(plain(ErrorClass::ProtocolError, "Malformed Weave message: "@ + why@)),
            ),
        ),
        Arrived::Binary(Opened::Data) => (g, same, PeerActionView::DeliverData { conn_id }),
        Arrived::KeepAlive => (g, same, PeerActionView::Nothing),
        _ => left(g, conn_id, None),
    }
}

/// What happens to a connection of somebody who came in.
pub open spec fn peer_rule(g: Entrance, s: PeerStage, e: PeerEvent) -> (
    Entrance,
    PeerStage,
    PeerActionView,
) {
    match (s, e) {
        (PeerStage::Handshaking, PeerEvent::Reply(Arrived::Binary(_))) => (
            g,
            s,
            PeerActionView::Answer,
        ),
        (PeerStage::Handshaking, PeerEvent::Reply(Arrived::KeepAlive)) => (
            g,
            s,
            PeerActionView::Nothing,
        ),
        (PeerStage::Handshaking, PeerEvent::Reply(_)) => hung_up(g),
        (PeerStage::Handshaking, PeerEvent::TimedOut) => hung_up(g),
        (PeerStage::Handshaking, PeerEvent::HandshakeFailed) => hung_up(g),
        (PeerStage::Handshaking, PeerEvent::Secured) => (
            Entrance { next_conn: (g.next_conn + 1) as u64, ..freed(g) },
            PeerStage::Open(g.next_conn),
            PeerActionView::Join { conn_id: g.next_conn },
        ),
        (PeerStage::Open(conn_id), PeerEvent::Frame(a)) => peer_heard(g, conn_id, a),
        (PeerStage::Open(conn_id), PeerEvent::QueueClosed) => left(g, conn_id, None),
        _ => (g, s, PeerActionView::Nothing),
    }
}

impl Entrance {
    /// Room for `limit` handshakes at once. The first number belongs to the
    /// host's own replica.
    pub fn new(limit: usize) -> (g: Entrance)
        ensures
            g == (Entrance { pending: 0, limit, next_conn: 1 }),
    {
        Entrance { pending: 0, limit, next_conn: 1 }
    }

    /// Somebody is at the door. Whoever comes while too many handshakes are in
    /// flight is turned away.
    pub fn arrive(&mut self) -> (come_in: bool)
        ensures
            come_in == (old(self).pending < old(self).limit),
            *final(self) == (Entrance {
                pending: if come_in {
                    (old(self).pending + 1) as usize
                } else {
                    old(self).pending
                },
                ..*old(self)
            }),
    {
        if self.pending >= self.limit {
            return false;
        }
        self.pending = self.pending + 1;
        true
    }

    fn release_one(&mut self)
        ensures
            *final(self) == freed(*old(self)),
    {
        if self.pending > 0 {
            self.pending = self.pending - 1;
        }
    }

    fn on_frame(&mut self, conn_id: u64, a: Arrived) -> (r: (PeerStage, PeerAction))
        ensures
            (*final(self), r.0, r.1@) == peer_heard(*old(self), conn_id, a),
    {
        let same = PeerStage::Open(conn_id);
        match a {
            Arrived::Binary(opened) => match opened {
                Opened::Partial => (same, PeerAction::Nothing),
                Opened::Control { version } => match version_refusal(version) {
                    Some(m) => (
                        PeerStage::Over,
                        PeerAction::Leave { conn_id, last_word: Some(m) },
                    ),
                    None => (same, PeerAction::Deliver { conn_id }),
                },
                Opened::Malformed(why) => (
                    same,
                    PeerAction::Complain(
                        HostMessage::Error {
                            request_id: None,
                            class: ErrorClass::ProtocolError,
                            message: joined("Malformed Weave message: ", why.as_str()),
                            detail: None,
                        },
                    ),
                ),
                Opened::Data => (same, PeerAction::DeliverData { conn_id }),
                Opened::Undecryptable(_) => (
                    PeerStage::Over,
                    PeerAction::Leave { conn_id, last_word: None },
                ),
            },
            Arrived::KeepAlive => (same, PeerAction::Nothing),
            _ => (PeerStage::Over, PeerAction::Leave { conn_id, last_word: None }),
        }
    }

    /// One event of a connection that came in.
    pub fn on_event(&mut self, stage: PeerStage, e: PeerEvent) -> (r: (PeerStage, PeerAction))
        requires
            old(self).next_conn < u64::MAX,
        ensures
            (*final(self), r.0, r.1@) == peer_rule(*old(self), stage, e),
    {
        match (stage, e) {
            (PeerStage::Handshaking, PeerEvent::Reply(a)) => match a {
                Arrived::Binary(_) => (stage, PeerAction::Answer),
                Arrived::KeepAlive => (stage, PeerAction::Nothing),
                _ => {
                    self.release_one();
                    (PeerStage::Over, PeerAction::HangUp)
                },
            },
            (PeerStage::Handshaking, PeerEvent::TimedOut) => {
                self.release_one();
                (PeerStage::Over, PeerAction::HangUp)
            },
            (PeerStage::Handshaking, PeerEvent::HandshakeFailed) => {
                self.release_one();
                (PeerStage::Over, PeerAction::HangUp)
            },
            (PeerStage::Handshaking, PeerEvent::Secured) => {
                let conn_id = self.next_conn;
                self.release_one();
                self.next_conn = conn_id + 1;
                (PeerStage::Open(conn_id), PeerAction::Join { conn_id })
            },
            (PeerStage::Open(conn_id), PeerEvent::Frame(a)) => self.on_frame(conn_id, a),
            (PeerStage::Open(conn_id), PeerEvent::QueueClosed) => (
                PeerStage::Over,
                PeerAction::Leave { conn_id, last_word: None },
            ),
            _ => (stage, PeerAction::Nothing),
        }
    }
}

// ---------------------------------------------------------------------------
// Streaming a blob
// ---------------------------------------------------------------------------

/// The next frame of a transfer: what was read, the end of it once nothing is
/// left to read, or that it is given up. Says whether the transfer goes on.
pub fn stream_blob(transfer_id: u64, read: &std::result::Result<Vec<u8>, WeaveError>) -> (r: (
    Vec<u8>,
    bool,
))
    requires
        read matches Ok(bytes) ==> bytes@.len() <= WIRE_CHUNK,
    ensures
        r.0@ == match *read {
            Ok(bytes) => if bytes@.len() == 0 {
                frame_bytes(KIND_END, transfer_id, Seq::empty())
            } else {
                frame_bytes(KIND_CHUNK, transfer_id, bytes@)
            },
            Err(_) => frame_bytes(KIND_ABORT, transfer_id, Seq::empty()),
        },
        r.1 == (read matches Ok(bytes) && bytes@.len() > 0),
{
    match read {
        Ok(bytes) => {
            if bytes.len() == 0 {
                (end_frame(transfer_id), false)
            } else {
                (chunk_frame(transfer_id, bytes.as_slice()), true)
            }
        },
        Err(_) => (abort_frame(transfer_id), false),
    }
}

// ---------------------------------------------------------------------------
// What a connection guarantees
// ---------------------------------------------------------------------------

/// Nothing the host says reaches the replica before the handshake succeeded,
/// and nothing in another protocol or outside the encrypted channel after it.
pub proof fn only_the_secured_host_is_heard(l: Link, e: LinkEvent)
    ensures
        ({
            let a = link_rule(l, e).1;
            &&& (a is Deliver || a is DeliverData) ==> l.stage == Stage::Open
            &&& a is Deliver ==> e == LinkEvent::Frame(
                Arrived::Binary(Opened::Control { version: PROTOCOL_VERSION }),
            )
            &&& a is DeliverData ==> e == LinkEvent::Frame(Arrived::Binary(Opened::Data))
            &&& a is Join ==> l.stage == Stage::Handshaking && e is Secured
            &&& l.stage == Stage::Open && e == LinkEvent::Frame(Arrived::Text) ==> a is Drop
        }),
{
}

/// A connection that ended is tried again, and soon: the wait never exceeds
/// its cap, and after a connection that worked it starts over.
pub proof fn a_lost_connection_is_tried_again(l: Link, e: LinkEvent)
    requires
        l.ok(),
    ensures
        ({
            let (next, a) = link_rule(l, e);
            &&& next.ok()
            &&& a is Drop ==> next.stage == Stage::Waiting && a->wait_s <= MAX_BACKOFF
            &&& a is Drop && l.stage == Stage::Open && !(e is Crashed) ==> a->wait_s == 1
            &&& link_rule(next, LinkEvent::Due).1 is Connect <==> next.stage == Stage::Waiting
        }),
{
}

/// The session hears of a connection only once its handshake succeeded, hears
/// nothing of one that failed, and is told when one ends.
pub proof fn the_session_knows_only_secured_peers(g: Entrance, s: PeerStage, e: PeerEvent)
    ensures
        ({
            let (_, next, a) = peer_rule(g, s, e);
            &&& a matches PeerActionView::Deliver { conn_id } ==> s == PeerStage::Open(conn_id)
                && e == PeerEvent::Frame(
                Arrived::Binary(Opened::Control { version: PROTOCOL_VERSION }),
            )
            &&& a matches PeerActionView::DeliverData { conn_id } ==> s == PeerStage::Open(conn_id)
            &&& a matches PeerActionView::Leave { conn_id, .. } ==> s == PeerStage::Open(conn_id)
                && next == PeerStage::Over
            &&& a is Join <==> (s == PeerStage::Handshaking && e is Secured)
            &&& s is Open && next != s ==> a is Leave
            &&& s == PeerStage::Handshaking && next == PeerStage::Over ==> a is HangUp
        }),
{
}

/// Connections never share a number.
pub proof fn connection_numbers_never_repeat(g: Entrance, s: PeerStage, e: PeerEvent)
    requires
        g.next_conn < u64::MAX,
    ensures
        ({
            let (after, next, a) = peer_rule(g, s, e);
            &&& a matches PeerActionView::Join { conn_id } ==> conn_id == g.next_conn
                && after.next_conn == conn_id + 1 && next == PeerStage::Open(conn_id)
            &&& !(a is Join) ==> after.next_conn == g.next_conn
        }),
{
}

/// The number of handshakes in flight stays bounded.
pub proof fn handshakes_are_bounded(g: Entrance, s: PeerStage, e: PeerEvent)
    requires
        g.pending <= g.limit,
    ensures
        peer_rule(g, s, e).0.pending <= g.limit,
        peer_rule(g, s, e).0.limit == g.limit,
{
}

} // verus!
