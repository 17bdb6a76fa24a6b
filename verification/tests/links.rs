use weave::blobs::{BlobStore, BlobWriter};
use weave::blobwire::{decode, BlobReceiver, Delivered, WIRE_CHUNK};
use weave::error::{network, persistence};
use weave::link::{
    stream_blob, Arrived, Entrance, Link, LinkAction, LinkEvent, Opened, PeerAction, PeerEvent,
    PeerStage, Stage,
};
use weave::model::PROTOCOL_VERSION;
use weave::proto::HostMessage;

fn open_link() -> Link {
    let mut l = Link::new();
    assert!(matches!(l.on_event(LinkEvent::Due), LinkAction::Connect));
    assert!(matches!(l.on_event(LinkEvent::Upgraded), LinkAction::Handshake));
    let reply = LinkEvent::Reply(Arrived::Binary(Opened::Partial));
    assert!(matches!(l.on_event(reply), LinkAction::FinishHandshake));
    assert!(matches!(l.on_event(LinkEvent::Secured), LinkAction::Join));
    assert_eq!(l.stage, Stage::Open);
    l
}

fn reason(a: LinkAction) -> (String, u64) {
    match a {
        LinkAction::Drop { reason, wait_s } => (reason, wait_s),
        other => panic!("unexpected {other:?}"),
    }
}

fn control(version: u32) -> LinkEvent {
    LinkEvent::Frame(Arrived::Binary(Opened::Control { version }))
}

#[test]
fn nothing_is_delivered_before_the_handshake() {
    let mut l = Link::new();
    assert!(matches!(l.on_event(control(PROTOCOL_VERSION)), LinkAction::Nothing));
    l.on_event(LinkEvent::Due);
    l.on_event(LinkEvent::Upgraded);
    assert!(matches!(l.on_event(control(PROTOCOL_VERSION)), LinkAction::Nothing));
    let mut l = open_link();
    assert!(matches!(l.on_event(control(PROTOCOL_VERSION)), LinkAction::Deliver));
    let data = LinkEvent::Frame(Arrived::Binary(Opened::Data));
    assert!(matches!(l.on_event(data), LinkAction::DeliverData));
}

#[test]
fn an_unencrypted_or_foreign_host_is_dropped() {
    let mut l = open_link();
    let (why, wait) = reason(l.on_event(LinkEvent::Frame(Arrived::Text)));
    assert_eq!((why.as_str(), wait), ("the host sent an unencrypted frame", 1));
    assert_eq!(l.stage, Stage::Waiting);
    let mut l = open_link();
    let (why, _) = reason(l.on_event(control(PROTOCOL_VERSION + 1)));
    assert_eq!(why, format!("host speaks Weave protocol version {}", PROTOCOL_VERSION + 1));
}

#[test]
fn failed_attempts_wait_longer_and_a_connection_starts_over() {
    let mut l = Link::new();
    let mut waits = Vec::new();
    for _ in 0..5 {
        l.on_event(LinkEvent::Due);
        let refused = LinkEvent::Refused { status: None, said: "refused".to_string() };
        let (why, wait) = reason(l.on_event(refused));
        assert_eq!(why, "Could not reach the Weave host: refused");
        waits.push(wait);
    }
    assert_eq!(waits, vec![2, 4, 8, 8, 8]);
    l.on_event(LinkEvent::Due);
    l.on_event(LinkEvent::Upgraded);
    l.on_event(LinkEvent::Secured);
    let lost = LinkEvent::Frame(Arrived::Lost("reset".to_string()));
    assert_eq!(reason(l.on_event(lost)), ("connection lost: reset".to_string(), 1));
}

#[test]
fn every_failure_of_the_handshake_has_its_reason() {
    let failures = vec![
        (LinkEvent::TimedOut, "The Weave handshake timed out."),
        (
            LinkEvent::NotSent("pipe".to_string()),
            "Could not start the Weave handshake: pipe",
        ),
        (
            LinkEvent::Reply(Arrived::Text),
            "The Weave host did not answer with a handshake.",
        ),
        (
            LinkEvent::Reply(Arrived::Ended),
            "The Weave host closed the connection during the handshake.",
        ),
        (LinkEvent::HandshakeFailed(network("bad key")), "bad key"),
    ];
    for (event, why) in failures {
        let mut l = Link::new();
        l.on_event(LinkEvent::Due);
        l.on_event(LinkEvent::Upgraded);
        assert_eq!(reason(l.on_event(event)).0, why);
    }
    let mut l = Link::new();
    l.on_event(LinkEvent::Due);
    let bad = LinkEvent::BadAddress("no scheme".to_string());
    assert_eq!(reason(l.on_event(bad)).0, "Invalid Weave host URL: no scheme");
    assert_eq!(reason(l.on_event(LinkEvent::Crashed)).1, 2);
}

#[test]
fn only_so_many_handshakes_are_in_flight() {
    let mut e = Entrance::new(2);
    assert!(e.arrive());
    assert!(e.arrive());
    assert!(!e.arrive());
    let (stage, action) = e.on_event(PeerStage::Handshaking, PeerEvent::TimedOut);
    assert_eq!(stage, PeerStage::Over);
    assert!(matches!(action, PeerAction::HangUp));
    assert!(e.arrive());
}

#[test]
fn a_peer_is_known_once_it_is_secured() {
    let mut e = Entrance::new(2);
    e.arrive();
    let (stage, action) = e.on_event(PeerStage::Handshaking, PeerEvent::Secured);
    assert!(matches!(action, PeerAction::Join { conn_id: 1 }));
    assert_eq!(stage, PeerStage::Open(1));
    let message = |version: u32| {
        PeerEvent::Frame(Arrived::Binary(Opened::Control { version }))
    };
    let (stage, action) = e.on_event(stage, message(PROTOCOL_VERSION));
    assert!(matches!(action, PeerAction::Deliver { conn_id: 1 }));
    let broken = PeerEvent::Frame(Arrived::Binary(Opened::Malformed("eof".to_string())));
    let (stage, action) = e.on_event(stage, broken);
    match action {
        PeerAction::Complain(HostMessage::Error { message, .. }) => {
            assert_eq!(message, "Malformed Weave message: eof")
        }
        other => panic!("unexpected {other:?}"),
    }
    let (stage, action) = e.on_event(stage, message(0));
    assert_eq!(stage, PeerStage::Over);
    assert!(matches!(action, PeerAction::Leave { conn_id: 1, last_word: Some(_) }));
    e.arrive();
    let (_, action) = e.on_event(PeerStage::Handshaking, PeerEvent::Secured);
    assert!(matches!(action, PeerAction::Join { conn_id: 2 }));
}

#[test]
fn a_streamed_blob_arrives() {
    let bytes: Vec<u8> = (0..WIRE_CHUNK * 2 + 9).map(|i| (i % 255) as u8).collect();
    let hash = weave::util::sha256_hex(&bytes);
    let store = BlobStore::open("/blobs");
    let mut r = BlobReceiver::new();
    let writer = BlobWriter::start(true);
    r.accept_offer(5, &hash, bytes.len() as u64, &store, None, writer).unwrap();
    let mut at = 0;
    loop {
        let end = (at + WIRE_CHUNK).min(bytes.len());
        let (frame, more) = stream_blob(5, &Ok(bytes[at..end].to_vec()));
        let outcome = r.accept(decode(&frame).unwrap());
        if !more {
            assert_eq!(outcome, Delivered::Installed { transfer_id: 5, hash });
            break;
        }
        assert_eq!(outcome, Delivered::More);
        at = end;
    }
    let (frame, more) = stream_blob(6, &Err(persistence("disk")));
    assert!(!more);
    assert!(matches!(r.accept(decode(&frame).unwrap()), Delivered::Stray { .. } | Delivered::Failed { .. }));
}
