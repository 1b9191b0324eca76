use quic_send::holepunch::{HolePunch, PunchAction, PunchEvent, ACK, MAX_HOLEPUNCH_TRIES, SYN};
use quic_send::rendezvous::{
    code_char, code_char_of_draw, code_key, generate_code, validate_version, AnnounceOutcome, Exchange, PeerAddr,
    Registry, RendezvousError, ROUNDEZVOUS_PROTO_VERSION,
};

#[test]
fn rendezvous_pairing() {
    let mut registry = Registry::new(1000);
    let sender = PeerAddr::V4 { ip: 0x0a00_0001, port: 4000 };
    let receiver = PeerAddr::V4 { ip: 0x0a00_0002, port: 5000 };
    let code = code_key(b"ABcd1234");
    assert_eq!(registry.announce(code, sender), AnnounceOutcome::Admitted { conn_id: 0 });
    assert_eq!(registry.len(), 1);
    let exchange = registry.pair(code, receiver);
    assert_eq!(
        exchange,
        Ok(Exchange { to_waiter: receiver, to_connector: sender, waiter_conn_id: 0 })
    );
    assert_eq!(registry.len(), 0);
    assert_eq!(registry.pair(code, receiver), Err(RendezvousError::InvalidCode));
}

#[test]
fn over_limit_announce_is_dropped() {
    let mut registry = Registry::new(2);
    let a = PeerAddr::V6 { ip: 1, port: 1 };
    assert_eq!(registry.announce(1, a), AnnounceOutcome::Admitted { conn_id: 0 });
    assert_eq!(registry.announce(2, a), AnnounceOutcome::Admitted { conn_id: 1 });
    assert!(!registry.admits());
    assert_eq!(registry.announce(3, a), AnnounceOutcome::Full);
    assert_eq!(registry.len(), 2);
    assert_eq!(registry.pair(3, a), Err(RendezvousError::InvalidCode));
}

#[test]
fn taken_code_is_redrawn() {
    let mut registry = Registry::new(10);
    let a = PeerAddr::V4 { ip: 1, port: 2 };
    assert_eq!(registry.announce(9, a), AnnounceOutcome::Admitted { conn_id: 0 });
    assert_eq!(registry.announce(9, a), AnnounceOutcome::CodeTaken);
    assert_eq!(registry.announce(8, a), AnnounceOutcome::Admitted { conn_id: 1 });
}

#[test]
fn stale_announce_is_evicted() {
    let mut registry = Registry::new(10);
    let a = PeerAddr::V4 { ip: 7, port: 7 };
    let code = code_key(b"zzzz0000");
    assert_eq!(registry.announce(code, a), AnnounceOutcome::Admitted { conn_id: 0 });
    let expired = registry.take(code);
    assert_eq!(expired.map(|w| w.conn_id), Some(0));
    assert_eq!(registry.take(code), None);
    assert_eq!(registry.pair(code, a), Err(RendezvousError::InvalidCode));
}

#[test]
fn code_key_is_big_endian() {
    assert_eq!(code_key(&[0, 0, 0, 0, 0, 0, 1, 2]), 258);
    assert_eq!(code_key(b"ABcd1234"), u64::from_be_bytes(*b"ABcd1234"));
}

#[test]
fn code_alphabet() {
    assert_eq!(code_char(0), b'A');
    assert_eq!(code_char(25), b'Z');
    assert_eq!(code_char(26), b'a');
    assert_eq!(code_char(51), b'z');
    assert_eq!(code_char(52), b'0');
    assert_eq!(code_char(61), b'9');
    let code = generate_code();
    assert!(code.iter().all(|c| c.is_ascii_alphanumeric()));
}

#[test]
fn rendezvous_version_check() {
    assert_eq!(validate_version(ROUNDEZVOUS_PROTO_VERSION), Ok(()));
    let other = ROUNDEZVOUS_PROTO_VERSION + 1;
    assert_eq!(
        validate_version(other),
        Err(RendezvousError::WrongVersion { expected: ROUNDEZVOUS_PROTO_VERSION, got: other })
    );
}

#[test]
fn hole_punch_succeeds_on_ack() {
    let mut p = HolePunch::new();
    assert_eq!(p.step(PunchEvent::Begin), PunchAction::SendSyn);
    assert_eq!(p.step(PunchEvent::Received { len: 2, byte: ACK }), PunchAction::Listen);
    assert_eq!(p.step(PunchEvent::Received { len: 1, byte: SYN }), PunchAction::SendAck);
    assert_eq!(p.step(PunchEvent::Begin), PunchAction::SendSyn);
    assert_eq!(p.step(PunchEvent::Received { len: 1, byte: ACK }), PunchAction::Finished { punched: true });
    assert!(p.is_punched());
}

#[test]
fn hole_punch_gives_up() {
    let mut p = HolePunch::new();
    assert_eq!(p.step(PunchEvent::Begin), PunchAction::SendSyn);
    let mut syns = 1;
    loop {
        match p.step(PunchEvent::WindowElapsed) {
            PunchAction::SendSyn => syns += 1,
            PunchAction::Finished { punched } => {
                assert!(!punched);
                break;
            }
            other => panic!("unexpected {:?}", other),
        }
    }
    assert_eq!(syns, MAX_HOLEPUNCH_TRIES as usize);
    assert!(!p.is_punched());
}

#[test]
fn draw_maps_to_alphabet() {
    assert_eq!(code_char_of_draw(0), b'A');
    assert_eq!(code_char_of_draw(62), b'A');
    assert_eq!(code_char_of_draw(63), b'B');
    assert_eq!(code_char_of_draw(61), b'9');
    assert_eq!(code_char_of_draw(62 * 1000 + 27), b'b');
}

#[test]
fn hole_punch_after_last_round_finishes() {
    let mut p = HolePunch::new();
    assert_eq!(p.step(PunchEvent::Begin), PunchAction::SendSyn);
    for _ in 1..MAX_HOLEPUNCH_TRIES {
        assert_eq!(p.step(PunchEvent::WindowElapsed), PunchAction::SendSyn);
    }
    assert_eq!(p.step(PunchEvent::WindowElapsed), PunchAction::Finished { punched: false });
    assert_eq!(p.step(PunchEvent::Begin), PunchAction::Finished { punched: false });
    assert_eq!(p.step(PunchEvent::Received { len: 1, byte: ACK }), PunchAction::Listen);
}
