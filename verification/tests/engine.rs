use dotsnotbots::lifecycle::{SocketIoAuth, SocketIoState};
use dotsnotbots::membership::OracleReply;
use dotsnotbots::presence::Position;

fn valid_auth(token: u128) -> SocketIoAuth {
    SocketIoAuth { token: Some(token) }
}

fn color_is_well_formed(s: &str) -> bool {
    let b = s.as_bytes();
    b.len() == 7
        && b[0] == b'#'
        && b[1..].iter().all(|c| c.is_ascii_digit() || (b'A'..=b'F').contains(c))
}

#[test]
fn scenario_connect_valid_token() {
    let mut engine = SocketIoState::new();
    let out = engine.on_connect_with_hue(1, valid_auth(7), OracleReply::IsMember, 200);
    assert_eq!(engine.store_len(), 1);
    assert_eq!(engine.registry_len(), 1);
    let record = out.broadcast.expect("an authenticated connect broadcasts its record");
    assert_eq!(record.id, 1);
    assert!(record.position.is_none());
    assert!(color_is_well_formed(&record.color));
    // no other connection existed, so the broadcast reaches nobody
    assert!(out.others.is_empty());
    // the snapshot sent back holds exactly the new record
    assert_eq!(out.snapshot.len(), 1);
    assert_eq!(out.snapshot[0].id, 1);
    assert_eq!(out.snapshot[0].color, record.color);
}

#[test]
fn connect_with_a_drawn_hue_assigns_a_well_formed_color() {
    let mut engine = SocketIoState::new();
    let out = engine.on_connect(1, valid_auth(7), OracleReply::IsMember);
    let record = out.broadcast.expect("an authenticated connect broadcasts its record");
    assert!(color_is_well_formed(&record.color));
    assert_eq!(engine.store_len(), 1);
    assert_eq!(engine.presence(7).unwrap().color, record.color);
}

#[test]
fn scenario_two_members_and_one_leaves() {
    let mut engine = SocketIoState::new();
    let t1: u128 = 11;
    let t2: u128 = 22;
    engine.on_connect_with_hue(1, valid_auth(t1), OracleReply::IsMember, 10);
    let out_b = engine.on_connect_with_hue(2, valid_auth(t2), OracleReply::IsMember, 250);
    // the second connect is broadcast to the first connection
    assert_eq!(out_b.others, vec![1]);
    assert_eq!(out_b.snapshot.len(), 2);

    // each sends a position; the update goes to every live connection
    let p1 = engine.on_position(1, Position { x: 3, y: 4 });
    let rec1 = p1.broadcast.expect("a registered sender's update is broadcast");
    assert_eq!(rec1.id, 1);
    assert_eq!(rec1.position, Some(Position { x: 3, y: 4 }));
    assert_eq!(p1.recipients, vec![1, 2]);

    let p2 = engine.on_position(2, Position { x: 9, y: 9 });
    let rec2 = p2.broadcast.expect("a registered sender's update is broadcast");
    assert_eq!(rec2.id, 2);
    assert_eq!(p2.recipients, vec![1, 2]);

    // the first connection leaves: only the second member's record stays,
    // and the notice names the departed connection to the remaining one
    let gone = engine.on_disconnect(1);
    assert_eq!(gone.notice, Some(1));
    assert_eq!(gone.recipients, vec![2]);
    assert_eq!(engine.store_len(), 1);
    assert!(engine.presence(t1).is_none());
    let left = engine.presence(t2).expect("the second member's record stays");
    assert_eq!(left.id, 2);
}

#[test]
fn scenario_invalid_token_is_read_only() {
    let mut engine = SocketIoState::new();
    engine.on_connect_with_hue(1, valid_auth(7), OracleReply::IsMember, 40);
    // an unknown token creates nothing but still gets the snapshot
    let out = engine.on_connect_with_hue(2, valid_auth(8), OracleReply::NotMember, 40);
    assert!(out.broadcast.is_none());
    assert_eq!(engine.store_len(), 1);
    assert_eq!(engine.registry_len(), 1);
    assert_eq!(out.snapshot.len(), 1);
    assert_eq!(out.snapshot[0].id, 1);
    // so does a connection that presented no token at all
    let out2 = engine.on_connect_with_hue(3, SocketIoAuth { token: None }, OracleReply::IsMember, 40);
    assert!(out2.broadcast.is_none());
    assert_eq!(out2.snapshot.len(), 1);
    // and so does one whose oracle lookup failed (fail closed)
    let out3 = engine.on_connect_with_hue(4, valid_auth(9), OracleReply::Unavailable, 40);
    assert!(out3.broadcast.is_none());
    assert_eq!(engine.store_len(), 1);
}

#[test]
fn scenario_unregistered_position_is_dropped() {
    let mut engine = SocketIoState::new();
    engine.on_connect_with_hue(1, SocketIoAuth { token: None }, OracleReply::NotMember, 0);
    let out = engine.on_position(1, Position { x: 1, y: 2 });
    assert!(out.broadcast.is_none());
    assert_eq!(engine.store_len(), 0);
    // a connection never seen at all is dropped the same way
    let out2 = engine.on_position(99, Position { x: 1, y: 2 });
    assert!(out2.broadcast.is_none());
}

#[test]
fn scenario_duplicate_login_last_writer_wins() {
    let mut engine = SocketIoState::new();
    let t1: u128 = 77;
    let first = engine.on_connect_with_hue(1, valid_auth(t1), OracleReply::IsMember, 0);
    let second = engine.on_connect_with_hue(2, valid_auth(t1), OracleReply::IsMember, 120);
    // exactly one record, owned by the second connection, with its color
    assert_eq!(engine.store_len(), 1);
    let record = engine.presence(t1).expect("the token keeps one record");
    assert_eq!(record.id, 2);
    assert_eq!(record.color, second.broadcast.unwrap().color);
    assert_ne!(record.color, first.broadcast.unwrap().color);
    // the first connection's registry entry was evicted: its updates are
    // dropped per the unregistered-sender rule, while the second's pass
    let stale = engine.on_position(1, Position { x: 5, y: 5 });
    assert!(stale.broadcast.is_none());
    assert!(engine.presence(t1).unwrap().position.is_none());
    let fresh = engine.on_position(2, Position { x: 6, y: 6 });
    assert!(fresh.broadcast.is_some());
    // the orphaned connection is still live and still gets broadcasts
    assert_eq!(fresh.recipients, vec![1, 2]);
}

#[test]
fn round_trip_changes_only_position() {
    let mut engine = SocketIoState::new();
    let out = engine.on_connect_with_hue(5, valid_auth(3), OracleReply::IsMember, 300);
    let sent = out.broadcast.unwrap();
    // the client echoes a position back for the record it was sent
    let echo = engine.on_position(5, Position { x: 100, y: 200 });
    let got = echo.broadcast.expect("the echo is broadcast again");
    assert_eq!(got.id, sent.id);
    assert_eq!(got.color, sent.color);
    assert_eq!(got.position, Some(Position { x: 100, y: 200 }));
}

#[test]
fn disconnect_twice_is_a_no_op() {
    let mut engine = SocketIoState::new();
    engine.on_connect_with_hue(1, valid_auth(7), OracleReply::IsMember, 0);
    engine.on_connect_with_hue(2, valid_auth(8), OracleReply::IsMember, 0);
    let first = engine.on_disconnect(1);
    assert_eq!(first.notice, Some(1));
    assert_eq!(engine.store_len(), 1);
    let second = engine.on_disconnect(1);
    // no error, no change, and no duplicate broadcast
    assert!(second.notice.is_none());
    assert_eq!(engine.store_len(), 1);
    assert_eq!(engine.registry_len(), 1);
}

#[test]
fn snapshot_is_a_copy_not_a_live_view() {
    let mut engine = SocketIoState::new();
    engine.on_connect_with_hue(1, valid_auth(7), OracleReply::IsMember, 0);
    let before = engine.snapshot();
    engine.on_position(1, Position { x: 8, y: 8 });
    assert!(before[0].position.is_none());
    let after = engine.snapshot();
    assert_eq!(after[0].position, Some(Position { x: 8, y: 8 }));
}

#[test]
fn position_carries_float_bits_through_unchanged() {
    let mut engine = SocketIoState::new();
    engine.on_connect_with_hue(1, valid_auth(7), OracleReply::IsMember, 0);
    let x = 213.25_f64;
    let y = 0.5_f64;
    let out = engine.on_position(1, Position { x: x.to_bits(), y: y.to_bits() });
    let rec = out.broadcast.unwrap();
    let p = rec.position.unwrap();
    assert_eq!(f64::from_bits(p.x), 213.25);
    assert_eq!(f64::from_bits(p.y), 0.5);
}
