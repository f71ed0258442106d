use relay_server::console::Control;
use relay_server::relay::{Check, Delivery, Event, Session, Side, Step};
use relay_server::usage::Usage;

fn message(len: usize) -> Event {
    Event::Received { from: Side::Stream, bytes: vec![7; len] }
}

fn pass(len: usize, slow: bool) -> Step {
    let send = if len > 0 { Some(Delivery { to: Side::Peer, bytes: vec![7; len] }) } else { None };
    Step::Pass { bits: len * 8, slow, send }
}

#[test]
fn bits_are_counted() {
    let mut s = Session::new(100);
    assert_eq!(
        s.on_event(message(3)),
        Step::Pass {
            bits: 24,
            slow: false,
            send: Some(Delivery { to: Side::Peer, bytes: vec![7, 7, 7] })
        }
    );
    assert_eq!(s.on_event(message(0)), Step::Pass { bits: 0, slow: false, send: None });
    assert_eq!(s.on_event(message(5)), pass(5, false));
    assert_eq!((s.total, s.recent), (64, 64));
}

#[test]
fn bytes_go_to_the_other_side() {
    let mut c = Control::new();
    let mut s = Session::new(100);
    let mut bits = Vec::new();
    let mut to_stream = Vec::new();
    let mut to_peer = Vec::new();
    let mut finished = false;
    let events = vec![
        Event::Received { from: Side::Peer, bytes: b"abc".to_vec() },
        Event::Received { from: Side::Peer, bytes: Vec::new() },
        Event::Received { from: Side::Peer, bytes: b"de".to_vec() },
        Event::Ended,
    ];
    for event in events {
        match s.on_event(event) {
            Step::Pass { bits: n, slow, send } => {
                assert!(!slow);
                bits.push(n);
                match send {
                    Some(Delivery { to: Side::Stream, bytes }) => to_stream.push(bytes),
                    Some(Delivery { to: Side::Peer, bytes }) => to_peer.push(bytes),
                    None => {}
                }
            }
            Step::Finish => finished = true,
            step => panic!("unexpected {:?}", step),
        }
        assert_eq!(s.checkpoint(999, "1.1.1.1", "1.1.1.1:5", &mut c), Check::Early);
    }
    assert!(finished);
    assert_eq!(bits, vec![24, 0, 16]);
    assert_eq!(to_stream, vec![b"abc".to_vec(), b"de".to_vec()]);
    assert!(to_peer.is_empty());
    assert_eq!(c.usage.len(), 0);
}

#[test]
fn the_average_is_not_above_the_highest_speed() {
    let mut c = Control::new();
    let mut s = Session::new(usize::MAX / 1_000_000);
    let mut speeds = Vec::new();
    for (len, millis) in [(100, 1000), (5000, 1500), (0, 3000), (777, 1001), (5000, 1999)] {
        s.on_event(message(len));
        match s.checkpoint(millis, "1.1.1.1", "x", &mut c) {
            Check::Counted { usage, .. } => {
                speeds.push(usage.speed);
                assert_eq!(Some(&usage.highest), speeds.iter().max());
                assert!(usage.total / usage.elapsed <= usage.highest);
            }
            check => panic!("unexpected {:?}", check),
        }
    }
    assert_eq!(speeds, vec![0, 26, 0, 6, 20]);
}

#[test]
fn idle_pairs_are_given_up() {
    let mut s = Session::new(100);
    assert_eq!(s.on_event(Event::Tick(0)), Step::Proceed);
    assert_eq!(s.on_event(Event::Tick(30)), Step::Proceed);
    assert_eq!(s.on_event(Event::Tick(31)), Step::TimedOut);
    assert_eq!(s.on_event(Event::Ended), Step::Finish);
    assert_eq!(s, Session::new(100));
}

#[test]
fn a_look_before_its_time_changes_nothing() {
    let mut c = Control::new();
    let mut s = Session::new(100);
    s.on_event(message(10));
    let before = s;
    assert_eq!(s.checkpoint(999, "1.1.1.1", "1.1.1.1:5", &mut c), Check::Early);
    assert_eq!(s, before);
    assert_eq!(c.usage.len(), 0);
}

#[test]
fn a_look_is_put_into_the_table() {
    let mut c = Control::new();
    let mut s = Session::new(100);
    s.on_event(message(1000));
    let usage = Usage { elapsed: 1000, total: 8000, highest: 8, speed: 8 };
    assert_eq!(
        s.checkpoint(1000, "1.1.1.1", "1.1.1.1:5", &mut c),
        Check::Counted { usage, slowed_down: false }
    );
    assert_eq!(c.usage.get("1.1.1.1:5"), Some(&usage));
    assert_eq!(s.recent, 0);
    s.on_event(message(500));
    let usage = Usage { elapsed: 3000, total: 12_000, highest: 8, speed: 2 };
    assert_eq!(
        s.checkpoint(2000, "1.1.1.1", "1.1.1.1:5", &mut c),
        Check::Counted { usage, slowed_down: false }
    );
    assert_eq!(c.usage.get("1.1.1.1:5"), Some(&usage));
    assert_eq!(c.usage.len(), 1);
}

#[test]
fn a_blocked_address_is_cut_off() {
    let mut c = Control::new();
    c.blocklist.insert("1.1.1.1".to_string());
    let mut s = Session::new(100);
    assert_eq!(s.checkpoint(1000, "1.1.1.1", "x", &mut c), Check::Blocked);
    assert_eq!(s, Session::new(100));
    assert_eq!(c.usage.len(), 0);
}

#[test]
fn a_blacklisted_address_is_slow_while_it_is_listed() {
    let mut c = Control::new();
    c.blacklist.insert("1.1.1.1".to_string());
    let mut s = Session::new(100);
    assert_eq!(s.on_event(message(1)), pass(1, false));
    s.checkpoint(1000, "1.1.1.1", "x", &mut c);
    assert_eq!(s.on_event(message(1)), pass(1, true));
    c.blacklist.clear();
    s.checkpoint(1000, "1.1.1.1", "x", &mut c);
    assert_eq!(s.on_event(message(1)), pass(1, false));
}

#[test]
fn a_fast_pair_is_slowed_down_for_good() {
    let mut c = Control::new();
    c.settings.downgrade_start_check = 2000;
    let mut s = Session::new(1);
    s.on_event(message(1000));
    assert!(matches!(
        s.checkpoint(2000, "1.1.1.1", "x", &mut c),
        Check::Counted { slowed_down: false, .. }
    ));
    assert!(matches!(
        s.checkpoint(1000, "1.1.1.1", "x", &mut c),
        Check::Counted { slowed_down: true, .. }
    ));
    assert_eq!(s.on_event(message(1)), pass(1, true));
    assert!(matches!(
        s.checkpoint(1_000_000, "1.1.1.1", "x", &mut c),
        Check::Counted { slowed_down: false, .. }
    ));
    assert_eq!(s.on_event(message(1)), pass(1, true));
}

#[test]
fn a_pair_at_the_threshold_is_not_slowed_down() {
    let mut c = Control::new();
    c.settings.downgrade_start_check = 0;
    let mut s = Session::new(8);
    s.on_event(message(1000));
    assert!(matches!(
        s.checkpoint(1000, "1.1.1.1", "x", &mut c),
        Check::Counted { slowed_down: false, .. }
    ));
}

#[test]
fn what_does_not_fit_is_told_before() {
    let mut c = Control::new();
    let mut s = Session::new(usize::MAX);
    assert!(s.has_room_for(usize::MAX / 8));
    assert!(!s.has_room_for(usize::MAX / 8 + 1));
    s.total = usize::MAX - 7;
    assert!(s.has_room_for(0));
    assert!(!s.has_room_for(1));
    assert!(s.is_countable(1000, "1.1.1.1", &c));
    c.settings.downgrade_start_check = 0;
    assert!(!s.is_countable(1000, "1.1.1.1", &c));
    assert!(s.is_countable(999, "1.1.1.1", &c));
    c.blocklist.insert("1.1.1.1".to_string());
    assert!(s.is_countable(1000, "1.1.1.1", &c));
    s.elapsed = usize::MAX;
    assert!(!s.is_countable(1000, "2.2.2.2", &c));
}
