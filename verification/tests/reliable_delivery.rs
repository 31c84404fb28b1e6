use gpuf_c::reliable_send::{ReliableSend, SendAction, P2P_UDP_MAX_SEND_TRIES};

#[test]
fn reliable_send_moves_on_after_each_ack() {
    let mut s = ReliableSend::new(7, 2);
    assert_eq!(s.next_action(), SendAction::Transmit(0));
    s.on_transmitted();
    s.on_reply(true);
    assert_eq!(s.next_action(), SendAction::Transmit(1));
    assert_eq!(s.tries, 0);
    s.on_transmitted();
    s.on_reply(true);
    assert_eq!(s.next_action(), SendAction::Done);
}

#[test]
fn reliable_send_retransmits_until_the_tenth_try_then_times_out() {
    let mut s = ReliableSend::new(42, 3);
    let mut transmissions = 0u32;
    loop {
        match s.next_action() {
            SendAction::Transmit(idx) => {
                assert_eq!(idx, 0);
                s.on_transmitted();
                transmissions += 1;
                s.on_reply(false);
            }
            SendAction::TimedOut(id) => {
                assert_eq!(id, 42);
                break;
            }
            SendAction::Done => panic!("no fragment was acknowledged"),
        }
    }
    assert_eq!(transmissions, P2P_UDP_MAX_SEND_TRIES);
    assert_eq!(transmissions, 10);
}

#[test]
fn reliable_send_acked_on_last_try_still_succeeds() {
    let mut s = ReliableSend::new(1, 1);
    for _ in 0..9 {
        assert_eq!(s.next_action(), SendAction::Transmit(0));
        s.on_transmitted();
        s.on_reply(false);
    }
    assert_eq!(s.next_action(), SendAction::Transmit(0));
    s.on_transmitted();
    s.on_reply(true);
    assert_eq!(s.next_action(), SendAction::Done);
}

#[test]
fn reliable_send_total_transmissions_bounded_by_ten_per_fragment() {
    // Acknowledge every third transmission: never more than 10 per fragment.
    let mut s = ReliableSend::new(3, 4);
    let mut transmissions = 0u32;
    let mut n = 0u32;
    while let SendAction::Transmit(_) = s.next_action() {
        s.on_transmitted();
        transmissions += 1;
        n += 1;
        s.on_reply(n % 3 == 0);
    }
    assert_eq!(s.next_action(), SendAction::Done);
    assert_eq!(transmissions, 12);
    assert!(transmissions <= 4 * P2P_UDP_MAX_SEND_TRIES);
}
