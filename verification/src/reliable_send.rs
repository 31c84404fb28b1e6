use vstd::prelude::*;

verus! {

/// Transmissions of one fragment before a reliable send gives up.
pub const P2P_UDP_MAX_SEND_TRIES: u32 = 10;

/// What a reliable sender does next.
#[derive(Debug, Clone, Copy, PartialEq, Eq, Structural)]
pub enum SendAction {
    /// Transmit the fragment with this index and wait for its acknowledgement.
    Transmit(u16),
    /// Every fragment has been acknowledged.
    Done,
    /// The current fragment of the message with this id went unacknowledged
    /// after the last try.
    TimedOut(u32),
}

/// Progress of a send that transmits a message fragment by fragment and waits
/// for each fragment's acknowledgement before moving to the next one.
#[derive(Debug, Clone, Copy)]
pub struct ReliableSend {
    pub msg_id: u32,
    pub frag_cnt: u16,
    /// The fragment being sent; equal to `frag_cnt` once all are acknowledged.
    pub frag_idx: u16,
    /// Transmissions of the current fragment so far.
    pub tries: u32,
}

impl ReliableSend {
    /// The state is consistent: at least one fragment, the index within
    /// range, and no more tries than allowed.
    pub open spec fn wf(&self) -> bool {
        &&& 1 <= self.frag_cnt
        &&& self.frag_idx <= self.frag_cnt
        &&& self.tries <= P2P_UDP_MAX_SEND_TRIES
    }

    /// Transmissions that may still happen before the send ends.
    pub open spec fn budget(&self) -> int {
        if self.frag_idx >= self.frag_cnt {
            0
        } else {
            (self.frag_cnt - self.frag_idx - 1) * (P2P_UDP_MAX_SEND_TRIES as int) + (
            P2P_UDP_MAX_SEND_TRIES - self.tries)
        }
    }

    /// The next step: done once every fragment is acknowledged, a timeout once
    /// the current fragment has used all its tries, else a transmission of it.
    pub open spec fn action_spec(&self) -> SendAction {
        if self.frag_idx >= self.frag_cnt {
            SendAction::Done
        } else if self.tries >= P2P_UDP_MAX_SEND_TRIES {
            SendAction::TimedOut(self.msg_id)
        } else {
            SendAction::Transmit(self.frag_idx)
        }
    }

    /// A send of `frag_cnt` fragments of message `msg_id`, nothing transmitted yet.
    pub fn new(msg_id: u32, frag_cnt: u16) -> (r: Self)
        requires
            frag_cnt >= 1,
        ensures
            r.wf(),
            r == (ReliableSend { msg_id, frag_cnt, frag_idx: 0, tries: 0 }),
            r.budget() == frag_cnt * P2P_UDP_MAX_SEND_TRIES,
    {
        ReliableSend { msg_id, frag_cnt, frag_idx: 0, tries: 0 }
    }

    /// The next step of the send.
    pub fn next_action(&self) -> (a: SendAction)
        ensures
            a == self.action_spec(),
    {
        if self.frag_idx >= self.frag_cnt {
            SendAction::Done
        } else if self.tries >= P2P_UDP_MAX_SEND_TRIES {
            SendAction::TimedOut(self.msg_id)
        } else {
            SendAction::Transmit(self.frag_idx)
        }
    }

    /// Records one transmission of the current fragment.
    pub fn on_transmitted(&mut self)
        requires
            old(self).wf(),
            old(self).action_spec() is Transmit,
        ensures
            final(self).wf(),
            *final(self) == (ReliableSend { tries: (old(self).tries + 1) as u32, ..*old(self) }),
            final(self).budget() == old(self).budget() - 1,
    {
        self.tries = self.tries + 1;
    }

    /// Records what came back after a transmission: with `acked`, a valid
    /// acknowledgement of the current fragment, and the send moves on to the
    /// next fragment with a fresh count of tries; without, nothing changes.
    pub fn on_reply(&mut self, acked: bool)
        requires
            old(self).wf(),
            old(self).frag_idx < old(self).frag_cnt,
        ensures
            final(self).wf(),
            acked ==> *final(self) == (ReliableSend {
                frag_idx: (old(self).frag_idx + 1) as u16,
                tries: 0,
                ..*old(self)
            }),
            !acked ==> *final(self) == *old(self),
            final(self).budget() <= old(self).budget(),
    {
        if acked {
            self.frag_idx = self.frag_idx + 1;
            self.tries = 0;
        }
    }
}

/// A consistent send never has a negative budget nor more than ten
/// transmissions per fragment left, asks for a transmission only while
/// budget remains, and is done exactly when every fragment was acknowledged.
/// With `on_transmitted` spending one unit and `on_reply` spending none, a
/// message of `frag_cnt` fragments is transmitted at most `10 * frag_cnt` times.
pub proof fn lemma_send_budget(s: ReliableSend)
    requires
        s.wf(),
    ensures
        0 <= s.budget() <= s.frag_cnt * P2P_UDP_MAX_SEND_TRIES,
        s.action_spec() is Transmit ==> s.budget() >= 1,
        s.action_spec() is Done <==> s.frag_idx == s.frag_cnt,
        s.action_spec() is TimedOut ==> s.budget() == (s.frag_cnt - s.frag_idx - 1)
            * P2P_UDP_MAX_SEND_TRIES,
{
}

} // verus!
