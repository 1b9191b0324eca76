//! UDP hole punching as a state machine: the caller sends and receives the
//! datagrams, this decides what comes next.
use vstd::prelude::*;

verus! {

/// Rounds of SYN before giving up.
pub const MAX_HOLEPUNCH_TRIES: u8 = 5;
/// The one-byte datagram that opens a round.
pub const SYN: u8 = 1;
/// The one-byte datagram that answers a SYN.
pub const ACK: u8 = 2;

/// What happened since the last step.
#[derive(Debug, Clone, Copy, PartialEq, Eq, Structural)]
pub enum PunchEvent {
    /// Start, or go on after an ACK was sent
    Begin,
    /// A datagram of `len` bytes arrived, the first of them `byte`
    Received { len: usize, byte: u8 },
    /// The read window of the round ran out
    WindowElapsed,
}

/// What the caller does next.
#[derive(Debug, Clone, Copy, PartialEq, Eq, Structural)]
pub enum PunchAction {
    /// Send a SYN and open a read window
    SendSyn,
    /// Send an ACK, then step with `Begin`
    SendAck,
    /// Keep reading in the current window
    Listen,
    /// Stop; `punched` when the peer acknowledged
    Finished { punched: bool },
}

/// Progress of a hole punch.
pub struct HolePunch {
    retries: u8,
    punched: bool,
    listening: bool,
}

/// Starting a round: finish when done, else send a SYN and listen.
pub open spec fn begin_post(pre: HolePunch, post: HolePunch, r: PunchAction) -> bool {
    if pre.done() {
        r == (PunchAction::Finished { punched: pre.punched() })
    } else {
        r == PunchAction::SendSyn && post.listening()
    }
}

/// One step of the hole punch, from `pre` to `post`, answering `event` with `r`.
pub open spec fn step_post(pre: HolePunch, event: PunchEvent, post: HolePunch, r: PunchAction) -> bool {
    &&& post.retries() >= pre.retries()
    &&& pre.punched() ==> post.punched()
    &&& post.punched() && !pre.punched() ==> event == (PunchEvent::Received { len: 1, byte: ACK })
    &&& r is Finished ==> post.done()
    &&& match event {
        PunchEvent::Begin => {
            &&& post.retries() == pre.retries()
            &&& post.punched() == pre.punched()
            &&& begin_post(pre, post, r)
        },
        PunchEvent::Received { len, byte } => if pre.listening() && len == 1 && byte == SYN {
            &&& r == PunchAction::SendAck
            &&& post.retries() == pre.retries() + 1
            &&& !post.listening()
        } else if pre.listening() && len == 1 && byte == ACK {
            &&& r == (PunchAction::Finished { punched: true })
            &&& post.punched()
            &&& post.retries() == pre.retries()
        } else {
            &&& r == PunchAction::Listen
            &&& post.retries() == pre.retries()
            &&& post.punched() == pre.punched()
        },
        PunchEvent::WindowElapsed => {
            &&& post.retries() == (if pre.listening() {
                pre.retries() + 1
            } else {
                pre.retries()
            })
            &&& post.punched() == pre.punched()
            &&& post.done() ==> r == (PunchAction::Finished { punched: post.punched() })
            &&& !post.done() ==> r == PunchAction::SendSyn && post.listening()
        },
    }
}

impl HolePunch {
    /// Rounds that ended without an ACK.
    pub closed spec fn retries(&self) -> nat {
        self.retries as nat
    }

    /// An ACK has arrived.
    pub closed spec fn punched(&self) -> bool {
        self.punched
    }

    /// A round is open.
    pub closed spec fn listening(&self) -> bool {
        self.listening
    }

    #[verifier::type_invariant]
    spec fn inv(&self) -> bool {
        &&& self.retries <= MAX_HOLEPUNCH_TRIES
        &&& self.listening ==> !(self.punched || self.retries >= MAX_HOLEPUNCH_TRIES)
    }

    /// The punch is over: acknowledged, or out of rounds.
    pub open spec fn done(&self) -> bool {
        self.punched() || self.retries() >= MAX_HOLEPUNCH_TRIES
    }

    pub fn new() -> (r: HolePunch)
        ensures
            r.retries() == 0,
            !r.punched(),
            !r.listening(),
    {
        HolePunch { retries: 0, punched: false, listening: false }
    }

    /// Whether the peer acknowledged.
    pub fn is_punched(&self) -> (r: bool)
        ensures
            r == self.punched(),
    {
        self.punched
    }

    /// The next action after `event`.
    pub fn step(&mut self, event: PunchEvent) -> (r: PunchAction)
        ensures
            step_post(*old(self), event, *final(self), r),
            final(self).retries() <= MAX_HOLEPUNCH_TRIES,
    {
        proof {
            use_type_invariant(&*self);
        }
        match event {
            PunchEvent::Begin => self.begin_round(),
            PunchEvent::Received { len, byte } => {
                if !self.listening || len != 1 {
                    PunchAction::Listen
                } else if byte == SYN {
                    self.listening = false;
                    self.retries = self.retries + 1;
                    PunchAction::SendAck
                } else if byte == ACK {
                    self.listening = false;
                    self.punched = true;
                    PunchAction::Finished { punched: true }
                } else {
                    PunchAction::Listen
                }
            },
            PunchEvent::WindowElapsed => {
                if self.listening {
                    self.listening = false;
                    self.retries = self.retries + 1;
                }
                self.begin_round()
            },
        }
    }

    fn begin_round(&mut self) -> (r: PunchAction)
        ensures
            final(self).retries() == old(self).retries(),
            final(self).punched() == old(self).punched(),
            begin_post(*old(self), *final(self), r),
    {
        proof {
            use_type_invariant(&*self);
        }
        if self.punched || self.retries >= MAX_HOLEPUNCH_TRIES {
            PunchAction::Finished { punched: self.punched }
        } else {
            self.listening = true;
            PunchAction::SendSyn
        }
    }
}

} // verus!
