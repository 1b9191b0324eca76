//! The rendezvous coordinator: pairs a waiting sender with a connecting
//! receiver by a short code and hands each the other's external address.
use std::collections::HashMap;
use vstd::prelude::*;

verus! {

broadcast use vstd::std_specs::hash::group_hash_axioms;

/// Number of characters in a pairing code.
pub const CODE_LEN: usize = 8;
/// Number of characters a code is drawn from: `A-Z`, `a-z`, `0-9`.
pub const CODE_ALPHABET_LEN: usize = 62;
/// Seconds after which an announced sender that nobody joined is dropped.
pub const MAX_CONNECTION_AGE: u64 = 60;
/// Default bound on the number of senders waiting at once.
pub const MAX_CONCURRENT_CONNECTIONS: usize = 1000;
/// Seconds to wait before closing a connection on purpose, so that the last
/// packets arrive.
pub const CONN_CLOSE_DELAY: u64 = 3;
/// Version of the rendezvous protocol; client and server must agree on it.
pub const ROUNDEZVOUS_PROTO_VERSION: u32 = 1;

/// An externally observed socket address.
#[derive(Debug, Clone, Copy, PartialEq, Eq, Structural)]
#[allow(inconsistent_fields)]
pub enum PeerAddr {
    V4 { ip: u32, port: u16 },
    V6 { ip: u128, port: u16 },
}

/// Packets sent to the rendezvous server.
#[derive(Debug, PartialEq, Eq)]
pub enum RoundezvousToServer {
    /// A sender waits for a receiver
    Announce { version: u32, socket_addr: PeerAddr },
    /// A receiver joins the sender with this code
    Connect { version: u32, socket_addr: PeerAddr, code: [u8; 8] },
}

/// Packets sent by the rendezvous server.
#[derive(Debug, PartialEq, Eq)]
pub enum RoundezvousFromServer {
    /// The code under which the sender waits
    Code { code: [u8; 8] },
    /// The other peer's external address
    SocketAddr { socket_addr: PeerAddr },
    /// The protocol version the server speaks
    WrongVersion { expected: u32 },
}

/// The character at position `i` of the code alphabet.
pub open spec fn code_char_spec(i: int) -> u8 {
    if i < 26 {
        (65 + i) as u8
    } else if i < 52 {
        (97 + i - 26) as u8
    } else {
        (48 + i - 52) as u8
    }
}

/// `c` is a letter or a digit.
pub open spec fn is_code_char(c: u8) -> bool {
    (65 <= c <= 90) || (97 <= c <= 122) || (48 <= c <= 57)
}

/// The character at position `i` of `A-Z`, `a-z`, `0-9`.
pub fn code_char(i: usize) -> (r: u8)
    requires
        i < CODE_ALPHABET_LEN,
    ensures
        r == code_char_spec(i as int),
        is_code_char(r),
{
    if i < 26 {
        65 + i as u8
    } else if i < 52 {
        97 + (i - 26) as u8
    } else {
        48 + (i - 52) as u8
    }
}

/// Relies on `rand::random`: a value drawn from the thread-local generator.
/// Nothing is promised of the value.
pub assume_specification<T>[ rand::random::<T> ]() -> (r: T)
    where
        rand::distributions::Standard: rand::distributions::Distribution<T>,
;

/// The code character that a random draw picks: the draw modulo the size of
/// the alphabet.
pub fn code_char_of_draw(draw: usize) -> (r: u8)
    ensures
        r == code_char_spec((draw % CODE_ALPHABET_LEN) as int),
        is_code_char(r),
{
    code_char(draw % CODE_ALPHABET_LEN)
}

fn random_code_char() -> (r: u8)
    ensures
        is_code_char(r),
{
    let draw: usize = rand::random::<usize>();
    code_char_of_draw(draw)
}

/// Generate a random session code of letters and digits.
pub fn generate_code() -> (r: [u8; 8])
    ensures
        forall|i: int| 0 <= i < CODE_LEN ==> is_code_char(#[trigger] r@[i]),
{
    let c0 = random_code_char();
    let c1 = random_code_char();
    let c2 = random_code_char();
    let c3 = random_code_char();
    let c4 = random_code_char();
    let c5 = random_code_char();
    let c6 = random_code_char();
    let c7 = random_code_char();
    let r = [c0, c1, c2, c3, c4, c5, c6, c7];
    assert(r@ =~= seq![c0, c1, c2, c3, c4, c5, c6, c7]);
    r
}

/// The code read as a big-endian number over its first `n` bytes.
pub open spec fn code_value(s: Seq<u8>, n: int) -> nat
    decreases n,
{
    if 0 < n <= s.len() {
        (code_value(s, n - 1) * 256 + s[n - 1]) as nat
    } else {
        0
    }
}

pub open spec fn pow256(n: nat) -> nat
    decreases n,
{
    if n == 0 {
        1
    } else {
        256 * pow256((n - 1) as nat)
    }
}

/// The key under which a code is registered: its eight bytes, big-endian.
pub fn code_key(code: &[u8; 8]) -> (r: u64)
    ensures
        r == code_value(code@, 8),
{
    let mut key: u64 = 0;
    let mut i: usize = 0;
    proof {
        reveal_with_fuel(pow256, 9);
        assert(pow256(8) == 0x1_0000_0000_0000_0000nat);
    }
    while i < CODE_LEN
        invariant
            i <= CODE_LEN,
            code@.len() == CODE_LEN,
            key == code_value(code@, i as int),
            key < pow256(i as nat),
            pow256(8) == 0x1_0000_0000_0000_0000nat,
        decreases CODE_LEN - i,
    {
        proof {
            lemma_pow256_mono(i as nat + 1, 8);
            let k = key as int;
            let p = pow256(i as nat) as int;
            let b = code@[i as int] as int;
            assert(k * 256 + b < p * 256) by (nonlinear_arith)
                requires
                    k < p,
                    0 <= b < 256,
            ;
        }
        key = key * 256 + code[i] as u64;
        i += 1;
    }
    key
}

proof fn lemma_pow256_mono(a: nat, b: nat)
    requires
        a <= b,
    ensures
        pow256(a) <= pow256(b),
    decreases b - a,
{
    if a < b {
        lemma_pow256_mono(a, (b - 1) as nat);
    }
}

/// A sender waiting for its receiver.
#[derive(Debug, Clone, Copy, PartialEq, Eq, Structural)]
pub struct Waiter {
    /// The sender's external address
    pub addr: PeerAddr,
    /// Number of the sender's connection, for the log
    pub conn_id: u64,
}

/// What became of an announcement.
#[derive(Debug, Clone, Copy, PartialEq, Eq, Structural)]
pub enum AnnounceOutcome {
    /// As many senders wait as the server admits: drop the connection
    /// without a reply
    Full,
    /// Another sender waits under this code: draw a new one
    CodeTaken,
    /// The sender waits under the code
    Admitted { conn_id: u64 },
}

/// The addresses to hand out once a receiver joins a waiting sender.
#[derive(Debug, Clone, Copy, PartialEq, Eq, Structural)]
pub struct Exchange {
    /// Sent to the waiting sender: the receiver's address
    pub to_waiter: PeerAddr,
    /// Sent to the receiver: the sender's address
    pub to_connector: PeerAddr,
    /// Number of the waiting sender's connection
    pub waiter_conn_id: u64,
}

/// Why the rendezvous fails.
#[derive(Debug, Clone, Copy, PartialEq, Eq, Structural)]
pub enum RendezvousError {
    /// No sender waits under this code
    InvalidCode,
    /// The client speaks another protocol version
    WrongVersion { expected: u32, got: u32 },
}

/// The senders waiting for a receiver, by code.
pub struct Registry {
    awaiting: HashMap<u64, Waiter>,
    max_concurrent_connections: usize,
    counter: u64,
}

impl View for Registry {
    type V = Map<u64, Waiter>;

    closed spec fn view(&self) -> Map<u64, Waiter> {
        self.awaiting@
    }
}

impl Registry {
    /// Bound on the number of waiting senders.
    pub closed spec fn limit(&self) -> nat {
        self.max_concurrent_connections as nat
    }

    /// Number that the next admitted connection gets.
    pub closed spec fn next_id(&self) -> u64 {
        self.counter
    }

    /// Never more senders wait than the bound admits.
    pub open spec fn wf(&self) -> bool {
        self@.len() <= self.limit()
    }

    /// An empty registry that admits up to `max_concurrent_connections` senders.
    pub fn new(max_concurrent_connections: usize) -> (r: Registry)
        ensures
            r@ == Map::<u64, Waiter>::empty(),
            r.limit() == max_concurrent_connections,
            r.next_id() == 0,
            r.wf(),
    {
        Registry { awaiting: HashMap::new(), max_concurrent_connections, counter: 0 }
    }

    /// Number of waiting senders; never more than the bound.
    pub fn len(&self) -> (r: usize)
        requires
            self.wf(),
        ensures
            r == self@.len(),
            r <= self.limit(),
    {
        self.awaiting.len()
    }

    /// Whether one more sender may wait.
    pub fn admits(&self) -> (r: bool)
        ensures
            r == (self@.len() < self.limit()),
    {
        self.awaiting.len() < self.max_concurrent_connections
    }

    /// A sender announces itself under `code`.
    pub fn announce(&mut self, code: u64, addr: PeerAddr) -> (r: AnnounceOutcome)
        requires
            old(self).wf(),
        ensures
            final(self).wf(),
            final(self).limit() == old(self).limit(),
            old(self)@.len() >= old(self).limit() ==> r == AnnounceOutcome::Full && final(self)@
                == old(self)@ && final(self).next_id() == old(self).next_id(),
            old(self)@.len() < old(self).limit() && old(self)@.contains_key(code) ==> r
                == AnnounceOutcome::CodeTaken && final(self)@ == old(self)@ && final(self).next_id()
                == old(self).next_id(),
            old(self)@.len() < old(self).limit() && !old(self)@.contains_key(code) ==> {
                &&& r == AnnounceOutcome::Admitted { conn_id: old(self).next_id() }
                &&& final(self)@ == old(self)@.insert(
                    code,
                    Waiter { addr, conn_id: old(self).next_id() },
                )
                &&& final(self).next_id() == old(self).next_id().wrapping_add(1)
            },
    {
        if self.awaiting.len() >= self.max_concurrent_connections {
            return AnnounceOutcome::Full;
        }
        if self.awaiting.contains_key(&code) {
            return AnnounceOutcome::CodeTaken;
        }
        let conn_id = self.counter;
        self.counter = self.counter.wrapping_add(1);
        self.awaiting.insert(code, Waiter { addr, conn_id });
        AnnounceOutcome::Admitted { conn_id }
    }

    /// Removes and returns the sender waiting under `code`, if any.
    pub fn take(&mut self, code: u64) -> (r: Option<Waiter>)
        requires
            old(self).wf(),
        ensures
            final(self).wf(),
            final(self).limit() == old(self).limit(),
            final(self).next_id() == old(self).next_id(),
            final(self)@ == old(self)@.remove(code),
            match r {
                Some(w) => old(self)@.contains_key(code) && w == old(self)@[code],
                None => !old(self)@.contains_key(code),
            },
    {
        self.awaiting.remove(&code)
    }

    /// A receiver joins the sender waiting under `code`: both learn the
    /// other's address and the code is used up.
    pub fn pair(&mut self, code: u64, connector: PeerAddr) -> (r: Result<Exchange, RendezvousError>)
        requires
            old(self).wf(),
        ensures
            final(self).wf(),
            final(self).limit() == old(self).limit(),
            final(self).next_id() == old(self).next_id(),
            final(self)@ == old(self)@.remove(code),
            old(self)@.contains_key(code) ==> r == Ok::<Exchange, RendezvousError>(
                Exchange {
                    to_waiter: connector,
                    to_connector: old(self)@[code].addr,
                    waiter_conn_id: old(self)@[code].conn_id,
                },
            ),
            !old(self)@.contains_key(code) ==> r == Err::<Exchange, RendezvousError>(
                RendezvousError::InvalidCode,
            ),
    {
        match self.take(code) {
            Some(w) => Ok(
                Exchange { to_waiter: connector, to_connector: w.addr, waiter_conn_id: w.conn_id },
            ),
            None => Err(RendezvousError::InvalidCode),
        }
    }
}

/// The server accepts only its own protocol version.
pub fn validate_version(proto_version: u32) -> (r: Result<(), RendezvousError>)
    ensures
        proto_version == ROUNDEZVOUS_PROTO_VERSION ==> r is Ok,
        proto_version != ROUNDEZVOUS_PROTO_VERSION ==> r == Err::<(), RendezvousError>(
            RendezvousError::WrongVersion { expected: ROUNDEZVOUS_PROTO_VERSION, got: proto_version },
        ),
{
    if proto_version != ROUNDEZVOUS_PROTO_VERSION {
        Err(RendezvousError::WrongVersion { expected: ROUNDEZVOUS_PROTO_VERSION, got: proto_version })
    } else {
        Ok(())
    }
}

/// Once a waiting sender has been dropped, for pairing or for age, its code
/// pairs nobody.
pub proof fn lemma_removed_code_is_invalid(m: Map<u64, Waiter>, code: u64)
    ensures
        !m.remove(code).contains_key(code),
{
}

} // verus!
