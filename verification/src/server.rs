//! The server's peer registry.
//!
//! The server has a fixed number of slots, each with a listening endpoint of
//! its own and at most one connected peer. The registry decides which
//! messages go to whom when a peer arrives or leaves; accepting connections
//! and sending the messages is the caller's part.

use crate::event_notifier::EventNotifier;
use crate::IVSHMEM_PROTOCOL_VERSION;
use vstd::arithmetic::power2::lemma2_to64;
use vstd::arithmetic::power2::lemma_pow2_strictly_increases;
use vstd::arithmetic::power2::lemma_pow2_unfold;
use vstd::arithmetic::power2::pow2;
use vstd::prelude::*;

verus! {

/// One connected participant: its control socket and its doorbells.
#[derive(Debug, PartialEq, Eq)]
pub struct Peer {
    /// Descriptor of the control socket.
    pub socket: i32,
    /// One doorbell per vector, created by the server.
    pub vectors: Vec<EventNotifier>,
}

/// One message that is to be sent over the control socket of the peer in
/// `slot`. A descriptor in it is named, not given away: the server keeps its
/// own handle of every descriptor it sends.
#[derive(Clone, Copy, Debug, PartialEq, Eq)]
pub struct Outgoing {
    pub slot: usize,
    pub peer_id: Option<u16>,
    pub fd: Option<i32>,
}

/// What a readiness report of the polling layer means to the registry.
#[derive(Clone, Copy, Debug, PartialEq, Eq)]
pub enum Event {
    /// The listening endpoint of this free slot has a connection to accept.
    Connection(usize),
    /// The peer of this slot has closed its control socket.
    Disconnect(usize),
    /// The control socket of the peer of this slot stirred but is not closed
    /// both ways: that is no disconnect, and since the server reads nothing
    /// from a peer there is nothing to do.
    StillOpen(usize),
    /// A report that cannot come about while the registry is kept as it
    /// should: a connection to a slot that is taken, or a report on a peer
    /// that is not there.
    Unexpected,
}

/// The requested size of the shared memory has no power of two above it that
/// the machine can count to.
#[derive(Clone, Copy, Debug, PartialEq, Eq)]
pub struct SizeTooLarge;

/// The registry: the shared memory's descriptor, the slots and the settings.
pub struct Server {
    memory: i32,
    peers: Vec<Option<Peer>>,
    pipe: bool,
    vector_count: u16,
    vm_offset: bool,
}

/// The descriptors of one end of each doorbell: the receive ends if
/// `receive`, else the send ends.
pub open spec fn ends(vectors: Seq<EventNotifier>, receive: bool) -> Seq<i32> {
    Seq::new(
        vectors.len(),
        |i: int|
            if receive {
                vectors[i].read_end()
            } else {
                vectors[i].write_end()
            },
    )
}

/// One message per descriptor, in order, each to `slot` and tagged `peer_id`.
pub open spec fn vector_messages(slot: usize, peer_id: u16, fds: Seq<i32>) -> Seq<Outgoing> {
    Seq::new(fds.len(), |i: int| Outgoing { slot, peer_id: Some(peer_id), fd: Some(fds[i]) })
}

/// Whether `p` is the least power of two that is not below `size`.
pub open spec fn is_next_power_of_two(size: int, p: int) -> bool {
    &&& exists|e: nat| p == pow2(e)
    &&& p >= size
    &&& forall|e: nat| #[trigger] pow2(e) >= size ==> p <= pow2(e)
}

/// There is one next power of two at most.
pub proof fn lemma_next_power_of_two_unique(size: int, p: int, q: int)
    requires
        is_next_power_of_two(size, p),
        is_next_power_of_two(size, q),
    ensures
        p == q,
{
    let e = choose|e: nat| p == pow2(e);
    let f = choose|f: nat| q == pow2(f);
    assert(pow2(e) >= size);
    assert(pow2(f) >= size);
}

/// The least power of two that is not below `size`, if the machine can count
/// to it. For zero that is one.
pub fn checked_next_power_of_two(size: usize) -> (r: Option<usize>)
    ensures
        match r {
            Some(p) => is_next_power_of_two(size as int, p as int),
            None => forall|e: nat| #[trigger] pow2(e) >= size ==> pow2(e) > usize::MAX,
        },
{
    let mut p: usize = 1;
    let ghost mut exponent: nat = 0;
    proof {
        lemma2_to64();
    }
    while p < size
        invariant
            p >= 1,
            p == pow2(exponent),
            exponent == 0 || pow2((exponent - 1) as nat) < size,
        decreases usize::MAX - p,
    {
        proof {
            lemma_pow2_unfold(exponent + 1);
        }
        if p > usize::MAX / 2 {
            assert forall|e: nat| #[trigger] pow2(e) >= size implies pow2(e) > usize::MAX by {
                if e < exponent {
                    lemma_pow2_strictly_increases(e, exponent);
                } else if e > exponent + 1 {
                    lemma_pow2_strictly_increases(exponent + 1, e);
                }
            }
            return None;
        }
        p = p * 2;
        proof {
            exponent = exponent + 1;
        }
    }
    assert forall|e: nat| #[trigger] pow2(e) >= size implies p <= pow2(e) by {
        if e < exponent {
            if e < exponent - 1 {
                lemma_pow2_strictly_increases(e, (exponent - 1) as nat);
            }
        } else if e > exponent {
            lemma_pow2_strictly_increases(exponent, e);
        }
    }
    Some(p)
}

/// Decides how to size the shared-memory file, which is `current_len` bytes
/// long, for a requested `size`: the file is to be as long as the next power
/// of two of the request. `None` says that it already is, so that nothing is
/// to be done; otherwise the new length is given.
pub fn ftruncate(current_len: u64, size: usize) -> (r: Result<Option<u64>, SizeTooLarge>)
    ensures
        match r {
            Ok(None) => is_next_power_of_two(size as int, current_len as int),
            Ok(Some(len)) => is_next_power_of_two(size as int, len as int) && len != current_len,
            Err(_) => forall|e: nat| #[trigger] pow2(e) >= size ==> pow2(e) > usize::MAX,
        },
{
    match checked_next_power_of_two(size) {
        Some(target) => {
            let target: u64 = target as u64;
            if current_len == target {
                Ok(None)
            } else {
                Ok(Some(target))
            }
        },
        None => Err(SizeTooLarge),
    }
}

/// The messages of `plan` that go to `slot`, in order.
pub open spec fn sent_to(plan: Seq<Outgoing>, slot: usize) -> Seq<Outgoing> {
    plan.filter(|m: Outgoing| m.slot == slot)
}

/// Appends to `plan` one message per doorbell of `vectors`, each to `slot`
/// and tagged `peer_id`, carrying the receive ends if `receive`, else the send
/// ends.
fn push_vector_messages(
    plan: &mut Vec<Outgoing>,
    slot: usize,
    peer_id: u16,
    vectors: &Vec<EventNotifier>,
    receive: bool,
)
    ensures
        final(plan)@ == old(plan)@ + vector_messages(slot, peer_id, ends(vectors@, receive)),
{
    let ghost all = vector_messages(slot, peer_id, ends(vectors@, receive));
    let mut i: usize = 0;
    assert(plan@ =~= old(plan)@ + all.take(0));
    while i < vectors.len()
        invariant
            i <= vectors.len(),
            all == vector_messages(slot, peer_id, ends(vectors@, receive)),
            plan@ == old(plan)@ + all.take(i as int),
        decreases vectors.len() - i,
    {
        let fd = if receive {
            vectors[i].rfd()
        } else {
            vectors[i].wfd()
        };
        plan.push(Outgoing { slot, peer_id: Some(peer_id), fd: Some(fd) });
        i += 1;
        assert(plan@ =~= old(plan)@ + all.take(i as int));
    }
    assert(all.take(i as int) =~= all);
}

impl Server {
    /// The slots, in order: the connected peer of each, if any.
    pub closed spec fn slots(&self) -> Seq<Option<Peer>> {
        self.peers@
    }

    /// Descriptor of the shared-memory file.
    pub closed spec fn memory_fd(&self) -> i32 {
        self.memory
    }

    /// Whether doorbells are pipes rather than counting objects.
    pub closed spec fn uses_pipe(&self) -> bool {
        self.pipe
    }

    /// Number of vectors of every peer.
    pub closed spec fn vectors_per_peer(&self) -> u16 {
        self.vector_count
    }

    /// Whether ids start at one rather than at zero.
    pub closed spec fn offset(&self) -> bool {
        self.vm_offset
    }

    /// Whether `index` is a slot with a connected peer.
    pub open spec fn connected(&self, index: int) -> bool {
        0 <= index < self.slots().len() && self.slots()[index] is Some
    }

    /// The registry's invariant: the slot count fits the id space, and every
    /// connected peer has the configured number of vectors.
    pub open spec fn wf(&self) -> bool {
        &&& self.slots().len() <= u16::MAX
        &&& forall|k: int| #[trigger]
            self.connected(k) ==> self.slots()[k]->0.vectors@.len() == self.vectors_per_peer()
    }

    /// The id of the peer in slot `index`: the index, plus one if ids are
    /// offset.
    pub open spec fn id_of(&self, index: int) -> u16 {
        (index + if self.offset() {
            1int
        } else {
            0int
        }) as u16
    }

    /// Number of connected peers in the slots below `upto`.
    pub open spec fn connected_below(&self, upto: int) -> nat
        decreases upto,
    {
        if upto <= 0 {
            0
        } else {
            self.connected_below(upto - 1) + if self.connected(upto - 1) {
                1nat
            } else {
                0nat
            }
        }
    }

    /// The slots below `upto` that hold a connected peer, in ascending order.
    pub open spec fn connected_slots(&self, upto: int) -> Seq<usize>
        decreases upto,
    {
        if upto <= 0 {
            Seq::empty()
        } else {
            self.connected_slots(upto - 1) + if self.connected(upto - 1) {
                seq![(upto - 1) as usize]
            } else {
                Seq::empty()
            }
        }
    }

    /// Number of connected peers.
    pub open spec fn connected_count(&self) -> nat {
        self.connected_below(self.slots().len() as int)
    }

    /// The three messages that open a registration: the protocol version,
    /// the newcomer's id, and the shared memory's descriptor.
    pub open spec fn greeting(&self, index: usize) -> Seq<Outgoing> {
        seq![
            (Outgoing { slot: index, peer_id: Some(IVSHMEM_PROTOCOL_VERSION), fd: None }),
            (Outgoing { slot: index, peer_id: Some(self.id_of(index as int)), fd: None }),
            (Outgoing { slot: index, peer_id: None, fd: Some(self.memory_fd()) }),
        ]
    }

    /// The send ends of `vectors`, tagged `id`, to every connected peer in
    /// the slots below `upto`, in slot order.
    pub open spec fn announcements(&self, upto: int, id: u16, vectors: Seq<EventNotifier>) -> Seq<
        Outgoing,
    >
        decreases upto,
    {
        if upto <= 0 {
            Seq::empty()
        } else {
            self.announcements(upto - 1, id, vectors) + if self.connected(upto - 1) {
                vector_messages((upto - 1) as usize, id, ends(vectors, false))
            } else {
                Seq::empty()
            }
        }
    }

    /// The send ends of every connected peer in the slots below `upto`, in
    /// slot order, each tagged with that peer's id, to the peer in `slot`.
    pub open spec fn introductions(&self, upto: int, slot: usize) -> Seq<Outgoing>
        decreases upto,
    {
        if upto <= 0 {
            Seq::empty()
        } else {
            self.introductions(upto - 1, slot) + if self.connected(upto - 1) {
                vector_messages(
                    slot,
                    self.id_of(upto - 1),
                    ends(self.slots()[upto - 1]->0.vectors@, false),
                )
            } else {
                Seq::empty()
            }
        }
    }

    /// Everything that is sent when a peer with `vectors` registers in slot
    /// `index`, in the order of sending.
    pub open spec fn registration(&self, index: usize, vectors: Seq<EventNotifier>) -> Seq<
        Outgoing,
    > {
        let n = self.slots().len() as int;
        let id = self.id_of(index as int);
        self.greeting(index) + self.announcements(n, id, vectors) + self.introductions(n, index)
            + vector_messages(index, id, ends(vectors, true))
    }

    /// The notice that the peer with `id` has left, to every connected peer
    /// in the slots below `upto`, in slot order.
    pub open spec fn deletions(&self, upto: int, id: u16) -> Seq<Outgoing>
        decreases upto,
    {
        if upto <= 0 {
            Seq::empty()
        } else {
            self.deletions(upto - 1, id) + if self.connected(upto - 1) {
                seq![(Outgoing { slot: (upto - 1) as usize, peer_id: Some(id), fd: None })]
            } else {
                Seq::empty()
            }
        }
    }

    /// What a readiness report under `token` means. Tokens below the slot
    /// count are the listening endpoints; the control socket of the peer in
    /// a slot has the slot's index plus the slot count.
    pub open spec fn meaning(&self, token: usize, read_closed: bool, write_closed: bool) -> Event {
        let n = self.slots().len();
        if token < n {
            if self.connected(token as int) {
                Event::Unexpected
            } else {
                Event::Connection(token)
            }
        } else if self.connected(token - n) {
            if read_closed && write_closed {
                Event::Disconnect((token - n) as usize)
            } else {
                Event::StillOpen((token - n) as usize)
            }
        } else {
            Event::Unexpected
        }
    }

    /// A registry of `vm_count` slots, all of them listening and none
    /// connected. `memory` is the descriptor of the shared-memory file, which
    /// the server owns for as long as it runs.
    pub fn new(memory: i32, pipe: bool, vector_count: u16, vm_count: u16, vm_offset: bool) -> (server:
        Server)
        ensures
            server.wf(),
            server.slots() == Seq::new(vm_count as nat, |k: int| None::<Peer>),
            server.memory_fd() == memory,
            server.uses_pipe() == pipe,
            server.vectors_per_peer() == vector_count,
            server.offset() == vm_offset,
    {
        let mut peers: Vec<Option<Peer>> = Vec::new();
        let mut index: u16 = 0;
        while index < vm_count
            invariant
                index <= vm_count,
                peers@ == Seq::new(index as nat, |k: int| None::<Peer>),
            decreases vm_count - index,
        {
            peers.push(None);
            index += 1;
            assert(peers@ =~= Seq::new(index as nat, |k: int| None::<Peer>));
        }
        Server { memory, peers, pipe, vector_count, vm_offset }
    }

    /// Number of slots, which is the number of listening endpoints.
    pub fn slot_count(&self) -> (n: usize)
        ensures
            n == self.slots().len(),
    {
        self.peers.len()
    }

    /// Descriptor of the shared-memory file.
    pub fn memory(&self) -> (fd: i32)
        ensures
            fd == self.memory_fd(),
    {
        self.memory
    }

    /// Whether new doorbells are to be pipes rather than counting objects.
    pub fn pipe(&self) -> (pipe: bool)
        ensures
            pipe == self.uses_pipe(),
    {
        self.pipe
    }

    /// Number of doorbells to create for a new peer.
    pub fn vector_count(&self) -> (n: u16)
        ensures
            n == self.vectors_per_peer(),
    {
        self.vector_count
    }

    /// The connected peer of slot `index`, if there is one.
    pub fn peer(&self, index: usize) -> (peer: Option<&Peer>)
        ensures
            peer is Some == self.connected(index as int),
            peer is Some ==> *peer->0 == self.slots()[index as int]->0,
    {
        if index < self.peers.len() {
            self.peers[index].as_ref()
        } else {
            None
        }
    }

    /// The slots that hold a connected peer, in ascending order.
    pub fn peers(&self) -> (slots: Vec<usize>)
        ensures
            slots@ == self.connected_slots(self.slots().len() as int),
    {
        let mut slots: Vec<usize> = Vec::new();
        let mut index: usize = 0;
        while index < self.peers.len()
            invariant
                index <= self.peers.len(),
                slots@ == self.connected_slots(index as int),
            decreases self.peers.len() - index,
        {
            if self.peers[index].is_some() {
                slots.push(index);
            }
            index += 1;
            assert(slots@ =~= self.connected_slots(index as int));
        }
        slots
    }

    /// The id of the peer in slot `index`.
    pub fn id(&self, index: usize) -> (id: u16)
        requires
            self.wf(),
            index < self.slots().len(),
        ensures
            id == self.id_of(index as int),
            id == index + if self.offset() {
                1int
            } else {
                0int
            },
    {
        let base: u16 = index as u16;
        if self.vm_offset {
            base + 1
        } else {
            base
        }
    }
    /// The token under which the control socket of the peer in slot `index`
    /// is watched. The listening endpoint of a slot is watched under the
    /// slot's index itself.
    pub fn peer_token(&self, index: usize) -> (token: usize)
        requires
            self.wf(),
            index < self.slots().len(),
        ensures
            token == index + self.slots().len(),
    {
        index + self.peers.len()
    }

    /// Says what a readiness report means.
    ///
    /// A report on a listening endpoint whose slot is free is a connection
    /// to accept. A report on a connected peer's control socket is a
    /// disconnect if, and only if, the socket is closed for reading and for
    /// writing at once; any other report on it changes nothing, so that a
    /// peer that misbehaves does not disturb the others. Everything else
    /// cannot come about while the registry is kept as it should.
    pub fn poll_events(&self, token: usize, read_closed: bool, write_closed: bool) -> (event: Event)
        requires
            self.wf(),
        ensures
            event == self.meaning(token, read_closed, write_closed),
    {
        let n = self.peers.len();
        if token < n {
            if self.peers[token].is_none() {
                Event::Connection(token)
            } else {
                Event::Unexpected
            }
        } else if token - n < n && self.peers[token - n].is_some() {
            if read_closed && write_closed {
                Event::Disconnect(token - n)
            } else {
                Event::StillOpen(token - n)
            }
        } else {
            Event::Unexpected
        }
    }

    /// Plans the registration of a newcomer in the free slot `index`.
    ///
    /// `peer` holds the accepted connection and one fresh doorbell per
    /// configured vector. The messages are to be sent in the order given,
    /// and the first failure abandons the registration: first the protocol
    /// version, the newcomer's id and the shared memory's descriptor; then the
    /// newcomer's send ends to every connected peer; then every connected
    /// peer's send ends to the newcomer, in slot order; last the newcomer's
    /// own receive ends. The registry itself is unchanged until `register`.
    pub fn handle_new_conn(&self, index: usize, peer: &Peer) -> (plan: Vec<Outgoing>)
        requires
            self.wf(),
            index < self.slots().len(),
            !self.connected(index as int),
            peer.vectors@.len() == self.vectors_per_peer(),
        ensures
            plan@ == self.registration(index, peer.vectors@),
    {
        let id = self.id(index);
        let n = self.peers.len();
        let mut plan: Vec<Outgoing> = Vec::new();
        plan.push(Outgoing { slot: index, peer_id: Some(IVSHMEM_PROTOCOL_VERSION), fd: None });
        plan.push(Outgoing { slot: index, peer_id: Some(id), fd: None });
        plan.push(Outgoing { slot: index, peer_id: None, fd: Some(self.memory) });
        assert(plan@ =~= self.greeting(index) + self.announcements(0, id, peer.vectors@));

        let mut other: usize = 0;
        while other < n
            invariant
                other <= n,
                n == self.slots().len(),
                plan@ == self.greeting(index) + self.announcements(
                    other as int,
                    id,
                    peer.vectors@,
                ),
            decreases n - other,
        {
            if self.peers[other].is_some() {
                push_vector_messages(&mut plan, other, id, &peer.vectors, false);
            }
            other += 1;
            assert(plan@ =~= self.greeting(index) + self.announcements(
                other as int,
                id,
                peer.vectors@,
            ));
        }

        let ghost sent = plan@;
        let mut other: usize = 0;
        assert(plan@ =~= sent + self.introductions(0, index));
        while other < n
            invariant
                other <= n,
                n == self.slots().len(),
                self.wf(),
                plan@ == sent + self.introductions(other as int, index),
            decreases n - other,
        {
            match &self.peers[other] {
                Some(existing) => {
                    let other_id = self.id(other);
                    push_vector_messages(&mut plan, index, other_id, &existing.vectors, false);
                },
                None => {},
            }
            other += 1;
            assert(plan@ =~= sent + self.introductions(other as int, index));
        }

        push_vector_messages(&mut plan, index, id, &peer.vectors, true);
        plan
    }

    /// Marks slot `index` connected, once the whole registration plan is
    /// sent and the newcomer's control socket is being watched. The registry
    /// takes the peer over.
    pub fn register(&mut self, index: usize, peer: Peer)
        requires
            old(self).wf(),
            index < old(self).slots().len(),
            !old(self).connected(index as int),
            peer.vectors@.len() == old(self).vectors_per_peer(),
        ensures
            final(self).wf(),
            final(self).slots() == old(self).slots().update(index as int, Some(peer)),
            final(self).slots().len() == old(self).slots().len(),
            final(self).memory_fd() == old(self).memory_fd(),
            final(self).uses_pipe() == old(self).uses_pipe(),
            final(self).vectors_per_peer() == old(self).vectors_per_peer(),
            final(self).offset() == old(self).offset(),
    {
        self.peers[index] = Some(peer);
        assert forall|k: int| #[trigger] self.connected(k) implies self.slots()[k]->0.vectors@.len()
            == self.vectors_per_peer() by {
            if k != index {
                assert(old(self).connected(k));
            }
        }
    }

    /// Removes the peer of slot `index`, whose disconnect was detected, and
    /// plans the notices of its leaving: one to every peer that remains, in
    /// slot order. The departed peer is handed back, and with it its control
    /// socket and doorbells, for the caller to stop watching and to release.
    /// The slot is free again at once. A notice that cannot be sent does not
    /// bring the peer back.
    pub fn handle_disconnect(&mut self, index: usize) -> (r: (Peer, Vec<Outgoing>))
        requires
            old(self).wf(),
            old(self).connected(index as int),
        ensures
            final(self).wf(),
            final(self).slots() == old(self).slots().update(index as int, None),
            final(self).slots().len() == old(self).slots().len(),
            final(self).memory_fd() == old(self).memory_fd(),
            final(self).uses_pipe() == old(self).uses_pipe(),
            final(self).vectors_per_peer() == old(self).vectors_per_peer(),
            final(self).offset() == old(self).offset(),
            r.0 == old(self).slots()[index as int]->0,
            r.1@ == final(self).deletions(
                final(self).slots().len() as int,
                old(self).id_of(index as int),
            ),
            forall|slot: usize|
                #[trigger] sent_to(r.1@, slot) == if slot != index && old(self).connected(
                    slot as int,
                ) {
                    seq![(Outgoing { slot, peer_id: Some(old(self).id_of(index as int)), fd: None })]
                } else {
                    Seq::empty()
                },
    {
        let id = self.id(index);
        let departed = self.peers[index].take().unwrap();
        assert(self.slots() =~= old(self).slots().update(index as int, None));
        assert forall|k: int| #[trigger] self.connected(k) implies self.slots()[k]->0.vectors@.len()
            == self.vectors_per_peer() by {
            assert(old(self).connected(k));
        }
        let n = self.peers.len();
        let mut plan: Vec<Outgoing> = Vec::new();
        let mut other: usize = 0;
        while other < n
            invariant
                other <= n,
                n == self.slots().len(),
                plan@ == self.deletions(other as int, id),
            decreases n - other,
        {
            if self.peers[other].is_some() {
                plan.push(Outgoing { slot: other, peer_id: Some(id), fd: None });
            }
            other += 1;
            assert(plan@ =~= self.deletions(other as int, id));
        }
        proof {
            assert forall|slot: usize|
                #[trigger] sent_to(plan@, slot) == if slot != index && old(self).connected(
                    slot as int,
                ) {
                    seq![(Outgoing { slot, peer_id: Some(id), fd: None })]
                } else {
                    Seq::empty()
                } by {
                Self::lemma_departure_delivery(old(self), self, index, slot);
            }
        }
        (departed, plan)
    }
}

/// The messages to a slot out of two plans sent one after the other are
/// those of the first followed by those of the second.
pub proof fn lemma_sent_to_add(a: Seq<Outgoing>, b: Seq<Outgoing>, slot: usize)
    ensures
        sent_to(a + b, slot) == sent_to(a, slot) + sent_to(b, slot),
{
    Seq::filter_distributes_over_add(a, b, |m: Outgoing| m.slot == slot);
}

/// Of a plan whose messages all go to one slot, that slot gets all and every
/// other slot none.
pub proof fn lemma_sent_to_single(plan: Seq<Outgoing>, target: usize, slot: usize)
    requires
        forall|i: int| 0 <= i < plan.len() ==> (#[trigger] plan[i]).slot == target,
    ensures
        sent_to(plan, slot) == if slot == target {
            plan
        } else {
            Seq::empty()
        },
    decreases plan.len(),
{
    reveal(Seq::filter);
    if plan.len() > 0 {
        lemma_sent_to_single(plan.drop_last(), target, slot);
        assert(plan.last() == plan[plan.len() - 1]);
        if slot == target {
            assert(plan.drop_last().push(plan.last()) =~= plan);
        }
    } else {
        assert(sent_to(plan, slot) =~= plan);
    }
}

impl Server {
    /// Of the newcomer's vectors announced to the connected peers in the
    /// slots below `upto`, each such peer gets one message per vector and
    /// nobody else gets any.
    pub proof fn lemma_announcements_sent_to(
        &self,
        upto: int,
        id: u16,
        vectors: Seq<EventNotifier>,
        slot: usize,
    )
        requires
            self.wf(),
            upto <= self.slots().len(),
        ensures
            sent_to(self.announcements(upto, id, vectors), slot) == if slot < upto
                && self.connected(slot as int) {
                vector_messages(slot, id, ends(vectors, false))
            } else {
                Seq::empty()
            },
        decreases upto,
    {
        if upto <= 0 {
            lemma_sent_to_single(Seq::empty(), slot, slot);
        } else {
            self.lemma_announcements_sent_to(upto - 1, id, vectors, slot);
            let target = (upto - 1) as usize;
            let step = if self.connected(upto - 1) {
                vector_messages(target, id, ends(vectors, false))
            } else {
                Seq::empty()
            };
            lemma_sent_to_add(self.announcements(upto - 1, id, vectors), step, slot);
            lemma_sent_to_single(step, target, slot);
            assert(sent_to(self.announcements(upto - 1, id, vectors), slot) + sent_to(step, slot)
                =~= if slot < upto && self.connected(slot as int) {
                vector_messages(slot, id, ends(vectors, false))
            } else {
                Seq::empty()
            });
        }
    }

    /// The introductions of the connected peers in the slots below `upto` to
    /// the peer in `target` all go to that peer, and they are one message
    /// per vector and connected peer.
    pub proof fn lemma_introductions_sent_to(&self, upto: int, target: usize, slot: usize)
        requires
            self.wf(),
            upto <= self.slots().len(),
        ensures
            sent_to(self.introductions(upto, target), slot) == if slot == target {
                self.introductions(upto, target)
            } else {
                Seq::empty()
            },
            self.introductions(upto, target).len() == self.connected_below(upto)
                * self.vectors_per_peer(),
        decreases upto,
    {
        if upto <= 0 {
            lemma_sent_to_single(Seq::empty(), target, slot);
            assert(0 * self.vectors_per_peer() == 0);
        } else {
            self.lemma_introductions_sent_to(upto - 1, target, slot);
            let before = self.introductions(upto - 1, target);
            let step = if self.connected(upto - 1) {
                vector_messages(
                    target,
                    self.id_of(upto - 1),
                    ends(self.slots()[upto - 1]->0.vectors@, false),
                )
            } else {
                Seq::empty()
            };
            lemma_sent_to_add(before, step, slot);
            lemma_sent_to_single(step, target, slot);
            let c = self.connected_below(upto - 1) as int;
            let v = self.vectors_per_peer() as int;
            assert((c + 1) * v == c * v + v) by (nonlinear_arith);
            assert(self.introductions(upto, target).len() == before.len() + step.len());
            assert(sent_to(before, slot) + sent_to(step, slot) =~= if slot == target {
                self.introductions(upto, target)
            } else {
                Seq::empty()
            });
        }
    }

    /// Of the notices of a departure to the connected peers in the slots
    /// below `upto`, each such peer gets exactly one and nobody else any.
    pub proof fn lemma_deletions_sent_to(&self, upto: int, id: u16, slot: usize)
        requires
            self.wf(),
            upto <= self.slots().len(),
        ensures
            sent_to(self.deletions(upto, id), slot) == if slot < upto && self.connected(
                slot as int,
            ) {
                seq![(Outgoing { slot, peer_id: Some(id), fd: None })]
            } else {
                Seq::empty()
            },
        decreases upto,
    {
        if upto <= 0 {
            lemma_sent_to_single(Seq::empty(), slot, slot);
        } else {
            self.lemma_deletions_sent_to(upto - 1, id, slot);
            let target = (upto - 1) as usize;
            let step = if self.connected(upto - 1) {
                seq![(Outgoing { slot: target, peer_id: Some(id), fd: None })]
            } else {
                Seq::empty()
            };
            lemma_sent_to_add(self.deletions(upto - 1, id), step, slot);
            lemma_sent_to_single(step, target, slot);
            assert(sent_to(self.deletions(upto - 1, id), slot) + sent_to(step, slot) =~= if slot
                < upto && self.connected(slot as int) {
                seq![(Outgoing { slot, peer_id: Some(id), fd: None })]
            } else {
                Seq::empty()
            });
        }
    }

    /// When the peer of slot `index` leaves, every peer that remains is sent
    /// exactly one notice of it, nobody else is sent anything, and the slot is
    /// free for a new connection.
    pub proof fn lemma_departure_delivery(before: &Server, after: &Server, index: usize, slot: usize)
        requires
            before.wf(),
            before.connected(index as int),
            after.wf(),
            after.slots() == before.slots().update(index as int, None),
        ensures
            sent_to(
                after.deletions(after.slots().len() as int, before.id_of(index as int)),
                slot,
            ) == if slot != index && before.connected(slot as int) {
                seq![(Outgoing { slot, peer_id: Some(before.id_of(index as int)), fd: None })]
            } else {
                Seq::empty()
            },
            !after.connected(index as int),
    {
        after.lemma_deletions_sent_to(
            after.slots().len() as int,
            before.id_of(index as int),
            slot,
        );
    }

    /// What each party receives when a peer with `vectors` registers in the
    /// free slot `index`.
    ///
    /// The newcomer receives the version, its id and the shared memory's
    /// descriptor, then one introduction per vector of every connected peer,
    /// then its own vectors: three messages, plus the vector count times the
    /// number of connected peers, plus the vector count. Every connected peer
    /// receives the newcomer's vectors, one message each, and nothing else.
    /// A slot that is free receives nothing.
    pub proof fn lemma_registration_delivery(
        &self,
        index: usize,
        vectors: Seq<EventNotifier>,
        slot: usize,
    )
        requires
            self.wf(),
            index < self.slots().len(),
            !self.connected(index as int),
            vectors.len() == self.vectors_per_peer(),
        ensures
            sent_to(self.registration(index, vectors), index) == self.greeting(index)
                + self.introductions(self.slots().len() as int, index) + vector_messages(
                index,
                self.id_of(index as int),
                ends(vectors, true),
            ),
            sent_to(self.registration(index, vectors), index).len() == 3 + self.connected_count()
                * self.vectors_per_peer() + self.vectors_per_peer(),
            slot != index && self.connected(slot as int) ==> sent_to(
                self.registration(index, vectors),
                slot,
            ) == vector_messages(slot, self.id_of(index as int), ends(vectors, false)) && sent_to(
                self.registration(index, vectors),
                slot,
            ).len() == self.vectors_per_peer(),
            slot != index && !self.connected(slot as int) ==> sent_to(
                self.registration(index, vectors),
                slot,
            ) == Seq::<Outgoing>::empty(),
    {
        let n = self.slots().len() as int;
        let id = self.id_of(index as int);
        let greeting = self.greeting(index);
        let announced = self.announcements(n, id, vectors);
        let introduced = self.introductions(n, index);
        let own = vector_messages(index, id, ends(vectors, true));
        self.lemma_registration_split(index, vectors, index);
        self.lemma_registration_split(index, vectors, slot);
        lemma_sent_to_single(greeting, index, index);
        lemma_sent_to_single(greeting, index, slot);
        self.lemma_announcements_sent_to(n, id, vectors, index);
        self.lemma_announcements_sent_to(n, id, vectors, slot);
        self.lemma_introductions_sent_to(n, index, index);
        self.lemma_introductions_sent_to(n, index, slot);
        lemma_sent_to_single(own, index, index);
        lemma_sent_to_single(own, index, slot);
        assert(greeting + Seq::<Outgoing>::empty() + introduced + own =~= greeting + introduced
            + own);
        if slot != index {
            let to_slot = sent_to(announced, slot);
            assert(Seq::<Outgoing>::empty() + to_slot + Seq::<Outgoing>::empty() + Seq::<
                Outgoing,
            >::empty() =~= to_slot);
        }
    }

    /// The messages of a registration that go to `slot` are those of its
    /// four parts, in order.
    proof fn lemma_registration_split(&self, index: usize, vectors: Seq<EventNotifier>, slot: usize)
        ensures
            sent_to(self.registration(index, vectors), slot) == sent_to(self.greeting(index), slot)
                + sent_to(
                self.announcements(self.slots().len() as int, self.id_of(index as int), vectors),
                slot,
            ) + sent_to(self.introductions(self.slots().len() as int, index), slot) + sent_to(
                vector_messages(index, self.id_of(index as int), ends(vectors, true)),
                slot,
            ),
    {
        let n = self.slots().len() as int;
        let id = self.id_of(index as int);
        let greeting = self.greeting(index);
        let announced = self.announcements(n, id, vectors);
        let introduced = self.introductions(n, index);
        let own = vector_messages(index, id, ends(vectors, true));
        lemma_sent_to_add(greeting, announced, slot);
        lemma_sent_to_add(greeting + announced, introduced, slot);
        lemma_sent_to_add(greeting + announced + introduced, own, slot);
    }
}

} // verus!
