//! The client's mirror of the peers.
//!
//! A client learns of the other peers, and of its own doorbells, from the
//! messages that the server sends over the control socket. This module holds
//! what it has learnt and decides what each message, readiness report and
//! operator command leads to; receiving, reading and writing is the caller's
//! part.

use crate::command::command_of;
use crate::command::lemma_all_is_no_number;
use crate::command::lemma_interrupt_line;
use crate::command::parse_command;
use crate::command::word_all;
use crate::command::word_int;
use crate::command::Command;
use crate::command::Target;
use crate::event_notifier::le_u64;
use crate::event_notifier::u64_from_le_bytes;
use crate::text::is_number;
use crate::text::lemma_unsigned_of_number;
use crate::text::number_value;
use crate::text::unsigned_of;
use crate::IVSHMEM_PROTOCOL_VERSION;
use vstd::multiset::Multiset;
use vstd::prelude::*;

verus! {

/// A participant as a client knows it: its id and, per vector, the descriptor
/// that the server passed. The descriptors are the client's own.
#[derive(Debug, PartialEq, Eq)]
pub struct Peer {
    pub id: u16,
    pub vectors: Vec<i32>,
}

/// A participant as a value: its id and its descriptors in vector order.
pub struct PeerView {
    pub id: u16,
    pub vectors: Seq<i32>,
}

impl View for Peer {
    type V = PeerView;

    open spec fn view(&self) -> PeerView {
        PeerView { id: self.id, vectors: self.vectors@ }
    }
}

/// What can go wrong on the client's side of the protocol.
#[derive(Clone, Copy, Debug, PartialEq, Eq)]
pub enum ClientError {
    /// The first message is not the agreed protocol version and nothing else.
    BadProtocol,
    /// The second message is not an id and nothing else.
    BadLocalId,
    /// The third message is not a descriptor and nothing else.
    BadMemory,
    /// A message after the handshake has no id.
    MissingPeerId,
    /// A deletion notice names a peer that is not known.
    DeleteInvalidPeer(u16),
    /// A vector was addressed that the peer does not have.
    InvalidVector { vector: u64, peer: u16 },
    /// A vector was addressed by a number above all that sixty-four bits can
    /// hold, which no peer has.
    VectorTooLarge { peer: u16 },
    /// A doorbell's descriptor did not take the eight bytes.
    CouldNotWrite(i32),
    /// A doorbell's descriptor did not deliver eight bytes; holds what the
    /// read returned.
    InvalidReadSize(isize),
}

/// The message that a handshake waits for.
#[derive(Clone, Copy, Debug, PartialEq, Eq)]
pub enum Awaited {
    /// The protocol version.
    Version,
    /// The client's own id.
    LocalId,
    /// The shared memory's descriptor; holds the id received before.
    Memory(u16),
}

/// A handshake under way on a control socket.
#[derive(Debug, PartialEq, Eq)]
pub struct Handshake {
    sock: i32,
    awaited: Awaited,
}

/// Where a handshake stands after a message.
#[derive(Debug, PartialEq, Eq)]
pub enum Progress {
    /// More is to come.
    Awaiting(Handshake),
    /// The handshake is complete. `memory` is the shared memory's
    /// descriptor, which is the caller's from now on.
    Connected { client: Client, memory: i32 },
}

/// What a message after the handshake did to the mirror.
#[derive(Debug, PartialEq, Eq)]
pub enum Update {
    /// The descriptor was taken over as the next vector of a peer.
    VectorAdded,
    /// The peer was removed. It is handed back, and with it its descriptors,
    /// for the caller to release.
    PeerRemoved(Peer),
}

/// What a readiness report asks the client to do.
#[derive(Debug, PartialEq, Eq)]
pub enum Readiness {
    /// The control socket is ready: one message is to be received.
    ServerMessage,
    /// These vectors of the client's own are ready, by index in ascending
    /// order: each doorbell is to be drained.
    Vectors(Vec<usize>),
}

/// One line of what a client shows of its mirror.
#[derive(Clone, Copy, Debug, PartialEq, Eq)]
pub enum DumpLine {
    /// The client's own id.
    OurId(u16),
    /// The id of a remote peer.
    PeerId(u16),
    /// A vector of the peer named last, with its descriptor.
    Vector { vector: usize, fd: i32 },
}

/// What a command of the operator leads to.
#[derive(Debug, PartialEq, Eq)]
pub enum Action {
    /// The mirror is to be shown.
    Dump,
    /// These doorbells are to be rung, in this order; the first that does
    /// not take the write ends the command with an error.
    Notify(Vec<i32>),
}

/// The mirror: the control socket, the client's own peer record and the
/// remote peers in the order in which they were first seen.
#[derive(Debug, PartialEq, Eq)]
pub struct Client {
    sock: i32,
    peer_list: Vec<Peer>,
    local: Peer,
}

/// The mirror as a value.
pub struct Mirror {
    /// The client's own id and the receive ends of its doorbells.
    pub local: PeerView,
    /// The remote peers with the send ends of their doorbells.
    pub remotes: Seq<PeerView>,
}

/// Whether a readiness report, which covers the descriptors below `maxfd`
/// and lists those that are ready, says that `fd` is ready.
pub open spec fn is_ready(fd: i32, ready: Seq<i32>, maxfd: i32) -> bool {
    fd < maxfd && ready.contains(fd)
}

/// The indices below `upto` of the descriptors in `vectors` that are ready,
/// in ascending order.
pub open spec fn ready_vectors(vectors: Seq<i32>, ready: Seq<i32>, maxfd: i32, upto: int) -> Seq<
    usize,
>
    decreases upto,
{
    if upto <= 0 {
        Seq::empty()
    } else {
        ready_vectors(vectors, ready, maxfd, upto - 1) + if is_ready(
            vectors[upto - 1],
            ready,
            maxfd,
        ) {
            seq![(upto - 1) as usize]
        } else {
            Seq::empty()
        }
    }
}

/// Whether `fd` is among `fds`.
fn contains(fds: &Vec<i32>, fd: i32) -> (found: bool)
    ensures
        found == fds@.contains(fd),
{
    let mut i: usize = 0;
    while i < fds.len()
        invariant
            i <= fds.len(),
            forall|k: int| 0 <= k < i ==> fds@[k] != fd,
        decreases fds.len() - i,
    {
        if fds[i] == fd {
            return true;
        }
        i += 1;
    }
    false
}

/// The descriptors of all vectors of `peers`, peer by peer.
pub open spec fn all_vectors(peers: Seq<PeerView>) -> Seq<i32>
    decreases peers.len(),
{
    if peers.len() == 0 {
        Seq::empty()
    } else {
        all_vectors(peers.drop_last()) + peers.last().vectors
    }
}

/// The descriptors that `peers` hold, each as often as it is held.
pub open spec fn held_by(peers: Seq<PeerView>) -> Multiset<i32>
    decreases peers.len(),
{
    if peers.len() == 0 {
        Multiset::empty()
    } else {
        held_by(peers.drop_last()).add(peers.last().vectors.to_multiset())
    }
}

/// One line per vector, in vector order.
pub open spec fn vector_lines(vectors: Seq<i32>) -> Seq<DumpLine> {
    Seq::new(vectors.len(), |i: int| DumpLine::Vector { vector: i as usize, fd: vectors[i] })
}

/// For each peer its id, then its vectors.
pub open spec fn peer_lines(peers: Seq<PeerView>) -> Seq<DumpLine>
    decreases peers.len(),
{
    if peers.len() == 0 {
        Seq::empty()
    } else {
        peer_lines(peers.drop_last()) + seq![DumpLine::PeerId(peers.last().id)] + vector_lines(
            peers.last().vectors,
        )
    }
}

/// Appends the descriptors of `src` to `dst`.
fn append_fds(dst: &mut Vec<i32>, src: &Vec<i32>)
    ensures
        final(dst)@ == old(dst)@ + src@,
{
    let mut i: usize = 0;
    assert(dst@ =~= old(dst)@ + src@.take(0));
    while i < src.len()
        invariant
            i <= src.len(),
            dst@ == old(dst)@ + src@.take(i as int),
        decreases src.len() - i,
    {
        dst.push(src[i]);
        i += 1;
        assert(dst@ =~= old(dst)@ + src@.take(i as int));
    }
    assert(src@.take(i as int) =~= src@);
}

/// Appends one line per vector to `lines`.
fn append_vector_lines(lines: &mut Vec<DumpLine>, vectors: &Vec<i32>)
    ensures
        final(lines)@ == old(lines)@ + vector_lines(vectors@),
{
    let mut i: usize = 0;
    assert(lines@ =~= old(lines)@ + vector_lines(vectors@).take(0));
    while i < vectors.len()
        invariant
            i <= vectors.len(),
            lines@ == old(lines)@ + vector_lines(vectors@).take(i as int),
        decreases vectors.len() - i,
    {
        lines.push(DumpLine::Vector { vector: i, fd: vectors[i] });
        i += 1;
        assert(lines@ =~= old(lines)@ + vector_lines(vectors@).take(i as int));
    }
    assert(vector_lines(vectors@).take(i as int) =~= vector_lines(vectors@));
}

impl Peer {
    /// Picks the doorbell to ring for `vector`: its descriptor, to which the
    /// eight bytes of a kick are then to be written. A vector that the peer
    /// does not have is an error.
    pub fn notify(&self, vector: u64) -> (r: Result<i32, ClientError>)
        ensures
            r == if vector < self@.vectors.len() {
                Ok::<i32, ClientError>(self@.vectors[vector as int])
            } else {
                Err::<i32, ClientError>(ClientError::InvalidVector { vector, peer: self.id })
            },
    {
        if vector >= self.vectors.len() as u64 {
            return Err(ClientError::InvalidVector { vector, peer: self.id });
        }
        Ok(self.vectors[vector as usize])
    }

    /// Judges the write that rang the doorbell `fd`: it must have taken all
    /// eight bytes.
    pub fn notify_done(fd: i32, ret: isize) -> (r: Result<(), ClientError>)
        ensures
            r == if ret == 8 {
                Ok::<(), ClientError>(())
            } else {
                Err::<(), ClientError>(ClientError::CouldNotWrite(fd))
            },
    {
        if ret != 8 {
            return Err(ClientError::CouldNotWrite(fd));
        }
        Ok(())
    }

    /// The doorbells to ring for all vectors of the peer, in vector order.
    pub fn notify_all_vects(&self) -> (fds: Vec<i32>)
        ensures
            fds@ == self@.vectors,
    {
        let mut fds: Vec<i32> = Vec::new();
        append_fds(&mut fds, &self.vectors);
        assert(fds@ =~= self.vectors@);
        fds
    }
}

/// The position in `peers` of the first peer with `id`, if there is one.
pub open spec fn position(peers: Seq<PeerView>, id: u16) -> Option<int>
    decreases peers.len(),
{
    if peers.len() == 0 {
        None
    } else {
        match position(peers.drop_last(), id) {
            Some(at) => Some(at),
            None => if peers.last().id == id {
                Some(peers.len() - 1)
            } else {
                None
            },
        }
    }
}

impl PeerView {
    /// The peer with one more vector.
    pub open spec fn with_vector(self, fd: i32) -> PeerView {
        PeerView { id: self.id, vectors: self.vectors.push(fd) }
    }
}

impl Mirror {
    /// Whether each remote peer is listed once and the client itself is not
    /// among them.
    pub open spec fn wf(self) -> bool {
        &&& forall|i: int, j: int|
            0 <= i < j < self.remotes.len() ==> self.remotes[i].id != self.remotes[j].id
        &&& forall|i: int| 0 <= i < self.remotes.len() ==> self.remotes[i].id != self.local.id
    }

    /// The descriptors that the mirror holds, each as often as it is held:
    /// those of the client's own vectors and those of every remote peer.
    pub open spec fn held(self) -> Multiset<i32> {
        self.local.vectors.to_multiset().add(held_by(self.remotes))
    }

    /// The mirror of a client that has its id and nothing else yet.
    pub open spec fn fresh(id: u16) -> Mirror {
        Mirror { local: PeerView { id, vectors: Seq::empty() }, remotes: Seq::empty() }
    }

    /// The mirror with `fds` as further vectors of the peer with `id`: of the
    /// known remote peer with that id, or else of the client itself if the id
    /// is its own, or else of a remote peer that is new with them. No vectors
    /// make no new peer.
    pub open spec fn with_vectors(self, id: u16, fds: Seq<i32>) -> Mirror {
        match position(self.remotes, id) {
            Some(at) => Mirror {
                local: self.local,
                remotes: self.remotes.update(
                    at,
                    PeerView { id, vectors: self.remotes[at].vectors + fds },
                ),
            },
            None => if id == self.local.id {
                Mirror {
                    local: PeerView { id, vectors: self.local.vectors + fds },
                    remotes: self.remotes,
                }
            } else if fds.len() > 0 {
                Mirror { local: self.local, remotes: self.remotes.push(PeerView { id, vectors: fds }) }
            } else {
                self
            },
        }
    }

    /// The peer that a command addresses by `id`: the remote peer with that
    /// id, or else the client itself if the id is its own.
    pub open spec fn lookup(self, id: u16) -> Option<PeerView> {
        match position(self.remotes, id) {
            Some(at) => Some(self.remotes[at]),
            None => if self.local.id == id {
                Some(self.local)
            } else {
                None
            },
        }
    }

    /// The doorbells that `command` rings, in order. A vector that the
    /// addressed peer does not have is an error, however large its number. A
    /// peer that is not known, a line that is no command, and `dump` ring
    /// nothing.
    pub open spec fn rings(self, command: Command) -> Result<Seq<i32>, ClientError> {
        match command {
            Command::Dump => Ok(Seq::empty()),
            Command::Ignored => Ok(Seq::empty()),
            Command::Broadcast => Ok(all_vectors(self.remotes)),
            Command::Interrupt { peer_id, target } => match self.lookup(peer_id) {
                None => Ok(Seq::empty()),
                Some(peer) => match target {
                    Target::All => Ok(peer.vectors),
                    Target::Vector(vector) => if vector < peer.vectors.len() {
                        Ok(seq![peer.vectors[vector as int]])
                    } else {
                        Err(ClientError::InvalidVector { vector, peer: peer_id })
                    },
                    Target::Beyond => Err(ClientError::VectorTooLarge { peer: peer_id }),
                },
            },
        }
    }

    /// What `dump` shows: the client's id and its vectors, then every remote
    /// peer's id and vectors.
    pub open spec fn dump(self) -> Seq<DumpLine> {
        seq![DumpLine::OurId(self.local.id)] + vector_lines(self.local.vectors) + peer_lines(
            self.remotes,
        )
    }

    /// The mirror after a message of the server with `peer_id` and `fd`.
    ///
    /// A descriptor is the next vector of the known remote peer with that
    /// id, or else of the client itself if the id is its own, or else the
    /// first vector of a remote peer that is new. A message without a
    /// descriptor removes the known remote peer with that id.
    pub open spec fn apply(self, peer_id: Option<u16>, fd: Option<i32>) -> Result<
        Mirror,
        ClientError,
    > {
        match peer_id {
            None => Err(ClientError::MissingPeerId),
            Some(id) => match (fd, position(self.remotes, id)) {
                (None, None) => Err(ClientError::DeleteInvalidPeer(id)),
                (None, Some(at)) => Ok(Mirror { local: self.local, remotes: self.remotes.remove(at) }),
                (Some(fd), Some(at)) => Ok(
                    Mirror {
                        local: self.local,
                        remotes: self.remotes.update(at, self.remotes[at].with_vector(fd)),
                    },
                ),
                (Some(fd), None) => if id == self.local.id {
                    Ok(Mirror { local: self.local.with_vector(fd), remotes: self.remotes })
                } else {
                    Ok(
                        Mirror {
                            local: self.local,
                            remotes: self.remotes.push(PeerView { id, vectors: seq![fd] }),
                        },
                    )
                },
            },
        }
    }
}

/// `position` finds a peer with the id at the first place where there is
/// one, and nothing only where there is none.
pub proof fn lemma_position(peers: Seq<PeerView>, id: u16)
    ensures
        match position(peers, id) {
            Some(at) => 0 <= at < peers.len() && peers[at].id == id && forall|i: int|
                0 <= i < at ==> peers[i].id != id,
            None => forall|i: int| 0 <= i < peers.len() ==> peers[i].id != id,
        },
    decreases peers.len(),
{
    if peers.len() > 0 {
        lemma_position(peers.drop_last(), id);
        match position(peers.drop_last(), id) {
            Some(at) => {
                assert(peers.drop_last()[at] == peers[at]);
                assert forall|i: int| 0 <= i < at implies peers[i].id != id by {
                    assert(peers.drop_last()[i] == peers[i]);
                }
            },
            None => {
                assert forall|i: int| 0 <= i < peers.len() - 1 implies peers[i].id != id by {
                    assert(peers.drop_last()[i] == peers[i]);
                }
            },
        }
    }
}

/// A peer that gets one more descriptor holds that one more.
proof fn lemma_held_by_update(peers: Seq<PeerView>, at: int, fd: i32)
    requires
        0 <= at < peers.len(),
    ensures
        held_by(peers.update(at, peers[at].with_vector(fd))) =~= held_by(peers).insert(fd),
    decreases peers.len(),
{
    broadcast use vstd::multiset::group_multiset_axioms;

    let updated = peers.update(at, peers[at].with_vector(fd));
    if at == peers.len() - 1 {
        assert(updated.drop_last() =~= peers.drop_last());
        vstd::seq_lib::to_multiset_build(peers[at].vectors, fd);
    } else {
        assert(updated.drop_last() =~= peers.drop_last().update(
            at,
            peers.drop_last()[at].with_vector(fd),
        ));
        lemma_held_by_update(peers.drop_last(), at, fd);
    }
}

/// What a list of peers holds is what it holds without one of them,
/// together with what that one holds.
proof fn lemma_held_by_remove(peers: Seq<PeerView>, at: int)
    requires
        0 <= at < peers.len(),
    ensures
        held_by(peers) =~= held_by(peers.remove(at)).add(peers[at].vectors.to_multiset()),
    decreases peers.len(),
{
    broadcast use vstd::multiset::group_multiset_axioms;

    if at == peers.len() - 1 {
        assert(peers.remove(at) =~= peers.drop_last());
    } else {
        assert(peers.remove(at).drop_last() =~= peers.drop_last().remove(at));
        assert(peers.remove(at).last() == peers.last());
        lemma_held_by_remove(peers.drop_last(), at);
    }
}

/// No descriptor is lost or doubled by a message that the mirror takes. A
/// descriptor that comes with the message is held afterwards besides all that
/// were held before. A deletion notice leaves the mirror with all that were
/// held before but for those of the peer that is removed.
pub proof fn lemma_apply_conserves_descriptors(
    mirror: Mirror,
    peer_id: Option<u16>,
    fd: Option<i32>,
)
    requires
        mirror.apply(peer_id, fd) is Ok,
    ensures
        fd is Some ==> mirror.apply(peer_id, fd)->Ok_0.held() =~= mirror.held().insert(fd->0),
        fd is None ==> mirror.held() =~= mirror.apply(peer_id, fd)->Ok_0.held().add(
            mirror.remotes[position(mirror.remotes, peer_id->0)->0].vectors.to_multiset(),
        ),
{
    broadcast use vstd::multiset::group_multiset_axioms;

    let id = peer_id->0;
    lemma_position(mirror.remotes, id);
    match (fd, position(mirror.remotes, id)) {
        (None, Some(at)) => {
            lemma_held_by_remove(mirror.remotes, at);
        },
        (Some(fd), Some(at)) => {
            lemma_held_by_update(mirror.remotes, at, fd);
        },
        (Some(fd), None) => {
            if id == mirror.local.id {
                vstd::seq_lib::to_multiset_build(mirror.local.vectors, fd);
            } else {
                let peer = PeerView { id, vectors: seq![fd] };
                assert(mirror.remotes.push(peer).drop_last() =~= mirror.remotes);
                vstd::seq_lib::to_multiset_build(Seq::<i32>::empty(), fd);
                assert(Seq::<i32>::empty().push(fd) =~= seq![fd]);
                Seq::<i32>::empty().to_multiset_ensures();
                assert(Seq::<i32>::empty().to_multiset() =~= Multiset::<i32>::empty());
            }
        },
        (None, None) => {},
    }
}

/// A message that the mirror takes leaves every remote peer listed once and
/// the client itself out of the list.
pub proof fn lemma_apply_keeps_wf(mirror: Mirror, peer_id: Option<u16>, fd: Option<i32>)
    requires
        mirror.wf(),
        mirror.apply(peer_id, fd) is Ok,
    ensures
        mirror.apply(peer_id, fd)->Ok_0.wf(),
{
    lemma_position(mirror.remotes, peer_id->0);
}

/// The first place in a list where a peer has the id is where `position`
/// finds it.
pub proof fn lemma_position_is(peers: Seq<PeerView>, id: u16, at: int)
    requires
        0 <= at < peers.len(),
        peers[at].id == id,
        forall|i: int| 0 <= i < at ==> peers[i].id != id,
    ensures
        position(peers, id) == Some(at),
{
    lemma_position(peers, id);
}

/// In a list where no peer has the id, `position` finds none.
pub proof fn lemma_position_none(peers: Seq<PeerView>, id: u16)
    requires
        forall|i: int| 0 <= i < peers.len() ==> peers[i].id != id,
    ensures
        position(peers, id) is None,
{
    lemma_position(peers, id);
}

impl Handshake {
    /// The control socket that the handshake runs on.
    pub closed spec fn socket(&self) -> i32 {
        self.sock
    }

    /// The message that is awaited.
    pub closed spec fn stage(&self) -> Awaited {
        self.awaited
    }

    /// Starts the handshake on a freshly connected control socket: the
    /// protocol version is awaited first.
    pub fn new(sock: i32) -> (handshake: Handshake)
        ensures
            handshake.socket() == sock,
            handshake.stage() == Awaited::Version,
    {
        Handshake { sock, awaited: Awaited::Version }
    }

    /// The message that is awaited.
    pub fn awaited(&self) -> (awaited: Awaited)
        ensures
            awaited == self.stage(),
    {
        self.awaited
    }

    /// What is awaited after a message with `peer_id` and `fd` in stage
    /// `awaited`, where the message is the right one; `None` stands for the
    /// end of the handshake.
    pub open spec fn next_stage(awaited: Awaited, peer_id: Option<u16>, fd: Option<i32>) -> Result<
        Option<Awaited>,
        ClientError,
    > {
        match awaited {
            Awaited::Version => if peer_id == Some(IVSHMEM_PROTOCOL_VERSION) && fd is None {
                Ok(Some(Awaited::LocalId))
            } else {
                Err(ClientError::BadProtocol)
            },
            Awaited::LocalId => if peer_id is Some && fd is None {
                Ok(Some(Awaited::Memory(peer_id->0)))
            } else {
                Err(ClientError::BadLocalId)
            },
            Awaited::Memory(_) => if peer_id is None && fd is Some {
                Ok(None)
            } else {
                Err(ClientError::BadMemory)
            },
        }
    }

    /// Takes the next message of the server.
    ///
    /// The server is to send, in this order, the agreed protocol version
    /// alone, the client's id alone, and the shared memory's descriptor
    /// alone. Anything else ends the handshake with an error, and a
    /// descriptor that came with it stays the caller's. After the third
    /// message the client exists: it knows its id, has no vectors yet and
    /// knows no other peer.
    pub fn receive(self, peer_id: Option<u16>, fd: Option<i32>) -> (r: Result<Progress, ClientError>)
        ensures
            match Self::next_stage(self.stage(), peer_id, fd) {
                Err(e) => r == Err::<Progress, ClientError>(e),
                Ok(Some(awaited)) => r matches Ok(Progress::Awaiting(h)) && h.socket()
                    == self.socket() && h.stage() == awaited,
                Ok(None) => r matches Ok(Progress::Connected { client, memory }) && memory == fd->0
                    && client.socket() == self.socket() && client.mirror() == Mirror::fresh(
                    self.stage()->Memory_0,
                ),
            },
    {
        match self.awaited {
            Awaited::Version => match (peer_id, fd) {
                (Some(protocol), None) if protocol == IVSHMEM_PROTOCOL_VERSION => Ok(
                    Progress::Awaiting(Handshake { sock: self.sock, awaited: Awaited::LocalId }),
                ),
                _ => Err(ClientError::BadProtocol),
            },
            Awaited::LocalId => match (peer_id, fd) {
                (Some(id), None) => Ok(
                    Progress::Awaiting(Handshake { sock: self.sock, awaited: Awaited::Memory(id) }),
                ),
                _ => Err(ClientError::BadLocalId),
            },
            Awaited::Memory(id) => match (peer_id, fd) {
                (None, Some(memory)) => {
                    let client = Client {
                        sock: self.sock,
                        peer_list: Vec::new(),
                        local: Peer { id, vectors: Vec::new() },
                    };
                    assert(client.mirror().remotes =~= Seq::empty());
                    Ok(Progress::Connected { client, memory })
                },
                _ => Err(ClientError::BadMemory),
            },
        }
    }
}

impl Client {
    /// Descriptor of the control socket.
    pub closed spec fn socket(&self) -> i32 {
        self.sock
    }

    /// What the client knows of itself and of the others.
    pub closed spec fn mirror(&self) -> Mirror {
        Mirror { local: self.local@, remotes: self.peer_list@.map_values(|p: Peer| p@) }
    }

    /// The client's invariant: that of its mirror.
    pub open spec fn wf(&self) -> bool {
        self.mirror().wf()
    }

    /// Descriptor of the control socket.
    pub fn sock(&self) -> (fd: i32)
        ensures
            fd == self.socket(),
    {
        self.sock
    }

    /// The client's own peer record.
    pub fn local(&self) -> (peer: &Peer)
        ensures
            peer@ == self.mirror().local,
    {
        &self.local
    }

    /// The remote peers, in the order in which they were first seen.
    pub fn peer_list(&self) -> (peers: &Vec<Peer>)
        ensures
            peers@.map_values(|p: Peer| p@) == self.mirror().remotes,
    {
        &self.peer_list
    }

    /// The place of the remote peer with `id` in the list, if it is known.
    fn find(&self, id: u16) -> (at: Option<usize>)
        ensures
            match at {
                Some(at) => position(self.mirror().remotes, id) == Some(at as int) && at
                    < self.peer_list@.len(),
                None => position(self.mirror().remotes, id) is None,
            },
    {
        let ghost remotes = self.mirror().remotes;
        let mut index: usize = 0;
        assert(remotes.take(0) =~= Seq::empty());
        while index < self.peer_list.len()
            invariant
                index <= self.peer_list.len(),
                remotes == self.mirror().remotes,
                remotes.len() == self.peer_list.len(),
                position(remotes.take(index as int), id) is None,
            decreases self.peer_list.len() - index,
        {
            assert(remotes.take(index + 1).drop_last() =~= remotes.take(index as int));
            assert(remotes.take(index + 1).last() == self.peer_list[index as int]@);
            if self.peer_list[index].id == id {
                proof {
                    lemma_position_prefix(remotes, index + 1, id);
                }
                return Some(index);
            }
            index += 1;
        }
        assert(remotes.take(index as int) =~= remotes);
        None
    }

    /// Takes a message of the server that came after the handshake.
    ///
    /// With a descriptor, the message adds a vector: to the remote peer with
    /// that id if it is known, else to the client itself if the id is its
    /// own, else to a remote peer that is new with it. The mirror takes the
    /// descriptor over. Without a descriptor, the message is a deletion
    /// notice: the remote peer with that id is removed and handed back. A
    /// message without an id, or a deletion notice for a peer that is not
    /// known, is an error; the mirror is then unchanged and a descriptor that
    /// came with the message stays the caller's.
    pub fn handle_server_msg(&mut self, peer_id: Option<u16>, fd: Option<i32>) -> (r: Result<
        Update,
        ClientError,
    >)
        ensures
            final(self).socket() == old(self).socket(),
            match old(self).mirror().apply(peer_id, fd) {
                Ok(mirror) => final(self).mirror() == mirror && (match r {
                    Ok(Update::VectorAdded) => fd is Some,
                    Ok(Update::PeerRemoved(peer)) => fd is None && peer@ == old(
                        self,
                    ).mirror().remotes[position(old(self).mirror().remotes, peer_id->0)->0],
                    Err(_) => false,
                }),
                Err(e) => r == Err::<Update, ClientError>(e) && final(self).mirror() == old(
                    self,
                ).mirror(),
            },
            old(self).wf() ==> final(self).wf(),
    {
        let id = match peer_id {
            Some(id) => id,
            None => {
                return Err(ClientError::MissingPeerId);
            },
        };
        let at = self.find(id);
        proof {
            lemma_position(self.mirror().remotes, id);
        }
        match (fd, at) {
            (None, None) => Err(ClientError::DeleteInvalidPeer(id)),
            (None, Some(index)) => {
                let peer = self.peer_list.remove(index);
                assert(self.mirror().remotes =~= old(self).mirror().remotes.remove(index as int));
                Ok(Update::PeerRemoved(peer))
            },
            (Some(fd), Some(index)) => {
                self.peer_list[index].vectors.push(fd);
                assert(self.mirror().remotes =~= old(self).mirror().remotes.update(
                    index as int,
                    old(self).mirror().remotes[index as int].with_vector(fd),
                ));
                Ok(Update::VectorAdded)
            },
            (Some(fd), None) => {
                if id == self.local.id {
                    self.local.vectors.push(fd);
                } else {
                    let mut vectors: Vec<i32> = Vec::new();
                    vectors.push(fd);
                    self.peer_list.push(Peer { id, vectors });
                    assert(self.mirror().remotes =~= old(self).mirror().remotes.push(
                        PeerView { id, vectors: seq![fd] },
                    ));
                }
                Ok(Update::VectorAdded)
            },
        }
    }

    /// The descriptors to watch for readiness besides the operator's
    /// command stream, and one more than the largest of them: the client's
    /// own vectors in order, then the control socket.
    pub fn get_fds(&self) -> (r: (Vec<i32>, i32))
        requires
            self.socket() < i32::MAX,
            forall|i: int|
                0 <= i < self.mirror().local.vectors.len() ==> self.mirror().local.vectors[i]
                    < i32::MAX,
        ensures
            r.0@ == self.mirror().local.vectors.push(self.socket()),
            r.0@.contains((r.1 - 1) as i32),
            forall|i: int| 0 <= i < r.0@.len() ==> r.0@[i] < r.1,
    {
        let mut fds: Vec<i32> = Vec::new();
        let mut max: i32 = self.sock;
        let mut i: usize = 0;
        assert(self.mirror().local.vectors == self.local.vectors@);
        assert(fds@ =~= self.local.vectors@.take(0));
        while i < self.local.vectors.len()
            invariant
                i <= self.local.vectors.len(),
                fds@ == self.local.vectors@.take(i as int),
                max == self.sock || exists|k: int|
                    0 <= k < i && #[trigger] self.local.vectors@[k] == max,
                max >= self.sock,
                max < i32::MAX,
                forall|k: int| 0 <= k < i ==> #[trigger] self.local.vectors@[k] <= max,
                forall|k: int|
                    0 <= k < self.local.vectors@.len() ==> #[trigger] self.local.vectors@[k]
                        < i32::MAX,
            decreases self.local.vectors.len() - i,
        {
            let fd = self.local.vectors[i];
            fds.push(fd);
            if fd > max {
                max = fd;
            }
            i += 1;
            assert(fds@ =~= self.local.vectors@.take(i as int));
        }
        assert(self.local.vectors@.take(i as int) =~= self.local.vectors@);
        fds.push(self.sock);
        assert(fds@[fds@.len() - 1] == self.sock);
        assert(fds@.contains(max)) by {
            if max != self.sock {
                let k = choose|k: int| 0 <= k < i && #[trigger] self.local.vectors@[k] == max;
                assert(fds@[k] == max);
            }
        }
        (fds, max + 1)
    }

    /// Says what a readiness report asks for.
    ///
    /// `ready` lists the descriptors that are ready and `maxfd` is one more
    /// than the largest descriptor that was watched. A ready control socket
    /// comes first: a message is to be received, and the vectors wait for
    /// the next report. Otherwise every ready vector of the client's own is
    /// to be drained, in vector order.
    pub fn handle_fds(&self, ready: &Vec<i32>, maxfd: i32) -> (r: Readiness)
        ensures
            is_ready(self.socket(), ready@, maxfd) ==> r == Readiness::ServerMessage,
            !is_ready(self.socket(), ready@, maxfd) ==> (r matches Readiness::Vectors(indices)
                && indices@ == ready_vectors(
                self.mirror().local.vectors,
                ready@,
                maxfd,
                self.mirror().local.vectors.len() as int,
            )),
    {
        if self.sock < maxfd && contains(ready, self.sock) {
            return Readiness::ServerMessage;
        }
        let mut indices: Vec<usize> = Vec::new();
        let mut i: usize = 0;
        while i < self.local.vectors.len()
            invariant
                i <= self.local.vectors.len(),
                indices@ == ready_vectors(self.local.vectors@, ready@, maxfd, i as int),
            decreases self.local.vectors.len() - i,
        {
            let fd = self.local.vectors[i];
            if fd < maxfd && contains(ready, fd) {
                indices.push(i);
            }
            i += 1;
            assert(indices@ =~= ready_vectors(self.local.vectors@, ready@, maxfd, i as int));
        }
        Readiness::Vectors(indices)
    }

    /// Judges the read that drained a ready doorbell: `ret` is what the read
    /// of eight bytes returned and `kick` the buffer it filled. A read of
    /// exactly eight bytes yields the value that was rung with, which is to
    /// be reported and means nothing further; any other outcome is an error.
    pub fn handle_event(ret: isize, kick: &[u8; 8]) -> (r: Result<u64, ClientError>)
        ensures
            r == if ret == 8 {
                Ok::<u64, ClientError>(le_u64(kick@) as u64)
            } else {
                Err::<u64, ClientError>(ClientError::InvalidReadSize(ret))
            },
    {
        if ret != 8 {
            return Err(ClientError::InvalidReadSize(ret));
        }
        Ok(u64_from_le_bytes(kick))
    }

    /// What there is to show of the mirror, line by line.
    pub fn dump(&self) -> (lines: Vec<DumpLine>)
        ensures
            lines@ == self.mirror().dump(),
    {
        let mut lines: Vec<DumpLine> = Vec::new();
        lines.push(DumpLine::OurId(self.local.id));
        append_vector_lines(&mut lines, &self.local.vectors);
        let ghost own = lines@;
        let ghost remotes = self.mirror().remotes;
        let mut i: usize = 0;
        assert(remotes.take(0) =~= Seq::empty());
        assert(lines@ =~= own + peer_lines(remotes.take(0)));
        while i < self.peer_list.len()
            invariant
                i <= self.peer_list.len(),
                remotes == self.mirror().remotes,
                lines@ == own + peer_lines(remotes.take(i as int)),
            decreases self.peer_list.len() - i,
        {
            let peer = &self.peer_list[i];
            lines.push(DumpLine::PeerId(peer.id));
            append_vector_lines(&mut lines, &peer.vectors);
            i += 1;
            assert(remotes.take(i as int).drop_last() =~= remotes.take(i - 1));
            assert(remotes.take(i as int).last() == peer@);
            assert(lines@ =~= own + peer_lines(remotes.take(i as int)));
        }
        assert(remotes.take(i as int) =~= remotes);
        lines
    }

    /// The doorbells to ring for every vector of every remote peer, peer by
    /// peer in the order of the list.
    pub fn notify_broadcast(&self) -> (fds: Vec<i32>)
        ensures
            fds@ == all_vectors(self.mirror().remotes),
    {
        let mut fds: Vec<i32> = Vec::new();
        let ghost remotes = self.mirror().remotes;
        let mut i: usize = 0;
        assert(remotes.take(0) =~= Seq::empty());
        while i < self.peer_list.len()
            invariant
                i <= self.peer_list.len(),
                remotes == self.mirror().remotes,
                fds@ == all_vectors(remotes.take(i as int)),
            decreases self.peer_list.len() - i,
        {
            append_fds(&mut fds, &self.peer_list[i].vectors);
            i += 1;
            assert(remotes.take(i as int).drop_last() =~= remotes.take(i - 1));
            assert(remotes.take(i as int).last() == self.peer_list[i - 1]@);
        }
        assert(remotes.take(i as int) =~= remotes);
        fds
    }

    /// The peer that a command addresses by `id`.
    fn lookup(&self, id: u16) -> (peer: Option<&Peer>)
        ensures
            match peer {
                Some(peer) => self.mirror().lookup(id) == Some(peer@),
                None => self.mirror().lookup(id) is None,
            },
    {
        match self.find(id) {
            Some(at) => Some(&self.peer_list[at]),
            None => if self.local.id == id {
                Some(&self.local)
            } else {
                None
            },
        }
    }

    /// Decides what a command leads to: `dump` to showing the mirror, every
    /// other command to ringing the doorbells that it addresses.
    pub fn run(&self, command: Command) -> (r: Result<Action, ClientError>)
        ensures
            match self.mirror().rings(command) {
                Err(e) => r == Err::<Action, ClientError>(e),
                Ok(fds) => if command == Command::Dump {
                    r == Ok::<Action, ClientError>(Action::Dump)
                } else {
                    r matches Ok(Action::Notify(rung)) && rung@ == fds
                },
            },
    {
        match command {
            Command::Dump => Ok(Action::Dump),
            Command::Ignored => Ok(Action::Notify(Vec::new())),
            Command::Broadcast => Ok(Action::Notify(self.notify_broadcast())),
            Command::Interrupt { peer_id, target } => match self.lookup(peer_id) {
                None => Ok(Action::Notify(Vec::new())),
                Some(peer) => match target {
                    Target::All => Ok(Action::Notify(peer.notify_all_vects())),
                    Target::Vector(vector) => match peer.notify(vector) {
                        Ok(fd) => {
                            let mut fds: Vec<i32> = Vec::new();
                            fds.push(fd);
                            assert(fds@ =~= seq![fd]);
                            Ok(Action::Notify(fds))
                        },
                        Err(_) => Err(ClientError::InvalidVector { vector, peer: peer_id }),
                    },
                    Target::Beyond => Err(ClientError::VectorTooLarge { peer: peer_id }),
                },
            },
        }
    }

    /// Takes one line of the operator's command stream and decides what it
    /// leads to. A line that is no command leads to nothing and is never an
    /// error; a vector that a known peer does not have is one, however large
    /// its number.
    pub fn handle_stdin_command(&self, line: &str) -> (r: Result<Action, ClientError>)
        ensures
            match self.mirror().rings(command_of(line@)) {
                Err(e) => r == Err::<Action, ClientError>(e),
                Ok(fds) => if command_of(line@) == Command::Dump {
                    r == Ok::<Action, ClientError>(Action::Dump)
                } else {
                    r matches Ok(Action::Notify(rung)) && rung@ == fds
                },
            },
    {
        self.run(parse_command(line))
    }
}

/// Ringing all vectors of a known peer rings each of them, in vector order;
/// ringing one of them rings that one if the peer has it and is an error if
/// it has not.
pub proof fn lemma_interrupt_rings(mirror: Mirror, peer_id: u16, vector: u64)
    requires
        mirror.lookup(peer_id) is Some,
    ensures
        mirror.rings(Command::Interrupt { peer_id, target: Target::All }) == Ok::<
            Seq<i32>,
            ClientError,
        >(mirror.lookup(peer_id)->0.vectors),
        vector >= mirror.lookup(peer_id)->0.vectors.len() ==> mirror.rings(
            Command::Interrupt { peer_id, target: Target::Vector(vector) },
        ) == Err::<Seq<i32>, ClientError>(ClientError::InvalidVector { vector, peer: peer_id }),
        vector < mirror.lookup(peer_id)->0.vectors.len() ==> mirror.rings(
            Command::Interrupt { peer_id, target: Target::Vector(vector) },
        ) == Ok::<Seq<i32>, ClientError>(seq![mirror.lookup(peer_id)->0.vectors[vector as int]]),
        mirror.rings(Command::Interrupt { peer_id, target: Target::Beyond }) == Err::<
            Seq<i32>,
            ClientError,
        >(ClientError::VectorTooLarge { peer: peer_id }),
{
}

/// What the line `int <peer> <vector>` rings where the peer is known and
/// the vector is a decimal number of whatever size: the vector with that
/// number if the peer has it, and otherwise nothing, with an error. The line
/// `int <peer> all` rings every vector of the peer.
pub proof fn lemma_interrupt_line_rings(mirror: Mirror, peer: Seq<char>, vector: Seq<char>)
    requires
        unsigned_of(peer, 0xffff) is Ok,
        mirror.lookup(unsigned_of(peer, 0xffff)->Ok_0 as u16) is Some,
        is_number(vector) || vector == word_all(),
    ensures
        ({
            let known = mirror.lookup(unsigned_of(peer, 0xffff)->Ok_0 as u16)->0;
            let rung = mirror.rings(command_of(word_int() + peer + seq![' '] + vector));
            &&& is_number(vector) && number_value(vector) >= known.vectors.len() ==> rung is Err
            &&& is_number(vector) && number_value(vector) < known.vectors.len() && number_value(
                vector,
            ) <= u64::MAX ==> rung == Ok::<Seq<i32>, ClientError>(
                seq![known.vectors[number_value(vector)]],
            )
            &&& vector == word_all() ==> rung == Ok::<Seq<i32>, ClientError>(known.vectors)
        }),
{
    lemma_interrupt_line(peer, vector);
    lemma_all_is_no_number();
    lemma_unsigned_of_number(vector, u64::MAX as int);
}

/// A peer found in a prefix of a list is the one found in the whole list.
proof fn lemma_position_prefix(peers: Seq<PeerView>, len: int, id: u16)
    requires
        0 <= len <= peers.len(),
        position(peers.take(len), id) is Some,
    ensures
        position(peers, id) == position(peers.take(len), id),
    decreases peers.len() - len,
{
    if len < peers.len() {
        assert(peers.take(len + 1).drop_last() =~= peers.take(len));
        lemma_position_prefix(peers, len + 1, id);
    } else {
        assert(peers.take(len) =~= peers);
    }
}

} // verus!
