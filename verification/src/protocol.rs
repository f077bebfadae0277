//! What the two sides of the protocol come to together: the messages that
//! the server plans, taken by the clients they are sent to.

use crate::client::lemma_position;
use crate::client::lemma_position_is;
use crate::client::lemma_position_none;
use crate::client::position;
use crate::client::Awaited;
use crate::client::ClientError;
use crate::client::Handshake;
use crate::client::Mirror;
use crate::client::PeerView;
use crate::event_notifier::EventNotifier;
use crate::server::ends;
use crate::server::sent_to;
use crate::server::vector_messages;
use crate::server::Outgoing;
use crate::server::Server;
use vstd::prelude::*;

verus! {

/// The mirror after `messages`, taken in order; the first message that is
/// refused ends it.
pub open spec fn apply_all(mirror: Mirror, messages: Seq<Outgoing>) -> Result<Mirror, ClientError>
    decreases messages.len(),
{
    if messages.len() == 0 {
        Ok(mirror)
    } else {
        match apply_all(mirror, messages.drop_last()) {
            Ok(before) => before.apply(messages.last().peer_id, messages.last().fd),
            Err(e) => Err(e),
        }
    }
}

/// The remote peers that a newcomer is introduced to: the connected peers in
/// the slots below `upto`, in slot order, each with its id and the send ends
/// of its doorbells. Peers without vectors are never mentioned.
pub open spec fn introduced(server: &Server, upto: int) -> Seq<PeerView>
    decreases upto,
{
    if upto <= 0 {
        Seq::empty()
    } else {
        introduced(server, upto - 1) + if server.connected(upto - 1) && server.vectors_per_peer()
            > 0 {
            seq![
                (PeerView {
                    id: server.id_of(upto - 1),
                    vectors: ends(server.slots()[upto - 1]->0.vectors@, false),
                }),
            ]
        } else {
            Seq::empty()
        }
    }
}

/// Taking two runs of messages one after the other is taking the first and
/// then, if it went through, the second.
pub proof fn lemma_apply_all_add(mirror: Mirror, first: Seq<Outgoing>, second: Seq<Outgoing>)
    ensures
        apply_all(mirror, first + second) == match apply_all(mirror, first) {
            Ok(between) => apply_all(between, second),
            Err(e) => Err(e),
        },
    decreases second.len(),
{
    if second.len() == 0 {
        assert(first + second =~= first);
    } else {
        assert((first + second).drop_last() =~= first + second.drop_last());
        assert((first + second).last() == second.last());
        lemma_apply_all_add(mirror, first, second.drop_last());
    }
}

/// The server's greeting takes a handshake through its three stages: the
/// client then has the id of its slot and the shared memory's descriptor.
pub proof fn lemma_greeting_completes_handshake(server: &Server, index: usize)
    ensures
        server.greeting(index).len() == 3,
        Handshake::next_stage(
            Awaited::Version,
            server.greeting(index)[0].peer_id,
            server.greeting(index)[0].fd,
        ) == Ok::<Option<Awaited>, ClientError>(Some(Awaited::LocalId)),
        Handshake::next_stage(
            Awaited::LocalId,
            server.greeting(index)[1].peer_id,
            server.greeting(index)[1].fd,
        ) == Ok::<Option<Awaited>, ClientError>(
            Some(Awaited::Memory(server.id_of(index as int))),
        ),
        Handshake::next_stage(
            Awaited::Memory(server.id_of(index as int)),
            server.greeting(index)[2].peer_id,
            server.greeting(index)[2].fd,
        ) == Ok::<Option<Awaited>, ClientError>(None),
        server.greeting(index)[2].fd == Some(server.memory_fd()),
{
}

/// A client that takes the vectors of one peer, sent one message each, has
/// them afterwards as vectors of that peer, in the order of sending.
pub proof fn lemma_vectors_delivered(mirror: Mirror, slot: usize, id: u16, fds: Seq<i32>)
    ensures
        apply_all(mirror, vector_messages(slot, id, fds)) == Ok::<Mirror, ClientError>(
            mirror.with_vectors(id, fds),
        ),
    decreases fds.len(),
{
    let messages = vector_messages(slot, id, fds);
    lemma_position(mirror.remotes, id);
    if fds.len() == 0 {
        match position(mirror.remotes, id) {
            Some(at) => {
                assert(mirror.remotes[at].vectors + fds =~= mirror.remotes[at].vectors);
                assert(mirror.remotes.update(at, mirror.remotes[at]) =~= mirror.remotes);
            },
            None => {
                assert(mirror.local.vectors + fds =~= mirror.local.vectors);
            },
        }
    } else {
        let earlier = fds.drop_last();
        let last = fds.last();
        assert(messages.drop_last() =~= vector_messages(slot, id, earlier));
        assert(messages.last() == (Outgoing { slot, peer_id: Some(id), fd: Some(last) }));
        lemma_vectors_delivered(mirror, slot, id, earlier);
        let before = mirror.with_vectors(id, earlier);
        assert(earlier.push(last) =~= fds);
        match position(mirror.remotes, id) {
            Some(at) => {
                let had = mirror.remotes[at].vectors;
                lemma_position_is(before.remotes, id, at);
                assert((had + earlier).push(last) =~= had + fds);
                assert(before.remotes.update(at, before.remotes[at].with_vector(last))
                    =~= mirror.remotes.update(at, PeerView { id, vectors: had + fds }));
            },
            None => {
                if id == mirror.local.id {
                    let had = mirror.local.vectors;
                    assert((had + earlier).push(last) =~= had + fds);
                } else if earlier.len() == 0 {
                    assert(seq![last] =~= fds);
                } else {
                    let at = mirror.remotes.len() as int;
                    lemma_position_is(before.remotes, id, at);
                    assert(before.remotes.update(at, before.remotes[at].with_vector(last))
                        =~= mirror.remotes.push(PeerView { id, vectors: fds }));
                }
            },
        }
    }
}

/// The ids of the peers that a newcomer is introduced to are those of
/// connected slots, so none of them is the id of a slot that is free.
proof fn lemma_introduced_ids(server: &Server, upto: int, free: int)
    requires
        server.wf(),
        upto <= server.slots().len(),
        0 <= free < server.slots().len(),
        free >= upto || !server.connected(free),
    ensures
        forall|i: int|
            0 <= i < introduced(server, upto).len() ==> introduced(server, upto)[i].id
                != server.id_of(free),
    decreases upto,
{
    if upto > 0 {
        let k = upto - 1;
        lemma_introduced_ids(server, k, free);
        let earlier = introduced(server, k);
        assert forall|i: int| 0 <= i < introduced(server, upto).len() implies introduced(
            server,
            upto,
        )[i].id != server.id_of(free) by {
            if i < earlier.len() {
                assert(introduced(server, upto)[i] == earlier[i]);
            } else {
                assert(server.connected(k));
                assert(introduced(server, upto)[i].id == server.id_of(k));
                assert(k != free);
            }
        }
    }
}

/// A newcomer that takes its introductions to the connected peers in the
/// slots below `upto` knows exactly those peers afterwards.
proof fn lemma_introductions_delivered(server: &Server, upto: int, index: usize)
    requires
        server.wf(),
        0 <= upto <= server.slots().len(),
        index < server.slots().len(),
        !server.connected(index as int),
    ensures
        apply_all(
            Mirror::fresh(server.id_of(index as int)),
            server.introductions(upto, index),
        ) == Ok::<Mirror, ClientError>(
            Mirror {
                local: Mirror::fresh(server.id_of(index as int)).local,
                remotes: introduced(server, upto),
            },
        ),
    decreases upto,
{
    let fresh = Mirror::fresh(server.id_of(index as int));
    if upto <= 0 {
        assert(introduced(server, upto) =~= fresh.remotes);
    } else {
        let k = upto - 1;
        lemma_introductions_delivered(server, k, index);
        let before = Mirror { local: fresh.local, remotes: introduced(server, k) };
        if server.connected(k) {
            let id = server.id_of(k);
            let fds = ends(server.slots()[k]->0.vectors@, false);
            let step = vector_messages(index, id, fds);
            lemma_apply_all_add(fresh, server.introductions(k, index), step);
            lemma_vectors_delivered(before, index, id, fds);
            lemma_introduced_ids(server, k, k);
            lemma_position_none(before.remotes, id);
            assert(fds.len() == server.vectors_per_peer());
            assert(id != fresh.local.id);
            assert(server.introductions(upto, index) == server.introductions(k, index) + step);
            if fds.len() > 0 {
                assert(introduced(server, upto) =~= before.remotes.push(
                    PeerView { id, vectors: fds },
                ));
            } else {
                assert(introduced(server, upto) =~= before.remotes);
            }
        } else {
            assert(server.introductions(upto, index) =~= server.introductions(k, index));
            assert(introduced(server, upto) =~= introduced(server, k));
        }
    }
}

/// A newcomer that takes all that its registration sends it, in order, gets
/// through the handshake on the first three messages and then has a mirror
/// of the registry: its own id with the receive ends of its doorbells, and
/// every connected peer with its id and the send ends of its doorbells.
pub proof fn lemma_newcomer_mirror(server: &Server, index: usize, vectors: Seq<EventNotifier>)
    requires
        server.wf(),
        index < server.slots().len(),
        !server.connected(index as int),
        vectors.len() == server.vectors_per_peer(),
    ensures
        sent_to(server.registration(index, vectors), index).take(3) == server.greeting(index),
        apply_all(
            Mirror::fresh(server.id_of(index as int)),
            sent_to(server.registration(index, vectors), index).skip(3),
        ) == Ok::<Mirror, ClientError>(
            Mirror {
                local: PeerView { id: server.id_of(index as int), vectors: ends(vectors, true) },
                remotes: introduced(server, server.slots().len() as int),
            },
        ),
{
    let n = server.slots().len() as int;
    let id = server.id_of(index as int);
    let fresh = Mirror::fresh(id);
    let greeting = server.greeting(index);
    let introductions = server.introductions(n, index);
    let own = vector_messages(index, id, ends(vectors, true));
    let to_newcomer = sent_to(server.registration(index, vectors), index);
    server.lemma_registration_delivery(index, vectors, index);
    assert(to_newcomer.take(3) =~= greeting);
    assert(to_newcomer.skip(3) =~= introductions + own);
    lemma_introductions_delivered(server, n, index);
    lemma_apply_all_add(fresh, introductions, own);
    let before = Mirror { local: fresh.local, remotes: introduced(server, n) };
    lemma_vectors_delivered(before, index, id, ends(vectors, true));
    lemma_introduced_ids(server, n, index as int);
    lemma_position_none(before.remotes, id);
    assert(fresh.local.vectors + ends(vectors, true) =~= ends(vectors, true));
}

/// A connected client that takes what the registration of a newcomer sends
/// it has the newcomer afterwards, with the send ends of its doorbells,
/// whatever it knew before.
pub proof fn lemma_existing_mirror(
    server: &Server,
    index: usize,
    vectors: Seq<EventNotifier>,
    slot: usize,
    mirror: Mirror,
)
    requires
        server.wf(),
        index < server.slots().len(),
        !server.connected(index as int),
        vectors.len() == server.vectors_per_peer(),
        slot != index,
        server.connected(slot as int),
    ensures
        apply_all(mirror, sent_to(server.registration(index, vectors), slot)) == Ok::<
            Mirror,
            ClientError,
        >(mirror.with_vectors(server.id_of(index as int), ends(vectors, false))),
{
    server.lemma_registration_delivery(index, vectors, slot);
    lemma_vectors_delivered(mirror, slot, server.id_of(index as int), ends(vectors, false));
}

/// A client that takes the notice of a departure forgets the peer that left,
/// if it knew it, and nothing else.
pub proof fn lemma_departure_mirror(
    before: &Server,
    after: &Server,
    index: usize,
    slot: usize,
    mirror: Mirror,
)
    requires
        before.wf(),
        before.connected(index as int),
        after.wf(),
        after.slots() == before.slots().update(index as int, None),
        slot != index,
        before.connected(slot as int),
        position(mirror.remotes, before.id_of(index as int)) is Some,
    ensures
        apply_all(
            mirror,
            sent_to(
                after.deletions(after.slots().len() as int, before.id_of(index as int)),
                slot,
            ),
        ) == Ok::<Mirror, ClientError>(
            Mirror {
                local: mirror.local,
                remotes: mirror.remotes.remove(
                    position(mirror.remotes, before.id_of(index as int))->0,
                ),
            },
        ),
{
    let id = before.id_of(index as int);
    let notices = sent_to(after.deletions(after.slots().len() as int, id), slot);
    Server::lemma_departure_delivery(before, after, index, slot);
    lemma_position(mirror.remotes, id);
    assert(notices.len() == 1);
    assert(notices.drop_last() =~= Seq::<Outgoing>::empty());
    assert(notices.last() == (Outgoing { slot, peer_id: Some(id), fd: None }));
    assert(apply_all(mirror, notices.drop_last()) == Ok::<Mirror, ClientError>(mirror));
}

} // verus!
