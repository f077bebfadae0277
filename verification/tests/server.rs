use ivshmem::server::checked_next_power_of_two;
use ivshmem::server::ftruncate;
use ivshmem::server::Event;
use ivshmem::server::Outgoing;
use ivshmem::server::Peer;
use ivshmem::server::Server;
use ivshmem::server::SizeTooLarge;
use ivshmem::EventNotifier;
use ivshmem::IVSHMEM_PROTOCOL_VERSION;

fn eventfd_peer(socket: i32, fds: &[i32]) -> Peer {
    Peer { socket, vectors: fds.iter().map(|fd| EventNotifier::Event(*fd)).collect() }
}

fn pipe_peer(socket: i32, ends: &[(i32, i32)]) -> Peer {
    Peer {
        socket,
        vectors: ends.iter().map(|(read, write)| EventNotifier::Pipe { read: *read, write: *write }).collect(),
    }
}

fn to(slot: usize, peer_id: Option<u16>, fd: Option<i32>) -> Outgoing {
    Outgoing { slot, peer_id, fd }
}

fn connect(server: &mut Server, index: usize, peer: Peer) -> Vec<Outgoing> {
    let plan = server.handle_new_conn(index, &peer);
    server.register(index, peer);
    plan
}

#[test]
fn new_server_has_all_slots_free() {
    let server = Server::new(3, true, 2, 4, false);
    assert_eq!(server.slot_count(), 4);
    assert_eq!(server.memory(), 3);
    assert!(server.pipe());
    assert_eq!(server.vector_count(), 2);
    for index in 0..4 {
        assert!(server.peer(index).is_none());
    }
    assert!(server.peer(4).is_none());
    assert_eq!(server.peers(), Vec::<usize>::new());
}

#[test]
fn server_without_slots_is_possible() {
    let server = Server::new(3, false, 1, 0, false);
    assert_eq!(server.slot_count(), 0);
    assert_eq!(server.poll_events(0, true, true), Event::Unexpected);
}

#[test]
fn ids_are_slot_indices_plus_offset() {
    let plain = Server::new(3, false, 1, 3, false);
    assert_eq!((plain.id(0), plain.id(1), plain.id(2)), (0, 1, 2));
    let offset = Server::new(3, false, 1, 3, true);
    assert_eq!((offset.id(0), offset.id(1), offset.id(2)), (1, 2, 3));
    let full = Server::new(3, false, 1, u16::MAX, true);
    assert_eq!(full.id(65534), 65535);
}

#[test]
fn tokens_of_peers_follow_those_of_listeners() {
    let server = Server::new(3, false, 1, 3, false);
    assert_eq!(server.peer_token(0), 3);
    assert_eq!(server.peer_token(2), 5);
}

#[test]
fn first_peer_gets_greeting_and_own_vectors() {
    let server = Server::new(3, false, 2, 2, false);
    let peer = pipe_peer(10, &[(20, 21), (22, 23)]);
    let plan = server.handle_new_conn(0, &peer);
    assert_eq!(
        plan,
        vec![
            to(0, Some(IVSHMEM_PROTOCOL_VERSION), None),
            to(0, Some(0), None),
            to(0, None, Some(3)),
            to(0, Some(0), Some(20)),
            to(0, Some(0), Some(22)),
        ]
    );
    assert!(server.peer(0).is_none());
}

#[test]
fn registration_follows_the_protocol_order() {
    let mut server = Server::new(3, false, 2, 3, false);
    connect(&mut server, 0, pipe_peer(10, &[(20, 21), (22, 23)]));
    connect(&mut server, 2, pipe_peer(12, &[(40, 41), (42, 43)]));
    let peer = pipe_peer(11, &[(30, 31), (32, 33)]);
    let plan = server.handle_new_conn(1, &peer);
    assert_eq!(
        plan,
        vec![
            to(1, Some(0), None),
            to(1, Some(1), None),
            to(1, None, Some(3)),
            to(0, Some(1), Some(31)),
            to(0, Some(1), Some(33)),
            to(2, Some(1), Some(31)),
            to(2, Some(1), Some(33)),
            to(1, Some(0), Some(21)),
            to(1, Some(0), Some(23)),
            to(1, Some(2), Some(41)),
            to(1, Some(2), Some(43)),
            to(1, Some(1), Some(30)),
            to(1, Some(1), Some(32)),
        ]
    );
}

#[test]
fn registration_tags_peers_with_offset_ids() {
    let mut server = Server::new(3, false, 1, 2, true);
    connect(&mut server, 0, eventfd_peer(10, &[20]));
    let plan = server.handle_new_conn(1, &eventfd_peer(11, &[30]));
    assert_eq!(
        plan,
        vec![
            to(1, Some(0), None),
            to(1, Some(2), None),
            to(1, None, Some(3)),
            to(0, Some(2), Some(30)),
            to(1, Some(1), Some(20)),
            to(1, Some(2), Some(30)),
        ]
    );
}

#[test]
fn registration_message_counts() {
    for vectors in 0..4u16 {
        for existing in 0..4usize {
            let mut server = Server::new(3, false, vectors, 5, false);
            let fds: Vec<i32> = (0..vectors as i32).collect();
            for index in 0..existing {
                connect(&mut server, index, eventfd_peer(100 + index as i32, &fds));
            }
            let plan = server.handle_new_conn(4, &eventfd_peer(104, &fds));
            let v = vectors as usize;
            assert_eq!(plan.iter().filter(|m| m.slot == 4).count(), 3 + existing * v + v);
            for index in 0..existing {
                assert_eq!(plan.iter().filter(|m| m.slot == index).count(), v);
            }
            for index in existing..4 {
                assert_eq!(plan.iter().filter(|m| m.slot == index).count(), 0);
            }
            assert_eq!(plan.len(), 3 + 2 * existing * v + v);
        }
    }
}

#[test]
fn register_marks_the_slot_connected() {
    let mut server = Server::new(3, false, 1, 2, false);
    server.register(1, eventfd_peer(11, &[30]));
    assert!(server.peer(0).is_none());
    assert_eq!(server.peer(1), Some(&eventfd_peer(11, &[30])));
    assert_eq!(server.peers(), vec![1]);
    assert_eq!(server.slot_count(), 2);
}

#[test]
fn disconnect_notifies_every_remaining_peer_once() {
    let mut server = Server::new(3, false, 1, 4, false);
    connect(&mut server, 0, eventfd_peer(10, &[20]));
    connect(&mut server, 1, eventfd_peer(11, &[30]));
    connect(&mut server, 3, eventfd_peer(13, &[50]));
    let (departed, plan) = server.handle_disconnect(1);
    assert_eq!(departed, eventfd_peer(11, &[30]));
    assert_eq!(plan, vec![to(0, Some(1), None), to(3, Some(1), None)]);
    assert!(server.peer(1).is_none());
    assert_eq!(server.peers(), vec![0, 3]);
    assert_eq!(server.slot_count(), 4);
}

#[test]
fn disconnect_of_the_only_peer_notifies_nobody() {
    let mut server = Server::new(3, false, 1, 2, true);
    connect(&mut server, 1, eventfd_peer(11, &[30]));
    let (departed, plan) = server.handle_disconnect(1);
    assert_eq!(departed.socket, 11);
    assert_eq!(plan, Vec::<Outgoing>::new());
}

#[test]
fn disconnect_uses_the_offset_id() {
    let mut server = Server::new(3, false, 1, 2, true);
    connect(&mut server, 0, eventfd_peer(10, &[20]));
    connect(&mut server, 1, eventfd_peer(11, &[30]));
    let (_, plan) = server.handle_disconnect(0);
    assert_eq!(plan, vec![to(1, Some(1), None)]);
}

#[test]
fn slot_is_free_again_after_disconnect() {
    let mut server = Server::new(3, false, 1, 2, false);
    connect(&mut server, 0, eventfd_peer(10, &[20]));
    connect(&mut server, 1, eventfd_peer(11, &[30]));
    server.handle_disconnect(0);
    assert_eq!(server.poll_events(0, false, false), Event::Connection(0));
    let plan = connect(&mut server, 0, eventfd_peer(14, &[60]));
    assert_eq!(
        plan,
        vec![
            to(0, Some(0), None),
            to(0, Some(0), None),
            to(0, None, Some(3)),
            to(1, Some(0), Some(60)),
            to(0, Some(1), Some(30)),
            to(0, Some(0), Some(60)),
        ]
    );
    assert_eq!(server.peer(0).unwrap().socket, 14);
}

#[test]
fn slot_count_survives_churn() {
    let mut server = Server::new(3, false, 1, 3, false);
    for round in 0..5 {
        for index in 0..3 {
            connect(&mut server, index, eventfd_peer(10 + index as i32, &[20 + round]));
            assert_eq!(server.slot_count(), 3);
        }
        for index in [1usize, 0, 2] {
            server.handle_disconnect(index);
            assert_eq!(server.slot_count(), 3);
        }
        assert_eq!(server.peers(), Vec::<usize>::new());
    }
}

#[test]
fn readiness_on_a_free_listener_is_a_connection() {
    let mut server = Server::new(3, false, 1, 2, false);
    assert_eq!(server.poll_events(0, false, false), Event::Connection(0));
    assert_eq!(server.poll_events(1, false, false), Event::Connection(1));
    connect(&mut server, 1, eventfd_peer(11, &[30]));
    assert_eq!(server.poll_events(1, false, false), Event::Unexpected);
}

#[test]
fn only_both_closures_together_are_a_disconnect() {
    let mut server = Server::new(3, false, 1, 2, false);
    connect(&mut server, 1, eventfd_peer(11, &[30]));
    assert_eq!(server.poll_events(3, true, true), Event::Disconnect(1));
    assert_eq!(server.poll_events(3, true, false), Event::StillOpen(1));
    assert_eq!(server.poll_events(3, false, true), Event::StillOpen(1));
    assert_eq!(server.poll_events(3, false, false), Event::StillOpen(1));
    assert_eq!(server.poll_events(2, true, true), Event::Unexpected);
    assert_eq!(server.poll_events(4, true, true), Event::Unexpected);
    assert_eq!(server.poll_events(usize::MAX, true, true), Event::Unexpected);
}

#[test]
fn a_peer_that_stirs_without_closing_changes_nothing() {
    let mut server = Server::new(3, false, 1, 2, false);
    connect(&mut server, 0, eventfd_peer(10, &[20]));
    connect(&mut server, 1, eventfd_peer(11, &[30]));
    assert_eq!(server.poll_events(2, false, false), Event::StillOpen(0));
    assert_eq!(server.peers(), vec![0, 1]);
    assert_eq!(server.poll_events(2, true, true), Event::Disconnect(0));
}

#[test]
fn next_power_of_two_agrees_with_std() {
    for size in [0usize, 1, 2, 3, 4, 5, 7, 8, 9, 1023, 1024, 1025, 4 * 1024 * 1024, 4 * 1024 * 1024 + 1] {
        assert_eq!(checked_next_power_of_two(size), size.checked_next_power_of_two());
    }
    let top = 1usize << (usize::BITS - 1);
    assert_eq!(checked_next_power_of_two(top - 1), Some(top));
    assert_eq!(checked_next_power_of_two(top), Some(top));
    assert_eq!(checked_next_power_of_two(top + 1), None);
    assert_eq!(checked_next_power_of_two(usize::MAX), None);
}

#[test]
fn ftruncate_rounds_up_to_a_power_of_two() {
    assert_eq!(ftruncate(0, 4 * 1024 * 1024), Ok(Some(4 * 1024 * 1024)));
    assert_eq!(ftruncate(0, 3000), Ok(Some(4096)));
    assert_eq!(ftruncate(8192, 3000), Ok(Some(4096)));
    assert_eq!(ftruncate(0, 0), Ok(Some(1)));
}

#[test]
fn ftruncate_leaves_a_file_of_the_right_length_alone() {
    assert_eq!(ftruncate(4096, 3000), Ok(None));
    assert_eq!(ftruncate(4096, 4096), Ok(None));
    assert_eq!(ftruncate(1, 0), Ok(None));
    assert_eq!(ftruncate(1, 1), Ok(None));
}

#[test]
fn ftruncate_rejects_a_size_beyond_the_machine() {
    assert_eq!(ftruncate(0, usize::MAX), Err(SizeTooLarge));
}
