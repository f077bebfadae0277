use ivshmem::cmsg::extract_descriptor;
use ivshmem::cmsg::i64_from_le_bytes;
use ivshmem::cmsg::recv;
use ivshmem::cmsg::send;
use ivshmem::cmsg::ControlRecord;
use ivshmem::cmsg::RecvError;
use ivshmem::cmsg::RightsHeader;

const RIGHTS: RightsHeader = RightsHeader { len: 20, level: 1, kind: 1 };

fn rights_record(fd: i32) -> ControlRecord {
    ControlRecord { len: 20, level: 1, kind: 1, descriptor: fd }
}

#[test]
fn send_spells_the_id_in_little_endian() {
    let datagram = send(Some(0x1234), None, &RIGHTS);
    assert_eq!(datagram.payload, [0x34, 0x12, 0, 0, 0, 0, 0, 0]);
    assert_eq!(datagram.payload, 0x1234i64.to_le_bytes());
    assert!(datagram.control.is_empty());
}

#[test]
fn send_spells_minus_one_for_no_id() {
    let datagram = send(None, Some(7), &RIGHTS);
    assert_eq!(datagram.payload, [0xff; 8]);
    assert_eq!(datagram.payload, (-1i64).to_le_bytes());
    assert_eq!(datagram.control, vec![rights_record(7)]);
}

#[test]
fn send_covers_the_id_range() {
    assert_eq!(send(Some(0), None, &RIGHTS).payload, 0i64.to_le_bytes());
    assert_eq!(send(Some(255), None, &RIGHTS).payload, 255i64.to_le_bytes());
    assert_eq!(send(Some(256), None, &RIGHTS).payload, 256i64.to_le_bytes());
    assert_eq!(send(Some(65535), None, &RIGHTS).payload, 65535i64.to_le_bytes());
}

#[test]
fn message_round_trips() {
    let cases: Vec<(Option<u16>, Option<i32>)> = vec![
        (None, None),
        (None, Some(3)),
        (Some(0), None),
        (Some(0), Some(0)),
        (Some(1), Some(12)),
        (Some(65535), Some(i32::MAX)),
        (Some(300), None),
    ];
    for (peer_id, fd) in cases {
        let datagram = send(peer_id, fd, &RIGHTS);
        assert_eq!(recv(8, &datagram.payload, &datagram.control, &RIGHTS), Ok((peer_id, fd)));
    }
}

#[test]
fn every_id_round_trips() {
    for id in 0..=u16::MAX {
        let datagram = send(Some(id), None, &RIGHTS);
        assert_eq!(recv(8, &datagram.payload, &datagram.control, &RIGHTS), Ok((Some(id), None)));
    }
}

#[test]
fn recv_reads_minus_one_as_no_id() {
    let payload = (-1i64).to_le_bytes();
    assert_eq!(recv(8, &payload, &Vec::new(), &RIGHTS), Ok((None, None)));
}

#[test]
fn recv_rejects_ids_out_of_range() {
    for value in [-2i64, -65536, i64::MIN, 65536, 65537, 1 << 32, i64::MAX] {
        let payload = value.to_le_bytes();
        assert_eq!(recv(8, &payload, &Vec::new(), &RIGHTS), Err(RecvError::InvalidPeerId));
    }
}

#[test]
fn recv_accepts_the_ends_of_the_id_range() {
    assert_eq!(recv(8, &0i64.to_le_bytes(), &Vec::new(), &RIGHTS), Ok((Some(0), None)));
    assert_eq!(recv(8, &65535i64.to_le_bytes(), &Vec::new(), &RIGHTS), Ok((Some(65535), None)));
}

#[test]
fn recv_reports_a_closed_connection() {
    let payload = 5i64.to_le_bytes();
    assert_eq!(recv(0, &payload, &Vec::new(), &RIGHTS), Err(RecvError::LostConnection));
}

#[test]
fn recv_reports_a_short_read() {
    let payload = 5i64.to_le_bytes();
    for ret in [-1isize, 1, 4, 7] {
        assert_eq!(recv(ret, &payload, &Vec::new(), &RIGHTS), Err(RecvError::ShortRead));
    }
}

#[test]
fn recv_checks_the_length_before_the_payload() {
    let payload = (-2i64).to_le_bytes();
    assert_eq!(recv(0, &payload, &Vec::new(), &RIGHTS), Err(RecvError::LostConnection));
    assert_eq!(recv(3, &payload, &Vec::new(), &RIGHTS), Err(RecvError::ShortRead));
    assert_eq!(recv(8, &payload, &Vec::new(), &RIGHTS), Err(RecvError::InvalidPeerId));
}

#[test]
fn recv_takes_the_first_rights_record() {
    let other_level = ControlRecord { len: 20, level: 6, kind: 1, descriptor: 40 };
    let other_kind = ControlRecord { len: 20, level: 1, kind: 2, descriptor: 41 };
    let other_len = ControlRecord { len: 24, level: 1, kind: 1, descriptor: 42 };
    let control = vec![other_level, other_kind, other_len, rights_record(9), rights_record(10)];
    assert_eq!(recv(8, &1i64.to_le_bytes(), &control, &RIGHTS), Ok((Some(1), Some(9))));
    assert_eq!(extract_descriptor(&control, &RIGHTS), Some(9));
}

#[test]
fn recv_without_rights_record_has_no_descriptor() {
    let other = ControlRecord { len: 20, level: 1, kind: 2, descriptor: 41 };
    assert_eq!(recv(8, &1i64.to_le_bytes(), &vec![other], &RIGHTS), Ok((Some(1), None)));
    assert_eq!(extract_descriptor(&Vec::new(), &RIGHTS), None);
}

#[test]
fn record_is_rights_by_all_three_header_values() {
    assert!(rights_record(3).is_rights(&RIGHTS));
    assert!(!ControlRecord { len: 16, level: 1, kind: 1, descriptor: 3 }.is_rights(&RIGHTS));
    assert!(!ControlRecord { len: 20, level: 0, kind: 1, descriptor: 3 }.is_rights(&RIGHTS));
    assert!(!ControlRecord { len: 20, level: 1, kind: 0, descriptor: 3 }.is_rights(&RIGHTS));
}

#[test]
fn i64_from_le_bytes_agrees_with_std() {
    for value in [0i64, 1, -1, 255, 256, 65535, 65536, -2, i64::MAX, i64::MIN, 0x0123_4567_89ab_cdef, -0x0123_4567_89ab_cdef] {
        assert_eq!(i64_from_le_bytes(&value.to_le_bytes()), value);
    }
}
