use ivshmem::event_notifier::kick;
use ivshmem::event_notifier::u64_from_le_bytes;
use ivshmem::event_notifier::Attempt;
use ivshmem::event_notifier::NotifierError;
use ivshmem::event_notifier::SetFailed;
use ivshmem::event_notifier::DRAIN_LEN;
use ivshmem::EventNotifier;
use std::io::Read;
use std::io::Write;

#[test]
fn counting_object_is_made_of_one_descriptor() {
    let notifier = EventNotifier::new(true, 5, [0, 0]).unwrap();
    assert_eq!(notifier, EventNotifier::Event(5));
    assert_eq!(notifier.rfd(), 5);
    assert_eq!(notifier.wfd(), 5);
}

#[test]
fn counting_object_accepts_descriptor_zero() {
    assert_eq!(EventNotifier::new(true, 0, [8, 9]), Ok(EventNotifier::Event(0)));
}

#[test]
fn counting_object_creation_fails_on_negative_result() {
    assert_eq!(EventNotifier::new(true, -1, [0, 0]), Err(NotifierError::Eventfd(-1)));
}

#[test]
fn pipe_is_made_of_two_descriptors() {
    let notifier = EventNotifier::new(false, 0, [6, 7]).unwrap();
    assert_eq!(notifier, EventNotifier::Pipe { read: 6, write: 7 });
    assert_eq!(notifier.rfd(), 6);
    assert_eq!(notifier.wfd(), 7);
}

#[test]
fn pipe_creation_fails_on_nonzero_result() {
    assert_eq!(EventNotifier::new(false, -1, [6, 7]), Err(NotifierError::Pipe(-1)));
    assert_eq!(EventNotifier::new(false, 1, [6, 7]), Err(NotifierError::Pipe(1)));
}

#[test]
fn kick_is_one_in_little_endian() {
    assert_eq!(kick(), [1, 0, 0, 0, 0, 0, 0, 0]);
    assert_eq!(kick(), 1u64.to_le_bytes());
    assert_eq!(u64_from_le_bytes(&kick()), 1);
}

#[test]
fn u64_from_le_bytes_agrees_with_std() {
    for value in [0u64, 1, 255, 256, u64::MAX, 0x0123_4567_89ab_cdef, 1 << 63] {
        assert_eq!(u64_from_le_bytes(&value.to_le_bytes()), value);
    }
}

#[test]
fn set_writes_the_kick_to_the_send_end() {
    assert_eq!(EventNotifier::Event(4).set(), (4, 1u64.to_le_bytes()));
    assert_eq!(EventNotifier::Pipe { read: 6, write: 7 }.set(), (7, 1u64.to_le_bytes()));
}

#[test]
fn set_retries_only_when_interrupted() {
    assert_eq!(EventNotifier::set_done(-1, true), Attempt::Retry);
    assert_eq!(EventNotifier::set_done(-1, false), Attempt::Done(Err(SetFailed)));
    assert_eq!(EventNotifier::set_done(8, false), Attempt::Done(Ok(())));
    assert_eq!(EventNotifier::set_done(8, true), Attempt::Done(Ok(())));
    assert_eq!(EventNotifier::set_done(0, true), Attempt::Done(Ok(())));
}

#[test]
fn test_and_clear_reads_from_the_receive_end() {
    assert_eq!(DRAIN_LEN, 512);
    assert_eq!(EventNotifier::Event(4).test_and_clear(), (4, 512));
    assert_eq!(EventNotifier::Pipe { read: 6, write: 7 }.test_and_clear(), (6, 512));
}

#[test]
fn test_and_clear_reports_whether_bytes_were_read() {
    assert_eq!(EventNotifier::test_and_clear_done(8, false), Attempt::Done(true));
    assert_eq!(EventNotifier::test_and_clear_done(512, true), Attempt::Done(true));
    assert_eq!(EventNotifier::test_and_clear_done(0, false), Attempt::Done(false));
    assert_eq!(EventNotifier::test_and_clear_done(-1, false), Attempt::Done(false));
    assert_eq!(EventNotifier::test_and_clear_done(-1, true), Attempt::Retry);
}

#[test]
fn pipe_doorbell_rung_once_is_found_rung() {
    let (mut reader, mut writer) = std::io::pipe().unwrap();
    let notifier = EventNotifier::new(false, 0, [3, 4]).unwrap();
    let (_, payload) = notifier.set();
    let written = writer.write(&payload).unwrap();
    assert_eq!(EventNotifier::set_done(written as isize, false), Attempt::Done(Ok(())));
    let (_, capacity) = notifier.test_and_clear();
    let mut buffer = vec![0u8; capacity];
    let len = reader.read(&mut buffer).unwrap();
    assert_eq!(len, 8);
    assert_eq!(EventNotifier::test_and_clear_done(len as isize, false), Attempt::Done(true));
    assert_eq!(&buffer[..8], &1u64.to_le_bytes());
}
