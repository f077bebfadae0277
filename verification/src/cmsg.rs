//! Wire format of the descriptor-passing channel.
//!
//! One logical message is an optional 16-bit peer id and an optional file
//! descriptor. On the wire it is a single socket message: eight payload
//! bytes, a little-endian signed 64-bit integer that is the id or -1, and at
//! most one ancillary record that transfers the descriptor.
//!
//! The system calls themselves are the caller's. This module builds what is
//! handed to the sending call and judges what the receiving call returned.

use vstd::prelude::*;

verus! {

/// One ancillary record of a socket message, as plain values.
#[derive(Clone, Copy, Debug, PartialEq, Eq)]
pub struct ControlRecord {
    /// Length that the record's header states, header included.
    pub len: usize,
    /// Protocol level that the record belongs to.
    pub level: i32,
    /// Type of the record within its level.
    pub kind: i32,
    /// The record's data read as one descriptor; meaningful only in a
    /// descriptor-rights record.
    pub descriptor: i32,
}

/// The header values by which the platform marks a record that transfers a
/// single descriptor.
#[derive(Clone, Copy, Debug, PartialEq, Eq)]
pub struct RightsHeader {
    pub len: usize,
    pub level: i32,
    pub kind: i32,
}

/// What is handed to the sending call: the payload and the ancillary records.
#[derive(Debug, PartialEq, Eq)]
pub struct Datagram {
    pub payload: [u8; 8],
    pub control: Vec<ControlRecord>,
}

/// Why a received message was rejected.
#[derive(Clone, Copy, Debug, PartialEq, Eq)]
pub enum RecvError {
    /// The receiving call failed or delivered fewer than eight payload bytes.
    ShortRead,
    /// The receiving call delivered nothing: the other side has closed.
    LostConnection,
    /// The payload is neither -1 nor a value that fits sixteen bits.
    InvalidPeerId,
}

/// The integer that eight bytes spell in little-endian two's complement.
pub open spec fn le_i64(b: Seq<u8>) -> int
    recommends
        b.len() == 8,
{
    let magnitude = b[0] as int + 0x100 * (b[1] as int) + 0x1_0000 * (b[2] as int) + 0x100_0000
        * (b[3] as int) + 0x1_0000_0000 * (b[4] as int) + 0x100_0000_0000 * (b[5] as int)
        + 0x1_0000_0000_0000 * (b[6] as int) + 0x100_0000_0000_0000 * (b[7] as int);
    if magnitude >= 0x8000_0000_0000_0000 {
        magnitude - 0x1_0000_0000_0000_0000
    } else {
        magnitude
    }
}

/// The integer that stands for an optional peer id on the wire.
pub open spec fn wire_value(peer_id: Option<u16>) -> int {
    match peer_id {
        Some(id) => id as int,
        None => -1,
    }
}

/// The eight payload bytes that carry an optional peer id.
pub open spec fn payload_for(peer_id: Option<u16>) -> Seq<u8> {
    match peer_id {
        Some(id) => seq![(id % 0x100) as u8, (id / 0x100) as u8, 0u8, 0u8, 0u8, 0u8, 0u8, 0u8],
        None => seq![0xffu8, 0xffu8, 0xffu8, 0xffu8, 0xffu8, 0xffu8, 0xffu8, 0xffu8],
    }
}

/// The optional peer id that a wire integer stands for, if it stands for one.
pub open spec fn peer_id_of(value: int) -> Result<Option<u16>, RecvError> {
    if value == -1 {
        Ok(None)
    } else if 0 <= value <= 0xffff {
        Ok(Some(value as u16))
    } else {
        Err(RecvError::InvalidPeerId)
    }
}

impl ControlRecord {
    /// Whether the record's header is that of a descriptor-rights record.
    pub open spec fn carries(self, rights: RightsHeader) -> bool {
        self.len == rights.len && self.level == rights.level && self.kind == rights.kind
    }

    /// Whether the record transfers a descriptor.
    pub fn is_rights(&self, rights: &RightsHeader) -> (r: bool)
        ensures
            r == self.carries(*rights),
    {
        self.len == rights.len && self.level == rights.level && self.kind == rights.kind
    }
}

/// The descriptor of the first descriptor-rights record among `records`.
pub open spec fn first_descriptor(records: Seq<ControlRecord>, rights: RightsHeader) -> Option<
    i32,
>
    decreases records.len(),
{
    if records.len() == 0 {
        None
    } else if records[0].carries(rights) {
        Some(records[0].descriptor)
    } else {
        first_descriptor(records.drop_first(), rights)
    }
}

/// The ancillary records that transfer `fd`: one rights record, or none.
pub open spec fn control_for(fd: Option<i32>, rights: RightsHeader) -> Seq<ControlRecord> {
    match fd {
        Some(fd) => seq![
            (ControlRecord { len: rights.len, level: rights.level, kind: rights.kind, descriptor: fd }),
        ],
        None => Seq::empty(),
    }
}

/// What a receiver makes of a receiving call that returned `ret` and left
/// `buffer` and `control` behind.
pub open spec fn decoded(
    ret: int,
    buffer: Seq<u8>,
    control: Seq<ControlRecord>,
    rights: RightsHeader,
) -> Result<(Option<u16>, Option<i32>), RecvError> {
    if ret == 0 {
        Err(RecvError::LostConnection)
    } else if ret < 8 {
        Err(RecvError::ShortRead)
    } else {
        match peer_id_of(le_i64(buffer)) {
            Ok(peer_id) => Ok((peer_id, first_descriptor(control, rights))),
            Err(e) => Err(e),
        }
    }
}

/// Reads eight bytes as a little-endian signed 64-bit integer.
pub fn i64_from_le_bytes(bytes: &[u8; 8]) -> (value: i64)
    ensures
        value == le_i64(bytes@),
{
    let low: i64 = bytes[0] as i64 + 0x100 * (bytes[1] as i64) + 0x1_0000 * (bytes[2] as i64)
        + 0x100_0000 * (bytes[3] as i64) + 0x1_0000_0000 * (bytes[4] as i64) + 0x100_0000_0000 * (
    bytes[5] as i64) + 0x1_0000_0000_0000 * (bytes[6] as i64);
    let top: i64 = if bytes[7] >= 0x80 {
        bytes[7] as i64 - 0x100
    } else {
        bytes[7] as i64
    };
    0x100_0000_0000_0000 * top + low
}

/// Builds the one socket message that sends `peer_id` and `fd`, for the
/// caller to hand to the sending call.
///
/// The payload spells the id, or -1 where there is none. The descriptor, if
/// any, travels in a single rights record. The descriptor is only named, not
/// consumed: the sender keeps its own handle.
pub fn send(peer_id: Option<u16>, fd: Option<i32>, rights: &RightsHeader) -> (datagram: Datagram)
    ensures
        datagram.payload@ == payload_for(peer_id),
        le_i64(datagram.payload@) == wire_value(peer_id),
        datagram.control@ == control_for(fd, *rights),
{
    let payload: [u8; 8] = match peer_id {
        Some(id) => [(id % 0x100) as u8, (id / 0x100) as u8, 0, 0, 0, 0, 0, 0],
        None => [0xff, 0xff, 0xff, 0xff, 0xff, 0xff, 0xff, 0xff],
    };
    let mut control: Vec<ControlRecord> = Vec::new();
    if let Some(fd) = fd {
        control.push(
            ControlRecord { len: rights.len, level: rights.level, kind: rights.kind, descriptor: fd },
        );
    }
    proof {
        lemma_payload_spells_id(peer_id);
        assert(payload@ =~= payload_for(peer_id));
    }
    Datagram { payload, control }
}

/// Picks the descriptor out of the ancillary records of a received message:
/// that of the first descriptor-rights record, which the receiver then owns.
pub fn extract_descriptor(control: &Vec<ControlRecord>, rights: &RightsHeader) -> (fd: Option<i32>)
    ensures
        fd == first_descriptor(control@, *rights),
{
    let mut i: usize = 0;
    assert(control@.skip(0) =~= control@);
    while i < control.len()
        invariant
            i <= control.len(),
            first_descriptor(control@, *rights) == first_descriptor(
                control@.skip(i as int),
                *rights,
            ),
        decreases control.len() - i,
    {
        let record = &control[i];
        proof {
            let rest = control@.skip(i as int);
            assert(rest[0] == control@[i as int]);
            assert(rest.drop_first() =~= control@.skip(i + 1));
        }
        if record.is_rights(rights) {
            return Some(record.descriptor);
        }
        i += 1;
    }
    None
}

/// Reads the one socket message that a receiving call returned.
///
/// `ret` is the call's return value, `buffer` the eight payload bytes it was
/// given to fill, and `control` the ancillary records it delivered, in order.
/// Nothing delivered means that the connection is lost; a failed call or
/// fewer than eight bytes is a short read. The payload must spell -1, for no
/// id, or an id of sixteen bits. The descriptor is that of the first rights
/// record; the receiver owns it from then on.
pub fn recv(ret: isize, buffer: &[u8; 8], control: &Vec<ControlRecord>, rights: &RightsHeader) -> (r:
    Result<(Option<u16>, Option<i32>), RecvError>)
    ensures
        r == decoded(ret as int, buffer@, control@, *rights),
{
    if ret == 0 {
        return Err(RecvError::LostConnection);
    }
    if ret < 8 {
        return Err(RecvError::ShortRead);
    }
    let value = i64_from_le_bytes(buffer);
    let peer_id = if value == -1 {
        None
    } else if 0 <= value && value <= 0xffff {
        Some(value as u16)
    } else {
        return Err(RecvError::InvalidPeerId);
    };
    Ok((peer_id, extract_descriptor(control, rights)))
}

/// The payload of an optional peer id is eight bytes long and spells the id,
/// or -1 where there is none, as a little-endian signed 64-bit integer.
pub proof fn lemma_payload_spells_id(peer_id: Option<u16>)
    ensures
        payload_for(peer_id).len() == 8,
        le_i64(payload_for(peer_id)) == wire_value(peer_id),
{
}

/// A message that is sent and received whole comes out as it went in, with
/// or without an id and with or without a descriptor.
///
/// The descriptor is compared as the number written into the rights record;
/// the number under which the receiving process holds it is the kernel's
/// choice.
pub proof fn lemma_round_trip(peer_id: Option<u16>, fd: Option<i32>, rights: RightsHeader)
    ensures
        decoded(8, payload_for(peer_id), control_for(fd, rights), rights) == Ok::<
            (Option<u16>, Option<i32>),
            RecvError,
        >((peer_id, fd)),
{
    lemma_payload_spells_id(peer_id);
    if fd is Some {
        assert(control_for(fd, rights)[0].carries(rights));
    }
}

/// A payload that spells -1 is read as a message without an id, and one that
/// spells anything below -1 or above 65535 is rejected.
pub proof fn lemma_payload_range(
    ret: int,
    buffer: Seq<u8>,
    control: Seq<ControlRecord>,
    rights: RightsHeader,
)
    requires
        ret >= 8,
    ensures
        le_i64(buffer) == -1 ==> decoded(ret, buffer, control, rights) == Ok::<
            (Option<u16>, Option<i32>),
            RecvError,
        >((None, first_descriptor(control, rights))),
        le_i64(buffer) < -1 || le_i64(buffer) > 0xffff ==> decoded(ret, buffer, control, rights)
            == Err::<(Option<u16>, Option<i32>), RecvError>(RecvError::InvalidPeerId),
{
}

} // verus!
