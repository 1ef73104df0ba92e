//! HID++ request framing and reply matching for the hidraw transport.

use vstd::prelude::*;
use crate::text::owned;

verus! {

pub const HIDPP_SHORT_REPORT_ID: u8 = 0x10;
pub const HIDPP_LONG_REPORT_ID: u8 = 0x11;
pub const MAX_REQUEST_PARAMS: usize = 16;

/// Software IDs cycle through 1..=15; 0 is never used by this client.
pub open spec fn following_software_id(current: u8) -> u8 {
    if current >= 0x0f { 1 } else { (current + 1) as u8 }
}

/// The software ID that follows `current`.
pub fn next_software_id(current: u8) -> (r: u8)
    ensures
        r == following_software_id(current),
        1 <= r <= 0x0f,
{
    if current >= 0x0f {
        1
    } else {
        current + 1
    }
}

/// Replaces the low nibble of a HID++ 2.0 request ID with the software ID.
pub fn with_software_id(request_id: u16, software_id: u8) -> (r: u16)
    ensures
        r == (request_id & 0xfff0) | ((software_id & 0x0f) as u16),
        r & 0xfff0 == request_id & 0xfff0,
        r & 0x000f == (software_id & 0x0f) as u16,
{
    let r = (request_id & 0xfff0) | ((software_id & 0x0f) as u16);
    assert(r & 0xfff0 == request_id & 0xfff0 && r & 0x000f == (software_id & 0x0f) as u16)
        by (bit_vector)
        requires
            r == (request_id & 0xfff0) | ((software_id & 0x0f) as u16),
    ;
    r
}

pub open spec fn packet_length(report_id: u8) -> nat {
    if report_id == HIDPP_SHORT_REPORT_ID { 7 } else { 20 }
}

/// Byte `i` of the 20-byte request frame.
pub open spec fn frame_byte(report_id: u8, slot: u8, request_id: u16, params: Seq<u8>, i: int) -> u8 {
    if i == 0 {
        report_id
    } else if i == 1 {
        slot
    } else if i == 2 {
        (request_id / 256) as u8
    } else if i == 3 {
        (request_id % 256) as u8
    } else if 4 <= i < 4 + params.len() {
        params[i - 4]
    } else {
        0
    }
}

/// The bytes written for a request: the frame, cut to the report's length.
pub open spec fn request_packet(report_id: u8, slot: u8, request_id: u16, params: Seq<u8>) -> Seq<u8> {
    Seq::new(packet_length(report_id), |i: int| frame_byte(report_id, slot, request_id, params, i))
}

/// Frames a HID++ request; more than 16 parameter bytes are refused.
pub fn build_request_packet(report_id: u8, slot: u8, request_id: u16, params: &[u8]) -> (r: Result<
    Vec<u8>,
    String,
>)
    ensures
        r is Err <==> params@.len() > MAX_REQUEST_PARAMS,
        r matches Ok(packet) ==> packet@ == request_packet(report_id, slot, request_id, params@),
{
    if params.len() > MAX_REQUEST_PARAMS {
        return Err(owned("HID++ request has too many parameters"));
    }
    let length: usize = if report_id == HIDPP_SHORT_REPORT_ID { 7 } else { 20 };
    let mut packet: Vec<u8> = Vec::new();
    let mut i: usize = 0;
    while i < length
        invariant
            length == packet_length(report_id),
            params@.len() <= MAX_REQUEST_PARAMS,
            i <= length,
            packet@.len() == i,
            forall|j: int|
                0 <= j < i ==> packet@[j] == frame_byte(report_id, slot, request_id, params@, j),
        decreases length - i,
    {
        let b = if i == 0 {
            report_id
        } else if i == 1 {
            slot
        } else if i == 2 {
            (request_id / 256) as u8
        } else if i == 3 {
            (request_id % 256) as u8
        } else if i - 4 < params.len() {
            params[i - 4]
        } else {
            0
        };
        packet.push(b);
        i += 1;
    }
    assert(packet@ =~= request_packet(report_id, slot, request_id, params@));
    Ok(packet)
}

/// What a report read while waiting for a reply means for the request.
#[derive(Debug, Clone, PartialEq, Eq)]
pub enum ReplyMatch {
    /// The report belongs to another exchange.
    Unrelated,
    /// The device refused the request with this error code.
    DeviceError(u8),
    /// The receiver refused the request with this error code.
    ReceiverError(u8),
    /// The reply payload, starting after the request ID.
    Reply(Vec<u8>),
}

pub open spec fn byte_or_zero(s: Seq<u8>, i: int) -> u8 {
    if 0 <= i < s.len() { s[i] } else { 0 }
}

pub open spec fn same_request(report: Seq<u8>, request_id: u16) -> bool {
    report[3] == (request_id / 256) as u8 && report[4] == (request_id % 256) as u8
}

/// Whether a report is addressed to `slot` (directly or with the receiver bit flipped).
pub open spec fn from_slot(report: Seq<u8>, slot: u8) -> bool {
    report[1] == slot || report[1] == slot ^ 0xff
}

/// Whether a report echoes the request ID in its bytes 2 and 3.
pub open spec fn echoes_request(report: Seq<u8>, request_id: u16) -> bool {
    report[2] == (request_id / 256) as u8 && report[3] == (request_id % 256) as u8
}

/// The pairing-information query on the receiver is matched on its sub-register too.
pub open spec fn pairing_query_mismatch(report: Seq<u8>, slot: u8, request_id: u16, params: Seq<
    u8,
>) -> bool {
    slot == 0xff && request_id == 0x83b5 && (params.len() == 0 || report[4] != params[0])
}

/// Matches a report read from the device against an outstanding request.
pub fn match_reply(report: &[u8], slot: u8, request_id: u16, params: &[u8]) -> (r: ReplyMatch)
    ensures
        report@.len() < 5 || !from_slot(report@, slot) ==> r == ReplyMatch::Unrelated,
        report@.len() >= 5 && from_slot(report@, slot) ==> {
            if report@[2] == 0xff && same_request(report@, request_id) {
                r == ReplyMatch::DeviceError(byte_or_zero(report@, 5))
            } else if report@[2] == 0x8f && same_request(report@, request_id) {
                r == ReplyMatch::ReceiverError(byte_or_zero(report@, 5))
            } else if echoes_request(report@, request_id) && !pairing_query_mismatch(
                report@,
                slot,
                request_id,
                params@,
            ) {
                r matches ReplyMatch::Reply(payload) && payload@ == report@.subrange(
                    4,
                    report@.len() as int,
                )
            } else {
                r == ReplyMatch::Unrelated
            }
        },
{
    if report.len() < 5 || (report[1] != slot && report[1] != slot ^ 0xff) {
        return ReplyMatch::Unrelated;
    }
    let high = (request_id / 256) as u8;
    let low = (request_id % 256) as u8;
    let code = if report.len() > 5 { report[5] } else { 0 };
    if report[2] == 0xff && report[3] == high && report[4] == low {
        return ReplyMatch::DeviceError(code);
    }
    if report[2] == 0x8f && report[3] == high && report[4] == low {
        return ReplyMatch::ReceiverError(code);
    }
    if report[2] == high && report[3] == low {
        if slot == 0xff && request_id == 0x83b5 && (params.len() == 0 || report[4] != params[0]) {
            return ReplyMatch::Unrelated;
        }
        let mut payload: Vec<u8> = Vec::new();
        let mut i: usize = 4;
        while i < report.len()
            invariant
                4 <= i <= report.len(),
                payload@ == report@.subrange(4, i as int),
            decreases report.len() - i,
        {
            payload.push(report[i]);
            i += 1;
        }
        return ReplyMatch::Reply(payload);
    }
    ReplyMatch::Unrelated
}

} // verus!
