//! Request assembly: transport header, protocol sub-header, length patch.
//!
//! Every netlink request starts with a 16-byte transport header
//! (length, type, flags, sequence, originator pid) followed by a 4-byte
//! protocol sub-header and the attribute tree.  The length field is written
//! as zero at first and patched with the buffer's exact byte length by
//! `finalize`, once all attributes have been appended.

use vstd::prelude::*;

verus! {

use vstd::bytes::{spec_u16_to_le_bytes, spec_u32_to_le_bytes, u32_to_le_bytes};
use crate::wire::{push_u16_le, push_u32_le};

/// Flag set on every request.
pub const NLM_F_REQUEST: u16 = 0x0001;

/// Flag combination that asks for a multi-message dump response.
pub const NLM_F_DUMP: u16 = 0x0300;

/// Message type of the terminal marker that ends a dump.
pub const NLMSG_DONE: u16 = 3;

/// Message type of an error (or acknowledgement) frame.
pub const NLMSG_ERROR: u16 = 2;

/// Byte size of the transport header.
pub const TRANSPORT_HEADER_LEN: usize = 16;

/// The exact bytes of a transport header.
pub open spec fn spec_transport_header(
    len: u32,
    msg_type: u16,
    flags: u16,
    seqno: u32,
    pid: u32,
) -> Seq<u8> {
    spec_u32_to_le_bytes(len) + spec_u16_to_le_bytes(msg_type) + spec_u16_to_le_bytes(flags)
        + spec_u32_to_le_bytes(seqno) + spec_u32_to_le_bytes(pid)
}

/// The exact bytes of a generic-netlink sub-header: command, version, and a
/// reserved zero u16.
pub open spec fn spec_genl_sub_header(cmd: u8, version: u8) -> Seq<u8> {
    seq![cmd, version, 0u8, 0u8]
}

/// The exact bytes of a netfilter sub-header: address family, version, and a
/// reserved big-endian u16 (which carries the responding CPU id in replies;
/// zero in requests).
pub open spec fn spec_netfilter_sub_header(family: u8, version: u8, res_id: u16) -> Seq<u8> {
    seq![family, version, (res_id / 0x100) as u8, (res_id % 0x100) as u8]
}

/// Starts a request: transport header with a zero length field, followed by
/// the protocol sub-header bytes.
pub fn new_message(msg_type: u16, flags: u16, seqno: u32, sub_header: &[u8]) -> (r: Vec<u8>)
    requires
        sub_header@.len() + TRANSPORT_HEADER_LEN <= usize::MAX,
    ensures
        r@ == spec_transport_header(0, msg_type, flags, seqno, 0) + sub_header@,
        r@.len() == TRANSPORT_HEADER_LEN + sub_header@.len(),
{
    let mut buf: Vec<u8> = Vec::new();
    push_u32_le(&mut buf, 0);
    push_u16_le(&mut buf, msg_type);
    push_u16_le(&mut buf, flags);
    push_u32_le(&mut buf, seqno);
    push_u32_le(&mut buf, 0);
    buf.extend_from_slice(sub_header);
    assert(buf@ =~= spec_transport_header(0, msg_type, flags, seqno, 0) + sub_header@);
    buf
}

/// Builds a generic-netlink sub-header.
pub fn genl_sub_header(cmd: u8, version: u8) -> (r: Vec<u8>)
    ensures
        r@ == spec_genl_sub_header(cmd, version),
{
    let mut buf: Vec<u8> = Vec::new();
    buf.push(cmd);
    buf.push(version);
    buf.push(0);
    buf.push(0);
    assert(buf@ =~= spec_genl_sub_header(cmd, version));
    buf
}

/// Builds a netfilter sub-header with a zero reserved field, as requests
/// carry it.
pub fn netfilter_sub_header(family: u8, version: u8) -> (r: Vec<u8>)
    ensures
        r@ == spec_netfilter_sub_header(family, version, 0),
{
    let mut buf: Vec<u8> = Vec::new();
    buf.push(family);
    buf.push(version);
    buf.push(0);
    buf.push(0);
    assert(buf@ =~= spec_netfilter_sub_header(family, version, 0));
    buf
}

/// Overwrites the length field with the buffer's exact byte length at call
/// time.  Called exactly once, after all attributes are appended and
/// immediately before sending.
pub fn finalize(buf: &mut Vec<u8>)
    requires
        4 <= old(buf)@.len() <= u32::MAX,
    ensures
        final(buf)@ == spec_u32_to_le_bytes(old(buf)@.len() as u32) + old(buf)@.skip(4),
        final(buf)@.len() == old(buf)@.len(),
{
    let total = buf.len() as u32;
    let le = u32_to_le_bytes(total);
    let s = buf.as_mut_slice();
    s[0] = le[0];
    s[1] = le[1];
    s[2] = le[2];
    s[3] = le[3];
    assert(final(buf)@ =~= spec_u32_to_le_bytes(old(buf)@.len() as u32) + old(buf)@.skip(4));
}

} // verus!
