//! Ethtool statistics over generic netlink: family resolution, the string
//! catalog and statistics dump requests, the decoding of their replies, and
//! the join of raw stat indices to names.
//!
//! Generic netlink multiplexes dynamically registered families; the
//! `ethtool` family id must be resolved by name through the control family
//! before either request can be sent.  The string catalog request names the
//! device and lists the five statistics stringset ids; the statistics
//! request names the device and selects the same five categories through a
//! no-mask bitset of named bits.  Reply payloads carry a generic-netlink
//! sub-header and a nested attribute tree.

use vstd::prelude::*;

verus! {

use vstd::bytes::{
    spec_u16_from_le_bytes, spec_u32_from_le_bytes, spec_u32_to_le_bytes, spec_u16_to_le_bytes,
    spec_u64_from_le_bytes, lemma_auto_spec_u16_to_from_le_bytes,
    lemma_auto_spec_u32_to_from_le_bytes,
};
use vstd::string::{StringSliceAdditionalSpecFns, StringExecFns};
use vstd::utf8::{encode_utf8, is_ascii_chars, is_ascii_chars_encode_utf8};
use crate::codec::{
    spec_attribute, spec_parse_attributes, spec_attr_views, lemma_attribute_len,
    lemma_end_nested_shape, append_attribute, append_u32_attribute, append_string_attribute,
    begin_nested, end_nested, parse_attributes, NESTED_FLAG,
};
use crate::error::NetlinkError;
use crate::message::{
    spec_transport_header, spec_genl_sub_header, new_message, genl_sub_header, finalize,
    NLM_F_REQUEST, NLM_F_DUMP,
};

/// Netlink protocol family of generic netlink (used when the socket is
/// opened).
pub const NETLINK_GENERIC: i32 = 16;

/// The fixed id of the generic-netlink control family.
pub const GENL_ID_CTRL: u16 = 0x10;

/// Control command: get family by name.
pub const CTRL_CMD_GETFAMILY: u8 = 3;

/// Control attribute: the numeric family id.
pub const CTRL_ATTR_FAMILY_ID: u16 = 1;

/// Control attribute: the family name.
pub const CTRL_ATTR_FAMILY_NAME: u16 = 2;

/// Interface version carried in every ethtool request.
pub const ETHTOOL_GENL_VERSION: u8 = 1;

/// Ethtool command: get string sets.
pub const ETHTOOL_MSG_STRSET_GET: u8 = 1;

/// Ethtool command: get statistics.
pub const ETHTOOL_MSG_STATS_GET: u8 = 32;

pub const ETHTOOL_A_HEADER_DEV_NAME: u16 = 2;

pub const ETHTOOL_A_STRSET_HEADER: u16 = 1;

pub const ETHTOOL_A_STRSET_STRINGSETS: u16 = 2;

pub const ETHTOOL_A_STRINGSETS_STRINGSET: u16 = 1;

pub const ETHTOOL_A_STRINGSET_ID: u16 = 1;

pub const ETHTOOL_A_STRINGSET_STRINGS: u16 = 3;

pub const ETHTOOL_A_STRINGS_STRING: u16 = 1;

pub const ETHTOOL_A_STRING_INDEX: u16 = 1;

pub const ETHTOOL_A_STRING_VALUE: u16 = 2;

pub const ETHTOOL_A_STATS_HEADER: u16 = 2;

pub const ETHTOOL_A_STATS_GROUPS: u16 = 3;

pub const ETHTOOL_A_STATS_GRP: u16 = 4;

pub const ETHTOOL_A_STATS_GRP_ID: u16 = 2;

pub const ETHTOOL_A_STATS_GRP_SS_ID: u16 = 3;

pub const ETHTOOL_A_STATS_GRP_STAT: u16 = 4;

pub const ETHTOOL_A_BITSET_NOMASK: u16 = 1;

pub const ETHTOOL_A_BITSET_BITS: u16 = 3;

pub const ETHTOOL_A_BITSET_BIT: u16 = 1;

pub const ETHTOOL_A_BITSET_BIT_NAME: u16 = 2;

pub const ETHTOOL_A_BITSET_BIT_VALUE: u16 = 3;

/// The five ethtool statistics stringset ids: physical layer, MAC, control,
/// RMON, generic PHY.
pub const ETH_SS_STATS_ETH_PHY: u32 = 17;

pub const ETH_SS_STATS_ETH_MAC: u32 = 18;

pub const ETH_SS_STATS_ETH_CTRL: u32 = 19;

pub const ETH_SS_STATS_RMON: u32 = 20;

pub const ETH_SS_STATS_PHY: u32 = 21;

/// The device-name header attribute: the interface name, NUL-terminated.
pub open spec fn spec_dev_header(dev: Seq<char>) -> Seq<u8> {
    spec_attribute(ETHTOOL_A_HEADER_DEV_NAME, encode_utf8(dev) + seq![0u8])
}

/// The family-resolution request: a control-family "get family" message
/// carrying the `ethtool` family name as a string attribute.
pub open spec fn spec_family_request(seqno: u32) -> Seq<u8> {
    let attr = spec_attribute(CTRL_ATTR_FAMILY_NAME, encode_utf8("ethtool"@) + seq![0u8]);
    spec_transport_header((20 + attr.len()) as u32, GENL_ID_CTRL, NLM_F_REQUEST, seqno, 0)
        + spec_genl_sub_header(CTRL_CMD_GETFAMILY, 1) + attr
}

/// Builds the family-resolution request.
pub fn build_family_request(seqno: u32) -> (r: Vec<u8>)
    ensures
        r@ == spec_family_request(seqno),
{
    proof {
        reveal_strlit("ethtool");
        assert(is_ascii_chars("ethtool"@));
        is_ascii_chars_encode_utf8("ethtool"@);
    }
    let sub = genl_sub_header(CTRL_CMD_GETFAMILY, 1);
    let mut msg = new_message(GENL_ID_CTRL, NLM_F_REQUEST, seqno, sub.as_slice());
    append_string_attribute(&mut msg, CTRL_ATTR_FAMILY_NAME, "ethtool");
    proof {
        lemma_attribute_len(CTRL_ATTR_FAMILY_NAME, encode_utf8("ethtool"@) + seq![0u8]);
    }
    finalize(&mut msg);
    proof {
        lemma_auto_spec_u16_to_from_le_bytes();
        lemma_auto_spec_u32_to_from_le_bytes();
    }
    assert(msg@ =~= spec_family_request(seqno));
    msg
}

/// One requested stringset id, wrapped in its nested list entry.
pub open spec fn spec_stringset_entry(id: u32) -> Seq<u8> {
    spec_attribute(
        ETHTOOL_A_STRINGSETS_STRINGSET | NESTED_FLAG,
        spec_attribute(ETHTOOL_A_STRINGSET_ID, spec_u32_to_le_bytes(id)),
    )
}

/// Appends one nested stringset list entry holding the set id.
fn append_stringset_entry(buf: &mut Vec<u8>, id: u32)
    requires
        old(buf)@.len() + 16 <= usize::MAX,
    ensures
        final(buf)@ == old(buf)@ + spec_stringset_entry(id),
        final(buf)@.len() == old(buf)@.len() + 12,
{
    proof {
        lemma_auto_spec_u32_to_from_le_bytes();
        lemma_attribute_len(ETHTOOL_A_STRINGSET_ID, spec_u32_to_le_bytes(id));
        lemma_attribute_len(
            ETHTOOL_A_STRINGSETS_STRINGSET | NESTED_FLAG,
            spec_attribute(ETHTOOL_A_STRINGSET_ID, spec_u32_to_le_bytes(id)),
        );
    }
    let ghost prefix = buf@;
    let marker = begin_nested(buf, ETHTOOL_A_STRINGSETS_STRINGSET);
    append_u32_attribute(buf, ETHTOOL_A_STRINGSET_ID, id);
    let ghost children = spec_attribute(ETHTOOL_A_STRINGSET_ID, spec_u32_to_le_bytes(id));
    let ghost before = buf@;
    assert(before =~= prefix + spec_u16_to_le_bytes(0) + spec_u16_to_le_bytes(
        ETHTOOL_A_STRINGSETS_STRINGSET | NESTED_FLAG,
    ) + children) by {
        lemma_auto_spec_u16_to_from_le_bytes();
    }
    end_nested(buf, marker);
    proof {
        lemma_end_nested_shape(before, buf@, prefix, ETHTOOL_A_STRINGSETS_STRINGSET, children);
        lemma_attribute_len(ETHTOOL_A_STRINGSETS_STRINGSET | NESTED_FLAG, children);
    }
}

/// The string catalog request body: a header naming the device and the
/// nested list of the five statistics stringset ids.
pub open spec fn spec_strset_request_body(dev: Seq<char>) -> Seq<u8> {
    spec_attribute(ETHTOOL_A_STRSET_HEADER | NESTED_FLAG, spec_dev_header(dev)) + spec_attribute(
        ETHTOOL_A_STRSET_STRINGSETS | NESTED_FLAG,
        spec_stringset_entry(ETH_SS_STATS_ETH_PHY) + spec_stringset_entry(ETH_SS_STATS_ETH_MAC)
            + spec_stringset_entry(ETH_SS_STATS_ETH_CTRL) + spec_stringset_entry(
            ETH_SS_STATS_RMON,
        ) + spec_stringset_entry(ETH_SS_STATS_PHY),
    )
}

/// The complete string catalog request for one device.
pub open spec fn spec_strset_request(family_id: u16, seqno: u32, dev: Seq<char>) -> Seq<u8> {
    let body = spec_strset_request_body(dev);
    spec_transport_header(
        (20 + body.len()) as u32,
        family_id,
        NLM_F_REQUEST | NLM_F_DUMP,
        seqno,
        0,
    ) + spec_genl_sub_header(ETHTOOL_MSG_STRSET_GET, ETHTOOL_GENL_VERSION) + body
}

/// Appends the device-name header attribute tree.
fn append_dev_header(buf: &mut Vec<u8>, header_type: u16, dev: &str)
    requires
        dev.spec_bytes().len() <= 256,
        old(buf)@.len() + dev.spec_bytes().len() + 32 <= usize::MAX,
    ensures
        final(buf)@ == old(buf)@ + spec_attribute(header_type | NESTED_FLAG, spec_dev_header(dev@)),
        final(buf)@.len() <= old(buf)@.len() + dev.spec_bytes().len() + 16,
{
    proof {
        lemma_attribute_len(ETHTOOL_A_HEADER_DEV_NAME, dev.spec_bytes() + seq![0u8]);
    }
    let ghost prefix = buf@;
    let marker = begin_nested(buf, header_type);
    append_string_attribute(buf, ETHTOOL_A_HEADER_DEV_NAME, dev);
    let ghost children = spec_dev_header(dev@);
    let ghost before = buf@;
    assert(before =~= prefix + spec_u16_to_le_bytes(0) + spec_u16_to_le_bytes(
        header_type | NESTED_FLAG,
    ) + children) by {
        lemma_auto_spec_u16_to_from_le_bytes();
    }
    end_nested(buf, marker);
    proof {
        lemma_end_nested_shape(before, buf@, prefix, header_type, children);
        lemma_attribute_len(header_type | NESTED_FLAG, children);
    }
}

/// Builds the string catalog dump request for one device.
pub fn build_strset_request(family_id: u16, seqno: u32, dev: &str) -> (r: Vec<u8>)
    requires
        dev.spec_bytes().len() <= 256,
    ensures
        r@ == spec_strset_request(family_id, seqno, dev@),
{
    let sub = genl_sub_header(ETHTOOL_MSG_STRSET_GET, ETHTOOL_GENL_VERSION);
    let mut msg = new_message(family_id, NLM_F_REQUEST | NLM_F_DUMP, seqno, sub.as_slice());
    append_dev_header(&mut msg, ETHTOOL_A_STRSET_HEADER, dev);
    let ghost prefix = msg@;
    let marker = begin_nested(&mut msg, ETHTOOL_A_STRSET_STRINGSETS);
    append_stringset_entry(&mut msg, ETH_SS_STATS_ETH_PHY);
    append_stringset_entry(&mut msg, ETH_SS_STATS_ETH_MAC);
    append_stringset_entry(&mut msg, ETH_SS_STATS_ETH_CTRL);
    append_stringset_entry(&mut msg, ETH_SS_STATS_RMON);
    append_stringset_entry(&mut msg, ETH_SS_STATS_PHY);
    let ghost children = spec_stringset_entry(ETH_SS_STATS_ETH_PHY) + spec_stringset_entry(
        ETH_SS_STATS_ETH_MAC,
    ) + spec_stringset_entry(ETH_SS_STATS_ETH_CTRL) + spec_stringset_entry(ETH_SS_STATS_RMON)
        + spec_stringset_entry(ETH_SS_STATS_PHY);
    let ghost before = msg@;
    assert(before =~= prefix + spec_u16_to_le_bytes(0) + spec_u16_to_le_bytes(
        ETHTOOL_A_STRSET_STRINGSETS | NESTED_FLAG,
    ) + children) by {
        lemma_auto_spec_u16_to_from_le_bytes();
    }
    end_nested(&mut msg, marker);
    proof {
        lemma_end_nested_shape(before, msg@, prefix, ETHTOOL_A_STRSET_STRINGSETS, children);
        lemma_attribute_len(ETHTOOL_A_STRSET_STRINGSETS | NESTED_FLAG, children);
    }
    finalize(&mut msg);
    proof {
        lemma_auto_spec_u16_to_from_le_bytes();
        lemma_auto_spec_u32_to_from_le_bytes();
    }
    assert(msg@ =~= spec_strset_request(family_id, seqno, dev@));
    msg
}

/// One selected category in the bitset: a nested bit carrying its name and
/// an empty value, the form that marks the bit present under a no-mask
/// bitset.
pub open spec fn spec_bitset_bit(name: Seq<char>) -> Seq<u8> {
    spec_attribute(
        ETHTOOL_A_BITSET_BIT | NESTED_FLAG,
        spec_attribute(ETHTOOL_A_BITSET_BIT_NAME, encode_utf8(name) + seq![0u8]) + spec_attribute(
            ETHTOOL_A_BITSET_BIT_VALUE,
            seq![],
        ),
    )
}

/// Appends one named bit to the bitset's bit list.
fn append_bitset_bit(buf: &mut Vec<u8>, name: &str)
    requires
        name.spec_bytes().len() <= 64,
        old(buf)@.len() + name.spec_bytes().len() + 32 <= usize::MAX,
    ensures
        final(buf)@ == old(buf)@ + spec_bitset_bit(name@),
        final(buf)@.len() <= old(buf)@.len() + name.spec_bytes().len() + 16,
{
    proof {
        lemma_attribute_len(ETHTOOL_A_BITSET_BIT_NAME, name.spec_bytes() + seq![0u8]);
        lemma_attribute_len(ETHTOOL_A_BITSET_BIT_VALUE, seq![]);
    }
    let ghost prefix = buf@;
    let marker = begin_nested(buf, ETHTOOL_A_BITSET_BIT);
    append_string_attribute(buf, ETHTOOL_A_BITSET_BIT_NAME, name);
    let empty: [u8; 0] = [];
    append_attribute(buf, ETHTOOL_A_BITSET_BIT_VALUE, empty.as_slice());
    let ghost children = spec_attribute(ETHTOOL_A_BITSET_BIT_NAME, name.spec_bytes() + seq![0u8])
        + spec_attribute(ETHTOOL_A_BITSET_BIT_VALUE, seq![]);
    let ghost before = buf@;
    assert(before =~= prefix + spec_u16_to_le_bytes(0) + spec_u16_to_le_bytes(
        ETHTOOL_A_BITSET_BIT | NESTED_FLAG,
    ) + children) by {
        lemma_auto_spec_u16_to_from_le_bytes();
    }
    end_nested(buf, marker);
    proof {
        lemma_end_nested_shape(before, buf@, prefix, ETHTOOL_A_BITSET_BIT, children);
        lemma_attribute_len(ETHTOOL_A_BITSET_BIT | NESTED_FLAG, children);
    }
}

/// The five category names selected by the statistics request's bitset.
pub open spec fn spec_stats_bits() -> Seq<u8> {
    spec_bitset_bit("eth-phy"@) + spec_bitset_bit("eth-mac"@) + spec_bitset_bit("eth-ctrl"@)
        + spec_bitset_bit("rmon"@) + spec_bitset_bit("phy"@)
}

/// The statistics request body: a header naming the device and a group
/// selection bitset: the no-mask flag plus the nested list of named bits.
pub open spec fn spec_stats_request_body(dev: Seq<char>) -> Seq<u8> {
    spec_attribute(ETHTOOL_A_STATS_HEADER | NESTED_FLAG, spec_dev_header(dev)) + spec_attribute(
        ETHTOOL_A_STATS_GROUPS | NESTED_FLAG,
        spec_attribute(ETHTOOL_A_BITSET_NOMASK, seq![]) + spec_attribute(
            ETHTOOL_A_BITSET_BITS | NESTED_FLAG,
            spec_stats_bits(),
        ),
    )
}

/// The complete statistics request for one device.
pub open spec fn spec_stats_request(family_id: u16, seqno: u32, dev: Seq<char>) -> Seq<u8> {
    let body = spec_stats_request_body(dev);
    spec_transport_header(
        (20 + body.len()) as u32,
        family_id,
        NLM_F_REQUEST | NLM_F_DUMP,
        seqno,
        0,
    ) + spec_genl_sub_header(ETHTOOL_MSG_STATS_GET, ETHTOOL_GENL_VERSION) + body
}

/// Builds the bitset-filtered statistics dump request for one device.
#[verifier::rlimit(60)]
pub fn build_stats_request(family_id: u16, seqno: u32, dev: &str) -> (r: Vec<u8>)
    requires
        dev.spec_bytes().len() <= 256,
    ensures
        r@ == spec_stats_request(family_id, seqno, dev@),
{
    proof {
        reveal_strlit("eth-phy");
        reveal_strlit("eth-mac");
        reveal_strlit("eth-ctrl");
        reveal_strlit("rmon");
        reveal_strlit("phy");
        assert(is_ascii_chars("eth-phy"@));
        assert(is_ascii_chars("eth-mac"@));
        assert(is_ascii_chars("eth-ctrl"@));
        assert(is_ascii_chars("rmon"@));
        assert(is_ascii_chars("phy"@));
        is_ascii_chars_encode_utf8("eth-phy"@);
        is_ascii_chars_encode_utf8("eth-mac"@);
        is_ascii_chars_encode_utf8("eth-ctrl"@);
        is_ascii_chars_encode_utf8("rmon"@);
        is_ascii_chars_encode_utf8("phy"@);
    }
    let sub = genl_sub_header(ETHTOOL_MSG_STATS_GET, ETHTOOL_GENL_VERSION);
    let mut msg = new_message(family_id, NLM_F_REQUEST | NLM_F_DUMP, seqno, sub.as_slice());
    append_dev_header(&mut msg, ETHTOOL_A_STATS_HEADER, dev);
    let ghost prefix_groups = msg@;
    let groups = begin_nested(&mut msg, ETHTOOL_A_STATS_GROUPS);
    let empty: [u8; 0] = [];
    append_attribute(&mut msg, ETHTOOL_A_BITSET_NOMASK, empty.as_slice());
    proof {
        lemma_attribute_len(ETHTOOL_A_BITSET_NOMASK, seq![]);
    }
    let ghost prefix_bits = msg@;
    let bits = begin_nested(&mut msg, ETHTOOL_A_BITSET_BITS);
    append_bitset_bit(&mut msg, "eth-phy");
    append_bitset_bit(&mut msg, "eth-mac");
    append_bitset_bit(&mut msg, "eth-ctrl");
    append_bitset_bit(&mut msg, "rmon");
    append_bitset_bit(&mut msg, "phy");
    let ghost bits_children = spec_stats_bits();
    let ghost before_bits = msg@;
    assert(before_bits =~= prefix_bits + spec_u16_to_le_bytes(0) + spec_u16_to_le_bytes(
        ETHTOOL_A_BITSET_BITS | NESTED_FLAG,
    ) + bits_children) by {
        lemma_auto_spec_u16_to_from_le_bytes();
    }
    end_nested(&mut msg, bits);
    proof {
        lemma_end_nested_shape(before_bits, msg@, prefix_bits, ETHTOOL_A_BITSET_BITS, bits_children);
        lemma_attribute_len(ETHTOOL_A_BITSET_BITS | NESTED_FLAG, bits_children);
    }
    let ghost groups_children = spec_attribute(ETHTOOL_A_BITSET_NOMASK, seq![]) + spec_attribute(
        ETHTOOL_A_BITSET_BITS | NESTED_FLAG,
        bits_children,
    );
    let ghost before_groups = msg@;
    assert(before_groups =~= prefix_groups + spec_u16_to_le_bytes(0) + spec_u16_to_le_bytes(
        ETHTOOL_A_STATS_GROUPS | NESTED_FLAG,
    ) + groups_children) by {
        lemma_auto_spec_u16_to_from_le_bytes();
    }
    end_nested(&mut msg, groups);
    proof {
        lemma_end_nested_shape(
            before_groups,
            msg@,
            prefix_groups,
            ETHTOOL_A_STATS_GROUPS,
            groups_children,
        );
        lemma_attribute_len(ETHTOOL_A_STATS_GROUPS | NESTED_FLAG, groups_children);
    }
    finalize(&mut msg);
    proof {
        lemma_auto_spec_u16_to_from_le_bytes();
        lemma_auto_spec_u32_to_from_le_bytes();
    }
    assert(msg@ =~= spec_stats_request(family_id, seqno, dev@));
    msg
}

/// The value of a u32 attribute payload: its first four little-endian
/// bytes, or nothing when it is shorter.
pub open spec fn spec_parse_u32_attr(p: Seq<u8>) -> Option<u32> {
    if p.len() >= 4 {
        Some(spec_u32_from_le_bytes(p.take(4)))
    } else {
        None
    }
}

/// The value of a u16 attribute payload.
pub open spec fn spec_parse_u16_attr(p: Seq<u8>) -> Option<u16> {
    if p.len() >= 2 {
        Some(spec_u16_from_le_bytes(p.take(2)))
    } else {
        None
    }
}

/// Reads a u32 attribute payload.
pub fn parse_u32(data: &[u8]) -> (r: Option<u32>)
    ensures
        r == spec_parse_u32_attr(data@),
{
    if data.len() >= 4 {
        assert(data@.subrange(0, 4) =~= data@.take(4));
        Some(crate::wire::read_u32_le(data, 0))
    } else {
        None
    }
}

/// Reads a u16 attribute payload.
pub fn parse_u16(data: &[u8]) -> (r: Option<u16>)
    ensures
        r == spec_parse_u16_attr(data@),
{
    if data.len() >= 2 {
        assert(data@.subrange(0, 2) =~= data@.take(2));
        Some(crate::wire::read_u16_le(data, 0))
    } else {
        None
    }
}

/// The first family-id attribute with a full u16 payload, scanning the
/// attribute list front to back.
pub open spec fn spec_family_in_attrs(attrs: Seq<(u16, Seq<u8>)>) -> Option<u16>
    decreases attrs.len(),
{
    if attrs.len() == 0 {
        None
    } else if attrs.first().0 == CTRL_ATTR_FAMILY_ID && attrs.first().1.len() >= 2 {
        Some(spec_u16_from_le_bytes(attrs.first().1.take(2)))
    } else {
        spec_family_in_attrs(attrs.drop_first())
    }
}

/// The family id the control family's replies carry: the first family-id
/// attribute found in any reply, in order.
pub open spec fn spec_family_id(ps: Seq<Seq<u8>>) -> Option<u16>
    decreases ps.len(),
{
    if ps.len() == 0 {
        None
    } else {
        let head = if ps.first().len() >= 4 {
            spec_family_in_attrs(spec_parse_attributes(ps.first().skip(4)))
        } else {
            None
        };
        if head is Some {
            head
        } else {
            spec_family_id(ps.drop_first())
        }
    }
}

/// Scans the control family's reply payloads for the numeric family id.
/// The id is absent exactly when no reply carries a family-id attribute,
/// which is how an unloaded kernel module answers.
#[verifier::loop_isolation(false)]
pub fn resolve_family(payloads: &Vec<Vec<u8>>) -> (r: Result<u16, NetlinkError>)
    ensures
        r is Ok <==> spec_family_id(crate::dump::spec_payload_views(payloads@)) is Some,
        r matches Ok(id) ==> spec_family_id(crate::dump::spec_payload_views(payloads@)) == Some(
            id,
        ),
        r matches Err(e) ==> e == NetlinkError::FamilyNotFound,
{
    let ghost views = crate::dump::spec_payload_views(payloads@);
    let n = payloads.len();
    let mut i: usize = 0;
    assert(views.skip(0) =~= views);
    while i < n
        invariant
            i <= n,
            n == payloads@.len(),
            views == crate::dump::spec_payload_views(payloads@),
            spec_family_id(views) == spec_family_id(views.skip(i as int)),
        decreases n - i,
    {
        let reply = payloads[i].as_slice();
        assert(views.skip(i as int).first() == views[i as int]);
        assert(views.skip(i as int).drop_first() =~= views.skip(i + 1));
        assert(views[i as int] == payloads@[i as int]@);
        if reply.len() >= 4 {
            let rlen = reply.len();
            assert(reply@.subrange(4, rlen as int) =~= views[i as int].skip(4));
            let attrs = parse_attributes(vstd::slice::slice_subrange(reply, 4, rlen));
            let ghost aviews = spec_attr_views(attrs@);
            assert(aviews == spec_parse_attributes(views[i as int].skip(4)));
            let count = attrs.len();
            let mut j: usize = 0;
            assert(aviews.skip(0) =~= aviews);
            while j < count
                invariant
                    j <= count,
                    count == attrs@.len(),
                    aviews == spec_attr_views(attrs@),
                    spec_family_in_attrs(aviews) == spec_family_in_attrs(aviews.skip(j as int)),
                decreases count - j,
            {
                assert(aviews.skip(j as int).first() == aviews[j as int]);
                assert(aviews.skip(j as int).drop_first() =~= aviews.skip(j + 1));
                assert(aviews[j as int] == (attrs@[j as int].0, attrs@[j as int].1@));
                if attrs[j].0 == CTRL_ATTR_FAMILY_ID {
                    match parse_u16(attrs[j].1.as_slice()) {
                        Some(id) => {
                            return Ok(id);
                        },
                        None => {},
                    }
                }
                j = j + 1;
            }
        }
        i = i + 1;
    }
    Err(NetlinkError::FamilyNotFound)
}

/// The first device-name attribute of a request or reply header, decoded as
/// a NUL-terminated string; scanning front to back.  The outer option tells
/// a missing attribute apart from one whose bytes are not a string.
pub open spec fn spec_first_dev_name(attrs: Seq<(u16, Seq<u8>)>) -> Option<Option<Seq<char>>>
    decreases attrs.len(),
{
    if attrs.len() == 0 {
        None
    } else if attrs.first().0 == ETHTOOL_A_HEADER_DEV_NAME {
        Some(crate::strutil::spec_parse_string(attrs.first().1))
    } else {
        spec_first_dev_name(attrs.drop_first())
    }
}

/// The device name a header attribute tree names, if any.
pub open spec fn spec_header_name(b: Seq<u8>) -> Option<Seq<char>> {
    match spec_first_dev_name(spec_parse_attributes(b)) {
        Some(name) => name,
        None => None,
    }
}

/// Extracts the device name from a header attribute tree.
#[verifier::loop_isolation(false)]
pub fn extract_header_name(header_payload: &[u8]) -> (r: Option<String>)
    ensures
        r is Some <==> spec_header_name(header_payload@) is Some,
        r matches Some(s) ==> spec_header_name(header_payload@) == Some(s@),
{
    let attrs = parse_attributes(header_payload);
    let ghost aviews = spec_attr_views(attrs@);
    let count = attrs.len();
    let mut j: usize = 0;
    assert(aviews.skip(0) =~= aviews);
    while j < count
        invariant
            j <= count,
            count == attrs@.len(),
            aviews == spec_attr_views(attrs@),
            spec_first_dev_name(aviews) == spec_first_dev_name(aviews.skip(j as int)),
        decreases count - j,
    {
        assert(aviews.skip(j as int).first() == aviews[j as int]);
        assert(aviews.skip(j as int).drop_first() =~= aviews.skip(j + 1));
        assert(aviews[j as int] == (attrs@[j as int].0, attrs@[j as int].1@));
        if attrs[j].0 == ETHTOOL_A_HEADER_DEV_NAME {
            return crate::strutil::parse_string(attrs[j].1.as_slice());
        }
        j = j + 1;
    }
    None
}

/// The view of an optional owned string.
pub open spec fn spec_opt_str_view(x: Option<String>) -> Option<Seq<char>> {
    match x {
        Some(s) => Some(s@),
        None => None,
    }
}

/// The view of a list of owned strings.
pub open spec fn spec_string_views(v: Seq<String>) -> Seq<Seq<char>> {
    v.map_values(|s: String| s@)
}

/// The index and value fields of one string entry, folding its attributes
/// in order: a later occurrence of either field overwrites the earlier.
pub open spec fn spec_string_fields(attrs: Seq<(u16, Seq<u8>)>) -> (
    Option<u32>,
    Option<Seq<char>>,
)
    decreases attrs.len(),
{
    if attrs.len() == 0 {
        (None, None)
    } else {
        let prev = spec_string_fields(attrs.drop_last());
        let t = attrs.last().0;
        let p = attrs.last().1;
        if t == ETHTOOL_A_STRING_INDEX {
            (spec_parse_u32_attr(p), prev.1)
        } else if t == ETHTOOL_A_STRING_VALUE {
            (prev.0, crate::strutil::spec_parse_string(p))
        } else {
            prev
        }
    }
}

/// How one string entry changes a catalog's string list: when it carries
/// both an index and a value, the list grows with empty strings up to the
/// index and the value lands there; otherwise the list is unchanged.
pub open spec fn spec_apply_string(strings: Seq<Seq<char>>, entry: Seq<u8>) -> Seq<Seq<char>> {
    let f = spec_string_fields(spec_parse_attributes(entry));
    if f.0 is Some && f.1 is Some {
        let idx = f.0.unwrap() as int;
        let padded = if strings.len() <= idx {
            strings + Seq::new((idx + 1 - strings.len()) as nat, |k: int| Seq::<char>::empty())
        } else {
            strings
        };
        padded.update(idx, f.1.unwrap())
    } else {
        strings
    }
}

/// Folds a strings-list payload's entries into a string list.
pub open spec fn spec_apply_strings_list(
    strings: Seq<Seq<char>>,
    attrs: Seq<(u16, Seq<u8>)>,
) -> Seq<Seq<char>>
    decreases attrs.len(),
{
    if attrs.len() == 0 {
        strings
    } else {
        let prev = spec_apply_strings_list(strings, attrs.drop_last());
        if attrs.last().0 == ETHTOOL_A_STRINGS_STRING {
            spec_apply_string(prev, attrs.last().1)
        } else {
            prev
        }
    }
}

/// The id and accumulated strings of one stringset payload, folding its
/// attributes in order: a later id overwrites, string lists accumulate.
pub open spec fn spec_stringset_fields(attrs: Seq<(u16, Seq<u8>)>) -> (
    Option<u32>,
    Seq<Seq<char>>,
)
    decreases attrs.len(),
{
    if attrs.len() == 0 {
        (None, seq![])
    } else {
        let prev = spec_stringset_fields(attrs.drop_last());
        let t = attrs.last().0;
        let p = attrs.last().1;
        if t == ETHTOOL_A_STRINGSET_ID {
            (spec_parse_u32_attr(p), prev.1)
        } else if t == ETHTOOL_A_STRINGSET_STRINGS {
            (prev.0, spec_apply_strings_list(prev.1, spec_parse_attributes(p)))
        } else {
            prev
        }
    }
}

/// Folds a stringsets-list payload into the catalog: each child stringset
/// that carries an id lands in the map, overwriting an earlier entry with
/// the same id.
pub open spec fn spec_apply_stringsets(
    m: Map<u32, Seq<Seq<char>>>,
    attrs: Seq<(u16, Seq<u8>)>,
) -> Map<u32, Seq<Seq<char>>>
    decreases attrs.len(),
{
    if attrs.len() == 0 {
        m
    } else {
        let prev = spec_apply_stringsets(m, attrs.drop_last());
        if attrs.last().0 == ETHTOOL_A_STRINGSETS_STRINGSET {
            let f = spec_stringset_fields(spec_parse_attributes(attrs.last().1));
            if f.0 is Some {
                prev.insert(f.0.unwrap(), f.1)
            } else {
                prev
            }
        } else {
            prev
        }
    }
}

/// One reply's walk: header attributes toggle whether the reply matches the
/// requested device; stringsets attributes contribute to the catalog only
/// while it does.  Yields the match flag and the catalog.
pub open spec fn spec_strset_reply(
    attrs: Seq<(u16, Seq<u8>)>,
    dev: Seq<char>,
    m0: Map<u32, Seq<Seq<char>>>,
) -> (bool, Map<u32, Seq<Seq<char>>>)
    decreases attrs.len(),
{
    if attrs.len() == 0 {
        (false, m0)
    } else {
        let prev = spec_strset_reply(attrs.drop_last(), dev, m0);
        let t = attrs.last().0;
        let p = attrs.last().1;
        if t == ETHTOOL_A_STRSET_HEADER {
            match spec_header_name(p) {
                Some(name) => (name == dev, prev.1),
                None => prev,
            }
        } else if t == ETHTOOL_A_STRSET_STRINGSETS && prev.0 {
            (prev.0, spec_apply_stringsets(prev.1, spec_parse_attributes(p)))
        } else {
            prev
        }
    }
}

/// The catalog a reassembled string-catalog dump yields for one device.
pub open spec fn spec_stringsets(ps: Seq<Seq<u8>>, dev: Seq<char>) -> Map<u32, Seq<Seq<char>>>
    decreases ps.len(),
{
    if ps.len() == 0 {
        Map::empty()
    } else {
        let prev = spec_stringsets(ps.drop_last(), dev);
        let p = ps.last();
        if p.len() >= 4 {
            spec_strset_reply(spec_parse_attributes(p.skip(4)), dev, prev).1
        } else {
            prev
        }
    }
}

/// One string catalog: an ordered list of names under a stringset id; gaps
/// (never-populated indices) are empty strings.
#[derive(Debug)]
pub struct StringSet {
    pub id: u32,
    pub strings: Vec<String>,
}

/// The catalog mapping a list of stringsets stands for: later entries win.
pub open spec fn spec_sets_map(s: Seq<StringSet>) -> Map<u32, Seq<Seq<char>>>
    decreases s.len(),
{
    if s.len() == 0 {
        Map::empty()
    } else {
        spec_sets_map(s.drop_last()).insert(s.last().id, spec_string_views(s.last().strings@))
    }
}

/// No two catalog entries share an id.
pub open spec fn spec_set_ids_distinct(s: Seq<StringSet>) -> bool {
    forall|i: int, j: int| 0 <= i < j < s.len() ==> s[i].id != s[j].id
}

proof fn lemma_sets_absent(s: Seq<StringSet>, id: u32)
    requires
        forall|i: int| 0 <= i < s.len() ==> s[i].id != id,
    ensures
        !spec_sets_map(s).contains_key(id),
    decreases s.len(),
{
    if s.len() > 0 {
        lemma_sets_absent(s.drop_last(), id);
    }
}

proof fn lemma_sets_found(s: Seq<StringSet>, i: int)
    requires
        spec_set_ids_distinct(s),
        0 <= i < s.len(),
    ensures
        spec_sets_map(s).contains_key(s[i].id),
        spec_sets_map(s)[s[i].id] == spec_string_views(s[i].strings@),
    decreases s.len(),
{
    if i < s.len() - 1 {
        lemma_sets_found(s.drop_last(), i);
    }
}

proof fn lemma_sets_update(s: Seq<StringSet>, i: int, entry: StringSet)
    requires
        spec_set_ids_distinct(s),
        0 <= i < s.len(),
        entry.id == s[i].id,
    ensures
        spec_sets_map(s.update(i, entry)) == spec_sets_map(s).insert(
            entry.id,
            spec_string_views(entry.strings@),
        ),
        spec_set_ids_distinct(s.update(i, entry)),
    decreases s.len(),
{
    let s2 = s.update(i, entry);
    if i == s.len() - 1 {
        assert(s2.drop_last() =~= s.drop_last());
        assert(spec_sets_map(s2) =~= spec_sets_map(s).insert(
            entry.id,
            spec_string_views(entry.strings@),
        ));
    } else {
        lemma_sets_update(s.drop_last(), i, entry);
        assert(s2.drop_last() =~= s.drop_last().update(i, entry));
        assert(s2.last() == s.last());
        assert(spec_sets_map(s2) =~= spec_sets_map(s).insert(
            entry.id,
            spec_string_views(entry.strings@),
        ));
    }
}

/// Inserts or overwrites one catalog entry.
fn upsert_set(sets: &mut Vec<StringSet>, id: u32, strings: Vec<String>)
    requires
        spec_set_ids_distinct(old(sets)@),
    ensures
        spec_set_ids_distinct(final(sets)@),
        spec_sets_map(final(sets)@) == spec_sets_map(old(sets)@).insert(
            id,
            spec_string_views(strings@),
        ),
{
    let n = sets.len();
    let mut i: usize = 0;
    while i < n
        invariant
            i <= n,
            n == sets@.len(),
            sets@ == old(sets)@,
            spec_set_ids_distinct(sets@),
            forall|k: int| 0 <= k < i ==> sets@[k].id != id,
        decreases n - i,
    {
        if sets[i].id == id {
            let entry = StringSet { id, strings };
            proof {
                lemma_sets_found(sets@, i as int);
                lemma_sets_update(sets@, i as int, entry);
            }
            sets[i] = entry;
            return ;
        }
        i = i + 1;
    }
    sets.push(StringSet { id, strings });
    assert(sets@.drop_last() =~= old(sets)@);
}

/// Decodes one string entry's index and value fields.
#[verifier::loop_isolation(false)]
fn parse_string_entry(entry: &[u8]) -> (r: (Option<u32>, Option<String>))
    ensures
        (r.0, spec_opt_str_view(r.1)) == spec_string_fields(spec_parse_attributes(entry@)),
{
    let attrs = parse_attributes(entry);
    let ghost aviews = spec_attr_views(attrs@);
    let mut index: Option<u32> = None;
    let mut value: Option<String> = None;
    let count = attrs.len();
    let mut j: usize = 0;
    assert(aviews.take(0) =~= Seq::<(u16, Seq<u8>)>::empty());
    while j < count
        invariant
            j <= count,
            (index, spec_opt_str_view(value)) == spec_string_fields(aviews.take(j as int)),
        decreases count - j,
    {
        assert(aviews.take(j + 1).drop_last() =~= aviews.take(j as int));
        assert(aviews.take(j + 1).last() == aviews[j as int]);
        assert(aviews[j as int] == (attrs@[j as int].0, attrs@[j as int].1@));
        let t = attrs[j].0;
        if t == ETHTOOL_A_STRING_INDEX {
            index = parse_u32(attrs[j].1.as_slice());
        } else if t == ETHTOOL_A_STRING_VALUE {
            value = crate::strutil::parse_string(attrs[j].1.as_slice());
        }
        j = j + 1;
    }
    assert(aviews.take(count as int) =~= aviews);
    (index, value)
}

/// Applies one string entry to a catalog's string list.
#[verifier::loop_isolation(false)]
fn apply_string_entry(strings: &mut Vec<String>, entry: &[u8])
    ensures
        spec_string_views(final(strings)@) == spec_apply_string(
            spec_string_views(old(strings)@),
            entry@,
        ),
        old(strings)@.len() <= 0x1_0000_0000 ==> final(strings)@.len() <= 0x1_0000_0000,
{
    let (index, value) = parse_string_entry(entry);
    match (index, value) {
        (Some(idx), Some(val)) => {
            let target = idx as usize;
            let ghost base = spec_string_views(strings@);
            assert(spec_string_views(strings@) =~= base + Seq::new(
                (strings@.len() - base.len()) as nat,
                |k: int| Seq::<char>::empty(),
            ));
            while strings.len() <= target
                invariant
                    spec_string_views(strings@) == base + Seq::new(
                        (strings@.len() - base.len()) as nat,
                        |k: int| Seq::<char>::empty(),
                    ),
                    strings@.len() <= target + 1 || strings@.len() == base.len(),
                    base.len() <= strings@.len(),
                decreases target + 1 - strings@.len(),
            {
                let ghost prev = strings@;
                strings.push(String::new());
                assert(strings@.drop_last() =~= prev);
                assert(spec_string_views(strings@) =~= spec_string_views(prev) + seq![
                    Seq::<char>::empty(),
                ]);
                assert(spec_string_views(strings@) =~= base + Seq::new(
                    (strings@.len() - base.len()) as nat,
                    |k: int| Seq::<char>::empty(),
                ));
            }
            let ghost padded = spec_string_views(strings@);
            assert(padded =~= if base.len() <= idx as int {
                base + Seq::new((idx as int + 1 - base.len()) as nat, |k: int| Seq::<char>::empty())
            } else {
                base
            });
            assert(strings@.len() == padded.len());
            strings[target] = val;
            assert(spec_string_views(strings@) =~= padded.update(idx as int, val@));
        },
        _ => {},
    }
}

/// Decodes one stringset payload: its id, if any, and its strings.
#[verifier::loop_isolation(false)]
fn parse_one_stringset(payload: &[u8]) -> (r: (Option<u32>, Vec<String>))
    ensures
        (r.0, spec_string_views(r.1@)) == spec_stringset_fields(spec_parse_attributes(payload@)),
{
    let attrs = parse_attributes(payload);
    let ghost aviews = spec_attr_views(attrs@);
    let mut set_id: Option<u32> = None;
    let mut strings: Vec<String> = Vec::new();
    let count = attrs.len();
    let mut j: usize = 0;
    assert(aviews.take(0) =~= Seq::<(u16, Seq<u8>)>::empty());
    assert(spec_string_views(strings@) =~= Seq::<Seq<char>>::empty());
    while j < count
        invariant
            j <= count,
            (set_id, spec_string_views(strings@)) == spec_stringset_fields(aviews.take(j as int)),
            strings@.len() <= 0x1_0000_0000,
        decreases count - j,
    {
        assert(aviews.take(j + 1).drop_last() =~= aviews.take(j as int));
        assert(aviews.take(j + 1).last() == aviews[j as int]);
        assert(aviews[j as int] == (attrs@[j as int].0, attrs@[j as int].1@));
        let t = attrs[j].0;
        if t == ETHTOOL_A_STRINGSET_ID {
            set_id = parse_u32(attrs[j].1.as_slice());
        } else if t == ETHTOOL_A_STRINGSET_STRINGS {
            let children = parse_attributes(attrs[j].1.as_slice());
            let ghost cviews = spec_attr_views(children@);
            let ccount = children.len();
            let mut k: usize = 0;
            assert(cviews.take(0) =~= Seq::<(u16, Seq<u8>)>::empty());
            let ghost start = spec_string_views(strings@);
            while k < ccount
                invariant
                    k <= ccount,
                    spec_string_views(strings@) == spec_apply_strings_list(
                        start,
                        cviews.take(k as int),
                    ),
                    strings@.len() <= 0x1_0000_0000,
                decreases ccount - k,
            {
                assert(cviews.take(k + 1).drop_last() =~= cviews.take(k as int));
                assert(cviews.take(k + 1).last() == cviews[k as int]);
                assert(cviews[k as int] == (children@[k as int].0, children@[k as int].1@));
                if children[k].0 == ETHTOOL_A_STRINGS_STRING {
                    apply_string_entry(&mut strings, children[k].1.as_slice());
                }
                k = k + 1;
            }
            assert(cviews.take(ccount as int) =~= cviews);
        }
        j = j + 1;
    }
    assert(aviews.take(count as int) =~= aviews);
    (set_id, strings)
}

/// Decodes the string-catalog dump for one device: replies whose header
/// names the device contribute their stringsets; catalog ids are unique,
/// later replies overwriting earlier ones.
#[verifier::loop_isolation(false)]
pub fn parse_stringsets(payloads: &Vec<Vec<u8>>, dev: &str) -> (r: Vec<StringSet>)
    ensures
        spec_set_ids_distinct(r@),
        spec_sets_map(r@) == spec_stringsets(crate::dump::spec_payload_views(payloads@), dev@),
{
    let ghost views = crate::dump::spec_payload_views(payloads@);
    let mut sets: Vec<StringSet> = Vec::new();
    let n = payloads.len();
    let mut i: usize = 0;
    assert(views.take(0) =~= Seq::<Seq<u8>>::empty());
    while i < n
        invariant
            i <= n,
            spec_set_ids_distinct(sets@),
            spec_sets_map(sets@) == spec_stringsets(views.take(i as int), dev@),
        decreases n - i,
    {
        assert(views.take(i + 1).drop_last() =~= views.take(i as int));
        assert(views.take(i + 1).last() == views[i as int]);
        assert(views[i as int] == payloads@[i as int]@);
        let reply = payloads[i].as_slice();
        let rlen = reply.len();
        if rlen >= 4 {
            assert(reply@.subrange(4, rlen as int) =~= views[i as int].skip(4));
            let attrs = parse_attributes(vstd::slice::slice_subrange(reply, 4, rlen));
            let ghost aviews = spec_attr_views(attrs@);
            let ghost m0 = spec_sets_map(sets@);
            let mut matched = false;
            let count = attrs.len();
            let mut j: usize = 0;
            assert(aviews.take(0) =~= Seq::<(u16, Seq<u8>)>::empty());
            while j < count
                invariant
                    j <= count,
                    spec_set_ids_distinct(sets@),
                    (matched, spec_sets_map(sets@)) == spec_strset_reply(
                        aviews.take(j as int),
                        dev@,
                        m0,
                    ),
                decreases count - j,
            {
                assert(aviews.take(j + 1).drop_last() =~= aviews.take(j as int));
                assert(aviews.take(j + 1).last() == aviews[j as int]);
                assert(aviews[j as int] == (attrs@[j as int].0, attrs@[j as int].1@));
                let t = attrs[j].0;
                if t == ETHTOOL_A_STRSET_HEADER {
                    match extract_header_name(attrs[j].1.as_slice()) {
                        Some(name) => {
                            matched = crate::strutil::str_eq(name.as_str(), dev);
                        },
                        None => {},
                    }
                } else if t == ETHTOOL_A_STRSET_STRINGSETS && matched {
                    let children = parse_attributes(attrs[j].1.as_slice());
                    let ghost cviews = spec_attr_views(children@);
                    let ghost mstart = spec_sets_map(sets@);
                    let ccount = children.len();
                    let mut k: usize = 0;
                    assert(cviews.take(0) =~= Seq::<(u16, Seq<u8>)>::empty());
                    while k < ccount
                        invariant
                            k <= ccount,
                            spec_set_ids_distinct(sets@),
                            spec_sets_map(sets@) == spec_apply_stringsets(
                                mstart,
                                cviews.take(k as int),
                            ),
                        decreases ccount - k,
                    {
                        assert(cviews.take(k + 1).drop_last() =~= cviews.take(k as int));
                        assert(cviews.take(k + 1).last() == cviews[k as int]);
                        assert(cviews[k as int] == (children@[k as int].0, children@[k as int].1@));
                        if children[k].0 == ETHTOOL_A_STRINGSETS_STRINGSET {
                            let (set_id, strings) = parse_one_stringset(children[k].1.as_slice());
                            match set_id {
                                Some(id) => {
                                    upsert_set(&mut sets, id, strings);
                                },
                                None => {},
                            }
                        }
                        k = k + 1;
                    }
                    assert(cviews.take(ccount as int) =~= cviews);
                }
                j = j + 1;
            }
            assert(aviews.take(count as int) =~= aviews);
        }
        i = i + 1;
    }
    assert(views.take(n as int) =~= views);
    sets
}

/// Folds the stat children of one group's stat list: any child whose
/// payload holds at least eight bytes contributes its attribute type as the
/// stat index and its native-endian 64-bit value.
pub open spec fn spec_apply_stats(
    samples: Seq<(u32, u64)>,
    attrs: Seq<(u16, Seq<u8>)>,
) -> Seq<(u32, u64)>
    decreases attrs.len(),
{
    if attrs.len() == 0 {
        samples
    } else {
        let prev = spec_apply_stats(samples, attrs.drop_last());
        let t = attrs.last().0;
        let p = attrs.last().1;
        if p.len() >= 8 {
            prev.push((t as u32, spec_u64_from_le_bytes(p.take(8))))
        } else {
            prev
        }
    }
}

/// The group id, stringset id and samples of one stat-group payload,
/// folding its attributes in order.
pub open spec fn spec_group_fields(attrs: Seq<(u16, Seq<u8>)>) -> (
    Option<u32>,
    Option<u32>,
    Seq<(u32, u64)>,
)
    decreases attrs.len(),
{
    if attrs.len() == 0 {
        (None, None, seq![])
    } else {
        let prev = spec_group_fields(attrs.drop_last());
        let t = attrs.last().0;
        let p = attrs.last().1;
        if t == ETHTOOL_A_STATS_GRP_ID {
            (spec_parse_u32_attr(p), prev.1, prev.2)
        } else if t == ETHTOOL_A_STATS_GRP_SS_ID {
            (prev.0, spec_parse_u32_attr(p), prev.2)
        } else if t == ETHTOOL_A_STATS_GRP_STAT {
            (prev.0, prev.1, spec_apply_stats(prev.2, spec_parse_attributes(p)))
        } else {
            prev
        }
    }
}

/// One reply's walk: header attributes toggle whether the reply matches the
/// requested device; stat-group attributes carrying both ids contribute a
/// group while it does.
pub open spec fn spec_stats_reply(
    attrs: Seq<(u16, Seq<u8>)>,
    dev: Seq<char>,
    gs0: Seq<(u32, u32, Seq<(u32, u64)>)>,
) -> (bool, Seq<(u32, u32, Seq<(u32, u64)>)>)
    decreases attrs.len(),
{
    if attrs.len() == 0 {
        (false, gs0)
    } else {
        let prev = spec_stats_reply(attrs.drop_last(), dev, gs0);
        let t = attrs.last().0;
        let p = attrs.last().1;
        if t == ETHTOOL_A_STATS_HEADER {
            match spec_header_name(p) {
                Some(name) => (name == dev, prev.1),
                None => prev,
            }
        } else if t == ETHTOOL_A_STATS_GRP && prev.0 {
            let f = spec_group_fields(spec_parse_attributes(p));
            if f.0 is Some && f.1 is Some {
                (prev.0, prev.1.push((f.0.unwrap(), f.1.unwrap(), f.2)))
            } else {
                prev
            }
        } else {
            prev
        }
    }
}

/// The stat groups a reassembled statistics dump yields for one device, in
/// arrival order.
pub open spec fn spec_stat_groups(ps: Seq<Seq<u8>>, dev: Seq<char>) -> Seq<
    (u32, u32, Seq<(u32, u64)>),
>
    decreases ps.len(),
{
    if ps.len() == 0 {
        seq![]
    } else {
        let prev = spec_stat_groups(ps.drop_last(), dev);
        let p = ps.last();
        if p.len() >= 4 {
            spec_stats_reply(spec_parse_attributes(p.skip(4)), dev, prev).1
        } else {
            prev
        }
    }
}

/// One ethtool statistics group: its id, the stringset its indices name
/// into, and the raw `(index, value)` samples.
#[derive(Debug)]
pub struct StatGroup {
    pub group_id: u32,
    pub stringset_id: u32,
    pub samples: Vec<(u32, u64)>,
}

/// The view of a list of stat groups.
pub open spec fn spec_group_views(s: Seq<StatGroup>) -> Seq<(u32, u32, Seq<(u32, u64)>)> {
    s.map_values(|g: StatGroup| (g.group_id, g.stringset_id, g.samples@))
}

/// Decodes one stat-group payload.
#[verifier::loop_isolation(false)]
fn parse_one_group(payload: &[u8]) -> (r: (Option<u32>, Option<u32>, Vec<(u32, u64)>))
    ensures
        (r.0, r.1, r.2@) == spec_group_fields(spec_parse_attributes(payload@)),
{
    let attrs = parse_attributes(payload);
    let ghost aviews = spec_attr_views(attrs@);
    let mut grp_id: Option<u32> = None;
    let mut ss_id: Option<u32> = None;
    let mut samples: Vec<(u32, u64)> = Vec::new();
    let count = attrs.len();
    let mut j: usize = 0;
    assert(aviews.take(0) =~= Seq::<(u16, Seq<u8>)>::empty());
    while j < count
        invariant
            j <= count,
            (grp_id, ss_id, samples@) == spec_group_fields(aviews.take(j as int)),
        decreases count - j,
    {
        assert(aviews.take(j + 1).drop_last() =~= aviews.take(j as int));
        assert(aviews.take(j + 1).last() == aviews[j as int]);
        assert(aviews[j as int] == (attrs@[j as int].0, attrs@[j as int].1@));
        let t = attrs[j].0;
        if t == ETHTOOL_A_STATS_GRP_ID {
            grp_id = parse_u32(attrs[j].1.as_slice());
        } else if t == ETHTOOL_A_STATS_GRP_SS_ID {
            ss_id = parse_u32(attrs[j].1.as_slice());
        } else if t == ETHTOOL_A_STATS_GRP_STAT {
            let children = parse_attributes(attrs[j].1.as_slice());
            let ghost cviews = spec_attr_views(children@);
            let ghost start = samples@;
            let ccount = children.len();
            let mut k: usize = 0;
            assert(cviews.take(0) =~= Seq::<(u16, Seq<u8>)>::empty());
            while k < ccount
                invariant
                    k <= ccount,
                    samples@ == spec_apply_stats(start, cviews.take(k as int)),
                decreases ccount - k,
            {
                assert(cviews.take(k + 1).drop_last() =~= cviews.take(k as int));
                assert(cviews.take(k + 1).last() == cviews[k as int]);
                assert(cviews[k as int] == (children@[k as int].0, children@[k as int].1@));
                let child = children[k].1.as_slice();
                if child.len() >= 8 {
                    assert(child@.subrange(0, 8) =~= cviews[k as int].1.take(8));
                    let value = crate::wire::read_u64_le(child, 0);
                    samples.push((children[k].0 as u32, value));
                }
                k = k + 1;
            }
            assert(cviews.take(ccount as int) =~= cviews);
        }
        j = j + 1;
    }
    assert(aviews.take(count as int) =~= aviews);
    (grp_id, ss_id, samples)
}

/// Decodes the statistics dump for one device: replies whose header names
/// the device contribute their stat groups, in order.
#[verifier::loop_isolation(false)]
pub fn parse_stat_groups(payloads: &Vec<Vec<u8>>, dev: &str) -> (r: Vec<StatGroup>)
    ensures
        spec_group_views(r@) == spec_stat_groups(crate::dump::spec_payload_views(payloads@), dev@),
{
    let ghost views = crate::dump::spec_payload_views(payloads@);
    let mut groups: Vec<StatGroup> = Vec::new();
    let n = payloads.len();
    let mut i: usize = 0;
    assert(views.take(0) =~= Seq::<Seq<u8>>::empty());
    assert(spec_group_views(groups@) =~= spec_stat_groups(views.take(0), dev@));
    while i < n
        invariant
            i <= n,
            spec_group_views(groups@) == spec_stat_groups(views.take(i as int), dev@),
        decreases n - i,
    {
        assert(views.take(i + 1).drop_last() =~= views.take(i as int));
        assert(views.take(i + 1).last() == views[i as int]);
        assert(views[i as int] == payloads@[i as int]@);
        let reply = payloads[i].as_slice();
        let rlen = reply.len();
        if rlen >= 4 {
            assert(reply@.subrange(4, rlen as int) =~= views[i as int].skip(4));
            let attrs = parse_attributes(vstd::slice::slice_subrange(reply, 4, rlen));
            let ghost aviews = spec_attr_views(attrs@);
            let ghost gs0 = spec_group_views(groups@);
            let mut matched = false;
            let count = attrs.len();
            let mut j: usize = 0;
            assert(aviews.take(0) =~= Seq::<(u16, Seq<u8>)>::empty());
            while j < count
                invariant
                    j <= count,
                    (matched, spec_group_views(groups@)) == spec_stats_reply(
                        aviews.take(j as int),
                        dev@,
                        gs0,
                    ),
                decreases count - j,
            {
                assert(aviews.take(j + 1).drop_last() =~= aviews.take(j as int));
                assert(aviews.take(j + 1).last() == aviews[j as int]);
                assert(aviews[j as int] == (attrs@[j as int].0, attrs@[j as int].1@));
                let t = attrs[j].0;
                if t == ETHTOOL_A_STATS_HEADER {
                    match extract_header_name(attrs[j].1.as_slice()) {
                        Some(name) => {
                            matched = crate::strutil::str_eq(name.as_str(), dev);
                        },
                        None => {},
                    }
                } else if t == ETHTOOL_A_STATS_GRP && matched {
                    let (grp_id, ss_id, samples) = parse_one_group(attrs[j].1.as_slice());
                    match (grp_id, ss_id) {
                        (Some(group_id), Some(stringset_id)) => {
                            groups.push(StatGroup { group_id, stringset_id, samples });
                            assert(spec_group_views(groups@) =~= spec_group_views(
                                groups@.drop_last(),
                            ).push(
                                (
                                    groups@.last().group_id,
                                    groups@.last().stringset_id,
                                    groups@.last().samples@,
                                ),
                            ));
                        },
                        _ => {},
                    }
                }
                j = j + 1;
            }
            assert(aviews.take(count as int) =~= aviews);
        }
        i = i + 1;
    }
    assert(views.take(n as int) =~= views);
    groups
}

/// The name a joined sample carries: the catalog entry at the stat's index
/// when the stringset is present, the index is in range and the name is
/// nonempty; the decimal fallback `stat_<index>` otherwise.
pub open spec fn spec_stringset_name(
    m: Map<u32, Seq<Seq<char>>>,
    ss_id: u32,
    index: u32,
) -> Seq<char> {
    if m.contains_key(ss_id) && index < m[ss_id].len() && m[ss_id][index as int].len() > 0 {
        m[ss_id][index as int]
    } else {
        "stat_"@ + crate::strutil::spec_decimal_chars(index as nat)
    }
}

/// Resolves a stat's human-readable name through the catalog, falling back
/// to `stat_<index>`.
pub fn stringset_name(sets: &Vec<StringSet>, ss_id: u32, index: u32) -> (r: String)
    requires
        spec_set_ids_distinct(sets@),
    ensures
        r@ == spec_stringset_name(spec_sets_map(sets@), ss_id, index),
{
    let n = sets.len();
    let mut i: usize = 0;
    while i < n
        invariant
            i <= n,
            n == sets@.len(),
            spec_set_ids_distinct(sets@),
            forall|k: int| 0 <= k < i ==> sets@[k].id != ss_id,
        decreases n - i,
    {
        if sets[i].id == ss_id {
            proof {
                lemma_sets_found(sets@, i as int);
            }
            let strings = &sets[i].strings;
            if (index as usize) < strings.len() {
                let name = &strings[index as usize];
                assert(name@ == spec_sets_map(sets@)[ss_id][index as int]);
                if !name.as_str().is_empty() {
                    return name.clone();
                }
            }
            return fallback_name(index);
        }
        i = i + 1;
    }
    proof {
        lemma_sets_absent(sets@, ss_id);
    }
    fallback_name(index)
}

/// Builds the `stat_<index>` fallback name.
fn fallback_name(index: u32) -> (r: String)
    ensures
        r@ == "stat_"@ + crate::strutil::spec_decimal_chars(index as nat),
{
    let mut r = String::from_str("stat_");
    let digits = crate::strutil::u32_decimal(index);
    r.append(digits.as_str());
    r
}

/// The joined samples of one group: each raw `(index, value)` pair under
/// its resolved name.
pub open spec fn spec_group_samples(
    m: Map<u32, Seq<Seq<char>>>,
    g: (u32, u32, Seq<(u32, u64)>),
) -> Seq<(Seq<char>, u64)> {
    g.2.map_values(|p: (u32, u64)| (spec_stringset_name(m, g.1, p.0), p.1))
}

/// The joined samples of a whole dump, group by group.
pub open spec fn spec_join_samples(
    m: Map<u32, Seq<Seq<char>>>,
    gs: Seq<(u32, u32, Seq<(u32, u64)>)>,
) -> Seq<(Seq<char>, u64)>
    decreases gs.len(),
{
    if gs.len() == 0 {
        seq![]
    } else {
        spec_join_samples(m, gs.drop_last()) + spec_group_samples(m, gs.last())
    }
}

/// The view of a list of named samples.
pub open spec fn spec_named_sample_views(s: Seq<(String, u64)>) -> Seq<(Seq<char>, u64)> {
    s.map_values(|p: (String, u64)| (p.0@, p.1))
}

/// Joins raw stat samples to names through the catalog: one `(name, value)`
/// sample per raw stat, in group order.
#[verifier::loop_isolation(false)]
pub fn ethtool_samples(sets: &Vec<StringSet>, groups: &Vec<StatGroup>) -> (r: Vec<(String, u64)>)
    requires
        spec_set_ids_distinct(sets@),
    ensures
        spec_named_sample_views(r@) == spec_join_samples(
            spec_sets_map(sets@),
            spec_group_views(groups@),
        ),
{
    let ghost m = spec_sets_map(sets@);
    let ghost gviews = spec_group_views(groups@);
    let mut r: Vec<(String, u64)> = Vec::new();
    let n = groups.len();
    let mut i: usize = 0;
    assert(gviews.take(0) =~= Seq::<(u32, u32, Seq<(u32, u64)>)>::empty());
    assert(spec_named_sample_views(r@) =~= spec_join_samples(m, gviews.take(0)));
    while i < n
        invariant
            i <= n,
            spec_named_sample_views(r@) == spec_join_samples(m, gviews.take(i as int)),
        decreases n - i,
    {
        assert(gviews.take(i + 1).drop_last() =~= gviews.take(i as int));
        assert(gviews.take(i + 1).last() == gviews[i as int]);
        assert(gviews[i as int] == (
            groups@[i as int].group_id,
            groups@[i as int].stringset_id,
            groups@[i as int].samples@,
        ));
        let group = &groups[i];
        let scount = group.samples.len();
        let mut k: usize = 0;
        let ghost base = spec_named_sample_views(r@);
        assert(base + spec_group_samples(m, gviews[i as int]).take(0) =~= base);
        while k < scount
            invariant
                k <= scount,
                spec_named_sample_views(r@) == base + spec_group_samples(
                    m,
                    gviews[i as int],
                ).take(k as int),
            decreases scount - k,
        {
            let (index, value) = group.samples[k];
            let name = stringset_name(sets, group.stringset_id, index);
            r.push((name, value));
            assert(spec_named_sample_views(r@) =~= spec_named_sample_views(r@.drop_last()) + seq![
                (r@.last().0@, r@.last().1),
            ]);
            assert(base + spec_group_samples(m, gviews[i as int]).take(k + 1) =~= (base
                + spec_group_samples(m, gviews[i as int]).take(k as int)) + seq![
                spec_group_samples(m, gviews[i as int])[k as int],
            ]);
            k = k + 1;
        }
        assert(spec_group_samples(m, gviews[i as int]).take(scount as int) =~= spec_group_samples(
            m,
            gviews[i as int],
        ));
        i = i + 1;
    }
    assert(gviews.take(n as int) =~= gviews);
    r
}

/// Whether a network interface counts as Ethernet for the collector: its
/// `type` file reads as hardware type 1 and it has an associated physical
/// device.  The scan applies this filter to every network-class entry it
/// finds.
pub open spec fn spec_is_ethernet_type(type_content: Seq<u8>, has_device: bool) -> bool {
    crate::textparse::spec_parse_trimmed_u64(type_content) == Some(1u64) && has_device
}

/// Applies the Ethernet filter to one discovered interface.
pub fn is_ethernet_type(type_content: &str, has_device: bool) -> (r: bool)
    ensures
        r == spec_is_ethernet_type(type_content.spec_bytes(), has_device),
{
    match crate::textparse::parse_trimmed_u64(type_content) {
        Some(v) => v == 1 && has_device,
        None => false,
    }
}

} // verus!
