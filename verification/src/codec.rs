//! Type-length-value attribute encoding and decoding.
//!
//! A netlink attribute is a 4-byte header (length, type) followed by its
//! payload and zero padding up to the next 4-byte boundary.  The length
//! field stores the unpadded size; the top bit of the type field marks a
//! nested attribute and is masked off when reading the type back.

use vstd::prelude::*;

verus! {

use vstd::bytes::{
    spec_u16_from_le_bytes, spec_u16_to_le_bytes, lemma_auto_spec_u16_to_from_le_bytes,
};
use vstd::slice::{slice_subrange, slice_to_vec};
use vstd::string::StringSliceAdditionalSpecFns;
use crate::wire::{spec_align4, align4, read_u16_le, push_u16_le};

/// Attribute type bit that marks a nested attribute.
pub const NESTED_FLAG: u16 = 0x8000;

/// Mask that strips the nested marker (and the byte-order bit netlink
/// reserves beside it) when reading an attribute type back.
pub const TYPE_MASK: u16 = 0x7FFF;

/// Zero padding that follows `len` bytes of attribute data up to the next
/// 4-byte boundary.
pub open spec fn spec_padding(len: int) -> Seq<u8> {
    Seq::new((spec_align4(len) - len) as nat, |i: int| 0u8)
}

/// The exact serialized form of one attribute: header, payload, padding.
pub open spec fn spec_attribute(attr_type: u16, payload: Seq<u8>) -> Seq<u8> {
    spec_u16_to_le_bytes((payload.len() + 4) as u16) + spec_u16_to_le_bytes(attr_type) + payload
        + spec_padding(payload.len() as int + 4)
}

/// The serialized span of one attribute is its unpadded size rounded up to a
/// multiple of four.
pub proof fn lemma_attribute_len(attr_type: u16, payload: Seq<u8>)
    ensures
        spec_attribute(attr_type, payload).len() == spec_align4(payload.len() as int + 4),
{
    lemma_auto_spec_u16_to_from_le_bytes();
}

/// The attributes recovered from a byte stream, in order.  Parsing stops,
/// without error, at the first header that would overrun the remaining bytes
/// or whose declared length is smaller than the header itself; a short or
/// garbled tail therefore reads as "no further attributes".
pub open spec fn spec_parse_attributes(b: Seq<u8>) -> Seq<(u16, Seq<u8>)>
    decreases b.len(),
{
    if b.len() < 4 {
        seq![]
    } else {
        let alen = spec_u16_from_le_bytes(b.subrange(0, 2)) as int;
        let aty = spec_u16_from_le_bytes(b.subrange(2, 4));
        if alen < 4 || alen > b.len() {
            seq![]
        } else {
            let step = if spec_align4(alen) <= b.len() {
                spec_align4(alen)
            } else {
                b.len() as int
            };
            seq![((aty & TYPE_MASK) as u16, b.subrange(4, alen))] + spec_parse_attributes(
                b.skip(step),
            )
        }
    }
}

/// The view of an executable attribute list as its mathematical counterpart.
pub open spec fn spec_attr_views(attrs: Seq<(u16, Vec<u8>)>) -> Seq<(u16, Seq<u8>)> {
    attrs.map_values(|a: (u16, Vec<u8>)| (a.0, a.1@))
}

/// Writes a 4-byte attribute header, the payload, then zero padding to the
/// next 4-byte boundary.  The length field stores the unpadded size.
pub fn append_attribute(buf: &mut Vec<u8>, attr_type: u16, payload: &[u8])
    requires
        payload@.len() + 4 <= 0xFFFF,
        old(buf)@.len() + payload@.len() + 8 <= usize::MAX,
    ensures
        final(buf)@ == old(buf)@ + spec_attribute(attr_type, payload@),
        final(buf)@.len() <= old(buf)@.len() + payload@.len() + 8,
{
    let plen = payload.len();
    let alen = (plen + 4) as u16;
    push_u16_le(buf, alen);
    push_u16_le(buf, attr_type);
    buf.extend_from_slice(payload);
    let ghost unpadded = buf@;
    let mut pad = plen + 4;
    let target = align4(plen + 4);
    while pad < target
        invariant
            plen + 4 <= pad <= target,
            target == spec_align4(plen as int + 4),
            buf@ == unpadded + Seq::new((pad - plen - 4) as nat, |i: int| 0u8),
            buf@.len() == unpadded.len() + pad - plen - 4,
            unpadded.len() + 3 <= usize::MAX,
        decreases target - pad,
    {
        buf.push(0);
        pad = pad + 1;
        assert(buf@ =~= unpadded + Seq::new((pad - plen - 4) as nat, |i: int| 0u8));
    }
    assert(final(buf)@ =~= old(buf)@ + spec_attribute(attr_type, payload@));
}

/// Appends one attribute whose payload is a little-endian u32.
pub fn append_u32_attribute(buf: &mut Vec<u8>, attr_type: u16, value: u32)
    requires
        old(buf)@.len() + 12 <= usize::MAX,
    ensures
        final(buf)@ == old(buf)@ + spec_attribute(
            attr_type,
            vstd::bytes::spec_u32_to_le_bytes(value),
        ),
        final(buf)@.len() == old(buf)@.len() + 8,
{
    let bytes = vstd::bytes::u32_to_le_bytes(value);
    append_attribute(buf, attr_type, bytes.as_slice());
    proof {
        lemma_attribute_len(attr_type, vstd::bytes::spec_u32_to_le_bytes(value));
    }
}

/// Appends one attribute whose payload is the string's bytes followed by a
/// terminating NUL.
pub fn append_string_attribute(buf: &mut Vec<u8>, attr_type: u16, value: &str)
    requires
        value.spec_bytes().len() + 5 <= 0xFFFF,
        old(buf)@.len() + value.spec_bytes().len() + 9 <= usize::MAX,
    ensures
        final(buf)@ == old(buf)@ + spec_attribute(attr_type, value.spec_bytes() + seq![0u8]),
        final(buf)@.len() <= old(buf)@.len() + value.spec_bytes().len() + 9,
{
    let mut bytes = slice_to_vec(value.as_bytes());
    bytes.push(0);
    append_attribute(buf, attr_type, bytes.as_slice());
}

/// Writes a placeholder header for a nested attribute (length zero for now,
/// type with the nested marker set) and returns the buffer offset of that
/// header so `end_nested` can patch the true length in later.
pub fn begin_nested(buf: &mut Vec<u8>, attr_type: u16) -> (marker: usize)
    requires
        old(buf)@.len() + 4 <= usize::MAX,
    ensures
        marker == old(buf)@.len(),
        final(buf)@ == old(buf)@ + spec_u16_to_le_bytes(0) + spec_u16_to_le_bytes(
            attr_type | NESTED_FLAG,
        ),
        final(buf)@.len() == old(buf)@.len() + 4,
{
    let marker = buf.len();
    push_u16_le(buf, 0);
    push_u16_le(buf, attr_type | NESTED_FLAG);
    marker
}

/// Computes the byte span since `marker`, writes it as the placeholder's
/// true length, and pads the buffer to a 4-byte boundary.
pub fn end_nested(buf: &mut Vec<u8>, marker: usize)
    requires
        marker + 4 <= old(buf)@.len(),
        old(buf)@.len() - marker <= 0xFFFF,
        old(buf)@.len() + 3 <= usize::MAX,
    ensures
        final(buf)@ == old(buf)@.subrange(0, marker as int) + spec_u16_to_le_bytes(
            (old(buf)@.len() - marker) as u16,
        ) + old(buf)@.subrange(marker as int + 2, old(buf)@.len() as int) + spec_padding(
            old(buf)@.len() - marker,
        ),
        final(buf)@.len() <= old(buf)@.len() + 3,
{
    let total = buf.len();
    let span = (total - marker) as u16;
    let le = vstd::bytes::u16_to_le_bytes(span);
    let lo = le[0];
    let hi = le[1];
    let s = buf.as_mut_slice();
    s[marker] = lo;
    s[marker + 1] = hi;
    let ghost patched = buf@;
    let span_us = total - marker;
    let target = align4(span_us);
    let mut pad = span_us;
    while pad < target
        invariant
            span_us <= pad <= target,
            target == spec_align4(span_us as int),
            buf@ == patched + Seq::new((pad - span_us) as nat, |i: int| 0u8),
            patched.len() + 3 <= usize::MAX,
        decreases target - pad,
    {
        buf.push(0);
        pad = pad + 1;
        assert(buf@ =~= patched + Seq::new((pad - span_us) as nat, |i: int| 0u8));
    }
    assert(final(buf)@ =~= old(buf)@.subrange(0, marker as int) + spec_u16_to_le_bytes(
        (old(buf)@.len() - marker) as u16,
    ) + old(buf)@.subrange(marker as int + 2, old(buf)@.len() as int) + spec_padding(
        old(buf)@.len() - marker,
    ));
}

/// Decodes an attribute stream into `(type, payload)` pairs, the nested
/// marker stripped from each type.
pub fn parse_attributes(data: &[u8]) -> (r: Vec<(u16, Vec<u8>)>)
    ensures
        spec_attr_views(r@) == spec_parse_attributes(data@),
{
    let n = data.len();
    let mut r: Vec<(u16, Vec<u8>)> = Vec::new();
    let mut off: usize = 0;
    assert(data@.skip(0) =~= data@);
    assert(spec_attr_views(r@) + spec_parse_attributes(data@) =~= spec_parse_attributes(data@));
    loop
        invariant
            n == data@.len(),
            off <= n,
            spec_parse_attributes(data@) == spec_attr_views(r@) + spec_parse_attributes(
                data@.skip(off as int),
            ),
        ensures
            spec_attr_views(r@) == spec_parse_attributes(data@),
        decreases n - off,
    {
        let ghost rest = data@.skip(off as int);
        if n - off < 4 {
            proof {
                assert(spec_parse_attributes(rest) =~= Seq::<(u16, Seq<u8>)>::empty());
                assert(spec_attr_views(r@) + spec_parse_attributes(rest) =~= spec_attr_views(r@));
            }
            break;
        }
        assert(rest.subrange(0, 2) =~= data@.subrange(off as int, off as int + 2));
        assert(rest.subrange(2, 4) =~= data@.subrange(off as int + 2, off as int + 4));
        let alen = read_u16_le(data, off) as usize;
        let aty = read_u16_le(data, off + 2);
        if alen < 4 || alen > n - off {
            proof {
                assert(spec_parse_attributes(rest) =~= Seq::<(u16, Seq<u8>)>::empty());
                assert(spec_attr_views(r@) + spec_parse_attributes(rest) =~= spec_attr_views(r@));
            }
            break;
        }
        assert(rest.subrange(4, alen as int) =~= data@.subrange(
            off as int + 4,
            off as int + alen,
        ));
        let payload = slice_to_vec(slice_subrange(data, off + 4, off + alen));
        r.push((aty & TYPE_MASK, payload));
        let aligned = align4(alen);
        let step: usize = if aligned <= n - off {
            aligned
        } else {
            n - off
        };
        assert(rest.skip(step as int) =~= data@.skip(off as int + step));
        assert(spec_attr_views(r@) =~= spec_attr_views(r@.drop_last()) + seq![
            ((aty & TYPE_MASK) as u16, data@.subrange(off as int + 4, off as int + alen)),
        ]);
        off = off + step;
    }
    r
}

/// What `end_nested` leaves behind: a buffer that grew by a placeholder
/// header and some children since the marker, once patched and padded, reads
/// as the enclosing attribute appended whole.
pub proof fn lemma_end_nested_shape(
    before: Seq<u8>,
    after: Seq<u8>,
    prefix: Seq<u8>,
    attr_type: u16,
    children: Seq<u8>,
)
    requires
        children.len() + 4 <= 0xFFFF,
        before == prefix + spec_u16_to_le_bytes(0) + spec_u16_to_le_bytes(attr_type | NESTED_FLAG)
            + children,
        after == before.subrange(0, prefix.len() as int) + spec_u16_to_le_bytes(
            (before.len() - prefix.len()) as u16,
        ) + before.subrange(prefix.len() as int + 2, before.len() as int) + spec_padding(
            before.len() - prefix.len(),
        ),
    ensures
        after == prefix + spec_attribute(attr_type | NESTED_FLAG, children),
{
    lemma_auto_spec_u16_to_from_le_bytes();
    assert(after =~= prefix + spec_attribute(attr_type | NESTED_FLAG, children));
}

/// Round trip: an attribute encoded by `append_attribute` and laid at the
/// head of a stream parses back as exactly its `(type, payload)` pair, the
/// nested marker stripped, followed by whatever the remaining stream parses
/// to.
pub proof fn lemma_attribute_round_trip(attr_type: u16, payload: Seq<u8>, rest: Seq<u8>)
    requires
        payload.len() + 4 <= 0xFFFF,
    ensures
        spec_parse_attributes(spec_attribute(attr_type, payload) + rest) == seq![
            ((attr_type & TYPE_MASK) as u16, payload),
        ] + spec_parse_attributes(rest),
{
    lemma_auto_spec_u16_to_from_le_bytes();
    let enc = spec_attribute(attr_type, payload);
    let b = enc + rest;
    lemma_attribute_len(attr_type, payload);
    assert(b.subrange(0, 2) =~= spec_u16_to_le_bytes((payload.len() + 4) as u16));
    assert(b.subrange(2, 4) =~= spec_u16_to_le_bytes(attr_type));
    let alen = (payload.len() + 4) as int;
    assert(spec_u16_from_le_bytes(b.subrange(0, 2)) == alen);
    assert(b.subrange(4, alen) =~= payload);
    assert(spec_align4(alen) == enc.len());
    assert(b.skip(enc.len() as int) =~= rest);
}

} // verus!
