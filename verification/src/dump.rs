//! Dump reassembly: one outstanding request, many kernel messages.
//!
//! A dump response arrives as a stream of transport-header-framed messages,
//! possibly spread over several socket reads.  The accumulator below is fed
//! one read buffer at a time and walks the messages in it: a message whose
//! declared length is shorter than a header or longer than the remaining
//! bytes ends the walk of that buffer (never the whole dump); a message
//! bearing a foreign sequence number is skipped; a terminal marker completes
//! the dump, and bytes after it are ignored; an error frame with a nonzero
//! embedded code fails the dump at once, while a zero code (an
//! acknowledgement) is skipped; anything else contributes its payload, the
//! transport header stripped.

use vstd::prelude::*;

verus! {

use vstd::bytes::{spec_u16_from_le_bytes, spec_u32_from_le_bytes};
use crate::wire::{spec_align4, spec_i32_of_u32, align4, read_u16_le, read_u32_le};
use crate::message::{NLMSG_DONE, NLMSG_ERROR, TRANSPORT_HEADER_LEN};

/// Where a dump stands after some number of reads.
#[derive(Clone, Copy, Debug, PartialEq, Eq, Structural)]
pub enum DumpPhase {
    /// No read has been processed yet.
    Awaiting,
    /// Reads are being processed; no terminal marker or error frame seen.
    Accumulating,
    /// The terminal marker arrived: the dump is complete.
    Done,
    /// An error frame with this (negated) errno ended the dump.
    Failed(i64),
}

/// What scanning a single read buffer concludes.
#[derive(Clone, Copy, Debug, PartialEq, Eq, Structural)]
pub enum ScanStatus {
    /// The buffer was exhausted without a verdict; more reads are needed.
    Pending,
    /// A terminal marker was seen.
    Finished,
    /// An error frame with this (negated) errno was seen.
    Failing(i64),
}

/// The payloads extracted from one read buffer and the verdict reached, for
/// the given expected sequence number.
pub open spec fn spec_scan(b: Seq<u8>, expected: u32) -> (Seq<Seq<u8>>, ScanStatus)
    decreases b.len(),
{
    if b.len() < TRANSPORT_HEADER_LEN {
        (seq![], ScanStatus::Pending)
    } else {
        let mlen = spec_u32_from_le_bytes(b.subrange(0, 4)) as int;
        if mlen < TRANSPORT_HEADER_LEN || mlen > b.len() {
            (seq![], ScanStatus::Pending)
        } else {
            let step = if spec_align4(mlen) <= b.len() {
                spec_align4(mlen)
            } else {
                b.len() as int
            };
            let mty = spec_u16_from_le_bytes(b.subrange(4, 6));
            let mseq = spec_u32_from_le_bytes(b.subrange(8, 12));
            if mseq != expected {
                spec_scan(b.skip(step), expected)
            } else if mty == NLMSG_DONE {
                (seq![], ScanStatus::Finished)
            } else if mty == NLMSG_ERROR {
                if mlen >= TRANSPORT_HEADER_LEN + 4 {
                    let code = spec_i32_of_u32(spec_u32_from_le_bytes(b.subrange(16, 20)));
                    if code != 0 {
                        (seq![], ScanStatus::Failing(-code as i64))
                    } else {
                        spec_scan(b.skip(step), expected)
                    }
                } else {
                    spec_scan(b.skip(step), expected)
                }
            } else if mlen > TRANSPORT_HEADER_LEN {
                let rec = spec_scan(b.skip(step), expected);
                (seq![b.subrange(16, mlen)] + rec.0, rec.1)
            } else {
                spec_scan(b.skip(step), expected)
            }
        }
    }
}

/// The phase a dump moves to when one more read concludes as `st`.
pub open spec fn spec_phase_of(st: ScanStatus) -> DumpPhase {
    match st {
        ScanStatus::Pending => DumpPhase::Accumulating,
        ScanStatus::Finished => DumpPhase::Done,
        ScanStatus::Failing(code) => DumpPhase::Failed(code),
    }
}

/// The views of a list of payload buffers.
pub open spec fn spec_payload_views(ps: Seq<Vec<u8>>) -> Seq<Seq<u8>> {
    ps.map_values(|p: Vec<u8>| p@)
}

/// Reassembles the dump response to one outstanding request.
///
/// When the reads stop (timeout or end of stream) before a terminal marker
/// arrives, the accumulator is left `Accumulating`: its payloads are the
/// partial dump, and the phase tells that incompleteness apart from a
/// completed dump rather than folding the two outcomes together.
pub struct DumpAccumulator {
    /// The sequence number the request was sent with; messages bearing any
    /// other are skipped.
    pub expected_seq: u32,
    /// Payloads accumulated so far, transport headers stripped, in arrival
    /// order.
    pub payloads: Vec<Vec<u8>>,
    /// Where the dump stands.
    pub phase: DumpPhase,
}

impl DumpAccumulator {
    /// True while more reads may still be fed in.
    pub open spec fn in_progress(self) -> bool {
        self.phase == DumpPhase::Awaiting || self.phase == DumpPhase::Accumulating
    }

    /// A fresh accumulator for one outstanding sequence number.
    pub fn new(expected_seq: u32) -> (r: DumpAccumulator)
        ensures
            r.expected_seq == expected_seq,
            r.payloads@ == Seq::<Vec<u8>>::empty(),
            r.phase == DumpPhase::Awaiting,
    {
        DumpAccumulator { expected_seq, payloads: Vec::new(), phase: DumpPhase::Awaiting }
    }

    /// Feeds one read buffer in: appends the payloads it holds for the
    /// expected sequence number and moves the phase as the buffer's verdict
    /// says.
    pub fn push_read(&mut self, buf: &[u8])
        requires
            old(self).in_progress(),
            buf@.len() + 3 <= usize::MAX,
        ensures
            final(self).expected_seq == old(self).expected_seq,
            spec_payload_views(final(self).payloads@) == spec_payload_views(old(self).payloads@)
                + spec_scan(buf@, old(self).expected_seq).0,
            final(self).phase == spec_phase_of(spec_scan(buf@, old(self).expected_seq).1),
    {
        let n = buf.len();
        let expected = self.expected_seq;
        let ghost base = spec_payload_views(self.payloads@);
        let mut off: usize = 0;
        let mut verdict = ScanStatus::Pending;
        assert(buf@.skip(0) =~= buf@);
        loop
            invariant
                n == buf@.len(),
                n + 3 <= usize::MAX,
                off <= n,
                self.expected_seq == expected,
                spec_payload_views(self.payloads@) + spec_scan(buf@.skip(off as int), expected).0
                    == base + spec_scan(buf@, expected).0,
                spec_scan(buf@.skip(off as int), expected).1 == spec_scan(buf@, expected).1,
            ensures
                spec_payload_views(self.payloads@) == base + spec_scan(buf@, expected).0,
                verdict == spec_scan(buf@, expected).1,
                self.expected_seq == expected,
            decreases n - off,
        {
            let ghost rest = buf@.skip(off as int);
            if n - off < TRANSPORT_HEADER_LEN {
                proof {
                    lemma_scan_short(rest, expected);
                    assert(spec_payload_views(self.payloads@) + Seq::<Seq<u8>>::empty()
                        =~= spec_payload_views(self.payloads@));
                }
                verdict = ScanStatus::Pending;
                break;
            }
            assert(rest.subrange(0, 4) =~= buf@.subrange(off as int, off as int + 4));
            assert(rest.subrange(4, 6) =~= buf@.subrange(off as int + 4, off as int + 6));
            assert(rest.subrange(8, 12) =~= buf@.subrange(off as int + 8, off as int + 12));
            let mlen = read_u32_le(buf, off) as usize;
            if mlen < TRANSPORT_HEADER_LEN || mlen > n - off {
                proof {
                    assert(spec_scan(rest, expected).0 =~= Seq::<Seq<u8>>::empty());
                    assert(spec_payload_views(self.payloads@) + Seq::<Seq<u8>>::empty()
                        =~= spec_payload_views(self.payloads@));
                }
                verdict = ScanStatus::Pending;
                break;
            }
            let mty = read_u16_le(buf, off + 4);
            let mseq = read_u32_le(buf, off + 8);
            let aligned = align4(mlen);
            let step: usize = if aligned <= n - off {
                aligned
            } else {
                n - off
            };
            assert(rest.skip(step as int) =~= buf@.skip(off as int + step));
            if mseq != expected {
                off = off + step;
                continue;
            }
            if mty == NLMSG_DONE {
                proof {
                    assert(spec_payload_views(self.payloads@) + Seq::<Seq<u8>>::empty()
                        =~= spec_payload_views(self.payloads@));
                }
                verdict = ScanStatus::Finished;
                break;
            }
            if mty == NLMSG_ERROR {
                if mlen >= TRANSPORT_HEADER_LEN + 4 {
                    assert(rest.subrange(16, 20) =~= buf@.subrange(
                        off as int + 16,
                        off as int + 20,
                    ));
                    let raw = read_u32_le(buf, off + 16);
                    if raw != 0 {
                        let errno: i64 = if raw < 0x8000_0000 {
                            -(raw as i64)
                        } else {
                            0x1_0000_0000u64 as i64 - raw as i64
                        };
                        assert(errno == -spec_i32_of_u32(raw));
                        proof {
                            assert(spec_payload_views(self.payloads@) + Seq::<Seq<u8>>::empty()
                                =~= spec_payload_views(self.payloads@));
                        }
                        verdict = ScanStatus::Failing(errno);
                        break;
                    }
                }
                off = off + step;
                continue;
            }
            if mlen > TRANSPORT_HEADER_LEN {
                assert(rest.subrange(16, mlen as int) =~= buf@.subrange(
                    off as int + 16,
                    off as int + mlen,
                ));
                let payload = vstd::slice::slice_to_vec(
                    vstd::slice::slice_subrange(buf, off + 16, off + mlen),
                );
                self.payloads.push(payload);
                assert(spec_payload_views(self.payloads@) =~= spec_payload_views(
                    self.payloads@.drop_last(),
                ) + seq![buf@.subrange(off as int + 16, off as int + mlen)]);
                proof {
                    lemma_seq_add_assoc(
                        spec_payload_views(self.payloads@.drop_last()),
                        seq![buf@.subrange(off as int + 16, off as int + mlen)],
                        spec_scan(buf@.skip(off as int + step), expected).0,
                    );
                }
            }
            off = off + step;
        }
        self.phase = match verdict {
            ScanStatus::Pending => DumpPhase::Accumulating,
            ScanStatus::Finished => DumpPhase::Done,
            ScanStatus::Failing(code) => DumpPhase::Failed(code),
        };
    }
}

/// Scanning an empty or header-short buffer yields nothing and no verdict.
proof fn lemma_scan_short(b: Seq<u8>, expected: u32)
    requires
        b.len() < TRANSPORT_HEADER_LEN,
    ensures
        spec_scan(b, expected) == (Seq::<Seq<u8>>::empty(), ScanStatus::Pending),
{
    assert(spec_scan(b, expected).0 =~= Seq::<Seq<u8>>::empty());
}

/// Sequence concatenation is associative.
proof fn lemma_seq_add_assoc(a: Seq<Seq<u8>>, b: Seq<Seq<u8>>, c: Seq<Seq<u8>>)
    ensures
        (a + b) + c == a + (b + c),
{
    assert((a + b) + c =~= a + (b + c));
}

/// A message bearing a foreign sequence number is skipped whole: scanning
/// continues directly after it, with nothing accumulated and no verdict
/// taken from it.
pub proof fn lemma_wrong_sequence_skipped(b: Seq<u8>, expected: u32)
    requires
        b.len() >= TRANSPORT_HEADER_LEN,
        TRANSPORT_HEADER_LEN <= spec_u32_from_le_bytes(b.subrange(0, 4)) <= b.len(),
        spec_u32_from_le_bytes(b.subrange(8, 12)) != expected,
    ensures
        spec_scan(b, expected) == spec_scan(
            b.skip(
                {
                    let mlen = spec_u32_from_le_bytes(b.subrange(0, 4)) as int;
                    if spec_align4(mlen) <= b.len() {
                        spec_align4(mlen)
                    } else {
                        b.len() as int
                    }
                },
            ),
            expected,
        ),
{
}

/// A terminal marker for the expected sequence number completes the dump at
/// once: nothing after it in the buffer is looked at.
pub proof fn lemma_terminal_ends_dump(b: Seq<u8>, expected: u32)
    requires
        b.len() >= TRANSPORT_HEADER_LEN,
        TRANSPORT_HEADER_LEN <= spec_u32_from_le_bytes(b.subrange(0, 4)) <= b.len(),
        spec_u32_from_le_bytes(b.subrange(8, 12)) == expected,
        spec_u16_from_le_bytes(b.subrange(4, 6)) == NLMSG_DONE,
    ensures
        spec_scan(b, expected) == (Seq::<Seq<u8>>::empty(), ScanStatus::Finished),
{
}

/// An error frame with a nonzero embedded code fails the dump at once, with
/// the code negated into an errno; nothing after it in the buffer is looked
/// at.
pub proof fn lemma_error_frame_ends_dump(b: Seq<u8>, expected: u32)
    requires
        b.len() >= TRANSPORT_HEADER_LEN + 4,
        TRANSPORT_HEADER_LEN + 4 <= spec_u32_from_le_bytes(b.subrange(0, 4)) <= b.len(),
        spec_u32_from_le_bytes(b.subrange(8, 12)) == expected,
        spec_u16_from_le_bytes(b.subrange(4, 6)) == NLMSG_ERROR,
        spec_i32_of_u32(spec_u32_from_le_bytes(b.subrange(16, 20))) != 0,
    ensures
        spec_scan(b, expected) == (
            Seq::<Seq<u8>>::empty(),
            ScanStatus::Failing(
                -spec_i32_of_u32(spec_u32_from_le_bytes(b.subrange(16, 20))) as i64,
            ),
        ),
{
}

} // verus!
