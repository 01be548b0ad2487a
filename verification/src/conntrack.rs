//! Connection-tracking statistics: the per-CPU stats dump request and the
//! decoding of its replies.
//!
//! The request addresses the netfilter-netlink connection-tracking subsystem
//! with the "get per-CPU stats" command and an empty attribute body.  Each
//! reply payload carries the responding CPU id in the big-endian reserved
//! field of its netfilter sub-header, followed by attributes holding ten
//! defined counters as big-endian 32-bit values; unrecognized attributes and
//! payloads shorter than four bytes are silently skipped.

use vstd::prelude::*;

verus! {

use vstd::slice::slice_subrange;
use vstd::string::StringExecFns;
use crate::codec::{spec_parse_attributes, spec_attr_views, parse_attributes};
use crate::error::NetlinkError;
use crate::message::{
    spec_transport_header, spec_netfilter_sub_header, new_message, netfilter_sub_header, finalize,
    NLM_F_REQUEST, NLM_F_DUMP,
};
use crate::strutil::str_eq;
use crate::wire::{spec_u16_from_be_bytes, spec_u32_from_be_bytes, u16_from_be, u32_from_be};

/// Netlink protocol family of the netfilter subsystem (used when the socket
/// is opened).
pub const NETLINK_NETFILTER: i32 = 12;

/// Netfilter subsystem id of connection tracking.
pub const NFNL_SUBSYS_CTNETLINK: u16 = 1;

/// Command: get per-CPU statistics.
pub const IPCTNL_MSG_CT_GET_STATS_CPU: u16 = 4;

/// The message type of the stats request: subsystem in the high byte,
/// command in the low byte.
pub const CONNTRACK_STATS_TYPE: u16 = (NFNL_SUBSYS_CTNETLINK * 0x100) | IPCTNL_MSG_CT_GET_STATS_CPU;

pub const CTA_STATS_FOUND: u16 = 2;

pub const CTA_STATS_INVALID: u16 = 4;

pub const CTA_STATS_INSERT: u16 = 8;

pub const CTA_STATS_INSERT_FAILED: u16 = 9;

pub const CTA_STATS_DROP: u16 = 10;

pub const CTA_STATS_EARLY_DROP: u16 = 11;

pub const CTA_STATS_ERROR: u16 = 12;

pub const CTA_STATS_SEARCH_RESTART: u16 = 13;

pub const CTA_STATS_CLASH_RESOLVE: u16 = 14;

pub const CTA_STATS_CHAIN_TOOLONG: u16 = 15;

/// The symbolic name of a counter attribute id, if the id is one of the ten
/// defined counters.
pub open spec fn spec_counter_name(attr_type: u16) -> Option<Seq<char>> {
    if attr_type == CTA_STATS_FOUND {
        Some("found"@)
    } else if attr_type == CTA_STATS_INVALID {
        Some("invalid"@)
    } else if attr_type == CTA_STATS_INSERT {
        Some("insert"@)
    } else if attr_type == CTA_STATS_INSERT_FAILED {
        Some("insert_failed"@)
    } else if attr_type == CTA_STATS_DROP {
        Some("drop"@)
    } else if attr_type == CTA_STATS_EARLY_DROP {
        Some("early_drop"@)
    } else if attr_type == CTA_STATS_ERROR {
        Some("error"@)
    } else if attr_type == CTA_STATS_SEARCH_RESTART {
        Some("search_restart"@)
    } else if attr_type == CTA_STATS_CLASH_RESOLVE {
        Some("clash_resolve"@)
    } else if attr_type == CTA_STATS_CHAIN_TOOLONG {
        Some("chain_toolong"@)
    } else {
        None
    }
}

/// Maps a counter attribute id to its symbolic name.
pub fn attr_type_to_name(attr_type: u16) -> (r: Option<&'static str>)
    ensures
        r is Some <==> spec_counter_name(attr_type) is Some,
        r matches Some(s) ==> spec_counter_name(attr_type) == Some(s@),
{
    if attr_type == CTA_STATS_FOUND {
        Some("found")
    } else if attr_type == CTA_STATS_INVALID {
        Some("invalid")
    } else if attr_type == CTA_STATS_INSERT {
        Some("insert")
    } else if attr_type == CTA_STATS_INSERT_FAILED {
        Some("insert_failed")
    } else if attr_type == CTA_STATS_DROP {
        Some("drop")
    } else if attr_type == CTA_STATS_EARLY_DROP {
        Some("early_drop")
    } else if attr_type == CTA_STATS_ERROR {
        Some("error")
    } else if attr_type == CTA_STATS_SEARCH_RESTART {
        Some("search_restart")
    } else if attr_type == CTA_STATS_CLASH_RESOLVE {
        Some("clash_resolve")
    } else if attr_type == CTA_STATS_CHAIN_TOOLONG {
        Some("chain_toolong")
    } else {
        None
    }
}

/// Builds the per-CPU stats dump request: a 20-byte message made of the
/// transport header (length 20, request and dump flags set) and a netfilter
/// sub-header for the unspecified address family.
pub fn create_stats_request(seqno: u32) -> (r: Vec<u8>)
    ensures
        r@ == spec_transport_header(
            20,
            CONNTRACK_STATS_TYPE,
            NLM_F_REQUEST | NLM_F_DUMP,
            seqno,
            0,
        ) + spec_netfilter_sub_header(0, 0, 0),
        r@.len() == 20,
{
    let sub = netfilter_sub_header(0, 0);
    let mut msg = new_message(
        CONNTRACK_STATS_TYPE,
        NLM_F_REQUEST | NLM_F_DUMP,
        seqno,
        sub.as_slice(),
    );
    finalize(&mut msg);
    proof {
        vstd::bytes::lemma_auto_spec_u16_to_from_le_bytes();
        vstd::bytes::lemma_auto_spec_u32_to_from_le_bytes();
    }
    assert(msg@ =~= spec_transport_header(
        20,
        CONNTRACK_STATS_TYPE,
        NLM_F_REQUEST | NLM_F_DUMP,
        seqno,
        0,
    ) + spec_netfilter_sub_header(0, 0, 0));
    msg
}

/// The counter mapping a list of named pairs stands for: later entries win.
pub open spec fn spec_assoc_map(s: Seq<(String, u64)>) -> Map<Seq<char>, u64>
    decreases s.len(),
{
    if s.len() == 0 {
        Map::empty()
    } else {
        spec_assoc_map(s.drop_last()).insert(s.last().0@, s.last().1)
    }
}

/// No two entries share a name.
pub open spec fn spec_names_distinct(s: Seq<(String, u64)>) -> bool {
    forall|i: int, j: int| 0 <= i < j < s.len() ==> s[i].0@ != s[j].0@
}

proof fn lemma_assoc_absent(s: Seq<(String, u64)>, k: Seq<char>)
    requires
        forall|i: int| 0 <= i < s.len() ==> s[i].0@ != k,
    ensures
        !spec_assoc_map(s).contains_key(k),
    decreases s.len(),
{
    if s.len() > 0 {
        lemma_assoc_absent(s.drop_last(), k);
    }
}

proof fn lemma_assoc_found(s: Seq<(String, u64)>, i: int)
    requires
        spec_names_distinct(s),
        0 <= i < s.len(),
    ensures
        spec_assoc_map(s).contains_key(s[i].0@),
        spec_assoc_map(s)[s[i].0@] == s[i].1,
    decreases s.len(),
{
    if i < s.len() - 1 {
        lemma_assoc_found(s.drop_last(), i);
    }
}

proof fn lemma_assoc_update(s: Seq<(String, u64)>, i: int, name: String, value: u64)
    requires
        spec_names_distinct(s),
        0 <= i < s.len(),
        name@ == s[i].0@,
    ensures
        spec_assoc_map(s.update(i, (name, value))) == spec_assoc_map(s).insert(s[i].0@, value),
        spec_names_distinct(s.update(i, (name, value))),
    decreases s.len(),
{
    let s2 = s.update(i, (name, value));
    if i == s.len() - 1 {
        assert(s2.drop_last() =~= s.drop_last());
        assert(spec_assoc_map(s2) =~= spec_assoc_map(s).insert(s[i].0@, value));
    } else {
        lemma_assoc_update(s.drop_last(), i, name, value);
        assert(s2.drop_last() =~= s.drop_last().update(i, (name, value)));
        assert(s2.last() == s.last());
        assert(s.last().0@ != s[i].0@);
        assert(spec_assoc_map(s2) =~= spec_assoc_map(s).insert(s[i].0@, value));
    }
}

/// Per-CPU connection-tracking statistics: the CPU id and the decoded
/// counters, each under its symbolic name.
#[derive(Debug)]
pub struct CpuStats {
    /// The responding CPU.
    pub cpu_id: u16,
    /// Counter name and raw 32-bit kernel value; names are unique.
    pub counters: Vec<(String, u64)>,
}

impl CpuStats {
    /// The counters as a mapping from name to value.
    pub open spec fn counters_map(self) -> Map<Seq<char>, u64> {
        spec_assoc_map(self.counters@)
    }

    /// Counter names are unique.
    pub open spec fn wf(self) -> bool {
        spec_names_distinct(self.counters@)
    }

    /// Looks a counter up by name.
    pub fn counter(&self, name: &str) -> (r: Option<u64>)
        requires
            self.wf(),
        ensures
            r == if self.counters_map().contains_key(name@) {
                Some(self.counters_map()[name@])
            } else {
                None::<u64>
            },
    {
        let n = self.counters.len();
        let mut i: usize = 0;
        while i < n
            invariant
                i <= n,
                n == self.counters@.len(),
                self.wf(),
                forall|k: int| 0 <= k < i ==> self.counters@[k].0@ != name@,
            decreases n - i,
        {
            if str_eq(self.counters[i].0.as_str(), name) {
                proof {
                    lemma_assoc_found(self.counters@, i as int);
                }
                return Some(self.counters[i].1);
            }
            i = i + 1;
        }
        proof {
            lemma_assoc_absent(self.counters@, name@);
        }
        None
    }
}

/// Inserts or overwrites one named counter.
fn set_counter(counters: &mut Vec<(String, u64)>, name: &str, value: u64)
    requires
        spec_names_distinct(old(counters)@),
    ensures
        spec_names_distinct(final(counters)@),
        spec_assoc_map(final(counters)@) == spec_assoc_map(old(counters)@).insert(name@, value),
{
    let n = counters.len();
    let mut i: usize = 0;
    while i < n
        invariant
            i <= n,
            n == counters@.len(),
            counters@ == old(counters)@,
            spec_names_distinct(counters@),
            forall|k: int| 0 <= k < i ==> counters@[k].0@ != name@,
        decreases n - i,
    {
        if str_eq(counters[i].0.as_str(), name) {
            let owned = String::from_str(name);
            proof {
                lemma_assoc_found(counters@, i as int);
                lemma_assoc_update(counters@, i as int, owned, value);
            }
            counters[i] = (owned, value);
            return ;
        }
        i = i + 1;
    }
    let owned = String::from_str(name);
    counters.push((owned, value));
    assert(counters@.drop_last() =~= old(counters)@);
}

/// The counters a decoded attribute list yields: each attribute whose id is
/// a defined counter and whose payload holds at least four bytes contributes
/// its big-endian 32-bit value under the counter's name; later occurrences
/// overwrite earlier ones; everything else is skipped.
pub open spec fn spec_stats_counters(attrs: Seq<(u16, Seq<u8>)>) -> Map<Seq<char>, u64>
    decreases attrs.len(),
{
    if attrs.len() == 0 {
        Map::empty()
    } else {
        let prev = spec_stats_counters(attrs.drop_last());
        let t = attrs.last().0;
        let p = attrs.last().1;
        if spec_counter_name(t) is Some && p.len() >= 4 {
            prev.insert(
                spec_counter_name(t).unwrap(),
                spec_u32_from_be_bytes(p.take(4)) as u64,
            )
        } else {
            prev
        }
    }
}

/// Decodes one dump payload into per-CPU statistics.
///
/// The payload starts with the 4-byte netfilter sub-header, whose big-endian
/// reserved field carries the CPU id; the attributes after it carry the
/// counters.  A payload too short for the sub-header is a protocol error
/// (the caller skips that one message, never the whole dump).
pub fn parse_stats_message(data: &[u8]) -> (r: Result<CpuStats, NetlinkError>)
    ensures
        r is Err <==> data@.len() < 4,
        r matches Err(e) ==> e == NetlinkError::ProtocolError,
        r matches Ok(stats) ==> {
            &&& stats.cpu_id == spec_u16_from_be_bytes(data@.subrange(2, 4))
            &&& stats.wf()
            &&& stats.counters_map() == spec_stats_counters(
                spec_parse_attributes(data@.skip(4)),
            )
        },
{
    let n = data.len();
    if n < 4 {
        return Err(NetlinkError::ProtocolError);
    }
    let cpu_id = u16_from_be(slice_subrange(data, 2, 4));
    let attrs = parse_attributes(slice_subrange(data, 4, n));
    let ghost views = spec_attr_views(attrs@);
    let mut counters: Vec<(String, u64)> = Vec::new();
    let count = attrs.len();
    let mut i: usize = 0;
    assert(views.take(0) =~= Seq::<(u16, Seq<u8>)>::empty());
    while i < count
        invariant
            i <= count,
            count == attrs@.len(),
            views == spec_attr_views(attrs@),
            spec_names_distinct(counters@),
            spec_assoc_map(counters@) == spec_stats_counters(views.take(i as int)),
        decreases count - i,
    {
        assert(views.take(i + 1).drop_last() =~= views.take(i as int));
        assert(views.take(i + 1).last() == views[i as int]);
        let t = attrs[i].0;
        let plen = attrs[i].1.len();
        if plen >= 4 {
            match attr_type_to_name(t) {
                Some(name) => {
                    let value = u32_from_be(slice_subrange(attrs[i].1.as_slice(), 0, 4)) as u64;
                    assert(attrs@[i as int].1@.subrange(0, 4) =~= views[i as int].1.take(4));
                    set_counter(&mut counters, name, value);
                },
                None => {},
            }
        }
        i = i + 1;
    }
    assert(views.take(count as int) =~= views);
    Ok(CpuStats { cpu_id, counters })
}

/// The statistics a list of dump payloads decodes to, in order: one entry
/// per payload long enough for the sub-header (the CPU id and the counter
/// mapping), shorter payloads skipped.
pub open spec fn spec_dump_stats(ps: Seq<Seq<u8>>) -> Seq<(u16, Map<Seq<char>, u64>)>
    decreases ps.len(),
{
    if ps.len() == 0 {
        seq![]
    } else {
        let prev = spec_dump_stats(ps.drop_last());
        let p = ps.last();
        if p.len() >= 4 {
            prev.push(
                (
                    spec_u16_from_be_bytes(p.subrange(2, 4)),
                    spec_stats_counters(spec_parse_attributes(p.skip(4))),
                ),
            )
        } else {
            prev
        }
    }
}

/// Decodes every payload of a reassembled dump, skipping payloads too short
/// for the sub-header.
pub fn parse_stats_dump(payloads: &Vec<Vec<u8>>) -> (r: Vec<CpuStats>)
    ensures
        forall|k: int| 0 <= k < r@.len() ==> #[trigger] r@[k].wf(),
        r@.map_values(|s: CpuStats| (s.cpu_id, s.counters_map())) == spec_dump_stats(
            crate::dump::spec_payload_views(payloads@),
        ),
{
    let ghost views = crate::dump::spec_payload_views(payloads@);
    let mut out: Vec<CpuStats> = Vec::new();
    let n = payloads.len();
    let mut i: usize = 0;
    assert(views.take(0) =~= Seq::<Seq<u8>>::empty());
    assert(out@.map_values(|s: CpuStats| (s.cpu_id, s.counters_map())) =~= spec_dump_stats(
        views.take(0),
    ));
    while i < n
        invariant
            i <= n,
            n == payloads@.len(),
            views == crate::dump::spec_payload_views(payloads@),
            forall|k: int| 0 <= k < out@.len() ==> #[trigger] out@[k].wf(),
            out@.map_values(|s: CpuStats| (s.cpu_id, s.counters_map())) == spec_dump_stats(
                views.take(i as int),
            ),
        decreases n - i,
    {
        assert(views.take(i + 1).drop_last() =~= views.take(i as int));
        assert(views.take(i + 1).last() == views[i as int]);
        match parse_stats_message(payloads[i].as_slice()) {
            Ok(stats) => {
                out.push(stats);
                assert(out@.map_values(|s: CpuStats| (s.cpu_id, s.counters_map()))
                    =~= out@.drop_last().map_values(|s: CpuStats| (s.cpu_id, s.counters_map()))
                    + seq![(out@.last().cpu_id, out@.last().counters_map())]);
            },
            Err(_) => {},
        }
        i = i + 1;
    }
    assert(views.take(n as int) =~= views);
    out
}

} // verus!
