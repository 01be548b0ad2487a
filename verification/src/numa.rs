//! NUMA node memory and statistics samples, parsed from the kernel's
//! per-node `meminfo` and `numastat` tables.
//!
//! `meminfo` lines read `Node X FieldName: VALUE kB`: the field name (colons
//! stripped) and the value scaled to bytes make one sample.  `numastat`
//! lines read `stat_name VALUE` in pages.  Malformed lines are skipped, not
//! errors.

use vstd::prelude::*;

verus! {

use vstd::string::{StringSliceAdditionalSpecFns, StringExecFns};
use vstd::utf8::{valid_utf8, decode_utf8, encode_utf8};
use crate::strutil::bytes_to_string;
use crate::textparse::{
    spec_split_ws, spec_split_lines, spec_chunk_views, spec_strip_colons, spec_parse_u64,
    split_ws, split_lines, strip_colons, parse_u64_bytes,
};

/// One labeled sample: the node it belongs to, the field or statistic name,
/// and the raw integer value (bytes for memory fields, pages for
/// statistics).
#[derive(Debug)]
pub struct NumaSample {
    pub node: String,
    pub name: String,
    pub value: u64,
}

/// What one `meminfo` line contributes: the third token with trailing
/// colons stripped names the field, the fourth is a kilobyte count scaled
/// to bytes; lines with fewer than four tokens, an unparsable count, a
/// count too large to scale, or a non-UTF-8 name are skipped.
pub open spec fn spec_meminfo_line(line: Seq<u8>) -> Seq<(Seq<char>, u64)> {
    let parts = spec_split_ws(line);
    if parts.len() < 4 {
        seq![]
    } else {
        let field = spec_strip_colons(parts[2]);
        let v = spec_parse_u64(parts[3]);
        if v is Some && v.unwrap() <= u64::MAX / 1024 && valid_utf8(field) {
            seq![(decode_utf8(field), (v.unwrap() * 1024) as u64)]
        } else {
            seq![]
        }
    }
}

pub open spec fn spec_meminfo_lines(lines: Seq<Seq<u8>>) -> Seq<(Seq<char>, u64)>
    decreases lines.len(),
{
    if lines.len() == 0 {
        seq![]
    } else {
        spec_meminfo_lines(lines.drop_last()) + spec_meminfo_line(lines.last())
    }
}

/// The samples a `meminfo` table yields, in line order.
pub open spec fn spec_meminfo(b: Seq<u8>) -> Seq<(Seq<char>, u64)> {
    spec_meminfo_lines(spec_split_lines(b))
}

/// What one `numastat` line contributes: the first token names the
/// statistic, the second is its page count; lines with fewer than two
/// tokens, an unparsable count, or a non-UTF-8 name are skipped.
pub open spec fn spec_numastat_line(line: Seq<u8>) -> Seq<(Seq<char>, u64)> {
    let parts = spec_split_ws(line);
    if parts.len() < 2 {
        seq![]
    } else {
        let v = spec_parse_u64(parts[1]);
        if v is Some && valid_utf8(parts[0]) {
            seq![(decode_utf8(parts[0]), v.unwrap())]
        } else {
            seq![]
        }
    }
}

pub open spec fn spec_numastat_lines(lines: Seq<Seq<u8>>) -> Seq<(Seq<char>, u64)>
    decreases lines.len(),
{
    if lines.len() == 0 {
        seq![]
    } else {
        spec_numastat_lines(lines.drop_last()) + spec_numastat_line(lines.last())
    }
}

/// The samples a `numastat` table yields, in line order.
pub open spec fn spec_numastat(b: Seq<u8>) -> Seq<(Seq<char>, u64)> {
    spec_numastat_lines(spec_split_lines(b))
}

/// The name-value pairs a sample list stands for.
pub open spec fn spec_sample_pairs(s: Seq<NumaSample>) -> Seq<(Seq<char>, u64)> {
    s.map_values(|x: NumaSample| (x.name@, x.value))
}

/// Every sample carries the given node label.
pub open spec fn spec_all_node(s: Seq<NumaSample>, node: Seq<char>) -> bool {
    forall|k: int| 0 <= k < s.len() ==> (#[trigger] s[k]).node@ == node
}

/// Parses a node's `meminfo` table into byte-valued samples labeled with
/// the node's name.
pub fn parse_meminfo(content: &str, node_name: &str) -> (r: Vec<NumaSample>)
    ensures
        spec_sample_pairs(r@) == spec_meminfo(content.spec_bytes()),
        spec_all_node(r@, node_name@),
{
    let bytes = content.as_bytes();
    let lines = split_lines(bytes);
    let ghost lviews = spec_chunk_views(lines@);
    let mut r: Vec<NumaSample> = Vec::new();
    let n = lines.len();
    let mut i: usize = 0;
    assert(lviews.take(0) =~= Seq::<Seq<u8>>::empty());
    assert(spec_sample_pairs(r@) =~= spec_meminfo_lines(lviews.take(0)));
    while i < n
        invariant
            i <= n,
            n == lines@.len(),
            lviews == spec_chunk_views(lines@),
            spec_sample_pairs(r@) == spec_meminfo_lines(lviews.take(i as int)),
            spec_all_node(r@, node_name@),
        decreases n - i,
    {
        assert(lviews.take(i + 1).drop_last() =~= lviews.take(i as int));
        assert(lviews.take(i + 1).last() == lviews[i as int]);
        let parts = split_ws(lines[i].as_slice());
        let ghost pviews = spec_chunk_views(parts@);
        if parts.len() >= 4 {
            let field = strip_colons(parts[2].as_slice());
            match parse_u64_bytes(parts[3].as_slice()) {
                Some(v) => {
                    if v <= u64::MAX / 1024 {
                        match bytes_to_string(field) {
                            Some(name) => {
                                let sample = NumaSample {
                                    node: String::from_str(node_name),
                                    name,
                                    value: v * 1024,
                                };
                                r.push(sample);
                                assert(spec_sample_pairs(r@) =~= spec_sample_pairs(r@.drop_last())
                                    + spec_meminfo_line(lviews[i as int]));
                            },
                            None => {
                                assert(spec_meminfo_line(lviews[i as int]) =~= Seq::<(
                                    Seq<char>,
                                    u64,
                                )>::empty());
                                assert(spec_sample_pairs(r@) + Seq::<(Seq<char>, u64)>::empty()
                                    =~= spec_sample_pairs(r@));
                            },
                        }
                    } else {
                        assert(spec_sample_pairs(r@) + spec_meminfo_line(lviews[i as int])
                            =~= spec_sample_pairs(r@));
                    }
                },
                None => {
                    assert(spec_sample_pairs(r@) + spec_meminfo_line(lviews[i as int])
                        =~= spec_sample_pairs(r@));
                },
            }
        } else {
            assert(spec_sample_pairs(r@) + spec_meminfo_line(lviews[i as int]) =~= spec_sample_pairs(
                r@,
            ));
        }
        i = i + 1;
    }
    assert(lviews.take(n as int) =~= lviews);
    r
}

/// Parses a node's `numastat` table into page-valued samples labeled with
/// the node's name.
pub fn parse_numastat(content: &str, node_name: &str) -> (r: Vec<NumaSample>)
    ensures
        spec_sample_pairs(r@) == spec_numastat(content.spec_bytes()),
        spec_all_node(r@, node_name@),
{
    let bytes = content.as_bytes();
    let lines = split_lines(bytes);
    let ghost lviews = spec_chunk_views(lines@);
    let mut r: Vec<NumaSample> = Vec::new();
    let n = lines.len();
    let mut i: usize = 0;
    assert(lviews.take(0) =~= Seq::<Seq<u8>>::empty());
    assert(spec_sample_pairs(r@) =~= spec_numastat_lines(lviews.take(0)));
    while i < n
        invariant
            i <= n,
            n == lines@.len(),
            lviews == spec_chunk_views(lines@),
            spec_sample_pairs(r@) == spec_numastat_lines(lviews.take(i as int)),
            spec_all_node(r@, node_name@),
        decreases n - i,
    {
        assert(lviews.take(i + 1).drop_last() =~= lviews.take(i as int));
        assert(lviews.take(i + 1).last() == lviews[i as int]);
        let parts = split_ws(lines[i].as_slice());
        let ghost pviews = spec_chunk_views(parts@);
        if parts.len() >= 2 {
            match parse_u64_bytes(parts[1].as_slice()) {
                Some(v) => {
                    let name_bytes = vstd::slice::slice_to_vec(parts[0].as_slice());
                    assert(name_bytes@ =~= pviews[0]);
                    match bytes_to_string(name_bytes) {
                        Some(name) => {
                            let sample = NumaSample {
                                node: String::from_str(node_name),
                                name,
                                value: v,
                            };
                            r.push(sample);
                            assert(spec_sample_pairs(r@) =~= spec_sample_pairs(r@.drop_last())
                                + spec_numastat_line(lviews[i as int]));
                        },
                        None => {
                            assert(spec_numastat_line(lviews[i as int]) =~= Seq::<(
                                Seq<char>,
                                u64,
                            )>::empty());
                            assert(spec_sample_pairs(r@) + Seq::<(Seq<char>, u64)>::empty()
                                =~= spec_sample_pairs(r@));
                        },
                    }
                },
                None => {
                    assert(spec_sample_pairs(r@) + spec_numastat_line(lviews[i as int])
                        =~= spec_sample_pairs(r@));
                },
            }
        } else {
            assert(spec_sample_pairs(r@) + spec_numastat_line(lviews[i as int])
                =~= spec_sample_pairs(r@));
        }
        i = i + 1;
    }
    assert(lviews.take(n as int) =~= lviews);
    r
}

/// Whether a directory entry names a NUMA node: `node` followed by ASCII
/// digits only.
pub open spec fn spec_is_node_name(b: Seq<u8>) -> bool {
    b.len() >= 4 && b.subrange(0, 4) == seq![0x6Eu8, 0x6Fu8, 0x64u8, 0x65u8] && forall|k: int|
        4 <= k < b.len() ==> 0x30 <= #[trigger] b[k] <= 0x39
}

/// Checks a directory entry name for the `node<digits>` shape.
pub fn is_node_name(name: &str) -> (r: bool)
    ensures
        r == spec_is_node_name(name.spec_bytes()),
{
    let bytes = name.as_bytes();
    let n = bytes.len();
    if n < 4 {
        return false;
    }
    if !(bytes[0] == 0x6E && bytes[1] == 0x6F && bytes[2] == 0x64 && bytes[3] == 0x65) {
        assert(name.spec_bytes().subrange(0, 4) != seq![0x6Eu8, 0x6Fu8, 0x64u8, 0x65u8]) by {
            assert(name.spec_bytes().subrange(0, 4)[0] == bytes@[0]);
            assert(name.spec_bytes().subrange(0, 4)[1] == bytes@[1]);
            assert(name.spec_bytes().subrange(0, 4)[2] == bytes@[2]);
            assert(name.spec_bytes().subrange(0, 4)[3] == bytes@[3]);
        }
        return false;
    }
    assert(bytes@.subrange(0, 4) =~= seq![0x6Eu8, 0x6Fu8, 0x64u8, 0x65u8]);
    let mut i: usize = 4;
    while i < n
        invariant
            4 <= i <= n,
            n == bytes@.len(),
            forall|k: int| 4 <= k < i ==> 0x30 <= #[trigger] bytes@[k] <= 0x39,
        ensures
            4 <= i <= n,
            forall|k: int| 4 <= k < i ==> 0x30 <= #[trigger] bytes@[k] <= 0x39,
            i == n || !(0x30 <= bytes@[i as int] <= 0x39),
        decreases n - i,
    {
        if bytes[i] < 0x30 || bytes[i] > 0x39 {
            break;
        }
        i = i + 1;
    }
    i == n
}

/// What the scan hands in for one node directory: its name and the contents
/// of its two tables, where readable.
pub struct NumaNodeInput {
    pub name: String,
    pub meminfo: Option<String>,
    pub numastat: Option<String>,
}

/// One poll's NUMA result: the matched node count and the samples of both
/// tables.
pub struct NumaReport {
    pub node_count: usize,
    pub memory: Vec<NumaSample>,
    pub stats: Vec<NumaSample>,
}

/// How many inputs name a NUMA node.
pub open spec fn spec_node_count(inputs: Seq<NumaNodeInput>) -> nat
    decreases inputs.len(),
{
    if inputs.len() == 0 {
        0
    } else {
        spec_node_count(inputs.drop_last()) + if spec_is_node_name(
            encode_utf8(inputs.last().name@),
        ) {
            1nat
        } else {
            0nat
        }
    }
}

/// The labeled memory samples the matched inputs yield.
pub open spec fn spec_nodes_memory(inputs: Seq<NumaNodeInput>) -> Seq<(Seq<char>, Seq<char>, u64)>
    decreases inputs.len(),
{
    if inputs.len() == 0 {
        seq![]
    } else {
        let x = inputs.last();
        spec_nodes_memory(inputs.drop_last()) + if spec_is_node_name(encode_utf8(x.name@))
            && x.meminfo is Some {
            spec_meminfo(encode_utf8(x.meminfo.unwrap()@)).map_values(
                |p: (Seq<char>, u64)| (x.name@, p.0, p.1),
            )
        } else {
            seq![]
        }
    }
}

/// The labeled statistics samples the matched inputs yield.
pub open spec fn spec_nodes_stats(inputs: Seq<NumaNodeInput>) -> Seq<(Seq<char>, Seq<char>, u64)>
    decreases inputs.len(),
{
    if inputs.len() == 0 {
        seq![]
    } else {
        let x = inputs.last();
        spec_nodes_stats(inputs.drop_last()) + if spec_is_node_name(encode_utf8(x.name@))
            && x.numastat is Some {
            spec_numastat(encode_utf8(x.numastat.unwrap()@)).map_values(
                |p: (Seq<char>, u64)| (x.name@, p.0, p.1),
            )
        } else {
            seq![]
        }
    }
}

/// The labeled triples a sample list stands for.
pub open spec fn spec_sample_triples(s: Seq<NumaSample>) -> Seq<(Seq<char>, Seq<char>, u64)> {
    s.map_values(|x: NumaSample| (x.node@, x.name@, x.value))
}

/// Computes one poll's NUMA samples: inputs whose name has the
/// `node<digits>` shape are counted and their two tables parsed; everything
/// else is ignored.
pub fn update_metrics(inputs: &Vec<NumaNodeInput>) -> (r: NumaReport)
    ensures
        r.node_count == spec_node_count(inputs@),
        spec_sample_triples(r.memory@) == spec_nodes_memory(inputs@),
        spec_sample_triples(r.stats@) == spec_nodes_stats(inputs@),
{
    let mut memory: Vec<NumaSample> = Vec::new();
    let mut stats: Vec<NumaSample> = Vec::new();
    let mut node_count: usize = 0;
    let n = inputs.len();
    let mut i: usize = 0;
    assert(inputs@.take(0) =~= Seq::<NumaNodeInput>::empty());
    assert(spec_sample_triples(memory@) =~= spec_nodes_memory(inputs@.take(0)));
    assert(spec_sample_triples(stats@) =~= spec_nodes_stats(inputs@.take(0)));
    while i < n
        invariant
            i <= n,
            n == inputs@.len(),
            node_count <= i,
            node_count == spec_node_count(inputs@.take(i as int)),
            spec_sample_triples(memory@) == spec_nodes_memory(inputs@.take(i as int)),
            spec_sample_triples(stats@) == spec_nodes_stats(inputs@.take(i as int)),
        decreases n - i,
    {
        assert(inputs@.take(i + 1).drop_last() =~= inputs@.take(i as int));
        assert(inputs@.take(i + 1).last() == inputs@[i as int]);
        let node = &inputs[i];
        if is_node_name(node.name.as_str()) {
            node_count = node_count + 1;
            match &node.meminfo {
                Some(content) => {
                    let samples = parse_meminfo(content.as_str(), node.name.as_str());
                    proof {
                        lemma_labeled_triples(
                            samples@,
                            inputs@[i as int].name@,
                            spec_meminfo(encode_utf8(inputs@[i as int].meminfo.unwrap()@)),
                        );
                    }
                    let ghost before = memory@;
                    let mut tail = samples;
                    memory.append(&mut tail);
                    assert(spec_sample_triples(memory@) =~= spec_sample_triples(before)
                        + spec_sample_triples(samples@));
                },
                None => {
                    assert(spec_sample_triples(memory@) + Seq::<(
                        Seq<char>,
                        Seq<char>,
                        u64,
                    )>::empty() =~= spec_sample_triples(memory@));
                },
            }
            match &node.numastat {
                Some(content) => {
                    let samples = parse_numastat(content.as_str(), node.name.as_str());
                    proof {
                        lemma_labeled_triples(
                            samples@,
                            inputs@[i as int].name@,
                            spec_numastat(encode_utf8(inputs@[i as int].numastat.unwrap()@)),
                        );
                    }
                    let ghost before = stats@;
                    let mut tail = samples;
                    stats.append(&mut tail);
                    assert(spec_sample_triples(stats@) =~= spec_sample_triples(before)
                        + spec_sample_triples(samples@));
                },
                None => {
                    assert(spec_sample_triples(stats@) + Seq::<(
                        Seq<char>,
                        Seq<char>,
                        u64,
                    )>::empty() =~= spec_sample_triples(stats@));
                },
            }
        } else {
            assert(spec_sample_triples(memory@) + Seq::<(Seq<char>, Seq<char>, u64)>::empty()
                =~= spec_sample_triples(memory@));
            assert(spec_sample_triples(stats@) + Seq::<(Seq<char>, Seq<char>, u64)>::empty()
                =~= spec_sample_triples(stats@));
        }
        i = i + 1;
    }
    assert(inputs@.take(n as int) =~= inputs@);
    NumaReport { node_count, memory, stats }
}

/// Samples that all carry one node label, with pairs matching a parse
/// result, stand for exactly that parse result labeled with the node.
proof fn lemma_labeled_triples(s: Seq<NumaSample>, node: Seq<char>, pairs: Seq<(Seq<char>, u64)>)
    requires
        spec_sample_pairs(s) == pairs,
        spec_all_node(s, node),
    ensures
        spec_sample_triples(s) == pairs.map_values(|p: (Seq<char>, u64)| (node, p.0, p.1)),
{
    assert forall|k: int| 0 <= k < s.len() implies spec_sample_triples(s)[k] == pairs.map_values(
        |p: (Seq<char>, u64)| (node, p.0, p.1),
    )[k] by {
        assert(spec_sample_pairs(s)[k] == (s[k].name@, s[k].value));
    }
    assert(spec_sample_triples(s) =~= pairs.map_values(|p: (Seq<char>, u64)| (node, p.0, p.1)));
}

} // verus!
