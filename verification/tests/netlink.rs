use netlink_metrics::codec::{append_attribute, append_string_attribute, append_u32_attribute,
    begin_nested, end_nested, parse_attributes};
use netlink_metrics::conntrack::{attr_type_to_name, create_stats_request, parse_stats_dump,
    parse_stats_message, CTA_STATS_DROP, CTA_STATS_FOUND};
use netlink_metrics::dump::{DumpAccumulator, DumpPhase};
use netlink_metrics::error::NetlinkError;
use netlink_metrics::ethtool::{build_family_request, build_stats_request, build_strset_request,
    ethtool_samples, extract_header_name, is_ethernet_type, parse_stat_groups, parse_stringsets,
    resolve_family, stringset_name, StatGroup, StringSet};
use netlink_metrics::message::{finalize, new_message, NLM_F_DUMP, NLM_F_REQUEST};
use netlink_metrics::strutil::parse_string;

fn transport_header(len: u32, msg_type: u16, flags: u16, seq: u32) -> Vec<u8> {
    let mut b = Vec::new();
    b.extend_from_slice(&len.to_le_bytes());
    b.extend_from_slice(&msg_type.to_le_bytes());
    b.extend_from_slice(&flags.to_le_bytes());
    b.extend_from_slice(&seq.to_le_bytes());
    b.extend_from_slice(&0u32.to_le_bytes());
    b
}

#[test]
fn test_attr_type_to_name() {
    assert_eq!(attr_type_to_name(CTA_STATS_FOUND), Some("found"));
    assert_eq!(attr_type_to_name(CTA_STATS_DROP), Some("drop"));
    assert_eq!(attr_type_to_name(0), None);
    assert_eq!(attr_type_to_name(100), None);
}

#[test]
fn test_create_stats_request() {
    let request = create_stats_request(1);
    assert_eq!(request.len(), 20); // 16 (transport header) + 4 (netfilter sub-header)

    let msg_type = u16::from_le_bytes([request[4], request[5]]);
    let expected_type = (1u16 << 8) | 4;
    assert_eq!(msg_type, expected_type);
    let flags = u16::from_le_bytes([request[6], request[7]]);
    assert_eq!(flags, NLM_F_REQUEST | NLM_F_DUMP);
    let len = u32::from_le_bytes([request[0], request[1], request[2], request[3]]);
    assert_eq!(len, 20);
    let seq = u32::from_le_bytes([request[8], request[9], request[10], request[11]]);
    assert_eq!(seq, 1);
}

#[test]
fn attribute_round_trip_recovers_type_and_payload() {
    let mut buf = Vec::new();
    append_attribute(&mut buf, 0x8003, &[1, 2, 3, 4, 5]);
    // serialized span is 4 + 5 rounded up to a multiple of 4
    assert_eq!(buf.len(), 12);
    assert_eq!(u16::from_le_bytes([buf[0], buf[1]]), 9); // unpadded size
    let attrs = parse_attributes(&buf);
    assert_eq!(attrs.len(), 1);
    assert_eq!(attrs[0].0, 3); // nested marker stripped
    assert_eq!(attrs[0].1, vec![1, 2, 3, 4, 5]);
}

#[test]
fn attribute_round_trip_aligned_payload() {
    let mut buf = Vec::new();
    append_attribute(&mut buf, 7, &[9, 8, 7, 6]);
    assert_eq!(buf.len(), 8);
    append_u32_attribute(&mut buf, 8, 0xDEADBEEF);
    let attrs = parse_attributes(&buf);
    assert_eq!(attrs.len(), 2);
    assert_eq!(attrs[0], (7, vec![9, 8, 7, 6]));
    assert_eq!(attrs[1], (8, 0xDEADBEEFu32.to_le_bytes().to_vec()));
}

#[test]
fn parse_attributes_stops_at_garbled_tail() {
    // a valid attribute, then a header whose declared length is too small
    let mut buf = Vec::new();
    append_attribute(&mut buf, 1, &[42]);
    buf.extend_from_slice(&[2, 0, 9, 0]); // declared length 2 < header size
    let attrs = parse_attributes(&buf);
    assert_eq!(attrs.len(), 1);
    assert_eq!(attrs[0], (1, vec![42]));
    // a header that would overrun the remaining bytes
    let short = [8u8, 0, 1, 0, 5];
    assert_eq!(parse_attributes(&short).len(), 0);
}

#[test]
fn nested_attribute_builds_and_reads_back() {
    let mut buf = Vec::new();
    let marker = begin_nested(&mut buf, 5);
    append_u32_attribute(&mut buf, 1, 21);
    end_nested(&mut buf, marker);
    let attrs = parse_attributes(&buf);
    assert_eq!(attrs.len(), 1);
    assert_eq!(attrs[0].0, 5); // nested marker stripped on read
    let children = parse_attributes(&attrs[0].1);
    assert_eq!(children, vec![(1, 21u32.to_le_bytes().to_vec())]);
}

#[test]
fn finalize_writes_exact_buffer_length() {
    let mut msg = new_message(0x10, NLM_F_REQUEST, 3, &[1, 1, 0, 0]);
    append_string_attribute(&mut msg, 2, "ethtool");
    finalize(&mut msg);
    let len = u32::from_le_bytes([msg[0], msg[1], msg[2], msg[3]]);
    assert_eq!(len as usize, msg.len());
    assert_eq!(len, 32);
}

#[test]
fn family_request_carries_name_attribute() {
    let req = build_family_request(5);
    assert_eq!(req.len(), 32);
    assert_eq!(u16::from_le_bytes([req[4], req[5]]), 0x10); // control family
    assert_eq!(req[16], 3); // get-family command
    assert_eq!(&req[24..32], b"ethtool\0");
}

#[test]
fn test_parse_stats_message() {
    // netfilter sub-header with big-endian CPU id 5, then one counter
    // attribute: type 2 (found), 4-byte big-endian payload 00 00 00 2A
    let payload = [0u8, 0, 0, 5, 8, 0, 2, 0, 0x00, 0x00, 0x00, 0x2A];
    let stats = parse_stats_message(&payload).unwrap();
    assert_eq!(stats.cpu_id, 5);
    assert_eq!(stats.counter("found"), Some(42));
    assert_eq!(stats.counter("drop"), None);
}

#[test]
fn short_stats_payload_is_a_protocol_error() {
    assert_eq!(parse_stats_message(&[0, 0]).unwrap_err(), NetlinkError::ProtocolError);
}

#[test]
fn stats_dump_skips_short_payloads() {
    let good = vec![0u8, 0, 0, 1, 8, 0, 4, 0, 0x00, 0x00, 0x01, 0x00];
    let dump = vec![vec![0u8, 0], good];
    let all = parse_stats_dump(&dump);
    assert_eq!(all.len(), 1);
    assert_eq!(all[0].cpu_id, 1);
    assert_eq!(all[0].counter("invalid"), Some(256));
}

#[test]
fn terminal_message_ends_accumulation_and_ignores_trailing_bytes() {
    let mut buf = transport_header(20, 100, 0, 7);
    buf.extend_from_slice(&[0xAA, 0xBB, 0xCC, 0xDD]);
    buf.extend_from_slice(&transport_header(16, 3, 0, 7)); // terminal marker
    buf.extend_from_slice(&transport_header(20, 100, 0, 7));
    buf.extend_from_slice(&[0x01, 0x02, 0x03, 0x04]); // after the terminal: ignored
    let mut acc = DumpAccumulator::new(7);
    acc.push_read(&buf);
    assert_eq!(acc.phase, DumpPhase::Done);
    assert_eq!(acc.payloads, vec![vec![0xAA, 0xBB, 0xCC, 0xDD]]);
}

#[test]
fn foreign_sequence_number_is_skipped() {
    let mut buf = transport_header(20, 100, 0, 9); // wrong sequence
    buf.extend_from_slice(&[1, 1, 1, 1]);
    buf.extend_from_slice(&transport_header(20, 100, 0, 7));
    buf.extend_from_slice(&[0x11, 0x22, 0x33, 0x44]);
    let mut acc = DumpAccumulator::new(7);
    acc.push_read(&buf);
    assert_eq!(acc.phase, DumpPhase::Accumulating);
    assert_eq!(acc.payloads, vec![vec![0x11, 0x22, 0x33, 0x44]]);
}

#[test]
fn error_frame_surfaces_permission_denied_and_ends_dump() {
    let mut buf = transport_header(20, 2, 0, 7); // error frame
    buf.extend_from_slice(&(-13i32).to_le_bytes());
    buf.extend_from_slice(&transport_header(20, 100, 0, 7));
    buf.extend_from_slice(&[9, 9, 9, 9]); // after the error: ignored
    let mut acc = DumpAccumulator::new(7);
    acc.push_read(&buf);
    assert_eq!(acc.phase, DumpPhase::Failed(13));
    assert!(acc.payloads.is_empty());
}

#[test]
fn zero_error_code_is_an_acknowledgement_and_is_skipped() {
    let mut buf = transport_header(20, 2, 0, 7);
    buf.extend_from_slice(&0i32.to_le_bytes());
    buf.extend_from_slice(&transport_header(20, 100, 0, 7));
    buf.extend_from_slice(&[5, 6, 7, 8]);
    let mut acc = DumpAccumulator::new(7);
    acc.push_read(&buf);
    assert_eq!(acc.phase, DumpPhase::Accumulating);
    assert_eq!(acc.payloads, vec![vec![5, 6, 7, 8]]);
}

#[test]
fn truncated_message_ends_the_buffer_walk_only() {
    let mut buf = transport_header(20, 100, 0, 7);
    buf.extend_from_slice(&[1, 2, 3, 4]);
    buf.extend_from_slice(&transport_header(200, 100, 0, 7)); // overruns the buffer
    let mut acc = DumpAccumulator::new(7);
    acc.push_read(&buf);
    assert_eq!(acc.phase, DumpPhase::Accumulating);
    assert_eq!(acc.payloads, vec![vec![1, 2, 3, 4]]);
}

#[test]
fn family_id_is_found_in_replies() {
    // generic-netlink sub-header, then a family-id attribute with value 0x1234
    let payload = vec![3u8, 1, 0, 0, 6, 0, 1, 0, 0x34, 0x12, 0, 0];
    assert_eq!(resolve_family(&vec![payload]), Ok(0x1234));
}

#[test]
fn missing_family_id_reports_family_not_found() {
    assert_eq!(resolve_family(&Vec::new()), Err(NetlinkError::FamilyNotFound));
    // a reply with only a name attribute, no id
    let mut payload = vec![3u8, 1, 0, 0];
    append_string_attribute(&mut payload, 2, "ethtool");
    assert_eq!(resolve_family(&vec![payload]), Err(NetlinkError::FamilyNotFound));
}

#[test]
fn header_name_is_extracted() {
    let mut header = Vec::new();
    append_string_attribute(&mut header, 2, "eth0");
    assert_eq!(extract_header_name(&header), Some("eth0".to_string()));
    assert_eq!(extract_header_name(&[]), None);
}

#[test]
fn parse_string_cuts_at_nul() {
    assert_eq!(parse_string(b"hello\0world"), Some("hello".to_string()));
    assert_eq!(parse_string(b"plain"), Some("plain".to_string()));
    assert_eq!(parse_string(&[0xFF, 0xFE]), None);
}

fn stringset_reply(dev: &str) -> Vec<u8> {
    let mut reply = vec![0u8, 1, 0, 0]; // generic-netlink sub-header
    let header = begin_nested(&mut reply, 1);
    append_string_attribute(&mut reply, 2, dev);
    end_nested(&mut reply, header);
    let sets = begin_nested(&mut reply, 2);
    let set = begin_nested(&mut reply, 1);
    append_u32_attribute(&mut reply, 1, 21);
    let strings = begin_nested(&mut reply, 3);
    for (index, value) in [(0u32, "a_bit"), (1u32, "b_bit")] {
        let entry = begin_nested(&mut reply, 1);
        append_u32_attribute(&mut reply, 1, index);
        append_string_attribute(&mut reply, 2, value);
        end_nested(&mut reply, entry);
    }
    end_nested(&mut reply, strings);
    end_nested(&mut reply, set);
    end_nested(&mut reply, sets);
    reply
}

#[test]
fn stringsets_are_decoded_for_the_matching_device() {
    let sets = parse_stringsets(&vec![stringset_reply("eth0")], "eth0");
    assert_eq!(sets.len(), 1);
    assert_eq!(sets[0].id, 21);
    assert_eq!(sets[0].strings, vec!["a_bit".to_string(), "b_bit".to_string()]);
}

#[test]
fn stringsets_of_other_devices_are_ignored() {
    let sets = parse_stringsets(&vec![stringset_reply("eth1")], "eth0");
    assert!(sets.is_empty());
}

#[test]
fn string_index_gaps_are_empty_strings() {
    let mut reply = vec![0u8, 1, 0, 0];
    let header = begin_nested(&mut reply, 1);
    append_string_attribute(&mut reply, 2, "eth0");
    end_nested(&mut reply, header);
    let sets = begin_nested(&mut reply, 2);
    let set = begin_nested(&mut reply, 1);
    append_u32_attribute(&mut reply, 1, 17);
    let strings = begin_nested(&mut reply, 3);
    let entry = begin_nested(&mut reply, 1);
    append_u32_attribute(&mut reply, 1, 2); // index 2, leaving 0 and 1 unset
    append_string_attribute(&mut reply, 2, "late");
    end_nested(&mut reply, entry);
    end_nested(&mut reply, strings);
    end_nested(&mut reply, set);
    end_nested(&mut reply, sets);
    let sets = parse_stringsets(&vec![reply], "eth0");
    assert_eq!(sets.len(), 1);
    assert_eq!(sets[0].strings, vec!["".to_string(), "".to_string(), "late".to_string()]);
}

fn stats_reply(dev: &str, ss_id: u32, samples: &[(u16, u64)]) -> Vec<u8> {
    let mut reply = vec![0u8, 1, 0, 0];
    let header = begin_nested(&mut reply, 2);
    append_string_attribute(&mut reply, 2, dev);
    end_nested(&mut reply, header);
    let grp = begin_nested(&mut reply, 4);
    append_u32_attribute(&mut reply, 2, 1); // group id
    append_u32_attribute(&mut reply, 3, ss_id);
    let stats = begin_nested(&mut reply, 4);
    for (index, value) in samples {
        append_attribute(&mut reply, *index, &value.to_le_bytes());
    }
    end_nested(&mut reply, stats);
    end_nested(&mut reply, grp);
    reply
}

#[test]
fn stat_groups_are_decoded_for_the_matching_device() {
    let groups = parse_stat_groups(&vec![stats_reply("eth0", 21, &[(1, 7), (5, 9)])], "eth0");
    assert_eq!(groups.len(), 1);
    assert_eq!(groups[0].group_id, 1);
    assert_eq!(groups[0].stringset_id, 21);
    assert_eq!(groups[0].samples, vec![(1, 7), (5, 9)]);
    assert!(parse_stat_groups(&vec![stats_reply("eth1", 21, &[(1, 7)])], "eth0").is_empty());
}

#[test]
fn joined_sample_uses_catalog_name_and_falls_back() {
    let sets = vec![StringSet { id: 21, strings: vec!["a_bit".to_string(), "b_bit".to_string()] }];
    assert_eq!(stringset_name(&sets, 21, 1), "b_bit");
    assert_eq!(stringset_name(&sets, 21, 5), "stat_5");
    assert_eq!(stringset_name(&sets, 99, 0), "stat_0");

    let groups = vec![StatGroup { group_id: 1, stringset_id: 21, samples: vec![(1, 7), (5, 3)] }];
    let samples = ethtool_samples(&sets, &groups);
    assert_eq!(samples, vec![("b_bit".to_string(), 7), ("stat_5".to_string(), 3)]);
}

#[test]
fn empty_string_in_catalog_falls_back() {
    let sets = vec![StringSet { id: 21, strings: vec!["".to_string()] }];
    assert_eq!(stringset_name(&sets, 21, 0), "stat_0");
}

#[test]
fn no_groups_yield_no_samples() {
    let samples = ethtool_samples(&Vec::new(), &Vec::new());
    assert!(samples.is_empty());
}

#[test]
fn ethernet_filter_requires_type_one_and_a_device() {
    assert!(is_ethernet_type("1\n", true));
    assert!(!is_ethernet_type("1\n", false));
    assert!(!is_ethernet_type("772\n", true)); // loopback hardware type
    assert!(!is_ethernet_type("garbage", true));
}

#[test]
fn request_builders_emit_finalized_lengths() {
    let strset = build_strset_request(0x14, 2, "eth0");
    let len = u32::from_le_bytes([strset[0], strset[1], strset[2], strset[3]]);
    assert_eq!(len as usize, strset.len());
    assert_eq!(u16::from_le_bytes([strset[4], strset[5]]), 0x14);
    assert_eq!(u16::from_le_bytes([strset[6], strset[7]]), NLM_F_REQUEST | NLM_F_DUMP);
    assert_eq!(strset[16], 1); // get string sets command

    let stats = build_stats_request(0x14, 3, "eth0");
    let len = u32::from_le_bytes([stats[0], stats[1], stats[2], stats[3]]);
    assert_eq!(len as usize, stats.len());
    assert_eq!(stats[16], 32); // get statistics command
}

#[test]
fn built_requests_parse_back_to_their_attribute_trees() {
    let strset = build_strset_request(0x14, 2, "eth0");
    let attrs = parse_attributes(&strset[20..]);
    assert_eq!(attrs.len(), 2);
    assert_eq!(attrs[0].0, 1); // header
    assert_eq!(extract_header_name(&attrs[0].1), Some("eth0".to_string()));
    assert_eq!(attrs[1].0, 2); // stringsets list
    let entries = parse_attributes(&attrs[1].1);
    assert_eq!(entries.len(), 5);
    let ids: Vec<u32> = entries
        .iter()
        .map(|(_, payload)| {
            let inner = parse_attributes(payload);
            u32::from_le_bytes(inner[0].1[..4].try_into().unwrap())
        })
        .collect();
    assert_eq!(ids, vec![17, 18, 19, 20, 21]);
}
