use netlink_metrics::edac::{update_metrics as edac_update, ControllerInput, DimmInput,
    EdacMetric};
use netlink_metrics::hwmon::{update_metrics as hwmon_update, HwmonDeviceInput, HwmonFile,
    HwmonKind};
use netlink_metrics::numa::{parse_meminfo, parse_numastat, update_metrics as numa_update,
    NumaNodeInput};
use netlink_metrics::nvme::{update_metrics as nvme_update, NvmeDeviceInput};
use netlink_metrics::runtime::debug_enabled;
use netlink_metrics::textparse::{parse_i64_bytes, parse_trimmed_u64, parse_u64_bytes};

const MOCK_MEMINFO: &str = r#"Node 0 MemTotal:       16384000 kB
Node 0 MemFree:         8192000 kB
Node 0 MemUsed:         8192000 kB
Node 0 Active:          4096000 kB
Node 0 Inactive:        2048000 kB
Node 0 Active(anon):    1024000 kB
Node 0 Inactive(anon):   512000 kB
Node 0 Active(file):    3072000 kB
Node 0 Inactive(file):  1536000 kB
Node 0 Unevictable:           0 kB
Node 0 Mlocked:               0 kB
Node 0 Dirty:              1024 kB
Node 0 Writeback:             0 kB
Node 0 FilePages:       4608000 kB
Node 0 Mapped:           256000 kB
Node 0 AnonPages:       1536000 kB
Node 0 Shmem:            128000 kB
Node 0 KernelStack:       16384 kB
Node 0 SReclaimable:     512000 kB
Node 0 SUnreclaim:       128000 kB
"#;

const MOCK_NUMASTAT: &str = r#"numa_hit 123456789
numa_miss 1234
numa_foreign 5678
interleave_hit 9012
local_node 123456000
other_node 789
"#;

#[test]
fn test_parse_meminfo() {
    let samples = parse_meminfo(MOCK_MEMINFO, "node0");
    assert_eq!(samples.len(), 20);
    assert_eq!(samples[0].node, "node0");
    assert_eq!(samples[0].name, "MemTotal");
    assert_eq!(samples[0].value, 16384000 * 1024);
    assert_eq!(samples[11].name, "Dirty");
    assert_eq!(samples[11].value, 1024 * 1024);
}

#[test]
fn test_parse_meminfo_handles_empty() {
    let samples = parse_meminfo("", "node0");
    assert!(samples.is_empty());
}

#[test]
fn test_parse_meminfo_handles_malformed() {
    let samples = parse_meminfo("invalid line\nno data here", "node0");
    assert!(samples.is_empty());
}

#[test]
fn test_parse_numastat() {
    let samples = parse_numastat(MOCK_NUMASTAT, "node0");
    assert_eq!(samples.len(), 6);
    assert_eq!(samples[0].node, "node0");
    assert_eq!(samples[0].name, "numa_hit");
    assert_eq!(samples[0].value, 123456789);
    assert_eq!(samples[5].name, "other_node");
    assert_eq!(samples[5].value, 789);
}

#[test]
fn test_parse_numastat_handles_empty() {
    let samples = parse_numastat("", "node0");
    assert!(samples.is_empty());
}

#[test]
fn test_parse_numastat_handles_malformed() {
    let samples = parse_numastat("invalid\nno_value", "node0");
    assert!(samples.is_empty());
}

#[test]
fn numa_report_counts_and_filters_nodes() {
    let inputs = vec![
        NumaNodeInput {
            name: "node0".to_string(),
            meminfo: Some("Node 0 MemTotal: 10 kB\n".to_string()),
            numastat: Some("numa_hit 3\n".to_string()),
        },
        NumaNodeInput {
            name: "possible".to_string(),
            meminfo: Some("Node 0 MemTotal: 10 kB\n".to_string()),
            numastat: None,
        },
        NumaNodeInput { name: "node1".to_string(), meminfo: None, numastat: None },
    ];
    let report = numa_update(&inputs);
    assert_eq!(report.node_count, 2);
    assert_eq!(report.memory.len(), 1);
    assert_eq!(report.memory[0].node, "node0");
    assert_eq!(report.memory[0].name, "MemTotal");
    assert_eq!(report.memory[0].value, 10240);
    assert_eq!(report.stats.len(), 1);
    assert_eq!(report.stats[0].name, "numa_hit");
    assert_eq!(report.stats[0].value, 3);
}

#[test]
fn edac_controller_samples_cover_counters_and_dimms() {
    let inputs = vec![
        ControllerInput {
            name: "mc0".to_string(),
            mc_name: Some("  ie31200_edac  \n".to_string()),
            ce_count: Some("5\n".to_string()),
            ue_count: Some("0\n".to_string()),
            ce_noinfo_count: None,
            ue_noinfo_count: None,
            size_mb: Some("16384\n".to_string()),
            seconds_since_reset: Some("3600\n".to_string()),
            dimms: vec![
                DimmInput {
                    name: "dimm0".to_string(),
                    label: Some("CPU_DIMM_A1\n".to_string()),
                    ce_count: Some("2\n".to_string()),
                    ue_count: Some("0\n".to_string()),
                    size: Some("8192\n".to_string()),
                },
                DimmInput {
                    name: "other".to_string(),
                    label: None,
                    ce_count: Some("9\n".to_string()),
                    ue_count: None,
                    size: None,
                },
            ],
        },
        ControllerInput {
            name: "not_mc".to_string(),
            mc_name: None,
            ce_count: Some("1\n".to_string()),
            ue_count: None,
            ce_noinfo_count: None,
            ue_noinfo_count: None,
            size_mb: None,
            seconds_since_reset: None,
            dimms: Vec::new(),
        },
    ];
    let samples = edac_update(&inputs);
    assert_eq!(samples.len(), 8);
    assert_eq!(samples[0].metric, EdacMetric::ControllerInfo);
    assert_eq!(samples[0].controller, "mc0");
    assert_eq!(samples[0].label, "ie31200_edac");
    assert_eq!(samples[0].value, 1);
    assert_eq!(samples[1].metric, EdacMetric::CorrectableErrors);
    assert_eq!(samples[1].value, 5);
    assert_eq!(samples[3].metric, EdacMetric::SizeMb);
    assert_eq!(samples[3].value, 16384);
    assert_eq!(samples[5].metric, EdacMetric::DimmCorrectableErrors);
    assert_eq!(samples[5].dimm, "dimm0");
    assert_eq!(samples[5].label, "CPU_DIMM_A1");
    assert_eq!(samples[5].value, 2);
    assert_eq!(samples[7].metric, EdacMetric::DimmSizeMb);
    assert_eq!(samples[7].value, 8192);
}

#[test]
fn edac_unreadable_mc_name_reads_unknown() {
    let inputs = vec![ControllerInput {
        name: "mc1".to_string(),
        mc_name: None,
        ce_count: None,
        ue_count: None,
        ce_noinfo_count: None,
        ue_noinfo_count: None,
        size_mb: None,
        seconds_since_reset: None,
        dimms: Vec::new(),
    }];
    let samples = edac_update(&inputs);
    assert_eq!(samples.len(), 1);
    assert_eq!(samples[0].label, "unknown");
}

fn hwmon_device(files: Vec<(&str, &str)>) -> HwmonDeviceInput {
    HwmonDeviceInput {
        files: files
            .into_iter()
            .map(|(name, content)| HwmonFile {
                name: name.to_string(),
                content: content.to_string(),
            })
            .collect(),
    }
}

#[test]
fn hwmon_sensors_are_classified_and_labeled() {
    let device = hwmon_device(vec![
        ("name", "coretemp\n"),
        ("temp1_input", "45000\n"),
        ("temp_1_label", "Core 0\n"),
        ("fan2_input", "1200\n"),
        ("in0_input", "3300\n"),
        ("power1_input", "25000000\n"),
        ("curr1_input", "-1500\n"),
        ("inX_input", "5\n"), // voltage index must be numeric
        ("temp9_input", "junk\n"), // unparsable value
    ]);
    let samples = hwmon_update(&vec![device]);
    assert_eq!(samples.len(), 5);
    assert_eq!(samples[0].kind, HwmonKind::TemperatureMilliC);
    assert_eq!(samples[0].chip, "coretemp");
    assert_eq!(samples[0].sensor, "Core 0");
    assert_eq!(samples[0].value, 45000);
    assert_eq!(samples[1].kind, HwmonKind::FanRpm);
    assert_eq!(samples[1].sensor, "fan_2");
    assert_eq!(samples[1].value, 1200);
    assert_eq!(samples[2].kind, HwmonKind::VoltageMilliV);
    assert_eq!(samples[2].sensor, "in_0");
    assert_eq!(samples[3].kind, HwmonKind::PowerMicroW);
    assert_eq!(samples[3].value, 25000000);
    assert_eq!(samples[4].kind, HwmonKind::CurrentMilliA);
    assert_eq!(samples[4].value, -1500);
}

#[test]
fn hwmon_device_without_name_yields_nothing() {
    let device = hwmon_device(vec![("temp1_input", "45000\n")]);
    assert!(hwmon_update(&vec![device]).is_empty());
}

#[test]
fn nvme_devices_report_info_and_states() {
    let inputs = vec![
        NvmeDeviceInput {
            name: "nvme0".to_string(),
            model: Some("Samsung SSD 980 PRO\n".to_string()),
            serial: Some("S5GXNF0N123456\n".to_string()),
            firmware_rev: Some("5B2QGXA7\n".to_string()),
            state: Some("live\n".to_string()),
        },
        NvmeDeviceInput {
            name: "loop0".to_string(),
            model: None,
            serial: None,
            firmware_rev: None,
            state: None,
        },
    ];
    let report = nvme_update(&inputs);
    assert_eq!(report.info.len(), 1);
    assert_eq!(report.info[0].device, "nvme0");
    assert_eq!(report.info[0].model, "Samsung SSD 980 PRO");
    assert_eq!(report.info[0].serial, "S5GXNF0N123456");
    assert_eq!(report.info[0].firmware_rev, "5B2QGXA7");
    assert_eq!(report.states.len(), 5);
    let live: Vec<bool> = report.states.iter().map(|s| s.active).collect();
    assert_eq!(live, vec![true, false, false, false, false]);
    assert_eq!(report.states[0].state, "live");
}

#[test]
fn nvme_missing_state_matches_no_known_state() {
    let inputs = vec![NvmeDeviceInput {
        name: "nvme1".to_string(),
        model: None,
        serial: None,
        firmware_rev: None,
        state: None,
    }];
    let report = nvme_update(&inputs);
    assert!(report.states.iter().all(|s| !s.active));
}

#[test]
fn unsigned_fields_parse_with_bounds() {
    assert_eq!(parse_u64_bytes(b"42"), Some(42));
    assert_eq!(parse_u64_bytes(b"+42"), Some(42));
    assert_eq!(parse_u64_bytes(b"18446744073709551615"), Some(u64::MAX));
    assert_eq!(parse_u64_bytes(b"18446744073709551616"), None); // overflow
    assert_eq!(parse_u64_bytes(b""), None);
    assert_eq!(parse_u64_bytes(b"4x2"), None);
    assert_eq!(parse_trimmed_u64("  123\n"), Some(123));
    assert_eq!(parse_trimmed_u64("1 2"), None);
    assert_eq!(parse_trimmed_u64("not_a_number\n"), None);
}

#[test]
fn signed_fields_parse_with_bounds() {
    assert_eq!(parse_i64_bytes(b"-500000"), Some(-500000));
    assert_eq!(parse_i64_bytes(b"85"), Some(85));
    assert_eq!(parse_i64_bytes(b"-9223372036854775808"), Some(i64::MIN));
    assert_eq!(parse_i64_bytes(b"-9223372036854775809"), None);
    assert_eq!(parse_i64_bytes(b"9223372036854775808"), None);
}

#[test]
fn debug_flag_is_recognized_in_either_form() {
    let args = |v: &[&str]| v.iter().map(|s| s.to_string()).collect::<Vec<String>>();
    assert!(debug_enabled(&args(&["exporter", "-d"])));
    assert!(debug_enabled(&args(&["exporter", "--debug", "x"])));
    assert!(!debug_enabled(&args(&["exporter", "-x", "--debugger"])));
    assert!(!debug_enabled(&args(&[])));
}
