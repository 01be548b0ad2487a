//! NVMe controller information and state samples, computed from the
//! device attributes the scan reads out of each controller directory.

use vstd::prelude::*;

verus! {

use vstd::utf8::encode_utf8;
use vstd::string::{StringSliceAdditionalSpecFns, StringExecFns};
use crate::strutil::{spec_trim_chars, trim_ws, str_eq};

/// The five controller states the exporter reports, each as a one-or-zero
/// sample.
pub open spec fn spec_known_states() -> Seq<Seq<char>> {
    seq!["live"@, "dead"@, "deleting"@, "connecting"@, "resetting"@]
}

/// What the scan hands in for one controller directory: its name and the
/// contents of its attribute files, where readable.
pub struct NvmeDeviceInput {
    pub name: String,
    pub model: Option<String>,
    pub serial: Option<String>,
    pub firmware_rev: Option<String>,
    pub state: Option<String>,
}

/// One controller's identity sample: the labels carry the information, the
/// value is always one.
#[derive(Debug)]
pub struct NvmeInfo {
    pub device: String,
    pub model: String,
    pub serial: String,
    pub firmware_rev: String,
}

/// One `(device, state)` sample: active exactly when the controller reports
/// that state.
#[derive(Debug)]
pub struct NvmeState {
    pub device: String,
    pub state: String,
    pub active: bool,
}

/// One poll's NVMe result.
pub struct NvmeReport {
    pub info: Vec<NvmeInfo>,
    pub states: Vec<NvmeState>,
}

/// Whether a directory entry names an NVMe controller: it starts with
/// `nvme`.
pub open spec fn spec_is_nvme_name(b: Seq<u8>) -> bool {
    b.len() >= 4 && b.subrange(0, 4) == seq![0x6Eu8, 0x76u8, 0x6Du8, 0x65u8]
}

/// Checks a directory entry name for the `nvme` prefix.
pub fn is_nvme_name(name: &str) -> (r: bool)
    ensures
        r == spec_is_nvme_name(name.spec_bytes()),
{
    let bytes = name.as_bytes();
    if bytes.len() < 4 {
        return false;
    }
    let r = bytes[0] == 0x6E && bytes[1] == 0x76 && bytes[2] == 0x6D && bytes[3] == 0x65;
    proof {
        if r {
            assert(name.spec_bytes().subrange(0, 4) =~= seq![0x6Eu8, 0x76u8, 0x6Du8, 0x65u8]);
        } else {
            assert(name.spec_bytes().subrange(0, 4) != seq![0x6Eu8, 0x76u8, 0x6Du8, 0x65u8]) by {
                assert(name.spec_bytes().subrange(0, 4)[0] == bytes@[0]);
                assert(name.spec_bytes().subrange(0, 4)[1] == bytes@[1]);
                assert(name.spec_bytes().subrange(0, 4)[2] == bytes@[2]);
                assert(name.spec_bytes().subrange(0, 4)[3] == bytes@[3]);
            }
        }
    }
    r
}

/// A read attribute, trimmed, or the given default.
pub open spec fn spec_attr_or(x: Option<String>, dflt: Seq<char>) -> Seq<char> {
    match x {
        Some(s) => spec_trim_chars(s@),
        None => dflt,
    }
}

/// The identity view of one matched controller.
pub open spec fn spec_device_info(d: NvmeDeviceInput) -> (Seq<char>, Seq<char>, Seq<char>, Seq<char>) {
    (
        d.name@,
        spec_attr_or(d.model, Seq::empty()),
        spec_attr_or(d.serial, Seq::empty()),
        spec_attr_or(d.firmware_rev, Seq::empty()),
    )
}

/// The five state views of one matched controller: each known state with
/// whether the reported state (default `unknown`) equals it.
pub open spec fn spec_device_states(d: NvmeDeviceInput) -> Seq<(Seq<char>, Seq<char>, bool)> {
    let state = spec_attr_or(d.state, "unknown"@);
    spec_known_states().map_values(|k: Seq<char>| (d.name@, k, state == k))
}

/// The identity views of all matched controllers.
pub open spec fn spec_nvme_info(inputs: Seq<NvmeDeviceInput>) -> Seq<
    (Seq<char>, Seq<char>, Seq<char>, Seq<char>),
>
    decreases inputs.len(),
{
    if inputs.len() == 0 {
        seq![]
    } else {
        spec_nvme_info(inputs.drop_last()) + if spec_is_nvme_name(
            encode_utf8(inputs.last().name@),
        ) {
            seq![spec_device_info(inputs.last())]
        } else {
            seq![]
        }
    }
}

/// The state views of all matched controllers.
pub open spec fn spec_nvme_states(inputs: Seq<NvmeDeviceInput>) -> Seq<
    (Seq<char>, Seq<char>, bool),
>
    decreases inputs.len(),
{
    if inputs.len() == 0 {
        seq![]
    } else {
        spec_nvme_states(inputs.drop_last()) + if spec_is_nvme_name(
            encode_utf8(inputs.last().name@),
        ) {
            spec_device_states(inputs.last())
        } else {
            seq![]
        }
    }
}

pub open spec fn spec_info_views(s: Seq<NvmeInfo>) -> Seq<
    (Seq<char>, Seq<char>, Seq<char>, Seq<char>),
> {
    s.map_values(|x: NvmeInfo| (x.device@, x.model@, x.serial@, x.firmware_rev@))
}

pub open spec fn spec_state_views(s: Seq<NvmeState>) -> Seq<(Seq<char>, Seq<char>, bool)> {
    s.map_values(|x: NvmeState| (x.device@, x.state@, x.active))
}

fn attr_or(x: &Option<String>, dflt: &str) -> (r: String)
    ensures
        r@ == spec_attr_or(*x, dflt@),
{
    match x {
        Some(s) => trim_ws(s.as_str()),
        None => String::from_str(dflt),
    }
}

/// Computes one poll's NVMe samples: inputs whose name starts with `nvme`
/// yield one identity sample and five state samples; everything else is
/// ignored.
#[verifier::loop_isolation(false)]
pub fn update_metrics(inputs: &Vec<NvmeDeviceInput>) -> (r: NvmeReport)
    ensures
        spec_info_views(r.info@) == spec_nvme_info(inputs@),
        spec_state_views(r.states@) == spec_nvme_states(inputs@),
{
    proof {
        reveal_strlit("");
        assert(""@ =~= Seq::<char>::empty());
    }
    let mut info: Vec<NvmeInfo> = Vec::new();
    let mut states: Vec<NvmeState> = Vec::new();
    let n = inputs.len();
    let mut i: usize = 0;
    assert(inputs@.take(0) =~= Seq::<NvmeDeviceInput>::empty());
    assert(spec_info_views(info@) =~= spec_nvme_info(inputs@.take(0)));
    assert(spec_state_views(states@) =~= spec_nvme_states(inputs@.take(0)));
    while i < n
        invariant
            i <= n,
            spec_info_views(info@) == spec_nvme_info(inputs@.take(i as int)),
            spec_state_views(states@) == spec_nvme_states(inputs@.take(i as int)),
        decreases n - i,
    {
        assert(inputs@.take(i + 1).drop_last() =~= inputs@.take(i as int));
        assert(inputs@.take(i + 1).last() == inputs@[i as int]);
        let d = &inputs[i];
        if is_nvme_name(d.name.as_str()) {
            let model = attr_or(&d.model, "");
            let serial = attr_or(&d.serial, "");
            let firmware_rev = attr_or(&d.firmware_rev, "");
            let state = attr_or(&d.state, "unknown");
            info.push(
                NvmeInfo { device: d.name.clone(), model, serial, firmware_rev },
            );
            assert(spec_info_views(info@) =~= spec_info_views(info@.drop_last()) + seq![
                spec_device_info(inputs@[i as int]),
            ]);
            let ghost sbase = spec_state_views(states@);
            let known: [&'static str; 5] = ["live", "dead", "deleting", "connecting", "resetting"];
            let mut k: usize = 0;
            assert(spec_known_states() =~= known@.map_values(|s: &'static str| s@));
            assert(sbase + spec_device_states(inputs@[i as int]).take(0) =~= sbase);
            while k < 5
                invariant
                    k <= 5,
                    spec_state_views(states@) == sbase + spec_device_states(
                        inputs@[i as int],
                    ).take(k as int),
                    state@ == spec_attr_or(inputs@[i as int].state, "unknown"@),
                decreases 5 - k,
            {
                let active = str_eq(state.as_str(), known[k]);
                states.push(
                    NvmeState {
                        device: d.name.clone(),
                        state: String::from_str(known[k]),
                        active,
                    },
                );
                assert(spec_state_views(states@) =~= spec_state_views(states@.drop_last()) + seq![
                    spec_device_states(inputs@[i as int])[k as int],
                ]) by {
                    assert(spec_device_states(inputs@[i as int])[k as int] == (
                        inputs@[i as int].name@,
                        spec_known_states()[k as int],
                        spec_attr_or(inputs@[i as int].state, "unknown"@) == spec_known_states()[
                            k as int],
                    ));
                    assert(spec_known_states()[k as int] == known@[k as int]@);
                }
                assert(sbase + spec_device_states(inputs@[i as int]).take(k + 1) =~= (sbase
                    + spec_device_states(inputs@[i as int]).take(k as int)) + seq![
                    spec_device_states(inputs@[i as int])[k as int],
                ]);
                k = k + 1;
            }
            assert(spec_device_states(inputs@[i as int]).take(5) =~= spec_device_states(
                inputs@[i as int],
            ));
        } else {
            assert(spec_info_views(info@) + Seq::<(
                Seq<char>,
                Seq<char>,
                Seq<char>,
                Seq<char>,
            )>::empty() =~= spec_info_views(info@));
            assert(spec_state_views(states@) + Seq::<(Seq<char>, Seq<char>, bool)>::empty()
                =~= spec_state_views(states@));
        }
        i = i + 1;
    }
    assert(inputs@.take(n as int) =~= inputs@);
    NvmeReport { info, states }
}

} // verus!
