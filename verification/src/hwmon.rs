//! Hardware-monitor sensor samples, computed from the sensor files the
//! scan reads out of each hwmon chip directory.
//!
//! A sensor file is named `<type><index>_input` and holds one integer in
//! the type's raw kernel unit (millidegrees, RPM, millivolts, microwatts,
//! milliamps); rendering into display units is the caller's business.  The
//! sensor's label comes from `<type>_<index>_label` when that file exists,
//! else the constructed `<type>_<index>` stands in.

use vstd::prelude::*;

verus! {

use vstd::slice::slice_subrange;
use vstd::string::StringSliceAdditionalSpecFns;
use vstd::utf8::{encode_utf8, decode_utf8, valid_utf8};
use crate::strutil::{spec_trim_chars, trim_ws, bytes_eq, bytes_to_string};
use crate::textparse::{spec_parse_trimmed_i64, parse_trimmed_i64};

/// The sensor families the exporter reports, each with its raw kernel unit.
#[derive(Clone, Copy, Debug, PartialEq, Eq, Structural)]
pub enum HwmonKind {
    /// `temp*_input`, millidegrees Celsius.
    TemperatureMilliC,
    /// `fan*_input`, revolutions per minute.
    FanRpm,
    /// `in*_input`, millivolts.
    VoltageMilliV,
    /// `power*_input`, microwatts.
    PowerMicroW,
    /// `curr*_input`, milliamps.
    CurrentMilliA,
}

/// One file of a chip directory: its name and its contents.
pub struct HwmonFile {
    pub name: String,
    pub content: String,
}

/// What the scan hands in for one chip directory.
pub struct HwmonDeviceInput {
    pub files: Vec<HwmonFile>,
}

/// One sensor sample in its raw kernel unit.
#[derive(Debug)]
pub struct HwmonSample {
    pub kind: HwmonKind,
    pub chip: String,
    pub sensor: String,
    pub value: i64,
}

pub open spec fn spec_hwmon_views(s: Seq<HwmonSample>) -> Seq<
    (HwmonKind, Seq<char>, Seq<char>, i64),
> {
    s.map_values(|x: HwmonSample| (x.kind, x.chip@, x.sensor@, x.value))
}

/// The file-name prefix of a sensor family.
pub open spec fn spec_kind_prefix(kind: HwmonKind) -> Seq<u8> {
    match kind {
        HwmonKind::TemperatureMilliC => seq![0x74u8, 0x65u8, 0x6Du8, 0x70u8],
        HwmonKind::FanRpm => seq![0x66u8, 0x61u8, 0x6Eu8],
        HwmonKind::VoltageMilliV => seq![0x69u8, 0x6Eu8],
        HwmonKind::PowerMicroW => seq![0x70u8, 0x6Fu8, 0x77u8, 0x65u8, 0x72u8],
        HwmonKind::CurrentMilliA => seq![0x63u8, 0x75u8, 0x72u8, 0x72u8],
    }
}

/// The `_input` file-name suffix.
pub open spec fn spec_input_suffix() -> Seq<u8> {
    seq![0x5Fu8, 0x69u8, 0x6Eu8, 0x70u8, 0x75u8, 0x74u8]
}

/// The `_label` file-name suffix.
pub open spec fn spec_label_suffix() -> Seq<u8> {
    seq![0x5Fu8, 0x6Cu8, 0x61u8, 0x62u8, 0x65u8, 0x6Cu8]
}

pub open spec fn spec_starts_with(b: Seq<u8>, p: Seq<u8>) -> bool {
    b.len() >= p.len() && b.subrange(0, p.len() as int) == p
}

pub open spec fn spec_ends_input(b: Seq<u8>) -> bool {
    b.len() >= 6 && b.subrange(b.len() - 6, b.len() as int) == spec_input_suffix()
}

/// Whether a sensor family claims the file name, and the index part between
/// its prefix and `_input`.  The families are tried in a fixed order, the
/// first match winning.
pub open spec fn spec_classify(b: Seq<u8>) -> Option<(HwmonKind, Seq<u8>)> {
    if !spec_ends_input(b) {
        None
    } else if spec_starts_with(b, spec_kind_prefix(HwmonKind::TemperatureMilliC)) && b.len()
        >= 10 {
        Some((HwmonKind::TemperatureMilliC, b.subrange(4, b.len() - 6)))
    } else if spec_starts_with(b, spec_kind_prefix(HwmonKind::FanRpm)) && b.len() >= 9 {
        Some((HwmonKind::FanRpm, b.subrange(3, b.len() - 6)))
    } else if spec_starts_with(b, spec_kind_prefix(HwmonKind::VoltageMilliV)) && b.len() >= 8 {
        Some((HwmonKind::VoltageMilliV, b.subrange(2, b.len() - 6)))
    } else if spec_starts_with(b, spec_kind_prefix(HwmonKind::PowerMicroW)) && b.len() >= 11 {
        Some((HwmonKind::PowerMicroW, b.subrange(5, b.len() - 6)))
    } else if spec_starts_with(b, spec_kind_prefix(HwmonKind::CurrentMilliA)) && b.len() >= 10 {
        Some((HwmonKind::CurrentMilliA, b.subrange(4, b.len() - 6)))
    } else {
        None
    }
}

/// Whether every byte is an ASCII digit (an empty index passes, as the
/// kernel never writes one but the name shape allows it).
pub open spec fn spec_digits_only(b: Seq<u8>) -> bool {
    forall|k: int| 0 <= k < b.len() ==> 0x30 <= #[trigger] b[k] <= 0x39
}

/// The content of the first file with the given name.
pub open spec fn spec_find_file(files: Seq<HwmonFile>, name: Seq<u8>) -> Option<Seq<char>>
    decreases files.len(),
{
    if files.len() == 0 {
        None
    } else if encode_utf8(files.first().name@) == name {
        Some(files.first().content@)
    } else {
        spec_find_file(files.drop_first(), name)
    }
}

/// What one file contributes to its chip's samples: nothing unless a sensor
/// family claims its name (a voltage sensor additionally demands a numeric
/// index) and its content parses as an integer; then one sample under the
/// label file's trimmed content, or the constructed `<type>_<index>` label.
pub open spec fn spec_file_sample(files: Seq<HwmonFile>, chip: Seq<char>, f: HwmonFile) -> Seq<
    (HwmonKind, Seq<char>, Seq<char>, i64),
> {
    match spec_classify(encode_utf8(f.name@)) {
        Some(ki) => {
            let kind = ki.0;
            let idx = ki.1;
            if kind == HwmonKind::VoltageMilliV && !spec_digits_only(idx) {
                seq![]
            } else {
                match spec_parse_trimmed_i64(encode_utf8(f.content@)) {
                    Some(v) => {
                        let base = spec_kind_prefix(kind) + seq![0x5Fu8] + idx;
                        if valid_utf8(base) {
                            let label = match spec_find_file(files, base + spec_label_suffix()) {
                                Some(content) => spec_trim_chars(content),
                                None => decode_utf8(base),
                            };
                            seq![(kind, chip, label, v)]
                        } else {
                            seq![]
                        }
                    },
                    None => seq![],
                }
            }
        },
        None => seq![],
    }
}

/// The samples of the first `k` files of one chip.
pub open spec fn spec_files_samples(files: Seq<HwmonFile>, chip: Seq<char>, k: int) -> Seq<
    (HwmonKind, Seq<char>, Seq<char>, i64),
>
    decreases k,
{
    if k <= 0 {
        seq![]
    } else {
        spec_files_samples(files, chip, k - 1) + spec_file_sample(files, chip, files[k - 1])
    }
}

/// The samples of one chip directory: nothing without a `name` file; else
/// every sensor file's sample under the trimmed chip name.
pub open spec fn spec_device_samples(files: Seq<HwmonFile>) -> Seq<
    (HwmonKind, Seq<char>, Seq<char>, i64),
> {
    match spec_find_file(files, seq![0x6Eu8, 0x61u8, 0x6Du8, 0x65u8]) {
        Some(content) => spec_files_samples(files, spec_trim_chars(content), files.len() as int),
        None => seq![],
    }
}

/// The samples of all chip directories, in order.
pub open spec fn spec_hwmon(devices: Seq<HwmonDeviceInput>) -> Seq<
    (HwmonKind, Seq<char>, Seq<char>, i64),
>
    decreases devices.len(),
{
    if devices.len() == 0 {
        seq![]
    } else {
        spec_hwmon(devices.drop_last()) + spec_device_samples(devices.last().files@)
    }
}

/// Looks the first file with the given name up.
#[verifier::loop_isolation(false)]
fn find_file(files: &Vec<HwmonFile>, name: &[u8]) -> (r: Option<String>)
    ensures
        spec_opt_view(r) == spec_find_file(files@, name@),
{
    let n = files.len();
    let mut i: usize = 0;
    assert(files@.skip(0) =~= files@);
    while i < n
        invariant
            i <= n,
            spec_find_file(files@, name@) == spec_find_file(files@.skip(i as int), name@),
        decreases n - i,
    {
        assert(files@.skip(i as int).first() == files@[i as int]);
        assert(files@.skip(i as int).drop_first() =~= files@.skip(i + 1));
        if bytes_eq(files[i].name.as_str().as_bytes(), name) {
            return Some(files[i].content.clone());
        }
        i = i + 1;
    }
    None
}

/// The view of an optional owned string.
pub open spec fn spec_opt_view(x: Option<String>) -> Option<Seq<char>> {
    match x {
        Some(s) => Some(s@),
        None => None,
    }
}

fn starts_with(b: &[u8], p: &[u8]) -> (r: bool)
    ensures
        r == spec_starts_with(b@, p@),
{
    let n = b.len();
    if n < p.len() {
        return false;
    }
    bytes_eq(slice_subrange(b, 0, p.len()), p)
}

fn digits_only(b: &[u8]) -> (r: bool)
    ensures
        r == spec_digits_only(b@),
{
    let n = b.len();
    let mut i: usize = 0;
    while i < n
        invariant
            i <= n,
            n == b@.len(),
            forall|k: int| 0 <= k < i ==> 0x30 <= #[trigger] b@[k] <= 0x39,
        ensures
            i <= n,
            forall|k: int| 0 <= k < i ==> 0x30 <= #[trigger] b@[k] <= 0x39,
            i == n || !(0x30 <= b@[i as int] <= 0x39),
        decreases n - i,
    {
        if b[i] < 0x30 || b[i] > 0x39 {
            break;
        }
        i = i + 1;
    }
    i == n
}

/// The byte prefix of a sensor family's file names.
fn kind_prefix(kind: HwmonKind) -> (r: Vec<u8>)
    ensures
        r@ == spec_kind_prefix(kind),
{
    let mut v: Vec<u8> = Vec::new();
    match kind {
        HwmonKind::TemperatureMilliC => {
            v.push(0x74);
            v.push(0x65);
            v.push(0x6D);
            v.push(0x70);
        },
        HwmonKind::FanRpm => {
            v.push(0x66);
            v.push(0x61);
            v.push(0x6E);
        },
        HwmonKind::VoltageMilliV => {
            v.push(0x69);
            v.push(0x6E);
        },
        HwmonKind::PowerMicroW => {
            v.push(0x70);
            v.push(0x6F);
            v.push(0x77);
            v.push(0x65);
            v.push(0x72);
        },
        HwmonKind::CurrentMilliA => {
            v.push(0x63);
            v.push(0x75);
            v.push(0x72);
            v.push(0x72);
        },
    }
    assert(v@ =~= spec_kind_prefix(kind));
    v
}

/// Classifies a file name: the claiming sensor family and the index bytes.
#[verifier::loop_isolation(false)]
fn classify(name: &str) -> (r: Option<(HwmonKind, Vec<u8>)>)
    ensures
        match r {
            Some(ki) => spec_classify(name.spec_bytes()) == Some((ki.0, ki.1@)),
            None => spec_classify(name.spec_bytes()) is None,
        },
{
    let b = name.as_bytes();
    let n = b.len();
    let suffix: [u8; 6] = [0x5F, 0x69, 0x6E, 0x70, 0x75, 0x74];
    assert(suffix@ =~= spec_input_suffix());
    if n < 6 || !bytes_eq(slice_subrange(b, n - 6, n), suffix.as_slice()) {
        return None;
    }
    let kinds: [HwmonKind; 5] = [
        HwmonKind::TemperatureMilliC,
        HwmonKind::FanRpm,
        HwmonKind::VoltageMilliV,
        HwmonKind::PowerMicroW,
        HwmonKind::CurrentMilliA,
    ];
    let mut k: usize = 0;
    while k < 5
        invariant
            k <= 5,
            n == name.spec_bytes().len(),
            spec_ends_input(name.spec_bytes()),
            kinds@ =~= seq![
                HwmonKind::TemperatureMilliC,
                HwmonKind::FanRpm,
                HwmonKind::VoltageMilliV,
                HwmonKind::PowerMicroW,
                HwmonKind::CurrentMilliA,
            ],
            forall|q: int| 0 <= q < k ==> !(spec_starts_with(
                name.spec_bytes(),
                spec_kind_prefix(kinds@[q]),
            ) && name.spec_bytes().len() >= spec_kind_prefix(kinds@[q]).len() + 6),
        decreases 5 - k,
    {
        let prefix = kind_prefix(kinds[k]);
        let plen = prefix.len();
        if starts_with(b, prefix.as_slice()) && n >= plen + 6 {
            let idx = vstd::slice::slice_to_vec(slice_subrange(b, plen, n - 6));
            assert(idx@ =~= name.spec_bytes().subrange(plen as int, n - 6));
            return Some((kinds[k], idx));
        }
        k = k + 1;
    }
    None
}

/// Computes one poll's hwmon samples, chip directory by chip directory.
#[verifier::loop_isolation(false)]
pub fn update_metrics(devices: &Vec<HwmonDeviceInput>) -> (r: Vec<HwmonSample>)
    ensures
        spec_hwmon_views(r@) == spec_hwmon(devices@),
{
    let mut out: Vec<HwmonSample> = Vec::new();
    let n = devices.len();
    let mut i: usize = 0;
    assert(devices@.take(0) =~= Seq::<HwmonDeviceInput>::empty());
    assert(spec_hwmon_views(out@) =~= spec_hwmon(devices@.take(0)));
    while i < n
        invariant
            i <= n,
            spec_hwmon_views(out@) == spec_hwmon(devices@.take(i as int)),
        decreases n - i,
    {
        assert(devices@.take(i + 1).drop_last() =~= devices@.take(i as int));
        assert(devices@.take(i + 1).last() == devices@[i as int]);
        let files = &devices[i].files;
        let name_key: [u8; 4] = [0x6E, 0x61, 0x6D, 0x65];
        assert(name_key@ =~= seq![0x6Eu8, 0x61u8, 0x6Du8, 0x65u8]);
        let ghost dbase = spec_hwmon_views(out@);
        match find_file(files, name_key.as_slice()) {
            Some(raw_chip) => {
                let chip = trim_ws(raw_chip.as_str());
                let fcount = files.len();
                let mut j: usize = 0;
                while j < fcount
                    invariant
                        j <= fcount,
                        chip@ == spec_trim_chars(raw_chip@),
                        spec_hwmon_views(out@) == dbase + spec_files_samples(
                            files@,
                            chip@,
                            j as int,
                        ),
                    decreases fcount - j,
                {
                    let ghost before = spec_hwmon_views(out@);
                    match classify(files[j].name.as_str()) {
                        Some((kind, idx)) => {
                            let voltage_skip = match kind {
                                HwmonKind::VoltageMilliV => !digits_only(idx.as_slice()),
                                _ => false,
                            };
                            if !voltage_skip {
                                match parse_trimmed_i64(files[j].content.as_str()) {
                                    Some(v) => {
                                        let ghost idxv = idx@;
                                        let mut base = kind_prefix(kind);
                                        base.push(0x5F);
                                        let mut idx_moved = idx;
                                        base.append(&mut idx_moved);
                                        let ghost basev = base@;
                                        assert(basev =~= spec_kind_prefix(kind) + seq![0x5Fu8]
                                            + idxv);
                                        let base_copy = vstd::slice::slice_to_vec(
                                            base.as_slice(),
                                        );
                                        match bytes_to_string(base_copy) {
                                            Some(constructed) => {
                                                let label_suffix: [u8; 6] = [
                                                    0x5F,
                                                    0x6C,
                                                    0x61,
                                                    0x62,
                                                    0x65,
                                                    0x6C,
                                                ];
                                                assert(label_suffix@ =~= spec_label_suffix());
                                                let mut label_key = base;
                                                label_key.extend_from_slice(
                                                    label_suffix.as_slice(),
                                                );
                                                assert(label_key@ =~= basev
                                                    + spec_label_suffix());
                                                let sensor = match find_file(
                                                    files,
                                                    label_key.as_slice(),
                                                ) {
                                                    Some(content) => trim_ws(content.as_str()),
                                                    None => constructed,
                                                };
                                                out.push(
                                                    HwmonSample {
                                                        kind,
                                                        chip: chip.clone(),
                                                        sensor,
                                                        value: v,
                                                    },
                                                );
                                                assert(spec_hwmon_views(out@) =~= spec_hwmon_views(
                                                    out@.drop_last(),
                                                ) + spec_file_sample(
                                                    files@,
                                                    chip@,
                                                    files@[j as int],
                                                ));
                                            },
                                            None => {
                                                assert(spec_hwmon_views(out@) + spec_file_sample(
                                                    files@,
                                                    chip@,
                                                    files@[j as int],
                                                ) =~= spec_hwmon_views(out@));
                                            },
                                        }
                                    },
                                    None => {
                                        assert(spec_hwmon_views(out@) + spec_file_sample(
                                            files@,
                                            chip@,
                                            files@[j as int],
                                        ) =~= spec_hwmon_views(out@));
                                    },
                                }
                            } else {
                                assert(spec_hwmon_views(out@) + spec_file_sample(
                                    files@,
                                    chip@,
                                    files@[j as int],
                                ) =~= spec_hwmon_views(out@));
                            }
                        },
                        None => {
                            assert(spec_hwmon_views(out@) + spec_file_sample(
                                files@,
                                chip@,
                                files@[j as int],
                            ) =~= spec_hwmon_views(out@));
                        },
                    }
                    assert(dbase + spec_files_samples(files@, chip@, j + 1) =~= (dbase
                        + spec_files_samples(files@, chip@, j as int)) + spec_file_sample(
                        files@,
                        chip@,
                        files@[j as int],
                    ));
                    j = j + 1;
                }
            },
            None => {
                assert(spec_hwmon_views(out@) + Seq::<(
                    HwmonKind,
                    Seq<char>,
                    Seq<char>,
                    i64,
                )>::empty() =~= spec_hwmon_views(out@));
            },
        }
        i = i + 1;
    }
    assert(devices@.take(n as int) =~= devices@);
    out
}

} // verus!
