//! Memory-controller error samples, computed from the counter files the
//! scan reads out of each EDAC controller directory and its DIMM or rank
//! subdirectories.

use vstd::prelude::*;

verus! {

use vstd::string::{StringSliceAdditionalSpecFns, StringExecFns};
use vstd::utf8::encode_utf8;
use crate::strutil::{spec_trim_chars, trim_ws};
use crate::textparse::{spec_parse_trimmed_u64, parse_trimmed_u64};

/// The metrics the EDAC subsystem yields.
#[derive(Clone, Copy, Debug, PartialEq, Eq, Structural)]
pub enum EdacMetric {
    /// Controller identity; the label carries the controller type, the
    /// value is always one.
    ControllerInfo,
    CorrectableErrors,
    UncorrectableErrors,
    CorrectableErrorsNoInfo,
    UncorrectableErrorsNoInfo,
    SizeMb,
    SecondsSinceReset,
    DimmCorrectableErrors,
    DimmUncorrectableErrors,
    DimmSizeMb,
}

/// One labeled sample; `dimm` and `label` are empty where the metric does
/// not carry them.
#[derive(Debug)]
pub struct EdacSample {
    pub metric: EdacMetric,
    pub controller: String,
    pub dimm: String,
    pub label: String,
    pub value: u64,
}

/// What the scan hands in for one DIMM or rank subdirectory.
pub struct DimmInput {
    pub name: String,
    pub label: Option<String>,
    pub ce_count: Option<String>,
    pub ue_count: Option<String>,
    pub size: Option<String>,
}

/// What the scan hands in for one controller directory.
pub struct ControllerInput {
    pub name: String,
    pub mc_name: Option<String>,
    pub ce_count: Option<String>,
    pub ue_count: Option<String>,
    pub ce_noinfo_count: Option<String>,
    pub ue_noinfo_count: Option<String>,
    pub size_mb: Option<String>,
    pub seconds_since_reset: Option<String>,
    pub dimms: Vec<DimmInput>,
}

pub open spec fn spec_edac_views(s: Seq<EdacSample>) -> Seq<
    (EdacMetric, Seq<char>, Seq<char>, Seq<char>, u64),
> {
    s.map_values(|x: EdacSample| (x.metric, x.controller@, x.dimm@, x.label@, x.value))
}

/// Whether a directory entry names a controller: `mc` followed by ASCII
/// digits only.
pub open spec fn spec_is_mc_name(b: Seq<u8>) -> bool {
    b.len() >= 2 && b.subrange(0, 2) == seq![0x6Du8, 0x63u8] && forall|k: int|
        2 <= k < b.len() ==> 0x30 <= #[trigger] b[k] <= 0x39
}

/// Checks a directory entry name for the `mc<digits>` shape.
pub fn is_mc_name(name: &str) -> (r: bool)
    ensures
        r == spec_is_mc_name(name.spec_bytes()),
{
    let bytes = name.as_bytes();
    let n = bytes.len();
    if n < 2 {
        return false;
    }
    if !(bytes[0] == 0x6D && bytes[1] == 0x63) {
        assert(name.spec_bytes().subrange(0, 2) != seq![0x6Du8, 0x63u8]) by {
            assert(name.spec_bytes().subrange(0, 2)[0] == bytes@[0]);
            assert(name.spec_bytes().subrange(0, 2)[1] == bytes@[1]);
        }
        return false;
    }
    assert(bytes@.subrange(0, 2) =~= seq![0x6Du8, 0x63u8]);
    let mut i: usize = 2;
    while i < n
        invariant
            2 <= i <= n,
            n == bytes@.len(),
            forall|k: int| 2 <= k < i ==> 0x30 <= #[trigger] bytes@[k] <= 0x39,
        ensures
            2 <= i <= n,
            forall|k: int| 2 <= k < i ==> 0x30 <= #[trigger] bytes@[k] <= 0x39,
            i == n || !(0x30 <= bytes@[i as int] <= 0x39),
        decreases n - i,
    {
        if bytes[i] < 0x30 || bytes[i] > 0x39 {
            break;
        }
        i = i + 1;
    }
    i == n
}

/// Whether a subdirectory holds a DIMM or a rank: its name starts with
/// `dimm` or `rank`.
pub open spec fn spec_is_dimm_name(b: Seq<u8>) -> bool {
    b.len() >= 4 && (b.subrange(0, 4) == seq![0x64u8, 0x69u8, 0x6Du8, 0x6Du8] || b.subrange(0, 4)
        == seq![0x72u8, 0x61u8, 0x6Eu8, 0x6Bu8])
}

/// Checks a subdirectory name for the `dimm` or `rank` prefix.
pub fn is_dimm_name(name: &str) -> (r: bool)
    ensures
        r == spec_is_dimm_name(name.spec_bytes()),
{
    let bytes = name.as_bytes();
    if bytes.len() < 4 {
        return false;
    }
    let dimm = bytes[0] == 0x64 && bytes[1] == 0x69 && bytes[2] == 0x6D && bytes[3] == 0x6D;
    let rank = bytes[0] == 0x72 && bytes[1] == 0x61 && bytes[2] == 0x6E && bytes[3] == 0x6B;
    proof {
        assert(name.spec_bytes().subrange(0, 4)[0] == bytes@[0]);
        assert(name.spec_bytes().subrange(0, 4)[1] == bytes@[1]);
        assert(name.spec_bytes().subrange(0, 4)[2] == bytes@[2]);
        assert(name.spec_bytes().subrange(0, 4)[3] == bytes@[3]);
        if dimm {
            assert(name.spec_bytes().subrange(0, 4) =~= seq![0x64u8, 0x69u8, 0x6Du8, 0x6Du8]);
        }
        if rank {
            assert(name.spec_bytes().subrange(0, 4) =~= seq![0x72u8, 0x61u8, 0x6Eu8, 0x6Bu8]);
        }
    }
    dimm || rank
}

/// What one optional counter file contributes: a sample when it was read
/// and parses as a number, nothing otherwise.
pub open spec fn spec_opt_num(
    metric: EdacMetric,
    controller: Seq<char>,
    dimm: Seq<char>,
    label: Seq<char>,
    content: Option<String>,
) -> Seq<(EdacMetric, Seq<char>, Seq<char>, Seq<char>, u64)> {
    match content {
        Some(s) => match spec_parse_trimmed_u64(encode_utf8(s@)) {
            Some(v) => seq![(metric, controller, dimm, label, v)],
            None => seq![],
        },
        None => seq![],
    }
}

/// The samples of one DIMM or rank subdirectory, when its name matches.
pub open spec fn spec_dimm_samples(controller: Seq<char>, d: DimmInput) -> Seq<
    (EdacMetric, Seq<char>, Seq<char>, Seq<char>, u64),
> {
    if spec_is_dimm_name(encode_utf8(d.name@)) {
        let label = match d.label {
            Some(s) => spec_trim_chars(s@),
            None => Seq::<char>::empty(),
        };
        spec_opt_num(EdacMetric::DimmCorrectableErrors, controller, d.name@, label, d.ce_count)
            + spec_opt_num(
            EdacMetric::DimmUncorrectableErrors,
            controller,
            d.name@,
            label,
            d.ue_count,
        ) + spec_opt_num(EdacMetric::DimmSizeMb, controller, d.name@, label, d.size)
    } else {
        seq![]
    }
}

pub open spec fn spec_dimms_samples(controller: Seq<char>, dimms: Seq<DimmInput>) -> Seq<
    (EdacMetric, Seq<char>, Seq<char>, Seq<char>, u64),
>
    decreases dimms.len(),
{
    if dimms.len() == 0 {
        seq![]
    } else {
        spec_dimms_samples(controller, dimms.drop_last()) + spec_dimm_samples(
            controller,
            dimms.last(),
        )
    }
}

/// The samples of one controller: its identity (the controller type read
/// from `mc_name`, or `unknown`), each counter file that was read and
/// parses, and its DIMMs.
pub open spec fn spec_controller_samples(c: ControllerInput) -> Seq<
    (EdacMetric, Seq<char>, Seq<char>, Seq<char>, u64),
> {
    let mc_label = match c.mc_name {
        Some(s) => spec_trim_chars(s@),
        None => "unknown"@,
    };
    seq![(EdacMetric::ControllerInfo, c.name@, Seq::<char>::empty(), mc_label, 1u64)]
        + spec_opt_num(
        EdacMetric::CorrectableErrors,
        c.name@,
        Seq::empty(),
        Seq::empty(),
        c.ce_count,
    ) + spec_opt_num(
        EdacMetric::UncorrectableErrors,
        c.name@,
        Seq::empty(),
        Seq::empty(),
        c.ue_count,
    ) + spec_opt_num(
        EdacMetric::CorrectableErrorsNoInfo,
        c.name@,
        Seq::empty(),
        Seq::empty(),
        c.ce_noinfo_count,
    ) + spec_opt_num(
        EdacMetric::UncorrectableErrorsNoInfo,
        c.name@,
        Seq::empty(),
        Seq::empty(),
        c.ue_noinfo_count,
    ) + spec_opt_num(EdacMetric::SizeMb, c.name@, Seq::empty(), Seq::empty(), c.size_mb)
        + spec_opt_num(
        EdacMetric::SecondsSinceReset,
        c.name@,
        Seq::empty(),
        Seq::empty(),
        c.seconds_since_reset,
    ) + spec_dimms_samples(c.name@, c.dimms@)
}

/// The samples of all inputs whose name has the `mc<digits>` shape.
pub open spec fn spec_edac(inputs: Seq<ControllerInput>) -> Seq<
    (EdacMetric, Seq<char>, Seq<char>, Seq<char>, u64),
>
    decreases inputs.len(),
{
    if inputs.len() == 0 {
        seq![]
    } else {
        spec_edac(inputs.drop_last()) + if spec_is_mc_name(encode_utf8(inputs.last().name@)) {
            spec_controller_samples(inputs.last())
        } else {
            seq![]
        }
    }
}

/// Appends the sample of one optional counter file.
fn append_num(
    out: &mut Vec<EdacSample>,
    metric: EdacMetric,
    controller: &String,
    dimm: &String,
    label: &String,
    content: &Option<String>,
)
    ensures
        spec_edac_views(final(out)@) == spec_edac_views(old(out)@) + spec_opt_num(
            metric,
            controller@,
            dimm@,
            label@,
            *content,
        ),
{
    match content {
        Some(s) => {
            match parse_trimmed_u64(s.as_str()) {
                Some(v) => {
                    out.push(
                        EdacSample {
                            metric,
                            controller: controller.clone(),
                            dimm: dimm.clone(),
                            label: label.clone(),
                            value: v,
                        },
                    );
                    assert(spec_edac_views(out@) =~= spec_edac_views(out@.drop_last())
                        + spec_opt_num(metric, controller@, dimm@, label@, *content));
                },
                None => {
                    assert(spec_edac_views(out@) + spec_opt_num(
                        metric,
                        controller@,
                        dimm@,
                        label@,
                        *content,
                    ) =~= spec_edac_views(out@));
                },
            }
        },
        None => {
            assert(spec_edac_views(out@) + spec_opt_num(
                metric,
                controller@,
                dimm@,
                label@,
                *content,
            ) =~= spec_edac_views(out@));
        },
    }
}

/// Appends one matched controller's samples.
#[verifier::loop_isolation(false)]
#[verifier::rlimit(100)]
fn append_controller(out: &mut Vec<EdacSample>, c: &ControllerInput)
    ensures
        spec_edac_views(final(out)@) == spec_edac_views(old(out)@) + spec_controller_samples(*c),
{
    let empty_label = String::new();
    let mc_label = match &c.mc_name {
        Some(s) => trim_ws(s.as_str()),
        None => String::from_str("unknown"),
    };
    out.push(
        EdacSample {
            metric: EdacMetric::ControllerInfo,
            controller: c.name.clone(),
            dimm: String::new(),
            label: mc_label,
            value: 1,
        },
    );
    assert(spec_edac_views(out@) =~= spec_edac_views(out@.drop_last()) + seq![
        (
            EdacMetric::ControllerInfo,
            c.name@,
            Seq::<char>::empty(),
            match c.mc_name {
                Some(s) => spec_trim_chars(s@),
                None => "unknown"@,
            },
            1u64,
        ),
    ]);
    append_num(out, EdacMetric::CorrectableErrors, &c.name, &empty_label, &empty_label, &c.ce_count);
    append_num(
        out,
        EdacMetric::UncorrectableErrors,
        &c.name,
        &empty_label,
        &empty_label,
        &c.ue_count,
    );
    append_num(
        out,
        EdacMetric::CorrectableErrorsNoInfo,
        &c.name,
        &empty_label,
        &empty_label,
        &c.ce_noinfo_count,
    );
    append_num(
        out,
        EdacMetric::UncorrectableErrorsNoInfo,
        &c.name,
        &empty_label,
        &empty_label,
        &c.ue_noinfo_count,
    );
    append_num(out, EdacMetric::SizeMb, &c.name, &empty_label, &empty_label, &c.size_mb);
    append_num(
        out,
        EdacMetric::SecondsSinceReset,
        &c.name,
        &empty_label,
        &empty_label,
        &c.seconds_since_reset,
    );
    let dcount = c.dimms.len();
    let mut j: usize = 0;
    let ghost dbase = spec_edac_views(out@);
    assert(c.dimms@.take(0) =~= Seq::<DimmInput>::empty());
    assert(dbase + spec_dimms_samples(c.name@, c.dimms@.take(0)) =~= dbase);
    while j < dcount
        invariant
            j <= dcount,
            spec_edac_views(out@) == dbase + spec_dimms_samples(c.name@, c.dimms@.take(j as int)),
        decreases dcount - j,
    {
        assert(c.dimms@.take(j + 1).drop_last() =~= c.dimms@.take(j as int));
        assert(c.dimms@.take(j + 1).last() == c.dimms@[j as int]);
        let d = &c.dimms[j];
        let ghost before = spec_edac_views(out@);
        if is_dimm_name(d.name.as_str()) {
            let dimm_label = match &d.label {
                Some(s) => trim_ws(s.as_str()),
                None => String::new(),
            };
            append_num(
                out,
                EdacMetric::DimmCorrectableErrors,
                &c.name,
                &d.name,
                &dimm_label,
                &d.ce_count,
            );
            append_num(
                out,
                EdacMetric::DimmUncorrectableErrors,
                &c.name,
                &d.name,
                &dimm_label,
                &d.ue_count,
            );
            append_num(out, EdacMetric::DimmSizeMb, &c.name, &d.name, &dimm_label, &d.size);
            assert(spec_edac_views(out@) =~= before + spec_dimm_samples(
                c.name@,
                c.dimms@[j as int],
            ));
        } else {
            assert(spec_edac_views(out@) =~= before + spec_dimm_samples(
                c.name@,
                c.dimms@[j as int],
            ));
        }
        assert(before + spec_dimm_samples(c.name@, c.dimms@[j as int]) =~= dbase
            + spec_dimms_samples(c.name@, c.dimms@.take(j + 1)));
        j = j + 1;
    }
    assert(c.dimms@.take(dcount as int) =~= c.dimms@);
    assert(spec_edac_views(out@) =~= spec_edac_views(old(out)@) + spec_controller_samples(*c));
}

/// Computes one poll's EDAC samples: inputs whose name has the
/// `mc<digits>` shape contribute their controller and DIMM samples;
/// everything else is ignored.
#[verifier::loop_isolation(false)]
pub fn update_metrics(inputs: &Vec<ControllerInput>) -> (r: Vec<EdacSample>)
    ensures
        spec_edac_views(r@) == spec_edac(inputs@),
{
    proof {
        reveal_strlit("");
    }
    let mut out: Vec<EdacSample> = Vec::new();
    let n = inputs.len();
    let mut i: usize = 0;
    assert(inputs@.take(0) =~= Seq::<ControllerInput>::empty());
    assert(spec_edac_views(out@) =~= spec_edac(inputs@.take(0)));
    while i < n
        invariant
            i <= n,
            spec_edac_views(out@) == spec_edac(inputs@.take(i as int)),
        decreases n - i,
    {
        assert(inputs@.take(i + 1).drop_last() =~= inputs@.take(i as int));
        assert(inputs@.take(i + 1).last() == inputs@[i as int]);
        let c = &inputs[i];
        if is_mc_name(c.name.as_str()) {
            append_controller(&mut out, c);
        } else {
            assert(spec_edac_views(out@) + Seq::<(
                EdacMetric,
                Seq<char>,
                Seq<char>,
                Seq<char>,
                u64,
            )>::empty() =~= spec_edac_views(out@));
        }
        i = i + 1;
    }
    assert(inputs@.take(n as int) =~= inputs@);
    out
}

} // verus!
