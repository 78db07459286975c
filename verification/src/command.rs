//! The command adapter: turn a volume-creation request into the argument
//! list for the external creation command, and interpret what running
//! that command produced.  Assembly is pure; invoking the process is the
//! caller's job, and every request validation error is raised here,
//! before anything could be invoked.

use vstd::prelude::*;

use crate::errors::LvmError;
use crate::text::spec_join_spaces;
use crate::text::spec_u64_digits;
use crate::text::join_spaces;
use crate::text::str_eq;
use crate::text::u64_to_string;
use crate::text::str_views;

verus! {

/// Unit of a requested volume size.  The percentage units are recognized
/// but not implemented: a request naming one fails fast rather than
/// mis-sizing the volume.
#[derive(Clone, Copy, Debug, PartialEq, Eq, Structural)]
pub enum SizeUnit {
    M,
    G,
    T,
    PercentFree,
    PercentVg,
}

impl SizeUnit {
    /// The token this unit is written as in a size argument.
    pub open spec fn spec_token(&self) -> Seq<char> {
        match self {
            SizeUnit::M => "M"@,
            SizeUnit::G => "G"@,
            SizeUnit::T => "T"@,
            SizeUnit::PercentFree => "%FREE"@,
            SizeUnit::PercentVg => "%VG"@,
        }
    }

    pub fn token(&self) -> (r: String)
        ensures
            r@ == self.spec_token(),
    {
        match self {
            SizeUnit::M => String::from_str("M"),
            SizeUnit::G => String::from_str("G"),
            SizeUnit::T => String::from_str("T"),
            SizeUnit::PercentFree => String::from_str("%FREE"),
            SizeUnit::PercentVg => String::from_str("%VG"),
        }
    }
}

/// Bytes per size unit: 10^6 for `M`, 10^9 for `G`, 10^12 for `T`.
pub open spec fn spec_unit_multi(u: SizeUnit) -> int {
    match u {
        SizeUnit::G => 1_000_000_000,
        SizeUnit::T => 1_000_000_000_000,
        _ => 1_000_000,
    }
}

/// Bytes per size-unit token, keyed by the token text: `M`, `G` or `T`;
/// any other token falls back to the `M` multiplier.
pub open spec fn spec_size_multi(u: Seq<char>) -> int {
    if u == "G"@ {
        1_000_000_000
    } else if u == "T"@ {
        1_000_000_000_000
    } else {
        1_000_000
    }
}

/// Byte multiplier for a size-unit token.
pub fn calc_size_multi(size_opt: &String) -> (r: u64)
    ensures
        r == spec_size_multi(size_opt@),
{
    if str_eq(size_opt.as_str(), "G") {
        1_000_000_000
    } else if str_eq(size_opt.as_str(), "T") {
        1_000_000_000_000
    } else {
        1_000_000
    }
}

/// Stripe options for the striped RAID kinds; an empty string means the
/// caller did not supply the option.
#[derive(Clone, Debug, PartialEq, Eq)]
pub struct StripeOpts {
    pub stripes: String,
    pub stripe_size: String,
}

/// Options for the mirrored-and-striped kind; an empty string means the
/// caller did not supply the option.
#[derive(Clone, Debug, PartialEq, Eq)]
pub struct Raid10Opts {
    pub mirrors: String,
    pub stripe_size: String,
    pub stripes: String,
}

/// Options for the mirrored kind; an empty string means the caller did
/// not supply the option.
#[derive(Clone, Debug, PartialEq, Eq)]
pub struct MirrorOpts {
    pub mirrors: String,
}

/// A requested topology, carrying exactly the options that topology kind
/// understands.
#[derive(Clone, Debug, PartialEq, Eq)]
pub enum Topology {
    Linear,
    Raid0(StripeOpts),
    Raid1(MirrorOpts),
    Raid5(StripeOpts),
    Raid6(StripeOpts),
    Raid10(Raid10Opts),
}

impl Topology {
    /// The segment-type token the toolset names this topology by.
    pub open spec fn spec_segtype(&self) -> Seq<char> {
        match self {
            Topology::Linear => "linear"@,
            Topology::Raid0(_) => "raid0"@,
            Topology::Raid1(_) => "raid1"@,
            Topology::Raid5(_) => "raid5"@,
            Topology::Raid6(_) => "raid6"@,
            Topology::Raid10(_) => "raid10"@,
        }
    }

    pub fn segtype_arg(&self) -> (r: String)
        ensures
            r@ == self.spec_segtype(),
    {
        match self {
            Topology::Linear => String::from_str("linear"),
            Topology::Raid0(_) => String::from_str("raid0"),
            Topology::Raid1(_) => String::from_str("raid1"),
            Topology::Raid5(_) => String::from_str("raid5"),
            Topology::Raid6(_) => String::from_str("raid6"),
            Topology::Raid10(_) => String::from_str("raid10"),
        }
    }
}

/// One extra command option: an option token and its value.
#[derive(Clone, Debug, PartialEq, Eq)]
pub struct LvmExtraArg {
    pub opt: String,
    pub value: String,
}

/// Mathematical model of an extra command option.
#[verifier::ext_equal]
pub struct ExtraArgView {
    pub opt: Seq<char>,
    pub value: Seq<char>,
}

impl View for LvmExtraArg {
    type V = ExtraArgView;

    open spec fn view(&self) -> ExtraArgView {
        ExtraArgView { opt: self.opt@, value: self.value@ }
    }
}

/// The views of a vector of extra command options.
pub open spec fn extra_views(v: Seq<LvmExtraArg>) -> Seq<ExtraArgView> {
    v.map_values(|x: LvmExtraArg| x@)
}

pub open spec fn stripe_opt_args(o: StripeOpts) -> Seq<ExtraArgView> {
    let s = if o.stripes@.len() > 0 {
        seq![ExtraArgView { opt: "stripes"@, value: o.stripes@ }]
    } else {
        Seq::empty()
    };
    let z = if o.stripe_size@.len() > 0 {
        seq![ExtraArgView { opt: "stripesize"@, value: o.stripe_size@ }]
    } else {
        Seq::empty()
    };
    s + z
}

pub open spec fn raid10_args(o: Raid10Opts) -> Seq<ExtraArgView> {
    let m = if o.mirrors@.len() > 0 {
        seq![ExtraArgView { opt: "mirrors"@, value: o.mirrors@ }]
    } else {
        Seq::empty()
    };
    let z = if o.stripe_size@.len() > 0 {
        seq![ExtraArgView { opt: "stripesize"@, value: o.stripe_size@ }]
    } else {
        Seq::empty()
    };
    let s = if o.stripes@.len() > 0 {
        seq![ExtraArgView { opt: "stripes"@, value: o.stripes@ }]
    } else {
        Seq::empty()
    };
    m + z + s
}

pub open spec fn mirror_args(o: MirrorOpts) -> Seq<ExtraArgView> {
    if o.mirrors@.len() > 0 {
        seq![ExtraArgView { opt: "mirrors"@, value: o.mirrors@ }]
    } else {
        Seq::empty()
    }
}

/// The extra options a topology contributes, in emission order: only the
/// options the caller actually supplied, never an empty-valued one.
pub open spec fn spec_extra_opts(t: Topology) -> Seq<ExtraArgView> {
    match t {
        Topology::Linear => Seq::empty(),
        Topology::Raid0(o) => stripe_opt_args(o),
        Topology::Raid1(o) => mirror_args(o),
        Topology::Raid5(o) => stripe_opt_args(o),
        Topology::Raid6(o) => stripe_opt_args(o),
        Topology::Raid10(o) => raid10_args(o),
    }
}

/// Optional topology options are never emitted as empty-valued
/// arguments: every emitted extra option carries a non-empty value.
pub proof fn lemma_no_empty_extra_args(t: Topology)
    ensures
        forall|i: int|
            0 <= i < spec_extra_opts(t).len() ==> (#[trigger] spec_extra_opts(t)[i]).value.len()
                > 0,
{
}

/// Append the extra options of the requested topology that the caller
/// supplied; unsupplied (empty) options are omitted entirely.
pub fn populate_extra_opts(topology: &Topology, extra_opts: &mut Vec<LvmExtraArg>)
    ensures
        extra_views(final(extra_opts)@) == extra_views(old(extra_opts)@) + spec_extra_opts(
            *topology,
        ),
{
    let ghost base = extra_views(extra_opts@);
    match topology {
        Topology::Linear => {
            proof {
                assert(extra_views(extra_opts@) =~= base + spec_extra_opts(*topology));
            }
        },
        Topology::Raid0(o) | Topology::Raid5(o) | Topology::Raid6(o) => {
            push_stripe_opts(o, extra_opts);
            proof {
                assert(extra_views(extra_opts@) =~= base + spec_extra_opts(*topology));
            }
        },
        Topology::Raid10(o) => {
            if o.mirrors.as_str().unicode_len() > 0 {
                let ghost before = extra_views(extra_opts@);
                extra_opts.push(
                    LvmExtraArg { opt: String::from_str("mirrors"), value: o.mirrors.clone() },
                );
                proof {
                    assert(extra_views(extra_opts@) =~= before.push(extra_opts@.last()@));
                }
            }
            if o.stripe_size.as_str().unicode_len() > 0 {
                let ghost before = extra_views(extra_opts@);
                extra_opts.push(
                    LvmExtraArg {
                        opt: String::from_str("stripesize"),
                        value: o.stripe_size.clone(),
                    },
                );
                proof {
                    assert(extra_views(extra_opts@) =~= before.push(extra_opts@.last()@));
                }
            }
            if o.stripes.as_str().unicode_len() > 0 {
                let ghost before = extra_views(extra_opts@);
                extra_opts.push(
                    LvmExtraArg { opt: String::from_str("stripes"), value: o.stripes.clone() },
                );
                proof {
                    assert(extra_views(extra_opts@) =~= before.push(extra_opts@.last()@));
                }
            }
            proof {
                assert(extra_views(extra_opts@) =~= base + spec_extra_opts(*topology));
            }
        },
        Topology::Raid1(o) => {
            if o.mirrors.as_str().unicode_len() > 0 {
                let ghost before = extra_views(extra_opts@);
                extra_opts.push(
                    LvmExtraArg { opt: String::from_str("mirrors"), value: o.mirrors.clone() },
                );
                proof {
                    assert(extra_views(extra_opts@) =~= before.push(extra_opts@.last()@));
                }
            }
            proof {
                assert(extra_views(extra_opts@) =~= base + spec_extra_opts(*topology));
            }
        },
    }
}

fn push_stripe_opts(o: &StripeOpts, extra_opts: &mut Vec<LvmExtraArg>)
    ensures
        extra_views(final(extra_opts)@) == extra_views(old(extra_opts)@) + stripe_opt_args(*o),
{
    let ghost base = extra_views(extra_opts@);
    if o.stripes.as_str().unicode_len() > 0 {
        let ghost before = extra_views(extra_opts@);
        extra_opts.push(LvmExtraArg { opt: String::from_str("stripes"), value: o.stripes.clone() });
        proof {
            assert(extra_views(extra_opts@) =~= before.push(extra_opts@.last()@));
        }
    }
    if o.stripe_size.as_str().unicode_len() > 0 {
        let ghost before = extra_views(extra_opts@);
        extra_opts.push(
            LvmExtraArg { opt: String::from_str("stripesize"), value: o.stripe_size.clone() },
        );
        proof {
            assert(extra_views(extra_opts@) =~= before.push(extra_opts@.last()@));
        }
    }
    proof {
        assert(extra_views(extra_opts@) =~= base + stripe_opt_args(*o));
    }
}

/// A user's desired logical-volume topology: what to create, where, how
/// large, and on which candidate devices.  An empty candidate list means
/// the toolset picks the devices itself.
#[derive(Clone, Debug, PartialEq, Eq)]
pub struct VolumeCreateRequest {
    pub lv_name: String,
    pub vg_name: String,
    pub size: u64,
    pub size_unit: SizeUnit,
    pub topology: Topology,
    pub pv_devs: Vec<String>,
}

/// Extra options flattened into alternating option and value tokens.
pub open spec fn flat_extra_args(xs: Seq<ExtraArgView>) -> Seq<Seq<char>>
    decreases xs.len(),
{
    if xs.len() == 0 {
        Seq::empty()
    } else {
        flat_extra_args(xs.drop_last()) + seq![xs.last().opt, xs.last().value]
    }
}

/// The argument list assembled for a valid creation request: the
/// topology token, the supplied extra options, the size argument with
/// the byte count already multiplied out, the volume and group names,
/// and, only when candidates were named, the space-joined device list.
pub open spec fn spec_create_args(req: VolumeCreateRequest) -> Seq<Seq<char>> {
    let base = seq!["--type"@, req.topology.spec_segtype()] + flat_extra_args(
        spec_extra_opts(req.topology),
    ) + seq![
        "-L"@,
        spec_u64_digits(req.size * spec_unit_multi(req.size_unit)) + req.size_unit.spec_token(),
        "-n"@,
        req.lv_name@,
        req.vg_name@,
    ];
    if req.pv_devs@.len() > 0 {
        base.push(spec_join_spaces(str_views(req.pv_devs@)))
    } else {
        base
    }
}

/// Assemble the creation command's argument list.  A percentage size
/// unit fails with `NotImplemented` and a zero size with
/// `MalformedNumber`, in both cases before any argument is assembled;
/// the caller must not have invoked anything yet, so a rejected request
/// has no side effect at all.
pub fn build_create_args(req: &VolumeCreateRequest) -> (r: Result<Vec<String>, LvmError>)
    requires
        (req.size_unit == SizeUnit::M || req.size_unit == SizeUnit::G || req.size_unit
            == SizeUnit::T) ==> req.size * spec_unit_multi(req.size_unit) <= u64::MAX,
    ensures
        (req.size_unit == SizeUnit::PercentFree || req.size_unit == SizeUnit::PercentVg) ==> r
            == Err::<Vec<String>, LvmError>(LvmError::NotImplemented),
        (req.size_unit == SizeUnit::M || req.size_unit == SizeUnit::G || req.size_unit
            == SizeUnit::T) && req.size == 0 ==> r == Err::<Vec<String>, LvmError>(
            LvmError::MalformedNumber,
        ),
        (req.size_unit == SizeUnit::M || req.size_unit == SizeUnit::G || req.size_unit
            == SizeUnit::T) && req.size > 0 ==> (r matches Ok(v) && str_views(v@)
            == spec_create_args(*req)),
{
    match req.size_unit {
        SizeUnit::PercentFree => {
            return Err(LvmError::NotImplemented);
        },
        SizeUnit::PercentVg => {
            return Err(LvmError::NotImplemented);
        },
        _ => {},
    }
    if req.size == 0 {
        return Err(LvmError::MalformedNumber);
    }
    let multi: u64 = match req.size_unit {
        SizeUnit::G => 1_000_000_000,
        SizeUnit::T => 1_000_000_000_000,
        _ => 1_000_000,
    };
    let bytes = req.size * multi;
    let mut args: Vec<String> = Vec::new();
    args.push(String::from_str("--type"));
    args.push(req.topology.segtype_arg());
    let ghost head = seq!["--type"@, req.topology.spec_segtype()];
    proof {
        assert(str_views(args@) =~= head);
    }
    let mut extra: Vec<LvmExtraArg> = Vec::new();
    populate_extra_opts(&req.topology, &mut extra);
    let ghost xs = spec_extra_opts(req.topology);
    proof {
        assert(extra_views(extra@) =~= xs);
        assert(xs.take(0) =~= Seq::<ExtraArgView>::empty());
        assert(str_views(args@) =~= head + flat_extra_args(xs.take(0)));
    }
    let mut k: usize = 0;
    let ne = extra.len();
    while k < ne
        invariant
            k <= ne,
            ne == extra@.len(),
            ne == xs.len(),
            xs == extra_views(extra@),
            head == seq!["--type"@, req.topology.spec_segtype()],
            str_views(args@) == head + flat_extra_args(xs.take(k as int)),
        decreases ne - k,
    {
        proof {
            assert(xs.take(k as int + 1).drop_last() =~= xs.take(k as int));
            assert(xs.take(k as int + 1).last() == xs[k as int]);
            assert(xs[k as int] == extra@[k as int]@);
        }
        let ghost before = str_views(args@);
        args.push(extra[k].opt.clone());
        args.push(extra[k].value.clone());
        proof {
            assert(str_views(args@) =~= before + seq![xs[k as int].opt, xs[k as int].value]);
            assert(head + flat_extra_args(xs.take(k as int + 1)) =~= before + seq![
                xs[k as int].opt,
                xs[k as int].value,
            ]);
        }
        k += 1;
    }
    proof {
        assert(xs.take(ne as int) =~= xs);
    }
    let ghost mid = str_views(args@);
    args.push(String::from_str("-L"));
    let mut size_str = u64_to_string(bytes);
    let unit_token = req.size_unit.token();
    size_str.append(unit_token.as_str());
    args.push(size_str);
    args.push(String::from_str("-n"));
    args.push(req.lv_name.clone());
    args.push(req.vg_name.clone());
    proof {
        assert(str_views(args@) =~= mid + seq![
            "-L"@,
            spec_u64_digits(req.size * spec_unit_multi(req.size_unit))
                + req.size_unit.spec_token(),
            "-n"@,
            req.lv_name@,
            req.vg_name@,
        ]);
    }
    if req.pv_devs.len() > 0 {
        let ghost before = str_views(args@);
        args.push(join_spaces(&req.pv_devs));
        proof {
            assert(str_views(args@) =~= before.push(spec_join_spaces(str_views(req.pv_devs@))));
        }
    }
    proof {
        assert(str_views(args@) =~= spec_create_args(*req));
    }
    Ok(args)
}

/// What running the external creation command observably produced: its
/// exit condition and its diagnostic stream.
#[derive(Clone, Debug, PartialEq, Eq)]
pub struct ProcessOutput {
    pub success: bool,
    pub stderr: String,
}

/// Interpret the raw result of the external creation command.  `None`
/// means the process could not even be started; a failed exit carries the
/// process's diagnostic text verbatim; success confirms the created
/// volume's name.
pub fn interpret_create_outcome(lv_name: &String, outcome: Option<ProcessOutput>) -> (r: Result<
    String,
    LvmError,
>)
    ensures
        outcome is None ==> r == Err::<String, LvmError>(LvmError::LaunchFailed),
        outcome is Some && !outcome->Some_0.success ==> r == Err::<String, LvmError>(
            LvmError::CreationFailed(outcome->Some_0.stderr),
        ),
        outcome is Some && outcome->Some_0.success ==> (r matches Ok(v) && v@ == lv_name@),
{
    match outcome {
        None => Err(LvmError::LaunchFailed),
        Some(o) => {
            if o.success {
                Ok(lv_name.clone())
            } else {
                Err(LvmError::CreationFailed(o.stderr))
            }
        },
    }
}

} // verus!
