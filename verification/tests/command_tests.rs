use lvmtui::command::build_create_args;
use lvmtui::command::calc_size_multi;
use lvmtui::command::interpret_create_outcome;
use lvmtui::command::MirrorOpts;
use lvmtui::command::ProcessOutput;
use lvmtui::command::Raid10Opts;
use lvmtui::command::SizeUnit;
use lvmtui::command::StripeOpts;
use lvmtui::command::Topology;
use lvmtui::command::VolumeCreateRequest;
use lvmtui::errors::LvmError;

fn raid10_request(stripes: &str, stripe_size: &str, mirrors: &str) -> VolumeCreateRequest {
    VolumeCreateRequest {
        lv_name: String::from("lvnew"),
        vg_name: String::from("vg01"),
        size: 10,
        size_unit: SizeUnit::G,
        topology: Topology::Raid10(Raid10Opts {
            mirrors: String::from(mirrors),
            stripe_size: String::from(stripe_size),
            stripes: String::from(stripes),
        }),
        pv_devs: vec![],
    }
}

#[test]
fn raid10_omits_unset_mirrors() {
    let req = raid10_request("4", "", "");
    let args = build_create_args(&req).expect("error");
    assert_eq!(
        args,
        vec![
            "--type".to_string(),
            "raid10".to_string(),
            "stripes".to_string(),
            "4".to_string(),
            "-L".to_string(),
            "10000000000G".to_string(),
            "-n".to_string(),
            "lvnew".to_string(),
            "vg01".to_string(),
        ]
    );
    // no argument is ever emitted with an empty value
    assert!(args.iter().all(|a| !a.is_empty()));
    assert!(args.iter().all(|a| a != "mirrors"));
}

#[test]
fn raid10_emission_order() {
    let req = raid10_request("4", "64", "2");
    let args = build_create_args(&req).expect("error");
    assert_eq!(
        args,
        vec![
            "--type".to_string(),
            "raid10".to_string(),
            "mirrors".to_string(),
            "2".to_string(),
            "stripesize".to_string(),
            "64".to_string(),
            "stripes".to_string(),
            "4".to_string(),
            "-L".to_string(),
            "10000000000G".to_string(),
            "-n".to_string(),
            "lvnew".to_string(),
            "vg01".to_string(),
        ]
    );
}

#[test]
fn percent_units_fail_before_any_invocation() {
    // nothing is ever invoked by the builder; a percentage unit is
    // rejected before an argument list even exists
    let mut req = raid10_request("4", "", "");
    req.size_unit = SizeUnit::PercentFree;
    assert_eq!(build_create_args(&req), Err(LvmError::NotImplemented));
    req.size_unit = SizeUnit::PercentVg;
    assert_eq!(build_create_args(&req), Err(LvmError::NotImplemented));
}

#[test]
fn zero_size_is_rejected() {
    let mut req = raid10_request("4", "", "");
    req.size = 0;
    assert_eq!(build_create_args(&req), Err(LvmError::MalformedNumber));
}

#[test]
fn linear_with_devices_joins_candidates() {
    let req = VolumeCreateRequest {
        lv_name: String::from("lvlin"),
        vg_name: String::from("vg02"),
        size: 5,
        size_unit: SizeUnit::M,
        topology: Topology::Linear,
        pv_devs: vec![
            String::from("/dev/sdd1"),
            String::from("/dev/sde1"),
            String::from("/dev/sdf1"),
        ],
    };
    let args = build_create_args(&req).expect("error");
    assert_eq!(
        args,
        vec![
            "--type".to_string(),
            "linear".to_string(),
            "-L".to_string(),
            "5000000M".to_string(),
            "-n".to_string(),
            "lvlin".to_string(),
            "vg02".to_string(),
            "/dev/sdd1 /dev/sde1 /dev/sdf1".to_string(),
        ]
    );
}

#[test]
fn raid1_and_striped_options() {
    let req = VolumeCreateRequest {
        lv_name: String::from("lvm1"),
        vg_name: String::from("vg01"),
        size: 1,
        size_unit: SizeUnit::T,
        topology: Topology::Raid1(MirrorOpts { mirrors: String::from("1") }),
        pv_devs: vec![],
    };
    let args = build_create_args(&req).expect("error");
    assert_eq!(args[2], "mirrors");
    assert_eq!(args[3], "1");
    assert_eq!(args[5], "1000000000000T");

    let req = VolumeCreateRequest {
        lv_name: String::from("lvr5"),
        vg_name: String::from("vg01"),
        size: 2,
        size_unit: SizeUnit::M,
        topology: Topology::Raid5(StripeOpts {
            stripes: String::from("3"),
            stripe_size: String::from("128"),
        }),
        pv_devs: vec![],
    };
    let args = build_create_args(&req).expect("error");
    assert_eq!(
        &args[..6],
        &[
            "--type".to_string(),
            "raid5".to_string(),
            "stripes".to_string(),
            "3".to_string(),
            "stripesize".to_string(),
            "128".to_string(),
        ]
    );
}

#[test]
fn size_multipliers() {
    assert_eq!(calc_size_multi(&String::from("M")), 1_000_000);
    assert_eq!(calc_size_multi(&String::from("G")), 1_000_000_000);
    assert_eq!(calc_size_multi(&String::from("T")), 1_000_000_000_000);
    assert_eq!(calc_size_multi(&String::from("%FREE")), 1_000_000);
}

#[test]
fn outcome_interpretation() {
    let name = String::from("lvnew");
    assert_eq!(interpret_create_outcome(&name, None), Err(LvmError::LaunchFailed));
    let failed = ProcessOutput {
        success: false,
        stderr: String::from("  Volume group \"vg01\" has insufficient free space."),
    };
    assert_eq!(
        interpret_create_outcome(&name, Some(failed)),
        Err(LvmError::CreationFailed(String::from(
            "  Volume group \"vg01\" has insufficient free space."
        )))
    );
    let ok = ProcessOutput { success: true, stderr: String::new() };
    assert_eq!(interpret_create_outcome(&name, Some(ok)), Ok(String::from("lvnew")));
}
