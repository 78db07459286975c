use lvmtui::errors::LvmError;
use lvmtui::errors::ReportField;
use lvmtui::report::parse_lvso;
use lvmtui::report::parse_pvso;
use lvmtui::report::parse_vgdo;
use lvmtui::report::parse_vgso;
use lvmtui::report::parseu16;
use lvmtui::report::parseu64_ds;
use lvmtui::report::LvmVgData;

#[test]
fn test_parse_vgdo() {
    // VG,VSize,VFree,#PV,Attr,VG UUID
    let s = "vgssd_virt,120028397568B,54530146304B,1,wz--n-,ZFcFCx-fW2F-sWq6-PVy1-8PN2-2CVt-epVMVt";

    let lvm_vg_data: LvmVgData = parse_vgdo(s).expect("error");
    assert_eq!("vgssd_virt", lvm_vg_data.name);
    assert_eq!(120028397568, lvm_vg_data.size);
    assert_eq!(54530146304, lvm_vg_data.free);
    assert_eq!(1, lvm_vg_data.pv_count);
    assert_eq!("wz--n-", lvm_vg_data.attr);
    assert_eq!("ZFcFCx-fW2F-sWq6-PVy1-8PN2-2CVt-epVMVt", lvm_vg_data.uuid);

    // To few options in result
    let s = "vgssd_virt,120028397568B,54530146304B,wz--n-,ZFcFCx-fW2F-sWq6-PVy1-8PN2-2CVt-epVMVt";

    let result = parse_vgdo(s);
    assert!(result.is_err());

    // bad data in size
    // VG,VSize,VFree,#PV,Attr,VG UUID
    let s =
        "vgssd_virt,120028a397568B,54530146304B,1,wz--n-,ZFcFCx-fW2F-sWq6-PVy1-8PN2-2CVt-epVMVt";
    let result = parse_vgdo(s);
    assert!(result.is_err());
}

#[test]
fn test_parse_vgso() {
    let s = "  vg03_backups\n  vg04_1tbdisks\n  vgdata01\n  vgroot";

    let lvm_vgs = parse_vgso(s).expect("error");
    assert_eq!(lvm_vgs.get(0).unwrap(), "vg03_backups");
    assert_eq!(lvm_vgs.get(1).unwrap(), "vg04_1tbdisks");
    assert_eq!(lvm_vgs.get(2).unwrap(), "vgdata01");
    assert_eq!(lvm_vgs.get(3).unwrap(), "vgroot");
    assert_eq!(lvm_vgs.len(), 4);

    let s = "";
    let lvm_vgs = parse_vgso(s).expect("error");
    assert_eq!(lvm_vgs.len(), 0);
}

#[test]
fn test_parse_pvso() {
    ////
    // PV, VG
    // /dev/sda1,vg01
    // /dev/sdx,
    // /dev/sd1

    let s = "  /dev/sda1,vg01\n  /dev/sdx,\n  /dev/sdb2";

    let lvm_pvs = parse_pvso(s).expect("error");
    assert_eq!(lvm_pvs.get(0).unwrap().pv_name, "/dev/sda1");
    assert_eq!(lvm_pvs.get(0).unwrap().vg_name, "vg01");
    assert_eq!(lvm_pvs.get(1).unwrap().pv_name, "/dev/sdx");
    assert_eq!(lvm_pvs.get(2).unwrap().pv_name, "/dev/sdb2");
    assert_eq!(lvm_pvs.len(), 3);

    // Ngegative test
    let s = "  /dev/sda1,vg01\n  \n  /dev/sdb2";

    let lvm_pvs = parse_pvso(s).expect("error");
    assert_eq!(lvm_pvs.len(), 2);
}

#[test]
fn test_parse_lvso() {
    let s = "  lvbackup,vg03_backups,1073741824000B,-wi-ao----,linear,MlVT0F-L2mW-XCcY-UbJF-QUZJ-MzYe-cQYS9x,1,1,,/dev/sde2:0-255999
  lvpub,vg04_1tbdisks,536875106304B,rwi-aor---,raid5,0iPPdB-17pl-7SKc-3rwU-EiBd-10fZ-WheGSZ,4,3,,[lvpub_rimage_0]:0-42666,[lvpub_rimage_1]:0-42666,[lvpub_rimage_2]:0-42666,[lvpub_rimage_3]:0-42666
  [lvpub_rimage_0],vg04_1tbdisks,178958368768B,iwi-aor---,linear,pIfgYg-TSAx-zinr-EyUh-AO8D-VezQ-FUDRGR,1,1,lvpub,/dev/sdc1:2561-45227
  [lvpub_rimage_1],vg04_1tbdisks,178958368768B,iwi-aor---,linear,CfoQsY-v1Py-SaN4-KoGF-JmDk-1aNe-Q82Np9,1,1,lvpub,/dev/sdd1:1-42667
  [lvpub_rimage_2],vg04_1tbdisks,178958368768B,iwi-aor---,linear,Z4fbfS-DEJy-SBaU-qo89-XIH0-oRFW-kpOgBj,1,1,lvpub,/dev/sde1:1-42667
  [lvpub_rimage_3],vg04_1tbdisks,178958368768B,iwi-aor---,linear,XFDDI5-0pL2-SO6Y-NS8P-TJJv-jSGk-KRv1gz,1,1,lvpub,/dev/sdb1:1-42667
  [lvpub_rmeta_0],vg04_1tbdisks,4194304B,ewi-aor---,linear,Rv8iwp-YEGJ-b9V4-ekfe-blD0-5FdB-7pIrhZ,1,1,lvpub,/dev/sdc1:2560-2560
  [lvpub_rmeta_1],vg04_1tbdisks,4194304B,ewi-aor---,linear,wgwTeO-cW8E-xHuL-Zt0j-xwAa-F5tj-WnJqm9,1,1,lvpub,/dev/sdd1:0-0
  [lvpub_rmeta_2],vg04_1tbdisks,4194304B,ewi-aor---,linear,WGltv5-UiaK-n0IT-tLeO-HDyj-jZnx-w0TIrM,1,1,lvpub,/dev/sde1:0-0
  [lvpub_rmeta_3],vg04_1tbdisks,4194304B,ewi-aor---,linear,qhuhv2-Kdro-dySw-L8d4-uSLJ-8ReD-rgYbD9,1,1,lvpub,/dev/sdb1:0-0";

    let lvm_lvs = parse_lvso(s).expect("error");

    assert_eq!(lvm_lvs.len(), 10);
}

#[test]
fn unit_parse_round_trips() {
    assert_eq!(parseu64_ds("120028397568B"), Ok(120028397568));
    assert_eq!(parseu64_ds("0B"), Ok(0));
    assert_eq!(parseu64_ds("18446744073709551615B"), Ok(u64::MAX));
    assert_eq!(parseu64_ds("18446744073709551616B"), Err(LvmError::MalformedNumber));
    assert_eq!(parseu64_ds("12a3B"), Err(LvmError::MalformedNumber));
    assert_eq!(parseu64_ds("B"), Err(LvmError::MalformedNumber));
    assert_eq!(parseu64_ds(""), Err(LvmError::MalformedNumber));
    assert_eq!(parseu16("4"), Ok(4));
    assert_eq!(parseu16("65535"), Ok(65535));
    assert_eq!(parseu16("65536"), Err(LvmError::MalformedNumber));
    assert_eq!(parseu16("x"), Err(LvmError::MalformedNumber));
    assert_eq!(parseu16(""), Err(LvmError::MalformedNumber));
}

#[test]
fn vg_detail_free_within_size() {
    let s = "vg01,1000000B,999999B,2,wz--n-,AAAA-BBBB";
    let vg = parse_vgdo(s).expect("error");
    assert!(vg.free <= vg.size);
    assert_eq!(vg.pv_count, 2);
}

#[test]
fn vg_detail_field_errors() {
    // five fields: the sixth, the UUID, is the first missing one
    let r = parse_vgdo("vg01,10B,5B,1,wz--n-");
    assert_eq!(r.unwrap_err(), LvmError::TooFewFields(ReportField::VgUuid));
    // one bare field
    let r = parse_vgdo("vg01");
    assert_eq!(r.unwrap_err(), LvmError::TooFewFields(ReportField::VgSize));
    // corrupted free field
    let r = parse_vgdo("vg01,10B,5x5B,1,wz--n-,AAAA");
    assert_eq!(r.unwrap_err(), LvmError::MalformedNumber);
    // a corrupt pv-count is a corrupt numeric field and fails too
    let r = parse_vgdo("vg01,10B,5B,oops,wz--n-,AAAA");
    assert_eq!(r.unwrap_err(), LvmError::MalformedNumber);
    // extras beyond the sixth field are ignored
    let vg = parse_vgdo("vg01,10B,5B,3,wz--n-,AAAA,extra,extra2").expect("error");
    assert_eq!(vg.pv_count, 3);
    assert_eq!(vg.uuid, "AAAA");
}

#[test]
fn vgso_line_endings() {
    let lvm_vgs = parse_vgso("vg01\r\nvg02\r\n").expect("error");
    assert_eq!(lvm_vgs, vec!["vg01".to_string(), "vg02".to_string()]);
    let lvm_vgs = parse_vgso("vg01\nvg02\n").expect("error");
    assert_eq!(lvm_vgs.len(), 2);
}

#[test]
fn vgso_whitespace_only_is_empty() {
    let lvm_vgs = parse_vgso("  \n   \n").expect("error");
    assert_eq!(lvm_vgs.len(), 0);
}

#[test]
fn pvso_unassigned_values() {
    let lvm_pvs = parse_pvso("/dev/sda1,vg01\n/dev/sdx,\n/dev/sdb2").expect("error");
    assert_eq!(lvm_pvs.len(), 3);
    assert_eq!(lvm_pvs[0].vg_name, "vg01");
    assert_eq!(lvm_pvs[1].vg_name, "");
    assert_eq!(lvm_pvs[2].vg_name, "");
}

#[test]
fn pvso_blank_input_is_empty() {
    assert_eq!(parse_pvso("").expect("error").len(), 0);
    assert_eq!(parse_lvso("").expect("error").len(), 0);
}

#[test]
fn lvso_raid5_tree() {
    let s = "lvpub,vg04_1tbdisks,536875106304B,rwi-aor---,raid5,0iPPdB-17pl-7SKc-3rwU-EiBd-10fZ-WheGSZ,4,3,,[lvpub_rimage_0]:0-42666,[lvpub_rimage_1]:0-42666,[lvpub_rimage_2]:0-42666,[lvpub_rimage_3]:0-42666
[lvpub_rimage_0],vg04_1tbdisks,178958368768B,iwi-aor---,linear,pIfgYg-TSAx-zinr-EyUh-AO8D-VezQ-FUDRGR,1,1,lvpub,/dev/sdc1:2561-45227
[lvpub_rimage_1],vg04_1tbdisks,178958368768B,iwi-aor---,linear,CfoQsY-v1Py-SaN4-KoGF-JmDk-1aNe-Q82Np9,1,1,lvpub,/dev/sdd1:1-42667
[lvpub_rimage_2],vg04_1tbdisks,178958368768B,iwi-aor---,linear,Z4fbfS-DEJy-SBaU-qo89-XIH0-oRFW-kpOgBj,1,1,lvpub,/dev/sde1:1-42667
[lvpub_rimage_3],vg04_1tbdisks,178958368768B,iwi-aor---,linear,XFDDI5-0pL2-SO6Y-NS8P-TJJv-jSGk-KRv1gz,1,1,lvpub,/dev/sdb1:1-42667
[lvpub_rmeta_0],vg04_1tbdisks,4194304B,ewi-aor---,linear,Rv8iwp-YEGJ-b9V4-ekfe-blD0-5FdB-7pIrhZ,1,1,lvpub,/dev/sdc1:2560-2560
[lvpub_rmeta_1],vg04_1tbdisks,4194304B,ewi-aor---,linear,wgwTeO-cW8E-xHuL-Zt0j-xwAa-F5tj-WnJqm9,1,1,lvpub,/dev/sdd1:0-0
[lvpub_rmeta_2],vg04_1tbdisks,4194304B,ewi-aor---,linear,WGltv5-UiaK-n0IT-tLeO-HDyj-jZnx-w0TIrM,1,1,lvpub,/dev/sde1:0-0
[lvpub_rmeta_3],vg04_1tbdisks,4194304B,ewi-aor---,linear,qhuhv2-Kdro-dySw-L8d4-uSLJ-8ReD-rgYbD9,1,1,lvpub,/dev/sdb1:0-0
lvother,vg04_1tbdisks,4194304B,-wi-ao----,linear,AAAA-BBBB-CCCC-DDDD-EEEE-FFFF-GGGG,1,1,,/dev/sdf1:0-0";

    let lvm_lvs = parse_lvso(s).expect("error");
    assert_eq!(lvm_lvs.len(), 10);

    let top = lvm_lvs.iter().find(|r| r.lv_name == "lvpub").expect("lvpub missing");
    assert_eq!(top.segtype, "raid5");
    assert_eq!(top.stripes, 4);
    assert_eq!(top.data_stripes, 3);
    assert_eq!(top.parent_lv, "");
    assert_eq!(top.lv_segs.len(), 4);
    assert_eq!(top.lv_segs[0].pvdev, "[lvpub_rimage_0]");
    assert_eq!(top.lv_segs[0].pv_start_pe, 0);
    assert_eq!(top.lv_segs[0].size_pe, 42666);

    let subs: Vec<_> = lvm_lvs.iter().filter(|r| r.parent_lv == "lvpub").collect();
    assert_eq!(subs.len(), 8);
    for sub in subs {
        assert!(sub.lv_name.starts_with("[lvpub_r"));
    }
}

#[test]
fn lvso_repeated_name_merges_segments() {
    // size growth reported as repeated range fields on separate lines:
    // first occurrence wins for the fields, segments accumulate
    let s = "lvgrow,vg01,1000B,-wi-ao----,linear,AAAA,1,1,,/dev/sda1:0-10
lvgrow,vg01,2000B,-wi-ao----,linear,BBBB,1,1,,/dev/sdb1:5-9";
    let lvm_lvs = parse_lvso(s).expect("error");
    assert_eq!(lvm_lvs.len(), 1);
    assert_eq!(lvm_lvs[0].size, 1000);
    assert_eq!(lvm_lvs[0].uuid, "AAAA");
    assert_eq!(lvm_lvs[0].lv_segs.len(), 2);
    assert_eq!(lvm_lvs[0].lv_segs[0].pvdev, "/dev/sda1");
    assert_eq!(lvm_lvs[0].lv_segs[1].pvdev, "/dev/sdb1");
    assert_eq!(lvm_lvs[0].lv_segs[1].pv_start_pe, 5);
    assert_eq!(lvm_lvs[0].lv_segs[1].size_pe, 9);
}

#[test]
fn lvso_field_errors() {
    // eight fields: the parent field is the first missing one
    let r = parse_lvso("lv1,vg1,10B,attr,linear,uuid,1,1");
    assert_eq!(r.unwrap_err(), LvmError::TooFewFields(ReportField::LvParent));
    // corrupt stripe count
    let r = parse_lvso("lv1,vg1,10B,attr,linear,uuid,x,1,");
    assert_eq!(r.unwrap_err(), LvmError::MalformedNumber);
    // a trailing range field with no colon aborts the record
    let r = parse_lvso("lv1,vg1,10B,attr,linear,uuid,1,1,,garbled");
    assert_eq!(r.unwrap_err(), LvmError::DeviceTokenMissing);
}

#[test]
fn lvso_garbled_range_degrades_to_zero() {
    let s = "lv1,vg1,10B,attr,linear,uuid,1,1,,/dev/sda1:oops";
    let lvm_lvs = parse_lvso(s).expect("error");
    assert_eq!(lvm_lvs[0].lv_segs.len(), 1);
    assert_eq!(lvm_lvs[0].lv_segs[0].pvdev, "/dev/sda1");
    assert_eq!(lvm_lvs[0].lv_segs[0].pv_start_pe, 0);
    assert_eq!(lvm_lvs[0].lv_segs[0].size_pe, 0);

    // one garbled half degrades the whole range, not just that half
    let s = "lv1,vg1,10B,attr,linear,uuid,1,1,,/dev/sda1:5-x";
    let lvm_lvs = parse_lvso(s).expect("error");
    assert_eq!(lvm_lvs[0].lv_segs[0].pv_start_pe, 0);
    assert_eq!(lvm_lvs[0].lv_segs[0].size_pe, 0);

    let s = "lv1,vg1,10B,attr,linear,uuid,1,1,,/dev/sda1:x-9";
    let lvm_lvs = parse_lvso(s).expect("error");
    assert_eq!(lvm_lvs[0].lv_segs[0].pv_start_pe, 0);
    assert_eq!(lvm_lvs[0].lv_segs[0].size_pe, 0);
}

#[test]
fn parse_is_idempotent() {
    let s = "lvpub,vg04,536875106304B,rwi-aor---,raid5,UUUU,4,3,,[a]:0-1,[b]:0-1
[a],vg04,100B,iwi-aor---,linear,VVVV,1,1,lvpub,/dev/sdc1:2561-45227";
    let first = parse_lvso(s).expect("error");
    let second = parse_lvso(s).expect("error");
    assert_eq!(first, second);

    let t = "vg01,10B,5B,1,wz--n-,AAAA";
    assert_eq!(parse_vgdo(t), parse_vgdo(t));

    let u = "  /dev/sda1,vg01\n  /dev/sdx,";
    assert_eq!(parse_pvso(u), parse_pvso(u));
    assert_eq!(parse_vgso("a\nb"), parse_vgso("a\nb"));
}
