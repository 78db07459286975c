use lvmtui::errors::LvmError;
use lvmtui::inventory::fetch_data;
use lvmtui::inventory::find_lvs_by_vg;
use lvmtui::inventory::find_pvs_by_vg;
use lvmtui::inventory::get_lvinfo_by_vg;
use lvmtui::inventory::refresh_from_reports;
use lvmtui::inventory::VgTableData;
use lvmtui::report::parse_lvso;
use lvmtui::report::parse_pvso;
use lvmtui::status::Status;

#[test]
fn something() {
    ////////////////////
}

#[test]
fn membership_queries_preserve_order() {
    let pvs = parse_pvso("/dev/sda1,vg01\n/dev/sdb1,vg02\n/dev/sdc1,vg01\n/dev/sdx,").expect("error");
    let in_vg01 = find_pvs_by_vg(&String::from("vg01"), &pvs);
    assert_eq!(in_vg01, vec!["/dev/sda1".to_string(), "/dev/sdc1".to_string()]);
    let unassigned = find_pvs_by_vg(&String::from(""), &pvs);
    assert_eq!(unassigned, vec!["/dev/sdx".to_string()]);

    let lvs = parse_lvso(
        "lv1,vg01,10B,a,linear,u1,1,1,,/dev/sda1:0-1\nlv2,vg02,10B,a,linear,u2,1,1,\nlv3,vg01,10B,a,linear,u3,1,1,",
    )
    .expect("error");
    let names = find_lvs_by_vg(&String::from("vg01"), &lvs);
    assert_eq!(names, vec!["lv1".to_string(), "lv3".to_string()]);

    let recs = get_lvinfo_by_vg(&String::from("vg01"), &lvs);
    assert_eq!(recs.len(), 2);
    assert_eq!(recs[0].lv_name, "lv1");
    assert_eq!(recs[0].lv_segs.len(), 1);
    assert_eq!(recs[1].lv_name, "lv3");
}

#[test]
fn refresh_is_all_or_nothing() {
    let vg_texts = vec![
        String::from("vg01,1000B,400B,1,wz--n-,AAAA"),
        String::from("vg02,2000B,900B,1,wz--n-,BBBB"),
    ];
    let pv_text = "/dev/sda1,vg01\n/dev/sdb1,vg02";
    let lv_text = "lv1,vg01,10B,a,linear,u1,1,1,";
    let inv = refresh_from_reports(&vg_texts, pv_text, lv_text).expect("error");
    assert_eq!(inv.vgs.len(), 2);
    assert_eq!(inv.vgs[0].name, "vg01");
    assert_eq!(inv.vgs[1].free, 900);
    assert_eq!(inv.physical_volumes_in(&String::from("vg02")), vec!["/dev/sdb1".to_string()]);
    assert_eq!(inv.logical_volumes_in(&String::from("vg01")), vec!["lv1".to_string()]);
    assert_eq!(inv.logical_volume_records_in(&String::from("vg01"))[0].uuid, "u1");

    // one corrupt volume-group detail report fails the whole refresh
    let bad_vg_texts = vec![
        String::from("vg01,1000B,400B,1,wz--n-,AAAA"),
        String::from("vg02,20x0B,900B,1,wz--n-,BBBB"),
    ];
    let r = refresh_from_reports(&bad_vg_texts, pv_text, lv_text);
    assert_eq!(r.err(), Some(LvmError::MalformedNumber));

    // a corrupt logical-volume report fails it too
    let r = refresh_from_reports(&vg_texts, pv_text, "lv1,vg01,10B,a,linear");
    assert!(r.is_err());

    // a failing refresh leaves a held inventory untouched
    let mut inv = refresh_from_reports(&vg_texts, pv_text, lv_text).expect("error");
    let r = inv.refresh(&bad_vg_texts, pv_text, lv_text);
    assert_eq!(r, Err(LvmError::MalformedNumber));
    assert_eq!(inv.vgs.len(), 2);
    assert_eq!(inv.vgs[0].name, "vg01");
    assert_eq!(inv.lvs[0].lv_name, "lv1");

    // a succeeding refresh replaces everything
    let r = inv.refresh(
        &vec![String::from("vg09,70B,60B,1,wz--n-,CCCC")],
        "/dev/sdz1,vg09",
        "lv9,vg09,10B,a,linear,u9,1,1,",
    );
    assert_eq!(r, Ok(()));
    assert_eq!(inv.vgs.len(), 1);
    assert_eq!(inv.vgs[0].name, "vg09");
    assert_eq!(inv.pvs[0].pv_name, "/dev/sdz1");
    assert_eq!(inv.lvs[0].lv_name, "lv9");
}

#[test]
fn overview_table_rows() {
    let vg_list = vec![String::from("vg01"), String::from("vg02")];
    let pvs = parse_pvso("/dev/sda1,vg01\n/dev/sdb1,vg01").expect("error");
    let lvs = parse_lvso(
        "lva,vg01,10B,a,linear,u1,1,1,\nlvb,vg01,10B,a,linear,u2,1,1,\nlvc,vg01,10B,a,linear,u3,1,1,",
    )
    .expect("error");
    let mut rows: Vec<VgTableData> = Vec::new();
    fetch_data(&mut rows, &vg_list, &pvs, &lvs);

    // vg01 has two devices and three volumes: they share rows in order,
    // the third volume gets a row with an empty device cell; vg02 has
    // neither and gets one bare row
    assert_eq!(rows.len(), 4);
    let cells: Vec<[String; 3]> = rows
        .iter()
        .map(|r| {
            let a = r.ref_array();
            [a[0].clone(), a[1].clone(), a[2].clone()]
        })
        .collect();
    assert_eq!(cells[0], ["vg01".to_string(), "/dev/sda1".to_string(), "lva".to_string()]);
    assert_eq!(cells[1], ["vg01".to_string(), "/dev/sdb1".to_string(), "lvb".to_string()]);
    assert_eq!(cells[2], ["vg01".to_string(), "".to_string(), "lvc".to_string()]);
    assert_eq!(cells[3], ["vg02".to_string(), "".to_string(), "".to_string()]);
    assert_eq!(rows[0].vg_name(), "vg01");
    assert_eq!(rows[0].pv_name(), "/dev/sda1");
}

#[test]
fn status_reports_latest_outcome() {
    let mut status = Status::new();
    assert_eq!(status.status(), "Ok");
    status.set_status("Refreshed lvm info.");
    assert_eq!(status.status(), "Refreshed lvm info.");
    assert_eq!(status.status(), "Refreshed lvm info.");
}
