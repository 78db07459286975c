use lvmtui::errors::LvmError;
use lvmtui::report::resolve_segments;

#[test]
fn resolver_deduplicates_devices() {
    // one direct line, one RAID-indirection line, and two lines that
    // repeat a device as the volume grows
    let s = "/dev/sdf1:1-52468
[a]:0-1,[b]:0-1,[c]:0-1,[d]:0-1
/dev/sda1:0-10,/dev/sdb7:0-5
/dev/sda1:11-20";
    let segs = resolve_segments(s).expect("error");
    assert_eq!(segs.len(), 7);
    for i in 0..segs.len() {
        for j in (i + 1)..segs.len() {
            assert_ne!(segs[i].pvdev, segs[j].pvdev);
        }
    }
    // the duplicate device keeps its most recent range
    let sda1 = segs.iter().find(|d| d.pvdev == "/dev/sda1").expect("missing");
    assert_eq!(sda1.pv_start_pe, 11);
    assert_eq!(sda1.size_pe, 20);
    let sdf1 = segs.iter().find(|d| d.pvdev == "/dev/sdf1").expect("missing");
    assert_eq!(sdf1.pv_start_pe, 1);
    assert_eq!(sdf1.size_pe, 52468);
}

#[test]
fn resolver_blank_input_and_failures() {
    assert_eq!(resolve_segments("").expect("error").len(), 0);
    assert_eq!(resolve_segments("  \n ").expect("error").len(), 0);
    // a piece with no colon has no device token
    assert_eq!(resolve_segments("/dev/sda1:0-1,garbled").unwrap_err(), LvmError::DeviceTokenMissing);
    // a garbled range is tolerated as a zero range
    let segs = resolve_segments("/dev/sda1:zz").expect("error");
    assert_eq!(segs.len(), 1);
    assert_eq!(segs[0].pv_start_pe, 0);
    assert_eq!(segs[0].size_pe, 0);
}
