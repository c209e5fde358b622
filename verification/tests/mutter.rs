use fauxput::compositor::mutter::{
    snapshot_of, LogicalMonitorConfig, MutterLogicalMonitor, MutterMode, MutterMonitor, MutterState, UNIT_SCALE_BITS,
};
use fauxput::compositor::{EnableOutput, ModeInfo, OutputPlan, Transform};

fn m(id: &str, w: i32, h: i32, mhz: i32, current: bool, preferred: bool) -> MutterMode {
    MutterMode { id: id.into(), width: w, height: h, refresh_mhz: mhz, is_current: current, is_preferred: preferred }
}

fn lm(x: i32, y: i32, primary: bool, conns: &[&str]) -> MutterLogicalMonitor {
    MutterLogicalMonitor {
        x,
        y,
        scale_bits: 0x3FF8_0000_0000_0000,
        transform: 0,
        primary,
        connectors: conns.iter().map(|s| s.to_string()).collect(),
    }
}

fn state() -> MutterState {
    MutterState {
        serial: 7,
        monitors: vec![
            MutterMonitor {
                connector: "DP-1".into(),
                modes: vec![m("1920x1080@60", 1920, 1080, 60_000, true, true)],
            },
            MutterMonitor {
                connector: "Virtual-1".into(),
                modes: vec![
                    m("1280x720@60", 1280, 720, 60_000, false, true),
                    m("2560x1440@59.95", 2560, 1440, 59_951, false, false),
                    m("2560x1440@120", 2560, 1440, 120_000, false, false),
                ],
            },
        ],
        logical_monitors: vec![lm(100, 50, true, &["DP-1"])],
    }
}

fn names(cfg: &[LogicalMonitorConfig]) -> Vec<String> {
    cfg.iter().map(|c| c.monitors[0].connector.clone()).collect()
}

#[test]
fn untouched_monitors_carry_and_new_head_packs_right() {
    let plan = OutputPlan::builder()
        .enable(EnableOutput {
            name: "Virtual-1".into(),
            mode: Some(ModeInfo { width: 2560, height: 1440, refresh_mhz: 60_000 }),
            position: None,
        })
        .unwrap()
        .build();
    let cfg = plan.to_mutter_config(&state());
    assert_eq!(names(&cfg), vec!["DP-1", "Virtual-1"]);
    // Carried forward with its scale and primary marker; the layout is
    // shifted so its left-most and top-most edges sit at 0.
    assert_eq!((cfg[0].x, cfg[0].y), (0, 50));
    assert_eq!(cfg[0].scale_bits, 0x3FF8_0000_0000_0000);
    assert!(cfg[0].primary);
    assert_eq!(cfg[0].monitors[0].mode_id, "1920x1080@60");
    // Packed right of DP-1 at its requested size, closest refresh.
    assert_eq!((cfg[1].x, cfg[1].y), (1920, 0));
    assert_eq!(cfg[1].monitors[0].mode_id, "2560x1440@59.95");
    assert_eq!(cfg[1].scale_bits, UNIT_SCALE_BITS);
    assert!(!cfg[1].primary);
}

#[test]
fn plan_primary_clears_other_markers_and_disables_drop_out() {
    let plan = OutputPlan::builder()
        .disable("DP-1")
        .unwrap()
        .enable(EnableOutput { name: "Virtual-1".into(), mode: None, position: Some((10, 20)) })
        .unwrap()
        .set_primary("Virtual-1")
        .unwrap()
        .build();
    let cfg = plan.to_mutter_config(&state());
    assert_eq!(names(&cfg), vec!["Virtual-1"]);
    // Preferred mode, origin-anchored, primary.
    assert_eq!(cfg[0].monitors[0].mode_id, "1280x720@60");
    assert_eq!((cfg[0].x, cfg[0].y), (0, 0));
    assert!(cfg[0].primary);
}

#[test]
fn unknown_connectors_are_skipped() {
    let plan = OutputPlan::builder()
        .enable(EnableOutput { name: "HDMI-A-9".into(), mode: None, position: None })
        .unwrap()
        .build();
    let cfg = plan.to_mutter_config(&state());
    assert_eq!(names(&cfg), vec!["DP-1"]);
    assert_eq!((cfg[0].x, cfg[0].y), (0, 0));
}

#[test]
fn far_apart_positions_are_laid_out_exactly() {
    // DP-1 stays at (100, 50); Virtual-1 is asked for the far right end of
    // the 32-bit range, so the shifted layout spans more than i32 holds.
    let plan = OutputPlan::builder()
        .enable(EnableOutput { name: "Virtual-1".into(), mode: None, position: Some((i32::MAX, i32::MIN)) })
        .unwrap()
        .build();
    let cfg = plan.to_mutter_config(&state());
    assert_eq!(names(&cfg), vec!["DP-1", "Virtual-1"]);
    assert_eq!((cfg[0].x, cfg[0].y), (0, 50 - i32::MIN as i128));
    assert_eq!((cfg[1].x, cfg[1].y), (i32::MAX as i128 - 100, 0));
}

#[test]
fn snapshot_reports_logical_placement_and_current_mode() {
    let mut st = state();
    st.logical_monitors[0].transform = 9;
    let snap = snapshot_of(&st);
    assert_eq!(snap.heads.len(), 2);
    let dp = &snap.heads[0];
    assert_eq!(dp.name, "DP-1");
    assert!(dp.enabled);
    assert_eq!(dp.mode, Some(ModeInfo { width: 1920, height: 1080, refresh_mhz: 60_000 }));
    assert_eq!(dp.position, Some((100, 50)));
    assert_eq!(dp.scale_bits, Some(0x3FF8_0000_0000_0000));
    // An unknown wire transform is dropped.
    assert_eq!(dp.transform, None);
    let v = &snap.heads[1];
    assert_eq!(v.name, "Virtual-1");
    assert!(!v.enabled);
    assert_eq!(v.mode, None);
    assert_eq!(v.position, None);

    let snap = snapshot_of(&state());
    assert_eq!(snap.heads[0].transform, Some(Transform::Normal));
}
