use fauxput::compositor::kde::{
    ApplyResult, ConfigEvent, DeviceEvent, Global, KdeRequest, KdeState, ModeEvent, Removed, Target,
    apply_outcome,
};
use fauxput::compositor::{EnableOutput, HeadState, ModeInfo, OutputPlan, Transform};

fn head(name: &str, enabled: bool) -> HeadState {
    HeadState {
        name: name.into(),
        enabled,
        mode: None,
        position: None,
        scale_bits: None,
        transform: None,
    }
}

fn mode(width: i32, height: i32) -> ModeInfo {
    ModeInfo {
        width,
        height,
        refresh_mhz: 60_000,
    }
}

#[test]
fn plan_policy_resolves_targets() {
    let mode = ModeInfo {
        width: 1920,
        height: 1080,
        refresh_mhz: 60_000,
    };

    // Two real heads on, one virtual head off.
    let mut primary = head("DP-1", true);
    primary.mode = Some(mode);
    primary.position = Some((0, 0));
    let mut secondary = head("DP-2", true);
    secondary.mode = Some(mode);
    secondary.position = Some((1920, 0));
    let live = [primary.clone(), secondary.clone(), head("fauxput-0", false)];

    // disable DP-1, enable fauxput-0, leave DP-2 unmentioned.
    let plan = OutputPlan::builder()
        .disable("DP-1")
        .unwrap()
        .enable(EnableOutput {
            name: "fauxput-0".into(),
            mode: Some(mode),
            position: Some((100, 0)),
        })
        .unwrap()
        .set_primary("DP-2")
        .unwrap()
        .build();

    // DP-1: disable wins over current-on.
    let target_primary = Target::for_head(&primary, &plan);
    assert!(!target_primary.enabled, "disable should win over carry");

    // DP-2: unmentioned, keep current state.
    let target_secondary = Target::for_head(&secondary, &plan);
    assert!(
        target_secondary.enabled,
        "unmentioned enabled head should carry"
    );
    assert_eq!(target_secondary.mode, secondary.mode);
    assert_eq!(target_secondary.position, secondary.position);

    // fauxput-0: explicit enable wins over current-off, plan's
    // mode/position replace the head's defaults.
    let target_virtual = Target::for_head(&live[2], &plan);
    assert!(
        target_virtual.enabled,
        "explicit enable should override current disabled state"
    );
    assert_eq!(target_virtual.mode, Some(mode));
    assert_eq!(target_virtual.position, Some((100, 0)));
}

#[test]
fn transform_decode_returns_err_for_unknown() {
    assert_eq!(Transform::try_from(0), Ok(Transform::Normal));
    assert_eq!(Transform::try_from(7), Ok(Transform::FlippedRot270));
    assert_eq!(Transform::try_from(8), Err(8));
    assert_eq!(Transform::try_from(-1), Err(-1));
}

#[test]
fn live_heads_excludes_devices_without_done() {
    let mut s = KdeState::new();
    // A: fully initialized, with mode 10 current.
    s.on_device_event(1, DeviceEvent::Name("A".into()));
    s.on_device_event(1, DeviceEvent::Mode(10));
    s.on_mode_event(10, ModeEvent::Size { width: 1920, height: 1080 });
    s.on_mode_event(10, ModeEvent::Refresh(60_000));
    s.on_device_event(1, DeviceEvent::Done);
    // B: mid-initialization, no `done` yet.
    s.on_device_event(2, DeviceEvent::Name("B".into()));

    let heads = s.live_heads();
    assert_eq!(
        heads.len(),
        1,
        "only done devices should project as live heads"
    );
    assert_eq!(heads[0].name, "A");
    assert_eq!(heads[0].mode, Some(mode(1920, 1080)));
}

fn bound_device(s: &mut KdeState, id: u32, name: &str, registry_name: u32) {
    s.on_global(Global::Device(id), registry_name);
    s.on_device_event(id, DeviceEvent::Name(name.into()));
    s.on_device_event(id, DeviceEvent::Enabled(1));
    s.on_device_event(id, DeviceEvent::Geometry { x: 0, y: 0, transform: 0 });
}

#[test]
fn geometry_and_removal_events() {
    let mut s = KdeState::new();
    bound_device(&mut s, 3, "DP-1", 40);
    s.on_device_event(3, DeviceEvent::Geometry { x: 10, y: 20, transform: 9 });
    s.on_device_event(3, DeviceEvent::Mode(30));
    s.on_device_event(3, DeviceEvent::Mode(31));
    s.on_mode_event(30, ModeEvent::Size { width: 1280, height: 720 });
    s.on_mode_event(31, ModeEvent::Size { width: 1920, height: 1080 });
    s.on_device_event(3, DeviceEvent::Done);
    let h = &s.live_heads()[0];
    assert_eq!(h.position, Some((10, 20)));
    assert_eq!(h.transform, None);
    assert_eq!(h.mode.map(|m| m.width), Some(1280));

    // Removing the current mode repoints to the first sibling.
    s.on_mode_event(30, ModeEvent::Removed);
    assert_eq!(s.live_heads()[0].mode.map(|m| m.width), Some(1920));

    // Removing the device's global drops it.
    assert!(matches!(s.on_global_remove(40), Removed::Device(3)));
    assert!(s.live_heads().is_empty());
    assert!(matches!(s.on_global_remove(40), Removed::Nothing));
}

#[test]
fn manager_removal_marks_compositor_gone() {
    let mut s = KdeState::new();
    s.on_global(Global::Manager, 5);
    s.mark_manager_alive();
    assert!(s.manager_alive());
    assert!(matches!(s.on_global_remove(5), Removed::Manager));
    assert!(!s.manager_alive());
}

#[test]
fn apply_failure_carries_the_reason() {
    let mut s = KdeState::new();
    s.begin_apply();
    assert!(s.take_apply_result().is_none());
    s.on_config_event(ConfigEvent::FailureReason("bad mode".into()));
    s.on_config_event(ConfigEvent::Failed);
    let r = s.take_apply_result().expect("answered");
    match apply_outcome(r) {
        Some(Err(e)) => assert_eq!(e.message(), "compositor failed apply: bad mode"),
        _ => panic!("expected a failure"),
    }
    s.on_config_event(ConfigEvent::Applied);
    assert!(matches!(s.take_apply_result(), Some(ApplyResult::Applied)));
}

#[test]
fn apply_requests_only_what_changes_and_priorities() {
    let mut s = KdeState::new();
    bound_device(&mut s, 1, "DP-1", 11);
    s.on_device_event(1, DeviceEvent::Mode(100));
    s.on_mode_event(100, ModeEvent::Size { width: 1920, height: 1080 });
    s.on_mode_event(100, ModeEvent::Refresh(60_000));
    s.on_device_event(1, DeviceEvent::Done);
    bound_device(&mut s, 2, "fauxput-0", 12);
    s.on_device_event(2, DeviceEvent::Enabled(0));
    s.on_device_event(2, DeviceEvent::Mode(200));
    s.on_device_event(2, DeviceEvent::Mode(201));
    s.on_mode_event(200, ModeEvent::Size { width: 1280, height: 720 });
    s.on_mode_event(201, ModeEvent::Size { width: 2560, height: 1440 });
    s.on_mode_event(201, ModeEvent::Refresh(59_951));
    s.on_device_event(2, DeviceEvent::Done);

    let live = s.live_heads();
    assert_eq!(live.len(), 2);
    let plan = OutputPlan::builder()
        .enable(EnableOutput {
            name: "fauxput-0".into(),
            mode: Some(ModeInfo { width: 2560, height: 1440, refresh_mhz: 60_000 }),
            position: Some((1920, 0)),
        })
        .unwrap()
        .set_primary("fauxput-0")
        .unwrap()
        .build();
    let reqs = s.apply_requests(&live, &plan);
    // DP-1 is untouched apart from its priority (2); fauxput-0 is enabled,
    // gets the closest 2560x1440 mode, its position, and priority 1.
    assert_eq!(reqs.len(), 5);
    assert!(matches!(reqs[0], KdeRequest::Priority { device: 1, priority: 2 }));
    assert!(matches!(reqs[1], KdeRequest::Enable { device: 2, enabled: true }));
    assert!(matches!(reqs[2], KdeRequest::Mode { device: 2, mode: 201 }));
    assert!(matches!(reqs[3], KdeRequest::Position { device: 2, x: 1920, y: 0 }));
    assert!(matches!(reqs[4], KdeRequest::Priority { device: 2, priority: 1 }));
}

#[test]
fn unbound_devices_get_no_requests() {
    let mut s = KdeState::new();
    s.on_device_event(9, DeviceEvent::Name("DP-9".into()));
    s.on_device_event(9, DeviceEvent::Done);
    let live = s.live_heads();
    let plan = OutputPlan::builder().build();
    assert!(s.apply_requests(&live, &plan).is_empty());
    assert_eq!(s.device_by_name("DP-9"), None);
    s.on_registry_output(9);
    assert_eq!(s.device_by_name("DP-9"), Some(9));
}
