use fauxput::backend::{CreateOutcome, DisplayHandle, FeatureAcceptance};
use fauxput::compositor::{HeadState, ModeInfo, OutputSnapshot};
use fauxput::edid::EdidSpec;
use fauxput::lifecycle::{
    down, is_real_output, layout_plan, placement_fits, placement_plan, reset, restore_plans, up, TeardownAction,
    TeardownEvent, UpAction, UpEvent, UpRequest,
};
use fauxput::state::{ActiveState, InstanceRecord, LayoutChanges};
use fauxput::Error;

const MODE: ModeInfo = ModeInfo { width: 1920, height: 1080, refresh_mhz: 60_000 };

fn head(name: &str, enabled: bool, x: i32) -> HeadState {
    HeadState {
        name: name.into(),
        enabled,
        mode: Some(MODE),
        position: Some((x, 0)),
        scale_bits: None,
        transform: None,
    }
}

fn request(make_primary: bool, disable_real_outputs: bool) -> UpRequest {
    UpRequest {
        spec: EdidSpec { width: 2560, height: 1440, refresh_hz: 60, instance_index: 0 },
        make_primary,
        disable_real_outputs,
    }
}

fn handle(id: &str) -> DisplayHandle {
    DisplayHandle { backend_id: "configfs-vkms".into(), local_id: id.into() }
}

#[test]
fn real_outputs_are_recognised_by_connector_kind() {
    for n in ["DP-1", "HDMI-A-1", "eDP-1", "DVI-I-1", "VGA-1", "DSI-1", "LVDS-1", "DP"] {
        assert!(is_real_output(n), "{n}");
    }
    for n in ["fauxput-0", "Virtual-1", "", "dp-1", "HDMI2-1", "-DP"] {
        assert!(!is_real_output(n), "{n}");
    }
}

#[test]
fn new_head_goes_right_of_the_layout() {
    let pre = OutputSnapshot { heads: vec![head("DP-1", true, 0), head("DP-2", true, 1920), head("DP-3", false, 9000)] };
    assert!(placement_fits(&pre));
    let (plan, pos) = placement_plan(&pre, &request(false, false), "fauxput-0").unwrap();
    assert_eq!(pos, (3840, 0));
    let names: Vec<&str> = plan.enables().iter().map(|e| e.name.as_str()).collect();
    assert_eq!(names, vec!["DP-1", "DP-2", "fauxput-0"]);
    let new = &plan.enables()[2];
    assert_eq!(new.mode, Some(ModeInfo { width: 2560, height: 1440, refresh_mhz: 60_000 }));
    assert_eq!(new.position, Some((3840, 0)));

    let empty = OutputSnapshot { heads: vec![] };
    let (_, pos) = placement_plan(&empty, &request(false, false), "fauxput-0").unwrap();
    assert_eq!(pos, (0, 0));
}

#[test]
fn placement_refuses_a_duplicate_head() {
    let pre = OutputSnapshot { heads: vec![head("fauxput-0", true, 0)] };
    assert!(placement_plan(&pre, &request(false, false), "fauxput-0").is_err());
}

#[test]
fn layout_pass_disables_real_outputs_and_sets_primary() {
    let pre = OutputSnapshot {
        heads: vec![head("Virtual-1", true, 0), head("DP-1", true, 1920), head("HDMI-A-1", true, 3840)],
    };
    let (plan, changes) = layout_plan(&pre, &request(true, true), "fauxput-0", (0, 0)).unwrap();
    assert_eq!(changes.disabled_outputs, vec!["DP-1".to_string(), "HDMI-A-1".to_string()]);
    assert_eq!(changes.previous_primary, Some("DP-1".to_string()));
    let names: Vec<&str> = plan.enables().iter().map(|e| e.name.as_str()).collect();
    assert_eq!(names, vec!["Virtual-1", "fauxput-0"]);
    assert_eq!(plan.disables(), &changes.disabled_outputs);
    assert_eq!(plan.primary(), Some("fauxput-0"));

    let (plan, changes) = layout_plan(&pre, &request(false, false), "fauxput-0", (5760, 0)).unwrap();
    assert!(changes.disabled_outputs.is_empty());
    assert_eq!(changes.previous_primary, None);
    assert_eq!(plan.enables().len(), 4);
    assert_eq!(plan.primary(), None);
}

fn record(id: &str, head_name: Option<&str>, configured: bool, disabled: &[&str], previous: Option<&str>,
    snapshot: Option<OutputSnapshot>) -> InstanceRecord {
    InstanceRecord {
        handle: handle(id),
        compositor_head_name: head_name.map(|s| s.to_string()),
        spec: EdidSpec { width: 1920, height: 1080, refresh_hz: 60, instance_index: 0 },
        compositor_snapshot: snapshot,
        compositor_configured: configured,
        layout_changes: LayoutChanges {
            disabled_outputs: disabled.iter().map(|s| s.to_string()).collect(),
            previous_primary: previous.map(|s| s.to_string()),
        },
    }
}

#[test]
fn restore_reenables_union_once_and_restores_primary() {
    let snap = OutputSnapshot { heads: vec![head("DP-1", true, 0), head("DP-2", true, 1920)] };
    let recs = vec![
        record("fauxput-0", Some("Virtual-0"), true, &["DP-1", "DP-2"], Some("DP-1"), Some(snap)),
        record("fauxput-1", None, true, &["DP-2"], Some("DP-2"), None),
        record("fauxput-2", None, false, &[], None, None),
    ];
    let live = OutputSnapshot { heads: vec![head("DP-2", false, 777)] };
    let plans = restore_plans(&recs, Some(&live));
    let first = plans.reenable.expect("phase one").expect("valid");
    let names: Vec<&str> = first.enables().iter().map(|e| e.name.as_str()).collect();
    assert_eq!(names, vec!["DP-1", "DP-2"]);
    // The recorded position wins over the live one.
    assert_eq!(first.enables()[1].position, Some((1920, 0)));
    assert_eq!(first.primary(), Some("DP-1"));
    let second = plans.disable.expect("valid");
    assert_eq!(second.disables(), &vec!["Virtual-0".to_string(), "fauxput-1".to_string()]);
}

#[test]
fn restore_without_changes_skips_phase_one() {
    let recs = vec![record("fauxput-0", None, false, &[], None, None)];
    let plans = restore_plans(&recs, None);
    assert!(plans.reenable.is_none());
    assert!(plans.disable.unwrap().disables().is_empty());
}

fn created(id: &str) -> CreateOutcome {
    CreateOutcome { handle: handle(id), feature_acceptance: FeatureAcceptance { edid_applied: true } }
}

#[test]
fn up_without_compositor_records_then_reports_unconfigured() {
    let req = request(false, false);
    let (mut flow, a) = up(&req, false);
    assert!(matches!(a, UpAction::CheckAvailable));
    assert!(matches!(flow.step(UpEvent::Checked(Ok(()))), UpAction::Create(s) if s.width == 2560));
    let a = flow.step(UpEvent::Created(Ok(created("fauxput-0"))));
    match a {
        UpAction::Record(rec) => {
            assert_eq!(rec.handle.local_id, "fauxput-0");
            assert!(!rec.compositor_configured);
            assert!(rec.compositor_head_name.is_none());
        }
        _ => panic!("expected a record"),
    }
    match flow.step(UpEvent::Recorded(Ok(()))) {
        UpAction::Finish(Ok(o)) => {
            assert_eq!(o.handle.local_id, "fauxput-0");
            assert!(o.edid_applied);
            assert!(!o.compositor_configured);
            assert_eq!(o.compositor_position, None);
        }
        _ => panic!("expected the outcome"),
    }
}

#[test]
fn up_fails_fast_when_backend_unavailable() {
    let (mut flow, _) = up(&request(false, false), true);
    assert!(matches!(flow.step(UpEvent::Checked(Err(Error::ConfigfsNotMounted))), UpAction::Finish(Err(Error::ConfigfsNotMounted))));
}

#[test]
fn up_with_compositor_places_arranges_and_saves() {
    let req = request(true, true);
    let (mut flow, _) = up(&req, true);
    assert!(matches!(flow.step(UpEvent::Checked(Ok(()))), UpAction::Snapshot));
    let pre = OutputSnapshot { heads: vec![head("DP-1", true, 0)] };
    assert!(matches!(flow.step(UpEvent::Snapshotted(Some(pre))), UpAction::Create(_)));
    let _ = flow.step(UpEvent::Created(Ok(created("fauxput-0"))));
    match flow.step(UpEvent::Recorded(Ok(()))) {
        UpAction::WaitForHead(names) => assert_eq!(names, vec!["DP-1".to_string()]),
        _ => panic!("expected a wait"),
    }
    let new_head = HeadState { name: "Virtual-1".into(), enabled: false, mode: None, position: None, scale_bits: None, transform: None };
    match flow.step(UpEvent::HeadAppeared(Ok(new_head))) {
        UpAction::Apply(plan) => assert_eq!(plan.enables()[1].position, Some((1920, 0))),
        _ => panic!("expected the placement apply"),
    }
    match flow.step(UpEvent::Applied(Ok(()))) {
        UpAction::Apply(plan) => {
            assert_eq!(plan.disables(), &vec!["DP-1".to_string()]);
            assert_eq!(plan.primary(), Some("Virtual-1"));
            assert_eq!(plan.enables()[0].position, Some((0, 0)));
        }
        _ => panic!("expected the layout apply"),
    }
    match flow.step(UpEvent::Applied(Ok(()))) {
        UpAction::Save { local_id, update } => {
            assert_eq!(local_id, "fauxput-0");
            assert_eq!(update.head_name, "Virtual-1");
            assert_eq!(update.layout_changes.disabled_outputs, vec!["DP-1".to_string()]);
            assert_eq!(update.layout_changes.previous_primary, Some("DP-1".to_string()));
        }
        _ => panic!("expected a save"),
    }
    match flow.step(UpEvent::Saved(Ok(()))) {
        UpAction::Finish(Ok(o)) => {
            assert!(o.compositor_configured);
            assert_eq!(o.compositor_position, Some((0, 0)));
        }
        _ => panic!("expected the outcome"),
    }
}

#[test]
fn compositor_failure_after_create_does_not_fail_up() {
    let (mut flow, _) = up(&request(false, false), true);
    let _ = flow.step(UpEvent::Checked(Ok(())));
    let _ = flow.step(UpEvent::Snapshotted(None));
    let _ = flow.step(UpEvent::Created(Ok(created("fauxput-3"))));
    let _ = flow.step(UpEvent::Recorded(Ok(())));
    let timeout = Error::Io("timed out".into());
    match flow.step(UpEvent::HeadAppeared(Err(timeout))) {
        UpAction::Finish(Ok(o)) => {
            assert_eq!(o.handle.local_id, "fauxput-3");
            assert!(!o.compositor_configured);
        }
        _ => panic!("expected an unconfigured outcome"),
    }
}

fn state_with(ids: &[&str]) -> ActiveState {
    let mut st = ActiveState::default();
    for id in ids {
        st.push_instance(record(id, None, false, &[], None, None));
    }
    st
}

#[test]
fn down_destroys_newest_first_and_counts_successes() {
    let (mut flow, a) = down(false);
    assert!(matches!(a, TeardownAction::Load));
    match flow.step(TeardownEvent::Loaded(Ok(state_with(&["fauxput-0", "fauxput-1"])))) {
        TeardownAction::Destroy(h) => assert_eq!(h.local_id, "fauxput-1"),
        _ => panic!("expected a destroy"),
    }
    match flow.step(TeardownEvent::Destroyed(Ok(()))) {
        TeardownAction::Destroy(h) => assert_eq!(h.local_id, "fauxput-0"),
        _ => panic!("expected a destroy"),
    }
    assert!(matches!(flow.step(TeardownEvent::Destroyed(Err(Error::Io("busy".into())))), TeardownAction::Clear));
    assert!(matches!(flow.step(TeardownEvent::Cleared(Ok(()))), TeardownAction::Finish(Ok(1))));
}

#[test]
fn down_restores_compositor_before_destroying() {
    let (mut flow, _) = down(true);
    let mut st = ActiveState::default();
    st.push_instance(record("fauxput-0", Some("Virtual-1"), true, &["DP-1"], Some("DP-1"), None));
    assert!(matches!(flow.step(TeardownEvent::Loaded(Ok(st))), TeardownAction::Snapshot));
    let live = OutputSnapshot { heads: vec![head("DP-1", false, 0)] };
    match flow.step(TeardownEvent::Snapshotted(Some(live))) {
        TeardownAction::Apply(p) => assert_eq!(p.primary(), Some("DP-1")),
        _ => panic!("expected phase one"),
    }
    match flow.step(TeardownEvent::Applied(Err(Error::Io("rejected".into())))) {
        TeardownAction::Apply(p) => assert_eq!(p.disables(), &vec!["Virtual-1".to_string()]),
        _ => panic!("expected phase two"),
    }
    assert!(matches!(flow.step(TeardownEvent::Applied(Ok(()))), TeardownAction::Destroy(_)));
    assert!(matches!(flow.step(TeardownEvent::Destroyed(Ok(()))), TeardownAction::Clear));
    assert!(matches!(flow.step(TeardownEvent::Cleared(Ok(()))), TeardownAction::Finish(Ok(1))));
}

#[test]
fn down_reports_unreadable_state() {
    let (mut flow, _) = down(false);
    assert!(matches!(flow.step(TeardownEvent::Loaded(Err(Error::Io("bad".into())))), TeardownAction::Finish(Err(_))));
}

#[test]
fn reset_ignores_unreadable_state_and_sweeps_the_backend() {
    let (mut flow, _) = reset(false);
    assert!(matches!(flow.step(TeardownEvent::Loaded(Err(Error::Io("bad".into())))), TeardownAction::List));
    match flow.step(TeardownEvent::Listed(Ok(vec![handle("fauxput-7")]))) {
        TeardownAction::Destroy(h) => assert_eq!(h.local_id, "fauxput-7"),
        _ => panic!("expected a destroy"),
    }
    assert!(matches!(flow.step(TeardownEvent::Destroyed(Ok(()))), TeardownAction::Clear));
    assert!(matches!(flow.step(TeardownEvent::Cleared(Err(Error::Io("ro".into())))), TeardownAction::Finish(Err(_))));
}
