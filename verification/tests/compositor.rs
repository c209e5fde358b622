use fauxput::compositor::{
    CompositorError,
    EnableOutput, FeatureKind, HeadState, ModeInfo, OutputPlan, OutputSnapshot, PlanError, Transform,
};
use fauxput::Error;

fn enable(name: &str) -> EnableOutput {
    EnableOutput {
        name: name.into(),
        mode: None,
        position: None,
    }
}

fn head(name: &str, enabled: bool, mode: Option<ModeInfo>, position: Option<(i32, i32)>) -> HeadState {
    HeadState {
        name: name.into(),
        enabled,
        mode,
        position,
        scale_bits: None,
        transform: None,
    }
}

#[test]
fn feature_capability_diff() {
    assert_eq!(FeatureKind::Primary.name(), "primary");

    // Empty plan: nothing requested, nothing unsupported.
    let empty = OutputPlan::builder().build();
    let no_caps: Vec<FeatureKind> = Vec::new();
    assert!(empty.requested_features().is_empty());
    assert!(empty.unsupported_by(&no_caps).is_empty());

    let plan = OutputPlan::builder()
        .set_primary("fauxput-0")
        .unwrap()
        .build();
    assert_eq!(plan.requested_features(), vec![FeatureKind::Primary]);

    // Adapter lacks Primary: it lands in unsupported.
    assert_eq!(plan.unsupported_by(&no_caps), vec![FeatureKind::Primary]);

    // Adapter has Primary: nothing unsupported.
    let with_primary = vec![FeatureKind::Primary];
    assert!(plan.unsupported_by(&with_primary).is_empty());
}

#[test]
fn primary_accessor_dedupes_and_replaces() {
    let plan = OutputPlan::builder()
        .set_primary("DP-1")
        .unwrap()
        .set_primary("DP-2")
        .unwrap()
        .build();
    assert_eq!(plan.primary(), Some("DP-2"));
    assert_eq!(
        plan.requested_features(),
        vec![FeatureKind::Primary],
        "second set_primary must replace, not append"
    );
}

#[test]
fn builder_validation_rejects_invariants() {
    let r = OutputPlan::builder().enable(EnableOutput {
        name: String::new(),
        mode: None,
        position: None,
    });
    assert!(matches!(r, Err(Error::Plan(PlanError::EmptyName))));

    let r = OutputPlan::builder().disable("");
    assert!(matches!(r, Err(Error::Plan(PlanError::EmptyName))));

    let r = OutputPlan::builder()
        .disable("DP-1")
        .unwrap()
        .enable(enable("DP-1"));
    assert!(matches!(r, Err(Error::Plan(PlanError::Conflict(s))) if s == "DP-1"));

    // Symmetric to above: opposite arm of the conflict check.
    let r = OutputPlan::builder()
        .enable(enable("DP-1"))
        .unwrap()
        .disable("DP-1");
    assert!(matches!(r, Err(Error::Plan(PlanError::Conflict(s))) if s == "DP-1"));

    let r = OutputPlan::builder()
        .enable(enable("DP-1"))
        .unwrap()
        .enable(enable("DP-1"));
    assert!(matches!(r, Err(Error::Plan(PlanError::DuplicateEnable(s))) if s == "DP-1"));

    let r = OutputPlan::builder().enable(EnableOutput {
        name: "DP-1".into(),
        mode: Some(ModeInfo {
            width: 0,
            height: 1080,
            refresh_mhz: 60_000,
        }),
        position: None,
    });
    assert!(matches!(
        r,
        Err(Error::Plan(PlanError::InvalidMode { width: 0, .. }))
    ));

    // set_primary participates in the same conflict check as enable/disable.
    let r = OutputPlan::builder()
        .disable("DP-1")
        .unwrap()
        .set_primary("DP-1");
    assert!(matches!(r, Err(Error::Plan(PlanError::Conflict(s))) if s == "DP-1"));
}

#[test]
fn set_primary_rejects_empty_name() {
    let r = OutputPlan::builder().set_primary("");
    assert!(matches!(r, Err(Error::Plan(PlanError::EmptyName))));
}

#[test]
fn invalid_refresh_and_height_are_rejected() {
    for mode in [
        ModeInfo { width: 1920, height: -1, refresh_mhz: 60_000 },
        ModeInfo { width: 1920, height: 1080, refresh_mhz: 0 },
    ] {
        let r = OutputPlan::builder().enable(EnableOutput {
            name: "DP-1".into(),
            mode: Some(mode),
            position: None,
        });
        assert!(matches!(r, Err(Error::Plan(PlanError::InvalidMode { .. }))));
    }
}

#[test]
fn enable_all_stops_at_first_bad_entry() {
    let r = OutputPlan::builder().enable_all(vec![enable("DP-1"), enable(""), enable("DP-1")]);
    assert!(matches!(r, Err(Error::Plan(PlanError::EmptyName))));

    let plan = OutputPlan::builder()
        .enable_all(vec![enable("DP-1"), enable("HDMI-A-1")])
        .unwrap()
        .disable_all(vec!["DP-2".to_string()])
        .unwrap()
        .build();
    let names: Vec<&str> = plan.enables().iter().map(|e| e.name.as_str()).collect();
    assert_eq!(names, vec!["DP-1", "HDMI-A-1"]);
    assert_eq!(plan.disables(), &vec!["DP-2".to_string()]);
    assert_eq!(plan.primary(), None);

    let r = OutputPlan::builder()
        .enable(enable("DP-1"))
        .unwrap()
        .disable_all(vec!["DP-2".to_string(), "DP-1".to_string()]);
    assert!(matches!(r, Err(Error::Plan(PlanError::Conflict(s))) if s == "DP-1"));
}

#[test]
fn active_enables_keeps_only_placed_enabled_heads() {
    let mode = ModeInfo { width: 1920, height: 1080, refresh_mhz: 60_000 };
    let snap = OutputSnapshot {
        heads: vec![
            head("DP-1", true, Some(mode), Some((0, 0))),
            head("DP-2", false, Some(mode), Some((1920, 0))),
            head("DP-3", true, None, Some((3840, 0))),
            head("HDMI-A-1", true, Some(mode), Some((3840, 0))),
        ],
    };
    let enables = snap.active_enables();
    assert_eq!(enables.len(), 2);
    assert_eq!(enables[0].name, "DP-1");
    assert_eq!(enables[0].mode, Some(mode));
    assert_eq!(enables[0].position, Some((0, 0)));
    assert_eq!(enables[1].name, "HDMI-A-1");
    assert_eq!(enables[1].position, Some((3840, 0)));
}

#[test]
fn transform_decodes_every_wire_value() {
    let all = [
        Transform::Normal,
        Transform::Rot90,
        Transform::Rot180,
        Transform::Rot270,
        Transform::Flipped,
        Transform::FlippedRot90,
        Transform::FlippedRot180,
        Transform::FlippedRot270,
    ];
    for (v, t) in all.iter().enumerate() {
        assert_eq!(Transform::try_from(v as i32), Ok(*t));
    }
    assert_eq!(Transform::try_from(i32::MAX), Err(i32::MAX));
}

#[test]
fn plan_error_messages() {
    assert_eq!(
        Error::Plan(PlanError::Conflict("DP-1".into())).message(),
        "name `DP-1` appears in both enable and disable"
    );
    assert_eq!(
        Error::Plan(PlanError::InvalidMode { width: -5, height: 1080, refresh: 60000 }).message(),
        "invalid mode: -5x1080@60000mHz"
    );
    assert_eq!(Error::Plan(PlanError::EmptyName).message(), "EnableOutput has empty name");
    assert_eq!(
        Error::Plan(PlanError::DuplicateEnable("DP-1".into())).message(),
        "duplicate enable for name `DP-1`"
    );
}

#[test]
fn first_new_head_skips_baseline_names() {
    let snap = OutputSnapshot {
        heads: vec![
            head("DP-1", true, None, None),
            head("Virtual-1", false, None, None),
            head("Virtual-2", true, None, Some((5, 6))),
        ],
    };
    let baseline = vec!["DP-1".to_string()];
    let new = snap.first_new_head(&baseline).expect("a new head");
    assert_eq!(new.name, "Virtual-1");
    assert!(!new.enabled);

    let all = vec!["Virtual-2".to_string(), "DP-1".to_string(), "Virtual-1".to_string()];
    assert!(snap.first_new_head(&all).is_none());
    assert!(OutputSnapshot { heads: vec![] }.first_new_head(&baseline).is_none());
}

#[test]
fn timeout_message_renders_duration_like_debug() {
    let msg = |ms: u64| {
        CompositorError::Timeout { reason: "new kde head".into(), timeout_ms: ms }.message()
    };
    for ms in [0u64, 1, 250, 1000, 1500, 2050, 3007, 61_000] {
        let expected = format!("timed out after {:?} waiting for new kde head", std::time::Duration::from_millis(ms));
        assert_eq!(msg(ms), expected);
    }
    assert_eq!(msg(1500), "timed out after 1.5s waiting for new kde head");
}
