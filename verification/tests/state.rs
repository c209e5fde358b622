use fauxput::backend::DisplayHandle;
use fauxput::edid::EdidSpec;
use fauxput::state::{
    ActiveState, HeadConfigured, InstanceRecord, LayoutChanges, StateRead, StateStore, SCHEMA_VERSION, STATE_FILE,
};
use fauxput::Error;

fn record(id: &str) -> InstanceRecord {
    InstanceRecord {
        handle: DisplayHandle { backend_id: "configfs-vkms".into(), local_id: id.into() },
        compositor_head_name: None,
        spec: EdidSpec { width: 1920, height: 1080, refresh_hz: 60, instance_index: 0 },
        compositor_snapshot: None,
        compositor_configured: false,
        layout_changes: LayoutChanges::default(),
    }
}

#[test]
fn store_paths() {
    let s = StateStore::new();
    assert_eq!(s.path(), STATE_FILE);
    let t = StateStore::with_dir("/tmp/x");
    assert_eq!(t.path(), "/tmp/x/active.json");
    assert_eq!(t.lock_path(), "/tmp/x/state.lock");
    assert_eq!(t.dir(), "/tmp/x");
}

#[test]
fn load_rules() {
    let s = StateStore::new();
    let st = s.load_from(StateRead::Missing).unwrap();
    assert_eq!(st.schema_version, SCHEMA_VERSION);
    assert!(st.instances.is_empty());

    let bad = ActiveState { schema_version: 2, instances: vec![] };
    match s.load_from(StateRead::Parsed(bad)) {
        Err(e) => assert_eq!(
            e.message(),
            "state file at /run/fauxput/active.json has schema version 2, expected 1 (run `fauxput reset`)"
        ),
        Ok(_) => panic!("schema mismatch must fail"),
    }
    assert!(matches!(s.load_from(StateRead::Malformed("eof".into())), Err(Error::State(_))));
    assert!(matches!(s.load_from(StateRead::Failed("denied".into())), Err(Error::State(_))));
    let good = ActiveState { schema_version: 1, instances: vec![record("fauxput-0")] };
    assert_eq!(s.load_from(StateRead::Parsed(good)).unwrap().instances.len(), 1);
}

#[test]
fn update_touches_the_newest_matching_record() {
    let mut st = ActiveState::default();
    st.push_instance(record("fauxput-0"));
    st.push_instance(record("fauxput-1"));
    st.push_instance(record("fauxput-0"));
    let found = st.update_instance(
        "fauxput-0",
        HeadConfigured { head_name: "Virtual-1".into(), layout_changes: LayoutChanges::default() },
    );
    assert!(found);
    assert!(!st.instances[0].compositor_configured);
    assert!(st.instances[2].compositor_configured);
    assert_eq!(st.instances[2].compositor_head_name.as_deref(), Some("Virtual-1"));

    let missing = st.update_instance(
        "fauxput-9",
        HeadConfigured { head_name: "X".into(), layout_changes: LayoutChanges::default() },
    );
    assert!(!missing);
    assert_eq!(st.instances.len(), 3);
}
