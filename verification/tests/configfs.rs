use fauxput::backend::configfs_vkms::{
    instance_index_from_name, next_free_name, CreateAction, CreateEvent, op_error, rollback, ComponentListing, ConfigfsVkms, FsOp,
    InstanceTree, Payload, SubdirListing, BACKEND_ID, CONFIGFS_VKMS_ROOT,
};
use fauxput::edid::{build, EdidSpec};
use fauxput::Error;

fn names(v: &[&str]) -> Vec<String> {
    v.iter().map(|s| s.to_string()).collect()
}

#[test]
fn next_free_name_picks_lowest_gap_ignoring_foreign_dirs() {
    assert_eq!(next_free_name(&Vec::new()), "fauxput-0");

    let mut entries: Vec<String> = [0u32, 1, 3, 5].iter().map(|n| format!("fauxput-{n}")).collect();
    entries.push("vkms-default".to_string());
    assert_eq!(next_free_name(&entries), "fauxput-2");
}

#[test]
fn list_only_returns_fauxput_instances() {
    let b = ConfigfsVkms::with_root("/tmp/vkms");
    let mut listed: Vec<_> = b
        .list(true, &names(&["fauxput-0", "fauxput-3", "vkms-default"]))
        .into_iter()
        .map(|h| h.local_id)
        .collect();
    listed.sort();
    assert_eq!(listed, vec!["fauxput-0", "fauxput-3"]);
}

#[test]
fn list_of_missing_root_is_empty() {
    let b = ConfigfsVkms::with_root("/nonexistent");
    assert!(b.list(false, &names(&["fauxput-0"])).is_empty());
}

fn comp(name: &str, children: Vec<(&str, Vec<&str>)>) -> ComponentListing {
    ComponentListing {
        name: name.into(),
        children: children
            .into_iter()
            .map(|(n, e)| SubdirListing { name: n.into(), entries: names(&e) })
            .collect(),
    }
}

#[test]
fn remove_unlinks_topology_symlinks() {
    let b = ConfigfsVkms::with_root("/cfg/vkms");
    let tree = InstanceTree {
        planes: vec![comp("0", vec![("possible_crtcs", vec!["0"]), ("type", vec![])])],
        crtcs: vec![comp("0", vec![])],
        encoders: vec![comp("0", vec![("possible_crtcs", vec!["0"])])],
        connectors: vec![comp("0", vec![("possible_encoders", vec!["0"]), ("status", vec![])])],
    };
    let ops = b.removal_ops("fauxput-0", true, &tree);
    let removed_files: Vec<&str> = ops
        .iter()
        .filter_map(|op| match op {
            FsOp::RemoveFile(p) => Some(p.as_str()),
            _ => None,
        })
        .collect();
    for link in [
        "planes/0/possible_crtcs/0",
        "encoders/0/possible_crtcs/0",
        "connectors/0/possible_encoders/0",
    ] {
        let full = format!("/cfg/vkms/fauxput-0/{link}");
        assert!(removed_files.contains(&full.as_str()), "{link} should be unlinked");
    }
    assert_eq!(removed_files.len(), 3);
    // Connectors are disconnected first and the instance directory goes last.
    assert!(matches!(&ops[0], FsOp::Write { path, bytes } if path == "/cfg/vkms/fauxput-0/connectors/0/status" && bytes == b"2\n"));
    assert!(matches!(&ops[ops.len() - 1], FsOp::RemoveDir(p) if p == "/cfg/vkms/fauxput-0"));
    // Component directories are removed connectors first, planes last.
    let dirs: Vec<&str> = ops
        .iter()
        .filter_map(|op| match op {
            FsOp::RemoveDir(p) => Some(p.as_str()),
            _ => None,
        })
        .collect();
    assert_eq!(
        dirs,
        vec![
            "/cfg/vkms/fauxput-0/connectors/0",
            "/cfg/vkms/fauxput-0/encoders/0",
            "/cfg/vkms/fauxput-0/crtcs/0",
            "/cfg/vkms/fauxput-0/planes/0",
            "/cfg/vkms/fauxput-0",
        ]
    );
}

#[test]
fn check_available_reports_missing_configfs_clearly() {
    let backend = ConfigfsVkms::with_root("/tmp/definitely-not-vkms");
    match backend.check_available(true, false) {
        Err(Error::VkmsConfigfsMissing) => {} // expected
        other => panic!("expected VkmsConfigfsMissing, got {:?}", other.err().map(|e| e.message())),
    }
    assert!(matches!(backend.check_available(false, false), Err(Error::ConfigfsNotMounted)));
    assert!(backend.check_available(true, true).is_ok());
}

#[test]
fn instance_index_parsing() {
    assert_eq!(instance_index_from_name("fauxput-0"), Some(0));
    assert_eq!(instance_index_from_name("fauxput-42"), Some(42));
    assert_eq!(instance_index_from_name("fauxput-+7"), Some(7));
    assert_eq!(instance_index_from_name("fauxput-"), None);
    assert_eq!(instance_index_from_name("fauxput--1"), None);
    assert_eq!(instance_index_from_name("fauxput-4294967295"), Some(u32::MAX));
    assert_eq!(instance_index_from_name("fauxput-4294967296"), None);
    assert_eq!(instance_index_from_name("vkms-default"), None);
    assert_eq!(instance_index_from_name("fauxput-1x"), None);
}

#[test]
fn commit_walks_the_schema() {
    let b = ConfigfsVkms::with_root("/cfg/vkms/");
    let head = b.commit_head("fauxput-1");
    assert_eq!(head.len(), 6);
    assert!(matches!(&head[0], FsOp::Mkdir(p) if p == "/cfg/vkms/fauxput-1"));
    assert!(matches!(&head[2], FsOp::Write { path, bytes } if path == "/cfg/vkms/fauxput-1/planes/0/type" && bytes == b"1\n"));
    let edid = vec![1u8, 2, 3];
    let with_edid = b.commit_tail("fauxput-1", &edid, true);
    let without = b.commit_tail("fauxput-1", &edid, false);
    assert_eq!(with_edid.len(), without.len() + 2);
    assert!(matches!(&with_edid[0], FsOp::Write { path, bytes } if path == "/cfg/vkms/fauxput-1/connectors/0/edid" && bytes == &edid));
    assert!(matches!(&without[1], FsOp::Symlink { target, link } if target == "/cfg/vkms/fauxput-1/crtcs/0" && link == "/cfg/vkms/fauxput-1/planes/0/possible_crtcs/0"));
    assert!(matches!(&without[6], FsOp::Sleep(50)));
    assert_eq!(b.edid_attr_path("fauxput-1"), "/cfg/vkms/fauxput-1/connectors/0/edid");
}

#[test]
fn rollback_undoes_in_reverse() {
    let done = vec![
        FsOp::Mkdir("/a".into()),
        FsOp::Write { path: "/a/x".into(), bytes: vec![1] },
        FsOp::Mkdir("/a/b".into()),
        FsOp::Symlink { target: "/a/b".into(), link: "/a/l".into() },
    ];
    let undo = rollback(&done);
    assert_eq!(undo.len(), 3);
    assert!(matches!(&undo[0], FsOp::RemoveFile(p) if p == "/a/l"));
    assert!(matches!(&undo[1], FsOp::RemoveDir(p) if p == "/a/b"));
    assert!(matches!(&undo[2], FsOp::RemoveDir(p) if p == "/a"));
}

#[test]
fn operation_errors_name_the_path() {
    let e = op_error(&FsOp::Mkdir("/x".into()), "Permission denied".into());
    assert_eq!(e.message(), "kernel rejected mkdir at /x: Permission denied");
    let e = op_error(&FsOp::Symlink { target: "/t".into(), link: "/l".into() }, "EINVAL".into());
    assert_eq!(e.message(), "kernel rejected symlink /l -> /t: EINVAL");
    let e = op_error(&FsOp::RemoveDir("/d".into()), "busy".into());
    assert!(matches!(e, Error::Rmdir { .. }));
}

#[test]
fn payload_bytes() {
    assert_eq!(Payload::Enabled.as_bytes(), b"1\n");
    assert_eq!(Payload::Disabled.as_bytes(), b"0\n");
    assert_eq!(Payload::ConnectorDisconnected.as_bytes(), b"2\n");
}

#[test]
fn create_uses_the_slot_index_in_the_edid() {
    let b = ConfigfsVkms::new();
    assert_eq!(b.root(), CONFIGFS_VKMS_ROOT);
    let spec = EdidSpec { width: 1920, height: 1080, refresh_hz: 60, instance_index: 0 };
    let edid = b.instance_edid(&spec, "fauxput-4").unwrap();
    assert_eq!(u32::from_le_bytes(edid[12..16].try_into().unwrap()), 4);
    let out = b.create_outcome("fauxput-4".into(), false);
    assert_eq!(out.handle.backend_id, BACKEND_ID);
    assert_eq!(out.handle.local_id, "fauxput-4");
    assert!(!out.feature_acceptance.edid_applied);
    let caps = b.capabilities();
    assert_eq!(caps.max_displays, 8);
    assert!(caps.supports_dynamic_edid);
}

#[test]
fn remove_is_idempotent_when_already_gone() {
    let b = ConfigfsVkms::with_root("/cfg/vkms");
    let tree = InstanceTree { planes: vec![], crtcs: vec![], encoders: vec![], connectors: vec![] };
    // Nothing to do for a missing instance, hence nothing that can fail.
    assert!(b.removal_ops("fauxput-0", false, &tree).is_empty());
}

fn spec_1080() -> EdidSpec {
    EdidSpec { width: 1920, height: 1080, refresh_hz: 60, instance_index: 9 }
}

fn op_path(a: &CreateAction) -> String {
    match a {
        CreateAction::Perform(FsOp::Mkdir(p)) => p.clone(),
        CreateAction::Perform(FsOp::Write { path, .. }) => path.clone(),
        CreateAction::Perform(FsOp::Symlink { link, .. }) => link.clone(),
        CreateAction::Perform(FsOp::Sleep(ms)) => format!("sleep {ms}"),
        other => panic!("expected an operation, got {}", match other {
            CreateAction::CheckAvailable => "check",
            CreateAction::ListRoot => "list",
            CreateAction::Probe(_) => "probe",
            CreateAction::Cleanup { .. } => "cleanup",
            CreateAction::Finish(_) => "finish",
            CreateAction::Perform(_) => "remove",
        }),
    }
}

#[test]
fn create_names_lowest_free_slot_and_builds_its_edid() {
    let b = ConfigfsVkms::with_root("/cfg/vkms");
    let (mut flow, a) = b.create(&spec_1080());
    assert!(matches!(a, CreateAction::CheckAvailable));
    let a = flow.step(CreateEvent::Checked(Ok(())));
    assert!(matches!(a, CreateAction::ListRoot));
    let mut a = flow.step(CreateEvent::Listed(names(&["fauxput-0", "fauxput-2", "vkms-default"])));
    let head = [
        "/cfg/vkms/fauxput-1",
        "/cfg/vkms/fauxput-1/planes/0",
        "/cfg/vkms/fauxput-1/planes/0/type",
        "/cfg/vkms/fauxput-1/crtcs/0",
        "/cfg/vkms/fauxput-1/encoders/0",
        "/cfg/vkms/fauxput-1/connectors/0",
    ];
    for p in head {
        assert_eq!(op_path(&a), p);
        a = flow.step(CreateEvent::Performed(Ok(())));
    }
    match &a {
        CreateAction::Probe(p) => assert_eq!(p, "/cfg/vkms/fauxput-1/connectors/0/edid"),
        _ => panic!("expected the EDID attribute probe"),
    }
    a = flow.step(CreateEvent::Probed(true));
    // The EDID written is the one for slot 1, whatever index the caller passed.
    let expected = build(&EdidSpec { instance_index: 1, ..spec_1080() }).unwrap();
    match &a {
        CreateAction::Perform(FsOp::Write { path, bytes }) => {
            assert_eq!(path, "/cfg/vkms/fauxput-1/connectors/0/edid");
            assert_eq!(bytes, &expected);
        }
        _ => panic!("expected the EDID write"),
    }
    let mut steps = 0;
    while let CreateAction::Perform(_) = a {
        a = flow.step(CreateEvent::Performed(Ok(())));
        steps += 1;
    }
    assert_eq!(steps, 10);
    match a {
        CreateAction::Finish(Ok(o)) => {
            assert_eq!(o.handle.backend_id, BACKEND_ID);
            assert_eq!(o.handle.local_id, "fauxput-1");
            assert!(o.feature_acceptance.edid_applied);
        }
        _ => panic!("expected a finished create"),
    }
}

#[test]
fn failed_create_rolls_back_what_it_made() {
    let b = ConfigfsVkms::with_root("/cfg/vkms");
    let (mut flow, _) = b.create(&spec_1080());
    flow.step(CreateEvent::Checked(Ok(())));
    let mut a = flow.step(CreateEvent::Listed(names(&[])));
    for _ in 0..3 {
        a = flow.step(CreateEvent::Performed(Ok(())));
    }
    assert_eq!(op_path(&a), "/cfg/vkms/fauxput-0/crtcs/0");
    let a = flow.step(CreateEvent::Performed(Err("File exists".into())));
    match a {
        CreateAction::Cleanup { undo, name } => {
            assert_eq!(name, "fauxput-0");
            assert_eq!(undo.len(), 2);
            assert!(matches!(&undo[0], FsOp::RemoveDir(p) if p == "/cfg/vkms/fauxput-0/planes/0"));
            assert!(matches!(&undo[1], FsOp::RemoveDir(p) if p == "/cfg/vkms/fauxput-0"));
        }
        _ => panic!("expected a rollback"),
    }
    match flow.step(CreateEvent::CleanedUp) {
        CreateAction::Finish(Err(Error::Mkdir { path, source })) => {
            assert_eq!(path, "/cfg/vkms/fauxput-0/crtcs/0");
            assert_eq!(source, "File exists");
        }
        _ => panic!("expected the mkdir error"),
    }
}

#[test]
fn create_without_edid_attribute_and_with_bad_mode() {
    let b = ConfigfsVkms::with_root("/cfg/vkms");
    let (mut flow, _) = b.create(&spec_1080());
    flow.step(CreateEvent::Checked(Ok(())));
    let mut a = flow.step(CreateEvent::Listed(names(&["fauxput-0"])));
    for _ in 0..6 {
        a = flow.step(CreateEvent::Performed(Ok(())));
    }
    assert!(matches!(a, CreateAction::Probe(_)));
    a = flow.step(CreateEvent::Probed(false));
    // No EDID write: straight to the connector status.
    assert_eq!(op_path(&a), "/cfg/vkms/fauxput-1/connectors/0/status");
    while let CreateAction::Perform(_) = a {
        a = flow.step(CreateEvent::Performed(Ok(())));
    }
    match a {
        CreateAction::Finish(Ok(o)) => assert!(!o.feature_acceptance.edid_applied),
        _ => panic!("expected a finished create"),
    }

    let (mut flow, _) = b.create(&EdidSpec { width: 0, ..spec_1080() });
    flow.step(CreateEvent::Checked(Ok(())));
    match flow.step(CreateEvent::Listed(names(&[]))) {
        CreateAction::Finish(Err(Error::InvalidTiming { width, .. })) => assert_eq!(width, 0),
        _ => panic!("expected the timing error"),
    }

    let (mut flow, _) = b.create(&spec_1080());
    assert!(matches!(flow.step(CreateEvent::Checked(Err(Error::VkmsConfigfsMissing))),
        CreateAction::Finish(Err(Error::VkmsConfigfsMissing))));
}
