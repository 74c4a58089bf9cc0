use apfs_fastindex::source::{
    missing_device, plan_source, SourcePlan,
    dmg_descriptor, dmg_extension_accepted, is_device_path, normalize_raw_device, raw_device_descriptor,
    AttachEntity, SourceRefusal, APFS_CONTAINER_HINT,
};

#[test]
fn raw_device_paths_normalize_to_rdisk() {
    assert_eq!(normalize_raw_device("/dev/disk3"), Ok("/dev/rdisk3".to_string()));
    assert_eq!(normalize_raw_device("/dev/rdisk3s1"), Ok("/dev/rdisk3s1".to_string()));
    assert_eq!(normalize_raw_device("/tmp/x"), Err("unsupported raw device path: /tmp/x".to_string()));
    assert!(is_device_path("/dev/anything"));
    assert!(!is_device_path("/Volumes/dev/x"));
}

#[test]
fn raw_device_descriptor_names_the_raw_path() {
    let d = raw_device_descriptor("/dev/disk5").unwrap();
    assert_eq!(d.requested_path, "/dev/disk5");
    assert_eq!(d.raw_container_path, "/dev/rdisk5");
    assert_eq!(d.source_kind, "raw_device");
    assert_eq!(d.allowlist_reason, "caller-supplied raw APFS container device");
    assert_eq!(
        raw_device_descriptor("/dev/null"),
        Err(SourceRefusal::UnsupportedSource("unsupported raw device path: /dev/null".to_string()))
    );
}

#[test]
fn only_dmg_extensions_pass_case_insensitively() {
    assert!(dmg_extension_accepted(Some("dmg")));
    assert!(dmg_extension_accepted(Some("DmG")));
    assert!(!dmg_extension_accepted(Some("iso")));
    assert!(!dmg_extension_accepted(Some("dmgx")));
    assert!(!dmg_extension_accepted(None));
}

fn entity(dev: Option<&str>, hint: Option<&str>) -> AttachEntity {
    AttachEntity { dev_entry: dev.map(|s| s.to_string()), content_hint: hint.map(|s| s.to_string()) }
}

#[test]
fn dmg_descriptor_picks_container_entity_and_first_device() {
    let entities = vec![
        entity(Some("/dev/disk9"), Some("GUID_partition_scheme")),
        entity(Some("/dev/disk9s1"), Some(APFS_CONTAINER_HINT)),
    ];
    let v = dmg_descriptor("/tmp/a.dmg", &entities).unwrap();
    assert_eq!(v.descriptor.raw_container_path, "/dev/rdisk9s1");
    assert_eq!(v.descriptor.source_kind, "dmg_image");
    assert_eq!(v.descriptor.allowlist_reason, "detached image-backed APFS container");
    assert_eq!(v.detach_device.as_deref(), Some("/dev/disk9"));
}

#[test]
fn dmg_descriptor_refuses_without_container() {
    let entities = vec![entity(Some("/dev/disk9"), Some("GUID_partition_scheme"))];
    assert_eq!(dmg_descriptor("/tmp/a.dmg", &entities).unwrap_err(), SourceRefusal::MissingApfsContainer);
    assert_eq!(dmg_descriptor("/tmp/a.dmg", &[]).unwrap_err(), SourceRefusal::MissingApfsContainer);
    let odd = vec![entity(Some("/dev/disk9"), None), entity(Some("/private/x"), Some(APFS_CONTAINER_HINT))];
    assert_eq!(
        dmg_descriptor("/tmp/a.dmg", &odd).unwrap_err(),
        SourceRefusal::UnsupportedSource("unsupported raw device path: /private/x".to_string())
    );
}

#[test]
fn plan_source_routes_devices_images_and_refusals() {
    match plan_source("/dev/disk4", false, None) {
        SourcePlan::Device(d) => assert_eq!(d.raw_container_path, "/dev/rdisk4"),
        other => panic!("unexpected plan {other:?}"),
    }
    assert_eq!(
        plan_source("/tmp/missing.dmg", false, Some("dmg")),
        SourcePlan::Refused(SourceRefusal::UnsupportedSource("source path does not exist: /tmp/missing.dmg".to_string()))
    );
    assert_eq!(
        plan_source("/tmp/x.iso", true, Some("iso")),
        SourcePlan::Refused(SourceRefusal::UnsupportedSource(
            "only detached APFS .dmg images or raw APFS container devices are in the current allowlist".to_string()
        ))
    );
    assert_eq!(plan_source("/tmp/x.DMG", true, Some("DMG")), SourcePlan::AttachImage);
    assert_eq!(
        missing_device("/dev/rdisk9"),
        SourceRefusal::UnsupportedSource("raw device does not exist: /dev/rdisk9".to_string())
    );
}
