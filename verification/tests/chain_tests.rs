use cargo_scan::audit_chain::AuditChain;
use cargo_scan::audit_file::AuditFile;
use cargo_scan::chain_update::{ChainUpdate, UpdateError};
use cargo_scan::ident::CanonicalPath;
use cargo_scan::effect::EffectType;
use cargo_scan::util::{CrateId, CrateVersion};

fn version(major: u64, minor: u64, patch: u64) -> CrateVersion {
    CrateVersion { major, minor, patch, pre: String::new(), build: String::new() }
}

fn id(name: &str, major: u64, minor: u64, patch: u64) -> CrateId {
    CrateId::new(name.to_string(), version(major, minor, patch))
}

fn names(ids: &[CrateId]) -> Vec<String> {
    ids.iter().map(|c| c.to_display_string()).collect()
}

fn chain() -> AuditChain {
    AuditChain::new(
        "policy.manifest".to_string(),
        ".".to_string(),
        vec![EffectType::SinkCall, EffectType::FFICall],
    )
}

#[test]
fn crate_id_texts() {
    let c = id("serde", 1, 0, 200);
    assert_eq!(c.key_text(), "serde:1.0.200");
    assert_eq!(c.to_display_string(), "serde-1.0.200");
    let pre = CrateId::new(
        "tokio".to_string(),
        CrateVersion {
            major: 1,
            minor: 2,
            patch: 3,
            pre: "alpha.1".to_string(),
            build: "build.5".to_string(),
        },
    );
    assert_eq!(pre.key_text(), "tokio:1.2.3-alpha.1+build.5");
    let build_only = CrateId::new(
        "x".to_string(),
        CrateVersion { major: 0, minor: 10, patch: 0, pre: String::new(), build: "git".to_string() },
    );
    assert_eq!(build_only.to_display_string(), "x-0.10.0+git");
}

#[test]
fn crate_id_from_key_text() {
    let c = CrateId::from_key_text("serde:1.0.200").unwrap();
    assert_eq!(c.crate_name, "serde");
    assert_eq!(c.version, version(1, 0, 200));
    let p = CrateId::from_key_text("tokio:1.2.3-alpha.1+build.5").unwrap();
    assert_eq!(p.version.pre, "alpha.1");
    assert_eq!(p.version.build, "build.5");
    assert_eq!(p.key_text(), "tokio:1.2.3-alpha.1+build.5");
    assert!(CrateId::from_key_text("serde").is_none());
    assert!(CrateId::from_key_text("a:b:1.0.0").is_none());
    assert!(CrateId::from_key_text("serde:1.0").is_none());
    assert!(CrateId::from_key_text("serde:").is_none());
    assert_eq!(CrateId::from_key_text(":0.1.0").unwrap().crate_name, "");
}

#[test]
fn crate_id_from_package_fields() {
    let c = CrateId::from_toml_package("foo-bar", "0.3.1").unwrap();
    assert_eq!(c, id("foo-bar", 0, 3, 1));
    assert!(CrateId::from_toml_package("foo", "latest").is_none());
    assert!(c.same_id(&id("foo-bar", 0, 3, 1)));
    assert!(!c.same_id(&id("foo-bar", 0, 3, 2)));
    assert!(!c.same_id(&id("foo_bar", 0, 3, 1)));
}

#[test]
fn chain_add_and_lookup() {
    let mut c = chain();
    assert!(c.all_crates().is_empty());
    assert_eq!(c.manifest_path(), "policy.manifest");
    assert_eq!(c.crate_path(), ".");
    assert_eq!(c.scanned_effects().len(), 2);
    c.add_crate_audit_file(id("libc", 0, 2, 150), "a/libc.audit".to_string(), 0);
    c.add_crate_audit_file(id("my-crate", 1, 0, 0), "a/my.audit".to_string(), 3);
    assert_eq!(c.crate_policy(&id("libc", 0, 2, 150)), Some(("a/libc.audit".to_string(), 0)));
    assert_eq!(c.crate_policy(&id("libc", 0, 2, 151)), None);
    // Recording a crate again replaces its entry in place.
    c.add_crate_audit_file(id("libc", 0, 2, 150), "b/libc.audit".to_string(), 4);
    assert_eq!(c.crate_policy(&id("libc", 0, 2, 150)), Some(("b/libc.audit".to_string(), 4)));
    assert_eq!(c.crate_policy(&id("my-crate", 1, 0, 0)), Some(("a/my.audit".to_string(), 3)));
    assert_eq!(names(&c.all_crates()), vec!["libc-0.2.150", "my-crate-1.0.0"]);
}

#[test]
fn chain_set_audit_version() {
    let mut c = chain();
    c.add_crate_audit_file(id("libc", 0, 2, 150), "a/libc.audit".to_string(), 1);
    assert_eq!(c.set_audit_version(&id("libc", 0, 2, 150), 7), Some("a/libc.audit".to_string()));
    assert_eq!(c.crate_policy(&id("libc", 0, 2, 150)), Some(("a/libc.audit".to_string(), 7)));
    assert_eq!(c.set_audit_version(&id("rand", 0, 8, 0), 7), None);
    assert_eq!(c.all_crates().len(), 1);
}

#[test]
fn chain_name_searches() {
    let mut c = chain();
    c.add_crate_audit_file(id("my-crate", 1, 0, 0), "a".to_string(), 0);
    c.add_crate_audit_file(id("libc", 0, 2, 150), "b".to_string(), 0);
    c.add_crate_audit_file(id("libc", 0, 2, 151), "c".to_string(), 0);
    assert_eq!(names(&c.matching_crates_no_version("libc")), vec!["libc-0.2.150", "libc-0.2.151"]);
    assert!(c.matching_crates_no_version("my_crate").is_empty());
    assert_eq!(names(&c.resolve_all_crates("my_crate")), vec!["my-crate-1.0.0"]);
    assert_eq!(names(&c.resolve_all_crates("my-crate")), vec!["my-crate-1.0.0"]);
    assert_eq!(c.resolve_crate_id("my_crate").map(|x| x.to_display_string()), Some("my-crate-1.0.0".to_string()));
    // Two versions of one crate: no unique answer.
    assert!(c.resolve_crate_id("libc").is_none());
    assert!(c.resolve_crate_id("rand").is_none());
}

#[test]
fn chain_from_parts_refuses_duplicates() {
    let ok = AuditChain::from_parts(
        "m".to_string(),
        "c".to_string(),
        vec![(id("a", 1, 0, 0), ("x".to_string(), 0)), (id("a", 1, 0, 1), ("y".to_string(), 2))],
        vec![],
    )
    .unwrap();
    assert_eq!(ok.crate_policy(&id("a", 1, 0, 1)), Some(("y".to_string(), 2)));
    let dup = AuditChain::from_parts(
        "m".to_string(),
        "c".to_string(),
        vec![(id("a", 1, 0, 0), ("x".to_string(), 0)), (id("a", 1, 0, 0), ("y".to_string(), 2))],
        vec![],
    );
    assert!(dup.is_none());
}

#[test]
fn chain_update_order() {
    let mut c = chain();
    c.add_crate_audit_file(id("libc", 0, 2, 150), "a".to_string(), 0);
    c.add_crate_audit_file(id("app", 1, 0, 0), "b".to_string(), 0);
    c.add_crate_audit_file(id("mid", 0, 1, 0), "c".to_string(), 0);
    let sorted = vec![
        id("cfg-if", 1, 0, 0),
        id("libc", 0, 2, 150),
        id("other", 2, 0, 0),
        id("mid", 0, 1, 0),
        id("app", 1, 0, 0),
    ];
    let order = c.crates_to_update(&sorted, &id("libc", 0, 2, 150)).unwrap();
    assert_eq!(names(&order), vec!["libc-0.2.150", "mid-0.1.0", "app-1.0.0"]);
    let later = c.crates_to_update(&sorted, &id("mid", 0, 1, 0)).unwrap();
    assert_eq!(names(&later), vec!["mid-0.1.0", "app-1.0.0"]);
    assert!(c.crates_to_update(&sorted, &id("libc", 0, 2, 151)).is_none());
    assert_eq!(names(&c.crates_in_chain(&sorted)), vec!["libc-0.2.150", "mid-0.1.0", "app-1.0.0"]);
}

#[test]
fn chain_update_steps_through_dependents() {
    let mut c = chain();
    c.add_crate_audit_file(id("libc", 0, 2, 150), "a/libc.audit".to_string(), 0);
    c.add_crate_audit_file(id("app", 1, 0, 0), "a/app.audit".to_string(), 0);
    let sorted = vec![id("libc", 0, 2, 150), id("other", 2, 0, 0), id("app", 1, 0, 0)];
    assert!(ChainUpdate::start(&c, &sorted, &id("rand", 0, 8, 0), vec![]).is_none());
    let removed = vec![CanonicalPath::new("libc::read")];
    let mut u = ChainUpdate::start(&c, &sorted, &id("libc", 0, 2, 150), removed).unwrap();
    assert_eq!(u.current().unwrap().to_display_string(), "libc-0.2.150");
    // an audit at the last version is refused and nothing moves
    let mut full = AuditFile::empty("libc".to_string(), [0u8; 32], vec![]);
    full.version = u32::MAX;
    assert_eq!(u.step(&mut c, &mut full), Err(UpdateError::VersionOverflow));
    assert_eq!(u.next, 0);
    // an audit with no tree from a removed function keeps its version
    let mut af = AuditFile::empty("libc".to_string(), [0u8; 32], vec![]);
    af.version = 2;
    assert_eq!(u.step(&mut c, &mut af), Ok("a/libc.audit".to_string()));
    assert_eq!(af.version, 2);
    assert_eq!(c.crate_policy(&id("libc", 0, 2, 150)), Some(("a/libc.audit".to_string(), 2)));
    assert_eq!(u.current().unwrap().to_display_string(), "app-1.0.0");
    let mut af = AuditFile::empty("app".to_string(), [0u8; 32], vec![]);
    assert_eq!(u.step(&mut c, &mut af), Ok("a/app.audit".to_string()));
    assert!(u.current().is_none());
    assert_eq!(u.removed_fns.len(), 1);
}
