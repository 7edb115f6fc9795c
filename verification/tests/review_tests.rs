use cargo_scan::audit_file::{AuditFile, SafetyAnnotation};
use cargo_scan::auditing::info::{effect_src_labels, Config};
use cargo_scan::auditing::invalid::{
    invalid_audit_action, new_audit_path, restart_audit, InvalidAuditAction,
};
use cargo_scan::effect::{Effect, EffectInstance, SrcLoc};
use cargo_scan::ident::{CanonicalPath, Ident, IdentPath};
use cargo_scan::loc_tracker::LoCTracker;
use cargo_scan::scan_stats::CrateStats;

fn loc(start: usize, end: usize) -> SrcLoc {
    SrcLoc::new("src/lib.rs", start, 1, end, 5)
}

#[test]
fn effect_window_and_signature_labels() {
    // ten lines of 9 bytes each: line i (from 0) spans bytes 10 * i .. 10 * i + 10
    let lens = vec![9usize; 10];
    let config = Config::new(2, 1);
    // effect on line 6 (from 1): window lines 3..=6 (from 0)
    let r = effect_src_labels(&lens, &loc(6, 6), None, &config);
    assert_eq!(r.primary, (50, 60));
    assert_eq!(r.secondary, vec![(30, 70)]);
    // signature wholly before the window: a range of its own
    let sig = loc(1, 2);
    let r = effect_src_labels(&lens, &loc(6, 6), Some(&sig), &config);
    assert_eq!(r.secondary, vec![(0, 20), (30, 70)]);
    // signature starting before the window: the window is stretched back
    let sig = loc(2, 5);
    let r = effect_src_labels(&lens, &loc(6, 6), Some(&sig), &config);
    assert_eq!(r.secondary, vec![(10, 70)]);
    // signature inside the window: nothing added
    let sig = loc(5, 5);
    let r = effect_src_labels(&lens, &loc(6, 6), Some(&sig), &config);
    assert_eq!(r.secondary, vec![(30, 70)]);
    // near the top of the file the window starts at the first line
    let r = effect_src_labels(&lens, &loc(1, 2), None, &config);
    assert_eq!(r.primary, (0, 20));
    assert_eq!(r.secondary, vec![(0, 30)]);
}

#[test]
fn invalid_audit_choices() {
    assert_eq!(invalid_audit_action(true, "x"), Some(InvalidAuditAction::StartNew));
    assert_eq!(invalid_audit_action(false, "c"), Some(InvalidAuditAction::StartNew));
    assert_eq!(invalid_audit_action(false, "x"), Some(InvalidAuditAction::ExitNow));
    assert_eq!(invalid_audit_action(false, "f"), Some(InvalidAuditAction::ForceContinue));
    assert_eq!(invalid_audit_action(false, "q"), None);
    assert_eq!(invalid_audit_action(false, "cx"), None);
    assert_eq!(new_audit_path("audits/foo-1.0.0.audit"), "audits/foo-1.0.0.audit.new");
}

#[test]
fn restarting_an_audit_file() {
    let mut af = AuditFile::empty("d".to_string(), [0u8; 32], vec![]);
    let e = EffectInstance::new_effect(
        CanonicalPath::new("krate::f"),
        CanonicalPath::new("libc::free"),
        loc(3, 3),
        Effect::FnPtrCreation,
    );
    restart_audit(&mut af, &vec![e], [7u8; 32]);
    assert_eq!(af.hash, [7u8; 32]);
    assert_eq!(af.audit_trees.len(), 1);
    assert_eq!(af.audit_trees[0].1.get_leaf_annotation(), Some(SafetyAnnotation::Skipped));
}

#[test]
fn tracker_counts_spans() {
    let mut t = LoCTracker::new();
    assert!(t.is_empty());
    t.add(3, 3);
    t.add(10, 14);
    t.add(20, 21);
    assert!(!t.is_empty());
    assert_eq!(t.get_instances(), 3);
    assert_eq!(t.get_loc(), 1 + 4 + 1);
}

#[test]
fn stats_row_has_one_field_per_column() {
    let header = CrateStats::metadata_csv_header();
    let row = CrateStats::default().metadata_csv();
    assert_eq!(header.split(", ").count(), 21);
    assert_eq!(row.split(", ").count(), 21);
}

#[test]
fn popping_keeps_the_crate_name() {
    let mut p = CanonicalPath::new("my_crate::m::f");
    assert_eq!(p.pop_ident().map(|i| i.as_str().to_string()), Some("f".to_string()));
    assert_eq!(p.as_str(), "my_crate::m");
    assert_eq!(p.crate_name().as_str(), "my_crate");
    assert!(p.invariant_holds());
    let mut single = CanonicalPath::new("my_crate");
    assert!(single.pop_ident().is_none());
    assert_eq!(single.as_str(), "my_crate");
    let mut q = IdentPath::new("a");
    q.push_ident(&Ident::new("b"));
    assert!(q.invariant_holds());
    assert_eq!(q.len(), 2);
}
