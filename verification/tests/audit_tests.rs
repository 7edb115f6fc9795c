use cargo_scan::audit_file::{
    AuditError, AuditFile, AuditStanding, DefaultAuditType, EffectInfo, EffectTree,
    SafetyAnnotation,
};
use cargo_scan::auditing::audit::{
    annotation_from_answer, answer_is_valid, audit_order, finish_base, start_base,
    update_audit_annotation, AuditFlow, AuditStatus, BaseStep, UpdateError,
};
use cargo_scan::auditing::review::review_effect_tree_info;
use cargo_scan::auditing::session::pub_fn_trees;
use cargo_scan::effect::{Effect, EffectInstance, EffectType, FnDec, SrcLoc, Visibility};
use cargo_scan::ident::{CanonicalPath, IdentPath};
use cargo_scan::loc_tracker::LoCTracker;
use cargo_scan::scan_stats::{get_crate_stats, get_crate_stats_default, CrateStats};
use cargo_scan::scanner::ScanResults;
use cargo_scan::sink::Sink;

fn loc(file: &str, line: usize) -> SrcLoc {
    SrcLoc::new(file, line, 1, line, 10)
}

/// krate::api (public) calls krate::sink_user and krate::helper;
/// krate::helper calls krate::sink_user, which reads a file.
fn sample_scan() -> ScanResults {
    let mut s = ScanResults::new();
    let api = CanonicalPath::new("krate::api");
    let helper = CanonicalPath::new("krate::helper");
    let user = CanonicalPath::new("krate::sink_user");
    s.add_fn_dec(FnDec::new(loc("src/lib.rs", 1), api.clone(), Visibility::Public));
    s.add_fn_dec(FnDec::new(loc("src/lib.rs", 10), helper.clone(), Visibility::Private));
    s.add_fn_dec(FnDec::new(loc("src/lib.rs", 20), user.clone(), Visibility::Private));
    s.add_call(&api, &user, loc("src/lib.rs", 2));
    s.add_call(&api, &helper, loc("src/lib.rs", 3));
    s.add_call(&helper, &user, loc("src/lib.rs", 11));
    let sinks = vec![IdentPath::new("std::fs")];
    let e = EffectInstance::new_call(
        user,
        CanonicalPath::new("std::fs::read"),
        loc("src/lib.rs", 21),
        false,
        None,
        &sinks,
    )
    .unwrap();
    s.effects.push(e);
    s
}

fn count_nodes(t: &EffectTree) -> usize {
    match t {
        EffectTree::Leaf(_, _) => 1,
        EffectTree::Branch(_, ts) => 1 + ts.iter().map(count_nodes).sum::<usize>(),
    }
}

#[test]
fn callers_come_from_the_call_graph() {
    let s = sample_scan();
    let callers = s.get_callers(&CanonicalPath::new("krate::sink_user")).unwrap();
    let mut names: Vec<String> =
        callers.iter().map(|e| e.caller_path.as_str().to_string()).collect();
    names.sort();
    assert_eq!(names, vec!["krate::api", "krate::helper"]);
    assert!(s.get_callers(&CanonicalPath::new("krate::unknown")).is_err());
    assert_eq!(s.effects_set().len(), 1);
}

#[test]
fn caller_checked_default_marks_public_callers() {
    let s = sample_scan();
    let af = AuditFile::new_caller_checked_default(
        "crate_dir".to_string(),
        [0u8; 32],
        &s,
        vec![EffectType::SinkCall],
    )
    .unwrap();
    assert_eq!(af.audit_trees.len(), 1);
    let (base, tree) = &af.audit_trees[0];
    assert_eq!(base.caller_path(), "krate::sink_user");
    // sink_user <- api (leaf), sink_user <- helper <- api (leaf)
    assert_eq!(count_nodes(tree), 4);
    assert_eq!(af.unaudited_effects(), (0, 0));
    assert!(!af.has_unsafe_effect());
    assert_eq!(af.pub_caller_checked.len(), 1);
    assert_eq!(af.pub_caller_checked[0].0.as_str(), "krate::api");
    assert_eq!(af.pub_caller_checked[0].1.len(), 1);
    assert_eq!(af.base_dir, "crate_dir");
    assert_eq!(af.version, 0);
}

#[test]
fn recalc_keeps_the_default_caller_checked_map() {
    let s = sample_scan();
    let mut af = AuditFile::new_caller_checked_default_with_sinks(
        "d".to_string(),
        [1u8; 32],
        &s,
        vec![EffectType::SinkCall],
    )
    .unwrap();
    let before: Vec<(String, usize)> = af
        .pub_caller_checked
        .iter()
        .map(|(p, v)| (p.as_str().to_string(), v.len()))
        .collect();
    af.recalc_pub_caller_checked(&s.pub_fns);
    let after: Vec<(String, usize)> = af
        .pub_caller_checked
        .iter()
        .map(|(p, v)| (p.as_str().to_string(), v.len()))
        .collect();
    assert_eq!(before, after);
}

#[test]
fn empty_and_safe_defaults() {
    let s = sample_scan();
    let empty = AuditFile::new_empty_default_with_sinks("d".to_string(), [0u8; 32], &s, vec![]);
    assert_eq!(empty.unaudited_effects(), (1, 1));
    assert_eq!(
        empty.audit_trees[0].1.get_leaf_annotation(),
        Some(SafetyAnnotation::Skipped)
    );
    let safe = AuditFile::new_safe_default_with_sinks("d".to_string(), [0u8; 32], &s, vec![]);
    assert_eq!(safe.unaudited_effects(), (0, 0));
    assert_eq!(safe.audit_trees[0].1.get_leaf_annotation(), Some(SafetyAnnotation::Safe));
    let via_kind = AuditFile::new_default_with_sinks(
        "d".to_string(),
        [0u8; 32],
        &s,
        DefaultAuditType::Empty,
        vec![],
    )
    .unwrap();
    assert_eq!(via_kind.unaudited_effects(), (1, 1));
}

#[test]
fn caller_checked_default_needs_the_effect_caller_in_the_graph() {
    let mut s = ScanResults::new();
    s.effects.push(EffectInstance::new_effect(
        CanonicalPath::new("krate::ghost"),
        CanonicalPath::new("libc::free"),
        loc("src/lib.rs", 5),
        Effect::FFICall(CanonicalPath::new("libc::free")),
    ));
    let r = AuditFile::new_caller_checked_default("d".to_string(), [0u8; 32], &s, vec![]);
    assert!(matches!(r, Err(AuditError::MissingCallee)));
}

#[test]
fn remove_sinks_drops_matching_base_effects() {
    let s = sample_scan();
    let mut af = AuditFile::new_empty_default_with_sinks("d".to_string(), [0u8; 32], &s, vec![]);
    let kept = af.remove_sinks_from_tree(&vec![CanonicalPath::new("std::net")]);
    assert!(kept.is_empty());
    assert_eq!(af.audit_trees.len(), 1);
    let removed = af.remove_sinks_from_tree(&vec![CanonicalPath::new("std::fs")]);
    assert_eq!(removed.len(), 1);
    assert!(af.audit_trees.is_empty());
}

#[test]
fn pub_diff_lists_functions_no_longer_caller_checked() {
    let s = sample_scan();
    let cc = AuditFile::new_caller_checked_default("d".to_string(), [0u8; 32], &s, vec![]).unwrap();
    let safe = AuditFile::new_safe_default_with_sinks("d".to_string(), [0u8; 32], &s, vec![]);
    let diff = AuditFile::pub_diff(&cc, &safe);
    assert_eq!(diff.len(), 1);
    assert_eq!(diff[0].as_str(), "krate::api");
    assert!(AuditFile::pub_diff(&safe, &cc).is_empty());
    assert!(cc.safe_pub_fns().is_empty());
}

#[test]
fn effect_tree_annotations() {
    let info = EffectInfo::new(CanonicalPath::new("krate::f"), loc("src/lib.rs", 3));
    let mut t = EffectTree::Leaf(info.clone(), SafetyAnnotation::Skipped);
    assert_eq!(t.set_annotation(SafetyAnnotation::Unsafe), Some(SafetyAnnotation::Skipped));
    assert_eq!(t.get_leaf_annotation(), Some(SafetyAnnotation::Unsafe));
    let mut b = EffectTree::Branch(info, vec![t]);
    assert_eq!(b.set_annotation(SafetyAnnotation::Safe), None);
    assert_eq!(b.get_effect_infos().len(), 1);
    assert_eq!(SafetyAnnotation::CallerChecked.as_display_str(), "Caller-checked");
}

#[test]
fn unsafe_leaf_marks_the_package_unsafe() {
    let s = sample_scan();
    let mut af = AuditFile::new_empty_default_with_sinks("d".to_string(), [0u8; 32], &s, vec![]);
    assert!(!af.has_unsafe_effect());
    af.audit_trees[0].1.set_annotation(SafetyAnnotation::Unsafe);
    assert!(af.has_unsafe_effect());
    assert_eq!(af.unaudited_effects(), (0, 0));
}

#[test]
fn review_lists_nodes_with_their_history() {
    let s = sample_scan();
    let af = AuditFile::new_caller_checked_default("d".to_string(), [0u8; 32], &s, vec![]).unwrap();
    let steps = review_effect_tree_info(&af.audit_trees[0].1);
    assert_eq!(steps.len(), 4);
    assert_eq!(steps[0].info.caller_path.as_str(), "krate::sink_user");
    assert!(steps[0].history.is_empty());
    assert_eq!(steps[0].annotation, SafetyAnnotation::CallerChecked);
    for st in &steps[1..] {
        assert_eq!(st.history[0].caller_path.as_str(), "krate::sink_user");
        if st.history.len() == 2 {
            assert_eq!(st.history[1].caller_path.as_str(), "krate::helper");
        }
    }
}

#[test]
fn answers_map_to_annotations() {
    assert!(answer_is_valid("s", false));
    assert!(!answer_is_valid("o", false));
    assert!(answer_is_valid("o", true));
    assert!(!answer_is_valid("q", true));
    assert_eq!(
        annotation_from_answer("u"),
        Ok((Some(SafetyAnnotation::Unsafe), AuditStatus::ContinueAudit))
    );
    assert_eq!(annotation_from_answer("x"), Ok((None, AuditStatus::EarlyExit)));
    assert_eq!(annotation_from_answer("l"), Ok((Some(SafetyAnnotation::Skipped), AuditStatus::ContinueAudit)));
    assert_eq!(annotation_from_answer("zz"), Err(()));
}

#[test]
fn caller_checked_answer_grows_the_tree() {
    let s = sample_scan();
    let info = EffectInfo::new(CanonicalPath::new("krate::sink_user"), loc("src/lib.rs", 21));
    let mut t = EffectTree::Leaf(info.clone(), SafetyAnnotation::Skipped);
    let r = update_audit_annotation(SafetyAnnotation::CallerChecked, &s, &mut t, info.clone());
    assert_eq!(r, Ok(AuditStatus::AuditParentEffect));
    match &t {
        EffectTree::Branch(_, ts) => assert_eq!(ts.len(), 2),
        _ => panic!("expected a branch"),
    }
    // already a branch: nothing changes
    let r2 = update_audit_annotation(SafetyAnnotation::CallerChecked, &s, &mut t, info.clone());
    assert_eq!(r2, Ok(AuditStatus::ContinueAudit));
    assert_eq!(
        update_audit_annotation(SafetyAnnotation::Safe, &s, &mut t, info),
        Err(UpdateError::NotALeaf)
    );

    let api = EffectInfo::new(CanonicalPath::new("krate::api"), loc("src/lib.rs", 2));
    let mut leaf = EffectTree::Leaf(api.clone(), SafetyAnnotation::Skipped);
    let r3 = update_audit_annotation(SafetyAnnotation::CallerChecked, &s, &mut leaf, api);
    assert_eq!(r3, Ok(AuditStatus::ContinueAudit));
    assert_eq!(leaf.get_leaf_annotation(), Some(SafetyAnnotation::CallerChecked));

    let ghost = EffectInfo::new(CanonicalPath::new("krate::ghost"), loc("src/lib.rs", 2));
    let mut g = EffectTree::Leaf(ghost.clone(), SafetyAnnotation::Skipped);
    assert_eq!(
        update_audit_annotation(SafetyAnnotation::CallerChecked, &s, &mut g, ghost),
        Err(UpdateError::MissingCallee)
    );
}

#[test]
fn crate_stats_from_scan_and_audit() {
    let mut s = sample_scan();
    let mut t = LoCTracker::new();
    t.add(20, 24);
    s.fn_loc_tracker.push((CanonicalPath::new("krate::sink_user"), t));
    let af = AuditFile::new_caller_checked_default("d".to_string(), [0u8; 32], &s, vec![]).unwrap();
    let stats = get_crate_stats("d".to_string(), &af, s);
    assert_eq!(stats.pub_fns, 1);
    assert_eq!(stats.pub_fns_with_effects, 1);
    assert_eq!(stats.pub_total_effects, 1);
    assert_eq!(stats.audited_fns, 3);
    assert_eq!(stats.audited_loc, 4);
    assert_eq!(stats.effects.len(), 1);
    assert_eq!(
        stats.metadata_csv(),
        "1, 0, 0, 0, 0, 0, 0, 0, 0, 0, 0, 0, 0, 0, 0, 1, 1, 1, 3, 4, 0"
    );
    let failed = get_crate_stats_default("other".to_string(), None);
    assert_eq!(failed.crate_path, "other");
    assert_eq!(failed.audited_fns, 0);
}

#[test]
fn crate_stats_header_has_a_column_per_value() {
    let header = CrateStats::metadata_csv_header();
    assert_eq!(header.split(", ").count(), 21);
    assert!(header.starts_with("effects, macros"));
    assert!(header.ends_with("audited LoC, total LoC"));
    let _ = Sink::default_sinks();
}

#[test]
fn caller_tree_size_does_not_depend_on_call_order() {
    let a = sample_scan();
    // the same calls, recorded in another order
    let mut b = ScanResults::new();
    let api = CanonicalPath::new("krate::api");
    let helper = CanonicalPath::new("krate::helper");
    let user = CanonicalPath::new("krate::sink_user");
    b.add_fn_dec(FnDec::new(loc("src/lib.rs", 20), user.clone(), Visibility::Private));
    b.add_fn_dec(FnDec::new(loc("src/lib.rs", 10), helper.clone(), Visibility::Private));
    b.add_fn_dec(FnDec::new(loc("src/lib.rs", 1), api.clone(), Visibility::Public));
    b.add_call(&helper, &user, loc("src/lib.rs", 11));
    b.add_call(&api, &helper, loc("src/lib.rs", 3));
    b.add_call(&api, &user, loc("src/lib.rs", 2));
    for e in a.effects.iter() {
        b.effects.push(EffectInstance::new_effect(
            e.caller().clone(),
            e.callee().clone(),
            e.call_loc().clone(),
            e.eff_type().clone(),
        ));
    }
    let fa = AuditFile::new_caller_checked_default("d".to_string(), [0u8; 32], &a, vec![]).unwrap();
    let fb = AuditFile::new_caller_checked_default("d".to_string(), [0u8; 32], &b, vec![]).unwrap();
    assert_eq!(count_nodes(&fa.audit_trees[0].1), count_nodes(&fb.audit_trees[0].1));
}

#[test]
fn removed_sinks_drop_effects_and_bump_the_version() {
    let s = sample_scan();
    let mut af = AuditFile::new_caller_checked_default("d".to_string(), [0u8; 32], &s, vec![]).unwrap();
    let mut removed = vec![CanonicalPath::new("std::net")];
    af.apply_removed_sinks(&mut removed);
    assert_eq!(af.version, 0);
    assert_eq!(af.audit_trees.len(), 1);
    assert_eq!(af.pub_caller_checked.len(), 1);
    let mut removed = vec![CanonicalPath::new("std::fs")];
    af.apply_removed_sinks(&mut removed);
    assert_eq!(af.version, 1);
    assert!(af.audit_trees.is_empty());
    assert!(af.pub_caller_checked.is_empty());
    assert_eq!(removed.len(), 1);
}

#[test]
fn audit_order_sorts_by_file_line_and_column() {
    let mk = |file: &str, line: usize, col: usize| {
        let l = SrcLoc::new(file, line, col, line, col + 1);
        let e = EffectInstance::new_effect(
            CanonicalPath::new("krate::f"),
            CanonicalPath::new("libc::free"),
            l.clone(),
            Effect::FFICall(CanonicalPath::new("libc::free")),
        );
        let t = EffectTree::Leaf(EffectInfo::new(CanonicalPath::new("krate::f"), l), SafetyAnnotation::Skipped);
        (e, t)
    };
    let trees = vec![
        mk("src/b.rs", 5, 1),
        mk("src/a.rs", 10, 1),
        mk("src/a.rs", 2, 7),
        mk("src/a.rs", 2, 3),
        mk("src/a.rs", 10, 1),
    ];
    assert_eq!(audit_order(&trees), vec![3, 2, 1, 4, 0]);
    assert!(audit_order(&Vec::new()).is_empty());
}

#[test]
fn function_pointer_annotations_are_reused() {
    let l = SrcLoc::new("src/lib.rs", 3, 1, 3, 9);
    let fp = EffectInstance::new_effect(
        CanonicalPath::new("krate::f"),
        CanonicalPath::new("krate::callback"),
        l.clone(),
        Effect::FnPtrCreation,
    );
    let info = EffectInfo::new(CanonicalPath::new("krate::f"), l);
    let mut memo: Vec<(String, SafetyAnnotation)> = Vec::new();

    let mut first = EffectTree::Leaf(info.clone(), SafetyAnnotation::Skipped);
    assert_eq!(start_base(&fp, &mut first, &memo), BaseStep::Audit);
    // the auditor marks it safe
    first.set_annotation(SafetyAnnotation::Safe);
    assert_eq!(finish_base(&fp, &first, AuditStatus::ContinueAudit, &mut memo), Ok(AuditFlow::Next));
    assert_eq!(memo, vec![("krate::callback".to_string(), SafetyAnnotation::Safe)]);

    let mut second = EffectTree::Leaf(info.clone(), SafetyAnnotation::Skipped);
    assert_eq!(start_base(&fp, &mut second, &memo), BaseStep::Reused);
    assert_eq!(second.get_leaf_annotation(), Some(SafetyAnnotation::Safe));

    let mut done = EffectTree::Leaf(info, SafetyAnnotation::Unsafe);
    assert_eq!(start_base(&fp, &mut done, &memo), BaseStep::Skip);
    assert_eq!(finish_base(&fp, &done, AuditStatus::EarlyExit, &mut memo), Ok(AuditFlow::Stop));
    assert_eq!(finish_base(&fp, &done, AuditStatus::AuditChildEffect, &mut memo), Ok(AuditFlow::AuditChild));
    assert_eq!(finish_base(&fp, &done, AuditStatus::AuditParentEffect, &mut memo), Err(()));
    // a later annotation of the same callee replaces the remembered one
    assert_eq!(finish_base(&fp, &done, AuditStatus::ContinueAudit, &mut memo), Ok(AuditFlow::Next));
    assert_eq!(memo, vec![("krate::callback".to_string(), SafetyAnnotation::Unsafe)]);
}

#[test]
fn audit_standing_reports_progress() {
    let s = sample_scan();
    let empty = AuditFile::new_empty_default_with_sinks("d".to_string(), [0u8; 32], &s, vec![]);
    assert_eq!(
        empty.audit_standing(),
        AuditStanding::Unaudited { remaining: 1, pub_caller_checked: 0 }
    );
    let safe = AuditFile::new_safe_default_with_sinks("d".to_string(), [0u8; 32], &s, vec![]);
    assert_eq!(safe.audit_standing(), AuditStanding::Safe);
    let cc = AuditFile::new_caller_checked_default("d".to_string(), [0u8; 32], &s, vec![]).unwrap();
    assert_eq!(cc.audit_standing(), AuditStanding::SafeWithCallerChecked { pub_caller_checked: 1 });
}

#[test]
fn public_function_audit_walks_its_base_effects() {
    let s = sample_scan();
    let af = AuditFile::new_caller_checked_default(
        "crate_dir".to_string(),
        [0u8; 32],
        &s,
        vec![EffectType::SinkCall],
    )
    .unwrap();
    assert_eq!(pub_fn_trees(&af, &CanonicalPath::new("krate::api")), Some(vec![0]));
    assert_eq!(pub_fn_trees(&af, &CanonicalPath::new("krate::helper")), None);
    let mut broken = af;
    broken.audit_trees.clear();
    assert_eq!(pub_fn_trees(&broken, &CanonicalPath::new("krate::api")), None);
}
