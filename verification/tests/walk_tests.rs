use cargo_scan::audit_file::{AuditFile, EffectInfo, EffectTree, SafetyAnnotation};
use cargo_scan::auditing::audit::{AuditFlow, AuditStatus, UpdateError};
use cargo_scan::auditing::session::AuditSession;
use cargo_scan::auditing::tree_audit::{first_leaf, AuditAction, TreeAudit};
use cargo_scan::effect::{Effect, EffectInstance, FnDec, SrcLoc, Visibility};
use cargo_scan::ident::CanonicalPath;
use cargo_scan::scanner::ScanResults;

fn loc(file: &str, line: usize) -> SrcLoc {
    SrcLoc::new(file, line, 1, line, 10)
}

fn info(caller: &str, line: usize) -> EffectInfo {
    EffectInfo::new(CanonicalPath::new(caller), loc("src/lib.rs", line))
}

fn leaf(caller: &str, line: usize) -> EffectTree {
    EffectTree::Leaf(info(caller, line), SafetyAnnotation::Skipped)
}

/// krate::api and krate::helper call krate::user; krate::api calls krate::helper.
fn scan() -> ScanResults {
    let mut s = ScanResults::new();
    let api = CanonicalPath::new("krate::api");
    let helper = CanonicalPath::new("krate::helper");
    let user = CanonicalPath::new("krate::user");
    s.add_fn_dec(FnDec::new(loc("src/lib.rs", 1), api.clone(), Visibility::Public));
    s.add_fn_dec(FnDec::new(loc("src/lib.rs", 10), helper.clone(), Visibility::Private));
    s.add_fn_dec(FnDec::new(loc("src/lib.rs", 20), user.clone(), Visibility::Private));
    s.add_call(&api, &user, loc("src/lib.rs", 2));
    s.add_call(&helper, &user, loc("src/lib.rs", 11));
    s.add_call(&api, &helper, loc("src/lib.rs", 3));
    s
}

fn caller(a: &TreeAudit) -> String {
    a.current().caller_path.as_str().to_string()
}

#[test]
fn walk_over_a_single_leaf() {
    let s = scan();
    let (w, a) = TreeAudit::start(leaf("krate::user", 21), true);
    assert_eq!(a, AuditAction::Ask);
    assert!(w.cursor.is_empty());
    assert!(w.history().is_empty());
    // Unknown answers ask again; `e` asks with more context.
    let (w, a) = w.step("q", &s);
    assert_eq!(a, AuditAction::Ask);
    let (w, a) = w.step("e", &s);
    assert_eq!(a, AuditAction::AskWithMoreContext);
    let (w, a) = w.step("s", &s);
    assert_eq!(a, AuditAction::Finish(AuditStatus::ContinueAudit));
    assert_eq!(w.tree.get_leaf_annotation(), Some(SafetyAnnotation::Safe));
}

#[test]
fn walk_exits_and_audits_origin() {
    let s = scan();
    let (w, _) = TreeAudit::start(leaf("krate::user", 21), true);
    let (_, a) = w.step("x", &s);
    assert_eq!(a, AuditAction::Finish(AuditStatus::EarlyExit));
    let (w, _) = TreeAudit::start(leaf("krate::user", 21), true);
    let (_, a) = w.step("o", &s);
    assert_eq!(a, AuditAction::Finish(AuditStatus::AuditChildEffect));
    // Without the origin option, `o` is not an answer.
    let (w, _) = TreeAudit::start(leaf("krate::user", 21), false);
    let (_, a) = w.step("o", &s);
    assert_eq!(a, AuditAction::Ask);
}

#[test]
fn caller_checked_walks_into_the_callers() {
    let s = scan();
    let (w, _) = TreeAudit::start(leaf("krate::user", 21), true);
    let (w, a) = w.step("c", &s);
    assert_eq!(a, AuditAction::Ask);
    assert_eq!(w.cursor, vec![0]);
    let first = caller(&w);
    assert_eq!(w.history().len(), 1);
    assert_eq!(w.history()[0].caller_path.as_str(), "krate::user");
    // Auditing the origin below the root fails.
    let (w2, _) = TreeAudit::start(leaf("krate::user", 21), true);
    let (w2, _) = w2.step("c", &s);
    let (_, a2) = w2.step("o", &s);
    assert_eq!(a2, AuditAction::Fail(UpdateError::NotALeaf));
    // Mark the first caller safe, then the second caller-checked: krate::helper
    // is called by krate::api, which becomes its child.
    let (w, a) = w.step("s", &s);
    assert_eq!(a, AuditAction::Ask);
    assert_eq!(w.cursor, vec![1]);
    let second = caller(&w);
    let mut both = vec![first.clone(), second.clone()];
    both.sort();
    assert_eq!(both, vec!["krate::api", "krate::helper"]);
    let (w, a) = w.step("c", &s);
    if second == "krate::helper" {
        assert_eq!(a, AuditAction::Ask);
        assert_eq!(w.cursor, vec![1, 0]);
        assert_eq!(caller(&w), "krate::api");
        assert_eq!(w.history().len(), 2);
        let (w, a) = w.step("u", &s);
        assert_eq!(a, AuditAction::Finish(AuditStatus::ContinueAudit));
        match &w.tree {
            EffectTree::Branch(_, ts) => match &ts[1] {
                EffectTree::Branch(_, inner) => {
                    assert_eq!(inner[0].get_leaf_annotation(), Some(SafetyAnnotation::Unsafe))
                }
                _ => panic!("krate::helper should have become a branch"),
            },
            _ => panic!("the root should be a branch"),
        }
    } else {
        // krate::api has no callers: it is just marked caller-checked.
        assert_eq!(a, AuditAction::Finish(AuditStatus::ContinueAudit));
    }
}

#[test]
fn caller_checked_needs_the_function_in_the_graph() {
    let s = scan();
    let (w, _) = TreeAudit::start(leaf("krate::unknown", 5), true);
    let (w, a) = w.step("c", &s);
    assert_eq!(a, AuditAction::Fail(UpdateError::MissingCallee));
    assert_eq!(w.tree.get_leaf_annotation(), Some(SafetyAnnotation::Skipped));
}

#[test]
fn walk_skips_empty_branches() {
    let tree = EffectTree::Branch(
        info("krate::user", 21),
        vec![
            EffectTree::Branch(info("krate::helper", 11), vec![]),
            leaf("krate::api", 2),
        ],
    );
    assert_eq!(first_leaf(&tree), Some(vec![1]));
    let (w, a) = TreeAudit::start(tree, true);
    assert_eq!(a, AuditAction::Ask);
    assert_eq!(caller(&w), "krate::api");
    let (_, a) = w.step("l", &scan());
    assert_eq!(a, AuditAction::Finish(AuditStatus::ContinueAudit));
    let empty = EffectTree::Branch(info("krate::user", 21), vec![]);
    let (_, a) = TreeAudit::start(empty, true);
    assert_eq!(a, AuditAction::Finish(AuditStatus::ContinueAudit));
}

#[test]
fn fn_ptr_effects_kept_when_they_reach_effects() {
    let mut s = scan();
    let user = CanonicalPath::new("krate::user");
    let api = CanonicalPath::new("krate::api");
    assert!(!s.check_fn_for_effects(&api));
    s.fns_with_effects.push(user.clone());
    // api calls user, which has effects; helper also reaches user.
    assert!(s.check_fn_for_effects(&api));
    assert!(s.check_fn_for_effects(&CanonicalPath::new("krate::helper")));
    // A function outside the graph counts as having effects.
    assert!(s.check_fn_for_effects(&CanonicalPath::new("krate::elsewhere")));

    let mut t = scan();
    let to_api = EffectInstance::new_effect(
        CanonicalPath::new("krate::main"),
        api.clone(),
        loc("src/main.rs", 3),
        Effect::FnPtrCreation,
    );
    let to_dep = EffectInstance::new_effect(
        CanonicalPath::new("krate::other"),
        CanonicalPath::new("dep_crate::f"),
        loc("src/main.rs", 4),
        Effect::FnPtrCreation,
    );
    t.fn_ptr_effects.push(to_api);
    t.fn_ptr_effects.push(to_dep);
    t.filter_fn_ptr_effects("krate");
    // The pointer to krate::api points to a function without effects; the one
    // into another crate is kept.
    assert_eq!(t.effects.len(), 1);
    assert_eq!(t.effects[0].callee().as_str(), "dep_crate::f");
    assert_eq!(t.fns_with_effects.len(), 1);
    assert_eq!(t.fns_with_effects[0].as_str(), "krate::other");
}

#[test]
fn fn_ptr_filter_uses_callers_added_before() {
    let mut t = scan();
    // A pointer into a dependency from krate::user makes krate::user a function
    // with effects, so a later pointer to krate::api (which calls it) is kept.
    t.fn_ptr_effects.push(EffectInstance::new_effect(
        CanonicalPath::new("krate::user"),
        CanonicalPath::new("dep-crate::f"),
        loc("src/lib.rs", 22),
        Effect::FnPtrCreation,
    ));
    t.fn_ptr_effects.push(EffectInstance::new_effect(
        CanonicalPath::new("my-krate::main"),
        CanonicalPath::new("krate::api"),
        loc("src/main.rs", 3),
        Effect::FnPtrCreation,
    ));
    t.filter_fn_ptr_effects("krate");
    assert_eq!(t.effects.len(), 2);
    let mut fwe: Vec<String> = t.fns_with_effects.iter().map(|p| p.as_str().to_string()).collect();
    fwe.sort();
    assert_eq!(fwe, vec!["krate::user", "my_krate::main"]);
    // Hyphens in the crate name are compared as underscores.
    let mut u = scan();
    u.fn_ptr_effects.push(EffectInstance::new_effect(
        CanonicalPath::new("my_krate::main"),
        CanonicalPath::new("my_krate::g"),
        loc("src/main.rs", 3),
        Effect::FnPtrCreation,
    ));
    u.filter_fn_ptr_effects("my-krate");
    // my_krate::g is not in the graph, so it counts as having effects.
    assert_eq!(u.effects.len(), 1);
}

fn fn_ptr(caller: &str, callee: &str, line: usize) -> EffectInstance {
    EffectInstance::new_effect(
        CanonicalPath::new(caller),
        CanonicalPath::new(callee),
        loc("src/lib.rs", line),
        Effect::FnPtrCreation,
    )
}

/// Walks the tree at `index` of the audit file, answering `answer` at each leaf.
fn walk_tree(af: &mut AuditFile, index: usize, answer: &str, s: &ScanResults) -> AuditStatus {
    let (e, t) = af.audit_trees.remove(index);
    let (mut w, mut a) = TreeAudit::start(t, true);
    while a == AuditAction::Ask {
        let (w2, a2) = w.step(answer, s);
        w = w2;
        a = a2;
    }
    af.audit_trees.insert(index, (e, w.tree));
    match a {
        AuditAction::Finish(status) => status,
        other => panic!("walk ended with {:?}", other),
    }
}

#[test]
fn session_reuses_function_pointer_annotations() {
    let s = scan();
    let mut af = AuditFile::empty("d".to_string(), [0u8; 32], vec![]);
    af.set_base_audit_trees(&vec![
        fn_ptr("krate::b", "krate::callback", 20),
        fn_ptr("krate::a", "krate::callback", 10),
        fn_ptr("krate::c", "krate::other", 30),
    ]);
    // Already annotated: settled without the auditor.
    af.audit_trees[2].1.set_annotation(SafetyAnnotation::Unsafe);
    let mut session = AuditSession::new(&af);
    // Base effects come in the order of their lines.
    assert_eq!(session.order, vec![1, 0, 2]);

    let (i, leaf) = session.next_base(&mut af).unwrap();
    assert_eq!((i, leaf), (1, true));
    // Asking again before the audit gives the same base effect.
    assert_eq!(session.next_base(&mut af), Some((1, true)));
    assert_eq!(session.pos, 0);
    let status = walk_tree(&mut af, i, "s", &s);
    assert_eq!(status, AuditStatus::ContinueAudit);
    let (e, t) = (&af.audit_trees[i].0, &af.audit_trees[i].1);
    assert_eq!(session.finish(e, t, leaf, status), Ok(AuditFlow::Next));
    assert_eq!(session.pos, 1);

    // The second pointer to krate::callback takes the first one's annotation,
    // the third base effect was annotated already: nothing is left.
    assert_eq!(session.next_base(&mut af), None);
    assert_eq!(session.pos, 3);
    assert_eq!(af.audit_trees[0].1.get_leaf_annotation(), Some(SafetyAnnotation::Safe));
    assert_eq!(af.audit_trees[2].1.get_leaf_annotation(), Some(SafetyAnnotation::Unsafe));
}

#[test]
fn session_stops_and_audits_origins() {
    let s = scan();
    let mut af = AuditFile::empty("d".to_string(), [0u8; 32], vec![]);
    af.set_base_audit_trees(&vec![fn_ptr("krate::a", "krate::callback", 10)]);
    let mut session = AuditSession::new(&af);
    let (i, was_leaf) = session.next_base(&mut af).unwrap();
    let status = walk_tree(&mut af, i, "x", &s);
    let (e, t) = (&af.audit_trees[i].0, &af.audit_trees[i].1);
    assert_eq!(session.finish(e, t, was_leaf, status), Ok(AuditFlow::Stop));
    assert_eq!(session.pos, 0);
    assert_eq!(session.finish(e, t, was_leaf, AuditStatus::AuditChildEffect), Ok(AuditFlow::AuditChild));
    assert_eq!(session.finish(e, t, was_leaf, AuditStatus::AuditParentEffect), Err(()));
    // A function pointer whose tree grew into a branch leaves nothing to remember.
    let grown = EffectTree::Branch(info("krate::a", 10), vec![leaf("krate::api", 2)]);
    assert_eq!(session.finish(e, &grown, true, AuditStatus::ContinueAudit), Err(()));
    assert_eq!(session.pos, 0);
    // A tree that was a branch already records nothing either, and moves on.
    assert_eq!(session.finish(e, &grown, false, AuditStatus::ContinueAudit), Ok(AuditFlow::Next));
    assert_eq!(session.pos, 1);
    assert!(session.fn_ptr_effects.is_empty());
}

