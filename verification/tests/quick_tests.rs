use cargo_scan::attr_parser::{CfgAttribute, CfgToken};
use cargo_scan::auditing::audit::AuditStatus;
use cargo_scan::auditing::label::effect_label;
use cargo_scan::auditing::pub_fn::{pub_fn_step, PubFnError, PubFnStep};
use cargo_scan::effect::{Effect, EffectInstance, EffectType, SrcLoc};
use cargo_scan::expr_scan::Scanner;
use cargo_scan::ident::{CanonicalPath, IdentPath};
use cargo_scan::item_scan::{ScanItem, ScanTraitItem};
use cargo_scan::quick_resolve::{loc_of, resolve_quick, resolve_source_quick, scan_file_quick, QuickCtx};
use cargo_scan::scanner::ScanResults;
use cargo_scan::sink::Sink;
use cargo_scan::syn_tree::{
    SynExpr, SynExprKind, SynFn, SynForeignItem, SynImplItem, SynItem, SynSpan, SynTraitFn, SynTraitItem, SynType,
    SynUseTree,
};
use cargo_scan::util::cargo_toml::{load_crate_data, CargoTomlError};

#[test]
fn crate_data_from_package_section() {
    let d = load_crate_data("[package]\nname = \"demo\"\nversion = \"0.3.1\"\n").unwrap();
    assert_eq!(d.name, "demo");
    assert_eq!(d.version, "0.3.1");
}

#[test]
fn crate_data_version_from_workspace() {
    let text = "[package]\nname = \"demo\"\nversion.workspace = true\n\n[workspace.package]\nversion = \"1.2.0\"\n";
    let d = load_crate_data(text).unwrap();
    assert_eq!(d.version, "1.2.0");
    let no_ws = "[package]\nname = \"demo\"\nversion.workspace = true\n";
    assert_eq!(load_crate_data(no_ws).unwrap_err(), CargoTomlError::NoWorkspace);
}

#[test]
fn crate_data_errors() {
    assert_eq!(load_crate_data("[package\n").unwrap_err(), CargoTomlError::Parse);
    assert_eq!(load_crate_data("[lib]\nname = \"x\"\n").unwrap_err(), CargoTomlError::NoPackage);
    assert_eq!(load_crate_data("package = 3\n").unwrap_err(), CargoTomlError::PackageNotTable);
    assert_eq!(load_crate_data("[package]\nversion = \"1\"\n").unwrap_err(), CargoTomlError::NoName);
    assert_eq!(load_crate_data("[package]\nname = 1\n").unwrap_err(), CargoTomlError::NameNotString);
    assert_eq!(load_crate_data("[package]\nname = \"a\"\n").unwrap_err(), CargoTomlError::NoVersion);
    let bad_ws = "[package]\nname = \"a\"\nversion = 2\n[workspace]\npackage = 1\n";
    assert_eq!(load_crate_data(bad_ws).unwrap_err(), CargoTomlError::WorkspacePackageNotTable);
}

fn loc(line: usize) -> SrcLoc {
    SrcLoc::new("src/lib.rs", line, 0, line, 10)
}

#[test]
fn effect_labels() {
    let sinks = vec![IdentPath::new("std::fs")];
    let sink = Sink::new_match(&CanonicalPath::new("std::fs::read"), &sinks).unwrap();
    let caller = CanonicalPath::new("demo::run");
    let block = vec![
        EffectInstance::new_effect(caller.clone(), CanonicalPath::new("std::fs::read"), loc(3), Effect::SinkCall(sink)),
        EffectInstance::new_effect(
            caller.clone(),
            CanonicalPath::new("demo::danger"),
            loc(4),
            Effect::UnsafeCall(CanonicalPath::new("demo::danger")),
        ),
        EffectInstance::new_effect(
            caller.clone(),
            CanonicalPath::new("libc::abs"),
            loc(5),
            Effect::FFICall(CanonicalPath::new("libc::abs")),
        ),
    ];
    assert_eq!(effect_label(&caller, &block, &caller), "sink call: std::fs\nffi call: libc::abs");
    assert_eq!(
        effect_label(&caller, &block, &CanonicalPath::new("demo::other")),
        "call safety marked as callee-checked"
    );
    assert_eq!(effect_label(&caller, &Vec::new(), &caller), "");
}

#[test]
fn public_function_audit_steps() {
    assert!(matches!(pub_fn_step(AuditStatus::ContinueAudit, None), Ok(PubFnStep::Finish)));
    assert!(matches!(pub_fn_step(AuditStatus::EarlyExit, None), Ok(PubFnStep::Finish)));
    assert_eq!(pub_fn_step(AuditStatus::AuditChildEffect, None).err(), Some(PubFnError::ChildWithoutEffect));
    assert_eq!(pub_fn_step(AuditStatus::AuditParentEffect, None).err(), Some(PubFnError::ParentEffect));
    assert_eq!(pub_fn_step(AuditStatus::ExpandContext, None).err(), Some(PubFnError::ExpandContext));
    let sinks = vec![IdentPath::new("std::fs")];
    let sink = Sink::new_match(&CanonicalPath::new("std::fs::read"), &sinks).unwrap();
    let e = EffectInstance::new_effect(
        CanonicalPath::new("a::f"),
        CanonicalPath::new("std::fs::read"),
        loc(1),
        Effect::SinkCall(sink),
    );
    match pub_fn_step(AuditStatus::AuditChildEffect, Some(&e)) {
        Ok(PubFnStep::AuditChild(s)) => assert_eq!(s.as_str(), "std::fs"),
        _ => panic!("expected the child sink"),
    }
    let u = EffectInstance::new_effect(
        CanonicalPath::new("a::f"),
        CanonicalPath::new("a::g"),
        loc(1),
        Effect::UnsafeCall(CanonicalPath::new("a::g")),
    );
    assert_eq!(pub_fn_step(AuditStatus::AuditChildEffect, Some(&u)).err(), Some(PubFnError::ChildNotSink));
}

fn sp(line: usize) -> SynSpan {
    SynSpan { start_line: line, start_col: 4, end_line: line, end_col: 20 }
}

fn e(line: usize, kind: SynExprKind) -> SynExpr {
    SynExpr { attrs: vec![], span: sp(line), kind }
}

fn path(segs: &[&str], line: usize) -> SynExpr {
    e(line, SynExprKind::Path(segs.iter().map(|s| s.to_string()).collect()))
}

fn call(segs: &[&str], line: usize) -> SynExpr {
    e(line, SynExprKind::Call(vec![], Box::new(path(segs, line))))
}

fn cfg_test() -> CfgAttribute {
    CfgAttribute { path: vec!["cfg".to_string()], list: Some(vec![CfgToken::Ident("test".to_string())]) }
}

fn func(name: &str, vis_pub: bool, unsafe_fn: bool, line: usize, body: Vec<SynExpr>) -> SynFn {
    SynFn {
        attrs: vec![],
        span: SynSpan { start_line: line, start_col: 0, end_line: line + 5, end_col: 1 },
        ident: name.to_string(),
        vis_pub,
        unsafe_fn,
        has_abi: false,
        sig_span: sp(line),
        body_span: SynSpan { start_line: line, start_col: 10, end_line: line + 5, end_col: 1 },
        body,
    }
}

fn ctx() -> QuickCtx {
    QuickCtx::new("demo", "demo-crate/src/lib.rs", vec![]).unwrap()
}

fn quick_scan(items: &Vec<SynItem>) -> (Scanner, Vec<ScanItem>) {
    let mut s = Scanner::new(CanonicalPath::new("demo"), ScanResults::new());
    let r = scan_file_quick(&mut s, &ctx(), SynSpan { start_line: 1, start_col: 0, end_line: 60, end_col: 0 }, items);
    (s, r)
}

#[test]
fn quick_scan_resolves_uses_and_finds_sinks() {
    let items = vec![
        SynItem::Use(SynUseTree::Path(
            "std".to_string(),
            Box::new(SynUseTree::Path("fs".to_string(), Box::new(SynUseTree::Name("read".to_string())))),
        )),
        SynItem::Fn(func("run", true, false, 3, vec![call(&["read"], 4), call(&["helper"], 5)])),
    ];
    let (s, r) = quick_scan(&items);
    assert_eq!(r.len(), 2);
    assert_eq!(s.results.effects.len(), 1);
    let eff = &s.results.effects[0];
    assert_eq!(eff.caller_path(), "demo::run");
    assert_eq!(eff.callee_path(), "std::fs::read");
    assert!(matches!(eff.eff_type(), Effect::SinkCall(_)));
    assert_eq!(eff.call_loc().start_line(), 4);
    assert_eq!(s.results.pub_fns.len(), 1);
    assert_eq!(s.results.pub_fns[0].as_str(), "demo::run");
    assert_eq!(s.results.total_loc.get_loc(), 59);
    // the plain call is in the call graph
    assert_eq!(s.results.get_callers(&CanonicalPath::new("helper")).unwrap().len(), 1);
}

#[test]
fn quick_scan_unsafe_and_foreign_calls() {
    let body = vec![e(
        4,
        SynExprKind::Unsafe(vec![
            call(&["c_abs"], 5),
            call(&["danger"], 6),
            e(7, SynExprKind::MethodCall(Box::new(path(&["x"], 7)), vec![], "poke".to_string(), sp(7))),
        ]),
    )];
    let items = vec![
        SynItem::ForeignMod(vec![], sp(1), vec![SynForeignItem::Fn(vec![], "c_abs".to_string(), true, sp(2))]),
        SynItem::Fn(func("run", false, false, 3, body)),
    ];
    let (s, _) = quick_scan(&items);
    let kinds: Vec<&Effect> = s.results.effects.iter().map(|x| x.eff_type()).collect();
    assert_eq!(kinds.len(), 3);
    assert_eq!(*kinds[0], Effect::FFICall(CanonicalPath::new("demo::c_abs")));
    assert_eq!(*kinds[1], Effect::UnsafeCall(CanonicalPath::new("danger")));
    assert_eq!(*kinds[2], Effect::UnsafeCall(CanonicalPath::new("UNKNOWN_METHOD::poke")));
    // the public foreign function is declared
    assert_eq!(s.results.pub_fns[0].as_str(), "demo::c_abs");
}

#[test]
fn quick_scan_scopes_and_skips() {
    let mut skipped = func("only_in_tests", false, false, 20, vec![call(&["std", "process", "exit"], 21)]);
    skipped.attrs.push(cfg_test());
    let closure = e(11, SynExprKind::Closure(Box::new(call(&["std", "env", "var"], 11))));
    let items = vec![
        SynItem::Mod(vec![], "inner".to_string(), sp(2), Some(vec![SynItem::Fn(func("f", false, false, 3, vec![]))])),
        SynItem::Impl(
            vec![],
            sp(9),
            None,
            SynType::Path(vec!["Conn".to_string()]),
            false,
            vec![SynImplItem::Fn(func("open", true, false, 10, vec![closure]))],
        ),
        SynItem::Fn(skipped),
        SynItem::Trait(
            vec![],
            sp(30),
            "Io".to_string(),
            sp(30),
            true,
            vec![SynTraitItem::Fn(SynTraitFn {
                f: func("read", false, false, 31, vec![]),
                has_default: false,
                span: sp(31),
            })],
        ),
    ];
    let (s, r) = quick_scan(&items);
    let fns: Vec<&str> = s.results.fn_locs.iter().map(|(p, _)| p.as_str()).collect();
    assert!(fns.contains(&"demo::inner::f"));
    assert!(fns.contains(&"demo::Conn::open"));
    assert!(!fns.contains(&"demo::only_in_tests"));
    assert!(matches!(r[2], ScanItem::CfgSkipped(_)));
    assert_eq!(s.results.skipped_conditional_code.get_instances(), 1);
    // the closure's effect, then the closure, named after its place
    assert_eq!(s.results.effects.len(), 2);
    assert_eq!(*s.results.effects[1].eff_type(), Effect::ClosureCreation);
    assert_eq!(s.results.effects[1].callee_path(), "CLOSURE::demo_crate::src::lib::11::4");
    assert_eq!(s.results.effects[1].caller_path(), "demo::Conn::open");
    // the trait method without a body is a trait method; the trait is unsafe
    assert_eq!(s.results.trait_meths[0].as_str(), "demo::read");
    assert_eq!(s.results.unsafe_traits.get_instances(), 1);
    match &r[3] {
        ScanItem::Trait(Some(_), ts) => assert!(matches!(ts[0], ScanTraitItem::Method(_))),
        _ => panic!("expected an unsafe trait"),
    }
}

#[test]
fn quick_resolution_names_functions_by_module() {
    let items = vec![
        SynItem::Mod(vec![], "net".to_string(), sp(2), Some(vec![SynItem::Fn(func("connect", true, false, 3, vec![]))])),
        SynItem::Fn(func("main", false, false, 10, vec![])),
    ];
    let r = resolve_quick(&ctx(), &items);
    assert_eq!(r.len(), 2);
    match &r[0] {
        ScanItem::Mod(inner) => match &inner[0] {
            ScanItem::Fn(f) => assert_eq!(f.name.as_str(), "demo::net::connect"),
            _ => panic!("expected a function"),
        },
        _ => panic!("expected a module"),
    }
    match &r[1] {
        ScanItem::Fn(f) => {
            assert_eq!(f.name.as_str(), "demo::main");
            assert_eq!(f.sig_loc.start_line(), 10);
        }
        _ => panic!("expected a function"),
    }
}

#[test]
fn retained_effects_keep_their_order() {
    let body = vec![e(4, SynExprKind::Unsafe(vec![call(&["danger"], 5)])), call(&["std", "fs", "read"], 6)];
    let items = vec![SynItem::Fn(func("run", false, false, 3, body))];
    let (s, _) = quick_scan(&items);
    let mut results = s.results;
    assert_eq!(results.effects.len(), 2);
    results.retain_effects(&[EffectType::SinkCall]);
    assert_eq!(results.effects.len(), 1);
    assert_eq!(results.effects[0].callee_path(), "std::fs::read");
    results.retain_effects(&[EffectType::FFICall]);
    assert!(results.effects.is_empty());
}

fn scan_source(src: &str) -> Scanner {
    let c = ctx();
    let (items, span) = resolve_source_quick(&c, src).unwrap();
    let mut s = Scanner::new(CanonicalPath::new("demo"), ScanResults::new());
    s.scan_file(&loc_of(&c, span), &items);
    s
}

#[test]
fn source_text_is_parsed_and_resolved() {
    let src = "use std::fs::read;\n\npub fn run() {\n    let _ = read(\"x\");\n}\n";
    let (items, span) = resolve_source_quick(&ctx(), src).unwrap();
    assert_eq!(items.len(), 2);
    assert_eq!(span.start_line, 1);
    match &items[1] {
        ScanItem::Fn(f) => {
            assert_eq!(f.name.as_str(), "demo::run");
            assert_eq!(f.sig_loc.start_line(), 3);
        }
        _ => panic!("expected a function"),
    }
    let s = scan_source(src);
    assert_eq!(s.results.effects.len(), 1);
    assert_eq!(s.results.effects[0].callee_path(), "std::fs::read");
    assert_eq!(s.results.effects[0].call_loc().start_line(), 4);
    assert!(matches!(s.results.effects[0].eff_type(), Effect::SinkCall(_)));
}

#[test]
fn source_text_that_does_not_parse() {
    assert!(resolve_source_quick(&ctx(), "fn broken( {").is_none());
    assert!(resolve_source_quick(&ctx(), "").unwrap().0.is_empty());
}

#[test]
fn source_text_casts_closures_and_unsafe_blocks() {
    let src = "fn f(x: u8) {\n    let p = &x as *const u8;\n    let c = || std::env::var(\"A\");\n    unsafe { danger(); }\n}\n";
    let s = scan_source(src);
    let kinds: Vec<&Effect> = s.results.effects.iter().map(|x| x.eff_type()).collect();
    assert_eq!(kinds.len(), 4);
    assert_eq!(*kinds[0], Effect::RawPtrCast);
    assert_eq!(s.results.effects[0].callee_path(), "UNKNOWN_FIELD::x");
    assert!(matches!(kinds[1], Effect::SinkCall(_)));
    assert_eq!(*kinds[2], Effect::ClosureCreation);
    assert_eq!(s.results.effects[2].callee_path(), "CLOSURE::demo_crate::src::lib::3::12");
    assert_eq!(*kinds[3], Effect::UnsafeCall(CanonicalPath::new("danger")));
}
