use cargo_scan::effect::{Effect, SrcLoc, Visibility};
use cargo_scan::item_scan::{FnItem, ScanItem, ScanTraitItem, TraitMethod};
use cargo_scan::expr_scan::{Callee, ScanExpr, PathExpr, ResolvedCall, Scanner};
use cargo_scan::ident::{CanonicalPath, IdentPath};
use cargo_scan::scanner::ScanResults;

fn at(line: usize) -> SrcLoc {
    SrcLoc::new("src/lib.rs", line, 1, line, 9)
}

fn span(start: usize, end: usize) -> SrcLoc {
    SrcLoc::new("src/lib.rs", start, 1, end, 9)
}

fn cp(s: &str) -> CanonicalPath {
    CanonicalPath::new(s)
}

fn scanner() -> Scanner {
    Scanner::new(cp("demo::run"), ScanResults::new())
}

fn call(callee: &str, ffi: Option<&str>, unsafe_fn: bool, line: usize, args: Vec<ScanExpr>) -> ScanExpr {
    ScanExpr::Call(
        args,
        Callee::Resolved(ResolvedCall {
            callee: cp(callee),
            ffi: ffi.map(cp),
            unsafe_fn,
            loc: at(line),
        }),
    )
}

fn local(name: &str, line: usize) -> ScanExpr {
    ScanExpr::Path(PathExpr {
        path: cp(name),
        is_fn: false,
        const_or_static: false,
        mut_static: false,
        ffi_static: false,
        loc: at(line),
    })
}

#[test]
fn unsafe_call_is_an_effect_only_inside_unsafe_code() {
    let mut s = scanner();
    s.scan_expr(&call("demo::danger", None, true, 3, vec![]));
    assert_eq!(s.results.effects.len(), 0);
    let mut s = scanner();
    s.scan_expr(&ScanExpr::Unsafe(vec![call("demo::danger", None, true, 4, vec![])]));
    assert_eq!(s.results.effects.len(), 1);
    let e = &s.results.effects[0];
    assert_eq!(*e.eff_type(), Effect::UnsafeCall(cp("demo::danger")));
    assert_eq!(e.caller_path(), "demo::run");
    assert_eq!(e.call_loc().start_line(), 4);
    // the unsafe block is left again
    assert!(!s.scope_unsafe);
}

#[test]
fn every_call_site_enters_the_call_graph() {
    let mut s = scanner();
    s.scan_expr(&call("demo::helper", None, false, 5, vec![]));
    assert_eq!(s.results.effects.len(), 0);
    let callers = s.results.get_callers(&cp("demo::helper")).unwrap();
    assert_eq!(callers.len(), 1);
}

#[test]
fn sink_and_ffi_calls_are_effects() {
    let mut s = scanner();
    let e = ScanExpr::Nested(vec![
        call("std::fs::read", None, false, 6, vec![]),
        call("demo::c_abs", Some("demo::c_abs"), false, 7, vec![]),
    ]);
    s.scan_expr(&e);
    assert_eq!(s.results.effects.len(), 2);
    assert!(matches!(s.results.effects[0].eff_type(), Effect::SinkCall(_)));
    assert_eq!(s.results.effects[0].callee_path(), "std::fs::read");
    assert_eq!(*s.results.effects[1].eff_type(), Effect::FFICall(cp("demo::c_abs")));
    assert_eq!(s.results.fns_with_effects.len(), 1);
}

#[test]
fn arguments_are_scanned_before_the_callee() {
    let mut s = scanner();
    let inner = call("std::env::var", None, false, 8, vec![]);
    s.scan_expr(&call("std::fs::write", None, false, 8, vec![inner]));
    assert_eq!(s.results.effects.len(), 2);
    assert_eq!(s.results.effects[0].callee_path(), "std::env::var");
    assert_eq!(s.results.effects[1].callee_path(), "std::fs::write");
}

#[test]
fn union_field_read_is_an_effect_but_not_a_write() {
    let field = || ScanExpr::Field(Box::new(local("demo::run::u", 9)), Some(cp("demo::U::f")), at(9));
    let mut s = scanner();
    s.scan_expr(&field());
    assert_eq!(s.results.effects.len(), 1);
    assert_eq!(*s.results.effects[0].eff_type(), Effect::UnionField(cp("demo::U::f")));
    let mut s = scanner();
    s.scan_expr(&ScanExpr::Assign(Box::new(field()), Box::new(local("demo::run::x", 9))));
    assert_eq!(s.results.effects.len(), 0);
    assert!(!s.scope_assign_lhs);
    // a read on the right side still counts
    let mut s = scanner();
    s.scan_expr(&ScanExpr::Assign(Box::new(local("demo::run::x", 9)), Box::new(field())));
    assert_eq!(s.results.effects.len(), 1);
}

#[test]
fn deref_and_cast_give_one_effect_per_identifier() {
    let mut s = scanner();
    let e = ScanExpr::Deref(
        Box::new(local("demo::run::p", 10)),
        vec![cp("demo::run::p"), cp("demo::run::q")],
        at(10),
    );
    s.scan_expr(&e);
    assert_eq!(s.results.effects.len(), 2);
    assert_eq!(*s.results.effects[0].eff_type(), Effect::RawPointer(cp("demo::run::p")));
    assert_eq!(*s.results.effects[1].eff_type(), Effect::RawPointer(cp("demo::run::q")));
    let mut s = scanner();
    let c = ScanExpr::RawPtrCast(Box::new(local("demo::run::x", 11)), vec![cp("demo::run::x")], at(11));
    s.scan_expr(&c);
    assert_eq!(s.results.effects.len(), 1);
    assert_eq!(*s.results.effects[0].eff_type(), Effect::RawPtrCast);
    assert_eq!(s.results.effects[0].callee_path(), "demo::run::x");
}

#[test]
fn closure_with_effects_is_an_effect_after_them() {
    let mut s = scanner();
    let body = call("std::process::exit", None, false, 12, vec![]);
    s.scan_expr(&ScanExpr::Closure(Box::new(body), cp("demo::run::closure"), span(12, 13)));
    assert_eq!(s.results.effects.len(), 2);
    assert_eq!(*s.results.effects[1].eff_type(), Effect::ClosureCreation);
    assert_eq!(s.results.effects[1].callee_path(), "demo::run::closure");
    let mut s = scanner();
    let body = local("demo::run::y", 14);
    s.scan_expr(&ScanExpr::Closure(Box::new(body), cp("demo::run::closure"), span(14, 14)));
    assert_eq!(s.results.effects.len(), 0);
}

#[test]
fn paths_to_functions_and_statics() {
    let mut s = scanner();
    let f = ScanExpr::Path(PathExpr {
        path: cp("demo::callback"),
        is_fn: true,
        const_or_static: false,
        mut_static: false,
        ffi_static: false,
        loc: at(15),
    });
    let k = ScanExpr::Path(PathExpr {
        path: cp("demo::HANDLER"),
        is_fn: true,
        const_or_static: true,
        mut_static: false,
        ffi_static: false,
        loc: at(16),
    });
    let m = ScanExpr::Path(PathExpr {
        path: cp("demo::COUNTER"),
        is_fn: false,
        const_or_static: false,
        mut_static: true,
        ffi_static: true,
        loc: at(17),
    });
    s.scan_expr(&ScanExpr::Nested(vec![f, k, m]));
    assert_eq!(s.results.fn_ptr_effects.len(), 1);
    assert_eq!(*s.results.fn_ptr_effects[0].eff_type(), Effect::FnPtrCreation);
    assert_eq!(s.results.skipped_fn_ptrs.get_instances(), 1);
    assert_eq!(s.results.effects.len(), 2);
    assert_eq!(*s.results.effects[0].eff_type(), Effect::StaticMut(cp("demo::COUNTER")));
    assert_eq!(*s.results.effects[1].eff_type(), Effect::StaticExt(cp("demo::COUNTER")));
}

#[test]
fn skipped_code_is_counted() {
    let mut s = scanner();
    let e = ScanExpr::Nested(vec![
        ScanExpr::Macro(span(20, 22)),
        ScanExpr::CfgSkipped(span(23, 23)),
        ScanExpr::Call(vec![], Callee::Unresolved(at(24))),
        ScanExpr::Call(vec![], Callee::Macro(at(25))),
    ]);
    s.scan_expr(&e);
    assert_eq!(s.results.effects.len(), 0);
    assert_eq!(s.results.skipped_macros.get_instances(), 2);
    assert_eq!(s.results.skipped_macros.get_loc(), 3);
    assert_eq!(s.results.skipped_conditional_code.get_instances(), 1);
    assert_eq!(s.results.skipped_fn_calls.get_instances(), 1);
}

#[test]
fn method_calls_and_function_bodies() {
    let mut s = scanner();
    let body = vec![ScanExpr::MethodCall(
        Box::new(local("demo::Conn::open::self", 30)),
        vec![],
        cp("demo::Conn::raw_send"),
        true,
        at(30),
    )];
    // an unsafe function's body is unsafe code
    s.scan_fn_body(&cp("demo::Conn::open"), true, &body);
    assert_eq!(s.results.effects.len(), 1);
    assert_eq!(s.results.effects[0].caller_path(), "demo::Conn::open");
    assert_eq!(*s.results.effects[0].eff_type(), Effect::UnsafeCall(cp("demo::Conn::raw_send")));
    // back in the enclosing function, outside unsafe code
    assert_eq!(s.caller.as_str(), "demo::run");
    assert!(!s.scope_unsafe);
    let mut extra = Vec::new();
    extra.push(IdentPath::new("demo::net"));
    s.add_sinks(extra);
    s.scan_expr(&call("demo::net::send", None, false, 31, vec![]));
    assert_eq!(s.results.effects.len(), 2);
    assert!(matches!(s.results.effects[1].eff_type(), Effect::SinkCall(_)));
}

fn fn_item(name: &str, vis: Visibility, unsafe_fn: bool, start: usize, body: Vec<ScanExpr>) -> FnItem {
    FnItem {
        name: cp(name),
        vis,
        sig_loc: at(start),
        body_loc: span(start, start + 4),
        unsafe_fn,
        extern_abi: false,
        body,
    }
}

#[test]
fn scanning_a_file_of_items() {
    let mut s = scanner();
    let helper = fn_item(
        "demo::inner::helper",
        Visibility::Private,
        false,
        3,
        vec![call("std::fs::remove_file", None, false, 4, vec![])],
    );
    let api = fn_item("demo::Conn::open", Visibility::Public, true, 10, vec![call("demo::raw", None, true, 11, vec![])]);
    let items = vec![
        ScanItem::Mod(vec![ScanItem::Fn(helper)]),
        ScanItem::Impl(Some(span(9, 20)), vec![ScanItem::Fn(api), ScanItem::Unsupported(at(19)), ScanItem::Macro(at(20))]),
        ScanItem::CfgSkipped(span(21, 25)),
        ScanItem::Other,
    ];
    s.scan_file(&span(1, 30), &items);
    assert_eq!(s.results.total_loc.get_instances(), 1);
    assert_eq!(s.results.total_loc.get_loc(), 29);
    // one effect in each body, attributed to its function
    assert_eq!(s.results.effects.len(), 2);
    assert_eq!(s.results.effects[0].caller_path(), "demo::inner::helper");
    assert!(matches!(s.results.effects[0].eff_type(), Effect::SinkCall(_)));
    assert_eq!(s.results.effects[1].caller_path(), "demo::Conn::open");
    assert_eq!(*s.results.effects[1].eff_type(), Effect::UnsafeCall(cp("demo::raw")));
    // only the public function is public
    assert_eq!(s.results.pub_fns.len(), 1);
    assert_eq!(s.results.pub_fns[0].as_str(), "demo::Conn::open");
    assert_eq!(s.results.fn_locs.len(), 2);
    // each body's lines of code are recorded
    assert_eq!(s.results.fn_loc_tracker.len(), 2);
    assert_eq!(s.results.fn_loc_tracker[0].1.get_loc(), 4);
    assert_eq!(s.results.fns_with_effects.len(), 2);
    assert_eq!(s.results.unsafe_impls.get_instances(), 1);
    assert_eq!(s.results.skipped_other.get_instances(), 1);
    assert_eq!(s.results.skipped_macros.get_instances(), 1);
    assert_eq!(s.results.skipped_conditional_code.get_loc(), 4);
    // back at the top of the file
    assert_eq!(s.caller.as_str(), "demo::run");
    assert!(!s.scope_unsafe);
}

#[test]
fn a_function_scanned_twice_keeps_one_tracker() {
    let mut s = scanner();
    let f = || ScanItem::Fn(fn_item("demo::f", Visibility::Private, false, 1, vec![]));
    s.scan_items(&vec![f(), f()]);
    assert_eq!(s.results.fn_loc_tracker.len(), 1);
    assert_eq!(s.results.fn_locs.len(), 1);
    assert_eq!(s.results.effects.len(), 0);
}

#[test]
fn traits_link_methods_to_their_implementations() {
    let mut s = scanner();
    let abstract_m = TraitMethod {
        name: cp("demo::Io::read"),
        loc: at(40),
        default: None,
        impls: vec![cp("demo::File::read"), cp("demo::Sock::read")],
    };
    let default_m = TraitMethod {
        name: cp("demo::Io::flush"),
        loc: at(41),
        default: Some(fn_item("demo::Io::flush", Visibility::Public, false, 41, vec![call(
            "std::io::stdout",
            None,
            false,
            42,
            vec![],
        )])),
        impls: vec![],
    };
    let t = ScanItem::Trait(
        Some(at(39)),
        vec![
            ScanTraitItem::Method(abstract_m),
            ScanTraitItem::Method(default_m),
            ScanTraitItem::Macro(at(45)),
            ScanTraitItem::Verbatim,
            ScanTraitItem::Unsupported(at(46)),
            ScanTraitItem::CfgSkipped(at(47)),
        ],
    );
    s.scan_item(&t);
    assert_eq!(s.results.unsafe_traits.get_instances(), 1);
    assert_eq!(s.results.trait_meths.len(), 1);
    assert_eq!(s.results.trait_meths[0].as_str(), "demo::Io::read");
    // an edge from the trait method to each implementation
    let callers = s.results.get_callers(&cp("demo::File::read")).unwrap();
    assert_eq!(callers.len(), 1);
    assert_eq!(s.results.get_callers(&cp("demo::Sock::read")).unwrap().len(), 1);
    // the default implementation is scanned as a function
    assert_eq!(s.results.effects.len(), 1);
    assert_eq!(s.results.effects[0].caller_path(), "demo::Io::flush");
    assert_eq!(s.results.pub_fns.len(), 1);
    assert_eq!(s.results.skipped_macros.get_instances(), 1);
    assert_eq!(s.results.skipped_other.get_instances(), 1);
    assert_eq!(s.results.skipped_conditional_code.get_instances(), 1);
}
