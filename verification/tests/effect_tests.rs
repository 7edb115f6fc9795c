use cargo_scan::effect::{
    default_effect_types, Effect, EffectInstance, EffectType, FnDec, SrcLoc, Visibility,
};
use cargo_scan::ident::{CanonicalPath, IdentPath};
use cargo_scan::loc_tracker::LoCTracker;
use cargo_scan::sink::Sink;

#[test]
fn test_csv_header() {
    assert!(EffectInstance::csv_header().ends_with(SrcLoc::csv_header()));
}

#[test]
fn src_loc_splits_path_into_dir_and_file() {
    let l = SrcLoc::new("src/fs/mod.rs", 10, 4, 12, 1);
    assert_eq!(l.dir(), "src/fs");
    assert_eq!(l.file(), "mod.rs");
    assert_eq!(l.start_line(), 10);
    assert_eq!(l.start_col(), 4);
    assert_eq!(l.end_line(), 12);
    assert_eq!(l.end_col(), 1);
    assert_eq!(l.filepath_string(), "src/fs/mod.rs");
}

#[test]
fn src_loc_try_new_rejects_a_root() {
    assert!(SrcLoc::try_new("/", 1, 1, 1, 1).is_none());
    assert!(SrcLoc::try_new("a/b.rs", 1, 1, 1, 1).is_some());
}

#[test]
fn src_loc_csv_and_shifts() {
    let mut l = SrcLoc::from_parts("d,ir".to_string(), "f.rs".to_string(), 3, 7, 5, 2);
    assert_eq!(l.to_csv(), "dir, f.rs, 3, 7");
    let earlier = l.sub1();
    assert_eq!(earlier.start_line(), 2);
    assert_eq!(earlier.end_line(), 4);
    l.add1();
    assert_eq!(l.start_col(), 8);
}

#[test]
fn effect_strings_and_unsafety() {
    let ffi = Effect::FFICall(CanonicalPath::new("libc::free"));
    assert_eq!(ffi.simple_str(), "[FFI]");
    assert!(ffi.is_rust_unsafe());
    assert!(ffi.sink_pattern().is_none());
    assert!(!Effect::FnPtrCreation.is_rust_unsafe());
    assert!(!Effect::ClosureCreation.is_rust_unsafe());
    // casting to a raw pointer is not unsafe by itself
    assert!(!Effect::RawPtrCast.is_rust_unsafe());
    assert_eq!(Effect::RawPointer(CanonicalPath::new("a::b")).to_csv(), "[PtrDeref]");
}

#[test]
fn effect_type_matching() {
    let types = default_effect_types();
    assert_eq!(types.len(), 9);
    assert!(!types.contains(&EffectType::RawPtrCast));
    assert!(EffectType::matches_effect(&types, &Effect::FnPtrCreation));
    assert!(!EffectType::matches_effect(&types, &Effect::RawPtrCast));
    assert!(EffectType::matches_effect(&[EffectType::RawPtrCast], &Effect::RawPtrCast));
    assert_eq!(EffectType::unsafe_effects(), types);
}

#[test]
fn new_call_classifies_sink_ffi_and_unsafe() {
    let sinks = vec![IdentPath::new("std::fs"), IdentPath::new("std::net")];
    let caller = CanonicalPath::new("krate::f");
    let loc = SrcLoc::new("src/lib.rs", 1, 1, 1, 5);

    let sink = EffectInstance::new_call(
        caller.clone(),
        CanonicalPath::new("std::fs::read"),
        loc.clone(),
        false,
        None,
        &sinks,
    )
    .unwrap();
    assert_eq!(sink.eff_type().simple_str(), "std::fs");
    assert!(!sink.is_rust_unsafe());
    assert_eq!(sink.pattern().map(|s| s.as_str().to_string()), Some("std::fs".to_string()));

    let ffi = EffectInstance::new_call(
        caller.clone(),
        CanonicalPath::new("std::fs::read"),
        loc.clone(),
        false,
        Some(CanonicalPath::new("libc::read")),
        &sinks,
    )
    .unwrap();
    assert_eq!(ffi.eff_type().simple_str(), "[FFI]");

    let unsafe_call = EffectInstance::new_call(
        caller.clone(),
        CanonicalPath::new("krate::danger"),
        loc.clone(),
        true,
        None,
        &sinks,
    )
    .unwrap();
    assert_eq!(unsafe_call.eff_type().simple_str(), "[UnsafeCall]");

    let plain = EffectInstance::new_call(
        caller,
        CanonicalPath::new("krate::safe"),
        loc,
        false,
        None,
        &sinks,
    );
    assert!(plain.is_none());
}

#[test]
fn effect_instance_csv_row() {
    let e = EffectInstance::new_effect(
        CanonicalPath::new("krate::m::f"),
        CanonicalPath::new("libc::free"),
        SrcLoc::new("src/m.rs", 4, 9, 4, 20),
        Effect::FFICall(CanonicalPath::new("libc::free")),
    );
    assert_eq!(e.to_csv(), "krate, krate::m::f, libc::free, [FFI], src, m.rs, 4, 9");
    assert_eq!(e.caller_path(), "krate::m::f");
    assert_eq!(e.callee_path(), "libc::free");
    assert_eq!(e.caller_callee(), ("krate::m::f", "libc::free"));
    assert_eq!(e.call_loc().start_line(), 4);
}

#[test]
fn sink_default_list_and_match() {
    let sinks = Sink::default_sinks();
    assert_eq!(sinks.len(), 27);
    let m = Sink::new_match(&CanonicalPath::new("std::process::Command::new"), &sinks).unwrap();
    assert_eq!(m.as_str(), "std::process");
    assert_eq!(m.first_ident().unwrap().as_str(), "std");
    assert!(Sink::new_match(&CanonicalPath::new("core::mem::swap"), &sinks).is_none());
}

#[test]
fn fn_dec_fields() {
    let d = FnDec::new(
        SrcLoc::new("src/lib.rs", 1, 0, 3, 1),
        CanonicalPath::new("krate::f"),
        Visibility::Public,
    );
    assert_eq!(d.fn_name.as_str(), "krate::f");
    assert_eq!(d.vis, Visibility::Public);
}

#[test]
fn loc_tracker_counts_blocks_and_lines() {
    let mut t = LoCTracker::new();
    assert!(t.is_empty());
    t.add(3, 3);
    t.add(10, 14);
    assert!(!t.is_empty());
    assert_eq!(t.get_instances(), 2);
    assert_eq!(t.get_loc(), 5);
    assert_eq!(t.as_csv(), "2, 5");
}
