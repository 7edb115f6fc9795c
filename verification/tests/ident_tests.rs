use cargo_scan::ident::{
    replace_hyphens, CanonicalPath, CanonicalType, Ident, IdentPath, Pattern, TypeKind,
};

#[test]
fn test_replace_hyphens() {
    let mut s1 = "abcd_efgh_ijkl".to_string();
    let mut s2 = "abcd-efgh_ijkl".to_string();
    let mut s3 = "abcd-efgh-ijkl".to_string();
    let s = s1.clone();
    replace_hyphens(&mut s1);
    replace_hyphens(&mut s2);
    replace_hyphens(&mut s3);
    assert_eq!(s1, s);
    assert_eq!(s2, s);
    assert_eq!(s3, s);
}

#[test]
fn test_path_patterns() {
    let p = IdentPath::new("std::fs");
    let pats: Vec<Pattern> = p.patterns();
    let pat1 = Pattern::new("std");
    let pat2 = Pattern::new("std::fs");
    assert_eq!(pats, vec![pat1, pat2])
}

#[test]
fn test_path_matches() {
    let p = IdentPath::new("std::fs");
    let pat1 = Pattern::new("std");
    let pat2 = Pattern::new("std::fs");
    let pat3 = Pattern::new("std::fs::File");
    let pat4 = Pattern::new("std::os");
    assert!(p.matches(&pat1));
    assert!(p.matches(&pat2));
    assert!(!p.matches(&pat3));
    assert!(!p.matches(&pat4));
}

#[test]
fn test_pattern_subset_superset() {
    let pat1 = Pattern::new("std");
    let pat2 = Pattern::new("std::fs");
    let pat3 = Pattern::new("std::fs::File");
    let pat4 = Pattern::new("std::os");

    assert!(pat1.superset(&pat2));
    assert!(pat1.superset(&pat3));
    assert!(pat2.superset(&pat3));

    assert!(pat2.subset(&pat1));
    assert!(pat3.subset(&pat1));
    assert!(pat3.subset(&pat2));

    assert!(pat1.subset(&pat1));
    assert!(pat2.subset(&pat2));
    assert!(pat4.subset(&pat4));

    assert!(!pat1.subset(&pat2));
    assert!(!pat2.subset(&pat4));
    assert!(!pat4.subset(&pat2));
}

#[test]
fn replace_hyphens_is_idempotent() {
    let mut s = "a-b--c".to_string();
    replace_hyphens(&mut s);
    assert_eq!(s, "a_b__c");
    let once = s.clone();
    replace_hyphens(&mut s);
    assert_eq!(s, once);
}

#[test]
fn ident_invariant_checks() {
    assert!(Ident::new("foo_bar").invariant_holds());
    assert!(Ident::new("r#type").invariant_holds());
    assert!(Ident::new("<u8 as Trait>").invariant_holds());
    assert_eq!(Ident::new("abc").as_str(), "abc");
    assert!(IdentPath::new("a::b::c").invariant_holds());
    assert!(IdentPath::new_empty().invariant_holds());
    // an identifier holds no colons, and is not empty
    assert!(Ident::new("env").invariant_holds());
    assert!(!Ident::new("std::fs").invariant_holds());
    assert!(!Ident::new("").invariant_holds());
}

#[test]
fn ident_path_push_pop_round_trip() {
    let mut p = IdentPath::new("std::fs");
    let before = p.as_str().to_string();
    p.push_ident(&Ident::new("File"));
    assert_eq!(p.as_str(), "std::fs::File");
    assert_eq!(p.len(), 3);
    let popped = p.pop_ident();
    assert_eq!(popped.map(|i| i.as_str().to_string()), Some("File".to_string()));
    assert_eq!(p.as_str(), before);
}

#[test]
fn ident_path_first_last_and_idents() {
    let p = IdentPath::new("std::fs::File");
    assert_eq!(p.first_ident().unwrap().as_str(), "std");
    assert_eq!(p.last_ident().unwrap().as_str(), "File");
    let ids: Vec<String> = p.idents().iter().map(|i| i.as_str().to_string()).collect();
    assert_eq!(ids, vec!["std", "fs", "File"]);
    let empty = IdentPath::new_empty();
    assert!(empty.is_empty());
    assert!(empty.first_ident().is_none());
    // the empty path holds no identifier
    assert_eq!(empty.len(), 0);
    assert_eq!(IdentPath::new("std").len(), 1);
}

#[test]
fn ident_path_append_and_from_idents() {
    let mut p = IdentPath::new("a::b");
    p.append(&IdentPath::new("c::d"));
    assert_eq!(p.as_str(), "a::b::c::d");
    let q = IdentPath::from_idents(vec![Ident::new("x"), Ident::new("y")]);
    assert_eq!(q.as_str(), "x::y");
    let r = IdentPath::from_ident(Ident::new("z"));
    assert_eq!(r.as_str(), "z");
}

#[test]
fn canonical_path_crate_name_and_main() {
    let p = CanonicalPath::new("my_crate::main");
    assert!(p.is_main());
    assert_eq!(p.crate_name().as_str(), "my_crate");
    let q = CanonicalPath::new("my_crate::fs::main");
    assert!(!q.is_main());
    let r = CanonicalPath::new("my_crate::other");
    assert!(!r.is_main());
}

#[test]
fn canonical_path_push_pop_append() {
    let mut p = CanonicalPath::new("krate::m");
    p.push_ident(&Ident::new("f"));
    assert_eq!(p.as_str(), "krate::m::f");
    assert_eq!(p.pop_ident().unwrap().as_str(), "f");
    p.append_path(&IdentPath::new("g::h"));
    assert_eq!(p.as_str(), "krate::m::g::h");
    assert_eq!(p.as_path().as_str(), "krate::m::g::h");
    let ip = p.to_path();
    assert_eq!(ip.as_str(), "krate::m::g::h");
}

#[test]
fn canonical_path_matches_its_prefixes() {
    let p = CanonicalPath::new("std::fs::read");
    assert!(p.matches(&Pattern::new("std")));
    assert!(p.matches(&Pattern::new("std::fs::read")));
    // a pattern covers its path and what lies under it, not other names
    // that start with the same text
    assert!(!p.matches(&Pattern::new("std::fs::rea")));
    assert!(!CanonicalPath::new("std::fsx::f").matches(&Pattern::new("std::fs")));
    assert!(!p.matches(&Pattern::new("core")));
}

#[test]
fn canonical_type_kinds() {
    assert!(CanonicalType::new(TypeKind::RawPointer).is_raw_ptr());
    assert!(CanonicalType::new(TypeKind::UnionFld).is_union_field());
    assert!(CanonicalType::new(TypeKind::StaticMut).is_mut_static());
    assert!(CanonicalType::new(TypeKind::Function).is_function());
    assert!(!CanonicalType::new(TypeKind::Plain).is_function());
}

#[test]
fn pattern_from_path_and_first_ident() {
    let pat = Pattern::from_path(IdentPath::new("libc::free"));
    assert_eq!(pat.as_str(), "libc::free");
    assert_eq!(pat.first_ident().unwrap().as_str(), "libc");
    let single = Pattern::from_ident(Ident::new("libc"));
    assert!(single.superset(&pat));
    assert!(!pat.superset(&single));
}

#[test]
fn a_path_matches_each_of_its_patterns() {
    let p = IdentPath::new("tokio::net::TcpStream::connect");
    let pats = p.patterns();
    assert_eq!(pats.len(), 4);
    for pat in &pats {
        assert!(p.matches(pat));
    }
    assert_eq!(pats[3].as_str(), "tokio::net::TcpStream::connect");
}
