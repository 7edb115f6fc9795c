use cargo_scan::attr_parser::{skip_attr, skip_attrs, skip_cfg, CfgAttribute, CfgOpt, CfgPred, CfgToken};
use cargo_scan::audit_chain::Create;
use cargo_scan::audit_file::AuditFile;
use cargo_scan::auditing::info::{missing_fn_decl_info, CallStackInfo, Config};
use cargo_scan::auditing::util::{hash_dir_contents, is_audit_scan_valid};
use cargo_scan::download_crate::{
    get_crates_io_url, latest_version_from_search, package_dir_name, tarball_name,
    version_from_captures,
};
use cargo_scan::effect::{EffectType, SrcLoc};
use cargo_scan::hacky_resolver::{infer_fully_qualified_prefix, infer_module};
use cargo_scan::util::csv::{sanitize_comma, sanitize_path};
use cargo_scan::util::fs::walk_files_with_extension;
use cargo_scan::util::iter::warn_ok;

fn ident(s: &str) -> CfgToken {
    CfgToken::Ident(s.to_string())
}

fn punct(c: char) -> CfgToken {
    CfgToken::Punct(c)
}

fn lit(s: &str) -> CfgToken {
    CfgToken::Literal(s.to_string())
}

fn opts() -> Vec<(String, Vec<String>)> {
    vec![
        ("unix".to_string(), vec![]),
        ("feature".to_string(), vec!["std".to_string(), "alloc".to_string()]),
    ]
}

#[test]
fn cfg_parses_a_key_value_pair() {
    let p = CfgPred::parse(&vec![ident("feature"), punct('='), lit("\"std\"")]);
    match &p {
        CfgPred::Option(CfgOpt::Pair { key, value }) => {
            assert_eq!(key, "feature");
            assert_eq!(value, "std");
        }
        other => panic!("unexpected {:?}", other),
    }
    assert!(p.is_enabled(&opts()));
    let q = CfgPred::parse(&vec![ident("feature"), punct('='), lit("\"serde\"")]);
    assert!(!q.is_enabled(&opts()));
}

#[test]
fn cfg_parses_groups() {
    let all = CfgPred::parse(&vec![
        ident("all"),
        CfgToken::Group(vec![ident("unix"), punct(','), ident("feature"), punct('='), lit("\"alloc\"")]),
    ]);
    match &all {
        CfgPred::All(ps) => assert_eq!(ps.len(), 2),
        other => panic!("unexpected {:?}", other),
    }
    assert!(all.is_enabled(&opts()));
    let not_test = CfgPred::parse(&vec![ident("not"), CfgToken::Group(vec![ident("test")])]);
    assert!(not_test.is_enabled(&opts()));
    let any_empty = CfgPred::parse(&vec![ident("any"), CfgToken::Group(vec![])]);
    assert!(!any_empty.is_enabled(&opts()));
    let all_empty = CfgPred::parse(&vec![ident("all"), CfgToken::Group(vec![])]);
    assert!(all_empty.is_enabled(&opts()));
    let unknown = CfgPred::parse(&vec![ident("foo"), CfgToken::Group(vec![ident("x")])]);
    assert!(matches!(unknown, CfgPred::Invalid));
}

#[test]
fn cfg_invalid_inputs() {
    assert!(matches!(CfgPred::parse(&vec![]), CfgPred::Invalid));
    assert!(matches!(CfgPred::parse(&vec![lit("\"x\"")]), CfgPred::Invalid));
    assert!(matches!(CfgPred::parse(&vec![ident("a"), punct('='), ident("b")]), CfgPred::Invalid));
    assert!(!CfgPred::Invalid.is_enabled(&opts()));
    // a token after a name that is not a comma is dropped with it
    let g = CfgPred::parse(&vec![
        ident("any"),
        CfgToken::Group(vec![ident("a"), ident("b"), ident("unix")]),
    ]);
    match &g {
        CfgPred::Any(ps) => assert_eq!(ps.len(), 2),
        other => panic!("unexpected {:?}", other),
    }
    assert!(g.is_enabled(&opts()));
    let from: CfgPred = CfgPred::from(CfgOpt::Name("unix".to_string()));
    assert!(from.is_enabled(&opts()));
}

#[test]
fn hash_of_contents_is_sha256_of_their_concatenation() {
    let h = hash_dir_contents(&vec![b"ab".to_vec(), b"c".to_vec()]);
    let expected = [
        0xba, 0x78, 0x16, 0xbf, 0x8f, 0x01, 0xcf, 0xea, 0x41, 0x41, 0x40, 0xde, 0x5d, 0xae, 0x22,
        0x23, 0xb0, 0x03, 0x61, 0xa3, 0x96, 0x17, 0x7a, 0x9c, 0xb4, 0x10, 0xff, 0x61, 0xf2, 0x00,
        0x15, 0xad,
    ];
    assert_eq!(h, expected);
}

#[test]
fn audit_scan_valid_compares_hashes() {
    let files = vec![b"fn main() {}".to_vec()];
    let hash = hash_dir_contents(&files);
    let af = AuditFile::empty("d".to_string(), hash, vec![EffectType::SinkCall]);
    assert!(is_audit_scan_valid(&af, &files));
    assert!(!is_audit_scan_valid(&af, &vec![b"fn main() { }".to_vec()]));
}

#[test]
fn download_names_and_url() {
    assert_eq!(
        get_crates_io_url("serde", "1.0.0"),
        "https://crates.io/api/v1/crates/serde/1.0.0/download"
    );
    assert_eq!(package_dir_name("serde", "1.0.0"), "serde-1.0.0");
    assert_eq!(tarball_name("serde", "1.0.0"), "serde-1.0.0.tar.gz");
}

#[test]
fn latest_version_is_read_from_search_output() {
    let out = "serde = \"1.0.228\"    # A generic serialization/deserialization framework\n";
    assert_eq!(latest_version_from_search(out, "serde"), Some("1.0.228".to_string()));
    assert_eq!(latest_version_from_search(out, "serde_json"), None);
    assert_eq!(latest_version_from_search("no match here", "serde"), None);
    let caps = Some(vec![Some("x = \"1.2.3\"".to_string()), Some("x".to_string()), Some("1.2.3".to_string())]);
    assert_eq!(version_from_captures(&caps, "x"), Some("1.2.3".to_string()));
    assert_eq!(version_from_captures(&caps, "y"), None);
    assert_eq!(version_from_captures(&None, "x"), None);
}

#[test]
fn module_is_inferred_from_path() {
    assert_eq!(infer_module("crates/foo/src/net/tcp.rs"), vec!["net", "tcp"]);
    assert_eq!(infer_module("src/lib.rs"), Vec::<String>::new());
    assert_eq!(infer_module("src/main.rs"), Vec::<String>::new());
    assert_eq!(infer_module("foo/bar.rs"), Vec::<String>::new());
    assert_eq!(infer_fully_qualified_prefix("foo", "src/a/b.rs"), "foo::a::b");
    assert_eq!(infer_fully_qualified_prefix("foo", "src/lib.rs"), "foo");
}

#[test]
fn config_and_call_stack_info() {
    let c = Config::new(2, 3);
    assert_eq!(c.lines_before_effect, 2);
    assert_eq!(c.lines_after_effect, 3);
    let d = Config::default();
    assert_eq!((d.lines_before_effect, d.lines_after_effect), (4, 1));
    let i = CallStackInfo::new(Some("fn f()".to_string()), "a.rs".to_string(), 3);
    assert_eq!(i.lineno, 3);
    let loc = SrcLoc::new("src/m.rs", 7, 1, 7, 2);
    let m = missing_fn_decl_info(&loc);
    assert!(m.fn_string.is_none());
    assert_eq!(m.lineno, 7);
    // joining an absolute path replaces what came before
    assert_eq!(m.filename, "/");
}

#[test]
fn create_options() {
    let c = Create::new(
        "p".to_string(),
        "m".to_string(),
        "a".to_string(),
        true,
        None,
        None,
        vec![EffectType::FFICall],
    );
    assert_eq!(c.audit_path, "a");
    assert!(c.force_overwrite);
    let d = Create::default_for_home(Some("/home/u".to_string()));
    assert_eq!(d.audit_path, "/home/u/.cargo_audits");
    assert_eq!(d.crate_path, ".");
    assert_eq!(d.manifest_path, "./policy.manifest");
    assert_eq!(d.effect_types.len(), 9);
    let e = Create::default_for_home(None);
    assert_eq!(e.audit_path, ".audit_files");
}

#[test]
fn csv_sanitizing() {
    assert_eq!(sanitize_comma("a,b,,c"), "abc");
    assert_eq!(sanitize_path("dir,1/f.rs"), "dir1/f.rs");
}

#[test]
fn walked_files_filtered_by_extension() {
    let entries = vec![
        ("src/a.rs".to_string(), true),
        ("src".to_string(), false),
        ("README.md".to_string(), true),
        ("src/b.rs".to_string(), true),
        ("dir.rs".to_string(), false),
    ];
    assert_eq!(walk_files_with_extension(&entries, "rs"), vec!["src/a.rs", "src/b.rs"]);
}

#[test]
fn warn_ok_keeps_values() {
    assert_eq!(warn_ok::<u8, ()>(Ok(3)), Some(3));
    assert_eq!(warn_ok::<u8, ()>(Err(())), None);
}

fn attr(path: &[&str], list: Option<Vec<CfgToken>>) -> CfgAttribute {
    CfgAttribute { path: path.iter().map(|s| s.to_string()).collect(), list }
}

#[test]
fn cfg_skip_decisions() {
    assert!(skip_cfg(&vec![ident("test")], &opts()));
    assert!(!skip_cfg(&vec![ident("unix")], &opts()));
    assert!(!skip_cfg(&vec![ident("feature"), punct('='), lit("\"alloc\"")], &opts()));
    assert!(skip_cfg(&vec![ident("not"), CfgToken::Group(vec![ident("unix")])], &opts()));
    // An unreadable predicate never holds, so its code is skipped.
    assert!(skip_cfg(&vec![], &opts()));

    let test_only = attr(&["cfg"], Some(vec![ident("test")]));
    let unix_only = attr(&["cfg"], Some(vec![ident("unix")]));
    let derive = attr(&["derive"], Some(vec![ident("Debug")]));
    let qualified = attr(&["std", "cfg"], Some(vec![ident("test")]));
    let bare = attr(&["cfg"], None);
    assert!(skip_attr(&test_only, &opts()));
    assert!(!skip_attr(&unix_only, &opts()));
    assert!(!skip_attr(&derive, &opts()));
    assert!(!skip_attr(&qualified, &opts()));
    assert!(!skip_attr(&bare, &opts()));
    assert!(skip_attrs(&vec![derive, test_only], &opts()));
    assert!(!skip_attrs(&vec![unix_only, bare], &opts()));
    assert!(!skip_attrs(&vec![], &opts()));
}
