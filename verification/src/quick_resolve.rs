//! The quick scan of a file: names resolved from the file's `use` items and
//! module structure alone, without type information, then the scan.
//!
//! A path is resolved by replacing its first segment with what a `use` item
//! imported under that name; a definition is named by the file's module path
//! and the enclosing modules and impl blocks. Without types, no path is taken
//! for a function or a static, no field for a raw pointer or a union field,
//! every called function may be unsafe, and a call is foreign when its last
//! segment names a function declared in an `extern` block.
use vstd::prelude::*;

use crate::attr_parser::{attr_skips, opts_view, skip_attrs, CfgAttribute, CfgToken};
use crate::effect::{push_decimal, SrcLoc, SrcLocView, Visibility};
use crate::ident::{from_idents_spec, push_ident_spec, append_spec, CanonicalPath, Ident, IdentPath};
use crate::path_ops::{path_join, spec_path_file_name, spec_path_join, spec_path_parent};
use crate::syn_tree::{
    SynArm, SynExpr, SynExprKind, SynField, SynFn, SynForeignItem, SynImplItem, SynItem, SynMember, SynSpan,
    SynTraitItem, SynType, SynUseTree,
};
use crate::expr_scan::{opt_path, Callee, ScanExpr, PathExpr, ResolvedCall};
use crate::item_scan::{items_fit, items_spec, FnItem, ScanItem, ScanTraitItem, TraitMethod};
use crate::expr_scan::{add_spans, span_of, tracker_fits, Scanner};
use crate::syn_parse::{parse_file, spec_parse_file};
use crate::hacky_resolver::{infer_fully_qualified_prefix, infer_module_spec, spec_path_components};
use crate::ident::path_views;
use crate::text::{chars_of, decimal, join_sep, push_str, replace_hyphens_spec, sep};

verus! {

/// What resolution depends on besides the tree: the file, its module path, and
/// the `cfg` options set.
pub struct QuickCtx {
    pub filepath: String,
    /// The directory of the file.
    pub dir: String,
    /// The file's name.
    pub file: String,
    /// The crate name and the modules inferred from the file's path.
    pub modpath: CanonicalPath,
    pub enabled: Vec<(String, Vec<String>)>,
}

impl QuickCtx {
    pub open spec fn wf(&self) -> bool {
        &&& spec_path_parent(self.filepath@) == Some(self.dir@)
        &&& spec_path_file_name(self.filepath@) == Some(self.file@)
    }
}

/// The location of a span in the file.
pub open spec fn loc_spec(c: QuickCtx, sp: SynSpan) -> SrcLocView {
    SrcLocView {
        dir: c.dir@,
        file: c.file@,
        start_line: sp.start_line,
        start_col: sp.start_col,
        end_line: sp.end_line,
        end_col: sp.end_col,
    }
}

pub fn loc_of(c: &QuickCtx, sp: SynSpan) -> (r: SrcLoc)
    ensures
        r@ == loc_spec(*c, sp),
{
    SrcLoc::from_parts(crate::text::copy_string(c.dir.as_str()), crate::text::copy_string(c.file.as_str()), sp.start_line, sp.start_col, sp.end_line, sp.end_col)
}

/// Whether the attributes switch the code off.
pub open spec fn skips(c: QuickCtx, attrs: Seq<CfgAttribute>) -> bool {
    exists|i: int| 0 <= i < attrs.len() && #[trigger] attr_skips(attrs[i], opts_view(c.enabled@))
}

/// The text of a path of identifiers, each with its hyphens replaced.
pub open spec fn ids_text(ids: Seq<Seq<char>>) -> Seq<char> {
    from_idents_spec(ids.map_values(|i: Seq<char>| replace_hyphens_spec(i)))
}

pub open spec fn str_views(v: Seq<String>) -> Seq<Seq<char>> {
    v.map_values(|s: String| s@)
}

/// The path of identifiers, as a canonical path.
pub fn path_of(ids: &Vec<String>) -> (r: CanonicalPath)
    ensures
        r@ == ids_text(str_views(ids@)),
{
    let ghost v = str_views(ids@).map_values(|i: Seq<char>| replace_hyphens_spec(i));
    let mut p = IdentPath::new_empty();
    let mut k: usize = 0;
    proof {
        assert(v.take(0) =~= Seq::<Seq<char>>::empty());
    }
    while k < ids.len()
        invariant
            k <= ids.len(),
            v == str_views(ids@).map_values(|i: Seq<char>| replace_hyphens_spec(i)),
            p@ == from_idents_spec(v.take(k as int)),
        decreases ids.len() - k,
    {
        let i = Ident::new(ids[k].as_str());
        p.push_ident(&i);
        proof {
            assert(v.take(k + 1).drop_last() =~= v.take(k as int));
            assert(v.take(k + 1).last() == v[k as int]);
        }
        k = k + 1;
    }
    proof {
        assert(v.take(ids.len() as int) =~= v);
    }
    CanonicalPath::from_path(p)
}

/// The name of a definition: the module path, the enclosing modules, the name.
pub open spec fn def_text(modpath: Seq<char>, mods: Seq<Seq<char>>, ident: Seq<char>) -> Seq<char> {
    push_ident_spec(append_spec(modpath, ids_text(mods)), replace_hyphens_spec(ident))
}

pub fn def_path(modpath: &CanonicalPath, mods: &Vec<String>, ident: &str) -> (r: CanonicalPath)
    ensures
        r@ == def_text(modpath@, str_views(mods@), ident@),
{
    let mut r = modpath.clone();
    let scope = path_of(mods);
    let p = scope.to_path();
    r.append_path(&p);
    r.push_ident(&Ident::new(ident));
    r
}

/// A name that resolution could not find: `prefix`, then the name.
pub open spec fn unknown_text(prefix: Seq<char>, name: Seq<char>) -> Seq<char> {
    replace_hyphens_spec(prefix + name)
}

pub fn unknown_path(prefix: &str, name: &str) -> (r: CanonicalPath)
    ensures
        r@ == unknown_text(prefix@, name@),
{
    let mut s = String::new();
    push_str(&mut s, prefix);
    push_str(&mut s, name);
    CanonicalPath::new_owned(s)
}

/// A tuple field that resolution could not find.
pub fn unknown_index(i: u32) -> (r: CanonicalPath)
    ensures
        r@ == unknown_text("UNKNOWN_FIELD::"@, decimal(i as nat)),
{
    let mut s = String::new();
    push_str(&mut s, "UNKNOWN_FIELD::");
    push_decimal(&mut s, i as u64);
    CanonicalPath::new_owned(s)
}

/*
    Closure names
*/

/// A character that a directory name in a closure's name may hold.
pub open spec fn word_char(ch: char) -> bool {
    ('a' <= ch <= 'z') || ('A' <= ch <= 'Z') || ('0' <= ch <= '9') || ch == '_'
}

pub open spec fn all_word_chars(p: Seq<char>) -> bool {
    forall|i: int| 0 <= i < p.len() ==> word_char(#[trigger] p[i])
}

/// `s` with each `-` replaced by `_`.
pub open spec fn hyphens_to_underscores(s: Seq<char>) -> Seq<char> {
    s.map_values(|ch: char| if ch == '-' { '_' } else { ch })
}

/// The parts of `s` between `/` characters, of which those made of word
/// characters only (an empty part among them).
pub open spec fn word_parts(s: Seq<char>) -> (Seq<Seq<char>>, Seq<char>)
    decreases s.len(),
{
    if s.len() == 0 {
        (Seq::empty(), Seq::empty())
    } else {
        let (done, cur) = word_parts(s.drop_last());
        if s.last() == '/' {
            (if all_word_chars(cur) { done.push(cur) } else { done }, Seq::empty())
        } else {
            (done, cur.push(s.last()))
        }
    }
}

/// The parts of `s` split at `/` that hold word characters only.
pub open spec fn kept_parts(s: Seq<char>) -> Seq<Seq<char>> {
    let (done, cur) = word_parts(s);
    if all_word_chars(cur) {
        done.push(cur)
    } else {
        done
    }
}

/// The name given to a closure at `sp`: from the file's directory, its name
/// without `.rs` and the closure's start; where the file's name does not end
/// in `.rs`, from its location.
pub open spec fn closure_text(c: QuickCtx, sp: SynSpan) -> Seq<char> {
    let f = c.file@;
    if f.len() >= 3 && f.subrange(f.len() - 3, f.len() as int) == ".rs"@ {
        replace_hyphens_spec(
            "CLOSURE::"@ + join_sep(kept_parts(hyphens_to_underscores(c.dir@))) + sep() + f.subrange(0, f.len() - 3)
                + sep() + decimal(sp.start_line as nat) + sep() + decimal(sp.start_col as nat),
        )
    } else {
        replace_hyphens_spec(
            "UNKNOWN_CLOSURE::"@ + spec_path_join(c.dir@, f) + ":"@ + decimal(sp.start_line as nat) + ":"@
                + decimal(sp.start_col as nat) + ".."@ + decimal(sp.end_line as nat) + ":"@ + decimal(
                sp.end_col as nat,
            ),
        )
    }
}

fn is_word_char(ch: char) -> (r: bool)
    ensures
        r == word_char(ch),
{
    ('a' <= ch && ch <= 'z') || ('A' <= ch && ch <= 'Z') || ('0' <= ch && ch <= '9') || ch == '_'
}

/// Appends `p` to `s` as `join_sep` would place the next part.
fn push_part(s: &mut String, first: bool, p: &Vec<char>)
    requires
        first ==> old(s)@.len() == 0,
    ensures
        final(s)@ == if first { p@ } else { old(s)@ + sep() + p@ },
{
    if !first {
        push_str(s, "::");
        proof { reveal_strlit("::"); }
    }
    let mut k: usize = 0;
    let ghost start = s@;
    while k < p.len()
        invariant
            k <= p.len(),
            s@ == start + p@.take(k as int),
        decreases p.len() - k,
    {
        crate::text::string_push(s, p[k]);
        proof {
            assert(p@.take(k + 1) =~= p@.take(k as int).push(p@[k as int]));
        }
        k = k + 1;
    }
    proof {
        assert(p@.take(p.len() as int) =~= p@);
        if first {
            assert(start == Seq::<char>::empty());
            assert(s@ =~= p@);
        }
    }
}

proof fn lemma_join_push(parts: Seq<Seq<char>>, p: Seq<char>)
    ensures
        join_sep(parts.push(p)) == if parts.len() == 0 { p } else { join_sep(parts) + sep() + p },
{
    assert(parts.push(p).drop_last() =~= parts);
    if parts.len() == 0 {
        assert(parts.push(p).len() == 1);
        assert(parts.push(p)[0] == p);
    }
}

/// The kept parts of a directory name joined with `::`.
fn dir_text(dir: &str) -> (r: String)
    ensures
        r@ == join_sep(kept_parts(hyphens_to_underscores(dir@))),
{
    let v = chars_of(dir);
    let ghost hv = hyphens_to_underscores(dir@);
    let mut s = String::new();
    let mut first = true;
    let mut cur: Vec<char> = Vec::new();
    let mut cur_ok = true;
    let mut k: usize = 0;
    proof {
        assert(hv.take(0) =~= Seq::<char>::empty());
    }
    while k < v.len()
        invariant
            k <= v.len(),
            v@ == dir@,
            hv == hyphens_to_underscores(dir@),
            hv.len() == dir@.len(),
            word_parts(hv.take(k as int)).1 == cur@,
            s@ == join_sep(word_parts(hv.take(k as int)).0),
            first == (word_parts(hv.take(k as int)).0.len() == 0),
            cur_ok == all_word_chars(cur@),
        decreases v.len() - k,
    {
        let ch = if v[k] == '-' { '_' } else { v[k] };
        let ghost prev = word_parts(hv.take(k as int));
        proof {
            assert(hv.take(k + 1).drop_last() =~= hv.take(k as int));
            assert(hv.take(k + 1).last() == ch);
        }
        if ch == '/' {
            if cur_ok {
                proof {
                    lemma_join_push(prev.0, cur@);
                }
                push_part(&mut s, first, &cur);
                first = false;
            }
            cur = Vec::new();
            cur_ok = true;
            proof {
                assert(cur@ =~= Seq::<char>::empty());
            }
        } else {
            let ghost before = cur@;
            cur_ok = cur_ok && is_word_char(ch);
            cur.push(ch);
            proof {
                assert(cur@ =~= before.push(ch));
                assert forall|i: int| 0 <= i < cur@.len() implies word_char(#[trigger] cur@[i]) == (if i < before.len() { word_char(before[i]) } else { word_char(ch) }) by {}
                if all_word_chars(before) && word_char(ch) {
                    assert forall|i: int| 0 <= i < cur@.len() implies word_char(#[trigger] cur@[i]) by {
                        if i < before.len() {
                            assert(cur@[i] == before[i]);
                        }
                    }
                }
                if !all_word_chars(before) {
                    let i = choose|i: int| 0 <= i < before.len() && !word_char(#[trigger] before[i]);
                    assert(cur@[i] == before[i]);
                }
                if !word_char(ch) {
                    assert(cur@[before.len() as int] == ch);
                }
            }
        }
        k = k + 1;
    }
    proof {
        assert(hv.take(v.len() as int) =~= hv);
        lemma_join_push(word_parts(hv).0, cur@);
    }
    if cur_ok {
        push_part(&mut s, first, &cur);
    }
    s
}

/// The name of a closure at `sp`.
pub fn closure_path(c: &QuickCtx, sp: SynSpan) -> (r: CanonicalPath)
    ensures
        r@ == closure_text(*c, sp),
{
    proof {
        reveal_strlit("CLOSURE::");
        reveal_strlit("UNKNOWN_CLOSURE::");
        reveal_strlit("::");
        reveal_strlit(":");
        reveal_strlit("..");
        reveal_strlit(".rs");
    }
    let f = chars_of(c.file.as_str());
    let n = f.len();
    let rs = n >= 3 && f[n - 3] == '.' && f[n - 2] == 'r' && f[n - 1] == 's';
    proof {
        if n >= 3 {
            let sub = c.file@.subrange(n - 3, n as int);
            assert(f@ == c.file@);
            assert(".rs"@.len() == 3 && ".rs"@[0] == '.' && ".rs"@[1] == 'r' && ".rs"@[2] == 's');
            if rs {
                assert(sub =~= ".rs"@);
            } else if sub == ".rs"@ {
                assert(sub[0] == f@[n - 3]);
                assert(sub[1] == f@[n - 2]);
                assert(sub[2] == f@[n - 1]);
            }
        }
    }
    let mut s = String::new();
    if rs {
        push_str(&mut s, "CLOSURE::");
        let d = dir_text(c.dir.as_str());
        push_str(&mut s, d.as_str());
        push_str(&mut s, "::");
        let mut k: usize = 0;
        let ghost start = s@;
        while k < n - 3
            invariant
                n == f.len(),
                n >= 3,
                k <= n - 3,
                f@ == c.file@,
                s@ == start + f@.take(k as int),
            decreases n - 3 - k,
        {
            crate::text::string_push(&mut s, f[k]);
            proof {
                assert(f@.take(k + 1) =~= f@.take(k as int).push(f@[k as int]));
            }
            k = k + 1;
        }
        proof {
            assert(f@.take((n - 3) as int) =~= c.file@.subrange(0, n - 3));
        }
        push_str(&mut s, "::");
        push_decimal(&mut s, sp.start_line as u64);
        push_str(&mut s, "::");
        push_decimal(&mut s, sp.start_col as u64);
        proof {
            assert(s@ =~= "CLOSURE::"@ + join_sep(kept_parts(hyphens_to_underscores(c.dir@))) + sep()
                + c.file@.subrange(0, n - 3) + sep() + decimal(sp.start_line as nat) + sep() + decimal(
                sp.start_col as nat,
            ));
        }
    } else {
        push_str(&mut s, "UNKNOWN_CLOSURE::");
        let p = path_join(c.dir.as_str(), c.file.as_str());
        push_str(&mut s, p.as_str());
        push_str(&mut s, ":");
        push_decimal(&mut s, sp.start_line as u64);
        push_str(&mut s, ":");
        push_decimal(&mut s, sp.start_col as u64);
        push_str(&mut s, "..");
        push_decimal(&mut s, sp.end_line as u64);
        push_str(&mut s, ":");
        push_decimal(&mut s, sp.end_col as u64);
    }
    CanonicalPath::new_owned(s)
}

/*
    Resolution state
*/

/// What resolution has learnt so far: the enclosing modules and impl scopes,
/// the names that `use` items imported (the latest first), and the functions
/// declared in `extern` blocks (the latest first).
pub struct QuickState {
    pub mods: Vec<String>,
    pub uses: Vec<(String, Vec<String>)>,
    pub ffi: Vec<(String, CanonicalPath)>,
}

#[verifier::ext_equal]
pub struct StateView {
    pub mods: Seq<Seq<char>>,
    pub uses: Seq<(Seq<char>, Seq<Seq<char>>)>,
    pub ffi: Seq<(Seq<char>, Seq<char>)>,
}

pub open spec fn uses_view(u: Seq<(String, Vec<String>)>) -> Seq<(Seq<char>, Seq<Seq<char>>)> {
    u.map_values(|e: (String, Vec<String>)| (e.0@, str_views(e.1@)))
}

pub open spec fn ffi_view(f: Seq<(String, CanonicalPath)>) -> Seq<(Seq<char>, Seq<char>)> {
    f.map_values(|e: (String, CanonicalPath)| (e.0@, e.1@))
}

pub open spec fn state_view(st: QuickState) -> StateView {
    StateView { mods: str_views(st.mods@), uses: uses_view(st.uses@), ffi: ffi_view(st.ffi@) }
}

/// The first entry under `k`.
pub open spec fn first_under<V>(s: Seq<(Seq<char>, V)>, k: Seq<char>) -> Option<V>
    decreases s.len(),
{
    if s.len() == 0 {
        None
    } else if s[0].0 == k {
        Some(s[0].1)
    } else {
        first_under(s.drop_first(), k)
    }
}

/// A path with its first segment replaced by what a `use` imported under it.
pub open spec fn lookup_path(uses: Seq<(Seq<char>, Seq<Seq<char>>)>, segs: Seq<Seq<char>>) -> Seq<Seq<char>> {
    if segs.len() == 0 {
        segs
    } else {
        match first_under(uses, segs[0]) {
            Some(v) => v + segs.drop_first(),
            None => segs,
        }
    }
}

/// The foreign declaration a path names: by its last segment.
pub open spec fn ffi_of(st: StateView, segs: Seq<Seq<char>>) -> Option<Seq<char>> {
    if segs.len() == 0 {
        None
    } else {
        first_under(st.ffi, segs.last())
    }
}

proof fn lemma_first_under_skip<V>(s: Seq<(Seq<char>, V)>, k: Seq<char>, i: int)
    requires
        0 <= i <= s.len(),
        forall|j: int| 0 <= j < i ==> (#[trigger] s[j]).0 != k,
    ensures
        first_under(s, k) == first_under(s.subrange(i, s.len() as int), k),
    decreases i,
{
    if i > 0 {
        assert forall|j: int| 0 <= j < i - 1 implies (#[trigger] s.drop_first()[j]).0 != k by {
            assert(s.drop_first()[j] == s[j + 1]);
        }
        lemma_first_under_skip(s.drop_first(), k, i - 1);
        assert(s.drop_first().subrange(i - 1, s.len() - 1) =~= s.subrange(i, s.len() as int));
    } else {
        assert(s.subrange(0, s.len() as int) =~= s);
    }
}

/// What a `use` imported under `k`.
fn use_lookup<'a>(uses: &'a Vec<(String, Vec<String>)>, k: &str) -> (r: Option<&'a Vec<String>>)
    ensures
        match first_under(uses_view(uses@), k@) {
            None => r is None,
            Some(v) => r matches Some(x) && str_views(x@) == v,
        },
{
    let ghost u = uses_view(uses@);
    let mut i: usize = 0;
    while i < uses.len()
        invariant
            i <= uses.len(),
            u == uses_view(uses@),
            forall|j: int| 0 <= j < i ==> (#[trigger] u[j]).0 != k@,
        decreases uses.len() - i,
    {
        if crate::text::str_eq(uses[i].0.as_str(), k) {
            proof {
                lemma_first_under_skip(u, k@, i as int);
                assert(u.subrange(i as int, u.len() as int)[0] == u[i as int]);
            }
            return Some(&uses[i].1);
        }
        i = i + 1;
    }
    proof {
        lemma_first_under_skip(u, k@, i as int);
    }
    None
}

/// The foreign declaration recorded under `k`.
fn ffi_lookup(ffi: &Vec<(String, CanonicalPath)>, k: &str) -> (r: Option<CanonicalPath>)
    ensures
        match first_under(ffi_view(ffi@), k@) {
            None => r is None,
            Some(v) => r matches Some(x) && x@ == v,
        },
{
    let ghost u = ffi_view(ffi@);
    let mut i: usize = 0;
    while i < ffi.len()
        invariant
            i <= ffi.len(),
            u == ffi_view(ffi@),
            forall|j: int| 0 <= j < i ==> (#[trigger] u[j]).0 != k@,
        decreases ffi.len() - i,
    {
        if crate::text::str_eq(ffi[i].0.as_str(), k) {
            proof {
                lemma_first_under_skip(u, k@, i as int);
                assert(u.subrange(i as int, u.len() as int)[0] == u[i as int]);
            }
            return Some(ffi[i].1.clone());
        }
        i = i + 1;
    }
    proof {
        lemma_first_under_skip(u, k@, i as int);
    }
    None
}

fn copy_strings(v: &Vec<String>) -> (r: Vec<String>)
    ensures
        str_views(r@) == str_views(v@),
{
    let mut r: Vec<String> = Vec::new();
    let mut i: usize = 0;
    while i < v.len()
        invariant
            i <= v.len(),
            str_views(r@) == str_views(v@).take(i as int),
        decreases v.len() - i,
    {
        let ghost before = r@;
        let x = crate::text::copy_string(v[i].as_str());
        let ghost xv = x@;
        r.push(x);
        proof {
            assert(str_views(r@) =~= str_views(before).push(xv));
            assert(str_views(v@).take(i + 1) =~= str_views(v@).take(i as int).push(v@[i as int]@));
        }
        i = i + 1;
    }
    proof {
        assert(str_views(v@).take(v.len() as int) =~= str_views(v@));
    }
    r
}

/// The segments of a path after `use` lookup.
fn lookup_segments(st: &QuickState, segs: &Vec<String>) -> (r: Vec<String>)
    ensures
        str_views(r@) == lookup_path(state_view(*st).uses, str_views(segs@)),
{
    if segs.len() == 0 {
        return Vec::new();
    }
    let mut r = match use_lookup(&st.uses, segs[0].as_str()) {
        Some(v) => copy_strings(v),
        None => {
            let mut w: Vec<String> = Vec::new();
            w.push(crate::text::copy_string(segs[0].as_str()));
            w
        },
    };
    let ghost start = str_views(r@);
    let mut i: usize = 1;
    while i < segs.len()
        invariant
            1 <= i <= segs.len(),
            str_views(r@) == start + str_views(segs@).subrange(1, i as int),
        decreases segs.len() - i,
    {
        let ghost before = r@;
        let x = crate::text::copy_string(segs[i].as_str());
        let ghost xv = x@;
        r.push(x);
        proof {
            assert(str_views(r@) =~= str_views(before).push(xv));
            assert(str_views(segs@).subrange(1, i + 1) =~= str_views(segs@).subrange(1, i as int).push(segs@[i as int]@));
            assert(str_views(r@) =~= start + str_views(segs@).subrange(1, i + 1));
        }
        i = i + 1;
    }
    proof {
        let sv = str_views(segs@);
        assert(sv.subrange(1, sv.len() as int) =~= sv.drop_first());
        if first_under(state_view(*st).uses, sv[0]) is None {
            assert(start + sv.drop_first() =~= sv);
        }
    }
    r
}

/// A resolved path.
fn resolve_path(st: &QuickState, segs: &Vec<String>) -> (r: CanonicalPath)
    ensures
        r@ == ids_text(lookup_path(state_view(*st).uses, str_views(segs@))),
{
    let full = lookup_segments(st, segs);
    path_of(&full)
}

/// The foreign declaration that a path names.
fn resolve_ffi(st: &QuickState, segs: &Vec<String>) -> (r: Option<CanonicalPath>)
    ensures
        match ffi_of(state_view(*st), str_views(segs@)) {
            None => r is None,
            Some(v) => r matches Some(x) && x@ == v,
        },
{
    if segs.len() == 0 {
        return None;
    }
    ffi_lookup(&st.ffi, segs[segs.len() - 1].as_str())
}

/*
    Expressions
*/

/// The identifiers among tokens, in order.
pub open spec fn token_idents(toks: Seq<CfgToken>) -> Seq<Seq<char>>
    decreases toks.len(),
{
    if toks.len() == 0 {
        Seq::empty()
    } else {
        let rest = token_idents(toks.drop_last());
        match toks.last() {
            CfgToken::Ident(name) => rest.push(name@),
            _ => rest,
        }
    }
}

pub open spec fn member_text(m: SynMember) -> Seq<char> {
    match m {
        SynMember::Named(n) => unknown_text("UNKNOWN_FIELD::"@, n@),
        SynMember::Unnamed(i) => unknown_text("UNKNOWN_FIELD::"@, decimal(i as nat)),
    }
}

/// `out` is the callee that the function part `e` of a call resolves to.
pub open spec fn callee_rel(c: QuickCtx, st: StateView, e: SynExpr, out: Callee) -> bool
    decreases e,
{
    match e.kind {
        SynExprKind::Path(segs) => out matches Callee::Resolved(r) && r.callee@ == ids_text(
            lookup_path(st.uses, str_views(segs@)),
        ) && opt_path(r.ffi) == ffi_of(st, str_views(segs@)) && r.unsafe_fn && r.loc@ == loc_spec(c, e.span),
        SynExprKind::Paren(inner) => callee_rel(c, st, *inner, out),
        SynExprKind::Field(_, m, sp) => out matches Callee::Resolved(r) && r.callee@ == member_text(m) && r.ffi is None
            && r.unsafe_fn && r.loc@ == loc_spec(c, sp),
        SynExprKind::Macro => out matches Callee::Macro(l) && l@ == loc_spec(c, e.span),
        _ => out matches Callee::Unresolved(l) && l@ == loc_spec(c, e.span),
    }
}

/// `out` is what `e` resolves to: code switched off by `cfg` is skipped; a
/// macro is skipped whatever its attributes.
pub open spec fn expr_rel(c: QuickCtx, st: StateView, e: SynExpr, out: ScanExpr) -> bool
    decreases e, 1nat,
{
    match e.kind {
        SynExprKind::Macro => out matches ScanExpr::Macro(l) && l@ == loc_spec(c, e.span),
        SynExprKind::Ignored => out matches ScanExpr::Nested(v) && v@.len() == 0,
        _ => if skips(c, e.attrs@) {
            out matches ScanExpr::CfgSkipped(l) && l@ == loc_spec(c, e.span)
        } else {
            kind_rel(c, st, e, out)
        },
    }
}

pub open spec fn kind_rel(c: QuickCtx, st: StateView, e: SynExpr, out: ScanExpr) -> bool
    decreases e, 0nat,
{
    match e.kind {
        SynExprKind::Call(args, f) => out matches ScanExpr::Call(a, cal) && seq_rel(c, st, args@, a@) && callee_rel(
            c,
            st,
            *f,
            cal,
        ),
        SynExprKind::MethodCall(r, args, m, sp) => out matches ScanExpr::MethodCall(r2, a2, mp, u, l) && expr_rel(
            c,
            st,
            *r,
            *r2,
        ) && seq_rel(c, st, args@, a2@) && mp@ == unknown_text("UNKNOWN_METHOD::"@, m@) && u && l@ == loc_spec(c, sp),
        SynExprKind::Path(segs) => out matches ScanExpr::Path(p) && p.path@ == ids_text(lookup_path(st.uses, str_views(segs@)))
            && !p.is_fn && !p.const_or_static && !p.mut_static && p.ffi_static == (ffi_of(st, str_views(segs@)) is Some)
            && p.loc@ == loc_spec(c, e.span),
        SynExprKind::Paren(inner) => out matches ScanExpr::Nested(v) && v@.len() == 1 && expr_rel(c, st, *inner, v@[0]),
        SynExprKind::Field(base, _, _) => out matches ScanExpr::Field(b, u, l) && expr_rel(c, st, *base, *b) && u is None
            && l@ == loc_spec(c, e.span),
        SynExprKind::Cast(inner, ptr, toks) => if ptr {
            out matches ScanExpr::RawPtrCast(i2, ps, l) && expr_rel(c, st, *inner, *i2) && path_views(ps@) == token_idents(
                toks@,
            ).map_values(|n: Seq<char>| unknown_text("UNKNOWN_FIELD::"@, n)) && l@ == loc_spec(c, e.span)
        } else {
            out matches ScanExpr::Nested(v) && v@.len() == 1 && expr_rel(c, st, *inner, v@[0])
        },
        SynExprKind::Deref(inner) => out matches ScanExpr::Deref(i2, ps, l) && expr_rel(c, st, *inner, *i2) && ps@.len()
            == 0 && l@ == loc_spec(c, inner.span),
        SynExprKind::Assign(a, b) => out matches ScanExpr::Assign(a2, b2) && expr_rel(c, st, *a, *a2) && expr_rel(
            c,
            st,
            *b,
            *b2,
        ),
        SynExprKind::Closure(body) => out matches ScanExpr::Closure(b2, n, l) && expr_rel(c, st, *body, *b2) && n@
            == closure_text(c, e.span) && l@ == loc_spec(c, e.span),
        SynExprKind::Unsafe(stmts) => out matches ScanExpr::Unsafe(v) && seq_rel(c, st, stmts@, v@),
        SynExprKind::Match(scrut, arms) => out matches ScanExpr::Nested(v) && v@.len() >= 1 && expr_rel(
            c,
            st,
            *scrut,
            v@[0],
        ) && arms_rel(c, st, arms@, v@.drop_first()),
        SynExprKind::Struct(fields, rest) => out matches ScanExpr::Nested(v) && match rest {
            Some(r) => if fields_stopped(c, fields@) {
                fields_rel(c, st, fields@, v@)
            } else {
                v@.len() >= 1 && fields_rel(c, st, fields@, v@.drop_last()) && expr_rel(c, st, *r, v@.last())
            },
            None => fields_rel(c, st, fields@, v@),
        },
        SynExprKind::Nested(es) => out matches ScanExpr::Nested(v) && seq_rel(c, st, es@, v@),
        _ => false,
    }
}

/// `outs` are what `es` resolve to, one for one.
pub open spec fn seq_rel(c: QuickCtx, st: StateView, es: Seq<SynExpr>, outs: Seq<ScanExpr>) -> bool
    decreases es, 1nat,
{
    &&& es.len() == outs.len()
    &&& es.len() > 0 ==> {
        &&& seq_rel(c, st, es.subrange(0, es.len() - 1), outs.drop_last())
        &&& expr_rel(c, st, es[es.len() - 1], outs.last())
    }
}

/// Whether one of the arms is switched off: the arms after the first such one
/// are not scanned.
pub open spec fn arms_stopped(c: QuickCtx, arms: Seq<SynArm>) -> bool {
    exists|i: int| 0 <= i < arms.len() && skips(c, (#[trigger] arms[i]).attrs@)
}

/// `outs` are what the arms resolve to: guard and body of each, up to the
/// first arm switched off, which is skipped.
pub open spec fn arms_rel(c: QuickCtx, st: StateView, arms: Seq<SynArm>, outs: Seq<ScanExpr>) -> bool
    decreases arms, 1nat,
{
    if arms.len() == 0 {
        outs.len() == 0
    } else {
        let pre = arms.subrange(0, arms.len() - 1);
        let a = arms[arms.len() - 1];
        if arms_stopped(c, pre) {
            arms_rel(c, st, pre, outs)
        } else if skips(c, a.attrs@) {
            outs.len() >= 1 && arms_rel(c, st, pre, outs.drop_last()) && (outs.last() matches ScanExpr::CfgSkipped(l)
                && l@ == loc_spec(c, a.span))
        } else {
            match a.guard {
                Some(g) => outs.len() >= 2 && arms_rel(c, st, pre, outs.subrange(0, outs.len() - 2)) && expr_rel(
                    c,
                    st,
                    *g,
                    outs[outs.len() - 2],
                ) && expr_rel(c, st, *a.body, outs.last()),
                None => outs.len() >= 1 && arms_rel(c, st, pre, outs.drop_last()) && expr_rel(c, st, *a.body, outs.last()),
            }
        }
    }
}

pub open spec fn fields_stopped(c: QuickCtx, fields: Seq<SynField>) -> bool {
    exists|i: int| 0 <= i < fields.len() && skips(c, (#[trigger] fields[i]).attrs@)
}

/// `outs` are what the fields resolve to, up to the first field switched off,
/// which is skipped.
pub open spec fn fields_rel(c: QuickCtx, st: StateView, fields: Seq<SynField>, outs: Seq<ScanExpr>) -> bool
    decreases fields, 1nat,
{
    if fields.len() == 0 {
        outs.len() == 0
    } else {
        let pre = fields.subrange(0, fields.len() - 1);
        let f = fields[fields.len() - 1];
        if fields_stopped(c, pre) {
            fields_rel(c, st, pre, outs)
        } else if skips(c, f.attrs@) {
            outs.len() >= 1 && fields_rel(c, st, pre, outs.drop_last()) && (outs.last() matches ScanExpr::CfgSkipped(l)
                && l@ == loc_spec(c, f.span))
        } else {
            outs.len() >= 1 && fields_rel(c, st, pre, outs.drop_last()) && expr_rel(c, st, f.expr, outs.last())
        }
    }
}

fn resolve_callee(c: &QuickCtx, st: &QuickState, e: &SynExpr) -> (r: Callee)
    requires
        c.wf(),
    ensures
        callee_rel(*c, state_view(*st), *e, r),
    decreases e,
{
    match &e.kind {
        SynExprKind::Path(segs) => {
            let callee = resolve_path(st, segs);
            let ffi = resolve_ffi(st, segs);
            Callee::Resolved(ResolvedCall { callee, ffi, unsafe_fn: true, loc: loc_of(c, e.span) })
        },
        SynExprKind::Paren(inner) => resolve_callee(c, st, inner),
        SynExprKind::Field(_, m, sp) => {
            let callee = match m {
                SynMember::Named(n) => unknown_path("UNKNOWN_FIELD::", n.as_str()),
                SynMember::Unnamed(i) => {
                    proof { reveal_strlit("UNKNOWN_FIELD::"); }
                    unknown_index(*i)
                },
            };
            Callee::Resolved(ResolvedCall { callee, ffi: None, unsafe_fn: true, loc: loc_of(c, *sp) })
        },
        SynExprKind::Macro => Callee::Macro(loc_of(c, e.span)),
        _ => Callee::Unresolved(loc_of(c, e.span)),
    }
}

/// Resolves a statement or expression.
pub fn resolve_expr(c: &QuickCtx, st: &QuickState, e: &SynExpr) -> (r: ScanExpr)
    requires
        c.wf(),
    ensures
        expr_rel(*c, state_view(*st), *e, r),
    decreases e,
{
    proof {
        reveal_strlit("UNKNOWN_FIELD::");
        reveal_strlit("UNKNOWN_METHOD::");
    }
    match &e.kind {
        SynExprKind::Macro => return ScanExpr::Macro(loc_of(c, e.span)),
        SynExprKind::Ignored => return ScanExpr::Nested(Vec::new()),
        _ => {},
    }
    if skip_attrs(&e.attrs, &c.enabled) {
        return ScanExpr::CfgSkipped(loc_of(c, e.span));
    }
    match &e.kind {
        SynExprKind::Call(args, f) => {
            let a = resolve_seq(c, st, args);
            let cal = resolve_callee(c, st, f);
            ScanExpr::Call(a, cal)
        },
        SynExprKind::MethodCall(r, args, m, sp) => {
            let r2 = resolve_expr(c, st, r);
            let a2 = resolve_seq(c, st, args);
            let mp = unknown_path("UNKNOWN_METHOD::", m.as_str());
            ScanExpr::MethodCall(Box::new(r2), a2, mp, true, loc_of(c, *sp))
        },
        SynExprKind::Path(segs) => {
            let path = resolve_path(st, segs);
            let ffi = resolve_ffi(st, segs);
            ScanExpr::Path(PathExpr {
                path,
                is_fn: false,
                const_or_static: false,
                mut_static: false,
                ffi_static: ffi.is_some(),
                loc: loc_of(c, e.span),
            })
        },
        SynExprKind::Paren(inner) => {
            let i2 = resolve_expr(c, st, inner);
            let mut v: Vec<ScanExpr> = Vec::new();
            v.push(i2);
            ScanExpr::Nested(v)
        },
        SynExprKind::Field(base, _, _) => {
            let b = resolve_expr(c, st, base);
            ScanExpr::Field(Box::new(b), None, loc_of(c, e.span))
        },
        SynExprKind::Cast(inner, ptr, toks) => {
            let i2 = resolve_expr(c, st, inner);
            if *ptr {
                let mut ps: Vec<CanonicalPath> = Vec::new();
                let mut k: usize = 0;
                while k < toks.len()
                    invariant
                        k <= toks.len(),
                        path_views(ps@) == token_idents(toks@.take(k as int)).map_values(
                            |n: Seq<char>| unknown_text("UNKNOWN_FIELD::"@, n),
                        ),
                    decreases toks.len() - k,
                {
                    let ghost before = ps@;
                    proof {
                        assert(toks@.take(k + 1).drop_last() =~= toks@.take(k as int));
                    }
                    if let CfgToken::Ident(name) = &toks[k] {
                        let p = unknown_path("UNKNOWN_FIELD::", name.as_str());
                        ps.push(p);
                        proof {
                            assert(path_views(ps@) =~= path_views(before).push(p@));
                        }
                    }
                    proof {
                        assert(token_idents(toks@.take(k + 1)).map_values(
                            |n: Seq<char>| unknown_text("UNKNOWN_FIELD::"@, n),
                        ) =~= path_views(ps@));
                    }
                    k = k + 1;
                }
                proof {
                    assert(toks@.take(toks.len() as int) =~= toks@);
                }
                ScanExpr::RawPtrCast(Box::new(i2), ps, loc_of(c, e.span))
            } else {
                let mut v: Vec<ScanExpr> = Vec::new();
                v.push(i2);
                ScanExpr::Nested(v)
            }
        },
        SynExprKind::Deref(inner) => {
            let i2 = resolve_expr(c, st, inner);
            ScanExpr::Deref(Box::new(i2), Vec::new(), loc_of(c, inner.span))
        },
        SynExprKind::Assign(a, b) => {
            let a2 = resolve_expr(c, st, a);
            let b2 = resolve_expr(c, st, b);
            ScanExpr::Assign(Box::new(a2), Box::new(b2))
        },
        SynExprKind::Closure(body) => {
            let b2 = resolve_expr(c, st, body);
            ScanExpr::Closure(Box::new(b2), closure_path(c, e.span), loc_of(c, e.span))
        },
        SynExprKind::Unsafe(stmts) => ScanExpr::Unsafe(resolve_seq(c, st, stmts)),
        SynExprKind::Match(scrut, arms) => {
            let s2 = resolve_expr(c, st, scrut);
            let rest = resolve_arms(c, st, arms);
            let mut v: Vec<ScanExpr> = Vec::new();
            v.push(s2);
            let ghost rv = rest@;
            let mut rest = rest;
            v.append(&mut rest);
            proof {
                assert(v@.drop_first() =~= rv);
            }
            ScanExpr::Nested(v)
        },
        SynExprKind::Struct(fields, rest) => {
            let (mut v, stopped) = resolve_fields(c, st, fields);
            match rest {
                Some(r) => {
                    if !stopped {
                        let ghost before = v@;
                        let r2 = resolve_expr(c, st, r);
                        v.push(r2);
                        proof {
                            assert(v@.drop_last() =~= before);
                        }
                    }
                },
                None => {},
            }
            ScanExpr::Nested(v)
        },
        SynExprKind::Nested(es) => ScanExpr::Nested(resolve_seq(c, st, es)),
        _ => ScanExpr::Nested(Vec::new()),
    }
}

/// Resolves statements or expressions in order.
pub fn resolve_seq(c: &QuickCtx, st: &QuickState, es: &Vec<SynExpr>) -> (r: Vec<ScanExpr>)
    requires
        c.wf(),
    ensures
        seq_rel(*c, state_view(*st), es@, r@),
    decreases es,
{
    let mut v: Vec<ScanExpr> = Vec::new();
    let mut i: usize = 0;
    proof {
        assert(es@.take(0) =~= Seq::<SynExpr>::empty());
    }
    while i < es.len()
        invariant
            i <= es.len(),
            c.wf(),
            seq_rel(*c, state_view(*st), es@.take(i as int), v@),
        decreases es.len() - i,
    {
        let x = resolve_expr(c, st, &es[i]);
        let ghost before = v@;
        v.push(x);
        proof {
            assert(es@.take(i + 1).subrange(0, i as int) =~= es@.take(i as int));
            assert(v@.drop_last() =~= before);
            assert(es@.take(i + 1)[i as int] == es@[i as int]);
        }
        i = i + 1;
    }
    proof {
        assert(es@.take(es.len() as int) =~= es@);
    }
    v
}

/// Resolves the arms of a match.
fn resolve_arms(c: &QuickCtx, st: &QuickState, arms: &Vec<SynArm>) -> (r: Vec<ScanExpr>)
    requires
        c.wf(),
    ensures
        arms_rel(*c, state_view(*st), arms@, r@),
    decreases arms,
{
    let mut v: Vec<ScanExpr> = Vec::new();
    let mut stopped = false;
    let mut i: usize = 0;
    proof {
        assert(arms@.take(0) =~= Seq::<SynArm>::empty());
    }
    while i < arms.len()
        invariant
            i <= arms.len(),
            c.wf(),
            stopped == arms_stopped(*c, arms@.take(i as int)),
            arms_rel(*c, state_view(*st), arms@.take(i as int), v@),
        decreases arms.len() - i,
    {
        let ghost pre = arms@.take(i as int);
        let ghost before = v@;
        let a = &arms[i];
        proof {
            assert(arms@.take(i + 1).subrange(0, i as int) =~= pre);
            assert(arms@.take(i + 1)[i as int] == arms@[i as int]);
        }
        let skip = skip_attrs(&a.attrs, &c.enabled);
        proof {
            let t = arms@.take(i + 1);
            if skip {
                assert(skips(*c, t[i as int].attrs@));
            }
            if arms_stopped(*c, pre) {
                let j = choose|j: int| 0 <= j < pre.len() && skips(*c, (#[trigger] pre[j]).attrs@);
                assert(t[j] == pre[j]);
            }
            if arms_stopped(*c, t) {
                let j = choose|j: int| 0 <= j < t.len() && skips(*c, (#[trigger] t[j]).attrs@);
                if j < i {
                    assert(t[j] == pre[j]);
                }
            }
        }
        if !stopped {
            if skip {
                v.push(ScanExpr::CfgSkipped(loc_of(c, a.span)));
                stopped = true;
                proof {
                    assert(v@.drop_last() =~= before);
                }
            } else {
                match &a.guard {
                    Some(g) => {
                        let g2 = resolve_expr(c, st, g);
                        v.push(g2);
                    },
                    None => {},
                }
                let b2 = resolve_expr(c, st, &a.body);
                v.push(b2);
                proof {
                    if a.guard is Some {
                        assert(v@.subrange(0, v@.len() - 2) =~= before);
                    } else {
                        assert(v@.drop_last() =~= before);
                    }
                }
            }
        }
        i = i + 1;
    }
    proof {
        assert(arms@.take(arms.len() as int) =~= arms@);
    }
    v
}

/// Resolves the fields of a struct literal; whether one was switched off.
fn resolve_fields(c: &QuickCtx, st: &QuickState, fields: &Vec<SynField>) -> (r: (Vec<ScanExpr>, bool))
    requires
        c.wf(),
    ensures
        fields_rel(*c, state_view(*st), fields@, r.0@),
        r.1 == fields_stopped(*c, fields@),
    decreases fields,
{
    let mut v: Vec<ScanExpr> = Vec::new();
    let mut stopped = false;
    let mut i: usize = 0;
    proof {
        assert(fields@.take(0) =~= Seq::<SynField>::empty());
    }
    while i < fields.len()
        invariant
            i <= fields.len(),
            c.wf(),
            stopped == fields_stopped(*c, fields@.take(i as int)),
            fields_rel(*c, state_view(*st), fields@.take(i as int), v@),
        decreases fields.len() - i,
    {
        let ghost pre = fields@.take(i as int);
        let ghost before = v@;
        let f = &fields[i];
        proof {
            assert(fields@.take(i + 1).subrange(0, i as int) =~= pre);
            assert(fields@.take(i + 1)[i as int] == fields@[i as int]);
        }
        let skip = skip_attrs(&f.attrs, &c.enabled);
        proof {
            let t = fields@.take(i + 1);
            if skip {
                assert(skips(*c, t[i as int].attrs@));
            }
            if fields_stopped(*c, pre) {
                let j = choose|j: int| 0 <= j < pre.len() && skips(*c, (#[trigger] pre[j]).attrs@);
                assert(t[j] == pre[j]);
            }
            if fields_stopped(*c, t) {
                let j = choose|j: int| 0 <= j < t.len() && skips(*c, (#[trigger] t[j]).attrs@);
                if j < i {
                    assert(t[j] == pre[j]);
                }
            }
        }
        if !stopped {
            if skip {
                v.push(ScanExpr::CfgSkipped(loc_of(c, f.span)));
                stopped = true;
            } else {
                let x = resolve_expr(c, st, &f.expr);
                v.push(x);
            }
            proof {
                assert(v@.drop_last() =~= before);
            }
        }
        i = i + 1;
    }
    proof {
        assert(fields@.take(fields.len() as int) =~= fields@);
    }
    (v, stopped)
}

/*
    Use items and impl scopes
*/

/// The imports after a `use` tree under `prefix`: each name it imports maps to
/// its full path, ahead of the earlier imports.
pub open spec fn use_after(
    uses: Seq<(Seq<char>, Seq<Seq<char>>)>,
    prefix: Seq<Seq<char>>,
    t: SynUseTree,
) -> Seq<(Seq<char>, Seq<Seq<char>>)>
    decreases t,
{
    match t {
        SynUseTree::Path(id, sub) => use_after(uses, prefix.push(id@), *sub),
        SynUseTree::Name(id) => seq![(id@, prefix.push(id@))] + uses,
        SynUseTree::Rename(id, r) => seq![(r@, prefix.push(id@))] + uses,
        SynUseTree::Glob => uses,
        SynUseTree::Group(ts) => group_after(uses, prefix, ts@),
    }
}

pub open spec fn group_after(
    uses: Seq<(Seq<char>, Seq<Seq<char>>)>,
    prefix: Seq<Seq<char>>,
    ts: Seq<SynUseTree>,
) -> Seq<(Seq<char>, Seq<Seq<char>>)>
    decreases ts,
{
    if ts.len() == 0 {
        uses
    } else {
        use_after(group_after(uses, prefix, ts.subrange(0, ts.len() - 1)), prefix, ts[ts.len() - 1])
    }
}

fn record_use(st: &mut QuickState, name: &str, prefix: &Vec<String>, last: &str)
    ensures
        uses_view(final(st).uses@) == seq![(name@, str_views(prefix@).push(last@))] + uses_view(old(st).uses@),
        final(st).mods == old(st).mods,
        final(st).ffi == old(st).ffi,
{
    let mut full = copy_strings(prefix);
    let ghost before = full@;
    let x = crate::text::copy_string(last);
    let ghost xv = x@;
    full.push(x);
    proof {
        assert(str_views(full@) =~= str_views(before).push(xv));
    }
    let entry = (crate::text::copy_string(name), full);
    let ghost ev = (entry.0@, str_views(entry.1@));
    st.uses.insert(0, entry);
    proof {
        assert(uses_view(st.uses@) =~= seq![ev] + uses_view(old(st).uses@));
    }
}

/// Records what a `use` tree imports.
fn scan_use(st: &mut QuickState, prefix: &mut Vec<String>, t: &SynUseTree)
    ensures
        uses_view(final(st).uses@) == use_after(uses_view(old(st).uses@), str_views(old(prefix)@), *t),
        str_views(final(prefix)@) == str_views(old(prefix)@),
        final(st).mods == old(st).mods,
        final(st).ffi == old(st).ffi,
    decreases t,
{
    match t {
        SynUseTree::Path(id, sub) => {
            let ghost before = prefix@;
            prefix.push(crate::text::copy_string(id.as_str()));
            proof {
                assert(str_views(prefix@) =~= str_views(before).push(id@));
            }
            scan_use(st, prefix, sub);
            let ghost cur = prefix@;
            let _ = prefix.pop();
            proof {
                assert(prefix@ == cur.drop_last());
                assert(str_views(cur.drop_last()) =~= str_views(cur).drop_last());
                assert(str_views(prefix@) =~= str_views(before));
            }
        },
        SynUseTree::Name(id) => record_use(st, id.as_str(), prefix, id.as_str()),
        SynUseTree::Rename(id, r) => record_use(st, r.as_str(), prefix, id.as_str()),
        SynUseTree::Glob => {},
        SynUseTree::Group(ts) => scan_use_group(st, prefix, ts),
    }
}

fn scan_use_group(st: &mut QuickState, prefix: &mut Vec<String>, ts: &Vec<SynUseTree>)
    ensures
        uses_view(final(st).uses@) == group_after(uses_view(old(st).uses@), str_views(old(prefix)@), ts@),
        str_views(final(prefix)@) == str_views(old(prefix)@),
        final(st).mods == old(st).mods,
        final(st).ffi == old(st).ffi,
    decreases ts,
{
    let ghost u0 = uses_view(st.uses@);
    let ghost pv = str_views(prefix@);
    let mut i: usize = 0;
    proof {
        assert(ts@.take(0) =~= Seq::<SynUseTree>::empty());
    }
    while i < ts.len()
        invariant
            i <= ts.len(),
            str_views(prefix@) == pv,
            pv == str_views(old(prefix)@),
            u0 == uses_view(old(st).uses@),
            uses_view(st.uses@) == group_after(u0, pv, ts@.take(i as int)),
            st.mods == old(st).mods,
            st.ffi == old(st).ffi,
        decreases ts.len() - i,
    {
        scan_use(st, prefix, &ts[i]);
        proof {
            assert(ts@.take(i + 1).subrange(0, i as int) =~= ts@.take(i as int));
            assert(ts@.take(i + 1)[i as int] == ts@[i as int]);
        }
        i = i + 1;
    }
    proof {
        assert(ts@.take(ts.len() as int) =~= ts@);
    }
}

/// The scope that an impl block of type `t` adds.
pub open spec fn type_scope(uses: Seq<(Seq<char>, Seq<Seq<char>>)>, t: SynType) -> Seq<Seq<char>>
    decreases t,
{
    match t {
        SynType::Path(p) => lookup_path(uses, str_views(p@)),
        SynType::Wrapped(b) => type_scope(uses, *b),
        SynType::TraitObject(bounds) => first_trait_scope(uses, bounds@),
        SynType::Other => Seq::empty(),
    }
}

/// The scope of the first trait among the bounds of a trait object.
pub open spec fn first_trait_scope(uses: Seq<(Seq<char>, Seq<Seq<char>>)>, bounds: Seq<Option<Vec<String>>>) -> Seq<
    Seq<char>,
>
    decreases bounds.len(),
{
    if bounds.len() == 0 {
        Seq::empty()
    } else {
        match bounds[0] {
            Some(p) => lookup_path(uses, str_views(p@)),
            None => first_trait_scope(uses, bounds.drop_first()),
        }
    }
}

/// The scope an impl block adds: its trait's path if it implements one, else
/// its type's.
pub open spec fn impl_scope(
    uses: Seq<(Seq<char>, Seq<Seq<char>>)>,
    tr: Option<(Vec<String>, SynSpan)>,
    t: SynType,
) -> Seq<Seq<char>> {
    match tr {
        Some(x) => lookup_path(uses, str_views(x.0@)),
        None => type_scope(uses, t),
    }
}

fn type_scope_exec(st: &QuickState, t: &SynType) -> (r: Vec<String>)
    ensures
        str_views(r@) == type_scope(state_view(*st).uses, *t),
    decreases t,
{
    match t {
        SynType::Path(p) => lookup_segments(st, p),
        SynType::Wrapped(b) => type_scope_exec(st, b),
        SynType::TraitObject(bounds) => {
            let mut i: usize = 0;
            proof {
                lemma_bounds_start(state_view(*st).uses, bounds@);
                assert(type_scope(state_view(*st).uses, *t) == first_trait_scope(state_view(*st).uses, bounds@));
            }
            while i < bounds.len()
                invariant
                    i <= bounds.len(),
                    type_scope(state_view(*st).uses, *t) == first_trait_scope(state_view(*st).uses, bounds@),
                    first_trait_scope(state_view(*st).uses, bounds@) == first_trait_scope(
                        state_view(*st).uses,
                        bounds@.subrange(i as int, bounds@.len() as int),
                    ),
                decreases bounds.len() - i,
            {
                let ghost rest = bounds@.subrange(i as int, bounds@.len() as int);
                proof {
                    assert(rest[0] == bounds@[i as int]);
                    assert(rest.drop_first() =~= bounds@.subrange(i + 1, bounds@.len() as int));
                }
                match &bounds[i] {
                    Some(p) => {
                        proof {
                            assert(first_trait_scope(state_view(*st).uses, rest) == lookup_path(state_view(*st).uses, str_views(p@)));
                        }
                        return lookup_segments(st, p);
                    },
                    None => {},
                }
                i = i + 1;
            }
            proof {
                assert(bounds@.subrange(i as int, bounds@.len() as int).len() == 0);
            }
            Vec::new()
        },
        SynType::Other => Vec::new(),
    }
}

proof fn lemma_bounds_start(uses: Seq<(Seq<char>, Seq<Seq<char>>)>, bounds: Seq<Option<Vec<String>>>)
    ensures
        first_trait_scope(uses, bounds) == first_trait_scope(uses, bounds.subrange(0, bounds.len() as int)),
{
    assert(bounds.subrange(0, bounds.len() as int) =~= bounds);
}

/*
    Items
*/

pub open spec fn vis_of(p: bool) -> Visibility {
    if p {
        Visibility::Public
    } else {
        Visibility::Private
    }
}

pub open spec fn opt_loc(o: Option<SrcLoc>) -> Option<SrcLocView> {
    match o {
        Some(l) => Some(l@),
        None => None,
    }
}

/// `out` is the function `f` resolved: named after the enclosing modules and
/// impl scopes.
pub open spec fn fn_rel(c: QuickCtx, st: StateView, f: SynFn, out: FnItem) -> bool {
    &&& out.name@ == def_text(c.modpath@, st.mods, f.ident@)
    &&& out.vis == vis_of(f.vis_pub)
    &&& out.sig_loc@ == loc_spec(c, f.sig_span)
    &&& out.body_loc@ == loc_spec(c, f.body_span)
    &&& out.unsafe_fn == f.unsafe_fn
    &&& out.extern_abi == f.has_abi
    &&& seq_rel(c, st, f.body@, out.body@)
}

pub open spec fn impl_item_rel(c: QuickCtx, st: StateView, it: SynImplItem, out: ScanItem) -> bool {
    match it {
        SynImplItem::Fn(f) => if skips(c, f.attrs@) {
            out matches ScanItem::CfgSkipped(l) && l@ == loc_spec(c, f.span)
        } else {
            out matches ScanItem::Fn(fi) && fn_rel(c, st, f, fi)
        },
        SynImplItem::Macro(sp) => out matches ScanItem::Macro(l) && l@ == loc_spec(c, sp),
        SynImplItem::Verbatim => out is Other,
        SynImplItem::Other(sp) => out matches ScanItem::Unsupported(l) && l@ == loc_spec(c, sp),
    }
}

/// A trait method is named like a function of the enclosing modules; no
/// implementation of it is known without type information.
pub open spec fn trait_item_rel(c: QuickCtx, st: StateView, it: SynTraitItem, out: ScanTraitItem) -> bool {
    match it {
        SynTraitItem::Fn(tf) => if skips(c, tf.f.attrs@) {
            out matches ScanTraitItem::CfgSkipped(l) && l@ == loc_spec(c, tf.span)
        } else {
            out matches ScanTraitItem::Method(m) && m.name@ == def_text(c.modpath@, st.mods, tf.f.ident@) && m.loc@
                == loc_spec(c, tf.span) && m.impls@.len() == 0 && if tf.has_default {
                m.default matches Some(fi) && fn_rel(c, st, tf.f, fi)
            } else {
                m.default is None
            }
        },
        SynTraitItem::Macro(sp) => out matches ScanTraitItem::Macro(l) && l@ == loc_spec(c, sp),
        SynTraitItem::Verbatim => out is Verbatim,
        SynTraitItem::Other(sp) => out matches ScanTraitItem::Unsupported(l) && l@ == loc_spec(c, sp),
    }
}

/// A public function of an `extern` block is declared, with its span as its
/// body's; a private one is not.
pub open spec fn foreign_rel(c: QuickCtx, st: StateView, it: SynForeignItem, out: ScanItem) -> bool {
    match it {
        SynForeignItem::Fn(attrs, id, p, sp) => if skips(c, attrs@) {
            out matches ScanItem::CfgSkipped(l) && l@ == loc_spec(c, sp)
        } else if p {
            out matches ScanItem::Fn(fi) && fi.name@ == def_text(c.modpath@, st.mods, id@) && fi.vis == Visibility::Public
                && fi.sig_loc@ == loc_spec(c, sp) && fi.body_loc@ == loc_spec(c, sp) && !fi.unsafe_fn && !fi.extern_abi
                && fi.body@.len() == 0
        } else {
            out is Other
        },
        SynForeignItem::Macro(sp) => out matches ScanItem::Macro(l) && l@ == loc_spec(c, sp),
        SynForeignItem::Other(sp) => out matches ScanItem::Unsupported(l) && l@ == loc_spec(c, sp),
    }
}

/// The foreign declarations after an `extern` block: each function not
/// switched off, ahead of the earlier ones.
pub open spec fn foreign_ffi_after(
    c: QuickCtx,
    mods: Seq<Seq<char>>,
    ffi: Seq<(Seq<char>, Seq<char>)>,
    its: Seq<SynForeignItem>,
) -> Seq<(Seq<char>, Seq<char>)>
    decreases its.len(),
{
    if its.len() == 0 {
        ffi
    } else {
        let f = foreign_ffi_after(c, mods, ffi, its.drop_last());
        match its.last() {
            SynForeignItem::Fn(attrs, id, _, _) => if skips(c, attrs@) {
                f
            } else {
                seq![(id@, def_text(c.modpath@, mods, id@))] + f
            },
            _ => f,
        }
    }
}

/// The state after an item: a module's items are resolved inside it, its
/// imports and foreign declarations stay; an `extern` block adds foreign
/// declarations; a `use` adds imports.
pub open spec fn state_after_item(c: QuickCtx, st: StateView, it: SynItem) -> StateView
    decreases it,
{
    match it {
        SynItem::Mod(attrs, id, _, content) => if skips(c, attrs@) {
            st
        } else {
            match content {
                Some(items) => StateView {
                    mods: st.mods,
                    ..state_after_items(c, StateView { mods: st.mods.push(id@), ..st }, items@)
                },
                None => st,
            }
        },
        SynItem::ForeignMod(attrs, _, its) => if skips(c, attrs@) {
            st
        } else {
            StateView { ffi: foreign_ffi_after(c, st.mods, st.ffi, its@), ..st }
        },
        SynItem::Use(t) => StateView { uses: use_after(st.uses, Seq::empty(), t), ..st },
        _ => st,
    }
}

pub open spec fn state_after_items(c: QuickCtx, st: StateView, items: Seq<SynItem>) -> StateView
    decreases items,
{
    if items.len() == 0 {
        st
    } else {
        state_after_item(c, state_after_items(c, st, items.subrange(0, items.len() - 1)), items[items.len() - 1])
    }
}

/// `out` is the item `it` resolved in state `st`.
pub open spec fn item_rel(c: QuickCtx, st: StateView, it: SynItem, out: ScanItem) -> bool
    decreases it,
{
    match it {
        SynItem::Fn(f) => if skips(c, f.attrs@) {
            out matches ScanItem::CfgSkipped(l) && l@ == loc_spec(c, f.span)
        } else {
            out matches ScanItem::Fn(fi) && fn_rel(c, st, f, fi)
        },
        SynItem::Mod(attrs, id, sp, content) => if skips(c, attrs@) {
            out matches ScanItem::CfgSkipped(l) && l@ == loc_spec(c, sp)
        } else {
            match content {
                Some(items) => out matches ScanItem::Mod(v) && items_rel(
                    c,
                    StateView { mods: st.mods.push(id@), ..st },
                    items@,
                    v@,
                ),
                None => out is Other,
            }
        },
        SynItem::Impl(attrs, sp, tr, ty, uns, its) => if skips(c, attrs@) {
            out matches ScanItem::CfgSkipped(l) && l@ == loc_spec(c, sp)
        } else {
            out matches ScanItem::Impl(u, v) && opt_loc(u) == (match tr {
                Some(x) => if uns {
                    Some(loc_spec(c, x.1))
                } else {
                    None
                },
                None => None,
            }) && v@.len() == its@.len() && forall|i: int|
                0 <= i < its@.len() ==> #[trigger] impl_item_rel(
                    c,
                    StateView { mods: st.mods + impl_scope(st.uses, tr, ty), ..st },
                    its@[i],
                    v@[i],
                )
        },
        SynItem::Trait(attrs, sp, _, idsp, uns, its) => if skips(c, attrs@) {
            out matches ScanItem::CfgSkipped(l) && l@ == loc_spec(c, sp)
        } else {
            out matches ScanItem::Trait(u, v) && opt_loc(u) == (if uns {
                Some(loc_spec(c, idsp))
            } else {
                None
            }) && v@.len() == its@.len() && forall|i: int|
                0 <= i < its@.len() ==> #[trigger] trait_item_rel(c, st, its@[i], v@[i])
        },
        SynItem::ForeignMod(attrs, sp, its) => if skips(c, attrs@) {
            out matches ScanItem::CfgSkipped(l) && l@ == loc_spec(c, sp)
        } else {
            out matches ScanItem::Mod(v) && v@.len() == its@.len() && forall|i: int|
                0 <= i < its@.len() ==> #[trigger] foreign_rel(c, st, its@[i], v@[i])
        },
        SynItem::Use(_) => out is Other,
        SynItem::Macro(sp) => out matches ScanItem::Macro(l) && l@ == loc_spec(c, sp),
        SynItem::Other => out is Other,
    }
}

/// `outs` are `items` resolved in order, each in the state the earlier ones left.
pub open spec fn items_rel(c: QuickCtx, st: StateView, items: Seq<SynItem>, outs: Seq<ScanItem>) -> bool
    decreases items,
{
    &&& items.len() == outs.len()
    &&& items.len() > 0 ==> {
        let pre = items.subrange(0, items.len() - 1);
        &&& items_rel(c, st, pre, outs.drop_last())
        &&& item_rel(c, state_after_items(c, st, pre), items[items.len() - 1], outs.last())
    }
}

proof fn lemma_items_after_mods(c: QuickCtx, st: StateView, items: Seq<SynItem>)
    ensures
        state_after_items(c, st, items).mods == st.mods,
    decreases items.len(),
{
    if items.len() > 0 {
        let pre = items.subrange(0, items.len() - 1);
        lemma_items_after_mods(c, st, pre);
        let st1 = state_after_items(c, st, pre);
        assert(state_after_items(c, st, items) == state_after_item(c, st1, items[items.len() - 1]));
        match items[items.len() - 1] {
            SynItem::Mod(attrs, id, sp, content) => {
                if !skips(c, attrs@) {
                    match content {
                        Some(its) => {},
                        None => {},
                    }
                }
            },
            _ => {},
        }
    }
}

fn resolve_fn(c: &QuickCtx, st: &QuickState, f: &SynFn) -> (r: FnItem)
    requires
        c.wf(),
    ensures
        fn_rel(*c, state_view(*st), *f, r),
{
    FnItem {
        name: def_path(&c.modpath, &st.mods, f.ident.as_str()),
        vis: if f.vis_pub { Visibility::Public } else { Visibility::Private },
        sig_loc: loc_of(c, f.sig_span),
        body_loc: loc_of(c, f.body_span),
        unsafe_fn: f.unsafe_fn,
        extern_abi: f.has_abi,
        body: resolve_seq(c, st, &f.body),
    }
}

fn resolve_impl_items(c: &QuickCtx, st: &QuickState, its: &Vec<SynImplItem>) -> (r: Vec<ScanItem>)
    requires
        c.wf(),
    ensures
        r@.len() == its@.len(),
        forall|i: int| 0 <= i < its@.len() ==> #[trigger] impl_item_rel(*c, state_view(*st), its@[i], r@[i]),
{
    let mut v: Vec<ScanItem> = Vec::new();
    let mut i: usize = 0;
    while i < its.len()
        invariant
            i <= its.len(),
            c.wf(),
            v@.len() == i,
            forall|k: int| 0 <= k < i ==> #[trigger] impl_item_rel(*c, state_view(*st), its@[k], v@[k]),
        decreases its.len() - i,
    {
        let x = match &its[i] {
            SynImplItem::Fn(f) => if skip_attrs(&f.attrs, &c.enabled) {
                ScanItem::CfgSkipped(loc_of(c, f.span))
            } else {
                ScanItem::Fn(resolve_fn(c, st, f))
            },
            SynImplItem::Macro(sp) => ScanItem::Macro(loc_of(c, *sp)),
            SynImplItem::Verbatim => ScanItem::Other,
            SynImplItem::Other(sp) => ScanItem::Unsupported(loc_of(c, *sp)),
        };
        v.push(x);
        i = i + 1;
    }
    v
}

fn resolve_trait_items(c: &QuickCtx, st: &QuickState, its: &Vec<SynTraitItem>) -> (r: Vec<ScanTraitItem>)
    requires
        c.wf(),
    ensures
        r@.len() == its@.len(),
        forall|i: int| 0 <= i < its@.len() ==> #[trigger] trait_item_rel(*c, state_view(*st), its@[i], r@[i]),
{
    let mut v: Vec<ScanTraitItem> = Vec::new();
    let mut i: usize = 0;
    while i < its.len()
        invariant
            i <= its.len(),
            c.wf(),
            v@.len() == i,
            forall|k: int| 0 <= k < i ==> #[trigger] trait_item_rel(*c, state_view(*st), its@[k], v@[k]),
        decreases its.len() - i,
    {
        let x = match &its[i] {
            SynTraitItem::Fn(tf) => if skip_attrs(&tf.f.attrs, &c.enabled) {
                ScanTraitItem::CfgSkipped(loc_of(c, tf.span))
            } else {
                let default = if tf.has_default {
                    Some(resolve_fn(c, st, &tf.f))
                } else {
                    None
                };
                ScanTraitItem::Method(TraitMethod {
                    name: def_path(&c.modpath, &st.mods, tf.f.ident.as_str()),
                    loc: loc_of(c, tf.span),
                    default,
                    impls: Vec::new(),
                })
            },
            SynTraitItem::Macro(sp) => ScanTraitItem::Macro(loc_of(c, *sp)),
            SynTraitItem::Verbatim => ScanTraitItem::Verbatim,
            SynTraitItem::Other(sp) => ScanTraitItem::Unsupported(loc_of(c, *sp)),
        };
        v.push(x);
        i = i + 1;
    }
    v
}

fn resolve_foreign_items(c: &QuickCtx, st: &mut QuickState, its: &Vec<SynForeignItem>) -> (r: Vec<ScanItem>)
    requires
        c.wf(),
    ensures
        r@.len() == its@.len(),
        forall|i: int| 0 <= i < its@.len() ==> #[trigger] foreign_rel(*c, state_view(*old(st)), its@[i], r@[i]),
        state_view(*final(st)) == (StateView {
            ffi: foreign_ffi_after(*c, state_view(*old(st)).mods, state_view(*old(st)).ffi, its@),
            ..state_view(*old(st))
        }),
{
    let ghost s0 = state_view(*st);
    let mut v: Vec<ScanItem> = Vec::new();
    let mut i: usize = 0;
    proof {
        assert(its@.take(0) =~= Seq::<SynForeignItem>::empty());
        assert(state_view(*st) =~= (StateView { ffi: foreign_ffi_after(*c, s0.mods, s0.ffi, its@.take(0)), ..s0 }));
    }
    while i < its.len()
        invariant
            i <= its.len(),
            c.wf(),
            v@.len() == i,
            s0 == state_view(*old(st)),
            forall|k: int| 0 <= k < i ==> #[trigger] foreign_rel(*c, s0, its@[k], v@[k]),
            state_view(*st) == (StateView { ffi: foreign_ffi_after(*c, s0.mods, s0.ffi, its@.take(i as int)), ..s0 }),
        decreases its.len() - i,
    {
        proof {
            assert(its@.take(i + 1).drop_last() =~= its@.take(i as int));
            assert(its@.take(i + 1).last() == its@[i as int]);
        }
        let x = match &its[i] {
            SynForeignItem::Fn(attrs, id, p, sp) => if skip_attrs(attrs, &c.enabled) {
                ScanItem::CfgSkipped(loc_of(c, *sp))
            } else {
                let def = def_path(&c.modpath, &st.mods, id.as_str());
                let ghost before = st.ffi@;
                let entry = (crate::text::copy_string(id.as_str()), def.clone());
                let ghost ev = (entry.0@, entry.1@);
                st.ffi.insert(0, entry);
                proof {
                    assert(ffi_view(st.ffi@) =~= seq![ev] + ffi_view(before));
                }
                if *p {
                    ScanItem::Fn(FnItem {
                        name: def,
                        vis: Visibility::Public,
                        sig_loc: loc_of(c, *sp),
                        body_loc: loc_of(c, *sp),
                        unsafe_fn: false,
                        extern_abi: false,
                        body: Vec::new(),
                    })
                } else {
                    ScanItem::Other
                }
            },
            SynForeignItem::Macro(sp) => ScanItem::Macro(loc_of(c, *sp)),
            SynForeignItem::Other(sp) => ScanItem::Unsupported(loc_of(c, *sp)),
        };
        v.push(x);
        proof {
            assert(state_view(*st) =~= (StateView { ffi: foreign_ffi_after(*c, s0.mods, s0.ffi, its@.take(i + 1)), ..s0 }));
        }
        i = i + 1;
    }
    proof {
        assert(its@.take(its.len() as int) =~= its@);
    }
    v
}

/// Resolves an item, and learns what it imports or declares.
pub fn resolve_item(c: &QuickCtx, st: &mut QuickState, it: &SynItem) -> (r: ScanItem)
    requires
        c.wf(),
    ensures
        item_rel(*c, state_view(*old(st)), *it, r),
        state_view(*final(st)) == state_after_item(*c, state_view(*old(st)), *it),
    decreases it,
{
    let ghost s0 = state_view(*st);
    match it {
        SynItem::Fn(f) => if skip_attrs(&f.attrs, &c.enabled) {
            ScanItem::CfgSkipped(loc_of(c, f.span))
        } else {
            ScanItem::Fn(resolve_fn(c, st, f))
        },
        SynItem::Mod(attrs, id, sp, content) => if skip_attrs(attrs, &c.enabled) {
            ScanItem::CfgSkipped(loc_of(c, *sp))
        } else {
            match content {
                Some(items) => {
                    let ghost before = st.mods@;
                    st.mods.push(crate::text::copy_string(id.as_str()));
                    let ghost sm = state_view(*st);
                    proof {
                        assert(str_views(st.mods@) =~= str_views(before).push(id@));
                        assert(sm =~= (StateView { mods: s0.mods.push(id@), ..s0 }));
                    }
                    let v = resolve_items(c, st, items);
                    let ghost cur = st.mods@;
                    let _ = st.mods.pop();
                    proof {
                        lemma_items_after_mods(*c, sm, items@);
                        assert(str_views(cur.drop_last()) =~= str_views(cur).drop_last());
                        assert(state_view(*st) =~= (StateView { mods: s0.mods, ..state_after_items(*c, sm, items@) }));
                    }
                    ScanItem::Mod(v)
                },
                None => ScanItem::Other,
            }
        },
        SynItem::Impl(attrs, sp, tr, ty, uns, its) => if skip_attrs(attrs, &c.enabled) {
            ScanItem::CfgSkipped(loc_of(c, *sp))
        } else {
            let scope = match tr {
                Some(x) => lookup_segments(st, &x.0),
                None => type_scope_exec(st, ty),
            };
            let n = st.mods.len();
            let ghost before = st.mods@;
            let mut k: usize = 0;
            while k < scope.len()
                invariant
                    k <= scope.len(),
                    n == before.len(),
                    st.mods@.len() == n + k,
                    st.mods@.subrange(0, n as int) == before,
                    str_views(st.mods@) == str_views(before) + str_views(scope@).take(k as int),
                    st.uses == old(st).uses,
                    st.ffi == old(st).ffi,
                decreases scope.len() - k,
            {
                let ghost m = st.mods@;
                let x = crate::text::copy_string(scope[k].as_str());
                let ghost xv = x@;
                st.mods.push(x);
                proof {
                    assert(str_views(st.mods@) =~= str_views(m).push(xv));
                    assert(str_views(scope@).take(k + 1) =~= str_views(scope@).take(k as int).push(scope@[k as int]@));
                    assert(st.mods@.subrange(0, n as int) =~= m.subrange(0, n as int));
                }
                k = k + 1;
            }
            proof {
                assert(str_views(scope@).take(scope.len() as int) =~= str_views(scope@));
                assert(state_view(*st) =~= (StateView { mods: s0.mods + impl_scope(s0.uses, *tr, *ty), ..s0 }));
            }
            let v = resolve_impl_items(c, st, its);
            st.mods.truncate(n);
            proof {
                assert(st.mods@ =~= before);
                assert(state_view(*st) =~= s0);
            }
            let u = match tr {
                Some(x) => if *uns {
                    Some(loc_of(c, x.1))
                } else {
                    None
                },
                None => None,
            };
            ScanItem::Impl(u, v)
        },
        SynItem::Trait(attrs, sp, _, idsp, uns, its) => if skip_attrs(attrs, &c.enabled) {
            ScanItem::CfgSkipped(loc_of(c, *sp))
        } else {
            let v = resolve_trait_items(c, st, its);
            let u = if *uns {
                Some(loc_of(c, *idsp))
            } else {
                None
            };
            ScanItem::Trait(u, v)
        },
        SynItem::ForeignMod(attrs, sp, its) => if skip_attrs(attrs, &c.enabled) {
            ScanItem::CfgSkipped(loc_of(c, *sp))
        } else {
            ScanItem::Mod(resolve_foreign_items(c, st, its))
        },
        SynItem::Use(t) => {
            let mut prefix: Vec<String> = Vec::new();
            proof {
                assert(str_views(prefix@) =~= Seq::<Seq<char>>::empty());
            }
            scan_use(st, &mut prefix, t);
            proof {
                assert(state_view(*st) =~= (StateView { uses: use_after(s0.uses, Seq::empty(), *t), ..s0 }));
            }
            ScanItem::Other
        },
        SynItem::Macro(sp) => ScanItem::Macro(loc_of(c, *sp)),
        SynItem::Other => ScanItem::Other,
    }
}

/// Resolves items in order.
pub fn resolve_items(c: &QuickCtx, st: &mut QuickState, items: &Vec<SynItem>) -> (r: Vec<ScanItem>)
    requires
        c.wf(),
    ensures
        items_rel(*c, state_view(*old(st)), items@, r@),
        state_view(*final(st)) == state_after_items(*c, state_view(*old(st)), items@),
    decreases items,
{
    let ghost s0 = state_view(*st);
    let mut v: Vec<ScanItem> = Vec::new();
    let mut i: usize = 0;
    proof {
        assert(items@.take(0) =~= Seq::<SynItem>::empty());
    }
    while i < items.len()
        invariant
            i <= items.len(),
            c.wf(),
            s0 == state_view(*old(st)),
            items_rel(*c, s0, items@.take(i as int), v@),
            state_view(*st) == state_after_items(*c, s0, items@.take(i as int)),
        decreases items.len() - i,
    {
        let ghost before = v@;
        let x = resolve_item(c, st, &items[i]);
        v.push(x);
        proof {
            assert(items@.take(i + 1).subrange(0, i as int) =~= items@.take(i as int));
            assert(items@.take(i + 1)[i as int] == items@[i as int]);
            assert(v@.drop_last() =~= before);
        }
        i = i + 1;
    }
    proof {
        assert(items@.take(items.len() as int) =~= items@);
    }
    v
}

/*
    The quick scan of a file
*/

/// The state before the first item of a file.
pub open spec fn empty_state() -> StateView {
    StateView { mods: Seq::empty(), uses: Seq::empty(), ffi: Seq::empty() }
}

impl QuickCtx {
    /// The context of the file at `filepath` in crate `crate_name`, with the
    /// `cfg` options `enabled` set; `None` where the path has no directory or no
    /// file name.
    pub fn new(crate_name: &str, filepath: &str, enabled: Vec<(String, Vec<String>)>) -> (r: Option<Self>)
        ensures
            match r {
                Some(c) => {
                    &&& c.wf()
                    &&& c.filepath@ == filepath@
                    &&& c.modpath@ == replace_hyphens_spec(
                        join_sep(seq![crate_name@] + infer_module_spec(spec_path_components(filepath@))),
                    )
                    &&& c.enabled@ == enabled@
                },
                None => spec_path_parent(filepath@) is None || spec_path_file_name(filepath@) is None,
            },
    {
        let dir = match crate::path_ops::path_parent(filepath) {
            Some(d) => d,
            None => return None,
        };
        let file = match crate::path_ops::path_file_name(filepath) {
            Some(f) => f,
            None => return None,
        };
        let modpath = CanonicalPath::new_owned(infer_fully_qualified_prefix(crate_name, filepath));
        Some(QuickCtx { filepath: crate::text::copy_string(filepath), dir, file, modpath, enabled })
    }
}

/// Resolves the names of a file's items from the file's start: no `use` seen
/// yet, at the file's own module path.
pub fn resolve_quick(c: &QuickCtx, items: &Vec<SynItem>) -> (r: Vec<ScanItem>)
    requires
        c.wf(),
    ensures
        items_rel(*c, empty_state(), items@, r@),
{
    let mut st = QuickState { mods: Vec::new(), uses: Vec::new(), ffi: Vec::new() };
    proof {
        assert(state_view(st) =~= empty_state());
    }
    resolve_items(c, &mut st, items)
}

/// Parses a source text and resolves the names of its items from the file
/// alone: `None` where `syn` cannot parse the text, else the resolved items and
/// the file's span.
pub fn resolve_source_quick(c: &QuickCtx, src: &str) -> (r: Option<(Vec<ScanItem>, SynSpan)>)
    requires
        c.wf(),
    ensures
        r is None <==> spec_parse_file(src@) is None,
        r matches Some(p) ==> p.1 == spec_parse_file(src@)->Some_0.1 && items_rel(
            *c,
            empty_state(),
            spec_parse_file(src@)->Some_0.0,
            p.0@,
        ),
{
    match parse_file(src) {
        Some((items, span)) => Some((resolve_quick(c, &items), span)),
        None => None,
    }
}

/// Scans the items of a parsed file: resolves their names from the file alone
/// and then scans them, counting the file's lines first. Gives the resolved items.
pub fn scan_file_quick(scanner: &mut Scanner, c: &QuickCtx, file_span: SynSpan, items: &Vec<SynItem>) -> (r: Vec<ScanItem>)
    requires
        c.wf(),
        old(scanner).ready(),
        path_views(old(scanner).results.trait_meths@).no_duplicates(),
        tracker_fits(old(scanner).results.total_loc@, seq![span_of(loc_spec(*c, file_span))]),
        forall|res: Seq<ScanItem>| #[trigger] items_rel(*c, empty_state(), items@, res) ==> items_fit(
            old(scanner).results,
            items_spec(old(scanner).ctx(), old(scanner).scope_assign_lhs, res).0,
        ),
    ensures
        items_rel(*c, empty_state(), items@, r@),
        final(scanner).caller == old(scanner).caller,
        final(scanner).scope_unsafe == old(scanner).scope_unsafe,
        final(scanner).sinks == old(scanner).sinks,
        final(scanner).results.total_loc@ == add_spans(old(scanner).results.total_loc@, seq![span_of(loc_spec(*c, file_span))]),
        crate::item_scan::items_after(
            old(scanner).results,
            final(scanner).results,
            items_spec(old(scanner).ctx(), old(scanner).scope_assign_lhs, r@).0,
        ),
{
    let r = resolve_quick(c, items);
    let file_loc = loc_of(c, file_span);
    scanner.scan_file(&file_loc, &r);
    r
}


/// After a `use` tree `..::id` under `prefix`, the name `id` stands for the path
/// `prefix::id`: a path that starts with `id` resolves to that path followed by
/// the rest of its segments, whatever was imported before.
pub proof fn law_named_import_resolves(
    uses: Seq<(Seq<char>, Seq<Seq<char>>)>,
    prefix: Seq<Seq<char>>,
    id: String,
    rest: Seq<Seq<char>>,
)
    ensures
        lookup_path(use_after(uses, prefix, SynUseTree::Name(id)), seq![id@] + rest) == prefix.push(id@) + rest,
{
    let u = use_after(uses, prefix, SynUseTree::Name(id));
    let segs = seq![id@] + rest;
    assert(segs[0] == id@);
    assert(u[0] == (id@, prefix.push(id@)));
    assert(first_under(u, id@) == Some(prefix.push(id@)));
    assert(segs.drop_first() =~= rest);
}

/// After a `use` tree `..::id as r` under `prefix`, the name `r` stands for the
/// path `prefix::id`: a path that starts with `r` resolves to that path followed
/// by the rest of its segments, whatever was imported before.
pub proof fn law_renamed_import_resolves(
    uses: Seq<(Seq<char>, Seq<Seq<char>>)>,
    prefix: Seq<Seq<char>>,
    id: String,
    r: String,
    rest: Seq<Seq<char>>,
)
    ensures
        lookup_path(use_after(uses, prefix, SynUseTree::Rename(id, r)), seq![r@] + rest) == prefix.push(id@) + rest,
{
    let u = use_after(uses, prefix, SynUseTree::Rename(id, r));
    let segs = seq![r@] + rest;
    assert(segs[0] == r@);
    assert(u[0] == (r@, prefix.push(id@)));
    assert(first_under(u, r@) == Some(prefix.push(id@)));
    assert(segs.drop_first() =~= rest);
}

/// After the item `use a::id as r;`, a call of a path that starts with `r`
/// calls `a::id` followed by the rest of the path.
pub proof fn law_call_through_renamed_import(
    c: QuickCtx,
    st: StateView,
    a: String,
    id: String,
    r: String,
    e: SynExpr,
    out: Callee,
)
    requires
        e.kind matches SynExprKind::Path(segs) && segs@.len() > 0 && segs@[0]@ == r@,
        callee_rel(
            c,
            state_after_item(c, st, SynItem::Use(SynUseTree::Path(a, Box::new(SynUseTree::Rename(id, r))))),
            e,
            out,
        ),
    ensures
        out matches Callee::Resolved(rc) && rc.callee@ == ids_text(
            seq![a@, id@] + str_views(e.kind->Path_0@).drop_first(),
        ),
{
    let segs = str_views(e.kind->Path_0@);
    let t = SynUseTree::Path(a, Box::new(SynUseTree::Rename(id, r)));
    let pre = Seq::<Seq<char>>::empty().push(a@);
    assert(use_after(st.uses, Seq::empty(), t) == use_after(st.uses, pre, SynUseTree::Rename(id, r)));
    law_renamed_import_resolves(st.uses, pre, id, r, segs.drop_first());
    assert(seq![r@] + segs.drop_first() =~= segs);
    assert(pre.push(id@) =~= seq![a@, id@]);
}

/// The functions of a trait impl `impl Tr for Ty` are named under the path of
/// the trait `Tr` as the imports resolve it, not under the type.
pub proof fn law_trait_impl_scoped_by_trait(
    c: QuickCtx,
    st: StateView,
    attrs: Vec<CfgAttribute>,
    sp: SynSpan,
    tr: Vec<String>,
    trsp: SynSpan,
    ty: SynType,
    uns: bool,
    its: Vec<SynImplItem>,
    out: ScanItem,
    i: int,
)
    requires
        item_rel(c, st, SynItem::Impl(attrs, sp, Some((tr, trsp)), ty, uns, its), out),
        !skips(c, attrs@),
        0 <= i < its@.len(),
        its@[i] matches SynImplItem::Fn(f) && !skips(c, f.attrs@),
    ensures
        out matches ScanItem::Impl(_, v) && v@[i] matches ScanItem::Fn(fi) && fi.name@ == def_text(
            c.modpath@,
            st.mods + lookup_path(st.uses, str_views(tr@)),
            its@[i]->Fn_0.ident@,
        ),
{
    let t = SynItem::Impl(attrs, sp, Some((tr, trsp)), ty, uns, its);
    assert(impl_item_rel(c, StateView { mods: st.mods + impl_scope(st.uses, Some((tr, trsp)), ty), ..st }, its@[i], out->Impl_1@[i]));
}

/// The functions of an inherent impl `impl Ty` are named under the path of the
/// type `Ty` as the imports resolve it.
pub proof fn law_inherent_impl_scoped_by_type(
    c: QuickCtx,
    st: StateView,
    attrs: Vec<CfgAttribute>,
    sp: SynSpan,
    ty: SynType,
    uns: bool,
    its: Vec<SynImplItem>,
    out: ScanItem,
    i: int,
)
    requires
        item_rel(c, st, SynItem::Impl(attrs, sp, None, ty, uns, its), out),
        !skips(c, attrs@),
        0 <= i < its@.len(),
        its@[i] matches SynImplItem::Fn(f) && !skips(c, f.attrs@),
    ensures
        out matches ScanItem::Impl(_, v) && v@[i] matches ScanItem::Fn(fi) && fi.name@ == def_text(
            c.modpath@,
            st.mods + type_scope(st.uses, ty),
            its@[i]->Fn_0.ident@,
        ),
{
    assert(impl_item_rel(c, StateView { mods: st.mods + impl_scope(st.uses, None, ty), ..st }, its@[i], out->Impl_1@[i]));
}
} // verus!
