//! Inferring the module of a source file from its path (a heuristic: the
//! components after `src`, without `main.rs`, `lib.rs` and `.rs`).
use vstd::prelude::*;

use crate::text::{copy_string, join_sep, push_sep, push_str, str_eq};

verus! {

/// What iterating `Path::iter` over a path gives: its components as text.
pub uninterp spec fn spec_path_components(p: Seq<char>) -> Seq<Seq<char>>;

/// Calls `std::path::Path::iter`; the result is the name `spec_path_components`
/// applied to the path. Nothing more about the name is stated.
#[verifier::external_body]
fn path_components(p: &str) -> (r: Vec<String>)
    ensures
        r@.map_values(|s: String| s@) == spec_path_components(p@),
{
    std::path::Path::new(p).iter().map(|x| x.to_string_lossy().to_string()).collect()
}

/// `s` with every `.rs` removed, from left to right.
pub open spec fn remove_rs(s: Seq<char>) -> Seq<char>
    decreases s.len(),
{
    if s.len() == 0 {
        s
    } else if s.len() >= 3 && s[0] == '.' && s[1] == 'r' && s[2] == 's' {
        remove_rs(s.skip(3))
    } else {
        seq![s[0]] + remove_rs(s.skip(1))
    }
}

/// The index of the first component that is `src` or `lib.rs` (the length if none).
pub open spec fn src_index(c: Seq<Seq<char>>) -> nat
    decreases c.len(),
{
    if c.len() == 0 {
        0
    } else if c[0] == "src"@ || c[0] == "lib.rs"@ {
        0
    } else {
        1 + src_index(c.skip(1))
    }
}

/// The module names of the components: neither `main.rs` nor `lib.rs`, with
/// `.rs` removed.
pub open spec fn module_names(c: Seq<Seq<char>>) -> Seq<Seq<char>>
    decreases c.len(),
{
    if c.len() == 0 {
        Seq::empty()
    } else {
        let rest = module_names(c.drop_last());
        let x = c.last();
        if x == "main.rs"@ || x == "lib.rs"@ {
            rest
        } else {
            rest.push(remove_rs(x))
        }
    }
}

/// The modules inferred from a file's path components: the module names of the
/// components after the first `src` or `lib.rs`.
pub open spec fn infer_module_spec(c: Seq<Seq<char>>) -> Seq<Seq<char>> {
    let k = src_index(c);
    if k < c.len() {
        module_names(c.skip(k as int + 1))
    } else {
        Seq::empty()
    }
}

fn remove_rs_exec(s: &str) -> (r: String)
    ensures
        r@ == remove_rs(s@),
{
    let v = crate::text::chars_of(s);
    let mut out: Vec<char> = Vec::new();
    let mut i: usize = 0;
    assert(v@.skip(0) =~= v@);
    assert(out@ + remove_rs(v@) =~= remove_rs(v@));
    while i < v.len()
        invariant
            v@ == s@,
            i <= v.len(),
            out@ + remove_rs(v@.skip(i as int)) == remove_rs(v@),
        decreases v.len() - i,
    {
        let ghost rest = v@.skip(i as int);
        if v.len() - i >= 3 && v[i] == '.' && v[i + 1] == 'r' && v[i + 2] == 's' {
            assert(rest.skip(3) =~= v@.skip(i + 3));
            i = i + 3;
        } else {
            assert(rest.skip(1) =~= v@.skip(i + 1));
            out.push(v[i]);
            assert(out@ + remove_rs(v@.skip(i + 1)) =~= remove_rs(v@)) by {
                assert(remove_rs(rest) == seq![v@[i as int]] + remove_rs(rest.skip(1)));
                assert(out@ =~= out@.drop_last().push(v@[i as int]));
            }
            i = i + 1;
        }
    }
    assert(v@.skip(i as int) =~= Seq::<char>::empty());
    assert(out@ + Seq::<char>::empty() =~= out@);
    crate::text::from_chars(&out)
}

proof fn lemma_src_index(c: Seq<Seq<char>>)
    ensures
        src_index(c) <= c.len(),
        forall|j: int| 0 <= j < src_index(c) ==> #[trigger] c[j] != "src"@ && c[j] != "lib.rs"@,
        src_index(c) < c.len() ==> (c[src_index(c) as int] == "src"@ || c[src_index(c) as int]
            == "lib.rs"@),
    decreases c.len(),
{
    if c.len() > 0 && !(c[0] == "src"@ || c[0] == "lib.rs"@) {
        lemma_src_index(c.skip(1));
        assert forall|j: int| 0 <= j < src_index(c) implies #[trigger] c[j] != "src"@ && c[j] != "lib.rs"@ by {
            if j > 0 {
                assert(c.skip(1)[j - 1] == c[j]);
            }
        }
    }
}

pub fn infer_module(filepath: &str) -> (r: Vec<String>)
    ensures
        r@.map_values(|s: String| s@) == infer_module_spec(spec_path_components(filepath@)),
{
    let comps = path_components(filepath);
    let ghost cv = comps@.map_values(|s: String| s@);
    // skip to the first `src` or `lib.rs`
    let mut k: usize = 0;
    while k < comps.len()
        invariant
            k <= comps.len(),
            cv == comps@.map_values(|s: String| s@),
            forall|j: int| 0 <= j < k ==> #[trigger] cv[j] != "src"@ && cv[j] != "lib.rs"@,
        ensures
            k <= comps.len(),
            forall|j: int| 0 <= j < k ==> #[trigger] cv[j] != "src"@ && cv[j] != "lib.rs"@,
            k < comps.len() ==> (cv[k as int] == "src"@ || cv[k as int] == "lib.rs"@),
        decreases comps.len() - k,
    {
        if str_eq(comps[k].as_str(), "src") || str_eq(comps[k].as_str(), "lib.rs") {
            break;
        }
        k = k + 1;
    }
    proof {
        lemma_src_index(cv);
        if src_index(cv) < k {
            assert(cv[src_index(cv) as int] != "src"@);
        }
        if k < src_index(cv) {
            assert(cv[k as int] != "src"@ && cv[k as int] != "lib.rs"@);
        }
    }
    let mut post_src: Vec<String> = Vec::new();
    if k < comps.len() {
        let ghost tail = cv.skip(k as int + 1);
        let mut i: usize = k + 1;
        proof {
            assert(tail.take(0) =~= Seq::<Seq<char>>::empty());
            assert(post_src@.map_values(|s: String| s@) =~= Seq::<Seq<char>>::empty());
        }
        while i < comps.len()
            invariant
                k < comps.len(),
                k + 1 <= i <= comps.len(),
                cv == comps@.map_values(|s: String| s@),
                tail == cv.skip(k as int + 1),
                post_src@.map_values(|s: String| s@) == module_names(tail.take(i - k - 1)),
            decreases comps.len() - i,
        {
            let ghost before = post_src@;
            let x = &comps[i];
            proof {
                assert(tail.take(i - k) =~= tail.take(i - k - 1).push(cv[i as int]));
                assert(tail.take(i - k).drop_last() =~= tail.take(i - k - 1));
            }
            if !(str_eq(x.as_str(), "main.rs") || str_eq(x.as_str(), "lib.rs")) {
                post_src.push(remove_rs_exec(x.as_str()));
                assert(post_src@.map_values(|s: String| s@) =~= before.map_values(|s: String| s@).push(
                    remove_rs(cv[i as int]),
                ));
            }
            i = i + 1;
        }
        proof {
            assert(tail.take(comps.len() - k - 1) =~= tail);
        }
    } else {
        assert(post_src@.map_values(|s: String| s@) =~= Seq::<Seq<char>>::empty());
    }
    post_src
}

/// The inferred path of a file's module: the crate name, then the inferred
/// modules, joined with `::`.
pub fn infer_fully_qualified_prefix(crate_name: &str, filepath: &str) -> (r: String)
    ensures
        r@ == join_sep(seq![crate_name@] + infer_module_spec(spec_path_components(filepath@))),
{
    let mods = infer_module(filepath);
    let ghost mv = mods@.map_values(|s: String| s@);
    let mut s = copy_string(crate_name);
    let mut i: usize = 0;
    proof {
        assert(seq![crate_name@] + mv.take(0) =~= seq![crate_name@]);
    }
    while i < mods.len()
        invariant
            i <= mods.len(),
            mv == mods@.map_values(|s: String| s@),
            s@ == join_sep(seq![crate_name@] + mv.take(i as int)),
        decreases mods.len() - i,
    {
        push_sep(&mut s);
        push_str(&mut s, mods[i].as_str());
        proof {
            let p = seq![crate_name@] + mv.take(i + 1);
            assert(p.drop_last() =~= seq![crate_name@] + mv.take(i as int));
            assert(p.last() == mv[i as int]);
        }
        i = i + 1;
    }
    proof {
        assert(mv.take(mods.len() as int) =~= mv);
    }
    s
}

} // verus!
