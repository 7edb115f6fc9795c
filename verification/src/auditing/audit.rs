//! The decisions of an interactive audit: reading the auditor's answer, and
//! updating an effect tree with the annotation chosen.
use vstd::prelude::*;

use crate::audit_file::{
    contains_info, info_views, tree_info, tree_infos, EffectInfo, EffectInfoView, EffectTree,
    SafetyAnnotation,
};
use crate::effect::{Effect, EffectInstance, EffectInstanceView};
use crate::path_ops::spec_path_join;
use crate::scanner::{graph_nodes, ScanResults};

verus! {

#[derive(Debug, Clone, Copy, PartialEq, Eq, Structural)]
pub enum AuditStatus {
    EarlyExit,
    ContinueAudit,
    AuditChildEffect,
    AuditParentEffect,
    ExpandContext,
}

/// Why an annotation could not be recorded.
#[derive(Debug, Clone, Copy, PartialEq, Eq, Structural)]
pub enum UpdateError {
    /// The function of the effect is not in the call graph
    MissingCallee,
    /// A safety annotation other than caller-checked was given to a branch
    NotALeaf,
}

/// The text is the single character `c`.
pub open spec fn is_char(s: Seq<char>, c: char) -> bool {
    s.len() == 1 && s[0] == c
}

/// Whether `s` is the single character `c`.
fn is_char_exec(s: &str, c: char) -> (r: bool)
    ensures
        r == is_char(s@, c),
{
    let v = crate::text::chars_of(s);
    v.len() == 1 && v[0] == c
}

/// The answers the prompt accepts: `s`, `u`, `c`, `e`, `l`, `x`, and `o` where
/// auditing the effect's origin is offered.
pub open spec fn accepted_answer(x: Seq<char>, allow_effect_origin: bool) -> bool {
    is_char(x, 's') || is_char(x, 'u') || is_char(x, 'c') || is_char(x, 'e') || is_char(x, 'l')
        || is_char(x, 'x') || (allow_effect_origin && is_char(x, 'o'))
}

/// Whether the auditor's answer is one the prompt accepts.
pub fn answer_is_valid(x: &str, allow_effect_origin: bool) -> (r: bool)
    ensures
        r == accepted_answer(x@, allow_effect_origin),
{
    is_char_exec(x, 's') || is_char_exec(x, 'u') || is_char_exec(x, 'c') || is_char_exec(x, 'e')
        || is_char_exec(x, 'l') || is_char_exec(x, 'x') || (allow_effect_origin && is_char_exec(
        x,
        'o',
    ))
}

/// The annotation and status chosen by an answer: an annotation for `s`afe,
/// `u`nsafe, `c`aller-checked and ask me `l`ater, which continue the audit;
/// no annotation for audit the effect `o`rigin, `e`xpand the context and
/// e`x`it. Any other answer is an error.
pub fn annotation_from_answer(ans: &str) -> (r: Result<(Option<SafetyAnnotation>, AuditStatus), ()>)
    ensures
        is_char(ans@, 's') ==> r == Ok::<(Option<SafetyAnnotation>, AuditStatus), ()>((Some(SafetyAnnotation::Safe), AuditStatus::ContinueAudit)),
        is_char(ans@, 'u') ==> r == Ok::<(Option<SafetyAnnotation>, AuditStatus), ()>((Some(SafetyAnnotation::Unsafe), AuditStatus::ContinueAudit)),
        is_char(ans@, 'c') ==> r == Ok::<(Option<SafetyAnnotation>, AuditStatus), ()>((Some(SafetyAnnotation::CallerChecked), AuditStatus::ContinueAudit)),
        is_char(ans@, 'l') ==> r == Ok::<(Option<SafetyAnnotation>, AuditStatus), ()>((Some(SafetyAnnotation::Skipped), AuditStatus::ContinueAudit)),
        is_char(ans@, 'o') ==> r == Ok::<(Option<SafetyAnnotation>, AuditStatus), ()>((None, AuditStatus::AuditChildEffect)),
        is_char(ans@, 'e') ==> r == Ok::<(Option<SafetyAnnotation>, AuditStatus), ()>((None, AuditStatus::ExpandContext)),
        is_char(ans@, 'x') ==> r == Ok::<(Option<SafetyAnnotation>, AuditStatus), ()>((None, AuditStatus::EarlyExit)),
        r is Err <==> !(is_char(ans@, 's') || is_char(ans@, 'u') || is_char(ans@, 'c') || is_char(
            ans@,
            'l',
        ) || is_char(ans@, 'o') || is_char(ans@, 'e') || is_char(ans@, 'x')),
{
    if is_char_exec(ans, 's') {
        Ok((Some(SafetyAnnotation::Safe), AuditStatus::ContinueAudit))
    } else if is_char_exec(ans, 'u') {
        Ok((Some(SafetyAnnotation::Unsafe), AuditStatus::ContinueAudit))
    } else if is_char_exec(ans, 'c') {
        Ok((Some(SafetyAnnotation::CallerChecked), AuditStatus::ContinueAudit))
    } else if is_char_exec(ans, 'l') {
        Ok((Some(SafetyAnnotation::Skipped), AuditStatus::ContinueAudit))
    } else if is_char_exec(ans, 'o') {
        Ok((None, AuditStatus::AuditChildEffect))
    } else if is_char_exec(ans, 'e') {
        Ok((None, AuditStatus::ExpandContext))
    } else if is_char_exec(ans, 'x') {
        Ok((None, AuditStatus::EarlyExit))
    } else {
        Err(())
    }
}

/// Records an annotation on a node of an effect tree.
///
/// Marking a leaf caller-checked turns it into a branch whose children are the
/// callers of `curr_effect`'s function that are not already in the tree, as
/// unaudited leaves, and asks for their audit (`AuditParentEffect`); with no such
/// caller, the leaf is just annotated. A branch marked caller-checked is left
/// as it is. Any other annotation is set on the leaf, and is an error on a branch.
pub fn update_audit_annotation(
    annotation: SafetyAnnotation,
    scan_res: &ScanResults,
    effect_tree: &mut EffectTree,
    curr_effect: EffectInfo,
) -> (r: Result<AuditStatus, UpdateError>)
    requires
        scan_res.wf(),
    ensures
        annotation != SafetyAnnotation::CallerChecked ==> match *old(effect_tree) {
            EffectTree::Leaf(e, _) => r == Ok::<AuditStatus, UpdateError>(AuditStatus::ContinueAudit)
                && *final(effect_tree) == EffectTree::Leaf(e, annotation),
            EffectTree::Branch(_, _) => r == Err::<AuditStatus, UpdateError>(UpdateError::NotALeaf)
                && *final(effect_tree) == *old(effect_tree),
        },
        annotation == SafetyAnnotation::CallerChecked && *old(effect_tree) is Branch ==> r == Ok::<
            AuditStatus,
            UpdateError,
        >(AuditStatus::ContinueAudit) && *final(effect_tree) == *old(effect_tree),
        annotation == SafetyAnnotation::CallerChecked && *old(effect_tree) is Leaf ==> {
            let new_callers = scan_res.callers(curr_effect@.caller_path).filter(
                |x: EffectInfoView| !tree_infos(*old(effect_tree)).contains(x),
            );
            &&& r is Err <==> !graph_nodes(scan_res.call_graph).contains(curr_effect@.caller_path)
            &&& r is Err ==> r == Err::<AuditStatus, UpdateError>(UpdateError::MissingCallee)
                && *final(effect_tree) == *old(effect_tree)
            &&& r == Ok::<AuditStatus, UpdateError>(AuditStatus::ContinueAudit) ==> new_callers
                == Set::<EffectInfoView>::empty() && *final(effect_tree) == EffectTree::Leaf(
                old(effect_tree)->Leaf_0,
                SafetyAnnotation::CallerChecked,
            )
            &&& r == Ok::<AuditStatus, UpdateError>(AuditStatus::AuditParentEffect) ==> new_callers
                != Set::<EffectInfoView>::empty() && (*final(effect_tree) matches EffectTree::Branch(
                e,
                ts,
            ) && e@ == curr_effect@ && info_views(leaf_infos(ts@)).no_duplicates()
                && info_views(leaf_infos(ts@)).to_set() == new_callers && all_unaudited_leaves(
                ts@,
            ))
            &&& r is Ok ==> r == Ok::<AuditStatus, UpdateError>(AuditStatus::ContinueAudit) || r
                == Ok::<AuditStatus, UpdateError>(AuditStatus::AuditParentEffect)
        },
{
    match annotation {
        SafetyAnnotation::CallerChecked => {
            // If we are already in a branch, this indicates we have marked this
            // level as caller-checked already, and we don't need to update
            // anything
            if let EffectTree::Branch(_, _) = effect_tree {
                return Ok(AuditStatus::ContinueAudit);
            }
            // flatten the effect tree to look for duplicates so we don't loop
            let prev_effects = effect_tree.get_effect_infos();
            let callers = match scan_res.get_callers(&curr_effect.caller_path) {
                Ok(v) => v,
                Err(_) => {
                    return Err(UpdateError::MissingCallee);
                },
            };
            let ghost cv = info_views(callers@);
            let ghost prev = tree_infos(*effect_tree);
            // Add all call locations as parents of this effect
            let mut new_check_locs: Vec<EffectTree> = Vec::new();
            let mut i: usize = 0;
            proof {
                assert(info_views(leaf_infos(new_check_locs@)) =~= Seq::<EffectInfoView>::empty());
            }
            while i < callers.len()
                invariant
                    i <= callers.len(),
                    cv == info_views(callers@),
                    cv.no_duplicates(),
                    info_views(prev_effects@).to_set() == prev,
                    all_unaudited_leaves(new_check_locs@),
                    info_views(leaf_infos(new_check_locs@)).no_duplicates(),
                    forall|x: EffectInfoView|
                        #[trigger] info_views(leaf_infos(new_check_locs@)).contains(x) <==> (cv.take(
                            i as int,
                        ).contains(x) && !prev.contains(x)),
                decreases callers.len() - i,
            {
                let ghost before = new_check_locs@;
                let keep = !contains_info(&prev_effects, &callers[i]);
                if keep {
                    new_check_locs.push(
                        EffectTree::Leaf(callers[i].clone(), SafetyAnnotation::Skipped),
                    );
                }
                proof {
                    if keep {
                        assert(new_check_locs@.drop_last() =~= before);
                    }
                    assert(prev.contains(cv[i as int]) == info_views(prev_effects@).contains(cv[i as int]));
                    lemma_leaf_step(before, new_check_locs@, cv, i as int, prev, keep);
                }
                i = i + 1;
            }
            proof {
                assert(cv.take(callers.len() as int) =~= cv);
                let nc = scan_res.callers(curr_effect@.caller_path).filter(
                    |x: EffectInfoView| !prev.contains(x),
                );
                assert forall|x: EffectInfoView|
                    info_views(leaf_infos(new_check_locs@)).to_set().contains(x) <==> #[trigger] nc.contains(x) by {
                    assert(cv.to_set().contains(x) <==> cv.contains(x));
                    assert(info_views(leaf_infos(new_check_locs@)).to_set().contains(x)
                        <==> info_views(leaf_infos(new_check_locs@)).contains(x));
                }
                assert(info_views(leaf_infos(new_check_locs@)).to_set() =~= nc);
                if new_check_locs.len() == 0 {
                    assert(leaf_infos(new_check_locs@).len() == 0);
                    assert(nc =~= Set::<EffectInfoView>::empty());
                } else {
                    assert(info_views(leaf_infos(new_check_locs@)).to_set().contains(
                        info_views(leaf_infos(new_check_locs@))[0],
                    ));
                }
            }
            if new_check_locs.len() == 0 {
                effect_tree.set_annotation(annotation);
                Ok(AuditStatus::ContinueAudit)
            } else {
                *effect_tree = EffectTree::Branch(curr_effect, new_check_locs);
                Ok(AuditStatus::AuditParentEffect)
            }
        },
        s => {
            match effect_tree.set_annotation(s) {
                Some(_) => Ok(AuditStatus::ContinueAudit),
                None => Err(UpdateError::NotALeaf),
            }
        },
    }
}

/// The infos of a list of trees that are all leaves.
pub open spec fn leaf_infos(ts: Seq<EffectTree>) -> Seq<EffectInfo> {
    ts.map_values(|t: EffectTree| match t {
        EffectTree::Leaf(e, _) => e,
        EffectTree::Branch(e, _) => e,
    })
}

/// Every tree of the list is an unaudited leaf.
pub open spec fn all_unaudited_leaves(ts: Seq<EffectTree>) -> bool {
    forall|i: int| 0 <= i < ts.len() ==> ((#[trigger] ts[i]) matches EffectTree::Leaf(_, a) && a
        == SafetyAnnotation::Skipped)
}

proof fn lemma_leaf_step(
    before: Seq<EffectTree>,
    after: Seq<EffectTree>,
    cv: Seq<EffectInfoView>,
    i: int,
    prev: Set<EffectInfoView>,
    keep: bool,
)
    requires
        0 <= i < cv.len(),
        cv.no_duplicates(),
        all_unaudited_leaves(before),
        info_views(leaf_infos(before)).no_duplicates(),
        forall|x: EffectInfoView|
            #[trigger] info_views(leaf_infos(before)).contains(x) <==> (cv.take(i).contains(x)
                && !prev.contains(x)),
        keep == !prev.contains(cv[i]),
        keep ==> after.len() == before.len() + 1 && after.drop_last() == before,
        keep ==> (after.last() matches EffectTree::Leaf(e, a) && e@ == cv[i] && a == SafetyAnnotation::Skipped),
        !keep ==> after == before,
    ensures
        all_unaudited_leaves(after),
        info_views(leaf_infos(after)).no_duplicates(),
        forall|x: EffectInfoView|
            #[trigger] info_views(leaf_infos(after)).contains(x) <==> (cv.take(i + 1).contains(x)
                && !prev.contains(x)),
{
    let lb = info_views(leaf_infos(before));
    let la = info_views(leaf_infos(after));
    assert(cv.take(i + 1) =~= cv.take(i).push(cv[i]));
    assert(!cv.take(i).contains(cv[i])) by {
        if cv.take(i).contains(cv[i]) {
            let w = choose|w: int| 0 <= w < i && #[trigger] cv.take(i)[w] == cv[i];
            assert(cv[w] == cv[i]);
        }
    }
    if keep {
        assert(la =~= lb.push(cv[i])) by {
            assert(after =~= before.push(after.last()));
        }
        assert forall|k: int| 0 <= k < after.len() implies ((#[trigger] after[k]) matches EffectTree::Leaf(_, a) && a
            == SafetyAnnotation::Skipped) by {
            if k < before.len() {
                assert(after[k] == before[k]);
            }
        }
        assert forall|a: int, b: int| 0 <= a < b < la.len() implies la[a] != la[b] by {
            if b == lb.len() {
                assert(lb.contains(lb[a]));
            } else {
                assert(la[a] == lb[a] && la[b] == lb[b]);
            }
        }
        assert forall|x: EffectInfoView|
            #[trigger] la.contains(x) <==> (cv.take(i + 1).contains(x) && !prev.contains(x)) by {
            assert(lb.contains(x) <==> (cv.take(i).contains(x) && !prev.contains(x)));
            if la.contains(x) {
                let w = choose|w: int| 0 <= w < la.len() && #[trigger] la[w] == x;
                if w < lb.len() {
                    assert(lb[w] == x);
                    assert(lb.contains(x));
                    let u = choose|u: int| 0 <= u < i && #[trigger] cv.take(i)[u] == x;
                    assert(cv.take(i + 1)[u] == x);
                } else {
                    assert(x == cv[i]);
                    assert(cv.take(i + 1)[i] == x);
                }
            }
            if cv.take(i + 1).contains(x) && !prev.contains(x) {
                let w = choose|w: int| 0 <= w < i + 1 && #[trigger] cv.take(i + 1)[w] == x;
                if w < i {
                    assert(cv.take(i)[w] == x);
                    assert(lb.contains(x));
                    let v = choose|v: int| 0 <= v < lb.len() && #[trigger] lb[v] == x;
                    assert(la[v] == x);
                } else {
                    assert(la[lb.len() as int] == x);
                }
            }
        }
    } else {
        assert(la == lb);
        assert forall|x: EffectInfoView|
            #[trigger] la.contains(x) <==> (cv.take(i + 1).contains(x) && !prev.contains(x)) by {
            assert(lb.contains(x) <==> (cv.take(i).contains(x) && !prev.contains(x)));
            if x == cv[i] {
                assert(prev.contains(x));
            }
            if cv.take(i + 1).contains(x) && !prev.contains(x) {
                let w = choose|w: int| 0 <= w < i + 1 && #[trigger] cv.take(i + 1)[w] == x;
                if w < i {
                    assert(cv.take(i)[w] == x);
                }
            }
            if cv.take(i).contains(x) {
                let w = choose|w: int| 0 <= w < i && #[trigger] cv.take(i)[w] == x;
                assert(cv.take(i + 1)[w] == x);
            }
        }
    }
}


/// `a` comes before `b` in text order: character by character, a proper prefix
/// first (the order of strings, as their UTF-8 bytes keep the order of
/// characters).
pub open spec fn text_lt(a: Seq<char>, b: Seq<char>) -> bool
    decreases a.len(),
{
    if a.len() == 0 {
        b.len() > 0
    } else if b.len() == 0 {
        false
    } else if a[0] != b[0] {
        (a[0] as int) < (b[0] as int)
    } else {
        text_lt(a.skip(1), b.skip(1))
    }
}

proof fn lemma_text_lt_irreflexive(a: Seq<char>)
    ensures
        !text_lt(a, a),
    decreases a.len(),
{
    if a.len() > 0 {
        lemma_text_lt_irreflexive(a.skip(1));
    }
}

proof fn lemma_text_lt_transitive(a: Seq<char>, b: Seq<char>, c: Seq<char>)
    requires
        text_lt(a, b),
        text_lt(b, c),
    ensures
        text_lt(a, c),
    decreases a.len(),
{
    if a.len() > 0 && b.len() > 0 && c.len() > 0 && a[0] == b[0] && b[0] == c[0] {
        lemma_text_lt_transitive(a.skip(1), b.skip(1), c.skip(1));
    }
}

proof fn lemma_text_lt_total(a: Seq<char>, b: Seq<char>)
    ensures
        text_lt(a, b) || text_lt(b, a) || a == b,
    decreases a.len(),
{
    if a.len() > 0 && b.len() > 0 && a[0] == b[0] {
        lemma_text_lt_total(a.skip(1), b.skip(1));
        if a.skip(1) == b.skip(1) {
            assert(a =~= seq![a[0]] + a.skip(1));
            assert(b =~= seq![b[0]] + b.skip(1));
        }
    } else if a.len() == 0 && b.len() == 0 {
        assert(a =~= b);
    }
}

/// The place of a base effect in the order of an audit: the path of its file,
/// then its line, then its column.
pub open spec fn loc_key(e: EffectInstanceView) -> (Seq<char>, usize, usize) {
    (spec_path_join(e.call_loc.dir, e.call_loc.file), e.call_loc.start_line, e.call_loc.start_col)
}

/// `a` comes strictly before `b`: by path, then line, then column.
pub open spec fn key_lt(a: (Seq<char>, usize, usize), b: (Seq<char>, usize, usize)) -> bool {
    text_lt(a.0, b.0) || (a.0 == b.0 && (a.1 < b.1 || (a.1 == b.1 && a.2 < b.2)))
}

proof fn lemma_key_lt_order(a: (Seq<char>, usize, usize), b: (Seq<char>, usize, usize), c: (Seq<char>, usize, usize))
    ensures
        !key_lt(a, a),
        key_lt(a, b) && key_lt(b, c) ==> key_lt(a, c),
        key_lt(a, b) || key_lt(b, a) || a == b,
        key_lt(a, b) ==> !key_lt(b, a),
{
    lemma_text_lt_irreflexive(a.0);
    lemma_text_lt_total(a.0, b.0);
    if text_lt(a.0, b.0) && text_lt(b.0, c.0) {
        lemma_text_lt_transitive(a.0, b.0, c.0);
    }
    if text_lt(a.0, b.0) && text_lt(b.0, a.0) {
        lemma_text_lt_transitive(a.0, b.0, a.0);
    }
}

/// Whether `a` comes before `b` in text order.
fn text_lt_exec(a: &str, b: &str) -> (r: bool)
    ensures
        r == text_lt(a@, b@),
{
    let va = crate::text::chars_of(a);
    let vb = crate::text::chars_of(b);
    let mut i: usize = 0;
    assert(a@.skip(0) =~= a@);
    assert(b@.skip(0) =~= b@);
    while i < va.len() && i < vb.len()
        invariant
            va@ == a@,
            vb@ == b@,
            i <= va.len(),
            i <= vb.len(),
            va@.take(i as int) == vb@.take(i as int),
            text_lt(a@, b@) == text_lt(a@.skip(i as int), b@.skip(i as int)),
        decreases va.len() - i,
    {
        let ca = va[i];
        let cb = vb[i];
        proof {
            assert(a@.skip(i as int)[0] == ca);
            assert(b@.skip(i as int)[0] == cb);
            assert(a@.skip(i as int).skip(1) =~= a@.skip(i + 1));
            assert(b@.skip(i as int).skip(1) =~= b@.skip(i + 1));
        }
        if ca != cb {
            return ca < cb;
        }
        assert(va@.take(i + 1) =~= va@.take(i as int).push(ca));
        assert(vb@.take(i + 1) =~= vb@.take(i as int).push(cb));
        i = i + 1;
    }
    proof {
        assert(a@.skip(i as int).len() == a@.len() - i);
        assert(b@.skip(i as int).len() == b@.len() - i);
    }
    i == va.len() && i < vb.len()
}

/// The order in which an audit presents its base effects: the indices of its
/// trees sorted by the location of their base effect (file path, then line,
/// then column), trees at the same place in the order they are listed.
pub fn audit_order(trees: &Vec<(EffectInstance, EffectTree)>) -> (r: Vec<usize>)
    ensures
        r@.len() == trees@.len(),
        r@.no_duplicates(),
        forall|i: int| 0 <= i < r@.len() ==> #[trigger] r@[i] < trees@.len(),
        forall|i: int, j: int|
            0 <= i < j < r@.len() ==> !key_lt(
                loc_key(trees@[r@[j] as int].0@),
                loc_key(trees@[r@[i] as int].0@),
            ),
        forall|i: int, j: int|
            0 <= i < j < r@.len() && loc_key(trees@[r@[i] as int].0@) == loc_key(
                trees@[r@[j] as int].0@,
            ) ==> r@[i] < r@[j],
{
    let n = trees.len();
    let mut keys: Vec<(String, usize, usize)> = Vec::new();
    let mut k: usize = 0;
    while k < n
        invariant
            n == trees.len(),
            k <= n,
            keys@.len() == k,
            forall|m: int| 0 <= m < k ==> (#[trigger] keys@[m]).0@ == loc_key(trees@[m].0@).0
                && keys@[m].1 == loc_key(trees@[m].0@).1 && keys@[m].2 == loc_key(trees@[m].0@).2,
        decreases n - k,
    {
        let l = trees[k].0.call_loc();
        keys.push((l.filepath_string(), l.start_line(), l.start_col()));
        k = k + 1;
    }
    let ghost key = |m: int| loc_key(trees@[m].0@);
    let mut used: Vec<bool> = Vec::new();
    let mut m: usize = 0;
    while m < n
        invariant
            m <= n,
            used@.len() == m,
            forall|q: int| 0 <= q < m ==> !(#[trigger] used@[q]),
        decreases n - m,
    {
        used.push(false);
        m = m + 1;
    }
    let mut r: Vec<usize> = Vec::new();
    while r.len() < n
        invariant
            n == trees.len(),
            keys@.len() == n,
            forall|m: int| 0 <= m < n ==> (#[trigger] keys@[m]).0@ == key(m).0 && keys@[m].1
                == key(m).1 && keys@[m].2 == key(m).2,
            used@.len() == n,
            r@.len() <= n,
            r@.no_duplicates(),
            forall|i: int| 0 <= i < r@.len() ==> #[trigger] r@[i] < n,
            forall|q: int| 0 <= q < n ==> (#[trigger] used@[q] <==> r@.contains(q as usize)),
            // sorted so far, and everything chosen is no later than what is left
            forall|i: int, j: int|
                0 <= i < j < r@.len() ==> !key_lt(key(r@[j] as int), key(r@[i] as int)),
            forall|i: int, q: int|
                #![trigger r@[i], used@[q]]
                0 <= i < r@.len() && 0 <= q < n && !used@[q] ==> !key_lt(
                    key(q),
                    key(r@[i] as int),
                ) && (key(q) == key(r@[i] as int) ==> r@[i] < q),
            forall|i: int, j: int|
                0 <= i < j < r@.len() && key(r@[i] as int) == key(r@[j] as int) ==> r@[i] < r@[j],
        decreases n - r.len(),
    {
        // find the first unused index whose key is smallest
        let mut best: usize = n;
        let mut q: usize = 0;
        while q < n
            invariant
                n == trees.len(),
                keys@.len() == n,
                used@.len() == n,
                forall|m: int| 0 <= m < n ==> (#[trigger] keys@[m]).0@ == key(m).0 && keys@[m].1
                    == key(m).1 && keys@[m].2 == key(m).2,
                q <= n,
                best == n || (best < q && !used@[best as int]),
                best == n ==> forall|p: int| 0 <= p < q ==> #[trigger] used@[p],
                best < n ==> forall|p: int|
                    0 <= p < q && !(#[trigger] used@[p]) ==> !key_lt(key(p), key(best as int)) && (
                    key(p) == key(best as int) ==> best <= p),
            decreases n - q,
        {
            if !used[q] {
                let better = if best == n {
                    true
                } else {
                    let kq = &keys[q];
                    let kb = &keys[best];
                    let lt_path = text_lt_exec(kq.0.as_str(), kb.0.as_str());
                    let same_path = crate::text::str_eq(kq.0.as_str(), kb.0.as_str());
                    lt_path || (same_path && (kq.1 < kb.1 || (kq.1 == kb.1 && kq.2 < kb.2)))
                };
                if better {
                    proof {
                        if best < n {
                            assert(key_lt(key(q as int), key(best as int)));
                            assert forall|p: int|
                                0 <= p < q + 1 && !(#[trigger] used@[p]) implies !key_lt(
                                key(p),
                                key(q as int),
                            ) && (key(p) == key(q as int) ==> q <= p) by {
                                lemma_key_lt_order(key(p), key(best as int), key(q as int));
                                lemma_key_lt_order(key(q as int), key(best as int), key(p));
                                lemma_key_lt_order(key(p), key(q as int), key(best as int));
                            }
                        } else {
                            assert forall|p: int|
                                0 <= p < q + 1 && !(#[trigger] used@[p]) implies !key_lt(
                                key(p),
                                key(q as int),
                            ) && (key(p) == key(q as int) ==> q <= p) by {
                                lemma_key_lt_order(key(p), key(p), key(p));
                            }
                        }
                    }
                    best = q;
                } else {
                    proof {
                        assert(!key_lt(key(q as int), key(best as int)));
                        lemma_key_lt_order(key(q as int), key(best as int), key(q as int));
                    }
                }
            }
            q = q + 1;
        }
        proof {
            if best == n {
                // everything is used, so `r` already holds every index
                assert forall|p: int| 0 <= p < n implies #[trigger] r@.contains(p as usize) by {
                    assert(used@[p]);
                }
                lemma_full(r@, n as int);
            }
        }
        let ghost r0 = r@;
        proof {
            // `best` is not used yet, so it is not chosen yet
            assert(!used@[best as int]);
            assert(!r0.contains(best));
        }
        r.push(best);
        used.set(best, true);
        proof {
            assert forall|a: int, b: int| 0 <= a < r@.len() && 0 <= b < r@.len() && a != b implies r@[a] != r@[b] by {
                if a < r0.len() && b < r0.len() {
                } else if a < r0.len() {
                    assert(r0.contains(r0[a]));
                } else if b < r0.len() {
                    assert(r0.contains(r0[b]));
                }
            }
            assert forall|q: int| 0 <= q < n implies (#[trigger] used@[q] <==> r@.contains(q as usize)) by {
                if q == best {
                    assert(r@[r0.len() as int] == best);
                } else {
                    if r@.contains(q as usize) {
                        let w = choose|w: int| 0 <= w < r@.len() && r@[w] == q as usize;
                        assert(w < r0.len());
                        assert(r0[w] == q as usize);
                    }
                    if r0.contains(q as usize) {
                        let w = choose|w: int| 0 <= w < r0.len() && r0[w] == q as usize;
                        assert(r@[w] == q as usize);
                    }
                }
            }
            assert forall|i: int, j: int|
                0 <= i < j < r@.len() implies !key_lt(key(r@[j] as int), key(r@[i] as int)) by {
                if j == r0.len() {
                    assert(r@[i] == r0[i]);
                }
            }
            assert forall|i: int, j: int|
                0 <= i < j < r@.len() && key(r@[i] as int) == key(r@[j] as int) implies r@[i] < r@[j] by {
                if j == r0.len() {
                    assert(r@[i] == r0[i]);
                }
            }
            assert forall|i: int, q: int|
                #![trigger r@[i], used@[q]]
                0 <= i < r@.len() && 0 <= q < n && !used@[q] implies !key_lt(
                key(q),
                key(r@[i] as int),
            ) && (key(q) == key(r@[i] as int) ==> r@[i] < q) by {
                assert(q != best as int);
                if i < r0.len() {
                    assert(r@[i] == r0[i]);
                } else {
                    assert(r@[i] == best);
                }
            }
        }
    }
    r
}

/// Distinct indices below `n` that take every index below `n` are `n` in number.
proof fn lemma_full(r: Seq<usize>, n: int)
    requires
        0 <= n <= usize::MAX,
        r.no_duplicates(),
        forall|i: int| 0 <= i < r.len() ==> #[trigger] r[i] < n,
        forall|p: int| 0 <= p < n ==> #[trigger] r.contains(p as usize),
    ensures
        r.len() == n,
{
    let ri = r.map_values(|x: usize| x as int);
    assert forall|a: int, b: int| 0 <= a < ri.len() && 0 <= b < ri.len() && a != b implies ri[a] != ri[b] by {
        assert(r[a] != r[b]);
    }
    ri.unique_seq_to_set();
    vstd::set_lib::lemma_int_range(0, n);
    assert forall|p: int| #[trigger] vstd::set_lib::set_int_range(0, n).contains(p) implies ri.to_set().contains(p) by {
        assert(r.contains(p as usize));
        let w = choose|w: int| 0 <= w < r.len() && r[w] == p as usize;
        assert(ri[w] == p);
    }
    assert forall|p: int| #[trigger] ri.to_set().contains(p) implies vstd::set_lib::set_int_range(0, n).contains(p) by {
        let w = choose|w: int| 0 <= w < ri.len() && ri[w] == p;
        assert(r[w] < n);
    }
    assert(ri.to_set() =~= vstd::set_lib::set_int_range(0, n));
}


/// The annotation recorded for a function pointer's callee: that of the first
/// entry for it.
pub open spec fn fn_ptr_lookup(m: Seq<(Seq<char>, SafetyAnnotation)>, k: Seq<char>) -> Option<
    SafetyAnnotation,
>
    decreases m.len(),
{
    if m.len() == 0 {
        None
    } else if m[0].0 == k {
        Some(m[0].1)
    } else {
        fn_ptr_lookup(m.drop_first(), k)
    }
}

/// The view of the function pointer annotations.
pub open spec fn fn_ptr_views(m: Seq<(String, SafetyAnnotation)>) -> Seq<(Seq<char>, SafetyAnnotation)> {
    m.map_values(|e: (String, SafetyAnnotation)| (e.0@, e.1))
}

/// What to do with a base effect when the audit reaches it.
#[derive(Debug, Clone, Copy, PartialEq, Eq, Structural)]
pub enum BaseStep {
    /// Annotated already: nothing to do
    Skip,
    /// A function pointer whose callee was annotated before: that annotation
    /// was copied
    Reused,
    /// To be shown to the auditor
    Audit,
}

/// The decision for a base effect with tree `tree` when the audit reaches it,
/// and the tree after it.
pub open spec fn base_decision(
    effect: EffectInstanceView,
    tree: EffectTree,
    fns: Seq<(Seq<char>, SafetyAnnotation)>,
) -> (BaseStep, EffectTree) {
    match tree {
        EffectTree::Leaf(info, a) => if a == SafetyAnnotation::Skipped {
            if effect.eff_type is FnPtrCreation && fn_ptr_lookup(fns, effect.callee) is Some {
                (BaseStep::Reused, EffectTree::Leaf(info, fn_ptr_lookup(fns, effect.callee)->Some_0))
            } else {
                (BaseStep::Audit, tree)
            }
        } else {
            (BaseStep::Skip, tree)
        },
        EffectTree::Branch(_, _) => (BaseStep::Audit, tree),
    }
}

/// The first decision for a base effect in an audit: an effect already
/// annotated is skipped; an unaudited function pointer creation whose callee
/// the auditor already annotated gets that annotation; anything else (an
/// unaudited leaf, or a branch) is audited.
pub fn start_base(
    effect: &EffectInstance,
    tree: &mut EffectTree,
    fn_ptr_effects: &Vec<(String, SafetyAnnotation)>,
) -> (r: BaseStep)
    ensures
        (r, *final(tree)) == base_decision(effect@, *old(tree), fn_ptr_views(fn_ptr_effects@)),
{
    match tree.get_leaf_annotation() {
        Some(SafetyAnnotation::Skipped) => {
            // Check if we have already audited the same function
            // pointer effect and don't show it to the user again
            if matches!(effect.eff_type(), Effect::FnPtrCreation) {
                match lookup_fn_ptr(fn_ptr_effects, effect.callee_path()) {
                    Some(a) => {
                        tree.set_annotation(a);
                        return BaseStep::Reused;
                    },
                    None => {},
                }
            }
            BaseStep::Audit
        },
        Some(_) => BaseStep::Skip,
        None => BaseStep::Audit,
    }
}

/// The annotation recorded for `callee`, if any.
fn lookup_fn_ptr(m: &Vec<(String, SafetyAnnotation)>, callee: &str) -> (r: Option<SafetyAnnotation>)
    ensures
        r == fn_ptr_lookup(fn_ptr_views(m@), callee@),
{
    let ghost mv = fn_ptr_views(m@);
    let mut i: usize = 0;
    assert(mv.subrange(0, mv.len() as int) =~= mv);
    while i < m.len()
        invariant
            i <= m.len(),
            mv == fn_ptr_views(m@),
            fn_ptr_lookup(mv, callee@) == fn_ptr_lookup(mv.subrange(i as int, mv.len() as int), callee@),
        decreases m.len() - i,
    {
        let ghost rest = mv.subrange(i as int, mv.len() as int);
        assert(rest[0] == mv[i as int]);
        assert(rest.drop_first() =~= mv.subrange(i + 1, mv.len() as int));
        if crate::text::str_eq(m[i].0.as_str(), callee) {
            return Some(m[i].1);
        }
        i = i + 1;
    }
    None
}

/// How the audit goes on after a base effect was audited.
#[derive(Debug, Clone, Copy, PartialEq, Eq, Structural)]
pub enum AuditFlow {
    /// On to the next base effect
    Next,
    /// The auditor stopped the audit
    Stop,
    /// The effect's origin in a dependency is to be audited next
    AuditChild,
}

/// The decision after a base effect that was an unaudited leaf has been
/// audited: stop or go to the dependency as the status asks; otherwise, for a
/// function pointer creation now annotated, remember the annotation for its
/// callee (replacing an earlier one). A status asking to audit the parent
/// effect cannot come here and is an error.
pub fn finish_base(
    effect: &EffectInstance,
    tree: &EffectTree,
    status: AuditStatus,
    fn_ptr_effects: &mut Vec<(String, SafetyAnnotation)>,
) -> (r: Result<AuditFlow, ()>)
    requires
        status != AuditStatus::AuditParentEffect && status != AuditStatus::EarlyExit && status
            != AuditStatus::AuditChildEffect && effect@.eff_type is FnPtrCreation ==> (*tree is Leaf),
    ensures
        status == AuditStatus::EarlyExit ==> r == Ok::<AuditFlow, ()>(AuditFlow::Stop)
            && final(fn_ptr_effects)@ == old(fn_ptr_effects)@,
        status == AuditStatus::AuditChildEffect ==> r == Ok::<AuditFlow, ()>(AuditFlow::AuditChild)
            && final(fn_ptr_effects)@ == old(fn_ptr_effects)@,
        status == AuditStatus::AuditParentEffect ==> r == Err::<AuditFlow, ()>(()) && final(fn_ptr_effects)@ == old(
            fn_ptr_effects,
        )@,
        (status == AuditStatus::ContinueAudit || status == AuditStatus::ExpandContext) ==> {
            &&& r == Ok::<AuditFlow, ()>(AuditFlow::Next)
            &&& if effect@.eff_type is FnPtrCreation && tree->Leaf_1 != SafetyAnnotation::Skipped {
                forall|k: Seq<char>|
                    #[trigger] fn_ptr_lookup(fn_ptr_views(final(fn_ptr_effects)@), k) == if k
                        == effect@.callee {
                        Some(tree->Leaf_1)
                    } else {
                        fn_ptr_lookup(fn_ptr_views(old(fn_ptr_effects)@), k)
                    }
            } else {
                final(fn_ptr_effects)@ == old(fn_ptr_effects)@
            }
        },
{
    match status {
        AuditStatus::EarlyExit => Ok(AuditFlow::Stop),
        AuditStatus::AuditChildEffect => Ok(AuditFlow::AuditChild),
        AuditStatus::AuditParentEffect => Err(()),
        _ => {
            // Keep track of the safety annotations for function pointers
            if matches!(effect.eff_type(), Effect::FnPtrCreation) {
                match tree.get_leaf_annotation() {
                    Some(a) => {
                        if a != SafetyAnnotation::Skipped {
                            record_fn_ptr(fn_ptr_effects, effect.callee_path(), a);
                        }
                    },
                    None => {},
                }
            }
            Ok(AuditFlow::Next)
        },
    }
}

/// Records `a` as the annotation of `callee`, replacing the one it had.
fn record_fn_ptr(m: &mut Vec<(String, SafetyAnnotation)>, callee: &str, a: SafetyAnnotation)
    ensures
        forall|k: Seq<char>|
            #[trigger] fn_ptr_lookup(fn_ptr_views(final(m)@), k) == if k == callee@ {
                Some(a)
            } else {
                fn_ptr_lookup(fn_ptr_views(old(m)@), k)
            },
{
    let ghost m0 = fn_ptr_views(m@);
    let mut i: usize = 0;
    while i < m.len()
        invariant
            i <= m.len(),
            fn_ptr_views(m@) == m0,
            m0 == fn_ptr_views(old(m)@),
            forall|j: int| 0 <= j < i ==> m0[j].0 != callee@,
        decreases m.len() - i,
    {
        if crate::text::str_eq(m[i].0.as_str(), callee) {
            assert(m0[i as int].0 == callee@);
            let key = crate::text::copy_string(callee);
            m.set(i, (key, a));
            proof {
                let m1 = fn_ptr_views(m@);
                assert(m1 =~= m0.update(i as int, (callee@, a)));
                lemma_lookup_update(m0, i as int, callee@, a);
            }
            return;
        }
        i = i + 1;
    }
    m.push((crate::text::copy_string(callee), a));
    proof {
        assert(fn_ptr_views(m@) =~= m0.push((callee@, a)));
        lemma_lookup_push(m0, callee@, a);
    }
}

proof fn lemma_lookup_update(m: Seq<(Seq<char>, SafetyAnnotation)>, i: int, k: Seq<char>, a: SafetyAnnotation)
    requires
        0 <= i < m.len(),
        m[i].0 == k,
        forall|j: int| 0 <= j < i ==> m[j].0 != k,
    ensures
        forall|q: Seq<char>|
            #[trigger] fn_ptr_lookup(m.update(i, (k, a)), q) == if q == k {
                Some(a)
            } else {
                fn_ptr_lookup(m, q)
            },
    decreases i,
{
    assert forall|q: Seq<char>|
        #[trigger] fn_ptr_lookup(m.update(i, (k, a)), q) == if q == k {
            Some(a)
        } else {
            fn_ptr_lookup(m, q)
        } by {
        let m2 = m.update(i, (k, a));
        assert(m2.len() == m.len());
        assert(fn_ptr_lookup(m2, q) == if m2[0].0 == q {
            Some(m2[0].1)
        } else {
            fn_ptr_lookup(m2.drop_first(), q)
        });
        assert(fn_ptr_lookup(m, q) == if m[0].0 == q {
            Some(m[0].1)
        } else {
            fn_ptr_lookup(m.drop_first(), q)
        });
        if i == 0 {
            assert(m2[0] == (k, a));
            assert(m2.drop_first() =~= m.drop_first());
        } else {
            assert(m2[0] == m[0]);
            assert(m[0].0 != k);
            assert(m2.drop_first() =~= m.drop_first().update(i - 1, (k, a)));
            assert forall|j: int| 0 <= j < i - 1 implies m.drop_first()[j].0 != k by {
                assert(m.drop_first()[j] == m[j + 1]);
            }
            lemma_lookup_update(m.drop_first(), i - 1, k, a);
        }
    }
}

proof fn lemma_lookup_push(m: Seq<(Seq<char>, SafetyAnnotation)>, k: Seq<char>, a: SafetyAnnotation)
    requires
        forall|j: int| 0 <= j < m.len() ==> m[j].0 != k,
    ensures
        forall|q: Seq<char>|
            #[trigger] fn_ptr_lookup(m.push((k, a)), q) == if q == k {
                Some(a)
            } else {
                fn_ptr_lookup(m, q)
            },
    decreases m.len(),
{
    assert forall|q: Seq<char>|
        #[trigger] fn_ptr_lookup(m.push((k, a)), q) == if q == k {
            Some(a)
        } else {
            fn_ptr_lookup(m, q)
        } by {
        let m2 = m.push((k, a));
        assert(fn_ptr_lookup(m2, q) == if m2[0].0 == q {
            Some(m2[0].1)
        } else {
            fn_ptr_lookup(m2.drop_first(), q)
        });
        if m.len() > 0 {
            assert(fn_ptr_lookup(m, q) == if m[0].0 == q {
                Some(m[0].1)
            } else {
                fn_ptr_lookup(m.drop_first(), q)
            });
            assert(m2[0] == m[0]);
            assert(m[0].0 != k);
            assert(m2.drop_first() =~= m.drop_first().push((k, a)));
            assert forall|j: int| 0 <= j < m.drop_first().len() implies m.drop_first()[j].0 != k by {
                assert(m.drop_first()[j] == m[j + 1]);
            }
            lemma_lookup_push(m.drop_first(), k, a);
        } else {
            assert(m2[0] == (k, a));
            assert(m2.drop_first() =~= Seq::<(Seq<char>, SafetyAnnotation)>::empty());
        }
    }
}

} // verus!
