//! The walk through one effect tree in an interactive audit.
//!
//! A node of a tree is reached by a path: the positions of the children taken
//! from the root. The auditor is asked about the leaves in the order of their
//! paths (a path before its extensions, smaller positions first); marking a
//! leaf caller-checked may turn it into a branch whose new leaves come next.
use vstd::prelude::*;

use crate::audit_file::{
    forest_has_unsafe, info_views, tree_has_unsafe, tree_infos, trees_have_unsafe, AuditFile, EffectInfo,
    EffectInfoView, EffectTree, SafetyAnnotation,
};
use crate::auditing::audit::{
    accepted_answer, all_unaudited_leaves, annotation_from_answer, answer_is_valid, is_char, leaf_infos,
    update_audit_annotation, AuditStatus, UpdateError,
};
use crate::scanner::{graph_nodes, ScanResults};

verus! {

/// The node at path `p`, if the path leads to one.
pub open spec fn node_at(t: EffectTree, p: Seq<usize>) -> Option<EffectTree>
    decreases p.len(),
{
    if p.len() == 0 {
        Some(t)
    } else {
        match t {
            EffectTree::Leaf(_, _) => None,
            EffectTree::Branch(_, ts) => if p[0] < ts@.len() {
                node_at(ts@[p[0] as int], p.drop_first())
            } else {
                None
            },
        }
    }
}

/// Path `p` leads to a leaf.
pub open spec fn leaf_at(t: EffectTree, p: Seq<usize>) -> bool {
    node_at(t, p) matches Some(EffectTree::Leaf(_, _))
}

/// The order in which the nodes of a tree are visited: a path comes before its
/// extensions, and at the first position where two paths differ, the smaller
/// position comes first.
pub open spec fn path_lt(p: Seq<usize>, q: Seq<usize>) -> bool
    decreases p.len(),
{
    if q.len() == 0 {
        false
    } else if p.len() == 0 {
        true
    } else if p[0] < q[0] {
        true
    } else if p[0] == q[0] {
        path_lt(p.drop_first(), q.drop_first())
    } else {
        false
    }
}

/// `q` is the first leaf of `t` in visiting order.
pub open spec fn is_first_leaf(t: EffectTree, q: Seq<usize>) -> bool {
    &&& leaf_at(t, q)
    &&& forall|q2: Seq<usize>| #[trigger] leaf_at(t, q2) ==> q2 == q || path_lt(q, q2)
}

/// `q` is the first leaf of `t` visited after the node at `p`.
pub open spec fn is_next_leaf(t: EffectTree, p: Seq<usize>, q: Seq<usize>) -> bool {
    &&& leaf_at(t, q)
    &&& path_lt(p, q)
    &&& forall|q2: Seq<usize>| #[trigger] leaf_at(t, q2) && path_lt(p, q2) ==> q2 == q || path_lt(q, q2)
}

/// No leaf of `t` is visited after the node at `p`.
pub open spec fn no_leaf_after(t: EffectTree, p: Seq<usize>) -> bool {
    forall|q2: Seq<usize>| #[trigger] leaf_at(t, q2) ==> !path_lt(p, q2)
}

/// The effect infos of the nodes above the one at `p`, from the root down.
pub open spec fn history_at(t: EffectTree, p: Seq<usize>) -> Seq<EffectInfoView>
    decreases p.len(),
{
    if p.len() == 0 {
        Seq::empty()
    } else {
        match t {
            EffectTree::Leaf(_, _) => Seq::empty(),
            EffectTree::Branch(e, ts) => if p[0] < ts@.len() {
                seq![e@] + history_at(ts@[p[0] as int], p.drop_first())
            } else {
                seq![e@]
            },
        }
    }
}

/// `t2` is `t` with the node at `p` replaced by `n`.
pub open spec fn replaced(t: EffectTree, t2: EffectTree, p: Seq<usize>, n: EffectTree) -> bool
    decreases p.len(),
{
    if p.len() == 0 {
        t2 == n
    } else {
        match (t, t2) {
            (EffectTree::Branch(e, ts), EffectTree::Branch(e2, ts2)) => {
                &&& e2 == e
                &&& ts2@.len() == ts@.len()
                &&& p[0] < ts@.len()
                &&& forall|j: int| 0 <= j < ts@.len() && j != p[0] ==> ts2@[j] == ts@[j]
                &&& replaced(ts@[p[0] as int], ts2@[p[0] as int], p.drop_first(), n)
            },
            _ => false,
        }
    }
}

/// A path that starts with `i`, followed by `q`.
pub open spec fn cons(i: usize, q: Seq<usize>) -> Seq<usize> {
    seq![i] + q
}

proof fn lemma_cons(i: usize, q: Seq<usize>)
    ensures
        cons(i, q).len() == q.len() + 1,
        cons(i, q)[0] == i,
        cons(i, q).drop_first() == q,
{
    assert(cons(i, q).drop_first() =~= q);
}

/// The leaves of a branch are the leaves of its children, one position down.
proof fn lemma_branch_leaf(e: EffectInfo, ts: Vec<EffectTree>, q: Seq<usize>)
    requires
        leaf_at(EffectTree::Branch(e, ts), q),
    ensures
        q.len() > 0,
        q[0] < ts@.len(),
        leaf_at(ts@[q[0] as int], q.drop_first()),
        q == cons(q[0], q.drop_first()),
{
    assert(q =~= cons(q[0], q.drop_first()));
}

/// The first leaf of `t` in visiting order, if it has any.
pub fn first_leaf(t: &EffectTree) -> (r: Option<Vec<usize>>)
    ensures
        match r {
            Some(q) => is_first_leaf(*t, q@),
            None => forall|q2: Seq<usize>| !#[trigger] leaf_at(*t, q2),
        },
    decreases t,
{
    match t {
        EffectTree::Leaf(_, _) => {
            let r: Vec<usize> = Vec::new();
            proof {
                assert(r@ =~= Seq::<usize>::empty());
                assert forall|q2: Seq<usize>| #[trigger] leaf_at(*t, q2) implies q2 == r@ || path_lt(r@, q2) by {
                    if q2.len() > 0 {
                    }
                }
            }
            Some(r)
        },
        EffectTree::Branch(e, ts) => {
            let mut i: usize = 0;
            while i < ts.len()
                invariant
                    i <= ts.len(),
                    *t matches EffectTree::Branch(ee, tt) && ee == *e && tt == *ts,
                    forall|j: int, q2: Seq<usize>| 0 <= j < i ==> !#[trigger] leaf_at(ts@[j], q2),
                decreases ts.len() - i,
            {
                match first_leaf(&ts[i]) {
                    Some(q) => {
                        let r = prepend(i, &q);
                        proof {
                            lemma_cons(i, q@);
                            assert(leaf_at(*t, r@));
                            assert forall|q2: Seq<usize>| #[trigger] leaf_at(*t, q2) implies q2 == r@ || path_lt(r@, q2) by {
                                lemma_branch_leaf(*e, *ts, q2);
                                let j = q2[0];
                                let rest = q2.drop_first();
                                if (j as int) < (i as int) {
                                    assert(!leaf_at(ts@[j as int], rest));
                                } else if j == i {
                                    assert(leaf_at(ts@[i as int], rest));
                                    if rest != q@ {
                                        assert(path_lt(q@, rest));
                                    }
                                } else {
                                }
                            }
                        }
                        return Some(r);
                    },
                    None => {},
                }
                i = i + 1;
            }
            proof {
                assert forall|q2: Seq<usize>| !#[trigger] leaf_at(*t, q2) by {
                    if leaf_at(*t, q2) {
                        lemma_branch_leaf(*e, *ts, q2);
                        assert(!leaf_at(ts@[q2[0] as int], q2.drop_first()));
                    }
                }
            }
            None
        },
    }
}


/// The path `q` with `i` put in front.
fn prepend(i: usize, q: &Vec<usize>) -> (r: Vec<usize>)
    ensures
        r@ == cons(i, q@),
{
    let mut r: Vec<usize> = Vec::new();
    r.push(i);
    let mut k: usize = 0;
    while k < q.len()
        invariant
            k <= q.len(),
            r@ == cons(i, q@.take(k as int)),
        decreases q.len() - k,
    {
        r.push(q[k]);
        k = k + 1;
        assert(r@ =~= cons(i, q@.take(k as int)));
    }
    assert(q@.take(q.len() as int) =~= q@);
    r
}

proof fn lemma_skip_step(p: Seq<usize>, k: int)
    requires
        0 <= k < p.len(),
    ensures
        p.skip(k).len() > 0,
        p.skip(k)[0] == p[k],
        p.skip(k).drop_first() == p.skip(k + 1),
        p.skip(k) == cons(p[k], p.skip(k + 1)),
{
    assert(p.skip(k).drop_first() =~= p.skip(k + 1));
    assert(p.skip(k) =~= cons(p[k], p.skip(k + 1)));
}

/// The first leaf of `t` visited after the node at the path `p.skip(k)`.
fn next_leaf_from(t: &EffectTree, p: &Vec<usize>, k: usize) -> (r: Option<Vec<usize>>)
    requires
        k <= p.len(),
        node_at(*t, p@.skip(k as int)) is Some,
    ensures
        match r {
            Some(q) => is_next_leaf(*t, p@.skip(k as int), q@),
            None => no_leaf_after(*t, p@.skip(k as int)),
        },
    decreases p.len() - k,
{
    let ghost pp = p@.skip(k as int);
    if k == p.len() {
        assert(pp =~= Seq::<usize>::empty());
        match t {
            EffectTree::Leaf(_, _) => {
                assert forall|q2: Seq<usize>| #[trigger] leaf_at(*t, q2) implies !path_lt(pp, q2) by {
                    if q2.len() > 0 {
                        assert(node_at(*t, q2) is None);
                    }
                }
                None
            },
            EffectTree::Branch(_, _) => {
                let r = first_leaf(t);
                proof {
                    if r is Some {
                        assert(r->Some_0@.len() > 0);
                    }
                }
                r
            },
        }
    } else {
        proof {
            lemma_skip_step(p@, k as int);
        }
        let ghost rest = p@.skip(k + 1);
        match t {
            EffectTree::Leaf(_, _) => {
                assert(false);
                None
            },
            EffectTree::Branch(e, ts) => {
                let i = p[k];
                match next_leaf_from(&ts[i], p, k + 1) {
                    Some(q) => {
                        let r = prepend(i, &q);
                        proof {
                            lemma_cons(i, q@);
                            assert forall|q2: Seq<usize>| #[trigger] leaf_at(*t, q2) && path_lt(pp, q2) implies q2 == r@ || path_lt(r@, q2) by {
                                lemma_branch_leaf(*e, *ts, q2);
                                let j = q2[0];
                                let r2 = q2.drop_first();
                                if j == i {
                                    assert(path_lt(rest, r2));
                                    assert(leaf_at(ts@[i as int], r2));
                                } else {
                                    assert((i as int) < (j as int));
                                }
                            }
                        }
                        Some(r)
                    },
                    None => {
                        assert(i < ts.len());
                        let mut j: usize = i + 1;
                        while j < ts.len()
                            invariant
                                i < ts.len(),
                                pp == p@.skip(k as int),
                                pp.len() > 0 && pp[0] == i && pp.drop_first() == rest,
                                no_leaf_after(ts@[i as int], rest),
                                i + 1 <= j <= ts.len(),
                                *t matches EffectTree::Branch(ee, tt) && ee == *e && tt == *ts,
                                forall|jj: int, q2: Seq<usize>| i < jj < j ==> !#[trigger] leaf_at(ts@[jj], q2),
                            decreases ts.len() - j,
                        {
                            match first_leaf(&ts[j]) {
                                Some(q) => {
                                    let r = prepend(j, &q);
                                    proof {
                                        lemma_cons(j, q@);
                                        assert(leaf_at(*t, r@));
                                        assert(path_lt(pp, r@));
                                        assert forall|q2: Seq<usize>| #[trigger] leaf_at(*t, q2) && path_lt(pp, q2) implies q2 == r@ || path_lt(r@, q2) by {
                                            lemma_branch_leaf(*e, *ts, q2);
                                            let j2 = q2[0];
                                            let r2 = q2.drop_first();
                                            if j2 == i {
                                                assert(path_lt(rest, r2));
                                                assert(leaf_at(ts@[i as int], r2));
                                                assert(!path_lt(rest, r2));
                                            } else if j2 == j {
                                                assert(leaf_at(ts@[j as int], r2));
                                            } else if (j2 as int) < (j as int) {
                                                assert(!leaf_at(ts@[j2 as int], r2));
                                            }
                                        }
                                    }
                                    return Some(r);
                                },
                                None => {},
                            }
                            j = j + 1;
                        }
                        proof {
                            assert forall|q2: Seq<usize>| #[trigger] leaf_at(*t, q2) implies !path_lt(pp, q2) by {
                                if path_lt(pp, q2) {
                                    lemma_branch_leaf(*e, *ts, q2);
                                    let j2 = q2[0];
                                    let r2 = q2.drop_first();
                                    if j2 == i {
                                        assert(path_lt(rest, r2));
                                        assert(leaf_at(ts@[i as int], r2));
                                    } else {
                                        assert(!leaf_at(ts@[j2 as int], r2));
                                    }
                                }
                            }
                        }
                        None
                    },
                }
            },
        }
    }
}

/// `t2` is `t` but for the node at `p`.
pub open spec fn changed_at(t: EffectTree, t2: EffectTree, p: Seq<usize>) -> bool {
    &&& node_at(t2, p) is Some
    &&& replaced(t, t2, p, node_at(t2, p)->Some_0)
}

proof fn lemma_replaced_node(t: EffectTree, t2: EffectTree, p: Seq<usize>, n: EffectTree)
    requires
        replaced(t, t2, p, n),
    ensures
        node_at(t2, p) == Some(n),
    decreases p.len(),
{
    if p.len() > 0 {
        match (t, t2) {
            (EffectTree::Branch(e, ts), EffectTree::Branch(e2, ts2)) => {
                lemma_replaced_node(ts@[p[0] as int], ts2@[p[0] as int], p.drop_first(), n);
            },
            _ => {},
        }
    }
}

/// The node at the path `p.skip(k)`.
fn node_ref<'a>(t: &'a EffectTree, p: &Vec<usize>, k: usize) -> (r: &'a EffectTree)
    requires
        k <= p.len(),
        node_at(*t, p@.skip(k as int)) is Some,
    ensures
        node_at(*t, p@.skip(k as int)) == Some(*r),
    decreases p.len() - k,
{
    if k == p.len() {
        assert(p@.skip(k as int) =~= Seq::<usize>::empty());
        t
    } else {
        proof {
            lemma_skip_step(p@, k as int);
        }
        match t {
            EffectTree::Branch(_, ts) => node_ref(&ts[p[k]], p, k + 1),
            EffectTree::Leaf(_, _) => {
                assert(false);
                t
            },
        }
    }
}

/// The tree with the node at the path `p.skip(k)` replaced by `n`.
fn replace_node(t: EffectTree, p: &Vec<usize>, k: usize, n: EffectTree) -> (r: EffectTree)
    requires
        k <= p.len(),
        node_at(t, p@.skip(k as int)) is Some,
    ensures
        replaced(t, r, p@.skip(k as int), n),
    decreases p.len() - k,
{
    if k == p.len() {
        assert(p@.skip(k as int) =~= Seq::<usize>::empty());
        n
    } else {
        proof {
            lemma_skip_step(p@, k as int);
        }
        match t {
            EffectTree::Branch(e, ts) => {
                let mut ts = ts;
                let i = p[k];
                let ghost ts0 = ts@;
                let child = ts.remove(i);
                let c2 = replace_node(child, p, k + 1, n);
                ts.insert(i, c2);
                proof {
                    assert(ts@ =~= ts0.update(i as int, c2));
                }
                EffectTree::Branch(e, ts)
            },
            EffectTree::Leaf(e, a) => {
                assert(false);
                EffectTree::Leaf(e, a)
            },
        }
    }
}

/// The effect infos of the nodes above the one at the path `p.skip(k)`.
fn history_from(t: &EffectTree, p: &Vec<usize>, k: usize) -> (r: Vec<EffectInfo>)
    requires
        k <= p.len(),
        node_at(*t, p@.skip(k as int)) is Some,
    ensures
        info_views(r@) == history_at(*t, p@.skip(k as int)),
    decreases p.len() - k,
{
    if k == p.len() {
        let r: Vec<EffectInfo> = Vec::new();
        assert(p@.skip(k as int) =~= Seq::<usize>::empty());
        assert(info_views(r@) =~= Seq::<EffectInfoView>::empty());
        r
    } else {
        proof {
            lemma_skip_step(p@, k as int);
        }
        match t {
            EffectTree::Branch(e, ts) => {
                let mut r: Vec<EffectInfo> = Vec::new();
                r.push(e.clone());
                let mut rest = history_from(&ts[p[k]], p, k + 1);
                let ghost r0 = r@;
                let ghost rest0 = rest@;
                r.append(&mut rest);
                proof {
                    assert(r@ =~= r0 + rest0);
                    assert(info_views(r@) =~= seq![e@] + info_views(rest0));
                }
                r
            },
            EffectTree::Leaf(_, _) => {
                assert(false);
                Vec::new()
            },
        }
    }
}

/// What the walk asks of its caller next.
#[derive(Debug, Clone, Copy, PartialEq, Eq, Structural)]
pub enum AuditAction {
    /// Show the effect at the cursor, with the effects above it, and ask the
    /// auditor how to mark it
    Ask,
    /// Show the effect at the cursor again with more of its source, and ask again
    AskWithMoreContext,
    /// The walk through the tree is over, with this status
    Finish(AuditStatus),
    /// The answer could not be recorded; the walk stops
    Fail(UpdateError),
}

/// Where a walk goes after the node at `p` was audited: to the next leaf, or
/// it is over.
pub open spec fn advanced(t: EffectTree, cursor: Seq<usize>, action: AuditAction, p: Seq<usize>) -> bool {
    ||| action == AuditAction::Ask && is_next_leaf(t, p, cursor)
    ||| action == AuditAction::Finish(AuditStatus::ContinueAudit) && no_leaf_after(t, p)
}

/// The annotation that an answer gives, where it gives one.
pub open spec fn answer_annotation(ans: Seq<char>) -> Option<SafetyAnnotation> {
    if is_char(ans, 's') {
        Some(SafetyAnnotation::Safe)
    } else if is_char(ans, 'u') {
        Some(SafetyAnnotation::Unsafe)
    } else if is_char(ans, 'c') {
        Some(SafetyAnnotation::CallerChecked)
    } else if is_char(ans, 'l') {
        Some(SafetyAnnotation::Skipped)
    } else {
        None
    }
}

/// The walk through one effect tree: the tree as audited so far, and the path
/// of the leaf that the auditor is asked about.
pub struct TreeAudit {
    pub tree: EffectTree,
    pub cursor: Vec<usize>,
    /// Whether the auditor may ask to audit the effect's origin
    pub allow_effect_origin: bool,
}

impl TreeAudit {
    /// The cursor is at a leaf.
    pub open spec fn on_leaf(&self) -> bool {
        leaf_at(self.tree, self.cursor@)
    }

    /// Starts the walk through `tree`: at its first leaf, or over at once where
    /// it has none.
    pub fn start(tree: EffectTree, allow_effect_origin: bool) -> (r: (TreeAudit, AuditAction))
        ensures
            r.0.tree == tree,
            r.0.allow_effect_origin == allow_effect_origin,
            r.1 == AuditAction::Ask ==> is_first_leaf(tree, r.0.cursor@),
            r.1 != AuditAction::Ask ==> r.1 == AuditAction::Finish(AuditStatus::ContinueAudit)
                && forall|q: Seq<usize>| !#[trigger] leaf_at(tree, q),
    {
        match first_leaf(&tree) {
            Some(q) => (TreeAudit { tree, cursor: q, allow_effect_origin }, AuditAction::Ask),
            None => (
                TreeAudit { tree, cursor: Vec::new(), allow_effect_origin },
                AuditAction::Finish(AuditStatus::ContinueAudit),
            ),
        }
    }

    /// The effect at the cursor.
    pub fn current(&self) -> (r: &EffectInfo)
        requires
            self.on_leaf(),
        ensures
            node_at(self.tree, self.cursor@) matches Some(EffectTree::Leaf(e, _)) && e == *r,
    {
        proof {
            assert(self.cursor@.skip(0) =~= self.cursor@);
        }
        match node_ref(&self.tree, &self.cursor, 0) {
            EffectTree::Leaf(e, _) => e,
            EffectTree::Branch(e, _) => {
                assert(false);
                e
            },
        }
    }

    /// The effects above the one at the cursor, from the root down.
    pub fn history(&self) -> (r: Vec<EffectInfo>)
        requires
            self.on_leaf(),
        ensures
            info_views(r@) == history_at(self.tree, self.cursor@),
    {
        proof {
            assert(self.cursor@.skip(0) =~= self.cursor@);
        }
        history_from(&self.tree, &self.cursor, 0)
    }

    /// Applies the auditor's answer about the effect at the cursor.
    ///
    /// An answer the prompt does not accept asks again; `e` asks again with more
    /// context; `x` ends the walk early. `o` asks for the audit of the effect's
    /// origin in a dependency: at the root of the tree this ends the walk, below
    /// it the walk fails, as a branch cannot be audited as a leaf. `s`, `u`, `l`
    /// and `c` record an annotation on the leaf (see `update_audit_annotation`:
    /// `c` may turn it into a branch of the callers to audit) and the walk goes
    /// on to the next leaf, or is over.
    pub fn step(self, answer: &str, scan_res: &ScanResults) -> (r: (TreeAudit, AuditAction))
        requires
            self.on_leaf(),
            scan_res.wf(),
        ensures
            r.0.allow_effect_origin == self.allow_effect_origin,
            ({
                let p = self.cursor@;
                let e = node_at(self.tree, p)->Some_0->Leaf_0;
                let valid = accepted_answer(answer@, self.allow_effect_origin);
                let same = r.0.tree == self.tree && r.0.cursor@ == p;
                &&& !valid ==> same && r.1 == AuditAction::Ask
                &&& valid && is_char(answer@, 'e') ==> same && r.1 == AuditAction::AskWithMoreContext
                &&& valid && is_char(answer@, 'x') ==> same && r.1 == AuditAction::Finish(AuditStatus::EarlyExit)
                &&& valid && is_char(answer@, 'o') ==> same && r.1 == if p.len() == 0 {
                    AuditAction::Finish(AuditStatus::AuditChildEffect)
                } else {
                    AuditAction::Fail(UpdateError::NotALeaf)
                }
                &&& valid && answer_annotation(answer@) is Some && answer_annotation(answer@)->Some_0
                    != SafetyAnnotation::CallerChecked ==> {
                    let a = answer_annotation(answer@)->Some_0;
                    &&& changed_at(self.tree, r.0.tree, p)
                    &&& (node_at(r.0.tree, p) matches Some(EffectTree::Leaf(e2, a2)) && e2@ == e@ && a2 == a)
                    &&& advanced(r.0.tree, r.0.cursor@, r.1, p)
                }
                &&& valid && is_char(answer@, 'c') && !graph_nodes(scan_res.call_graph).contains(e@.caller_path) ==>
                    same && r.1 == AuditAction::Fail(UpdateError::MissingCallee)
                &&& valid && is_char(answer@, 'c') && graph_nodes(scan_res.call_graph).contains(e@.caller_path) ==> {
                    let new_callers = scan_res.callers(e@.caller_path).remove(e@);
                    &&& changed_at(self.tree, r.0.tree, p)
                    &&& new_callers == Set::<EffectInfoView>::empty() ==> (node_at(r.0.tree, p) matches Some(
                        EffectTree::Leaf(e2, a2),
                    ) && e2@ == e@ && a2 == SafetyAnnotation::CallerChecked)
                    &&& new_callers != Set::<EffectInfoView>::empty() ==> (node_at(r.0.tree, p) matches Some(
                        EffectTree::Branch(e2, ts),
                    ) && e2@ == e@ && info_views(leaf_infos(ts@)).no_duplicates() && info_views(
                        leaf_infos(ts@),
                    ).to_set() == new_callers && all_unaudited_leaves(ts@))
                    &&& advanced(r.0.tree, r.0.cursor@, r.1, p)
                }
            }),
    {
        let ghost p = self.cursor@;
        proof {
            assert(self.cursor@.skip(0) =~= self.cursor@);
        }
        let allow = self.allow_effect_origin;
        if !answer_is_valid(answer, allow) {
            return (self, AuditAction::Ask);
        }
        match annotation_from_answer(answer) {
            Ok((Some(a), _)) => {
                let (info, a0) = match node_ref(&self.tree, &self.cursor, 0) {
                    EffectTree::Leaf(e, a0) => (e.clone(), *a0),
                    EffectTree::Branch(e, _) => {
                        assert(false);
                        (e.clone(), SafetyAnnotation::Skipped)
                    },
                };
                let ghost e = node_at(self.tree, p)->Some_0->Leaf_0;
                let mut node = EffectTree::Leaf(info.clone(), a0);
                let ghost old_node = node;
                proof {
                    assert(tree_infos(old_node) == set![e@]);
                }
                match update_audit_annotation(a, scan_res, &mut node, info) {
                    Err(err) => {
                        return (self, AuditAction::Fail(err));
                    },
                    Ok(_) => {},
                }
                proof {
                    let nc = scan_res.callers(e@.caller_path).filter(
                        |x: EffectInfoView| !tree_infos(old_node).contains(x),
                    );
                    assert(nc =~= scan_res.callers(e@.caller_path).remove(e@));
                }
                let TreeAudit { tree, cursor, allow_effect_origin } = self;
                let new_tree = replace_node(tree, &cursor, 0, node);
                proof {
                    lemma_replaced_node(self.tree, new_tree, p, node);
                }
                match next_leaf_from(&new_tree, &cursor, 0) {
                    Some(q) => (TreeAudit { tree: new_tree, cursor: q, allow_effect_origin }, AuditAction::Ask),
                    None => (
                        TreeAudit { tree: new_tree, cursor, allow_effect_origin },
                        AuditAction::Finish(AuditStatus::ContinueAudit),
                    ),
                }
            },
            Ok((None, AuditStatus::AuditChildEffect)) => {
                if self.cursor.len() == 0 {
                    (self, AuditAction::Finish(AuditStatus::AuditChildEffect))
                } else {
                    (self, AuditAction::Fail(UpdateError::NotALeaf))
                }
            },
            Ok((None, AuditStatus::ExpandContext)) => (self, AuditAction::AskWithMoreContext),
            Ok((None, AuditStatus::EarlyExit)) => (self, AuditAction::Finish(AuditStatus::EarlyExit)),
            _ => (self, AuditAction::Ask),
        }
    }
}

/// The visiting order of paths is a strict total order: no path comes before
/// itself, it is transitive, and of two different paths one comes first.
pub proof fn law_path_order(p: Seq<usize>, q: Seq<usize>, r: Seq<usize>)
    ensures
        !path_lt(p, p),
        path_lt(p, q) && path_lt(q, r) ==> path_lt(p, r),
        p != q ==> path_lt(p, q) || path_lt(q, p),
        path_lt(p, q) ==> !path_lt(q, p),
    decreases p.len(),
{
    if p.len() == 0 && q.len() == 0 {
        assert(p =~= q);
    }
    if p.len() > 0 {
        law_path_order(p.drop_first(), p.drop_first(), p.drop_first());
    }
    if p.len() > 0 && q.len() > 0 && r.len() > 0 {
        law_path_order(p.drop_first(), q.drop_first(), r.drop_first());
    }
    if p != q && p.len() > 0 && q.len() > 0 && p[0] == q[0] {
        assert(p.drop_first() != q.drop_first()) by {
            if p.drop_first() == q.drop_first() {
                assert(p.len() == q.len());
                assert forall|i: int| 0 <= i < p.len() implies p[i] == q[i] by {
                    if i > 0 {
                        assert(p[i] == p.drop_first()[i - 1]);
                        assert(q[i] == q.drop_first()[i - 1]);
                    }
                }
                assert(p =~= q);
            }
        }
        law_path_order(p.drop_first(), q.drop_first(), r);
    }
    if path_lt(p, q) && p.len() > 0 && q.len() > 0 && p[0] == q[0] {
        law_path_order(p.drop_first(), q.drop_first(), q.drop_first());
    }
}

/// The leaf at path `p` is annotated unsafe.
pub open spec fn unsafe_leaf_at(t: EffectTree, p: Seq<usize>) -> bool {
    node_at(t, p) matches Some(EffectTree::Leaf(_, a)) && a == SafetyAnnotation::Unsafe
}

proof fn lemma_forest_unsafe_member(ts: Seq<EffectTree>)
    ensures
        forest_has_unsafe(ts) <==> exists|k: int| 0 <= k < ts.len() && tree_has_unsafe(#[trigger] ts[k]),
    decreases ts.len(),
{
    if ts.len() > 0 {
        lemma_forest_unsafe_member(ts.drop_last());
        if forest_has_unsafe(ts.drop_last()) {
            let k = choose|k: int| 0 <= k < ts.drop_last().len() && tree_has_unsafe(#[trigger] ts.drop_last()[k]);
            assert(ts[k] == ts.drop_last()[k]);
        }
        if exists|k: int| 0 <= k < ts.len() && tree_has_unsafe(#[trigger] ts[k]) {
            let k = choose|k: int| 0 <= k < ts.len() && tree_has_unsafe(#[trigger] ts[k]);
            if k < ts.len() - 1 {
                assert(ts.drop_last()[k] == ts[k]);
            }
        }
    }
}

/// A tree has an unsafe effect exactly when a leaf at some depth below its
/// root, or the root itself, is annotated unsafe.
pub proof fn law_tree_unsafe_iff_unsafe_leaf(t: EffectTree)
    ensures
        tree_has_unsafe(t) <==> exists|p: Seq<usize>| #[trigger] unsafe_leaf_at(t, p),
    decreases t,
{
    match t {
        EffectTree::Leaf(_, a) => {
            assert(unsafe_leaf_at(t, Seq::<usize>::empty()) == (a == SafetyAnnotation::Unsafe));
            if exists|p: Seq<usize>| #[trigger] unsafe_leaf_at(t, p) {
                let p = choose|p: Seq<usize>| #[trigger] unsafe_leaf_at(t, p);
                assert(p.len() == 0);
            }
        },
        EffectTree::Branch(_, ts) => {
            lemma_forest_unsafe_member(ts@);
            assert(ts.len() == ts@.len());
            if tree_has_unsafe(t) {
                let k = choose|k: int| 0 <= k < ts@.len() && tree_has_unsafe(#[trigger] ts@[k]);
                assert(decreases_to!(t => ts@[k]));
                law_tree_unsafe_iff_unsafe_leaf(ts@[k]);
                let q = choose|q: Seq<usize>| #[trigger] unsafe_leaf_at(ts@[k], q);
                let p = seq![k as usize] + q;
                assert(p.drop_first() =~= q);
                assert(unsafe_leaf_at(t, p));
            }
            if exists|p: Seq<usize>| #[trigger] unsafe_leaf_at(t, p) {
                let p = choose|p: Seq<usize>| #[trigger] unsafe_leaf_at(t, p);
                assert(p.len() > 0);
                let k = p[0] as int;
                assert(decreases_to!(t => ts@[k]));
                law_tree_unsafe_iff_unsafe_leaf(ts@[k]);
                assert(unsafe_leaf_at(ts@[k], p.drop_first()));
                assert(tree_has_unsafe(ts@[k]));
            }
        },
    }
}

/// An audit file has an unsafe effect (see `AuditFile::has_unsafe_effect`)
/// exactly when some leaf, at any depth of any of its trees, is annotated unsafe.
pub proof fn law_audit_unsafe_iff_unsafe_leaf(af: AuditFile)
    ensures
        trees_have_unsafe(af.audit_trees@) <==> exists|i: int, p: Seq<usize>|
            0 <= i < af.audit_trees@.len() && #[trigger] unsafe_leaf_at(af.audit_trees@[i].1, p),
{
    let t = af.audit_trees@;
    if trees_have_unsafe(t) {
        let i = choose|i: int| 0 <= i < t.len() && tree_has_unsafe(#[trigger] t[i].1);
        law_tree_unsafe_iff_unsafe_leaf(t[i].1);
        let p = choose|p: Seq<usize>| #[trigger] unsafe_leaf_at(t[i].1, p);
        assert(unsafe_leaf_at(t[i].1, p));
    }
    if exists|i: int, p: Seq<usize>| 0 <= i < t.len() && #[trigger] unsafe_leaf_at(t[i].1, p) {
        let (i, p) = choose|i: int, p: Seq<usize>| 0 <= i < t.len() && #[trigger] unsafe_leaf_at(t[i].1, p);
        law_tree_unsafe_iff_unsafe_leaf(t[i].1);
        assert(tree_has_unsafe(t[i].1));
    }
}
} // verus!
