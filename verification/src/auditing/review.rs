//! Reviewing an audit: the nodes of each effect tree, in the order they are
//! shown, each with the chain of callers above it and its annotation.
use vstd::prelude::*;

use crate::audit_file::{info_views, EffectInfo, EffectInfoView, EffectTree, SafetyAnnotation};
use crate::auditing::tree_audit::{history_at, node_at};

verus! {

/// One node of an effect tree as it is shown in a review.
#[derive(Debug)]
pub struct ReviewStep {
    /// The effect info at the node
    pub info: EffectInfo,
    /// The effect infos of the branches above the node, outermost first
    pub history: Vec<EffectInfo>,
    /// The node's annotation: a leaf's own, caller-checked for a branch
    pub annotation: SafetyAnnotation,
}

/// Abstract view of a review step.
pub struct ReviewStepView {
    pub info: EffectInfoView,
    pub history: Seq<EffectInfoView>,
    pub annotation: SafetyAnnotation,
}

impl View for ReviewStep {
    type V = ReviewStepView;

    open spec fn view(&self) -> ReviewStepView {
        ReviewStepView {
            info: self.info@,
            history: info_views(self.history@),
            annotation: self.annotation,
        }
    }
}

pub open spec fn step_views(v: Seq<ReviewStep>) -> Seq<ReviewStepView> {
    v.map_values(|s: ReviewStep| s@)
}

/// The review steps of a tree below the branches `hist`: the node itself, then,
/// for a branch, the steps of each subtree in order with the branch added.
pub open spec fn review_steps(t: EffectTree, hist: Seq<EffectInfoView>) -> Seq<ReviewStepView>
    decreases t,
{
    match t {
        EffectTree::Leaf(e, a) => seq![ReviewStepView { info: e@, history: hist, annotation: a }],
        EffectTree::Branch(e, ts) => seq![
            ReviewStepView {
                info: e@,
                history: hist,
                annotation: SafetyAnnotation::CallerChecked,
            },
        ] + forest_review_steps(ts@, hist.push(e@)),
    }
}

/// The review steps of each tree of a list in turn.
pub open spec fn forest_review_steps(ts: Seq<EffectTree>, hist: Seq<EffectInfoView>) -> Seq<
    ReviewStepView,
>
    decreases ts,
{
    if ts.len() == 0 {
        Seq::empty()
    } else {
        forest_review_steps(ts.drop_last(), hist) + review_steps(ts.last(), hist)
    }
}

fn clone_infos(v: &Vec<EffectInfo>) -> (r: Vec<EffectInfo>)
    ensures
        info_views(r@) == info_views(v@),
{
    let mut r: Vec<EffectInfo> = Vec::new();
    let mut i: usize = 0;
    while i < v.len()
        invariant
            i <= v.len(),
            r@.len() == i,
            info_views(r@) == info_views(v@).take(i as int),
        decreases v.len() - i,
    {
        let ghost before = r@;
        r.push(v[i].clone());
        assert(info_views(r@) =~= info_views(v@).take(i + 1)) by {
            assert(info_views(before) == info_views(v@).take(i as int));
            assert forall|k: int| 0 <= k < i + 1 implies info_views(r@)[k] == info_views(v@)[k] by {
                if k < i {
                    assert(info_views(r@)[k] == info_views(before)[k]);
                }
            }
        }
        i = i + 1;
    }
    assert(info_views(v@).take(v.len() as int) =~= info_views(v@));
    r
}

fn review_effect_tree_info_helper(
    effect_tree: &EffectTree,
    effect_history: &Vec<EffectInfo>,
    steps: &mut Vec<ReviewStep>,
)
    ensures
        step_views(final(steps)@) == step_views(old(steps)@) + review_steps(
            *effect_tree,
            info_views(effect_history@),
        ),
    decreases effect_tree,
{
    let ghost s0 = step_views(steps@);
    let ghost h = info_views(effect_history@);
    match effect_tree {
        EffectTree::Leaf(new_e, a) => {
            let step = ReviewStep {
                info: new_e.clone(),
                history: clone_infos(effect_history),
                annotation: *a,
            };
            steps.push(step);
            assert(step_views(steps@) =~= s0 + review_steps(*effect_tree, h));
        },
        EffectTree::Branch(new_e, es) => {
            let step = ReviewStep {
                info: new_e.clone(),
                history: clone_infos(effect_history),
                annotation: SafetyAnnotation::CallerChecked,
            };
            steps.push(step);
            let mut new_history = clone_infos(effect_history);
            new_history.push(new_e.clone());
            let ghost nh = info_views(new_history@);
            proof {
                assert(nh =~= h.push(new_e@));
                assert(es@.take(0) =~= Seq::<EffectTree>::empty());
                assert(step_views(steps@) =~= s0 + seq![
                    ReviewStepView { info: new_e@, history: h, annotation: SafetyAnnotation::CallerChecked },
                ] + forest_review_steps(es@.take(0), nh));
            }
            let mut i: usize = 0;
            while i < es.len()
                invariant
                    i <= es.len(),
                    *effect_tree == EffectTree::Branch(*new_e, *es),
                    nh == info_views(new_history@),
                    nh == h.push(new_e@),
                    step_views(steps@) == s0 + seq![
                        ReviewStepView { info: new_e@, history: h, annotation: SafetyAnnotation::CallerChecked },
                    ] + forest_review_steps(es@.take(i as int), nh),
                decreases es.len() - i,
            {
                proof {
                    assert(decreases_to!(*effect_tree => (*effect_tree)->Branch_1));
                }
                review_effect_tree_info_helper(&es[i], &new_history, steps);
                proof {
                    assert(es@.take(i + 1).drop_last() =~= es@.take(i as int));
                    assert(es@.take(i + 1).last() == es@[i as int]);
                }
                i = i + 1;
            }
            assert(es@.take(es.len() as int) =~= es@);
        },
    }
}

/// The nodes of an effect tree in the order a review shows them (the tree
/// before its subtrees, the subtrees in order), each with the branches above it
/// and its annotation.
pub fn review_effect_tree_info(effect_tree: &EffectTree) -> (r: Vec<ReviewStep>)
    ensures
        step_views(r@) == review_steps(*effect_tree, Seq::empty()),
{
    let mut steps: Vec<ReviewStep> = Vec::new();
    let history: Vec<EffectInfo> = Vec::new();
    proof {
        assert(info_views(history@) =~= Seq::<EffectInfoView>::empty());
        assert(step_views(steps@) =~= Seq::<ReviewStepView>::empty());
    }
    review_effect_tree_info_helper(effect_tree, &history, &mut steps);
    assert(step_views(steps@) =~= review_steps(*effect_tree, Seq::empty()));
    steps
}


/// What the review shows for a node: its info, the branches above it, and its
/// annotation (a leaf's own, caller-checked for a branch).
pub open spec fn node_step(t: EffectTree, hist: Seq<EffectInfoView>) -> ReviewStepView {
    match t {
        EffectTree::Leaf(e, a) => ReviewStepView { info: e@, history: hist, annotation: a },
        EffectTree::Branch(e, _) => ReviewStepView { info: e@, history: hist, annotation: SafetyAnnotation::CallerChecked },
    }
}

proof fn lemma_forest_steps_contain(ts: Seq<EffectTree>, hist: Seq<EffectInfoView>, k: int, j: int)
    requires
        0 <= k < ts.len(),
        0 <= j < review_steps(ts[k], hist).len(),
    ensures
        exists|i: int| 0 <= i < forest_review_steps(ts, hist).len()
            && #[trigger] forest_review_steps(ts, hist)[i] == review_steps(ts[k], hist)[j],
    decreases ts.len(),
{
    let a = forest_review_steps(ts.drop_last(), hist);
    let b = review_steps(ts.last(), hist);
    assert(forest_review_steps(ts, hist) == a + b);
    if k == ts.len() - 1 {
        assert((a + b)[a.len() + j] == b[j]);
    } else {
        assert(ts.drop_last()[k] == ts[k]);
        lemma_forest_steps_contain(ts.drop_last(), hist, k, j);
        let i = choose|i: int| 0 <= i < a.len() && #[trigger] a[i] == review_steps(ts[k], hist)[j];
        assert((a + b)[i] == a[i]);
    }
}

proof fn lemma_review_shows_node(t: EffectTree, hist: Seq<EffectInfoView>, p: Seq<usize>)
    requires
        node_at(t, p) is Some,
    ensures
        exists|i: int| 0 <= i < review_steps(t, hist).len()
            && #[trigger] review_steps(t, hist)[i] == node_step(node_at(t, p)->Some_0, hist + history_at(t, p)),
    decreases p.len(),
{
    if p.len() == 0 {
        assert(hist + history_at(t, p) =~= hist);
        assert(review_steps(t, hist)[0] == node_step(t, hist));
    } else {
        match t {
            EffectTree::Leaf(_, _) => {},
            EffectTree::Branch(e, ts) => {
                let k = p[0] as int;
                let h2 = hist.push(e@);
                let sub = ts@[k];
                lemma_review_shows_node(sub, h2, p.drop_first());
                let j = choose|j: int| 0 <= j < review_steps(sub, h2).len()
                    && #[trigger] review_steps(sub, h2)[j] == node_step(node_at(sub, p.drop_first())->Some_0, h2 + history_at(sub, p.drop_first()));
                assert(h2 + history_at(sub, p.drop_first()) =~= hist + history_at(t, p));
                lemma_forest_steps_contain(ts@, h2, k, j);
                let f = forest_review_steps(ts@, h2);
                let i = choose|i: int| 0 <= i < f.len() && #[trigger] f[i] == review_steps(sub, h2)[j];
                let head = seq![ReviewStepView { info: e@, history: hist, annotation: SafetyAnnotation::CallerChecked }];
                assert(review_steps(t, hist) == head + f);
                assert((head + f)[i + 1] == f[i]);
            },
        }
    }
}

/// Every leaf of a tree appears in its review with its own annotation, its
/// effect info and the chain of branches above it; every branch appears as
/// caller-checked.
pub proof fn law_review_shows_each_node(t: EffectTree, p: Seq<usize>)
    requires
        node_at(t, p) is Some,
    ensures
        node_at(t, p) matches Some(EffectTree::Leaf(e, a)) ==> exists|i: int| 0 <= i < review_steps(t, Seq::empty()).len()
            && #[trigger] review_steps(t, Seq::empty())[i] == (ReviewStepView {
                info: e@,
                history: history_at(t, p),
                annotation: a,
            }),
        node_at(t, p) matches Some(EffectTree::Branch(e, _)) ==> exists|i: int| 0 <= i < review_steps(t, Seq::empty()).len()
            && #[trigger] review_steps(t, Seq::empty())[i] == (ReviewStepView {
                info: e@,
                history: history_at(t, p),
                annotation: SafetyAnnotation::CallerChecked,
            }),
{
    lemma_review_shows_node(t, Seq::empty(), p);
    assert(Seq::<EffectInfoView>::empty() + history_at(t, p) =~= history_at(t, p));
}
} // verus!
