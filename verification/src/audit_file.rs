//! Audit files: for each base effect of a crate, a tree of the callers through
//! which it is reached, with the auditor's safety annotation on each leaf.
use vstd::prelude::*;

use crate::effect::{
    contains_instance, insert_instance, instance_views, EffectInstance, EffectInstanceView,
    EffectType, EffectView, SrcLoc, SrcLocView,
};
use crate::ident::{
    contains_path, insert_path, path_views, CanonicalPath,
};
use crate::text::replace_hyphens_spec;
use crate::scanner::{graph_edges, graph_nodes, ScanResults};
use crate::auditing::util::{MAX_AUDIT_FILE_SIZE, MAX_CALLER_CHECKED_TREE_SIZE};

verus! {

/// SafetyAnnotation is really a lattice with `Skipped` as the top element, and
/// `Unsafe` as the bottom element.
#[derive(Debug, Clone, Copy, PartialEq, Eq, Structural)]
pub enum SafetyAnnotation {
    Skipped,
    Safe,
    Unsafe,
    CallerChecked,
}

impl SafetyAnnotation {
    /// The text of the annotation, as it is displayed.
    pub fn as_display_str(&self) -> (r: &'static str)
        ensures
            r@ == match *self {
                SafetyAnnotation::Skipped => "Skipped"@,
                SafetyAnnotation::Safe => "Safe"@,
                SafetyAnnotation::Unsafe => "Unsafe"@,
                SafetyAnnotation::CallerChecked => "Caller-checked"@,
            },
    {
        match self {
            SafetyAnnotation::Skipped => "Skipped",
            SafetyAnnotation::Safe => "Safe",
            SafetyAnnotation::Unsafe => "Unsafe",
            SafetyAnnotation::CallerChecked => "Caller-checked",
        }
    }
}

/// Abstract view of an effect info: the caller and the location of the call.
pub struct EffectInfoView {
    pub caller_path: Seq<char>,
    pub callee_loc: SrcLocView,
}

#[derive(PartialEq, Debug, Hash, Eq)]
pub struct EffectInfo {
    pub caller_path: CanonicalPath,
    pub callee_loc: SrcLoc,
}

impl View for EffectInfo {
    type V = EffectInfoView;

    open spec fn view(&self) -> EffectInfoView {
        EffectInfoView { caller_path: self.caller_path@, callee_loc: self.callee_loc@ }
    }
}

impl Clone for EffectInfo {
    fn clone(&self) -> (r: Self)
        ensures
            r@ == self@,
    {
        EffectInfo { caller_path: self.caller_path.clone(), callee_loc: self.callee_loc.clone() }
    }
}

/// The views of a list of effect infos.
pub open spec fn info_views(v: Seq<EffectInfo>) -> Seq<EffectInfoView> {
    v.map_values(|e: EffectInfo| e@)
}

impl EffectInfo {
    pub fn new(caller_path: CanonicalPath, callee_loc: SrcLoc) -> (r: Self)
        ensures
            r@ == (EffectInfoView { caller_path: caller_path@, callee_loc: callee_loc@ }),
    {
        EffectInfo { caller_path, callee_loc }
    }

    pub fn from_instance(effect: &EffectInstance) -> (r: Self)
        ensures
            r@ == (EffectInfoView { caller_path: effect@.caller, callee_loc: effect@.call_loc }),
    {
        let caller_src_path = effect.caller().clone();
        let callee_loc = effect.call_loc().clone();
        EffectInfo::new(caller_src_path, callee_loc)
    }

    /// Whether two effect infos are the same.
    pub fn same_info(&self, other: &Self) -> (r: bool)
        ensures
            r == (self@ == other@),
    {
        self.caller_path.same_path(&other.caller_path) && self.callee_loc.same_loc(
            &other.callee_loc,
        )
    }
}

/// Whether `v` holds an info equal to `e`.
pub fn contains_info(v: &Vec<EffectInfo>, e: &EffectInfo) -> (r: bool)
    ensures
        r == info_views(v@).contains(e@),
{
    let mut i: usize = 0;
    while i < v.len()
        invariant
            i <= v.len(),
            forall|j: int| 0 <= j < i ==> v@[j]@ != e@,
        decreases v.len() - i,
    {
        if v[i].same_info(e) {
            assert(info_views(v@)[i as int] == e@);
            return true;
        }
        i = i + 1;
    }
    assert forall|j: int| 0 <= j < info_views(v@).len() implies info_views(v@)[j] != e@ by {
        assert(info_views(v@)[j] == v@[j]@);
    }
    false
}

/// Adds `e` to the set `v` unless an equal info is there.
pub fn insert_info(v: &mut Vec<EffectInfo>, e: EffectInfo)
    requires
        info_views(old(v)@).no_duplicates(),
    ensures
        info_views(final(v)@).no_duplicates(),
        info_views(final(v)@).to_set() == info_views(old(v)@).to_set().insert(e@),
{
    if !contains_info(v, &e) {
        let ghost ev = e@;
        v.push(e);
        assert(info_views(v@) =~= info_views(old(v)@).push(ev));
        proof {
            broadcast use vstd::seq_lib::group_seq_properties;
            assert(info_views(v@).to_set() =~= info_views(old(v)@).to_set().insert(ev));
        }
    } else {
        assert(info_views(old(v)@).to_set() =~= info_views(old(v)@).to_set().insert(e@));
    }
}

#[derive(PartialEq, Debug)]
pub enum EffectTree {
    Leaf(EffectInfo, SafetyAnnotation),
    Branch(EffectInfo, Vec<EffectTree>),
}

/// The effect info at the root of a tree.
pub open spec fn tree_info(t: EffectTree) -> EffectInfoView {
    match t {
        EffectTree::Leaf(e, _) => e@,
        EffectTree::Branch(e, _) => e@,
    }
}

/// Every effect info in a tree.
pub open spec fn tree_infos(t: EffectTree) -> Set<EffectInfoView>
    decreases t,
{
    match t {
        EffectTree::Leaf(e, _) => set![e@],
        EffectTree::Branch(e, ts) => forest_infos(ts@).insert(e@),
    }
}

/// Every effect info in a list of trees.
pub open spec fn forest_infos(ts: Seq<EffectTree>) -> Set<EffectInfoView>
    decreases ts,
{
    if ts.len() == 0 {
        Set::empty()
    } else {
        forest_infos(ts.drop_last()).union(tree_infos(ts.last()))
    }
}

/// Some leaf of the tree is annotated unsafe.
pub open spec fn tree_has_unsafe(t: EffectTree) -> bool
    decreases t,
{
    match t {
        EffectTree::Leaf(_, a) => a == SafetyAnnotation::Unsafe,
        EffectTree::Branch(_, ts) => forest_has_unsafe(ts@),
    }
}

/// Some leaf of some tree of the list is annotated unsafe.
pub open spec fn forest_has_unsafe(ts: Seq<EffectTree>) -> bool
    decreases ts,
{
    if ts.len() == 0 {
        false
    } else {
        forest_has_unsafe(ts.drop_last()) || tree_has_unsafe(ts.last())
    }
}

/// The number of leaves of the tree annotated `Skipped` (not yet audited).
pub open spec fn tree_unaudited(t: EffectTree) -> nat
    decreases t,
{
    match t {
        EffectTree::Leaf(_, a) => if a == SafetyAnnotation::Skipped {
            1
        } else {
            0
        },
        EffectTree::Branch(_, ts) => forest_unaudited(ts@),
    }
}

/// The number of unaudited leaves over a list of trees.
pub open spec fn forest_unaudited(ts: Seq<EffectTree>) -> nat
    decreases ts,
{
    if ts.len() == 0 {
        0
    } else {
        forest_unaudited(ts.drop_last()) + tree_unaudited(ts.last())
    }
}

/// The tree marks the function `p` caller-checked: `p` is the caller at a leaf
/// annotated caller-checked, or at a branch node.
pub open spec fn tree_marks(t: EffectTree, p: Seq<char>) -> bool
    decreases t,
{
    match t {
        EffectTree::Leaf(e, a) => a == SafetyAnnotation::CallerChecked && e.caller_path@ == p,
        EffectTree::Branch(e, ts) => e.caller_path@ == p || forest_marks(ts@, p),
    }
}

/// Some tree of the list marks `p` caller-checked.
pub open spec fn forest_marks(ts: Seq<EffectTree>, p: Seq<char>) -> bool
    decreases ts,
{
    if ts.len() == 0 {
        false
    } else {
        forest_marks(ts.drop_last(), p) || tree_marks(ts.last(), p)
    }
}

proof fn lemma_forest_unaudited_prefix(ts: Seq<EffectTree>, k: int)
    requires
        0 <= k <= ts.len(),
    ensures
        forest_unaudited(ts.take(k)) <= forest_unaudited(ts),
    decreases ts.len(),
{
    if k < ts.len() {
        lemma_forest_unaudited_prefix(ts.drop_last(), k);
        assert(ts.drop_last().take(k) =~= ts.take(k));
    } else {
        assert(ts.take(k) =~= ts);
    }
}

impl EffectTree {
    pub fn get_leaf_annotation(&self) -> (r: Option<SafetyAnnotation>)
        ensures
            r == match *self {
                EffectTree::Leaf(_, a) => Some(a),
                EffectTree::Branch(_, _) => None,
            },
    {
        match self {
            EffectTree::Leaf(_, a) => Some(*a),
            EffectTree::Branch(_, _) => None,
        }
    }

    /// Sets the annotation for a leaf node and returns Some previous annotation,
    /// or None if it was a branch node
    pub fn set_annotation(&mut self, new_a: SafetyAnnotation) -> (r: Option<SafetyAnnotation>)
        ensures
            match *old(self) {
                EffectTree::Leaf(e, a) => r == Some(a) && *final(self) == EffectTree::Leaf(
                    e,
                    new_a,
                ),
                EffectTree::Branch(_, _) => r is None && *final(self) == *old(self),
            },
    {
        match self {
            EffectTree::Leaf(_, a) => {
                let ret = *a;
                *a = new_a;
                Some(ret)
            },
            _ => None,
        }
    }

    /// Every effect info in the tree, each once.
    pub fn get_effect_infos(&self) -> (r: Vec<EffectInfo>)
        ensures
            info_views(r@).no_duplicates(),
            info_views(r@).to_set() == tree_infos(*self),
        decreases self,
    {
        match self {
            EffectTree::Leaf(e, _) => {
                let r = vec![e.clone()];
                proof {
                    broadcast use vstd::seq_lib::group_seq_properties;
                    assert(info_views(r@) =~= seq![e@]);
                    assert(info_views(r@).to_set() =~= set![e@]);
                }
                r
            },
            EffectTree::Branch(e, next) => {
                let mut res: Vec<EffectInfo> = Vec::new();
                let mut i: usize = 0;
                proof {
                    broadcast use vstd::seq_lib::group_seq_properties;
                    assert(info_views(res@) =~= Seq::<EffectInfoView>::empty());
                    assert(info_views(res@).to_set() =~= Set::<EffectInfoView>::empty());
                    assert(next@.take(0) =~= Seq::<EffectTree>::empty());
                }
                while i < next.len()
                    invariant
                        *self matches EffectTree::Branch(_, nn) && nn == *next,
                        i <= next.len(),
                        info_views(res@).no_duplicates(),
                        info_views(res@).to_set() == forest_infos(next@.take(i as int)),
                    decreases next.len() - i,
                {
                    let sub = next[i].get_effect_infos();
                    let mut j: usize = 0;
                    let ghost before = info_views(res@).to_set();
                    while j < sub.len()
                        invariant
                            j <= sub.len(),
                            info_views(res@).no_duplicates(),
                            info_views(res@).to_set() == before.union(
                                info_views(sub@).take(j as int).to_set(),
                            ),
                        decreases sub.len() - j,
                    {
                        let ghost prev = info_views(res@).to_set();
                        insert_info(&mut res, sub[j].clone());
                        proof {
                            broadcast use vstd::seq_lib::group_seq_properties;
                            assert(info_views(sub@).take(j + 1) =~= info_views(sub@).take(
                                j as int,
                            ).push(sub@[j as int]@));
                            assert(info_views(res@).to_set() =~= before.union(
                                info_views(sub@).take(j + 1).to_set(),
                            ));
                        }
                        j = j + 1;
                    }
                    proof {
                        assert(info_views(sub@).take(sub.len() as int) =~= info_views(sub@));
                        assert(next@.take(i + 1).drop_last() =~= next@.take(i as int));
                    }
                    i = i + 1;
                }
                assert(next@.take(next.len() as int) =~= next@);
                insert_info(&mut res, e.clone());
                res
            },
        }
    }
}

/// Errors while building an audit file.
#[derive(Debug, Clone, Copy, PartialEq, Eq, Structural)]
pub enum AuditError {
    /// A caller was looked up that is not in the call graph.
    MissingCallee,
    /// An effect tree grew past `MAX_CALLER_CHECKED_TREE_SIZE`.
    TreeTooLarge,
    /// The effect trees together grew past `MAX_AUDIT_FILE_SIZE`.
    AuditTooLarge,
}

#[derive(Clone, Debug, Copy, PartialEq, Eq, Structural)]
pub enum DefaultAuditType {
    Empty,
    Safe,
    CallerChecked,
}

pub type AuditVersion = u32;

/// The base effects that key the trees.
pub open spec fn tree_keys(t: Seq<(EffectInstance, EffectTree)>) -> Seq<EffectInstanceView> {
    t.map_values(|p: (EffectInstance, EffectTree)| p.0@)
}

/// The functions that key the caller-checked map.
pub open spec fn cc_keys(m: Seq<(CanonicalPath, Vec<EffectInstance>)>) -> Seq<Seq<char>> {
    m.map_values(|p: (CanonicalPath, Vec<EffectInstance>)| p.0@)
}

/// The set of base effects recorded for entry `j` of the caller-checked map.
pub open spec fn cc_entry(m: Seq<(CanonicalPath, Vec<EffectInstance>)>, j: int) -> Set<
    EffectInstanceView,
> {
    instance_views(m[j].1@).to_set()
}

/// A caller-checked map: keys distinct, each set without duplicates.
pub open spec fn cc_wf(m: Seq<(CanonicalPath, Vec<EffectInstance>)>) -> bool {
    &&& cc_keys(m).no_duplicates()
    &&& forall|j: int| 0 <= j < m.len() ==> instance_views(#[trigger] m[j].1@).no_duplicates()
}

/// The base effects whose tree marks `p` caller-checked.
pub open spec fn cc_set(t: Seq<(EffectInstance, EffectTree)>, p: Seq<char>) -> Set<
    EffectInstanceView,
> {
    Set::new(
        |e: EffectInstanceView|
            exists|i: int| 0 <= i < t.len() && t[i].0@ == e && tree_marks(#[trigger] t[i].1, p),
    )
}

/// Some tree has an unsafe leaf.
pub open spec fn trees_have_unsafe(t: Seq<(EffectInstance, EffectTree)>) -> bool {
    exists|i: int| 0 <= i < t.len() && tree_has_unsafe(#[trigger] t[i].1)
}

/// The number of trees with an unaudited leaf.
pub open spec fn trees_unaudited_base(t: Seq<(EffectInstance, EffectTree)>) -> nat
    decreases t.len(),
{
    if t.len() == 0 {
        0
    } else {
        trees_unaudited_base(t.drop_last()) + if tree_unaudited(t.last().1) > 0 {
            1nat
        } else {
            0nat
        }
    }
}

/// The number of unaudited leaves over all trees.
pub open spec fn trees_unaudited_total(t: Seq<(EffectInstance, EffectTree)>) -> nat
    decreases t.len(),
{
    if t.len() == 0 {
        0
    } else {
        trees_unaudited_total(t.drop_last()) + tree_unaudited(t.last().1)
    }
}

/// A base effect the removal drops: a sink call whose pattern, read as a path, is
/// one of the removed sinks.
pub open spec fn removed_by(e: EffectInstanceView, sinks: Seq<Seq<char>>) -> bool {
    match e.eff_type {
        EffectView::SinkCall(s) => sinks.contains(replace_hyphens_spec(s)),
        _ => false,
    }
}

/// A fresh tree for a base effect: a leaf, not yet audited, at the effect's caller.
pub open spec fn base_tree(e: EffectInstanceView, t: EffectTree) -> bool {
    t matches EffectTree::Leaf(info, a) && a == SafetyAnnotation::Skipped && info@
        == (EffectInfoView { caller_path: e.caller, callee_loc: e.call_loc })
}

/// A tree for a base effect marked safe: a leaf annotated safe at the effect's caller.
pub open spec fn safe_tree(e: EffectInstanceView, t: EffectTree) -> bool {
    t matches EffectTree::Leaf(info, a) && a == SafetyAnnotation::Safe && info@
        == (EffectInfoView { caller_path: e.caller, callee_loc: e.call_loc })
}

#[derive(Debug)]
pub struct AuditFile {
    pub audit_trees: Vec<(EffectInstance, EffectTree)>,
    /// Contains a map from public functions marked caller-checked to a set of
    /// all base EffectInstances that flow into that function
    pub pub_caller_checked: Vec<(CanonicalPath, Vec<EffectInstance>)>,
    pub base_dir: String,
    pub hash: [u8; 32],
    pub version: AuditVersion,
    pub scanned_effects: Vec<EffectType>,
}

fn tree_has_unsafe_exec(t: &EffectTree) -> (r: bool)
    ensures
        r == tree_has_unsafe(*t),
    decreases t,
{
    match t {
        EffectTree::Leaf(_, a) => *a == SafetyAnnotation::Unsafe,
        EffectTree::Branch(_, ts) => {
            let mut i: usize = 0;
            assert(ts@.take(0) =~= Seq::<EffectTree>::empty());
            while i < ts.len()
                invariant
                    *t matches EffectTree::Branch(_, tt) && tt == *ts,
                    i <= ts.len(),
                    !forest_has_unsafe(ts@.take(i as int)),
                decreases ts.len() - i,
            {
                assert(ts@.take(i + 1).drop_last() =~= ts@.take(i as int));
                if tree_has_unsafe_exec(&ts[i]) {
                    proof {
                        lemma_forest_has_unsafe_prefix(ts@, i + 1);
                    }
                    return true;
                }
                i = i + 1;
            }
            assert(ts@.take(ts.len() as int) =~= ts@);
            false
        },
    }
}

proof fn lemma_forest_has_unsafe_prefix(ts: Seq<EffectTree>, k: int)
    requires
        0 <= k <= ts.len(),
        forest_has_unsafe(ts.take(k)),
    ensures
        forest_has_unsafe(ts),
    decreases ts.len(),
{
    if k < ts.len() {
        assert(ts.drop_last().take(k) =~= ts.take(k));
        lemma_forest_has_unsafe_prefix(ts.drop_last(), k);
    } else {
        assert(ts.take(k) =~= ts);
    }
}

proof fn lemma_forest_marks_prefix(ts: Seq<EffectTree>, k: int, p: Seq<char>)
    requires
        0 <= k <= ts.len(),
    ensures
        forest_marks(ts, p) == (forest_marks(ts.take(k), p) || exists|i: int|
            k <= i < ts.len() && tree_marks(#[trigger] ts[i], p)),
    decreases ts.len(),
{
    if k < ts.len() {
        assert(ts.drop_last().take(k) =~= ts.take(k));
        lemma_forest_marks_prefix(ts.drop_last(), k, p);
        if tree_marks(ts.last(), p) {
            assert(tree_marks(ts[ts.len() - 1], p));
        }
        assert forall|i: int| k <= i < ts.len() - 1 implies #[trigger] ts[i] == ts.drop_last()[i] by {}
    } else {
        assert(ts.take(k) =~= ts);
    }
}

proof fn lemma_trees_unaudited_prefix(t: Seq<(EffectInstance, EffectTree)>, k: int)
    requires
        0 <= k <= t.len(),
    ensures
        trees_unaudited_total(t.take(k)) <= trees_unaudited_total(t),
    decreases t.len(),
{
    if k < t.len() {
        lemma_trees_unaudited_prefix(t.drop_last(), k);
        assert(t.drop_last().take(k) =~= t.take(k));
    } else {
        assert(t.take(k) =~= t);
    }
}

proof fn lemma_filter_keys_no_dup(
    t: Seq<(EffectInstance, EffectTree)>,
    f: spec_fn((EffectInstance, EffectTree)) -> bool,
)
    requires
        tree_keys(t).no_duplicates(),
    ensures
        tree_keys(t.filter(f)).no_duplicates(),
    decreases t.len(),
{
    reveal_with_fuel(Seq::filter, 1);
    if t.len() > 0 {
        let d = t.drop_last();
        assert(tree_keys(d) =~= tree_keys(t).drop_last());
        lemma_filter_keys_no_dup(d, f);
        if f(t.last()) {
            assert(tree_keys(t.filter(f)) =~= tree_keys(d.filter(f)).push(t.last().0@));
            assert forall|i: int| 0 <= i < tree_keys(d.filter(f)).len() implies tree_keys(d.filter(f))[i]
                != t.last().0@ by {
                let x = d.filter(f)[i];
                assert(d.filter(f).contains(x));
                d.lemma_filter_contains_rev(f, x);
                assert(d.contains(x));
                let w = choose|w: int| 0 <= w < d.len() && d[w] == x;
                assert(tree_keys(t)[w] == x.0@);
                assert(tree_keys(t)[t.len() - 1] == t.last().0@);
            }
        }
    }
}

/// The callers of `c` whose caller is not in `prev`.
pub open spec fn unvisited(sr: ScanResults, c: Seq<char>, prev: Set<Seq<char>>) -> Set<EffectInfoView> {
    sr.callers(c).filter(|e: EffectInfoView| !prev.contains(e.caller_path))
}

/// The root infos of a list of trees.
pub open spec fn forest_roots(ts: Seq<EffectTree>) -> Seq<EffectInfoView> {
    ts.map_values(|t: EffectTree| tree_info(t))
}

/// A caller tree built from the call graph, relative to the callers `prev`
/// already on the path from the base effect: a leaf is marked caller-checked and
/// has no caller left to visit; a branch has one child, in some order, for each
/// caller left to visit, and each child is such a tree with its own caller added to `prev`.
pub open spec fn caller_tree_ok(sr: ScanResults, t: EffectTree, prev: Set<Seq<char>>) -> bool
    decreases t,
{
    match t {
        EffectTree::Leaf(info, a) => a == SafetyAnnotation::CallerChecked && unvisited(
            sr,
            info.caller_path@,
            prev,
        ) == Set::<EffectInfoView>::empty(),
        EffectTree::Branch(info, ts) => {
            &&& ts@.len() > 0
            &&& forest_roots(ts@).no_duplicates()
            &&& forest_roots(ts@).to_set() == unvisited(sr, info.caller_path@, prev)
            &&& forall|i: int|
                0 <= i < ts@.len() ==> caller_tree_ok(
                    sr,
                    #[trigger] ts@[i],
                    prev.insert(tree_info(ts@[i]).caller_path),
                )
        },
    }
}

/// The number of nodes of a tree.
pub open spec fn tree_nodes(t: EffectTree) -> nat
    decreases t,
{
    match t {
        EffectTree::Leaf(_, _) => 1,
        EffectTree::Branch(_, ts) => 1 + forest_nodes(ts@),
    }
}

/// The number of nodes of a list of trees.
pub open spec fn forest_nodes(ts: Seq<EffectTree>) -> nat
    decreases ts,
{
    if ts.len() == 0 {
        0
    } else {
        forest_nodes(ts.drop_last()) + tree_nodes(ts.last())
    }
}

/// The set recorded for key `k` in a caller-checked map (empty if `k` is not a key).
pub open spec fn cc_lookup(m: Seq<(CanonicalPath, Vec<EffectInstance>)>, k: Seq<char>) -> Set<
    EffectInstanceView,
> {
    Set::new(
        |e: EffectInstanceView|
            exists|j: int| 0 <= j < m.len() && (#[trigger] m[j]).0@ == k && cc_entry(m, j).contains(e),
    )
}

proof fn lemma_cc_lookup(m: Seq<(CanonicalPath, Vec<EffectInstance>)>, j: int)
    requires
        cc_wf(m),
        0 <= j < m.len(),
    ensures
        cc_lookup(m, m[j].0@) == cc_entry(m, j),
{
    let k = m[j].0@;
    assert forall|e: EffectInstanceView| cc_lookup(m, k).contains(e) implies cc_entry(m, j).contains(e) by {
        let w = choose|w: int| 0 <= w < m.len() && (#[trigger] m[w]).0@ == k && cc_entry(m, w).contains(e);
        assert(cc_keys(m)[w] == m[w].0@);
        assert(cc_keys(m)[j] == m[j].0@);
    }
    assert forall|e: EffectInstanceView| cc_entry(m, j).contains(e) implies cc_lookup(m, k).contains(e) by {
        assert(m[j].0@ == k);
    }
    assert(cc_lookup(m, k) =~= cc_entry(m, j));
}

proof fn lemma_cc_lookup_absent(m: Seq<(CanonicalPath, Vec<EffectInstance>)>, k: Seq<char>)
    requires
        !cc_keys(m).contains(k),
    ensures
        cc_lookup(m, k) == Set::<EffectInstanceView>::empty(),
{
    assert forall|e: EffectInstanceView| !cc_lookup(m, k).contains(e) by {
        if cc_lookup(m, k).contains(e) {
            let j = choose|j: int| 0 <= j < m.len() && (#[trigger] m[j]).0@ == k && cc_entry(m, j).contains(e);
            assert(cc_keys(m)[j] == k);
        }
    }
    assert(cc_lookup(m, k) =~= Set::<EffectInstanceView>::empty());
}

/// `entry(key).or_default().insert(base)` on a caller-checked map.
fn cc_add(
    pcc: &mut Vec<(CanonicalPath, Vec<EffectInstance>)>,
    key: &CanonicalPath,
    base: &EffectInstance,
)
    requires
        cc_wf(old(pcc)@),
    ensures
        cc_wf(final(pcc)@),
        forall|k: Seq<char>|
            #[trigger] cc_lookup(final(pcc)@, k) == if k == key@ {
                cc_lookup(old(pcc)@, k).insert(base@)
            } else {
                cc_lookup(old(pcc)@, k)
            },
        forall|k: Seq<char>|
            #[trigger] cc_keys(final(pcc)@).contains(k) <==> (cc_keys(old(pcc)@).contains(k) || k
                == key@),
{
    let ghost m0 = pcc@;
    match find_entry(pcc, key) {
        Some(j) => {
            add_to_entry(pcc, j, base);
            proof {
                assert forall|k: Seq<char>|
                    #[trigger] cc_lookup(pcc@, k) == if k == key@ {
                        cc_lookup(m0, k).insert(base@)
                    } else {
                        cc_lookup(m0, k)
                    } by {
                    if cc_keys(m0).contains(k) {
                        let w = choose|w: int| 0 <= w < cc_keys(m0).len() && cc_keys(m0)[w] == k;
                        assert(m0[w].0@ == k);
                        assert(cc_keys(pcc@)[w] == k);
                        lemma_cc_lookup(m0, w);
                        lemma_cc_lookup(pcc@, w);
                        if k == key@ {
                            assert(cc_keys(m0)[j as int] == k);
                        }
                    } else {
                        lemma_cc_lookup_absent(m0, k);
                        lemma_cc_lookup_absent(pcc@, k);
                        assert(cc_keys(m0)[j as int] == key@);
                    }
                }
                assert forall|k: Seq<char>|
                    #[trigger] cc_keys(pcc@).contains(k) <==> (cc_keys(m0).contains(k) || k == key@) by {
                    assert(cc_keys(m0)[j as int] == key@);
                }
            }
        },
        None => {
            let mut set: Vec<EffectInstance> = Vec::new();
            set.push(base.clone());
            let ghost sv = set@;
            pcc.push((key.clone(), set));
            proof {
                let n = m0.len() as int;
                assert(cc_keys(pcc@) =~= cc_keys(m0).push(key@));
                assert(instance_views(sv) =~= seq![base@]);
                assert forall|a: int| 0 <= a < pcc@.len() implies instance_views(#[trigger] pcc@[a].1@).no_duplicates() by {
                    if a < n {
                        assert(pcc@[a] == m0[a]);
                    }
                }
                assert(cc_wf(pcc@));
                assert forall|k: Seq<char>|
                    #[trigger] cc_lookup(pcc@, k) == if k == key@ {
                        cc_lookup(m0, k).insert(base@)
                    } else {
                        cc_lookup(m0, k)
                    } by {
                    if k == key@ {
                        lemma_cc_lookup_absent(m0, k);
                        lemma_cc_lookup(pcc@, n);
                        assert(pcc@[n].1@ == sv);
                        assert(cc_entry(pcc@, n) =~= set![base@]) by {
                            broadcast use vstd::seq_lib::group_seq_properties;
                            assert(instance_views(sv).to_set() =~= set![base@]);
                        }
                        assert(Set::<EffectInstanceView>::empty().insert(base@) =~= set![base@]);
                    } else if cc_keys(m0).contains(k) {
                        let w = choose|w: int| 0 <= w < cc_keys(m0).len() && cc_keys(m0)[w] == k;
                        assert(m0[w].0@ == k);
                        assert(pcc@[w] == m0[w]);
                        lemma_cc_lookup(m0, w);
                        lemma_cc_lookup(pcc@, w);
                    } else {
                        lemma_cc_lookup_absent(m0, k);
                        assert(!cc_keys(pcc@).contains(k));
                        lemma_cc_lookup_absent(pcc@, k);
                    }
                }
                assert forall|k: Seq<char>|
                    #[trigger] cc_keys(pcc@).contains(k) <==> (cc_keys(m0).contains(k) || k == key@) by {
                    broadcast use vstd::seq_lib::group_seq_properties;
                }
            }
        },
    }
}

/// The paths of a list of callers, as a set.
pub open spec fn prev_set(prev: Seq<CanonicalPath>) -> Set<Seq<char>> {
    path_views(prev).to_set()
}

/// The caller-checked map `m1` is `m0` with `base` added at exactly the keys
/// that satisfy `marked`.
pub open spec fn cc_grown(
    m0: Seq<(CanonicalPath, Vec<EffectInstance>)>,
    m1: Seq<(CanonicalPath, Vec<EffectInstance>)>,
    base: EffectInstanceView,
    marked: spec_fn(Seq<char>) -> bool,
) -> bool {
    &&& forall|k: Seq<char>|
        #[trigger] cc_lookup(m1, k) == if marked(k) {
            cc_lookup(m0, k).insert(base)
        } else {
            cc_lookup(m0, k)
        }
    &&& forall|k: Seq<char>|
        #[trigger] cc_keys(m1).contains(k) <==> (cc_keys(m0).contains(k) || marked(k))
}

/// Each set of the caller-checked map `m1` is that of `m0`, with or without `base`.
pub open spec fn cc_grown_some(
    m0: Seq<(CanonicalPath, Vec<EffectInstance>)>,
    m1: Seq<(CanonicalPath, Vec<EffectInstance>)>,
    base: EffectInstanceView,
) -> bool {
    forall|k: Seq<char>|
        #[trigger] cc_lookup(m1, k) == cc_lookup(m0, k) || cc_lookup(m1, k) == cc_lookup(
            m0,
            k,
        ).insert(base)
}

proof fn lemma_cc_grown_none(m: Seq<(CanonicalPath, Vec<EffectInstance>)>, base: EffectInstanceView)
    ensures
        cc_grown(m, m, base, |k: Seq<char>| false),
{
}

proof fn lemma_cc_grown_trans(
    m0: Seq<(CanonicalPath, Vec<EffectInstance>)>,
    m1: Seq<(CanonicalPath, Vec<EffectInstance>)>,
    m2: Seq<(CanonicalPath, Vec<EffectInstance>)>,
    base: EffectInstanceView,
    f: spec_fn(Seq<char>) -> bool,
    g: spec_fn(Seq<char>) -> bool,
    h: spec_fn(Seq<char>) -> bool,
)
    requires
        cc_grown(m0, m1, base, f),
        cc_grown(m1, m2, base, g),
        forall|k: Seq<char>| #[trigger] h(k) == (f(k) || g(k)),
    ensures
        cc_grown(m0, m2, base, h),
{
    assert forall|k: Seq<char>|
        #[trigger] cc_lookup(m2, k) == if h(k) {
            cc_lookup(m0, k).insert(base)
        } else {
            cc_lookup(m0, k)
        } by {
        assert(cc_lookup(m1, k) == if f(k) {
            cc_lookup(m0, k).insert(base)
        } else {
            cc_lookup(m0, k)
        });
        assert(cc_lookup(m2, k) == if g(k) {
            cc_lookup(m1, k).insert(base)
        } else {
            cc_lookup(m1, k)
        });
        assert(cc_lookup(m0, k).insert(base).insert(base) =~= cc_lookup(m0, k).insert(base));
    }
    assert forall|k: Seq<char>|
        #[trigger] cc_keys(m2).contains(k) <==> (cc_keys(m0).contains(k) || h(k)) by {
        assert(cc_keys(m2).contains(k) <==> (cc_keys(m1).contains(k) || g(k)));
        assert(cc_keys(m1).contains(k) <==> (cc_keys(m0).contains(k) || f(k)));
    }
}

proof fn lemma_prev_set_push(prev: Seq<CanonicalPath>, c: CanonicalPath)
    ensures
        prev_set(prev.push(c)) == prev_set(prev).insert(c@),
{
    broadcast use vstd::seq_lib::group_seq_properties;
    assert(path_views(prev.push(c)) =~= path_views(prev).push(c@));
}

proof fn lemma_caller_in_graph(sr: ScanResults, p: Seq<char>, x: EffectInfoView)
    requires
        sr.wf(),
        sr.callers(p).contains(x),
    ensures
        graph_nodes(sr.call_graph).contains(x.caller_path),
{
    let nodes = graph_nodes(sr.call_graph);
    let edges = graph_edges(sr.call_graph);
    let j = choose|j: int|
        0 <= j < edges.len() && nodes[(#[trigger] edges[j]).1 as int] == p && x == (
        EffectInfoView { caller_path: nodes[edges[j].0 as int], callee_loc: edges[j].2 });
    assert(nodes[edges[j].0 as int] == x.caller_path);
}

/// The callers of `callee` in the call graph whose caller is not in `prev`,
/// or `MissingCallee` if `callee` is not a node of the call graph.
fn unvisited_callers(
    scan_res: &ScanResults,
    callee: &CanonicalPath,
    prev: &Vec<CanonicalPath>,
) -> (r: Result<Vec<EffectInfo>, AuditError>)
    requires
        scan_res.wf(),
    ensures
        r is Err <==> !graph_nodes(scan_res.call_graph).contains(callee@),
        r is Err ==> r == Err::<Vec<EffectInfo>, AuditError>(AuditError::MissingCallee),
        r matches Ok(v) ==> info_views(v@).no_duplicates() && info_views(v@).to_set() == unvisited(
            *scan_res,
            callee@,
            prev_set(prev@),
        ),
{
    let all = match scan_res.get_callers(callee) {
        Ok(v) => v,
        Err(_) => {
            return Err(AuditError::MissingCallee);
        },
    };
    let ghost av = info_views(all@);
    let ghost ps = prev_set(prev@);
    let mut res: Vec<EffectInfo> = Vec::new();
    let mut i: usize = 0;
    proof {
        assert(info_views(res@) =~= Seq::<EffectInfoView>::empty());
    }
    while i < all.len()
        invariant
            i <= all.len(),
            av == info_views(all@),
            ps == prev_set(prev@),
            av.no_duplicates(),
            info_views(res@).no_duplicates(),
            forall|x: EffectInfoView|
                #[trigger] info_views(res@).contains(x) <==> (av.take(i as int).contains(x)
                    && !ps.contains(x.caller_path)),
        decreases all.len() - i,
    {
        let ghost before = info_views(res@);
        let keep = !contains_path(prev, &all[i].caller_path);
        if keep {
            res.push(all[i].clone());
            proof {
                assert(info_views(res@) =~= before.push(all@[i as int]@));
                assert(!before.contains(av[i as int])) by {
                    if before.contains(av[i as int]) {
                        let w = choose|w: int| 0 <= w < i && av.take(i as int)[w] == av[i as int];
                        assert(av[w] == av[i as int]);
                    }
                }
                assert forall|a: int, b: int|
                    0 <= a < info_views(res@).len() && 0 <= b < info_views(res@).len() && a != b
                        implies info_views(res@)[a] != info_views(res@)[b] by {
                    if a < before.len() && b < before.len() {
                        assert(info_views(res@)[a] == before[a]);
                        assert(info_views(res@)[b] == before[b]);
                    } else if a < before.len() {
                        assert(info_views(res@)[a] == before[a]);
                    } else if b < before.len() {
                        assert(info_views(res@)[b] == before[b]);
                    }
                }
            }
        }
        proof {
            assert(ps.contains(all@[i as int].caller_path@) == path_views(prev@).contains(
                all@[i as int].caller_path@,
            ));
            assert(av.take(i + 1) =~= av.take(i as int).push(av[i as int]));
            assert forall|x: EffectInfoView|
                #[trigger] info_views(res@).contains(x) <==> (av.take(i + 1).contains(x)
                    && !ps.contains(x.caller_path)) by {
                assert(av.take(i + 1)[i as int] == av[i as int]);
                if av.take(i + 1).contains(x) {
                    let w = choose|w: int| 0 <= w < i + 1 && #[trigger] av.take(i + 1)[w] == x;
                    if w < i {
                        assert(av.take(i as int)[w] == x);
                    }
                }
                if av.take(i as int).contains(x) {
                    let w = choose|w: int| 0 <= w < i && #[trigger] av.take(i as int)[w] == x;
                    assert(av.take(i + 1)[w] == x);
                }
                if keep {
                    assert(info_views(res@) =~= before.push(av[i as int]));
                    assert(info_views(res@)[before.len() as int] == av[i as int]);
                    if before.contains(x) {
                        let w = choose|w: int| 0 <= w < before.len() && #[trigger] before[w] == x;
                        assert(info_views(res@)[w] == x);
                    }
                    if info_views(res@).contains(x) {
                        let w = choose|w: int| 0 <= w < info_views(res@).len() && #[trigger] info_views(res@)[w] == x;
                        if w < before.len() {
                            assert(before[w] == x);
                        }
                    }
                } else {
                    assert(info_views(res@) == before);
                }
            }
        }
        i = i + 1;
    }
    proof {
        assert(av.take(all.len() as int) =~= av);
        assert forall|x: EffectInfoView|
            info_views(res@).to_set().contains(x) <==> #[trigger] unvisited(
                *scan_res,
                callee@,
                ps,
            ).contains(x) by {
            assert(info_views(res@).to_set().contains(x) == info_views(res@).contains(x));
            assert(av.to_set().contains(x) == av.contains(x));
        }
        assert(info_views(res@).to_set() =~= unvisited(*scan_res, callee@, ps));
    }
    Ok(res)
}


proof fn lemma_diff_step(
    old_r: Seq<Seq<char>>,
    new_r: Seq<Seq<char>>,
    t0: Seq<Seq<char>>,
    t1: Seq<Seq<char>>,
    k: Seq<char>,
    keys2: Seq<Seq<char>>,
    pushed: bool,
)
    requires
        forall|p: Seq<char>| t1.contains(p) <==> (t0.contains(p) || p == k),
        forall|p: Seq<char>| old_r.contains(p) <==> (t0.contains(p) && !keys2.contains(p)),
        pushed ==> new_r == old_r.push(k) && !keys2.contains(k),
        !pushed ==> new_r == old_r && keys2.contains(k),
    ensures
        forall|p: Seq<char>| new_r.contains(p) <==> (t1.contains(p) && !keys2.contains(p)),
{
    assert forall|p: Seq<char>| new_r.contains(p) <==> (t1.contains(p) && !keys2.contains(p)) by {
        if pushed {
            if new_r.contains(p) {
                let w = choose|w: int| 0 <= w < new_r.len() && new_r[w] == p;
                if w < old_r.len() {
                    assert(old_r[w] == p);
                }
            }
            if old_r.contains(p) {
                let w = choose|w: int| 0 <= w < old_r.len() && old_r[w] == p;
                assert(new_r[w] == p);
            }
            if p == k {
                assert(new_r[old_r.len() as int] == p);
            }
        }
    }
}

impl AuditFile {
    /// Mark caller-checked functions but don't add a caller to the tree more
    /// than once (so we don't get an infinite cycle).
    fn mark_caller_checked_recurse(
        base_effect: &EffectInstance,
        tree: &mut EffectTree,
        pub_caller_checked: &mut Vec<(CanonicalPath, Vec<EffectInstance>)>,
        scan_res: &ScanResults,
        prev_callers: &mut Vec<CanonicalPath>,
        tree_size: &mut i32,
    ) -> (r: Result<(), AuditError>)
        requires
            scan_res.wf(),
            cc_wf(old(pub_caller_checked)@),
        ensures
            cc_wf(final(pub_caller_checked)@),
            cc_grown_some(old(pub_caller_checked)@, final(pub_caller_checked)@, base_effect@),
            *final(tree_size) >= *old(tree_size),
            tree_info(*final(tree)) == tree_info(*old(tree)),
            r matches Err(e) ==> e == AuditError::TreeTooLarge || e == AuditError::MissingCallee,
            (r == Err::<(), AuditError>(AuditError::TreeTooLarge)) <==> *final(tree_size)
                > MAX_CALLER_CHECKED_TREE_SIZE,
            (r == Err::<(), AuditError>(AuditError::MissingCallee)) <==> (*old(tree_size)
                <= MAX_CALLER_CHECKED_TREE_SIZE && *old(tree) is Leaf && !graph_nodes(
                scan_res.call_graph,
            ).contains(tree_info(*old(tree)).caller_path)),
            r is Err ==> *final(tree) == *old(tree),
            r == Err::<(), AuditError>(AuditError::TreeTooLarge) && *old(tree) is Leaf ==> forall|
                t: EffectTree,
            |
                caller_tree_ok(*scan_res, t, prev_set(old(prev_callers)@)) && tree_info(t).caller_path
                    == tree_info(*old(tree)).caller_path ==> *old(tree_size) + tree_nodes(t) - 1
                    >= *final(tree_size),
            r is Ok ==> final(prev_callers)@ == old(prev_callers)@,
            r is Ok && *old(tree) is Branch ==> *final(tree) == *old(tree)
                && final(pub_caller_checked)@ == old(pub_caller_checked)@
                && *final(tree_size) == *old(tree_size),
            r is Ok && *old(tree) is Leaf ==> {
                &&& caller_tree_ok(*scan_res, *final(tree), prev_set(old(prev_callers)@))
                &&& *final(tree_size) == *old(tree_size) + tree_nodes(*final(tree)) - 1
                &&& cc_grown(
                    old(pub_caller_checked)@,
                    final(pub_caller_checked)@,
                    base_effect@,
                    (|k: Seq<char>|
                        path_views(scan_res.pub_fns@).contains(k) && tree_marks(*final(tree), k)),
                )
            },
        decreases nodes_left(*scan_res, old(prev_callers)@),
    {
        if *tree_size > MAX_CALLER_CHECKED_TREE_SIZE {
            return Err(AuditError::TreeTooLarge);
        }
        let info = match &*tree {
            EffectTree::Leaf(i, _) => i.clone(),
            EffectTree::Branch(_, _) => {
                return Ok(());
            },
        };
        let ghost pcc0 = pub_caller_checked@;
        let ghost prev0 = prev_callers@;
        let ghost size0 = *tree_size;
        let ghost pubs = path_views(scan_res.pub_fns@);
        let ghost root = info.caller_path@;
        // Add the function to the list of sinks if it is public
        let is_pub = contains_path(&scan_res.pub_fns, &info.caller_path);
        if is_pub {
            cc_add(pub_caller_checked, &info.caller_path, base_effect);
        }
        let ghost pcc1 = pub_caller_checked@;
        let ghost root_mark = |k: Seq<char>| pubs.contains(k) && k == root;
        proof {
            if !is_pub {
                lemma_cc_grown_none(pcc0, base_effect@);
                assert(cc_grown(pcc0, pcc1, base_effect@, root_mark)) by {
                    assert forall|k: Seq<char>| #[trigger] root_mark(k) == false by {}
                }
            }
        }
        let callers = match unvisited_callers(scan_res, &info.caller_path, prev_callers) {
            Ok(v) => v,
            Err(e) => {
                return Err(e);
            },
        };
        let ghost cv = info_views(callers@);
        if callers.len() == 0 {
            *tree = EffectTree::Leaf(info, SafetyAnnotation::CallerChecked);
            proof {
                assert(cv.to_set() =~= Set::<EffectInfoView>::empty());
                assert forall|k: Seq<char>|
                    #[trigger] root_mark(k) == (pubs.contains(k) && tree_marks(*tree, k)) by {}
                assert(cc_grown(pcc0, pcc1, base_effect@, (|k: Seq<char>|
                    pubs.contains(k) && tree_marks(*tree, k)))) by {
                    lemma_cc_grown_none(pcc1, base_effect@);
                    lemma_cc_grown_trans(pcc0, pcc1, pcc1, base_effect@, root_mark, |k: Seq<char>| false,
                        |k: Seq<char>| pubs.contains(k) && tree_marks(*tree, k));
                }
            }
            return Ok(());
        }
        let mut children: Vec<EffectTree> = Vec::new();
        let mut i: usize = 0;
        while i < callers.len()
            invariant
                scan_res.wf(),
                i <= callers.len(),
                children.len() == i,
                cv == info_views(callers@),
                cv.no_duplicates(),
                cv.to_set() == unvisited(*scan_res, root, prev_set(prev0)),
                graph_nodes(scan_res.call_graph).contains(root),
                nodes_left(*scan_res, prev0) == nodes_left(*scan_res, old(prev_callers)@),
                prev0 == old(prev_callers)@,
                pcc0 == old(pub_caller_checked)@,
                size0 == *old(tree_size),
                *tree == *old(tree),
                *old(tree) is Leaf,
                root == tree_info(*old(tree)).caller_path,
                prev_callers@ == prev0,
                pubs == path_views(scan_res.pub_fns@),
                forall|k: int|
                    0 <= k < i ==> tree_info(#[trigger] children@[k]) == callers@[k]@
                        && caller_tree_ok(
                        *scan_res,
                        children@[k],
                        prev_set(prev0).insert(callers@[k]@.caller_path),
                    ),
                *tree_size == size0 + forest_nodes(children@),
                size0 <= *tree_size <= MAX_CALLER_CHECKED_TREE_SIZE,
                cc_wf(pub_caller_checked@),
                cc_grown_some(pcc0, pub_caller_checked@, base_effect@),
                cc_grown(
                    pcc0,
                    pub_caller_checked@,
                    base_effect@,
                    (|k: Seq<char>| pubs.contains(k) && (k == root || forest_marks(children@, k))),
                ),
            decreases callers.len() - i,
        {
            *tree_size = *tree_size + 1;
            let e = callers[i].clone();
            let next = e.caller_path.clone();
            let ghost pcc_before = pub_caller_checked@;
            let ghost ch_before = children@;
            let ghost size_before = *tree_size;
            proof {
                assert(cv[i as int] == callers@[i as int]@);
                assert(cv.to_set().contains(cv[i as int]));
                lemma_caller_in_graph(*scan_res, root, e@);
                assert(!prev_set(prev0).contains(next@));
                lemma_nodes_left_decreases(*scan_res, prev0, next);
                lemma_prev_set_push(prev0, next);
            }
            prev_callers.push(next);
            let mut child = EffectTree::Leaf(e, SafetyAnnotation::Skipped);
            let res = Self::mark_caller_checked_recurse(
                base_effect,
                &mut child,
                pub_caller_checked,
                scan_res,
                prev_callers,
                tree_size,
            );
            match res {
                Ok(()) => {},
                Err(err) => {
                    proof {
                        if err == AuditError::TreeTooLarge {
                            assert forall|t: EffectTree|
                                caller_tree_ok(*scan_res, t, prev_set(prev0)) && tree_info(t).caller_path
                                    == root implies size0 + tree_nodes(t) - 1 >= *tree_size by {
                                let tc = lemma_prefix_nodes_le(
                                    *scan_res,
                                    prev_set(prev0),
                                    root,
                                    cv,
                                    ch_before,
                                    i as int,
                                    t,
                                );
                                assert(caller_tree_ok(*scan_res, tc, prev_set(prev0.push(next))));
                            }
                        }
                        assert forall|k: Seq<char>|
                            #[trigger] cc_lookup(pub_caller_checked@, k) == cc_lookup(pcc0, k)
                                || cc_lookup(pub_caller_checked@, k) == cc_lookup(pcc0, k).insert(
                                base_effect@,
                            ) by {
                            assert(cc_lookup(pcc_before, k) == cc_lookup(pcc0, k)
                                || cc_lookup(pcc_before, k) == cc_lookup(pcc0, k).insert(base_effect@));
                            assert(cc_lookup(pub_caller_checked@, k) == cc_lookup(pcc_before, k)
                                || cc_lookup(pub_caller_checked@, k) == cc_lookup(pcc_before, k).insert(base_effect@));
                            assert(cc_lookup(pcc0, k).insert(base_effect@).insert(base_effect@)
                                =~= cc_lookup(pcc0, k).insert(base_effect@));
                        }
                    }
                    return Err(err);
                },
            }
            prev_callers.pop();
            children.push(child);
            proof {
                assert(children@.drop_last() =~= ch_before);
                assert(children@[i as int] == child);
                let f = |k: Seq<char>| pubs.contains(k) && (k == root || forest_marks(ch_before, k));
                let g = |k: Seq<char>| pubs.contains(k) && tree_marks(child, k);
                let h = |k: Seq<char>| pubs.contains(k) && (k == root || forest_marks(children@, k));
                assert forall|k: Seq<char>| #[trigger] h(k) == (f(k) || g(k)) by {}
                lemma_cc_grown_trans(pcc0, pcc_before, pub_caller_checked@, base_effect@, f, g, h);
                assert forall|k: Seq<char>|
                    #[trigger] cc_lookup(pub_caller_checked@, k) == cc_lookup(pcc0, k)
                        || cc_lookup(pub_caller_checked@, k) == cc_lookup(pcc0, k).insert(
                        base_effect@,
                    ) by {
                    assert(cc_lookup(pub_caller_checked@, k) == if h(k) {
                        cc_lookup(pcc0, k).insert(base_effect@)
                    } else {
                        cc_lookup(pcc0, k)
                    });
                }
                assert forall|k: int|
                    0 <= k < i + 1 implies tree_info(#[trigger] children@[k]) == callers@[k]@
                        && caller_tree_ok(
                        *scan_res,
                        children@[k],
                        prev_set(prev0).insert(callers@[k]@.caller_path),
                    ) by {
                    if k < i {
                        assert(children@[k] == ch_before[k]);
                    }
                }
            }
            i = i + 1;
        }
        *tree = EffectTree::Branch(info, children);
        proof {
            let t = *tree;
            assert(forest_roots(children@) =~= cv);
            assert forall|k: int|
                0 <= k < children@.len() implies caller_tree_ok(
                *scan_res,
                #[trigger] children@[k],
                prev_set(prev0).insert(tree_info(children@[k]).caller_path),
            ) by {
                assert(tree_info(children@[k]) == callers@[k]@);
            }
            assert(caller_tree_ok(*scan_res, t, prev_set(prev0)));
            let h = |k: Seq<char>| pubs.contains(k) && (k == root || forest_marks(children@, k));
            let h2 = |k: Seq<char>| pubs.contains(k) && tree_marks(t, k);
            lemma_cc_grown_none(pub_caller_checked@, base_effect@);
            lemma_cc_grown_trans(pcc0, pub_caller_checked@, pub_caller_checked@, base_effect@, h,
                |k: Seq<char>| false, h2);
        }
        Ok(())
    }
}


proof fn lemma_forest_nodes_remove(ts: Seq<EffectTree>, j: int)
    requires
        0 <= j < ts.len(),
    ensures
        forest_nodes(ts) == forest_nodes(ts.remove(j)) + tree_nodes(ts[j]),
    decreases ts.len(),
{
    if j == ts.len() - 1 {
        assert(ts.remove(j) =~= ts.drop_last());
    } else {
        lemma_forest_nodes_remove(ts.drop_last(), j);
        assert(ts.remove(j).drop_last() =~= ts.drop_last().remove(j));
        assert(ts.remove(j).last() == ts.last());
        assert(ts.drop_last()[j] == ts[j]);
    }
}

proof fn lemma_forest_nodes_push(ts: Seq<EffectTree>, t: EffectTree)
    ensures
        forest_nodes(ts.push(t)) == forest_nodes(ts) + tree_nodes(t),
{
    assert(ts.push(t).drop_last() =~= ts);
}

/// Lists of trees with distinct roots: where every root of `a` is a root of
/// `b`, and trees with the same root have as many nodes, `a` has at most as
/// many nodes as `b`.
proof fn lemma_forest_nodes_le(a: Seq<EffectTree>, b: Seq<EffectTree>)
    requires
        forest_roots(a).no_duplicates(),
        forest_roots(b).no_duplicates(),
        forall|i: int| 0 <= i < a.len() ==> forest_roots(b).contains(#[trigger] tree_info(a[i])),
        forall|i: int, j: int|
            0 <= i < a.len() && 0 <= j < b.len() && tree_info(#[trigger] a[i]) == tree_info(
                #[trigger] b[j],
            ) ==> tree_nodes(a[i]) == tree_nodes(b[j]),
    ensures
        forest_nodes(a) <= forest_nodes(b),
    decreases a.len(),
{
    if a.len() > 0 {
        let n = a.len() - 1;
        let x = a[n];
        let r = tree_info(x);
        assert(forest_roots(b).contains(tree_info(a[n])));
        let j = choose|j: int| 0 <= j < forest_roots(b).len() && forest_roots(b)[j] == r;
        assert(tree_info(b[j]) == r);
        let b2 = b.remove(j);
        let a2 = a.drop_last();
        lemma_forest_nodes_remove(b, j);
        assert(forest_roots(b2) =~= forest_roots(b).remove(j));
        assert(forest_roots(a2) =~= forest_roots(a).drop_last());
        assert forall|u: int, v: int|
            0 <= u < forest_roots(b2).len() && 0 <= v < forest_roots(b2).len() && u != v implies forest_roots(
            b2,
        )[u] != forest_roots(b2)[v] by {
            let uu = if u < j { u } else { u + 1 };
            let vv = if v < j { v } else { v + 1 };
            assert(forest_roots(b2)[u] == forest_roots(b)[uu]);
            assert(forest_roots(b2)[v] == forest_roots(b)[vv]);
        }
        assert forall|u: int, v: int|
            0 <= u < forest_roots(a2).len() && 0 <= v < forest_roots(a2).len() && u != v implies forest_roots(
            a2,
        )[u] != forest_roots(a2)[v] by {
            assert(forest_roots(a2)[u] == forest_roots(a)[u]);
            assert(forest_roots(a2)[v] == forest_roots(a)[v]);
        }
        assert forall|i: int| 0 <= i < a2.len() implies forest_roots(b2).contains(#[trigger] tree_info(a2[i])) by {
            assert(a2[i] == a[i]);
            assert(forest_roots(a)[i] == tree_info(a[i]));
            assert(forest_roots(a)[n] == r);
            assert(tree_info(a[i]) != r);
            assert(forest_roots(b).contains(tree_info(a[i])));
            let k = choose|k: int| 0 <= k < forest_roots(b).len() && forest_roots(b)[k] == tree_info(a[i]);
            assert(k != j);
            if k < j {
                assert(forest_roots(b2)[k] == tree_info(a[i]));
            } else {
                assert(forest_roots(b2)[k - 1] == tree_info(a[i]));
            }
        }
        assert forall|i: int, k: int|
            0 <= i < a2.len() && 0 <= k < b2.len() && tree_info(#[trigger] a2[i]) == tree_info(
                #[trigger] b2[k],
            ) implies tree_nodes(a2[i]) == tree_nodes(b2[k]) by {
            assert(a2[i] == a[i]);
            let kk = if k < j { k } else { k + 1 };
            assert(b2[k] == b[kk]);
        }
        lemma_forest_nodes_le(a2, b2);
        assert(tree_nodes(a[n]) == tree_nodes(b[j]));
        assert(a =~= a2.push(x));
        lemma_forest_nodes_push(a2, x);
    }
}

/// Two caller trees built from the same caller, below the same callers, have
/// the same number of nodes, whatever order their children come in: the size
/// of a default caller-checked tree does not depend on the order in which the
/// call graph gives the callers.
pub proof fn law_caller_tree_nodes_unique(
    sr: ScanResults,
    t1: EffectTree,
    t2: EffectTree,
    prev: Set<Seq<char>>,
)
    requires
        caller_tree_ok(sr, t1, prev),
        caller_tree_ok(sr, t2, prev),
        tree_info(t1).caller_path == tree_info(t2).caller_path,
    ensures
        tree_nodes(t1) == tree_nodes(t2),
    decreases t1,
{
    let c = tree_info(t1).caller_path;
    match t1 {
        EffectTree::Leaf(_, _) => {
            match t2 {
                EffectTree::Leaf(_, _) => {},
                EffectTree::Branch(_, ts2) => {
                    assert(forest_roots(ts2@).to_set().contains(forest_roots(ts2@)[0]));
                },
            }
        },
        EffectTree::Branch(i1, ts1) => {
            match t2 {
                EffectTree::Leaf(_, _) => {
                    assert(forest_roots(ts1@).to_set().contains(forest_roots(ts1@)[0]));
                },
                EffectTree::Branch(i2, ts2) => {
                    let a = ts1@;
                    let b = ts2@;
                    assert forall|i: int, j: int|
                        0 <= i < a.len() && 0 <= j < b.len() && tree_info(#[trigger] a[i])
                            == tree_info(#[trigger] b[j]) implies tree_nodes(a[i]) == tree_nodes(
                        b[j],
                    ) by {
                        assert(decreases_to!(t1 => a[i]));
                        law_caller_tree_nodes_unique(
                            sr,
                            a[i],
                            b[j],
                            prev.insert(tree_info(a[i]).caller_path),
                        );
                    }
                    assert forall|i: int, j: int|
                        0 <= i < b.len() && 0 <= j < a.len() && tree_info(#[trigger] b[i])
                            == tree_info(#[trigger] a[j]) implies tree_nodes(b[i]) == tree_nodes(
                        a[j],
                    ) by {
                        assert(tree_info(a[j]) == tree_info(b[i]));
                    }
                    assert forall|i: int| 0 <= i < a.len() implies forest_roots(b).contains(
                        #[trigger] tree_info(a[i]),
                    ) by {
                        assert(forest_roots(a)[i] == tree_info(a[i]));
                        assert(forest_roots(a).to_set().contains(tree_info(a[i])));
                    }
                    assert forall|i: int| 0 <= i < b.len() implies forest_roots(a).contains(
                        #[trigger] tree_info(b[i]),
                    ) by {
                        assert(forest_roots(b)[i] == tree_info(b[i]));
                        assert(forest_roots(b).to_set().contains(tree_info(b[i])));
                    }
                    lemma_forest_nodes_le(a, b);
                    lemma_forest_nodes_le(b, a);
                },
            }
        },
    }
}


/// The children built so far, and the complete tree of the next caller, have
/// fewer nodes than any complete caller tree of their parent.
proof fn lemma_prefix_nodes_le(
    sr: ScanResults,
    prev: Set<Seq<char>>,
    root: Seq<char>,
    cv: Seq<EffectInfoView>,
    children: Seq<EffectTree>,
    i: int,
    t: EffectTree,
) -> (tc: EffectTree)
    requires
        0 <= i < cv.len(),
        cv.no_duplicates(),
        cv.to_set() == unvisited(sr, root, prev),
        children.len() == i,
        forall|k: int|
            0 <= k < i ==> tree_info(#[trigger] children[k]) == cv[k] && caller_tree_ok(
                sr,
                children[k],
                prev.insert(cv[k].caller_path),
            ),
        caller_tree_ok(sr, t, prev),
        tree_info(t).caller_path == root,
    ensures
        caller_tree_ok(sr, tc, prev.insert(cv[i].caller_path)),
        tree_info(tc).caller_path == cv[i].caller_path,
        forest_nodes(children) + tree_nodes(tc) + 1 <= tree_nodes(t),
{
    assert(cv.to_set().contains(cv[i]));
    match t {
        EffectTree::Leaf(_, _) => {
            assert(unvisited(sr, root, prev).contains(cv[i]));
            assert(false);
            t
        },
        EffectTree::Branch(_, ts) => {
            let b = ts@;
            assert(forest_roots(b).to_set().contains(cv[i]));
            let j = choose|j: int| 0 <= j < forest_roots(b).len() && forest_roots(b)[j] == cv[i];
            let tc = b[j];
            assert(tree_info(tc) == cv[i]);
            assert(caller_tree_ok(sr, b[j], prev.insert(tree_info(b[j]).caller_path)));
            let a = children.push(tc);
            assert forall|u: int, v: int|
                0 <= u < forest_roots(a).len() && 0 <= v < forest_roots(a).len() && u != v implies forest_roots(
                a,
            )[u] != forest_roots(a)[v] by {
                assert(forest_roots(a)[u] == cv[u]) by {
                    if u < i {
                        assert(a[u] == children[u]);
                    }
                }
                assert(forest_roots(a)[v] == cv[v]) by {
                    if v < i {
                        assert(a[v] == children[v]);
                    }
                }
            }
            assert forall|k: int| 0 <= k < a.len() implies forest_roots(b).contains(#[trigger] tree_info(a[k])) by {
                if k < i {
                    assert(a[k] == children[k]);
                }
                assert(tree_info(a[k]) == cv[k]);
                assert(cv.to_set().contains(cv[k]));
                assert(forest_roots(b).to_set().contains(cv[k]));
            }
            assert forall|k: int, m: int|
                0 <= k < a.len() && 0 <= m < b.len() && tree_info(#[trigger] a[k]) == tree_info(
                    #[trigger] b[m],
                ) implies tree_nodes(a[k]) == tree_nodes(b[m]) by {
                let x = tree_info(b[m]);
                assert(caller_tree_ok(sr, b[m], prev.insert(x.caller_path)));
                if k < i {
                    assert(a[k] == children[k]);
                    assert(tree_info(children[k]) == cv[k]);
                } else {
                    assert(a[k] == tc);
                }
                law_caller_tree_nodes_unique(sr, a[k], b[m], prev.insert(x.caller_path));
            }
            lemma_forest_nodes_le(a, b);
            lemma_forest_nodes_push(children, tc);
            tc
        },
    }
}

/// The number of graph nodes not yet on the path.
pub open spec fn nodes_left(sr: ScanResults, prev: Seq<CanonicalPath>) -> nat {
    graph_nodes(sr.call_graph).to_set().difference(path_views(prev).to_set()).len()
}

proof fn lemma_nodes_left_decreases(sr: ScanResults, prev: Seq<CanonicalPath>, c: CanonicalPath)
    requires
        graph_nodes(sr.call_graph).contains(c@),
        !path_views(prev).contains(c@),
    ensures
        nodes_left(sr, prev.push(c)) < nodes_left(sr, prev),
{
    broadcast use vstd::seq_lib::group_seq_properties;
    broadcast use vstd::set::group_set_axioms;
    let a = graph_nodes(sr.call_graph).to_set();
    let b = path_views(prev).to_set();
    assert(path_views(prev.push(c)) =~= path_views(prev).push(c@));
    assert(path_views(prev.push(c)).to_set() =~= b.insert(c@));
    assert(a.difference(b.insert(c@)) =~= a.difference(b).remove(c@));
    vstd::set_lib::lemma_set_difference_len(a, b);
    assert(a.difference(b).contains(c@));
}

/// Adds `base` to the set at key `key` of the caller-checked map.
fn add_to_entry(
    pcc: &mut Vec<(CanonicalPath, Vec<EffectInstance>)>,
    j: usize,
    base: &EffectInstance,
)
    requires
        j < old(pcc).len(),
        cc_wf(old(pcc)@),
    ensures
        final(pcc).len() == old(pcc).len(),
        cc_keys(final(pcc)@) == cc_keys(old(pcc)@),
        cc_wf(final(pcc)@),
        cc_entry(final(pcc)@, j as int) == cc_entry(old(pcc)@, j as int).insert(base@),
        forall|k: int| 0 <= k < final(pcc).len() && k != j ==> #[trigger] final(pcc)@[k] == old(pcc)@[k],
{
    let ghost old_pcc = pcc@;
    let entry = &mut pcc[j];
    assert(instance_views(entry.1@).no_duplicates());
    insert_instance(&mut entry.1, base);
    assert(cc_keys(pcc@) =~= cc_keys(old_pcc));
    assert forall|k: int| 0 <= k < pcc@.len() implies instance_views(#[trigger] pcc@[k].1@).no_duplicates() by {
        if k != j {
            assert(pcc@[k] == old_pcc[k]);
        }
    }
}

/// The index of the key `p` in the caller-checked map, if any.
fn find_entry(pcc: &Vec<(CanonicalPath, Vec<EffectInstance>)>, p: &CanonicalPath) -> (r: Option<usize>)
    ensures
        match r {
            None => !cc_keys(pcc@).contains(p@),
            Some(j) => j < pcc.len() && pcc@[j as int].0@ == p@,
        },
{
    let mut i: usize = 0;
    while i < pcc.len()
        invariant
            i <= pcc.len(),
            forall|k: int| 0 <= k < i ==> pcc@[k].0@ != p@,
        decreases pcc.len() - i,
    {
        if pcc[i].0.same_path(p) {
            return Some(i);
        }
        i = i + 1;
    }
    assert forall|k: int| 0 <= k < cc_keys(pcc@).len() implies cc_keys(pcc@)[k] != p@ by {
        assert(cc_keys(pcc@)[k] == pcc@[k].0@);
    }
    None
}

impl AuditFile {
    /// Well-formed: trees keyed by distinct base effects; a well-formed caller-checked map.
    pub open spec fn wf(&self) -> bool {
        &&& tree_keys(self.audit_trees@).no_duplicates()
        &&& cc_wf(self.pub_caller_checked@)
    }

    /// An audit file with no trees, for the crate at `p` whose contents hash to `hash`.
    pub fn empty(p: String, hash: [u8; 32], relevant_effects: Vec<EffectType>) -> (r: Self)
        ensures
            r.wf(),
            r.audit_trees@.len() == 0,
            r.pub_caller_checked@.len() == 0,
            r.base_dir@ == p@,
            r.hash@ == hash@,
            r.version == 0,
            r.scanned_effects@ == relevant_effects@,
    {
        let r = AuditFile {
            audit_trees: Vec::new(),
            pub_caller_checked: Vec::new(),
            base_dir: p,
            hash,
            version: 0,
            scanned_effects: relevant_effects,
        };
        assert(tree_keys(r.audit_trees@) =~= Seq::<EffectInstanceView>::empty());
        assert(cc_keys(r.pub_caller_checked@) =~= Seq::<Seq<char>>::empty());
        r
    }

    /// One fresh, unaudited tree for each distinct base effect.
    pub fn set_base_audit_trees(&mut self, effect_blocks: &Vec<EffectInstance>)
        requires
            old(self).wf(),
        ensures
            final(self).wf(),
            tree_keys(final(self).audit_trees@).to_set() == instance_views(effect_blocks@).to_set(),
            forall|i: int|
                0 <= i < final(self).audit_trees@.len() ==> base_tree(
                    (#[trigger] final(self).audit_trees@[i]).0@,
                    final(self).audit_trees@[i].1,
                ),
            final(self).pub_caller_checked == old(self).pub_caller_checked,
            final(self).base_dir == old(self).base_dir,
            final(self).hash == old(self).hash,
            final(self).version == old(self).version,
            final(self).scanned_effects == old(self).scanned_effects,
    {
        let mut trees: Vec<(EffectInstance, EffectTree)> = Vec::new();
        let mut keys: Vec<EffectInstance> = Vec::new();
        let mut i: usize = 0;
        proof {
            broadcast use vstd::seq_lib::group_seq_properties;
            assert(tree_keys(trees@) =~= Seq::<EffectInstanceView>::empty());
            assert(instance_views(keys@) =~= Seq::<EffectInstanceView>::empty());
            assert(instance_views(effect_blocks@).take(0) =~= Seq::<EffectInstanceView>::empty());
        }
        while i < effect_blocks.len()
            invariant
                i <= effect_blocks.len(),
                tree_keys(trees@) == instance_views(keys@),
                instance_views(keys@).no_duplicates(),
                instance_views(keys@).to_set() == instance_views(effect_blocks@).take(
                    i as int,
                ).to_set(),
                forall|k: int| 0 <= k < trees@.len() ==> base_tree((#[trigger] trees@[k]).0@, trees@[k].1),
            decreases effect_blocks.len() - i,
        {
            let x = &effect_blocks[i];
            let ghost old_keys = keys@;
            let ghost old_trees = trees@;
            if !contains_instance(&keys, x) {
                keys.push(x.clone());
                let leaf = EffectTree::Leaf(EffectInfo::from_instance(x), SafetyAnnotation::Skipped);
                trees.push((x.clone(), leaf));
                assert(tree_keys(trees@) =~= tree_keys(old_trees).push(x@));
                assert(instance_views(keys@) =~= instance_views(old_keys).push(x@));
            }
            proof {
                broadcast use vstd::seq_lib::group_seq_properties;
                let bv = instance_views(effect_blocks@);
                assert(bv.take(i + 1) =~= bv.take(i as int).push(x@));
                assert(bv.take(i + 1).to_set() =~= bv.take(i as int).to_set().insert(x@));
                if instance_views(old_keys).contains(x@) {
                    assert(keys@ == old_keys);
                    assert(instance_views(old_keys).to_set().contains(x@));
                    assert(instance_views(keys@).to_set() =~= bv.take(i + 1).to_set());
                } else {
                    assert(instance_views(keys@).to_set() =~= instance_views(old_keys).to_set().insert(x@));
                }
            }
            i = i + 1;
        }
        assert(instance_views(effect_blocks@).take(effect_blocks.len() as int) =~= instance_views(
            effect_blocks@,
        ));
        self.audit_trees = trees;
    }

    fn recalc_pub_caller_checked_tree(
        base_effect: &EffectInstance,
        tree: &EffectTree,
        pub_caller_checked: &mut Vec<(CanonicalPath, Vec<EffectInstance>)>,
        pub_fns: &Vec<CanonicalPath>,
    )
        requires
            cc_wf(old(pub_caller_checked)@),
            forall|p: Seq<char>|
                path_views(pub_fns@).contains(p) ==> cc_keys(old(pub_caller_checked)@).contains(p),
        ensures
            cc_wf(final(pub_caller_checked)@),
            cc_keys(final(pub_caller_checked)@) == cc_keys(old(pub_caller_checked)@),
            forall|j: int|
                0 <= j < final(pub_caller_checked)@.len() ==> #[trigger] cc_entry(
                    final(pub_caller_checked)@,
                    j,
                ) == if tree_marks(*tree, final(pub_caller_checked)@[j].0@) && path_views(
                    pub_fns@,
                ).contains(final(pub_caller_checked)@[j].0@) {
                    cc_entry(old(pub_caller_checked)@, j).insert(base_effect@)
                } else {
                    cc_entry(old(pub_caller_checked)@, j)
                },
        decreases tree,
    {
        let ghost old_pcc = pub_caller_checked@;
        match tree {
            EffectTree::Leaf(info, a) => {
                if *a == SafetyAnnotation::CallerChecked && contains_path(pub_fns, &info.caller_path) {
                    let j = find_entry(pub_caller_checked, &info.caller_path).unwrap();
                    add_to_entry(pub_caller_checked, j, base_effect);
                    proof {
                        assert forall|k: int| 0 <= k < pub_caller_checked@.len() implies #[trigger] cc_entry(
                            pub_caller_checked@,
                            k,
                        ) == if tree_marks(*tree, pub_caller_checked@[k].0@) && path_views(
                            pub_fns@,
                        ).contains(pub_caller_checked@[k].0@) {
                            cc_entry(old_pcc, k).insert(base_effect@)
                        } else {
                            cc_entry(old_pcc, k)
                        } by {
                            assert(cc_keys(pub_caller_checked@)[k] == pub_caller_checked@[k].0@);
                            assert(cc_keys(old_pcc)[k] == old_pcc[k].0@);
                            assert(cc_keys(old_pcc)[j as int] == old_pcc[j as int].0@);
                            if k != j {
                                assert(pub_caller_checked@[k].0@ != info.caller_path@);
                            }
                        }
                    }
                } else {
                    assert forall|k: int| 0 <= k < pub_caller_checked@.len() implies #[trigger] cc_entry(
                        pub_caller_checked@,
                        k,
                    ) == cc_entry(old_pcc, k) by {}
                }
            },
            EffectTree::Branch(info, next_trees) => {
                if contains_path(pub_fns, &info.caller_path) {
                    let j = find_entry(pub_caller_checked, &info.caller_path).unwrap();
                    add_to_entry(pub_caller_checked, j, base_effect);
                    proof {
                        let mid = pub_caller_checked@;
                        assert forall|k: int| 0 <= k < mid.len() implies #[trigger] cc_entry(mid, k)
                            == if mid[k].0@ == info.caller_path@ && path_views(pub_fns@).contains(
                            mid[k].0@,
                        ) {
                            cc_entry(old_pcc, k).insert(base_effect@)
                        } else {
                            cc_entry(old_pcc, k)
                        } by {
                            assert(cc_keys(mid)[k] == mid[k].0@);
                            assert(cc_keys(old_pcc)[k] == old_pcc[k].0@);
                            assert(cc_keys(old_pcc)[j as int] == old_pcc[j as int].0@);
                        }
                    }
                } else {
                    proof {
                        let mid = pub_caller_checked@;
                        assert forall|k: int| 0 <= k < mid.len() implies #[trigger] cc_entry(mid, k)
                            == if mid[k].0@ == info.caller_path@ && path_views(pub_fns@).contains(
                            mid[k].0@,
                        ) {
                            cc_entry(old_pcc, k).insert(base_effect@)
                        } else {
                            cc_entry(old_pcc, k)
                        } by {
                        }
                    }
                }
                proof {
                    assert(next_trees@.take(0) =~= Seq::<EffectTree>::empty());
                }
                let mut i: usize = 0;
                while i < next_trees.len()
                    invariant
                        *tree matches EffectTree::Branch(ii, tt) && tt == *next_trees && ii == *info,
                        i <= next_trees.len(),
                        cc_wf(pub_caller_checked@),
                        cc_keys(pub_caller_checked@) == cc_keys(old_pcc),
                        forall|p: Seq<char>|
                            path_views(pub_fns@).contains(p) ==> cc_keys(old_pcc).contains(p),
                        pub_caller_checked@.len() == old_pcc.len(),
                        forall|k: int|
                            0 <= k < pub_caller_checked@.len() ==> #[trigger] cc_entry(
                                pub_caller_checked@,
                                k,
                            ) == if (pub_caller_checked@[k].0@ == info.caller_path@
                                || forest_marks(next_trees@.take(i as int), pub_caller_checked@[k].0@))
                                && path_views(pub_fns@).contains(pub_caller_checked@[k].0@) {
                                cc_entry(old_pcc, k).insert(base_effect@)
                            } else {
                                cc_entry(old_pcc, k)
                            },
                    decreases next_trees.len() - i,
                {
                    let ghost before = pub_caller_checked@;
                    Self::recalc_pub_caller_checked_tree(
                        base_effect,
                        &next_trees[i],
                        pub_caller_checked,
                        pub_fns,
                    );
                    proof {
                        assert(next_trees@.take(i + 1).drop_last() =~= next_trees@.take(i as int));
                        assert(next_trees@.take(i + 1).last() == next_trees@[i as int]);
                        assert(cc_keys(pub_caller_checked@).len() == cc_keys(before).len());
                        assert(pub_caller_checked@.len() == before.len());
                        assert forall|k: int| 0 <= k < pub_caller_checked@.len() implies #[trigger] cc_entry(
                            pub_caller_checked@,
                            k,
                        ) == if (pub_caller_checked@[k].0@ == info.caller_path@ || forest_marks(
                            next_trees@.take(i + 1),
                            pub_caller_checked@[k].0@,
                        )) && path_views(pub_fns@).contains(pub_caller_checked@[k].0@) {
                            cc_entry(old_pcc, k).insert(base_effect@)
                        } else {
                            cc_entry(old_pcc, k)
                        } by {
                            assert(cc_keys(pub_caller_checked@)[k] == pub_caller_checked@[k].0@);
                            assert(cc_keys(before)[k] == before[k].0@);
                            assert(pub_caller_checked@[k].0@ == before[k].0@);
                            assert(cc_entry(old_pcc, k).insert(base_effect@).insert(base_effect@)
                                =~= cc_entry(old_pcc, k).insert(base_effect@));
                        }
                    }
                    i = i + 1;
                }
                assert(next_trees@.take(next_trees.len() as int) =~= next_trees@);
            },
        }
    }
    /// Returns the list of all safe public functions (these include all the
    /// public functions which have been removed since the last audit update):
    /// the keys whose set is empty.
    pub fn safe_pub_fns(&self) -> (r: Vec<CanonicalPath>)
        requires
            self.wf(),
        ensures
            path_views(r@).no_duplicates(),
            forall|p: Seq<char>|
                path_views(r@).contains(p) <==> exists|j: int|
                    0 <= j < self.pub_caller_checked@.len() && (#[trigger] self.pub_caller_checked@[j]).0@ == p
                        && self.pub_caller_checked@[j].1@.len() == 0,
    {
        let ghost m = self.pub_caller_checked@;
        let mut r: Vec<CanonicalPath> = Vec::new();
        let mut j: usize = 0;
        proof {
            assert(path_views(r@) =~= Seq::<Seq<char>>::empty());
        }
        while j < self.pub_caller_checked.len()
            invariant
                m == self.pub_caller_checked@,
                cc_wf(m),
                j <= m.len(),
                path_views(r@).no_duplicates(),
                forall|p: Seq<char>|
                    path_views(r@).contains(p) <==> exists|k: int|
                        0 <= k < j && (#[trigger] m[k]).0@ == p && m[k].1@.len() == 0,
            decreases m.len() - j,
        {
            let ghost old_r = r@;
            if self.pub_caller_checked[j].1.len() == 0 {
                let c = self.pub_caller_checked[j].0.clone();
                proof {
                    if path_views(old_r).contains(c@) {
                        let k = choose|k: int| 0 <= k < j && (#[trigger] m[k]).0@ == c@ && m[k].1@.len() == 0;
                        assert(cc_keys(m)[k] == cc_keys(m)[j as int]);
                    }
                }
                r.push(c);
                proof {
                    assert(path_views(r@) =~= path_views(old_r).push(c@));
                    assert forall|p: Seq<char>| path_views(r@).contains(p) <==> exists|k: int|
                        0 <= k < j + 1 && (#[trigger] m[k]).0@ == p && m[k].1@.len() == 0 by {
                        broadcast use vstd::seq_lib::group_seq_properties;
                        if p == c@ {
                            assert(m[j as int].0@ == p);
                        }
                    }
                }
            } else {
                proof {
                    assert forall|p: Seq<char>| path_views(r@).contains(p) <==> exists|k: int|
                        0 <= k < j + 1 && (#[trigger] m[k]).0@ == p && m[k].1@.len() == 0 by {
                        if exists|k: int| 0 <= k < j + 1 && (#[trigger] m[k]).0@ == p && m[k].1@.len() == 0 {
                            let k = choose|k: int| 0 <= k < j + 1 && (#[trigger] m[k]).0@ == p && m[k].1@.len() == 0;
                            assert(k != j);
                        }
                    }
                }
            }
            j = j + 1;
        }
        r
    }

    pub fn has_unsafe_effect(&self) -> (r: bool)
        ensures
            r == trees_have_unsafe(self.audit_trees@),
    {
        let mut i: usize = 0;
        while i < self.audit_trees.len()
            invariant
                i <= self.audit_trees@.len(),
                forall|k: int| 0 <= k < i ==> !tree_has_unsafe(#[trigger] self.audit_trees@[k].1),
            decreases self.audit_trees@.len() - i,
        {
            if tree_has_unsafe_exec(&self.audit_trees[i].1) {
                return true;
            }
            i = i + 1;
        }
        false
    }

    /// Returns the total number of unaudited leaf nodes.
    fn total_unaudited_effects(t: &EffectTree) -> (r: usize)
        requires
            tree_unaudited(*t) <= usize::MAX,
        ensures
            r == tree_unaudited(*t),
        decreases t,
    {
        match t {
            EffectTree::Leaf(_, a) => {
                if *a == SafetyAnnotation::Skipped {
                    1
                } else {
                    0
                }
            },
            EffectTree::Branch(_, ts) => {
                let mut total: usize = 0;
                let mut i: usize = 0;
                assert(ts@.take(0) =~= Seq::<EffectTree>::empty());
                while i < ts.len()
                    invariant
                        *t matches EffectTree::Branch(_, tt) && tt == *ts,
                        i <= ts.len(),
                        forest_unaudited(ts@) <= usize::MAX,
                        total == forest_unaudited(ts@.take(i as int)),
                    decreases ts.len() - i,
                {
                    assert(ts@.take(i + 1).drop_last() =~= ts@.take(i as int));
                    proof {
                        lemma_forest_unaudited_prefix(ts@, i + 1);
                    }
                    total = total + Self::total_unaudited_effects(&ts[i]);
                    i = i + 1;
                }
                assert(ts@.take(ts.len() as int) =~= ts@);
                total
            },
        }
    }

    /// Returns the number of unaudited base effects, and the number of unaudited
    /// leaf nodes.
    pub fn unaudited_effects(&self) -> (r: (usize, usize))
        requires
            trees_unaudited_total(self.audit_trees@) <= usize::MAX,
        ensures
            r.0 == trees_unaudited_base(self.audit_trees@),
            r.1 == trees_unaudited_total(self.audit_trees@),
    {
        let ghost t = self.audit_trees@;
        let mut unaudited_base: usize = 0;
        let mut unaudited_total: usize = 0;
        let mut i: usize = 0;
        assert(t.take(0) =~= Seq::<(EffectInstance, EffectTree)>::empty());
        while i < self.audit_trees.len()
            invariant
                t == self.audit_trees@,
                i <= t.len(),
                trees_unaudited_total(t) <= usize::MAX,
                unaudited_base == trees_unaudited_base(t.take(i as int)),
                unaudited_total == trees_unaudited_total(t.take(i as int)),
                unaudited_base <= i,
            decreases t.len() - i,
        {
            assert(t.take(i + 1).drop_last() =~= t.take(i as int));
            proof {
                lemma_trees_unaudited_prefix(t, i + 1);
            }
            let total = Self::total_unaudited_effects(&self.audit_trees[i].1);
            if total > 0 {
                unaudited_base = unaudited_base + 1;
                unaudited_total = unaudited_total + total;
            }
            i = i + 1;
        }
        assert(t.take(t.len() as int) =~= t);
        (unaudited_base, unaudited_total)
    }

    /// Removes any effect trees which have the given sink as the root. Returns
    /// the removed effects.
    pub fn remove_sinks_from_tree(&mut self, sinks_to_remove: &Vec<CanonicalPath>) -> (r: Vec<
        EffectInstance,
    >)
        requires
            old(self).wf(),
        ensures
            final(self).wf(),
            final(self).audit_trees@ == kept_trees(old(self).audit_trees@, path_views(sinks_to_remove@)),
            instance_views(r@) == tree_keys(
                dropped_trees(old(self).audit_trees@, path_views(sinks_to_remove@)),
            ),
            final(self).pub_caller_checked == old(self).pub_caller_checked,
            final(self).base_dir == old(self).base_dir,
            final(self).hash == old(self).hash,
            final(self).version == old(self).version,
            final(self).scanned_effects == old(self).scanned_effects,
    {
        let ghost sv = path_views(sinks_to_remove@);
        let ghost keep = |p: (EffectInstance, EffectTree)| !removed_by(p.0@, sv);
        let ghost drop = |p: (EffectInstance, EffectTree)| removed_by(p.0@, sv);
        let ghost all = self.audit_trees@;
        // Replace the audit tree with a temporary value so we can drop effects
        let mut audit_trees: Vec<(EffectInstance, EffectTree)> = Vec::new();
        std::mem::swap(&mut audit_trees, &mut self.audit_trees);
        let mut new_trees: Vec<(EffectInstance, EffectTree)> = Vec::new();
        let mut removed: Vec<EffectInstance> = Vec::new();
        let mut m: usize = 0;
        let total = audit_trees.len();
        proof {
            reveal_with_fuel(Seq::filter, 1);
            assert(all.take(0) =~= Seq::<(EffectInstance, EffectTree)>::empty());
            assert(instance_views(removed@) =~= Seq::<EffectInstanceView>::empty());
        }
        while audit_trees.len() > 0
            invariant
                all.len() == total,
                m + audit_trees@.len() == total,
                audit_trees@ == all.skip(m as int),
                new_trees@ == all.take(m as int).filter(keep),
                instance_views(removed@) == tree_keys(all.take(m as int).filter(drop)),
                sv == path_views(sinks_to_remove@),
                keep == (|p: (EffectInstance, EffectTree)| !removed_by(p.0@, sv)),
                drop == (|p: (EffectInstance, EffectTree)| removed_by(p.0@, sv)),
            decreases audit_trees@.len(),
        {
            let (e, tree) = audit_trees.remove(0);
            let ghost ent = (e, tree);
            proof {
                reveal_with_fuel(Seq::filter, 1);
                assert(ent == all[m as int]);
                assert(audit_trees@ =~= all.skip(m + 1));
                assert(all.take(m + 1).drop_last() =~= all.take(m as int));
                assert(all.take(m + 1).last() == ent);
            }
            // Remove effects that match our sinks to remove
            let mut drop_it = false;
            if let Some(s) = e.pattern() {
                let p = CanonicalPath::new(s.as_str());
                drop_it = contains_path(sinks_to_remove, &p);
            }
            assert(drop_it == removed_by(e@, sv));
            if drop_it {
                let ghost old_removed = removed@;
                removed.push(e);
                proof {
                    assert(instance_views(removed@) =~= instance_views(old_removed).push(ent.0@));
                    assert(tree_keys(all.take(m as int).filter(drop).push(ent)) =~= tree_keys(
                        all.take(m as int).filter(drop),
                    ).push(ent.0@));
                }
            } else {
                new_trees.push((e, tree));
            }
            m = m + 1;
        }
        proof {
            assert(all.take(total as int) =~= all);
            lemma_filter_keys_no_dup(all, keep);
        }
        self.audit_trees = new_trees;
        removed
    }

    /// Gets the difference between the public functions marked caller-checked
    /// in `p1` and `p2`
    #[verifier::spinoff_prover]
    pub fn pub_diff(p1: &AuditFile, p2: &AuditFile) -> (r: Vec<CanonicalPath>)
        requires
            p1.wf(),
        ensures
            path_views(r@).no_duplicates(),
            forall|p: Seq<char>|
                path_views(r@).contains(p) <==> (cc_keys(p1.pub_caller_checked@).contains(p)
                    && !cc_keys(p2.pub_caller_checked@).contains(p)),
    {
        let ghost m = p1.pub_caller_checked@;
        let mut r: Vec<CanonicalPath> = Vec::new();
        let mut j: usize = 0;
        proof {
            assert(path_views(r@) =~= Seq::<Seq<char>>::empty());
            assert(cc_keys(m).take(0) =~= Seq::<Seq<char>>::empty());
        }
        while j < p1.pub_caller_checked.len()
            invariant
                m == p1.pub_caller_checked@,
                cc_wf(m),
                j <= m.len(),
                path_views(r@).no_duplicates(),
                forall|p: Seq<char>|
                    path_views(r@).contains(p) <==> (cc_keys(m).take(j as int).contains(p)
                        && !cc_keys(p2.pub_caller_checked@).contains(p)),
            decreases m.len() - j,
        {
            let ghost old_r = r@;
            let k = &p1.pub_caller_checked[j].0;
            proof {
                assert(cc_keys(m)[j as int] == k@);
                assert(cc_keys(m).take(j + 1) =~= cc_keys(m).take(j as int).push(k@));
                if cc_keys(m).take(j as int).contains(k@) {
                    let w = choose|w: int| 0 <= w < j && cc_keys(m).take(j as int)[w] == k@;
                    assert(cc_keys(m)[w] == cc_keys(m)[j as int]);
                }
            }
            let found = find_entry(&p2.pub_caller_checked, k);
            proof {
                if let Some(w) = found {
                    assert(cc_keys(p2.pub_caller_checked@)[w as int] == k@);
                }
            }
            if found.is_none() {
                proof {
                    assert(!cc_keys(m).take(j as int).contains(k@));
                    assert(!path_views(old_r).contains(k@));
                }
                r.push(k.clone());
                proof {
                    assert(path_views(r@) =~= path_views(old_r).push(k@));
                    assert forall|a: int, b: int| 0 <= a < b < path_views(r@).len() implies path_views(r@)[a]
                        != path_views(r@)[b] by {
                        if b == path_views(r@).len() - 1 {
                            assert(path_views(old_r).contains(path_views(old_r)[a]));
                        } else {
                            assert(path_views(r@)[a] == path_views(old_r)[a]);
                            assert(path_views(r@)[b] == path_views(old_r)[b]);
                        }
                    }
                }
            }
            proof {
                let t1 = cc_keys(m).take(j + 1);
                let t0 = cc_keys(m).take(j as int);
                assert forall|p: Seq<char>| t1.contains(p) <==> (t0.contains(p) || p == k@) by {
                    if t1.contains(p) {
                        let w = choose|w: int| 0 <= w < t1.len() && t1[w] == p;
                        if w < j {
                            assert(t0[w] == p);
                        }
                    }
                    if t0.contains(p) {
                        let w = choose|w: int| 0 <= w < t0.len() && t0[w] == p;
                        assert(t1[w] == p);
                    }
                    if p == k@ {
                        assert(t1[j as int] == p);
                    }
                }
                lemma_diff_step(
                    path_views(old_r),
                    path_views(r@),
                    t0,
                    t1,
                    k@,
                    cc_keys(p2.pub_caller_checked@),
                    found.is_none(),
                );
            }
            j = j + 1;
        }
        assert(cc_keys(m).take(m.len() as int) =~= cc_keys(m));
        r
    }

    /// Recalculate the list of public functions that should be marked caller-
    /// checked. This should always be done before a `AuditFile` is saved to
    /// disk, because it relies on the invariant that the list in
    /// `pub_caller_checked` aligns with those in the effect tree.
    pub fn recalc_pub_caller_checked(&mut self, pub_fns: &Vec<CanonicalPath>)
        requires
            old(self).wf(),
        ensures
            final(self).wf(),
            final(self).audit_trees == old(self).audit_trees,
            forall|j: int|
                0 <= j < final(self).pub_caller_checked@.len() ==> {
                    let p = (#[trigger] final(self).pub_caller_checked@[j]).0@;
                    &&& path_views(pub_fns@).contains(p)
                    &&& cc_entry(final(self).pub_caller_checked@, j) == cc_set(
                        final(self).audit_trees@,
                        p,
                    )
                    &&& cc_set(final(self).audit_trees@, p) != Set::<EffectInstanceView>::empty()
                },
            forall|p: Seq<char>|
                path_views(pub_fns@).contains(p) && cc_set(final(self).audit_trees@, p) != Set::<
                    EffectInstanceView,
                >::empty() ==> cc_keys(final(self).pub_caller_checked@).contains(p),
            cc_matches(final(self).pub_caller_checked@, final(self).audit_trees@, path_views(pub_fns@)),
            final(self).base_dir == old(self).base_dir,
            final(self).hash == old(self).hash,
            final(self).version == old(self).version,
            final(self).scanned_effects == old(self).scanned_effects,
    {
        let ghost trees = self.audit_trees@;
        // NOTE: initialize everything at the start so we don't have to check for
        //       entries and clone keys every time
        let mut pcc: Vec<(CanonicalPath, Vec<EffectInstance>)> = Vec::new();
        let mut k: usize = 0;
        proof {
            assert(cc_keys(pcc@) =~= Seq::<Seq<char>>::empty());
            assert(path_views(pub_fns@).take(0) =~= Seq::<Seq<char>>::empty());
        }
        while k < pub_fns.len()
            invariant
                k <= pub_fns.len(),
                cc_wf(pcc@),
                forall|j: int| 0 <= j < pcc@.len() ==> (#[trigger] pcc@[j]).1@.len() == 0,
                forall|q: Seq<char>|
                    cc_keys(pcc@).contains(q) <==> path_views(pub_fns@).take(k as int).contains(q),
            decreases pub_fns.len() - k,
        {
            let ghost old_pcc = pcc@;
            let p = &pub_fns[k];
            proof {
                assert(path_views(pub_fns@).take(k + 1) =~= path_views(pub_fns@).take(k as int).push(
                    p@,
                ));
            }
            match find_entry(&pcc, p) {
                Some(j) => {
                    proof {
                        assert(cc_keys(pcc@)[j as int] == p@);
                        assert forall|q: Seq<char>| cc_keys(pcc@).contains(q) <==> path_views(pub_fns@).take(
                            k + 1,
                        ).contains(q) by {
                            broadcast use vstd::seq_lib::group_seq_properties;
                        }
                    }
                },
                None => {
                    pcc.push((p.clone(), Vec::new()));
                    proof {
                        assert(cc_keys(pcc@) =~= cc_keys(old_pcc).push(p@));
                        assert forall|q: Seq<char>| cc_keys(pcc@).contains(q) <==> path_views(pub_fns@).take(
                            k + 1,
                        ).contains(q) by {
                            broadcast use vstd::seq_lib::group_seq_properties;
                        }
                        assert forall|j: int| 0 <= j < pcc@.len() implies instance_views(
                            #[trigger] pcc@[j].1@,
                        ).no_duplicates() by {
                            if j == old_pcc.len() {
                                assert(instance_views(pcc@[j].1@) =~= Seq::<EffectInstanceView>::empty());
                            } else {
                                assert(pcc@[j] == old_pcc[j]);
                            }
                        }
                        assert forall|j: int| 0 <= j < pcc@.len() implies (#[trigger] pcc@[j]).1@.len() == 0 by {
                            if j < old_pcc.len() {
                                assert(pcc@[j] == old_pcc[j]);
                            }
                        }
                    }
                },
            }
            k = k + 1;
        }
        proof {
            assert(path_views(pub_fns@).take(pub_fns.len() as int) =~= path_views(pub_fns@));
            assert forall|j: int| 0 <= j < pcc@.len() implies #[trigger] cc_entry(pcc@, j)
                == cc_set(trees.take(0), pcc@[j].0@) by {
                assert(instance_views(pcc@[j].1@) =~= Seq::<EffectInstanceView>::empty());
                assert(cc_set(trees.take(0), pcc@[j].0@) =~= Set::<EffectInstanceView>::empty());
                assert(cc_entry(pcc@, j) =~= Set::<EffectInstanceView>::empty());
            }
        }
        let mut i: usize = 0;
        while i < self.audit_trees.len()
            invariant
                trees == self.audit_trees@,
                i <= trees.len(),
                cc_wf(pcc@),
                forall|q: Seq<char>| cc_keys(pcc@).contains(q) <==> path_views(pub_fns@).contains(q),
                forall|j: int|
                    0 <= j < pcc@.len() ==> #[trigger] cc_entry(pcc@, j) == cc_set(
                        trees.take(i as int),
                        pcc@[j].0@,
                    ),
            decreases trees.len() - i,
        {
            let ghost before = pcc@;
            Self::recalc_pub_caller_checked_tree(
                &self.audit_trees[i].0,
                &self.audit_trees[i].1,
                &mut pcc,
                pub_fns,
            );
            proof {
                assert(cc_keys(pcc@).len() == cc_keys(before).len());
                assert forall|j: int| 0 <= j < pcc@.len() implies #[trigger] cc_entry(pcc@, j)
                    == cc_set(trees.take(i + 1), pcc@[j].0@) by {
                    assert(cc_keys(pcc@)[j] == pcc@[j].0@);
                    assert(cc_keys(before)[j] == before[j].0@);
                    let q = pcc@[j].0@;
                    assert(cc_keys(pcc@).contains(q));
                    let e = trees[i as int];
                    assert(cc_set(trees.take(i + 1), q) =~= if tree_marks(e.1, q) {
                        cc_set(trees.take(i as int), q).insert(e.0@)
                    } else {
                        cc_set(trees.take(i as int), q)
                    }) by {
                        assert forall|x: EffectInstanceView| #[trigger] cc_set(trees.take(i + 1), q).contains(x)
                            == (if tree_marks(e.1, q) {
                            cc_set(trees.take(i as int), q).insert(e.0@)
                        } else {
                            cc_set(trees.take(i as int), q)
                        }).contains(x) by {
                            if cc_set(trees.take(i + 1), q).contains(x) {
                                let w = choose|w: int| 0 <= w < i + 1 && trees.take(i + 1)[w].0@ == x
                                    && tree_marks(#[trigger] trees.take(i + 1)[w].1, q);
                                if w < i {
                                    assert(trees.take(i as int)[w] == trees.take(i + 1)[w]);
                                }
                            }
                            if cc_set(trees.take(i as int), q).contains(x) {
                                let w = choose|w: int| 0 <= w < i && trees.take(i as int)[w].0@ == x
                                    && tree_marks(#[trigger] trees.take(i as int)[w].1, q);
                                assert(trees.take(i as int)[w] == trees.take(i + 1)[w]);
                            }
                            if tree_marks(e.1, q) && x == e.0@ {
                                assert(trees.take(i + 1)[i as int] == e);
                            }
                        }
                    }
                }
            }
            i = i + 1;
        }
        assert(trees.take(trees.len() as int) =~= trees);
        // Clean up the pub functions that don't have any effects flow into them
        let mut out: Vec<(CanonicalPath, Vec<EffectInstance>)> = Vec::new();
        let ghost full = pcc@;
        let mut m: usize = 0;
        let total_len = pcc.len();
        assert(full.len() == total_len);
        proof {
            assert(cc_keys(out@) =~= Seq::<Seq<char>>::empty());
        }
        while pcc.len() > 0
            invariant
                full.len() <= usize::MAX,
                m + pcc@.len() == full.len(),
                pcc@ == full.skip(m as int),
                cc_wf(full),
                cc_wf(out@),
                forall|q: Seq<char>| cc_keys(full).contains(q) <==> path_views(pub_fns@).contains(q),
                forall|j: int| 0 <= j < full.len() ==> #[trigger] cc_entry(full, j) == cc_set(trees, full[j].0@),
                forall|j: int|
                    0 <= j < out@.len() ==> {
                        let p = (#[trigger] out@[j]).0@;
                        &&& path_views(pub_fns@).contains(p)
                        &&& cc_entry(out@, j) == cc_set(trees, p)
                        &&& cc_set(trees, p) != Set::<EffectInstanceView>::empty()
                    },
                forall|j: int|
                    0 <= j < m && cc_set(trees, full[j].0@) != Set::<EffectInstanceView>::empty()
                        ==> cc_keys(out@).contains(#[trigger] full[j].0@),
                forall|q: Seq<char>| cc_keys(out@).contains(q) ==> cc_keys(full.take(m as int)).contains(q),
            decreases pcc@.len(),
        {
            let ghost old_out = out@;
            let entry = pcc.remove(0);
            proof {
                assert(entry == full[m as int]);
                assert(pcc@ =~= full.skip(m + 1));
                assert(cc_keys(full)[m as int] == full[m as int].0@);
                assert(cc_keys(full.take(m + 1)) =~= cc_keys(full.take(m as int)).push(entry.0@));
            }
            if entry.1.len() > 0 {
                let ghost ev = entry;
                out.push(entry);
                proof {
                    broadcast use vstd::seq_lib::group_seq_properties;
                    assert(cc_keys(out@) =~= cc_keys(old_out).push(ev.0@));
                    assert(instance_views(ev.1@).len() > 0);
                    assert(instance_views(ev.1@).contains(instance_views(ev.1@)[0]));
                    assert(cc_entry(full, m as int).contains(instance_views(ev.1@)[0]));
                    if cc_keys(old_out).contains(ev.0@) {
                        assert(cc_keys(full.take(m as int)).contains(ev.0@));
                        let w = choose|w: int| 0 <= w < m && cc_keys(full.take(m as int))[w] == ev.0@;
                        assert(cc_keys(full)[w] == cc_keys(full)[m as int]);
                    }
                    assert forall|j: int| 0 <= j < out@.len() implies instance_views(
                        #[trigger] out@[j].1@,
                    ).no_duplicates() by {
                        if j < old_out.len() {
                            assert(out@[j] == old_out[j]);
                        }
                    }
                    assert forall|j: int| 0 <= j < out@.len() implies {
                        let p = (#[trigger] out@[j]).0@;
                        &&& path_views(pub_fns@).contains(p)
                        &&& cc_entry(out@, j) == cc_set(trees, p)
                        &&& cc_set(trees, p) != Set::<EffectInstanceView>::empty()
                    } by {
                        if j < old_out.len() {
                            assert(out@[j] == old_out[j]);
                        } else {
                            assert(cc_keys(full).contains(ev.0@));
                        }
                    }
                }
            } else {
                proof {
                    assert(instance_views(entry.1@) =~= Seq::<EffectInstanceView>::empty());
                    assert(cc_entry(full, m as int) =~= Set::<EffectInstanceView>::empty());
                }
            }
            proof {
                assert forall|q: Seq<char>| cc_keys(out@).contains(q) implies cc_keys(full.take(m + 1)).contains(q) by {
                    if cc_keys(old_out).contains(q) {
                        let w = choose|w: int| 0 <= w < cc_keys(full.take(m as int)).len() && cc_keys(full.take(m as int))[w] == q;
                        assert(cc_keys(full.take(m + 1))[w] == q);
                    } else {
                        assert(cc_keys(full.take(m + 1))[m as int] == q);
                    }
                }
                assert forall|j: int|
                    0 <= j < m + 1 && cc_set(trees, full[j].0@) != Set::<EffectInstanceView>::empty()
                        implies cc_keys(out@).contains(#[trigger] full[j].0@) by {
                    if j < m {
                        assert(cc_keys(old_out).contains(full[j].0@));
                        let w = choose|w: int| 0 <= w < cc_keys(old_out).len() && cc_keys(old_out)[w] == full[j].0@;
                        assert(cc_keys(out@)[w] == full[j].0@);
                    } else {
                        assert(cc_keys(out@)[out@.len() - 1] == full[j].0@);
                    }
                }
            }
            m = m + 1;
        }
        proof {
            assert forall|p: Seq<char>|
                path_views(pub_fns@).contains(p) && cc_set(trees, p) != Set::<EffectInstanceView>::empty()
                    implies cc_keys(out@).contains(p) by {
                assert(cc_keys(full).contains(p));
                let j = choose|j: int| 0 <= j < cc_keys(full).len() && cc_keys(full)[j] == p;
                assert(full[j].0@ == p);
            }
            lemma_cc_matches_from_entries(out@, trees, path_views(pub_fns@));
        }
        self.pub_caller_checked = out;
    }
}

/// The caller-checked map `m` records, for each public function `k`, exactly the
/// base effects whose tree marks `k` caller-checked, and has a key for `k` exactly
/// when that set is not empty.
pub open spec fn cc_matches(
    m: Seq<(CanonicalPath, Vec<EffectInstance>)>,
    t: Seq<(EffectInstance, EffectTree)>,
    pubs: Seq<Seq<char>>,
) -> bool {
    &&& forall|k: Seq<char>|
        #[trigger] cc_lookup(m, k) == if pubs.contains(k) {
            cc_set(t, k)
        } else {
            Set::<EffectInstanceView>::empty()
        }
    &&& forall|k: Seq<char>|
        #[trigger] cc_keys(m).contains(k) <==> (pubs.contains(k) && cc_set(t, k)
            != Set::<EffectInstanceView>::empty())
}

/// The trees of a default caller-checked audit: tree `i` is the caller tree of
/// base effect `i`, rooted at its caller and call location.
pub open spec fn caller_checked_trees(sr: ScanResults, t: Seq<(EffectInstance, EffectTree)>) -> bool {
    forall|i: int|
        0 <= i < t.len() ==> {
            let e = (#[trigger] t[i]).0@;
            &&& tree_info(t[i].1) == (EffectInfoView { caller_path: e.caller, callee_loc: e.call_loc })
            &&& caller_tree_ok(sr, t[i].1, set![e.caller])
        }
}

proof fn lemma_cc_matches_push(
    m0: Seq<(CanonicalPath, Vec<EffectInstance>)>,
    m1: Seq<(CanonicalPath, Vec<EffectInstance>)>,
    t: Seq<(EffectInstance, EffectTree)>,
    e: EffectInstance,
    tree: EffectTree,
    pubs: Seq<Seq<char>>,
)
    requires
        cc_matches(m0, t, pubs),
        !tree_keys(t).contains(e@),
        cc_grown(m0, m1, e@, (|k: Seq<char>| pubs.contains(k) && tree_marks(tree, k))),
    ensures
        cc_matches(m1, t.push((e, tree)), pubs),
{
    let t1 = t.push((e, tree));
    assert forall|k: Seq<char>|
        cc_set(t1, k) == if tree_marks(tree, k) {
            cc_set(t, k).insert(e@)
        } else {
            cc_set(t, k)
        } by {
        assert(t1[t.len() as int] == (e, tree));
        assert forall|x: EffectInstanceView| #[trigger] cc_set(t1, k).contains(x) == (if tree_marks(tree, k) {
            cc_set(t, k).insert(e@)
        } else {
            cc_set(t, k)
        }).contains(x) by {
            if x == e@ && tree_marks(tree, k) {
                assert(t1[t.len() as int].0@ == x && tree_marks(t1[t.len() as int].1, k));
            }
            if cc_set(t1, k).contains(x) {
                let i = choose|i: int| 0 <= i < t1.len() && t1[i].0@ == x && tree_marks(#[trigger] t1[i].1, k);
                if i < t.len() {
                    assert(t1[i] == t[i]);
                }
            }
            if cc_set(t, k).contains(x) {
                let i = choose|i: int| 0 <= i < t.len() && t[i].0@ == x && tree_marks(#[trigger] t[i].1, k);
                assert(t1[i] == t[i]);
            }
        }
        assert(cc_set(t1, k) =~= if tree_marks(tree, k) {
            cc_set(t, k).insert(e@)
        } else {
            cc_set(t, k)
        });
    }
    assert forall|k: Seq<char>|
        #[trigger] cc_lookup(m1, k) == if pubs.contains(k) {
            cc_set(t1, k)
        } else {
            Set::<EffectInstanceView>::empty()
        } by {
        assert(cc_lookup(m0, k) == if pubs.contains(k) {
            cc_set(t, k)
        } else {
            Set::<EffectInstanceView>::empty()
        });
    }
    assert forall|k: Seq<char>|
        #[trigger] cc_keys(m1).contains(k) <==> (pubs.contains(k) && cc_set(t1, k)
            != Set::<EffectInstanceView>::empty()) by {
        assert(cc_keys(m0).contains(k) <==> (pubs.contains(k) && cc_set(t, k)
            != Set::<EffectInstanceView>::empty()));
        if tree_marks(tree, k) {
            assert(cc_set(t1, k).contains(e@));
        }
    }
}


/// A complete caller tree for the base effect `e`: the caller tree rooted at
/// its caller.
pub open spec fn complete_tree(sr: ScanResults, t: EffectTree, e: EffectInstanceView) -> bool {
    caller_tree_ok(sr, t, set![e.caller]) && tree_info(t).caller_path == e.caller
}

/// The nodes of a list of trees, less one per tree (the size counted while
/// building caller trees).
pub open spec fn forest_extra(ts: Seq<EffectTree>) -> int
    decreases ts.len(),
{
    if ts.len() == 0 {
        0
    } else {
        forest_extra(ts.drop_last()) + tree_nodes(ts.last()) - 1
    }
}

/// The trees of a list of (base effect, tree) pairs.
pub open spec fn tree_list(t: Seq<(EffectInstance, EffectTree)>) -> Seq<EffectTree> {
    t.map_values(|p: (EffectInstance, EffectTree)| p.1)
}

proof fn lemma_extra_unique(
    sr: ScanResults,
    es: Seq<EffectInstanceView>,
    a: Seq<EffectTree>,
    b: Seq<EffectTree>,
)
    requires
        a.len() == es.len(),
        b.len() == es.len(),
        forall|k: int|
            0 <= k < es.len() ==> complete_tree(sr, #[trigger] a[k], es[k]) && complete_tree(
                sr,
                b[k],
                es[k],
            ),
    ensures
        forest_extra(a) == forest_extra(b),
    decreases a.len(),
{
    if a.len() > 0 {
        let n = a.len() - 1;
        assert(complete_tree(sr, a[n], es[n]));
        law_caller_tree_nodes_unique(sr, a[n], b[n], set![es[n].caller]);
        assert forall|k: int|
            0 <= k < es.drop_last().len() implies complete_tree(sr, #[trigger] a.drop_last()[k], es.drop_last()[k])
                && complete_tree(sr, b.drop_last()[k], es.drop_last()[k]) by {
            assert(a.drop_last()[k] == a[k]);
            assert(b.drop_last()[k] == b[k]);
            assert(complete_tree(sr, a[k], es[k]));
        }
        lemma_extra_unique(sr, es.drop_last(), a.drop_last(), b.drop_last());
    }
}

/// What building a default caller-checked audit from the scan `sr` gives: on
/// success, the caller tree of every base effect of the scan, within the size
/// limits, with the public functions each reaches recorded as caller-checked;
/// `MissingCallee` when a base effect's function is not in the call graph;
/// `TreeTooLarge` when every caller tree of some base effect is over the limit;
/// `AuditTooLarge` when the caller trees of some distinct base effects are over
/// the limit together.
pub open spec fn caller_checked_default_result(
    sr: ScanResults,
    base_dir: Seq<char>,
    hash: Seq<u8>,
    relevant_effects: Seq<EffectType>,
    r: Result<AuditFile, AuditError>,
) -> bool {
    &&& r matches Ok(af) ==> {
        &&& af.wf()
        &&& tree_keys(af.audit_trees@).to_set() == instance_views(
            sr.effects@,
        ).to_set()
        &&& caller_checked_trees(sr, af.audit_trees@)
        &&& cc_matches(
            af.pub_caller_checked@,
            af.audit_trees@,
            path_views(sr.pub_fns@),
        )
        &&& forall|k: int|
            0 <= k < af.audit_trees@.len() ==> tree_nodes(#[trigger] af.audit_trees@[k].1) - 1
                <= MAX_CALLER_CHECKED_TREE_SIZE
        &&& forest_extra(tree_list(af.audit_trees@)) <= MAX_AUDIT_FILE_SIZE
        &&& af.base_dir@ == base_dir
        &&& af.hash@ == hash
        &&& af.version == 0
        &&& af.scanned_effects@ == relevant_effects
    }
    &&& r matches Err(e) ==> e == AuditError::TreeTooLarge || e == AuditError::MissingCallee
        || e == AuditError::AuditTooLarge
    &&& r == Err::<AuditFile, AuditError>(AuditError::MissingCallee) ==> exists|i: int|
        0 <= i < sr.effects@.len() && !graph_nodes(sr.call_graph).contains(
            (#[trigger] sr.effects@[i])@.caller,
        )
    &&& r == Err::<AuditFile, AuditError>(AuditError::TreeTooLarge) ==> exists|i: int|
        0 <= i < sr.effects@.len() && forall|t: EffectTree|
            complete_tree(sr, t, (#[trigger] sr.effects@[i])@) ==> tree_nodes(t)
                - 1 > MAX_CALLER_CHECKED_TREE_SIZE
    &&& r == Err::<AuditFile, AuditError>(AuditError::AuditTooLarge) ==> exists|
        es: Seq<EffectInstanceView>,
    |
        {
            &&& es.no_duplicates()
            &&& forall|k: int|
                0 <= k < es.len() ==> instance_views(sr.effects@).contains(
                    #[trigger] es[k],
                )
            &&& forall|ts: Seq<EffectTree>|
                ts.len() == es.len() && (forall|k: int|
                    0 <= k < es.len() ==> complete_tree(sr, #[trigger] ts[k], es[k]))
                    ==> forest_extra(ts) > MAX_AUDIT_FILE_SIZE
        }
}

impl AuditFile {
    /// Mark all callers of functions in the effect tree to be caller-checked.
    fn mark_caller_checked(
        base_effect: &EffectInstance,
        tree: &mut EffectTree,
        pub_caller_checked: &mut Vec<(CanonicalPath, Vec<EffectInstance>)>,
        scan_res: &ScanResults,
        tree_size: &mut i32,
    ) -> (r: Result<(), AuditError>)
        requires
            scan_res.wf(),
            cc_wf(old(pub_caller_checked)@),
        ensures
            cc_wf(final(pub_caller_checked)@),
            *final(tree_size) >= *old(tree_size),
            tree_info(*final(tree)) == tree_info(*old(tree)),
            r matches Err(e) ==> e == AuditError::TreeTooLarge || e == AuditError::MissingCallee,
            (r == Err::<(), AuditError>(AuditError::TreeTooLarge)) <==> *final(tree_size)
                > MAX_CALLER_CHECKED_TREE_SIZE,
            (r == Err::<(), AuditError>(AuditError::MissingCallee)) <==> (*old(tree_size)
                <= MAX_CALLER_CHECKED_TREE_SIZE && *old(tree) is Leaf && !graph_nodes(
                scan_res.call_graph,
            ).contains(tree_info(*old(tree)).caller_path)),
            r is Err ==> *final(tree) == *old(tree),
            r == Err::<(), AuditError>(AuditError::TreeTooLarge) && *old(tree) is Leaf ==> forall|
                t: EffectTree,
            |
                caller_tree_ok(*scan_res, t, set![base_effect@.caller]) && tree_info(t).caller_path
                    == tree_info(*old(tree)).caller_path ==> *old(tree_size) + tree_nodes(t) - 1
                    >= *final(tree_size),
            r is Ok && *old(tree) is Branch ==> *final(tree) == *old(tree)
                && final(pub_caller_checked)@ == old(pub_caller_checked)@
                && *final(tree_size) == *old(tree_size),
            r is Ok && *old(tree) is Leaf ==> {
                &&& caller_tree_ok(*scan_res, *final(tree), set![base_effect@.caller])
                &&& *final(tree_size) == *old(tree_size) + tree_nodes(*final(tree)) - 1
                &&& cc_grown(
                    old(pub_caller_checked)@,
                    final(pub_caller_checked)@,
                    base_effect@,
                    (|k: Seq<char>|
                        path_views(scan_res.pub_fns@).contains(k) && tree_marks(*final(tree), k)),
                )
            },
    {
        let mut callers: Vec<CanonicalPath> = Vec::new();
        callers.push(base_effect.caller().clone());
        proof {
            assert(path_views(callers@) =~= seq![base_effect@.caller]);
            assert(prev_set(callers@) =~= set![base_effect@.caller]) by {
                broadcast use vstd::seq_lib::group_seq_properties;
            }
        }
        Self::mark_caller_checked_recurse(
            base_effect,
            tree,
            pub_caller_checked,
            scan_res,
            &mut callers,
            tree_size,
        )
    }

    /// A default audit in which every function between a base effect and the
    /// crate's public interface is marked caller-checked: the base trees of the
    /// scan's effects, each grown into the tree of its callers, and the public
    /// functions reached recorded in `pub_caller_checked`.
    pub fn new_caller_checked_default_with_sinks(
        base_dir: String,
        hash: [u8; 32],
        scan_res: &ScanResults,
        relevant_effects: Vec<EffectType>,
    ) -> (r: Result<AuditFile, AuditError>)
        requires
            scan_res.wf(),
        ensures
            caller_checked_default_result(*scan_res, base_dir@, hash@, relevant_effects@, r),
    {
        let ghost bd = base_dir@;
        let ghost re = relevant_effects@;
        let effects = scan_res.effects_set();
        let mut audit_file = AuditFile::empty(base_dir, hash, relevant_effects);
        audit_file.set_base_audit_trees(&effects);
        let ghost base = audit_file.audit_trees@;
        let ghost pubs = path_views(scan_res.pub_fns@);
        let mut total_size: i32 = 0;
        let mut trees: Vec<(EffectInstance, EffectTree)> = Vec::new();
        let mut pub_caller_checked: Vec<(CanonicalPath, Vec<EffectInstance>)> = Vec::new();
        let n = audit_file.audit_trees.len();
        let mut i: usize = 0;
        proof {
            assert(tree_keys(trees@) =~= Seq::<EffectInstanceView>::empty());
            assert(cc_keys(pub_caller_checked@) =~= Seq::<Seq<char>>::empty());
            assert forall|k: Seq<char>| #[trigger] cc_lookup(pub_caller_checked@, k) == if pubs.contains(k) {
                cc_set(trees@, k)
            } else {
                Set::<EffectInstanceView>::empty()
            } by {
                lemma_cc_lookup_absent(pub_caller_checked@, k);
                assert(cc_set(trees@, k) =~= Set::<EffectInstanceView>::empty());
            }
            assert forall|k: Seq<char>| #[trigger] cc_keys(pub_caller_checked@).contains(k) <==> (pubs.contains(k)
                && cc_set(trees@, k) != Set::<EffectInstanceView>::empty()) by {
                assert(cc_set(trees@, k) =~= Set::<EffectInstanceView>::empty());
            }
        }
        while i < n
            invariant
                scan_res.wf(),
                n == audit_file.audit_trees.len(),
                audit_file.audit_trees@ == base,
                tree_keys(base).to_set() == instance_views(scan_res.effects@).to_set(),
                audit_file.base_dir@ == bd,
                audit_file.hash@ == hash@,
                audit_file.version == 0,
                audit_file.scanned_effects@ == re,
                tree_keys(base).no_duplicates(),
                forall|k: int| 0 <= k < base.len() ==> base_tree((#[trigger] base[k]).0@, base[k].1),
                pubs == path_views(scan_res.pub_fns@),
                i <= n,
                trees@.len() == i,
                tree_keys(trees@) == tree_keys(base).take(i as int),
                caller_checked_trees(*scan_res, trees@),
                cc_wf(pub_caller_checked@),
                cc_matches(pub_caller_checked@, trees@, pubs),
                0 <= total_size <= MAX_AUDIT_FILE_SIZE,
                total_size == forest_extra(tree_list(trees@)),
                forall|k: int|
                    0 <= k < trees@.len() ==> tree_nodes(#[trigger] trees@[k].1) - 1
                        <= MAX_CALLER_CHECKED_TREE_SIZE,
            decreases n - i,
        {
            let e = audit_file.audit_trees[i].0.clone();
            let mut t = EffectTree::Leaf(EffectInfo::from_instance(&e), SafetyAnnotation::Skipped);
            let mut tree_size: i32 = 0;
            let ghost pcc_before = pub_caller_checked@;
            let res = Self::mark_caller_checked(&e, &mut t, &mut pub_caller_checked, scan_res, &mut tree_size);
            match res {
                Ok(()) => {},
                Err(err) => {
                    proof {
                        assert(base[i as int].0@ == e@);
                        assert(tree_keys(base)[i as int] == e@);
                        assert(tree_keys(base).contains(e@));
                        assert(tree_keys(base).to_set().contains(e@));
                        assert(instance_views(scan_res.effects@).to_set().contains(e@));
                        let w = choose|w: int| 0 <= w < instance_views(scan_res.effects@).len()
                            && instance_views(scan_res.effects@)[w] == e@;
                        assert(scan_res.effects@[w]@ == e@);
                        if err == AuditError::TreeTooLarge {
                            assert forall|t: EffectTree|
                                complete_tree(*scan_res, t, scan_res.effects@[w]@) implies tree_nodes(t)
                                    - 1 > MAX_CALLER_CHECKED_TREE_SIZE by {
                                assert(tree_info(t).caller_path == e@.caller);
                            }
                        }
                        if err == AuditError::MissingCallee {
                            assert(base[i as int].0@ == e@);
                            assert(tree_keys(base)[i as int] == e@);
                            assert(tree_keys(base).contains(e@));
                            assert(tree_keys(base).to_set().contains(e@));
                            assert(instance_views(scan_res.effects@).to_set().contains(e@));
                            let w = choose|w: int| 0 <= w < instance_views(scan_res.effects@).len()
                                && instance_views(scan_res.effects@)[w] == e@;
                            assert(scan_res.effects@[w]@ == e@);
                        }
                    }
                    return Err(err);
                },
            }
            total_size = total_size + tree_size;
            if total_size > MAX_AUDIT_FILE_SIZE {
                proof {
                    let es = tree_keys(trees@).push(e@);
                    let built = tree_list(trees@).push(t);
                    assert(tree_keys(base).take(i + 1) =~= tree_keys(base).take(i as int).push(e@)) by {
                        assert(tree_keys(base)[i as int] == base[i as int].0@);
                    }
                    assert(es == tree_keys(base).take(i + 1));
                    assert(es.no_duplicates()) by {
                        assert forall|a: int, b: int| 0 <= a < es.len() && 0 <= b < es.len() && a != b
                            implies es[a] != es[b] by {
                            assert(es[a] == tree_keys(base)[a]);
                            assert(es[b] == tree_keys(base)[b]);
                        }
                    }
                    assert forall|k: int| 0 <= k < es.len() implies instance_views(scan_res.effects@).contains(
                        #[trigger] es[k],
                    ) by {
                        assert(es[k] == tree_keys(base)[k]);
                        assert(tree_keys(base).contains(es[k]));
                        assert(tree_keys(base).to_set().contains(es[k]));
                    }
                    assert(forest_extra(built) == total_size) by {
                        assert(built.drop_last() =~= tree_list(trees@));
                    }
                    assert forall|k: int| 0 <= k < es.len() implies complete_tree(*scan_res, #[trigger] built[k], es[k]) by {
                        if k < i {
                            assert(built[k] == trees@[k].1);
                            assert(es[k] == trees@[k].0@);
                        } else {
                            assert(built[k] == t);
                            assert(tree_info(t).caller_path == e@.caller);
                        }
                    }
                    assert forall|ts: Seq<EffectTree>|
                        ts.len() == es.len() && (forall|k: int|
                            0 <= k < es.len() ==> complete_tree(*scan_res, #[trigger] ts[k], es[k]))
                            implies forest_extra(ts) > MAX_AUDIT_FILE_SIZE by {
                        lemma_extra_unique(*scan_res, es, ts, built);
                    }
                }
                return Err(AuditError::AuditTooLarge);
            }
            let ghost trees_before = trees@;
            proof {
                assert(tree_keys(base)[i as int] == e@);
                assert(!tree_keys(trees_before).contains(e@)) by {
                    if tree_keys(trees_before).contains(e@) {
                        let w = choose|w: int| 0 <= w < tree_keys(trees_before).len() && tree_keys(trees_before)[w] == e@;
                        assert(tree_keys(base).take(i as int)[w] == tree_keys(base)[w]);
                    }
                }
                lemma_cc_matches_push(pcc_before, pub_caller_checked@, trees_before, e, t, pubs);
            }
            trees.push((e, t));
            proof {
                assert(tree_list(trees@).drop_last() =~= tree_list(trees_before));
                assert(tree_list(trees@).last() == t);
                assert(tree_keys(trees@) =~= tree_keys(base).take(i + 1));
                assert forall|k: int| 0 <= k < trees@.len() implies tree_nodes(#[trigger] trees@[k].1) - 1
                    <= MAX_CALLER_CHECKED_TREE_SIZE by {
                    if k < i {
                        assert(trees@[k] == trees_before[k]);
                    }
                }
                assert forall|k: int| 0 <= k < trees@.len() implies {
                    let e = (#[trigger] trees@[k]).0@;
                    &&& tree_info(trees@[k].1) == (EffectInfoView { caller_path: e.caller, callee_loc: e.call_loc })
                    &&& caller_tree_ok(*scan_res, trees@[k].1, set![e.caller])
                } by {
                    if k < i {
                        assert(trees@[k] == trees_before[k]);
                    }
                }
            }
            i = i + 1;
        }
        proof {
            assert(tree_keys(base).take(n as int) =~= tree_keys(base));
        }
        audit_file.audit_trees = trees;
        audit_file.pub_caller_checked = pub_caller_checked;
        Ok(audit_file)
    }
}


proof fn lemma_cc_matches_from_entries(
    m: Seq<(CanonicalPath, Vec<EffectInstance>)>,
    t: Seq<(EffectInstance, EffectTree)>,
    pubs: Seq<Seq<char>>,
)
    requires
        cc_wf(m),
        forall|j: int|
            0 <= j < m.len() ==> {
                let p = (#[trigger] m[j]).0@;
                &&& pubs.contains(p)
                &&& cc_entry(m, j) == cc_set(t, p)
                &&& cc_set(t, p) != Set::<EffectInstanceView>::empty()
            },
        forall|p: Seq<char>|
            pubs.contains(p) && cc_set(t, p) != Set::<EffectInstanceView>::empty() ==> cc_keys(
                m,
            ).contains(p),
    ensures
        cc_matches(m, t, pubs),
{
    assert forall|k: Seq<char>|
        #[trigger] cc_lookup(m, k) == if pubs.contains(k) {
            cc_set(t, k)
        } else {
            Set::<EffectInstanceView>::empty()
        } by {
        if cc_keys(m).contains(k) {
            let j = choose|j: int| 0 <= j < cc_keys(m).len() && cc_keys(m)[j] == k;
            assert(m[j].0@ == k);
            lemma_cc_lookup(m, j);
        } else {
            lemma_cc_lookup_absent(m, k);
        }
    }
    assert forall|k: Seq<char>|
        #[trigger] cc_keys(m).contains(k) <==> (pubs.contains(k) && cc_set(t, k)
            != Set::<EffectInstanceView>::empty()) by {
        if cc_keys(m).contains(k) {
            let j = choose|j: int| 0 <= j < cc_keys(m).len() && cc_keys(m)[j] == k;
            assert(m[j].0@ == k);
        }
    }
}

/// Recalculating the public caller-checked functions of a default caller-checked
/// audit, against the same public functions, gives back the same map: the same
/// keys, and the same set of base effects at each key.
pub proof fn law_recalc_keeps_caller_checked_default(
    built: Seq<(CanonicalPath, Vec<EffectInstance>)>,
    recalculated: Seq<(CanonicalPath, Vec<EffectInstance>)>,
    trees: Seq<(EffectInstance, EffectTree)>,
    pubs: Seq<Seq<char>>,
)
    requires
        cc_matches(built, trees, pubs),
        cc_matches(recalculated, trees, pubs),
    ensures
        forall|k: Seq<char>| #[trigger] cc_lookup(recalculated, k) == cc_lookup(built, k),
        forall|k: Seq<char>|
            #[trigger] cc_keys(recalculated).contains(k) <==> cc_keys(built).contains(k),
{
    assert forall|k: Seq<char>| #[trigger] cc_lookup(recalculated, k) == cc_lookup(built, k) by {
        assert(cc_lookup(recalculated, k) == cc_lookup(built, k));
    }
    assert forall|k: Seq<char>|
        #[trigger] cc_keys(recalculated).contains(k) <==> cc_keys(built).contains(k) by {
        assert(cc_keys(recalculated).contains(k) <==> (pubs.contains(k) && cc_set(trees, k)
            != Set::<EffectInstanceView>::empty()));
        assert(cc_keys(built).contains(k) <==> (pubs.contains(k) && cc_set(trees, k)
            != Set::<EffectInstanceView>::empty()));
    }
}

impl AuditFile {
    /// `new_caller_checked_default_with_sinks` with no extra sinks: the sinks only
    /// shape the scan, whose results are given here.
    pub fn new_caller_checked_default(
        base_dir: String,
        hash: [u8; 32],
        scan_res: &ScanResults,
        relevant_effects: Vec<EffectType>,
    ) -> (r: Result<AuditFile, AuditError>)
        requires
            scan_res.wf(),
        ensures
            caller_checked_default_result(*scan_res, base_dir@, hash@, relevant_effects@, r),
    {
        Self::new_caller_checked_default_with_sinks(base_dir, hash, scan_res, relevant_effects)
    }

    /// A default audit with every base effect of the scan left unaudited.
    pub fn new_empty_default_with_sinks(
        base_dir: String,
        hash: [u8; 32],
        scan_res: &ScanResults,
        relevant_effects: Vec<EffectType>,
    ) -> (r: AuditFile)
        ensures
            r.wf(),
            tree_keys(r.audit_trees@).to_set() == instance_views(scan_res.effects@).to_set(),
            forall|i: int|
                0 <= i < r.audit_trees@.len() ==> base_tree(
                    (#[trigger] r.audit_trees@[i]).0@,
                    r.audit_trees@[i].1,
                ),
            r.pub_caller_checked@.len() == 0,
            r.base_dir@ == base_dir@,
            r.hash@ == hash@,
            r.version == 0,
            r.scanned_effects@ == relevant_effects@,
    {
        let mut audit_file = AuditFile::empty(base_dir, hash, relevant_effects);
        let effects = scan_res.effects_set();
        audit_file.set_base_audit_trees(&effects);
        audit_file
    }

    /// A default audit with every base effect of the scan marked safe.
    pub fn new_safe_default_with_sinks(
        base_dir: String,
        hash: [u8; 32],
        scan_res: &ScanResults,
        relevant_effects: Vec<EffectType>,
    ) -> (r: AuditFile)
        ensures
            r.wf(),
            tree_keys(r.audit_trees@).to_set() == instance_views(scan_res.effects@).to_set(),
            forall|i: int|
                0 <= i < r.audit_trees@.len() ==> safe_tree(
                    (#[trigger] r.audit_trees@[i]).0@,
                    r.audit_trees@[i].1,
                ),
            r.pub_caller_checked@.len() == 0,
            r.base_dir@ == base_dir@,
            r.hash@ == hash@,
            r.version == 0,
            r.scanned_effects@ == relevant_effects@,
    {
        let mut audit_file = Self::new_empty_default_with_sinks(
            base_dir,
            hash,
            scan_res,
            relevant_effects,
        );
        let ghost base = audit_file.audit_trees@;
        let mut trees: Vec<(EffectInstance, EffectTree)> = Vec::new();
        let n = audit_file.audit_trees.len();
        let mut i: usize = 0;
        while i < n
            invariant
                n == audit_file.audit_trees.len(),
                audit_file.audit_trees@ == base,
                forall|k: int| 0 <= k < base.len() ==> base_tree((#[trigger] base[k]).0@, base[k].1),
                i <= n,
                trees@.len() == i,
                tree_keys(trees@) == tree_keys(base).take(i as int),
                forall|k: int| 0 <= k < i ==> safe_tree((#[trigger] trees@[k]).0@, trees@[k].1),
            decreases n - i,
        {
            let e = audit_file.audit_trees[i].0.clone();
            let mut t = EffectTree::Leaf(EffectInfo::from_instance(&e), SafetyAnnotation::Skipped);
            t.set_annotation(SafetyAnnotation::Safe);
            let ghost before = trees@;
            trees.push((e, t));
            proof {
                assert(tree_keys(trees@) =~= tree_keys(base).take(i + 1));
                assert forall|k: int| 0 <= k < i + 1 implies safe_tree((#[trigger] trees@[k]).0@, trees@[k].1) by {
                    if k < i {
                        assert(trees@[k] == before[k]);
                    }
                }
            }
            i = i + 1;
        }
        proof {
            assert(tree_keys(base).take(n as int) =~= tree_keys(base));
        }
        audit_file.audit_trees = trees;
        audit_file
    }

    /// A default audit of the given kind.
    pub fn new_default_with_sinks(
        base_dir: String,
        hash: [u8; 32],
        scan_res: &ScanResults,
        audit_type: DefaultAuditType,
        relevant_effects: Vec<EffectType>,
    ) -> (r: Result<AuditFile, AuditError>)
        requires
            scan_res.wf(),
        ensures
            r matches Ok(af) ==> {
                &&& af.wf()
                &&& tree_keys(af.audit_trees@).to_set() == instance_views(
                    scan_res.effects@,
                ).to_set()
                &&& af.base_dir@ == base_dir@
                &&& af.hash@ == hash@
                &&& af.version == 0
                &&& af.scanned_effects@ == relevant_effects@
            },
            audit_type == DefaultAuditType::CallerChecked ==> caller_checked_default_result(
                *scan_res,
                base_dir@,
                hash@,
                relevant_effects@,
                r,
            ),
            audit_type == DefaultAuditType::Empty ==> r is Ok && r->Ok_0.pub_caller_checked@.len()
                == 0 && forall|i: int|
                0 <= i < r->Ok_0.audit_trees@.len() ==> base_tree(
                    (#[trigger] r->Ok_0.audit_trees@[i]).0@,
                    r->Ok_0.audit_trees@[i].1,
                ),
            audit_type == DefaultAuditType::Safe ==> r is Ok && r->Ok_0.pub_caller_checked@.len()
                == 0 && forall|i: int|
                0 <= i < r->Ok_0.audit_trees@.len() ==> safe_tree(
                    (#[trigger] r->Ok_0.audit_trees@[i]).0@,
                    r->Ok_0.audit_trees@[i].1,
                ),
            r is Err ==> audit_type == DefaultAuditType::CallerChecked,
    {
        match audit_type {
            DefaultAuditType::CallerChecked => Self::new_caller_checked_default_with_sinks(
                base_dir,
                hash,
                scan_res,
                relevant_effects,
            ),
            DefaultAuditType::Empty => Ok(
                Self::new_empty_default_with_sinks(base_dir, hash, scan_res, relevant_effects),
            ),
            DefaultAuditType::Safe => Ok(
                Self::new_safe_default_with_sinks(base_dir, hash, scan_res, relevant_effects),
            ),
        }
    }
}


proof fn lemma_caller_tree_audited(sr: ScanResults, t: EffectTree, prev: Set<Seq<char>>)
    requires
        caller_tree_ok(sr, t, prev),
    ensures
        tree_unaudited(t) == 0,
        !tree_has_unsafe(t),
    decreases t,
{
    match t {
        EffectTree::Leaf(_, _) => {},
        EffectTree::Branch(_, ts) => {
            lemma_caller_forest_audited(sr, ts@, prev);
        },
    }
}

proof fn lemma_caller_forest_audited(sr: ScanResults, ts: Seq<EffectTree>, prev: Set<Seq<char>>)
    requires
        forall|i: int|
            0 <= i < ts.len() ==> caller_tree_ok(
                sr,
                #[trigger] ts[i],
                prev.insert(tree_info(ts[i]).caller_path),
            ),
    ensures
        forest_unaudited(ts) == 0,
        !forest_has_unsafe(ts),
    decreases ts,
{
    if ts.len() > 0 {
        let last = ts.last();
        assert(caller_tree_ok(sr, ts[ts.len() - 1], prev.insert(tree_info(ts[ts.len() - 1]).caller_path)));
        lemma_caller_tree_audited(sr, last, prev.insert(tree_info(last).caller_path));
        assert forall|i: int|
            0 <= i < ts.drop_last().len() implies caller_tree_ok(
            sr,
            #[trigger] ts.drop_last()[i],
            prev.insert(tree_info(ts.drop_last()[i]).caller_path),
        ) by {
            assert(ts.drop_last()[i] == ts[i]);
        }
        lemma_caller_forest_audited(sr, ts.drop_last(), prev);
    }
}

/// A default caller-checked audit leaves nothing to audit: no base effect and no
/// location is unaudited, and nothing is marked unsafe.
pub proof fn law_caller_checked_default_fully_audited(
    sr: ScanResults,
    trees: Seq<(EffectInstance, EffectTree)>,
)
    requires
        caller_checked_trees(sr, trees),
    ensures
        trees_unaudited_base(trees) == 0,
        trees_unaudited_total(trees) == 0,
        !trees_have_unsafe(trees),
    decreases trees.len(),
{
    if trees.len() > 0 {
        let n = trees.len() - 1;
        let e = trees[n].0@;
        assert(caller_tree_ok(sr, trees[n].1, set![e.caller]));
        lemma_caller_tree_audited(sr, trees[n].1, set![e.caller]);
        assert forall|i: int| 0 <= i < trees.drop_last().len() implies {
            let e = (#[trigger] trees.drop_last()[i]).0@;
            &&& tree_info(trees.drop_last()[i].1) == (EffectInfoView { caller_path: e.caller, callee_loc: e.call_loc })
            &&& caller_tree_ok(sr, trees.drop_last()[i].1, set![e.caller])
        } by {
            assert(trees.drop_last()[i] == trees[i]);
        }
        law_caller_checked_default_fully_audited(sr, trees.drop_last());
        assert forall|i: int| 0 <= i < trees.len() implies !tree_has_unsafe(#[trigger] trees[i].1) by {
            if i < n {
                assert(trees.drop_last()[i] == trees[i]);
            }
        }
    }
}

/// In a default audit left empty, every base effect is unaudited, at exactly one
/// location, and nothing is marked unsafe.
pub proof fn law_empty_default_all_unaudited(trees: Seq<(EffectInstance, EffectTree)>)
    requires
        forall|i: int| 0 <= i < trees.len() ==> base_tree((#[trigger] trees[i]).0@, trees[i].1),
    ensures
        trees_unaudited_base(trees) == trees.len(),
        trees_unaudited_total(trees) == trees.len(),
        !trees_have_unsafe(trees),
    decreases trees.len(),
{
    if trees.len() > 0 {
        assert forall|i: int| 0 <= i < trees.drop_last().len() implies base_tree(
            (#[trigger] trees.drop_last()[i]).0@,
            trees.drop_last()[i].1,
        ) by {
            assert(trees.drop_last()[i] == trees[i]);
        }
        law_empty_default_all_unaudited(trees.drop_last());
        assert(base_tree(trees[trees.len() - 1].0@, trees[trees.len() - 1].1));
        assert forall|i: int| 0 <= i < trees.len() implies !tree_has_unsafe(#[trigger] trees[i].1) by {
            if i < trees.len() - 1 {
                assert(trees.drop_last()[i] == trees[i]);
            }
            assert(base_tree(trees[i].0@, trees[i].1));
        }
    }
}

/// In a default audit marked safe, nothing is left to audit and nothing is
/// marked unsafe.
pub proof fn law_safe_default_fully_audited(trees: Seq<(EffectInstance, EffectTree)>)
    requires
        forall|i: int| 0 <= i < trees.len() ==> safe_tree((#[trigger] trees[i]).0@, trees[i].1),
    ensures
        trees_unaudited_base(trees) == 0,
        trees_unaudited_total(trees) == 0,
        !trees_have_unsafe(trees),
    decreases trees.len(),
{
    if trees.len() > 0 {
        assert forall|i: int| 0 <= i < trees.drop_last().len() implies safe_tree(
            (#[trigger] trees.drop_last()[i]).0@,
            trees.drop_last()[i].1,
        ) by {
            assert(trees.drop_last()[i] == trees[i]);
        }
        law_safe_default_fully_audited(trees.drop_last());
        assert(safe_tree(trees[trees.len() - 1].0@, trees[trees.len() - 1].1));
        assert forall|i: int| 0 <= i < trees.len() implies !tree_has_unsafe(#[trigger] trees[i].1) by {
            if i < trees.len() - 1 {
                assert(trees.drop_last()[i] == trees[i]);
            }
            assert(safe_tree(trees[i].0@, trees[i].1));
        }
    }
}

/// The trees that removing the sinks `sinks` keeps.
pub open spec fn kept_trees(t: Seq<(EffectInstance, EffectTree)>, sinks: Seq<Seq<char>>) -> Seq<
    (EffectInstance, EffectTree),
> {
    t.filter(|p: (EffectInstance, EffectTree)| !removed_by(p.0@, sinks))
}

/// The trees that removing the sinks `sinks` drops.
pub open spec fn dropped_trees(t: Seq<(EffectInstance, EffectTree)>, sinks: Seq<Seq<char>>) -> Seq<
    (EffectInstance, EffectTree),
> {
    t.filter(|p: (EffectInstance, EffectTree)| removed_by(p.0@, sinks))
}

/// Removing sinks splits the base effects: each is either kept or returned as
/// removed, never both.
pub proof fn law_remove_sinks_partitions(
    trees: Seq<(EffectInstance, EffectTree)>,
    sinks: Seq<Seq<char>>,
)
    ensures
        forall|e: EffectInstanceView|
            #[trigger] tree_keys(trees).contains(e) <==> (tree_keys(kept_trees(trees, sinks)).contains(e)
                || tree_keys(dropped_trees(trees, sinks)).contains(e)),
        forall|e: EffectInstanceView|
            !(#[trigger] tree_keys(kept_trees(trees, sinks)).contains(e) && tree_keys(
                dropped_trees(trees, sinks),
            ).contains(e)),
{
    let kf = |p: (EffectInstance, EffectTree)| !removed_by(p.0@, sinks);
    let rf = |p: (EffectInstance, EffectTree)| removed_by(p.0@, sinks);
    let kept = trees.filter(kf);
    let removed = trees.filter(rf);
    assert(kept == kept_trees(trees, sinks));
    assert(removed == dropped_trees(trees, sinks));
    assert forall|e: EffectInstanceView|
        #[trigger] tree_keys(trees).contains(e) <==> (tree_keys(kept).contains(e) || tree_keys(
            removed,
        ).contains(e)) by {
        if tree_keys(trees).contains(e) {
            let i = choose|i: int| 0 <= i < tree_keys(trees).len() && tree_keys(trees)[i] == e;
            let x = trees[i];
            if removed_by(x.0@, sinks) {
                trees.lemma_filter_contains(rf, i);
                let j = choose|j: int| 0 <= j < removed.len() && removed[j] == x;
                assert(tree_keys(removed)[j] == e);
            } else {
                trees.lemma_filter_contains(kf, i);
                let j = choose|j: int| 0 <= j < kept.len() && kept[j] == x;
                assert(tree_keys(kept)[j] == e);
            }
        }
        if tree_keys(kept).contains(e) {
            let j = choose|j: int| 0 <= j < tree_keys(kept).len() && tree_keys(kept)[j] == e;
            assert(kept.contains(kept[j]));
            trees.lemma_filter_contains_rev(kf, kept[j]);
            let i = choose|i: int| 0 <= i < trees.len() && trees[i] == kept[j];
            assert(tree_keys(trees)[i] == e);
        }
        if tree_keys(removed).contains(e) {
            let j = choose|j: int| 0 <= j < tree_keys(removed).len() && tree_keys(removed)[j] == e;
            assert(removed.contains(removed[j]));
            trees.lemma_filter_contains_rev(rf, removed[j]);
            let i = choose|i: int| 0 <= i < trees.len() && trees[i] == removed[j];
            assert(tree_keys(trees)[i] == e);
        }
    }
    assert forall|e: EffectInstanceView|
        !(#[trigger] tree_keys(kept).contains(e) && tree_keys(removed).contains(e)) by {
        if tree_keys(kept).contains(e) && tree_keys(removed).contains(e) {
            let a = choose|a: int| 0 <= a < tree_keys(kept).len() && tree_keys(kept)[a] == e;
            let b = choose|b: int| 0 <= b < tree_keys(removed).len() && tree_keys(removed)[b] == e;
            trees.lemma_filter_pred(kf, a);
            trees.lemma_filter_pred(rf, b);
            assert(kept[a].0@ == e);
            assert(removed[b].0@ == e);
        }
    }
}


impl AuditFile {
    /// The public functions marked caller-checked: the keys of `pub_caller_checked`.
    fn pub_caller_checked_fns(&self) -> (r: Vec<CanonicalPath>)
        ensures
            path_views(r@) == cc_keys(self.pub_caller_checked@),
    {
        let mut r: Vec<CanonicalPath> = Vec::new();
        let mut i: usize = 0;
        while i < self.pub_caller_checked.len()
            invariant
                i <= self.pub_caller_checked.len(),
                r@.len() == i,
                path_views(r@) == cc_keys(self.pub_caller_checked@).take(i as int),
            decreases self.pub_caller_checked.len() - i,
        {
            let ghost before = r@;
            r.push(self.pub_caller_checked[i].0.clone());
            assert(path_views(r@) =~= cc_keys(self.pub_caller_checked@).take(i + 1)) by {
                assert forall|k: int| 0 <= k < i + 1 implies path_views(r@)[k] == cc_keys(
                    self.pub_caller_checked@,
                )[k] by {
                    if k < i {
                        assert(r@[k] == before[k]);
                        assert(path_views(before)[k] == cc_keys(self.pub_caller_checked@).take(i as int)[k]);
                    }
                }
            }
            i = i + 1;
        }
        assert(cc_keys(self.pub_caller_checked@).take(i as int) =~= cc_keys(self.pub_caller_checked@));
        r
    }

    /// One audit's update in an audit chain when the sinks `removed_fns` no
    /// longer need checking: its base effects that call one of them are dropped,
    /// its public caller-checked functions are recalculated among those it had,
    /// its version goes up by one when anything was dropped or a function stopped
    /// being caller-checked, and those functions join `removed_fns`.
    ///
    /// Dropping base effects leaves the caller-checked map as it is, so no
    /// function stops being caller-checked here: `removed_fns` comes back unchanged.
    pub fn apply_removed_sinks(&mut self, removed_fns: &mut Vec<CanonicalPath>)
        requires
            old(self).wf(),
            old(self).version < u32::MAX,
        ensures
            final(self).wf(),
            final(self).audit_trees@ == kept_trees(
                old(self).audit_trees@,
                path_views(old(removed_fns)@),
            ),
            cc_matches(
                final(self).pub_caller_checked@,
                final(self).audit_trees@,
                cc_keys(old(self).pub_caller_checked@),
            ),
            final(self).version == old(self).version + if dropped_trees(
                old(self).audit_trees@,
                path_views(old(removed_fns)@),
            ).len() > 0 {
                1int
            } else {
                0int
            },
            final(removed_fns)@ == old(removed_fns)@,
            final(self).base_dir == old(self).base_dir,
            final(self).hash == old(self).hash,
            final(self).scanned_effects == old(self).scanned_effects,
    {
        let starting_pub_caller_checked = self.pub_caller_checked_fns();
        let removed_effect_instances = self.remove_sinks_from_tree(removed_fns);
        let package_pub_fns = self.pub_caller_checked_fns();
        let mut next_removed_fns: Vec<CanonicalPath> = Vec::new();
        let mut i: usize = 0;
        while i < starting_pub_caller_checked.len()
            invariant
                i <= starting_pub_caller_checked.len(),
                path_views(package_pub_fns@) == path_views(starting_pub_caller_checked@),
                next_removed_fns@.len() == 0,
            decreases starting_pub_caller_checked.len() - i,
        {
            if !contains_path(&package_pub_fns, &starting_pub_caller_checked[i]) {
                proof {
                    assert(path_views(starting_pub_caller_checked@)[i as int]
                        == starting_pub_caller_checked@[i as int]@);
                }
                next_removed_fns.push(starting_pub_caller_checked[i].clone());
            }
            i = i + 1;
        }
        proof {
            assert(instance_views(removed_effect_instances@).len() == removed_effect_instances@.len());
        }
        if next_removed_fns.len() > 0 || removed_effect_instances.len() > 0 {
            // If the audit file changes, we need to bump the version so
            // other audit chains know to recalculate their effects
            self.version = self.version + 1;
        }
        let mut j: usize = 0;
        while j < next_removed_fns.len()
            invariant
                next_removed_fns@.len() == 0,
                removed_fns@ == old(removed_fns)@,
            decreases next_removed_fns.len() - j,
        {
            insert_path(removed_fns, &next_removed_fns[j]);
            j = j + 1;
        }
        // reconstruct invariant
        self.recalc_pub_caller_checked(&starting_pub_caller_checked);
    }
}


/// Where an audit stands, as its statistics report it.
#[derive(Debug, Clone, Copy, PartialEq, Eq, Structural)]
pub enum AuditStanding {
    /// Locations are left to audit
    Unaudited { remaining: usize, pub_caller_checked: usize },
    /// Fully audited, with no public function to check and nothing unsafe
    Safe,
    /// Fully audited, safe if the callers of these public functions check them
    SafeWithCallerChecked { pub_caller_checked: usize },
}

impl AuditFile {
    /// Where the audit stands: the unaudited locations left, or, once none is
    /// left, whether the package is safe or safe with public functions marked
    /// caller-checked (or unsafe: a package with an unsafe effect is never
    /// reported safe without qualification).
    pub fn audit_standing(&self) -> (r: AuditStanding)
        requires
            trees_unaudited_total(self.audit_trees@) <= usize::MAX,
        ensures
            trees_unaudited_total(self.audit_trees@) > 0 ==> r == (AuditStanding::Unaudited {
                remaining: trees_unaudited_total(self.audit_trees@) as usize,
                pub_caller_checked: self.pub_caller_checked@.len() as usize,
            }),
            trees_unaudited_total(self.audit_trees@) == 0 && self.pub_caller_checked@.len() == 0
                && !trees_have_unsafe(self.audit_trees@) ==> r == AuditStanding::Safe,
            trees_unaudited_total(self.audit_trees@) == 0 && (self.pub_caller_checked@.len() > 0
                || trees_have_unsafe(self.audit_trees@)) ==> r == (
            AuditStanding::SafeWithCallerChecked {
                pub_caller_checked: self.pub_caller_checked@.len() as usize,
            }),
    {
        let (_, unaudited_total) = self.unaudited_effects();
        let num_pub_cc = self.pub_caller_checked.len();
        if unaudited_total == 0 {
            if num_pub_cc == 0 && !self.has_unsafe_effect() {
                AuditStanding::Safe
            } else {
                AuditStanding::SafeWithCallerChecked { pub_caller_checked: num_pub_cc }
            }
        } else {
            AuditStanding::Unaudited { remaining: unaudited_total, pub_caller_checked: num_pub_cc }
        }
    }
}

} // verus!
