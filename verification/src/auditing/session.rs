//! An interactive audit of an audit file between two effect trees: which base
//! effect the auditor sees next, and how the audit goes on once the walk
//! through its tree is over.
use vstd::prelude::*;

use crate::audit_file::{cc_keys, tree_keys, AuditFile, EffectTree, SafetyAnnotation};
use crate::ident::CanonicalPath;
use crate::auditing::audit::{
    audit_order, base_decision, finish_base, fn_ptr_lookup, fn_ptr_views, key_lt, loc_key,
    start_base, AuditFlow, AuditStatus, BaseStep,
};
use crate::effect::{Effect, EffectInstance, EffectInstanceView};

verus! {

/// The base effects of a list of trees.
pub open spec fn base_views(t: Seq<(EffectInstance, EffectTree)>) -> Seq<EffectInstanceView> {
    t.map_values(|e: (EffectInstance, EffectTree)| e.0@)
}

/// The trees of a list of trees.
pub open spec fn tree_seq(t: Seq<(EffectInstance, EffectTree)>) -> Seq<EffectTree> {
    t.map_values(|e: (EffectInstance, EffectTree)| e.1)
}

/// The trees once the base effects that need no auditor, from position `pos`
/// of `order` on, are settled (see `base_decision`), and the position of the
/// first base effect that needs one (the end of `order` where none does).
pub open spec fn settle_from(
    bases: Seq<EffectInstanceView>,
    trees: Seq<EffectTree>,
    order: Seq<usize>,
    pos: nat,
    fns: Seq<(Seq<char>, SafetyAnnotation)>,
) -> (Seq<EffectTree>, nat)
    decreases order.len() - pos,
{
    if pos >= order.len() {
        (trees, pos)
    } else {
        let i = order[pos as int] as int;
        let (step, t2) = base_decision(bases[i], trees[i], fns);
        if step == BaseStep::Audit {
            (trees, pos)
        } else {
            settle_from(bases, trees.update(i, t2), order, pos + 1, fns)
        }
    }
}

/// How the audit goes on after the walk through a base effect's tree ended
/// with `status`: it stops when the auditor exits, goes to the effect's origin
/// when asked to, goes on to the next base effect otherwise; a status asking
/// for the parent effect is an error.
pub open spec fn flow_after(status: AuditStatus) -> Result<AuditFlow, ()> {
    match status {
        AuditStatus::EarlyExit => Ok(AuditFlow::Stop),
        AuditStatus::AuditChildEffect => Ok(AuditFlow::AuditChild),
        AuditStatus::AuditParentEffect => Err(()),
        _ => Ok(AuditFlow::Next),
    }
}

/// Where an audit of an audit file stands: the order of its base effects, how
/// far along it the audit is, and the annotation given so far to each function
/// pointer's target.
pub struct AuditSession {
    pub order: Vec<usize>,
    pub pos: usize,
    pub fn_ptr_effects: Vec<(String, SafetyAnnotation)>,
}

impl AuditSession {
    /// The session's order and position fit the audit file's trees.
    pub open spec fn fits(&self, af: AuditFile) -> bool {
        &&& self.pos <= self.order@.len()
        &&& forall|k: int| 0 <= k < self.order@.len() ==> #[trigger] self.order@[k] < af.audit_trees@.len()
    }

    /// An audit of `audit_file` about to start: its base effects in the order
    /// of their locations (see `audit_order`), nothing annotated yet.
    pub fn new(audit_file: &AuditFile) -> (r: AuditSession)
        ensures
            r.fits(*audit_file),
            r.pos == 0,
            r.fn_ptr_effects@.len() == 0,
            r.order@.len() == audit_file.audit_trees@.len(),
            r.order@.no_duplicates(),
            forall|i: int, j: int|
                0 <= i < j < r.order@.len() ==> !key_lt(
                    loc_key(audit_file.audit_trees@[r.order@[j] as int].0@),
                    loc_key(audit_file.audit_trees@[r.order@[i] as int].0@),
                ),
            forall|i: int, j: int|
                0 <= i < j < r.order@.len() && loc_key(audit_file.audit_trees@[r.order@[i] as int].0@)
                    == loc_key(audit_file.audit_trees@[r.order@[j] as int].0@) ==> r.order@[i] < r.order@[j],
    {
        AuditSession { order: audit_order(&audit_file.audit_trees), pos: 0, fn_ptr_effects: Vec::new() }
    }

    /// Settles the base effects that need no auditor (annotated already, or
    /// function pointers whose target was annotated before) and stops at the
    /// next one that does: gives the position of its tree in the audit file,
    /// and whether that tree is a leaf; `None` when no base effect is left.
    pub fn next_base(&mut self, audit_file: &mut AuditFile) -> (r: Option<(usize, bool)>)
        requires
            old(self).fits(*old(audit_file)),
            old(audit_file).wf(),
        ensures
            final(audit_file).wf(),
            final(self).fits(*final(audit_file)),
            final(self).order == old(self).order,
            final(self).fn_ptr_effects == old(self).fn_ptr_effects,
            base_views(final(audit_file).audit_trees@) == base_views(old(audit_file).audit_trees@),
            final(audit_file).pub_caller_checked == old(audit_file).pub_caller_checked,
            final(audit_file).base_dir == old(audit_file).base_dir,
            final(audit_file).hash == old(audit_file).hash,
            final(audit_file).version == old(audit_file).version,
            final(audit_file).scanned_effects == old(audit_file).scanned_effects,
            ({
                let (trees, pos) = settle_from(
                    base_views(old(audit_file).audit_trees@),
                    tree_seq(old(audit_file).audit_trees@),
                    old(self).order@,
                    old(self).pos as nat,
                    fn_ptr_views(old(self).fn_ptr_effects@),
                );
                &&& tree_seq(final(audit_file).audit_trees@) == trees
                &&& final(self).pos == pos
                &&& match r {
                    Some((i, leaf)) => pos < old(self).order@.len() && i == old(self).order@[pos as int]
                        && leaf == (trees[i as int] is Leaf),
                    None => pos == old(self).order@.len(),
                }
            }),
    {
        let ghost bases = base_views(audit_file.audit_trees@);
        let ghost fns = fn_ptr_views(self.fn_ptr_effects@);
        let ghost target = settle_from(bases, tree_seq(audit_file.audit_trees@), self.order@, self.pos as nat, fns);
        while self.pos < self.order.len()
            invariant
                self.fits(*audit_file),
                audit_file.wf(),
                self.order == old(self).order,
                self.fn_ptr_effects == old(self).fn_ptr_effects,
                fns == fn_ptr_views(self.fn_ptr_effects@),
                bases == base_views(audit_file.audit_trees@),
                bases == base_views(old(audit_file).audit_trees@),
                target == settle_from(bases, tree_seq(audit_file.audit_trees@), self.order@, self.pos as nat, fns),
                target == settle_from(
                    base_views(old(audit_file).audit_trees@),
                    tree_seq(old(audit_file).audit_trees@),
                    old(self).order@,
                    old(self).pos as nat,
                    fn_ptr_views(old(self).fn_ptr_effects@),
                ),
                audit_file.pub_caller_checked == old(audit_file).pub_caller_checked,
                audit_file.base_dir == old(audit_file).base_dir,
                audit_file.hash == old(audit_file).hash,
                audit_file.version == old(audit_file).version,
                audit_file.scanned_effects == old(audit_file).scanned_effects,
            decreases self.order.len() - self.pos,
        {
            let i = self.order[self.pos];
            let ghost before = audit_file.audit_trees@;
            let (e, mut t) = audit_file.audit_trees.remove(i);
            let ghost t0 = t;
            proof {
                assert(e@ == bases[i as int]);
                assert(t0 == tree_seq(before)[i as int]);
            }
            let step = start_base(&e, &mut t, &self.fn_ptr_effects);
            let leaf = t.get_leaf_annotation().is_some();
            let ghost t2 = t;
            audit_file.audit_trees.insert(i, (e, t));
            proof {
                let after = audit_file.audit_trees@;
                assert(after =~= before.update(i as int, (e, t2)));
                assert(base_views(after) =~= base_views(before));
                assert(tree_seq(after) =~= tree_seq(before).update(i as int, t2));
                assert(crate::audit_file::tree_keys(after) =~= crate::audit_file::tree_keys(before));
            }
            if step == BaseStep::Audit {
                proof {
                    assert(base_decision(bases[i as int], tree_seq(before)[i as int], fns) == (step, t2));
                    assert(t2 == tree_seq(before)[i as int]);
                    assert(tree_seq(audit_file.audit_trees@) =~= tree_seq(before));
                    assert(settle_from(bases, tree_seq(before), self.order@, self.pos as nat, fns) == (tree_seq(before), self.pos as nat));
                    assert(leaf == (t2 is Leaf));
                }
                return Some((i, leaf));
            }
            self.pos = self.pos + 1;
        }
        None
    }

    /// Records how the walk through the tree of the base effect at the current
    /// position ended. `from_leaf` tells whether that tree was an unaudited
    /// leaf when the walk began; then an annotation now on a function pointer's
    /// leaf is remembered for its target (see `finish_base`). A function
    /// pointer's tree that grew into a branch leaves no annotation to remember:
    /// that is an error, and nothing changes. The audit goes on as `flow_after`
    /// says, and moves past the base effect when it goes on to the next one.
    pub fn finish(&mut self, effect: &EffectInstance, tree: &EffectTree, from_leaf: bool, status: AuditStatus) -> (r: Result<AuditFlow, ()>)
        requires
            old(self).pos < old(self).order@.len(),
        ensures
            final(self).order == old(self).order,
            ({
                let next = status != AuditStatus::EarlyExit && status != AuditStatus::AuditChildEffect
                    && status != AuditStatus::AuditParentEffect;
                let remembers = from_leaf && effect@.eff_type is FnPtrCreation && next;
                if remembers && tree is Branch {
                    &&& r is Err
                    &&& final(self).pos == old(self).pos
                    &&& final(self).fn_ptr_effects@ == old(self).fn_ptr_effects@
                } else {
                    &&& r == flow_after(status)
                    &&& final(self).pos == old(self).pos + if next { 1int } else { 0int }
                    &&& if remembers && tree->Leaf_1 != SafetyAnnotation::Skipped {
                        forall|k: Seq<char>|
                            #[trigger] fn_ptr_lookup(fn_ptr_views(final(self).fn_ptr_effects@), k) == if k
                                == effect@.callee {
                                Some(tree->Leaf_1)
                            } else {
                                fn_ptr_lookup(fn_ptr_views(old(self).fn_ptr_effects@), k)
                            }
                    } else {
                        final(self).fn_ptr_effects@ == old(self).fn_ptr_effects@
                    }
                }
            }),
    {
        let pos = self.pos;
        let next = match status {
            AuditStatus::EarlyExit => false,
            AuditStatus::AuditChildEffect => false,
            AuditStatus::AuditParentEffect => false,
            _ => true,
        };
        let fn_ptr = matches!(effect.eff_type(), Effect::FnPtrCreation);
        let r = if from_leaf {
            if fn_ptr && next && tree.get_leaf_annotation().is_none() {
                return Err(());
            }
            finish_base(effect, tree, status, &mut self.fn_ptr_effects)
        } else {
            match status {
                AuditStatus::EarlyExit => Ok(AuditFlow::Stop),
                AuditStatus::AuditChildEffect => Ok(AuditFlow::AuditChild),
                AuditStatus::AuditParentEffect => Err(()),
                _ => Ok(AuditFlow::Next),
            }
        };
        if next {
            let n = self.order.len();
            assert(pos < n);
            self.pos = pos + 1;
        }
        r
    }
}


/// Settling is idempotent: asking for the next base effect again before it
/// was audited gives the same one and changes no tree.
pub proof fn law_settle_idempotent(
    bases: Seq<EffectInstanceView>,
    trees: Seq<EffectTree>,
    order: Seq<usize>,
    pos: nat,
    fns: Seq<(Seq<char>, SafetyAnnotation)>,
)
    ensures
        ({
            let (t1, p1) = settle_from(bases, trees, order, pos, fns);
            settle_from(bases, t1, order, p1, fns) == (t1, p1)
        }),
    decreases order.len() - pos,
{
    if pos < order.len() {
        let i = order[pos as int] as int;
        let (step, t2) = base_decision(bases[i], trees[i], fns);
        if step != BaseStep::Audit {
            law_settle_idempotent(bases, trees.update(i, t2), order, pos + 1, fns);
        }
    }
}

/// The position of the tree of base effect `e`, if it has one.
fn tree_position(audit_file: &AuditFile, e: &EffectInstance) -> (r: Option<usize>)
    ensures
        match r {
            Some(k) => k < audit_file.audit_trees@.len() && tree_keys(audit_file.audit_trees@)[k as int] == e@,
            None => !tree_keys(audit_file.audit_trees@).contains(e@),
        },
{
    let mut k: usize = 0;
    while k < audit_file.audit_trees.len()
        invariant
            k <= audit_file.audit_trees@.len(),
            forall|m: int| 0 <= m < k ==> tree_keys(audit_file.audit_trees@)[m] != e@,
        decreases audit_file.audit_trees.len() - k,
    {
        if audit_file.audit_trees[k].0.same_instance(e) {
            return Some(k);
        }
        k = k + 1;
    }
    None
}

/// The trees to walk when the public function `sink_fn` is audited on behalf
/// of its callers: the positions of the trees of the base effects it is
/// caller-checked for, in the order they are listed. `None` where `sink_fn` is
/// not caller-checked, or one of those base effects has no tree.
pub fn pub_fn_trees(audit_file: &AuditFile, sink_fn: &CanonicalPath) -> (r: Option<Vec<usize>>)
    requires
        audit_file.wf(),
    ensures
        ({
            let pcc = audit_file.pub_caller_checked@;
            let keys = tree_keys(audit_file.audit_trees@);
            match r {
                Some(v) => exists|j: int| {
                    &&& 0 <= j < pcc.len()
                    &&& (#[trigger] pcc[j]).0@ == sink_fn@
                    &&& v@.len() == pcc[j].1@.len()
                    &&& forall|m: int| 0 <= m < v@.len() ==> v@[m] < keys.len() && keys[v@[m] as int] == pcc[j].1@[m]@
                },
                None => !cc_keys(pcc).contains(sink_fn@) || exists|j: int, m: int| {
                    &&& 0 <= j < pcc.len()
                    &&& pcc[j].0@ == sink_fn@
                    &&& 0 <= m < pcc[j].1@.len()
                    &&& !keys.contains(#[trigger] pcc[j].1@[m]@)
                },
            }
        }),
{
    let ghost pcc = audit_file.pub_caller_checked@;
    let mut j: usize = 0;
    while j < audit_file.pub_caller_checked.len()
        invariant
            pcc == audit_file.pub_caller_checked@,
            j <= pcc.len(),
            forall|q: int| 0 <= q < j ==> pcc[q].0@ != sink_fn@,
        decreases audit_file.pub_caller_checked.len() - j,
    {
        if audit_file.pub_caller_checked[j].0.same_path(sink_fn) {
            let bases = &audit_file.pub_caller_checked[j].1;
            let mut v: Vec<usize> = Vec::new();
            let mut m: usize = 0;
            while m < bases.len()
                invariant
                    pcc == audit_file.pub_caller_checked@,
                    j < pcc.len(),
                    *bases == pcc[j as int].1,
                    pcc[j as int].0@ == sink_fn@,
                    m <= bases@.len(),
                    v@.len() == m,
                    forall|mm: int| 0 <= mm < m ==> v@[mm] < audit_file.audit_trees@.len()
                        && tree_keys(audit_file.audit_trees@)[v@[mm] as int] == bases@[mm]@,
                decreases bases.len() - m,
            {
                match tree_position(audit_file, &bases[m]) {
                    Some(k) => v.push(k),
                    None => {
                        proof {
                            assert(pcc[j as int].0@ == sink_fn@ && 0 <= m < pcc[j as int].1@.len()
                                && !tree_keys(audit_file.audit_trees@).contains(pcc[j as int].1@[m as int]@));
                        }
                        return None;
                    },
                }
                m = m + 1;
            }
            return Some(v);
        }
        j = j + 1;
    }
    proof {
        assert forall|q: int| 0 <= q < cc_keys(pcc).len() implies cc_keys(pcc)[q] != sink_fn@ by {
            assert(cc_keys(pcc)[q] == pcc[q].0@);
        }
    }
    None
}
} // verus!
