//! Extract statistics from a scan.
//!
//! Combines
//! - the scan results (list of effects, lines of code skipped or scanned)
//! - the caller-checked audit of the crate (public functions reached, functions
//!   and lines of code an auditor would review)
use vstd::prelude::*;

use crate::audit_file::{AuditFile, EffectTree};
use crate::effect::{csv_sep, push_csv_sep, push_decimal, EffectInstance};
use crate::ident::{insert_path, path_views, CanonicalPath};
use crate::loc_tracker::{tracker_loc, LoCTracker, LoCTrackerView};
use crate::scanner::ScanResults;
use crate::text::{decimal, digit_char, push_str};

verus! {

#[derive(Debug)]
pub struct CrateStats {
    pub crate_path: String,
    // List of effects
    pub effects: Vec<EffectInstance>,
    // Scan metadata
    pub total_loc: LoCTracker,
    pub skipped_macros: LoCTracker,
    pub skipped_conditional_code: LoCTracker,
    pub skipped_fn_calls: LoCTracker,
    pub skipped_fn_ptrs: LoCTracker,
    pub skipped_other: LoCTracker,
    pub unsafe_traits: LoCTracker,
    pub unsafe_impls: LoCTracker,
    pub pub_fns: usize,
    // AuditFile metadata
    pub pub_fns_with_effects: usize,
    pub pub_total_effects: usize,
    pub audited_fns: usize,
    pub audited_loc: usize,
}

/// An empty tracker.
pub open spec fn empty_tracker(t: LoCTrackerView) -> bool {
    t == LoCTrackerView { instances: 0, lines: 0, zero_size_lines: 0 }
}

impl Default for CrateStats {
    fn default() -> (r: Self)
        ensures
            r.crate_path@.len() == 0,
            r.effects@.len() == 0,
            empty_tracker(r.total_loc@),
            empty_tracker(r.skipped_macros@),
            empty_tracker(r.skipped_conditional_code@),
            empty_tracker(r.skipped_fn_calls@),
            empty_tracker(r.skipped_fn_ptrs@),
            empty_tracker(r.skipped_other@),
            empty_tracker(r.unsafe_traits@),
            empty_tracker(r.unsafe_impls@),
            r.pub_fns == 0,
            r.pub_fns_with_effects == 0,
            r.pub_total_effects == 0,
            r.audited_fns == 0,
            r.audited_loc == 0,
    {
        CrateStats {
            crate_path: String::new(),
            effects: Vec::new(),
            total_loc: LoCTracker::new(),
            skipped_macros: LoCTracker::new(),
            skipped_conditional_code: LoCTracker::new(),
            skipped_fn_calls: LoCTracker::new(),
            skipped_fn_ptrs: LoCTracker::new(),
            skipped_other: LoCTracker::new(),
            unsafe_traits: LoCTracker::new(),
            unsafe_impls: LoCTracker::new(),
            pub_fns: 0,
            pub_fns_with_effects: 0,
            pub_total_effects: 0,
            audited_fns: 0,
            audited_loc: 0,
        }
    }
}

/// The trackers of the stats all count a number of lines that fits in `usize`.
pub open spec fn stats_loc_fit(s: CrateStats) -> bool {
    &&& tracker_loc(s.total_loc@) <= usize::MAX
    &&& tracker_loc(s.skipped_macros@) <= usize::MAX
    &&& tracker_loc(s.skipped_conditional_code@) <= usize::MAX
    &&& tracker_loc(s.skipped_fn_calls@) <= usize::MAX
    &&& tracker_loc(s.skipped_fn_ptrs@) <= usize::MAX
    &&& tracker_loc(s.skipped_other@) <= usize::MAX
    &&& tracker_loc(s.unsafe_traits@) <= usize::MAX
    &&& tracker_loc(s.unsafe_impls@) <= usize::MAX
}

/// The CSV row of the stats: its fields, in the order of the header's columns,
/// joined by `, `.
pub open spec fn stats_csv(s: CrateStats) -> Seq<char> {
    csv_join(stats_fields(s))
}

impl CrateStats {
    pub fn metadata_csv_header() -> (r: &'static str)
        ensures
            r@ == "effects, macros, macro LoC, conditional blocks, conditional LoC, skipped calls, skipped call LoC, skipped fn pointers, skipped pointers LoC, skipped other, skipped other LoC, unsafe traits, unsafe trait LoC, unsafe impls, unsafe impl LoC, public fns, public fns with effects, public total effects, audited fns, audited LoC, total LoC"@,
            r@ == csv_join(stats_csv_columns()),
    {
        proof {
            lemma_header_columns();
        }
        "effects, macros, macro LoC, conditional blocks, conditional LoC, skipped calls, skipped call LoC, skipped fn pointers, skipped pointers LoC, skipped other, skipped other LoC, unsafe traits, unsafe trait LoC, unsafe impls, unsafe impl LoC, public fns, public fns with effects, public total effects, audited fns, audited LoC, total LoC"
    }

    pub fn metadata_csv(&self) -> (r: String)
        requires
            stats_loc_fit(*self),
        ensures
            r@ == stats_csv(*self),
    {
        let nums: Vec<u64> = vec![
            self.effects.len() as u64,
            self.skipped_macros.get_instances() as u64,
            self.skipped_macros.get_loc() as u64,
            self.skipped_conditional_code.get_instances() as u64,
            self.skipped_conditional_code.get_loc() as u64,
            self.skipped_fn_calls.get_instances() as u64,
            self.skipped_fn_calls.get_loc() as u64,
            self.skipped_fn_ptrs.get_instances() as u64,
            self.skipped_fn_ptrs.get_loc() as u64,
            self.skipped_other.get_instances() as u64,
            self.skipped_other.get_loc() as u64,
            self.unsafe_traits.get_instances() as u64,
            self.unsafe_traits.get_loc() as u64,
            self.unsafe_impls.get_instances() as u64,
            self.unsafe_impls.get_loc() as u64,
            self.pub_fns as u64,
            self.pub_fns_with_effects as u64,
            self.pub_total_effects as u64,
            self.audited_fns as u64,
            self.audited_loc as u64,
            self.total_loc.get_loc() as u64,
        ];
        let ghost f = stats_fields(*self);
        assert forall|k: int| 0 <= k < 21 implies f[k] == decimal(nums@[k] as nat) by {
            assert(nums@.map_values(|n: u64| n as nat) =~= stats_numbers(*self));
            assert(nums@.map_values(|n: u64| n as nat)[k] == nums@[k] as nat);
        }
        let mut s = String::new();
        let mut k: usize = 0;
        while k < nums.len()
            invariant
                nums@.len() == 21,
                f == stats_fields(*self),
                f.len() == 21,
                forall|j: int| 0 <= j < 21 ==> f[j] == decimal(nums@[j] as nat),
                k <= 21,
                s@ == csv_join(f.take(k as int)),
            decreases nums.len() - k,
        {
            if k > 0 {
                push_csv_sep(&mut s);
                proof {
                    lemma_csv_join_step(f, k as int);
                }
            } else {
                assert(f.take(1) =~= seq![f[0]]);
                assert(s@ =~= Seq::<char>::empty());
            }
            push_decimal(&mut s, nums[k]);
            proof {
                if k == 0 {
                    assert(s@ =~= f[0]);
                } else {
                    assert(s@ =~= csv_join(f.take(k as int)) + csv_sep() + f[k as int]);
                }
            }
            k = k + 1;
        }
        assert(f.take(21) =~= f);
        s
    }
}

/// The callers at the nodes of a tree, root first, then each subtree in order.
pub open spec fn tree_callers_seq(t: EffectTree) -> Seq<Seq<char>>
    decreases t,
{
    match t {
        EffectTree::Leaf(info, _) => seq![info.caller_path@],
        EffectTree::Branch(info, ts) => seq![info.caller_path@] + forest_callers_seq(ts@),
    }
}

/// The callers at the nodes of a list of trees, tree by tree.
pub open spec fn forest_callers_seq(ts: Seq<EffectTree>) -> Seq<Seq<char>>
    decreases ts,
{
    if ts.len() == 0 {
        Seq::empty()
    } else {
        forest_callers_seq(ts.drop_last()) + tree_callers_seq(ts.last())
    }
}

/// The callers at the nodes of all trees of an audit, tree by tree.
pub open spec fn audit_callers_seq(t: Seq<(EffectInstance, EffectTree)>) -> Seq<Seq<char>>
    decreases t.len(),
{
    if t.len() == 0 {
        Seq::empty()
    } else {
        audit_callers_seq(t.drop_last()) + tree_callers_seq(t.last().1)
    }
}

/// `d` with `x` added at the end unless it already holds it.
pub open spec fn ins(d: Seq<Seq<char>>, x: Seq<char>) -> Seq<Seq<char>> {
    if d.contains(x) {
        d
    } else {
        d.push(x)
    }
}

/// `d` with each element of `s` added in turn unless already held: the distinct
/// elements of `d + s`, in order of first occurrence, when `d` is distinct.
pub open spec fn ins_all(d: Seq<Seq<char>>, s: Seq<Seq<char>>) -> Seq<Seq<char>>
    decreases s.len(),
{
    if s.len() == 0 {
        d
    } else {
        ins(ins_all(d, s.drop_last()), s.last())
    }
}

proof fn lemma_ins_all_contains(d: Seq<Seq<char>>, s: Seq<Seq<char>>)
    ensures
        forall|x: Seq<char>| #[trigger] ins_all(d, s).contains(x) <==> (d.contains(x) || s.contains(x)),
        d.no_duplicates() ==> ins_all(d, s).no_duplicates(),
    decreases s.len(),
{
    broadcast use vstd::seq_lib::group_seq_properties;
    if s.len() > 0 {
        lemma_ins_all_contains(d, s.drop_last());
        let prev = ins_all(d, s.drop_last());
        assert forall|x: Seq<char>| #[trigger] ins_all(d, s).contains(x) <==> (d.contains(x) || s.contains(x)) by {
            assert(s =~= s.drop_last().push(s.last()));
        }
        if d.no_duplicates() && !prev.contains(s.last()) {
            assert forall|a: int, b: int| 0 <= a < b < prev.push(s.last()).len() implies prev.push(s.last())[a] != prev.push(s.last())[b] by {
                if b == prev.len() {
                    assert(prev.contains(prev[a]));
                }
            }
        }
    }
}

proof fn lemma_ins_all_concat(d: Seq<Seq<char>>, a: Seq<Seq<char>>, b: Seq<Seq<char>>)
    ensures
        ins_all(d, a + b) == ins_all(ins_all(d, a), b),
    decreases b.len(),
{
    if b.len() == 0 {
        assert(a + b =~= a);
    } else {
        lemma_ins_all_concat(d, a, b.drop_last());
        assert((a + b).drop_last() =~= a + b.drop_last());
        assert((a + b).last() == b.last());
    }
}

proof fn lemma_ins_all_absorb(d: Seq<Seq<char>>, s: Seq<Seq<char>>)
    ensures
        ins_all(d, ins_all(Seq::empty(), s)) == ins_all(d, s),
    decreases s.len(),
{
    if s.len() > 0 {
        let s0 = s.drop_last();
        let x = s.last();
        let e = ins_all(Seq::<Seq<char>>::empty(), s0);
        lemma_ins_all_absorb(d, s0);
        lemma_ins_all_contains(Seq::<Seq<char>>::empty(), s0);
        lemma_ins_all_contains(d, s0);
        if e.contains(x) {
            assert(s0.contains(x));
            assert(ins_all(d, s0).contains(x));
        } else {
            assert(e.push(x).drop_last() =~= e);
        }
    }
}

/// The distinct callers at the nodes of a tree.
fn counter(tree: &EffectTree) -> (r: Vec<CanonicalPath>)
    ensures
        path_views(r@) == ins_all(Seq::empty(), tree_callers_seq(*tree)),
{
    let mut acc: Vec<CanonicalPath> = Vec::new();
    proof {
        assert(path_views(acc@) =~= Seq::<Seq<char>>::empty());
    }
    collect_callers(tree, &mut acc);
    acc
}

/// Adds to `acc` the callers at the nodes of a tree that it does not hold yet.
fn collect_callers(tree: &EffectTree, acc: &mut Vec<CanonicalPath>)
    ensures
        path_views(final(acc)@) == ins_all(path_views(old(acc)@), tree_callers_seq(*tree)),
    decreases tree,
{
    match tree {
        EffectTree::Leaf(info, _) => {
            let ghost before = path_views(acc@);
            insert_path_unchecked(acc, &info.caller_path);
            proof {
                reveal_with_fuel(ins_all, 2);
                assert(seq![info.caller_path@].drop_last() =~= Seq::<Seq<char>>::empty());
            }
        },
        EffectTree::Branch(info, ts) => {
            let ghost d0 = path_views(acc@);
            insert_path_unchecked(acc, &info.caller_path);
            proof {
                reveal_with_fuel(ins_all, 2);
                assert(seq![info.caller_path@].drop_last() =~= Seq::<Seq<char>>::empty());
                assert(ins_all(d0, seq![info.caller_path@]) == ins(d0, info.caller_path@));
                assert(forest_callers_seq(ts@.take(0)) =~= Seq::<Seq<char>>::empty());
                lemma_ins_all_concat(d0, seq![info.caller_path@], forest_callers_seq(ts@.take(0)));
                assert(seq![info.caller_path@] + forest_callers_seq(ts@.take(0)) =~= seq![info.caller_path@]);
            }
            let mut i: usize = 0;
            while i < ts.len()
                invariant
                    i <= ts.len(),
                    *tree == EffectTree::Branch(*info, *ts),
                    path_views(acc@) == ins_all(
                        d0,
                        seq![info.caller_path@] + forest_callers_seq(ts@.take(i as int)),
                    ),
                decreases ts.len() - i,
            {
                let ghost before = path_views(acc@);
                proof {
                    assert(decreases_to!(*tree => (*tree)->Branch_1));
                }
                collect_callers(&ts[i], acc);
                proof {
                    let a = seq![info.caller_path@] + forest_callers_seq(ts@.take(i as int));
                    assert(ts@.take(i + 1).drop_last() =~= ts@.take(i as int));
                    assert(ts@.take(i + 1).last() == ts@[i as int]);
                    lemma_ins_all_concat(d0, a, tree_callers_seq(ts@[i as int]));
                    assert(a + tree_callers_seq(ts@[i as int]) =~= seq![info.caller_path@]
                        + forest_callers_seq(ts@.take(i + 1)));
                }
                i = i + 1;
            }
            proof {
                assert(ts@.take(ts.len() as int) =~= ts@);
            }
        },
    }
}

/// Adds `p` to `acc` unless it holds it already.
fn insert_path_unchecked(acc: &mut Vec<CanonicalPath>, p: &CanonicalPath)
    ensures
        path_views(final(acc)@) == ins(path_views(old(acc)@), p@),
{
    if !crate::ident::contains_path(acc, p) {
        acc.push(p.clone());
        proof {
            assert(path_views(acc@) =~= path_views(old(acc)@).push(p@));
        }
    }
}

/// The tracker recorded for `p`: that of the first entry for `p`, if any.
pub open spec fn tracker_of(v: Seq<(CanonicalPath, LoCTracker)>, p: Seq<char>) -> Option<LoCTrackerView>
    decreases v.len(),
{
    if v.len() == 0 {
        None
    } else if v[0].0@ == p {
        Some(v[0].1@)
    } else {
        tracker_of(v.drop_first(), p)
    }
}

/// The lines of code recorded for the functions `ps` (none for a function
/// without a tracker).
pub open spec fn loc_sum(ps: Seq<Seq<char>>, v: Seq<(CanonicalPath, LoCTracker)>) -> nat
    decreases ps.len(),
{
    if ps.len() == 0 {
        0
    } else {
        loc_sum(ps.drop_last(), v) + match tracker_of(v, ps.last()) {
            Some(t) => tracker_loc(t),
            None => 0,
        }
    }
}

/// The distinct functions at the nodes of the trees of an audit.
pub open spec fn audited_fns_seq(t: Seq<(EffectInstance, EffectTree)>) -> Seq<Seq<char>> {
    ins_all(Seq::empty(), audit_callers_seq(t))
}

/// The tracker of `p` in a list of function trackers.
fn find_tracker<'a>(v: &'a Vec<(CanonicalPath, LoCTracker)>, p: &CanonicalPath) -> (r: Option<
    &'a LoCTracker,
>)
    ensures
        match tracker_of(v@, p@) {
            Some(t) => (r matches Some(x) && x@ == t),
            None => r is None,
        },
{
    let mut i: usize = 0;
    assert(v@.subrange(0, v@.len() as int) =~= v@);
    while i < v.len()
        invariant
            i <= v.len(),
            tracker_of(v@, p@) == tracker_of(v@.subrange(i as int, v@.len() as int), p@),
        decreases v.len() - i,
    {
        let ghost rest = v@.subrange(i as int, v@.len() as int);
        assert(rest[0] == v@[i as int]);
        assert(rest.drop_first() =~= v@.subrange(i + 1, v@.len() as int));
        if v[i].0.same_path(p) {
            return Some(&v[i].1);
        }
        i = i + 1;
    }
    None
}

proof fn lemma_loc_sum_prefix(ps: Seq<Seq<char>>, k: int, v: Seq<(CanonicalPath, LoCTracker)>)
    requires
        0 <= k <= ps.len(),
    ensures
        loc_sum(ps.take(k), v) <= loc_sum(ps, v),
    decreases ps.len(),
{
    if k < ps.len() {
        lemma_loc_sum_prefix(ps.drop_last(), k, v);
        assert(ps.drop_last().take(k) =~= ps.take(k));
    } else {
        assert(ps.take(k) =~= ps);
    }
}

// Calculates the total number of functions and the total lines of code that will be audited.
fn get_auditing_metrics(audit: &AuditFile, results: &ScanResults) -> (r: (usize, usize))
    requires
        loc_sum(audited_fns_seq(audit.audit_trees@), results.fn_loc_tracker@) <= usize::MAX,
    ensures
        r.0 == audited_fns_seq(audit.audit_trees@).len(),
        r.1 == loc_sum(audited_fns_seq(audit.audit_trees@), results.fn_loc_tracker@),
{
    let ghost t = audit.audit_trees@;
    let mut total_fns: Vec<CanonicalPath> = Vec::new();
    let mut i: usize = 0;
    proof {
        assert(path_views(total_fns@) =~= Seq::<Seq<char>>::empty());
        assert(t.take(0) =~= Seq::<(EffectInstance, EffectTree)>::empty());
    }
    while i < audit.audit_trees.len()
        invariant
            i <= audit.audit_trees.len(),
            t == audit.audit_trees@,
            path_views(total_fns@) == ins_all(Seq::empty(), audit_callers_seq(t.take(i as int))),
        decreases audit.audit_trees.len() - i,
    {
        let c = counter(&audit.audit_trees[i].1);
        let ghost d0 = path_views(total_fns@);
        let ghost cs = tree_callers_seq(t[i as int].1);
        let mut j: usize = 0;
        proof {
            assert(path_views(c@).take(0) =~= Seq::<Seq<char>>::empty());
        }
        while j < c.len()
            invariant
                j <= c.len(),
                path_views(total_fns@) == ins_all(d0, path_views(c@).take(j as int)),
            decreases c.len() - j,
        {
            insert_path_unchecked(&mut total_fns, &c[j]);
            proof {
                assert(path_views(c@).take(j + 1).drop_last() =~= path_views(c@).take(j as int));
                assert(path_views(c@).take(j + 1).last() == c@[j as int]@);
            }
            j = j + 1;
        }
        proof {
            assert(path_views(c@).take(c.len() as int) =~= path_views(c@));
            lemma_ins_all_absorb(d0, cs);
            lemma_ins_all_concat(Seq::empty(), audit_callers_seq(t.take(i as int)), cs);
            assert(t.take(i + 1).drop_last() =~= t.take(i as int));
            assert(t.take(i + 1).last() == t[i as int]);
        }
        i = i + 1;
    }
    proof {
        assert(t.take(t.len() as int) =~= t);
    }
    let ghost fns = path_views(total_fns@);
    let ghost trackers = results.fn_loc_tracker@;
    let mut total_loc: usize = 0;
    let mut k: usize = 0;
    proof {
        assert(fns.take(0) =~= Seq::<Seq<char>>::empty());
    }
    while k < total_fns.len()
        invariant
            k <= total_fns.len(),
            fns == path_views(total_fns@),
            trackers == results.fn_loc_tracker@,
            loc_sum(fns, trackers) <= usize::MAX,
            total_loc == loc_sum(fns.take(k as int), trackers),
        decreases total_fns.len() - k,
    {
        proof {
            assert(fns.take(k + 1).drop_last() =~= fns.take(k as int));
            assert(fns.take(k + 1).last() == total_fns@[k as int]@);
            lemma_loc_sum_prefix(fns, k + 1, trackers);
        }
        match find_tracker(&results.fn_loc_tracker, &total_fns[k]) {
            Some(tracker) => {
                total_loc = total_loc + tracker.get_loc();
            },
            None => {
                // This case happens in the case of abstract trait method nodes
            },
        }
        k = k + 1;
    }
    proof {
        assert(fns.take(fns.len() as int) =~= fns);
    }
    (total_fns.len(), total_loc)
}


/// The number of public functions of a caller-checked map with a base effect.
pub open spec fn cc_nonempty(m: Seq<(CanonicalPath, Vec<EffectInstance>)>) -> nat
    decreases m.len(),
{
    if m.len() == 0 {
        0
    } else {
        cc_nonempty(m.drop_last()) + if m.last().1@.len() > 0 {
            1nat
        } else {
            0nat
        }
    }
}

/// The number of base effects over all public functions of a caller-checked map.
pub open spec fn cc_total(m: Seq<(CanonicalPath, Vec<EffectInstance>)>) -> nat
    decreases m.len(),
{
    if m.len() == 0 {
        0
    } else {
        cc_total(m.drop_last()) + m.last().1@.len()
    }
}

proof fn lemma_cc_counts_prefix(m: Seq<(CanonicalPath, Vec<EffectInstance>)>, k: int)
    requires
        0 <= k <= m.len(),
    ensures
        cc_total(m.take(k)) <= cc_total(m),
        cc_nonempty(m.take(k)) <= k,
    decreases m.len(),
{
    if k < m.len() {
        lemma_cc_counts_prefix(m.drop_last(), k);
        assert(m.drop_last().take(k) =~= m.take(k));
    } else {
        assert(m.take(k) =~= m);
        if k > 0 {
            lemma_cc_counts_prefix(m.drop_last(), k - 1);
            assert(m.drop_last().take(k - 1) =~= m.drop_last());
        }
    }
}


/// The statistics of the crate at `crate_path` given its audit and scan: the
/// scan's effects and line trackers, the number of its public functions, of
/// public caller-checked functions with effects and their effects, and of the
/// audited functions and their lines.
pub open spec fn crate_stats_of(r: CrateStats, crate_path: Seq<char>, audit: AuditFile, results: ScanResults) -> bool {
    &&& r.crate_path@ == crate_path
    &&& r.effects@ == results.effects@
    &&& r.total_loc@ == results.total_loc@
    &&& r.skipped_macros@ == results.skipped_macros@
    &&& r.skipped_conditional_code@ == results.skipped_conditional_code@
    &&& r.skipped_fn_calls@ == results.skipped_fn_calls@
    &&& r.skipped_fn_ptrs@ == results.skipped_fn_ptrs@
    &&& r.skipped_other@ == results.skipped_other@
    &&& r.unsafe_traits@ == results.unsafe_traits@
    &&& r.unsafe_impls@ == results.unsafe_impls@
    &&& r.pub_fns == results.pub_fns@.len()
    &&& r.pub_fns_with_effects == cc_nonempty(audit.pub_caller_checked@)
    &&& r.pub_total_effects == cc_total(audit.pub_caller_checked@)
    &&& r.audited_fns == audited_fns_seq(audit.audit_trees@).len()
    &&& r.audited_loc == loc_sum(audited_fns_seq(audit.audit_trees@), results.fn_loc_tracker@)
}

/// The statistics of a crate from its scan and its default caller-checked audit.
pub fn get_crate_stats(crate_path: String, audit: &AuditFile, results: ScanResults) -> (r: CrateStats)
    requires
        cc_total(audit.pub_caller_checked@) <= usize::MAX,
        loc_sum(audited_fns_seq(audit.audit_trees@), results.fn_loc_tracker@) <= usize::MAX,
    ensures
        crate_stats_of(r, crate_path@, *audit, results),
{
    let pub_fns = results.pub_fns.len();
    let ghost m = audit.pub_caller_checked@;
    let mut pub_fns_with_effects: usize = 0;
    let mut pub_total_effects: usize = 0;
    let mut i: usize = 0;
    proof {
        assert(m.take(0) =~= Seq::<(CanonicalPath, Vec<EffectInstance>)>::empty());
    }
    while i < audit.pub_caller_checked.len()
        invariant
            i <= audit.pub_caller_checked.len(),
            m == audit.pub_caller_checked@,
            cc_total(m) <= usize::MAX,
            pub_fns_with_effects == cc_nonempty(m.take(i as int)),
            pub_total_effects == cc_total(m.take(i as int)),
        decreases audit.pub_caller_checked.len() - i,
    {
        proof {
            assert(m.take(i + 1).drop_last() =~= m.take(i as int));
            assert(m.take(i + 1).last() == m[i as int]);
            lemma_cc_counts_prefix(m, i + 1);
        }
        let v = &audit.pub_caller_checked[i].1;
        if v.len() > 0 {
            pub_fns_with_effects = pub_fns_with_effects + 1;
            pub_total_effects = pub_total_effects + v.len();
        }
        i = i + 1;
    }
    proof {
        assert(m.take(m.len() as int) =~= m);
    }
    let (audited_fns, audited_loc) = get_auditing_metrics(audit, &results);
    CrateStats {
        crate_path,
        effects: results.effects,
        total_loc: results.total_loc,
        skipped_macros: results.skipped_macros,
        skipped_conditional_code: results.skipped_conditional_code,
        skipped_fn_calls: results.skipped_fn_calls,
        skipped_fn_ptrs: results.skipped_fn_ptrs,
        skipped_other: results.skipped_other,
        unsafe_traits: results.unsafe_traits,
        unsafe_impls: results.unsafe_impls,
        pub_fns,
        pub_fns_with_effects,
        pub_total_effects,
        audited_fns,
        audited_loc,
    }
}

/// The statistics of a crate, or, when its scan failed (`None`), empty
/// statistics that only name the crate.
pub fn get_crate_stats_default(crate_path: String, scanned: Option<(AuditFile, ScanResults)>) -> (r:
    CrateStats)
    requires
        scanned matches Some((a, s)) ==> cc_total(a.pub_caller_checked@) <= usize::MAX && loc_sum(
            audited_fns_seq(a.audit_trees@),
            s.fn_loc_tracker@,
        ) <= usize::MAX,
    ensures
        r.crate_path@ == crate_path@,
        scanned is None ==> r.effects@.len() == 0 && r.pub_fns == 0 && r.pub_fns_with_effects == 0
            && r.pub_total_effects == 0 && r.audited_fns == 0 && r.audited_loc == 0 && empty_tracker(
            r.total_loc@,
        ) && empty_tracker(r.skipped_macros@) && empty_tracker(r.skipped_conditional_code@)
            && empty_tracker(r.skipped_fn_calls@) && empty_tracker(r.skipped_fn_ptrs@)
            && empty_tracker(r.skipped_other@) && empty_tracker(r.unsafe_traits@) && empty_tracker(
            r.unsafe_impls@,
        ),
        scanned matches Some((a, s)) ==> crate_stats_of(r, crate_path@, a, s),
{
    match scanned {
        Some((audit, results)) => get_crate_stats(crate_path, &audit, results),
        None => {
            let mut stats = CrateStats::default();
            stats.crate_path = crate_path;
            stats
        },
    }
}


/// The names of the statistics' CSV columns, in order.
pub open spec fn stats_csv_columns() -> Seq<Seq<char>> {
    seq![
        "effects"@, "macros"@, "macro LoC"@, "conditional blocks"@, "conditional LoC"@,
        "skipped calls"@, "skipped call LoC"@, "skipped fn pointers"@, "skipped pointers LoC"@,
        "skipped other"@, "skipped other LoC"@, "unsafe traits"@, "unsafe trait LoC"@,
        "unsafe impls"@, "unsafe impl LoC"@, "public fns"@, "public fns with effects"@,
        "public total effects"@, "audited fns"@, "audited LoC"@, "total LoC"@,
    ]
}

/// Fields joined by `, `.
pub open spec fn csv_join(fields: Seq<Seq<char>>) -> Seq<char>
    decreases fields.len(),
{
    if fields.len() == 0 {
        Seq::empty()
    } else if fields.len() == 1 {
        fields[0]
    } else {
        csv_join(fields.drop_last()) + csv_sep() + fields.last()
    }
}

/// The number of commas in a text.
pub open spec fn comma_count(s: Seq<char>) -> nat
    decreases s.len(),
{
    if s.len() == 0 {
        0
    } else {
        comma_count(s.drop_last()) + if s.last() == ',' { 1nat } else { 0nat }
    }
}

proof fn lemma_comma_count_add(a: Seq<char>, b: Seq<char>)
    ensures
        comma_count(a + b) == comma_count(a) + comma_count(b),
    decreases b.len(),
{
    if b.len() == 0 {
        assert(a + b =~= a);
    } else {
        lemma_comma_count_add(a, b.drop_last());
        assert((a + b).drop_last() =~= a + b.drop_last());
    }
}

proof fn lemma_comma_free(s: Seq<char>)
    requires
        forall|i: int| 0 <= i < s.len() ==> s[i] != ',',
    ensures
        comma_count(s) == 0,
    decreases s.len(),
{
    if s.len() > 0 {
        lemma_comma_free(s.drop_last());
    }
}

proof fn lemma_decimal_comma_free(n: nat)
    ensures
        forall|i: int| 0 <= i < decimal(n).len() ==> decimal(n)[i] != ',',
    decreases n,
{
    assert forall|d: nat| d < 10 implies digit_char(d) != ',' by {
    }
    if n >= 10 {
        lemma_decimal_comma_free(n / 10);
        let s = decimal(n);
        let t = decimal(n / 10);
        assert(s == t.push(digit_char(n % 10)));
        assert forall|i: int| 0 <= i < s.len() implies s[i] != ',' by {
            if i < t.len() {
                assert(s[i] == t[i]);
            }
        }
    } else {
        assert(decimal(n) == seq![digit_char(n)]);
    }
}

/// Comma-free fields joined by `, ` hold one comma fewer than there are fields.
proof fn lemma_csv_join_commas(fields: Seq<Seq<char>>)
    requires
        fields.len() >= 1,
        forall|k: int, i: int| 0 <= k < fields.len() && 0 <= i < fields[k].len() ==> fields[k][i] != ',',
    ensures
        comma_count(csv_join(fields)) + 1 == fields.len(),
    decreases fields.len(),
{
    if fields.len() == 1 {
        lemma_comma_free(fields[0]);
    } else {
        let d = fields.drop_last();
        assert forall|k: int, i: int| 0 <= k < d.len() && 0 <= i < d[k].len() implies d[k][i] != ',' by {
            assert(d[k] == fields[k]);
        }
        lemma_csv_join_commas(d);
        lemma_comma_count_add(csv_join(d), csv_sep());
        lemma_comma_count_add(csv_join(d) + csv_sep(), fields.last());
        let l = fields.last();
        assert forall|i: int| 0 <= i < l.len() implies l[i] != ',' by {
            assert(l == fields[fields.len() - 1]);
        }
        lemma_comma_free(l);
        reveal_with_fuel(comma_count, 3);
    }
}

/// The numbers of a statistics row, in column order.
pub open spec fn stats_numbers(s: CrateStats) -> Seq<nat> {
    seq![
        s.effects@.len(),
        s.skipped_macros@.instances, tracker_loc(s.skipped_macros@),
        s.skipped_conditional_code@.instances, tracker_loc(s.skipped_conditional_code@),
        s.skipped_fn_calls@.instances, tracker_loc(s.skipped_fn_calls@),
        s.skipped_fn_ptrs@.instances, tracker_loc(s.skipped_fn_ptrs@),
        s.skipped_other@.instances, tracker_loc(s.skipped_other@),
        s.unsafe_traits@.instances, tracker_loc(s.unsafe_traits@),
        s.unsafe_impls@.instances, tracker_loc(s.unsafe_impls@),
        s.pub_fns as nat, s.pub_fns_with_effects as nat,
        s.pub_total_effects as nat, s.audited_fns as nat,
        s.audited_loc as nat, tracker_loc(s.total_loc@),
    ]
}

/// The fields of a statistics row, in column order: its numbers in decimal.
pub open spec fn stats_fields(s: CrateStats) -> Seq<Seq<char>> {
    stats_numbers(s).map_values(|n: nat| decimal(n))
}

/// Joining one more field adds a separator and the field.
proof fn lemma_csv_join_step(f: Seq<Seq<char>>, k: int)
    requires
        1 <= k < f.len(),
    ensures
        csv_join(f.take(k + 1)) == csv_join(f.take(k)) + csv_sep() + f[k],
{
    assert(f.take(k + 1).drop_last() =~= f.take(k));
}

/// The header holds the column names, comma-free, joined by `, `.
proof fn lemma_header_columns()
    ensures
        "effects, macros, macro LoC, conditional blocks, conditional LoC, skipped calls, skipped call LoC, skipped fn pointers, skipped pointers LoC, skipped other, skipped other LoC, unsafe traits, unsafe trait LoC, unsafe impls, unsafe impl LoC, public fns, public fns with effects, public total effects, audited fns, audited LoC, total LoC"@ == csv_join(stats_csv_columns()),
        forall|k: int, i: int| 0 <= k < stats_csv_columns().len() && 0 <= i < stats_csv_columns()[k].len()
            ==> stats_csv_columns()[k][i] != ',',
{
    reveal_strlit("effects, macros, macro LoC, conditional blocks, conditional LoC, skipped calls, skipped call LoC, skipped fn pointers, skipped pointers LoC, skipped other, skipped other LoC, unsafe traits, unsafe trait LoC, unsafe impls, unsafe impl LoC, public fns, public fns with effects, public total effects, audited fns, audited LoC, total LoC");
    reveal_strlit("effects");
    reveal_strlit("macros");
    reveal_strlit("macro LoC");
    reveal_strlit("conditional blocks");
    reveal_strlit("conditional LoC");
    reveal_strlit("skipped calls");
    reveal_strlit("skipped call LoC");
    reveal_strlit("skipped fn pointers");
    reveal_strlit("skipped pointers LoC");
    reveal_strlit("skipped other");
    reveal_strlit("skipped other LoC");
    reveal_strlit("unsafe traits");
    reveal_strlit("unsafe trait LoC");
    reveal_strlit("unsafe impls");
    reveal_strlit("unsafe impl LoC");
    reveal_strlit("public fns");
    reveal_strlit("public fns with effects");
    reveal_strlit("public total effects");
    reveal_strlit("audited fns");
    reveal_strlit("audited LoC");
    reveal_strlit("total LoC");
    reveal_with_fuel(csv_join, 22);
    assert("effects, macros, macro LoC, conditional blocks, conditional LoC, skipped calls, skipped call LoC, skipped fn pointers, skipped pointers LoC, skipped other, skipped other LoC, unsafe traits, unsafe trait LoC, unsafe impls, unsafe impl LoC, public fns, public fns with effects, public total effects, audited fns, audited LoC, total LoC"@ =~= csv_join(stats_csv_columns()));
}

/// Every statistics row has one field per header column: the header and each
/// row are comma-free fields joined by `, `, as many fields as columns.
pub proof fn law_stats_row_matches_header(s: CrateStats)
    ensures
        stats_fields(s).len() == stats_csv_columns().len(),
        comma_count(stats_csv(s)) == comma_count(csv_join(stats_csv_columns())),
        comma_count(csv_join(stats_csv_columns())) + 1 == stats_csv_columns().len(),
{
    let f = stats_fields(s);
    assert forall|k: int, i: int| 0 <= k < f.len() && 0 <= i < f[k].len() implies f[k][i] != ',' by {
        lemma_decimal_comma_free(stats_numbers(s)[k]);
    }
    lemma_csv_join_commas(f);
    lemma_header_columns();
    lemma_csv_join_commas(stats_csv_columns());
}

} // verus!
