//! Scanning the items of a file: function declarations, inline modules and
//! impl blocks, each function's body scanned for effects in that function.
use vstd::prelude::*;

use crate::effect::{instance_views, FnDec, SrcLoc, Visibility};
use crate::expr_scan::{
    add_spans, call_triples, delta_cat, empty_delta, lemma_add_spans_cat, lemma_after_refl,
    lemma_tracker_fits_cat, results_after, results_fit, scan_seq_spec, skip_block, span_of, tracker_fits, ScanExpr,
    ScanCtx, ScanDelta, Scanner,
};
use crate::ident::{insert_path, is_main_spec, path_views, CanonicalPath};
use crate::loc_tracker::{add_span, LoCTracker, LoCTrackerView};
use crate::scan_stats::tracker_of;
use crate::scanner::{graph_edges, graph_nodes, loc_map, ScanResults};
use vstd::map::*;

verus! {

/// A function or method declaration with its body.
pub struct FnItem {
    /// The function's canonical path.
    pub name: CanonicalPath,
    pub vis: Visibility,
    /// Where the function is declared.
    pub sig_loc: SrcLoc,
    /// Where its body stands, for its lines of code.
    pub body_loc: SrcLoc,
    /// Whether it is an `unsafe fn`.
    pub unsafe_fn: bool,
    /// Whether it declares an ABI (`extern "C" fn`).
    pub extern_abi: bool,
    /// Its statements.
    pub body: Vec<ScanExpr>,
}

/// A method declared in a trait.
pub struct TraitMethod {
    /// The method's canonical path.
    pub name: CanonicalPath,
    /// Where it is declared.
    pub loc: SrcLoc,
    /// Its default implementation, scanned as a function, if it has one.
    pub default: Option<FnItem>,
    /// The methods that implement it.
    pub impls: Vec<CanonicalPath>,
}

/// An item of a trait.
pub enum ScanTraitItem {
    /// An item whose `cfg` attributes switch it off.
    CfgSkipped(SrcLoc),
    /// A method.
    Method(TraitMethod),
    /// A macro invocation.
    Macro(SrcLoc),
    /// Verbatim tokens, which are not scanned.
    Verbatim,
    /// Another item (a constant, a type), not scanned.
    Unsupported(SrcLoc),
}

/// An item of a file, of an inline module or of an impl block.
pub enum ScanItem {
    /// An item whose `cfg` attributes switch it off.
    CfgSkipped(SrcLoc),
    /// A macro invocation.
    Macro(SrcLoc),
    /// A function or method.
    Fn(FnItem),
    /// An inline module and its items.
    Mod(Vec<ScanItem>),
    /// An impl block: where it is an `unsafe impl` of a trait, the trait's
    /// location; and its items.
    Impl(Option<SrcLoc>, Vec<ScanItem>),
    /// A trait: where it is an `unsafe trait`, the location of its name; and
    /// its items.
    Trait(Option<SrcLoc>, Vec<ScanTraitItem>),
    /// An item of an impl block that is not scanned (a constant, a type).
    Unsupported(SrcLoc),
    /// Any other item, which holds nothing to scan.
    Other,
}

/// What scanning items adds to the results.
#[verifier::ext_equal]
pub struct ItemDelta {
    /// What the function bodies add.
    pub body: ScanDelta,
    /// Declarations: name, location, and whether public or the crate's `main`.
    pub decls: Seq<(Seq<char>, crate::effect::SrcLocView, bool)>,
    /// The line span of each function body, by name.
    pub fn_trackers: Seq<(Seq<char>, (nat, nat))>,
    /// Functions that count as having effects.
    pub fwe_names: Seq<Seq<char>>,
    /// Line spans of `unsafe impl` blocks.
    pub unsafe_impls: Seq<(nat, nat)>,
    /// Line spans of items not scanned.
    pub other_skips: Seq<(nat, nat)>,
    /// Trait methods without a default implementation.
    pub trait_meths: Seq<Seq<char>>,
    /// Line spans of `unsafe trait` names.
    pub unsafe_traits: Seq<(nat, nat)>,
}

pub open spec fn empty_items() -> ItemDelta {
    ItemDelta {
        body: empty_delta(),
        decls: Seq::empty(),
        fn_trackers: Seq::empty(),
        fwe_names: Seq::empty(),
        unsafe_impls: Seq::empty(),
        other_skips: Seq::empty(),
        trait_meths: Seq::empty(),
        unsafe_traits: Seq::empty(),
    }
}

pub open spec fn items_cat(a: ItemDelta, b: ItemDelta) -> ItemDelta {
    ItemDelta {
        body: delta_cat(a.body, b.body),
        decls: a.decls + b.decls,
        fn_trackers: a.fn_trackers + b.fn_trackers,
        fwe_names: a.fwe_names + b.fwe_names,
        unsafe_impls: a.unsafe_impls + b.unsafe_impls,
        other_skips: a.other_skips + b.other_skips,
        trait_meths: a.trait_meths + b.trait_meths,
        unsafe_traits: a.unsafe_traits + b.unsafe_traits,
    }
}

/// The tracker of a single block.
pub open spec fn one_block(s: (nat, nat)) -> LoCTrackerView {
    add_span(LoCTrackerView { instances: 0, lines: 0, zero_size_lines: 0 }, s.0, s.1)
}

/// The context in which the body of `f` is scanned.
pub open spec fn fn_ctx(ctx: ScanCtx, f: FnItem) -> ScanCtx {
    ScanCtx { caller: f.name@, in_unsafe: ctx.in_unsafe || f.unsafe_fn, sinks: ctx.sinks }
}

/// A function: its lines of code are recorded, it is declared, it counts as
/// having effects if it is unsafe or declares an ABI, and its body is scanned
/// inside it.
pub open spec fn fn_spec(ctx: ScanCtx, lhs: bool, f: FnItem) -> (ItemDelta, bool) {
    let r = scan_seq_spec(fn_ctx(ctx, f), lhs, f.body@);
    let marked = if f.unsafe_fn || f.extern_abi {
        seq![f.name@]
    } else {
        Seq::empty()
    };
    let used = if r.0.effects.len() > 0 {
        seq![f.name@]
    } else {
        Seq::empty()
    };
    (
        ItemDelta {
            body: r.0,
            decls: seq![(f.name@, f.sig_loc@, f.vis == Visibility::Public || is_main_spec(f.name@))],
            fn_trackers: seq![(f.name@, span_of(f.body_loc@))],
            fwe_names: marked + used,
            ..empty_items()
        },
        r.1,
    )
}

/// The call graph edges from a trait method to its implementations.
pub open spec fn impl_edges(m: TraitMethod) -> Seq<(Seq<char>, Seq<char>, crate::effect::SrcLocView)> {
    m.impls@.map_values(|i: CanonicalPath| (m.name@, i@, m.loc@))
}

/// A trait method's default implementation, or the method itself without one.
pub open spec fn trait_method_first(ctx: ScanCtx, lhs: bool, m: TraitMethod) -> (ItemDelta, bool) {
    match m.default {
        Some(f) => fn_spec(ctx, lhs, f),
        None => (ItemDelta { trait_meths: seq![m.name@], ..empty_items() }, lhs),
    }
}

/// A trait method: its default implementation is scanned as a function, or,
/// without one, it is a node of the call graph and a trait method; then an edge
/// leads from it to each of its implementations.
pub open spec fn trait_method_spec(ctx: ScanCtx, lhs: bool, m: TraitMethod) -> (ItemDelta, bool) {
    let first = trait_method_first(ctx, lhs, m);
    (items_cat(first.0, ItemDelta { body: ScanDelta { calls: impl_edges(m), ..empty_delta() }, ..empty_items() }), first.1)
}

pub open spec fn trait_item_spec(ctx: ScanCtx, lhs: bool, t: ScanTraitItem) -> (ItemDelta, bool) {
    match t {
        ScanTraitItem::CfgSkipped(l) => (
            ItemDelta { body: ScanDelta { cfg_skips: seq![span_of(l@)], ..empty_delta() }, ..empty_items() },
            lhs,
        ),
        ScanTraitItem::Method(m) => trait_method_spec(ctx, lhs, m),
        ScanTraitItem::Macro(l) => (
            ItemDelta { body: ScanDelta { macros: seq![span_of(l@)], ..empty_delta() }, ..empty_items() },
            lhs,
        ),
        ScanTraitItem::Verbatim => (empty_items(), lhs),
        ScanTraitItem::Unsupported(l) => (ItemDelta { other_skips: seq![span_of(l@)], ..empty_items() }, lhs),
    }
}

/// Scanning the items of a trait in order.
pub open spec fn trait_items_spec(ctx: ScanCtx, lhs: bool, ts: Seq<ScanTraitItem>) -> (ItemDelta, bool)
    decreases ts.len(),
{
    if ts.len() == 0 {
        (empty_items(), lhs)
    } else {
        let r1 = trait_items_spec(ctx, lhs, ts.drop_last());
        let r2 = trait_item_spec(ctx, r1.1, ts.last());
        (items_cat(r1.0, r2.0), r2.1)
    }
}

/// What scanning an item adds.
pub open spec fn item_spec(ctx: ScanCtx, lhs: bool, it: ScanItem) -> (ItemDelta, bool)
    decreases it,
{
    match it {
        ScanItem::CfgSkipped(l) => (
            ItemDelta { body: ScanDelta { cfg_skips: seq![span_of(l@)], ..empty_delta() }, ..empty_items() },
            lhs,
        ),
        ScanItem::Macro(l) => (
            ItemDelta { body: ScanDelta { macros: seq![span_of(l@)], ..empty_delta() }, ..empty_items() },
            lhs,
        ),
        ScanItem::Fn(f) => fn_spec(ctx, lhs, f),
        ScanItem::Mod(items) => items_spec(ctx, lhs, items@),
        ScanItem::Impl(u, items) => {
            let r = items_spec(ctx, lhs, items@);
            match u {
                Some(l) => (items_cat(ItemDelta { unsafe_impls: seq![span_of(l@)], ..empty_items() }, r.0), r.1),
                None => r,
            }
        },
        ScanItem::Trait(u, ts) => {
            let r = trait_items_spec(ctx, lhs, ts@);
            match u {
                Some(l) => (items_cat(ItemDelta { unsafe_traits: seq![span_of(l@)], ..empty_items() }, r.0), r.1),
                None => r,
            }
        },
        ScanItem::Unsupported(l) => (ItemDelta { other_skips: seq![span_of(l@)], ..empty_items() }, lhs),
        ScanItem::Other => (empty_items(), lhs),
    }
}

/// Scanning `items` in order.
pub open spec fn items_spec(ctx: ScanCtx, lhs: bool, items: Seq<ScanItem>) -> (ItemDelta, bool)
    decreases items,
{
    if items.len() == 0 {
        (empty_items(), lhs)
    } else {
        let r1 = items_spec(ctx, lhs, items.subrange(0, items.len() - 1));
        let r2 = item_spec(ctx, r1.1, items[items.len() - 1]);
        (items_cat(r1.0, r2.0), r2.1)
    }
}

/// The public functions among declarations.
pub open spec fn pub_names(decls: Seq<(Seq<char>, crate::effect::SrcLocView, bool)>) -> Set<Seq<char>>
    decreases decls.len(),
{
    if decls.len() == 0 {
        Set::empty()
    } else if decls.last().2 {
        pub_names(decls.drop_last()).insert(decls.last().0)
    } else {
        pub_names(decls.drop_last())
    }
}

/// The function locations after the declarations.
pub open spec fn locs_after(
    m: Map<Seq<char>, crate::effect::SrcLocView>,
    decls: Seq<(Seq<char>, crate::effect::SrcLocView, bool)>,
) -> Map<Seq<char>, crate::effect::SrcLocView>
    decreases decls.len(),
{
    if decls.len() == 0 {
        m
    } else {
        locs_after(m, decls.drop_last()).insert(decls.last().0, decls.last().1)
    }
}

/// The tracker of `p` after the function trackers `fts` were recorded over `base`.
pub open spec fn tracker_after(base: Option<LoCTrackerView>, fts: Seq<(Seq<char>, (nat, nat))>, p: Seq<char>) -> Option<
    LoCTrackerView,
>
    decreases fts.len(),
{
    if fts.len() == 0 {
        base
    } else if fts.last().0 == p {
        Some(one_block(fts.last().1))
    } else {
        tracker_after(base, fts.drop_last(), p)
    }
}

/// `new` is `old` with what scanning items added.
pub open spec fn items_after(old: ScanResults, new: ScanResults, d: ItemDelta) -> bool {
    &&& new.wf()
    &&& instance_views(new.effects@) == instance_views(old.effects@) + d.body.effects
    &&& instance_views(new.fn_ptr_effects@) == instance_views(old.fn_ptr_effects@) + d.body.fn_ptrs
    &&& call_triples(new.call_graph) == call_triples(old.call_graph) + d.body.calls
    &&& graph_nodes(old.call_graph).is_prefix_of(graph_nodes(new.call_graph))
    &&& graph_nodes(new.call_graph).len() <= graph_nodes(old.call_graph).len() + 2 * d.body.calls.len() + d.decls.len()
        + d.trait_meths.len()
    &&& path_views(new.trait_meths@).no_duplicates()
    &&& path_views(new.trait_meths@).to_set() == path_views(old.trait_meths@).to_set().union(d.trait_meths.to_set())
    &&& new.unsafe_traits@ == add_spans(old.unsafe_traits@, d.unsafe_traits)
    &&& path_views(new.fns_with_effects@).no_duplicates()
    &&& path_views(new.fns_with_effects@).to_set() == path_views(old.fns_with_effects@).to_set().union(d.fwe_names.to_set())
    &&& new.skipped_macros@ == add_spans(old.skipped_macros@, d.body.macros)
    &&& new.skipped_conditional_code@ == add_spans(old.skipped_conditional_code@, d.body.cfg_skips)
    &&& new.skipped_fn_calls@ == add_spans(old.skipped_fn_calls@, d.body.call_skips)
    &&& new.skipped_fn_ptrs@ == add_spans(old.skipped_fn_ptrs@, d.body.fn_ptr_skips)
    &&& new.unsafe_impls@ == add_spans(old.unsafe_impls@, d.unsafe_impls)
    &&& new.skipped_other@ == add_spans(old.skipped_other@, d.other_skips)
    &&& path_views(new.pub_fns@).to_set() == path_views(old.pub_fns@).to_set().union(pub_names(d.decls))
    &&& loc_map(new.fn_locs@) == locs_after(loc_map(old.fn_locs@), d.decls)
    &&& forall|p: Seq<char>| #[trigger] tracker_of(new.fn_loc_tracker@, p) == tracker_after(tracker_of(old.fn_loc_tracker@, p), d.fn_trackers, p)
}

/// Room in the results for what scanning items adds.
pub open spec fn items_fit(r: ScanResults, d: ItemDelta) -> bool {
    &&& graph_nodes(r.call_graph).len() + 2 * d.body.calls.len() + d.decls.len() + d.trait_meths.len() < u32::MAX
    &&& tracker_fits(r.unsafe_traits@, d.unsafe_traits)
    &&& graph_edges(r.call_graph).len() + d.body.calls.len() < u32::MAX
    &&& tracker_fits(r.skipped_macros@, d.body.macros)
    &&& tracker_fits(r.skipped_conditional_code@, d.body.cfg_skips)
    &&& tracker_fits(r.skipped_fn_calls@, d.body.call_skips)
    &&& tracker_fits(r.skipped_fn_ptrs@, d.body.fn_ptr_skips)
    &&& tracker_fits(r.unsafe_impls@, d.unsafe_impls)
    &&& tracker_fits(r.skipped_other@, d.other_skips)
    &&& forall|i: int| 0 <= i < d.fn_trackers.len() ==> (#[trigger] d.fn_trackers[i]).1.0 <= d.fn_trackers[i].1.1
}

proof fn lemma_to_set_cat(a: Seq<Seq<char>>, b: Seq<Seq<char>>)
    ensures
        (a + b).to_set() == a.to_set().union(b.to_set()),
{
    assert forall|x: Seq<char>| (a + b).to_set().contains(x) == a.to_set().union(b.to_set()).contains(x) by {
        if (a + b).to_set().contains(x) {
            let i = choose|i: int| 0 <= i < (a + b).len() && (a + b)[i] == x;
            if i < a.len() {
                assert(a[i] == x);
            } else {
                assert(b[i - a.len()] == x);
            }
        }
        if a.to_set().contains(x) {
            let i = choose|i: int| 0 <= i < a.len() && a[i] == x;
            assert((a + b)[i] == x);
        }
        if b.to_set().contains(x) {
            let i = choose|i: int| 0 <= i < b.len() && b[i] == x;
            assert((a + b)[a.len() + i] == x);
        }
    }
    assert((a + b).to_set() =~= a.to_set().union(b.to_set()));
}

proof fn lemma_pub_names_cat(
    a: Seq<(Seq<char>, crate::effect::SrcLocView, bool)>,
    b: Seq<(Seq<char>, crate::effect::SrcLocView, bool)>,
)
    ensures
        pub_names(a + b) == pub_names(a).union(pub_names(b)),
    decreases b.len(),
{
    if b.len() == 0 {
        assert(a + b =~= a);
        assert(pub_names(a).union(Set::empty()) =~= pub_names(a));
    } else {
        assert((a + b).drop_last() =~= a + b.drop_last());
        assert((a + b).last() == b.last());
        lemma_pub_names_cat(a, b.drop_last());
        if b.last().2 {
            assert(pub_names(a).union(pub_names(b.drop_last())).insert(b.last().0) =~= pub_names(a).union(
                pub_names(b.drop_last()).insert(b.last().0),
            ));
        }
    }
}

proof fn lemma_locs_cat(
    m: Map<Seq<char>, crate::effect::SrcLocView>,
    a: Seq<(Seq<char>, crate::effect::SrcLocView, bool)>,
    b: Seq<(Seq<char>, crate::effect::SrcLocView, bool)>,
)
    ensures
        locs_after(m, a + b) == locs_after(locs_after(m, a), b),
    decreases b.len(),
{
    if b.len() == 0 {
        assert(a + b =~= a);
    } else {
        assert((a + b).drop_last() =~= a + b.drop_last());
        assert((a + b).last() == b.last());
        lemma_locs_cat(m, a, b.drop_last());
    }
}

proof fn lemma_tracker_after_cat(
    base: Option<LoCTrackerView>,
    a: Seq<(Seq<char>, (nat, nat))>,
    b: Seq<(Seq<char>, (nat, nat))>,
    p: Seq<char>,
)
    ensures
        tracker_after(base, a + b, p) == tracker_after(tracker_after(base, a, p), b, p),
    decreases b.len(),
{
    if b.len() == 0 {
        assert(a + b =~= a);
    } else {
        assert((a + b).drop_last() =~= a + b.drop_last());
        assert((a + b).last() == b.last());
        lemma_tracker_after_cat(base, a, b.drop_last(), p);
    }
}

proof fn lemma_items_refl(r: ScanResults)
    requires
        r.wf(),
        path_views(r.fns_with_effects@).no_duplicates(),
        path_views(r.trait_meths@).no_duplicates(),
    ensures
        items_after(r, r, empty_items()),
{
    assert(path_views(r.trait_meths@).to_set().union(Seq::<Seq<char>>::empty().to_set())
        =~= path_views(r.trait_meths@).to_set());
    assert(instance_views(r.effects@) + Seq::empty() =~= instance_views(r.effects@));
    assert(instance_views(r.fn_ptr_effects@) + Seq::empty() =~= instance_views(r.fn_ptr_effects@));
    assert(call_triples(r.call_graph) + Seq::empty() =~= call_triples(r.call_graph));
    assert(path_views(r.fns_with_effects@).to_set().union(Seq::<Seq<char>>::empty().to_set())
        =~= path_views(r.fns_with_effects@).to_set());
    assert(path_views(r.pub_fns@).to_set().union(pub_names(Seq::empty())) =~= path_views(r.pub_fns@).to_set());
}

proof fn lemma_items_trans(r0: ScanResults, r1: ScanResults, r2: ScanResults, a: ItemDelta, b: ItemDelta)
    requires
        items_after(r0, r1, a),
        items_after(r1, r2, b),
    ensures
        items_after(r0, r2, items_cat(a, b)),
{
    let d = items_cat(a, b);
    assert(instance_views(r0.effects@) + a.body.effects + b.body.effects =~= instance_views(r0.effects@) + d.body.effects);
    assert(instance_views(r0.fn_ptr_effects@) + a.body.fn_ptrs + b.body.fn_ptrs =~= instance_views(r0.fn_ptr_effects@)
        + d.body.fn_ptrs);
    assert(call_triples(r0.call_graph) + a.body.calls + b.body.calls =~= call_triples(r0.call_graph) + d.body.calls);
    lemma_add_spans_cat(r0.skipped_macros@, a.body.macros, b.body.macros);
    lemma_add_spans_cat(r0.skipped_conditional_code@, a.body.cfg_skips, b.body.cfg_skips);
    lemma_add_spans_cat(r0.skipped_fn_calls@, a.body.call_skips, b.body.call_skips);
    lemma_add_spans_cat(r0.skipped_fn_ptrs@, a.body.fn_ptr_skips, b.body.fn_ptr_skips);
    lemma_add_spans_cat(r0.unsafe_impls@, a.unsafe_impls, b.unsafe_impls);
    lemma_add_spans_cat(r0.skipped_other@, a.other_skips, b.other_skips);
    lemma_to_set_cat(a.fwe_names, b.fwe_names);
    lemma_to_set_cat(a.trait_meths, b.trait_meths);
    lemma_add_spans_cat(r0.unsafe_traits@, a.unsafe_traits, b.unsafe_traits);
    let t0 = path_views(r0.trait_meths@).to_set();
    assert(t0.union(a.trait_meths.to_set()).union(b.trait_meths.to_set()) =~= t0.union(d.trait_meths.to_set()));
    let s0 = path_views(r0.fns_with_effects@).to_set();
    assert(s0.union(a.fwe_names.to_set()).union(b.fwe_names.to_set()) =~= s0.union(d.fwe_names.to_set()));
    lemma_pub_names_cat(a.decls, b.decls);
    let p0 = path_views(r0.pub_fns@).to_set();
    assert(p0.union(pub_names(a.decls)).union(pub_names(b.decls)) =~= p0.union(pub_names(d.decls)));
    lemma_locs_cat(loc_map(r0.fn_locs@), a.decls, b.decls);
    assert forall|p: Seq<char>| #[trigger] tracker_of(r2.fn_loc_tracker@, p) == tracker_after(
        tracker_of(r0.fn_loc_tracker@, p),
        d.fn_trackers,
        p,
    ) by {
        lemma_tracker_after_cat(tracker_of(r0.fn_loc_tracker@, p), a.fn_trackers, b.fn_trackers, p);
        assert(tracker_of(r1.fn_loc_tracker@, p) == tracker_after(tracker_of(r0.fn_loc_tracker@, p), a.fn_trackers, p));
    }
}

/// Room for `a` then `b` is room for `a`, and after `a` room for `b`.
proof fn lemma_items_fit_cat(r0: ScanResults, r1: ScanResults, a: ItemDelta, b: ItemDelta)
    requires
        items_fit(r0, items_cat(a, b)),
    ensures
        items_fit(r0, a),
        items_after(r0, r1, a) ==> items_fit(r1, b),
{
    lemma_tracker_fits_cat(r0.skipped_macros@, a.body.macros, b.body.macros);
    lemma_tracker_fits_cat(r0.skipped_conditional_code@, a.body.cfg_skips, b.body.cfg_skips);
    lemma_tracker_fits_cat(r0.skipped_fn_calls@, a.body.call_skips, b.body.call_skips);
    lemma_tracker_fits_cat(r0.skipped_fn_ptrs@, a.body.fn_ptr_skips, b.body.fn_ptr_skips);
    lemma_tracker_fits_cat(r0.unsafe_impls@, a.unsafe_impls, b.unsafe_impls);
    lemma_tracker_fits_cat(r0.skipped_other@, a.other_skips, b.other_skips);
    lemma_tracker_fits_cat(r0.unsafe_traits@, a.unsafe_traits, b.unsafe_traits);
    let d = items_cat(a, b);
    assert forall|i: int| 0 <= i < a.fn_trackers.len() implies (#[trigger] a.fn_trackers[i]).1.0 <= a.fn_trackers[i].1.1 by {
        assert(a.fn_trackers[i] == d.fn_trackers[i]);
    }
    assert forall|i: int| 0 <= i < b.fn_trackers.len() implies (#[trigger] b.fn_trackers[i]).1.0 <= b.fn_trackers[i].1.1 by {
        assert(b.fn_trackers[i] == d.fn_trackers[a.fn_trackers.len() + i]);
    }
    if items_after(r0, r1, a) {
        assert(graph_edges(r1.call_graph).len() == call_triples(r1.call_graph).len());
        assert(graph_edges(r0.call_graph).len() == call_triples(r0.call_graph).len());
    }
}

/// A scan of statements in function `caller` seen as a scan of items.
proof fn lemma_body_as_items(r0: ScanResults, r1: ScanResults, d: ScanDelta, caller: Seq<char>)
    requires
        results_after(r0, r1, d, caller),
        path_views(r0.trait_meths@).no_duplicates(),
    ensures
        items_after(r0, r1, ItemDelta {
            body: d,
            fwe_names: if d.effects.len() > 0 { seq![caller] } else { Seq::empty() },
            ..empty_items()
        }),
{
    let s0 = path_views(r0.fns_with_effects@).to_set();
    if d.effects.len() > 0 {
        assert(seq![caller].to_set() =~= Set::empty().insert(caller)) by {
            assert(seq![caller][0] == caller);
        }
        assert(s0.insert(caller) =~= s0.union(seq![caller].to_set()));
    } else {
        assert(s0 =~= s0.union(Seq::<Seq<char>>::empty().to_set()));
    }
    assert(path_views(r0.pub_fns@).to_set().union(pub_names(Seq::empty())) =~= path_views(r0.pub_fns@).to_set());
    assert(path_views(r0.trait_meths@).to_set().union(Seq::<Seq<char>>::empty().to_set())
        =~= path_views(r0.trait_meths@).to_set());
    assert(add_spans(r0.unsafe_traits@, Seq::empty()) == r0.unsafe_traits@);
}

proof fn lemma_tracker_update(v: Seq<(CanonicalPath, LoCTracker)>, j: int, x: (CanonicalPath, LoCTracker))
    requires
        0 <= j < v.len(),
        v[j].0@ == x.0@,
        forall|k: int| 0 <= k < j ==> (#[trigger] v[k]).0@ != x.0@,
    ensures
        forall|p: Seq<char>| #[trigger] tracker_of(v.update(j, x), p) == if p == x.0@ {
            Some(x.1@)
        } else {
            tracker_of(v, p)
        },
    decreases j,
{
    let w = v.update(j, x);
    if j == 0 {
        assert(w.drop_first() =~= v.drop_first());
        assert(w[0] == x);
        assert forall|p: Seq<char>| #[trigger] tracker_of(w, p) == if p == x.0@ {
            Some(x.1@)
        } else {
            tracker_of(v, p)
        } by {
            assert(tracker_of(w, p) == if w[0].0@ == p { Some(w[0].1@) } else { tracker_of(w.drop_first(), p) });
            assert(tracker_of(v, p) == if v[0].0@ == p { Some(v[0].1@) } else { tracker_of(v.drop_first(), p) });
        }
    } else {
        assert forall|k: int| 0 <= k < j - 1 implies (#[trigger] v.drop_first()[k]).0@ != x.0@ by {
            assert(v.drop_first()[k] == v[k + 1]);
        }
        lemma_tracker_update(v.drop_first(), j - 1, x);
        assert(w.drop_first() =~= v.drop_first().update(j - 1, x));
        assert(w[0] == v[0]);
        assert(v[0].0@ != x.0@);
        assert forall|p: Seq<char>| #[trigger] tracker_of(w, p) == if p == x.0@ {
            Some(x.1@)
        } else {
            tracker_of(v, p)
        } by {
            assert(tracker_of(w, p) == if w[0].0@ == p { Some(w[0].1@) } else { tracker_of(w.drop_first(), p) });
            assert(tracker_of(v, p) == if v[0].0@ == p { Some(v[0].1@) } else { tracker_of(v.drop_first(), p) });
            assert(tracker_of(w.drop_first(), p) == tracker_of(v.drop_first().update(j - 1, x), p));
        }
    }
}

proof fn lemma_tracker_push(v: Seq<(CanonicalPath, LoCTracker)>, x: (CanonicalPath, LoCTracker))
    requires
        forall|k: int| 0 <= k < v.len() ==> (#[trigger] v[k]).0@ != x.0@,
    ensures
        forall|p: Seq<char>| #[trigger] tracker_of(v.push(x), p) == if p == x.0@ {
            Some(x.1@)
        } else {
            tracker_of(v, p)
        },
    decreases v.len(),
{
    let w = v.push(x);
    if v.len() == 0 {
        assert(w[0] == x);
        assert(w.drop_first().len() == 0);
        assert forall|p: Seq<char>| #[trigger] tracker_of(w, p) == if p == x.0@ {
            Some(x.1@)
        } else {
            tracker_of(v, p)
        } by {
            assert(tracker_of(w, p) == if w[0].0@ == p { Some(w[0].1@) } else { tracker_of(w.drop_first(), p) });
            assert(tracker_of(w.drop_first(), p) == None::<LoCTrackerView>);
        }
    } else {
        assert forall|k: int| 0 <= k < v.drop_first().len() implies (#[trigger] v.drop_first()[k]).0@ != x.0@ by {
            assert(v.drop_first()[k] == v[k + 1]);
        }
        lemma_tracker_push(v.drop_first(), x);
        assert(w.drop_first() =~= v.drop_first().push(x));
        assert(w[0] == v[0]);
        assert(v[0].0@ != x.0@);
        assert forall|p: Seq<char>| #[trigger] tracker_of(w, p) == if p == x.0@ {
            Some(x.1@)
        } else {
            tracker_of(v, p)
        } by {
            assert(tracker_of(w, p) == if w[0].0@ == p { Some(w[0].1@) } else { tracker_of(w.drop_first(), p) });
            assert(tracker_of(v, p) == if v[0].0@ == p { Some(v[0].1@) } else { tracker_of(v.drop_first(), p) });
            assert(tracker_of(w.drop_first(), p) == tracker_of(v.drop_first().push(x), p));
        }
    }
}

/// Records `t` as the tracker of function `name`, in place of any earlier one.
fn set_tracker(v: &mut Vec<(CanonicalPath, LoCTracker)>, name: &CanonicalPath, t: LoCTracker)
    ensures
        forall|p: Seq<char>| #[trigger] tracker_of(final(v)@, p) == if p == name@ {
            Some(t@)
        } else {
            tracker_of(old(v)@, p)
        },
{
    let mut i: usize = 0;
    while i < v.len()
        invariant
            i <= v.len(),
            v@ == old(v)@,
            forall|k: int| 0 <= k < i ==> (#[trigger] v@[k]).0@ != name@,
        decreases v.len() - i,
    {
        if v[i].0.same_path(name) {
            let x = (name.clone(), t);
            proof {
                lemma_tracker_update(v@, i as int, x);
            }
            v.set(i, x);
            return;
        }
        i = i + 1;
    }
    let x = (name.clone(), t);
    proof {
        lemma_tracker_push(v@, x);
    }
    v.push(x);
}

proof fn lemma_call_triples_same(r0: ScanResults, r1: ScanResults)
    requires
        r0.wf(),
        graph_nodes(r0.call_graph).is_prefix_of(graph_nodes(r1.call_graph)),
        graph_edges(r1.call_graph) == graph_edges(r0.call_graph),
    ensures
        call_triples(r1.call_graph) == call_triples(r0.call_graph),
{
    let n0 = graph_nodes(r0.call_graph);
    let n1 = graph_nodes(r1.call_graph);
    let e0 = graph_edges(r0.call_graph);
    assert forall|j: int| 0 <= j < e0.len() implies call_triples(r1.call_graph)[j] == call_triples(r0.call_graph)[j] by {
        assert(e0[j].0 < n0.len() && e0[j].1 < n0.len());
        assert(n1[e0[j].0 as int] == n0[e0[j].0 as int]);
        assert(n1[e0[j].1 as int] == n0[e0[j].1 as int]);
    }
    assert(call_triples(r1.call_graph) =~= call_triples(r0.call_graph));
}

impl Scanner {
    /// Scans a function: records its lines of code and its declaration, counts
    /// it among the functions with effects if it is unsafe or declares an ABI,
    /// and scans its body inside it.
    fn scan_fn_item(&mut self, f: &FnItem)
        requires
            old(self).ready(),
            path_views(old(self).results.trait_meths@).no_duplicates(),
            items_fit(old(self).results, fn_spec(old(self).ctx(), old(self).scope_assign_lhs, *f).0),
        ensures
            final(self).results.total_loc == old(self).results.total_loc,
            final(self).caller == old(self).caller,
            final(self).scope_unsafe == old(self).scope_unsafe,
            final(self).sinks == old(self).sinks,
            final(self).scope_assign_lhs == fn_spec(old(self).ctx(), old(self).scope_assign_lhs, *f).1,
            items_after(old(self).results, final(self).results, fn_spec(old(self).ctx(), old(self).scope_assign_lhs, *f).0),
    {
        let ghost ctx = self.ctx();
        let ghost lhs0 = self.scope_assign_lhs;
        let ghost r0 = self.results;
        let ghost spec = fn_spec(ctx, lhs0, *f);
        proof {
            assert(spec.0.fn_trackers[0] == (f.name@, span_of(f.body_loc@)));
        }
        let mut t = LoCTracker::new();
        t.add(f.body_loc.start_line(), f.body_loc.end_line());
        let ghost tv = t@;
        proof {
            assert(tv == one_block(span_of(f.body_loc@)));
        }
        set_tracker(&mut self.results.fn_loc_tracker, &f.name, t);
        let ghost r1 = self.results;
        self.results.add_fn_dec(FnDec::new(f.sig_loc.clone(), f.name.clone(), f.vis));
        let ghost r2 = self.results;
        if f.unsafe_fn || f.extern_abi {
            insert_path(&mut self.results.fns_with_effects, &f.name);
        }
        let ghost r3 = self.results;
        proof {
            lemma_call_triples_same(r0, r2);
            assert(fn_ctx(ctx, *f) == ScanCtx { caller: f.name@, in_unsafe: self.scope_unsafe || f.unsafe_fn, ..self.ctx() });
        }
        self.scan_fn_body(&f.name, f.unsafe_fn, &f.body);
        proof {
            let d = spec.0.body;
            let r4 = self.results;
            assert(instance_views(r4.effects@) == instance_views(r0.effects@) + d.effects);
            let s0 = path_views(r0.fns_with_effects@).to_set();
            let marked: Seq<Seq<char>> = if f.unsafe_fn || f.extern_abi { seq![f.name@] } else { Seq::empty() };
            let used: Seq<Seq<char>> = if d.effects.len() > 0 { seq![f.name@] } else { Seq::empty() };
            assert(marked.to_set() =~= if f.unsafe_fn || f.extern_abi { Set::empty().insert(f.name@) } else { Set::empty() }) by {
                if f.unsafe_fn || f.extern_abi {
                    assert(marked[0] == f.name@);
                }
            }
            assert(used.to_set() =~= if d.effects.len() > 0 { Set::empty().insert(f.name@) } else { Set::empty() }) by {
                if d.effects.len() > 0 {
                    assert(used[0] == f.name@);
                }
            }
            lemma_to_set_cat(marked, used);
            assert(path_views(r4.fns_with_effects@).to_set() =~= s0.union((marked + used).to_set()));
            let decl = (f.name@, f.sig_loc@, f.vis == Visibility::Public || is_main_spec(f.name@));
            assert(seq![decl].drop_last() =~= Seq::<(Seq<char>, crate::effect::SrcLocView, bool)>::empty());
            assert(seq![decl].last() == decl);
            assert(pub_names(Seq::<(Seq<char>, crate::effect::SrcLocView, bool)>::empty()) == Set::<Seq<char>>::empty());
            assert(r3.pub_fns == r2.pub_fns);
            assert(r3.fn_locs == r2.fn_locs);
            assert(r1.fn_locs == r0.fn_locs);
            assert(r1.pub_fns == r0.pub_fns);
            assert(locs_after(loc_map(r0.fn_locs@), seq![decl]) == locs_after(loc_map(r0.fn_locs@), Seq::empty()).insert(decl.0, decl.1));
            assert(path_views(r4.pub_fns@).to_set() =~= path_views(r0.pub_fns@).to_set().union(pub_names(seq![decl])));
            assert(loc_map(r4.fn_locs@) == locs_after(loc_map(r0.fn_locs@), seq![decl]));
            let fts = seq![(f.name@, span_of(f.body_loc@))];
            assert(fts.drop_last() =~= Seq::<(Seq<char>, (nat, nat))>::empty());
            assert forall|p: Seq<char>| #[trigger] tracker_of(r4.fn_loc_tracker@, p) == tracker_after(
                tracker_of(r0.fn_loc_tracker@, p),
                fts,
                p,
            ) by {
                assert(tracker_of(r4.fn_loc_tracker@, p) == tracker_of(r1.fn_loc_tracker@, p));
                assert(fts.last() == (f.name@, span_of(f.body_loc@)));
                assert(fts.len() == 1);
                assert(tracker_after(tracker_of(r0.fn_loc_tracker@, p), fts.drop_last(), p) == tracker_of(r0.fn_loc_tracker@, p));
                assert(tracker_of(r1.fn_loc_tracker@, p) == if p == f.name@ {
                    Some(tv)
                } else {
                    tracker_of(r0.fn_loc_tracker@, p)
                });
            }
            assert(graph_nodes(r0.call_graph).is_prefix_of(graph_nodes(r4.call_graph)));
            assert(add_spans(r0.unsafe_impls@, Seq::empty()) == r0.unsafe_impls@);
            assert(add_spans(r0.skipped_other@, Seq::empty()) == r0.skipped_other@);
            assert(add_spans(r0.unsafe_traits@, Seq::empty()) == r0.unsafe_traits@);
            assert(path_views(r0.trait_meths@).to_set().union(Seq::<Seq<char>>::empty().to_set())
                =~= path_views(r0.trait_meths@).to_set());
        }
    }
}

/// Counting blocks in the trackers of unsafe impls and of items not scanned,
/// seen as a scan of items.
proof fn lemma_items_trackers_only(
    r0: ScanResults,
    r1: ScanResults,
    ui: Seq<(nat, nat)>,
    os: Seq<(nat, nat)>,
    ut: Seq<(nat, nat)>,
)
    requires
        r0.wf(),
        path_views(r0.fns_with_effects@).no_duplicates(),
        path_views(r0.trait_meths@).no_duplicates(),
        r1.trait_meths == r0.trait_meths,
        r1.unsafe_traits@ == add_spans(r0.unsafe_traits@, ut),
        r1.effects == r0.effects,
        r1.fn_ptr_effects == r0.fn_ptr_effects,
        r1.call_graph == r0.call_graph,
        r1.node_idxs == r0.node_idxs,
        r1.fns_with_effects == r0.fns_with_effects,
        r1.pub_fns == r0.pub_fns,
        r1.fn_locs == r0.fn_locs,
        r1.fn_loc_tracker == r0.fn_loc_tracker,
        r1.skipped_macros == r0.skipped_macros,
        r1.skipped_conditional_code == r0.skipped_conditional_code,
        r1.skipped_fn_calls == r0.skipped_fn_calls,
        r1.skipped_fn_ptrs == r0.skipped_fn_ptrs,
        r1.unsafe_impls@ == add_spans(r0.unsafe_impls@, ui),
        r1.skipped_other@ == add_spans(r0.skipped_other@, os),
    ensures
        items_after(r0, r1, ItemDelta { unsafe_impls: ui, other_skips: os, unsafe_traits: ut, ..empty_items() }),
{
    lemma_items_refl(r0);
}

/// Room for scanning `items` is room for scanning each prefix of them.
proof fn lemma_items_prefix_fit(r: ScanResults, ctx: ScanCtx, lhs: bool, items: Seq<ScanItem>, k: int)
    requires
        items_fit(r, items_spec(ctx, lhs, items).0),
        0 <= k <= items.len(),
    ensures
        items_fit(r, items_spec(ctx, lhs, items.take(k)).0),
    decreases items.len() - k,
{
    if k == items.len() {
        assert(items.take(k) =~= items);
    } else {
        lemma_items_prefix_fit(r, ctx, lhs, items, k + 1);
        let t = items.take(k + 1);
        assert(t.subrange(0, k) =~= items.take(k));
        let pre = items_spec(ctx, lhs, items.take(k));
        lemma_items_fit_cat(r, r, pre.0, item_spec(ctx, pre.1, t[k]).0);
    }
}

impl Scanner {
    /// Scans an item: what it adds to the results is exactly `item_spec`.
    pub fn scan_item(&mut self, it: &ScanItem)
        requires
            old(self).ready(),
            path_views(old(self).results.trait_meths@).no_duplicates(),
            items_fit(old(self).results, item_spec(old(self).ctx(), old(self).scope_assign_lhs, *it).0),
        ensures
            final(self).results.total_loc == old(self).results.total_loc,
            final(self).caller == old(self).caller,
            final(self).scope_unsafe == old(self).scope_unsafe,
            final(self).sinks == old(self).sinks,
            final(self).scope_assign_lhs == item_spec(old(self).ctx(), old(self).scope_assign_lhs, *it).1,
            items_after(old(self).results, final(self).results, item_spec(old(self).ctx(), old(self).scope_assign_lhs, *it).0),
        decreases it,
    {
        let ghost ctx = self.ctx();
        let ghost lhs0 = self.scope_assign_lhs;
        let ghost r0 = self.results;
        match it {
            ScanItem::CfgSkipped(l) => {
                self.skip_cfg_code(l);
                proof {
                    lemma_body_as_items(r0, self.results, ScanDelta { cfg_skips: seq![span_of(l@)], ..empty_delta() }, ctx.caller);
                }
            },
            ScanItem::Macro(l) => {
                self.skip_macro(l);
                proof {
                    lemma_body_as_items(r0, self.results, ScanDelta { macros: seq![span_of(l@)], ..empty_delta() }, ctx.caller);
                }
            },
            ScanItem::Fn(f) => {
                self.scan_fn_item(f);
            },
            ScanItem::Mod(items) => {
                self.scan_items(items);
            },
            ScanItem::Impl(u, items) => {
                let ghost rest = items_spec(ctx, lhs0, items@);
                match u {
                    Some(l) => {
                        let ghost first = ItemDelta { unsafe_impls: seq![span_of(l@)], ..empty_items() };
                        proof {
                            lemma_items_fit_cat(r0, r0, first, rest.0);
                        }
                        skip_block(&mut self.results.unsafe_impls, l);
                        let ghost r1 = self.results;
                        proof {
                            assert(add_spans(r0.skipped_other@, Seq::empty()) == r0.skipped_other@);
                            assert(add_spans(r0.unsafe_traits@, Seq::empty()) == r0.unsafe_traits@);
                            lemma_items_trackers_only(r0, r1, seq![span_of(l@)], Seq::empty(), Seq::empty());
                            assert(ItemDelta { unsafe_impls: seq![span_of(l@)], other_skips: Seq::empty(), unsafe_traits: Seq::empty(), ..empty_items() } == first);
                            lemma_items_fit_cat(r0, r1, first, rest.0);
                        }
                        self.scan_items(items);
                        proof {
                            lemma_items_trans(r0, r1, self.results, first, rest.0);
                        }
                    },
                    None => {
                        self.scan_items(items);
                    },
                }
            },
            ScanItem::Trait(u, ts) => {
                let ghost rest = trait_items_spec(ctx, lhs0, ts@);
                match u {
                    Some(l) => {
                        let ghost first = ItemDelta { unsafe_traits: seq![span_of(l@)], ..empty_items() };
                        proof {
                            lemma_items_fit_cat(r0, r0, first, rest.0);
                        }
                        skip_block(&mut self.results.unsafe_traits, l);
                        let ghost r1 = self.results;
                        proof {
                            assert(add_spans(r0.skipped_other@, Seq::empty()) == r0.skipped_other@);
                            assert(add_spans(r0.unsafe_impls@, Seq::empty()) == r0.unsafe_impls@);
                            lemma_items_trackers_only(r0, r1, Seq::empty(), Seq::empty(), seq![span_of(l@)]);
                            assert(ItemDelta { unsafe_impls: Seq::empty(), other_skips: Seq::empty(), unsafe_traits: seq![span_of(l@)], ..empty_items() } == first);
                            lemma_items_fit_cat(r0, r1, first, rest.0);
                        }
                        self.scan_trait_items(ts);
                        proof {
                            lemma_items_trans(r0, r1, self.results, first, rest.0);
                        }
                    },
                    None => {
                        self.scan_trait_items(ts);
                    },
                }
            },
            ScanItem::Unsupported(l) => {
                skip_block(&mut self.results.skipped_other, l);
                proof {
                    assert(add_spans(r0.unsafe_impls@, Seq::empty()) == r0.unsafe_impls@);
                    assert(add_spans(r0.unsafe_traits@, Seq::empty()) == r0.unsafe_traits@);
                    lemma_items_trackers_only(r0, self.results, Seq::empty(), seq![span_of(l@)], Seq::empty());
                    assert(ItemDelta { unsafe_impls: Seq::empty(), other_skips: seq![span_of(l@)], unsafe_traits: Seq::empty(), ..empty_items() }
                        == ItemDelta { other_skips: seq![span_of(l@)], ..empty_items() });
                }
            },
            ScanItem::Other => {
                proof {
                    lemma_items_refl(r0);
                }
            },
        }
    }

    /// Scans `items` in order.
    pub fn scan_items(&mut self, items: &Vec<ScanItem>)
        requires
            old(self).ready(),
            path_views(old(self).results.trait_meths@).no_duplicates(),
            items_fit(old(self).results, items_spec(old(self).ctx(), old(self).scope_assign_lhs, items@).0),
        ensures
            final(self).results.total_loc == old(self).results.total_loc,
            final(self).caller == old(self).caller,
            final(self).scope_unsafe == old(self).scope_unsafe,
            final(self).sinks == old(self).sinks,
            final(self).scope_assign_lhs == items_spec(old(self).ctx(), old(self).scope_assign_lhs, items@).1,
            items_after(old(self).results, final(self).results, items_spec(old(self).ctx(), old(self).scope_assign_lhs, items@).0),
        decreases items,
    {
        let ghost ctx = self.ctx();
        let ghost lhs0 = self.scope_assign_lhs;
        let ghost r0 = self.results;
        proof {
            lemma_items_refl(r0);
            assert(items@.take(0) =~= Seq::<ScanItem>::empty());
        }
        let mut i: usize = 0;
        while i < items.len()
            invariant
                i <= items.len(),
                self.caller == old(self).caller,
                self.scope_unsafe == old(self).scope_unsafe,
                self.sinks == old(self).sinks,
                ctx == old(self).ctx(),
                lhs0 == old(self).scope_assign_lhs,
                r0 == old(self).results,
                self.ready(),
                path_views(self.results.trait_meths@).no_duplicates(),
                self.results.total_loc == r0.total_loc,
                items_fit(r0, items_spec(ctx, lhs0, items@).0),
                items_after(r0, self.results, items_spec(ctx, lhs0, items@.take(i as int)).0),
                self.scope_assign_lhs == items_spec(ctx, lhs0, items@.take(i as int)).1,
            decreases items.len() - i,
        {
            let ghost pre = items_spec(ctx, lhs0, items@.take(i as int));
            let ghost step = item_spec(ctx, pre.1, items@[i as int]);
            let ghost r1 = self.results;
            proof {
                assert(items@.take(i + 1).subrange(0, i as int) =~= items@.take(i as int));
                assert(items@.take(i + 1)[i as int] == items@[i as int]);
                lemma_items_prefix_fit(r0, ctx, lhs0, items@, i + 1);
                lemma_items_fit_cat(r0, r1, pre.0, step.0);
            }
            self.scan_item(&items[i]);
            proof {
                lemma_items_trans(r0, r1, self.results, pre.0, step.0);
            }
            i = i + 1;
        }
        proof {
            assert(items@.take(items.len() as int) =~= items@);
        }
    }

    /// Scans a file: counts its lines of code, then scans its items.
    pub fn scan_file(&mut self, file_loc: &SrcLoc, items: &Vec<ScanItem>)
        requires
            old(self).ready(),
            path_views(old(self).results.trait_meths@).no_duplicates(),
            tracker_fits(old(self).results.total_loc@, seq![span_of(file_loc@)]),
            items_fit(old(self).results, items_spec(old(self).ctx(), old(self).scope_assign_lhs, items@).0),
        ensures
            final(self).caller == old(self).caller,
            final(self).scope_unsafe == old(self).scope_unsafe,
            final(self).sinks == old(self).sinks,
            final(self).scope_assign_lhs == items_spec(old(self).ctx(), old(self).scope_assign_lhs, items@).1,
            final(self).results.total_loc@ == add_spans(old(self).results.total_loc@, seq![span_of(file_loc@)]),
            items_after(old(self).results, final(self).results, items_spec(old(self).ctx(), old(self).scope_assign_lhs, items@).0),
    {
        let ghost r0 = self.results;
        skip_block(&mut self.results.total_loc, file_loc);
        proof {
            lemma_items_refl(r0);
            assert(items_after(r0, self.results, empty_items()));
            let d = items_spec(self.ctx(), self.scope_assign_lhs, items@).0;
            assert(items_cat(empty_items(), d) =~= d);
            lemma_items_fit_cat(r0, self.results, empty_items(), d);
        }
        let ghost r1 = self.results;
        self.scan_items(items);
        proof {
            let d = items_spec(old(self).ctx(), old(self).scope_assign_lhs, items@).0;
            lemma_items_trans(r0, r1, self.results, empty_items(), d);
            assert(items_cat(empty_items(), d) =~= d);
        }
    }
}

/// Call graph edges added, seen as a scan of items.
proof fn lemma_items_graph_only(r0: ScanResults, r1: ScanResults, calls: Seq<(Seq<char>, Seq<char>, crate::effect::SrcLocView)>)
    requires
        r0.wf(),
        path_views(r0.fns_with_effects@).no_duplicates(),
        path_views(r0.trait_meths@).no_duplicates(),
        r1.wf(),
        r1.graph_only_changed(r0),
        graph_nodes(r0.call_graph).is_prefix_of(graph_nodes(r1.call_graph)),
        graph_nodes(r1.call_graph).len() <= graph_nodes(r0.call_graph).len() + 2 * calls.len(),
        call_triples(r1.call_graph) == call_triples(r0.call_graph) + calls,
    ensures
        items_after(r0, r1, ItemDelta { body: ScanDelta { calls, ..empty_delta() }, ..empty_items() }),
{
    lemma_items_refl(r0);
    assert(instance_views(r0.effects@) + Seq::empty() =~= instance_views(r0.effects@));
    assert(instance_views(r0.fn_ptr_effects@) + Seq::empty() =~= instance_views(r0.fn_ptr_effects@));
}

impl Scanner {
    /// Scans a trait method: its default implementation as a function, or else
    /// records it as a trait method in the call graph; then adds an edge from it
    /// to each of its implementations.
    fn scan_trait_method(&mut self, m: &TraitMethod)
        requires
            old(self).ready(),
            path_views(old(self).results.trait_meths@).no_duplicates(),
            items_fit(old(self).results, trait_method_spec(old(self).ctx(), old(self).scope_assign_lhs, *m).0),
        ensures
            final(self).results.total_loc == old(self).results.total_loc,
            final(self).caller == old(self).caller,
            final(self).scope_unsafe == old(self).scope_unsafe,
            final(self).sinks == old(self).sinks,
            final(self).scope_assign_lhs == trait_method_spec(old(self).ctx(), old(self).scope_assign_lhs, *m).1,
            items_after(old(self).results, final(self).results, trait_method_spec(old(self).ctx(), old(self).scope_assign_lhs, *m).0),
    {
        let ghost ctx = self.ctx();
        let ghost lhs0 = self.scope_assign_lhs;
        let ghost r0 = self.results;
        let ghost first = trait_method_first(ctx, lhs0, *m);
        let ghost edges = ItemDelta { body: ScanDelta { calls: impl_edges(*m), ..empty_delta() }, ..empty_items() };
        proof {
            lemma_items_fit_cat(r0, r0, first.0, edges);
        }
        match &m.default {
            Some(f) => {
                self.scan_fn_item(f);
            },
            None => {
                self.results.update_call_graph(&m.name);
                let ghost r_mid = self.results;
                insert_path(&mut self.results.trait_meths, &m.name);
                proof {
                    lemma_items_refl(r0);
                    lemma_call_triples_same(r0, r_mid);
                    let t0 = path_views(r0.trait_meths@).to_set();
                    assert(seq![m.name@].to_set() =~= Set::empty().insert(m.name@)) by {
                        assert(seq![m.name@][0] == m.name@);
                    }
                    assert(t0.insert(m.name@) =~= t0.union(seq![m.name@].to_set()));
                    assert(instance_views(r0.effects@) + Seq::empty() =~= instance_views(r0.effects@));
                    assert(instance_views(r0.fn_ptr_effects@) + Seq::empty() =~= instance_views(r0.fn_ptr_effects@));
                    assert(call_triples(r0.call_graph) + Seq::empty() =~= call_triples(r0.call_graph));
                    assert(items_after(r0, self.results, first.0));
                }
            },
        }
        let ghost r1 = self.results;
        proof {
            lemma_items_fit_cat(r0, r1, first.0, edges);
            assert(impl_edges(*m).take(0) =~= Seq::empty());
            lemma_items_graph_only(r1, r1, Seq::empty());
        }
        let mut k: usize = 0;
        while k < m.impls.len()
            invariant
                k <= m.impls.len(),
                self.caller == old(self).caller,
                self.scope_unsafe == old(self).scope_unsafe,
                self.sinks == old(self).sinks,
                self.scope_assign_lhs == first.1,
                self.results.total_loc == r1.total_loc,
                self.results.wf(),
                path_views(self.results.fns_with_effects@).no_duplicates(),
                path_views(self.results.trait_meths@).no_duplicates(),
                items_fit(r1, edges),
                edges == (ItemDelta { body: ScanDelta { calls: impl_edges(*m), ..empty_delta() }, ..empty_items() }),
                items_after(r1, self.results, ItemDelta {
                    body: ScanDelta { calls: impl_edges(*m).take(k as int), ..empty_delta() },
                    ..empty_items()
                }),
            decreases m.impls.len() - k,
        {
            let ghost before = self.results;
            let ghost e = (m.name@, m.impls@[k as int]@, m.loc@);
            proof {
                assert(graph_edges(before.call_graph).len() == call_triples(before.call_graph).len());
                assert(graph_edges(r1.call_graph).len() == call_triples(r1.call_graph).len());
            }
            self.results.add_call(&m.name, &m.impls[k], m.loc.clone());
            proof {
                crate::expr_scan::lemma_call_triples_push(before, self.results, m.name@, m.impls@[k as int]@, m.loc@);
                assert(call_triples(before.call_graph).push(e) =~= call_triples(before.call_graph) + seq![e]);
                lemma_items_graph_only(before, self.results, seq![e]);
                let dk = ItemDelta { body: ScanDelta { calls: impl_edges(*m).take(k as int), ..empty_delta() }, ..empty_items() };
                let d1 = ItemDelta { body: ScanDelta { calls: seq![e], ..empty_delta() }, ..empty_items() };
                lemma_items_trans(r1, before, self.results, dk, d1);
                assert(impl_edges(*m).take(k + 1) =~= impl_edges(*m).take(k as int) + seq![e]);
                assert(items_cat(dk, d1) =~= ItemDelta {
                    body: ScanDelta { calls: impl_edges(*m).take(k + 1), ..empty_delta() },
                    ..empty_items()
                });
            }
            k = k + 1;
        }
        proof {
            assert(impl_edges(*m).take(m.impls.len() as int) =~= impl_edges(*m));
            lemma_items_trans(r0, r1, self.results, first.0, edges);
        }
    }

    /// Scans the items of a trait in order.
    fn scan_trait_items(&mut self, ts: &Vec<ScanTraitItem>)
        requires
            old(self).ready(),
            path_views(old(self).results.trait_meths@).no_duplicates(),
            items_fit(old(self).results, trait_items_spec(old(self).ctx(), old(self).scope_assign_lhs, ts@).0),
        ensures
            final(self).results.total_loc == old(self).results.total_loc,
            final(self).caller == old(self).caller,
            final(self).scope_unsafe == old(self).scope_unsafe,
            final(self).sinks == old(self).sinks,
            final(self).scope_assign_lhs == trait_items_spec(old(self).ctx(), old(self).scope_assign_lhs, ts@).1,
            items_after(old(self).results, final(self).results, trait_items_spec(old(self).ctx(), old(self).scope_assign_lhs, ts@).0),
    {
        let ghost ctx = self.ctx();
        let ghost lhs0 = self.scope_assign_lhs;
        let ghost r0 = self.results;
        proof {
            lemma_items_refl(r0);
            assert(ts@.take(0) =~= Seq::<ScanTraitItem>::empty());
        }
        let mut i: usize = 0;
        while i < ts.len()
            invariant
                i <= ts.len(),
                self.caller == old(self).caller,
                self.scope_unsafe == old(self).scope_unsafe,
                self.sinks == old(self).sinks,
                ctx == old(self).ctx(),
                lhs0 == old(self).scope_assign_lhs,
                r0 == old(self).results,
                self.ready(),
                path_views(self.results.trait_meths@).no_duplicates(),
                self.results.total_loc == r0.total_loc,
                items_fit(r0, trait_items_spec(ctx, lhs0, ts@).0),
                items_after(r0, self.results, trait_items_spec(ctx, lhs0, ts@.take(i as int)).0),
                self.scope_assign_lhs == trait_items_spec(ctx, lhs0, ts@.take(i as int)).1,
            decreases ts.len() - i,
        {
            let ghost pre = trait_items_spec(ctx, lhs0, ts@.take(i as int));
            let ghost step = trait_item_spec(ctx, pre.1, ts@[i as int]);
            let ghost r1 = self.results;
            proof {
                assert(ts@.take(i + 1).drop_last() =~= ts@.take(i as int));
                assert(ts@.take(i + 1).last() == ts@[i as int]);
                lemma_trait_items_prefix_fit(r0, ctx, lhs0, ts@, i + 1);
                lemma_items_fit_cat(r0, r1, pre.0, step.0);
            }
            match &ts[i] {
                ScanTraitItem::CfgSkipped(l) => {
                    self.skip_cfg_code(l);
                    proof {
                        lemma_body_as_items(r1, self.results, ScanDelta { cfg_skips: seq![span_of(l@)], ..empty_delta() }, ctx.caller);
                    }
                },
                ScanTraitItem::Method(m) => {
                    self.scan_trait_method(m);
                },
                ScanTraitItem::Macro(l) => {
                    self.skip_macro(l);
                    proof {
                        lemma_body_as_items(r1, self.results, ScanDelta { macros: seq![span_of(l@)], ..empty_delta() }, ctx.caller);
                    }
                },
                ScanTraitItem::Verbatim => {
                    proof {
                        lemma_items_refl(r1);
                    }
                },
                ScanTraitItem::Unsupported(l) => {
                    skip_block(&mut self.results.skipped_other, l);
                    proof {
                        assert(add_spans(r1.unsafe_impls@, Seq::empty()) == r1.unsafe_impls@);
                        assert(add_spans(r1.unsafe_traits@, Seq::empty()) == r1.unsafe_traits@);
                        lemma_items_trackers_only(r1, self.results, Seq::empty(), seq![span_of(l@)], Seq::empty());
                        assert(ItemDelta { unsafe_impls: Seq::empty(), other_skips: seq![span_of(l@)], unsafe_traits: Seq::empty(), ..empty_items() }
                            == ItemDelta { other_skips: seq![span_of(l@)], ..empty_items() });
                    }
                },
            }
            proof {
                lemma_items_trans(r0, r1, self.results, pre.0, step.0);
            }
            i = i + 1;
        }
        proof {
            assert(ts@.take(ts.len() as int) =~= ts@);
        }
    }
}

/// Room for scanning the items of a trait is room for scanning each prefix of them.
proof fn lemma_trait_items_prefix_fit(r: ScanResults, ctx: ScanCtx, lhs: bool, ts: Seq<ScanTraitItem>, k: int)
    requires
        items_fit(r, trait_items_spec(ctx, lhs, ts).0),
        0 <= k <= ts.len(),
    ensures
        items_fit(r, trait_items_spec(ctx, lhs, ts.take(k)).0),
    decreases ts.len() - k,
{
    if k == ts.len() {
        assert(ts.take(k) =~= ts);
    } else {
        lemma_trait_items_prefix_fit(r, ctx, lhs, ts, k + 1);
        let t = ts.take(k + 1);
        assert(t.drop_last() =~= ts.take(k));
        let pre = trait_items_spec(ctx, lhs, ts.take(k));
        lemma_items_fit_cat(r, r, pre.0, trait_item_spec(ctx, pre.1, t.last()).0);
    }
}

/// Whether a function named `n` is among the declarations.
pub open spec fn declares(decls: Seq<(Seq<char>, crate::effect::SrcLocView, bool)>, n: Seq<char>) -> bool {
    exists|j: int| 0 <= j < decls.len() && (#[trigger] decls[j]).0 == n
}

/// Every effect and function pointer in `d` is attributed to a function that
/// `d` declares.
pub open spec fn effects_declared(d: ItemDelta) -> bool {
    &&& forall|i: int| 0 <= i < d.body.effects.len() ==> declares(d.decls, (#[trigger] d.body.effects[i]).caller)
    &&& forall|i: int| 0 <= i < d.body.fn_ptrs.len() ==> declares(d.decls, (#[trigger] d.body.fn_ptrs[i]).caller)
}

proof fn lemma_effects_declared_cat(a: ItemDelta, b: ItemDelta)
    requires
        effects_declared(a),
        effects_declared(b),
    ensures
        effects_declared(items_cat(a, b)),
{
    let d = items_cat(a, b);
    assert forall|i: int| 0 <= i < d.body.effects.len() implies declares(d.decls, (#[trigger] d.body.effects[i]).caller) by {
        if i < a.body.effects.len() {
            assert(d.body.effects[i] == a.body.effects[i]);
            let j = choose|j: int| 0 <= j < a.decls.len() && (#[trigger] a.decls[j]).0 == a.body.effects[i].caller;
            assert(d.decls[j] == a.decls[j]);
        } else {
            let k = i - a.body.effects.len();
            assert(d.body.effects[i] == b.body.effects[k]);
            let j = choose|j: int| 0 <= j < b.decls.len() && (#[trigger] b.decls[j]).0 == b.body.effects[k].caller;
            assert(d.decls[a.decls.len() + j] == b.decls[j]);
        }
    }
    assert forall|i: int| 0 <= i < d.body.fn_ptrs.len() implies declares(d.decls, (#[trigger] d.body.fn_ptrs[i]).caller) by {
        if i < a.body.fn_ptrs.len() {
            assert(d.body.fn_ptrs[i] == a.body.fn_ptrs[i]);
            let j = choose|j: int| 0 <= j < a.decls.len() && (#[trigger] a.decls[j]).0 == a.body.fn_ptrs[i].caller;
            assert(d.decls[j] == a.decls[j]);
        } else {
            let k = i - a.body.fn_ptrs.len();
            assert(d.body.fn_ptrs[i] == b.body.fn_ptrs[k]);
            let j = choose|j: int| 0 <= j < b.decls.len() && (#[trigger] b.decls[j]).0 == b.body.fn_ptrs[k].caller;
            assert(d.decls[a.decls.len() + j] == b.decls[j]);
        }
    }
}

proof fn lemma_fn_effects_declared(ctx: ScanCtx, lhs: bool, f: FnItem)
    ensures
        effects_declared(fn_spec(ctx, lhs, f).0),
{
    let d = fn_spec(ctx, lhs, f).0;
    crate::expr_scan::lemma_seq_effects_in_enclosing_fn(fn_ctx(ctx, f), lhs, f.body@);
    assert(d.decls[0].0 == f.name@);
    assert forall|i: int| 0 <= i < d.body.effects.len() implies declares(d.decls, (#[trigger] d.body.effects[i]).caller) by {
        assert(d.body.effects[i].caller == f.name@);
    }
    assert forall|i: int| 0 <= i < d.body.fn_ptrs.len() implies declares(d.decls, (#[trigger] d.body.fn_ptrs[i]).caller) by {
        assert(d.body.fn_ptrs[i].caller == f.name@);
    }
}

proof fn lemma_trait_items_effects_declared(ctx: ScanCtx, lhs: bool, ts: Seq<ScanTraitItem>)
    ensures
        effects_declared(trait_items_spec(ctx, lhs, ts).0),
    decreases ts.len(),
{
    if ts.len() > 0 {
        lemma_trait_items_effects_declared(ctx, lhs, ts.drop_last());
        let r1 = trait_items_spec(ctx, lhs, ts.drop_last());
        match ts.last() {
            ScanTraitItem::Method(m) => {
                match m.default {
                    Some(f) => lemma_fn_effects_declared(ctx, r1.1, f),
                    None => {},
                }
                lemma_effects_declared_cat(
                    trait_method_first(ctx, r1.1, m).0,
                    ItemDelta { body: ScanDelta { calls: impl_edges(m), ..empty_delta() }, ..empty_items() },
                );
            },
            _ => {},
        }
        lemma_effects_declared_cat(r1.0, trait_item_spec(ctx, r1.1, ts.last()).0);
    }
}

/// Whatever items a file holds, every effect and function pointer that scanning
/// them finds is attributed to a function declared among them: effects occur
/// only in function bodies.
pub proof fn law_item_effects_in_declared_fns(ctx: ScanCtx, lhs: bool, it: ScanItem)
    ensures
        effects_declared(item_spec(ctx, lhs, it).0),
    decreases it,
{
    match it {
        ScanItem::Fn(f) => lemma_fn_effects_declared(ctx, lhs, f),
        ScanItem::Mod(items) => lemma_items_effects_declared(ctx, lhs, items@),
        ScanItem::Impl(u, items) => {
            lemma_items_effects_declared(ctx, lhs, items@);
            match u {
                Some(l) => lemma_effects_declared_cat(
                    ItemDelta { unsafe_impls: seq![span_of(l@)], ..empty_items() },
                    items_spec(ctx, lhs, items@).0,
                ),
                None => {},
            }
        },
        ScanItem::Trait(u, ts) => {
            lemma_trait_items_effects_declared(ctx, lhs, ts@);
            match u {
                Some(l) => lemma_effects_declared_cat(
                    ItemDelta { unsafe_traits: seq![span_of(l@)], ..empty_items() },
                    trait_items_spec(ctx, lhs, ts@).0,
                ),
                None => {},
            }
        },
        _ => {},
    }
}

proof fn lemma_items_effects_declared(ctx: ScanCtx, lhs: bool, items: Seq<ScanItem>)
    ensures
        effects_declared(items_spec(ctx, lhs, items).0),
    decreases items,
{
    if items.len() > 0 {
        let pre = items.subrange(0, items.len() - 1);
        lemma_items_effects_declared(ctx, lhs, pre);
        let r1 = items_spec(ctx, lhs, pre);
        law_item_effects_in_declared_fns(ctx, r1.1, items[items.len() - 1]);
        lemma_effects_declared_cat(r1.0, item_spec(ctx, r1.1, items[items.len() - 1]).0);
    }
}


proof fn lemma_marked_fn_in_items(ctx: ScanCtx, lhs: bool, items: Seq<ScanItem>, k: int)
    requires
        0 <= k < items.len(),
        items[k] matches ScanItem::Fn(f) && (f.unsafe_fn || f.extern_abi),
    ensures
        items_spec(ctx, lhs, items).0.fwe_names.contains(items[k]->Fn_0.name@),
    decreases items.len(),
{
    let pre = items.subrange(0, items.len() - 1);
    let r1 = items_spec(ctx, lhs, pre);
    let r2 = item_spec(ctx, r1.1, items[items.len() - 1]);
    let n = items[k]->Fn_0.name@;
    if k == items.len() - 1 {
        assert(r2.0.fwe_names[0] == n);
        assert((r1.0.fwe_names + r2.0.fwe_names)[r1.0.fwe_names.len() as int] == n);
    } else {
        assert(pre[k] == items[k]);
        lemma_marked_fn_in_items(ctx, lhs, pre, k);
        let j = choose|j: int| 0 <= j < r1.0.fwe_names.len() && r1.0.fwe_names[j] == n;
        assert((r1.0.fwe_names + r2.0.fwe_names)[j] == n);
    }
}

/// Scanning the items of a file marks each of its functions that is unsafe or
/// declares an ABI (`extern "C" fn`) as having effects, whatever its body
/// holds, so that function pointers to it are kept.
pub proof fn law_unsafe_or_abi_fns_have_effects(
    old: ScanResults,
    new: ScanResults,
    ctx: ScanCtx,
    lhs: bool,
    items: Seq<ScanItem>,
    k: int,
)
    requires
        0 <= k < items.len(),
        items[k] matches ScanItem::Fn(f) && (f.unsafe_fn || f.extern_abi),
        items_after(old, new, items_spec(ctx, lhs, items).0),
    ensures
        path_views(new.fns_with_effects@).contains(items[k]->Fn_0.name@),
{
    lemma_marked_fn_in_items(ctx, lhs, items, k);
    let n = items[k]->Fn_0.name@;
    assert(items_spec(ctx, lhs, items).0.fwe_names.to_set().contains(n));
    assert(path_views(new.fns_with_effects@).to_set().contains(n));
}
} // verus!
