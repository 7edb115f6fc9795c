//! Scanning the statements and expressions of a function body for effects.
//!
//! The body is given as a syntax tree of this library's own, in which each node
//! already carries what name resolution found for it: the canonical path of a
//! callee, whether it names a foreign or an unsafe function, whether a path is a
//! function, a mutable static or a foreign static, and which identifiers of a
//! dereferenced or cast expression are raw pointers.
use vstd::prelude::*;

use crate::effect::{classify_call, instance_views, Effect, EffectInstance, EffectInstanceView, EffectView, SrcLoc, SrcLocView};
use crate::ident::{insert_path, path_views, CanonicalPath, IdentPath};
use crate::loc_tracker::{add_span, LoCTracker, LoCTrackerView};
use crate::scanner::{graph_edges, graph_nodes, ScanResults};
use petgraph::graph::DiGraph;

verus! {

/// A callee as the resolver saw it.
pub struct ResolvedCall {
    /// The callee's canonical path.
    pub callee: CanonicalPath,
    /// The foreign declaration the callee names, if any.
    pub ffi: Option<CanonicalPath>,
    /// Whether the callee is an unsafe function.
    pub unsafe_fn: bool,
    /// Where the callee is named.
    pub loc: SrcLoc,
}

/// The function part of a call `f(args)`.
pub enum Callee {
    /// A path, a field or an unnamed field, resolved.
    Resolved(ResolvedCall),
    /// A macro invocation.
    Macro(SrcLoc),
    /// Any other expression, which cannot be resolved without type information.
    Unresolved(SrcLoc),
}

/// A path expression, typically a local variable.
pub struct PathExpr {
    pub path: CanonicalPath,
    /// The path's type is a function.
    pub is_fn: bool,
    /// The path names a constant or an immutable static.
    pub const_or_static: bool,
    /// The path names a mutable static.
    pub mut_static: bool,
    /// The path names a foreign static.
    pub ffi_static: bool,
    pub loc: SrcLoc,
}

/// A statement or expression of a function body.
pub enum ScanExpr {
    /// A node whose `cfg` attributes switch it off.
    CfgSkipped(SrcLoc),
    /// A macro invocation (expression or statement).
    Macro(SrcLoc),
    /// A call: its arguments, then its callee.
    Call(Vec<ScanExpr>, Callee),
    /// A method call: receiver, arguments, the method's path, whether the method
    /// is unsafe, and where the method is named.
    MethodCall(Box<ScanExpr>, Vec<ScanExpr>, CanonicalPath, bool, SrcLoc),
    /// A path.
    Path(PathExpr),
    /// A cast to a raw pointer: the expression cast, the paths of its
    /// identifiers, and the cast's location.
    RawPtrCast(Box<ScanExpr>, Vec<CanonicalPath>, SrcLoc),
    /// A dereference: the expression dereferenced, the paths of its identifiers
    /// whose type is a raw pointer, and the location of that expression.
    Deref(Box<ScanExpr>, Vec<CanonicalPath>, SrcLoc),
    /// A field access: the base, the field's path where it is a union field,
    /// and the access's location.
    Field(Box<ScanExpr>, Option<CanonicalPath>, SrcLoc),
    /// An assignment `lhs = rhs`.
    Assign(Box<ScanExpr>, Box<ScanExpr>),
    /// A closure: its body, its name and its location.
    Closure(Box<ScanExpr>, CanonicalPath, SrcLoc),
    /// An unsafe block and its statements.
    Unsafe(Vec<ScanExpr>),
    /// Any other node: its subexpressions and statements in order.
    Nested(Vec<ScanExpr>),
}

/// What a scan adds to the results, in order of discovery.
#[verifier::ext_equal]
pub struct ScanDelta {
    pub effects: Seq<EffectInstanceView>,
    pub fn_ptrs: Seq<EffectInstanceView>,
    /// Call sites: caller, callee and location.
    pub calls: Seq<(Seq<char>, Seq<char>, SrcLocView)>,
    /// Line spans of skipped macros.
    pub macros: Seq<(nat, nat)>,
    /// Line spans of code switched off by `cfg`.
    pub cfg_skips: Seq<(nat, nat)>,
    /// Line spans of calls whose callee could not be resolved.
    pub call_skips: Seq<(nat, nat)>,
    /// Line spans of paths to constant or static functions.
    pub fn_ptr_skips: Seq<(nat, nat)>,
}

/// What the scan of a node depends on besides the node.
pub struct ScanCtx {
    /// The enclosing function.
    pub caller: Seq<char>,
    /// Whether the node is inside an unsafe block or function.
    pub in_unsafe: bool,
    pub sinks: Seq<Seq<char>>,
}

pub open spec fn empty_delta() -> ScanDelta {
    ScanDelta {
        effects: Seq::empty(),
        fn_ptrs: Seq::empty(),
        calls: Seq::empty(),
        macros: Seq::empty(),
        cfg_skips: Seq::empty(),
        call_skips: Seq::empty(),
        fn_ptr_skips: Seq::empty(),
    }
}

/// Two scans one after the other.
pub open spec fn delta_cat(a: ScanDelta, b: ScanDelta) -> ScanDelta {
    ScanDelta {
        effects: a.effects + b.effects,
        fn_ptrs: a.fn_ptrs + b.fn_ptrs,
        calls: a.calls + b.calls,
        macros: a.macros + b.macros,
        cfg_skips: a.cfg_skips + b.cfg_skips,
        call_skips: a.call_skips + b.call_skips,
        fn_ptr_skips: a.fn_ptr_skips + b.fn_ptr_skips,
    }
}

pub open spec fn span_of(l: SrcLocView) -> (nat, nat) {
    (l.start_line as nat, l.end_line as nat)
}

pub open spec fn effects_delta(effs: Seq<EffectInstanceView>) -> ScanDelta {
    ScanDelta { effects: effs, ..empty_delta() }
}

/// An effect found in the enclosing function.
pub open spec fn found(ctx: ScanCtx, callee: Seq<char>, loc: SrcLocView, t: EffectView) -> EffectInstanceView {
    EffectInstanceView { caller: ctx.caller, call_loc: loc, callee, eff_type: t }
}

pub open spec fn opt_path(p: Option<CanonicalPath>) -> Option<Seq<char>> {
    match p {
        Some(q) => Some(q@),
        None => None,
    }
}

/// A call site: recorded in the call graph, and an effect where the callee is
/// foreign, a sink, or an unsafe function called inside unsafe code.
pub open spec fn callsite_delta(
    ctx: ScanCtx,
    callee: Seq<char>,
    ffi: Option<Seq<char>>,
    unsafe_fn: bool,
    loc: SrcLocView,
) -> ScanDelta {
    let effs = match classify_call(callee, unsafe_fn && ctx.in_unsafe, ffi, ctx.sinks) {
        Some(t) => seq![found(ctx, callee, loc, t)],
        None => Seq::empty(),
    };
    ScanDelta { effects: effs, calls: seq![(ctx.caller, callee, loc)], ..empty_delta() }
}

/// A raw pointer cast for each identifier of the cast expression.
pub open spec fn casts_delta(ctx: ScanCtx, ps: Seq<CanonicalPath>, loc: SrcLocView) -> ScanDelta {
    effects_delta(ps.map_values(|p: CanonicalPath| found(ctx, p@, loc, EffectView::RawPtrCast)))
}

/// A raw pointer dereference for each raw pointer identifier.
pub open spec fn derefs_delta(ctx: ScanCtx, ps: Seq<CanonicalPath>, loc: SrcLocView) -> ScanDelta {
    effects_delta(ps.map_values(|p: CanonicalPath| found(ctx, p@, loc, EffectView::RawPointer(p@))))
}

/// A path to a function creates a function pointer, unless it names a constant
/// or static; a mutable static and a foreign static are effects.
pub open spec fn path_delta(ctx: ScanCtx, p: PathExpr) -> ScanDelta {
    let fnptr = if p.is_fn && p.const_or_static {
        ScanDelta { fn_ptr_skips: seq![span_of(p.loc@)], ..empty_delta() }
    } else if p.is_fn {
        ScanDelta { fn_ptrs: seq![found(ctx, p.path@, p.loc@, EffectView::FnPtrCreation)], ..empty_delta() }
    } else {
        empty_delta()
    };
    let st = if p.mut_static {
        seq![found(ctx, p.path@, p.loc@, EffectView::StaticMut(p.path@))]
    } else {
        Seq::empty()
    };
    let ext = if p.ffi_static {
        seq![found(ctx, p.path@, p.loc@, EffectView::StaticExt(p.path@))]
    } else {
        Seq::empty()
    };
    delta_cat(fnptr, effects_delta(st + ext))
}

pub open spec fn callee_delta(ctx: ScanCtx, c: Callee) -> ScanDelta {
    match c {
        Callee::Resolved(r) => callsite_delta(ctx, r.callee@, opt_path(r.ffi), r.unsafe_fn, r.loc@),
        Callee::Macro(l) => ScanDelta { macros: seq![span_of(l@)], ..empty_delta() },
        Callee::Unresolved(l) => ScanDelta { call_skips: seq![span_of(l@)], ..empty_delta() },
    }
}

/// What scanning `e` adds, and whether an assignment's left side is being
/// scanned afterwards, given whether it was before. A union field read on the
/// left of an assignment is no effect; a closure creation is one when its body
/// has effects.
pub open spec fn scan_spec(ctx: ScanCtx, lhs: bool, e: ScanExpr) -> (ScanDelta, bool)
    decreases e,
{
    match e {
        ScanExpr::CfgSkipped(l) => (ScanDelta { cfg_skips: seq![span_of(l@)], ..empty_delta() }, lhs),
        ScanExpr::Macro(l) => (ScanDelta { macros: seq![span_of(l@)], ..empty_delta() }, lhs),
        ScanExpr::Call(args, c) => {
            let r = scan_seq_spec(ctx, lhs, args@);
            (delta_cat(r.0, callee_delta(ctx, c)), r.1)
        },
        ScanExpr::MethodCall(recv, args, m, u, l) => {
            let r1 = scan_spec(ctx, lhs, *recv);
            let r2 = scan_seq_spec(ctx, r1.1, args@);
            (delta_cat(delta_cat(r1.0, r2.0), callsite_delta(ctx, m@, None, u, l@)), r2.1)
        },
        ScanExpr::Path(p) => (path_delta(ctx, p), lhs),
        ScanExpr::RawPtrCast(inner, ps, l) => {
            let r = scan_spec(ctx, lhs, *inner);
            (delta_cat(casts_delta(ctx, ps@, l@), r.0), r.1)
        },
        ScanExpr::Deref(inner, ps, l) => {
            let r = scan_spec(ctx, lhs, *inner);
            (delta_cat(derefs_delta(ctx, ps@, l@), r.0), r.1)
        },
        ScanExpr::Field(base, u, l) => {
            let r = scan_spec(ctx, lhs, *base);
            let f = match u {
                Some(p) => if r.1 {
                    Seq::empty()
                } else {
                    seq![found(ctx, p@, l@, EffectView::UnionField(p@))]
                },
                None => Seq::empty(),
            };
            (delta_cat(r.0, effects_delta(f)), r.1)
        },
        ScanExpr::Assign(a, b) => {
            let r1 = scan_spec(ctx, true, *a);
            let r2 = scan_spec(ctx, false, *b);
            (delta_cat(r1.0, r2.0), r2.1)
        },
        ScanExpr::Closure(body, name, l) => {
            let r = scan_spec(ctx, lhs, *body);
            if r.0.effects.len() > 0 {
                (delta_cat(r.0, effects_delta(seq![found(ctx, name@, l@, EffectView::ClosureCreation)])), r.1)
            } else {
                r
            }
        },
        ScanExpr::Unsafe(stmts) => scan_seq_spec(ScanCtx { in_unsafe: true, ..ctx }, lhs, stmts@),
        ScanExpr::Nested(es) => scan_seq_spec(ctx, lhs, es@),
    }
}

/// Scanning `es` in order.
pub open spec fn scan_seq_spec(ctx: ScanCtx, lhs: bool, es: Seq<ScanExpr>) -> (ScanDelta, bool)
    decreases es,
{
    if es.len() == 0 {
        (empty_delta(), lhs)
    } else {
        let r1 = scan_seq_spec(ctx, lhs, es.subrange(0, es.len() - 1));
        let r2 = scan_spec(ctx, r1.1, es[es.len() - 1]);
        (delta_cat(r1.0, r2.0), r2.1)
    }
}

/// A tracker after the blocks `spans` were added in order.
pub open spec fn add_spans(t: LoCTrackerView, spans: Seq<(nat, nat)>) -> LoCTrackerView
    decreases spans.len(),
{
    if spans.len() == 0 {
        t
    } else {
        let prev = add_spans(t, spans.drop_last());
        add_span(prev, spans.last().0, spans.last().1)
    }
}

/// The lines that multi-line blocks add to a tracker.
pub open spec fn spans_growth(spans: Seq<(nat, nat)>) -> nat
    decreases spans.len(),
{
    if spans.len() == 0 {
        0
    } else {
        spans_growth(spans.drop_last()) + (spans.last().1 - spans.last().0) as nat
    }
}

/// The blocks are well formed and adding them keeps the tracker's counts in range.
pub open spec fn tracker_fits(t: LoCTrackerView, spans: Seq<(nat, nat)>) -> bool {
    &&& forall|i: int| 0 <= i < spans.len() ==> (#[trigger] spans[i]).0 <= spans[i].1
    &&& t.instances + spans.len() < usize::MAX
    &&& t.zero_size_lines + spans.len() < usize::MAX
    &&& t.lines + spans_growth(spans) <= usize::MAX
}

proof fn lemma_add_spans_counts(t: LoCTrackerView, spans: Seq<(nat, nat)>)
    requires
        forall|i: int| 0 <= i < spans.len() ==> (#[trigger] spans[i]).0 <= spans[i].1,
    ensures
        add_spans(t, spans).instances == t.instances + spans.len(),
        add_spans(t, spans).zero_size_lines <= t.zero_size_lines + spans.len(),
        add_spans(t, spans).lines == t.lines + spans_growth(spans),
    decreases spans.len(),
{
    if spans.len() > 0 {
        let d = spans.drop_last();
        assert forall|i: int| 0 <= i < d.len() implies (#[trigger] d[i]).0 <= d[i].1 by {
            assert(d[i] == spans[i]);
        }
        lemma_add_spans_counts(t, d);
        assert(spans[spans.len() - 1] == spans.last());
    }
}

pub proof fn lemma_add_spans_cat(t: LoCTrackerView, a: Seq<(nat, nat)>, b: Seq<(nat, nat)>)
    ensures
        add_spans(t, a + b) == add_spans(add_spans(t, a), b),
    decreases b.len(),
{
    if b.len() == 0 {
        assert(a + b =~= a);
    } else {
        assert((a + b).drop_last() =~= a + b.drop_last());
        assert((a + b).last() == b.last());
        lemma_add_spans_cat(t, a, b.drop_last());
    }
}

proof fn lemma_growth_cat(a: Seq<(nat, nat)>, b: Seq<(nat, nat)>)
    ensures
        spans_growth(a + b) == spans_growth(a) + spans_growth(b),
    decreases b.len(),
{
    if b.len() == 0 {
        assert(a + b =~= a);
    } else {
        assert((a + b).drop_last() =~= a + b.drop_last());
        assert((a + b).last() == b.last());
        lemma_growth_cat(a, b.drop_last());
    }
}

/// Room for `a` then `b` is room for `a`, and after `a` room for `b`.
pub proof fn lemma_tracker_fits_cat(t: LoCTrackerView, a: Seq<(nat, nat)>, b: Seq<(nat, nat)>)
    requires
        tracker_fits(t, a + b),
    ensures
        tracker_fits(t, a),
        tracker_fits(add_spans(t, a), b),
{
    assert forall|i: int| 0 <= i < a.len() implies (#[trigger] a[i]).0 <= a[i].1 by {
        assert(a[i] == (a + b)[i]);
    }
    assert forall|i: int| 0 <= i < b.len() implies (#[trigger] b[i]).0 <= b[i].1 by {
        assert(b[i] == (a + b)[a.len() + i]);
    }
    lemma_growth_cat(a, b);
    lemma_add_spans_counts(t, a);
}

/// The call sites recorded in a call graph: caller, callee and location of each edge.
pub open spec fn call_triples(g: DiGraph<CanonicalPath, SrcLoc>) -> Seq<(Seq<char>, Seq<char>, SrcLocView)> {
    let n = graph_nodes(g);
    graph_edges(g).map_values(|e: (nat, nat, SrcLocView)| (n[e.0 as int], n[e.1 as int], e.2))
}

/// Room in the results for what a scan adds.
pub open spec fn results_fit(r: ScanResults, d: ScanDelta) -> bool {
    &&& graph_nodes(r.call_graph).len() + 2 * d.calls.len() < u32::MAX
    &&& graph_edges(r.call_graph).len() + d.calls.len() < u32::MAX
    &&& tracker_fits(r.skipped_macros@, d.macros)
    &&& tracker_fits(r.skipped_conditional_code@, d.cfg_skips)
    &&& tracker_fits(r.skipped_fn_calls@, d.call_skips)
    &&& tracker_fits(r.skipped_fn_ptrs@, d.fn_ptr_skips)
}

/// `new` is `old` with what a scan in function `caller` added: the effects and
/// function pointers appended, the call sites added to the call graph, the skipped
/// blocks counted, and `caller` among the functions with effects if there is one.
pub open spec fn results_after(old: ScanResults, new: ScanResults, d: ScanDelta, caller: Seq<char>) -> bool {
    &&& new.wf()
    &&& instance_views(new.effects@) == instance_views(old.effects@) + d.effects
    &&& instance_views(new.fn_ptr_effects@) == instance_views(old.fn_ptr_effects@) + d.fn_ptrs
    &&& call_triples(new.call_graph) == call_triples(old.call_graph) + d.calls
    &&& graph_nodes(old.call_graph).is_prefix_of(graph_nodes(new.call_graph))
    &&& graph_nodes(new.call_graph).len() <= graph_nodes(old.call_graph).len() + 2 * d.calls.len()
    &&& path_views(new.fns_with_effects@).no_duplicates()
    &&& path_views(new.fns_with_effects@).to_set() == if d.effects.len() > 0 {
        path_views(old.fns_with_effects@).to_set().insert(caller)
    } else {
        path_views(old.fns_with_effects@).to_set()
    }
    &&& new.skipped_macros@ == add_spans(old.skipped_macros@, d.macros)
    &&& new.skipped_conditional_code@ == add_spans(old.skipped_conditional_code@, d.cfg_skips)
    &&& new.skipped_fn_calls@ == add_spans(old.skipped_fn_calls@, d.call_skips)
    &&& new.skipped_fn_ptrs@ == add_spans(old.skipped_fn_ptrs@, d.fn_ptr_skips)
    &&& new.pub_fns@ == old.pub_fns@
    &&& new.fn_locs@ == old.fn_locs@
    &&& new.fn_loc_tracker == old.fn_loc_tracker
    &&& new.trait_meths == old.trait_meths
    &&& new.total_loc == old.total_loc
    &&& new.unsafe_impls == old.unsafe_impls
    &&& new.unsafe_traits == old.unsafe_traits
    &&& new.skipped_other == old.skipped_other
}

pub proof fn lemma_after_refl(r: ScanResults, caller: Seq<char>)
    requires
        r.wf(),
        path_views(r.fns_with_effects@).no_duplicates(),
    ensures
        results_after(r, r, empty_delta(), caller),
{
    assert(instance_views(r.effects@) + Seq::empty() =~= instance_views(r.effects@));
    assert(instance_views(r.fn_ptr_effects@) + Seq::empty() =~= instance_views(r.fn_ptr_effects@));
    assert(call_triples(r.call_graph) + Seq::empty() =~= call_triples(r.call_graph));
}

proof fn lemma_after_trans(
    r0: ScanResults,
    r1: ScanResults,
    r2: ScanResults,
    d1: ScanDelta,
    d2: ScanDelta,
    caller: Seq<char>,
)
    requires
        results_after(r0, r1, d1, caller),
        results_after(r1, r2, d2, caller),
    ensures
        results_after(r0, r2, delta_cat(d1, d2), caller),
{
    let d = delta_cat(d1, d2);
    assert(instance_views(r0.effects@) + d1.effects + d2.effects =~= instance_views(r0.effects@) + d.effects);
    assert(instance_views(r0.fn_ptr_effects@) + d1.fn_ptrs + d2.fn_ptrs =~= instance_views(r0.fn_ptr_effects@) + d.fn_ptrs);
    assert(call_triples(r0.call_graph) + d1.calls + d2.calls =~= call_triples(r0.call_graph) + d.calls);
    lemma_add_spans_cat(r0.skipped_macros@, d1.macros, d2.macros);
    lemma_add_spans_cat(r0.skipped_conditional_code@, d1.cfg_skips, d2.cfg_skips);
    lemma_add_spans_cat(r0.skipped_fn_calls@, d1.call_skips, d2.call_skips);
    lemma_add_spans_cat(r0.skipped_fn_ptrs@, d1.fn_ptr_skips, d2.fn_ptr_skips);
    let s0 = path_views(r0.fns_with_effects@).to_set();
    if d1.effects.len() > 0 && d2.effects.len() > 0 {
        assert(s0.insert(caller).insert(caller) =~= s0.insert(caller));
    }
}

/// Room for `a` then `b` is room for `a`, and after `a` room for `b`.
proof fn lemma_fit_cat(r0: ScanResults, r1: ScanResults, a: ScanDelta, b: ScanDelta, caller: Seq<char>)
    requires
        results_fit(r0, delta_cat(a, b)),
    ensures
        results_fit(r0, a),
        results_after(r0, r1, a, caller) ==> results_fit(r1, b),
{
    lemma_tracker_fits_cat(r0.skipped_macros@, a.macros, b.macros);
    lemma_tracker_fits_cat(r0.skipped_conditional_code@, a.cfg_skips, b.cfg_skips);
    lemma_tracker_fits_cat(r0.skipped_fn_calls@, a.call_skips, b.call_skips);
    lemma_tracker_fits_cat(r0.skipped_fn_ptrs@, a.fn_ptr_skips, b.fn_ptr_skips);
    if results_after(r0, r1, a, caller) {
        assert(graph_edges(r1.call_graph).len() == call_triples(r1.call_graph).len());
        assert(graph_edges(r0.call_graph).len() == call_triples(r0.call_graph).len());
    }
}

pub proof fn lemma_call_triples_push(
    r0: ScanResults,
    r1: ScanResults,
    caller: Seq<char>,
    callee: Seq<char>,
    loc: SrcLocView,
)
    requires
        r0.wf(),
        graph_nodes(r0.call_graph).is_prefix_of(graph_nodes(r1.call_graph)),
        exists|a: nat, b: nat|
            graph_nodes(r1.call_graph)[a as int] == caller && graph_nodes(r1.call_graph)[b as int] == callee
                && graph_edges(r1.call_graph) == graph_edges(r0.call_graph).push((a, b, loc)),
    ensures
        call_triples(r1.call_graph) == call_triples(r0.call_graph).push((caller, callee, loc)),
{
    let n0 = graph_nodes(r0.call_graph);
    let n1 = graph_nodes(r1.call_graph);
    let e0 = graph_edges(r0.call_graph);
    let (a, b) = choose|a: nat, b: nat|
        n1[a as int] == caller && n1[b as int] == callee && graph_edges(r1.call_graph) == e0.push((a, b, loc));
    assert forall|j: int| 0 <= j < e0.len() implies call_triples(r1.call_graph)[j] == call_triples(r0.call_graph)[j] by {
        assert(graph_edges(r1.call_graph)[j] == e0[j]);
        assert(e0[j].0 < n0.len() && e0[j].1 < n0.len());
        assert(n1[e0[j].0 as int] == n0[e0[j].0 as int]);
        assert(n1[e0[j].1 as int] == n0[e0[j].1 as int]);
    }
    assert(call_triples(r1.call_graph)[e0.len() as int] == (caller, callee, loc));
    assert(call_triples(r1.call_graph) =~= call_triples(r0.call_graph).push((caller, callee, loc)));
}

/// Counts a skipped block in a tracker.
pub(crate) fn skip_block(t: &mut LoCTracker, loc: &SrcLoc)
    requires
        tracker_fits(old(t)@, seq![span_of(loc@)]),
    ensures
        final(t)@ == add_spans(old(t)@, seq![span_of(loc@)]),
{
    let ghost s = seq![span_of(loc@)];
    assert(s[0] == span_of(loc@));
    assert(s.drop_last() =~= Seq::<(nat, nat)>::empty());
    assert(spans_growth(s) == spans_growth(Seq::<(nat, nat)>::empty()) + (s.last().1 - s.last().0) as nat);
    t.add(loc.start_line(), loc.end_line());
    assert(add_spans(old(t)@, Seq::<(nat, nat)>::empty()) == old(t)@);
    assert(s.last() == span_of(loc@));
}

/// The state of a scan inside a function body.
pub struct Scanner {
    /// The enclosing function.
    pub caller: CanonicalPath,
    /// Whether the scan is inside an unsafe block or function.
    pub scope_unsafe: bool,
    /// Whether the left side of an assignment is being scanned: reading a union
    /// field there is a write, which is safe.
    pub scope_assign_lhs: bool,
    /// The sink patterns to look for.
    pub sinks: Vec<IdentPath>,
    /// Where the results accumulate.
    pub results: ScanResults,
}

impl Scanner {
    pub open spec fn ctx(&self) -> ScanCtx {
        ScanCtx { caller: self.caller@, in_unsafe: self.scope_unsafe, sinks: self.sinks@.map_values(|p: IdentPath| p@) }
    }

    /// The results are well formed and name each function with effects once.
    pub open spec fn ready(&self) -> bool {
        &&& self.results.wf()
        &&& path_views(self.results.fns_with_effects@).no_duplicates()
    }

    /// `new` is `old` with only its results changed, as a scan that added `d` does.
    pub open spec fn advanced(old: Scanner, new: Scanner, d: ScanDelta) -> bool {
        &&& new.caller == old.caller
        &&& new.scope_unsafe == old.scope_unsafe
        &&& new.sinks == old.sinks
        &&& results_after(old.results, new.results, d, old.caller@)
    }

    /// Records an effect found in the enclosing function.
    pub(crate) fn push_found(&mut self, callee: CanonicalPath, loc: SrcLoc, t: Effect)
        requires
            old(self).ready(),
        ensures
            Scanner::advanced(*old(self), *final(self), effects_delta(seq![found(old(self).ctx(), callee@, loc@, t@)])),
            final(self).scope_assign_lhs == old(self).scope_assign_lhs,
    {
        let ghost e = found(self.ctx(), callee@, loc@, t@);
        let eff = EffectInstance::new_effect(self.caller.clone(), callee, loc, t);
        self.results.effects.push(eff);
        insert_path(&mut self.results.fns_with_effects, &self.caller);
        proof {
            assert(instance_views(self.results.effects@) =~= instance_views(old(self).results.effects@) + seq![e]);
            assert(instance_views(self.results.fn_ptr_effects@) =~= instance_views(old(self).results.fn_ptr_effects@) + Seq::empty());
            assert(call_triples(self.results.call_graph) =~= call_triples(old(self).results.call_graph) + Seq::empty());
        }
    }

    /// Records the creation of a function pointer, to be checked at the end of the scan.
    fn push_fn_ptr(&mut self, callee: CanonicalPath, loc: SrcLoc)
        requires
            old(self).ready(),
        ensures
            Scanner::advanced(*old(self), *final(self), ScanDelta {
                fn_ptrs: seq![found(old(self).ctx(), callee@, loc@, EffectView::FnPtrCreation)],
                ..empty_delta()
            }),
            final(self).scope_assign_lhs == old(self).scope_assign_lhs,
    {
        let ghost e = found(self.ctx(), callee@, loc@, EffectView::FnPtrCreation);
        let eff = EffectInstance::new_effect(self.caller.clone(), callee, loc, Effect::FnPtrCreation);
        self.results.fn_ptr_effects.push(eff);
        proof {
            assert(instance_views(self.results.effects@) =~= instance_views(old(self).results.effects@) + Seq::empty());
            assert(instance_views(self.results.fn_ptr_effects@) =~= instance_views(old(self).results.fn_ptr_effects@) + seq![e]);
            assert(call_triples(self.results.call_graph) =~= call_triples(old(self).results.call_graph) + Seq::empty());
        }
    }

    /// Records a call site: an edge of the call graph, and an effect if the call is one.
    fn record_call(&mut self, callee: &CanonicalPath, ffi: Option<CanonicalPath>, unsafe_fn: bool, loc: &SrcLoc)
        requires
            old(self).ready(),
            results_fit(old(self).results, callsite_delta(old(self).ctx(), callee@, opt_path(ffi), unsafe_fn, loc@)),
        ensures
            Scanner::advanced(*old(self), *final(self), callsite_delta(old(self).ctx(), callee@, opt_path(ffi), unsafe_fn, loc@)),
            final(self).scope_assign_lhs == old(self).scope_assign_lhs,
    {
        let ghost ctx = self.ctx();
        let ghost d = callsite_delta(ctx, callee@, opt_path(ffi), unsafe_fn, loc@);
        self.results.add_call(&self.caller, callee, loc.clone());
        proof {
            lemma_call_triples_push(old(self).results, self.results, self.caller@, callee@, loc@);
        }
        let is_unsafe = unsafe_fn && self.scope_unsafe;
        let ghost ffi_v = opt_path(ffi);
        let ghost mid = *self;
        proof {
            assert(self.sinks@.map_values(|p: IdentPath| p@) =~= ctx.sinks);
        }
        match EffectInstance::new_call(self.caller.clone(), callee.clone(), loc.clone(), is_unsafe, ffi, &self.sinks) {
            Some(eff) => {
                self.results.effects.push(eff);
                insert_path(&mut self.results.fns_with_effects, &self.caller);
                proof {
                    assert(instance_views(self.results.effects@) =~= instance_views(old(self).results.effects@) + d.effects);
                }
            },
            None => {
                proof {
                    assert(instance_views(self.results.effects@) =~= instance_views(old(self).results.effects@) + d.effects);
                }
            },
        }
        proof {
            assert(instance_views(self.results.fn_ptr_effects@) =~= instance_views(old(self).results.fn_ptr_effects@) + Seq::empty());
            assert(call_triples(old(self).results.call_graph).push((ctx.caller, callee@, loc@))
                =~= call_triples(old(self).results.call_graph) + d.calls);
        }
    }

    /// Counts a skipped macro.
    pub(crate) fn skip_macro(&mut self, loc: &SrcLoc)
        requires
            old(self).ready(),
            tracker_fits(old(self).results.skipped_macros@, seq![span_of(loc@)]),
        ensures
            Scanner::advanced(*old(self), *final(self), ScanDelta { macros: seq![span_of(loc@)], ..empty_delta() }),
            final(self).scope_assign_lhs == old(self).scope_assign_lhs,
    {
        skip_block(&mut self.results.skipped_macros, loc);
        proof { lemma_after_refl(old(self).results, self.caller@); }
    }

    /// Counts code switched off by `cfg`.
    pub(crate) fn skip_cfg_code(&mut self, loc: &SrcLoc)
        requires
            old(self).ready(),
            tracker_fits(old(self).results.skipped_conditional_code@, seq![span_of(loc@)]),
        ensures
            Scanner::advanced(*old(self), *final(self), ScanDelta { cfg_skips: seq![span_of(loc@)], ..empty_delta() }),
            final(self).scope_assign_lhs == old(self).scope_assign_lhs,
    {
        skip_block(&mut self.results.skipped_conditional_code, loc);
        proof { lemma_after_refl(old(self).results, self.caller@); }
    }

    /// Counts a call whose callee could not be resolved.
    pub(crate) fn skip_call(&mut self, loc: &SrcLoc)
        requires
            old(self).ready(),
            tracker_fits(old(self).results.skipped_fn_calls@, seq![span_of(loc@)]),
        ensures
            Scanner::advanced(*old(self), *final(self), ScanDelta { call_skips: seq![span_of(loc@)], ..empty_delta() }),
            final(self).scope_assign_lhs == old(self).scope_assign_lhs,
    {
        skip_block(&mut self.results.skipped_fn_calls, loc);
        proof { lemma_after_refl(old(self).results, self.caller@); }
    }

    /// Counts a path to a constant or static function.
    pub(crate) fn skip_fn_ptr(&mut self, loc: &SrcLoc)
        requires
            old(self).ready(),
            tracker_fits(old(self).results.skipped_fn_ptrs@, seq![span_of(loc@)]),
        ensures
            Scanner::advanced(*old(self), *final(self), ScanDelta { fn_ptr_skips: seq![span_of(loc@)], ..empty_delta() }),
            final(self).scope_assign_lhs == old(self).scope_assign_lhs,
    {
        skip_block(&mut self.results.skipped_fn_ptrs, loc);
        proof { lemma_after_refl(old(self).results, self.caller@); }
    }
}

/// Room for scanning `es` is room for scanning each prefix of it.
proof fn lemma_seq_prefix_fit(r: ScanResults, ctx: ScanCtx, lhs: bool, es: Seq<ScanExpr>, k: int)
    requires
        results_fit(r, scan_seq_spec(ctx, lhs, es).0),
        0 <= k <= es.len(),
    ensures
        results_fit(r, scan_seq_spec(ctx, lhs, es.take(k)).0),
    decreases es.len() - k,
{
    if k == es.len() {
        assert(es.take(k) =~= es);
    } else {
        lemma_seq_prefix_fit(r, ctx, lhs, es, k + 1);
        let t = es.take(k + 1);
        assert(t.subrange(0, k) =~= es.take(k));
        let pre = scan_seq_spec(ctx, lhs, es.take(k));
        lemma_fit_cat(r, r, pre.0, scan_spec(ctx, pre.1, t[k]).0, ctx.caller);
    }
}

fn clone_opt_path(p: &Option<CanonicalPath>) -> (r: Option<CanonicalPath>)
    ensures
        opt_path(r) == opt_path(*p),
{
    match p {
        Some(q) => Some(q.clone()),
        None => None,
    }
}

impl Scanner {
    /// A scanner inside function `fn_name`, outside unsafe code, looking for the
    /// default sinks.
    pub fn new(fn_name: CanonicalPath, results: ScanResults) -> (r: Self)
        ensures
            r.caller@ == fn_name@,
            !r.scope_unsafe,
            !r.scope_assign_lhs,
            r.sinks@.map_values(|p: IdentPath| p@) == crate::sink::sink_patterns().map_values(
                |s: Seq<char>| crate::text::replace_hyphens_spec(s),
            ),
            r.results == results,
    {
        Scanner {
            caller: fn_name,
            scope_unsafe: false,
            scope_assign_lhs: false,
            sinks: crate::sink::Sink::default_sinks(),
            results,
        }
    }

    /// Adds sink patterns to look for.
    pub fn add_sinks(&mut self, new_sinks: Vec<IdentPath>)
        ensures
            final(self).sinks@ == old(self).sinks@ + new_sinks@,
            final(self).caller == old(self).caller,
            final(self).scope_unsafe == old(self).scope_unsafe,
            final(self).scope_assign_lhs == old(self).scope_assign_lhs,
            final(self).results == old(self).results,
    {
        let mut v = new_sinks;
        self.sinks.append(&mut v);
    }

    /// Records one effect per path, all at `loc`: raw pointer dereferences if
    /// `deref`, else casts to raw pointers.
    fn push_each(&mut self, ps: &Vec<CanonicalPath>, loc: &SrcLoc, deref: bool)
        requires
            old(self).ready(),
        ensures
            Scanner::advanced(*old(self), *final(self), if deref {
                derefs_delta(old(self).ctx(), ps@, loc@)
            } else {
                casts_delta(old(self).ctx(), ps@, loc@)
            }),
            final(self).scope_assign_lhs == old(self).scope_assign_lhs,
    {
        let ghost ctx = self.ctx();
        let ghost r0 = self.results;
        proof {
            lemma_after_refl(r0, ctx.caller);
            assert(derefs_delta(ctx, ps@.take(0), loc@) =~= empty_delta());
            assert(casts_delta(ctx, ps@.take(0), loc@) =~= empty_delta());
        }
        let mut j: usize = 0;
        while j < ps.len()
            invariant
                j <= ps.len(),
                self.caller == old(self).caller,
                self.scope_unsafe == old(self).scope_unsafe,
                self.sinks == old(self).sinks,
                self.scope_assign_lhs == old(self).scope_assign_lhs,
                ctx == old(self).ctx(),
                r0 == old(self).results,
                self.ready(),
                results_after(r0, self.results, if deref {
                    derefs_delta(ctx, ps@.take(j as int), loc@)
                } else {
                    casts_delta(ctx, ps@.take(j as int), loc@)
                }, ctx.caller),
            decreases ps.len() - j,
        {
            let p = &ps[j];
            let ghost before = self.results;
            let ghost dprev = if deref {
                derefs_delta(ctx, ps@.take(j as int), loc@)
            } else {
                casts_delta(ctx, ps@.take(j as int), loc@)
            };
            let ghost e = if deref {
                found(ctx, p@, loc@, EffectView::RawPointer(p@))
            } else {
                found(ctx, p@, loc@, EffectView::RawPtrCast)
            };
            if deref {
                self.push_found(p.clone(), loc.clone(), Effect::RawPointer(p.clone()));
            } else {
                self.push_found(p.clone(), loc.clone(), Effect::RawPtrCast);
            }
            proof {
                lemma_after_trans(r0, before, self.results, dprev, effects_delta(seq![e]), ctx.caller);
                assert(ps@.take(j + 1) =~= ps@.take(j as int).push(*p));
                if deref {
                    assert(delta_cat(dprev, effects_delta(seq![e])) =~= derefs_delta(ctx, ps@.take(j + 1), loc@));
                } else {
                    assert(delta_cat(dprev, effects_delta(seq![e])) =~= casts_delta(ctx, ps@.take(j + 1), loc@));
                }
            }
            j = j + 1;
        }
        proof {
            assert(ps@.take(ps.len() as int) =~= ps@);
        }
    }

    /// Records the callee of a call.
    fn scan_callee(&mut self, c: &Callee)
        requires
            old(self).ready(),
            results_fit(old(self).results, callee_delta(old(self).ctx(), *c)),
        ensures
            Scanner::advanced(*old(self), *final(self), callee_delta(old(self).ctx(), *c)),
            final(self).scope_assign_lhs == old(self).scope_assign_lhs,
    {
        match c {
            Callee::Resolved(r) => {
                let ffi = clone_opt_path(&r.ffi);
                self.record_call(&r.callee, ffi, r.unsafe_fn, &r.loc);
            },
            Callee::Macro(l) => {
                self.skip_macro(l);
            },
            Callee::Unresolved(l) => {
                self.skip_call(l);
            },
        }
    }

    /// Scans `es` in order.
    pub fn scan_seq(&mut self, es: &Vec<ScanExpr>)
        requires
            old(self).ready(),
            results_fit(old(self).results, scan_seq_spec(old(self).ctx(), old(self).scope_assign_lhs, es@).0),
        ensures
            Scanner::advanced(*old(self), *final(self), scan_seq_spec(old(self).ctx(), old(self).scope_assign_lhs, es@).0),
            final(self).scope_assign_lhs == scan_seq_spec(old(self).ctx(), old(self).scope_assign_lhs, es@).1,
        decreases es,
    {
        let ghost ctx = self.ctx();
        let ghost lhs0 = self.scope_assign_lhs;
        let ghost r0 = self.results;
        proof {
            lemma_after_refl(r0, ctx.caller);
            assert(es@.take(0) =~= Seq::<ScanExpr>::empty());
        }
        let mut i: usize = 0;
        while i < es.len()
            invariant
                i <= es.len(),
                self.caller == old(self).caller,
                self.scope_unsafe == old(self).scope_unsafe,
                self.sinks == old(self).sinks,
                ctx == old(self).ctx(),
                lhs0 == old(self).scope_assign_lhs,
                r0 == old(self).results,
                self.ready(),
                results_fit(r0, scan_seq_spec(ctx, lhs0, es@).0),
                results_after(r0, self.results, scan_seq_spec(ctx, lhs0, es@.take(i as int)).0, ctx.caller),
                self.scope_assign_lhs == scan_seq_spec(ctx, lhs0, es@.take(i as int)).1,
            decreases es.len() - i,
        {
            let ghost pre = scan_seq_spec(ctx, lhs0, es@.take(i as int));
            let ghost step = scan_spec(ctx, pre.1, es@[i as int]);
            let ghost r1 = self.results;
            proof {
                assert(es@.take(i + 1).subrange(0, i as int) =~= es@.take(i as int));
                assert(es@.take(i + 1)[i as int] == es@[i as int]);
                lemma_seq_prefix_fit(r0, ctx, lhs0, es@, i + 1);
                lemma_fit_cat(r0, r1, pre.0, step.0, ctx.caller);
            }
            self.scan_expr(&es[i]);
            proof {
                lemma_after_trans(r0, r1, self.results, pre.0, step.0, ctx.caller);
            }
            i = i + 1;
        }
        proof {
            assert(es@.take(es.len() as int) =~= es@);
        }
    }
}

impl Scanner {
    /// Scans the statement or expression `e` of the enclosing function: what it
    /// adds to the results is exactly `scan_spec`.
    pub fn scan_expr(&mut self, e: &ScanExpr)
        requires
            old(self).ready(),
            results_fit(old(self).results, scan_spec(old(self).ctx(), old(self).scope_assign_lhs, *e).0),
        ensures
            Scanner::advanced(*old(self), *final(self), scan_spec(old(self).ctx(), old(self).scope_assign_lhs, *e).0),
            final(self).scope_assign_lhs == scan_spec(old(self).ctx(), old(self).scope_assign_lhs, *e).1,
        decreases e,
    {
        let ghost ctx = self.ctx();
        let ghost lhs0 = self.scope_assign_lhs;
        let ghost r0 = self.results;
        match e {
            ScanExpr::CfgSkipped(l) => {
                self.skip_cfg_code(l);
            },
            ScanExpr::Macro(l) => {
                self.skip_macro(l);
            },
            ScanExpr::Call(args, c) => {
                let ghost s1 = scan_seq_spec(ctx, lhs0, args@);
                let ghost d2 = callee_delta(ctx, *c);
                proof {
                    lemma_fit_cat(r0, r0, s1.0, d2, ctx.caller);
                }
                self.scan_seq(args);
                let ghost r1 = self.results;
                proof {
                    lemma_fit_cat(r0, r1, s1.0, d2, ctx.caller);
                }
                self.scan_callee(c);
                proof {
                    lemma_after_trans(r0, r1, self.results, s1.0, d2, ctx.caller);
                }
            },
            ScanExpr::MethodCall(recv, args, m, u, l) => {
                let ghost s1 = scan_spec(ctx, lhs0, **recv);
                let ghost s2 = scan_seq_spec(ctx, s1.1, args@);
                let ghost d3 = callsite_delta(ctx, m@, None, *u, l@);
                proof {
                    lemma_fit_cat(r0, r0, delta_cat(s1.0, s2.0), d3, ctx.caller);
                    lemma_fit_cat(r0, r0, s1.0, s2.0, ctx.caller);
                }
                self.scan_expr(recv);
                let ghost r1 = self.results;
                proof {
                    lemma_fit_cat(r0, r1, s1.0, s2.0, ctx.caller);
                }
                self.scan_seq(args);
                let ghost r2 = self.results;
                proof {
                    lemma_after_trans(r0, r1, r2, s1.0, s2.0, ctx.caller);
                    lemma_fit_cat(r0, r2, delta_cat(s1.0, s2.0), d3, ctx.caller);
                }
                self.record_call(m, None, *u, l);
                proof {
                    lemma_after_trans(r0, r2, self.results, delta_cat(s1.0, s2.0), d3, ctx.caller);
                }
            },
            ScanExpr::Path(p) => {
                let ghost d = path_delta(ctx, *p);
                let ghost mut acc = empty_delta();
                proof {
                    lemma_after_refl(r0, ctx.caller);
                }
                if p.is_fn {
                    if p.const_or_static {
                        proof {
                            assert(d.fn_ptr_skips =~= seq![span_of(p.loc@)]);
                        }
                        self.skip_fn_ptr(&p.loc);
                        proof {
                            acc = ScanDelta { fn_ptr_skips: seq![span_of(p.loc@)], ..empty_delta() };
                        }
                    } else {
                        self.push_fn_ptr(p.path.clone(), p.loc.clone());
                        proof {
                            acc = ScanDelta {
                                fn_ptrs: seq![found(ctx, p.path@, p.loc@, EffectView::FnPtrCreation)],
                                ..empty_delta()
                            };
                        }
                    }
                }
                if p.mut_static {
                    let ghost before = self.results;
                    let ghost x = effects_delta(seq![found(ctx, p.path@, p.loc@, EffectView::StaticMut(p.path@))]);
                    self.push_found(p.path.clone(), p.loc.clone(), Effect::StaticMut(p.path.clone()));
                    proof {
                        lemma_after_trans(r0, before, self.results, acc, x, ctx.caller);
                        acc = delta_cat(acc, x);
                    }
                }
                if p.ffi_static {
                    let ghost before = self.results;
                    let ghost x = effects_delta(seq![found(ctx, p.path@, p.loc@, EffectView::StaticExt(p.path@))]);
                    self.push_found(p.path.clone(), p.loc.clone(), Effect::StaticExt(p.path.clone()));
                    proof {
                        lemma_after_trans(r0, before, self.results, acc, x, ctx.caller);
                        acc = delta_cat(acc, x);
                    }
                }
                proof {
                    assert(acc =~= d);
                }
            },
            ScanExpr::RawPtrCast(inner, ps, l) => {
                let ghost d1 = casts_delta(ctx, ps@, l@);
                let ghost s2 = scan_spec(ctx, lhs0, **inner);
                proof {
                    lemma_fit_cat(r0, r0, d1, s2.0, ctx.caller);
                }
                self.push_each(ps, l, false);
                let ghost r1 = self.results;
                proof {
                    lemma_fit_cat(r0, r1, d1, s2.0, ctx.caller);
                }
                self.scan_expr(inner);
                proof {
                    lemma_after_trans(r0, r1, self.results, d1, s2.0, ctx.caller);
                }
            },
            ScanExpr::Deref(inner, ps, l) => {
                let ghost d1 = derefs_delta(ctx, ps@, l@);
                let ghost s2 = scan_spec(ctx, lhs0, **inner);
                proof {
                    lemma_fit_cat(r0, r0, d1, s2.0, ctx.caller);
                }
                self.push_each(ps, l, true);
                let ghost r1 = self.results;
                proof {
                    lemma_fit_cat(r0, r1, d1, s2.0, ctx.caller);
                }
                self.scan_expr(inner);
                proof {
                    lemma_after_trans(r0, r1, self.results, d1, s2.0, ctx.caller);
                }
            },
            ScanExpr::Field(base, u, l) => {
                let ghost s1 = scan_spec(ctx, lhs0, **base);
                let ghost f = match u {
                    Some(p) => if s1.1 {
                        Seq::empty()
                    } else {
                        seq![found(ctx, p@, l@, EffectView::UnionField(p@))]
                    },
                    None => Seq::empty(),
                };
                proof {
                    lemma_fit_cat(r0, r0, s1.0, effects_delta(f), ctx.caller);
                }
                self.scan_expr(base);
                let ghost r1 = self.results;
                let read = match u {
                    Some(_) => !self.scope_assign_lhs,
                    None => false,
                };
                if read {
                    match u {
                        Some(p) => {
                            self.push_found(p.clone(), l.clone(), Effect::UnionField(p.clone()));
                            proof {
                                lemma_after_trans(r0, r1, self.results, s1.0, effects_delta(f), ctx.caller);
                            }
                        },
                        None => {},
                    }
                } else {
                    proof {
                        assert(delta_cat(s1.0, effects_delta(f)) =~= s1.0);
                    }
                }
            },
            ScanExpr::Assign(a, b) => {
                self.scope_assign_lhs = true;
                let ghost s1 = scan_spec(ctx, true, **a);
                let ghost s2 = scan_spec(ctx, false, **b);
                proof {
                    lemma_fit_cat(r0, r0, s1.0, s2.0, ctx.caller);
                }
                self.scan_expr(a);
                self.scope_assign_lhs = false;
                let ghost r1 = self.results;
                proof {
                    lemma_fit_cat(r0, r1, s1.0, s2.0, ctx.caller);
                }
                self.scan_expr(b);
                proof {
                    lemma_after_trans(r0, r1, self.results, s1.0, s2.0, ctx.caller);
                }
            },
            ScanExpr::Closure(body, name, l) => {
                let ghost s1 = scan_spec(ctx, lhs0, **body);
                let ghost x = effects_delta(seq![found(ctx, name@, l@, EffectView::ClosureCreation)]);
                proof {
                    if s1.0.effects.len() > 0 {
                        lemma_fit_cat(r0, r0, s1.0, x, ctx.caller);
                    }
                }
                let n: usize = self.results.effects.len();
                self.scan_expr(body);
                let ghost r1 = self.results;
                proof {
                    assert(instance_views(r1.effects@).len() == r1.effects@.len());
                    assert(instance_views(r0.effects@).len() == r0.effects@.len());
                }
                if self.results.effects.len() > n {
                    self.push_found(name.clone(), l.clone(), Effect::ClosureCreation);
                    proof {
                        lemma_after_trans(r0, r1, self.results, s1.0, x, ctx.caller);
                    }
                }
            },
            ScanExpr::Unsafe(stmts) => {
                let saved = self.scope_unsafe;
                self.scope_unsafe = true;
                proof {
                    assert(self.ctx() == ScanCtx { in_unsafe: true, ..ctx });
                }
                self.scan_seq(stmts);
                self.scope_unsafe = saved;
            },
            ScanExpr::Nested(es) => {
                self.scan_seq(es);
            },
        }
    }

    /// Scans the body of function `fn_name`, which is unsafe if `unsafe_fn`;
    /// afterwards the scanner is back in the enclosing scope.
    pub fn scan_fn_body(&mut self, fn_name: &CanonicalPath, unsafe_fn: bool, body: &Vec<ScanExpr>)
        requires
            old(self).ready(),
            results_fit(old(self).results, scan_seq_spec(
                ScanCtx { caller: fn_name@, in_unsafe: old(self).scope_unsafe || unsafe_fn, ..old(self).ctx() },
                old(self).scope_assign_lhs,
                body@,
            ).0),
        ensures
            final(self).caller == old(self).caller,
            final(self).scope_unsafe == old(self).scope_unsafe,
            final(self).sinks == old(self).sinks,
            ({
                let r = scan_seq_spec(
                    ScanCtx { caller: fn_name@, in_unsafe: old(self).scope_unsafe || unsafe_fn, ..old(self).ctx() },
                    old(self).scope_assign_lhs,
                    body@,
                );
                &&& results_after(old(self).results, final(self).results, r.0, fn_name@)
                &&& final(self).scope_assign_lhs == r.1
            }),
    {
        let mut other = fn_name.clone();
        std::mem::swap(&mut self.caller, &mut other);
        let saved_unsafe = self.scope_unsafe;
        self.scope_unsafe = saved_unsafe || unsafe_fn;
        self.scan_seq(body);
        std::mem::swap(&mut self.caller, &mut other);
        self.scope_unsafe = saved_unsafe;
    }
}

/// Every effect and function pointer in `d` is attributed to `caller`.
pub open spec fn all_in(d: ScanDelta, caller: Seq<char>) -> bool {
    &&& forall|i: int| 0 <= i < d.effects.len() ==> (#[trigger] d.effects[i]).caller == caller
    &&& forall|i: int| 0 <= i < d.fn_ptrs.len() ==> (#[trigger] d.fn_ptrs[i]).caller == caller
}

proof fn lemma_all_in_cat(a: ScanDelta, b: ScanDelta, caller: Seq<char>)
    requires
        all_in(a, caller),
        all_in(b, caller),
    ensures
        all_in(delta_cat(a, b), caller),
{
    let d = delta_cat(a, b);
    assert forall|i: int| 0 <= i < d.effects.len() implies (#[trigger] d.effects[i]).caller == caller by {
        if i < a.effects.len() {
            assert(d.effects[i] == a.effects[i]);
        } else {
            assert(d.effects[i] == b.effects[i - a.effects.len()]);
        }
    }
    assert forall|i: int| 0 <= i < d.fn_ptrs.len() implies (#[trigger] d.fn_ptrs[i]).caller == caller by {
        if i < a.fn_ptrs.len() {
            assert(d.fn_ptrs[i] == a.fn_ptrs[i]);
        } else {
            assert(d.fn_ptrs[i] == b.fn_ptrs[i - a.fn_ptrs.len()]);
        }
    }
}

/// Whatever a statement or expression holds, every effect and function pointer
/// that scanning it finds is attributed to the enclosing function.
pub proof fn law_effects_in_enclosing_fn(ctx: ScanCtx, lhs: bool, e: ScanExpr)
    ensures
        all_in(scan_spec(ctx, lhs, e).0, ctx.caller),
    decreases e,
{
    match e {
        ScanExpr::Call(args, c) => {
            lemma_seq_effects_in_enclosing_fn(ctx, lhs, args@);
            let r = scan_seq_spec(ctx, lhs, args@);
            lemma_all_in_cat(r.0, callee_delta(ctx, c), ctx.caller);
        },
        ScanExpr::MethodCall(recv, args, m, u, l) => {
            law_effects_in_enclosing_fn(ctx, lhs, *recv);
            let r1 = scan_spec(ctx, lhs, *recv);
            lemma_seq_effects_in_enclosing_fn(ctx, r1.1, args@);
            let r2 = scan_seq_spec(ctx, r1.1, args@);
            lemma_all_in_cat(r1.0, r2.0, ctx.caller);
            lemma_all_in_cat(delta_cat(r1.0, r2.0), callsite_delta(ctx, m@, None, u, l@), ctx.caller);
        },
        ScanExpr::Path(p) => {
            let d = path_delta(ctx, p);
            assert(all_in(d, ctx.caller));
        },
        ScanExpr::RawPtrCast(inner, ps, l) => {
            law_effects_in_enclosing_fn(ctx, lhs, *inner);
            lemma_all_in_cat(casts_delta(ctx, ps@, l@), scan_spec(ctx, lhs, *inner).0, ctx.caller);
        },
        ScanExpr::Deref(inner, ps, l) => {
            law_effects_in_enclosing_fn(ctx, lhs, *inner);
            lemma_all_in_cat(derefs_delta(ctx, ps@, l@), scan_spec(ctx, lhs, *inner).0, ctx.caller);
        },
        ScanExpr::Field(base, u, l) => {
            law_effects_in_enclosing_fn(ctx, lhs, *base);
            let r = scan_spec(ctx, lhs, *base);
            let f = match u {
                Some(p) => if r.1 {
                    Seq::empty()
                } else {
                    seq![found(ctx, p@, l@, EffectView::UnionField(p@))]
                },
                None => Seq::empty(),
            };
            lemma_all_in_cat(r.0, effects_delta(f), ctx.caller);
        },
        ScanExpr::Assign(a, b) => {
            law_effects_in_enclosing_fn(ctx, true, *a);
            law_effects_in_enclosing_fn(ctx, false, *b);
            lemma_all_in_cat(scan_spec(ctx, true, *a).0, scan_spec(ctx, false, *b).0, ctx.caller);
        },
        ScanExpr::Closure(body, name, l) => {
            law_effects_in_enclosing_fn(ctx, lhs, *body);
            let r = scan_spec(ctx, lhs, *body);
            lemma_all_in_cat(r.0, effects_delta(seq![found(ctx, name@, l@, EffectView::ClosureCreation)]), ctx.caller);
        },
        ScanExpr::Unsafe(stmts) => {
            lemma_seq_effects_in_enclosing_fn(ScanCtx { in_unsafe: true, ..ctx }, lhs, stmts@);
        },
        ScanExpr::Nested(es) => {
            lemma_seq_effects_in_enclosing_fn(ctx, lhs, es@);
        },
        _ => {},
    }
}

pub proof fn lemma_seq_effects_in_enclosing_fn(ctx: ScanCtx, lhs: bool, es: Seq<ScanExpr>)
    ensures
        all_in(scan_seq_spec(ctx, lhs, es).0, ctx.caller),
    decreases es,
{
    if es.len() > 0 {
        let pre = es.subrange(0, es.len() - 1);
        lemma_seq_effects_in_enclosing_fn(ctx, lhs, pre);
        let r1 = scan_seq_spec(ctx, lhs, pre);
        law_effects_in_enclosing_fn(ctx, r1.1, es[es.len() - 1]);
        lemma_all_in_cat(r1.0, scan_spec(ctx, r1.1, es[es.len() - 1]).0, ctx.caller);
    }
}

/// Whether `e` holds an unsafe block.
pub open spec fn has_unsafe_block(e: ScanExpr) -> bool
    decreases e,
{
    match e {
        ScanExpr::Call(args, _) => seq_has_unsafe_block(args@),
        ScanExpr::MethodCall(recv, args, _, _, _) => has_unsafe_block(*recv) || seq_has_unsafe_block(args@),
        ScanExpr::RawPtrCast(inner, _, _) => has_unsafe_block(*inner),
        ScanExpr::Deref(inner, _, _) => has_unsafe_block(*inner),
        ScanExpr::Field(base, _, _) => has_unsafe_block(*base),
        ScanExpr::Assign(a, b) => has_unsafe_block(*a) || has_unsafe_block(*b),
        ScanExpr::Closure(body, _, _) => has_unsafe_block(*body),
        ScanExpr::Unsafe(_) => true,
        ScanExpr::Nested(es) => seq_has_unsafe_block(es@),
        _ => false,
    }
}

/// Whether one of `es` holds an unsafe block.
pub open spec fn seq_has_unsafe_block(es: Seq<ScanExpr>) -> bool
    decreases es,
{
    if es.len() == 0 {
        false
    } else {
        seq_has_unsafe_block(es.subrange(0, es.len() - 1)) || has_unsafe_block(es[es.len() - 1])
    }
}

/// No effect in `d` is the call of an unsafe function.
pub open spec fn no_unsafe_calls(d: ScanDelta) -> bool {
    forall|i: int| 0 <= i < d.effects.len() ==> !((#[trigger] d.effects[i]).eff_type is UnsafeCall)
}

proof fn lemma_no_unsafe_calls_cat(a: ScanDelta, b: ScanDelta)
    requires
        no_unsafe_calls(a),
        no_unsafe_calls(b),
    ensures
        no_unsafe_calls(delta_cat(a, b)),
{
    let d = delta_cat(a, b);
    assert forall|i: int| 0 <= i < d.effects.len() implies !((#[trigger] d.effects[i]).eff_type is UnsafeCall) by {
        if i < a.effects.len() {
            assert(d.effects[i] == a.effects[i]);
        } else {
            assert(d.effects[i] == b.effects[i - a.effects.len()]);
        }
    }
}

/// Outside unsafe code, calling an unsafe function is no effect of its own: a
/// statement or expression with no unsafe block in it, scanned outside unsafe
/// code, yields no unsafe call.
pub proof fn law_unsafe_calls_need_unsafe_code(ctx: ScanCtx, lhs: bool, e: ScanExpr)
    requires
        !ctx.in_unsafe,
        !has_unsafe_block(e),
    ensures
        no_unsafe_calls(scan_spec(ctx, lhs, e).0),
    decreases e,
{
    match e {
        ScanExpr::Call(args, c) => {
            lemma_seq_unsafe_calls_need_unsafe_code(ctx, lhs, args@);
            lemma_no_unsafe_calls_cat(scan_seq_spec(ctx, lhs, args@).0, callee_delta(ctx, c));
        },
        ScanExpr::MethodCall(recv, args, m, u, l) => {
            law_unsafe_calls_need_unsafe_code(ctx, lhs, *recv);
            let r1 = scan_spec(ctx, lhs, *recv);
            lemma_seq_unsafe_calls_need_unsafe_code(ctx, r1.1, args@);
            let r2 = scan_seq_spec(ctx, r1.1, args@);
            lemma_no_unsafe_calls_cat(r1.0, r2.0);
            lemma_no_unsafe_calls_cat(delta_cat(r1.0, r2.0), callsite_delta(ctx, m@, None, u, l@));
        },
        ScanExpr::RawPtrCast(inner, ps, l) => {
            law_unsafe_calls_need_unsafe_code(ctx, lhs, *inner);
            lemma_no_unsafe_calls_cat(casts_delta(ctx, ps@, l@), scan_spec(ctx, lhs, *inner).0);
        },
        ScanExpr::Deref(inner, ps, l) => {
            law_unsafe_calls_need_unsafe_code(ctx, lhs, *inner);
            lemma_no_unsafe_calls_cat(derefs_delta(ctx, ps@, l@), scan_spec(ctx, lhs, *inner).0);
        },
        ScanExpr::Field(base, u, l) => {
            law_unsafe_calls_need_unsafe_code(ctx, lhs, *base);
            let r = scan_spec(ctx, lhs, *base);
            let f = match u {
                Some(p) => if r.1 {
                    Seq::empty()
                } else {
                    seq![found(ctx, p@, l@, EffectView::UnionField(p@))]
                },
                None => Seq::empty(),
            };
            lemma_no_unsafe_calls_cat(r.0, effects_delta(f));
        },
        ScanExpr::Assign(a, b) => {
            law_unsafe_calls_need_unsafe_code(ctx, true, *a);
            law_unsafe_calls_need_unsafe_code(ctx, false, *b);
            lemma_no_unsafe_calls_cat(scan_spec(ctx, true, *a).0, scan_spec(ctx, false, *b).0);
        },
        ScanExpr::Closure(body, name, l) => {
            law_unsafe_calls_need_unsafe_code(ctx, lhs, *body);
            let r = scan_spec(ctx, lhs, *body);
            lemma_no_unsafe_calls_cat(r.0, effects_delta(seq![found(ctx, name@, l@, EffectView::ClosureCreation)]));
        },
        ScanExpr::Nested(es) => {
            lemma_seq_unsafe_calls_need_unsafe_code(ctx, lhs, es@);
        },
        _ => {},
    }
}

proof fn lemma_seq_unsafe_calls_need_unsafe_code(ctx: ScanCtx, lhs: bool, es: Seq<ScanExpr>)
    requires
        !ctx.in_unsafe,
        !seq_has_unsafe_block(es),
    ensures
        no_unsafe_calls(scan_seq_spec(ctx, lhs, es).0),
    decreases es,
{
    if es.len() > 0 {
        let pre = es.subrange(0, es.len() - 1);
        lemma_seq_unsafe_calls_need_unsafe_code(ctx, lhs, pre);
        let r1 = scan_seq_spec(ctx, lhs, pre);
        law_unsafe_calls_need_unsafe_code(ctx, r1.1, es[es.len() - 1]);
        lemma_no_unsafe_calls_cat(r1.0, scan_spec(ctx, r1.1, es[es.len() - 1]).0);
    }
}

} // verus!
