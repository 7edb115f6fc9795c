//! Parsing a source file with `syn`, and the conversion of the tree it gives,
//! node by node, into the library's own tree (`syn_tree`).
use vstd::prelude::*;

use proc_macro2::TokenTree;
use quote::ToTokens;
use syn::spanned::Spanned;
use syn::Expr as E;

use crate::attr_parser::{CfgAttribute, CfgToken};
use crate::syn_tree::{
    SynArm, SynExpr, SynExprKind as K, SynField, SynFn, SynForeignItem, SynImplItem, SynItem, SynMember,
    SynSpan, SynTraitFn, SynTraitItem, SynType, SynUseTree,
};

verus! {

#[verifier::external_type_specification]
#[verifier::external_body]
pub struct ExSynItem(syn::Item);

#[verifier::external_type_specification]
#[verifier::external_body]
pub struct ExSynExpr(syn::Expr);

#[verifier::external_type_specification]
#[verifier::external_body]
pub struct ExSynStmt(syn::Stmt);

#[verifier::external_type_specification]
#[verifier::external_body]
pub struct ExSynBlock(syn::Block);

#[verifier::external_type_specification]
#[verifier::external_body]
pub struct ExSynAttribute(syn::Attribute);

#[verifier::external_type_specification]
#[verifier::external_body]
pub struct ExSynPath(syn::Path);

#[verifier::external_type_specification]
#[verifier::external_body]
pub struct ExSynUseTree(syn::UseTree);

#[verifier::external_type_specification]
#[verifier::external_body]
pub struct ExSynType(syn::Type);

#[verifier::external_type_specification]
#[verifier::external_body]
pub struct ExSynImplItem(syn::ImplItem);

#[verifier::external_type_specification]
#[verifier::external_body]
pub struct ExSynTraitItem(syn::TraitItem);

#[verifier::external_type_specification]
#[verifier::external_body]
pub struct ExSynForeignItem(syn::ForeignItem);

#[verifier::external_type_specification]
#[verifier::external_body]
pub struct ExSynSignature(syn::Signature);

#[verifier::external_type_specification]
#[verifier::external_body]
pub struct ExSynArm(syn::Arm);

#[verifier::external_type_specification]
#[verifier::external_body]
pub struct ExSynLocal(syn::Local);

#[verifier::external_type_specification]
#[verifier::external_body]
pub struct ExSynFieldValue(syn::FieldValue);

#[verifier::external_type_specification]
#[verifier::external_body]
pub struct ExSynMember(syn::Member);

#[verifier::external_type_specification]
#[verifier::external_body]
pub struct ExSpan(proc_macro2::Span);

#[verifier::external_type_specification]
#[verifier::external_body]
pub struct ExTokenStream(proc_macro2::TokenStream);

/// What `syn::parse_file` makes of a source text, in the library's tree: `None`
/// where the text is no Rust file, else the file's items and its span.
pub uninterp spec fn spec_parse_file(src: Seq<char>) -> Option<(Seq<SynItem>, SynSpan)>;

/// Calls `syn::parse_file` on `src` and converts the file it gives into the
/// library's tree; `None` where it gives an error. The result is the name
/// `spec_parse_file` applied to the text; nothing more about the name is stated.
#[verifier::external_body]
pub(crate) fn parse_file(src: &str) -> (r: Option<(Vec<SynItem>, SynSpan)>)
    ensures
        match r {
            Some(p) => spec_parse_file(src@) == Some((p.0@, p.1)),
            None => spec_parse_file(src@) is None,
        },
{
    match syn::parse_file(src) {
        Ok(f) => Some((f.items.iter().map(syn_item).collect(), syn_span(f.span()))),
        Err(_) => None,
    }
}

/// Converts a `proc_macro2::Span` (with its line and column) for `parse_file`.
#[verifier::external_body]
fn syn_span(s: proc_macro2::Span) -> (r: SynSpan) {
    let (a, b) = (s.start(), s.end());
    SynSpan { start_line: a.line, start_col: a.column, end_line: b.line, end_col: b.column }
}

/// Converts a `proc_macro2::TokenStream`, token by token, for `parse_file`.
#[verifier::external_body]
fn syn_tokens(ts: proc_macro2::TokenStream) -> (r: Vec<CfgToken>) {
    ts.into_iter().map(|t| match t {
        TokenTree::Ident(i) => CfgToken::Ident(i.to_string()),
        TokenTree::Punct(p) => CfgToken::Punct(p.as_char()),
        TokenTree::Literal(l) => CfgToken::Literal(l.to_string()),
        TokenTree::Group(g) => CfgToken::Group(syn_tokens(g.stream())),
    }).collect()
}

/// Converts attributes (path and argument tokens) for `parse_file`.
#[verifier::external_body]
fn syn_attrs(a: &Vec<syn::Attribute>) -> (r: Vec<CfgAttribute>) {
    a.iter().map(|x| CfgAttribute {
        path: path_segs(x.path()),
        list: match &x.meta {
            syn::Meta::List(l) => Some(syn_tokens(l.tokens.clone())),
            _ => None,
        },
    }).collect()
}

/// Converts a `syn::Path` to its segments' names, for `parse_file`.
#[verifier::external_body]
fn path_segs(p: &syn::Path) -> (r: Vec<String>) {
    p.segments.iter().map(|s| s.ident.to_string()).collect()
}

/// Converts a block's statements, for `parse_file`.
#[verifier::external_body]
fn syn_block(b: &syn::Block) -> (r: Vec<SynExpr>) {
    b.stmts.iter().map(syn_stmt).collect()
}

/// Converts a statement, for `parse_file`.
#[verifier::external_body]
fn syn_stmt(s: &syn::Stmt) -> (r: SynExpr) {
    match s {
        syn::Stmt::Local(l) => syn_local(l),
        syn::Stmt::Item(i) => SynExpr { attrs: Vec::new(), span: syn_span(i.span()), kind: K::Ignored },
        syn::Stmt::Expr(e, _) => syn_expr(e),
        syn::Stmt::Macro(m) => SynExpr { attrs: Vec::new(), span: syn_span(m.span()), kind: K::Macro },
    }
}

/// Converts a `let` statement to its initializer and its `else` branch, for
/// `parse_file`.
#[verifier::external_body]
fn syn_local(l: &syn::Local) -> (r: SynExpr) {
    let es = l.init.iter().flat_map(|i| [Some(&i.expr), i.diverge.as_ref().map(|d| &d.1)]).flatten();
    syn_node(&l.attrs, syn_span(l.span()), K::Nested(es.map(|e| syn_expr(e)).collect()))
}

/// Builds a node from `syn` attributes, for `parse_file`.
#[verifier::external_body]
fn syn_node(a: &Vec<syn::Attribute>, span: SynSpan, kind: K) -> (r: SynExpr) {
    SynExpr { attrs: syn_attrs(a), span, kind }
}

/// Builds a node of subexpressions, for `parse_file`.
#[verifier::external_body]
fn syn_nest(a: &Vec<syn::Attribute>, span: SynSpan, es: Vec<&syn::Expr>) -> (r: SynExpr) {
    syn_node(a, span, K::Nested(es.into_iter().map(syn_expr).collect()))
}

/// Converts an expression to a boxed node, for `parse_file`.
#[verifier::external_body]
fn bx(e: &syn::Expr) -> (r: Box<SynExpr>) {
    Box::new(syn_expr(e))
}

/// Converts an expression, for `parse_file`: calls, closures, assignments and
/// parentheses here, the other variants in `syn_expr_paths` and the functions
/// it hands on to.
#[verifier::external_body]
fn syn_expr(e: &syn::Expr) -> (r: SynExpr) {
    let sp = syn_span(e.span());
    match e {
        E::Assign(x) => syn_node(&x.attrs, sp, K::Assign(bx(&x.left), bx(&x.right))),
        E::Call(x) => syn_node(&x.attrs, sp, K::Call(x.args.iter().map(syn_expr).collect(), bx(&x.func))),
        E::Closure(x) => syn_node(&x.attrs, sp, K::Closure(bx(&x.body))),
        E::Paren(x) => syn_node(&x.attrs, sp, K::Paren(bx(&x.expr))),
        _ => syn_expr_paths(e, sp),
    }
}

/// Converts paths, unsafe blocks, macros and field accesses, for `syn_expr`.
#[verifier::external_body]
fn syn_expr_paths(e: &syn::Expr, sp: SynSpan) -> (r: SynExpr) {
    match e {
        E::Path(x) => syn_node(&x.attrs, sp, K::Path(path_segs(&x.path))),
        E::Unsafe(x) => syn_node(&x.attrs, sp, K::Unsafe(syn_block(&x.block))),
        E::Macro(_) => SynExpr { attrs: Vec::new(), span: sp, kind: K::Macro },
        E::Field(x) => syn_node(&x.attrs, sp, K::Field(bx(&x.base), syn_member(&x.member), syn_span(x.member.span()))),
        _ => syn_expr_casts(e, sp),
    }
}

/// Converts casts and method calls, for `syn_expr_paths`.
#[verifier::external_body]
fn syn_expr_casts(e: &syn::Expr, sp: SynSpan) -> (r: SynExpr) {
    match e {
        E::Cast(x) => syn_node(&x.attrs, sp, K::Cast(bx(&x.expr), matches!(*x.ty, syn::Type::Ptr(_)), syn_tokens(x.expr.to_token_stream()))),
        E::MethodCall(x) => syn_node(&x.attrs, sp, K::MethodCall(bx(&x.receiver), x.args.iter().map(syn_expr).collect(), x.method.to_string(), syn_span(x.method.span()))),
        _ => syn_expr_matches(e, sp),
    }
}

/// Converts matches and struct literals, for `syn_expr_casts`.
#[verifier::external_body]
fn syn_expr_matches(e: &syn::Expr, sp: SynSpan) -> (r: SynExpr) {
    match e {
        E::Match(x) => syn_node(&x.attrs, sp, K::Match(bx(&x.expr), x.arms.iter().map(syn_arm).collect())),
        E::Struct(x) => syn_node(&x.attrs, sp, K::Struct(x.fields.iter().map(syn_field).collect(), x.rest.as_ref().map(|r| bx(r)))),
        _ => syn_expr_nested(e, sp),
    }
}

/// Converts expressions that only hold subexpressions, for `syn_expr_matches`.
#[verifier::external_body]
fn syn_expr_nested(e: &syn::Expr, sp: SynSpan) -> (r: SynExpr) {
    match e {
        E::Array(x) => syn_nest(&x.attrs, sp, x.elems.iter().collect()),
        E::Await(x) => syn_nest(&x.attrs, sp, vec![&*x.base]),
        E::Binary(x) => syn_nest(&x.attrs, sp, vec![&*x.left, &*x.right]),
        E::Break(x) => syn_nest(&x.attrs, sp, x.expr.iter().map(|b| &**b).collect()),
        _ => syn_expr_nested_more(e, sp),
    }
}

/// Converts more expressions that only hold subexpressions, for
/// `syn_expr_nested`.
#[verifier::external_body]
fn syn_expr_nested_more(e: &syn::Expr, sp: SynSpan) -> (r: SynExpr) {
    match e {
        E::Group(x) => syn_nest(&x.attrs, sp, vec![&*x.expr]),
        E::Index(x) => syn_nest(&x.attrs, sp, vec![&*x.expr, &*x.index]),
        E::Let(x) => syn_nest(&x.attrs, sp, vec![&*x.expr]),
        E::Reference(x) => syn_nest(&x.attrs, sp, vec![&*x.expr]),
        _ => syn_expr_returns(e, sp),
    }
}

/// Converts ranges, repetitions, returns and `?`, for `syn_expr_nested_more`.
#[verifier::external_body]
fn syn_expr_returns(e: &syn::Expr, sp: SynSpan) -> (r: SynExpr) {
    match e {
        E::Range(x) => syn_nest(&x.attrs, sp, x.start.iter().chain(x.end.iter()).map(|b| &**b).collect()),
        E::Repeat(x) => syn_nest(&x.attrs, sp, vec![&*x.expr, &*x.len]),
        E::Return(x) => syn_nest(&x.attrs, sp, x.expr.iter().map(|b| &**b).collect()),
        E::Try(x) => syn_nest(&x.attrs, sp, vec![&*x.expr]),
        _ => syn_expr_unary(e, sp),
    }
}

/// Converts tuples, yields and unary operations (a dereference apart), for
/// `syn_expr_returns`.
#[verifier::external_body]
fn syn_expr_unary(e: &syn::Expr, sp: SynSpan) -> (r: SynExpr) {
    match e {
        E::Tuple(x) => syn_nest(&x.attrs, sp, x.elems.iter().collect()),
        E::Yield(x) => syn_nest(&x.attrs, sp, x.expr.iter().map(|b| &**b).collect()),
        E::Unary(x) => match x.op {
            syn::UnOp::Deref(_) => syn_node(&x.attrs, sp, K::Deref(bx(&x.expr))),
            _ => syn_nest(&x.attrs, sp, vec![&*x.expr]),
        },
        _ => syn_expr_blocks(e, sp),
    }
}

/// Converts expressions that are blocks, for `syn_expr_unary`.
#[verifier::external_body]
fn syn_expr_blocks(e: &syn::Expr, sp: SynSpan) -> (r: SynExpr) {
    match e {
        E::Async(x) => syn_node(&x.attrs, sp, K::Nested(syn_block(&x.block))),
        E::Block(x) => syn_node(&x.attrs, sp, K::Nested(syn_block(&x.block))),
        E::Const(x) => syn_node(&x.attrs, sp, K::Nested(syn_block(&x.block))),
        E::Loop(x) => syn_node(&x.attrs, sp, K::Nested(syn_block(&x.body))),
        E::TryBlock(x) => syn_node(&x.attrs, sp, K::Nested(syn_block(&x.block))),
        _ => syn_expr_loops(e, sp),
    }
}

/// Converts a head expression and the statements of a block after it, for
/// `syn_expr_loops`.
#[verifier::external_body]
fn syn_head(e: &syn::Expr, b: &syn::Block) -> (r: Vec<SynExpr>) {
    [vec![syn_expr(e)], syn_block(b)].into_iter().flatten().collect()
}

/// Converts `for`, `while` and `if`, each as its head expression and then its
/// statements (for `if`, then its `else` branch), for `syn_expr_blocks`. Any
/// other expression holds nothing to scan.
#[verifier::external_body]
fn syn_expr_loops(e: &syn::Expr, sp: SynSpan) -> (r: SynExpr) {
    match e {
        E::ForLoop(x) => syn_node(&x.attrs, sp, K::Nested(syn_head(&x.expr, &x.body))),
        E::While(x) => syn_node(&x.attrs, sp, K::Nested(syn_head(&x.cond, &x.body))),
        E::If(x) => {
            let else_branch = x.else_branch.iter().map(|b| syn_expr(&b.1));
            syn_node(&x.attrs, sp, K::Nested(syn_head(&x.cond, &x.then_branch).into_iter().chain(else_branch).collect()))
        },
        _ => SynExpr { attrs: Vec::new(), span: sp, kind: K::Ignored },
    }
}

/// Converts a match arm, for `parse_file`.
#[verifier::external_body]
fn syn_arm(a: &syn::Arm) -> (r: SynArm) {
    let guard = match &a.pat {
        syn::Pat::Guard(g) => Some(Box::new(syn_expr(&g.guard))),
        _ => None,
    };
    SynArm { attrs: syn_attrs(&a.attrs), span: syn_span(a.span()), guard, body: Box::new(syn_expr(&a.body)) }
}

/// Converts a field of a struct literal, for `parse_file`.
#[verifier::external_body]
fn syn_field(f: &syn::FieldValue) -> (r: SynField) {
    SynField { attrs: syn_attrs(&f.attrs), span: syn_span(f.span()), expr: syn_expr(&f.expr) }
}

/// Converts the member of a field access, for `parse_file`.
#[verifier::external_body]
fn syn_member(m: &syn::Member) -> (r: SynMember) {
    match m {
        syn::Member::Named(i) => SynMember::Named(i.to_string()),
        syn::Member::Unnamed(i) => SynMember::Unnamed(i.index),
    }
}

/// Converts a function from its parts, for `parse_file`.
#[verifier::external_body]
fn syn_fn(a: &Vec<syn::Attribute>, vis_pub: bool, sig: &syn::Signature, body: Option<&syn::Block>, span: SynSpan) -> (r: SynFn) {
    SynFn {
        attrs: syn_attrs(a),
        span,
        ident: sig.ident.to_string(),
        vis_pub,
        unsafe_fn: matches!(sig.safety, syn::Safety::Unsafe(_)),
        has_abi: sig.abi.is_some(),
        sig_span: syn_span(sig.span()),
        body_span: body.map(|b| syn_span(b.span())).unwrap_or(span),
        body: body.map(syn_block).unwrap_or_default(),
    }
}

/// Converts a `use` tree, for `parse_file`.
#[verifier::external_body]
fn syn_use(t: &syn::UseTree) -> (r: SynUseTree) {
    match t {
        syn::UseTree::Path(p) => SynUseTree::Path(p.ident.to_string(), Box::new(syn_use(&p.tree))),
        syn::UseTree::Name(n) => SynUseTree::Name(n.ident.to_string()),
        syn::UseTree::Rename(r) => SynUseTree::Rename(r.ident.to_string(), r.rename.to_string()),
        syn::UseTree::Glob(_) => SynUseTree::Glob,
        syn::UseTree::Group(g) => SynUseTree::Group(g.items.iter().map(syn_use).collect()),
    }
}

/// Converts the type of an impl block, for `parse_file`.
#[verifier::external_body]
fn syn_type(t: &syn::Type) -> (r: SynType) {
    match t {
        syn::Type::Group(x) => SynType::Wrapped(Box::new(syn_type(&x.elem))),
        syn::Type::Paren(x) => SynType::Wrapped(Box::new(syn_type(&x.elem))),
        syn::Type::Path(x) => SynType::Path(path_segs(&x.path)),
        syn::Type::TraitObject(x) => SynType::TraitObject(x.bounds.iter().map(|b| match b {
            syn::TypeParamBound::Trait(t) => Some(path_segs(&t.path)),
            _ => None,
        }).collect()),
        _ => SynType::Other,
    }
}

/// Converts an item of an impl block, for `parse_file`.
#[verifier::external_body]
fn syn_impl_item(i: &syn::ImplItem) -> (r: SynImplItem) {
    match i {
        syn::ImplItem::Fn(m) => SynImplItem::Fn(syn_fn(&m.attrs, matches!(m.vis, syn::Visibility::Public(_)), &m.sig, Some(&m.block), syn_span(m.span()))),
        syn::ImplItem::Macro(m) => SynImplItem::Macro(syn_span(m.span())),
        syn::ImplItem::Verbatim(_) => SynImplItem::Verbatim,
        other => SynImplItem::Other(syn_span(other.span())),
    }
}

/// Converts an item of a trait with the trait's visibility, for `parse_file`.
#[verifier::external_body]
fn syn_trait_item(i: &syn::TraitItem, vis_pub: bool) -> (r: SynTraitItem) {
    match i {
        syn::TraitItem::Fn(m) => SynTraitItem::Fn(SynTraitFn {
            f: syn_fn(&m.attrs, vis_pub, &m.sig, m.default.as_ref(), syn_span(m.span())),
            has_default: m.default.is_some(),
            span: syn_span(m.span()),
        }),
        syn::TraitItem::Macro(m) => SynTraitItem::Macro(syn_span(m.span())),
        syn::TraitItem::Verbatim(_) => SynTraitItem::Verbatim,
        other => SynTraitItem::Other(syn_span(other.span())),
    }
}

/// Converts an item of a foreign block, for `parse_file`.
#[verifier::external_body]
fn syn_foreign_item(i: &syn::ForeignItem) -> (r: SynForeignItem) {
    match i {
        syn::ForeignItem::Fn(f) => SynForeignItem::Fn(syn_attrs(&f.attrs), f.sig.ident.to_string(), matches!(f.vis, syn::Visibility::Public(_)), syn_span(f.span())),
        syn::ForeignItem::Macro(m) => SynForeignItem::Macro(syn_span(m.span())),
        other => SynForeignItem::Other(syn_span(other.span())),
    }
}

/// Converts an item of a file or module, for `parse_file`: functions, `use`
/// items and macros here, the others in `syn_item_mods` and after.
#[verifier::external_body]
fn syn_item(i: &syn::Item) -> (r: SynItem) {
    match i {
        syn::Item::Fn(f) => SynItem::Fn(syn_fn(&f.attrs, matches!(f.vis, syn::Visibility::Public(_)), &f.sig, Some(&f.block), syn_span(f.span()))),
        syn::Item::Use(u) => SynItem::Use(syn_use(&u.tree)),
        syn::Item::Macro(m) => SynItem::Macro(syn_span(m.span())),
        _ => syn_item_mods(i),
    }
}

/// Converts modules and foreign blocks, for `syn_item`.
#[verifier::external_body]
fn syn_item_mods(i: &syn::Item) -> (r: SynItem) {
    match i {
        syn::Item::Mod(m) => SynItem::Mod(syn_attrs(&m.attrs), m.ident.to_string(), syn_span(m.span()), m.content.as_ref().map(|c| c.1.iter().map(syn_item).collect())),
        syn::Item::ForeignMod(f) => SynItem::ForeignMod(syn_attrs(&f.attrs), syn_span(f.span()), f.items.iter().map(syn_foreign_item).collect()),
        _ => syn_item_impls(i),
    }
}

/// Converts impl blocks, for `syn_item_mods`.
#[verifier::external_body]
fn syn_item_impls(i: &syn::Item) -> (r: SynItem) {
    match i {
        syn::Item::Impl(x) => SynItem::Impl(syn_attrs(&x.attrs), syn_span(x.span()), x.trait_.as_ref().map(|t| (path_segs(&t.0), syn_span(t.0.span()))), syn_type(&x.self_ty), x.unsafety.is_some(), x.items.iter().map(syn_impl_item).collect()),
        _ => syn_item_traits(i),
    }
}

/// Converts traits, for `syn_item_impls`; any other item is `Other`.
#[verifier::external_body]
fn syn_item_traits(i: &syn::Item) -> (r: SynItem) {
    match i {
        syn::Item::Trait(t) => SynItem::Trait(syn_attrs(&t.attrs), syn_span(t.span()), t.ident.to_string(), syn_span(t.ident.span()), t.unsafety.is_some(), t.items.iter().map(|x| syn_trait_item(x, matches!(t.vis, syn::Visibility::Public(_)))).collect()),
        _ => SynItem::Other,
    }
}

} // verus!
