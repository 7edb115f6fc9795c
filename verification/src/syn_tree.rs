//! A Rust source file as parsed, before name resolution: the parts of the
//! syntax tree that the quick scan reads, with their attributes and spans.
use vstd::prelude::*;

use crate::attr_parser::{CfgAttribute, CfgToken};

verus! {

/// Where a node stands: start and end line (from 1) and column (from 0).
#[derive(Debug, Clone, Copy)]
pub struct SynSpan {
    pub start_line: usize,
    pub start_col: usize,
    pub end_line: usize,
    pub end_col: usize,
}

/// The member of a field access.
pub enum SynMember {
    /// A named field.
    Named(String),
    /// A tuple field, by index.
    Unnamed(u32),
}

/// What an expression or statement is.
pub enum SynExprKind {
    /// A macro invocation.
    Macro,
    /// Nothing to scan: a literal, `continue`, `_`, verbatim tokens, an item
    /// declared inside a function body.
    Ignored,
    /// A call: its arguments and its function.
    Call(Vec<SynExpr>, Box<SynExpr>),
    /// A method call: receiver, arguments, the method's name and its span.
    MethodCall(Box<SynExpr>, Vec<SynExpr>, String, SynSpan),
    /// A path, by its segments.
    Path(Vec<String>),
    /// A parenthesized expression.
    Paren(Box<SynExpr>),
    /// A field access: base, member, and the member's span.
    Field(Box<SynExpr>, SynMember, SynSpan),
    /// A cast: the expression, whether the type is a raw pointer, and the
    /// expression's tokens.
    Cast(Box<SynExpr>, bool, Vec<CfgToken>),
    /// A dereference `*e`.
    Deref(Box<SynExpr>),
    /// An assignment.
    Assign(Box<SynExpr>, Box<SynExpr>),
    /// A closure and its body.
    Closure(Box<SynExpr>),
    /// An unsafe block and its statements.
    Unsafe(Vec<SynExpr>),
    /// A match: the scrutinee and the arms.
    Match(Box<SynExpr>, Vec<SynArm>),
    /// A struct literal: its fields and the base after `..`.
    Struct(Vec<SynField>, Option<Box<SynExpr>>),
    /// Any other node: its subexpressions and statements in order.
    Nested(Vec<SynExpr>),
}

/// An expression or statement with its attributes and span.
pub struct SynExpr {
    pub attrs: Vec<CfgAttribute>,
    pub span: SynSpan,
    pub kind: SynExprKind,
}

/// An arm of a match.
pub struct SynArm {
    pub attrs: Vec<CfgAttribute>,
    pub span: SynSpan,
    pub guard: Option<Box<SynExpr>>,
    pub body: Box<SynExpr>,
}

/// A field of a struct literal.
pub struct SynField {
    pub attrs: Vec<CfgAttribute>,
    pub span: SynSpan,
    pub expr: SynExpr,
}

/// A function or method with a body.
pub struct SynFn {
    pub attrs: Vec<CfgAttribute>,
    /// The span of the whole item.
    pub span: SynSpan,
    pub ident: String,
    /// Whether it is declared `pub`.
    pub vis_pub: bool,
    pub unsafe_fn: bool,
    pub has_abi: bool,
    /// The signature's span.
    pub sig_span: SynSpan,
    /// The body's span.
    pub body_span: SynSpan,
    pub body: Vec<SynExpr>,
}

/// A `use` tree.
pub enum SynUseTree {
    Path(String, Box<SynUseTree>),
    Name(String),
    Rename(String, String),
    Glob,
    Group(Vec<SynUseTree>),
}

/// The type of an impl block.
pub enum SynType {
    Path(Vec<String>),
    /// A type in invisible delimiters or parentheses.
    Wrapped(Box<SynType>),
    /// A trait object: for each bound, the trait's path where it is a trait.
    TraitObject(Vec<Option<Vec<String>>>),
    Other,
}

/// An item of an impl block.
pub enum SynImplItem {
    Fn(SynFn),
    Macro(SynSpan),
    Verbatim,
    Other(SynSpan),
}

/// A method of a trait: the function with the trait's visibility (its body
/// empty without a default), whether it has a default body, and its span.
pub struct SynTraitFn {
    pub f: SynFn,
    pub has_default: bool,
    pub span: SynSpan,
}

/// An item of a trait.
pub enum SynTraitItem {
    Fn(SynTraitFn),
    Macro(SynSpan),
    Verbatim,
    Other(SynSpan),
}

/// An item of an `extern` block.
pub enum SynForeignItem {
    /// A function: attributes, name, whether `pub`, span.
    Fn(Vec<CfgAttribute>, String, bool, SynSpan),
    Macro(SynSpan),
    Other(SynSpan),
}

/// An item of a file or module.
pub enum SynItem {
    Fn(SynFn),
    /// A module: attributes, name, span, and its items where they are inline.
    Mod(Vec<CfgAttribute>, String, SynSpan, Option<Vec<SynItem>>),
    /// An impl block: attributes, span, the trait's path and its span where it
    /// implements a trait, the type, whether `unsafe`, and its items.
    Impl(Vec<CfgAttribute>, SynSpan, Option<(Vec<String>, SynSpan)>, SynType, bool, Vec<SynImplItem>),
    /// A trait: attributes, span, name, the name's span, whether `unsafe`, and items.
    Trait(Vec<CfgAttribute>, SynSpan, String, SynSpan, bool, Vec<SynTraitItem>),
    /// An `extern` block: attributes, span, items.
    ForeignMod(Vec<CfgAttribute>, SynSpan, Vec<SynForeignItem>),
    Use(SynUseTree),
    Macro(SynSpan),
    Other,
}

} // verus!
