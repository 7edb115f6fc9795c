//! This module defines the core data model for Effects.
//!
//! The main types are:
//! - Effect, which represents an abstract effect
//! - EffectInstance, which represents an instance of an effect in source code
use vstd::prelude::*;

use crate::ident::{crate_name_spec, CanonicalPath, IdentPath};
use crate::path_ops::{
    path_file_name, path_join, path_parent, spec_path_file_name, spec_path_join,
    spec_path_parent,
};
use crate::sink::{sink_match, Sink};
use crate::text::{str_eq, decimal, digit_char, push_str, remove_commas, string_push};
use crate::util::csv;

verus! {

/// Appends the decimal notation of `n`.
pub fn push_decimal(s: &mut String, n: u64)
    ensures
        final(s)@ == old(s)@ + decimal(n as nat),
    decreases n,
{
    if n >= 10 {
        push_decimal(s, n / 10);
    }
    let d = n % 10;
    let c = if d == 0 {
        '0'
    } else if d == 1 {
        '1'
    } else if d == 2 {
        '2'
    } else if d == 3 {
        '3'
    } else if d == 4 {
        '4'
    } else if d == 5 {
        '5'
    } else if d == 6 {
        '6'
    } else if d == 7 {
        '7'
    } else if d == 8 {
        '8'
    } else {
        '9'
    };
    assert(c == digit_char(d as nat));
    string_push(s, c);
    if n >= 10 {
        assert(final(s)@ =~= old(s)@ + decimal(n as nat));
    } else {
        assert(final(s)@ =~= old(s)@ + decimal(n as nat));
    }
}

/// The separator of CSV fields: a comma and a space.
pub open spec fn csv_sep() -> Seq<char> {
    seq![',', ' ']
}

/// Appends the CSV separator.
pub fn push_csv_sep(s: &mut String)
    ensures
        final(s)@ == old(s)@ + csv_sep(),
{
    string_push(s, ',');
    string_push(s, ' ');
    assert(s@ =~= old(s)@ + csv_sep());
}

/// Abstract view of a source location.
pub struct SrcLocView {
    pub dir: Seq<char>,
    pub file: Seq<char>,
    pub start_line: usize,
    pub start_col: usize,
    pub end_line: usize,
    pub end_col: usize,
}

/// Data representing a source code location for some identifier, block, or expression
#[derive(Debug, PartialEq, Eq, Hash, Default)]
pub struct SrcLoc {
    /// Directory in which the expression occurs
    dir: String,
    /// File in which the expression occurs -- in the above directory
    file: String,
    /// Location in which the expression occurs -- in the above file
    start_line: usize,
    start_col: usize,
    end_line: usize,
    end_col: usize,
}

impl View for SrcLoc {
    type V = SrcLocView;

    closed spec fn view(&self) -> SrcLocView {
        SrcLocView {
            dir: self.dir@,
            file: self.file@,
            start_line: self.start_line,
            start_col: self.start_col,
            end_line: self.end_line,
            end_col: self.end_col,
        }
    }
}

impl Clone for SrcLoc {
    fn clone(&self) -> (r: Self)
        ensures
            r@ == self@,
    {
        SrcLoc {
            dir: self.dir.clone(),
            file: self.file.clone(),
            start_line: self.start_line,
            start_col: self.start_col,
            end_line: self.end_line,
            end_col: self.end_col,
        }
    }
}

/// The CSV form of a location: directory, file, start line and start column.
pub open spec fn src_loc_csv(l: SrcLocView) -> Seq<char> {
    remove_commas(l.dir) + csv_sep() + remove_commas(l.file) + csv_sep() + decimal(
        l.start_line as nat,
    ) + csv_sep() + decimal(l.start_col as nat)
}

impl SrcLoc {
    /// Whether two locations are the same.
    pub fn same_loc(&self, other: &Self) -> (r: bool)
        ensures
            r == (self@ == other@),
    {
        self.dir == other.dir && self.file == other.file && self.start_line == other.start_line
            && self.start_col == other.start_col && self.end_line == other.end_line
            && self.end_col == other.end_col
    }

    /// A location in the file at `filepath`; the path must have a parent and a file name.
    pub fn new(
        filepath: &str,
        start_line: usize,
        start_col: usize,
        end_line: usize,
        end_col: usize,
    ) -> (r: Self)
        requires
            spec_path_parent(filepath@) is Some,
            spec_path_file_name(filepath@) is Some,
        ensures
            Some(r@.dir) == spec_path_parent(filepath@),
            Some(r@.file) == spec_path_file_name(filepath@),
            r@.start_line == start_line,
            r@.start_col == start_col,
            r@.end_line == end_line,
            r@.end_col == end_col,
    {
        let dir = path_parent(filepath).unwrap();
        let file = path_file_name(filepath).unwrap();
        Self { dir, file, start_line, start_col, end_line, end_col }
    }

    /// `new`, or `None` where the path has no parent or no file name.
    pub fn try_new(
        filepath: &str,
        start_line: usize,
        start_col: usize,
        end_line: usize,
        end_col: usize,
    ) -> (r: Option<Self>)
        ensures
            match r {
                None => spec_path_parent(filepath@) is None || spec_path_file_name(
                    filepath@,
                ) is None,
                Some(l) => Some(l@.dir) == spec_path_parent(filepath@) && Some(l@.file)
                    == spec_path_file_name(filepath@) && l@.start_line == start_line
                    && l@.start_col == start_col && l@.end_line == end_line && l@.end_col
                    == end_col,
            },
    {
        let dir = match path_parent(filepath) {
            Some(d) => d,
            None => return None,
        };
        let file = match path_file_name(filepath) {
            Some(f) => f,
            None => return None,
        };
        Some(Self { dir, file, start_line, start_col, end_line, end_col })
    }

    /// A location from its parts, as a span gives them.
    pub fn from_parts(
        dir: String,
        file: String,
        start_line: usize,
        start_col: usize,
        end_line: usize,
        end_col: usize,
    ) -> (r: Self)
        ensures
            r@ == (SrcLocView {
                dir: dir@,
                file: file@,
                start_line,
                start_col,
                end_line,
                end_col,
            }),
    {
        Self { dir, file, start_line, start_col, end_line, end_col }
    }

    /// The same location one line earlier.
    pub fn sub1(&self) -> (r: Self)
        requires
            self@.start_line >= 1,
            self@.end_line >= 1,
        ensures
            r@ == (SrcLocView {
                start_line: (self@.start_line - 1) as usize,
                end_line: (self@.end_line - 1) as usize,
                ..self@
            }),
    {
        let mut res = self.clone();
        res.start_line = res.start_line - 1;
        res.end_line = res.end_line - 1;
        res
    }

    /// Moves the start one column to the right.
    pub fn add1(&mut self)
        requires
            old(self)@.start_col < usize::MAX,
        ensures
            final(self)@ == (SrcLocView { start_col: (old(self)@.start_col + 1) as usize, ..old(self)@ }),
    {
        self.start_col = self.start_col + 1;
    }

    pub fn csv_header() -> (r: &'static str)
        ensures
            r@ == "dir, file, line, col"@,
    {
        "dir, file, line, col"
    }

    pub fn to_csv(&self) -> (r: String)
        ensures
            r@ == src_loc_csv(self@),
    {
        let dir = csv::sanitize_path(self.dir.as_str());
        let file = csv::sanitize_path(self.file.as_str());
        let mut s = String::new();
        push_str(&mut s, dir.as_str());
        push_csv_sep(&mut s);
        push_str(&mut s, file.as_str());
        push_csv_sep(&mut s);
        push_decimal(&mut s, self.start_line as u64);
        push_csv_sep(&mut s);
        push_decimal(&mut s, self.start_col as u64);
        assert(s@ =~= src_loc_csv(self@));
        s
    }

    pub fn dir(&self) -> (r: &String)
        ensures
            r@ == self@.dir,
    {
        &self.dir
    }

    pub fn file(&self) -> (r: &String)
        ensures
            r@ == self@.file,
    {
        &self.file
    }

    pub fn start_line(&self) -> (r: usize)
        ensures
            r == self@.start_line,
    {
        self.start_line
    }

    pub fn start_col(&self) -> (r: usize)
        ensures
            r == self@.start_col,
    {
        self.start_col
    }

    pub fn end_line(&self) -> (r: usize)
        ensures
            r == self@.end_line,
    {
        self.end_line
    }

    pub fn end_col(&self) -> (r: usize)
        ensures
            r == self@.end_col,
    {
        self.end_col
    }

    /// The directory joined with the file.
    pub fn filepath_string(&self) -> (r: String)
        ensures
            r@ == spec_path_join(self@.dir, self@.file),
    {
        path_join(self.dir.as_str(), self.file.as_str())
    }
}

/// Abstract view of an effect.
pub enum EffectView {
    SinkCall(Seq<char>),
    FFICall(Seq<char>),
    UnsafeCall(Seq<char>),
    RawPointer(Seq<char>),
    UnionField(Seq<char>),
    StaticMut(Seq<char>),
    StaticExt(Seq<char>),
    FnPtrCreation,
    ClosureCreation,
    RawPtrCast,
}

/// Type representing a single effect.
/// For us, this can be any function call to some dangerous function:
/// - a sink pattern in the standard library
/// - an FFI call
/// - an unsafe operation such as a pointer dereference
#[derive(Debug, PartialEq, Eq, Hash)]
pub enum Effect {
    /// Function call (callee path) matching a sink pattern
    SinkCall(Sink),
    /// FFI call
    FFICall(CanonicalPath),
    /// Unsafe function/method call
    UnsafeCall(CanonicalPath),
    /// Pointer dereference
    RawPointer(CanonicalPath),
    /// Reading a union field
    UnionField(CanonicalPath),
    /// Accessing a global mutable variable
    StaticMut(CanonicalPath),
    /// Accessing an external mutable variable
    StaticExt(CanonicalPath),
    /// Creation of function pointer
    FnPtrCreation,
    /// Closure creation
    ClosureCreation,
    /// Casting *to* a raw pointer
    /// Note: This effect isn't unsafe, and is turned off by default (not included
    /// in the default list of effects to care about)
    RawPtrCast,
}

impl View for Effect {
    type V = EffectView;

    open spec fn view(&self) -> EffectView {
        match self {
            Effect::SinkCall(s) => EffectView::SinkCall(s@),
            Effect::FFICall(p) => EffectView::FFICall(p@),
            Effect::UnsafeCall(p) => EffectView::UnsafeCall(p@),
            Effect::RawPointer(p) => EffectView::RawPointer(p@),
            Effect::UnionField(p) => EffectView::UnionField(p@),
            Effect::StaticMut(p) => EffectView::StaticMut(p@),
            Effect::StaticExt(p) => EffectView::StaticExt(p@),
            Effect::FnPtrCreation => EffectView::FnPtrCreation,
            Effect::ClosureCreation => EffectView::ClosureCreation,
            Effect::RawPtrCast => EffectView::RawPtrCast,
        }
    }
}

impl Clone for Effect {
    fn clone(&self) -> (r: Self)
        ensures
            r@ == self@,
    {
        match self {
            Effect::SinkCall(s) => Effect::SinkCall(s.clone()),
            Effect::FFICall(p) => Effect::FFICall(p.clone()),
            Effect::UnsafeCall(p) => Effect::UnsafeCall(p.clone()),
            Effect::RawPointer(p) => Effect::RawPointer(p.clone()),
            Effect::UnionField(p) => Effect::UnionField(p.clone()),
            Effect::StaticMut(p) => Effect::StaticMut(p.clone()),
            Effect::StaticExt(p) => Effect::StaticExt(p.clone()),
            Effect::FnPtrCreation => Effect::FnPtrCreation,
            Effect::ClosureCreation => Effect::ClosureCreation,
            Effect::RawPtrCast => Effect::RawPtrCast,
        }
    }
}

/// Whether Rust considers the kind of effect unsafe: not a sink call, a
/// function pointer or closure creation, nor a cast to a raw pointer.
pub open spec fn effect_is_rust_unsafe(e: EffectView) -> bool {
    !(e is SinkCall || e is FnPtrCreation || e is ClosureCreation || e is RawPtrCast)
}

/// The short text of an effect: the sink pattern, or a bracketed kind.
pub open spec fn effect_simple_str(e: EffectView) -> Seq<char> {
    match e {
        EffectView::SinkCall(s) => s,
        EffectView::FFICall(_) => "[FFI]"@,
        EffectView::UnsafeCall(_) => "[UnsafeCall]"@,
        EffectView::RawPointer(_) => "[PtrDeref]"@,
        EffectView::UnionField(_) => "[UnionField]"@,
        EffectView::StaticMut(_) => "[StaticMutVar]"@,
        EffectView::StaticExt(_) => "[StaticExtVar]"@,
        EffectView::FnPtrCreation => "[FnPtrCreation]"@,
        EffectView::ClosureCreation => "[ClosureCreation]"@,
        EffectView::RawPtrCast => "[RawPtrCast]"@,
    }
}

/// The field-less kind of an effect.
pub open spec fn effect_type_of(e: EffectView) -> EffectType {
    match e {
        EffectView::SinkCall(_) => EffectType::SinkCall,
        EffectView::FFICall(_) => EffectType::FFICall,
        EffectView::UnsafeCall(_) => EffectType::UnsafeCall,
        EffectView::RawPointer(_) => EffectType::RawPointer,
        EffectView::UnionField(_) => EffectType::UnionField,
        EffectView::StaticMut(_) => EffectType::StaticMut,
        EffectView::StaticExt(_) => EffectType::StaticExt,
        EffectView::FnPtrCreation => EffectType::FnPtrCreation,
        EffectView::ClosureCreation => EffectType::ClosureCreation,
        EffectView::RawPtrCast => EffectType::RawPtrCast,
    }
}

impl Effect {
    /// Whether two effects are the same.
    pub fn same_effect(&self, other: &Self) -> (r: bool)
        ensures
            r == (self@ == other@),
    {
        match (self, other) {
            (Effect::SinkCall(a), Effect::SinkCall(b)) => {
                str_eq(a.as_str(), b.as_str())
            },
            (Effect::FFICall(a), Effect::FFICall(b)) => a.same_path(b),
            (Effect::UnsafeCall(a), Effect::UnsafeCall(b)) => a.same_path(b),
            (Effect::RawPointer(a), Effect::RawPointer(b)) => a.same_path(b),
            (Effect::UnionField(a), Effect::UnionField(b)) => a.same_path(b),
            (Effect::StaticMut(a), Effect::StaticMut(b)) => a.same_path(b),
            (Effect::StaticExt(a), Effect::StaticExt(b)) => a.same_path(b),
            (Effect::FnPtrCreation, Effect::FnPtrCreation) => true,
            (Effect::ClosureCreation, Effect::ClosureCreation) => true,
            (Effect::RawPtrCast, Effect::RawPtrCast) => true,
            _ => false,
        }
    }

    pub fn sink_pattern(&self) -> (r: Option<&Sink>)
        ensures
            match self@ {
                EffectView::SinkCall(s) => r matches Some(x) && x@ == s,
                _ => r is None,
            },
    {
        match self {
            Self::SinkCall(s) => Some(s),
            _ => None,
        }
    }

    /// Return true if the type of unsafety is something that Rust considers unsafe.
    pub fn is_rust_unsafe(&self) -> (r: bool)
        ensures
            r == effect_is_rust_unsafe(self@),
    {
        !matches!(
            self,
            Self::SinkCall(_) | Self::FnPtrCreation | Self::ClosureCreation | Self::RawPtrCast
        )
    }

    pub fn simple_str(&self) -> (r: &str)
        ensures
            r@ == effect_simple_str(self@),
    {
        match self {
            Self::SinkCall(s) => s.as_str(),
            Self::FFICall(_) => "[FFI]",
            Self::UnsafeCall(_) => "[UnsafeCall]",
            Self::RawPointer(_) => "[PtrDeref]",
            Self::UnionField(_) => "[UnionField]",
            Self::StaticMut(_) => "[StaticMutVar]",
            Self::StaticExt(_) => "[StaticExtVar]",
            Self::FnPtrCreation => "[FnPtrCreation]",
            Self::ClosureCreation => "[ClosureCreation]",
            Self::RawPtrCast => "[RawPtrCast]",
        }
    }

    pub fn to_csv(&self) -> (r: String)
        ensures
            r@ == remove_commas(effect_simple_str(self@)),
    {
        csv::sanitize_comma(self.simple_str())
    }
}

/// This is a field-less copy of Effect for easy pattern matching and passing
/// command-line arguments.
#[derive(Debug, Clone, Copy, PartialEq, Eq, Structural, Hash)]
pub enum EffectType {
    SinkCall,
    FFICall,
    UnsafeCall,
    RawPointer,
    UnionField,
    StaticMut,
    StaticExt,
    FnPtrCreation,
    ClosureCreation,
    RawPtrCast,
}

/// The effect types that are unsafe: every one but `RawPtrCast`, in declaration order.
pub open spec fn unsafe_effect_types() -> Seq<EffectType> {
    seq![
        EffectType::SinkCall,
        EffectType::FFICall,
        EffectType::UnsafeCall,
        EffectType::RawPointer,
        EffectType::UnionField,
        EffectType::StaticMut,
        EffectType::StaticExt,
        EffectType::FnPtrCreation,
        EffectType::ClosureCreation,
    ]
}

impl EffectType {
    pub fn matches_effect(types: &[EffectType], e: &Effect) -> (r: bool)
        ensures
            r == types@.contains(effect_type_of(e@)),
    {
        let t = match e {
            Effect::SinkCall(_) => EffectType::SinkCall,
            Effect::FFICall(_) => EffectType::FFICall,
            Effect::UnsafeCall(_) => EffectType::UnsafeCall,
            Effect::RawPointer(_) => EffectType::RawPointer,
            Effect::UnionField(_) => EffectType::UnionField,
            Effect::StaticMut(_) => EffectType::StaticMut,
            Effect::StaticExt(_) => EffectType::StaticExt,
            Effect::FnPtrCreation => EffectType::FnPtrCreation,
            Effect::ClosureCreation => EffectType::ClosureCreation,
            Effect::RawPtrCast => EffectType::RawPtrCast,
        };
        let mut i: usize = 0;
        while i < types.len()
            invariant
                i <= types@.len(),
                t == effect_type_of(e@),
                forall|j: int| 0 <= j < i ==> types@[j] != t,
            decreases types@.len() - i,
        {
            if types[i] == t {
                assert(types@[i as int] == t);
                return true;
            }
            i = i + 1;
        }
        false
    }

    pub fn unsafe_effects() -> (r: Vec<EffectType>)
        ensures
            r@ == unsafe_effect_types(),
    {
        let r = vec![
            EffectType::SinkCall,
            EffectType::FFICall,
            EffectType::UnsafeCall,
            EffectType::RawPointer,
            EffectType::UnionField,
            EffectType::StaticMut,
            EffectType::StaticExt,
            EffectType::FnPtrCreation,
            EffectType::ClosureCreation,
        ];
        assert(r@ =~= unsafe_effect_types());
        r
    }
}

/// Default effect types that we care about
/// Excludes: RawPtrCast as it is not unsafe
pub fn default_effect_types() -> (r: Vec<EffectType>)
    ensures
        r@ == unsafe_effect_types(),
{
    EffectType::unsafe_effects()
}

/// Abstract view of an effect instance.
pub struct EffectInstanceView {
    pub caller: Seq<char>,
    pub call_loc: SrcLocView,
    pub callee: Seq<char>,
    pub eff_type: EffectView,
}

/// Type representing an Effect instance, with complete context.
/// This includes a field for which Effect it is an instance of.
#[derive(Debug, PartialEq, Eq, Hash)]
pub struct EffectInstance {
    /// Path to the caller function or module scope (Rust path::to::fun)
    caller: CanonicalPath,
    /// Location of call or other effect (Directory, file, line)
    call_loc: SrcLoc,
    /// Callee (effect) function, e.g. libc::sched_getaffinity
    callee: CanonicalPath,
    /// EffectInstance type
    /// If Sink, this includes the effect pattern -- prefix of callee (effect), e.g. libc.
    eff_type: Effect,
}

impl View for EffectInstance {
    type V = EffectInstanceView;

    closed spec fn view(&self) -> EffectInstanceView {
        EffectInstanceView {
            caller: self.caller@,
            call_loc: self.call_loc@,
            callee: self.callee@,
            eff_type: self.eff_type@,
        }
    }
}

impl Clone for EffectInstance {
    fn clone(&self) -> (r: Self)
        ensures
            r@ == self@,
    {
        EffectInstance {
            caller: self.caller.clone(),
            call_loc: self.call_loc.clone(),
            callee: self.callee.clone(),
            eff_type: self.eff_type.clone(),
        }
    }
}

/// The effect a call is classified as: an FFI call if the callee is foreign, else a
/// sink call if a sink matches, else an unsafe call if the call is unsafe, else none.
pub open spec fn classify_call(
    callee: Seq<char>,
    is_unsafe: bool,
    ffi: Option<Seq<char>>,
    sinks: Seq<Seq<char>>,
) -> Option<EffectView> {
    if ffi is Some {
        Some(EffectView::FFICall(ffi->0))
    } else if sink_match(callee, sinks) is Some {
        Some(EffectView::SinkCall(sink_match(callee, sinks)->0))
    } else if is_unsafe {
        Some(EffectView::UnsafeCall(callee))
    } else {
        None
    }
}

/// The CSV line of an effect instance.
pub open spec fn effect_instance_csv(e: EffectInstanceView) -> Seq<char> {
    crate_name_spec(e.caller) + csv_sep() + e.caller + csv_sep() + remove_commas(e.callee)
        + csv_sep() + remove_commas(effect_simple_str(e.eff_type)) + csv_sep() + src_loc_csv(
        e.call_loc,
    )
}

impl EffectInstance {
    /// Whether two effect instances are the same.
    pub fn same_instance(&self, other: &Self) -> (r: bool)
        ensures
            r == (self@ == other@),
    {
        self.caller.same_path(&other.caller) && self.call_loc.same_loc(&other.call_loc)
            && self.callee.same_path(&other.callee) && self.eff_type.same_effect(&other.eff_type)
    }

    /// Returns a new EffectInstance if the call matches a Sink, is an ffi call,
    /// or is an unsafe call. Regular calls are handled by the explicit call
    /// graph structure.
    pub fn new_call(
        caller: CanonicalPath,
        callee: CanonicalPath,
        call_loc: SrcLoc,
        is_unsafe: bool,
        ffi: Option<CanonicalPath>,
        sinks: &Vec<IdentPath>,
    ) -> (r: Option<Self>)
        ensures
            match classify_call(
                callee@,
                is_unsafe,
                match ffi {
                    Some(f) => Some(f@),
                    None => None,
                },
                sinks@.map_values(|p: IdentPath| p@),
            ) {
                None => r is None,
                Some(e) => r matches Some(x) && x@ == (EffectInstanceView {
                    caller: caller@,
                    call_loc: call_loc@,
                    callee: callee@,
                    eff_type: e,
                }),
            },
    {
        let eff_type = if let Some(ffi) = ffi {
            Some(Effect::FFICall(ffi))
        } else if let Some(pat) = Sink::new_match(&callee, sinks) {
            Some(Effect::SinkCall(pat))
        } else if is_unsafe {
            Some(Effect::UnsafeCall(callee.clone()))
        } else {
            None
        };
        match eff_type {
            Some(e) => Some(Self { caller, call_loc, callee, eff_type: e }),
            None => None,
        }
    }

    pub fn new_effect(
        caller: CanonicalPath,
        callee: CanonicalPath,
        call_loc: SrcLoc,
        eff_type: Effect,
    ) -> (r: Self)
        ensures
            r@ == (EffectInstanceView {
                caller: caller@,
                call_loc: call_loc@,
                callee: callee@,
                eff_type: eff_type@,
            }),
    {
        Self { caller, call_loc, callee, eff_type }
    }

    pub fn caller(&self) -> (r: &CanonicalPath)
        ensures
            r@ == self@.caller,
    {
        &self.caller
    }

    pub fn caller_path(&self) -> (r: &str)
        ensures
            r@ == self@.caller,
    {
        self.caller.as_str()
    }

    pub fn callee(&self) -> (r: &CanonicalPath)
        ensures
            r@ == self@.callee,
    {
        &self.callee
    }

    pub fn callee_path(&self) -> (r: &str)
        ensures
            r@ == self@.callee,
    {
        self.callee.as_str()
    }

    /// Get the caller and callee as full paths
    pub fn caller_callee(&self) -> (r: (&str, &str))
        ensures
            r.0@ == self@.caller,
            r.1@ == self@.callee,
    {
        (self.caller_path(), self.callee_path())
    }

    pub fn csv_header() -> (r: &'static str)
        ensures
            r@ == "crate, fn_decl, callee, effect, dir, file, line, col"@,
    {
        "crate, fn_decl, callee, effect, dir, file, line, col"
    }

    pub fn to_csv(&self) -> (r: String)
        ensures
            r@ == effect_instance_csv(self@),
    {
        let crt = self.caller.crate_name();
        let callee = csv::sanitize_comma(self.callee.as_str());
        let effect = self.eff_type.to_csv();
        let call_loc_csv = self.call_loc.to_csv();
        let mut s = String::new();
        push_str(&mut s, crt.as_str());
        push_csv_sep(&mut s);
        push_str(&mut s, self.caller.as_str());
        push_csv_sep(&mut s);
        push_str(&mut s, callee.as_str());
        push_csv_sep(&mut s);
        push_str(&mut s, effect.as_str());
        push_csv_sep(&mut s);
        push_str(&mut s, call_loc_csv.as_str());
        assert(s@ =~= effect_instance_csv(self@));
        s
    }

    pub fn eff_type(&self) -> (r: &Effect)
        ensures
            r@ == self@.eff_type,
    {
        &self.eff_type
    }

    pub fn pattern(&self) -> (r: Option<&Sink>)
        ensures
            match self@.eff_type {
                EffectView::SinkCall(s) => r matches Some(x) && x@ == s,
                _ => r is None,
            },
    {
        self.eff_type.sink_pattern()
    }

    /// Return true if the type of unsafety is something that Rust considers unsafe.
    pub fn is_rust_unsafe(&self) -> (r: bool)
        ensures
            r == effect_is_rust_unsafe(self@.eff_type),
    {
        self.eff_type.is_rust_unsafe()
    }

    pub fn call_loc(&self) -> (r: &SrcLoc)
        ensures
            r@ == self@.call_loc,
    {
        &self.call_loc
    }
}

/*
    Data model for effect blocks (unsafe blocks, functions, and impls)
*/

#[derive(Debug, Clone, Copy, PartialEq, Eq, Structural, Hash)]
pub enum Visibility {
    Public,
    Private,
}

#[derive(Debug, PartialEq, Eq, Hash)]
pub struct FnDec {
    pub src_loc: SrcLoc,
    pub fn_name: CanonicalPath,
    pub vis: Visibility,
}

impl FnDec {
    /// A function declaration at a location, with its name and visibility.
    pub fn new(src_loc: SrcLoc, fn_name: CanonicalPath, vis: Visibility) -> (r: Self)
        ensures
            r.src_loc@ == src_loc@,
            r.fn_name@ == fn_name@,
            r.vis == vis,
    {
        Self { src_loc, fn_name, vis }
    }
}

/// The views of a list of effect instances.
pub open spec fn instance_views(v: Seq<EffectInstance>) -> Seq<EffectInstanceView> {
    v.map_values(|e: EffectInstance| e@)
}

/// Whether `v` holds an instance equal to `e`.
pub fn contains_instance(v: &Vec<EffectInstance>, e: &EffectInstance) -> (r: bool)
    ensures
        r == instance_views(v@).contains(e@),
{
    let mut i: usize = 0;
    while i < v.len()
        invariant
            i <= v.len(),
            forall|j: int| 0 <= j < i ==> v@[j]@ != e@,
        decreases v.len() - i,
    {
        if v[i].same_instance(e) {
            assert(instance_views(v@)[i as int] == e@);
            return true;
        }
        i = i + 1;
    }
    assert forall|j: int| 0 <= j < instance_views(v@).len() implies instance_views(v@)[j] != e@ by {
        assert(instance_views(v@)[j] == v@[j]@);
    }
    false
}

/// Adds `e` to the set `v` unless an equal instance is there.
pub fn insert_instance(v: &mut Vec<EffectInstance>, e: &EffectInstance)
    requires
        instance_views(old(v)@).no_duplicates(),
    ensures
        instance_views(final(v)@).no_duplicates(),
        instance_views(final(v)@).to_set() == instance_views(old(v)@).to_set().insert(e@),
{
    if !contains_instance(v, e) {
        let c = e.clone();
        v.push(c);
        assert(instance_views(v@) =~= instance_views(old(v)@).push(e@));
        proof {
            broadcast use vstd::seq_lib::group_seq_properties;
            assert(instance_views(v@).to_set() =~= instance_views(old(v)@).to_set().insert(e@));
        }
    } else {
        assert(instance_views(old(v)@).to_set() =~= instance_views(old(v)@).to_set().insert(e@));
    }
}


/// A row of the effects CSV ends with the CSV of the effect's location: its
/// last four columns are the directory, file, line and column.
pub proof fn law_csv_row_ends_with_location(e: EffectInstanceView)
    ensures
        effect_instance_csv(e).len() >= src_loc_csv(e.call_loc).len(),
        effect_instance_csv(e).subrange(
            effect_instance_csv(e).len() - src_loc_csv(e.call_loc).len(),
            effect_instance_csv(e).len() as int,
        ) == src_loc_csv(e.call_loc),
{
    let pre = crate_name_spec(e.caller) + csv_sep() + e.caller + csv_sep() + remove_commas(e.callee)
        + csv_sep() + remove_commas(effect_simple_str(e.eff_type)) + csv_sep();
    assert(effect_instance_csv(e) == pre + src_loc_csv(e.call_loc));
    assert((pre + src_loc_csv(e.call_loc)).subrange(pre.len() as int, (pre + src_loc_csv(e.call_loc)).len() as int)
        =~= src_loc_csv(e.call_loc));
}

} // verus!
