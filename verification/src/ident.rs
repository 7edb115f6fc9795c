//! Rust identifiers, paths, and patterns.
//!
//! Ident: std, fs, File
//! IdentPath: std, std::fs, fs::File, super::fs::File, std::fs::File
//! CanonicalPath: crate::fs::File
//! Pattern: std::fs, std::fs::*
use vstd::prelude::*;

use crate::text::{
    chars_eq, chars_of, copy_string, from_chars, is_prefix_chars, join_sep,
    lemma_join_no_hyphens, lemma_join_split, lemma_join_take_prefix, lemma_join_take_sep_prefix, lemma_rsplit_join_colon_free, lemma_split_join_colon_free, lemma_rsplit_colon_free, lemma_rsplit_once_at, lemma_split_no_hyphens, sep_at, lemma_replace_hyphens_identity, lemma_replace_hyphens_no_hyphens,
    lemma_split_sep_nonempty, no_hyphens, push_sep, push_str, replace_hyphens_chars,
    replace_hyphens_spec, rsplit_once_exec, rsplit_once_sep, sep, split_once_exec,
    split_once_sep, split_sep, split_sep_exec, views,
};
use vstd::string::StrSliceExecFns;

verus! {

/// Replaces every `-` of the string by `_`.
pub fn replace_hyphens(s: &mut String)
    ensures
        final(s)@ == replace_hyphens_spec(old(s)@),
{
    let v = chars_of(s.as_str());
    let r = replace_hyphens_chars(&v);
    *s = from_chars(&r);
}

/// A character that may occur in an identifier.
pub open spec fn char_ok_spec(c: char) -> bool {
    ('a' <= c && c <= 'z') || ('A' <= c && c <= 'Z') || ('0' <= c && c <= '9') || c == '_'
        || c == '.' || c == '\'' || c == '&' || c == ',' || c == ';' || c == '*'
        || c == '!' || c == '+' || c == '=' || c == '{' || c == '}' || c == '[' || c == ']'
        || c == '(' || c == ')' || c == '<' || c == '>' || c == ' '
}

/// How many leading characters are not checked: 2 for a raw identifier (`r#try`),
/// 1 for a lifetime (`'a`), 0 otherwise.
pub open spec fn ident_skips(s: Seq<char>) -> int {
    if s.len() >= 2 && s[0] == 'r' && s[1] == '#' {
        2
    } else if s.len() >= 1 && s[0] == '\'' {
        1
    } else {
        0
    }
}

/// A well-formed identifier: nonempty, and every character after the
/// raw or lifetime prefix is allowed.
pub open spec fn str_ok_spec(s: Seq<char>) -> bool {
    &&& s.len() > 0
    &&& forall|i: int| ident_skips(s) <= i < s.len() ==> char_ok_spec(#[trigger] s[i])
}

/// A well-formed path: empty, or every `::`-segment is a well-formed identifier.
pub open spec fn path_ok_spec(s: Seq<char>) -> bool {
    s.len() == 0 || forall|k: int|
        0 <= k < split_sep(s).len() ==> str_ok_spec(#[trigger] split_sep(s)[k])
}

/// The identifiers of a path: its segments, each with hyphens replaced.
pub open spec fn path_idents(s: Seq<char>) -> Seq<Seq<char>> {
    split_sep(s).map_values(|x: Seq<char>| replace_hyphens_spec(x))
}

/// Appending an identifier to a path: `::` in between unless the path is empty.
pub open spec fn push_ident_spec(s: Seq<char>, i: Seq<char>) -> Seq<char> {
    if s.len() == 0 {
        i
    } else {
        s + sep() + i
    }
}

/// A path built by pushing identifiers in order onto the empty path.
pub open spec fn from_idents_spec(ids: Seq<Seq<char>>) -> Seq<char>
    decreases ids.len(),
{
    if ids.len() == 0 {
        Seq::<char>::empty()
    } else {
        push_ident_spec(from_idents_spec(ids.drop_last()), ids.last())
    }
}

/// Appending a path to a path: nothing if the other is empty.
pub open spec fn append_spec(s: Seq<char>, o: Seq<char>) -> Seq<char> {
    if o.len() == 0 {
        s
    } else {
        push_ident_spec(s, o)
    }
}

/// The patterns matching a path: the joins of its first 1, 2, ... identifiers.
pub open spec fn path_patterns(s: Seq<char>) -> Seq<Seq<char>> {
    Seq::new(path_idents(s).len(), |k: int| join_sep(path_idents(s).take(k + 1)))
}

/// A path matches a pattern when it is the pattern's path itself or lies
/// under it: the pattern's path followed by `::`.
pub open spec fn pattern_matches(path: Seq<char>, pat: Seq<char>) -> bool {
    path == pat || (pat + sep()).is_prefix_of(path)
}

/// The spelling `main`.
pub open spec fn main_spec() -> Seq<char> {
    seq!['m', 'a', 'i', 'n']
}

/// The crate name of a path: its first identifier.
pub open spec fn crate_name_spec(s: Seq<char>) -> Seq<char> {
    replace_hyphens_spec(split_sep(s)[0])
}

/// A path naming the top-level `main` function of its crate.
pub open spec fn is_main_spec(s: Seq<char>) -> bool {
    match rsplit_once_sep(s) {
        None => false,
        Some((a, b)) => b == main_spec() && a == crate_name_spec(s),
    }
}

/// An Rust name identifier, without colons
/// E.g.: env
/// Should be a nonempty string
#[derive(Debug, PartialEq, Eq, Hash)]
pub struct Ident(String);

impl View for Ident {
    type V = Seq<char>;

    closed spec fn view(&self) -> Seq<char> {
        self.0@
    }
}

impl Clone for Ident {
    fn clone(&self) -> (r: Self)
        ensures
            r@ == self@,
    {
        Ident(self.0.clone())
    }
}

impl Ident {
    fn char_ok(c: char) -> (r: bool)
        ensures
            r == char_ok_spec(c),
    {
        ('a' <= c && c <= 'z') || ('A' <= c && c <= 'Z') || ('0' <= c && c <= '9') || c == '_'
            || c == '.' || c == '\'' || c == '&' || c == ',' || c == ';' || c
            == '*' || c == '!' || c == '+' || c == '=' || c == '{' || c == '}' || c == '['
            || c == ']' || c == '(' || c == ')' || c == '<' || c == '>' || c == ' '
    }

    fn chars_ok(v: &Vec<char>) -> (r: bool)
        ensures
            r == str_ok_spec(v@),
    {
        let n = v.len();
        let skips: usize = if n >= 2 && v[0] == 'r' && v[1] == '#' {
            2
        } else if n >= 1 && v[0] == '\'' {
            1
        } else {
            0
        };
        let mut i = skips;
        while i < n
            invariant
                n == v.len(),
                skips == ident_skips(v@),
                skips <= i,
                forall|j: int| skips <= j < i ==> char_ok_spec(#[trigger] v@[j]),
            decreases n - i,
        {
            if !Self::char_ok(v[i]) {
                return false;
            }
            i = i + 1;
        }
        n > 0
    }

    fn str_ok(s: &str) -> (r: bool)
        ensures
            r == str_ok_spec(s@),
    {
        let v = chars_of(s);
        Self::chars_ok(&v)
    }

    pub fn invariant_holds(&self) -> (r: bool)
        ensures
            r == str_ok_spec(self@),
    {
        Self::str_ok(self.0.as_str())
    }

    pub fn check_invariant(&self) {
        let _ok = self.invariant_holds();
    }

    pub fn new(s: &str) -> (r: Self)
        ensures
            r@ == replace_hyphens_spec(s@),
    {
        Self::new_owned(copy_string(s))
    }

    pub fn new_owned(s: String) -> (r: Self)
        ensures
            r@ == replace_hyphens_spec(s@),
    {
        let mut result = Self(s);
        replace_hyphens(&mut result.0);
        result.check_invariant();
        result
    }

    fn from_chars(v: &Vec<char>) -> (r: Self)
        ensures
            r@ == replace_hyphens_spec(v@),
    {
        Self::new_owned(from_chars(v))
    }

    pub fn as_str(&self) -> (r: &str)
        ensures
            r@ == self@,
    {
        self.0.as_str()
    }
}

/// A Rust path identifier, with colons
/// E.g.: std::env::var_os
/// Semantically a (possibly empty) sequence of Idents
#[derive(Debug, PartialEq, Eq, Hash)]
pub struct IdentPath(String);

impl View for IdentPath {
    type V = Seq<char>;

    closed spec fn view(&self) -> Seq<char> {
        self.0@
    }
}

impl Clone for IdentPath {
    fn clone(&self) -> (r: Self)
        ensures
            r@ == self@,
    {
        IdentPath(self.0.clone())
    }
}

impl IdentPath {
    pub fn invariant_holds(&self) -> (r: bool)
        ensures
            r == path_ok_spec(self@),
    {
        let v = chars_of(self.0.as_str());
        if v.len() == 0 {
            return true;
        }
        let parts = split_sep_exec(&v);
        let mut k: usize = 0;
        while k < parts.len()
            invariant
                views(parts@) == split_sep(v@),
                v@ == self@,
                v@.len() > 0,
                k <= parts.len(),
                forall|j: int| 0 <= j < k ==> str_ok_spec(#[trigger] split_sep(v@)[j]),
            decreases parts.len() - k,
        {
            assert(parts@[k as int]@ == split_sep(v@)[k as int]);
            if !Ident::chars_ok(&parts[k]) {
                assert(split_sep(v@).len() == parts@.len());
                assert(!str_ok_spec(split_sep(self@)[k as int]));
                return false;
            }
            k = k + 1;
        }
        true
    }

    pub fn check_invariant(&self) {
        let _ok = self.invariant_holds();
    }

    pub fn new(s: &str) -> (r: Self)
        ensures
            r@ == replace_hyphens_spec(s@),
    {
        Self::new_owned(copy_string(s))
    }

    pub fn new_owned(s: String) -> (r: Self)
        ensures
            r@ == replace_hyphens_spec(s@),
    {
        let mut result = Self(s);
        replace_hyphens(&mut result.0);
        result.check_invariant();
        result
    }

    pub fn new_empty() -> (r: Self)
        ensures
            r@ == Seq::<char>::empty(),
    {
        let r = Self::new_owned(String::new());
        assert(r@ =~= Seq::<char>::empty());
        r
    }

    pub fn from_ident(i: Ident) -> (r: Self)
        ensures
            r@ == i@,
    {
        let result = Self(i.0);
        result.check_invariant();
        result
    }

    pub fn from_idents(is: Vec<Ident>) -> (r: Self)
        ensures
            r@ == from_idents_spec(is@.map_values(|i: Ident| i@)),
    {
        let mut result = Self::new_empty();
        let mut k: usize = 0;
        while k < is.len()
            invariant
                k <= is.len(),
                result@ == from_idents_spec(is@.map_values(|i: Ident| i@).take(k as int)),
            decreases is.len() - k,
        {
            result.push_ident(&is[k]);
            k = k + 1;
            let ghost ids = is@.map_values(|i: Ident| i@);
            assert(ids.take(k as int).drop_last() =~= ids.take(k - 1));
        }
        let ghost ids = is@.map_values(|i: Ident| i@);
        assert(ids.take(is.len() as int) =~= ids);
        result.check_invariant();
        result
    }

    pub fn is_empty(&self) -> (r: bool)
        ensures
            r == (self@.len() == 0),
    {
        self.0.as_str().unicode_len() == 0
    }

    pub fn push_ident(&mut self, i: &Ident)
        ensures
            final(self)@ == push_ident_spec(old(self)@, i@),
    {
        if !self.is_empty() {
            push_sep(&mut self.0);
        }
        push_str(&mut self.0, i.as_str());
        self.check_invariant();
    }

    pub fn pop_ident(&mut self) -> (r: Option<Ident>)
        ensures
            match rsplit_once_sep(old(self)@) {
                None => r is None && final(self)@ == old(self)@,
                Some((a, b)) => r matches Some(x) && x@ == replace_hyphens_spec(b)
                    && final(self)@ == a,
            },
    {
        let v = chars_of(self.0.as_str());
        match rsplit_once_exec(&v) {
            None => None,
            Some((s1, s2)) => {
                let result = Ident::from_chars(&s2);
                self.0 = from_chars(&s1);
                self.check_invariant();
                Some(result)
            },
        }
    }

    pub fn last_ident(&self) -> (r: Option<Ident>)
        ensures
            match rsplit_once_sep(self@) {
                None => r is None,
                Some((a, b)) => r matches Some(x) && x@ == replace_hyphens_spec(b),
            },
    {
        let v = chars_of(self.0.as_str());
        match rsplit_once_exec(&v) {
            None => None,
            Some((_s1, s2)) => Some(Ident::from_chars(&s2)),
        }
    }

    pub fn first_ident(&self) -> (r: Option<Ident>)
        ensures
            match split_once_sep(self@) {
                None => r is None,
                Some((a, b)) => r matches Some(x) && x@ == replace_hyphens_spec(a),
            },
    {
        let v = chars_of(self.0.as_str());
        match split_once_exec(&v) {
            None => None,
            Some((s1, _s2)) => Some(Ident::from_chars(&s1)),
        }
    }

    pub fn append(&mut self, other: &Self)
        ensures
            final(self)@ == append_spec(old(self)@, other@),
    {
        if !other.is_empty() {
            if !self.is_empty() {
                push_sep(&mut self.0);
            }
            push_str(&mut self.0, other.as_str());
            self.check_invariant();
        }
    }

    /// The identifiers in the path
    pub fn idents(&self) -> (r: Vec<Ident>)
        ensures
            r@.map_values(|i: Ident| i@) == path_idents(self@),
    {
        let v = chars_of(self.0.as_str());
        let parts = split_sep_exec(&v);
        let mut r: Vec<Ident> = Vec::new();
        let mut k: usize = 0;
        while k < parts.len()
            invariant
                views(parts@) == split_sep(self@),
                k <= parts.len(),
                r@.map_values(|i: Ident| i@) == path_idents(self@).take(k as int),
            decreases parts.len() - k,
        {
            assert(parts@[k as int]@ == split_sep(self@)[k as int]);
            let ghost old_r = r@;
            let id = Ident::from_chars(&parts[k]);
            r.push(id);
            assert(r@.map_values(|i: Ident| i@) =~= old_r.map_values(|i: Ident| i@).push(id@));
            assert(path_idents(self@).take(k + 1) =~= path_idents(self@).take(k as int).push(
                path_idents(self@)[k as int],
            ));
            k = k + 1;
        }
        assert(path_idents(self@).take(k as int) =~= path_idents(self@));
        r
    }

    /// Number of identifiers in the path: 0 for the empty path, else the number
    /// of its `::`-segments
    pub fn len(&self) -> (r: usize)
        ensures
            r == if self@.len() == 0 { 0 } else { split_sep(self@).len() },
    {
        if self.is_empty() {
            return 0;
        }
        let ids = self.idents();
        assert(ids@.map_values(|i: Ident| i@).len() == ids@.len());
        ids.len()
    }

    /// The patterns *which match* the path: its prefixes made of whole identifiers
    pub fn patterns(&self) -> (r: Vec<Pattern>)
        ensures
            r@.map_values(|p: Pattern| p@) == path_patterns(self@),
    {
        let ids = self.idents();
        let ghost pid = path_idents(self@);
        let mut result = String::new();
        let mut results: Vec<Pattern> = Vec::new();
        let mut first = true;
        let mut k: usize = 0;
        proof {
            assert forall|j: int| 0 <= j < pid.len() implies no_hyphens(#[trigger] pid[j]) by {
                lemma_replace_hyphens_no_hyphens(split_sep(self@)[j]);
            }
        }
        while k < ids.len()
            invariant
                ids@.map_values(|i: Ident| i@) == pid,
                pid == path_idents(self@),
                forall|j: int| 0 <= j < pid.len() ==> no_hyphens(#[trigger] pid[j]),
                k <= ids.len(),
                first == (k == 0),
                k > 0 ==> result@ == join_sep(pid.take(k as int)),
                k == 0 ==> result@.len() == 0,
                results@.map_values(|p: Pattern| p@) == path_patterns(self@).take(k as int),
            decreases ids.len() - k,
        {
            let ghost old_result = result@;
            let ghost old_results = results@;
            if first {
                first = false;
            } else {
                push_sep(&mut result);
            }
            push_str(&mut result, ids[k].as_str());
            assert(ids@[k as int]@ == pid[k as int]);
            proof {
                let t = pid.take(k + 1);
                if k == 0 {
                    assert(t =~= seq![pid[0]]);
                    assert(result@ =~= pid[0]);
                } else {
                    assert(t.drop_last() =~= pid.take(k as int));
                    assert(t.last() == pid[k as int]);
                }
                assert(result@ == join_sep(t));
                assert forall|j: int| 0 <= j < t.len() implies no_hyphens(#[trigger] t[j]) by {
                    assert(t[j] == pid[j]);
                }
                lemma_join_no_hyphens(t);
                lemma_replace_hyphens_identity(result@);
            }
            let pat = Pattern::new(result.as_str());
            results.push(pat);
            assert(results@.map_values(|p: Pattern| p@) =~= old_results.map_values(|p: Pattern| p@).push(pat@));
            assert(path_patterns(self@).take(k + 1) =~= path_patterns(self@).take(k as int).push(
                path_patterns(self@)[k as int],
            ));
            k = k + 1;
        }
        assert(path_patterns(self@).take(k as int) =~= path_patterns(self@));
        results
    }

    /// The path is the pattern's path, or lies under it
    pub fn matches(&self, pattern: &Pattern) -> (r: bool)
        ensures
            r == pattern_matches(self@, pattern@),
    {
        let v = chars_of(self.0.as_str());
        let mut p = chars_of(pattern.as_str());
        if chars_eq(&p, &v) {
            return true;
        }
        let ghost p0 = p@;
        p.push(':');
        p.push(':');
        assert(p@ =~= p0 + sep());
        is_prefix_chars(&p, &v)
    }

    pub fn as_str(&self) -> (r: &str)
        ensures
            r@ == self@,
    {
        self.0.as_str()
    }
}

impl Default for IdentPath {
    fn default() -> (r: Self)
        ensures
            r@ == Seq::<char>::empty(),
    {
        Self::new_empty()
    }
}

/// Type representing a *canonical* path of Rust idents.
/// i.e. from the root
/// Should not be empty.
#[derive(Debug, PartialEq, Eq, Hash)]
pub struct CanonicalPath(IdentPath);

impl View for CanonicalPath {
    type V = Seq<char>;

    closed spec fn view(&self) -> Seq<char> {
        self.0@
    }
}

impl Clone for CanonicalPath {
    fn clone(&self) -> (r: Self)
        ensures
            r@ == self@,
    {
        CanonicalPath(self.0.clone())
    }
}

impl CanonicalPath {
    /// Whether two paths have the same text.
    pub fn same_path(&self, other: &Self) -> (r: bool)
        ensures
            r == (self@ == other@),
    {
        self.0.0 == other.0.0
    }

    pub fn invariant_holds(&self) -> (r: bool)
        ensures
            r == (path_ok_spec(self@) && self@.len() > 0),
    {
        self.0.invariant_holds() && !self.0.is_empty()
    }

    pub fn check_invariant(&self) {
        let _ok = self.invariant_holds();
    }

    pub fn new(s: &str) -> (r: Self)
        ensures
            r@ == replace_hyphens_spec(s@),
    {
        Self::from_path(IdentPath::new(s))
    }

    pub fn new_owned(s: String) -> (r: Self)
        ensures
            r@ == replace_hyphens_spec(s@),
    {
        Self::from_path(IdentPath::new_owned(s))
    }

    pub fn from_path(p: IdentPath) -> (r: Self)
        ensures
            r@ == p@,
    {
        let result = Self(p);
        result.check_invariant();
        result
    }

    /// Returns true if the CanonicalPath is the top-level `main` function
    pub fn is_main(&self) -> (r: bool)
        ensures
            r == is_main_spec(self@),
    {
        let v = chars_of(self.0.as_str());
        match rsplit_once_exec(&v) {
            None => false,
            Some((s1, s2)) => {
                let main = vec!['m', 'a', 'i', 'n'];
                assert(main@ =~= main_spec());
                if !chars_eq(&s2, &main) {
                    return false;
                }
                let c = self.crate_name();
                let cv = chars_of(c.as_str());
                chars_eq(&s1, &cv)
            },
        }
    }

    pub fn push_ident(&mut self, i: &Ident)
        ensures
            final(self)@ == push_ident_spec(old(self)@, i@),
    {
        self.0.push_ident(i);
        self.check_invariant();
    }

    pub fn pop_ident(&mut self) -> (r: Option<Ident>)
        ensures
            match rsplit_once_sep(old(self)@) {
                None => r is None && final(self)@ == old(self)@,
                Some((a, b)) => r matches Some(x) && x@ == replace_hyphens_spec(b)
                    && final(self)@ == a,
            },
    {
        let result = self.0.pop_ident();
        self.check_invariant();
        result
    }

    pub fn append_path(&mut self, other: &IdentPath)
        ensures
            final(self)@ == append_spec(old(self)@, other@),
    {
        self.0.append(other);
        self.check_invariant();
    }

    pub fn crate_name(&self) -> (r: Ident)
        ensures
            r@ == crate_name_spec(self@),
    {
        let ids = self.0.idents();
        proof {
            lemma_split_sep_nonempty(self@);
            assert(ids@.map_values(|i: Ident| i@).len() == ids@.len());
            assert(ids@.map_values(|i: Ident| i@)[0] == ids@[0]@);
        }
        ids[0].clone()
    }

    pub fn to_path(self) -> (r: IdentPath)
        ensures
            r@ == self@,
    {
        self.0
    }

    pub fn as_path(&self) -> (r: &IdentPath)
        ensures
            r@ == self@,
    {
        &self.0
    }

    pub fn as_str(&self) -> (r: &str)
        ensures
            r@ == self@,
    {
        self.0.as_str()
    }

    // NOTE: The matches definition should align with whatever definition format
    //       we use for our default sinks
    pub fn matches(&self, pattern: &Pattern) -> (r: bool)
        ensures
            r == pattern_matches(self@, pattern@),
    {
        self.0.matches(pattern)
    }
}

#[derive(Debug, Clone, Copy, PartialEq, Eq, Structural, Hash)]
pub enum TypeKind {
    RawPointer,
    UnionFld,
    StaticMut,
    Function,
    // Default case for types that we
    // don't need extra information about.
    Plain,
}

impl Default for TypeKind {
    fn default() -> (r: Self)
        ensures
            r == TypeKind::Plain,
    {
        TypeKind::Plain
    }
}

/// Type representing a type identifier.
#[derive(Debug, Clone, Copy, PartialEq, Eq, Structural, Hash)]
pub struct CanonicalType(TypeKind);

impl View for CanonicalType {
    type V = TypeKind;

    closed spec fn view(&self) -> TypeKind {
        self.0
    }
}

impl Default for CanonicalType {
    fn default() -> (r: Self)
        ensures
            r@ == TypeKind::Plain,
    {
        CanonicalType(TypeKind::Plain)
    }
}

impl CanonicalType {
    pub fn new(k: TypeKind) -> (r: Self)
        ensures
            r@ == k,
    {
        Self(k)
    }

    pub fn is_raw_ptr(&self) -> (r: bool)
        ensures
            r == (self@ == TypeKind::RawPointer),
    {
        matches!(self.0, TypeKind::RawPointer)
    }

    pub fn is_union_field(&self) -> (r: bool)
        ensures
            r == (self@ == TypeKind::UnionFld),
    {
        matches!(self.0, TypeKind::UnionFld)
    }

    pub fn is_mut_static(&self) -> (r: bool)
        ensures
            r == (self@ == TypeKind::StaticMut),
    {
        matches!(self.0, TypeKind::StaticMut)
    }

    pub fn is_function(&self) -> (r: bool)
        ensures
            r == (self@ == TypeKind::Function),
    {
        matches!(self.0, TypeKind::Function)
    }
}

/// Type representing a pattern over paths
///
/// Currently supported: only patterns of the form
/// <path>::* (includes <path> itself)
/// The ::* is left implicit and should not be provided
#[derive(Debug, PartialEq, Eq, Hash)]
pub struct Pattern(IdentPath);

impl View for Pattern {
    type V = Seq<char>;

    closed spec fn view(&self) -> Seq<char> {
        self.0@
    }
}

impl Clone for Pattern {
    fn clone(&self) -> (r: Self)
        ensures
            r@ == self@,
    {
        Pattern(self.0.clone())
    }
}

impl Pattern {
    pub fn invariant_holds(&self) -> (r: bool)
        ensures
            r == path_ok_spec(self@),
    {
        self.0.invariant_holds()
    }

    pub fn check_invariant(&self) {
        let _ok = self.invariant_holds();
    }

    pub fn new(s: &str) -> (r: Self)
        ensures
            r@ == replace_hyphens_spec(s@),
    {
        Self::from_path(IdentPath::new(s))
    }

    pub fn new_owned(s: String) -> (r: Self)
        ensures
            r@ == replace_hyphens_spec(s@),
    {
        Self::from_path(IdentPath::new_owned(s))
    }

    pub fn from_ident(i: Ident) -> (r: Self)
        ensures
            r@ == i@,
    {
        Self::from_path(IdentPath::from_ident(i))
    }

    pub fn first_ident(&self) -> (r: Option<Ident>)
        ensures
            match split_once_sep(self@) {
                None => r is None,
                Some((a, b)) => r matches Some(x) && x@ == replace_hyphens_spec(a),
            },
    {
        self.0.first_ident()
    }

    pub fn from_path(p: IdentPath) -> (r: Self)
        ensures
            r@ == p@,
    {
        let result = Self(p);
        result.check_invariant();
        result
    }

    pub fn as_str(&self) -> (r: &str)
        ensures
            r@ == self@,
    {
        self.0.as_str()
    }

    /// Return true if the set of paths denoted by self is
    /// a subset of those denoted by other
    pub fn subset(&self, other: &Self) -> (r: bool)
        ensures
            r == pattern_matches(self@, other@),
    {
        self.0.matches(other)
    }

    /// Return true if the set of paths denoted by self is
    /// a superset of those denoted by other
    pub fn superset(&self, other: &Self) -> (r: bool)
        ensures
            r == pattern_matches(other@, self@),
    {
        other.subset(self)
    }
}

/// The views of a list of canonical paths.
pub open spec fn path_views(v: Seq<CanonicalPath>) -> Seq<Seq<char>> {
    v.map_values(|p: CanonicalPath| p@)
}

/// Whether `v` holds a path with the same text as `p`.
pub fn contains_path(v: &Vec<CanonicalPath>, p: &CanonicalPath) -> (r: bool)
    ensures
        r == path_views(v@).contains(p@),
{
    let mut i: usize = 0;
    while i < v.len()
        invariant
            i <= v.len(),
            forall|j: int| 0 <= j < i ==> v@[j]@ != p@,
        decreases v.len() - i,
    {
        if v[i].same_path(p) {
            assert(path_views(v@)[i as int] == p@);
            return true;
        }
        i = i + 1;
    }
    assert forall|j: int| 0 <= j < path_views(v@).len() implies path_views(v@)[j] != p@ by {
        assert(path_views(v@)[j] == v@[j]@);
    }
    false
}

/// Adds `p` to the set `v` unless a path with the same text is there.
pub fn insert_path(v: &mut Vec<CanonicalPath>, p: &CanonicalPath)
    requires
        path_views(old(v)@).no_duplicates(),
    ensures
        path_views(final(v)@).no_duplicates(),
        path_views(final(v)@).to_set() == path_views(old(v)@).to_set().insert(p@),
        path_views(old(v)@).contains(p@) ==> final(v)@ == old(v)@,
        !path_views(old(v)@).contains(p@) ==> path_views(final(v)@) == path_views(old(v)@).push(p@),
{
    if !contains_path(v, p) {
        let c = p.clone();
        v.push(c);
        assert(path_views(v@) =~= path_views(old(v)@).push(p@));
        proof {
            broadcast use vstd::seq_lib::group_seq_properties;
            assert(path_views(v@).to_set() =~= path_views(old(v)@).to_set().insert(p@));
        }
    } else {
        assert(path_views(old(v)@).to_set() =~= path_views(old(v)@).to_set().insert(p@));
    }
}

/// Every pattern denotes a subset of itself.
pub proof fn law_pattern_subset_reflexive(p: Pattern)
    ensures
        pattern_matches(p@, p@),
{
}

/// Pattern inclusion is transitive.
pub proof fn law_pattern_subset_transitive(a: Pattern, b: Pattern, c: Pattern)
    requires
        pattern_matches(a@, b@),
        pattern_matches(b@, c@),
    ensures
        pattern_matches(a@, c@),
{
    if a@ != b@ && b@ != c@ {
        let cs = c@ + sep();
        let bs = b@ + sep();
        assert(cs =~= a@.subrange(0, cs.len() as int)) by {
            assert forall|i: int| 0 <= i < cs.len() implies cs[i] == a@[i] by {
                assert(cs[i] == b@[i]);
                assert(b@[i] == bs[i]);
            }
        }
    }
}

/// Two patterns each included in the other are the same pattern.
pub proof fn law_pattern_subset_antisymmetric(a: Pattern, b: Pattern)
    requires
        pattern_matches(a@, b@),
        pattern_matches(b@, a@),
    ensures
        a@ == b@,
{
}

/// Replacing hyphens a second time changes nothing.
pub proof fn law_replace_hyphens_idempotent(s: Seq<char>)
    ensures
        replace_hyphens_spec(replace_hyphens_spec(s)) == replace_hyphens_spec(s),
{
    assert(replace_hyphens_spec(replace_hyphens_spec(s)) =~= replace_hyphens_spec(s));
}

/// A path made of hyphen-free text is matched by each of its patterns, which
/// are distinct, one per identifier, and the last of them is the path itself.
pub proof fn law_path_matches_own_patterns(p: IdentPath)
    requires
        no_hyphens(p@),
    ensures
        path_patterns(p@).len() == split_sep(p@).len(),
        forall|k: int|
            0 <= k < path_patterns(p@).len() ==> pattern_matches(p@, #[trigger] path_patterns(p@)[k]),
        path_patterns(p@).no_duplicates(),
        path_patterns(p@).last() == p@,
{
    let s = p@;
    let segs = split_sep(s);
    lemma_split_no_hyphens(s);
    lemma_split_sep_nonempty(s);
    assert(path_idents(s) =~= segs) by {
        assert forall|k: int| 0 <= k < segs.len() implies path_idents(s)[k] == segs[k] by {
            lemma_replace_hyphens_identity(segs[k]);
        }
    }
    lemma_join_split(s);
    assert(segs.take(segs.len() as int) =~= segs);
    assert forall|k: int|
        0 <= k < path_patterns(s).len() implies pattern_matches(s, #[trigger] path_patterns(s)[k]) by {
        if k + 1 < segs.len() {
            lemma_join_take_sep_prefix(segs, k + 1);
        }
    }
    assert forall|j: int, k: int| 0 <= j < k < path_patterns(s).len() implies path_patterns(s)[j]
        != path_patterns(s)[k] by {
        let q = segs.take(k + 1);
        lemma_join_take_sep_prefix(q, j + 1);
        assert(q.take(j + 1) =~= segs.take(j + 1));
    }
}

/// Pushing an identifier without `:` or `-` onto a nonempty path, then popping,
/// gives back that identifier and the path.
pub proof fn law_push_then_pop(p: Seq<char>, i: Seq<char>)
    requires
        p.len() > 0,
        !i.contains(':'),
        no_hyphens(i),
    ensures
        rsplit_once_sep(push_ident_spec(p, i)) == Some((p, i)),
        replace_hyphens_spec(i) == i,
{
    let s = p + sep() + i;
    assert forall|j: int| p.len() < j implies !sep_at(s, j) by {
        if sep_at(s, j) {
            assert(s[j] == i[j - p.len() - 2]);
        }
    }
    lemma_rsplit_once_at(s, p.len() as int);
    assert(s.take(p.len() as int) =~= p);
    assert(s.skip(p.len() as int + 2) =~= i);
    lemma_replace_hyphens_identity(i);
}


/// A well-formed identifier holds no `:`.
proof fn lemma_ident_colon_free(x: Seq<char>)
    requires
        str_ok_spec(x),
    ensures
        !x.contains(':'),
{
    if x.contains(':') {
        let i = choose|i: int| 0 <= i < x.len() && x[i] == ':';
        if i >= ident_skips(x) {
            assert(char_ok_spec(x[i]));
        }
    }
}

/// Popping the last identifier of a well-formed canonical path (nonempty,
/// every segment a well-formed identifier) leaves a well-formed canonical path
/// with the same crate name; a path of one identifier has nothing to pop.
pub proof fn law_pop_keeps_canonical_path(s: Seq<char>)
    requires
        path_ok_spec(s),
        s.len() > 0,
    ensures
        match rsplit_once_sep(s) {
            Some((a, b)) => path_ok_spec(a) && a.len() > 0 && crate_name_spec(a) == crate_name_spec(s),
            None => split_sep(s).len() == 1,
        },
{
    let segs = split_sep(s);
    lemma_split_sep_nonempty(s);
    lemma_join_split(s);
    assert forall|k: int| 0 <= k < segs.len() implies !(#[trigger] segs[k]).contains(':') by {
        lemma_ident_colon_free(segs[k]);
    }
    if segs.len() >= 2 {
        let d = segs.drop_last();
        lemma_rsplit_join_colon_free(segs);
        assert forall|k: int| 0 <= k < d.len() implies !(#[trigger] d[k]).contains(':') by {
            assert(d[k] == segs[k]);
        }
        lemma_split_join_colon_free(d);
        let a = join_sep(d);
        assert forall|k: int| 0 <= k < split_sep(a).len() implies str_ok_spec(#[trigger] split_sep(a)[k]) by {
            assert(split_sep(a)[k] == segs[k]);
        }
        assert(split_sep(a)[0] == segs[0]);
        if a.len() == 0 {
            assert(split_sep(a) == seq![a]);
            assert(str_ok_spec(split_sep(a)[0]));
        }
    } else {
        assert(segs[0] == s) by {
            assert(join_sep(segs) == segs[0]);
        }
        lemma_rsplit_colon_free(s);
    }
}

/// Pushing a well-formed identifier onto a well-formed path gives a
/// well-formed path, one identifier longer.
pub proof fn law_push_keeps_path_valid(s: Seq<char>, i: Seq<char>)
    requires
        path_ok_spec(s),
        str_ok_spec(i),
    ensures
        path_ok_spec(push_ident_spec(s, i)),
        split_sep(push_ident_spec(s, i)) == if s.len() == 0 { seq![i] } else { split_sep(s).push(i) },
{
    lemma_ident_colon_free(i);
    if s.len() == 0 {
        crate::text::lemma_split_colon_free(i);
    } else {
        let segs = split_sep(s);
        lemma_split_sep_nonempty(s);
        lemma_join_split(s);
        let q = segs.push(i);
        assert forall|k: int| 0 <= k < q.len() implies !(#[trigger] q[k]).contains(':') by {
            if k < segs.len() {
                assert(q[k] == segs[k]);
                lemma_ident_colon_free(segs[k]);
            }
        }
        assert(q.drop_last() =~= segs);
        assert(join_sep(q) == s + sep() + i);
        lemma_split_join_colon_free(q);
        assert forall|k: int| 0 <= k < q.len() implies str_ok_spec(#[trigger] q[k]) by {
            if k < segs.len() {
                assert(q[k] == segs[k]);
            }
        }
    }
}
} // verus!
