//! File-system path operations, as `std::path::Path` performs them (joining
//! written out for Unix systems).
use vstd::prelude::*;

verus! {

/// What `Path::parent` gives for a path (`None` for a root or the empty path).
pub uninterp spec fn spec_path_parent(p: Seq<char>) -> Option<Seq<char>>;

/// What `Path::file_name` gives for a path (`None` when it ends in `..`).
pub uninterp spec fn spec_path_file_name(p: Seq<char>) -> Option<Seq<char>>;

/// What `Path::join` gives for two paths on a Unix system: `b` itself where it
/// is absolute (starts with `/`); else `a`, a `/` where `a` is nonempty and does
/// not end with one, and `b`.
pub open spec fn spec_path_join(a: Seq<char>, b: Seq<char>) -> Seq<char> {
    if b.len() > 0 && b[0] == '/' {
        b
    } else if a.len() > 0 && a.last() != '/' {
        a + seq!['/'] + b
    } else {
        a + b
    }
}

/// What `Path::extension` gives for a path.
pub uninterp spec fn spec_path_extension(p: Seq<char>) -> Option<Seq<char>>;

/// Calls `std::path::Path::parent`; the result is the name `spec_path_parent`
/// applied to the path. Nothing more about the name is stated.
#[verifier::external_body]
pub(crate) fn path_parent(p: &str) -> (r: Option<String>)
    ensures
        match r {
            None => spec_path_parent(p@) is None,
            Some(s) => spec_path_parent(p@) == Some(s@),
        },
{
    std::path::Path::new(p).parent().map(|x| x.to_string_lossy().to_string())
}

/// Calls `std::path::Path::file_name`; the result is the name `spec_path_file_name`
/// applied to the path. Nothing more about the name is stated.
#[verifier::external_body]
pub(crate) fn path_file_name(p: &str) -> (r: Option<String>)
    ensures
        match r {
            None => spec_path_file_name(p@) is None,
            Some(s) => spec_path_file_name(p@) == Some(s@),
        },
{
    std::path::Path::new(p).file_name().map(|x| x.to_string_lossy().to_string())
}

/// Joins two paths as `Path::join` does on a Unix system.
pub(crate) fn path_join(a: &str, b: &str) -> (r: String)
    ensures
        r@ == spec_path_join(a@, b@),
{
    let va = crate::text::chars_of(a);
    let vb = crate::text::chars_of(b);
    if vb.len() > 0 && vb[0] == '/' {
        return crate::text::from_chars(&vb);
    }
    let mut s = crate::text::from_chars(&va);
    if va.len() > 0 && va[va.len() - 1] != '/' {
        crate::text::string_push(&mut s, '/');
    }
    crate::text::push_str(&mut s, b);
    proof {
        if va@.len() > 0 && va@.last() != '/' {
            assert(s@ =~= a@ + seq!['/'] + b@);
        } else {
            assert(s@ =~= a@ + b@);
        }
    }
    s
}

/// Calls `std::path::Path::extension`; the result is the name `spec_path_extension`
/// applied to the path. Nothing more about the name is stated.
#[verifier::external_body]
pub(crate) fn path_extension(p: &str) -> (r: Option<String>)
    ensures
        match r {
            None => spec_path_extension(p@) is None,
            Some(s) => spec_path_extension(p@) == Some(s@),
        },
{
    std::path::Path::new(p).extension().map(|x| x.to_string_lossy().to_string())
}

} // verus!
