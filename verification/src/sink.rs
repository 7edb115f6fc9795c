//! Hard-coded list of function patterns of interest, a.k.a. sinks.
use vstd::prelude::*;

use crate::ident::{pattern_matches, CanonicalPath, Ident, IdentPath, Pattern};
use crate::text::{replace_hyphens_spec, split_once_sep};

verus! {

/// The last of `sinks` (with hyphens replaced) that `callee` matches as a pattern, if any.
pub open spec fn sink_match(callee: Seq<char>, sinks: Seq<Seq<char>>) -> Option<Seq<char>>
    decreases sinks.len(),
{
    if sinks.len() == 0 {
        None
    } else if pattern_matches(callee, replace_hyphens_spec(sinks.last())) {
        Some(replace_hyphens_spec(sinks.last()))
    } else {
        sink_match(callee, sinks.drop_last())
    }
}

/// The hard-coded list of sink patterns.
pub open spec fn sink_patterns() -> Seq<Seq<char>> {
    seq![
        "std::arch"@,
        "std::backtrace"@,
        "std::env"@,
        "std::ffi"@,
        "std::fs"@,
        "std::intrinsics"@,
        "std::io"@,
        "std::mem"@,
        "std::net"@,
        "std::os"@,
        "std::path"@,
        "std::panic"@,
        "std::process"@,
        "std::simd"@,
        "libc"@,
        "winapi"@,
        "mio::net"@,
        "mio::unix"@,
        "tokio::fs"@,
        "tokio::io"@,
        "tokio::net"@,
        "tokio::process"@,
        "hyper::client"@,
        "hyper::server"@,
        "tokio_util::udp"@,
        "tokio_util::net"@,
        "socket2"@,
    ]
}

/// A sink: the pattern that a call matched.
#[derive(Debug, PartialEq, Eq, Hash)]
pub struct Sink(Pattern);

impl View for Sink {
    type V = Seq<char>;

    closed spec fn view(&self) -> Seq<char> {
        self.0@
    }
}

impl Clone for Sink {
    fn clone(&self) -> (r: Self)
        ensures
            r@ == self@,
    {
        Sink(self.0.clone())
    }
}

impl Sink {
    /// Get the sink pattern matching a callee: the last of `sinks` that the callee matches.
    pub fn new_match(callee: &CanonicalPath, sinks: &Vec<IdentPath>) -> (r: Option<Self>)
        ensures
            match sink_match(callee@, sinks@.map_values(|p: IdentPath| p@)) {
                None => r is None,
                Some(p) => r matches Some(s) && s@ == p,
            },
    {
        let ghost ss = sinks@.map_values(|p: IdentPath| p@);
        let mut result: Option<Pattern> = None;
        let mut k: usize = 0;
        while k < sinks.len()
            invariant
                ss == sinks@.map_values(|p: IdentPath| p@),
                k <= sinks.len(),
                match sink_match(callee@, ss.take(k as int)) {
                    None => result is None,
                    Some(p) => result matches Some(x) && x@ == p,
                },
            decreases sinks.len() - k,
        {
            let pat = Pattern::new(sinks[k].as_str());
            assert(ss.take(k + 1).drop_last() =~= ss.take(k as int));
            assert(ss.take(k + 1).last() == sinks@[k as int]@);
            if callee.matches(&pat) {
                result = Some(pat);
            }
            k = k + 1;
        }
        assert(ss.take(sinks.len() as int) =~= ss);
        match result {
            Some(p) => Some(Self(p)),
            None => None,
        }
    }

    pub fn first_ident(&self) -> (r: Option<Ident>)
        ensures
            match split_once_sep(self@) {
                None => r is None,
                Some((a, b)) => r matches Some(x) && x@ == replace_hyphens_spec(a),
            },
    {
        self.0.first_ident()
    }

    /// convert to str
    pub fn as_str(&self) -> (r: &str)
        ensures
            r@ == self@,
    {
        self.0.as_str()
    }

    /// The hard-coded sink patterns, each once.
    pub fn default_sinks() -> (r: Vec<IdentPath>)
        ensures
            r@.map_values(|p: IdentPath| p@) == sink_patterns().map_values(
                |s: Seq<char>| replace_hyphens_spec(s),
            ),
    {
        let pats: [&str; 27] = [
            "std::arch",
            "std::backtrace",
            "std::env",
            "std::ffi",
            "std::fs",
            "std::intrinsics",
            "std::io",
            "std::mem",
            "std::net",
            "std::os",
            "std::path",
            "std::panic",
            "std::process",
            "std::simd",
            "libc",
            "winapi",
            "mio::net",
            "mio::unix",
            "tokio::fs",
            "tokio::io",
            "tokio::net",
            "tokio::process",
            "hyper::client",
            "hyper::server",
            "tokio_util::udp",
            "tokio_util::net",
            "socket2",
        ];
        assert(pats@.map_values(|s: &str| s@) =~= sink_patterns());
        let mut r: Vec<IdentPath> = Vec::new();
        let mut k: usize = 0;
        while k < 27
            invariant
                k <= 27,
                pats@.map_values(|s: &str| s@) == sink_patterns(),
                r@.map_values(|p: IdentPath| p@) == sink_patterns().take(k as int).map_values(
                    |s: Seq<char>| replace_hyphens_spec(s),
                ),
            decreases 27 - k,
        {
            let ghost old_r = r@;
            let p = IdentPath::new(pats[k]);
            r.push(p);
            assert(pats@.map_values(|s: &str| s@)[k as int] == pats@[k as int]@);
            assert(r@.map_values(|p: IdentPath| p@) =~= old_r.map_values(|p: IdentPath| p@).push(p@));
            assert(sink_patterns().take(k + 1).map_values(|s: Seq<char>| replace_hyphens_spec(s))
                =~= sink_patterns().take(k as int).map_values(|s: Seq<char>| replace_hyphens_spec(s)).push(
                replace_hyphens_spec(sink_patterns()[k as int])));
            k = k + 1;
        }
        assert(sink_patterns().take(27) =~= sink_patterns());
        r
    }
}

} // verus!
