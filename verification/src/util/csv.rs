//! CSV utility functions
use vstd::prelude::*;
use crate::text::{chars_of, from_chars, remove_commas};

verus! {
/// The string with every comma removed.
pub fn sanitize_comma(s: &str) -> (r: String)
    ensures
        r@ == remove_commas(s@),
{
    let v = chars_of(s);
    let mut out: Vec<char> = Vec::new();
    let mut i: usize = 0;
    while i < v.len()
        invariant
            v@ == s@,
            i <= v.len(),
            out@ == remove_commas(v@.take(i as int)),
        decreases v.len() - i,
    {
        let c = v[i];
        proof {
            reveal_with_fuel(Seq::filter, 1);
            assert(v@.take(i + 1).drop_last() =~= v@.take(i as int));
        }
        if c != ',' {
            out.push(c);
        }
        i = i + 1;
    }
    assert(v@.take(v.len() as int) =~= v@);
    from_chars(&out)
}

/// A path (held as text) with every comma removed.
pub fn sanitize_path(p: &str) -> (r: String)
    ensures
        r@ == remove_commas(p@),
{
    sanitize_comma(p)
}

} // verus!
