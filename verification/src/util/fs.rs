//! Filesystem util
use vstd::prelude::*;
use crate::path_ops::{path_extension, spec_path_extension};
use crate::text::{chars_of, chars_eq, copy_string};

verus! {
/// Whether a walked entry (path, is-a-file) is a file with extension `ext`.
pub open spec fn has_extension(e: (Seq<char>, bool), ext: Seq<char>) -> bool {
    e.1 && spec_path_extension(e.0) == Some(ext)
}

/// Of the entries of a directory walk (each a path and whether it is a file),
/// the files whose extension is `ext`, in walk order.
pub fn walk_files_with_extension(entries: &Vec<(String, bool)>, ext: &str) -> (r: Vec<String>)
    ensures
        r@.map_values(|s: String| s@) == entries@.map_values(
            |e: (String, bool)| (e.0@, e.1),
        ).filter(|e: (Seq<char>, bool)| has_extension(e, ext@)).map_values(
            |e: (Seq<char>, bool)| e.0,
        ),
{
    let ev = chars_of(ext);
    let ghost es = entries@.map_values(|e: (String, bool)| (e.0@, e.1));
    let ghost pred = |e: (Seq<char>, bool)| has_extension(e, ext@);
    let mut r: Vec<String> = Vec::new();
    let mut i: usize = 0;
    while i < entries.len()
        invariant
            ev@ == ext@,
            es == entries@.map_values(|e: (String, bool)| (e.0@, e.1)),
            pred == (|e: (Seq<char>, bool)| has_extension(e, ext@)),
            i <= entries.len(),
            r@.map_values(|s: String| s@) == es.take(i as int).filter(pred).map_values(
                |e: (Seq<char>, bool)| e.0,
            ),
        decreases entries.len() - i,
    {
        let ghost old_r = r@;
        proof {
            reveal_with_fuel(Seq::filter, 1);
            assert(es.take(i + 1).drop_last() =~= es.take(i as int));
        }
        let (p, is_file) = (&entries[i].0, entries[i].1);
        let mut keep = false;
        if is_file {
            match path_extension(p.as_str()) {
                Some(x) => {
                    let xv = chars_of(x.as_str());
                    keep = chars_eq(&xv, &ev);
                },
                None => {},
            }
        }
        assert(keep == pred(es[i as int]));
        if keep {
            let c = copy_string(p.as_str());
            r.push(c);
            assert(r@.map_values(|s: String| s@) =~= old_r.map_values(|s: String| s@).push(c@));
        }
        i = i + 1;
    }
    assert(es.take(entries.len() as int) =~= es);
    r
}

} // verus!
