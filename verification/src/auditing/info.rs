//! What is shown to an auditor about an effect: how much source around it, and
//! the call stack that leads to it.
use vstd::prelude::*;

use crate::effect::SrcLoc;
use crate::path_ops::{path_join, spec_path_join};

verus! {

#[derive(Debug, Clone, Copy, PartialEq, Eq, Structural)]
pub struct Config {
    /// The number of lines before an effect to show
    pub lines_before_effect: u8,
    /// The number of lines after an effect to show
    pub lines_after_effect: u8,
}

impl Default for Config {
    fn default() -> (r: Self)
        ensures
            r.lines_before_effect == 4,
            r.lines_after_effect == 1,
    {
        Config { lines_before_effect: 4, lines_after_effect: 1 }
    }
}

impl Config {
    pub fn new(lines_before: u8, lines_after: u8) -> (r: Self)
        ensures
            r.lines_before_effect == lines_before,
            r.lines_after_effect == lines_after,
    {
        Self { lines_before_effect: lines_before, lines_after_effect: lines_after }
    }
}

/// One entry of a call stack: the function's declaration line (none when it is
/// missing), the file, and the line.
#[derive(Debug)]
pub struct CallStackInfo {
    pub fn_string: Option<String>,
    pub filename: String,
    pub lineno: usize,
}

impl CallStackInfo {
    pub fn new(fn_string: Option<String>, filename: String, lineno: usize) -> (r: Self)
        ensures
            r.fn_string == fn_string,
            r.filename == filename,
            r.lineno == lineno,
    {
        Self { fn_string, filename, lineno }
    }
}

/// The call stack entry for an effect whose function declaration is missing:
/// no declaration, and the path built from the effect's directory and file,
/// joined with `/`, at the effect's first line.
pub fn missing_fn_decl_info(effect_loc: &SrcLoc) -> (r: CallStackInfo)
    ensures
        r.fn_string is None,
        r.filename@ == spec_path_join(spec_path_join(effect_loc@.dir, effect_loc@.file), "/"@),
        r.lineno == effect_loc@.start_line,
{
    let path_list = path_join(effect_loc.dir().as_str(), effect_loc.file().as_str());
    let full_path_str = path_join(path_list.as_str(), "/");
    CallStackInfo::new(None, full_path_str, effect_loc.start_line())
}


/// Where line `i` of a file starts, in bytes, given the byte length of each
/// line (every line followed by a newline).
pub open spec fn line_start(lens: Seq<usize>, i: int) -> int
    decreases i,
{
    if i <= 0 || i > lens.len() {
        0
    } else {
        line_start(lens, i - 1) + lens[i - 1] + 1
    }
}

/// Where line `i` of a file ends, its newline included, in bytes.
pub open spec fn line_end(lens: Seq<usize>, i: int) -> int {
    line_start(lens, i) + lens[i] + 1
}

proof fn lemma_line_start_mono(lens: Seq<usize>, i: int, j: int)
    requires
        0 <= i <= j <= lens.len(),
    ensures
        line_start(lens, i) <= line_start(lens, j),
        i < j ==> line_end(lens, i) <= line_start(lens, j),
    decreases j - i,
{
    if i < j {
        lemma_line_start_mono(lens, i, j - 1);
    }
}

/// The byte ranges that show an effect in its file: the effect's own lines,
/// and the secondary ranges around it.
#[derive(Debug)]
pub struct SrcLabels {
    pub primary: (usize, usize),
    pub secondary: Vec<(usize, usize)>,
}

/// The first line (counted from 0) shown before an effect starting on line
/// `start` (counted from 0): up to `before` lines earlier, not before the first.
pub open spec fn window_first(start: int, before: int) -> int {
    if start >= before {
        start - before
    } else {
        0
    }
}

/// What to show of an effect at `effect_loc` (lines counted from 1) in a file
/// whose lines have the byte lengths `line_lens`: the effect's lines as the
/// primary range, and as secondary range the window from `lines_before_effect`
/// lines before it to `lines_after_effect` lines after it. Where the caller's
/// signature at `fn_loc` lies wholly before the window, it is shown as a range
/// of its own; where only its start does, the window is stretched back to it.
pub fn effect_src_labels(line_lens: &Vec<usize>, effect_loc: &SrcLoc, fn_loc: Option<&SrcLoc>, config: &Config) -> (r: SrcLabels)
    requires
        1 <= effect_loc@.start_line,
        1 <= effect_loc@.end_line,
        effect_loc@.start_line <= line_lens@.len(),
        effect_loc@.end_line - 1 + config.lines_after_effect < line_lens@.len(),
        fn_loc matches Some(l) ==> 1 <= l@.start_line && 1 <= l@.end_line,
        line_start(line_lens@, line_lens@.len() as int) <= usize::MAX,
    ensures
        ({
            let lens = line_lens@;
            let s0 = effect_loc@.start_line - 1;
            let e0 = effect_loc@.end_line - 1;
            let first = window_first(s0, config.lines_before_effect as int);
            let last = e0 + config.lines_after_effect;
            let around = (line_start(lens, first), line_end(lens, last));
            &&& r.primary.0 == line_start(lens, s0)
            &&& r.primary.1 == line_end(lens, e0)
            &&& r.secondary@.map_values(|x: (usize, usize)| (x.0 as int, x.1 as int)) == match fn_loc {
                Some(l) => if l@.start_line - 1 < first && l@.end_line - 1 < first {
                    seq![(line_start(lens, l@.start_line - 1), line_end(lens, l@.end_line - 1)), around]
                } else if l@.start_line - 1 < first {
                    seq![(line_start(lens, l@.start_line - 1), around.1)]
                } else {
                    seq![around]
                },
                None => seq![around],
            }
        }),
{
    let n = line_lens.len();
    let s0 = effect_loc.start_line() - 1;
    let e0 = effect_loc.end_line() - 1;
    let before = config.lines_before_effect as usize;
    let first = if s0 >= before { s0 - before } else { 0 };
    let last = e0 + config.lines_after_effect as usize;
    let primary = (line_start_exec(line_lens, s0), line_end_exec(line_lens, e0));
    let around = (line_start_exec(line_lens, first), line_end_exec(line_lens, last));
    let mut secondary: Vec<(usize, usize)> = Vec::new();
    match fn_loc {
        Some(l) => {
            let ls = l.start_line() - 1;
            let le = l.end_line() - 1;
            if ls < first && le < first {
                secondary.push((line_start_exec(line_lens, ls), line_end_exec(line_lens, le)));
                secondary.push(around);
            } else if ls < first {
                secondary.push((line_start_exec(line_lens, ls), around.1));
            } else {
                secondary.push(around);
            }
        },
        None => {
            secondary.push(around);
        },
    }
    proof {
        assert(secondary@.map_values(|x: (usize, usize)| (x.0 as int, x.1 as int)) =~= match fn_loc {
            Some(l) => if l@.start_line - 1 < first && l@.end_line - 1 < first {
                seq![(line_start(line_lens@, l@.start_line - 1), line_end(line_lens@, l@.end_line - 1)), (line_start(line_lens@, first as int), line_end(line_lens@, last as int))]
            } else if l@.start_line - 1 < first {
                seq![(line_start(line_lens@, l@.start_line - 1), line_end(line_lens@, last as int))]
            } else {
                seq![(line_start(line_lens@, first as int), line_end(line_lens@, last as int))]
            },
            None => seq![(line_start(line_lens@, first as int), line_end(line_lens@, last as int))],
        });
    }
    SrcLabels { primary, secondary }
}

/// Where line `i` starts, in bytes.
fn line_start_exec(lens: &Vec<usize>, i: usize) -> (r: usize)
    requires
        i <= lens@.len(),
        line_start(lens@, lens@.len() as int) <= usize::MAX,
    ensures
        r == line_start(lens@, i as int),
{
    let mut acc: usize = 0;
    let mut k: usize = 0;
    while k < i
        invariant
            k <= i <= lens@.len(),
            line_start(lens@, lens@.len() as int) <= usize::MAX,
            acc == line_start(lens@, k as int),
        decreases i - k,
    {
        proof {
            lemma_line_start_mono(lens@, k + 1, lens@.len() as int);
        }
        acc = acc + lens[k] + 1;
        k = k + 1;
    }
    acc
}

/// Where line `i` ends, its newline included, in bytes.
fn line_end_exec(lens: &Vec<usize>, i: usize) -> (r: usize)
    requires
        i < lens@.len(),
        line_start(lens@, lens@.len() as int) <= usize::MAX,
    ensures
        r == line_end(lens@, i as int),
{
    let st = line_start_exec(lens, i);
    proof {
        lemma_line_start_mono(lens@, i as int, lens@.len() as int);
        lemma_line_start_mono(lens@, i + 1, lens@.len() as int);
    }
    st + lens[i] + 1
}
} // verus!
