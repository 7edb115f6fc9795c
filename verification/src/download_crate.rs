//! Where crates are downloaded from and how they are named once downloaded,
//! and reading the latest version of a crate from `cargo search`.
use vstd::prelude::*;

use crate::text::{copy_string, push_str};

verus! {

/// The crates.io download URL of a package version.
pub open spec fn crates_io_url(name: Seq<char>, version: Seq<char>) -> Seq<char> {
    "https://crates.io/api/v1/crates/"@ + name + "/"@ + version + "/download"@
}

pub fn get_crates_io_url(package_name: &str, package_version: &str) -> (r: String)
    ensures
        r@ == crates_io_url(package_name@, package_version@),
{
    let mut s = copy_string("https://crates.io/api/v1/crates/");
    push_str(&mut s, package_name);
    push_str(&mut s, "/");
    push_str(&mut s, package_version);
    push_str(&mut s, "/download");
    s
}

/// The directory a downloaded package unpacks to: `name-version`.
pub fn package_dir_name(package_name: &str, package_version: &str) -> (r: String)
    ensures
        r@ == package_name@ + "-"@ + package_version@,
{
    let mut s = copy_string(package_name);
    push_str(&mut s, "-");
    push_str(&mut s, package_version);
    s
}

/// The file a package is downloaded to: `name-version.tar.gz`.
pub fn tarball_name(package_name: &str, package_version: &str) -> (r: String)
    ensures
        r@ == package_name@ + "-"@ + package_version@ + ".tar.gz"@,
{
    let mut s = package_dir_name(package_name, package_version);
    push_str(&mut s, ".tar.gz");
    s
}

/// `s` occurs in `t`.
pub open spec fn is_substring(s: Seq<char>, t: Seq<char>) -> bool {
    exists|i: int, j: int| 0 <= i <= j <= t.len() && t.subrange(i, j) == s
}

/// What compiling `pattern` with `regex::Regex::new` and then searching `text`
/// with `Regex::captures` gives: `None` where the pattern does not compile;
/// else the text of each capture group of the first match (`None` for a group
/// that took no part in it), or `None` where nothing matches.
pub uninterp spec fn spec_regex_captures(pattern: Seq<char>, text: Seq<char>) -> Option<
    Option<Seq<Option<Seq<char>>>>,
>;

/// The views of optional capture groups.
pub open spec fn caps_view(c: Option<Vec<Option<String>>>) -> Option<Seq<Option<Seq<char>>>> {
    match c {
        Some(v) => Some(opt_views(v@)),
        None => None,
    }
}

/// Calls `regex::Regex::new(pattern)` and, where it compiles, `captures(text)`,
/// giving each group's text. Stated: the result is `spec_regex_captures` of the
/// pattern and the text; where there is a match, group 0 (the whole match) is
/// present, and every group present is a substring of the text.
#[verifier::external_body]
fn regex_captures(pattern: &str, text: &str) -> (r: Option<Option<Vec<Option<String>>>>)
    ensures
        match r {
            Some(c) => spec_regex_captures(pattern@, text@) == Some(caps_view(c)),
            None => spec_regex_captures(pattern@, text@) is None,
        },
        r matches Some(Some(v)) ==> v@.len() >= 1 && v@[0] is Some && forall|i: int|
            0 <= i < v@.len() ==> (#[trigger] v@[i] matches Some(s) ==> is_substring(s@, text@)),
{
    match regex::Regex::new(pattern) {
        Ok(re) => Some(
            re.captures(text).map(|c| c.iter().map(|m| m.map(|m| m.as_str().to_string())).collect()),
        ),
        Err(_) => None,
    }
}

/// The version named by the captures of a `cargo search` line: the second group,
/// where the first group is the package's name.
pub open spec fn version_of_captures(caps: Option<Seq<Option<Seq<char>>>>, package_name: Seq<char>) -> Option<
    Seq<char>,
> {
    match caps {
        Some(v) => if v.len() > 2 && v[1] == Some(package_name) && v[2] is Some {
            v[2]
        } else {
            None
        },
        None => None,
    }
}

/// The views of a list of optional strings.
pub open spec fn opt_views(v: Seq<Option<String>>) -> Seq<Option<Seq<char>>> {
    v.map_values(|o: Option<String>| match o {
        Some(s) => Some(s@),
        None => None,
    })
}

/// The version given by the captures of a `cargo search` line, if they name
/// the package.
pub fn version_from_captures(caps: &Option<Vec<Option<String>>>, package_name: &str) -> (r:
    Option<String>)
    ensures
        r matches Some(s) ==> version_of_captures(
            match caps {
                Some(v) => Some(opt_views(v@)),
                None => None,
            },
            package_name@,
        ) == Some(s@),
        r is None ==> version_of_captures(
            match caps {
                Some(v) => Some(opt_views(v@)),
                None => None,
            },
            package_name@,
        ) is None,
{
    match caps {
        Some(v) => {
            if v.len() > 2 {
                match (&v[1], &v[2]) {
                    (Some(name), Some(version)) => {
                        if crate::text::str_eq(name.as_str(), package_name) {
                            return Some(copy_string(version.as_str()));
                        }
                    },
                    _ => {},
                }
            }
            None
        },
        None => None,
    }
}

/// The pattern of a `cargo search` result line: the crate's name, ` = `, and
/// its version in quotes.
pub open spec fn search_pattern() -> Seq<char> {
    "^([a-zA-Z0-9_-]+) = \"(\\d+\\.\\d+\\.\\d+)\""@
}

/// The version that a `cargo search` output gives for `package_name`: the
/// second group of the search pattern's first match, where its first group is
/// the package's name.
pub open spec fn version_of_search(output: Seq<char>, package_name: Seq<char>) -> Option<Seq<char>> {
    match spec_regex_captures(search_pattern(), output) {
        Some(caps) => version_of_captures(caps, package_name),
        None => None,
    }
}

/// The latest version of `package_name` read from the output of
/// `cargo search <package_name> --limit 1`: the output should start with
/// `<crate name> = "<version>"` for the package. A version found is text of the
/// output, and the package's name occurs in the output too.
pub fn latest_version_from_search(output: &str, package_name: &str) -> (r: Option<String>)
    ensures
        match r {
            Some(v) => version_of_search(output@, package_name@) == Some(v@),
            None => version_of_search(output@, package_name@) is None,
        },
        r matches Some(v) ==> is_substring(v@, output@) && is_substring(package_name@, output@),
{
    let caps = match regex_captures("^([a-zA-Z0-9_-]+) = \"(\\d+\\.\\d+\\.\\d+)\"", output) {
        Some(c) => c,
        None => {
            return None;
        },
    };
    let r = version_from_captures(&caps, package_name);
    proof {
        if r is Some {
            let v = caps->Some_0;
            assert(opt_views(v@)[2] == Some(r->Some_0@));
            assert(v@[2] matches Some(s) && s@ == r->Some_0@);
            assert(opt_views(v@)[1] == Some(package_name@));
            assert(v@[1] matches Some(s) && s@ == package_name@);
        }
    }
    r
}

} // verus!
