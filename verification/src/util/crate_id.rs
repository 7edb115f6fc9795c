//! Crate identities: a crate's name together with its semantic version.
use vstd::prelude::*;

use crate::effect::push_decimal;
use crate::text::{chars_of, copy_string, decimal, from_chars, push_str, str_eq, string_push, sub_chars};

verus! {

/// A semantic version as its parts, in the order major, minor, patch,
/// pre-release text and build metadata text (a text is empty when absent).
pub type VersionView = (u64, u64, u64, Seq<char>, Seq<char>);

/// What `semver::Version::parse` gives for a text: the parts of the version,
/// or `None` where the text is not a version.
pub uninterp spec fn spec_version_parse(text: Seq<char>) -> Option<(u64, u64, u64, Seq<char>, Seq<char>)>;

/// A semantic version, `major.minor.patch[-pre][+build]`.
#[derive(Debug, Clone, PartialEq, Eq)]
pub struct CrateVersion {
    pub major: u64,
    pub minor: u64,
    pub patch: u64,
    /// The pre-release identifiers, empty when there are none.
    pub pre: String,
    /// The build metadata, empty when there is none.
    pub build: String,
}

impl View for CrateVersion {
    type V = VersionView;

    open spec fn view(&self) -> VersionView {
        (self.major, self.minor, self.patch, self.pre@, self.build@)
    }
}

/// The usual notation of a version: `major.minor.patch`, then `-pre` when it
/// has pre-release identifiers and `+build` when it has build metadata.
pub open spec fn version_text(v: VersionView) -> Seq<char> {
    decimal(v.0 as nat) + seq!['.'] + decimal(v.1 as nat) + seq!['.'] + decimal(v.2 as nat)
        + (if v.3.len() == 0 { Seq::<char>::empty() } else { seq!['-'] + v.3 })
        + (if v.4.len() == 0 { Seq::<char>::empty() } else { seq!['+'] + v.4 })
}

/// Parses a version with `semver::Version::parse`.
#[verifier::external_body]
pub(crate) fn semver_parse(text: &str) -> (r: Option<CrateVersion>)
    ensures
        match r {
            Some(v) => spec_version_parse(text@) == Some(v@),
            None => spec_version_parse(text@) is None,
        },
{
    match semver::Version::parse(text) {
        Ok(v) => Some(CrateVersion {
            major: v.major,
            minor: v.minor,
            patch: v.patch,
            pre: v.pre.as_str().to_string(),
            build: v.build.as_str().to_string(),
        }),
        Err(_) => None,
    }
}

impl CrateVersion {
    /// The usual notation of the version.
    pub fn to_text(&self) -> (r: String)
        ensures
            r@ == version_text(self@),
    {
        let mut s = String::new();
        push_decimal(&mut s, self.major);
        string_push(&mut s, '.');
        push_decimal(&mut s, self.minor);
        string_push(&mut s, '.');
        push_decimal(&mut s, self.patch);
        let ghost base = s@;
        if self.pre.as_str().unicode_len() > 0 {
            string_push(&mut s, '-');
            push_str(&mut s, self.pre.as_str());
        }
        let ghost mid = s@;
        if self.build.as_str().unicode_len() > 0 {
            string_push(&mut s, '+');
            push_str(&mut s, self.build.as_str());
        }
        proof {
            let v = self@;
            assert(base =~= decimal(v.0 as nat) + seq!['.'] + decimal(v.1 as nat) + seq!['.']
                + decimal(v.2 as nat));
            assert(mid =~= base + (if v.3.len() == 0 { Seq::<char>::empty() } else { seq!['-'] + v.3 }));
            assert(s@ =~= mid + (if v.4.len() == 0 { Seq::<char>::empty() } else { seq!['+'] + v.4 }));
        }
        s
    }

    /// A copy of the version.
    pub fn copy(&self) -> (r: CrateVersion)
        ensures
            r@ == self@,
    {
        CrateVersion {
            major: self.major,
            minor: self.minor,
            patch: self.patch,
            pre: copy_string(self.pre.as_str()),
            build: copy_string(self.build.as_str()),
        }
    }

    /// Whether the two versions are the same.
    pub fn same_version(&self, other: &CrateVersion) -> (r: bool)
        ensures
            r == (self@ == other@),
    {
        self.major == other.major && self.minor == other.minor && self.patch == other.patch
            && str_eq(self.pre.as_str(), other.pre.as_str()) && str_eq(
            self.build.as_str(),
            other.build.as_str(),
        )
    }
}

/// A crate's name and version.
pub type CrateIdView = (Seq<char>, VersionView);

/// A crate: its name and its version.
#[derive(Debug, Clone, PartialEq, Eq)]
pub struct CrateId {
    pub crate_name: String,
    pub version: CrateVersion,
}

impl View for CrateId {
    type V = CrateIdView;

    open spec fn view(&self) -> CrateIdView {
        (self.crate_name@, self.version@)
    }
}

/// Whether `i` is the position of the only `:` in `s`.
pub open spec fn single_colon_at(s: Seq<char>, i: int) -> bool {
    &&& 0 <= i < s.len()
    &&& s[i] == ':'
    &&& forall|j: int| 0 <= j < s.len() && j != i ==> s[j] != ':'
}

/// The crate that a `name:version` text stands for: the text holds exactly one
/// `:`, before it the name, after it a version.
pub open spec fn crate_id_from_key(s: Seq<char>) -> Option<CrateIdView> {
    if exists|i: int| single_colon_at(s, i) {
        let i = choose|i: int| single_colon_at(s, i);
        match spec_version_parse(s.skip(i + 1)) {
            Some(v) => Some((s.take(i), v)),
            None => None,
        }
    } else {
        None
    }
}

/// The text that keys a crate in a chain manifest: `name:version`.
pub open spec fn crate_key_text(id: CrateIdView) -> Seq<char> {
    id.0 + seq![':'] + version_text(id.1)
}

/// The text that names a crate to a reader: `name-version`.
pub open spec fn crate_display_text(id: CrateIdView) -> Seq<char> {
    id.0 + seq!['-'] + version_text(id.1)
}

impl CrateId {
    pub fn new(name: String, version: CrateVersion) -> (r: CrateId)
        ensures
            r@ == (name@, version@),
    {
        CrateId { crate_name: name, version }
    }

    /// The crate of a package given its name and the text of its version, or
    /// `None` where that text is not a version.
    pub fn from_toml_package(name: &str, version: &str) -> (r: Option<CrateId>)
        ensures
            match r {
                Some(id) => id.crate_name@ == name@ && spec_version_parse(version@) == Some(id.version@),
                None => spec_version_parse(version@) is None,
            },
    {
        match semver_parse(version) {
            Some(v) => Some(CrateId { crate_name: copy_string(name), version: v }),
            None => None,
        }
    }

    /// The text that keys the crate in a chain manifest: `name:version`.
    pub fn key_text(&self) -> (r: String)
        ensures
            r@ == crate_key_text(self@),
    {
        let mut s = copy_string(self.crate_name.as_str());
        string_push(&mut s, ':');
        let v = self.version.to_text();
        push_str(&mut s, v.as_str());
        proof {
            assert(s@ =~= crate_key_text(self@));
        }
        s
    }

    /// The text that names the crate to a reader: `name-version`.
    pub fn to_display_string(&self) -> (r: String)
        ensures
            r@ == crate_display_text(self@),
    {
        let mut s = copy_string(self.crate_name.as_str());
        string_push(&mut s, '-');
        let v = self.version.to_text();
        push_str(&mut s, v.as_str());
        proof {
            assert(s@ =~= crate_display_text(self@));
        }
        s
    }

    /// The crate that a `name:version` text stands for, or `None` where the
    /// text does not hold exactly one `:` or what follows it is not a version.
    pub fn from_key_text(s: &str) -> (r: Option<CrateId>)
        ensures
            match r {
                Some(id) => crate_id_from_key(s@) == Some(id@),
                None => crate_id_from_key(s@) is None,
            },
    {
        let v = chars_of(s);
        let mut count: usize = 0;
        let mut pos: usize = 0;
        let mut i: usize = 0;
        while i < v.len()
            invariant
                v@ == s@,
                i <= v.len(),
                count <= i,
                count == 0 ==> forall|j: int| 0 <= j < i ==> v@[j] != ':',
                count >= 1 ==> pos < i && v@[pos as int] == ':',
                count == 1 ==> forall|j: int| 0 <= j < i && j != pos ==> v@[j] != ':',
                count >= 2 ==> exists|j: int| 0 <= j < i && j != pos && v@[j] == ':',
            decreases v.len() - i,
        {
            if v[i] == ':' {
                if count == 0 {
                    pos = i;
                }
                count = count + 1;
            }
            i = i + 1;
        }
        if count != 1 {
            proof {
                if count == 0 {
                    assert forall|k: int| !single_colon_at(s@, k) by {
                        if 0 <= k < s@.len() {
                            assert(v@[k] != ':');
                        }
                    }
                } else {
                    let j = choose|j: int| 0 <= j < v.len() && j != pos && v@[j] == ':';
                    assert forall|k: int| !single_colon_at(s@, k) by {
                        if single_colon_at(s@, k) {
                            if k == pos {
                                assert(s@[j] == ':');
                            } else {
                                assert(s@[pos as int] == ':');
                            }
                        }
                    }
                }
            }
            return None;
        }
        proof {
            assert(single_colon_at(s@, pos as int));
            let c = choose|k: int| single_colon_at(s@, k);
            assert(c == pos as int) by {
                if c != pos as int {
                    assert(s@[pos as int] == ':');
                }
            }
        }
        let name = from_chars(&sub_chars(&v, 0, pos));
        let rest = from_chars(&sub_chars(&v, pos + 1, v.len()));
        proof {
            assert(name@ =~= s@.take(pos as int));
            assert(rest@ =~= s@.skip(pos + 1));
        }
        match semver_parse(rest.as_str()) {
            Some(ver) => Some(CrateId { crate_name: name, version: ver }),
            None => None,
        }
    }

    /// Whether the two crates are the same crate at the same version.
    pub fn same_id(&self, other: &CrateId) -> (r: bool)
        ensures
            r == (self@ == other@),
    {
        str_eq(self.crate_name.as_str(), other.crate_name.as_str()) && self.version.same_version(
            &other.version,
        )
    }

    /// A copy of the crate id.
    pub fn copy(&self) -> (r: CrateId)
        ensures
            r@ == self@,
    {
        CrateId { crate_name: copy_string(self.crate_name.as_str()), version: self.version.copy() }
    }
}

/// The name and version of a package, as its manifest writes them.
#[derive(Debug, Clone)]
pub struct CrateData {
    pub name: String,
    pub version: String,
}

} // verus!
