//! A package's name and version, read from the text of its `Cargo.toml`.
use vstd::prelude::*;

use crate::text::{copy_string, str_eq};
use crate::util::crate_id::CrateData;

verus! {

#[verifier::external_type_specification]
#[verifier::external_body]
pub struct ExTomlValue(toml::Value);

/// A TOML value. A float keeps no value here: nothing that reads a manifest
/// here uses one.
pub enum TomlValue {
    Str(String),
    Int(i64),
    Float,
    Bool(bool),
    /// A date and time, as TOML writes it.
    Datetime(String),
    Array(Vec<TomlValue>),
    /// A table: its keys, in order, with their values.
    Table(Vec<(String, TomlValue)>),
}

/// Abstract view of a TOML value.
pub enum TomlValueView {
    Str(Seq<char>),
    Int(int),
    Float,
    Bool(bool),
    Datetime(Seq<char>),
    Array(Seq<TomlValueView>),
    Table(Seq<(Seq<char>, TomlValueView)>),
}

pub open spec fn toml_view(v: TomlValue) -> TomlValueView
    decreases v,
{
    match v {
        TomlValue::Str(s) => TomlValueView::Str(s@),
        TomlValue::Int(i) => TomlValueView::Int(i as int),
        TomlValue::Float => TomlValueView::Float,
        TomlValue::Bool(b) => TomlValueView::Bool(b),
        TomlValue::Datetime(d) => TomlValueView::Datetime(d@),
        TomlValue::Array(a) => TomlValueView::Array(toml_views(a@)),
        TomlValue::Table(t) => TomlValueView::Table(entries_view(t@)),
    }
}

pub open spec fn toml_views(s: Seq<TomlValue>) -> Seq<TomlValueView>
    decreases s,
{
    if s.len() == 0 {
        Seq::empty()
    } else {
        toml_views(s.subrange(0, s.len() - 1)).push(toml_view(s[s.len() - 1]))
    }
}

/// The view of a table's entries.
pub open spec fn entries_view(s: Seq<(String, TomlValue)>) -> Seq<(Seq<char>, TomlValueView)>
    decreases s,
{
    if s.len() == 0 {
        Seq::empty()
    } else {
        entries_view(s.subrange(0, s.len() - 1)).push((s[s.len() - 1].0@, toml_view(s[s.len() - 1].1)))
    }
}

/// What `toml::from_str::<toml::Table>` makes of a text: `None` where the text is
/// no TOML document, else the document's table.
pub uninterp spec fn spec_toml_table(text: Seq<char>) -> Option<Seq<(Seq<char>, TomlValueView)>>;

/// Calls `toml::from_str::<toml::Table>` on `text` and converts the table it
/// gives, entry by entry and value by value; `None` where it gives an error. The
/// result is the name `spec_toml_table` applied to the text; nothing more about
/// the name is stated.
#[verifier::external_body]
fn parse_toml_table(text: &str) -> (r: Option<Vec<(String, TomlValue)>>)
    ensures
        match r {
            Some(t) => spec_toml_table(text@) == Some(entries_view(t@)),
            None => spec_toml_table(text@) is None,
        },
{
    match toml::from_str::<toml::Table>(text) {
        Ok(t) => Some(t.iter().map(|(k, v)| (k.clone(), toml_value(v))).collect()),
        Err(_) => None,
    }
}

/// Converts a `toml::Value` variant by variant, for `parse_toml_table`.
#[verifier::external_body]
fn toml_value(v: &toml::Value) -> (r: TomlValue) {
    match v {
        toml::Value::String(s) => TomlValue::Str(s.clone()),
        toml::Value::Integer(i) => TomlValue::Int(*i),
        toml::Value::Float(_) => TomlValue::Float,
        toml::Value::Boolean(b) => TomlValue::Bool(*b),
        toml::Value::Datetime(d) => TomlValue::Datetime(d.to_string()),
        toml::Value::Array(a) => TomlValue::Array(a.iter().map(toml_value).collect()),
        toml::Value::Table(t) => TomlValue::Table(t.iter().map(|(k, v)| (k.clone(), toml_value(v))).collect()),
    }
}

/// Why a manifest gives no package name and version.
#[derive(Debug, Clone, Copy, PartialEq, Eq, Structural)]
pub enum CargoTomlError {
    /// The text is no TOML document.
    Parse,
    NoPackage,
    PackageNotTable,
    NoName,
    NameNotString,
    NoVersion,
    /// The package's version is not a string and there is no `workspace` entry.
    NoWorkspace,
    WorkspaceNotTable,
    NoWorkspacePackage,
    WorkspacePackageNotTable,
    NoWorkspaceVersion,
    WorkspaceVersionNotString,
}

/// The value under `key` in a table (keys are distinct in a table; the first
/// entry counts).
pub open spec fn toml_get(t: Seq<(Seq<char>, TomlValueView)>, key: Seq<char>) -> Option<TomlValueView>
    decreases t.len(),
{
    if t.len() == 0 {
        None
    } else if t[0].0 == key {
        Some(t[0].1)
    } else {
        toml_get(t.drop_first(), key)
    }
}

/// The table under `key`: an error `missing` without the key, `not_table` where
/// the value is not a table.
pub open spec fn table_at(
    t: Seq<(Seq<char>, TomlValueView)>,
    key: Seq<char>,
    missing: CargoTomlError,
    not_table: CargoTomlError,
) -> Result<Seq<(Seq<char>, TomlValueView)>, CargoTomlError> {
    match toml_get(t, key) {
        None => Err(missing),
        Some(TomlValueView::Table(s)) => Ok(s),
        Some(_) => Err(not_table),
    }
}

/// The version that `workspace.package.version` gives.
pub open spec fn workspace_version(t: Seq<(Seq<char>, TomlValueView)>) -> Result<Seq<char>, CargoTomlError> {
    match table_at(t, "workspace"@, CargoTomlError::NoWorkspace, CargoTomlError::WorkspaceNotTable) {
        Err(e) => Err(e),
        Ok(w) => match table_at(w, "package"@, CargoTomlError::NoWorkspacePackage, CargoTomlError::WorkspacePackageNotTable) {
            Err(e) => Err(e),
            Ok(p) => match toml_get(p, "version"@) {
                None => Err(CargoTomlError::NoWorkspaceVersion),
                Some(TomlValueView::Str(v)) => Ok(v),
                Some(_) => Err(CargoTomlError::WorkspaceVersionNotString),
            },
        },
    }
}

/// The name and version a manifest's table gives: `package.name`, a string, and
/// `package.version` where it is a string, else `workspace.package.version`; the
/// first thing missing or of the wrong kind is the error.
pub open spec fn crate_data_spec(t: Seq<(Seq<char>, TomlValueView)>) -> Result<(Seq<char>, Seq<char>), CargoTomlError> {
    match table_at(t, "package"@, CargoTomlError::NoPackage, CargoTomlError::PackageNotTable) {
        Err(e) => Err(e),
        Ok(p) => match toml_get(p, "name"@) {
            None => Err(CargoTomlError::NoName),
            Some(TomlValueView::Str(name)) => match toml_get(p, "version"@) {
                None => Err(CargoTomlError::NoVersion),
                Some(TomlValueView::Str(v)) => Ok((name, v)),
                Some(_) => match workspace_version(t) {
                    Err(e) => Err(e),
                    Ok(v) => Ok((name, v)),
                },
            },
            Some(_) => Err(CargoTomlError::NameNotString),
        },
    }
}

pub open spec fn crate_data_view(r: Result<CrateData, CargoTomlError>) -> Result<(Seq<char>, Seq<char>), CargoTomlError> {
    match r {
        Ok(d) => Ok((d.name@, d.version@)),
        Err(e) => Err(e),
    }
}

proof fn lemma_entries_view_index(s: Seq<(String, TomlValue)>, i: int)
    requires
        0 <= i < s.len(),
    ensures
        entries_view(s).len() == s.len(),
        entries_view(s)[i] == (s[i].0@, toml_view(s[i].1)),
    decreases s.len(),
{
    let p = s.subrange(0, s.len() - 1);
    if i < s.len() - 1 {
        lemma_entries_view_index(p, i);
        assert(p[i] == s[i]);
    } else if s.len() > 1 {
        lemma_entries_view_index(p, 0);
    } else {
        assert(entries_view(p) == Seq::<(Seq<char>, TomlValueView)>::empty());
    }
}

proof fn lemma_toml_get_index(t: Seq<(Seq<char>, TomlValueView)>, key: Seq<char>, i: int)
    requires
        0 <= i <= t.len(),
        forall|k: int| 0 <= k < i ==> (#[trigger] t[k]).0 != key,
    ensures
        toml_get(t, key) == toml_get(t.subrange(i, t.len() as int), key),
    decreases i,
{
    if i > 0 {
        assert forall|k: int| 0 <= k < i - 1 implies (#[trigger] t.drop_first()[k]).0 != key by {
            assert(t.drop_first()[k] == t[k + 1]);
        }
        lemma_toml_get_index(t.drop_first(), key, i - 1);
        assert(t.drop_first().subrange(i - 1, t.len() - 1) =~= t.subrange(i, t.len() as int));
    } else {
        assert(t.subrange(0, t.len() as int) =~= t);
    }
}

/// The value under `key` in a table.
fn get<'a>(t: &'a Vec<(String, TomlValue)>, key: &str) -> (r: Option<&'a TomlValue>)
    ensures
        match toml_get(entries_view(t@), key@) {
            None => r is None,
            Some(v) => r matches Some(x) && toml_view(*x) == v,
        },
{
    let ghost e = entries_view(t@);
    let mut i: usize = 0;
    proof {
        if t@.len() > 0 {
            lemma_entries_view_index(t@, 0);
        } else {
            assert(e.len() == 0);
        }
        lemma_toml_get_index(e, key@, 0);
    }
    while i < t.len()
        invariant
            i <= t.len(),
            e == entries_view(t@),
            e.len() == t@.len(),
            forall|k: int| 0 <= k < i ==> (#[trigger] e[k]).0 != key@,
        decreases t.len() - i,
    {
        proof {
            lemma_entries_view_index(t@, i as int);
        }
        if str_eq(t[i].0.as_str(), key) {
            proof {
                lemma_toml_get_index(e, key@, i as int);
                let rest = e.subrange(i as int, e.len() as int);
                assert(rest[0] == e[i as int]);
            }
            return Some(&t[i].1);
        }
        i = i + 1;
    }
    proof {
        lemma_toml_get_index(e, key@, i as int);
    }
    None
}

/// The table under `key`, or the given error.
fn get_table<'a>(
    t: &'a Vec<(String, TomlValue)>,
    key: &str,
    missing: CargoTomlError,
    not_table: CargoTomlError,
) -> (r: Result<&'a Vec<(String, TomlValue)>, CargoTomlError>)
    ensures
        match table_at(entries_view(t@), key@, missing, not_table) {
            Ok(s) => r matches Ok(x) && entries_view(x@) == s,
            Err(e) => r == Err::<&Vec<(String, TomlValue)>, CargoTomlError>(e),
        },
{
    match get(t, key) {
        None => Err(missing),
        Some(TomlValue::Table(s)) => Ok(s),
        Some(_) => Err(not_table),
    }
}

/// The name and version in a manifest's table.
pub fn crate_data_from_toml(t: &Vec<(String, TomlValue)>) -> (r: Result<CrateData, CargoTomlError>)
    ensures
        crate_data_view(r) == crate_data_spec(entries_view(t@)),
{
    proof {
        reveal_strlit("package");
        reveal_strlit("name");
        reveal_strlit("version");
        reveal_strlit("workspace");
    }
    let p = match get_table(t, "package", CargoTomlError::NoPackage, CargoTomlError::PackageNotTable) {
        Ok(p) => p,
        Err(e) => return Err(e),
    };
    let name = match get(p, "name") {
        None => return Err(CargoTomlError::NoName),
        Some(TomlValue::Str(n)) => copy_string(n.as_str()),
        Some(_) => return Err(CargoTomlError::NameNotString),
    };
    let version = match get(p, "version") {
        None => return Err(CargoTomlError::NoVersion),
        Some(TomlValue::Str(v)) => copy_string(v.as_str()),
        Some(_) => {
            let w = match get_table(t, "workspace", CargoTomlError::NoWorkspace, CargoTomlError::WorkspaceNotTable) {
                Ok(w) => w,
                Err(e) => return Err(e),
            };
            let wp = match get_table(w, "package", CargoTomlError::NoWorkspacePackage, CargoTomlError::WorkspacePackageNotTable) {
                Ok(wp) => wp,
                Err(e) => return Err(e),
            };
            match get(wp, "version") {
                None => return Err(CargoTomlError::NoWorkspaceVersion),
                Some(TomlValue::Str(v)) => copy_string(v.as_str()),
                Some(_) => return Err(CargoTomlError::WorkspaceVersionNotString),
            }
        },
    };
    Ok(CrateData { name, version })
}

/// The name and version that the text of a `Cargo.toml` gives.
pub fn load_crate_data(toml_text: &str) -> (r: Result<CrateData, CargoTomlError>)
    ensures
        crate_data_view(r) == match spec_toml_table(toml_text@) {
            None => Err(CargoTomlError::Parse),
            Some(t) => crate_data_spec(t),
        },
{
    match parse_toml_table(toml_text) {
        Some(t) => crate_data_from_toml(&t),
        None => Err(CargoTomlError::Parse),
    }
}

} // verus!
