//! An audit chain: the audit files of a crate and of its dependencies, keyed by
//! crate and version, and the options for creating one.
use vstd::prelude::*;

use crate::audit_file::AuditVersion;
use crate::util::crate_id::{CrateId, CrateIdView};
use crate::text::{replace_hyphens_spec, str_eq};
use crate::ident::replace_hyphens;

use crate::effect::{default_effect_types, unsafe_effect_types, EffectType};
use crate::path_ops::{path_join, spec_path_join};
use crate::text::copy_string;

verus! {

#[derive(Debug)]
pub struct Create {
    /// Path to crate
    pub crate_path: String,
    /// Path to manifest
    pub manifest_path: String,
    /// Default audit folder
    pub audit_path: String,
    pub force_overwrite: bool,
    /// Download the crate and save it to the crate_path instead of using an
    /// existing crate. If this value is set, requires `download_version` to be
    /// set as well.
    pub download_root_crate: Option<String>,
    /// The crate version to be downloaded. Should be used alongside
    /// `download_root_crate`.
    pub download_version: Option<String>,
    /// The types of Effects the audit should track. Defaults to all unsafe
    /// behavior.
    pub effect_types: Vec<EffectType>,
}

impl Create {
    pub fn new(
        crate_path: String,
        manifest_path: String,
        audit_file_path: String,
        force_overwrite: bool,
        download_root_crate: Option<String>,
        download_version: Option<String>,
        effect_types: Vec<EffectType>,
    ) -> (r: Self)
        ensures
            r.crate_path == crate_path,
            r.manifest_path == manifest_path,
            r.audit_path == audit_file_path,
            r.force_overwrite == force_overwrite,
            r.download_root_crate == download_root_crate,
            r.download_version == download_version,
            r.effect_types == effect_types,
    {
        Self {
            crate_path,
            manifest_path,
            audit_path: audit_file_path,
            force_overwrite,
            download_root_crate,
            download_version,
            effect_types,
        }
    }

    /// The default options, given the user's home directory (if it is known):
    /// the current directory, `./policy.manifest`, audit files under
    /// `.cargo_audits` in the home directory (`.audit_files` without one), no
    /// overwriting, no download, and every unsafe effect type.
    pub fn default_for_home(home_dir: Option<String>) -> (r: Self)
        ensures
            r.crate_path@ == "."@,
            r.manifest_path@ == "./policy.manifest"@,
            r.audit_path@ == match home_dir {
                Some(dir) => spec_path_join(dir@, ".cargo_audits"@),
                None => ".audit_files"@,
            },
            !r.force_overwrite,
            r.download_root_crate is None,
            r.download_version is None,
            r.effect_types@ == unsafe_effect_types(),
    {
        let audit_path = match home_dir {
            Some(dir) => path_join(dir.as_str(), ".cargo_audits"),
            None => copy_string(".audit_files"),
        };
        Self {
            crate_path: copy_string("."),
            manifest_path: copy_string("./policy.manifest"),
            audit_path,
            force_overwrite: false,
            download_root_crate: None,
            download_version: None,
            effect_types: default_effect_types(),
        }
    }
}


/// The entry of a crate in a chain: where its audit file is saved, and the
/// version of that audit file the chain last saw.
pub type PolicyView = (Seq<char>, AuditVersion);

/// An entry of the chain's manifest, by its view.
pub type PolicyEntryView = (CrateIdView, PolicyView);

/// The view of an entry.
pub open spec fn entry_view(e: (CrateId, (String, AuditVersion))) -> PolicyEntryView {
    (e.0@, (e.1.0@, e.1.1))
}

/// The views of the entries, in order.
pub open spec fn entry_views(es: Seq<(CrateId, (String, AuditVersion))>) -> Seq<PolicyEntryView> {
    es.map_values(|e: (CrateId, (String, AuditVersion))| entry_view(e))
}

/// The crates of the entries, in order.
pub open spec fn entry_ids(ps: Seq<PolicyEntryView>) -> Seq<CrateIdView> {
    ps.map_values(|e: PolicyEntryView| e.0)
}

/// No crate has two entries.
pub open spec fn ids_distinct(ps: Seq<PolicyEntryView>) -> bool {
    forall|i: int, j: int| 0 <= i < j < ps.len() ==> #[trigger] ps[i].0 != #[trigger] ps[j].0
}

/// The entry of the crate `id`, if it has one.
pub open spec fn policy_lookup(ps: Seq<PolicyEntryView>, id: CrateIdView) -> Option<PolicyView>
    decreases ps.len(),
{
    if ps.len() == 0 {
        None
    } else if ps.last().0 == id {
        Some(ps.last().1)
    } else {
        policy_lookup(ps.drop_last(), id)
    }
}

/// The entries after the crate `id` is given the entry `p`: its entry is
/// replaced in place where it has one, else the new entry comes last.
pub open spec fn policy_insert(ps: Seq<PolicyEntryView>, id: CrateIdView, p: PolicyView) -> Seq<PolicyEntryView> {
    if exists|i: int| 0 <= i < ps.len() && ps[i].0 == id {
        let i = choose|i: int| 0 <= i < ps.len() && ps[i].0 == id;
        ps.update(i, (id, p))
    } else {
        ps.push((id, p))
    }
}

/// The crates of the entries, in order, that satisfy `pred`.
pub open spec fn ids_where(ps: Seq<PolicyEntryView>, pred: spec_fn(CrateIdView) -> bool) -> Seq<CrateIdView>
    decreases ps.len(),
{
    if ps.len() == 0 {
        Seq::empty()
    } else if pred(ps.last().0) {
        ids_where(ps.drop_last(), pred).push(ps.last().0)
    } else {
        ids_where(ps.drop_last(), pred)
    }
}

/// A crate named exactly `name`.
pub open spec fn named(name: Seq<char>) -> spec_fn(CrateIdView) -> bool {
    |id: CrateIdView| id.0 == name
}

/// A crate that a search for `name` finds: its name is `name`, or is `name`
/// once its hyphens are written as underscores.
pub open spec fn found_by(name: Seq<char>) -> spec_fn(CrateIdView) -> bool {
    |id: CrateIdView| replace_hyphens_spec(id.0) == name || id.0 == name
}

/// The view of a chain.
pub struct AuditChainView {
    pub manifest_path: Seq<char>,
    pub crate_path: Seq<char>,
    pub crate_policies: Seq<PolicyEntryView>,
    pub scanned_effects: Seq<EffectType>,
}

/// The audit files of a crate and its dependencies: for each crate (name and
/// version) where its audit file is saved and which version of it the chain
/// last saw.
#[derive(Debug)]
pub struct AuditChain {
    manifest_path: String,
    crate_path: String,
    crate_policies: Vec<(CrateId, (String, AuditVersion))>,
    scanned_effects: Vec<EffectType>,
}

impl View for AuditChain {
    type V = AuditChainView;

    closed spec fn view(&self) -> AuditChainView {
        AuditChainView {
            manifest_path: self.manifest_path@,
            crate_path: self.crate_path@,
            crate_policies: entry_views(self.crate_policies@),
            scanned_effects: self.scanned_effects@,
        }
    }
}

impl AuditChain {
    /// No crate has two entries.
    pub open spec fn wf(&self) -> bool {
        ids_distinct(self@.crate_policies)
    }

    /// An empty chain.
    pub fn new(manifest_path: String, crate_path: String, scanned_effects: Vec<EffectType>) -> (r: AuditChain)
        ensures
            r.wf(),
            r@.manifest_path == manifest_path@,
            r@.crate_path == crate_path@,
            r@.crate_policies.len() == 0,
            r@.scanned_effects == scanned_effects@,
    {
        let r = AuditChain { manifest_path, crate_path, crate_policies: Vec::new(), scanned_effects };
        proof {
            assert(r@.crate_policies =~= Seq::<PolicyEntryView>::empty());
        }
        r
    }

    /// A chain with the given entries, or `None` where a crate has two.
    pub fn from_parts(
        manifest_path: String,
        crate_path: String,
        crate_policies: Vec<(CrateId, (String, AuditVersion))>,
        scanned_effects: Vec<EffectType>,
    ) -> (r: Option<AuditChain>)
        ensures
            match r {
                Some(c) => {
                    &&& c.wf()
                    &&& c@.manifest_path == manifest_path@
                    &&& c@.crate_path == crate_path@
                    &&& c@.crate_policies == entry_views(crate_policies@)
                    &&& c@.scanned_effects == scanned_effects@
                },
                None => !ids_distinct(entry_views(crate_policies@)),
            },
    {
        let ghost ps = entry_views(crate_policies@);
        let mut i: usize = 0;
        while i < crate_policies.len()
            invariant
                ps == entry_views(crate_policies@),
                i <= crate_policies.len(),
                forall|a: int, b: int| 0 <= a < b < crate_policies.len() && a < i ==> #[trigger] ps[a].0 != #[trigger] ps[b].0,
            decreases crate_policies.len() - i,
        {
            let mut j: usize = i + 1;
            while j < crate_policies.len()
                invariant
                    ps == entry_views(crate_policies@),
                    i < crate_policies.len(),
                    i < j <= crate_policies.len(),
                    forall|a: int, b: int| 0 <= a < b < crate_policies.len() && a < i ==> #[trigger] ps[a].0 != #[trigger] ps[b].0,
                    forall|b: int| i < b < j ==> ps[i as int].0 != #[trigger] ps[b].0,
                decreases crate_policies.len() - j,
            {
                if crate_policies[i].0.same_id(&crate_policies[j].0) {
                    proof {
                        assert(ps[i as int].0 == ps[j as int].0);
                    }
                    return None;
                }
                j = j + 1;
            }
            i = i + 1;
        }
        Some(AuditChain { manifest_path, crate_path, crate_policies, scanned_effects })
    }

    /// Where the chain's manifest is saved.
    pub fn manifest_path(&self) -> (r: &String)
        ensures
            r@ == self@.manifest_path,
    {
        &self.manifest_path
    }

    /// The root crate's directory.
    pub fn crate_path(&self) -> (r: &String)
        ensures
            r@ == self@.crate_path,
    {
        &self.crate_path
    }

    /// The entries of the chain.
    pub fn crate_policies(&self) -> (r: &Vec<(CrateId, (String, AuditVersion))>)
        ensures
            entry_views(r@) == self@.crate_policies,
    {
        &self.crate_policies
    }

    /// The effect types that the chain's audits track.
    pub fn scanned_effects(&self) -> (r: &Vec<EffectType>)
        ensures
            r@ == self@.scanned_effects,
    {
        &self.scanned_effects
    }

    /// The crates of the chain, in the order of their entries.
    pub fn all_crates(&self) -> (r: Vec<CrateId>)
        ensures
            r@.map_values(|c: CrateId| c@) == entry_ids(self@.crate_policies),
    {
        let ghost ps = self@.crate_policies;
        let mut r: Vec<CrateId> = Vec::new();
        let mut i: usize = 0;
        while i < self.crate_policies.len()
            invariant
                ps == entry_views(self.crate_policies@),
                i <= self.crate_policies.len(),
                r@.map_values(|c: CrateId| c@) == entry_ids(ps.take(i as int)),
            decreases self.crate_policies.len() - i,
        {
            let ghost before = r@;
            let c = self.crate_policies[i].0.copy();
            r.push(c);
            proof {
                assert(ps.take(i + 1) =~= ps.take(i as int).push(ps[i as int]));
                assert(ps[i as int].0 == c@);
                assert(entry_ids(ps.take(i + 1)) =~= entry_ids(ps.take(i as int)).push(c@));
                assert(r@ =~= before.push(c));
                assert(r@.map_values(|c: CrateId| c@) =~= before.map_values(|c: CrateId| c@).push(c@));
            }
            i = i + 1;
        }
        proof {
            assert(ps.take(i as int) =~= ps);
        }
        r
    }

    /// The crates of the chain, in the order of their entries, named `name`
    /// (or, when `by_search`, found by a search for `name`).
    fn crates_named(&self, name: &str, by_search: bool) -> (r: Vec<CrateId>)
        ensures
            r@.map_values(|c: CrateId| c@) == ids_where(
                self@.crate_policies,
                if by_search { found_by(name@) } else { named(name@) },
            ),
    {
        let ghost ps = self@.crate_policies;
        let ghost pred = if by_search { found_by(name@) } else { named(name@) };
        let mut r: Vec<CrateId> = Vec::new();
        let mut i: usize = 0;
        while i < self.crate_policies.len()
            invariant
                ps == entry_views(self.crate_policies@),
                pred == (if by_search { found_by(name@) } else { named(name@) }),
                i <= self.crate_policies.len(),
                r@.map_values(|c: CrateId| c@) == ids_where(ps.take(i as int), pred),
            decreases self.crate_policies.len() - i,
        {
            let id = &self.crate_policies[i].0;
            let exact = str_eq(id.crate_name.as_str(), name);
            let keep = if by_search {
                let mut n = copy_string(id.crate_name.as_str());
                replace_hyphens(&mut n);
                str_eq(n.as_str(), name) || exact
            } else {
                exact
            };
            proof {
                assert(ps.take(i + 1).drop_last() =~= ps.take(i as int));
                assert(ps[i as int].0 == id@);
                assert(keep == pred(id@));
            }
            if keep {
                r.push(id.copy());
                proof {
                    assert(r@.map_values(|c: CrateId| c@) =~= ids_where(ps.take(i as int), pred).push(id@));
                }
            }
            i = i + 1;
        }
        proof {
            assert(ps.take(i as int) =~= ps);
        }
        r
    }

    /// The crates of the chain named exactly `crate_name`, whatever their
    /// version, in the order of their entries.
    pub fn matching_crates_no_version(&self, crate_name: &str) -> (r: Vec<CrateId>)
        ensures
            r@.map_values(|c: CrateId| c@) == ids_where(self@.crate_policies, named(crate_name@)),
    {
        self.crates_named(crate_name, false)
    }

    /// The crates of the chain that a search for `search_name` finds: those
    /// named `search_name`, or so named once hyphens are written as
    /// underscores; in the order of their entries.
    pub fn resolve_all_crates(&self, search_name: &str) -> (r: Vec<CrateId>)
        ensures
            r@.map_values(|c: CrateId| c@) == ids_where(self@.crate_policies, found_by(search_name@)),
    {
        self.crates_named(search_name, true)
    }

    /// The crate that a search for `crate_name` finds, where it finds exactly
    /// one; `None` where it finds none or several.
    pub fn resolve_crate_id(&self, crate_name: &str) -> (r: Option<CrateId>)
        ensures
            ({
                let found = ids_where(self@.crate_policies, found_by(crate_name@));
                match r {
                    Some(id) => found.len() == 1 && found[0] == id@,
                    None => found.len() != 1,
                }
            }),
    {
        let mut all = self.resolve_all_crates(crate_name);
        if all.len() == 1 {
            let id = all.pop().unwrap();
            proof {
                assert(all@.len() == 0);
            }
            Some(id)
        } else {
            None
        }
    }

    /// Where the audit file of `crate_id` is saved and which of its versions
    /// the chain last saw, or `None` where the chain has no entry for it.
    pub fn crate_policy(&self, crate_id: &CrateId) -> (r: Option<(String, AuditVersion)>)
        requires
            self.wf(),
        ensures
            match r {
                Some(p) => policy_lookup(self@.crate_policies, crate_id@) == Some((p.0@, p.1)),
                None => policy_lookup(self@.crate_policies, crate_id@) is None,
            },
    {
        match self.position_of(crate_id) {
            Some(i) => {
                let e = &self.crate_policies[i];
                Some((copy_string(e.1.0.as_str()), e.1.1))
            },
            None => None,
        }
    }

    /// The position of the entry of `crate_id`.
    fn position_of(&self, crate_id: &CrateId) -> (r: Option<usize>)
        requires
            self.wf(),
        ensures
            match r {
                Some(i) => {
                    &&& i < self@.crate_policies.len()
                    &&& self@.crate_policies[i as int].0 == crate_id@
                    &&& policy_lookup(self@.crate_policies, crate_id@) == Some(self@.crate_policies[i as int].1)
                },
                None => {
                    &&& policy_lookup(self@.crate_policies, crate_id@) is None
                    &&& forall|j: int| 0 <= j < self@.crate_policies.len() ==> #[trigger] self@.crate_policies[j].0 != crate_id@
                },
            },
    {
        let ghost ps = self@.crate_policies;
        let mut i: usize = 0;
        while i < self.crate_policies.len()
            invariant
                self.wf(),
                ps == entry_views(self.crate_policies@),
                i <= self.crate_policies.len(),
                forall|j: int| 0 <= j < i ==> #[trigger] ps[j].0 != crate_id@,
            decreases self.crate_policies.len() - i,
        {
            if self.crate_policies[i].0.same_id(crate_id) {
                proof {
                    lemma_lookup_at(ps, i as int);
                }
                return Some(i);
            }
            i = i + 1;
        }
        proof {
            lemma_lookup_absent(ps, crate_id@);
        }
        None
    }

    /// Records that the audit file of `crate_id` is saved at `audit_file_loc`
    /// in version `version`; an entry the crate had is replaced in place.
    pub fn add_crate_audit_file(&mut self, crate_id: CrateId, audit_file_loc: String, version: AuditVersion)
        requires
            old(self).wf(),
        ensures
            final(self).wf(),
            final(self)@.crate_policies == policy_insert(old(self)@.crate_policies, crate_id@, (audit_file_loc@, version)),
            final(self)@.manifest_path == old(self)@.manifest_path,
            final(self)@.crate_path == old(self)@.crate_path,
            final(self)@.scanned_effects == old(self)@.scanned_effects,
    {
        let ghost ps = self@.crate_policies;
        let ghost id = crate_id@;
        let ghost p = (audit_file_loc@, version);
        match self.position_of(&crate_id) {
            Some(i) => {
                self.crate_policies.set(i, (crate_id, (audit_file_loc, version)));
                proof {
                    let c = choose|k: int| 0 <= k < ps.len() && ps[k].0 == id;
                    assert(c == i as int);
                    assert(self@.crate_policies =~= ps.update(i as int, (id, p)));
                }
            },
            None => {
                self.crate_policies.push((crate_id, (audit_file_loc, version)));
                proof {
                    assert(self@.crate_policies =~= ps.push((id, p)));
                }
            },
        }
    }

    /// Records that the chain has seen version `version` of the audit file of
    /// `crate_id`, and gives where that file is saved; `None`, and the chain
    /// unchanged, where the chain has no entry for the crate.
    pub fn set_audit_version(&mut self, crate_id: &CrateId, version: AuditVersion) -> (r: Option<String>)
        requires
            old(self).wf(),
        ensures
            final(self).wf(),
            match policy_lookup(old(self)@.crate_policies, crate_id@) {
                Some(p) => r matches Some(path) && path@ == p.0
                    && final(self)@.crate_policies == policy_insert(old(self)@.crate_policies, crate_id@, (p.0, version)),
                None => r is None && final(self)@.crate_policies == old(self)@.crate_policies,
            },
            final(self)@.manifest_path == old(self)@.manifest_path,
            final(self)@.crate_path == old(self)@.crate_path,
            final(self)@.scanned_effects == old(self)@.scanned_effects,
    {
        let ghost ps = self@.crate_policies;
        match self.position_of(crate_id) {
            Some(i) => {
                let path = copy_string(self.crate_policies[i].1.0.as_str());
                let entry = (crate_id.copy(), (copy_string(path.as_str()), version));
                self.crate_policies.set(i, entry);
                proof {
                    let c = choose|k: int| 0 <= k < ps.len() && ps[k].0 == crate_id@;
                    assert(c == i as int);
                    assert(self@.crate_policies =~= ps.update(i as int, (crate_id@, (path@, version))));
                }
                Some(path)
            },
            None => None,
        }
    }

    /// Of the packages `pkgs`, those that have an entry in the chain, in the
    /// order given.
    pub fn crates_in_chain(&self, pkgs: &Vec<CrateId>) -> (r: Vec<CrateId>)
        requires
            self.wf(),
        ensures
            r@.map_values(|c: CrateId| c@) == in_chain(pkgs@.map_values(|c: CrateId| c@), self@.crate_policies),
    {
        let ghost ids = pkgs@.map_values(|c: CrateId| c@);
        let mut r: Vec<CrateId> = Vec::new();
        let mut i: usize = 0;
        while i < pkgs.len()
            invariant
                self.wf(),
                ids == pkgs@.map_values(|c: CrateId| c@),
                i <= pkgs.len(),
                r@.map_values(|c: CrateId| c@) == in_chain(ids.take(i as int), self@.crate_policies),
            decreases pkgs.len() - i,
        {
            let found = self.position_of(&pkgs[i]);
            proof {
                assert(ids.take(i + 1).drop_last() =~= ids.take(i as int));
            }
            if found.is_some() {
                r.push(pkgs[i].copy());
                proof {
                    assert(r@.map_values(|c: CrateId| c@) =~= in_chain(ids.take(i as int), self@.crate_policies).push(ids[i as int]));
                }
            }
            i = i + 1;
        }
        proof {
            assert(ids.take(i as int) =~= ids);
        }
        r
    }

    /// The crates whose audits follow from a change to the audit of `updated`:
    /// `sorted` lists the packages of the dependency graph, each after its
    /// dependencies; the result is `updated` and the packages after it that have
    /// an entry in the chain, in that order. `None` where `updated` is not in
    /// `sorted`.
    pub fn crates_to_update(&self, sorted: &Vec<CrateId>, updated: &CrateId) -> (r: Option<Vec<CrateId>>)
        requires
            self.wf(),
        ensures
            ({
                let ids = sorted@.map_values(|c: CrateId| c@);
                match r {
                    Some(v) => exists|k: int| {
                        &&& 0 <= k < ids.len()
                        &&& ids[k] == updated@
                        &&& (forall|j: int| 0 <= j < k ==> ids[j] != updated@)
                        &&& v@.map_values(|c: CrateId| c@) == in_chain(ids.skip(k), self@.crate_policies)
                    },
                    None => forall|j: int| 0 <= j < ids.len() ==> ids[j] != updated@,
                }
            }),
    {
        let ghost ids = sorted@.map_values(|c: CrateId| c@);
        let mut k: usize = 0;
        let mut found = false;
        while k < sorted.len() && !found
            invariant
                ids == sorted@.map_values(|c: CrateId| c@),
                k <= sorted.len(),
                found ==> k < sorted.len() && ids[k as int] == updated@,
                forall|j: int| 0 <= j < k ==> ids[j] != updated@,
            decreases sorted.len() - k + (if found { 0int } else { 1int }),
        {
            if sorted[k].same_id(updated) {
                found = true;
            } else {
                k = k + 1;
            }
        }
        if !found {
            return None;
        }
        let mut rest: Vec<CrateId> = Vec::new();
        let mut j: usize = k;
        while j < sorted.len()
            invariant
                ids == sorted@.map_values(|c: CrateId| c@),
                k <= j <= sorted.len(),
                rest@.map_values(|c: CrateId| c@) == ids.subrange(k as int, j as int),
            decreases sorted.len() - j,
        {
            let ghost before = rest@;
            let c = sorted[j].copy();
            rest.push(c);
            proof {
                assert(rest@ =~= before.push(c));
                assert(rest@.map_values(|c: CrateId| c@) =~= before.map_values(|c: CrateId| c@).push(c@));
                assert(rest@.map_values(|c: CrateId| c@) =~= ids.subrange(k as int, j + 1));
            }
            j = j + 1;
        }
        let r = self.crates_in_chain(&rest);
        proof {
            assert(ids.subrange(k as int, j as int) =~= ids.skip(k as int));
            assert(ids[k as int] == updated@);
        }
        Some(r)
    }
}

/// Of the crates `ids`, those that have an entry among `ps`, in order.
pub open spec fn in_chain(ids: Seq<CrateIdView>, ps: Seq<PolicyEntryView>) -> Seq<CrateIdView>
    decreases ids.len(),
{
    if ids.len() == 0 {
        Seq::empty()
    } else if policy_lookup(ps, ids.last()) is Some {
        in_chain(ids.drop_last(), ps).push(ids.last())
    } else {
        in_chain(ids.drop_last(), ps)
    }
}

/// Where the crates are distinct, the entry at `i` is the one a lookup of its
/// crate finds.
proof fn lemma_lookup_at(ps: Seq<PolicyEntryView>, i: int)
    requires
        ids_distinct(ps),
        0 <= i < ps.len(),
    ensures
        policy_lookup(ps, ps[i].0) == Some(ps[i].1),
    decreases ps.len(),
{
    if i < ps.len() - 1 {
        assert(ps.last().0 != ps[i].0);
        let t = ps.drop_last();
        assert(t[i] == ps[i]);
        assert(ids_distinct(t)) by {
            assert forall|a: int, b: int| 0 <= a < b < t.len() implies #[trigger] t[a].0 != #[trigger] t[b].0 by {
                assert(t[a] == ps[a] && t[b] == ps[b]);
            }
        }
        lemma_lookup_at(t, i);
    }
}

/// A crate with no entry is found by no lookup.
proof fn lemma_lookup_absent(ps: Seq<PolicyEntryView>, id: CrateIdView)
    requires
        forall|j: int| 0 <= j < ps.len() ==> #[trigger] ps[j].0 != id,
    ensures
        policy_lookup(ps, id) is None,
    decreases ps.len(),
{
    if ps.len() > 0 {
        let t = ps.drop_last();
        assert(ps.last().0 != id) by {
            assert(ps[ps.len() - 1].0 != id);
        }
        assert forall|j: int| 0 <= j < t.len() implies #[trigger] t[j].0 != id by {
            assert(t[j] == ps[j]);
        }
        lemma_lookup_absent(t, id);
    }
}

/// What a chain records for a crate is what a later lookup of that crate
/// gives back, and the entries of the other crates are untouched.
pub proof fn law_add_then_lookup(ps: Seq<PolicyEntryView>, id: CrateIdView, p: PolicyView, other: CrateIdView)
    requires
        ids_distinct(ps),
    ensures
        ids_distinct(policy_insert(ps, id, p)),
        policy_lookup(policy_insert(ps, id, p), id) == Some(p),
        other != id ==> policy_lookup(policy_insert(ps, id, p), other) == policy_lookup(ps, other),
{
    let q = policy_insert(ps, id, p);
    if exists|i: int| 0 <= i < ps.len() && ps[i].0 == id {
        let i = choose|i: int| 0 <= i < ps.len() && ps[i].0 == id;
        assert(q == ps.update(i, (id, p)));
        assert forall|a: int, b: int| 0 <= a < b < q.len() implies #[trigger] q[a].0 != #[trigger] q[b].0 by {
            assert(ps[a].0 != ps[b].0);
        }
        lemma_lookup_at(q, i);
        if other != id {
            if exists|j: int| 0 <= j < ps.len() && ps[j].0 == other {
                let j = choose|j: int| 0 <= j < ps.len() && ps[j].0 == other;
                lemma_lookup_at(ps, j);
                lemma_lookup_at(q, j);
            } else {
                lemma_lookup_absent(ps, other);
                assert forall|j: int| 0 <= j < q.len() implies #[trigger] q[j].0 != other by {
                    if j != i {
                        assert(q[j] == ps[j]);
                    }
                }
                lemma_lookup_absent(q, other);
            }
        }
    } else {
        assert(q == ps.push((id, p)));
        assert forall|a: int, b: int| 0 <= a < b < q.len() implies #[trigger] q[a].0 != #[trigger] q[b].0 by {
            if b < ps.len() {
                assert(ps[a].0 != ps[b].0);
            } else {
                assert(q[a] == ps[a]);
            }
        }
        assert(q.drop_last() =~= ps);
    }
}

/// A search for a name finds every crate named exactly so.
pub proof fn law_exact_name_found_by_search(ps: Seq<PolicyEntryView>, name: Seq<char>, id: CrateIdView)
    requires
        ids_where(ps, named(name)).contains(id),
    ensures
        ids_where(ps, found_by(name)).contains(id),
    decreases ps.len(),
{
    let t = ps.drop_last();
    let e = ps.last().0;
    if e == id && named(name)(e) {
        assert(found_by(name)(e));
        assert(ids_where(ps, found_by(name)) == ids_where(t, found_by(name)).push(e));
        assert(ids_where(ps, found_by(name)).last() == id);
    } else {
        assert(ids_where(t, named(name)).contains(id)) by {
            if named(name)(e) {
                let k = choose|k: int| 0 <= k < ids_where(ps, named(name)).len() && ids_where(ps, named(name))[k] == id;
                assert(ids_where(ps, named(name)) == ids_where(t, named(name)).push(e));
                assert(k < ids_where(t, named(name)).len());
                assert(ids_where(t, named(name))[k] == id);
            }
        }
        law_exact_name_found_by_search(t, name, id);
        let k = choose|k: int| 0 <= k < ids_where(t, found_by(name)).len() && ids_where(t, found_by(name))[k] == id;
        if found_by(name)(e) {
            assert(ids_where(ps, found_by(name)) == ids_where(t, found_by(name)).push(e));
            assert(ids_where(ps, found_by(name))[k] == id);
        }
    }
}
} // verus!
