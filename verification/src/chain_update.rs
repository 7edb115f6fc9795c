//! Propagating a change of one crate's caller-checked functions to the audits of
//! the crates that depend on it, one audit at a time: the caller reads each audit,
//! hands it to `step`, and saves it where `step` says.
use vstd::prelude::*;

use crate::audit_chain::{in_chain, policy_insert, policy_lookup, AuditChain};
use crate::audit_file::{cc_keys, cc_matches, dropped_trees, kept_trees, AuditFile};
use crate::ident::{path_views, CanonicalPath};
use crate::util::crate_id::CrateId;

verus! {

/// Why a step of the propagation was refused.
#[derive(Debug, Clone, Copy, PartialEq, Eq, Structural)]
pub enum UpdateError {
    /// The audit's version cannot grow any more.
    VersionOverflow,
    /// The chain has no entry for the crate.
    MissingCrate,
}

/// The crates still to update and the functions whose effects they lose.
pub struct ChainUpdate {
    /// The crates to update, in dependency order.
    pub order: Vec<CrateId>,
    /// The position of the next crate in `order`.
    pub next: usize,
    /// The functions whose effects are removed from the audits.
    pub removed_fns: Vec<CanonicalPath>,
}

impl ChainUpdate {
    /// The propagation of the removal of `removed_fns` from `updated` on: the
    /// crates are `updated` and those after it in `sorted` (each package after
    /// its dependencies) that the chain holds. `None` where `updated` is not in
    /// `sorted`.
    pub fn start(chain: &AuditChain, sorted: &Vec<CrateId>, updated: &CrateId, removed_fns: Vec<CanonicalPath>) -> (r: Option<Self>)
        requires
            chain.wf(),
        ensures
            ({
                let ids = sorted@.map_values(|c: CrateId| c@);
                match r {
                    Some(u) => u.next == 0 && u.removed_fns == removed_fns && exists|k: int| {
                        &&& 0 <= k < ids.len()
                        &&& ids[k] == updated@
                        &&& (forall|j: int| 0 <= j < k ==> ids[j] != updated@)
                        &&& u.order@.map_values(|c: CrateId| c@) == in_chain(ids.skip(k), chain@.crate_policies)
                    },
                    None => forall|j: int| 0 <= j < ids.len() ==> ids[j] != updated@,
                }
            }),
    {
        match chain.crates_to_update(sorted, updated) {
            Some(order) => Some(ChainUpdate { order, next: 0, removed_fns }),
            None => None,
        }
    }

    /// The crate whose audit is to be updated next; `None` once all are.
    pub fn current(&self) -> (r: Option<&CrateId>)
        ensures
            self.next < self.order.len() ==> r == Some(&self.order@[self.next as int]),
            self.next >= self.order.len() ==> r is None,
    {
        if self.next < self.order.len() {
            Some(&self.order[self.next])
        } else {
            None
        }
    }

    /// Updates `audit`, the audit of the current crate: its trees of effects that
    /// come from the removed functions are dropped, and the chain records its new
    /// version. Gives where the audit is to be saved, and moves to the next crate.
    /// An audit at the last version is refused, and so is a crate the chain does
    /// not hold; nothing changes then.
    pub fn step(&mut self, chain: &mut AuditChain, audit: &mut AuditFile) -> (r: Result<String, UpdateError>)
        requires
            old(self).next < old(self).order.len(),
            old(chain).wf(),
            old(audit).wf(),
        ensures
            final(chain).wf(),
            final(audit).wf(),
            final(self).order == old(self).order,
            final(self).removed_fns@ == old(self).removed_fns@,
            old(audit).version == u32::MAX ==> r == Err::<String, UpdateError>(UpdateError::VersionOverflow)
                && *final(self) == *old(self) && *final(chain) == *old(chain) && *final(audit) == *old(audit),
            old(audit).version < u32::MAX ==> {
                &&& final(audit).audit_trees@ == kept_trees(old(audit).audit_trees@, path_views(old(self).removed_fns@))
                &&& cc_matches(final(audit).pub_caller_checked@, final(audit).audit_trees@, cc_keys(old(audit).pub_caller_checked@))
                &&& final(audit).version == old(audit).version + if dropped_trees(
                    old(audit).audit_trees@,
                    path_views(old(self).removed_fns@),
                ).len() > 0 {
                    1int
                } else {
                    0int
                }
                &&& final(audit).base_dir == old(audit).base_dir
                &&& final(audit).hash == old(audit).hash
                &&& final(audit).scanned_effects == old(audit).scanned_effects
                &&& final(self).next == old(self).next + 1
                &&& match policy_lookup(old(chain)@.crate_policies, old(self).order@[old(self).next as int]@) {
                    Some(p) => r matches Ok(path) && path@ == p.0 && final(chain)@.crate_policies == policy_insert(
                        old(chain)@.crate_policies,
                        old(self).order@[old(self).next as int]@,
                        (p.0, final(audit).version),
                    ),
                    None => r == Err::<String, UpdateError>(UpdateError::MissingCrate)
                        && final(chain)@.crate_policies == old(chain)@.crate_policies,
                }
                &&& final(chain)@.manifest_path == old(chain)@.manifest_path
                &&& final(chain)@.crate_path == old(chain)@.crate_path
                &&& final(chain)@.scanned_effects == old(chain)@.scanned_effects
            },
    {
        if audit.version == u32::MAX {
            return Err(UpdateError::VersionOverflow);
        }
        audit.apply_removed_sinks(&mut self.removed_fns);
        let i = self.next;
        self.next = i + 1;
        match chain.set_audit_version(&self.order[i], audit.version) {
            Some(path) => Ok(path),
            None => Err(UpdateError::MissingCrate),
        }
    }
}

} // verus!
