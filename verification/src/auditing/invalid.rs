//! What happens when an audit file no longer matches its crate: the auditor's
//! choice, and starting the audit over.
use vstd::prelude::*;

use crate::audit_file::{base_tree, tree_keys, AuditFile};
use crate::auditing::audit::is_char;
use crate::effect::{instance_views, EffectInstance};
use crate::text::{copy_string, push_str};

verus! {

/// What to do with an audit file whose crate changed.
#[derive(Debug, Clone, Copy, PartialEq, Eq, Structural)]
pub enum InvalidAuditAction {
    /// Start a new audit file for the crate as it is now
    StartNew,
    /// Leave the audit file as it is and stop
    ExitNow,
    /// Go on with the existing audit file although the crate changed
    ForceContinue,
}

/// The decision on an audit file whose crate changed: a new audit file when
/// overwriting was asked for; otherwise by the auditor's answer, `c` for a new
/// audit file, `x` to exit, `f` to go on with the existing one. Any other
/// answer is not accepted (`None`: the auditor is asked again).
pub fn invalid_audit_action(overwrite_audit: bool, answer: &str) -> (r: Option<InvalidAuditAction>)
    ensures
        overwrite_audit ==> r == Some(InvalidAuditAction::StartNew),
        !overwrite_audit ==> r == if is_char(answer@, 'c') {
            Some(InvalidAuditAction::StartNew)
        } else if is_char(answer@, 'x') {
            Some(InvalidAuditAction::ExitNow)
        } else if is_char(answer@, 'f') {
            Some(InvalidAuditAction::ForceContinue)
        } else {
            None
        },
{
    if overwrite_audit {
        return Some(InvalidAuditAction::StartNew);
    }
    let v = crate::text::chars_of(answer);
    if v.len() != 1 {
        return None;
    }
    if v[0] == 'c' {
        Some(InvalidAuditAction::StartNew)
    } else if v[0] == 'x' {
        Some(InvalidAuditAction::ExitNow)
    } else if v[0] == 'f' {
        Some(InvalidAuditAction::ForceContinue)
    } else {
        None
    }
}

/// Where a new audit file goes: the old path with `.new` appended.
pub fn new_audit_path(path: &str) -> (r: String)
    ensures
        r@ == path@ + ".new"@,
{
    let mut s = copy_string(path);
    push_str(&mut s, ".new");
    s
}

/// Starts an audit file over for the crate as it is now: one unaudited leaf per
/// effect of the scan, and the hash of the crate's current files.
pub fn restart_audit(audit_file: &mut AuditFile, effects: &Vec<EffectInstance>, hash: [u8; 32])
    requires
        old(audit_file).wf(),
    ensures
        final(audit_file).wf(),
        tree_keys(final(audit_file).audit_trees@).to_set() == instance_views(effects@).to_set(),
        forall|i: int|
            0 <= i < final(audit_file).audit_trees@.len() ==> base_tree(
                (#[trigger] final(audit_file).audit_trees@[i]).0@,
                final(audit_file).audit_trees@[i].1,
            ),
        final(audit_file).hash == hash,
        final(audit_file).pub_caller_checked == old(audit_file).pub_caller_checked,
        final(audit_file).base_dir == old(audit_file).base_dir,
        final(audit_file).version == old(audit_file).version,
        final(audit_file).scanned_effects == old(audit_file).scanned_effects,
{
    audit_file.set_base_audit_trees(effects);
    audit_file.hash = hash;
}

} // verus!
