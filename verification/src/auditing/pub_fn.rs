//! The decision taken after each round of auditing the effects of a public
//! function: finish, go on with the public function that a child effect's sink
//! names, or refuse the answer.
use vstd::prelude::*;

use crate::auditing::audit::AuditStatus;
use crate::effect::{Effect, EffectInstance, EffectView};
use crate::sink::Sink;

verus! {

/// What comes after a round of auditing a public function's effects.
pub enum PubFnStep {
    /// The crate is done: its audit is saved and the change propagated.
    Finish,
    /// The audit is saved, then the public function that the sink names is audited.
    AuditChild(Sink),
}

/// Why a round's outcome cannot be followed.
#[derive(Debug, Clone, Copy, PartialEq, Eq, Structural)]
pub enum PubFnError {
    /// A child effect was chosen that is not a sink call.
    ChildNotSink,
    /// A child effect was to be audited but none was given.
    ChildWithoutEffect,
    /// Going back to a parent effect is not possible here.
    ParentEffect,
    /// Expanding the context is not possible here.
    ExpandContext,
}

/// The step that the status of a round and the child effect it chose lead to.
pub fn pub_fn_step(status: AuditStatus, child: Option<&EffectInstance>) -> (r: Result<PubFnStep, PubFnError>)
    ensures
        match status {
            AuditStatus::ContinueAudit | AuditStatus::EarlyExit => r matches Ok(PubFnStep::Finish),
            AuditStatus::AuditChildEffect => match child {
                None => r == Err::<PubFnStep, PubFnError>(PubFnError::ChildWithoutEffect),
                Some(e) => match e@.eff_type {
                    EffectView::SinkCall(p) => r matches Ok(PubFnStep::AuditChild(s)) && s@ == p,
                    _ => r == Err::<PubFnStep, PubFnError>(PubFnError::ChildNotSink),
                },
            },
            AuditStatus::AuditParentEffect => r == Err::<PubFnStep, PubFnError>(PubFnError::ParentEffect),
            AuditStatus::ExpandContext => r == Err::<PubFnStep, PubFnError>(PubFnError::ExpandContext),
        },
{
    match status {
        AuditStatus::ContinueAudit | AuditStatus::EarlyExit => Ok(PubFnStep::Finish),
        AuditStatus::AuditChildEffect => match child {
            None => Err(PubFnError::ChildWithoutEffect),
            Some(e) => match e.eff_type() {
                Effect::SinkCall(s) => Ok(PubFnStep::AuditChild(s.clone())),
                _ => Err(PubFnError::ChildNotSink),
            },
        },
        AuditStatus::AuditParentEffect => Err(PubFnError::ParentEffect),
        AuditStatus::ExpandContext => Err(PubFnError::ExpandContext),
    }
}

} // verus!
