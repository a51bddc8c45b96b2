//! How a run ends, on either path.

use vstd::prelude::*;
use crate::dispatch::DispatchAction;

verus! {

/// The one result of a run.
#[derive(Debug, Clone, PartialEq, Eq)]
pub enum MatchOutcome {
    /// This candidate reproduces the target.
    Found(String),
    /// No candidate of the wordlist reproduces the target.
    NotFound,
    /// The path that was asked for cannot search for this kind of target.
    NotImplemented,
}

/// An outcome as a mathematical value.
pub enum OutcomeModel {
    Found(Seq<char>),
    NotFound,
    NotImplemented,
}

impl View for MatchOutcome {
    type V = OutcomeModel;

    open spec fn view(&self) -> OutcomeModel {
        match *self {
            MatchOutcome::Found(word) => OutcomeModel::Found(word@),
            MatchOutcome::NotFound => OutcomeModel::NotFound,
            MatchOutcome::NotImplemented => OutcomeModel::NotImplemented,
        }
    }
}

/// The outcome that `action` reports over `words`, if it reports one.
pub open spec fn report_spec(words: Seq<String>, action: DispatchAction) -> Option<OutcomeModel> {
    match action {
        DispatchAction::ReportFound { index } => Some(OutcomeModel::Found(words[index as int]@)),
        DispatchAction::ReportNotFound => Some(OutcomeModel::NotFound),
        _ => None,
    }
}

/// Resolves a dispatcher action to the outcome of the run: the candidate at the
/// reported place of the wordlist, or that there is none. Any other action
/// reports nothing.
pub fn report(words: &[String], action: DispatchAction) -> (r: Option<MatchOutcome>)
    requires
        action matches DispatchAction::ReportFound { index } ==> index < words@.len(),
    ensures
        match r {
            Some(o) => report_spec(words@, action) == Some(o@),
            None => report_spec(words@, action) is None,
        },
{
    match action {
        DispatchAction::ReportFound { index } => Some(MatchOutcome::Found(words[index].clone())),
        DispatchAction::ReportNotFound => Some(MatchOutcome::NotFound),
        _ => None,
    }
}

} // verus!
