//! The workflow's sequencing: five suspending steps in strict order —
//! resolve configuration, create, open, load the source, merge. Any
//! failure records the failing step and skips every later one; no
//! completed step is rolled back.

use vstd::prelude::*;
use crate::error::WorkflowError;

verus! {

/// The five steps of the workflow, in order.
#[derive(Clone, Copy, Debug, PartialEq, Eq, Structural)]
pub enum Stage {
    ResolveConfig,
    CreateTable,
    OpenTable,
    LoadSource,
    ExecuteMerge,
}

impl Stage {
    /// The step after this one, if any.
    pub open spec fn spec_next(self) -> Option<Stage> {
        match self {
            Stage::ResolveConfig => Some(Stage::CreateTable),
            Stage::CreateTable => Some(Stage::OpenTable),
            Stage::OpenTable => Some(Stage::LoadSource),
            Stage::LoadSource => Some(Stage::ExecuteMerge),
            Stage::ExecuteMerge => None,
        }
    }

    /// The step's name, for diagnostics.
    pub fn name(&self) -> (r: &'static str)
        ensures
            *self is ResolveConfig ==> r@ == "resolve configuration"@,
            *self is CreateTable ==> r@ == "create table"@,
            *self is OpenTable ==> r@ == "open table"@,
            *self is LoadSource ==> r@ == "load source"@,
            *self is ExecuteMerge ==> r@ == "execute merge"@,
    {
        match self {
            Stage::ResolveConfig => "resolve configuration",
            Stage::CreateTable => "create table",
            Stage::OpenTable => "open table",
            Stage::LoadSource => "load source",
            Stage::ExecuteMerge => "execute merge",
        }
    }
}

/// Where a run of the workflow stands.
#[derive(Debug)]
pub enum WorkflowState {
    /// The given step is about to run.
    Pending { stage: Stage },
    /// Every step completed.
    Done,
    /// The given step failed; every later step was skipped.
    Failed { stage: Stage, error: WorkflowError },
}

/// A fresh run starts at configuration resolution.
pub fn start() -> (s: WorkflowState)
    ensures
        s matches WorkflowState::Pending { stage } && stage is ResolveConfig,
{
    WorkflowState::Pending { stage: Stage::ResolveConfig }
}

/// Advances a run once its pending step has reported its outcome:
/// success moves to the next step in order, or completes the run
/// after the last one; a failure aborts the run at that step, and no
/// later step ever runs.
pub fn advance(state: WorkflowState, outcome: Result<(), WorkflowError>) -> (s: WorkflowState)
    requires
        state matches WorkflowState::Pending { .. },
    ensures
        state matches WorkflowState::Pending { stage } ==> match outcome {
            Ok(u) => match stage.spec_next() {
                Some(n) => s matches WorkflowState::Pending { stage: p } && p == n,
                None => s is Done,
            },
            Err(e) => s matches WorkflowState::Failed { stage: f, error } && f == stage && error
                == e,
        },
{
    match state {
        WorkflowState::Pending { stage } => {
            match outcome {
                Ok(_) => {
                    match stage {
                        Stage::ResolveConfig => WorkflowState::Pending {
                            stage: Stage::CreateTable,
                        },
                        Stage::CreateTable => WorkflowState::Pending { stage: Stage::OpenTable },
                        Stage::OpenTable => WorkflowState::Pending { stage: Stage::LoadSource },
                        Stage::LoadSource => WorkflowState::Pending {
                            stage: Stage::ExecuteMerge,
                        },
                        Stage::ExecuteMerge => WorkflowState::Done,
                    }
                },
                Err(e) => WorkflowState::Failed { stage, error: e },
            }
        },
        WorkflowState::Done => WorkflowState::Done,
        WorkflowState::Failed { stage, error } => WorkflowState::Failed { stage, error },
    }
}

} // verus!
