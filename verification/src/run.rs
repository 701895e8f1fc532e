//! A run through the plan of a tree, one answered request at a time.

use vstd::prelude::*;
use crate::directory::DirectoryBuilder;
use crate::plan::{lemma_plan_fits, spans_fit, step_models, Step, StepModel};

verus! {

/// What a run stands for: the plan, the place of the step that is to be taken
/// next, and whether a step has failed.
pub struct RunModel {
    pub plan: Seq<StepModel>,
    pub at: nat,
    pub failed: bool,
}

impl RunModel {
    /// The run of `plan` before its first step.
    pub open spec fn start(plan: Seq<StepModel>) -> RunModel {
        RunModel { plan, at: 0, failed: false }
    }

    /// The step that is to be taken next. There is none once a step has
    /// failed or the plan is through.
    pub open spec fn pending(self) -> Option<StepModel> {
        if !self.failed && self.at < self.plan.len() {
            Some(self.plan[self.at as int])
        } else {
            None
        }
    }

    /// The run after its pending step was answered with `yes`.
    ///
    /// A probe answered with yes passes over as many steps as it names, and
    /// answered with no goes on to the next step. Any other step goes on to
    /// the next step when answered with yes, and fails the run when answered
    /// with no. A run with no pending step stays as it is.
    pub open spec fn after(self, yes: bool) -> RunModel {
        match self.pending() {
            None => self,
            Some(StepModel::Probe { span, .. }) => RunModel {
                at: if yes {
                    self.at + 1 + span
                } else {
                    self.at + 1
                },
                ..self
            },
            Some(_) => if yes {
                RunModel { at: self.at + 1, ..self }
            } else {
                RunModel { failed: true, ..self }
            },
        }
    }

    /// The plan is through and no step has failed.
    pub open spec fn succeeded(self) -> bool {
        !self.failed && self.at >= self.plan.len()
    }
}

/// The state of one run through the plan of a tree.
pub struct Run {
    steps: Vec<Step>,
    at: usize,
    failed: bool,
}

impl View for Run {
    type V = RunModel;

    closed spec fn view(&self) -> RunModel {
        RunModel { plan: step_models(self.steps@), at: self.at as nat, failed: self.failed }
    }
}

impl Run {
    /// The place is inside the plan or right behind it, and no probe passes
    /// over more steps than follow it.
    #[verifier::type_invariant]
    spec fn well_formed(self) -> bool {
        &&& self.at <= self.steps.len()
        &&& spans_fit(step_models(self.steps@))
    }

    /// Begins the run for the tree below `root`, with the paths that the
    /// tree holds at this moment.
    pub fn new(root: &DirectoryBuilder) -> (run: Run)
        ensures
            run@ == RunModel::start(root@.plan()),
    {
        let steps = root.plan();
        proof {
            lemma_plan_fits(root@);
        }
        Run { steps, at: 0, failed: false }
    }

    /// The request that is to be put to the filesystem next, or `None` when
    /// the run is over.
    pub fn pending(&self) -> (step: Option<&Step>)
        ensures
            step matches Some(s) ==> self@.pending() == Some(s@),
            step is None ==> self@.pending() is None,
    {
        proof {
            use_type_invariant(self);
        }
        if !self.failed && self.at < self.steps.len() {
            Some(&self.steps[self.at])
        } else {
            None
        }
    }

    /// Takes the answer to the pending request and moves on.
    pub fn advance(&mut self, yes: bool)
        ensures
            final(self)@ == old(self)@.after(yes),
    {
        proof {
            use_type_invariant(&*self);
        }
        if self.failed || self.at >= self.steps.len() {
            return ;
        }
        assert(step_models(self.steps@)[self.at as int] == self.steps[self.at as int]@);
        match &self.steps[self.at] {
            Step::Probe { span, .. } => {
                if yes {
                    self.at = self.at + 1 + *span;
                } else {
                    self.at = self.at + 1;
                }
            },
            _ => {
                if yes {
                    self.at = self.at + 1;
                } else {
                    self.failed = true;
                }
            },
        }
    }

    /// Whether a step has failed. No request is pending after that.
    pub fn failed(&self) -> (failed: bool)
        ensures
            failed == self@.failed,
    {
        self.failed
    }

    /// Whether every step of the plan was taken or passed over and none has
    /// failed.
    pub fn succeeded(&self) -> (done: bool)
        ensures
            done == self@.succeeded(),
    {
        !self.failed && self.at >= self.steps.len()
    }
}

} // verus!
