//! The steps by which a tree is brought onto a filesystem, laid out in the
//! order in which they are taken.

use vstd::prelude::*;
use crate::directory::{lemma_models_of, DirectoryBuilder, DirectoryModel};
use crate::file::{FileBuilder, FileModel};

verus! {

/// What a step stands for.
pub enum StepModel {
    /// The question whether anything is at `path`, which on yes passes over
    /// the next `span` steps.
    Probe { path: Seq<char>, span: nat },
    /// The creation of the directory `path`.
    CreateDir { path: Seq<char>, recursive: bool },
    /// The writing of `file` at its path.
    WriteFile { file: FileModel },
}

/// One request to the filesystem. Each is answered with yes or no.
#[derive(Debug, PartialEq, Eq)]
pub enum Step {
    /// Is there anything at `path`? On yes the next `span` steps are passed
    /// over; on no the next step is taken.
    Probe { path: String, span: usize },
    /// Create the directory `path`, and the missing directories above it
    /// when `recursive`. Yes when it was created; on no the run has failed.
    CreateDir { path: String, recursive: bool },
    /// Write `file` at the path it was resolved to. Yes when it was written;
    /// on no the run has failed.
    WriteFile { file: FileBuilder },
}

impl View for Step {
    type V = StepModel;

    open spec fn view(&self) -> StepModel {
        match self {
            Step::Probe { path, span } => StepModel::Probe { path: path@, span: *span as nat },
            Step::CreateDir { path, recursive } => StepModel::CreateDir {
                path: path@,
                recursive: *recursive,
            },
            Step::WriteFile { file } => StepModel::WriteFile { file: file@ },
        }
    }
}

/// The models of `steps`, in their order.
pub open spec fn step_models(steps: Seq<Step>) -> Seq<StepModel> {
    steps.map_values(|s: Step| s@)
}

/// One step for each file, in the order of `files`.
pub open spec fn file_steps(files: Seq<FileModel>) -> Seq<StepModel> {
    files.map_values(|f: FileModel| StepModel::WriteFile { file: f })
}

/// The steps for the children `dirs`, first child first: for each child a
/// probe of its path that passes over the child's whole plan, then that plan.
pub open spec fn child_steps(dirs: Seq<DirectoryModel>) -> Seq<StepModel>
    decreases dirs,
{
    if dirs.len() == 0 {
        Seq::empty()
    } else {
        let plan = dirs.first().plan();
        seq![StepModel::Probe { path: dirs.first().path, span: plan.len() }] + plan + child_steps(
            dirs.drop_first(),
        )
    }
}

impl DirectoryModel {
    /// The two steps for the node's own directory: a probe of its path that
    /// passes over the creation, then the creation.
    pub open spec fn own_steps(self) -> Seq<StepModel> {
        seq![
            StepModel::Probe { path: self.path, span: 1 },
            StepModel::CreateDir { path: self.path, recursive: self.recursive },
        ]
    }

    /// All steps for the node: its own directory, then its children in
    /// their order, then its files in their order.
    pub open spec fn plan(self) -> Seq<StepModel>
        decreases self,
    {
        self.own_steps() + child_steps(self.dirs) + file_steps(self.files)
    }

    /// The steps that a parent lays out for this node as its child.
    pub open spec fn guarded_plan(self) -> Seq<StepModel> {
        seq![StepModel::Probe { path: self.path, span: self.plan().len() }] + self.plan()
    }
}

/// The steps for a list of children are those of its front part followed by
/// those of its back part.
pub proof fn lemma_child_steps_concat(front: Seq<DirectoryModel>, back: Seq<DirectoryModel>)
    ensures
        child_steps(front + back) == child_steps(front) + child_steps(back),
    decreases front.len(),
{
    if front.len() == 0 {
        assert(front + back =~= back);
        assert(child_steps(front) =~= Seq::empty());
        assert(child_steps(front) + child_steps(back) =~= child_steps(back));
    } else {
        let all = front + back;
        assert(all.first() == front.first());
        assert(all.drop_first() =~= front.drop_first() + back);
        lemma_child_steps_concat(front.drop_first(), back);
        let plan = front.first().plan();
        let head = seq![StepModel::Probe { path: front.first().path, span: plan.len() }] + plan;
        assert(child_steps(all) == head + child_steps(all.drop_first()));
        assert(child_steps(front) == head + child_steps(front.drop_first()));
        assert(head + (child_steps(front.drop_first()) + child_steps(back)) =~= (head
            + child_steps(front.drop_first())) + child_steps(back));
    }
}

/// The steps for one child more are the steps so far followed by what is
/// laid out for that child.
pub proof fn lemma_child_steps_push(dirs: Seq<DirectoryModel>, dir: DirectoryModel)
    ensures
        child_steps(dirs.push(dir)) == child_steps(dirs) + dir.guarded_plan(),
{
    let one = seq![dir];
    assert(dirs.push(dir) =~= dirs + one);
    lemma_child_steps_concat(dirs, one);
    assert(one.first() == dir);
    assert(one.drop_first() =~= Seq::empty());
    assert(child_steps(one.drop_first()) =~= Seq::empty());
    assert(child_steps(one) =~= dir.guarded_plan());
}

/// No probe of `steps` passes over more steps than follow it.
pub open spec fn spans_fit(steps: Seq<StepModel>) -> bool {
    forall|i: int|
        0 <= i < steps.len() ==> (#[trigger] steps[i] matches StepModel::Probe { span, .. } ==> i
            + 1 + span <= steps.len())
}

/// Two lists whose probes stay inside them make one such list.
pub proof fn lemma_spans_fit_concat(front: Seq<StepModel>, back: Seq<StepModel>)
    requires
        spans_fit(front),
        spans_fit(back),
    ensures
        spans_fit(front + back),
{
    let all = front + back;
    assert forall|i: int| 0 <= i < all.len() implies (#[trigger] all[i] matches StepModel::Probe {
        span,
        ..
    } ==> i + 1 + span <= all.len()) by {
        if i < front.len() {
            assert(all[i] == front[i]);
        } else {
            assert(all[i] == back[i - front.len()]);
        }
    }
}

/// In the steps for a list of children no probe passes over more steps than
/// follow it.
pub proof fn lemma_child_steps_fit(dirs: Seq<DirectoryModel>)
    ensures
        spans_fit(child_steps(dirs)),
    decreases dirs,
{
    if dirs.len() == 0 {
        assert(child_steps(dirs) =~= Seq::empty());
    } else {
        let first = dirs.first();
        lemma_plan_fits(first);
        lemma_child_steps_fit(dirs.drop_first());
        let guard = seq![StepModel::Probe { path: first.path, span: first.plan().len() }];
        let guarded = guard + first.plan();
        assert(spans_fit(guarded)) by {
            assert forall|i: int| 0 <= i < guarded.len() implies (#[trigger] guarded[i] matches
            StepModel::Probe { span, .. } ==> i + 1 + span <= guarded.len()) by {
                if i > 0 {
                    assert(guarded[i] == first.plan()[i - 1]);
                }
            }
        }
        lemma_spans_fit_concat(guarded, child_steps(dirs.drop_first()));
        assert(child_steps(dirs) == guarded + child_steps(dirs.drop_first()));
    }
}

/// In the plan of a node no probe passes over more steps than follow it.
pub proof fn lemma_plan_fits(dir: DirectoryModel)
    ensures
        spans_fit(dir.plan()),
    decreases dir,
{
    lemma_child_steps_fit(dir.dirs);
    assert(spans_fit(dir.own_steps()));
    assert(spans_fit(file_steps(dir.files)));
    lemma_spans_fit_concat(dir.own_steps(), child_steps(dir.dirs));
    lemma_spans_fit_concat(dir.own_steps() + child_steps(dir.dirs), file_steps(dir.files));
}

/// `part` stands in `plan` from the place `at` on.
pub open spec fn holds_at(plan: Seq<StepModel>, at: nat, part: Seq<StepModel>) -> bool {
    &&& at + part.len() <= plan.len()
    &&& forall|i: int| 0 <= i < part.len() ==> plan[at + i] == #[trigger] part[i]
}

/// Where two parts stand one after the other, each of them stands.
pub proof fn lemma_holds_at_split(
    plan: Seq<StepModel>,
    at: nat,
    front: Seq<StepModel>,
    back: Seq<StepModel>,
)
    requires
        holds_at(plan, at, front + back),
    ensures
        holds_at(plan, at, front),
        holds_at(plan, at + front.len(), back),
{
    let all = front + back;
    assert forall|i: int| 0 <= i < front.len() implies plan[at + i] == #[trigger] front[i] by {
        assert(all[i] == front[i]);
    }
    assert forall|i: int| 0 <= i < back.len() implies plan[at + front.len() + i]
        == #[trigger] back[i] by {
        assert(all[front.len() + i] == back[i]);
    }
}

impl DirectoryModel {
    /// The place in the node's plan at which the steps for its child number
    /// `i` begin.
    pub open spec fn child_place(self, i: int) -> nat {
        2 + child_steps(self.dirs.take(i)).len()
    }
}

/// What is laid out for the child number `i` of a node stands in the node's
/// plan at that child's place, and the next child's place, or the first
/// file's, is right behind it.
pub proof fn lemma_child_stands_in_plan(dir: DirectoryModel, i: int)
    requires
        0 <= i < dir.dirs.len(),
    ensures
        holds_at(dir.plan(), dir.child_place(i), dir.dirs[i].guarded_plan()),
        dir.child_place(i + 1) == dir.child_place(i) + dir.dirs[i].guarded_plan().len(),
        dir.child_place(dir.dirs.len() as int) + dir.files.len() == dir.plan().len(),
{
    let before = dir.dirs.take(i);
    let child = dir.dirs[i];
    let behind = dir.dirs.skip(i + 1);
    assert(dir.dirs.take(i + 1) =~= before.push(child));
    lemma_child_steps_push(before, child);
    assert(dir.dirs =~= dir.dirs.take(i + 1) + behind);
    lemma_child_steps_concat(dir.dirs.take(i + 1), behind);
    assert(dir.dirs.take(dir.dirs.len() as int) =~= dir.dirs);
    let plan = dir.plan();
    let laid = child.guarded_plan();
    let place = dir.child_place(i);
    assert(plan == (dir.own_steps() + ((child_steps(before) + laid) + child_steps(behind)))
        + file_steps(dir.files));
    assert forall|j: int| 0 <= j < laid.len() implies plan[place + j] == #[trigger] laid[j] by {
        assert(plan[place + j] == ((child_steps(before) + laid) + child_steps(behind))[place
            + j - 2]);
    }
}

impl DirectoryBuilder {
    /// Lays out every step of the tree below this node, in the order in which
    /// they are to be taken.
    pub fn plan(&self) -> (steps: Vec<Step>)
        ensures
            step_models(steps@) == self@.plan(),
        decreases self,
    {
        let mut steps: Vec<Step> = Vec::new();
        steps.push(Step::Probe { path: self.path.clone(), span: 1 });
        steps.push(Step::CreateDir { path: self.path.clone(), recursive: self.recursive });
        proof {
            lemma_models_of(self.dirs@);
            assert(step_models(steps@) =~= self@.own_steps());
            assert(self@.dirs.take(0) =~= Seq::empty());
            assert(self@.own_steps() + child_steps(self@.dirs.take(0)) =~= self@.own_steps());
        }
        let mut i: usize = 0;
        while i < self.dirs.len()
            invariant
                i <= self.dirs.len(),
                self@.dirs.len() == self.dirs.len(),
                forall|k: int| 0 <= k < self.dirs.len() ==> self@.dirs[k] == self.dirs[k]@,
                step_models(steps@) == self@.own_steps() + child_steps(self@.dirs.take(i as int)),
            decreases self.dirs.len() - i,
        {
            let child = &self.dirs[i];
            let mut sub = child.plan();
            let ghost before = steps@;
            let ghost inner = sub@;
            steps.push(Step::Probe { path: child.path.clone(), span: sub.len() });
            steps.append(&mut sub);
            proof {
                let done = self@.dirs.take(i as int);
                assert(self@.dirs.take(i + 1) =~= done.push(child@));
                lemma_child_steps_push(done, child@);
                assert(step_models(steps@) =~= step_models(before) + child@.guarded_plan()) by {
                    assert(steps@ =~= before.push(steps@[before.len() as int]) + inner);
                    assert(step_models(inner) == child@.plan());
                }
                assert(step_models(before) + child@.guarded_plan() =~= self@.own_steps()
                    + (child_steps(done) + child@.guarded_plan()));
            }
            i += 1;
        }
        proof {
            assert(self@.dirs.take(i as int) =~= self@.dirs);
            assert(self@.files.take(0) =~= Seq::empty());
        }
        let ghost upper = steps@;
        let mut j: usize = 0;
        while j < self.files.len()
            invariant
                j <= self.files.len(),
                step_models(upper) == self@.own_steps() + child_steps(self@.dirs),
                step_models(steps@) == step_models(upper) + file_steps(self@.files.take(j as int)),
            decreases self.files.len() - j,
        {
            let ghost before = steps@;
            steps.push(Step::WriteFile { file: self.files[j].clone() });
            proof {
                let file = self.files[j as int]@;
                assert(self@.files[j as int] == file);
                assert(self@.files.take(j + 1) =~= self@.files.take(j as int).push(file));
                assert(file_steps(self@.files.take(j + 1)) =~= file_steps(
                    self@.files.take(j as int),
                ).push(StepModel::WriteFile { file }));
                assert(step_models(steps@) =~= step_models(before).push(
                    StepModel::WriteFile { file },
                ));
            }
            j += 1;
        }
        proof {
            assert(self@.files.take(j as int) =~= self@.files);
        }
        steps
    }
}

} // verus!
