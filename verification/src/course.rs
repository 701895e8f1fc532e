//! The course of a build: which requests reach the filesystem, in which
//! order, under every way in which the filesystem may answer them.
//!
//! The build of a node is stated here directly, by recursion over the tree,
//! and the run through the node's plan is shown to take the same course.

use vstd::prelude::*;
use crate::directory::DirectoryModel;
use crate::file::FileModel;
use crate::plan::{child_steps, file_steps, holds_at, lemma_holds_at_split, StepModel};
use crate::run::RunModel;

verus! {

/// What a step asks of the filesystem.
pub enum Request {
    Exists { path: Seq<char> },
    CreateDir { path: Seq<char>, recursive: bool },
    WriteFile { file: FileModel },
}

impl StepModel {
    /// What the step asks of the filesystem.
    pub open spec fn request(self) -> Request {
        match self {
            StepModel::Probe { path, .. } => Request::Exists { path },
            StepModel::CreateDir { path, recursive } => Request::CreateDir { path, recursive },
            StepModel::WriteFile { file } => Request::WriteFile { file },
        }
    }
}

/// The requests that were made, in their order, and whether none of them has
/// failed.
pub struct Course {
    pub requests: Seq<Request>,
    pub ok: bool,
}

impl Course {
    /// Nothing was asked and nothing has failed.
    pub open spec fn none() -> Course {
        Course { requests: Seq::empty(), ok: true }
    }

    /// The one request `request` was made.
    pub open spec fn single(request: Request, ok: bool) -> Course {
        Course { requests: seq![request], ok }
    }

    /// How many requests were made.
    pub open spec fn len(self) -> nat {
        self.requests.len()
    }

    /// This course followed by `rest`. A course that has failed is not
    /// followed by anything.
    pub open spec fn followed_by(self, rest: Course) -> Course {
        if self.ok {
            Course { requests: self.requests + rest.requests, ok: rest.ok }
        } else {
            self
        }
    }
}

/// The course of writing `files` in their order, where the request number
/// `n` of it is answered with `replies(k + n)`. It ends with the first file
/// that could not be written.
pub open spec fn files_course(
    files: Seq<FileModel>,
    replies: spec_fn(nat) -> bool,
    k: nat,
) -> Course
    decreases files.len(),
{
    if files.len() == 0 {
        Course::none()
    } else {
        Course::single(Request::WriteFile { file: files.first() }, replies(k)).followed_by(
            files_course(files.drop_first(), replies, k + 1),
        )
    }
}

/// The course of building the children `dirs` in their order, where the
/// request number `n` of it is answered with `replies(k + n)`. A child whose
/// path is there already is left alone with all that is below it; any other
/// child is built. It ends with the first child whose build fails.
pub open spec fn children_course(
    dirs: Seq<DirectoryModel>,
    replies: spec_fn(nat) -> bool,
    k: nat,
) -> Course
    decreases dirs,
{
    if dirs.len() == 0 {
        Course::none()
    } else {
        let first = dirs.first().child_course(replies, k);
        first.followed_by(children_course(dirs.drop_first(), replies, k + first.len()))
    }
}

impl DirectoryModel {
    /// The course of bringing the node's own directory about: its path is
    /// probed, and the directory is created when nothing is there.
    pub open spec fn own_course(self, replies: spec_fn(nat) -> bool, k: nat) -> Course {
        Course::single(Request::Exists { path: self.path }, true).followed_by(
            if replies(k) {
                Course::none()
            } else {
                Course::single(
                    Request::CreateDir { path: self.path, recursive: self.recursive },
                    replies(k + 1),
                )
            },
        )
    }

    /// The course of the build of this node, where the request number `n` of
    /// it is answered with `replies(k + n)`: first its own directory, then
    /// its children, then its files, up to the first request that fails.
    pub open spec fn build_course(self, replies: spec_fn(nat) -> bool, k: nat) -> Course
        decreases self, 0nat,
    {
        let own = self.own_course(replies, k);
        let children = children_course(self.dirs, replies, k + own.len());
        let files = files_course(self.files, replies, k + own.len() + children.len());
        own.followed_by(children).followed_by(files)
    }

    /// The course of this node's turn as a child: its path is probed, and the
    /// node is built when nothing is there.
    pub open spec fn child_course(self, replies: spec_fn(nat) -> bool, k: nat) -> Course
        decreases self, 1nat,
    {
        Course::single(Request::Exists { path: self.path }, true).followed_by(
            if replies(k) {
                Course::none()
            } else {
                self.build_course(replies, k + 1)
            },
        )
    }
}

impl RunModel {
    /// The run of `plan` that is about to take the step at the place `at`.
    pub open spec fn at_step(plan: Seq<StepModel>, at: nat) -> RunModel {
        RunModel { plan, at, failed: false }
    }

    /// How many steps may still be taken.
    pub open spec fn steps_left(self) -> nat {
        if self.failed || self.at >= self.plan.len() {
            0
        } else {
            (self.plan.len() - self.at) as nat
        }
    }

    /// The course that the run takes from here on, where the request number
    /// `n` of it is answered with `replies(k + n)`.
    pub open spec fn course(self, replies: spec_fn(nat) -> bool, k: nat) -> Course
        decreases self.steps_left(),
    {
        match self.pending() {
            None => Course { requests: Seq::empty(), ok: !self.failed },
            Some(step) => Course::single(step.request(), true).followed_by(
                self.after(replies(k)).course(replies, k + 1),
            ),
        }
    }
}

/// Following is associative.
pub proof fn lemma_followed_by_assoc(a: Course, b: Course, c: Course)
    ensures
        a.followed_by(b).followed_by(c) == a.followed_by(b.followed_by(c)),
{
    if a.ok && b.ok {
        assert((a.requests + b.requests) + c.requests =~= a.requests + (b.requests + c.requests));
    }
}

/// The empty course changes nothing, before or after another.
pub proof fn lemma_followed_by_none(c: Course)
    ensures
        Course::none().followed_by(c) == c,
        c.followed_by(Course::none()) == c,
{
    assert(Seq::<Request>::empty() + c.requests =~= c.requests);
    assert(c.requests + Seq::<Request>::empty() =~= c.requests);
}

/// Where the steps for `files` stand in a plan, the run takes the course of
/// writing `files` and goes on behind them.
pub proof fn lemma_run_files(
    plan: Seq<StepModel>,
    at: nat,
    files: Seq<FileModel>,
    replies: spec_fn(nat) -> bool,
    k: nat,
)
    requires
        holds_at(plan, at, file_steps(files)),
    ensures
        ({
            let course = files_course(files, replies, k);
            RunModel::at_step(plan, at).course(replies, k) == course.followed_by(
                RunModel::at_step(plan, at + files.len()).course(replies, k + course.len()),
            )
        }),
    decreases files.len(),
{
    let run = RunModel::at_step(plan, at);
    let course = files_course(files, replies, k);
    if files.len() == 0 {
        lemma_followed_by_none(run.course(replies, k));
    } else {
        let write = Request::WriteFile { file: files.first() };
        let rest = files.drop_first();
        assert(plan[at as int] == file_steps(files)[0]);
        assert(run.pending() == Some(StepModel::WriteFile { file: files.first() }));
        let tail = files_course(rest, replies, k + 1);
        assert(course == Course::single(write, replies(k)).followed_by(tail));
        if replies(k) {
            assert(run.after(true) == RunModel::at_step(plan, at + 1));
            assert(holds_at(plan, at + 1, file_steps(rest))) by {
                assert forall|i: int| 0 <= i < file_steps(rest).len() implies plan[at + 1 + i]
                    == #[trigger] file_steps(rest)[i] by {
                    assert(plan[at + (i + 1)] == file_steps(files)[i + 1]);
                }
            }
            lemma_run_files(plan, at + 1, rest, replies, k + 1);
            let beyond = RunModel::at_step(plan, at + files.len()).course(
                replies,
                k + 1 + tail.len(),
            );
            assert(at + 1 + rest.len() == at + files.len());
            assert(run.course(replies, k) == Course::single(write, true).followed_by(
                tail.followed_by(beyond),
            ));
            lemma_followed_by_assoc(Course::single(write, true), tail, beyond);
            assert(course.len() == 1 + tail.len());
        } else {
            let halted = run.after(false);
            assert(halted.pending() is None);
            assert(halted.course(replies, k + 1) == Course { requests: Seq::empty(), ok: false });
            assert(seq![write] + Seq::<Request>::empty() =~= seq![write]);
        }
    }
}

/// Where the plan of `dir` stands in a plan, the run takes the course of the
/// build of `dir` and goes on behind it.
pub proof fn lemma_run_node(
    plan: Seq<StepModel>,
    at: nat,
    dir: DirectoryModel,
    replies: spec_fn(nat) -> bool,
    k: nat,
)
    requires
        holds_at(plan, at, dir.plan()),
    ensures
        ({
            let course = dir.build_course(replies, k);
            RunModel::at_step(plan, at).course(replies, k) == course.followed_by(
                RunModel::at_step(plan, at + dir.plan().len()).course(replies, k + course.len()),
            )
        }),
    decreases dir, 0nat,
{
    let own_part = dir.own_steps();
    let child_part = child_steps(dir.dirs);
    let file_part = file_steps(dir.files);
    assert(dir.plan() == (own_part + child_part) + file_part);
    lemma_holds_at_split(plan, at, own_part + child_part, file_part);
    lemma_holds_at_split(plan, at, own_part, child_part);
    let after_own = (at + 2) as nat;
    let after_children = (at + 2 + child_part.len()) as nat;
    let end = (at + dir.plan().len()) as nat;
    assert(end == after_children + file_part.len());

    let own = dir.own_course(replies, k);
    let k1 = k + own.len();
    let children = children_course(dir.dirs, replies, k1);
    let k2 = k1 + children.len();
    let files = files_course(dir.files, replies, k2);
    let course = dir.build_course(replies, k);
    assert(course == own.followed_by(children).followed_by(files));

    let run = RunModel::at_step(plan, at);
    let run_own = RunModel::at_step(plan, after_own);
    let run_children = RunModel::at_step(plan, after_children);
    let run_end = RunModel::at_step(plan, end);

    // The node's own two steps.
    let probe = Request::Exists { path: dir.path };
    let create = Request::CreateDir { path: dir.path, recursive: dir.recursive };
    assert(plan[at as int] == own_part[0]);
    assert(plan[at + 1int] == own_part[1]);
    assert(run.pending() == Some(own_part[0]));
    assert(run.course(replies, k) == own.followed_by(run_own.course(replies, k1))) by {
        let first = run.after(replies(k));
        assert(own_part[0].request() == probe);
        assert(run.course(replies, k) == Course::single(probe, true).followed_by(
            first.course(replies, k + 1),
        ));
        if replies(k) {
            assert(first == run_own);
            assert(own.requests =~= seq![probe]);
            let beyond = run_own.course(replies, k + 1);
            assert(own.followed_by(beyond).requests =~= seq![probe] + beyond.requests);
        } else {
            assert(first == RunModel::at_step(plan, at + 1));
            assert(first.pending() == Some(own_part[1]));
            assert(own_part[1].request() == create);
            assert(own.requests =~= seq![probe, create]);
            let second = first.after(replies(k + 1));
            assert(first.course(replies, k + 1) == Course::single(create, true).followed_by(
                second.course(replies, k + 2),
            ));
            if replies(k + 1) {
                assert(second == run_own);
                let beyond = run_own.course(replies, k + 2);
                assert(own.followed_by(beyond).requests =~= seq![probe] + (seq![create]
                    + beyond.requests));
            } else {
                assert(second.pending() is None);
                assert(second.course(replies, k + 2) == Course {
                    requests: Seq::empty(),
                    ok: false,
                });
                assert(seq![probe] + (seq![create] + Seq::<Request>::empty()) =~= seq![
                    probe,
                    create,
                ]);
            }
        }
    }

    // The children, then the files.
    lemma_run_children(plan, after_own, dir.dirs, replies, k1);
    lemma_run_files(plan, after_children, dir.files, replies, k2);
    let beyond = run_end.course(replies, k2 + files.len());
    assert(run_children.course(replies, k2) == files.followed_by(beyond));
    assert(run_own.course(replies, k1) == children.followed_by(files.followed_by(beyond)));
    lemma_followed_by_assoc(children, files, beyond);
    lemma_followed_by_assoc(own, children.followed_by(files), beyond);
    lemma_followed_by_assoc(own, children, files);
    assert(run.course(replies, k) == course.followed_by(beyond));
    if course.ok {
        assert(own.ok && children.ok && files.ok);
        assert(course.len() == own.len() + children.len() + files.len());
    }
}

/// Where the steps for the children `dirs` stand in a plan, the run takes the
/// course of building `dirs` and goes on behind them.
pub proof fn lemma_run_children(
    plan: Seq<StepModel>,
    at: nat,
    dirs: Seq<DirectoryModel>,
    replies: spec_fn(nat) -> bool,
    k: nat,
)
    requires
        holds_at(plan, at, child_steps(dirs)),
    ensures
        ({
            let course = children_course(dirs, replies, k);
            RunModel::at_step(plan, at).course(replies, k) == course.followed_by(
                RunModel::at_step(plan, at + child_steps(dirs).len()).course(
                    replies,
                    k + course.len(),
                ),
            )
        }),
    decreases dirs, 1nat,
{
    let run = RunModel::at_step(plan, at);
    if dirs.len() == 0 {
        assert(child_steps(dirs) =~= Seq::empty());
        lemma_followed_by_none(run.course(replies, k));
    } else {
        let child = dirs.first();
        let rest = dirs.drop_first();
        let inner = child.plan();
        let guard = seq![StepModel::Probe { path: child.path, span: inner.len() }];
        assert(child_steps(dirs) == (guard + inner) + child_steps(rest));
        lemma_holds_at_split(plan, at, guard + inner, child_steps(rest));
        lemma_holds_at_split(plan, at, guard, inner);
        let after_child = (at + 1 + inner.len()) as nat;
        let end = (at + child_steps(dirs).len()) as nat;
        assert(end == after_child + child_steps(rest).len());
        let run_next = RunModel::at_step(plan, after_child);

        let probe = Request::Exists { path: child.path };
        let turn = child.child_course(replies, k);
        assert(plan[at as int] == guard[0]);
        assert(run.pending() == Some(guard[0]));
        assert(run.course(replies, k) == turn.followed_by(
            run_next.course(replies, k + turn.len()),
        )) by {
            if replies(k) {
                assert(run.after(true) == run_next);
                assert(seq![probe] + Seq::<Request>::empty() =~= seq![probe]);
                assert(turn.requests =~= seq![probe]);
            } else {
                assert(run.after(false) == RunModel::at_step(plan, at + 1));
                lemma_run_node(plan, at + 1, child, replies, k + 1);
                let build = child.build_course(replies, k + 1);
                let beyond = run_next.course(replies, k + 1 + build.len());
                lemma_followed_by_assoc(Course::single(probe, true), build, beyond);
                assert(turn == Course::single(probe, true).followed_by(build));
                assert(turn.len() == 1 + build.len());
            }
        }

        let k1 = k + turn.len();
        lemma_run_children(plan, after_child, rest, replies, k1);
        let others = children_course(rest, replies, k1);
        let beyond = RunModel::at_step(plan, end).course(replies, k1 + others.len());
        assert(run_next.course(replies, k1) == others.followed_by(beyond));
        lemma_followed_by_assoc(turn, others, beyond);
        let course = children_course(dirs, replies, k);
        assert(course == turn.followed_by(others));
        if course.ok {
            assert(course.len() == turn.len() + others.len());
        }
    }
}

/// The run through the plan of a node takes the course of the build of that
/// node, however the filesystem answers.
pub proof fn theorem_run_takes_build_course(
    dir: DirectoryModel,
    replies: spec_fn(nat) -> bool,
    k: nat,
)
    ensures
        RunModel::start(dir.plan()).course(replies, k) == dir.build_course(replies, k),
{
    let plan = dir.plan();
    assert(holds_at(plan, 0, plan));
    lemma_run_node(plan, 0, dir, replies, k);
    let course = dir.build_course(replies, k);
    let end = RunModel::at_step(plan, plan.len());
    assert(end.pending() is None);
    assert(end.course(replies, k + course.len()) == Course::none());
    lemma_followed_by_none(course);
    assert(RunModel::start(plan) == RunModel::at_step(plan, 0));
}

} // verus!
