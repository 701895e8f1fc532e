//! What holds of every tree and of every way in which the filesystem may
//! answer, stated over the run through a tree's plan.

use vstd::prelude::*;
use crate::course::{
    children_course, files_course, theorem_run_takes_build_course, Course, Request,
};
use crate::directory::DirectoryModel;
use crate::file::FileModel;
use crate::path::joined;
use crate::plan::{child_steps, file_steps, holds_at, lemma_child_stands_in_plan, StepModel};
use crate::run::RunModel;

verus! {

/// A node whose path is missing gets its directory created: the run first
/// asks whether the node's path is there, and on the answer no its next
/// request is the creation of that path with the node's own flag. When the
/// creation is granted, the run goes on to the children and the files.
pub proof fn law_missing_path_is_created(
    dir: DirectoryModel,
    replies: spec_fn(nat) -> bool,
    k: nat,
)
    requires
        !replies(k),
    ensures
        ({
            let course = RunModel::start(dir.plan()).course(replies, k);
            let own = seq![
                Request::Exists { path: dir.path },
                Request::CreateDir { path: dir.path, recursive: dir.recursive },
            ];
            let children = children_course(dir.dirs, replies, k + 2);
            let files = files_course(dir.files, replies, k + 2 + children.len());
            &&& course.len() >= 2
            &&& course.requests.take(2) == own
            &&& replies(k + 1) ==> course == Course { requests: own, ok: true }.followed_by(
                children,
            ).followed_by(files)
        }),
{
    theorem_run_takes_build_course(dir, replies, k);
    let own = seq![
        Request::Exists { path: dir.path },
        Request::CreateDir { path: dir.path, recursive: dir.recursive },
    ];
    assert(dir.own_course(replies, k).requests =~= own);
    let course = dir.build_course(replies, k);
    assert(course.requests.take(2) =~= own);
}

/// A node whose path is there already is not created again, and the build
/// cannot fail on its directory: after the one question about the node's path
/// the run goes straight on to the children and the files.
pub proof fn law_present_path_is_not_created(
    dir: DirectoryModel,
    replies: spec_fn(nat) -> bool,
    k: nat,
)
    requires
        replies(k),
    ensures
        ({
            let children = children_course(dir.dirs, replies, k + 1);
            let files = files_course(dir.files, replies, k + 1 + children.len());
            RunModel::start(dir.plan()).course(replies, k) == Course::single(
                Request::Exists { path: dir.path },
                true,
            ).followed_by(children).followed_by(files)
        }),
{
    theorem_run_takes_build_course(dir, replies, k);
    let probe = Request::Exists { path: dir.path };
    assert(dir.own_course(replies, k).requests =~= seq![probe]);
}

/// The flag that `recursive` sets is the flag with which the node's own
/// directory is created, and it is no child's flag.
pub proof fn law_recursive_flag_is_the_nodes_own(
    dir: DirectoryModel,
    recursive: bool,
    replies: spec_fn(nat) -> bool,
    k: nat,
)
    requires
        !replies(k),
    ensures
        RunModel::start(dir.with_recursive(recursive).plan()).course(replies, k).requests[1]
            == (Request::CreateDir { path: dir.path, recursive }),
        dir.with_recursive(recursive).dirs == dir.dirs,
{
    law_missing_path_is_created(dir.with_recursive(recursive), replies, k);
}

/// A failed creation ends the build: nothing is asked after it.
pub proof fn law_failed_creation_ends_build(
    dir: DirectoryModel,
    replies: spec_fn(nat) -> bool,
    k: nat,
)
    requires
        !replies(k),
        !replies(k + 1),
    ensures
        RunModel::start(dir.plan()).course(replies, k) == (Course {
            requests: seq![
                Request::Exists { path: dir.path },
                Request::CreateDir { path: dir.path, recursive: dir.recursive },
            ],
            ok: false,
        }),
{
    theorem_run_takes_build_course(dir, replies, k);
    assert(dir.own_course(replies, k).requests =~= seq![
        Request::Exists { path: dir.path },
        Request::CreateDir { path: dir.path, recursive: dir.recursive },
    ]);
}

/// A child whose path is there already is left alone with all that is below
/// it. Its turn in the build is the one question about its path, and the run
/// that has come to the child's place in the node's plan asks that question
/// and goes on behind the last step of the child's subtree.
pub proof fn law_present_child_is_left_alone(
    dir: DirectoryModel,
    i: int,
    replies: spec_fn(nat) -> bool,
    k: nat,
)
    requires
        0 <= i < dir.dirs.len(),
        replies(k),
    ensures
        ({
            let child = dir.dirs[i];
            let asked = Course::single(Request::Exists { path: child.path }, true);
            &&& child.child_course(replies, k) == asked
            &&& RunModel::at_step(dir.plan(), dir.child_place(i)).course(replies, k)
                == asked.followed_by(
                RunModel::at_step(dir.plan(), dir.child_place(i + 1)).course(replies, k + 1),
            )
        }),
{
    let child = dir.dirs[i];
    let probe = Request::Exists { path: child.path };
    assert(seq![probe] + Seq::<Request>::empty() =~= seq![probe]);
    lemma_child_stands_in_plan(dir, i);
    let plan = dir.plan();
    let place = dir.child_place(i);
    let run = RunModel::at_step(plan, place);
    assert(plan[place as int] == child.guarded_plan()[0]);
    assert(run.pending() == Some(child.guarded_plan()[0]));
    assert(run.after(true) == RunModel::at_step(plan, dir.child_place(i + 1)));
}

/// A child that was resolved against `base` and then appended is the last
/// child, its path is its name joined onto `base`, and that is where the
/// build puts it: what stands in the node's plan at the child's place asks
/// about that path twice, once for the node and once for the child itself,
/// and then creates it with the child's own flag.
pub proof fn law_resolved_child_is_built_at_join(
    parent: DirectoryModel,
    child: DirectoryModel,
    base: Seq<char>,
)
    ensures
        ({
            let placed = child.placed_in(base);
            let node = parent.with_dir(placed);
            let last = parent.dirs.len() as int;
            let laid = placed.guarded_plan();
            let target = joined(base, child.name);
            &&& node.dirs.len() == last + 1
            &&& node.dirs[last] == placed
            &&& placed.path == target
            &&& holds_at(node.plan(), node.child_place(last), laid)
            &&& laid.len() >= 3
            &&& laid[0] == StepModel::Probe { path: target, span: placed.plan().len() }
            &&& laid[1] == StepModel::Probe { path: target, span: 1 }
            &&& laid[2] == StepModel::CreateDir { path: target, recursive: child.recursive }
        }),
{
    let placed = child.placed_in(base);
    let node = parent.with_dir(placed);
    lemma_child_stands_in_plan(node, parent.dirs.len() as int);
    let plan = placed.plan();
    assert(plan == (placed.own_steps() + child_steps(placed.dirs)) + file_steps(placed.files));
    assert(plan[0] == placed.own_steps()[0]);
    assert(plan[1] == placed.own_steps()[1]);
}

/// A file is resolved against the path that the node has when the file is
/// attached: setting the node's path afterwards, directly or by resolving the
/// node against a parent, leaves the file's path as it was.
pub proof fn law_attached_file_keeps_its_path(
    dir: DirectoryModel,
    file: FileModel,
    later: Seq<char>,
)
    ensures
        dir.with_file(file).files.last().path == joined(dir.path, file.name),
        dir.with_file(file).at(later).files.last().path == joined(dir.path, file.name),
        dir.with_file(file).placed_in(later).files.last().path == joined(dir.path, file.name),
{
}

} // verus!
