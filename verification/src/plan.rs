//! The steps that put a template's files on disk.
//!
//! The library writes nothing itself: it says what is to be created, in which
//! order, and the caller carries the steps out below the plan's root.

use vstd::prelude::*;
use vstd::string::*;
use crate::error::{ErrorView, ProconError};
use crate::file_map::{
    all_inside, distinct_paths, has_path, lemma_put, pairs_map, path_at, put,
};
use crate::paths::{is_inside, last_slash, parent_key};

verus! {

/// One step of a plan. Paths are relative to the plan's root, with `/` as
/// the separator; the empty path is the root itself.
#[derive(Debug, Clone, PartialEq, Eq)]
pub enum WriteStep {
    /// Create this directory and every missing directory above it.
    CreateDir(String),
    /// Write the content to the file at this path.
    WriteFile(String, String),
}

/// The mathematical value of a [`WriteStep`].
pub enum StepView {
    CreateDir(Seq<char>),
    WriteFile(Seq<char>, Seq<char>),
}

impl View for WriteStep {
    type V = StepView;

    open spec fn view(&self) -> StepView {
        match *self {
            WriteStep::CreateDir(path) => StepView::CreateDir(path@),
            WriteStep::WriteFile(path, content) => StepView::WriteFile(path@, content@),
        }
    }
}

/// The steps to carry out, in order, below `root`. The caller stops at the
/// first step that fails; nothing is undone.
#[derive(Debug, Clone, PartialEq, Eq)]
pub struct WritePlan {
    pub root: String,
    pub steps: Vec<WriteStep>,
}

/// The values of `steps`, in order.
pub open spec fn step_views(steps: Seq<WriteStep>) -> Seq<StepView> {
    Seq::new(steps.len(), |i: int| steps[i]@)
}

/// The steps that write `pairs`: the root is created first; then, file by
/// file in the order of `pairs`, the file's directory is created and the
/// file is written.
pub open spec fn steps_of(pairs: Seq<(Seq<char>, Seq<char>)>) -> Seq<StepView>
    decreases pairs.len(),
{
    if pairs.len() == 0 {
        seq![StepView::CreateDir(Seq::<char>::empty())]
    } else {
        steps_of(pairs.drop_last()).push(StepView::CreateDir(parent_key(pairs.last().0))).push(
            StepView::WriteFile(pairs.last().0, pairs.last().1),
        )
    }
}

/// What the files below the root hold once `steps` have been carried out on
/// an empty root: each written path with the content written to it last.
pub open spec fn written(steps: Seq<StepView>) -> Map<Seq<char>, Seq<char>>
    decreases steps.len(),
{
    if steps.len() == 0 {
        Map::empty()
    } else {
        match steps.last() {
            StepView::WriteFile(path, content) => written(steps.drop_last()).insert(path, content),
            StepView::CreateDir(_) => written(steps.drop_last()),
        }
    }
}

/// The plan for `pairs` has one step for the root and two for each file.
pub proof fn lemma_steps_len(pairs: Seq<(Seq<char>, Seq<char>)>)
    ensures
        steps_of(pairs).len() == 1 + 2 * pairs.len(),
    decreases pairs.len(),
{
    if pairs.len() > 0 {
        lemma_steps_len(pairs.drop_last());
    }
}

/// Carrying out the plan for a set of files with distinct paths leaves
/// exactly those files: reading back every written path gives the mapping
/// the plan was made from.
pub proof fn lemma_written_is_mapping(pairs: Seq<(Seq<char>, Seq<char>)>)
    requires
        distinct_paths(pairs),
    ensures
        written(steps_of(pairs)) == pairs_map(pairs),
    decreases pairs.len(),
{
    if pairs.len() == 0 {
        let steps = steps_of(pairs);
        assert(steps.drop_last() =~= Seq::<StepView>::empty());
        assert(written(Seq::<StepView>::empty()) == Map::<Seq<char>, Seq<char>>::empty());
        assert(written(steps) == written(steps.drop_last()));
        assert forall|path: Seq<char>| !has_path(pairs, path) by {
            assert forall|at: int| !path_at(pairs, path, at) by {}
        }
        assert(pairs_map(pairs) =~= Map::<Seq<char>, Seq<char>>::empty());
    } else {
        let init = pairs.drop_last();
        let last = pairs.last();
        assert forall|i: int, j: int| 0 <= i < j < init.len() implies (#[trigger] init[i]).0 != (
        #[trigger] init[j]).0 by {
            assert(pairs[i].0 != pairs[j].0);
        }
        lemma_written_is_mapping(init);
        assert forall|at: int| !path_at(init, last.0, at) by {
            if path_at(init, last.0, at) {
                assert(pairs[at].0 != pairs[pairs.len() - 1].0);
            }
        }
        assert(!has_path(init, last.0));
        assert(put(init, last.0, last.1) =~= pairs);
        lemma_put(init, last.0, last.1);
        let steps = steps_of(pairs);
        let before = steps_of(init).push(StepView::CreateDir(parent_key(last.0)));
        assert(steps.drop_last() =~= before);
        assert(before.drop_last() =~= steps_of(init));
        assert(written(before) == written(steps_of(init)));
        assert(written(steps) == written(before).insert(last.0, last.1));
    }
}

/// In the plan for `pairs`, the file at position `at` is written by step
/// `2 * at + 2`, right after the step that creates its directory.
pub proof fn lemma_step_at(pairs: Seq<(Seq<char>, Seq<char>)>, at: int)
    requires
        0 <= at < pairs.len(),
    ensures
        steps_of(pairs).len() == 1 + 2 * pairs.len(),
        steps_of(pairs)[0] == StepView::CreateDir(Seq::<char>::empty()),
        steps_of(pairs)[2 * at + 1] == StepView::CreateDir(parent_key(pairs[at].0)),
        steps_of(pairs)[2 * at + 2] == StepView::WriteFile(pairs[at].0, pairs[at].1),
    decreases pairs.len(),
{
    lemma_steps_len(pairs);
    lemma_steps_len(pairs.drop_last());
    if at < pairs.len() - 1 {
        lemma_step_at(pairs.drop_last(), at);
    } else if pairs.len() > 1 {
        lemma_step_at(pairs.drop_last(), 0);
    }
}

/// The path that `step` creates or writes.
pub open spec fn step_path(step: StepView) -> Seq<char> {
    match step {
        StepView::CreateDir(path) => path,
        StepView::WriteFile(path, _) => path,
    }
}

/// The plan for files whose paths lie inside the root touches nothing
/// outside it: every step is about the root itself or a path strictly
/// inside it.
pub proof fn lemma_steps_inside(pairs: Seq<(Seq<char>, Seq<char>)>)
    requires
        all_inside(pairs),
    ensures
        forall|at: int|
            0 <= at < steps_of(pairs).len() ==> step_path(#[trigger] steps_of(pairs)[at]).len() == 0
                || is_inside(step_path(steps_of(pairs)[at])),
    decreases pairs.len(),
{
    if pairs.len() > 0 {
        let init = pairs.drop_last();
        let key = pairs.last().0;
        assert forall|i: int| 0 <= i < init.len() implies is_inside(#[trigger] init[i].0) by {
            assert(init[i] == pairs[i]);
        }
        lemma_steps_inside(init);
        lemma_steps_len(init);
        assert(is_inside(pairs[pairs.len() - 1].0));
        assert(parent_key(key).len() == 0 || is_inside(parent_key(key))) by {
            if last_slash(key) >= 0 {
                assert(parent_key(key) == key.take(last_slash(key)));
            }
        }
        assert forall|at: int| 0 <= at < steps_of(pairs).len() implies step_path(
            #[trigger] steps_of(pairs)[at],
        ).len() == 0 || is_inside(step_path(steps_of(pairs)[at])) by {
            if at < steps_of(init).len() {
                assert(steps_of(pairs)[at] == steps_of(init)[at]);
            }
        }
    }
}

/// Where carrying out a plan stands.
#[derive(Debug, Clone, Copy, PartialEq, Eq)]
pub enum Phase {
    /// The destination was found free and nothing has been created yet.
    DestinationChecked,
    /// The step carried out last created a directory, and steps remain.
    DirectoryCreated,
    /// The step carried out last wrote a file, and steps remain.
    FileWritten,
    /// Every step has been carried out.
    Done,
    /// A step failed; no further step is handed out.
    Failed,
}

/// The phase after `completed` of `steps` have been carried out, with the
/// reason of a failed step in `failed`.
pub open spec fn phase_of(steps: Seq<StepView>, completed: int, failed: Option<Seq<char>>) -> Phase {
    if failed is Some {
        Phase::Failed
    } else if completed >= steps.len() {
        Phase::Done
    } else if completed <= 0 {
        Phase::DestinationChecked
    } else {
        match steps[completed - 1] {
            StepView::CreateDir(_) => Phase::DirectoryCreated,
            StepView::WriteFile(_, _) => Phase::FileWritten,
        }
    }
}

/// Keeps track of a plan while the caller carries it out: hands out the
/// steps one by one and stops for good at the first failure.
#[derive(Debug)]
pub struct Materializer {
    plan: WritePlan,
    done: usize,
    failure: Option<String>,
}

impl Materializer {
    /// The root below which the steps are carried out.
    pub closed spec fn root(&self) -> Seq<char> {
        self.plan.root@
    }

    /// The steps of the plan.
    pub closed spec fn steps(&self) -> Seq<StepView> {
        step_views(self.plan.steps@)
    }

    /// How many steps have been carried out.
    pub closed spec fn completed(&self) -> int {
        self.done as int
    }

    /// The reason of the step that failed, if one did.
    pub closed spec fn failed(&self) -> Option<Seq<char>> {
        match self.failure {
            Some(reason) => Some(reason@),
            None => None,
        }
    }

    /// What the files below the root hold by now.
    pub open spec fn written_so_far(&self) -> Map<Seq<char>, Seq<char>> {
        written(self.steps().take(self.completed()))
    }

    #[verifier::type_invariant]
    spec fn within_plan(&self) -> bool {
        self.done <= self.plan.steps@.len()
    }

    /// Starts on `plan` with nothing carried out.
    pub fn new(plan: WritePlan) -> (cursor: Materializer)
        ensures
            cursor.root() == plan.root@,
            cursor.steps() == step_views(plan.steps@),
            cursor.completed() == 0,
            cursor.failed() is None,
    {
        Materializer { plan, done: 0, failure: None }
    }

    /// The root below which the steps are carried out.
    pub fn root_dir(&self) -> (root: &String)
        ensures
            root@ == self.root(),
    {
        &self.plan.root
    }

    /// The step to carry out next: the first one not carried out yet, or
    /// none where a step has failed or all are done.
    pub fn next_step(&self) -> (next: Option<&WriteStep>)
        ensures
            0 <= self.completed() <= self.steps().len(),
            match next {
                Some(step) => self.failed() is None && self.completed() < self.steps().len()
                    && step@ == self.steps()[self.completed()],
                None => self.failed() is Some || self.completed() == self.steps().len(),
            },
    {
        proof {
            use_type_invariant(self);
        }
        if self.failure.is_some() || self.done >= self.plan.steps.len() {
            None
        } else {
            Some(&self.plan.steps[self.done])
        }
    }

    /// Notes how the step handed out last went. A success moves on to the
    /// next step; a failure is kept with its reason and ends the run. Where
    /// no step was pending, nothing changes.
    pub fn record(&mut self, outcome: Result<(), String>)
        ensures
            final(self).root() == old(self).root(),
            final(self).steps() == old(self).steps(),
            0 <= final(self).completed() <= final(self).steps().len(),
            if old(self).failed() is Some || old(self).completed() >= old(self).steps().len() {
                final(self).completed() == old(self).completed()
                    && final(self).failed() == old(self).failed()
            } else {
                match outcome {
                    Ok(_) => final(self).completed() == old(self).completed() + 1
                        && final(self).failed() is None,
                    Err(reason) => final(self).completed() == old(self).completed()
                        && final(self).failed() == Some(reason@),
                }
            },
    {
        proof {
            use_type_invariant(&*self);
        }
        if self.failure.is_none() && self.done < self.plan.steps.len() {
            match outcome {
                Ok(_) => {
                    self.done = self.done + 1;
                },
                Err(reason) => {
                    self.failure = Some(reason);
                },
            }
        }
    }

    /// Where the run stands.
    pub fn phase(&self) -> (phase: Phase)
        ensures
            phase == phase_of(self.steps(), self.completed(), self.failed()),
    {
        proof {
            use_type_invariant(self);
        }
        if self.failure.is_some() {
            Phase::Failed
        } else if self.done >= self.plan.steps.len() {
            Phase::Done
        } else if self.done == 0 {
            Phase::DestinationChecked
        } else {
            match &self.plan.steps[self.done - 1] {
                WriteStep::CreateDir(_) => Phase::DirectoryCreated,
                WriteStep::WriteFile(_, _) => Phase::FileWritten,
            }
        }
    }

    /// How the run ended: `None` while steps remain, success once all are
    /// carried out, the I/O error of the failed step otherwise.
    pub fn outcome(&self) -> (result: Option<Result<(), ProconError>>)
        ensures
            match result {
                None => self.failed() is None && self.completed() < self.steps().len(),
                Some(Ok(_)) => self.failed() is None && self.completed() == self.steps().len(),
                Some(Err(error)) => self.failed() matches Some(reason) && error@ == ErrorView::Io(
                    reason,
                ),
            },
    {
        proof {
            use_type_invariant(self);
        }
        match &self.failure {
            Some(reason) => Some(Err(ProconError::Io(reason.clone()))),
            None => {
                if self.done >= self.plan.steps.len() {
                    Some(Ok(()))
                } else {
                    None
                }
            },
        }
    }
}

/// Once every step of the plan for a set of files with distinct paths has
/// been carried out, the files written are exactly that set.
pub proof fn lemma_done_is_materialized(cursor: Materializer, pairs: Seq<(Seq<char>, Seq<char>)>)
    requires
        distinct_paths(pairs),
        cursor.steps() == steps_of(pairs),
        cursor.completed() == cursor.steps().len(),
    ensures
        cursor.written_so_far() == pairs_map(pairs),
{
    lemma_written_is_mapping(pairs);
    assert(cursor.steps().take(cursor.completed()) =~= cursor.steps());
}

} // verus!
