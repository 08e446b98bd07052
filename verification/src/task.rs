//! The work done on one file that the filter has let through: wait until it
//! has stopped growing, then upload it.
//!
//! A task only moves forward.  It goes from stabilizing to uploading however
//! the probe ends, and from uploading to done however the upload ends:
//! nothing is tried twice and no failure is passed on.

use crate::path::{PathView, WatchPath};
use crate::probe::{
    awaited, events_left, probe_next, probe_start, within_budget, ProbeAction, ProbeEvent,
    ProbePhase, ProbeView, StabilityProbe, MAX_POLLS,
};
use crate::upload::{override_view, server_url, upload_file, upload_of, UploadRequest};
use vstd::prelude::*;

verus! {

/// How far the work on a file has come.
#[derive(Clone, Copy, Debug, PartialEq, Eq, Structural)]
pub enum TaskStage {
    /// The file's size is being polled.
    Stabilizing,
    /// The file is being sent.
    Uploading,
    /// Nothing is left to do.
    Done,
}

/// What the caller has done for the task.
#[derive(Clone, Copy, Debug, PartialEq, Eq, Structural)]
pub enum TaskEvent {
    /// Something that the probe asked for was done.
    Probe(ProbeEvent),
    /// The upload is over, well or badly.
    UploadEnded,
}

/// What the task asks of the caller next.
#[derive(Clone, Copy, Debug, PartialEq, Eq, Structural)]
pub enum TaskAction {
    /// Read the file's size and report it.
    Measure,
    /// Pause for so many milliseconds and report back.
    Sleep(u64),
    /// Send the file and report when that is over.
    Upload,
    /// Nothing more.
    Finished,
}

/// The mathematical value of a [`FileTask`].
pub struct TaskView {
    pub path: PathView,
    pub stage: TaskStage,
    pub probe: ProbeView,
}

/// The task for a file that has just passed the filter.
pub open spec fn task_start(path: PathView) -> TaskView {
    TaskView { path, stage: TaskStage::Stabilizing, probe: probe_start() }
}

/// What a task in `state` is waiting for.
pub open spec fn task_awaited(state: TaskView) -> TaskAction {
    match state.stage {
        TaskStage::Stabilizing => match awaited(state.probe) {
            ProbeAction::Measure => TaskAction::Measure,
            ProbeAction::Sleep(pause) => TaskAction::Sleep(pause),
            ProbeAction::Finish(_) => TaskAction::Upload,
        },
        TaskStage::Uploading => TaskAction::Upload,
        TaskStage::Done => TaskAction::Finished,
    }
}

/// The state that follows `state` on `event`.  While the file is
/// stabilizing the probe takes the event, and the task goes on to uploading
/// as soon as the probe has ended, whatever its outcome.  The end of the
/// upload ends the task.  An event that the task is not waiting for changes
/// nothing.
pub open spec fn task_next(state: TaskView, event: TaskEvent) -> TaskView {
    match (state.stage, event) {
        (TaskStage::Stabilizing, TaskEvent::Probe(e)) => {
            let probe = probe_next(state.probe, e);
            TaskView {
                stage: if probe.phase is Finished {
                    TaskStage::Uploading
                } else {
                    TaskStage::Stabilizing
                },
                probe,
                ..state
            }
        },
        (TaskStage::Uploading, TaskEvent::UploadEnded) => TaskView {
            stage: TaskStage::Done,
            ..state
        },
        _ => state,
    }
}

/// What holds of every state that a task can be in: its probe is within its
/// budget, and has not ended while the file is still stabilizing.
pub open spec fn task_in_order(state: TaskView) -> bool {
    &&& within_budget(state.probe)
    &&& state.stage == TaskStage::Stabilizing ==> !(state.probe.phase is Finished)
}

/// The place of a stage in the order of the work.
pub open spec fn stage_rank(stage: TaskStage) -> nat {
    match stage {
        TaskStage::Stabilizing => 0,
        TaskStage::Uploading => 1,
        TaskStage::Done => 2,
    }
}

/// Whether `event` is what a task in `state` is waiting for.
pub open spec fn is_awaited(state: TaskView, event: TaskEvent) -> bool {
    match state.stage {
        TaskStage::Stabilizing => match state.probe.phase {
            ProbePhase::Measuring => event matches TaskEvent::Probe(e) && (e is Measured
                || e is Unreadable),
            ProbePhase::Sleeping => event == TaskEvent::Probe(ProbeEvent::Slept),
            ProbePhase::Finished(_) => false,
        },
        TaskStage::Uploading => event == TaskEvent::UploadEnded,
        TaskStage::Done => false,
    }
}

/// The events that a task can still take before it must be done, counted
/// from `state`.
pub open spec fn task_events_left(state: TaskView) -> nat {
    match state.stage {
        TaskStage::Stabilizing => events_left(state.probe) + 1,
        TaskStage::Uploading => 1,
        TaskStage::Done => 0,
    }
}

/// A task never goes back: no event takes it to an earlier stage, the file
/// it works on stays the same, and a task that is done stays done.
pub proof fn lemma_task_only_moves_forward(state: TaskView, event: TaskEvent)
    requires
        task_in_order(state),
    ensures
        task_in_order(task_next(state, event)),
        stage_rank(task_next(state, event).stage) >= stage_rank(state.stage),
        task_next(state, event).path == state.path,
        state.stage == TaskStage::Done ==> task_next(state, event) == state,
{
}

/// A task cannot be held up.  Each event that it is waiting for brings it
/// nearer its end, and a new task is at most twenty-one such events away
/// from it: a file that never stops growing is uploaded all the same, once
/// the probe has used up its polls.
pub proof fn lemma_task_reaches_upload(state: TaskView, event: TaskEvent)
    requires
        task_in_order(state),
        is_awaited(state, event),
    ensures
        task_events_left(task_next(state, event)) < task_events_left(state),
        task_events_left(state) <= 2 * MAX_POLLS + 2,
        forall|path: PathView| task_events_left(#[trigger] task_start(path)) == 2 * MAX_POLLS + 1,
        state.stage == TaskStage::Stabilizing && task_next(state, event).stage
            != TaskStage::Stabilizing ==> task_next(state, event).stage == TaskStage::Uploading,
{
}

/// The work on one file.
#[derive(Debug)]
pub struct FileTask {
    path: WatchPath,
    stage: TaskStage,
    probe: StabilityProbe,
}

impl View for FileTask {
    type V = TaskView;

    closed spec fn view(&self) -> TaskView {
        TaskView { path: self.path@, stage: self.stage, probe: self.probe@ }
    }
}

impl FileTask {
    #[verifier::type_invariant]
    closed spec fn in_order(&self) -> bool {
        self.stage == TaskStage::Stabilizing ==> !(self.probe@.phase is Finished)
    }

    /// The task for a file that has just passed the filter.
    pub fn new(path: WatchPath) -> (task: FileTask)
        ensures
            task@ == task_start(path@),
    {
        FileTask { path, stage: TaskStage::Stabilizing, probe: StabilityProbe::new() }
    }

    /// The file that the task works on.
    pub fn path(&self) -> (path: &WatchPath)
        ensures
            path@ == self@.path,
    {
        &self.path
    }

    /// How far the work has come.
    pub fn stage(&self) -> (stage: TaskStage)
        ensures
            stage == self@.stage,
    {
        self.stage
    }

    /// What the task is waiting for.
    pub fn pending(&self) -> (action: TaskAction)
        ensures
            action == task_awaited(self@),
            task_in_order(self@),
    {
        proof {
            use_type_invariant(self);
        }
        let probing = self.probe.pending();
        match self.stage {
            TaskStage::Stabilizing => match probing {
                ProbeAction::Measure => TaskAction::Measure,
                ProbeAction::Sleep(pause) => TaskAction::Sleep(pause),
                ProbeAction::Finish(_) => TaskAction::Upload,
            },
            TaskStage::Uploading => TaskAction::Upload,
            TaskStage::Done => TaskAction::Finished,
        }
    }

    /// Takes in what the caller did and says what to do next.
    pub fn advance(&mut self, event: TaskEvent) -> (action: TaskAction)
        ensures
            final(self)@ == task_next(old(self)@, event),
            action == task_awaited(final(self)@),
            task_in_order(final(self)@),
    {
        proof {
            use_type_invariant(&*self);
        }
        match (self.stage, event) {
            (TaskStage::Stabilizing, TaskEvent::Probe(e)) => {
                // The probe leaves the task while it takes the event, so
                // that stage and probe change together.
                let mut probe = StabilityProbe::new();
                core::mem::swap(&mut probe, &mut self.probe);
                let next = probe.advance(e);
                let ended = match next {
                    ProbeAction::Finish(_) => true,
                    _ => false,
                };
                if ended {
                    self.stage = TaskStage::Uploading;
                }
                core::mem::swap(&mut probe, &mut self.probe);
            },
            (TaskStage::Uploading, TaskEvent::UploadEnded) => {
                self.stage = TaskStage::Done;
            },
            _ => {},
        }
        self.pending()
    }

    /// The request that uploads the task's file.  `override_url` is the
    /// value of the override variable where it is set; `development` says
    /// whether this is a development build.
    pub fn upload_request(&self, override_url: Option<String>, development: bool) -> (request:
        UploadRequest)
        ensures
            request@ == upload_of(
                self@.path,
                server_url(override_view(override_url), development),
            ),
    {
        upload_file(self.path.clone(), override_url, development)
    }
}

} // verus!
