//! The decisions of the canvas task.
//!
//! The task owns the canvas and a snapshot of what subscribers last saw.
//! It is driven from outside by two inputs, canvas events and a periodic
//! tick; each input is one call of `step`, whose result says what to send.

use crate::canvas::diff::{
    changed_cells, lemma_changed_cells_apply, lemma_changed_cells_of_equal, CanvasDiff,
};
use crate::canvas::{apply_writes, lemma_cell_index, write_cell, Canvas, Pixel, PixelColor};
use crate::events::Event;
use vstd::prelude::*;

verus! {

/// What drives the canvas task.
#[derive(Clone, Copy, Debug, PartialEq, Eq)]
pub enum TaskInput {
    /// An event arrived on the event stream.
    Event(Event),
    /// The periodic tick fired.
    Tick,
    /// The event stream was closed: the task is to end.
    Closed,
}

/// What the caller is to do after a step.
#[derive(Debug)]
pub enum TaskOutput {
    /// Nothing.
    Idle,
    /// A pixel event was applied to the canvas.
    Applied,
    /// A pixel event named a cell outside the canvas and changed nothing.
    OutOfBounds,
    /// The event is of a kind that the task does not handle; it was skipped.
    Unsupported,
    /// Publish this diff to the subscribers and go on.
    Publish(CanvasDiff),
    /// Publish this last diff and end the task.
    Finish(CanvasDiff),
}

/// `TaskOutput` with each diff as the sequence of its entries.
pub enum TaskSignal {
    Idle,
    Applied,
    OutOfBounds,
    Unsupported,
    Publish(Seq<Pixel>),
    Finish(Seq<Pixel>),
}

impl View for TaskOutput {
    type V = TaskSignal;

    open spec fn view(&self) -> TaskSignal {
        match self {
            TaskOutput::Idle => TaskSignal::Idle,
            TaskOutput::Applied => TaskSignal::Applied,
            TaskOutput::OutOfBounds => TaskSignal::OutOfBounds,
            TaskOutput::Unsupported => TaskSignal::Unsupported,
            TaskOutput::Publish(diff) => TaskSignal::Publish(diff@),
            TaskOutput::Finish(diff) => TaskSignal::Finish(diff@),
        }
    }
}

/// What the canvas task holds.
pub struct TaskState {
    /// Number of columns of the canvas.
    pub width: int,
    /// Number of rows of the canvas.
    pub height: int,
    /// The colors of the canvas, row by row.
    pub canvas: Seq<PixelColor>,
    /// The colors that subscribers know: the canvas as of the last diff
    /// that was published.
    pub published: Seq<PixelColor>,
    /// Whether an event arrived since the last tick that looked for
    /// changes.
    pub dirty: bool,
}

impl TaskState {
    /// Canvas and snapshot are grids of the same size, and a task that is
    /// not dirty has nothing unpublished.
    pub open spec fn wf(self) -> bool {
        &&& 0 <= self.width <= u16::MAX
        &&& 0 <= self.height <= u16::MAX
        &&& self.canvas.len() == self.width * self.height
        &&& self.published.len() == self.canvas.len()
        &&& !self.dirty ==> self.published == self.canvas
    }

    /// The changes that subscribers have not seen yet.
    pub open spec fn pending(self) -> Seq<Pixel> {
        changed_cells(self.published, self.canvas, self.width)
    }

    /// The state after `input`.
    pub open spec fn after(self, input: TaskInput) -> TaskState {
        match input {
            TaskInput::Event(Event::PlacePixel { x, y, color }) => TaskState {
                canvas: write_cell(self.canvas, self.width, self.height, Pixel { x, y, color }),
                dirty: true,
                ..self
            },
            TaskInput::Event(_) => self,
            TaskInput::Tick => if self.dirty {
                TaskState { published: self.canvas, dirty: false, ..self }
            } else {
                self
            },
            TaskInput::Closed => self,
        }
    }

    /// What `input` makes the task tell its caller.
    pub open spec fn signal(self, input: TaskInput) -> TaskSignal {
        match input {
            TaskInput::Event(Event::PlacePixel { x, y, color }) => if x < self.width && y
                < self.height {
                TaskSignal::Applied
            } else {
                TaskSignal::OutOfBounds
            },
            TaskInput::Event(_) => TaskSignal::Unsupported,
            TaskInput::Tick => if self.dirty && self.pending().len() > 0 {
                TaskSignal::Publish(self.pending())
            } else {
                TaskSignal::Idle
            },
            TaskInput::Closed => TaskSignal::Finish(self.pending()),
        }
    }
}

/// Every step keeps the state well formed.
pub proof fn lemma_step_keeps_wf(state: TaskState, input: TaskInput)
    requires
        state.wf(),
    ensures
        state.after(input).wf(),
{
    if let TaskInput::Event(Event::PlacePixel { x, y, color }) = input {
        if x < state.width && y < state.height {
            lemma_cell_index(x as int, y as int, state.width, state.height);
        }
    }
}

/// Only a tick publishes, and what it publishes is never empty: it is the
/// whole of the pending changes, after which none are pending.
pub proof fn lemma_published_diff_is_not_empty(
    state: TaskState,
    input: TaskInput,
    diff: Seq<Pixel>,
)
    requires
        state.wf(),
        state.signal(input) == TaskSignal::Publish(diff),
    ensures
        input == TaskInput::Tick,
        diff.len() > 0,
        diff == state.pending(),
        state.after(input).pending().len() == 0,
{
    lemma_changed_cells_of_equal(state.canvas, state.width, state.height);
}

/// At most one diff per burst of events: a tick that follows a tick with
/// no event in between publishes nothing and changes nothing.
pub proof fn lemma_tick_after_tick_is_idle(state: TaskState)
    requires
        state.wf(),
    ensures
        state.after(TaskInput::Tick).signal(TaskInput::Tick) == TaskSignal::Idle,
        state.after(TaskInput::Tick).after(TaskInput::Tick) == state.after(TaskInput::Tick),
{
}

/// Subscribers keep up: writing a published or final diff, entry by
/// entry, onto the colors they knew gives the colors of the canvas.
pub proof fn lemma_diff_brings_subscribers_up_to_date(
    state: TaskState,
    input: TaskInput,
    diff: Seq<Pixel>,
)
    requires
        state.wf(),
        state.signal(input) == TaskSignal::Publish(diff) || state.signal(input)
            == TaskSignal::Finish(diff),
    ensures
        apply_writes(state.published, state.width, state.height, diff) == state.canvas,
{
    lemma_changed_cells_apply(state.published, state.canvas, state.width, state.height);
}

/// The canvas task: the canvas, the snapshot of what was last published,
/// and the flag that says whether anything happened since.
pub struct CanvasTask {
    canvas: Canvas,
    prev: Canvas,
    dirty: bool,
}

impl View for CanvasTask {
    type V = TaskState;

    closed spec fn view(&self) -> TaskState {
        TaskState {
            width: self.canvas.spec_width(),
            height: self.canvas.spec_height(),
            canvas: self.canvas.cells(),
            published: self.prev.cells(),
            dirty: self.dirty,
        }
    }
}

impl CanvasTask {
    /// Canvas and snapshot are well formed and of one size, and the state
    /// they make up is well formed.
    pub closed spec fn wf(&self) -> bool {
        &&& self.canvas.wf()
        &&& self.prev.wf()
        &&& self.prev.spec_width() == self.canvas.spec_width()
        &&& self.prev.spec_height() == self.canvas.spec_height()
        &&& self@.wf()
    }

    /// A well-formed task has a well-formed state.
    pub proof fn lemma_wf_state(&self)
        requires
            self.wf(),
        ensures
            self@.wf(),
    {
    }

    /// Starts the task on `canvas`; what subscribers know is taken to be
    /// the canvas as it is now.
    pub fn new(canvas: Canvas) -> (task: Self)
        requires
            canvas.wf(),
        ensures
            task.wf(),
            task@ == (TaskState {
                width: canvas.spec_width(),
                height: canvas.spec_height(),
                canvas: canvas.cells(),
                published: canvas.cells(),
                dirty: false,
            }),
    {
        let prev = canvas.clone();
        CanvasTask { canvas, prev, dirty: false }
    }

    /// The canvas as it is now.
    pub fn canvas(&self) -> (canvas: &Canvas)
        requires
            self.wf(),
        ensures
            canvas.wf(),
            canvas.spec_width() == self@.width,
            canvas.spec_height() == self@.height,
            canvas.cells() == self@.canvas,
    {
        &self.canvas
    }

    /// Whether an event arrived since the last tick that looked for
    /// changes.
    pub fn is_dirty(&self) -> (dirty: bool)
        ensures
            dirty == self@.dirty,
    {
        self.dirty
    }

    /// Takes one input and says what is to be sent.
    ///
    /// A pixel event is written to the canvas and marks the task dirty,
    /// also when it names a cell outside the canvas. Any other event is
    /// skipped. A tick on a dirty task compares the canvas with the
    /// snapshot: if they differ the diff is to be published and the
    /// snapshot becomes the canvas; either way the task is clean again.
    /// A tick on a clean task does nothing. When the stream is closed, the
    /// changes still pending make the last diff.
    pub fn step(&mut self, input: TaskInput) -> (output: TaskOutput)
        requires
            old(self).wf(),
        ensures
            final(self).wf(),
            final(self)@ == old(self)@.after(input),
            output@ == old(self)@.signal(input),
    {
        match input {
            TaskInput::Event(Event::PlacePixel { x, y, color }) => {
                let outcome = self.canvas.set_pixel(x, y, color);
                self.dirty = true;
                match outcome {
                    Ok(()) => TaskOutput::Applied,
                    Err(()) => TaskOutput::OutOfBounds,
                }
            },
            TaskInput::Event(Event::PlaceLabel { .. }) => TaskOutput::Unsupported,
            TaskInput::Tick => {
                if !self.dirty {
                    return TaskOutput::Idle;
                }
                let diff = self.prev.diff(&self.canvas);
                self.dirty = false;
                if diff.is_empty() {
                    proof {
                        self.prev.lemma_empty_diff_means_equal(&self.canvas);
                    }
                    return TaskOutput::Idle;
                }
                self.prev = self.canvas.clone();
                TaskOutput::Publish(diff)
            },
            TaskInput::Closed => {
                let diff = self.prev.diff(&self.canvas);
                TaskOutput::Finish(diff)
            },
        }
    }
}

} // verus!
