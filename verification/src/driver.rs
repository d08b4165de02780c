//! The stream driver's decision logic.
//!
//! The driver is a two-state machine: it keeps reading lines until the end
//! of input, then it is done. Each step takes the current state and one
//! input event and decides the next state and the action to perform. The
//! surrounding loop owns the blocking reads and writes: it hands each read
//! outcome in as an event and performs the returned action, writing the
//! emitted segments followed by a line terminator.
//!
//! A line that fails to read is skipped silently and the stream continues;
//! end of input stops the driver with nothing further emitted.

use vstd::prelude::*;

use crate::render::Segment;
use crate::render::render_line;
use crate::render::render_spec;
use crate::scan::scan_spec;
use crate::table::Table;

verus! {

/// The driver's state: still consuming input, or past the end of it.
#[derive(Clone, Copy, PartialEq, Eq, Structural, Debug)]
pub enum DriverState {
    Reading,
    Done,
}

/// One read outcome, handed to the driver as an event.
pub enum StreamEvent {
    /// A line was read, its terminator already stripped.
    Line(String),
    /// Reading one line failed; the stream itself continues.
    ReadFailure,
    /// The input is exhausted.
    EndOfInput,
}

/// What the surrounding loop must do after a step.
#[derive(PartialEq, Eq, Debug)]
pub enum DriverAction {
    /// Write these segments, then a line terminator.
    Emit(Vec<Segment>),
    /// Write nothing and go on with the next line.
    Skip,
    /// Stop: no further lines are read or written.
    Stop,
}

/// One step of the stream driver.
pub fn drive(state: DriverState, event: StreamEvent, table: &Table) -> (r: (
    DriverState,
    DriverAction,
))
    ensures
        match (state, event) {
            (DriverState::Reading, StreamEvent::Line(s)) => r.0 is Reading && (r.1 matches
                DriverAction::Emit(segs) && segs.deep_view() == render_spec(
                s@,
                table.deep_view(),
                scan_spec(s@, 0),
                0,
            )),
            (DriverState::Reading, StreamEvent::ReadFailure) => r.0 is Reading && r.1 is Skip,
            (DriverState::Reading, StreamEvent::EndOfInput) => r.0 is Done && r.1 is Stop,
            (DriverState::Done, _) => r.0 is Done && r.1 is Stop,
        },
{
    match (state, event) {
        (DriverState::Reading, StreamEvent::Line(s)) => (
            DriverState::Reading,
            DriverAction::Emit(render_line(s.as_str(), table)),
        ),
        (DriverState::Reading, StreamEvent::ReadFailure) => (
            DriverState::Reading,
            DriverAction::Skip,
        ),
        (DriverState::Reading, StreamEvent::EndOfInput) => (DriverState::Done, DriverAction::Stop),
        (DriverState::Done, _) => (DriverState::Done, DriverAction::Stop),
    }
}

} // verus!
