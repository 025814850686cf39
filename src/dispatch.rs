//! The streaming dispatcher: one pass over a dataset, in file order.
use vstd::prelude::*;
use crate::sample::{Triple, RawSample, Update, update_of, update_for};

verus! {

/// Where a run stands.
#[derive(Clone, Copy, Debug, PartialEq, Eq, Structural)]
pub enum Phase {
    /// The dataset has not been opened yet.
    NotStarted,
    /// Records are being handed to the estimator.
    Streaming,
    /// The whole dataset was read; the estimator may be queried.
    Finished,
    /// A record could not be decoded; nothing more is delivered.
    Aborted,
}

/// What the caller observed.
#[derive(Clone, Copy, Debug, PartialEq)]
pub enum Event<T> {
    /// The dataset was opened.
    Open,
    /// The next record was decoded.
    Record(RawSample<T>),
    /// The next record could not be decoded.
    Malformed,
    /// The dataset has no more records.
    EndOfData,
    /// The final orientation is asked for.
    Query,
}

/// What the caller is to do next.
#[derive(Clone, Copy, Debug, PartialEq)]
pub enum Action<T> {
    /// Nothing.
    Nothing,
    /// Hand this update to the estimator.
    Deliver(Update<T>),
    /// Stop the run: the record at `position` (counted from zero) is malformed.
    Abort { position: u64 },
    /// Read the estimator's orientation and report it.
    Report,
}

/// The abstract state of a dispatcher: the gyroscope scale it applies, its
/// phase, and how many records it has consumed.
pub struct Model<T> {
    pub scale: Triple<T>,
    pub phase: Phase,
    pub position: nat,
}

/// One transition: the state after `e`, and the action it calls for.
pub open spec fn next<T>(m: Model<T>, e: Event<T>) -> (Model<T>, Action<T>) {
    match (m.phase, e) {
        (Phase::NotStarted, Event::Open) => (
            Model { scale: m.scale, phase: Phase::Streaming, position: m.position },
            Action::Nothing,
        ),
        (Phase::Streaming, Event::Record(s)) => (
            Model { scale: m.scale, phase: Phase::Streaming, position: m.position + 1 },
            Action::Deliver(update_of(s, m.scale)),
        ),
        (Phase::Streaming, Event::Malformed) => (
            Model { scale: m.scale, phase: Phase::Aborted, position: m.position },
            Action::Abort { position: m.position as u64 },
        ),
        (Phase::Streaming, Event::EndOfData) => (
            Model { scale: m.scale, phase: Phase::Finished, position: m.position },
            Action::Report,
        ),
        (Phase::Finished, Event::Query) => (m, Action::Report),
        _ => (m, Action::Nothing),
    }
}

/// The state after a sequence of events, and the actions taken, in order.
pub open spec fn run<T>(m: Model<T>, events: Seq<Event<T>>) -> (Model<T>, Seq<Action<T>>)
    decreases events.len(),
{
    if events.len() == 0 {
        (m, Seq::empty())
    } else {
        let (m1, a) = next(m, events[0]);
        let (m2, rest) = run(m1, events.subrange(1, events.len() as int));
        (m2, seq![a] + rest)
    }
}

/// Owns the calibration scale and the progress of one run.
pub struct Dispatcher<T> {
    scale: Triple<T>,
    phase: Phase,
    position: u64,
}

impl<T> View for Dispatcher<T> {
    type V = Model<T>;

    closed spec fn view(&self) -> Model<T> {
        Model { scale: self.scale, phase: self.phase, position: self.position as nat }
    }
}

impl<T: Copy> Dispatcher<T> {
    /// A dispatcher that has not opened its dataset, with the per-axis
    /// gyroscope scale.
    pub fn new(gyro_scale: Triple<T>) -> (d: Self)
        ensures
            d@ == (Model { scale: gyro_scale, phase: Phase::NotStarted, position: 0 }),
    {
        Dispatcher { scale: gyro_scale, phase: Phase::NotStarted, position: 0 }
    }

    /// Takes one event and says what to do about it.
    pub fn step(&mut self, e: Event<T>) -> (a: Action<T>)
        requires
            old(self)@.position < u64::MAX,
        ensures
            (final(self)@, a) == next(old(self)@, e),
    {
        match (self.phase, e) {
            (Phase::NotStarted, Event::Open) => {
                self.phase = Phase::Streaming;
                Action::Nothing
            },
            (Phase::Streaming, Event::Record(s)) => {
                self.position = self.position + 1;
                Action::Deliver(update_for(&s, &self.scale))
            },
            (Phase::Streaming, Event::Malformed) => {
                self.phase = Phase::Aborted;
                Action::Abort { position: self.position }
            },
            (Phase::Streaming, Event::EndOfData) => {
                self.phase = Phase::Finished;
                Action::Report
            },
            (Phase::Finished, Event::Query) => Action::Report,
            _ => Action::Nothing,
        }
    }

    /// The phase of the run.
    pub fn phase(&self) -> (r: Phase)
        ensures
            r == self@.phase,
    {
        self.phase
    }

    /// How many records have been consumed.
    pub fn position(&self) -> (r: u64)
        ensures
            r as nat == self@.position,
    {
        self.position
    }

    /// The per-axis gyroscope scale.
    pub fn gyro_scale(&self) -> (r: Triple<T>)
        ensures
            r == self@.scale,
    {
        self.scale
    }
}

} // verus!
