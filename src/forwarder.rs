//! The forwarder's decisions: one step from its mode and what just happened
//! to the next mode and the action to perform.
use vstd::prelude::*;
use crate::canon::batch_of;
use crate::canon::RawLogRecord;
use crate::event::{line_of, CanonicalEvent, Fields};

verus! {

/// Where the forwarder stands.
#[derive(Clone, Copy, Debug, PartialEq, Eq, Structural)]
pub enum Mode {
    /// The one connection attempt has not finished yet.
    Connecting,
    /// Streaming to the log store.
    Socket,
    /// Streaming to standard output, for the rest of the process's life.
    Stdout,
    /// The queue is closed and drained; nothing more happens.
    Closed,
}

/// What happened last.
#[derive(Debug)]
pub enum Input {
    /// The connection to the log store was made.
    Connected,
    /// The connection attempt failed.
    ConnectFailed,
    /// The next event was taken from the queue.
    Event(CanonicalEvent),
    /// Writing or flushing the last line to the log store failed.
    WriteFailed,
    /// The queue is closed and holds no more events.
    QueueClosed,
}

pub enum InputView {
    Connected,
    ConnectFailed,
    Event(Fields),
    WriteFailed,
    QueueClosed,
}

impl View for Input {
    type V = InputView;

    open spec fn view(&self) -> InputView {
        match self {
            Input::Connected => InputView::Connected,
            Input::ConnectFailed => InputView::ConnectFailed,
            Input::Event(e) => InputView::Event(e@),
            Input::WriteFailed => InputView::WriteFailed,
            Input::QueueClosed => InputView::QueueClosed,
        }
    }
}

/// What to do next.
#[derive(Clone, Debug, PartialEq, Eq)]
pub enum Action {
    /// Nothing; wait for the next input.
    Idle,
    /// Report that the log store cannot be reached and that events go to standard output.
    AnnounceFallback,
    /// Write the line to the log store and flush it.
    WriteSocket(String),
    /// Write the line to standard output.
    WriteStdout(String),
    /// Report the failed write; the event is lost and streaming goes on.
    ReportWriteFailure,
    /// Shut the connection down in order, then end.
    ShutdownSocket,
    /// End.
    Finish,
}

pub enum ActionView {
    Idle,
    AnnounceFallback,
    WriteSocket(Seq<char>),
    WriteStdout(Seq<char>),
    ReportWriteFailure,
    ShutdownSocket,
    Finish,
}

impl View for Action {
    type V = ActionView;

    open spec fn view(&self) -> ActionView {
        match self {
            Action::Idle => ActionView::Idle,
            Action::AnnounceFallback => ActionView::AnnounceFallback,
            Action::WriteSocket(l) => ActionView::WriteSocket(l@),
            Action::WriteStdout(l) => ActionView::WriteStdout(l@),
            Action::ReportWriteFailure => ActionView::ReportWriteFailure,
            Action::ShutdownSocket => ActionView::ShutdownSocket,
            Action::Finish => ActionView::Finish,
        }
    }
}

/// One transition. An input that cannot occur in a mode changes nothing.
pub open spec fn step_spec(mode: Mode, input: InputView) -> (Mode, ActionView) {
    match (mode, input) {
        (Mode::Connecting, InputView::Connected) => (Mode::Socket, ActionView::Idle),
        (Mode::Connecting, InputView::ConnectFailed) => (Mode::Stdout, ActionView::AnnounceFallback),
        (Mode::Connecting, InputView::QueueClosed) => (Mode::Closed, ActionView::Finish),
        (Mode::Socket, InputView::Event(fs)) => (Mode::Socket, ActionView::WriteSocket(line_of(fs))),
        (Mode::Socket, InputView::WriteFailed) => (Mode::Socket, ActionView::ReportWriteFailure),
        (Mode::Socket, InputView::QueueClosed) => (Mode::Closed, ActionView::ShutdownSocket),
        (Mode::Stdout, InputView::Event(fs)) => (Mode::Stdout, ActionView::WriteStdout(line_of(fs))),
        (Mode::Stdout, InputView::QueueClosed) => (Mode::Closed, ActionView::Finish),
        _ => (mode, ActionView::Idle),
    }
}

/// The mode reached and the actions taken over a sequence of inputs.
pub open spec fn run(mode: Mode, inputs: Seq<InputView>) -> (Mode, Seq<ActionView>)
    decreases inputs.len(),
{
    if inputs.len() == 0 {
        (mode, Seq::empty())
    } else {
        let prev = run(mode, inputs.drop_last());
        let next = step_spec(prev.0, inputs.last());
        (next.0, prev.1.push(next.1))
    }
}

/// The inputs that hand over the given events, in order.
pub open spec fn events_in(events: Seq<Fields>) -> Seq<InputView> {
    events.map_values(|fs: Fields| InputView::Event(fs))
}

/// The write of one event while streaming in `mode`.
pub open spec fn write_action(mode: Mode, fs: Fields) -> ActionView {
    if mode == Mode::Socket {
        ActionView::WriteSocket(line_of(fs))
    } else {
        ActionView::WriteStdout(line_of(fs))
    }
}

/// The last action of a forwarder streaming in `mode`.
pub open spec fn closing_action(mode: Mode) -> ActionView {
    if mode == Mode::Socket {
        ActionView::ShutdownSocket
    } else {
        ActionView::Finish
    }
}

/// While streaming, each event taken from the queue is written as its line, in
/// the order taken, and the mode stays as it is.
pub proof fn lemma_streaming_writes_in_order(mode: Mode, events: Seq<Fields>)
    requires
        mode == Mode::Socket || mode == Mode::Stdout,
    ensures
        run(mode, events_in(events)) == (mode, events.map_values(|fs: Fields| write_action(mode, fs))),
    decreases events.len(),
{
    if events.len() > 0 {
        assert(events_in(events).drop_last() =~= events_in(events.drop_last()));
        lemma_streaming_writes_in_order(mode, events.drop_last());
        assert(events.map_values(|fs: Fields| write_action(mode, fs)) =~= events.drop_last().map_values(
            |fs: Fields| write_action(mode, fs),
        ).push(write_action(mode, events.last())));
    }
}

/// Once the queue is closed, every event still in it has been written, in
/// queue order, before the forwarder ends.
pub proof fn lemma_drain_on_shutdown(mode: Mode, events: Seq<Fields>)
    requires
        mode == Mode::Socket || mode == Mode::Stdout,
    ensures
        run(mode, events_in(events).push(InputView::QueueClosed)) == (
            Mode::Closed,
            events.map_values(|fs: Fields| write_action(mode, fs)).push(closing_action(mode)),
        ),
{
    assert(events_in(events).push(InputView::QueueClosed).drop_last() =~= events_in(events));
    lemma_streaming_writes_in_order(mode, events);
}

/// The events of one batch reach the wire in the batch's own order, one line each.
pub proof fn lemma_batch_written_in_order(mode: Mode, records: Seq<RawLogRecord>)
    requires
        mode == Mode::Socket || mode == Mode::Stdout,
    ensures
        run(mode, events_in(batch_of(records))) == (
            mode,
            batch_of(records).map_values(|fs: Fields| write_action(mode, fs)),
        ),
{
    lemma_streaming_writes_in_order(mode, batch_of(records));
}

/// Running `x` and then `rest` is one step followed by the run of `rest`.
pub proof fn lemma_run_prepend(mode: Mode, x: InputView, rest: Seq<InputView>)
    ensures
        run(mode, seq![x] + rest) == (
            run(step_spec(mode, x).0, rest).0,
            seq![step_spec(mode, x).1] + run(step_spec(mode, x).0, rest).1,
        ),
    decreases rest.len(),
{
    let first = step_spec(mode, x);
    if rest.len() == 0 {
        assert(seq![x] + rest =~= seq![x]);
        assert(seq![x].drop_last() =~= Seq::<InputView>::empty());
        assert(seq![first.1] + Seq::<ActionView>::empty() =~= seq![first.1]);
        assert(Seq::<ActionView>::empty().push(first.1) =~= seq![first.1]);
        assert(run(mode, seq![x].drop_last()) == (mode, Seq::<ActionView>::empty()));
    } else {
        assert((seq![x] + rest).drop_last() =~= seq![x] + rest.drop_last());
        lemma_run_prepend(mode, x, rest.drop_last());
        let prev = run(first.0, rest.drop_last());
        assert(seq![first.1] + prev.1.push(step_spec(prev.0, rest.last()).1) =~= (seq![first.1]
            + prev.1).push(step_spec(prev.0, rest.last()).1));
    }
}

/// What a forwarder in fallback mode does with one input other than the queue's end.
pub open spec fn fallback_action(x: InputView) -> ActionView {
    match x {
        InputView::Event(fs) => ActionView::WriteStdout(line_of(fs)),
        _ => ActionView::Idle,
    }
}

proof fn lemma_stdout_run(inputs: Seq<InputView>)
    requires
        forall|i: int| 0 <= i < inputs.len() ==> !(#[trigger] inputs[i] is QueueClosed),
    ensures
        run(Mode::Stdout, inputs) == (Mode::Stdout, inputs.map_values(|x: InputView| fallback_action(x))),
    decreases inputs.len(),
{
    if inputs.len() > 0 {
        let init = inputs.drop_last();
        assert forall|i: int| 0 <= i < init.len() implies !(#[trigger] init[i] is QueueClosed) by {
            assert(init[i] == inputs[i]);
        }
        lemma_stdout_run(init);
        assert(!(inputs[inputs.len() - 1] is QueueClosed));
        assert(inputs.map_values(|x: InputView| fallback_action(x)) =~= init.map_values(
            |x: InputView| fallback_action(x),
        ).push(fallback_action(inputs.last())));
    }
}

/// After a failed connection attempt the forwarder announces the fallback once,
/// then writes every event to standard output, and stays in that mode: it
/// neither ends nor fails until the queue is closed.
pub proof fn lemma_fallback_is_permanent(inputs: Seq<InputView>)
    requires
        forall|i: int| 0 <= i < inputs.len() ==> !(#[trigger] inputs[i] is QueueClosed),
    ensures
        run(Mode::Connecting, seq![InputView::ConnectFailed] + inputs) == (
            Mode::Stdout,
            seq![ActionView::AnnounceFallback] + inputs.map_values(|x: InputView| fallback_action(x)),
        ),
{
    lemma_run_prepend(Mode::Connecting, InputView::ConnectFailed, inputs);
    lemma_stdout_run(inputs);
}

/// The single writer that owns the outbound connection, or its absence.
#[derive(Debug)]
pub struct Forwarder {
    pub mode: Mode,
}

impl Forwarder {
    /// A forwarder about to make its one connection attempt.
    pub fn new() -> (r: Forwarder)
        ensures
            r.mode == Mode::Connecting,
    {
        Forwarder { mode: Mode::Connecting }
    }

    /// True once the forwarder has ended.
    pub fn is_closed(&self) -> (r: bool)
        ensures
            r == (self.mode == Mode::Closed),
    {
        self.mode == Mode::Closed
    }

    /// Takes one input and says what to do.
    pub fn step(&mut self, input: Input) -> (a: Action)
        ensures
            (final(self).mode, a@) == step_spec(old(self).mode, input@),
    {
        match (self.mode, input) {
            (Mode::Connecting, Input::Connected) => {
                self.mode = Mode::Socket;
                Action::Idle
            },
            (Mode::Connecting, Input::ConnectFailed) => {
                self.mode = Mode::Stdout;
                Action::AnnounceFallback
            },
            (Mode::Connecting, Input::QueueClosed) => {
                self.mode = Mode::Closed;
                Action::Finish
            },
            (Mode::Socket, Input::Event(e)) => Action::WriteSocket(e.to_line()),
            (Mode::Socket, Input::WriteFailed) => Action::ReportWriteFailure,
            (Mode::Socket, Input::QueueClosed) => {
                self.mode = Mode::Closed;
                Action::ShutdownSocket
            },
            (Mode::Stdout, Input::Event(e)) => Action::WriteStdout(e.to_line()),
            (Mode::Stdout, Input::QueueClosed) => {
                self.mode = Mode::Closed;
                Action::Finish
            },
            _ => Action::Idle,
        }
    }
}

} // verus!
