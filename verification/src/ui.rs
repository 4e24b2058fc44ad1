//! The render loop's state machine: events, key handling and the transition
//! relation the interactive loop follows until the operator quits.

use vstd::prelude::*;
use vstd::string::StringExecFns;

verus! {

/// One event delivered on the merged input channel: a decoded keypress, a
/// periodic timer tick, or the explicit quit signal.
#[derive(Clone, Copy, Debug, PartialEq, Eq, Structural)]
pub enum Event {
    Input(char),
    Tick,
    Quit,
}

/// The render loop's state: it runs until a `Quit` event is processed and
/// never leaves `Terminated` afterwards.
#[derive(Clone, Copy, Debug, PartialEq, Eq, Structural)]
pub enum RenderState {
    Running,
    Terminated,
}

/// What the loop does after handling one event: redraw and wait for the next
/// event, re-inject a `Quit` event (and redraw meanwhile), or release the
/// display and stop.
#[derive(Clone, Copy, Debug, PartialEq, Eq, Structural)]
pub enum Action {
    Redraw,
    EmitQuit,
    Release,
}

/// The keys that request termination.
pub open spec fn is_quit_key(c: char) -> bool {
    c == 'q' || c == 'Q'
}

/// The successor state: only a `Quit` event processed while running leads to
/// `Terminated`, and `Terminated` absorbs every event.
pub open spec fn next_state(s: RenderState, e: Event) -> RenderState {
    match s {
        RenderState::Running => if e is Quit {
            RenderState::Terminated
        } else {
            RenderState::Running
        },
        RenderState::Terminated => RenderState::Terminated,
    }
}

/// The action taken on one event: a quit key asks for a `Quit` event to be
/// re-injected, a `Quit` event releases the display, anything else only
/// refreshes the chart.
pub open spec fn action_of(s: RenderState, e: Event) -> Action {
    match s {
        RenderState::Running => match e {
            Event::Input(c) => if is_quit_key(c) {
                Action::EmitQuit
            } else {
                Action::Redraw
            },
            Event::Tick => Action::Redraw,
            Event::Quit => Action::Release,
        },
        RenderState::Terminated => Action::Release,
    }
}

/// Decides whether a keypress requests termination: `q` or `Q` answers with a
/// `Quit` event to feed back into the event channel, any other key is ignored.
pub fn on_key(c: char) -> (r: Option<Event>)
    ensures
        r == if is_quit_key(c) {
            Some(Event::Quit)
        } else {
            None::<Event>
        },
{
    if c == 'q' || c == 'Q' {
        Some(Event::Quit)
    } else {
        None
    }
}

/// The periodic tick changes no state; it only forces the next redraw, since
/// the pipeline advances the counters independently of user input.
pub fn on_tick() {
}

/// One step of the render loop: from the current state and the event just
/// received, the next state and the action to perform.
pub fn handle_event(s: RenderState, e: Event) -> (r: (RenderState, Action))
    ensures
        r.0 == next_state(s, e),
        r.1 == action_of(s, e),
{
    match s {
        RenderState::Running => match e {
            Event::Input(c) => if c == 'q' || c == 'Q' {
                (RenderState::Running, Action::EmitQuit)
            } else {
                (RenderState::Running, Action::Redraw)
            },
            Event::Tick => (RenderState::Running, Action::Redraw),
            Event::Quit => (RenderState::Terminated, Action::Release),
        },
        RenderState::Terminated => (RenderState::Terminated, Action::Release),
    }
}

/// The state after a whole sequence of events has been handled in order.
pub open spec fn state_after(s: RenderState, events: Seq<Event>) -> RenderState
    decreases events.len(),
{
    if events.len() == 0 {
        s
    } else {
        state_after(next_state(s, events.first()), events.drop_first())
    }
}

/// A quit key answered by the re-injected `Quit` event terminates the loop:
/// handling `KeyPress('q')` keeps the loop running but asks for a `Quit`
/// event, and the `Quit` event moves it to `Terminated`, which no later event
/// leaves and in which no redraw is ever asked for.
pub proof fn lemma_quit_terminates(c: char, later: Seq<Event>)
    requires
        is_quit_key(c),
    ensures
        action_of(RenderState::Running, Event::Input(c)) == Action::EmitQuit,
        next_state(RenderState::Running, Event::Input(c)) == RenderState::Running,
        next_state(RenderState::Running, Event::Quit) == RenderState::Terminated,
        action_of(RenderState::Running, Event::Quit) == Action::Release,
        state_after(RenderState::Terminated, later) == RenderState::Terminated,
        forall|e: Event| action_of(RenderState::Terminated, e) != Action::Redraw,
    decreases later.len(),
{
    if later.len() > 0 {
        lemma_quit_terminates(c, later.drop_first());
    }
}

/// The chart's title line: the monitored topic and the active filter.
pub fn draw_title(topic: &str, filter: &str) -> (r: String)
    ensures
        r@ == "Topic: "@ + topic@ + ", Filter: "@ + filter@,
{
    let mut r: String = "Topic: ".to_owned();
    r.append(topic);
    r.append(", Filter: ");
    r.append(filter);
    r
}

} // verus!
