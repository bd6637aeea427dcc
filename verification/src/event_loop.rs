use vstd::prelude::*;

use crate::event::Event;

verus! {

/// Application-controlled loop policy: idle quietly, busy-poll, or leave.
#[derive(Debug, Copy, Clone, Ord, PartialOrd, Eq, PartialEq, Hash, Structural)]
pub enum ControlFlow {
    Wait,
    Poll,
    Exit,
}

/// What one loop iteration hands to the application's handler.
#[derive(Debug, Copy, Clone, PartialEq, Eq, Structural)]
pub enum LoopDelivery {
    /// A real event.
    Deliver(Event),
    /// The synthetic idle tick `MainEventsCleared`.
    Idle,
    /// Nothing: stay quiet this iteration.
    Quiet,
}

/// Whether an empty poll produces the idle tick: always under `Poll`, and
/// under any other policy only on the falling edge of a burst of activity.
pub open spec fn spec_emit_idle(control: ControlFlow, had_event_before: bool) -> bool {
    control is Poll || had_event_before
}

/// What one iteration delivers and how the edge trigger advances: a real
/// event is passed through and arms the trigger; an empty poll emits the
/// idle tick exactly when `spec_emit_idle` says so and always disarms the
/// trigger.
pub open spec fn spec_loop_step(
    polled: Option<Event>,
    control: ControlFlow,
    had_event_before: bool,
) -> (LoopDelivery, bool) {
    match polled {
        Some(ev) => (LoopDelivery::Deliver(ev), true),
        None => (
            if spec_emit_idle(control, had_event_before) {
                LoopDelivery::Idle
            } else {
                LoopDelivery::Quiet
            },
            false,
        ),
    }
}

/// Decides one iteration of the run loop, given the event the poll yielded
/// (if any), the current control flow, and whether an event was delivered
/// since the previous idle tick. Returns the delivery and the new value of
/// that flag.
pub fn loop_step(polled: Option<Event>, control: ControlFlow, had_event_before: bool) -> (r: (
    LoopDelivery,
    bool,
))
    ensures
        r == spec_loop_step(polled, control, had_event_before),
{
    match polled {
        Some(ev) => (LoopDelivery::Deliver(ev), true),
        None => {
            let emit = match control {
                ControlFlow::Poll => true,
                _ => had_event_before,
            };
            if emit {
                (LoopDelivery::Idle, false)
            } else {
                (LoopDelivery::Quiet, false)
            }
        },
    }
}

/// The idle tick is edge-triggered under `Wait`: an empty poll emits it
/// only when an event arrived since the previous tick, a second empty poll
/// in a row emits nothing, and a fresh event re-arms it for exactly one
/// more tick.
pub proof fn lemma_idle_edge_triggered(had_event_before: bool, ev: Event)
    ensures
        ({
            let (d1, h1) = spec_loop_step(None, ControlFlow::Wait, had_event_before);
            let (d2, h2) = spec_loop_step(None, ControlFlow::Wait, h1);
            &&& (d1 == LoopDelivery::Idle <==> had_event_before)
            &&& d2 == LoopDelivery::Quiet
            &&& !h2
        }),
        ({
            let (d0, h0) = spec_loop_step(Some(ev), ControlFlow::Wait, false);
            let (d1, h1) = spec_loop_step(None, ControlFlow::Wait, h0);
            let (d2, h2) = spec_loop_step(None, ControlFlow::Wait, h1);
            &&& d0 == LoopDelivery::Deliver(ev)
            &&& d1 == LoopDelivery::Idle
            &&& d2 == LoopDelivery::Quiet
        }),
{
}

/// Under `Poll` the idle tick is level-triggered: every empty poll emits it.
pub proof fn lemma_idle_level_triggered_under_poll(had_event_before: bool)
    ensures
        spec_loop_step(None, ControlFlow::Poll, had_event_before).0 == LoopDelivery::Idle,
{
}

} // verus!
