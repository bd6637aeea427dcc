use mwin::event::{Event, WindowEvent, WindowId};
use mwin::event_loop::{loop_step, ControlFlow, LoopDelivery};

fn some_event() -> Event {
    Event::WindowEvent { window: WindowId(7), event: WindowEvent::CloseRequested }
}

#[test]
fn wait_idle_is_edge_triggered_once_per_burst() {
    // An event arrives: it is delivered and arms the idle trigger.
    let (d0, had0) = loop_step(Some(some_event()), ControlFlow::Wait, false);
    assert_eq!(d0, LoopDelivery::Deliver(some_event()));
    assert!(had0);
    // First empty poll after the burst: exactly one idle tick.
    let (d1, had1) = loop_step(None, ControlFlow::Wait, had0);
    assert_eq!(d1, LoopDelivery::Idle);
    assert!(!had1);
    // Further empty polls stay quiet.
    let (d2, had2) = loop_step(None, ControlFlow::Wait, had1);
    assert_eq!(d2, LoopDelivery::Quiet);
    assert!(!had2);
    let (d3, _) = loop_step(None, ControlFlow::Wait, had2);
    assert_eq!(d3, LoopDelivery::Quiet);
}

#[test]
fn wait_idle_without_prior_event_stays_quiet() {
    let (d, had) = loop_step(None, ControlFlow::Wait, false);
    assert_eq!(d, LoopDelivery::Quiet);
    assert!(!had);
}

#[test]
fn poll_idle_is_level_triggered() {
    let (d1, _) = loop_step(None, ControlFlow::Poll, false);
    assert_eq!(d1, LoopDelivery::Idle);
    let (d2, _) = loop_step(None, ControlFlow::Poll, false);
    assert_eq!(d2, LoopDelivery::Idle);
}

#[test]
fn exit_pending_idle_follows_the_edge_trigger() {
    let (d1, had1) = loop_step(None, ControlFlow::Exit, true);
    assert_eq!(d1, LoopDelivery::Idle);
    let (d2, _) = loop_step(None, ControlFlow::Exit, had1);
    assert_eq!(d2, LoopDelivery::Quiet);
}
