use std::collections::VecDeque;

use mwin::connection::Connection;
use mwin::event::{ButtonState, Event, MouseButton, WindowEvent, WindowId};
use mwin::event_loop::{loop_step, ControlFlow, LoopDelivery};
use mwin::native::{
    choose_backing, select_protocol, AtomCollection, Backing, NativeEvent, Protocol, ReleaseStep,
    SelectionRequest,
};
use mwin::pointer::PointerTracker;
use mwin::surface::Format;
use mwin::window::WindowBuilder;

fn atoms() -> AtomCollection {
    AtomCollection {
        wm_protocols: 10,
        wm_delete_window: 11,
        clipboard: 12,
        targets: 13,
        multiple: 14,
        timestamp: 15,
        utf8_string: 16,
        text: 17,
        string: 18,
        mime_text_plain_utf8: 19,
        incr: 20,
        clipboard_receiver: 21,
        null: 22,
    }
}

fn connection() -> Connection {
    Connection::new(false, 5, atoms())
}

fn window_event(id: u32, event: WindowEvent) -> Event {
    Event::WindowEvent { window: WindowId(id), event }
}

#[test]
fn create_window_registers_it_immediately() {
    let mut conn = connection();
    let builder = WindowBuilder::new().with_size(4, 3).with_title(String::from("probe"));
    let w = conn.create_window(&builder, 42).unwrap();
    assert_eq!(w.id, WindowId(42));
    assert_eq!(w.logical_size(), (4, 3));
    let data = conn.window(WindowId(42)).unwrap();
    assert_eq!(data.surface.size(), (4, 3));
    assert_eq!(data.surface.format(), Format::Argb8888);
    assert_eq!(data.backing, Backing::Private);
}

#[test]
fn pixels_go_through_the_live_window_table() {
    let mut conn = connection();
    let builder = WindowBuilder::new().with_size(4, 3);
    conn.create_window(&builder, 42).unwrap();
    assert!(conn.put_window_pixel(WindowId(42), 1, 2, 0xABCD));
    assert_eq!(conn.window(WindowId(42)).unwrap().surface.get_pixel(1, 2), Some(0xABCD));
    // A window that was never created takes no writes.
    assert!(!conn.put_window_pixel(WindowId(7), 0, 0, 1));
}

#[test]
fn events_are_fifo_per_window_with_decomposition() {
    // E1 (a two-button notification), E2, E3 for one window: delivered in
    // that order, E1's two sub-events first.
    let mut conn = connection();
    conn.create_window(&WindowBuilder::new().with_size(4, 3), 42).unwrap();
    let mut natives: VecDeque<NativeEvent> = VecDeque::new();
    natives.push_back(NativeEvent::Button { window: 42, x: 1, y: 2, detail: 3, pressed: true });
    natives.push_back(NativeEvent::Motion { window: 42, x: 5, y: 6 });
    natives.push_back(NativeEvent::Enter { window: 42, x: 7, y: 8 });
    let press = |button: MouseButton| WindowEvent::MouseButton {
        x: 1,
        y: 2,
        state: ButtonState::Pressed,
        button,
    };
    assert_eq!(conn.poll_event(&mut natives), Some(window_event(42, press(MouseButton::Left))));
    assert_eq!(conn.poll_event(&mut natives), Some(window_event(42, press(MouseButton::Right))));
    assert_eq!(
        conn.poll_event(&mut natives),
        Some(window_event(42, WindowEvent::MouseMove { x: 5, y: 6 }))
    );
    assert_eq!(
        conn.poll_event(&mut natives),
        Some(window_event(42, WindowEvent::MouseEnter { x: 7, y: 8 }))
    );
    assert_eq!(conn.poll_event(&mut natives), None);
}

#[test]
fn native_destroy_tears_down_before_the_event_is_delivered() {
    let mut conn = connection();
    conn.create_window(&WindowBuilder::new().with_size(4, 3), 42).unwrap();
    let mut natives: VecDeque<NativeEvent> = VecDeque::new();
    natives.push_back(NativeEvent::DestroyNotify { window: 42 });
    let ev = conn.poll_event(&mut natives);
    assert_eq!(ev, Some(window_event(42, WindowEvent::Destroy)));
    // The teardown already ran: the window is gone and its cleanup is owed.
    assert!(conn.window(WindowId(42)).is_none());
    let plan = conn.take_release_plan().unwrap();
    assert_eq!(plan.window, 42);
    // Destroying again after the native teardown is a no-op.
    assert!(!conn.destroy_window(WindowId(42)));
    assert!(conn.take_release_plan().is_none());
}

#[test]
fn destroy_window_is_idempotent() {
    let mut conn = connection();
    conn.create_window(&WindowBuilder::new().with_size(4, 3), 42).unwrap();
    assert!(conn.destroy_window(WindowId(42)));
    assert!(!conn.destroy_window(WindowId(42)));
    // Exactly one cleanup plan was scheduled.
    assert!(conn.take_release_plan().is_some());
    assert!(conn.take_release_plan().is_none());
}

#[test]
fn resize_event_carries_the_new_surface_dimensions() {
    let mut conn = connection();
    conn.create_window(&WindowBuilder::new().with_size(4, 3), 42).unwrap();
    conn.put_window_pixel(WindowId(42), 0, 0, 9);
    let mut natives: VecDeque<NativeEvent> = VecDeque::new();
    natives.push_back(NativeEvent::Configure { window: 42, width: 8, height: 5 });
    let ev = conn.poll_event(&mut natives);
    assert_eq!(ev, Some(window_event(42, WindowEvent::Resize { width: 8, height: 5 })));
    // By the time the application sees the event, the new surface is
    // installed: its size matches the event's dimensions exactly.
    let data = conn.window(WindowId(42)).unwrap();
    assert_eq!(data.surface.size(), (8, 5));
    assert_eq!(data.surface.get_pixel(0, 0), Some(0));
}

#[test]
fn configure_with_unchanged_dimensions_is_silent() {
    let mut conn = connection();
    conn.create_window(&WindowBuilder::new().with_size(4, 3), 42).unwrap();
    let mut natives: VecDeque<NativeEvent> = VecDeque::new();
    natives.push_back(NativeEvent::Configure { window: 42, width: 4, height: 3 });
    assert_eq!(conn.poll_event(&mut natives), None);
    assert_eq!(conn.window(WindowId(42)).unwrap().surface.size(), (4, 3));
}

#[test]
fn close_request_and_damage_translate() {
    let mut conn = connection();
    let mut natives: VecDeque<NativeEvent> = VecDeque::new();
    natives.push_back(NativeEvent::ClientMessage { window: 42, format: 32, data0: 11 });
    natives.push_back(NativeEvent::ClientMessage { window: 42, format: 32, data0: 999 });
    natives.push_back(NativeEvent::Expose { window: 42, count: 1 });
    natives.push_back(NativeEvent::Expose { window: 42, count: 0 });
    assert_eq!(conn.poll_event(&mut natives), Some(window_event(42, WindowEvent::CloseRequested)));
    assert_eq!(conn.poll_event(&mut natives), Some(window_event(42, WindowEvent::Dirted)));
    assert_eq!(conn.poll_event(&mut natives), None);
}

#[test]
fn clipboard_signals_reach_their_slots() {
    let mut conn = connection();
    conn.begin_conversion();
    assert_eq!(conn.take_selection_reply(), None);
    conn.pump_for_queue(NativeEvent::SelectionNotify { property_set: true });
    assert_eq!(conn.take_selection_reply(), Some(true));
    assert_eq!(conn.take_selection_reply(), None);
    // The chunk flag is set only for the receiver property of the hidden
    // window.
    conn.pump_for_queue(NativeEvent::PropertyNotify { window: 5, atom: 21, new_value: true });
    assert!(conn.take_chunk_ready());
    assert!(!conn.take_chunk_ready());
    conn.pump_for_queue(NativeEvent::PropertyNotify { window: 6, atom: 21, new_value: true });
    assert!(!conn.take_chunk_ready());
    // A peer's request is queued for the reentrant handler.
    let req = SelectionRequest { requestor: 9, selection: 12, target: 16, property: 50, time: 1 };
    conn.pump_for_queue(NativeEvent::SelectionRequest(req));
    assert_eq!(conn.take_selection_request(), Some(req));
    assert_eq!(conn.take_selection_request(), None);
}

#[test]
fn pumped_events_are_delivered_later_in_order() {
    let mut conn = connection();
    conn.pump_for_queue(NativeEvent::Motion { window: 42, x: 1, y: 1 });
    conn.pump_for_queue(NativeEvent::Motion { window: 42, x: 2, y: 2 });
    let mut natives: VecDeque<NativeEvent> = VecDeque::new();
    assert_eq!(
        conn.poll_event(&mut natives),
        Some(window_event(42, WindowEvent::MouseMove { x: 1, y: 1 }))
    );
    assert_eq!(
        conn.poll_event(&mut natives),
        Some(window_event(42, WindowEvent::MouseMove { x: 2, y: 2 }))
    );
    assert_eq!(conn.poll_event(&mut natives), None);
}

#[test]
fn exit_tears_down_every_live_window() {
    let mut conn = connection();
    conn.create_window(&WindowBuilder::new().with_size(2, 2), 1).unwrap();
    conn.create_window(&WindowBuilder::new().with_size(2, 2), 2).unwrap();
    conn.destroy_all_windows();
    assert!(conn.window(WindowId(1)).is_none());
    assert!(conn.window(WindowId(2)).is_none());
    let mut released: Vec<u32> = Vec::new();
    while let Some(plan) = conn.take_release_plan() {
        released.push(plan.window);
    }
    released.sort();
    assert_eq!(released, vec![1, 2]);
}

#[test]
fn release_steps_keep_the_stated_order() {
    let mut conn = Connection::new(true, 5, atoms());
    conn.create_window(&WindowBuilder::new().with_size(2, 2), 1).unwrap();
    assert!(conn.destroy_window(WindowId(1)));
    let plan = conn.take_release_plan().unwrap();
    assert_eq!(plan.backing, Backing::Shared);
    assert_eq!(
        plan.steps(),
        vec![
            ReleaseStep::DetachSharedMemory,
            ReleaseStep::UnmapBuffer,
            ReleaseStep::FreePixmap,
            ReleaseStep::DestroyNativeWindow,
            ReleaseStep::FreeColormap,
        ]
    );
}

#[test]
fn backing_policy_and_protocol_preference() {
    assert_eq!(choose_backing(true), Backing::Shared);
    assert_eq!(choose_backing(false), Backing::Private);
    assert_eq!(select_protocol(true), Protocol::Wayland);
    assert_eq!(select_protocol(false), Protocol::X11);
}

#[test]
fn pointer_tracker_attributes_windowless_reports() {
    let mut tracker = PointerTracker::new();
    assert_eq!(tracker.on_motion(1, 1), None);
    tracker.on_enter(42, 10, 20);
    assert_eq!(tracker.on_button(), Some((42, 10, 20)));
    assert_eq!(tracker.on_motion(11, 21), Some(42));
    assert_eq!(tracker.on_button(), Some((42, 11, 21)));
    assert_eq!(tracker.on_leave(), Some((42, 11, 21)));
    assert_eq!(tracker.on_button(), None);
}

#[test]
fn silent_natives_do_not_disturb_the_event_stream() {
    let mut conn = connection();
    let mut natives: VecDeque<NativeEvent> = VecDeque::new();
    natives.push_back(NativeEvent::SelectionNotify { property_set: true });
    natives.push_back(NativeEvent::Motion { window: 42, x: 3, y: 4 });
    natives.push_back(NativeEvent::Unknown);
    assert_eq!(
        conn.poll_event(&mut natives),
        Some(window_event(42, WindowEvent::MouseMove { x: 3, y: 4 }))
    );
    assert_eq!(conn.poll_event(&mut natives), None);
    // The clipboard reply was still recorded on the way through.
    assert_eq!(conn.take_selection_reply(), Some(true));
}

#[test]
fn idle_tick_fires_once_per_burst_through_the_connection() {
    let mut conn = connection();
    let mut natives: VecDeque<NativeEvent> = VecDeque::new();
    natives.push_back(NativeEvent::Motion { window: 42, x: 1, y: 1 });
    let mut had = false;
    let mut deliveries: Vec<LoopDelivery> = Vec::new();
    for _ in 0..4 {
        let polled = conn.poll_event(&mut natives);
        let (d, h) = loop_step(polled, ControlFlow::Wait, had);
        had = h;
        deliveries.push(d);
    }
    assert_eq!(
        deliveries,
        vec![
            LoopDelivery::Deliver(window_event(42, WindowEvent::MouseMove { x: 1, y: 1 })),
            LoopDelivery::Idle,
            LoopDelivery::Quiet,
            LoopDelivery::Quiet,
        ]
    );
}

#[test]
fn queued_destroy_is_visible_until_delivered() {
    let mut conn = connection();
    conn.create_window(&WindowBuilder::new().with_size(2, 2), 42).unwrap();
    assert!(!conn.has_queued_destroy(WindowId(42)));
    // A native destroy arriving during a clipboard wait queues the event.
    conn.pump_for_queue(NativeEvent::DestroyNotify { window: 42 });
    assert!(conn.has_queued_destroy(WindowId(42)));
    // Delivering it clears the flag.
    let mut natives: VecDeque<NativeEvent> = VecDeque::new();
    assert_eq!(conn.poll_event(&mut natives), Some(window_event(42, WindowEvent::Destroy)));
    assert!(!conn.has_queued_destroy(WindowId(42)));
}
