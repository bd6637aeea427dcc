use vstd::prelude::*;

verus! {

/// Identifies one native window. The value wraps the native handle; it is
/// never reused while its window is alive, and it keeps its value after
/// destruction so that late events can still be matched against it.
#[derive(Debug, Copy, Clone, Ord, PartialOrd, Eq, PartialEq, Hash, Structural)]
pub struct WindowId(pub u32);

impl WindowId {
    pub fn from_native(raw: u32) -> (r: WindowId)
        ensures
            r.0 == raw,
    {
        WindowId(raw)
    }

    pub fn to_native(self) -> (r: u32)
        ensures
            r == self.0,
    {
        self.0
    }
}

#[derive(Debug, Copy, Clone, Ord, PartialOrd, Eq, PartialEq, Hash, Structural)]
pub enum MouseButton {
    Left,
    Right,
    Middle,
    Side,
    Extra,
}

#[derive(Debug, Copy, Clone, Ord, PartialOrd, Eq, PartialEq, Hash, Structural)]
pub enum ButtonState {
    Released,
    Pressed,
}

/// The unified event stream handed to the application: per-window payloads
/// plus the synthetic idle tick.
#[derive(Debug, Copy, Clone, PartialEq, Eq, Structural)]
pub enum Event {
    WindowEvent { window: WindowId, event: WindowEvent },
    MainEventsCleared,
}

/// Per-window payloads. Within one window these are observed in native
/// delivery order; no order is promised across windows.
#[derive(Debug, Copy, Clone, PartialEq, Eq, Structural)]
pub enum WindowEvent {
    CloseRequested,
    Dirted,
    Destroy,
    Resize { width: u32, height: u32 },
    MouseButton { x: i32, y: i32, state: ButtonState, button: MouseButton },
    MouseMove { x: i32, y: i32 },
    MouseEnter { x: i32, y: i32 },
    MouseLeave { x: i32, y: i32 },
}

} // verus!
