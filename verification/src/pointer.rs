use vstd::prelude::*;

verus! {

/// Attribution of window-less pointer notifications, as roundtrip-based
/// transports deliver them: enter and leave carry the surface, while
/// motion and button reports do not and must be attributed to the surface
/// the pointer entered last, with the coordinates it was last seen at.
pub struct PointerTracker {
    current: Option<(u32, i32, i32)>,
}

impl PointerTracker {
    /// The surface the pointer is on, with its last seen coordinates.
    pub closed spec fn current(self) -> Option<(u32, i32, i32)> {
        self.current
    }

    pub fn new() -> (r: PointerTracker)
        ensures
            r.current() is None,
    {
        PointerTracker { current: None }
    }

    /// The pointer entered `surface` at (x, y).
    pub fn on_enter(&mut self, surface: u32, x: i32, y: i32)
        ensures
            final(self).current() == Some((surface, x, y)),
    {
        self.current = Some((surface, x, y));
    }

    /// The pointer left whatever surface it was on: returns the surface
    /// and coordinates the leave is attributed to, if any was entered.
    pub fn on_leave(&mut self) -> (r: Option<(u32, i32, i32)>)
        ensures
            r == old(self).current(),
            final(self).current() is None,
    {
        let r = self.current;
        self.current = None;
        r
    }

    /// A motion report at (x, y): attributed to the entered surface, whose
    /// stored coordinates advance; dropped when no surface was entered.
    pub fn on_motion(&mut self, x: i32, y: i32) -> (r: Option<u32>)
        ensures
            old(self).current() matches Some(c) ==> r == Some(c.0) && final(self).current()
                == Some((c.0, x, y)),
            old(self).current() is None ==> r is None && final(self).current() is None,
    {
        match self.current {
            Some((surface, _, _)) => {
                self.current = Some((surface, x, y));
                Some(surface)
            },
            None => None,
        }
    }

    /// A button report, which carries no coordinates of its own: attributed
    /// to the entered surface at its last seen coordinates; dropped when no
    /// surface was entered.
    pub fn on_button(&mut self) -> (r: Option<(u32, i32, i32)>)
        ensures
            r == old(self).current(),
            final(self).current() == old(self).current(),
    {
        self.current
    }
}

} // verus!
