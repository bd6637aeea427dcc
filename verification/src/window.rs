use vstd::prelude::*;

use crate::event::WindowId;
use crate::surface::Format;

verus! {

/// The configuration a window is created with. Sizes are in pixels.
#[derive(Debug, Clone)]
pub struct WindowBuilder {
    pub width: u32,
    pub height: u32,
    pub title: String,
    pub decorations: bool,
    pub surface_format: Format,
}

impl WindowBuilder {
    pub fn new() -> (r: WindowBuilder)
        ensures
            r.width == 800,
            r.height == 600,
            r.title@ == Seq::<char>::empty(),
            r.decorations,
            r.surface_format == Format::Argb8888,
    {
        WindowBuilder {
            width: 800,
            height: 600,
            title: String::new(),
            decorations: true,
            surface_format: Format::Argb8888,
        }
    }

    pub fn with_title(self, title: String) -> (r: WindowBuilder)
        ensures
            r == (WindowBuilder { title, ..self }),
    {
        WindowBuilder { title, ..self }
    }

    pub fn with_decorations(self, decorations: bool) -> (r: WindowBuilder)
        ensures
            r == (WindowBuilder { decorations, ..self }),
    {
        WindowBuilder { decorations, ..self }
    }

    pub fn with_width(self, width: u32) -> (r: WindowBuilder)
        ensures
            r == (WindowBuilder { width, ..self }),
    {
        WindowBuilder { width, ..self }
    }

    pub fn with_height(self, height: u32) -> (r: WindowBuilder)
        ensures
            r == (WindowBuilder { height, ..self }),
    {
        WindowBuilder { height, ..self }
    }

    pub fn with_size(self, width: u32, height: u32) -> (r: WindowBuilder)
        ensures
            r == (WindowBuilder { width, height, ..self }),
    {
        WindowBuilder { width, height, ..self }
    }

    pub fn with_surface_format(self, surface_format: Format) -> (r: WindowBuilder)
        ensures
            r == (WindowBuilder { surface_format, ..self }),
    {
        WindowBuilder { surface_format, ..self }
    }

    pub fn width(&self) -> (r: u32)
        ensures
            r == self.width,
    {
        self.width
    }

    pub fn height(&self) -> (r: u32)
        ensures
            r == self.height,
    {
        self.height
    }

    pub fn title(&self) -> (r: &String)
        ensures
            r@ == self.title@,
    {
        &self.title
    }

    pub fn decorations(&self) -> (r: bool)
        ensures
            r == self.decorations,
    {
        self.decorations
    }

    pub fn surface_format(&self) -> (r: Format)
        ensures
            r == self.surface_format,
    {
        self.surface_format
    }
}

/// The application's handle to one live window: its identifier and logical
/// size. The pixel buffer itself is owned by the connection's live-window
/// table, where the event layer can replace it on resize.
#[derive(Debug, Copy, Clone, PartialEq, Eq, Structural)]
pub struct Window {
    pub id: WindowId,
    pub width: u32,
    pub height: u32,
}

impl Window {
    pub fn logical_size(&self) -> (r: (u32, u32))
        ensures
            r.0 == self.width,
            r.1 == self.height,
    {
        (self.width, self.height)
    }
}

} // verus!
