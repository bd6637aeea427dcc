use vstd::prelude::*;

verus! {

/// The null atom: "no property" / "no owner" on the wire.
pub const ATOM_NONE: u32 = 0;

/// The protocol atoms this library relies on, resolved once per connection
/// at handshake time and fixed afterwards.
#[derive(Debug, Copy, Clone, PartialEq, Eq, Structural)]
pub struct AtomCollection {
    pub wm_protocols: u32,
    pub wm_delete_window: u32,
    pub clipboard: u32,
    pub targets: u32,
    pub multiple: u32,
    pub timestamp: u32,
    pub utf8_string: u32,
    pub text: u32,
    pub string: u32,
    pub mime_text_plain_utf8: u32,
    pub incr: u32,
    pub clipboard_receiver: u32,
    pub null: u32,
}

/// One native event record, reduced to the plain values the unification
/// logic reads. The transport adapter translates the wire form into this.
#[derive(Debug, Copy, Clone, PartialEq, Eq, Structural)]
pub enum NativeEvent {
    /// A button-state notification. `detail` is a mask of simultaneously
    /// reported buttons: bit 0 left, bit 1 right, bit 2 middle.
    Button { window: u32, x: i32, y: i32, detail: u8, pressed: bool },
    /// A geometry change reported by the display system.
    Configure { window: u32, width: u16, height: u16 },
    Enter { window: u32, x: i32, y: i32 },
    Leave { window: u32, x: i32, y: i32 },
    Motion { window: u32, x: i32, y: i32 },
    /// The reply to a conversion request: whether the owner honoured it.
    SelectionNotify { property_set: bool },
    /// Another client asks this process for clipboard data.
    SelectionRequest(SelectionRequest),
    /// A property changed; carries what the clipboard receiver checks.
    PropertyNotify { window: u32, atom: u32, new_value: bool },
    /// A client message; `data0` carries the protocol atom when `format`
    /// is 32.
    ClientMessage { window: u32, format: u8, data0: u32 },
    Expose { window: u32, count: u32 },
    DestroyNotify { window: u32 },
    /// Anything the unification layer does not consume.
    Unknown,
}

/// A peer's request for clipboard data, as delivered by the transport.
#[derive(Debug, Copy, Clone, PartialEq, Eq, Structural)]
pub struct SelectionRequest {
    pub requestor: u32,
    pub selection: u32,
    pub target: u32,
    pub property: u32,
    pub time: u32,
}

/// How a window's buffer is backed: a region shared with the display
/// server (zero-copy presentation) or private memory uploaded on redraw.
#[derive(Debug, Copy, Clone, PartialEq, Eq, Structural)]
pub enum Backing {
    Shared,
    Private,
}

/// The buffer-backing policy: zero-copy shared memory whenever the
/// platform capability flag says it is available, private memory with an
/// explicit upload otherwise. Decided at creation and re-evaluated, with
/// the same rule, across a resize-triggered reallocation.
pub fn choose_backing(shm_available: bool) -> (r: Backing)
    ensures
        r == (if shm_available {
            Backing::Shared
        } else {
            Backing::Private
        }),
{
    if shm_available {
        Backing::Shared
    } else {
        Backing::Private
    }
}

/// One step of releasing a destroyed window's native resources.
#[derive(Debug, Copy, Clone, PartialEq, Eq, Structural)]
pub enum ReleaseStep {
    DetachSharedMemory,
    UnmapBuffer,
    FreePixmap,
    DestroyNativeWindow,
    FreeColormap,
}

/// The ordered native cleanup owed for one destroyed window. The order is
/// fixed: detach/unmap the memory region first, then release the drawing
/// resources, then the window itself.
#[derive(Debug, Copy, Clone, PartialEq, Eq, Structural)]
pub struct ReleasePlan {
    pub window: u32,
    pub backing: Backing,
}

/// The steps `ReleasePlan::steps` owes, in order.
pub open spec fn spec_release_steps(backing: Backing) -> Seq<ReleaseStep> {
    let tail = seq![
        ReleaseStep::UnmapBuffer,
        ReleaseStep::FreePixmap,
        ReleaseStep::DestroyNativeWindow,
        ReleaseStep::FreeColormap,
    ];
    if backing is Shared {
        seq![ReleaseStep::DetachSharedMemory] + tail
    } else {
        tail
    }
}

impl ReleasePlan {
    /// The native cleanup steps, in the order they must run: the shared
    /// segment is detached and the buffer unmapped before any drawing
    /// resource is released.
    pub fn steps(&self) -> (r: Vec<ReleaseStep>)
        ensures
            r@ == spec_release_steps(self.backing),
    {
        let mut r: Vec<ReleaseStep> = Vec::new();
        if let Backing::Shared = self.backing {
            r.push(ReleaseStep::DetachSharedMemory);
        }
        r.push(ReleaseStep::UnmapBuffer);
        r.push(ReleaseStep::FreePixmap);
        r.push(ReleaseStep::DestroyNativeWindow);
        r.push(ReleaseStep::FreeColormap);
        proof {
            assert(r@ =~= spec_release_steps(self.backing));
        }
        r
    }
}

/// Which native display protocol a fresh connection speaks.
#[derive(Debug, Copy, Clone, PartialEq, Eq, Structural)]
pub enum Protocol {
    Wayland,
    X11,
}

/// The fixed connection policy: prefer Wayland, and fall back to X11 only
/// when the preferred protocol's connection step failed outright.
pub fn select_protocol(wayland_connected: bool) -> (r: Protocol)
    ensures
        r == (if wayland_connected {
            Protocol::Wayland
        } else {
            Protocol::X11
        }),
{
    if wayland_connected {
        Protocol::Wayland
    } else {
        Protocol::X11
    }
}

} // verus!
