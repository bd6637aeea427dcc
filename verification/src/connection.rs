use std::collections::VecDeque;

use vstd::prelude::*;

use crate::clipboard::{spec_stored, ClipboardOwner};
use crate::error::OSError;
use crate::event::{ButtonState, Event, MouseButton, WindowEvent, WindowId};
use crate::media::{MediaType, MediaTypeView};
use crate::native::{
    AtomCollection,
    Backing,
    NativeEvent,
    ReleasePlan,
    SelectionRequest,
};
use crate::registry::{spec_lookup, AtomRegistry};
use crate::surface::{spec_put, Surface, SurfaceView};
use crate::window::{Window, WindowBuilder};

verus! {

/// What the connection keeps per live window: its pixel surface and how
/// that surface is backed.
pub struct WindowData {
    pub surface: Surface,
    pub backing: Backing,
}

/// Spec-level per-window state.
pub struct WinView {
    pub surface: SurfaceView,
    pub backing: Backing,
}

impl View for WindowData {
    type V = WinView;

    open spec fn view(&self) -> WinView {
        WinView { surface: self.surface@, backing: self.backing }
    }
}

/// The map a sequence of (identifier, data) pairs denotes, later pairs
/// shadowing earlier ones (the table never holds two pairs with one
/// identifier).
pub open spec fn as_win_map(s: Seq<(u32, WindowData)>) -> Map<u32, WinView>
    decreases s.len(),
{
    if s.len() == 0 {
        Map::<u32, WinView>::empty()
    } else {
        as_win_map(s.drop_last()).insert(s.last().0, s.last().1@)
    }
}

/// A key is in the map exactly when some pair carries it.
proof fn lemma_as_win_map_contains(s: Seq<(u32, WindowData)>, id: u32)
    ensures
        as_win_map(s).contains_key(id) <==> exists|i: int| 0 <= i < s.len() && (#[trigger] s[i]).0
            == id,
    decreases s.len(),
{
    if s.len() > 0 {
        lemma_as_win_map_contains(s.drop_last(), id);
        if s.last().0 == id {
            assert(s[s.len() - 1].0 == id);
        } else if as_win_map(s).contains_key(id) {
            let i = choose|i: int| 0 <= i < s.len() - 1 && (#[trigger] s.drop_last()[i]).0 == id;
            assert(s[i].0 == id);
        } else if exists|i: int| 0 <= i < s.len() && (#[trigger] s[i]).0 == id {
            let i = choose|i: int| 0 <= i < s.len() && (#[trigger] s[i]).0 == id;
            assert(s.drop_last()[i].0 == id);
        }
    }
}

/// With unique identifiers, each pair is what the map holds for its key.
proof fn lemma_as_win_map_index(s: Seq<(u32, WindowData)>, i: int)
    requires
        unique_ids(s),
        0 <= i < s.len(),
    ensures
        as_win_map(s).contains_key(s[i].0),
        as_win_map(s)[s[i].0] == s[i].1@,
    decreases s.len(),
{
    if i < s.len() - 1 {
        assert(unique_ids(s.drop_last())) by {
            assert(forall|a: int, b: int|
                0 <= a < b < s.len() - 1 ==> (#[trigger] s.drop_last()[a]).0 != (
                #[trigger] s.drop_last()[b]).0);
        }
        lemma_as_win_map_index(s.drop_last(), i);
        assert(s[i].0 != s.last().0);
    }
}

/// Removing the pair at `i` removes its key from the map.
proof fn lemma_as_win_map_remove(s: Seq<(u32, WindowData)>, i: int)
    requires
        unique_ids(s),
        0 <= i < s.len(),
    ensures
        as_win_map(s.remove(i)) == as_win_map(s).remove(s[i].0),
    decreases s.len(),
{
    lemma_as_win_map_contains(s, s[i].0);
    if i == s.len() - 1 {
        assert(s.remove(i) =~= s.drop_last());
        lemma_as_win_map_contains(s.drop_last(), s[i].0);
        assert(!as_win_map(s.drop_last()).contains_key(s[i].0)) by {
            if as_win_map(s.drop_last()).contains_key(s[i].0) {
                let j = choose|j: int|
                    0 <= j < s.len() - 1 && (#[trigger] s.drop_last()[j]).0 == s[i].0;
                assert(s[j].0 == s[i].0);
            }
        }
        assert(as_win_map(s.drop_last()) =~= as_win_map(s).remove(s[i].0));
    } else {
        assert(unique_ids(s.drop_last())) by {
            assert(forall|a: int, b: int|
                0 <= a < b < s.len() - 1 ==> (#[trigger] s.drop_last()[a]).0 != (
                #[trigger] s.drop_last()[b]).0);
        }
        lemma_as_win_map_remove(s.drop_last(), i);
        assert(s.remove(i).drop_last() =~= s.drop_last().remove(i));
        assert(s.remove(i).last() == s.last());
        assert(s[i].0 != s.last().0);
        assert(as_win_map(s.remove(i)) == as_win_map(s.drop_last().remove(i)).insert(
            s.last().0,
            s.last().1@,
        ));
        assert(as_win_map(s.remove(i)) =~= as_win_map(s).remove(s[i].0));
    }
}

/// No two pairs carry one identifier.
pub open spec fn unique_ids(s: Seq<(u32, WindowData)>) -> bool {
    forall|a: int, b: int| 0 <= a < b < s.len() ==> (#[trigger] s[a]).0 != (#[trigger] s[b]).0
}

/// The live-window table: every window that has been created and not yet
/// destroyed, keyed by its identifier.
pub struct WindowTable {
    entries: Vec<(u32, WindowData)>,
}

impl View for WindowTable {
    type V = Map<u32, WinView>;

    closed spec fn view(&self) -> Map<u32, WinView> {
        as_win_map(self.entries@)
    }
}

impl WindowTable {
    /// Identifiers are unique and every surface is well-formed.
    pub closed spec fn wf(self) -> bool {
        &&& unique_ids(self.entries@)
        &&& forall|i: int|
            0 <= i < self.entries@.len() ==> (#[trigger] self.entries@[i]).1.surface.wf()
    }

    pub fn new() -> (r: WindowTable)
        ensures
            r.wf(),
            r@ == Map::<u32, WinView>::empty(),
    {
        WindowTable { entries: Vec::new() }
    }

    pub fn len(&self) -> (r: usize)
        requires
            self.wf(),
        ensures
            r == self@.dom().len(),
            r == 0 ==> self@ == Map::<u32, WinView>::empty(),
    {
        proof {
            lemma_win_map_dom_len(self.entries@);
            if self.entries@.len() == 0 {
                assert(self@ =~= Map::<u32, WinView>::empty());
            }
        }
        self.entries.len()
    }

    /// Index of the pair carrying `id`, if one does.
    fn index_of(&self, id: u32) -> (r: Option<usize>)
        ensures
            match r {
                Some(i) => i < self.entries@.len() && self.entries@[i as int].0 == id,
                None => forall|i: int|
                    0 <= i < self.entries@.len() ==> (#[trigger] self.entries@[i]).0 != id,
            },
    {
        let n = self.entries.len();
        let mut i: usize = 0;
        while i < n
            invariant
                i <= n,
                n == self.entries@.len(),
                forall|j: int| 0 <= j < i ==> (#[trigger] self.entries@[j]).0 != id,
            decreases n - i,
        {
            if self.entries[i].0 == id {
                return Some(i);
            }
            i = i + 1;
        }
        None
    }

    pub fn contains(&self, id: u32) -> (r: bool)
        ensures
            r == self@.contains_key(id),
    {
        proof {
            lemma_as_win_map_contains(self.entries@, id);
        }
        self.index_of(id).is_some()
    }

    /// Registers a fresh window.
    pub fn insert(&mut self, id: u32, data: WindowData)
        requires
            old(self).wf(),
            !old(self)@.contains_key(id),
            data.surface.wf(),
        ensures
            final(self).wf(),
            final(self)@ == old(self)@.insert(id, data@),
    {
        proof {
            lemma_as_win_map_contains(self.entries@, id);
        }
        self.entries.push((id, data));
        proof {
            assert(self.entries@.drop_last() =~= old(self).entries@);
        }
    }

    /// Removes and returns the window registered under `id`, if any.
    pub fn remove(&mut self, id: u32) -> (r: Option<WindowData>)
        requires
            old(self).wf(),
        ensures
            final(self).wf(),
            final(self)@ == old(self)@.remove(id),
            match r {
                Some(d) => {
                    &&& old(self)@.contains_key(id)
                    &&& d@ == old(self)@[id]
                    &&& d.surface.wf()
                },
                None => {
                    &&& !old(self)@.contains_key(id)
                    &&& *final(self) == *old(self)
                },
            },
    {
        proof {
            lemma_as_win_map_contains(self.entries@, id);
        }
        match self.index_of(id) {
            Some(i) => {
                proof {
                    lemma_as_win_map_index(self.entries@, i as int);
                    lemma_as_win_map_remove(self.entries@, i as int);
                }
                let (_, data) = self.entries.remove(i);
                proof {
                    assert(forall|a: int, b: int|
                        0 <= a < b < self.entries@.len() ==> (#[trigger] self.entries@[a]).0 != (
                        #[trigger] self.entries@[b]).0);
                }
                Some(data)
            },
            None => {
                proof {
                    assert(final(self)@ =~= old(self)@.remove(id));
                }
                None
            },
        }
    }

    /// The window registered under `id`, if any.
    pub fn get(&self, id: u32) -> (r: Option<&WindowData>)
        requires
            self.wf(),
        ensures
            match r {
                Some(d) => {
                    &&& self@.contains_key(id)
                    &&& d@ == self@[id]
                    &&& d.surface.wf()
                },
                None => !self@.contains_key(id),
            },
    {
        proof {
            lemma_as_win_map_contains(self.entries@, id);
        }
        match self.index_of(id) {
            Some(i) => {
                proof {
                    lemma_as_win_map_index(self.entries@, i as int);
                }
                Some(&self.entries[i].1)
            },
            None => None,
        }
    }

    /// Removes some window, in no particular order; `None` exactly when
    /// the table is empty.
    pub fn pop(&mut self) -> (r: Option<(u32, WindowData)>)
        requires
            old(self).wf(),
        ensures
            final(self).wf(),
            old(self)@.dom().finite(),
            final(self)@.dom().finite(),
            match r {
                Some(p) => {
                    &&& old(self)@.contains_key(p.0)
                    &&& p.1@ == old(self)@[p.0]
                    &&& final(self)@ == old(self)@.remove(p.0)
                    &&& final(self)@.dom().len() == old(self)@.dom().len() - 1
                },
                None => {
                    &&& old(self)@ == Map::<u32, WinView>::empty()
                    &&& *final(self) == *old(self)
                },
            },
    {
        proof {
            lemma_win_map_dom_len(self.entries@);
        }
        let n = self.entries.len();
        if n == 0 {
            proof {
                assert(self@ =~= Map::<u32, WinView>::empty());
            }
            return None;
        }
        proof {
            lemma_as_win_map_index(self.entries@, n - 1);
            lemma_as_win_map_remove(self.entries@, n - 1);
        }
        let (id, data) = self.entries.remove(n - 1);
        proof {
            assert(old(self).entries@.remove(n - 1) =~= self.entries@);
            assert(forall|a: int, b: int|
                0 <= a < b < self.entries@.len() ==> (#[trigger] self.entries@[a]).0 != (
                #[trigger] self.entries@[b]).0);
            lemma_win_map_dom_len(self.entries@);
        }
        Some((id, data))
    }

/// The table's map always has a finite domain.
    pub proof fn lemma_finite(&self)
        requires
            self.wf(),
        ensures
            self@.dom().finite(),
    {
        lemma_win_map_dom_len(self.entries@);
    }
}

/// With unique identifiers, the map's domain is as large as the table.
proof fn lemma_win_map_dom_len(s: Seq<(u32, WindowData)>)
    requires
        unique_ids(s),
    ensures
        as_win_map(s).dom().finite(),
        as_win_map(s).dom().len() == s.len(),
    decreases s.len(),
{
    if s.len() > 0 {
        assert(unique_ids(s.drop_last())) by {
            assert(forall|a: int, b: int|
                0 <= a < b < s.len() - 1 ==> (#[trigger] s.drop_last()[a]).0 != (
                #[trigger] s.drop_last()[b]).0);
        }
        lemma_win_map_dom_len(s.drop_last());
        lemma_as_win_map_contains(s.drop_last(), s.last().0);
        assert(!as_win_map(s.drop_last()).contains_key(s.last().0)) by {
            if as_win_map(s.drop_last()).contains_key(s.last().0) {
                let j = choose|j: int|
                    0 <= j < s.len() - 1 && (#[trigger] s.drop_last()[j]).0 == s.last().0;
                assert(s[j].0 == s[s.len() - 1].0);
            }
        }
        vstd::set::axiom_set_insert_len(as_win_map(s.drop_last()).dom(), s.last().0);
        assert(as_win_map(s).dom() =~= as_win_map(s.drop_last()).dom().insert(s.last().0));
    } else {
        assert(as_win_map(s).dom() =~= Set::<u32>::empty());
    }
}


// ---------------------------------------------------------------------
// The connection: the explicit context object every operation runs in.
// ---------------------------------------------------------------------
/// Spec-level state of a connection (the requeue of synthesized events is
/// tracked separately, by `Connection::requeue`).
pub struct ConnView {
    pub shm: bool,
    pub hidden_window: u32,
    pub atoms: AtomCollection,
    pub registry: Seq<(Vec<u8>, u32)>,
    pub windows: Map<u32, WinView>,
    pub owner: Seq<(MediaTypeView, Seq<u8>)>,
    pub sel_reply: Option<bool>,
    pub chunk_ready: bool,
    pub pending_requests: Seq<SelectionRequest>,
    pub pending_release: Seq<ReleasePlan>,
}

/// The logical events a button-state notification decomposes into, in
/// fixed order: left, right, middle, one per reported button.
pub open spec fn button_events(window: u32, x: i32, y: i32, detail: u8, pressed: bool) -> Seq<
    Event,
> {
    let state = if pressed {
        ButtonState::Pressed
    } else {
        ButtonState::Released
    };
    (if detail & 1u8 != 0u8 {
        seq![
            Event::WindowEvent {
                window: WindowId(window),
                event: WindowEvent::MouseButton { x, y, state, button: MouseButton::Left },
            },
        ]
    } else {
        Seq::<Event>::empty()
    }) + (if detail & 2u8 != 0u8 {
        seq![
            Event::WindowEvent {
                window: WindowId(window),
                event: WindowEvent::MouseButton { x, y, state, button: MouseButton::Right },
            },
        ]
    } else {
        Seq::<Event>::empty()
    }) + (if detail & 4u8 != 0u8 {
        seq![
            Event::WindowEvent {
                window: WindowId(window),
                event: WindowEvent::MouseButton { x, y, state, button: MouseButton::Middle },
            },
        ]
    } else {
        Seq::<Event>::empty()
    })
}

/// Whether a geometry notification reports dimensions other than the
/// tracked ones, which is what makes it a real resize.
pub open spec fn resizes(v: ConnView, window: u32, width: u16, height: u16) -> bool {
    v.windows.contains_key(window) && (v.windows[window].surface.width != width
        || v.windows[window].surface.height != height)
}

/// The logical events one native event translates to, in delivery order.
/// Most native events yield one or none; a multi-button notification
/// decomposes into several.
pub open spec fn translate(v: ConnView, ev: NativeEvent) -> Seq<Event> {
    match ev {
        NativeEvent::Button { window, x, y, detail, pressed } => button_events(
            window,
            x,
            y,
            detail,
            pressed,
        ),
        NativeEvent::Configure { window, width, height } => {
            if resizes(v, window, width, height) {
                seq![
                    Event::WindowEvent {
                        window: WindowId(window),
                        event: WindowEvent::Resize {
                            width: width as u32,
                            height: height as u32,
                        },
                    },
                ]
            } else {
                Seq::<Event>::empty()
            }
        },
        NativeEvent::Enter { window, x, y } => seq![
            Event::WindowEvent { window: WindowId(window), event: WindowEvent::MouseEnter { x, y } },
        ],
        NativeEvent::Leave { window, x, y } => seq![
            Event::WindowEvent { window: WindowId(window), event: WindowEvent::MouseLeave { x, y } },
        ],
        NativeEvent::Motion { window, x, y } => seq![
            Event::WindowEvent { window: WindowId(window), event: WindowEvent::MouseMove { x, y } },
        ],
        NativeEvent::ClientMessage { window, format, data0 } => {
            if format == 32u8 && data0 == v.atoms.wm_delete_window {
                seq![
                    Event::WindowEvent {
                        window: WindowId(window),
                        event: WindowEvent::CloseRequested,
                    },
                ]
            } else {
                Seq::<Event>::empty()
            }
        },
        NativeEvent::Expose { window, count } => {
            if count == 0 {
                seq![
                    Event::WindowEvent { window: WindowId(window), event: WindowEvent::Dirted },
                ]
            } else {
                Seq::<Event>::empty()
            }
        },
        NativeEvent::DestroyNotify { window } => seq![
            Event::WindowEvent { window: WindowId(window), event: WindowEvent::Destroy },
        ],
        _ => Seq::<Event>::empty(),
    }
}

/// The per-window state after a resize-triggered reallocation: a fresh
/// zeroed buffer of exactly the reported geometry, with the backing policy
/// re-evaluated.
pub open spec fn resized_win(v: ConnView, window: u32, width: u16, height: u16) -> WinView {
    WinView {
        surface: SurfaceView {
            format: v.windows[window].surface.format,
            width: width as nat,
            height: height as nat,
            pixels: Seq::new((width * height) as nat, |i: int| 0u32),
        },
        backing: if v.shm {
            Backing::Shared
        } else {
            Backing::Private
        },
    }
}

/// How one native event changes the connection state: a real resize
/// installs a fresh surface; a native destroy notification tears the
/// window down (and schedules the native cleanup) before its event is
/// delivered; the clipboard records replies, chunk signals and peer
/// requests; everything else changes nothing.
pub open spec fn step_view(v: ConnView, ev: NativeEvent) -> ConnView {
    match ev {
        NativeEvent::Configure { window, width, height } => {
            if resizes(v, window, width, height) {
                ConnView {
                    windows: v.windows.insert(window, resized_win(v, window, width, height)),
                    ..v
                }
            } else {
                v
            }
        },
        NativeEvent::DestroyNotify { window } => {
            if v.windows.contains_key(window) {
                ConnView {
                    windows: v.windows.remove(window),
                    pending_release: v.pending_release.push(
                        ReleasePlan { window, backing: v.windows[window].backing },
                    ),
                    ..v
                }
            } else {
                v
            }
        },
        NativeEvent::SelectionNotify { property_set } => ConnView {
            sel_reply: Some(property_set),
            ..v
        },
        NativeEvent::PropertyNotify { window, atom, new_value } => {
            if window == v.hidden_window && atom == v.atoms.clipboard_receiver && new_value {
                ConnView { chunk_ready: true, ..v }
            } else {
                v
            }
        },
        NativeEvent::SelectionRequest(req) => ConnView {
            pending_requests: v.pending_requests.push(req),
            ..v
        },
        _ => v,
    }
}

/// The logical events a whole run of native events yields, each translated
/// against the state the ones before it left behind.
pub open spec fn drain(v: ConnView, ns: Seq<NativeEvent>) -> Seq<Event>
    decreases ns.len(),
{
    if ns.len() == 0 {
        Seq::<Event>::empty()
    } else {
        translate(v, ns.first()) + drain(step_view(v, ns.first()), ns.drop_first())
    }
}

/// No synthesized `Destroy` event still queued names a live window: its
/// teardown ran when the event was translated.
pub open spec fn queued_destroy_ok(requeue: Seq<Event>, windows: Map<u32, WinView>) -> bool {
    forall|i: int|
        0 <= i < requeue.len() ==> match #[trigger] requeue[i] {
            Event::WindowEvent { window, event } => {
                (event is Destroy ==> !windows.contains_key(window.0))
            },
            _ => true,
        }
}

/// The synthesized `Destroy` event for one window.
pub open spec fn destroy_event(id: u32) -> Event {
    Event::WindowEvent { window: WindowId(id), event: WindowEvent::Destroy }
}

/// The `Resize` event a geometry change for one window translates to.
pub open spec fn resize_event(id: u32, width: u16, height: u16) -> Event {
    Event::WindowEvent {
        window: WindowId(id),
        event: WindowEvent::Resize { width: width as u32, height: height as u32 },
    }
}

/// The connection state after a whole run of native events, applied in
/// order.
pub open spec fn steps_view(v: ConnView, ns: Seq<NativeEvent>) -> ConnView
    decreases ns.len(),
{
    if ns.len() == 0 {
        v
    } else {
        steps_view(step_view(v, ns.first()), ns.drop_first())
    }
}

/// Stepping a run of events and then one more is stepping the extended
/// run.
proof fn lemma_steps_view_snoc(v: ConnView, ns: Seq<NativeEvent>)
    requires
        ns.len() > 0,
    ensures
        steps_view(v, ns) == step_view(steps_view(v, ns.drop_last()), ns.last()),
    decreases ns.len(),
{
    if ns.len() == 1 {
        assert(ns.drop_last() =~= Seq::<NativeEvent>::empty());
        assert(ns.drop_first() =~= Seq::<NativeEvent>::empty());
    } else {
        lemma_steps_view_snoc(step_view(v, ns.first()), ns.drop_first());
        assert(ns.drop_first().drop_last() =~= ns.drop_last().drop_first());
        assert(ns.drop_first().last() == ns.last());
        assert(ns.drop_last().first() == ns.first());
        assert(ns.drop_last().len() > 0);
    }
}

/// Everything the queued-destroy invariant says survives when the live
/// windows only shrink.
proof fn lemma_queued_ok_shrink(q: Seq<Event>, w1: Map<u32, WinView>, w2: Map<u32, WinView>)
    requires
        queued_destroy_ok(q, w1),
        forall|k: u32| #[trigger] w2.contains_key(k) ==> w1.contains_key(k),
    ensures
        queued_destroy_ok(q, w2),
{
}

/// One connection to the native display system, re-architected from a
/// process-wide singleton into an explicitly passed context: the protocol
/// atoms and capability flags fixed at handshake time, the live-window
/// table, the requeue of synthesized events, and the clipboard state.
///
/// The handshake, every wire transfer and every native resource live with
/// the transport adapter; this object makes all the decisions on the plain
/// values the adapter hands it.
pub struct Connection {
    shm: bool,
    hidden_window: u32,
    atoms: AtomCollection,
    registry: AtomRegistry,
    windows: WindowTable,
    requeue: VecDeque<Event>,
    owner: ClipboardOwner,
    sel_reply: Option<bool>,
    chunk_ready: bool,
    pending_requests: VecDeque<SelectionRequest>,
    pending_release: VecDeque<ReleasePlan>,
}

impl View for Connection {
    type V = ConnView;

    closed spec fn view(&self) -> ConnView {
        ConnView {
            shm: self.shm,
            hidden_window: self.hidden_window,
            atoms: self.atoms,
            registry: self.registry.entries(),
            windows: self.windows@,
            owner: self.owner.contents(),
            sel_reply: self.sel_reply,
            chunk_ready: self.chunk_ready,
            pending_requests: self.pending_requests@,
            pending_release: self.pending_release@,
        }
    }
}

impl Connection {
    /// The synthesized events waiting to be delivered ahead of the next
    /// native poll, oldest first.
    pub closed spec fn requeue(self) -> Seq<Event> {
        self.requeue@
    }

    /// The live-window table is consistent and no queued `Destroy` names a
    /// live window.
    pub closed spec fn wf(self) -> bool {
        &&& self.windows.wf()
        &&& queued_destroy_ok(self.requeue@, self.windows@)
    }

    /// Builds the context for one freshly established connection:
    /// `hidden_window` and `atoms` are what the handshake created and
    /// resolved, `shm` whether shared-memory buffers are available.
    pub fn new(shm: bool, hidden_window: u32, atoms: AtomCollection) -> (r: Connection)
        ensures
            r.wf(),
            r@ == (ConnView {
                shm,
                hidden_window,
                atoms,
                registry: Seq::<(Vec<u8>, u32)>::empty(),
                windows: Map::<u32, WinView>::empty(),
                owner: Seq::<(MediaTypeView, Seq<u8>)>::empty(),
                sel_reply: None,
                chunk_ready: false,
                pending_requests: Seq::<SelectionRequest>::empty(),
                pending_release: Seq::<ReleasePlan>::empty(),
            }),
            r.requeue() == Seq::<Event>::empty(),
    {
        let r = Connection {
            shm,
            hidden_window,
            atoms,
            registry: AtomRegistry::new(),
            windows: WindowTable::new(),
            requeue: VecDeque::new(),
            owner: ClipboardOwner::new(),
            sel_reply: None,
            chunk_ready: false,
            pending_requests: VecDeque::new(),
            pending_release: VecDeque::new(),
        };
        r
    }

    pub fn atoms(&self) -> (r: AtomCollection)
        ensures
            r == self@.atoms,
    {
        self.atoms
    }

    pub fn hidden_window(&self) -> (r: u32)
        ensures
            r == self@.hidden_window,
    {
        self.hidden_window
    }

    pub fn shm_available(&self) -> (r: bool)
        ensures
            r == self@.shm,
    {
        self.shm
    }

    /// The clipboard ownership table, for answering peer requests.
    pub fn clipboard(&self) -> (r: &ClipboardOwner)
        ensures
            r.contents() == self@.owner,
    {
        &self.owner
    }

    /// The memoized name-to-atom registry.
    pub fn atom_registry(&self) -> (r: &AtomRegistry)
        ensures
            r.entries() == self@.registry,
    {
        &self.registry
    }

    /// Translates one native event, applies its effects, and returns the
    /// logical events it yields, in order. The synthesized-event requeue is
    /// untouched.
    fn dispatch_core(&mut self, ev: NativeEvent) -> (evs: Vec<Event>)
        requires
            old(self).wf(),
        ensures
            final(self).wf(),
            final(self)@ == step_view(old(self)@, ev),
            evs@ == translate(old(self)@, ev),
            final(self).requeue() == old(self).requeue(),
            queued_destroy_ok(evs@, final(self)@.windows),
    {
        let mut evs: Vec<Event> = Vec::new();
        match ev {
            NativeEvent::Button { window, x, y, detail, pressed } => {
                let state = if pressed {
                    ButtonState::Pressed
                } else {
                    ButtonState::Released
                };
                if detail & 1u8 != 0u8 {
                    evs.push(
                        Event::WindowEvent {
                            window: WindowId(window),
                            event: WindowEvent::MouseButton {
                                x,
                                y,
                                state,
                                button: MouseButton::Left,
                            },
                        },
                    );
                }
                if detail & 2u8 != 0u8 {
                    evs.push(
                        Event::WindowEvent {
                            window: WindowId(window),
                            event: WindowEvent::MouseButton {
                                x,
                                y,
                                state,
                                button: MouseButton::Right,
                            },
                        },
                    );
                }
                if detail & 4u8 != 0u8 {
                    evs.push(
                        Event::WindowEvent {
                            window: WindowId(window),
                            event: WindowEvent::MouseButton {
                                x,
                                y,
                                state,
                                button: MouseButton::Middle,
                            },
                        },
                    );
                }
                proof {
                    assert(evs@ =~= button_events(window, x, y, detail, pressed));
                }
            },
            NativeEvent::Configure { window, width, height } => {
                match self.windows.remove(window) {
                    None => {
                        proof {
                            assert(self.windows@ =~= old(self)@.windows);
                            assert(final(self)@ == step_view(old(self)@, ev));
                        }
                    },
                    Some(data) => {
                        let mut data = data;
                        let (w0, h0) = data.surface.size();
                        if w0 == width as u32 && h0 == height as u32 {
                            proof {
                                assert(!resizes(old(self)@, window, width, height));
                            }
                            self.windows.insert(window, data);
                            proof {
                                assert(self.windows@ =~= old(self)@.windows);
                                lemma_queued_ok_shrink(
                                    self.requeue@,
                                    old(self)@.windows,
                                    self.windows@,
                                );
                            }
                        } else {
                            proof {
                                assert(resizes(old(self)@, window, width, height));
                                lemma_mul_u16_bound(width as usize, height as usize);
                            }
                            let cells: usize = (width as usize) * (height as usize);
                            let fresh: Vec<u32> = vec![0u32; cells];
                            proof {
                                assert(fresh@ =~= Seq::new(
                                    (width * height) as nat,
                                    |i: int| 0u32,
                                ));
                            }
                            data.surface.replace(fresh, width as u32, height as u32);
                            data.backing = crate::native::choose_backing(self.shm);
                            self.windows.insert(window, data);
                            evs.push(
                                Event::WindowEvent {
                                    window: WindowId(window),
                                    event: WindowEvent::Resize {
                                        width: width as u32,
                                        height: height as u32,
                                    },
                                },
                            );
                            proof {
                                assert(data@ == resized_win(old(self)@, window, width, height));
                                assert(self.windows@ =~= old(self)@.windows.insert(
                                    window,
                                    resized_win(old(self)@, window, width, height),
                                ));
                                assert(evs@ =~= translate(old(self)@, ev));
                                assert forall|k: u32| #[trigger]
                                    self.windows@.contains_key(k) implies old(
                                    self,
                                )@.windows.contains_key(k) by {}
                                lemma_queued_ok_shrink(
                                    self.requeue@,
                                    old(self)@.windows,
                                    self.windows@,
                                );
                            }
                        }
                    },
                }
            },
            NativeEvent::Enter { window, x, y } => {
                evs.push(
                    Event::WindowEvent {
                        window: WindowId(window),
                        event: WindowEvent::MouseEnter { x, y },
                    },
                );
                proof {
                    assert(evs@ =~= translate(old(self)@, ev));
                }
            },
            NativeEvent::Leave { window, x, y } => {
                evs.push(
                    Event::WindowEvent {
                        window: WindowId(window),
                        event: WindowEvent::MouseLeave { x, y },
                    },
                );
                proof {
                    assert(evs@ =~= translate(old(self)@, ev));
                }
            },
            NativeEvent::Motion { window, x, y } => {
                evs.push(
                    Event::WindowEvent {
                        window: WindowId(window),
                        event: WindowEvent::MouseMove { x, y },
                    },
                );
                proof {
                    assert(evs@ =~= translate(old(self)@, ev));
                }
            },
            NativeEvent::SelectionNotify { property_set } => {
                self.sel_reply = Some(property_set);
            },
            NativeEvent::PropertyNotify { window, atom, new_value } => {
                if window == self.hidden_window && atom == self.atoms.clipboard_receiver
                    && new_value {
                    self.chunk_ready = true;
                }
            },
            NativeEvent::SelectionRequest(req) => {
                self.pending_requests.push_back(req);
            },
            NativeEvent::ClientMessage { window, format, data0 } => {
                if format == 32u8 && data0 == self.atoms.wm_delete_window {
                    evs.push(
                        Event::WindowEvent {
                            window: WindowId(window),
                            event: WindowEvent::CloseRequested,
                        },
                    );
                    proof {
                        assert(evs@ =~= translate(old(self)@, ev));
                    }
                }
            },
            NativeEvent::Expose { window, count } => {
                if count == 0 {
                    evs.push(
                        Event::WindowEvent {
                            window: WindowId(window),
                            event: WindowEvent::Dirted,
                        },
                    );
                    proof {
                        assert(evs@ =~= translate(old(self)@, ev));
                    }
                }
            },
            NativeEvent::DestroyNotify { window } => {
                match self.windows.remove(window) {
                    Some(data) => {
                        self.pending_release.push_back(
                            ReleasePlan { window, backing: data.backing },
                        );
                        proof {
                            lemma_queued_ok_shrink(
                                self.requeue@,
                                old(self)@.windows,
                                self.windows@,
                            );
                        }
                    },
                    None => {
                        proof {
                            assert(self.windows@ =~= old(self)@.windows);
                        }
                    },
                }
                evs.push(
                    Event::WindowEvent {
                        window: WindowId(window),
                        event: WindowEvent::Destroy,
                    },
                );
                proof {
                    assert(evs@ =~= translate(old(self)@, ev));
                }
            },
            NativeEvent::Unknown => {},
        }
        evs
    }

    /// Handles one native event the way a poll does: its first logical
    /// event is returned and any further ones (a decomposed multi-button
    /// notification) are queued, in order, to be drained ahead of the next
    /// native poll.
    pub fn handle_native(&mut self, ev: NativeEvent) -> (r: Option<Event>)
        requires
            old(self).wf(),
        ensures
            final(self).wf(),
            final(self)@ == step_view(old(self)@, ev),
            ({
                let t = translate(old(self)@, ev);
                &&& (t.len() == 0 ==> r is None && final(self).requeue() == old(self).requeue())
                &&& (t.len() > 0 ==> r == Some(t[0]) && final(self).requeue() == old(
                    self,
                ).requeue() + t.skip(1))
            }),
    {
        let evs = self.dispatch_core(ev);
        let n = evs.len();
        if n == 0 {
            return None;
        }
        let first = evs[0];
        let ghost mid = self@;
        let ghost rq0 = self.requeue@;
        let mut i: usize = 1;
        while i < n
            invariant
                1 <= i <= n,
                n == evs@.len(),
                self@ == mid,
                self.windows.wf(),
                queued_destroy_ok(evs@, self@.windows),
                queued_destroy_ok(rq0, self@.windows),
                self.requeue@ == rq0 + evs@.subrange(1, i as int),
            decreases n - i,
        {
            self.requeue.push_back(evs[i]);
            proof {
                assert(self.requeue@ =~= rq0 + evs@.subrange(1, i + 1));
            }
            i = i + 1;
        }
        proof {
            assert(self.requeue@ =~= rq0 + evs@.skip(1));
        }
        Some(first)
    }

    /// Handles one native event while some caller is busy waiting on the
    /// clipboard: every logical event it yields is queued for later
    /// delivery, in order.
    pub fn pump_for_queue(&mut self, ev: NativeEvent)
        requires
            old(self).wf(),
        ensures
            final(self).wf(),
            final(self)@ == step_view(old(self)@, ev),
            final(self).requeue() == old(self).requeue() + translate(old(self)@, ev),
    {
        let evs = self.dispatch_core(ev);
        let n = evs.len();
        let ghost mid = self@;
        let ghost rq0 = self.requeue@;
        let mut i: usize = 0;
        while i < n
            invariant
                i <= n,
                n == evs@.len(),
                self@ == mid,
                self.windows.wf(),
                queued_destroy_ok(evs@, self@.windows),
                queued_destroy_ok(rq0, self@.windows),
                self.requeue@ == rq0 + evs@.subrange(0, i as int),
            decreases n - i,
        {
            self.requeue.push_back(evs[i]);
            proof {
                assert(self.requeue@ =~= rq0 + evs@.subrange(0, i + 1));
            }
            i = i + 1;
        }
        proof {
            assert(evs@.subrange(0, n as int) =~= evs@);
        }
    }

    /// Yields the next unified event, never blocking: a queued synthesized
    /// event first, otherwise the buffered native events are consumed, one
    /// by one, until one yields a logical event or none are left. The
    /// returned event is always the head of the pending logical stream —
    /// per window that stream is in native delivery order, decomposed
    /// sub-events immediately after the event that spawned them — and the
    /// rest of the stream stays pending, so delivery is first-in first-out.
    /// The state advances by exactly the native events consumed, in order
    /// (the existential clause), so a `Destroy` event is returned only
    /// after its window's teardown, and a `Resize` event fresh from the
    /// transport is returned only with the matching surface already
    /// installed. The last guarantee is stated for an empty requeue: an
    /// event requeued during a clipboard wait is delivered later, and a
    /// second geometry change arriving before then supersedes its surface.
    pub fn poll_event(&mut self, natives: &mut VecDeque<NativeEvent>) -> (r: Option<Event>)
        requires
            old(self).wf(),
        ensures
            final(self).wf(),
            ({
                let before = old(self).requeue() + drain(old(self)@, old(natives)@);
                match r {
                    None => before.len() == 0 && final(self).requeue().len() == 0 && drain(
                        final(self)@,
                        final(natives)@,
                    ).len() == 0,
                    Some(e) => before.len() > 0 && e == before[0] && final(self).requeue() + drain(
                        final(self)@,
                        final(natives)@,
                    ) == before.skip(1),
                }
            }),
            exists|k: int|
                #![trigger old(natives)@.skip(k)]
                0 <= k <= old(natives)@.len() && final(natives)@ == old(natives)@.skip(k) && final(self)@ == steps_view(old(self)@, old(natives)@.take(k)),
            forall|id: u32|
                r == Some(destroy_event(id)) ==> !final(self)@.windows.contains_key(id),
            forall|id: u32, w: u16, h: u16|
                old(self).requeue().len() == 0 && r == Some(resize_event(id, w, h)) ==> final(self)@.windows.contains_key(id) && final(self)@.windows[id].surface.width == w as nat
                    && final(self)@.windows[id].surface.height == h as nat,
    {
        let ghost before = old(self).requeue() + drain(old(self)@, old(natives)@);
        match self.requeue.pop_front() {
            Some(e) => {
                proof {
                    assert(old(self).requeue() =~= seq![e] + self.requeue@);
                    assert(before =~= seq![e] + (self.requeue@ + drain(self@, natives@)));
                    assert(before.skip(1) =~= self.requeue@ + drain(self@, natives@));
                    assert(old(self).requeue()[0] == e);
                    assert(natives@ =~= old(natives)@.skip(0));
                    assert(old(natives)@.take(0) =~= Seq::<NativeEvent>::empty());
                    assert(self@ == steps_view(old(self)@, old(natives)@.take(0)));
                    assert forall|id: u32|
                        Some(e) == Some(destroy_event(id)) implies !self@.windows.contains_key(
                        id,
                    ) by {
                        assert(old(self).requeue@[0] == destroy_event(id));
                        match old(self).requeue@[0] {
                            Event::WindowEvent { window, event } => {
                                assert(window.0 == id);
                            },
                            _ => {},
                        }
                    }
                }
                return Some(e);
            },
            None => {},
        }
        let ghost b0 = drain(self@, natives@);
        let ghost mut k: int = 0;
        proof {
            assert(before =~= b0);
            assert(natives@ =~= old(natives)@.skip(0));
            assert(old(natives)@.take(0) =~= Seq::<NativeEvent>::empty());
        }
        #[verifier::loop_isolation(false)]
        loop
            invariant
                self.wf(),
                self.requeue@.len() == 0,
                drain(self@, natives@) == b0,
                0 <= k <= old(natives)@.len(),
                natives@ == old(natives)@.skip(k),
                self@ == steps_view(old(self)@, old(natives)@.take(k)),
            decreases natives@.len(),
        {
            let ghost natives0 = natives@;
            match natives.pop_front() {
                None => {
                    proof {
                        assert(final(natives)@ == old(natives)@.skip(k));
                    }
                    return None;
                },
                Some(ev) => {
                    proof {
                        assert(natives0.first() == ev);
                        assert(natives0.drop_first() =~= natives@);
                        assert(b0 == translate(self@, ev) + drain(
                            step_view(self@, ev),
                            natives@,
                        ));
                        assert(old(natives)@[k] == ev);
                    }
                    let ghost pre = self@;
                    let out = self.handle_native(ev);
                    proof {
                        k = k + 1;
                        assert(natives@ =~= old(natives)@.skip(k));
                        lemma_steps_view_snoc(old(self)@, old(natives)@.take(k));
                        assert(old(natives)@.take(k).drop_last() =~= old(natives)@.take(k - 1));
                        assert(old(natives)@.take(k).last() == ev);
                        assert(self@ == steps_view(old(self)@, old(natives)@.take(k)));
                    }
                    match out {
                        Some(e) => {
                            proof {
                                let t = translate(pre, ev);
                                assert(b0 == t + drain(self@, natives@));
                                assert(e == b0[0]);
                                assert(self.requeue@ + drain(self@, natives@) =~= b0.skip(1));
                                assert forall|id: u32|
                                    Some(e) == Some(destroy_event(id)) implies !self
                                    @.windows.contains_key(id) by {
                                    match ev {
                                        NativeEvent::DestroyNotify { window } => {
                                            assert(translate(pre, ev) == seq![
                                                destroy_event(window),
                                            ]);
                                        },
                                        _ => {},
                                    }
                                }
                                assert forall|id: u32, w: u16, h: u16|
                                    Some(e) == Some(resize_event(id, w, h)) implies self
                                    @.windows.contains_key(id) && self@.windows[id].surface.width
                                    == w as nat && self@.windows[id].surface.height
                                    == h as nat by {
                                    match ev {
                                        NativeEvent::Configure { window, width, height } => {
                                            assert(resizes(pre, window, width, height));
                                            assert(e == resize_event(window, width, height));
                                            assert(self@.windows == pre.windows.insert(
                                                window,
                                                resized_win(pre, window, width, height),
                                            ));
                                        },
                                        _ => {},
                                    }
                                }
                            }
                            return Some(e);
                        },
                        None => {
                            proof {
                                assert(translate(pre, ev).len() == 0);
                                assert(drain(self@, natives@) =~= b0);
                            }
                        },
                    }
                },
            }
        }
    }

    /// Whether a synthesized `Destroy` event for `id` is still queued and
    /// undelivered. A window identifier must not be registered again while
    /// one is: the display system does not reuse an identifier before its
    /// old window's destruction has been observed.
    pub fn has_queued_destroy(&self, id: WindowId) -> (r: bool)
        ensures
            r == exists|i: int|
                0 <= i < self.requeue().len() && self.requeue()[i] == destroy_event(id.0),
    {
        let wanted = Event::WindowEvent { window: id, event: WindowEvent::Destroy };
        let n = self.requeue.len();
        let mut i: usize = 0;
        while i < n
            invariant
                i <= n,
                n == self.requeue@.len(),
                wanted == destroy_event(id.0),
                forall|j: int| 0 <= j < i ==> self.requeue@[j] != destroy_event(id.0),
            decreases n - i,
        {
            if self.requeue[i] == wanted {
                return true;
            }
            i = i + 1;
        }
        false
    }

    /// Registers a fresh window under the identifier the display system
    /// allocated for it, with a zeroed surface of the requested format and
    /// geometry, backed per the capability policy. The window is in the
    /// live-window table before this returns, so it is immediately visible
    /// to event dispatch. Fails with `InsufficientMemory` exactly when the
    /// buffer cannot be addressed.
    pub fn create_window(&mut self, builder: &WindowBuilder, native_id: u32) -> (r: Result<
        Window,
        OSError,
    >)
        requires
            old(self).wf(),
            !old(self)@.windows.contains_key(native_id),
            forall|i: int|
                0 <= i < old(self).requeue().len() ==> old(self).requeue()[i] != destroy_event(
                    native_id,
                ),
        ensures
            final(self).wf(),
            final(self).requeue() == old(self).requeue(),
            (builder.width * builder.height <= usize::MAX) <==> r is Ok,
            r matches Ok(w) ==> {
                &&& w.id.0 == native_id
                &&& w.width == builder.width
                &&& w.height == builder.height
                &&& final(self)@ == (ConnView {
                    windows: old(self)@.windows.insert(
                        native_id,
                        WinView {
                            surface: SurfaceView {
                                format: builder.surface_format,
                                width: builder.width as nat,
                                height: builder.height as nat,
                                pixels: Seq::new(
                                    (builder.width * builder.height) as nat,
                                    |i: int| 0u32,
                                ),
                            },
                            backing: if old(self)@.shm {
                                Backing::Shared
                            } else {
                                Backing::Private
                            },
                        },
                    ),
                    ..old(self)@
                })
            },
            r matches Err(e) ==> e is InsufficientMemory && final(self)@ == old(self)@,
    {
        let surface = match Surface::new(builder.surface_format, builder.width, builder.height) {
            Ok(s) => s,
            Err(e) => {
                return Err(e);
            },
        };
        let backing = crate::native::choose_backing(self.shm);
        self.windows.insert(native_id, WindowData { surface, backing });
        proof {
            assert forall|i: int| 0 <= i < self.requeue@.len() implies match #[trigger] self
                .requeue@[i] {
                Event::WindowEvent { window, event } => {
                    (event is Destroy ==> !self.windows@.contains_key(window.0))
                },
                _ => true,
            } by {
                assert(self.requeue@ == old(self).requeue@);
                assert(queued_destroy_ok(old(self).requeue@, old(self)@.windows));
                assert(old(self).requeue()[i] != destroy_event(native_id));
                match self.requeue@[i] {
                    Event::WindowEvent { window, event } => {
                        if event is Destroy {
                            if window.0 == native_id {
                                assert(window == WindowId(native_id));
                                assert(event == WindowEvent::Destroy);
                                assert(self.requeue@[i] == destroy_event(native_id));
                                assert(false);
                            } else {
                                assert(match old(self).requeue@[i] {
                                    Event::WindowEvent { window: w2, event: e2 } => (e2 is Destroy
                                        ==> !old(self)@.windows.contains_key(w2.0)),
                                    _ => true,
                                });
                                assert(!old(self)@.windows.contains_key(window.0));
                            }
                        }
                    },
                    _ => {},
                }
            }
        }
        Ok(Window { id: WindowId(native_id), width: builder.width, height: builder.height })
    }

    /// Destroys the window registered under `id`: it leaves the live-window
    /// table and its ordered native cleanup is scheduled. Idempotent — a
    /// second call, or a call after a native destroy notification already
    /// tore the window down, changes nothing, frees nothing twice, and
    /// never fails.
    pub fn destroy_window(&mut self, id: WindowId) -> (released: bool)
        requires
            old(self).wf(),
        ensures
            final(self).wf(),
            released == old(self)@.windows.contains_key(id.0),
            final(self)@ == spec_destroy(old(self)@, id.0),
            final(self).requeue() == old(self).requeue(),
    {
        match self.windows.remove(id.0) {
            Some(data) => {
                self.pending_release.push_back(ReleasePlan { window: id.0, backing: data.backing });
                proof {
                    lemma_queued_ok_shrink(self.requeue@, old(self)@.windows, self.windows@);
                }
                true
            },
            None => false,
        }
    }

    /// Tears down every still-live window through the same idempotent path,
    /// in unspecified order: afterwards none is live, and exactly one
    /// cleanup plan was scheduled per window that was — the count clause
    /// and the per-plan provenance together rule out a duplicate.
    pub fn destroy_all_windows(&mut self)
        requires
            old(self).wf(),
        ensures
            final(self).wf(),
            final(self).requeue() == old(self).requeue(),
            final(self)@.windows == Map::<u32, WinView>::empty(),
            final(self)@.pending_release.len() == old(self)@.pending_release.len() + old(
                self,
            )@.windows.dom().len(),
            final(self)@ == (ConnView {
                windows: Map::<u32, WinView>::empty(),
                pending_release: final(self)@.pending_release,
                ..old(self)@
            }),
            final(self)@.pending_release.take(old(self)@.pending_release.len() as int) == old(
                self,
            )@.pending_release,
            forall|j: int|
                #![auto]
                old(self)@.pending_release.len() <= j < final(self)@.pending_release.len() ==> old(
                    self,
                )@.windows.contains_key(final(self)@.pending_release[j].window) && final(self)@.pending_release[j].backing == old(self)@.windows[final(self)@.pending_release[j].window].backing,
            forall|id: u32|
                #![auto]
                old(self)@.windows.contains_key(id) ==> exists|j: int|
                    #![auto]
                    old(self)@.pending_release.len() <= j < final(self)@.pending_release.len()
                        && final(self)@.pending_release[j].window == id,
    {
        let ghost n0 = self.pending_release@.len() as int;
        let ghost w0 = self@.windows;
        proof {
            self.windows.lemma_finite();
            assert(self.pending_release@.take(n0) =~= self.pending_release@);
        }
        loop
            invariant
                self.wf(),
                self.requeue@ == old(self).requeue(),
                self@ == (ConnView {
                    windows: self@.windows,
                    pending_release: self@.pending_release,
                    ..old(self)@
                }),
                n0 == old(self)@.pending_release.len(),
                w0 == old(self)@.windows,
                self.pending_release@.take(n0) == old(self)@.pending_release,
                n0 <= self.pending_release@.len(),
                forall|k: u32| #[trigger]
                    self@.windows.contains_key(k) ==> w0.contains_key(k) && self@.windows[k]
                        == w0[k],
                forall|j: int|
                    #![trigger self.pending_release@[j]]
                    n0 <= j < self.pending_release@.len() ==> w0.contains_key(
                        self.pending_release@[j].window,
                    ) && self.pending_release@[j].backing == w0[self.pending_release@[
                        j
                    ].window].backing,
                forall|id: u32|
                    #![trigger w0.contains_key(id)]
                    w0.contains_key(id) ==> self@.windows.contains_key(id) || exists|j: int|
                        #![trigger self.pending_release@[j]]
                        n0 <= j < self.pending_release@.len() && self.pending_release@[j].window
                            == id,
                self@.windows.dom().finite(),
                w0.dom().finite(),
                self.pending_release@.len() - n0 == w0.dom().len() - self@.windows.dom().len(),
            decreases self@.windows.dom().len(),
        {
            let ghost pr0 = self.pending_release@;
            let ghost w_pre = self@.windows;
            match self.windows.pop() {
                None => {
                    proof {
                        assert(Map::<u32, WinView>::empty().dom() =~= Set::<u32>::empty());
                    }
                    return ;
                },
                Some((id, data)) => {
                    self.pending_release.push_back(
                        ReleasePlan { window: id, backing: data.backing },
                    );
                    proof {
                        assert(self.pending_release@.take(n0) =~= pr0.take(n0));
                        assert forall|w: u32| #[trigger] w0.contains_key(w) implies self
                            .windows@.contains_key(w) || exists|j: int|
                            #![trigger self.pending_release@[j]]
                            n0 <= j < self.pending_release@.len()
                                && self.pending_release@[j].window == w by {
                            if w == id {
                                assert(self.pending_release@[self.pending_release@.len() - 1].window
                                    == id);
                            } else if !self.windows@.contains_key(w) {
                                let j = choose|j: int|
                                    n0 <= j < pr0.len() && (#[trigger] pr0[j]).window == w;
                                assert(self.pending_release@[j].window == w);
                            }
                        }
                        lemma_queued_ok_shrink(self.requeue@, w_pre, self.windows@);
                    }
                },
            }
        }
    }

    /// Writes one pixel of the window's surface, bounds-checked as every
    /// surface write is. Reports whether the window is live at all.
    pub fn put_window_pixel(&mut self, id: WindowId, x: u32, y: u32, pixel: u32) -> (found: bool)
        requires
            old(self).wf(),
        ensures
            final(self).wf(),
            found == old(self)@.windows.contains_key(id.0),
            found ==> final(self)@ == (ConnView {
                windows: old(self)@.windows.insert(
                    id.0,
                    WinView {
                        surface: spec_put(
                            old(self)@.windows[id.0].surface,
                            x as nat,
                            y as nat,
                            pixel,
                        ),
                        backing: old(self)@.windows[id.0].backing,
                    },
                ),
                ..old(self)@
            }),
            !found ==> final(self)@ == old(self)@,
            final(self).requeue() == old(self).requeue(),
    {
        match self.windows.remove(id.0) {
            Some(data) => {
                let mut data = data;
                data.surface.put_u32_pixel(x, y, pixel);
                self.windows.insert(id.0, data);
                proof {
                    assert(self.windows@ =~= old(self)@.windows.insert(
                        id.0,
                        WinView {
                            surface: spec_put(
                                old(self)@.windows[id.0].surface,
                                x as nat,
                                y as nat,
                                pixel,
                            ),
                            backing: old(self)@.windows[id.0].backing,
                        },
                    ));
                    lemma_queued_ok_shrink(self.requeue@, old(self)@.windows, self.windows@);
                }
                true
            },
            None => false,
        }
    }

    /// The window registered under `id`, if it is live.
    pub fn window(&self, id: WindowId) -> (r: Option<&WindowData>)
        requires
            self.wf(),
        ensures
            match r {
                Some(d) => {
                    &&& self@.windows.contains_key(id.0)
                    &&& d@ == self@.windows[id.0]
                    &&& d.surface.wf()
                },
                None => !self@.windows.contains_key(id.0),
            },
    {
        self.windows.get(id.0)
    }

    /// Announces this process as the clipboard owner for `format`, serving
    /// `data`: the table is updated and the format's name is recorded under
    /// `interned_atom`, the handle its one-time registration round-trip
    /// produced. Data moves only when a peer later asks for it.
    pub fn store_on_clipboard(&mut self, media_type: &MediaType, data: &[u8], interned_atom: u32)
        requires
            old(self).wf(),
        ensures
            final(self).wf(),
            final(self).requeue() == old(self).requeue(),
            final(self)@ == (ConnView {
                owner: spec_stored(old(self)@.owner, media_type@, data@),
                registry: final(self)@.registry,
                ..old(self)@
            }),
            spec_lookup(old(self)@.registry, media_type@.essence) matches Some(h) ==> final(self)@.registry == old(self)@.registry && spec_lookup(
                final(self)@.registry,
                media_type@.essence,
            ) == Some(h),
            spec_lookup(old(self)@.registry, media_type@.essence) is None ==> spec_lookup(
                final(self)@.registry,
                media_type@.essence,
            ) == Some(interned_atom),
    {
        self.owner.store(media_type, data);
        let _ = self.registry.resolve(media_type.essence().as_slice(), interned_atom);
    }

    /// Records the handle the display system assigned to `name`, memoized:
    /// a name already resolved keeps its first handle.
    pub fn resolve_atom(&mut self, name: &[u8], fetched: u32) -> (r: u32)
        requires
            old(self).wf(),
        ensures
            final(self).wf(),
            final(self).requeue() == old(self).requeue(),
            final(self)@ == (ConnView { registry: final(self)@.registry, ..old(self)@ }),
            spec_lookup(final(self)@.registry, name@) == Some(r),
            spec_lookup(old(self)@.registry, name@) matches Some(h) ==> r == h && final(self)@.registry == old(self)@.registry,
            spec_lookup(old(self)@.registry, name@) is None ==> r == fetched,
    {
        self.registry.resolve(name, fetched)
    }

    /// Clears the reply slot before a conversion request goes out, so a
    /// stale reply cannot satisfy the new request.
    pub fn begin_conversion(&mut self)
        requires
            old(self).wf(),
        ensures
            final(self).wf(),
            final(self).requeue() == old(self).requeue(),
            final(self)@ == (ConnView { sel_reply: None, ..old(self)@ }),
    {
        self.sel_reply = None;
    }

    /// Takes the owner's conversion reply, if one arrived: whether the
    /// conversion was honoured.
    pub fn take_selection_reply(&mut self) -> (r: Option<bool>)
        requires
            old(self).wf(),
        ensures
            final(self).wf(),
            final(self).requeue() == old(self).requeue(),
            r == old(self)@.sel_reply,
            final(self)@ == (ConnView { sel_reply: None, ..old(self)@ }),
    {
        let r = self.sel_reply;
        self.sel_reply = None;
        r
    }

    /// Takes the incremental-transfer chunk signal, clearing it.
    pub fn take_chunk_ready(&mut self) -> (r: bool)
        requires
            old(self).wf(),
        ensures
            final(self).wf(),
            final(self).requeue() == old(self).requeue(),
            r == old(self)@.chunk_ready,
            final(self)@ == (ConnView { chunk_ready: false, ..old(self)@ }),
    {
        let r = self.chunk_ready;
        self.chunk_ready = false;
        r
    }

    /// Takes the oldest peer request awaiting an answer, if any.
    pub fn take_selection_request(&mut self) -> (r: Option<SelectionRequest>)
        requires
            old(self).wf(),
        ensures
            final(self).wf(),
            final(self).requeue() == old(self).requeue(),
            old(self)@.pending_requests.len() == 0 ==> r is None && final(self)@ == old(self)@,
            old(self)@.pending_requests.len() > 0 ==> r == Some(old(self)@.pending_requests[0])
                && final(self)@ == (ConnView {
                pending_requests: old(self)@.pending_requests.skip(1),
                ..old(self)@
            }),
    {
        let r = self.pending_requests.pop_front();
        proof {
            if old(self)@.pending_requests.len() > 0 {
                assert(self.pending_requests@ =~= old(self)@.pending_requests.skip(1));
            }
        }
        r
    }

    /// Takes the oldest scheduled native cleanup, if any, for the transport
    /// to perform in its stated order.
    pub fn take_release_plan(&mut self) -> (r: Option<ReleasePlan>)
        requires
            old(self).wf(),
        ensures
            final(self).wf(),
            final(self).requeue() == old(self).requeue(),
            old(self)@.pending_release.len() == 0 ==> r is None && final(self)@ == old(self)@,
            old(self)@.pending_release.len() > 0 ==> r == Some(old(self)@.pending_release[0])
                && final(self)@ == (ConnView {
                pending_release: old(self)@.pending_release.skip(1),
                ..old(self)@
            }),
    {
        let r = self.pending_release.pop_front();
        proof {
            if old(self)@.pending_release.len() > 0 {
                assert(self.pending_release@ =~= old(self)@.pending_release.skip(1));
            }
        }
        r
    }
}

/// The state after one application-requested destroy: the window leaves
/// the live table and its cleanup plan is scheduled; a window that is not
/// live leaves everything unchanged.
pub open spec fn spec_destroy(v: ConnView, id: u32) -> ConnView {
    if v.windows.contains_key(id) {
        ConnView {
            windows: v.windows.remove(id),
            pending_release: v.pending_release.push(
                ReleasePlan { window: id, backing: v.windows[id].backing },
            ),
            ..v
        }
    } else {
        v
    }
}

/// Destroy is idempotent: destroying twice is destroying once, and
/// destroying after a native destroy notification already tore the window
/// down changes nothing — so nothing is ever freed twice.
pub proof fn lemma_destroy_idempotent(v: ConnView, id: u32)
    ensures
        spec_destroy(spec_destroy(v, id), id) == spec_destroy(v, id),
        spec_destroy(step_view(v, NativeEvent::DestroyNotify { window: id }), id) == step_view(
            v,
            NativeEvent::DestroyNotify { window: id },
        ),
{
}

/// A multi-button notification decomposes into one event per reported
/// button, in the fixed left-right-middle order, all for the same window
/// and coordinates — the head is delivered at once and the rest are queued
/// ahead of any later native event.
pub proof fn lemma_button_decomposition(v: ConnView, window: u32, x: i32, y: i32, pressed: bool)
    ensures
        ({
            let both = translate(
                v,
                NativeEvent::Button { window, x, y, detail: 3u8, pressed },
            );
            let state = if pressed {
                ButtonState::Pressed
            } else {
                ButtonState::Released
            };
            both == seq![
                Event::WindowEvent {
                    window: WindowId(window),
                    event: WindowEvent::MouseButton { x, y, state, button: MouseButton::Left },
                },
                Event::WindowEvent {
                    window: WindowId(window),
                    event: WindowEvent::MouseButton { x, y, state, button: MouseButton::Right },
                },
            ]
        }),
        step_view(v, NativeEvent::Button { window, x, y, detail: 3u8, pressed }) == v,
{
    let state = if pressed {
        ButtonState::Pressed
    } else {
        ButtonState::Released
    };
    assert(3u8 & 1u8 != 0u8 && 3u8 & 2u8 != 0u8 && 3u8 & 4u8 == 0u8) by (bit_vector);
    assert(button_events(window, x, y, 3u8, pressed) =~= seq![
        Event::WindowEvent {
            window: WindowId(window),
            event: WindowEvent::MouseButton { x, y, state, button: MouseButton::Left },
        },
        Event::WindowEvent {
            window: WindowId(window),
            event: WindowEvent::MouseButton { x, y, state, button: MouseButton::Right },
        },
    ]);
}

/// The product of two values below 2^16 stays below 2^32, so a resize
/// buffer's cell count is always addressable.
#[verifier::nonlinear]
proof fn lemma_mul_u16_bound(a: usize, b: usize)
    requires
        a <= 0xFFFFusize,
        b <= 0xFFFFusize,
    ensures
        a * b <= 0xFFFE_0001usize,
{
}

/// The resize race resolved: a geometry notification that reports new
/// dimensions yields exactly one `Resize` event, and the window's surface
/// then has exactly the reported dimensions — `handle_native` installs the
/// new surface in the same step that produces the event, so the event is
/// never paired with a stale buffer.
pub proof fn lemma_resize_matches_surface(v: ConnView, window: u32, width: u16, height: u16)
    requires
        resizes(v, window, width, height),
    ensures
        ({
            let ev = NativeEvent::Configure { window, width, height };
            let after = step_view(v, ev);
            &&& translate(v, ev) == seq![
                Event::WindowEvent {
                    window: WindowId(window),
                    event: WindowEvent::Resize { width: width as u32, height: height as u32 },
                },
            ]
            &&& after.windows.contains_key(window)
            &&& after.windows[window].surface.width == width as nat
            &&& after.windows[window].surface.height == height as nat
            &&& after.windows[window].surface.wf()
            &&& after.windows[window].surface.format == v.windows[window].surface.format
        }),
{
}

} // verus!
