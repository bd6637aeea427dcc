use vstd::prelude::*;

use crate::error::OSError;

verus! {

/// Pixel layout of a surface's buffer, four bytes per pixel either way.
#[derive(Debug, Copy, Clone, Ord, PartialOrd, Eq, PartialEq, Hash, Structural)]
pub enum Format {
    Argb8888,
    Xrgb8888,
}

impl Default for Format {
    fn default() -> (r: Self)
        ensures
            r == Format::Argb8888,
    {
        Format::Argb8888
    }
}

/// The metadata of one installed buffer: what a reader observes as a single
/// snapshot. In the native implementation this triple travels together with
/// the buffer pointer through one wide atomic swap.
pub struct SurfaceMeta {
    pub width: nat,
    pub height: nat,
    pub buffer_len: nat,
}

/// Mathematical view of a surface: its pixel cells plus the installed
/// metadata snapshot.
pub struct SurfaceView {
    pub format: Format,
    pub width: nat,
    pub height: nat,
    pub pixels: Seq<u32>,
}

impl SurfaceView {
    /// The metadata triple a reader observes.
    pub open spec fn meta(self) -> SurfaceMeta {
        SurfaceMeta { width: self.width, height: self.height, buffer_len: self.pixels.len() }
    }

    /// A buffer always covers the declared geometry.
    pub open spec fn wf(self) -> bool {
        self.pixels.len() >= self.width * self.height
    }

    /// Index of cell (x, y) in the flat buffer.
    pub open spec fn cell(self, x: nat, y: nat) -> int {
        y * self.width + x as int
    }

    /// Whether (x, y) lies inside `[0,width) x [0,height)`.
    pub open spec fn in_bounds(self, x: nat, y: nat) -> bool {
        x < self.width && y < self.height
    }
}

/// Effect of one bounds-checked pixel write: the cell is updated when the
/// coordinates are in bounds, and nothing at all changes otherwise.
pub open spec fn spec_put(v: SurfaceView, x: nat, y: nat, pixel: u32) -> SurfaceView {
    if v.in_bounds(x, y) {
        SurfaceView { pixels: v.pixels.update(v.cell(x, y), pixel), ..v }
    } else {
        v
    }
}

/// A window's pixel buffer together with its declared geometry.
///
/// The native backing region is shared with the display server; here the
/// buffer is held as plain cells, and a resize installs a whole new
/// (buffer, width, height) tuple at once, so a reader can never observe the
/// new width next to the old buffer. The ghost `installed` sequence records
/// every snapshot that was ever installed.
pub struct Surface {
    format: Format,
    width: u32,
    height: u32,
    pixels: Vec<u32>,
    installed: Ghost<Seq<SurfaceMeta>>,
}

impl View for Surface {
    type V = SurfaceView;

    closed spec fn view(&self) -> SurfaceView {
        SurfaceView {
            format: self.format,
            width: self.width as nat,
            height: self.height as nat,
            pixels: self.pixels@,
        }
    }
}

impl Surface {
    /// Every metadata snapshot that was installed over this surface's
    /// lifetime, oldest first. `size` always reads the last entry whole,
    /// never parts of two.
    pub closed spec fn installed(self) -> Seq<SurfaceMeta> {
        self.installed@
    }

    /// Well-formedness: the buffer covers the geometry, and the observable
    /// snapshot is exactly the one installed last. Constructors establish
    /// it and every method preserves it.
    pub closed spec fn wf(self) -> bool {
        &&& self@.wf()
        &&& self.installed@.len() > 0
        &&& self.installed@.last() == self@.meta()
    }

    /// What `wf` guarantees, spelled out for callers.
    pub proof fn lemma_wf(self)
        requires
            self.wf(),
        ensures
            self@.wf(),
            self.installed().len() > 0,
            self.installed().last() == self@.meta(),
    {
    }

    /// Allocates a zeroed buffer covering `width x height` cells.
    /// Fails exactly when the cell count does not fit the address space,
    /// the expected behaviour under memory pressure.
    pub fn new(format: Format, width: u32, height: u32) -> (r: Result<Surface, OSError>)
        ensures
            (width * height <= usize::MAX) <==> r is Ok,
            r matches Ok(s) ==> {
                &&& s.wf()
                &&& s@.format == format
                &&& s@.width == width
                &&& s@.height == height
                &&& s@.pixels == Seq::new((width * height) as nat, |i: int| 0u32)
                &&& s.installed() == seq![s@.meta()]
            },
            r matches Err(e) ==> e is InsufficientMemory,
    {
        proof {
            lemma_mul_u32_bound(width as u64, height as u64);
        }
        let cells_wide: u64 = (width as u64) * (height as u64);
        if cells_wide > usize::MAX as u64 {
            return Err(OSError::InsufficientMemory);
        }
        let cells: usize = cells_wide as usize;
        let pixels: Vec<u32> = vec![0u32; cells];
        proof {
            assert(pixels@ =~= Seq::new((width * height) as nat, |i: int| 0u32));
        }
        let ghost hist = seq![
            SurfaceMeta {
                width: width as nat,
                height: height as nat,
                buffer_len: (width * height) as nat,
            },
        ];
        let s = Surface { format, width, height, pixels, installed: Ghost(hist) };
        Ok(s)
    }

    /// Width of the current snapshot.
    pub fn width(&self) -> (r: u32)
        ensures
            r == self@.width,
    {
        self.width
    }

    /// Height of the current snapshot.
    pub fn height(&self) -> (r: u32)
        ensures
            r == self@.height,
    {
        self.height
    }

    /// Width and height read as one snapshot.
    ///
    /// The pair returned is never a mixture of two installations: it is
    /// exactly the metadata of the snapshot installed last, as the last
    /// clause states.
    pub fn size(&self) -> (r: (u32, u32))
        requires
            self.wf(),
        ensures
            r.0 == self@.width,
            r.1 == self@.height,
            self.installed().len() > 0,
            self@.meta() == self.installed().last(),
    {
        (self.width, self.height)
    }

    pub fn format(&self) -> (r: Format)
        ensures
            r == self@.format,
    {
        self.format
    }

    /// The buffer contents.
    pub fn data(&self) -> (r: &Vec<u32>)
        ensures
            r@ == self@.pixels,
    {
        &self.pixels
    }

    /// Reads cell (x, y); `None` outside the declared geometry.
    pub fn get_pixel(&self, x: u32, y: u32) -> (r: Option<u32>)
        requires
            self.wf(),
        ensures
            self@.in_bounds(x as nat, y as nat) ==> r == Some(self@.pixels[self@.cell(
                x as nat,
                y as nat,
            )]),
            !self@.in_bounds(x as nat, y as nat) ==> r is None,
    {
        if x < self.width && y < self.height {
            proof {
                lemma_mul_u32_bound(y as u64, self.width as u64);
            }
            let off: u64 = (y as u64) * (self.width as u64) + (x as u64);
            proof {
                lemma_cell_in_buffer(self@, x as nat, y as nat);
                assert(self.pixels.len() == self@.pixels.len());
                assert(off as int == self@.cell(x as nat, y as nat));
            }
            Some(self.pixels[off as usize])
        } else {
            None
        }
    }

    /// Bounds-checked pixel write: writes the cell when (x, y) lies inside
    /// the declared geometry, and drops the write silently otherwise, so a
    /// paint racing a late resize never faults and never touches another
    /// cell.
    pub fn put_u32_pixel(&mut self, x: u32, y: u32, pixel: u32)
        requires
            old(self).wf(),
        ensures
            final(self).wf(),
            final(self)@ == spec_put(old(self)@, x as nat, y as nat, pixel),
            final(self).installed() == old(self).installed(),
    {
        if x < self.width && y < self.height {
            proof {
                lemma_mul_u32_bound(y as u64, self.width as u64);
            }
            let off: u64 = (y as u64) * (self.width as u64) + (x as u64);
            proof {
                lemma_cell_in_buffer(self@, x as nat, y as nat);
                assert(self.pixels.len() == self@.pixels.len());
                assert(off as int == self@.cell(x as nat, y as nat));
            }
            self.pixels.set(off as usize, pixel);
        }
    }

    /// Installs a new buffer and geometry as one unit.
    ///
    /// A reader observes either the old (buffer, width, height) triple or
    /// the new one, never a mixture: the whole tuple is swapped at once,
    /// and afterwards `size` reads exactly the snapshot installed here.
    pub fn replace(&mut self, new_pixels: Vec<u32>, new_width: u32, new_height: u32)
        requires
            old(self).wf(),
            new_pixels@.len() >= new_width * new_height,
        ensures
            final(self).wf(),
            final(self)@.format == old(self)@.format,
            final(self)@.width == new_width,
            final(self)@.height == new_height,
            final(self)@.pixels == new_pixels@,
            final(self).installed() == old(self).installed().push(final(self)@.meta()),
    {
        let ghost m = SurfaceMeta {
            width: new_width as nat,
            height: new_height as nat,
            buffer_len: new_pixels@.len(),
        };
        let ghost hist = self.installed@.push(m);
        *self = Surface {
            format: self.format,
            width: new_width,
            height: new_height,
            pixels: new_pixels,
            installed: Ghost(hist),
        };
    }

    /// Fills the rectangle `[x0, x0+w) x [y0, y0+h)` with `color`, clipped
    /// to the surface like any other write.
    pub fn fill_rect(&mut self, x0: u32, y0: u32, w: u32, h: u32, color: u32)
        requires
            old(self).wf(),
        ensures
            final(self).wf(),
            final(self)@.format == old(self)@.format,
            final(self)@.width == old(self)@.width,
            final(self)@.height == old(self)@.height,
            final(self)@.pixels.len() == old(self)@.pixels.len(),
            forall|x: nat, y: nat|
                old(self)@.in_bounds(x, y) ==> #[trigger] final(self)@.pixels[old(self)@.cell(
                    x,
                    y,
                )] == if x0 <= x < x0 + w && y0 <= y < y0 + h {
                    color
                } else {
                    old(self)@.pixels[old(self)@.cell(x, y)]
                },
            final(self).installed() == old(self).installed(),
    {
        let mut dy: u32 = 0;
        while dy < h && y0 as u64 + dy as u64 <= u32::MAX as u64
            invariant
                self.wf(),
                self@.format == old(self)@.format,
                self@.width == old(self)@.width,
                self@.height == old(self)@.height,
                self@.pixels.len() == old(self)@.pixels.len(),
                self.installed() == old(self).installed(),
                dy <= h,
                forall|x: nat, y: nat|
                    old(self)@.in_bounds(x, y) ==> #[trigger] self@.pixels[old(self)@.cell(x, y)]
                        == if x0 <= x < x0 + w && y0 <= y < y0 + dy && y < y0 + h {
                        color
                    } else {
                        old(self)@.pixels[old(self)@.cell(x, y)]
                    },
            decreases h - dy,
        {
            let y: u32 = y0 + dy;
            let mut dx: u32 = 0;
            while dx < w && x0 as u64 + dx as u64 <= u32::MAX as u64
                invariant
                    self.wf(),
                    self@.format == old(self)@.format,
                    self@.width == old(self)@.width,
                    self@.height == old(self)@.height,
                    self@.pixels.len() == old(self)@.pixels.len(),
                    self.installed() == old(self).installed(),
                    dx <= w,
                    y == y0 + dy,
                    dy < h,
                    y0 as u64 + dy as u64 <= u32::MAX as u64,
                    forall|x: nat, yy: nat|
                        old(self)@.in_bounds(x, yy) ==> #[trigger] self@.pixels[old(
                            self,
                        )@.cell(x, yy)] == if x0 <= x < x0 + w && y0 <= yy < y0 + dy && yy < y0 + h {
                            color
                        } else if yy == y && x0 <= x < x0 + dx {
                            color
                        } else {
                            old(self)@.pixels[old(self)@.cell(x, yy)]
                        },
                decreases w - dx,
            {
                let x: u32 = x0 + dx;
                let ghost prev = self@;
                self.put_u32_pixel(x, y, color);
                proof {
                    lemma_put_cells(prev, x as nat, y as nat, color);
                    assert forall|a: nat, b: nat| old(self)@.in_bounds(a, b) implies #[trigger] self@.pixels[old(
                        self,
                    )@.cell(a, b)] == (if x0 <= a < x0 + w && y0 <= b < y0 + dy && b < y0 + h {
                        color
                    } else if b == y && x0 <= a < x0 + dx + 1 {
                        color
                    } else {
                        old(self)@.pixels[old(self)@.cell(a, b)]
                    }) by {
                        assert(prev.in_bounds(a, b) == old(self)@.in_bounds(a, b));
                        assert(prev.cell(a, b) == old(self)@.cell(a, b));
                        if a == x as nat && b == y as nat {
                            assert(self@.pixels[prev.cell(a, b)] == color);
                        } else {
                            assert(self@.pixels[prev.cell(a, b)] == prev.pixels[prev.cell(a, b)]);
                        }
                    }
                }
                dx = dx + 1;
            }
            dy = dy + 1;
        }
    }
}

/// The product of two values below 2^32 fits a u64.
#[verifier::nonlinear]
proof fn lemma_mul_u32_bound(a: u64, b: u64)
    requires
        a <= 0xFFFF_FFFFu64,
        b <= 0xFFFF_FFFFu64,
    ensures
        a * b <= 0xFFFF_FFFE_0000_0001u64,
{
}

/// An in-bounds cell index lies inside any well-formed buffer.
#[verifier::nonlinear]
proof fn lemma_cell_in_buffer(v: SurfaceView, x: nat, y: nat)
    requires
        v.wf(),
        v.in_bounds(x, y),
    ensures
        0 <= v.cell(x, y) < v.pixels.len(),
        y * v.width + x < v.width * v.height,
{
}

/// How one bounds-checked write reads back, cell by cell: the written cell
/// holds the new pixel and every other in-bounds cell is untouched.
pub proof fn lemma_put_cells(v: SurfaceView, x: nat, y: nat, pixel: u32)
    requires
        v.wf(),
    ensures
        spec_put(v, x, y, pixel).wf(),
        spec_put(v, x, y, pixel).meta() == v.meta(),
        v.in_bounds(x, y) ==> spec_put(v, x, y, pixel).pixels[v.cell(x, y)] == pixel,
        forall|a: nat, b: nat|
            v.in_bounds(a, b) && !(a == x && b == y) ==> #[trigger] spec_put(
                v,
                x,
                y,
                pixel,
            ).pixels[v.cell(a, b)] == v.pixels[v.cell(a, b)],
        !v.in_bounds(x, y) ==> spec_put(v, x, y, pixel) == v,
{
    if v.in_bounds(x, y) {
        lemma_cell_in_buffer(v, x, y);
        assert forall|a: nat, b: nat|
            v.in_bounds(a, b) && !(a == x && b == y) implies #[trigger] spec_put(
            v,
            x,
            y,
            pixel,
        ).pixels[v.cell(a, b)] == v.pixels[v.cell(a, b)] by {
            lemma_cell_in_buffer(v, a, b);
            lemma_distinct_cells(v, x, y, a, b);
        }
    }
}

/// Distinct in-bounds coordinates occupy distinct buffer cells, so a write
/// to one cannot corrupt the other.
#[verifier::nonlinear]
proof fn lemma_distinct_cells(v: SurfaceView, x: nat, y: nat, a: nat, b: nat)
    requires
        v.in_bounds(x, y),
        v.in_bounds(a, b),
        !(a == x && b == y),
    ensures
        v.cell(x, y) != v.cell(a, b),
{
}

/// One recorded `put_u32_pixel` request.
pub struct PutOp {
    pub x: nat,
    pub y: nat,
    pub pixel: u32,
}

/// The surface contents after a whole sequence of bounds-checked writes,
/// applied in order.
pub open spec fn apply_puts(v: SurfaceView, ops: Seq<PutOp>) -> SurfaceView
    decreases ops.len(),
{
    if ops.len() == 0 {
        v
    } else {
        spec_put(apply_puts(v, ops.drop_last()), ops.last().x, ops.last().y, ops.last().pixel)
    }
}

/// The pixel of the latest write aimed at (x, y) in `ops`, if any.
pub open spec fn last_write(ops: Seq<PutOp>, x: nat, y: nat) -> Option<u32>
    decreases ops.len(),
{
    if ops.len() == 0 {
        None
    } else if ops.last().x == x && ops.last().y == y {
        Some(ops.last().pixel)
    } else {
        last_write(ops.drop_last(), x, y)
    }
}

/// After any sequence of bounds-checked writes, an in-bounds cell reads
/// back exactly the last value written to it, or its original value when
/// no write aimed at it; writes aimed outside the geometry change nothing,
/// and the geometry itself never moves.
pub proof fn lemma_put_sequence_reads_last_write(v: SurfaceView, ops: Seq<PutOp>, x: nat, y: nat)
    requires
        v.wf(),
        v.in_bounds(x, y),
    ensures
        apply_puts(v, ops).wf(),
        apply_puts(v, ops).meta() == v.meta(),
        apply_puts(v, ops).pixels[v.cell(x, y)] == match last_write(ops, x, y) {
            Some(p) => p,
            None => v.pixels[v.cell(x, y)],
        },
    decreases ops.len(),
{
    if ops.len() > 0 {
        let prev = apply_puts(v, ops.drop_last());
        let op = ops.last();
        lemma_put_sequence_reads_last_write(v, ops.drop_last(), x, y);
        lemma_put_cells(prev, op.x, op.y, op.pixel);
        assert(prev.in_bounds(x, y));
        assert(prev.cell(x, y) == v.cell(x, y));
        if op.x == x && op.y == y {
            assert(prev.in_bounds(op.x, op.y));
        }
    }
}

} // verus!
