//! The raster-graphics sub-machine: a fixed-size pixel buffer, a current
//! drawing color, and an inbound event queue, owned by and mutated only
//! through the interpreter.
//!
//! Design choices flagged for callers: pixel writes outside the buffer are
//! ignored rather than clamped or reported, buffer dimensions are capped at
//! 65535 on each axis, and a line whose endpoints do not all fit the
//! rasterizer's i32 coordinate range is skipped entirely.

use std::collections::VecDeque;
use vstd::prelude::*;

verus! {

/// The largest accepted width or height of a pixel buffer.
pub const MAX_DIMENSION: usize = 65535;

/// A color triple.
#[derive(Clone, Copy, Debug, PartialEq, Eq, Structural)]
pub struct Rgb {
    pub r: u8,
    pub g: u8,
    pub b: u8,
}

/// The color a fresh buffer is filled with.
pub open spec fn black() -> Rgb {
    Rgb { r: 0, g: 0, b: 0 }
}

/// An inbound event, fed externally and drained only by the interpreter's
/// poll-event opcode.
#[derive(Clone, Copy, Debug, PartialEq, Eq, Structural)]
pub enum Event {
    Close,
    MouseClick(i64, i64),
}

/// The mathematical content of the graphics sub-machine.
#[verifier::ext_equal]
pub ghost struct GraphicsModel {
    pub size: (usize, usize),
    pub pixels: Seq<Rgb>,
    pub color: Rgb,
    pub events: Seq<Event>,
}

/// A fresh model: a black buffer of the given size with an empty queue.
pub open spec fn gfx_new(w: usize, h: usize) -> GraphicsModel {
    GraphicsModel {
        size: (w, h),
        pixels: Seq::new((w * h) as nat, |i: int| black()),
        color: black(),
        events: Seq::empty(),
    }
}

/// The model after painting the current color at `(x, y)`: row-major, with
/// out-of-range coordinates ignored.
pub open spec fn gfx_paint(g: GraphicsModel, x: int, y: int) -> GraphicsModel {
    if 0 <= x < g.size.0 && 0 <= y < g.size.1 {
        GraphicsModel { pixels: g.pixels.update(y * g.size.0 + x, g.color), ..g }
    } else {
        g
    }
}

/// The model after painting every point of `pts`, in order.
pub open spec fn gfx_paint_all(g: GraphicsModel, pts: Seq<(i32, i32)>) -> GraphicsModel
    decreases pts.len(),
{
    if pts.len() == 0 {
        g
    } else {
        gfx_paint_all(gfx_paint(g, pts[0].0 as int, pts[0].1 as int), pts.drop_first())
    }
}

/// Painting one more point extends a pointwise paint.
proof fn lemma_gfx_paint_all_push(g: GraphicsModel, pts: Seq<(i32, i32)>, p: (i32, i32))
    ensures
        gfx_paint_all(g, pts.push(p)) == gfx_paint(gfx_paint_all(g, pts), p.0 as int, p.1 as int),
    decreases pts.len(),
{
    if pts.len() == 0 {
        assert(pts.push(p)[0] == p);
        assert(pts.push(p).drop_first() =~= Seq::<(i32, i32)>::empty());
        assert(gfx_paint_all(gfx_paint(g, p.0 as int, p.1 as int), Seq::<(i32, i32)>::empty())
            == gfx_paint(g, p.0 as int, p.1 as int));
    } else {
        assert(pts.push(p)[0] == pts[0]);
        assert(pts.push(p).drop_first() =~= pts.drop_first().push(p));
        lemma_gfx_paint_all_push(gfx_paint(g, pts[0].0 as int, pts[0].1 as int), pts.drop_first(), p);
    }
}

/// The points of the half-open directed line segment from `(x1, y1)` to
/// `(x2, y2)`, as the Bresenham-style rasterizer yields them.
pub uninterp spec fn line_cells(x1: i32, y1: i32, x2: i32, y2: i32) -> Seq<(i32, i32)>;

/// Relies on clipline's AnyOctant iterator: the rasterized points of the
/// half-open line segment between the two endpoints, defined for the whole
/// coordinate domain.
#[verifier::external_body]
fn line_points(x1: i32, y1: i32, x2: i32, y2: i32) -> (r: Vec<(i32, i32)>)
    ensures
        r@ == line_cells(x1, y1, x2, y2),
{
    clipline::AnyOctant::<i32>::new((x1, y1), (x2, y2)).collect()
}

/// The raster canvas plus its event queue.
#[derive(Debug)]
pub struct Graphics {
    pub(crate) size: (usize, usize),
    pub(crate) texture: Vec<Rgb>,
    pub(crate) current_color: Rgb,
    pub(crate) event_queue: VecDeque<Event>,
}

impl Graphics {
    /// Structural invariant: the buffer holds one color per pixel of a
    /// bounded-size canvas.
    pub open(crate) spec fn inv(&self) -> bool {
        &&& self.texture@.len() == self.size.0 * self.size.1
        &&& self.size.0 <= MAX_DIMENSION
        &&& self.size.1 <= MAX_DIMENSION
    }

    pub open(crate) spec fn view(&self) -> GraphicsModel {
        GraphicsModel {
            size: self.size,
            pixels: self.texture@,
            color: self.current_color,
            events: self.event_queue@,
        }
    }

    /// A black canvas of the given size.
    pub fn new(w: usize, h: usize) -> (r: Self)
        requires
            w <= MAX_DIMENSION,
            h <= MAX_DIMENSION,
        ensures
            r.inv(),
            r@ == gfx_new(w, h),
    {
        proof {
            assert(w * h <= 65535 * 65535) by (nonlinear_arith)
                requires
                    w <= 65535 && h <= 65535,
            ;
        }
        let total: usize = w * h;
        let mut texture: Vec<Rgb> = Vec::new();
        let mut i: usize = 0;
        while i < total
            invariant
                i <= total,
                texture@.len() == i,
                forall|j: int| 0 <= j < i ==> texture@[j] == black(),
            decreases total - i,
        {
            texture.push(Rgb { r: 0, g: 0, b: 0 });
            i = i + 1;
        }
        let r = Graphics {
            size: (w, h),
            texture,
            current_color: Rgb { r: 0, g: 0, b: 0 },
            event_queue: VecDeque::new(),
        };
        proof {
            assert(r@.pixels =~= gfx_new(w, h).pixels);
            assert(r@.events =~= gfx_new(w, h).events);
            assert(r@ =~= gfx_new(w, h));
        }
        r
    }

    /// The canvas width in pixels.
    pub fn width(&self) -> (r: usize)
        ensures
            r == self@.size.0,
    {
        self.size.0
    }

    /// The canvas height in pixels.
    pub fn height(&self) -> (r: usize)
        ensures
            r == self@.size.1,
    {
        self.size.1
    }

    /// The current drawing color.
    pub fn color(&self) -> (r: Rgb)
        ensures
            r == self@.color,
    {
        self.current_color
    }

    /// The color at pixel `(x, y)`.
    pub fn pixel_at(&self, x: usize, y: usize) -> (r: Rgb)
        requires
            self.inv(),
            x < self@.size.0,
            y < self@.size.1,
        ensures
            r == self@.pixels[y * self@.size.0 + x],
    {
        proof {
            assert(y * self.size.0 + x < self.size.0 * self.size.1 && self.size.0 * self.size.1
                <= 65535 * 65535) by (nonlinear_arith)
                requires
                    x < self.size.0 && y < self.size.1 && self.size.0 <= 65535 && self.size.1
                        <= 65535,
            ;
        }
        let idx: usize = y * self.size.0 + x;
        self.texture[idx]
    }

    /// Sets the current drawing color.
    pub fn set_color(&mut self, c: Rgb)
        requires
            old(self).inv(),
        ensures
            final(self).inv(),
            final(self)@ == (GraphicsModel { color: c, ..old(self)@ }),
    {
        self.current_color = c;
    }

    /// Paints the current color at `(x, y)`; coordinates outside the buffer
    /// are ignored.
    pub fn pixel(&mut self, x: usize, y: usize)
        requires
            old(self).inv(),
        ensures
            final(self).inv(),
            final(self)@ == gfx_paint(old(self)@, x as int, y as int),
    {
        if x < self.size.0 && y < self.size.1 {
            proof {
                assert(y * self.size.0 + x < self.size.0 * self.size.1 && self.size.0
                    * self.size.1 <= 65535 * 65535) by (nonlinear_arith)
                    requires
                        x < self.size.0 && y < self.size.1 && self.size.0 <= 65535 && self.size.1
                            <= 65535,
                ;
            }
            let idx: usize = y * self.size.0 + x;
            let c = self.current_color;
            self.texture[idx] = c;
        }
    }

    /// Fills the whole buffer with the current color.
    pub fn fill(&mut self)
        requires
            old(self).inv(),
        ensures
            final(self).inv(),
            final(self)@ == (GraphicsModel {
                pixels: Seq::new(old(self)@.pixels.len(), |i: int| old(self)@.color),
                ..old(self)@
            }),
    {
        let total = self.texture.len();
        let mut i: usize = 0;
        while i < total
            invariant
                old(self).inv(),
                total == self.texture@.len(),
                i <= total,
                self.size == old(self).size,
                self.current_color == old(self).current_color,
                self.event_queue@ == old(self).event_queue@,
                forall|j: int| 0 <= j < i ==> self.texture@[j] == old(self).current_color,
                forall|j: int| i <= j < total ==> self.texture@[j] == old(self).texture@[j],
            decreases total - i,
        {
            let c = self.current_color;
            self.texture[i] = c;
            i = i + 1;
        }
        proof {
            assert(final(self)@.pixels =~= Seq::new(
                old(self)@.pixels.len(),
                |i: int| old(self)@.color,
            ));
            assert(final(self)@ =~= (GraphicsModel {
                pixels: Seq::new(old(self)@.pixels.len(), |i: int| old(self)@.color),
                ..old(self)@
            }));
        }
    }

    /// Rasterizes the half-open line segment from `(x1, y1)` to `(x2, y2)`,
    /// painting every covered in-range pixel with the current color.
    pub fn draw_line(&mut self, x1: i32, y1: i32, x2: i32, y2: i32)
        requires
            old(self).inv(),
        ensures
            final(self).inv(),
            final(self)@ == gfx_paint_all(old(self)@, line_cells(x1, y1, x2, y2)),
    {
        let pts = line_points(x1, y1, x2, y2);
        let n = pts.len();
        let mut i: usize = 0;
        proof {
            assert(pts@.take(0) =~= Seq::<(i32, i32)>::empty());
        }
        while i < n
            invariant
                self.inv(),
                n == pts@.len(),
                i <= n,
                pts@ == line_cells(x1, y1, x2, y2),
                self@ == gfx_paint_all(old(self)@, pts@.take(i as int)),
            decreases n - i,
        {
            let (px, py) = pts[i];
            let ghost before = self@;
            if px >= 0 && py >= 0 {
                self.pixel(px as usize, py as usize);
            }
            proof {
                if !(px >= 0 && py >= 0) {
                    assert(self@ == gfx_paint(before, px as int, py as int));
                }
                lemma_gfx_paint_all_push(old(self)@, pts@.take(i as int), pts@[i as int]);
                assert(pts@.take(i + 1) =~= pts@.take(i as int).push(pts@[i as int]));
            }
            i = i + 1;
        }
        proof {
            assert(pts@.take(n as int) =~= pts@);
        }
    }

    /// Queues an inbound event.
    pub fn push_event(&mut self, e: Event)
        requires
            old(self).inv(),
        ensures
            final(self).inv(),
            final(self)@ == (GraphicsModel { events: old(self)@.events.push(e), ..old(self)@ }),
    {
        self.event_queue.push_back(e);
    }

    /// Dequeues the oldest pending event, if any.
    pub fn pop_event(&mut self) -> (r: Option<Event>)
        requires
            old(self).inv(),
        ensures
            final(self).inv(),
            old(self)@.events.len() == 0 ==> r is None && final(self)@ == old(self)@,
            old(self)@.events.len() > 0 ==> r == Some(old(self)@.events[0]) && final(self)@
                == (GraphicsModel { events: old(self)@.events.drop_first(), ..old(self)@ }),
    {
        let r = self.event_queue.pop_front();
        proof {
            if old(self)@.events.len() == 0 {
                assert(final(self)@ =~= old(self)@);
            } else {
                assert(final(self)@.events =~= old(self)@.events.drop_first());
                assert(final(self)@ =~= (GraphicsModel {
                    events: old(self)@.events.drop_first(),
                    ..old(self)@
                }));
            }
        }
        r
    }
}

} // verus!
