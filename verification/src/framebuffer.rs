//! The framebuffer: a colour buffer and a depth buffer of the same shape,
//! written one point at a time under a "closer wins" depth test.

use vstd::prelude::*;
use crate::scalar::{Scalar, INFINITY_BITS};

verus! {

/// The colour that a new framebuffer draws with: white.
pub const INITIAL_DRAW_COLOR: u32 = 0xFF_FFFF;

/// What a framebuffer holds.
///
/// Cells are stored row by row: the cell at column `x` of row `y` has the
/// index `y * width + x`.
pub struct Frame {
    pub width: nat,
    pub height: nat,
    /// One packed colour per cell.
    pub colors: Seq<u32>,
    /// One depth per cell; positive infinity where nothing was drawn.
    pub depths: Seq<Scalar>,
    /// The colour that `clear` fills with.
    pub background: u32,
    /// The colour that `point` writes.
    pub current: u32,
}

impl Frame {
    /// Every depth is a number: no cell holds a NaN.
    pub open spec fn depths_are_numbers(self) -> bool {
        forall|i: int| 0 <= i < self.depths.len() ==> !(#[trigger] self.depths[i]).is_nan_spec()
    }

    /// Both buffers have one cell for each pixel, and every depth is a
    /// number, so that any two depths can be compared.
    pub open spec fn wf(self) -> bool {
        &&& self.colors.len() == self.width * self.height
        &&& self.depths.len() == self.width * self.height
        &&& self.depths_are_numbers()
    }

    pub open spec fn covers(self, x: int, y: int) -> bool {
        0 <= x < self.width && 0 <= y < self.height
    }

    pub open spec fn index(self, x: int, y: int) -> int {
        y * self.width + x
    }

    /// An empty frame of the given shape with the given draw state: every
    /// cell has the background colour and infinite depth.
    pub open spec fn blank(width: nat, height: nat, background: u32, current: u32) -> Frame {
        Frame {
            width,
            height,
            colors: Seq::new(width * height, |i: int| background),
            depths: Seq::new(width * height, |i: int| Scalar { bits: INFINITY_BITS }),
            background,
            current,
        }
    }

    /// The frame after `clear`.
    pub open spec fn cleared(self) -> Frame {
        Frame::blank(self.width, self.height, self.background, self.current)
    }

    /// Whether a point at `(x, y)` with the given depth gets written: the
    /// frame must cover the place, and the depth must be strictly less than
    /// the one stored there.
    pub open spec fn accepts(self, x: int, y: int, depth: Scalar) -> bool {
        self.covers(x, y) && depth.less_than(self.depths[self.index(x, y)])
    }

    /// The frame after `point(x, y, depth)`.
    pub open spec fn plotted(self, x: int, y: int, depth: Scalar) -> Frame {
        if self.accepts(x, y, depth) {
            Frame {
                colors: self.colors.update(self.index(x, y), self.current),
                depths: self.depths.update(self.index(x, y), depth),
                ..self
            }
        } else {
            self
        }
    }
}

/// A colour buffer with a depth buffer beside it.
pub struct Framebuffer {
    width: usize,
    height: usize,
    buffer: Vec<u32>,
    zbuffer: Vec<Scalar>,
    background_color: u32,
    current_color: u32,
}

impl View for Framebuffer {
    type V = Frame;

    closed spec fn view(&self) -> Frame {
        Frame {
            width: self.width as nat,
            height: self.height as nat,
            colors: self.buffer@,
            depths: self.zbuffer@,
            background: self.background_color,
            current: self.current_color,
        }
    }
}

impl Framebuffer {
    #[verifier::type_invariant]
    spec fn shaped(&self) -> bool {
        &&& self.buffer@.len() == self.width * self.height
        &&& self.zbuffer@.len() == self.width * self.height
        &&& forall|i: int|
            0 <= i < self.zbuffer@.len() ==> !(#[trigger] self.zbuffer@[i]).is_nan_spec()
    }

    /// A framebuffer of `width` by `height` cells, black all over, nothing
    /// drawn, with black as background and white as draw colour.
    pub fn new(width: usize, height: usize) -> (fb: Framebuffer)
        requires
            width * height <= usize::MAX,
        ensures
            fb@ == Frame::blank(width as nat, height as nat, 0, INITIAL_DRAW_COLOR),
            fb@.wf(),
    {
        let cells: usize = width * height;
        let mut buffer: Vec<u32> = Vec::new();
        let mut zbuffer: Vec<Scalar> = Vec::new();
        let mut i: usize = 0;
        while i < cells
            invariant
                i <= cells,
                buffer@ == Seq::new(i as nat, |k: int| 0u32),
                zbuffer@ == Seq::new(i as nat, |k: int| Scalar { bits: INFINITY_BITS }),
            decreases cells - i,
        {
            buffer.push(0);
            zbuffer.push(Scalar::infinity());
            i += 1;
            assert(buffer@ =~= Seq::new(i as nat, |k: int| 0u32));
            assert(zbuffer@ =~= Seq::new(i as nat, |k: int| Scalar { bits: INFINITY_BITS }));
        }
        Framebuffer {
            width,
            height,
            buffer,
            zbuffer,
            background_color: 0,
            current_color: INITIAL_DRAW_COLOR,
        }
    }

    pub fn width(&self) -> (w: usize)
        ensures
            w == self@.width,
            self@.wf(),
    {
        proof {
            use_type_invariant(self);
        }
        self.width
    }

    pub fn height(&self) -> (h: usize)
        ensures
            h == self@.height,
            self@.wf(),
    {
        proof {
            use_type_invariant(self);
        }
        self.height
    }

    /// The packed colours, row by row.
    pub fn buffer(&self) -> (colors: &Vec<u32>)
        ensures
            colors@ == self@.colors,
            self@.wf(),
    {
        proof {
            use_type_invariant(self);
        }
        &self.buffer
    }

    /// The depths, row by row. None of them is a NaN.
    pub fn zbuffer(&self) -> (depths: &Vec<Scalar>)
        ensures
            depths@ == self@.depths,
            self@.wf(),
    {
        proof {
            use_type_invariant(self);
        }
        &self.zbuffer
    }

    /// Fills the colour buffer with the background colour and the depth
    /// buffer with positive infinity.
    pub fn clear(&mut self)
        ensures
            final(self)@ == old(self)@.cleared(),
            final(self)@.wf(),
    {
        proof {
            use_type_invariant(&*self);
        }
        let cells: usize = self.buffer.len();
        let background: u32 = self.background_color;
        let mut i: usize = 0;
        while i < cells
            invariant
                i <= cells,
                self.width == old(self).width,
                self.height == old(self).height,
                self.background_color == background,
                self.background_color == old(self).background_color,
                self.current_color == old(self).current_color,
                cells == self.width * self.height,
                self.buffer@.len() == cells,
                self.zbuffer@.len() == cells,
                forall|k: int| 0 <= k < i ==> self.buffer@[k] == background,
                forall|k: int| 0 <= k < i ==> self.zbuffer@[k] == (Scalar { bits: INFINITY_BITS }),
                forall|k: int| 0 <= k < cells ==> !(#[trigger] self.zbuffer@[k]).is_nan_spec(),
            decreases cells - i,
        {
            self.buffer[i] = background;
            put_depth(&mut self.zbuffer, i, Scalar::infinity());
            i += 1;
        }
        assert(self.buffer@ =~= old(self)@.cleared().colors);
        assert(self.zbuffer@ =~= old(self)@.cleared().depths);
    }

    /// Draws one point in the current colour. A point outside the frame is
    /// ignored, and so is one that is not strictly closer than what the cell
    /// already holds.
    pub fn point(&mut self, x: usize, y: usize, depth: Scalar)
        ensures
            final(self)@ == old(self)@.plotted(x as int, y as int, depth),
            final(self)@.wf(),
    {
        proof {
            use_type_invariant(&*self);
        }
        let cells: usize = self.buffer.len();
        if x < self.width && y < self.height {
            proof {
                lemma_index_in_range(x as int, y as int, self.width as int, self.height as int);
            }
            assert(y * self.width + x < cells);
            let index: usize = y * self.width + x;
            if self.zbuffer[index].gt(&depth) {
                self.buffer[index] = self.current_color;
                put_depth(&mut self.zbuffer, index, depth);
            }
        }
    }

    /// Sets the colour that the next `clear` fills with.
    pub fn set_background_color(&mut self, color: u32)
        ensures
            final(self)@ == (Frame { background: color, ..old(self)@ }),
            final(self)@.wf(),
    {
        proof {
            use_type_invariant(&*self);
        }
        self.background_color = color;
    }

    /// Sets the colour that the next `point` writes.
    pub fn set_current_color(&mut self, color: u32)
        ensures
            final(self)@ == (Frame { current: color, ..old(self)@ }),
            final(self)@.wf(),
    {
        proof {
            use_type_invariant(&*self);
        }
        self.current_color = color;
    }
}

/// Writes one depth cell.
fn put_depth(depths: &mut Vec<Scalar>, i: usize, depth: Scalar)
    requires
        i < old(depths)@.len(),
    ensures
        final(depths)@ == old(depths)@.update(i as int, depth),
    no_unwind
{
    depths[i] = depth;
}

/// The index of a cell inside a frame is inside its buffers.
pub proof fn lemma_index_in_range(x: int, y: int, width: int, height: int)
    by (nonlinear_arith)
    requires
        0 <= x < width,
        0 <= y < height,
    ensures
        0 <= y * width <= y * width + x < width * height,
{
}

/// Drawing a point leaves the frame well formed: the buffers keep their
/// shape, and no depth becomes a NaN, for a NaN is strictly closer than
/// nothing. So does a clear.
pub proof fn lemma_frame_stays_well_formed(frame: Frame, x: int, y: int, depth: Scalar)
    requires
        frame.wf(),
    ensures
        frame.plotted(x, y, depth).wf(),
        frame.cleared().wf(),
{
    if frame.accepts(x, y, depth) {
        lemma_index_in_range(x, y, frame.width as int, frame.height as int);
    }
}

/// Drawing a point never moves a cell away from the viewer: every cell ends
/// up with a depth that is at most the one it had. A cell changes only
/// where the point landed, and there only because the point was strictly
/// closer.
pub proof fn lemma_point_never_deepens(frame: Frame, x: int, y: int, depth: Scalar, i: int)
    requires
        frame.wf(),
        0 <= i < frame.depths.len(),
    ensures
        frame.plotted(x, y, depth).depths[i].at_most(frame.depths[i]),
        frame.plotted(x, y, depth).depths[i] != frame.depths[i] || frame.plotted(
            x,
            y,
            depth,
        ).colors[i] != frame.colors[i] ==> i == frame.index(x, y) && frame.covers(x, y)
            && depth.less_than(frame.depths[i]),
{
    if frame.accepts(x, y, depth) {
        lemma_index_in_range(x, y, frame.width as int, frame.height as int);
    }
}

/// A point that is farther than what its cell holds, or as far, is dropped:
/// the frame stays as it was.
pub proof fn lemma_farther_point_is_dropped(frame: Frame, x: int, y: int, depth: Scalar)
    requires
        frame.wf(),
        frame.covers(x, y),
        !depth.less_than(frame.depths[frame.index(x, y)]),
    ensures
        frame.plotted(x, y, depth) == frame,
{
}

/// After a clear every depth is positive infinity, so the first point on any
/// covered cell lands, whatever its depth below infinity: the cell takes the
/// draw colour and the depth of the point.
pub proof fn lemma_first_point_after_clear_lands(frame: Frame, x: int, y: int, depth: Scalar)
    requires
        frame.wf(),
        frame.covers(x, y),
        depth.less_than(Scalar { bits: INFINITY_BITS }),
    ensures
        forall|i: int|
            0 <= i < frame.cleared().depths.len() ==> frame.cleared().depths[i] == (Scalar {
                bits: INFINITY_BITS,
            }),
        frame.cleared().wf(),
        frame.cleared().accepts(x, y, depth),
        frame.cleared().plotted(x, y, depth).colors[frame.index(x, y)] == frame.current,
        frame.cleared().plotted(x, y, depth).depths[frame.index(x, y)] == depth,
{
    lemma_index_in_range(x, y, frame.width as int, frame.height as int);
}

} // verus!
