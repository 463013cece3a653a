//! The frame: a colour buffer and a depth buffer of one size, written through a depth test.
//!
//! Pixel (0, 0) is the centre of the viewport. A viewport that is `w` pixels wide and `h`
//! pixels high holds the pixels `(x, y)` with `0 <= x + w / 2 < w` and `0 <= y + h / 2 < h`,
//! row by row. A cleared frame is black, and every depth in it is `DEPTH_SENTINEL`, which lies
//! below every depth that a fragment can have.

use crate::raster::{Barycentric, Fragment};
use crate::sampler::{sampled, samples_everywhere};
use vstd::prelude::*;

verus! {

/// The depth of a pixel that nothing was drawn on: -1000 in fixed point.
pub const DEPTH_SENTINEL: i32 = -65536000;

/// A renderer with the frame it draws into.
pub struct Julia3D {
    pub(crate) color_buffer: Vec<(u8, u8, u8)>,
    pub(crate) depth_buffer: Vec<i32>,
    pub(crate) shape: (i32, i32),
}

/// A frame over the mathematical integers: its width and height, and the colour and the depth
/// of every pixel, row by row.
pub struct FrameView {
    pub shape: (int, int),
    pub color: Seq<(u8, u8, u8)>,
    pub depth: Seq<int>,
}

impl FrameView {
    /// Both buffers hold one cell for every pixel of the viewport.
    pub open spec fn wf(self) -> bool {
        &&& self.shape.0 >= 0
        &&& self.shape.1 >= 0
        &&& self.color.len() == self.shape.0 * self.shape.1
        &&& self.depth.len() == self.shape.0 * self.shape.1
    }

    /// The pixel `p` lies inside the viewport.
    pub open spec fn in_viewport(self, p: (int, int)) -> bool {
        &&& 0 <= p.0 + self.shape.0 / 2 < self.shape.0
        &&& 0 <= p.1 + self.shape.1 / 2 < self.shape.1
    }

    /// The place of the pixel `p` in the two buffers.
    pub open spec fn index_of(self, p: (int, int)) -> int {
        (p.0 + self.shape.0 / 2) + (p.1 + self.shape.1 / 2) * self.shape.0
    }

    /// A fragment at `p` with this depth passes the depth test: it lies inside the viewport
    /// and strictly above what is stored there.
    pub open spec fn wins(self, p: (int, int), depth: int) -> bool {
        self.in_viewport(p) && depth > self.depth[self.index_of(p)]
    }

    /// The frame after a fragment at `p` was offered to it: both cells of the pixel
    /// overwritten where the fragment passes the depth test, nothing changed where not.
    pub open spec fn write(self, p: (int, int), depth: int, color: (u8, u8, u8)) -> FrameView {
        if self.wins(p, depth) {
            FrameView {
                shape: self.shape,
                color: self.color.update(self.index_of(p), color),
                depth: self.depth.update(self.index_of(p), depth),
            }
        } else {
            self
        }
    }

    /// The cleared frame of the given shape.
    pub open spec fn cleared(shape: (int, int)) -> FrameView {
        FrameView {
            shape: shape,
            color: Seq::new((shape.0 * shape.1) as nat, |i: int| (0u8, 0u8, 0u8)),
            depth: Seq::new((shape.0 * shape.1) as nat, |i: int| DEPTH_SENTINEL as int),
        }
    }
}

/// A pixel inside the viewport has a place inside the buffers.
pub proof fn lemma_index_in_bounds(f: FrameView, p: (int, int))
    requires
        f.wf(),
        f.in_viewport(p),
    ensures
        0 <= f.index_of(p) < f.color.len(),
        0 <= f.index_of(p) < f.depth.len(),
{
    let w = f.shape.0;
    let h = f.shape.1;
    let cx = p.0 + w / 2;
    let cy = p.1 + h / 2;
    assert(0 <= cx + cy * w < w * h) by (nonlinear_arith)
        requires
            0 <= cx < w,
            0 <= cy < h,
    ;
}

/// Two pixels of the viewport that share a place in the buffers are the same pixel.
pub proof fn lemma_index_injective(f: FrameView, p: (int, int), q: (int, int))
    requires
        f.wf(),
        f.in_viewport(p),
        f.in_viewport(q),
        f.index_of(p) == f.index_of(q),
    ensures
        p == q,
{
    let w = f.shape.0;
    let px = p.0 + w / 2;
    let py = p.1 + f.shape.1 / 2;
    let qx = q.0 + w / 2;
    let qy = q.1 + f.shape.1 / 2;
    assert(py == qy && px == qx) by (nonlinear_arith)
        requires
            0 <= px < w,
            0 <= qx < w,
            px + py * w == qx + qy * w,
    ;
}

impl View for Julia3D {
    type V = FrameView;

    closed spec fn view(&self) -> FrameView {
        FrameView {
            shape: (self.shape.0 as int, self.shape.1 as int),
            color: self.color_buffer@,
            depth: Seq::new(self.depth_buffer@.len(), |i: int| self.depth_buffer@[i] as int),
        }
    }
}

impl Julia3D {
    #[verifier::type_invariant]
    pub(crate) closed spec fn inv(&self) -> bool {
        &&& self.shape.0 >= 0
        &&& self.shape.1 >= 0
        &&& self.color_buffer@.len() == self.shape.0 * self.shape.1
        &&& self.depth_buffer@.len() == self.shape.0 * self.shape.1
    }

    /// A renderer with a cleared frame of `width` by `height` pixels.
    pub fn new(width: i32, height: i32) -> (julia: Self)
        requires
            0 <= width,
            0 <= height,
            width * height <= usize::MAX,
        ensures
            julia@ == FrameView::cleared((width as int, height as int)),
            julia@.wf(),
    {
        assert(0 <= width * height <= 0x7fff_ffff * 0x7fff_ffff) by (nonlinear_arith)
            requires
                0 <= width <= 0x7fff_ffff,
                0 <= height <= 0x7fff_ffff,
        ;
        let size: usize = (width as u64 * height as u64) as usize;
        let mut color_buffer: Vec<(u8, u8, u8)> = Vec::new();
        let mut depth_buffer: Vec<i32> = Vec::new();
        let mut i: usize = 0;
        while i < size
            invariant
                i <= size,
                color_buffer@.len() == i,
                depth_buffer@.len() == i,
                forall|j: int| 0 <= j < i ==> color_buffer@[j] == (0u8, 0u8, 0u8),
                forall|j: int| 0 <= j < i ==> depth_buffer@[j] == DEPTH_SENTINEL,
            decreases size - i,
        {
            color_buffer.push((0u8, 0u8, 0u8));
            depth_buffer.push(DEPTH_SENTINEL);
            i += 1;
        }
        let julia = Julia3D {
            color_buffer: color_buffer,
            depth_buffer: depth_buffer,
            shape: (width, height),
        };
        assert(julia@.color =~= FrameView::cleared((width as int, height as int)).color);
        assert(julia@.depth =~= FrameView::cleared((width as int, height as int)).depth);
        julia
    }

    /// The width and the height of the viewport.
    pub fn shape(&self) -> (s: (i32, i32))
        ensures
            s.0 == self@.shape.0,
            s.1 == self@.shape.1,
            self@.wf(),
    {
        proof {
            use_type_invariant(self);
        }
        self.shape
    }

    /// The colours of the frame, row by row, three bytes to a pixel.
    pub fn buff_ptr(&self) -> (colors: &[(u8, u8, u8)])
        ensures
            colors@ == self@.color,
            self@.wf(),
    {
        proof {
            use_type_invariant(self);
        }
        self.color_buffer.as_slice()
    }

    /// Puts the frame back into its cleared state.
    pub fn clear(&mut self)
        ensures
            final(self)@ == FrameView::cleared(old(self)@.shape),
            final(self)@.wf(),
    {
        proof {
            use_type_invariant(&*self);
        }
        let size: usize = self.color_buffer.len();
        let mut i: usize = 0;
        while i < size
            invariant
                i <= size,
                self.shape == old(self).shape,
                self.shape.0 >= 0,
                self.shape.1 >= 0,
                self.color_buffer@.len() == size,
                self.depth_buffer@.len() == size,
                size == self.shape.0 * self.shape.1,
                forall|j: int| 0 <= j < i ==> self.color_buffer@[j] == (0u8, 0u8, 0u8),
                forall|j: int| 0 <= j < i ==> self.depth_buffer@[j] == DEPTH_SENTINEL,
            decreases size - i,
        {
            self.color_buffer[i] = (0u8, 0u8, 0u8);
            self.depth_buffer[i] = DEPTH_SENTINEL;
            i += 1;
        }
        assert(self@.color =~= FrameView::cleared(old(self)@.shape).color);
        assert(self@.depth =~= FrameView::cleared(old(self)@.shape).depth);
    }

    /// The place of a pixel in the buffers, where the pixel lies inside the viewport.
    pub fn buff_offset(&self, window_coords: (i32, i32)) -> (index: Option<usize>)
        ensures
            self@.wf(),
            self@.in_viewport((window_coords.0 as int, window_coords.1 as int)) <==> index is Some,
            index matches Some(i) ==> i == self@.index_of(
                (window_coords.0 as int, window_coords.1 as int),
            ) && i < self@.color.len(),
    {
        proof {
            use_type_invariant(self);
        }
        let w: i64 = self.shape.0 as i64;
        let h: i64 = self.shape.1 as i64;
        let cx: i64 = window_coords.0 as i64 + w / 2;
        let cy: i64 = window_coords.1 as i64 + h / 2;
        if 0 <= cx && cx < w && 0 <= cy && cy < h {
            proof {
                lemma_index_in_bounds(
                    self@,
                    (window_coords.0 as int, window_coords.1 as int),
                );
                assert(cy * w == (window_coords.1 + self@.shape.1 / 2) * self@.shape.0);
                assert(self.color_buffer.len() == self.color_buffer@.len());
                assert(0 <= cy * w <= 0x7fff_ffff * 0x7fff_ffff) by (nonlinear_arith)
                    requires
                        0 <= cy < h <= 0x7fff_ffff,
                        0 <= w <= 0x7fff_ffff,
                ;
            }
            Some((cx + cy * w) as usize)
        } else {
            None
        }
    }

    /// The colour of a pixel, where the pixel lies inside the viewport.
    pub fn color_at(&self, x: i32, y: i32) -> (color: Option<(u8, u8, u8)>)
        ensures
            self@.in_viewport((x as int, y as int)) <==> color is Some,
            color matches Some(c) ==> c == self@.color[self@.index_of((x as int, y as int))],
    {
        match self.buff_offset((x, y)) {
            Some(index) => Some(self.color_buffer[index]),
            None => None,
        }
    }

    /// The depth stored for a pixel, where the pixel lies inside the viewport.
    pub fn depth_at(&self, x: i32, y: i32) -> (depth: Option<i32>)
        ensures
            self@.in_viewport((x as int, y as int)) <==> depth is Some,
            depth matches Some(d) ==> d == self@.depth[self@.index_of((x as int, y as int))],
    {
        match self.buff_offset((x, y)) {
            Some(index) => Some(self.depth_buffer[index]),
            None => None,
        }
    }

    /// Offers a fragment to the frame. Inside the viewport, a fragment whose depth is strictly
    /// greater than the stored one overwrites the colour and the depth of its pixel; any other
    /// fragment leaves the frame as it is. The result tells whether the frame was written.
    pub fn test_and_write(&mut self, x: i32, y: i32, depth: i32, color: (u8, u8, u8)) -> (written:
        bool)
        ensures
            final(self)@ == old(self)@.write((x as int, y as int), depth as int, color),
            written == old(self)@.wins((x as int, y as int), depth as int),
            final(self)@.wf(),
    {
        match self.buff_offset((x, y)) {
            Some(index) => {
                if depth > self.depth_buffer[index] {
                    self.depth_buffer[index] = depth;
                    self.color_buffer[index] = color;
                    assert(self@.depth =~= old(self)@.depth.update(index as int, depth as int));
                    true
                } else {
                    false
                }
            },
            None => false,
        }
    }

    /// Offers one fragment of a face to the frame; the sampler is asked for the colour only
    /// where the fragment passes the depth test. The result is the colour that was offered.
    pub(crate) fn resolve_fragment<F: Fn((i32, i32, i32), &Barycentric) -> (u8, u8, u8)>(
        &mut self,
        fragment: &Fragment,
        face: (i32, i32, i32),
        sampler: &F,
    ) -> (offered: Ghost<(u8, u8, u8)>)
        requires
            fragment.barycentric.wf(),
            samples_everywhere(*sampler),
        ensures
            final(self)@ == old(self)@.write(fragment@.coords, fragment@.depth, offered@),
            old(self)@.wins(fragment@.coords, fragment@.depth) ==> sampled(
                *sampler,
                face,
                fragment@.weights,
                offered@,
            ),
            final(self)@.wf(),
    {
        match self.buff_offset(fragment.window_coords) {
            Some(index) => {
                if fragment.depth > self.depth_buffer[index] {
                    let color = sampler(face, &fragment.barycentric);
                    self.depth_buffer[index] = fragment.depth;
                    self.color_buffer[index] = color;
                    assert(self@.depth =~= old(self)@.depth.update(
                        index as int,
                        fragment.depth as int,
                    ));
                    Ghost(color)
                } else {
                    Ghost((0u8, 0u8, 0u8))
                }
            },
            None => Ghost((0u8, 0u8, 0u8)),
        }
    }

    /// The frame of every renderer is well formed.
    pub(crate) fn frame_is_well_formed(&self)
        ensures
            self@.wf(),
    {
        proof {
            use_type_invariant(self);
        }
    }
}

} // verus!
