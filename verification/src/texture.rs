//! A texture: a grid of colours, looked up by normalised coordinates.
//!
//! The coordinates run from -1 to 1 in fixed point over the width and the height of the
//! texture. A lookup snaps them to a coarse grid of texels and clamps them to the edge.

use crate::fixed::ONE;
use vstd::prelude::*;

verus! {

/// A texture of `shape.0` by `shape.1` texels, held row by row.
pub struct Texture {
    pixels: Vec<(u8, u8, u8)>,
    shape: (u32, u32),
}

/// A texture over the mathematical integers.
pub struct TextureView {
    pub shape: (int, int),
    pub pixels: Seq<(u8, u8, u8)>,
}

impl TextureView {
    /// The texture has at least one texel, and one colour for every texel.
    pub open spec fn wf(self) -> bool {
        &&& self.shape.0 > 0
        &&& self.shape.1 > 0
        &&& self.pixels.len() == self.shape.0 * self.shape.1
    }

    /// The colour of the texel in column `x` of row `y`.
    pub open spec fn texel(self, x: int, y: int) -> (u8, u8, u8) {
        self.pixels[x + y * self.shape.0]
    }
}

/// The texel coordinate of the normalised coordinate `c` on an axis of `extent` texels:
/// `(c + 1) * extent / cell` in units of one, rounded to the nearest integer, a tie rounded
/// up, then multiplied by half a cell and held between 0 and `last`.
pub open spec fn snap(c: int, extent: int, cell: int, last: int) -> int {
    let n = (c + ONE) * extent;
    let steps = if n <= 0 {
        0
    } else {
        (2 * n + cell * ONE) / (2 * cell * ONE)
    };
    if steps * (cell / 2) < last {
        steps * (cell / 2)
    } else {
        last
    }
}

fn snap_axis(c: i32, extent: u32, cell: u32, last: u32) -> (x: u32)
    requires
        cell == 10 || cell == 64,
    ensures
        x == snap(c as int, extent as int, cell as int, last as int),
        x <= last,
{
    let shifted: i128 = c as i128 + 65536;
    assert(-0x1_0000_0000_0000_0000 <= shifted * extent <= 0x1_0000_0000_0000_0000)
        by (nonlinear_arith)
        requires
            -0x8000_0000 <= shifted <= 0x8001_0000,
            0 <= extent <= 0xffff_ffff,
    ;
    let n: i128 = shifted * extent as i128;
    let steps: i128 = if n <= 0 {
        0
    } else {
        (2 * n + cell as i128 * 65536) / (2 * cell as i128 * 65536)
    };
    let x: i128 = steps * (cell as i128 / 2);
    if x < last as i128 {
        x as u32
    } else {
        last
    }
}

impl View for Texture {
    type V = TextureView;

    closed spec fn view(&self) -> TextureView {
        TextureView { shape: (self.shape.0 as int, self.shape.1 as int), pixels: self.pixels@ }
    }
}

impl Texture {
    #[verifier::type_invariant]
    closed spec fn inv(&self) -> bool {
        &&& self.shape.0 > 0
        &&& self.shape.1 > 0
        &&& self.pixels@.len() == self.shape.0 * self.shape.1
    }

    /// A texture of `width` by `height` texels with the given colours, row by row. There is
    /// no texture without a texel, and none whose colours do not fill the grid.
    pub fn new(width: u32, height: u32, pixels: Vec<(u8, u8, u8)>) -> (texture: Option<Self>)
        ensures
            texture is Some <==> width > 0 && height > 0 && pixels@.len() == width * height,
            texture matches Some(t) ==> t@ == (TextureView {
                shape: (width as int, height as int),
                pixels: pixels@,
            }) && t@.wf(),
    {
        assert(0 <= width * height <= 0xffff_ffff * 0xffff_ffff) by (nonlinear_arith)
            requires
                0 <= width <= 0xffff_ffff,
                0 <= height <= 0xffff_ffff,
        ;
        if width > 0 && height > 0 && pixels.len() as u128 == width as u128 * height as u128 {
            Some(Texture { pixels: pixels, shape: (width, height) })
        } else {
            None
        }
    }

    /// The width and the height of the texture.
    pub fn shape(&self) -> (s: (u32, u32))
        ensures
            s.0 == self@.shape.0,
            s.1 == self@.shape.1,
            self@.wf(),
    {
        proof {
            use_type_invariant(self);
        }
        self.shape
    }

    fn texel(&self, x: u32, y: u32) -> (color: (u8, u8, u8))
        requires
            x < self@.shape.0,
            y < self@.shape.1,
        ensures
            color == self@.texel(x as int, y as int),
    {
        proof {
            use_type_invariant(self);
            assert(0 <= x + y * self.shape.0 < self.shape.0 * self.shape.1) by (nonlinear_arith)
                requires
                    0 <= x < self.shape.0,
                    0 <= y < self.shape.1,
            ;
            assert(self.pixels.len() == self.pixels@.len());
        }
        let index: u64 = x as u64 + y as u64 * self.shape.0 as u64;
        self.pixels[index as usize]
    }

    /// The colour at the normalised point `dot`: that of the texel nearest to it on a grid
    /// of every fifth texel, or of the last texel where the grid runs past the edge.
    pub fn get_pixel(&self, dot: (i32, i32)) -> (color: (u8, u8, u8))
        ensures
            self@.wf(),
            color == self@.texel(
                snap(dot.0 as int, self@.shape.0, 10, self@.shape.0 - 1),
                snap(dot.1 as int, self@.shape.1, 10, self@.shape.1 - 1),
            ),
    {
        proof {
            use_type_invariant(self);
        }
        let x = snap_axis(dot.0, self.shape.0, 10, self.shape.0 - 1);
        let y = snap_axis(dot.1, self.shape.1, 10, self.shape.1 - 1);
        self.texel(x, y)
    }

    /// The colour at the normalised point `dot`, for a texture of two texels or more each
    /// way: that of the texel nearest to it on a grid of every thirty-second texel, or of the
    /// last but one texel where the grid runs past it.
    pub fn get_pixel_bilinear(&self, dot: (i32, i32)) -> (color: (u8, u8, u8))
        requires
            self@.shape.0 >= 2,
            self@.shape.1 >= 2,
        ensures
            self@.wf(),
            color == self@.texel(
                snap(dot.0 as int, self@.shape.0, 64, self@.shape.0 - 2),
                snap(dot.1 as int, self@.shape.1, 64, self@.shape.1 - 2),
            ),
    {
        proof {
            use_type_invariant(self);
        }
        let x = snap_axis(dot.0, self.shape.0, 64, self.shape.0 - 2);
        let y = snap_axis(dot.1, self.shape.1, 64, self.shape.1 - 2);
        self.texel(x, y)
    }
}

} // verus!
