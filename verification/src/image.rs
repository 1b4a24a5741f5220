//! Pixel buffers and rendering resources.
//!
//! The framebuffer and the textures are plain RGBA pixel grids owned by the
//! library; a caller blits the finished frame to whatever backend it uses.
//! Texture and wall-height lookups go through an explicit per-symbol table,
//! so the render loop does no hashing and no allocation.

use vstd::prelude::*;

verus! {

use crate::fixed::ONE;

/// One RGBA pixel.
#[derive(Clone, Copy, PartialEq, Eq, Structural, Debug)]
pub struct Rgba {
    pub r: u8,
    pub g: u8,
    pub b: u8,
    pub a: u8,
}

/// The pixel every cleared framebuffer starts with: transparent black.
pub open spec fn clear_pixel() -> Rgba {
    Rgba { r: 0, g: 0, b: 0, a: 0 }
}

/// Largest accepted image side length, in pixels.
pub const IMG_DIM_MAX: usize = 4096;

/// Largest accepted wall-height multiplier, fixed-point (16 tile heights).
pub const HMUL_MAX: i64 = 1048576;

/// A mutable RGBA pixel grid, row-major.
pub struct Image {
    /// Width in pixels.
    pub width: usize,
    /// Height in pixels.
    pub height: usize,
    /// Row-major pixels, `width * height` of them.
    pub data: Vec<Rgba>,
}

impl Image {
    /// Well-formedness: bounded dimensions and a fully allocated grid.
    pub open spec fn wf(&self) -> bool {
        &&& self.width <= IMG_DIM_MAX
        &&& self.height <= IMG_DIM_MAX
        &&& self.data@.len() == self.width * self.height
    }

    /// Allocates a `width` by `height` image of transparent black pixels.
    pub fn new(width: usize, height: usize) -> (r: Image)
        requires
            width <= IMG_DIM_MAX,
            height <= IMG_DIM_MAX,
        ensures
            r.wf(),
            r.width == width,
            r.height == height,
            forall|i: int| 0 <= i < r.data@.len() ==> r.data@[i] == clear_pixel(),
    {
        proof {
            assert(width * height <= IMG_DIM_MAX * IMG_DIM_MAX) by (nonlinear_arith)
                requires
                    width <= IMG_DIM_MAX,
                    height <= IMG_DIM_MAX,
            ;
        }
        let total = width * height;
        let mut data: Vec<Rgba> = Vec::new();
        let mut i: usize = 0;
        while i < total
            invariant
                0 <= i <= total,
                data@.len() == i,
                forall|j: int| 0 <= j < i ==> data@[j] == clear_pixel(),
            decreases total - i,
        {
            data.push(Rgba { r: 0, g: 0, b: 0, a: 0 });
            i = i + 1;
        }
        Image { width, height, data }
    }

    /// Overwrites every pixel with `c`.
    pub fn fill(&mut self, c: Rgba)
        requires
            old(self).wf(),
        ensures
            final(self).wf(),
            final(self).width == old(self).width,
            final(self).height == old(self).height,
            final(self).data@.len() == old(self).data@.len(),
            forall|i: int| 0 <= i < final(self).data@.len() ==> final(self).data@[i] == c,
    {
        let total = self.data.len();
        let mut i: usize = 0;
        while i < total
            invariant
                0 <= i <= total,
                self.data@.len() == total,
                self.width == old(self).width,
                self.height == old(self).height,
                self.wf(),
                forall|j: int| 0 <= j < i ==> self.data@[j] == c,
            decreases total - i,
        {
            self.data.set(i, c);
            i = i + 1;
        }
    }

    /// The pixel at `(x, y)`.
    pub fn get(&self, x: usize, y: usize) -> (r: Rgba)
        requires
            self.wf(),
            x < self.width,
            y < self.height,
        ensures
            r == self.data@[y * self.width + x],
    {
        proof {
            crate::map::lemma_grid_index(self.width as int, self.height as int, x as int, y as int);
        }
        self.data[y * self.width + x]
    }

    /// Overwrites the pixel at `(x, y)`.
    pub fn set_px(&mut self, x: usize, y: usize, c: Rgba)
        requires
            old(self).wf(),
            x < old(self).width,
            y < old(self).height,
        ensures
            final(self).wf(),
            final(self).width == old(self).width,
            final(self).height == old(self).height,
            final(self).data@ == old(self).data@.update(y * old(self).width + x, c),
    {
        proof {
            crate::map::lemma_grid_index(self.width as int, self.height as int, x as int, y as int);
        }
        let i = y * self.width + x;
        self.data.set(i, c);
    }
}

/// A floor or ceiling: either a flat colour or a texture tiled by its own
/// pixel dimensions.
pub enum Surface {
    Color(Rgba),
    Texture(Image),
}

/// Well-formedness of a surface: a texture must be a nonempty image.
pub open spec fn surface_wf(s: Surface) -> bool {
    match s {
        Surface::Color(_) => true,
        Surface::Texture(img) => img.wf() && img.width >= 1 && img.height >= 1,
    }
}

/// The per-symbol resource table: texture bindings and wall-height
/// multipliers for each of the 256 byte symbols.
pub struct TextureSet {
    /// The bound textures.
    pub images: Vec<Image>,
    /// Per symbol, the texture's index in `images` plus one; `0` means no
    /// binding.
    pub ids: Vec<usize>,
    /// Per symbol, the wall-height multiplier, fixed-point (`ONE` is one
    /// tile).
    pub heights: Vec<i64>,
}

impl TextureSet {
    /// Well-formedness: full tables, valid indices, nonempty well-formed
    /// textures, bounded height multipliers.
    pub open spec fn wf(&self) -> bool {
        &&& self.ids@.len() == 256
        &&& self.heights@.len() == 256
        &&& forall|s: int| 0 <= s < 256 ==> #[trigger] self.ids@[s] <= self.images@.len()
        &&& forall|i: int|
            0 <= i < self.images@.len() ==> (#[trigger] self.images@[i]).wf()
                && self.images@[i].width >= 1 && self.images@[i].height >= 1
        &&& forall|s: int| 0 <= s < 256 ==> 1 <= #[trigger] self.heights@[s] <= HMUL_MAX
    }

    /// Whether symbol `sym` has a texture bound.
    pub open spec fn has_tex(&self, sym: u8) -> bool {
        self.ids@[sym as int] != 0
    }

    /// The texture bound to symbol `sym`.
    pub open spec fn tex_of(&self, sym: u8) -> Image {
        self.images@[self.ids@[sym as int] - 1]
    }

    /// The wall-height multiplier of symbol `sym` (fixed-point).
    pub open spec fn height_of(&self, sym: u8) -> int {
        self.heights@[sym as int] as int
    }

    /// An empty table: no textures, every height multiplier `ONE`.
    pub fn new() -> (r: TextureSet)
        ensures
            r.wf(),
            r.images@.len() == 0,
            forall|s: int| 0 <= s < 256 ==> #[trigger] r.ids@[s] == 0,
            forall|s: int| 0 <= s < 256 ==> #[trigger] r.heights@[s] == ONE,
    {
        let mut ids: Vec<usize> = Vec::new();
        let mut heights: Vec<i64> = Vec::new();
        let mut i: usize = 0;
        while i < 256
            invariant
                0 <= i <= 256,
                ids@.len() == i,
                heights@.len() == i,
                forall|s: int| 0 <= s < i ==> #[trigger] ids@[s] == 0,
                forall|s: int| 0 <= s < i ==> #[trigger] heights@[s] == ONE,
            decreases 256 - i,
        {
            ids.push(0);
            heights.push(ONE);
            i = i + 1;
        }
        TextureSet { images: Vec::new(), ids, heights }
    }

    /// Binds a texture image to symbol `sym`.
    pub fn bind(&mut self, sym: u8, img: Image)
        requires
            old(self).wf(),
            img.wf(),
            img.width >= 1,
            img.height >= 1,
        ensures
            final(self).wf(),
            final(self).has_tex(sym),
            final(self).tex_of(sym) == img,
            final(self).heights@ == old(self).heights@,
            forall|s: int|
                0 <= s < 256 && s != sym ==> #[trigger] final(self).ids@[s] == old(self).ids@[s],
    {
        self.images.push(img);
        let id = self.images.len();
        self.ids.set(sym as usize, id);
    }

    /// Sets the wall-height multiplier of symbol `sym` (fixed-point).
    pub fn set_height(&mut self, sym: u8, hmul: i64)
        requires
            old(self).wf(),
            1 <= hmul <= HMUL_MAX,
        ensures
            final(self).wf(),
            final(self).height_of(sym) == hmul,
            final(self).ids@ == old(self).ids@,
            final(self).images@ == old(self).images@,
            forall|s: int|
                0 <= s < 256 && s != sym ==> #[trigger] final(self).heights@[s] == old(
                    self,
                ).heights@[s],
    {
        self.heights.set(sym as usize, hmul);
    }

    /// The texture bound to symbol `sym`, if any.
    pub fn texture(&self, sym: u8) -> (r: Option<&Image>)
        requires
            self.wf(),
        ensures
            (r is Some) == self.has_tex(sym),
            r matches Some(img) ==> *img == self.tex_of(sym),
    {
        let id = self.ids[sym as usize];
        if id == 0 {
            None
        } else {
            Some(&self.images[id - 1])
        }
    }

    /// The wall-height multiplier of symbol `sym` (fixed-point; `ONE` for an
    /// unbound symbol of a fresh table).
    pub fn height(&self, sym: u8) -> (r: i64)
        requires
            self.wf(),
        ensures
            r == self.height_of(sym),
            1 <= r <= HMUL_MAX,
    {
        self.heights[sym as usize]
    }
}

} // verus!
