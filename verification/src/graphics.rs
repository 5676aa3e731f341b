//! The raster blit engine and its destination surface.
//!
//! A [`Surface`] is a rectangular pixel grid with fixed bounds whose single
//! primitive operation, [`Surface::set_pixel`], silently ignores writes with
//! out-of-range coordinates.  [`Graphics`] owns the two drawing layers of the
//! display and carries the blit entry points: four hand-specialized traversal
//! loops, one per [`RotDirection`], plus two downward-only variants.  Each
//! entry point's contract pins down, for every surface pixel, exactly which
//! source byte it is taken from or that it is left unchanged.

use crate::bmp::{
    end_index, spec_height, spec_pixel_data_offset, spec_row_padding, spec_stride,
    spec_transparent_at, spec_width, src_index, BitmapView,
};
use crate::geom::{lemma_row_major_in_range, lemma_row_major_injective};
use vstd::prelude::*;

verus! {

/// A pixel color with an alpha channel, as the display layers store it.
#[derive(Clone, Copy, PartialEq, Eq, Structural, Debug)]
pub struct Color {
    pub red: u8,
    pub green: u8,
    pub blue: u8,
    pub alpha: u8,
}

impl Color {
    /// A fully opaque color.
    pub fn rgb(red: u8, green: u8, blue: u8) -> (c: Color)
        ensures
            c == (Color { red, green, blue, alpha: 255 }),
    {
        Color { red, green, blue, alpha: 255 }
    }

    /// A color with an explicit alpha channel.
    pub fn rgba(red: u8, green: u8, blue: u8, alpha: u8) -> (c: Color)
        ensures
            c == (Color { red, green, blue, alpha }),
    {
        Color { red, green, blue, alpha }
    }

    /// An opaque color from a `0xRRGGBB` value.
    pub fn from_hex(hex: u32) -> (c: Color)
        ensures
            c == spec_from_hex(hex),
    {
        proof {
            assert((hex >> 16) & 0xff < 256 && (hex >> 8) & 0xff < 256 && hex & 0xff < 256)
                by (bit_vector);
        }
        Color {
            red: ((hex >> 16) & 0xff) as u8,
            green: ((hex >> 8) & 0xff) as u8,
            blue: (hex & 0xff) as u8,
            alpha: 255,
        }
    }
}

/// The color that `from_hex` builds.
pub open spec fn spec_from_hex(hex: u32) -> Color {
    Color {
        red: ((hex >> 16) & 0xff) as u8,
        green: ((hex >> 8) & 0xff) as u8,
        blue: (hex & 0xff) as u8,
        alpha: 255,
    }
}

/// The color of the source pixel whose first (blue) byte sits at `i`:
/// bytes are stored B,G,R and are emitted as an opaque R,G,B color.
pub open spec fn color_at(pic: Seq<u8>, i: int) -> Color {
    Color { red: pic[i + 2], green: pic[i + 1], blue: pic[i], alpha: 255 }
}

/// The four on-screen rotations a bitmap can be drawn under, clockwise.
pub enum RotDirection {
    R0,
    R90,
    R180,
    R270,
}

/// The color a destination pixel receives from source pixel bytes at `i`:
/// the source color, unless the color key is active and the source pixel is
/// near-white, in which case the destination keeps its previous color.
pub open spec fn keyed_pixel(prev: Color, pic: Seq<u8>, i: int, keyed: bool) -> Color {
    if keyed && spec_transparent_at(pic, i) {
        prev
    } else {
        color_at(pic, i)
    }
}

/// Every byte of every start-anchored pixel lies inside the buffer.
pub proof fn lemma_src_index_in_bounds(pic: Seq<u8>, c: int, r: int)
    requires
        0 <= c < spec_width(pic),
        0 <= r < spec_height(pic),
        spec_pixel_data_offset(pic) + spec_height(pic) * spec_stride(pic) <= pic.len(),
        pic.len() >= 24,
    ensures
        0 <= src_index(pic, c, r),
        src_index(pic, c, r) + 2 < pic.len(),
{
    assert(r * spec_stride(pic) + 3 * c + 3 <= spec_height(pic) * spec_stride(pic))
        by (nonlinear_arith)
        requires
            0 <= c < spec_width(pic),
            0 <= r < spec_height(pic),
            spec_stride(pic) >= 3 * spec_width(pic),
    ;
}

/// A rectangular pixel grid with fixed bounds.  The only write operation is
/// a single-pixel store that ignores out-of-range coordinates, so no blit can
/// corrupt memory whatever origin it is given.
pub struct Surface {
    width: usize,
    height: usize,
    pixels: Vec<Color>,
}

impl Surface {
    /// Width of the surface in pixels.
    pub closed spec fn spec_width(&self) -> int {
        self.width as int
    }

    /// Height of the surface in pixels.
    pub closed spec fn spec_height(&self) -> int {
        self.height as int
    }

    /// The pixel store, row-major with rows of `spec_width()` pixels.
    pub closed spec fn pixels_seq(&self) -> Seq<Color> {
        self.pixels@
    }

    /// The store holds exactly one color per cell of the rectangle.
    pub open spec fn wf(&self) -> bool {
        self.pixels_seq().len() == self.spec_width() * self.spec_height()
    }

    /// Whether `(x, y)` lies on the surface.
    pub open spec fn in_bounds(&self, x: int, y: int) -> bool {
        0 <= x < self.spec_width() && 0 <= y < self.spec_height()
    }

    /// The color stored at `(x, y)`.
    pub open spec fn pixel(&self, x: int, y: int) -> Color {
        self.pixels_seq()[y * self.spec_width() + x]
    }

    /// Two surfaces of equal bounds whose pixels all agree are equal stores.
    pub open spec fn same_bounds(&self, other: &Surface) -> bool {
        self.spec_width() == other.spec_width() && self.spec_height() == other.spec_height()
    }

    /// Creates a surface with every pixel set to `fill`.
    pub fn new(width: usize, height: usize, fill: Color) -> (s: Surface)
        requires
            width * height <= usize::MAX,
        ensures
            s.wf(),
            s.spec_width() == width,
            s.spec_height() == height,
            forall|x: int, y: int| s.in_bounds(x, y) ==> #[trigger] s.pixel(x, y) == fill,
    {
        let total = width * height;
        let mut pixels: Vec<Color> = Vec::new();
        let mut i: usize = 0;
        while i < total
            invariant
                i <= total,
                pixels@.len() == i,
                forall|k: int| 0 <= k < i ==> pixels@[k] == fill,
            decreases total - i,
        {
            pixels.push(fill);
            i = i + 1;
        }
        let s = Surface { width, height, pixels };
        proof {
            assert forall|x: int, y: int| s.in_bounds(x, y) implies #[trigger] s.pixel(x, y)
                == fill by {
                lemma_row_major_in_range(x, y, width as int, height as int);
            }
        }
        s
    }

    /// Width of the surface in pixels.
    pub fn width(&self) -> (w: usize)
        ensures
            w == self.spec_width(),
    {
        self.width
    }

    /// Height of the surface in pixels.
    pub fn height(&self) -> (h: usize)
        ensures
            h == self.spec_height(),
    {
        self.height
    }

    /// Reads the color stored at `(x, y)`.
    pub fn get_pixel(&self, x: usize, y: usize) -> (c: Color)
        requires
            self.wf(),
            self.in_bounds(x as int, y as int),
        ensures
            c == self.pixel(x as int, y as int),
    {
        let _n: usize = self.pixels.len();
        proof {
            lemma_row_major_in_range(x as int, y as int, self.spec_width(), self.spec_height());
        }
        self.pixels[y * self.width + x]
    }

    /// Stores `color` at `(x, y)`; coordinates off the surface are ignored.
    pub fn set_pixel(&mut self, x: usize, y: usize, color: Color)
        requires
            old(self).wf(),
        ensures
            final(self).wf(),
            final(self).same_bounds(old(self)),
            forall|px: int, py: int|
                final(self).in_bounds(px, py) ==> #[trigger] final(self).pixel(px, py) == (if px
                    == x && py == y {
                    color
                } else {
                    old(self).pixel(px, py)
                }),
    {
        if x < self.width && y < self.height {
            let _n: usize = self.pixels.len();
            proof {
                lemma_row_major_in_range(x as int, y as int, self.spec_width(), self.spec_height());
            }
            let idx = y * self.width + x;
            self.pixels.set(idx, color);
            proof {
                assert forall|px: int, py: int| final(self).in_bounds(px, py) implies #[trigger]
                    final(self).pixel(px, py) == (if px == x && py == y {
                    color
                } else {
                    old(self).pixel(px, py)
                }) by {
                    lemma_row_major_in_range(px, py, self.spec_width(), self.spec_height());
                    if py * self.spec_width() + px == idx {
                        lemma_row_major_injective(px, py, x as int, y as int, self.spec_width());
                    }
                }
            }
        }
    }
}

/// The color `(px, py)` holds after source columns and rows up to `(i, j)`
/// of an unrotated draw at origin `(x, y)` have been copied: source pixel
/// `(c, r)` lands at `(x + c, y + H - 1 - r)`, so the bottom stored row is
/// placed at the bottom of the destination box.  Rows `r < i` are complete,
/// and in row `i` the columns `c < j` are.  The color key applies when
/// `keyed` is set.
pub open spec fn rot0_expected(
    s0: Surface,
    pic: Seq<u8>,
    x: int,
    y: int,
    keyed: bool,
    i: int,
    j: int,
    px: int,
    py: int,
) -> Color {
    let c = px - x;
    let r = y + spec_height(pic) - 1 - py;
    if x <= px < x + spec_width(pic) && y <= py < y + spec_height(pic) && (r < i || (r == i && c
        < j)) {
        keyed_pixel(s0.pixel(px, py), pic, src_index(pic, c, r), keyed)
    } else {
        s0.pixel(px, py)
    }
}

/// Surface `s` is surface `s0` with rows below `i` (and row `i` up to column
/// `j`) of the unrotated draw applied.
pub open spec fn rot0_partial(
    s0: Surface,
    s: Surface,
    pic: Seq<u8>,
    x: int,
    y: int,
    keyed: bool,
    i: int,
    j: int,
) -> bool {
    forall|px: int, py: int|
        s.in_bounds(px, py) ==> #[trigger] s.pixel(px, py) == rot0_expected(
            s0,
            pic,
            x,
            y,
            keyed,
            i,
            j,
            px,
            py,
        )
}

/// Surface `s` is surface `s0` with the whole unrotated draw applied.
pub open spec fn rot0_drawn(s0: Surface, s: Surface, pic: Seq<u8>, x: int, y: int, keyed: bool) -> bool {
    rot0_partial(s0, s, pic, x, y, keyed, spec_height(pic), 0)
}

/// The unrotated traversal: rows are read from the lowest source index
/// (the bottom stored row) upward and placed from `y + height - 1` upward,
/// stepping the byte cursor by 3 within a row and by the row padding at each
/// row boundary.
#[verifier::loop_isolation(false)]
fn blit_rot0(surface: &mut Surface, pic: &[u8], x: u32, y: u32, keyed: bool)
    requires
        old(surface).wf(),
        pic@.len() >= 24,
        1 <= spec_width(pic@),
        1 <= spec_height(pic@),
        spec_pixel_data_offset(pic@) + spec_height(pic@) * spec_stride(pic@) <= pic@.len(),
        pic@.len() <= u32::MAX,
        x + spec_width(pic@) <= u32::MAX,
        y + spec_height(pic@) <= u32::MAX,
    ensures
        final(surface).wf(),
        final(surface).same_bounds(old(surface)),
        rot0_drawn(*old(surface), *final(surface), pic@, x as int, y as int, keyed),
{
    let bv = BitmapView::from_bytes(pic);
    let width = bv.width;
    let height = bv.height;
    let pixel_rest = bv.row_padding;
    let at_x = x;
    let at_y = y + height - 1;
    let mut bytenr: u32 = bv.pixel_data_offset;
    let mut i: u32 = 0;
    while i < height
        invariant
            i <= height,
            surface.wf(),
            surface.same_bounds(old(surface)),
            bytenr == spec_pixel_data_offset(pic@) + i * spec_stride(pic@),
            rot0_partial(*old(surface), *surface, pic@, x as int, y as int, keyed, i as int, 0),
        decreases height - i,
    {
        proof {
            lemma_src_index_in_bounds(pic@, 0, i as int);
            lemma_src_index_in_bounds(pic@, spec_width(pic@) - 1, i as int);
        }
        let mut j: u32 = 0;
        while j < width
            invariant
                j <= width,
                i < height,
                surface.wf(),
                surface.same_bounds(old(surface)),
                bytenr == src_index(pic@, j as int, i as int),
                rot0_partial(*old(surface), *surface, pic@, x as int, y as int, keyed, i as int, j as int),
            decreases width - j,
        {
            proof {
                lemma_src_index_in_bounds(pic@, j as int, i as int);
            }
            let b0 = pic[bytenr as usize];
            let b1 = pic[(bytenr + 1) as usize];
            let b2 = pic[(bytenr + 2) as usize];
            let ghost prev = *surface;
            if keyed && b2 > 245 && b1 > 245 && b0 > 245 {
            } else {
                surface.set_pixel((j + at_x) as usize, (at_y - i) as usize, Color::rgb(b2, b1, b0));
            }
            proof {
                let gx = x as int;
                let gy = y as int;
                assert forall|px: int, py: int| surface.in_bounds(px, py) implies #[trigger]
                    surface.pixel(px, py) == rot0_expected(
                    *old(surface),
                    pic@,
                    gx,
                    gy,
                    keyed,
                    i as int,
                    j + 1,
                    px,
                    py,
                ) by {
                    assert(prev.pixel(px, py) == rot0_expected(
                        *old(surface),
                        pic@,
                        gx,
                        gy,
                    keyed,
                        i as int,
                        j as int,
                        px,
                        py,
                    ));
                }
            }
            bytenr = bytenr + 3;
            j = j + 1;
        }
        proof {
            let gx = x as int;
            let gy = y as int;
            assert forall|px: int, py: int| surface.in_bounds(px, py) implies #[trigger]
                surface.pixel(px, py) == rot0_expected(
                *old(surface),
                pic@,
                gx,
                gy,
                    keyed,
                i + 1,
                0,
                px,
                py,
            ) by {
                assert(surface.pixel(px, py) == rot0_expected(
                    *old(surface),
                    pic@,
                    gx,
                    gy,
                    keyed,
                    i as int,
                    spec_width(pic@),
                    px,
                    py,
                ));
            }
        }
        proof {
            assert((i + 1) * spec_stride(pic@) == i * spec_stride(pic@) + spec_stride(pic@))
                by (nonlinear_arith);
            assert((i + 1) * spec_stride(pic@) <= spec_height(pic@) * spec_stride(pic@))
                by (nonlinear_arith)
                requires
                    i + 1 <= spec_height(pic@),
                    spec_stride(pic@) >= 0,
            ;
        }
        bytenr = bytenr + pixel_rest;
        i = i + 1;
    }
}

/// The color `(px, py)` holds after destination columns up to `i` (and in
/// column band `i`, destination rows up to `j`) of a quarter-turn clockwise
/// draw at origin `(x, y)` have been copied: source pixel `(c, r)` lands at
/// `(x + r, y + c)`, which on the bottom-up source rows is a 90-degree
/// clockwise visual rotation, inside an `H x W` destination box.  The color
/// key applies when `keyed` is set.
pub open spec fn rot90_expected(
    s0: Surface,
    pic: Seq<u8>,
    x: int,
    y: int,
    keyed: bool,
    i: int,
    j: int,
    px: int,
    py: int,
) -> Color {
    let r = px - x;
    let c = py - y;
    if x <= px < x + spec_height(pic) && y <= py < y + spec_width(pic) && (spec_width(pic) - 1 - c
        < i || (spec_width(pic) - 1 - c == i && r < j)) {
        keyed_pixel(s0.pixel(px, py), pic, src_index(pic, c, r), keyed)
    } else {
        s0.pixel(px, py)
    }
}

/// Surface `s` is surface `s0` with the first `i` column bands (and `j` rows
/// of band `i`) of the quarter-turn clockwise draw applied.
pub open spec fn rot90_partial(
    s0: Surface,
    s: Surface,
    pic: Seq<u8>,
    x: int,
    y: int,
    keyed: bool,
    i: int,
    j: int,
) -> bool {
    forall|px: int, py: int|
        s.in_bounds(px, py) ==> #[trigger] s.pixel(px, py) == rot90_expected(
            s0,
            pic,
            x,
            y,
            keyed,
            i,
            j,
            px,
            py,
        )
}

/// Surface `s` is surface `s0` with the whole quarter-turn clockwise draw
/// applied.
pub open spec fn rot90_drawn(s0: Surface, s: Surface, pic: Seq<u8>, x: int, y: int, keyed: bool) -> bool {
    rot90_partial(s0, s, pic, x, y, keyed, spec_width(pic), 0)
}

/// Every byte of every end-anchored pixel lies inside the buffer.
pub proof fn lemma_end_index_in_bounds(pic: Seq<u8>, c: int, r: int)
    requires
        0 <= c < spec_width(pic),
        0 <= r < spec_height(pic),
        spec_height(pic) * spec_stride(pic) < pic.len(),
        pic.len() >= 24,
    ensures
        1 <= end_index(pic, c, r),
        end_index(pic, c, r) + 2 < pic.len(),
{
    assert(spec_stride(pic) <= (spec_height(pic) - r) * spec_stride(pic)
        <= spec_height(pic) * spec_stride(pic)) by (nonlinear_arith)
        requires
            0 <= r < spec_height(pic),
            spec_stride(pic) >= 0,
    ;
    assert(3 * c + 3 <= spec_stride(pic));
}

/// Every byte of every end-anchored pixel lies inside the buffer, also when
/// the pixel data may reach the very start of the buffer.
pub proof fn lemma_end_index_covers(pic: Seq<u8>, c: int, r: int)
    requires
        0 <= c < spec_width(pic),
        0 <= r < spec_height(pic),
        spec_height(pic) * spec_stride(pic) <= pic.len(),
        pic.len() >= 24,
    ensures
        0 <= end_index(pic, c, r),
        end_index(pic, c, r) + 2 < pic.len(),
{
    assert(spec_stride(pic) <= (spec_height(pic) - r) * spec_stride(pic)
        <= spec_height(pic) * spec_stride(pic)) by (nonlinear_arith)
        requires
            0 <= r < spec_height(pic),
            spec_stride(pic) >= 0,
    ;
    assert(3 * c + 3 <= spec_stride(pic));
}

/// The quarter-turn clockwise traversal: each destination column band starts
/// at the last pixels of the first source row and steps downward through the
/// source rows by one encoded row stride per destination pixel.
#[verifier::loop_isolation(false)]
fn blit_rot90(surface: &mut Surface, pic: &[u8], x: u32, y: u32, keyed: bool)
    requires
        old(surface).wf(),
        pic@.len() >= 24,
        1 <= spec_width(pic@),
        1 <= spec_height(pic@),
        spec_pixel_data_offset(pic@) + spec_height(pic@) * spec_stride(pic@) <= pic@.len(),
        pic@.len() + 3 * spec_width(pic@) <= u32::MAX,
        x + spec_height(pic@) <= u32::MAX,
        y + spec_width(pic@) <= u32::MAX,
    ensures
        final(surface).wf(),
        final(surface).same_bounds(old(surface)),
        rot90_drawn(*old(surface), *final(surface), pic@, x as int, y as int, keyed),
{
    let bv = BitmapView::from_bytes(pic);
    let width = bv.width;
    let height = bv.height;
    let pixel_rest = bv.row_padding;
    let pixels_start = bv.pixel_data_offset;
    let rot_width = height;
    let rot_height = width;
    let at_x = x;
    let at_y = y + rot_height - 1;
    let mut i: u32 = 0;
    while i < rot_height
        invariant
            i <= rot_height,
            surface.wf(),
            surface.same_bounds(old(surface)),
            rot90_partial(*old(surface), *surface, pic@, x as int, y as int, keyed, i as int, 0),
        decreases rot_height - i,
    {
        proof {
            lemma_src_index_in_bounds(pic@, spec_width(pic@) - 1 - i, 0);
        }
        let mut bytenr: u32 = pixels_start + width * 3 - 3 * (i + 1);
        let mut j: u32 = 0;
        while j < rot_width
            invariant
                j <= rot_width,
                i < rot_height,
                surface.wf(),
                surface.same_bounds(old(surface)),
                bytenr == src_index(pic@, spec_width(pic@) - 1 - i, j as int),
                rot90_partial(*old(surface), *surface, pic@, x as int, y as int, keyed, i as int, j as int),
            decreases rot_width - j,
        {
            proof {
                lemma_src_index_in_bounds(pic@, spec_width(pic@) - 1 - i, j as int);
                assert((j + 1) * spec_stride(pic@) == j * spec_stride(pic@) + spec_stride(pic@))
                    by (nonlinear_arith);
                assert((j + 1) * spec_stride(pic@) <= spec_height(pic@) * spec_stride(pic@))
                    by (nonlinear_arith)
                    requires
                        j + 1 <= spec_height(pic@),
                        spec_stride(pic@) >= 0,
                ;
            }
            let b0 = pic[bytenr as usize];
            let b1 = pic[(bytenr + 1) as usize];
            let b2 = pic[(bytenr + 2) as usize];
            let ghost prev = *surface;
            if keyed && b2 > 245 && b1 > 245 && b0 > 245 {
            } else {
                surface.set_pixel((j + at_x) as usize, (at_y - i) as usize, Color::rgb(b2, b1, b0));
            }
            proof {
                let gx = x as int;
                let gy = y as int;
                assert forall|px: int, py: int| surface.in_bounds(px, py) implies #[trigger]
                    surface.pixel(px, py) == rot90_expected(
                    *old(surface),
                    pic@,
                    gx,
                    gy,
                    keyed,
                    i as int,
                    j + 1,
                    px,
                    py,
                ) by {
                    assert(prev.pixel(px, py) == rot90_expected(
                        *old(surface),
                        pic@,
                        gx,
                        gy,
                    keyed,
                        i as int,
                        j as int,
                        px,
                        py,
                    ));
                }
            }
            bytenr = bytenr + width * 3 + pixel_rest;
            j = j + 1;
        }
        proof {
            let gx = x as int;
            let gy = y as int;
            assert forall|px: int, py: int| surface.in_bounds(px, py) implies #[trigger]
                surface.pixel(px, py) == rot90_expected(
                *old(surface),
                pic@,
                gx,
                gy,
                    keyed,
                i + 1,
                0,
                px,
                py,
            ) by {
                assert(surface.pixel(px, py) == rot90_expected(
                    *old(surface),
                    pic@,
                    gx,
                    gy,
                    keyed,
                    i as int,
                    spec_height(pic@),
                    px,
                    py,
                ));
            }
        }
        i = i + 1;
    }
}

/// The color `(px, py)` holds after the first `i` destination rows (and `j`
/// pixels of row `i`) of a half-turn draw at origin `(x, y)` have been
/// copied: source pixel `(c, r)` lands at `(x + W - 1 - c, y + r)`.  The
/// traversal walks backward from the final byte of the buffer, so the source
/// positions are the end-anchored ones.  The color key applies when
/// `keyed` is set.
pub open spec fn rot180_expected(
    s0: Surface,
    pic: Seq<u8>,
    x: int,
    y: int,
    keyed: bool,
    i: int,
    j: int,
    px: int,
    py: int,
) -> Color {
    let c = x + spec_width(pic) - 1 - px;
    let r = py - y;
    if x <= px < x + spec_width(pic) && y <= py < y + spec_height(pic) && (y + spec_height(pic) - 1
        - py < i || (y + spec_height(pic) - 1 - py == i && px - x < j)) {
        keyed_pixel(s0.pixel(px, py), pic, end_index(pic, c, r), keyed)
    } else {
        s0.pixel(px, py)
    }
}

/// Surface `s` is surface `s0` with the first `i` destination rows (and `j`
/// pixels of row `i`) of the half-turn draw applied.
pub open spec fn rot180_partial(
    s0: Surface,
    s: Surface,
    pic: Seq<u8>,
    x: int,
    y: int,
    keyed: bool,
    i: int,
    j: int,
) -> bool {
    forall|px: int, py: int|
        s.in_bounds(px, py) ==> #[trigger] s.pixel(px, py) == rot180_expected(
            s0,
            pic,
            x,
            y,
            keyed,
            i,
            j,
            px,
            py,
        )
}

/// Surface `s` is surface `s0` with the whole half-turn draw applied.
pub open spec fn rot180_drawn(s0: Surface, s: Surface, pic: Seq<u8>, x: int, y: int, keyed: bool) -> bool {
    rot180_partial(s0, s, pic, x, y, keyed, spec_height(pic), 0)
}

/// The half-turn traversal: begins at the final byte of the buffer and walks
/// backward through each row, reading each pixel's channel bytes in reverse
/// order, so the red and blue channels come out in the same positions as in
/// the forward read.
#[verifier::loop_isolation(false)]
fn blit_rot180(surface: &mut Surface, pic: &[u8], x: u32, y: u32, keyed: bool)
    requires
        old(surface).wf(),
        pic@.len() >= 24,
        1 <= spec_width(pic@),
        1 <= spec_height(pic@),
        spec_height(pic@) * spec_stride(pic@) < pic@.len(),
        pic@.len() <= u32::MAX,
        x + spec_width(pic@) <= u32::MAX,
        y + spec_height(pic@) <= u32::MAX,
    ensures
        final(surface).wf(),
        final(surface).same_bounds(old(surface)),
        rot180_drawn(*old(surface), *final(surface), pic@, x as int, y as int, keyed),
{
    let bv = BitmapView::from_bytes(pic);
    let width = bv.width;
    let height = bv.height;
    let pixel_rest = bv.row_padding;
    let at_x = x;
    let at_y = y + height - 1;
    let pic_length: u32 = pic.len() as u32;
    let mut bytenr: u32 = pic_length - 1;
    let mut i: u32 = 0;
    while i < height
        invariant
            i <= height,
            surface.wf(),
            surface.same_bounds(old(surface)),
            bytenr == pic@.len() - 1 - i * spec_stride(pic@),
            rot180_partial(*old(surface), *surface, pic@, x as int, y as int, keyed, i as int, 0),
        decreases height - i,
    {
        proof {
            lemma_end_index_in_bounds(pic@, 0, spec_height(pic@) - 1 - i);
            lemma_end_index_in_bounds(pic@, spec_width(pic@) - 1, spec_height(pic@) - 1 - i);
            assert((i + 1) * spec_stride(pic@) == i * spec_stride(pic@) + spec_stride(pic@))
                by (nonlinear_arith);
            assert((i + 1) * spec_stride(pic@) <= spec_height(pic@) * spec_stride(pic@))
                by (nonlinear_arith)
                requires
                    i + 1 <= spec_height(pic@),
                    spec_stride(pic@) >= 0,
            ;
            assert((spec_height(pic@) - (spec_height(pic@) - 1 - i)) * spec_stride(pic@) == (i + 1)
                * spec_stride(pic@));
        }
        bytenr = bytenr - pixel_rest;
        let mut j: u32 = 0;
        while j < width
            invariant
                j <= width,
                i < height,
                surface.wf(),
                surface.same_bounds(old(surface)),
                bytenr + 3 * j == end_index(
                    pic@,
                    spec_width(pic@) - 1,
                    spec_height(pic@) - 1 - i,
                ) + 2,
                rot180_partial(
                    *old(surface),
                    *surface,
                    pic@,
                    x as int,
                    y as int,
                    keyed,
                    i as int,
                    j as int,
                ),
            decreases width - j,
        {
            proof {
                lemma_end_index_in_bounds(
                    pic@,
                    spec_width(pic@) - 1 - j,
                    spec_height(pic@) - 1 - i,
                );
                assert(end_index(pic@, spec_width(pic@) - 1 - j, spec_height(pic@) - 1 - i)
                    == end_index(pic@, spec_width(pic@) - 1, spec_height(pic@) - 1 - i) - 3 * j);
            }
            let b_blue = pic[(bytenr - 2) as usize];
            let b_green = pic[(bytenr - 1) as usize];
            let b_red = pic[bytenr as usize];
            let ghost prev = *surface;
            if keyed && b_blue > 245 && b_green > 245 && b_red > 245 {
            } else {
                surface.set_pixel(
                    (j + at_x) as usize,
                    (at_y - i) as usize,
                    Color::rgb(b_red, b_green, b_blue),
                );
            }
            proof {
                let gx = x as int;
                let gy = y as int;
                assert forall|px: int, py: int| surface.in_bounds(px, py) implies #[trigger]
                    surface.pixel(px, py) == rot180_expected(
                    *old(surface),
                    pic@,
                    gx,
                    gy,
                    keyed,
                    i as int,
                    j + 1,
                    px,
                    py,
                ) by {
                    assert(prev.pixel(px, py) == rot180_expected(
                        *old(surface),
                        pic@,
                        gx,
                        gy,
                    keyed,
                        i as int,
                        j as int,
                        px,
                        py,
                    ));
                }
            }
            bytenr = bytenr - 3;
            j = j + 1;
        }
        proof {
            let gx = x as int;
            let gy = y as int;
            assert forall|px: int, py: int| surface.in_bounds(px, py) implies #[trigger]
                surface.pixel(px, py) == rot180_expected(
                *old(surface),
                pic@,
                gx,
                gy,
                    keyed,
                i + 1,
                0,
                px,
                py,
            ) by {
                assert(surface.pixel(px, py) == rot180_expected(
                    *old(surface),
                    pic@,
                    gx,
                    gy,
                    keyed,
                    i as int,
                    spec_width(pic@),
                    px,
                    py,
                ));
            }
        }
        i = i + 1;
    }
}

/// The color `(px, py)` holds after the first `i` destination column bands
/// (and `j` pixels of band `i`) of a quarter-turn counter-clockwise draw at
/// origin `(x, y)` have been copied: source pixel `(c, r)` lands at
/// `(x + H - 1 - r, y + W - 1 - c)`, inside an `H x W` destination box.  The
/// color key applies when `keyed` is set.
pub open spec fn rot270_expected(
    s0: Surface,
    pic: Seq<u8>,
    x: int,
    y: int,
    keyed: bool,
    i: int,
    j: int,
    px: int,
    py: int,
) -> Color {
    let c = y + spec_width(pic) - 1 - py;
    let r = x + spec_height(pic) - 1 - px;
    if x <= px < x + spec_height(pic) && y <= py < y + spec_width(pic) && (c < i || (c == i
        && spec_height(pic) - 1 - r < j)) {
        keyed_pixel(s0.pixel(px, py), pic, src_index(pic, c, r), keyed)
    } else {
        s0.pixel(px, py)
    }
}

/// Surface `s` is surface `s0` with the first `i` destination column bands
/// (and `j` pixels of band `i`) of the quarter-turn counter-clockwise draw
/// applied.
pub open spec fn rot270_partial(
    s0: Surface,
    s: Surface,
    pic: Seq<u8>,
    x: int,
    y: int,
    keyed: bool,
    i: int,
    j: int,
) -> bool {
    forall|px: int, py: int|
        s.in_bounds(px, py) ==> #[trigger] s.pixel(px, py) == rot270_expected(
            s0,
            pic,
            x,
            y,
            keyed,
            i,
            j,
            px,
            py,
        )
}

/// Surface `s` is surface `s0` with the whole quarter-turn counter-clockwise
/// draw applied.
pub open spec fn rot270_drawn(s0: Surface, s: Surface, pic: Seq<u8>, x: int, y: int, keyed: bool) -> bool {
    rot270_partial(s0, s, pic, x, y, keyed, spec_width(pic), 0)
}

/// The quarter-turn counter-clockwise traversal: each destination column
/// band starts at the topmost stored row and steps back toward the bottom
/// row by one encoded row stride per destination pixel, guarded so the
/// cursor never wraps below zero.
#[verifier::loop_isolation(false)]
fn blit_rot270(surface: &mut Surface, pic: &[u8], x: u32, y: u32, keyed: bool)
    requires
        old(surface).wf(),
        pic@.len() >= 24,
        1 <= spec_width(pic@),
        1 <= spec_height(pic@),
        1 <= spec_pixel_data_offset(pic@),
        spec_pixel_data_offset(pic@) + spec_height(pic@) * spec_stride(pic@) <= pic@.len(),
        pic@.len() <= u32::MAX,
        x + spec_height(pic@) <= u32::MAX,
        y + spec_width(pic@) <= u32::MAX,
    ensures
        final(surface).wf(),
        final(surface).same_bounds(old(surface)),
        rot270_drawn(*old(surface), *final(surface), pic@, x as int, y as int, keyed),
{
    let bv = BitmapView::from_bytes(pic);
    let width = bv.width;
    let height = bv.height;
    let pixel_rest = bv.row_padding;
    let pixels_start = bv.pixel_data_offset;
    let rot_width = height;
    let rot_height = width;
    let at_x = x;
    let at_y = y + rot_height - 1;
    let row_stride = bv.stride();
    let mut i: u32 = 0;
    while i < rot_height
        invariant
            i <= rot_height,
            surface.wf(),
            surface.same_bounds(old(surface)),
            rot270_partial(*old(surface), *surface, pic@, x as int, y as int, keyed, i as int, 0),
        decreases rot_height - i,
    {
        proof {
            lemma_src_index_in_bounds(pic@, i as int, spec_height(pic@) - 1);
            assert((spec_height(pic@) - 1) * spec_stride(pic@) <= spec_height(pic@) * spec_stride(
                pic@,
            )) by (nonlinear_arith)
                requires
                    spec_height(pic@) >= 1,
                    spec_stride(pic@) >= 0,
            ;
        }
        let mut bytenr: u32 = pixels_start + (height - 1) * row_stride + i * 3;
        let mut j: u32 = 0;
        while j < rot_width
            invariant
                j <= rot_width,
                i < rot_height,
                surface.wf(),
                surface.same_bounds(old(surface)),
                j < rot_width ==> bytenr == src_index(
                    pic@,
                    i as int,
                    spec_height(pic@) - 1 - j,
                ),
                rot270_partial(
                    *old(surface),
                    *surface,
                    pic@,
                    x as int,
                    y as int,
                    keyed,
                    i as int,
                    j as int,
                ),
            decreases rot_width - j,
        {
            proof {
                lemma_src_index_in_bounds(pic@, i as int, spec_height(pic@) - 1 - j);
                assert((spec_height(pic@) - 1 - j) * spec_stride(pic@) - spec_stride(pic@) == (
                spec_height(pic@) - 2 - j) * spec_stride(pic@)) by (nonlinear_arith);
                assert(spec_height(pic@) - 1 - j >= 1 ==> (spec_height(pic@) - 1 - j) * spec_stride(
                    pic@,
                ) >= spec_stride(pic@)) by (nonlinear_arith);
            }
            let b0 = pic[bytenr as usize];
            let b1 = pic[(bytenr + 1) as usize];
            let b2 = pic[(bytenr + 2) as usize];
            let ghost prev = *surface;
            if keyed && b2 > 245 && b1 > 245 && b0 > 245 {
            } else {
                surface.set_pixel((j + at_x) as usize, (at_y - i) as usize, Color::rgb(b2, b1, b0));
            }
            proof {
                let gx = x as int;
                let gy = y as int;
                assert forall|px: int, py: int| surface.in_bounds(px, py) implies #[trigger]
                    surface.pixel(px, py) == rot270_expected(
                    *old(surface),
                    pic@,
                    gx,
                    gy,
                    keyed,
                    i as int,
                    j + 1,
                    px,
                    py,
                ) by {
                    assert(prev.pixel(px, py) == rot270_expected(
                        *old(surface),
                        pic@,
                        gx,
                        gy,
                    keyed,
                        i as int,
                        j as int,
                        px,
                        py,
                    ));
                }
            }
            if bytenr > row_stride {
                bytenr = bytenr - row_stride;
            }
            j = j + 1;
        }
        proof {
            let gx = x as int;
            let gy = y as int;
            assert forall|px: int, py: int| surface.in_bounds(px, py) implies #[trigger]
                surface.pixel(px, py) == rot270_expected(
                *old(surface),
                pic@,
                gx,
                gy,
                    keyed,
                i + 1,
                0,
                px,
                py,
            ) by {
                assert(surface.pixel(px, py) == rot270_expected(
                    *old(surface),
                    pic@,
                    gx,
                    gy,
                    keyed,
                    i as int,
                    spec_height(pic@),
                    px,
                    py,
                ));
            }
        }
        i = i + 1;
    }
}

/// The color of the source pixel at `i`, emitted with a dimmed alpha channel
/// equal to the blue byte less 50, as the second drawing layer stores it.
pub open spec fn color_at_dimmed(pic: Seq<u8>, i: int) -> Color {
    Color { red: pic[i + 2], green: pic[i + 1], blue: pic[i], alpha: (pic[i] - 50) as u8 }
}

/// The color `(px, py)` holds after the first `i` destination rows (and `j`
/// pixels of row `i`) of a downward draw at origin `(x, y)` have been
/// copied.  Rows are consumed backward from the end of the buffer and placed
/// top-down, so end-anchored source pixel `(c, r)` lands at
/// `(x + c, y + H - 1 - r)`.  With the color key active the pixel is skipped
/// when near-white and otherwise emitted with the dimmed alpha channel; with
/// the key inactive every pixel is emitted fully opaque.
pub open spec fn down_expected(
    s0: Surface,
    pic: Seq<u8>,
    x: int,
    y: int,
    keyed: bool,
    i: int,
    j: int,
    px: int,
    py: int,
) -> Color {
    let c = px - x;
    let r = y + spec_height(pic) - 1 - py;
    if x <= px < x + spec_width(pic) && y <= py < y + spec_height(pic) && (py - y < i || (py - y
        == i && c < j)) {
        if keyed {
            if spec_transparent_at(pic, end_index(pic, c, r)) {
                s0.pixel(px, py)
            } else {
                color_at_dimmed(pic, end_index(pic, c, r))
            }
        } else {
            color_at(pic, end_index(pic, c, r))
        }
    } else {
        s0.pixel(px, py)
    }
}

/// Surface `s` is surface `s0` with the first `i` destination rows (and `j`
/// pixels of row `i`) of the downward draw applied.
pub open spec fn down_partial(
    s0: Surface,
    s: Surface,
    pic: Seq<u8>,
    x: int,
    y: int,
    keyed: bool,
    i: int,
    j: int,
) -> bool {
    forall|px: int, py: int|
        s.in_bounds(px, py) ==> #[trigger] s.pixel(px, py) == down_expected(
            s0,
            pic,
            x,
            y,
            keyed,
            i,
            j,
            px,
            py,
        )
}

/// Surface `s` is surface `s0` with the whole downward draw applied.
pub open spec fn down_drawn(s0: Surface, s: Surface, pic: Seq<u8>, x: int, y: int, keyed: bool) -> bool {
    down_partial(s0, s, pic, x, y, keyed, spec_height(pic), 0)
}

/// The downward traversal: each destination row's pixels are read forward
/// from a row anchor computed backward from the end of the buffer, so the
/// last stored row is placed first.  With `keyed` the near-white color key
/// skips pixels and the emitted alpha channel is the blue byte less 50.
#[verifier::loop_isolation(false)]
fn blit_down(surface: &mut Surface, pic: &[u8], x: u32, y: u32, keyed: bool)
    requires
        old(surface).wf(),
        pic@.len() >= 24,
        1 <= spec_width(pic@),
        1 <= spec_height(pic@),
        spec_height(pic@) * spec_stride(pic@) <= pic@.len(),
        pic@.len() <= u32::MAX,
        x + spec_width(pic@) <= u32::MAX,
        y + spec_height(pic@) <= u32::MAX,
        keyed ==> (forall|c: int, r: int|
            0 <= c < spec_width(pic@) && 0 <= r < spec_height(pic@) && !spec_transparent_at(
                pic@,
                #[trigger] end_index(pic@, c, r),
            ) ==> pic@[end_index(pic@, c, r)] >= 50),
    ensures
        final(surface).wf(),
        final(surface).same_bounds(old(surface)),
        down_drawn(*old(surface), *final(surface), pic@, x as int, y as int, keyed),
{
    let bv = BitmapView::from_bytes(pic);
    let width = bv.width;
    let height = bv.height;
    let pixel_rest = bv.row_padding;
    let at_x = x;
    let at_y = y;
    let pixel_end: u32 = pic.len() as u32 - 1;
    let mut i: u32 = 0;
    while i < height
        invariant
            i <= height,
            surface.wf(),
            surface.same_bounds(old(surface)),
            down_partial(
                *old(surface),
                *surface,
                pic@,
                x as int,
                y as int,
                keyed,
                i as int,
                0,
            ),
        decreases height - i,
    {
        proof {
            assert((i + 1) * spec_stride(pic@) <= spec_height(pic@) * spec_stride(pic@))
                by (nonlinear_arith)
                requires
                    i + 1 <= spec_height(pic@),
                    spec_stride(pic@) >= 0,
            ;
            assert((spec_height(pic@) - (spec_height(pic@) - 1 - i)) * spec_stride(pic@) == (i + 1)
                * spec_stride(pic@)) by (nonlinear_arith);
            assert(spec_stride(pic@) * (i + 1) == (i + 1) * spec_stride(pic@))
                by (nonlinear_arith);
        }
        let mut bytenr: u32 = pixel_end + 1 - (pixel_rest + width * 3) * (i + 1);
        let mut j: u32 = 0;
        while j < width
            invariant
                j <= width,
                i < height,
                surface.wf(),
                surface.same_bounds(old(surface)),
                bytenr == end_index(pic@, j as int, spec_height(pic@) - 1 - i),
                down_partial(
                    *old(surface),
                    *surface,
                    pic@,
                    x as int,
                    y as int,
                    keyed,
                    i as int,
                    j as int,
                ),
            decreases width - j,
        {
            proof {
                lemma_end_index_covers(pic@, j as int, spec_height(pic@) - 1 - i);
            }
            let b0 = pic[bytenr as usize];
            let b1 = pic[(bytenr + 1) as usize];
            let b2 = pic[(bytenr + 2) as usize];
            let ghost prev = *surface;
            if keyed {
                if b2 > 245 && b1 > 245 && b0 > 245 {
                } else {
                    surface.set_pixel(
                        (j + at_x) as usize,
                        (at_y + i) as usize,
                        Color::rgba(b2, b1, b0, b0 - 50),
                    );
                }
            } else {
                surface.set_pixel((j + at_x) as usize, (at_y + i) as usize, Color::rgb(b2, b1, b0));
            }
            proof {
                let gx = x as int;
                let gy = y as int;
                assert forall|px: int, py: int| surface.in_bounds(px, py) implies #[trigger]
                    surface.pixel(px, py) == down_expected(
                    *old(surface),
                    pic@,
                    gx,
                    gy,
                    keyed,
                    i as int,
                    j + 1,
                    px,
                    py,
                ) by {
                    assert(prev.pixel(px, py) == down_expected(
                        *old(surface),
                        pic@,
                        gx,
                        gy,
                    keyed,
                        i as int,
                        j as int,
                        px,
                        py,
                    ));
                }
            }
            bytenr = bytenr + 3;
            j = j + 1;
        }
        proof {
            let gx = x as int;
            let gy = y as int;
            assert forall|px: int, py: int| surface.in_bounds(px, py) implies #[trigger]
                surface.pixel(px, py) == down_expected(
                *old(surface),
                pic@,
                gx,
                gy,
                    keyed,
                i + 1,
                0,
                px,
                py,
            ) by {
                assert(surface.pixel(px, py) == down_expected(
                    *old(surface),
                    pic@,
                    gx,
                    gy,
                    keyed,
                    i as int,
                    spec_width(pic@),
                    px,
                    py,
                ));
            }
        }
        i = i + 1;
    }
}

/// The conditions under which a bitmap buffer can be drawn at all: a full
/// header, a nonempty pixel rectangle, and a buffer the cursor arithmetic of
/// the traversals cannot overflow on.
pub open spec fn drawable(pic: Seq<u8>) -> bool {
    &&& pic.len() >= 24
    &&& 1 <= spec_width(pic)
    &&& 1 <= spec_height(pic)
    &&& pic.len() + 3 * spec_width(pic) <= u32::MAX
}

/// The start-anchored pixel data fits inside the buffer.
pub open spec fn covers_pixels(pic: Seq<u8>) -> bool {
    spec_pixel_data_offset(pic) + spec_height(pic) * spec_stride(pic) <= pic.len()
}

/// The end-anchored pixel data fits inside the buffer.
pub open spec fn covers_pixels_from_end(pic: Seq<u8>) -> bool {
    spec_height(pic) * spec_stride(pic) <= pic.len()
}

/// Every pixel the second-layer draw would emit has a blue byte of at least
/// 50, so the dimmed alpha channel cannot wrap.
pub open spec fn dimmable(pic: Seq<u8>) -> bool {
    forall|c: int, r: int|
        0 <= c < spec_width(pic) && 0 <= r < spec_height(pic) && !spec_transparent_at(
            pic,
            #[trigger] end_index(pic, c, r),
        ) ==> pic[end_index(pic, c, r)] >= 50
}

/// The color `(px, py)` holds after the first `i` columns (and `j` pixels of
/// column `i`) of a filled `size x size` square at `(x, y)` have been
/// painted.
pub open spec fn square_expected(
    s0: Surface,
    x: int,
    y: int,
    size: int,
    color: Color,
    i: int,
    j: int,
    px: int,
    py: int,
) -> Color {
    if x <= px < x + size && y <= py < y + size && (px - x < i || (px - x == i && py - y < j)) {
        color
    } else {
        s0.pixel(px, py)
    }
}

/// Surface `s` is surface `s0` with a filled `size x size` square of `color`
/// painted at `(x, y)`.
pub open spec fn square_painted(
    s0: Surface,
    s: Surface,
    x: int,
    y: int,
    size: int,
    color: Color,
) -> bool {
    forall|px: int, py: int|
        s.in_bounds(px, py) ==> #[trigger] s.pixel(px, py) == square_expected(
            s0,
            x,
            y,
            size,
            color,
            size,
            0,
            px,
            py,
        )
}

/// The two drawing layers of the display and its background color.  The
/// first layer carries the game field, the second carries overlay screens.
pub struct Graphics {
    pub layer_1: Surface,
    pub layer_2: Surface,
    pub background_color: Color,
}

impl Graphics {
    /// The current background color of the display.
    pub open spec fn background(&self) -> Color {
        self.background_color
    }

    /// Both layers hold one color per cell of their rectangles.
    pub open spec fn wf(&self) -> bool {
        self.layer_1.wf() && self.layer_2.wf()
    }

    /// Creates the display state: both layers cleared to fully transparent
    /// black and the background set to the snake color.
    pub fn new(width: usize, height: usize) -> (g: Graphics)
        requires
            width * height <= usize::MAX,
        ensures
            g.wf(),
            g.layer_1.spec_width() == width,
            g.layer_1.spec_height() == height,
            g.layer_2.spec_width() == width,
            g.layer_2.spec_height() == height,
            forall|x: int, y: int|
                g.layer_1.in_bounds(x, y) ==> #[trigger] g.layer_1.pixel(x, y) == (Color {
                    red: 0,
                    green: 0,
                    blue: 0,
                    alpha: 0,
                }),
            forall|x: int, y: int|
                g.layer_2.in_bounds(x, y) ==> #[trigger] g.layer_2.pixel(x, y) == (Color {
                    red: 0,
                    green: 0,
                    blue: 0,
                    alpha: 0,
                }),
            g.background() == spec_from_hex(0xb07708),
    {
        let clear = Color::rgba(0, 0, 0, 0);
        let layer_1 = Surface::new(width, height, clear);
        let layer_2 = Surface::new(width, height, clear);
        Graphics { layer_1, layer_2, background_color: Color::from_hex(0xb07708) }
    }

    /// Flashes the background red and back; the background ends on the snake
    /// color.  The pacing between the flashes is the shell's concern.
    pub fn background_blink(&mut self)
        ensures
            final(self).layer_1 == old(self).layer_1,
            final(self).layer_2 == old(self).layer_2,
            final(self).background() == spec_from_hex(0xb07708),
    {
        let mut i: u32 = 0;
        while i < 6
            invariant
                self.layer_1 == old(self).layer_1,
                self.layer_2 == old(self).layer_2,
                i <= 6,
                i > 0 ==> self.background_color == spec_from_hex(0xb07708),
            decreases 6 - i,
        {
            self.background_color = Color::rgb(255, 0, 0);
            self.background_color = Color::from_hex(0xb07708);
            i = i + 1;
        }
    }

    /// Paints a filled `size x size` square of `color` with its top-left
    /// corner at `(x, y)` on the first layer.
    #[verifier::loop_isolation(false)]
    pub fn print_square_size_color_at(&mut self, x: usize, y: usize, size: usize, color: Color)
        requires
            old(self).layer_1.wf(),
            x + size <= usize::MAX,
            y + size <= usize::MAX,
        ensures
            final(self).layer_1.wf(),
            final(self).layer_1.same_bounds(&old(self).layer_1),
            final(self).layer_2 == old(self).layer_2,
            final(self).background() == old(self).background(),
            square_painted(
                old(self).layer_1,
                final(self).layer_1,
                x as int,
                y as int,
                size as int,
                color,
            ),
    {
        let mut xi: usize = x;
        while xi < x + size
            invariant
                x <= xi <= x + size,
                self.layer_1.wf(),
                self.layer_1.same_bounds(&old(self).layer_1),
                self.layer_2 == old(self).layer_2,
                self.background_color == old(self).background_color,
                forall|px: int, py: int|
                    self.layer_1.in_bounds(px, py) ==> #[trigger] self.layer_1.pixel(px, py)
                        == square_expected(
                        old(self).layer_1,
                        x as int,
                        y as int,
                        size as int,
                        color,
                        xi - x,
                        0,
                        px,
                        py,
                    ),
            decreases x + size - xi,
        {
            let mut yi: usize = y;
            while yi < y + size
                invariant
                    x <= xi < x + size,
                    y <= yi <= y + size,
                    self.layer_1.wf(),
                    self.layer_1.same_bounds(&old(self).layer_1),
                    self.layer_2 == old(self).layer_2,
                    self.background_color == old(self).background_color,
                    forall|px: int, py: int|
                        self.layer_1.in_bounds(px, py) ==> #[trigger] self.layer_1.pixel(px, py)
                            == square_expected(
                            old(self).layer_1,
                            x as int,
                            y as int,
                            size as int,
                            color,
                            xi - x,
                            yi - y,
                            px,
                            py,
                        ),
                decreases y + size - yi,
            {
                let ghost prev = self.layer_1;
                self.layer_1.set_pixel(xi, yi, color);
                proof {
                    assert forall|px: int, py: int| self.layer_1.in_bounds(px, py) implies
                        #[trigger] self.layer_1.pixel(px, py) == square_expected(
                        old(self).layer_1,
                        x as int,
                        y as int,
                        size as int,
                        color,
                        xi - x,
                        yi - y + 1,
                        px,
                        py,
                    ) by {
                        assert(prev.pixel(px, py) == square_expected(
                            old(self).layer_1,
                            x as int,
                            y as int,
                            size as int,
                            color,
                            xi - x,
                            yi - y,
                            px,
                            py,
                        ));
                    }
                }
                yi = yi + 1;
            }
            xi = xi + 1;
        }
    }

    /// Draws a bitmap on the first layer at `(x, y)` under the chosen
    /// rotation, with the near-white color key active.  The contract pins
    /// every surface pixel: pixels inside the rotated destination box take
    /// the mapped source color unless that source pixel is near-white, and
    /// every other pixel keeps its previous color.
    pub fn print_bmp_at_with_rotaion(&mut self, pic: &[u8], x: u32, y: u32, rot: RotDirection)
        requires
            old(self).layer_1.wf(),
            drawable(pic@),
            x + spec_width(pic@) + spec_height(pic@) <= u32::MAX,
            y + spec_width(pic@) + spec_height(pic@) <= u32::MAX,
            !(rot is R180) ==> covers_pixels(pic@),
            rot is R180 ==> spec_height(pic@) * spec_stride(pic@) < pic@.len(),
            rot is R270 ==> 1 <= spec_pixel_data_offset(pic@),
        ensures
            final(self).layer_1.wf(),
            final(self).layer_1.same_bounds(&old(self).layer_1),
            final(self).layer_2 == old(self).layer_2,
            final(self).background() == old(self).background(),
            rot is R0 ==> rot0_drawn(
                old(self).layer_1,
                final(self).layer_1,
                pic@,
                x as int,
                y as int,
            true,
            ),
            rot is R90 ==> rot90_drawn(
                old(self).layer_1,
                final(self).layer_1,
                pic@,
                x as int,
                y as int,
            true,
            ),
            rot is R180 ==> rot180_drawn(
                old(self).layer_1,
                final(self).layer_1,
                pic@,
                x as int,
                y as int,
            true,
            ),
            rot is R270 ==> rot270_drawn(
                old(self).layer_1,
                final(self).layer_1,
                pic@,
                x as int,
                y as int,
            true,
            ),
    {
        match rot {
            RotDirection::R0 => blit_rot0(&mut self.layer_1, pic, x, y, true),
            RotDirection::R90 => blit_rot90(&mut self.layer_1, pic, x, y, true),
            RotDirection::R180 => blit_rot180(&mut self.layer_1, pic, x, y, true),
            RotDirection::R270 => blit_rot270(&mut self.layer_1, pic, x, y, true),
        }
    }

    /// Draws a bitmap on the first layer at `(x, y)` under the chosen
    /// rotation, with the near-white color key under the caller's control:
    /// with `transparent` the near-white source pixels are skipped, without
    /// it every pixel of the box is written.
    pub fn draw(
        &mut self,
        bitmap_bytes: &[u8],
        x: u32,
        y: u32,
        rotation: RotDirection,
        transparent: bool,
    )
        requires
            old(self).layer_1.wf(),
            drawable(bitmap_bytes@),
            x + spec_width(bitmap_bytes@) + spec_height(bitmap_bytes@) <= u32::MAX,
            y + spec_width(bitmap_bytes@) + spec_height(bitmap_bytes@) <= u32::MAX,
            !(rotation is R180) ==> covers_pixels(bitmap_bytes@),
            rotation is R180 ==> spec_height(bitmap_bytes@) * spec_stride(bitmap_bytes@)
                < bitmap_bytes@.len(),
            rotation is R270 ==> 1 <= spec_pixel_data_offset(bitmap_bytes@),
        ensures
            final(self).layer_1.wf(),
            final(self).layer_1.same_bounds(&old(self).layer_1),
            final(self).layer_2 == old(self).layer_2,
            final(self).background() == old(self).background(),
            rotation is R0 ==> rot0_drawn(
                old(self).layer_1,
                final(self).layer_1,
                bitmap_bytes@,
                x as int,
                y as int,
                transparent,
            ),
            rotation is R90 ==> rot90_drawn(
                old(self).layer_1,
                final(self).layer_1,
                bitmap_bytes@,
                x as int,
                y as int,
                transparent,
            ),
            rotation is R180 ==> rot180_drawn(
                old(self).layer_1,
                final(self).layer_1,
                bitmap_bytes@,
                x as int,
                y as int,
                transparent,
            ),
            rotation is R270 ==> rot270_drawn(
                old(self).layer_1,
                final(self).layer_1,
                bitmap_bytes@,
                x as int,
                y as int,
                transparent,
            ),
    {
        match rotation {
            RotDirection::R0 => blit_rot0(&mut self.layer_1, bitmap_bytes, x, y, transparent),
            RotDirection::R90 => blit_rot90(&mut self.layer_1, bitmap_bytes, x, y, transparent),
            RotDirection::R180 => blit_rot180(&mut self.layer_1, bitmap_bytes, x, y, transparent),
            RotDirection::R270 => blit_rot270(&mut self.layer_1, bitmap_bytes, x, y, transparent),
        }
    }

    /// Draws a bitmap on the first layer at `(x, y)` in reading order: rows
    /// are consumed backward from the end of the buffer and placed top-down,
    /// with no color key, so every pixel of the box is written.
    pub fn print_bmp_at_downwards(&mut self, pic: &[u8], x: u32, y: u32)
        requires
            old(self).layer_1.wf(),
            drawable(pic@),
            covers_pixels_from_end(pic@),
            x + spec_width(pic@) <= u32::MAX,
            y + spec_height(pic@) <= u32::MAX,
        ensures
            final(self).layer_1.wf(),
            final(self).layer_1.same_bounds(&old(self).layer_1),
            final(self).layer_2 == old(self).layer_2,
            final(self).background() == old(self).background(),
            down_drawn(
                old(self).layer_1,
                final(self).layer_1,
                pic@,
                x as int,
                y as int,
                false,
            ),
    {
        blit_down(&mut self.layer_1, pic, x, y, false)
    }

    /// Draws a bitmap on the second layer at `(x, y)` in reading order, with
    /// the near-white color key active and the alpha channel of every drawn
    /// pixel dimmed to its blue byte less 50.
    pub fn print_bmp_at_layer2(&mut self, pic: &[u8], x: u32, y: u32)
        requires
            old(self).layer_2.wf(),
            drawable(pic@),
            covers_pixels_from_end(pic@),
            dimmable(pic@),
            x + spec_width(pic@) <= u32::MAX,
            y + spec_height(pic@) <= u32::MAX,
        ensures
            final(self).layer_2.wf(),
            final(self).layer_2.same_bounds(&old(self).layer_2),
            final(self).layer_1 == old(self).layer_1,
            final(self).background() == old(self).background(),
            down_drawn(
                old(self).layer_2,
                final(self).layer_2,
                pic@,
                x as int,
                y as int,
                true,
            ),
    {
        blit_down(&mut self.layer_2, pic, x, y, true)
    }

    /// Draws the pause overlay: the two snake halves, the pause banner, and
    /// the resume and new-game buttons, composed on the second layer at
    /// their fixed screen positions.
    pub fn print_pause_screen(
        &mut self,
        left: &[u8],
        right: &[u8],
        pause_pic: &[u8],
        resume_pic: &[u8],
        new_game_pic: &[u8],
    )
        requires
            old(self).layer_2.wf(),
            drawable(left@) && covers_pixels_from_end(left@) && dimmable(left@),
            drawable(right@) && covers_pixels_from_end(right@) && dimmable(right@),
            drawable(pause_pic@) && covers_pixels_from_end(pause_pic@) && dimmable(pause_pic@),
            drawable(resume_pic@) && covers_pixels_from_end(resume_pic@) && dimmable(resume_pic@),
            drawable(new_game_pic@) && covers_pixels_from_end(new_game_pic@) && dimmable(
                new_game_pic@,
            ),
        ensures
            final(self).layer_2.wf(),
            final(self).layer_2.same_bounds(&old(self).layer_2),
            final(self).layer_1 == old(self).layer_1,
            final(self).background() == old(self).background(),
            (exists|s1: Surface, s2: Surface, s3: Surface, s4: Surface|
                {
                    &&& #[trigger] down_drawn(old(self).layer_2, s1, left@, 98, 20, true)
                    &&& #[trigger] down_drawn(s1, s2, right@, 300, 20, true)
                    &&& #[trigger] down_drawn(s2, s3, pause_pic@, 198, 55, true)
                    &&& #[trigger] down_drawn(s3, s4, resume_pic@, 198, 145, true)
                    &&& down_drawn(s4, final(self).layer_2, new_game_pic@, 186, 198, true)
                }),
    {
        self.print_bmp_at_layer2(left, 90 + 8, 20);
        let ghost g1 = self.layer_2;
        self.print_bmp_at_layer2(right, 90 + 100 + 102 + 8, 20);
        let ghost g2 = self.layer_2;
        self.print_bmp_at_layer2(pause_pic, 100 + 90 + 8, 10 + 45);
        let ghost g3 = self.layer_2;
        self.print_bmp_at_layer2(resume_pic, 100 + 8 + 90, 139 + 6);
        let ghost g4 = self.layer_2;
        self.print_bmp_at_layer2(new_game_pic, 100 + 8 + 78, 192 + 6);
        proof {
            assert(down_drawn(old(self).layer_2, g1, left@, 98, 20, true));
            assert(down_drawn(g1, g2, right@, 300, 20, true));
            assert(down_drawn(g2, g3, pause_pic@, 198, 55, true));
            assert(down_drawn(g3, g4, resume_pic@, 198, 145, true));
            assert(down_drawn(g4, final(self).layer_2, new_game_pic@, 186, 198, true));
        }
    }

    /// Draws the game-over overlay: the two snake halves, the game-over
    /// banner, and the new-game button, composed on the second layer at
    /// their fixed screen positions.
    pub fn print_restart_screen(
        &mut self,
        left: &[u8],
        right: &[u8],
        game_over_pic: &[u8],
        new_game_pic: &[u8],
    )
        requires
            old(self).layer_2.wf(),
            drawable(left@) && covers_pixels_from_end(left@) && dimmable(left@),
            drawable(right@) && covers_pixels_from_end(right@) && dimmable(right@),
            drawable(game_over_pic@) && covers_pixels_from_end(game_over_pic@) && dimmable(
                game_over_pic@,
            ),
            drawable(new_game_pic@) && covers_pixels_from_end(new_game_pic@) && dimmable(
                new_game_pic@,
            ),
        ensures
            final(self).layer_2.wf(),
            final(self).layer_2.same_bounds(&old(self).layer_2),
            final(self).layer_1 == old(self).layer_1,
            final(self).background() == old(self).background(),
            (exists|s1: Surface, s2: Surface, s3: Surface|
                {
                    &&& #[trigger] down_drawn(old(self).layer_2, s1, left@, 68, 20, true)
                    &&& #[trigger] down_drawn(s1, s2, right@, 320, 20, true)
                    &&& #[trigger] down_drawn(s2, s3, game_over_pic@, 158, 55, true)
                    &&& down_drawn(s3, final(self).layer_2, new_game_pic@, 186, 198, true)
                }),
    {
        self.print_bmp_at_layer2(left, 60 + 8, 20);
        let ghost g1 = self.layer_2;
        self.print_bmp_at_layer2(right, 90 + 100 + 20 + 102 + 8, 20);
        let ghost g2 = self.layer_2;
        self.print_bmp_at_layer2(game_over_pic, 60 + 90 + 8, 10 + 45);
        let ghost g3 = self.layer_2;
        self.print_bmp_at_layer2(new_game_pic, 100 + 8 + 78, 192 + 6);
        proof {
            assert(down_drawn(old(self).layer_2, g1, left@, 68, 20, true));
            assert(down_drawn(g1, g2, right@, 320, 20, true));
            assert(down_drawn(g2, g3, game_over_pic@, 158, 55, true));
            assert(down_drawn(g3, final(self).layer_2, new_game_pic@, 186, 198, true));
        }
    }
}

/// Decides whether a buffer can be drawn at `(x, y)` under every rotation:
/// the header is complete, the pixel rectangle is nonempty, the pixel data
/// declared by the header fits inside the buffer from both ends, and no
/// byte-cursor or coordinate arithmetic of the traversals can overflow.  A
/// caller that cannot discharge the draw preconditions itself checks here
/// first; a buffer this rejects is a malformed asset.
pub fn bitmap_drawable(pic: &[u8], x: u32, y: u32) -> (ok: bool)
    ensures
        ok == (drawable(pic@) && covers_pixels(pic@) && 1 <= spec_pixel_data_offset(pic@) && x
            + spec_width(pic@) + spec_height(pic@) <= u32::MAX && y + spec_width(pic@)
            + spec_height(pic@) <= u32::MAX),
{
    if pic.len() < 24 {
        return false;
    }
    let bv = BitmapView::from_bytes(pic);
    if bv.width == 0 || bv.height == 0 || bv.pixel_data_offset == 0 {
        return false;
    }
    let stride = bv.stride();
    if pic.len() > u32::MAX as usize - 3 * (bv.width as usize) {
        return false;
    }
    proof {
        assert((bv.height as int) * (stride as int) <= 0xffff * 0x30000) by (nonlinear_arith)
            requires
                bv.height <= 0xffff,
                stride <= 0x30000,
        ;
    }
    let need: u64 = (bv.pixel_data_offset as u64) + (bv.height as u64) * (stride as u64);
    if need > pic.len() as u64 {
        return false;
    }
    let span = (bv.width as usize) + (bv.height as usize);
    if (x as usize) > u32::MAX as usize - span || (y as usize) > u32::MAX as usize - span {
        return false;
    }
    true
}

/// A buffer that passes the drawable check satisfies the half-turn draw's
/// own buffer demand as well: its pixel data cannot reach back past the
/// first byte.
pub proof fn lemma_drawable_covers_from_end(pic: Seq<u8>)
    requires
        covers_pixels(pic),
        1 <= spec_pixel_data_offset(pic),
    ensures
        spec_height(pic) * spec_stride(pic) < pic.len(),
        covers_pixels_from_end(pic),
{
}

/// Under the unrotated draw, the source pixel in column `c` of stored row
/// `r` (row 0 being the bottom stored row) lands at destination
/// `(x + c, y + H - 1 - r)` with its own color, whenever it is not keyed
/// out.
pub proof fn lemma_rot0_places_source_pixel(
    s0: Surface,
    s1: Surface,
    pic: Seq<u8>,
    x: int,
    y: int,
    keyed: bool,
    c: int,
    r: int,
)
    requires
        rot0_drawn(s0, s1, pic, x, y, keyed),
        0 <= c < spec_width(pic),
        0 <= r < spec_height(pic),
        s1.in_bounds(x + c, y + spec_height(pic) - 1 - r),
        keyed ==> !spec_transparent_at(pic, src_index(pic, c, r)),
    ensures
        s1.pixel(x + c, y + spec_height(pic) - 1 - r) == color_at(pic, src_index(pic, c, r)),
{
    assert(s1.pixel(x + c, y + spec_height(pic) - 1 - r) == rot0_expected(
        s0,
        pic,
        x,
        y,
        keyed,
        spec_height(pic),
        0,
        x + c,
        y + spec_height(pic) - 1 - r,
    ));
}

/// Under the half-turn draw of a bitmap whose pixel data fills the buffer
/// exactly, the source pixel `(c, r)` lands at `(x + W - 1 - c, y + r)`.
pub proof fn lemma_rot180_places_source_pixel(
    s0: Surface,
    s1: Surface,
    pic: Seq<u8>,
    x: int,
    y: int,
    keyed: bool,
    c: int,
    r: int,
)
    requires
        rot180_drawn(s0, s1, pic, x, y, keyed),
        pic.len() == spec_pixel_data_offset(pic) + spec_height(pic) * spec_stride(pic),
        0 <= c < spec_width(pic),
        0 <= r < spec_height(pic),
        s1.in_bounds(x + spec_width(pic) - 1 - c, y + r),
        keyed ==> !spec_transparent_at(pic, src_index(pic, c, r)),
    ensures
        s1.pixel(x + spec_width(pic) - 1 - c, y + r) == color_at(pic, src_index(pic, c, r)),
{
    crate::bmp::lemma_end_index_is_src_index(pic, c, r);
    assert(s1.pixel(x + spec_width(pic) - 1 - c, y + r) == rot180_expected(
        s0,
        pic,
        x,
        y,
        keyed,
        spec_height(pic),
        0,
        x + spec_width(pic) - 1 - c,
        y + r,
    ));
}

/// The quarter-turn clockwise draw swaps the `W x H` bounding box to
/// `H x W` and places source pixel `(c, r)` at destination `(x + r, y + c)`,
/// the transpose rule on the bottom-up stored rows.
pub proof fn lemma_rot90_places_source_pixel(
    s0: Surface,
    s1: Surface,
    pic: Seq<u8>,
    x: int,
    y: int,
    keyed: bool,
    c: int,
    r: int,
)
    requires
        rot90_drawn(s0, s1, pic, x, y, keyed),
        0 <= c < spec_width(pic),
        0 <= r < spec_height(pic),
        s1.in_bounds(x + r, y + c),
        keyed ==> !spec_transparent_at(pic, src_index(pic, c, r)),
    ensures
        s1.pixel(x + r, y + c) == color_at(pic, src_index(pic, c, r)),
{
    assert(s1.pixel(x + r, y + c) == rot90_expected(
        s0,
        pic,
        x,
        y,
        keyed,
        spec_width(pic),
        0,
        x + r,
        y + c,
    ));
}

/// The quarter-turn counter-clockwise draw swaps the `W x H` bounding box
/// to `H x W` and places source pixel `(c, r)` at destination
/// `(x + H - 1 - r, y + W - 1 - c)`, mirroring the clockwise rule from the
/// opposite corner.
pub proof fn lemma_rot270_places_source_pixel(
    s0: Surface,
    s1: Surface,
    pic: Seq<u8>,
    x: int,
    y: int,
    keyed: bool,
    c: int,
    r: int,
)
    requires
        rot270_drawn(s0, s1, pic, x, y, keyed),
        0 <= c < spec_width(pic),
        0 <= r < spec_height(pic),
        s1.in_bounds(x + spec_height(pic) - 1 - r, y + spec_width(pic) - 1 - c),
        keyed ==> !spec_transparent_at(pic, src_index(pic, c, r)),
    ensures
        s1.pixel(x + spec_height(pic) - 1 - r, y + spec_width(pic) - 1 - c) == color_at(
            pic,
            src_index(pic, c, r),
        ),
{
    assert(s1.pixel(x + spec_height(pic) - 1 - r, y + spec_width(pic) - 1 - c) == rot270_expected(
        s0,
        pic,
        x,
        y,
        keyed,
        spec_width(pic),
        0,
        x + spec_height(pic) - 1 - r,
        y + spec_width(pic) - 1 - c,
    ));
}

/// With the color key active, a near-white source pixel is skipped: its
/// destination keeps its previous color.  With the key inactive the
/// downward draw writes every pixel of the box.
pub proof fn lemma_color_key(
    s0: Surface,
    s1: Surface,
    s2: Surface,
    pic: Seq<u8>,
    x: int,
    y: int,
    c: int,
    r: int,
)
    requires
        rot0_drawn(s0, s1, pic, x, y, true),
        down_drawn(s0, s2, pic, x, y, false),
        0 <= c < spec_width(pic),
        0 <= r < spec_height(pic),
        s1.in_bounds(x + c, y + spec_height(pic) - 1 - r),
        s2.in_bounds(x + c, y + spec_height(pic) - 1 - r),
        spec_transparent_at(pic, src_index(pic, c, r)),
    ensures
        s1.pixel(x + c, y + spec_height(pic) - 1 - r) == s0.pixel(
            x + c,
            y + spec_height(pic) - 1 - r,
        ),
        s2.pixel(x + c, y + spec_height(pic) - 1 - r) == color_at(pic, end_index(pic, c, r)),
{
    assert(s1.pixel(x + c, y + spec_height(pic) - 1 - r) == rot0_expected(
        s0,
        pic,
        x,
        y,
        true,
        spec_height(pic),
        0,
        x + c,
        y + spec_height(pic) - 1 - r,
    ));
    assert(s2.pixel(x + c, y + spec_height(pic) - 1 - r) == down_expected(
        s0,
        pic,
        x,
        y,
        false,
        spec_height(pic),
        0,
        x + c,
        y + spec_height(pic) - 1 - r,
    ));
}

/// Every surface pixel outside the destination box of an unrotated draw
/// keeps its previous color; together with the clipping of the single-pixel
/// store, a bitmap whose right edge lands beyond the surface never touches
/// anything but the on-surface part of its own box.
pub proof fn lemma_rot0_outside_box_unchanged(
    s0: Surface,
    s1: Surface,
    pic: Seq<u8>,
    x: int,
    y: int,
    keyed: bool,
    px: int,
    py: int,
)
    requires
        rot0_drawn(s0, s1, pic, x, y, keyed),
        s1.in_bounds(px, py),
        !(x <= px < x + spec_width(pic) && y <= py < y + spec_height(pic)),
    ensures
        s1.pixel(px, py) == s0.pixel(px, py),
{
    assert(s1.pixel(px, py) == rot0_expected(s0, pic, x, y, keyed, spec_height(pic), 0, px, py));
}

} // verus!
