use vstd::prelude::*;

use crate::geometry::UNITS_PER_BLOCK;

verus! {

/// A transparent pixel.
pub const TRANSPARENT: [u8; 4] = [0, 0, 0, 0];

/// An RGBA image, pixels stored row by row.
#[derive(Debug, Clone, PartialEq, Eq)]
pub struct Image {
    pub width: u32,
    pub height: u32,
    pub pixels: Vec<[u8; 4]>,
}

impl Image {
    pub open spec fn wf(&self) -> bool {
        self.pixels@.len() == self.width as int * self.height as int
    }

    pub open spec fn pixel(&self, x: int, y: int) -> [u8; 4] {
        pixel_of(self.content(), x, y)
    }

    /// Width, height and pixels.
    pub open spec fn content(&self) -> (u32, u32, Seq<[u8; 4]>) {
        (self.width, self.height, self.pixels@)
    }

    /// A copy of this image.
    pub fn duplicate(&self) -> (r: Image)
        ensures
            r.content() == self.content(),
    {
        let mut pixels: Vec<[u8; 4]> = Vec::new();
        let mut i: usize = 0;
        while i < self.pixels.len()
            invariant
                i <= self.pixels@.len(),
                pixels@ == self.pixels@.take(i as int),
            decreases self.pixels@.len() - i,
        {
            pixels.push(self.pixels[i]);
            i = i + 1;
            assert(pixels@ =~= self.pixels@.take(i as int));
        }
        assert(pixels@ =~= self.pixels@);
        Image { width: self.width, height: self.height, pixels }
    }
}

/// Width, height and row-by-row pixels of an image.
pub type ImageContent = (u32, u32, Seq<[u8; 4]>);

/// Pixel (x, y) of an image.
pub open spec fn pixel_of(img: ImageContent, x: int, y: int) -> [u8; 4] {
    img.2[y * img.0 as int + x]
}

proof fn lemma_index_in_bounds(x: int, y: int, w: int, h: int)
    requires
        0 <= x < w,
        0 <= y < h,
    ensures
        0 <= y * w + x < w * h,
        y * w + x < (y + 1) * w,
{
    assert(y * w + x < w * h) by (nonlinear_arith)
        requires
            0 <= x < w,
            0 <= y < h,
    ;
    assert(0 <= y * w) by (nonlinear_arith)
        requires
            0 <= y,
            0 <= w,
    ;
    assert((y + 1) * w == y * w + w) by (nonlinear_arith);
}

proof fn lemma_row_order(x1: int, y1: int, x2: int, y2: int, w: int)
    requires
        0 <= x1 < w,
        0 <= x2 < w,
        0 <= y1,
        0 <= y2,
        y1 * w + x1 == y2 * w + x2,
    ensures
        x1 == x2,
        y1 == y2,
{
    if y1 < y2 {
        assert(y1 * w + w <= y2 * w) by (nonlinear_arith)
            requires
                y1 < y2,
                0 <= w,
        ;
    } else if y2 < y1 {
        assert(y2 * w + w <= y1 * w) by (nonlinear_arith)
            requires
                y2 < y1,
                0 <= w,
        ;
    }
}

pub open spec fn abs_int(a: int) -> int {
    if a < 0 { -a } else { a }
}

/// Position sampled at step `k` when walking from `from` toward `to` (the
/// walk runs backwards, one pixel below `from`, when `from > to`).
pub open spec fn walk(from: int, to: int, k: int) -> int {
    if from < to { from + k } else { from - 1 - k }
}

/// One side of an extracted region: the distance, at least one.
pub open spec fn region_side(from: int, to: int) -> int {
    if from == to { 1 } else { abs_int(to - from) }
}

/// Pixel (x, y) of the region of `src` addressed by the given pixel bounds.
pub open spec fn region_pixel(
    src: ImageContent,
    from_x: int,
    from_y: int,
    to_x: int,
    to_y: int,
    x: int,
    y: int,
) -> [u8; 4] {
    if x < abs_int(to_x - from_x) && y < abs_int(to_y - from_y) {
        pixel_of(src, walk(from_x, to_x, x), walk(from_y, to_y, y))
    } else {
        TRANSPARENT
    }
}

/// The pixel bounds lie on the image (a bound may equal the width or height).
pub open spec fn bounds_on_image(src: ImageContent, from_x: int, from_y: int, to_x: int, to_y: int) -> bool {
    &&& 0 <= from_x <= src.0
    &&& 0 <= to_x <= src.0
    &&& 0 <= from_y <= src.1
    &&& 0 <= to_y <= src.1
}

/// Extracts the region between the pixel bounds; a pair given in descending
/// order mirrors the region along that axis.
pub fn get_with_uv(image: &Image, from_x: i32, from_y: i32, to_x: i32, to_y: i32) -> (r: Image)
    requires
        image.wf(),
        bounds_on_image(image.content(), from_x as int, from_y as int, to_x as int, to_y as int),
    ensures
        r.wf(),
        r.width == region_side(from_x as int, to_x as int),
        r.height == region_side(from_y as int, to_y as int),
        forall|x: int, y: int|
            0 <= x < r.width && 0 <= y < r.height ==> #[trigger] r.pixel(x, y) == region_pixel(
                image.content(),
                from_x as int,
                from_y as int,
                to_x as int,
                to_y as int,
                x,
                y,
            ),
{
    let dx: u32 = if from_x < to_x { (to_x - from_x) as u32 } else { (from_x - to_x) as u32 };
    let dy: u32 = if from_y < to_y { (to_y - from_y) as u32 } else { (from_y - to_y) as u32 };
    let w: u32 = if dx == 0 { 1 } else { dx };
    let h: u32 = if dy == 0 { 1 } else { dy };
    let ghost src = image.content();
    let source_len: usize = image.pixels.len();
    let mut pixels: Vec<[u8; 4]> = Vec::new();
    let mut y: u32 = 0;
    while y < h
        invariant
            image.wf(),
            src == image.content(),
            source_len == image.pixels@.len(),
            bounds_on_image(image.content(), from_x as int, from_y as int, to_x as int, to_y as int),
            dx == abs_int(to_x - from_x),
            dy == abs_int(to_y - from_y),
            w == region_side(from_x as int, to_x as int),
            h == region_side(from_y as int, to_y as int),
            y <= h,
            pixels@.len() == y * w,
            forall|xx: int, yy: int|
                0 <= xx < w && 0 <= yy < y ==> #[trigger] pixels@[yy * w + xx] == region_pixel(src, from_x as int, from_y as int, to_x as int, to_y as int, xx, yy),
        decreases h - y,
    {
        let mut x: u32 = 0;
        while x < w
            invariant
                image.wf(),
                src == image.content(),
                source_len == image.pixels@.len(),
                bounds_on_image(image.content(), from_x as int, from_y as int, to_x as int, to_y as int),
                dx == abs_int(to_x - from_x),
                dy == abs_int(to_y - from_y),
                w == region_side(from_x as int, to_x as int),
                h == region_side(from_y as int, to_y as int),
                y < h,
                x <= w,
                pixels@.len() == y * w + x,
                forall|xx: int, yy: int|
                    (0 <= xx < w && 0 <= yy < y) || (0 <= xx < x && yy == y) ==> #[trigger] pixels@[yy
                        * w + xx] == region_pixel(src, from_x as int, from_y as int, to_x as int, to_y as int, xx, yy),
            decreases w - x,
        {
            let p: [u8; 4] = if x < dx && y < dy {
                let sx: u32 = if from_x < to_x { from_x as u32 + x } else { from_x as u32 - 1 - x };
                let sy: u32 = if from_y < to_y { from_y as u32 + y } else { from_y as u32 - 1 - y };
                proof {
                    lemma_index_in_bounds(sx as int, sy as int, image.width as int, image.height as int);
                }
                let q = image.pixels[sy as usize * image.width as usize + sx as usize];
                assert(q == region_pixel(src, from_x as int, from_y as int, to_x as int, to_y as int, x as int, y as int));
                q
            } else {
                TRANSPARENT
            };
            proof {
                lemma_index_in_bounds(x as int, y as int, w as int, h as int);
            }
            assert(p == region_pixel(src, from_x as int, from_y as int, to_x as int, to_y as int, x as int, y as int));
            let ghost old_pixels = pixels@;
            pixels.push(p);
            proof {
                assert forall|xx: int, yy: int|
                    (0 <= xx < w && 0 <= yy < y) || (0 <= xx < x + 1 && yy == y) implies #[trigger] pixels@[yy
                    * w + xx] == region_pixel(src, from_x as int, from_y as int, to_x as int, to_y as int, xx, yy) by {
                    lemma_index_in_bounds(xx, yy, w as int, (y + 1) as int);
                    if yy * w + xx == y * w + x {
                        lemma_row_order(xx, yy, x as int, y as int, w as int);
                    } else {
                        assert(old_pixels[yy * w + xx] == region_pixel(src, from_x as int, from_y as int, to_x as int, to_y as int, xx, yy));
                        assert(yy * w + xx < y * w + x) by {
                            if yy == y {
                            } else {
                                assert(yy * w + xx < (yy + 1) * w);
                                assert((yy + 1) * w <= y * w) by (nonlinear_arith)
                                    requires
                                        yy + 1 <= y,
                                        0 <= w,
                                ;
                            }
                        }
                    }
                }
            }
            x = x + 1;
        }
        proof {
            assert((y + 1) * w == y * w + w) by (nonlinear_arith);
        }
        y = y + 1;
    }
    let r = Image { width: w, height: h, pixels };
    proof {
        assert forall|x: int, y: int| 0 <= x < r.width && 0 <= y < r.height implies #[trigger] r.pixel(
            x,
            y,
        ) == region_pixel(src, from_x as int, from_y as int, to_x as int, to_y as int, x, y) by {}
        assert(pixels@.len() == w * h) by (nonlinear_arith)
            requires
                pixels@.len() == h * w,
        ;
    }
    r
}

/// Swapping the two vertical bounds of a region mirrors it top to bottom.
pub proof fn lemma_vertical_mirror(
    src: ImageContent,
    from_x: int,
    from_y: int,
    to_x: int,
    to_y: int,
    x: int,
    y: int,
)
    requires
        bounds_on_image(src, from_x, from_y, to_x, to_y),
        from_y != to_y,
        0 <= x < region_side(from_x, to_x),
        0 <= y < region_side(from_y, to_y),
    ensures
        region_side(to_y, from_y) == region_side(from_y, to_y),
        region_pixel(src, from_x, to_y, to_x, from_y, x, y) == region_pixel(
            src,
            from_x,
            from_y,
            to_x,
            to_y,
            x,
            region_side(from_y, to_y) - 1 - y,
        ),
{
}

/// `a / b` rounded up, for `a >= 0`.
pub open spec fn ceil_div(a: int, b: int) -> int {
    (a + b - 1) / b
}

/// The pixel coordinate of a UV coordinate `u` (in fixed-point units, a whole
/// block being the full side) on a side of `size` pixels, rounded up.
pub open spec fn uv_pixel(u: int, size: int) -> int {
    ceil_div(u * size, UNITS_PER_BLOCK as int)
}

/// Scales a UV coordinate to a pixel coordinate on a side of `size` pixels.
pub fn uv_to_pixel(u: i64, size: u32) -> (r: i64)
    requires
        0 <= u <= UNITS_PER_BLOCK,
    ensures
        r == uv_pixel(u as int, size as int),
        0 <= r <= size,
{
    proof {
        assert(0 <= u * size <= UNITS_PER_BLOCK * size) by (nonlinear_arith)
            requires
                0 <= u <= UNITS_PER_BLOCK,
                0 <= size,
        ;
        assert((u * size + UNITS_PER_BLOCK - 1) / UNITS_PER_BLOCK as int <= size) by (
        nonlinear_arith)
            requires
                0 <= u * size <= UNITS_PER_BLOCK * size,
        ;
    }
    (u * size as i64 + UNITS_PER_BLOCK - 1) / UNITS_PER_BLOCK
}

/// The first frame of an animated texture: a sheet taller than wide is cut to
/// its top square; any other image is kept.
pub fn first_frame(image: Image) -> (r: Image)
    requires
        image.wf(),
    ensures
        r.wf(),
        image.height > image.width ==> r.width == image.width && r.height == image.width
            && r.pixels@ == image.pixels@.subrange(0, image.width * image.width),
        image.height <= image.width ==> r == image,
{
    if image.height > image.width {
        let w = image.width;
        let mut pixels = image.pixels;
        let n: usize = pixels.len();
        proof {
            assert(w * w <= w * image.height) by (nonlinear_arith)
                requires
                    w < image.height,
            ;
        }
        pixels.truncate(w as usize * w as usize);
        Image { width: w, height: w, pixels }
    } else {
        image
    }
}

/// The pixels that decoding `bytes` as an image yields: width, height and
/// pixels row by row, or nothing where the bytes are not an image.
pub uninterp spec fn decoded_image(bytes: Seq<u8>) -> Option<(u32, u32, Seq<[u8; 4]>)>;

/// Relies on `image::load_from_memory` and `DynamicImage::into_rgba8`: the
/// format is guessed from the bytes, the result depends on them alone, and an
/// RGBA buffer holds one pixel per position.
#[verifier::external_body]
pub(crate) fn decode_image(bytes: &Vec<u8>) -> (r: Option<Image>)
    ensures
        r is Some <==> decoded_image(bytes@) is Some,
        r matches Some(img) ==> img.wf() && decoded_image(bytes@) == Some(
            (img.width, img.height, img.pixels@),
        ),
{
    match image::load_from_memory(bytes.as_slice()) {
        Ok(decoded) => {
            let rgba = decoded.into_rgba8();
            let (width, height) = rgba.dimensions();
            Some(Image { width, height, pixels: rgba.pixels().map(|p| p.0).collect() })
        },
        Err(_) => None,
    }
}

} // verus!
