//! Reading a QR code from an image file: the grayscale image, the
//! thresholded and cropped variants tried in turn, and the texts found.
use vstd::prelude::*;
use vstd::arithmetic::div_mod::lemma_fundamental_div_mod_converse;
use vstd::slice::slice_to_vec;
use vstd::arithmetic::mul::lemma_mul_inequality;
use crate::payload::join_sep;
use crate::text::{chars_of, string_of, trim, trim_chars};

verus! {

/// A grayscale image: `width` × `height` luminance bytes, row by row.
#[derive(Clone, Debug)]
pub struct LumaImage {
    pub width: u32,
    pub height: u32,
    pub pixels: Vec<u8>,
}

/// The contents of a grayscale image.
pub ghost struct LumaModel {
    pub width: u32,
    pub height: u32,
    pub pixels: Seq<u8>,
}

impl LumaModel {
    /// The pixel buffer holds exactly one byte per pixel.
    pub open spec fn wf(self) -> bool {
        self.pixels.len() == self.width as int * self.height as int
    }

    /// The luminance at column `x`, row `y`.
    pub open spec fn at(self, x: int, y: int) -> u8 {
        self.pixels[y * self.width + x]
    }
}

impl View for LumaImage {
    type V = LumaModel;

    open spec fn view(&self) -> LumaModel {
        LumaModel { width: self.width, height: self.height, pixels: self.pixels@ }
    }
}

impl LumaImage {
    /// The pixel buffer holds exactly one byte per pixel.
    pub open spec fn wf(&self) -> bool {
        self@.wf()
    }

    /// The luminance at column `x`, row `y`.
    pub open spec fn at(&self, x: int, y: int) -> u8 {
        self@.at(x, y)
    }

    /// The luminance at column `x`, row `y`.
    pub fn pixel(&self, x: usize, y: usize) -> (p: u8)
        requires
            self.wf(),
            x < self.width,
            y < self.height,
        ensures
            p == self.at(x as int, y as int),
    {
        let n = self.pixels.len();
        proof {
            lemma_pixel_index(self.width as int, self.height as int, x as int, y as int);
            assert(y * (self.width as int) <= y * (self.width as int) + x);
        }
        self.pixels[y * (self.width as usize) + x]
    }
}

proof fn lemma_pixel_index(w: int, h: int, x: int, y: int)
    requires
        0 <= x < w,
        0 <= y < h,
    ensures
        0 <= y * w + x < w * h,
        y * w + x + 1 <= (y + 1) * w,
{
    lemma_mul_inequality(y + 1, h, w);
    assert((y + 1) * w == y * w + w) by (nonlinear_arith);
    assert(y * w >= 0) by (nonlinear_arith)
        requires
            y >= 0,
            w >= 0,
    ;
}

/// Whether a pixel counts as dark when cropping.
pub open spec fn is_dark(p: u8) -> bool {
    p < 128
}

/// `b` = (left, top, right, bottom) is the smallest box holding every dark
/// pixel of `img`: each side touches a dark pixel.
pub open spec fn is_dark_box(img: LumaModel, b: (int, int, int, int)) -> bool {
    &&& forall|x: int, y: int|
        0 <= x < img.width && 0 <= y < img.height && is_dark(#[trigger] img.at(x, y)) ==> b.0 <= x
            <= b.2 && b.1 <= y <= b.3
    &&& exists|y: int| 0 <= y < img.height && is_dark(#[trigger] img.at(b.0, y))
    &&& exists|y: int| 0 <= y < img.height && is_dark(#[trigger] img.at(b.2, y))
    &&& exists|x: int| 0 <= x < img.width && is_dark(#[trigger] img.at(x, b.1))
    &&& exists|x: int| 0 <= x < img.width && is_dark(#[trigger] img.at(x, b.3))
    &&& 0 <= b.0 < img.width && 0 <= b.2 < img.width
    &&& 0 <= b.1 < img.height && 0 <= b.3 < img.height
}

/// Whether the image has a dark pixel.
pub open spec fn has_dark(img: LumaModel) -> bool {
    exists|x: int, y: int| 0 <= x < img.width && 0 <= y < img.height && is_dark(#[trigger] img.at(x, y))
}

/// The left, top, right and bottom of the dark pixels; without dark
/// pixels, the width, the height, 0 and 0.
pub open spec fn dark_bounds(img: LumaModel) -> (int, int, int, int) {
    if has_dark(img) {
        choose|b: (int, int, int, int)| is_dark_box(img, b)
    } else {
        (img.width as int, img.height as int, 0, 0)
    }
}

/// Whether the crop has a box to keep (otherwise the image is kept whole).
pub open spec fn crops(img: LumaModel) -> bool {
    let b = dark_bounds(img);
    b.0 <= b.2 && b.1 <= b.3
}

/// The width and height of the box that the crop keeps.
pub open spec fn crop_size(img: LumaModel) -> (int, int) {
    let b = dark_bounds(img);
    (b.2 - b.0 + 1, b.3 - b.1 + 1)
}

/// The part of the box inside the image.
pub open spec fn crop_visible(img: LumaModel) -> (int, int) {
    let b = dark_bounds(img);
    let (cw, ch) = crop_size(img);
    (if cw < img.width - b.0 {
        cw
    } else {
        img.width - b.0
    }, if ch < img.height - b.1 {
        ch
    } else {
        img.height - b.1
    })
}

/// The padded crop of `img` fits: its sides in 32 bits, its pixels in
/// memory.
pub open spec fn crop_fits(img: LumaModel, quiet: u32) -> bool {
    let (cw, ch) = crop_size(img);
    crops(img) ==> {
        &&& cw + 2 * quiet <= u32::MAX
        &&& ch + 2 * quiet <= u32::MAX
        &&& (cw + 2 * quiet) * (ch + 2 * quiet) <= usize::MAX
    }
}

/// The pixel of the padded crop at (`x`, `y`): the kept box framed by
/// `quiet` white pixels on each side.
pub open spec fn crop_pixel(img: LumaModel, quiet: int, x: int, y: int) -> u8 {
    let b = dark_bounds(img);
    let (vw, vh) = crop_visible(img);
    if quiet <= x < quiet + vw && quiet <= y < quiet + vh {
        img.at(b.0 + x - quiet, b.1 + y - quiet)
    } else {
        255
    }
}

/// The image with pixels darker than `level` made black and the others
/// white.
pub open spec fn threshold_model(m: LumaModel, level: u8) -> LumaModel {
    LumaModel {
        width: m.width,
        height: m.height,
        pixels: m.pixels.map_values(|p: u8| if p < level {
            0u8
        } else {
            255u8
        }),
    }
}

/// The padded crop of an image: the box around its dark pixels framed by
/// `quiet` white pixels on each side, or the image itself when there is no
/// box to keep.
pub open spec fn crop_model(m: LumaModel, quiet: u32) -> LumaModel {
    if !crops(m) {
        m
    } else {
        let (cw, ch) = crop_size(m);
        let w = cw + 2 * quiet;
        let h = ch + 2 * quiet;
        LumaModel {
            width: w as u32,
            height: h as u32,
            pixels: Seq::new((w * h) as nat, |k: int| crop_pixel(m, quiet as int, k % w, k / w)),
        }
    }
}

/// The image with pixels darker than `level` made black and the others
/// white.
pub fn threshold_image(image: &LumaImage, level: u8) -> (out: LumaImage)
    requires
        image.wf(),
    ensures
        out.wf(),
        out@ == threshold_model(image@, level),
{
    let mut pixels: Vec<u8> = Vec::new();
    let mut i: usize = 0;
    while i < image.pixels.len()
        invariant
            i <= image.pixels.len(),
            pixels@.len() == i,
            forall|k: int|
                0 <= k < i ==> pixels@[k] == if image.pixels@[k] < level {
                    0u8
                } else {
                    255u8
                },
        decreases image.pixels.len() - i,
    {
        pixels.push(
            if image.pixels[i] < level {
                0
            } else {
                255
            },
        );
        i = i + 1;
    }
    let out = LumaImage { width: image.width, height: image.height, pixels };
    assert(out@.pixels =~= threshold_model(image@, level).pixels);
    out
}

proof fn lemma_dark_box_unique(img: LumaModel, b1: (int, int, int, int), b2: (int, int, int, int))
    requires
        is_dark_box(img, b1),
        is_dark_box(img, b2),
    ensures
        b1 == b2,
{
    let y1 = choose|y: int| 0 <= y < img.height && is_dark(#[trigger] img.at(b1.0, y));
    let y2 = choose|y: int| 0 <= y < img.height && is_dark(#[trigger] img.at(b2.0, y));
    let y3 = choose|y: int| 0 <= y < img.height && is_dark(#[trigger] img.at(b1.2, y));
    let y4 = choose|y: int| 0 <= y < img.height && is_dark(#[trigger] img.at(b2.2, y));
    let x1 = choose|x: int| 0 <= x < img.width && is_dark(#[trigger] img.at(x, b1.1));
    let x2 = choose|x: int| 0 <= x < img.width && is_dark(#[trigger] img.at(x, b2.1));
    let x3 = choose|x: int| 0 <= x < img.width && is_dark(#[trigger] img.at(x, b1.3));
    let x4 = choose|x: int| 0 <= x < img.width && is_dark(#[trigger] img.at(x, b2.3));
    assert(b2.0 <= b1.0 && b1.0 <= b2.0);
    assert(b2.2 >= b1.2 && b1.2 >= b2.2);
    assert(b2.1 <= b1.1 && b1.1 <= b2.1);
    assert(b2.3 >= b1.3 && b1.3 >= b2.3);
}

/// Finds the dark pixels' bounds as the scan of the image does.
fn scan_dark_bounds(image: &LumaImage) -> (r: (u32, u32, u32, u32))
    requires
        image.wf(),
    ensures
        r.0 as int == dark_bounds(image@).0,
        r.1 as int == dark_bounds(image@).1,
        r.2 as int == dark_bounds(image@).2,
        r.3 as int == dark_bounds(image@).3,
        r.0 <= image.width,
        r.1 <= image.height,
{
    let w = image.width;
    let h = image.height;
    let mut min_x: u32 = w;
    let mut min_y: u32 = h;
    let mut max_x: u32 = 0;
    let mut max_y: u32 = 0;
    let ghost mut found = false;
    let ghost mut wx0: int = 0;
    let ghost mut wy0: int = 0;
    let ghost mut wx1: int = 0;
    let ghost mut wy1: int = 0;
    let ghost mut wx2: int = 0;
    let ghost mut wy2: int = 0;
    let ghost mut wx3: int = 0;
    let ghost mut wy3: int = 0;
    let mut y: u32 = 0;
    while y < h
        invariant
            image.wf(),
            w == image.width,
            h == image.height,
            y <= h,
            !found ==> min_x == w && min_y == h && max_x == 0 && max_y == 0,
            !found ==> forall|px: int, py: int|
                0 <= px < w && 0 <= py < y ==> !is_dark(#[trigger] image@.at(px, py)),
            found ==> forall|px: int, py: int|
                0 <= px < w && 0 <= py < y && is_dark(#[trigger] image@.at(px, py)) ==> min_x <= px
                    <= max_x && min_y <= py <= max_y,
            found ==> 0 <= wy0 < h && wx0 == min_x && is_dark(image@.at(wx0, wy0)),
            found ==> 0 <= wy1 < h && wx1 == max_x && is_dark(image@.at(wx1, wy1)),
            found ==> 0 <= wx2 < w && wy2 == min_y && is_dark(image@.at(wx2, wy2)),
            found ==> 0 <= wx3 < w && wy3 == max_y && is_dark(image@.at(wx3, wy3)),
            found ==> min_x < w && max_x < w && min_y < h && max_y < h,
        decreases h - y,
    {
        let mut x: u32 = 0;
        while x < w
            invariant
                image.wf(),
                w == image.width,
                h == image.height,
                y < h,
                x <= w,
                !found ==> min_x == w && min_y == h && max_x == 0 && max_y == 0,
                !found ==> forall|px: int, py: int|
                    0 <= px < w && 0 <= py < h && (py < y || (py == y && px < x)) ==> !is_dark(
                        #[trigger] image@.at(px, py),
                    ),
                found ==> forall|px: int, py: int|
                    0 <= px < w && 0 <= py < h && (py < y || (py == y && px < x)) && is_dark(
                        #[trigger] image@.at(px, py),
                    ) ==> min_x <= px <= max_x && min_y <= py <= max_y,
                found ==> 0 <= wy0 < h && wx0 == min_x && is_dark(image@.at(wx0, wy0)),
                found ==> 0 <= wy1 < h && wx1 == max_x && is_dark(image@.at(wx1, wy1)),
                found ==> 0 <= wx2 < w && wy2 == min_y && is_dark(image@.at(wx2, wy2)),
                found ==> 0 <= wx3 < w && wy3 == max_y && is_dark(image@.at(wx3, wy3)),
                found ==> min_x < w && max_x < w && min_y < h && max_y < h,
            decreases w - x,
        {
            let p = image.pixel(x as usize, y as usize);
            if p < 128 {
                proof {
                    if !found {
                        wx0 = x as int;
                        wy0 = y as int;
                        wx1 = x as int;
                        wy1 = y as int;
                        wx2 = x as int;
                        wy2 = y as int;
                        wx3 = x as int;
                        wy3 = y as int;
                    }
                }
                if x < min_x {
                    min_x = x;
                    proof {
                        wx0 = x as int;
                        wy0 = y as int;
                    }
                }
                if y < min_y {
                    min_y = y;
                    proof {
                        wx2 = x as int;
                        wy2 = y as int;
                    }
                }
                if x > max_x {
                    max_x = x;
                    proof {
                        wx1 = x as int;
                        wy1 = y as int;
                    }
                }
                if y > max_y {
                    max_y = y;
                    proof {
                        wx3 = x as int;
                        wy3 = y as int;
                    }
                }
                proof {
                    found = true;
                }
            }
            x = x + 1;
        }
        y = y + 1;
    }
    proof {
        if found {
            let b = (min_x as int, min_y as int, max_x as int, max_y as int);
            assert(image@.at(wx0, wy0) == image@.at(b.0, wy0));
            assert(is_dark_box(image@, b));
            assert(has_dark(image@));
            let c = choose|c: (int, int, int, int)| is_dark_box(image@, c);
            lemma_dark_box_unique(image@, b, c);
        } else {
            assert(!has_dark(image@));
        }
    }
    (min_x, min_y, max_x, max_y)
}

/// The box around the dark pixels of `image` (below 128), framed by `quiet`
/// white pixels on each side; the image itself when it has no dark pixel
/// (and is not empty).
pub fn crop_and_pad_image(image: &LumaImage, quiet: u32) -> (out: LumaImage)
    requires
        image.wf(),
        crop_fits(image@, quiet),
    ensures
        out.wf(),
        out@ == crop_model(image@, quiet),
{
    let (min_x, min_y, max_x, max_y) = scan_dark_bounds(image);
    if min_x > max_x || min_y > max_y {
        return LumaImage {
            width: image.width,
            height: image.height,
            pixels: slice_to_vec(image.pixels.as_slice()),
        };
    }
    let width = max_x - min_x + 1;
    let height = max_y - min_y + 1;
    let vis_w = if width < image.width - min_x {
        width
    } else {
        image.width - min_x
    };
    let vis_h = if height < image.height - min_y {
        height
    } else {
        image.height - min_y
    };
    let out_w = width + quiet * 2;
    let out_h = height + quiet * 2;
    let mut pixels: Vec<u8> = Vec::new();
    let mut y: u32 = 0;
    while y < out_h
        invariant
            image.wf(),
            crops(image@),
            dark_bounds(image@) == (min_x as int, min_y as int, max_x as int, max_y as int),
            crop_visible(image@) == (vis_w as int, vis_h as int),
            vis_w <= width,
            vis_h <= height,
            vis_w <= image.width - min_x,
            vis_h <= image.height - min_y,
            out_w == width + 2 * quiet,
            out_h == height + 2 * quiet,
            out_w as int * out_h as int <= usize::MAX,
            y <= out_h,
            pixels@.len() == y as int * out_w as int,
            forall|k: int|
                0 <= k < pixels@.len() ==> #[trigger] pixels@[k] == crop_pixel(
                    image@,
                    quiet as int,
                    k % (out_w as int),
                    k / (out_w as int),
                ),
        decreases out_h - y,
    {
        let mut x: u32 = 0;
        while x < out_w
            invariant
                image.wf(),
                crops(image@),
                dark_bounds(image@) == (min_x as int, min_y as int, max_x as int, max_y as int),
                crop_visible(image@) == (vis_w as int, vis_h as int),
                vis_w <= width,
                vis_h <= height,
                vis_w <= image.width - min_x,
                vis_h <= image.height - min_y,
                out_w == width + 2 * quiet,
                out_h == height + 2 * quiet,
                out_w as int * out_h as int <= usize::MAX,
                y < out_h,
                x <= out_w,
                pixels@.len() == y as int * out_w as int + x,
                forall|k: int|
                    0 <= k < pixels@.len() ==> #[trigger] pixels@[k] == crop_pixel(
                        image@,
                        quiet as int,
                        k % (out_w as int),
                        k / (out_w as int),
                    ),
            decreases out_w - x,
        {
            let p = if quiet <= x && x < quiet + vis_w && quiet <= y && y < quiet + vis_h {
                image.pixel((min_x + (x - quiet)) as usize, (min_y + (y - quiet)) as usize)
            } else {
                255
            };
            proof {
                let k = y as int * out_w as int + x as int;
                lemma_fundamental_div_mod_converse(k, out_w as int, y as int, x as int);
                lemma_pixel_index(out_w as int, out_h as int, x as int, y as int);
            }
            pixels.push(p);
            x = x + 1;
        }
        proof {
            assert(pixels@.len() == (y as int + 1) * out_w as int) by (nonlinear_arith)
                requires
                    pixels@.len() == y as int * out_w as int + out_w as int,
            ;
        }
        y = y + 1;
    }
    let out = LumaImage { width: out_w, height: out_h, pixels };
    proof {
        assert(out_h as int * out_w as int == out_w as int * out_h as int) by (nonlinear_arith);
        assert(out@.pixels =~= crop_model(image@, quiet).pixels);
    }
    out
}

/// Thresholding leaves only black and white pixels: a pixel darker than
/// the level becomes 0, any other 255.
pub proof fn law_threshold_is_binary(m: LumaModel, level: u8)
    ensures
        threshold_model(m, level).width == m.width,
        threshold_model(m, level).height == m.height,
        forall|i: int|
            0 <= i < m.pixels.len() ==> (#[trigger] threshold_model(m, level).pixels[i] == 0 && m.pixels[i]
                < level) || (threshold_model(m, level).pixels[i] == 255 && m.pixels[i] >= level),
{
}

/// The padded crop keeps every dark pixel of the image, at its place
/// shifted by the box's corner and the frame.
pub proof fn law_crop_keeps_dark_pixels(m: LumaModel, quiet: u32, x: int, y: int)
    requires
        m.wf(),
        0 <= x < m.width,
        0 <= y < m.height,
        is_dark(m.at(x, y)),
    ensures
        crops(m),
        crop_fits(m, quiet) ==> ({
            let b = dark_bounds(m);
            let c = crop_model(m, quiet);
            let cx = x - b.0 + quiet;
            let cy = y - b.1 + quiet;
            &&& 0 <= cx < c.width as int
            &&& 0 <= cy < c.height as int
            &&& c.at(cx, cy) == m.at(x, y)
        }),
{
    lemma_dark_box_exists(m, x, y);
    let b = dark_bounds(m);
    assert(b.0 <= x <= b.2 && b.1 <= y <= b.3);
    if crop_fits(m, quiet) {
        let (cw, ch) = crop_size(m);
        let w = cw + 2 * quiet;
        let h = ch + 2 * quiet;
        let cx = x - b.0 + quiet;
        let cy = y - b.1 + quiet;
        let c = crop_model(m, quiet);
        assert(c.width as int == w && c.height as int == h);
        let k = cy * w + cx;
        lemma_pixel_index(w, h, cx, cy);
        lemma_fundamental_div_mod_converse(k, w, cy, cx);
        assert(c.pixels[k] == crop_pixel(m, quiet as int, cx, cy));
    }
}

/// Column `x` holds a dark pixel.
pub open spec fn dark_col(m: LumaModel, x: int) -> bool {
    exists|y: int| 0 <= y < m.height && is_dark(#[trigger] m.at(x, y))
}

/// Row `y` holds a dark pixel.
pub open spec fn dark_row(m: LumaModel, y: int) -> bool {
    exists|x: int| 0 <= x < m.width && is_dark(#[trigger] m.at(x, y))
}

/// With a dark pixel at (`x`, `y`), the dark pixels have a bounding box,
/// and `dark_bounds` is that box.
proof fn lemma_dark_box_exists(m: LumaModel, x: int, y: int)
    requires
        0 <= x < m.width,
        0 <= y < m.height,
        is_dark(m.at(x, y)),
    ensures
        has_dark(m),
        is_dark_box(m, dark_bounds(m)),
        crops(m),
{
    assert(dark_col(m, x));
    assert(dark_row(m, y));
    let x0 = lemma_first_dark_col(m, x);
    let x1 = lemma_last_dark_col(m, x);
    let y0 = lemma_first_dark_row(m, y);
    let y1 = lemma_last_dark_row(m, y);
    let b = (x0, y0, x1, y1);
    assert forall|px: int, py: int|
        0 <= px < m.width && 0 <= py < m.height && is_dark(#[trigger] m.at(px, py)) implies b.0
        <= px <= b.2 && b.1 <= py <= b.3 by {
        assert(dark_col(m, px));
        assert(dark_row(m, py));
    }
    assert(is_dark_box(m, b));
    assert(has_dark(m));
    let c = choose|c: (int, int, int, int)| is_dark_box(m, c);
    lemma_dark_box_unique(m, b, c);
}

/// The leftmost column with a dark pixel.
proof fn lemma_first_dark_col(m: LumaModel, k: int) -> (i: int)
    requires
        0 <= k < m.width,
        dark_col(m, k),
    ensures
        0 <= i <= k,
        dark_col(m, i),
        forall|j: int| 0 <= j < i ==> !dark_col(m, j),
    decreases k,
{
    if exists|j: int| 0 <= j < k && dark_col(m, j) {
        let j = choose|j: int| 0 <= j < k && dark_col(m, j);
        lemma_first_dark_col(m, j)
    } else {
        k
    }
}

/// The rightmost column with a dark pixel.
proof fn lemma_last_dark_col(m: LumaModel, k: int) -> (i: int)
    requires
        0 <= k < m.width,
        dark_col(m, k),
    ensures
        k <= i < m.width,
        dark_col(m, i),
        forall|j: int| i < j < m.width ==> !dark_col(m, j),
    decreases m.width - k,
{
    if exists|j: int| k < j < m.width && dark_col(m, j) {
        let j = choose|j: int| k < j < m.width && dark_col(m, j);
        lemma_last_dark_col(m, j)
    } else {
        k
    }
}

/// The top row with a dark pixel.
proof fn lemma_first_dark_row(m: LumaModel, k: int) -> (i: int)
    requires
        0 <= k < m.height,
        dark_row(m, k),
    ensures
        0 <= i <= k,
        dark_row(m, i),
        forall|j: int| 0 <= j < i ==> !dark_row(m, j),
    decreases k,
{
    if exists|j: int| 0 <= j < k && dark_row(m, j) {
        let j = choose|j: int| 0 <= j < k && dark_row(m, j);
        lemma_first_dark_row(m, j)
    } else {
        k
    }
}

/// The bottom row with a dark pixel.
proof fn lemma_last_dark_row(m: LumaModel, k: int) -> (i: int)
    requires
        0 <= k < m.height,
        dark_row(m, k),
    ensures
        k <= i < m.height,
        dark_row(m, i),
        forall|j: int| i < j < m.height ==> !dark_row(m, j),
    decreases m.height - k,
{
    if exists|j: int| k < j < m.height && dark_row(m, j) {
        let j = choose|j: int| k < j < m.height && dark_row(m, j);
        lemma_last_dark_row(m, j)
    } else {
        k
    }
}

/// Why no QR text came out of an image file.
#[derive(Clone, Debug)]
pub enum QrError {
    /// The file is not an image that can be read; the reader's message.
    ImageLoad(String),
    /// A padded crop of the image would not fit in memory.
    TooLarge,
    /// No attempt found a QR code with text.
    NotFound,
}

/// The message shown to the user for a QR error.
pub open spec fn qr_error_text(e: QrError) -> Seq<char> {
    match e {
        QrError::ImageLoad(msg) => "图片读取失败: "@ + msg@,
        QrError::TooLarge => "图片尺寸过大"@,
        QrError::NotFound => "未识别到二维码内容"@,
    }
}

impl QrError {
    /// The message shown to the user.
    pub fn message(&self) -> (m: String)
        ensures
            m@ == qr_error_text(*self),
    {
        match self {
            QrError::ImageLoad(e) => {
                let mut out = chars_of("图片读取失败: ");
                let ec = chars_of(e.as_str());
                push_all_chars(&mut out, &ec);
                string_of(&out)
            },
            QrError::TooLarge => "图片尺寸过大".to_string(),
            QrError::NotFound => "未识别到二维码内容".to_string(),
        }
    }
}

/// What `image::load_from_memory(..).to_luma8()` gives for a file: its
/// width, height and luminance bytes, or the reader's error message.
pub uninterp spec fn luma_decoded(data: Seq<u8>) -> Result<(u32, u32, Seq<u8>), Seq<char>>;

/// The contents of a loaded image, or the error message.
pub open spec fn luma_view(r: Result<LumaImage, String>) -> Result<(u32, u32, Seq<u8>), Seq<char>> {
    match r {
        Ok(img) => Ok((img.width, img.height, img.pixels@)),
        Err(e) => Err(e@),
    }
}

/// `image::load_from_memory` and `DynamicImage::to_luma8`: the grayscale
/// image that the file holds (a buffer that `ImageBuffer::new` allocates,
/// one byte per pixel), or the reader's error message. The reader runs
/// with the default `Limits` of `ImageReader`, so an image too large to
/// allocate is an error; that the PNG and JPEG decoders return on every
/// other malformed file rather than stop the program is taken from their
/// design and is not shown here.
#[verifier::external_body]
fn load_luma(data: &[u8]) -> (r: Result<LumaImage, String>)
    ensures
        luma_decoded(data@) == luma_view(r),
        r matches Ok(img) ==> img.wf(),
{
    match image::load_from_memory(data) {
        Ok(img) => {
            let gray = img.to_luma8();
            Ok(LumaImage { width: gray.width(), height: gray.height(), pixels: gray.into_raw() })
        },
        Err(e) => Err(e.to_string()),
    }
}

/// What `rqrr` reads from a grayscale image: for each grid it detects, the
/// text it decodes, or none when decoding fails.
pub uninterp spec fn qr_grid_texts(width: u32, height: u32, pixels: Seq<u8>) -> Seq<Option<Seq<char>>>;

/// The views of optional texts.
pub open spec fn opt_views(v: Seq<Option<String>>) -> Seq<Option<Seq<char>>> {
    v.map_values(|o: Option<String>| match o {
        Some(s) => Some(s@),
        None => None,
    })
}

/// `rqrr::PreparedImage::prepare_from_greyscale`, `detect_grids` and
/// `Grid::decode`: the text of each grid found in the image, or none where
/// decoding fails. The closure reads only pixels inside the image. Inside
/// `rqrr`, a few `assert!`s (payload size, bit-reader position) and the
/// mask table's `panic!` guard invariants of its own decoder; that no image
/// reaches them is taken from that crate and is not shown here.
#[verifier::external_body]
fn detect_qr_texts(image: &LumaImage) -> (r: Vec<Option<String>>)
    requires
        image.wf(),
    ensures
        opt_views(r@) == qr_grid_texts(image.width, image.height, image.pixels@),
{
    let (w, h) = (image.width as usize, image.height as usize);
    let mut prepared = rqrr::PreparedImage::prepare_from_greyscale(w, h, |x, y| image.pixel(x, y));
    prepared.detect_grids().into_iter().map(|grid| grid.decode().ok().map(|(_, text)| text)).collect()
}

/// The trimmed, non-empty texts among the decoded grids.
pub open spec fn qr_contents(texts: Seq<Option<Seq<char>>>) -> Seq<Seq<char>>
    decreases texts.len(),
{
    if texts.len() == 0 {
        Seq::<Seq<char>>::empty()
    } else {
        qr_contents(texts.drop_last()) + match texts.last() {
            Some(c) => if trim(c).len() > 0 {
                seq![trim(c)]
            } else {
                Seq::<Seq<char>>::empty()
            },
            None => Seq::<Seq<char>>::empty(),
        }
    }
}

/// The text that an image gives: the texts of its QR codes, one per line.
pub open spec fn qr_text_of(m: LumaModel) -> Option<Seq<char>> {
    let c = qr_contents(qr_grid_texts(m.width, m.height, m.pixels));
    if c.len() == 0 {
        None
    } else {
        Some(join_sep(c, '\n'))
    }
}

/// The trimmed, non-empty texts among the decoded grids, one per line, or
/// `NotFound` when there is none.
pub fn join_qr_texts(texts: &Vec<Option<String>>) -> (r: Result<String, QrError>)
    ensures
        qr_contents(opt_views(texts@)).len() == 0 ==> r matches Err(QrError::NotFound),
        qr_contents(opt_views(texts@)).len() > 0 ==> (r matches Ok(s) && s@ == join_sep(
            qr_contents(opt_views(texts@)),
            '\n',
        )),
{
    let ghost tv = opt_views(texts@);
    let mut out: Vec<char> = Vec::new();
    let mut count: usize = 0;
    let mut i: usize = 0;
    assert(tv.take(0) =~= Seq::<Option<Seq<char>>>::empty());
    while i < texts.len()
        invariant
            i <= texts.len(),
            tv == opt_views(texts@),
            count <= i,
            count == qr_contents(tv.take(i as int)).len(),
            out@ == join_sep(qr_contents(tv.take(i as int)), '\n'),
        decreases texts.len() - i,
    {
        assert(tv.take(i + 1).drop_last() =~= tv.take(i as int));
        assert(tv.take(i + 1).last() == tv[i as int]);
        let ghost before = qr_contents(tv.take(i as int));
        match &texts[i] {
            Some(text) => {
                let c = chars_of(text.as_str());
                let t = trim_chars(&c);
                if t.len() > 0 {
                    if count > 0 {
                        out.push('\n');
                    }
                    push_all_chars(&mut out, &t);
                    assert(before.push(t@).drop_last() =~= before);
                    if count > 0 {
                        assert(out@ =~= join_sep(before.push(t@), '\n'));
                    } else {
                        assert(out@ =~= t@);
                    }
                    count = count + 1;
                    assert(before + seq![t@] =~= before.push(t@));
                } else {
                    assert(before + Seq::<Seq<char>>::empty() =~= before);
                }
            },
            None => {
                assert(before + Seq::<Seq<char>>::empty() =~= before);
            },
        }
        i = i + 1;
    }
    assert(tv.take(texts.len() as int) =~= tv);
    if count == 0 {
        Err(QrError::NotFound)
    } else {
        Ok(string_of(&out))
    }
}

/// The texts of the QR codes of a grayscale image, one per line.
pub fn decode_qr_from_luma(image: &LumaImage) -> (r: Result<String, QrError>)
    requires
        image.wf(),
    ensures
        r matches Ok(s) ==> qr_text_of(image@) == Some(s@),
        r is Err ==> qr_text_of(image@) is None && r matches Err(QrError::NotFound),
{
    let texts = detect_qr_texts(image);
    join_qr_texts(&texts)
}

/// Appends the characters of `s`.
fn push_all_chars(out: &mut Vec<char>, s: &Vec<char>)
    ensures
        final(out)@ == old(out)@ + s@,
{
    let mut i: usize = 0;
    while i < s.len()
        invariant
            i <= s.len(),
            out@ == old(out)@ + s@.take(i as int),
        decreases s.len() - i,
    {
        out.push(s[i]);
        i = i + 1;
        assert(out@ =~= old(out)@ + s@.take(i as int));
    }
    assert(s@.take(s.len() as int) =~= s@);
}

/// Whether the padded crop of the image fits.
pub fn crop_fits_exec(image: &LumaImage, quiet: u32) -> (r: bool)
    requires
        image.wf(),
    ensures
        r == crop_fits(image@, quiet),
{
    let (min_x, min_y, max_x, max_y) = scan_dark_bounds(image);
    if min_x > max_x || min_y > max_y {
        return true;
    }
    let w = (max_x - min_x) as u64 + 1 + 2 * (quiet as u64);
    let h = (max_y - min_y) as u64 + 1 + 2 * (quiet as u64);
    if w > 0xffff_ffff || h > 0xffff_ffff {
        return false;
    }
    assert(w * h < 0x1_0000_0000 * 0x1_0000_0000) by (nonlinear_arith)
        requires
            w <= 0xffff_ffff,
            h <= 0xffff_ffff,
    ;
    w * h <= usize::MAX as u64
}

/// The attempts made on an image, in order: the image, then for each
/// threshold 128, 160, 180 and 200 the thresholded image and its padded
/// crop.
pub open spec fn qr_attempts(m: LumaModel) -> Seq<LumaModel> {
    seq![
        m,
        threshold_model(m, 128),
        crop_model(threshold_model(m, 128), 24),
        threshold_model(m, 160),
        crop_model(threshold_model(m, 160), 24),
        threshold_model(m, 180),
        crop_model(threshold_model(m, 180), 24),
        threshold_model(m, 200),
        crop_model(threshold_model(m, 200), 24),
    ]
}

/// Every padded crop of the attempts fits.
pub open spec fn qr_crops_fit(m: LumaModel) -> bool {
    &&& crop_fits(threshold_model(m, 128), 24)
    &&& crop_fits(threshold_model(m, 160), 24)
    &&& crop_fits(threshold_model(m, 180), 24)
    &&& crop_fits(threshold_model(m, 200), 24)
}

/// The text of the first attempt that gives one.
pub open spec fn first_text(ms: Seq<LumaModel>) -> Option<Seq<char>>
    decreases ms.len(),
{
    if ms.len() == 0 {
        None
    } else {
        match qr_text_of(ms[0]) {
            Some(s) => Some(s),
            None => first_text(ms.drop_first()),
        }
    }
}

/// The QR text of an image file, or the message that says why there is
/// none.
pub open spec fn qr_image_result(data: Seq<u8>) -> Result<Seq<char>, Seq<char>> {
    match luma_decoded(data) {
        Err(msg) => Err("图片读取失败: "@ + msg),
        Ok((w, h, px)) => {
            let m = LumaModel { width: w, height: h, pixels: px };
            if !qr_crops_fit(m) {
                Err("图片尺寸过大"@)
            } else {
                match first_text(qr_attempts(m)) {
                    Some(s) => Ok(s),
                    None => Err("未识别到二维码内容"@),
                }
            }
        },
    }
}

/// The QR text of a grayscale image: the attempts are decoded in turn
/// until one gives a text (`TooLarge` when a padded crop would not fit).
pub fn decode_qr_attempts(image: LumaImage) -> (r: Result<String, QrError>)
    requires
        image.wf(),
    ensures
        ({
            let m = image@;
            if !qr_crops_fit(m) {
                r matches Err(QrError::TooLarge)
            } else {
                match first_text(qr_attempts(m)) {
                    Some(s) => r matches Ok(t) && t@ == s,
                    None => r matches Err(QrError::NotFound),
                }
            }
        }),
{
    let ghost m = image@;
    let mut attempts: Vec<LumaImage> = Vec::new();
    attempts.push(LumaImage {
        width: image.width,
        height: image.height,
        pixels: slice_to_vec(image.pixels.as_slice()),
    });
    let levels: [u8; 4] = [128, 160, 180, 200];
    let mut j: usize = 0;
    assert(attempts@.map_values(|a: LumaImage| a@) =~= qr_attempts(m).take(1));
    while j < 4
        invariant
            image@ == m,
            m.wf(),
            j <= 4,
            levels@ == seq![128u8, 160u8, 180u8, 200u8],
            attempts@.len() == 1 + 2 * j,
            attempts@.map_values(|a: LumaImage| a@) == qr_attempts(m).take(1 + 2 * j),
            forall|k: int| 0 <= k < attempts@.len() ==> (#[trigger] attempts@[k]).wf(),
            forall|k: int| 0 <= k < j ==> crop_fits(threshold_model(m, levels@[k]), 24),
        decreases 4 - j,
    {
        let level = levels[j];
        let thresholded = threshold_image(&image, level);
        if !crop_fits_exec(&thresholded, 24) {
            proof {
                assert(!qr_crops_fit(m));
            }
            return Err(QrError::TooLarge);
        }
        let cropped = crop_and_pad_image(&thresholded, 24);
        let ghost before = attempts@.map_values(|a: LumaImage| a@);
        attempts.push(thresholded);
        attempts.push(cropped);
        assert(attempts@.map_values(|a: LumaImage| a@) =~= before.push(threshold_model(m, level)).push(
            crop_model(threshold_model(m, level), 24),
        ));
        assert(qr_attempts(m).take(1 + 2 * (j + 1)) =~= qr_attempts(m).take(1 + 2 * j).push(
            threshold_model(m, level),
        ).push(crop_model(threshold_model(m, level), 24)));
        j = j + 1;
    }
    assert(attempts@.map_values(|a: LumaImage| a@) =~= qr_attempts(m));
    assert(qr_crops_fit(m)) by {
        assert(levels@[0] == 128u8 && levels@[1] == 160u8 && levels@[2] == 180u8 && levels@[3]
            == 200u8);
    }
    let ghost ms = qr_attempts(m);
    let mut i: usize = 0;
    assert(ms.skip(0) =~= ms);
    while i < attempts.len()
        invariant
            i <= attempts.len(),
            attempts@.len() == 9,
            image@ == m,
            ms == attempts@.map_values(|a: LumaImage| a@),
            ms == qr_attempts(m),
            qr_crops_fit(m),
            forall|k: int| 0 <= k < attempts@.len() ==> (#[trigger] attempts@[k]).wf(),
            first_text(ms) == first_text(ms.skip(i as int)),
        decreases attempts.len() - i,
    {
        assert(ms.skip(i as int)[0] == attempts@[i as int]@);
        assert(ms.skip(i as int).drop_first() =~= ms.skip(i + 1));
        match decode_qr_from_luma(&attempts[i]) {
            Ok(text) => {
                return Ok(text);
            },
            Err(_) => {},
        }
        i = i + 1;
    }
    Err(QrError::NotFound)
}

/// The QR text of an image file: the file is read as a grayscale image,
/// and the attempts are decoded in turn until one gives a text.
pub fn decode_qr_image(data: &[u8]) -> (r: Result<String, QrError>)
    ensures
        luma_decoded(data@) matches Err(msg) ==> r matches Err(QrError::ImageLoad(e)) && e@ == msg,
        luma_decoded(data@) matches Ok((w, h, px)) ==> {
            let m = LumaModel { width: w, height: h, pixels: px };
            if !qr_crops_fit(m) {
                r matches Err(QrError::TooLarge)
            } else {
                match first_text(qr_attempts(m)) {
                    Some(s) => r matches Ok(t) && t@ == s,
                    None => r matches Err(QrError::NotFound),
                }
            }
        },
        r matches Ok(t) ==> qr_image_result(data@) == Ok::<Seq<char>, Seq<char>>(t@),
        r matches Err(e) ==> qr_image_result(data@) == Err::<Seq<char>, Seq<char>>(
            qr_error_text(e),
        ),
{
    match load_luma(data) {
        Ok(image) => decode_qr_attempts(image),
        Err(e) => Err(QrError::ImageLoad(e)),
    }
}

/// The padded crop of an image, framed by 24 pixels, fits whenever the
/// whole image so framed fits: the kept box never exceeds the image.
proof fn lemma_crop_within_image(t: LumaModel)
    requires
        t.width + 48 <= u32::MAX,
        t.height + 48 <= u32::MAX,
        (t.width + 48) * (t.height + 48) <= usize::MAX,
    ensures
        crop_fits(t, 24),
{
    if crops(t) {
        let (cw, ch) = crop_size(t);
        let w = t.width as int;
        let h = t.height as int;
        if has_dark(t) {
            let (x, y) = choose|x: int, y: int|
                0 <= x < t.width && 0 <= y < t.height && is_dark(#[trigger] t.at(x, y));
            lemma_dark_box_exists(t, x, y);
            assert(1 <= cw <= w && 1 <= ch <= h);
            assert((cw + 48) * (ch + 48) <= (w + 48) * (h + 48)) by (nonlinear_arith)
                requires
                    1 <= cw <= w,
                    1 <= ch <= h,
            ;
        } else {
            assert(cw == 1 - w && ch == 1 - h);
            assert(w == 0 && h == 0);
            assert((cw + 48) * (ch + 48) == 49 * 49);
        }
    }
}

/// An image of ordinary size is never refused as too large: when the image
/// framed by 24 white pixels on each side has sides that fit in 32 bits and
/// a pixel count that fits in memory, every padded crop that decoding
/// tries fits, so `decode_qr_image` never ends in `TooLarge` on it.
pub proof fn law_ordinary_images_fit(m: LumaModel)
    requires
        m.width + 48 <= u32::MAX,
        m.height + 48 <= u32::MAX,
        (m.width + 48) * (m.height + 48) <= usize::MAX,
    ensures
        qr_crops_fit(m),
{
    lemma_crop_within_image(threshold_model(m, 128));
    lemma_crop_within_image(threshold_model(m, 160));
    lemma_crop_within_image(threshold_model(m, 180));
    lemma_crop_within_image(threshold_model(m, 200));
}

} // verus!
