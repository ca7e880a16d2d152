use vstd::prelude::*;

use crate::error::{XCapError, XCapResult};
use crate::geometry::{Rect, Rotation};

verus! {

/// One pixel in canonical order: red, green, blue, alpha.
#[derive(Debug, Clone, Copy, PartialEq, Eq, Structural)]
pub struct Rgba8 {
    pub r: u8,
    pub g: u8,
    pub b: u8,
    pub a: u8,
}

/// Byte layout of one pixel in a native framebuffer.
#[derive(Debug, Clone, Copy, PartialEq, Eq, Structural)]
pub enum PixelFormat {
    /// Blue, green, red, alpha.
    Bgra,
    /// Red, green, blue, alpha.
    Rgba,
    /// Blue, green, red and one unused byte; the pixel is opaque.
    Bgrx,
    /// A layout this library cannot map to RGBA, by its native code.
    Other(u32),
}

/// A framebuffer as the platform hands it over: `height` rows of `stride`
/// bytes each, every row starting with `width` pixels of four bytes.
#[derive(Debug, Clone)]
pub struct Frame {
    pub width: u32,
    pub height: u32,
    pub stride: usize,
    pub format: PixelFormat,
    pub data: Vec<u8>,
}

/// What to do with the upright picture before handing it out.
#[derive(Debug, Clone, Copy, PartialEq, Eq)]
pub struct DisplayOptions {
    /// Keep only this part of the picture, clipped to its bounds.
    pub crop_region: Option<Rect>,
    /// Resample the picture to this width and height.
    pub output_size: Option<(u32, u32)>,
}

/// The mathematical picture: `height` rows of `width` pixels each.
pub struct ImageView {
    pub width: u32,
    pub height: u32,
    pub pixels: Seq<Seq<Rgba8>>,
}

pub open spec fn image_wf(v: ImageView) -> bool {
    &&& v.pixels.len() == v.height
    &&& forall|i: int| 0 <= i < v.pixels.len() ==> (#[trigger] v.pixels[i]).len() == v.width
}

/// An owned RGBA picture, row by row from the top, top-left origin.
#[derive(Debug)]
pub struct CapturedImage {
    width: u32,
    height: u32,
    rows: Vec<Vec<Rgba8>>,
}

impl View for CapturedImage {
    type V = ImageView;

    closed spec fn view(&self) -> ImageView {
        ImageView {
            width: self.width,
            height: self.height,
            pixels: Seq::new(self.rows@.len(), |i: int| self.rows@[i]@),
        }
    }
}

/// Whether the frame's rows fit in its buffer.
pub open spec fn frame_fits(f: Frame) -> bool {
    &&& 4 * f.width <= f.stride
    &&& f.height * f.stride <= f.data@.len()
}

/// Whether a frame can be turned into an RGBA picture.
pub open spec fn frame_accepted(f: Frame) -> bool {
    &&& !(f.format is Other)
    &&& frame_fits(f)
}

/// The pixel whose four bytes start at offset `o`, in canonical order.
pub open spec fn native_pixel(format: PixelFormat, d: Seq<u8>, o: int) -> Rgba8 {
    match format {
        PixelFormat::Rgba => Rgba8 { r: d[o], g: d[o + 1], b: d[o + 2], a: d[o + 3] },
        PixelFormat::Bgrx => Rgba8 { r: d[o + 2], g: d[o + 1], b: d[o], a: 255 },
        _ => Rgba8 { r: d[o + 2], g: d[o + 1], b: d[o], a: d[o + 3] },
    }
}

pub open spec fn frame_pixel(f: Frame, x: int, y: int) -> Rgba8 {
    native_pixel(f.format, f.data@, y * f.stride + 4 * x)
}

/// The frame read as a picture, with padding at the end of each row dropped.
pub open spec fn decoded(f: Frame) -> ImageView {
    ImageView {
        width: f.width,
        height: f.height,
        pixels: Seq::new(
            f.height as nat,
            |y: int| Seq::new(f.width as nat, |x: int| frame_pixel(f, x, y)),
        ),
    }
}

/// How an output pixel is found in the source picture.
#[derive(Debug, Clone, Copy, PartialEq, Eq, Structural)]
pub enum Mapping {
    /// Undo the given clockwise rotation.
    Turn(Rotation),
    /// Move by an offset, as a crop does.
    Shift(u32, u32),
    /// Nearest-neighbour resampling to the output size.
    Stretch,
}

/// The source column and row of output pixel `(x, y)` of an `ow × oh` result.
pub open spec fn source(v: ImageView, m: Mapping, ow: int, oh: int, x: int, y: int) -> (int, int) {
    match m {
        Mapping::Turn(rot) => match rot {
            Rotation::Deg0 => (x, y),
            Rotation::Deg90 => (v.width - 1 - y, x),
            Rotation::Deg180 => (v.width - 1 - x, v.height - 1 - y),
            Rotation::Deg270 => (y, v.height - 1 - x),
        },
        Mapping::Shift(dx, dy) => (x + dx, y + dy),
        Mapping::Stretch => (x * v.width / ow, y * v.height / oh),
    }
}

pub open spec fn in_bounds(v: ImageView, p: (int, int)) -> bool {
    0 <= p.0 < v.width && 0 <= p.1 < v.height
}

pub open spec fn source_pixel(v: ImageView, m: Mapping, ow: int, oh: int, x: int, y: int) -> Rgba8 {
    let p = source(v, m, ow, oh, x, y);
    v.pixels[p.1][p.0]
}

/// The `ow × oh` picture whose every pixel is taken from `v` through `m`.
pub open spec fn remapped(v: ImageView, m: Mapping, ow: u32, oh: u32) -> ImageView {
    ImageView {
        width: ow,
        height: oh,
        pixels: Seq::new(
            oh as nat,
            |y: int| Seq::new(ow as nat, |x: int| source_pixel(v, m, ow as int, oh as int, x, y)),
        ),
    }
}

/// The picture turned back so that it stands as the user sees the output.
pub open spec fn upright(v: ImageView, rot: Rotation) -> ImageView {
    if rot.spec_is_quarter_turn() {
        remapped(v, Mapping::Turn(rot), v.height, v.width)
    } else {
        remapped(v, Mapping::Turn(rot), v.width, v.height)
    }
}

pub open spec fn clip(a: int, limit: int) -> int {
    if a < limit {
        a
    } else {
        limit
    }
}

/// The part of the picture inside `r`; what lies outside the picture is dropped.
pub open spec fn clipped(v: ImageView, r: Rect) -> ImageView {
    let x0 = clip(r.x as int, v.width as int);
    let y0 = clip(r.y as int, v.height as int);
    let x1 = clip(r.x + r.width, v.width as int);
    let y1 = clip(r.y + r.height, v.height as int);
    remapped(v, Mapping::Shift(x0 as u32, y0 as u32), (x1 - x0) as u32, (y1 - y0) as u32)
}

/// The picture resampled to `ow × oh`; an empty picture has nothing to
/// sample and stays as it is.
pub open spec fn stretched(v: ImageView, ow: u32, oh: u32) -> ImageView {
    if v.width == 0 || v.height == 0 {
        v
    } else {
        remapped(v, Mapping::Stretch, ow, oh)
    }
}

pub open spec fn with_options(v: ImageView, options: Option<DisplayOptions>) -> ImageView {
    match options {
        None => v,
        Some(o) => {
            let c = match o.crop_region {
                Some(r) => clipped(v, r),
                None => v,
            };
            match o.output_size {
                Some(s) => stretched(c, s.0, s.1),
                None => c,
            }
        },
    }
}

/// The picture that a frame of an output with the given rotation yields.
pub open spec fn rendered(f: Frame, rot: Rotation, options: Option<DisplayOptions>) -> ImageView {
    with_options(upright(decoded(f), rot), options)
}

pub open spec fn pixel_bytes(p: Rgba8) -> Seq<u8> {
    seq![p.r, p.g, p.b, p.a]
}

pub open spec fn row_bytes(row: Seq<Rgba8>) -> Seq<u8>
    decreases row.len(),
{
    if row.len() == 0 {
        seq![]
    } else {
        row_bytes(row.drop_last()) + pixel_bytes(row.last())
    }
}

/// The picture as tightly packed RGBA bytes, row after row.
pub open spec fn image_bytes(rows: Seq<Seq<Rgba8>>) -> Seq<u8>
    decreases rows.len(),
{
    if rows.len() == 0 {
        seq![]
    } else {
        image_bytes(rows.drop_last()) + row_bytes(rows.last())
    }
}

proof fn lemma_scaled_index(x: int, n: int, d: int)
    requires
        0 <= x < d,
        0 < n,
    ensures
        0 <= x * n / d < n,
{
    let q = x * n / d;
    let r = x * n % d;
    assert(x * n == d * q + r && 0 <= r < d) by {
        vstd::arithmetic::div_mod::lemma_fundamental_div_mod(x * n, d);
    }
    assert(0 <= x * n) by (nonlinear_arith)
        requires
            0 <= x,
            0 < n,
    ;
    assert(0 <= q < n) by (nonlinear_arith)
        requires
            x * n == d * q + r,
            0 <= r < d,
            0 <= x < d,
            0 < n,
            0 <= x * n,
    ;
}

proof fn lemma_product_fits(a: int, b: int)
    requires
        0 <= a <= u32::MAX,
        0 <= b <= u32::MAX,
    ensures
        0 <= a * b <= u64::MAX,
{
    assert(0 <= a * b <= u32::MAX * u32::MAX) by (nonlinear_arith)
        requires
            0 <= a <= u32::MAX,
            0 <= b <= u32::MAX,
    ;
}

proof fn lemma_row_bytes_len(row: Seq<Rgba8>)
    ensures
        row_bytes(row).len() == 4 * row.len(),
    decreases row.len(),
{
    if row.len() > 0 {
        lemma_row_bytes_len(row.drop_last());
    }
}

proof fn lemma_image_bytes_len(rows: Seq<Seq<Rgba8>>, w: int)
    requires
        forall|i: int| 0 <= i < rows.len() ==> (#[trigger] rows[i]).len() == w,
    ensures
        image_bytes(rows).len() == 4 * w * rows.len(),
    decreases rows.len(),
{
    if rows.len() > 0 {
        let n = rows.len() - 1;
        lemma_image_bytes_len(rows.drop_last(), w);
        lemma_row_bytes_len(rows.last());
        assert(4 * w * n + 4 * w == 4 * w * (n + 1)) by (nonlinear_arith);
    }
}

impl CapturedImage {
    #[verifier::type_invariant]
    spec fn inv(&self) -> bool {
        image_wf(self@)
    }

    pub fn width(&self) -> (r: u32)
        ensures
            r == self@.width,
    {
        self.width
    }

    pub fn height(&self) -> (r: u32)
        ensures
            r == self@.height,
    {
        self.height
    }

    /// The pixel at column `x` and row `y`, if the picture has one there.
    pub fn pixel(&self, x: u32, y: u32) -> (r: Option<Rgba8>)
        ensures
            x < self@.width && y < self@.height ==> r == Some(self@.pixels[y as int][x as int]),
            !(x < self@.width && y < self@.height) ==> r is None,
    {
        proof {
            use_type_invariant(self);
            self.lemma_rows();
        }
        if x < self.width && y < self.height {
            assert(self@.pixels[y as int] == self.rows@[y as int]@);
            Some(self.rows[y as usize][x as usize])
        } else {
            None
        }
    }

    proof fn lemma_rows(&self)
        requires
            image_wf(self@),
        ensures
            self.rows@.len() == self.height,
            forall|i: int|
                0 <= i < self.rows@.len() ==> (#[trigger] self.rows@[i])@.len() == self.width,
    {
        assert forall|i: int| 0 <= i < self.rows@.len() implies (#[trigger] self.rows@[i])@.len()
            == self.width by {
            assert(self@.pixels[i] == self.rows@[i]@);
        }
    }

    fn source_of(&self, m: Mapping, ow: u32, oh: u32, x: u32, y: u32) -> (r: (u32, u32))
        requires
            x < ow,
            y < oh,
            in_bounds(self@, source(self@, m, ow as int, oh as int, x as int, y as int)),
        ensures
            r.0 == source(self@, m, ow as int, oh as int, x as int, y as int).0,
            r.1 == source(self@, m, ow as int, oh as int, x as int, y as int).1,
    {
        match m {
            Mapping::Turn(rot) => match rot {
                Rotation::Deg0 => (x, y),
                Rotation::Deg90 => (self.width - 1 - y, x),
                Rotation::Deg180 => (self.width - 1 - x, self.height - 1 - y),
                Rotation::Deg270 => (y, self.height - 1 - x),
            },
            Mapping::Shift(dx, dy) => (x + dx, y + dy),
            Mapping::Stretch => {
                proof {
                    lemma_product_fits(x as int, self.width as int);
                    lemma_product_fits(y as int, self.height as int);
                }
                let sx: u64 = (x as u64) * (self.width as u64) / (ow as u64);
                let sy: u64 = (y as u64) * (self.height as u64) / (oh as u64);
                (sx as u32, sy as u32)
            },
        }
    }

    /// Reads a native framebuffer into a picture in canonical RGBA order.
    /// A layout that cannot be mapped, or rows that do not fit in the
    /// buffer, give `UnsupportedFormat`.
    pub fn from_frame(f: &Frame) -> (r: XCapResult<CapturedImage>)
        ensures
            frame_accepted(*f) ==> r is Ok && r->Ok_0@ == decoded(*f),
            !frame_accepted(*f) ==> r == Err::<CapturedImage, XCapError>(
                XCapError::UnsupportedFormat,
            ),
    {
        if let PixelFormat::Other(_) = f.format {
            return Err(XCapError::UnsupportedFormat);
        }
        let len: usize = f.data.len();
        let w4: usize = match (f.width as usize).checked_mul(4) {
            Some(v) => v,
            None => {
                return Err(XCapError::UnsupportedFormat);
            },
        };
        if w4 > f.stride {
            return Err(XCapError::UnsupportedFormat);
        }
        let total: usize = match f.stride.checked_mul(f.height as usize) {
            Some(v) => v,
            None => {
                proof {
                    assert(f.height * f.stride == f.stride * f.height) by (nonlinear_arith);
                }
                return Err(XCapError::UnsupportedFormat);
            },
        };
        assert(f.height * f.stride == f.stride * f.height) by (nonlinear_arith);
        if total > len {
            return Err(XCapError::UnsupportedFormat);
        }
        let ghost target = decoded(*f);
        let mut rows: Vec<Vec<Rgba8>> = Vec::new();
        let mut y: u32 = 0;
        let mut off: usize = 0;
        while y < f.height
            invariant
                y <= f.height,
                off == y * f.stride,
                frame_accepted(*f),
                len == f.data@.len(),
                target == decoded(*f),
                rows@.len() == y,
                forall|i: int| 0 <= i < y ==> (#[trigger] rows@[i])@ == target.pixels[i],
            decreases f.height - y,
        {
            assert(off + f.stride <= f.height * f.stride) by (nonlinear_arith)
                requires
                    off == y * f.stride,
                    y < f.height,
            ;
            let mut row: Vec<Rgba8> = Vec::new();
            let mut x: u32 = 0;
            while x < f.width
                invariant
                    x <= f.width,
                    y < f.height,
                    off == y * f.stride,
                    off + f.stride <= f.data@.len(),
                    len == f.data@.len(),
                    frame_accepted(*f),
                    row@.len() == x,
                    forall|j: int| 0 <= j < x ==> #[trigger] row@[j] == frame_pixel(*f, j, y as int),
                decreases f.width - x,
            {
                assert(4 * x + 4 <= f.stride);
                assert(off + 4 * x + 4 <= f.data@.len());
                let o: usize = off + 4 * (x as usize);
                let d = &f.data;
                let p = match f.format {
                    PixelFormat::Rgba => Rgba8 { r: d[o], g: d[o + 1], b: d[o + 2], a: d[o + 3] },
                    PixelFormat::Bgrx => Rgba8 { r: d[o + 2], g: d[o + 1], b: d[o], a: 255 },
                    _ => Rgba8 { r: d[o + 2], g: d[o + 1], b: d[o], a: d[o + 3] },
                };
                row.push(p);
                x = x + 1;
            }
            assert(row@ =~= target.pixels[y as int]);
            rows.push(row);
            assert((y + 1) * f.stride == y * f.stride + f.stride) by (nonlinear_arith);
            assert(off + f.stride <= f.data@.len());
            off = off + f.stride;
            y = y + 1;
        }
        let r = CapturedImage { width: f.width, height: f.height, rows };
        assert(r@.pixels =~= target.pixels);
        Ok(r)
    }

    /// The picture as tightly packed RGBA bytes, row after row from the top.
    pub fn to_rgba_bytes(&self) -> (r: Vec<u8>)
        ensures
            r@ == image_bytes(self@.pixels),
            r@.len() == 4 * self@.width * self@.height,
    {
        proof {
            use_type_invariant(self);
            self.lemma_rows();
        }
        let mut out: Vec<u8> = Vec::new();
        let mut y: usize = 0;
        while y < self.rows.len()
            invariant
                image_wf(self@),
                y <= self.rows@.len(),
                out@ == image_bytes(self@.pixels.take(y as int)),
            decreases self.rows@.len() - y,
        {
            let row = &self.rows[y];
            assert(self@.pixels[y as int] == row@);
            let mut x: usize = 0;
            while x < row.len()
                invariant
                    y < self.rows@.len(),
                    row@ == self@.pixels[y as int],
                    x <= row@.len(),
                    out@ == image_bytes(self@.pixels.take(y as int)) + row_bytes(row@.take(x as int)),
                decreases row@.len() - x,
            {
                let p = row[x];
                out.push(p.r);
                out.push(p.g);
                out.push(p.b);
                out.push(p.a);
                assert(row@.take(x + 1).drop_last() =~= row@.take(x as int));
                assert(out@ =~= image_bytes(self@.pixels.take(y as int)) + row_bytes(
                    row@.take(x + 1),
                ));
                x = x + 1;
            }
            assert(row@.take(x as int) =~= row@);
            assert(self@.pixels.take(y + 1).drop_last() =~= self@.pixels.take(y as int));
            y = y + 1;
        }
        assert(self@.pixels.take(y as int) =~= self@.pixels);
        proof {
            lemma_image_bytes_len(self@.pixels, self@.width as int);
        }
        out
    }

    /// Turns a picture taken from an output with clockwise rotation `rot`
    /// back upright; a quarter turn swaps width and height.
    pub fn rotate_upright(&self, rot: Rotation) -> (r: CapturedImage)
        ensures
            r@ == upright(self@, rot),
    {
        if rot == Rotation::Deg90 || rot == Rotation::Deg270 {
            self.remap(Mapping::Turn(rot), self.height, self.width)
        } else {
            self.remap(Mapping::Turn(rot), self.width, self.height)
        }
    }

    /// The part of the picture inside `region`, clipped to the picture.
    pub fn crop(&self, region: Rect) -> (r: CapturedImage)
        ensures
            r@ == clipped(self@, region),
    {
        let x0: u32 = if region.x < self.width { region.x } else { self.width };
        let y0: u32 = if region.y < self.height { region.y } else { self.height };
        let xe: u64 = region.x as u64 + region.width as u64;
        let ye: u64 = region.y as u64 + region.height as u64;
        let x1: u32 = if xe < self.width as u64 { xe as u32 } else { self.width };
        let y1: u32 = if ye < self.height as u64 { ye as u32 } else { self.height };
        let ow: u32 = if x1 > x0 { x1 - x0 } else { 0 };
        let oh: u32 = if y1 > y0 { y1 - y0 } else { 0 };
        assert(ow == clip(region.x + region.width, self@.width as int) - clip(region.x as int, self@.width as int));
        assert(oh == clip(region.y + region.height, self@.height as int) - clip(region.y as int, self@.height as int));
        self.remap(Mapping::Shift(x0, y0), ow, oh)
    }

    /// Resamples the picture to `width × height` by nearest neighbour; an
    /// empty picture comes back as it is.
    pub fn resize(&self, width: u32, height: u32) -> (r: CapturedImage)
        ensures
            r@ == stretched(self@, width, height),
    {
        if self.width == 0 || self.height == 0 {
            let r = self.remap(Mapping::Shift(0, 0), self.width, self.height);
            proof {
                use_type_invariant(self);
                assert(r@.pixels =~~= self@.pixels);
            }
            return r;
        }
        assert forall|x: int, y: int| 0 <= x < width && 0 <= y < height implies in_bounds(
            self@,
            #[trigger] source(self@, Mapping::Stretch, width as int, height as int, x, y),
        ) by {
            lemma_scaled_index(x, self@.width as int, width as int);
            lemma_scaled_index(y, self@.height as int, height as int);
        }
        self.remap(Mapping::Stretch, width, height)
    }

    /// Builds the `ow × oh` picture whose pixels are taken through `m`.
    fn remap(&self, m: Mapping, ow: u32, oh: u32) -> (r: CapturedImage)
        requires
            forall|x: int, y: int|
                0 <= x < ow && 0 <= y < oh ==> in_bounds(
                    self@,
                    #[trigger] source(self@, m, ow as int, oh as int, x, y),
                ),
        ensures
            r@ == remapped(self@, m, ow, oh),
    {
        proof {
            use_type_invariant(self);
            self.lemma_rows();
        }
        let ghost target = remapped(self@, m, ow, oh);
        let mut rows: Vec<Vec<Rgba8>> = Vec::new();
        let mut y: u32 = 0;
        while y < oh
            invariant
                y <= oh,
                rows@.len() == y,
                target == remapped(self@, m, ow, oh),
                forall|x: int, yy: int|
                    0 <= x < ow && 0 <= yy < oh ==> in_bounds(
                        self@,
                        #[trigger] source(self@, m, ow as int, oh as int, x, yy),
                    ),
                forall|i: int| 0 <= i < y ==> (#[trigger] rows@[i])@ == target.pixels[i],
            decreases oh - y,
        {
            let mut row: Vec<Rgba8> = Vec::new();
            let mut x: u32 = 0;
            while x < ow
                invariant
                    x <= ow,
                    y < oh,
                    row@.len() == x,
                    forall|xx: int, yy: int|
                        0 <= xx < ow && 0 <= yy < oh ==> in_bounds(
                            self@,
                            #[trigger] source(self@, m, ow as int, oh as int, xx, yy),
                        ),
                    forall|j: int|
                        0 <= j < x ==> #[trigger] row@[j] == source_pixel(
                            self@,
                            m,
                            ow as int,
                            oh as int,
                            j,
                            y as int,
                        ),
                decreases ow - x,
            {
                assert(in_bounds(self@, source(self@, m, ow as int, oh as int, x as int, y as int)));
                let (sx, sy) = self.source_of(m, ow, oh, x, y);
                proof {
                    use_type_invariant(self);
            self.lemma_rows();
                    assert(self@.pixels[sy as int] == self.rows@[sy as int]@);
                }
                let p = self.rows[sy as usize][sx as usize];
                row.push(p);
                x = x + 1;
            }
            assert(row@ =~= target.pixels[y as int]);
            rows.push(row);
            y = y + 1;
        }
        let r = CapturedImage { width: ow, height: oh, rows };
        assert(r@.pixels =~= target.pixels);
        r
    }
}

/// Turns a framebuffer grabbed from an output with clockwise rotation
/// `rotation` into the picture the caller receives: decoded to RGBA, turned
/// upright, then cropped and resampled as `options` ask.
pub fn render(frame: &Frame, rotation: Rotation, options: &Option<DisplayOptions>) -> (r: XCapResult<
    CapturedImage,
>)
    ensures
        r is Ok <==> frame_accepted(*frame),
        r is Ok ==> r->Ok_0@ == rendered(*frame, rotation, *options),
        !frame_accepted(*frame) ==> r == Err::<CapturedImage, XCapError>(
            XCapError::UnsupportedFormat,
        ),
{
    let decoded_image = match CapturedImage::from_frame(frame) {
        Ok(img) => img,
        Err(e) => {
            return Err(e);
        },
    };
    let up = decoded_image.rotate_upright(rotation);
    match options {
        None => Ok(up),
        Some(o) => {
            let c = match o.crop_region {
                Some(region) => up.crop(region),
                None => up,
            };
            match o.output_size {
                Some(size) => Ok(c.resize(size.0, size.1)),
                None => Ok(c),
            }
        },
    }
}

} // verus!
