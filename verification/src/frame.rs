//! The layout of RGBA image data: four bytes per pixel, rows from the top,
//! each row from the left.

use crate::color::Color;
use crate::number::Number;
use crate::validate::{scene_in_order, validate_scene, TraceError};
use vstd::prelude::*;

verus! {

/// The place of pixel `(x, y)` in the image data of a picture `width` pixels
/// wide: the index of its red byte.
pub open spec fn pixel_offset(width: int, x: int, y: int) -> int {
    (x + y * width) * 4
}

/// Byte `k` of the four bytes that stand for a colour: red, green, blue, and
/// 255 for full opacity.
pub open spec fn channel_byte(c: Color, k: int) -> u8 {
    if k == 0 {
        c.r
    } else if k == 1 {
        c.g
    } else if k == 2 {
        c.b
    } else {
        255u8
    }
}

/// Image data in which the four bytes from index `i` on stand for `c`.
pub open spec fn with_pixel(data: Seq<u8>, i: int, c: Color) -> Seq<u8> {
    data.update(i, c.r).update(i + 1, c.g).update(i + 2, c.b).update(i + 3, 255u8)
}

/// Image data whose first pixels are `colors`, in their order; what lies
/// behind them is left as it is in `data`.
pub open spec fn image_data(colors: Seq<Color>, data: Seq<u8>) -> Seq<u8> {
    Seq::new(
        data.len(),
        |i: int|
            if i < 4 * colors.len() {
                channel_byte(colors[i / 4], i % 4)
            } else {
                data[i]
            },
    )
}

/// Computes the index of pixel `(x, y)` in the image data's underlying array.
pub fn compute_image_data_array_index(width: u32, x: u32, y: u32) -> (i: u32)
    requires
        pixel_offset(width as int, x as int, y as int) <= u32::MAX,
    ensures
        i == pixel_offset(width as int, x as int, y as int),
{
    assert(y * width <= x + y * width) by (nonlinear_arith);
    (x + y * width) * 4
}

/// Writes the colour `c` to pixel `(x, y)` of the image data: its red, green
/// and blue byte, and 255 as the fourth. No other byte changes.
pub fn set_pixel_color(data: &mut Vec<u8>, width: u32, x: u32, y: u32, c: &Color)
    requires
        pixel_offset(width as int, x as int, y as int) + 3 <= u32::MAX,
        pixel_offset(width as int, x as int, y as int) + 3 < old(data)@.len(),
    ensures
        final(data)@ == with_pixel(
            old(data)@,
            pixel_offset(width as int, x as int, y as int),
            *c,
        ),
{
    let i = compute_image_data_array_index(width, x, y);
    data[i as usize] = c.r;
    data[(i + 1) as usize] = c.g;
    data[(i + 2) as usize] = c.b;
    data[(i + 3) as usize] = 255;
}

/// A frame in the making: image data into which the pixels of a picture are
/// written one after another, row by row.
///
/// A frame exists only for a scene that was found in order, and it gives its
/// image data away only when every pixel has been written.
#[derive(Debug)]
pub struct Frame {
    width: u32,
    height: u32,
    written: u32,
    data: Vec<u8>,
}

impl Frame {
    #[verifier::type_invariant]
    spec fn in_order(self) -> bool {
        &&& self.width * self.height <= 0x4000_0000
        &&& 4 * (self.width * self.height) <= self.data@.len()
        &&& self.written <= self.width * self.height
    }

    /// The picture's width in pixels.
    pub closed spec fn width(self) -> u32 {
        self.width
    }

    /// The picture's height in pixels.
    pub closed spec fn height(self) -> u32 {
        self.height
    }

    /// How many pixels have been written.
    pub closed spec fn written(self) -> nat {
        self.written as nat
    }

    /// The image data as it stands.
    pub closed spec fn bytes(self) -> Seq<u8> {
        self.data@
    }

    /// Begins the frame of a scene: checks the scene and takes a copy of the
    /// image data.
    ///
    /// The scene is given as it is to `validate_scene`: by the radii of its
    /// spheres and the lengths of its planes' normals. For a scene that is
    /// not in order there is no frame, only the fault.
    pub fn begin(
        radii: &Vec<Number>,
        normal_lengths: &Vec<Number>,
        least: Number,
        most: Number,
        imagedata_data: &Vec<u8>,
        width: u32,
        height: u32,
    ) -> (begun: Result<Frame, TraceError>)
        requires
            width * height <= 0x4000_0000,
            4 * (width * height) <= imagedata_data@.len(),
        ensures
            !scene_in_order(radii@, normal_lengths@, least, most) ==> begun == Err::<
                Frame,
                TraceError,
            >(TraceError::InvalidPrimitive),
            scene_in_order(radii@, normal_lengths@, least, most) ==> (begun matches Ok(frame)
                && frame.width() == width && frame.height() == height && frame.written() == 0
                && frame.bytes() == imagedata_data@),
    {
        match validate_scene(radii, normal_lengths, least, most) {
            Err(fault) => Err(fault),
            Ok(()) => {
                let data: Vec<u8> = imagedata_data.clone();
                assert(data@ =~= imagedata_data@);
                Ok(Frame { width, height, written: 0, data })
            },
        }
    }

    /// The pixel that is to be written next, as `(x, y)`, or `None` when the
    /// picture is complete. The pixels come row by row, each row from the
    /// left.
    pub fn next_pixel(&self) -> (pixel: Option<(u32, u32)>)
        ensures
            self.written() <= self.width() * self.height(),
            self.written() == self.width() * self.height() ==> pixel is None,
            self.written() < self.width() * self.height() ==> (pixel matches Some((x, y)) && x
                < self.width() && y < self.height() && x + y * self.width() == self.written()),
    {
        proof {
            use_type_invariant(self);
        }
        if self.width == 0 || self.height == 0 {
            assert(self.width * self.height == 0) by (nonlinear_arith)
                requires
                    self.width == 0 || self.height == 0,
            ;
            return None;
        }
        assert(self.width * self.height <= u32::MAX);
        if self.written == self.width * self.height {
            return None;
        }
        let x: u32 = self.written % self.width;
        let y: u32 = self.written / self.width;
        proof {
            let w = self.width as int;
            let n = self.written as int;
            vstd::arithmetic::div_mod::lemma_fundamental_div_mod(n, w);
            assert(w * (n / w) == (n / w) * w) by (nonlinear_arith);
            assert(n / w < self.height) by (nonlinear_arith)
                requires
                    n < w * self.height,
                    n == (n / w) * w + n % w,
                    0 <= n % w,
                    w > 0,
            ;
        }
        Some((x, y))
    }

    /// Writes the colour of the next pixel: its red, green and blue byte, and
    /// 255 as the fourth. No other byte changes.
    pub fn put(&mut self, color: Color)
        requires
            old(self).written() < old(self).width() * old(self).height(),
        ensures
            final(self).width() == old(self).width(),
            final(self).height() == old(self).height(),
            final(self).written() == old(self).written() + 1,
            final(self).bytes() == with_pixel(
                old(self).bytes(),
                4 * (old(self).written() as int),
                color,
            ),
    {
        proof {
            use_type_invariant(&*self);
        }
        let i: usize = 4 * (self.written as usize);
        self.data[i] = color.r;
        self.data[i + 1] = color.g;
        self.data[i + 2] = color.b;
        self.data[i + 3] = 255;
        self.written = self.written + 1;
    }

    /// Gives the image data away, if the picture is complete: a picture of
    /// which pixels are missing is not handed out.
    pub fn finish(self) -> (data: Option<Vec<u8>>)
        ensures
            self.written() == self.width() * self.height() ==> (data matches Some(bytes)
                && bytes@ == self.bytes()),
            self.written() != self.width() * self.height() ==> data is None,
    {
        proof {
            use_type_invariant(&self);
        }
        if self.written == self.width * self.height {
            Some(self.data)
        } else {
            None
        }
    }
}

/// Makes the frame of a scene: checks the scene, and writes the picture of
/// `width` by `height` pixels, given row by row in `colors`, into a copy of
/// the image data.
///
/// The scene is given as it is to `validate_scene`: by the radii of its
/// spheres and the lengths of its planes' normals. For a scene that is not in
/// order there is no frame: the fault is returned, and no image data. For a
/// scene in order the bytes of the picture's pixels are overwritten, four per
/// pixel, and bytes behind the picture are kept. The image data handed in is
/// never changed.
pub fn render_with_data_array(
    radii: &Vec<Number>,
    normal_lengths: &Vec<Number>,
    least: Number,
    most: Number,
    colors: &Vec<Color>,
    imagedata_data: &Vec<u8>,
    width: u32,
    height: u32,
) -> (rendered: Result<Vec<u8>, TraceError>)
    requires
        colors@.len() == width * height,
        width * height <= 0x4000_0000,
        4 * (width * height) <= imagedata_data@.len(),
    ensures
        !scene_in_order(radii@, normal_lengths@, least, most) ==> rendered == Err::<
            Vec<u8>,
            TraceError,
        >(TraceError::InvalidPrimitive),
        scene_in_order(radii@, normal_lengths@, least, most) ==> (rendered matches Ok(data)
            && data@ == image_data(colors@, imagedata_data@)),
{
    let mut frame = match Frame::begin(
        radii,
        normal_lengths,
        least,
        most,
        imagedata_data,
        width,
        height,
    ) {
        Err(fault) => {
            return Err(fault);
        },
        Ok(frame) => frame,
    };
    let mut i: usize = 0;
    while i < colors.len()
        invariant
            i <= colors@.len(),
            colors@.len() == width * height,
            scene_in_order(radii@, normal_lengths@, least, most),
            4 * (width * height) <= imagedata_data@.len(),
            frame.width() == width,
            frame.height() == height,
            frame.written() == i,
            frame.bytes().len() == imagedata_data@.len(),
            forall|k: int|
                0 <= k < 4 * i ==> frame.bytes()[k] == channel_byte(colors@[k / 4], k % 4),
            forall|k: int|
                4 * i <= k < imagedata_data@.len() ==> frame.bytes()[k] == imagedata_data@[k],
        decreases colors@.len() - i,
    {
        frame.put(colors[i]);
        i = i + 1;
    }
    assert(frame.bytes() =~= image_data(colors@, imagedata_data@));
    match frame.finish() {
        Some(data) => Ok(data),
        None => vstd::pervasive::unreached(),
    }
}

/// Writing one more pixel behind a picture gives the picture with that pixel
/// added: so a frame into which colours were put one after another holds the
/// picture of these colours.
pub proof fn lemma_put_extends_the_picture(colors: Seq<Color>, data: Seq<u8>, c: Color)
    requires
        4 * (colors.len() + 1) <= data.len(),
    ensures
        with_pixel(image_data(colors, data), 4 * (colors.len() as int), c) == image_data(
            colors.push(c),
            data,
        ),
        image_data(Seq::<Color>::empty(), data) == data,
{
    let n = colors.len() as int;
    let more = colors.push(c);
    assert forall|i: int| 0 <= i < data.len() implies with_pixel(
        image_data(colors, data),
        4 * n,
        c,
    )[i] == image_data(more, data)[i] by {
        if i < 4 * n {
            assert(more[i / 4] == colors[i / 4]);
        } else if i < 4 * n + 4 {
            assert(i / 4 == n);
            assert(more[n] == c);
        }
    }
    assert(with_pixel(image_data(colors, data), 4 * n, c) =~= image_data(more, data));
    assert(image_data(Seq::<Color>::empty(), data) =~= data);
}

/// Pixel `(x, y)` of a rendered picture holds the colour given for it.
pub proof fn lemma_image_data_pixel(
    colors: Seq<Color>,
    data: Seq<u8>,
    width: int,
    height: int,
    x: int,
    y: int,
)
    requires
        0 <= x < width,
        0 <= y < height,
        colors.len() == width * height,
        4 * colors.len() <= data.len(),
    ensures
        0 <= x + y * width < colors.len(),
        forall|k: int|
            0 <= k < 4 ==> #[trigger] image_data(colors, data)[pixel_offset(width, x, y) + k]
                == channel_byte(colors[x + y * width], k),
{
    assert(0 <= y * width && y * width + width <= height * width && height * width == width
        * height) by (nonlinear_arith)
        requires
            0 <= y < height,
            0 <= x < width,
    ;
}

/// Rendering a picture onto image data that already shows it changes nothing.
pub proof fn lemma_render_idempotent(colors: Seq<Color>, data: Seq<u8>)
    ensures
        image_data(colors, image_data(colors, data)) == image_data(colors, data),
{
    assert(image_data(colors, image_data(colors, data)) =~= image_data(colors, data));
}

/// What lies behind the picture is never touched, and the length is kept.
pub proof fn lemma_image_data_rest(colors: Seq<Color>, data: Seq<u8>)
    ensures
        image_data(colors, data).len() == data.len(),
        forall|i: int|
            4 * colors.len() <= i < data.len() ==> #[trigger] image_data(colors, data)[i]
                == data[i],
{
}

} // verus!
