//! The stage that turns a frame into an image for display.

use egui::ColorImage;
use vstd::prelude::*;
use crate::frame::{packed_index, Frame, FrameData};

verus! {

/// An image of `egui`. Its fields are not looked at here: what it holds is
/// spoken of through `image_size` and `image_pixels`.
#[verifier::external_type_specification]
#[verifier::external_body]
pub struct ExColorImage(ColorImage);

/// The width and the height of an image of `egui`: its field `size`.
pub uninterp spec fn image_size(image: ColorImage) -> (nat, nat);

/// The pixels of an image of `egui`, row after row, each as its red,
/// green, blue and alpha: its field `pixels`.
pub uninterp spec fn image_pixels(image: ColorImage) -> Seq<(u8, u8, u8, u8)>;

/// What an image for display holds.
pub struct ImageData {
    pub width: nat,
    pub height: nat,
    pub pixels: Seq<(u8, u8, u8, u8)>,
}

/// What `image` holds.
pub open spec fn image_data(image: ColorImage) -> ImageData {
    ImageData {
        width: image_size(image).0,
        height: image_size(image).1,
        pixels: image_pixels(image),
    }
}

/// The image that shows `frame`: of the same size, every pixel with the
/// colours of the frame's, and opaque.
pub open spec fn shown(frame: FrameData) -> ImageData {
    ImageData {
        width: frame.cols,
        height: frame.rows.len(),
        pixels: Seq::new(
            frame.cols * frame.rows.len(),
            |k: int|
                {
                    let pixel = frame.rows[k / (frame.cols as int)][k % (frame.cols as int)];
                    (pixel.r, pixel.g, pixel.b, 255u8)
                },
        ),
    }
}

/// A position in a packed image is that of one pixel of the frame.
pub proof fn lemma_position_in_rows(cols: nat, rows: nat, k: int)
    requires
        0 <= k < cols * rows,
    ensures
        cols > 0,
        0 <= k / (cols as int) < rows,
        0 <= k % (cols as int) < cols,
        packed_index(cols, k % (cols as int), k / (cols as int), 4) == 4 * k,
{
    assert(cols > 0) by (nonlinear_arith)
        requires
            0 <= k < cols * rows,
    ;
    let c = cols as int;
    vstd::arithmetic::div_mod::lemma_fundamental_div_mod(k, c);
    vstd::arithmetic::div_mod::lemma_mod_pos_bound(k, c);
    assert(0 <= k / c < rows) by (nonlinear_arith)
        requires
            0 <= k < c * rows,
            c > 0,
            k == c * (k / c) + k % c,
            0 <= k % c < c,
    ;
    assert(((k / c) * c + k % c) * 4 == 4 * k) by (nonlinear_arith)
        requires
            k == c * (k / c) + k % c,
    ;
}

/// Makes an image of `egui` with `ColorImage::from_rgba_unmultiplied`,
/// which takes the size as given and reads the bytes four to the pixel,
/// row after row; a pixel whose alpha is 255 keeps its three colours as
/// they are. The bytes must number four for every pixel of the size.
#[verifier::external_body]
fn convert_rba_to_color_image(width: usize, height: usize, rgba: &Vec<u8>) -> (image: ColorImage)
    requires
        rgba@.len() == width * height * 4,
    ensures
        image_size(image) == (width as nat, height as nat),
        image_pixels(image).len() == width * height,
        forall|k: int|
            0 <= k < width * height && rgba@[4 * k + 3] == 255 ==> #[trigger] image_pixels(
                image,
            )[k] == (rgba@[4 * k], rgba@[4 * k + 1], rgba@[4 * k + 2], 255u8),
{
    ColorImage::from_rgba_unmultiplied([width, height], rgba)
}

/// Something kept the stage from doing its work on a frame.
#[derive(Clone, Copy, Debug, PartialEq, Eq, Structural)]
pub struct StageFailure;

/// The stage that keeps, of the frames that pass, the last one as an image
/// for display.
pub struct BGRConvertToEguiStage {
    last_image: Option<Box<ColorImage>>,
}

impl View for BGRConvertToEguiStage {
    type V = Option<ImageData>;

    /// The image that waits to be taken, if any.
    closed spec fn view(&self) -> Option<ImageData> {
        match self.last_image {
            Some(image) => Some(image_data(*image)),
            None => None,
        }
    }
}

impl BGRConvertToEguiStage {
    pub fn new() -> (stage: Self)
        ensures
            stage@ is None,
    {
        Self { last_image: None }
    }

    /// Hands out the image that waits, which then waits no more.
    pub fn pop_last_image(&mut self) -> (image: Option<Box<ColorImage>>)
        ensures
            final(self)@ is None,
            match image {
                Some(taken) => old(self)@ == Some(image_data(*taken)),
                None => old(self)@ is None,
            },
    {
        self.last_image.take()
    }

    /// Makes the image that shows `input`.
    pub fn convert(input: &Frame) -> (image: ColorImage)
        ensures
            image_data(image) == shown(input@),
    {
        input.check_rectangular();
        let rgba: Vec<u8> = input.to_rgba();
        let width: usize = input.width();
        let height: usize = input.height();
        let image = convert_rba_to_color_image(width, height, &rgba);
        proof {
            let frame = input@;
            assert(width * height * 4 == frame.cols * frame.rows.len() * 4);
            assert forall|k: int| 0 <= k < width * height implies #[trigger] image_pixels(image)[k]
                == shown(frame).pixels[k] by {
                lemma_position_in_rows(frame.cols, frame.rows.len(), k);
                let x = k % (frame.cols as int);
                let y = k / (frame.cols as int);
                assert(packed_index(frame.cols, x, y, 4) == 4 * k);
            }
            assert(image_pixels(image) =~= shown(frame).pixels);
        }
        image
    }

    /// Keeps the image that shows `input` in place of the one that waited.
    /// A frame without pixels cannot be shown; it leaves the stage as it
    /// was.
    pub fn process(&mut self, input: &mut Frame) -> (done: Result<(), StageFailure>)
        ensures
            final(input)@ == old(input)@,
            done is Err <==> old(input)@.is_blank(),
            final(self)@ == if old(input)@.is_blank() {
                old(self)@
            } else {
                Some(shown(old(input)@))
            },
    {
        if input.is_empty() {
            return Err(StageFailure);
        }
        let image = BGRConvertToEguiStage::convert(input);
        self.last_image = Some(Box::new(image));
        Ok(())
    }

    pub fn get_name(&self) -> (name: &'static str)
        ensures
            name@ == "ConvertToEguiStage"@,
    {
        "ConvertToEguiStage"
    }
}

} // verus!
