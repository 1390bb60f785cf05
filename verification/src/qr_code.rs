//! What the decoding of one QR code leaves behind.

use vstd::prelude::*;
use crate::frame::{region, Frame, FrameData, Rect};

verus! {

/// The region of a record does not lie within its image.
#[derive(Clone, Copy, Debug, PartialEq, Eq, Structural)]
pub struct RegionOutsideImage;

/// What a record holds: the frame the code was found in, the decoded text,
/// and the rectangle that bounds the code in the frame.
pub struct QRCodeData {
    pub image: FrameData,
    pub data: Seq<char>,
    pub rect: Rect,
}

/// The record of a decoded QR code.
#[derive(Debug, PartialEq, Eq)]
pub struct QRCode {
    image: Frame,
    data: String,
    rect: Rect,
}

impl View for QRCode {
    type V = QRCodeData;

    closed spec fn view(&self) -> QRCodeData {
        QRCodeData { image: self.image@, data: self.data@, rect: self.rect }
    }
}

impl QRCode {
    pub fn new(image: Frame, data: String, rect: Rect) -> (code: Self)
        ensures
            code@ == (QRCodeData { image: image@, data: data@, rect }),
    {
        Self { image, data, rect }
    }

    pub fn get_image(&self) -> (image: &Frame)
        ensures
            image@ == self@.image,
    {
        &self.image
    }

    pub fn get_data(&self) -> (data: &String)
        ensures
            data@ == self@.data,
    {
        &self.data
    }

    pub fn get_rect(&self) -> (rect: &Rect)
        ensures
            *rect == self@.rect,
    {
        &self.rect
    }

    /// The part of the image that shows the code alone; an error where the
    /// rectangle does not lie within the image.
    pub fn get_qr_code_only(&self) -> (part: Result<Frame, RegionOutsideImage>)
        ensures
            part is Ok <==> self@.rect.within(self@.image.cols, self@.image.rows.len()),
            part matches Ok(p) ==> p@ == region(self@.image, self@.rect),
    {
        match self.image.roi(self.rect) {
            Some(part) => Ok(part),
            None => Err(RegionOutsideImage),
        }
    }
}

impl Clone for QRCode {
    fn clone(&self) -> (copy: QRCode)
        ensures
            copy@ == self@,
    {
        QRCode { image: self.image.clone(), data: self.data.clone(), rect: self.rect }
    }
}

} // verus!
