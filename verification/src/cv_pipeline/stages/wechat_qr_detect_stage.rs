//! The stage that marks the QR codes found in a frame and records them.

use vstd::prelude::*;
use vstd::string::StringExecFns;
use crate::frame::{drawn, Bgr, Frame, FrameData, Rect};
use crate::qr_code::{QRCode, QRCodeData};

verus! {

/// One QR code as a detector reports it: the text it decoded, and the
/// rectangle that bounds the code in the frame.
#[derive(Debug, PartialEq, Eq)]
pub struct Detection {
    pub payload: String,
    pub rect: Rect,
}

/// What a detection holds.
pub struct DetectionData {
    pub payload: Seq<char>,
    pub rect: Rect,
}

impl View for Detection {
    type V = DetectionData;

    open spec fn view(&self) -> DetectionData {
        DetectionData { payload: self.payload@, rect: self.rect }
    }
}

/// What `detections` hold.
pub open spec fn detections_view(detections: Seq<Detection>) -> Seq<DetectionData> {
    detections.map_values(|detection: Detection| detection@)
}

/// What `codes` hold.
pub open spec fn codes_view(codes: Seq<Box<QRCode>>) -> Seq<QRCodeData> {
    codes.map_values(|code: Box<QRCode>| code@)
}

/// The colour in which codes are marked.
pub open spec fn mark_color() -> Bgr {
    Bgr { b: 0, g: 255, r: 0 }
}

/// The frame after the first `count` of `detections` were marked on it,
/// one after another.
pub open spec fn annotated(frame: FrameData, detections: Seq<DetectionData>, count: int) -> FrameData
    decreases count,
{
    if count <= 0 {
        frame
    } else {
        drawn(annotated(frame, detections, count - 1), detections[count - 1].rect, mark_color())
    }
}

/// The records of `detections` in `frame`, in their order: each holds its
/// text, its rectangle, and the frame as it is once the code is marked.
pub open spec fn records(frame: FrameData, detections: Seq<DetectionData>) -> Seq<QRCodeData> {
    Seq::new(
        detections.len(),
        |k: int|
            QRCodeData {
                image: annotated(frame, detections, k + 1),
                data: detections[k].payload,
                rect: detections[k].rect,
            },
    )
}

/// Marking codes changes no size: the frame is without pixels after it if
/// and only if it was before.
pub proof fn lemma_annotated_keeps_size(
    frame: FrameData,
    detections: Seq<DetectionData>,
    count: int,
)
    requires
        frame.is_rectangular(),
    ensures
        annotated(frame, detections, count).cols == frame.cols,
        annotated(frame, detections, count).rows.len() == frame.rows.len(),
        annotated(frame, detections, count).is_rectangular(),
        annotated(frame, detections, count).is_blank() == frame.is_blank(),
    decreases count,
{
    if count > 0 {
        lemma_annotated_keeps_size(frame, detections, count - 1);
    }
}

/// A pixel on the outline of the code marked last has the colour of the
/// marks.
pub proof fn lemma_last_mark_is_visible(
    frame: FrameData,
    detections: Seq<DetectionData>,
    x: int,
    y: int,
)
    requires
        frame.is_rectangular(),
        detections.len() > 0,
        0 <= y < frame.rows.len(),
        0 <= x < frame.cols,
        detections.last().rect.on_outline(x, y),
    ensures
        annotated(frame, detections, detections.len() as int).rows[y][x] == mark_color(),
{
    lemma_annotated_keeps_size(frame, detections, detections.len() - 1);
}

/// The stage that marks each detected code on the frame and keeps a record
/// of it until the records are taken.
pub struct WeChatQRCodeDecoderStage {
    last_qr_codes: Vec<Box<QRCode>>,
}

impl View for WeChatQRCodeDecoderStage {
    type V = Seq<QRCodeData>;

    /// The records that wait to be taken, in the order of their detection.
    closed spec fn view(&self) -> Seq<QRCodeData> {
        codes_view(self.last_qr_codes@)
    }
}

impl WeChatQRCodeDecoderStage {
    pub fn new() -> (stage: Self)
        ensures
            stage@ == Seq::<QRCodeData>::empty(),
    {
        let stage = Self { last_qr_codes: Vec::new() };
        assert(stage@ =~= Seq::<QRCodeData>::empty());
        stage
    }

    /// Hands out the records that wait, which then wait no more: a record
    /// is handed out once. `None` where none waits.
    pub fn pop_last_qrs(&mut self) -> (codes: Option<Vec<Box<QRCode>>>)
        ensures
            final(self)@ == Seq::<QRCodeData>::empty(),
            match codes {
                Some(taken) => taken@.len() > 0 && codes_view(taken@) == old(self)@,
                None => old(self)@.len() == 0,
            },
    {
        let mut codes: Vec<Box<QRCode>> = Vec::new();
        std::mem::swap(&mut self.last_qr_codes, &mut codes);
        assert(self@ =~= Seq::<QRCodeData>::empty());
        if codes.len() == 0 {
            None
        } else {
            Some(codes)
        }
    }

    /// The record of a code with the text `decoded_str`, found within
    /// `rect` of `img`.
    pub fn create_qr_code(img: &Frame, decoded_str: &str, rect: &Rect) -> (code: Box<QRCode>)
        ensures
            code@ == (QRCodeData { image: img@, data: decoded_str@, rect: *rect }),
    {
        Box::new(QRCode::new(img.clone(), String::from_str(decoded_str), *rect))
    }

    /// Marks every detected code on `input` and adds a record of each to
    /// those that wait, in the order of the detections. No detection is no
    /// mark and no record.
    pub fn process(&mut self, input: &mut Frame, detections: &Vec<Detection>)
        ensures
            final(input)@ == annotated(
                old(input)@,
                detections_view(detections@),
                detections@.len() as int,
            ),
            final(self)@ == old(self)@ + records(old(input)@, detections_view(detections@)),
    {
        let ghost start = input@;
        let ghost found = detections_view(detections@);
        let ghost waiting = self@;
        let green = Bgr { b: 0, g: 255, r: 0 };
        let mut k: usize = 0;
        while k < detections.len()
            invariant
                k <= detections@.len(),
                found == detections_view(detections@),
                green == mark_color(),
                input@ == annotated(start, found, k as int),
                self@ == waiting + records(start, found).take(k as int),
            decreases detections@.len() - k,
        {
            let rect: Rect = detections[k].rect;
            input.draw_rectangle(rect, green);
            let code = WeChatQRCodeDecoderStage::create_qr_code(
                input,
                detections[k].payload.as_str(),
                &rect,
            );
            let ghost before = self.last_qr_codes@;
            self.last_qr_codes.push(code);
            proof {
                assert(found[k as int] == detections@[k as int]@);
                assert(codes_view(self.last_qr_codes@) =~= codes_view(before).push(code@));
                assert(records(start, found).take(k as int + 1) =~= records(start, found).take(
                    k as int,
                ).push(records(start, found)[k as int]));
                assert(self@ =~= waiting + records(start, found).take(k as int + 1));
            }
            k = k + 1;
        }
        proof {
            assert(records(start, found).take(k as int) =~= records(start, found));
        }
    }

    pub fn get_name(&self) -> (name: &'static str)
        ensures
            name@ == "WeChatQRCodeDecoderStage"@,
    {
        "WeChatQRCodeDecoderStage"
    }
}

} // verus!
