//! The stages that a frame passes through, and the pipeline that orders
//! them.

use vstd::prelude::*;
use crate::cv_pipeline::stages::egui_dispatcher_stage::{
    shown, BGRConvertToEguiStage, ImageData, StageFailure,
};
use crate::cv_pipeline::stages::wechat_qr_detect_stage::{
    annotated, detections_view, records, Detection, DetectionData, WeChatQRCodeDecoderStage,
};
use crate::frame::{Frame, FrameData};
use crate::qr_code::QRCodeData;

pub mod manager;
pub mod stages;

verus! {

/// A unit of work on a frame: it may change the frame in place, and may
/// keep something for later.
pub enum Stage {
    /// Marks the detected codes and records them.
    Decoder(WeChatQRCodeDecoderStage),
    /// Keeps the frame as an image for display.
    Converter(BGRConvertToEguiStage),
}

/// What a stage keeps: a decoder its records, a converter its image.
pub enum StageData {
    Decoder(Seq<QRCodeData>),
    Converter(Option<ImageData>),
}

impl View for Stage {
    type V = StageData;

    open spec fn view(&self) -> StageData {
        match self {
            Stage::Decoder(stage) => StageData::Decoder(stage@),
            Stage::Converter(stage) => StageData::Converter(stage@),
        }
    }
}

/// A stage and a frame after the frame has passed the stage, and whether
/// the stage did its work.
pub struct Pass {
    pub stage: StageData,
    pub frame: FrameData,
    pub done: bool,
}

/// What becomes of `stage` and `frame` when the frame, in which
/// `detections` were found, passes the stage. A decoder marks the codes
/// and adds their records to its own; a converter keeps the image of the
/// frame, and fails on a frame without pixels.
pub open spec fn stage_pass(stage: StageData, frame: FrameData, detections: Seq<DetectionData>) -> Pass {
    match stage {
        StageData::Decoder(waiting) => Pass {
            stage: StageData::Decoder(waiting + records(frame, detections)),
            frame: annotated(frame, detections, detections.len() as int),
            done: true,
        },
        StageData::Converter(image) => if frame.is_blank() {
            Pass { stage, frame, done: false }
        } else {
            Pass { stage: StageData::Converter(Some(shown(frame))), frame, done: true }
        },
    }
}

impl Stage {
    /// Lets `input`, in which `detections` were found, pass the stage.
    pub fn process(&mut self, input: &mut Frame, detections: &Vec<Detection>) -> (done: Result<
        (),
        StageFailure,
    >)
        ensures
            (Pass { stage: final(self)@, frame: final(input)@, done: done is Ok }) == stage_pass(
                old(self)@,
                old(input)@,
                detections_view(detections@),
            ),
    {
        match self {
            Stage::Decoder(stage) => {
                stage.process(input, detections);
                Ok(())
            },
            Stage::Converter(stage) => stage.process(input),
        }
    }

    pub fn get_name(&self) -> (name: &'static str)
        ensures
            name@ == match self {
                Stage::Decoder(_) => "WeChatQRCodeDecoderStage"@,
                Stage::Converter(_) => "ConvertToEguiStage"@,
            },
    {
        match self {
            Stage::Decoder(stage) => stage.get_name(),
            Stage::Converter(stage) => stage.get_name(),
        }
    }
}

} // verus!
