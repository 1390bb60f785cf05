//! The decisions of the worker that runs the pipeline, one iteration at a
//! time: what comes of the frame that was captured, and what the requests
//! that were queued change.

use egui::ColorImage;
use vstd::prelude::*;
use crate::constants::SourceType;
use crate::cv_pipeline::manager::{
    latest_image, passed, waiting_codes, without_codes, without_images, CVPipelineManager,
    PipelineData, PipelineError,
};
use crate::cv_pipeline::stages::egui_dispatcher_stage::{
    image_data, shown, BGRConvertToEguiStage, ImageData,
};
use crate::cv_pipeline::stages::wechat_qr_detect_stage::{
    annotated, codes_view, detections_view, lemma_annotated_keeps_size,
    lemma_last_mark_is_visible, mark_color, records, Detection, DetectionData,
    WeChatQRCodeDecoderStage,
};
use crate::cv_pipeline::{Stage, StageData};
use crate::frame::{Frame, FrameData};
use crate::qr_code::{QRCode, QRCodeData};

verus! {

/// What one iteration gives to forward: the image to display, if a frame
/// got through; the records of the codes found, in the order of their
/// detection; the focus to set, if one was asked for; and how the pass
/// ended.
pub struct WorkerOutput {
    pub image: Option<Box<ColorImage>>,
    pub qr_codes: Vec<Box<QRCode>>,
    pub focus: Option<u8>,
    pub outcome: Result<(), PipelineError>,
}

/// What the output of an iteration holds.
pub struct OutputData {
    pub image: Option<ImageData>,
    pub qr_codes: Seq<QRCodeData>,
    pub focus: Option<u8>,
    pub outcome: Result<(), PipelineError>,
}

impl View for WorkerOutput {
    type V = OutputData;

    open spec fn view(&self) -> OutputData {
        OutputData {
            image: match self.image {
                Some(image) => Some(image_data(*image)),
                None => None,
            },
            qr_codes: codes_view(self.qr_codes@),
            focus: self.focus,
            outcome: self.outcome,
        }
    }
}

/// The last of `requests`, which is the one that counts; `None` where
/// there is no request.
pub open spec fn latest<T>(requests: Seq<T>) -> Option<T> {
    if requests.len() == 0 {
        None
    } else {
        Some(requests.last())
    }
}

/// The stages of the worker's pipeline with nothing kept in them: the
/// decoder first, so that its marks are in the frame when the converter
/// behind it makes the image.
pub open spec fn idle_stages() -> Seq<StageData> {
    seq![StageData::Decoder(Seq::empty()), StageData::Converter(None)]
}

/// One iteration of the worker that draws from `source`: the source it
/// draws from next, and what it gives to forward. `captured` is what the
/// source gave, `detections` what was found in it; the requests are those
/// queued since the iteration before.
pub open spec fn iteration(
    source: SourceType,
    captured: Option<FrameData>,
    detections: Seq<DetectionData>,
    source_requests: Seq<SourceType>,
    focus_requests: Seq<u8>,
) -> (SourceType, OutputData) {
    let next = match latest(source_requests) {
        Some(requested) => requested,
        None => source,
    };
    let focus = latest(focus_requests);
    let output = match captured {
        None => OutputData {
            image: None,
            qr_codes: Seq::empty(),
            focus,
            outcome: Err(PipelineError::SourceUnavailable),
        },
        Some(frame) => if frame.is_blank() {
            OutputData {
                image: None,
                qr_codes: records(frame, detections),
                focus,
                outcome: Err(PipelineError::StageProcessingFailure { stage: 1 }),
            }
        } else {
            OutputData {
                image: Some(shown(annotated(frame, detections, detections.len() as int))),
                qr_codes: records(frame, detections),
                focus,
                outcome: Ok(()),
            }
        },
    };
    (next, output)
}

/// The worker: it owns the pipeline and its stages.
pub struct CVWorker {
    pipeline: CVPipelineManager,
}

impl CVWorker {
    #[verifier::type_invariant]
    spec fn settled(&self) -> bool {
        self.pipeline@.source is Some && self.pipeline@.stages == idle_stages()
    }

    /// The source that the next frame is to be drawn from.
    pub closed spec fn source(&self) -> SourceType {
        self.pipeline@.source->0
    }

    /// A pipeline that draws from `source` and has the two stages of the
    /// worker in their order, with nothing kept in them.
    fn assemble(source: SourceType) -> (pipeline: CVPipelineManager)
        ensures
            pipeline@ == (PipelineData { source: Some(source), stages: idle_stages() }),
    {
        let mut pipeline = CVPipelineManager::new();
        pipeline.set_source(source);
        pipeline.add_stage(Stage::Decoder(WeChatQRCodeDecoderStage::new()));
        pipeline.add_stage(Stage::Converter(BGRConvertToEguiStage::new()));
        assert(pipeline@.stages =~= idle_stages());
        pipeline
    }

    /// The worker as it starts: it draws from the camera.
    pub fn create_pipeline() -> (worker: Self)
        ensures
            worker.source() == SourceType::Camera,
    {
        Self { pipeline: CVWorker::assemble(SourceType::Camera) }
    }

    /// The source that the next frame is to be drawn from.
    pub fn next_source(&self) -> (source: SourceType)
        ensures
            source == self.source(),
    {
        proof {
            use_type_invariant(self);
        }
        match self.pipeline.source() {
            Some(source) => source,
            None => SourceType::Camera,
        }
    }

    /// Makes the last of the requested sources the source of `pipeline`;
    /// without a request the source stays.
    pub fn handle_change_source(pipeline: &mut CVPipelineManager, requests: &Vec<SourceType>)
        ensures
            final(pipeline)@ == (PipelineData {
                source: match latest(requests@) {
                    Some(requested) => Some(requested),
                    None => old(pipeline)@.source,
                },
                stages: old(pipeline)@.stages,
            }),
    {
        if requests.len() > 0 {
            pipeline.set_source(requests[requests.len() - 1]);
        }
    }

    /// The focus to set: the last that was asked for, if any.
    pub fn handle_change_focus(requests: &Vec<u8>) -> (focus: Option<u8>)
        ensures
            focus == latest(requests@),
    {
        if requests.len() > 0 {
            Some(requests[requests.len() - 1])
        } else {
            None
        }
    }

    /// Takes the image to display out of `pipeline`.
    pub fn handle_new_image(pipeline: &mut CVPipelineManager) -> (image: Option<Box<ColorImage>>)
        ensures
            final(pipeline)@ == (PipelineData {
                source: old(pipeline)@.source,
                stages: without_images(old(pipeline)@.stages),
            }),
            match image {
                Some(taken) => latest_image(old(pipeline)@.stages) == Some(image_data(*taken)),
                None => latest_image(old(pipeline)@.stages) is None,
            },
    {
        pipeline.pop_last_image()
    }

    /// Takes the records to forward out of `pipeline`.
    pub fn handle_new_qr(pipeline: &mut CVPipelineManager) -> (codes: Vec<Box<QRCode>>)
        ensures
            final(pipeline)@ == (PipelineData {
                source: old(pipeline)@.source,
                stages: without_codes(old(pipeline)@.stages),
            }),
            codes_view(codes@) == waiting_codes(old(pipeline)@.stages),
    {
        pipeline.pop_last_qrs()
    }

    /// Applies the requests to `pipeline` and takes out of it what its
    /// stages kept: the image to display, the records to forward, and with
    /// them the focus to set.
    pub fn handle_channels(
        pipeline: &mut CVPipelineManager,
        source_requests: &Vec<SourceType>,
        focus_requests: &Vec<u8>,
    ) -> (taken: (Option<Box<ColorImage>>, Vec<Box<QRCode>>, Option<u8>))
        ensures
            final(pipeline)@ == (PipelineData {
                source: match latest(source_requests@) {
                    Some(requested) => Some(requested),
                    None => old(pipeline)@.source,
                },
                stages: without_codes(without_images(old(pipeline)@.stages)),
            }),
            match taken.0 {
                Some(image) => latest_image(old(pipeline)@.stages) == Some(image_data(*image)),
                None => latest_image(old(pipeline)@.stages) is None,
            },
            codes_view(taken.1@) == waiting_codes(without_images(old(pipeline)@.stages)),
            taken.2 == latest(focus_requests@),
    {
        CVWorker::handle_change_source(pipeline, source_requests);
        let focus = CVWorker::handle_change_focus(focus_requests);
        let image = CVWorker::handle_new_image(pipeline);
        let qr_codes = CVWorker::handle_new_qr(pipeline);
        (image, qr_codes, focus)
    }

    /// Runs one iteration: the captured frame goes through the pipeline,
    /// the requests are applied, and what the stages kept is taken out to
    /// be forwarded. A pass that fails drops its frame and leaves the
    /// worker ready for the next.
    pub fn run_once(
        &mut self,
        captured: Option<Box<Frame>>,
        detections: &Vec<Detection>,
        source_requests: &Vec<SourceType>,
        focus_requests: &Vec<u8>,
    ) -> (output: WorkerOutput)
        ensures
            (final(self).source(), output@) == iteration(
                old(self).source(),
                match captured {
                    Some(frame) => Some(frame@),
                    None => None,
                },
                detections_view(detections@),
                source_requests@,
                focus_requests@,
            ),
    {
        proof {
            use_type_invariant(&*self);
        }
        let ghost found = detections_view(detections@);
        let ghost source = self.source();
        if let Some(frame) = &captured {
            frame.check_rectangular();
        }
        let mut pipeline = CVWorker::assemble(SourceType::Camera);
        std::mem::swap(&mut self.pipeline, &mut pipeline);
        proof {
            if captured is Some {
                lemma_idle_pass(captured->0@, found);
            }
        }
        let outcome: Result<(), PipelineError> = match pipeline.process(captured, detections) {
            Ok(_) => Ok(()),
            Err(error) => Err(error),
        };
        let ghost after_pass = pipeline@.stages;
        let (image, qr_codes, focus) = CVWorker::handle_channels(
            &mut pipeline,
            source_requests,
            focus_requests,
        );
        proof {
            lemma_taking_out(after_pass);
            assert(pipeline@.stages =~= idle_stages());
        }
        self.pipeline = pipeline;
        WorkerOutput { image, qr_codes, focus, outcome }
    }
}

/// What the worker's stages keep after a frame has passed them: the
/// decoder the records of the codes, and the converter, unless the frame
/// has no pixels, the image of the frame with the codes marked.
pub proof fn lemma_idle_pass(frame: FrameData, detections: Seq<DetectionData>)
    requires
        frame.is_rectangular(),
    ensures
        ({
            let progress = passed(idle_stages(), frame, detections, 2);
            let marked = annotated(frame, detections, detections.len() as int);
            &&& progress.stages.len() == 2
            &&& progress.stages[0] == StageData::Decoder(records(frame, detections))
            &&& progress.stages[1] == if frame.is_blank() {
                StageData::Converter(None)
            } else {
                StageData::Converter(Some(shown(marked)))
            }
            &&& progress.failed == if frame.is_blank() {
                Some(1int)
            } else {
                None
            }
            &&& progress.failed is None ==> progress.frame == marked
        }),
{
    reveal_with_fuel(passed, 3);
    lemma_annotated_keeps_size(frame, detections, detections.len() as int);
    assert(Seq::<QRCodeData>::empty() + records(frame, detections) =~= records(frame, detections));
}

/// Taking the image and the records out of the worker's stages gives what
/// they kept and leaves them with nothing.
pub proof fn lemma_taking_out(stages: Seq<StageData>)
    requires
        stages.len() == 2,
        stages[0] is Decoder,
        stages[1] is Converter,
    ensures
        latest_image(stages) == stages[1]->Converter_0,
        waiting_codes(without_images(stages)) == stages[0]->Decoder_0,
        without_codes(without_images(stages)) == idle_stages(),
{
    reveal_with_fuel(latest_image, 3);
    reveal_with_fuel(waiting_codes, 3);
    let taken = without_images(stages);
    assert(taken.drop_last().drop_last() =~= Seq::<StageData>::empty());
    assert(stages.drop_last().drop_last() =~= Seq::<StageData>::empty());
    assert(waiting_codes(taken) =~= stages[0]->Decoder_0);
    assert(without_codes(taken) =~= idle_stages());
}

/// A frame in which no code was found gives no record to forward, and
/// still gives its image to display, unless it has no pixels: the image is
/// that of the frame as it was captured.
pub proof fn lemma_no_detection_no_record(
    source: SourceType,
    frame: FrameData,
    source_requests: Seq<SourceType>,
    focus_requests: Seq<u8>,
)
    requires
        !frame.is_blank(),
    ensures
        iteration(
            source,
            Some(frame),
            Seq::empty(),
            source_requests,
            focus_requests,
        ).1.qr_codes.len() == 0,
        iteration(source, Some(frame), Seq::empty(), source_requests, focus_requests).1.image
            == Some(shown(frame)),
{
}

/// Whatever happens to the frame, a request for a source is followed: the
/// next frame is drawn from the source that was asked for last.
pub proof fn lemma_source_follows_request(
    source: SourceType,
    captured: Option<FrameData>,
    detections: Seq<DetectionData>,
    source_requests: Seq<SourceType>,
    focus_requests: Seq<u8>,
)
    requires
        source_requests.len() > 0,
    ensures
        iteration(source, captured, detections, source_requests, focus_requests).0
            == source_requests.last(),
{
}

/// The marks are in the image that is displayed: a pixel of the frame on
/// the outline of the code marked last has the colour of the marks there.
pub proof fn lemma_marks_are_displayed(
    source: SourceType,
    frame: FrameData,
    detections: Seq<DetectionData>,
    x: int,
    y: int,
)
    requires
        frame.is_rectangular(),
        detections.len() > 0,
        0 <= y < frame.rows.len(),
        0 <= x < frame.cols,
        detections.last().rect.on_outline(x, y),
    ensures
        iteration(source, Some(frame), detections, Seq::empty(), Seq::empty()).1.image is Some,
        iteration(
            source,
            Some(frame),
            detections,
            Seq::empty(),
            Seq::empty(),
        ).1.image->0.pixels[y * frame.cols + x] == (
            mark_color().r,
            mark_color().g,
            mark_color().b,
            255u8,
        ),
{
    let marked = annotated(frame, detections, detections.len() as int);
    lemma_annotated_keeps_size(frame, detections, detections.len() as int);
    lemma_last_mark_is_visible(frame, detections, x, y);
    let k = y * frame.cols + x;
    let c = frame.cols as int;
    assert(0 <= k < frame.cols * frame.rows.len()) by (nonlinear_arith)
        requires
            k == y * frame.cols + x,
            0 <= y < frame.rows.len(),
            0 <= x < frame.cols,
    ;
    vstd::arithmetic::div_mod::lemma_fundamental_div_mod_converse(k, c, y, x);
}

} // verus!
