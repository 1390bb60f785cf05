//! The pipeline: one source of frames and the stages in their order.

use egui::ColorImage;
use vstd::prelude::*;
use crate::constants::SourceType;
use crate::cv_pipeline::stages::egui_dispatcher_stage::{image_data, ImageData};
use crate::cv_pipeline::stages::wechat_qr_detect_stage::{
    codes_view, detections_view, Detection, DetectionData,
};
use crate::cv_pipeline::{stage_pass, Stage, StageData};
use crate::frame::{Frame, FrameData};
use crate::qr_code::{QRCode, QRCodeData};

verus! {

/// Why a frame did not get through the pipeline.
#[derive(Clone, Copy, Debug, PartialEq, Eq, Structural)]
pub enum PipelineError {
    /// No source has been set.
    NoSource,
    /// The source gave no frame.
    SourceUnavailable,
    /// The stage at this position failed.
    StageProcessingFailure { stage: usize },
}

/// What a pipeline holds: the source it draws from, if one was set, and
/// its stages in their order.
pub struct PipelineData {
    pub source: Option<SourceType>,
    pub stages: Seq<StageData>,
}

/// How far a frame has got on its way through the stages.
pub struct Progress {
    pub stages: Seq<StageData>,
    pub frame: FrameData,
    pub failed: Option<int>,
}

/// What `stages` hold.
pub open spec fn stages_view(stages: Seq<Stage>) -> Seq<StageData> {
    stages.map_values(|stage: Stage| stage@)
}

/// The stages and the frame after the frame has passed the first `count`
/// stages in their order, or has been stopped by the first that failed.
pub open spec fn passed(
    stages: Seq<StageData>,
    frame: FrameData,
    detections: Seq<DetectionData>,
    count: int,
) -> Progress
    decreases count,
{
    if count <= 0 {
        Progress { stages, frame, failed: None }
    } else {
        let before = passed(stages, frame, detections, count - 1);
        if before.failed is Some {
            before
        } else {
            let pass = stage_pass(before.stages[count - 1], before.frame, detections);
            if pass.done {
                Progress {
                    stages: before.stages.update(count - 1, pass.stage),
                    frame: pass.frame,
                    failed: None,
                }
            } else {
                Progress { stages: before.stages, frame: before.frame, failed: Some(count - 1) }
            }
        }
    }
}

/// The image that the last converter among `stages` with an image keeps.
pub open spec fn latest_image(stages: Seq<StageData>) -> Option<ImageData>
    decreases stages.len(),
{
    if stages.len() == 0 {
        None
    } else {
        match stages.last() {
            StageData::Converter(Some(image)) => Some(image),
            _ => latest_image(stages.drop_last()),
        }
    }
}

/// The records that the decoders among `stages` keep, in the order of the
/// stages.
pub open spec fn waiting_codes(stages: Seq<StageData>) -> Seq<QRCodeData>
    decreases stages.len(),
{
    if stages.len() == 0 {
        Seq::empty()
    } else {
        waiting_codes(stages.drop_last()) + match stages.last() {
            StageData::Decoder(codes) => codes,
            _ => Seq::empty(),
        }
    }
}

/// `stages` once the images of the converters are taken.
pub open spec fn without_images(stages: Seq<StageData>) -> Seq<StageData> {
    stages.map_values(
        |stage: StageData|
            match stage {
                StageData::Converter(_) => StageData::Converter(None),
                _ => stage,
            },
    )
}

/// `stages` once the records of the decoders are taken.
pub open spec fn without_codes(stages: Seq<StageData>) -> Seq<StageData> {
    stages.map_values(
        |stage: StageData|
            match stage {
                StageData::Decoder(_) => StageData::Decoder(Seq::empty()),
                _ => stage,
            },
    )
}

/// One source of frames and an ordered list of stages.
pub struct CVPipelineManager {
    start_stage: Option<SourceType>,
    stages: Vec<Stage>,
}

impl View for CVPipelineManager {
    type V = PipelineData;

    closed spec fn view(&self) -> PipelineData {
        PipelineData { source: self.start_stage, stages: stages_view(self.stages@) }
    }
}

impl CVPipelineManager {
    /// A pipeline without a source and without stages.
    pub fn new() -> (pipeline: Self)
        ensures
            pipeline@ == (PipelineData { source: None, stages: Seq::empty() }),
    {
        let pipeline = Self { stages: Vec::new(), start_stage: None };
        assert(pipeline@.stages =~= Seq::<StageData>::empty());
        pipeline
    }

    /// Makes `source` the source of the pipeline, in place of the one it
    /// had.
    pub fn set_source(&mut self, source: SourceType)
        ensures
            final(self)@ == (PipelineData { source: Some(source), stages: old(self)@.stages }),
    {
        self.start_stage = Some(source);
    }

    /// The source that the pipeline draws from, if one was set.
    pub fn source(&self) -> (source: Option<SourceType>)
        ensures
            source == self@.source,
    {
        self.start_stage
    }

    /// Adds `stage` behind the stages that the pipeline has.
    pub fn add_stage(&mut self, stage: Stage)
        ensures
            final(self)@ == (PipelineData {
                source: old(self)@.source,
                stages: old(self)@.stages.push(stage@),
            }),
    {
        let ghost before = self.stages@;
        self.stages.push(stage);
        assert(stages_view(self.stages@) =~= stages_view(before).push(stage@));
    }

    /// Runs one pass on what the source gave: the frame goes through the
    /// stages in their order and is handed back as they left it. Without a
    /// source there is no pass, nor where the source gave no frame; a stage
    /// that fails stops the pass.
    pub fn process(&mut self, captured: Option<Box<Frame>>, detections: &Vec<Detection>) -> (frame:
        Result<Box<Frame>, PipelineError>)
        ensures
            final(self)@.source == old(self)@.source,
            old(self)@.source is None ==> frame == Err::<Box<Frame>, PipelineError>(
                PipelineError::NoSource,
            ) && final(self)@ == old(self)@,
            old(self)@.source is Some && captured is None ==> frame == Err::<
                Box<Frame>,
                PipelineError,
            >(PipelineError::SourceUnavailable) && final(self)@ == old(self)@,
            old(self)@.source is Some && captured is Some ==> {
                let progress = passed(
                    old(self)@.stages,
                    captured->0@,
                    detections_view(detections@),
                    old(self)@.stages.len() as int,
                );
                &&& final(self)@.stages == progress.stages
                &&& match frame {
                    Ok(out) => progress.failed is None && out@ == progress.frame,
                    Err(error) => progress.failed is Some && error
                        == PipelineError::StageProcessingFailure {
                        stage: progress.failed->0 as usize,
                    },
                }
            },
    {
        if self.start_stage.is_none() {
            return Err(PipelineError::NoSource);
        }
        let mut frame: Box<Frame> = match captured {
            Some(frame) => frame,
            None => {
                return Err(PipelineError::SourceUnavailable);
            },
        };
        match self.process_image(&mut *frame, detections) {
            Ok(()) => Ok(frame),
            Err(error) => Err(error),
        }
    }

    /// Lets `input` pass the stages in their order; the first stage that
    /// fails stops the pass and is named in the error.
    pub fn process_image(&mut self, input: &mut Frame, detections: &Vec<Detection>) -> (done:
        Result<(), PipelineError>)
        ensures
            final(self)@.source == old(self)@.source,
            ({
                let progress = passed(
                    old(self)@.stages,
                    old(input)@,
                    detections_view(detections@),
                    old(self)@.stages.len() as int,
                );
                &&& final(self)@.stages == progress.stages
                &&& final(input)@ == progress.frame
                &&& match done {
                    Ok(_) => progress.failed is None,
                    Err(error) => progress.failed is Some && error
                        == PipelineError::StageProcessingFailure {
                        stage: progress.failed->0 as usize,
                    },
                }
            }),
    {
        let ghost start = self@.stages;
        let ghost first = input@;
        let ghost found = detections_view(detections@);
        let n: usize = self.stages.len();
        let mut i: usize = 0;
        while i < n
            invariant
                n == start.len(),
                i <= n,
                start == old(self)@.stages,
                first == old(input)@,
                found == detections_view(detections@),
                self.start_stage == old(self).start_stage,
                stages_view(self.stages@) == passed(start, first, found, i as int).stages,
                stages_view(self.stages@).len() == n,
                input@ == passed(start, first, found, i as int).frame,
                passed(start, first, found, i as int).failed is None,
            decreases n - i,
        {
            let ghost before = self.stages@;
            let ghost frame_before = input@;
            let done = self.stages[i].process(input, detections);
            proof {
                let pass = stage_pass(stages_view(before)[i as int], frame_before, found);
                assert(stages_view(before)[i as int] == before[i as int]@);
                assert(pass.stage == self.stages@[i as int]@);
                assert(pass.frame == input@);
                assert(pass.done == (done is Ok));
                assert(stages_view(self.stages@) =~= stages_view(before).update(
                    i as int,
                    self.stages@[i as int]@,
                ));
            }
            if done.is_err() {
                proof {
                    assert(stages_view(self.stages@) =~= stages_view(before));
                    assert(passed(start, first, found, i as int + 1).failed == Some(i as int));
                    lemma_failure_stops_the_pass(start, first, found, i as int + 1, n as int);
                }
                return Err(PipelineError::StageProcessingFailure { stage: i });
            }
            i = i + 1;
        }
        Ok(())
    }

    /// Takes the image that the last converter with an image keeps; the
    /// converters then keep none.
    pub fn pop_last_image(&mut self) -> (image: Option<Box<ColorImage>>)
        ensures
            final(self)@ == (PipelineData {
                source: old(self)@.source,
                stages: without_images(old(self)@.stages),
            }),
            match image {
                Some(taken) => latest_image(old(self)@.stages) == Some(image_data(*taken)),
                None => latest_image(old(self)@.stages) is None,
            },
    {
        let ghost start = self@.stages;
        let n: usize = self.stages.len();
        let mut latest: Option<Box<ColorImage>> = None;
        let mut i: usize = 0;
        while i < n
            invariant
                n == start.len(),
                i <= n,
                self.start_stage == old(self).start_stage,
                stages_view(self.stages@).len() == n,
                forall|k: int|
                    0 <= k < n ==> #[trigger] stages_view(self.stages@)[k] == if k < i {
                        without_images(start)[k]
                    } else {
                        start[k]
                    },
                match latest {
                    Some(taken) => latest_image(start.take(i as int)) == Some(image_data(*taken)),
                    None => latest_image(start.take(i as int)) is None,
                },
            decreases n - i,
        {
            let ghost before = self.stages@;
            proof {
                assert(start.take(i as int + 1).drop_last() =~= start.take(i as int));
                assert(stages_view(before)[i as int] == before[i as int]@);
            }
            match &mut self.stages[i] {
                Stage::Converter(stage) => {
                    match stage.pop_last_image() {
                        Some(image) => {
                            latest = Some(image);
                        },
                        None => {},
                    }
                },
                Stage::Decoder(_) => {},
            }
            proof {
                assert forall|k: int| 0 <= k < n implies #[trigger] stages_view(self.stages@)[k]
                    == if k < i + 1 {
                    without_images(start)[k]
                } else {
                    start[k]
                } by {
                    assert(stages_view(self.stages@)[k] == self.stages@[k]@);
                    assert(stages_view(before)[k] == before[k]@);
                }
            }
            i = i + 1;
        }
        proof {
            assert(start.take(n as int) =~= start);
            assert(stages_view(self.stages@) =~= without_images(start));
        }
        latest
    }

    /// Takes the records that the decoders keep, in the order of the
    /// stages; the decoders then keep none.
    pub fn pop_last_qrs(&mut self) -> (codes: Vec<Box<QRCode>>)
        ensures
            final(self)@ == (PipelineData {
                source: old(self)@.source,
                stages: without_codes(old(self)@.stages),
            }),
            codes_view(codes@) == waiting_codes(old(self)@.stages),
    {
        let ghost start = self@.stages;
        let n: usize = self.stages.len();
        let mut codes: Vec<Box<QRCode>> = Vec::new();
        let mut i: usize = 0;
        assert(codes_view(codes@) =~= waiting_codes(start.take(0)));
        while i < n
            invariant
                n == start.len(),
                i <= n,
                self.start_stage == old(self).start_stage,
                stages_view(self.stages@).len() == n,
                forall|k: int|
                    0 <= k < n ==> #[trigger] stages_view(self.stages@)[k] == if k < i {
                        without_codes(start)[k]
                    } else {
                        start[k]
                    },
                codes_view(codes@) == waiting_codes(start.take(i as int)),
            decreases n - i,
        {
            let ghost before = self.stages@;
            let ghost gathered = codes@;
            proof {
                assert(start.take(i as int + 1).drop_last() =~= start.take(i as int));
                assert(stages_view(before)[i as int] == before[i as int]@);
            }
            match &mut self.stages[i] {
                Stage::Decoder(stage) => {
                    match stage.pop_last_qrs() {
                        Some(mut taken) => {
                            let ghost added = taken@;
                            codes.append(&mut taken);
                            proof {
                                assert(codes_view(codes@) =~= codes_view(gathered) + codes_view(
                                    added,
                                ));
                            }
                        },
                        None => {
                            proof {
                                assert(codes_view(codes@) =~= codes_view(gathered)
                                    + Seq::<QRCodeData>::empty());
                            }
                        },
                    }
                },
                Stage::Converter(_) => {
                    proof {
                        assert(codes_view(codes@) =~= codes_view(gathered)
                            + Seq::<QRCodeData>::empty());
                    }
                },
            }
            proof {
                assert forall|k: int| 0 <= k < n implies #[trigger] stages_view(self.stages@)[k]
                    == if k < i + 1 {
                    without_codes(start)[k]
                } else {
                    start[k]
                } by {
                    assert(stages_view(self.stages@)[k] == self.stages@[k]@);
                    assert(stages_view(before)[k] == before[k]@);
                }
            }
            i = i + 1;
        }
        proof {
            assert(start.take(n as int) =~= start);
            assert(stages_view(self.stages@) =~= without_codes(start));
        }
        codes
    }
}

/// Once a stage has failed, the stages behind it change nothing.
pub proof fn lemma_failure_stops_the_pass(
    stages: Seq<StageData>,
    frame: FrameData,
    detections: Seq<DetectionData>,
    count: int,
    later: int,
)
    requires
        passed(stages, frame, detections, count).failed is Some,
        count <= later,
    ensures
        passed(stages, frame, detections, later) == passed(stages, frame, detections, count),
    decreases later - count,
{
    if count < later {
        lemma_failure_stops_the_pass(stages, frame, detections, count, later - 1);
    }
}

} // verus!
