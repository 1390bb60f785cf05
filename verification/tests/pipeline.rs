use egui::Color32;
use invoice_scanner::constants::SourceType;
use invoice_scanner::cv_pipeline::manager::{CVPipelineManager, PipelineError};
use invoice_scanner::cv_pipeline::stages::egui_dispatcher_stage::{
    BGRConvertToEguiStage, StageFailure,
};
use invoice_scanner::cv_pipeline::stages::wechat_qr_detect_stage::{
    Detection, WeChatQRCodeDecoderStage,
};
use invoice_scanner::cv_pipeline::Stage;
use invoice_scanner::cv_worker::CVWorker;
use invoice_scanner::frame::{Bgr, Frame, Rect};

const BLACK: Bgr = Bgr { b: 0, g: 0, r: 0 };
const GREEN: Bgr = Bgr { b: 0, g: 255, r: 0 };

fn detection(payload: &str, x: i32, y: i32, width: i32, height: i32) -> Detection {
    Detection { payload: payload.to_string(), rect: Rect { x, y, width, height } }
}

fn blue_frame() -> Frame {
    Frame::new(4, 3, Bgr { b: 200, g: 10, r: 20 })
}

#[test]
fn converter_keeps_the_last_frame_as_image() {
    let mut stage = BGRConvertToEguiStage::new();
    assert!(stage.pop_last_image().is_none());
    let mut frame = Frame::from_bgr(2, 1, &[1, 2, 3, 4, 5, 6]).unwrap();
    assert_eq!(stage.process(&mut frame), Ok(()));
    let mut other = blue_frame();
    assert_eq!(stage.process(&mut other), Ok(()));
    let image = stage.pop_last_image().unwrap();
    assert_eq!(image.size, [4, 3]);
    assert_eq!(image.pixels.len(), 12);
    assert!(image.pixels.iter().all(|p| *p == Color32::from_rgb(20, 10, 200)));
    assert!(stage.pop_last_image().is_none());
}

#[test]
fn image_has_red_first_and_is_opaque() {
    let frame = Frame::from_bgr(2, 1, &[1, 2, 3, 4, 5, 6]).unwrap();
    let image = BGRConvertToEguiStage::convert(&frame);
    assert_eq!(image.size, [2, 1]);
    assert_eq!(image.pixels, vec![Color32::from_rgb(3, 2, 1), Color32::from_rgb(6, 5, 4)]);
    assert_eq!(image.pixels[0].a(), 255);
}

#[test]
fn frame_without_pixels_cannot_be_shown() {
    let mut stage = BGRConvertToEguiStage::new();
    let mut shown = blue_frame();
    stage.process(&mut shown).unwrap();
    let mut empty = Frame::new(0, 0, BLACK);
    assert_eq!(stage.process(&mut empty), Err(StageFailure));
    assert_eq!(stage.pop_last_image().unwrap().size, [4, 3]);
}

#[test]
fn decoder_marks_and_records_each_code() {
    let mut stage = WeChatQRCodeDecoderStage::new();
    let mut frame = Frame::new(6, 6, BLACK);
    let found = vec![detection("first", 0, 0, 2, 2), detection("second", 3, 3, 3, 3)];
    stage.process(&mut frame, &found);
    assert_eq!(frame.pixel(0, 0), Some(GREEN));
    assert_eq!(frame.pixel(5, 5), Some(GREEN));
    assert_eq!(frame.pixel(4, 4), Some(BLACK));
    let records = stage.pop_last_qrs().unwrap();
    assert_eq!(records.len(), 2);
    assert_eq!(records[0].get_data(), "first");
    assert_eq!(records[0].get_rect(), &found[0].rect);
    assert_eq!(records[0].get_image().pixel(0, 0), Some(GREEN));
    assert_eq!(records[0].get_image().pixel(5, 5), Some(BLACK));
    assert_eq!(records[1].get_data(), "second");
    assert_eq!(records[1].get_image(), &frame);
    assert!(stage.pop_last_qrs().is_none());
}

#[test]
fn records_wait_until_they_are_taken() {
    let mut stage = WeChatQRCodeDecoderStage::new();
    let mut frame = Frame::new(4, 4, BLACK);
    stage.process(&mut frame, &vec![detection("one", 0, 0, 1, 1)]);
    stage.process(&mut frame, &vec![]);
    stage.process(&mut frame, &vec![detection("two", 1, 1, 1, 1)]);
    let records = stage.pop_last_qrs().unwrap();
    let texts: Vec<&str> = records.iter().map(|r| r.get_data().as_str()).collect();
    assert_eq!(texts, vec!["one", "two"]);
}

#[test]
fn frame_without_codes_stays_as_it_is() {
    let mut stage = WeChatQRCodeDecoderStage::new();
    let mut frame = blue_frame();
    stage.process(&mut frame, &vec![]);
    assert_eq!(frame, blue_frame());
    assert!(stage.pop_last_qrs().is_none());
}

#[test]
fn stages_have_names() {
    assert_eq!(WeChatQRCodeDecoderStage::new().get_name(), "WeChatQRCodeDecoderStage");
    assert_eq!(BGRConvertToEguiStage::new().get_name(), "ConvertToEguiStage");
    assert_eq!(
        Stage::Decoder(WeChatQRCodeDecoderStage::new()).get_name(),
        "WeChatQRCodeDecoderStage"
    );
    assert_eq!(Stage::Converter(BGRConvertToEguiStage::new()).get_name(), "ConvertToEguiStage");
}

#[test]
fn pipeline_without_source_does_not_run() {
    let mut pipeline = CVPipelineManager::new();
    pipeline.add_stage(Stage::Converter(BGRConvertToEguiStage::new()));
    assert_eq!(pipeline.source(), None);
    assert_eq!(
        pipeline.process(Some(Box::new(blue_frame())), &vec![]),
        Err(PipelineError::NoSource)
    );
    assert!(pipeline.pop_last_image().is_none());
}

#[test]
fn pipeline_without_frame_reports_the_source() {
    let mut pipeline = CVPipelineManager::new();
    pipeline.set_source(SourceType::Display);
    assert_eq!(pipeline.source(), Some(SourceType::Display));
    assert_eq!(pipeline.process(None, &vec![]), Err(PipelineError::SourceUnavailable));
}

#[test]
fn stages_run_in_their_order() {
    let found = vec![detection("code", 0, 0, 2, 2)];

    let mut marks_first = CVPipelineManager::new();
    marks_first.set_source(SourceType::Camera);
    marks_first.add_stage(Stage::Decoder(WeChatQRCodeDecoderStage::new()));
    marks_first.add_stage(Stage::Converter(BGRConvertToEguiStage::new()));
    let out = marks_first.process(Some(Box::new(blue_frame())), &found).unwrap();
    assert_eq!(out.pixel(0, 0), Some(GREEN));
    let image = marks_first.pop_last_image().unwrap();
    assert_eq!(image.pixels[0], Color32::from_rgb(0, 255, 0));

    let mut shows_first = CVPipelineManager::new();
    shows_first.set_source(SourceType::Camera);
    shows_first.add_stage(Stage::Converter(BGRConvertToEguiStage::new()));
    shows_first.add_stage(Stage::Decoder(WeChatQRCodeDecoderStage::new()));
    let out = shows_first.process(Some(Box::new(blue_frame())), &found).unwrap();
    assert_eq!(out.pixel(0, 0), Some(GREEN));
    let image = shows_first.pop_last_image().unwrap();
    assert_eq!(image.pixels[0], Color32::from_rgb(20, 10, 200));
    assert_eq!(shows_first.pop_last_qrs().len(), 1);
}

#[test]
fn failing_stage_stops_the_pass_and_is_named() {
    let mut pipeline = CVPipelineManager::new();
    pipeline.set_source(SourceType::Camera);
    pipeline.add_stage(Stage::Decoder(WeChatQRCodeDecoderStage::new()));
    pipeline.add_stage(Stage::Converter(BGRConvertToEguiStage::new()));
    pipeline.add_stage(Stage::Decoder(WeChatQRCodeDecoderStage::new()));
    let found = vec![detection("code", 0, 0, 1, 1)];
    let mut empty = Frame::new(0, 0, BLACK);
    assert_eq!(
        pipeline.process_image(&mut empty, &found),
        Err(PipelineError::StageProcessingFailure { stage: 1 })
    );
    assert!(pipeline.pop_last_image().is_none());
    assert_eq!(pipeline.pop_last_qrs().len(), 1);
}

#[test]
fn empty_pipeline_hands_the_frame_back() {
    let mut pipeline = CVPipelineManager::new();
    pipeline.set_source(SourceType::Camera);
    let out = pipeline.process(Some(Box::new(blue_frame())), &vec![]).unwrap();
    assert_eq!(*out, blue_frame());
    assert!(pipeline.pop_last_qrs().is_empty());
}

#[test]
fn worker_starts_with_the_camera() {
    let worker = CVWorker::create_pipeline();
    assert_eq!(worker.next_source(), SourceType::Camera);
}

#[test]
fn frame_without_codes_gives_an_image_and_no_record() {
    let mut worker = CVWorker::create_pipeline();
    let output = worker.run_once(Some(Box::new(blue_frame())), &vec![], &vec![], &vec![]);
    assert_eq!(output.outcome, Ok(()));
    assert!(output.qr_codes.is_empty());
    let image = output.image.unwrap();
    assert_eq!(image.size, [4, 3]);
    assert!(image.pixels.iter().all(|p| *p == Color32::from_rgb(20, 10, 200)));
    assert_eq!(output.focus, None);
}

#[test]
fn codes_are_forwarded_in_the_order_of_detection() {
    let mut worker = CVWorker::create_pipeline();
    let found = vec![detection("a", 0, 0, 1, 1), detection("b", 1, 1, 1, 1), detection("c", 2, 2, 1, 1)];
    let output = worker.run_once(Some(Box::new(blue_frame())), &found, &vec![], &vec![]);
    let texts: Vec<&str> = output.qr_codes.iter().map(|r| r.get_data().as_str()).collect();
    assert_eq!(texts, vec!["a", "b", "c"]);
    let image = output.image.unwrap();
    assert_eq!(image.pixels[0], Color32::from_rgb(0, 255, 0));
    assert_eq!(image.pixels[4 + 1], Color32::from_rgb(0, 255, 0));
    assert_eq!(image.pixels[1], Color32::from_rgb(20, 10, 200));
    let next = worker.run_once(Some(Box::new(blue_frame())), &vec![], &vec![], &vec![]);
    assert!(next.qr_codes.is_empty());
}

#[test]
fn source_is_swapped_to_the_last_request() {
    let mut worker = CVWorker::create_pipeline();
    let output = worker.run_once(
        Some(Box::new(blue_frame())),
        &vec![],
        &vec![SourceType::Display],
        &vec![],
    );
    assert_eq!(output.outcome, Ok(()));
    assert_eq!(worker.next_source(), SourceType::Display);
    worker.run_once(None, &vec![], &vec![], &vec![]);
    assert_eq!(worker.next_source(), SourceType::Display);
    worker.run_once(None, &vec![], &vec![SourceType::Display, SourceType::Camera], &vec![]);
    assert_eq!(worker.next_source(), SourceType::Camera);
}

#[test]
fn focus_is_the_last_that_was_asked_for() {
    let mut worker = CVWorker::create_pipeline();
    let output = worker.run_once(None, &vec![], &vec![], &vec![10, 200, 30]);
    assert_eq!(output.focus, Some(30));
    assert_eq!(CVWorker::handle_change_focus(&vec![]), None);
    assert_eq!(CVWorker::handle_change_focus(&vec![0, 255]), Some(255));
}

#[test]
fn failed_capture_drops_the_frame_and_the_worker_goes_on() {
    let mut worker = CVWorker::create_pipeline();
    let output = worker.run_once(None, &vec![], &vec![], &vec![]);
    assert_eq!(output.outcome, Err(PipelineError::SourceUnavailable));
    assert!(output.image.is_none());
    assert!(output.qr_codes.is_empty());
    let output = worker.run_once(Some(Box::new(blue_frame())), &vec![], &vec![], &vec![]);
    assert_eq!(output.outcome, Ok(()));
    assert!(output.image.is_some());
}

#[test]
fn frame_without_pixels_fails_at_the_converter() {
    let mut worker = CVWorker::create_pipeline();
    let found = vec![detection("a", 0, 0, 1, 1)];
    let output = worker.run_once(Some(Box::new(Frame::new(0, 0, BLACK))), &found, &vec![], &vec![]);
    assert_eq!(output.outcome, Err(PipelineError::StageProcessingFailure { stage: 1 }));
    assert!(output.image.is_none());
    assert_eq!(output.qr_codes.len(), 1);
    let output = worker.run_once(Some(Box::new(blue_frame())), &vec![], &vec![], &vec![]);
    assert!(output.qr_codes.is_empty());
    assert_eq!(output.image.unwrap().size, [4, 3]);
}

#[test]
fn requests_are_applied_to_a_pipeline() {
    let mut pipeline = CVPipelineManager::new();
    CVWorker::handle_change_source(&mut pipeline, &vec![]);
    assert_eq!(pipeline.source(), None);
    CVWorker::handle_change_source(&mut pipeline, &vec![SourceType::Camera, SourceType::Display]);
    assert_eq!(pipeline.source(), Some(SourceType::Display));
    pipeline.add_stage(Stage::Decoder(WeChatQRCodeDecoderStage::new()));
    pipeline.add_stage(Stage::Converter(BGRConvertToEguiStage::new()));
    pipeline.process(Some(Box::new(blue_frame())), &vec![detection("x", 0, 0, 1, 1)]).unwrap();
    assert_eq!(CVWorker::handle_new_image(&mut pipeline).unwrap().size, [4, 3]);
    assert!(CVWorker::handle_new_image(&mut pipeline).is_none());
    assert_eq!(CVWorker::handle_new_qr(&mut pipeline).len(), 1);
    assert!(CVWorker::handle_new_qr(&mut pipeline).is_empty());
}

#[test]
fn channels_are_handled_in_one_go() {
    let mut pipeline = CVPipelineManager::new();
    pipeline.set_source(SourceType::Camera);
    pipeline.add_stage(Stage::Decoder(WeChatQRCodeDecoderStage::new()));
    pipeline.add_stage(Stage::Converter(BGRConvertToEguiStage::new()));
    pipeline.process(Some(Box::new(blue_frame())), &vec![detection("x", 0, 0, 1, 1)]).unwrap();
    let (image, codes, focus) =
        CVWorker::handle_channels(&mut pipeline, &vec![SourceType::Display], &vec![7, 9]);
    assert_eq!(image.unwrap().size, [4, 3]);
    assert_eq!(codes.len(), 1);
    assert_eq!(focus, Some(9));
    assert_eq!(pipeline.source(), Some(SourceType::Display));
    let (image, codes, focus) = CVWorker::handle_channels(&mut pipeline, &vec![], &vec![]);
    assert!(image.is_none());
    assert!(codes.is_empty());
    assert_eq!(focus, None);
    assert_eq!(pipeline.source(), Some(SourceType::Display));
}

#[test]
fn image_of_a_frame_without_pixels_is_empty() {
    let image = BGRConvertToEguiStage::convert(&Frame::new(0, 0, BLACK));
    assert_eq!(image.size, [0, 0]);
    assert!(image.pixels.is_empty());
    let image = BGRConvertToEguiStage::convert(&Frame::new(3, 0, BLACK));
    assert_eq!(image.size, [3, 0]);
    assert!(image.pixels.is_empty());
}

#[test]
fn sources_have_names() {
    assert_eq!(SourceType::Camera.get_name(), "CameraSource");
    assert_eq!(SourceType::Display.get_name(), "DisplaySource");
}
