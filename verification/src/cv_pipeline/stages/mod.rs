//! The stages of the pipeline.

pub mod egui_dispatcher_stage;
pub mod wechat_qr_detect_stage;
