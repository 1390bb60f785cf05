use invoice_scanner::frame::{Bgr, Frame, Rect};
use invoice_scanner::qr_code::{QRCode, RegionOutsideImage};

const BLACK: Bgr = Bgr { b: 0, g: 0, r: 0 };
const GREEN: Bgr = Bgr { b: 0, g: 255, r: 0 };

fn painted(frame: &Frame) -> Vec<(usize, usize)> {
    let mut found = Vec::new();
    for y in 0..frame.height() {
        for x in 0..frame.width() {
            if frame.pixel(x, y) == Some(GREEN) {
                found.push((x, y));
            }
        }
    }
    found
}

#[test]
fn new_frame_is_filled() {
    let frame = Frame::new(3, 2, Bgr { b: 1, g: 2, r: 3 });
    assert_eq!(frame.width(), 3);
    assert_eq!(frame.height(), 2);
    assert!(!frame.is_empty());
    assert_eq!(frame.pixel(2, 1), Some(Bgr { b: 1, g: 2, r: 3 }));
    assert_eq!(frame.pixel(3, 1), None);
    assert_eq!(frame.pixel(0, 2), None);
    assert!(Frame::new(0, 4, BLACK).is_empty());
    assert!(Frame::new(4, 0, BLACK).is_empty());
}

#[test]
fn packed_bytes_are_read_row_after_row() {
    let data: Vec<u8> = (0u8..12).collect();
    let frame = Frame::from_bgr(2, 2, &data).unwrap();
    assert_eq!(frame.pixel(0, 0), Some(Bgr { b: 0, g: 1, r: 2 }));
    assert_eq!(frame.pixel(1, 0), Some(Bgr { b: 3, g: 4, r: 5 }));
    assert_eq!(frame.pixel(0, 1), Some(Bgr { b: 6, g: 7, r: 8 }));
    assert_eq!(frame.pixel(1, 1), Some(Bgr { b: 9, g: 10, r: 11 }));
}

#[test]
fn buffer_of_the_wrong_length_gives_no_frame() {
    let data = vec![0u8; 11];
    assert_eq!(Frame::from_bgr(2, 2, &data), None);
    assert_eq!(Frame::from_bgra(2, 2, &data), None);
    assert_eq!(Frame::from_packed(2, 2, &[0u8; 8], 2), None);
    assert_eq!(Frame::from_bgr(usize::MAX, 2, &data), None);
    assert_eq!(Frame::from_bgr(usize::MAX / 2, 3, &data), None);
    assert!(Frame::from_bgr(0, 0, &[]).is_some());
}

#[test]
fn screen_capture_loses_its_alpha() {
    let data: Vec<u8> = vec![10, 20, 30, 255, 40, 50, 60, 0];
    let frame = Frame::from_bgra(2, 1, &data).unwrap();
    assert_eq!(frame.pixel(0, 0), Some(Bgr { b: 10, g: 20, r: 30 }));
    assert_eq!(frame.pixel(1, 0), Some(Bgr { b: 40, g: 50, r: 60 }));
}

#[test]
fn display_layout_swaps_red_and_blue() {
    let data: Vec<u8> = vec![10, 20, 30, 40, 50, 60];
    let frame = Frame::from_bgr(1, 2, &data).unwrap();
    assert_eq!(frame.to_rgba(), vec![30, 20, 10, 255, 60, 50, 40, 255]);
    assert_eq!(Frame::new(0, 0, BLACK).to_rgba(), Vec::<u8>::new());
}

#[test]
fn outline_is_one_pixel_wide() {
    let mut frame = Frame::new(5, 5, BLACK);
    frame.draw_rectangle(Rect { x: 1, y: 1, width: 3, height: 3 }, GREEN);
    assert_eq!(
        painted(&frame),
        vec![(1, 1), (2, 1), (3, 1), (1, 2), (3, 2), (1, 3), (2, 3), (3, 3)]
    );
    assert_eq!(frame.pixel(2, 2), Some(BLACK));
}

#[test]
fn outline_is_cut_at_the_border() {
    let mut frame = Frame::new(3, 3, BLACK);
    frame.draw_rectangle(Rect { x: -1, y: 1, width: 3, height: 5 }, GREEN);
    assert_eq!(painted(&frame), vec![(0, 1), (1, 1), (1, 2)]);
}

#[test]
fn rectangle_without_extent_draws_nothing() {
    let mut frame = Frame::new(3, 3, BLACK);
    frame.draw_rectangle(Rect { x: 1, y: 1, width: 0, height: 2 }, GREEN);
    frame.draw_rectangle(Rect { x: 1, y: 1, width: 2, height: -1 }, GREEN);
    frame.draw_rectangle(Rect { x: i32::MAX, y: i32::MAX, width: i32::MAX, height: i32::MAX }, GREEN);
    assert_eq!(painted(&frame), vec![]);
}

#[test]
fn single_pixel_rectangle_is_its_own_outline() {
    let mut frame = Frame::new(3, 3, BLACK);
    frame.draw_rectangle(Rect { x: 2, y: 0, width: 1, height: 1 }, GREEN);
    assert_eq!(painted(&frame), vec![(2, 0)]);
}

#[test]
fn region_is_cut_out() {
    let data: Vec<u8> = (0u8..27).collect();
    let frame = Frame::from_bgr(3, 3, &data).unwrap();
    let part = frame.roi(Rect { x: 1, y: 1, width: 2, height: 1 }).unwrap();
    assert_eq!(part.width(), 2);
    assert_eq!(part.height(), 1);
    assert_eq!(part.pixel(0, 0), frame.pixel(1, 1));
    assert_eq!(part.pixel(1, 0), frame.pixel(2, 1));
    assert_eq!(frame.roi(Rect { x: 0, y: 0, width: 3, height: 3 }), Some(frame.clone()));
    assert!(frame.roi(Rect { x: 3, y: 3, width: 0, height: 0 }).unwrap().is_empty());
}

#[test]
fn region_outside_the_frame_is_refused() {
    let frame = Frame::new(3, 3, BLACK);
    assert_eq!(frame.roi(Rect { x: 2, y: 0, width: 2, height: 1 }), None);
    assert_eq!(frame.roi(Rect { x: 0, y: 2, width: 1, height: 2 }), None);
    assert_eq!(frame.roi(Rect { x: -1, y: 0, width: 1, height: 1 }), None);
    assert_eq!(frame.roi(Rect { x: 0, y: 0, width: -1, height: 1 }), None);
    assert_eq!(frame.roi(Rect { x: i32::MAX, y: 0, width: i32::MAX, height: 1 }), None);
}

#[test]
fn copy_has_the_same_pixels() {
    let data: Vec<u8> = (0u8..12).collect();
    let frame = Frame::from_bgr(2, 2, &data).unwrap();
    let mut copy = frame.clone();
    assert_eq!(copy, frame);
    copy.draw_rectangle(Rect { x: 0, y: 0, width: 1, height: 1 }, GREEN);
    assert_ne!(copy, frame);
}

#[test]
fn record_gives_what_it_was_made_of() {
    let data: Vec<u8> = (0u8..27).collect();
    let frame = Frame::from_bgr(3, 3, &data).unwrap();
    let rect = Rect { x: 1, y: 0, width: 2, height: 2 };
    let code = QRCode::new(frame.clone(), "A:1".to_string(), rect);
    assert_eq!(code.get_image(), &frame);
    assert_eq!(code.get_data(), "A:1");
    assert_eq!(code.get_rect(), &rect);
    assert_eq!(code.get_qr_code_only(), Ok(frame.roi(rect).unwrap()));
    assert_eq!(code.clone(), code);
}

#[test]
fn record_with_region_outside_its_image_has_no_crop() {
    let frame = Frame::new(3, 3, BLACK);
    let code = QRCode::new(frame, "A:1".to_string(), Rect { x: 2, y: 2, width: 2, height: 2 });
    assert_eq!(code.get_qr_code_only(), Err(RegionOutsideImage));
}
