use face_grid::align::{align_face, target_face_box, AlignError};
use face_grid::geom::Rect;
use face_grid::raster::RgbBuffer;

fn solid(width: u32, height: u32, rgb: (u8, u8, u8)) -> RgbBuffer {
    let mut data = Vec::new();
    for _ in 0..width * height {
        data.push(rgb.0);
        data.push(rgb.1);
        data.push(rgb.2);
    }
    RgbBuffer::from_raw(width, height, data).unwrap()
}

fn face(x: i64, y: i64, width: u32, height: u32) -> Rect {
    Rect { x, y, width, height }
}

#[test]
fn target_box_for_default_scale() {
    // The 3:4 box of a 100x100 cell is 75x100; 60% of it is 45x60.
    assert_eq!(target_face_box((100, 100), 100), Some((45, 60)));
    assert_eq!(target_face_box((100, 100), 50), Some((23, 30)));
    assert_eq!(target_face_box((200, 100), 100), Some((45, 60)));
    assert_eq!(target_face_box((u32::MAX, u32::MAX), u32::MAX), None);
}

#[test]
fn align_rescales_and_centres() {
    let image = solid(80, 80, (10, 20, 30));
    let a = align_face(&image, &vec![face(20, 20, 40, 40)], (100, 100), (45, 60)).unwrap();
    // Scale 45 / 40: the image becomes 90x90 and the face centre (40, 40)
    // moves to (45, 45), so the offset is (5, 5).
    assert_eq!((a.pixels.width, a.pixels.height), (90, 90));
    assert_eq!(a.pixels.data.len(), 90 * 90 * 3);
    assert_eq!(a.offset, (5, 5));
}

#[test]
fn align_keeps_size_at_unit_scale() {
    let image = solid(10, 8, (1, 2, 3));
    let a = align_face(&image, &vec![face(0, 0, 4, 4)], (10, 10), (4, 4)).unwrap();
    assert_eq!((a.pixels.width, a.pixels.height), (10, 8));
    assert_eq!(a.pixels.data, image.data);
    assert_eq!(a.offset, (3, 3));
}

#[test]
fn alignment_centering_within_half_pixel() {
    let image = solid(50, 70, (0, 0, 0));
    let f = face(7, 11, 13, 17);
    let cell = (100u32, 100u32);
    let a = align_face(&image, &vec![f], cell, (45, 60)).unwrap();
    let scale = (45.0f64 / 13.0).min(60.0 / 17.0);
    let cx = (f.x as f64 + f.width as f64 / 2.0) * scale + a.offset.0 as f64;
    let cy = (f.y as f64 + f.height as f64 / 2.0) * scale + a.offset.1 as f64;
    assert!((cx - 50.0).abs() <= 0.5 + 1e-9);
    assert!((cy - 50.0).abs() <= 0.5 + 1e-9);
}

#[test]
fn align_rejects_face_counts() {
    let image = solid(10, 10, (0, 0, 0));
    assert_eq!(
        align_face(&image, &vec![], (100, 100), (45, 60)).err(),
        Some(AlignError::NoUsableFace)
    );
    let two = vec![face(0, 0, 5, 5), face(5, 5, 5, 5)];
    assert_eq!(align_face(&image, &two, (100, 100), (45, 60)).err(), Some(AlignError::NoUsableFace));
    assert_eq!(
        align_face(&image, &vec![face(0, 0, 0, 5)], (100, 100), (45, 60)).err(),
        Some(AlignError::NoUsableFace)
    );
}

#[test]
fn align_rejects_empty_image() {
    let image = solid(0, 10, (0, 0, 0));
    assert_eq!(
        align_face(&image, &vec![face(0, 0, 5, 5)], (100, 100), (45, 60)).err(),
        Some(AlignError::EmptyImage)
    );
}

#[test]
fn align_rejects_oversized_result() {
    let image = solid(10, 10, (0, 0, 0));
    assert_eq!(
        align_face(&image, &vec![face(0, 0, 1, 1)], (100, 100), (u32::MAX, u32::MAX)).err(),
        Some(AlignError::TooLarge)
    );
}
