use face_grid::geom::Rect;
use face_grid::raster::{copy_image, CompositeError, RgbBuffer, RgbaCanvas};

/// An image whose pixel (x, y) is (x, y, x + y).
fn gradient(width: u32, height: u32) -> RgbBuffer {
    let mut data = Vec::new();
    for y in 0..height {
        for x in 0..width {
            data.push(x as u8);
            data.push(y as u8);
            data.push((x + y) as u8);
        }
    }
    RgbBuffer::from_raw(width, height, data).unwrap()
}

#[test]
fn from_raw_checks_length() {
    assert!(RgbBuffer::from_raw(2, 2, vec![0; 12]).is_some());
    assert!(RgbBuffer::from_raw(2, 2, vec![0; 11]).is_none());
    assert!(RgbBuffer::from_raw(2, 2, vec![0; 13]).is_none());
    assert!(RgbBuffer::from_raw(0, 5, vec![]).is_some());
}

#[test]
fn new_canvas_is_transparent() {
    let c = RgbaCanvas::new(3, 2);
    assert_eq!(c.data.len(), 24);
    for y in 0..2 {
        for x in 0..3 {
            assert_eq!(c.get_pixel(x, y), (0, 0, 0, 0));
        }
    }
}

#[test]
fn put_pixel_touches_one_pixel() {
    let mut c = RgbaCanvas::new(3, 2);
    c.put_pixel(1, 1, (1, 2, 3, 4));
    assert_eq!(c.get_pixel(1, 1), (1, 2, 3, 4));
    assert_eq!(c.get_pixel(0, 1), (0, 0, 0, 0));
    assert_eq!(c.get_pixel(1, 0), (0, 0, 0, 0));
}

#[test]
fn full_containment_copies_every_pixel() {
    let top = gradient(4, 3);
    let mut canvas = RgbaCanvas::new(20, 10);
    let cell = Rect { x: 10, y: 0, width: 10, height: 10 };
    assert_eq!(copy_image(&mut canvas, &top, (2, 5), cell), Ok(()));
    for y in 0..10u32 {
        for x in 0..20u32 {
            let inside = (12..16).contains(&x) && (5..8).contains(&y);
            let p = canvas.get_pixel(x, y);
            if inside {
                let s = top.get_pixel(x - 12, y - 5);
                assert_eq!(p, (s.0, s.1, s.2, 255));
            } else {
                assert_eq!(p, (0, 0, 0, 0));
            }
        }
    }
}

#[test]
fn partial_overlap_copies_only_the_overlap() {
    let top = gradient(6, 6);
    let mut canvas = RgbaCanvas::new(8, 8);
    canvas.put_pixel(7, 7, (9, 9, 9, 9));
    let cell = Rect { x: 4, y: 4, width: 4, height: 4 };
    // Offset (-3, 2): image columns 3..6 land on cell columns 0..3,
    // image rows 0..2 on cell rows 2..4.
    assert_eq!(copy_image(&mut canvas, &top, (-3, 2), cell), Ok(()));
    for y in 0..8u32 {
        for x in 0..8u32 {
            let p = canvas.get_pixel(x, y);
            if (4..7).contains(&x) && (6..8).contains(&y) {
                let s = top.get_pixel(x - 4 + 3, y - 4 - 2);
                assert_eq!(p, (s.0, s.1, s.2, 255));
            } else if (x, y) == (7, 7) {
                assert_eq!(p, (9, 9, 9, 9));
            } else {
                assert_eq!(p, (0, 0, 0, 0));
            }
        }
    }
}

#[test]
fn no_overlap_is_an_error_and_leaves_the_canvas() {
    let top = gradient(3, 3);
    let mut canvas = RgbaCanvas::new(10, 10);
    let cell = Rect { x: 0, y: 0, width: 5, height: 5 };
    assert_eq!(copy_image(&mut canvas, &top, (5, 0), cell), Err(CompositeError::NoOverlap));
    assert_eq!(copy_image(&mut canvas, &top, (-3, 1), cell), Err(CompositeError::NoOverlap));
    assert!(canvas.data.iter().all(|b| *b == 0));
}
