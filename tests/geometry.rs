use face_grid::geom::{fit_inside, fit_scale, intersect, round_div_i128, Rect};

fn rect(x: i64, y: i64, width: u32, height: u32) -> Rect {
    Rect { x, y, width, height }
}

#[test]
fn fit_inside_keeps_a_fitting_face_box() {
    assert_eq!(fit_inside((100, 100), (75, 100)), (75, 100));
}

#[test]
fn fit_inside_width_binds() {
    // 100 / 3 < 100 / 2: width binds, height is 2 * 100 / 3 = 66.67, rounded.
    assert_eq!(fit_inside((100, 100), (3, 2)), (100, 67));
}

#[test]
fn fit_inside_height_binds() {
    assert_eq!(fit_inside((200, 100), (75, 100)), (75, 100));
    assert_eq!(fit_inside((400, 50), (2, 1)), (100, 50));
}

#[test]
fn fit_inside_rounds_half_away_from_zero() {
    // 1 * 3 / 2 = 1.5 rounds to 2.
    assert_eq!(fit_inside((3, 10), (2, 1)), (3, 2));
}

#[test]
fn fit_inside_bounds_and_aspect_on_samples() {
    let samples = [((640u32, 480u32), (33u32, 47u32)), ((17, 999), (5, 3)), ((1, 1), (1000, 7))];
    for (container, content) in samples {
        let r = fit_inside(container, content);
        assert!(r.0 <= container.0 && r.1 <= container.1);
        assert!(r.0 == container.0 || r.1 == container.1);
        let err = 2 * (r.0 as i64 * content.1 as i64 - r.1 as i64 * content.0 as i64);
        assert!(err.abs() <= content.0.max(content.1) as i64);
    }
}

#[test]
fn fit_scale_picks_the_smaller_ratio() {
    assert_eq!(fit_scale((45, 60), (40, 40)), (45, 40));
    assert_eq!(fit_scale((60, 45), (40, 40)), (45, 40));
}

#[test]
fn round_div_halves_away_from_zero() {
    assert_eq!(round_div_i128(3, 2), 2);
    assert_eq!(round_div_i128(-3, 2), -2);
    assert_eq!(round_div_i128(-1, 3), 0);
    assert_eq!(round_div_i128(5, 3), 2);
    assert_eq!(round_div_i128(-5, 3), -2);
}

#[test]
fn intersect_overlap_in_first_frame() {
    let r = intersect(rect(10, 20, 100, 100), rect(50, 0, 100, 50));
    assert_eq!(r, Some(rect(40, 0, 60, 30)));
    let o = r.unwrap();
    assert_eq!(o.width * o.height, 1800);
}

#[test]
fn intersect_contained() {
    let r = intersect(rect(0, 0, 100, 100), rect(10, 15, 20, 30));
    assert_eq!(r, Some(rect(10, 15, 20, 30)));
}

#[test]
fn intersect_negative_offset() {
    let r = intersect(rect(0, 0, 100, 100), rect(-30, -40, 50, 60));
    assert_eq!(r, Some(rect(0, 0, 20, 20)));
}

#[test]
fn intersect_disjoint() {
    assert_eq!(intersect(rect(0, 0, 10, 10), rect(20, 0, 10, 10)), None);
    assert_eq!(intersect(rect(0, 0, 10, 10), rect(0, 20, 10, 10)), None);
}

#[test]
fn intersect_touching_edge_is_no_overlap() {
    assert_eq!(intersect(rect(0, 0, 10, 10), rect(10, 0, 10, 10)), None);
    assert_eq!(intersect(rect(0, 0, 10, 10), rect(0, 10, 10, 10)), None);
}

#[test]
fn intersect_zero_size_is_no_overlap() {
    assert_eq!(intersect(rect(0, 0, 10, 10), rect(5, 5, 0, 3)), None);
}
