use face_grid::geom::Rect;
use face_grid::layout::{cell_rect, plan, GridLayout};

#[test]
fn plan_ten_cells_auto_columns() {
    let g = plan(10, 0, (100, 100)).unwrap();
    assert_eq!((g.columns, g.rows), (4, 3));
    assert_eq!((g.canvas_width, g.canvas_height), (400, 300));
}

#[test]
fn plan_nine_cells_auto_columns() {
    let g = plan(9, 0, (100, 100)).unwrap();
    assert_eq!((g.columns, g.rows), (3, 3));
}

#[test]
fn plan_no_cells() {
    let g = plan(0, 0, (100, 100)).unwrap();
    assert_eq!(
        g,
        GridLayout {
            columns: 0,
            rows: 0,
            cell_width: 100,
            cell_height: 100,
            canvas_width: 0,
            canvas_height: 0
        }
    );
}

#[test]
fn plan_preferred_columns() {
    let g = plan(7, 5, (30, 40)).unwrap();
    assert_eq!((g.columns, g.rows), (5, 2));
    assert_eq!((g.canvas_width, g.canvas_height), (150, 80));
    let g = plan(1, 0, (30, 40)).unwrap();
    assert_eq!((g.columns, g.rows), (1, 1));
    let g = plan(5, 0, (30, 40)).unwrap();
    assert_eq!((g.columns, g.rows), (3, 2));
}

#[test]
fn plan_largest_count() {
    let g = plan(u32::MAX, 0, (1, 1)).unwrap();
    assert_eq!((g.columns, g.rows), (65536, 65536));
}

#[test]
fn plan_canvas_too_wide() {
    assert_eq!(plan(4, 0, (u32::MAX, 1)), None);
    assert_eq!(plan(4, 1, (1, u32::MAX)), None);
}

#[test]
fn cells_are_row_major() {
    let g = plan(4, 0, (100, 100)).unwrap();
    assert_eq!(cell_rect(&g, 0), Rect { x: 0, y: 0, width: 100, height: 100 });
    assert_eq!(cell_rect(&g, 1), Rect { x: 100, y: 0, width: 100, height: 100 });
    assert_eq!(cell_rect(&g, 2), Rect { x: 0, y: 100, width: 100, height: 100 });
    assert_eq!(cell_rect(&g, 3), Rect { x: 100, y: 100, width: 100, height: 100 });
}
