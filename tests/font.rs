use voxel_world::font::Rect;

#[test]
fn rect_width_and_height() {
    let r = Rect { x_min: -10, y_min: 5, x_max: 30, y_max: 25 };
    assert_eq!(r.width(), 40);
    assert_eq!(r.height(), 20);
    assert_eq!(Rect::default().width(), 0);
}
