use mint_client::{DamageBuffer, Point};
use std::collections::BTreeSet;

#[test]
fn point_order() {
    let mut points: BTreeSet<Point> = BTreeSet::new();
    points.insert(Point { x: 3, y: 5 });
    points.insert(Point { x: 4, y: 5 });
    points.insert(Point { x: 5, y: 5 });
    points.insert(Point { x: 7, y: 5 });
    points.insert(Point { x: 2, y: 5 });
    points.insert(Point { x: 1, y: 6 });

    let points_ord: Vec<Point> = points.into_iter().collect();
    assert_eq!(points_ord[0], Point { x: 2, y: 5 });
    assert_eq!(points_ord[1], Point { x: 3, y: 5 });
    assert_eq!(points_ord[2], Point { x: 4, y: 5 });
    assert_eq!(points_ord[3], Point { x: 5, y: 5 });
    assert_eq!(points_ord[4], Point { x: 7, y: 5 });
    assert_eq!(points_ord[5], Point { x: 1, y: 6 });
}

#[test]
fn fresh_buffer_redraws_only_home() {
    let mut db = DamageBuffer::new(3, 2);
    assert_eq!(db.redraw(), "\x1b[1;1H");
}

#[test]
fn written_cells_are_drawn_in_order_with_jumps() {
    let mut db = DamageBuffer::new(10, 4);
    db.write_string(2, 1, "ab".to_string());
    db.write_string(0, 3, "z".to_string());
    // (2,1) needs a jump, (3,1) follows it, (0,3) needs a jump.
    assert_eq!(db.redraw(), "\x1b[1;1H\x1b[2;3Hab\x1b[4;1Hz");
    // Nothing is damaged any more.
    assert_eq!(db.redraw(), "\x1b[1;1H");
}

#[test]
fn unchanged_cells_are_not_damaged() {
    let mut db = DamageBuffer::new(4, 1);
    db.write_string(0, 0, "  x".to_string());
    assert_eq!(db.redraw(), "\x1b[1;1H\x1b[1;3Hx");
}

#[test]
fn writes_outside_the_grid_are_dropped() {
    let mut db = DamageBuffer::new(3, 2);
    db.write_string(1, 0, "wxyz".to_string());
    db.write_string(0, 5, "q".to_string());
    // (1,0) follows the home position, so no jump is written.
    assert_eq!(db.redraw(), "\x1b[1;1Hwx");
}

#[test]
fn cell_right_after_origin_does_not_jump() {
    let mut db = DamageBuffer::new(3, 1);
    db.write_string(1, 0, "k".to_string());
    assert_eq!(db.redraw(), "\x1b[1;1Hk");
}

#[test]
fn clear_asks_for_a_screen_clear() {
    let mut db = DamageBuffer::new(2, 1);
    db.write_string(0, 0, "hi".to_string());
    db.clear();
    assert_eq!(db.redraw(), "\x1b[1;1H\x1b[2J");
}

#[test]
fn resize_redraws_every_cell() {
    let mut db = DamageBuffer::new(2, 1);
    db.write_string(0, 0, "ab".to_string());
    db.resize(2, 2);
    assert_eq!(db.redraw(), "\x1b[1;1H\x1b[1;1Hab\x1b[2;1H  ");
}

#[test]
fn resize_to_smaller_keeps_leading_cells() {
    let mut db = DamageBuffer::new(3, 1);
    db.write_string(0, 0, "abc".to_string());
    db.resize(2, 1);
    assert_eq!(db.redraw(), "\x1b[1;1H\x1b[1;1Hab");
}
