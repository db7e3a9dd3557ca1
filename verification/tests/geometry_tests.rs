use luola2::geometry::{Line, Rect};

#[test]
fn rect_edges() {
    let r = Rect::new(10, 20, 30, 40);
    assert_eq!(r.x(), 10);
    assert_eq!(r.y(), 20);
    assert_eq!(r.w(), 30);
    assert_eq!(r.h(), 40);
    assert_eq!(r.right(), 39);
    assert_eq!(r.bottom(), 59);
    assert_eq!(r.size(), (30, 40));
    assert_eq!(Rect::default(), Rect::new(0, 0, 0, 0));
}

#[test]
fn rect_intersection() {
    let a = Rect::new(0, 0, 10, 10);
    let b = Rect::new(5, 7, 10, 10);
    assert_eq!(a.intersected(b), Some(Rect::new(5, 7, 5, 3)));
    assert_eq!(b.intersected(a), a.intersected(b));
    let c = Rect::new(10, 0, 5, 5);
    assert_eq!(a.intersected(c), None);
    assert_eq!(a.intersected(a), Some(a));
}

#[test]
fn rect_intersection_is_common_area() {
    let a = Rect::new(-3, 2, 8, 6);
    let b = Rect::new(1, -1, 9, 5);
    let i = a.intersected(b).unwrap();
    for y in -5..15 {
        for x in -5..15 {
            let in_a = x >= a.x() && x < a.x() + a.w() && y >= a.y() && y < a.y() + a.h();
            let in_b = x >= b.x() && x < b.x() + b.w() && y >= b.y() && y < b.y() + b.h();
            let in_i = x >= i.x() && x < i.x() + i.w() && y >= i.y() && y < i.y() + i.h();
            assert_eq!(in_i, in_a && in_b);
        }
    }
}

#[test]
fn offsets() {
    assert_eq!(Rect::new(1, 2, 3, 4).offset(-1, 5), Rect::new(0, 7, 3, 4));
    assert_eq!(Line::new(1, 2, 3, 4).offset(10, 20), Line::new(11, 22, 13, 24));
}
