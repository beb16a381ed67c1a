use textyle::layout::alignment::{Edge, EdgeSet};
use textyle::layout::geometry::{Matrix, Rect, Size, Vector};

#[test]
fn rect_constructors() {
    assert_eq!(Rect::zero(), Rect::new(0, 0, 0, 0));
    assert_eq!(Rect::sized(3, 4), Rect::new(0, 0, 3, 4));
    assert_eq!(Rect::from_size(&Size::new(5, 6)), Rect::new(0, 0, 5, 6));
    assert_eq!(Rect::default(), Rect::zero());
    assert_eq!(Rect::new(1, 2, 3, 4).size(), Size::new(3, 4));
}

#[test]
fn rect_edges() {
    let r = Rect::new(-2, 5, 7, 3);
    assert_eq!(r.max_x(), 5);
    assert_eq!(r.max_y(), 8);
    assert_eq!(Rect::new(i64::MAX - 1, 0, 5, 0).max_x(), i64::MAX);
}

#[test]
fn vectors() {
    let a = Vector::new(5, -3);
    let b = Vector::new(2, 4);
    let d = Vector::sub(&a, &b);
    assert_eq!((d.x(), d.y()), (3, -7));
    let z = Vector::zero();
    assert_eq!((z.x(), z.y()), (0, 0));
    let v = Size::new(4, 9).to_vector();
    assert_eq!((v.x(), v.y()), (4, 9));
    assert_eq!(Size::zero(), Size::new(0, 0));
}

#[test]
fn matrix_is_row_major() {
    let m = Matrix::with_rows(&[1, 2, 3, 4, 5, 6], 2);
    assert_eq!(m.shape(), (3, 2));
    assert_eq!(*m.get(0, 0), 1);
    assert_eq!(*m.get(2, 0), 3);
    assert_eq!(*m.get(0, 1), 4);
    assert_eq!(*m.get(2, 1), 6);
    assert_eq!(m.data(), &[1, 2, 3, 4, 5, 6]);
}

#[test]
fn matrix_get_mut_changes_one_item() {
    let mut m = Matrix::with_rows(&[1, 2, 3, 4], 2);
    *m.get_mut(1, 0) = 20;
    assert_eq!(m.data(), &[1, 20, 3, 4]);
}

#[test]
fn edge_sets() {
    let all = Edge::all();
    assert!(all.contains(Edge::Top) && all.contains(Edge::Right));
    assert!(all.contains(Edge::Bottom) && all.contains(Edge::Left));
    let h = Edge::horizontal();
    assert!(h.contains(Edge::Left) && h.contains(Edge::Right));
    assert!(!h.contains(Edge::Top) && !h.contains(Edge::Bottom));
    let v = Edge::vertical();
    assert!(v.contains(Edge::Top) && v.contains(Edge::Bottom));
    assert!(!v.contains(Edge::Left));
    let one = EdgeSet::empty().with(Edge::Bottom);
    assert!(one.contains(Edge::Bottom) && !one.contains(Edge::Top));
}
