use map_model::{PolyLine, Spline, Vec2, proj_on_segment};

fn v(x: i64, y: i64) -> Vec2 {
    Vec2 { x, y }
}

#[test]
fn polyline_stack_operations() {
    let mut p = PolyLine::new(vec![v(0, 0), v(10, 0), v(20, 0)]);
    assert_eq!(p.n_points(), 3);
    assert!(!p.is_empty());
    assert_eq!(p.first(), Some(v(0, 0)));
    assert_eq!(p.last(), Some(v(20, 0)));
    assert_eq!(p.pop(), Some(v(20, 0)));
    assert_eq!(p.pop_first(), Some(v(0, 0)));
    assert_eq!(p.n_points(), 1);
    p.push(v(5, 5));
    p.reverse();
    assert_eq!(p.first(), Some(v(5, 5)));
    p.clear();
    assert!(p.is_empty());
    assert_eq!(p.pop(), None);
    assert_eq!(p.pop_first(), None);
}

#[test]
fn polyline_extend_and_access() {
    let mut p = PolyLine::with_capacity(4);
    p.extend(&[v(1, 1), v(2, 2)]);
    assert_eq!(p.get(0), Some(v(1, 1)));
    assert_eq!(p.get(2), None);
    assert_eq!(p.as_slice().len(), 2);
    p.set_first(v(9, 9));
    p.set_last(v(8, 8));
    assert_eq!(p.first(), Some(v(9, 9)));
    assert_eq!(p.last(), Some(v(8, 8)));
}

#[test]
fn polyline_projection_picks_nearest_segment() {
    let p = PolyLine::new(vec![v(0, 0), v(100, 0), v(100, 100)]);
    // nearest to the first segment
    let (seg, proj) = p.project_segment(v(50, 10)).unwrap();
    assert_eq!(seg, 1);
    assert_eq!(proj, v(50, 0));
    // nearest to the second segment
    let (seg2, proj2) = p.project_segment(v(90, 80)).unwrap();
    assert_eq!(seg2, 2);
    assert_eq!(proj2, v(100, 80));
    assert_eq!(p.project(v(50, 10)), Some(v(50, 0)));
    // directions are the raw segment differences
    assert_eq!(p.first_dir(), Some(v(100, 0)));
    assert_eq!(p.last_dir(), Some(v(0, 100)));
}

#[test]
fn segment_projection_clamps_to_endpoints() {
    let a = v(0, 0);
    let b = v(10, 0);
    assert_eq!(proj_on_segment(a, b, v(-5, 3)), a);
    assert_eq!(proj_on_segment(a, b, v(25, -4)), b);
    assert_eq!(proj_on_segment(a, b, v(4, 7)), v(4, 0));
}

#[test]
fn spline_split_preserves_endpoint_tangents() {
    let s = Spline {
        from: v(0, 0),
        to: v(400, 0),
        from_derivative: v(0, 200),
        to_derivative: v(0, -200),
    };
    let t = s.project_t(v(200, 80));
    let (s0, s1) = s.split_at_quarter(t);
    // original endpoint derivatives survive exactly
    assert_eq!(s0.from, s.from);
    assert_eq!(s0.from_derivative, s.from_derivative);
    assert_eq!(s1.to, s.to);
    assert_eq!(s1.to_derivative, s.to_derivative);
    // the two pieces share their junction point and its derivative
    assert_eq!(s0.to, s1.from);
    assert_eq!(s0.to_derivative, s1.from_derivative);
}
