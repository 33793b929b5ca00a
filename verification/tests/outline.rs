use footprint::amcut::crosses_antimeridian;
use footprint::footprint::{Footprint, Footprints};
use footprint::poly_utils::{
    close_outline, close_ring, copy_ring, outline_points, outline_polygons, rectangle_ring,
};

fn sample_outline() -> Vec<Vec<Vec<(f64, f64)>>> {
    vec![
        vec![
            vec![(0.0, 0.0), (1.0, 0.0), (1.0, 1.0)],
            vec![(0.2, 0.2), (0.4, 0.2), (0.3, 0.4)],
        ],
        vec![],
        vec![vec![(10.0, 10.0), (11.0, 10.0), (11.0, 11.0), (10.0, 11.0)]],
    ]
}

#[test]
fn outline_points_lists_every_vertex_in_order() {
    let pts = outline_points(&sample_outline());
    assert_eq!(
        pts,
        vec![
            (0.0, 0.0),
            (1.0, 0.0),
            (1.0, 1.0),
            (0.2, 0.2),
            (0.4, 0.2),
            (0.3, 0.4),
            (10.0, 10.0),
            (11.0, 10.0),
            (11.0, 11.0),
            (10.0, 11.0)
        ]
    );
}

#[test]
fn outline_points_of_empty_outline_is_empty() {
    let empty: Vec<Vec<Vec<(f64, f64)>>> = Vec::new();
    assert!(outline_points(&empty).is_empty());
}

#[test]
fn close_ring_repeats_the_first_vertex() {
    let ring = vec![(1, 2), (3, 4), (5, 6)];
    assert_eq!(close_ring(&ring), vec![(1, 2), (3, 4), (5, 6), (1, 2)]);
    let open = vec![(0.0, 0.0), (1.0, 0.0), (1.0, 1.0)];
    let closed = close_ring(&open);
    assert_eq!(closed, vec![(0.0, 0.0), (1.0, 0.0), (1.0, 1.0), (0.0, 0.0)]);
    assert_eq!(closed.first(), closed.last());
    let empty: Vec<(i32, i32)> = Vec::new();
    assert_eq!(close_ring(&empty), empty);
    assert_eq!(close_ring(&vec![7]), vec![7, 7]);
}

#[test]
fn close_outline_closes_every_ring() {
    let outline = vec![vec![vec![1, 2], vec![]], vec![vec![3]]];
    assert_eq!(close_outline(&outline), vec![vec![vec![1, 2, 1], vec![]], vec![vec![3, 3]]]);
}

#[test]
fn outline_polygons_split_exterior_and_interiors() {
    let parts = outline_polygons(&sample_outline());
    assert_eq!(parts.len(), 2);
    assert_eq!(parts[0].0, vec![(0.0, 0.0), (1.0, 0.0), (1.0, 1.0)]);
    assert_eq!(parts[0].1, vec![vec![(0.2, 0.2), (0.4, 0.2), (0.3, 0.4)]]);
    assert_eq!(
        parts[1].0,
        vec![(10.0, 10.0), (11.0, 10.0), (11.0, 11.0), (10.0, 11.0)]
    );
    assert!(parts[1].1.is_empty());
}

#[test]
fn copy_ring_is_equal() {
    let ring = vec![(1.5, 2.5), (3.5, 4.5)];
    assert_eq!(copy_ring(&ring), ring);
}

#[test]
fn rectangle_ring_corners_in_order() {
    assert_eq!(
        rectangle_ring((0.0, -90.0), (180.0, 90.0)),
        vec![(0.0, -90.0), (180.0, -90.0), (180.0, 90.0), (0.0, 90.0)]
    );
}

fn crosses(a: (f64, f64), b: (f64, f64)) -> bool {
    fn f(x: f64) -> f64 {
        (x + 180.0).rem_euclid(360.0) - 180.0
    }
    let x0 = f(a.0);
    let x1 = f(b.0);
    x0.signum() != x1.signum() && (x1 - x0).abs() >= 180.0
}

#[test]
fn crossing_ring_is_found() {
    let ring = vec![(170.0, 0.0), (-170.0, 0.0), (-170.0, 10.0), (170.0, 10.0)];
    assert!(crosses_antimeridian(&ring, crosses));
}

#[test]
fn ring_away_from_antimeridian_does_not_cross() {
    let ring = vec![(10.0, 0.0), (20.0, 0.0), (20.0, 10.0), (10.0, 10.0)];
    assert!(!crosses_antimeridian(&ring, crosses));
    let empty: Vec<(f64, f64)> = Vec::new();
    assert!(!crosses_antimeridian(&empty, crosses));
}

#[test]
fn closing_segment_is_tested_first() {
    let ring = vec![1, 2, 3];
    let mut seen = Vec::new();
    let cell = std::cell::RefCell::new(&mut seen);
    let res = crosses_antimeridian(&ring, |a: i32, b: i32| {
        cell.borrow_mut().push((a, b));
        false
    });
    assert!(!res);
    assert_eq!(seen, vec![(3, 1), (1, 2), (2, 3)]);
}

#[test]
fn search_stops_at_first_crossing() {
    let ring = vec![1, 2, 3, 4];
    let count = std::cell::Cell::new(0);
    let res = crosses_antimeridian(&ring, |a: i32, b: i32| {
        count.set(count.get() + 1);
        a == 1 && b == 2
    });
    assert!(res);
    assert_eq!(count.get(), 2);
}

#[test]
fn new_footprint_is_empty() {
    let fp: Footprint<f64, (f64, f64)> = Footprint::new();
    assert_eq!(fp.orbit, 0);
    assert!(fp.id.is_empty() && fp.platform.is_empty() && fp.instrument.is_empty());
    assert_eq!(fp.time_interval, (0.0, 0.0));
    assert!(fp.outline.is_empty());
    let fps: Footprints<f64, (f64, f64)> = Footprints::new();
    assert!(fps.footprints.is_empty());
}

#[test]
fn crossing_does_not_depend_on_start_vertex_or_direction() {
    let rings = vec![
        vec![(170.0, 0.0), (-170.0, 0.0), (-170.0, 10.0), (170.0, 10.0)],
        vec![(10.0, 0.0), (20.0, 0.0), (20.0, 10.0), (10.0, 10.0)],
        vec![(-179.0, 5.0), (-175.0, 5.0), (179.0, 6.0)],
    ];
    for ring in rings {
        let expected = crosses_antimeridian(&ring, crosses);
        for k in 0..ring.len() {
            let mut rot = ring[k..].to_vec();
            rot.extend_from_slice(&ring[..k]);
            assert_eq!(crosses_antimeridian(&rot, crosses), expected);
        }
        let rev: Vec<(f64, f64)> = ring.iter().rev().cloned().collect();
        assert_eq!(crosses_antimeridian(&rev, crosses), expected);
    }
}
