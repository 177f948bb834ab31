use airfoil_panels::boundary::{Airfoil, Anchor, Panel};
use airfoil_panels::error::GeometryError;
use airfoil_panels::run_sim;
use std::f64::consts::PI;

/// An integer that orders as the coordinate does.
fn key(x: f64) -> i64 {
    assert!(!x.is_nan());
    let bits = (x + 0.0).to_bits() as i64;
    if bits < 0 {
        bits ^ i64::MAX
    } else {
        bits
    }
}

fn airfoil(points: &[(f64, f64)]) -> Airfoil {
    Airfoil::new(points.iter().map(|p| key(p.0)).collect())
}

fn extent(points: &[(f64, f64)]) -> (f64, f64) {
    let (lo, hi) = airfoil(points).x_extent().unwrap();
    (points[lo].0, points[hi].0)
}

fn chord(points: &[(f64, f64)]) -> f64 {
    let (min, max) = extent(points);
    max - min
}

fn chord_center_x(points: &[(f64, f64)]) -> f64 {
    let (min, max) = extent(points);
    (max + min) / 2.0
}

fn circle_targets(points: &[(f64, f64)], n_panels: usize) -> Vec<f64> {
    let r = chord(points) / 2.0;
    let x_center = chord_center_x(points);
    (0..=n_panels)
        .map(|i| x_center + r * ((i as f64) / (n_panels as f64) * 2.0 * PI).cos())
        .collect()
}

/// The ends of the panels, each target with the height read off its segment.
fn panel_ends(points: &[(f64, f64)], targets: &[f64], panels: &[Panel]) -> Vec<((f64, f64), (f64, f64))> {
    let at = |a: Anchor| {
        let p = points[a.segment];
        let q = points[(a.segment + 1) % points.len()];
        let slope = (q.1 - p.1) / (q.0 - p.0);
        let intercept = q.1 - slope * q.0;
        (targets[a.target], slope * targets[a.target] + intercept)
    };
    panels.iter().map(|p| (at(p.point_a), at(p.point_b))).collect()
}

const FIVE: [(f64, f64); 5] = [(3.0, 4.0), (5.0, 0.0), (1.0, -2.0), (8.0, -6.0), (4.0, 2.0)];

#[test]
fn chord_calculation() {
    assert_eq!(7.0, chord(&FIVE));
}

#[test]
fn chord_center_test() {
    assert_eq!(4.5, chord_center_x(&FIVE));
}

#[test]
fn extent_names_the_first_of_equal_extremes() {
    let a = Airfoil::new(vec![2, 9, -4, 9, -4, 0]);
    assert_eq!(a.x_extent(), Some((2, 1)));
    assert_eq!(Airfoil::new(vec![5]).x_extent(), Some((0, 0)));
    assert_eq!(Airfoil::new(vec![]).x_extent(), None);
}

#[test]
fn keys_order_as_coordinates() {
    let xs = [-8.5, -1.0, -1e-300, 0.0, 1e-300, 0.25, 1.0, 7.0];
    for w in xs.windows(2) {
        assert!(key(w[0]) < key(w[1]));
    }
    assert_eq!(key(-0.0), key(0.0));
}

#[test]
fn cursor_walks_the_segments_once() {
    // a diamond, trailing edge first, over the top
    let a = Airfoil::new(vec![10, 5, 0, 5]);
    let panels = a.define_panels(4, &vec![10, 5, 0, 5, 10]).unwrap();
    let segments: Vec<usize> = panels.iter().map(|p| p.point_a.segment).collect();
    assert_eq!(segments, vec![0, 0, 1, 1]);
    assert_eq!(panels[3].point_b, Anchor { target: 4, segment: 3 });
    let leftward: Vec<bool> = panels.iter().map(|p| p.leftward).collect();
    assert_eq!(leftward, vec![true, true, false, false]);
}

#[test]
fn panels_chain_end_to_end() {
    let a = Airfoil::new(vec![100, 80, 40, 10, 0, 10, 40, 80]);
    let targets: Vec<i64> = vec![100, 75, 25, 0, 25, 75, 100];
    let panels = a.define_panels(6, &targets).unwrap();
    assert_eq!(panels.len(), 6);
    for i in 0..5 {
        assert_eq!(panels[i].point_b, panels[i + 1].point_a);
    }
    for (i, p) in panels.iter().enumerate() {
        assert_eq!(p.point_a.target, i);
        assert_eq!(p.point_b.target, i + 1);
        assert!(p.point_a.segment <= p.point_b.segment);
    }
    assert_eq!(panels[0].point_a.segment, 0);
    assert_eq!(panels[2].point_b.segment, 3);
    assert_eq!(panels[3].point_b.segment, 5);
    assert_eq!(panels[5].point_b.segment, 7);
}

#[test]
fn no_panels_is_degenerate() {
    let a = Airfoil::new(vec![10, 5, 0, 5]);
    assert_eq!(a.define_panels(0, &vec![10]).unwrap_err(), GeometryError::DegenerateGeometry);
    assert_eq!(a.define_panels(0, &vec![]).unwrap_err(), GeometryError::DegenerateGeometry);
}

#[test]
fn too_few_points_is_degenerate() {
    assert_eq!(
        Airfoil::new(vec![]).define_panels(1, &vec![0, 0]).unwrap_err(),
        GeometryError::DegenerateGeometry
    );
    assert_eq!(
        Airfoil::new(vec![3]).define_panels(1, &vec![3, 3]).unwrap_err(),
        GeometryError::DegenerateGeometry
    );
}

#[test]
fn wrong_number_of_targets_is_degenerate() {
    let a = Airfoil::new(vec![10, 5, 0, 5]);
    assert_eq!(a.define_panels(2, &vec![10, 0]).unwrap_err(), GeometryError::DegenerateGeometry);
    assert_eq!(
        a.define_panels(2, &vec![10, 0, 10, 0]).unwrap_err(),
        GeometryError::DegenerateGeometry
    );
    assert!(a.define_panels(2, &vec![10, 0, 10]).is_ok());
}

#[test]
fn exhausted_walk_is_degenerate() {
    let a = Airfoil::new(vec![10, 5, 0, 5]);
    // outside the boundary altogether
    assert_eq!(a.define_panels(1, &vec![10, 11]).unwrap_err(), GeometryError::DegenerateGeometry);
    // against the direction of the walk: the cursor is past 2 by then
    assert_eq!(
        a.define_panels(3, &vec![10, 2, 7, 2]).unwrap_err(),
        GeometryError::DegenerateGeometry
    );
}

#[test]
fn target_on_a_vertical_segment_is_degenerate() {
    // a blunt trailing edge: the boundary starts with a vertical step
    let a = Airfoil::new(vec![10, 10, 5, 0, 5]);
    assert_eq!(
        a.define_panels(2, &vec![10, 0, 10]).unwrap_err(),
        GeometryError::DegenerateGeometry
    );
    // not reached, the vertical step does no harm
    let b = Airfoil::new(vec![10, 5, 0, 0, 5]);
    let panels = b.define_panels(2, &vec![10, 4, 9]).unwrap();
    assert_eq!(panels[1].point_a.segment, 1);
    assert_eq!(panels[1].point_b.segment, 4);
}

#[test]
fn locate_from_finds_the_first_spanning_segment() {
    let a = Airfoil::new(vec![10, 5, 0, 5]);
    assert_eq!(a.locate_from(0, 7), 0);
    assert_eq!(a.locate_from(1, 7), 3);
    assert_eq!(a.locate_from(0, 5), 0);
    assert_eq!(a.locate_from(2, -1), 4);
    assert_eq!(a.locate_from(4, 5), 4);
}

#[test]
fn standard_run_places_forty_panels() {
    let m: usize = 400;
    let circle: Vec<(f64, f64)> = (0..m)
        .map(|k| {
            let w = (k as f64) / (m as f64) * 2.0 * PI;
            (0.5 + 0.5 * w.cos(), 0.5 * w.sin())
        })
        .collect();
    let targets = circle_targets(&circle, 40);
    let keys: Vec<i64> = targets.iter().map(|t| key(*t)).collect();
    let panels = run_sim(&airfoil(&circle), &keys).unwrap();
    assert_eq!(panels.len(), 40);
    assert_eq!(run_sim(&airfoil(&circle), &keys[..40].to_vec()).unwrap_err(), GeometryError::DegenerateGeometry);
}

#[test]
fn circle_gives_panels_of_the_subtended_chord() {
    let m: usize = 400;
    let n: usize = 20;
    let circle: Vec<(f64, f64)> = (0..m)
        .map(|k| {
            let w = (k as f64) / (m as f64) * 2.0 * PI;
            (0.5 + 0.5 * w.cos(), 0.5 * w.sin())
        })
        .collect();
    assert_eq!(chord(&circle), 1.0);
    assert_eq!(chord_center_x(&circle), 0.5);
    let targets = circle_targets(&circle, n);
    let keys: Vec<i64> = targets.iter().map(|t| key(*t)).collect();
    let panels = airfoil(&circle).define_panels(n, &keys).unwrap();
    assert_eq!(panels.len(), n);
    let expected = 2.0 * 0.5 * (PI / n as f64).sin();
    for (i, (a, b)) in panel_ends(&circle, &targets, &panels).iter().enumerate() {
        let length = ((b.0 - a.0) * (b.0 - a.0) + (b.1 - a.1) * (b.1 - a.1)).sqrt();
        assert!((length - expected).abs() < 1e-3, "panel {}: {} vs {}", i, length, expected);
        // the first half of the walk is the upper side, and runs leftward
        assert_eq!(panels[i].leftward, i < n / 2);
        if 0 < i && i < n / 2 {
            assert!(a.1 > 0.0 && b.1 >= 0.0);
        }
    }
}

#[test]
fn closed_trailing_edge_is_no_obstacle() {
    // first and last point share the trailing edge: the closing segment is
    // vertical, and the last target is found before it
    let a = Airfoil::new(vec![100, 50, 0, 50, 100]);
    let panels = a.define_panels(4, &vec![100, 50, 0, 50, 100]).unwrap();
    let ends: Vec<usize> = panels.iter().map(|p| p.point_b.segment).collect();
    // the target behind the nose meets the cursor's own segment at its first
    // point, and is found there: the cursor moves only when it must
    assert_eq!(ends, vec![0, 1, 1, 3]);
    assert_eq!(panels[0].point_a, Anchor { target: 0, segment: 0 });
}

#[test]
fn text_to_panels() {
    let text = "THIN LENS\n1.0 0.0\n0.75 0.05\n0.25 0.05\n0.0 0.0\n0.25 -0.05\n0.75 -0.05\n1.0 0.0\n";
    let layout = airfoil_panels::selig::from_coordinates(text).unwrap();
    assert_eq!(layout.name, b"THINLENS".to_vec());
    let pts: Vec<(f64, f64)> = layout
        .rows
        .iter()
        .map(|r| {
            (
                text[r.x.start..r.x.end].parse().unwrap(),
                text[r.y.start..r.y.end].parse().unwrap(),
            )
        })
        .collect();
    assert_eq!(
        pts,
        vec![
            (1.0, 0.0),
            (0.75, 0.05),
            (0.25, 0.05),
            (0.0, 0.0),
            (0.25, -0.05),
            (0.75, -0.05),
            (1.0, 0.0)
        ]
    );
    assert_eq!(chord(&pts), 1.0);
    assert_eq!(chord_center_x(&pts), 0.5);
    let targets = circle_targets(&pts, 4);
    let keys: Vec<i64> = targets.iter().map(|t| key(*t)).collect();
    let panels = airfoil(&pts).define_panels(4, &keys).unwrap();
    let ends = panel_ends(&pts, &targets, &panels);
    assert_eq!(ends.len(), 4);
    assert_eq!(ends[0].0, (1.0, 0.0));
    assert!((ends[0].1 .0 - 0.5).abs() < 1e-12 && (ends[0].1 .1 - 0.05).abs() < 1e-12);
    assert_eq!(ends[1].1, (0.0, 0.0));
    assert!((ends[2].1 .0 - 0.5).abs() < 1e-12 && (ends[2].1 .1 + 0.05).abs() < 1e-12);
    let segments: Vec<usize> = panels.iter().map(|p| p.point_b.segment).collect();
    assert_eq!(segments, vec![1, 2, 4, 5]);
    assert_eq!(ends[3].1, (1.0, 0.0));
    for i in 0..3 {
        assert_eq!(ends[i].1, ends[i + 1].0);
    }
}
