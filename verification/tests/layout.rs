use beeswarm::beeswarm;
use beeswarm::euclidean_distance_sq;
use beeswarm::intersection_range;
use beeswarm::intersections;
use beeswarm::jiggle;

#[test]
fn no_collisions_stay_on_axis() {
    let points: Vec<i64> = vec![0, 10, 20];
    let out = beeswarm(&points, 1, 2).unwrap();
    assert_eq!(out, vec![vec![0, 0], vec![10, 0], vec![20, 0]]);
}

#[test]
fn simple_collision_jiggles_second_point() {
    let points: Vec<i64> = vec![0, 5];
    let out = beeswarm(&points, 10, 2).unwrap();
    assert_eq!(out, vec![vec![0, 0], vec![5, 10]]);
    assert!(euclidean_distance_sq(&out[0], &out[1]) > 100);
}

#[test]
fn distant_points_have_disjoint_windows() {
    let points: Vec<i64> = vec![0, 100];
    assert_eq!(intersection_range(&points, 1, 0), (0, 0));
    assert_eq!(intersection_range(&points, 1, 1), (1, 1));
    let out = beeswarm(&points, 1, 2).unwrap();
    assert_eq!(out, vec![vec![0, 0], vec![100, 0]]);
}

#[test]
fn single_point_is_returned_unmodified() {
    let points: Vec<i64> = vec![7];
    let out = beeswarm(&points, 5, 3).unwrap();
    assert_eq!(out, vec![vec![7, 0, 0]]);
}

#[test]
fn identical_calls_yield_identical_output() {
    let points: Vec<i64> = vec![-4, 0, 0, 3, 9];
    let first = beeswarm(&points, 4, 2);
    let second = beeswarm(&points, 4, 2);
    assert_eq!(first, second);
}

#[test]
fn window_depends_only_on_values_and_radius() {
    let points: Vec<i64> = vec![0, 1, 2, 50];
    for i in 0..points.len() {
        let once = intersection_range(&points, 3, i);
        let again = intersection_range(&points, 3, i);
        assert_eq!(once, again);
        assert!(once.0 <= i && i <= once.1);
    }
    assert_eq!(intersection_range(&points, 3, 0), (0, 2));
    assert_eq!(intersection_range(&points, 3, 3), (3, 3));
}

#[test]
fn collision_check_respects_window_and_self() {
    let placed: Vec<Vec<i64>> = vec![vec![0, 0], vec![30, 0]];
    let candidate: Vec<i64> = vec![5, 0];
    let hits = intersections(&placed, 10, 2, &candidate, 0, 1);
    assert_eq!(hits, vec![vec![0, 0]]);
    let pruned = intersections(&placed, 10, 2, &candidate, 1, 1);
    assert!(pruned.is_empty());
    let own_spot: Vec<i64> = vec![0, 0];
    let own = intersections(&placed, 10, 0, &own_spot, 0, 1);
    assert!(own.is_empty());
}

#[test]
fn jiggle_finds_first_clearing_candidate_in_order() {
    let placed: Vec<Vec<i64>> = vec![vec![0, 0]];
    let tentative: Vec<i64> = vec![5, 0];
    let found = jiggle(&placed, 10, 0, 1, &tentative);
    assert_eq!(found, Some(vec![5, 10]));
}

#[test]
fn crowded_cluster_spreads_and_separates() {
    let points: Vec<i64> = vec![0, 0, 0, 0];
    let out = beeswarm(&points, 2, 2).unwrap();
    assert_eq!(out, vec![vec![0, 0], vec![0, 3], vec![0, -3], vec![0, 6]]);
    assert_eq!(out.len(), points.len());
    for (i, p) in out.iter().enumerate() {
        assert_eq!(p[0], points[i]);
    }
    for i in 0..out.len() {
        for j in 0..out.len() {
            if i != j {
                assert!(euclidean_distance_sq(&out[i], &out[j]) > 4);
            }
        }
    }
}

#[test]
fn one_dimensional_collision_reports_failure() {
    let points: Vec<i64> = vec![0, 0];
    assert_eq!(beeswarm(&points, 2, 1), None);
}

#[test]
fn radius_too_fine_for_grid_reports_failure() {
    let points: Vec<i64> = vec![0, 0];
    assert_eq!(beeswarm(&points, 1, 2), None);
}

#[test]
fn squared_distance_is_exact() {
    let a: Vec<i64> = vec![1, 2, 3];
    let b: Vec<i64> = vec![4, 6, 3];
    assert_eq!(euclidean_distance_sq(&a, &b), 25);
    let c: Vec<i64> = vec![-5, 0];
    let d: Vec<i64> = vec![5, 0];
    assert_eq!(euclidean_distance_sq(&c, &d), 100);
}

#[test]
fn empty_input_gives_empty_swarm() {
    let points: Vec<i64> = vec![];
    assert_eq!(beeswarm(&points, 3, 2), Some(vec![]));
}

#[test]
fn negative_values_place_correctly() {
    let points: Vec<i64> = vec![-10, -10];
    let out = beeswarm(&points, 2, 2).unwrap();
    assert_eq!(out, vec![vec![-10, 0], vec![-10, 3]]);
}
