use kmeans::cluster::{Cluster, ClusterObject, ClusterSet, ClusterSetObject};
use kmeans::dataset::DataSet;
use kmeans::error::KMeansError;
use kmeans::fixed::{Fixed, SCALE};
use kmeans::point::{KMeansPoint, Point, Vector};
use kmeans::scalar::{Order, Scalar};
use kmeans::{kmeans, Outcome};

const NOTHING: Fixed = Fixed { micros: None };

fn whole(n: i64) -> Fixed {
    Fixed::new(n * SCALE)
}

fn diagonal(n: i64) -> Point<Fixed> {
    Point::new(vec![whole(n), whole(n)])
}

fn halves(x: i64, y: i64) -> Point<Fixed> {
    Point::new(vec![Fixed::new(x * 500_000), Fixed::new(y * 500_000)])
}

fn cluster(centroid: Point<Fixed>, count: i32, sum: Point<Fixed>) -> Cluster<Fixed> {
    Cluster {
        centroid,
        points_count: count,
        points_sum: sum,
    }
}

fn dataset_of(points: Vec<Point<Fixed>>) -> DataSet<Fixed> {
    let mut dataset: DataSet<Fixed> = Default::default();
    for p in points {
        dataset.push(p);
    }
    dataset
}

#[test]
fn fixed_keeps_six_decimal_places() {
    assert_eq!(SCALE, 1_000_000);
    assert_eq!(Fixed::new(1_500_000).micros, Some(1_500_000));
    assert_eq!(Fixed::zero(), Fixed::new(0));
    assert_eq!(Fixed::from_count(3), Fixed::new(3_000_000));
    assert_eq!(Fixed::from_count(-2), Fixed::new(-2_000_000));
    assert_eq!(Fixed::from_count(i32::MAX), Fixed::new(2_147_483_647_000_000));
    assert_eq!(Fixed::from_count(i32::MIN), Fixed::new(-2_147_483_648_000_000));
}

#[test]
fn fixed_adds_and_subtracts_exactly() {
    assert_eq!(Fixed::new(1_500_000).add(&Fixed::new(-2_000_000)), Fixed::new(-500_000));
    assert_eq!(Fixed::new(1_500_000).sub(&Fixed::new(-2_000_000)), Fixed::new(3_500_000));
    assert_eq!(Fixed::new(i64::MAX).add(&Fixed::new(0)), Fixed::new(i64::MAX));
    assert_eq!(Fixed::new(i64::MIN).sub(&Fixed::new(0)), Fixed::new(i64::MIN));
    assert_eq!(Fixed::new(-1).sub(&Fixed::new(i64::MAX)), Fixed::new(i64::MIN));
}

#[test]
fn fixed_leaves_the_range_for_good() {
    assert_eq!(Fixed::new(i64::MAX).add(&Fixed::new(1)), NOTHING);
    assert_eq!(Fixed::new(i64::MIN).sub(&Fixed::new(1)), NOTHING);
    assert_eq!(Fixed::new(0).sub(&Fixed::new(i64::MIN)), NOTHING);
    assert_eq!(Fixed::new(i64::MAX).mul(&Fixed::new(1_000_001)), NOTHING);
    assert_eq!(Fixed::new(i64::MIN).mul(&Fixed::new(i64::MIN)), NOTHING);
    assert_eq!(Fixed::new(i64::MAX).div(&Fixed::new(999_999)), NOTHING);
    assert_eq!(Fixed::new(i64::MIN).div(&Fixed::new(-1_000_000)), NOTHING);
    assert_eq!(NOTHING.add(&whole(1)), NOTHING);
    assert_eq!(whole(1).sub(&NOTHING), NOTHING);
    assert_eq!(NOTHING.mul(&whole(0)), NOTHING);
    assert_eq!(whole(0).div(&NOTHING), NOTHING);
    assert_eq!(NOTHING.sqrt(), NOTHING);
}

#[test]
fn fixed_multiplies_rounding_toward_zero() {
    assert_eq!(Fixed::new(1_500_000).mul(&Fixed::new(1_500_000)), Fixed::new(2_250_000));
    assert_eq!(Fixed::new(1_500_000).mul(&Fixed::new(-2_000_000)), Fixed::new(-3_000_000));
    assert_eq!(Fixed::new(-1_500_000).mul(&Fixed::new(-2_000_000)), Fixed::new(3_000_000));
    assert_eq!(Fixed::new(1).mul(&Fixed::new(999_999)), Fixed::new(0));
    assert_eq!(Fixed::new(-1).mul(&Fixed::new(999_999)), Fixed::new(0));
    assert_eq!(Fixed::new(3).mul(&Fixed::new(500_000)), Fixed::new(1));
    assert_eq!(Fixed::new(-3).mul(&Fixed::new(500_000)), Fixed::new(-1));
    assert_eq!(Fixed::new(i64::MAX).mul(&Fixed::new(1_000_000)), Fixed::new(i64::MAX));
    assert_eq!(Fixed::new(i64::MIN).mul(&Fixed::new(1_000_000)), Fixed::new(i64::MIN));
    assert_eq!(Fixed::new(i64::MIN).mul(&Fixed::new(-1_000_000)), NOTHING);
}

#[test]
fn fixed_divides_rounding_toward_zero() {
    assert_eq!(whole(1).div(&whole(3)), Fixed::new(333_333));
    assert_eq!(whole(-1).div(&whole(3)), Fixed::new(-333_333));
    assert_eq!(whole(1).div(&whole(-3)), Fixed::new(-333_333));
    assert_eq!(whole(-1).div(&whole(-3)), Fixed::new(333_333));
    assert_eq!(whole(7).div(&whole(2)), Fixed::new(3_500_000));
    assert_eq!(whole(2).div(&whole(3)), Fixed::new(666_666));
    assert_eq!(whole(1).div(&whole(0)), NOTHING);
    assert_eq!(whole(0).div(&whole(0)), NOTHING);
}

#[test]
fn fixed_takes_roots_rounding_down() {
    assert_eq!(whole(0).sqrt(), whole(0));
    assert_eq!(whole(1).sqrt(), whole(1));
    assert_eq!(whole(4).sqrt(), whole(2));
    assert_eq!(whole(2).sqrt(), Fixed::new(1_414_213));
    assert_eq!(Fixed::new(4_500_000).sqrt(), Fixed::new(2_121_320));
    assert_eq!(Fixed::new(1).sqrt(), Fixed::new(1_000));
    assert_eq!(Fixed::new(i64::MAX).sqrt(), Fixed::new(3_037_000_499_976));
    assert_eq!(Fixed::new(-1).sqrt(), NOTHING);
}

#[test]
fn fixed_compares_numbers_only() {
    assert_eq!(whole(1).compare(&whole(2)), Some(Order::Less));
    assert_eq!(whole(2).compare(&whole(2)), Some(Order::Equal));
    assert_eq!(whole(2).compare(&whole(-2)), Some(Order::Greater));
    assert_eq!(whole(2).compare(&NOTHING), None);
    assert_eq!(NOTHING.compare(&whole(2)), None);
    assert_eq!(NOTHING.compare(&NOTHING), None);
}

#[test]
fn vectors_combine_coordinate_by_coordinate() {
    let a = Point::new(vec![whole(1), whole(-2), whole(3)]);
    let b = Point::new(vec![whole(4), whole(5), whole(-6)]);
    assert_eq!(a.clone().add(b.clone()), Point::new(vec![whole(5), whole(3), whole(-3)]));
    assert_eq!(a.clone().sub(b.clone()), Point::new(vec![whole(-3), whole(-7), whole(9)]));
    assert_eq!(a.clone().mul(b.clone()), Point::new(vec![whole(4), whole(-10), whole(-18)]));
    assert_eq!(a.clone().square(), Point::new(vec![whole(1), whole(4), whole(9)]));
    assert_eq!(a.clone().sum(), whole(2));
    assert_eq!(
        a.div(whole(2)),
        Ok(Point::new(vec![Fixed::new(500_000), whole(-1), Fixed::new(1_500_000)]))
    );
    assert_eq!(Vector::<Fixed>::zeros(3), Point::new(vec![whole(0), whole(0), whole(0)]));
    assert_eq!(Vector::<Fixed>::new(Vec::new()).sum(), whole(0));
}

#[test]
fn vectors_of_different_dimension_meet_on_the_shorter() {
    let a = Point::new(vec![whole(1), whole(2), whole(3)]);
    let b = Point::new(vec![whole(10)]);
    assert_eq!(a.clone().add(b.clone()), Point::new(vec![whole(11)]));
    assert_eq!(b.clone().sub(a.clone()), Point::new(vec![whole(9)]));
    assert_eq!(a.clone().mul(b.clone()), Point::new(vec![whole(10)]));
    assert_eq!(a.clone().distance(b.clone()), whole(9));
    assert!(!a.equals(&b));
}

#[test]
fn vectors_are_equal_by_dimension_and_coordinates() {
    assert!(diagonal(1).equals(&diagonal(1)));
    assert!(!diagonal(1).equals(&diagonal(2)));
    assert!(!diagonal(1).equals(&Point::new(vec![whole(1)])));
    assert!(Vector::<Fixed>::new(Vec::new()).equals(&Vector::new(Vec::new())));
    let broken = Point::new(vec![whole(1), NOTHING]);
    assert!(!broken.equals(&broken.clone()));
}

#[test]
fn division_by_zero_is_refused() {
    assert_eq!(diagonal(1).div(whole(0)), Err(KMeansError::DivideByZero));
    assert_eq!(diagonal(0).div(Fixed::zero()), Err(KMeansError::DivideByZero));
    assert_eq!(
        Vector::<Fixed>::new(Vec::new()).div(whole(0)),
        Err(KMeansError::DivideByZero)
    );
    assert_eq!(diagonal(1).div(NOTHING), Ok(Point::new(vec![NOTHING, NOTHING])));
}

#[test]
fn distance_is_symmetric_and_not_negative() {
    let a = Point::new(vec![whole(3), whole(-1)]);
    let b = Point::new(vec![whole(0), whole(3)]);
    assert_eq!(a.clone().distance(b.clone()), whole(5));
    assert_eq!(b.clone().distance(a.clone()), whole(5));
    assert_eq!(a.clone().distance(a.clone()), whole(0));
    assert_eq!(diagonal(0).distance(diagonal(1)), Fixed::new(1_414_213));
    assert_eq!(diagonal(1).distance(diagonal(0)), Fixed::new(1_414_213));
    let far = Point::new(vec![Fixed::new(i64::MIN)]);
    let near = Point::new(vec![Fixed::new(0)]);
    assert_eq!(far.clone().distance(near.clone()), NOTHING);
    assert_eq!(near.distance(far), NOTHING);
}

#[test]
fn cluster_starts_empty_and_gathers_points() {
    let c = Cluster::from(diagonal(1));
    assert_eq!(c, cluster(diagonal(1), 0, diagonal(0)));
    let c = c.push(diagonal(3)).push(diagonal(4));
    assert_eq!(c, cluster(diagonal(1), 2, diagonal(7)));
    assert_eq!(c.next_cluster(), Ok(cluster(halves(7, 7), 0, diagonal(0))));
    assert_eq!(c.oscillation(), Ok(Fixed::new(3_535_533)));
}

#[test]
fn cluster_without_points_has_no_mean() {
    let c = Cluster::from(diagonal(1));
    assert_eq!(c.next_cluster(), Err(KMeansError::DivideByZero));
    assert_eq!(c.oscillation(), Err(KMeansError::DivideByZero));
    let set = ClusterSet::new(vec![Cluster::from(diagonal(0)).push(diagonal(0)), c]);
    assert_eq!(set.delta(), Err(KMeansError::DivideByZero));
    assert_eq!(set.next_clusterset(), Err(KMeansError::DivideByZero));
}

#[test]
fn nearest_of_equally_far_clusters_is_the_first() {
    let first = Cluster::from(diagonal(0));
    let second = Cluster::from(diagonal(2));
    let set = ClusterSet::new(vec![first.clone(), second.clone()]);
    assert_eq!(set.find_nearest(diagonal(1)), Ok(first.clone()));
    let set = ClusterSet::new(vec![second.clone(), first.clone()]);
    assert_eq!(set.find_nearest(diagonal(1)), Ok(second.clone()));
    let far = Cluster::from(diagonal(9));
    let set = ClusterSet::new(vec![far, second.clone(), first]);
    assert_eq!(set.find_nearest(diagonal(1)), Ok(second));
}

#[test]
fn nearest_is_at_the_least_distance() {
    let set = ClusterSet::new(vec![
        Cluster::from(diagonal(5)),
        Cluster::from(diagonal(-1)),
        Cluster::from(diagonal(2)),
        Cluster::from(diagonal(8)),
    ]);
    assert_eq!(set.find_nearest(diagonal(3)), Ok(Cluster::from(diagonal(2))));
    assert_eq!(set.find_nearest(diagonal(-7)), Ok(Cluster::from(diagonal(-1))));
    assert_eq!(set.find_nearest(diagonal(7)), Ok(Cluster::from(diagonal(8))));
    assert_eq!(set.find_nearest(diagonal(4)), Ok(Cluster::from(diagonal(5))));
}

#[test]
fn nearest_of_no_clusters_is_refused() {
    let set: ClusterSet<Fixed> = ClusterSet::new(Vec::new());
    assert_eq!(set.find_nearest(diagonal(1)), Err(KMeansError::InvalidArgument));
}

#[test]
fn nearest_needs_distances_that_are_numbers() {
    let broken = Cluster::from(Point::new(vec![NOTHING, whole(1)]));
    let sound = Cluster::from(diagonal(1));
    let set = ClusterSet::new(vec![sound.clone(), broken.clone()]);
    assert_eq!(set.find_nearest(diagonal(1)), Err(KMeansError::InvalidComparison));
    let set = ClusterSet::new(vec![broken.clone(), sound.clone()]);
    assert_eq!(set.find_nearest(diagonal(1)), Err(KMeansError::InvalidComparison));
    let set = ClusterSet::new(vec![sound.clone(), sound, broken.clone()]);
    assert_eq!(set.find_nearest(diagonal(1)), Err(KMeansError::InvalidComparison));
    let set = ClusterSet::new(vec![broken.clone()]);
    assert_eq!(set.find_nearest(diagonal(1)), Ok(broken));
}

#[test]
fn update_replaces_by_centroid() {
    let set = ClusterSet::new(vec![
        Cluster::from(diagonal(0)),
        Cluster::from(diagonal(1)),
        Cluster::from(diagonal(0)),
    ]);
    let grown = Cluster::from(diagonal(0)).push(diagonal(5));
    let once = set.update(grown.clone());
    assert_eq!(
        once,
        ClusterSet::new(vec![grown.clone(), Cluster::from(diagonal(1)), grown.clone()])
    );
    assert_eq!(once.update(grown.clone()), once);
    let stranger = Cluster::from(diagonal(7)).push(diagonal(7));
    assert_eq!(set.update(stranger), set);
}

#[test]
fn recentering_empties_the_clusters_at_their_means() {
    let set = ClusterSet::new(vec![
        Cluster::from(diagonal(1)).push(diagonal(0)),
        Cluster::from(diagonal(2)).push(diagonal(3)).push(diagonal(4)),
    ]);
    assert_eq!(
        set.next_clusterset(),
        Ok(ClusterSet::new(vec![
            Cluster::from(diagonal(0)),
            Cluster::from(halves(7, 7)),
        ]))
    );
    let none: ClusterSet<Fixed> = ClusterSet::new(Vec::new());
    assert_eq!(none.next_clusterset(), Ok(ClusterSet::new(Vec::new())));
    assert_eq!(none.delta(), Ok(whole(0)));
}

#[test]
fn seeding_takes_the_first_points() {
    let dataset = dataset_of(vec![diagonal(4), diagonal(2), diagonal(9)]);
    assert_eq!(
        dataset.generate_initial_clusters(2),
        Ok(ClusterSet::new(vec![
            Cluster::from(diagonal(4)),
            Cluster::from(diagonal(2)),
        ]))
    );
    assert_eq!(
        dataset.generate_initial_clusters(0),
        Ok(ClusterSet::new(Vec::new()))
    );
    assert_eq!(
        dataset.generate_initial_clusters(3).map(|set| set.clusters.len()),
        Ok(3)
    );
    assert_eq!(
        dataset.generate_initial_clusters(4),
        Err(KMeansError::InvalidArgument)
    );
}

#[test]
fn seeding_three_clusters_from_one_point_is_refused() {
    let dataset = dataset_of(vec![diagonal(1)]);
    assert_eq!(
        dataset.generate_initial_clusters(3),
        Err(KMeansError::InvalidArgument)
    );
}

#[test]
fn classifying_five_points_on_a_line() {
    let dataset = dataset_of(vec![
        diagonal(0),
        diagonal(1),
        diagonal(2),
        diagonal(3),
        diagonal(4),
    ]);
    let seeds = ClusterSet::new(vec![Cluster::from(diagonal(1)), Cluster::from(diagonal(2))]);
    let grown = dataset.classify_into(seeds).unwrap();
    assert_eq!(
        grown,
        ClusterSet::new(vec![
            cluster(diagonal(1), 2, diagonal(1)),
            cluster(diagonal(2), 3, diagonal(9)),
        ])
    );
    assert_eq!(grown.delta(), Ok(Fixed::new(707_106 + 1_414_213)));
}

#[test]
fn classifying_the_points_off_the_centroids() {
    let dataset = dataset_of(vec![diagonal(0), diagonal(3), diagonal(4)]);
    let seeds = ClusterSet::new(vec![Cluster::from(diagonal(1)), Cluster::from(diagonal(2))]);
    let grown = dataset.classify_into(seeds).unwrap();
    assert_eq!(
        grown,
        ClusterSet::new(vec![
            cluster(diagonal(1), 1, diagonal(0)),
            cluster(diagonal(2), 2, diagonal(7)),
        ])
    );
    assert_eq!(grown.delta(), Ok(Fixed::new(1_414_213 + 2_121_320)));
}

#[test]
fn classifying_stops_at_the_first_failure() {
    let dataset = dataset_of(vec![diagonal(0)]);
    let none: ClusterSet<Fixed> = ClusterSet::new(Vec::new());
    assert_eq!(dataset.classify_into(none), Err(KMeansError::InvalidArgument));
    let dataset = dataset_of(vec![diagonal(0), Point::new(vec![NOTHING, NOTHING])]);
    let seeds = ClusterSet::new(vec![Cluster::from(diagonal(1)), Cluster::from(diagonal(2))]);
    assert_eq!(dataset.classify_into(seeds), Err(KMeansError::InvalidComparison));
    let empty = dataset_of(Vec::new());
    let seeds = ClusterSet::new(vec![Cluster::from(diagonal(1))]);
    assert_eq!(empty.classify_into(seeds.clone()), Ok(seeds));
}

#[test]
fn two_points_are_their_own_clusters() {
    let dataset = dataset_of(vec![diagonal(0), diagonal(1)]);
    let seeds = dataset.generate_initial_clusters(2).unwrap();
    let expected = ClusterSet::new(vec![
        cluster(diagonal(0), 1, diagonal(0)),
        cluster(diagonal(1), 1, diagonal(1)),
    ]);
    assert_eq!(expected.delta(), Ok(whole(0)));
    assert_eq!(
        kmeans(&dataset, seeds, Fixed::new(20_000), 1),
        Ok(Outcome::Converged(expected))
    );
}

#[test]
fn a_generous_threshold_ends_the_run_after_one_round() {
    let dataset = dataset_of(vec![diagonal(0), diagonal(3), diagonal(4)]);
    let seeds = ClusterSet::new(vec![Cluster::from(diagonal(1)), Cluster::from(diagonal(2))]);
    let grown = ClusterSet::new(vec![
        cluster(diagonal(1), 1, diagonal(0)),
        cluster(diagonal(2), 2, diagonal(7)),
    ]);
    assert_eq!(
        kmeans(&dataset, seeds.clone(), Fixed::new(3_535_533), 1),
        Ok(Outcome::Converged(grown.clone()))
    );
    assert_eq!(
        kmeans(&dataset, seeds.clone(), Fixed::new(3_535_533), 50),
        Ok(Outcome::Converged(grown))
    );
    assert_eq!(
        kmeans(&dataset, seeds, Fixed::new(3_535_532), 1),
        Ok(Outcome::Unfinished(ClusterSet::new(vec![
            Cluster::from(diagonal(0)),
            Cluster::from(halves(7, 7)),
        ])))
    );
}

#[test]
fn nine_points_settle_in_four_rounds() {
    let dataset = dataset_of((1..=9).map(diagonal).collect());
    let seeds = dataset.generate_initial_clusters(2).unwrap();
    let threshold = Fixed::new(20_000);
    assert_eq!(
        kmeans(&dataset, seeds.clone(), threshold, 0),
        Ok(Outcome::Unfinished(seeds.clone()))
    );
    assert_eq!(
        kmeans(&dataset, seeds.clone(), threshold, 1),
        Ok(Outcome::Unfinished(ClusterSet::new(vec![
            Cluster::from(diagonal(1)),
            Cluster::from(halves(11, 11)),
        ])))
    );
    let after_three = ClusterSet::new(vec![
        Cluster::from(halves(5, 5)),
        Cluster::from(diagonal(7)),
    ]);
    assert_eq!(
        kmeans(&dataset, seeds.clone(), threshold, 3),
        Ok(Outcome::Unfinished(after_three.clone()))
    );
    let settled = ClusterSet::new(vec![
        cluster(halves(5, 5), 4, diagonal(10)),
        cluster(diagonal(7), 5, diagonal(35)),
    ]);
    assert_eq!(
        kmeans(&dataset, seeds.clone(), threshold, 4),
        Ok(Outcome::Converged(settled.clone()))
    );
    assert_eq!(
        kmeans(&dataset, seeds, threshold, 1000),
        Ok(Outcome::Converged(settled.clone()))
    );
    assert_eq!(
        kmeans(&dataset, after_three, threshold, 1),
        Ok(Outcome::Converged(settled))
    );
}

#[test]
fn a_run_fails_where_a_round_fails() {
    let dataset = dataset_of(vec![diagonal(0), diagonal(1)]);
    let none: ClusterSet<Fixed> = ClusterSet::new(Vec::new());
    assert_eq!(
        kmeans(&dataset, none, whole(1), 5),
        Err(KMeansError::InvalidArgument)
    );
    let seeds = ClusterSet::new(vec![Cluster::from(diagonal(0)), Cluster::from(diagonal(0))]);
    assert_eq!(
        kmeans(&dataset, seeds, NOTHING, 5),
        Ok(Outcome::Unfinished(ClusterSet::new(vec![
            Cluster::from(halves(1, 1)),
            Cluster::from(halves(1, 1)),
        ])))
    );
    let seeds = ClusterSet::new(vec![Cluster::from(diagonal(0)), Cluster::from(diagonal(9))]);
    assert_eq!(
        kmeans(&dataset, seeds, whole(1), 5),
        Err(KMeansError::DivideByZero)
    );
    let empty = dataset_of(Vec::new());
    let seeds = ClusterSet::new(vec![Cluster::from(diagonal(0))]);
    assert_eq!(
        kmeans(&empty, seeds, whole(1), 5),
        Err(KMeansError::DivideByZero)
    );
}

#[test]
fn data_set_grows_at_the_end() {
    let mut dataset: DataSet<Fixed> = Default::default();
    assert_eq!(dataset, DataSet { items: Vec::new() });
    dataset.push(diagonal(2));
    dataset.push(diagonal(1));
    assert_eq!(
        dataset,
        DataSet {
            items: vec![diagonal(2), diagonal(1)]
        }
    );
}
