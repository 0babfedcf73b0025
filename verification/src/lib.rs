//! Lloyd's k-means clustering of points in any number of dimensions.
//!
//! The points of a `DataSet` are gathered round the centroids of a
//! `ClusterSet`, each point with the nearest centroid; the centroids then move
//! to the means of their points, round after round, until they rest. The
//! arithmetic is that of a `Scalar`: the crate brings `Fixed`, a checked
//! decimal fixed-point number, and runs on any other number type that keeps
//! the trait's contract.

pub mod cluster;
pub mod dataset;
pub mod error;
pub mod fixed;
pub mod point;
pub mod scalar;

use crate::cluster::{
    all_have_mean, recentered, total_oscillation, uniform, ClusterModel, ClusterSet,
    ClusterSetObject,
};
use crate::dataset::{classified, of_dimension, room_for, DataSet};
use crate::error::KMeansError;
use crate::scalar::{order_of, Order, Scalar};
use vstd::prelude::*;

verus! {

/// How a run of rounds ended.
#[derive(PartialEq, Debug)]
pub enum Outcome<S: Scalar> {
    /// The centroids moved no further than the threshold: these are the
    /// clusters, with the points gathered in the last round.
    Converged(ClusterSet<S>),
    /// The rounds ran out: these are the clusters to go on from.
    Unfinished(ClusterSet<S>),
}

/// What an `Outcome` holds.
pub enum OutcomeModel<S> {
    Converged(Seq<ClusterModel<S>>),
    Unfinished(Seq<ClusterModel<S>>),
}

impl<S: Scalar> View for Outcome<S> {
    type V = OutcomeModel<S>;

    open spec fn view(&self) -> OutcomeModel<S> {
        match self {
            Outcome::Converged(clusters) => OutcomeModel::Converged(clusters@),
            Outcome::Unfinished(clusters) => OutcomeModel::Unfinished(clusters@),
        }
    }
}

impl<S> OutcomeModel<S> {
    /// The clusters that the run ended with.
    pub open spec fn clusters(self) -> Seq<ClusterModel<S>> {
        match self {
            OutcomeModel::Converged(clusters) => clusters,
            OutcomeModel::Unfinished(clusters) => clusters,
        }
    }
}

/// Whether `moved` is a number no greater than `threshold`.
pub open spec fn within<S: Scalar>(moved: S, threshold: S) -> bool {
    let o = order_of(moved.key(), threshold.key());
    o == Some(Order::Less) || o == Some(Order::Equal)
}

/// Lloyd's algorithm for at most `rounds` rounds. A round sends every
/// point to its nearest cluster and adds up how far the centroids are from
/// the means of their points. Within the threshold the clusters stand;
/// beyond it the next round starts from empty clusters round the means.
pub open spec fn lloyd<S: Scalar>(
    points: Seq<Seq<S>>,
    clusters: Seq<ClusterModel<S>>,
    threshold: S,
    rounds: nat,
) -> Result<OutcomeModel<S>, KMeansError>
    decreases rounds,
{
    if rounds == 0 {
        Ok(OutcomeModel::Unfinished(clusters))
    } else {
        match classified(points, clusters) {
            Ok(grown) => {
                if !all_have_mean(grown) {
                    Err(KMeansError::DivideByZero)
                } else if within(total_oscillation(grown), threshold) {
                    Ok(OutcomeModel::Converged(grown))
                } else {
                    lloyd(points, recentered(grown), threshold, (rounds - 1) as nat)
                }
            },
            Err(e) => Err(e),
        }
    }
}

/// Clusters `dataset` from `clusters` on, for at most `rounds` rounds, as
/// `lloyd` says. Every cluster must be able to count all the points: on
/// top of its own in the first round, from zero in the later ones.
pub fn kmeans<S: Scalar>(
    dataset: &DataSet<S>,
    clusters: ClusterSet<S>,
    threshold: S,
    rounds: usize,
) -> (r: Result<Outcome<S>, KMeansError>)
    requires
        dataset@.len() <= i32::MAX,
        room_for(clusters@, dataset@.len() as int),
    ensures
        match lloyd(dataset@, clusters@, threshold, rounds as nat) {
            Ok(outcome) => r is Ok && r->Ok_0@ == outcome,
            Err(e) => r == Err::<Outcome<S>, KMeansError>(e),
        },
        r is Ok ==> r->Ok_0@.clusters().len() == clusters@.len(),
        forall|dimension: nat|
            r is Ok && of_dimension(dataset@, dimension) && uniform(clusters@, dimension)
                ==> #[trigger] uniform(r->Ok_0@.clusters(), dimension),
{
    let mut current = clusters;
    let mut left = rounds;
    while left > 0
        invariant
            dataset@.len() <= i32::MAX,
            current@.len() == clusters@.len(),
            forall|dimension: nat|
                of_dimension(dataset@, dimension) && uniform(clusters@, dimension)
                    ==> #[trigger] uniform(current@, dimension),
            room_for(current@, dataset@.len() as int),
            lloyd(dataset@, current@, threshold, left as nat) == lloyd(
                dataset@,
                clusters@,
                threshold,
                rounds as nat,
            ),
        decreases left,
    {
        let grown = match dataset.classify_into(current) {
            Ok(grown) => grown,
            Err(e) => {
                return Err(e);
            },
        };
        let moved = match grown.delta() {
            Ok(moved) => moved,
            Err(e) => {
                return Err(e);
            },
        };
        match moved.compare(&threshold) {
            Some(Order::Less) | Some(Order::Equal) => {
                return Ok(Outcome::Converged(grown));
            },
            _ => {},
        }
        current = match grown.next_clusterset() {
            Ok(next) => next,
            Err(e) => {
                return Err(e);
            },
        };
        left = left - 1;
    }
    Ok(Outcome::Unfinished(current))
}

/// A first round that ends within the threshold is the only round.
pub proof fn lemma_one_round_within_threshold<S: Scalar>(
    points: Seq<Seq<S>>,
    clusters: Seq<ClusterModel<S>>,
    threshold: S,
    rounds: nat,
)
    requires
        rounds >= 1,
        classified(points, clusters) is Ok,
        all_have_mean(classified(points, clusters)->Ok_0),
        within(total_oscillation(classified(points, clusters)->Ok_0), threshold),
    ensures
        lloyd(points, clusters, threshold, rounds) == Ok::<OutcomeModel<S>, KMeansError>(
            OutcomeModel::Converged(classified(points, clusters)->Ok_0),
        ),
{
}

} // verus!
