use crate::cluster::{
    lemma_nearest_is_first_least, nearest, pushed, replaced, seeded, uniform, Cluster,
    ClusterModel, ClusterObject, ClusterSet, ClusterSetObject,
};
use crate::error::KMeansError;
use crate::point::{same_scalar, same_vector, Point};
use crate::scalar::Scalar;
use vstd::prelude::*;

verus! {

/// The points to be clustered, in the order in which they were added.
#[derive(PartialEq, Debug)]
pub struct DataSet<S: Scalar> {
    pub items: Vec<Point<S>>,
}

impl<S: Scalar> View for DataSet<S> {
    type V = Seq<Seq<S>>;

    open spec fn view(&self) -> Seq<Seq<S>> {
        Seq::new(self.items@.len(), |i: int| self.items@[i]@)
    }
}

/// Whether every point has `dimension` dimensions.
pub open spec fn of_dimension<S>(points: Seq<Seq<S>>, dimension: nat) -> bool {
    forall|i: int| 0 <= i < points.len() ==> (#[trigger] points[i]).len() == dimension
}

/// The empty clusters round the first `n` points.
pub open spec fn seeds<S: Scalar>(points: Seq<Seq<S>>, n: int) -> Seq<ClusterModel<S>> {
    Seq::new(n as nat, |i: int| seeded(points[i]))
}

/// The clusters after `point` has gone to the nearest of them: that
/// cluster with the point gathered in stands wherever its centroid stood.
pub open spec fn assigned<S: Scalar>(clusters: Seq<ClusterModel<S>>, point: Seq<S>) -> Result<
    Seq<ClusterModel<S>>,
    KMeansError,
> {
    match nearest(clusters, point) {
        Ok(at) => Ok(replaced(clusters, pushed(clusters[at], point))),
        Err(e) => Err(e),
    }
}

/// The clusters after each of `points` in turn has gone to the cluster
/// nearest to it, or the first failure on the way.
pub open spec fn classified<S: Scalar>(
    points: Seq<Seq<S>>,
    clusters: Seq<ClusterModel<S>>,
) -> Result<Seq<ClusterModel<S>>, KMeansError>
    decreases points.len(),
{
    if points.len() == 0 {
        Ok(clusters)
    } else {
        match classified(points.drop_last(), clusters) {
            Ok(grown) => assigned(grown, points.last()),
            Err(e) => Err(e),
        }
    }
}

/// Whether `after` holds as many clusters as `before`, each of them round
/// the centroid that stood in its place, or round one equal to it.
pub open spec fn same_centroids<S: Scalar>(
    before: Seq<ClusterModel<S>>,
    after: Seq<ClusterModel<S>>,
) -> bool {
    &&& after.len() == before.len()
    &&& forall|i: int|
        0 <= i < before.len() ==> (#[trigger] after[i]).centroid == before[i].centroid
            || same_vector(before[i].centroid, after[i].centroid)
}

/// Whether each cluster can still count `more` points.
pub open spec fn room_for<S>(clusters: Seq<ClusterModel<S>>, more: int) -> bool {
    forall|i: int| 0 <= i < clusters.len() ==> (#[trigger] clusters[i]).count + more <= i32::MAX
}

impl<S: Scalar> Default for DataSet<S> {
    fn default() -> (r: Self)
        ensures
            r@ == Seq::<Seq<S>>::empty(),
    {
        let r = DataSet { items: Vec::new() };
        r
    }
}

impl<S: Scalar> DataSet<S> {
    /// The empty clusters round the first `n` points, or round all of them
    /// where there are fewer.
    fn collect_as_cluster(&self, n: usize) -> (r: Vec<Cluster<S>>)
        ensures
            r@.len() == if n <= self@.len() { n as int } else { self@.len() as int },
            forall|i: int| 0 <= i < r@.len() ==> (#[trigger] r@[i])@ == seeded(self@[i]),
    {
        let m = if n <= self.items.len() { n } else { self.items.len() };
        let mut out: Vec<Cluster<S>> = Vec::with_capacity(m);
        let mut i: usize = 0;
        while i < m
            invariant
                i <= m <= self.items.len(),
                out@.len() == i,
                forall|j: int| 0 <= j < i ==> (#[trigger] out@[j])@ == seeded(self@[j]),
            decreases m - i,
        {
            out.push(Cluster::from(self.items[i].clone()));
            i = i + 1;
        }
        out
    }

    /// Adds `point` at the end.
    pub fn push(&mut self, point: Point<S>)
        ensures
            final(self)@ == old(self)@.push(point@),
            forall|dimension: nat|
                of_dimension(old(self)@, dimension) && point@.len() == dimension
                    ==> #[trigger] of_dimension(final(self)@, dimension),
    {
        self.items.push(point);
        assert(final(self)@ =~= old(self)@.push(point@));
    }

    /// The empty clusters round the first `n` points; there must be that
    /// many.
    pub fn generate_initial_clusters(&self, n: usize) -> (r: Result<ClusterSet<S>, KMeansError>)
        ensures
            n <= self@.len() ==> r is Ok && r->Ok_0@ == seeds(self@, n as int),
            n > self@.len() ==> r == Err::<ClusterSet<S>, KMeansError>(
                KMeansError::InvalidArgument,
            ),
            forall|dimension: nat|
                r is Ok && of_dimension(self@, dimension) ==> #[trigger] uniform(
                    r->Ok_0@,
                    dimension,
                ),
    {
        if n > self.items.len() {
            return Err(KMeansError::InvalidArgument);
        }
        let r = ClusterSet::new(self.collect_as_cluster(n));
        Ok(r)
    }

    /// Sends each point in turn to the cluster nearest to it.
    pub fn classify_into(&self, clusters: ClusterSet<S>) -> (r: Result<ClusterSet<S>, KMeansError>)
        requires
            room_for(clusters@, self@.len() as int),
        ensures
            match classified(self@, clusters@) {
                Ok(grown) => r is Ok && r->Ok_0@ == grown,
                Err(e) => r == Err::<ClusterSet<S>, KMeansError>(e),
            },
            r is Ok ==> same_centroids(clusters@, r->Ok_0@),
            forall|dimension: nat|
                r is Ok && of_dimension(self@, dimension) && uniform(clusters@, dimension)
                    ==> #[trigger] uniform(r->Ok_0@, dimension),
    {
        let mut updated_clusters = clusters;
        let mut i: usize = 0;
        while i < self.items.len()
            invariant
                i <= self.items.len(),
                classified(self@.take(i as int), clusters@) == Ok::<
                    Seq<ClusterModel<S>>,
                    KMeansError,
                >(updated_clusters@),
                room_for(updated_clusters@, self@.len() - i),
                forall|dimension: nat|
                    of_dimension(self@, dimension) && uniform(clusters@, dimension)
                        ==> #[trigger] uniform(updated_clusters@, dimension),
            decreases self.items.len() - i,
        {
            assert(self@.take(i + 1).drop_last() =~= self@.take(i as int));
            match updated_clusters.find_nearest(self.items[i].clone()) {
                Ok(nearest_cluster) => {
                    proof {
                        lemma_nearest_is_first_least(updated_clusters@, self@[i as int]);
                    }
                    let ghost before = updated_clusters@;
                    let ghost found = nearest_cluster@;
                    let nearest_cluster = nearest_cluster.push(self.items[i].clone());
                    updated_clusters = updated_clusters.update(nearest_cluster);
                    assert forall|dimension: nat|
                        of_dimension(self@, dimension) && uniform(
                            clusters@,
                            dimension,
                        ) implies #[trigger] uniform(updated_clusters@, dimension) by {
                        assert(uniform(before, dimension));
                    }
                },
                Err(e) => {
                    proof {
                        lemma_classified_fails_on(self@, clusters@, i + 1);
                    }
                    return Err(e);
                },
            }
            i = i + 1;
        }
        proof {
            assert(self@.take(i as int) =~= self@);
            lemma_classified_keeps_centroids(self@, clusters@);
        }
        Ok(updated_clusters)
    }
}

/// Gathering points moves no centroid: every point is sent to the nearest
/// of the centroids that the round began with.
pub proof fn lemma_classified_keeps_centroids<S: Scalar>(
    points: Seq<Seq<S>>,
    clusters: Seq<ClusterModel<S>>,
)
    requires
        classified(points, clusters) is Ok,
    ensures
        same_centroids(clusters, classified(points, clusters)->Ok_0),
    decreases points.len(),
{
    if points.len() > 0 {
        let sofar = classified(points.drop_last(), clusters)->Ok_0;
        lemma_classified_keeps_centroids(points.drop_last(), clusters);
        lemma_nearest_is_first_least(sofar, points.last());
        let at = nearest(sofar, points.last())->Ok_0;
        let updated = pushed(sofar[at], points.last());
        let grown = replaced(sofar, updated);
        assert forall|i: int| 0 <= i < clusters.len() implies (#[trigger] grown[i]).centroid
            == clusters[i].centroid || same_vector(clusters[i].centroid, grown[i].centroid) by {
            let was = clusters[i].centroid;
            let is = sofar[i].centroid;
            if same_vector(is, updated.centroid) && was != is {
                assert(same_vector(was, updated.centroid));
            }
        }
    }
}

/// Once the first `n` points have met a failure, so have all.
pub proof fn lemma_classified_fails_on<S: Scalar>(
    points: Seq<Seq<S>>,
    clusters: Seq<ClusterModel<S>>,
    n: int,
)
    requires
        0 <= n <= points.len(),
        classified(points.take(n), clusters) is Err,
    ensures
        classified(points, clusters) == classified(points.take(n), clusters),
    decreases points.len(),
{
    if n == points.len() {
        assert(points.take(n) =~= points);
    } else {
        assert(points.drop_last().take(n) =~= points.take(n));
        lemma_classified_fails_on(points.drop_last(), clusters, n);
    }
}

} // verus!
