use crate::error::KMeansError;
use crate::point::{
    added, distance_between, divided, same_vector, zeros, KMeansPoint, Point, Vector,
};
use crate::scalar::{Order, Scalar};
use vstd::prelude::*;

verus! {

/// The centre of a cluster is a point like any other.
pub type Centroid<S> = Point<S>;

/// A centroid, the number of points gathered round it since it was fixed,
/// and the sum of those points.
#[derive(PartialEq, Debug)]
pub struct Cluster<S: Scalar> {
    pub centroid: Centroid<S>,
    pub points_count: i32,
    pub points_sum: Point<S>,
}

/// What a cluster holds.
pub struct ClusterModel<S> {
    pub centroid: Seq<S>,
    pub count: int,
    pub sum: Seq<S>,
}

impl<S: Scalar> View for Cluster<S> {
    type V = ClusterModel<S>;

    open spec fn view(&self) -> ClusterModel<S> {
        ClusterModel {
            centroid: self.centroid@,
            count: self.points_count as int,
            sum: self.points_sum@,
        }
    }
}

/// The `points` added up from the left on to `dimension` zeros.
pub open spec fn sum_of<S: Scalar>(points: Seq<Seq<S>>, dimension: nat) -> Seq<S>
    decreases points.len(),
{
    if points.len() == 0 {
        zeros::<S>(dimension)
    } else {
        added(sum_of(points.drop_last(), dimension), points.last())
    }
}

impl<S: Scalar> ClusterModel<S> {
    /// Whether the cluster counts `points` and holds their sum: what it
    /// has gathered since its centroid was fixed.
    pub open spec fn has_gathered(self, points: Seq<Seq<S>>) -> bool {
        &&& self.count == points.len()
        &&& self.sum == sum_of(points, self.centroid.len())
    }

    /// The sum has the centroid's dimension, and a cluster without points
    /// has a sum of zeros.
    pub open spec fn well_formed(self) -> bool {
        &&& self.count >= 0
        &&& self.sum.len() == self.centroid.len()
        &&& self.count == 0 ==> self.sum == zeros::<S>(self.centroid.len())
    }

    /// The mean of the points gathered: where the centroid goes next.
    pub open spec fn mean(self) -> Seq<S> {
        divided(self.sum, S::from_count_spec(self.count as i32))
    }

    /// How far the centroid is from the mean of its points.
    pub open spec fn oscillation(self) -> S {
        distance_between(self.centroid, self.mean())
    }
}

/// The empty cluster round `centroid`.
pub open spec fn seeded<S: Scalar>(centroid: Seq<S>) -> ClusterModel<S> {
    ClusterModel { centroid, count: 0, sum: zeros::<S>(centroid.len()) }
}

/// The cluster `c` with `point` gathered in.
pub open spec fn pushed<S: Scalar>(c: ClusterModel<S>, point: Seq<S>) -> ClusterModel<S> {
    ClusterModel { centroid: c.centroid, count: c.count + 1, sum: added(c.sum, point) }
}

/// What a single cluster can do.
pub trait ClusterObject<S: Scalar>: Sized + View<V = ClusterModel<S>> {
    /// Gathers `point` in: one point more, and the sum grown by it.
    fn push(self, point: Point<S>) -> (r: Cluster<S>)
        requires
            self@.count < i32::MAX,
        ensures
            r@ == pushed(self@, point@),
            self@.well_formed() && point@.len() == self@.centroid.len() ==> r@.well_formed(),
            forall|points: Seq<Seq<S>>|
                self@.has_gathered(points) ==> #[trigger] r@.has_gathered(points.push(point@)),
    ;

    /// The empty cluster round the mean of the points gathered; a cluster
    /// without points has no mean.
    fn next_cluster(&self) -> (r: Result<Cluster<S>, KMeansError>)
        ensures
            self@.count != 0 ==> r is Ok && r->Ok_0@ == seeded(self@.mean()),
            self@.count == 0 ==> r == Err::<Cluster<S>, KMeansError>(KMeansError::DivideByZero),
            r is Ok ==> r->Ok_0@.well_formed() && r->Ok_0@.has_gathered(Seq::empty()),
    ;

    /// The distance from the centroid to the mean of the points gathered.
    fn oscillation(&self) -> (r: Result<S, KMeansError>)
        ensures
            self@.count != 0 ==> r == Ok::<S, KMeansError>(self@.oscillation()),
            self@.count == 0 ==> r == Err::<S, KMeansError>(KMeansError::DivideByZero),
    ;
}

impl<S: Scalar> Clone for Cluster<S> {
    fn clone(&self) -> (r: Self)
        ensures
            r@ == self@,
    {
        Cluster {
            centroid: self.centroid.clone(),
            points_count: self.points_count,
            points_sum: self.points_sum.clone(),
        }
    }
}

impl<S: Scalar> Cluster<S> {
    /// The empty cluster round `centroid`.
    pub fn from(centroid: Centroid<S>) -> (r: Self)
        ensures
            r@ == seeded(centroid@),
            r@.well_formed(),
            r@.has_gathered(Seq::empty()),
    {
        let n = centroid.point.len();
        Cluster { centroid, points_count: 0, points_sum: Vector::zeros(n) }
    }
}

impl<S: Scalar> ClusterObject<S> for Cluster<S> {
    fn push(self, point: Point<S>) -> (r: Cluster<S>) {
        let ghost before = self@;
        let r = Cluster {
            centroid: self.centroid,
            points_count: self.points_count + 1,
            points_sum: self.points_sum.add(point),
        };
        assert forall|points: Seq<Seq<S>>| before.has_gathered(points) implies #[trigger] r@
            .has_gathered(points.push(point@)) by {
            assert(points.push(point@).drop_last() == points);
        }
        r
    }

    fn next_cluster(&self) -> (r: Result<Cluster<S>, KMeansError>) {
        let n = S::from_count(self.points_count);
        match self.points_sum.clone().div(n) {
            Ok(mean) => Ok(Cluster::from(mean)),
            Err(e) => Err(e),
        }
    }

    fn oscillation(&self) -> (r: Result<S, KMeansError>) {
        match self.next_cluster() {
            Ok(next) => Ok(self.centroid.clone().distance(next.centroid)),
            Err(e) => Err(e),
        }
    }
}

/// An ordered collection of clusters.
#[derive(PartialEq, Debug)]
pub struct ClusterSet<S: Scalar> {
    pub clusters: Vec<Cluster<S>>,
}

impl<S: Scalar> View for ClusterSet<S> {
    type V = Seq<ClusterModel<S>>;

    open spec fn view(&self) -> Seq<ClusterModel<S>> {
        Seq::new(self.clusters@.len(), |i: int| self.clusters@[i]@)
    }
}

/// For each cluster, the key of the distance from `point` to its centroid.
pub open spec fn distance_keys<S: Scalar>(
    clusters: Seq<ClusterModel<S>>,
    point: Seq<S>,
) -> Seq<Option<i64>> {
    Seq::new(clusters.len(), |i: int| distance_between(point, clusters[i].centroid).key())
}

/// Whether every key is there: every distance is a number.
pub open spec fn all_numbers(keys: Seq<Option<i64>>) -> bool {
    forall|i: int| 0 <= i < keys.len() ==> (#[trigger] keys[i]) is Some
}

/// Whether `keys[at]` is the least key, and the first of those that are.
pub open spec fn is_first_least(keys: Seq<Option<i64>>, at: int) -> bool {
    &&& 0 <= at < keys.len()
    &&& forall|j: int| 0 <= j < keys.len() ==> keys[at]->0 <= (#[trigger] keys[j])->0
    &&& forall|j: int| 0 <= j < at ==> keys[at]->0 < (#[trigger] keys[j])->0
}

/// The index of the first least key.
pub open spec fn first_least(keys: Seq<Option<i64>>) -> int {
    choose|at: int| is_first_least(keys, at)
}

/// The index of the cluster nearest to `point`: the first of those at the
/// least distance. No cluster is nearest among none, and none can be told
/// nearest among several when a distance is not a number.
pub open spec fn nearest<S: Scalar>(clusters: Seq<ClusterModel<S>>, point: Seq<S>) -> Result<
    int,
    KMeansError,
> {
    if clusters.len() == 0 {
        Err(KMeansError::InvalidArgument)
    } else if clusters.len() == 1 {
        Ok(0)
    } else if !all_numbers(distance_keys(clusters, point)) {
        Err(KMeansError::InvalidComparison)
    } else {
        Ok(first_least(distance_keys(clusters, point)))
    }
}

/// The clusters with `updated` in the place of each one that has its
/// centroid.
pub open spec fn replaced<S: Scalar>(
    clusters: Seq<ClusterModel<S>>,
    updated: ClusterModel<S>,
) -> Seq<ClusterModel<S>> {
    Seq::new(
        clusters.len(),
        |i: int|
            if same_vector(clusters[i].centroid, updated.centroid) {
                updated
            } else {
                clusters[i]
            },
    )
}

/// Whether every cluster is well formed and has `dimension` dimensions.
pub open spec fn uniform<S: Scalar>(clusters: Seq<ClusterModel<S>>, dimension: nat) -> bool {
    forall|i: int|
        0 <= i < clusters.len() ==> (#[trigger] clusters[i]).well_formed()
            && clusters[i].centroid.len() == dimension
}

/// Whether every cluster holds a point, and so has a mean.
pub open spec fn all_have_mean<S: Scalar>(clusters: Seq<ClusterModel<S>>) -> bool {
    forall|i: int| 0 <= i < clusters.len() ==> (#[trigger] clusters[i]).count != 0
}

/// For each cluster, the empty cluster round its mean.
pub open spec fn recentered<S: Scalar>(clusters: Seq<ClusterModel<S>>) -> Seq<ClusterModel<S>> {
    Seq::new(clusters.len(), |i: int| seeded(clusters[i].mean()))
}

/// The oscillations of the clusters added up from the left, starting at
/// zero.
pub open spec fn total_oscillation<S: Scalar>(clusters: Seq<ClusterModel<S>>) -> S
    decreases clusters.len(),
{
    if clusters.len() == 0 {
        S::zero_spec()
    } else {
        total_oscillation(clusters.drop_last()).add_spec(clusters.last().oscillation())
    }
}

/// Only one index can be that of the first least key.
pub proof fn lemma_first_least_unique(keys: Seq<Option<i64>>, a: int, b: int)
    requires
        is_first_least(keys, a),
        is_first_least(keys, b),
    ensures
        a == b,
{
}

/// Among keys that are all there, one is the first least.
pub proof fn lemma_first_least_exists(keys: Seq<Option<i64>>)
    requires
        keys.len() > 0,
        all_numbers(keys),
    ensures
        is_first_least(keys, first_least(keys)),
    decreases keys.len(),
{
    let last = keys.len() - 1;
    if last == 0 {
        assert(is_first_least(keys, 0));
    } else {
        let front = keys.drop_last();
        lemma_first_least_exists(front);
        let at = first_least(front);
        if keys[at]->0 <= keys[last]->0 {
            assert forall|j: int| 0 <= j < keys.len() implies keys[at]->0 <= (
            #[trigger] keys[j])->0 by {
                if j < last {
                    assert(front[j] == keys[j]);
                }
            }
            assert forall|j: int| 0 <= j < at implies keys[at]->0 < (#[trigger] keys[j])->0 by {
                assert(front[j] == keys[j]);
            }
            assert(is_first_least(keys, at));
        } else {
            assert forall|j: int| 0 <= j < last implies keys[last]->0 < (#[trigger] keys[j])->0 by {
                assert(front[at]->0 <= front[j]->0);
            }
            assert(is_first_least(keys, last));
        }
    }
}

/// The nearest cluster is one of the clusters, and where several are there
/// it is the first at the least distance.
pub proof fn lemma_nearest_is_first_least<S: Scalar>(
    clusters: Seq<ClusterModel<S>>,
    point: Seq<S>,
)
    requires
        nearest(clusters, point) is Ok,
    ensures
        0 <= nearest(clusters, point)->Ok_0 < clusters.len(),
        clusters.len() >= 2 ==> is_first_least(
            distance_keys(clusters, point),
            nearest(clusters, point)->Ok_0,
        ),
{
    if clusters.len() >= 2 {
        lemma_first_least_exists(distance_keys(clusters, point));
    }
}

/// Of two clusters at the same distance from a point, the later one is not
/// the nearest.
pub proof fn lemma_nearest_prefers_earlier<S: Scalar>(
    clusters: Seq<ClusterModel<S>>,
    point: Seq<S>,
    earlier: int,
    later: int,
)
    requires
        0 <= earlier < later < clusters.len(),
        distance_keys(clusters, point)[earlier] == distance_keys(clusters, point)[later],
    ensures
        nearest(clusters, point) != Ok::<int, KMeansError>(later),
{
    if nearest(clusters, point) is Ok {
        lemma_nearest_is_first_least(clusters, point);
    }
}

/// Of two clusters alone, both at the same distance from a point, the
/// first is the nearest.
pub proof fn lemma_nearest_of_two_equally_far<S: Scalar>(
    clusters: Seq<ClusterModel<S>>,
    point: Seq<S>,
)
    requires
        clusters.len() == 2,
        distance_keys(clusters, point)[0] is Some,
        distance_keys(clusters, point)[0] == distance_keys(clusters, point)[1],
    ensures
        nearest(clusters, point) == Ok::<int, KMeansError>(0),
{
    let keys = distance_keys(clusters, point);
    lemma_first_least_exists(keys);
    lemma_first_least_unique(keys, 0, first_least(keys));
}

/// To put a cluster in place twice is to put it in place once.
pub proof fn lemma_replaced_twice<S: Scalar>(
    clusters: Seq<ClusterModel<S>>,
    updated: ClusterModel<S>,
)
    ensures
        replaced(replaced(clusters, updated), updated) == replaced(clusters, updated),
{
}

/// What a collection of clusters can do.
pub trait ClusterSetObject<S: Scalar>: Sized + View<V = Seq<ClusterModel<S>>> {
    /// The collection of `clusters`, in their order.
    fn new(clusters: Vec<Cluster<S>>) -> (r: ClusterSet<S>)
        ensures
            r.clusters == clusters,
    ;

    /// The cluster nearest to `point`.
    fn find_nearest(&self, point: Point<S>) -> (r: Result<Cluster<S>, KMeansError>)
        ensures
            match nearest(self@, point@) {
                Ok(at) => r is Ok && r->Ok_0@ == self@[at],
                Err(e) => r == Err::<Cluster<S>, KMeansError>(e),
            },
    ;

    /// The collection with `updated_cluster` in the place of each cluster
    /// that has its centroid.
    fn update(&self, updated_cluster: Cluster<S>) -> (r: ClusterSet<S>)
        ensures
            r@ == replaced(self@, updated_cluster@),
            forall|dimension: nat|
                uniform(self@, dimension) && updated_cluster@.well_formed()
                    && updated_cluster@.centroid.len() == dimension ==> #[trigger] uniform(
                    r@,
                    dimension,
                ),
    ;

    /// For each cluster, the empty cluster round its mean; a cluster
    /// without points has none.
    fn next_clusterset(&self) -> (r: Result<ClusterSet<S>, KMeansError>)
        ensures
            all_have_mean(self@) ==> r is Ok && r->Ok_0@ == recentered(self@),
            !all_have_mean(self@) ==> r == Err::<ClusterSet<S>, KMeansError>(
                KMeansError::DivideByZero,
            ),
            forall|dimension: nat|
                r is Ok && uniform(self@, dimension) ==> #[trigger] uniform(r->Ok_0@, dimension),
    ;

    /// The oscillations of the clusters, added up.
    fn delta(&self) -> (r: Result<S, KMeansError>)
        ensures
            all_have_mean(self@) ==> r == Ok::<S, KMeansError>(total_oscillation(self@)),
            !all_have_mean(self@) ==> r == Err::<S, KMeansError>(KMeansError::DivideByZero),
    ;
}

impl<S: Scalar> Clone for ClusterSet<S> {
    fn clone(&self) -> (r: Self)
        ensures
            r@ == self@,
    {
        let mut out: Vec<Cluster<S>> = Vec::with_capacity(self.clusters.len());
        let mut i: usize = 0;
        while i < self.clusters.len()
            invariant
                i <= self.clusters.len(),
                out@.len() == i,
                forall|j: int| 0 <= j < i ==> (#[trigger] out@[j])@ == self@[j],
            decreases self.clusters.len() - i,
        {
            out.push(self.clusters[i].clone());
            i = i + 1;
        }
        let r = ClusterSet { clusters: out };
        r
    }
}

impl<S: Scalar> ClusterSetObject<S> for ClusterSet<S> {
    fn new(clusters: Vec<Cluster<S>>) -> (r: ClusterSet<S>) {
        ClusterSet { clusters }
    }

    fn find_nearest(&self, point: Point<S>) -> (r: Result<Cluster<S>, KMeansError>) {
        let n = self.clusters.len();
        if n == 0 {
            return Err(KMeansError::InvalidArgument);
        }
        let ghost keys = distance_keys(self@, point@);
        let mut best: usize = 0;
        let mut least: S = point.clone().distance(self.clusters[0].centroid.clone());
        let mut i: usize = 1;
        while i < n
            invariant
                n == self.clusters.len(),
                keys == distance_keys(self@, point@),
                1 <= i <= n,
                best < i,
                least.key() == keys[best as int],
                i >= 2 ==> forall|j: int| 0 <= j < i ==> (#[trigger] keys[j]) is Some,
                forall|j: int| 0 <= j < i ==> keys[best as int]->0 <= (#[trigger] keys[j])->0,
                forall|j: int| 0 <= j < best ==> keys[best as int]->0 < (#[trigger] keys[j])->0,
            decreases n - i,
        {
            let d = point.clone().distance(self.clusters[i].centroid.clone());
            match least.compare(&d) {
                None => {
                    assert(keys[best as int] is None || keys[i as int] is None);
                    return Err(KMeansError::InvalidComparison);
                },
                Some(Order::Greater) => {
                    best = i;
                    least = d;
                },
                Some(_) => {},
            }
            i = i + 1;
        }
        proof {
            if n >= 2 {
                lemma_first_least_unique(keys, best as int, first_least(keys));
            }
        }
        Ok(self.clusters[best].clone())
    }

    fn update(&self, updated_cluster: Cluster<S>) -> (r: ClusterSet<S>) {
        let mut out: Vec<Cluster<S>> = Vec::new();
        let mut i: usize = 0;
        while i < self.clusters.len()
            invariant
                i <= self.clusters.len(),
                out@.len() == i,
                forall|j: int|
                    0 <= j < i ==> (#[trigger] out@[j])@ == replaced(self@, updated_cluster@)[j],
            decreases self.clusters.len() - i,
        {
            if self.clusters[i].centroid.equals(&updated_cluster.centroid) {
                out.push(updated_cluster.clone());
            } else {
                out.push(self.clusters[i].clone());
            }
            i = i + 1;
        }
        let r = ClusterSet { clusters: out };
        r
    }

    fn next_clusterset(&self) -> (r: Result<ClusterSet<S>, KMeansError>) {
        let mut out: Vec<Cluster<S>> = Vec::new();
        let mut i: usize = 0;
        while i < self.clusters.len()
            invariant
                i <= self.clusters.len(),
                out@.len() == i,
                forall|j: int| 0 <= j < i ==> (#[trigger] self@[j]).count != 0,
                forall|j: int| 0 <= j < i ==> (#[trigger] out@[j])@ == recentered(self@)[j],
            decreases self.clusters.len() - i,
        {
            match self.clusters[i].next_cluster() {
                Ok(next) => {
                    out.push(next);
                },
                Err(e) => {
                    assert(self@[i as int].count == 0);
                    return Err(e);
                },
            }
            i = i + 1;
        }
        let r = ClusterSet { clusters: out };
        Ok(r)
    }

    fn delta(&self) -> (r: Result<S, KMeansError>) {
        let mut total = S::zero();
        let mut i: usize = 0;
        while i < self.clusters.len()
            invariant
                i <= self.clusters.len(),
                forall|j: int| 0 <= j < i ==> (#[trigger] self@[j]).count != 0,
                total == total_oscillation(self@.take(i as int)),
            decreases self.clusters.len() - i,
        {
            match self.clusters[i].oscillation() {
                Ok(d) => {
                    total = total.add(&d);
                    assert(self@.take(i + 1).drop_last() =~= self@.take(i as int));
                },
                Err(e) => {
                    assert(self@[i as int].count == 0);
                    return Err(e);
                },
            }
            i = i + 1;
        }
        assert(self@.take(i as int) =~= self@);
        Ok(total)
    }
}

} // verus!
