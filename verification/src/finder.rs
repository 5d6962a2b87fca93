//! Correspondence finding: which nearest neighbours count as matches.
//!
//! The caller owns the spatial index and the arithmetic on distances; this
//! module owns the decisions. A run goes through three stages, and at each
//! the caller answers one question:
//!
//! 1. [`Searching`]: the nearest neighbour of every source point;
//! 2. [`Deviating`]: how far each distance lies from the median distance;
//! 3. [`Thresholding`]: the greatest distance still accepted, formed from the
//!    median and the median absolute deviation.
//!
//! What comes out is [`Matches`]: the pairs that passed the threshold, in source
//! order.

use vstd::prelude::*;
use crate::error::IcpError;
use crate::order::count_below;
use crate::order::is_median;
use crate::order::lemma_count_below_monotone;
use crate::order::median;

verus! {

/// The nearest neighbour of one source point: its position in the target set
/// and the key of its distance.
#[derive(Clone, Copy, Debug, PartialEq, Eq, Structural)]
pub struct Neighbor {
    pub target: usize,
    pub distance: u64,
}

/// A matched pair: positions in the source and in the target set, and the key
/// of the distance between the two points.
#[derive(Clone, Copy, Debug, PartialEq, Eq, Structural)]
pub struct Correspondence {
    pub source: usize,
    pub target: usize,
    pub distance: u64,
}

/// The distance keys of the neighbours, in source order.
pub open spec fn distances(found: Seq<Neighbor>) -> Seq<u64> {
    Seq::new(found.len(), |i: int| found[i].distance)
}

/// There is one neighbour for each source point, and each is a position in
/// the target set.
pub open spec fn admissible(found: Seq<Neighbor>, sources: nat, targets: nat) -> bool {
    &&& found.len() == sources
    &&& forall|i: int| 0 <= i < found.len() ==> found[i].target < targets
}

/// The pair that source point `i` forms with its neighbour.
pub open spec fn pair_at(found: Seq<Neighbor>, i: int) -> Correspondence {
    Correspondence { source: i as usize, target: found[i].target, distance: found[i].distance }
}

/// The pairs whose distance is no greater than `threshold`, in source order.
pub open spec fn kept(found: Seq<Neighbor>, threshold: u64) -> Seq<Correspondence>
    decreases found.len(),
{
    if found.len() == 0 {
        Seq::empty()
    } else {
        let before = kept(found.drop_last(), threshold);
        if found.last().distance <= threshold {
            before.push(pair_at(found, found.len() - 1))
        } else {
            before
        }
    }
}

/// The pairs that a threshold keeps; without a threshold, none.
pub open spec fn kept_within(found: Seq<Neighbor>, threshold: Option<u64>) -> Seq<Correspondence> {
    match threshold {
        Some(key) => kept(found, key),
        None => Seq::empty(),
    }
}

/// Every kept pair is a source point with its own neighbour, is within the
/// threshold, and stands after the pairs of all earlier source points.
pub proof fn lemma_kept_sound(found: Seq<Neighbor>, threshold: u64)
    requires
        found.len() <= usize::MAX,
    ensures
        kept(found, threshold).len() <= found.len(),
        forall|k: int|
            0 <= k < kept(found, threshold).len() ==> {
                let pair = #[trigger] kept(found, threshold)[k];
                &&& k <= pair.source < found.len()
                &&& pair == pair_at(found, pair.source as int)
                &&& pair.distance <= threshold
            },
        forall|k: int, l: int|
            0 <= k < l < kept(found, threshold).len() ==> kept(found, threshold)[k].source < kept(
                found,
                threshold,
            )[l].source,
    decreases found.len(),
{
    if found.len() > 0 {
        let front = found.drop_last();
        lemma_kept_sound(front, threshold);
        assert(forall|i: int| 0 <= i < front.len() ==> pair_at(front, i) == pair_at(found, i));
    }
}

/// Every source point whose neighbour is within the threshold is among the kept
/// pairs.
pub proof fn lemma_kept_complete(found: Seq<Neighbor>, threshold: u64, i: int)
    requires
        0 <= i < found.len(),
        found[i].distance <= threshold,
    ensures
        kept(found, threshold).contains(pair_at(found, i)),
    decreases found.len(),
{
    let front = found.drop_last();
    let before = kept(front, threshold);
    if i == found.len() - 1 {
        let all = kept(found, threshold);
        assert(all[all.len() - 1] == pair_at(found, i));
    } else {
        lemma_kept_complete(front, threshold, i);
        assert(pair_at(front, i) == pair_at(found, i));
        let k = choose|k: int| 0 <= k < before.len() && before[k] == pair_at(front, i);
        assert(kept(found, threshold)[k] == pair_at(found, i));
    }
}

/// Where no distance exceeds the threshold, every source point is kept, each at
/// its own position.
pub proof fn lemma_kept_all(found: Seq<Neighbor>, threshold: u64)
    requires
        forall|i: int| 0 <= i < found.len() ==> found[i].distance <= threshold,
    ensures
        kept(found, threshold).len() == found.len(),
        forall|i: int| 0 <= i < found.len() ==> kept(found, threshold)[i] == pair_at(found, i),
    decreases found.len(),
{
    if found.len() > 0 {
        let front = found.drop_last();
        lemma_kept_all(front, threshold);
        assert(forall|i: int| 0 <= i < front.len() ==> pair_at(front, i) == pair_at(found, i));
    }
}

/// As many pairs are kept as there are distances no greater than the
/// threshold.
pub proof fn lemma_kept_count(found: Seq<Neighbor>, threshold: u64)
    ensures
        kept(found, threshold).len() == count_below(distances(found), threshold + 1),
    decreases found.len(),
{
    if found.len() > 0 {
        lemma_kept_count(found.drop_last(), threshold);
        assert(distances(found).drop_last() =~= distances(found.drop_last()));
    }
}

/// A threshold that is no smaller than the median distance keeps more than
/// half of the pairs: outliers can be cut off, the bulk cannot.
pub proof fn lemma_majority_kept(found: Seq<Neighbor>, median: u64, threshold: u64)
    requires
        is_median(distances(found), median),
        median <= threshold,
    ensures
        kept(found, threshold).len() > found.len() / 2,
{
    lemma_kept_count(found, threshold);
    lemma_count_below_monotone(distances(found), median + 1, threshold + 1);
}

/// What a [`Searching`] stage stands for.
pub struct SearchingView {
    pub sources: nat,
    pub targets: nat,
}

/// First stage: the sizes are known and neither set is empty; the nearest
/// neighbours are awaited.
pub struct Searching {
    sources: usize,
    targets: usize,
}

impl View for Searching {
    type V = SearchingView;

    closed spec fn view(&self) -> SearchingView {
        SearchingView { sources: self.sources as nat, targets: self.targets as nat }
    }
}

/// What a [`Deviating`] stage stands for.
pub struct DeviatingView {
    pub targets: nat,
    pub found: Seq<Neighbor>,
    pub median: u64,
}

/// Second stage: the neighbours are in and the median distance is known; the
/// absolute deviations from it are awaited.
pub struct Deviating {
    targets: usize,
    found: Vec<Neighbor>,
    median: u64,
}

impl View for Deviating {
    type V = DeviatingView;

    closed spec fn view(&self) -> DeviatingView {
        DeviatingView { targets: self.targets as nat, found: self.found@, median: self.median }
    }
}

/// What a [`Thresholding`] stage stands for.
pub struct ThresholdingView {
    pub targets: nat,
    pub found: Seq<Neighbor>,
    pub median: u64,
    pub mad: u64,
}

/// Third stage: median and median absolute deviation are known; the threshold
/// formed from them is awaited.
pub struct Thresholding {
    targets: usize,
    found: Vec<Neighbor>,
    median: u64,
    mad: u64,
}

impl View for Thresholding {
    type V = ThresholdingView;

    closed spec fn view(&self) -> ThresholdingView {
        ThresholdingView {
            targets: self.targets as nat,
            found: self.found@,
            median: self.median,
            mad: self.mad,
        }
    }
}

/// Opens a run for `sources` source points and `targets` target points.
/// Fails exactly when one of the sets is empty.
pub fn find_correspondences(sources: usize, targets: usize) -> (begun: Result<Searching, IcpError>)
    ensures
        (sources == 0 || targets == 0) <==> begun == Err::<Searching, IcpError>(
            IcpError::InvalidInput,
        ),
        (sources > 0 && targets > 0) <==> begun is Ok,
        begun matches Ok(stage) ==> stage@ == (SearchingView {
            sources: sources as nat,
            targets: targets as nat,
        }),
{
    if sources == 0 || targets == 0 {
        Err(IcpError::InvalidInput)
    } else {
        Ok(Searching { sources, targets })
    }
}

impl Searching {
    #[verifier::type_invariant]
    spec fn wf(&self) -> bool {
        self.sources > 0 && self.targets > 0
    }

    /// Takes the nearest neighbour of every source point, in source order,
    /// and settles the median distance. Fails exactly when the answer does
    /// not hold one neighbour per source point, or names a position outside
    /// the target set.
    pub fn neighbors(self, found: Vec<Neighbor>) -> (next: Result<Deviating, IcpError>)
        ensures
            admissible(found@, self@.sources, self@.targets) <==> next is Ok,
            next is Err ==> next == Err::<Deviating, IcpError>(IcpError::InvalidInput),
            next matches Ok(stage) ==> {
                &&& stage@.targets == self@.targets
                &&& stage@.found == found@
                &&& is_median(distances(found@), stage@.median)
            },
    {
        proof {
            use_type_invariant(&self);
        }
        if found.len() != self.sources {
            return Err(IcpError::InvalidInput);
        }
        let mut keys: Vec<u64> = Vec::new();
        let mut i: usize = 0;
        while i < found.len()
            invariant
                i <= found.len(),
                keys@ == distances(found@).subrange(0, i as int),
                forall|k: int| 0 <= k < i ==> found[k].target < self.targets,
            decreases found.len() - i,
        {
            let neighbor = found[i];
            if neighbor.target >= self.targets {
                return Err(IcpError::InvalidInput);
            }
            keys.push(neighbor.distance);
            proof {
                assert(keys@ =~= distances(found@).subrange(0, i + 1));
            }
            i = i + 1;
        }
        proof {
            assert(keys@ =~= distances(found@));
        }
        match median(&keys) {
            Ok(key) => Ok(Deviating { targets: self.targets, found, median: key }),
            Err(e) => Err(e),
        }
    }
}

impl Deviating {
    #[verifier::type_invariant]
    spec fn wf(&self) -> bool {
        &&& self.found.len() > 0
        &&& forall|i: int| 0 <= i < self.found.len() ==> self.found[i].target < self.targets
        &&& is_median(distances(self.found@), self.median)
    }

    /// The key of the median distance.
    pub fn median(&self) -> (key: u64)
        ensures
            key == self@.median,
            is_median(distances(self@.found), key),
    {
        proof {
            use_type_invariant(self);
        }
        self.median
    }

    /// Takes, for every source point in order, the key of the absolute
    /// difference between its distance and the median distance, and settles
    /// their median. Fails exactly when the answer does not hold one
    /// deviation per source point.
    pub fn deviations(self, deviations: Vec<u64>) -> (next: Result<Thresholding, IcpError>)
        ensures
            deviations.len() == self@.found.len() <==> next is Ok,
            next is Err ==> next == Err::<Thresholding, IcpError>(IcpError::InvalidInput),
            next matches Ok(stage) ==> {
                &&& stage@.targets == self@.targets
                &&& stage@.found == self@.found
                &&& stage@.median == self@.median
                &&& is_median(deviations@, stage@.mad)
            },
    {
        proof {
            use_type_invariant(&self);
        }
        if deviations.len() != self.found.len() {
            return Err(IcpError::InvalidInput);
        }
        match median(&deviations) {
            Ok(key) => Ok(
                Thresholding { targets: self.targets, found: self.found, median: self.median, mad: key },
            ),
            Err(e) => Err(e),
        }
    }
}

/// What [`Matches`] stands for.
pub struct MatchesView {
    pub sources: nat,
    pub targets: nat,
    pub pairs: Seq<Correspondence>,
}

/// The outcome of a run: the pairs that passed the threshold, in source order.
/// It may hold no pair at all; that is no failure.
pub struct Matches {
    sources: usize,
    targets: usize,
    pairs: Vec<Correspondence>,
}

impl View for Matches {
    type V = MatchesView;

    closed spec fn view(&self) -> MatchesView {
        MatchesView {
            sources: self.sources as nat,
            targets: self.targets as nat,
            pairs: self.pairs@,
        }
    }
}

impl Thresholding {
    #[verifier::type_invariant]
    spec fn wf(&self) -> bool {
        &&& self.found.len() > 0
        &&& forall|i: int| 0 <= i < self.found.len() ==> self.found[i].target < self.targets
        &&& is_median(distances(self.found@), self.median)
    }

    /// The key of the median distance.
    pub fn median(&self) -> (key: u64)
        ensures
            key == self@.median,
            is_median(distances(self@.found), key),
    {
        proof {
            use_type_invariant(self);
        }
        self.median
    }

    /// The key of the median absolute deviation.
    pub fn mad(&self) -> (key: u64)
        ensures
            key == self@.mad,
    {
        self.mad
    }

    /// Takes the key of the greatest accepted distance and keeps the pairs
    /// within it: a pair stays exactly when its distance is no greater than
    /// the threshold, and the pairs that stay keep their order. `None` says
    /// that the statistics gave no number to form a threshold from; then no
    /// pair is kept.
    pub fn threshold(self, threshold: Option<u64>) -> (matches: Matches)
        ensures
            matches@.sources == self@.found.len(),
            matches@.targets == self@.targets,
            matches@.pairs == kept_within(self@.found, threshold),
    {
        proof {
            use_type_invariant(&self);
        }
        let mut pairs: Vec<Correspondence> = Vec::new();
        let threshold = match threshold {
            Some(key) => key,
            None => {
                return Matches { sources: self.found.len(), targets: self.targets, pairs };
            },
        };
        let mut i: usize = 0;
        while i < self.found.len()
            invariant
                i <= self.found.len(),
                pairs@ == kept(self.found@.subrange(0, i as int), threshold),
                forall|k: int| 0 <= k < self.found.len() ==> self.found[k].target < self.targets,
                forall|k: int|
                    0 <= k < pairs.len() ==> pairs[k].source < i && pairs[k].target < self.targets,
            decreases self.found.len() - i,
        {
            let neighbor = self.found[i];
            proof {
                let upto = self.found@.subrange(0, i + 1);
                assert(upto.drop_last() =~= self.found@.subrange(0, i as int));
                assert(upto.last() == neighbor);
                assert(pair_at(upto, i as int) == pair_at(self.found@, i as int));
            }
            if neighbor.distance <= threshold {
                pairs.push(
                    Correspondence { source: i, target: neighbor.target, distance: neighbor.distance },
                );
            }
            i = i + 1;
        }
        proof {
            assert(self.found@.subrange(0, i as int) =~= self.found@);
        }
        Matches { sources: self.found.len(), targets: self.targets, pairs }
    }
}

impl Matches {
    #[verifier::type_invariant]
    spec fn wf(&self) -> bool {
        forall|k: int|
            0 <= k < self.pairs.len() ==> self.pairs[k].source < self.sources
                && self.pairs[k].target < self.targets
    }

    /// The number of pairs.
    pub fn len(&self) -> (n: usize)
        ensures
            n == self@.pairs.len(),
    {
        self.pairs.len()
    }

    /// Whether every pair was rejected.
    pub fn is_empty(&self) -> (none: bool)
        ensures
            none == (self@.pairs.len() == 0),
    {
        self.pairs.len() == 0
    }

    /// The pairs, in source order.
    pub fn pairs(&self) -> (pairs: &Vec<Correspondence>)
        ensures
            pairs@ == self@.pairs,
            forall|k: int|
                0 <= k < pairs.len() ==> pairs[k].source < self@.sources && pairs[k].target
                    < self@.targets,
    {
        proof {
            use_type_invariant(self);
        }
        &self.pairs
    }

    /// The distance key of every pair, in the order of the pairs.
    pub fn distances(&self) -> (keys: Vec<u64>)
        ensures
            keys.len() == self@.pairs.len(),
            forall|k: int| 0 <= k < keys.len() ==> keys[k] == self@.pairs[k].distance,
    {
        let mut keys: Vec<u64> = Vec::new();
        let mut k: usize = 0;
        while k < self.pairs.len()
            invariant
                k <= self.pairs.len(),
                keys.len() == k,
                forall|m: int| 0 <= m < k ==> keys[m] == self.pairs[m].distance,
            decreases self.pairs.len() - k,
        {
            keys.push(self.pairs[k].distance);
            k = k + 1;
        }
        keys
    }

    /// The matched points themselves, picked out of the two sets the run was
    /// opened for: two vectors of equal length, aligned pair by pair. Fails
    /// exactly when a set has another size than the run was opened with.
    pub fn points<P: Copy>(&self, source: &[P], target: &[P]) -> (picked: Result<
        (Vec<P>, Vec<P>),
        IcpError,
    >)
        ensures
            (source@.len() == self@.sources && target@.len() == self@.targets) <==> picked is Ok,
            picked is Err ==> picked == Err::<(Vec<P>, Vec<P>), IcpError>(IcpError::InvalidInput),
            picked matches Ok(both) ==> {
                &&& both.0@.len() == self@.pairs.len()
                &&& both.1@.len() == self@.pairs.len()
                &&& forall|k: int|
                    0 <= k < self@.pairs.len() ==> both.0@[k] == source@[self@.pairs[k].source as int]
                        && both.1@[k] == target@[self@.pairs[k].target as int]
            },
    {
        proof {
            use_type_invariant(self);
        }
        if source.len() != self.sources || target.len() != self.targets {
            return Err(IcpError::InvalidInput);
        }
        let mut from: Vec<P> = Vec::new();
        let mut to: Vec<P> = Vec::new();
        let mut k: usize = 0;
        while k < self.pairs.len()
            invariant
                k <= self.pairs.len(),
                source@.len() == self.sources,
                target@.len() == self.targets,
                from@.len() == k,
                to@.len() == k,
                forall|m: int|
                    0 <= m < self.pairs.len() ==> self.pairs[m].source < self.sources
                        && self.pairs[m].target < self.targets,
                forall|m: int|
                    0 <= m < k ==> from@[m] == source@[self.pairs[m].source as int] && to@[m]
                        == target@[self.pairs[m].target as int],
            decreases self.pairs.len() - k,
        {
            let pair = self.pairs[k];
            from.push(source[pair.source]);
            to.push(target[pair.target]);
            k = k + 1;
        }
        Ok((from, to))
    }
}

} // verus!
