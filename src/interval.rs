use vstd::prelude::*;

verus! {

/// A range on one chromosome's coordinate axis, with `start <= end`.
#[derive(Clone, Copy, Debug, PartialEq, Eq, Structural)]
pub struct GenomicInterval {
    pub start: usize,
    pub end: usize,
}

impl GenomicInterval {
    pub open spec fn wf(self) -> bool {
        self.start <= self.end
    }
}

/// Both endpoints of `x` and `y` are inclusive: touching intervals overlap.
pub open spec fn overlaps_spec(x: GenomicInterval, y: GenomicInterval) -> bool {
    x.start <= y.end && y.start <= x.end
}

/// The interval spanned by two coordinates given in either order.
pub open spec fn normalized(a: usize, b: usize) -> GenomicInterval {
    if a <= b { GenomicInterval { start: a, end: b } } else { GenomicInterval { start: b, end: a } }
}

/// Orders a pair of coordinates given in either order.
pub fn normalize(a: usize, b: usize) -> (r: GenomicInterval)
    ensures
        r == normalized(a, b),
{
    if a <= b {
        GenomicInterval { start: a, end: b }
    } else {
        GenomicInterval { start: b, end: a }
    }
}

/// Boundary-inclusive overlap test.
pub fn overlaps(x: &GenomicInterval, y: &GenomicInterval) -> (r: bool)
    ensures
        r == overlaps_spec(*x, *y),
{
    x.start <= y.end && y.start <= x.end
}

/// The normalized interval has its endpoints in order and holds exactly the
/// two given coordinates.
pub proof fn lemma_normalize_endpoints(a: usize, b: usize)
    ensures
        normalized(a, b).wf(),
        set![normalized(a, b).start, normalized(a, b).end] == set![a, b],
{
    assert(set![a, b] =~= set![b, a]);
}

/// A point interval overlaps the same point interval.
pub proof fn lemma_point_overlaps_itself(p: usize)
    ensures
        overlaps_spec(GenomicInterval { start: p, end: p }, GenomicInterval { start: p, end: p }),
{
}

/// Coordinates given in either order give the same interval, so they overlap
/// the same intervals.
pub proof fn lemma_normalize_symmetric(a: usize, b: usize, y: GenomicInterval)
    ensures
        normalized(a, b) == normalized(b, a),
        overlaps_spec(normalized(a, b), y) == overlaps_spec(normalized(b, a), y),
{
}

} // verus!
