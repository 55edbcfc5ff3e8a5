use vstd::prelude::*;
use crate::interval::{GenomicInterval, overlaps_spec};
use crate::index::IntervalIndex;

verus! {

/// One sequencing read.
pub struct ReadRecord {
    pub strand: String,
    pub chromosome: String,
    pub interval: GenomicInterval,
}

/// One annotated gene.
pub struct GeneRecord {
    pub name: String,
    pub strand: String,
    pub chromosome: String,
    pub interval: GenomicInterval,
}

/// A gene's identity and the number of reads that overlap it on its strand
/// and chromosome.
pub struct GeneResult {
    pub name: String,
    pub strand: String,
    pub chromosome: String,
    pub intersections: u32,
}

pub open spec fn intervals_of(reads: Seq<ReadRecord>) -> Seq<GenomicInterval> {
    reads.map_values(|r: ReadRecord| r.interval)
}

pub open spec fn reads_wf(reads: Seq<ReadRecord>) -> bool {
    forall|i: int| 0 <= i < reads.len() ==> (#[trigger] reads[i]).interval.wf()
}

/// Exact, case-sensitive equality of strand and chromosome.
pub open spec fn same_attributes(g: GeneRecord, r: ReadRecord) -> bool {
    g.strand@ == r.strand@ && g.chromosome@ == r.chromosome@
}

/// How many of the candidate positions name a read with the gene's attributes.
pub open spec fn attribute_count(g: GeneRecord, reads: Seq<ReadRecord>, cands: Seq<usize>) -> nat
    decreases cands.len(),
{
    if cands.len() == 0 {
        0
    } else {
        attribute_count(g, reads, cands.drop_last())
            + if same_attributes(g, reads[cands.last() as int]) { 1nat } else { 0nat }
    }
}

pub open spec fn saturate(n: nat) -> nat {
    if n <= u32::MAX { n } else { u32::MAX as nat }
}

/// The candidates are exactly the positions of the reads that overlap `iv`.
pub open spec fn candidates_for(iv: GenomicInterval, reads: Seq<ReadRecord>, cands: Seq<usize>) -> bool {
    &&& forall|j: int| 0 <= j < cands.len() ==> #[trigger] cands[j] < reads.len()
        && overlaps_spec(iv, reads[cands[j] as int].interval)
    &&& forall|i: int| 0 <= i < reads.len() && overlaps_spec(iv, (#[trigger] reads[i]).interval)
        ==> cands.contains(i as usize)
}

/// The positions of the reads that overlap the gene and share its strand and
/// chromosome.
pub open spec fn matching_reads(g: GeneRecord, reads: Seq<ReadRecord>) -> Set<usize> {
    Set::new(|i: usize| (i as int) < reads.len() && overlaps_spec(g.interval, reads[i as int].interval)
        && same_attributes(g, reads[i as int]))
}

/// `r` carries the gene's identity and the saturated number of reads that
/// overlap the gene and share its strand and chromosome.
pub open spec fn is_result_for(g: GeneRecord, reads: Seq<ReadRecord>, r: GeneResult) -> bool {
    &&& r.name@ == g.name@
    &&& r.strand@ == g.strand@
    &&& r.chromosome@ == g.chromosome@
    &&& matching_reads(g, reads).finite()
    &&& r.intersections as nat == saturate(matching_reads(g, reads).len())
}

pub open spec fn has_attributes(g: GeneRecord, reads: Seq<ReadRecord>) -> spec_fn(usize) -> bool {
    |i: usize| same_attributes(g, reads[i as int])
}

/// Over candidates without repetition, the count is the size of the set of
/// candidates with the gene's attributes.
proof fn lemma_attribute_count_set(g: GeneRecord, reads: Seq<ReadRecord>, c: Seq<usize>)
    requires
        c.no_duplicates(),
    ensures
        c.to_set().filter(has_attributes(g, reads)).finite(),
        attribute_count(g, reads, c) == c.to_set().filter(has_attributes(g, reads)).len(),
    decreases c.len(),
{
    let p = has_attributes(g, reads);
    if c.len() == 0 {
        assert(c.to_set().filter(p) =~= Set::empty());
    } else {
        let d = c.drop_last();
        let x = c.last();
        assert(d.no_duplicates()) by {
            assert forall|a: int, b: int| 0 <= a < d.len() && 0 <= b < d.len() && a != b implies d[a] != d[b] by {
                assert(d[a] == c[a] && d[b] == c[b]);
            }
        }
        lemma_attribute_count_set(g, reads, d);
        assert(!d.contains(x)) by {
            if d.contains(x) {
                let k = choose|k: int| 0 <= k < d.len() && d[k] == x;
                assert(c[k] == c[c.len() - 1]);
            }
        }
        assert(c.to_set() =~= d.to_set().insert(x)) by {
            assert forall|y: usize| c.to_set().contains(y) == d.to_set().insert(x).contains(y) by {
                if c.contains(y) {
                    let k = choose|k: int| 0 <= k < c.len() && c[k] == y;
                    if k < c.len() - 1 {
                        assert(d[k] == y);
                    }
                }
                if d.contains(y) {
                    let k = choose|k: int| 0 <= k < d.len() && d[k] == y;
                    assert(c[k] == y);
                }
                assert(c[c.len() - 1] == x);
            }
        }
        let fd = d.to_set().filter(p);
        assert(!fd.contains(x));
        if p(x) {
            assert(c.to_set().filter(p) =~= fd.insert(x));
        } else {
            assert(c.to_set().filter(p) =~= fd);
        }
    }
}

/// Counts the candidates whose read has the gene's strand and chromosome,
/// saturating at `u32::MAX`.
pub fn count_matches(gene: &GeneRecord, reads: &Vec<ReadRecord>, candidates: &Vec<usize>) -> (r: u32)
    requires
        forall|j: int| 0 <= j < candidates@.len() ==> #[trigger] candidates@[j] < reads@.len(),
    ensures
        r as nat == saturate(attribute_count(*gene, reads@, candidates@)),
{
    let mut count: u32 = 0;
    let mut i: usize = 0;
    while i < candidates.len()
        invariant
            i <= candidates@.len(),
            forall|j: int| 0 <= j < candidates@.len() ==> #[trigger] candidates@[j] < reads@.len(),
            count as nat == saturate(attribute_count(*gene, reads@, candidates@.take(i as int))),
        decreases candidates@.len() - i,
    {
        let read = &reads[candidates[i]];
        assert(candidates@.take(i + 1).drop_last() =~= candidates@.take(i as int));
        if read.strand == gene.strand && read.chromosome == gene.chromosome {
            count = count.saturating_add(1);
        }
        i = i + 1;
    }
    assert(candidates@.take(i as int) =~= candidates@);
    count
}

/// Builds the index over the reads' intervals; a query answers read positions.
pub fn build_read_index(reads: &Vec<ReadRecord>) -> (r: IntervalIndex)
    ensures
        r.indexes(intervals_of(reads@)),
{
    let mut ivs: Vec<GenomicInterval> = Vec::new();
    let mut i: usize = 0;
    while i < reads.len()
        invariant
            i <= reads@.len(),
            ivs@ == intervals_of(reads@).take(i as int),
        decreases reads@.len() - i,
    {
        ivs.push(reads[i].interval);
        i = i + 1;
        assert(ivs@ =~= intervals_of(reads@).take(i as int));
    }
    assert(ivs@ =~= intervals_of(reads@));
    IntervalIndex::build(&ivs)
}

/// Counts, for one gene, the overlapping reads on its strand and chromosome.
pub fn count_overlaps(gene: &GeneRecord, reads: &Vec<ReadRecord>, index: &IntervalIndex) -> (r: GeneResult)
    requires
        index.indexes(intervals_of(reads@)),
        gene.interval.wf(),
        reads_wf(reads@),
    ensures
        is_result_for(*gene, reads@, r),
{
    proof {
        assert forall|i: int| 0 <= i < intervals_of(reads@).len() implies (#[trigger] intervals_of(reads@)[i]).wf() by {
            assert(reads@[i].interval.wf());
        }
    }
    let cands = index.query(&gene.interval, Ghost(intervals_of(reads@)));
    proof {
        assert forall|j: int| 0 <= j < cands@.len() implies #[trigger] cands@[j] < reads@.len()
            && overlaps_spec(gene.interval, reads@[cands@[j] as int].interval) by {
            assert(intervals_of(reads@)[cands@[j] as int] == reads@[cands@[j] as int].interval);
        }
        assert forall|i: int| 0 <= i < reads@.len() && overlaps_spec(gene.interval, (#[trigger] reads@[i]).interval)
            implies cands@.contains(i as usize) by {
            assert(intervals_of(reads@)[i] == reads@[i].interval);
        }
    }
    let n = count_matches(gene, reads, &cands);
    proof {
        lemma_attribute_count_set(*gene, reads@, cands@);
        assert(cands@.to_set().filter(has_attributes(*gene, reads@)) =~= matching_reads(*gene, reads@));
    }
    GeneResult {
        name: gene.name.clone(),
        strand: gene.strand.clone(),
        chromosome: gene.chromosome.clone(),
        intersections: n,
    }
}

/// The result for each gene, in the genes' order.
pub fn count_all(genes: &Vec<GeneRecord>, reads: &Vec<ReadRecord>, index: &IntervalIndex) -> (r: Vec<GeneResult>)
    requires
        index.indexes(intervals_of(reads@)),
        forall|i: int| 0 <= i < genes@.len() ==> (#[trigger] genes@[i]).interval.wf(),
        reads_wf(reads@),
    ensures
        r@.len() == genes@.len(),
        forall|i: int| 0 <= i < genes@.len() ==> is_result_for(genes@[i], reads@, #[trigger] r@[i]),
{
    let mut out: Vec<GeneResult> = Vec::new();
    let mut i: usize = 0;
    while i < genes.len()
        invariant
            i <= genes@.len(),
            out@.len() == i,
            index.indexes(intervals_of(reads@)),
            forall|k: int| 0 <= k < genes@.len() ==> (#[trigger] genes@[k]).interval.wf(),
            reads_wf(reads@),
            forall|k: int| 0 <= k < i ==> is_result_for(genes@[k], reads@, #[trigger] out@[k]),
        decreases genes@.len() - i,
    {
        let g = count_overlaps(&genes[i], reads, index);
        let ghost prev = out@;
        out.push(g);
        assert forall|k: int| 0 <= k < i + 1 implies is_result_for(genes@[k], reads@, #[trigger] out@[k]) by {
            if k < i {
                assert(out@[k] == prev[k]);
            }
        }
        i = i + 1;
    }
    out
}

pub open spec fn sum_intersections(rs: Seq<GeneResult>) -> nat
    decreases rs.len(),
{
    if rs.len() == 0 {
        0
    } else {
        sum_intersections(rs.drop_last()) + rs.last().intersections as nat
    }
}

/// The sum of the counts of all results.
pub fn total_intersections(rs: &Vec<GeneResult>) -> (r: u128)
    ensures
        r as nat == sum_intersections(rs@),
{
    let mut total: u128 = 0;
    let mut i: usize = 0;
    while i < rs.len()
        invariant
            i <= rs@.len(),
            total as nat == sum_intersections(rs@.take(i as int)),
            total <= i * (u32::MAX as nat),
            i <= usize::MAX,
        decreases rs@.len() - i,
    {
        assert(rs@.take(i + 1).drop_last() =~= rs@.take(i as int));
        proof {
            assert((i + 1) * (u32::MAX as nat) == i * (u32::MAX as nat) + u32::MAX) by (nonlinear_arith);
            assert(i * (u32::MAX as nat) <= usize::MAX * (u32::MAX as nat)) by (nonlinear_arith) requires i <= usize::MAX;
        }
        total = total + rs[i].intersections as u128;
        i = i + 1;
    }
    assert(rs@.take(i as int) =~= rs@);
    total
}

/// The number of (gene, read) pairs that overlap and share strand and chromosome.
pub open spec fn pair_count(genes: Seq<GeneRecord>, reads: Seq<ReadRecord>) -> nat
    decreases genes.len(),
{
    if genes.len() == 0 {
        0
    } else {
        pair_count(genes.drop_last(), reads) + matching_reads(genes.last(), reads).len()
    }
}

/// Where no gene's count reaches past `u32::MAX`, the counts of the results for
/// a sequence of genes sum to the number of matching (gene, read) pairs.
pub proof fn lemma_total_is_pair_count(genes: Seq<GeneRecord>, reads: Seq<ReadRecord>, rs: Seq<GeneResult>)
    requires
        rs.len() == genes.len(),
        forall|i: int| 0 <= i < genes.len() ==> is_result_for(genes[i], reads, #[trigger] rs[i]),
        forall|i: int| 0 <= i < genes.len() ==> matching_reads(#[trigger] genes[i], reads).len() <= u32::MAX,
    ensures
        sum_intersections(rs) == pair_count(genes, reads),
    decreases genes.len(),
{
    if genes.len() > 0 {
        let n = (genes.len() - 1) as int;
        assert forall|i: int| 0 <= i < n implies is_result_for(genes.drop_last()[i], reads, #[trigger] rs.drop_last()[i]) by {
            assert(genes.drop_last()[i] == genes[i] && rs.drop_last()[i] == rs[i]);
        }
        assert forall|i: int| 0 <= i < n implies matching_reads(#[trigger] genes.drop_last()[i], reads).len() <= u32::MAX by {
            assert(genes.drop_last()[i] == genes[i]);
        }
        lemma_total_is_pair_count(genes.drop_last(), reads, rs.drop_last());
        assert(is_result_for(genes[n], reads, rs[n]));
        assert(matching_reads(genes[n], reads).len() <= u32::MAX);
    }
}

/// Two runs over the same genes and reads give the same results, field by
/// field and in the same order.
pub proof fn lemma_results_deterministic(
    genes: Seq<GeneRecord>,
    reads: Seq<ReadRecord>,
    r1: Seq<GeneResult>,
    r2: Seq<GeneResult>,
)
    requires
        r1.len() == genes.len(),
        r2.len() == genes.len(),
        forall|i: int| 0 <= i < genes.len() ==> is_result_for(genes[i], reads, #[trigger] r1[i]),
        forall|i: int| 0 <= i < genes.len() ==> is_result_for(genes[i], reads, #[trigger] r2[i]),
    ensures
        forall|i: int| 0 <= i < genes.len() ==> {
            &&& (#[trigger] r1[i]).name@ == r2[i].name@
            &&& r1[i].strand@ == r2[i].strand@
            &&& r1[i].chromosome@ == r2[i].chromosome@
            &&& r1[i].intersections == r2[i].intersections
        },
{
    assert forall|i: int| 0 <= i < genes.len() implies {
        &&& (#[trigger] r1[i]).name@ == r2[i].name@
        &&& r1[i].strand@ == r2[i].strand@
        &&& r1[i].chromosome@ == r2[i].chromosome@
        &&& r1[i].intersections == r2[i].intersections
    } by {
        assert(is_result_for(genes[i], reads, r2[i]));
    }
}

} // verus!
