use vstd::prelude::*;
use vstd::multiset::Multiset;
use intervaltree::{Element, IntervalTree};
use crate::interval::{GenomicInterval, overlaps_spec};

verus! {

#[verifier::external_type_specification]
#[verifier::external_body]
#[verifier::reject_recursive_types(K)]
#[verifier::reject_recursive_types(V)]
pub struct ExIntervalTree<K, V>(IntervalTree<K, V>);

/// What a tree holds: each element as (range start, range end, value).
pub uninterp spec fn tree_entries(t: IntervalTree<u128, usize>) -> Multiset<(u128, u128, usize)>;

/// Relies on `IntervalTree::from_iter`: the tree holds exactly the given elements.
#[verifier::external_body]
fn tree_from_entries(entries: Vec<(u128, u128, usize)>) -> (t: IntervalTree<u128, usize>)
    ensures
        tree_entries(t) == entries@.to_multiset(),
{
    entries.into_iter().map(|(s, e, v)| Element { range: s..e, value: v }).collect()
}

/// Relies on `IntervalTree::query`: it yields the elements whose half-open range
/// meets `lo..hi`, visiting each element of the tree at most once; so where no
/// two elements share a value, no value is yielded twice.
#[verifier::external_body]
fn tree_query(t: &IntervalTree<u128, usize>, lo: u128, hi: u128) -> (r: Vec<usize>)
    ensures
        forall|j: int| 0 <= j < r@.len() ==> exists|e: (u128, u128, usize)|
            #![trigger tree_entries(*t).contains(e)]
            tree_entries(*t).contains(e) && e.2 == #[trigger] r@[j] && lo < e.1 && e.0 < hi,
        forall|e: (u128, u128, usize)| #![trigger tree_entries(*t).contains(e)]
            tree_entries(*t).contains(e) && lo < e.1 && e.0 < hi ==> r@.contains(e.2),
        (forall|e: (u128, u128, usize)| #![trigger tree_entries(*t).count(e)]
            tree_entries(*t).contains(e) ==> tree_entries(*t).count(e) == 1)
            && (forall|e1: (u128, u128, usize), e2: (u128, u128, usize)|
                #![trigger tree_entries(*t).contains(e1), tree_entries(*t).contains(e2)]
                tree_entries(*t).contains(e1) && tree_entries(*t).contains(e2) && e1.2 == e2.2 ==> e1 == e2)
            ==> r@.no_duplicates(),
{
    t.query(lo..hi).map(|e| e.value).collect()
}

/// The tree entry that stands for interval `iv` at position `i`: the closed
/// interval becomes the half-open range `start..end + 1`.
pub open spec fn entry_of(iv: GenomicInterval, i: usize) -> (u128, u128, usize) {
    (iv.start as u128, (iv.end + 1) as u128, i)
}

/// A static index over a sequence of intervals, answering overlap queries.
pub struct IntervalIndex {
    tree: IntervalTree<u128, usize>,
}

impl IntervalIndex {
    /// The index holds one entry for each interval of `ivs`, tagged with its position.
    pub closed spec fn indexes(self, ivs: Seq<GenomicInterval>) -> bool {
        &&& ivs.len() <= usize::MAX
        &&& tree_entries(self.tree) == Seq::new(ivs.len(), |i: int| entry_of(ivs[i], i as usize)).to_multiset()
    }

    /// Builds the index over `ivs`; a value found by a query is a position in `ivs`.
    pub fn build(ivs: &Vec<GenomicInterval>) -> (r: IntervalIndex)
        ensures
            r.indexes(ivs@),
    {
        let mut entries: Vec<(u128, u128, usize)> = Vec::new();
        let mut i: usize = 0;
        while i < ivs.len()
            invariant
                i <= ivs@.len(),
                entries@ == Seq::new(i as nat, |k: int| entry_of(ivs@[k], k as usize)),
            decreases ivs@.len() - i,
        {
            let iv = ivs[i];
            entries.push((iv.start as u128, iv.end as u128 + 1, i));
            i = i + 1;
            assert(entries@ =~= Seq::new(i as nat, |k: int| entry_of(ivs@[k], k as usize)));
        }
        IntervalIndex { tree: tree_from_entries(entries) }
    }

    /// The positions of all indexed intervals that overlap `q`, endpoints
    /// included; in no particular order.
    pub fn query(&self, q: &GenomicInterval, ivs: Ghost<Seq<GenomicInterval>>) -> (r: Vec<usize>)
        requires
            self.indexes(ivs@),
            q.wf(),
            forall|i: int| 0 <= i < ivs@.len() ==> (#[trigger] ivs@[i]).wf(),
        ensures
            forall|j: int| 0 <= j < r@.len() ==> r@[j] < ivs@.len() && overlaps_spec(*q, ivs@[r@[j] as int]),
            forall|i: int| 0 <= i < ivs@.len() && overlaps_spec(*q, #[trigger] ivs@[i]) ==> r@.contains(i as usize),
            r@.no_duplicates(),
    {
        let r = tree_query(&self.tree, q.start as u128, q.end as u128 + 1);
        proof {
            let s = Seq::new(ivs@.len(), |i: int| entry_of(ivs@[i], i as usize));
            s.to_multiset_ensures();
            assert(s.no_duplicates()) by {
                assert forall|a: int, b: int| 0 <= a < s.len() && 0 <= b < s.len() && a != b implies s[a] != s[b] by {
                    assert(s[a].2 == a as usize && s[b].2 == b as usize);
                }
            }
            s.lemma_multiset_has_no_duplicates();
            assert forall|e1: (u128, u128, usize), e2: (u128, u128, usize)|
                tree_entries(self.tree).contains(e1) && tree_entries(self.tree).contains(e2) && e1.2 == e2.2 implies e1 == e2 by {
                assert(s.contains(e1) && s.contains(e2));
                let k1 = choose|k: int| 0 <= k < s.len() && s[k] == e1;
                let k2 = choose|k: int| 0 <= k < s.len() && s[k] == e2;
                assert(s[k1] == entry_of(ivs@[k1], k1 as usize));
                assert(s[k2] == entry_of(ivs@[k2], k2 as usize));
            }
            assert forall|j: int| 0 <= j < r@.len() implies r@[j] < ivs@.len() && overlaps_spec(*q, ivs@[r@[j] as int]) by {
                let e = choose|e: (u128, u128, usize)| tree_entries(self.tree).contains(e) && e.2 == r@[j] && (q.start as u128) < e.1 && e.0 < (q.end as u128 + 1);
                assert(s.contains(e));
                let k = choose|k: int| 0 <= k < s.len() && s[k] == e;
                assert(s[k] == entry_of(ivs@[k], k as usize));
                assert(r@[j] as int == k);
            }
            assert forall|i: int| 0 <= i < ivs@.len() && overlaps_spec(*q, #[trigger] ivs@[i]) implies r@.contains(i as usize) by {
                assert(s[i] == entry_of(ivs@[i], i as usize));
                assert(s.contains(s[i]));
                assert(tree_entries(self.tree).contains(s[i]));
            }
        }
        r
    }
}

} // verus!
