//! Per-article word occurrence counts: one article's contribution to the
//! index, as a map from case-folded word to number of occurrences.
use vstd::prelude::*;
use crate::assoc::{
    assoc_has, assoc_map, distinct_keys, lemma_assoc_map_at, lemma_assoc_map_domain,
    lemma_assoc_map_push, lemma_assoc_map_update, lemma_distinct_push, lemma_distinct_update,
};

verus! {

/// Occurrence counts saturate instead of overflowing.
pub open spec fn sat_add(a: u32, b: u32) -> u32 {
    if a + b > u32::MAX {
        u32::MAX
    } else {
        (a + b) as u32
    }
}

/// The count a map gives a word, zero for an absent word.
pub open spec fn count_of(m: Map<Seq<char>, u32>, w: Seq<char>) -> u32 {
    if m.contains_key(w) {
        m[w]
    } else {
        0
    }
}

/// Pointwise merge of two count maps: counts add, saturating.
pub open spec fn merge_counts(a: Map<Seq<char>, u32>, b: Map<Seq<char>, u32>) -> Map<
    Seq<char>,
    u32,
> {
    Map::new(
        |w: Seq<char>| a.contains_key(w) || b.contains_key(w),
        |w: Seq<char>| sat_add(count_of(a, w), count_of(b, w)),
    )
}

/// Add two counts without overflowing.
pub fn add_counts(a: u32, b: u32) -> (r: u32)
    ensures
        r == sat_add(a, b),
{
    if b > u32::MAX - a {
        u32::MAX
    } else {
        a + b
    }
}

/// One article's word-occurrence counts.
pub struct WordCounts {
    pub entries: Vec<(String, u32)>,
}

impl View for WordCounts {
    type V = Map<Seq<char>, u32>;

    open spec fn view(&self) -> Map<Seq<char>, u32> {
        assoc_map(self.entry_views())
    }
}

impl WordCounts {
    /// The entries as pairs of character sequences and counts.
    pub open spec fn entry_views(&self) -> Seq<(Seq<char>, u32)> {
        self.entries@.map_values(|p: (String, u32)| (p.0@, p.1))
    }

    /// Each word occurs in at most one entry.
    pub open spec fn wf(&self) -> bool {
        distinct_keys(self.entry_views())
    }

    /// An empty contribution.
    pub fn new() -> (r: WordCounts)
        ensures
            r.wf(),
            r@ == Map::<Seq<char>, u32>::empty(),
    {
        WordCounts { entries: Vec::new() }
    }

    /// Record `c` further occurrences of `w`.
    pub fn add_count(&mut self, w: &String, c: u32)
        requires
            old(self).wf(),
        ensures
            final(self).wf(),
            final(self)@ == old(self)@.insert(w@, sat_add(count_of(old(self)@, w@), c)),
    {
        let ghost ev0 = self.entry_views();
        let n = self.entries.len();
        let mut i: usize = 0;
        while i < n
            invariant
                n == self.entries.len(),
                0 <= i <= n,
                *self == *old(self),
                self.wf(),
                ev0 == self.entry_views(),
                ev0.len() == n,
                forall|j: int| 0 <= j < i ==> #[trigger] self.entry_views()[j].0 != w@,
            decreases n - i,
        {
            if self.entries[i].0 == *w {
                let e = self.entries.remove(i);
                let merged = add_counts(e.1, c);
                self.entries.insert(i, (e.0, merged));
                proof {
                    assert(self.entries@ =~= old(self).entries@.update(
                        i as int,
                        (e.0, merged),
                    ));
                    assert(self.entry_views() =~= ev0.update(i as int, (w@, merged)));
                    assert(ev0[i as int].0 == w@);
                    lemma_assoc_map_at(ev0, i as int);
                    lemma_assoc_map_update(ev0, i as int, merged);
                    lemma_distinct_update(ev0, i as int, merged);
                }
                return ;
            }
            i = i + 1;
        }
        let word = w.clone();
        self.entries.push((word, c));
        proof {
            assert(self.entry_views() =~= ev0.push((w@, c)));
            assert(!assoc_has(ev0, w@)) by {
                if assoc_has(ev0, w@) {
                    let j = choose|j: int| 0 <= j < ev0.len() && ev0[j].0 == w@;
                    assert(old(self).entry_views()[j].0 != w@);
                }
            }
            lemma_assoc_map_domain(ev0, w@);
            lemma_assoc_map_push(ev0, w@, c);
            lemma_distinct_push(ev0, w@, c);
            assert(count_of(old(self)@, w@) == 0);
        }
    }

    /// A copy of this contribution with the same counts.
    pub fn duplicate(&self) -> (r: WordCounts)
        ensures
            r.entry_views() == self.entry_views(),
            r@ == self@,
            r.wf() <==> self.wf(),
    {
        let n = self.entries.len();
        let mut out: Vec<(String, u32)> = Vec::new();
        let mut i: usize = 0;
        while i < n
            invariant
                n == self.entries.len(),
                0 <= i <= n,
                out@.len() == i,
                forall|k: int|
                    0 <= k < i ==> ((#[trigger] out@[k]).0@, out@[k].1) == (
                        self.entries@[k].0@,
                        self.entries@[k].1,
                    ),
            decreases n - i,
        {
            let w = self.entries[i].0.clone();
            let c = self.entries[i].1;
            out.push((w, c));
            i = i + 1;
        }
        let r = WordCounts { entries: out };
        proof {
            assert(r.entry_views() =~= self.entry_views());
        }
        r
    }

    /// Merge every count of `other` into this contribution.
    pub fn merge_from(&mut self, other: &WordCounts)
        requires
            old(self).wf(),
            other.wf(),
        ensures
            final(self).wf(),
            final(self)@ == merge_counts(old(self)@, other@),
    {
        let ghost orig = old(self)@;
        let ghost oev = other.entry_views();
        let n = other.entries.len();
        let mut j: usize = 0;
        while j < n
            invariant
                n == other.entries.len(),
                0 <= j <= n,
                other.wf(),
                oev == other.entry_views(),
                self.wf(),
                self@ == merge_counts(orig, assoc_map(oev.take(j as int))),
            decreases n - j,
        {
            let ghost m0 = self@;
            let ghost a = assoc_map(oev.take(j as int));
            let ghost w = oev[j as int].0;
            let ghost c = oev[j as int].1;
            proof {
                assert(!assoc_has(oev.take(j as int), w)) by {
                    if assoc_has(oev.take(j as int), w) {
                        let k = choose|k: int|
                            0 <= k < oev.take(j as int).len() && oev.take(j as int)[k].0 == w;
                        assert(oev[k].0 == oev[j as int].0);
                    }
                }
                lemma_assoc_map_domain(oev.take(j as int), w);
                assert(count_of(m0, w) == count_of(orig, w));
            }
            let cnt = other.entries[j].1;
            self.add_count(&other.entries[j].0, cnt);
            proof {
                assert(oev.take(j + 1) =~= oev.take(j as int).push((w, c)));
                lemma_assoc_map_push(oev.take(j as int), w, c);
                assert(self@ =~= merge_counts(orig, assoc_map(oev.take(j + 1)))) by {
                    assert(assoc_map(oev.take(j + 1)) == a.insert(w, c));
                    assert(forall|x: Seq<char>|
                        x != w ==> count_of(a.insert(w, c), x) == count_of(a, x));
                    assert(count_of(a.insert(w, c), w) == c);
                }
            }
            j = j + 1;
        }
        proof {
            assert(oev.take(n as int) =~= oev);
        }
    }
}

} // verus!
