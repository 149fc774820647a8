//! Admission control: the three-tier counter state that bounds how many
//! workers run at once, one tier for feed fetches, one per site, one overall.
//! The blocking wait around these counters lives with the caller; every
//! transition here keeps each counter inside its cap.
use vstd::prelude::*;
use crate::assoc::{
    assoc_has, assoc_map, distinct_keys, lemma_assoc_map_at, lemma_assoc_map_domain,
    lemma_assoc_map_push, lemma_assoc_map_update, lemma_distinct_push, lemma_distinct_update,
};
use crate::words::count_of;

verus! {

/// Cap on concurrently processed feeds.
pub const MAX_THREADS_FEEDS: u32 = 5;

/// Cap on concurrently fetched articles of one site.
pub const MAX_THREADS_SITES: u32 = 10;

/// Cap on workers of any kind at once.
pub const MAX_THREADS_TOTAL: u32 = 18;

/// The three admission counters: in-flight feed fetches, in-flight article
/// fetches per site, and workers in total.
pub struct ThreadCount {
    pub feeds_count: u32,
    pub total_count: u32,
    pub sites_count: Vec<(String, u32)>,
}

impl ThreadCount {
    /// The per-site counters as a map; a site never seen counts as zero.
    pub open spec fn site_views(&self) -> Seq<(Seq<char>, u32)> {
        self.sites_count@.map_values(|p: (String, u32)| (p.0@, p.1))
    }

    pub open spec fn sites(&self) -> Map<Seq<char>, u32> {
        assoc_map(self.site_views())
    }

    /// Every counter is within its cap.
    pub open spec fn wf(&self) -> bool {
        &&& self.feeds_count <= MAX_THREADS_FEEDS
        &&& self.total_count <= MAX_THREADS_TOTAL
        &&& distinct_keys(self.site_views())
        &&& forall|i: int|
            0 <= i < self.site_views().len() ==> (#[trigger] self.site_views()[i]).1
                <= MAX_THREADS_SITES
    }

    pub fn new() -> (r: ThreadCount)
        ensures
            r.wf(),
            r.feeds_count == 0,
            r.total_count == 0,
            r.sites() == Map::<Seq<char>, u32>::empty(),
    {
        ThreadCount { feeds_count: 0, total_count: 0, sites_count: Vec::new() }
    }

    /// Admit a feed worker if the feed tier has room.
    pub fn try_acquire_feed(&mut self) -> (r: bool)
        requires
            old(self).wf(),
        ensures
            final(self).wf(),
            r <==> old(self).feeds_count < MAX_THREADS_FEEDS,
            r ==> *final(self) == (ThreadCount {
                feeds_count: (old(self).feeds_count + 1) as u32,
                ..*old(self)
            }),
            !r ==> *final(self) == *old(self),
    {
        if self.feeds_count < MAX_THREADS_FEEDS {
            self.feeds_count = self.feeds_count + 1;
            true
        } else {
            false
        }
    }

    /// A feed worker gives its feed-tier slot back.
    pub fn release_feed(&mut self)
        requires
            old(self).wf(),
            old(self).feeds_count > 0,
        ensures
            final(self).wf(),
            *final(self) == (ThreadCount {
                feeds_count: (old(self).feeds_count - 1) as u32,
                ..*old(self)
            }),
    {
        self.feeds_count = self.feeds_count - 1;
    }

    /// Admit a worker if the total tier has room.
    pub fn try_acquire_total(&mut self) -> (r: bool)
        requires
            old(self).wf(),
        ensures
            final(self).wf(),
            r <==> old(self).total_count < MAX_THREADS_TOTAL,
            r ==> *final(self) == (ThreadCount {
                total_count: (old(self).total_count + 1) as u32,
                ..*old(self)
            }),
            !r ==> *final(self) == *old(self),
    {
        if self.total_count < MAX_THREADS_TOTAL {
            self.total_count = self.total_count + 1;
            true
        } else {
            false
        }
    }

    /// A worker gives its total-tier slot back.
    pub fn release_total(&mut self)
        requires
            old(self).wf(),
            old(self).total_count > 0,
        ensures
            final(self).wf(),
            *final(self) == (ThreadCount {
                total_count: (old(self).total_count - 1) as u32,
                ..*old(self)
            }),
    {
        self.total_count = self.total_count - 1;
    }

    /// Admit an article worker for `site` if that site's tier has room; a
    /// site never counted before starts at zero.
    pub fn try_acquire_site(&mut self, site: &String) -> (r: bool)
        requires
            old(self).wf(),
        ensures
            final(self).wf(),
            r <==> count_of(old(self).sites(), site@) < MAX_THREADS_SITES,
            final(self).feeds_count == old(self).feeds_count,
            final(self).total_count == old(self).total_count,
            forall|t: Seq<char>|
                t != site@ ==> count_of(final(self).sites(), t) == count_of(old(self).sites(), t),
            r ==> count_of(final(self).sites(), site@) == count_of(old(self).sites(), site@) + 1,
            !r ==> count_of(final(self).sites(), site@) == count_of(old(self).sites(), site@),
    {
        let ghost sv0 = self.site_views();
        let n = self.sites_count.len();
        let mut i: usize = 0;
        while i < n
            invariant
                n == self.sites_count.len(),
                0 <= i <= n,
                *self == *old(self),
                self.wf(),
                sv0 == self.site_views(),
                sv0.len() == n,
                forall|j: int| 0 <= j < i ==> #[trigger] sv0[j].0 != site@,
            decreases n - i,
        {
            if self.sites_count[i].0 == *site {
                proof {
                    lemma_assoc_map_at(sv0, i as int);
                }
                let c = self.sites_count[i].1;
                if c < MAX_THREADS_SITES {
                    let e = self.sites_count.remove(i);
                    self.sites_count.insert(i, (e.0, c + 1));
                    proof {
                        assert(self.sites_count@ =~= old(self).sites_count@.update(
                            i as int,
                            (e.0, (c + 1) as u32),
                        ));
                        assert(self.site_views() =~= sv0.update(i as int, (site@, (c + 1) as u32)));
                        lemma_assoc_map_update(sv0, i as int, (c + 1) as u32);
                        lemma_distinct_update(sv0, i as int, (c + 1) as u32);
                    }
                    return true;
                } else {
                    return false;
                }
            }
            i = i + 1;
        }
        proof {
            assert(!assoc_has(sv0, site@)) by {
                if assoc_has(sv0, site@) {
                    let j = choose|j: int| 0 <= j < sv0.len() && sv0[j].0 == site@;
                    assert(sv0[j].0 != site@);
                }
            }
            lemma_assoc_map_domain(sv0, site@);
            assert(count_of(old(self).sites(), site@) == 0);
        }
        let s = site.clone();
        self.sites_count.push((s, 1));
        proof {
            assert(self.site_views() =~= sv0.push((site@, 1u32)));
            lemma_assoc_map_push(sv0, site@, 1u32);
            lemma_distinct_push(sv0, site@, 1u32);
        }
        true
    }

    /// An article worker for `site` gives its slot back.
    pub fn release_site(&mut self, site: &String)
        requires
            old(self).wf(),
            count_of(old(self).sites(), site@) > 0,
        ensures
            final(self).wf(),
            final(self).feeds_count == old(self).feeds_count,
            final(self).total_count == old(self).total_count,
            forall|t: Seq<char>|
                t != site@ ==> count_of(final(self).sites(), t) == count_of(old(self).sites(), t),
            count_of(final(self).sites(), site@) == count_of(old(self).sites(), site@) - 1,
    {
        let ghost sv0 = self.site_views();
        let n = self.sites_count.len();
        let mut i: usize = 0;
        while i < n
            invariant
                n == self.sites_count.len(),
                0 <= i <= n,
                *self == *old(self),
                self.wf(),
                count_of(old(self).sites(), site@) > 0,
                sv0 == self.site_views(),
                sv0.len() == n,
                forall|j: int| 0 <= j < i ==> #[trigger] sv0[j].0 != site@,
            decreases n - i,
        {
            if self.sites_count[i].0 == *site {
                proof {
                    lemma_assoc_map_at(sv0, i as int);
                }
                let c = self.sites_count[i].1;
                let e = self.sites_count.remove(i);
                self.sites_count.insert(i, (e.0, c - 1));
                proof {
                    assert(self.sites_count@ =~= old(self).sites_count@.update(
                        i as int,
                        (e.0, (c - 1) as u32),
                    ));
                    assert(self.site_views() =~= sv0.update(i as int, (site@, (c - 1) as u32)));
                    lemma_assoc_map_update(sv0, i as int, (c - 1) as u32);
                    lemma_distinct_update(sv0, i as int, (c - 1) as u32);
                }
                return ;
            }
            i = i + 1;
        }
        proof {
            assert(!assoc_has(sv0, site@)) by {
                if assoc_has(sv0, site@) {
                    let j = choose|j: int| 0 <= j < sv0.len() && sv0[j].0 == site@;
                    assert(sv0[j].0 != site@);
                }
            }
            lemma_assoc_map_domain(sv0, site@);
            assert(false);
        }
    }
}

/// Admission bound invariant: in every well-formed counter state, each tier
/// sits between zero and its cap — the feed tier, the total tier, and every
/// site's tier, counted or not.
pub proof fn lemma_admission_bounds(tc: ThreadCount, site: Seq<char>)
    requires
        tc.wf(),
    ensures
        0 <= tc.feeds_count <= MAX_THREADS_FEEDS,
        0 <= tc.total_count <= MAX_THREADS_TOTAL,
        0 <= count_of(tc.sites(), site) <= MAX_THREADS_SITES,
{
    if tc.sites().contains_key(site) {
        lemma_assoc_map_domain(tc.site_views(), site);
        let i = choose|i: int| 0 <= i < tc.site_views().len() && tc.site_views()[i].0 == site;
        lemma_assoc_map_at(tc.site_views(), i);
    }
}

} // verus!
