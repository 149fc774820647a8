//! The crawl orchestrator's merge logic, in the three concurrency strategies:
//! purely sequential, gated by the three-tier admission counters, and driven
//! through two fixed-size worker pools. Fetching and tokenizing are the
//! caller's outside work; each strategy here takes the contributions those
//! calls produced and builds the same finalized index from them.
use vstd::prelude::*;
use crate::admission::ThreadCount;
use crate::index::{build_index, transpose, words_at, ArticleIndex, RssIndex};
use crate::pool::PoolModel;
use crate::words::{count_of, merge_counts, WordCounts};

verus! {

/// Workers of the feed pool.
pub const SIZE_FEEDS_POOL: u32 = 3;

/// Workers of the article pool, shared by all feeds.
pub const SIZE_SITES_POOL: u32 = 20;

/// One article's tokenized outcome: where it came from and its word counts.
pub struct Contribution {
    pub site: String,
    pub title: String,
    pub url: String,
    pub words: WordCounts,
}

impl Contribution {
    /// The article key this contribution is merged under.
    pub open spec fn key(&self) -> (Seq<char>, Seq<char>) {
        (self.title@, self.url@)
    }

    pub open spec fn wf(&self) -> bool {
        self.words.wf()
    }
}

/// One fetched feed: its descriptor and the contributions of its articles.
pub struct FeedWork {
    pub url: String,
    pub title: String,
    pub articles: Vec<Contribution>,
}

impl FeedWork {
    pub open spec fn wf(&self) -> bool {
        forall|j: int| 0 <= j < self.articles@.len() ==> (#[trigger] self.articles@[j]).wf()
    }
}

pub open spec fn feeds_wf(s: Seq<FeedWork>) -> bool {
    forall|i: int| 0 <= i < s.len() ==> (#[trigger] s[i]).wf()
}

/// Merging one contribution into an accumulator state.
pub open spec fn add_contrib(
    m: Map<(Seq<char>, Seq<char>), Map<Seq<char>, u32>>,
    c: Contribution,
) -> Map<(Seq<char>, Seq<char>), Map<Seq<char>, u32>> {
    m.insert(c.key(), merge_counts(words_at(m, c.key()), c.words@))
}

/// The accumulator state after merging a sequence of contributions in order.
pub open spec fn acc_of(s: Seq<Contribution>) -> Map<
    (Seq<char>, Seq<char>),
    Map<Seq<char>, u32>,
>
    decreases s.len(),
{
    if s.len() == 0 {
        Map::empty()
    } else {
        add_contrib(acc_of(s.drop_last()), s.last())
    }
}

/// All contributions of a crawl, feed by feed in order.
pub open spec fn contribs_of(fs: Seq<FeedWork>) -> Seq<Contribution>
    decreases fs.len(),
{
    if fs.len() == 0 {
        Seq::empty()
    } else {
        contribs_of(fs.drop_last()) + fs.last().articles@
    }
}

/// The finalized index a crawl over `fs` denotes, whatever bounds the
/// dispatch: the transpose of the merged accumulator.
pub open spec fn crawl_spec(fs: Seq<FeedWork>) -> Map<
    Seq<char>,
    Map<(Seq<char>, Seq<char>), u32>,
> {
    transpose(acc_of(contribs_of(fs)))
}

proof fn lemma_acc_of_snoc(s: Seq<Contribution>, c: Contribution)
    ensures
        acc_of(s.push(c)) == add_contrib(acc_of(s), c),
{
    assert(s.push(c).drop_last() =~= s);
    assert(s.push(c).last() == c);
}

proof fn lemma_contribs_of_snoc(fs: Seq<FeedWork>, f: FeedWork)
    ensures
        contribs_of(fs.push(f)) == contribs_of(fs) + f.articles@,
{
    assert(fs.push(f).drop_last() =~= fs);
    assert(fs.push(f).last() == f);
}

/// The sequential reference strategy: merge every contribution in order,
/// then finalize. The result denotes exactly the crawl's index.
pub fn build_single(feeds: &Vec<FeedWork>) -> (r: RssIndex)
    requires
        feeds_wf(feeds@),
    ensures
        r.wf(),
        r@ == crawl_spec(feeds@),
{
    let mut acc = ArticleIndex::new();
    let n = feeds.len();
    let mut i: usize = 0;
    proof {
        assert(contribs_of(feeds@.take(0)) =~= Seq::empty());
    }
    while i < n
        invariant
            n == feeds.len(),
            0 <= i <= n,
            feeds_wf(feeds@),
            acc.wf(),
            acc@ == acc_of(contribs_of(feeds@.take(i as int))),
        decreases n - i,
    {
        let f = &feeds[i];
        let m = f.articles.len();
        let mut j: usize = 0;
        while j < m
            invariant
                n == feeds.len(),
                0 <= i < n,
                m == feeds@[i as int].articles@.len(),
                0 <= j <= m,
                feeds_wf(feeds@),
                acc.wf(),
                acc@ == acc_of(
                    contribs_of(feeds@.take(i as int)) + feeds@[i as int].articles@.take(j as int),
                ),
            decreases m - j,
        {
            let f2 = &feeds[i];
            let c = &f2.articles[j];
            let ghost pre = contribs_of(feeds@.take(i as int)) + feeds@[
                i as int
            ].articles@.take(j as int);
            proof {
                assert((feeds@[i as int]).wf());
                assert((feeds@[i as int].articles@[j as int]).wf());
            }
            acc.add(c.site.clone(), c.title.clone(), c.url.clone(), c.words.duplicate());
            proof {
                lemma_acc_of_snoc(pre, feeds@[i as int].articles@[j as int]);
                assert(contribs_of(feeds@.take(i as int)) + feeds@[i as int].articles@.take(j + 1)
                    =~= pre.push(feeds@[i as int].articles@[j as int]));
            }
            j = j + 1;
        }
        proof {
            assert(feeds@[i as int].articles@.take(m as int) =~= feeds@[i as int].articles@);
            assert(feeds@.take(i + 1) =~= feeds@.take(i as int).push(feeds@[i as int]));
            lemma_contribs_of_snoc(feeds@.take(i as int), feeds@[i as int]);
        }
        i = i + 1;
    }
    proof {
        assert(feeds@.take(n as int) =~= feeds@);
    }
    let mut rss = RssIndex::new();
    build_index(&acc, &mut rss);
    rss
}

/// The dynamic strategy: every merge runs under the three-tier admission
/// protocol — feed tier then total tier around a feed, site tier then total
/// tier around an article, released in opposite order — and the result is
/// the same index the sequential strategy builds.
pub fn build_multi(feeds: &Vec<FeedWork>) -> (r: RssIndex)
    requires
        feeds_wf(feeds@),
    ensures
        r.wf(),
        r@ == crawl_spec(feeds@),
{
    let mut acc = ArticleIndex::new();
    let mut tc = ThreadCount::new();
    let n = feeds.len();
    let mut i: usize = 0;
    proof {
        assert(contribs_of(feeds@.take(0)) =~= Seq::empty());
    }
    while i < n
        invariant
            n == feeds.len(),
            0 <= i <= n,
            feeds_wf(feeds@),
            acc.wf(),
            acc@ == acc_of(contribs_of(feeds@.take(i as int))),
            tc.wf(),
            tc.feeds_count == 0,
            tc.total_count == 0,
            forall|t: Seq<char>| count_of(tc.sites(), t) == 0,
        decreases n - i,
    {
        let ghost sites0 = tc.sites();
        let _ok_feed = tc.try_acquire_feed();
        let _ok_total = tc.try_acquire_total();
        proof {
            assert(_ok_feed && _ok_total);
            assert(tc.sites() == sites0);
            assert(forall|t: Seq<char>| count_of(tc.sites(), t) == 0);
        }
        let f = &feeds[i];
        let m = f.articles.len();
        let mut j: usize = 0;
        while j < m
            invariant
                n == feeds.len(),
                0 <= i < n,
                m == feeds@[i as int].articles@.len(),
                0 <= j <= m,
                feeds_wf(feeds@),
                acc.wf(),
                acc@ == acc_of(
                    contribs_of(feeds@.take(i as int)) + feeds@[i as int].articles@.take(j as int),
                ),
                tc.wf(),
                tc.feeds_count == 1,
                tc.total_count == 1,
                forall|t: Seq<char>| count_of(tc.sites(), t) == 0,
            decreases m - j,
        {
            let f2 = &feeds[i];
            let c = &f2.articles[j];
            let ghost pre = contribs_of(feeds@.take(i as int)) + feeds@[
                i as int
            ].articles@.take(j as int);
            let ghost st = c.site@;
            let ghost s_in = tc.sites();
            let _ok_site = tc.try_acquire_site(&c.site);
            let ghost s_acq = tc.sites();
            let _ok_total2 = tc.try_acquire_total();
            proof {
                assert(_ok_site && _ok_total2);
                assert(tc.sites() == s_acq);
                assert((feeds@[i as int]).wf());
                assert((feeds@[i as int].articles@[j as int]).wf());
            }
            acc.add(c.site.clone(), c.title.clone(), c.url.clone(), c.words.duplicate());
            proof {
                assert(count_of(tc.sites(), st) == 1);
            }
            tc.release_site(&c.site);
            let ghost s_rel = tc.sites();
            tc.release_total();
            proof {
                lemma_acc_of_snoc(pre, feeds@[i as int].articles@[j as int]);
                assert(contribs_of(feeds@.take(i as int)) + feeds@[i as int].articles@.take(j + 1)
                    =~= pre.push(feeds@[i as int].articles@[j as int]));
                assert(tc.sites() == s_rel);
                assert forall|t: Seq<char>| count_of(tc.sites(), t) == 0 by {
                    if t == st {
                        assert(count_of(s_rel, st) == 0);
                    } else {
                        assert(count_of(s_rel, t) == count_of(s_acq, t));
                        assert(count_of(s_acq, t) == count_of(s_in, t));
                    }
                }
            }
            j = j + 1;
        }
        let ghost s_done = tc.sites();
        tc.release_feed();
        tc.release_total();
        proof {
            assert(tc.sites() == s_done);
            assert(forall|t: Seq<char>| count_of(tc.sites(), t) == 0);
            assert(feeds@[i as int].articles@.take(m as int) =~= feeds@[i as int].articles@);
            assert(feeds@.take(i + 1) =~= feeds@.take(i as int).push(feeds@[i as int]));
            lemma_contribs_of_snoc(feeds@.take(i as int), feeds@[i as int]);
        }
        i = i + 1;
    }
    proof {
        assert(feeds@.take(n as int) =~= feeds@);
    }
    let mut rss = RssIndex::new();
    build_index(&acc, &mut rss);
    rss
}

/// The pooled strategy: feed jobs go through a pool of `SIZE_FEEDS_POOL`
/// workers, article jobs through a shared pool of `SIZE_SITES_POOL`, and both
/// pools are drained and stopped at the end; the result is the same index
/// the sequential strategy builds.
pub fn build_pooled(feeds: &Vec<FeedWork>) -> (r: RssIndex)
    requires
        feeds_wf(feeds@),
    ensures
        r.wf(),
        r@ == crawl_spec(feeds@),
{
    let mut acc = ArticleIndex::new();
    let mut feed_pool = PoolModel::new(SIZE_FEEDS_POOL);
    let mut sites_pool = PoolModel::new(SIZE_SITES_POOL);
    let n = feeds.len();
    let mut i: usize = 0;
    proof {
        assert(contribs_of(feeds@.take(0)) =~= Seq::empty());
    }
    while i < n
        invariant
            n == feeds.len(),
            0 <= i <= n,
            feeds_wf(feeds@),
            acc.wf(),
            acc@ == acc_of(contribs_of(feeds@.take(i as int))),
            feed_pool.wf(),
            feed_pool.state == crate::pool::PoolState::Running,
            feed_pool.queue@.len() == 0,
            sites_pool.wf(),
            sites_pool.state == crate::pool::PoolState::Running,
            sites_pool.queue@.len() == 0,
        decreases n - i,
    {
        let _ok_feed = feed_pool.execute(i as u64);
        proof {
            assert(_ok_feed);
        }
        feed_pool.run_one();
        let f = &feeds[i];
        let m = f.articles.len();
        let mut j: usize = 0;
        while j < m
            invariant
                n == feeds.len(),
                0 <= i < n,
                m == feeds@[i as int].articles@.len(),
                0 <= j <= m,
                feeds_wf(feeds@),
                acc.wf(),
                acc@ == acc_of(
                    contribs_of(feeds@.take(i as int)) + feeds@[i as int].articles@.take(j as int),
                ),
                sites_pool.wf(),
                sites_pool.state == crate::pool::PoolState::Running,
                sites_pool.queue@.len() == 0,
            decreases m - j,
        {
            let f2 = &feeds[i];
            let c = &f2.articles[j];
            let ghost pre = contribs_of(feeds@.take(i as int)) + feeds@[
                i as int
            ].articles@.take(j as int);
            let _ok_art = sites_pool.execute(j as u64);
            proof {
                assert(_ok_art);
                assert((feeds@[i as int]).wf());
                assert((feeds@[i as int].articles@[j as int]).wf());
            }
            sites_pool.run_one();
            acc.add(c.site.clone(), c.title.clone(), c.url.clone(), c.words.duplicate());
            proof {
                lemma_acc_of_snoc(pre, feeds@[i as int].articles@[j as int]);
                assert(contribs_of(feeds@.take(i as int)) + feeds@[i as int].articles@.take(j + 1)
                    =~= pre.push(feeds@[i as int].articles@[j as int]));
            }
            j = j + 1;
        }
        proof {
            assert(feeds@[i as int].articles@.take(m as int) =~= feeds@[i as int].articles@);
            assert(feeds@.take(i + 1) =~= feeds@.take(i as int).push(feeds@[i as int]));
            lemma_contribs_of_snoc(feeds@.take(i as int), feeds@[i as int]);
        }
        i = i + 1;
    }
    proof {
        assert(feeds@.take(n as int) =~= feeds@);
    }
    sites_pool.shutdown();
    feed_pool.shutdown();
    let mut rss = RssIndex::new();
    build_index(&acc, &mut rss);
    rss
}

/// Strategy equivalence: the sequential, admission-gated and pooled builds of
/// one crawl denote the same finalized index — how dispatch is bounded never
/// shows in the result.
pub proof fn lemma_strategy_equivalence(
    feeds: Seq<FeedWork>,
    single: RssIndex,
    multi: RssIndex,
    pooled: RssIndex,
)
    requires
        single@ == crawl_spec(feeds),
        multi@ == crawl_spec(feeds),
        pooled@ == crawl_spec(feeds),
    ensures
        single@ == multi@,
        multi@ == pooled@,
{
}

} // verus!
