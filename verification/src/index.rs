//! The shared accumulator of article contributions and the finalized search
//! index, with the single finalization pass that turns one into the other.
use vstd::prelude::*;
use crate::assoc::{
    assoc_has, assoc_map, distinct_keys, lemma_assoc_map_at, lemma_assoc_map_domain,
    lemma_assoc_map_push, lemma_assoc_map_update, lemma_distinct_push, lemma_distinct_update,
};
use crate::words::{count_of, merge_counts, WordCounts};

verus! {

/// The identity of an article: its title and URL.
pub struct Article {
    pub title: String,
    pub url: String,
}

impl Article {
    /// The mathematical key of this article.
    pub open spec fn key(&self) -> (Seq<char>, Seq<char>) {
        (self.title@, self.url@)
    }

    pub fn new(url: String, title: String) -> (r: Article)
        ensures
            r.title@ == title@,
            r.url@ == url@,
    {
        Article { title, url }
    }

    /// A copy of this article with the same title and URL.
    pub fn duplicate(&self) -> (r: Article)
        ensures
            r.key() == self.key(),
    {
        Article { title: self.title.clone(), url: self.url.clone() }
    }
}

/// One merged accumulator record: an article, the site it came from, and its
/// running word counts.
pub struct Record {
    pub site: String,
    pub title: String,
    pub url: String,
    pub words: WordCounts,
}

impl Record {
    pub open spec fn key(&self) -> (Seq<char>, Seq<char>) {
        (self.title@, self.url@)
    }
}

/// The word counts an accumulator holds for a key, empty for an absent key.
pub open spec fn words_at(
    m: Map<(Seq<char>, Seq<char>), Map<Seq<char>, u32>>,
    k: (Seq<char>, Seq<char>),
) -> Map<Seq<char>, u32> {
    if m.contains_key(k) {
        m[k]
    } else {
        Map::empty()
    }
}

/// The shared accumulator: per-article word counts, merged as workers report.
pub struct ArticleIndex {
    pub records: Vec<Record>,
}

impl View for ArticleIndex {
    type V = Map<(Seq<char>, Seq<char>), Map<Seq<char>, u32>>;

    open spec fn view(&self) -> Map<(Seq<char>, Seq<char>), Map<Seq<char>, u32>> {
        assoc_map(self.rec_views())
    }
}

impl ArticleIndex {
    pub open spec fn rec_views(&self) -> Seq<((Seq<char>, Seq<char>), Map<Seq<char>, u32>)> {
        self.records@.map_values(|r: Record| (r.key(), r.words@))
    }

    pub open spec fn wf(&self) -> bool {
        &&& distinct_keys(self.rec_views())
        &&& forall|i: int|
            0 <= i < self.records@.len() ==> (#[trigger] self.records@[i]).words.wf()
    }

    pub fn new() -> (r: ArticleIndex)
        ensures
            r.wf(),
            r@ == Map::<(Seq<char>, Seq<char>), Map<Seq<char>, u32>>::empty(),
    {
        ArticleIndex { records: Vec::new() }
    }

    /// Merge one article's contribution in, keyed by title and URL; counts of
    /// an article reported before add up.
    pub fn add(&mut self, site: String, title: String, url: String, words: WordCounts)
        requires
            old(self).wf(),
            words.wf(),
        ensures
            final(self).wf(),
            final(self)@ == old(self)@.insert(
                (title@, url@),
                merge_counts(words_at(old(self)@, (title@, url@)), words@),
            ),
    {
        let ghost k = (title@, url@);
        let ghost rv0 = self.rec_views();
        let n = self.records.len();
        let mut i: usize = 0;
        while i < n
            invariant
                n == self.records.len(),
                0 <= i <= n,
                *self == *old(self),
                self.wf(),
                rv0 == self.rec_views(),
                rv0.len() == n,
                forall|j: int| 0 <= j < i ==> #[trigger] rv0[j].0 != k,
                k == (title@, url@),
                words.wf(),
            decreases n - i,
        {
            let same = self.records[i].title == title && self.records[i].url == url;
            if same {
                let mut rec = self.records.remove(i);
                rec.words.merge_from(&words);
                proof {
                    lemma_assoc_map_at(rv0, i as int);
                }
                self.records.insert(i, rec);
                proof {
                    assert(self.records@ =~= old(self).records@.update(i as int, rec));
                    assert(self.rec_views() =~= rv0.update(i as int, (k, rec.words@)));
                    lemma_assoc_map_update(rv0, i as int, rec.words@);
                    lemma_distinct_update(rv0, i as int, rec.words@);
                    assert(forall|j: int|
                        0 <= j < self.records@.len() ==> (#[trigger] self.records@[j]).words.wf());
                }
                return ;
            }
            i = i + 1;
        }
        self.records.push(Record { site, title, url, words });
        proof {
            assert(self.rec_views() =~= rv0.push((k, words@)));
            assert(!assoc_has(rv0, k)) by {
                if assoc_has(rv0, k) {
                    let j = choose|j: int| 0 <= j < rv0.len() && rv0[j].0 == k;
                    assert(rv0[j].0 != k);
                }
            }
            lemma_assoc_map_domain(rv0, k);
            lemma_assoc_map_push(rv0, k, words@);
            lemma_distinct_push(rv0, k, words@);
            assert(words_at(old(self)@, k) == Map::<Seq<char>, u32>::empty());
            assert(merge_counts(Map::empty(), words@) =~= words@);
        }
    }
}

/// The match-list entries of a finalized word, as key/count pairs.
pub open spec fn match_views(ms: Seq<(Article, u32)>) -> Seq<((Seq<char>, Seq<char>), u32)> {
    ms.map_values(|p: (Article, u32)| (p.0.key(), p.1))
}

/// The finalized index a well-formed accumulator denotes: a word is present
/// exactly when some article counts it, and maps each such article to that
/// article's count of the word.
pub open spec fn transpose(
    acc: Map<(Seq<char>, Seq<char>), Map<Seq<char>, u32>>,
) -> Map<Seq<char>, Map<(Seq<char>, Seq<char>), u32>> {
    Map::new(
        |w: Seq<char>|
            exists|a: (Seq<char>, Seq<char>)|
                #[trigger] acc.contains_key(a) && acc[a].contains_key(w),
        |w: Seq<char>|
            Map::new(
                |a: (Seq<char>, Seq<char>)| acc.contains_key(a) && acc[a].contains_key(w),
                |a: (Seq<char>, Seq<char>)| acc[a][w],
            ),
    )
}

/// The immutable search index: word to matching articles with hit counts.
pub struct RssIndex {
    pub index: Vec<(String, Vec<(Article, u32)>)>,
}

impl View for RssIndex {
    type V = Map<Seq<char>, Map<(Seq<char>, Seq<char>), u32>>;

    open spec fn view(&self) -> Map<Seq<char>, Map<(Seq<char>, Seq<char>), u32>> {
        assoc_map(self.entry_views())
    }
}

impl RssIndex {
    pub open spec fn entry_views(&self) -> Seq<(Seq<char>, Map<(Seq<char>, Seq<char>), u32>)> {
        self.index@.map_values(
            |e: (String, Vec<(Article, u32)>)| (e.0@, assoc_map(match_views(e.1@))),
        )
    }

    pub open spec fn wf(&self) -> bool {
        &&& distinct_keys(self.entry_views())
        &&& forall|i: int|
            0 <= i < self.index@.len() ==> distinct_keys(
                match_views((#[trigger] self.index@[i]).1@),
            )
    }

    pub fn new() -> (r: RssIndex)
        ensures
            r.wf(),
            r@ == Map::<Seq<char>, Map<(Seq<char>, Seq<char>), u32>>::empty(),
            r.index@.len() == 0,
    {
        RssIndex { index: Vec::new() }
    }

    /// The match list recorded for a word, if the word is present.
    pub fn lookup(&self, term: &String) -> (r: Option<&Vec<(Article, u32)>>)
        requires
            self.wf(),
        ensures
            match r {
                Some(v) => {
                    &&& self@.contains_key(term@)
                    &&& assoc_map(match_views(v@)) == self@[term@]
                    &&& distinct_keys(match_views(v@))
                },
                None => !self@.contains_key(term@),
            },
    {
        let n = self.index.len();
        let mut i: usize = 0;
        while i < n
            invariant
                n == self.index.len(),
                self.wf(),
                0 <= i <= n,
                forall|j: int| 0 <= j < i ==> #[trigger] self.entry_views()[j].0 != term@,
            decreases n - i,
        {
            if self.index[i].0 == *term {
                proof {
                    lemma_assoc_map_at(self.entry_views(), i as int);
                }
                return Some(&self.index[i].1);
            }
            i = i + 1;
        }
        proof {
            assert(!assoc_has(self.entry_views(), term@)) by {
                if assoc_has(self.entry_views(), term@) {
                    let j = choose|j: int|
                        0 <= j < self.entry_views().len() && self.entry_views()[j].0 == term@;
                    assert(self.entry_views()[j].0 != term@);
                }
            }
            lemma_assoc_map_domain(self.entry_views(), term@);
        }
        None
    }

    /// Record one article's count for one word; the article must not already
    /// stand under that word.
    fn add_one(&mut self, word: &String, art: Article, c: u32)
        requires
            old(self).wf(),
            old(self)@.contains_key(word@) ==> !old(self)@[word@].contains_key(art.key()),
        ensures
            final(self).wf(),
            final(self)@ == if old(self)@.contains_key(word@) {
                old(self)@.insert(word@, old(self)@[word@].insert(art.key(), c))
            } else {
                old(self)@.insert(word@, Map::empty().insert(art.key(), c))
            },
    {
        let ghost ak = art.key();
        let ghost ev0 = self.entry_views();
        let n = self.index.len();
        let mut i: usize = 0;
        while i < n
            invariant
                n == self.index.len(),
                0 <= i <= n,
                *self == *old(self),
                self.wf(),
                ev0 == self.entry_views(),
                ev0.len() == n,
                ak == art.key(),
                old(self)@.contains_key(word@) ==> !old(self)@[word@].contains_key(ak),
                forall|j: int| 0 <= j < i ==> #[trigger] ev0[j].0 != word@,
            decreases n - i,
        {
            if self.index[i].0 == *word {
                proof {
                    lemma_assoc_map_at(ev0, i as int);
                }
                let mut e = self.index.remove(i);
                let ghost mv0 = match_views(e.1@);
                e.1.push((art, c));
                self.index.insert(i, e);
                proof {
                    assert(match_views(e.1@) =~= mv0.push((ak, c)));
                    assert(!assoc_has(mv0, ak)) by {
                        if assoc_has(mv0, ak) {
                            let j = choose|j: int| 0 <= j < mv0.len() && mv0[j].0 == ak;
                            lemma_assoc_map_at(mv0, j);
                        }
                    }
                    lemma_assoc_map_push(mv0, ak, c);
                    lemma_distinct_push(mv0, ak, c);
                    assert(self.index@ =~= old(self).index@.update(i as int, e));
                    assert(self.entry_views() =~= ev0.update(
                        i as int,
                        (word@, assoc_map(mv0).insert(ak, c)),
                    ));
                    lemma_assoc_map_update(ev0, i as int, assoc_map(mv0).insert(ak, c));
                    lemma_distinct_update(ev0, i as int, assoc_map(mv0).insert(ak, c));
                }
                return ;
            }
            i = i + 1;
        }
        proof {
            assert(!assoc_has(ev0, word@)) by {
                if assoc_has(ev0, word@) {
                    let j = choose|j: int| 0 <= j < ev0.len() && ev0[j].0 == word@;
                    assert(ev0[j].0 != word@);
                }
            }
            lemma_assoc_map_domain(ev0, word@);
        }
        let w = word.clone();
        let mut ms: Vec<(Article, u32)> = Vec::new();
        ms.push((art, c));
        self.index.push((w, ms));
        proof {
            assert(match_views(ms@) =~= Seq::empty().push((ak, c)));
            assert(match_views(ms@).drop_last() =~= Seq::empty());
            assert(assoc_map(Seq::<((Seq<char>, Seq<char>), u32)>::empty())
                =~= Map::<(Seq<char>, Seq<char>), u32>::empty());
            assert(assoc_map(match_views(ms@)) =~= Map::empty().insert(ak, c));
            assert(self.entry_views() =~= ev0.push((word@, Map::empty().insert(ak, c))));
            lemma_assoc_map_push(ev0, word@, Map::empty().insert(ak, c));
            lemma_distinct_push(ev0, word@, Map::empty().insert(ak, c));
        }
    }
}

/// Inserting an article with no words leaves the denoted index unchanged.
proof fn lemma_transpose_insert_empty(
    acc: Map<(Seq<char>, Seq<char>), Map<Seq<char>, u32>>,
    k: (Seq<char>, Seq<char>),
)
    requires
        !acc.contains_key(k),
    ensures
        transpose(acc.insert(k, Map::empty())) =~~= transpose(acc),
{
    let acc2 = acc.insert(k, Map::<Seq<char>, u32>::empty());
    assert forall|w: Seq<char>| transpose(acc2).contains_key(w) implies transpose(
        acc,
    ).contains_key(w) by {
        let a = choose|a: (Seq<char>, Seq<char>)|
            #[trigger] acc2.contains_key(a) && acc2[a].contains_key(w);
        assert(a != k);
        assert(acc.contains_key(a) && acc[a].contains_key(w));
    }
    assert forall|w: Seq<char>| transpose(acc).contains_key(w) implies transpose(
        acc2,
    ).contains_key(w) by {
        let a = choose|a: (Seq<char>, Seq<char>)|
            #[trigger] acc.contains_key(a) && acc[a].contains_key(w);
        assert(acc2.contains_key(a) && acc2[a].contains_key(w));
    }
    assert forall|w: Seq<char>| transpose(acc).contains_key(w) implies transpose(acc2)[w] =~=
    transpose(acc)[w] by {
        assert(forall|a: (Seq<char>, Seq<char>)|
            acc2.contains_key(a) && #[trigger] acc2[a].contains_key(w) ==> a != k);
    }
}

/// Giving one article one more word extends the denoted index at exactly that
/// word, by exactly that article and count.
proof fn lemma_transpose_insert_word(
    acc: Map<(Seq<char>, Seq<char>), Map<Seq<char>, u32>>,
    k: (Seq<char>, Seq<char>),
    wm: Map<Seq<char>, u32>,
    w: Seq<char>,
    c: u32,
)
    requires
        !wm.contains_key(w),
    ensures
        transpose(acc.insert(k, wm.insert(w, c))) =~~= if transpose(
            acc.insert(k, wm),
        ).contains_key(w) {
            transpose(acc.insert(k, wm)).insert(
                w,
                transpose(acc.insert(k, wm))[w].insert(k, c),
            )
        } else {
            transpose(acc.insert(k, wm)).insert(w, Map::empty().insert(k, c))
        },
{
    let acc1 = acc.insert(k, wm);
    let acc2 = acc.insert(k, wm.insert(w, c));
    let t1 = transpose(acc1);
    let t2 = transpose(acc2);
    let goal = if t1.contains_key(w) {
        t1.insert(w, t1[w].insert(k, c))
    } else {
        t1.insert(w, Map::empty().insert(k, c))
    };
    // domains agree
    assert(acc2.contains_key(k) && acc2[k].contains_key(w));
    assert(t2.contains_key(w));
    assert forall|x: Seq<char>| x != w && #[trigger] t2.contains_key(x) implies t1.contains_key(
        x,
    ) by {
        let a = choose|a: (Seq<char>, Seq<char>)|
            #[trigger] acc2.contains_key(a) && acc2[a].contains_key(x);
        assert(acc1.contains_key(a) && acc1[a].contains_key(x));
    }
    assert forall|x: Seq<char>| x != w && #[trigger] t1.contains_key(x) implies t2.contains_key(
        x,
    ) by {
        let a = choose|a: (Seq<char>, Seq<char>)|
            #[trigger] acc1.contains_key(a) && acc1[a].contains_key(x);
        assert(acc2.contains_key(a) && acc2[a].contains_key(x));
    }
    // values agree away from w
    assert forall|x: Seq<char>| x != w && #[trigger] t2.contains_key(x) implies t2[x] =~= t1[x] by {
        assert(forall|a: (Seq<char>, Seq<char>)| #[trigger]
            acc2.contains_key(a) ==> (acc2[a].contains_key(x) <==> acc1[a].contains_key(x)));
        assert(forall|a: (Seq<char>, Seq<char>)|
            acc2.contains_key(a) && #[trigger] acc2[a].contains_key(x) ==> acc2[a][x]
                == acc1[a][x]);
    }
    // the value at w
    if t1.contains_key(w) {
        assert(t2[w] =~= t1[w].insert(k, c)) by {
            assert(forall|a: (Seq<char>, Seq<char>)|
                a != k ==> (#[trigger] acc2.contains_key(a) ==> (acc2[a].contains_key(w)
                    <==> acc1[a].contains_key(w)) && (acc2[a].contains_key(w) ==> acc2[a][w]
                    == acc1[a][w])));
            assert(!acc1[k].contains_key(w));
        }
    } else {
        assert(t2[w] =~= Map::<(Seq<char>, Seq<char>), u32>::empty().insert(k, c)) by {
            assert forall|a: (Seq<char>, Seq<char>)|
                a != k && #[trigger] acc2.contains_key(a) implies !acc2[a].contains_key(w) by {
                assert(acc1.contains_key(a) && acc1[a] == acc2[a]);
            }
        }
    }
    assert(t2 =~~= goal);
}

/// Build the immutable search index from the quiesced accumulator: the result
/// denotes exactly the transpose of what the accumulator holds.
pub fn build_index(articles: &ArticleIndex, rss_index: &mut RssIndex)
    requires
        articles.wf(),
        old(rss_index).wf(),
        old(rss_index).index@.len() == 0,
    ensures
        final(rss_index).wf(),
        final(rss_index)@ == transpose(articles@),
{
    let ghost rv = articles.rec_views();
    let n = articles.records.len();
    proof {
        assert(rss_index@ =~~= transpose(assoc_map(rv.take(0)))) by {
            assert(rv.take(0) =~= Seq::empty());
            assert forall|w: Seq<char>|
                !transpose(
                    assoc_map(Seq::<((Seq<char>, Seq<char>), Map<Seq<char>, u32>)>::empty()),
                ).contains_key(w) by {}
            assert(rss_index.entry_views() =~= Seq::empty());
        }
    }
    let mut i: usize = 0;
    while i < n
        invariant
            n == articles.records.len(),
            0 <= i <= n,
            articles.wf(),
            rv == articles.rec_views(),
            rv.len() == n,
            rss_index.wf(),
            rss_index@ == transpose(assoc_map(rv.take(i as int))),
        decreases n - i,
    {
        let ghost acc_i = assoc_map(rv.take(i as int));
        let ghost k = rv[i as int].0;
        let rec = &articles.records[i];
        let ghost wv = rec.words.entry_views();
        proof {
            assert(!assoc_has(rv.take(i as int), k)) by {
                if assoc_has(rv.take(i as int), k) {
                    let j = choose|j: int|
                        0 <= j < rv.take(i as int).len() && rv.take(i as int)[j].0 == k;
                    assert(rv[j].0 == rv[i as int].0);
                }
            }
            lemma_assoc_map_domain(rv.take(i as int), k);
            lemma_transpose_insert_empty(acc_i, k);
            assert(rss_index@ =~~= transpose(acc_i.insert(k, assoc_map(wv.take(0))))) by {
                assert(wv.take(0) =~= Seq::empty());
                assert(assoc_map(Seq::<(Seq<char>, u32)>::empty()) =~= Map::<Seq<char>, u32>::empty());
            }
        }
        let m = rec.words.entries.len();
        let mut j: usize = 0;
        while j < m
            invariant
                n == articles.records.len(),
                0 <= i < n,
                m == articles.records@[i as int].words.entries.len(),
                0 <= j <= m,
                articles.wf(),
                rv == articles.rec_views(),
                rv.len() == n,
                k == rv[i as int].0,
                acc_i == assoc_map(rv.take(i as int)),
                wv == articles.records@[i as int].words.entry_views(),
                wv.len() == m,
                distinct_keys(wv),
                rss_index.wf(),
                rss_index@ == transpose(acc_i.insert(k, assoc_map(wv.take(j as int)))),
            decreases m - j,
        {
            let ghost a_j = assoc_map(wv.take(j as int));
            let ghost w = wv[j as int].0;
            let ghost c = wv[j as int].1;
            proof {
                assert(!assoc_has(wv.take(j as int), w)) by {
                    if assoc_has(wv.take(j as int), w) {
                        let l = choose|l: int|
                            0 <= l < wv.take(j as int).len() && wv.take(j as int)[l].0 == w;
                        assert(wv[l].0 == wv[j as int].0);
                    }
                }
                lemma_assoc_map_domain(wv.take(j as int), w);
                lemma_transpose_insert_word(acc_i, k, a_j, w, c);
                // the article key is fresh under this word
                if rss_index@.contains_key(w) {
                    assert(!rss_index@[w].contains_key(k)) by {
                        let acc1 = acc_i.insert(k, a_j);
                        assert(acc1[k] == a_j);
                    }
                }
            }
            let rec2 = &articles.records[i];
            let art = Article { title: rec2.title.clone(), url: rec2.url.clone() };
            let entry = &rec2.words.entries[j];
            rss_index.add_one(&entry.0, art, entry.1);
            proof {
                assert(wv.take(j + 1) =~= wv.take(j as int).push((w, c)));
                lemma_assoc_map_push(wv.take(j as int), w, c);
                assert(rss_index@ == transpose(acc_i.insert(k, assoc_map(wv.take(j + 1)))));
            }
            j = j + 1;
        }
        proof {
            assert(wv.take(m as int) =~= wv);
            assert(assoc_map(wv) == articles.records@[i as int].words@);
            assert(rv.take(i + 1) =~= rv.take(i as int).push((k, rv[i as int].1)));
            lemma_assoc_map_push(rv.take(i as int), k, rv[i as int].1);
            assert(rv[i as int].1 == articles.records@[i as int].words@);
        }
        i = i + 1;
    }
    proof {
        assert(rv.take(n as int) =~= rv);
    }
}

} // verus!
