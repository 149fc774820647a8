//! Feed documents and the crawl's planning rules: which items of a parsed
//! document become work, and which are dropped for missing a link, a title
//! or a hostname. Parsing the document and reading a URL's host are the rss
//! and url crates' work, relied on behind named results.
use vstd::prelude::*;

verus! {

/// One item of a parsed feed document: its link and title, either of which
/// a document may omit.
pub struct FeedItem {
    pub link: Option<String>,
    pub title: Option<String>,
}

pub open spec fn opt_view(o: Option<String>) -> Option<Seq<char>> {
    match o {
        Some(s) => Some(s@),
        None => None,
    }
}

impl View for FeedItem {
    type V = (Option<Seq<char>>, Option<Seq<char>>);

    open spec fn view(&self) -> (Option<Seq<char>>, Option<Seq<char>>) {
        (opt_view(self.link), opt_view(self.title))
    }
}

/// What parsing a feed document yields, as a function of its bytes alone:
/// nothing for a malformed document, else each item's link and title.
pub uninterp spec fn parsed_feed(data: Seq<u8>) -> Option<
    Seq<(Option<Seq<char>>, Option<Seq<char>>)>,
>;

/// Relies on rss::Channel::read_from: parsing a feed document is a function
/// of its bytes; each parsed item carries its link and title.
#[verifier::external_body]
pub fn parse_feed(data: &[u8]) -> (r: Option<Vec<FeedItem>>)
    ensures
        match r {
            Some(items) => parsed_feed(data@) == Some(
                items@.map_values(|it: FeedItem| it@),
            ),
            None => parsed_feed(data@) == None::<Seq<(Option<Seq<char>>, Option<Seq<char>>)>>,
        },
{
    match rss::Channel::read_from(data) {
        Ok(ch) => Some(
            ch.into_items().into_iter().map(
                |it| FeedItem { link: it.link, title: it.title },
            ).collect(),
        ),
        Err(_) => None,
    }
}

/// The host a URL string names, as a function of the string alone.
pub uninterp spec fn host_name_of(url: Seq<char>) -> Option<Seq<char>>;

/// Relies on url::Url::parse and url::Url::host_str: a URL's host is a
/// function of the URL string alone; an unparsable URL has none.
#[verifier::external_body]
pub fn host_of(u: &str) -> (r: Option<String>)
    ensures
        match r {
            Some(h) => host_name_of(u@) == Some(h@),
            None => host_name_of(u@) == None::<Seq<char>>,
        },
{
    match url::Url::parse(u) {
        Ok(p) => match p.host_str() {
            Some(h) => Some(h.to_string()),
            None => None,
        },
        Err(_) => None,
    }
}

/// A feed named by the feed list: where it lives and what it is called.
pub struct FeedDescriptor {
    pub url: String,
    pub title: String,
}

/// An article job: the article's URL and title, and the site it is fetched
/// from.
pub struct ArticleDescriptor {
    pub url: String,
    pub site: String,
    pub title: String,
}

/// The work one item yields: its link and title, or nothing if it omits
/// either.
pub open spec fn item_desc(it: (Option<Seq<char>>, Option<Seq<char>>)) -> Option<
    (Seq<char>, Seq<char>),
> {
    match it {
        (Some(u), Some(t)) => Some((u, t)),
        _ => None,
    }
}

/// The feed descriptors a parsed feed list yields: items missing a link or a
/// title are dropped, the rest kept in order.
pub open spec fn feed_descs_of(items: Seq<(Option<Seq<char>>, Option<Seq<char>>)>) -> Seq<
    (Seq<char>, Seq<char>),
>
    decreases items.len(),
{
    if items.len() == 0 {
        Seq::empty()
    } else {
        match item_desc(items.last()) {
            Some(d) => feed_descs_of(items.drop_last()).push(d),
            None => feed_descs_of(items.drop_last()),
        }
    }
}

proof fn lemma_feed_descs_snoc(
    items: Seq<(Option<Seq<char>>, Option<Seq<char>>)>,
    it: (Option<Seq<char>>, Option<Seq<char>>),
)
    ensures
        feed_descs_of(items.push(it)) == (match item_desc(it) {
            Some(d) => feed_descs_of(items).push(d),
            None => feed_descs_of(items),
        }),
{
    assert(items.push(it).drop_last() =~= items);
    assert(items.push(it).last() == it);
}

/// Field-completeness filtering: an item that omits its link or its title
/// yields no descriptor — the plan is the plan of the list without it.
pub proof fn lemma_incomplete_item_excluded(
    items: Seq<(Option<Seq<char>>, Option<Seq<char>>)>,
    i: int,
)
    requires
        0 <= i < items.len(),
        (item_desc(items[i]) is None),
    ensures
        feed_descs_of(items) == feed_descs_of(items.remove(i)),
    decreases items.len(),
{
    if i == items.len() - 1 {
        assert(items.remove(i) =~= items.drop_last());
    } else {
        assert(items.remove(i).drop_last() =~= items.drop_last().remove(i));
        assert(items.remove(i).last() == items.last());
        lemma_incomplete_item_excluded(items.drop_last(), i);
    }
}

/// The feed jobs a parsed feed list yields: one per item that has both a
/// link and a title, in order.
pub fn feed_jobs(items: &Vec<FeedItem>) -> (r: Vec<FeedDescriptor>)
    ensures
        r@.map_values(|d: FeedDescriptor| (d.url@, d.title@)) == feed_descs_of(
            items@.map_values(|it: FeedItem| it@),
        ),
{
    let ghost iv = items@.map_values(|it: FeedItem| it@);
    let n = items.len();
    let mut r: Vec<FeedDescriptor> = Vec::new();
    proof {
        assert(iv.take(0) =~= Seq::empty());
    }
    let mut i: usize = 0;
    while i < n
        invariant
            n == items@.len(),
            0 <= i <= n,
            iv == items@.map_values(|it: FeedItem| it@),
            iv.len() == n,
            r@.map_values(|d: FeedDescriptor| (d.url@, d.title@)) == feed_descs_of(
                iv.take(i as int),
            ),
        decreases n - i,
    {
        let ghost pre = r@;
        let it = &items[i];
        match (&it.link, &it.title) {
            (Some(u), Some(t)) => {
                let d = FeedDescriptor { url: u.clone(), title: t.clone() };
                r.push(d);
                proof {
                    assert(r@.map_values(|d: FeedDescriptor| (d.url@, d.title@)) =~= pre.map_values(
                        |d: FeedDescriptor| (d.url@, d.title@),
                    ).push((u@, t@)));
                    assert(item_desc(iv[i as int]) == Some((u@, t@)));
                }
            },
            _ => {},
        }
        proof {
            assert(iv.take(i + 1) =~= iv.take(i as int).push(iv[i as int]));
            lemma_feed_descs_snoc(iv.take(i as int), iv[i as int]);
        }
        i = i + 1;
    }
    proof {
        assert(iv.take(n as int) =~= iv);
    }
    r
}

/// The feed jobs a feed-list document yields: nothing for a document the
/// parser rejects, else one job per parsed item that has both a link and a
/// title, in document order.
pub fn plan_feeds(data: &[u8]) -> (r: Option<Vec<FeedDescriptor>>)
    ensures
        match r {
            Some(v) => (parsed_feed(data@) is Some) && v@.map_values(
                |d: FeedDescriptor| (d.url@, d.title@),
            ) == feed_descs_of(parsed_feed(data@)->0),
            None => parsed_feed(data@) == None::<Seq<(Option<Seq<char>>, Option<Seq<char>>)>>,
        },
{
    match parse_feed(data) {
        Some(items) => Some(feed_jobs(&items)),
        None => None,
    }
}

/// The article jobs one fetched feed yields: nothing when the feed's URL
/// names no host; else one job per item that has both a link and a title,
/// each tagged with that host.
pub open spec fn article_descs_of(
    host: Option<Seq<char>>,
    items: Seq<(Option<Seq<char>>, Option<Seq<char>>)>,
) -> Seq<(Seq<char>, Seq<char>, Seq<char>)> {
    match host {
        None => Seq::empty(),
        Some(h) => feed_descs_of(items).map_values(
            |d: (Seq<char>, Seq<char>)| (d.0, h, d.1),
        ),
    }
}

/// Plan the article jobs of one feed: drop every item that misses a link or
/// a title, and every item of a feed whose URL names no host.
pub fn plan_articles(feed_url: &str, items: &Vec<FeedItem>) -> (r: Vec<ArticleDescriptor>)
    ensures
        r@.map_values(|a: ArticleDescriptor| (a.url@, a.site@, a.title@)) == article_descs_of(
            host_name_of(feed_url@),
            items@.map_values(|it: FeedItem| it@),
        ),
{
    let ghost iv = items@.map_values(|it: FeedItem| it@);
    let host = host_of(feed_url);
    match host {
        None => {
            let r: Vec<ArticleDescriptor> = Vec::new();
            proof {
                assert(r@.map_values(|a: ArticleDescriptor| (a.url@, a.site@, a.title@))
                    =~= Seq::<(Seq<char>, Seq<char>, Seq<char>)>::empty());
            }
            r
        },
        Some(h) => {
            let descs = feed_jobs(items);
            let n = descs.len();
            let mut r: Vec<ArticleDescriptor> = Vec::new();
            let mut i: usize = 0;
            while i < n
                invariant
                    n == descs@.len(),
                    0 <= i <= n,
                    r@.len() == i,
                    forall|k: int|
                        0 <= k < i ==> ((#[trigger] r@[k]).url@, r@[k].site@, r@[k].title@) == (
                            descs@[k].url@,
                            h@,
                            descs@[k].title@,
                        ),
                decreases n - i,
            {
                let d = &descs[i];
                let a = ArticleDescriptor {
                    url: d.url.clone(),
                    site: h.clone(),
                    title: d.title.clone(),
                };
                r.push(a);
                i = i + 1;
            }
            proof {
                assert(r@.map_values(|a: ArticleDescriptor| (a.url@, a.site@, a.title@))
                    =~= descs@.map_values(|d: FeedDescriptor| (d.url@, d.title@)).map_values(
                    |d: (Seq<char>, Seq<char>)| (d.0, h@, d.1),
                ));
            }
            r
        },
    }
}

} // verus!
