use rss_index::crawl::{build_multi, build_pooled, build_single, Contribution, FeedWork};
use rss_index::index::{build_index, Article, ArticleIndex, RssIndex};
use rss_index::words::WordCounts;

fn words(pairs: &[(&str, u32)]) -> WordCounts {
    let mut w = WordCounts::new();
    for (word, count) in pairs {
        w.add_count(&word.to_string(), *count);
    }
    w
}

fn contribution(site: &str, title: &str, url: &str, pairs: &[(&str, u32)]) -> Contribution {
    Contribution {
        site: site.to_string(),
        title: title.to_string(),
        url: url.to_string(),
        words: words(pairs),
    }
}

/// Every (word, title, url, count) of an index, sorted for comparison.
fn index_rows(idx: &RssIndex) -> Vec<(String, String, String, u32)> {
    let mut rows = Vec::new();
    for (word, matches) in &idx.index {
        for (art, count) in matches {
            rows.push((word.clone(), art.title.clone(), art.url.clone(), *count));
        }
    }
    rows.sort();
    rows
}

fn count_for(idx: &RssIndex, word: &str, title: &str) -> Option<u32> {
    let matches = idx.lookup(&word.to_string())?;
    for (art, count) in matches {
        if art.title == title {
            return Some(*count);
        }
    }
    None
}

#[test]
fn word_counts_accumulate() {
    let mut w = WordCounts::new();
    w.add_count(&"vote".to_string(), 2);
    w.add_count(&"vote".to_string(), 3);
    w.add_count(&"poll".to_string(), 1);
    let mut seen = w.entries.clone();
    seen.sort();
    assert_eq!(seen, vec![("poll".to_string(), 1), ("vote".to_string(), 5)]);
}

#[test]
fn accumulator_merges_same_article() {
    let mut acc = ArticleIndex::new();
    acc.add(
        "a.example".to_string(),
        "T".to_string(),
        "http://a.example/t".to_string(),
        words(&[("vote", 2)]),
    );
    acc.add(
        "a.example".to_string(),
        "T".to_string(),
        "http://a.example/t".to_string(),
        words(&[("vote", 1), ("poll", 4)]),
    );
    assert_eq!(acc.records.len(), 1);
    let mut rss = RssIndex::new();
    build_index(&acc, &mut rss);
    assert_eq!(count_for(&rss, "vote", "T"), Some(3));
    assert_eq!(count_for(&rss, "poll", "T"), Some(4));
    assert_eq!(count_for(&rss, "absent", "T"), None);
}

#[test]
fn build_index_groups_by_word() {
    let mut acc = ArticleIndex::new();
    acc.add(
        "s1".to_string(),
        "One".to_string(),
        "u1".to_string(),
        words(&[("shared", 1), ("only1", 2)]),
    );
    acc.add(
        "s2".to_string(),
        "Two".to_string(),
        "u2".to_string(),
        words(&[("shared", 5)]),
    );
    let mut rss = RssIndex::new();
    build_index(&acc, &mut rss);
    let shared = rss.lookup(&"shared".to_string()).unwrap();
    assert_eq!(shared.len(), 2);
    assert_eq!(count_for(&rss, "shared", "One"), Some(1));
    assert_eq!(count_for(&rss, "shared", "Two"), Some(5));
    let only = rss.lookup(&"only1".to_string()).unwrap();
    assert_eq!(only.len(), 1);
}

fn sample_feeds() -> Vec<FeedWork> {
    vec![
        FeedWork {
            url: "http://feeds.example/a".to_string(),
            title: "Feed A".to_string(),
            articles: vec![
                contribution("a.example", "A1", "http://a.example/1", &[("war", 2), ("peace", 1)]),
                contribution("a.example", "A2", "http://a.example/2", &[("peace", 7)]),
            ],
        },
        FeedWork {
            url: "http://feeds.example/b".to_string(),
            title: "Feed B".to_string(),
            articles: vec![
                contribution("b.example", "B1", "http://b.example/1", &[("war", 4), ("truce", 1)]),
            ],
        },
    ]
}

#[test]
fn strategy_equivalence() {
    let feeds = sample_feeds();
    let single = build_single(&feeds);
    let multi = build_multi(&feeds);
    let pooled = build_pooled(&feeds);
    let rows = index_rows(&single);
    assert_eq!(rows, index_rows(&multi));
    assert_eq!(rows, index_rows(&pooled));
    assert_eq!(rows.len(), 5);
    assert_eq!(count_for(&single, "war", "B1"), Some(4));
}

#[test]
fn article_identity_is_title_and_url() {
    let a = Article::new("u".to_string(), "t".to_string());
    assert_eq!(a.title, "t");
    assert_eq!(a.url, "u");
    let b = a.duplicate();
    assert_eq!(b.title, "t");
    assert_eq!(b.url, "u");
}
