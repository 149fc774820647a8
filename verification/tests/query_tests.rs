use rss_index::crawl::{build_single, Contribution, FeedWork};
use rss_index::index::{build_index, Article, ArticleIndex, RssIndex};
use rss_index::query::{search, times_label, top_matches, use_top_header, MAX_MATCHES};
use rss_index::words::WordCounts;

fn words(pairs: &[(&str, u32)]) -> WordCounts {
    let mut w = WordCounts::new();
    for (word, count) in pairs {
        w.add_count(&word.to_string(), *count);
    }
    w
}

fn index_of(entries: &[(&str, &str, &str, &[(&str, u32)])]) -> RssIndex {
    let mut acc = ArticleIndex::new();
    for (site, title, url, pairs) in entries {
        acc.add(site.to_string(), title.to_string(), url.to_string(), words(pairs));
    }
    let mut rss = RssIndex::new();
    build_index(&acc, &mut rss);
    rss
}

#[test]
fn search_is_case_insensitive() {
    let idx = index_of(&[("s", "T", "u", &[("election", 3)])]);
    let upper = search(&idx, "Election").expect("folded query should match");
    let lower = search(&idx, "election").expect("exact query should match");
    assert_eq!(upper.len(), lower.len());
    assert_eq!(upper[0].0.title, lower[0].0.title);
    assert_eq!(upper[0].1, lower[0].1);
    assert!(search(&idx, "senate").is_none());
}

#[test]
fn top_matches_orders_by_count_then_title() {
    let mut ms: Vec<(Article, u32)> = Vec::new();
    ms.push((Article::new("u1".to_string(), "zebra".to_string()), 5));
    ms.push((Article::new("u2".to_string(), "apple".to_string()), 5));
    ms.push((Article::new("u3".to_string(), "mango".to_string()), 9));
    let top = top_matches(&ms);
    assert_eq!(top.len(), 3);
    assert_eq!(top[0].0.title, "mango");
    assert_eq!(top[1].0.title, "apple");
    assert_eq!(top[2].0.title, "zebra");
}

#[test]
fn fifteen_matches_show_top_ten() {
    let mut ms: Vec<(Article, u32)> = Vec::new();
    for i in 1..=15u32 {
        let title = format!("t{:02}", i);
        let url = format!("http://x/{}", i);
        ms.push((Article::new(url, title), i));
    }
    assert!(use_top_header(ms.len()));
    let top = top_matches(&ms);
    assert_eq!(top.len(), MAX_MATCHES);
    for (k, entry) in top.iter().enumerate() {
        assert_eq!(entry.1, 15 - k as u32);
    }
    assert_eq!(top[0].0.title, "t15");
    assert_eq!(top[9].0.title, "t06");
}

#[test]
fn few_matches_show_all() {
    let mut ms: Vec<(Article, u32)> = Vec::new();
    for i in 1..=4u32 {
        ms.push((Article::new(format!("u{}", i), format!("t{}", i)), i));
    }
    assert!(!use_top_header(ms.len()));
    let top = top_matches(&ms);
    assert_eq!(top.len(), 4);
    assert_eq!(top[0].1, 4);
    assert_eq!(top[3].1, 1);
}

#[test]
fn times_label_is_singular_only_for_one() {
    assert_eq!(times_label(1), "time");
    assert_eq!(times_label(0), "times");
    assert_eq!(times_label(2), "times");
}

#[test]
fn end_to_end_two_feeds() {
    // two feeds, three and two articles; "election" in two of the five
    let feeds = vec![
        FeedWork {
            url: "http://feeds.example/a".to_string(),
            title: "Feed A".to_string(),
            articles: vec![
                Contribution {
                    site: "a.example".to_string(),
                    title: "Ballot day".to_string(),
                    url: "http://a.example/1".to_string(),
                    words: words(&[("election", 3), ("city", 1)]),
                },
                Contribution {
                    site: "a.example".to_string(),
                    title: "Weather".to_string(),
                    url: "http://a.example/2".to_string(),
                    words: words(&[("rain", 2)]),
                },
                Contribution {
                    site: "a.example".to_string(),
                    title: "Sports".to_string(),
                    url: "http://a.example/3".to_string(),
                    words: words(&[("match", 4)]),
                },
            ],
        },
        FeedWork {
            url: "http://feeds.example/b".to_string(),
            title: "Feed B".to_string(),
            articles: vec![
                Contribution {
                    site: "b.example".to_string(),
                    title: "Turnout".to_string(),
                    url: "http://b.example/1".to_string(),
                    words: words(&[("election", 1)]),
                },
                Contribution {
                    site: "b.example".to_string(),
                    title: "Markets".to_string(),
                    url: "http://b.example/2".to_string(),
                    words: words(&[("stocks", 5)]),
                },
            ],
        },
    ];
    let idx = build_single(&feeds);
    let matches = search(&idx, "election").expect("two articles mention it");
    assert_eq!(matches.len(), 2);
    let top = top_matches(matches);
    assert_eq!(top[0].0.title, "Ballot day");
    assert_eq!(top[0].1, 3);
    assert_eq!(top[0].0.url, "http://a.example/1");
    assert_eq!(top[1].0.title, "Turnout");
    assert_eq!(top[1].1, 1);
    assert_eq!(top[1].0.url, "http://b.example/1");
}
