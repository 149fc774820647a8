use rss_index::feed::{feed_jobs, host_of, parse_feed, plan_articles, plan_feeds, FeedItem};

const FEED_XML: &str = "<rss version=\"2.0\"><channel>\
<title>List</title><link>http://feeds.example</link><description>d</description>\
<item><title>Feed A</title><link>http://a.example/feed</link></item>\
<item><title>No link</title></item>\
<item><link>http://untitled.example/feed</link></item>\
<item><title>Feed B</title><link>http://b.example/feed</link></item>\
</channel></rss>";

#[test]
fn parse_feed_reads_items() {
    let items = parse_feed(FEED_XML.as_bytes()).expect("well-formed document");
    assert_eq!(items.len(), 4);
    assert_eq!(items[0].title.as_deref(), Some("Feed A"));
    assert_eq!(items[0].link.as_deref(), Some("http://a.example/feed"));
    assert_eq!(items[1].link, None);
    assert_eq!(items[2].title, None);
}

#[test]
fn parse_feed_rejects_malformed_bytes() {
    assert!(parse_feed(b"this is no feed document").is_none());
}

#[test]
fn incomplete_items_are_dropped() {
    let items = parse_feed(FEED_XML.as_bytes()).expect("well-formed document");
    let jobs = feed_jobs(&items);
    assert_eq!(jobs.len(), 2);
    assert_eq!(jobs[0].title, "Feed A");
    assert_eq!(jobs[0].url, "http://a.example/feed");
    assert_eq!(jobs[1].title, "Feed B");
}

#[test]
fn plan_feeds_reads_and_filters_in_one_step() {
    let jobs = plan_feeds(FEED_XML.as_bytes()).expect("well-formed document");
    assert_eq!(jobs.len(), 2);
    assert_eq!(jobs[0].title, "Feed A");
    assert_eq!(jobs[1].url, "http://b.example/feed");
    assert!(plan_feeds(b"not xml").is_none());
}

#[test]
fn host_comes_from_the_url() {
    assert_eq!(host_of("http://a.example/feed/x.xml").as_deref(), Some("a.example"));
    assert!(host_of("not a url at all").is_none());
    assert!(host_of("data:text/plain,hello").is_none());
}

#[test]
fn articles_are_planned_under_the_feed_host() {
    let items = vec![
        FeedItem {
            link: Some("http://a.example/1".to_string()),
            title: Some("One".to_string()),
        },
        FeedItem { link: None, title: Some("No link".to_string()) },
        FeedItem {
            link: Some("http://a.example/2".to_string()),
            title: Some("Two".to_string()),
        },
    ];
    let plan = plan_articles("http://a.example/feed.xml", &items);
    assert_eq!(plan.len(), 2);
    assert_eq!(plan[0].url, "http://a.example/1");
    assert_eq!(plan[0].site, "a.example");
    assert_eq!(plan[0].title, "One");
    assert_eq!(plan[1].title, "Two");
}

#[test]
fn hostless_feed_plans_nothing() {
    let items = vec![FeedItem {
        link: Some("http://a.example/1".to_string()),
        title: Some("One".to_string()),
    }];
    let plan = plan_articles("no scheme here", &items);
    assert_eq!(plan.len(), 0);
}
