use dst_update_publisher::models::{RssUpdateItem, Timestamp};
use dst_update_publisher::rss::{get_latest_pc_update, parse_rss_updates};

const FEED: &str = r#"<?xml version="1.0" encoding="UTF-8"?>
<rss version="2.0">
<channel>
<title>DST Updates</title>
<item>
<title>724783</title>
<link>https://forums.kleientertainment.com/game-updates/dst/724783-r2722/</link>
<description>&lt;p&gt;Fixed a crash.&lt;/p&gt;</description>
<pubDate>Wed, 22 Apr 2026 03:33:51 +0800</pubDate>
</item>
<item>
<title>112100</title>
<link>https://forums.kleientertainment.com/game-updates/dst_xboxone/112100-r2721/</link>
<description>Xbox update</description>
<pubDate>Wed, 22 Apr 2026 03:33:51 +0800</pubDate>
</item>
<item>
<title>722832</title>
<link>https://forums.kleientertainment.com/game-updates/dst/722832-r2714/</link>
<description>Older</description>
<pubDate>Mon, 20 Apr 2026 03:33:51 +0800</pubDate>
</item>
<item>
<title>bad date</title>
<link>https://forums.kleientertainment.com/game-updates/dst/1-r1/</link>
<pubDate>someday</pubDate>
</item>
</channel>
</rss>"#;

#[test]
fn feed_keeps_pc_updates_with_dates() {
    let items = parse_rss_updates(FEED).ok().unwrap();
    assert_eq!(items.len(), 2);
    assert_eq!(items[0].build_number, "724783");
    assert_eq!(items[0].revision, "2722");
    assert_eq!(items[0].description_html, "<p>Fixed a crash.</p>");
    assert!(items.iter().all(|i| i.is_pc_update()));
}

#[test]
fn feed_with_only_console_entries_has_no_latest() {
    let feed = r#"<?xml version="1.0" encoding="UTF-8"?>
<rss version="2.0"><channel><title>DST Updates</title>
<item><title>112100</title>
<link>https://forums.kleientertainment.com/game-updates/dst_xboxone/112100-r2721/</link>
<pubDate>Wed, 22 Apr 2026 03:33:51 +0800</pubDate></item>
</channel></rss>"#;
    let items = parse_rss_updates(feed).ok().unwrap();
    assert!(items.is_empty());
    assert!(get_latest_pc_update(&items).is_none());
}

#[test]
fn feed_that_does_not_parse() {
    let err = parse_rss_updates("<html>").err().unwrap();
    assert!(err.to_string().starts_with("RSS parse failed: failed to parse RSS feed: "));
}

fn item(build: &str, secs: i64) -> RssUpdateItem {
    RssUpdateItem {
        build_number: build.into(),
        link: String::new(),
        description_html: String::new(),
        pub_date: Timestamp { secs, nanos: 0 },
        revision: String::new(),
    }
}

#[test]
fn latest_update_is_last_of_the_latest() {
    let items = vec![item("a", 5), item("b", 9), item("c", 9), item("d", 1)];
    assert_eq!(get_latest_pc_update(&items).unwrap().build_number, "c");
    let feed_items = parse_rss_updates(FEED).ok().unwrap();
    assert_eq!(get_latest_pc_update(&feed_items).unwrap().build_number, "724783");
}
