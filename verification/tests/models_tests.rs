use chrono::{DateTime, Utc};
use dst_update_publisher::models::{
    PoSearchResult, PoTranslationEntry, ReleaseChannel, RssItem, RssUpdateItem, Timestamp,
    TranslatedAnnouncement, UpdateNotification, UpdatePageData, UpdatePageEntry,
};

fn now() -> Timestamp {
    let n = Utc::now();
    Timestamp { secs: n.timestamp(), nanos: n.timestamp_subsec_nanos() }
}

fn at(rfc3339: &str) -> Timestamp {
    let d = DateTime::parse_from_rfc3339(rfc3339).unwrap().to_utc();
    Timestamp { secs: d.timestamp(), nanos: d.timestamp_subsec_nanos() }
}

#[test]
fn extract_revision_standard_link() {
    let rev = RssUpdateItem::extract_revision_from_link(
        "https://forums.kleientertainment.com/game-updates/dst/724783-r2722/",
    );
    assert_eq!(rev, "2722");
}

#[test]
fn extract_revision_xbox_link() {
    let rev = RssUpdateItem::extract_revision_from_link(
        "https://forums.kleientertainment.com/game-updates/dst_xboxone/112100-r2721/",
    );
    assert_eq!(rev, "2721");
}

#[test]
fn extract_revision_no_revision() {
    let rev = RssUpdateItem::extract_revision_from_link(
        "https://forums.kleientertainment.com/game-updates/dst/",
    );
    assert_eq!(rev, "");
}

#[test]
fn extract_revision_empty_string() {
    let rev = RssUpdateItem::extract_revision_from_link("");
    assert_eq!(rev, "");
}

#[test]
fn extract_revision_invalid_url() {
    let rev = RssUpdateItem::extract_revision_from_link("not a url");
    assert_eq!(rev, "");
}

#[test]
fn extract_revision_first_segment_wins() {
    let rev = RssUpdateItem::extract_revision_from_link("https://example.com/a-r1/b-r2/");
    assert_eq!(rev, "1");
}

#[test]
fn is_pc_update_pc_link() {
    let item = RssUpdateItem {
        build_number: "724783".into(),
        link: "https://forums.kleientertainment.com/game-updates/dst/724783-r2722/".into(),
        description_html: String::new(),
        pub_date: now(),
        revision: "2722".into(),
    };
    assert!(item.is_pc_update());
}

#[test]
fn is_pc_update_xbox_link() {
    let item = RssUpdateItem {
        build_number: "112100".into(),
        link: "https://forums.kleientertainment.com/game-updates/dst_xboxone/112100-r2721/"
            .into(),
        description_html: String::new(),
        pub_date: now(),
        revision: "2721".into(),
    };
    assert!(!item.is_pc_update());
}

#[test]
fn is_pc_update_ps4_link() {
    let item = RssUpdateItem {
        build_number: "3380".into(),
        link: "https://forums.kleientertainment.com/game-updates/dst_ps4/3380-r2719/".into(),
        description_html: String::new(),
        pub_date: now(),
        revision: "2719".into(),
    };
    assert!(!item.is_pc_update());
}

#[test]
fn best_match_exact() {
    let result = PoSearchResult {
        term: "Varg".into(),
        candidates: vec![
            PoTranslationEntry {
                original: "Varg".into(),
                translation: "座狼".into(),
            },
            PoTranslationEntry {
                original: "Vargling".into(),
                translation: "座狼崽".into(),
            },
        ],
    };
    let best = result.best_match().unwrap();
    assert_eq!(best.original, "Varg");
    assert_eq!(best.translation, "座狼");
}

#[test]
fn best_match_no_exact_returns_first() {
    let result = PoSearchResult {
        term: "Vargs".into(),
        candidates: vec![PoTranslationEntry {
            original: "Varg".into(),
            translation: "座狼".into(),
        }],
    };
    let best = result.best_match().unwrap();
    assert_eq!(best.original, "Varg");
}

#[test]
fn best_match_empty_candidates() {
    let result = PoSearchResult {
        term: "Varg".into(),
        candidates: vec![],
    };
    assert!(result.best_match().is_none());
}

#[test]
fn best_match_exact_after_others() {
    let result = PoSearchResult {
        term: "Hound".into(),
        candidates: vec![
            PoTranslationEntry { original: "Hound Mound".into(), translation: "猎犬丘".into() },
            PoTranslationEntry { original: "Hound".into(), translation: "猎犬".into() },
        ],
    };
    assert_eq!(result.best_match().unwrap().translation, "猎犬");
}

#[test]
fn compose_notification_fields() {
    let rss_item = RssUpdateItem {
        build_number: "724783".into(),
        link: "https://forums.kleientertainment.com/game-updates/dst/724783-r2722/".into(),
        description_html: String::new(),
        pub_date: at("2025-04-28T12:00:00Z"),
        revision: "2722".into(),
    };

    let page_entry = UpdatePageEntry {
        revision: "2722".into(),
        build_number: "724783".into(),
        channel: ReleaseChannel::Release,
        is_hotfix: false,
    };

    let translated = TranslatedAnnouncement {
        original_text: "original".into(),
        translated_text: "翻译".into(),
        search_results: vec![PoSearchResult {
            term: "Varg".into(),
            candidates: vec![PoTranslationEntry {
                original: "Varg".into(),
                translation: "座狼".into(),
            }],
        }],
    };

    let notification = UpdateNotification::compose(&rss_item, &page_entry, &translated);

    assert_eq!(notification.build_number, "724783");
    assert_eq!(notification.revision, "2722");
    assert_eq!(notification.channel, "release");
    assert!(!notification.is_hotfix);
    assert_eq!(notification.original_description, "original");
    assert_eq!(notification.translated_description, "翻译");
    assert_eq!(notification.glossary.get("Varg").unwrap(), "座狼");
    assert!(notification.pub_date.contains("2025"));
    assert!(notification.link.contains("724783"));
}

#[test]
fn compose_notification_beta_hotfix() {
    let rss_item = RssUpdateItem {
        build_number: "724783".into(),
        link: "https://forums.kleientertainment.com/game-updates/dst/724783-r2722/".into(),
        description_html: String::new(),
        pub_date: now(),
        revision: "2722".into(),
    };

    let page_entry = UpdatePageEntry {
        revision: "2722".into(),
        build_number: "724783".into(),
        channel: ReleaseChannel::Beta,
        is_hotfix: true,
    };

    let translated = TranslatedAnnouncement {
        original_text: String::new(),
        translated_text: String::new(),
        search_results: vec![],
    };

    let notification = UpdateNotification::compose(&rss_item, &page_entry, &translated);

    assert_eq!(notification.channel, "beta");
    assert!(notification.is_hotfix);
    assert!(notification.glossary.is_empty());
}

#[test]
fn compose_date_is_rfc3339_utc() {
    let rss_item = RssUpdateItem {
        build_number: "1".into(),
        link: String::new(),
        description_html: String::new(),
        pub_date: at("2025-04-28T12:00:00Z"),
        revision: String::new(),
    };
    let page_entry = UpdatePageEntry {
        revision: String::new(),
        build_number: "1".into(),
        channel: ReleaseChannel::Release,
        is_hotfix: false,
    };
    let translated = TranslatedAnnouncement {
        original_text: String::new(),
        translated_text: String::new(),
        search_results: vec![],
    };
    let n = UpdateNotification::compose(&rss_item, &page_entry, &translated);
    assert_eq!(n.pub_date, "2025-04-28T12:00:00+00:00");
}

#[test]
fn compose_glossary_later_term_wins_and_empty_results_skipped() {
    let entry = |o: &str, t: &str| PoTranslationEntry { original: o.into(), translation: t.into() };
    let translated = TranslatedAnnouncement {
        original_text: String::new(),
        translated_text: String::new(),
        search_results: vec![
            PoSearchResult { term: "Varg".into(), candidates: vec![entry("Varg", "座狼")] },
            PoSearchResult { term: "Hound".into(), candidates: vec![] },
            PoSearchResult { term: "Varg".into(), candidates: vec![entry("Vargs", "座狼们")] },
        ],
    };
    let rss_item = RssUpdateItem {
        build_number: "1".into(),
        link: String::new(),
        description_html: String::new(),
        pub_date: now(),
        revision: String::new(),
    };
    let page_entry = UpdatePageEntry {
        revision: String::new(),
        build_number: "1".into(),
        channel: ReleaseChannel::Beta,
        is_hotfix: false,
    };
    let n = UpdateNotification::compose(&rss_item, &page_entry, &translated);
    assert_eq!(n.glossary.len(), 1);
    assert_eq!(n.glossary.get("Varg").unwrap(), "座狼们");
    assert!(n.glossary.get("Hound").is_none());
}

#[test]
fn find_by_revision() {
    let data = UpdatePageData {
        entries: vec![
            UpdatePageEntry {
                revision: "2722".into(),
                build_number: "724783".into(),
                channel: ReleaseChannel::Release,
                is_hotfix: false,
            },
            UpdatePageEntry {
                revision: "2714".into(),
                build_number: "722832".into(),
                channel: ReleaseChannel::Release,
                is_hotfix: false,
            },
        ],
    };
    let found = data.find_by_revision("2722");
    assert!(found.is_some());
    assert_eq!(found.unwrap().build_number, "724783");
    assert!(data.find_by_revision("9999").is_none());
}

#[test]
fn find_by_build_number() {
    let data = UpdatePageData {
        entries: vec![UpdatePageEntry {
            revision: "2722".into(),
            build_number: "724783".into(),
            channel: ReleaseChannel::Release,
            is_hotfix: false,
        }],
    };
    let found = data.find_by_build_number("724783");
    assert!(found.is_some());
    assert_eq!(found.unwrap().revision, "2722");
    assert!(data.find_by_build_number("999999").is_none());
}

#[test]
fn release_channel_names_read_back() {
    for c in [ReleaseChannel::Release, ReleaseChannel::Beta] {
        let back = ReleaseChannel::from_name(c.as_str()).unwrap();
        assert_eq!(back.as_str(), c.as_str());
    }
    assert!(ReleaseChannel::from_name("Release").is_none());
}

#[test]
fn from_rss_item_reads_fields_and_revision() {
    let item = RssItem {
        title: Some("724783".into()),
        link: Some("https://forums.kleientertainment.com/game-updates/dst/724783-r2722/".into()),
        description: None,
        pub_date: Some("Wed, 22 Apr 2026 03:33:51 +0800".into()),
    };
    let u = RssUpdateItem::from_rss_item(&item).unwrap();
    assert_eq!(u.build_number, "724783");
    assert_eq!(u.revision, "2722");
    assert_eq!(u.description_html, "");
    let expected = DateTime::parse_from_rfc2822("Wed, 22 Apr 2026 03:33:51 +0800").unwrap();
    assert_eq!(u.pub_date.secs, expected.timestamp());
}

#[test]
fn from_rss_item_bad_date_is_rss_parse_error() {
    let item = RssItem { title: None, link: None, description: None, pub_date: Some("yesterday".into()) };
    let err = RssUpdateItem::from_rss_item(&item).err().unwrap();
    let text = err.to_string();
    assert!(text.starts_with("RSS parse failed: failed to parse pub_date 'yesterday': "));
}

#[test]
fn timestamp_order() {
    let a = Timestamp { secs: 10, nanos: 5 };
    let b = Timestamp { secs: 10, nanos: 6 };
    let c = Timestamp { secs: 9, nanos: 999 };
    assert!(a.le(&b));
    assert!(!b.le(&a));
    assert!(c.le(&a));
    assert!(a.le(&a));
}
