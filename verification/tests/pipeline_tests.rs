use dst_update_publisher::models::{AppConfig, ProcessOutcome};
use dst_update_publisher::pipeline::{announcement_text, Pipeline, PipelineAction, PipelineEvent};
use dst_update_publisher::po_search::{build_index_from_po_contents, PoFileIndex};
use dst_update_publisher::publisher::{is_stored_build, mark_build_command, publish_command, read_build_command};
use dst_update_publisher::translator::LlmReply;

const FEED: &str = r#"<?xml version="1.0" encoding="UTF-8"?>
<rss version="2.0"><channel><title>DST Updates</title>
<item><title>724783</title>
<link>https://forums.kleientertainment.com/game-updates/dst/724783-r2722/</link>
<description>&lt;p&gt;Added the Varg.&lt;/p&gt;</description>
<pubDate>Wed, 22 Apr 2026 03:33:51 +0800</pubDate></item>
</channel></rss>"#;

const PAGE: &str = r#"<html><body><ul><li class="cCmsRecord_row">
<a class="cRelease" data-releaseid="2722"><h3 class="ipsType_sectionHead">724783<span class="ipsBadge">Release</span></h3></a>
</li></ul></body></html>"#;

fn config() -> AppConfig {
    AppConfig {
        rss_url: "http://feed".into(),
        update_page_url: "http://page".into(),
        redis_url: "redis://127.0.0.1:6379".into(),
        redis_channel: "dst-updates".into(),
        redis_dedupe_key: "dst:last_build".into(),
        llm_api_base: "http://llm".into(),
        llm_api_key: "k".into(),
        llm_model: "m".into(),
        po_zip_path: String::new(),
        po_zip_po_files: vec![],
    }
}

fn empty_index() -> PoFileIndex {
    build_index_from_po_contents(&[]).ok().unwrap()
}

fn to_stored_build(p: &mut Pipeline, ix: &PoFileIndex) {
    match p.step(PipelineEvent::Begin, ix).ok().unwrap() {
        PipelineAction::FetchFeed { url } => assert_eq!(url, "http://feed"),
        _ => panic!("expected the feed request"),
    }
    match p.step(PipelineEvent::FeedBody(FEED.into()), ix).ok().unwrap() {
        PipelineAction::Redis(c) => {
            assert_eq!(c.name, "GET");
            assert_eq!(c.args, vec!["dst:last_build".to_string()]);
        }
        _ => panic!("expected the stored build request"),
    }
}

#[test]
fn run_stops_for_an_already_published_build() {
    let ix = empty_index();
    let mut p = Pipeline::new(&config());
    to_stored_build(&mut p, &ix);
    match p.step(PipelineEvent::StoredBuild(Some("724783".into())), &ix).ok().unwrap() {
        PipelineAction::Finish(ProcessOutcome::AlreadyProcessed { build_number }) => {
            assert_eq!(build_number, "724783")
        }
        _ => panic!("expected the run to end"),
    }
}

#[test]
fn run_without_pc_update() {
    let ix = empty_index();
    let mut p = Pipeline::new(&config());
    p.step(PipelineEvent::Begin, &ix).ok().unwrap();
    let feed = r#"<?xml version="1.0"?><rss version="2.0"><channel><title>t</title></channel></rss>"#;
    assert!(matches!(
        p.step(PipelineEvent::FeedBody(feed.into()), &ix),
        Ok(PipelineAction::Finish(ProcessOutcome::NoUpdateAvailable))
    ));
}

#[test]
fn run_publishes_then_records() {
    let ix = empty_index();
    let mut p = Pipeline::new(&config());
    to_stored_build(&mut p, &ix);
    match p.step(PipelineEvent::StoredBuild(Some("700000".into())), &ix).ok().unwrap() {
        PipelineAction::FetchPage { url } => assert_eq!(url, "http://page"),
        _ => panic!("expected the page request"),
    }
    match p.step(PipelineEvent::PageBody(PAGE.into()), &ix).ok().unwrap() {
        PipelineAction::AskModel { messages, offer_tools } => {
            assert!(offer_tools);
            assert_eq!(messages.len(), 2);
        }
        _ => panic!("expected the model request"),
    }
    let reply = LlmReply::Choice { tool_calls: vec![], content: Some("新增了座狼。".into()) };
    match p.step(PipelineEvent::ModelReply(reply), &ix).ok().unwrap() {
        PipelineAction::Publish { channel, notification } => {
            assert_eq!(channel, "dst-updates");
            assert_eq!(notification.build_number, "724783");
            assert_eq!(notification.revision, "2722");
            assert_eq!(notification.channel, "release");
            assert_eq!(notification.translated_description, "新增了座狼。");
            assert!(notification.original_description.contains("Added the Varg."));
            assert_eq!(notification.pub_date, "2026-04-21T19:33:51+00:00");
        }
        _ => panic!("expected the notification"),
    }
    match p.step(PipelineEvent::Published, &ix).ok().unwrap() {
        PipelineAction::Redis(c) => {
            assert_eq!(c.name, "SET");
            assert_eq!(c.args, vec!["dst:last_build".to_string(), "724783".to_string()]);
        }
        _ => panic!("expected the record request"),
    }
    assert!(matches!(
        p.step(PipelineEvent::Marked, &ix),
        Ok(PipelineAction::Finish(ProcessOutcome::Published { build_number })) if build_number == "724783"
    ));
}

#[test]
fn run_fails_when_page_lacks_the_update() {
    let ix = empty_index();
    let mut p = Pipeline::new(&config());
    to_stored_build(&mut p, &ix);
    p.step(PipelineEvent::StoredBuild(None), &ix).ok().unwrap();
    let err = p.step(PipelineEvent::PageBody("<html></html>".into()), &ix).err().unwrap();
    assert!(err.to_string().starts_with("Update page entry not found for revision: build_number=724783, revision=2722"));
}

#[test]
fn announcement_html_becomes_text() {
    let t = announcement_text("<p>Added the <b>Varg</b>.</p>").ok().unwrap();
    assert!(t.contains("Added the"));
    assert!(t.contains("Varg"));
    assert!(!t.contains("<p>"));
}

#[test]
fn redis_commands() {
    let c = read_build_command("k");
    assert_eq!((c.name.as_str(), c.args.clone()), ("GET", vec!["k".to_string()]));
    let c = mark_build_command("k", "724783");
    assert_eq!((c.name.as_str(), c.args.clone()), ("SET", vec!["k".to_string(), "724783".to_string()]));
    let c = publish_command("dst-updates", "{}");
    assert_eq!((c.name.as_str(), c.args.clone()), ("PUBLISH", vec!["dst-updates".to_string(), "{}".to_string()]));
}

#[test]
fn stored_build_matches_only_itself() {
    assert!(is_stored_build(&Some("724783".into()), "724783"));
    assert!(!is_stored_build(&Some("724783".into()), "999999"));
    assert!(!is_stored_build(&None, "724783"));
}
