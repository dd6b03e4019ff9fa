use dst_update_publisher::error::AppError;
use dst_update_publisher::models::{ReleaseChannel, UpdatePageData, UpdatePageEntry};
use dst_update_publisher::update_page::{
    debug_text, entries_from_rows, get_version_info, parse_channel_from_badges, parse_update_page_html,
    BadgeScan, LinkScan, RowScan,
};

const PAGE: &str = r#"<html><body><ul>
<li class="cCmsRecord_row">
  <a class="cRelease" data-releaseID="2722" href="/game-updates/dst/724783-r2722/">
    <h3 class="ipsType_sectionHead"> 724783 <span class="ipsBadge" title="A beta is available for this update">Test</span></h3>
    <span class="cUpdate_hotfix">Hotfix</span>
  </a>
</li>
<li class="cCmsRecord_row">
  <a class="cRelease" data-releaseID="2714" href="/game-updates/dst/722832-r2714/">
    <h3 class="ipsType_sectionHead">722832<span class="ipsBadge" title="This is the most current available release">Release</span></h3>
  </a>
</li>
<li class="cCmsRecord_row"><span>no link here</span></li>
<li class="cCmsRecord_row">
  <a class="cRelease" data-releaseID="2693"><span class="ipsBadge">Beta</span></a>
</li>
<li class="cCmsRecord_row">
  <a class="cRelease"><h3 class="ipsType_sectionHead">700000</h3></a>
</li>
</ul></body></html>"#;

fn badge(texts: &[&str], title: Option<&str>) -> BadgeScan {
    BadgeScan { texts: texts.iter().map(|t| t.to_string()).collect(), title: title.map(String::from) }
}

#[test]
fn parse_update_page_empty_html() {
    let data = parse_update_page_html("<html><body></body></html>").unwrap();
    assert!(data.entries.is_empty());
}

#[test]
fn parse_update_page_rows() {
    let data = parse_update_page_html(PAGE).unwrap();
    assert_eq!(data.entries.len(), 3);
    let first = &data.entries[0];
    assert_eq!(first.revision, "2722");
    assert_eq!(first.build_number, "724783");
    assert!(matches!(first.channel, ReleaseChannel::Beta));
    assert!(first.is_hotfix);
    let second = &data.entries[1];
    assert_eq!(second.revision, "2714");
    assert_eq!(second.build_number, "722832");
    assert!(matches!(second.channel, ReleaseChannel::Release));
    assert!(!second.is_hotfix);
    let third = &data.entries[2];
    assert_eq!(third.revision, "");
    assert_eq!(third.build_number, "700000");
    assert!(matches!(third.channel, ReleaseChannel::Beta));
}

#[test]
fn channel_from_badges_rules() {
    assert!(matches!(parse_channel_from_badges(&vec![]), ReleaseChannel::Beta));
    assert!(matches!(
        parse_channel_from_badges(&vec![badge(&[" Release "], None)]),
        ReleaseChannel::Release
    ));
    assert!(matches!(
        parse_channel_from_badges(&vec![badge(&["x"], Some("the most current available release"))]),
        ReleaseChannel::Release
    ));
    assert!(matches!(
        parse_channel_from_badges(&vec![badge(&["Te", "st"], None), badge(&["Release"], None)]),
        ReleaseChannel::Beta
    ));
    assert!(matches!(
        parse_channel_from_badges(&vec![badge(&["New"], None), badge(&["Release"], None)]),
        ReleaseChannel::Release
    ));
}

#[test]
fn entries_from_rows_skips_rows_without_link_or_heading() {
    let rows = vec![
        RowScan { link: None },
        RowScan {
            link: Some(LinkScan {
                release_id: Some("1".into()),
                has_hotfix: false,
                heading: None,
                badges: vec![],
            }),
        },
        RowScan {
            link: Some(LinkScan {
                release_id: None,
                has_hotfix: true,
                heading: Some(vec![Some("  12".into()), None, Some("34 \n".into())]),
                badges: vec![],
            }),
        },
    ];
    let entries = entries_from_rows(&rows);
    assert_eq!(entries.len(), 1);
    assert_eq!(entries[0].build_number, "1234");
    assert_eq!(entries[0].revision, "");
    assert!(entries[0].is_hotfix);
}

fn sample_page() -> UpdatePageData {
    UpdatePageData {
        entries: vec![
            UpdatePageEntry {
                revision: "2722".into(),
                build_number: "724783".into(),
                channel: ReleaseChannel::Beta,
                is_hotfix: true,
            },
            UpdatePageEntry {
                revision: "2714".into(),
                build_number: "722832".into(),
                channel: ReleaseChannel::Release,
                is_hotfix: false,
            },
        ],
    }
}

#[test]
fn version_info_prefers_build_number() {
    let page = sample_page();
    let e = get_version_info(&page, "2714", "724783").ok().unwrap();
    assert_eq!(e.revision, "2722");
}

#[test]
fn version_info_falls_back_to_revision() {
    let page = sample_page();
    let e = get_version_info(&page, "2714", "000000").ok().unwrap();
    assert_eq!(e.build_number, "722832");
}

#[test]
fn version_info_not_found_names_both() {
    let page = sample_page();
    match get_version_info(&page, "9999", "999999") {
        Err(AppError::RevisionNotFound(m)) => {
            assert!(m.starts_with("build_number=999999, revision=9999, page_data="));
        }
        _ => panic!("expected RevisionNotFound"),
    }
}

const UPDATE_HTML: &str = r#"<!DOCTYPE html>
<html lang="en-US"><head><title>Don't Starve Together - Game Updates</title></head>
<body><div id="ipsLayout_body"><section>
<ol class="ipsDataList cCmsDatabase_list">
<li class="cCmsRecord_row ipsDataItem">
  <div class="ipsDataItem_main">
    <a class="cRelease" data-releaseID="2722" href="https://forums.kleientertainment.com/game-updates/dst/724783-r2722/">
      <h3 class="ipsType_sectionHead ipsType_break">
        724783
        <span class="ipsBadge ipsBadge_intermediary" title="A beta is available for this update">Test</span>
      </h3>
      <span class="cUpdate_hotfix ipsType_light">Hotfix</span>
    </a>
  </div>
</li>
<li class="cCmsRecord_row ipsDataItem">
  <div class="ipsDataItem_main">
    <a class="cRelease" data-releaseID="2715" href="https://forums.kleientertainment.com/game-updates/dst/723104-r2715/">
      <h3 class="ipsType_sectionHead ipsType_break">
        723104
        <span class="ipsBadge ipsBadge_positive" title="This is the most current available release">Release</span>
      </h3>
      <span class="cUpdate_hotfix ipsType_light">Hotfix</span>
    </a>
  </div>
</li>
<li class="cCmsRecord_row ipsDataItem">
  <div class="ipsDataItem_main">
    <a class="cRelease" data-releaseID="2714" href="https://forums.kleientertainment.com/game-updates/dst/722832-r2714/">
      <h3 class="ipsType_sectionHead ipsType_break">
        722832
        <span class="ipsBadge ipsBadge_positive" title="This is the most current available release">Release</span>
      </h3>
    </a>
  </div>
</li>
<li class="cCmsRecord_row ipsDataItem">
  <div class="ipsDataItem_main">
    <a class="cRelease" data-releaseID="2693" href="https://forums.kleientertainment.com/game-updates/dst/719876-r2693/">
      <h3 class="ipsType_sectionHead ipsType_break">
        719876
        <span class="ipsBadge ipsBadge_intermediary" title="A beta is available for this update">Test</span>
      </h3>
    </a>
  </div>
</li>
</ol>
</section></div></body></html>"#;

#[test]
fn parse_update_page_has_entries() {
    let data = parse_update_page_html(UPDATE_HTML).expect("failed to parse update page");
    assert!(!data.entries.is_empty(), "should have entries");
}

#[test]
fn parse_update_page_release_entry() {
    let data = parse_update_page_html(UPDATE_HTML).unwrap();
    let entry = data.find_by_revision("2714").expect("should find revision 2714");
    assert!(matches!(entry.channel, ReleaseChannel::Release));
    assert!(!entry.is_hotfix);
}

#[test]
fn parse_update_page_beta_hotfix_entry() {
    let data = parse_update_page_html(UPDATE_HTML).unwrap();
    let entry = data.find_by_revision("2722").expect("should find revision 2722");
    assert!(matches!(entry.channel, ReleaseChannel::Beta));
    assert!(entry.is_hotfix);
}

#[test]
fn parse_update_page_release_hotfix_entry() {
    let data = parse_update_page_html(UPDATE_HTML).unwrap();
    let entry = data.find_by_revision("2715").expect("should find revision 2715");
    assert!(matches!(entry.channel, ReleaseChannel::Release));
    assert!(entry.is_hotfix);
}

#[test]
fn parse_update_page_beta_non_hotfix() {
    let data = parse_update_page_html(UPDATE_HTML).unwrap();
    let entry = data.find_by_revision("2693").expect("should find revision 2693");
    assert!(matches!(entry.channel, ReleaseChannel::Beta));
    assert!(!entry.is_hotfix);
}

#[test]
fn parse_update_page_build_number() {
    let data = parse_update_page_html(UPDATE_HTML).unwrap();
    let entry = data.find_by_revision("2722").expect("should find revision 2722");
    assert_eq!(entry.build_number, "724783");
}

#[test]
fn get_version_info_found() {
    let data = parse_update_page_html(UPDATE_HTML).unwrap();
    let result = get_version_info(&data, "2722", "724783");
    assert!(result.is_ok());
    assert_eq!(result.unwrap().revision, "2722");
}

#[test]
fn get_version_info_not_found() {
    let data = parse_update_page_html(UPDATE_HTML).unwrap();
    let result = get_version_info(&data, "9999", "999999");
    assert!(result.is_err());
}

#[test]
fn debug_text_matches_derived_debug() {
    let page = sample_page();
    assert_eq!(debug_text(&page), format!("{:?}", page));
    let empty = UpdatePageData { entries: vec![] };
    assert_eq!(debug_text(&empty), "UpdatePageData { entries: [] }");
    let odd = UpdatePageData {
        entries: vec![UpdatePageEntry {
            revision: "a\"b".into(),
            build_number: "1\n2".into(),
            channel: ReleaseChannel::Release,
            is_hotfix: false,
        }],
    };
    assert_eq!(debug_text(&odd), format!("{:?}", odd));
}

#[test]
fn version_info_not_found_carries_page_text() {
    let page = sample_page();
    match get_version_info(&page, "9999", "999999") {
        Err(AppError::RevisionNotFound(m)) => {
            assert_eq!(m, format!("build_number=999999, revision=9999, page_data={:?}", page));
        }
        _ => panic!("expected RevisionNotFound"),
    }
}
