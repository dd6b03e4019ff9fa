//! The update page: the releases it lists, read from its HTML, and the
//! lookup of the release that a feed item announces.
use vstd::prelude::*;
use crate::bytes::{bytes_contain, contains_seq};
use crate::error::{AppError, AppResult};
use crate::models::{ReleaseChannel, UpdatePageData, UpdatePageEntry, first_with_build, first_with_revision, lemma_first_witness};
use crate::text::{concat2, owned, str_eq, string_views, trim, trimmed};
use vstd::utf8::encode_utf8;

verus! {

broadcast use vstd::string::group_string_axioms;

/// The CSS selectors and attribute names by which the update page is read.
pub struct PageQuery {
    pub row: String,
    pub link: String,
    pub hotfix: String,
    pub heading: String,
    pub badge: String,
    pub release_attr: String,
    pub title_attr: String,
}

/// A query as plain values, field by field.
pub type PageQueryView = (Seq<char>, Seq<char>, Seq<char>, Seq<char>, Seq<char>, Seq<char>, Seq<char>);

impl View for PageQuery {
    type V = PageQueryView;

    open spec fn view(&self) -> PageQueryView {
        (self.row@, self.link@, self.hotfix@, self.heading@, self.badge@, self.release_attr@, self.title_attr@)
    }
}

/// The query of the DST update page: rows `li.cCmsRecord_row`, their link
/// `a.cRelease` with its `data-releaseid`, the hotfix mark
/// `span.cUpdate_hotfix`, the heading `h3.ipsType_sectionHead` and the
/// badges `span.ipsBadge` with their `title`.
pub open spec fn update_page_query() -> PageQueryView {
    (
        "li.cCmsRecord_row"@,
        "a.cRelease"@,
        "span.cUpdate_hotfix"@,
        "h3.ipsType_sectionHead"@,
        "span.ipsBadge"@,
        "data-releaseid"@,
        "title"@,
    )
}

/// The query of the DST update page.
pub fn page_query() -> (res: PageQuery)
    ensures
        res@ == update_page_query(),
{
    PageQuery {
        row: owned("li.cCmsRecord_row"),
        link: owned("a.cRelease"),
        hotfix: owned("span.cUpdate_hotfix"),
        heading: owned("h3.ipsType_sectionHead"),
        badge: owned("span.ipsBadge"),
        release_attr: owned("data-releaseid"),
        title_attr: owned("title"),
    }
}

/// A badge inside a release link: the pieces of its text, in document
/// order, and its `title` attribute.
pub struct BadgeScan {
    pub texts: Vec<String>,
    pub title: Option<String>,
}

/// The release link of a row: its release id attribute, whether it holds a
/// hotfix mark, the child nodes of its first heading (the text of each
/// text node, `None` for other nodes) and its badges.
pub struct LinkScan {
    pub release_id: Option<String>,
    pub has_hotfix: bool,
    pub heading: Option<Vec<Option<String>>>,
    pub badges: Vec<BadgeScan>,
}

/// One row of the page, with its first release link if it has one.
pub struct RowScan {
    pub link: Option<LinkScan>,
}

/// A badge as plain values.
pub type BadgeView = (Seq<Seq<char>>, Option<Seq<char>>);

/// A release link as plain values.
pub type LinkView = (Option<Seq<char>>, bool, Option<Seq<Option<Seq<char>>>>, Seq<BadgeView>);

/// The optional text as plain values.
pub open spec fn opt_view(o: Option<String>) -> Option<Seq<char>> {
    match o {
        Some(s) => Some(s@),
        None => None,
    }
}

impl BadgeScan {
    /// The badge as plain values.
    pub open spec fn view_pair(&self) -> BadgeView {
        (string_views(self.texts@), opt_view(self.title))
    }
}

/// The badges as plain values.
pub open spec fn badge_views(v: Seq<BadgeScan>) -> Seq<BadgeView> {
    v.map_values(|b: BadgeScan| b.view_pair())
}

impl LinkScan {
    /// The link as plain values.
    pub open spec fn view_tuple(&self) -> LinkView {
        (
            opt_view(self.release_id),
            self.has_hotfix,
            match self.heading {
                Some(h) => Some(h@.map_values(|o: Option<String>| opt_view(o))),
                None => None,
            },
            badge_views(self.badges@),
        )
    }
}

/// The rows as plain values.
pub open spec fn row_views(v: Seq<RowScan>) -> Seq<Option<LinkView>> {
    v.map_values(
        |r: RowScan|
            match r.link {
                Some(l) => Some(l.view_tuple()),
                None => None,
            },
    )
}

#[verifier::external_type_specification]
#[verifier::external_body]
pub struct ExHtml(scraper::Html);

#[verifier::external_type_specification]
#[verifier::external_body]
pub struct ExElementRef<'a>(scraper::ElementRef<'a>);

#[verifier::external_type_specification]
#[verifier::external_body]
pub struct ExSelector(scraper::Selector);

/// The document that scraper's `Html::parse_document` builds from `html`.
pub uninterp spec fn spec_html_document(html: Seq<char>) -> scraper::Html;

/// The selector that scraper's `Selector::parse` reads from `q`, or `None`
/// where it reports an error.
pub uninterp spec fn spec_selector(q: Seq<char>) -> Option<scraper::Selector>;

/// The elements that a document holds and that match `sel`, in document
/// order, as scraper's `Html::select` yields them.
pub uninterp spec fn spec_document_select(doc: &scraper::Html, sel: scraper::Selector) -> Seq<scraper::ElementRef<'_>>;

/// The elements that `el` holds and that match `sel`, in document order,
/// as scraper's `ElementRef::select` yields them.
pub uninterp spec fn spec_element_select(el: scraper::ElementRef<'_>, sel: scraper::Selector) -> Seq<scraper::ElementRef<'_>>;

/// The value of the attribute `name` of `el`, as scraper's `ElementRef::attr` gives it.
pub uninterp spec fn spec_element_attr(el: scraper::ElementRef<'_>, name: Seq<char>) -> Option<Seq<char>>;

/// The child nodes of `el`: the text of each text node, `None` for the others.
pub uninterp spec fn spec_element_child_texts(el: scraper::ElementRef<'_>) -> Seq<Option<Seq<char>>>;

/// The text nodes that `el` holds, in document order, as scraper's `ElementRef::text` yields them.
pub uninterp spec fn spec_element_texts(el: scraper::ElementRef<'_>) -> Seq<Seq<char>>;

/// Parses `html` with scraper's `Html::parse_document`; the document is
/// named by `spec_html_document`.
#[verifier::external_body]
fn parse_document(html: &str) -> (res: scraper::Html)
    ensures
        res == spec_html_document(html@),
{
    scraper::Html::parse_document(html)
}

/// Parses `q` with scraper's `Selector::parse`; the result is named by
/// `spec_selector`, `None` where it reports an error.
#[verifier::external_body]
fn parse_selector(q: &str) -> (res: Option<scraper::Selector>)
    ensures
        res == spec_selector(q@),
{
    scraper::Selector::parse(q).ok()
}

/// The elements of `doc` that match `sel` (scraper's `Html::select`).
#[verifier::external_body]
fn document_select<'a>(doc: &'a scraper::Html, sel: &scraper::Selector) -> (res: Vec<scraper::ElementRef<'a>>)
    ensures
        res@ == spec_document_select(doc, *sel),
{
    doc.select(sel).collect()
}

/// The elements under `el` that match `sel` (scraper's `ElementRef::select`).
#[verifier::external_body]
fn element_select<'a>(el: &scraper::ElementRef<'a>, sel: &scraper::Selector) -> (res: Vec<scraper::ElementRef<'a>>)
    ensures
        res@ == spec_element_select(*el, *sel),
{
    el.select(sel).collect()
}

/// The value of attribute `name` of `el` (scraper's `ElementRef::attr`).
#[verifier::external_body]
fn element_attr(el: &scraper::ElementRef<'_>, name: &str) -> (res: Option<String>)
    ensures
        opt_view(res) == spec_element_attr(*el, name@),
{
    el.attr(name).map(String::from)
}

/// The child nodes of `el` (`ElementRef::children`), each as the text of a
/// text node (`Node::as_text`) or `None`.
#[verifier::external_body]
fn element_child_texts(el: &scraper::ElementRef<'_>) -> (res: Vec<Option<String>>)
    ensures
        res@.map_values(|o: Option<String>| opt_view(o)) == spec_element_child_texts(*el),
{
    el.children().map(|c| c.value().as_text().map(|t| t.to_string())).collect()
}

/// The text nodes under `el` (scraper's `ElementRef::text`).
#[verifier::external_body]
fn element_texts(el: &scraper::ElementRef<'_>) -> (res: Vec<String>)
    ensures
        string_views(res@) == spec_element_texts(*el),
{
    el.text().map(String::from).collect()
}

/// The parsed selectors and the attribute names by which a row is read.
struct RowQuery {
    pub link: scraper::Selector,
    pub hotfix: scraper::Selector,
    pub heading: scraper::Selector,
    pub badge: scraper::Selector,
    pub release_attr: String,
    pub title_attr: String,
}

/// A badge element as plain values: its text pieces and its title.
pub open spec fn badge_of(b: scraper::ElementRef<'_>, title_attr: Seq<char>) -> BadgeView {
    (spec_element_texts(b), spec_element_attr(b, title_attr))
}

/// The badge elements as plain values.
pub open spec fn badges_of(bs: Seq<scraper::ElementRef<'_>>, title_attr: Seq<char>) -> Seq<BadgeView> {
    bs.map_values(|b: scraper::ElementRef<'_>| badge_of(b, title_attr))
}

/// A release link as plain values: its release attribute, whether the
/// hotfix selector matches under it, the child nodes of the first element
/// under it that matches the heading selector, and its badges in order.
pub open spec fn link_of(
    l: scraper::ElementRef<'_>,
    hotfix: scraper::Selector,
    heading: scraper::Selector,
    badge: scraper::Selector,
    release_attr: Seq<char>,
    title_attr: Seq<char>,
) -> LinkView {
    (
        spec_element_attr(l, release_attr),
        spec_element_select(l, hotfix).len() > 0,
        if spec_element_select(l, heading).len() > 0 {
            Some(spec_element_child_texts(spec_element_select(l, heading)[0]))
        } else {
            None
        },
        badges_of(spec_element_select(l, badge), title_attr),
    )
}

/// A row as plain values: its first element that matches the link
/// selector, read as a release link, or none.
pub open spec fn row_of(
    r: scraper::ElementRef<'_>,
    link: scraper::Selector,
    hotfix: scraper::Selector,
    heading: scraper::Selector,
    badge: scraper::Selector,
    release_attr: Seq<char>,
    title_attr: Seq<char>,
) -> Option<LinkView> {
    if spec_element_select(r, link).len() > 0 {
        Some(link_of(spec_element_select(r, link)[0], hotfix, heading, badge, release_attr, title_attr))
    } else {
        None
    }
}

/// The rows of the HTML document `html` under the query `q`: for each
/// element that matches the row selector, in document order, its reading
/// by `row_of`; `None` where one of the selectors does not parse.
pub open spec fn page_rows(html: Seq<char>, q: PageQueryView) -> Option<Seq<Option<LinkView>>> {
    match (spec_selector(q.0), spec_selector(q.1), spec_selector(q.2), spec_selector(q.3), spec_selector(q.4)) {
        (Some(row), Some(link), Some(hotfix), Some(heading), Some(badge)) => Some(
            spec_document_select(&spec_html_document(html), row).map_values(
                |r: scraper::ElementRef<'_>| row_of(r, link, hotfix, heading, badge, q.5, q.6),
            ),
        ),
        _ => None,
    }
}

/// A release link: its release id, whether the hotfix selector matches
/// under it, the child nodes of its first heading and its badges.
fn link_scan(l: &scraper::ElementRef<'_>, q: &RowQuery) -> (res: LinkScan)
    ensures
        res.view_tuple() == link_of(*l, q.hotfix, q.heading, q.badge, q.release_attr@, q.title_attr@),
{
    let release_id = element_attr(l, q.release_attr.as_str());
    let has_hotfix = element_select(l, &q.hotfix).len() > 0;
    let headings = element_select(l, &q.heading);
    let heading = if headings.len() > 0 {
        Some(element_child_texts(&headings[0]))
    } else {
        None
    };
    let found = element_select(l, &q.badge);
    let ghost all = badges_of(found@, q.title_attr@);
    let mut badges: Vec<BadgeScan> = Vec::new();
    let mut i: usize = 0;
    while i < found.len()
        invariant
            i <= found@.len(),
            all == badges_of(found@, q.title_attr@),
            badge_views(badges@) == all.take(i as int),
        decreases found.len() - i,
    {
        let b = BadgeScan { texts: element_texts(&found[i]), title: element_attr(&found[i], q.title_attr.as_str()) };
        let ghost before = badge_views(badges@);
        assert(b.view_pair() == all[i as int]);
        badges.push(b);
        assert(badge_views(badges@) =~= before.push(all[i as int]));
        assert(all.take(i + 1) =~= all.take(i as int).push(all[i as int]));
        i = i + 1;
    }
    assert(all.take(found@.len() as int) =~= all);
    let res = LinkScan { release_id, has_hotfix, heading, badges };
    assert(res.view_tuple().2 == link_of(*l, q.hotfix, q.heading, q.badge, q.release_attr@, q.title_attr@).2);
    res
}

/// A row of the page, with its first release link if it has one.
fn row_scan(r: &scraper::ElementRef<'_>, q: &RowQuery) -> (res: RowScan)
    ensures
        row_views(seq![res])[0] == row_of(*r, q.link, q.hotfix, q.heading, q.badge, q.release_attr@, q.title_attr@),
{
    let links = element_select(r, &q.link);
    if links.len() > 0 {
        RowScan { link: Some(link_scan(&links[0], q)) }
    } else {
        RowScan { link: None }
    }
}

/// The pieces joined without separator.
pub open spec fn concat_all(pieces: Seq<Seq<char>>) -> Seq<char>
    decreases pieces.len(),
{
    if pieces.len() == 0 {
        Seq::empty()
    } else {
        concat_all(pieces.drop_last()) + pieces.last()
    }
}

/// The text pieces present, joined without separator.
pub open spec fn concat_present(pieces: Seq<Option<Seq<char>>>) -> Seq<char>
    decreases pieces.len(),
{
    if pieces.len() == 0 {
        Seq::empty()
    } else {
        concat_present(pieces.drop_last()) + match pieces.last() {
            Some(t) => t,
            None => Seq::empty(),
        }
    }
}

/// `t` holds `needle` (as `str::contains` compares, by UTF-8 bytes).
pub open spec fn text_contains(t: Seq<char>, needle: Seq<char>) -> bool {
    contains_seq(encode_utf8(t), encode_utf8(needle))
}

/// The channel one badge names, if it names one: its title speaks of the
/// most current release or its text is "Release"; else its title speaks of
/// a beta or its text is "Test" or "Beta".
pub open spec fn badge_channel(b: BadgeView) -> Option<ReleaseChannel> {
    let text = trimmed(concat_all(b.0));
    let title = match b.1 {
        Some(t) => t,
        None => Seq::empty(),
    };
    if text_contains(title, "most current available release"@) || text == "Release"@ {
        Some(ReleaseChannel::Release)
    } else if text_contains(title, "beta is available"@) || text == "Test"@ || text == "Beta"@ {
        Some(ReleaseChannel::Beta)
    } else {
        None
    }
}

/// The channel of a release link: that of its first badge that names
/// one, else beta.
pub open spec fn channel_of_badges(bs: Seq<BadgeView>) -> ReleaseChannel
    decreases bs.len(),
{
    if bs.len() == 0 {
        ReleaseChannel::Beta
    } else {
        match badge_channel(bs[0]) {
            Some(c) => c,
            None => channel_of_badges(bs.drop_first()),
        }
    }
}

/// The text a badge shows: its text pieces joined, trimmed.
pub open spec fn shown_text(b: BadgeView) -> Seq<char> {
    trimmed(concat_all(b.0))
}

/// The title of a badge, empty where it has none.
pub open spec fn shown_title(b: BadgeView) -> Seq<char> {
    match b.1 {
        Some(t) => t,
        None => Seq::empty(),
    }
}

/// How one badge reads: one whose title speaks of the most current
/// release, or that shows "Release", names the release channel; one that
/// does neither but whose title speaks of a beta, or that shows "Test" or
/// "Beta", names the beta channel; any other names none. In particular a
/// badge that shows "Beta" or "Test" never names the release channel
/// unless its title speaks of the most current release.
pub proof fn lemma_badge_reading(b: BadgeView)
    ensures
        text_contains(shown_title(b), "most current available release"@) ==> badge_channel(b)
            == Some(ReleaseChannel::Release),
        shown_text(b) == "Release"@ ==> badge_channel(b) == Some(ReleaseChannel::Release),
        !text_contains(shown_title(b), "most current available release"@) && (shown_text(b) == "Beta"@
            || shown_text(b) == "Test"@) ==> badge_channel(b) == Some(ReleaseChannel::Beta),
        !text_contains(shown_title(b), "most current available release"@) && shown_text(b) != "Release"@
            && text_contains(shown_title(b), "beta is available"@) ==> badge_channel(b) == Some(
            ReleaseChannel::Beta,
        ),
        badge_channel(b) == Some(ReleaseChannel::Release) ==> text_contains(
            shown_title(b),
            "most current available release"@,
        ) || shown_text(b) == "Release"@,
        badge_channel(b) == Some(ReleaseChannel::Beta) ==> text_contains(shown_title(b), "beta is available"@)
            || shown_text(b) == "Test"@ || shown_text(b) == "Beta"@,
{
    if shown_text(b) == "Beta"@ || shown_text(b) == "Test"@ {
        reveal_strlit("Beta");
        reveal_strlit("Test");
        reveal_strlit("Release");
        assert("Beta"@[0] != "Release"@[0]);
        assert("Test"@[0] != "Release"@[0]);
        assert(shown_text(b) != "Release"@);
    }
}

/// A release link is on the release channel only where one of its badges
/// has a title that speaks of the most current release or shows "Release".
pub proof fn lemma_release_needs_release_badge(bs: Seq<BadgeView>)
    ensures
        channel_of_badges(bs) == ReleaseChannel::Release ==> exists|i: int|
            0 <= i < bs.len() && (text_contains(shown_title(#[trigger] bs[i]), "most current available release"@)
                || shown_text(bs[i]) == "Release"@),
    decreases bs.len(),
{
    if bs.len() > 0 {
        lemma_badge_reading(bs[0]);
        lemma_release_needs_release_badge(bs.drop_first());
        if channel_of_badges(bs) == ReleaseChannel::Release && badge_channel(bs[0]) is None {
            let i = choose|i: int|
                0 <= i < bs.drop_first().len() && (text_contains(
                    shown_title(#[trigger] bs.drop_first()[i]),
                    "most current available release"@,
                ) || shown_text(bs.drop_first()[i]) == "Release"@);
            assert(bs.drop_first()[i] == bs[i + 1]);
        }
    }
}

/// The channel of a release link is decided by its first badge that names
/// a channel (by title or by text): release if that badge passes the
/// release test, else beta.
pub proof fn lemma_first_naming_badge_decides(bs: Seq<BadgeView>, i: int)
    requires
        0 <= i < bs.len(),
        badge_channel(bs[i]) is Some,
        forall|j: int| 0 <= j < i ==> badge_channel(#[trigger] bs[j]) is None,
    ensures
        Some(channel_of_badges(bs)) == badge_channel(bs[i]),
    decreases i,
{
    if i > 0 {
        assert(badge_channel(bs[0]) is None);
        assert forall|j: int| 0 <= j < i - 1 implies badge_channel(#[trigger] bs.drop_first()[j]) is None by {
            assert(bs.drop_first()[j] == bs[j + 1]);
        }
        assert(bs.drop_first()[i - 1] == bs[i]);
        lemma_first_naming_badge_decides(bs.drop_first(), i - 1);
    }
}

/// A release link none of whose badges names a channel is on the beta channel.
pub proof fn lemma_no_naming_badge_is_beta(bs: Seq<BadgeView>)
    requires
        forall|j: int| 0 <= j < bs.len() ==> badge_channel(#[trigger] bs[j]) is None,
    ensures
        channel_of_badges(bs) == ReleaseChannel::Beta,
    decreases bs.len(),
{
    if bs.len() > 0 {
        assert(badge_channel(bs[0]) is None);
        assert forall|j: int| 0 <= j < bs.len() - 1 implies badge_channel(#[trigger] bs.drop_first()[j]) is None by {
            assert(bs.drop_first()[j] == bs[j + 1]);
        }
        lemma_no_naming_badge_is_beta(bs.drop_first());
    }
}

/// An entry as plain values: (revision, build number, channel, hotfix).
pub type EntryView = (Seq<char>, Seq<char>, ReleaseChannel, bool);

impl UpdatePageEntry {
    /// The entry as plain values.
    pub open spec fn view_tuple(&self) -> EntryView {
        (self.revision@, self.build_number@, self.channel, self.is_hotfix)
    }
}

/// The entries as plain values.
pub open spec fn entry_views(v: Seq<UpdatePageEntry>) -> Seq<EntryView> {
    v.map_values(|e: UpdatePageEntry| e.view_tuple())
}

/// The entry a row gives: none without a link or without a heading in the
/// link; else the release id (empty when absent), the trimmed direct text
/// of the heading, the channel of the badges and the hotfix mark.
pub open spec fn entry_of_row(r: Option<LinkView>) -> Option<EntryView> {
    match r {
        None => None,
        Some(l) => match l.2 {
            None => None,
            Some(h) => Some(
                (
                    match l.0 {
                        Some(id) => id,
                        None => Seq::empty(),
                    },
                    trimmed(concat_present(h)),
                    channel_of_badges(l.3),
                    l.1,
                ),
            ),
        },
    }
}

/// The entries of the rows, in page order.
pub open spec fn entries_of_rows(rows: Seq<Option<LinkView>>) -> Seq<EntryView>
    decreases rows.len(),
{
    if rows.len() == 0 {
        Seq::empty()
    } else {
        match entry_of_row(rows.last()) {
            Some(e) => entries_of_rows(rows.drop_last()).push(e),
            None => entries_of_rows(rows.drop_last()),
        }
    }
}

/// The pieces joined without separator.
fn concat_strings(pieces: &Vec<String>) -> (res: String)
    ensures
        res@ == concat_all(string_views(pieces@)),
{
    let ghost ps = string_views(pieces@);
    let mut out = String::new();
    let mut i: usize = 0;
    assert(ps.take(0) =~= Seq::<Seq<char>>::empty());
    while i < pieces.len()
        invariant
            i <= pieces@.len(),
            ps == string_views(pieces@),
            out@ == concat_all(ps.take(i as int)),
        decreases pieces@.len() - i,
    {
        assert(ps.take(i + 1).drop_last() =~= ps.take(i as int));
        out.append(pieces[i].as_str());
        i = i + 1;
    }
    assert(ps.take(pieces@.len() as int) =~= ps);
    out
}

/// The text pieces present, joined without separator.
fn concat_present_strings(pieces: &Vec<Option<String>>) -> (res: String)
    ensures
        res@ == concat_present(pieces@.map_values(|o: Option<String>| opt_view(o))),
{
    let ghost ps = pieces@.map_values(|o: Option<String>| opt_view(o));
    let mut out = String::new();
    let mut i: usize = 0;
    assert(ps.take(0) =~= Seq::<Option<Seq<char>>>::empty());
    while i < pieces.len()
        invariant
            i <= pieces@.len(),
            ps == pieces@.map_values(|o: Option<String>| opt_view(o)),
            out@ == concat_present(ps.take(i as int)),
        decreases pieces@.len() - i,
    {
        assert(ps.take(i + 1).drop_last() =~= ps.take(i as int));
        match &pieces[i] {
            Some(t) => out.append(t.as_str()),
            None => {},
        }
        i = i + 1;
    }
    assert(ps.take(pieces@.len() as int) =~= ps);
    out
}

/// Whether `t` holds `needle`.
fn str_contains(t: &str, needle: &str) -> (res: bool)
    ensures
        res == text_contains(t@, needle@),
{
    bytes_contain(t.as_bytes(), needle.as_bytes())
}

/// The channel one badge names, if it names one.
fn channel_of_badge(b: &BadgeScan) -> (res: Option<ReleaseChannel>)
    ensures
        res == badge_channel(b.view_pair()),
{
    let joined = concat_strings(&b.texts);
    let text = trim(joined.as_str());
    let no_title = String::new();
    let title: &String = match &b.title {
        Some(t) => t,
        None => &no_title,
    };
    if str_contains(title.as_str(), "most current available release") || str_eq(
        text.as_str(),
        "Release",
    ) {
        Some(ReleaseChannel::Release)
    } else if str_contains(title.as_str(), "beta is available") || str_eq(text.as_str(), "Test")
        || str_eq(text.as_str(), "Beta") {
        Some(ReleaseChannel::Beta)
    } else {
        None
    }
}

/// The channel of a release link with badges `badges`: that of the first
/// badge that names one, else beta.
pub fn parse_channel_from_badges(badges: &Vec<BadgeScan>) -> (res: ReleaseChannel)
    ensures
        res == channel_of_badges(badge_views(badges@)),
{
    let ghost bs = badge_views(badges@);
    let mut i: usize = 0;
    assert(bs.skip(0) =~= bs);
    while i < badges.len()
        invariant
            i <= badges@.len(),
            bs == badge_views(badges@),
            channel_of_badges(bs) == channel_of_badges(bs.skip(i as int)),
        decreases badges@.len() - i,
    {
        assert(bs.skip(i as int)[0] == badges@[i as int].view_pair());
        assert(bs.skip(i as int).drop_first() =~= bs.skip(i + 1));
        match channel_of_badge(&badges[i]) {
            Some(c) => {
                return c;
            },
            None => {},
        }
        i = i + 1;
    }
    assert(bs.skip(badges@.len() as int) =~= Seq::<BadgeView>::empty());
    ReleaseChannel::Beta
}

/// The entry a row gives, if it gives one.
fn entry_from_row(r: &RowScan) -> (res: Option<UpdatePageEntry>)
    ensures
        match res {
            Some(e) => entry_of_row(row_views(seq![*r])[0]) == Some(e.view_tuple()),
            None => entry_of_row(row_views(seq![*r])[0]) is None,
        },
{
    match &r.link {
        None => None,
        Some(l) => match &l.heading {
            None => None,
            Some(h) => {
                let revision = match &l.release_id {
                    Some(id) => id.clone(),
                    None => String::new(),
                };
                let direct = concat_present_strings(h);
                let build_number = trim(direct.as_str());
                let channel = parse_channel_from_badges(&l.badges);
                Some(UpdatePageEntry { revision, build_number, channel, is_hotfix: l.has_hotfix })
            },
        },
    }
}

/// The entries of the scanned rows, in page order: each row that has a
/// release link with a heading gives one.
pub fn entries_from_rows(rows: &Vec<RowScan>) -> (res: Vec<UpdatePageEntry>)
    ensures
        entry_views(res@) == entries_of_rows(row_views(rows@)),
{
    let ghost rs = row_views(rows@);
    let mut out: Vec<UpdatePageEntry> = Vec::new();
    let mut i: usize = 0;
    assert(rs.take(0) =~= Seq::<Option<LinkView>>::empty());
    assert(entry_views(out@) =~= Seq::<EntryView>::empty());
    while i < rows.len()
        invariant
            i <= rows@.len(),
            rs == row_views(rows@),
            entry_views(out@) == entries_of_rows(rs.take(i as int)),
        decreases rows@.len() - i,
    {
        assert(rs.take(i + 1).drop_last() =~= rs.take(i as int));
        assert(rs.take(i + 1).last() == rs[i as int]);
        assert(row_views(seq![rows@[i as int]])[0] == rs[i as int]);
        let ghost before = entry_views(out@);
        match entry_from_row(&rows[i]) {
            Some(e) => {
                out.push(e);
                assert(entry_views(out@) =~= before.push(out@.last().view_tuple()));
            },
            None => {},
        }
        i = i + 1;
    }
    assert(rs.take(rows@.len() as int) =~= rs);
    out
}

/// The releases listed on the update page `html`: the entries of the rows
/// that scraper finds under the page's query. A query selector that does
/// not parse gives an `HtmlParse` error.
pub fn parse_update_page_html(html: &str) -> (res: AppResult<UpdatePageData>)
    ensures
        match page_rows(html@, update_page_query()) {
            Some(rows) => res matches Ok(d) && entry_views(d.entries@) == entries_of_rows(rows),
            None => res matches Err(AppError::HtmlParse(m)) && m@ == "invalid update page selector"@,
        },
{
    let q = page_query();
    let (row, link, hotfix, heading, badge) = match (
        parse_selector(q.row.as_str()),
        parse_selector(q.link.as_str()),
        parse_selector(q.hotfix.as_str()),
        parse_selector(q.heading.as_str()),
        parse_selector(q.badge.as_str()),
    ) {
        (Some(row), Some(link), Some(hotfix), Some(heading), Some(badge)) => (row, link, hotfix, heading, badge),
        _ => {
            return Err(AppError::HtmlParse(owned("invalid update page selector")));
        },
    };
    let rq = RowQuery { link, hotfix, heading, badge, release_attr: q.release_attr, title_attr: q.title_attr };
    let doc = parse_document(html);
    let found = document_select(&doc, &row);
    let ghost all = found@.map_values(
        |r: scraper::ElementRef<'_>| row_of(r, rq.link, rq.hotfix, rq.heading, rq.badge, rq.release_attr@, rq.title_attr@),
    );
    let mut rows: Vec<RowScan> = Vec::new();
    let mut i: usize = 0;
    while i < found.len()
        invariant
            i <= found@.len(),
            all == found@.map_values(
                |r: scraper::ElementRef<'_>| row_of(r, rq.link, rq.hotfix, rq.heading, rq.badge, rq.release_attr@, rq.title_attr@),
            ),
            row_views(rows@) == all.take(i as int),
        decreases found.len() - i,
    {
        let r = row_scan(&found[i], &rq);
        let ghost before = row_views(rows@);
        assert(row_views(seq![r])[0] == all[i as int]);
        rows.push(r);
        assert(row_views(rows@) =~= before.push(all[i as int]));
        assert(all.take(i + 1) =~= all.take(i as int).push(all[i as int]));
        i = i + 1;
    }
    assert(all.take(found@.len() as int) =~= all);
    Ok(UpdatePageData { entries: entries_from_rows(&rows) })
}

/// The text that `{:?}` gives for a string: the string quoted, with its
/// characters escaped as `str`'s `Debug` impl escapes them.
pub uninterp spec fn spec_debug_str(s: Seq<char>) -> Seq<char>;

/// Calls `<str as Debug>::fmt` through `format!("{:?}", s)`. The escaping
/// rules take pages, so the result is named and nothing more is said of it.
#[verifier::external_body]
fn debug_str(s: &str) -> (res: String)
    ensures
        res@ == spec_debug_str(s@),
{
    format!("{:?}", s)
}

/// The debug name of a channel.
pub open spec fn channel_debug(c: ReleaseChannel) -> Seq<char> {
    match c {
        ReleaseChannel::Release => "Release"@,
        ReleaseChannel::Beta => "Beta"@,
    }
}

/// The debug text of one entry: its fields by name, in declaration order.
pub open spec fn entry_debug(e: UpdatePageEntry) -> Seq<char> {
    "UpdatePageEntry { revision: "@ + spec_debug_str(e.revision@) + ", build_number: "@
        + spec_debug_str(e.build_number@) + ", channel: "@ + channel_debug(e.channel)
        + ", is_hotfix: "@ + (if e.is_hotfix {
        "true"@
    } else {
        "false"@
    }) + " }"@
}

/// The debug texts of the entries, joined by `", "`.
pub open spec fn entries_debug(es: Seq<UpdatePageEntry>) -> Seq<char>
    decreases es.len(),
{
    if es.len() == 0 {
        Seq::empty()
    } else if es.len() == 1 {
        entry_debug(es[0])
    } else {
        entries_debug(es.drop_last()) + ", "@ + entry_debug(es.last())
    }
}

/// The debug text of the page data, as a derived `Debug` writes it.
pub open spec fn page_debug(p: UpdatePageData) -> Seq<char> {
    "UpdatePageData { entries: ["@ + entries_debug(p.entries@) + "] }"@
}

fn channel_debug_text(c: &ReleaseChannel) -> (res: &'static str)
    ensures
        res@ == channel_debug(*c),
{
    match c {
        ReleaseChannel::Release => "Release",
        ReleaseChannel::Beta => "Beta",
    }
}

fn entry_debug_text(e: &UpdatePageEntry) -> (res: String)
    ensures
        res@ == entry_debug(*e),
{
    let mut m = String::from_str("UpdatePageEntry { revision: ");
    let r = debug_str(e.revision.as_str());
    m.append(r.as_str());
    m.append(", build_number: ");
    let b = debug_str(e.build_number.as_str());
    m.append(b.as_str());
    m.append(", channel: ");
    m.append(channel_debug_text(&e.channel));
    m.append(", is_hotfix: ");
    m.append(if e.is_hotfix { "true" } else { "false" });
    m.append(" }");
    m
}

/// The page data as `{:?}` prints it, with its `derive`d `Debug` layout.
pub fn debug_text(page: &UpdatePageData) -> (res: String)
    ensures
        res@ == page_debug(*page),
{
    let mut m = String::from_str("UpdatePageData { entries: [");
    let ghost lead = m@;
    let mut i: usize = 0;
    while i < page.entries.len()
        invariant
            i <= page.entries@.len(),
            lead == "UpdatePageData { entries: ["@,
            m@ == lead + entries_debug(page.entries@.take(i as int)),
        decreases page.entries@.len() - i,
    {
        let ghost before = m@;
        if i > 0 {
            m.append(", ");
        }
        let t = entry_debug_text(&page.entries[i]);
        m.append(t.as_str());
        proof {
            let es = page.entries@.take(i + 1);
            assert(es.drop_last() =~= page.entries@.take(i as int));
            assert(es.last() == page.entries@[i as int]);
        }
        i = i + 1;
    }
    assert(page.entries@.take(page.entries@.len() as int) =~= page.entries@);
    m.append("] }");
    m
}

/// The entry that a feed item names, looked up first by build number,
/// then by revision.
pub open spec fn version_entry(es: Seq<UpdatePageEntry>, revision: Seq<char>, build: Seq<char>) -> Option<EntryView> {
    match first_with_build(es, build) {
        Some(i) => Some(es[i].view_tuple()),
        None => match first_with_revision(es, revision) {
            Some(i) => Some(es[i].view_tuple()),
            None => None,
        },
    }
}

/// The release of the update page that a feed item announces: the first
/// entry with its build number, else the first with its revision. Where
/// neither is listed, a `RevisionNotFound` error names both and the page.
pub fn get_version_info(page_data: &UpdatePageData, revision: &str, build_number: &str) -> (res:
    AppResult<UpdatePageEntry>)
    ensures
        match res {
            Ok(e) => version_entry(page_data.entries@, revision@, build_number@) == Some(
                e.view_tuple(),
            ),
            Err(e) => version_entry(page_data.entries@, revision@, build_number@) is None
                && (e matches AppError::RevisionNotFound(m) && m@ == ("build_number="@
                + build_number@) + (", revision="@ + revision@) + ", page_data="@ + page_debug(
                *page_data,
            )),
        },
{
    match page_data.find_by_build_number(build_number) {
        Some(e) => Ok(e.copy()),
        None => match page_data.find_by_revision(revision) {
            Some(e) => Ok(e.copy()),
            None => {
                let mut m = concat2("build_number=", build_number);
                let ghost lead1 = m@;
                m.append(", revision=");
                m.append(revision);
                m.append(", page_data=");
                let ghost lead = m@;
                let d = debug_text(page_data);
                m.append(d.as_str());
                assert(lead =~= ("build_number="@ + build_number@) + (", revision="@ + revision@)
                    + ", page_data="@);
                Err(AppError::RevisionNotFound(m))
            },
        },
    }
}

/// The position of the first entry, given as plain values, with build number `b`.
pub open spec fn first_build_view(es: Seq<EntryView>, b: Seq<char>) -> Option<int> {
    if exists|i: int| 0 <= i < es.len() && es[i].1 == b {
        Some(choose|i: int| 0 <= i < es.len() && es[i].1 == b && forall|j: int| 0 <= j < i ==> es[j].1 != b)
    } else {
        None
    }
}

/// The position of the first entry, given as plain values, with revision `r`.
pub open spec fn first_revision_view(es: Seq<EntryView>, r: Seq<char>) -> Option<int> {
    if exists|i: int| 0 <= i < es.len() && es[i].0 == r {
        Some(choose|i: int| 0 <= i < es.len() && es[i].0 == r && forall|j: int| 0 <= j < i ==> es[j].0 != r)
    } else {
        None
    }
}

/// The entry for a feed item among entries given as plain values: the
/// first with its build number, else the first with its revision.
pub open spec fn version_entry_views(es: Seq<EntryView>, revision: Seq<char>, build: Seq<char>) -> Option<EntryView> {
    match first_build_view(es, build) {
        Some(i) => Some(es[i]),
        None => match first_revision_view(es, revision) {
            Some(i) => Some(es[i]),
            None => None,
        },
    }
}

proof fn lemma_first_build(es: Seq<UpdatePageEntry>, evs: Seq<EntryView>, b: Seq<char>)
    requires
        evs.len() == es.len(),
        forall|i: int| 0 <= i < es.len() ==> (#[trigger] evs[i]).1 == es[i].build_number@,
    ensures
        first_with_build(es, b) == first_build_view(evs, b),
        first_with_build(es, b) matches Some(i) ==> 0 <= i < es.len(),
{
    if exists|i: int| 0 <= i < es.len() && es[i].build_number@ == b {
        let k = choose|i: int| 0 <= i < es.len() && es[i].build_number@ == b;
        lemma_first_witness(es, |e: UpdatePageEntry| e.build_number@ == b, k);
        lemma_first_witness(evs, |e: EntryView| e.1 == b, k);
        let i1 = choose|i: int| 0 <= i < es.len() && es[i].build_number@ == b && forall|j: int| 0 <= j < i ==> es[j].build_number@ != b;
        let i2 = choose|i: int| 0 <= i < evs.len() && evs[i].1 == b && forall|j: int| 0 <= j < i ==> evs[j].1 != b;
        assert(i1 == i2) by {
            if i1 < i2 {
                assert(evs[i1].1 == b);
            } else if i2 < i1 {
                assert(evs[i2].1 == b);
            }
        }
    } else {
        assert forall|i: int| 0 <= i < evs.len() implies evs[i].1 != b by {}
    }
}

proof fn lemma_first_revision(es: Seq<UpdatePageEntry>, evs: Seq<EntryView>, r: Seq<char>)
    requires
        evs.len() == es.len(),
        forall|i: int| 0 <= i < es.len() ==> (#[trigger] evs[i]).0 == es[i].revision@,
    ensures
        first_with_revision(es, r) == first_revision_view(evs, r),
        first_with_revision(es, r) matches Some(i) ==> 0 <= i < es.len(),
{
    if exists|i: int| 0 <= i < es.len() && es[i].revision@ == r {
        let k = choose|i: int| 0 <= i < es.len() && es[i].revision@ == r;
        lemma_first_witness(es, |e: UpdatePageEntry| e.revision@ == r, k);
        lemma_first_witness(evs, |e: EntryView| e.0 == r, k);
        let i1 = choose|i: int| 0 <= i < es.len() && es[i].revision@ == r && forall|j: int| 0 <= j < i ==> es[j].revision@ != r;
        let i2 = choose|i: int| 0 <= i < evs.len() && evs[i].0 == r && forall|j: int| 0 <= j < i ==> evs[j].0 != r;
        assert(i1 == i2) by {
            if i1 < i2 {
                assert(evs[i1].0 == r);
            } else if i2 < i1 {
                assert(evs[i2].0 == r);
            }
        }
    } else {
        assert forall|i: int| 0 <= i < evs.len() implies evs[i].0 != r by {}
    }
}

/// Looking an entry up in a list is looking it up in its plain values.
pub proof fn lemma_version_entry_views(es: Seq<UpdatePageEntry>, evs: Seq<EntryView>, revision: Seq<char>, build: Seq<char>)
    requires
        evs.len() == es.len(),
        forall|i: int| 0 <= i < es.len() ==> (#[trigger] evs[i]) == es[i].view_tuple(),
    ensures
        version_entry(es, revision, build) == version_entry_views(evs, revision, build),
{
    lemma_first_build(es, evs, build);
    lemma_first_revision(es, evs, revision);
    match first_with_build(es, build) {
        Some(i) => {
            assert(evs[i] == es[i].view_tuple());
        },
        None => match first_with_revision(es, revision) {
            Some(i) => {
                assert(evs[i] == es[i].view_tuple());
            },
            None => {},
        },
    }
}

} // verus!
