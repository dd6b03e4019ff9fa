//! The data that flows through the publisher: feed items, update-page
//! entries, glossary search results and the notification that is published.
use vstd::prelude::*;
use crate::bytes::{bytes_contain, contains_seq};
use crate::error::{AppError, AppResult};
use crate::text::{chars_of, concat4, has_prefix, lemma_prefix_of_concat, owned, str_eq, string_views};
use vstd::utf8::encode_utf8;

verus! {

/// One glossary candidate: an English original and its official translation.
pub struct PoTranslationEntry {
    pub original: String,
    pub translation: String,
}

impl PoTranslationEntry {
    /// The pair (original, translation).
    pub open spec fn pair(&self) -> (Seq<char>, Seq<char>) {
        (self.original@, self.translation@)
    }
}

/// The (original, translation) pairs of a list of candidates.
pub open spec fn pairs_of(v: Seq<PoTranslationEntry>) -> Seq<(Seq<char>, Seq<char>)> {
    v.map_values(|e: PoTranslationEntry| e.pair())
}

/// The candidates found for one searched term.
pub struct PoSearchResult {
    pub term: String,
    pub candidates: Vec<PoTranslationEntry>,
}

/// The position of the candidate to use for `term`: the first whose
/// original is the term itself, else the first candidate, else none.
pub open spec fn best_index(cands: Seq<PoTranslationEntry>, term: Seq<char>) -> Option<int> {
    if exists|j: int| 0 <= j < cands.len() && cands[j].original@ == term {
        Some(choose|j: int| 0 <= j < cands.len() && cands[j].original@ == term && forall|k: int| 0 <= k < j ==> cands[k].original@ != term)
    } else if cands.len() > 0 {
        Some(0)
    } else {
        None
    }
}

/// Which candidate is used for a term: none where there are no
/// candidates; where some candidate's original is the term, the first such;
/// otherwise the first candidate, the best ranked.
pub proof fn lemma_best_match_choice(cands: Seq<PoTranslationEntry>, term: Seq<char>)
    ensures
        cands.len() == 0 ==> best_index(cands, term) is None,
        (exists|j: int| 0 <= j < cands.len() && cands[j].original@ == term) ==> (best_index(cands, term) matches Some(
            i,
        ) && 0 <= i < cands.len() && cands[i].original@ == term && forall|k: int| 0 <= k < i ==> (#[trigger] cands[k]).original@
            != term),
        cands.len() > 0 && (forall|j: int| 0 <= j < cands.len() ==> (#[trigger] cands[j]).original@ != term) ==> best_index(
            cands,
            term,
        ) == Some(0int),
{
    if exists|j: int| 0 <= j < cands.len() && cands[j].original@ == term {
        let k = choose|j: int| 0 <= j < cands.len() && cands[j].original@ == term;
        lemma_first_witness(cands, |c: PoTranslationEntry| c.original@ == term, k);
    }
}

impl PoSearchResult {
    /// The candidate to use for the term: the first one whose original is
    /// the term itself, else the first candidate, else none.
    pub fn best_match(&self) -> (res: Option<&PoTranslationEntry>)
        ensures
            match best_index(self.candidates@, self.term@) {
                Some(i) => res == Some(&self.candidates@[i]),
                None => res is None,
            },
    {
        let n = self.candidates.len();
        let mut i: usize = 0;
        while i < n
            invariant
                n == self.candidates@.len(),
                i <= n,
                forall|j: int| 0 <= j < i ==> self.candidates@[j].original@ != self.term@,
            decreases n - i,
        {
            if str_eq(self.candidates[i].original.as_str(), self.term.as_str()) {
                let ghost cs = self.candidates@;
                let ghost w = choose|j: int| 0 <= j < cs.len() && cs[j].original@ == self.term@ && forall|k: int| 0 <= k < j ==> cs[k].original@ != self.term@;
                assert(cs[i as int].original@ == self.term@);
                assert(w == i) by {
                    if w < i {
                    } else if w > i {
                    }
                }
                return Some(&self.candidates[i]);
            }
            i = i + 1;
        }
        if n > 0 {
            Some(&self.candidates[0])
        } else {
            None
        }
    }
}


broadcast use vstd::string::group_string_axioms;

/// The channel an update was released on.
#[derive(Debug)]
pub enum ReleaseChannel {
    Release,
    Beta,
}

impl ReleaseChannel {
    /// The name of the channel in published notifications.
    pub open spec fn name_spec(&self) -> Seq<char> {
        match self {
            ReleaseChannel::Release => "release"@,
            ReleaseChannel::Beta => "beta"@,
        }
    }

    /// "release" or "beta".
    pub fn as_str(&self) -> (res: &'static str)
        ensures
            res@ == self.name_spec(),
    {
        match self {
            ReleaseChannel::Release => "release",
            ReleaseChannel::Beta => "beta",
        }
    }

    /// The channel of a notification name: "release" or "beta"; none for any other text.
    pub fn from_name(name: &str) -> (res: Option<ReleaseChannel>)
        ensures
            match res {
                Some(c) => c.name_spec() == name@,
                None => name@ != "release"@ && name@ != "beta"@,
            },
    {
        if str_eq(name, "release") {
            Some(ReleaseChannel::Release)
        } else if str_eq(name, "beta") {
            Some(ReleaseChannel::Beta)
        } else {
            None
        }
    }

    /// A copy of the channel.
    pub fn copy(&self) -> (res: ReleaseChannel)
        ensures
            res == *self,
    {
        match self {
            ReleaseChannel::Release => ReleaseChannel::Release,
            ReleaseChannel::Beta => ReleaseChannel::Beta,
        }
    }
}

/// A point in time: seconds since the Unix epoch and the nanoseconds past them.
pub struct Timestamp {
    pub secs: i64,
    pub nanos: u32,
}

/// `a` is no later than `b`.
pub open spec fn ts_le(a: Timestamp, b: Timestamp) -> bool {
    a.secs < b.secs || (a.secs == b.secs && a.nanos <= b.nanos)
}

impl Timestamp {
    /// Whether `self` is no later than `other`.
    pub fn le(&self, other: &Timestamp) -> (res: bool)
        ensures
            res == ts_le(*self, *other),
    {
        self.secs < other.secs || (self.secs == other.secs && self.nanos <= other.nanos)
    }
}

/// The fields of a feed item that the publisher reads; each may be absent.
pub struct RssItem {
    pub title: Option<String>,
    pub link: Option<String>,
    pub description: Option<String>,
    pub pub_date: Option<String>,
}

/// A feed item as plain values: (title, link, description, publication date).
pub type RssItemView = (Option<Seq<char>>, Option<Seq<char>>, Option<Seq<char>>, Option<Seq<char>>);

/// The optional text as plain values.
pub open spec fn opt_text(o: Option<String>) -> Option<Seq<char>> {
    match o {
        Some(s) => Some(s@),
        None => None,
    }
}

impl View for RssItem {
    type V = RssItemView;

    open spec fn view(&self) -> RssItemView {
        (opt_text(self.title), opt_text(self.link), opt_text(self.description), opt_text(self.pub_date))
    }
}

/// The text of an optional text, empty when absent.
pub open spec fn or_empty(o: Option<Seq<char>>) -> Seq<char> {
    match o {
        Some(t) => t,
        None => Seq::empty(),
    }
}

/// An update item as plain values: (build number, link, description,
/// (seconds, nanoseconds) of the publication date, revision).
pub type UpdateItemView = (Seq<char>, Seq<char>, Seq<char>, (i64, u32), Seq<char>);

/// The update a feed item announces, or none where its publication date
/// does not parse.
pub open spec fn update_of_item(item: RssItemView) -> Option<UpdateItemView> {
    match spec_rfc2822_timestamp(or_empty(item.3)) {
        Some(t) => Some(
            (
                or_empty(item.0),
                or_empty(item.1),
                or_empty(item.2),
                t,
                revision_of(spec_url_path_segments(or_empty(item.1))),
            ),
        ),
        None => None,
    }
}

/// The text of an optional string, empty when absent.
pub fn string_or_empty(s: &Option<String>) -> (res: String)
    ensures
        res@ == or_empty(opt_text(*s)),
{
    match s {
        Some(t) => t.clone(),
        None => String::new(),
    }
}

/// The Unix timestamp of the date that chrono's `DateTime::parse_from_rfc2822`
/// reads from `s`, or `None` where it reports an error.
pub uninterp spec fn spec_rfc2822_timestamp(s: Seq<char>) -> Option<(i64, u32)>;

/// Calls chrono's `DateTime::parse_from_rfc2822` and reports the parsed
/// date as its Unix seconds and sub-second nanoseconds (`timestamp`,
/// `timestamp_subsec_nanos`). The result is named by
/// `spec_rfc2822_timestamp`; the text of an error is chrono's and is not stated.
#[verifier::external_body]
pub(crate) fn parse_rfc2822(s: &str) -> (res: Result<Timestamp, String>)
    ensures
        match res {
            Ok(t) => spec_rfc2822_timestamp(s@) == Some((t.secs, t.nanos)),
            Err(_) => spec_rfc2822_timestamp(s@) is None,
        },
{
    chrono::DateTime::parse_from_rfc2822(s)
        .map(|d| Timestamp { secs: d.timestamp(), nanos: d.timestamp_subsec_nanos() })
        .map_err(|e| e.to_string())
}

/// The RFC 3339 text that chrono's `DateTime::<Utc>::to_rfc3339` gives for
/// the instant `DateTime::from_timestamp(secs, nanos)`, or `None` where
/// `from_timestamp` reports the instant out of range.
pub uninterp spec fn spec_rfc3339(secs: i64, nanos: u32) -> Option<Seq<char>>;

/// Calls chrono's `DateTime::from_timestamp` and formats the instant with
/// `to_rfc3339`; the result is named by `spec_rfc3339`.
#[verifier::external_body]
pub(crate) fn rfc3339_of(secs: i64, nanos: u32) -> (res: Option<String>)
    ensures
        match res {
            Some(t) => spec_rfc3339(secs, nanos) == Some(t@),
            None => spec_rfc3339(secs, nanos) is None,
        },
{
    chrono::DateTime::from_timestamp(secs, nanos).map(|d| d.to_rfc3339())
}

/// The path segments that the url crate gives for `link`: `Url::parse`,
/// then `path_segments`; `None` when the link does not parse or cannot be a base.
pub uninterp spec fn spec_url_path_segments(link: Seq<char>) -> Option<Seq<Seq<char>>>;

/// Calls the url crate's `Url::parse` and `Url::path_segments`; the
/// result is named by `spec_url_path_segments`.
#[verifier::external_body]
pub(crate) fn url_path_segments(link: &str) -> (res: Option<Vec<String>>)
    ensures
        match res {
            Some(v) => spec_url_path_segments(link@) == Some(string_views(v@)),
            None => spec_url_path_segments(link@) is None,
        },
{
    url::Url::parse(link).ok().and_then(|u| u.path_segments().map(|p| p.map(String::from).collect()))
}

/// "-r" stands at position `i` of `s`.
pub open spec fn dash_r_here(s: Seq<char>, i: int) -> bool {
    0 <= i < s.len() - 1 && s[i] == '-' && s[i + 1] == 'r'
}

/// The first position of "-r" in `s`.
pub open spec fn dash_r_at(s: Seq<char>) -> Option<int> {
    if exists|i: int| #[trigger] dash_r_here(s, i) {
        Some(choose|i: int| #[trigger] dash_r_here(s, i) && forall|j: int| 0 <= j < i ==> !dash_r_here(s, j))
    } else {
        None
    }
}

/// What follows the first "-r" of a segment, if it holds one.
pub open spec fn segment_revision(seg: Seq<char>) -> Option<Seq<char>> {
    match dash_r_at(seg) {
        Some(i) => Some(seg.skip(i + 2)),
        None => None,
    }
}

/// The revision in a list of path segments: what follows the first "-r"
/// of the first segment that holds one; empty when none does.
pub open spec fn revision_in_segments(segs: Seq<Seq<char>>) -> Seq<char>
    decreases segs.len(),
{
    if segs.len() == 0 {
        Seq::empty()
    } else {
        match segment_revision(segs[0]) {
            Some(r) => r,
            None => revision_in_segments(segs.drop_first()),
        }
    }
}

/// The revision of a link whose path segments are `segs`.
pub open spec fn revision_of(segs: Option<Seq<Seq<char>>>) -> Seq<char> {
    match segs {
        Some(s) => revision_in_segments(s),
        None => Seq::empty(),
    }
}

/// The position of the first "-r" in `s`.
fn find_dash_r(s: &str) -> (res: Option<usize>)
    ensures
        match res {
            Some(i) => dash_r_at(s@) == Some(i as int) && dash_r_here(s@, i as int),
            None => dash_r_at(s@) is None,
        },
{
    let cs = chars_of(s);
    let n = cs.len();
    if n < 2 {
        assert forall|k: int| !dash_r_here(s@, k) by {}
        return None;
    }
    let mut i: usize = 0;
    while i < n - 1
        invariant
            n == cs@.len(),
            n >= 2,
            i <= n - 1,
            cs@ == s@,
            forall|j: int| 0 <= j < i ==> !dash_r_here(s@, j),
        decreases n - i,
    {
        if cs[i] == '-' && cs[i + 1] == 'r' {
            assert(dash_r_here(s@, i as int));
            let ghost w = choose|k: int| #[trigger] dash_r_here(s@, k) && forall|j: int| 0 <= j < k ==> !dash_r_here(s@, j);
            assert(w == i) by {
                if w < i {
                } else if w > i {
                }
            }
            return Some(i);
        }
        i = i + 1;
    }
    assert forall|k: int| !dash_r_here(s@, k) by {
        if 0 <= k < i {
        }
    }
    None
}

/// What follows the first "-r" of `seg`, if it holds one.
fn revision_in_segment(seg: &str) -> (res: Option<String>)
    ensures
        match segment_revision(seg@) {
            Some(r) => res matches Some(x) && x@ == r,
            None => res is None,
        },
{
    match find_dash_r(seg) {
        Some(i) => {
            let n = seg.unicode_len();
            let rest = seg.substring_char(i + 2, n);
            assert(rest@ =~= seg@.skip(i + 2));
            Some(owned(rest))
        },
        None => None,
    }
}

/// The revision in the path segments `segs`.
pub fn revision_from_segments(segs: &Option<Vec<String>>) -> (res: String)
    ensures
        res@ == revision_of(
            match segs {
                Some(v) => Some(string_views(v@)),
                None => None,
            },
        ),
{
    match segs {
        None => String::new(),
        Some(v) => {
            let ghost all = string_views(v@);
            let mut k: usize = 0;
            assert(all.skip(0) =~= all);
            while k < v.len()
                invariant
                    k <= v@.len(),
                    all == string_views(v@),
                    segs matches Some(w) && w@ == v@,
                    revision_in_segments(all) == revision_in_segments(all.skip(k as int)),
                decreases v@.len() - k,
            {
                let seg = v[k].as_str();
                assert(all.skip(k as int)[0] == seg@);
                assert(all.skip(k as int).drop_first() =~= all.skip(k + 1));
                let found = revision_in_segment(seg);
                match found {
                    Some(r) => {
                        assert(segment_revision(all.skip(k as int)[0]) == Some(r@));
                        assert(revision_in_segments(all.skip(k as int)) == r@);
                        return r;
                    },
                    None => {},
                }
                k = k + 1;
            }
            assert(all.skip(v@.len() as int) =~= Seq::<Seq<char>>::empty());
            String::new()
        },
    }
}

/// One update announced in the feed.
pub struct RssUpdateItem {
    pub build_number: String,
    pub link: String,
    pub description_html: String,
    pub pub_date: Timestamp,
    pub revision: String,
}

impl RssUpdateItem {
    /// The item as plain values: (build number, link, description,
    /// (seconds, nanoseconds) of the publication date, revision).
    pub open spec fn view_tuple(&self) -> UpdateItemView {
        (
            self.build_number@,
            self.link@,
            self.description_html@,
            (self.pub_date.secs, self.pub_date.nanos),
            self.revision@,
        )
    }

    /// A copy of the item.
    pub fn copy(&self) -> (res: RssUpdateItem)
        ensures
            res.view_tuple() == self.view_tuple(),
            res.pub_date == self.pub_date,
    {
        RssUpdateItem {
            build_number: self.build_number.clone(),
            link: self.link.clone(),
            description_html: self.description_html.clone(),
            pub_date: Timestamp { secs: self.pub_date.secs, nanos: self.pub_date.nanos },
            revision: self.revision.clone(),
        }
    }

    /// Reads a feed item: the title is the build number, absent fields are
    /// empty, the publication date must parse as RFC 2822, and the revision
    /// comes from the link.
    pub fn from_rss_item(item: &RssItem) -> (res: AppResult<RssUpdateItem>)
        ensures
            match res {
                Ok(u) => update_of_item(item@) == Some(u.view_tuple()),
                Err(e) => update_of_item(item@) is None && (e matches AppError::RssParse(m)
                    && has_prefix(m@, "failed to parse pub_date '"@ + or_empty(item@.3) + "': "@)),
            },
    {
        let title = string_or_empty(&item.title);
        let link = string_or_empty(&item.link);
        let description_html = string_or_empty(&item.description);
        let pub_date_str = string_or_empty(&item.pub_date);
        let pub_date = match parse_rfc2822(pub_date_str.as_str()) {
            Ok(t) => t,
            Err(e) => {
                let m = concat4("failed to parse pub_date '", pub_date_str.as_str(), "': ", e.as_str());
                proof {
                    lemma_prefix_of_concat("failed to parse pub_date '"@ + pub_date_str@ + "': "@, e@);
                }
                return Err(AppError::RssParse(m));
            },
        };
        let revision = Self::extract_revision_from_link(link.as_str());
        Ok(RssUpdateItem { build_number: title, link, description_html, pub_date, revision })
    }

    /// The revision number in an update link: the text after the first
    /// "-r" of the first path segment that holds one, or empty.
    pub fn extract_revision_from_link(link: &str) -> (res: String)
        ensures
            res@ == revision_of(spec_url_path_segments(link@)),
    {
        let segs = url_path_segments(link);
        revision_from_segments(&segs)
    }

    /// The announcement is for the PC version: its link is under
    /// "/game-updates/dst/" and under neither console's path.
    pub open spec fn is_pc_link(link: Seq<char>) -> bool {
        &&& contains_seq(encode_utf8(link), encode_utf8("/game-updates/dst/"@))
        &&& !contains_seq(encode_utf8(link), encode_utf8("/dst_xboxone/"@))
        &&& !contains_seq(encode_utf8(link), encode_utf8("/dst_ps4/"@))
    }

    /// Whether the announcement is for the PC version.
    pub fn is_pc_update(&self) -> (res: bool)
        ensures
            res == Self::is_pc_link(self.link@),
    {
        let l = self.link.as_str().as_bytes();
        bytes_contain(l, "/game-updates/dst/".as_bytes()) && !bytes_contain(
            l,
            "/dst_xboxone/".as_bytes(),
        ) && !bytes_contain(l, "/dst_ps4/".as_bytes())
    }
}

/// One release listed on the update page.
#[derive(Debug)]
pub struct UpdatePageEntry {
    pub revision: String,
    pub build_number: String,
    pub channel: ReleaseChannel,
    pub is_hotfix: bool,
}

impl UpdatePageEntry {
    /// A copy of the entry.
    pub fn copy(&self) -> (res: UpdatePageEntry)
        ensures
            res.revision@ == self.revision@,
            res.build_number@ == self.build_number@,
            res.channel == self.channel,
            res.is_hotfix == self.is_hotfix,
    {
        UpdatePageEntry {
            revision: self.revision.clone(),
            build_number: self.build_number.clone(),
            channel: self.channel.copy(),
            is_hotfix: self.is_hotfix,
        }
    }
}

/// The releases listed on the update page, in page order.
#[derive(Debug)]
pub struct UpdatePageData {
    pub entries: Vec<UpdatePageEntry>,
}

/// The position of the first entry whose revision is `r`.
pub open spec fn first_with_revision(es: Seq<UpdatePageEntry>, r: Seq<char>) -> Option<int> {
    if exists|i: int| 0 <= i < es.len() && es[i].revision@ == r {
        Some(choose|i: int| 0 <= i < es.len() && es[i].revision@ == r && forall|j: int| 0 <= j < i ==> es[j].revision@ != r)
    } else {
        None
    }
}

/// The position of the first entry whose build number is `b`.
pub open spec fn first_with_build(es: Seq<UpdatePageEntry>, b: Seq<char>) -> Option<int> {
    if exists|i: int| 0 <= i < es.len() && es[i].build_number@ == b {
        Some(choose|i: int| 0 <= i < es.len() && es[i].build_number@ == b && forall|j: int| 0 <= j < i ==> es[j].build_number@ != b)
    } else {
        None
    }
}

/// Where some element of `s` satisfies `p`, a first one does.
pub proof fn lemma_first_witness<A>(s: Seq<A>, p: spec_fn(A) -> bool, k: int)
    requires
        0 <= k < s.len(),
        p(s[k]),
    ensures
        exists|i: int| 0 <= i < s.len() && p(s[i]) && forall|j: int| 0 <= j < i ==> !p(#[trigger] s[j]),
    decreases k,
{
    if exists|j: int| 0 <= j < k && p(s[j]) {
        let j = choose|j: int| 0 <= j < k && p(s[j]);
        lemma_first_witness(s, p, j);
    } else {
        assert(forall|j: int| 0 <= j < k ==> !p(#[trigger] s[j]));
    }
}

/// The first entry with revision `r` is the least position holding it,
/// and there is none exactly when no entry has it.
pub proof fn lemma_first_with_revision(es: Seq<UpdatePageEntry>, r: Seq<char>)
    ensures
        match first_with_revision(es, r) {
            Some(i) => 0 <= i < es.len() && es[i].revision@ == r && forall|j: int|
                0 <= j < i ==> (#[trigger] es[j]).revision@ != r,
            None => forall|j: int| 0 <= j < es.len() ==> (#[trigger] es[j]).revision@ != r,
        },
{
    if exists|i: int| 0 <= i < es.len() && es[i].revision@ == r {
        let k = choose|i: int| 0 <= i < es.len() && es[i].revision@ == r;
        lemma_first_witness(es, |e: UpdatePageEntry| e.revision@ == r, k);
    }
}

/// The first entry with build number `b` is the least position holding
/// it, and there is none exactly when no entry has it.
pub proof fn lemma_first_with_build(es: Seq<UpdatePageEntry>, b: Seq<char>)
    ensures
        match first_with_build(es, b) {
            Some(i) => 0 <= i < es.len() && es[i].build_number@ == b && forall|j: int|
                0 <= j < i ==> (#[trigger] es[j]).build_number@ != b,
            None => forall|j: int| 0 <= j < es.len() ==> (#[trigger] es[j]).build_number@ != b,
        },
{
    if exists|i: int| 0 <= i < es.len() && es[i].build_number@ == b {
        let k = choose|i: int| 0 <= i < es.len() && es[i].build_number@ == b;
        lemma_first_witness(es, |e: UpdatePageEntry| e.build_number@ == b, k);
    }
}

impl UpdatePageData {
    /// The first entry with revision `revision`.
    pub fn find_by_revision(&self, revision: &str) -> (res: Option<&UpdatePageEntry>)
        ensures
            match first_with_revision(self.entries@, revision@) {
                Some(i) => res == Some(&self.entries@[i]),
                None => res is None,
            },
            res is None <==> forall|j: int| 0 <= j < self.entries@.len() ==> (#[trigger] self.entries@[j]).revision@ != revision@,
            res matches Some(e) ==> exists|i: int| 0 <= i < self.entries@.len() && e == &self.entries@[i]
                && self.entries@[i].revision@ == revision@ && forall|j: int| 0 <= j < i ==> (#[trigger] self.entries@[j]).revision@ != revision@,
    {
        let n = self.entries.len();
        let mut i: usize = 0;
        while i < n
            invariant
                n == self.entries@.len(),
                i <= n,
                forall|j: int| 0 <= j < i ==> self.entries@[j].revision@ != revision@,
            decreases n - i,
        {
            if str_eq(self.entries[i].revision.as_str(), revision) {
                let ghost es = self.entries@;
                let ghost w = choose|k: int| 0 <= k < es.len() && es[k].revision@ == revision@ && forall|j: int| 0 <= j < k ==> es[j].revision@ != revision@;
                assert(es[i as int].revision@ == revision@);
                assert(w == i) by {
                    if w < i {
                    } else if w > i {
                    }
                }
                return Some(&self.entries[i]);
            }
            i = i + 1;
        }
        None
    }

    /// The first entry with build number `build_number`.
    pub fn find_by_build_number(&self, build_number: &str) -> (res: Option<&UpdatePageEntry>)
        ensures
            match first_with_build(self.entries@, build_number@) {
                Some(i) => res == Some(&self.entries@[i]),
                None => res is None,
            },
            res is None <==> forall|j: int| 0 <= j < self.entries@.len() ==> (#[trigger] self.entries@[j]).build_number@ != build_number@,
            res matches Some(e) ==> exists|i: int| 0 <= i < self.entries@.len() && e == &self.entries@[i]
                && self.entries@[i].build_number@ == build_number@ && forall|j: int| 0 <= j < i ==> (#[trigger] self.entries@[j]).build_number@ != build_number@,
    {
        let n = self.entries.len();
        let mut i: usize = 0;
        while i < n
            invariant
                n == self.entries@.len(),
                i <= n,
                forall|j: int| 0 <= j < i ==> self.entries@[j].build_number@ != build_number@,
            decreases n - i,
        {
            if str_eq(self.entries[i].build_number.as_str(), build_number) {
                let ghost es = self.entries@;
                let ghost w = choose|k: int| 0 <= k < es.len() && es[k].build_number@ == build_number@ && forall|j: int| 0 <= j < k ==> es[j].build_number@ != build_number@;
                assert(es[i as int].build_number@ == build_number@);
                assert(w == i) by {
                    if w < i {
                    } else if w > i {
                    }
                }
                return Some(&self.entries[i]);
            }
            i = i + 1;
        }
        None
    }
}

/// An announcement and its translation, with the glossary searches made for it.
pub struct TranslatedAnnouncement {
    pub original_text: String,
    pub translated_text: String,
    pub search_results: Vec<PoSearchResult>,
}

/// The glossary of a notification: each term with the translation chosen
/// for it, in the order the terms were first added; no term occurs twice.
pub struct Glossary {
    entries: Vec<(String, String)>,
}

/// The terms of a list of pairs, in order.
pub open spec fn pair_keys(v: Seq<(String, String)>) -> Seq<Seq<char>> {
    v.map_values(|p: (String, String)| p.0@)
}

impl Glossary {
    /// No term occurs twice.
    pub closed spec fn wf(&self) -> bool {
        forall|i: int, j: int|
            0 <= i < j < self.entries@.len() ==> self.entries@[i].0@ != self.entries@[j].0@
    }

    /// The glossary as a map from term to translation.
    pub closed spec fn map(&self) -> Map<Seq<char>, Seq<char>> {
        Map::new(
            |k: Seq<char>| exists|i: int| 0 <= i < self.entries@.len() && self.entries@[i].0@ == k,
            |k: Seq<char>|
                self.entries@[choose|i: int| 0 <= i < self.entries@.len() && self.entries@[i].0@ == k].1@,
        )
    }

    /// The terms, in the order they were first added.
    pub closed spec fn terms(&self) -> Seq<Seq<char>> {
        pair_keys(self.entries@)
    }

    /// The position of `term`, if the glossary holds it.
    fn position(&self, term: &str) -> (res: Option<usize>)
        requires
            self.wf(),
        ensures
            match res {
                Some(i) => i < self.entries@.len() && self.entries@[i as int].0@ == term@,
                None => !self.map().dom().contains(term@),
            },
    {
        let mut i: usize = 0;
        while i < self.entries.len()
            invariant
                i <= self.entries@.len(),
                forall|j: int| 0 <= j < i ==> self.entries@[j].0@ != term@,
            decreases self.entries@.len() - i,
        {
            if str_eq(self.entries[i].0.as_str(), term) {
                return Some(i);
            }
            i = i + 1;
        }
        None
    }

    /// An empty glossary.
    pub fn new() -> (res: Glossary)
        ensures
            res.wf(),
            res.map() == Map::<Seq<char>, Seq<char>>::empty(),
            res.terms() == Seq::<Seq<char>>::empty(),
    {
        let g = Glossary { entries: Vec::new() };
        assert(g.map() =~= Map::<Seq<char>, Seq<char>>::empty());
        assert(g.terms() =~= Seq::<Seq<char>>::empty());
        g
    }

    /// Sets the translation of `term`, replacing the one it had.
    pub fn insert(&mut self, term: String, translation: String)
        requires
            old(self).wf(),
        ensures
            final(self).wf(),
            final(self).map() == old(self).map().insert(term@, translation@),
            final(self).terms() == if old(self).map().dom().contains(term@) {
                old(self).terms()
            } else {
                old(self).terms().push(term@)
            },
    {
        let ghost old_entries = self.entries@;
        let ghost m0 = self.map();
        match self.position(term.as_str()) {
            Some(i) => {
                let ghost tv = term@;
                let ghost key = self.entries@[i as int].0;
                self.entries.set(i, (key_copy(&self.entries[i].0), translation));
                assert(self.entries@[i as int].0@ == tv);
                assert forall|a: int, b: int| 0 <= a < b < self.entries@.len() implies self.entries@[a].0@
                    != self.entries@[b].0@ by {
                    assert(self.entries@[a].0@ == old_entries[a].0@);
                    assert(self.entries@[b].0@ == old_entries[b].0@);
                }
                assert(m0.dom().contains(tv));
                assert forall|k: Seq<char>| #![auto] self.map().dom().contains(k) <==> m0.insert(tv, translation@).dom().contains(k) by {
                    if m0.dom().contains(k) {
                        let w = choose|j: int| 0 <= j < old_entries.len() && old_entries[j].0@ == k;
                        assert(self.entries@[w].0@ == k);
                    }
                    if self.map().dom().contains(k) {
                        let w = choose|j: int| 0 <= j < self.entries@.len() && self.entries@[j].0@ == k;
                        assert(old_entries[w].0@ == k);
                    }
                }
                assert forall|k: Seq<char>| #[trigger] self.map().dom().contains(k) implies self.map()[k] == m0.insert(tv, translation@)[k] by {
                    let w = choose|j: int| 0 <= j < self.entries@.len() && self.entries@[j].0@ == k;
                    if k == tv {
                        assert(w == i);
                    } else {
                        let w0 = choose|j: int| 0 <= j < old_entries.len() && old_entries[j].0@ == k;
                        assert(old_entries[w].0@ == k);
                        assert(w0 == w);
                    }
                }
                assert(self.map() =~= m0.insert(tv, translation@));
                assert(self.terms() =~= pair_keys(old_entries));
            },
            None => {
                let ghost tv = term@;
                let ghost tr = translation@;
                self.entries.push((term, translation));
                let n = self.entries.len() - 1;
                assert forall|k: Seq<char>| #![auto] self.map().dom().contains(k) <==> m0.insert(tv, tr).dom().contains(k) by {
                    if m0.dom().contains(k) {
                        let w = choose|j: int| 0 <= j < old_entries.len() && old_entries[j].0@ == k;
                        assert(self.entries@[w].0@ == k);
                    }
                    if k == tv {
                        assert(self.entries@[n as int].0@ == k);
                    }
                    if self.map().dom().contains(k) && k != tv {
                        let w = choose|j: int| 0 <= j < self.entries@.len() && self.entries@[j].0@ == k;
                        assert(w < n);
                        assert(old_entries[w].0@ == k);
                    }
                }
                assert forall|k: Seq<char>| #[trigger] self.map().dom().contains(k) implies self.map()[k] == m0.insert(tv, tr)[k] by {
                    let w = choose|j: int| 0 <= j < self.entries@.len() && self.entries@[j].0@ == k;
                    if k == tv {
                        assert(w == n);
                    } else {
                        assert(w < n);
                        let w0 = choose|j: int| 0 <= j < old_entries.len() && old_entries[j].0@ == k;
                        assert(old_entries[w].0@ == k);
                        assert(w0 == w);
                    }
                }
                assert(self.map() =~= m0.insert(tv, tr));
                assert(self.terms() =~= pair_keys(old_entries).push(tv));
            },
        }
    }

    /// The translation of `term`, if the glossary holds it.
    pub fn get(&self, term: &str) -> (res: Option<&String>)
        requires
            self.wf(),
        ensures
            match res {
                Some(t) => self.map().dom().contains(term@) && self.map()[term@] == t@,
                None => !self.map().dom().contains(term@),
            },
    {
        match self.position(term) {
            Some(i) => {
                assert(self.map().dom().contains(term@));
                let ghost w = choose|j: int| 0 <= j < self.entries@.len() && self.entries@[j].0@ == term@;
                assert(w == i as int);
                Some(&self.entries[i].1)
            },
            None => None,
        }
    }

    /// Whether the glossary holds no term.
    pub fn is_empty(&self) -> (res: bool)
        ensures
            res == (self.map().dom() == Set::<Seq<char>>::empty()),
    {
        if self.entries.len() == 0 {
            assert(self.map().dom() =~= Set::<Seq<char>>::empty());
            true
        } else {
            assert(self.map().dom().contains(self.entries@[0].0@));
            false
        }
    }

    /// The number of terms.
    pub fn len(&self) -> (res: usize)
        requires
            self.wf(),
        ensures
            res == self.terms().len(),
    {
        self.entries.len()
    }

    /// The term and translation at position `i`, in the order terms were
    /// first added.
    pub fn entry(&self, i: usize) -> (res: (&String, &String))
        requires
            self.wf(),
            i < self.terms().len(),
        ensures
            res.0@ == self.terms()[i as int],
            self.map().dom().contains(res.0@),
            self.map()[res.0@] == res.1@,
    {
        let e = &self.entries[i];
        proof {
            let k = self.entries@[i as int].0@;
            assert(self.map().dom().contains(k));
            let w = choose|j: int| 0 <= j < self.entries@.len() && self.entries@[j].0@ == k;
            assert(w == i);
        }
        (&e.0, &e.1)
    }
}

/// A copy of a string.
fn key_copy(s: &String) -> (res: String)
    ensures
        res@ == s@,
{
    s.clone()
}

/// The glossary that a list of search results gives: for each result in
/// order, its term with the translation of its best match, where it has
/// one; a later term replaces an earlier equal one.
pub open spec fn glossary_of(rs: Seq<PoSearchResult>) -> Map<Seq<char>, Seq<char>>
    decreases rs.len(),
{
    if rs.len() == 0 {
        Map::empty()
    } else {
        let r = rs.last();
        match best_index(r.candidates@, r.term@) {
            Some(i) => glossary_of(rs.drop_last()).insert(r.term@, r.candidates@[i].translation@),
            None => glossary_of(rs.drop_last()),
        }
    }
}

/// The glossary of two lists of searches, one after the other, is that of
/// the first with that of the second laid over it; a single search adds its
/// term with the translation of its best match, where it has one, and
/// nothing otherwise.
pub proof fn lemma_glossary_of_concat(a: Seq<PoSearchResult>, b: Seq<PoSearchResult>)
    ensures
        glossary_of(a + b) == glossary_of(a).union_prefer_right(glossary_of(b)),
        forall|r: PoSearchResult|
            #[trigger] glossary_of(seq![r]) == match best_index(r.candidates@, r.term@) {
                Some(i) => Map::<Seq<char>, Seq<char>>::empty().insert(r.term@, r.candidates@[i].translation@),
                None => Map::<Seq<char>, Seq<char>>::empty(),
            },
    decreases b.len(),
{
    assert forall|r: PoSearchResult|
        #[trigger] glossary_of(seq![r]) == match best_index(r.candidates@, r.term@) {
            Some(i) => Map::<Seq<char>, Seq<char>>::empty().insert(r.term@, r.candidates@[i].translation@),
            None => Map::<Seq<char>, Seq<char>>::empty(),
        } by {
        assert(seq![r].drop_last() =~= Seq::<PoSearchResult>::empty());
        assert(seq![r].last() == r);
        assert(glossary_of(Seq::<PoSearchResult>::empty()) == Map::<Seq<char>, Seq<char>>::empty());
    }
    if b.len() == 0 {
        assert(a + b =~= a);
        assert(glossary_of(b) == Map::<Seq<char>, Seq<char>>::empty());
        assert(glossary_of(a).union_prefer_right(glossary_of(b)) =~= glossary_of(a));
    } else {
        assert((a + b).drop_last() =~= a + b.drop_last());
        assert((a + b).last() == b.last());
        lemma_glossary_of_concat(a, b.drop_last());
        let r = b.last();
        match best_index(r.candidates@, r.term@) {
            Some(i) => {
                assert(glossary_of(a).union_prefer_right(glossary_of(b.drop_last())).insert(
                    r.term@,
                    r.candidates@[i].translation@,
                ) =~= glossary_of(a).union_prefer_right(
                    glossary_of(b.drop_last()).insert(r.term@, r.candidates@[i].translation@),
                ));
            },
            None => {},
        }
    }
}

/// The notification published for one update.
pub struct UpdateNotification {
    pub build_number: String,
    pub revision: String,
    pub channel: String,
    pub is_hotfix: bool,
    pub original_description: String,
    pub translated_description: String,
    pub glossary: Glossary,
    pub pub_date: String,
    pub link: String,
}

/// The RFC 3339 text of an instant, empty where chrono has no such instant.
pub open spec fn date_text(t: Timestamp) -> Seq<char> {
    match spec_rfc3339(t.secs, t.nanos) {
        Some(s) => s,
        None => Seq::empty(),
    }
}

/// `n` is the notification composed of the feed item, the page entry and
/// the translation: the feed item gives build number, revision, link and
/// date, the page entry gives channel and hotfix mark, the translation
/// gives both texts, and the glossary is that of its searches.
pub open spec fn composed(
    n: UpdateNotification,
    rss_item: RssUpdateItem,
    page_entry: UpdatePageEntry,
    translated: TranslatedAnnouncement,
) -> bool {
    composed_of(
        n,
        rss_item,
        page_entry,
        translated.original_text@,
        translated.translated_text@,
        translated.search_results@,
    )
}

/// `n` is the notification composed of the feed item, the page entry, the
/// original and translated texts, and the glossary searches.
pub open spec fn composed_of(
    n: UpdateNotification,
    rss_item: RssUpdateItem,
    page_entry: UpdatePageEntry,
    original: Seq<char>,
    translated: Seq<char>,
    searches: Seq<PoSearchResult>,
) -> bool {
    &&& n.build_number@ == rss_item.build_number@
    &&& n.revision@ == rss_item.revision@
    &&& n.channel@ == page_entry.channel.name_spec()
    &&& n.is_hotfix == page_entry.is_hotfix
    &&& n.original_description@ == original
    &&& n.translated_description@ == translated
    &&& n.glossary.wf()
    &&& n.glossary.map() == glossary_of(searches)
    &&& n.pub_date@ == date_text(rss_item.pub_date)
    &&& n.link@ == rss_item.link@
}

impl UpdateNotification {
    /// The notification for a feed item, its update-page entry and its
    /// translation: the feed item gives build number, revision, link and
    /// date (in RFC 3339), the page entry gives channel and hotfix mark, the
    /// translation gives both texts, and the glossary holds the best match
    /// of each search that found one.
    pub fn compose(
        rss_item: &RssUpdateItem,
        page_entry: &UpdatePageEntry,
        translated: &TranslatedAnnouncement,
    ) -> (res: UpdateNotification)
        ensures
            composed(res, *rss_item, *page_entry, *translated),
    {
        let mut glossary = Glossary::new();
        let mut i: usize = 0;
        let ghost rs = translated.search_results@;
        assert(rs.take(0) =~= Seq::<PoSearchResult>::empty());
        while i < translated.search_results.len()
            invariant
                i <= rs.len(),
                rs == translated.search_results@,
                glossary.wf(),
                glossary.map() == glossary_of(rs.take(i as int)),
            decreases rs.len() - i,
        {
            let r = &translated.search_results[i];
            assert(rs.take(i + 1).drop_last() =~= rs.take(i as int));
            assert(rs.take(i + 1).last() == *r);
            match r.best_match() {
                Some(b) => {
                    glossary.insert(r.term.clone(), b.translation.clone());
                },
                None => {},
            }
            i = i + 1;
        }
        assert(rs.take(rs.len() as int) =~= rs);
        let pub_date = match rfc3339_of(rss_item.pub_date.secs, rss_item.pub_date.nanos) {
            Some(t) => t,
            None => String::new(),
        };
        UpdateNotification {
            build_number: rss_item.build_number.clone(),
            revision: rss_item.revision.clone(),
            channel: owned(page_entry.channel.as_str()),
            is_hotfix: page_entry.is_hotfix,
            original_description: translated.original_text.clone(),
            translated_description: translated.translated_text.clone(),
            glossary,
            pub_date,
            link: rss_item.link.clone(),
        }
    }
}

/// The settings of the publisher.
pub struct AppConfig {
    pub rss_url: String,
    pub update_page_url: String,
    pub redis_url: String,
    pub redis_channel: String,
    pub redis_dedupe_key: String,
    pub llm_api_base: String,
    pub llm_api_key: String,
    pub llm_model: String,
    pub po_zip_path: String,
    pub po_zip_po_files: Vec<String>,
}

/// What one run of the publisher did.
pub enum ProcessOutcome {
    Published { build_number: String },
    AlreadyProcessed { build_number: String },
    NoUpdateAvailable,
}

/// Two channels with the same name are the same channel, and each is
/// named "release" or "beta".
pub proof fn lemma_channel_names(a: ReleaseChannel, b: ReleaseChannel)
    ensures
        a.name_spec() == b.name_spec() ==> a == b,
        a.name_spec() == "release"@ || a.name_spec() == "beta"@,
{
    reveal_strlit("release");
    reveal_strlit("beta");
    if a.name_spec() == b.name_spec() && a != b {
        assert(a.name_spec().len() != b.name_spec().len());
    }
}

/// A channel's name reads back as that channel.
pub proof fn lemma_channel_name_roundtrip(c: ReleaseChannel, read: Option<ReleaseChannel>)
    requires
        match read {
            Some(r) => r.name_spec() == c.name_spec(),
            None => c.name_spec() != "release"@ && c.name_spec() != "beta"@,
        },
    ensures
        read == Some(c),
{
    lemma_channel_names(c, c);
    match read {
        Some(r) => lemma_channel_names(r, c),
        None => {},
    }
}

} // verus!
