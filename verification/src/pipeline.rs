//! One run of the publisher, as a sequence of decisions: which request to
//! make next, given what the previous one brought back.
use vstd::prelude::*;
use crate::error::{AppError, AppResult};
use crate::models::{
    AppConfig, ProcessOutcome, RssUpdateItem, TranslatedAnnouncement, UpdateItemView,
    UpdateNotification, UpdatePageEntry, composed_of,
};
use crate::po_search::PoFileIndex;
use crate::publisher::{RedisCommand, already_published, is_stored_build, mark_build_command, read_build_command};
use crate::rss::{get_latest_pc_update, parse_rss_updates, pc_updates, spec_feed_items, update_views};
use crate::text::{concat2, has_prefix, lemma_prefix_of_concat};
use crate::translator::{
    ChatMessage, LlmReply, MessageView, TranslateAction, Translation, TranslationPhase, call_views,
    chat_views, index_views, reply_messages, reply_text, searched_terms, system_prompt_spec,
    tool_replies, user_prompt_spec,
};
use crate::update_page::{
    EntryView, entries_of_rows, get_version_info, lemma_version_entry_views, parse_update_page_html,
    page_rows, update_page_query, version_entry_views,
};

verus! {

broadcast use vstd::string::group_string_axioms;

/// The width, in columns, of the text an announcement is rendered to.
pub const TEXT_WIDTH: usize = 80;

/// The text that html2text's `from_read` renders from the bytes of `html`
/// at `width` columns, or `None` where it reports an error.
pub uninterp spec fn spec_html_text(html: Seq<char>, width: usize) -> Option<Seq<char>>;

/// Calls html2text's `from_read` on the bytes of `html`; the result is
/// named by `spec_html_text`; the text of an error is html2text's and is
/// not stated.
#[verifier::external_body]
fn html_to_text(html: &str, width: usize) -> (res: Result<String, String>)
    ensures
        match res {
            Ok(t) => spec_html_text(html@, width) == Some(t@),
            Err(_) => spec_html_text(html@, width) is None,
        },
{
    html2text::from_read(html.as_bytes(), width).map_err(|e| e.to_string())
}

/// The plain text of an announcement's HTML, at the publisher's width; an
/// `HtmlParse` error where html2text reports one.
pub fn announcement_text(html: &str) -> (res: AppResult<String>)
    ensures
        match res {
            Ok(t) => spec_html_text(html@, TEXT_WIDTH) == Some(t@),
            Err(e) => spec_html_text(html@, TEXT_WIDTH) is None && (e matches AppError::HtmlParse(m)
                && has_prefix(m@, "failed to convert HTML to text: "@)),
        },
{
    match html_to_text(html, TEXT_WIDTH) {
        Ok(t) => Ok(t),
        Err(e) => {
            proof {
                lemma_prefix_of_concat("failed to convert HTML to text: "@, e@);
            }
            Err(AppError::HtmlParse(concat2("failed to convert HTML to text: ", e.as_str())))
        },
    }
}

/// `a` is no later than `b`, both as (seconds, nanoseconds).
pub open spec fn no_later(a: (i64, u32), b: (i64, u32)) -> bool {
    a.0 < b.0 || (a.0 == b.0 && a.1 <= b.1)
}

/// `i` is the last position of a latest update.
pub open spec fn is_last_latest_view(us: Seq<UpdateItemView>, i: int) -> bool {
    &&& 0 <= i < us.len()
    &&& forall|j: int| 0 <= j < us.len() ==> no_later(#[trigger] us[j].3, us[i].3)
    &&& forall|j: int| i < j < us.len() ==> !no_later(us[i].3, #[trigger] us[j].3)
}

/// The latest update; of several with the same date, the last.
pub open spec fn latest_update(us: Seq<UpdateItemView>) -> Option<UpdateItemView> {
    if exists|i: int| is_last_latest_view(us, i) {
        Some(us[choose|i: int| is_last_latest_view(us, i)])
    } else {
        None
    }
}

/// What the run does with the model's reply `reply`, given the
/// translation `t` before it, the index as its views `ix`, the update `it`,
/// its page entry `en` and the publishing channel: a reply without a
/// choice is an error; a reply that asks for glossary searches goes on with
/// the model's calls and their answers (an error where their arguments are
/// not JSON); any other reply finishes the translation, and the notification
/// composed of it is published.
pub open spec fn reply_step(
    t: Translation,
    reply: LlmReply,
    ix: (Seq<crate::po_search::EntryView>, Map<Seq<u8>, Seq<usize>>, Map<Seq<u8>, Seq<usize>>),
    it: RssUpdateItem,
    en: UpdatePageEntry,
    channel: Seq<char>,
    res: AppResult<PipelineAction>,
) -> bool {
    match reply {
        LlmReply::NoChoice => res matches Err(AppError::LlmResponseParse(m)) && m@ == if t.stage() is AwaitingTerms {
            "no choices in response"@
        } else {
            "no choices in final response"@
        },
        LlmReply::Choice { tool_calls, content } => if t.stage() is AwaitingTerms && tool_calls@.len() > 0 {
            match searched_terms(call_views(tool_calls@)) {
                None => res matches Err(e) && e is LlmResponseParse,
                Some(ts) => res matches Ok(PipelineAction::AskModel { messages, offer_tools }) && !offer_tools
                    && chat_views(messages@) == t.conversation().push(
                    MessageView::AssistantToolCalls(call_views(tool_calls@)),
                ) + reply_messages(tool_replies(call_views(tool_calls@), ix)),
            }
        } else {
            res matches Ok(PipelineAction::Publish { channel: c, notification }) && c@ == channel
                && composed_of(notification, it, en, t.text(), reply_text(content), t.results())
        },
    }
}

/// Where a run stands.
pub enum PipelineStage {
    Start,
    AwaitingFeed,
    AwaitingStoredBuild,
    AwaitingPage,
    Translating,
    AwaitingPublish,
    AwaitingMark,
    Finished,
}

/// What the last request brought back.
pub enum PipelineEvent {
    /// The run begins.
    Begin,
    /// The text of the update feed.
    FeedBody(String),
    /// The stored build number, none where the key is unset.
    StoredBuild(Option<String>),
    /// The HTML of the update page.
    PageBody(String),
    /// The model's reply.
    ModelReply(LlmReply),
    /// The notification was published.
    Published,
    /// The build was recorded as published.
    Marked,
}

/// The next request of a run, or its outcome.
pub enum PipelineAction {
    /// Fetch the update feed from `url`.
    FetchFeed { url: String },
    /// Send a command to Redis.
    Redis(RedisCommand),
    /// Fetch the update page from `url`.
    FetchPage { url: String },
    /// Ask the model, with the whole conversation so far; offering the
    /// glossary tool or not.
    AskModel { messages: Vec<ChatMessage>, offer_tools: bool },
    /// Publish the notification, as JSON, on `channel`.
    Publish { channel: String, notification: UpdateNotification },
    /// The run is over.
    Finish(ProcessOutcome),
}

/// The event that a stage waits for.
pub open spec fn event_fits(stage: PipelineStage, event: PipelineEvent) -> bool {
    match stage {
        PipelineStage::Start => event is Begin,
        PipelineStage::AwaitingFeed => event is FeedBody,
        PipelineStage::AwaitingStoredBuild => event is StoredBuild,
        PipelineStage::AwaitingPage => event is PageBody,
        PipelineStage::Translating => event is ModelReply,
        PipelineStage::AwaitingPublish => event is Published,
        PipelineStage::AwaitingMark => event is Marked,
        PipelineStage::Finished => false,
    }
}

/// One run of the publisher.
pub struct Pipeline {
    rss_url: String,
    update_page_url: String,
    redis_channel: String,
    dedupe_key: String,
    stage: PipelineStage,
    item: Option<RssUpdateItem>,
    entry: Option<UpdatePageEntry>,
    translation: Option<Translation>,
}

impl Pipeline {
    /// Where the run stands.
    pub closed spec fn stage(&self) -> PipelineStage {
        self.stage
    }

    /// The settings the run uses: feed URL, page URL, channel, dedupe key.
    pub closed spec fn settings(&self) -> (Seq<char>, Seq<char>, Seq<char>, Seq<char>) {
        (self.rss_url@, self.update_page_url@, self.redis_channel@, self.dedupe_key@)
    }

    /// The update the run is about, once the feed was read.
    pub closed spec fn item(&self) -> Option<RssUpdateItem> {
        self.item
    }

    /// The page entry of the update, once the page was read.
    pub closed spec fn entry(&self) -> Option<UpdatePageEntry> {
        self.entry
    }

    /// The translation in progress.
    pub closed spec fn translation(&self) -> Option<Translation> {
        self.translation
    }

    /// What the stage implies of the state.
    pub closed spec fn wf(&self) -> bool {
        &&& (self.stage is AwaitingStoredBuild || self.stage is AwaitingPage || self.stage is Translating
            || self.stage is AwaitingPublish || self.stage is AwaitingMark) ==> self.item is Some
        &&& (self.stage is Translating || self.stage is AwaitingPublish || self.stage is AwaitingMark)
            ==> self.entry is Some
        &&& self.stage is Translating ==> (self.translation matches Some(t) && !(t.stage() is Finished))
    }

    /// A run with the settings of `config`, not yet begun.
    pub fn new(config: &AppConfig) -> (res: Pipeline)
        ensures
            res.wf(),
            res.stage() == PipelineStage::Start,
            res.settings() == (
                config.rss_url@,
                config.update_page_url@,
                config.redis_channel@,
                config.redis_dedupe_key@,
            ),
    {
        Pipeline {
            rss_url: config.rss_url.clone(),
            update_page_url: config.update_page_url.clone(),
            redis_channel: config.redis_channel.clone(),
            dedupe_key: config.redis_dedupe_key.clone(),
            stage: PipelineStage::Start,
            item: None,
            entry: None,
            translation: None,
        }
    }

    /// The run begins: the feed is fetched.
    fn on_begin(&mut self) -> (res: AppResult<PipelineAction>)
        requires
            old(self).wf(),
            old(self).stage() is Start,
        ensures
            final(self).wf(),
            final(self).settings() == old(self).settings(),
            final(self).stage() == PipelineStage::AwaitingFeed,
            res matches Ok(PipelineAction::FetchFeed { url }) && url@ == old(self).settings().0,
    {
        self.stage = PipelineStage::AwaitingFeed;
        Ok(PipelineAction::FetchFeed { url: self.rss_url.clone() })
    }

    /// The feed arrived: with no PC update the run ends; else the stored
    /// build number is read.
    fn on_feed(&mut self, body: String) -> (res: AppResult<PipelineAction>)
        requires
            old(self).wf(),
            old(self).stage() is AwaitingFeed,
        ensures
            final(self).wf(),
            final(self).settings() == old(self).settings(),
            res is Err ==> final(self).stage() == old(self).stage(),
            match spec_feed_items(body@) {
                None => res matches Err(e) && e is RssParse,
                Some(items) => match latest_update(pc_updates(items)) {
                    None => final(self).stage() == PipelineStage::Finished && (res matches Ok(
                        PipelineAction::Finish(o),
                    ) && o is NoUpdateAvailable),
                    Some(u) => {
                        &&& final(self).stage() == PipelineStage::AwaitingStoredBuild
                        &&& final(self).item() matches Some(it) && it.view_tuple() == u
                        &&& res matches Ok(PipelineAction::Redis(c)) && c.view_pair() == (
                            "GET"@,
                            seq![old(self).settings().3],
                        )
                    },
                },
            },
    {
        let items = parse_rss_updates(body.as_str())?;
        match get_latest_pc_update(items.as_slice()) {
            None => {
                proof {
                    lemma_no_latest(update_views(items@));
                }
                self.stage = PipelineStage::Finished;
                Ok(PipelineAction::Finish(ProcessOutcome::NoUpdateAvailable))
            },
            Some(latest) => {
                proof {
                    lemma_latest_view(items@);
                }
                let it = latest.copy();
                let cmd = read_build_command(self.dedupe_key.as_str());
                self.item = Some(it);
                self.stage = PipelineStage::AwaitingStoredBuild;
                Ok(PipelineAction::Redis(cmd))
            },
        }
    }

    /// The stored build number arrived: where it is the update's, the run
    /// ends; else the update page is fetched.
    fn on_stored(&mut self, stored: Option<String>) -> (res: AppResult<PipelineAction>)
        requires
            old(self).wf(),
            old(self).stage() is AwaitingStoredBuild,
        ensures
            final(self).wf(),
            final(self).settings() == old(self).settings(),
            old(self).item() matches Some(it) && if already_published(
                match stored {
                    Some(v) => Some(v@),
                    None => None,
                },
                it.build_number@,
            ) {
                final(self).stage() == PipelineStage::Finished && (res matches Ok(
                    PipelineAction::Finish(ProcessOutcome::AlreadyProcessed { build_number }),
                ) && build_number@ == it.build_number@)
            } else {
                &&& final(self).stage() == PipelineStage::AwaitingPage
                &&& final(self).item() == old(self).item()
                &&& res matches Ok(PipelineAction::FetchPage { url }) && url@ == old(self).settings().1
            },
    {
        let build = match &self.item {
            Some(it) => it.build_number.clone(),
            None => vstd::pervasive::unreached(),
        };
        if is_stored_build(&stored, build.as_str()) {
            self.stage = PipelineStage::Finished;
            Ok(PipelineAction::Finish(ProcessOutcome::AlreadyProcessed { build_number: build }))
        } else {
            self.stage = PipelineStage::AwaitingPage;
            Ok(PipelineAction::FetchPage { url: self.update_page_url.clone() })
        }
    }

    /// The update page arrived: the update's entry is looked up, its
    /// announcement rendered to text, and the translation begins.
    fn on_page(&mut self, body: String) -> (res: AppResult<PipelineAction>)
        requires
            old(self).wf(),
            old(self).stage() is AwaitingPage,
        ensures
            final(self).wf(),
            final(self).settings() == old(self).settings(),
            res is Err ==> final(self).stage() == old(self).stage(),
            old(self).item() matches Some(it) && match page_rows(body@, update_page_query()) {
                None => res matches Err(e) && e is HtmlParse,
                Some(rows) => match version_entry_of_rows(rows, it.revision@, it.build_number@) {
                    None => res matches Err(e) && e is RevisionNotFound,
                    Some(ev) => match spec_html_text(it.description_html@, TEXT_WIDTH) {
                        None => res matches Err(e) && e is HtmlParse,
                        Some(text) => {
                            &&& final(self).stage() == PipelineStage::Translating
                            &&& final(self).item() == old(self).item()
                            &&& final(self).entry() matches Some(en) && en.view_tuple() == ev
                            &&& final(self).translation() matches Some(t) && t.text() == text
                            &&& res matches Ok(PipelineAction::AskModel { messages, offer_tools })
                                && chat_views(messages@) == seq![
                                MessageView::System(system_prompt_spec()),
                                MessageView::User(user_prompt_spec(text)),
                            ] && offer_tools
                        },
                    },
                },
            },
    {
        let page = parse_update_page_html(body.as_str())?;
        let (entry, text) = match &self.item {
            Some(it) => entry_and_text(&page, it)?,
            None => {
                return vstd::pervasive::unreached();
            },
        };
        let (t, action) = Translation::start(text.as_str());
        self.entry = Some(entry);
        self.translation = Some(t);
        self.stage = PipelineStage::Translating;
        match action {
            TranslateAction::Ask { messages, offer_tools } => Ok(
                PipelineAction::AskModel { messages, offer_tools },
            ),
            TranslateAction::Done(_) => vstd::pervasive::unreached(),
        }
    }

    /// The model replied: the translation goes on, or, once done, the
    /// notification is composed and published.
    fn on_model_reply(&mut self, reply: LlmReply, index: &PoFileIndex) -> (res: AppResult<PipelineAction>)
        requires
            old(self).wf(),
            old(self).stage() is Translating,
            index.wf(),
        ensures
            final(self).wf(),
            final(self).settings() == old(self).settings(),
            res is Err ==> final(self).stage() == old(self).stage(),
            final(self).item() == old(self).item(),
            final(self).entry() == old(self).entry(),
            res matches Err(e) ==> e is LlmResponseParse,
            res matches Ok(PipelineAction::AskModel { messages, offer_tools }) ==> {
                &&& final(self).stage() == PipelineStage::Translating
                &&& final(self).translation() matches Some(t) && chat_views(messages@)
                    == t.conversation()
            },
            res matches Ok(PipelineAction::Publish { channel, notification }) ==> {
                &&& final(self).stage() == PipelineStage::AwaitingPublish
                &&& channel@ == old(self).settings().2
                &&& reply matches LlmReply::Choice { tool_calls, content }
                &&& old(self).item() matches Some(it) && old(self).entry() matches Some(en)
                    && old(self).translation() matches Some(t) && composed_of(
                    notification,
                    it,
                    en,
                    t.text(),
                    reply_text(content),
                    t.results(),
                )
            },
            res is Ok ==> (res matches Ok(PipelineAction::AskModel { .. }) || res matches Ok(
                PipelineAction::Publish { .. },
            )),
            old(self).item() matches Some(it) && old(self).entry() matches Some(en)
                && old(self).translation() matches Some(t) && reply_step(
                t,
                reply,
                index_views(index),
                it,
                en,
                old(self).settings().2,
                res,
            ),
    {
        let mut t = match self.translation.take() {
            Some(t) => t,
            None => {
                return vstd::pervasive::unreached();
            },
        };
        let r = t.on_reply(reply, index);
        match r {
            Err(e) => {
                self.translation = Some(t);
                Err(e)
            },
            Ok(TranslateAction::Ask { messages, offer_tools }) => {
                self.translation = Some(t);
                Ok(PipelineAction::AskModel { messages, offer_tools })
            },
            Ok(TranslateAction::Done(translated)) => {
                self.translation = Some(t);
                let n = match (&self.item, &self.entry) {
                    (Some(it), Some(en)) => UpdateNotification::compose(it, en, &translated),
                    _ => {
                        return vstd::pervasive::unreached();
                    },
                };
                self.stage = PipelineStage::AwaitingPublish;
                Ok(PipelineAction::Publish { channel: self.redis_channel.clone(), notification: n })
            },
        }
    }

    /// The notification was published: the build is recorded.
    fn on_published(&mut self) -> (res: AppResult<PipelineAction>)
        requires
            old(self).wf(),
            old(self).stage() is AwaitingPublish,
        ensures
            final(self).wf(),
            final(self).settings() == old(self).settings(),
            final(self).stage() == PipelineStage::AwaitingMark,
            final(self).item() == old(self).item(),
            old(self).item() matches Some(it) && (res matches Ok(PipelineAction::Redis(c))
                && c.view_pair() == ("SET"@, seq![old(self).settings().3, it.build_number@])),
    {
        let build = match &self.item {
            Some(it) => it.build_number.clone(),
            None => vstd::pervasive::unreached(),
        };
        self.stage = PipelineStage::AwaitingMark;
        Ok(PipelineAction::Redis(mark_build_command(self.dedupe_key.as_str(), build.as_str())))
    }

    /// The build was recorded: the run ends with the update published.
    fn on_marked(&mut self) -> (res: AppResult<PipelineAction>)
        requires
            old(self).wf(),
            old(self).stage() is AwaitingMark,
        ensures
            final(self).wf(),
            final(self).settings() == old(self).settings(),
            final(self).stage() == PipelineStage::Finished,
            old(self).item() matches Some(it) && (res matches Ok(
                PipelineAction::Finish(ProcessOutcome::Published { build_number }),
            ) && build_number@ == it.build_number@),
    {
        let build = match &self.item {
            Some(it) => it.build_number.clone(),
            None => vstd::pervasive::unreached(),
        };
        self.stage = PipelineStage::Finished;
        Ok(PipelineAction::Finish(ProcessOutcome::Published { build_number: build }))
    }

    /// Takes what the last request brought back and decides the next one:
    /// the feed is fetched; with no PC update the run ends; the stored build
    /// number is read, and where it is the latest update's the run ends; the
    /// update page is fetched and the update's entry looked up; the
    /// announcement is rendered to text and translated; the notification is
    /// published; the build is recorded; the run ends. An error leaves the
    /// run where it stood.
    pub fn step(&mut self, event: PipelineEvent, index: &PoFileIndex) -> (res: AppResult<PipelineAction>)
        requires
            old(self).wf(),
            index.wf(),
            event_fits(old(self).stage(), event),
        ensures
            final(self).wf(),
            final(self).settings() == old(self).settings(),
            res is Err ==> final(self).stage() == old(self).stage(),
            old(self).stage() is Start ==> {
                &&& final(self).stage() == PipelineStage::AwaitingFeed
                &&& res matches Ok(PipelineAction::FetchFeed { url }) && url@ == old(self).settings().0
            },
            old(self).stage() is AwaitingFeed ==> (event matches PipelineEvent::FeedBody(body) && match spec_feed_items(body@) {
                None => res matches Err(e) && e is RssParse,
                Some(items) => match latest_update(pc_updates(items)) {
                    None => final(self).stage() == PipelineStage::Finished && (res matches Ok(
                        PipelineAction::Finish(o),
                    ) && o is NoUpdateAvailable),
                    Some(u) => {
                        &&& final(self).stage() == PipelineStage::AwaitingStoredBuild
                        &&& final(self).item() matches Some(it) && it.view_tuple() == u
                        &&& res matches Ok(PipelineAction::Redis(c)) && c.view_pair() == (
                            "GET"@,
                            seq![old(self).settings().3],
                        )
                    },
                },
            }),
            old(self).stage() is AwaitingStoredBuild ==> (event matches PipelineEvent::StoredBuild(s) && (
            old(self).item() matches Some(it) && if already_published(
                match s {
                    Some(v) => Some(v@),
                    None => None,
                },
                it.build_number@,
            ) {
                final(self).stage() == PipelineStage::Finished && (res matches Ok(
                    PipelineAction::Finish(ProcessOutcome::AlreadyProcessed { build_number }),
                ) && build_number@ == it.build_number@)
            } else {
                &&& final(self).stage() == PipelineStage::AwaitingPage
                &&& final(self).item() == old(self).item()
                &&& res matches Ok(PipelineAction::FetchPage { url }) && url@ == old(self).settings().1
            })),
            old(self).stage() is AwaitingPage ==> (event matches PipelineEvent::PageBody(body) && (
            old(self).item() matches Some(it) && match page_rows(
                body@,
                update_page_query(),
            ) {
                None => res matches Err(e) && e is HtmlParse,
                Some(rows) => match version_entry_of_rows(rows, it.revision@, it.build_number@) {
                    None => res matches Err(e) && e is RevisionNotFound,
                    Some(ev) => match spec_html_text(it.description_html@, TEXT_WIDTH) {
                        None => res matches Err(e) && e is HtmlParse,
                        Some(text) => {
                            &&& final(self).stage() == PipelineStage::Translating
                            &&& final(self).item() == old(self).item()
                            &&& final(self).entry() matches Some(en) && en.view_tuple() == ev
                            &&& final(self).translation() matches Some(t) && t.text() == text
                            &&& res matches Ok(PipelineAction::AskModel { messages, offer_tools })
                                && chat_views(messages@) == seq![
                                MessageView::System(system_prompt_spec()),
                                MessageView::User(user_prompt_spec(text)),
                            ] && offer_tools
                        },
                    },
                },
            })),
            old(self).stage() is Translating ==> {
                &&& final(self).item() == old(self).item()
                &&& final(self).entry() == old(self).entry()
                &&& res matches Err(e) ==> e is LlmResponseParse
                &&& res matches Ok(PipelineAction::AskModel { messages, offer_tools }) ==> {
                    &&& final(self).stage() == PipelineStage::Translating
                    &&& final(self).translation() matches Some(t) && chat_views(messages@)
                        == t.conversation()
                }
                &&& res matches Ok(PipelineAction::Publish { channel, notification }) ==> {
                    &&& final(self).stage() == PipelineStage::AwaitingPublish
                    &&& channel@ == old(self).settings().2
                    &&& event matches PipelineEvent::ModelReply(LlmReply::Choice { tool_calls, content })
                    &&& old(self).item() matches Some(it) && old(self).entry() matches Some(en)
                        && old(self).translation() matches Some(t) && composed_of(
                        notification,
                        it,
                        en,
                        t.text(),
                        reply_text(content),
                        t.results(),
                    )
                }
                &&& res is Ok ==> (res matches Ok(PipelineAction::AskModel { .. }) || res matches Ok(
                    PipelineAction::Publish { .. },
                ))
                &&& event matches PipelineEvent::ModelReply(reply) && old(self).item() matches Some(it)
                    && old(self).entry() matches Some(en) && old(self).translation() matches Some(t)
                    && reply_step(t, reply, index_views(index), it, en, old(self).settings().2, res)
            },
            old(self).stage() is AwaitingPublish ==> {
                &&& final(self).stage() == PipelineStage::AwaitingMark
                &&& final(self).item() == old(self).item()
                &&& old(self).item() matches Some(it) && res matches Ok(PipelineAction::Redis(c))
                    && c.view_pair() == ("SET"@, seq![old(self).settings().3, it.build_number@])
            },
            old(self).stage() is AwaitingMark ==> {
                &&& final(self).stage() == PipelineStage::Finished
                &&& old(self).item() matches Some(it) && res matches Ok(
                    PipelineAction::Finish(ProcessOutcome::Published { build_number }),
                ) && build_number@ == it.build_number@
            },
    {
        match event {
            PipelineEvent::Begin => self.on_begin(),
            PipelineEvent::FeedBody(body) => self.on_feed(body),
            PipelineEvent::StoredBuild(stored) => self.on_stored(stored),
            PipelineEvent::PageBody(body) => self.on_page(body),
            PipelineEvent::ModelReply(reply) => self.on_model_reply(reply, index),
            PipelineEvent::Published => self.on_published(),
            PipelineEvent::Marked => self.on_marked(),
        }
    }
}

/// The page entry of a feed item and the text of its announcement.
fn entry_and_text(page: &crate::models::UpdatePageData, it: &RssUpdateItem) -> (res: AppResult<(UpdatePageEntry, String)>)
    ensures
        match version_entry_views(crate::update_page::entry_views(page.entries@), it.revision@, it.build_number@) {
            None => res matches Err(e) && e is RevisionNotFound,
            Some(ev) => match spec_html_text(it.description_html@, TEXT_WIDTH) {
                None => res matches Err(e) && e is HtmlParse,
                Some(text) => res matches Ok((en, t)) && en.view_tuple() == ev && t@ == text,
            },
        },
{
    proof {
        let evs = crate::update_page::entry_views(page.entries@);
        assert forall|i: int| 0 <= i < page.entries@.len() implies (#[trigger] evs[i])
            == page.entries@[i].view_tuple() by {}
        lemma_version_entry_views(page.entries@, evs, it.revision@, it.build_number@);
    }
    let entry = get_version_info(page, it.revision.as_str(), it.build_number.as_str())?;
    let text = announcement_text(it.description_html.as_str())?;
    Ok((entry, text))
}

/// The entry of the page rows for a feed item.
pub open spec fn version_entry_of_rows(rows: Seq<Option<crate::update_page::LinkView>>, revision: Seq<char>, build: Seq<char>) -> Option<EntryView> {
    version_entry_views(entries_of_rows(rows), revision, build)
}

/// With no update, there is no latest one.
proof fn lemma_no_latest(us: Seq<UpdateItemView>)
    requires
        us.len() == 0,
    ensures
        latest_update(us) is None,
{
}

/// The last latest item of a list is the last latest of its views.
proof fn lemma_latest_view(items: Seq<RssUpdateItem>)
    ensures
        forall|i: int|
            crate::rss::is_last_latest(items, i) ==> latest_update(update_views(items)) == Some(
                #[trigger] items[i].view_tuple(),
            ),
{
    let us = update_views(items);
    assert forall|i: int| crate::rss::is_last_latest(items, i) implies latest_update(us) == Some(
        #[trigger] items[i].view_tuple(),
    ) by {
        assert(is_last_latest_view(us, i)) by {
            assert forall|j: int| 0 <= j < us.len() implies no_later(#[trigger] us[j].3, us[i].3) by {
                assert(crate::models::ts_le(items[j].pub_date, items[i].pub_date));
            }
            assert forall|j: int| i < j < us.len() implies !no_later(us[i].3, #[trigger] us[j].3) by {
                assert(!crate::models::ts_le(items[i].pub_date, items[j].pub_date));
            }
        }
        let w = choose|k: int| is_last_latest_view(us, k);
        assert(w == i) by {
            if w < i {
                assert(no_later(us[i].3, us[w].3));
            } else if w > i {
                assert(no_later(us[w].3, us[i].3));
            }
        }
    }
}

} // verus!
