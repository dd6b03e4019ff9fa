//! The update feed: the PC updates it announces and the latest of them.
use vstd::prelude::*;
use crate::error::{AppError, AppResult};
use crate::models::{RssItem, RssItemView, RssUpdateItem, UpdateItemView, ts_le, update_of_item};
use crate::text::{concat2, has_prefix, lemma_prefix_of_concat};

verus! {

/// The items of a feed as plain values.
pub open spec fn item_views(v: Seq<RssItem>) -> Seq<RssItemView> {
    v.map_values(|i: RssItem| i@)
}

/// The items that the rss crate's `Channel::read_from` reads from the
/// bytes of `body`, or `None` where it reports an error.
pub uninterp spec fn spec_feed_items(body: Seq<char>) -> Option<Seq<RssItemView>>;

/// Calls the rss crate's `Channel::read_from` on the bytes of `body` and
/// reports the title, link, description and publication date of each item,
/// in feed order. The items are named by `spec_feed_items`; the text of an
/// error is the crate's and is not stated.
#[verifier::external_body]
fn read_feed_items(body: &str) -> (res: Result<Vec<RssItem>, String>)
    ensures
        match res {
            Ok(v) => spec_feed_items(body@) == Some(item_views(v@)),
            Err(_) => spec_feed_items(body@) is None,
        },
{
    match ::rss::Channel::read_from(body.as_bytes()) {
        Ok(ch) => Ok(ch.items.into_iter().map(|i| RssItem { title: i.title, link: i.link, description: i.description, pub_date: i.pub_date }).collect()),
        Err(e) => Err(e.to_string()),
    }
}

/// The announcement is for the PC version.
pub open spec fn is_pc_view(u: UpdateItemView) -> bool {
    RssUpdateItem::is_pc_link(u.1)
}

/// The PC updates among the items: each item whose date parses and whose
/// link is a PC link, in feed order.
pub open spec fn pc_updates(items: Seq<RssItemView>) -> Seq<UpdateItemView>
    decreases items.len(),
{
    if items.len() == 0 {
        Seq::empty()
    } else {
        match update_of_item(items.last()) {
            Some(u) => if is_pc_view(u) {
                pc_updates(items.drop_last()).push(u)
            } else {
                pc_updates(items.drop_last())
            },
            None => pc_updates(items.drop_last()),
        }
    }
}

/// The update items as plain values.
pub open spec fn update_views(v: Seq<RssUpdateItem>) -> Seq<UpdateItemView> {
    v.map_values(|u: RssUpdateItem| u.view_tuple())
}

/// The PC updates of the feed items, in order.
pub fn pc_updates_of(items: &Vec<RssItem>) -> (res: Vec<RssUpdateItem>)
    ensures
        update_views(res@) == pc_updates(item_views(items@)),
{
    let ghost is = item_views(items@);
    let mut out: Vec<RssUpdateItem> = Vec::new();
    let mut i: usize = 0;
    assert(is.take(0) =~= Seq::<RssItemView>::empty());
    assert(update_views(out@) =~= Seq::<UpdateItemView>::empty());
    while i < items.len()
        invariant
            i <= items@.len(),
            is == item_views(items@),
            update_views(out@) == pc_updates(is.take(i as int)),
        decreases items@.len() - i,
    {
        assert(is.take(i + 1).drop_last() =~= is.take(i as int));
        assert(is.take(i + 1).last() == items@[i as int]@);
        let ghost before = update_views(out@);
        match RssUpdateItem::from_rss_item(&items[i]) {
            Ok(u) => {
                if u.is_pc_update() {
                    out.push(u);
                    assert(update_views(out@) =~= before.push(out@.last().view_tuple()));
                }
            },
            Err(_) => {},
        }
        i = i + 1;
    }
    assert(is.take(items@.len() as int) =~= is);
    out
}

/// Reads the PC updates from the text of the feed: the items whose date
/// parses and whose link is a PC link, in feed order. A feed that does not
/// parse gives an `RssParse` error.
pub fn parse_rss_updates(body: &str) -> (res: AppResult<Vec<RssUpdateItem>>)
    ensures
        match res {
            Ok(v) => spec_feed_items(body@) matches Some(items) && update_views(v@) == pc_updates(
                items,
            ),
            Err(e) => spec_feed_items(body@) is None && (e matches AppError::RssParse(m) && has_prefix(
                m@,
                "failed to parse RSS feed: "@,
            )),
        },
{
    match read_feed_items(body) {
        Ok(items) => Ok(pc_updates_of(&items)),
        Err(e) => {
            proof {
                lemma_prefix_of_concat("failed to parse RSS feed: "@, e@);
            }
            Err(AppError::RssParse(concat2("failed to parse RSS feed: ", e.as_str())))
        },
    }
}

/// `i` is the last position of a latest item: no item is later than it,
/// and every item after it is earlier.
pub open spec fn is_last_latest(items: Seq<RssUpdateItem>, i: int) -> bool {
    &&& 0 <= i < items.len()
    &&& forall|j: int| 0 <= j < items.len() ==> ts_le(#[trigger] items[j].pub_date, items[i].pub_date)
    &&& forall|j: int| i < j < items.len() ==> !ts_le(items[i].pub_date, #[trigger] items[j].pub_date)
}

/// The latest update, by publication date; of several with the same
/// latest date, the last one (as `Iterator::max_by_key` picks it).
pub fn get_latest_pc_update(items: &[RssUpdateItem]) -> (res: Option<&RssUpdateItem>)
    ensures
        match res {
            Some(r) => exists|i: int| is_last_latest(items@, i) && r == &items@[i],
            None => items@.len() == 0,
        },
{
    if items.len() == 0 {
        return None;
    }
    let mut best: usize = 0;
    let mut i: usize = 1;
    while i < items.len()
        invariant
            1 <= i <= items@.len(),
            best < i,
            forall|j: int| 0 <= j < i ==> ts_le(#[trigger] items@[j].pub_date, items@[best as int].pub_date),
            forall|j: int| best < j < i ==> !ts_le(items@[best as int].pub_date, #[trigger] items@[j].pub_date),
        decreases items@.len() - i,
    {
        if items[best].pub_date.le(&items[i].pub_date) {
            best = i;
        }
        i = i + 1;
    }
    assert(is_last_latest(items@, best as int));
    Some(&items[best])
}

/// Every update kept from a feed is a PC update whose date parses, and
/// no more updates are kept than the feed has items.
pub proof fn lemma_pc_updates_are_pc(items: Seq<RssItemView>)
    ensures
        pc_updates(items).len() <= items.len(),
        forall|k: int| 0 <= k < pc_updates(items).len() ==> is_pc_view(#[trigger] pc_updates(items)[k]),
        forall|k: int| 0 <= k < pc_updates(items).len() ==> exists|j: int|
            0 <= j < items.len() && update_of_item(#[trigger] items[j]) == Some(#[trigger] pc_updates(items)[k]),
    decreases items.len(),
{
    if items.len() > 0 {
        let init = items.drop_last();
        lemma_pc_updates_are_pc(init);
        let prev = pc_updates(init);
        assert forall|k: int| 0 <= k < pc_updates(items).len() implies exists|j: int|
            0 <= j < items.len() && update_of_item(#[trigger] items[j]) == Some(#[trigger] pc_updates(items)[k]) by {
            if k < prev.len() {
                let j = choose|j: int| 0 <= j < init.len() && update_of_item(#[trigger] init[j]) == Some(prev[k]);
                assert(items[j] == init[j]);
            } else {
                assert(items[items.len() - 1] == items.last());
            }
        }
    }
}

} // verus!
