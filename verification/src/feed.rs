//! The most recent posts of my blog, from its RSS feed.
use vstd::prelude::*;

use crate::dates::{rfc2822_day, rfc2822_day_of, DATE_FORMAT};

verus! {

/// The error of the `rss` crate for bytes it cannot read as a channel.
#[verifier::external_type_specification]
#[verifier::external_body]
pub struct ExRssError(rss::Error);

/// What the README reads of an item of the feed.
pub struct FeedItem {
    pub title: Option<String>,
    pub pub_date: Option<String>,
    pub link: Option<String>,
}

/// An item as the contracts see it: title, publication date, link.
pub type FeedItemView = (Option<Seq<char>>, Option<Seq<char>>, Option<Seq<char>>);

/// The view of an optional string.
pub open spec fn opt_view(s: Option<String>) -> Option<Seq<char>> {
    match s {
        Some(t) => Some(t@),
        None => None,
    }
}

impl View for FeedItem {
    type V = FeedItemView;

    open spec fn view(&self) -> FeedItemView {
        (opt_view(self.title), opt_view(self.pub_date), opt_view(self.link))
    }
}

/// The items of the RSS channel in `content`, in the order of the feed, or
/// `None` where `rss::Channel::read_from` refuses the bytes.
pub uninterp spec fn rss_items(content: Seq<u8>) -> Option<Seq<FeedItemView>>;

/// Calls `rss::Channel::read_from` on the bytes and keeps, of each item, its
/// title, publication date and link. Trusted: that it succeeds exactly where
/// `rss_items` has a value, and returns the items it names.
#[verifier::external_body]
fn read_feed_items(content: &[u8]) -> (r: Result<Vec<FeedItem>, rss::Error>)
    ensures
        r is Ok <==> rss_items(content@) is Some,
        r matches Ok(items) ==> rss_items(content@) == Some(items@.map_values(|i: FeedItem| i@)),
{
    let channel = match rss::Channel::read_from(content) {
        Ok(c) => c,
        Err(e) => return Err(e),
    };
    let mut items = Vec::new();
    for i in channel.items() {
        let title = i.title().map(String::from);
        items.push(FeedItem { title, pub_date: i.pub_date().map(String::from), link: i.link().map(String::from) });
    }
    Ok(items)
}

/// A post as the README lists it.
pub struct BlogPost {
    pub title: String,
    pub date: String,
    pub url: String,
}

/// A post as the contracts see it: title, day, link.
pub type BlogPostView = (Seq<char>, Seq<char>, Seq<char>);

/// Why the posts could not be listed.
pub enum FeedError {
    /// The `rss` crate could not read the feed.
    Unreadable,
    /// chrono could not parse this publication date.
    BadDate(String),
}

/// What one item becomes: `None` where the item cannot be listed (no title,
/// no date, or a date but no link), the date chrono refused, or the post with
/// the day of its publication.
pub open spec fn post_outcome(item: FeedItemView) -> Option<Result<BlogPostView, Seq<char>>> {
    match (item.0, item.1) {
        (Some(title), Some(date)) => match rfc2822_day(date, DATE_FORMAT@) {
            None => Some(Err(date)),
            Some(day) => match item.2 {
                None => None,
                Some(link) => Some(Ok((title, day, link))),
            },
        },
        _ => None,
    }
}

/// The posts of the items in turn, stopping at the first that fails:
/// `None` where an item cannot be listed, the refused date, or all the
/// posts.
pub open spec fn posts_of(items: Seq<FeedItemView>) -> Option<Result<Seq<BlogPostView>, Seq<char>>>
    decreases items.len(),
{
    if items.len() == 0 {
        Some(Ok(seq![]))
    } else {
        match posts_of(items.drop_last()) {
            Some(Ok(posts)) => match post_outcome(items.last()) {
                None => None,
                Some(Err(d)) => Some(Err(d)),
                Some(Ok(p)) => Some(Ok(posts.push(p))),
            },
            other => other,
        }
    }
}

/// A post as the contracts see it.
pub open spec fn post_view(p: BlogPost) -> BlogPostView {
    (p.title@, p.date@, p.url@)
}

/// The number of posts the README lists.
pub const POSTS_SHOWN: usize = 5;

/// One post from its item; `None` where the item cannot be listed.
fn post_of(item: &FeedItem) -> (r: Option<Result<BlogPost, FeedError>>)
    ensures
        match r {
            None => post_outcome(item@) is None,
            Some(Err(FeedError::BadDate(d))) => post_outcome(item@) == Some(Err::<BlogPostView, Seq<char>>(d@)),
            Some(Err(FeedError::Unreadable)) => false,
            Some(Ok(p)) => post_outcome(item@) == Some(Ok::<BlogPostView, Seq<char>>(post_view(p))),
        },
{
    let title = match &item.title {
        None => return None,
        Some(t) => t,
    };
    let date = match &item.pub_date {
        None => return None,
        Some(d) => d,
    };
    let day = match rfc2822_day_of(date.as_str()) {
        Err(_) => return Some(Err(FeedError::BadDate(date.clone()))),
        Ok(day) => day,
    };
    match &item.link {
        None => None,
        Some(link) => Some(Ok(BlogPost { title: title.clone(), date: day, url: link.clone() })),
    }
}

/// The first five posts of the feed in `content`. `None` where the posts
/// cannot be listed: the feed has fewer than five items, or one of them lacks what the
/// README shows.
#[verifier::loop_isolation(false)]
pub fn blog_posts_from_feed(content: &[u8]) -> (r: Option<Result<Vec<BlogPost>, FeedError>>)
    ensures
        rss_items(content@) is None ==> r == Some(Err::<Vec<BlogPost>, FeedError>(FeedError::Unreadable)),
        rss_items(content@) is Some ==> {
            let items = rss_items(content@)->0;
            if items.len() < POSTS_SHOWN {
                r is None
            } else {
                match posts_of(items.take(POSTS_SHOWN as int)) {
                    None => r is None,
                    Some(Err(d)) => r matches Some(Err(FeedError::BadDate(e))) && e@ == d,
                    Some(Ok(posts)) => r matches Some(Ok(v)) && v@.map_values(|p: BlogPost| post_view(p)) == posts,
                }
            }
        },
{
    let items = match read_feed_items(content) {
        Err(_) => return Some(Err(FeedError::Unreadable)),
        Ok(items) => items,
    };
    let ghost all = items@.map_values(|i: FeedItem| i@);
    if items.len() < POSTS_SHOWN {
        return None;
    }
    let mut posts: Vec<BlogPost> = Vec::new();
    assert(all.take(0) =~= Seq::<FeedItemView>::empty());
    assert(posts@.map_values(|p: BlogPost| post_view(p)) =~= Seq::<BlogPostView>::empty());
    for i in 0..POSTS_SHOWN
        invariant
            items@.len() >= POSTS_SHOWN,
            all == items@.map_values(|i: FeedItem| i@),
            posts_of(all.take(i as int)) == Some(Ok::<Seq<BlogPostView>, Seq<char>>(posts@.map_values(|p: BlogPost| post_view(p)))),
    {
        assert(all.take(i + 1).drop_last() == all.take(i as int));
        assert(all.take(i + 1).last() == items@[i as int]@);
        assert(all.take(POSTS_SHOWN as int).take(i + 1) == all.take(i + 1));
        match post_of(&items[i]) {
            None => {
                proof { lemma_posts_stop(all.take(POSTS_SHOWN as int), i + 1); }
                return None;
            },
            Some(Err(e)) => {
                proof { lemma_posts_stop(all.take(POSTS_SHOWN as int), i + 1); }
                return Some(Err(e));
            },
            Some(Ok(p)) => {
                let ghost before = posts@.map_values(|p: BlogPost| post_view(p));
                posts.push(p);
                assert(posts@.map_values(|p: BlogPost| post_view(p)) =~= before.push(post_view(p)));
            },
        }
    }
    assert(all.take(POSTS_SHOWN as int).take(POSTS_SHOWN as int) == all.take(POSTS_SHOWN as int));
    Some(Ok(posts))
}

/// Once an item failed, later items change nothing.
pub proof fn lemma_posts_stop(items: Seq<FeedItemView>, j: int)
    requires
        0 <= j <= items.len(),
        !(posts_of(items.take(j)) matches Some(Ok(_))),
    ensures
        posts_of(items) == posts_of(items.take(j)),
    decreases items.len() - j,
{
    if j == items.len() {
        assert(items.take(j) == items);
    } else {
        let shorter = items.drop_last();
        assert(shorter.take(j) == items.take(j));
        lemma_posts_stop(shorter, j);
    }
}

} // verus!
